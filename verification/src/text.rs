//! Text primitives shared by the rest of the crate.
//!
//! Text is modelled as the sequence of its characters. Where the byte length of a text matters
//! (file headers are read up to a byte limit, identifiers are cut at byte positions) the model
//! goes through its UTF-8 encoding.
use vstd::prelude::*;
use vstd::slice::slice_subrange;
use vstd::string::*;
use vstd::utf8::*;

verus! {

/// `core::str::Utf8Error`, carried opaquely.
#[verifier::external_type_specification]
#[verifier::external_body]
pub struct ExUtf8Error(std::str::Utf8Error);

/// `std::str::from_utf8` accepts exactly the valid UTF-8 sequences and hands back the text that
/// they encode.
pub assume_specification[ std::str::from_utf8 ](v: &[u8]) -> (r: Result<
    &str,
    std::str::Utf8Error,
>)
    ensures
        r is Ok <==> valid_utf8(v@),
        r matches Ok(s) ==> s@ == decode_utf8(v@),
;

/// `String::push` appends one character.
pub assume_specification[ String::push ](s: &mut String, c: char)
    ensures
        final(s)@ == old(s)@.push(c),
;

// ---------------------------------------------------------------------------
// Model
// ---------------------------------------------------------------------------
/// The Unicode `White_Space` property.
pub open spec fn is_white_space(c: char) -> bool {
    ||| '\u{9}' <= c <= '\u{d}'
    ||| c == '\u{20}'
    ||| c == '\u{85}'
    ||| c == '\u{a0}'
    ||| c == '\u{1680}'
    ||| '\u{2000}' <= c <= '\u{200a}'
    ||| c == '\u{2028}'
    ||| c == '\u{2029}'
    ||| c == '\u{202f}'
    ||| c == '\u{205f}'
    ||| c == '\u{3000}'
}

/// The characters that trimming white space removes.
pub open spec fn white() -> spec_fn(char) -> bool {
    |c: char| is_white_space(c)
}

/// The single character `q`, as a set of characters to trim.
pub open spec fn only(q: char) -> spec_fn(char) -> bool {
    |c: char| c == q
}

/// `s` without its longest prefix of characters in `p`.
pub open spec fn strip_front(s: Seq<char>, p: spec_fn(char) -> bool) -> Seq<char>
    decreases s.len(),
{
    if s.len() > 0 && p(s[0]) {
        strip_front(s.drop_first(), p)
    } else {
        s
    }
}

/// `s` without its longest suffix of characters in `p`.
pub open spec fn strip_back(s: Seq<char>, p: spec_fn(char) -> bool) -> Seq<char>
    decreases s.len(),
{
    if s.len() > 0 && p(s.last()) {
        strip_back(s.drop_last(), p)
    } else {
        s
    }
}

/// `s` without leading and trailing white space.
pub open spec fn trimmed(s: Seq<char>) -> Seq<char> {
    strip_back(strip_front(s, white()), white())
}

/// `s` without leading and trailing occurrences of `q`.
pub open spec fn trimmed_of(s: Seq<char>, q: char) -> Seq<char> {
    strip_back(strip_front(s, only(q)), only(q))
}

/// `s` begins with `p`.
pub open spec fn has_prefix(s: Seq<char>, p: Seq<char>) -> bool {
    p.len() <= s.len() && s.take(p.len() as int) == p
}

/// `s` ends with `p`.
pub open spec fn has_suffix(s: Seq<char>, p: Seq<char>) -> bool {
    p.len() <= s.len() && s.skip(s.len() - p.len()) == p
}

/// The length of the UTF-8 encoding of `s`.
pub open spec fn byte_len(s: Seq<char>) -> nat {
    encode_utf8(s).len()
}

/// `n`, or the byte length of `s` where that is smaller.
pub open spec fn cut_at(s: Seq<char>, n: nat) -> int {
    if n <= byte_len(s) {
        n as int
    } else {
        byte_len(s) as int
    }
}

/// Cutting `s` after at most `n` bytes does not split a character.
pub open spec fn cuts_cleanly(s: Seq<char>, n: nat) -> bool {
    is_char_boundary(encode_utf8(s), cut_at(s, n))
}

/// The text in the first `n` bytes of `s` (all of `s` where it is no longer than that).
pub open spec fn byte_prefix(s: Seq<char>, n: nat) -> Seq<char> {
    decode_utf8(encode_utf8(s).take(cut_at(s, n)))
}

/// The part of `s` before the first `stop`; all of `s` where there is none.
pub open spec fn until(s: Seq<char>, stop: char) -> Seq<char>
    decreases s.len(),
{
    if s.len() == 0 || s[0] == stop {
        Seq::empty()
    } else {
        seq![s[0]] + until(s.drop_first(), stop)
    }
}

/// The index of the first `x` in `s`; the length of `s` where there is none.
pub open spec fn find<T>(s: Seq<T>, x: T) -> int
    decreases s.len(),
{
    if s.len() == 0 || s[0] == x {
        0
    } else {
        1 + find(s.drop_first(), x)
    }
}

/// The first line of `s` without its line ending.
pub open spec fn first_line(s: Seq<char>) -> Seq<char> {
    let i = find(s, '\n');
    if 0 < i < s.len() && s[i - 1] == '\r' {
        s.take(i - 1)
    } else {
        s.take(i)
    }
}

/// What follows the first line of `s`.
pub open spec fn after_line(s: Seq<char>) -> Seq<char> {
    let i = find(s, '\n');
    if i < s.len() {
        s.skip(i + 1)
    } else {
        Seq::empty()
    }
}

/// `s` without as many trailing copies of `p` as there are.
pub open spec fn strip_suffixes(s: Seq<char>, p: Seq<char>) -> Seq<char>
    decreases s.len(),
{
    if p.len() > 0 && has_suffix(s, p) {
        strip_suffixes(s.take(s.len() - p.len()), p)
    } else {
        s
    }
}

/// The text of a string that may be missing.
pub open spec fn opt_text(o: Option<String>) -> Option<Seq<char>> {
    match o {
        Some(s) => Some(s@),
        None => None,
    }
}

/// The decimal digit with value `d`.
pub open spec fn digit_char(d: nat) -> char {
    (48 + d) as char
}

/// `n` in decimal notation.
pub open spec fn decimal(n: nat) -> Seq<char>
    decreases n,
{
    if n < 10 {
        seq![digit_char(n)]
    } else {
        decimal(n / 10).push(digit_char(n % 10))
    }
}

/// `n` in decimal notation, with a minus sign where it is negative.
pub open spec fn signed_decimal(n: int) -> Seq<char> {
    if n < 0 {
        seq!['-'] + decimal((-n) as nat)
    } else {
        decimal(n as nat)
    }
}

// ---------------------------------------------------------------------------
// Lemmas
// ---------------------------------------------------------------------------
pub proof fn lemma_find<T>(s: Seq<T>, x: T)
    ensures
        0 <= find(s, x) <= s.len(),
        forall|j: int| 0 <= j < find(s, x) ==> s[j] != x,
        find(s, x) < s.len() ==> s[find(s, x)] == x,
    decreases s.len(),
{
    if s.len() == 0 || s[0] == x {
    } else {
        let t = s.drop_first();
        lemma_find(t, x);
        assert forall|j: int| 0 <= j < find(s, x) implies s[j] != x by {
            if j > 0 {
                assert(s[j] == t[j - 1]);
            }
        }
    }
}

/// `find` is the one index with the properties that `lemma_find` lists.
pub proof fn lemma_find_is<T>(s: Seq<T>, x: T, i: int)
    requires
        0 <= i <= s.len(),
        forall|j: int| 0 <= j < i ==> s[j] != x,
        i < s.len() ==> s[i] == x,
    ensures
        find(s, x) == i,
{
    lemma_find(s, x);
    let k = find(s, x);
    if k < i {
        assert(s[k] != x);
    } else if i < k {
        assert(s[i] != x);
    }
}

/// Encoding goes character by character.
pub proof fn lemma_encode_concat(a: Seq<char>, b: Seq<char>)
    ensures
        encode_utf8(a + b) == encode_utf8(a) + encode_utf8(b),
    decreases a.len(),
{
    if a.len() == 0 {
        assert(a + b =~= b);
        assert(encode_utf8(a) + encode_utf8(b) =~= encode_utf8(b));
    } else {
        assert((a + b).drop_first() =~= a.drop_first() + b);
        lemma_encode_concat(a.drop_first(), b);
        assert(encode_utf8(a + b) =~= encode_utf8(a) + encode_utf8(b));
    }
}

/// An ASCII character is encoded as itself, any other one in bytes above the ASCII range.
pub proof fn lemma_encode_one(c: char)
    ensures
        encode_utf8(seq![c]) == encode_scalar(c as u32),
        encode_scalar(c as u32).len() > 0,
        (c as u32) < 0x80 ==> encode_scalar(c as u32) == seq![c as u8],
        (c as u32) >= 0x80 ==> forall|i: int|
            0 <= i < encode_scalar(c as u32).len() ==> (#[trigger] encode_scalar(c as u32)[i]) >= 0x80,
{
    let v = c as u32;
    broadcast use char_is_scalar;
    reveal_with_fuel(encode_utf8, 2);
    assert(seq![c].drop_first() =~= Seq::<char>::empty());
    assert(encode_utf8(seq![c]) =~= encode_scalar(v));
    assert(c as int == v as int);
    assert(v < 0x80 ==> has_width_1_encoding(v) && leading_byte_width_1(v) == v as u8)
        by (bit_vector);
    assert(v >= 0x80 ==> !has_width_1_encoding(v)) by (bit_vector);
    assert(v >= 0x80 ==> leading_byte_width_2(v) >= 0x80 && leading_byte_width_3(v) >= 0x80
        && leading_byte_width_4(v) >= 0x80 && last_continuation_byte(v) >= 0x80
        && second_last_continuation_byte(v) >= 0x80 && third_last_continuation_byte(v) >= 0x80)
        by (bit_vector);
}

proof fn lemma_ascii_bytes_differ(a: char, b: char)
    requires
        (b as u32) < 0x80,
    ensures
        (a as u32) < 0x80 ==> (a as u8 == b as u8 <==> a == b),
        (a as u32) >= 0x80 ==> a != b,
        (b as u8) < 0x80,
{
}

/// The bytes of a text hold an ASCII character exactly where the text does: a text without it is
/// encoded without it.
pub proof fn lemma_encode_without(s: Seq<char>, c: char)
    requires
        (c as u32) < 0x80,
        forall|j: int| 0 <= j < s.len() ==> s[j] != c,
    ensures
        forall|j: int| 0 <= j < encode_utf8(s).len() ==> encode_utf8(s)[j] != c as u8,
    decreases s.len(),
{
    if s.len() > 0 {
        let t = s.drop_first();
        assert forall|j: int| 0 <= j < t.len() implies t[j] != c by {
            assert(t[j] == s[j + 1]);
        }
        lemma_encode_without(t, c);
        lemma_encode_one(s[0]);
        lemma_ascii_bytes_differ(s[0], c);
        let head = encode_scalar(s[0] as u32);
        assert(encode_utf8(s) == head + encode_utf8(t));
        assert forall|j: int| 0 <= j < encode_utf8(s).len() implies encode_utf8(s)[j] != c as u8 by {
            if j < head.len() {
                assert(encode_utf8(s)[j] == head[j]);
            } else {
                assert(encode_utf8(s)[j] == encode_utf8(t)[j - head.len()]);
            }
        }
    }
}

/// The last byte of a text is an ASCII character exactly where the last character is.
pub proof fn lemma_encode_last(s: Seq<char>, c: char)
    requires
        s.len() > 0,
        (c as u32) < 0x80,
    ensures
        encode_utf8(s).len() > 0,
        encode_utf8(s).last() == c as u8 <==> s.last() == c,
{
    let l = s.last();
    assert(s =~= s.drop_last() + seq![l]);
    lemma_encode_concat(s.drop_last(), seq![l]);
    lemma_encode_one(l);
    lemma_ascii_bytes_differ(l, c);
    assert(encode_utf8(s) == encode_utf8(s.drop_last()) + encode_scalar(l as u32));
    assert(encode_utf8(s).last() == encode_scalar(l as u32).last());
}

/// A character takes at most four bytes.
pub proof fn lemma_byte_len_bound(s: Seq<char>)
    ensures
        byte_len(s) <= 4 * s.len(),
    decreases s.len(),
{
    if s.len() > 0 {
        lemma_byte_len_bound(s.drop_first());
    }
}

/// A clean cut keeps whole characters, in the given number of bytes.
pub proof fn lemma_byte_prefix(s: Seq<char>, n: nat)
    requires
        cuts_cleanly(s, n),
    ensures
        has_prefix(s, byte_prefix(s, n)),
        byte_len(byte_prefix(s, n)) == cut_at(s, n),
{
    let b = encode_utf8(s);
    let k = cut_at(s, n);
    encode_utf8_valid_utf8(s);
    encode_utf8_decode_utf8(s);
    valid_utf8_split(b, k);
    decode_utf8_split(b, k);
    assert(b.take(k) =~= b.subrange(0, k));
    decode_utf8_encode_utf8(b.take(k));
    let p = byte_prefix(s, n);
    let rest = decode_utf8(b.subrange(k, b.len() as int));
    assert(s =~= p + rest);
    assert(s.take(p.len() as int) =~= p);
}

/// Of two prefixes of a text, the one with fewer bytes is a prefix of the other.
pub proof fn lemma_prefixes_nest(s: Seq<char>, a: Seq<char>, b: Seq<char>)
    requires
        has_prefix(s, a),
        has_prefix(s, b),
        byte_len(a) <= byte_len(b),
    ensures
        has_prefix(b, a),
{
    if a.len() <= b.len() {
        assert(b.take(a.len() as int) =~= s.take(a.len() as int));
    } else {
        let rest = a.skip(b.len() as int);
        assert(a =~= b + rest) by {
            assert(a.take(b.len() as int) =~= s.take(b.len() as int));
        }
        lemma_encode_concat(b, rest);
        lemma_encode_last(rest, '\n');
    }
}

/// What stands before the first `stop`, where it is known.
pub proof fn lemma_until(p: Seq<char>, rest: Seq<char>, stop: char)
    requires
        forall|i: int| 0 <= i < p.len() ==> p[i] != stop,
        rest.len() > 0 ==> rest[0] == stop,
    ensures
        until(p + rest, stop) == p,
    decreases p.len(),
{
    if p.len() == 0 {
        assert(p + rest =~= rest);
        assert(p =~= Seq::<char>::empty());
    } else {
        let s = p + rest;
        assert(s[0] == p[0]);
        assert(s.drop_first() =~= p.drop_first() + rest);
        assert forall|i: int| 0 <= i < p.drop_first().len() implies p.drop_first()[i] != stop by {
            assert(p.drop_first()[i] == p[i + 1]);
        }
        lemma_until(p.drop_first(), rest, stop);
        assert(seq![p[0]] + p.drop_first() =~= p);
    }
}

/// Trimming the end leaves a prefix.
pub proof fn lemma_strip_back_keeps(s: Seq<char>, p: spec_fn(char) -> bool)
    ensures
        strip_back(s, p).len() <= s.len(),
        strip_back(s, p) == s.take(strip_back(s, p).len() as int),
        strip_back(s, p).len() > 0 ==> !p(strip_back(s, p).last()),
    decreases s.len(),
{
    if s.len() > 0 && p(s.last()) {
        lemma_strip_back_keeps(s.drop_last(), p);
        let t = strip_back(s, p);
        assert(s.drop_last().take(t.len() as int) =~= s.take(t.len() as int));
    } else {
        assert(s.take(s.len() as int) =~= s);
    }
}

/// Trimming the end keeps a first character that is not trimmed.
pub proof fn lemma_strip_back_keeps_first(s: Seq<char>, p: spec_fn(char) -> bool)
    requires
        s.len() > 0,
        !p(s[0]),
    ensures
        strip_back(s, p).len() > 0,
        strip_back(s, p)[0] == s[0],
    decreases s.len(),
{
    if p(s.last()) {
        assert(s.drop_last()[0] == s[0]);
        lemma_strip_back_keeps_first(s.drop_last(), p);
    }
}

/// The bytes of two texts together.
pub proof fn lemma_byte_len_concat(a: Seq<char>, b: Seq<char>)
    ensures
        byte_len(a + b) == byte_len(a) + byte_len(b),
{
    lemma_encode_concat(a, b);
}

/// An ASCII text has as many bytes as characters.
pub proof fn lemma_ascii_byte_len(s: Seq<char>)
    requires
        forall|i: int| 0 <= i < s.len() ==> (#[trigger] s[i]) < '\u{80}',
    ensures
        byte_len(s) == s.len(),
    decreases s.len(),
{
    if s.len() > 0 {
        let t = s.drop_first();
        assert forall|i: int| 0 <= i < t.len() implies (#[trigger] t[i]) < '\u{80}' by {
            assert(t[i] == s[i + 1]);
        }
        lemma_ascii_byte_len(t);
        assert(s[0] < '\u{80}');
        lemma_ascii_scalar(s[0]);
    }
}

proof fn lemma_ascii_scalar(c: char)
    requires
        c < '\u{80}',
    ensures
        encode_scalar(c as u32).len() == 1,
{
    broadcast use char_is_scalar;

    let v = c as u32;
    assert(c as int == v as int);
    lemma_encode_one(c);
}

/// Trimming leaves a text alone that neither begins nor ends with what is trimmed.
pub proof fn lemma_nothing_to_strip(s: Seq<char>, p: spec_fn(char) -> bool)
    requires
        s.len() > 0 ==> !p(s[0]) && !p(s.last()),
    ensures
        strip_back(strip_front(s, p), p) == s,
{
}

// ---------------------------------------------------------------------------
// Executable counterparts
// ---------------------------------------------------------------------------
pub fn white_space(c: char) -> (r: bool)
    ensures
        r == is_white_space(c),
{
    ('\u{9}' <= c && c <= '\u{d}') || c == '\u{20}' || c == '\u{85}' || c == '\u{a0}' || c
        == '\u{1680}' || ('\u{2000}' <= c && c <= '\u{200a}') || c == '\u{2028}' || c == '\u{2029}'
        || c == '\u{202f}' || c == '\u{205f}' || c == '\u{3000}'
}

/// The characters of `s`.
pub fn chars_of(s: &str) -> (r: Vec<char>)
    ensures
        r@ == s@,
{
    let mut v: Vec<char> = Vec::new();
    for c in it: s.chars()
        invariant
            v@ == it.seq().take(it.index() as int),
            it.seq() == s@,
    {
        proof {
            assert(it.seq().take(it.index() as int + 1) =~= it.seq().take(it.index() as int).push(
                c,
            ));
        }
        v.push(c);
    }
    assert(s@.take(s@.len() as int) =~= s@);
    v
}

/// The text made of the characters of `v`.
pub fn string_of(v: &[char]) -> (r: String)
    ensures
        r@ == v@,
{
    let mut s = String::new();
    let mut i: usize = 0;
    assert(v@.take(0) =~= Seq::<char>::empty());
    while i < v.len()
        invariant
            i <= v@.len(),
            s@ == v@.take(i as int),
        decreases v@.len() - i,
    {
        s.push(v[i]);
        proof {
            assert(v@.take(i as int + 1) =~= v@.take(i as int).push(v@[i as int]));
        }
        i += 1;
    }
    assert(v@.take(v@.len() as int) =~= v@);
    s
}

/// Whether two slices hold the same characters.
pub fn same_chars(a: &[char], b: &[char]) -> (r: bool)
    ensures
        r == (a@ == b@),
{
    if a.len() != b.len() {
        return false;
    }
    let mut i: usize = 0;
    while i < a.len()
        invariant
            i <= a@.len(),
            a@.len() == b@.len(),
            forall|j: int| 0 <= j < i ==> a@[j] == b@[j],
        decreases a@.len() - i,
    {
        if a[i] != b[i] {
            return false;
        }
        i += 1;
    }
    assert(a@ =~= b@);
    true
}

/// Whether two texts are equal.
pub fn same_text(a: &str, b: &str) -> (r: bool)
    ensures
        r == (a@ == b@),
{
    let x = a.as_bytes();
    let y = b.as_bytes();
    proof {
        encode_utf8_decode_utf8(a@);
        encode_utf8_decode_utf8(b@);
    }
    if x.len() != y.len() {
        return false;
    }
    let mut i: usize = 0;
    while i < x.len()
        invariant
            i <= x@.len(),
            x@.len() == y@.len(),
            x@ == encode_utf8(a@),
            y@ == encode_utf8(b@),
            forall|j: int| 0 <= j < i ==> x@[j] == y@[j],
        decreases x@.len() - i,
    {
        if x[i] != y[i] {
            return false;
        }
        i += 1;
    }
    assert(x@ =~= y@);
    true
}

/// Whether `v` spells `s`.
pub fn spells(v: &[char], s: &str) -> (r: bool)
    ensures
        r == (v@ == s@),
{
    let w = chars_of(s);
    same_chars(v, w.as_slice())
}

proof fn lemma_strip_front_step(s: Seq<char>, i: int, p: spec_fn(char) -> bool)
    requires
        0 <= i < s.len(),
        p(s[i]),
    ensures
        strip_front(s.skip(i), p) == strip_front(s.skip(i + 1), p),
{
    assert(s.skip(i).drop_first() =~= s.skip(i + 1));
}

proof fn lemma_strip_back_step(s: Seq<char>, i: int, p: spec_fn(char) -> bool)
    requires
        0 < i <= s.len(),
        p(s[i - 1]),
    ensures
        strip_back(s.take(i), p) == strip_back(s.take(i - 1), p),
{
    assert(s.take(i).drop_last() =~= s.take(i - 1));
}

/// `v` without leading white space.
pub fn trim_start(v: &[char]) -> (r: &[char])
    ensures
        r@ == strip_front(v@, white()),
{
    let mut i: usize = 0;
    assert(v@.skip(0) =~= v@);
    while i < v.len() && white_space(v[i])
        invariant
            i <= v@.len(),
            strip_front(v@, white()) == strip_front(v@.skip(i as int), white()),
        decreases v@.len() - i,
    {
        proof {
            lemma_strip_front_step(v@, i as int, white());
        }
        i += 1;
    }
    assert(v@.subrange(i as int, v@.len() as int) =~= v@.skip(i as int));
    slice_subrange(v, i, v.len())
}

/// `v` without leading and trailing white space.
pub fn trim(v: &[char]) -> (r: &[char])
    ensures
        r@ == trimmed(v@),
{
    let w = trim_start(v);
    let mut i: usize = w.len();
    assert(w@.take(w@.len() as int) =~= w@);
    while i > 0 && white_space(w[i - 1])
        invariant
            i <= w@.len(),
            strip_back(w@, white()) == strip_back(w@.take(i as int), white()),
        decreases i,
    {
        proof {
            lemma_strip_back_step(w@, i as int, white());
        }
        i -= 1;
    }
    assert(w@.subrange(0, i as int) =~= w@.take(i as int));
    slice_subrange(w, 0, i)
}

/// `v` without trailing occurrences of `q`.
pub fn trim_end_of(v: &[char], q: char) -> (r: &[char])
    ensures
        r@ == strip_back(v@, only(q)),
{
    let mut i: usize = v.len();
    assert(v@.take(v@.len() as int) =~= v@);
    while i > 0 && v[i - 1] == q
        invariant
            i <= v@.len(),
            strip_back(v@, only(q)) == strip_back(v@.take(i as int), only(q)),
        decreases i,
    {
        proof {
            lemma_strip_back_step(v@, i as int, only(q));
        }
        i -= 1;
    }
    assert(v@.subrange(0, i as int) =~= v@.take(i as int));
    slice_subrange(v, 0, i)
}

/// `v` without leading and trailing occurrences of `q`.
pub fn trim_of(v: &[char], q: char) -> (r: &[char])
    ensures
        r@ == trimmed_of(v@, q),
{
    let mut i: usize = 0;
    assert(v@.skip(0) =~= v@);
    while i < v.len() && v[i] == q
        invariant
            i <= v@.len(),
            strip_front(v@, only(q)) == strip_front(v@.skip(i as int), only(q)),
        decreases v@.len() - i,
    {
        proof {
            lemma_strip_front_step(v@, i as int, only(q));
        }
        i += 1;
    }
    assert(v@.subrange(i as int, v@.len() as int) =~= v@.skip(i as int));
    trim_end_of(slice_subrange(v, i, v.len()), q)
}

/// Whether `v` begins with the characters of `p`.
pub fn starts_with(v: &[char], p: &[char]) -> (r: bool)
    ensures
        r == has_prefix(v@, p@),
{
    if p.len() > v.len() {
        return false;
    }
    assert(v@.subrange(0, p@.len() as int) =~= v@.take(p@.len() as int));
    same_chars(slice_subrange(v, 0, p.len()), p)
}

/// Whether `v` ends with the characters of `p`.
pub fn ends_with(v: &[char], p: &[char]) -> (r: bool)
    ensures
        r == has_suffix(v@, p@),
{
    if p.len() > v.len() {
        return false;
    }
    assert(v@.subrange(v@.len() - p@.len(), v@.len() as int) =~= v@.skip(v@.len() - p@.len()));
    same_chars(slice_subrange(v, v.len() - p.len(), v.len()), p)
}

/// What follows `p` in `v`, where `v` begins with it.
pub fn strip_prefix<'a>(v: &'a [char], p: &str) -> (r: Option<&'a [char]>)
    ensures
        r is Some <==> has_prefix(v@, p@),
        r matches Some(rest) ==> rest@ == v@.skip(p@.len() as int),
{
    let q = chars_of(p);
    if starts_with(v, q.as_slice()) {
        assert(v@.subrange(p@.len() as int, v@.len() as int) =~= v@.skip(p@.len() as int));
        Some(slice_subrange(v, q.len(), v.len()))
    } else {
        None
    }
}

/// Whether cutting `s` after at most `n` bytes splits no character.
pub fn can_cut(s: &str, n: usize) -> (r: bool)
    ensures
        r == cuts_cleanly(s@, n as nat),
{
    let len = s.as_bytes().len();
    let m: usize = if n <= len {
        n
    } else {
        len
    };
    s.is_char_boundary(m)
}

/// The text in the first `n` bytes of `s`, or all of `s` where it is shorter.
pub fn take_bytes(s: &str, n: usize) -> (r: &str)
    requires
        cuts_cleanly(s@, n as nat),
    ensures
        r@ == byte_prefix(s@, n as nat),
{
    let len = s.as_bytes().len();
    let m: usize = if n <= len {
        n
    } else {
        len
    };
    let (head, _) = s.split_at(m);
    proof {
        encode_utf8_decode_utf8(head@);
        assert(encode_utf8(s@).subrange(0, m as int) =~= encode_utf8(s@).take(m as int));
    }
    head
}

/// The part of `v` before the first `stop`.
pub fn take_until(v: &[char], stop: char) -> (r: &[char])
    ensures
        r@ == until(v@, stop),
{
    let mut i: usize = 0;
    assert(v@.skip(0) =~= v@);
    assert(v@.take(0) + until(v@, stop) =~= until(v@, stop));
    while i < v.len() && v[i] != stop
        invariant
            i <= v@.len(),
            until(v@, stop) == v@.take(i as int) + until(v@.skip(i as int), stop),
        decreases v@.len() - i,
    {
        proof {
            let rest = v@.skip(i as int);
            assert(rest.drop_first() =~= v@.skip(i as int + 1));
            assert(v@.take(i as int) + (seq![rest[0]] + until(rest.drop_first(), stop))
                =~= v@.take(i as int + 1) + until(v@.skip(i as int + 1), stop));
        }
        i += 1;
    }
    assert(v@.take(i as int) + Seq::<char>::empty() =~= v@.take(i as int));
    assert(v@.subrange(0, i as int) =~= v@.take(i as int));
    slice_subrange(v, 0, i)
}

/// `v` without as many trailing copies of `p` as there are.
pub fn trim_suffixes<'a>(v: &'a [char], p: &[char]) -> (r: &'a [char])
    requires
        p@.len() > 0,
    ensures
        r@ == strip_suffixes(v@, p@),
{
    let mut w = v;
    while ends_with(w, p)
        invariant
            p@.len() > 0,
            strip_suffixes(v@, p@) == strip_suffixes(w@, p@),
        decreases w@.len(),
    {
        let n: usize = w.len() - p.len();
        assert(w@.subrange(0, n as int) =~= w@.take(n as int));
        w = slice_subrange(w, 0, n);
    }
    w
}

/// Appends `n` in decimal notation.
pub fn push_decimal(out: &mut String, n: u64)
    ensures
        final(out)@ == old(out)@ + decimal(n as nat),
    decreases n,
{
    if n >= 10 {
        push_decimal(out, n / 10);
    }
    let d: u8 = (n % 10) as u8;
    out.push((48 + d) as char);
    proof {
        if n >= 10 {
            assert(final(out)@ =~= old(out)@ + decimal((n / 10) as nat).push(
                digit_char((n % 10) as nat),
            ));
        } else {
            assert(final(out)@ =~= old(out)@ + seq![digit_char(n as nat)]);
        }
    }
}

/// Appends `n` in decimal notation, with a minus sign where it is negative.
pub fn push_signed_decimal(out: &mut String, n: i32)
    ensures
        final(out)@ == old(out)@ + signed_decimal(n as int),
{
    if n < 0 {
        out.push('-');
        push_decimal(out, (-(n as i64)) as u64);
        assert(final(out)@ =~= old(out)@ + signed_decimal(n as int));
    } else {
        push_decimal(out, n as u64);
    }
}

/// The concatenation of two texts.
pub fn join(a: &str, b: &str) -> (r: String)
    ensures
        r@ == a@ + b@,
{
    let mut s = a.to_owned();
    s.append(b);
    s
}

// ---------------------------------------------------------------------------
// Laws
// ---------------------------------------------------------------------------

/// White space is what Unicode lists as such.
pub proof fn law_white_space(c: char)
    ensures
        is_white_space(c) <==> {
            let n = c as u32;
            9 <= n <= 13 || n == 32 || n == 0x85 || n == 0xa0 || n == 0x1680 || 0x2000 <= n <= 0x200a
                || n == 0x2028 || n == 0x2029 || n == 0x202f || n == 0x205f || n == 0x3000
        },
        white()(c) == is_white_space(c),
{
}

/// Trimming the front takes away just the leading characters of the set.
pub proof fn law_strip_front(s: Seq<char>, p: spec_fn(char) -> bool)
    ensures
        ({
            let i = s.len() - strip_front(s, p).len();
            &&& 0 <= i <= s.len()
            &&& strip_front(s, p) == s.skip(i)
            &&& forall|k: int| 0 <= k < i ==> p(#[trigger] s[k])
            &&& i < s.len() ==> !p(s[i])
        }),
    decreases s.len(),
{
    if s.len() > 0 && p(s[0]) {
        let t = s.drop_first();
        law_strip_front(t, p);
        let i = s.len() - strip_front(s, p).len();
        assert(t.skip(i - 1) =~= s.skip(i));
        assert forall|k: int| 0 <= k < i implies p(#[trigger] s[k]) by {
            if k > 0 {
                assert(s[k] == t[k - 1]);
            }
        }
        if i < s.len() {
            assert(s[i] == t[i - 1]);
        }
    } else {
        assert(s.skip(0) =~= s);
    }
}

/// Trimming the back takes away just the trailing characters of the set.
pub proof fn law_strip_back(s: Seq<char>, p: spec_fn(char) -> bool)
    ensures
        ({
            let j = strip_back(s, p).len() as int;
            &&& j <= s.len()
            &&& strip_back(s, p) == s.take(j)
            &&& forall|k: int| j <= k < s.len() ==> p(#[trigger] s[k])
            &&& j > 0 ==> !p(s[j - 1])
        }),
    decreases s.len(),
{
    if s.len() > 0 && p(s.last()) {
        let t = s.drop_last();
        law_strip_back(t, p);
        let j = strip_back(s, p).len() as int;
        assert(t.take(j) =~= s.take(j));
        assert forall|k: int| j <= k < s.len() implies p(#[trigger] s[k]) by {
            if k < t.len() {
                assert(s[k] == t[k]);
            }
        }
    } else {
        assert(s.take(s.len() as int) =~= s);
    }
}

/// A text is its trimmed form between white space, and the trimmed form has none at its ends.
pub proof fn law_trimmed(s: Seq<char>)
    ensures
        exists|a: Seq<char>, b: Seq<char>|
            {
                &&& s == #[trigger] (a + trimmed(s) + b)
                &&& forall|k: int| 0 <= k < a.len() ==> is_white_space(#[trigger] a[k])
                &&& forall|k: int| 0 <= k < b.len() ==> is_white_space(#[trigger] b[k])
            },
        trimmed(s).len() > 0 ==> !is_white_space(trimmed(s)[0]) && !is_white_space(
            trimmed(s).last(),
        ),
{
    lemma_trimmed_by(s, white());
    let (a, b) = choose|a: Seq<char>, b: Seq<char>|
        {
            &&& s == #[trigger] (a + trimmed(s) + b)
            &&& forall|k: int| 0 <= k < a.len() ==> white()(#[trigger] a[k])
            &&& forall|k: int| 0 <= k < b.len() ==> white()(#[trigger] b[k])
        };
    assert forall|k: int| 0 <= k < a.len() implies is_white_space(#[trigger] a[k]) by {
        assert(white()(a[k]));
    }
    assert forall|k: int| 0 <= k < b.len() implies is_white_space(#[trigger] b[k]) by {
        assert(white()(b[k]));
    }
}

/// A text is its form without quotes between quotes, and that form has none at its ends.
pub proof fn law_trimmed_of(s: Seq<char>, q: char)
    ensures
        exists|a: Seq<char>, b: Seq<char>|
            {
                &&& s == #[trigger] (a + trimmed_of(s, q) + b)
                &&& forall|k: int| 0 <= k < a.len() ==> #[trigger] a[k] == q
                &&& forall|k: int| 0 <= k < b.len() ==> #[trigger] b[k] == q
            },
        trimmed_of(s, q).len() > 0 ==> trimmed_of(s, q)[0] != q && trimmed_of(s, q).last() != q,
{
    lemma_trimmed_by(s, only(q));
    let (a, b) = choose|a: Seq<char>, b: Seq<char>|
        {
            &&& s == #[trigger] (a + trimmed_of(s, q) + b)
            &&& forall|k: int| 0 <= k < a.len() ==> only(q)(#[trigger] a[k])
            &&& forall|k: int| 0 <= k < b.len() ==> only(q)(#[trigger] b[k])
        };
    assert forall|k: int| 0 <= k < a.len() implies #[trigger] a[k] == q by {
        assert(only(q)(a[k]));
    }
    assert forall|k: int| 0 <= k < b.len() implies #[trigger] b[k] == q by {
        assert(only(q)(b[k]));
    }
}

proof fn lemma_trimmed_by(s: Seq<char>, p: spec_fn(char) -> bool)
    ensures
        ({
            let t = strip_back(strip_front(s, p), p);
            &&& exists|a: Seq<char>, b: Seq<char>|
                {
                    &&& s == #[trigger] (a + t + b)
                    &&& forall|k: int| 0 <= k < a.len() ==> p(#[trigger] a[k])
                    &&& forall|k: int| 0 <= k < b.len() ==> p(#[trigger] b[k])
                }
            &&& t.len() > 0 ==> !p(t[0]) && !p(t.last())
        }),
{
    law_strip_front(s, p);
    let f = strip_front(s, p);
    law_strip_back(f, p);
    let t = strip_back(f, p);
    let i = s.len() - f.len();
    let a = s.take(i);
    let b = f.skip(t.len() as int);
    assert forall|k: int| 0 <= k < a.len() implies p(#[trigger] a[k]) by {
        assert(a[k] == s[k]);
    }
    assert forall|k: int| 0 <= k < b.len() implies p(#[trigger] b[k]) by {
        assert(b[k] == f[t.len() + k]);
    }
    assert(s =~= a + t + b);
    if t.len() > 0 {
        assert(t[0] == f[0] && f[0] == s[i]);
        assert(t.last() == f[t.len() - 1]);
    }
}

/// A text begins with another where all characters of that other one stand at its front, and ends
/// with it where they stand at its back.
pub proof fn law_prefix_and_suffix(s: Seq<char>, p: Seq<char>)
    ensures
        has_prefix(s, p) <==> p.len() <= s.len() && forall|i: int|
            0 <= i < p.len() ==> #[trigger] s[i] == p[i],
        has_suffix(s, p) <==> p.len() <= s.len() && forall|i: int|
            0 <= i < p.len() ==> s[s.len() - p.len() + i] == #[trigger] p[i],
{
    if p.len() <= s.len() {
        let a = s.take(p.len() as int);
        let b = s.skip(s.len() - p.len());
        if forall|i: int| 0 <= i < p.len() ==> #[trigger] s[i] == p[i] {
            assert(a =~= p);
        }
        if has_prefix(s, p) {
            assert forall|i: int| 0 <= i < p.len() implies #[trigger] s[i] == p[i] by {
                assert(a[i] == s[i]);
            }
        }
        if forall|i: int| 0 <= i < p.len() ==> s[s.len() - p.len() + i] == #[trigger] p[i] {
            assert forall|i: int| 0 <= i < p.len() implies b[i] == p[i] by {
                assert(b[i] == s[s.len() - p.len() + i]);
            }
            assert(b =~= p);
        }
        if has_suffix(s, p) {
            assert forall|i: int| 0 <= i < p.len() implies s[s.len() - p.len() + i]
                == #[trigger] p[i] by {
                assert(b[i] == s[s.len() - p.len() + i]);
            }
        }
    }
}

/// What stands before the first stop: a front part without it, behind which the stop or nothing
/// follows.
pub proof fn law_until(s: Seq<char>, stop: char)
    ensures
        ({
            let n = until(s, stop).len() as int;
            &&& n <= s.len()
            &&& until(s, stop) == s.take(n)
            &&& forall|i: int| 0 <= i < n ==> #[trigger] s[i] != stop
            &&& n < s.len() ==> s[n] == stop
        }),
{
    lemma_find(s, stop);
    let n = find(s, stop);
    let p = s.take(n);
    let rest = s.skip(n);
    assert(s =~= p + rest);
    assert forall|i: int| 0 <= i < p.len() implies p[i] != stop by {
        assert(p[i] == s[i]);
    }
    lemma_until(p, rest, stop);
}

/// Trailing copies are taken away one by one, and none is left.
pub proof fn law_strip_suffixes(s: Seq<char>, p: Seq<char>)
    requires
        p.len() > 0,
    ensures
        strip_suffixes(s + p, p) == strip_suffixes(s, p),
        !has_suffix(s, p) ==> strip_suffixes(s, p) == s,
        !has_suffix(strip_suffixes(s, p), p),
    decreases s.len(),
{
    let t = s + p;
    assert(t.skip(t.len() - p.len()) =~= p);
    assert(t.take(t.len() - p.len()) =~= s);
    if has_suffix(s, p) {
        law_strip_suffixes(s.take(s.len() - p.len()), p);
    }
}

proof fn lemma_boundary(a: Seq<char>, b: Seq<char>)
    ensures
        is_char_boundary(encode_utf8(a + b), encode_utf8(a).len() as int),
    decreases a.len(),
{
    encode_utf8_valid_utf8(a + b);
    if a.len() > 0 {
        let s = a + b;
        encode_utf8_first_scalar(s);
        let t = a.drop_first();
        assert(s.drop_first() =~= t + b);
        assert(s[0] == a[0]);
        lemma_boundary(t, b);
        let bytes = encode_utf8(s);
        assert(pop_first_scalar(bytes) =~= encode_utf8(t + b));
        assert(encode_utf8(a) == encode_scalar(a[0] as u32) + encode_utf8(t));
        lemma_encode_concat(a, b);
    }
}

/// Cutting a text behind the bytes of a front part gives that part, and a text that is not longer
/// than the cut stays whole.
pub proof fn law_byte_prefix(a: Seq<char>, b: Seq<char>, n: nat)
    ensures
        n == encode_utf8(a).len() ==> cuts_cleanly(a + b, n) && byte_prefix(a + b, n) == a,
        n >= encode_utf8(a).len() ==> cuts_cleanly(a, n) && byte_prefix(a, n) == a,
{
    lemma_encode_concat(a, b);
    encode_utf8_decode_utf8(a);
    let s = a + b;
    if n == encode_utf8(a).len() {
        lemma_boundary(a, b);
        assert(encode_utf8(s).take(n as int) =~= encode_utf8(a));
    }
    if n >= encode_utf8(a).len() {
        let none = Seq::<char>::empty();
        lemma_boundary(a, none);
        assert(a + none =~= a);
        assert(encode_utf8(a).take(encode_utf8(a).len() as int) =~= encode_utf8(a));
    }
}

/// A clean cut gives the text in just so many bytes.
pub proof fn law_cut_keeps_bytes(s: Seq<char>, n: nat)
    requires
        cuts_cleanly(s, n),
    ensures
        encode_utf8(byte_prefix(s, n)).len() == (if n <= encode_utf8(s).len() {
            n
        } else {
            encode_utf8(s).len()
        }),
        byte_prefix(s, n) == s.take(byte_prefix(s, n).len() as int),
        byte_prefix(s, n).len() <= s.len(),
{
    lemma_byte_prefix(s, n);
}

/// The length of a text in bytes is that of its UTF-8 encoding.
pub proof fn law_byte_len(s: Seq<char>)
    ensures
        byte_len(s) == encode_utf8(s).len(),
{
}

/// Decimal notation: one digit for a number below ten, and otherwise the digits of a tenth of it and
/// the last digit.
pub proof fn law_decimal(n: nat)
    ensures
        n < 10 ==> decimal(n).len() == 1 && decimal(n)[0] as int == '0' as int + n,
        n >= 10 ==> decimal(n).drop_last() == decimal(n / 10) && decimal(n).last() as int
            == '0' as int + n % 10,
        decimal(n).len() > 0,
{
    if n >= 10 {
        assert(decimal(n).drop_last() =~= decimal(n / 10));
    }
}

/// A negative number has a minus sign before the digits of its opposite.
pub proof fn law_signed_decimal(n: nat)
    ensures
        signed_decimal(n as int) == decimal(n),
        n > 0 ==> signed_decimal(-n) == seq!['-'] + decimal(n),
{
}

/// A string that may be missing: its text where it is there.
pub proof fn law_opt_text(o: Option<String>)
    ensures
        opt_text(o) is Some <==> o is Some,
        o matches Some(s) ==> opt_text(o) == Some(s@),
{
}

/// What is left of a text between white space.
pub proof fn lemma_trimmed_is(a: Seq<char>, m: Seq<char>, b: Seq<char>)
    requires
        forall|k: int| 0 <= k < a.len() ==> is_white_space(#[trigger] a[k]),
        forall|k: int| 0 <= k < b.len() ==> is_white_space(#[trigger] b[k]),
        m.len() > 0,
        !is_white_space(m[0]),
        !is_white_space(m.last()),
    ensures
        trimmed(a + m + b) == m,
{
    let p = white();
    let s = a + m + b;
    law_strip_front(s, p);
    let i = s.len() - strip_front(s, p).len();
    if i < a.len() {
        assert(s[i] == a[i]);
        assert(is_white_space(a[i]));
    } else if i > a.len() {
        assert(p(s[a.len() as int]));
        assert(s[a.len() as int] == m[0]);
    }
    let f = strip_front(s, p);
    assert(f =~= m + b);
    law_strip_back(f, p);
    let j = strip_back(f, p).len() as int;
    if j < m.len() {
        assert(p(f[m.len() - 1]));
        assert(f[m.len() - 1] == m.last());
    } else if j > m.len() {
        assert(f[j - 1] == b[j - 1 - m.len()]);
        assert(is_white_space(b[j - 1 - m.len()]));
    }
    assert(f.take(j) =~= m);
}

} // verus!
