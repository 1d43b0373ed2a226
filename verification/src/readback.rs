//! What is read back from the header of a document that was written here.
//!
//! The header is written by one side as YAML and read by the other line by line. The lemmas of
//! this module follow the reader through the text that the writer lays out.
use crate::frontmatter;
use crate::frontmatter::Header;
use crate::importer;
use crate::text;
use crate::timestamp;
use crate::utils;
use crate::utils::{FileHeader, HeaderLine, HeaderSoFar};
use crate::yaml;
use crate::yaml::YamlNode;
use vstd::prelude::*;
use vstd::utf8::*;

verus! {

// ---------------------------------------------------------------------------
// The reader, on text in place of bytes
// ---------------------------------------------------------------------------
/// The number of bytes read after the first line of `s`, where `n` were read before it.
spec fn count_line(s: Seq<char>, n: int) -> int {
    n + text::byte_len(text::first_line(s)) + 1
}

/// What the header lines in `s` say, read up to a fence or to the byte limit.
spec fn scan(s: Seq<char>, n: int, h: HeaderSoFar) -> HeaderSoFar
    decreases s.len(),
{
    if s.len() == 0 {
        h
    } else {
        proof {
            text::lemma_find(s, '\n');
        }
        if count_line(s, n) > utils::HEADER_LIMIT || utils::is_fence(text::first_line(s)) {
            h
        } else {
            scan(
                text::after_line(s),
                count_line(s, n),
                utils::after_saying(h, utils::line_meaning(text::first_line(s))),
            )
        }
    }
}

/// The reader goes through all lines of `s`: they lie within the byte limit, `n` bytes having been
/// read before, and none of them is a fence.
spec fn is_read_through(s: Seq<char>, n: int) -> bool
    decreases s.len(),
{
    if s.len() == 0 {
        true
    } else {
        proof {
            text::lemma_find(s, '\n');
        }
        &&& count_line(s, n) <= utils::HEADER_LIMIT
        &&& !utils::is_fence(text::first_line(s))
        &&& is_read_through(text::after_line(s), count_line(s, n))
    }
}

/// What all lines of `s` say.
spec fn told(s: Seq<char>, h: HeaderSoFar) -> HeaderSoFar
    decreases s.len(),
{
    if s.len() == 0 {
        h
    } else {
        proof {
            text::lemma_find(s, '\n');
        }
        told(text::after_line(s), utils::after_saying(h, utils::line_meaning(text::first_line(s))))
    }
}

/// The number of bytes read after all lines of `s`.
spec fn counted(s: Seq<char>, n: int) -> int
    decreases s.len(),
{
    if s.len() == 0 {
        n
    } else {
        proof {
            text::lemma_find(s, '\n');
        }
        counted(text::after_line(s), count_line(s, n))
    }
}

/// Lines of bytes are the encoded lines of text.
proof fn lemma_lines_encoded(s: Seq<char>)
    ensures
        utils::first_line(encode_utf8(s)) == encode_utf8(text::first_line(s)),
        utils::after_line(encode_utf8(s)) == encode_utf8(text::after_line(s)),
        s.len() > 0 <==> encode_utf8(s).len() > 0,
{
    let b = encode_utf8(s);
    let i = text::find(s, '\n');
    text::lemma_find(s, '\n');
    let head = s.take(i);
    let tail = s.skip(i);
    assert(s =~= head + tail);
    text::lemma_encode_concat(head, tail);
    let k = encode_utf8(head).len() as int;
    assert forall|j: int| 0 <= j < head.len() implies head[j] != '\n' by {
        assert(head[j] == s[j]);
    }
    text::lemma_encode_without(head, '\n');
    assert forall|j: int| 0 <= j < k implies b[j] != 10u8 by {
        assert(b[j] == encode_utf8(head)[j]);
        assert('\n' as u8 == 10u8);
    }
    if s.len() > 0 {
        text::lemma_encode_last(s, '\n');
    }
    if i < s.len() {
        let rest = s.skip(i + 1);
        assert(tail =~= seq!['\n'] + rest);
        text::lemma_encode_concat(seq!['\n'], rest);
        text::lemma_encode_one('\n');
        assert('\n' as u8 == 10u8);
        assert(encode_utf8(tail) == seq![10u8] + encode_utf8(rest));
        assert(b[k] == encode_utf8(tail)[0]);
        text::lemma_find_is(b, 10u8, k);
        assert(b.skip(k + 1) =~= encode_utf8(rest));
        assert(b.take(k) =~= encode_utf8(head));
        if i > 0 {
            text::lemma_encode_last(head, '\r');
            assert('\r' as u8 == 13u8);
            assert(head.last() == s[i - 1]);
            assert(b[k - 1] == encode_utf8(head).last());
            if s[i - 1] == '\r' {
                let h2 = s.take(i - 1);
                assert(head =~= h2 + seq!['\r']);
                text::lemma_encode_concat(h2, seq!['\r']);
                text::lemma_encode_one('\r');
                assert(encode_utf8(head) == encode_utf8(h2) + seq![13u8]);
                assert(b.take(k - 1) =~= encode_utf8(h2));
            }
        } else {
            assert(head =~= Seq::<char>::empty());
            assert(k == 0);
        }
    } else {
        assert(tail =~= Seq::<char>::empty());
        assert(head =~= s);
        text::lemma_find_is(b, 10u8, k);
        assert(b.take(k) =~= b);
    }
}

/// Reading the bytes of a text is reading the text.
proof fn lemma_scan_encoded(s: Seq<char>, n: int, h: HeaderSoFar)
    ensures
        utils::header_scan(encode_utf8(s), n, h) == Some(scan(s, n, h)),
    decreases s.len(),
{
    lemma_lines_encoded(s);
    if s.len() > 0 {
        text::lemma_find(s, '\n');
        let line = text::first_line(s);
        encode_utf8_valid_utf8(line);
        encode_utf8_decode_utf8(line);
        lemma_scan_encoded(
            text::after_line(s),
            count_line(s, n),
            utils::after_saying(h, utils::line_meaning(line)),
        );
    }
}

/// `s` holds whole lines.
spec fn is_lines(s: Seq<char>) -> bool {
    s.len() > 0 ==> s.last() == '\n'
}

/// The first line of whole lines is not affected by what follows them.
proof fn lemma_first_of_lines(p: Seq<char>, r: Seq<char>)
    requires
        p.len() > 0,
        is_lines(p),
    ensures
        text::first_line(p + r) == text::first_line(p),
        text::after_line(p + r) == text::after_line(p) + r,
        is_lines(text::after_line(p)),
        text::after_line(p).len() < p.len(),
{
    text::lemma_find(p, '\n');
    let i = text::find(p, '\n');
    assert(i < p.len()) by {
        if i == p.len() {
            assert(p[p.len() - 1] != '\n');
        }
    }
    let s = p + r;
    assert forall|j: int| 0 <= j < i implies s[j] != '\n' by {
        assert(s[j] == p[j]);
    }
    assert(s[i] == p[i]);
    text::lemma_find_is(s, '\n', i);
    assert(s.take(i) =~= p.take(i));
    if i > 0 {
        assert(s[i - 1] == p[i - 1]);
        assert(s.take(i - 1) =~= p.take(i - 1));
    }
    assert(s.skip(i + 1) =~= p.skip(i + 1) + r);
    if p.skip(i + 1).len() > 0 {
        assert(p.skip(i + 1).last() == p.last());
    }
}

/// Having gone through whole lines, the reader goes on with what they said.
proof fn lemma_scan_through(p: Seq<char>, r: Seq<char>, n: int, h: HeaderSoFar)
    requires
        is_lines(p),
        is_read_through(p, n),
    ensures
        scan(p + r, n, h) == scan(r, counted(p, n), told(p, h)),
    decreases p.len(),
{
    if p.len() == 0 {
        assert(p + r =~= r);
    } else {
        lemma_first_of_lines(p, r);
        lemma_scan_through(
            text::after_line(p),
            r,
            count_line(p, n),
            utils::after_saying(h, utils::line_meaning(text::first_line(p))),
        );
    }
}

/// What whole lines and then further lines say.
proof fn lemma_told_concat(a: Seq<char>, b: Seq<char>, h: HeaderSoFar)
    requires
        is_lines(a),
    ensures
        told(a + b, h) == told(b, told(a, h)),
    decreases a.len(),
{
    if a.len() == 0 {
        assert(a + b =~= b);
    } else {
        lemma_first_of_lines(a, b);
        lemma_told_concat(
            text::after_line(a),
            b,
            utils::after_saying(h, utils::line_meaning(text::first_line(a))),
        );
    }
}

// ---------------------------------------------------------------------------
// What the entries of a header say
// ---------------------------------------------------------------------------
/// No line of `s` begins like one that the reader looks for.
spec fn is_silent(s: Seq<char>) -> bool {
    &&& s.len() > 0 ==> s[0] != 'i' && s[0] != 'u' && s[0] != 'c'
    &&& forall|j: int| 0 < j < s.len() && s[j - 1] == '\n' ==> !('a' <= #[trigger] s[j] <= 'z')
}

proof fn lemma_silent_line(line: Seq<char>)
    requires
        line.len() > 0 ==> line[0] != 'i' && line[0] != 'u' && line[0] != 'c',
    ensures
        utils::line_meaning(line) == HeaderLine::Other,
{
    reveal_strlit("id:");
    reveal_strlit("updated_at:");
    reveal_strlit("content_hash:");
    reveal_strlit("include_context:");
    if text::has_prefix(line, "content_hash:"@) {
        assert(line.take("content_hash:"@.len() as int)[0] == "content_hash:"@[0]);
    }
    if text::has_prefix(line, "id:"@) {
        assert(line.take("id:"@.len() as int)[0] == "id:"@[0]);
    }
    if text::has_prefix(line, "updated_at:"@) {
        assert(line.take("updated_at:"@.len() as int)[0] == "updated_at:"@[0]);
    }
    if text::has_prefix(line, "include_context:"@) {
        assert(line.take("include_context:"@.len() as int)[0] == "include_context:"@[0]);
    }
}

proof fn lemma_silent(s: Seq<char>, h: HeaderSoFar)
    requires
        is_silent(s),
    ensures
        told(s, h) == h,
    decreases s.len(),
{
    if s.len() > 0 {
        text::lemma_find(s, '\n');
        let i = text::find(s, '\n');
        let line = text::first_line(s);
        if line.len() > 0 {
            assert(line[0] == s[0]);
        }
        lemma_silent_line(line);
        let t = text::after_line(s);
        if i < s.len() {
            if t.len() > 0 {
                assert(t[0] == s[i + 1]);
                assert(s[i + 1 - 1] == '\n');
            }
            assert forall|j: int| 0 < j < t.len() && t[j - 1] == '\n' implies !('a'
                <= #[trigger] t[j] <= 'z') by {
                assert(t[j] == s[i + 1 + j]);
                assert(t[j - 1] == s[i + 1 + j - 1]);
            }
        }
        lemma_silent(t, h);
    }
}

/// What one line says.
proof fn lemma_one_line(x: Seq<char>, h: HeaderSoFar)
    requires
        forall|j: int| 0 <= j < x.len() ==> x[j] != '\n' && x[j] != '\r',
    ensures
        told(x.push('\n'), h) == utils::after_saying(h, utils::line_meaning(x)),
{
    let s = x.push('\n');
    let i = x.len() as int;
    assert forall|j: int| 0 <= j < i implies s[j] != '\n' by {
        assert(s[j] == x[j]);
    }
    text::lemma_find_is(s, '\n', i);
    assert(s.take(i) =~= x);
    if i > 0 {
        assert(s[i - 1] == x[i - 1]);
    }
    assert(s.skip(i + 1) =~= Seq::<char>::empty());
    reveal_with_fuel(told, 2);
}

/// A text that the reader takes out of its quotes as it was put in.
pub open spec fn is_quotable(v: Seq<char>) -> bool {
    &&& yaml::is_one_line(v)
    &&& forall|i: int| 0 <= i < v.len() ==> (#[trigger] v[i]) != '\''
    &&& v.len() > 0 ==> {
        &&& !text::is_white_space(v[0])
        &&& !text::is_white_space(v.last())
        &&& v[0] != '"'
        &&& v.last() != '"'
    }
}

proof fn lemma_unquoted_plain(v: Seq<char>)
    requires
        is_quotable(v),
    ensures
        text::trimmed_of(text::trimmed_of(v, '\''), '"') == v,
{
    if v.len() > 0 {
        assert(v[0] != '\'');
        assert(v[v.len() - 1] != '\'');
    }
    text::lemma_nothing_to_strip(v, text::only('\''));
    text::lemma_nothing_to_strip(v, text::only('"'));
}

/// A value behind the blank that follows the key's colon.
proof fn lemma_unquoted_bare(v: Seq<char>)
    requires
        is_quotable(v),
    ensures
        utils::unquoted(seq![' '] + v) == v,
{
    let s = seq![' '] + v;
    assert(s.drop_first() =~= v);
    assert(s[0] == ' ');
    assert(text::white()(' '));
    text::lemma_nothing_to_strip(v, text::white());
    assert(text::strip_front(s, text::white()) == text::strip_front(v, text::white()));
    lemma_unquoted_plain(v);
}

/// A value in single quotes behind the blank that follows the key's colon.
proof fn lemma_unquoted_single(v: Seq<char>)
    requires
        is_quotable(v),
    ensures
        utils::unquoted(seq![' ', '\''] + v + seq!['\'']) == v,
{
    let q = seq!['\''] + v + seq!['\''];
    let s = seq![' ', '\''] + v + seq!['\''];
    assert(s[0] == ' ');
    assert(s.drop_first() =~= q);
    assert(text::white()(' '));
    assert(!text::white()('\''));
    assert(q[0] == '\'' && q.last() == '\'');
    text::lemma_nothing_to_strip(q, text::white());
    assert(text::strip_front(s, text::white()) == text::strip_front(q, text::white()));
    assert(text::trimmed(s) == q);
    let p = text::only('\'');
    assert(p('\''));
    let r = v + seq!['\''];
    assert(q.drop_first() =~= r);
    assert(text::strip_front(q, p) == text::strip_front(r, p));
    if v.len() == 0 {
        assert(r =~= seq!['\'']);
        assert(r.drop_first() =~= Seq::<char>::empty());
        assert(text::strip_front(Seq::<char>::empty(), p) == Seq::<char>::empty());
        assert(text::strip_front(r, p) == text::strip_front(r.drop_first(), p));
        assert(v =~= Seq::<char>::empty());
        assert(text::strip_back(v, p) == v);
    } else {
        assert(v[0] != '\'');
        assert(v[v.len() - 1] != '\'');
        assert(r[0] == v[0]);
        assert(text::strip_front(r, p) == r);
        assert(r.last() == '\'');
        assert(r.drop_last() =~= v);
        assert(text::strip_back(r, p) == text::strip_back(v, p));
        assert(text::strip_back(v, p) == v);
    }
    assert(text::trimmed_of(q, '\'') == v);
    text::lemma_nothing_to_strip(v, text::only('"'));
}

/// The line that YAML writes for a text: key, colon, blank and the text, bare or in quotes.
spec fn is_text_line(key: Seq<char>, v: Seq<char>, x: Seq<char>) -> bool {
    ||| x == key + seq![':', ' '] + v
    ||| x == key + seq![':', ' ', '\''] + v + seq!['\'']
}

/// Behind the key and the colon of such a line the reader finds the text.
proof fn lemma_text_line(key: Seq<char>, colon_key: Seq<char>, v: Seq<char>, x: Seq<char>)
    requires
        is_quotable(v),
        is_text_line(key, v, x),
        colon_key == key.push(':'),
    ensures
        text::has_prefix(x, colon_key),
        utils::unquoted(x.skip(colon_key.len() as int)) == v,
{
    assert(x.take(colon_key.len() as int) =~= colon_key);
    if x == key + seq![':', ' '] + v {
        assert(x.skip(colon_key.len() as int) =~= seq![' '] + v);
        lemma_unquoted_bare(v);
    } else {
        assert(x.skip(colon_key.len() as int) =~= seq![' ', '\''] + v + seq!['\'']);
        lemma_unquoted_single(v);
    }
}

/// How what is known changes with an entry.
spec fn after_entry(h: HeaderSoFar, key: Seq<char>, node: YamlNode) -> HeaderSoFar {
    match node {
        YamlNode::Text(v) => if key == "id"@ {
            HeaderSoFar { id: Some(v), ..h }
        } else if key == "updated_at"@ {
            HeaderSoFar { updated_at: timestamp::rfc3339_instant(v), ..h }
        } else if key == "content_hash"@ {
            HeaderSoFar { content_hash: Some(v), ..h }
        } else {
            h
        },
        _ => if key == "include_context"@ {
            HeaderSoFar { include_context: true, ..h }
        } else {
            h
        },
    }
}

/// The reader understands the entry as it was meant.
spec fn is_clear(key: Seq<char>, node: YamlNode) -> bool {
    ||| key == "title"@ || key == "model"@ || key == "tags"@ || key == "git"@
    ||| (key == "id"@ || key == "updated_at"@ || key == "content_hash"@) && (
        node matches YamlNode::Text(v) && is_quotable(v))
    ||| key == "include_context"@ && node == YamlNode::Flag(true)
}

proof fn lemma_silent_entry(key: Seq<char>, node: YamlNode, part: Seq<char>, h: HeaderSoFar)
    requires
        key == "title"@ || key == "model"@ || key == "tags"@ || key == "git"@,
        yaml::is_entry(key, node, part),
    ensures
        told(part, h) == h,
        after_entry(h, key, node) == h,
{
    reveal_strlit("title");
    reveal_strlit("model");
    reveal_strlit("tags");
    reveal_strlit("git");
    reveal_strlit("id");
    reveal_strlit("updated_at");
    reveal_strlit("content_hash");
    reveal_strlit("include_context");
    let k = key.push(':');
    assert(part[0] == part.take(k.len() as int)[0]);
    assert(k[0] == key[0]);
    assert(key[0] == 't' || key[0] == 'm' || key[0] == 'g');
    assert("id"@[0] == 'i' && "updated_at"@[0] == 'u' && "include_context"@[0] == 'i');
    assert("content_hash"@[0] == 'c');
    lemma_silent(part, h);
}

proof fn lemma_id_entry(v: Seq<char>, part: Seq<char>, h: HeaderSoFar)
    requires
        is_quotable(v),
        yaml::is_entry("id"@, YamlNode::Text(v), part),
    ensures
        told(part, h) == (HeaderSoFar { id: Some(v), ..h }),
{
    reveal_strlit("id");
    reveal_strlit("id:");
    let key = "id"@;
    assert("id:"@ =~= key.push(':'));
    let x = part.drop_last();
    assert(is_text_line(key, v, x)) by {
        yaml::lemma_nothing_doubled(v);
        if part == key + seq![':', ' '] + v + seq!['\n'] {
            assert(x =~= key + seq![':', ' '] + v);
        } else {
            assert(x =~= key + seq![':', ' ', '\''] + v + seq!['\'']);
        }
    }
    assert(part =~= x.push('\n'));
    lemma_text_line(key, "id:"@, v, x);
    lemma_no_breaks(key, v, x);
    lemma_one_line(x, h);
}

proof fn lemma_updated_at_entry(v: Seq<char>, part: Seq<char>, h: HeaderSoFar)
    requires
        is_quotable(v),
        yaml::is_entry("updated_at"@, YamlNode::Text(v), part),
    ensures
        told(part, h) == (HeaderSoFar { updated_at: timestamp::rfc3339_instant(v), ..h }),
{
    reveal_strlit("updated_at");
    reveal_strlit("updated_at:");
    reveal_strlit("id:");
    let key = "updated_at"@;
    assert("updated_at:"@ =~= key.push(':'));
    let x = part.drop_last();
    assert(is_text_line(key, v, x)) by {
        yaml::lemma_nothing_doubled(v);
        if part == key + seq![':', ' '] + v + seq!['\n'] {
            assert(x =~= key + seq![':', ' '] + v);
        } else {
            assert(x =~= key + seq![':', ' ', '\''] + v + seq!['\'']);
        }
    }
    assert(part =~= x.push('\n'));
    lemma_text_line(key, "updated_at:"@, v, x);
    assert(!text::has_prefix(x, "id:"@)) by {
        assert(x[0] == key[0]);
        assert(x.take(3)[0] == x[0]);
        assert("id:"@[0] == 'i');
    }
    lemma_no_breaks(key, v, x);
    lemma_one_line(x, h);
}

proof fn lemma_hash_entry(v: Seq<char>, part: Seq<char>, h: HeaderSoFar)
    requires
        is_quotable(v),
        yaml::is_entry("content_hash"@, YamlNode::Text(v), part),
    ensures
        told(part, h) == (HeaderSoFar { content_hash: Some(v), ..h }),
{
    reveal_strlit("content_hash");
    reveal_strlit("content_hash:");
    reveal_strlit("updated_at:");
    reveal_strlit("id:");
    let key = "content_hash"@;
    assert("content_hash:"@ =~= key.push(':'));
    let x = part.drop_last();
    assert(is_text_line(key, v, x)) by {
        yaml::lemma_nothing_doubled(v);
        if part == key + seq![':', ' '] + v + seq!['\n'] {
            assert(x =~= key + seq![':', ' '] + v);
        } else {
            assert(x =~= key + seq![':', ' ', '\''] + v + seq!['\'']);
        }
    }
    assert(part =~= x.push('\n'));
    lemma_text_line(key, "content_hash:"@, v, x);
    assert(x[0] == key[0]);
    assert(!text::has_prefix(x, "id:"@)) by {
        assert(x.take(3)[0] == x[0]);
        assert("id:"@[0] == 'i');
    }
    assert(!text::has_prefix(x, "updated_at:"@)) by {
        assert(x.take("updated_at:"@.len() as int)[0] == x[0]);
    }
    lemma_no_breaks(key, v, x);
    lemma_one_line(x, h);
}

proof fn lemma_context_entry(part: Seq<char>, h: HeaderSoFar)
    requires
        yaml::is_entry("include_context"@, YamlNode::Flag(true), part),
    ensures
        told(part, h) == (HeaderSoFar { include_context: true, ..h }),
{
    reveal_strlit("include_context");
    reveal_strlit("include_context:");
    reveal_strlit("content_hash:");
    reveal_strlit("updated_at:");
    reveal_strlit("id:");
    reveal_strlit("true");
    let key = "include_context"@;
    let t = seq!['t', 'r', 'u', 'e'];
    assert("true"@ =~= t);
    let colon_key = "include_context:"@;
    assert(colon_key =~= key.push(':'));
    let x = key + seq![':', ' '] + t;
    assert(part =~= x.push('\n'));
    assert(x.take(colon_key.len() as int) =~= colon_key);
    assert(x.skip(colon_key.len() as int) =~= seq![' '] + t);
    let s = seq![' '] + t;
    assert(s.drop_first() =~= t);
    assert(text::white()(' '));
    assert(!text::white()('t') && !text::white()('e'));
    text::lemma_nothing_to_strip(t, text::white());
    assert(text::strip_front(s, text::white()) == text::strip_front(t, text::white()));
    assert(!text::has_prefix(x, "id:"@)) by {
        assert(x[1] == key[1]);
        assert(x.take(3)[1] == x[1]);
        assert("id:"@[1] == 'd');
    }
    assert(!text::has_prefix(x, "updated_at:"@)) by {
        assert(x[0] == key[0]);
        assert(x.take("updated_at:"@.len() as int)[0] == x[0]);
    }
    assert(!text::has_prefix(x, "content_hash:"@)) by {
        assert(x[0] == key[0]);
        assert(x.take("content_hash:"@.len() as int)[0] == x[0]);
    }
    assert forall|j: int| 0 <= j < x.len() implies x[j] != '\n' && x[j] != '\r' by {
        lemma_key_chars();
        if j < key.len() {
            assert(x[j] == key[j]);
        }
    }
    lemma_one_line(x, h);
}

/// A key of the header has no line break in it.
proof fn lemma_key_chars()
    ensures
        forall|j: int|
            0 <= j < "include_context"@.len() ==> (#[trigger] "include_context"@[j]) != '\n'
                && "include_context"@[j] != '\r',
        forall|j: int|
            0 <= j < "updated_at"@.len() ==> (#[trigger] "updated_at"@[j]) != '\n'
                && "updated_at"@[j] != '\r',
        forall|j: int|
            0 <= j < "content_hash"@.len() ==> (#[trigger] "content_hash"@[j]) != '\n'
                && "content_hash"@[j] != '\r',
        forall|j: int| 0 <= j < "id"@.len() ==> (#[trigger] "id"@[j]) != '\n' && "id"@[j] != '\r',
{
    reveal_strlit("include_context");
    reveal_strlit("updated_at");
    reveal_strlit("content_hash");
    reveal_strlit("id");
}

proof fn lemma_no_breaks(key: Seq<char>, v: Seq<char>, x: Seq<char>)
    requires
        key == "id"@ || key == "updated_at"@ || key == "content_hash"@,
        yaml::is_one_line(v),
        is_text_line(key, v, x),
    ensures
        forall|j: int| 0 <= j < x.len() ==> x[j] != '\n' && x[j] != '\r',
{
    lemma_key_chars();
    assert forall|j: int| 0 <= j < x.len() implies x[j] != '\n' && x[j] != '\r' by {
        if j < key.len() {
            assert(x[j] == key[j]);
        } else if x == key + seq![':', ' '] + v {
            if j >= key.len() + 2 {
                assert(x[j] == v[j - key.len() - 2]);
                assert(yaml::is_plain_char(v[j - key.len() - 2]));
            }
        } else if key.len() + 3 <= j < key.len() + 3 + v.len() {
            assert(x[j] == v[j - key.len() - 3]);
            assert(yaml::is_plain_char(v[j - key.len() - 3]));
        }
    }
}

/// Every entry says what it is meant to say.
proof fn lemma_entry(key: Seq<char>, node: YamlNode, part: Seq<char>, h: HeaderSoFar)
    requires
        is_clear(key, node),
        yaml::is_entry(key, node, part),
    ensures
        told(part, h) == after_entry(h, key, node),
{
    reveal_strlit("id");
    reveal_strlit("updated_at");
    reveal_strlit("content_hash");
    reveal_strlit("include_context");
    assert("id"@.len() == 2 && "updated_at"@.len() == 10 && "include_context"@.len() == 15);
    assert("content_hash"@.len() == 12);
    if key == "title"@ || key == "model"@ || key == "tags"@ || key == "git"@ {
        lemma_silent_entry(key, node, part, h);
    } else if key == "id"@ {
        lemma_id_entry(node->Text_0, part, h);
    } else if key == "updated_at"@ {
        lemma_updated_at_entry(node->Text_0, part, h);
    } else if key == "content_hash"@ {
        lemma_hash_entry(node->Text_0, part, h);
    } else {
        lemma_context_entry(part, h);
    }
}

/// What entries say one after the other.
spec fn after_entries(h: HeaderSoFar, fields: Seq<(Seq<char>, YamlNode)>) -> HeaderSoFar
    decreases fields.len(),
{
    if fields.len() == 0 {
        h
    } else {
        after_entries(after_entry(h, fields[0].0, fields[0].1), fields.drop_first())
    }
}

proof fn lemma_entries(
    fields: Seq<(Seq<char>, YamlNode)>,
    parts: Seq<Seq<char>>,
    h: HeaderSoFar,
)
    requires
        yaml::are_entries(fields, parts),
        forall|i: int| 0 <= i < fields.len() ==> is_clear((#[trigger] fields[i]).0, fields[i].1),
    ensures
        is_lines(yaml::joined(parts)),
        told(yaml::joined(parts), h) == after_entries(h, fields),
    decreases fields.len(),
{
    if fields.len() > 0 {
        let f = fields.drop_first();
        let p = parts.drop_first();
        assert forall|i: int| 0 <= i < f.len() implies yaml::is_entry(
            f[i].0,
            f[i].1,
            #[trigger] p[i],
        ) by {
            assert(p[i] == parts[i + 1]);
            assert(f[i] == fields[i + 1]);
        }
        assert forall|i: int| 0 <= i < f.len() implies is_clear(
            (#[trigger] f[i]).0,
            f[i].1,
        ) by {
            assert(f[i] == fields[i + 1]);
        }
        assert(yaml::is_entry(fields[0].0, fields[0].1, parts[0]));
        assert(is_clear(fields[0].0, fields[0].1));
        lemma_entry(fields[0].0, fields[0].1, parts[0], h);
        let h2 = after_entry(h, fields[0].0, fields[0].1);
        lemma_entries(f, p, h2);
        let rest = yaml::joined(p);
        lemma_told_concat(parts[0], rest, h);
        let all = parts[0] + rest;
        if rest.len() > 0 {
            assert(all.last() == rest.last());
        } else {
            assert(all =~= parts[0]);
        }
    }
}

proof fn lemma_after_concat(
    h: HeaderSoFar,
    a: Seq<(Seq<char>, YamlNode)>,
    b: Seq<(Seq<char>, YamlNode)>,
)
    ensures
        after_entries(h, a + b) == after_entries(after_entries(h, a), b),
    decreases a.len(),
{
    if a.len() == 0 {
        assert(a + b =~= b);
    } else {
        assert((a + b).drop_first() =~= a.drop_first() + b);
        assert((a + b)[0] == a[0]);
        lemma_after_concat(after_entry(h, a[0].0, a[0].1), a.drop_first(), b);
    }
}

proof fn lemma_after_one(h: HeaderSoFar, key: Seq<char>, node: YamlNode)
    ensures
        after_entries(h, seq![(key, node)]) == after_entry(h, key, node),
{
    let s = seq![(key, node)];
    assert(s.drop_first() =~= Seq::<(Seq<char>, YamlNode)>::empty());
    reveal_with_fuel(after_entries, 2);
}

// ---------------------------------------------------------------------------
// The header as a whole
// ---------------------------------------------------------------------------
/// The document with this YAML header and this body.
pub open spec fn document(yaml: Seq<char>, body: Seq<char>) -> Seq<char> {
    "---\n"@ + yaml + "---\n\n"@ + body
}

/// A SHA-256 digest in hexadecimal notation.
pub open spec fn is_content_hash(s: Seq<char>) -> bool {
    s.len() == 64 && forall|i: int| 0 <= i < 64 ==> importer::is_lower_hex(#[trigger] s[i])
}

/// What is found in a file with this header.
pub open spec fn header_found(h: Header) -> FileHeader {
    FileHeader {
        id: Some(h.id),
        updated_at: h.updated_at,
        content_hash: Some(h.content_hash),
        include_context: h.include_context,
    }
}

proof fn lemma_fence()
    ensures
        utils::is_fence("---"@),
{
    reveal_strlit("---");
    assert(!text::white()('-'));
    text::lemma_nothing_to_strip("---"@, text::white());
}

/// The text of a timestamp needs no quotes of its own.
proof fn lemma_timestamp_text(t: (i64, u32))
    requires
        timestamp::has_instant_text(t),
    ensures
        is_quotable(timestamp::instant_text(t.0, t.1)),
        !yaml::runs_on(timestamp::instant_text(t.0, t.1)),
{
    let s = timestamp::instant_text(t.0, t.1);
    assert forall|i: int| 0 <= i < s.len() implies yaml::is_plain_char(#[trigger] s[i]) && s[i]
        != '\'' by {
        assert(timestamp::is_timestamp_char(s[i]));
    }
    assert(timestamp::is_timestamp_char(s[0]));
    assert(timestamp::is_timestamp_char(s[s.len() - 1]));
}

/// A hash needs no quotes of its own.
proof fn lemma_hash_text(s: Seq<char>)
    requires
        is_content_hash(s),
    ensures
        is_quotable(s),
        !yaml::runs_on(s),
{
    assert forall|i: int| 0 <= i < s.len() implies yaml::is_plain_char(#[trigger] s[i]) && s[i]
        != '\'' by {
        assert(importer::is_lower_hex(s[i]));
    }
    assert(importer::is_lower_hex(s[0]));
    assert(importer::is_lower_hex(s[63]));
}

/// A header whose texts end their lines is written line by line.
proof fn lemma_header_lines(h: Header)
    requires
        yaml::is_one_line(h.id),
        is_content_hash(h.content_hash),
        h.ends_its_lines(),
        timestamp::has_instant_text(h.updated_at),
    ensures
        yaml::is_line_by_line(h.fields()),
{
    let t = timestamp::instant_text(h.updated_at.0, h.updated_at.1);
    lemma_timestamp_text(h.updated_at);
    lemma_hash_text(h.content_hash);
    assert(!yaml::runs_on(h.id)) by {
        if h.id.len() > 0 {
            assert(yaml::is_plain_char(h.id[h.id.len() - 1]));
        } else {
            assert(!h.id.contains('\n'));
        }
    }
    match h.git {
        Some(g) => {
            lemma_git_ends_its_lines(g);
        },
        None => {},
    }
    let f = h.fields();
    assert(f.last() == ("id"@, YamlNode::Text(h.id)));
    assert forall|i: int| 0 <= i < f.len() implies yaml::is_header_key((#[trigger] f[i]).0)
        && yaml::node_ends_its_line(f[i].1) by {
        lemma_header_field(h, i);
    }
}

/// Each entry of a header is one of eight.
proof fn lemma_header_field(h: Header, i: int)
    requires
        0 <= i < h.fields().len(),
    ensures
        ({
            let x = h.fields()[i];
            let t = timestamp::instant_text(h.updated_at.0, h.updated_at.1);
            ||| x == ("title"@, YamlNode::Text(h.title))
            ||| x == ("updated_at"@, YamlNode::Text(t))
            ||| x == ("content_hash"@, YamlNode::Text(h.content_hash))
            ||| x == ("include_context"@, YamlNode::Flag(true))
            ||| h.model is Some && x == ("model"@, YamlNode::Text(h.model->0))
            ||| h.tags is Some && x == ("tags"@, YamlNode::List(h.tags->0))
            ||| h.git is Some && x == ("git"@, YamlNode::Table(h.git->0.fields()))
            ||| x == ("id"@, YamlNode::Text(h.id))
        }),
{
}

/// Each entry before the identifier is clear.
proof fn lemma_front_field(h: Header, i: int)
    requires
        is_content_hash(h.content_hash),
        timestamp::has_instant_text(h.updated_at),
        0 <= i < h.front_fields().len(),
    ensures
        is_clear(h.front_fields()[i].0, h.front_fields()[i].1),
{
    lemma_timestamp_text(h.updated_at);
    lemma_hash_text(h.content_hash);
    let x = h.front_fields()[i];
    let t = timestamp::instant_text(h.updated_at.0, h.updated_at.1);
    assert({
        ||| x == ("title"@, YamlNode::Text(h.title))
        ||| x == ("updated_at"@, YamlNode::Text(t))
        ||| h.model is Some && x == ("model"@, YamlNode::Text(h.model->0))
        ||| h.tags is Some && x == ("tags"@, YamlNode::List(h.tags->0))
        ||| h.git is Some && x == ("git"@, YamlNode::Table(h.git->0.fields()))
        ||| x == ("content_hash"@, YamlNode::Text(h.content_hash))
        ||| x == ("include_context"@, YamlNode::Flag(true))
    });
}

/// Each entry of a header with a quotable identifier is clear.
proof fn lemma_header_is_clear(h: Header)
    requires
        is_quotable(h.id),
        is_content_hash(h.content_hash),
        timestamp::has_instant_text(h.updated_at),
    ensures
        forall|i: int|
            0 <= i < h.fields().len() ==> is_clear(
                (#[trigger] h.fields()[i]).0,
                h.fields()[i].1,
            ),
{
    lemma_timestamp_text(h.updated_at);
    lemma_hash_text(h.content_hash);
    let f = h.fields();
    assert forall|i: int| 0 <= i < f.len() implies is_clear((#[trigger] f[i]).0, f[i].1) by {
        lemma_header_field(h, i);
    }
}

proof fn lemma_git_ends_its_lines(g: frontmatter::GitHeader)
    requires
        g.ends_its_lines(),
    ensures
        yaml::node_ends_its_line(YamlNode::Table(g.fields())),
{
    reveal_strlit("path");
    reveal_strlit("remote");
    reveal_strlit("branch");
    reveal_strlit("commit");
    assert("path"@.last() == 'h' && "remote"@.last() == 'e' && "branch"@.last() == 'h'
        && "commit"@.last() == 't');
    let f = g.fields();
    assert forall|i: int| 0 <= i < f.len() implies !yaml::runs_on((#[trigger] f[i]).0)
        && yaml::node_ends_its_line(f[i].1) by {
        let x = f[i];
        assert({
            ||| x == ("path"@, YamlNode::Text(g.path))
            ||| g.remote is Some && x == ("remote"@, YamlNode::Text(g.remote->0))
            ||| g.branch is Some && x == ("branch"@, YamlNode::Text(g.branch->0))
            ||| g.commit is Some && x == ("commit"@, YamlNode::Text(g.commit->0))
        });
    }
}

/// What is known once the entries before the identifier are read.
spec fn front_said(h: Header) -> HeaderSoFar {
    HeaderSoFar {
        id: None,
        updated_at: timestamp::rfc3339_instant(
            timestamp::instant_text(h.updated_at.0, h.updated_at.1),
        ),
        content_hash: Some(h.content_hash),
        include_context: h.include_context,
    }
}

proof fn lemma_keys_differ()
    ensures
        "title"@.len() == 5,
        "updated_at"@.len() == 10,
        "content_hash"@.len() == 12,
        "include_context"@.len() == 15,
        "model"@.len() == 5,
        "tags"@.len() == 4,
        "git"@.len() == 3,
        "id"@.len() == 2,
{
    reveal_strlit("title");
    reveal_strlit("updated_at");
    reveal_strlit("content_hash");
    reveal_strlit("include_context");
    reveal_strlit("model");
    reveal_strlit("tags");
    reveal_strlit("git");
    reveal_strlit("id");
}

/// What the entries before the identifier say.
proof fn lemma_front_says(h: Header)
    ensures
        after_entries(utils::nothing_said(), h.front_fields()) == front_said(h),
{
    lemma_keys_differ();
    let s = timestamp::instant_text(h.updated_at.0, h.updated_at.1);
    let a = seq![("title"@, YamlNode::Text(h.title))];
    let b = seq![("updated_at"@, YamlNode::Text(s))];
    let c = frontmatter::opt_entry("model"@, h.model);
    let d = h.tags_entry();
    let e = h.git_entry();
    let f = seq![("content_hash"@, YamlNode::Text(h.content_hash))];
    let g = h.context_entry();
    let h0 = utils::nothing_said();
    lemma_after_one(h0, "title"@, YamlNode::Text(h.title));
    lemma_after_concat(h0, a, b);
    lemma_after_one(h0, "updated_at"@, YamlNode::Text(s));
    let h1 = HeaderSoFar { updated_at: timestamp::rfc3339_instant(s), ..h0 };
    assert(after_entries(h0, a + b) == h1);
    lemma_after_concat(h0, a + b, c);
    match h.model {
        Some(v) => lemma_after_one(h1, "model"@, YamlNode::Text(v)),
        None => {},
    }
    assert(after_entries(h0, a + b + c) == h1);
    lemma_after_concat(h0, a + b + c, d);
    match h.tags {
        Some(v) => lemma_after_one(h1, "tags"@, YamlNode::List(v)),
        None => {},
    }
    assert(after_entries(h0, a + b + c + d) == h1);
    lemma_after_concat(h0, a + b + c + d, e);
    match h.git {
        Some(v) => lemma_after_one(h1, "git"@, YamlNode::Table(v.fields())),
        None => {},
    }
    assert(after_entries(h0, a + b + c + d + e) == h1);
    lemma_after_concat(h0, a + b + c + d + e, f);
    lemma_after_one(h1, "content_hash"@, YamlNode::Text(h.content_hash));
    let h2 = HeaderSoFar { content_hash: Some(h.content_hash), ..h1 };
    assert(after_entries(h0, a + b + c + d + e + f) == h2);
    lemma_after_concat(h0, a + b + c + d + e + f, g);
    if h.include_context {
        lemma_after_one(h2, "include_context"@, YamlNode::Flag(true));
    }
}

/// All that the entries of a header say.
proof fn lemma_header_says(h: Header)
    ensures
        after_entries(utils::nothing_said(), h.fields()) == (HeaderSoFar {
            id: Some(h.id),
            ..front_said(h)
        }),
{
    lemma_keys_differ();
    lemma_front_says(h);
    lemma_after_concat(
        utils::nothing_said(),
        h.front_fields(),
        seq![("id"@, YamlNode::Text(h.id))],
    );
    lemma_after_one(front_said(h), "id"@, YamlNode::Text(h.id));
}

/// The header of a document is what is said between its fences.
proof fn lemma_document(yaml: Seq<char>, body: Seq<char>)
    ensures
        ({
            let closing = "---\n\n"@ + body;
            let said = scan(yaml + closing, 0, utils::nothing_said());
            &&& closing.len() > 0
            &&& utils::is_fence(text::first_line(closing))
            &&& utils::file_header(encode_utf8(document(yaml, body))) == (match said.updated_at {
                Some(t) => Some(
                    FileHeader {
                        id: said.id,
                        updated_at: t,
                        content_hash: said.content_hash,
                        include_context: said.include_context,
                    },
                ),
                None => None,
            })
        }),
{
    reveal_strlit("---\n");
    reveal_strlit("---\n\n");
    reveal_strlit("---");
    lemma_fence();
    let fence = "---"@;
    let closing = "---\n\n"@ + body;
    let rest = yaml + closing;
    let doc = document(yaml, body);
    assert("---\n"@ =~= fence.push('\n'));
    assert(doc =~= fence.push('\n') + rest);
    lemma_lines_encoded(doc);
    assert(text::first_line(fence.push('\n')) == fence && text::after_line(fence.push('\n'))
        == Seq::<char>::empty()) by {
        let s = fence.push('\n');
        text::lemma_find_is(s, '\n', 3);
        assert(s.take(3) =~= fence);
        assert(s.skip(4) =~= Seq::<char>::empty());
    }
    lemma_first_of_lines(fence.push('\n'), rest);
    assert(Seq::<char>::empty() + rest =~= rest);
    encode_utf8_valid_utf8(fence);
    encode_utf8_decode_utf8(fence);
    lemma_scan_encoded(rest, 0, utils::nothing_said());
    text::lemma_find_is(closing, '\n', 3);
    assert(closing.take(3) =~= fence);
}

// ---------------------------------------------------------------------------
// What the reader gets through
// ---------------------------------------------------------------------------
/// Lines without a fence hold none behind any of their newlines.
proof fn lemma_no_fence_behind(s: Seq<char>, i: int)
    requires
        yaml::has_no_fence(s),
        0 < i <= s.len(),
        s[i - 1] == '\n',
    ensures
        yaml::has_no_fence(s.skip(i)),
{
    let rest = s.skip(i);
    assert forall|a: int| 0 <= a < rest.len() && (a == 0 || rest[a - 1] == '\n') implies !utils::is_fence(
        text::first_line(#[trigger] rest.skip(a)),
    ) by {
        assert(rest.skip(a) =~= s.skip(i + a));
        if a > 0 {
            assert(rest[a - 1] == s[i + a - 1]);
        }
    }
}

/// Whole lines without a fence are read through as long as they lie within the limit.
proof fn lemma_read_through(s: Seq<char>, n: int)
    requires
        is_lines(s),
        yaml::has_no_fence(s),
        n + text::byte_len(s) <= utils::HEADER_LIMIT,
    ensures
        is_read_through(s, n),
    decreases s.len(),
{
    if s.len() > 0 {
        let none = Seq::<char>::empty();
        assert(s + none =~= s);
        lemma_first_of_lines(s, none);
        text::lemma_find(s, '\n');
        let i = text::find(s, '\n');
        assert(i < s.len()) by {
            if i == s.len() {
                assert(s[s.len() - 1] != '\n');
            }
        }
        assert(s.skip(0) =~= s);
        assert(!utils::is_fence(text::first_line(s.skip(0))));
        let line = text::first_line(s);
        let end = s.subrange(line.len() as int, i + 1);
        let rest = text::after_line(s);
        assert(s =~= line + end + rest);
        text::lemma_byte_len_concat(line + end, rest);
        text::lemma_byte_len_concat(line, end);
        text::lemma_encode_last(end, '\n');
        lemma_no_fence_behind(s, i + 1);
        lemma_read_through(rest, count_line(s, n));
    }
}

/// Neither of two runs of whole lines holds a fence, so both together hold none.
proof fn lemma_no_fence_concat(p: Seq<char>, r: Seq<char>)
    requires
        is_lines(p),
        yaml::has_no_fence(p),
        yaml::has_no_fence(r),
    ensures
        yaml::has_no_fence(p + r),
{
    let s = p + r;
    assert forall|a: int| 0 <= a < s.len() && (a == 0 || s[a - 1] == '\n') implies !utils::is_fence(
        text::first_line(#[trigger] s.skip(a)),
    ) by {
        if a < p.len() {
            let q = p.skip(a);
            assert(s.skip(a) =~= q + r);
            assert(q.last() == p.last());
            lemma_first_of_lines(q, r);
            if a > 0 {
                assert(s[a - 1] == p[a - 1]);
            }
        } else {
            let i = a - p.len();
            assert(s.skip(a) =~= r.skip(i));
            if i > 0 {
                assert(s[a - 1] == r[i - 1]);
            }
        }
    }
}

/// Entries that do not look like the end of a header are read through as long as their bound lies
/// within the limit.
proof fn lemma_entries_read(
    fields: Seq<(Seq<char>, YamlNode)>,
    parts: Seq<Seq<char>>,
)
    requires
        yaml::are_entries(fields, parts),
        forall|i: int|
            0 <= i < fields.len() ==> yaml::is_flat((#[trigger] fields[i]).1)
                && yaml::node_is_fence_free(fields[i].1),
    ensures
        is_lines(yaml::joined(parts)),
        yaml::has_no_fence(yaml::joined(parts)),
        text::byte_len(yaml::joined(parts)) <= yaml::fields_bound(fields),
    decreases fields.len(),
{
    if fields.len() == 0 {
        text::lemma_ascii_byte_len(Seq::<char>::empty());
    } else {
        let f = fields.drop_first();
        let p = parts.drop_first();
        assert forall|i: int| 0 <= i < f.len() implies yaml::is_entry(
            f[i].0,
            f[i].1,
            #[trigger] p[i],
        ) by {
            assert(p[i] == parts[i + 1]);
            assert(f[i] == fields[i + 1]);
        }
        assert forall|i: int| 0 <= i < f.len() implies yaml::is_flat((#[trigger] f[i]).1)
            && yaml::node_is_fence_free(f[i].1) by {
            assert(f[i] == fields[i + 1]);
        }
        lemma_entries_read(f, p);
        assert(yaml::is_entry(fields[0].0, fields[0].1, parts[0]));
        assert(yaml::is_flat(fields[0].1) && yaml::node_is_fence_free(fields[0].1));
        let rest = yaml::joined(p);
        let all = parts[0] + rest;
        lemma_no_fence_concat(parts[0], rest);
        text::lemma_byte_len_concat(parts[0], rest);
        if rest.len() > 0 {
            assert(all.last() == rest.last());
        } else {
            assert(all =~= parts[0]);
        }
        assert(fields =~= seq![fields[0]] + f);
        assert(fields[0] == (fields[0].0, fields[0].1));
        yaml::lemma_fields_bound_concat(seq![fields[0]], f);
        yaml::lemma_fields_bound_one(fields[0].0, fields[0].1);
    }
}

/// The text of parts and then further parts.
proof fn lemma_joined_concat(a: Seq<Seq<char>>, b: Seq<Seq<char>>)
    ensures
        yaml::joined(a + b) == yaml::joined(a) + yaml::joined(b),
    decreases a.len(),
{
    if a.len() == 0 {
        assert(a + b =~= b);
        assert(yaml::joined(a) + yaml::joined(b) =~= yaml::joined(b));
    } else {
        assert((a + b).drop_first() =~= a.drop_first() + b);
        assert((a + b)[0] == a[0]);
        lemma_joined_concat(a.drop_first(), b);
        assert(a[0] + (yaml::joined(a.drop_first()) + yaml::joined(b)) =~= a[0] + yaml::joined(
            a.drop_first(),
        ) + yaml::joined(b));
    }
}

/// A line that begins here says nothing of timestamps, hashes and included context.
spec fn is_quiet_at(s: Seq<char>, j: int) -> bool {
    &&& s[j] != 'u'
    &&& s[j] != 'c'
    &&& s[j] == 'i' ==> j + 1 < s.len() && s[j + 1] == 'd'
}

/// No line of `s` says anything of timestamps, hashes and included context.
spec fn is_quiet(s: Seq<char>) -> bool {
    &&& s.len() > 0 ==> is_quiet_at(s, 0)
    &&& forall|j: int| 0 < j < s.len() && s[j - 1] == '\n' ==> #[trigger] is_quiet_at(s, j)
}

/// The entry of the identifier is quiet.
proof fn lemma_quiet_entry(node: YamlNode, part: Seq<char>)
    requires
        yaml::is_entry("id"@, node, part),
    ensures
        is_quiet(part),
        is_lines(part),
{
    reveal_strlit("id");
    let k = "id"@.push(':');
    assert(part[0] == part.take(k.len() as int)[0]);
    assert(part[1] == part.take(k.len() as int)[1]);
    assert(k[0] == 'i' && k[1] == 'd');
    assert forall|j: int| 0 < j < part.len() && part[j - 1] == '\n' implies #[trigger] is_quiet_at(
        part,
        j,
    ) by {
        assert(!('a' <= part[j] <= 'z'));
    }
}

/// A quiet line leaves what was found before.
proof fn lemma_quiet_line(line: Seq<char>, h: HeaderSoFar)
    requires
        line.len() > 0 ==> is_quiet_at(line, 0),
    ensures
        ({
            let r = utils::after_saying(h, utils::line_meaning(line));
            &&& r.updated_at == h.updated_at
            &&& r.content_hash == h.content_hash
            &&& r.include_context == h.include_context
        }),
{
    reveal_strlit("updated_at:");
    reveal_strlit("content_hash:");
    reveal_strlit("include_context:");
    if text::has_prefix(line, "updated_at:"@) {
        assert(line.take("updated_at:"@.len() as int)[0] == "updated_at:"@[0]);
    }
    if text::has_prefix(line, "content_hash:"@) {
        assert(line.take("content_hash:"@.len() as int)[0] == "content_hash:"@[0]);
    }
    if text::has_prefix(line, "include_context:"@) {
        assert(line.take("include_context:"@.len() as int)[0] == "include_context:"@[0]);
        assert(line.take("include_context:"@.len() as int)[1] == "include_context:"@[1]);
    }
}

/// Quiet lines with a fence behind them leave what was found before, wherever the reader stops.
proof fn lemma_quiet_scan(p: Seq<char>, closing: Seq<char>, n: int, h: HeaderSoFar)
    requires
        is_quiet(p),
        is_lines(p),
        closing.len() > 0,
        utils::is_fence(text::first_line(closing)),
    ensures
        ({
            let r = scan(p + closing, n, h);
            &&& r.updated_at == h.updated_at
            &&& r.content_hash == h.content_hash
            &&& r.include_context == h.include_context
        }),
    decreases p.len(),
{
    if p.len() == 0 {
        assert(p + closing =~= closing);
    } else {
        lemma_first_of_lines(p, closing);
        text::lemma_find(p, '\n');
        let i = text::find(p, '\n');
        let line = text::first_line(p);
        let q = text::after_line(p);
        assert(is_quiet_at(p, 0));
        if line.len() > 0 {
            assert(line[0] == p[0]);
            if p[0] == 'i' {
                assert(p[1] == 'd');
                assert(line.len() > 1 && line[1] == p[1]);
            }
        }
        lemma_quiet_line(line, h);
        if q.len() > 0 {
            assert(q[0] == p[i + 1]);
            assert(is_quiet_at(p, i + 1));
            if q[0] == 'i' {
                assert(q[1] == p[i + 2]);
            }
        }
        assert forall|j: int| 0 < j < q.len() && q[j - 1] == '\n' implies #[trigger] is_quiet_at(
            q,
            j,
        ) by {
            assert(q[j] == p[i + 1 + j]);
            assert(q[j - 1] == p[i + 1 + j - 1]);
            assert(is_quiet_at(p, i + 1 + j));
            if q[j] == 'i' {
                assert(q[j + 1] == p[i + 1 + j + 1]);
            }
        }
        lemma_quiet_scan(
            q,
            closing,
            count_line(p, n),
            utils::after_saying(h, utils::line_meaning(line)),
        );
    }
}

// ---------------------------------------------------------------------------
// The header
// ---------------------------------------------------------------------------
/// The bytes that the timestamp takes at most, with its key.
pub const TIME_BOUND: usize = 66;

/// The bytes that the hash takes at most, with its key.
pub const HASH_BOUND: usize = 92;

/// The bytes that the entries before the identifier take at most.
pub open spec fn front_bound(h: Header) -> nat {
    yaml::fields_bound(seq![("title"@, YamlNode::Text(h.title))]) + TIME_BOUND as nat
        + yaml::fields_bound(frontmatter::opt_entry("model"@, h.model)) + yaml::fields_bound(
        h.tags_entry(),
    ) + yaml::fields_bound(h.git_entry()) + HASH_BOUND as nat + yaml::fields_bound(
        h.context_entry(),
    )
}

/// All that tells whether a document is up to date can be read back from its header: the timestamp
/// has a year of four digits, the hash is one, each entry begins on a new line, no text has a line
/// that looks like the end of the header, and the entries before the identifier lie before the
/// reader's limit.
pub open spec fn has_readable_front(h: Header) -> bool {
    &&& timestamp::in_rfc3339_years(h.updated_at.0)
    &&& is_content_hash(h.content_hash)
    &&& yaml::is_one_line(h.id)
    &&& h.ends_its_lines()
    &&& h.is_fence_free()
    &&& front_bound(h) <= utils::HEADER_LIMIT
}

/// All of the header can be read back: the identifier too survives quoting and lies before the
/// reader's limit.
pub open spec fn is_readable(h: Header) -> bool {
    &&& has_readable_front(h)
    &&& is_quotable(h.id)
    &&& front_bound(h) + yaml::fields_bound(seq![("id"@, YamlNode::Text(h.id))])
        <= utils::HEADER_LIMIT
}

/// What tells whether a document is up to date was found as the header has it.
pub open spec fn is_front_found(found: Option<FileHeader>, h: Header) -> bool {
    found matches Some(f) && f.updated_at == h.updated_at && f.content_hash == Some(h.content_hash)
        && f.include_context == h.include_context
}

/// The bytes that a timestamp and a hash take at most.
proof fn lemma_fixed_bounds(h: Header)
    requires
        timestamp::has_instant_text(h.updated_at),
        is_content_hash(h.content_hash),
    ensures
        ({
            let t = timestamp::instant_text(h.updated_at.0, h.updated_at.1);
            &&& yaml::fields_bound(seq![("updated_at"@, YamlNode::Text(t))]) <= TIME_BOUND
            &&& yaml::fields_bound(seq![("content_hash"@, YamlNode::Text(h.content_hash))])
                <= HASH_BOUND
        }),
{
    lemma_keys_differ();
    let t = timestamp::instant_text(h.updated_at.0, h.updated_at.1);
    let c = h.content_hash;
    yaml::lemma_fields_bound_one("updated_at"@, YamlNode::Text(t));
    yaml::lemma_fields_bound_one("content_hash"@, YamlNode::Text(c));
    assert forall|i: int| 0 <= i < t.len() implies yaml::is_plain_char(#[trigger] t[i]) && t[i]
        < '\u{80}' && t[i] != '\'' && t[i] != '"' && t[i] != '\\' by {
        assert(timestamp::is_timestamp_char(t[i]));
    }
    yaml::lemma_written_as_is(t);
    assert forall|i: int| 0 <= i < c.len() implies yaml::is_plain_char(#[trigger] c[i]) && c[i]
        < '\u{80}' && c[i] != '\'' && c[i] != '"' && c[i] != '\\' by {
        assert(importer::is_lower_hex(c[i]));
    }
    yaml::lemma_written_as_is(c);
}

/// The bound of the entries before the identifier.
proof fn lemma_front_bound(h: Header)
    requires
        timestamp::has_instant_text(h.updated_at),
        is_content_hash(h.content_hash),
    ensures
        yaml::fields_bound(h.front_fields()) <= front_bound(h),
{
    lemma_fixed_bounds(h);
    let t = timestamp::instant_text(h.updated_at.0, h.updated_at.1);
    let a = seq![("title"@, YamlNode::Text(h.title))];
    let b = seq![("updated_at"@, YamlNode::Text(t))];
    let c = frontmatter::opt_entry("model"@, h.model);
    let d = h.tags_entry();
    let e = h.git_entry();
    let f = seq![("content_hash"@, YamlNode::Text(h.content_hash))];
    let g = h.context_entry();
    yaml::lemma_fields_bound_concat(a, b);
    yaml::lemma_fields_bound_concat(a + b, c);
    yaml::lemma_fields_bound_concat(a + b + c, d);
    yaml::lemma_fields_bound_concat(a + b + c + d, e);
    yaml::lemma_fields_bound_concat(a + b + c + d + e, f);
    yaml::lemma_fields_bound_concat(a + b + c + d + e + f, g);
}

/// The entries of a header are flat, and none looks like the end of the header.
proof fn lemma_header_is_flat(h: Header)
    requires
        timestamp::has_instant_text(h.updated_at),
        is_content_hash(h.content_hash),
        yaml::is_one_line(h.id),
    ensures
        forall|i: int|
            0 <= i < h.fields().len() ==> yaml::is_flat((#[trigger] h.fields()[i]).1),
        h.is_fence_free() ==> forall|i: int|
            0 <= i < h.fields().len() ==> yaml::node_is_fence_free((#[trigger] h.fields()[i]).1),
{
    lemma_one_line_is_fence_free(h.id);
    lemma_timestamp_text(h.updated_at);
    lemma_one_line_is_fence_free(timestamp::instant_text(h.updated_at.0, h.updated_at.1));
    lemma_hash_text(h.content_hash);
    lemma_one_line_is_fence_free(h.content_hash);
    let f = h.fields();
    assert forall|i: int| 0 <= i < f.len() implies yaml::is_flat((#[trigger] f[i]).1) && (
    h.is_fence_free() ==> yaml::node_is_fence_free(f[i].1)) by {
        lemma_header_field(h, i);
        match h.git {
            Some(g) => lemma_git_is_flat(g),
            None => {},
        }
    }
}

proof fn lemma_one_line_is_fence_free(v: Seq<char>)
    requires
        yaml::is_one_line(v),
    ensures
        yaml::is_fence_free(v),
{
    if v.contains('\n') {
        let i = choose|i: int| 0 <= i < v.len() && v[i] == '\n';
        assert(yaml::is_plain_char(v[i]));
    }
}

proof fn lemma_git_is_flat(g: frontmatter::GitHeader)
    ensures
        yaml::is_flat(YamlNode::Table(g.fields())),
        g.is_fence_free() ==> yaml::node_is_fence_free(YamlNode::Table(g.fields())),
{
    let f = g.fields();
    assert forall|i: int| 0 <= i < f.len() implies yaml::is_table_key((#[trigger] f[i]).0)
        && f[i].1 is Text && (g.is_fence_free() ==> yaml::is_fence_free(f[i].1->Text_0)) by {
        let x = f[i];
        assert({
            ||| x == ("path"@, YamlNode::Text(g.path))
            ||| g.remote is Some && x == ("remote"@, YamlNode::Text(g.remote->0))
            ||| g.branch is Some && x == ("branch"@, YamlNode::Text(g.branch->0))
            ||| g.commit is Some && x == ("commit"@, YamlNode::Text(g.commit->0))
        });
    }
}

/// A readable header that is laid out as YAML is read back.
pub(crate) proof fn lemma_read_back(h: Header, yaml: Seq<char>, body: Seq<char>)
    requires
        timestamp::has_instant_text(h.updated_at),
        yaml::is_line_by_line(h.fields()) ==> yaml::is_laid_out(h.fields(), yaml),
        is_readable(h),
    ensures
        utils::file_header(encode_utf8(document(yaml, body))) == Some(header_found(h)),
{
    lemma_header_lines(h);
    lemma_header_is_clear(h);
    lemma_header_says(h);
    lemma_header_is_flat(h);
    lemma_front_bound(h);
    let parts = choose|parts: Seq<Seq<char>>| #[trigger]
        yaml::are_entries(h.fields(), parts) && yaml == yaml::joined(parts);
    let h0 = utils::nothing_said();
    lemma_entries(h.fields(), parts, h0);
    lemma_entries_read(h.fields(), parts);
    yaml::lemma_fields_bound_concat(h.front_fields(), seq![("id"@, YamlNode::Text(h.id))]);
    lemma_read_through(yaml, 0);
    lemma_document(yaml, body);
    lemma_scan_through(yaml, "---\n\n"@ + body, 0, h0);
}

/// The front of a header that is laid out as YAML is read back, whatever the identifier is.
pub(crate) proof fn lemma_front_read_back(h: Header, yaml: Seq<char>, body: Seq<char>)
    requires
        timestamp::has_instant_text(h.updated_at),
        yaml::is_line_by_line(h.fields()) ==> yaml::is_laid_out(h.fields(), yaml),
        has_readable_front(h),
    ensures
        is_front_found(utils::file_header(encode_utf8(document(yaml, body))), h),
{
    lemma_header_lines(h);
    lemma_front_says(h);
    lemma_header_is_flat(h);
    lemma_front_bound(h);
    lemma_timestamp_text(h.updated_at);
    lemma_hash_text(h.content_hash);
    let parts = choose|parts: Seq<Seq<char>>| #[trigger]
        yaml::are_entries(h.fields(), parts) && yaml == yaml::joined(parts);
    let front = h.front_fields();
    let m = front.len() as int;
    let pf = parts.take(m);
    let last = parts[m];
    assert(parts =~= pf + seq![last]);
    lemma_joined_concat(pf, seq![last]);
    assert(seq![last].drop_first() =~= Seq::<Seq<char>>::empty());
    reveal_with_fuel(yaml::joined, 2);
    assert(yaml::joined(seq![last]) =~= last);
    assert forall|i: int| 0 <= i < front.len() implies yaml::is_entry(
        front[i].0,
        front[i].1,
        #[trigger] pf[i],
    ) by {
        assert(pf[i] == parts[i]);
        assert(front[i] == h.fields()[i]);
    }
    assert forall|i: int| 0 <= i < front.len() implies is_clear((#[trigger] front[i]).0, front[i].1)
        && yaml::is_flat(front[i].1) && yaml::node_is_fence_free(front[i].1) by {
        assert(front[i] == h.fields()[i]);
        lemma_front_field(h, i);
    }
    assert(h.fields()[m] == ("id"@, YamlNode::Text(h.id)));
    assert(yaml::is_entry(h.fields()[m].0, h.fields()[m].1, last));
    lemma_quiet_entry(YamlNode::Text(h.id), last);
    let h0 = utils::nothing_said();
    lemma_entries(front, pf, h0);
    lemma_entries_read(front, pf);
    let a = yaml::joined(pf);
    lemma_read_through(a, 0);
    lemma_document(yaml, body);
    let closing = "---\n\n"@ + body;
    assert(yaml + closing =~= a + (last + closing));
    lemma_scan_through(a, last + closing, 0, h0);
    lemma_quiet_scan(last, closing, counted(a, 0), told(a, h0));
}

// ---------------------------------------------------------------------------
// The timestamp alone
// ---------------------------------------------------------------------------
/// The timestamp of the header can be read back: it has a year of four digits, the title has no line
/// that looks like the end of the header, both entries lie before the reader's limit, and the rest
/// of the header, of any length, stays behind them.
pub open spec fn has_readable_time(h: Header) -> bool {
    &&& timestamp::in_rfc3339_years(h.updated_at.0)
    &&& is_content_hash(h.content_hash)
    &&& yaml::is_one_line(h.id)
    &&& h.ends_its_lines()
    &&& yaml::is_fence_free(h.title)
    &&& yaml::fields_bound(seq![("title"@, YamlNode::Text(h.title))]) + TIME_BOUND
        <= utils::HEADER_LIMIT
}

/// A line that begins here says nothing of timestamps.
spec fn is_timeless_at(s: Seq<char>, j: int) -> bool {
    s[j] != 'u'
}

/// No line of `s` says anything of timestamps.
spec fn is_timeless(s: Seq<char>) -> bool {
    &&& s.len() > 0 ==> is_timeless_at(s, 0)
    &&& forall|j: int| 0 < j < s.len() && s[j - 1] == '\n' ==> #[trigger] is_timeless_at(s, j)
}

/// The entries behind the timestamp say nothing of timestamps.
proof fn lemma_timeless_entry(key: Seq<char>, node: YamlNode, part: Seq<char>)
    requires
        key == "content_hash"@ || key == "include_context"@ || key == "model"@ || key == "tags"@
            || key == "git"@ || key == "id"@,
        yaml::is_entry(key, node, part),
    ensures
        is_timeless(part),
        is_lines(part),
{
    reveal_strlit("content_hash");
    reveal_strlit("include_context");
    reveal_strlit("model");
    reveal_strlit("tags");
    reveal_strlit("git");
    reveal_strlit("id");
    let k = key.push(':');
    assert(part[0] == part.take(k.len() as int)[0]);
    assert(k[0] == key[0]);
    assert forall|j: int| 0 < j < part.len() && part[j - 1] == '\n' implies #[trigger]
        is_timeless_at(part, j) by {
        assert(!('a' <= part[j] <= 'z'));
    }
}

proof fn lemma_timeless_joined(parts: Seq<Seq<char>>)
    requires
        forall|i: int|
            0 <= i < parts.len() ==> is_timeless(#[trigger] parts[i]) && is_lines(parts[i]),
    ensures
        is_timeless(yaml::joined(parts)),
        is_lines(yaml::joined(parts)),
    decreases parts.len(),
{
    if parts.len() > 0 {
        let a = parts[0];
        let p = parts.drop_first();
        assert(is_timeless(a) && is_lines(a));
        assert forall|i: int| 0 <= i < p.len() implies is_timeless(#[trigger] p[i]) && is_lines(
            p[i],
        ) by {
            assert(p[i] == parts[i + 1]);
        }
        lemma_timeless_joined(p);
        let b = yaml::joined(p);
        let s = a + b;
        if a.len() == 0 {
            assert(s =~= b);
        } else if b.len() == 0 {
            assert(s =~= a);
        } else {
            assert(is_timeless_at(a, 0));
            assert(s[0] == a[0]);
            assert(s.last() == b.last());
            assert forall|j: int| 0 < j < s.len() && s[j - 1] == '\n' implies #[trigger]
                is_timeless_at(s, j) by {
                if j < a.len() {
                    assert(s[j] == a[j] && s[j - 1] == a[j - 1]);
                    assert(is_timeless_at(a, j));
                } else {
                    let i = j - a.len();
                    assert(s[j] == b[i]);
                    if i > 0 {
                        assert(s[j - 1] == b[i - 1]);
                    }
                    assert(is_timeless_at(b, i));
                }
            }
        }
    }
}

/// Lines that say nothing of timestamps, with a fence behind them, leave the timestamp that was found
/// before, wherever the reader stops.
proof fn lemma_timeless_scan(p: Seq<char>, closing: Seq<char>, n: int, h: HeaderSoFar)
    requires
        is_timeless(p),
        is_lines(p),
        closing.len() > 0,
        utils::is_fence(text::first_line(closing)),
    ensures
        scan(p + closing, n, h).updated_at == h.updated_at,
    decreases p.len(),
{
    if p.len() == 0 {
        assert(p + closing =~= closing);
    } else {
        lemma_first_of_lines(p, closing);
        text::lemma_find(p, '\n');
        let i = text::find(p, '\n');
        let line = text::first_line(p);
        let q = text::after_line(p);
        assert(is_timeless_at(p, 0));
        if line.len() > 0 {
            assert(line[0] == p[0]);
        }
        assert(!text::has_prefix(line, "updated_at:"@)) by {
            reveal_strlit("updated_at:");
            if text::has_prefix(line, "updated_at:"@) {
                assert(line.take("updated_at:"@.len() as int)[0] == "updated_at:"@[0]);
            }
        }
        if q.len() > 0 {
            assert(q[0] == p[i + 1]);
            assert(is_timeless_at(p, i + 1));
        }
        assert forall|j: int| 0 < j < q.len() && q[j - 1] == '\n' implies #[trigger]
            is_timeless_at(q, j) by {
            assert(q[j] == p[i + 1 + j]);
            assert(q[j - 1] == p[i + 1 + j - 1]);
            assert(is_timeless_at(p, i + 1 + j));
        }
        lemma_timeless_scan(
            q,
            closing,
            count_line(p, n),
            utils::after_saying(h, utils::line_meaning(line)),
        );
    }
}

/// The timestamp of a header that is laid out as YAML is read back, whatever follows it.
pub(crate) proof fn lemma_time_read_back(h: Header, yaml: Seq<char>, body: Seq<char>)
    requires
        timestamp::has_instant_text(h.updated_at),
        yaml::is_line_by_line(h.fields()) ==> yaml::is_laid_out(h.fields(), yaml),
        has_readable_time(h),
    ensures
        utils::file_header(encode_utf8(document(yaml, body))) matches Some(f) && f.updated_at
            == h.updated_at,
{
    lemma_header_lines(h);
    lemma_keys_differ();
    lemma_timestamp_text(h.updated_at);
    lemma_fixed_bounds(h);
    let t = timestamp::instant_text(h.updated_at.0, h.updated_at.1);
    lemma_one_line_is_fence_free(t);
    let parts = choose|parts: Seq<Seq<char>>| #[trigger]
        yaml::are_entries(h.fields(), parts) && yaml == yaml::joined(parts);
    let a = seq![("title"@, YamlNode::Text(h.title))];
    let b = seq![("updated_at"@, YamlNode::Text(t))];
    let front = a + b;
    let back = frontmatter::opt_entry("model"@, h.model) + h.tags_entry() + h.git_entry() + seq![
        ("content_hash"@, YamlNode::Text(h.content_hash)),
    ] + h.context_entry() + seq![("id"@, YamlNode::Text(h.id))];
    let pf = parts.take(2);
    let pb = parts.skip(2);
    assert(h.fields() =~= front + back);
    assert(parts =~= pf + pb);
    lemma_joined_concat(pf, pb);
    assert forall|i: int| 0 <= i < front.len() implies yaml::is_entry(
        front[i].0,
        front[i].1,
        #[trigger] pf[i],
    ) by {
        assert(pf[i] == parts[i]);
        assert(front[i] == h.fields()[i]);
    }
    assert forall|i: int| 0 <= i < front.len() implies is_clear((#[trigger] front[i]).0, front[i].1)
        && yaml::is_flat(front[i].1) && yaml::node_is_fence_free(front[i].1) by {
        assert(i == 0 || i == 1);
    }
    assert forall|i: int| 0 <= i < pb.len() implies is_timeless(#[trigger] pb[i]) && is_lines(
        pb[i],
    ) by {
        assert(pb[i] == parts[2 + i]);
        assert(back[i] == h.fields()[2 + i]);
        assert(yaml::is_entry(back[i].0, back[i].1, pb[i]));
        lemma_timeless_entry(back[i].0, back[i].1, pb[i]);
    }
    lemma_timeless_joined(pb);

    let h0 = utils::nothing_said();
    lemma_entries(front, pf, h0);
    lemma_after_one(h0, "title"@, YamlNode::Text(h.title));
    lemma_after_concat(h0, a, b);
    lemma_after_one(h0, "updated_at"@, YamlNode::Text(t));

    lemma_entries_read(front, pf);
    yaml::lemma_fields_bound_concat(a, b);
    let first = yaml::joined(pf);
    let rest = yaml::joined(pb);
    lemma_read_through(first, 0);
    lemma_document(yaml, body);
    let closing = "---\n\n"@ + body;
    assert(yaml + closing =~= first + (rest + closing));
    lemma_scan_through(first, rest + closing, 0, h0);
    lemma_timeless_scan(rest, closing, counted(first, 0), told(first, h0));
}

// ---------------------------------------------------------------------------
// Laws
// ---------------------------------------------------------------------------

/// The bytes of these lines, each with its ending: a newline, with a carriage return before it where
/// that is marked.
pub open spec fn lines_bytes(lines: Seq<Seq<char>>, marks: Seq<bool>) -> Seq<u8>
    decreases lines.len(),
{
    if lines.len() == 0 {
        Seq::empty()
    } else {
        lines_bytes(lines.drop_last(), marks.drop_last()) + line_bytes(lines.last(), marks.last())
    }
}

/// The bytes of a line with its ending.
pub open spec fn line_bytes(line: Seq<char>, mark: bool) -> Seq<u8> {
    encode_utf8(line) + (if mark {
        seq![13u8, 10u8]
    } else {
        seq![10u8]
    })
}

/// The bytes in these lines, with one for each ending.
pub open spec fn lines_size(lines: Seq<Seq<char>>) -> nat
    decreases lines.len(),
{
    if lines.len() == 0 {
        0
    } else {
        lines_size(lines.drop_last()) + encode_utf8(lines.last()).len() + 1
    }
}

/// A line of its own with this ending.
pub open spec fn is_single_line(line: Seq<char>, mark: bool) -> bool {
    &&& forall|j: int| 0 <= j < line.len() ==> (#[trigger] line[j]) != '\n'
    &&& !mark && line.len() > 0 ==> line.last() != '\r'
}

/// Lines that do not end a header, with their endings.
pub open spec fn are_open_lines(lines: Seq<Seq<char>>, marks: Seq<bool>) -> bool {
    &&& marks.len() == lines.len()
    &&& forall|i: int|
        0 <= i < lines.len() ==> is_single_line(#[trigger] lines[i], marks[i]) && text::trimmed(
            lines[i],
        ) != "---"@
}

/// What stands behind the key on the last of the lines that begin with it.
pub open spec fn last_value(lines: Seq<Seq<char>>, key: Seq<char>) -> Option<Seq<char>>
    decreases lines.len(),
{
    if lines.len() == 0 {
        None
    } else if lines.last().len() >= key.len() && lines.last().take(key.len() as int) == key {
        Some(lines.last().skip(key.len() as int))
    } else {
        last_value(lines.drop_last(), key)
    }
}

/// A value without the white space around it, without single quotes around that, and without double
/// quotes around that.
pub open spec fn bare_value(v: Option<Seq<char>>) -> Option<Seq<char>> {
    match v {
        Some(s) => Some(text::trimmed_of(text::trimmed_of(text::trimmed(s), '\''), '"')),
        None => None,
    }
}

/// What these lines say, read one after the other.
spec fn lines_said(lines: Seq<Seq<char>>) -> HeaderSoFar
    decreases lines.len(),
{
    if lines.len() == 0 {
        utils::nothing_said()
    } else {
        utils::after_saying(lines_said(lines.drop_last()), utils::line_meaning(lines.last()))
    }
}

proof fn lemma_lines_said(lines: Seq<Seq<char>>)
    ensures
        ({
            let h = lines_said(lines);
            &&& h.id == bare_value(last_value(lines, "id:"@))
            &&& h.updated_at == (match bare_value(last_value(lines, "updated_at:"@)) {
                Some(v) => timestamp::rfc3339_instant(v),
                None => None,
            })
            &&& h.content_hash == bare_value(last_value(lines, "content_hash:"@))
            &&& h.include_context == (match last_value(lines, "include_context:"@) {
                Some(v) => text::trimmed(v) == "true"@,
                None => false,
            })
        }),
    decreases lines.len(),
{
    if lines.len() > 0 {
        lemma_lines_said(lines.drop_last());
        utils::lemma_header_keys(lines.last());
    }
}

/// The reader goes through open lines within the limit.
proof fn lemma_lines_read(lines: Seq<Seq<char>>, marks: Seq<bool>, tail: Seq<u8>)
    requires
        are_open_lines(lines, marks),
        lines_size(lines) <= utils::HEADER_LIMIT,
    ensures
        utils::header_scan(lines_bytes(lines, marks) + tail, 0, utils::nothing_said())
            == utils::header_scan(tail, lines_size(lines) as int, lines_said(lines)),
    decreases lines.len(),
{
    if lines.len() == 0 {
        assert(lines_bytes(lines, marks) + tail =~= tail);
    } else {
        let front = lines.drop_last();
        let x = lines.last();
        let mark = marks.last();
        assert(is_single_line(lines[lines.len() - 1], marks[lines.len() - 1]));
        assert forall|i: int| 0 <= i < front.len() implies is_single_line(
            #[trigger] front[i],
            marks.drop_last()[i],
        ) && text::trimmed(front[i]) != "---"@ by {
            assert(front[i] == lines[i]);
        }
        let next = line_bytes(x, mark) + tail;
        lemma_lines_read(front, marks.drop_last(), next);
        assert(lines_bytes(lines, marks) + tail =~= lines_bytes(front, marks.drop_last()) + next);
        lemma_line_of_bytes(x, mark, tail);
        encode_utf8_valid_utf8(x);
        encode_utf8_decode_utf8(x);
    }
}

/// One line of text at the front of bytes.
proof fn lemma_line_of_bytes(x: Seq<char>, mark: bool, tail: Seq<u8>)
    requires
        is_single_line(x, mark),
    ensures
        utils::first_line(line_bytes(x, mark) + tail) == encode_utf8(x),
        utils::after_line(line_bytes(x, mark) + tail) == tail,
        line_bytes(x, mark).len() > 0,
{
    let b = encode_utf8(x);
    assert('\n' as u8 == 10u8);
    assert('\r' as u8 == 13u8);
    assert forall|j: int| 0 <= j < x.len() implies x[j] != '\n' by {}
    text::lemma_encode_without(x, '\n');
    if x.len() > 0 {
        text::lemma_encode_last(x, '\r');
    } else {
        assert(x =~= Seq::<char>::empty());
        text::lemma_ascii_byte_len(x);
    }
    utils::law_lines_of_bytes(b, tail);
    if mark {
        assert(line_bytes(x, mark) + tail =~= b.push(13).push(10) + tail);
        utils::law_lines_of_bytes(b.push(13), tail);
    } else {
        assert(line_bytes(x, mark) + tail =~= b.push(10) + tail);
    }
}

/// The header of a file is what the lines behind the opening fence say, up to a closing fence, to the
/// end of the file, or to a line with which more than 2048 bytes would have been read. Of the lines
/// about one thing the last counts, and a header without a timestamp is none.
pub proof fn law_header_of_lines(
    opening: Seq<char>,
    lines: Seq<Seq<char>>,
    marks: Seq<bool>,
    closing: Seq<char>,
    mark: bool,
    tail: Seq<u8>,
)
    requires
        are_open_lines(lines, marks),
        lines_size(lines) <= 2048,
        is_single_line(opening, mark),
        text::trimmed(opening) == "---"@,
        is_single_line(closing, mark),
        text::trimmed(closing) == "---"@ || lines_size(lines) + encode_utf8(closing).len() + 1
            > 2048,
    ensures
        ({
            let front = line_bytes(opening, mark) + lines_bytes(lines, marks);
            let header = match bare_value(last_value(lines, "updated_at:"@)) {
                Some(v) => match timestamp::rfc3339_instant(v) {
                    Some(t) => Some(
                        FileHeader {
                            id: bare_value(last_value(lines, "id:"@)),
                            updated_at: t,
                            content_hash: bare_value(last_value(lines, "content_hash:"@)),
                            include_context: (last_value(lines, "include_context:"@) matches Some(c)
                                && text::trimmed(c) == "true"@),
                        },
                    ),
                    None => None,
                },
                None => None,
            };
            &&& utils::file_header(front) == header
            &&& utils::file_header(front + (line_bytes(closing, mark) + tail)) == header
        }),
{
    let first = line_bytes(opening, mark);
    let text = lines_bytes(lines, marks);
    let end = line_bytes(closing, mark) + tail;
    let none = Seq::<u8>::empty();
    encode_utf8_valid_utf8(opening);
    encode_utf8_decode_utf8(opening);
    encode_utf8_valid_utf8(closing);
    encode_utf8_decode_utf8(closing);
    assert(first + text + end =~= first + (text + end));
    assert(text + none =~= text);
    lemma_line_of_bytes(opening, mark, text + end);
    lemma_line_of_bytes(opening, mark, text);
    lemma_line_of_bytes(closing, mark, tail);
    lemma_lines_read(lines, marks, end);
    lemma_lines_read(lines, marks, none);
    lemma_lines_said(lines);
}

/// A file whose first line is no fence has no header, and neither has an empty one.
pub proof fn law_no_header_without_a_fence(line: Seq<char>, mark: bool, tail: Seq<u8>)
    requires
        is_single_line(line, mark),
        text::trimmed(line) != "---"@,
    ensures
        utils::file_header(line_bytes(line, mark) + tail) is None,
        utils::file_header(Seq::empty()) is None,
{
    lemma_line_of_bytes(line, mark, tail);
    encode_utf8_valid_utf8(line);
    encode_utf8_decode_utf8(line);
}

/// A header with a line before its end that is not UTF-8 is none.
pub proof fn law_no_header_of_other_bytes(
    opening: Seq<char>,
    lines: Seq<Seq<char>>,
    marks: Seq<bool>,
    mark: bool,
    line: Seq<u8>,
    tail: Seq<u8>,
)
    requires
        are_open_lines(lines, marks),
        lines_size(lines) <= 2048,
        is_single_line(opening, mark),
        text::trimmed(opening) == "---"@,
        forall|k: int| 0 <= k < line.len() ==> (#[trigger] line[k]) != 10,
        line.len() > 0 ==> line.last() != 13,
        !valid_utf8(line),
    ensures
        utils::file_header(
            line_bytes(opening, mark) + lines_bytes(lines, marks) + (line.push(10u8) + tail),
        ) is None,
        utils::file_header(line.push(10u8) + tail) is None,
{
    let first = line_bytes(opening, mark);
    let text = lines_bytes(lines, marks);
    let end = line.push(10u8) + tail;
    encode_utf8_valid_utf8(opening);
    encode_utf8_decode_utf8(opening);
    assert(first + text + end =~= first + (text + end));
    lemma_line_of_bytes(opening, mark, text + end);
    lemma_lines_read(lines, marks, end);
    utils::law_lines_of_bytes(line, tail);
}

/// The last line of a file needs no newline.
pub proof fn law_last_newline_does_not_matter(content: Seq<u8>)
    requires
        content.len() > 0,
        content.last() != 10,
        content.last() != 13,
    ensures
        utils::file_header(content.push(10u8)) == utils::file_header(content),
{
    lemma_last_newline(content);
    if utils::after_line(content).len() > 0 {
        lemma_scan_without_newline(utils::after_line(content), 0, utils::nothing_said());
    }
}

proof fn lemma_last_newline(b: Seq<u8>)
    requires
        b.len() > 0,
        b.last() != 10,
        b.last() != 13,
    ensures
        utils::first_line(b.push(10u8)) == utils::first_line(b),
        utils::after_line(b).len() < b.len(),
        utils::after_line(b).len() == 0 ==> utils::after_line(b.push(10u8)).len() == 0,
        utils::after_line(b).len() > 0 ==> {
            &&& utils::after_line(b.push(10u8)) == utils::after_line(b).push(10u8)
            &&& utils::after_line(b).last() == b.last()
        },
{
    let i = text::find(b, 10u8);
    text::lemma_find(b, 10u8);
    let c = b.push(10u8);
    assert forall|j: int| 0 <= j < i implies c[j] != 10u8 by {
        assert(c[j] == b[j]);
    }
    if i < b.len() {
        assert(c[i] == b[i]);
    }
    text::lemma_find_is(c, 10u8, i);
    if i < b.len() {
        assert(i < b.len() - 1);
        assert(c.skip(i + 1) =~= b.skip(i + 1).push(10u8));
        assert(c.take(i) =~= b.take(i));
        if i > 0 {
            assert(c[i - 1] == b[i - 1]);
            assert(c.take(i - 1) =~= b.take(i - 1));
        }
    } else {
        assert(c[i - 1] == b.last());
        assert(c.take(i) =~= b.take(i));
    }
}

proof fn lemma_scan_without_newline(b: Seq<u8>, n: int, h: HeaderSoFar)
    requires
        b.len() > 0,
        b.last() != 10,
        b.last() != 13,
    ensures
        utils::header_scan(b.push(10u8), n, h) == utils::header_scan(b, n, h),
    decreases b.len(),
{
    lemma_last_newline(b);
    text::lemma_find(b, 10u8);
    let line = utils::first_line(b);
    let m = n + line.len() + 1;
    let said = utils::after_saying(h, utils::line_meaning(decode_utf8(line)));
    if utils::after_line(b).len() > 0 {
        lemma_scan_without_newline(utils::after_line(b), m, said);
    } else {
        assert(utils::header_scan(utils::after_line(b), m, said) == Some(said));
        assert(utils::header_scan(utils::after_line(b.push(10u8)), m, said) == Some(said));
    }
}

/// A document is its header between two fences, an empty line and its body.
pub proof fn law_document(yaml: Seq<char>, body: Seq<char>)
    ensures
        document(yaml, body) == "---\n"@ + yaml + "---\n\n"@ + body,
{
}

/// A hash has 64 hexadecimal digits.
pub proof fn law_content_hash(s: Seq<char>)
    ensures
        is_content_hash(s) <==> s.len() == 64 && forall|i: int|
            0 <= i < 64 ==> '0' <= #[trigger] s[i] <= '9' || 'a' <= s[i] <= 'f',
{
    if s.len() == 64 && forall|i: int|
        0 <= i < 64 ==> '0' <= #[trigger] s[i] <= '9' || 'a' <= s[i] <= 'f' {
        assert forall|i: int| 0 <= i < 64 implies importer::is_lower_hex(#[trigger] s[i]) by {}
    }
    if is_content_hash(s) {
        assert forall|i: int| 0 <= i < 64 implies '0' <= #[trigger] s[i] <= '9' || 'a' <= s[i]
            <= 'f' by {
            assert(importer::is_lower_hex(s[i]));
        }
    }
}

/// A text of printable ASCII characters.
pub open spec fn is_printable(s: Seq<char>) -> bool {
    forall|i: int| 0 <= i < s.len() ==> ' ' <= #[trigger] s[i] <= '~'
}

/// A text of printable ASCII characters, where there is one.
pub open spec fn opt_is_printable(s: Option<Seq<char>>) -> bool {
    s matches Some(t) ==> is_printable(t)
}

/// The number of characters in a text that may be missing.
pub open spec fn opt_len(s: Option<Seq<char>>) -> nat {
    match s {
        Some(t) => t.len(),
        None => 0,
    }
}

/// The number of characters in texts.
pub open spec fn total_len(v: Seq<Seq<char>>) -> nat
    decreases v.len(),
{
    if v.len() == 0 {
        0
    } else {
        total_len(v.drop_last()) + v.last().len()
    }
}

proof fn lemma_printable(s: Seq<char>)
    requires
        is_printable(s),
    ensures
        yaml::written_size(s) <= 2 * s.len(),
        !yaml::runs_on(s),
        yaml::is_fence_free(s),
    decreases s.len(),
{
    assert(!s.contains('\n')) by {
        if s.contains('\n') {
            let i = choose|i: int| 0 <= i < s.len() && s[i] == '\n';
            assert(' ' <= s[i]);
        }
    }
    if s.len() > 0 {
        let t = s.drop_last();
        assert forall|i: int| 0 <= i < t.len() implies ' ' <= #[trigger] t[i] <= '~' by {
            assert(t[i] == s[i]);
        }
        lemma_printable(t);
        let c = s.last();
        assert(' ' <= s[s.len() - 1] <= '~');
        assert(c <= '~');
        text::lemma_ascii_byte_len(seq![c]);
        assert(yaml::char_size(c) <= 2);
    }
}

proof fn lemma_printable_list(v: Seq<Seq<char>>)
    requires
        forall|i: int| 0 <= i < v.len() ==> is_printable(#[trigger] v[i]),
    ensures
        yaml::list_bound(v) <= 2 * total_len(v) + 16 * v.len() + 16,
    decreases v.len(),
{
    if v.len() > 0 {
        let w = v.drop_last();
        assert forall|i: int| 0 <= i < w.len() implies is_printable(#[trigger] w[i]) by {
            assert(w[i] == v[i]);
        }
        lemma_printable_list(w);
        assert(is_printable(v[v.len() - 1]));
        lemma_printable(v.last());
    }
}

proof fn lemma_printable_opt(key: Seq<char>, v: Option<Seq<char>>)
    requires
        opt_is_printable(v),
    ensures
        yaml::fields_bound(frontmatter::opt_entry(key, v)) <= key.len() + 2 * opt_len(v) + 16,
        frontmatter::opt_ends_its_line(v),
        frontmatter::opt_is_fence_free(v),
{
    match v {
        Some(s) => {
            lemma_printable(s);
            yaml::lemma_fields_bound_one(key, YamlNode::Text(s));
        },
        None => {},
    }
}

proof fn lemma_printable_git(g: frontmatter::GitHeader)
    requires
        is_printable(g.path),
        opt_is_printable(g.remote),
        opt_is_printable(g.branch),
        opt_is_printable(g.commit),
    ensures
        yaml::fields_bound(g.fields()) <= 2 * (g.path.len() + opt_len(g.remote) + opt_len(g.branch)
            + opt_len(g.commit)) + 86,
        g.ends_its_lines(),
        g.is_fence_free(),
{
    reveal_strlit("path");
    reveal_strlit("remote");
    reveal_strlit("branch");
    reveal_strlit("commit");
    let a = seq![("path"@, YamlNode::Text(g.path))];
    let b = frontmatter::opt_entry("remote"@, g.remote);
    let c = frontmatter::opt_entry("branch"@, g.branch);
    let d = frontmatter::opt_entry("commit"@, g.commit);
    lemma_printable(g.path);
    lemma_printable_opt("remote"@, g.remote);
    lemma_printable_opt("branch"@, g.branch);
    lemma_printable_opt("commit"@, g.commit);
    yaml::lemma_fields_bound_one("path"@, YamlNode::Text(g.path));
    yaml::lemma_fields_bound_concat(a, b);
    yaml::lemma_fields_bound_concat(a + b, c);
    yaml::lemma_fields_bound_concat(a + b + c, d);
}

/// A header of printable ASCII texts is read back whole from the file that it is written to, as long
/// as it is of moderate size, its timestamp has a year of four digits, and the identifier has no
/// blanks and quotes in it.
pub proof fn law_printable_headers_are_readable(h: Header)
    requires
        -62167219200 <= h.updated_at.0 <= 253402300799,
        h.content_hash.len() == 64,
        forall|i: int|
            0 <= i < 64 ==> '0' <= #[trigger] h.content_hash[i] <= '9' || 'a' <= h.content_hash[i]
                <= 'f',
        forall|i: int|
            0 <= i < h.id.len() ==> ' ' < #[trigger] h.id[i] <= '~' && h.id[i] != '\'' && h.id[i]
                != '"',
        is_printable(h.title),
        opt_is_printable(h.model),
        h.tags matches Some(v) ==> forall|i: int| 0 <= i < v.len() ==> is_printable(#[trigger] v[i]),
        h.git matches Some(g) ==> is_printable(g.path) && opt_is_printable(g.remote)
            && opt_is_printable(g.branch) && opt_is_printable(g.commit),
        ({
            let tags = match h.tags {
                Some(v) => 2 * total_len(v) + 16 * v.len(),
                None => 0,
            };
            let git = match h.git {
                Some(g) => g.path.len() + opt_len(g.remote) + opt_len(g.branch) + opt_len(g.commit),
                None => 0,
            };
            2 * (h.title.len() + opt_len(h.model) + git + h.id.len()) + tags <= 1600
        }),
    ensures
        is_readable(h),
        has_readable_front(h),
        has_readable_time(h),
{
    lemma_keys_differ();
    law_content_hash(h.content_hash);
    assert forall|i: int| 0 <= i < h.id.len() implies yaml::is_plain_char(#[trigger] h.id[i])
        && h.id[i] != '\'' by {}
    if h.id.len() > 0 {
        assert(' ' < h.id[0] && ' ' < h.id[h.id.len() - 1]);
        assert(h.id[0] != '"' && h.id[h.id.len() - 1] != '"');
    }
    assert(is_printable(h.id)) by {
        assert forall|i: int| 0 <= i < h.id.len() implies ' ' <= #[trigger] h.id[i] <= '~' by {}
    }
    lemma_printable(h.id);
    yaml::lemma_fields_bound_one("id"@, YamlNode::Text(h.id));
    lemma_printable(h.title);
    yaml::lemma_fields_bound_one("title"@, YamlNode::Text(h.title));
    lemma_printable_opt("model"@, h.model);
    yaml::lemma_fields_bound_one("include_context"@, YamlNode::Flag(true));
    match h.tags {
        Some(v) => {
            lemma_printable_list(v);
            yaml::lemma_fields_bound_one("tags"@, YamlNode::List(v));
            assert forall|i: int| 0 <= i < v.len() implies !yaml::runs_on(#[trigger] v[i])
                && yaml::is_fence_free(v[i]) by {
                lemma_printable(v[i]);
            }
        },
        None => {},
    }
    match h.git {
        Some(g) => {
            lemma_printable_git(g);
            yaml::lemma_fields_bound_one("git"@, YamlNode::Table(g.fields()));
        },
        None => {},
    }
}

/// What is found in a file with a header, and what tells whether it is up to date.
pub proof fn law_found_headers(h: Header, f: FileHeader)
    ensures
        header_found(h).id == Some(h.id),
        header_found(h).updated_at == h.updated_at,
        header_found(h).content_hash == Some(h.content_hash),
        header_found(h).include_context == h.include_context,
        is_front_found(Some(f), h) <==> f.updated_at == h.updated_at && f.content_hash == Some(
            h.content_hash,
        ) && f.include_context == h.include_context,
        !is_front_found(None, h),
{
}

} // verus!
