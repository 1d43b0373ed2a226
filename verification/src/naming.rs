//! The names of exported files.
//!
//! A file is named after its thread: a prefix of the thread's identifier, then, where the title
//! leaves anything, an underscore and a slug of the title.
use crate::text;
use vstd::prelude::*;
use vstd::slice::slice_subrange;
use vstd::string::*;
use vstd::utf8::*;

verus! {

// ---------------------------------------------------------------------------
// Slugs
// ---------------------------------------------------------------------------
/// What `slug::slugify` makes of a text.
pub uninterp spec fn slugified(s: Seq<char>) -> Seq<char>;

/// A character of a slug.
pub open spec fn is_slug_char(c: char) -> bool {
    'a' <= c <= 'z' || '0' <= c <= '9' || c == '-'
}

/// A text of slug characters.
pub open spec fn is_slug(s: Seq<char>) -> bool {
    forall|i: int| 0 <= i < s.len() ==> is_slug_char(#[trigger] s[i])
}

/// Calls `slug::slugify`. The slug is a function of the text, consists of small letters, digits and
/// hyphens, and has no hyphen at either end and no two in a row.
#[verifier::external_body]
fn slugify(s: &str) -> (r: String)
    ensures
        r@ == slugified(s@),
        is_slug(r@),
        r@.len() > 0 ==> r@[0] != '-' && r@.last() != '-',
        forall|i: int| 0 < i < r@.len() && #[trigger] r@[i] == '-' ==> r@[i - 1] != '-',
{
    slug::slugify(s)
}

/// The number of characters that a slug is cut to.
pub const SLUG_LIMIT: usize = 60;

/// A slug cut to the limit, without hyphens at the end.
pub open spec fn shortened(slug: Seq<char>) -> Seq<char> {
    text::strip_back(
        slug.take(
            if slug.len() <= SLUG_LIMIT {
                slug.len() as int
            } else {
                SLUG_LIMIT as int
            },
        ),
        text::only('-'),
    )
}

/// The slug of a title.
pub open spec fn title_slug(title: Seq<char>) -> Seq<char> {
    shortened(slugified(title))
}

/// A shortened slug is a slug of at most sixty characters that does not end in a hyphen.
pub proof fn law_shortened_slug(slug: Seq<char>)
    requires
        is_slug(slug),
    ensures
        is_slug(shortened(slug)),
        shortened(slug).len() <= SLUG_LIMIT,
        shortened(slug).len() > 0 ==> shortened(slug).last() != '-',
        text::has_prefix(slug, shortened(slug)),
{
    let n: int = if slug.len() <= SLUG_LIMIT {
        slug.len() as int
    } else {
        SLUG_LIMIT as int
    };
    let cut = slug.take(n);
    text::lemma_strip_back_keeps(cut, text::only('-'));
    let s = shortened(slug);
    assert(s =~= slug.take(s.len() as int));
    assert forall|i: int| 0 <= i < s.len() implies is_slug_char(#[trigger] s[i]) by {
        assert(s[i] == slug[i]);
    }
}

/// Cuts a slug to the limit and removes hyphens at the end.
pub fn shorten_slug(slug: &str) -> (r: String)
    ensures
        r@ == shortened(slug@),
        slug@.len() <= 60 && (slug@.len() > 0 ==> slug@.last() != '-') ==> r@ == slug@,
        r@.len() <= 60 && r@.len() <= slug@.len() && r@ == slug@.take(r@.len() as int),
        r@.len() > 0 ==> r@.last() != '-',
        forall|k: int| r@.len() < k <= slug@.len() && k <= 60 ==> #[trigger] slug@[k - 1] == '-',
{
    proof {
        law_slug_is_kept(slug@);
    }
    let chars = text::chars_of(slug);
    let n: usize = if chars.len() <= SLUG_LIMIT {
        chars.len()
    } else {
        SLUG_LIMIT
    };
    let cut = slice_subrange(chars.as_slice(), 0, n);
    assert(cut@ =~= slug@.take(n as int));
    text::string_of(text::trim_end_of(cut, '-'))
}

/// The slug of a title.
pub fn slug_of_title(title: &str) -> (r: String)
    ensures
        r@ == title_slug(title@),
        r@ == shortened(slugified(title@)),
        is_slug(r@),
{
    let raw = slugify(title);
    proof {
        law_shortened_slug(raw@);
    }
    shorten_slug(raw.as_str())
}

// ---------------------------------------------------------------------------
// Stems
// ---------------------------------------------------------------------------
/// The prefixes of a thread's identifier that its file may be named after, the shortest first: eight
/// bytes, twelve bytes, all of it.
pub open spec fn candidate(id: Seq<char>, i: int) -> Seq<char> {
    if i == 0 {
        text::byte_prefix(id, 8)
    } else if i == 1 {
        text::byte_prefix(id, 12)
    } else {
        id
    }
}

/// The number of candidates.
pub const CANDIDATES: usize = 3;

/// The identifier can be cut into its candidate number `i`.
pub open spec fn has_candidate(id: Seq<char>, i: int) -> bool {
    &&& i == 0 ==> text::cuts_cleanly(id, 8)
    &&& i == 1 ==> text::cuts_cleanly(id, 12)
}

/// The identifier can be cut into its candidates.
pub open spec fn has_candidates(id: Seq<char>) -> bool {
    text::cuts_cleanly(id, 8) && text::cuts_cleanly(id, 12)
}

/// The file name, without its extension, for a prefix of the identifier and a slug.
pub open spec fn stem_of(prefix: Seq<char>, slug: Seq<char>) -> Seq<char> {
    if slug.len() == 0 {
        prefix
    } else {
        prefix + "_"@ + slug
    }
}

/// The file name of a stem.
pub open spec fn file_name(stem: Seq<char>) -> Seq<char> {
    stem + ".md"@
}

/// A candidate for a file's prefix.
pub fn candidate_prefix(id: &str, i: usize) -> (r: &str)
    requires
        has_candidate(id@, i as int),
    ensures
        r@ == candidate(id@, i as int),
{
    if i == 0 {
        text::take_bytes(id, 8)
    } else if i == 1 {
        text::take_bytes(id, 12)
    } else {
        id
    }
}

/// The stem for a prefix and a slug.
pub fn make_stem(prefix: &str, slug: &str) -> (r: String)
    ensures
        r@ == stem_of(prefix@, slug@),
{
    proof {
        encode_utf8_decode_utf8(slug@);
        if slug@.len() > 0 {
            text::lemma_encode_last(slug@, '\n');
        }
    }
    let mut s = prefix.to_owned();
    if slug.as_bytes().len() > 0 {
        s.append("_");
        s.append(slug);
    }
    s
}

/// The file name of a stem.
pub fn make_file_name(stem: &str) -> (r: String)
    ensures
        r@ == file_name(stem@),
{
    text::join(stem, ".md")
}

// ---------------------------------------------------------------------------
// Prefixes of files
// ---------------------------------------------------------------------------
/// The name of a Markdown file.
pub open spec fn is_markdown(name: Seq<char>) -> bool {
    text::has_suffix(name, ".md"@)
}

/// The prefix of an exported file: what stands before the first underscore, or before the extension.
pub open spec fn file_prefix(name: Seq<char>) -> Option<Seq<char>> {
    let prefix = text::until(text::strip_suffixes(name, ".md"@), '_');
    if is_markdown(name) && prefix.len() > 0 {
        Some(prefix)
    } else {
        None
    }
}

/// Whether this is the name of a Markdown file.
pub fn markdown_file(name: &str) -> (r: bool)
    ensures
        r == is_markdown(name@),
{
    let chars = text::chars_of(name);
    let suffix = text::chars_of(".md");
    text::ends_with(chars.as_slice(), suffix.as_slice())
}

/// The prefix of an exported file.
pub fn prefix_of_file(name: &str) -> (r: Option<String>)
    ensures
        text::opt_text(r) == file_prefix(name@),
{
    proof {
        reveal_strlit(".md");
    }
    if !markdown_file(name) {
        return None;
    }
    let chars = text::chars_of(name);
    let suffix = text::chars_of(".md");
    let prefix = text::take_until(text::trim_suffixes(chars.as_slice(), suffix.as_slice()), '_');
    if prefix.len() > 0 {
        Some(text::string_of(prefix))
    } else {
        None
    }
}

/// The prefix of a stem: what stands before the first underscore.
pub fn prefix_of_stem(stem: &str) -> (r: String)
    ensures
        r@ == text::until(stem@, '_'),
{
    let chars = text::chars_of(stem);
    text::string_of(text::take_until(chars.as_slice(), '_'))
}

// ---------------------------------------------------------------------------
// Laws
// ---------------------------------------------------------------------------
/// A text without underscores.
pub open spec fn has_no_underscore(s: Seq<char>) -> bool {
    forall|i: int| 0 <= i < s.len() ==> (#[trigger] s[i]) != '_'
}

/// The prefix can be told from the rest of the file name: there is one, no underscore is in it, and
/// where no slug follows it does not end like a Markdown file's name.
pub open spec fn tells_prefix(prefix: Seq<char>, slug: Seq<char>) -> bool {
    &&& prefix.len() > 0
    &&& has_no_underscore(prefix)
    &&& slug.len() == 0 ==> !text::has_suffix(prefix, ".md"@)
}

/// The candidates of an identifier without underscores have none either, and are not empty.
pub proof fn lemma_candidates_have_no_underscore(id: Seq<char>)
    requires
        has_candidates(id),
        has_no_underscore(id),
        text::byte_len(id) > 12,
    ensures
        has_no_underscore(candidate(id, 0)),
        has_no_underscore(candidate(id, 1)),
        candidate(id, 0).len() > 0,
        candidate(id, 1).len() > 0,
{
    text::lemma_byte_prefix(id, 8);
    text::lemma_byte_prefix(id, 12);
    let a = candidate(id, 0);
    let b = candidate(id, 1);
    assert(a.len() > 0) by {
        if a.len() == 0 {
            assert(a =~= Seq::<char>::empty());
        }
    }
    assert(b.len() > 0) by {
        if b.len() == 0 {
            assert(b =~= Seq::<char>::empty());
        }
    }
    assert forall|i: int| 0 <= i < a.len() implies (#[trigger] a[i]) != '_' by {
        assert(a[i] == id.take(a.len() as int)[i]);
        assert(id[i] != '_');
    }
    assert forall|i: int| 0 <= i < b.len() implies (#[trigger] b[i]) != '_' by {
        assert(b[i] == id.take(b.len() as int)[i]);
        assert(id[i] != '_');
    }
}

/// The prefix of a stem is recovered from it.
pub proof fn law_stem_keeps_prefix(prefix: Seq<char>, slug: Seq<char>)
    requires
        has_no_underscore(prefix),
    ensures
        text::until(stem_of(prefix, slug), '_') == prefix,
{
    reveal_strlit("_");
    if slug.len() == 0 {
        assert(prefix + Seq::<char>::empty() =~= prefix);
        text::lemma_until(prefix, Seq::empty(), '_');
    } else {
        let rest = "_"@ + slug;
        assert(prefix + "_"@ + slug =~= prefix + rest);
        text::lemma_until(prefix, rest, '_');
    }
}

/// A file that was named after a prefix is indexed under that prefix.
pub proof fn law_file_is_indexed_by_prefix(prefix: Seq<char>, slug: Seq<char>)
    requires
        tells_prefix(prefix, slug),
        is_slug(slug),
    ensures
        file_prefix(file_name(stem_of(prefix, slug))) == Some(prefix),
{
    reveal_strlit(".md");
    reveal_strlit("_");
    let stem = stem_of(prefix, slug);
    let name = file_name(stem);
    let ext = ".md"@;
    assert(name.skip(name.len() - ext.len()) =~= ext);
    assert(name.take(name.len() - ext.len()) =~= stem);
    assert(!text::has_suffix(stem, ext)) by {
        if slug.len() > 0 && text::has_suffix(stem, ext) {
            let n = stem.len() as int;
            assert(stem.skip(n - 3)[2] == stem[n - 1]);
            assert(stem[n - 1] == slug.last());
            if slug.len() >= 3 {
                assert(stem.skip(n - 3)[0] == stem[n - 3]);
                assert(stem[n - 3] == slug[slug.len() - 3]);
                assert(is_slug_char(slug[slug.len() - 3]));
            } else {
                let k = slug.len() as int;
                assert(stem.skip(n - 3)[2 - k] == stem[n - 1 - k]);
                assert(stem[n - 1 - k] == '_');
                assert(ext[2 - k] != '_');
            }
        }
    }
    assert(text::strip_suffixes(name, ext) == text::strip_suffixes(stem, ext));
    assert(text::strip_suffixes(stem, ext) == stem);
    law_stem_keeps_prefix(prefix, slug);
}

/// Different prefixes make different file names, whatever the slugs are.
pub proof fn law_prefixes_keep_files_apart(
    p1: Seq<char>,
    slug1: Seq<char>,
    p2: Seq<char>,
    slug2: Seq<char>,
)
    requires
        has_no_underscore(p1),
        has_no_underscore(p2),
        p1 != p2,
    ensures
        file_name(stem_of(p1, slug1)) != file_name(stem_of(p2, slug2)),
{
    law_stem_keeps_prefix(p1, slug1);
    law_stem_keeps_prefix(p2, slug2);
    let s1 = stem_of(p1, slug1);
    let s2 = stem_of(p2, slug2);
    if file_name(s1) == file_name(s2) {
        assert(file_name(s1).len() == s1.len() + ".md"@.len());
        assert(file_name(s2).len() == s2.len() + ".md"@.len());
        assert(s1 =~= file_name(s1).take(s1.len() as int));
        assert(s2 =~= file_name(s2).take(s2.len() as int));
    }
}

/// A file may have been named so after the thread: by one of its candidates and a slug.
pub open spec fn is_name_of(name: Seq<char>, id: Seq<char>) -> bool {
    exists|i: int, slug: Seq<char>|
        0 <= i < CANDIDATES && has_candidate(id, i) && name == file_name(
            #[trigger] stem_of(candidate(id, i), slug),
        )
}

/// Whichever candidate a file is named after, its name begins with the shortest one and ends like a
/// Markdown file's.
pub proof fn law_file_begins_with_shortest_prefix(id: Seq<char>, i: int, slug: Seq<char>)
    requires
        text::cuts_cleanly(id, 8),
        0 <= i < CANDIDATES,
        has_candidate(id, i),
    ensures
        text::has_prefix(file_name(stem_of(candidate(id, i), slug)), candidate(id, 0)),
        is_markdown(file_name(stem_of(candidate(id, i), slug))),
{
    let short = candidate(id, 0);
    let p = candidate(id, i);
    text::lemma_byte_prefix(id, 8);
    if i == 1 {
        text::lemma_byte_prefix(id, 12);
    }
    assert(id.take(id.len() as int) =~= id);
    assert(text::has_prefix(id, p));
    text::lemma_prefixes_nest(id, short, p);
    let stem = stem_of(p, slug);
    let name = file_name(stem);
    assert(name.take(short.len() as int) =~= p.take(short.len() as int));
    assert(name.skip(name.len() - ".md"@.len()) =~= ".md"@);
}

/// A slug that fits and does not end in a hyphen is kept whole. A longer one is cut to the longest
/// front part of at most sixty characters that does not end in a hyphen.
pub proof fn law_slug_is_kept(slug: Seq<char>)
    ensures
        slug.len() <= 60 && (slug.len() > 0 ==> slug.last() != '-') ==> shortened(slug) == slug,
        ({
            let n = shortened(slug).len() as int;
            &&& n <= slug.len() && n <= 60
            &&& shortened(slug) == slug.take(n)
            &&& n > 0 ==> slug[n - 1] != '-'
            &&& forall|k: int| n < k <= slug.len() && k <= 60 ==> #[trigger] slug[k - 1] == '-'
        }),
{
    let m: int = if slug.len() <= 60 {
        slug.len() as int
    } else {
        60
    };
    let cut = slug.take(m);
    let p = text::only('-');
    text::law_strip_back(cut, p);
    let n = shortened(slug).len() as int;
    assert(cut.take(n) =~= slug.take(n));
    if n > 0 {
        assert(cut[n - 1] == slug[n - 1]);
    }
    assert forall|k: int| n < k <= slug.len() && k <= 60 implies #[trigger] slug[k - 1] == '-' by {
        assert(cut[k - 1] == slug[k - 1]);
        assert(p(cut[k - 1]));
    }
    if slug.len() <= 60 && (slug.len() > 0 ==> slug.last() != '-') {
        if n < slug.len() {
            assert(slug[slug.len() - 1] == '-');
        }
        assert(slug.take(n) =~= slug);
    }
}

/// The slug of a title is what `slug` makes of it, whole where it has at most sixty characters and
/// does not end in a hyphen.
pub proof fn law_title_is_kept(title: Seq<char>)
    ensures
        slugified(title).len() <= 60 && (slugified(title).len() > 0 ==> slugified(title).last()
            != '-') ==> title_slug(title) == slugified(title),
        slugified(title).len() > 60 ==> title_slug(title) == slugified(title).take(
            title_slug(title).len() as int,
        ),
        slugified(title).len() > 60 && slugified(title)[59] != '-' ==> title_slug(title).len() == 60,
        title_slug(title) == shortened(slugified(title)),
{
    law_slug_is_kept(slugified(title));
    let s = slugified(title);
    if s.len() > 60 && s[59] != '-' && shortened(s).len() < 60 {
        assert(s[60 - 1] == '-');
    }
}

/// The characters of slugs are small letters, digits and hyphens.
pub proof fn law_slug_characters(s: Seq<char>)
    ensures
        is_slug(s) <==> forall|i: int|
            0 <= i < s.len() ==> 'a' <= #[trigger] s[i] <= 'z' || '0' <= s[i] <= '9' || s[i] == '-',
{
    if forall|i: int|
        0 <= i < s.len() ==> 'a' <= #[trigger] s[i] <= 'z' || '0' <= s[i] <= '9' || s[i] == '-' {
        assert forall|i: int| 0 <= i < s.len() implies is_slug_char(#[trigger] s[i]) by {}
    }
    if is_slug(s) {
        assert forall|i: int| 0 <= i < s.len() implies 'a' <= #[trigger] s[i] <= 'z' || '0' <= s[i]
            <= '9' || s[i] == '-' by {
            assert(is_slug_char(s[i]));
        }
    }
}

/// The candidates of an identifier are its first eight bytes, its first twelve bytes, and all of it.
pub proof fn law_candidates(a: Seq<char>, b: Seq<char>)
    ensures
        candidate(a + b, 2) == a + b,
        encode_utf8(a).len() == 8 ==> has_candidate(a + b, 0) && candidate(a + b, 0) == a,
        encode_utf8(a).len() == 12 ==> has_candidate(a + b, 1) && candidate(a + b, 1) == a,
        encode_utf8(a).len() <= 8 ==> has_candidate(a, 0) && candidate(a, 0) == a,
        encode_utf8(a).len() <= 12 ==> has_candidate(a, 1) && candidate(a, 1) == a,
        has_candidates(a) <==> has_candidate(a, 0) && has_candidate(a, 1),
        CANDIDATES == 3,
{
    text::law_byte_prefix(a, b, 8);
    text::law_byte_prefix(a, b, 12);
}

/// An identifier that cannot be cut cleanly has no candidate there, and a candidate has just so many
/// bytes.
pub proof fn law_candidates_have_their_bytes(id: Seq<char>)
    ensures
        has_candidate(id, 0) && encode_utf8(id).len() >= 8 ==> encode_utf8(candidate(id, 0)).len()
            == 8,
        has_candidate(id, 1) && encode_utf8(id).len() >= 12 ==> encode_utf8(candidate(id, 1)).len()
            == 12,
{
    if has_candidate(id, 0) {
        text::law_cut_keeps_bytes(id, 8);
    }
    if has_candidate(id, 1) {
        text::law_cut_keeps_bytes(id, 12);
    }
}

/// A file is called by the prefix, an underscore and the slug, or by the prefix alone, and ends
/// in `.md`.
pub proof fn law_names_of_files(prefix: Seq<char>, slug: Seq<char>)
    ensures
        slug.len() > 0 ==> stem_of(prefix, slug) == prefix + seq!['_'] + slug,
        slug.len() == 0 ==> stem_of(prefix, slug) == prefix,
        file_name(prefix) == prefix + seq!['.', 'm', 'd'],
{
    reveal_strlit("_");
    reveal_strlit(".md");
    assert("_"@ =~= seq!['_']);
    assert(".md"@ =~= seq!['.', 'm', 'd']);
}

/// A Markdown file is one whose name ends in `.md`.
pub proof fn law_markdown_files(name: Seq<char>)
    ensures
        is_markdown(name + seq!['.', 'm', 'd']),
        is_markdown(name) <==> name.len() >= 3 && name[name.len() - 3] == '.' && name[name.len() - 2]
            == 'm' && name[name.len() - 1] == 'd',
{
    reveal_strlit(".md");
    let ext = ".md"@;
    assert(ext =~= seq!['.', 'm', 'd']);
    let t = name + ext;
    assert(t.skip(t.len() - 3) =~= ext);
    if name.len() >= 3 {
        let e = name.skip(name.len() - 3);
        assert(e[0] == name[name.len() - 3] && e[1] == name[name.len() - 2] && e[2]
            == name[name.len() - 1]);
        if e[0] == '.' && e[1] == 'm' && e[2] == 'd' {
            assert(e =~= ext);
        }
    }
}

/// A Markdown file has the prefix that stands before the first underscore of its name, or before the
/// extension; other files have none, and neither have those with nothing before it.
pub proof fn law_prefix_of_a_file(prefix: Seq<char>, rest: Seq<char>, name: Seq<char>)
    requires
        forall|i: int| 0 <= i < prefix.len() ==> #[trigger] prefix[i] != '_' && prefix[i] != '.',
        forall|i: int| 0 <= i < rest.len() ==> #[trigger] rest[i] != '.',
    ensures
        prefix.len() > 0 ==> file_prefix(prefix + seq!['.', 'm', 'd']) == Some(prefix),
        prefix.len() > 0 ==> file_prefix(prefix + seq!['_'] + rest + seq!['.', 'm', 'd']) == Some(
            prefix,
        ),
        file_prefix(seq!['_'] + rest + seq!['.', 'm', 'd']) is None,
        !is_markdown(name) ==> file_prefix(name) is None,
{
    reveal_strlit(".md");
    let ext = ".md"@;
    assert(ext =~= seq!['.', 'm', 'd']);
    lemma_prefix_of_stem(prefix, Seq::empty());
    assert(prefix + Seq::<char>::empty() =~= prefix);
    lemma_prefix_of_stem(prefix, seq!['_'] + rest);
    assert(prefix + (seq!['_'] + rest) =~= prefix + seq!['_'] + rest);
    let none = Seq::<char>::empty();
    lemma_prefix_of_stem(none, seq!['_'] + rest);
    assert(none + (seq!['_'] + rest) =~= seq!['_'] + rest);
}

proof fn lemma_prefix_of_stem(prefix: Seq<char>, tail: Seq<char>)
    requires
        forall|i: int| 0 <= i < prefix.len() ==> #[trigger] prefix[i] != '_' && prefix[i] != '.',
        forall|i: int| 0 <= i < tail.len() ==> #[trigger] tail[i] != '.',
        tail.len() > 0 ==> tail[0] == '_',
    ensures
        is_markdown(prefix + tail + ".md"@),
        text::until(text::strip_suffixes(prefix + tail + ".md"@, ".md"@), '_') == prefix,
{
    reveal_strlit(".md");
    let ext = ".md"@;
    let stem = prefix + tail;
    let name = stem + ext;
    assert(name.skip(name.len() - ext.len()) =~= ext);
    assert(!text::has_suffix(stem, ext)) by {
        if text::has_suffix(stem, ext) {
            let k = stem.len() - 3;
            assert(stem.skip(k)[0] == stem[k]);
            if k < prefix.len() {
                assert(stem[k] == prefix[k]);
            } else {
                assert(stem[k] == tail[k - prefix.len()]);
            }
        }
    }
    text::law_strip_suffixes(stem, ext);
    text::lemma_until(prefix, tail, '_');
}

/// Any number of extensions is left out of a prefix.
pub proof fn law_extensions_are_left_out(stem: Seq<char>)
    requires
        is_markdown(stem),
    ensures
        file_prefix(stem + seq!['.', 'm', 'd']) == file_prefix(stem),
{
    reveal_strlit(".md");
    let ext = ".md"@;
    assert(ext =~= seq!['.', 'm', 'd']);
    let name = stem + ext;
    assert(name.skip(name.len() - ext.len()) =~= ext);
    text::law_strip_suffixes(stem, ext);
}

/// The prefix of a Markdown file is what stands before the first underscore of its name, whatever
/// characters that has.
pub proof fn law_prefix_ends_at_an_underscore(prefix: Seq<char>, tail: Seq<char>)
    requires
        forall|i: int| 0 <= i < prefix.len() ==> #[trigger] prefix[i] != '_',
        tail.len() > 0 ==> tail[0] == '_',
        !is_markdown(prefix + tail),
    ensures
        file_prefix(prefix + tail + seq!['.', 'm', 'd']) == (if prefix.len() > 0 {
            Some(prefix)
        } else {
            None
        }),
{
    reveal_strlit(".md");
    let ext = ".md"@;
    assert(ext =~= seq!['.', 'm', 'd']);
    let stem = prefix + tail;
    let name = stem + ext;
    assert(name.skip(name.len() - ext.len()) =~= ext);
    text::law_strip_suffixes(stem, ext);
    assert forall|i: int| 0 <= i < prefix.len() implies prefix[i] != '_' by {}
    text::lemma_until(prefix, tail, '_');
}

} // verus!
