//! YAML mappings, as file headers are written.
//!
//! `serde_yaml` holds and writes the mapping. Its contents are modelled as the sequence of its
//! entries in the order in which they were put in.
use crate::text;
use crate::utils;
use vstd::prelude::*;

verus! {

/// What a YAML mapping holds under a key.
pub enum YamlNode {
    Text(Seq<char>),
    Flag(bool),
    List(Seq<Seq<char>>),
    Table(Seq<(Seq<char>, YamlNode)>),
}

/// A value to put into a mapping.
pub enum YamlValue {
    Text(String),
    Flag(bool),
    List(Vec<String>),
    Table(serde_yaml::Mapping),
}

/// `serde_yaml::Mapping`, read and filled through the functions below.
#[verifier::external_type_specification]
#[verifier::external_body]
pub struct ExMapping(serde_yaml::Mapping);

/// `serde_yaml::Error`, carried opaquely.
#[verifier::external_type_specification]
#[verifier::external_body]
pub struct ExYamlError(serde_yaml::Error);

/// The entries of a mapping, in order.
pub uninterp spec fn yaml_fields(m: serde_yaml::Mapping) -> Seq<(Seq<char>, YamlNode)>;

/// What `serde_yaml::to_string` writes for a mapping with these entries.
pub uninterp spec fn yaml_text(fields: Seq<(Seq<char>, YamlNode)>) -> Seq<char>;

// ---------------------------------------------------------------------------
// Model
// ---------------------------------------------------------------------------
/// The texts of a sequence of strings.
pub open spec fn texts(v: Seq<String>) -> Seq<Seq<char>> {
    v.map_values(|s: String| s@)
}

/// The node that a value becomes.
pub open spec fn node_of(value: YamlValue) -> YamlNode {
    match value {
        YamlValue::Text(s) => YamlNode::Text(s@),
        YamlValue::Flag(b) => YamlNode::Flag(b),
        YamlValue::List(v) => YamlNode::List(texts(v@)),
        YamlValue::Table(m) => YamlNode::Table(yaml_fields(m)),
    }
}

/// One of the entries has this key.
pub open spec fn has_key(fields: Seq<(Seq<char>, YamlNode)>, key: Seq<char>) -> bool {
    exists|i: int| 0 <= i < fields.len() && #[trigger] fields[i].0 == key
}

/// What a scalar adds to the size of a mapping: its bytes and one more.
pub open spec fn scalar_size(s: Seq<char>) -> nat {
    text::byte_len(s) + 1
}

/// The size of a list of scalars.
pub open spec fn list_size(v: Seq<Seq<char>>) -> nat
    decreases v.len(),
{
    if v.len() == 0 {
        0
    } else {
        list_size(v.drop_last()) + scalar_size(v.last())
    }
}

/// The size of what stands under a key.
pub open spec fn node_size(node: YamlNode) -> nat
    decreases node,
{
    match node {
        YamlNode::Text(s) => scalar_size(s),
        YamlNode::Flag(_) => 6,
        YamlNode::List(v) => list_size(v) + 1,
        YamlNode::Table(t) => fields_size(t) + 1,
    }
}

/// The size of entries: that of all their keys and scalars together.
pub open spec fn fields_size(fields: Seq<(Seq<char>, YamlNode)>) -> nat
    decreases fields,
{
    if fields.len() == 0 {
        0
    } else {
        fields_size(fields.drop_last()) + scalar_size(fields.last().0) + node_size(fields.last().1)
    }
}

/// The size that a mapping may have. The emitter counts the lines that it has written, the bytes of
/// a scalar and the columns of a line, of which a byte takes up to four in an escape, in 31 bits.
pub const SIZE_LIMIT: usize = 0x1000_0000;

/// No table of the entries holds a further table.
pub open spec fn is_shallow(fields: Seq<(Seq<char>, YamlNode)>) -> bool {
    forall|i: int|
        0 <= i < fields.len() ==> ((#[trigger] fields[i]).1 matches YamlNode::Table(t)
            ==> holds_no_table(t))
}

/// None of the entries is a table.
pub open spec fn holds_no_table(fields: Seq<(Seq<char>, YamlNode)>) -> bool {
    forall|i: int| 0 <= i < fields.len() ==> !((#[trigger] fields[i]).1 is Table)
}

/// The entries together have a size that the emitter can count, and a depth that the serializer,
/// which calls itself for each table, can go down to.
pub open spec fn fields_fit(fields: Seq<(Seq<char>, YamlNode)>) -> bool {
    fields_size(fields) <= SIZE_LIMIT && is_shallow(fields)
}

/// One of the words that file headers use as keys.
pub open spec fn is_header_key(k: Seq<char>) -> bool {
    ||| k == "title"@
    ||| k == "updated_at"@
    ||| k == "content_hash"@
    ||| k == "model"@
    ||| k == "tags"@
    ||| k == "git"@
    ||| k == "include_context"@
    ||| k == "id"@
}

/// A character that YAML writes as itself, and that is no line break.
pub open spec fn is_plain_char(c: char) -> bool {
    &&& ('\u{20}' <= c <= '\u{7e}' || '\u{a0}' <= c <= '\u{fffd}' || '\u{10000}' <= c)
    &&& c != '\u{2028}'
    &&& c != '\u{2029}'
    &&& c != '\u{feff}'
}

/// A text of plain characters without a space at either end.
pub open spec fn is_one_line(v: Seq<char>) -> bool {
    &&& forall|i: int| 0 <= i < v.len() ==> is_plain_char(#[trigger] v[i])
    &&& v.len() > 0 ==> v[0] != ' ' && v.last() != ' '
}

/// A text with each single quote written twice, as it stands in single quotes.
pub open spec fn doubled(v: Seq<char>) -> Seq<char>
    decreases v.len(),
{
    if v.len() == 0 {
        Seq::empty()
    } else if v.last() == '\'' {
        doubled(v.drop_last()) + seq!['\'', '\'']
    } else {
        doubled(v.drop_last()).push(v.last())
    }
}

/// The bytes that a character takes at most, as itself, in quotes or in an escape.
pub open spec fn char_size(c: char) -> nat {
    if c == '\'' || c == '"' || c == '\\' {
        2
    } else if is_plain_char(c) {
        text::byte_len(seq![c])
    } else {
        10
    }
}

/// The bytes that the characters of a text take at most. A line break is counted with the
/// indentation behind it.
pub open spec fn written_size(v: Seq<char>) -> nat
    decreases v.len(),
{
    if v.len() == 0 {
        0
    } else {
        written_size(v.drop_last()) + char_size(v.last())
    }
}

/// What stands around a scalar: colon or hyphen, blanks, quotes or the marks of a block, newlines.
pub const MARKS_SIZE: usize = 16;

/// The bytes that a list of texts takes at most.
pub open spec fn list_bound(v: Seq<Seq<char>>) -> nat
    decreases v.len(),
{
    if v.len() == 0 {
        MARKS_SIZE as nat
    } else {
        list_bound(v.drop_last()) + written_size(v.last()) + MARKS_SIZE as nat
    }
}

/// The bytes that what stands behind a key takes at most.
pub open spec fn node_bound(node: YamlNode) -> nat
    decreases node,
{
    match node {
        YamlNode::Text(v) => written_size(v) + MARKS_SIZE as nat,
        YamlNode::Flag(_) => MARKS_SIZE as nat,
        YamlNode::List(v) => list_bound(v),
        YamlNode::Table(t) => fields_bound(t) + MARKS_SIZE as nat,
    }
}

/// The bytes that entries take at most.
pub open spec fn fields_bound(fields: Seq<(Seq<char>, YamlNode)>) -> nat
    decreases fields,
{
    if fields.len() == 0 {
        0
    } else {
        fields_bound(fields.drop_last()) + fields.last().0.len() + node_bound(fields.last().1)
    }
}

/// No line of `s` looks like the end of a header.
pub open spec fn has_no_fence(s: Seq<char>) -> bool {
    forall|a: int|
        0 <= a < s.len() && (a == 0 || s[a - 1] == '\n') ==> !utils::is_fence(
            text::first_line(#[trigger] s.skip(a)),
        )
}

/// Wherever it is written, no line of the text looks like the end of a header. A text of one line
/// stands behind its key or hyphen.
pub open spec fn is_fence_free(v: Seq<char>) -> bool {
    !v.contains('\n') || has_no_fence(v)
}

/// No text of the node looks like the end of a header in one of its lines.
pub open spec fn node_is_fence_free(node: YamlNode) -> bool {
    match node {
        YamlNode::Text(v) => is_fence_free(v),
        YamlNode::Flag(_) => true,
        YamlNode::List(v) => forall|i: int| 0 <= i < v.len() ==> is_fence_free(#[trigger] v[i]),
        YamlNode::Table(t) => forall|i: int|
            0 <= i < t.len() ==> ((#[trigger] t[i]).1 matches YamlNode::Text(v) ==> is_fence_free(v)),
    }
}

/// One of the words that the tables of file headers use as keys.
pub open spec fn is_table_key(k: Seq<char>) -> bool {
    k == "path"@ || k == "remote"@ || k == "branch"@ || k == "commit"@
}

/// A text, a flag, a list, or a table of texts under such keys.
pub open spec fn is_flat(node: YamlNode) -> bool {
    node matches YamlNode::Table(t) ==> forall|i: int|
        0 <= i < t.len() ==> is_table_key((#[trigger] t[i]).0) && t[i].1 is Text
}

/// `w` is a one-line text as it is written: bare or in single quotes.
pub open spec fn is_scalar(v: Seq<char>, w: Seq<char>) -> bool {
    w == v || w == seq!['\''] + doubled(v) + seq!['\'']
}

/// The lines of a list with items that are written so.
pub open spec fn item_lines(ws: Seq<Seq<char>>) -> Seq<char>
    decreases ws.len(),
{
    if ws.len() == 0 {
        Seq::empty()
    } else {
        item_lines(ws.drop_last()) + seq!['-', ' '] + ws.last() + seq!['\n']
    }
}

/// `part` is the text of a list of one-line texts.
pub open spec fn is_list_part(key: Seq<char>, v: Seq<Seq<char>>, part: Seq<char>) -> bool {
    if v.len() == 0 {
        part == key + seq![':', ' ', '[', ']', '\n']
    } else {
        exists|ws: Seq<Seq<char>>|
            ws.len() == v.len() && (forall|i: int|
                0 <= i < v.len() ==> is_scalar(v[i], #[trigger] ws[i])) && part == key + seq![
                ':',
                '\n',
            ] + #[trigger] item_lines(ws)
    }
}

/// The lines of a table with these keys and texts that are written so.
pub open spec fn table_lines(t: Seq<(Seq<char>, YamlNode)>, ws: Seq<Seq<char>>) -> Seq<char>
    decreases ws.len(),
{
    if ws.len() == 0 {
        Seq::empty()
    } else {
        table_lines(t, ws.drop_last()) + seq![' ', ' '] + t[ws.len() - 1].0 + seq![':', ' ']
            + ws.last() + seq!['\n']
    }
}

/// `part` is the text of a table of one-line texts.
pub open spec fn is_table_part(
    key: Seq<char>,
    t: Seq<(Seq<char>, YamlNode)>,
    part: Seq<char>,
) -> bool {
    exists|ws: Seq<Seq<char>>|
        ws.len() == t.len() && (forall|i: int|
            0 <= i < t.len() ==> is_scalar(t[i].1->Text_0, #[trigger] ws[i])) && part == key + seq![
            ':',
            '\n',
        ] + #[trigger] table_lines(t, ws)
}

/// A text of several lines that ends in a Unicode line or paragraph separator is written without a
/// newline behind it.
pub open spec fn runs_on(v: Seq<char>) -> bool {
    v.contains('\n') && (v.last() == '\u{2028}' || v.last() == '\u{2029}')
}

/// The lines of the node are followed by a newline.
pub open spec fn node_ends_its_line(node: YamlNode) -> bool
    decreases node,
{
    match node {
        YamlNode::Text(s) => !runs_on(s),
        YamlNode::Flag(_) => true,
        YamlNode::List(v) => forall|i: int| 0 <= i < v.len() ==> !runs_on(#[trigger] v[i]),
        YamlNode::Table(t) => forall|i: int|
            0 <= i < t.len() ==> !runs_on((#[trigger] t[i]).0) && node_ends_its_line(t[i].1),
    }
}

/// `part` is the text of one top-level entry: it opens with the key and a colon, ends its last
/// line, and goes on in lines that do not begin with a letter. A one-line text follows on the
/// key's line, bare or in single quotes, and so does a flag. A list of one-line texts has a line for
/// each item, and a table of them an indented line for each entry. Whatever the texts are, the entry
/// has a length that their characters bound, and no line of it looks like the end of a header unless
/// a line of theirs does.
pub open spec fn is_entry(key: Seq<char>, node: YamlNode, part: Seq<char>) -> bool {
    &&& text::has_prefix(part, key.push(':'))
    &&& part.last() == '\n'
    &&& forall|j: int|
        0 < j < part.len() && part[j - 1] == '\n' ==> !('a' <= #[trigger] part[j] <= 'z')
    &&& node matches YamlNode::Text(v) ==> is_one_line(v) ==> {
        ||| part == key + seq![':', ' '] + v + seq!['\n']
        ||| part == key + seq![':', ' ', '\''] + doubled(v) + seq!['\'', '\n']
    }
    &&& node == YamlNode::Flag(true) ==> part == key + seq![':', ' ', 't', 'r', 'u', 'e', '\n']
    &&& node matches YamlNode::List(v) ==> (forall|i: int|
        0 <= i < v.len() ==> is_one_line(#[trigger] v[i])) ==> is_list_part(key, v, part)
    &&& node matches YamlNode::Table(t) ==> t.len() > 0 && is_flat(node) && (forall|i: int|
        0 <= i < t.len() ==> is_one_line((#[trigger] t[i]).1->Text_0)) ==> is_table_part(
        key,
        t,
        part,
    )
    &&& is_flat(node) ==> text::byte_len(part) <= key.len() + node_bound(node)
    &&& is_flat(node) && node_is_fence_free(node) ==> has_no_fence(part)
}

/// `parts` are the texts of the entries, one each.
pub open spec fn are_entries(fields: Seq<(Seq<char>, YamlNode)>, parts: Seq<Seq<char>>) -> bool {
    &&& parts.len() == fields.len()
    &&& forall|i: int|
        0 <= i < fields.len() ==> is_entry(fields[i].0, fields[i].1, #[trigger] parts[i])
}

/// The concatenation of `parts`.
pub open spec fn joined(parts: Seq<Seq<char>>) -> Seq<char>
    decreases parts.len(),
{
    if parts.len() == 0 {
        Seq::empty()
    } else {
        parts[0] + joined(parts.drop_first())
    }
}

/// Entries whose text is known to be laid out line by line: header keys, nothing that runs on, and
/// a one-line text at the end.
pub open spec fn is_line_by_line(fields: Seq<(Seq<char>, YamlNode)>) -> bool {
    &&& fields.len() > 0
    &&& forall|i: int|
        0 <= i < fields.len() ==> is_header_key((#[trigger] fields[i]).0) && node_ends_its_line(
            fields[i].1,
        )
    &&& fields.last().1 matches YamlNode::Text(v) && is_one_line(v)
}

/// `s` is the text of the entries, one after the other.
pub open spec fn is_laid_out(fields: Seq<(Seq<char>, YamlNode)>, s: Seq<char>) -> bool {
    exists|parts: Seq<Seq<char>>| #[trigger] are_entries(fields, parts) && s == joined(parts)
}

// ---------------------------------------------------------------------------
// serde_yaml
// ---------------------------------------------------------------------------
/// `serde_yaml::Mapping::new` makes an empty mapping.
#[verifier::external_body]
pub(crate) fn new_mapping() -> (m: serde_yaml::Mapping)
    ensures
        yaml_fields(m) == Seq::<(Seq<char>, YamlNode)>::empty(),
{
    serde_yaml::Mapping::new()
}

/// `serde_yaml::Mapping::insert` puts an entry with a new key behind the others.
#[verifier::external_body]
pub(crate) fn insert(m: &mut serde_yaml::Mapping, key: &str, value: YamlValue)
    requires
        !has_key(yaml_fields(*old(m)), key@),
    ensures
        yaml_fields(*final(m)) == yaml_fields(*old(m)).push((key@, node_of(value))),
{
    let value = match value {
        YamlValue::Text(s) => serde_yaml::Value::String(s),
        YamlValue::Flag(b) => serde_yaml::Value::Bool(b),
        YamlValue::List(v) => serde_yaml::Value::from(v),
        YamlValue::Table(m) => serde_yaml::Value::Mapping(m),
    };
    m.insert(serde_yaml::Value::from(key), value);
}

/// `serde_yaml::to_string` writes the entries of a mapping one after the other, in block style. It
/// has no reason to fail on texts, flags, lists and tables of a size that the emitter can count and
/// of little depth, and the text is a function of the entries. Where the keys are those of file headers and no scalar
/// runs on, each entry begins on a line of its own, as `is_entry` says.
#[verifier::external_body]
pub(crate) fn mapping_text(m: &serde_yaml::Mapping) -> (r: Result<String, serde_yaml::Error>)
    requires
        fields_fit(yaml_fields(*m)),
    ensures
        r is Ok,
        r matches Ok(s) ==> s@ == yaml_text(yaml_fields(*m)),
        r matches Ok(s) ==> is_line_by_line(yaml_fields(*m)) ==> is_laid_out(yaml_fields(*m), s@),
{
    serde_yaml::to_string(m)
}

/// The sizes of entries add up.
pub proof fn lemma_fields_size_concat(
    a: Seq<(Seq<char>, YamlNode)>,
    b: Seq<(Seq<char>, YamlNode)>,
)
    ensures
        fields_size(a + b) == fields_size(a) + fields_size(b),
    decreases b.len(),
{
    if b.len() == 0 {
        assert(a + b =~= a);
    } else {
        assert((a + b).drop_last() =~= a + b.drop_last());
        assert((a + b).last() == b.last());
        lemma_fields_size_concat(a, b.drop_last());
    }
}

/// The size of one entry.
pub proof fn lemma_fields_size_one(key: Seq<char>, node: YamlNode)
    ensures
        fields_size(seq![(key, node)]) == scalar_size(key) + node_size(node),
{
    let s = seq![(key, node)];
    assert(s.drop_last() =~= Seq::<(Seq<char>, YamlNode)>::empty());
    assert(fields_size(s.drop_last()) == 0);
}

/// The bounds of entries add up.
pub proof fn lemma_fields_bound_concat(
    a: Seq<(Seq<char>, YamlNode)>,
    b: Seq<(Seq<char>, YamlNode)>,
)
    ensures
        fields_bound(a + b) == fields_bound(a) + fields_bound(b),
    decreases b.len(),
{
    if b.len() == 0 {
        assert(a + b =~= a);
    } else {
        assert((a + b).drop_last() =~= a + b.drop_last());
        assert((a + b).last() == b.last());
        lemma_fields_bound_concat(a, b.drop_last());
    }
}

/// The bound of one entry.
pub proof fn lemma_fields_bound_one(key: Seq<char>, node: YamlNode)
    ensures
        fields_bound(seq![(key, node)]) == key.len() + node_bound(node),
{
    let s = seq![(key, node)];
    assert(s.drop_last() =~= Seq::<(Seq<char>, YamlNode)>::empty());
    assert(fields_bound(s.drop_last()) == 0);
}

/// A text of characters that are written as one byte each.
pub proof fn lemma_written_as_is(v: Seq<char>)
    requires
        forall|i: int|
            0 <= i < v.len() ==> is_plain_char(#[trigger] v[i]) && v[i] < '\u{80}' && v[i] != '\''
                && v[i] != '"' && v[i] != '\\',
    ensures
        written_size(v) == v.len(),
    decreases v.len(),
{
    if v.len() > 0 {
        let w = v.drop_last();
        assert forall|i: int| 0 <= i < w.len() implies is_plain_char(#[trigger] w[i]) && w[i]
            < '\u{80}' && w[i] != '\'' && w[i] != '"' && w[i] != '\\' by {
            assert(w[i] == v[i]);
        }
        lemma_written_as_is(w);
        let c = v[v.len() - 1];
        assert(is_plain_char(c));
        text::lemma_ascii_byte_len(seq![c]);
    }
}

/// A text without single quotes stands in quotes as it is.
pub proof fn lemma_nothing_doubled(v: Seq<char>)
    requires
        forall|i: int| 0 <= i < v.len() ==> v[i] != '\'',
    ensures
        doubled(v) == v,
    decreases v.len(),
{
    if v.len() > 0 {
        assert(v[v.len() - 1] != '\'');
        lemma_nothing_doubled(v.drop_last());
        assert(v.drop_last().push(v.last()) =~= v);
    }
}

/// What a value becomes in a mapping.
pub proof fn law_nodes_of_values(value: YamlValue)
    ensures
        value matches YamlValue::Text(s) ==> node_of(value) == YamlNode::Text(s@),
        value matches YamlValue::Flag(b) ==> node_of(value) == YamlNode::Flag(b),
        value matches YamlValue::List(v) ==> (node_of(value) matches YamlNode::List(t) && t.len()
            == v@.len() && forall|i: int| 0 <= i < t.len() ==> #[trigger] t[i] == v@[i]@),
        value matches YamlValue::Table(m) ==> node_of(value) == YamlNode::Table(yaml_fields(m)),
{
}

} // verus!
