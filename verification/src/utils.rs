//! Configuration, outcomes, and what is read back from the database and from exported files.
use crate::text;
use crate::timestamp;
use crate::timestamp::Timestamp;
use vstd::prelude::*;
use vstd::slice::slice_subrange;
use vstd::utf8::*;

verus! {

/// `std::path::PathBuf`, carried opaquely.
#[verifier::external_type_specification]
#[verifier::external_body]
pub struct ExPathBuf(std::path::PathBuf);

/// `std::io::Error`, carried opaquely.
#[verifier::external_type_specification]
#[verifier::external_body]
pub struct ExIoError(std::io::Error);

/// Configuration required to run the export process.
/// This decouples the logic from how the arguments were parsed (CLI/Config file).
pub struct ExportConfig {
    pub target_dir: std::path::PathBuf,
    pub db_path: std::path::PathBuf,
    pub tags: Option<Vec<String>>,
    pub force: bool,
    pub verbose: bool,
    pub quiet: bool,
    pub include_context: bool,
}

/// What exporting one thread came to.
#[derive(Debug, Clone, Copy, PartialEq, Eq, Structural)]
pub enum ProcessResult {
    Created,
    Updated,
    Skipped,
}

/// What the header of an exported file says about the thread in it.
#[derive(Debug, Clone)]
pub struct FileFrontmatter {
    pub id: Option<String>,
    pub updated_at: Timestamp,
    pub content_hash: Option<String>,
    pub include_context: bool,
}

/// The contents of a [`FileFrontmatter`].
pub struct FileHeader {
    pub id: Option<Seq<char>>,
    pub updated_at: (i64, u32),
    pub content_hash: Option<Seq<char>>,
    pub include_context: bool,
}

impl View for FileFrontmatter {
    type V = FileHeader;

    open spec fn view(&self) -> FileHeader {
        FileHeader {
            id: text::opt_text(self.id),
            updated_at: self.updated_at@,
            content_hash: text::opt_text(self.content_hash),
            include_context: self.include_context,
        }
    }
}

// ---------------------------------------------------------------------------
// Timestamps of stored threads
// ---------------------------------------------------------------------------
/// The instant in the `updated_at` field of a thread document, where the document has that field
/// and it holds a timestamp.
pub fn extract_json_timestamp(updated_at: Option<&str>) -> (r: Option<Timestamp>)
    ensures
        timestamp::opt_instant(r) == (match updated_at {
            Some(s) => timestamp::relaxed_instant(s@),
            None => None,
        }),
        r matches Some(t) ==> (updated_at matches Some(s) && timestamp::relaxed_instant(s@) == Some(
            t@,
        )),
        updated_at matches Some(s) ==> (timestamp::relaxed_instant(s@) is Some ==> r is Some),
{
    match updated_at {
        Some(s) => Timestamp::parse_relaxed(s),
        None => None,
    }
}

// ---------------------------------------------------------------------------
// Stored data
// ---------------------------------------------------------------------------
/// Why stored data could not be read.
#[derive(Debug)]
pub enum DecompressError {
    /// The data is no Zstandard stream.
    Zstd(std::io::Error),
    /// The data is stored in a way that is not known.
    UnknownDataType(String),
}

/// What `zstd::decode_all` decompresses a byte sequence to; `None` where it fails.
pub uninterp spec fn zstd_decoded(data: Seq<u8>) -> Option<Seq<u8>>;

/// Calls `zstd::decode_all` on the bytes in memory. What it gives back is a function of the bytes.
#[verifier::external_body]
fn zstd_decode_all(data: &[u8]) -> (r: Result<Vec<u8>, std::io::Error>)
    ensures
        r is Ok <==> zstd_decoded(data@) is Some,
        r matches Ok(v) ==> zstd_decoded(data@) == Some(v@),
{
    zstd::decode_all(data)
}

/// The bytes of a document stored as `raw_data` in the form `data_type`; `None` where they cannot
/// be had.
pub open spec fn stored_bytes(data_type: Seq<char>, raw_data: Seq<u8>) -> Option<Seq<u8>> {
    if data_type == "zstd"@ {
        zstd_decoded(raw_data)
    } else if data_type == "json"@ {
        Some(raw_data)
    } else {
        None
    }
}

/// Decompress data bytes based on the data type.
pub fn decompress(data_type: &str, raw_data: &[u8]) -> (r: Result<Vec<u8>, DecompressError>)
    ensures
        data_type@ == "zstd"@ ==> (r is Ok <==> zstd_decoded(raw_data@) is Some),
        data_type@ == "zstd"@ ==> (r matches Ok(v) ==> zstd_decoded(raw_data@) == Some(v@)),
        data_type@ == "json"@ ==> (r matches Ok(v) && v@ == raw_data@),
        r is Ok <==> stored_bytes(data_type@, raw_data@) is Some,
        r matches Ok(v) ==> stored_bytes(data_type@, raw_data@) == Some(v@),
        r matches Err(DecompressError::Zstd(_)) <==> data_type@ == "zstd"@ && zstd_decoded(
            raw_data@,
        ) is None,
        r matches Err(DecompressError::UnknownDataType(s)) ==> s@ == data_type@,
        r matches Err(DecompressError::UnknownDataType(_)) <==> data_type@ != "zstd"@ && data_type@
            != "json"@,
{
    proof {
        reveal_strlit("zstd");
        reveal_strlit("json");
        assert("zstd"@[0] != "json"@[0]);
    }
    if text::same_text(data_type, "zstd") {
        match zstd_decode_all(raw_data) {
            Ok(v) => Ok(v),
            Err(e) => Err(DecompressError::Zstd(e)),
        }
    } else if text::same_text(data_type, "json") {
        Ok(vstd::slice::slice_to_vec(raw_data))
    } else {
        Err(DecompressError::UnknownDataType(data_type.to_owned()))
    }
}

/// Plain JSON passes through unchanged.
pub proof fn law_json_is_stored_as_it_is(raw_data: Seq<u8>)
    ensures
        stored_bytes("json"@, raw_data) == Some(raw_data),
{
    reveal_strlit("zstd");
    reveal_strlit("json");
    assert("zstd"@[0] != "json"@[0]);
}

// ---------------------------------------------------------------------------
// Headers of exported files
// ---------------------------------------------------------------------------
/// A header is looked for in this many bytes behind the opening line.
pub const HEADER_LIMIT: usize = 2048;

/// The first line of `b` without its line ending (a newline, or a carriage return and a newline).
pub open spec fn first_line(b: Seq<u8>) -> Seq<u8> {
    let i = text::find(b, 10u8);
    if 0 < i < b.len() && b[i - 1] == 13u8 {
        b.take(i - 1)
    } else {
        b.take(i)
    }
}

/// What follows the first line of `b`.
pub open spec fn after_line(b: Seq<u8>) -> Seq<u8> {
    let i = text::find(b, 10u8);
    if i < b.len() {
        b.skip(i + 1)
    } else {
        Seq::empty()
    }
}

/// What a header line says.
pub enum HeaderLine {
    Id(Seq<char>),
    UpdatedAt(Seq<char>),
    ContentHash(Seq<char>),
    IncludeContext(bool),
    Other,
}

/// A header value without the white space and the quotes around it.
pub open spec fn unquoted(s: Seq<char>) -> Seq<char> {
    text::trimmed_of(text::trimmed_of(text::trimmed(s), '\''), '"')
}

/// How a header line is understood.
pub open spec fn line_meaning(line: Seq<char>) -> HeaderLine {
    if text::has_prefix(line, "id:"@) {
        HeaderLine::Id(unquoted(line.skip("id:"@.len() as int)))
    } else if text::has_prefix(line, "updated_at:"@) {
        HeaderLine::UpdatedAt(unquoted(line.skip("updated_at:"@.len() as int)))
    } else if text::has_prefix(line, "content_hash:"@) {
        HeaderLine::ContentHash(unquoted(line.skip("content_hash:"@.len() as int)))
    } else if text::has_prefix(line, "include_context:"@) {
        HeaderLine::IncludeContext(
            text::trimmed(line.skip("include_context:"@.len() as int)) == "true"@,
        )
    } else {
        HeaderLine::Other
    }
}

/// What the lines of a header have said so far.
pub struct HeaderSoFar {
    pub id: Option<Seq<char>>,
    pub updated_at: Option<(i64, u32)>,
    pub content_hash: Option<Seq<char>>,
    pub include_context: bool,
}

/// Nothing has been said yet.
pub open spec fn nothing_said() -> HeaderSoFar {
    HeaderSoFar { id: None, updated_at: None, content_hash: None, include_context: false }
}

/// What is known after one more line: a later line about the same thing replaces an earlier one.
pub open spec fn after_saying(h: HeaderSoFar, line: HeaderLine) -> HeaderSoFar {
    match line {
        HeaderLine::Id(s) => HeaderSoFar { id: Some(s), ..h },
        HeaderLine::UpdatedAt(s) => HeaderSoFar { updated_at: timestamp::rfc3339_instant(s), ..h },
        HeaderLine::ContentHash(s) => HeaderSoFar { content_hash: Some(s), ..h },
        HeaderLine::IncludeContext(b) => HeaderSoFar { include_context: b, ..h },
        HeaderLine::Other => h,
    }
}

/// A header ends at a line of three hyphens.
pub open spec fn is_fence(line: Seq<char>) -> bool {
    text::trimmed(line) == "---"@
}

/// What the header lines in `b` say, where `h` is what earlier lines said and `n` the number of
/// bytes in those. It ends at a fence, at the byte limit or at the end of the file, and there is
/// none where a line before that is not UTF-8.
pub open spec fn header_scan(b: Seq<u8>, n: int, h: HeaderSoFar) -> Option<HeaderSoFar>
    decreases b.len(),
{
    if b.len() == 0 {
        Some(h)
    } else {
        proof {
            text::lemma_find(b, 10u8);
        }
        let line = first_line(b);
        let m = n + line.len() + 1;
        if !valid_utf8(line) {
            None
        } else if m > HEADER_LIMIT || is_fence(decode_utf8(line)) {
            Some(h)
        } else {
            header_scan(after_line(b), m, after_saying(h, line_meaning(decode_utf8(line))))
        }
    }
}

/// The header of a file with this content: it opens with a fence and gives a timestamp.
pub open spec fn file_header(content: Seq<u8>) -> Option<FileHeader> {
    let line = first_line(content);
    if content.len() == 0 || !valid_utf8(line) || !is_fence(decode_utf8(line)) {
        None
    } else {
        match header_scan(after_line(content), 0, nothing_said()) {
            Some(h) => match h.updated_at {
                Some(t) => Some(
                    FileHeader {
                        id: h.id,
                        updated_at: t,
                        content_hash: h.content_hash,
                        include_context: h.include_context,
                    },
                ),
                None => None,
            },
            None => None,
        }
    }
}

/// What a header line says.
pub enum HeaderField {
    Id(String),
    UpdatedAt(String),
    ContentHash(String),
    IncludeContext(bool),
    Other,
}

impl View for HeaderField {
    type V = HeaderLine;

    open spec fn view(&self) -> HeaderLine {
        match self {
            HeaderField::Id(s) => HeaderLine::Id(s@),
            HeaderField::UpdatedAt(s) => HeaderLine::UpdatedAt(s@),
            HeaderField::ContentHash(s) => HeaderLine::ContentHash(s@),
            HeaderField::IncludeContext(b) => HeaderLine::IncludeContext(*b),
            HeaderField::Other => HeaderLine::Other,
        }
    }
}

fn unquote(v: &[char]) -> (r: String)
    ensures
        r@ == unquoted(v@),
{
    text::string_of(text::trim_of(text::trim_of(text::trim(v), '\''), '"'))
}

/// Understands one header line.
pub fn classify_line(line: &[char]) -> (r: HeaderField)
    ensures
        r@ == line_meaning(line@),
{
    match text::strip_prefix(line, "id:") {
        Some(rest) => return HeaderField::Id(unquote(rest)),
        None => {},
    }
    match text::strip_prefix(line, "updated_at:") {
        Some(rest) => return HeaderField::UpdatedAt(unquote(rest)),
        None => {},
    }
    match text::strip_prefix(line, "content_hash:") {
        Some(rest) => return HeaderField::ContentHash(unquote(rest)),
        None => {},
    }
    match text::strip_prefix(line, "include_context:") {
        Some(rest) => HeaderField::IncludeContext(text::spells(text::trim(rest), "true")),
        None => HeaderField::Other,
    }
}

/// Where the text of the line that begins at `pos` ends, and where the next line begins.
fn line_bounds(content: &[u8], pos: usize) -> (r: (usize, usize))
    requires
        pos < content@.len(),
    ensures
        pos <= r.0 <= r.1 <= content@.len(),
        pos < r.1,
        content@.subrange(pos as int, r.0 as int) == first_line(content@.skip(pos as int)),
        content@.skip(r.1 as int) == after_line(content@.skip(pos as int)),
{
    let ghost b = content@.skip(pos as int);
    let mut i: usize = pos;
    while i < content.len() && content[i] != 10
        invariant
            pos <= i <= content@.len(),
            b == content@.skip(pos as int),
            forall|j: int| 0 <= j < i - pos ==> b[j] != 10u8,
        decreases content@.len() - i,
    {
        i += 1;
    }
    proof {
        text::lemma_find_is(b, 10u8, i - pos);
    }
    if i == content.len() {
        assert(content@.subrange(pos as int, i as int) =~= b.take(i - pos));
        assert(content@.skip(i as int) =~= Seq::empty());
        (i, i)
    } else {
        assert(content@.skip(i + 1) =~= b.skip(i - pos + 1));
        if i > pos && content[i - 1] == 13 {
            assert(content@.subrange(pos as int, i - 1) =~= b.take(i - pos - 1));
            (i - 1, i + 1)
        } else {
            assert(content@.subrange(pos as int, i as int) =~= b.take(i - pos));
            (i, i + 1)
        }
    }
}

/// The characters of the line between two positions, where it is UTF-8.
fn line_chars(content: &[u8], from: usize, to: usize) -> (r: Option<Vec<char>>)
    requires
        from <= to <= content@.len(),
    ensures
        r is Some <==> valid_utf8(content@.subrange(from as int, to as int)),
        r matches Some(v) ==> v@ == decode_utf8(content@.subrange(from as int, to as int)),
{
    match std::str::from_utf8(slice_subrange(content, from, to)) {
        Ok(s) => Some(text::chars_of(s)),
        Err(_) => None,
    }
}

fn fence(line: &[char]) -> (r: bool)
    ensures
        r == is_fence(line@),
{
    text::spells(text::trim(line), "---")
}

/// Read the YAML frontmatter of an existing .md file and extract relevant fields.
pub fn parse_existing_frontmatter(content: &[u8]) -> (r: Option<FileFrontmatter>)
    ensures
        r is Some <==> file_header(content@) is Some,
        r matches Some(fm) ==> file_header(content@) == Some(fm@),
{
    if content.len() == 0 {
        return None;
    }
    assert(content@.skip(0) =~= content@);
    let (end, next) = line_bounds(content, 0);
    match line_chars(content, 0, end) {
        Some(first) => {
            if !fence(first.as_slice()) {
                return None;
            }
        },
        None => {
            return None;
        },
    }

    let mut id: Option<String> = None;
    let mut updated_at: Option<Timestamp> = None;
    let mut content_hash: Option<String> = None;
    let mut include_context = false;
    let mut bytes_read: usize = 0;
    let mut pos: usize = next;
    let mut reading = true;
    let ghost all = header_scan(after_line(content@), 0, nothing_said());
    while reading && pos < content.len()
        invariant
            pos <= content@.len(),
            bytes_read <= HEADER_LIMIT,
            all == header_scan(after_line(content@), 0, nothing_said()),
            file_header(content@) is Some ==> all is Some,
            reading ==> header_scan(
                content@.skip(pos as int),
                bytes_read as int,
                said(id, updated_at, content_hash, include_context),
            ) == all,
            !reading ==> all == Some(said(id, updated_at, content_hash, include_context)),
        decreases content@.len() - pos + (if reading {
            1int
        } else {
            0
        }),
    {
        let (end, next) = line_bounds(content, pos);
        let line = match line_chars(content, pos, end) {
            Some(line) => line,
            None => {
                return None;
            },
        };
        let len: usize = end - pos;
        if len >= HEADER_LIMIT - bytes_read || fence(line.as_slice()) {
            reading = false;
        } else {
            bytes_read = bytes_read + len + 1;
            match classify_line(line.as_slice()) {
                HeaderField::Id(s) => {
                    id = Some(s);
                },
                HeaderField::UpdatedAt(s) => {
                    updated_at = Timestamp::parse_rfc3339(s.as_str());
                },
                HeaderField::ContentHash(s) => {
                    content_hash = Some(s);
                },
                HeaderField::IncludeContext(b) => {
                    include_context = b;
                },
                HeaderField::Other => {},
            }
            pos = next;
        }
    }
    match updated_at {
        Some(updated_at) => Some(FileFrontmatter { id, updated_at, content_hash, include_context }),
        None => None,
    }
}

/// What has been read so far, as the model has it.
spec fn said(
    id: Option<String>,
    updated_at: Option<Timestamp>,
    content_hash: Option<String>,
    include_context: bool,
) -> HeaderSoFar {
    HeaderSoFar {
        id: text::opt_text(id),
        updated_at: timestamp::opt_instant(updated_at),
        content_hash: text::opt_text(content_hash),
        include_context,
    }
}

/// Data stored with Zstandard is all that the decoder gives, and data in any other form than the two
/// that are known cannot be read.
pub proof fn law_stored_data_is_read_whole(data_type: Seq<char>, raw_data: Seq<u8>)
    ensures
        data_type == "zstd"@ ==> stored_bytes(data_type, raw_data) == zstd_decoded(raw_data),
        data_type == "json"@ ==> stored_bytes(data_type, raw_data) == Some(raw_data),
        data_type != "zstd"@ && data_type != "json"@ ==> stored_bytes(data_type, raw_data) is None,
{
    reveal_strlit("zstd");
    reveal_strlit("json");
    assert("zstd"@[0] == 'z' && "json"@[0] == 'j');
}

/// What is known of the header of a file, field by field.
pub proof fn law_fields_of_a_file_header(f: FileFrontmatter)
    ensures
        f@.id == (match f.id {
            Some(s) => Some(s@),
            None => None,
        }),
        f@.updated_at == f.updated_at@,
        f@.content_hash == (match f.content_hash {
            Some(s) => Some(s@),
            None => None,
        }),
        f@.include_context == f.include_context,
{
}

/// A fence is three hyphens, with white space around them at most.
pub proof fn law_fence(a: Seq<char>, b: Seq<char>, line: Seq<char>)
    requires
        forall|k: int| 0 <= k < a.len() ==> text::is_white_space(#[trigger] a[k]),
        forall|k: int| 0 <= k < b.len() ==> text::is_white_space(#[trigger] b[k]),
    ensures
        is_fence(a + "---"@ + b),
        is_fence(line) ==> exists|x: Seq<char>, y: Seq<char>|
            {
                &&& line == #[trigger] (x + "---"@ + y)
                &&& forall|k: int| 0 <= k < x.len() ==> text::is_white_space(#[trigger] x[k])
                &&& forall|k: int| 0 <= k < y.len() ==> text::is_white_space(#[trigger] y[k])
            },
{
    reveal_strlit("---");
    let m = "---"@;
    assert(m.len() == 3 && m[0] == '-' && m[2] == '-');
    assert(!text::is_white_space('-'));
    text::lemma_trimmed_is(a, m, b);
    if is_fence(line) {
        text::law_trimmed(line);
    }
}

/// The first line of bytes ends at the first newline, and a carriage return before it is part of the
/// line ending. What follows is read next.
pub proof fn law_lines_of_bytes(line: Seq<u8>, rest: Seq<u8>)
    requires
        forall|k: int| 0 <= k < line.len() ==> #[trigger] line[k] != 10,
    ensures
        line.len() == 0 || line.last() != 13 ==> first_line(line.push(10) + rest) == line,
        first_line(line.push(13).push(10) + rest) == line,
        after_line(line.push(10) + rest) == rest,
        first_line(line) == line,
        after_line(line).len() == 0,
{
    let s = line.push(10) + rest;
    let n = line.len() as int;
    assert forall|j: int| 0 <= j < n implies s[j] != 10 by {
        assert(s[j] == line[j]);
    }
    text::lemma_find_is(s, 10u8, n);
    assert(s.take(n) =~= line);
    assert(s.skip(n + 1) =~= rest);
    if n > 0 {
        assert(s[n - 1] == line.last());
    }
    let t = line.push(13).push(10) + rest;
    assert forall|j: int| 0 <= j < n + 1 implies t[j] != 10 by {
        if j < n {
            assert(t[j] == line[j]);
        }
    }
    text::lemma_find_is(t, 10u8, n + 1);
    assert(t.take(n) =~= line);
    text::lemma_find_is(line, 10u8, n);
    assert(line.take(n) =~= line);
}

/// No line begins with two of the keys of a header.
pub(crate) proof fn lemma_header_keys(x: Seq<char>)
    ensures
        text::has_prefix(x, "id:"@) ==> !text::has_prefix(x, "updated_at:"@) && !text::has_prefix(
            x,
            "content_hash:"@,
        ) && !text::has_prefix(x, "include_context:"@),
        text::has_prefix(x, "updated_at:"@) ==> !text::has_prefix(x, "content_hash:"@)
            && !text::has_prefix(x, "include_context:"@),
        text::has_prefix(x, "content_hash:"@) ==> !text::has_prefix(x, "include_context:"@),
{
    reveal_strlit("id:");
    reveal_strlit("updated_at:");
    reveal_strlit("content_hash:");
    reveal_strlit("include_context:");
    if text::has_prefix(x, "id:"@) {
        assert(x.take(3)[0] == 'i' && x.take(3)[1] == 'd');
    }
    if text::has_prefix(x, "updated_at:"@) {
        assert(x.take("updated_at:"@.len() as int)[0] == 'u');
    }
    if text::has_prefix(x, "content_hash:"@) {
        assert(x.take("content_hash:"@.len() as int)[0] == 'c');
    }
    if text::has_prefix(x, "include_context:"@) {
        assert(x.take("include_context:"@.len() as int)[0] == 'i');
        assert(x.take("include_context:"@.len() as int)[1] == 'n');
    }
}

/// A line that begins with a key gives what stands behind it, without white space and quotes; a line
/// that begins with none says nothing.
pub proof fn law_meaning_of_a_line(value: Seq<char>, line: Seq<char>)
    ensures
        ({
            let bare = text::trimmed_of(text::trimmed_of(text::trimmed(value), '\''), '"');
            &&& line_meaning("id:"@ + value) == HeaderLine::Id(bare)
            &&& line_meaning("updated_at:"@ + value) == HeaderLine::UpdatedAt(bare)
            &&& line_meaning("content_hash:"@ + value) == HeaderLine::ContentHash(bare)
            &&& line_meaning("include_context:"@ + value) == HeaderLine::IncludeContext(
                text::trimmed(value) == "true"@,
            )
        }),
        !(line_meaning(line) is Other) ==> {
            ||| line == "id:"@ + line.skip("id:"@.len() as int)
            ||| line == "updated_at:"@ + line.skip("updated_at:"@.len() as int)
            ||| line == "content_hash:"@ + line.skip("content_hash:"@.len() as int)
            ||| line == "include_context:"@ + line.skip("include_context:"@.len() as int)
        },
{
    lemma_behind_key("id:"@, value, line);
    lemma_behind_key("updated_at:"@, value, line);
    lemma_behind_key("content_hash:"@, value, line);
    lemma_behind_key("include_context:"@, value, line);
    lemma_header_keys("id:"@ + value);
    lemma_header_keys("updated_at:"@ + value);
    lemma_header_keys("content_hash:"@ + value);
    lemma_header_keys("include_context:"@ + value);
}

/// A line that begins with a key is the key and what stands behind it.
proof fn lemma_behind_key(key: Seq<char>, value: Seq<char>, line: Seq<char>)
    ensures
        text::has_prefix(key + value, key),
        (key + value).skip(key.len() as int) == value,
        text::has_prefix(line, key) ==> line == key + line.skip(key.len() as int),
{
    let s = key + value;
    assert(s.take(key.len() as int) =~= key);
    assert(s.skip(key.len() as int) =~= value);
    if text::has_prefix(line, key) {
        assert(line =~= line.take(key.len() as int) + line.skip(key.len() as int));
    }
}

/// A field of a header says what it holds.
pub proof fn law_fields_of_a_line(s: String, b: bool)
    ensures
        HeaderField::Id(s)@ == HeaderLine::Id(s@),
        HeaderField::UpdatedAt(s)@ == HeaderLine::UpdatedAt(s@),
        HeaderField::ContentHash(s)@ == HeaderLine::ContentHash(s@),
        HeaderField::IncludeContext(b)@ == HeaderLine::IncludeContext(b),
        HeaderField::Other@ == HeaderLine::Other,
{
}

} // verus!
