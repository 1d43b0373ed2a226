//! Rendering threads as Markdown documents.
use crate::frontmatter;
use crate::frontmatter::{ExportError, Frontmatter, GitHeader, GitMetadata, Header};
use crate::importer::{
    AgentMessageContent, DbThread, GitState, MentionUri, Message, ProjectSnapshot, Role,
    SerializedLanguageModel, SerializedMessage, SerializedMessageSegment, SerializedThread,
    UserMessageContent,
};
use crate::paths;
use crate::readback;
use crate::text;
use crate::utils;
use crate::yaml;
use vstd::prelude::*;
use vstd::slice::slice_subrange;
use vstd::string::*;
use vstd::utf8::*;

verus! {

// ---------------------------------------------------------------------------
// Images
// ---------------------------------------------------------------------------
/// A file that a document refers to.
pub struct Asset {
    pub name: String,
    pub data: Vec<u8>,
}

impl View for Asset {
    type V = (Seq<char>, Seq<u8>);

    open spec fn view(&self) -> (Seq<char>, Seq<u8>) {
        (self.name@, self.data@)
    }
}

/// What the standard base64 engine of the `base64` crate decodes a text to; `None` where it fails.
pub uninterp spec fn base64_decoded(s: Seq<char>) -> Option<Seq<u8>>;

/// The file extension of the type that `infer::get` recognizes bytes as.
pub uninterp spec fn inferred_extension(bytes: Seq<u8>) -> Option<Seq<char>>;

/// The SHA-256 digest of a byte sequence.
pub uninterp spec fn sha256_digest(bytes: Seq<u8>) -> Seq<u8>;

/// Calls `base64::Engine::decode` of the standard engine (padded, with the usual alphabet). What it
/// gives back is a function of the text.
#[verifier::external_body]
fn base64_decode(s: &str) -> (r: Option<Vec<u8>>)
    ensures
        r is Some <==> base64_decoded(s@) is Some,
        r matches Some(v) ==> base64_decoded(s@) == Some(v@),
{
    base64::Engine::decode(&base64::engine::general_purpose::STANDARD, s).ok()
}

/// The number in four bytes, the lowest first.
pub open spec fn number_at(bytes: Seq<u8>, at: int) -> int {
    bytes[at] + 0x100 * bytes[at + 1] + 0x1_0000 * bytes[at + 2] + 0x100_0000 * bytes[at + 3]
}

/// The bytes open with a skippable frame, which Zstandard and LZ4 streams may have in front: sixteen
/// magic numbers, then the length of the frame's contents.
pub open spec fn is_skippable_frame(bytes: Seq<u8>) -> bool {
    &&& bytes.len() >= 8
    &&& 0x50 <= bytes[0] <= 0x5f
    &&& bytes[1] == 0x2a
    &&& bytes[2] == 0x4d
    &&& bytes[3] == 0x18
}

/// At most `n` whole skippable frames follow each other at the front of the bytes, and the end of
/// each that `infer` looks at, as the frame claims it, is a number that the machine can count to.
pub open spec fn has_few_frames(bytes: Seq<u8>, n: nat) -> bool
    decreases n,
{
    if !is_skippable_frame(bytes) {
        true
    } else if 8 + number_at(bytes, 4) > usize::MAX {
        false
    } else if bytes.len() < 8 + number_at(bytes, 4) {
        true
    } else {
        n > 0 && has_few_frames(bytes.skip(8 + number_at(bytes, 4)), (n - 1) as nat)
    }
}

/// The bytes open like a ZIP archive.
pub open spec fn is_zip(bytes: Seq<u8>) -> bool {
    bytes.len() >= 22 && bytes[0] == 0x50 && bytes[1] == 0x4b && bytes[2] == 3 && bytes[3] == 4
}

/// The number of skippable frames that are looked through for a file type. `infer` calls itself for
/// each of them, as deep as the stack goes.
pub const FRAME_LIMIT: usize = 1024;

/// How far behind the length in an archive's header `infer` looks.
pub const ARCHIVE_REACH: u64 = 6049;

/// The end of an archive's first file, as the archive claims it, is a number that the machine can
/// count to. `infer` gives up on those that do not fit into 32 bits.
pub open spec fn is_searchable(bytes: Seq<u8>) -> bool {
    is_zip(bytes) ==> number_at(bytes, 18) + ARCHIVE_REACH <= usize::MAX || number_at(bytes, 18)
        + 49 > u32::MAX
}

/// The type of the bytes can be looked for: `infer` calls itself for each skippable frame, and adds
/// to the lengths that frames and archives claim to have.
pub open spec fn is_recognizable(bytes: Seq<u8>) -> bool {
    has_few_frames(bytes, FRAME_LIMIT as nat) && is_searchable(bytes)
}

/// Calls `infer::get`, which recognizes a file type by its first bytes, and keeps the extension of
/// the type. It calls itself for each skippable frame at the front of the bytes, so there must not
/// be too many of them, and adds to lengths that the bytes give, so these must not be too large for
/// the machine's word.
#[verifier::external_body]
fn infer_extension(bytes: &[u8]) -> (r: Option<String>)
    requires
        is_recognizable(bytes@),
    ensures
        text::opt_text(r) == inferred_extension(bytes@),
{
    infer::get(bytes).map(|t| t.extension().to_string())
}

/// Calls `sha2::Digest::digest` of `sha2::Sha256`. The digest is a function of the bytes and has a
/// fixed length.
#[verifier::external_body]
fn sha256(bytes: &[u8]) -> (r: Vec<u8>)
    ensures
        r@ == sha256_digest(bytes@),
        r@.len() == 32,
{
    <sha2::Sha256 as sha2::Digest>::digest(bytes).to_vec()
}

/// The lower-case hexadecimal digit with value `n`.
pub open spec fn hex_digit(n: int) -> char {
    if n < 10 {
        (48 + n) as char
    } else {
        (87 + n) as char
    }
}

/// Bytes in hexadecimal notation, two digits each.
pub open spec fn hex(bytes: Seq<u8>) -> Seq<char>
    decreases bytes.len(),
{
    if bytes.len() == 0 {
        Seq::empty()
    } else {
        hex(bytes.drop_last()).push(hex_digit(bytes.last() as int / 16)).push(
            hex_digit(bytes.last() as int % 16),
        )
    }
}

/// The name of an asset: the thread, the first sixteen digits of the hash of its bytes, and the
/// extension of its type, or `bin` where the type is not known.
pub open spec fn asset_name(
    thread_id: Seq<char>,
    digest: Seq<u8>,
    ext: Option<Seq<char>>,
) -> Seq<char> {
    thread_id + "."@ + hex(digest.take(8)) + "."@ + (match ext {
        Some(e) => e,
        None => "bin"@,
    })
}

/// The extension of the type of bytes, where it can be looked for and is known.
pub open spec fn extension_of(bytes: Seq<u8>) -> Option<Seq<char>> {
    if is_recognizable(bytes) {
        inferred_extension(bytes)
    } else {
        None
    }
}

/// The asset for a base64-encoded image in a thread; `None` where it is not base64.
pub open spec fn asset_of(thread_id: Seq<char>, b64: Seq<char>) -> Option<(Seq<char>, Seq<u8>)> {
    match base64_decoded(b64) {
        Some(bytes) => Some(
            (asset_name(thread_id, sha256_digest(bytes), extension_of(bytes)), bytes),
        ),
        None => None,
    }
}

fn to_hex_digit(n: u8) -> (r: char)
    requires
        n < 16,
    ensures
        r == hex_digit(n as int),
{
    if n < 10 {
        (48 + n) as char
    } else {
        (87 + n) as char
    }
}

/// Bytes in hexadecimal notation.
pub fn to_hex(bytes: &[u8]) -> (r: String)
    ensures
        r@ == hex(bytes@),
{
    let mut s = String::new();
    let mut i: usize = 0;
    assert(bytes@.take(0) =~= Seq::<u8>::empty());
    while i < bytes.len()
        invariant
            i <= bytes@.len(),
            s@ == hex(bytes@.take(i as int)),
        decreases bytes@.len() - i,
    {
        s.push(to_hex_digit(bytes[i] / 16));
        s.push(to_hex_digit(bytes[i] % 16));
        proof {
            let t = bytes@.take(i as int + 1);
            assert(t.drop_last() =~= bytes@.take(i as int));
            assert(s@ =~= hex(t));
        }
        i += 1;
    }
    assert(bytes@.take(bytes@.len() as int) =~= bytes@);
    s
}

proof fn lemma_hex(bytes: Seq<u8>)
    ensures
        hex(bytes).len() == 2 * bytes.len(),
        forall|i: int| 0 <= i < hex(bytes).len() ==> crate::importer::is_lower_hex(#[trigger] hex(bytes)[i]),
    decreases bytes.len(),
{
    if bytes.len() > 0 {
        lemma_hex(bytes.drop_last());
    }
}

/// The hash of a thread's document, by which a change is noticed: its SHA-256 digest in hexadecimal
/// notation.
pub open spec fn content_hash_of(document: Seq<u8>) -> Seq<char> {
    hex(sha256_digest(document))
}

/// The hash of a thread's document.
pub fn content_hash(document: &[u8]) -> (r: String)
    ensures
        r@ == content_hash_of(document@),
        r@ == hex(sha256_digest(document@)),
        readback::is_content_hash(r@),
{
    let digest = sha256(document);
    proof {
        lemma_hex(digest@);
    }
    to_hex(digest.as_slice())
}

/// The asset with these bytes, given their digest and the extension of their type.
pub fn asset_from_bytes(
    thread_id: &str,
    bytes: Vec<u8>,
    ext: Option<String>,
    digest: &[u8],
) -> (r: Asset)
    requires
        digest@.len() >= 8,
    ensures
        r.name@ == asset_name(thread_id@, digest@, text::opt_text(ext)),
        r.data@ == bytes@,
{
    let mut name = thread_id.to_owned();
    name.append(".");
    assert(digest@.subrange(0, 8) =~= digest@.take(8));
    let hash = to_hex(slice_subrange(digest, 0, 8));
    name.append(hash.as_str());
    name.append(".");
    match ext {
        Some(e) => name.append(e.as_str()),
        None => name.append("bin"),
    }
    Asset { name, data: bytes }
}

fn read_number(bytes: &[u8], at: usize) -> (r: u64)
    requires
        at + 4 <= bytes@.len(),
    ensures
        r == number_at(bytes@, at as int),
{
    bytes[at] as u64 + 0x100 * bytes[at + 1] as u64 + 0x1_0000 * bytes[at + 2] as u64 + 0x100_0000
        * bytes[at + 3] as u64
}

fn searchable(bytes: &[u8]) -> (r: bool)
    ensures
        r == is_searchable(bytes@),
{
    if bytes.len() >= 22 && bytes[0] == 0x50 && bytes[1] == 0x4b && bytes[2] == 3 && bytes[3] == 4 {
        let length: u64 = read_number(bytes, 18);
        length + ARCHIVE_REACH <= usize::MAX as u64 || length + 49 > u32::MAX as u64
    } else {
        true
    }
}

/// Whether the type of the bytes can be looked for.
pub fn recognizable(bytes: &[u8]) -> (r: bool)
    ensures
        r == is_recognizable(bytes@),
{
    if !searchable(bytes) {
        return false;
    }
    let mut rest = bytes;
    let mut left: usize = FRAME_LIMIT;
    while rest.len() >= 8 && rest[0] >= 0x50 && rest[0] <= 0x5f && rest[1] == 0x2a && rest[2]
        == 0x4d && rest[3] == 0x18
        invariant
            has_few_frames(bytes@, FRAME_LIMIT as nat) == has_few_frames(rest@, left as nat),
            is_searchable(bytes@),
        decreases left,
    {
        let length: u64 = read_number(rest, 4);
        if 8 + length > usize::MAX as u64 {
            return false;
        }
        if ((rest.len() - 8) as u64) < length {
            return true;
        }
        if left == 0 {
            return false;
        }
        left -= 1;
        let next: usize = 8 + length as usize;
        assert(rest@.subrange(next as int, rest@.len() as int) =~= rest@.skip(8 + length));
        rest = slice_subrange(rest, next, rest.len());
    }
    true
}

/// Decodes an image and names it after the thread and its contents.
pub fn image_asset(thread_id: &str, b64: &str) -> (r: Option<Asset>)
    ensures
        r is Some <==> asset_of(thread_id@, b64@) is Some,
        r matches Some(a) ==> asset_of(thread_id@, b64@) == Some(a@),
{
    match base64_decode(b64) {
        Some(bytes) => {
            let ext = if recognizable(bytes.as_slice()) {
                infer_extension(bytes.as_slice())
            } else {
                None
            };
            let digest = sha256(bytes.as_slice());
            Some(asset_from_bytes(thread_id, bytes, ext, digest.as_slice()))
        },
        None => None,
    }
}

// ---------------------------------------------------------------------------
// Mentions
// ---------------------------------------------------------------------------
/// What a mention is called in the document.
pub open spec fn mention_label(uri: MentionUri) -> Option<Seq<char>> {
    match uri {
        MentionUri::File { abs_path } => Some(abs_path@),
        MentionUri::Directory { abs_path } => Some(abs_path@),
        MentionUri::Symbol { abs_path, .. } => Some(abs_path@),
        MentionUri::Selection { abs_path, .. } => text::opt_text(abs_path),
        MentionUri::TextThread { path, .. } => Some(path@),
        MentionUri::Fetch { url } => Some(url@),
        MentionUri::Thread { name, .. } => Some(name@),
        MentionUri::Rule { name, .. } => Some(name@),
        MentionUri::PastedImage => Some("image"@),
        MentionUri::Diagnostics { .. } => Some("diagnostics"@),
        MentionUri::TerminalSelection { .. } => Some("terminal"@),
    }
}

/// The language of a mention's content: the extension of the file that it comes from.
pub open spec fn mention_language(uri: MentionUri) -> Option<Seq<char>> {
    match uri {
        MentionUri::File { abs_path } => paths::extension(abs_path@),
        MentionUri::Symbol { abs_path, .. } => paths::extension(abs_path@),
        MentionUri::Selection { abs_path, .. } => match abs_path {
            Some(p) => paths::extension(p@),
            None => None,
        },
        MentionUri::TextThread { path, .. } => paths::extension(path@),
        _ => None,
    }
}

/// The text behind the opening fence of a mention's block.
pub open spec fn block_header(uri: MentionUri) -> Seq<char> {
    match (mention_language(uri), mention_label(uri)) {
        (Some(l), Some(p)) => l + " "@ + p,
        (Some(l), None) => l,
        (None, Some(p)) => p,
        (None, None) => Seq::empty(),
    }
}

/// `s` as a line.
pub open spec fn line(s: Seq<char>) -> Seq<char> {
    s.push('\n')
}

/// A mention with its content, in a fenced block unless the content is one already.
pub open spec fn mention_block(uri: MentionUri, content: Seq<char>) -> Seq<char> {
    if text::has_prefix(text::strip_front(content, text::white()), "```"@) {
        line(content)
    } else {
        line("```"@ + block_header(uri)) + line(content) + line("```"@)
    }
}

/// A mention without its content: what it is called, as inline code.
pub open spec fn mention_reference(uri: MentionUri) -> Seq<char> {
    match mention_label(uri) {
        Some(l) => line("`"@ + l + "`"@),
        None => Seq::empty(),
    }
}

/// How a mention is rendered.
pub open spec fn mention_text(uri: MentionUri, content: Seq<char>, include_context: bool) -> Seq<
    char,
> {
    if include_context {
        mention_block(uri, content)
    } else {
        mention_reference(uri)
    }
}

fn label(uri: &MentionUri) -> (r: Option<String>)
    ensures
        text::opt_text(r) == mention_label(*uri),
{
    match uri {
        MentionUri::File { abs_path } => Some(abs_path.clone()),
        MentionUri::Directory { abs_path } => Some(abs_path.clone()),
        MentionUri::Symbol { abs_path, .. } => Some(abs_path.clone()),
        MentionUri::Selection { abs_path, .. } => match abs_path {
            Some(p) => Some(p.clone()),
            None => None,
        },
        MentionUri::TextThread { path, .. } => Some(path.clone()),
        MentionUri::Fetch { url } => Some(url.clone()),
        MentionUri::Thread { name, .. } => Some(name.clone()),
        MentionUri::Rule { name, .. } => Some(name.clone()),
        MentionUri::PastedImage => Some("image".to_owned()),
        MentionUri::Diagnostics { .. } => Some("diagnostics".to_owned()),
        MentionUri::TerminalSelection { .. } => Some("terminal".to_owned()),
    }
}

fn language(uri: &MentionUri) -> (r: Option<String>)
    ensures
        text::opt_text(r) == mention_language(*uri),
{
    match uri {
        MentionUri::File { abs_path } => paths::path_extension(abs_path.as_str()),
        MentionUri::Symbol { abs_path, .. } => paths::path_extension(abs_path.as_str()),
        MentionUri::Selection { abs_path, .. } => match abs_path {
            Some(p) => paths::path_extension(p.as_str()),
            None => None,
        },
        MentionUri::TextThread { path, .. } => paths::path_extension(path.as_str()),
        _ => None,
    }
}

fn push_line(out: &mut String, s: &str)
    ensures
        final(out)@ == old(out)@ + line(s@),
{
    out.append(s);
    out.push('\n');
    assert(final(out)@ =~= old(out)@ + line(s@));
}

fn push_mention_block(out: &mut String, uri: &MentionUri, content: &str)
    ensures
        final(out)@ == old(out)@ + mention_block(*uri, content@),
{
    let chars = text::chars_of(content);
    let fence = text::chars_of("```");
    if text::starts_with(text::trim_start(chars.as_slice()), fence.as_slice()) {
        push_line(out, content);
    } else {
        out.append("```");
        let lang = language(uri);
        let name = label(uri);
        let ghost header = block_header(*uri);
        match lang {
            Some(l) => {
                out.append(l.as_str());
                match name {
                    Some(p) => {
                        out.append(" ");
                        out.append(p.as_str());
                    },
                    None => {},
                }
            },
            None => match name {
                Some(p) => out.append(p.as_str()),
                None => {},
            },
        }
        assert(out@ =~= old(out)@ + "```"@ + header);
        out.push('\n');
        push_line(out, content);
        push_line(out, "```");
        assert(final(out)@ =~= old(out)@ + mention_block(*uri, content@));
    }
}

fn push_mention_reference(out: &mut String, uri: &MentionUri)
    ensures
        final(out)@ == old(out)@ + mention_reference(*uri),
{
    match label(uri) {
        Some(l) => {
            out.append("`");
            out.append(l.as_str());
            push_line(out, "`");
            assert(final(out)@ =~= old(out)@ + mention_reference(*uri));
        },
        None => {
            assert(old(out)@ + Seq::<char>::empty() =~= old(out)@);
        },
    }
}

// ---------------------------------------------------------------------------
// Messages
// ---------------------------------------------------------------------------
/// The link to an image.
pub open spec fn image_link(name: Seq<char>) -> Seq<char> {
    line("![image](./"@ + name + ")"@)
}

/// How one piece of a user message is rendered.
pub open spec fn content_text(
    thread_id: Seq<char>,
    content: UserMessageContent,
    include_context: bool,
) -> Seq<char> {
    match content {
        UserMessageContent::Text(t) => line(t@),
        UserMessageContent::Mention { uri, content } => mention_text(
            uri,
            content@,
            include_context,
        ),
        UserMessageContent::Image(i) => match asset_of(thread_id, i.source@) {
            Some((name, _)) => image_link(name),
            None => Seq::empty(),
        },
    }
}

/// The asset that one piece of a user message brings.
pub open spec fn content_assets(thread_id: Seq<char>, content: UserMessageContent) -> Seq<
    (Seq<char>, Seq<u8>),
> {
    match content {
        UserMessageContent::Image(i) => match asset_of(thread_id, i.source@) {
            Some(a) => seq![a],
            None => Seq::empty(),
        },
        _ => Seq::empty(),
    }
}

/// How the pieces of a user message are rendered, one after the other.
pub open spec fn contents_text(
    thread_id: Seq<char>,
    contents: Seq<UserMessageContent>,
    include_context: bool,
) -> Seq<char>
    decreases contents.len(),
{
    if contents.len() == 0 {
        Seq::empty()
    } else {
        contents_text(thread_id, contents.drop_last(), include_context) + content_text(
            thread_id,
            contents.last(),
            include_context,
        )
    }
}

/// The assets of a user message, in order.
pub open spec fn contents_assets(thread_id: Seq<char>, contents: Seq<UserMessageContent>) -> Seq<
    (Seq<char>, Seq<u8>),
>
    decreases contents.len(),
{
    if contents.len() == 0 {
        Seq::empty()
    } else {
        contents_assets(thread_id, contents.drop_last()) + content_assets(
            thread_id,
            contents.last(),
        )
    }
}

/// The prose of an agent message. Thinking and tool use are left out.
pub open spec fn agent_text(contents: Seq<AgentMessageContent>) -> Seq<char>
    decreases contents.len(),
{
    if contents.len() == 0 {
        Seq::empty()
    } else {
        agent_text(contents.drop_last()) + (match contents.last() {
            AgentMessageContent::Text(t) => line(t@),
            _ => Seq::empty(),
        })
    }
}

/// A turn of the conversation: a heading, an empty line, the text, an empty line.
pub open spec fn turn(heading: Seq<char>, body: Seq<char>) -> Seq<char> {
    line(heading) + line(Seq::empty()) + body + line(Seq::empty())
}

/// How a message is rendered.
pub open spec fn message_text(
    thread_id: Seq<char>,
    message: Message,
    include_context: bool,
) -> Seq<char> {
    match message {
        Message::User(u) => turn(
            "## User"@,
            contents_text(thread_id, u.content@, include_context),
        ),
        Message::Agent(a) => turn("## Assistant"@, agent_text(a.content@)),
        Message::Resume => Seq::empty(),
    }
}

/// The assets of a message.
pub open spec fn message_assets(thread_id: Seq<char>, message: Message) -> Seq<
    (Seq<char>, Seq<u8>),
> {
    match message {
        Message::User(u) => contents_assets(thread_id, u.content@),
        _ => Seq::empty(),
    }
}

/// How the messages of a thread are rendered, one after the other.
pub open spec fn messages_text(
    thread_id: Seq<char>,
    messages: Seq<Message>,
    include_context: bool,
) -> Seq<char>
    decreases messages.len(),
{
    if messages.len() == 0 {
        Seq::empty()
    } else {
        messages_text(thread_id, messages.drop_last(), include_context) + message_text(
            thread_id,
            messages.last(),
            include_context,
        )
    }
}

/// The assets of a thread, in order.
pub open spec fn messages_assets(thread_id: Seq<char>, messages: Seq<Message>) -> Seq<
    (Seq<char>, Seq<u8>),
>
    decreases messages.len(),
{
    if messages.len() == 0 {
        Seq::empty()
    } else {
        messages_assets(thread_id, messages.drop_last()) + message_assets(
            thread_id,
            messages.last(),
        )
    }
}

/// The names and the bytes of assets.
pub open spec fn asset_views(assets: Seq<Asset>) -> Seq<(Seq<char>, Seq<u8>)> {
    assets.map_values(|a: Asset| a@)
}

fn push_content(
    out: &mut String,
    assets: &mut Vec<Asset>,
    thread_id: &str,
    content: &UserMessageContent,
    include_context: bool,
)
    ensures
        final(out)@ == old(out)@ + content_text(thread_id@, *content, include_context),
        asset_views(final(assets)@) == asset_views(old(assets)@) + content_assets(
            thread_id@,
            *content,
        ),
{
    proof {
        assert(old(out)@ + Seq::<char>::empty() =~= old(out)@);
        assert(asset_views(old(assets)@) + Seq::<(Seq<char>, Seq<u8>)>::empty() =~= asset_views(
            old(assets)@,
        ));
    }
    match content {
        UserMessageContent::Text(t) => {
            push_line(out, t.as_str());
        },
        UserMessageContent::Mention { uri, content } => {
            if include_context {
                push_mention_block(out, uri, content.as_str());
            } else {
                push_mention_reference(out, uri);
            }
        },
        UserMessageContent::Image(img) => {
            match image_asset(thread_id, img.source.as_str()) {
                Some(asset) => {
                    out.append("![image](./");
                    out.append(asset.name.as_str());
                    push_line(out, ")");
                    assert(out@ =~= old(out)@ + image_link(asset.name@));
                    let ghost added = asset@;
                    assets.push(asset);
                    assert(asset_views(assets@) =~= asset_views(old(assets)@) + seq![added]);
                },
                None => {},
            }
        },
    }
}

fn push_user_message(
    out: &mut String,
    assets: &mut Vec<Asset>,
    thread_id: &str,
    contents: &Vec<UserMessageContent>,
    include_context: bool,
)
    ensures
        final(out)@ == old(out)@ + turn(
            "## User"@,
            contents_text(thread_id@, contents@, include_context),
        ),
        asset_views(final(assets)@) == asset_views(old(assets)@) + contents_assets(
            thread_id@,
            contents@,
        ),
{
    proof {
        reveal_strlit("");
        assert(""@ =~= Seq::<char>::empty());
    }
    push_line(out, "## User");
    push_line(out, "");
    let ghost head = out@;
    let mut i: usize = 0;
    assert(contents@.take(0) =~= Seq::empty());
    assert(head + Seq::<char>::empty() =~= head);
    assert(asset_views(assets@) + Seq::<(Seq<char>, Seq<u8>)>::empty() =~= asset_views(assets@));
    while i < contents.len()
        invariant
            i <= contents@.len(),
            out@ == head + contents_text(thread_id@, contents@.take(i as int), include_context),
            asset_views(assets@) == asset_views(old(assets)@) + contents_assets(
                thread_id@,
                contents@.take(i as int),
            ),
        decreases contents@.len() - i,
    {
        let ghost out0 = out@;
        let ghost assets0 = asset_views(assets@);
        push_content(out, assets, thread_id, &contents[i], include_context);
        proof {
            let t = contents@.take(i as int + 1);
            assert(t.drop_last() =~= contents@.take(i as int));
            assert(t.last() == contents@[i as int]);
            assert(out@ =~= head + contents_text(thread_id@, t, include_context));
            assert(asset_views(assets@) =~= asset_views(old(assets)@) + contents_assets(
                thread_id@,
                t,
            ));
        }
        i += 1;
    }
    assert(contents@.take(contents@.len() as int) =~= contents@);
    push_line(out, "");
    assert(final(out)@ =~= old(out)@ + turn(
        "## User"@,
        contents_text(thread_id@, contents@, include_context),
    ));
}

fn push_agent_message(out: &mut String, contents: &Vec<AgentMessageContent>)
    ensures
        final(out)@ == old(out)@ + turn("## Assistant"@, agent_text(contents@)),
{
    proof {
        reveal_strlit("");
        assert(""@ =~= Seq::<char>::empty());
    }
    push_line(out, "## Assistant");
    push_line(out, "");
    let ghost head = out@;
    let mut i: usize = 0;
    assert(contents@.take(0) =~= Seq::empty());
    assert(head + Seq::<char>::empty() =~= head);
    while i < contents.len()
        invariant
            i <= contents@.len(),
            out@ == head + agent_text(contents@.take(i as int)),
        decreases contents@.len() - i,
    {
        match &contents[i] {
            AgentMessageContent::Text(t) => push_line(out, t.as_str()),
            _ => {},
        }
        proof {
            let t = contents@.take(i as int + 1);
            assert(t.drop_last() =~= contents@.take(i as int));
            assert(t.last() == contents@[i as int]);
            assert(out@ =~= head + agent_text(t));
        }
        i += 1;
    }
    assert(contents@.take(contents@.len() as int) =~= contents@);
    push_line(out, "");
    assert(final(out)@ =~= old(out)@ + turn("## Assistant"@, agent_text(contents@)));
}

/// Renders the messages of a thread, and collects the assets that they refer to.
pub fn render_messages(thread_id: &str, messages: &Vec<Message>, include_context: bool) -> (r: (
    String,
    Vec<Asset>,
))
    ensures
        r.0@ == messages_text(thread_id@, messages@, include_context),
        asset_views(r.1@) == messages_assets(thread_id@, messages@),
{
    let mut out = String::new();
    let mut assets: Vec<Asset> = Vec::new();
    let mut i: usize = 0;
    assert(messages@.take(0) =~= Seq::empty());
    assert(asset_views(assets@) =~= Seq::empty());
    while i < messages.len()
        invariant
            i <= messages@.len(),
            out@ == messages_text(thread_id@, messages@.take(i as int), include_context),
            asset_views(assets@) == messages_assets(thread_id@, messages@.take(i as int)),
        decreases messages@.len() - i,
    {
        match &messages[i] {
            Message::User(u) => push_user_message(
                &mut out,
                &mut assets,
                thread_id,
                &u.content,
                include_context,
            ),
            Message::Agent(a) => push_agent_message(&mut out, &a.content),
            Message::Resume => {},
        }
        proof {
            let t = messages@.take(i as int + 1);
            assert(t.drop_last() =~= messages@.take(i as int));
            assert(t.last() == messages@[i as int]);
            assert(out@ =~= messages_text(thread_id@, t, include_context));
            assert(asset_views(assets@) =~= messages_assets(thread_id@, t));
        }
        i += 1;
    }
    assert(messages@.take(messages@.len() as int) =~= messages@);
    (out, assets)
}

// ---------------------------------------------------------------------------
// Messages of legacy threads
// ---------------------------------------------------------------------------
/// The heading of a turn.
pub open spec fn role_heading(role: Role) -> Seq<char> {
    match role {
        Role::User => "## User"@,
        Role::Assistant => "## Assistant"@,
        Role::System => "## System"@,
    }
}

/// The prose of a legacy message.
pub open spec fn segments_text(segments: Seq<SerializedMessageSegment>) -> Seq<char>
    decreases segments.len(),
{
    if segments.len() == 0 {
        Seq::empty()
    } else {
        segments_text(segments.drop_last()) + (match segments.last() {
            SerializedMessageSegment::Text { text } => line(text@),
            _ => Seq::empty(),
        })
    }
}

/// How the messages of a legacy thread are rendered, one after the other.
pub open spec fn legacy_text(messages: Seq<SerializedMessage>) -> Seq<char>
    decreases messages.len(),
{
    if messages.len() == 0 {
        Seq::empty()
    } else {
        legacy_text(messages.drop_last()) + turn(
            role_heading(messages.last().role),
            segments_text(messages.last().segments@),
        )
    }
}

fn push_legacy_message(out: &mut String, message: &SerializedMessage)
    ensures
        final(out)@ == old(out)@ + turn(
            role_heading(message.role),
            segments_text(message.segments@),
        ),
{
    proof {
        reveal_strlit("");
        assert(""@ =~= Seq::<char>::empty());
    }
    match message.role {
        Role::User => push_line(out, "## User"),
        Role::Assistant => push_line(out, "## Assistant"),
        Role::System => push_line(out, "## System"),
    }
    push_line(out, "");
    let ghost head = out@;
    let segments = &message.segments;
    let mut i: usize = 0;
    assert(segments@.take(0) =~= Seq::empty());
    assert(head + Seq::<char>::empty() =~= head);
    while i < segments.len()
        invariant
            i <= segments@.len(),
            out@ == head + segments_text(segments@.take(i as int)),
        decreases segments@.len() - i,
    {
        match &segments[i] {
            SerializedMessageSegment::Text { text } => push_line(out, text.as_str()),
            _ => {},
        }
        proof {
            let t = segments@.take(i as int + 1);
            assert(t.drop_last() =~= segments@.take(i as int));
            assert(t.last() == segments@[i as int]);
            assert(out@ =~= head + segments_text(t));
        }
        i += 1;
    }
    assert(segments@.take(segments@.len() as int) =~= segments@);
    push_line(out, "");
    assert(final(out)@ =~= old(out)@ + turn(
        role_heading(message.role),
        segments_text(message.segments@),
    ));
}

/// Renders the messages of a legacy thread.
pub fn render_legacy_messages(messages: &Vec<SerializedMessage>) -> (r: String)
    ensures
        r@ == legacy_text(messages@),
{
    let mut out = String::new();
    let mut i: usize = 0;
    assert(messages@.take(0) =~= Seq::empty());
    while i < messages.len()
        invariant
            i <= messages@.len(),
            out@ == legacy_text(messages@.take(i as int)),
        decreases messages@.len() - i,
    {
        push_legacy_message(&mut out, &messages[i]);
        proof {
            let t = messages@.take(i as int + 1);
            assert(t.drop_last() =~= messages@.take(i as int));
            assert(t.last() == messages@[i as int]);
        }
        i += 1;
    }
    assert(messages@.take(messages@.len() as int) =~= messages@);
    out
}

// ---------------------------------------------------------------------------
// Headers
// ---------------------------------------------------------------------------
/// Provider and model, as one text.
pub open spec fn model_text(model: Option<SerializedLanguageModel>) -> Option<Seq<char>> {
    match model {
        Some(m) => Some(m.provider@ + "/"@ + m.model@),
        None => None,
    }
}

/// The number of bytes that an abbreviated commit hash has.
pub const SHORT_SHA: usize = 7;

/// An abbreviated commit hash; the hash itself where it is short, or cannot be cut there.
pub open spec fn short_sha(sha: Seq<char>) -> Seq<char> {
    if text::cuts_cleanly(sha, SHORT_SHA as nat) {
        text::byte_prefix(sha, SHORT_SHA as nat)
    } else {
        sha
    }
}

/// The repository of a worktree.
pub open spec fn git_of(path: Seq<char>, state: Option<GitState>) -> GitHeader {
    match state {
        Some(g) => GitHeader {
            path,
            remote: text::opt_text(g.remote_url),
            branch: text::opt_text(g.current_branch),
            commit: match g.head_sha {
                Some(sha) => Some(short_sha(sha@)),
                None => None,
            },
        },
        None => GitHeader { path, remote: None, branch: None, commit: None },
    }
}

/// The repository of the first worktree, where there is one.
pub open spec fn git_header(snapshot: Option<ProjectSnapshot>) -> Option<GitHeader> {
    match snapshot {
        Some(s) => if s.worktree_snapshots@.len() > 0 {
            Some(
                git_of(
                    s.worktree_snapshots@[0].worktree_path@,
                    s.worktree_snapshots@[0].git_state,
                ),
            )
        } else {
            None
        },
        None => None,
    }
}

/// The texts of the tags to add, where there are any.
pub open spec fn tag_texts(tags: Option<&[String]>) -> Option<Seq<Seq<char>>> {
    match tags {
        Some(v) => Some(yaml::texts(v@)),
        None => None,
    }
}

/// The header of a thread's document.
pub open spec fn db_header(
    thread_id: Seq<char>,
    thread: DbThread,
    content_hash: Seq<char>,
    tags: Option<&[String]>,
    include_context: bool,
) -> Header {
    Header {
        title: thread.title@,
        updated_at: thread.updated_at@,
        model: model_text(thread.model),
        tags: tag_texts(tags),
        git: git_header(thread.initial_project_snapshot),
        content_hash,
        include_context,
        id: thread_id,
    }
}

/// The header of a legacy thread's document.
pub open spec fn legacy_header(
    thread_id: Seq<char>,
    thread: SerializedThread,
    content_hash: Seq<char>,
    tags: Option<&[String]>,
    include_context: bool,
) -> Header {
    Header {
        title: thread.summary@,
        updated_at: thread.updated_at@,
        model: model_text(thread.model),
        tags: tag_texts(tags),
        git: git_header(thread.initial_project_snapshot),
        content_hash,
        include_context,
        id: thread_id,
    }
}

fn model_name(model: &Option<SerializedLanguageModel>) -> (r: Option<String>)
    ensures
        text::opt_text(r) == model_text(*model),
{
    match model {
        Some(m) => {
            let mut s = m.provider.clone();
            s.append("/");
            s.append(m.model.as_str());
            Some(s)
        },
        None => None,
    }
}

fn abbreviate(sha: &str) -> (r: String)
    ensures
        r@ == short_sha(sha@),
{
    if text::can_cut(sha, SHORT_SHA) {
        text::take_bytes(sha, SHORT_SHA).to_owned()
    } else {
        sha.to_owned()
    }
}

fn git_metadata(snapshot: &Option<ProjectSnapshot>) -> (r: Option<GitMetadata>)
    ensures
        (match r {
            Some(g) => Some(g@),
            None => None,
        }) == git_header(*snapshot),
        r is Some <==> (snapshot matches Some(s) && s.worktree_snapshots@.len() > 0),
        r matches Some(m) ==> (snapshot matches Some(s) ==> {
            let w = s.worktree_snapshots@[0];
            &&& m.path@ == w.worktree_path@
            &&& w.git_state is None ==> m.remote is None && m.branch is None && m.commit is None
            &&& w.git_state matches Some(g) ==> {
                &&& m.remote is Some <==> g.remote_url is Some
                &&& m.remote matches Some(t) ==> (g.remote_url matches Some(u) && t@ == u@)
                &&& m.branch is Some <==> g.current_branch is Some
                &&& m.branch matches Some(t) ==> (g.current_branch matches Some(b) && t@ == b@)
                &&& m.commit is Some <==> g.head_sha is Some
                &&& m.commit matches Some(t) ==> (g.head_sha matches Some(h) && t@ == short_sha(h@))
            }
        }),
{
    match snapshot {
        Some(s) => if s.worktree_snapshots.len() > 0 {
            let worktree = &s.worktree_snapshots[0];
            let path = worktree.worktree_path.clone();
            match &worktree.git_state {
                Some(g) => Some(
                    GitMetadata {
                        path,
                        remote: frontmatter::copy_opt(&g.remote_url),
                        branch: frontmatter::copy_opt(&g.current_branch),
                        commit: match &g.head_sha {
                            Some(sha) => Some(abbreviate(sha.as_str())),
                            None => None,
                        },
                    },
                ),
                None => Some(GitMetadata { path, remote: None, branch: None, commit: None }),
            }
        } else {
            None
        },
        None => None,
    }
}

fn copy_tags(tags: Option<&[String]>) -> (r: Option<Vec<String>>)
    ensures
        (match r {
            Some(v) => Some(yaml::texts(v@)),
            None => None,
        }) == tag_texts(tags),
{
    match tags {
        Some(v) => Some(frontmatter::copy_strings(v)),
        None => None,
    }
}

/// The header of a thread's document.
pub fn db_frontmatter(
    thread_id: &str,
    thread: &DbThread,
    content_hash: &str,
    tags: Option<&[String]>,
    include_context: bool,
) -> (r: Frontmatter)
    ensures
        r@ == db_header(thread_id@, *thread, content_hash@, tags, include_context),
{
    Frontmatter {
        title: thread.title.clone(),
        updated_at: thread.updated_at,
        model: model_name(&thread.model),
        tags: copy_tags(tags),
        git: git_metadata(&thread.initial_project_snapshot),
        content_hash: content_hash.to_owned(),
        include_context,
        id: thread_id.to_owned(),
    }
}

/// The header of a legacy thread's document.
pub fn legacy_frontmatter(
    thread_id: &str,
    thread: &SerializedThread,
    content_hash: &str,
    tags: Option<&[String]>,
    include_context: bool,
) -> (r: Frontmatter)
    ensures
        r@ == legacy_header(thread_id@, *thread, content_hash@, tags, include_context),
{
    Frontmatter {
        title: thread.summary.clone(),
        updated_at: thread.updated_at,
        model: model_name(&thread.model),
        tags: copy_tags(tags),
        git: git_metadata(&thread.initial_project_snapshot),
        content_hash: content_hash.to_owned(),
        include_context,
        id: thread_id.to_owned(),
    }
}

// ---------------------------------------------------------------------------
// Documents
// ---------------------------------------------------------------------------
/// A thread as a Markdown document, with the files that it refers to.
pub struct Rendered {
    pub markdown: String,
    pub assets: Option<Vec<Asset>>,
}

/// The document with this header and body.
pub open spec fn document_of(header: Header, body: Seq<char>) -> Seq<char> {
    readback::document(yaml::yaml_text(header.fields()), body)
}

/// A file with this content is the export with this header and body. Where the header is readable,
/// all of it is read back from the file. Where only its front is known to be, the timestamp, the hash
/// and the mark for included context are; and where only its first two entries are, the timestamp is.
pub open spec fn is_export(header: Header, body: Seq<char>, content: Seq<u8>) -> bool {
    &&& content == encode_utf8(document_of(header, body))
    &&& readback::is_readable(header) ==> utils::file_header(content) == Some(
        readback::header_found(header),
    )
    &&& readback::has_readable_front(header) ==> readback::is_front_found(
        utils::file_header(content),
        header,
    )
    &&& readback::has_readable_time(header) ==> (utils::file_header(content) matches Some(f)
        && f.updated_at == header.updated_at)
}

/// Puts a YAML header and a body together.
pub fn assemble(yaml: &str, body: &str) -> (r: String)
    ensures
        r@ == readback::document(yaml@, body@),
{
    let mut out = "---\n".to_owned();
    out.append(yaml);
    out.append("---\n\n");
    out.append(body);
    out
}

/// Writes the document with this header and body. What is read back from it is stated by
/// [`is_export`].
pub fn render_document(header: &Frontmatter, body: &str) -> (r: Result<String, ExportError>)
    requires
        header@.fits(),
    ensures
        r is Ok,
        r matches Ok(d) ==> d@ == document_of(header@, body@),
        r matches Ok(d) ==> is_export(header@, body@, encode_utf8(d@)),
{
    match header.to_yaml() {
        Ok(yaml) => {
            proof {
                if readback::is_readable(header@) {
                    readback::lemma_read_back(header@, yaml@, body@);
                }
                if readback::has_readable_front(header@) {
                    readback::lemma_front_read_back(header@, yaml@, body@);
                }
                if readback::has_readable_time(header@) {
                    readback::lemma_time_read_back(header@, yaml@, body@);
                }
            }
            Ok(assemble(yaml.as_str(), body))
        },
        Err(e) => Err(e),
    }
}

/// Renders a thread, given the hash of its document. What is read back from the header of the
/// document is stated by [`is_export`].
pub fn write_db_thread_markdown(
    thread_id: &str,
    thread: &DbThread,
    content_hash: &str,
    tags: Option<&[String]>,
    include_context: bool,
) -> (r: Result<Rendered, ExportError>)
    requires
        db_header(thread_id@, *thread, content_hash@, tags, include_context).fits(),
    ensures
        r is Ok,
        ({
            let header = db_header(thread_id@, *thread, content_hash@, tags, include_context);
            let body = messages_text(thread_id@, thread.messages@, include_context);
            let assets = messages_assets(thread_id@, thread.messages@);
            r matches Ok(d) ==> {
                &&& d.markdown@ == document_of(header, body)
                &&& d.assets is None <==> assets.len() == 0
                &&& d.assets matches Some(v) ==> asset_views(v@) == assets
                &&& is_export(header, body, encode_utf8(d.markdown@))
            }
        }),
{
    let header = db_frontmatter(thread_id, thread, content_hash, tags, include_context);
    let (body, assets) = render_messages(thread_id, &thread.messages, include_context);
    assert(asset_views(assets@).len() == assets@.len());
    match render_document(&header, body.as_str()) {
        Ok(markdown) => Ok(
            Rendered {
                markdown,
                assets: if assets.len() == 0 {
                    None
                } else {
                    Some(assets)
                },
            },
        ),
        Err(e) => Err(e),
    }
}

/// Renders a legacy thread, given the hash of its document. What is read back from the header of
/// the document is stated by [`is_export`].
pub fn write_serialized_thread_markdown(
    thread_id: &str,
    thread: &SerializedThread,
    content_hash: &str,
    tags: Option<&[String]>,
    include_context: bool,
) -> (r: Result<String, ExportError>)
    requires
        legacy_header(thread_id@, *thread, content_hash@, tags, include_context).fits(),
    ensures
        r is Ok,
        ({
            let header = legacy_header(thread_id@, *thread, content_hash@, tags, include_context);
            let body = legacy_text(thread.messages@);
            r matches Ok(d) ==> {
                &&& d@ == document_of(header, body)
                &&& is_export(header, body, encode_utf8(d@))
            }
        }),
{
    let header = legacy_frontmatter(thread_id, thread, content_hash, tags, include_context);
    let body = render_legacy_messages(&thread.messages);
    render_document(&header, body.as_str())
}

// ---------------------------------------------------------------------------
// Laws
// ---------------------------------------------------------------------------
/// A conversation that goes on is rendered as it was so far, followed by the new messages; the same
/// holds of its assets.
pub proof fn law_new_messages_are_appended(
    thread_id: Seq<char>,
    so_far: Seq<Message>,
    new: Seq<Message>,
    include_context: bool,
)
    ensures
        messages_text(thread_id, so_far + new, include_context) == messages_text(
            thread_id,
            so_far,
            include_context,
        ) + messages_text(thread_id, new, include_context),
        messages_assets(thread_id, so_far + new) == messages_assets(thread_id, so_far)
            + messages_assets(thread_id, new),
    decreases new.len(),
{
    let all = so_far + new;
    if new.len() == 0 {
        assert(all =~= so_far);
        assert(messages_text(thread_id, all, include_context) =~= messages_text(
            thread_id,
            so_far,
            include_context,
        ) + messages_text(thread_id, new, include_context));
        assert(messages_assets(thread_id, all) =~= messages_assets(thread_id, so_far)
            + messages_assets(thread_id, new));
    } else {
        assert(all.drop_last() =~= so_far + new.drop_last());
        assert(all.last() == new.last());
        law_new_messages_are_appended(thread_id, so_far, new.drop_last(), include_context);
        assert(messages_text(thread_id, all, include_context) =~= messages_text(
            thread_id,
            so_far,
            include_context,
        ) + messages_text(thread_id, new, include_context));
        assert(messages_assets(thread_id, all) =~= messages_assets(thread_id, so_far)
            + messages_assets(thread_id, new));
    }
}

/// A message that carries no mention.
pub open spec fn mentions_nothing(message: Message) -> bool {
    message matches Message::User(u) ==> forall|i: int|
        0 <= i < u.content@.len() ==> !(#[trigger] u.content@[i] is Mention)
}

proof fn lemma_contents_without_mentions(thread_id: Seq<char>, contents: Seq<UserMessageContent>)
    requires
        forall|i: int| 0 <= i < contents.len() ==> !(#[trigger] contents[i] is Mention),
    ensures
        contents_text(thread_id, contents, true) == contents_text(thread_id, contents, false),
    decreases contents.len(),
{
    if contents.len() > 0 {
        let rest = contents.drop_last();
        assert forall|i: int| 0 <= i < rest.len() implies !(#[trigger] rest[i] is Mention) by {
            assert(rest[i] == contents[i]);
        }
        lemma_contents_without_mentions(thread_id, rest);
        assert(!(contents[contents.len() - 1] is Mention));
    }
}

/// Including context changes how mentions are rendered and nothing else: without mentions the
/// messages are rendered the same way.
pub proof fn law_context_is_in_mentions(thread_id: Seq<char>, messages: Seq<Message>)
    requires
        forall|i: int| 0 <= i < messages.len() ==> mentions_nothing(#[trigger] messages[i]),
    ensures
        messages_text(thread_id, messages, true) == messages_text(thread_id, messages, false),
    decreases messages.len(),
{
    if messages.len() > 0 {
        let rest = messages.drop_last();
        assert forall|i: int| 0 <= i < rest.len() implies mentions_nothing(#[trigger] rest[i]) by {
            assert(rest[i] == messages[i]);
        }
        law_context_is_in_mentions(thread_id, rest);
        assert(mentions_nothing(messages[messages.len() - 1]));
        match messages.last() {
            Message::User(u) => lemma_contents_without_mentions(thread_id, u.content@),
            _ => {},
        }
    }
}

proof fn lemma_content_assets_are_kept(
    thread_id: Seq<char>,
    contents: Seq<UserMessageContent>,
    j: int,
    asset: (Seq<char>, Seq<u8>),
)
    requires
        0 <= j < contents.len(),
        content_assets(thread_id, contents[j]).contains(asset),
    ensures
        contents_assets(thread_id, contents).contains(asset),
    decreases contents.len(),
{
    let before = contents_assets(thread_id, contents.drop_last());
    let last = content_assets(thread_id, contents.last());
    if j < contents.len() - 1 {
        lemma_content_assets_are_kept(thread_id, contents.drop_last(), j, asset);
        let k = choose|k: int| 0 <= k < before.len() && before[k] == asset;
        assert((before + last)[k] == asset);
    } else {
        let k = choose|k: int| 0 <= k < last.len() && last[k] == asset;
        assert((before + last)[before.len() + k] == asset);
    }
}

/// Every image that a document links to is among its assets.
pub proof fn law_linked_images_are_assets(
    thread_id: Seq<char>,
    messages: Seq<Message>,
    i: int,
    contents: Seq<UserMessageContent>,
    j: int,
    asset: (Seq<char>, Seq<u8>),
)
    requires
        0 <= i < messages.len(),
        messages[i] matches Message::User(u) && u.content@ == contents,
        0 <= j < contents.len(),
        contents[j] matches UserMessageContent::Image(image) && asset_of(thread_id, image.source@)
            == Some(asset),
    ensures
        content_text(thread_id, contents[j], true) == image_link(asset.0),
        content_text(thread_id, contents[j], false) == image_link(asset.0),
        messages_assets(thread_id, messages).contains(asset),
    decreases messages.len(),
{
    let before = messages_assets(thread_id, messages.drop_last());
    let last = message_assets(thread_id, messages.last());
    if i < messages.len() - 1 {
        law_linked_images_are_assets(
            thread_id,
            messages.drop_last(),
            i,
            contents,
            j,
            asset,
        );
        let k = choose|k: int| 0 <= k < before.len() && before[k] == asset;
        assert((before + last)[k] == asset);
    } else {
        assert(content_assets(thread_id, contents[j])[0] == asset);
        lemma_content_assets_are_kept(thread_id, contents, j, asset);
        let k = choose|k: int| 0 <= k < last.len() && last[k] == asset;
        assert((before + last)[before.len() + k] == asset);
    }
}

/// Hexadecimal notation: two digits for each byte, its upper half and then its lower half.
pub proof fn law_hex(bytes: Seq<u8>, i: int)
    requires
        0 <= i < bytes.len(),
    ensures
        hex(bytes).len() == 2 * bytes.len(),
        ({
            let high = bytes[i] as int / 16;
            hex(bytes)[2 * i] as int == (if high < 10 {
                '0' as int + high
            } else {
                'a' as int + high - 10
            })
        }),
        ({
            let low = bytes[i] as int % 16;
            hex(bytes)[2 * i + 1] as int == (if low < 10 {
                '0' as int + low
            } else {
                'a' as int + low - 10
            })
        }),
    decreases bytes.len(),
{
    lemma_hex(bytes);
    lemma_hex(bytes.drop_last());
    let rest = bytes.drop_last();
    if i < rest.len() {
        law_hex(rest, i);
        assert(rest[i] == bytes[i]);
        assert(hex(bytes)[2 * i] == hex(rest)[2 * i]);
        assert(hex(bytes)[2 * i + 1] == hex(rest)[2 * i + 1]);
    } else {
        assert(bytes.last() == bytes[i]);
    }
}

/// The hash of a document is the digest of all its bytes in hexadecimal notation.
pub proof fn law_hash_covers_the_document(document: Seq<u8>)
    ensures
        content_hash_of(document) == hex(sha256_digest(document)),
{
}

/// An image is named by its thread, the first eight bytes of its digest and the extension of its
/// type, or `bin`, and keeps all its bytes. A text that is not base64 is no image.
pub proof fn law_images_are_kept_whole(thread_id: Seq<char>, b64: Seq<char>)
    ensures
        asset_of(thread_id, b64) is Some <==> base64_decoded(b64) is Some,
        base64_decoded(b64) matches Some(bytes) ==> {
            let asset = asset_of(thread_id, b64)->0;
            &&& asset.1 == bytes
            &&& asset.0 == thread_id + seq!['.'] + hex(sha256_digest(bytes).take(8)) + seq!['.'] + (
            match extension_of(bytes) {
                Some(ext) => ext,
                None => seq!['b', 'i', 'n'],
            })
        },
{
    reveal_strlit(".");
    reveal_strlit("bin");
    assert("."@ =~= seq!['.']);
    assert("bin"@ =~= seq!['b', 'i', 'n']);
}

/// The type of bytes is looked for unless they open with a skippable frame or like an archive.
pub proof fn law_types_are_looked_for(bytes: Seq<u8>)
    ensures
        !(bytes.len() >= 4 && 0x50 <= bytes[0] <= 0x5f && bytes[1] == 0x2a && bytes[2] == 0x4d
            && bytes[3] == 0x18) && !(bytes.len() >= 4 && bytes[0] == 0x50 && bytes[1] == 0x4b
            && bytes[2] == 3 && bytes[3] == 4) ==> is_recognizable(bytes) && extension_of(bytes)
            == inferred_extension(bytes),
        is_recognizable(bytes) ==> extension_of(bytes) == inferred_extension(bytes),
        !is_recognizable(bytes) ==> extension_of(bytes) is None,
{
}

/// The asset of an image, with its name and its bytes.
pub proof fn law_fields_of_an_asset(a: Asset)
    ensures
        a@ == (a.name@, a.data@),
{
}

/// The prose of an agent message: each text on a line of its own, whatever stands around it.
pub proof fn law_every_text_of_an_agent_is_rendered(contents: Seq<AgentMessageContent>, i: int)
    requires
        0 <= i < contents.len(),
    ensures
        contents[i] matches AgentMessageContent::Text(t) ==> agent_text(contents) == agent_text(
            contents.take(i),
        ) + t@ + seq!['\n'] + agent_text(contents.skip(i + 1)),
        !(contents[i] is Text) ==> agent_text(contents) == agent_text(contents.take(i))
            + agent_text(contents.skip(i + 1)),
        agent_text(Seq::empty()) == Seq::<char>::empty(),
{
    let a = contents.take(i);
    let x = contents.subrange(i, i + 1);
    let b = contents.skip(i + 1);
    assert(contents =~= a + x + b);
    law_agent_texts_follow_each_other(a + x, b);
    law_agent_texts_follow_each_other(a, x);
    assert(x.drop_last() =~= Seq::<AgentMessageContent>::empty());
    assert(agent_text(x.drop_last()) == Seq::<char>::empty());
    assert(x.last() == contents[i]);
    match contents[i] {
        AgentMessageContent::Text(t) => {
            assert(agent_text(x) =~= t@ + seq!['\n']);
            assert(agent_text(contents) =~= agent_text(a) + t@ + seq!['\n'] + agent_text(b));
        },
        _ => {
            assert(agent_text(x) =~= Seq::<char>::empty());
            assert(agent_text(contents) =~= agent_text(a) + agent_text(b));
        },
    }
}

/// What an agent says in two stretches is rendered one after the other.
pub proof fn law_agent_texts_follow_each_other(
    a: Seq<AgentMessageContent>,
    b: Seq<AgentMessageContent>,
)
    ensures
        agent_text(a + b) == agent_text(a) + agent_text(b),
    decreases b.len(),
{
    let all = a + b;
    if b.len() == 0 {
        assert(all =~= a);
        assert(agent_text(all) =~= agent_text(a) + agent_text(b));
    } else {
        assert(all.drop_last() =~= a + b.drop_last());
        assert(all.last() == b.last());
        law_agent_texts_follow_each_other(a, b.drop_last());
        assert(agent_text(all) =~= agent_text(a) + agent_text(b));
    }
}

/// Thinking and tool use leave no trace: without them the prose is the same.
pub proof fn law_only_texts_of_an_agent_matter(contents: Seq<AgentMessageContent>)
    ensures
        agent_text(contents.filter(|c: AgentMessageContent| c is Text)) == agent_text(contents),
    decreases contents.len(),
{
    reveal(Seq::filter);
    let p = |c: AgentMessageContent| c is Text;
    if contents.len() > 0 {
        let rest = contents.drop_last();
        law_only_texts_of_an_agent_matter(rest);
        if p(contents.last()) {
            let kept = rest.filter(p).push(contents.last());
            assert(kept.drop_last() =~= rest.filter(p));
        } else {
            assert(agent_text(rest) + Seq::<char>::empty() =~= agent_text(rest));
        }
    }
}

/// The pieces of a user message are rendered one after the other, and so are their assets collected.
pub proof fn law_pieces_follow_each_other(
    thread_id: Seq<char>,
    a: Seq<UserMessageContent>,
    b: Seq<UserMessageContent>,
    include_context: bool,
)
    ensures
        contents_text(thread_id, a + b, include_context) == contents_text(
            thread_id,
            a,
            include_context,
        ) + contents_text(thread_id, b, include_context),
        contents_assets(thread_id, a + b) == contents_assets(thread_id, a) + contents_assets(
            thread_id,
            b,
        ),
    decreases b.len(),
{
    let all = a + b;
    if b.len() == 0 {
        assert(all =~= a);
    } else {
        assert(all.drop_last() =~= a + b.drop_last());
        assert(all.last() == b.last());
        law_pieces_follow_each_other(thread_id, a, b.drop_last(), include_context);
    }
    assert(contents_text(thread_id, all, include_context) =~= contents_text(
        thread_id,
        a,
        include_context,
    ) + contents_text(thread_id, b, include_context));
    assert(contents_assets(thread_id, all) =~= contents_assets(thread_id, a) + contents_assets(
        thread_id,
        b,
    ));
}

/// One piece of a user message: a text is a line of its own, a mention is rendered as such, and an
/// image is linked by the name of its file, which is its asset.
pub proof fn law_pieces_of_a_user(
    thread_id: Seq<char>,
    content: UserMessageContent,
    include_context: bool,
)
    ensures
        ({
            let rendered = contents_text(thread_id, seq![content], include_context);
            let assets = contents_assets(thread_id, seq![content]);
            match content {
                UserMessageContent::Text(t) => rendered == t@ + seq!['\n'] && assets.len() == 0,
                UserMessageContent::Mention { uri, content } => rendered == mention_text(
                    uri,
                    content@,
                    include_context,
                ) && assets.len() == 0,
                UserMessageContent::Image(i) => match asset_of(thread_id, i.source@) {
                    Some(asset) => rendered == "![image](./"@ + asset.0 + ")\n"@ && assets == seq![
                        asset,
                    ],
                    None => rendered.len() == 0 && assets.len() == 0,
                },
            }
        }),
        contents_text(thread_id, Seq::empty(), include_context).len() == 0,
        contents_assets(thread_id, Seq::empty()).len() == 0,
{
    let one = seq![content];
    let none = Seq::<UserMessageContent>::empty();
    assert(one.drop_last() =~= none);
    assert(contents_text(thread_id, none, include_context) =~= Seq::<char>::empty());
    assert(contents_assets(thread_id, none) =~= Seq::<(Seq<char>, Seq<u8>)>::empty());
    let rendered = contents_text(thread_id, one, include_context);
    assert(rendered =~= content_text(thread_id, content, include_context));
    assert(contents_assets(thread_id, one) =~= content_assets(thread_id, content));
    reveal_strlit(")");
    reveal_strlit(")\n");
    assert(")\n"@ =~= seq![')', '\n']);
    assert(")"@ =~= seq![')']);
    match content {
        UserMessageContent::Text(t) => {
            assert(rendered =~= t@ + seq!['\n']);
        },
        UserMessageContent::Mention { uri, content } => {},
        UserMessageContent::Image(i) => match asset_of(thread_id, i.source@) {
            Some(asset) => {
                assert(rendered =~= "![image](./"@ + asset.0 + ")\n"@);
            },
            None => {},
        },
    }
}

/// What a mention is called: the path, the address or the name of what is mentioned.
pub proof fn law_names_of_mentions(uri: MentionUri)
    ensures
        mention_label(uri) == (match uri {
            MentionUri::File { abs_path } => Some(abs_path@),
            MentionUri::Directory { abs_path } => Some(abs_path@),
            MentionUri::Symbol { abs_path, name, line_range } => Some(abs_path@),
            MentionUri::Selection { abs_path, line_range } => match abs_path {
                Some(p) => Some(p@),
                None => None,
            },
            MentionUri::TextThread { path, name } => Some(path@),
            MentionUri::Fetch { url } => Some(url@),
            MentionUri::Thread { id, name } => Some(name@),
            MentionUri::Rule { id, name } => Some(name@),
            MentionUri::PastedImage => Some("image"@),
            MentionUri::Diagnostics { include_errors, include_warnings } => Some("diagnostics"@),
            MentionUri::TerminalSelection { line_count } => Some("terminal"@),
        }),
{
}

/// The language of a mention is the extension of the file that it comes from.
pub proof fn law_languages_of_mentions(uri: MentionUri)
    ensures
        uri matches MentionUri::File { abs_path } ==> mention_language(uri) == paths::extension(
            abs_path@,
        ),
        uri matches MentionUri::Symbol { abs_path, .. } ==> mention_language(uri)
            == paths::extension(abs_path@),
        uri matches MentionUri::Selection { abs_path, .. } ==> (abs_path matches Some(p)
            ==> mention_language(uri) == paths::extension(p@)) && (abs_path is None
            ==> mention_language(uri) is None),
        uri matches MentionUri::TextThread { path, .. } ==> mention_language(uri)
            == paths::extension(path@),
        uri is PastedImage || uri is Directory || uri is Thread || uri is Rule || uri is Diagnostics
            || uri is Fetch || uri is TerminalSelection ==> mention_language(uri) is None,
{
}

/// Without context a mention is its name as inline code.
pub proof fn law_mention_without_context(uri: MentionUri, content: Seq<char>)
    ensures
        mention_label(uri) matches Some(name) ==> mention_text(uri, content, false) == seq!['`']
            + name + seq!['`', '\n'],
        mention_label(uri) is None ==> mention_text(uri, content, false).len() == 0,
{
    reveal_strlit("`");
    assert("`"@ =~= seq!['`']);
    match mention_label(uri) {
        Some(name) => {
            assert(mention_text(uri, content, false) =~= seq!['`'] + name + seq!['`', '\n']);
        },
        None => {},
    }
}

/// With context a mention is all of its content. Content that is a fenced block, behind white space
/// at most, stands for itself; other content is put into one, behind whose opening fence stand the
/// language and the name.
pub proof fn law_mention_with_context(uri: MentionUri, space: Seq<char>, rest: Seq<char>)
    requires
        forall|k: int| 0 <= k < space.len() ==> text::is_white_space(#[trigger] space[k]),
        rest.len() > 0 ==> !text::is_white_space(rest[0]),
    ensures
        ({
            let content = space + rest;
            let rendered = mention_text(uri, content, true);
            let label = match (mention_language(uri), mention_label(uri)) {
                (Some(l), Some(p)) => l + seq![' '] + p,
                (Some(l), None) => l,
                (None, Some(p)) => p,
                (None, None) => Seq::empty(),
            };
            if rest.len() >= 3 && rest[0] == '`' && rest[1] == '`' && rest[2] == '`' {
                rendered == content + seq!['\n']
            } else {
                rendered == seq!['`', '`', '`'] + label + seq!['\n'] + content + seq![
                    '\n',
                    '`',
                    '`',
                    '`',
                    '\n',
                ]
            }
        }),
{
    reveal_strlit("```");
    reveal_strlit(" ");
    let f = seq!['`', '`', '`'];
    assert("```"@ =~= f);
    assert(" "@ =~= seq![' ']);
    let content = space + rest;
    let p = text::white();
    text::law_strip_front(content, p);
    let t = text::strip_front(content, p);
    let i = content.len() - t.len();
    if i < space.len() {
        assert(content[i] == space[i]);
        assert(text::is_white_space(space[i]));
    } else if i > space.len() {
        assert(p(content[space.len() as int]));
        assert(content[space.len() as int] == rest[0]);
    }
    assert(t =~= rest);
    if rest.len() >= 3 {
        let head = rest.take(3);
        assert(head[0] == rest[0] && head[1] == rest[1] && head[2] == rest[2]);
        if rest[0] == '`' && rest[1] == '`' && rest[2] == '`' {
            assert(head =~= f);
        }
    }
    let rendered = mention_text(uri, content, true);
    if text::has_prefix(t, f) {
        assert(rendered =~= content + seq!['\n']);
    } else {
        let label = block_header(uri);
        assert(rendered =~= f + label + seq!['\n'] + content + seq!['\n', '`', '`', '`', '\n']);
    }
}

/// A message is a heading, an empty line, what was said, and an empty line; a resumed session leaves
/// no trace.
pub proof fn law_turns(thread_id: Seq<char>, message: Message, include_context: bool)
    ensures
        ({
            let rendered = messages_text(thread_id, seq![message], include_context);
            let assets = messages_assets(thread_id, seq![message]);
            match message {
                Message::User(u) => rendered == "## User\n\n"@ + contents_text(
                    thread_id,
                    u.content@,
                    include_context,
                ) + "\n"@ && assets == contents_assets(thread_id, u.content@),
                Message::Agent(a) => rendered == "## Assistant\n\n"@ + agent_text(a.content@)
                    + "\n"@ && assets.len() == 0,
                Message::Resume => rendered.len() == 0 && assets.len() == 0,
            }
        }),
        messages_text(thread_id, Seq::empty(), include_context).len() == 0,
        messages_assets(thread_id, Seq::empty()).len() == 0,
{
    let one = seq![message];
    let none = Seq::<Message>::empty();
    assert(one.drop_last() =~= none);
    assert(messages_text(thread_id, none, include_context) =~= Seq::<char>::empty());
    assert(messages_assets(thread_id, none) =~= Seq::<(Seq<char>, Seq<u8>)>::empty());
    let rendered = messages_text(thread_id, one, include_context);
    assert(rendered =~= message_text(thread_id, message, include_context));
    assert(messages_assets(thread_id, one) =~= message_assets(thread_id, message));
    lemma_headings();
    match message {
        Message::User(u) => {
            assert(rendered =~= "## User\n\n"@ + contents_text(
                thread_id,
                u.content@,
                include_context,
            ) + "\n"@);
        },
        Message::Agent(a) => {
            assert(rendered =~= "## Assistant\n\n"@ + agent_text(a.content@) + "\n"@);
        },
        Message::Resume => {},
    }
}

proof fn lemma_headings()
    ensures
        "## User\n\n"@ == line("## User"@) + line(Seq::empty()),
        "## Assistant\n\n"@ == line("## Assistant"@) + line(Seq::empty()),
        "## System\n\n"@ == line("## System"@) + line(Seq::empty()),
        "\n"@ == line(Seq::empty()),
{
    reveal_strlit("## User");
    reveal_strlit("## User\n\n");
    reveal_strlit("## Assistant");
    reveal_strlit("## Assistant\n\n");
    reveal_strlit("## System");
    reveal_strlit("## System\n\n");
    reveal_strlit("\n");
    assert("## User\n\n"@ =~= line("## User"@) + line(Seq::empty()));
    assert("## Assistant\n\n"@ =~= line("## Assistant"@) + line(Seq::empty()));
    assert("## System\n\n"@ =~= line("## System"@) + line(Seq::empty()));
    assert("\n"@ =~= line(Seq::empty()));
}

/// The messages of a legacy thread are rendered one after the other.
pub proof fn law_legacy_messages_follow_each_other(
    a: Seq<SerializedMessage>,
    b: Seq<SerializedMessage>,
)
    ensures
        legacy_text(a + b) == legacy_text(a) + legacy_text(b),
    decreases b.len(),
{
    let all = a + b;
    if b.len() == 0 {
        assert(all =~= a);
    } else {
        assert(all.drop_last() =~= a + b.drop_last());
        assert(all.last() == b.last());
        law_legacy_messages_follow_each_other(a, b.drop_last());
    }
    assert(legacy_text(all) =~= legacy_text(a) + legacy_text(b));
}

/// A legacy message is the heading of its role, an empty line, what was said, and an empty line.
pub proof fn law_legacy_turns(message: SerializedMessage)
    ensures
        legacy_text(seq![message]) == (match message.role {
            Role::User => "## User\n\n"@,
            Role::Assistant => "## Assistant\n\n"@,
            Role::System => "## System\n\n"@,
        }) + segments_text(message.segments@) + "\n"@,
        legacy_text(Seq::empty()).len() == 0,
{
    let one = seq![message];
    let none = Seq::<SerializedMessage>::empty();
    assert(one.drop_last() =~= none);
    assert(legacy_text(none) =~= Seq::<char>::empty());
    lemma_headings();
    assert(legacy_text(one) =~= (match message.role {
        Role::User => "## User\n\n"@,
        Role::Assistant => "## Assistant\n\n"@,
        Role::System => "## System\n\n"@,
    }) + segments_text(message.segments@) + "\n"@);
}

/// What is said in two stretches of a legacy message is rendered one after the other.
pub proof fn law_segments_follow_each_other(
    a: Seq<SerializedMessageSegment>,
    b: Seq<SerializedMessageSegment>,
)
    ensures
        segments_text(a + b) == segments_text(a) + segments_text(b),
    decreases b.len(),
{
    let all = a + b;
    if b.len() == 0 {
        assert(all =~= a);
    } else {
        assert(all.drop_last() =~= a + b.drop_last());
        assert(all.last() == b.last());
        law_segments_follow_each_other(a, b.drop_last());
    }
    assert(segments_text(all) =~= segments_text(a) + segments_text(b));
}

/// Each text of a legacy message is rendered on a line of its own, whatever stands around it, and
/// thinking leaves no trace.
pub proof fn law_every_text_of_a_legacy_message_is_rendered(
    segments: Seq<SerializedMessageSegment>,
    i: int,
)
    requires
        0 <= i < segments.len(),
    ensures
        segments[i] matches SerializedMessageSegment::Text { text } ==> segments_text(segments)
            == segments_text(segments.take(i)) + text@ + seq!['\n'] + segments_text(
            segments.skip(i + 1),
        ),
        !(segments[i] is Text) ==> segments_text(segments) == segments_text(segments.take(i))
            + segments_text(segments.skip(i + 1)),
        segments_text(Seq::empty()).len() == 0,
{
    let a = segments.take(i);
    let x = segments.subrange(i, i + 1);
    let b = segments.skip(i + 1);
    assert(segments =~= a + x + b);
    law_segments_follow_each_other(a + x, b);
    law_segments_follow_each_other(a, x);
    assert(x.drop_last() =~= Seq::<SerializedMessageSegment>::empty());
    assert(segments_text(x.drop_last()) == Seq::<char>::empty());
    assert(x.last() == segments[i]);
    match segments[i] {
        SerializedMessageSegment::Text { text } => {
            assert(segments_text(x) =~= text@ + seq!['\n']);
            assert(segments_text(segments) =~= segments_text(a) + text@ + seq!['\n']
                + segments_text(b));
        },
        _ => {
            assert(segments_text(x) =~= Seq::<char>::empty());
            assert(segments_text(segments) =~= segments_text(a) + segments_text(b));
        },
    }
}

/// A model is its provider and its name, with a slash between them.
pub proof fn law_model_text(m: SerializedLanguageModel)
    ensures
        model_text(Some(m)) == Some(m.provider@ + seq!['/'] + m.model@),
        model_text(None) is None,
{
    reveal_strlit("/");
    assert("/"@ =~= seq!['/']);
}

/// A commit is abbreviated to its first seven bytes, and stays whole where it is not longer.
pub proof fn law_short_sha(a: Seq<char>, b: Seq<char>)
    ensures
        encode_utf8(a).len() == 7 ==> short_sha(a + b) == a,
        encode_utf8(a).len() <= 7 ==> short_sha(a) == a,
        short_sha(a) == a.take(short_sha(a).len() as int) && short_sha(a).len() <= a.len(),
        encode_utf8(a).len() > 7 ==> encode_utf8(short_sha(a)).len() == 7 || short_sha(a) == a,
{
    text::law_byte_prefix(a, b, 7);
    assert(a.take(a.len() as int) =~= a);
    if text::cuts_cleanly(a, 7) {
        text::law_cut_keeps_bytes(a, 7);
    }
}

/// Path, remote, branch and commit of a repository are carried over each for itself.
pub proof fn law_repository_is_carried_over(path: Seq<char>, g: GitState)
    ensures
        ({
            let h = git_of(path, Some(g));
            &&& h.path == path
            &&& h.remote == (match g.remote_url {
                Some(s) => Some(s@),
                None => None,
            })
            &&& h.branch == (match g.current_branch {
                Some(s) => Some(s@),
                None => None,
            })
            &&& h.commit is Some <==> g.head_sha is Some
            &&& g.head_sha matches Some(s) ==> h.commit == Some(short_sha(s@))
        }),
        ({
            let h = git_of(path, None);
            h.path == path && h.remote is None && h.branch is None && h.commit is None
        }),
{
}

/// The repository of a thread is that of its first worktree.
pub proof fn law_first_worktree_counts(snapshot: ProjectSnapshot)
    ensures
        snapshot.worktree_snapshots@.len() > 0 ==> git_header(Some(snapshot)) == Some(
            git_of(
                snapshot.worktree_snapshots@[0].worktree_path@,
                snapshot.worktree_snapshots@[0].git_state,
            ),
        ),
        snapshot.worktree_snapshots@.len() == 0 ==> git_header(Some(snapshot)) is None,
        git_header(None) is None,
{
}

/// The header of a thread says what the thread, the run and the document's hash say.
pub proof fn law_header_of_a_thread(
    thread_id: Seq<char>,
    thread: DbThread,
    content_hash: Seq<char>,
    tags: Option<&[String]>,
    include_context: bool,
)
    ensures
        ({
            let h = db_header(thread_id, thread, content_hash, tags, include_context);
            &&& h.title == thread.title@
            &&& h.updated_at == thread.updated_at@
            &&& h.model == model_text(thread.model)
            &&& h.git == git_header(thread.initial_project_snapshot)
            &&& h.content_hash == content_hash
            &&& h.include_context == include_context
            &&& h.id == thread_id
            &&& h.tags is Some <==> tags is Some
            &&& tags matches Some(v) ==> (h.tags->0).len() == v@.len() && forall|i: int|
                0 <= i < v@.len() ==> #[trigger] (h.tags->0)[i] == v@[i]@
        }),
{
}

/// The header of a legacy thread says what the thread, the run and the document's hash say; its
/// title is the thread's summary.
pub proof fn law_header_of_a_legacy_thread(
    thread_id: Seq<char>,
    thread: SerializedThread,
    content_hash: Seq<char>,
    tags: Option<&[String]>,
    include_context: bool,
)
    ensures
        ({
            let h = legacy_header(thread_id, thread, content_hash, tags, include_context);
            &&& h.title == thread.summary@
            &&& h.updated_at == thread.updated_at@
            &&& h.model == model_text(thread.model)
            &&& h.git == git_header(thread.initial_project_snapshot)
            &&& h.content_hash == content_hash
            &&& h.include_context == include_context
            &&& h.id == thread_id
            &&& h.tags is Some <==> tags is Some
            &&& tags matches Some(v) ==> (h.tags->0).len() == v@.len() && forall|i: int|
                0 <= i < v@.len() ==> #[trigger] (h.tags->0)[i] == v@[i]@
        }),
{
}

/// A document is its header between two fences, an empty line and its body.
pub proof fn law_document(header: Header, body: Seq<char>, content: Seq<u8>)
    ensures
        document_of(header, body) == "---\n"@ + yaml::yaml_text(header.fields()) + "---\n\n"@ + body,
        is_export(header, body, content) ==> content == encode_utf8(
            "---\n"@ + yaml::yaml_text(header.fields()) + "---\n\n"@ + body,
        ),
{
}

/// The name of an asset: the thread, the first eight bytes of the digest in hexadecimal notation, and
/// the extension, or `bin`.
pub proof fn law_asset_name(thread_id: Seq<char>, a: Seq<u8>, b: Seq<u8>, ext: Seq<char>)
    requires
        a.len() == 8,
    ensures
        asset_name(thread_id, a + b, Some(ext)) == thread_id + seq!['.'] + hex(a) + seq!['.'] + ext,
        asset_name(thread_id, a + b, None) == thread_id + seq!['.'] + hex(a) + seq![
            '.',
            'b',
            'i',
            'n',
        ],
{
    reveal_strlit(".");
    reveal_strlit("bin");
    assert("."@ =~= seq!['.']);
    assert((a + b).take(8) =~= a);
    assert(thread_id + seq!['.'] + hex(a) + seq!['.'] + "bin"@ =~= thread_id + seq!['.'] + hex(a)
        + seq!['.', 'b', 'i', 'n']);
}

/// Assets one by one.
pub proof fn law_assets_one_by_one(assets: Seq<Asset>, i: int)
    requires
        0 <= i < assets.len(),
    ensures
        asset_views(assets).len() == assets.len(),
        asset_views(assets)[i] == (assets[i].name@, assets[i].data@),
{
}

/// The type of an archive is looked for unless its first file claims to have sixteen mebibytes or
/// more.
pub proof fn law_archives_are_looked_into(bytes: Seq<u8>)
    requires
        bytes.len() < 22 || bytes[21] == 0,
        bytes.len() >= 2 ==> bytes[1] != 0x2a,
    ensures
        is_recognizable(bytes),
{
}

/// Skippable frames, one after the other. Their length is given in three bytes, the lowest first,
/// and a zero.
pub open spec fn frames_bytes(frames: Seq<(u8, u8, u8, u8, Seq<u8>)>) -> Seq<u8>
    decreases frames.len(),
{
    if frames.len() == 0 {
        Seq::empty()
    } else {
        frame_bytes(frames[0]) + frames_bytes(frames.drop_first())
    }
}

/// One skippable frame.
pub open spec fn frame_bytes(frame: (u8, u8, u8, u8, Seq<u8>)) -> Seq<u8> {
    seq![frame.0, 0x2a, 0x4d, 0x18, frame.1, frame.2, frame.3, 0] + frame.4
}

/// The type of what stands behind up to 1024 skippable frames is looked for.
pub proof fn law_type_behind_frames_is_looked_for(
    frames: Seq<(u8, u8, u8, u8, Seq<u8>)>,
    rest: Seq<u8>,
)
    requires
        0 < frames.len() <= 1024,
        forall|i: int|
            0 <= i < frames.len() ==> 0x50 <= (#[trigger] frames[i]).0 <= 0x5f
                && frames[i].4.len() == frames[i].1 + 0x100 * frames[i].2 + 0x1_0000 * frames[i].3,
        rest.len() < 8 || rest[1] != 0x2a,
    ensures
        is_recognizable(frames_bytes(frames) + rest),
{
    lemma_frames(frames, rest, 1024);
    let all = frames_bytes(frames) + rest;
    assert(all[1] == frame_bytes(frames[0])[1]);
}

proof fn lemma_frames(frames: Seq<(u8, u8, u8, u8, Seq<u8>)>, rest: Seq<u8>, n: nat)
    requires
        frames.len() <= n,
        forall|i: int|
            0 <= i < frames.len() ==> 0x50 <= (#[trigger] frames[i]).0 <= 0x5f
                && frames[i].4.len() == frames[i].1 + 0x100 * frames[i].2 + 0x1_0000 * frames[i].3,
        rest.len() < 8 || rest[1] != 0x2a,
    ensures
        has_few_frames(frames_bytes(frames) + rest, n),
    decreases frames.len(),
{
    let all = frames_bytes(frames) + rest;
    if frames.len() == 0 {
        assert(all =~= rest);
    } else {
        let f = frames[0];
        let g = frames.drop_first();
        assert forall|i: int| 0 <= i < g.len() implies 0x50 <= (#[trigger] g[i]).0 <= 0x5f
            && g[i].4.len() == g[i].1 + 0x100 * g[i].2 + 0x1_0000 * g[i].3 by {
            assert(g[i] == frames[i + 1]);
        }
        lemma_frames(g, rest, (n - 1) as nat);
        let b = frame_bytes(f);
        assert(b.len() == 8 + f.4.len());
        assert(all =~= b + (frames_bytes(g) + rest));
        assert(all[0] == b[0] && all[1] == b[1] && all[2] == b[2] && all[3] == b[3]);
        assert(all[4] == b[4] && all[5] == b[5] && all[6] == b[6] && all[7] == b[7]);
        assert(number_at(all, 4) == f.4.len());
        assert(all.skip(8 + number_at(all, 4)) =~= frames_bytes(g) + rest);
    }
}

} // verus!
