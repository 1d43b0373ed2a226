//! Exporting threads by several workers at once.
use crate::exporter;
use crate::frontmatter::Header;
use crate::naming;
use crate::process;
use crate::process::{Decision, RunCounts};
use crate::readback;
use crate::text;
use crate::timestamp;
use crate::timestamp::Timestamp;
use crate::utils;
use crate::utils::{FileFrontmatter, FileHeader, ProcessResult};
use vstd::prelude::*;
use vstd::string::*;
use vstd::utf8::*;

verus! {

// ---------------------------------------------------------------------------
// Existing files
// ---------------------------------------------------------------------------
/// Whether a directory with these files holds exports from before.
pub fn has_existing_exports(names: &Vec<String>) -> (r: bool)
    ensures
        r <==> exists|i: int| 0 <= i < names@.len() && naming::is_markdown((#[trigger] names@[i])@),
{
    let mut i: usize = 0;
    while i < names.len()
        invariant
            i <= names@.len(),
            forall|j: int| 0 <= j < i ==> !naming::is_markdown((#[trigger] names@[j])@),
        decreases names@.len() - i,
    {
        if naming::markdown_file(names[i].as_str()) {
            return true;
        }
        i += 1;
    }
    false
}

/// A file whose name a thread's export may have.
pub open spec fn is_named_after(name: Seq<char>, id: Seq<char>) -> bool {
    naming::is_markdown(name) && text::has_prefix(name, naming::candidate(id, 0))
}

/// A header that names the thread.
pub open spec fn is_owned_by(header: Option<FileHeader>, id: Seq<char>) -> bool {
    header matches Some(h) && h.id == Some(id)
}

/// A file in the target directory, with its header where that has been read and there is one.
pub struct ExistingFile {
    pub name: String,
    pub frontmatter: Option<FileFrontmatter>,
}

/// The file holds the export of the thread.
pub open spec fn holds(file: ExistingFile, id: Seq<char>) -> bool {
    is_named_after(file.name@, id) && is_owned_by(process::opt_header(file.frontmatter), id)
}

/// Whether a file's name is one that the export of a thread may have.
pub fn named_after(name: &str, id: &str) -> (r: bool)
    requires
        text::cuts_cleanly(id@, 8),
    ensures
        r == is_named_after(name@, id@),
{
    let chars = text::chars_of(name);
    let prefix = text::chars_of(text::take_bytes(id, 8));
    naming::markdown_file(name) && text::starts_with(chars.as_slice(), prefix.as_slice())
}

/// Whether a header names the thread.
pub fn owned_by(frontmatter: Option<&FileFrontmatter>, id: &str) -> (r: bool)
    ensures
        r == is_owned_by(
            (match frontmatter {
                Some(fm) => Some(fm@),
                None => None,
            }),
            id@,
        ),
{
    match frontmatter {
        Some(fm) => match &fm.id {
            Some(s) => text::same_text(s.as_str(), id),
            None => false,
        },
        None => false,
    }
}

/// Find the first file whose name starts with the first 8 bytes of the id and whose header names
/// the thread. Several files may share a prefix; the header tells them apart.
pub fn find_existing_file(files: &Vec<ExistingFile>, id: &str) -> (r: Option<usize>)
    requires
        text::cuts_cleanly(id@, 8),
    ensures
        (match r {
            Some(i) => i < files@.len() && holds(files@[i as int], id@) && forall|j: int|
                0 <= j < i ==> !holds(#[trigger] files@[j], id@),
            None => forall|j: int| 0 <= j < files@.len() ==> !holds(#[trigger] files@[j], id@),
        }),
{
    let mut i: usize = 0;
    while i < files.len()
        invariant
            i <= files@.len(),
            text::cuts_cleanly(id@, 8),
            forall|j: int| 0 <= j < i ==> !holds(#[trigger] files@[j], id@),
        decreases files@.len() - i,
    {
        let file = &files[i];
        let frontmatter = match &file.frontmatter {
            Some(fm) => Some(fm),
            None => None,
        };
        if named_after(file.name.as_str(), id) && owned_by(frontmatter, id) {
            return Some(i);
        }
        i += 1;
    }
    None
}

/// A file that was named after any candidate of a thread, and whose header names the thread, is
/// found again as the thread's.
pub proof fn law_exported_file_is_found(file: ExistingFile, id: Seq<char>)
    requires
        text::cuts_cleanly(id, 8),
        naming::is_name_of(file.name@, id),
        is_owned_by(process::opt_header(file.frontmatter), id),
    ensures
        holds(file, id),
{
    let (i, slug) = choose|i: int, slug: Seq<char>|
        0 <= i < naming::CANDIDATES && naming::has_candidate(id, i) && file.name@
            == naming::file_name(#[trigger] naming::stem_of(naming::candidate(id, i), slug));
    naming::law_file_begins_with_shortest_prefix(id, i, slug);
}

// ---------------------------------------------------------------------------
// File names
// ---------------------------------------------------------------------------
/// What is known about a file name that a thread would like to have.
pub enum Probe {
    /// There is no such file.
    Absent,
    /// It cannot be found out.
    Unknown,
    /// There is one, and its header names this thread, if any.
    Present(Option<String>),
}

/// What to do next to find a file name.
pub enum StemStep {
    /// Look for a file of this name.
    Try(String),
    /// Take this name.
    Use(String),
}

/// The contents of a [`StemStep`].
pub enum StemChoice {
    Try(Seq<char>),
    Use(Seq<char>),
}

impl View for StemStep {
    type V = StemChoice;

    open spec fn view(&self) -> StemChoice {
        match self {
            StemStep::Try(s) => StemChoice::Try(s@),
            StemStep::Use(s) => StemChoice::Use(s@),
        }
    }
}

/// The thread may take the name: no other thread's file is known to have it.
pub open spec fn is_claimable(probe: Probe, id: Seq<char>) -> bool {
    match probe {
        Probe::Absent => true,
        Probe::Unknown => true,
        Probe::Present(owner) => text::opt_text(owner) == Some(id),
    }
}

/// The first candidate that the thread may take, of those that were looked for.
pub open spec fn first_claim(probes: Seq<Probe>, id: Seq<char>) -> Option<int>
    decreases probes.len(),
{
    if probes.len() == 0 {
        None
    } else {
        match first_claim(probes.drop_last(), id) {
            Some(i) => Some(i),
            None => if is_claimable(probes.last(), id) {
                Some(probes.len() - 1)
            } else {
                None
            },
        }
    }
}

/// The next step for a thread, given what was found out about its candidates, the shortest first.
pub open spec fn stem_choice(id: Seq<char>, slug: Seq<char>, probes: Seq<Probe>) -> StemChoice {
    match first_claim(probes, id) {
        Some(i) => StemChoice::Use(naming::stem_of(naming::candidate(id, i), slug)),
        None => if probes.len() < naming::CANDIDATES {
            StemChoice::Try(naming::stem_of(naming::candidate(id, probes.len() as int), slug))
        } else {
            StemChoice::Use(naming::stem_of(id, slug))
        },
    }
}

/// The identifier can be cut as far as it takes to find the next step: the second candidate is only
/// made where the thread may not take the first.
pub open spec fn can_choose(id: Seq<char>, probes: Seq<Probe>) -> bool {
    &&& naming::has_candidate(id, 0)
    &&& naming::has_candidate(id, 1) || probes.len() == 0 || is_claimable(probes[0], id)
}

/// Whether a thread may take a name.
pub fn claimable(probe: &Probe, id: &str) -> (r: bool)
    ensures
        r == is_claimable(*probe, id@),
{
    match probe {
        Probe::Absent => true,
        Probe::Unknown => true,
        Probe::Present(owner) => match owner {
            Some(s) => text::same_text(s.as_str(), id),
            None => false,
        },
    }
}

/// Whether the next step for a thread can be found.
pub fn can_step(id: &str, probes: &Vec<Probe>) -> (r: bool)
    ensures
        r == can_choose(id@, probes@),
{
    text::can_cut(id, 8) && (text::can_cut(id, 12) || probes.len() == 0 || claimable(
        &probes[0],
        id,
    ))
}

/// Finds the next step for a thread with this slug.
pub fn next_stem(id: &str, slug: &str, probes: &Vec<Probe>) -> (r: StemStep)
    requires
        can_choose(id@, probes@),
    ensures
        r@ == stem_choice(id@, slug@, probes@),
{
    let mut i: usize = 0;
    assert(probes@.take(0) =~= Seq::empty());
    while i < probes.len()
        invariant
            i <= probes@.len(),
            can_choose(id@, probes@),
            i > 0 ==> !is_claimable(probes@[0], id@),
            first_claim(probes@.take(i as int), id@) is None,
        decreases probes@.len() - i,
    {
        proof {
            let t = probes@.take(i as int + 1);
            assert(t.drop_last() =~= probes@.take(i as int));
            assert(t.last() == probes@[i as int]);
        }
        if claimable(&probes[i], id) {
            proof {
                lemma_first_claim_stays(probes@, i as int + 1, id@);
            }
            return StemStep::Use(naming::make_stem(naming::candidate_prefix(id, i), slug));
        }
        i += 1;
    }
    assert(probes@.take(probes@.len() as int) =~= probes@);
    if probes.len() < naming::CANDIDATES {
        StemStep::Try(naming::make_stem(naming::candidate_prefix(id, probes.len()), slug))
    } else {
        StemStep::Use(naming::make_stem(id, slug))
    }
}

proof fn lemma_first_claim_stays(probes: Seq<Probe>, n: int, id: Seq<char>)
    requires
        0 <= n <= probes.len(),
        first_claim(probes.take(n), id) is Some,
    ensures
        first_claim(probes, id) == first_claim(probes.take(n), id),
    decreases probes.len(),
{
    if n == probes.len() {
        assert(probes.take(n) =~= probes);
    } else {
        assert(probes.drop_last().take(n) =~= probes.take(n));
        lemma_first_claim_stays(probes.drop_last(), n, id);
    }
}

/// Optimistically finds a filename stem for the given id+title pair.
/// For each prefix length [8, 12, full id], the file system is looked at:
///   - File absent  → claim it (the caller will create it immediately after)
///   - File present and owned by this id → reuse it (incremental update / slug unchanged)
///   - File present and owned by another id → try a longer prefix
pub fn allocate_filename(id: &str, title: &str, probes: &Vec<Probe>) -> (r: StemStep)
    requires
        can_choose(id@, probes@),
    ensures
        r@ == stem_choice(id@, naming::title_slug(title@), probes@),
{
    let slug = naming::slug_of_title(title);
    next_stem(id, slug.as_str(), probes)
}

proof fn lemma_first_claim(probes: Seq<Probe>, id: Seq<char>)
    ensures
        (match first_claim(probes, id) {
            Some(i) => 0 <= i < probes.len() && is_claimable(probes[i], id) && forall|j: int|
                0 <= j < i ==> !is_claimable(#[trigger] probes[j], id),
            None => forall|j: int| 0 <= j < probes.len() ==> !is_claimable(#[trigger] probes[j], id),
        }),
    decreases probes.len(),
{
    if probes.len() > 0 {
        let rest = probes.drop_last();
        lemma_first_claim(rest, id);
        assert(forall|j: int| 0 <= j < rest.len() ==> #[trigger] rest[j] == probes[j]);
        assert forall|j: int|
            0 <= j < probes.len() - 1 && !is_claimable(rest[j], id) implies !is_claimable(
            #[trigger] probes[j],
            id,
        ) by {
            assert(rest[j] == probes[j]);
        }
    }
}

/// A thread never takes a name under which the file of another thread was found, unless that is so
/// of all its candidates; and it takes the shortest name that it may.
pub proof fn law_other_threads_keep_their_files(
    id: Seq<char>,
    slug: Seq<char>,
    probes: Seq<Probe>,
)
    ensures
        stem_choice(id, slug, probes) matches StemChoice::Use(stem) ==> {
            ||| exists|i: int|
                0 <= i < probes.len() && is_claimable(#[trigger] probes[i], id) && stem
                    == naming::stem_of(naming::candidate(id, i), slug) && forall|j: int|
                    0 <= j < i ==> !is_claimable(#[trigger] probes[j], id)
            ||| probes.len() >= naming::CANDIDATES && stem == naming::stem_of(id, slug) && forall|
                j: int,
            |
                0 <= j < probes.len() ==> !is_claimable(#[trigger] probes[j], id)
        },
{
    lemma_first_claim(probes, id);
}

/// The name that a thread takes is one of its own.
pub proof fn law_name_is_one_of_the_thread(id: Seq<char>, slug: Seq<char>, probes: Seq<Probe>)
    requires
        can_choose(id, probes),
    ensures
        stem_choice(id, slug, probes) matches StemChoice::Use(stem) ==> naming::is_name_of(
            naming::file_name(stem),
            id,
        ),
{
    lemma_first_claim(probes, id);
    match stem_choice(id, slug, probes) {
        StemChoice::Use(stem) => {
            let i: int = match first_claim(probes, id) {
                Some(j) => if j < 2 {
                    j
                } else {
                    2
                },
                None => 2,
            };
            assert(naming::has_candidate(id, i));
            assert(stem == naming::stem_of(naming::candidate(id, i), slug));
        },
        StemChoice::Try(_) => {},
    }
}

/// Looking for all candidates is enough to find a name.
pub proof fn law_search_for_a_name_ends(id: Seq<char>, slug: Seq<char>, probes: Seq<Probe>)
    requires
        probes.len() >= naming::CANDIDATES,
    ensures
        stem_choice(id, slug, probes) is Use,
{
}

// ---------------------------------------------------------------------------
// Steps for one thread
// ---------------------------------------------------------------------------
/// What has been found out and done about a thread.
pub struct ExportProgress {
    /// The timestamp in the thread's document, once it has been looked for.
    pub stored: Option<Option<Timestamp>>,
    /// Whether the document holds a thread, once that has been tried.
    pub parsed: Option<bool>,
    /// The stem of the thread's file, once there is one.
    pub stem: Option<String>,
    /// The file from before has been renamed, as far as that was possible.
    pub renamed: bool,
    /// The thread's file has been written.
    pub written: bool,
}

/// The contents of an [`ExportProgress`].
pub struct ExportSoFar {
    pub stored: Option<Option<(i64, u32)>>,
    pub parsed: Option<bool>,
    pub stem: Option<Seq<char>>,
    pub renamed: bool,
    pub written: bool,
}

impl View for ExportProgress {
    type V = ExportSoFar;

    open spec fn view(&self) -> ExportSoFar {
        ExportSoFar {
            stored: match self.stored {
                Some(t) => Some(timestamp::opt_instant(t)),
                None => None,
            },
            parsed: self.parsed,
            stem: text::opt_text(self.stem),
            renamed: self.renamed,
            written: self.written,
        }
    }
}

/// What to do next about a thread.
#[derive(Debug, Clone, Copy, PartialEq, Eq, Structural)]
pub enum ExportAction {
    /// Read the timestamp in the thread's document.
    ReadTimestamp,
    /// Read the thread in the document.
    Parse,
    /// Find a name for the thread's file.
    FindName,
    /// Rename the file from before.
    Rename,
    /// Write the thread's file.
    Write,
    /// Give up: the document holds no thread.
    Fail,
    /// Nothing: the thread is done.
    Finish(ProcessResult),
}

/// What to do next about a thread that is not up to date: read it, find a name, rename the file from
/// before, and write.
pub open spec fn export_step(existing: Option<Seq<char>>, progress: ExportSoFar) -> ExportAction {
    match (progress.parsed, progress.stem) {
        (None, _) => ExportAction::Parse,
        (Some(false), _) => ExportAction::Fail,
        (Some(true), None) => ExportAction::FindName,
        (Some(true), Some(stem)) => match process::placed(existing, naming::file_name(stem)) {
            Decision::Skip => ExportAction::Finish(ProcessResult::Skipped),
            Decision::Export { result, rename } => if rename && !progress.renamed {
                ExportAction::Rename
            } else if !progress.written {
                ExportAction::Write
            } else {
                ExportAction::Finish(result)
            },
        },
    }
}

/// What to do next about a thread, given the hash of its document, and the name and the header of the
/// file from before.
pub open spec fn action_after(
    force: bool,
    include_context: bool,
    content_hash: Seq<char>,
    existing: Option<(Seq<char>, Option<FileHeader>)>,
    progress: ExportSoFar,
) -> ExportAction {
    let name = match existing {
        Some(e) => Some(e.0),
        None => None,
    };
    let header = match existing {
        Some(e) => e.1,
        None => None,
    };
    if !force && header is Some && progress.stored is None {
        ExportAction::ReadTimestamp
    } else if process::is_up_to_date(
        force,
        header,
        process::known(progress.stored),
        content_hash,
        include_context,
    ) {
        ExportAction::Finish(ProcessResult::Skipped)
    } else {
        export_step(name, progress)
    }
}

/// The name and the header of a file that may be missing.
pub open spec fn opt_existing(existing: Option<&ExistingFile>) -> Option<
    (Seq<char>, Option<FileHeader>),
> {
    match existing {
        Some(f) => Some((f.name@, process::opt_header(f.frontmatter))),
        None => None,
    }
}

impl ExportProgress {
    /// Nothing is known and nothing has been done.
    pub fn new() -> (r: ExportProgress)
        ensures
            r@ == (ExportSoFar {
                stored: None,
                parsed: None,
                stem: None,
                renamed: false,
                written: false,
            }),
    {
        ExportProgress { stored: None, parsed: None, stem: None, renamed: false, written: false }
    }

    fn next_step(&self, existing: Option<&str>) -> (r: ExportAction)
        ensures
            r == export_step(
                (match existing {
                    Some(name) => Some(name@),
                    None => None,
                }),
                self@,
            ),
    {
        match self.parsed {
            None => {
                return ExportAction::Parse;
            },
            Some(false) => {
                return ExportAction::Fail;
            },
            Some(true) => {},
        }
        match &self.stem {
            None => ExportAction::FindName,
            Some(stem) => {
                let file_name = naming::make_file_name(stem.as_str());
                match process::placement(existing, file_name.as_str()) {
                    Decision::Skip => ExportAction::Finish(ProcessResult::Skipped),
                    Decision::Export { result, rename } => if rename && !self.renamed {
                        ExportAction::Rename
                    } else if !self.written {
                        ExportAction::Write
                    } else {
                        ExportAction::Finish(result)
                    },
                }
            },
        }
    }

    /// What to do next about a thread, given the hash of its document and the file from before.
    pub fn next_action(
        &self,
        force: bool,
        include_context: bool,
        content_hash: &str,
        existing: Option<&ExistingFile>,
    ) -> (r: ExportAction)
        ensures
            r == action_after(
                force,
                include_context,
                content_hash@,
                opt_existing(existing),
                self@,
            ),
    {
        let (name, header) = match existing {
            Some(f) => (
                Some(f.name.as_str()),
                match &f.frontmatter {
                    Some(fm) => Some(fm),
                    None => None,
                },
            ),
            None => (None, None),
        };
        let stored = match &self.stored {
            Some(t) => match t {
                Some(t) => Some(t),
                None => None,
            },
            None => {
                if !force && header.is_some() {
                    return ExportAction::ReadTimestamp;
                }
                None
            },
        };
        if process::up_to_date(force, header, stored, content_hash, include_context) {
            ExportAction::Finish(ProcessResult::Skipped)
        } else {
            self.next_step(name)
        }
    }
}

/// No file is touched for a thread that is up to date.
pub proof fn law_up_to_date_file_is_not_touched(
    force: bool,
    include_context: bool,
    content_hash: Seq<char>,
    name: Seq<char>,
    header: Option<FileHeader>,
    progress: ExportSoFar,
)
    requires
        process::is_up_to_date(
            force,
            header,
            process::known(progress.stored),
            content_hash,
            include_context,
        ),
    ensures
        action_after(force, include_context, content_hash, Some((name, header)), progress)
            == ExportAction::Finish(ProcessResult::Skipped),
{
}

/// A thread is skipped only where its file is up to date: one that is new, was continued, or whose
/// document has changed goes through all steps of an export.
pub proof fn law_changed_thread_is_exported(
    force: bool,
    include_context: bool,
    content_hash: Seq<char>,
    existing: Option<(Seq<char>, Option<FileHeader>)>,
    progress: ExportSoFar,
)
    requires
        existing matches Some(e) ==> (e.1 matches Some(h) ==> process::known(progress.stored) is None
            || !timestamp::not_before(h.updated_at, process::known(progress.stored)->0)
            || h.content_hash != Some(content_hash) || h.include_context != include_context),
    ensures
        ({
            let name = match existing {
                Some(e) => Some(e.0),
                None => None,
            };
            let action = action_after(force, include_context, content_hash, existing, progress);
            &&& action != ExportAction::Finish(ProcessResult::Skipped)
            &&& action == export_step(name, progress) || action == ExportAction::ReadTimestamp
        }),
{
}

/// A document that holds no thread leaves all files as they are.
pub proof fn law_unreadable_thread_touches_no_file(
    force: bool,
    include_context: bool,
    content_hash: Seq<char>,
    existing: Option<(Seq<char>, Option<FileHeader>)>,
    progress: ExportSoFar,
)
    requires
        progress.parsed != Some(true),
    ensures
        ({
            let action = action_after(force, include_context, content_hash, existing, progress);
            action != ExportAction::Rename && action != ExportAction::Write
        }),
{
}

/// A thread's file is written only once the file from before has the same name.
pub proof fn law_file_is_renamed_before_it_is_written(
    force: bool,
    include_context: bool,
    content_hash: Seq<char>,
    existing: Option<(Seq<char>, Option<FileHeader>)>,
    progress: ExportSoFar,
)
    requires
        action_after(force, include_context, content_hash, existing, progress)
            == ExportAction::Write,
    ensures
        progress.stem matches Some(stem) && (existing matches Some(e) ==> e.0 == naming::file_name(
            stem,
        ) || progress.renamed),
{
}

/// Nothing is done twice about a thread, so it is done after at most five actions.
pub proof fn law_no_action_is_repeated(
    force: bool,
    include_context: bool,
    content_hash: Seq<char>,
    existing: Option<(Seq<char>, Option<FileHeader>)>,
    progress: ExportSoFar,
)
    ensures
        (match action_after(force, include_context, content_hash, existing, progress) {
            ExportAction::ReadTimestamp => progress.stored is None,
            ExportAction::Parse => progress.parsed is None,
            ExportAction::FindName => progress.stem is None,
            ExportAction::Rename => !progress.renamed,
            ExportAction::Write => !progress.written,
            _ => true,
        }),
{
}

// ---------------------------------------------------------------------------
// The next run
// ---------------------------------------------------------------------------
/// All that a run does about a thread is to read the timestamp in its document.
pub open spec fn is_only_read(
    include_context: bool,
    content_hash: Seq<char>,
    existing: (Seq<char>, Option<FileHeader>),
    stored: Option<(i64, u32)>,
) -> bool {
    let nothing = ExportSoFar {
        stored: None,
        parsed: None,
        stem: None,
        renamed: false,
        written: false,
    };
    let read = ExportSoFar { stored: Some(stored), ..nothing };
    let next = |progress: ExportSoFar|
        action_after(false, include_context, content_hash, Some(existing), progress);
    &&& next(nothing) == ExportAction::ReadTimestamp
    &&& next(read) == ExportAction::Finish(ProcessResult::Skipped)
}

/// The file with this content is what a run left for a thread: it exported the thread into it, under
/// a name that it chose by the thread's identifier, or found it to be the thread's and up to date.
pub open spec fn is_left_by_run(
    file: ExistingFile,
    content: Seq<u8>,
    header: Header,
    body: Seq<char>,
) -> bool {
    &&& process::opt_header(file.frontmatter) == utils::file_header(content)
    &&& {
        ||| {
            &&& exporter::is_export(header, body, content)
            &&& readback::is_readable(header)
            &&& naming::is_name_of(file.name@, header.id)
        }
        ||| {
            &&& holds(file, header.id)
            &&& process::is_up_to_date(
                false,
                utils::file_header(content),
                Some(header.updated_at),
                header.content_hash,
                header.include_context,
            )
        }
    }
}

/// The file that a run left for a thread is found by the next one as the thread's, and where the
/// thread is unchanged since, the file stays as it is.
pub proof fn law_exported_thread_is_skipped(
    file: ExistingFile,
    content: Seq<u8>,
    header: Header,
    body: Seq<char>,
)
    requires
        text::cuts_cleanly(header.id, 8),
        is_left_by_run(file, content, header, body),
    ensures
        holds(file, header.id),
        is_only_read(
            header.include_context,
            header.content_hash,
            (file.name@, process::opt_header(file.frontmatter)),
            Some(header.updated_at),
        ),
{
    if !holds(file, header.id) {
        law_exported_file_is_found(file, header.id);
    }
}

/// A second run over the same threads changes nothing. The directory holds the files that the first
/// run left for the threads, and others that belong to none of them. Then the second run finds each
/// thread's file and no other for it, and all that it does about a thread is read.
pub proof fn law_second_run_changes_nothing(
    files: Seq<ExistingFile>,
    headers: Seq<Header>,
    bodies: Seq<Seq<char>>,
    contents: Seq<Seq<u8>>,
    places: Seq<int>,
)
    requires
        forall|i: int, j: int|
            0 <= i < j < headers.len() ==> (#[trigger] headers[i]).id != (#[trigger] headers[j]).id,
        forall|i: int|
            0 <= i < headers.len() ==> {
                let k = #[trigger] places[i];
                &&& 0 <= k < files.len()
                &&& text::cuts_cleanly(headers[i].id, 8)
                &&& is_left_by_run(files[k], contents[k], headers[i], bodies[i])
            },
        forall|i: int, k: int|
            0 <= i < headers.len() && 0 <= k < files.len() && !is_file_of_run(headers, places, k)
                ==> !is_owned_by(
                process::opt_header((#[trigger] files[k]).frontmatter),
                (#[trigger] headers[i]).id,
            ),
    ensures
        forall|i: int, k: int|
            0 <= i < headers.len() && 0 <= k < files.len() ==> (holds(
                #[trigger] files[k],
                (#[trigger] headers[i]).id,
            ) <==> k == places[i]),
        forall|i: int|
            0 <= i < headers.len() ==> is_only_read(
                (#[trigger] headers[i]).include_context,
                headers[i].content_hash,
                (files[places[i]].name@, process::opt_header(files[places[i]].frontmatter)),
                Some(headers[i].updated_at),
            ),
{
    assert forall|i: int| 0 <= i < headers.len() implies {
        let k = #[trigger] places[i];
        &&& holds(files[k], headers[i].id)
        &&& is_only_read(
            headers[i].include_context,
            headers[i].content_hash,
            (files[k].name@, process::opt_header(files[k].frontmatter)),
            Some(headers[i].updated_at),
        )
    } by {
        let k = places[i];
        law_exported_thread_is_skipped(files[k], contents[k], headers[i], bodies[i]);
    }
    assert forall|i: int, k: int| 0 <= i < headers.len() && 0 <= k < files.len() implies (holds(
        #[trigger] files[k],
        (#[trigger] headers[i]).id,
    ) <==> k == places[i]) by {
        assert(holds(files[places[i]], headers[i].id));
        if holds(files[k], headers[i].id) && k != places[i] {
            assert(is_file_of_run(headers, places, k));
            let m = choose|m: int| 0 <= m < headers.len() && #[trigger] places[m] == k;
            assert(holds(files[places[m]], headers[m].id));
            assert(headers[m].id == headers[i].id);
        }
    }
}

/// The file number `k` is that of a thread.
pub open spec fn is_file_of_run(headers: Seq<Header>, places: Seq<int>, k: int) -> bool {
    exists|i: int| 0 <= i < headers.len() && #[trigger] places[i] == k
}

// ---------------------------------------------------------------------------
// Reports
// ---------------------------------------------------------------------------
/// The line that is printed about a thread: its file, or the thread where no file was written.
pub open spec fn report_text(result: ProcessResult, id: Seq<char>, stem: Seq<char>) -> Seq<char> {
    match result {
        ProcessResult::Created => "Created: "@ + naming::file_name(stem),
        ProcessResult::Updated => "Updated: "@ + naming::file_name(stem),
        ProcessResult::Skipped => "Skipped: "@ + id,
    }
}

/// The line that is printed about a thread.
pub fn report(result: ProcessResult, id: &str, stem: &str) -> (r: String)
    ensures
        r@ == report_text(result, id@, stem@),
{
    match result {
        ProcessResult::Created => {
            let name = naming::make_file_name(stem);
            text::join("Created: ", name.as_str())
        },
        ProcessResult::Updated => {
            let name = naming::make_file_name(stem);
            text::join("Updated: ", name.as_str())
        },
        ProcessResult::Skipped => text::join("Skipped: ", id),
    }
}

/// The counts of a first run whose threads came to these results.
pub open spec fn fresh_counts(results: Seq<Option<ProcessResult>>) -> RunCounts
    decreases results.len(),
{
    if results.len() == 0 {
        RunCounts { created: 0, updated: 0, skipped: 0, errors: 0 }
    } else {
        fresh_counts(results.drop_last()).with_fresh(results.last())
    }
}

/// The created files and the failures of a first run add up to the number of its threads, where each
/// thread is created or fails.
pub proof fn law_fresh_counts_add_up(results: Seq<Option<ProcessResult>>)
    requires
        results.len() <= u64::MAX,
        forall|i: int|
            0 <= i < results.len() ==> #[trigger] results[i] is None || results[i] == Some(
                ProcessResult::Created,
            ),
    ensures
        fresh_counts(results).created + fresh_counts(results).errors == results.len(),
        fresh_counts(results).handled() == results.len(),
    decreases results.len(),
{
    if results.len() > 0 {
        let rest = results.drop_last();
        assert forall|i: int| 0 <= i < rest.len() implies #[trigger] rest[i] is None || rest[i]
            == Some(ProcessResult::Created) by {
            assert(rest[i] == results[i]);
        }
        law_fresh_counts_add_up(rest);
        assert(results[results.len() - 1] is None || results[results.len() - 1] == Some(
            ProcessResult::Created,
        ));
    }
}

/// A thread without a file from before is created or fails.
pub proof fn law_first_run_creates(
    force: bool,
    include_context: bool,
    content_hash: Seq<char>,
    progress: ExportSoFar,
)
    ensures
        action_after(force, include_context, content_hash, None, progress)
            matches ExportAction::Finish(r) ==> r == ProcessResult::Created,
{
}

impl RunCounts {
    /// The counts of a first run with one more thread: only created files and failures count.
    pub open spec fn with_fresh(self, result: Option<ProcessResult>) -> RunCounts {
        match result {
            Some(ProcessResult::Created) => RunCounts {
                created: (self.created + 1) as u64,
                ..self
            },
            Some(_) => self,
            None => RunCounts { errors: (self.errors + 1) as u64, ..self },
        }
    }

    /// Counts one thread of a first run, in which only created files and failures count.
    pub fn tally_fresh(&mut self, result: Option<ProcessResult>)
        requires
            old(self).handled() < u64::MAX,
        ensures
            *final(self) == old(self).with_fresh(result),
    {
        match result {
            Some(ProcessResult::Created) => {
                self.created = self.created + 1;
            },
            Some(_) => {},
            None => {
                self.errors = self.errors + 1;
            },
        }
    }

    /// The last line of a first run.
    pub fn fresh_summary(&self) -> (r: String)
        ensures
            r@ == "Done (Fresh). "@ + text::decimal(self.created as nat) + " created. Errors: "@
                + text::decimal(self.errors as nat),
    {
        let mut s = "Done (Fresh). ".to_owned();
        text::push_decimal(&mut s, self.created);
        s.append(" created. Errors: ");
        text::push_decimal(&mut s, self.errors);
        s
    }

    /// The last line of a later run.
    pub fn incremental_summary(&self) -> (r: String)
        ensures
            r@ == "Done (Incremental). "@ + text::decimal(self.created as nat) + " created, "@
                + text::decimal(self.updated as nat) + " updated, "@ + text::decimal(
                self.skipped as nat,
            ) + " skipped. Errors: "@ + text::decimal(self.errors as nat),
    {
        let mut s = "Done (Incremental). ".to_owned();
        text::push_decimal(&mut s, self.created);
        s.append(" created, ");
        text::push_decimal(&mut s, self.updated);
        s.append(" updated, ");
        text::push_decimal(&mut s, self.skipped);
        s.append(" skipped. Errors: ");
        text::push_decimal(&mut s, self.errors);
        s
    }
}

// ---------------------------------------------------------------------------
// Laws
// ---------------------------------------------------------------------------

/// A file may be a thread's where its name begins with the first eight bytes of the identifier and
/// ends in `.md`.
pub proof fn law_names_that_a_thread_may_have(name: Seq<char>, a: Seq<char>, b: Seq<char>)
    ensures
        encode_utf8(a).len() == 8 ==> (is_named_after(name, a + b) <==> {
            &&& naming::is_markdown(name)
            &&& name.len() >= a.len()
            &&& name.take(a.len() as int) == a
        }),
        encode_utf8(a).len() <= 8 ==> (is_named_after(name, a) <==> {
            &&& naming::is_markdown(name)
            &&& name.len() >= a.len()
            &&& name.take(a.len() as int) == a
        }),
{
    naming::law_candidates(a, b);
}

/// A file is a thread's where its name may be and its header names the thread.
pub proof fn law_files_of_a_thread(file: ExistingFile, fm: FileFrontmatter, id: Seq<char>)
    ensures
        is_owned_by(Some(fm@), id) <==> (fm.id matches Some(s) && s@ == id),
        !is_owned_by(None, id),
        file.frontmatter == Some(fm) ==> (holds(file, id) <==> is_named_after(file.name@, id) && (
        fm.id matches Some(s) && s@ == id)),
        file.frontmatter is None ==> !holds(file, id),
{
}

/// A name may be taken where no file has it, where that cannot be found out, and where the file that
/// has it is the thread's.
pub proof fn law_names_that_may_be_taken(owner: String, id: Seq<char>)
    ensures
        is_claimable(Probe::Absent, id),
        is_claimable(Probe::Unknown, id),
        !is_claimable(Probe::Present(None), id),
        is_claimable(Probe::Present(Some(owner)), id) <==> owner@ == id,
{
}

/// The names of a thread are tried from the shortest on: by the first eight bytes of its identifier,
/// by the first twelve, and by all of it. The first that the thread may take is taken, and after all
/// three the last one is in any case.
pub proof fn law_names_are_tried_in_order(
    a: Seq<char>,
    b: Seq<char>,
    c: Seq<char>,
    slug: Seq<char>,
    probes: Seq<Probe>,
)
    requires
        encode_utf8(a).len() == 8,
        encode_utf8(b).len() == 4,
    ensures
        ({
            let id = a + b + c;
            let choice = stem_choice(id, slug, probes);
            &&& can_choose(id, probes)
            &&& if probes.len() == 0 {
                choice == StemChoice::Try(naming::stem_of(a, slug))
            } else if is_claimable(probes[0], id) {
                choice == StemChoice::Use(naming::stem_of(a, slug))
            } else if probes.len() == 1 {
                choice == StemChoice::Try(naming::stem_of(a + b, slug))
            } else if is_claimable(probes[1], id) {
                choice == StemChoice::Use(naming::stem_of(a + b, slug))
            } else if probes.len() == 2 {
                choice == StemChoice::Try(naming::stem_of(id, slug))
            } else {
                choice == StemChoice::Use(naming::stem_of(id, slug))
            }
        }),
{
    let id = a + b + c;
    text::lemma_encode_concat(a, b);
    naming::law_candidates(a, b + c);
    assert(a + (b + c) =~= a + b + c);
    naming::law_candidates(a + b, c);
    lemma_first_claim(probes, id);
    match first_claim(probes, id) {
        Some(i) => {
            if i > 0 {
                assert(!is_claimable(probes[0], id));
            }
            if i > 1 {
                assert(!is_claimable(probes[1], id));
            }
        },
        None => {},
    }
}

/// A step names the file that it is about.
pub proof fn law_stems_of_steps(s: String)
    ensures
        StemStep::Try(s)@ == StemChoice::Try(s@),
        StemStep::Use(s)@ == StemChoice::Use(s@),
{
}

/// What is done about a thread, step by step. Beside a header the timestamp in the thread's document
/// is read, unless the export is forced. An up-to-date file is left alone. Any other thread is read,
/// given a name, and written, after the file from before was renamed where it has another name.
pub proof fn law_steps_of_an_export(
    force: bool,
    include_context: bool,
    content_hash: Seq<char>,
    existing: Option<(Seq<char>, Option<FileHeader>)>,
    progress: ExportSoFar,
)
    ensures
        ({
            let next = action_after(force, include_context, content_hash, existing, progress);
            let name = match existing {
                Some(e) => e.0,
                None => Seq::empty(),
            };
            let header = match existing {
                Some(e) => e.1,
                None => None,
            };
            if !force && header is Some && progress.stored is None {
                next == ExportAction::ReadTimestamp
            } else if !force && header is Some && progress.stored->0 is Some
                && process::is_up_to_date(
                false,
                header,
                progress.stored->0,
                content_hash,
                include_context,
            ) {
                next == ExportAction::Finish(ProcessResult::Skipped)
            } else if progress.parsed is None {
                next == ExportAction::Parse
            } else if progress.parsed == Some(false) {
                next == ExportAction::Fail
            } else if progress.stem is None {
                next == ExportAction::FindName
            } else if existing is Some && name != progress.stem->0 + ".md"@
                && !progress.renamed {
                next == ExportAction::Rename
            } else if !progress.written {
                next == ExportAction::Write
            } else if existing is Some {
                next == ExportAction::Finish(ProcessResult::Updated)
            } else {
                next == ExportAction::Finish(ProcessResult::Created)
            }
        }),
{
}

/// What is known and done about a thread, field by field.
pub proof fn law_fields_of_a_progress(p: ExportProgress)
    ensures
        p@.stored is Some <==> p.stored is Some,
        p.stored matches Some(t) ==> (match t {
            Some(t) => p@.stored == Some(Some(t@)),
            None => p@.stored == Some(None::<(i64, u32)>),
        }),
        p@.parsed == p.parsed,
        p@.stem == (match p.stem {
            Some(s) => Some(s@),
            None => None,
        }),
        p@.renamed == p.renamed,
        p@.written == p.written,
{
}

/// The name and the header of a file that may be missing.
pub proof fn law_opt_existing(file: ExistingFile)
    ensures
        opt_existing(Some(&file)) matches Some(e) && e.0 == file.name@ && (match file.frontmatter {
            Some(fm) => e.1 == Some(fm@),
            None => e.1 is None,
        }),
        opt_existing(None) is None,
{
}

/// The line about a thread names what was done and the file that was written, or the thread.
pub proof fn law_reports(id: Seq<char>, stem: Seq<char>)
    ensures
        report_text(ProcessResult::Created, id, stem) == "Created: "@ + stem + ".md"@,
        report_text(ProcessResult::Updated, id, stem) == "Updated: "@ + stem + ".md"@,
        report_text(ProcessResult::Skipped, id, stem) == "Skipped: "@ + id,
{
    assert("Created: "@ + (stem + ".md"@) =~= "Created: "@ + stem + ".md"@);
    assert("Updated: "@ + (stem + ".md"@) =~= "Updated: "@ + stem + ".md"@);
}

/// Of a first run the created files and the failures are counted, and nothing else.
pub proof fn law_one_more_fresh_result(counts: RunCounts, result: Option<ProcessResult>)
    requires
        counts.handled() < u64::MAX,
    ensures
        ({
            let after = counts.with_fresh(result);
            &&& after.created == counts.created + (if result == Some(ProcessResult::Created) {
                1int
            } else {
                0
            })
            &&& after.errors == counts.errors + (if result is None {
                1int
            } else {
                0
            })
            &&& after.updated == counts.updated
            &&& after.skipped == counts.skipped
        }),
{
}

/// The candidates of a thread are tried in order, whatever its identifier is.
pub proof fn law_candidates_are_tried_in_order(
    id: Seq<char>,
    slug: Seq<char>,
    probes: Seq<Probe>,
)
    ensures
        ({
            let choice = stem_choice(id, slug, probes);
            let name = |i: int| naming::stem_of(naming::candidate(id, i), slug);
            if probes.len() == 0 {
                choice == StemChoice::Try(name(0))
            } else if is_claimable(probes[0], id) {
                choice == StemChoice::Use(name(0))
            } else if probes.len() == 1 {
                choice == StemChoice::Try(name(1))
            } else if is_claimable(probes[1], id) {
                choice == StemChoice::Use(name(1))
            } else if probes.len() == 2 {
                choice == StemChoice::Try(name(2))
            } else {
                choice == StemChoice::Use(name(2))
            }
        }),
        can_choose(id, probes) <==> naming::has_candidate(id, 0) && (naming::has_candidate(id, 1)
            || probes.len() == 0 || is_claimable(probes[0], id)),
{
    lemma_first_claim(probes, id);
    match first_claim(probes, id) {
        Some(i) => {
            if i > 0 {
                assert(!is_claimable(probes[0], id));
            }
            if i > 1 {
                assert(!is_claimable(probes[1], id));
            }
        },
        None => {},
    }
}

} // verus!
