//! Exporting one thread after the other, newest first.
use crate::exporter;
use crate::frontmatter::Header;
use crate::naming;
use crate::readback;
use crate::text;
use crate::timestamp;
use crate::timestamp::Timestamp;
use crate::utils;
use crate::utils::{FileFrontmatter, FileHeader, ProcessResult};
use vstd::hash_map::StringHashMap;
use vstd::prelude::*;
use vstd::string::*;
use vstd::utf8::*;

verus! {

// ---------------------------------------------------------------------------
// The registry of prefixes
// ---------------------------------------------------------------------------
/// Which thread each prefix of a file name has been given to in this run.
pub struct Registry {
    owners: StringHashMap<String>,
}

impl View for Registry {
    type V = Map<Seq<char>, Seq<char>>;

    closed spec fn view(&self) -> Map<Seq<char>, Seq<char>> {
        self.owners@.map_values(|s: String| s@)
    }
}

/// The prefix is a candidate of the thread.
pub open spec fn is_candidate(prefix: Seq<char>, id: Seq<char>) -> bool {
    ||| naming::has_candidate(id, 0) && prefix == naming::candidate(id, 0)
    ||| naming::has_candidate(id, 1) && prefix == naming::candidate(id, 1)
    ||| prefix == id
}

/// Every prefix belongs to a thread that may be named after it.
pub open spec fn is_registry(owners: Map<Seq<char>, Seq<char>>) -> bool {
    forall|p: Seq<char>| #[trigger] owners.contains_key(p) ==> is_candidate(p, owners[p])
}

/// Nobody but the thread itself has the prefix.
pub open spec fn is_free(owners: Map<Seq<char>, Seq<char>>, prefix: Seq<char>, id: Seq<char>) -> bool {
    !owners.contains_key(prefix) || owners[prefix] == id
}

/// The identifier can be cut as far as it takes to find its thread a prefix: the second candidate is
/// only made where the first is not free.
pub open spec fn can_allocate(owners: Map<Seq<char>, Seq<char>>, id: Seq<char>) -> bool {
    &&& naming::has_candidate(id, 0)
    &&& naming::has_candidate(id, 1) || is_free(owners, naming::candidate(id, 0), id)
}

/// The shortest prefix that is free for a thread.
pub open spec fn free_prefix(owners: Map<Seq<char>, Seq<char>>, id: Seq<char>) -> Option<
    Seq<char>,
> {
    if is_free(owners, naming::candidate(id, 0), id) {
        Some(naming::candidate(id, 0))
    } else if is_free(owners, naming::candidate(id, 1), id) {
        Some(naming::candidate(id, 1))
    } else if is_free(owners, id, id) {
        Some(id)
    } else {
        None
    }
}

/// The prefix that a thread gets: the shortest free one, or all of its identifier.
pub open spec fn allocated(owners: Map<Seq<char>, Seq<char>>, id: Seq<char>) -> Seq<char> {
    match free_prefix(owners, id) {
        Some(p) => p,
        None => id,
    }
}

/// The registry after a thread got its prefix.
pub open spec fn after_allocation(owners: Map<Seq<char>, Seq<char>>, id: Seq<char>) -> Map<
    Seq<char>,
    Seq<char>,
> {
    match free_prefix(owners, id) {
        Some(p) => owners.insert(p, id),
        None => owners,
    }
}

impl Registry {
    /// A registry in which no prefix has been given away.
    pub fn new() -> (r: Registry)
        ensures
            r@ == Map::<Seq<char>, Seq<char>>::empty(),
            is_registry(r@),
    {
        let r = Registry { owners: StringHashMap::new() };
        assert(r@ =~= Map::<Seq<char>, Seq<char>>::empty());
        r
    }

    /// Whether a prefix can be found for a thread.
    pub fn can_name(&self, id: &str) -> (r: bool)
        ensures
            r == can_allocate(self@, id@),
    {
        if !text::can_cut(id, 8) {
            return false;
        }
        text::can_cut(id, 12) || match self.owners.get(naming::candidate_prefix(id, 0)) {
            None => true,
            Some(owner) => text::same_text(owner.as_str(), id),
        }
    }

    /// Gives a thread its prefix.
    fn allocate(&mut self, id: &str) -> (r: String)
        requires
            can_allocate(old(self)@, id@),
        ensures
            r@ == allocated(old(self)@, id@),
            final(self)@ == after_allocation(old(self)@, id@),
    {
        let mut i: usize = 0;
        while i < naming::CANDIDATES
            invariant
                i <= naming::CANDIDATES,
                can_allocate(old(self)@, id@),
                self@ == old(self)@,
                forall|j: int|
                    0 <= j < i ==> !is_free(self@, #[trigger] naming::candidate(id@, j), id@),
            decreases naming::CANDIDATES - i,
        {
            proof {
                if i >= 1 {
                    assert(!is_free(self@, naming::candidate(id@, 0), id@));
                }
                if i >= 2 {
                    assert(!is_free(self@, naming::candidate(id@, 1), id@));
                }
            }
            let prefix = naming::candidate_prefix(id, i);
            match self.owners.get(prefix) {
                None => {
                    self.owners.insert(prefix.to_owned(), id.to_owned());
                    assert(self@ =~= old(self)@.insert(prefix@, id@));
                    return prefix.to_owned();
                },
                Some(owner) => {
                    if text::same_text(owner.as_str(), id) {
                        assert(self@ =~= old(self)@.insert(prefix@, id@));
                        return prefix.to_owned();
                    }
                },
            }
            i += 1;
        }
        assert(!is_free(self@, naming::candidate(id@, 0), id@));
        assert(!is_free(self@, naming::candidate(id@, 1), id@));
        assert(!is_free(self@, naming::candidate(id@, 2), id@));
        id.to_owned()
    }
}

/// The stem for a thread and a slug.
pub fn allocate_stem(id: &str, slug: &str, registry: &mut Registry) -> (r: String)
    requires
        can_allocate(old(registry)@, id@),
    ensures
        r@ == naming::stem_of(allocated(old(registry)@, id@), slug@),
        final(registry)@ == after_allocation(old(registry)@, id@),
        is_registry(old(registry)@) ==> is_registry(final(registry)@),
{
    proof {
        if is_registry(old(registry)@) {
            law_registry_is_kept(old(registry)@, id@);
        }
    }
    let prefix = registry.allocate(id);
    naming::make_stem(prefix.as_str(), slug)
}

/// The stem for a thread with this title. A file of that name is indexed under the prefix that the
/// thread got.
pub fn allocate_filename(id: &str, title: &str, registry: &mut Registry) -> (r: String)
    requires
        can_allocate(old(registry)@, id@),
    ensures
        r@ == naming::stem_of(allocated(old(registry)@, id@), naming::title_slug(title@)),
        final(registry)@ == after_allocation(old(registry)@, id@),
        is_registry(old(registry)@) ==> is_registry(final(registry)@),
        naming::is_slug(naming::title_slug(title@)),
        naming::tells_prefix(allocated(old(registry)@, id@), naming::title_slug(title@))
            ==> naming::file_prefix(naming::file_name(r@)) == Some(allocated(old(registry)@, id@)),
{
    let slug = naming::slug_of_title(title);
    proof {
        if naming::tells_prefix(allocated(old(registry)@, id@), slug@) {
            naming::law_file_is_indexed_by_prefix(allocated(old(registry)@, id@), slug@);
        }
    }
    allocate_stem(id, slug.as_str(), registry)
}

/// Giving out a prefix keeps the registry in order.
pub proof fn law_registry_is_kept(owners: Map<Seq<char>, Seq<char>>, id: Seq<char>)
    requires
        is_registry(owners),
        can_allocate(owners, id),
    ensures
        is_registry(after_allocation(owners, id)),
{
    let after = after_allocation(owners, id);
    assert forall|p: Seq<char>| #[trigger] after.contains_key(p) implies is_candidate(
        p,
        after[p],
    ) by {
        if free_prefix(owners, id) != Some(p) {
            assert(owners.contains_key(p));
        }
    }
}

/// A thread that asks again gets the same prefix, and the registry stays as it is.
pub proof fn law_allocation_is_stable(owners: Map<Seq<char>, Seq<char>>, id: Seq<char>)
    ensures
        allocated(after_allocation(owners, id), id) == allocated(owners, id),
        after_allocation(after_allocation(owners, id), id) == after_allocation(owners, id),
{
    let after = after_allocation(owners, id);
    assert(after_allocation(after, id) =~= after);
}

/// A file is named by one of its thread's candidates.
pub proof fn law_file_is_named_after_thread(
    owners: Map<Seq<char>, Seq<char>>,
    id: Seq<char>,
    slug: Seq<char>,
)
    requires
        can_allocate(owners, id),
    ensures
        naming::is_name_of(naming::file_name(naming::stem_of(allocated(owners, id), slug)), id),
{
    let p = allocated(owners, id);
    let i: int = if p == naming::candidate(id, 0) {
        0
    } else if p == naming::candidate(id, 1) && is_free(owners, naming::candidate(id, 1), id) {
        1
    } else {
        2
    };
    assert(p == naming::candidate(id, i));
    assert(naming::has_candidate(id, i));
    assert(naming::file_name(naming::stem_of(p, slug)) == naming::file_name(
        naming::stem_of(naming::candidate(id, i), slug),
    ));
}

/// The identifier is longer than the prefixes of other identifiers.
proof fn lemma_long_id_is_free(owners: Map<Seq<char>, Seq<char>>, id: Seq<char>)
    requires
        is_registry(owners),
        text::byte_len(id) > 12,
    ensures
        free_prefix(owners, id) is Some,
{
    if owners.contains_key(id) {
        let other = owners[id];
        assert(is_candidate(id, other));
        if naming::has_candidate(other, 0) {
            text::lemma_byte_prefix(other, 8);
        }
        if naming::has_candidate(other, 1) {
            text::lemma_byte_prefix(other, 12);
        }
    }
}

/// A prefix that was given to a thread is given to no other thread, as long as the other one's
/// identifier has more than twelve bytes.
pub proof fn law_prefix_belongs_to_one_thread(
    owners: Map<Seq<char>, Seq<char>>,
    prefix: Seq<char>,
    other: Seq<char>,
)
    requires
        is_registry(owners),
        owners.contains_key(prefix),
        owners[prefix] != other,
        text::byte_len(other) > 12,
    ensures
        allocated(owners, other) != prefix,
{
    lemma_long_id_is_free(owners, other);
}

/// The registry after threads got their prefixes, one after the other.
pub open spec fn registry_after(owners: Map<Seq<char>, Seq<char>>, ids: Seq<Seq<char>>) -> Map<
    Seq<char>,
    Seq<char>,
>
    decreases ids.len(),
{
    if ids.len() == 0 {
        owners
    } else {
        after_allocation(registry_after(owners, ids.drop_last()), ids.last())
    }
}

/// The prefix that the thread number `i` of a run gets.
pub open spec fn prefix_in_run(ids: Seq<Seq<char>>, i: int) -> Seq<char> {
    allocated(registry_after(Map::empty(), ids.take(i)), ids[i])
}

/// Identifiers of threads that a run can keep apart: they have more than twelve bytes and no
/// underscores, as UUIDs do, and can be cut into their candidates.
pub open spec fn are_run_ids(ids: Seq<Seq<char>>) -> bool {
    forall|i: int|
        0 <= i < ids.len() ==> naming::has_candidates(#[trigger] ids[i]) && text::byte_len(ids[i])
            > 12 && naming::has_no_underscore(ids[i])
}

/// The registry stays in order over a run.
pub proof fn law_registry_is_kept_over_a_run(
    owners: Map<Seq<char>, Seq<char>>,
    ids: Seq<Seq<char>>,
)
    requires
        is_registry(owners),
        forall|i: int| 0 <= i < ids.len() ==> naming::has_candidates(#[trigger] ids[i]),
    ensures
        is_registry(registry_after(owners, ids)),
    decreases ids.len(),
{
    if ids.len() > 0 {
        law_registry_is_kept_over_a_run(owners, ids.drop_last());
        assert(naming::has_candidates(ids[ids.len() - 1]));
        law_registry_is_kept(registry_after(owners, ids.drop_last()), ids.last());
    }
}

/// A prefix that was given to a thread stays with it, whichever threads ask afterwards.
pub proof fn law_owner_stays_over_a_run(
    owners: Map<Seq<char>, Seq<char>>,
    ids: Seq<Seq<char>>,
    prefix: Seq<char>,
)
    requires
        owners.contains_key(prefix),
    ensures
        registry_after(owners, ids).contains_key(prefix),
        registry_after(owners, ids)[prefix] == owners[prefix],
    decreases ids.len(),
{
    if ids.len() > 0 {
        law_owner_stays_over_a_run(owners, ids.drop_last(), prefix);
    }
}

/// A thread keeps its prefix, however many other threads get theirs in between.
pub proof fn law_prefix_is_kept_over_a_run(
    owners: Map<Seq<char>, Seq<char>>,
    id: Seq<char>,
    others: Seq<Seq<char>>,
)
    requires
        free_prefix(owners, id) is Some,
    ensures
        allocated(registry_after(after_allocation(owners, id), others), id) == allocated(
            owners,
            id,
        ),
{
    let after = after_allocation(owners, id);
    let p = allocated(owners, id);
    law_owner_stays_over_a_run(after, others, p);
    if p != naming::candidate(id, 0) {
        law_owner_stays_over_a_run(after, others, naming::candidate(id, 0));
        if p != naming::candidate(id, 1) {
            law_owner_stays_over_a_run(after, others, naming::candidate(id, 1));
        }
    }
}

proof fn lemma_registry_concat(
    owners: Map<Seq<char>, Seq<char>>,
    a: Seq<Seq<char>>,
    b: Seq<Seq<char>>,
)
    ensures
        registry_after(owners, a + b) == registry_after(registry_after(owners, a), b),
    decreases b.len(),
{
    if b.len() == 0 {
        assert(a + b =~= a);
    } else {
        assert((a + b).drop_last() =~= a + b.drop_last());
        assert((a + b).last() == b.last());
        lemma_registry_concat(owners, a, b.drop_last());
    }
}

/// Two threads of a run never get the same prefix, and are never exported to the same file, whatever
/// their titles are and however many threads come before, between and after them.
pub proof fn law_threads_get_different_files(
    ids: Seq<Seq<char>>,
    i: int,
    slug_i: Seq<char>,
    j: int,
    slug_j: Seq<char>,
)
    requires
        are_run_ids(ids),
        0 <= i < j < ids.len(),
        ids[i] != ids[j],
    ensures
        prefix_in_run(ids, i) != prefix_in_run(ids, j),
        naming::file_name(naming::stem_of(prefix_in_run(ids, i), slug_i)) != naming::file_name(
            naming::stem_of(prefix_in_run(ids, j), slug_j),
        ),
{
    let none = Map::<Seq<char>, Seq<char>>::empty();
    let before = registry_after(none, ids.take(i));
    let after = after_allocation(before, ids[i]);
    let between = ids.subrange(i + 1, j);
    let later = registry_after(none, ids.take(j));
    assert forall|k: int| 0 <= k < j implies naming::has_candidates(#[trigger] ids.take(j)[k]) by {
        assert(ids.take(j)[k] == ids[k]);
    }
    assert forall|k: int| 0 <= k < i implies naming::has_candidates(#[trigger] ids.take(i)[k]) by {
        assert(ids.take(i)[k] == ids[k]);
    }
    law_registry_is_kept_over_a_run(none, ids.take(i));
    law_registry_is_kept_over_a_run(none, ids.take(j));
    assert(ids.take(i + 1).drop_last() =~= ids.take(i));
    assert(ids.take(i + 1).last() == ids[i]);
    assert(registry_after(none, ids.take(i + 1)) == after);
    assert(ids.take(j) =~= ids.take(i + 1) + between);
    lemma_registry_concat(none, ids.take(i + 1), between);
    let p = prefix_in_run(ids, i);
    lemma_long_id_is_free(before, ids[i]);
    law_owner_stays_over_a_run(after, between, p);
    law_prefix_belongs_to_one_thread(later, p, ids[j]);
    naming::lemma_candidates_have_no_underscore(ids[i]);
    naming::lemma_candidates_have_no_underscore(ids[j]);
    naming::law_prefixes_keep_files_apart(p, slug_i, prefix_in_run(ids, j), slug_j);
}

// ---------------------------------------------------------------------------
// The index of existing files
// ---------------------------------------------------------------------------
/// The last of the names that has this prefix.
pub open spec fn last_with_prefix(names: Seq<String>, prefix: Seq<char>) -> Option<int>
    decreases names.len(),
{
    if names.len() == 0 {
        None
    } else if naming::file_prefix(names.last()@) == Some(prefix) {
        Some(names.len() - 1)
    } else {
        last_with_prefix(names.drop_last(), prefix)
    }
}

/// Each prefix that a name has leads to the last such name, and no other prefix leads anywhere.
pub open spec fn is_index(index: Map<Seq<char>, usize>, names: Seq<String>) -> bool {
    &&& forall|p: Seq<char>|
        #![trigger index.contains_key(p)]
        #![trigger last_with_prefix(names, p)]
        index.contains_key(p) <==> last_with_prefix(names, p) is Some
    &&& forall|p: Seq<char>| #[trigger]
        index.contains_key(p) ==> last_with_prefix(names, p) == Some(index[p] as int)
}

/// An index of existing files: prefix → number of the file.
pub struct FileIndex {
    files: StringHashMap<usize>,
}

impl View for FileIndex {
    type V = Map<Seq<char>, usize>;

    closed spec fn view(&self) -> Map<Seq<char>, usize> {
        self.files@
    }
}

/// Build an in-memory index of existing .md files: prefix → number of the name in the list.
/// The prefix is the portion of the filename before the first '_' (or before '.md' if no '_').
pub fn build_file_index(names: &Vec<String>) -> (r: FileIndex)
    ensures
        is_index(r@, names@),
{
    let mut files: StringHashMap<usize> = StringHashMap::new();
    let mut i: usize = 0;
    assert(names@.take(0) =~= Seq::empty());
    while i < names.len()
        invariant
            i <= names@.len(),
            forall|p: Seq<char>| #[trigger]
                files@.contains_key(p) <==> last_with_prefix(names@.take(i as int), p) is Some,
            forall|p: Seq<char>| #[trigger]
                files@.contains_key(p) ==> last_with_prefix(names@.take(i as int), p) == Some(
                    files@[p] as int,
                ),
        decreases names@.len() - i,
    {
        let ghost before = files@;
        match naming::prefix_of_file(names[i].as_str()) {
            Some(prefix) => files.insert(prefix, i),
            None => {},
        }
        proof {
            let t = names@.take(i as int + 1);
            assert(t.drop_last() =~= names@.take(i as int));
            assert(t.last() == names@[i as int]);
            assert forall|p: Seq<char>| #[trigger] files@.contains_key(p) <==> last_with_prefix(
                t,
                p,
            ) is Some by {
                assert(before.contains_key(p) <==> last_with_prefix(t.drop_last(), p) is Some);
            }
            assert forall|p: Seq<char>| #[trigger] files@.contains_key(p) implies last_with_prefix(
                t,
                p,
            ) == Some(files@[p] as int) by {
                assert(before.contains_key(p) ==> last_with_prefix(t.drop_last(), p) == Some(
                    before[p] as int,
                ));
            }
        }
        i += 1;
    }
    assert(names@.take(names@.len() as int) =~= names@);
    FileIndex { files }
}

/// A file with a prefix is found under it, or another one with that prefix behind it in the list is.
proof fn lemma_last_with_prefix(names: Seq<String>, k: int, prefix: Seq<char>)
    requires
        0 <= k < names.len(),
        naming::file_prefix(names[k]@) == Some(prefix),
    ensures
        last_with_prefix(names, prefix) matches Some(j) && k <= j < names.len()
            && naming::file_prefix(names[j]@) == Some(prefix),
    decreases names.len(),
{
    if naming::file_prefix(names.last()@) != Some(prefix) {
        assert(k < names.len() - 1);
        lemma_last_with_prefix(names.drop_last(), k, prefix);
    }
}

/// A file that was named after a prefix is found under it, or another one with that prefix behind
/// it in the list is.
pub proof fn law_exported_file_is_indexed(
    names: Seq<String>,
    k: int,
    prefix: Seq<char>,
    slug: Seq<char>,
)
    requires
        0 <= k < names.len(),
        names[k]@ == naming::file_name(naming::stem_of(prefix, slug)),
        naming::tells_prefix(prefix, slug),
        naming::is_slug(slug),
    ensures
        last_with_prefix(names, prefix) matches Some(j) && k <= j < names.len()
            && naming::file_prefix(names[j]@) == Some(prefix),
{
    naming::law_file_is_indexed_by_prefix(prefix, slug);
    lemma_last_with_prefix(names, k, prefix);
}

impl FileIndex {
    /// The file with this prefix.
    pub fn get(&self, prefix: &str) -> (r: Option<usize>)
        ensures
            r == (if self@.contains_key(prefix@) {
                Some(self@[prefix@])
            } else {
                None
            }),
    {
        match self.files.get(prefix) {
            Some(n) => Some(*n),
            None => None,
        }
    }

    /// Notes that the file with this prefix is now another one.
    pub fn insert(&mut self, prefix: &str, file: usize)
        ensures
            final(self)@ == old(self)@.insert(prefix@, file),
    {
        self.files.insert(prefix.to_owned(), file);
    }
}

// ---------------------------------------------------------------------------
// Decisions on one thread
// ---------------------------------------------------------------------------
/// Where a thread goes, and which file is already there for it.
pub struct ThreadPlan {
    pub stem: String,
    pub prefix: String,
    pub file_name: String,
    pub existing: Option<usize>,
}

/// Finds a name for a thread, and the existing file with the same prefix.
pub fn plan_thread(id: &str, title: &str, registry: &mut Registry, index: &FileIndex) -> (r:
    ThreadPlan)
    requires
        can_allocate(old(registry)@, id@),
    ensures
        r.stem@ == naming::stem_of(allocated(old(registry)@, id@), naming::title_slug(title@)),
        r.prefix@ == text::until(r.stem@, '_'),
        r.file_name@ == naming::file_name(r.stem@),
        r.existing == (if index@.contains_key(r.prefix@) {
            Some(index@[r.prefix@])
        } else {
            None
        }),
        final(registry)@ == after_allocation(old(registry)@, id@),
        is_registry(old(registry)@) ==> is_registry(final(registry)@),
        naming::has_no_underscore(allocated(old(registry)@, id@)) ==> r.prefix@ == allocated(
            old(registry)@,
            id@,
        ),
        naming::is_slug(naming::title_slug(title@)),
{
    let stem = allocate_filename(id, title, registry);
    proof {
        if naming::has_no_underscore(allocated(old(registry)@, id@)) {
            naming::law_stem_keeps_prefix(
                allocated(old(registry)@, id@),
                naming::title_slug(title@),
            );
        }
    }
    let prefix = naming::prefix_of_stem(stem.as_str());
    let existing = index.get(prefix.as_str());
    let file_name = naming::make_file_name(stem.as_str());
    ThreadPlan { stem, prefix, file_name, existing }
}

/// A thread needs no export: its file says that it holds this version of the thread or a later one,
/// made from a document with this hash, with or without context as is wanted now, and no export is
/// forced.
pub open spec fn is_up_to_date(
    force: bool,
    header: Option<FileHeader>,
    stored: Option<(i64, u32)>,
    content_hash: Seq<char>,
    include_context: bool,
) -> bool {
    match (header, stored) {
        (Some(h), Some(t)) => !force && timestamp::not_before(h.updated_at, t) && h.content_hash
            == Some(content_hash) && h.include_context == include_context,
        _ => false,
    }
}

/// The contents of a header that may be missing.
pub open spec fn opt_header(fm: Option<FileFrontmatter>) -> Option<FileHeader> {
    match fm {
        Some(fm) => Some(fm@),
        None => None,
    }
}

/// What to do with a thread.
#[derive(Debug, Clone, Copy, PartialEq, Eq, Structural)]
pub enum Decision {
    /// Leave its file as it is.
    Skip,
    /// Write its file, renaming the one from before where it has another name.
    Export { result: ProcessResult, rename: bool },
}

/// What to do with a thread, given the file from before, the timestamp in the thread's document, the
/// hash of that document and the name that the thread's file is to have.
pub open spec fn decision(
    force: bool,
    include_context: bool,
    existing: Option<(Seq<char>, Option<FileHeader>)>,
    stored: Option<(i64, u32)>,
    content_hash: Seq<char>,
    file_name: Seq<char>,
) -> Decision {
    match existing {
        Some((name, header)) => if is_up_to_date(
            force,
            header,
            stored,
            content_hash,
            include_context,
        ) {
            Decision::Skip
        } else {
            placed(Some(name), file_name)
        },
        None => placed(None, file_name),
    }
}

/// Whether a thread's file may be left as it is.
pub fn up_to_date(
    force: bool,
    frontmatter: Option<&FileFrontmatter>,
    stored: Option<&Timestamp>,
    content_hash: &str,
    include_context: bool,
) -> (r: bool)
    ensures
        r == is_up_to_date(
            force,
            (match frontmatter {
                Some(fm) => Some(fm@),
                None => None,
            }),
            (match stored {
                Some(t) => Some(t@),
                None => None,
            }),
            content_hash@,
            include_context,
        ),
{
    let fm = match frontmatter {
        Some(fm) => fm,
        None => {
            return false;
        },
    };
    let same_content = match &fm.content_hash {
        Some(h) => text::same_text(h.as_str(), content_hash),
        None => false,
    };
    match stored {
        Some(t) => !force && fm.updated_at.at_or_after(t) && same_content && fm.include_context
            == include_context,
        None => false,
    }
}

/// How a thread that is not up to date is written, given the name of the file from before.
pub open spec fn placed(existing: Option<Seq<char>>, file_name: Seq<char>) -> Decision {
    match existing {
        Some(name) => Decision::Export {
            result: ProcessResult::Updated,
            rename: name != file_name,
        },
        None => Decision::Export { result: ProcessResult::Created, rename: false },
    }
}

/// Decides how a thread that is not up to date is written.
pub fn placement(existing: Option<&str>, file_name: &str) -> (r: Decision)
    ensures
        r == placed(
            (match existing {
                Some(name) => Some(name@),
                None => None,
            }),
            file_name@,
        ),
{
    match existing {
        Some(name) => {
            let same = text::same_text(name, file_name);
            Decision::Export { result: ProcessResult::Updated, rename: !same }
        },
        None => Decision::Export { result: ProcessResult::Created, rename: false },
    }
}

/// Decides what to do with a thread that was exported before, given the name and the header of its
/// file.
pub fn decide(
    force: bool,
    include_context: bool,
    name: &str,
    frontmatter: Option<&FileFrontmatter>,
    stored: Option<&Timestamp>,
    content_hash: &str,
    file_name: &str,
) -> (r: Decision)
    ensures
        r == decision(
            force,
            include_context,
            Some(
                (
                    name@,
                    (match frontmatter {
                        Some(fm) => Some(fm@),
                        None => None,
                    }),
                ),
            ),
            (match stored {
                Some(t) => Some(t@),
                None => None,
            }),
            content_hash@,
            file_name@,
        ),
{
    if up_to_date(force, frontmatter, stored, content_hash, include_context) {
        Decision::Skip
    } else {
        placement(Some(name), file_name)
    }
}

/// What has been found out and done about a thread.
pub struct Progress {
    /// The header of the file from before, once it has been looked for.
    pub header: Option<Option<FileFrontmatter>>,
    /// The timestamp in the thread's document, once it has been looked for.
    pub stored: Option<Option<Timestamp>>,
    /// The file from before has been renamed, as far as that was possible.
    pub renamed: bool,
    /// Whether the document held a thread that could be written, once that has been tried.
    pub written: Option<bool>,
}

/// The contents of a [`Progress`].
pub struct ProgressSoFar {
    pub header: Option<Option<FileHeader>>,
    pub stored: Option<Option<(i64, u32)>>,
    pub renamed: bool,
    pub written: Option<bool>,
}

impl View for Progress {
    type V = ProgressSoFar;

    open spec fn view(&self) -> ProgressSoFar {
        ProgressSoFar {
            header: match self.header {
                Some(fm) => Some(opt_header(fm)),
                None => None,
            },
            stored: match self.stored {
                Some(t) => Some(timestamp::opt_instant(t)),
                None => None,
            },
            renamed: self.renamed,
            written: self.written,
        }
    }
}

/// What to do next about a thread.
#[derive(Debug, Clone, Copy, PartialEq, Eq, Structural)]
pub enum Action {
    /// Read the header of the file from before.
    ReadHeader,
    /// Read the timestamp in the thread's document.
    ReadTimestamp,
    /// Rename the file from before.
    Rename,
    /// Write the thread's file.
    Write,
    /// Remove the thread's file: the document holds no thread.
    Discard,
    /// Nothing: the thread is done.
    Finish(ProcessResult),
}

/// How far a decision has been carried out.
pub open spec fn carried_out(decision: Decision, progress: ProgressSoFar) -> Action {
    match decision {
        Decision::Skip => Action::Finish(ProcessResult::Skipped),
        Decision::Export { result, rename } => if rename && !progress.renamed {
            Action::Rename
        } else {
            match progress.written {
                None => Action::Write,
                Some(true) => Action::Finish(result),
                Some(false) => Action::Discard,
            }
        },
    }
}

/// What to do next about a thread, given the hash of its document, the name of the file from before
/// and the name that its file is to have. The header of the file from before is only of interest where the export is not
/// forced, and the thread's timestamp only beside such a header.
pub open spec fn action_after(
    force: bool,
    include_context: bool,
    content_hash: Seq<char>,
    existing: Option<Seq<char>>,
    file_name: Seq<char>,
    progress: ProgressSoFar,
) -> Action {
    match existing {
        Some(name) => {
            let header = if force {
                None
            } else {
                known(progress.header)
            };
            if !force && progress.header is None {
                Action::ReadHeader
            } else if header is Some && progress.stored is None {
                Action::ReadTimestamp
            } else {
                carried_out(
                    decision(
                        force,
                        include_context,
                        Some((name, header)),
                        known(progress.stored),
                        content_hash,
                        file_name,
                    ),
                    progress,
                )
            }
        },
        None => carried_out(placed(None, file_name), progress),
    }
}

/// What was found, where it was looked for and was there.
pub open spec fn known<T>(found: Option<Option<T>>) -> Option<T> {
    match found {
        Some(x) => x,
        None => None,
    }
}

impl Progress {
    /// Nothing is known and nothing has been done.
    pub fn new() -> (r: Progress)
        ensures
            r@ == (ProgressSoFar { header: None, stored: None, renamed: false, written: None }),
    {
        Progress { header: None, stored: None, renamed: false, written: None }
    }

    fn carry_out(&self, decision: Decision) -> (r: Action)
        ensures
            r == carried_out(decision, self@),
    {
        match decision {
            Decision::Skip => Action::Finish(ProcessResult::Skipped),
            Decision::Export { result, rename } => if rename && !self.renamed {
                Action::Rename
            } else {
                match self.written {
                    None => Action::Write,
                    Some(true) => Action::Finish(result),
                    Some(false) => Action::Discard,
                }
            },
        }
    }

    /// What to do next about a thread.
    pub fn next_action(
        &self,
        force: bool,
        include_context: bool,
        content_hash: &str,
        existing: Option<&str>,
        file_name: &str,
    ) -> (r: Action)
        ensures
            r == action_after(
                force,
                include_context,
                content_hash@,
                (match existing {
                    Some(name) => Some(name@),
                    None => None,
                }),
                file_name@,
                self@,
            ),
    {
        let name = match existing {
            Some(name) => name,
            None => {
                return self.carry_out(placement(None, file_name));
            },
        };
        let header = match &self.header {
            Some(fm) => match fm {
                Some(fm) => Some(fm),
                None => None,
            },
            None => {
                if !force {
                    return Action::ReadHeader;
                }
                None
            },
        };
        let header = if force {
            None
        } else {
            header
        };
        let stored = match &self.stored {
            Some(t) => match t {
                Some(t) => Some(t),
                None => None,
            },
            None => {
                if header.is_some() {
                    return Action::ReadTimestamp;
                }
                None
            },
        };
        self.carry_out(
            decide(force, include_context, name, header, stored, content_hash, file_name),
        )
    }
}

/// The line that is printed about a thread.
pub open spec fn report_text(result: ProcessResult, stem: Seq<char>) -> Seq<char> {
    (match result {
        ProcessResult::Created => "Created:  "@,
        ProcessResult::Updated => "Updated:  "@,
        ProcessResult::Skipped => "Skipped:  "@,
    }) + naming::file_name(stem)
}

/// The line that is printed about a thread.
pub fn report(result: ProcessResult, stem: &str) -> (r: String)
    ensures
        r@ == report_text(result, stem@),
{
    let name = naming::make_file_name(stem);
    match result {
        ProcessResult::Created => text::join("Created:  ", name.as_str()),
        ProcessResult::Updated => text::join("Updated:  ", name.as_str()),
        ProcessResult::Skipped => text::join("Skipped:  ", name.as_str()),
    }
}

// ---------------------------------------------------------------------------
// Laws of the decision
// ---------------------------------------------------------------------------
/// A thread that was not exported before is written, under its own name, and is never skipped,
/// whatever is known and done about it.
pub proof fn law_new_thread_is_created(
    force: bool,
    include_context: bool,
    stored: Option<(i64, u32)>,
    content_hash: Seq<char>,
    file_name: Seq<char>,
    progress: ProgressSoFar,
)
    ensures
        decision(force, include_context, None, stored, content_hash, file_name) == (
        Decision::Export { result: ProcessResult::Created, rename: false }),
        (match progress.written {
            None => action_after(force, include_context, content_hash, None, file_name, progress)
                == Action::Write,
            Some(true) => action_after(
                force,
                include_context,
                content_hash,
                None,
                file_name,
                progress,
            ) == Action::Finish(ProcessResult::Created),
            Some(false) => action_after(
                force,
                include_context,
                content_hash,
                None,
                file_name,
                progress,
            ) == Action::Discard,
        }),
{
}

/// A forced export skips nothing.
pub proof fn law_force_skips_nothing(
    include_context: bool,
    existing: Option<(Seq<char>, Option<FileHeader>)>,
    stored: Option<(i64, u32)>,
    content_hash: Seq<char>,
    file_name: Seq<char>,
)
    ensures
        decision(true, include_context, existing, stored, content_hash, file_name)
            != Decision::Skip,
{
}

/// A thread is skipped just where its file says that it is as recent as the thread, and that it was
/// made from this document with the present setting for context.
pub proof fn law_unchanged_thread_is_skipped(
    include_context: bool,
    name: Seq<char>,
    header: FileHeader,
    stored: (i64, u32),
    content_hash: Seq<char>,
    file_name: Seq<char>,
)
    ensures
        decision(
            false,
            include_context,
            Some((name, Some(header))),
            Some(stored),
            content_hash,
            file_name,
        ) == Decision::Skip <==> timestamp::not_before(header.updated_at, stored)
            && header.content_hash == Some(content_hash) && header.include_context
            == include_context,
{
}

/// A thread that was updated after its file was written is written again. So is one whose document
/// has changed, whatever its timestamp says, and one whose file was written with the other setting
/// for context.
pub proof fn law_changed_thread_is_exported(
    force: bool,
    include_context: bool,
    name: Seq<char>,
    header: FileHeader,
    stored: (i64, u32),
    content_hash: Seq<char>,
    file_name: Seq<char>,
)
    requires
        !timestamp::not_before(header.updated_at, stored) || header.content_hash != Some(
            content_hash,
        ) || header.include_context != include_context,
    ensures
        decision(
            force,
            include_context,
            Some((name, Some(header))),
            Some(stored),
            content_hash,
            file_name,
        ) == (Decision::Export { result: ProcessResult::Updated, rename: name != file_name }),
{
}

/// No file is touched for a thread that is up to date.
pub proof fn law_up_to_date_file_is_not_touched(
    force: bool,
    include_context: bool,
    content_hash: Seq<char>,
    existing: Option<Seq<char>>,
    file_name: Seq<char>,
    progress: ProgressSoFar,
)
    requires
        existing is Some,
        is_up_to_date(
            force,
            known(progress.header),
            known(progress.stored),
            content_hash,
            include_context,
        ),
    ensures
        action_after(force, include_context, content_hash, existing, file_name, progress)
            == Action::Finish(ProcessResult::Skipped),
{
}

/// A thread's file is written only once the file from before has the same name.
pub proof fn law_file_is_renamed_before_it_is_written(
    force: bool,
    include_context: bool,
    content_hash: Seq<char>,
    existing: Option<Seq<char>>,
    file_name: Seq<char>,
    progress: ProgressSoFar,
)
    requires
        action_after(force, include_context, content_hash, existing, file_name, progress)
            == Action::Write,
    ensures
        existing is None || existing == Some(file_name) || progress.renamed,
{
}

/// Nothing is done twice about a thread, so it is done after at most four actions.
pub proof fn law_no_action_is_repeated(
    force: bool,
    include_context: bool,
    content_hash: Seq<char>,
    existing: Option<Seq<char>>,
    file_name: Seq<char>,
    progress: ProgressSoFar,
)
    ensures
        (match action_after(force, include_context, content_hash, existing, file_name, progress) {
            Action::ReadHeader => progress.header is None,
            Action::ReadTimestamp => progress.stored is None,
            Action::Rename => !progress.renamed,
            Action::Write => progress.written is None,
            _ => true,
        }),
{
}

// ---------------------------------------------------------------------------
// The run
// ---------------------------------------------------------------------------
/// How many threads a run has created, updated, skipped and failed on.
#[derive(Debug, Clone, Copy, PartialEq, Eq, Default)]
pub struct RunCounts {
    pub created: u64,
    pub updated: u64,
    pub skipped: u64,
    pub errors: u64,
}

impl RunCounts {
    /// The number of threads that the run is through with.
    pub open spec fn handled(self) -> int {
        self.created + self.updated + self.skipped + self.errors
    }

    /// No thread yet.
    pub fn new() -> (r: RunCounts)
        ensures
            r.created == 0 && r.updated == 0 && r.skipped == 0 && r.errors == 0,
    {
        RunCounts { created: 0, updated: 0, skipped: 0, errors: 0 }
    }

    /// Whether one more thread can be counted.
    pub fn has_room(&self) -> (r: bool)
        ensures
            r == (self.handled() < u64::MAX),
    {
        let handled: u128 = self.created as u128 + self.updated as u128 + self.skipped as u128
            + self.errors as u128;
        handled < 0xffff_ffff_ffff_ffff
    }

    /// The counts with one more thread; `None` is a failure.
    pub open spec fn with(self, result: Option<ProcessResult>) -> RunCounts {
        match result {
            Some(ProcessResult::Created) => RunCounts {
                created: (self.created + 1) as u64,
                ..self
            },
            Some(ProcessResult::Updated) => RunCounts {
                updated: (self.updated + 1) as u64,
                ..self
            },
            Some(ProcessResult::Skipped) => RunCounts {
                skipped: (self.skipped + 1) as u64,
                ..self
            },
            None => RunCounts { errors: (self.errors + 1) as u64, ..self },
        }
    }

    /// Counts one thread; `None` is a failure.
    pub fn record(&mut self, result: Option<ProcessResult>)
        requires
            old(self).handled() < u64::MAX,
        ensures
            *final(self) == old(self).with(result),
            final(self).handled() == old(self).handled() + 1,
            final(self).created == old(self).created + (if result == Some(ProcessResult::Created) {
                1int
            } else {
                0
            }),
            final(self).updated == old(self).updated + (if result == Some(ProcessResult::Updated) {
                1int
            } else {
                0
            }),
            final(self).skipped == old(self).skipped + (if result == Some(ProcessResult::Skipped) {
                1int
            } else {
                0
            }),
            final(self).errors == old(self).errors + (if result is None {
                1int
            } else {
                0
            }),
    {
        match result {
            Some(ProcessResult::Created) => {
                self.created = self.created + 1;
            },
            Some(ProcessResult::Updated) => {
                self.updated = self.updated + 1;
            },
            Some(ProcessResult::Skipped) => {
                self.skipped = self.skipped + 1;
            },
            None => {
                self.errors = self.errors + 1;
            },
        }
    }

    /// The last line of the run.
    pub fn summary(&self) -> (r: String)
        ensures
            r@ == "Done. "@ + text::decimal(self.created as nat) + " created, "@ + text::decimal(
                self.updated as nat,
            ) + " updated, "@ + text::decimal(self.skipped as nat) + " skipped."@ + (
            if self.errors > 0 {
                " Completed with "@ + text::decimal(self.errors as nat) + " error(s)."@
            } else {
                Seq::empty()
            }),
    {
        let mut s = "Done. ".to_owned();
        text::push_decimal(&mut s, self.created);
        s.append(" created, ");
        text::push_decimal(&mut s, self.updated);
        s.append(" updated, ");
        text::push_decimal(&mut s, self.skipped);
        s.append(" skipped.");
        let ghost so_far = s@;
        if self.errors > 0 {
            s.append(" Completed with ");
            text::push_decimal(&mut s, self.errors);
            s.append(" error(s).");
            assert(s@ =~= so_far + (" Completed with "@ + text::decimal(self.errors as nat)
                + " error(s)."@));
        } else {
            assert(so_far + Seq::<char>::empty() =~= so_far);
        }
        s
    }
}

/// The counts of a run whose threads came to these results.
pub open spec fn run_counts(results: Seq<Option<ProcessResult>>) -> RunCounts
    decreases results.len(),
{
    if results.len() == 0 {
        RunCounts { created: 0, updated: 0, skipped: 0, errors: 0 }
    } else {
        run_counts(results.drop_last()).with(results.last())
    }
}

/// The counts of a run add up to the number of its threads.
pub proof fn law_counts_add_up(results: Seq<Option<ProcessResult>>)
    requires
        results.len() <= u64::MAX,
    ensures
        run_counts(results).handled() == results.len(),
    decreases results.len(),
{
    if results.len() > 0 {
        law_counts_add_up(results.drop_last());
    }
}

// ---------------------------------------------------------------------------
// The next run
// ---------------------------------------------------------------------------
/// The name of the file for the thread number `i` of a run.
pub open spec fn file_in_run(ids: Seq<Seq<char>>, titles: Seq<Seq<char>>, i: int) -> Seq<char> {
    naming::file_name(naming::stem_of(prefix_in_run(ids, i), naming::title_slug(titles[i])))
}

/// All that a run does about a thread is to read the header of its file and the timestamp in its
/// document.
pub open spec fn is_only_read(
    include_context: bool,
    content_hash: Seq<char>,
    existing: Seq<char>,
    file_name: Seq<char>,
    header: Option<FileHeader>,
    stored: Option<(i64, u32)>,
) -> bool {
    let nothing = ProgressSoFar { header: None, stored: None, renamed: false, written: None };
    let read = ProgressSoFar { header: Some(header), ..nothing };
    let known = ProgressSoFar { stored: Some(stored), ..read };
    let next = |progress: ProgressSoFar|
        action_after(false, include_context, content_hash, Some(existing), file_name, progress);
    &&& next(nothing) == Action::ReadHeader
    &&& next(read) == Action::ReadTimestamp
    &&& next(known) == Action::Finish(ProcessResult::Skipped)
}

/// A run writes the file of a thread again, under the name that it has.
pub open spec fn is_rewritten(
    include_context: bool,
    content_hash: Seq<char>,
    file_name: Seq<char>,
    header: Option<FileHeader>,
    stored: Option<(i64, u32)>,
) -> bool {
    let nothing = ProgressSoFar { header: None, stored: None, renamed: false, written: None };
    let read = ProgressSoFar { header: Some(header), ..nothing };
    let known = if header is Some {
        ProgressSoFar { stored: Some(stored), ..read }
    } else {
        read
    };
    let done = ProgressSoFar { written: Some(true), ..known };
    let next = |progress: ProgressSoFar|
        action_after(false, include_context, content_hash, Some(file_name), file_name, progress);
    &&& next(nothing) == Action::ReadHeader
    &&& header is Some ==> next(read) == Action::ReadTimestamp
    &&& next(known) == Action::Write
    &&& next(done) == Action::Finish(ProcessResult::Updated)
}

/// A run leaves the file of an unchanged thread as it was, name and content: all that it does is
/// read, or it writes under the name that the file has, and what is exported is the content that is
/// there.
pub open spec fn is_kept(
    name: Seq<char>,
    content: Seq<u8>,
    file_name: Seq<char>,
    header: Header,
    body: Seq<char>,
) -> bool {
    let found = utils::file_header(content);
    let stored = Some(header.updated_at);
    ||| is_only_read(
        header.include_context,
        header.content_hash,
        name,
        file_name,
        found,
        stored,
    )
    ||| {
        &&& name == file_name
        &&& is_rewritten(
            header.include_context,
            header.content_hash,
            file_name,
            found,
            stored,
        )
        &&& forall|new: Seq<u8>| #[trigger]
            exporter::is_export(header, body, new) ==> new == content
    }
}

/// The file with this name and content is what a run left for a thread with this prefix and slug: it
/// exported the thread into it, or left it alone because it was up to date.
pub open spec fn is_left_by_run(
    name: Seq<char>,
    content: Seq<u8>,
    prefix: Seq<char>,
    slug: Seq<char>,
    header: Header,
    body: Seq<char>,
) -> bool {
    ||| {
        &&& name == naming::file_name(naming::stem_of(prefix, slug))
        &&& naming::is_slug(slug)
        &&& naming::tells_prefix(prefix, slug)
        &&& exporter::is_export(header, body, content)
    }
    ||| {
        &&& naming::file_prefix(name) == Some(prefix)
        &&& is_up_to_date(
            false,
            utils::file_header(content),
            Some(header.updated_at),
            header.content_hash,
            header.include_context,
        )
    }
}

/// The file that a run left for a thread is found by the next one, where no other file has its
/// prefix, and where the thread is unchanged since, the file stays as it is. Where the header can be
/// read back, it is not even written.
pub proof fn law_exported_file_is_kept(
    names: Seq<String>,
    index: Map<Seq<char>, usize>,
    k: int,
    content: Seq<u8>,
    prefix: Seq<char>,
    slug: Seq<char>,
    header: Header,
    body: Seq<char>,
)
    requires
        0 <= k < names.len(),
        is_left_by_run(names[k]@, content, prefix, slug, header, body),
        forall|j: int|
            0 <= j < names.len() && j != k ==> naming::file_prefix((#[trigger] names[j])@) != Some(
                prefix,
            ),
        is_index(index, names),
    ensures
        naming::file_prefix(names[k]@) == Some(prefix),
        index.contains_key(prefix),
        index[prefix] == k,
        is_kept(
            names[k]@,
            content,
            naming::file_name(naming::stem_of(prefix, slug)),
            header,
            body,
        ),
        readback::has_readable_front(header) ==> is_only_read(
            header.include_context,
            header.content_hash,
            names[k]@,
            naming::file_name(naming::stem_of(prefix, slug)),
            utils::file_header(content),
            Some(header.updated_at),
        ),
{
    if naming::file_prefix(names[k]@) != Some(prefix) {
        naming::law_file_is_indexed_by_prefix(prefix, slug);
    }
    lemma_last_with_prefix(names, k, prefix);
}

/// A second run over the same threads changes nothing. After the first run each thread has its file:
/// the run named it by the prefix that it gave the thread and by the thread's title, and exported
/// into it, or it left an earlier file alone because that was up to date. The directory holds these
/// files, and others that share no prefix with them. Then the second run, which gives out the same
/// prefixes, finds each thread's file, and leaves it as it was. Where the header can be read back,
/// all that it does is read.
pub proof fn law_second_run_changes_nothing(
    ids: Seq<Seq<char>>,
    titles: Seq<Seq<char>>,
    headers: Seq<Header>,
    bodies: Seq<Seq<char>>,
    names: Seq<String>,
    contents: Seq<Seq<u8>>,
    places: Seq<int>,
    index: Map<Seq<char>, usize>,
)
    requires
        are_run_ids(ids),
        forall|i: int, j: int|
            0 <= i < j < ids.len() ==> #[trigger] ids[i] != #[trigger] ids[j],
        forall|i: int|
            0 <= i < ids.len() ==> {
                &&& 0 <= #[trigger] places[i] < names.len()
                &&& is_left_by_run(
                    names[places[i]]@,
                    contents[places[i]],
                    prefix_in_run(ids, i),
                    naming::title_slug(titles[i]),
                    headers[i],
                    bodies[i],
                )
            },
        forall|k: int|
            0 <= k < names.len() ==> is_file_of_run(ids, places, k) || is_foreign(
                ids,
                (#[trigger] names[k])@,
            ),
        is_index(index, names),
    ensures
        forall|i: int|
            0 <= i < ids.len() ==> {
                let prefix = #[trigger] prefix_in_run(ids, i);
                let k = places[i];
                let file_name = file_in_run(ids, titles, i);
                &&& index.contains_key(prefix)
                &&& index[prefix] == k
                &&& is_kept(names[k]@, contents[k], file_name, headers[i], bodies[i])
                &&& readback::has_readable_front(headers[i]) ==> is_only_read(
                    headers[i].include_context,
                    headers[i].content_hash,
                    names[k]@,
                    file_name,
                    utils::file_header(contents[k]),
                    Some(headers[i].updated_at),
                )
            },
{
    assert forall|i: int| 0 <= i < ids.len() implies {
        let prefix = #[trigger] prefix_in_run(ids, i);
        let k = places[i];
        let file_name = file_in_run(ids, titles, i);
        &&& index.contains_key(prefix)
        &&& index[prefix] == k
        &&& is_kept(names[k]@, contents[k], file_name, headers[i], bodies[i])
        &&& readback::has_readable_front(headers[i]) ==> is_only_read(
            headers[i].include_context,
            headers[i].content_hash,
            names[k]@,
            file_name,
            utils::file_header(contents[k]),
            Some(headers[i].updated_at),
        )
    } by {
        let prefix = prefix_in_run(ids, i);
        let k = places[i];
        let slug = naming::title_slug(titles[i]);
        assert forall|j: int| 0 <= j < names.len() && j != k implies naming::file_prefix(
            (#[trigger] names[j])@,
        ) != Some(prefix) by {
            if is_file_of_run(ids, places, j) {
                let m = choose|m: int| 0 <= m < ids.len() && #[trigger] places[m] == j;
                if naming::file_prefix(names[j]@) != Some(prefix_in_run(ids, m)) {
                    naming::law_file_is_indexed_by_prefix(
                        prefix_in_run(ids, m),
                        naming::title_slug(titles[m]),
                    );
                }
                if m < i {
                    law_threads_get_different_files(ids, m, slug, i, slug);
                } else {
                    law_threads_get_different_files(ids, i, slug, m, slug);
                }
            }
        }
        law_exported_file_is_kept(
            names,
            index,
            k,
            contents[k],
            prefix,
            slug,
            headers[i],
            bodies[i],
        );
    }
}

/// The file number `k` is that of a thread.
pub open spec fn is_file_of_run(ids: Seq<Seq<char>>, places: Seq<int>, k: int) -> bool {
    exists|i: int| 0 <= i < ids.len() && #[trigger] places[i] == k
}

/// The file has the prefix of no thread of the run.
pub open spec fn is_foreign(ids: Seq<Seq<char>>, name: Seq<char>) -> bool {
    forall|i: int|
        0 <= i < ids.len() ==> naming::file_prefix(name) != Some(#[trigger] prefix_in_run(ids, i))
}

// ---------------------------------------------------------------------------
// Laws
// ---------------------------------------------------------------------------

/// A thread gets the first eight bytes of its identifier, unless another thread has them; then the
/// first twelve; then all of it. What it gets is noted as its own, and nothing else changes.
pub proof fn law_shortest_free_prefix_is_given(
    owners: Map<Seq<char>, Seq<char>>,
    a: Seq<char>,
    b: Seq<char>,
    c: Seq<char>,
)
    requires
        encode_utf8(a).len() == 8,
        encode_utf8(b).len() == 4,
    ensures
        ({
            let id = a + b + c;
            let taken = |p: Seq<char>| owners.contains_key(p) && owners[p] != id;
            &&& can_allocate(owners, id)
            &&& !taken(a) ==> allocated(owners, id) == a && after_allocation(owners, id)
                == owners.insert(a, id)
            &&& taken(a) && !taken(a + b) ==> allocated(owners, id) == a + b && after_allocation(
                owners,
                id,
            ) == owners.insert(a + b, id)
            &&& taken(a) && taken(a + b) ==> allocated(owners, id) == id
            &&& taken(a) && taken(a + b) && !taken(id) ==> after_allocation(owners, id)
                == owners.insert(id, id)
            &&& taken(a) && taken(a + b) && taken(id) ==> after_allocation(owners, id) == owners
        }),
{
    lemma_cut_of_an_identifier(a, b, c);
}

proof fn lemma_cut_of_an_identifier(a: Seq<char>, b: Seq<char>, c: Seq<char>)
    requires
        encode_utf8(a).len() == 8,
        encode_utf8(b).len() == 4,
    ensures
        naming::has_candidate(a + b + c, 0),
        naming::has_candidate(a + b + c, 1),
        naming::candidate(a + b + c, 0) == a,
        naming::candidate(a + b + c, 1) == a + b,
        naming::candidate(a + b + c, 2) == a + b + c,
{
    text::lemma_encode_concat(a, b);
    naming::law_candidates(a, b + c);
    assert(a + (b + c) =~= a + b + c);
    naming::law_candidates(a + b, c);
}

/// An identifier of at most eight bytes is its own prefix, whoever has it.
pub proof fn law_short_identifier_is_its_prefix(owners: Map<Seq<char>, Seq<char>>, id: Seq<char>)
    requires
        encode_utf8(id).len() <= 8,
    ensures
        can_allocate(owners, id),
        allocated(owners, id) == id,
        !owners.contains_key(id) || owners[id] == id ==> after_allocation(owners, id)
            == owners.insert(id, id),
        owners.contains_key(id) && owners[id] != id ==> after_allocation(owners, id) == owners,
{
    naming::law_candidates(id, Seq::empty());
}

/// An identifier is turned down only where it cannot be cut at its eighth byte, or at its twelfth
/// where that matters.
pub proof fn law_identifiers_that_can_be_named(owners: Map<Seq<char>, Seq<char>>, id: Seq<char>)
    ensures
        naming::has_candidate(id, 0) && naming::has_candidate(id, 1) ==> can_allocate(owners, id),
        naming::has_candidate(id, 0) && !owners.contains_key(naming::candidate(id, 0))
            ==> can_allocate(owners, id),
        can_allocate(owners, id) ==> naming::has_candidate(id, 0),
{
}

/// A file is found under a prefix just where some name has that prefix, and it is the last such one.
pub proof fn law_last_file_with_a_prefix_is_found(
    index: Map<Seq<char>, usize>,
    names: Seq<String>,
    prefix: Seq<char>,
)
    requires
        is_index(index, names),
    ensures
        index.contains_key(prefix) <==> exists|k: int|
            0 <= k < names.len() && naming::file_prefix((#[trigger] names[k])@) == Some(prefix),
        index.contains_key(prefix) ==> {
            &&& index[prefix] < names.len()
            &&& naming::file_prefix(names[index[prefix] as int]@) == Some(prefix)
            &&& forall|j: int|
                index[prefix] < j < names.len() ==> naming::file_prefix((#[trigger] names[j])@)
                    != Some(prefix)
        },
{
    lemma_last_is_last(names, prefix);
    if exists|k: int|
        0 <= k < names.len() && naming::file_prefix((#[trigger] names[k])@) == Some(prefix) {
        let k = choose|k: int|
            0 <= k < names.len() && naming::file_prefix((#[trigger] names[k])@) == Some(prefix);
        lemma_last_with_prefix(names, k, prefix);
    }
}

proof fn lemma_last_is_last(names: Seq<String>, prefix: Seq<char>)
    ensures
        last_with_prefix(names, prefix) matches Some(k) ==> {
            &&& 0 <= k < names.len()
            &&& naming::file_prefix(names[k]@) == Some(prefix)
            &&& forall|j: int|
                k < j < names.len() ==> naming::file_prefix((#[trigger] names[j])@) != Some(prefix)
        },
    decreases names.len(),
{
    if names.len() > 0 && naming::file_prefix(names.last()@) != Some(prefix) {
        let rest = names.drop_last();
        lemma_last_is_last(rest, prefix);
        match last_with_prefix(rest, prefix) {
            Some(k) => {
                assert forall|j: int| k < j < names.len() implies naming::file_prefix(
                    (#[trigger] names[j])@,
                ) != Some(prefix) by {
                    if j < rest.len() {
                        assert(rest[j] == names[j]);
                    }
                }
            },
            None => {},
        }
    }
}

/// A file is up to date just where no export is forced and its header and the stored timestamp are
/// known, the one not earlier than the other, with the same hash and the same setting for context.
pub proof fn law_up_to_date(
    force: bool,
    header: Option<FileHeader>,
    stored: Option<(i64, u32)>,
    content_hash: Seq<char>,
    include_context: bool,
)
    ensures
        is_up_to_date(force, header, stored, content_hash, include_context) <==> {
            &&& !force
            &&& header is Some
            &&& stored is Some
            &&& {
                let (secs, nanos) = (header->0).updated_at;
                let (stored_secs, stored_nanos) = stored->0;
                secs > stored_secs || secs == stored_secs && nanos >= stored_nanos
            }
            &&& (header->0).content_hash == Some(content_hash)
            &&& (header->0).include_context == include_context
        },
{
}

/// A thread whose file is there and up to date is skipped; any other is exported: as an update of the
/// file from before, which is renamed where it has another name, or into a new file.
pub proof fn law_decision(
    force: bool,
    include_context: bool,
    name: Seq<char>,
    header: Option<FileHeader>,
    stored: Option<(i64, u32)>,
    content_hash: Seq<char>,
    file_name: Seq<char>,
)
    ensures
        decision(force, include_context, Some((name, header)), stored, content_hash, file_name)
            == (if is_up_to_date(force, header, stored, content_hash, include_context) {
            Decision::Skip
        } else {
            Decision::Export { result: ProcessResult::Updated, rename: name != file_name }
        }),
        decision(force, include_context, None, stored, content_hash, file_name)
            == (Decision::Export { result: ProcessResult::Created, rename: false }),
        placed(Some(name), file_name) == (Decision::Export {
            result: ProcessResult::Updated,
            rename: name != file_name,
        }),
        placed(None, file_name) == (Decision::Export {
            result: ProcessResult::Created,
            rename: false,
        }),
{
}

/// What is done about a thread that has a file from before, step by step. Unless the export is forced
/// the header of that file is read, and beside a header the timestamp in the thread's document. An
/// up-to-date file is left alone. Any other is renamed where it has another name, and written; where
/// the document holds no thread, it is removed.
pub proof fn law_steps_of_an_update(
    force: bool,
    include_context: bool,
    content_hash: Seq<char>,
    name: Seq<char>,
    file_name: Seq<char>,
    progress: ProgressSoFar,
)
    ensures
        ({
            let next = action_after(
                force,
                include_context,
                content_hash,
                Some(name),
                file_name,
                progress,
            );
            if !force && progress.header is None {
                next == Action::ReadHeader
            } else if !force && progress.header->0 is Some && progress.stored is None {
                next == Action::ReadTimestamp
            } else if !force && progress.header->0 is Some && progress.stored->0 is Some
                && is_up_to_date(
                false,
                progress.header->0,
                progress.stored->0,
                content_hash,
                include_context,
            ) {
                next == Action::Finish(ProcessResult::Skipped)
            } else if name != file_name && !progress.renamed {
                next == Action::Rename
            } else if progress.written is None {
                next == Action::Write
            } else if progress.written == Some(true) {
                next == Action::Finish(ProcessResult::Updated)
            } else {
                next == Action::Discard
            }
        }),
{
}

/// What is known and done about a thread, field by field.
pub proof fn law_fields_of_a_progress(p: Progress)
    ensures
        p@.header is Some <==> p.header is Some,
        p.header matches Some(fm) ==> (match fm {
            Some(fm) => p@.header == Some(Some(fm@)),
            None => p@.header == Some(None::<FileHeader>),
        }),
        p@.stored is Some <==> p.stored is Some,
        p.stored matches Some(t) ==> (match t {
            Some(t) => p@.stored == Some(Some(t@)),
            None => p@.stored == Some(None::<(i64, u32)>),
        }),
        p@.renamed == p.renamed,
        p@.written == p.written,
{
}

/// The contents of a header that may be missing.
pub proof fn law_opt_header(fm: FileFrontmatter)
    ensures
        opt_header(Some(fm)) == Some(fm@),
        opt_header(None) is None,
{
}

/// The line about a thread names what was done and the thread's file.
pub proof fn law_reports(stem: Seq<char>)
    ensures
        report_text(ProcessResult::Created, stem) == "Created:  "@ + stem + ".md"@,
        report_text(ProcessResult::Updated, stem) == "Updated:  "@ + stem + ".md"@,
        report_text(ProcessResult::Skipped, stem) == "Skipped:  "@ + stem + ".md"@,
{
    assert("Created:  "@ + (stem + ".md"@) =~= "Created:  "@ + stem + ".md"@);
    assert("Updated:  "@ + (stem + ".md"@) =~= "Updated:  "@ + stem + ".md"@);
    assert("Skipped:  "@ + (stem + ".md"@) =~= "Skipped:  "@ + stem + ".md"@);
}

/// Each count of a run is the number of threads that came to that result.
pub proof fn law_each_result_is_counted(results: Seq<Option<ProcessResult>>)
    requires
        results.len() <= u64::MAX,
    ensures
        ({
            let n = |r: Option<ProcessResult>|
                results.filter(|x: Option<ProcessResult>| x == r).len();
            let counts = run_counts(results);
            &&& counts.created == n(Some(ProcessResult::Created))
            &&& counts.updated == n(Some(ProcessResult::Updated))
            &&& counts.skipped == n(Some(ProcessResult::Skipped))
            &&& counts.errors == n(None)
        }),
    decreases results.len(),
{
    reveal(Seq::filter);
    if results.len() > 0 {
        law_each_result_is_counted(results.drop_last());
        law_counts_add_up(results.drop_last());
    }
}

/// One more thread is counted by what it came to.
pub proof fn law_one_more_result(counts: RunCounts, result: Option<ProcessResult>)
    requires
        counts.handled() < u64::MAX,
    ensures
        ({
            let after = counts.with(result);
            let one = |r: Option<ProcessResult>|
                if result == r {
                    1int
                } else {
                    0
                };
            &&& after.created == counts.created + one(Some(ProcessResult::Created))
            &&& after.updated == counts.updated + one(Some(ProcessResult::Updated))
            &&& after.skipped == counts.skipped + one(Some(ProcessResult::Skipped))
            &&& after.errors == counts.errors + one(None)
        }),
        counts.handled() == counts.created + counts.updated + counts.skipped + counts.errors,
{
}

/// A thread gets the shortest of its candidates that no other thread has, or else all of its
/// identifier.
pub proof fn law_candidates_are_given_in_order(owners: Map<Seq<char>, Seq<char>>, id: Seq<char>)
    ensures
        ({
            let taken = |p: Seq<char>| owners.contains_key(p) && owners[p] != id;
            let first = naming::candidate(id, 0);
            let second = naming::candidate(id, 1);
            let given = allocated(owners, id);
            let after = after_allocation(owners, id);
            if !taken(first) {
                given == first && after == owners.insert(first, id)
            } else if !taken(second) {
                given == second && after == owners.insert(second, id)
            } else if !taken(id) {
                given == id && after == owners.insert(id, id)
            } else {
                given == id && after == owners
            }
        }),
        can_allocate(owners, id) <==> naming::has_candidate(id, 0) && (naming::has_candidate(id, 1)
            || !owners.contains_key(naming::candidate(id, 0))
            || owners[naming::candidate(id, 0)] == id),
{
}

} // verus!
