//! The YAML header of an exported document.
use crate::text;
use crate::timestamp;
use crate::timestamp::Timestamp;
use crate::yaml;
use crate::yaml::{YamlNode, YamlValue};
use vstd::prelude::*;
use vstd::utf8::*;

verus! {

/// The state of the repository that a thread was started in.
#[derive(Debug, Clone)]
pub struct GitMetadata {
    pub path: String,
    pub remote: Option<String>,
    pub branch: Option<String>,
    pub commit: Option<String>,
}

/// What a document's header says.
#[derive(Debug, Clone)]
pub struct Frontmatter {
    pub title: String,
    pub updated_at: Timestamp,
    pub model: Option<String>,
    pub tags: Option<Vec<String>>,
    pub git: Option<GitMetadata>,
    pub content_hash: String,
    pub include_context: bool,
    pub id: String,
}

/// The contents of a [`GitMetadata`].
pub struct GitHeader {
    pub path: Seq<char>,
    pub remote: Option<Seq<char>>,
    pub branch: Option<Seq<char>>,
    pub commit: Option<Seq<char>>,
}

/// The contents of a [`Frontmatter`].
pub struct Header {
    pub title: Seq<char>,
    pub updated_at: (i64, u32),
    pub model: Option<Seq<char>>,
    pub tags: Option<Seq<Seq<char>>>,
    pub git: Option<GitHeader>,
    pub content_hash: Seq<char>,
    pub include_context: bool,
    pub id: Seq<char>,
}

impl View for GitMetadata {
    type V = GitHeader;

    open spec fn view(&self) -> GitHeader {
        GitHeader {
            path: self.path@,
            remote: text::opt_text(self.remote),
            branch: text::opt_text(self.branch),
            commit: text::opt_text(self.commit),
        }
    }
}

impl View for Frontmatter {
    type V = Header;

    open spec fn view(&self) -> Header {
        Header {
            title: self.title@,
            updated_at: self.updated_at@,
            model: text::opt_text(self.model),
            tags: match self.tags {
                Some(v) => Some(yaml::texts(v@)),
                None => None,
            },
            git: match self.git {
                Some(g) => Some(g@),
                None => None,
            },
            content_hash: self.content_hash@,
            include_context: self.include_context,
            id: self.id@,
        }
    }
}

/// Why a thread could not be rendered.
#[derive(Debug)]
pub enum ExportError {
    /// The header could not be written as YAML.
    Yaml(serde_yaml::Error),
}

/// The entry for a text that may be missing.
pub open spec fn opt_entry(key: Seq<char>, v: Option<Seq<char>>) -> Seq<(Seq<char>, YamlNode)> {
    match v {
        Some(s) => seq![(key, YamlNode::Text(s))],
        None => Seq::empty(),
    }
}

/// What a text that may be missing adds to the size of a header.
pub open spec fn opt_size(v: Option<Seq<char>>) -> nat {
    match v {
        Some(s) => yaml::scalar_size(s),
        None => 0,
    }
}

/// What the keys and the timestamp add to the size of a header, at most.
pub const KEYS_SIZE: usize = 512;

/// A text that may be missing ends its line in YAML.
pub open spec fn opt_ends_its_line(v: Option<Seq<char>>) -> bool {
    match v {
        Some(s) => !yaml::runs_on(s),
        None => true,
    }
}

/// A text that may be missing does not look like the end of a header.
pub open spec fn opt_is_fence_free(v: Option<Seq<char>>) -> bool {
    match v {
        Some(s) => yaml::is_fence_free(s),
        None => true,
    }
}

impl GitHeader {
    /// The entries about the repository.
    pub open spec fn fields(self) -> Seq<(Seq<char>, YamlNode)> {
        seq![("path"@, YamlNode::Text(self.path))] + opt_entry("remote"@, self.remote) + opt_entry(
            "branch"@,
            self.branch,
        ) + opt_entry("commit"@, self.commit)
    }

    /// The size of the texts about the repository.
    pub open spec fn size(self) -> nat {
        yaml::scalar_size(self.path) + opt_size(self.remote) + opt_size(self.branch) + opt_size(
            self.commit,
        )
    }

    /// No text about the repository looks like the end of a header.
    pub open spec fn is_fence_free(self) -> bool {
        yaml::is_fence_free(self.path) && opt_is_fence_free(self.remote) && opt_is_fence_free(
            self.branch,
        ) && opt_is_fence_free(self.commit)
    }

    pub open spec fn ends_its_lines(self) -> bool {
        !yaml::runs_on(self.path) && opt_ends_its_line(self.remote) && opt_ends_its_line(
            self.branch,
        ) && opt_ends_its_line(self.commit)
    }
}

impl Header {
    /// The entry for the tags, which may be none or missing.
    pub open spec fn tags_entry(self) -> Seq<(Seq<char>, YamlNode)> {
        match self.tags {
            Some(v) => seq![("tags"@, YamlNode::List(v))],
            None => Seq::empty(),
        }
    }

    /// The entry for the repository, where it is known.
    pub open spec fn git_entry(self) -> Seq<(Seq<char>, YamlNode)> {
        match self.git {
            Some(g) => seq![("git"@, YamlNode::Table(g.fields()))],
            None => Seq::empty(),
        }
    }

    /// The entry that marks a document with the content of its mentions.
    pub open spec fn context_entry(self) -> Seq<(Seq<char>, YamlNode)> {
        if self.include_context {
            seq![("include_context"@, YamlNode::Flag(true))]
        } else {
            Seq::empty()
        }
    }

    /// The entries of the header, in order.
    pub open spec fn fields(self) -> Seq<(Seq<char>, YamlNode)> {
        self.front_fields() + seq![("id"@, YamlNode::Text(self.id))]
    }

    /// The entries before the identifier.
    pub open spec fn front_fields(self) -> Seq<(Seq<char>, YamlNode)> {
        seq![("title"@, YamlNode::Text(self.title))] + seq![
            (
                "updated_at"@,
                YamlNode::Text(timestamp::instant_text(self.updated_at.0, self.updated_at.1)),
            ),
        ] + opt_entry("model"@, self.model) + self.tags_entry() + self.git_entry() + seq![
            ("content_hash"@, YamlNode::Text(self.content_hash)),
        ] + self.context_entry()
    }

    /// The size of the texts of the header.
    pub open spec fn size(self) -> nat {
        yaml::scalar_size(self.title) + opt_size(self.model) + (match self.tags {
            Some(v) => yaml::list_size(v),
            None => 0,
        }) + (match self.git {
            Some(g) => g.size(),
            None => 0,
        }) + yaml::scalar_size(self.content_hash) + yaml::scalar_size(self.id)
    }

    /// The header has a size that YAML can take.
    pub open spec fn fits(self) -> bool {
        self.size() + KEYS_SIZE <= yaml::SIZE_LIMIT
    }

    /// No text of the header looks like its end.
    pub open spec fn is_fence_free(self) -> bool {
        &&& yaml::is_fence_free(self.title)
        &&& opt_is_fence_free(self.model)
        &&& self.tags matches Some(v) ==> forall|i: int|
            0 <= i < v.len() ==> yaml::is_fence_free(#[trigger] v[i])
        &&& self.git matches Some(g) ==> g.is_fence_free()
    }

    /// No text of the header swallows the newline behind it.
    pub open spec fn ends_its_lines(self) -> bool {
        &&& !yaml::runs_on(self.title)
        &&& opt_ends_its_line(self.model)
        &&& self.tags matches Some(v) ==> forall|i: int|
            0 <= i < v.len() ==> !yaml::runs_on(#[trigger] v[i])
        &&& self.git matches Some(g) ==> g.ends_its_lines()
    }
}

// ---------------------------------------------------------------------------
// Lemmas
// ---------------------------------------------------------------------------
/// The place of a key in a header. No two keys share one.
spec fn key_rank(k: Seq<char>) -> int {
    if k == "title"@ {
        0
    } else if k == "updated_at"@ {
        1
    } else if k == "model"@ {
        2
    } else if k == "tags"@ {
        3
    } else if k == "git"@ {
        4
    } else if k == "content_hash"@ {
        5
    } else if k == "include_context"@ {
        6
    } else {
        7
    }
}

proof fn lemma_key_ranks()
    ensures
        key_rank("title"@) == 0,
        key_rank("updated_at"@) == 1,
        key_rank("model"@) == 2,
        key_rank("tags"@) == 3,
        key_rank("git"@) == 4,
        key_rank("content_hash"@) == 5,
        key_rank("include_context"@) == 6,
        key_rank("id"@) == 7,
        "path"@ != "remote"@,
        "path"@ != "branch"@,
        "path"@ != "commit"@,
        "remote"@ != "branch"@,
        "remote"@ != "commit"@,
        "branch"@ != "commit"@,
{
    reveal_strlit("title");
    reveal_strlit("updated_at");
    reveal_strlit("content_hash");
    reveal_strlit("model");
    reveal_strlit("tags");
    reveal_strlit("git");
    reveal_strlit("include_context");
    reveal_strlit("id");
    reveal_strlit("path");
    reveal_strlit("remote");
    reveal_strlit("branch");
    reveal_strlit("commit");
    assert("title"@.len() == 5 && "updated_at"@.len() == 10 && "model"@.len() == 5);
    assert("tags"@.len() == 4 && "git"@.len() == 3 && "include_context"@.len() == 15);
    assert("id"@.len() == 2 && "path"@.len() == 4 && "content_hash"@.len() == 12);
    assert("title"@[0] != "model"@[0]);
    assert("remote"@[0] != "branch"@[0]);
    assert("remote"@[0] != "commit"@[0]);
    assert("branch"@[0] != "commit"@[0]);
}

proof fn lemma_key_sizes()
    ensures
        yaml::scalar_size("title"@) <= 21,
        yaml::scalar_size("updated_at"@) <= 41,
        yaml::scalar_size("content_hash"@) <= 49,
        yaml::scalar_size("include_context"@) <= 61,
        yaml::scalar_size("model"@) <= 21,
        yaml::scalar_size("tags"@) <= 17,
        yaml::scalar_size("git"@) <= 13,
        yaml::scalar_size("id"@) <= 9,
        yaml::scalar_size("path"@) <= 17,
        yaml::scalar_size("remote"@) <= 25,
        yaml::scalar_size("branch"@) <= 25,
        yaml::scalar_size("commit"@) <= 25,
{
    reveal_strlit("title");
    reveal_strlit("updated_at");
    reveal_strlit("content_hash");
    reveal_strlit("model");
    reveal_strlit("tags");
    reveal_strlit("git");
    reveal_strlit("include_context");
    reveal_strlit("id");
    reveal_strlit("path");
    reveal_strlit("remote");
    reveal_strlit("branch");
    reveal_strlit("commit");
    text::lemma_byte_len_bound("title"@);
    text::lemma_byte_len_bound("updated_at"@);
    text::lemma_byte_len_bound("content_hash"@);
    text::lemma_byte_len_bound("model"@);
    text::lemma_byte_len_bound("tags"@);
    text::lemma_byte_len_bound("git"@);
    text::lemma_byte_len_bound("include_context"@);
    text::lemma_byte_len_bound("id"@);
    text::lemma_byte_len_bound("path"@);
    text::lemma_byte_len_bound("remote"@);
    text::lemma_byte_len_bound("branch"@);
    text::lemma_byte_len_bound("commit"@);
}

proof fn lemma_opt_entry_size(key: Seq<char>, v: Option<Seq<char>>)
    ensures
        yaml::fields_size(opt_entry(key, v)) <= opt_size(v) + yaml::scalar_size(key),
{
    match v {
        Some(s) => yaml::lemma_fields_size_one(key, YamlNode::Text(s)),
        None => {},
    }
}

proof fn lemma_git_size(g: GitHeader)
    ensures
        yaml::fields_size(g.fields()) <= g.size() + 92,
{
    lemma_key_sizes();
    let a = seq![("path"@, YamlNode::Text(g.path))];
    let b = opt_entry("remote"@, g.remote);
    let c = opt_entry("branch"@, g.branch);
    let d = opt_entry("commit"@, g.commit);
    yaml::lemma_fields_size_one("path"@, YamlNode::Text(g.path));
    lemma_opt_entry_size("remote"@, g.remote);
    lemma_opt_entry_size("branch"@, g.branch);
    lemma_opt_entry_size("commit"@, g.commit);
    yaml::lemma_fields_size_concat(a, b);
    yaml::lemma_fields_size_concat(a + b, c);
    yaml::lemma_fields_size_concat(a + b + c, d);
}

/// A header whose texts fit is one that YAML can write.
proof fn lemma_fields_fit(h: Header)
    requires
        h.fits(),
        timestamp::instant_text(h.updated_at.0, h.updated_at.1).len() <= 40,
    ensures
        yaml::fields_fit(h.fields()),
{
    lemma_key_sizes();
    let t = timestamp::instant_text(h.updated_at.0, h.updated_at.1);
    text::lemma_byte_len_bound(t);
    let a = seq![("title"@, YamlNode::Text(h.title))];
    let b = seq![("updated_at"@, YamlNode::Text(t))];
    let c = opt_entry("model"@, h.model);
    let d = h.tags_entry();
    let e = h.git_entry();
    let f = seq![("content_hash"@, YamlNode::Text(h.content_hash))];
    let g = h.context_entry();
    let i = seq![("id"@, YamlNode::Text(h.id))];
    yaml::lemma_fields_size_one("title"@, YamlNode::Text(h.title));
    yaml::lemma_fields_size_one("updated_at"@, YamlNode::Text(t));
    lemma_opt_entry_size("model"@, h.model);
    match h.tags {
        Some(v) => yaml::lemma_fields_size_one("tags"@, YamlNode::List(v)),
        None => {},
    }
    match h.git {
        Some(git) => {
            yaml::lemma_fields_size_one("git"@, YamlNode::Table(git.fields()));
            lemma_git_size(git);
        },
        None => {},
    }
    yaml::lemma_fields_size_one("content_hash"@, YamlNode::Text(h.content_hash));
    if h.include_context {
        yaml::lemma_fields_size_one("include_context"@, YamlNode::Flag(true));
    }
    yaml::lemma_fields_size_one("id"@, YamlNode::Text(h.id));
    yaml::lemma_fields_size_concat(a, b);
    yaml::lemma_fields_size_concat(a + b, c);
    yaml::lemma_fields_size_concat(a + b + c, d);
    yaml::lemma_fields_size_concat(a + b + c + d, e);
    yaml::lemma_fields_size_concat(a + b + c + d + e, f);
    yaml::lemma_fields_size_concat(a + b + c + d + e + f, g);
    yaml::lemma_fields_size_concat(h.front_fields(), i);
}

// ---------------------------------------------------------------------------
// Writing
// ---------------------------------------------------------------------------
/// A copy of a string that may be missing.
pub fn copy_opt(v: &Option<String>) -> (r: Option<String>)
    ensures
        text::opt_text(r) == text::opt_text(*v),
{
    match v {
        Some(s) => Some(s.clone()),
        None => None,
    }
}

/// A copy of a list of strings.
pub fn copy_strings(v: &[String]) -> (r: Vec<String>)
    ensures
        yaml::texts(r@) == yaml::texts(v@),
{
    let mut out: Vec<String> = Vec::new();
    let mut i: usize = 0;
    while i < v.len()
        invariant
            i <= v@.len(),
            out@.len() == i,
            forall|j: int| 0 <= j < i ==> (#[trigger] out@[j])@ == v@[j]@,
        decreases v@.len() - i,
    {
        out.push(v[i].clone());
        i += 1;
    }
    assert(yaml::texts(out@) =~= yaml::texts(v@));
    out
}

/// A size, or one more than any that is of interest.
spec fn capped(n: int) -> int {
    if n <= yaml::SIZE_LIMIT {
        n
    } else {
        yaml::SIZE_LIMIT + 1
    }
}

fn add_text(total: usize, s: &str) -> (r: usize)
    requires
        total <= yaml::SIZE_LIMIT + 1,
    ensures
        r == capped(total + yaml::scalar_size(s@)),
{
    let len = s.as_bytes().len();
    if total > yaml::SIZE_LIMIT || len >= yaml::SIZE_LIMIT - total {
        yaml::SIZE_LIMIT + 1
    } else {
        total + len + 1
    }
}

fn add_opt(total: usize, v: &Option<String>) -> (r: usize)
    requires
        total <= yaml::SIZE_LIMIT + 1,
    ensures
        r == capped(total + opt_size(text::opt_text(*v))),
{
    match v {
        Some(s) => add_text(total, s.as_str()),
        None => total,
    }
}

fn add_texts(total: usize, v: &Vec<String>) -> (r: usize)
    requires
        total <= yaml::SIZE_LIMIT + 1,
    ensures
        r == capped(total + yaml::list_size(yaml::texts(v@))),
{
    let ghost t = yaml::texts(v@);
    let mut sum: usize = total;
    let mut i: usize = 0;
    assert(t.take(0) =~= Seq::empty());
    while i < v.len()
        invariant
            i <= v@.len(),
            t == yaml::texts(v@),
            total <= yaml::SIZE_LIMIT + 1,
            sum == capped(total + yaml::list_size(t.take(i as int))),
        decreases v@.len() - i,
    {
        assert(t.take(i as int + 1).drop_last() =~= t.take(i as int));
        assert(t.take(i as int + 1).last() == v@[i as int]@);
        sum = add_text(sum, v[i].as_str());
        i += 1;
    }
    assert(t.take(t.len() as int) =~= t);
    sum
}

impl GitMetadata {
    fn to_mapping(&self) -> (m: serde_yaml::Mapping)
        ensures
            yaml::yaml_fields(m) == self@.fields(),
    {
        proof {
            lemma_key_ranks();
        }
        let mut m = yaml::new_mapping();
        yaml::insert(&mut m, "path", YamlValue::Text(self.path.clone()));
        match &self.remote {
            Some(s) => yaml::insert(&mut m, "remote", YamlValue::Text(s.clone())),
            None => {},
        }
        assert(yaml::yaml_fields(m) =~= seq![("path"@, YamlNode::Text(self@.path))] + opt_entry(
            "remote"@,
            self@.remote,
        ));
        match &self.branch {
            Some(s) => yaml::insert(&mut m, "branch", YamlValue::Text(s.clone())),
            None => {},
        }
        assert(yaml::yaml_fields(m) =~= seq![("path"@, YamlNode::Text(self@.path))] + opt_entry(
            "remote"@,
            self@.remote,
        ) + opt_entry("branch"@, self@.branch));
        match &self.commit {
            Some(s) => yaml::insert(&mut m, "commit", YamlValue::Text(s.clone())),
            None => {},
        }
        assert(yaml::yaml_fields(m) =~= self@.fields());
        m
    }

    fn add_size(&self, total: usize) -> (r: usize)
        requires
            total <= yaml::SIZE_LIMIT + 1,
        ensures
            r == capped(total + self@.size()),
    {
        let total: usize = add_text(total, self.path.as_str());
        let total: usize = add_opt(total, &self.remote);
        let total: usize = add_opt(total, &self.branch);
        add_opt(total, &self.commit)
    }
}

/// All keys of `f` come before the key with rank `n`.
spec fn ranks_below(f: Seq<(Seq<char>, YamlNode)>, n: int) -> bool {
    forall|i: int| 0 <= i < f.len() ==> key_rank((#[trigger] f[i]).0) < n
}

impl Frontmatter {
    /// Whether the header has a size that YAML can take.
    pub fn fits(&self) -> (r: bool)
        ensures
            r == self@.fits(),
    {
        let total: usize = add_text(KEYS_SIZE, self.title.as_str());
        let total: usize = add_opt(total, &self.model);
        let total: usize = match &self.tags {
            Some(v) => add_texts(total, v),
            None => total,
        };
        let total: usize = match &self.git {
            Some(g) => g.add_size(total),
            None => total,
        };
        let total: usize = add_text(total, self.content_hash.as_str());
        let total: usize = add_text(total, self.id.as_str());
        total <= yaml::SIZE_LIMIT
    }

    /// The header as a mapping, with its timestamp written as `updated_at`.
    fn to_mapping(&self, updated_at: String) -> (m: serde_yaml::Mapping)
        requires
            updated_at@ == timestamp::instant_text(self.updated_at@.0, self.updated_at@.1),
        ensures
            yaml::yaml_fields(m) == self@.fields(),
    {
        proof {
            lemma_key_ranks();
        }
        let ghost h = self@;
        let ghost a = seq![("title"@, YamlNode::Text(h.title))];
        let ghost b = a + seq![("updated_at"@, YamlNode::Text(updated_at@))];
        let ghost c = b + opt_entry("model"@, h.model);
        let ghost d = c + h.tags_entry();
        let ghost e = d + h.git_entry();
        let ghost f = e + seq![("content_hash"@, YamlNode::Text(h.content_hash))];
        let ghost g = f + h.context_entry();
        let mut m = yaml::new_mapping();
        yaml::insert(&mut m, "title", YamlValue::Text(self.title.clone()));
        assert(yaml::yaml_fields(m) =~= a);
        assert(ranks_below(a, 1));
        yaml::insert(&mut m, "updated_at", YamlValue::Text(updated_at));
        assert(yaml::yaml_fields(m) =~= b);
        assert(ranks_below(b, 2));
        match &self.model {
            Some(s) => yaml::insert(&mut m, "model", YamlValue::Text(s.clone())),
            None => {},
        }
        assert(yaml::yaml_fields(m) =~= c);
        assert(ranks_below(c, 3));
        match &self.tags {
            Some(v) => {
                let tags = copy_strings(v.as_slice());
                yaml::insert(&mut m, "tags", YamlValue::List(tags));
            },
            None => {},
        }
        assert(yaml::yaml_fields(m) =~= d);
        assert(ranks_below(d, 4));
        match &self.git {
            Some(git) => {
                let table = git.to_mapping();
                yaml::insert(&mut m, "git", YamlValue::Table(table));
            },
            None => {},
        }
        assert(yaml::yaml_fields(m) =~= e);
        assert(ranks_below(e, 5));
        yaml::insert(&mut m, "content_hash", YamlValue::Text(self.content_hash.clone()));
        assert(yaml::yaml_fields(m) =~= f);
        assert(ranks_below(f, 6));
        if self.include_context {
            yaml::insert(&mut m, "include_context", YamlValue::Flag(true));
        }
        assert(yaml::yaml_fields(m) =~= g);
        assert(ranks_below(g, 7));
        yaml::insert(&mut m, "id", YamlValue::Text(self.id.clone()));
        assert(yaml::yaml_fields(m) =~= h.fields());
        m
    }

    /// The header as YAML.
    pub fn to_yaml(&self) -> (r: Result<String, ExportError>)
        requires
            self@.fits(),
        ensures
            r is Ok,
            r matches Ok(s) ==> s@ == yaml::yaml_text(self@.fields()),
            r matches Ok(s) ==> yaml::is_line_by_line(self@.fields()) ==> yaml::is_laid_out(
                self@.fields(),
                s@,
            ),
            timestamp::has_instant_text(self.updated_at@),
    {
        let updated_at = self.updated_at.to_rfc3339();
        let m = self.to_mapping(updated_at);
        proof {
            lemma_fields_fit(self@);
        }
        match yaml::mapping_text(&m) {
            Ok(s) => Ok(s),
            Err(e) => Err(ExportError::Yaml(e)),
        }
    }
}

// ---------------------------------------------------------------------------
// Laws
// ---------------------------------------------------------------------------

/// What a header holds, field by field.
pub proof fn law_fields_of_a_frontmatter(f: Frontmatter)
    ensures
        f@.title == f.title@,
        f@.updated_at == f.updated_at@,
        f@.model == (match f.model {
            Some(s) => Some(s@),
            None => None,
        }),
        f@.tags is Some <==> f.tags is Some,
        f.tags matches Some(v) ==> (f@.tags->0).len() == v@.len() && forall|i: int|
            0 <= i < v@.len() ==> #[trigger] (f@.tags->0)[i] == v@[i]@,
        f@.git is Some <==> f.git is Some,
        f.git matches Some(g) ==> f@.git == Some(g@),
        f@.content_hash == f.content_hash@,
        f@.include_context == f.include_context,
        f@.id == f.id@,
{
}

/// What is known of a repository, field by field.
pub proof fn law_fields_of_git_metadata(g: GitMetadata)
    ensures
        g@.path == g.path@,
        g@.remote == (match g.remote {
            Some(s) => Some(s@),
            None => None,
        }),
        g@.branch == (match g.branch {
            Some(s) => Some(s@),
            None => None,
        }),
        g@.commit == (match g.commit {
            Some(s) => Some(s@),
            None => None,
        }),
{
}

/// The entries of a header: the title, the timestamp, the model, the tags and the repository where
/// there are any, the hash, the mark for included context where it is set, and the identifier.
pub proof fn law_entries_of_a_header(h: Header)
    ensures
        h.fields() == seq![("title"@, YamlNode::Text(h.title))] + seq![
            (
                "updated_at"@,
                YamlNode::Text(timestamp::instant_text(h.updated_at.0, h.updated_at.1)),
            ),
        ] + (match h.model {
            Some(m) => seq![("model"@, YamlNode::Text(m))],
            None => Seq::empty(),
        }) + (match h.tags {
            Some(v) => seq![("tags"@, YamlNode::List(v))],
            None => Seq::empty(),
        }) + (match h.git {
            Some(g) => seq![("git"@, YamlNode::Table(g.fields()))],
            None => Seq::empty(),
        }) + seq![("content_hash"@, YamlNode::Text(h.content_hash))] + (if h.include_context {
            seq![("include_context"@, YamlNode::Flag(true))]
        } else {
            Seq::empty()
        }) + seq![("id"@, YamlNode::Text(h.id))],
{
}

/// The entries about a repository: its path, and what is known of the remote, the branch and the
/// commit, each for itself.
pub proof fn law_entries_about_a_repository(g: GitHeader)
    ensures
        g.fields() == seq![("path"@, YamlNode::Text(g.path))] + (match g.remote {
            Some(s) => seq![("remote"@, YamlNode::Text(s))],
            None => Seq::empty(),
        }) + (match g.branch {
            Some(s) => seq![("branch"@, YamlNode::Text(s))],
            None => Seq::empty(),
        }) + (match g.commit {
            Some(s) => seq![("commit"@, YamlNode::Text(s))],
            None => Seq::empty(),
        }),
{
}

/// A header fits where its texts have less than two hundred million bytes together.
pub proof fn law_ordinary_headers_fit(h: Header, tag_bytes: int)
    requires
        encode_utf8(h.title).len() + encode_utf8(h.content_hash).len() + encode_utf8(h.id).len()
            + (match h.model {
            Some(s) => encode_utf8(s).len(),
            None => 0,
        }) + tag_bytes + (match h.git {
            Some(g) => encode_utf8(g.path).len() + (match g.remote {
                Some(s) => encode_utf8(s).len(),
                None => 0,
            }) + (match g.branch {
                Some(s) => encode_utf8(s).len(),
                None => 0,
            }) + (match g.commit {
                Some(s) => encode_utf8(s).len(),
                None => 0,
            }),
            None => 0,
        }) < 200_000_000,
        tag_bytes >= 0,
        h.tags matches Some(v) ==> v.len() <= 1_000_000 && (forall|i: int|
            0 <= i < v.len() ==> encode_utf8(#[trigger] v[i]).len() * v.len() <= tag_bytes),
    ensures
        h.fits(),
{
    match h.tags {
        Some(v) => {
            lemma_list_size(v, v.len() as int, tag_bytes);
        },
        None => {},
    }
}

proof fn lemma_list_size(v: Seq<Seq<char>>, n: int, total: int)
    requires
        v.len() <= n,
        total >= 0,
        forall|i: int| 0 <= i < v.len() ==> encode_utf8(#[trigger] v[i]).len() * n <= total,
    ensures
        v.len() == n ==> yaml::list_size(v) <= total + n,
        n * (yaml::list_size(v) - v.len()) <= v.len() * total,
    decreases v.len(),
{
    if v.len() > 0 {
        let w = v.drop_last();
        assert forall|i: int| 0 <= i < w.len() implies encode_utf8(#[trigger] w[i]).len() * n
            <= total by {
            assert(w[i] == v[i]);
        }
        lemma_list_size(w, n, total);
        let last = encode_utf8(v[v.len() - 1]).len() as int;
        let before = yaml::list_size(w) - w.len();
        assert(last * n <= total);
        assert(n * (before + last) == n * before + last * n) by (nonlinear_arith);
        assert((w.len() + 1) * total == w.len() * total + total) by (nonlinear_arith);
        assert(yaml::list_size(v) - v.len() == before + last);
    } else {
        assert(n * 0 == 0 && 0 * total == 0) by (nonlinear_arith);
    }
    if v.len() == n && n > 0 {
        let sum = yaml::list_size(v) - v.len();
        assert(sum <= total) by (nonlinear_arith)
            requires
                n * sum <= n * total,
                n > 0,
        ;
    }
}

} // verus!
