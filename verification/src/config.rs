//! Where the settings of a run come from.
use crate::utils::ExportConfig;
use std::path::PathBuf;
use vstd::prelude::*;
use vstd::string::*;

verus! {

/// Settings given on the command line.
pub struct CommandLine {
    pub target_dir: Option<PathBuf>,
    pub db: Option<PathBuf>,
    pub tags: Option<Vec<String>>,
    pub force: bool,
    pub verbose: bool,
    pub quiet: bool,
    pub include_context: bool,
}

/// Settings given in the configuration file.
pub struct FileConfig {
    pub target_dir: Option<PathBuf>,
    pub db_path: Option<PathBuf>,
    pub tags: Option<Vec<String>>,
}

/// Nobody says where the database is.
#[derive(Debug, Clone, Copy, PartialEq, Eq)]
pub struct NoDatabasePath;

impl NoDatabasePath {
    /// The message to report.
    pub fn message(&self) -> (r: String)
        ensures
            r@ == "Could not determine database path.\nUse --db to specify manually, or set db_path in config.toml."@,
    {
        "Could not determine database path.\nUse --db to specify manually, or set db_path in config.toml.".to_owned()
    }
}

/// The directory that threads are exported to where no other one is given.
pub fn default_target_dir() -> (r: String)
    ensures
        r@ == "zed-chat-export"@,
{
    "zed-chat-export".to_owned()
}

/// The first of two settings that is given.
pub open spec fn first_given<T>(a: Option<T>, b: Option<T>) -> Option<T> {
    match a {
        Some(x) => Some(x),
        None => b,
    }
}

fn pick<T>(a: Option<T>, b: Option<T>) -> (r: Option<T>)
    ensures
        r == first_given(a, b),
{
    match a {
        Some(x) => Some(x),
        None => b,
    }
}

/// Puts the settings of a run together. What the command line says comes before what the file says;
/// the target directory has a default, and the database may be where Zed keeps it.
pub fn resolve(
    cli: CommandLine,
    file: FileConfig,
    default_dir: PathBuf,
    detected_db: Option<PathBuf>,
) -> (r: Result<ExportConfig, NoDatabasePath>)
    ensures
        r is Err <==> cli.db is None && file.db_path is None && detected_db is None,
        r matches Ok(c) ==> {
            &&& Some(c.target_dir) == first_given(
                first_given(cli.target_dir, file.target_dir),
                Some(default_dir),
            )
            &&& Some(c.db_path) == first_given(first_given(cli.db, file.db_path), detected_db)
            &&& c.tags == first_given(cli.tags, file.tags)
            &&& c.force == cli.force
            &&& c.verbose == cli.verbose
            &&& c.quiet == cli.quiet
            &&& c.include_context == cli.include_context
        },
        r matches Ok(c) ==> {
            &&& c.target_dir == (match (cli.target_dir, file.target_dir) {
                (Some(dir), _) => dir,
                (None, Some(dir)) => dir,
                (None, None) => default_dir,
            })
            &&& cli.db matches Some(db) ==> c.db_path == db
            &&& cli.db is None ==> (file.db_path matches Some(db) ==> c.db_path == db)
            &&& cli.db is None && file.db_path is None ==> detected_db == Some(c.db_path)
            &&& cli.tags is Some ==> c.tags == cli.tags
            &&& cli.tags is None ==> c.tags == file.tags
        },
{
    let target_dir = match pick(cli.target_dir, file.target_dir) {
        Some(dir) => dir,
        None => default_dir,
    };
    match pick(pick(cli.db, file.db_path), detected_db) {
        Some(db_path) => Ok(
            ExportConfig {
                target_dir,
                db_path,
                tags: pick(cli.tags, file.tags),
                force: cli.force,
                verbose: cli.verbose,
                quiet: cli.quiet,
                include_context: cli.include_context,
            },
        ),
        None => Err(NoDatabasePath),
    }
}

// ---------------------------------------------------------------------------
// Laws
// ---------------------------------------------------------------------------

/// Of two settings the first that is given counts.
pub proof fn law_first_setting_counts<T>(a: T, b: Option<T>)
    ensures
        first_given(Some(a), b) == Some(a),
        first_given(None, b) == b,
{
}

} // verus!
