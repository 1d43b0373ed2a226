use std::path::PathBuf;
use zed_chat_export::config::{default_target_dir, resolve, CommandLine, FileConfig};
use zed_chat_export::parallel;
use zed_chat_export::parallel::{ExistingFile, ExportAction, ExportProgress};
use zed_chat_export::process;
use zed_chat_export::process::{decide, placement, Action, Decision, Progress, RunCounts};
use zed_chat_export::timestamp::Timestamp;
use zed_chat_export::utils::{FileFrontmatter, ProcessResult};

fn at(secs: i64) -> Timestamp {
    Timestamp::new(secs, 0).unwrap()
}

fn frontmatter(updated_at: i64, include_context: bool) -> FileFrontmatter {
    FileFrontmatter {
        id: None,
        updated_at: at(updated_at),
        content_hash: Some("0f".to_string()),
        include_context,
    }
}

fn updated(rename: bool) -> Decision {
    Decision::Export {
        result: ProcessResult::Updated,
        rename,
    }
}

fn decided(
    force: bool,
    include_context: bool,
    header: &FileFrontmatter,
    stored: Option<i64>,
    file_name: &str,
) -> Decision {
    let stored = stored.map(at);
    decide(
        force,
        include_context,
        "a_old.md",
        Some(header),
        stored.as_ref(),
        "0f",
        file_name,
    )
}

#[test]
fn unchanged_threads_are_skipped() {
    let h = frontmatter(10, false);
    assert_eq!(decided(false, false, &h, Some(10), "a_old.md"), Decision::Skip);
    assert_eq!(decided(false, false, &h, Some(9), "a_new.md"), Decision::Skip);
    let h = frontmatter(10, true);
    assert_eq!(decided(false, true, &h, Some(10), "a_old.md"), Decision::Skip);
}

#[test]
fn changed_threads_are_written_again() {
    let h = frontmatter(10, false);
    assert_eq!(decided(false, false, &h, Some(11), "a_old.md"), updated(false));
    assert_eq!(decided(false, true, &h, Some(10), "a_new.md"), updated(true));
    assert_eq!(decided(false, false, &h, None, "a_old.md"), updated(false));
    let h = frontmatter(10, true);
    assert_eq!(decided(false, false, &h, Some(10), "a_old.md"), updated(false));
}

#[test]
fn changed_documents_are_written_again() {
    let t = at(10);
    let with = |hash: Option<&str>| FileFrontmatter {
        content_hash: hash.map(|h| h.to_string()),
        ..frontmatter(10, false)
    };
    let decided = |h: &FileFrontmatter| {
        decide(false, false, "a_old.md", Some(h), Some(&t), "0f", "a_old.md")
    };
    assert_eq!(decided(&with(Some("0f"))), Decision::Skip);
    assert_eq!(decided(&with(Some("0e"))), updated(false));
    assert_eq!(decided(&with(Some(""))), updated(false));
    assert_eq!(decided(&with(None)), updated(false));

    let file = ExistingFile {
        name: "a_old.md".to_string(),
        frontmatter: Some(with(Some("0e"))),
    };
    let mut p = ExportProgress::new();
    p.stored = Some(Some(at(10)));
    assert_eq!(
        p.next_action(false, false, "0f", Some(&file)),
        ExportAction::Parse
    );
    assert_eq!(
        p.next_action(false, false, "0e", Some(&file)),
        ExportAction::Finish(ProcessResult::Skipped)
    );
}

#[test]
fn force_skips_nothing() {
    let h = frontmatter(10, false);
    assert_eq!(decided(true, false, &h, Some(1), "a_old.md"), updated(false));
}

#[test]
fn files_without_header_are_written_again() {
    let t = at(1);
    assert_eq!(
        decide(false, false, "a_old.md", None, Some(&t), "0f", "a.md"),
        updated(true)
    );
}

#[test]
fn new_threads_are_created() {
    assert_eq!(
        placement(None, "a.md"),
        Decision::Export {
            result: ProcessResult::Created,
            rename: false
        }
    );
}

#[test]
fn steps_for_a_thread_that_is_up_to_date() {
    let mut p = Progress::new();
    let next = |p: &Progress| p.next_action(false, false, "0f", Some("a_old.md"), "a_new.md");
    assert_eq!(next(&p), Action::ReadHeader);
    p.header = Some(Some(frontmatter(10, false)));
    assert_eq!(next(&p), Action::ReadTimestamp);
    p.stored = Some(Some(at(10)));
    assert_eq!(next(&p), Action::Finish(ProcessResult::Skipped));
}

#[test]
fn steps_for_a_thread_that_has_changed() {
    let mut p = Progress::new();
    let next = |p: &Progress| p.next_action(false, false, "0f", Some("a_old.md"), "a_new.md");
    p.header = Some(Some(frontmatter(10, false)));
    p.stored = Some(Some(at(11)));
    assert_eq!(next(&p), Action::Rename);
    p.renamed = true;
    assert_eq!(next(&p), Action::Write);
    p.written = Some(true);
    assert_eq!(next(&p), Action::Finish(ProcessResult::Updated));
    p.written = Some(false);
    assert_eq!(next(&p), Action::Discard);
}

#[test]
fn steps_without_a_header() {
    let mut p = Progress::new();
    p.header = Some(None);
    assert_eq!(
        p.next_action(false, false, "0f", Some("a.md"), "a.md"),
        Action::Write
    );
    let p = Progress::new();
    assert_eq!(p.next_action(true, false, "0f", Some("a.md"), "a.md"), Action::Write);
    assert_eq!(p.next_action(false, false, "0f", None, "a.md"), Action::Write);
    let mut p = Progress::new();
    p.written = Some(true);
    assert_eq!(
        p.next_action(false, false, "0f", None, "a.md"),
        Action::Finish(ProcessResult::Created)
    );
}

#[test]
fn steps_of_a_worker() {
    let file = ExistingFile {
        name: "a_old.md".to_string(),
        frontmatter: Some(frontmatter(10, false)),
    };
    let next = |p: &ExportProgress| p.next_action(false, false, "0f", Some(&file));
    let mut p = ExportProgress::new();
    assert_eq!(next(&p), ExportAction::ReadTimestamp);
    p.stored = Some(Some(at(9)));
    assert_eq!(next(&p), ExportAction::Finish(ProcessResult::Skipped));
    p.stored = Some(Some(at(11)));
    assert_eq!(next(&p), ExportAction::Parse);
    p.parsed = Some(false);
    assert_eq!(next(&p), ExportAction::Fail);
    p.parsed = Some(true);
    assert_eq!(next(&p), ExportAction::FindName);
    p.stem = Some("a_new".to_string());
    assert_eq!(next(&p), ExportAction::Rename);
    p.renamed = true;
    assert_eq!(next(&p), ExportAction::Write);
    p.written = true;
    assert_eq!(next(&p), ExportAction::Finish(ProcessResult::Updated));

    let mut p = ExportProgress::new();
    assert_eq!(p.next_action(true, false, "0f", Some(&file)), ExportAction::Parse);
    p.parsed = Some(true);
    p.stem = Some("a_new".to_string());
    assert_eq!(p.next_action(false, false, "0f", None), ExportAction::Write);
    p.written = true;
    assert_eq!(
        p.next_action(false, false, "0f", None),
        ExportAction::Finish(ProcessResult::Created)
    );
}

#[test]
fn run_goes_on_behind_threads_that_are_up_to_date() {
    let mut counts = RunCounts::new();
    let results = [
        Some(ProcessResult::Skipped),
        Some(ProcessResult::Created),
        Some(ProcessResult::Skipped),
        Some(ProcessResult::Updated),
        None,
        Some(ProcessResult::Skipped),
    ];
    for result in results {
        assert!(counts.has_room());
        counts.record(result);
    }
    assert_eq!(
        counts,
        RunCounts {
            created: 1,
            updated: 1,
            skipped: 3,
            errors: 1
        }
    );
    assert_eq!(
        counts.summary(),
        "Done. 1 created, 1 updated, 3 skipped. Completed with 1 error(s)."
    );
    assert_eq!(
        counts.incremental_summary(),
        "Done (Incremental). 1 created, 1 updated, 3 skipped. Errors: 1"
    );
    assert_eq!(
        RunCounts::new().summary(),
        "Done. 0 created, 0 updated, 0 skipped."
    );
    let full = RunCounts {
        created: u64::MAX,
        updated: 0,
        skipped: 0,
        errors: 0,
    };
    assert!(!full.has_room());
}

#[test]
fn first_run_counts_threads() {
    let mut counts = RunCounts::new();
    counts.tally_fresh(Some(ProcessResult::Created));
    counts.tally_fresh(Some(ProcessResult::Updated));
    counts.tally_fresh(Some(ProcessResult::Skipped));
    counts.tally_fresh(None);
    assert_eq!(counts.fresh_summary(), "Done (Fresh). 1 created. Errors: 1");
    let mut counts = RunCounts::new();
    for result in [Some(ProcessResult::Created), None, Some(ProcessResult::Created)] {
        counts.tally_fresh(result);
    }
    assert_eq!(counts.created + counts.errors, 3);
}

#[test]
fn lines_about_threads() {
    assert_eq!(process::report(ProcessResult::Created, "a_t"), "Created:  a_t.md");
    assert_eq!(process::report(ProcessResult::Updated, "a_t"), "Updated:  a_t.md");
    assert_eq!(process::report(ProcessResult::Skipped, "a_t"), "Skipped:  a_t.md");
    assert_eq!(parallel::report(ProcessResult::Created, "a-b", "a_t"), "Created: a_t.md");
    assert_eq!(parallel::report(ProcessResult::Updated, "a-b", "a_t"), "Updated: a_t.md");
    assert_eq!(parallel::report(ProcessResult::Skipped, "a-b", "a_t"), "Skipped: a-b");
}

fn cli(dir: Option<&str>, db: Option<&str>, tags: Option<&str>) -> CommandLine {
    CommandLine {
        target_dir: dir.map(PathBuf::from),
        db: db.map(PathBuf::from),
        tags: tags.map(|t| vec![t.to_string()]),
        force: true,
        verbose: false,
        quiet: true,
        include_context: false,
    }
}

fn file(dir: Option<&str>, db: Option<&str>, tags: Option<&str>) -> FileConfig {
    FileConfig {
        target_dir: dir.map(PathBuf::from),
        db_path: db.map(PathBuf::from),
        tags: tags.map(|t| vec![t.to_string()]),
    }
}

#[test]
fn command_line_comes_first() {
    let c = resolve(
        cli(Some("c"), Some("cdb"), Some("ct")),
        file(Some("f"), Some("fdb"), Some("ft")),
        PathBuf::from("d"),
        Some(PathBuf::from("ddb")),
    )
    .ok()
    .unwrap();
    assert_eq!(c.target_dir, PathBuf::from("c"));
    assert_eq!(c.db_path, PathBuf::from("cdb"));
    assert_eq!(c.tags, Some(vec!["ct".to_string()]));
    assert!(c.force && c.quiet && !c.verbose && !c.include_context);
}

#[test]
fn file_comes_before_defaults() {
    let c = resolve(
        cli(None, None, None),
        file(Some("f"), Some("fdb"), Some("ft")),
        PathBuf::from("d"),
        Some(PathBuf::from("ddb")),
    )
    .ok()
    .unwrap();
    assert_eq!(c.target_dir, PathBuf::from("f"));
    assert_eq!(c.db_path, PathBuf::from("fdb"));
    assert_eq!(c.tags, Some(vec!["ft".to_string()]));
    let c = resolve(
        cli(None, None, None),
        file(None, None, None),
        PathBuf::from(default_target_dir()),
        Some(PathBuf::from("ddb")),
    )
    .ok()
    .unwrap();
    assert_eq!(c.target_dir, PathBuf::from("zed-chat-export"));
    assert_eq!(c.db_path, PathBuf::from("ddb"));
    assert_eq!(c.tags, None);
}

#[test]
fn a_database_is_needed() {
    let r = resolve(
        cli(None, None, None),
        file(None, None, None),
        PathBuf::from("d"),
        None,
    );
    match r {
        Ok(_) => panic!("there is no database"),
        Err(e) => assert_eq!(
            e.message(),
            "Could not determine database path.\nUse --db to specify manually, or set db_path in config.toml."
        ),
    }
}
