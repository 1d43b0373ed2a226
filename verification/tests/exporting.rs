use std::collections::{BTreeMap, HashMap};
use zed_chat_export::exporter::{
    asset_from_bytes, content_hash, db_frontmatter, image_asset, recognizable, render_messages,
    to_hex, write_db_thread_markdown, write_serialized_thread_markdown,
};
use zed_chat_export::importer::{
    AgentMessage, AgentMessageContent, DbThread, DetailedSummaryState, GitState,
    LanguageModelImage, MentionUri, Message, MessageId, ProjectSnapshot, Role,
    SerializedLanguageModel, SerializedMessage, SerializedMessageSegment, SerializedThread,
    SessionId, TelemetryWorktreeSnapshot, TokenUsage, UserMessage, UserMessageContent,
    UserMessageId,
};
use zed_chat_export::naming::{candidate_prefix, make_file_name, make_stem, slug_of_title};
use zed_chat_export::parallel::{find_existing_file, ExistingFile, ExportAction, ExportProgress};
use zed_chat_export::paths::path_extension;
use zed_chat_export::process::{
    build_file_index, decide, plan_thread, Action, Decision, Progress, Registry, RunCounts,
};
use zed_chat_export::timestamp::Timestamp;
use zed_chat_export::utils::{parse_existing_frontmatter, ProcessResult};

const ID: &str = "01941c3a-7f2e-7003-b8a2-4e9d1c08ef3a";
const HASH: &str = "0123456789abcdef0123456789abcdef0123456789abcdef0123456789abcdef";

fn user(content: Vec<UserMessageContent>) -> Message {
    Message::User(UserMessage {
        id: UserMessageId::new(),
        content,
    })
}

fn agent(content: Vec<AgentMessageContent>) -> Message {
    Message::Agent(AgentMessage {
        content,
        tool_results: BTreeMap::new(),
        reasoning_details: None,
    })
}

fn said(s: &str) -> UserMessageContent {
    UserMessageContent::Text(s.to_string())
}

fn image(source: &str) -> UserMessageContent {
    UserMessageContent::Image(LanguageModelImage {
        source: source.to_string(),
        size: None,
    })
}

fn mention(uri: MentionUri, content: &str) -> UserMessageContent {
    UserMessageContent::Mention {
        uri,
        content: content.to_string(),
    }
}

fn file(path: &str) -> MentionUri {
    MentionUri::File {
        abs_path: path.to_string(),
    }
}

fn thread(title: &str, messages: Vec<Message>) -> DbThread {
    DbThread {
        title: title.to_string(),
        messages,
        updated_at: Timestamp::new(1749892937, 41832000).unwrap(),
        detailed_summary: None,
        initial_project_snapshot: None,
        cumulative_token_usage: TokenUsage::default(),
        request_token_usage: HashMap::new(),
        model: None,
        profile: None,
        imported: false,
        subagent_context: None,
    }
}

fn snapshot(sha: &str) -> ProjectSnapshot {
    ProjectSnapshot {
        worktree_snapshots: vec![TelemetryWorktreeSnapshot {
            worktree_path: "/Users/dev/projects/warehouse-api".to_string(),
            git_state: Some(GitState {
                remote_url: Some("git@github.com:devco/warehouse-api.git".to_string()),
                head_sha: Some(sha.to_string()),
                current_branch: Some("fix/pool-timeout".to_string()),
                diff: None,
            }),
        }],
        timestamp: Timestamp::new(0, 0).unwrap(),
    }
}

fn body(messages: Vec<Message>, include_context: bool) -> String {
    render_messages(ID, &messages, include_context).0
}

#[test]
fn whole_document() {
    let mut t = thread(
        "Fix Deadlock in Connection Pool Under Load",
        vec![
            user(vec![
                said("I'm seeing intermittent deadlocks."),
                mention(file("/src/db/pool.rs"), "fn acquire() {}"),
            ]),
            agent(vec![AgentMessageContent::Text("The issue is here.".to_string())]),
        ],
    );
    t.model = Some(SerializedLanguageModel {
        provider: "anthropic".to_string(),
        model: "sonnet-4-20250514".to_string(),
    });
    t.initial_project_snapshot = Some(snapshot("a3e71bf0c1d2e3f4a5b6c7d8e9f0a1b2c3d4e5f6"));
    let tags = vec!["zed".to_string(), "ai-chat".to_string()];
    let r = write_db_thread_markdown(ID, &t, HASH, Some(tags.as_slice()), false)
        .ok()
        .unwrap();
    assert!(r.assets.is_none());
    assert_eq!(
        r.markdown,
        "---
title: Fix Deadlock in Connection Pool Under Load
updated_at: 2025-06-14T09:22:17.041832Z
model: anthropic/sonnet-4-20250514
tags:
- zed
- ai-chat
git:
  path: /Users/dev/projects/warehouse-api
  remote: git@github.com:devco/warehouse-api.git
  branch: fix/pool-timeout
  commit: a3e71bf
content_hash: 0123456789abcdef0123456789abcdef0123456789abcdef0123456789abcdef
id: 01941c3a-7f2e-7003-b8a2-4e9d1c08ef3a
---

## User

I'm seeing intermittent deadlocks.
`/src/db/pool.rs`

## Assistant

The issue is here.

"
    );
}

#[test]
fn optional_header_fields_are_left_out() {
    let r = write_db_thread_markdown(ID, &thread("T", vec![]), HASH, None, true)
        .ok()
        .unwrap();
    assert_eq!(
        r.markdown,
        "---
title: T
updated_at: 2025-06-14T09:22:17.041832Z
content_hash: 0123456789abcdef0123456789abcdef0123456789abcdef0123456789abcdef
include_context: true
id: 01941c3a-7f2e-7003-b8a2-4e9d1c08ef3a
---

"
    );
    let none: Vec<String> = vec![];
    let r = write_db_thread_markdown(ID, &thread("T", vec![]), HASH, Some(none.as_slice()), false)
        .ok()
        .unwrap();
    assert!(r.markdown.contains("\ntags: []\ncontent_hash: "));
}

#[test]
fn short_commit_hashes_are_kept() {
    let mut t = thread("T", vec![]);
    t.initial_project_snapshot = Some(snapshot("a3e"));
    let r = write_db_thread_markdown(ID, &t, HASH, None, false).ok().unwrap();
    assert!(r.markdown.contains("\n  commit: a3e\n"));

    t.initial_project_snapshot = Some(snapshot("abcdef\u{e9}xyz"));
    let r = write_db_thread_markdown(ID, &t, HASH, None, false).ok().unwrap();
    assert!(r.markdown.contains("\n  commit: abcdef\u{e9}xyz\n"));

    t.initial_project_snapshot = Some(ProjectSnapshot {
        worktree_snapshots: vec![],
        timestamp: Timestamp::new(0, 0).unwrap(),
    });
    let r = write_db_thread_markdown(ID, &t, HASH, None, false).ok().unwrap();
    assert!(!r.markdown.contains("git:"));
}

#[test]
fn worktree_without_git() {
    let mut t = thread("T", vec![]);
    t.initial_project_snapshot = Some(ProjectSnapshot {
        worktree_snapshots: vec![TelemetryWorktreeSnapshot {
            worktree_path: "/p".to_string(),
            git_state: None,
        }],
        timestamp: Timestamp::new(0, 0).unwrap(),
    });
    let r = write_db_thread_markdown(ID, &t, HASH, None, false).ok().unwrap();
    assert!(r.markdown.contains("\ngit:\n  path: /p\ncontent_hash: "));
}

#[test]
fn header_is_read_back() {
    let titles = [
        "plain",
        "with: colon",
        "two\nlines",
        "- dash",
        "'quoted'",
        "it's 'here'",
        "",
        "id: x\nupdated_at: y",
        "tab\tand \u{2028} separator",
        " outer spaces ",
        "\u{2028}",
        "a\r\n---\r\nb",
        "----\n-- -\n\n  --",
        "trailing newline\n",
    ];
    for title in titles {
        for include_context in [false, true] {
            let t = thread(title, vec![user(vec![said("---\nid: other\n---")])]);
            let r = write_db_thread_markdown(ID, &t, HASH, None, include_context)
                .ok()
                .unwrap();
            let fm = parse_existing_frontmatter(r.markdown.as_bytes()).unwrap();
            assert_eq!(fm.id.as_deref(), Some(ID));
            assert_eq!(fm.updated_at, t.updated_at);
            assert_eq!(fm.content_hash.as_deref(), Some(HASH));
            assert_eq!(fm.include_context, include_context);
        }
    }
}

#[test]
fn header_with_all_entries_is_read_back() {
    let mut t = thread("it's\na title", vec![]);
    t.model = Some(SerializedLanguageModel {
        provider: "updated_at: x\ncontent_hash: y".to_string(),
        model: "include_context: true\n\n".to_string(),
    });
    let mut project = snapshot("a3e");
    project.worktree_snapshots[0].worktree_path = "/a\n  id: z\n".to_string();
    t.initial_project_snapshot = Some(project);
    let tags = ["plain", "- dash", "two\nlines", "tab\t", "", " space ", "id: x", "---"]
        .map(|s| s.to_string());
    for include_context in [false, true] {
        let r = write_db_thread_markdown(ID, &t, HASH, Some(tags.as_slice()), include_context)
            .ok()
            .unwrap();
        let fm = parse_existing_frontmatter(r.markdown.as_bytes()).unwrap();
        assert_eq!(fm.id.as_deref(), Some(ID));
        assert_eq!(fm.updated_at, t.updated_at);
        assert_eq!(fm.content_hash.as_deref(), Some(HASH));
        assert_eq!(fm.include_context, include_context);
    }
}

#[test]
fn time_of_a_long_header_is_read_back() {
    let mut t = thread("a\ttitle", vec![]);
    t.model = Some(SerializedLanguageModel {
        provider: "updated_at: x\ncontent_hash: y\n---".to_string(),
        model: "include_context: true\n".repeat(200),
    });
    let tags = vec!["updated_at: 1\n---\ncontent_hash: 2".to_string(); 50];
    let r = write_db_thread_markdown(ID, &t, HASH, Some(tags.as_slice()), true)
        .ok()
        .unwrap();
    let fm = parse_existing_frontmatter(r.markdown.as_bytes()).unwrap();
    assert_eq!(fm.updated_at, t.updated_at);
    assert!(fm.content_hash.is_none());
    assert!(fm.id.is_none());
}

#[test]
fn entries_lie_before_the_limit() {
    let found = |n: usize, include_context: bool| {
        let t = thread(&"x".repeat(n), vec![]);
        let r = write_db_thread_markdown(ID, &t, HASH, None, include_context)
            .ok()
            .unwrap();
        parse_existing_frontmatter(r.markdown.as_bytes())
    };
    let fm = found(1784, true).unwrap();
    assert_eq!(fm.id.as_deref(), Some(ID));
    let fm = found(1838, true).unwrap();
    assert_eq!(fm.content_hash.as_deref(), Some(HASH));
    assert!(fm.include_context);
    let fm = found(1961, true).unwrap();
    assert_eq!(fm.updated_at, Timestamp::new(1749892937, 41832000).unwrap());
    assert!(fm.content_hash.is_none());
    assert!(found(2048, false).is_none());
}

#[test]
fn texts_are_quoted_where_needed() {
    let mut t = thread("a\u{1}b\tc\u{feff}\"\\", vec![]);
    let mut project = snapshot("true");
    project.worktree_snapshots[0].worktree_path = "a: b".to_string();
    t.initial_project_snapshot = Some(project);
    let tags = ["- x", "it's", "'q'", ""].map(|s| s.to_string());
    let r = write_db_thread_markdown("12", &t, HASH, Some(tags.as_slice()), false)
        .ok()
        .unwrap();
    assert_eq!(
        r.markdown,
        "---
title: \"a\\x01b\\tc\\uFEFF\\\"\\\\\"
updated_at: 2025-06-14T09:22:17.041832Z
tags:
- '- x'
- it's
- '''q'''
- ''
git:
  path: 'a: b'
  remote: git@github.com:devco/warehouse-api.git
  branch: fix/pool-timeout
  commit: 'true'
content_hash: 0123456789abcdef0123456789abcdef0123456789abcdef0123456789abcdef
id: '12'
---

"
    );
}

/// What the characters of a text take at most.
fn written_size(s: &str) -> usize {
    s.chars()
        .map(|c| match c {
            '\'' | '"' | '\\' => 2,
            '\u{2028}' | '\u{2029}' | '\u{feff}' => 10,
            ' '..='~' | '\u{a0}'..='\u{fffd}' | '\u{10000}'.. => c.len_utf8(),
            _ => 10,
        })
        .sum()
}

fn is_fence_free(s: &str) -> bool {
    !s.contains('\n') || s.split('\n').all(|line| line.trim() != "---")
}

fn runs_on(s: &str) -> bool {
    s.contains('\n') && s.ends_with(['\u{2028}', '\u{2029}'])
}

#[test]
fn entries_of_all_texts_keep_their_bounds() {
    let pieces = [
        "a", " ", "\n", "\t", "'", "\"", "-", "---", ":", "# ", "\u{2028}", "\u{1}", "\u{e9}",
        "\u{1f600}", "\\", "\r", "\u{85}", "\u{feff}",
    ];
    for x in pieces {
        for y in pieces {
            for z in pieces {
                let text = [x, y, z].concat();
                let mut t = thread(&text, vec![]);
                t.model = Some(SerializedLanguageModel {
                    provider: text.clone(),
                    model: text.clone(),
                });
                let mut project = snapshot("a3e71bf");
                project.worktree_snapshots[0].worktree_path = text.clone();
                project.worktree_snapshots[0].git_state = None;
                t.initial_project_snapshot = Some(project);
                let tags = [text.clone(), text.clone()];
                let r = write_db_thread_markdown(ID, &t, HASH, Some(tags.as_slice()), true)
                    .ok()
                    .unwrap();

                let n = written_size(&text);
                let title = 5 + 16 + n;
                let model = 5 + 16 + 2 * n + 1;
                let list = 4 + 16 + 2 * (16 + n);
                let table = 3 + 16 + 4 + 16 + n;
                let bound = title + 66 + model + list + table + 92 + 31 + 2 + 16 + 36;
                assert!(r.markdown.len() <= 4 + bound + 5, "{:?}", text);
                assert!(bound <= 2048);

                let model = format!("{}/{}", text, text);
                let clear = |s: &str| is_fence_free(s) && !runs_on(s);
                if clear(&text) && clear(&model) {
                    let fm = parse_existing_frontmatter(r.markdown.as_bytes()).unwrap();
                    assert_eq!(fm.id.as_deref(), Some(ID), "{:?}", text);
                    assert_eq!(fm.updated_at, t.updated_at, "{:?}", text);
                    assert_eq!(fm.content_hash.as_deref(), Some(HASH), "{:?}", text);
                    assert!(fm.include_context);
                }
            }
        }
    }
}

#[test]
fn documents_have_a_hash() {
    assert_eq!(
        content_hash(b"hello"),
        "2cf24dba5fb0a30e26e83b2ac5b9e29e1b161e5c1fa7425e73043362938b9824"
    );
    assert_eq!(
        content_hash(b""),
        "e3b0c44298fc1c149afbf4c8996fb92427ae41e4649b934ca495991b7852b855"
    );
    assert_eq!(to_hex(&[0, 15, 160, 255]), "000fa0ff");
}

#[test]
fn headers_have_a_limit() {
    let fits = |n: usize| {
        let mut t = thread("", vec![]);
        t.title = "x".repeat(n);
        db_frontmatter(ID, &t, HASH, None, false).fits()
    };
    // Besides the title: 512 for keys and timestamp, 65 for the hash, 37 for the id, and one.
    let limit = 0x1000_0000;
    assert!(fits(limit - 512 - 65 - 37 - 1));
    assert!(!fits(limit - 512 - 65 - 37));
}

#[test]
fn frames_in_front_are_looked_through() {
    let frame: [u8; 8] = [0x50, 0x2a, 0x4d, 0x18, 0, 0, 0, 0];
    let stream: [u8; 4] = [0x28, 0xb5, 0x2f, 0xfd];
    let bytes = |n: usize| {
        let mut v = frame.repeat(n);
        v.extend_from_slice(&stream);
        v
    };
    let name = |v: &[u8]| {
        let source = base64::engine::Engine::encode(&base64::engine::general_purpose::STANDARD, v);
        image_asset("t", &source).unwrap().name
    };
    assert!(recognizable(&bytes(0)));
    assert!(recognizable(&bytes(1024)));
    assert!(!recognizable(&bytes(1025)));
    assert!(name(&bytes(1)).ends_with(".zst"));
    assert!(name(&bytes(1024)).ends_with(".zst"));
    assert!(name(&bytes(100_000)).ends_with(".bin"));
    // Frames that claim more than there is.
    assert!(recognizable(&[0x5f, 0x2a, 0x4d, 0x18, 0xff, 0xff, 0xff, 0x7f]));
    assert_eq!(
        recognizable(&[0x5f, 0x2a, 0x4d, 0x18, 0xff, 0xff, 0xff, 0xff]),
        usize::BITS == 64
    );
    let mut zip = b"PK\x03\x04".to_vec();
    zip.resize(30, 0);
    assert!(recognizable(&zip));
    assert!(name(&zip).ends_with(".zip"));
    zip[18..22].copy_from_slice(&[0xff; 4]);
    assert!(recognizable(&zip));
    assert!(name(&zip).ends_with(".zip"));
}

#[test]
fn header_is_read_back_for_unusual_ids() {
    for id in ["42", "true", "null", "# x", "\u{fc}ber", "a: b", "", "0x1f"] {
        let t = thread("T", vec![]);
        let r = write_db_thread_markdown(id, &t, HASH, None, false).ok().unwrap();
        let fm = parse_existing_frontmatter(r.markdown.as_bytes()).unwrap();
        assert_eq!(fm.id.as_deref(), Some(id));
    }
}

#[test]
fn title_that_runs_on_hides_the_timestamp() {
    let t = thread("a\n\u{2028}", vec![]);
    let r = write_db_thread_markdown(ID, &t, HASH, None, false).ok().unwrap();
    assert!(parse_existing_frontmatter(r.markdown.as_bytes()).is_none());
}

#[test]
fn title_with_a_fence_ends_the_header() {
    let t = thread("a\n---\nb", vec![]);
    let r = write_db_thread_markdown(ID, &t, HASH, None, false).ok().unwrap();
    assert!(parse_existing_frontmatter(r.markdown.as_bytes()).is_none());
}

#[test]
fn included_context_is_fenced() {
    assert_eq!(
        body(vec![user(vec![mention(file("/a/b.rs"), "let x = 1;")])], true),
        "## User\n\n```rs /a/b.rs\nlet x = 1;\n```\n\n"
    );
    assert_eq!(
        body(vec![user(vec![mention(file("/a/b.rs"), "  ```rs\nlet x = 1;\n```")])], true),
        "## User\n\n  ```rs\nlet x = 1;\n```\n\n"
    );
    assert_eq!(
        body(
            vec![user(vec![mention(
                MentionUri::Directory {
                    abs_path: "/a/b.d".to_string()
                },
                "x"
            )])],
            true
        ),
        "## User\n\n```/a/b.d\nx\n```\n\n"
    );
    assert_eq!(
        body(
            vec![user(vec![mention(
                MentionUri::Selection {
                    abs_path: None,
                    line_range: 1..=2
                },
                "x"
            )])],
            true
        ),
        "## User\n\n```\nx\n```\n\n"
    );
}

#[test]
fn mentions_are_named() {
    let uris = vec![
        (file("/f.rs"), "/f.rs"),
        (MentionUri::PastedImage, "image"),
        (
            MentionUri::Symbol {
                abs_path: "/s.py".to_string(),
                name: "n".to_string(),
                line_range: 3..=4,
            },
            "/s.py",
        ),
        (
            MentionUri::Thread {
                id: SessionId::new("s".to_string()),
                name: "Other".to_string(),
            },
            "Other",
        ),
        (
            MentionUri::TextThread {
                path: "/t.md".to_string(),
                name: "n".to_string(),
            },
            "/t.md",
        ),
        (
            MentionUri::Rule {
                id: "r".to_string(),
                name: "Rule".to_string(),
            },
            "Rule",
        ),
        (
            MentionUri::Diagnostics {
                include_errors: true,
                include_warnings: false,
            },
            "diagnostics",
        ),
        (
            MentionUri::Selection {
                abs_path: Some("/sel.c".to_string()),
                line_range: 0..=1,
            },
            "/sel.c",
        ),
        (
            MentionUri::Fetch {
                url: "https://zed.dev/".to_string(),
            },
            "https://zed.dev/",
        ),
        (MentionUri::TerminalSelection { line_count: 2 }, "terminal"),
    ];
    for (uri, label) in uris {
        assert_eq!(
            body(vec![user(vec![mention(uri, "content")])], false),
            format!("## User\n\n`{}`\n\n", label)
        );
    }
    let nameless = MentionUri::Selection {
        abs_path: None,
        line_range: 0..=1,
    };
    assert_eq!(
        body(vec![user(vec![mention(nameless, "content")])], false),
        "## User\n\n\n"
    );
}

#[test]
fn extensions_of_paths() {
    let cases = [
        ("/a/b.rs", Some("rs")),
        ("b.tar.gz", Some("gz")),
        ("/a/.bashrc", None),
        ("/a/.config.toml", Some("toml")),
        ("/a/Makefile", None),
        ("/a/b.rs/", Some("rs")),
        ("/a/b.rs/.", Some("rs")),
        ("/a/b.rs/..", None),
        ("/", None),
        ("", None),
        (".", None),
        ("a.", Some("")),
    ];
    for (path, ext) in cases {
        assert_eq!(path_extension(path).as_deref(), ext);
        let std_ext = std::path::Path::new(path)
            .extension()
            .and_then(|e| e.to_str());
        assert_eq!(path_extension(path).as_deref(), std_ext);
    }
}

#[test]
fn images_become_assets() {
    let messages = vec![user(vec![
        image("iVBORw0KGgo="),
        image("not base64!"),
        image("aGVsbG8="),
    ])];
    let r = write_db_thread_markdown("t", &thread("T", messages), HASH, None, false)
        .ok()
        .unwrap();
    let assets = r.assets.unwrap();
    assert_eq!(assets.len(), 2);
    assert_eq!(assets[0].name, "t.4c4b6a3be1314ab8.png");
    assert_eq!(
        assets[0].data,
        vec![0x89, 0x50, 0x4E, 0x47, 0x0D, 0x0A, 0x1A, 0x0A]
    );
    assert_eq!(assets[1].name, "t.2cf24dba5fb0a30e.bin");
    assert_eq!(assets[1].data, b"hello".to_vec());
    assert!(r.markdown.ends_with(
        "## User\n\n![image](./t.4c4b6a3be1314ab8.png)\n![image](./t.2cf24dba5fb0a30e.bin)\n\n"
    ));
}

#[test]
fn asset_names() {
    let digest = [0x00, 0x0f, 0xa0, 0xff, 0x12, 0x34, 0x56, 0x78, 0x9a];
    let a = asset_from_bytes("id", vec![1, 2], Some("gif".to_string()), &digest);
    assert_eq!(a.name, "id.000fa0ff12345678.gif");
    assert_eq!(a.data, vec![1, 2]);
    assert!(image_asset("id", "%%%").is_none());
}

#[test]
fn only_prose_is_exported() {
    let messages = vec![
        Message::Resume,
        agent(vec![
            AgentMessageContent::Thinking {
                text: "hmm".to_string(),
                signature: None,
            },
            AgentMessageContent::Text("one".to_string()),
            AgentMessageContent::RedactedThinking("x".to_string()),
            AgentMessageContent::Text("two".to_string()),
        ]),
    ];
    assert_eq!(body(messages, false), "## Assistant\n\none\ntwo\n\n");
}

#[test]
fn new_messages_are_appended() {
    let first = || user(vec![said("a")]);
    let second = || agent(vec![AgentMessageContent::Text("b".to_string())]);
    let before = body(vec![first()], false);
    let new = body(vec![second()], false);
    assert_eq!(body(vec![first(), second()], false), before + &new);
}

#[test]
fn context_setting_matters_for_mentions_only() {
    let messages = || vec![user(vec![said("a"), image("aGVsbG8=")]), Message::Resume];
    assert_eq!(body(messages(), true), body(messages(), false));
}

#[test]
fn legacy_document() {
    let message = |role, segments| SerializedMessage {
        id: MessageId(1),
        role,
        segments,
        tool_uses: vec![],
        tool_results: vec![],
        context: String::new(),
        creases: vec![],
        is_hidden: false,
    };
    let t = SerializedThread {
        version: "0.2.0".to_string(),
        summary: "Old".to_string(),
        updated_at: Timestamp::new(1709164800, 0).unwrap(),
        messages: vec![
            message(
                Role::System,
                vec![SerializedMessageSegment::Text {
                    text: "be kind".to_string(),
                }],
            ),
            message(
                Role::User,
                vec![
                    SerializedMessageSegment::Text {
                        text: "hi".to_string(),
                    },
                    SerializedMessageSegment::Thinking {
                        text: "no".to_string(),
                        signature: None,
                    },
                ],
            ),
            message(
                Role::Assistant,
                vec![SerializedMessageSegment::RedactedThinking {
                    data: "no".to_string(),
                }],
            ),
        ],
        initial_project_snapshot: None,
        cumulative_token_usage: TokenUsage::default(),
        request_token_usage: vec![],
        detailed_summary_state: DetailedSummaryState::default(),
        model: None,
        tool_use_limit_reached: false,
        profile: None,
    };
    let r = write_serialized_thread_markdown("abc", &t, HASH, None, false)
        .ok()
        .unwrap();
    assert_eq!(
        r,
        "---
title: Old
updated_at: 2024-02-29T00:00:00Z
content_hash: 0123456789abcdef0123456789abcdef0123456789abcdef0123456789abcdef
id: abc
---

## System

be kind

## User

hi

## Assistant


"
    );
    let fm = parse_existing_frontmatter(r.as_bytes()).unwrap();
    assert_eq!(fm.id.as_deref(), Some("abc"));
    assert_eq!(fm.updated_at, t.updated_at);
    assert_eq!(fm.content_hash.as_deref(), Some(HASH));
    assert!(!fm.include_context);

    let r = write_serialized_thread_markdown("abc", &t, HASH, None, true)
        .ok()
        .unwrap();
    assert!(r.contains("\ninclude_context: true\n"));
    let fm = parse_existing_frontmatter(r.as_bytes());
    assert_eq!(
        decide(false, true, "abc.md", fm.as_ref(), Some(&t.updated_at), HASH, "abc.md"),
        Decision::Skip
    );
}

#[test]
fn next_run_skips_unchanged_threads() {
    for i in 0..3 {
        for include_context in [false, true] {
            let t = thread("A Title", vec![user(vec![said("hello")])]);
            let r = write_db_thread_markdown(ID, &t, HASH, None, include_context)
                .ok()
                .unwrap();
            let stem = make_stem(candidate_prefix(ID, i), &slug_of_title(&t.title));
            let files = vec![ExistingFile {
                name: make_file_name(&stem),
                frontmatter: parse_existing_frontmatter(r.markdown.as_bytes()),
            }];
            let found = find_existing_file(&files, ID).map(|n| &files[n]);
            assert!(found.is_some());

            let mut progress = ExportProgress::new();
            assert_eq!(
                progress.next_action(false, include_context, HASH, found),
                ExportAction::ReadTimestamp
            );
            progress.stored = Some(Some(t.updated_at));
            assert_eq!(
                progress.next_action(false, include_context, HASH, found),
                ExportAction::Finish(ProcessResult::Skipped)
            );
            assert_eq!(
                progress.next_action(false, include_context, &content_hash(b"other"), found),
                ExportAction::Parse
            );
            assert_eq!(
                progress.next_action(false, !include_context, HASH, found),
                ExportAction::Parse
            );
            assert_eq!(
                progress.next_action(true, include_context, HASH, found),
                ExportAction::Parse
            );
            progress.stored = Some(Timestamp::new(t.updated_at.timestamp() + 1, 0));
            assert_eq!(
                progress.next_action(false, include_context, HASH, found),
                ExportAction::Parse
            );
        }
    }
}

#[test]
fn second_run_changes_nothing() {
    let ids = [
        "01941c3a-7f2e-7003-b8a2-4e9d1c08ef3a",
        "01941c3a-7f2f-7003-b8a2-4e9d1c08ef3a",
        "01941c3a.7f2f.7003.b8a2.4e9d1c08ef3a",
        "99941c3a-7f2f-7003-b8a2-4e9d1c08ef3a",
    ];
    let titles = ["One", "It's two", "", "One"];
    let documents: Vec<String> = ids.iter().map(|id| format!("document {}", id)).collect();
    let mut registry = Registry::new();
    let mut names = vec!["notes.txt".to_string(), "other_file.md".to_string()];
    let mut contents = vec![Vec::new(), Vec::new()];
    for i in 0..ids.len() {
        let plan = plan_thread(ids[i], titles[i], &mut registry, &build_file_index(&names));
        assert!(plan.existing.is_none());
        let t = thread(titles[i], vec![]);
        let hash = content_hash(documents[i].as_bytes());
        let r = write_db_thread_markdown(ids[i], &t, &hash, None, false).ok().unwrap();
        names.push(plan.file_name);
        contents.push(r.markdown.into_bytes());
    }
    let index = build_file_index(&names);
    let mut registry = Registry::new();
    let mut counts = RunCounts::new();
    for i in 0..ids.len() {
        let plan = plan_thread(ids[i], titles[i], &mut registry, &index);
        let k = plan.existing.unwrap();
        assert_eq!(k, i + 2);
        let hash = content_hash(documents[i].as_bytes());
        let next =
            |p: &Progress| p.next_action(false, false, &hash, Some(&names[k]), &plan.file_name);
        let mut progress = Progress::new();
        assert_eq!(next(&progress), Action::ReadHeader);
        progress.header = Some(parse_existing_frontmatter(&contents[k]));
        assert_eq!(next(&progress), Action::ReadTimestamp);
        progress.stored = Some(Some(thread("", vec![]).updated_at));
        assert_eq!(next(&progress), Action::Finish(ProcessResult::Skipped));
        counts.record(Some(ProcessResult::Skipped));
    }
    assert_eq!(counts.summary(), "Done. 0 created, 0 updated, 4 skipped.");
}

#[test]
fn file_with_an_unreadable_header_is_written_again_as_it_was() {
    let t = thread("a\n---\nb", vec![user(vec![said("hello")])]);
    let render = || {
        write_db_thread_markdown(ID, &t, HASH, None, false)
            .ok()
            .unwrap()
            .markdown
    };
    let content = render();
    let mut registry = Registry::new();
    let plan = plan_thread(ID, &t.title, &mut registry, &build_file_index(&vec![]));
    let names = vec![plan.file_name];
    let mut registry = Registry::new();
    let plan = plan_thread(ID, &t.title, &mut registry, &build_file_index(&names));
    assert_eq!(plan.existing, Some(0));
    let next = |p: &Progress| p.next_action(false, false, HASH, Some(&names[0]), &plan.file_name);
    let mut progress = Progress::new();
    assert_eq!(next(&progress), Action::ReadHeader);
    progress.header = Some(parse_existing_frontmatter(content.as_bytes()));
    assert_eq!(next(&progress), Action::Write);
    assert_eq!(render(), content);
    progress.written = Some(true);
    assert_eq!(next(&progress), Action::Finish(ProcessResult::Updated));
}

#[test]
fn linked_images_are_among_the_assets() {
    let messages = vec![
        user(vec![said("a"), image("aGVsbG8=")]),
        Message::Resume,
        user(vec![image("iVBORw0KGgo=")]),
    ];
    let (text, assets) = render_messages("t", &messages, false);
    assert_eq!(assets.len(), 2);
    for asset in assets {
        assert!(text.contains(&format!("![image](./{})\n", asset.name)));
    }
}
