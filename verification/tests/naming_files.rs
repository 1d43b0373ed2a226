use zed_chat_export::naming::{
    candidate_prefix, make_file_name, make_stem, prefix_of_file, prefix_of_stem,
    shorten_slug, slug_of_title,
};
use zed_chat_export::parallel;
use zed_chat_export::parallel::{
    can_step, find_existing_file, has_existing_exports, named_after, next_stem, ExistingFile,
    Probe, StemStep,
};
use zed_chat_export::process::{
    allocate_filename, allocate_stem, build_file_index, plan_thread, Registry,
};
use zed_chat_export::timestamp::Timestamp;
use zed_chat_export::utils::FileFrontmatter;

const A: &str = "01941c3a-7f2e-7003-b8a2-4e9d1c08ef3a";
const B: &str = "01941c3a-7f2f-7003-b8a2-4e9d1c08ef3a";
const C: &str = "01941c3a-7f20-7003-b8a2-4e9d1c08ef3a";

fn frontmatter(id: Option<&str>) -> Option<FileFrontmatter> {
    Some(FileFrontmatter {
        id: id.map(|s| s.to_string()),
        updated_at: Timestamp::new(0, 0).unwrap(),
        content_hash: None,
        include_context: false,
    })
}

fn listed(name: &str, id: Option<&str>) -> ExistingFile {
    ExistingFile {
        name: name.to_string(),
        frontmatter: frontmatter(id),
    }
}

#[test]
fn titles_become_slugs() {
    assert_eq!(slug_of_title("Fix Deadlock, Please!"), "fix-deadlock-please");
    assert_eq!(slug_of_title("\u{c6}ther"), "aether");
    assert_eq!(slug_of_title("!!!"), "");
    let long = "word ".repeat(30);
    let slug = slug_of_title(&long);
    assert!(slug.len() <= 60);
    assert!(!slug.ends_with('-'));
    assert_eq!(slug, ["word"; 12].join("-"));
}

#[test]
fn slugs_are_cut_before_a_hyphen() {
    let raw = format!("{}-{}", "a".repeat(59), "b".repeat(10));
    assert_eq!(shorten_slug(&raw), "a".repeat(59));
    let raw = format!("{}--{}", "a".repeat(58), "b".repeat(10));
    assert_eq!(shorten_slug(&raw), "a".repeat(58));
    assert_eq!(shorten_slug("short"), "short");
}

#[test]
fn candidates_of_an_identifier() {
    assert_eq!(candidate_prefix(A, 0), "01941c3a");
    assert_eq!(candidate_prefix(A, 1), "01941c3a-7f2");
    assert_eq!(candidate_prefix(A, 2), A);
    assert_eq!(candidate_prefix("abc", 0), "abc");
}

#[test]
fn stems_and_prefixes() {
    assert_eq!(make_stem("p", "slug"), "p_slug");
    assert_eq!(make_stem("p", ""), "p");
    assert_eq!(make_file_name("p_slug"), "p_slug.md");
    assert_eq!(prefix_of_stem("p_slug_x"), "p");
    assert_eq!(prefix_of_file("p_slug.md").as_deref(), Some("p"));
    assert_eq!(prefix_of_file("p.md").as_deref(), Some("p"));
    assert_eq!(prefix_of_file("p.md.md").as_deref(), Some("p"));
    assert_eq!(prefix_of_file("_slug.md"), None);
    assert_eq!(prefix_of_file(".md"), None);
    assert_eq!(prefix_of_file("p_slug.txt"), None);
}

#[test]
fn registry_gives_out_longer_prefixes() {
    let mut registry = Registry::new();
    assert_eq!(allocate_filename(A, "T", &mut registry), "01941c3a_t");
    assert_eq!(allocate_filename(B, "T", &mut registry), "01941c3a-7f2_t");
    assert_eq!(
        allocate_filename(C, "T", &mut registry),
        "01941c3a-7f20-7003-b8a2-4e9d1c08ef3a_t"
    );
    // Asking again changes nothing.
    assert_eq!(allocate_filename(A, "U", &mut registry), "01941c3a_u");
    assert_eq!(allocate_filename(B, "", &mut registry), "01941c3a-7f2");
    assert_eq!(allocate_stem(C, "v", &mut registry), format!("{}_v", C));
}

#[test]
fn short_identifiers_may_share_a_prefix() {
    let mut registry = Registry::new();
    assert_eq!(allocate_stem("12345678-long", "", &mut registry), "12345678");
    assert_eq!(allocate_stem("12345678", "", &mut registry), "12345678");
}

#[test]
fn identifiers_are_cut_as_far_as_needed() {
    let id = "12345678abc\u{e9}-long-enough";
    let mut registry = Registry::new();
    assert!(registry.can_name("short"));
    assert!(!registry.can_name("1234567\u{e9}"));
    assert!(registry.can_name(id));
    assert_eq!(allocate_stem(id, "", &mut registry), "12345678");
    assert!(registry.can_name(id));
    let mut registry = Registry::new();
    assert_eq!(allocate_stem("12345678-other", "", &mut registry), "12345678");
    assert!(!registry.can_name(id));

    assert!(can_step(id, &vec![]));
    assert!(can_step(id, &vec![Probe::Absent]));
    assert!(!can_step(id, &vec![Probe::Present(None)]));
    assert!(can_step(A, &vec![Probe::Present(None)]));
    assert!(!can_step("1234567\u{e9}", &vec![]));
    match next_stem(id, "t", &vec![Probe::Absent]) {
        StemStep::Use(s) => assert_eq!(s, "12345678_t"),
        StemStep::Try(_) => panic!("the name is free"),
    }
    assert!(named_after("12345678_t.md", id));
    let files = vec![listed("12345678_t.md", Some(id))];
    assert_eq!(find_existing_file(&files, id), Some(0));
}

#[test]
fn prefixes_are_kept_over_a_run() {
    let dotted = "01941c3a.7f2e.7003.b8a2.4e9d1c08ef3a";
    let ids = [A, dotted, B, C, "01941c3a-7f2", "xyz-01941c3a-7f2"];
    let mut registry = Registry::new();
    let stems: Vec<String> = ids
        .iter()
        .map(|id| allocate_stem(id, "", &mut registry))
        .collect();
    assert_eq!(stems[1], "01941c3a.7f2");
    for i in 0..4 {
        for j in 0..i {
            assert_ne!(stems[i], stems[j]);
        }
        assert_eq!(allocate_stem(ids[i], "", &mut registry), stems[i]);
    }
}

#[test]
fn index_keeps_the_last_file_of_a_prefix() {
    let names: Vec<String> = ["a_x.md", "notes.txt", "b.md", "a_y.md"]
        .iter()
        .map(|s| s.to_string())
        .collect();
    let mut index = build_file_index(&names);
    assert_eq!(index.get("a"), Some(3));
    assert_eq!(index.get("b"), Some(2));
    assert_eq!(index.get("notes"), None);
    index.insert("a", 7);
    assert_eq!(index.get("a"), Some(7));
}

#[test]
fn plan_finds_the_file_from_before() {
    let names = vec![
        "other.md".to_string(),
        make_file_name(&make_stem("01941c3a", "old-title")),
    ];
    let index = build_file_index(&names);
    let mut registry = Registry::new();
    let plan = plan_thread(A, "New Title", &mut registry, &index);
    assert_eq!(plan.stem, "01941c3a_new-title");
    assert_eq!(plan.prefix, "01941c3a");
    assert_eq!(plan.file_name, "01941c3a_new-title.md");
    assert_eq!(plan.existing, Some(1));
    let plan = plan_thread(B, "New Title", &mut registry, &index);
    assert_eq!(plan.existing, None);
}

#[test]
fn exports_are_told_by_their_extension() {
    let names = |v: &[&str]| v.iter().map(|s| s.to_string()).collect::<Vec<String>>();
    assert!(has_existing_exports(&names(&["assets", "a.md"])));
    assert!(!has_existing_exports(&names(&["assets", "a.txt"])));
    assert!(!has_existing_exports(&names(&[])));
}

#[test]
fn file_of_a_thread_is_found_by_its_header() {
    let files = vec![
        listed("01941c3a_t.txt", Some(A)),
        listed("01941c3a_u.md", Some(B)),
        ExistingFile {
            name: "01941c3a_w.md".to_string(),
            frontmatter: None,
        },
        listed("zzz.md", Some(A)),
        listed("01941c3a-7f2_t.md", Some(A)),
        listed("01941c3a_t.md", Some(A)),
    ];
    assert_eq!(find_existing_file(&files, A), Some(4));
    assert_eq!(find_existing_file(&files, B), Some(1));
    assert_eq!(find_existing_file(&files, C), None);
}

fn step(probes: &Vec<Probe>) -> String {
    match next_stem(A, "t", probes) {
        StemStep::Try(s) => format!("try {}", s),
        StemStep::Use(s) => format!("use {}", s),
    }
}

#[test]
fn names_are_looked_for_from_the_shortest() {
    let other = || Probe::Present(Some(B.to_string()));
    assert_eq!(step(&vec![]), "try 01941c3a_t");
    assert_eq!(step(&vec![Probe::Absent]), "use 01941c3a_t");
    assert_eq!(step(&vec![Probe::Unknown]), "use 01941c3a_t");
    assert_eq!(
        step(&vec![Probe::Present(Some(A.to_string()))]),
        "use 01941c3a_t"
    );
    assert_eq!(step(&vec![other()]), "try 01941c3a-7f2_t");
    assert_eq!(step(&vec![Probe::Present(None)]), "try 01941c3a-7f2_t");
    assert_eq!(
        step(&vec![other(), Probe::Absent]),
        "use 01941c3a-7f2_t"
    );
    assert_eq!(step(&vec![other(), other()]), format!("try {}_t", A));
    assert_eq!(
        step(&vec![other(), other(), other()]),
        format!("use {}_t", A)
    );
    match parallel::allocate_filename(A, "Some Title", &vec![]) {
        StemStep::Try(s) => assert_eq!(s, "01941c3a_some-title"),
        StemStep::Use(_) => panic!("nothing has been looked for"),
    }
}
