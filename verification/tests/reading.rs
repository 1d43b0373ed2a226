use zed_chat_export::timestamp::Timestamp;
use zed_chat_export::utils::{
    classify_line, decompress, extract_json_timestamp, parse_existing_frontmatter,
    DecompressError, HeaderField,
};

fn at(secs: i64, nanos: u32) -> Timestamp {
    Timestamp::new(secs, nanos).unwrap()
}

#[test]
fn header_fields_are_extracted() {
    let content = b"---\ntitle: T\nid: 'abc'\nupdated_at: \"2024-02-29T01:00:00+01:00\"\ncontent_hash: 'ab12'\ninclude_context: true\n---\nid: no\n";
    let fm = parse_existing_frontmatter(content).unwrap();
    assert_eq!(fm.id.as_deref(), Some("abc"));
    assert_eq!(fm.content_hash.as_deref(), Some("ab12"));
    assert_eq!(fm.updated_at, at(1709164800, 0));
    assert!(fm.include_context);
}

#[test]
fn carriage_returns_are_part_of_line_endings() {
    let content = b"---\r\nid: abc\r\nupdated_at: 2024-02-29T00:00:00Z\r\n---\r\n";
    let fm = parse_existing_frontmatter(content).unwrap();
    assert_eq!(fm.id.as_deref(), Some("abc"));
    assert!(!fm.include_context);
}

#[test]
fn header_may_end_with_the_file() {
    let fm = parse_existing_frontmatter(b"---\nupdated_at: 2024-02-29T00:00:00Z").unwrap();
    assert!(fm.id.is_none());
    assert!(fm.content_hash.is_none());
    assert_eq!(fm.updated_at, at(1709164800, 0));
}

#[test]
fn no_header_without_fence_or_timestamp() {
    assert!(parse_existing_frontmatter(b"").is_none());
    assert!(parse_existing_frontmatter(b"# title\n").is_none());
    assert!(parse_existing_frontmatter(b"---\nid: abc\n---\n").is_none());
    assert!(parse_existing_frontmatter(b"---\nupdated_at: yesterday\n---\n").is_none());
    assert!(parse_existing_frontmatter(b"\xff\n").is_none());
}

#[test]
fn later_lines_replace_earlier_ones() {
    let content = b"---\nupdated_at: 2024-02-29T00:00:00Z\nid: a\nid: b\nupdated_at: bad\n---\n";
    assert!(parse_existing_frontmatter(content).is_none());
    let content = b"---\nupdated_at: bad\nid: a\nid: b\nupdated_at: 2024-02-29T00:00:00Z\n---\n";
    assert_eq!(
        parse_existing_frontmatter(content).unwrap().id.as_deref(),
        Some("b")
    );
}

#[test]
fn lines_that_are_not_text() {
    let content = b"---\nupdated_at: 2024-02-29T00:00:00Z\n\xff\n---\n";
    assert!(parse_existing_frontmatter(content).is_none());
    let content = b"---\nupdated_at: 2024-02-29T00:00:00Z\n---\n\xff\n";
    assert!(parse_existing_frontmatter(content).is_some());
}

#[test]
fn headers_are_read_up_to_a_limit() {
    let header = |n: usize| {
        let mut s = String::from("---\nupdated_at: 2024-02-29T00:00:00Z\n");
        s.push_str(&"x".repeat(n));
        s.push_str("\nid: abc\n---\n");
        s
    };
    // 33 bytes of timestamp, n + 1 of filling and 8 of id, line endings included.
    let fits = header(2048 - 33 - 1 - 8);
    let fm = parse_existing_frontmatter(fits.as_bytes()).unwrap();
    assert_eq!(fm.id.as_deref(), Some("abc"));
    let too_long = header(2048 - 33 - 1 - 8 + 1);
    let fm = parse_existing_frontmatter(too_long.as_bytes()).unwrap();
    assert!(fm.id.is_none());
}

#[test]
fn header_lines() {
    let meaning = |s: &str| {
        let chars: Vec<char> = s.chars().collect();
        classify_line(&chars)
    };
    assert!(matches!(meaning("id:  ' x ' "), HeaderField::Id(s) if s == " x "));
    assert!(matches!(meaning("id: \"'x'\""), HeaderField::Id(s) if s == "'x'"));
    assert!(matches!(meaning("id: '\"x\"'"), HeaderField::Id(s) if s == "x"));
    assert!(matches!(meaning("updated_at: now"), HeaderField::UpdatedAt(s) if s == "now"));
    assert!(matches!(meaning("content_hash: 0f"), HeaderField::ContentHash(s) if s == "0f"));
    assert!(matches!(
        meaning("include_context: true "),
        HeaderField::IncludeContext(true)
    ));
    assert!(matches!(
        meaning("include_context: 'true'"),
        HeaderField::IncludeContext(false)
    ));
    assert!(matches!(meaning(" id: x"), HeaderField::Other));
    assert!(matches!(meaning("title: id: x"), HeaderField::Other));
}

#[test]
fn stored_data_is_decompressed() {
    let packed = zstd::encode_all(&b"{\"a\":1}"[..], 3).unwrap();
    assert_ne!(packed, b"{\"a\":1}".to_vec());
    assert_eq!(decompress("zstd", &packed).unwrap(), b"{\"a\":1}".to_vec());
    assert_eq!(decompress("json", b"{}").unwrap(), b"{}".to_vec());
    assert!(matches!(
        decompress("zstd", b"no stream"),
        Err(DecompressError::Zstd(_))
    ));
    assert!(matches!(
        decompress("gzip", b""),
        Err(DecompressError::UnknownDataType(s)) if s == "gzip"
    ));
}

#[test]
fn timestamps_of_documents() {
    assert_eq!(
        extract_json_timestamp(Some("2024-02-29T00:00:00.5Z")),
        Some(at(1709164800, 500_000_000))
    );
    assert_eq!(
        extract_json_timestamp(Some("2024-02-29 02:00:00 +0200")),
        Some(at(1709164800, 0))
    );
    assert_eq!(extract_json_timestamp(Some("soon")), None);
    assert_eq!(extract_json_timestamp(None), None);
}

#[test]
fn instants_are_bounded() {
    assert!(Timestamp::new(8210266876799, 999_999_999).is_some());
    assert!(Timestamp::new(8210266876800, 0).is_none());
    assert!(Timestamp::new(-8334601228800, 0).is_some());
    assert!(Timestamp::new(-8334601228801, 0).is_none());
    assert!(Timestamp::new(0, 1_000_000_000).is_none());
    assert!(Timestamp::new(59, 1_999_999_999).is_some());
    assert!(Timestamp::new(-1, 1_000_000_000).is_some());
    assert!(Timestamp::new(59, 2_000_000_000).is_none());
    for secs in [8210266876799, -8334601228800, 0, -1, 1749892937] {
        assert_eq!(
            chrono::DateTime::from_timestamp(secs, 0)
                .unwrap()
                .timestamp(),
            at(secs, 0).timestamp()
        );
    }
    assert!(chrono::DateTime::from_timestamp(8210266876800, 0).is_none());
    assert!(chrono::DateTime::from_timestamp(-8334601228801, 0).is_none());
}

#[test]
fn timestamps_are_written_and_read() {
    assert_eq!(at(1749892937, 41832000).to_rfc3339(), "2025-06-14T09:22:17.041832Z");
    assert_eq!(at(0, 0).to_rfc3339(), "1970-01-01T00:00:00Z");
    let samples = [
        (0, 0),
        (1749892937, 41832000),
        (-62167219200, 0),
        (253402300799, 999_999_999),
        (59, 1_500_000_000),
        (-1, 1),
    ];
    for (secs, nanos) in samples {
        let t = at(secs, nanos);
        assert_eq!(Timestamp::parse_rfc3339(&t.to_rfc3339()), Some(t));
        assert_eq!(t.timestamp_subsec_nanos(), nanos);
    }
    assert_eq!(Timestamp::parse_rfc3339(&at(253402300800, 0).to_rfc3339()), None);
    for secs in [8210266876799, -8334601228800] {
        assert!(at(secs, 999_999_999).to_rfc3339().len() <= 40);
    }
}

#[test]
fn timestamps_are_ordered() {
    let a = at(10, 5);
    let b = at(10, 6);
    let c = at(11, 0);
    assert!(b.at_or_after(&a) && !a.at_or_after(&b));
    assert!(c.at_or_after(&b) && c.at_or_after(&a) && !a.at_or_after(&c));
    assert!(a.at_or_after(&a));
}
