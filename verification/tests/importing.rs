use zed_chat_export::importer::{
    AgentProfileId, ImageSize, LanguageModelImage, LanguageModelToolResultContent,
    LanguageModelToolUseId, SessionId, UnknownContent, UserMessageId,
};
use zed_chat_export::json::{JsonNumber, JsonValue};

fn text(s: &str) -> JsonValue {
    JsonValue::Text(s.to_string())
}

fn natural(n: u64) -> JsonValue {
    JsonValue::Number(JsonNumber::Natural(n))
}

fn object(fields: Vec<(&str, JsonValue)>) -> JsonValue {
    JsonValue::Object(
        fields
            .into_iter()
            .map(|(k, v)| (k.to_string(), v))
            .collect(),
    )
}

fn image(source: &str, width: i32, height: i32) -> LanguageModelToolResultContent {
    LanguageModelToolResultContent::Image(LanguageModelImage {
        source: source.to_string(),
        size: Some(ImageSize { width, height }),
    })
}

#[test]
fn plain_string_is_text() {
    let r = LanguageModelToolResultContent::deserialize(&text("hi"));
    assert!(r == Ok(LanguageModelToolResultContent::Text("hi".to_string())));
}

#[test]
fn typed_text_in_any_case() {
    let v = object(vec![
        ("TEXT", text("body")),
        ("Type", text("Text")),
        ("extra", JsonValue::Null),
    ]);
    let r = LanguageModelToolResultContent::deserialize(&v);
    assert!(r == Ok(LanguageModelToolResultContent::Text("body".to_string())));
}

#[test]
fn wrapped_text_needs_a_single_field() {
    let one = object(vec![("Text", text("body"))]);
    let r = LanguageModelToolResultContent::deserialize(&one);
    assert!(r == Ok(LanguageModelToolResultContent::Text("body".to_string())));

    let two = object(vec![("Text", text("body")), ("other", JsonValue::Null)]);
    assert!(LanguageModelToolResultContent::deserialize(&two) == Err(UnknownContent));
}

#[test]
fn wrapped_and_direct_images() {
    let size = || object(vec![("Width", natural(640)), ("height", natural(480))]);
    let direct = object(vec![("source", text("QUJD")), ("size", size())]);
    let r = LanguageModelToolResultContent::deserialize(&direct);
    assert!(r == Ok(image("QUJD", 640, 480)));

    let wrapped = object(vec![(
        "Image",
        object(vec![("SOURCE", text("QUJD")), ("Size", size())]),
    )]);
    let r = LanguageModelToolResultContent::deserialize(&wrapped);
    assert!(r == Ok(image("QUJD", 640, 480)));
}

#[test]
fn last_of_equal_fields_counts() {
    let size = object(vec![
        ("height", natural(2)),
        ("width", natural(1)),
        ("WIDTH", JsonValue::Number(JsonNumber::Negative(-7))),
    ]);
    let v = object(vec![
        ("source", text("a")),
        ("size", size),
        ("Source", text("b")),
    ]);
    assert!(LanguageModelToolResultContent::deserialize(&v) == Ok(image("b", -7, 2)));

    let spoiled = object(vec![
        ("source", text("a")),
        ("size", object(vec![("width", natural(1)), ("height", natural(2))])),
        ("SOURCE", JsonValue::Null),
    ]);
    assert!(LanguageModelToolResultContent::deserialize(&spoiled) == Err(UnknownContent));
}

#[test]
fn dimensions_keep_their_low_bits() {
    let size = object(vec![("width", natural(4294967297)), ("height", natural(2147483648))]);
    let v = object(vec![("source", text("a")), ("size", size)]);
    assert!(LanguageModelToolResultContent::deserialize(&v) == Ok(image("a", 1, i32::MIN)));
}

#[test]
fn other_values_are_refused() {
    assert!(LanguageModelToolResultContent::deserialize(&JsonValue::Null) == Err(UnknownContent));
    assert!(
        LanguageModelToolResultContent::deserialize(&JsonValue::Bool(true)) == Err(UnknownContent)
    );
    assert!(
        LanguageModelToolResultContent::deserialize(&JsonValue::Array(vec![text("a")]))
            == Err(UnknownContent)
    );
    let float = JsonValue::Number(JsonNumber::Other("1.5".to_string()));
    let size = object(vec![("width", float), ("height", natural(1))]);
    let v = object(vec![("source", text("a")), ("size", size)]);
    assert!(LanguageModelToolResultContent::deserialize(&v) == Err(UnknownContent));
    assert_eq!(
        UnknownContent.message("null"),
        "data did not match any variant of LanguageModelToolResultContent. Got: null"
    );
}

#[test]
fn integers_of_64_bits() {
    assert_eq!(natural(9223372036854775807).as_i64(), Some(i64::MAX));
    assert_eq!(natural(9223372036854775808).as_i64(), None);
    assert_eq!(
        JsonValue::Number(JsonNumber::Negative(-1)).as_i64(),
        Some(-1)
    );
    assert_eq!(text("1").as_i64(), None);
}

#[test]
fn identifiers_keep_their_text() {
    assert_eq!(SessionId::new("s-1".to_string()).to_string(), "s-1");
    let tool = LanguageModelToolUseId::from("tool".to_string());
    assert_eq!(tool.as_str(), "tool");
    assert_eq!(tool.to_string(), "tool");
    assert_eq!(AgentProfileId::default().as_str(), "write");
    assert_eq!(AgentProfileId::stored("ask".to_string()).to_string(), "ask");
    assert_eq!(UserMessageId::stored("m".to_string()).as_str(), "m");
}

#[test]
fn fresh_message_ids_are_random_uuids() {
    let a = UserMessageId::new();
    let b = UserMessageId::default();
    assert_ne!(a.as_str(), b.as_str());
    for id in [a, b] {
        let s: Vec<char> = id.as_str().chars().collect();
        assert_eq!(s.len(), 36);
        for (i, c) in s.iter().enumerate() {
            if [8, 13, 18, 23].contains(&i) {
                assert_eq!(*c, '-');
            } else {
                assert!(c.is_ascii_digit() || ('a'..='f').contains(c));
            }
        }
        assert_eq!(s[14], '4');
        assert!(['8', '9', 'a', 'b'].contains(&s[19]));
    }
}

#[test]
fn images_are_shown_by_their_size() {
    let img = LanguageModelImage {
        source: "QUJD".to_string(),
        size: Some(ImageSize {
            width: -3,
            height: 40,
        }),
    };
    assert_eq!(
        img.debug_text(),
        "LanguageModelImage { source: \"<4 bytes>\", size: Some(ImageSize { width: -3, height: 40 }) }"
    );
    let bare = LanguageModelImage {
        source: String::new(),
        size: None,
    };
    assert_eq!(
        bare.debug_text(),
        "LanguageModelImage { source: \"<0 bytes>\", size: None }"
    );
}

#[test]
fn keys_are_found_from_either_end() {
    let keys: Vec<String> = ["a", "b", "a", "A"].iter().map(|s| s.to_string()).collect();
    assert_eq!(zed_chat_export::json::find_first(&keys, "a"), Some(0));
    assert_eq!(zed_chat_export::json::find_last(&keys, "a"), Some(2));
    assert_eq!(zed_chat_export::json::find_first(&keys, "b"), Some(1));
    assert_eq!(zed_chat_export::json::find_last(&keys, "c"), None);
}

#[test]
fn defaults_of_documents() {
    assert!(zed_chat_export::importer::is_zero_u64(&0));
    assert!(!zed_chat_export::importer::is_zero_u64(&1));
    assert!(zed_chat_export::importer::default_include_errors());
}
