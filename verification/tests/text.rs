use agent_connectors::content::{
    extract_invocations_from_content_blocks, flatten_content, parse_timestamp,
};
use agent_connectors::document::parse_json;
use agent_connectors::json::Json;
use agent_connectors::text;
use agent_connectors::timeline::{known_timestamp, max_timestamp, min_timestamp};

fn json(text: &str) -> Json {
    parse_json(text).unwrap()
}

const SAMPLES: [&str; 16] = [
    "",
    "a",
    "a\n",
    "a\r\nb",
    "a\rb\r",
    "\n\n",
    "\r\n",
    " a \n\t\n b",
    "a\nb\n\nc",
    "\u{a0}x\u{3000}",
    "\u{2028}\u{85}",
    "\u{200b}",
    "Grüße\nΣΑΣ",
    "\u{b}x\u{c}",
    "\u{1c}x\u{1f}",
    "x\u{feff}",
];

#[test]
fn text_is_cut_as_the_standard_library_cuts_it() {
    for sample in SAMPLES {
        assert_eq!(text::trim(sample), sample.trim(), "{sample:?}");
        assert_eq!(
            text::blank(sample),
            sample.trim().is_empty(),
            "{sample:?}"
        );
        assert_eq!(
            text::lines(sample),
            sample.lines().collect::<Vec<_>>(),
            "{sample:?}"
        );
        assert_eq!(
            text::trimmed_lines(sample),
            sample
                .lines()
                .map(str::trim)
                .filter(|line| !line.is_empty())
                .collect::<Vec<_>>(),
            "{sample:?}"
        );
        assert_eq!(
            text::first_line(sample),
            sample.lines().next().unwrap_or(sample),
            "{sample:?}"
        );
        assert_eq!(text::cut_to(sample, 3), sample.chars().take(3).collect::<String>());
        assert_eq!(text::to_ascii_lower(sample), sample.to_ascii_lowercase());
        assert_eq!(
            text::rest_after(sample, 'a'),
            sample.split_once('a').map_or(sample, |(_, rest)| rest)
        );
        for part in SAMPLES {
            assert_eq!(text::contains(sample, part), sample.contains(part));
            assert_eq!(text::ends_with(sample, part), sample.ends_with(part));
            assert_eq!(
                text::after_prefix(sample, part).as_deref(),
                sample.strip_prefix(part)
            );
            assert_eq!(
                text::same_ignoring_case(sample, part),
                sample.eq_ignore_ascii_case(part)
            );
            assert_eq!(text::same_text(sample, part), sample == part);
        }
    }
    for code in 0..=0x3100u32 {
        if let Some(c) = char::from_u32(code) {
            assert_eq!(text::white(c), c.is_whitespace(), "{code:x}");
        }
    }
}

#[test]
fn content_is_flattened() {
    assert_eq!(flatten_content(&json("\"x\"")), "x");
    assert_eq!(
        flatten_content(&json(r#"["a",{"text":"b"},{"other":"c"},4,{"text":5},"d"]"#)),
        "a\nb\nd"
    );
    assert_eq!(flatten_content(&json(r#"["",""]"#)), "\n");
    assert_eq!(flatten_content(&json(r#"{"text":"x"}"#)), "");
    assert_eq!(flatten_content(&json("7")), "");
}

#[test]
fn timestamps_are_integers() {
    assert_eq!(parse_timestamp(&json("1700000000000")), Some(1_700_000_000_000));
    assert_eq!(parse_timestamp(&json("-5")), Some(-5));
    assert_eq!(parse_timestamp(&json("18446744073709551615")), None);
    assert_eq!(parse_timestamp(&json("1.5")), None);
    assert_eq!(parse_timestamp(&json("\"1\"")), None);
}

#[test]
fn tool_use_blocks_are_calls() {
    let calls = extract_invocations_from_content_blocks(&json(
        r#"[{"type":"tool_use","name":"run","id":"c1","input":{"x":1}},{"type":"tool_use"},{"type":"text","name":"no"},"s"]"#,
    ));
    assert_eq!(calls.len(), 1);
    assert_eq!(calls[0].name, "run");
    assert_eq!(calls[0].call_id.as_deref(), Some("c1"));
    assert!(calls[0].arguments.as_ref().unwrap().get("x").is_some());
    assert!(extract_invocations_from_content_blocks(&json("{}")).is_empty());
}

#[test]
fn unknown_timestamps_do_not_count() {
    assert_eq!(min_timestamp(Some(2), Some(1)), Some(1));
    assert_eq!(max_timestamp(Some(2), Some(1)), Some(2));
    assert_eq!(min_timestamp(None, Some(1)), Some(1));
    assert_eq!(max_timestamp(Some(1), None), Some(1));
    assert_eq!(min_timestamp(None, None), None);
    assert_eq!(max_timestamp(None, None), None);
    assert_eq!(known_timestamp(None, Some(3)), Some(3));
    assert_eq!(known_timestamp(Some(4), Some(3)), Some(4));
}
