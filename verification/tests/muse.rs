use agent_connectors::disk::{Disk, DiskFile, Walk};
use agent_connectors::json::Json;
use agent_connectors::muse::{
    argument_of, parse_reader, recorded_at_millis, truncate, MuseConnector, SelfPath,
};
use agent_connectors::paths::FilePath;
use agent_connectors::scan::{ReadError, ScanContext, ScanRoot, UserDirs};

/// A file of a made-up file system.
struct Entry {
    path: String,
    text: String,
    rows: Option<Vec<String>>,
}

fn entry(path: &str, text: &str) -> Entry {
    Entry {
        path: path.to_string(),
        text: text.to_string(),
        rows: None,
    }
}

fn ancestors(path: &str) -> Vec<String> {
    let mut out = Vec::new();
    let mut rest = path;
    while let Some(at) = rest.rfind('/') {
        rest = &rest[..at];
        if rest.is_empty() {
            break;
        }
        out.push(rest.to_string());
    }
    out
}

/// What a walk of the made-up file system from every directory would show.
fn disk_at(entries: Vec<Entry>, dirs: &[&str], modified: i64) -> Disk {
    let mut all_dirs: Vec<String> = dirs.iter().map(|dir| dir.to_string()).collect();
    for dir in dirs {
        all_dirs.extend(ancestors(dir));
    }
    for entry in &entries {
        all_dirs.extend(ancestors(&entry.path));
    }
    all_dirs.sort();
    all_dirs.dedup();
    let walks = all_dirs
        .iter()
        .map(|dir| Walk {
            root: FilePath::parse(dir),
            files: entries
                .iter()
                .filter(|entry| entry.path.starts_with(&format!("{dir}/")))
                .map(|entry| FilePath::parse(&entry.path))
                .collect(),
        })
        .collect();
    Disk {
        files: entries
            .into_iter()
            .map(|entry| DiskFile {
                path: FilePath::parse(&entry.path),
                modified: Some(modified),
                bytes: Some(entry.text.into_bytes()),
                rows: entry.rows,
            })
            .collect(),
        dirs: all_dirs.iter().map(|dir| FilePath::parse(dir)).collect(),
        walks,
    }
}

fn disk(entries: Vec<Entry>) -> Disk {
    disk_at(entries, &[], 1_700_000_000_000)
}

fn user() -> UserDirs {
    UserDirs {
        home: Some(FilePath::parse("/home/user")),
        config: Some(FilePath::parse("/home/user/.config")),
    }
}

/// A JSON value of the library as one of `serde_json`.
fn plain(value: &Json) -> serde_json::Value {
    match value {
        Json::Null => serde_json::Value::Null,
        Json::Bool(b) => serde_json::Value::Bool(*b),
        Json::UInt(n) => serde_json::Value::from(*n),
        Json::NegInt(n) => serde_json::Value::from(*n),
        Json::Float(bits) => serde_json::Value::from(f64::from_bits(*bits)),
        Json::Text(s) => serde_json::Value::String(s.clone()),
        Json::Array(items) => serde_json::Value::Array(items.iter().map(plain).collect()),
        Json::Object(members) => serde_json::Value::Object(
            members
                .iter()
                .map(|member| (member.key.clone(), plain(&member.value)))
                .collect(),
        ),
    }
}

fn line(sequence: i64, recorded_at: i64, payload_type: &str, payload: &str) -> String {
    format!(
        "{{\"stream\":{{\"kind\":\"session\",\"id\":\"muse-session\"}},\"sequence\":{sequence},\"recorded_at\":{recorded_at},\"payload_type\":\"{payload_type}\",\"payload\":{payload}}}"
    )
}

fn fixture() -> String {
    [
        line(4, 1_700_000_003_000_999, "runtime.session", r#"{"kind":"run","event":{"kind":"assistant_message_committed","text":"done"}}"#),
        line(1, 1_700_000_000_000_123, "runtime.session.metadata", r#"{"kind":"metadata","record":{"workspace_root":"/tmp/muse-workspace"}}"#),
        line(2, 1_700_000_001_000_123, "runtime.session", r#"{"kind":"run","event":{"kind":"started","prompt":"inspect the tree"}}"#),
        line(3, 1_700_000_002_000_123, "runtime.session", r#"{"kind":"run","event":{"kind":"assistant_tool_calls_committed","tool_calls":[{"name":"bash","call_id":"call-1","args":"{\"command\":\"ls\"}"}]}}"#),
        line(5, 1_700_000_004_000_123, "runtime.session", r#"{"kind":"run","event":{"kind":"tool_result_batch_committed","results":[{"tool_call_id":"call-1","text":"file.rs"}]}}"#),
        line(6, 1_700_000_005_000_123, "runtime.session", r#"{"kind":"run","event":{"kind":"model_completed","model":"muse-spark-1.2"}}"#),
    ]
    .join("\n")
}

#[test]
fn root_normalization_orders_by_sequence_and_normalizes_micros() {
    let conversation = parse_reader(
        &fixture().into_bytes(),
        &FilePath::parse("/muse/session.jsonl"),
    )
    .unwrap();
    assert_eq!(conversation.external_id.as_deref(), Some("muse-session"));
    assert_eq!(
        conversation.workspace.as_deref(),
        Some("/tmp/muse-workspace")
    );
    assert_eq!(conversation.started_at, Some(1_700_000_000_000));
    assert_eq!(conversation.messages[0].role, "user");
    assert_eq!(conversation.messages[0].created_at, Some(1_700_000_001_000));
    assert_eq!(
        conversation.messages[1].invocations[0]
            .arguments
            .as_ref()
            .map(plain),
        Some(serde_json::from_str(r#"{"command":"ls"}"#).unwrap())
    );
    assert_eq!(conversation.messages[2].content, "done");
    assert_eq!(conversation.messages[3].role, "tool");
    let extra = plain(&conversation.messages[1].extra);
    assert!(extra.pointer("/payload/event").is_some());
    assert!(extra.pointer("/muse_telemetry").is_none());
    assert_eq!(
        plain(&conversation.metadata)["token_coverage"],
        "model completion events are retained only in raw source; per-message attribution is unsupported"
    );
    assert_eq!(conversation.ended_at, Some(1_700_000_005_000));
    assert_eq!(conversation.title.as_deref(), Some("inspect the tree"));
}

#[test]
fn telemetry_only_and_malformed_files_are_ignored() {
    let input = "not json\n".to_owned()
        + &line(
            1,
            1,
            "runtime.session",
            r#"{"kind":"run","event":{"kind":"context_block_diagnostic"}}"#,
        );
    let path = FilePath::parse("/muse/session.jsonl");
    assert!(parse_reader(&input.into_bytes(), &path).is_none());
    assert!(parse_reader(&Vec::new(), &path).is_none());
}

#[test]
fn nested_subagent_inherits_workspace_and_has_metadata() {
    let child_fixture = line(
        1,
        1_700_000_010_000_123,
        "runtime.session",
        r#"{"kind":"run","event":{"kind":"started","prompt":"child"}}"#,
    );
    let child = "/tmp/t/2026/08/13/session-1/subagent/child-1/session.jsonl";
    let disk = disk(vec![
        entry("/tmp/t/2026/08/13/session-1/session.jsonl", &fixture()),
        entry(child, &child_fixture),
    ]);
    let conversation = MuseConnector::parse_file(&FilePath::parse(child), &disk)
        .unwrap()
        .unwrap();
    assert_eq!(
        conversation.workspace.as_deref(),
        Some("/tmp/muse-workspace")
    );
    assert_eq!(plain(&conversation.metadata)["is_subagent"], true);
    assert_eq!(plain(&conversation.metadata)["subagent_id"], "child-1");
}

#[test]
fn discovery_covers_root_and_nested_scan_sources() {
    let disk = disk(vec![
        entry(
            "/tmp/t/sessions/2026/08/13/session-1/session.jsonl",
            &fixture(),
        ),
        entry(
            "/tmp/t/sessions/2026/08/13/session-1/subagent/child-1/session.jsonl",
            &fixture(),
        ),
    ]);
    let connector = MuseConnector::new();
    let context = ScanContext::local_default(FilePath::parse("/tmp/t/sessions"), None);
    let sources: Vec<String> = connector
        .discover_source_files(&context, &user(), &disk)
        .iter()
        .map(|source| source.source_path.to_text())
        .collect();
    let found = connector.scan(&context, &user(), &disk);
    assert_eq!(found.len(), 2);
    for conversation in found {
        assert!(sources.contains(&conversation.source_path.to_text()));
    }
    assert_eq!(sources.len(), 2);
}

#[test]
fn records_of_one_number_keep_their_order_and_one_without_comes_as_zero() {
    let said = |sequence: &str, text: &str| {
        format!(
            "{{{sequence}\"payload_type\":\"runtime.session\",\"payload\":{{\"kind\":\"run\",\"event\":{{\"kind\":\"assistant_message_committed\",\"text\":\"{text}\"}}}}}}"
        )
    };
    let log = [
        said("\"sequence\":3,", "third a"),
        said("\"sequence\":-1,", "before"),
        said("\"sequence\":3,", "third b"),
        said("", "none"),
        said("\"sequence\":\"x\",", "odd"),
    ]
    .join("\n");
    let conversation =
        parse_reader(&log.into_bytes(), &FilePath::parse("/muse/session.jsonl")).unwrap();
    let texts: Vec<&str> = conversation
        .messages
        .iter()
        .map(|message| message.content.as_str())
        .collect();
    assert_eq!(texts, ["before", "none", "odd", "third a", "third b"]);
    assert_eq!(conversation.started_at, None);
    assert_eq!(conversation.ended_at, None);
    assert_eq!(conversation.title, None);
    assert_eq!(conversation.external_id, None);
}

#[test]
fn a_log_is_read_up_to_the_first_line_that_is_no_text() {
    let first = line(
        1,
        5_000,
        "runtime.session",
        r#"{"kind":"run","event":{"kind":"started","prompt":"one"}}"#,
    );
    let mut bytes = first.clone().into_bytes();
    bytes.extend_from_slice(b"\r\n\xff\xfe\n");
    bytes.extend_from_slice(first.as_bytes());
    let path = FilePath::parse("/muse/session.jsonl");
    let conversation = parse_reader(&bytes, &path).unwrap();
    assert_eq!(conversation.messages.len(), 1);
    assert_eq!(conversation.messages[0].created_at, Some(5));
}

#[test]
fn microseconds_are_cut_towards_zero() {
    let at = |text: &str| {
        recorded_at_millis(&agent_connectors::document::parse_json(text).unwrap())
    };
    assert_eq!(at(r#"{"recorded_at":1999}"#), Some(1));
    assert_eq!(at(r#"{"recorded_at":-1999}"#), Some(-1));
    assert_eq!(at(r#"{"recorded_at":-999}"#), Some(0));
    assert_eq!(
        at(r#"{"recorded_at":-9223372036854775808}"#),
        Some(i64::MIN / 1000)
    );
    assert_eq!(at(r#"{"recorded_at":"1"}"#), None);
    assert_eq!(at("[]"), None);
}

#[test]
fn muse_tool_calls_need_a_name_and_keep_odd_arguments() {
    let log = line(
        1,
        1,
        "runtime.session",
        r#"{"kind":"run","event":{"kind":"assistant_tool_calls_committed","tool_calls":[{"name":"  "},{"args":1},{"name":" run ","args":"not json"},{"name":"b","args":[1]}]}}"#,
    );
    let path = FilePath::parse("/muse/session.jsonl");
    let conversation = parse_reader(&log.into_bytes(), &path).unwrap();
    let calls = &conversation.messages[0].invocations;
    assert_eq!(calls.len(), 2);
    assert_eq!(calls[0].name, "run");
    assert_eq!(calls[0].kind, "tool");
    assert_eq!(calls[0].call_id, None);
    assert_eq!(
        calls[0].arguments.as_ref().map(plain),
        Some(serde_json::Value::String("not json".to_string()))
    );
    assert_eq!(
        calls[1].arguments.as_ref().map(plain),
        Some(serde_json::from_str("[1]").unwrap())
    );
}

#[test]
fn muse_roots_come_from_the_places_given() {
    let home = "/home/user/.local/share/muse/sessions/2026/s/session.jsonl";
    let disk = disk(vec![
        entry(home, &fixture()),
        entry("/srv/muse/sessions/a/session.jsonl", &fixture()),
        entry("/loose/a/session.jsonl", &fixture()),
    ]);
    let roots = |context: &ScanContext| -> Vec<String> {
        MuseConnector::source_roots(context, &user(), &disk)
            .iter()
            .map(|root| root.path.to_text())
            .collect()
    };
    let local = |path: &str| ScanContext::local_default(FilePath::parse(path), None);
    assert_eq!(
        roots(&local("/nowhere")),
        ["/home/user/.local/share/muse/sessions"]
    );
    assert_eq!(roots(&local("/srv/muse")), ["/srv/muse/sessions"]);
    assert_eq!(roots(&local("/srv/muse/sessions")), ["/srv/muse/sessions"]);
    assert_eq!(
        roots(&local("/srv/muse/sessions/a/session.jsonl")),
        ["/srv/muse/sessions/a"]
    );
    assert_eq!(roots(&local("/loose")), ["/loose"]);
    assert_eq!(
        roots(&ScanContext::with_roots(
            FilePath::parse("/loose"),
            vec![
                ScanRoot::local(FilePath::parse("/srv/muse/sessions")),
                ScanRoot::local(FilePath::parse("/srv/muse")),
            ],
            None,
        )),
        ["/loose", "/srv/muse/sessions"]
    );
    assert!(MuseConnector::looks_like_sessions_root(&FilePath::parse(
        "/x/muse/sessions"
    )));
    assert!(!MuseConnector::looks_like_sessions_root(&FilePath::parse(
        "/x/sessions"
    )));
    assert!(MuseConnector::default().detect(&user(), &disk).detected);
}

#[test]
fn muse_files_that_cannot_be_read_are_told() {
    let disk = disk(vec![entry("/s/session.jsonl", "not json")]);
    assert!(matches!(
        MuseConnector::parse_file(&FilePath::parse("/s/session.jsonl"), &disk),
        Ok(None)
    ));
    assert!(matches!(
        MuseConnector::parse_file(&FilePath::parse("/s/absent.jsonl"), &disk),
        Err(ReadError::Unreadable)
    ));
}

#[test]
fn muse_parent_logs() {
    let parent = |path: &str| {
        MuseConnector::parent_session_log(&FilePath::parse(path)).map(|log| log.to_text())
    };
    assert_eq!(
        parent("/s/one/subagent/child/session.jsonl").as_deref(),
        Some("/s/one/session.jsonl")
    );
    assert_eq!(
        parent("subagent/child/session.jsonl").as_deref(),
        Some("session.jsonl")
    );
    assert_eq!(parent("/s/one/session.jsonl"), None);
    assert!(SelfPath::is_subagent(&FilePath::parse(
        "/s/one/subagent/child/session.jsonl"
    )));
    assert!(!SelfPath::is_subagent(&FilePath::parse("/s/session.jsonl")));
    assert_eq!(truncate("  x  "), "x");
    assert_eq!(truncate(&format!(" {}", "b".repeat(121))), "b".repeat(120));
}

#[test]
fn muse_arguments_that_are_documents_are_read() {
    let read = argument_of("[1]", Some(Json::Array(vec![Json::UInt(1)])));
    assert_eq!(
        plain(&read),
        serde_json::Value::from(vec![serde_json::Value::from(1u64)])
    );
    assert_eq!(plain(&argument_of("ls", None)), serde_json::Value::from("ls"));
}
