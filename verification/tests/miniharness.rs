use agent_connectors::disk::{Disk, DiskFile, Walk};
use agent_connectors::json::Json;
use agent_connectors::miniharness::{
    file_session_id, is_jsonl, parse_jsonl, truncate, MiniharnessConnector,
};
use agent_connectors::paths::FilePath;
use agent_connectors::scan::{ReadError, ScanContext, ScanRoot, UserDirs};

/// A file of a made-up file system.
struct Entry {
    path: String,
    text: String,
    rows: Option<Vec<String>>,
}

fn entry(path: &str, text: &str) -> Entry {
    Entry {
        path: path.to_string(),
        text: text.to_string(),
        rows: None,
    }
}

fn ancestors(path: &str) -> Vec<String> {
    let mut out = Vec::new();
    let mut rest = path;
    while let Some(at) = rest.rfind('/') {
        rest = &rest[..at];
        if rest.is_empty() {
            break;
        }
        out.push(rest.to_string());
    }
    out
}

/// What a walk of the made-up file system from every directory would show.
fn disk_at(entries: Vec<Entry>, dirs: &[&str], modified: i64) -> Disk {
    let mut all_dirs: Vec<String> = dirs.iter().map(|dir| dir.to_string()).collect();
    for dir in dirs {
        all_dirs.extend(ancestors(dir));
    }
    for entry in &entries {
        all_dirs.extend(ancestors(&entry.path));
    }
    all_dirs.sort();
    all_dirs.dedup();
    let walks = all_dirs
        .iter()
        .map(|dir| Walk {
            root: FilePath::parse(dir),
            files: entries
                .iter()
                .filter(|entry| entry.path.starts_with(&format!("{dir}/")))
                .map(|entry| FilePath::parse(&entry.path))
                .collect(),
        })
        .collect();
    Disk {
        files: entries
            .into_iter()
            .map(|entry| DiskFile {
                path: FilePath::parse(&entry.path),
                modified: Some(modified),
                bytes: Some(entry.text.into_bytes()),
                rows: entry.rows,
            })
            .collect(),
        dirs: all_dirs.iter().map(|dir| FilePath::parse(dir)).collect(),
        walks,
    }
}

fn disk(entries: Vec<Entry>) -> Disk {
    disk_at(entries, &[], 1_700_000_000_000)
}

fn user() -> UserDirs {
    UserDirs {
        home: Some(FilePath::parse("/home/user")),
        config: Some(FilePath::parse("/home/user/.config")),
    }
}

/// A JSON value of the library as one of `serde_json`.
fn plain(value: &Json) -> serde_json::Value {
    match value {
        Json::Null => serde_json::Value::Null,
        Json::Bool(b) => serde_json::Value::Bool(*b),
        Json::UInt(n) => serde_json::Value::from(*n),
        Json::NegInt(n) => serde_json::Value::from(*n),
        Json::Float(bits) => serde_json::Value::from(f64::from_bits(*bits)),
        Json::Text(s) => serde_json::Value::String(s.clone()),
        Json::Array(items) => serde_json::Value::Array(items.iter().map(plain).collect()),
        Json::Object(members) => serde_json::Value::Object(
            members
                .iter()
                .map(|member| (member.key.clone(), plain(&member.value)))
                .collect(),
        ),
    }
}

fn source_line(message: &str, timestamp: i64) -> String {
    format!(
        "{{\"kind\":\"entry\",\"type\":\"message\",\"message\":{message},\"timestamp\":{timestamp}}}"
    )
}

fn header(id: &str, cwd: Option<&str>) -> String {
    let place = match cwd {
        Some(cwd) => format!(",\"cwd\":\"{cwd}\""),
        None => String::new(),
    };
    format!(
        "{{\"kind\":\"header\",\"version\":4,\"id\":\"{id}\",\"createdAt\":1700000000000{place}}}"
    )
}

/// Every conversation is at a discovered source.
fn assert_discovery_covers_scan(context: &ScanContext, disk: &Disk) {
    let connector = MiniharnessConnector::new();
    let sources: Vec<String> = connector
        .discover_source_files(context, None, &user(), disk)
        .iter()
        .map(|source| source.source_path.to_text())
        .collect();
    for conversation in connector.scan(context, None, &user(), disk) {
        assert!(sources.contains(&conversation.source_path.to_text()));
    }
}

#[test]
fn parses_current_nested_shape_and_preserves_usage_evidence() {
    let input = [
        header("mh-1", Some("/work")),
        source_line(
            r#"{"role":"user","content":[{"type":"text","text":"summarize"}],"timestamp":1700000000100}"#,
            1_700_000_000_100,
        ),
        source_line(
            r#"{"role":"assistant","provider":"commandcode","model":"deepseek/deepseek-v4-flash","content":[{"type":"text","text":"done"}],"usage":{"input":100,"output":20,"cacheRead":30,"cacheWrite":4,"reasoning":5,"cost":{"total":0.012345}}}"#,
            1_700_000_000_200,
        ),
    ]
    .join("\n");

    let conversation =
        parse_jsonl(&input, &FilePath::parse("/tmp/2026-01-01_mh-1.jsonl")).unwrap();
    assert_eq!(conversation.agent_slug, "miniharness");
    assert_eq!(conversation.external_id.as_deref(), Some("mh-1"));
    assert_eq!(conversation.workspace.as_deref(), Some("/work"));
    assert_eq!(conversation.messages.len(), 2);
    assert_eq!(conversation.messages[0].content, "summarize");
    let extra = plain(&conversation.messages[1].extra);
    assert_eq!(
        extra
            .pointer("/message/usage/cost/total")
            .and_then(serde_json::Value::as_f64),
        Some(0.012345)
    );
    assert_eq!(
        extra
            .pointer("/message/model")
            .and_then(serde_json::Value::as_str),
        Some("deepseek/deepseek-v4-flash")
    );
    assert_eq!(conversation.started_at, Some(1_700_000_000_000));
    assert_eq!(conversation.ended_at, Some(1_700_000_000_200));
    assert_eq!(conversation.title.as_deref(), Some("summarize"));
}

#[test]
fn parses_direct_and_role_bearing_shapes() {
    let input = [
        header("mh-2", None),
        r#"{"message":{"role":"user","content":"hello"},"timestamp":1700000000100}"#.to_string(),
        r#"{"role":"assistant","content":"world","timestamp":1700000000200}"#.to_string(),
    ]
    .join("\n");
    let conversation = parse_jsonl(&input, &FilePath::parse("/tmp/session.jsonl")).unwrap();
    assert_eq!(conversation.workspace, None);
    assert_eq!(
        conversation
            .messages
            .iter()
            .map(|m| m.role.as_str())
            .collect::<Vec<_>>(),
        ["user", "assistant"]
    );
}

#[test]
fn skips_malformed_and_incomplete_files() {
    let input = [
        "not json".to_owned(),
        header("mh-3", None),
        "{\"kind\":\"entry\",\"type\":\"progress\"}".to_owned(),
    ]
    .join("\n");
    let path = FilePath::parse("/tmp/session.jsonl");
    assert!(parse_jsonl(&input, &path).is_none());
    assert!(parse_jsonl("not json\n", &path).is_none());
}

#[test]
fn keeps_all_usage_bearing_assistant_messages() {
    let input = [
        header("mh-4", None),
        source_line(r#"{"role":"user","content":"one"}"#, 1_700_000_000_100),
        source_line(
            r#"{"role":"assistant","content":"a","usage":{"input":1}}"#,
            1_700_000_000_200,
        ),
        source_line(
            r#"{"role":"assistant","content":"b","usage":{"input":2}}"#,
            1_700_000_000_300,
        ),
    ]
    .join("\n");
    let conversation = parse_jsonl(&input, &FilePath::parse("/tmp/session.jsonl")).unwrap();
    assert_eq!(
        conversation
            .messages
            .iter()
            .filter(|message| message.role == "assistant"
                && plain(&message.extra).pointer("/message/usage").is_some())
            .count(),
        2
    );
}

#[test]
fn falls_back_to_filename_id() {
    let path = FilePath::parse("/tmp/2026-01-01_abc-123.jsonl");
    let input = [
        header("", None),
        source_line(r#"{"role":"user","content":"hello"}"#, 1_700_000_000_100),
        source_line(
            r#"{"role":"assistant","content":"done"}"#,
            1_700_000_000_200,
        ),
    ]
    .join("\n");
    let conversation = parse_jsonl(&input, &path).unwrap();
    assert_eq!(conversation.external_id.as_deref(), Some("abc-123"));

    let input = [
        header("mh-5", None),
        source_line(r#"{"role":"user","content":"hello"}"#, 1_700_000_000_100),
        source_line(
            r#"{"role":"assistant","content":"done"}"#,
            1_700_000_000_200,
        ),
    ]
    .join("\n");
    let conversation = parse_jsonl(&input, &path).unwrap();
    assert_eq!(conversation.external_id.as_deref(), Some("mh-5"));
}

#[test]
fn explicit_directory_and_direct_file_roots_share_discovery() {
    let session = |id: &str, first: i64, second: i64| {
        [
            header(id, None),
            source_line(r#"{"role":"user","content":"a"}"#, first),
            source_line(r#"{"role":"assistant","content":"done"}"#, second),
        ]
        .join("\n")
            + "\n"
    };
    let root = "/tmp/t/sessions";
    let first = "/tmp/t/sessions/2026-01-01_mh-a.jsonl";
    let disk = disk(vec![
        entry(first, &session("mh-a", 1_700_000_000_100, 1_700_000_000_200)),
        entry(
            "/tmp/t/sessions/2026-01-02_mh-b.jsonl",
            &session("mh-b", 1_700_000_000_200, 1_700_000_000_300),
        ),
    ]);
    let connector = MiniharnessConnector::new();

    let directory = ScanContext::with_roots(
        FilePath::parse(root),
        vec![ScanRoot::local(FilePath::parse(root))],
        None,
    );
    assert_discovery_covers_scan(&directory, &disk);
    assert_eq!(connector.scan(&directory, None, &user(), &disk).len(), 2);

    let file = ScanContext::with_roots(
        FilePath::parse(first),
        vec![ScanRoot::local(FilePath::parse(first))],
        None,
    );
    assert_discovery_covers_scan(&file, &disk);
    let convs = connector.scan(&file, None, &user(), &disk);
    assert_eq!(convs.len(), 1);
    assert_eq!(convs[0].external_id.as_deref(), Some("mh-a"));
}

#[test]
fn miniharness_session_directory_comes_from_the_setting_or_the_home() {
    let place = |given: Option<&str>, user: &UserDirs| {
        MiniharnessConnector::sessions_root(given, user).map(|path| path.to_text())
    };
    assert_eq!(
        place(Some("  /srv/summons \n"), &user()).as_deref(),
        Some("/srv/summons")
    );
    assert_eq!(
        place(Some("  "), &user()).as_deref(),
        Some("/home/user/.local/share/miniharness/sessions")
    );
    assert_eq!(
        place(None, &user()).as_deref(),
        Some("/home/user/.local/share/miniharness/sessions")
    );
    let nobody = UserDirs {
        home: None,
        config: None,
    };
    assert_eq!(place(None, &nobody), None);
}

#[test]
fn miniharness_default_scan_uses_the_data_directory_only_with_a_session_in_it() {
    let log = [
        header("mh-d", None),
        source_line(r#"{"role":"assistant","content":"x"}"#, 5),
    ]
    .join("\n");
    let disk = disk(vec![
        entry("/tmp/data/one.JSONL", &log),
        entry(
            "/home/user/.local/share/miniharness/sessions/2_home.jsonl",
            &log.replace("mh-d", "mh-home"),
        ),
        entry("/tmp/other/readme.txt", "x"),
    ]);
    let connector = MiniharnessConnector::default();
    let with = ScanContext::local_default(FilePath::parse("/tmp/data"), None);
    let found = connector.scan(&with, None, &user(), &disk);
    assert_eq!(found.len(), 1);
    assert_eq!(found[0].external_id.as_deref(), Some("mh-d"));
    let without = ScanContext::local_default(FilePath::parse("/tmp/other"), None);
    let found = connector.scan(&without, None, &user(), &disk);
    assert_eq!(found.len(), 1);
    assert_eq!(found[0].external_id.as_deref(), Some("mh-home"));
    assert!(connector.detect(None, &user(), &disk).detected);
    assert!(!connector.detect(Some("/nowhere"), &user(), &disk).detected);
}

#[test]
fn miniharness_messages_are_numbered_bounded_and_titled() {
    let long = "a".repeat(200);
    let log = [
        source_line(r#"{"role":"system","content":"ignored"}"#, 1),
        source_line(r#"{"role":"user","content":"   "}"#, 30),
        source_line(&format!("{{\"role\":\"user\",\"content\":\"  {long}\"}}"), 10),
        r#"{"entry":{"message":{"role":"assistant","content":["x",{"text":"y"},3],"timestamp":20}}}"#
            .to_string(),
    ]
    .join("\n");
    let conversation = parse_jsonl(&log, &FilePath::parse("plain.jsonl")).unwrap();
    assert_eq!(
        conversation.messages.iter().map(|m| m.idx).collect::<Vec<_>>(),
        [0, 1, 2]
    );
    assert_eq!(conversation.messages[2].content, "x\ny");
    assert_eq!(conversation.messages[2].created_at, Some(20));
    assert_eq!(conversation.started_at, Some(10));
    assert_eq!(conversation.ended_at, Some(30));
    assert_eq!(conversation.title.as_deref(), Some("a".repeat(120).as_str()));
    assert_eq!(conversation.external_id.as_deref(), Some("plain"));
    assert_eq!(plain(&conversation.metadata), serde_json::from_str::<serde_json::Value>("{}").unwrap());
}

#[test]
fn the_last_header_counts() {
    let log = [
        header("first", Some("/one")),
        header("second", None),
        source_line(r#"{"role":"assistant","content":"x"}"#, 5),
    ]
    .join("\n");
    let conversation = parse_jsonl(&log, &FilePath::parse("/s/x_file.jsonl")).unwrap();
    assert_eq!(conversation.external_id.as_deref(), Some("second"));
    assert_eq!(conversation.workspace, None);
    assert_eq!(conversation.started_at, Some(1_700_000_000_000));
    assert_eq!(conversation.ended_at, Some(5));
}

#[test]
fn miniharness_files_that_cannot_be_read_are_told() {
    let mut disk = disk(vec![entry("/s/a.jsonl", "not json")]);
    disk.files.push(DiskFile {
        path: FilePath::parse("/s/b.jsonl"),
        modified: None,
        bytes: Some(vec![0xff]),
        rows: None,
    });
    let outcome = |text: &str| MiniharnessConnector::parse_file(&FilePath::parse(text), &disk);
    assert!(matches!(outcome("/s/a.jsonl"), Ok(None)));
    assert!(matches!(outcome("/s/b.jsonl"), Err(ReadError::Unreadable)));
    assert!(matches!(outcome("/s/c.jsonl"), Err(ReadError::Unreadable)));
}

#[test]
fn miniharness_names_of_files() {
    assert!(is_jsonl(&FilePath::parse("/a/b.JsonL")));
    assert!(!is_jsonl(&FilePath::parse("/a/b.json")));
    assert!(!is_jsonl(&FilePath::parse("/a/.jsonl")));
    assert_eq!(
        file_session_id(&FilePath::parse("/a/2026_x_y.jsonl")).as_deref(),
        Some("x_y")
    );
    assert_eq!(file_session_id(&FilePath::parse("/")), None);
    assert_eq!(truncate(&"é".repeat(130)), "é".repeat(120));
    assert_eq!(truncate(" short "), " short ");
}
