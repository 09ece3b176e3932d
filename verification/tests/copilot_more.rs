use agent_connectors::copilot::{CopilotConnector, SessionError};
use agent_connectors::disk::{Disk, DiskFile, Walk};
use agent_connectors::document::parse_json;
use agent_connectors::json::Json;
use agent_connectors::paths::FilePath;
use agent_connectors::scan::{DiscoveredSourceRole, ScanContext, ScanRoot, UserDirs};
use agent_connectors::vscode_chat::ReplayError;

/// A file of a made-up file system.
struct Entry {
    path: String,
    text: String,
    rows: Option<Vec<String>>,
}

fn entry(path: &str, text: &str) -> Entry {
    Entry {
        path: path.to_string(),
        text: text.to_string(),
        rows: None,
    }
}

fn ancestors(path: &str) -> Vec<String> {
    let mut out = Vec::new();
    let mut rest = path;
    while let Some(at) = rest.rfind('/') {
        rest = &rest[..at];
        if rest.is_empty() {
            break;
        }
        out.push(rest.to_string());
    }
    out
}

/// What a walk of the made-up file system from every directory would show.
fn disk_at(entries: Vec<Entry>, dirs: &[&str], modified: i64) -> Disk {
    let mut all_dirs: Vec<String> = dirs.iter().map(|dir| dir.to_string()).collect();
    for dir in dirs {
        all_dirs.extend(ancestors(dir));
    }
    for entry in &entries {
        all_dirs.extend(ancestors(&entry.path));
    }
    all_dirs.sort();
    all_dirs.dedup();
    let walks = all_dirs
        .iter()
        .map(|dir| Walk {
            root: FilePath::parse(dir),
            files: entries
                .iter()
                .filter(|entry| entry.path.starts_with(&format!("{dir}/")))
                .map(|entry| FilePath::parse(&entry.path))
                .collect(),
        })
        .collect();
    Disk {
        files: entries
            .into_iter()
            .map(|entry| DiskFile {
                path: FilePath::parse(&entry.path),
                modified: Some(modified),
                bytes: Some(entry.text.into_bytes()),
                rows: entry.rows,
            })
            .collect(),
        dirs: all_dirs.iter().map(|dir| FilePath::parse(dir)).collect(),
        walks,
    }
}

fn disk(entries: Vec<Entry>) -> Disk {
    disk_at(entries, &[], 1_700_000_000_000)
}

fn user() -> UserDirs {
    UserDirs {
        home: Some(FilePath::parse("/home/user")),
        config: Some(FilePath::parse("/home/user/.config")),
    }
}

/// A JSON value of the library as one of `serde_json`.
fn plain(value: &Json) -> serde_json::Value {
    match value {
        Json::Null => serde_json::Value::Null,
        Json::Bool(b) => serde_json::Value::Bool(*b),
        Json::UInt(n) => serde_json::Value::from(*n),
        Json::NegInt(n) => serde_json::Value::from(*n),
        Json::Float(bits) => serde_json::Value::from(f64::from_bits(*bits)),
        Json::Text(s) => serde_json::Value::String(s.clone()),
        Json::Array(items) => serde_json::Value::Array(items.iter().map(plain).collect()),
        Json::Object(members) => serde_json::Value::Object(
            members
                .iter()
                .map(|member| (member.key.clone(), plain(&member.value)))
                .collect(),
        ),
    }
}

fn json(text: &str) -> Json {
    parse_json(text).unwrap()
}

fn path(text: &str) -> FilePath {
    FilePath::parse(text)
}

#[test]
fn hexadecimal_digits() {
    assert_eq!(CopilotConnector::hex_value(b'0'), Some(0));
    assert_eq!(CopilotConnector::hex_value(b'9'), Some(9));
    assert_eq!(CopilotConnector::hex_value(b'a'), Some(10));
    assert_eq!(CopilotConnector::hex_value(b'F'), Some(15));
    assert_eq!(CopilotConnector::hex_value(b'g'), None);
    assert_eq!(CopilotConnector::hex_value(b'/'), None);
}

#[test]
fn percent_escapes() {
    let decode = CopilotConnector::percent_decode;
    assert_eq!(decode("plain é").as_deref(), Some("plain é"));
    assert_eq!(decode("%41%c3%A9%25").as_deref(), Some("Aé%"));
    assert_eq!(decode("%4"), None);
    assert_eq!(decode("%zz"), None);
    assert_eq!(decode("%ff"), None);
    assert_eq!(decode("").as_deref(), Some(""));
}

#[test]
fn uris_of_drives_authorities_and_other_schemes() {
    let from = CopilotConnector::path_from_uri;
    assert_eq!(from("file:///c%3A/work").as_deref(), Some("c:/work"));
    assert_eq!(from("file:///é:/work").as_deref(), Some("/é:/work"));
    assert_eq!(from("file:///:").as_deref(), Some("/:"));
    assert_eq!(from("vscode-remote://host"), None);
    assert_eq!(from("vscode-remote://one/p%41"), from("vscode-remote://two/p%41"));
    assert_eq!(from("https://host/path"), None);
    assert_eq!(from("file:///%zz"), None);
}

#[test]
fn copilot_is_known_by_its_names() {
    let named = |text: &str| CopilotConnector::copilot_agent_value(&json(text));
    assert!(named("\"GitHub Copilot\""));
    assert!(named("\"github-copilot\""));
    assert!(!named("\"my github-copilot\""));
    assert!(named("\"x GitHub.Copilot-Chat y\""));
    assert!(named(r#"{"value":{"value":"github.copilot-chat"}}"#));
    assert!(!named(r#"{"value":1}"#));
    assert!(!named("[]"));
    let shown = |text: &str| CopilotConnector::has_copilot_evidence(&json(text));
    for key in ["id", "name", "displayName", "extensionId", "publisher"] {
        assert!(shown(&format!(
            "{{\"requests\":[{{}},{{\"agent\":{{\"{key}\":\"GitHub Copilot\"}}}}]}}"
        )));
    }
    assert!(shown(r#"{"requests":[{"agent":"github-copilot"}]}"#));
    assert!(!shown(r#"{"requests":[{"agent":{"other":"github-copilot"}}]}"#));
    assert!(!shown(r#"{"requests":{"agent":"github-copilot"}}"#));
}

#[test]
fn a_response_says_its_parts_and_calls_its_tools() {
    let (said, calls) = CopilotConnector::response_parts(&json(
        r#"["one", {"kind":"markdownContent","content":{"text":"two"}}, "  ", {"kind":"markdownContent","text":"unread"},
            {"parts":["three","four"]},
            {"kind":"toolInvocationSerialized","toolName":"run","callId":"c","parameters":[1]},
            {"kind":"toolInvocationSerialized"},
            {"type":"tool_use","name":"block","id":"b"}]"#,
    ));
    assert_eq!(said, "one\ntwo\nthree\nfour");
    assert_eq!(calls.len(), 2);
    assert_eq!(calls[0].name, "block");
    assert_eq!(calls[1].name, "run");
    assert_eq!(calls[1].call_id.as_deref(), Some("c"));
    assert!(calls[1].arguments.is_some());
    let (said, calls) = CopilotConnector::response_parts(&json(r#"{"text":"alone"}"#));
    assert_eq!(said, "alone");
    assert!(calls.is_empty());
}

#[test]
fn a_session_falls_back_for_its_id_title_and_workspace() {
    let session = json(
        r#"{"responderUsername":"GitHub Copilot","creationDate":50,"customTitle":"","computedTitle":"unused",
            "requests":[{"message":{"text":"line one\nline two"},"timestamp":40,"response":[],"responseTimestamp":90},{"response":["lost"],"responseTimestamp":1}]}"#,
    );
    let found = CopilotConnector::parse_native_session_value(
        &session,
        &path("/s/file-name.json"),
        Some("/hint".to_string()),
        "kept",
    )
    .unwrap();
    assert_eq!(found.external_id.as_deref(), Some("file-name"));
    assert_eq!(found.title.as_deref(), Some("line one"));
    assert_eq!(found.workspace.as_deref(), Some("/hint"));
    assert_eq!(found.messages.len(), 1);
    assert_eq!(found.started_at, Some(40));
    assert_eq!(found.ended_at, Some(90));
    assert_eq!(
        plain(&found.metadata),
        serde_json::from_str::<serde_json::Value>(r#"{"source":"copilot","storage":"kept"}"#).unwrap()
    );
}

#[test]
fn a_conversation_takes_its_bounds_where_they_are() {
    let single = |text: &str| {
        CopilotConnector::parse_single_conversation(&json(text), &path("/c.json")).unwrap()
    };
    let found = single(
        r#"{"conversationId":"c","chatTitle":"","createdAt":100,"updatedAt":7,"messages":[{"text":"x"},{"role":"tool","value":"y"}]}"#,
    );
    assert_eq!(found.started_at, Some(100));
    assert_eq!(found.ended_at, Some(7));
    assert_eq!(found.external_id.as_deref(), Some("c"));
    assert_eq!(found.title.as_deref(), Some(""));
    assert_eq!(found.messages[0].role, "assistant");
    assert_eq!(found.messages[1].role, "tool");
    assert_eq!(found.messages[1].author.as_deref(), Some("copilot"));
    assert_eq!(found.messages[1].idx, 1);
    let found = single(r#"{"updated_at":9,"messages":[{"role":"user","content":"x"}]}"#);
    assert_eq!(found.started_at, Some(9));
    assert_eq!(found.ended_at, Some(9));
    assert_eq!(found.title.as_deref(), Some("x"));
    let found = single(
        r#"{"createdAt":1,"turns":[{"request":{"text":"q","ts":30},"response":{"content":["a"],"date":20}}],"messages":[{"content":"unread"}]}"#,
    );
    assert_eq!(found.started_at, Some(20));
    assert_eq!(found.ended_at, Some(30));
    assert_eq!(found.messages.len(), 2);
    assert!(CopilotConnector::parse_single_conversation(
        &json(r#"{"turns":[{"request":{"message":" "}}]}"#),
        &path("/c.json")
    )
    .is_none());
}

#[test]
fn roles_of_events() {
    let role = |event: &str, kind: &str| {
        CopilotConnector::extract_cli_event_message(&json(event), kind).0
    };
    assert_eq!(role("{}", "USER.Message"), "user");
    assert_eq!(role("{}", "Prompt"), "user");
    assert_eq!(role("{}", "AssistantResponse"), "assistant");
    assert_eq!(role("{}", "completion"), "assistant");
    assert_eq!(role("{}", "RESPONSE"), "assistant");
    assert_eq!(role("{}", "preToolUse"), "");
    assert_eq!(role("{}", "\u{212a}"), "");
    assert_eq!(role(r#"{"role":"human"}"#, "assistant"), "user");
    assert_eq!(role(r#"{"role":"system"}"#, "user"), "assistant");
    let said = |event: &str| CopilotConnector::extract_cli_event_message(&json(event), "user").1;
    assert_eq!(said(r#"{"message":" ","prompt":"","result":"r"}"#), "r");
    assert_eq!(said(r#"{"content":"c","prompt":"p"}"#), "c");
    assert_eq!(said(r#"{"initialPrompt":["p","q"]}"#), "p\nq");
}

#[test]
fn storage_is_known_in_any_case() {
    let look = |text: &str| CopilotConnector::looks_like_copilot_storage(&path(text));
    assert!(look("/X/GitHub.Copilot-Chat"));
    assert!(look("/x/gh/copilot/deep/below"));
    assert!(!look("/x/gh/other/copilot"));
    assert!(!look("/x/.copilot/logs"));
    let none = disk(Vec::new());
    let native = |text: &str| CopilotConnector::looks_like_vscode_storage(&path(text), &none);
    assert!(native("/x/workspaceStorage/id"));
    assert!(native("/x/WOR\u{212a}SPACESTORAGE"));
    assert!(native("/x/state.vscdb"));
    assert!(!native("/x/User"));
    let with = disk_at(Vec::new(), &["/x/User/globalStorage"], 0);
    assert!(CopilotConnector::looks_like_vscode_storage(
        &path("/x/User"),
        &with
    ));
}

#[test]
fn explicit_roots_keep_their_machine() {
    let disk = disk_at(
        Vec::new(),
        &[
            "/home/b/Library/Application Support/Code/User/workspaceStorage/id/chatSessions",
            "/home/b/.copilot/session-state",
            "/home/b/.config/gh/copilot",
        ],
        0,
    );
    let roots = |place: &str| -> Vec<(String, String)> {
        let context = ScanContext::with_roots(
            path(""),
            vec![ScanRoot {
                path: path(place),
                origin: "far".to_string(),
            }],
            None,
        );
        CopilotConnector::source_roots(&context, &user(), &disk)
            .into_iter()
            .map(|root| (root.path.to_text(), root.origin))
            .collect()
    };
    let far = |texts: &[&str]| -> Vec<(String, String)> {
        texts
            .iter()
            .map(|text| (text.to_string(), "far".to_string()))
            .collect()
    };
    assert_eq!(
        roots("/home/b"),
        far(&[
            "/home/b/.config/gh/copilot",
            "/home/b/.copilot/session-state",
            "/home/b/Library/Application Support/Code/User"
        ])
    );
    assert_eq!(
        roots("/home/b/.config/gh"),
        far(&["/home/b/.config/gh/copilot"])
    );
    let user_dir = "/home/b/Library/Application Support/Code/User";
    assert_eq!(
        roots(user_dir),
        far(&[user_dir, &format!("{user_dir}/workspaceStorage")])
    );
    assert_eq!(
        roots(&format!("{user_dir}/workspaceStorage/id")),
        far(&[
            &format!("{user_dir}/workspaceStorage/id"),
            &format!("{user_dir}/workspaceStorage/id/chatSessions")
        ])
    );
    assert!(roots("/nowhere").is_empty());
    assert_eq!(roots("/nowhere/User"), far(&["/nowhere/User"]));
}

#[test]
fn databases_of_a_root() {
    let database = |place: &str| Entry {
        path: place.to_string(),
        text: String::new(),
        rows: Some(Vec::new()),
    };
    let disk = disk(vec![
        database("/x/User/workspaceStorage/two/state.vscdb"),
        database("/x/User/workspaceStorage/one/state.vscdb"),
        database("/x/User/workspaceStorage/one/deep/state.vscdb"),
        database("/x/User/globalStorage/state.vscdb"),
        database("/x/User/globalStorage/other.vscdb"),
    ]);
    let found = |root: &str| -> Vec<String> {
        CopilotConnector::find_db_files(&path(root), &disk)
            .iter()
            .map(FilePath::to_text)
            .collect()
    };
    assert_eq!(
        found("/x/User"),
        [
            "/x/User/globalStorage/state.vscdb",
            "/x/User/workspaceStorage/one/state.vscdb",
            "/x/User/workspaceStorage/two/state.vscdb"
        ]
    );
    assert_eq!(
        found("/x/User/workspaceStorage"),
        [
            "/x/User/workspaceStorage/one/state.vscdb",
            "/x/User/workspaceStorage/two/state.vscdb"
        ]
    );
    assert_eq!(
        found("/x/User/globalStorage"),
        ["/x/User/globalStorage/state.vscdb"]
    );
    assert_eq!(
        found("/x/User/globalStorage/state.vscdb"),
        ["/x/User/globalStorage/state.vscdb"]
    );
    let sources = CopilotConnector::discover_sources(
        &ScanContext::local_default(path("/x/User"), None),
        &user(),
        &disk,
    );
    assert_eq!(sources.len(), 3);
    assert!(sources
        .iter()
        .all(|source| source.role == DiscoveredSourceRole::SqliteDatabase));
}

#[test]
fn session_files_are_not_sought_too_deep() {
    let disk = disk(vec![
        entry("/x/copilot-chat/1/2/3/4/five.json", "[]"),
        entry("/x/copilot-chat/1/2/3/4/5/six.json", "[]"),
        entry("/x/copilot-chat/notes.txt", ""),
        entry("/x/copilot-chat/odd.JSON", "[]"),
    ]);
    let files = CopilotConnector::find_conversation_files(&path("/x/copilot-chat"), &disk);
    assert_eq!(files.len(), 1);
    assert!(files[0].is_named("five.json"));
    let lone = CopilotConnector::find_conversation_files(
        &path("/x/copilot-chat/1/2/3/4/5/six.json"),
        &disk,
    );
    assert_eq!(lone.len(), 1);
    assert!(CopilotConnector::find_conversation_files(
        &path("/x/copilot-chat/notes.txt"),
        &disk
    )
    .is_empty());
}

#[test]
fn files_that_yield_nothing_say_why() {
    let mut broken = disk(vec![
        entry("/x/chatSessions/log.jsonl", "nonsense"),
        entry("/x/chatSessions/flat.json", "nonsense"),
        entry("/x/copilot-chat/chat.json", "nonsense"),
        entry("/x/.copilot/session-state/a/checkpoint.json", "{nonsense"),
        entry("/x/other.json", "nonsense"),
    ]);
    broken.files.push(DiskFile {
        path: path("/x/chatSessions/bytes.json"),
        modified: None,
        bytes: Some(vec![0xff]),
        rows: None,
    });
    let outcome = |text: &str| {
        CopilotConnector::parse_source(&path(text), &broken).map(|list| list.len())
    };
    assert_eq!(
        outcome("/x/chatSessions/log.jsonl"),
        Err(SessionError::Replay(ReplayError::InvalidEntry))
    );
    assert_eq!(
        outcome("/x/chatSessions/flat.json"),
        Err(SessionError::NotJson)
    );
    assert_eq!(
        outcome("/x/chatSessions/bytes.json"),
        Err(SessionError::Unreadable)
    );
    assert_eq!(
        outcome("/x/chatSessions/absent.json"),
        Err(SessionError::Unreadable)
    );
    assert_eq!(
        outcome("/x/copilot-chat/chat.json"),
        Err(SessionError::NotJson)
    );
    assert_eq!(
        outcome("/x/.copilot/session-state/a/checkpoint.json"),
        Ok(0)
    );
    assert_eq!(outcome("/x/other.json"), Ok(0));
    assert_eq!(
        CopilotConnector::parse_interactive_sessions_db(&path("/x/state.vscdb"), None, &broken)
            .err(),
        Some(SessionError::Unreadable)
    );
}

#[test]
fn database_sessions_count_once_and_may_be_too_old() {
    let sessions = r#"[
        {"sessionId":"a","responderUsername":"GitHub Copilot","requests":[{"message":"q","timestamp":10}]},
        {"sessionId":"a","responderUsername":"GitHub Copilot","requests":[{"message":"again","timestamp":99}]},
        {"id":"b/c","responderUsername":"GitHub Copilot","requests":[{"message":"r"}]},
        {"responderUsername":"GitHub Copilot","requests":[{"message":"nameless"}]}
    ]"#;
    let disk = disk(vec![Entry {
        path: "/x/state.vscdb".to_string(),
        text: String::new(),
        rows: Some(vec!["{}".to_string(), "nonsense".to_string(), sessions.to_string()]),
    }]);
    let read = |since: Option<i64>| -> Vec<String> {
        CopilotConnector::parse_interactive_sessions_db(&path("/x/state.vscdb"), since, &disk)
            .unwrap()
            .iter()
            .map(|found| found.source_path.to_text())
            .collect()
    };
    assert_eq!(
        read(None),
        [
            "/x/state.vscdb/interactive.sessions#a",
            "/x/state.vscdb/interactive.sessions#b/c"
        ]
    );
    assert_eq!(read(Some(11)), ["/x/state.vscdb/interactive.sessions#b/c"]);
    assert_eq!(read(Some(10)).len(), 2);
}

#[test]
fn conversations_of_no_known_session_are_all_kept() {
    let nameless = r#"[{"turns":[{"request":{"message":"x"}}]},{"turns":[{"request":{"message":"x"}}]},{"id":"i","turns":[{"request":{"message":"x"}}]},{"id":"i","turns":[{"request":{"message":"y"}}]}]"#;
    let disk = disk(vec![entry("/x/copilot-chat/c.json", nameless)]);
    let found = CopilotConnector::new().scan(
        &ScanContext::local_default(path("/x/copilot-chat"), None),
        &user(),
        &disk,
    );
    assert_eq!(found.len(), 3);
    assert_eq!(found[2].external_id.as_deref(), Some("i"));
    assert_eq!(found[2].messages[0].content, "x");
}

#[test]
fn documents_of_the_cli() {
    let read = |text: &str, place: &str| {
        CopilotConnector::parse_cli_session_json(&json(text), &path(place))
    };
    let found = read(
        r#"{"history":[{"role":"user","content":"q"},{"type":"tick","ts":3}],"workspacePath":"/w"}"#,
        "/s/stem.json",
    );
    assert_eq!(found[0].external_id.as_deref(), Some("stem"));
    assert_eq!(found[0].workspace.as_deref(), Some("/w"));
    assert_eq!(found[0].started_at, Some(3));
    assert_eq!(found[0].ended_at, Some(3));
    let found = read(r#"{"messages":[{"role":"user","content":"q"}]}"#, "/s/m.json");
    assert_eq!(found.len(), 1);
    assert_eq!(plain(&found[0].metadata)["source"], "copilot");
    assert!(read(r#"{"events":[]}"#, "/s/e.json").is_empty());
    assert!(read("{}", "/s/e.json").is_empty());
    assert!(CopilotConnector::parse_exported_value(
        &json(r#"{"messages":[{"role":"user","content":"q"}]}"#),
        &path("/s/m.json")
    )
    .is_empty());
}

#[test]
fn the_probes_are_all_that_the_roots_need() {
    let full = disk(vec![
        entry("/home/user/.config/Code/User/workspaceStorage/ws/state.vscdb", ""),
        entry("/home/user/.copilot/session-state/s/events.jsonl", ""),
        entry("/data/workspaceStorage/ws/chatSessions/a.json", "{}"),
    ]);
    let contexts = [
        ScanContext::local_default(path("/data"), None),
        ScanContext::local_default(path("/data/workspaceStorage"), None),
        ScanContext::with_roots(
            path("/data"),
            vec![
                ScanRoot::local(path("/home/user")),
                ScanRoot::local(path("/home/user/.copilot")),
                ScanRoot::local(path("/data/workspaceStorage/ws")),
            ],
            None,
        ),
    ];
    let counts: Vec<usize> = contexts
        .iter()
        .map(|context| {
            let mut seen = Disk {
                files: Vec::new(),
                dirs: Vec::new(),
                walks: Vec::new(),
            };
            for probe in CopilotConnector::probe_paths(context, &user()) {
                if full.is_dir(&probe) {
                    seen.dirs.push(probe);
                }
            }
            let texts = |disk: &Disk| -> Vec<String> {
                CopilotConnector::source_roots(context, &user(), disk)
                    .iter()
                    .map(|root| root.path.to_text())
                    .collect()
            };
            assert_eq!(texts(&seen), texts(&full));
            texts(&full).len()
        })
        .collect();
    assert_eq!(counts, [2, 1, 4]);
}

#[test]
fn workspaces_are_named_by_the_first_field_there_is() {
    let session = |text: &str| CopilotConnector::session_folder(&json(text));
    let database = |text: &str| CopilotConnector::database_folder(&json(text));
    let given = r#"{"folder":"file:///a","workspaceFolder":"file:///b","workspace":"file:///c"}"#;
    assert_eq!(session(given).as_deref(), Some("/a"));
    assert_eq!(database(given).as_deref(), Some("/a"));
    assert_eq!(session(r#"{"workspace":"file:///c"}"#).as_deref(), Some("/c"));
    assert_eq!(database(r#"{"workspace":"file:///c"}"#), None);
    assert_eq!(session(r#"{"folder":1,"workspace":"file:///c"}"#), None);
    assert_eq!(session(r#"{"folder":"/plain"}"#), None);
}

#[test]
fn a_session_document_may_hold_a_conversation_array() {
    let at = path("/h/.copilot/history-session-state/s1.json");
    let parse = |text: &str| CopilotConnector::parse_cli_session_json(&json(text), &at);
    let found = parse(r#"{"id":"s1","conversation":[{"role":"user","content":"hi"}]}"#);
    assert_eq!(found.len(), 1);
    assert_eq!(found[0].external_id.as_deref(), Some("s1"));
    assert_eq!(found[0].messages.len(), 1);
    assert_eq!(found[0].messages[0].role, "user");
    assert_eq!(found[0].messages[0].content, "hi");

    let found = parse(
        r#"{"conversation":[{"text":"a"},{"role":"user","text":"b","ts":7}],
            "events":[{"type":"user.message","content":"c"}]}"#,
    );
    assert_eq!(found.len(), 1);
    assert_eq!(found[0].external_id, None);
    assert_eq!(found[0].title.as_deref(), Some("b"));
    assert_eq!(found[0].started_at, Some(7));
    assert_eq!(found[0].messages.len(), 2);
    assert_eq!(found[0].messages[0].role, "assistant");

    let found = parse(r#"{"messages":[{"text":"m"}],"conversation":[{"text":"c"}]}"#);
    assert_eq!(found.len(), 1);
    assert_eq!(found[0].messages.len(), 1);
    assert_eq!(found[0].messages[0].content, "m");

    let found = parse(r#"{"conversation":"none","events":[{"role":"user","content":"e"}]}"#);
    assert_eq!(found.len(), 1);
    assert_eq!(found[0].messages[0].content, "e");
    assert!(parse(r#"{"conversation":[{"role":"user"}]}"#).is_empty());
}

#[test]
fn a_conversation_array_is_found_by_a_scan() {
    let disk = disk(vec![entry(
        "/h/.copilot/history-session-state/s1.json",
        r#"{"id":"s1","conversation":[{"role":"user","content":"hi"}]}"#,
    )]);
    let context = ScanContext::local_default(path("/h/.copilot/history-session-state"), None);
    let found = CopilotConnector::new().scan(&context, &user(), &disk);
    assert_eq!(found.len(), 1);
    assert_eq!(found[0].messages[0].content, "hi");
}

#[test]
fn a_file_in_nested_roots_is_read_once() {
    let disk = disk(vec![entry(
        "/t/Code/User/globalStorage/github.copilot-chat/conversations.json",
        r#"[{"turns":[{"request":{"message":"hi"}}]}]"#,
    )]);
    let context = ScanContext::with_roots(
        path("/t/x"),
        vec![ScanRoot::local(path("/t/Code/User"))],
        None,
    );
    let roots = CopilotConnector::source_roots(&context, &user(), &disk);
    assert!(roots.len() > 1);
    assert_eq!(
        CopilotConnector::gather_sources(&context, &user(), &disk).len(),
        roots.len()
    );
    let connector = CopilotConnector::new();
    let found = connector.scan(&context, &user(), &disk);
    assert_eq!(found.len(), 1);
    assert_eq!(found[0].external_id, None);
    let sources = connector.discover_source_files(&context, &user(), &disk);
    assert_eq!(sources.len(), 1);
    assert_eq!(found[0].source_path.to_text(), sources[0].source_path.to_text());
}

#[test]
fn database_sessions_stand_below_their_database() {
    let session = |id: &str| {
        format!(
            r#"{{"sessionId":"{id}","responderUsername":"GitHub Copilot",
                "requests":[{{"message":"q"}}]}}"#
        )
    };
    let rows = vec![format!("[{},{}]", session("plain"), session("a/b"))];
    let disk = disk(vec![Entry {
        path: "/t/Code/User/globalStorage/state.vscdb".to_string(),
        text: String::new(),
        rows: Some(rows),
    }]);
    let context = ScanContext::local_default(path("/t/Code/User"), None);
    let found = CopilotConnector::new().scan(&context, &user(), &disk);
    let texts: Vec<String> = found.iter().map(|one| one.source_path.to_text()).collect();
    assert_eq!(
        texts,
        [
            "/t/Code/User/globalStorage/state.vscdb/interactive.sessions#plain",
            "/t/Code/User/globalStorage/state.vscdb/interactive.sessions#a/b",
        ]
    );
    let sources = CopilotConnector::discover_sources(&context, &user(), &disk);
    assert_eq!(sources.len(), 1);
    assert_eq!(
        found[0].source_path.parent().unwrap().to_text(),
        sources[0].source_path.to_text()
    );
}
