use agent_connectors::copilot::CopilotConnector;
use agent_connectors::disk::{Disk, DiskFile, Walk};
use agent_connectors::json::Json;
use agent_connectors::order::path_before;
use agent_connectors::paths::FilePath;
use agent_connectors::scan::{ScanContext, ScanRoot, UserDirs};
use agent_connectors::types::NormalizedConversation;

/// A file of a made-up file system.
struct Entry {
    path: String,
    text: String,
    rows: Option<Vec<String>>,
}

fn entry(path: &str, text: &str) -> Entry {
    Entry {
        path: path.to_string(),
        text: text.to_string(),
        rows: None,
    }
}

fn ancestors(path: &str) -> Vec<String> {
    let mut out = Vec::new();
    let mut rest = path;
    while let Some(at) = rest.rfind('/') {
        rest = &rest[..at];
        if rest.is_empty() {
            break;
        }
        out.push(rest.to_string());
    }
    out
}

/// What a walk of the made-up file system from every directory would show.
fn disk_at(entries: Vec<Entry>, dirs: &[&str], modified: i64) -> Disk {
    let mut all_dirs: Vec<String> = dirs.iter().map(|dir| dir.to_string()).collect();
    for dir in dirs {
        all_dirs.extend(ancestors(dir));
    }
    for entry in &entries {
        all_dirs.extend(ancestors(&entry.path));
    }
    all_dirs.sort();
    all_dirs.dedup();
    let walks = all_dirs
        .iter()
        .map(|dir| Walk {
            root: FilePath::parse(dir),
            files: entries
                .iter()
                .filter(|entry| entry.path.starts_with(&format!("{dir}/")))
                .map(|entry| FilePath::parse(&entry.path))
                .collect(),
        })
        .collect();
    Disk {
        files: entries
            .into_iter()
            .map(|entry| DiskFile {
                path: FilePath::parse(&entry.path),
                modified: Some(modified),
                bytes: Some(entry.text.into_bytes()),
                rows: entry.rows,
            })
            .collect(),
        dirs: all_dirs.iter().map(|dir| FilePath::parse(dir)).collect(),
        walks,
    }
}

fn disk(entries: Vec<Entry>) -> Disk {
    disk_at(entries, &[], 1_700_000_000_000)
}

fn user() -> UserDirs {
    UserDirs {
        home: Some(FilePath::parse("/home/user")),
        config: Some(FilePath::parse("/home/user/.config")),
    }
}

/// A JSON value of the library as one of `serde_json`.
fn plain(value: &Json) -> serde_json::Value {
    match value {
        Json::Null => serde_json::Value::Null,
        Json::Bool(b) => serde_json::Value::Bool(*b),
        Json::UInt(n) => serde_json::Value::from(*n),
        Json::NegInt(n) => serde_json::Value::from(*n),
        Json::Float(bits) => serde_json::Value::from(f64::from_bits(*bits)),
        Json::Text(s) => serde_json::Value::String(s.clone()),
        Json::Array(items) => serde_json::Value::Array(items.iter().map(plain).collect()),
        Json::Object(members) => serde_json::Value::Object(
            members
                .iter()
                .map(|member| (member.key.clone(), plain(&member.value)))
                .collect(),
        ),
    }
}

fn scan_local(disk: &Disk, root: &str) -> Vec<NormalizedConversation> {
    let context = ScanContext::local_default(FilePath::parse(root), None);
    CopilotConnector::new().scan(&context, &user(), disk)
}

fn scan_rooted(disk: &Disk, data_dir: &str, root: &str) -> Vec<NormalizedConversation> {
    CopilotConnector::new().scan(&rooted(data_dir, root), &user(), disk)
}

fn rooted(data_dir: &str, root: &str) -> ScanContext {
    ScanContext::with_roots(
        FilePath::parse(data_dir),
        vec![ScanRoot::local(FilePath::parse(root))],
        None,
    )
}

/// Every conversation was read at a discovered source or below it.
fn assert_discovery_covers_scan(context: &ScanContext, disk: &Disk) {
    let connector = CopilotConnector::new();
    let sources: Vec<String> = connector
        .discover_source_files(context, &user(), disk)
        .iter()
        .map(|source| source.source_path.to_text())
        .collect();
    for conversation in connector.scan(context, &user(), disk) {
        let place = conversation.source_path.to_text();
        assert!(sources
            .iter()
            .any(|source| place == *source || place.starts_with(&format!("{source}/"))));
    }
}

fn sorted(files: &[FilePath]) -> bool {
    files.windows(2).all(|pair| !path_before(&pair[1], &pair[0]))
}

#[test]
fn detect_returns_not_found_when_no_dirs_exist() {
    let connector = CopilotConnector::new();
    let result = connector.detect(&user(), &disk(Vec::new()));
    assert!(!result.evidence.is_empty());
    assert!(!result.detected);
    assert!(result.root_paths.is_empty());

    let found = connector.detect(
        &user(),
        &disk_at(Vec::new(), &["/home/user/.copilot/session-state"], 0),
    );
    assert!(found.detected);
    assert_eq!(found.root_paths.len(), 1);
    assert_eq!(
        found.root_paths[0].to_text(),
        "/home/user/.copilot/session-state"
    );
    assert!(found
        .evidence
        .iter()
        .any(|note| note == "root exists: /home/user/.copilot/session-state"));
    assert!(found
        .evidence
        .iter()
        .any(|note| note == "root missing: /home/user/.config/Code/User"));
}

#[test]
fn scan_empty_dir_returns_empty() {
    let disk = disk_at(Vec::new(), &["/tmp/t/copilot-chat"], 0);
    assert!(scan_local(&disk, "/tmp/t/copilot-chat").is_empty());
}

#[test]
fn scan_native_workspace_jsonl_replays_operations_and_resolves_workspace() {
    let initial = r#"{
        "version": 3,
        "creationDate": 1700000000000,
        "customTitle": null,
        "sessionId": "native-jsonl-001",
        "responderUsername": "",
        "requests": [{
            "requestId": "r1",
            "timestamp": 1700000000100,
            "message": {"text": "first question", "parts": [{"text": "first question"}]},
            "agent": {"extensionId": {"value": "github.copilot-chat"}},
            "response": [{"kind": "markdownContent", "content": "first answer"}],
            "responseTimestamp": 1700000000200
        }]
    }"#
    .replace('\n', " ");
    let append_request = r#"{
        "requestId": "r2",
        "timestamp": 1700000000300,
        "message": {"text": "second question"},
        "agent": {"id": "github.copilot-chat"},
        "response": [{
            "kind": "toolInvocationSerialized",
            "toolId": "terminal",
            "toolCallId": "call-2"
        }],
        "responseTimestamp": 1700000000400
    }"#
    .replace('\n', " ");
    let content = format!(
        "{{\"kind\":0,\"v\":{initial}}}\n{{\"kind\":1,\"k\":[\"customTitle\"],\"v\":\"Native chat\"}}\n{{\"kind\":2,\"k\":[\"requests\"],\"v\":[{append_request}]}}\n"
    );
    let disk = disk(vec![
        entry(
            "/tmp/t/Code/User/workspaceStorage/workspace-a/workspace.json",
            r#"{"folder":"file:///workspaces/demo%20project"}"#,
        ),
        entry(
            "/tmp/t/Code/User/workspaceStorage/workspace-a/chatSessions/native-jsonl-001.jsonl",
            &content,
        ),
    ]);
    let context = rooted("/tmp/t/cass", "/tmp/t/Code/User");
    let convs = CopilotConnector::new().scan(&context, &user(), &disk);

    assert_eq!(convs.len(), 1);
    assert_eq!(convs[0].external_id.as_deref(), Some("native-jsonl-001"));
    assert_eq!(convs[0].title.as_deref(), Some("Native chat"));
    assert_eq!(
        convs[0].workspace.as_deref(),
        Some("/workspaces/demo project")
    );
    assert_eq!(convs[0].messages.len(), 4);
    assert_eq!(convs[0].messages[0].content, "first question");
    assert_eq!(convs[0].messages[1].content, "first answer");
    assert_eq!(convs[0].messages[3].invocations[0].name, "terminal");
    assert_eq!(
        convs[0].messages[3].invocations[0].call_id.as_deref(),
        Some("call-2")
    );
    assert_eq!(convs[0].started_at, Some(1_700_000_000_000));
    assert_eq!(convs[0].ended_at, Some(1_700_000_000_400));
    assert_eq!(plain(&convs[0].metadata)["storage"], "vscode-workspace-jsonl");
    assert_discovery_covers_scan(&context, &disk);
}

#[test]
fn path_from_uri_supports_file_and_vscode_remote_forms() {
    assert_eq!(
        CopilotConnector::path_from_uri("file:///workspaces/demo%20project").as_deref(),
        Some("/workspaces/demo project")
    );
    assert_eq!(
        CopilotConnector::path_from_uri(
            "vscode-remote://ssh-remote%2Byeowoolmac.local/Users/yeowool/Documents/Eastself"
        )
        .as_deref(),
        Some("/Users/yeowool/Documents/Eastself")
    );
    assert_eq!(
        CopilotConnector::path_from_uri(
            "vscode-remote://ssh-remote%2B10.0.0.14/Users/yeowool/Documents/Eastself"
        )
        .as_deref(),
        Some("/Users/yeowool/Documents/Eastself")
    );
    assert_eq!(
        CopilotConnector::path_from_uri("vscode-remote://ssh-remote%2Bhost/not%20encoded")
            .as_deref(),
        Some("/not encoded")
    );
}

#[test]
fn native_workspace_sessions_fail_closed_for_ambiguous_agents() {
    let session = r#"{
        "version": 3,
        "sessionId": "ambiguous",
        "requests": [{
            "requestId": "r1",
            "message": "hello",
            "response": ["reply"]
        }]
    }"#;
    let disk = disk(vec![entry(
        "/tmp/t/workspaceStorage/ws/chatSessions/ambiguous.json",
        session,
    )]);
    assert!(scan_local(&disk, "/tmp/t/workspaceStorage").is_empty());
}

#[test]
fn native_workspace_sessions_ignore_malformed_tail_but_not_middle_corruption() {
    let valid = r#"{"kind":0,"v":{"sessionId":"tail","requests":[{"requestId":"r1","message":"hello","agent":{"id":"github.copilot-chat"},"response":["reply"]}]}}"#;
    let tail = entry(
        "/tmp/t/workspaceStorage/ws/chatSessions/tail.jsonl",
        &format!("{valid}\n{{\"kind\":1,\"k\":[\"customTitle\"],\"v\":\n"),
    );
    let first = disk(vec![tail]);
    assert_eq!(scan_local(&first, "/tmp/t/workspaceStorage").len(), 1);
    let tail = entry(
        "/tmp/t/workspaceStorage/ws/chatSessions/tail.jsonl",
        &format!("{valid}\n{{\"kind\":1,\"k\":[\"customTitle\"],\"v\":\n"),
    );
    let middle = entry(
        "/tmp/t/workspaceStorage/ws/chatSessions/middle.jsonl",
        &format!(
            "{valid}\nnot-json\n{}\n",
            r#"{"kind":1,"k":["customTitle"],"v":"ignored"}"#
        ),
    );
    let convs = scan_local(&disk(vec![tail, middle]), "/tmp/t/workspaceStorage");
    assert_eq!(convs.len(), 1);
    assert_eq!(convs[0].external_id.as_deref(), Some("tail"));
}

#[test]
fn scan_native_interactive_sessions_sqlite_and_deduplicates_file_copy() {
    let workspace = "/tmp/t/Code/User/workspaceStorage/ws";
    let from_sqlite = r#"[{
        "sessionId": "sqlite-session",
        "responderUsername": "GitHub Copilot",
        "requests": [{"requestId": "r1", "message": "from sqlite", "response": ["reply"]}]
    }]"#;
    let from_file = r#"{
        "sessionId": "sqlite-session",
        "responderUsername": "GitHub Copilot",
        "requests": [{"requestId": "r1", "message": "from file", "response": ["reply"]}]
    }"#;
    let database = || Entry {
        path: format!("{workspace}/state.vscdb"),
        text: String::new(),
        rows: Some(vec![from_sqlite.to_string()]),
    };
    let place = || {
        entry(
            &format!("{workspace}/workspace.json"),
            r#"{"folder":"file:///db/work"}"#,
        )
    };
    let both = disk(vec![
        place(),
        database(),
        entry(
            &format!("{workspace}/chatSessions/sqlite-session.json"),
            from_file,
        ),
    ]);
    let context = ScanContext::local_default(FilePath::parse("/tmp/t/Code/User"), None);
    let convs = CopilotConnector::new().scan(&context, &user(), &both);
    assert_eq!(convs.len(), 1);
    assert_eq!(convs[0].external_id.as_deref(), Some("sqlite-session"));
    assert!(convs[0].source_path.is_named("sqlite-session.json"));
    assert_discovery_covers_scan(&context, &both);

    let alone = disk(vec![place(), database()]);
    let convs = CopilotConnector::new().scan(&context, &user(), &alone);
    assert_eq!(convs.len(), 1);
    assert_eq!(convs[0].messages[0].content, "from sqlite");
    assert_eq!(convs[0].workspace.as_deref(), Some("/db/work"));
    assert_eq!(
        convs[0].source_path.to_text(),
        "/tmp/t/Code/User/workspaceStorage/ws/state.vscdb/interactive.sessions#sqlite-session"
    );
    assert_eq!(
        plain(&convs[0].metadata)["storage"],
        "vscode-interactive-sessions"
    );
    assert_discovery_covers_scan(&context, &alone);
}

#[test]
fn scan_with_explicit_config_root_finds_vscode_storage() {
    let json = r#"[
        {
            "id": "conv-config",
            "workspaceFolder": "/work/config",
            "turns": [
                {
                    "request": {"message": "Hello", "timestamp": 1700000000000},
                    "response": {"message": "Hi", "timestamp": 1700000001000}
                }
            ]
        }
    ]"#;
    let disk = disk(vec![entry(
        "/tmp/t/.config/Code/User/globalStorage/github.copilot-chat/conversations.json",
        json,
    )]);
    let convs = scan_rooted(&disk, "/tmp/t/cass", "/tmp/t/.config");
    assert_eq!(convs.len(), 1);
    assert_eq!(convs[0].external_id.as_deref(), Some("conv-config"));
}

#[test]
fn scan_parses_turns_format() {
    let json = r#"[
        {
            "id": "conv-001",
            "workspaceFolder": "/home/user/project",
            "turns": [
                {
                    "request": {
                        "message": "How do I sort a vector in Rust?",
                        "timestamp": 1700000000000
                    },
                    "response": {
                        "message": "You can use `.sort()` or `.sort_by()` on a Vec.",
                        "timestamp": 1700000001000
                    }
                },
                {
                    "request": {
                        "message": "Can you show me an example?",
                        "timestamp": 1700000002000
                    },
                    "response": {
                        "message": "Sure! `let mut v = vec![3,1,2]; v.sort();`",
                        "timestamp": 1700000003000
                    }
                }
            ]
        }
    ]"#;
    let disk = disk(vec![entry("/tmp/t/copilot-chat/conversations.json", json)]);
    let context = ScanContext::local_default(FilePath::parse("/tmp/t/copilot-chat"), None);
    let convs = CopilotConnector::new().scan(&context, &user(), &disk);

    assert_eq!(convs.len(), 1);
    assert_eq!(convs[0].agent_slug, "copilot");
    assert_eq!(convs[0].external_id.as_deref(), Some("conv-001"));
    assert_eq!(convs[0].workspace.as_deref(), Some("/home/user/project"));
    assert_eq!(convs[0].messages.len(), 4);
    assert_eq!(convs[0].messages[0].role, "user");
    assert!(convs[0].messages[0].content.contains("sort a vector"));
    assert_eq!(convs[0].messages[1].role, "assistant");
    assert!(convs[0].messages[1].content.contains(".sort()"));
    assert_eq!(convs[0].messages[2].role, "user");
    assert_eq!(convs[0].messages[3].role, "assistant");
    assert!(convs[0].started_at.is_some());
    assert!(convs[0].ended_at.is_some());
    assert!(convs[0].title.is_some());
    assert!(convs[0].title.as_ref().unwrap().contains("sort a vector"));
    assert_eq!(convs[0].started_at, Some(1_700_000_000_000));
    assert_eq!(convs[0].ended_at, Some(1_700_000_003_000));
    assert_discovery_covers_scan(&context, &disk);
}

#[test]
fn scan_parses_messages_format() {
    let json = r#"{
        "id": "conv-002",
        "title": "Explain lifetimes",
        "messages": [
            {
                "role": "user",
                "content": "Explain Rust lifetimes",
                "timestamp": 1700000010000
            },
            {
                "role": "assistant",
                "content": "Lifetimes are a way of expressing the scope for which a reference is valid.",
                "timestamp": 1700000011000
            }
        ]
    }"#;
    let disk = disk(vec![entry("/tmp/t/copilot-chat/session-002.json", json)]);
    let convs = scan_local(&disk, "/tmp/t/copilot-chat");

    assert_eq!(convs.len(), 1);
    assert_eq!(convs[0].title.as_deref(), Some("Explain lifetimes"));
    assert_eq!(convs[0].messages.len(), 2);
    assert_eq!(convs[0].messages[0].role, "user");
    assert_eq!(convs[0].messages[1].role, "assistant");
    assert_eq!(convs[0].messages[1].author.as_deref(), Some("copilot"));
}

#[test]
fn scan_parses_conversations_wrapper() {
    let json = r#"{
        "conversations": [
            {
                "id": "wrapped-001",
                "messages": [
                    {"role": "user", "content": "Hello Copilot"},
                    {"role": "assistant", "content": "Hello! How can I help?"}
                ]
            },
            {
                "id": "wrapped-002",
                "messages": [
                    {"role": "user", "content": "Write a function"},
                    {"role": "assistant", "content": "fn example() {}"}
                ]
            }
        ]
    }"#;
    let disk = disk(vec![entry(
        "/tmp/t/copilot-chat/all-conversations.json",
        json,
    )]);
    let convs = scan_local(&disk, "/tmp/t/copilot-chat");
    assert_eq!(convs.len(), 2);
    assert_eq!(convs[0].external_id.as_deref(), Some("wrapped-001"));
    assert_eq!(convs[1].external_id.as_deref(), Some("wrapped-002"));
}

#[test]
fn scan_skips_empty_conversations() {
    let json = r#"[
        {
            "id": "empty-conv",
            "turns": []
        },
        {
            "id": "nonempty-conv",
            "turns": [
                {
                    "request": {"message": "Hello"},
                    "response": {"message": "Hi there"}
                }
            ]
        }
    ]"#;
    let disk = disk(vec![entry("/tmp/t/copilot-chat/mixed.json", json)]);
    let convs = scan_local(&disk, "/tmp/t/copilot-chat");
    assert_eq!(convs.len(), 1);
    assert_eq!(convs[0].external_id.as_deref(), Some("nonempty-conv"));
}

#[test]
fn find_conversation_files_returns_sorted_order() {
    let disk = disk(vec![
        entry("/tmp/t/copilot-chat/zeta.json", "[]"),
        entry("/tmp/t/copilot-chat/alpha.json", "[]"),
        entry("/tmp/t/copilot-chat/nested/middle.json", "[]"),
    ]);
    let files =
        CopilotConnector::find_conversation_files(&FilePath::parse("/tmp/t/copilot-chat"), &disk);
    assert!(sorted(&files));
    let names: Vec<String> = files.iter().map(FilePath::to_text).collect();
    assert_eq!(
        names,
        [
            "/tmp/t/copilot-chat/alpha.json",
            "/tmp/t/copilot-chat/nested/middle.json",
            "/tmp/t/copilot-chat/zeta.json"
        ]
    );
}

#[test]
fn scan_sets_ended_at_when_only_created_at_present() {
    let json = r#"{
        "id": "conv-created-only",
        "createdAt": 1700000022000,
        "messages": [
            {"role": "user", "content": "hello"},
            {"role": "assistant", "content": "world"}
        ]
    }"#;
    let disk = disk(vec![entry("/tmp/t/copilot-chat/created-only.json", json)]);
    let convs = scan_local(&disk, "/tmp/t/copilot-chat");
    assert_eq!(convs.len(), 1);
    assert_eq!(convs[0].started_at, Some(1_700_000_022_000));
    assert_eq!(convs[0].ended_at, Some(1_700_000_022_000));
}

#[test]
fn scan_respects_since_ts_filtering() {
    let disk = disk(vec![entry(
        "/tmp/t/copilot-chat/old.json",
        r#"[{"id":"old","turns":[{"request":{"message":"old msg"},"response":{"message":"old reply"}}]}]"#,
    )]);
    let far_future = 1_700_000_000_000 + 86_400_000;
    let context =
        ScanContext::local_default(FilePath::parse("/tmp/t/copilot-chat"), Some(far_future));
    let connector = CopilotConnector::new();
    assert!(connector.scan(&context, &user(), &disk).is_empty());
    let context = ScanContext::local_default(
        FilePath::parse("/tmp/t/copilot-chat"),
        Some(1_700_000_000_000),
    );
    assert_eq!(connector.scan(&context, &user(), &disk).len(), 1);
}

#[test]
fn scan_with_scan_roots() {
    let json = r#"[{
        "id": "remote-001",
        "turns": [
            {"request": {"message": "test"}, "response": {"message": "reply"}}
        ]
    }]"#;
    let disk = disk(vec![entry(
        "/tmp/t/fakehome/.config/Code/User/globalStorage/github.copilot-chat/conversations.json",
        json,
    )]);
    let convs = scan_rooted(&disk, "/tmp/t", "/tmp/t/fakehome");
    assert_eq!(convs.len(), 1);
    assert_eq!(convs[0].external_id.as_deref(), Some("remote-001"));
}

#[test]
fn scan_with_copilot_root_scan_root() {
    let events = r#"{"type":"user.message","session_id":"sess-001","message":"hello"}"#;
    let disk = disk(vec![entry(
        "/tmp/t/.copilot/session-state/sess-001/events.jsonl",
        events,
    )]);
    let convs = scan_rooted(&disk, "", "/tmp/t/.copilot");
    assert_eq!(convs.len(), 1);
    assert_eq!(convs[0].external_id.as_deref(), Some("sess-001"));
    assert_eq!(plain(&convs[0].metadata)["source"], "copilot-cli");
}

#[test]
fn scan_with_global_storage_scan_root() {
    let json = r#"[{
        "id": "global-001",
        "turns": [
            {"request": {"message": "hello"}, "response": {"message": "hi"}}
        ]
    }]"#;
    let disk = disk(vec![entry(
        "/tmp/t/globalStorage/github.copilot-chat/conversations.json",
        json,
    )]);
    let convs = scan_rooted(&disk, "", "/tmp/t/globalStorage");
    assert_eq!(convs.len(), 1);
    assert_eq!(convs[0].external_id.as_deref(), Some("global-001"));
}

#[test]
fn scan_with_windows_style_scan_root() {
    let json = r#"[{
        "id": "win-001",
        "messages": [
            {"role": "user", "content": "from windows root"},
            {"role": "assistant", "content": "ack"}
        ]
    }]"#;
    let disk = disk(vec![entry(
        "/tmp/t/fakehome/AppData/Roaming/Code/User/globalStorage/github.copilot-chat/conversations.json",
        json,
    )]);
    let convs = scan_rooted(&disk, "/tmp/t", "/tmp/t/fakehome");
    assert_eq!(convs.len(), 1);
    assert_eq!(convs[0].external_id.as_deref(), Some("win-001"));
}

#[test]
fn scan_skips_invalid_json() {
    let disk = disk(vec![entry(
        "/tmp/t/copilot-chat/invalid.json",
        "not valid json {{{",
    )]);
    assert!(scan_local(&disk, "/tmp/t/copilot-chat").is_empty());
}

#[test]
fn looks_like_copilot_storage_works() {
    let look = |path: &str| CopilotConnector::looks_like_copilot_storage(&FilePath::parse(path));
    assert!(look(
        "/home/user/.config/Code/User/globalStorage/github.copilot-chat"
    ));
    assert!(look("/tmp/copilot-chat/data"));
    assert!(look("/home/user/.config/gh-copilot"));
    assert!(!look("/home/user/.config/Code"));
    assert!(!look("/home/user/projects/copilot-research"));
}

#[test]
fn default_impl() {
    let connector = CopilotConnector;
    let _ = connector;
    let _ = CopilotConnector::default();
}

#[test]
fn all_candidate_paths_are_deduplicated() {
    let paths: Vec<String> = CopilotConnector::all_candidate_paths(&user())
        .iter()
        .map(FilePath::to_text)
        .collect();
    let mut deduped: Vec<std::path::PathBuf> =
        paths.iter().map(std::path::PathBuf::from).collect();
    deduped.sort();
    deduped.dedup();
    let deduped: Vec<String> = deduped
        .iter()
        .map(|path| path.to_str().unwrap().to_string())
        .collect();
    assert_eq!(paths, deduped);
    assert_eq!(paths.len(), 16);
}

#[test]
fn scan_parses_cli_events_jsonl() {
    let events = r#"{"type":"sessionStart","session_id":"abc-123","timestamp":1700000000000,"cwd":"/home/user/myproject"}
{"type":"user.message","role":"user","content":"How do I read a file in Rust?","timestamp":1700000001000}
{"type":"assistant.message","role":"assistant","content":"You can use std::fs::read_to_string() to read a file into a String.","timestamp":1700000002000}
{"type":"user.message","role":"user","content":"Show me an example","timestamp":1700000003000}
{"type":"assistant.message","role":"assistant","content":"let contents = std::fs::read_to_string(\"file.txt\")?;","timestamp":1700000004000}
"#;
    let disk = disk(vec![entry(
        "/tmp/t/.copilot/session-state/abc-123/events.jsonl",
        events,
    )]);
    let convs = scan_local(&disk, "/tmp/t/.copilot/session-state");

    assert_eq!(convs.len(), 1);
    assert_eq!(convs[0].agent_slug, "copilot");
    assert_eq!(convs[0].external_id.as_deref(), Some("abc-123"));
    assert_eq!(convs[0].workspace.as_deref(), Some("/home/user/myproject"));
    assert_eq!(convs[0].messages.len(), 4);
    assert_eq!(convs[0].messages[0].role, "user");
    assert!(convs[0].messages[0].content.contains("read a file"));
    assert_eq!(convs[0].messages[1].role, "assistant");
    assert!(convs[0].messages[1].content.contains("read_to_string"));
    assert_eq!(convs[0].messages[2].role, "user");
    assert_eq!(convs[0].messages[3].role, "assistant");
    assert_eq!(convs[0].started_at, Some(1_700_000_000_000));
    assert_eq!(convs[0].ended_at, Some(1_700_000_004_000));
    assert!(convs[0].title.as_ref().unwrap().contains("read a file"));
}

#[test]
fn scan_parses_cli_events_with_hook_event_types() {
    let events = r#"{"type":"userPromptSubmitted","content":"Explain ownership","timestamp":1700000010000}
{"type":"assistantResponse","content":"Ownership is Rust's memory management model.","timestamp":1700000011000}
"#;
    let disk = disk(vec![entry(
        "/tmp/t/.copilot/session-state/def-456/events.jsonl",
        events,
    )]);
    let convs = scan_local(&disk, "/tmp/t/.copilot/session-state");
    assert_eq!(convs.len(), 1);
    assert_eq!(convs[0].messages.len(), 2);
    assert_eq!(convs[0].messages[0].role, "user");
    assert!(convs[0].messages[0].content.contains("ownership"));
    assert_eq!(convs[0].messages[1].role, "assistant");
    assert!(convs[0].messages[1].content.contains("memory management"));
}

#[test]
fn scan_parses_cli_legacy_session_json() {
    let session_json = r#"{
        "session_id": "legacy-001",
        "cwd": "/home/user/legacy-project",
        "events": [
            {"type": "user.message", "content": "What is a trait?", "timestamp": 1700000020000},
            {"type": "assistant.message", "content": "A trait defines shared behavior.", "timestamp": 1700000021000}
        ]
    }"#;
    let disk = disk(vec![entry(
        "/tmp/t/.copilot/history-session-state/legacy-001.json",
        session_json,
    )]);
    let convs = scan_local(&disk, "/tmp/t/.copilot/history-session-state");
    assert_eq!(convs.len(), 1);
    assert_eq!(convs[0].external_id.as_deref(), Some("legacy-001"));
    assert_eq!(
        convs[0].workspace.as_deref(),
        Some("/home/user/legacy-project")
    );
    assert_eq!(convs[0].messages.len(), 2);
    assert_eq!(convs[0].messages[0].role, "user");
    assert!(convs[0].messages[0].content.contains("trait"));
    assert_eq!(convs[0].messages[1].role, "assistant");
}

#[test]
fn scan_parses_cli_events_with_prompt_field() {
    let events = r#"{"type":"user.message","prompt":"Deploy to production","timestamp":1700000030000}
{"type":"assistant.message","output":"Running deployment script...","timestamp":1700000031000}
"#;
    let disk = disk(vec![entry(
        "/tmp/t/.copilot/session-state/ghi-789/events.jsonl",
        events,
    )]);
    let convs = scan_local(&disk, "/tmp/t/.copilot/session-state");
    assert_eq!(convs.len(), 1);
    assert_eq!(convs[0].messages.len(), 2);
    assert_eq!(convs[0].messages[0].role, "user");
    assert!(convs[0].messages[0].content.contains("Deploy"));
    assert_eq!(convs[0].messages[1].role, "assistant");
    assert!(convs[0].messages[1].content.contains("deployment"));
}

#[test]
fn scan_cli_events_skips_non_message_events() {
    let events = r#"{"type":"sessionStart","timestamp":1700000040000}
{"type":"preToolUse","toolName":"shell","timestamp":1700000041000}
{"type":"user.message","content":"Hello","timestamp":1700000042000}
{"type":"postToolUse","toolName":"shell","timestamp":1700000043000}
{"type":"assistant.message","content":"Hi there!","timestamp":1700000044000}
{"type":"errorOccurred","error":"some error","timestamp":1700000045000}
"#;
    let disk = disk(vec![entry(
        "/tmp/t/.copilot/session-state/skip-test/events.jsonl",
        events,
    )]);
    let convs = scan_local(&disk, "/tmp/t/.copilot/session-state");
    assert_eq!(convs.len(), 1);
    assert_eq!(convs[0].messages.len(), 2);
    assert_eq!(convs[0].messages[0].role, "user");
    assert_eq!(convs[0].messages[0].content, "Hello");
    assert_eq!(convs[0].messages[1].role, "assistant");
    assert_eq!(convs[0].messages[1].content, "Hi there!");
}

#[test]
fn scan_cli_empty_events_returns_empty() {
    let events = r#"{"type":"sessionStart","timestamp":1700000050000}
{"type":"sessionEnd","timestamp":1700000051000}
"#;
    let disk = disk(vec![entry(
        "/tmp/t/.copilot/session-state/empty/events.jsonl",
        events,
    )]);
    assert!(scan_local(&disk, "/tmp/t/.copilot/session-state").is_empty());
}

#[test]
fn scan_cli_events_with_scan_roots() {
    let events = r#"{"type":"user.message","content":"from remote","timestamp":1700000060000}
{"type":"assistant.message","content":"acknowledged","timestamp":1700000061000}
"#;
    let disk = disk(vec![entry(
        "/tmp/t/fakehome/.copilot/session-state/remote-sess/events.jsonl",
        events,
    )]);
    let convs = scan_rooted(&disk, "/tmp/t", "/tmp/t/fakehome");
    assert_eq!(convs.len(), 1);
    assert_eq!(convs[0].messages.len(), 2);
}

#[test]
fn is_cli_event_log_detection() {
    let look = |path: &str| CopilotConnector::is_cli_event_log(&FilePath::parse(path));
    assert!(look("/home/user/.copilot/session-state/abc/events.jsonl"));
    assert!(look("/tmp/test.jsonl"));
    assert!(look(
        "/home/user/.copilot/session-state/abc/checkpoint.json"
    ));
    assert!(look("/home/user/.copilot/history-session-state/old.json"));
    assert!(!look(
        "/home/user/.config/Code/User/globalStorage/github.copilot-chat/conversations.json"
    ));
}

#[test]
fn looks_like_copilot_storage_with_cli_paths() {
    let look = |path: &str| CopilotConnector::looks_like_copilot_storage(&FilePath::parse(path));
    assert!(look("/home/user/.copilot/session-state"));
    assert!(look("/home/user/.copilot/history-session-state"));
    assert!(look("/home/user/.copilot/session-state/abc-123"));
}

#[test]
fn scan_multiple_cli_sessions() {
    let disk = disk(vec![
        entry(
            "/tmp/t/.copilot/session-state/session-a/events.jsonl",
            r#"{"type":"user.message","content":"Question A","timestamp":1700000070000}
{"type":"assistant.message","content":"Answer A","timestamp":1700000071000}
"#,
        ),
        entry(
            "/tmp/t/.copilot/session-state/session-b/events.jsonl",
            r#"{"type":"user.message","content":"Question B","timestamp":1700000080000}
{"type":"assistant.message","content":"Answer B","timestamp":1700000081000}
"#,
        ),
    ]);
    let convs = scan_local(&disk, "/tmp/t/.copilot/session-state");
    assert_eq!(convs.len(), 2);
    let ids: Vec<_> = convs
        .iter()
        .filter_map(|c| c.external_id.as_deref())
        .collect();
    assert!(ids.contains(&"session-a"));
    assert!(ids.contains(&"session-b"));
}

#[test]
fn scan_cli_events_with_malformed_lines() {
    let events = r#"not valid json
{"type":"user.message","content":"valid msg","timestamp":1700000090000}
{incomplete json...
{"type":"assistant.message","content":"also valid","timestamp":1700000091000}

"#;
    let disk = disk(vec![entry(
        "/tmp/t/.copilot/session-state/malformed/events.jsonl",
        events,
    )]);
    let convs = scan_local(&disk, "/tmp/t/.copilot/session-state");
    assert_eq!(convs.len(), 1);
    assert_eq!(convs[0].messages.len(), 2);
    assert_eq!(convs[0].messages[0].content, "valid msg");
    assert_eq!(convs[0].messages[1].content, "also valid");
}

#[test]
fn scan_cli_metadata_source_is_copilot_cli() {
    let events = r#"{"type":"user.message","content":"test","timestamp":1700000100000}
{"type":"assistant.message","content":"reply","timestamp":1700000101000}
"#;
    let disk = disk(vec![entry(
        "/tmp/t/.copilot/session-state/meta-test/events.jsonl",
        events,
    )]);
    let convs = scan_local(&disk, "/tmp/t/.copilot/session-state");
    assert_eq!(convs.len(), 1);
    assert_eq!(plain(&convs[0].metadata)["source"], "copilot-cli");
}
