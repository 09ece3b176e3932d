use agent_connectors::json::Json;
use agent_connectors::vscode_chat::{
    delete_at_path, push_at_path, replay_operation_log, set_at_path, PathKey, ReplayError,
};

/// A JSON value of the library as one of `serde_json`.
fn plain(value: &Json) -> serde_json::Value {
    match value {
        Json::Null => serde_json::Value::Null,
        Json::Bool(b) => serde_json::Value::Bool(*b),
        Json::UInt(n) => serde_json::Value::from(*n),
        Json::NegInt(n) => serde_json::Value::from(*n),
        Json::Float(bits) => serde_json::Value::from(f64::from_bits(*bits)),
        Json::Text(s) => serde_json::Value::String(s.clone()),
        Json::Array(items) => serde_json::Value::Array(items.iter().map(plain).collect()),
        Json::Object(members) => serde_json::Value::Object(
            members
                .iter()
                .map(|member| (member.key.clone(), plain(&member.value)))
                .collect(),
        ),
    }
}

fn read(text: &str) -> serde_json::Value {
    serde_json::from_str(text).unwrap()
}

fn replay(text: &str) -> serde_json::Value {
    plain(&replay_operation_log(text).unwrap())
}

#[test]
fn replays_snapshot_set_and_append() {
    let content = concat_lines(&[
        r#"{"kind":0,"v":{"requests":[{"message":"one"}]}}"#,
        r#"{"kind":1,"k":["customTitle"],"v":"title"}"#,
        r#"{"kind":2,"k":["requests"],"v":[{"message":"two"}]}"#,
    ]);
    assert_eq!(
        replay(&content),
        read(r#"{"requests":[{"message":"one"},{"message":"two"}],"customTitle":"title"}"#)
    );
}

#[test]
fn ignores_truncated_tail_after_valid_prefix() {
    let content = concat_lines(&[
        r#"{"kind":0,"v":{"requests":[]}}"#,
        r#"{"kind":2,"k":["requests"],"v":[{"message":"ok"}]}"#,
        r#"{"kind":1,"k":["requests",0,"response"],"v"#,
    ]);
    assert_eq!(replay(&content)["requests"][0]["message"], "ok");
}

#[test]
fn rejects_patch_without_snapshot() {
    assert!(replay_operation_log(r#"{"kind":1,"k":["x"],"v":1}"#).is_err());
}

#[test]
fn later_snapshot_replaces_the_prior_state() {
    let content = concat_lines(&[
        r#"{"kind":0,"v":{"old":true}}"#,
        r#"{"kind":0,"v":{"requests":[]}}"#,
    ]);
    assert_eq!(replay(&content), read(r#"{"requests": []}"#));
}

fn concat_lines(lines: &[&str]) -> String {
    lines.join("\n")
}

fn error(lines: &[&str]) -> ReplayError {
    replay_operation_log(&concat_lines(lines)).unwrap_err()
}

const EMPTY: &str = r#"{"kind":0,"v":{"list":[1,2],"text":"t","deep":{"list":[[5]]}}}"#;

fn name(text: &str) -> PathKey {
    PathKey::Name(text.to_string())
}

fn start() -> Json {
    replay_operation_log(EMPTY).unwrap()
}

#[test]
fn every_rejection_has_its_reason() {
    assert_eq!(error(&[]), ReplayError::EmptyLog);
    assert_eq!(error(&["  ", "\t"]), ReplayError::EmptyLog);
    assert_eq!(error(&["nonsense"]), ReplayError::InvalidEntry);
    assert_eq!(error(&[EMPTY, "nonsense", EMPTY]), ReplayError::InvalidEntry);
    assert_eq!(error(&[r#"{"v":1}"#]), ReplayError::NoKind);
    assert_eq!(error(&[r#"{"kind":"0","v":1}"#]), ReplayError::NoKind);
    assert_eq!(error(&[r#"{"kind":0.5,"v":1}"#]), ReplayError::NoKind);
    assert_eq!(error(&[r#"{"kind":7}"#]), ReplayError::UnknownKind(7));
    assert_eq!(error(&[r#"{"kind":-1}"#]), ReplayError::UnknownKind(-1));
    assert_eq!(error(&[r#"{"kind":0}"#]), ReplayError::InitialWithoutValue);
    assert_eq!(
        error(&[r#"{"kind":3,"k":["a"]}"#]),
        ReplayError::MissingInitial
    );
    let reject = |line: &str| error(&[EMPTY, line]);
    assert_eq!(
        reject(r#"{"kind":1,"k":["a"]}"#),
        ReplayError::SetWithoutValue
    );
    assert_eq!(
        reject(r#"{"kind":2,"k":["list"],"v":3}"#),
        ReplayError::PushValueNotArray
    );
    assert_eq!(
        reject(r#"{"kind":2,"k":["list"],"i":-1}"#),
        ReplayError::PushIndexNotNonNegative
    );
    assert_eq!(reject(r#"{"kind":1,"v":3}"#), ReplayError::NoPath);
    assert_eq!(
        reject(r#"{"kind":1,"k":[true],"v":3}"#),
        ReplayError::InvalidSegment
    );
    assert_eq!(
        reject(r#"{"kind":1,"k":["none","x"],"v":3}"#),
        ReplayError::NotAnObjectKey
    );
    assert_eq!(
        reject(r#"{"kind":1,"k":["list",5,"x"],"v":3}"#),
        ReplayError::NotAnArrayIndex
    );
    assert_eq!(
        reject(r#"{"kind":1,"k":["list","x"],"v":3}"#),
        ReplayError::SetParentNotObject
    );
    assert_eq!(
        reject(r#"{"kind":1,"k":["text",0],"v":3}"#),
        ReplayError::SetParentNotArray
    );
    assert_eq!(
        reject(r#"{"kind":2,"k":[],"v":[3]}"#),
        ReplayError::PushPathEmpty
    );
    assert_eq!(
        reject(r#"{"kind":2,"k":["list","x"],"v":[3]}"#),
        ReplayError::PushParentNotObject
    );
    assert_eq!(
        reject(r#"{"kind":2,"k":["list",9],"v":[3]}"#),
        ReplayError::PushParentNotArrayIndex
    );
    assert_eq!(
        reject(r#"{"kind":2,"k":["text"],"v":[3]}"#),
        ReplayError::PushTargetNotArray
    );
    assert_eq!(
        reject(r#"{"kind":3,"k":["list","x"]}"#),
        ReplayError::DeleteParentNotObject
    );
    assert_eq!(
        reject(r#"{"kind":3,"k":["text",0]}"#),
        ReplayError::DeleteParentNotArray
    );
    assert_eq!(
        reject(r#"{"kind":3,"k":["list",2]}"#),
        ReplayError::DeleteIndexOutOfBounds
    );
    assert_eq!(
        reject(r#"{"kind":1,"k":["list",18446744073709551615],"v":3}"#),
        ReplayError::PathIndexTooLarge
    );
    assert_eq!(
        reject(r#"{"kind":1,"k":["text",18446744073709551615],"v":3}"#),
        ReplayError::SetParentNotArray
    );
}

#[test]
fn a_set_is_read_back_and_keeps_the_rest() {
    let mut state = start();
    set_at_path(
        &mut state,
        &vec![name("deep"), name("list"), PathKey::Index(2)],
        Json::Bool(true),
    )
    .unwrap();
    assert_eq!(
        plain(&state),
        read(r#"{"list":[1,2],"text":"t","deep":{"list":[[5],null,true]}}"#)
    );
}

#[test]
fn a_push_appends_cuts_and_pads() {
    let mut state = start();
    push_at_path(&mut state, &vec![name("list")], Some(vec![Json::UInt(3)]), None).unwrap();
    push_at_path(&mut state, &vec![name("fresh")], Some(vec![Json::Null]), Some(2)).unwrap();
    push_at_path(
        &mut state,
        &vec![name("deep"), name("list"), PathKey::Index(0)],
        None,
        Some(0),
    )
    .unwrap();
    assert_eq!(
        plain(&state),
        read(
            r#"{"list":[1,2,3],"text":"t","deep":{"list":[[]]},"fresh":[null,null,null]}"#
        )
    );
}

#[test]
fn a_delete_leaves_no_name_and_a_null_in_an_array() {
    let mut state = start();
    delete_at_path(&mut state, &vec![name("text")]).unwrap();
    delete_at_path(&mut state, &vec![name("list"), PathKey::Index(0)]).unwrap();
    delete_at_path(&mut state, &vec![name("absent")]).unwrap();
    assert_eq!(
        plain(&state),
        read(r#"{"list":[null,2],"deep":{"list":[[5]]}}"#)
    );
}

#[test]
fn an_empty_path_changes_nothing() {
    let mut state = start();
    set_at_path(&mut state, &Vec::new(), Json::Null).unwrap();
    delete_at_path(&mut state, &Vec::new()).unwrap();
    assert_eq!(plain(&state), plain(&start()));
}

#[test]
fn a_rejected_change_leaves_the_state_alone() {
    let mut state = start();
    assert_eq!(
        set_at_path(&mut state, &vec![name("text"), name("x")], Json::Null),
        Err(ReplayError::SetParentNotObject)
    );
    assert_eq!(
        push_at_path(&mut state, &vec![name("text")], None, None),
        Err(ReplayError::PushTargetNotArray)
    );
    assert_eq!(plain(&state), plain(&start()));
}

#[test]
fn a_document_is_read_as_serde_json_reads_it() {
    let text = r#"{"a":[1,-2,1.5,1e3,18446744073709551615,true,null,"x\u00e9"],"b":{"c":{}},"a":"last"}"#;
    let json = agent_connectors::document::parse_json(text).unwrap();
    assert_eq!(plain(&json), read(text));
    assert!(agent_connectors::document::parse_json("{").is_none());
    let numbers = agent_connectors::document::parse_json("[1,-2,1.5]").unwrap();
    let items = numbers.as_array().unwrap();
    assert!(matches!(items[0], Json::UInt(1)));
    assert!(matches!(items[1], Json::NegInt(-2)));
    assert!(matches!(items[2], Json::Float(bits) if f64::from_bits(bits) == 1.5));
}
