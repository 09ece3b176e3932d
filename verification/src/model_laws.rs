//! What holds of the models of the library's values: they keep what the values
//! hold.
use crate::copilot;
use crate::copilot::SessionError;
use crate::disk;
use crate::disk::{Disk, DiskFile, Walk};
use crate::document;
use crate::json;
use crate::json::{Json, Tree};
use crate::order;
use crate::paths;
use crate::paths::FilePath;
use crate::scan::{
    DetectionResult, DiscoveredSourceFile, ReadError, ScanContext, ScanRoot, UserDirs,
};
use crate::text;
use crate::types;
use crate::types::{
    ConversationView, NormalizedConversation, NormalizedInvocation, NormalizedMessage,
    NormalizedSnippet,
};
use crate::vscode_chat;
use crate::vscode_chat::{KeyView, PathKey, ReplayError};
use vstd::prelude::*;

verus! {

/// What may be absent is seen as it is, and as absent where it is absent.
pub proof fn law_what_may_be_absent(said: String, value: Json, path: FilePath)
    ensures
        text::held(Some(said)) == Some(said@),
        text::held(None) is None,
        text::seen(Some("user")) == Some("user"@),
        text::seen(None) is None,
        json::seen(Some(&value)) == Some(value@),
        json::seen(None) is None,
        document::held(Some(value)) == Some(value@),
        document::held(None) is None,
        types::held_tree(Some(value)) == Some(value@),
        types::held_tree(None) is None,
        paths::held(Some(path)) == Some(path@),
        paths::held(None) is None,
{
}

/// The lists of a value are seen item by item.
pub proof fn law_lists_are_seen_item_by_item(
    said: Seq<String>,
    values: Seq<Json>,
    list: Seq<FilePath>,
    keys: Seq<PathKey>,
    documents: Seq<Option<Json>>,
    path: FilePath,
)
    ensures
        text::texts(said) == said.map_values(|item: String| item@),
        json::trees_of(values) == values.map_values(|item: Json| item@),
        paths::views(list) == list.map_values(|item: FilePath| item@),
        path@ == path.parts@.map_values(|item: String| item@),
        vscode_chat::keys_of(keys) == keys.map_values(|item: PathKey| item@),
        vscode_chat::seen_entries(documents) == documents.map_values(
            |item: Option<Json>| document::held(item),
        ),
{
    broadcast use json::group_trees;

    assert(json::trees_of(values) =~= values.map_values(|item: Json| item@));
}

/// Lists that may be absent are seen as they are.
pub proof fn law_lists_that_may_be_absent(values: Vec<Json>, bytes: Vec<u8>, rows: Vec<String>)
    ensures
        json::seen_items(Some(&values)) == Some(json::trees_of(values@)),
        json::seen_items(None) is None,
        vscode_chat::seen_values(Some(values)) == Some(json::trees_of(values@)),
        vscode_chat::seen_values(None) is None,
        disk::seen_bytes(Some(&bytes)) == Some(bytes@),
        disk::seen_bytes(None) is None,
        disk::seen_rows(Some(&rows)) == Some(text::texts(rows@)),
        disk::seen_rows(None) is None,
{
}

/// A tool call is seen with all of its parts.
pub proof fn law_calls_are_seen_whole(call: NormalizedInvocation)
    ensures
        call@.kind == call.kind@,
        call@.name == call.name@,
        call@.raw_name == text::held(call.raw_name),
        call@.call_id == text::held(call.call_id),
        call@.arguments == types::held_tree(call.arguments),
{
}

/// A message is seen with all of its parts.
pub proof fn law_messages_are_seen_whole(message: NormalizedMessage, snippet: NormalizedSnippet)
    ensures
        message@.idx == message.idx,
        message@.role == message.role@,
        message@.author == text::held(message.author),
        message@.created_at == message.created_at,
        message@.content == message.content@,
        message@.extra == message.extra@,
        message@.invocations == message.invocations@.map_values(
            |call: NormalizedInvocation| call@,
        ),
        message@.snippets == message.snippets@.map_values(|piece: NormalizedSnippet| piece@),
        snippet@ == snippet.text@,
{
}

/// A conversation is seen with all of its parts.
pub proof fn law_conversations_are_seen_whole(
    conversation: NormalizedConversation,
    list: Vec<NormalizedConversation>,
    error: SessionError,
    reason: ReadError,
)
    ensures
        conversation@.agent_slug == conversation.agent_slug@,
        conversation@.external_id == text::held(conversation.external_id),
        conversation@.title == text::held(conversation.title),
        conversation@.workspace == text::held(conversation.workspace),
        conversation@.source_path == conversation.source_path@,
        conversation@.started_at == conversation.started_at,
        conversation@.ended_at == conversation.ended_at,
        conversation@.metadata == conversation.metadata@,
        conversation@.messages == conversation.messages@.map_values(
            |message: NormalizedMessage| message@,
        ),
        types::conversations_of(list@) == list@.map_values(|item: NormalizedConversation| item@),
        types::held_conversation(Some(conversation)) == Some(conversation@),
        types::held_conversation(None) is None,
        types::held_outcome(Ok(Some(conversation))) == Ok::<Option<ConversationView>, ReadError>(
            Some(conversation@),
        ),
        types::held_outcome(Ok(None)) == Ok::<Option<ConversationView>, ReadError>(None),
        types::held_outcome(Err(reason)) == Err::<Option<ConversationView>, ReadError>(reason),
        copilot::seen_outcome(Ok(list)) == Ok::<Seq<ConversationView>, SessionError>(
            types::conversations_of(list@),
        ),
        copilot::seen_outcome(Err(error)) == Err::<Seq<ConversationView>, SessionError>(error),
{
}

/// What is to be scanned, and what was found, is seen with all of its parts.
pub proof fn law_scans_are_seen_whole(
    root: ScanRoot,
    context: ScanContext,
    user: UserDirs,
    source: DiscoveredSourceFile,
    result: DetectionResult,
)
    ensures
        root@.path == root.path@,
        root@.origin == root.origin@,
        context@.data_dir == context.data_dir@,
        context@.scan_roots == context.scan_roots@.map_values(|item: ScanRoot| item@),
        context@.since_ts == context.since_ts,
        user@.home == paths::held(user.home),
        user@.config == paths::held(user.config),
        source@.connector == source.connector@,
        source@.root == source.root@,
        source@.source_path == source.source_path@,
        source@.role == source.role,
        source@.required == source.required,
        source@.modified == source.modified,
        result@.detected == result.detected,
        result@.evidence == text::texts(result.evidence@),
        result@.root_paths == paths::views(result.root_paths@),
{
}

/// Everything stands at its own path, and lists of it are seen item by item.
pub proof fn law_everything_stands_at_its_path(
    path: FilePath,
    root: ScanRoot,
    source: DiscoveredSourceFile,
    roots: Seq<ScanRoot>,
    sources: Seq<DiscoveredSourceFile>,
)
    ensures
        <FilePath as order::Located>::place(path@) == path@,
        <ScanRoot as order::Located>::place(root@) == root.path@,
        <DiscoveredSourceFile as order::Located>::place(source@) == source.source_path@,
        order::seen::<ScanRoot>(roots) == roots.map_values(|item: ScanRoot| item@),
        order::seen::<DiscoveredSourceFile>(sources) == sources.map_values(
            |item: DiscoveredSourceFile| item@,
        ),
{
}

/// What is known of a file system is seen with all of its parts.
pub proof fn law_file_systems_are_seen_whole(disk: Disk, file: DiskFile, walk: Walk)
    ensures
        disk@.files == disk.files@.map_values(|item: DiskFile| item@),
        disk@.dirs == paths::views(disk.dirs@),
        disk@.walks == disk.walks@.map_values(|item: Walk| item@),
        file@.path == file.path@,
        file@.modified == file.modified,
        file.bytes matches Some(bytes) ==> file@.bytes == Some(bytes@),
        file.bytes is None ==> file@.bytes is None,
        file.rows matches Some(rows) ==> file@.rows == Some(text::texts(rows@)),
        file.rows is None ==> file@.rows is None,
        walk@.root == walk.root@,
        walk@.files == paths::views(walk.files@),
        disk::seen_file(Some(&file)) == Some(file@),
        disk::seen_file(None) is None,
{
}

/// The segments of a path are seen as names and indices, and what comes of a
/// replay as the state that it leaves or the error that ends it.
pub proof fn law_replays_are_seen_whole(
    name: String,
    index: u64,
    keys: Vec<PathKey>,
    state: Json,
    error: ReplayError,
)
    ensures
        PathKey::Name(name)@ == KeyView::Name(name@),
        PathKey::Index(index)@ == KeyView::Index(index),
        vscode_chat::seen_path(Ok(keys)) == Ok::<Seq<KeyView>, ReplayError>(
            vscode_chat::keys_of(keys@),
        ),
        vscode_chat::seen_path(Err(error)) == Err::<Seq<KeyView>, ReplayError>(error),
        vscode_chat::seen_state(Ok(state)) == Ok::<Tree, ReplayError>(state@),
        vscode_chat::seen_state(Err(error)) == Err::<Tree, ReplayError>(error),
{
}

/// A change that is made leaves just the state that it should; one that is
/// rejected tells why and leaves the state as it was.
pub proof fn law_rejected_changes_leave_the_state(
    outcome: Result<(), ReplayError>,
    before: Tree,
    after: Tree,
    tree: Tree,
    error: ReplayError,
)
    ensures
        vscode_chat::moved(outcome, before, after, Ok(tree)) <==> outcome is Ok && after == tree,
        vscode_chat::moved(outcome, before, after, Err(error)) <==> outcome == Err::<
            (),
            ReplayError,
        >(error) && after == before,
{
}

} // verus!
