//! What holds of every scan for Copilot's conversations.
use crate::content;
use crate::copilot::chat;
use crate::copilot::cli;
use crate::copilot::native;
use crate::copilot::roots;
use crate::copilot::sweep;
use crate::disk;
use crate::disk::{DiskView, FileView};
use crate::document;
use crate::json;
use crate::json::Tree;
use crate::order;
use crate::order::Located;
use crate::paths;
use crate::paths::FilePath;
use crate::scan;
use crate::scan::{
    ContextView, DiscoveredSourceFile, DiscoveredSourceRole, RootView, ScanRoot, SourceView, UserView,
};
use crate::text;
use crate::timeline;
use crate::types;
use crate::types::{ConversationView, MessageView};
use vstd::prelude::*;

pub mod chats;
pub mod events;
pub mod folders;
pub mod places;
pub mod scans;
pub mod sessions;

verus! {

/// No two conversations that a scan keeps are of one session.
pub proof fn law_sessions_are_distinct(list: Seq<ConversationView>, i: int, j: int)
    requires
        0 <= i < j < sweep::each_session_once(list).len(),
        sweep::each_session_once(list)[i].external_id is Some,
    ensures
        sweep::each_session_once(list)[i].external_id != sweep::each_session_once(
            list,
        )[j].external_id,
    decreases list.len(),
{
    let earlier = list.drop_last();
    let before = sweep::each_session_once(earlier);
    let out = sweep::each_session_once(list);
    if j < before.len() {
        law_sessions_are_distinct(earlier, i, j);
    } else {
        let id = out[i].external_id->Some_0;
        lemma_kept_are_listed(earlier);
        assert(earlier.contains(before[i]));
        let k = choose|k: int| 0 <= k < earlier.len() && earlier[k] == before[i];
        assert(earlier[k].external_id == Some(id));
        assert(sweep::has_session(earlier, id));
    }
}

/// What is kept was there.
proof fn lemma_kept_are_listed(list: Seq<ConversationView>)
    ensures
        forall|i: int|
            0 <= i < sweep::each_session_once(list).len() ==> list.contains(
                #[trigger] sweep::each_session_once(list)[i],
            ),
    decreases list.len(),
{
    if list.len() > 0 {
        let earlier = list.drop_last();
        let before = sweep::each_session_once(earlier);
        let out = sweep::each_session_once(list);
        lemma_kept_are_listed(earlier);
        assert forall|i: int| 0 <= i < out.len() implies list.contains(#[trigger] out[i]) by {
            if i < before.len() {
                assert(earlier.contains(before[i]));
                let k = choose|k: int| 0 <= k < earlier.len() && earlier[k] == before[i];
                assert(list[k] == out[i]);
            } else {
                assert(list[list.len() - 1] == out[i]);
            }
        }
    }
}

/// A scan loses no session: of the conversations of one session it keeps the
/// first, and it keeps every conversation of no known session.
pub proof fn law_no_session_is_lost(list: Seq<ConversationView>, at: int)
    requires
        0 <= at < list.len(),
    ensures
        list[at].external_id is None ==> sweep::each_session_once(list).contains(list[at]),
        list[at].external_id matches Some(id) ==> sweep::has_session(
            sweep::each_session_once(list),
            id,
        ),
        list[at].external_id matches Some(id) && !sweep::has_session(list.take(at), id)
            ==> sweep::each_session_once(list).contains(list[at]),
    decreases list.len(),
{
    let earlier = list.drop_last();
    let before = sweep::each_session_once(earlier);
    let out = sweep::each_session_once(list);
    assert(before.len() <= out.len());
    assert forall|x: ConversationView| before.contains(x) implies out.contains(x) by {
        let k = choose|k: int| 0 <= k < before.len() && before[k] == x;
        assert(out[k] == x);
    }
    assert forall|id: Seq<char>| sweep::has_session(before, id) implies sweep::has_session(
        out,
        id,
    ) by {
        let k = choose|k: int|
            0 <= k < before.len() && (#[trigger] before[k]).external_id == Some(id);
        assert(out[k].external_id == Some(id));
    }
    if at < earlier.len() {
        law_no_session_is_lost(earlier, at);
        assert(earlier.take(at) =~= list.take(at));
        assert(earlier[at] == list[at]);
    } else {
        assert(list.take(at) =~= earlier);
        match list[at].external_id {
            Some(id) => {
                if sweep::has_session(earlier, id) {
                    let k = choose|k: int|
                        0 <= k < earlier.len() && (#[trigger] earlier[k]).external_id == Some(id);
                    law_no_session_is_lost(earlier, k);
                } else {
                    assert(out[out.len() - 1] == list[at]);
                    assert(out[out.len() - 1].external_id == Some(id));
                }
            },
            None => {
                assert(out[out.len() - 1] == list[at]);
            },
        }
    }
}

/// A session without evidence that it is Copilot's yields no conversation.
pub proof fn law_foreign_sessions_are_rejected(
    session: Tree,
    path: Seq<Seq<char>>,
    workspace: Option<Seq<char>>,
    storage: Seq<char>,
)
    requires
        !native::copilot_session(session),
    ensures
        native::session_conversation(session, path, workspace, storage) is None,
{
}

/// A file that is neither a session of VS Code nor in Copilot's storage yields
/// no conversation.
pub proof fn law_foreign_files_are_passed_over(path: Seq<Seq<char>>, disk: DiskView)
    requires
        !roots::native_look(path),
        !roots::copilot_look(path),
    ensures
        sweep::found_in(sweep::file_conversations(path, disk)) == Seq::<ConversationView>::empty(),
{
}

/// What lies below Copilot's storage is in Copilot's storage.
pub proof fn law_storage_covers_what_lies_below(base: Seq<Seq<char>>, path: Seq<Seq<char>>)
    requires
        paths::lies_in(path, base),
        roots::copilot_look(base),
    ensures
        roots::copilot_look(path),
{
    let upper = roots::lowered_parts(base);
    let lower = roots::lowered_parts(path);
    assert forall|i: int| 0 <= i < upper.len() implies upper[i] == lower[i] by {
        assert(path.take(base.len() as int)[i] == base[i]);
    }
    assert forall|name: Seq<char>| paths::has_part(upper, name) implies paths::has_part(
        lower,
        name,
    ) by {
        let i = choose|i: int| 0 <= i < upper.len() && #[trigger] upper[i] == name;
        assert(lower[i] == name);
    }
    assert forall|first: Seq<char>, second: Seq<char>|
        roots::has_pair(upper, first, second) implies roots::has_pair(lower, first, second) by {
        let i = choose|i: int|
            0 <= i < upper.len() - 1 && #[trigger] upper[i] == first && upper[i + 1] == second;
        assert(lower[i] == first && lower[i + 1] == second);
    }
}

/// The default places stand in order, each once.
pub proof fn law_default_places_are_distinct(user: UserView)
    ensures
        order::strictly_sorted::<FilePath>(roots::all_candidates(user)),
        order::strictly_sorted::<FilePath>(roots::all_users(user)),
{
    order::law_distinct_keeps_each_path_once::<FilePath>(
        roots::all_users(user) + roots::chats_of(roots::linux_users(user)) + roots::chats_of(
            roots::macos_users(user),
        ) + roots::chats_of(roots::windows_users(user)) + roots::cli_dirs(user),
    );
    order::law_distinct_keeps_each_path_once::<FilePath>(
        roots::linux_users(user) + roots::macos_users(user) + roots::windows_users(user),
    );
}

/// The files of a root stand in order.
pub proof fn law_session_files_are_sorted(root: Seq<Seq<char>>, disk: DiskView)
    ensures
        order::sorted::<FilePath>(roots::session_files(root, disk)),
{
    order::law_ordering_sorts::<FilePath>(roots::walked_sessions(disk.walked(root), root));
}

/// What every conversation of this connector has: a message, messages numbered
/// by their places, and something in each of them.
pub open spec fn well_made(conversation: ConversationView) -> bool {
    &&& conversation.agent_slug == "copilot"@
    &&& conversation.messages.len() > 0
    &&& forall|i: int|
        0 <= i < conversation.messages.len() ==> (#[trigger] conversation.messages[i]).idx
            == types::number(i) && says_something(conversation.messages[i])
}

/// Whether a message says anything or calls a tool.
pub open spec fn says_something(message: MessageView) -> bool {
    !text::is_blank(message.content) || message.invocations.len() > 0
}

/// Whether each of some messages says anything or calls a tool.
spec fn all_say(messages: Seq<MessageView>) -> bool {
    forall|i: int| 0 <= i < messages.len() ==> says_something(#[trigger] messages[i])
}

proof fn lemma_all_say_add(a: Seq<MessageView>, b: Seq<MessageView>)
    requires
        all_say(a),
        all_say(b),
    ensures
        all_say(a + b),
{
    assert forall|i: int| 0 <= i < (a + b).len() implies says_something(#[trigger] (a + b)[i]) by {
        if i < a.len() {
            assert((a + b)[i] == a[i]);
        } else {
            assert((a + b)[i] == b[i - a.len()]);
        }
    }
}

proof fn lemma_numbered_say(drafts: Seq<MessageView>)
    requires
        all_say(drafts),
    ensures
        forall|i: int|
            0 <= i < drafts.len() ==> (#[trigger] types::numbered(drafts)[i]).idx == types::number(i)
                && says_something(types::numbered(drafts)[i]),
{
    assert forall|i: int| 0 <= i < drafts.len() implies (#[trigger] types::numbered(drafts)[i]).idx
        == types::number(i) && says_something(types::numbered(drafts)[i]) by {
        assert(says_something(drafts[i]));
    }
}

proof fn lemma_turns_say(turns: Seq<Tree>)
    ensures
        all_say(chat::turns_messages(turns)),
    decreases turns.len(),
{
    if turns.len() > 0 {
        lemma_turns_say(turns.drop_last());
        let turn = turns.last();
        lemma_all_say_add(
            chat::side_messages(turn.field("request"@), "user"@, "user"@),
            chat::side_messages(turn.field("response"@), "assistant"@, "copilot"@),
        );
        lemma_all_say_add(chat::turns_messages(turns.drop_last()), chat::turn_messages(turn));
    }
}

proof fn lemma_listed_say(messages: Seq<Tree>)
    ensures
        all_say(chat::listed_messages(messages)),
    decreases messages.len(),
{
    if messages.len() > 0 {
        let message = messages.last();
        lemma_listed_say(messages.drop_last());
        lemma_all_say_add(
            chat::listed_messages(messages.drop_last()),
            chat::side_messages(
                Some(message),
                chat::role_of(message),
                chat::author_of(chat::role_of(message)),
            ),
        );
    }
}

proof fn lemma_events_say(events: Seq<Tree>)
    ensures
        all_say(cli::events_messages(events)),
    decreases events.len(),
{
    if events.len() > 0 {
        lemma_events_say(events.drop_last());
        lemma_all_say_add(
            cli::events_messages(events.drop_last()),
            cli::event_messages(events.last()),
        );
    }
}

proof fn lemma_requests_say(requests: Seq<Tree>)
    ensures
        all_say(native::requests_messages(requests)),
    decreases requests.len(),
{
    if requests.len() > 0 {
        let request = requests.last();
        let before = native::requests_messages(requests.drop_last());
        lemma_requests_say(requests.drop_last());
        lemma_all_say_add(before, native::asked(request));
        lemma_all_say_add(before + native::asked(request), native::answered(request));
    }
}

/// An exported conversation is well made, is found where it was read, and has a
/// start just when it has an end.
pub proof fn law_exported_conversations_are_well_made(conversation: Tree, path: Seq<Seq<char>>)
    requires
        chat::single_conversation(conversation, path) is Some,
    ensures
        well_made(chat::single_conversation(conversation, path)->Some_0),
        chat::single_conversation(conversation, path)->Some_0.source_path == path,
        chat::single_conversation(conversation, path)->Some_0.started_at is Some
            <==> chat::single_conversation(conversation, path)->Some_0.ended_at is Some,
{
    lemma_turns_say(json::items_or_none(conversation.items_at("turns"@)));
    lemma_listed_say(json::items_or_none(conversation.items_at("messages"@)));
    lemma_numbered_say(chat::conversation_messages(conversation));
}

/// The conversation of a session document of the CLI is well made, is found where
/// it was read, and has a start just when it has an end.
pub proof fn law_session_documents_are_well_made(session: Tree, path: Seq<Seq<char>>)
    requires
        chat::session_conversation(session, path) is Some,
    ensures
        well_made(chat::session_conversation(session, path)->Some_0),
        chat::session_conversation(session, path)->Some_0.source_path == path,
        chat::session_conversation(session, path)->Some_0.started_at is Some
            <==> chat::session_conversation(session, path)->Some_0.ended_at is Some,
{
    lemma_turns_say(json::items_or_none(session.items_at("turns"@)));
    lemma_listed_say(json::items_or_none(session.items_at("messages"@)));
    lemma_listed_say(json::items_or_none(session.items_at("conversation"@)));
    lemma_numbered_say(chat::session_messages(session));
}

/// A session document of the CLI whose messages stand in a `conversation` array
/// is one conversation with those messages, whatever events it has.
pub proof fn law_conversation_arrays_are_read(
    session: Tree,
    path: Seq<Seq<char>>,
    list: Seq<Tree>,
)
    requires
        session.items_at("conversation"@) == Some(list),
        session.items_at("conversations"@) is None,
        chat::conversation_messages(session).len() == 0,
        chat::listed_messages(list).len() > 0,
    ensures
        cli::session_document(session, path).len() == 1,
        cli::session_document(session, path)[0].messages == types::numbered(
            chat::listed_messages(list),
        ),
        cli::session_document(session, path)[0].external_id == json::text_in(
            session.field_or("id"@, "conversationId"@),
        ),
        cli::session_document(session, path)[0].source_path == path,
{
}

/// An exported conversation of which a message has a time does not start after
/// it ends.
pub proof fn law_exported_bounds_are_in_order(conversation: Tree, path: Seq<Seq<char>>, at: int)
    requires
        chat::single_conversation(conversation, path) is Some,
        0 <= at < chat::conversation_messages(conversation).len(),
        chat::conversation_messages(conversation)[at].created_at is Some,
    ensures
        chat::single_conversation(conversation, path)->Some_0.started_at matches Some(first)
            && chat::single_conversation(conversation, path)->Some_0.ended_at matches Some(last)
            && first <= chat::conversation_messages(conversation)[at].created_at->Some_0 <= last,
{
    let stamps = types::stamps_of(chat::conversation_messages(conversation));
    timeline::law_bounds_enclose(stamps);
    assert(stamps[at] is Some);
}

/// A conversation of the CLI is well made, is found where it was read, and does
/// not start after it ends.
pub proof fn law_event_conversations_are_well_made(
    events: Seq<Tree>,
    external_id: Option<Seq<char>>,
    workspace: Option<Seq<char>>,
    path: Seq<Seq<char>>,
    at: int,
)
    requires
        0 <= at < cli::events_conversation(events, external_id, workspace, path).len(),
    ensures
        well_made(cli::events_conversation(events, external_id, workspace, path)[at]),
        cli::events_conversation(events, external_id, workspace, path)[at].source_path == path,
        in_order(cli::events_conversation(events, external_id, workspace, path)[at]),
{
    lemma_events_say(events);
    lemma_numbered_say(cli::events_messages(events));
    timeline::law_bounds_enclose(cli::events_stamps(events));
}

/// Whether a conversation has a start just when it has an end, and does not
/// start after it ends.
pub open spec fn in_order(conversation: ConversationView) -> bool {
    match (conversation.started_at, conversation.ended_at) {
        (Some(first), Some(last)) => first <= last,
        (None, None) => true,
        _ => false,
    }
}

/// A conversation of VS Code's own storage is well made, is found where it was
/// read, and does not start after it ends.
pub proof fn law_session_conversations_are_well_made(
    session: Tree,
    path: Seq<Seq<char>>,
    workspace: Option<Seq<char>>,
    storage: Seq<char>,
)
    requires
        native::session_conversation(session, path, workspace, storage) is Some,
    ensures
        well_made(native::session_conversation(session, path, workspace, storage)->Some_0),
        native::session_conversation(session, path, workspace, storage)->Some_0.source_path == path,
        in_order(native::session_conversation(session, path, workspace, storage)->Some_0),
        native::copilot_session(session),
{
    let requests = session.items_at("requests"@)->Some_0;
    lemma_requests_say(requests);
    lemma_numbered_say(native::requests_messages(requests));
    timeline::law_bounds_enclose(
        native::session_stamps(content::stamp_at(session, "creationDate"@), requests),
    );
}

/// Whether each of some conversations was read at a path.
spec fn all_at(list: Seq<ConversationView>, path: Seq<Seq<char>>) -> bool {
    forall|i: int| 0 <= i < list.len() ==> (#[trigger] list[i]).source_path == path
}

proof fn lemma_singles_at(values: Seq<Tree>, path: Seq<Seq<char>>)
    ensures
        all_at(chat::singles(values, path), path),
    decreases values.len(),
{
    if values.len() > 0 {
        lemma_singles_at(values.drop_last(), path);
    }
}

proof fn lemma_document_at(value: Tree, path: Seq<Seq<char>>)
    ensures
        all_at(chat::exported(value, path), path),
        all_at(chat::chat_style(value, path), path),
{
    if let Some(list) = chat::listed_values(value) {
        lemma_singles_at(list, path);
    }
}

/// The conversations of a file are found where the file is.
pub proof fn law_conversations_are_found_at_their_file(path: Seq<Seq<char>>, disk: DiskView, at: int)
    requires
        0 <= at < sweep::found_in(sweep::file_conversations(path, disk)).len(),
    ensures
        sweep::found_in(sweep::file_conversations(path, disk))[at].source_path == path,
{
    if roots::native_look(path) {
    } else if roots::copilot_look(path) {
        let said = disk.text(path)->Some_0;
        if cli::cli_look(path, text::lowered(paths::rendered(path))) {
            if document::json_document(said) is Some {
                lemma_document_at(document::json_document(said)->Some_0, path);
            }
        } else {
            lemma_document_at(document::json_document(said)->Some_0, path);
        }
    }
}

/// A session of a database is placed below it.
proof fn lemma_row_below(path: Seq<Seq<char>>, id: Seq<char>)
    requires
        path.len() > 0,
    ensures
        paths::lies_in(native::row_path(path, id), path),
{
    reveal_strlit("interactive.sessions#");
    let name = "interactive.sessions#"@ + id;
    assert(name[0] == 'i');
    assert(native::row_path(path, id).take(path.len() as int) =~= path);
}

/// A session of a database is placed directly below it, unless its name holds a
/// slash.
pub proof fn law_rows_lie_directly_below(path: Seq<Seq<char>>, id: Seq<char>)
    requires
        path.len() > 0,
        !id.contains('/'),
    ensures
        native::row_path(path, id) == path.push("interactive.sessions#"@ + id),
        paths::parent_of(native::row_path(path, id)) == Some(path),
{
    reveal_strlit("interactive.sessions#");
    reveal_strlit(".");
    reveal_strlit("/");
    let head = "interactive.sessions#"@;
    let name = head + id;
    assert forall|j: int| 0 <= j < name.len() implies name[j] != '/' by {
        if j >= head.len() {
            assert(name[j] == id[j - head.len()]);
        }
    }
    text::lemma_first_index(name, '/', name.len() as int);
    assert(paths::pieces(name) =~= seq![name]);
    assert(paths::named(seq![name].drop_last()) =~= Seq::empty());
    assert(name[0] == 'i');
    assert(name != "."@);
    assert(paths::named(paths::pieces(name)) =~= seq![name]);
    assert(native::row_path(path, id) =~= path.push(name));
    assert(path.push(name).drop_last() =~= path);
}

/// The conversations of a database are found at the places of their sessions
/// below it.
pub proof fn law_database_conversations_are_found_below(
    sessions: Seq<Tree>,
    path: Seq<Seq<char>>,
    workspace: Option<Seq<char>>,
    since: Option<i64>,
    at: int,
)
    requires
        0 <= at < native::database_conversations(sessions, path, workspace, since).len(),
    ensures
        ({
            let found = native::database_conversations(sessions, path, workspace, since)[at];
            found.external_id matches Some(id) && found.source_path == native::row_path(path, id)
        }),
    decreases sessions.len(),
{
    let earlier = sessions.drop_last();
    let before = native::database_conversations(earlier, path, workspace, since);
    if at < before.len() {
        law_database_conversations_are_found_below(earlier, path, workspace, since, at);
    }
}

/// A database has a name.
proof fn lemma_database_named(path: Seq<Seq<char>>, root: Seq<Seq<char>>)
    requires
        roots::is_database(path, root),
    ensures
        path.len() > 0,
{
    reveal_strlit("state.vscdb");
    reveal_strlit(".");
    let name = "state.vscdb"@;
    text::lemma_first_index(name, '/', name.len() as int);
    assert(paths::pieces(name) =~= seq![name]);
    assert(paths::named(seq![name].drop_last()) =~= Seq::empty());
    assert(name.len() != "."@.len());
    assert(paths::named(paths::pieces(name)).len() == 1);
}

proof fn lemma_databases_named(files: Seq<FileView>, root: Seq<Seq<char>>)
    ensures
        forall|i: int|
            0 <= i < roots::databases_among(files, root).len() ==> (
            #[trigger] roots::databases_among(files, root)[i]).len() > 0,
    decreases files.len(),
{
    if files.len() > 0 {
        lemma_databases_named(files.drop_last(), root);
        let out = roots::databases_among(files, root);
        let before = roots::databases_among(files.drop_last(), root);
        if roots::is_database(files.last().path, root) {
            lemma_database_named(files.last().path, root);
        }
        assert forall|i: int| 0 <= i < out.len() implies (#[trigger] out[i]).len() > 0 by {
            if i < before.len() {
                assert(out[i] == before[i]);
            }
        }
    }
}

/// Every database of a root has a name.
proof fn lemma_database_files_named(root: Seq<Seq<char>>, disk: DiskView)
    ensures
        forall|i: int|
            0 <= i < roots::database_files(root, disk).len() ==> (#[trigger] roots::database_files(
                root,
                disk,
            )[i]).len() > 0,
{
    let all = roots::databases_among(disk.files, root);
    lemma_databases_named(disk.files, root);
    order::law_distinct_keeps_each_path_once::<FilePath>(all);
    let out = roots::database_files(root, disk);
    assert forall|i: int| 0 <= i < out.len() implies (#[trigger] out[i]).len() > 0 by {
        if !disk.is_file(root) {
            assert(all.contains(order::distinct::<FilePath>(all)[i]));
            let k = choose|k: int| 0 <= k < all.len() && all[k] == out[i];
            assert(all[k].len() > 0);
        }
    }
}

/// Whether a conversation stands where one of a source does: a log's at the path
/// of the log, and a database's at the place of its session below the database,
/// which is directly below it unless the name of the session holds a slash.
pub open spec fn stands_at(conversation: ConversationView, source: SourceView) -> bool {
    match source.role {
        DiscoveredSourceRole::PrimarySessionLog => conversation.source_path == source.source_path,
        DiscoveredSourceRole::SqliteDatabase => {
            &&& conversation.external_id matches Some(id)
            &&& conversation.source_path == native::row_path(source.source_path, id)
            &&& paths::lies_in(conversation.source_path, source.source_path)
            &&& !id.contains('/') ==> paths::parent_of(conversation.source_path) == Some(
                source.source_path,
            )
        },
    }
}

/// Whether a conversation is one that a source holds, and stands where it should.
pub open spec fn stems_from_source(
    conversation: ConversationView,
    source: SourceView,
    since: Option<i64>,
    disk: DiskView,
) -> bool {
    sweep::held_by(source, since, disk).contains(conversation) && stands_at(conversation, source)
}

proof fn lemma_root_sources(root: RootView, since: Option<i64>, disk: DiskView, at: int)
    requires
        0 <= at < roots::root_sources(root, since, disk).len(),
    ensures
        disk.fresh(roots::root_sources(root, since, disk)[at].source_path, since),
        roots::root_sources(root, since, disk)[at].role is SqliteDatabase
            ==> roots::root_sources(root, since, disk)[at].source_path.len() > 0,
{
    let files = roots::session_files(root.path, disk);
    let databases = roots::database_files(root.path, disk);
    let log = DiscoveredSourceRole::PrimarySessionLog;
    let database = DiscoveredSourceRole::SqliteDatabase;
    let first = scan::fresh_sources("copilot"@, root, files, log, since, disk);
    let second = scan::fresh_sources("copilot"@, root, databases, database, since, disk);
    let all = roots::root_sources(root, since, disk);
    scan::lemma_fresh_sources("copilot"@, root, files, log, since, disk);
    scan::lemma_fresh_sources("copilot"@, root, databases, database, since, disk);
    scan::lemma_source_roles("copilot"@, root, files, log, since, disk);
    lemma_database_files_named(root.path, disk);
    if at < first.len() {
        assert(all[at] == first[at]);
    } else {
        assert(all[at] == second[at - first.len()]);
        let path = all[at].source_path;
        assert(databases.contains(path));
        let k = choose|k: int| 0 <= k < databases.len() && databases[k] == path;
        assert(databases[k].len() > 0);
    }
}

/// Every source changed since the time given, and a database has a name.
proof fn lemma_roots_sources(list: Seq<RootView>, since: Option<i64>, disk: DiskView, at: int)
    requires
        0 <= at < roots::roots_sources(list, since, disk).len(),
    ensures
        disk.fresh(roots::roots_sources(list, since, disk)[at].source_path, since),
        roots::roots_sources(list, since, disk)[at].role is SqliteDatabase
            ==> roots::roots_sources(list, since, disk)[at].source_path.len() > 0,
    decreases list.len(),
{
    let before = roots::roots_sources(list.drop_last(), since, disk);
    let all = roots::roots_sources(list, since, disk);
    if at < before.len() {
        lemma_roots_sources(list.drop_last(), since, disk, at);
        assert(all[at] == before[at]);
    } else {
        lemma_root_sources(list.last(), since, disk, at - before.len());
        assert(all[at] == roots::root_sources(list.last(), since, disk)[at - before.len()]);
    }
}

/// What some sources hold is held by one of them.
proof fn lemma_held_by_one(list: Seq<SourceView>, since: Option<i64>, disk: DiskView, at: int)
    requires
        0 <= at < sweep::in_sources(list, since, disk).len(),
    ensures
        exists|k: int|
            0 <= k < list.len() && sweep::held_by(#[trigger] list[k], since, disk).contains(
                sweep::in_sources(list, since, disk)[at],
            ),
    decreases list.len(),
{
    let earlier = list.drop_last();
    let before = sweep::in_sources(earlier, since, disk);
    let all = sweep::in_sources(list, since, disk);
    if at < before.len() {
        lemma_held_by_one(earlier, since, disk, at);
        let k = choose|k: int|
            0 <= k < earlier.len() && sweep::held_by(#[trigger] earlier[k], since, disk).contains(
                before[at],
            );
        assert(list[k] == earlier[k]);
        assert(all[at] == before[at]);
    } else {
        let held = sweep::held_by(list.last(), since, disk);
        assert(all[at] == held[at - before.len()]);
        assert(held.contains(all[at]));
        assert(list[list.len() - 1] == list.last());
    }
}

/// What one of some sources holds is among what they hold.
proof fn lemma_sources_hold(
    list: Seq<SourceView>,
    since: Option<i64>,
    disk: DiskView,
    source: int,
    at: int,
)
    requires
        0 <= source < list.len(),
        0 <= at < sweep::held_by(list[source], since, disk).len(),
    ensures
        sweep::in_sources(list, since, disk).contains(
            sweep::held_by(list[source], since, disk)[at],
        ),
    decreases list.len(),
{
    let earlier = list.drop_last();
    let before = sweep::in_sources(earlier, since, disk);
    let all = sweep::in_sources(list, since, disk);
    let held = sweep::held_by(list[source], since, disk)[at];
    if source < earlier.len() {
        assert(earlier[source] == list[source]);
        lemma_sources_hold(earlier, since, disk, source, at);
        let k = choose|k: int| 0 <= k < before.len() && before[k] == held;
        assert(all[k] == held);
    } else {
        assert(all[before.len() + at] == held);
    }
}

/// A scan reads just the discovered sources, and no file twice.
pub proof fn law_each_file_is_read_once(context: ContextView, user: UserView, disk: DiskView)
    ensures
        forall|i: int, j: int|
            0 <= i < j < sweep::sources_to_read(context, user, disk).len() ==> (
            #[trigger] sweep::sources_to_read(context, user, disk)[i]).source_path != (
            #[trigger] sweep::sources_to_read(context, user, disk)[j]).source_path,
        forall|source: SourceView| #[trigger]
            sweep::sources_to_read(context, user, disk).contains(source) <==> roots::sources(
                context,
                user,
                disk,
            ).contains(source),
{
    let all = roots::sources_by_root(context, user, disk);
    let read = sweep::sources_to_read(context, user, disk);
    let found = roots::sources(context, user, disk);
    order::law_once_keeps_each_path::<DiscoveredSourceFile>(all);
    order::law_order_does_not_choose::<DiscoveredSourceFile>(all);
    assert forall|i: int, j: int| 0 <= i < j < read.len() implies (#[trigger] read[i]).source_path
        != (#[trigger] read[j]).source_path by {
        assert(DiscoveredSourceFile::place(read[i]) != DiscoveredSourceFile::place(read[j]));
    }
    assert forall|source: SourceView| #[trigger] read.contains(source) <==> found.contains(
        source,
    ) by {
        if read.contains(source) {
            let k = choose|k: int| 0 <= k < read.len() && read[k] == source;
            assert(found.contains(read[k]));
        }
        if found.contains(source) {
            let k = choose|k: int| 0 <= k < found.len() && found[k] == source;
            assert(read.contains(found[k]));
        }
    }
}

/// Whatever a scan finds is held by a discovered source, and stands at the path
/// of that source or, in a database, at the place of its session below it.
pub proof fn law_discovery_covers_the_scan(
    context: ContextView,
    user: UserView,
    disk: DiskView,
    at: int,
)
    requires
        0 <= at < sweep::scanned(context, user, disk).len(),
    ensures
        exists|k: int|
            0 <= k < roots::sources(context, user, disk).len() && stems_from_source(
                sweep::scanned(context, user, disk)[at],
                #[trigger] roots::sources(context, user, disk)[k],
                context.since_ts,
                disk,
            ),
{
    let since = context.since_ts;
    let read = sweep::sources_to_read(context, user, disk);
    let all = sweep::in_sources(read, since, disk);
    let kept = sweep::scanned(context, user, disk);
    let found = roots::sources(context, user, disk);
    lemma_kept_are_listed(all);
    assert(all.contains(kept[at]));
    let i = choose|i: int| 0 <= i < all.len() && all[i] == kept[at];
    lemma_held_by_one(read, since, disk, i);
    let n = choose|n: int|
        0 <= n < read.len() && sweep::held_by(#[trigger] read[n], since, disk).contains(all[i]);
    law_each_file_is_read_once(context, user, disk);
    assert(read.contains(read[n]));
    let k = choose|k: int| 0 <= k < found.len() && found[k] == read[n];
    lemma_stands(context, user, disk, k, kept[at]);
}

/// What a discovered source holds stands where it should.
proof fn lemma_stands(
    context: ContextView,
    user: UserView,
    disk: DiskView,
    source: int,
    conversation: ConversationView,
)
    requires
        0 <= source < roots::sources(context, user, disk).len(),
        sweep::held_by(
            roots::sources(context, user, disk)[source],
            context.since_ts,
            disk,
        ).contains(conversation),
    ensures
        stands_at(conversation, roots::sources(context, user, disk)[source]),
{
    let since = context.since_ts;
    let found = roots::sources(context, user, disk)[source];
    let held = sweep::held_by(found, since, disk);
    let path = found.source_path;
    let i = choose|i: int| 0 <= i < held.len() && held[i] == conversation;
    match found.role {
        DiscoveredSourceRole::PrimarySessionLog => {
            law_conversations_are_found_at_their_file(path, disk, i);
        },
        DiscoveredSourceRole::SqliteDatabase => {
            law_database_conversations_are_found_below(
                native::row_sessions(document::line_documents(disk.rows(path)->Some_0)),
                path,
                native::database_workspace(path, disk),
                since,
                i,
            );
            let id = conversation.external_id->Some_0;
            lemma_source_named(context, user, disk, source);
            lemma_row_below(path, id);
            if !id.contains('/') {
                law_rows_lie_directly_below(path, id);
            }
        },
    }
}

/// A discovered source changed since the time given, and a database has a name.
proof fn lemma_source_named(context: ContextView, user: UserView, disk: DiskView, at: int)
    requires
        0 <= at < roots::sources(context, user, disk).len(),
    ensures
        disk.fresh(roots::sources(context, user, disk)[at].source_path, context.since_ts),
        roots::sources(context, user, disk)[at].role is SqliteDatabase ==> roots::sources(
            context,
            user,
            disk,
        )[at].source_path.len() > 0,
{
    let list = roots::roots_to_scan(context, user, disk);
    let all = roots::sources_by_root(context, user, disk);
    let found = roots::sources(context, user, disk);
    order::law_distinct_keeps_each_path_once::<DiscoveredSourceFile>(all);
    assert(all.contains(found[at]));
    let k = choose|k: int| 0 <= k < all.len() && all[k] == found[at];
    lemma_roots_sources(list, context.since_ts, disk, k);
}

/// A scan reads every discovered source: of each conversation that it holds, the
/// scan finds the session, or the conversation itself where it is of no known
/// session.
pub proof fn law_the_scan_covers_discovery(
    context: ContextView,
    user: UserView,
    disk: DiskView,
    source: int,
    at: int,
)
    requires
        0 <= source < roots::sources(context, user, disk).len(),
        0 <= at < sweep::held_by(
            roots::sources(context, user, disk)[source],
            context.since_ts,
            disk,
        ).len(),
    ensures
        ({
            let held = sweep::held_by(
                roots::sources(context, user, disk)[source],
                context.since_ts,
                disk,
            )[at];
            match held.external_id {
                Some(id) => sweep::has_session(sweep::scanned(context, user, disk), id),
                None => sweep::scanned(context, user, disk).contains(held),
            }
        }),
{
    let since = context.since_ts;
    let read = sweep::sources_to_read(context, user, disk);
    let all = sweep::in_sources(read, since, disk);
    let found = roots::sources(context, user, disk);
    law_each_file_is_read_once(context, user, disk);
    assert(found.contains(found[source]));
    assert(read.contains(found[source]));
    let k = choose|k: int| 0 <= k < read.len() && read[k] == found[source];
    lemma_sources_hold(read, since, disk, k, at);
    let held = sweep::held_by(read[k], since, disk)[at];
    let i = choose|i: int| 0 <= i < all.len() && all[i] == held;
    law_no_session_is_lost(all, i);
}

/// Whether two file systems agree at some paths.
pub open spec fn agree(one: DiskView, other: DiskView, list: Seq<Seq<Seq<char>>>) -> bool {
    forall|i: int|
        0 <= i < list.len() ==> one.is_file(#[trigger] list[i]) == other.is_file(list[i])
            && one.is_dir(list[i]) == other.is_dir(list[i])
}

proof fn lemma_agree_parts(
    one: DiskView,
    other: DiskView,
    a: Seq<Seq<Seq<char>>>,
    b: Seq<Seq<Seq<char>>>,
)
    requires
        agree(one, other, a + b),
    ensures
        agree(one, other, a),
        agree(one, other, b),
{
    assert forall|i: int| 0 <= i < a.len() implies one.is_file(#[trigger] a[i]) == other.is_file(
        a[i],
    ) && one.is_dir(a[i]) == other.is_dir(a[i]) by {
        assert((a + b)[i] == a[i]);
    }
    assert forall|i: int| 0 <= i < b.len() implies one.is_file(#[trigger] b[i]) == other.is_file(
        b[i],
    ) && one.is_dir(b[i]) == other.is_dir(b[i]) by {
        assert((a + b)[a.len() + i] == b[i]);
    }
}

proof fn lemma_agree_storage(one: DiskView, other: DiskView, path: Seq<Seq<char>>)
    requires
        agree(one, other, roots::storage_probes(path)),
    ensures
        one.present(path) == other.present(path),
        one.is_file(path) == other.is_file(path),
        roots::vscode_look(path, one) == roots::vscode_look(path, other),
{
    let list = roots::storage_probes(path);
    assert(list[0] == path);
    assert(list[1] == paths::under(path, "workspaceStorage"@));
    assert(list[2] == paths::under(path, "globalStorage"@));
}

proof fn lemma_agree_rooted(one: DiskView, other: DiskView, list: Seq<Seq<Seq<char>>>)
    requires
        agree(one, other, roots::all_storage_probes(list)),
    ensures
        roots::rooted(list, one) == roots::rooted(list, other),
    decreases list.len(),
{
    if list.len() > 0 {
        lemma_agree_parts(
            one,
            other,
            roots::all_storage_probes(list.drop_last()),
            roots::storage_probes(list.last()),
        );
        lemma_agree_rooted(one, other, list.drop_last());
        lemma_agree_storage(one, other, list.last());
    }
}

proof fn lemma_agree_base(one: DiskView, other: DiskView, base: Seq<Seq<char>>)
    requires
        agree(one, other, roots::base_probes(base)),
    ensures
        roots::explicit_roots(base, one) == roots::explicit_roots(base, other),
{
    let inner = seq![
        paths::under(base, "chatSessions"@),
        paths::under(base, "session-state"@),
        paths::under(base, "history-session-state"@),
        paths::under(base, "github.copilot-chat"@),
        paths::under(base, "emptyWindowChatSessions"@),
        paths::under(base, "copilot"@),
    ];
    let below = roots::all_storage_probes(roots::candidates(base));
    lemma_agree_parts(one, other, roots::storage_probes(base) + inner, below);
    lemma_agree_parts(one, other, roots::storage_probes(base), inner);
    lemma_agree_rooted(one, other, roots::candidates(base));
    lemma_agree_storage(one, other, base);
    assert(inner[0] == paths::under(base, "chatSessions"@));
    assert(inner[1] == paths::under(base, "session-state"@));
    assert(inner[2] == paths::under(base, "history-session-state"@));
    assert(inner[3] == paths::under(base, "github.copilot-chat"@));
    assert(inner[4] == paths::under(base, "emptyWindowChatSessions"@));
    assert(inner[5] == paths::under(base, "copilot"@));
}

proof fn lemma_agree_given(one: DiskView, other: DiskView, list: Seq<RootView>)
    requires
        agree(one, other, roots::given_probes(list)),
    ensures
        roots::given_roots(list, one) == roots::given_roots(list, other),
    decreases list.len(),
{
    if list.len() > 0 {
        lemma_agree_parts(
            one,
            other,
            roots::given_probes(list.drop_last()),
            roots::base_probes(list.last().path),
        );
        lemma_agree_given(one, other, list.drop_last());
        lemma_agree_base(one, other, list.last().path);
    }
}

proof fn lemma_agree_present(one: DiskView, other: DiskView, list: Seq<Seq<Seq<char>>>)
    requires
        agree(one, other, list),
    ensures
        disk::present_ones(list, one) == disk::present_ones(list, other),
    decreases list.len(),
{
    if list.len() > 0 {
        let earlier = list.drop_last();
        assert forall|i: int| 0 <= i < earlier.len() implies one.is_file(#[trigger] earlier[i])
            == other.is_file(earlier[i]) && one.is_dir(earlier[i]) == other.is_dir(earlier[i]) by {
            assert(earlier[i] == list[i]);
        }
        lemma_agree_present(one, other, earlier);
        assert(list[list.len() - 1] == list.last());
    }
}

/// The places to look at are all that decides the roots: file systems that
/// agree there have the same roots.
pub proof fn law_probes_decide_the_roots(
    context: ContextView,
    user: UserView,
    one: DiskView,
    other: DiskView,
)
    requires
        agree(one, other, roots::probes(context, user)),
    ensures
        roots::roots_to_scan(context, user, one) == roots::roots_to_scan(context, user, other),
{
    if context.scan_roots.len() == 0 {
        lemma_agree_parts(
            one,
            other,
            roots::storage_probes(context.data_dir),
            roots::all_candidates(user),
        );
        lemma_agree_storage(one, other, context.data_dir);
        lemma_agree_present(one, other, roots::all_candidates(user));
    } else {
        lemma_agree_given(one, other, context.scan_roots);
    }
}

proof fn lemma_under(base: Seq<Seq<char>>, tail: Seq<char>)
    requires
        !paths::is_absolute(tail),
    ensures
        paths::lies_in(paths::under(base, tail), base),
{
    assert(paths::under(base, tail).take(base.len() as int) =~= base);
}

/// Whether each of some paths lies in a place.
pub open spec fn all_within(list: Seq<Seq<Seq<char>>>, base: Seq<Seq<char>>) -> bool {
    forall|i: int| 0 <= i < list.len() ==> paths::lies_in(#[trigger] list[i], base)
}

proof fn lemma_within_add(
    a: Seq<Seq<Seq<char>>>,
    b: Seq<Seq<Seq<char>>>,
    base: Seq<Seq<char>>,
)
    requires
        all_within(a, base),
        all_within(b, base),
    ensures
        all_within(a + b, base),
{
    assert forall|i: int| 0 <= i < (a + b).len() implies paths::lies_in(
        #[trigger] (a + b)[i],
        base,
    ) by {
        if i < a.len() {
            assert((a + b)[i] == a[i]);
        } else {
            assert((a + b)[i] == b[i - a.len()]);
        }
    }
}

proof fn lemma_home_candidates_within(base: Seq<Seq<char>>)
    ensures
        all_within(roots::home_candidates(base), base),
{
    reveal_strlit(".config/Code/User");
    lemma_under(base, ".config/Code/User"@);
    reveal_strlit(".config/Code - Insiders/User");
    lemma_under(base, ".config/Code - Insiders/User"@);
    reveal_strlit(".config/VSCodium/User");
    lemma_under(base, ".config/VSCodium/User"@);
    reveal_strlit("Library/Application Support/Code/User");
    lemma_under(base, "Library/Application Support/Code/User"@);
    reveal_strlit("Library/Application Support/Code - Insiders/User");
    lemma_under(base, "Library/Application Support/Code - Insiders/User"@);
    reveal_strlit("Library/Application Support/VSCodium/User");
    lemma_under(base, "Library/Application Support/VSCodium/User"@);
    reveal_strlit("AppData/Roaming/Code/User");
    lemma_under(base, "AppData/Roaming/Code/User"@);
    reveal_strlit("AppData/Roaming/Code - Insiders/User");
    lemma_under(base, "AppData/Roaming/Code - Insiders/User"@);
    reveal_strlit("AppData/Roaming/VSCodium/User");
    lemma_under(base, "AppData/Roaming/VSCodium/User"@);
    reveal_strlit(".config/Code/User/globalStorage/github.copilot-chat");
    lemma_under(base, ".config/Code/User/globalStorage/github.copilot-chat"@);
    reveal_strlit(".config/Code - Insiders/User/globalStorage/github.copilot-chat");
    lemma_under(base, ".config/Code - Insiders/User/globalStorage/github.copilot-chat"@);
    reveal_strlit(".config/VSCodium/User/globalStorage/github.copilot-chat");
    lemma_under(base, ".config/VSCodium/User/globalStorage/github.copilot-chat"@);
    reveal_strlit("Library/Application Support/Code/User/globalStorage/github.copilot-chat");
    lemma_under(base, "Library/Application Support/Code/User/globalStorage/github.copilot-chat"@);
    reveal_strlit("Library/Application Support/Code - Insiders/User/globalStorage/github.copilot-chat");
    lemma_under(base, "Library/Application Support/Code - Insiders/User/globalStorage/github.copilot-chat"@);
    reveal_strlit("Library/Application Support/VSCodium/User/globalStorage/github.copilot-chat");
    lemma_under(base, "Library/Application Support/VSCodium/User/globalStorage/github.copilot-chat"@);
    reveal_strlit("AppData/Roaming/Code/User/globalStorage/github.copilot-chat");
    lemma_under(base, "AppData/Roaming/Code/User/globalStorage/github.copilot-chat"@);
    reveal_strlit("AppData/Roaming/Code - Insiders/User/globalStorage/github.copilot-chat");
    lemma_under(base, "AppData/Roaming/Code - Insiders/User/globalStorage/github.copilot-chat"@);
    reveal_strlit("AppData/Roaming/VSCodium/User/globalStorage/github.copilot-chat");
    lemma_under(base, "AppData/Roaming/VSCodium/User/globalStorage/github.copilot-chat"@);
    reveal_strlit(".config/gh-copilot");
    lemma_under(base, ".config/gh-copilot"@);
    reveal_strlit(".config/gh/copilot");
    lemma_under(base, ".config/gh/copilot"@);
    reveal_strlit(".copilot/session-state");
    lemma_under(base, ".copilot/session-state"@);
    reveal_strlit(".copilot/history-session-state");
    lemma_under(base, ".copilot/history-session-state"@);
    reveal_strlit("Code/User");
    lemma_under(base, "Code/User"@);
    reveal_strlit("Code - Insiders/User");
    lemma_under(base, "Code - Insiders/User"@);
    reveal_strlit("VSCodium/User");
    lemma_under(base, "VSCodium/User"@);
}

proof fn lemma_candidates_within(base: Seq<Seq<char>>)
    ensures
        all_within(roots::candidates(base), base),
{
    lemma_home_candidates_within(base);
    reveal_strlit("Code/User");
    lemma_under(base, "Code/User"@);
    reveal_strlit("Code - Insiders/User");
    lemma_under(base, "Code - Insiders/User"@);
    reveal_strlit("VSCodium/User");
    lemma_under(base, "VSCodium/User"@);
    reveal_strlit("Code/User/globalStorage/github.copilot-chat");
    lemma_under(base, "Code/User/globalStorage/github.copilot-chat"@);
    reveal_strlit("Code - Insiders/User/globalStorage/github.copilot-chat");
    lemma_under(base, "Code - Insiders/User/globalStorage/github.copilot-chat"@);
    reveal_strlit("VSCodium/User/globalStorage/github.copilot-chat");
    lemma_under(base, "VSCodium/User/globalStorage/github.copilot-chat"@);
    reveal_strlit("gh-copilot");
    lemma_under(base, "gh-copilot"@);
    reveal_strlit("gh/copilot");
    lemma_under(base, "gh/copilot"@);
    reveal_strlit("User");
    lemma_under(base, "User"@);
    reveal_strlit("User/globalStorage/github.copilot-chat");
    lemma_under(base, "User/globalStorage/github.copilot-chat"@);
    reveal_strlit("globalStorage/github.copilot-chat");
    lemma_under(base, "globalStorage/github.copilot-chat"@);
    reveal_strlit("workspaceStorage");
    lemma_under(base, "workspaceStorage"@);
    reveal_strlit("globalStorage");
    lemma_under(base, "globalStorage"@);
    lemma_within_add(roots::product_users(base), roots::product_chats(base), base);
    lemma_within_add(
        roots::product_users(base) + roots::product_chats(base),
        seq![paths::under(base, "gh-copilot"@), paths::under(base, "gh/copilot"@)],
        base,
    );
}

proof fn lemma_rooted_within(list: Seq<Seq<Seq<char>>>, disk: DiskView, base: Seq<Seq<char>>)
    requires
        all_within(list, base),
    ensures
        all_within(roots::rooted(list, disk), base),
    decreases list.len(),
{
    if list.len() > 0 {
        let earlier = list.drop_last();
        assert forall|i: int| 0 <= i < earlier.len() implies paths::lies_in(
            #[trigger] earlier[i],
            base,
        ) by {
            assert(earlier[i] == list[i]);
        }
        assert(list[list.len() - 1] == list.last());
        lemma_rooted_within(earlier, disk, base);
        lemma_within_add(
            roots::rooted(earlier, disk),
            paths::only_if(roots::is_root(list.last(), disk), list.last()),
            base,
        );
    }
}

proof fn lemma_inner_within(base: Seq<Seq<char>>, disk: DiskView)
    ensures
        all_within(roots::inner_roots(base, disk), base),
{
    reveal_strlit("chatSessions");
    lemma_under(base, "chatSessions"@);
    reveal_strlit("session-state");
    lemma_under(base, "session-state"@);
    reveal_strlit("history-session-state");
    lemma_under(base, "history-session-state"@);
    reveal_strlit("github.copilot-chat");
    lemma_under(base, "github.copilot-chat"@);
    reveal_strlit("emptyWindowChatSessions");
    lemma_under(base, "emptyWindowChatSessions"@);
    reveal_strlit("copilot");
    lemma_under(base, "copilot"@);
}

/// The roots that a given path stands for are the path itself or lie below it.
pub proof fn law_roots_lie_in_the_given_place(base: Seq<Seq<char>>, disk: DiskView)
    ensures
        all_within(roots::explicit_roots(base, disk), base),
{
    assert(base.take(base.len() as int) =~= base);
    lemma_inner_within(base, disk);
    lemma_candidates_within(base);
    lemma_rooted_within(roots::candidates(base), disk, base);
    lemma_within_add(roots::own_roots(base, disk), roots::inner_roots(base, disk), base);
    lemma_within_add(
        roots::own_roots(base, disk) + roots::inner_roots(base, disk),
        roots::rooted(roots::candidates(base), disk),
        base,
    );
}

/// Whether a root lies in one of some given places, on the same machine.
pub open spec fn stems_from(root: RootView, given: Seq<RootView>) -> bool {
    exists|k: int|
        0 <= k < given.len() && root.origin == (#[trigger] given[k]).origin && paths::lies_in(
            root.path,
            given[k].path,
        )
}

proof fn lemma_given_stem(list: Seq<RootView>, disk: DiskView)
    ensures
        forall|i: int|
            0 <= i < roots::given_roots(list, disk).len() ==> stems_from(
                #[trigger] roots::given_roots(list, disk)[i],
                list,
            ),
    decreases list.len(),
{
    if list.len() > 0 {
        let earlier = list.drop_last();
        let last = list.last();
        let before = roots::given_roots(earlier, disk);
        let more = roots::explicit_roots(last.path, disk);
        let out = roots::given_roots(list, disk);
        lemma_given_stem(earlier, disk);
        law_roots_lie_in_the_given_place(last.path, disk);
        assert forall|i: int| 0 <= i < out.len() implies stems_from(#[trigger] out[i], list) by {
            if i < before.len() {
                assert(out[i] == before[i]);
                assert(stems_from(before[i], earlier));
                let k = choose|k: int|
                    0 <= k < earlier.len() && before[i].origin == (#[trigger] earlier[k]).origin
                        && paths::lies_in(before[i].path, earlier[k].path);
                assert(list[k] == earlier[k]);
            } else {
                assert(out[i].path == more[i - before.len()]);
                assert(list[list.len() - 1] == last);
            }
        }
    }
}

/// With places given, every root to scan lies in one of them and is on its
/// machine.
pub proof fn law_roots_stem_from_the_given_places(
    context: ContextView,
    user: UserView,
    disk: DiskView,
    at: int,
)
    requires
        context.scan_roots.len() > 0,
        0 <= at < roots::roots_to_scan(context, user, disk).len(),
    ensures
        stems_from(roots::roots_to_scan(context, user, disk)[at], context.scan_roots),
{
    let all = roots::given_roots(context.scan_roots, disk);
    lemma_given_stem(context.scan_roots, disk);
    order::law_distinct_keeps_each_path_once::<ScanRoot>(all);
    assert(all.contains(order::distinct::<ScanRoot>(all)[at]));
    let k = choose|k: int| 0 <= k < all.len() && all[k] == order::distinct::<ScanRoot>(all)[at];
    assert(stems_from(all[k], context.scan_roots));
}

/// Every source changed since the time given.
pub proof fn law_sources_are_fresh(context: ContextView, user: UserView, disk: DiskView, at: int)
    requires
        0 <= at < roots::sources(context, user, disk).len(),
    ensures
        disk.fresh(roots::sources(context, user, disk)[at].source_path, context.since_ts),
{
    lemma_source_named(context, user, disk, at);
}

/// An explicit role decides whatever the type of the event.
pub proof fn law_explicit_roles_decide(event: Tree, one: Seq<char>, other: Seq<char>)
    requires
        event.text_at("role"@) is Some,
    ensures
        cli::event_message(event, one) == cli::event_message(event, other),
{
}

/// Whether each of some messages keeps the value that it stems from.
pub open spec fn all_keep(messages: Seq<MessageView>, values: Seq<Tree>) -> bool {
    forall|i: int| 0 <= i < messages.len() ==> values.contains((#[trigger] messages[i]).extra)
}

/// The messages among some events keep the events whole.
pub proof fn law_messages_keep_their_events(events: Seq<Tree>)
    ensures
        all_keep(cli::events_messages(events), events),
    decreases events.len(),
{
    if events.len() > 0 {
        let earlier = events.drop_last();
        let before = cli::events_messages(earlier);
        let out = cli::events_messages(events);
        law_messages_keep_their_events(earlier);
        assert(events[events.len() - 1] == events.last());
        assert forall|i: int| 0 <= i < out.len() implies events.contains(
            (#[trigger] out[i]).extra,
        ) by {
            if i < before.len() {
                assert(out[i] == before[i]);
                let k = choose|k: int| 0 <= k < earlier.len() && earlier[k] == before[i].extra;
                assert(events[k] == out[i].extra);
            } else {
                assert(out[i] == cli::event_messages(events.last())[i - before.len()]);
            }
        }
    }
}

/// The requests of a session and their responses.
pub open spec fn sides(requests: Seq<Tree>) -> Seq<Tree>
    decreases requests.len(),
{
    if requests.len() == 0 {
        Seq::empty()
    } else {
        let before = sides(requests.drop_last()).push(requests.last());
        match requests.last().field("response"@) {
            Some(response) => before.push(response),
            None => before,
        }
    }
}

/// The messages of a session keep the requests and responses whole.
pub proof fn law_messages_keep_their_requests(requests: Seq<Tree>)
    ensures
        all_keep(native::requests_messages(requests), sides(requests)),
    decreases requests.len(),
{
    if requests.len() > 0 {
        let earlier = requests.drop_last();
        let request = requests.last();
        let before = native::requests_messages(earlier);
        let out = native::requests_messages(requests);
        let held = sides(earlier);
        let all = sides(requests);
        law_messages_keep_their_requests(earlier);
        assert(all[held.len() as int] == request);
        assert forall|i: int| 0 <= i < out.len() implies all.contains((#[trigger] out[i]).extra) by {
            if i < before.len() {
                assert(out[i] == before[i]);
                let k = choose|k: int| 0 <= k < held.len() && held[k] == before[i].extra;
                assert(all[k] == out[i].extra);
            } else if i < before.len() + native::asked(request).len() {
                assert(out[i] == native::asked(request)[i - before.len()]);
                assert(out[i].extra == request);
            } else {
                assert(out[i] == native::answered(request)[i - before.len() - native::asked(
                    request,
                ).len()]);
                assert(all[all.len() - 1] == out[i].extra);
            }
        }
    }
}

} // verus!
