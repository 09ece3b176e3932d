//! What holds of the files of a scan and of the conversations that it keeps.
use crate::copilot::chat;
use crate::copilot::cli;
use crate::copilot::native;
use crate::copilot::roots;
use crate::copilot::sweep;
use crate::copilot::SessionError;
use crate::disk::DiskView;
use crate::document;
use crate::order;
use crate::paths;
use crate::scan::{
    ContextView, DiscoveredSourceFile, DiscoveredSourceRole, SourceView, UserView,
};
use crate::text;
use crate::types::ConversationView;
use vstd::prelude::*;

verus! {

/// A session file of VS Code is read as a session; of the other files in Copilot's
/// storage the logs of the CLI are read as such and the rest as exported documents;
/// and any other file has no conversations.
pub proof fn law_files_are_read_by_their_place(path: Seq<Seq<char>>, disk: DiskView)
    ensures
        roots::native_look(path) ==> sweep::file_conversations(path, disk) == native::native_file(
            path,
            disk,
        ),
        !roots::native_look(path) && !roots::copilot_look(path) ==> sweep::file_conversations(
            path,
            disk,
        ) == Ok::<Seq<ConversationView>, SessionError>(Seq::empty()),
        !roots::native_look(path) && roots::copilot_look(path) && cli::cli_look(
            path,
            text::lowered(paths::rendered(path)),
        ) ==> sweep::file_conversations(path, disk) == cli::cli_file(disk.text(path), path),
        !roots::native_look(path) && roots::copilot_look(path) && !cli::cli_look(
            path,
            text::lowered(paths::rendered(path)),
        ) ==> sweep::file_conversations(path, disk) == chat::exported_file(disk.text(path), path),
{
}

/// An exported file that cannot be read, or that is no JSON document, is told; any
/// other has the conversations of its document.
pub proof fn law_exported_files(said: Seq<char>, path: Seq<Seq<char>>)
    ensures
        chat::exported_file(None, path) == Err::<Seq<ConversationView>, SessionError>(
            SessionError::Unreadable,
        ),
        document::json_document(said) is None ==> chat::exported_file(Some(said), path) == Err::<
            Seq<ConversationView>,
            SessionError,
        >(SessionError::NotJson),
        document::json_document(said) matches Some(value) ==> chat::exported_file(Some(said), path)
            == Ok::<Seq<ConversationView>, SessionError>(chat::exported(value, path)),
{
}

/// A source is read by its role; one that cannot be read holds no conversations.
pub proof fn law_sources_are_read_by_their_role(
    source: SourceView,
    since: Option<i64>,
    disk: DiskView,
    list: Seq<ConversationView>,
    error: SessionError,
)
    ensures
        ({
            let outcome = match source.role {
                DiscoveredSourceRole::PrimarySessionLog => sweep::file_conversations(
                    source.source_path,
                    disk,
                ),
                DiscoveredSourceRole::SqliteDatabase => native::native_database(
                    source.source_path,
                    since,
                    disk,
                ),
            };
            &&& sweep::source_conversations(source, since, disk) == outcome
            &&& outcome == Ok::<Seq<ConversationView>, SessionError>(list) ==> sweep::held_by(
                source,
                since,
                disk,
            ) == list
            &&& outcome == Err::<Seq<ConversationView>, SessionError>(error) ==> sweep::held_by(
                source,
                since,
                disk,
            ).len() == 0
        }),
{
}

/// Sources are read one by one and in order.
pub proof fn law_sources_are_read_one_by_one(
    list: Seq<SourceView>,
    next: SourceView,
    since: Option<i64>,
    disk: DiskView,
)
    ensures
        sweep::in_sources(Seq::empty(), since, disk).len() == 0,
        sweep::in_sources(list.push(next), since, disk) == sweep::in_sources(list, since, disk)
            + sweep::held_by(next, since, disk),
{
    assert(list.push(next).drop_last() =~= list);
    assert(list.push(next).last() == next);
}

/// Conversations are kept one by one and in order, but for those of a session of
/// which there is an earlier one.
pub proof fn law_conversations_are_kept_one_by_one(
    list: Seq<ConversationView>,
    next: ConversationView,
)
    ensures
        sweep::each_session_once(Seq::empty()).len() == 0,
        sweep::each_session_once(list.push(next)) == sweep::each_session_once(list) + (
        if next.external_id is Some && exists|i: int|
            0 <= i < list.len() && (#[trigger] list[i]).external_id == next.external_id {
            Seq::empty()
        } else {
            seq![next]
        }),
{
    let before = sweep::each_session_once(list);
    assert(list.push(next).drop_last() =~= list);
    assert(list.push(next).last() == next);
    assert(before + Seq::<ConversationView>::empty() =~= before);
    assert(before.push(next) =~= before + seq![next]);
    if let Some(id) = next.external_id {
        assert(sweep::has_session(list, id) <==> exists|i: int|
            0 <= i < list.len() && (#[trigger] list[i]).external_id == next.external_id);
    }
}

/// A scan reads the sources of the roots, each path once and in the order of the
/// roots, as far as they were not changed too long ago, and keeps each session
/// once. What it discovers are the same sources in the order of their paths.
pub proof fn law_a_scan_reads_the_sources_of_its_roots(
    context: ContextView,
    user: UserView,
    disk: DiskView,
)
    ensures
        ({
            let all = roots::roots_sources(
                roots::roots_to_scan(context, user, disk),
                context.since_ts,
                disk,
            );
            &&& roots::sources(context, user, disk) == order::distinct::<DiscoveredSourceFile>(all)
            &&& sweep::scanned(context, user, disk) == sweep::each_session_once(
                sweep::in_sources(
                    order::once::<DiscoveredSourceFile>(all),
                    context.since_ts,
                    disk,
                ),
            )
        }),
{
}

} // verus!
