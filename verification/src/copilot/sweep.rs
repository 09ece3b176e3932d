//! A scan: every conversation of every source, each file and each session once.
use crate::copilot;
use crate::copilot::chat;
use crate::copilot::cli;
use crate::copilot::native;
use crate::copilot::roots;
use crate::copilot::{CopilotConnector, SessionError};
use crate::disk::{Disk, DiskView};
use crate::order;
use crate::paths;
use crate::paths::FilePath;
use crate::scan;
use crate::scan::{
    ContextView, DetectionResult, DiscoveredSourceFile, DiscoveredSourceRole, ScanContext,
    SourceView, UserDirs, UserView,
};
use crate::text;
use crate::types;
use crate::types::{ConversationView, NormalizedConversation};
use vstd::prelude::*;

verus! {

/// The conversations of a file. A file that is neither a session of VS Code nor
/// in Copilot's storage has none: a shared root holds the files of other
/// extensions too.
pub open spec fn file_conversations(path: Seq<Seq<char>>, disk: DiskView) -> Result<
    Seq<ConversationView>,
    SessionError,
> {
    if roots::native_look(path) {
        native::native_file(path, disk)
    } else if !roots::copilot_look(path) {
        Ok(Seq::empty())
    } else if cli::cli_look(path, text::lowered(paths::rendered(path))) {
        cli::cli_file(disk.text(path), path)
    } else {
        chat::exported_file(disk.text(path), path)
    }
}

/// The conversations of an outcome, of which an error has none.
pub open spec fn found_in(outcome: Result<Seq<ConversationView>, SessionError>) -> Seq<
    ConversationView,
> {
    match outcome {
        Ok(list) => list,
        Err(_) => Seq::empty(),
    }
}

/// The conversations of a source, by its role.
pub open spec fn source_conversations(
    source: SourceView,
    since: Option<i64>,
    disk: DiskView,
) -> Result<Seq<ConversationView>, SessionError> {
    match source.role {
        DiscoveredSourceRole::PrimarySessionLog => file_conversations(source.source_path, disk),
        DiscoveredSourceRole::SqliteDatabase => native::native_database(
            source.source_path,
            since,
            disk,
        ),
    }
}

/// The conversations that a source holds.
pub open spec fn held_by(source: SourceView, since: Option<i64>, disk: DiskView) -> Seq<
    ConversationView,
> {
    found_in(source_conversations(source, since, disk))
}

/// The conversations that some sources hold, one source after another.
pub open spec fn in_sources(list: Seq<SourceView>, since: Option<i64>, disk: DiskView) -> Seq<
    ConversationView,
>
    decreases list.len(),
{
    if list.len() == 0 {
        Seq::empty()
    } else {
        in_sources(list.drop_last(), since, disk) + held_by(list.last(), since, disk)
    }
}

/// The sources that a scan reads, in the order in which it reads them: of each
/// root its files, then its databases, as far as no earlier root gave them.
pub open spec fn sources_to_read(context: ContextView, user: UserView, disk: DiskView) -> Seq<
    SourceView,
> {
    order::once::<DiscoveredSourceFile>(roots::sources_by_root(context, user, disk))
}

/// Whether a session of a name is among some conversations.
pub open spec fn has_session(list: Seq<ConversationView>, id: Seq<char>) -> bool {
    exists|i: int| 0 <= i < list.len() && (#[trigger] list[i]).external_id == Some(id)
}

/// Of the conversations of one session the first; those of no known session
/// are all kept.
pub open spec fn each_session_once(list: Seq<ConversationView>) -> Seq<ConversationView>
    decreases list.len(),
{
    if list.len() == 0 {
        Seq::empty()
    } else {
        let earlier = list.drop_last();
        let before = each_session_once(earlier);
        match list.last().external_id {
            Some(id) => if has_session(earlier, id) {
                before
            } else {
                before.push(list.last())
            },
            None => before.push(list.last()),
        }
    }
}

/// What a scan finds.
pub open spec fn scanned(context: ContextView, user: UserView, disk: DiskView) -> Seq<
    ConversationView,
> {
    each_session_once(
        in_sources(sources_to_read(context, user, disk), context.since_ts, disk),
    )
}

/// Adds the conversations of an outcome.
fn add_outcome(
    out: &mut Vec<NormalizedConversation>,
    outcome: Result<Vec<NormalizedConversation>, SessionError>,
)
    ensures
        types::conversations_of(final(out)@) == types::conversations_of(old(out)@) + found_in(
            copilot::seen_outcome(outcome),
        ),
{
    let ghost before = out@;
    match outcome {
        Ok(list) => {
            let mut more = list;
            out.append(&mut more);
            assert(types::conversations_of(out@) =~= types::conversations_of(before)
                + types::conversations_of(list@));
        },
        Err(_) => {
            assert(types::conversations_of(out@) =~= types::conversations_of(before)
                + Seq::empty());
        },
    }
}

/// One more conversation is one more session.
proof fn lemma_sessions_one_more(list: Seq<ConversationView>, next: ConversationView)
    ensures
        forall|id: Seq<char>| #[trigger]
            has_session(list.push(next), id) <==> has_session(list, id) || next.external_id == Some(
                id,
            ),
{
    let all = list.push(next);
    assert forall|id: Seq<char>| #[trigger] has_session(all, id) <==> has_session(list, id)
        || next.external_id == Some(id) by {
        if has_session(list, id) {
            let i = choose|i: int|
                0 <= i < list.len() && (#[trigger] list[i]).external_id == Some(id);
            assert(all[i].external_id == Some(id));
        }
        if next.external_id == Some(id) {
            assert(all[list.len() as int].external_id == Some(id));
        }
        if has_session(all, id) {
            let i = choose|i: int| 0 <= i < all.len() && (#[trigger] all[i]).external_id == Some(id);
            if i < list.len() {
                assert(list[i].external_id == Some(id));
            }
        }
    }
}

/// Of the conversations of one session the first; those of no known session
/// are all kept.
fn keep_first(list: Vec<NormalizedConversation>) -> (out: Vec<NormalizedConversation>)
    ensures
        types::conversations_of(out@) == each_session_once(types::conversations_of(list@)),
{
    broadcast use types::lemma_conversations_push;

    let ghost all = types::conversations_of(list@);
    let mut out: Vec<NormalizedConversation> = Vec::new();
    let mut seen: Vec<String> = Vec::new();
    assert(types::conversations_of(out@) =~= Seq::empty());
    for conversation in it: list
        invariant
            it.seq() == list@,
            all == types::conversations_of(list@),
            types::conversations_of(out@) == each_session_once(all.take(it.index() as int)),
            forall|id: Seq<char>| #[trigger]
                text::texts(seen@).contains(id) <==> has_session(all.take(it.index() as int), id),
    {
        let ghost earlier = all.take(it.index() as int);
        let ghost longer = all.take(it.index() + 1);
        let ghost before = seen@;
        proof {
            assert(longer.drop_last() =~= earlier);
            assert(longer.last() == conversation@);
            assert(longer =~= earlier.push(conversation@));
            lemma_sessions_one_more(earlier, conversation@);
        }
        let id = match &conversation.external_id {
            Some(id) => Some(id.clone()),
            None => None,
        };
        match id {
            Some(id) => {
                if !text::is_among(&seen, id.as_str()) {
                    seen.push(id);
                    proof {
                        text::lemma_texts_push(before, id);
                        text::lemma_contains_push(text::texts(before), id@);
                    }
                    out.push(conversation);
                }
            },
            None => {
                out.push(conversation);
            },
        }
    }
    assert(all.take(all.len() as int) =~= all);
    out
}

impl CopilotConnector {
    /// The conversations of a file, by the parser that its path calls for.
    pub fn parse_source(path: &FilePath, disk: &Disk) -> (outcome: Result<
        Vec<NormalizedConversation>,
        SessionError,
    >)
        ensures
            copilot::seen_outcome(outcome) == file_conversations(path@, disk@),
    {
        if Self::native_session_file(path) {
            Self::parse_native_session_file(path, disk)
        } else if !Self::looks_like_copilot_storage(path) {
            let none: Vec<NormalizedConversation> = Vec::new();
            assert(types::conversations_of(none@) =~= Seq::empty());
            Ok(none)
        } else if Self::is_cli_event_log(path) {
            Self::parse_cli_event_log(path, disk)
        } else {
            Self::parse_conversation_file(path, disk)
        }
    }

    /// The conversations of a source, by its role.
    pub fn parse_discovered(source: &DiscoveredSourceFile, since: Option<i64>, disk: &Disk) -> (
    outcome: Result<Vec<NormalizedConversation>, SessionError>)
        ensures
            copilot::seen_outcome(outcome) == source_conversations(source@, since, disk@),
    {
        match source.role {
            DiscoveredSourceRole::PrimarySessionLog => Self::parse_source(
                &source.source_path,
                disk,
            ),
            DiscoveredSourceRole::SqliteDatabase => Self::parse_interactive_sessions_db(
                &source.source_path,
                since,
                disk,
            ),
        }
    }

    /// Every conversation of every source, each file and each session once. A
    /// file that cannot be parsed is passed over.
    pub fn scan(&self, context: &ScanContext, user: &UserDirs, disk: &Disk) -> (found: Vec<
        NormalizedConversation,
    >)
        ensures
            types::conversations_of(found@) == scanned(context@, user@, disk@),
    {
        let list = order::keep_once(Self::gather_sources(context, user, disk));
        let ghost all = order::seen::<DiscoveredSourceFile>(list@);
        let mut out: Vec<NormalizedConversation> = Vec::new();
        let mut i: usize = 0;
        assert(types::conversations_of(out@) =~= Seq::empty());
        while i < list.len()
            invariant
                i <= list.len(),
                all == order::seen::<DiscoveredSourceFile>(list@),
                types::conversations_of(out@) == in_sources(
                    all.take(i as int),
                    context@.since_ts,
                    disk@,
                ),
            decreases list.len() - i,
        {
            assert(all.take(i + 1).drop_last() =~= all.take(i as int));
            assert(all.take(i + 1).last() == list[i as int]@);
            add_outcome(&mut out, Self::parse_discovered(&list[i], context.since_ts, disk));
            i += 1;
        }
        assert(all.take(i as int) =~= all);
        keep_first(out)
    }

    /// The files that a scan reads.
    pub fn discover_source_files(&self, context: &ScanContext, user: &UserDirs, disk: &Disk) -> (
    found: Vec<DiscoveredSourceFile>)
        ensures
            order::seen::<DiscoveredSourceFile>(found@) == roots::sources(context@, user@, disk@),
    {
        Self::discover_sources(context, user, disk)
    }

    /// Whether Copilot is installed, by its default places.
    pub fn detect(&self, user: &UserDirs, disk: &Disk) -> (result: DetectionResult)
        ensures
            result@ == scan::detection(roots::all_candidates(user@), disk@),
    {
        let probes = Self::all_candidate_paths(user);
        scan::detect_at(&probes, disk)
    }
}

} // verus!
