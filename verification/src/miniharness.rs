//! Connector for Miniharness JSONL session logs.
//!
//! Miniharness keeps one summon in one JSONL file. The default session root is
//! `~/.local/share/miniharness/sessions`; callers may override it with a session
//! directory of their own or provide explicit scan roots. A root may be either a
//! directory or one session JSONL file.
use crate::content;
use crate::disk::{Disk, DiskView};
use crate::document;
use crate::json;
use crate::json::{Json, Tree};
use crate::order;
use crate::paths;
use crate::paths::FilePath;
use crate::scan;
use crate::scan::{
    ContextView, DetectionResult, DiscoveredSourceFile, DiscoveredSourceRole, ReadError, RootView,
    ScanContext, ScanRoot, SourceView, UserDirs, UserView,
};
use crate::text;
use crate::timeline;
use crate::types;
use crate::types::{
    ConversationView, MessageView, NormalizedConversation, NormalizedMessage, TITLE_LIMIT,
};
use vstd::prelude::*;

pub mod laws;

verus! {

/// The connector.
#[derive(Clone, Copy, Debug)]
pub struct MiniharnessConnector;

impl Default for MiniharnessConnector {
    fn default() -> (connector: MiniharnessConnector)
        ensures
            connector == MiniharnessConnector,
    {
        MiniharnessConnector::new()
    }
}

/// The message of a record: its `message`, the one of its `entry`, or the record
/// itself where it has a role.
pub open spec fn message_in(record: Tree) -> Option<Tree> {
    if record.field("message"@) is Some {
        record.field("message"@)
    } else if json::field_in(record.field("entry"@), "message"@) is Some {
        json::field_in(record.field("entry"@), "message"@)
    } else if record.field("role"@) is Some {
        Some(record)
    } else {
        None
    }
}

/// The role of the message of a record, if it is the user's or the assistant's.
pub open spec fn role_in(record: Tree) -> Option<Seq<char>> {
    match message_in(record) {
        Some(message) => match message.text_at("role"@) {
            Some(role) => if role == "user"@ || role == "assistant"@ {
                Some(role)
            } else {
                None
            },
            None => None,
        },
        None => None,
    }
}

/// The message that a record is.
pub open spec fn record_message(record: Tree, role: Seq<char>) -> MessageView {
    let message = message_in(record)->Some_0;
    types::draft(
        role,
        None,
        timeline::known(
            content::stamp_at(record, "timestamp"@),
            content::stamp_at(message, "timestamp"@),
        ),
        content::flat_at(message, "content"@),
        record,
        Seq::empty(),
    )
}

/// The messages of some records. Each keeps the whole record.
pub open spec fn records_messages(records: Seq<Tree>) -> Seq<MessageView>
    decreases records.len(),
{
    if records.len() == 0 {
        Seq::empty()
    } else {
        let before = records_messages(records.drop_last());
        match role_in(records.last()) {
            Some(role) => before.push(record_message(records.last(), role)),
            None => before,
        }
    }
}

/// Whether a record is a header.
pub open spec fn is_header(record: Tree) -> bool {
    record.text_at("kind"@) == Some("header"@)
}

/// The last header among some records.
pub open spec fn last_header(records: Seq<Tree>) -> Option<Tree>
    decreases records.len(),
{
    if records.len() == 0 {
        None
    } else if is_header(records.last()) {
        Some(records.last())
    } else {
        last_header(records.drop_last())
    }
}

/// The session that a header names, without the white space around it, unless
/// it is empty.
pub open spec fn header_id(header: Option<Tree>) -> Option<Seq<char>> {
    match json::text_in(json::field_in(header, "id"@)) {
        Some(id) => if text::trimmed(id).len() == 0 {
            None
        } else {
            Some(text::trimmed(id))
        },
        None => None,
    }
}

/// The session that a file name tells: what follows the first underscore of its
/// stem, or the whole stem.
pub open spec fn file_id(path: Seq<Seq<char>>) -> Option<Seq<char>> {
    match paths::stem_of(path) {
        Some(stem) => Some(text::after_first(stem, '_')),
        None => None,
    }
}

/// Whether a message of a role is among some.
pub open spec fn has_role(messages: Seq<MessageView>, role: Seq<char>) -> bool {
    exists|i: int| 0 <= i < messages.len() && (#[trigger] messages[i]).role == role
}

/// The title of the first message of the user that is not blank.
pub open spec fn spoken_title(messages: Seq<MessageView>) -> Option<Seq<char>>
    decreases messages.len(),
{
    if messages.len() == 0 {
        None
    } else if messages[0].role == "user"@ && !text::is_blank(messages[0].content) {
        Some(text::cut(text::trimmed(messages[0].content), TITLE_LIMIT as nat))
    } else {
        spoken_title(messages.skip(1))
    }
}

/// The conversation that some records are, if the assistant speaks in it. It
/// starts when the header says or, where it does not, with its first message.
pub open spec fn records_conversation(records: Seq<Tree>, path: Seq<Seq<char>>) -> Option<
    ConversationView,
> {
    let messages = records_messages(records);
    let header = last_header(records);
    if !has_role(messages, "assistant"@) {
        None
    } else {
        let stamps = types::stamps_of(messages);
        let started = timeline::known(
            content::stamp_in(json::field_in(header, "createdAt"@)),
            timeline::earliest(stamps),
        );
        Some(
            ConversationView {
                agent_slug: "miniharness"@,
                external_id: text::text_or(header_id(header), file_id(path)),
                title: spoken_title(messages),
                workspace: json::text_in(json::field_in(header, "cwd"@)),
                source_path: path,
                started_at: started,
                ended_at: timeline::known(timeline::latest(stamps), started),
                metadata: Tree::Object(Map::empty()),
                messages: types::numbered(messages),
            },
        )
    }
}

/// The records of a log: the lines that are JSON documents.
pub open spec fn log_records(raw: Seq<char>) -> Seq<Tree> {
    document::read_ones(document::line_documents(text::nonblank(text::lines_of(raw))))
}

/// The session directory: the one given, unless it is blank, or the default one.
pub open spec fn sessions_place(given: Option<Seq<char>>, user: UserView) -> Option<
    Seq<Seq<char>>,
> {
    match given {
        Some(value) if text::trimmed(value).len() > 0 => Some(
            paths::path_parts(text::trimmed(value)),
        ),
        _ => match user.home {
            Some(home) => Some(paths::under(home, ".local/share/miniharness/sessions"@)),
            None => None,
        },
    }
}

/// Those of some files that are logs of lines.
pub open spec fn line_logs(files: Seq<Seq<Seq<char>>>) -> Seq<Seq<Seq<char>>>
    decreases files.len(),
{
    if files.len() == 0 {
        Seq::empty()
    } else {
        line_logs(files.drop_last()) + paths::only_if(paths::lines_look(files.last()), files.last())
    }
}

/// The session files of a root, each once and in order.
pub open spec fn root_files(root: Seq<Seq<char>>, disk: DiskView) -> Seq<Seq<Seq<char>>> {
    if disk.is_file(root) {
        paths::only_if(paths::lines_look(root), root)
    } else if !disk.is_dir(root) {
        Seq::empty()
    } else {
        order::distinct::<FilePath>(line_logs(disk.walked(root)))
    }
}

/// The roots to scan, each path once and in order. Without given places, the
/// data directory where it holds a session, else the session directory.
pub open spec fn roots_to_scan(
    context: ContextView,
    given: Option<Seq<char>>,
    user: UserView,
    disk: DiskView,
) -> Seq<RootView> {
    order::distinct::<ScanRoot>(
        if context.scan_roots.len() == 0 {
            if root_files(context.data_dir, disk).len() > 0 {
                seq![scan::local_root(context.data_dir)]
            } else {
                match sessions_place(given, user) {
                    Some(place) => seq![scan::local_root(place)],
                    None => Seq::empty(),
                }
            }
        } else {
            context.scan_roots
        },
    )
}

/// The sources of some roots, as far as they changed since a time.
pub open spec fn roots_sources(roots: Seq<RootView>, since: Option<i64>, disk: DiskView) -> Seq<
    SourceView,
>
    decreases roots.len(),
{
    if roots.len() == 0 {
        Seq::empty()
    } else {
        roots_sources(roots.drop_last(), since, disk) + scan::fresh_sources(
            "miniharness"@,
            roots.last(),
            root_files(roots.last().path, disk),
            DiscoveredSourceRole::PrimarySessionLog,
            since,
            disk,
        )
    }
}

/// The sources to scan, each path once and in order.
pub open spec fn sources(
    context: ContextView,
    given: Option<Seq<char>>,
    user: UserView,
    disk: DiskView,
) -> Seq<SourceView> {
    order::distinct::<DiscoveredSourceFile>(
        roots_sources(roots_to_scan(context, given, user, disk), context.since_ts, disk),
    )
}

/// The conversation of a file that can be read as text, if it has one.
pub open spec fn file_outcome(path: Seq<Seq<char>>, disk: DiskView) -> Result<
    Option<ConversationView>,
    ReadError,
> {
    match disk.text(path) {
        Some(raw) => Ok(records_conversation(log_records(raw), path)),
        None => Err(ReadError::Unreadable),
    }
}

/// The conversation of a file, if it can be read and has one.
pub open spec fn file_conversation(path: Seq<Seq<char>>, disk: DiskView) -> Option<
    ConversationView,
> {
    match file_outcome(path, disk) {
        Ok(found) => found,
        Err(_) => None,
    }
}

/// The conversations of some sources.
pub open spec fn in_sources(list: Seq<SourceView>, disk: DiskView) -> Seq<ConversationView>
    decreases list.len(),
{
    if list.len() == 0 {
        Seq::empty()
    } else {
        let before = in_sources(list.drop_last(), disk);
        match file_conversation(list.last().source_path, disk) {
            Some(conversation) => before.push(conversation),
            None => before,
        }
    }
}

/// What a scan finds.
pub open spec fn scanned(
    context: ContextView,
    given: Option<Seq<char>>,
    user: UserView,
    disk: DiskView,
) -> Seq<ConversationView> {
    in_sources(sources(context, given, user, disk), disk)
}

/// Whether a path has the extension of a session log.
pub fn is_jsonl(path: &FilePath) -> (yes: bool)
    ensures
        yes == paths::lines_look(path@),
{
    path.has_lines_extension()
}

/// The message of a record.
pub fn message_value(record: &Json) -> (message: Option<&Json>)
    ensures
        json::seen(message) == message_in(record@),
{
    if let Some(message) = record.get("message") {
        return Some(message);
    }
    if let Some(entry) = record.get("entry") {
        if let Some(message) = entry.get("message") {
            return Some(message);
        }
    }
    if record.get("role").is_some() {
        Some(record)
    } else {
        None
    }
}

/// The session that a file name tells.
pub fn file_session_id(path: &FilePath) -> (id: Option<String>)
    ensures
        text::held(id) == file_id(path@),
{
    match path.file_stem() {
        Some(stem) => Some(text::rest_after(stem.as_str(), '_')),
        None => None,
    }
}

/// A text cut to the length of a title.
pub fn truncate(said: &str) -> (out: String)
    ensures
        out@ == text::cut(said@, TITLE_LIMIT as nat),
{
    text::cut_to(said, TITLE_LIMIT)
}

/// The role of the message of a record, if it is the user's or the assistant's.
fn role_at(record: &Json) -> (role: Option<&str>)
    ensures
        text::seen(role) == role_in(record@),
{
    match message_value(record) {
        Some(message) => match message.str_at("role") {
            Some(role) => {
                if text::same_text(role, "user") || text::same_text(role, "assistant") {
                    Some(role)
                } else {
                    None
                }
            },
            None => None,
        },
        None => None,
    }
}

/// Whether a message of a role is among some.
fn speaks(messages: &Vec<NormalizedMessage>, role: &str) -> (yes: bool)
    ensures
        yes == has_role(types::messages_of(messages@), role@),
{
    let ghost all = types::messages_of(messages@);
    let mut i: usize = 0;
    while i < messages.len()
        invariant
            i <= messages.len(),
            all == types::messages_of(messages@),
            forall|j: int| 0 <= j < i ==> (#[trigger] all[j]).role != role@,
        decreases messages.len() - i,
    {
        assert(all[i as int] == messages[i as int]@);
        if text::same_text(messages[i].role.as_str(), role) {
            assert(all[i as int].role == role@);
            return true;
        }
        i += 1;
    }
    false
}

/// The title of the first message of the user that is not blank.
fn title_spoken(messages: &Vec<NormalizedMessage>) -> (title: Option<String>)
    ensures
        text::held(title) == spoken_title(types::messages_of(messages@)),
{
    let ghost all = types::messages_of(messages@);
    let mut i: usize = 0;
    assert(all.skip(0) =~= all);
    while i < messages.len()
        invariant
            i <= messages.len(),
            all == types::messages_of(messages@),
            spoken_title(all) == spoken_title(all.skip(i as int)),
        decreases messages.len() - i,
    {
        assert(all.skip(i as int)[0] == messages[i as int]@);
        assert(all.skip(i as int).skip(1) =~= all.skip(i + 1));
        let said = messages[i].content.as_str();
        if text::same_text(messages[i].role.as_str(), "user") && !text::blank(said) {
            let short = text::trim(said);
            return Some(truncate(short.as_str()));
        }
        i += 1;
    }
    None
}

/// Numbering changes no role, no time and no title.
proof fn lemma_numbered(drafts: Seq<MessageView>)
    ensures
        has_role(types::numbered(drafts), "assistant"@) == has_role(drafts, "assistant"@),
        spoken_title(types::numbered(drafts)) == spoken_title(drafts),
{
    let all = types::numbered(drafts);
    if has_role(all, "assistant"@) {
        let i = choose|i: int| 0 <= i < all.len() && (#[trigger] all[i]).role == "assistant"@;
        assert(drafts[i].role == "assistant"@);
    }
    if has_role(drafts, "assistant"@) {
        let i = choose|i: int| 0 <= i < drafts.len() && (#[trigger] drafts[i]).role == "assistant"@;
        assert(all[i].role == "assistant"@);
    }
    lemma_same_title(all, drafts);
}

proof fn lemma_same_title(a: Seq<MessageView>, b: Seq<MessageView>)
    requires
        a.len() == b.len(),
        forall|i: int|
            0 <= i < a.len() ==> (#[trigger] a[i]).role == b[i].role && a[i].content == b[i].content,
    ensures
        spoken_title(a) == spoken_title(b),
    decreases a.len(),
{
    if a.len() > 0 {
        assert(a[0].role == b[0].role);
        assert forall|i: int| 0 <= i < a.skip(1).len() implies (#[trigger] a.skip(1)[i]).role
            == b.skip(1)[i].role && a.skip(1)[i].content == b.skip(1)[i].content by {
            assert(a[i + 1].role == b[i + 1].role);
        }
        lemma_same_title(a.skip(1), b.skip(1));
    }
}

/// The conversation that some records are.
pub fn parse_records(records: &Vec<Json>, source_path: &FilePath) -> (found: Option<
    NormalizedConversation,
>)
    ensures
        types::held_conversation(found) == records_conversation(
            json::trees_of(records@),
            source_path@,
        ),
{
    broadcast use json::group_trees, types::lemma_numbered_push;

    let ghost trees = json::trees_of(records@);
    let mut header: Option<usize> = None;
    let mut started_at: Option<i64> = None;
    let mut ended_at: Option<i64> = None;
    let mut messages: Vec<NormalizedMessage> = Vec::new();
    let mut i: usize = 0;
    assert(types::messages_of(messages@) =~= types::numbered(records_messages(trees.take(0))));
    assert(types::stamps_of(records_messages(trees.take(0))) =~= Seq::empty());
    while i < records.len()
        invariant
            i <= records.len(),
            trees == json::trees_of(records@),
            match header {
                Some(at) => at < records.len() && last_header(trees.take(i as int)) == Some(
                    records[at as int]@,
                ),
                None => last_header(trees.take(i as int)) is None,
            },
            types::messages_of(messages@) == types::numbered(
                records_messages(trees.take(i as int)),
            ),
            started_at == timeline::earliest(
                types::stamps_of(records_messages(trees.take(i as int))),
            ),
            ended_at == timeline::latest(types::stamps_of(records_messages(trees.take(i as int)))),
        decreases records.len() - i,
    {
        let record = &records[i];
        let ghost drafts = records_messages(trees.take(i as int));
        assert(trees.take(i + 1).drop_last() =~= trees.take(i as int));
        assert(trees.take(i + 1).last() == record@);
        if content::is_text(record.get("kind"), "header") {
            header = Some(i);
        }
        if let Some(role) = role_at(record) {
            if let Some(message) = message_value(record) {
                let at = timeline::known_timestamp(
                    content::timestamp_in(record.get("timestamp")),
                    content::timestamp_in(message.get("timestamp")),
                );
                let said = match message.get("content") {
                    Some(inner) => content::flatten_content(inner),
                    None => String::new(),
                };
                proof {
                    let next = record_message(record@, role@);
                    timeline::lemma_bounds_push(types::stamps_of(drafts), at);
                    assert(types::stamps_of(drafts.push(next)) =~= types::stamps_of(drafts).push(
                        at,
                    ));
                }
                started_at = timeline::min_timestamp(started_at, at);
                ended_at = timeline::max_timestamp(ended_at, at);
                let none = Vec::new();
                assert(types::invocations_of(none@) =~= Seq::empty());
                types::add_message(&mut messages, role, None, at, said, record.copy(), none);
            }
        }
        i += 1;
    }
    assert(trees.take(i as int) =~= trees);
    proof {
        lemma_numbered(records_messages(trees));
    }
    if !speaks(&messages, "assistant") {
        return None;
    }
    let (id, created, workspace) = match header {
        Some(at) => {
            let record = &records[at];
            let id = match content::string_in(record.get("id")) {
                Some(id) => {
                    let short = text::trim(id.as_str());
                    if short.as_str().is_empty() {
                        None
                    } else {
                        Some(short)
                    }
                },
                None => None,
            };
            (
                id,
                content::timestamp_in(record.get("createdAt")),
                content::string_in(record.get("cwd")),
            )
        },
        None => (None, None, None),
    };
    let external_id = match id {
        Some(id) => Some(id),
        None => file_session_id(source_path),
    };
    let started = timeline::known_timestamp(created, started_at);
    let ended = timeline::known_timestamp(ended_at, started);
    let empty = Vec::new();
    assert(json::fields_of(empty@) =~= Map::empty());
    Some(
        NormalizedConversation {
            agent_slug: "miniharness".to_owned(),
            external_id,
            title: title_spoken(&messages),
            workspace,
            source_path: source_path.copy(),
            started_at: started,
            ended_at: ended,
            metadata: Json::Object(empty),
            messages,
        },
    )
}

/// The conversation of a log.
pub fn parse_jsonl(raw: &str, source_path: &FilePath) -> (found: Option<NormalizedConversation>)
    ensures
        types::held_conversation(found) == records_conversation(log_records(raw@), source_path@),
{
    let all = text::lines(raw);
    let lines = text::nonblank_lines(&all);
    let records = document::parse_lines(&lines);
    parse_records(&records, source_path)
}

impl MiniharnessConnector {
    /// The connector.
    #[must_use]
    pub fn new() -> (connector: MiniharnessConnector)
        ensures
            connector == MiniharnessConnector,
    {
        MiniharnessConnector
    }

    /// The session directory: the one given, unless it is blank, or the default
    /// one.
    pub fn sessions_root(given: Option<&str>, user: &UserDirs) -> (place: Option<FilePath>)
        ensures
            paths::held(place) == sessions_place(text::seen(given), user@),
    {
        if let Some(value) = given {
            let short = text::trim(value);
            if !short.as_str().is_empty() {
                return Some(FilePath::parse(short.as_str()));
            }
        }
        match &user.home {
            Some(home) => Some(home.join(".local/share/miniharness/sessions")),
            None => None,
        }
    }

    /// The session files of a root, each once and in order.
    pub fn session_files(root: &FilePath, disk: &Disk) -> (files: Vec<FilePath>)
        ensures
            paths::views(files@) == root_files(root@, disk@),
    {
        let mut out: Vec<FilePath> = Vec::new();
        assert(paths::views(out@) =~= Seq::empty());
        if disk.is_file(root) {
            paths::push_if(&mut out, is_jsonl(root), root);
            assert(paths::views(out@) =~= paths::only_if(paths::lines_look(root@), root@));
            return out;
        }
        if !disk.is_dir(root) {
            return out;
        }
        let list = disk.walked(root);
        let ghost all = paths::views(list@);
        let mut i: usize = 0;
        assert(paths::views(out@) =~= line_logs(all.take(0)));
        while i < list.len()
            invariant
                i <= list.len(),
                all == paths::views(list@),
                paths::views(out@) == line_logs(all.take(i as int)),
            decreases list.len() - i,
        {
            assert(all.take(i + 1).drop_last() =~= all.take(i as int));
            assert(all.take(i + 1).last() == list[i as int]@);
            paths::push_if(&mut out, is_jsonl(&list[i]), &list[i]);
            i += 1;
        }
        assert(all.take(i as int) =~= all);
        order::in_order_once(out)
    }

    /// The roots to scan, each path once and in order.
    pub fn source_roots(
        context: &ScanContext,
        given: Option<&str>,
        user: &UserDirs,
        disk: &Disk,
    ) -> (roots: Vec<ScanRoot>)
        ensures
            order::seen::<ScanRoot>(roots@) == roots_to_scan(
                context@,
                text::seen(given),
                user@,
                disk@,
            ),
    {
        let mut roots: Vec<ScanRoot> = Vec::new();
        assert(order::seen::<ScanRoot>(roots@) =~= Seq::empty());
        if context.use_default_detection() {
            let files = Self::session_files(&context.data_dir, disk);
            assert(paths::views(files@).len() == files.len());
            if files.len() > 0 {
                roots.push(ScanRoot::local(context.data_dir.copy()));
                assert(order::seen::<ScanRoot>(roots@) =~= seq![
                    scan::local_root(context.data_dir@),
                ]);
            } else if let Some(place) = Self::sessions_root(given, user) {
                roots.push(ScanRoot::local(place));
                assert(order::seen::<ScanRoot>(roots@) =~= seq![scan::local_root(place@)]);
            }
        } else {
            roots = scan::copy_roots(&context.scan_roots);
        }
        order::in_order_once(roots)
    }

    /// The sources to scan, each path once and in order.
    pub fn discover_sources(
        context: &ScanContext,
        given: Option<&str>,
        user: &UserDirs,
        disk: &Disk,
    ) -> (found: Vec<DiscoveredSourceFile>)
        ensures
            order::seen::<DiscoveredSourceFile>(found@) == sources(
                context@,
                text::seen(given),
                user@,
                disk@,
            ),
    {
        let roots = Self::source_roots(context, given, user, disk);
        let ghost all = order::seen::<ScanRoot>(roots@);
        let mut out: Vec<DiscoveredSourceFile> = Vec::new();
        let mut i: usize = 0;
        assert(order::seen::<DiscoveredSourceFile>(out@) =~= Seq::empty());
        while i < roots.len()
            invariant
                i <= roots.len(),
                all == order::seen::<ScanRoot>(roots@),
                order::seen::<DiscoveredSourceFile>(out@) == roots_sources(
                    all.take(i as int),
                    context@.since_ts,
                    disk@,
                ),
            decreases roots.len() - i,
        {
            let root = &roots[i];
            assert(all.take(i + 1).drop_last() =~= all.take(i as int));
            assert(all.take(i + 1).last() == root@);
            let files = Self::session_files(&root.path, disk);
            scan::add_fresh_sources(
                &mut out,
                "miniharness",
                root,
                &files,
                DiscoveredSourceRole::PrimarySessionLog,
                context.since_ts,
                disk,
            );
            i += 1;
        }
        assert(all.take(i as int) =~= all);
        order::in_order_once(out)
    }

    /// The conversation of a file that can be read as text, if it has one.
    pub fn parse_file(path: &FilePath, disk: &Disk) -> (outcome: Result<
        Option<NormalizedConversation>,
        ReadError,
    >)
        ensures
            types::held_outcome(outcome) == file_outcome(path@, disk@),
    {
        match disk.text(path) {
            Some(raw) => Ok(parse_jsonl(raw.as_str(), path)),
            None => Err(ReadError::Unreadable),
        }
    }

    /// The conversation of every source. A file that cannot be read is passed
    /// over.
    pub fn scan(&self, context: &ScanContext, given: Option<&str>, user: &UserDirs, disk: &Disk) -> (
    found: Vec<NormalizedConversation>)
        ensures
            types::conversations_of(found@) == scanned(context@, text::seen(given), user@, disk@),
    {
        broadcast use types::lemma_conversations_push;

        let list = Self::discover_sources(context, given, user, disk);
        let ghost all = order::seen::<DiscoveredSourceFile>(list@);
        let mut out: Vec<NormalizedConversation> = Vec::new();
        let mut i: usize = 0;
        assert(types::conversations_of(out@) =~= Seq::empty());
        while i < list.len()
            invariant
                i <= list.len(),
                all == order::seen::<DiscoveredSourceFile>(list@),
                types::conversations_of(out@) == in_sources(all.take(i as int), disk@),
            decreases list.len() - i,
        {
            assert(all.take(i + 1).drop_last() =~= all.take(i as int));
            assert(all.take(i + 1).last() == list[i as int]@);
            if let Ok(Some(conversation)) = Self::parse_file(&list[i].source_path, disk) {
                out.push(conversation);
            }
            i += 1;
        }
        assert(all.take(i as int) =~= all);
        out
    }

    /// The files that a scan reads.
    pub fn discover_source_files(
        &self,
        context: &ScanContext,
        given: Option<&str>,
        user: &UserDirs,
        disk: &Disk,
    ) -> (found: Vec<DiscoveredSourceFile>)
        ensures
            order::seen::<DiscoveredSourceFile>(found@) == sources(
                context@,
                text::seen(given),
                user@,
                disk@,
            ),
    {
        Self::discover_sources(context, given, user, disk)
    }

    /// Whether Miniharness is installed, by its session directory.
    pub fn detect(&self, given: Option<&str>, user: &UserDirs, disk: &Disk) -> (result:
        DetectionResult)
        ensures
            result@ == scan::detection(
                scan::probe_at(sessions_place(text::seen(given), user@)),
                disk@,
            ),
    {
        scan::detect_one(Self::sessions_root(given, user), disk)
    }
}

} // verus!
