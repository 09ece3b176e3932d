//! What every connector hands out: conversations, messages and tool calls.
use crate::json::{Json, Tree};
use crate::paths::FilePath;
use crate::scan::ReadError;
use crate::text;
use vstd::prelude::*;

verus! {

/// The longest title, in characters.
pub const TITLE_LIMIT: usize = 120;

/// One tool call of a message.
#[derive(Debug)]
pub struct NormalizedInvocation {
    pub kind: String,
    pub name: String,
    pub raw_name: Option<String>,
    pub call_id: Option<String>,
    pub arguments: Option<Json>,
}

/// The model of a tool call.
pub struct InvocationView {
    pub kind: Seq<char>,
    pub name: Seq<char>,
    pub raw_name: Option<Seq<char>>,
    pub call_id: Option<Seq<char>>,
    pub arguments: Option<Tree>,
}

/// The model of a JSON value that may be absent.
pub open spec fn held_tree(value: Option<Json>) -> Option<Tree> {
    match value {
        Some(json) => Some(json@),
        None => None,
    }
}

impl View for NormalizedInvocation {
    type V = InvocationView;

    open spec fn view(&self) -> InvocationView {
        InvocationView {
            kind: self.kind@,
            name: self.name@,
            raw_name: text::held(self.raw_name),
            call_id: text::held(self.call_id),
            arguments: held_tree(self.arguments),
        }
    }
}

/// The models of some tool calls.
pub open spec fn invocations_of(list: Seq<NormalizedInvocation>) -> Seq<InvocationView> {
    list.map_values(|call: NormalizedInvocation| call@)
}

/// A piece of code quoted in a message.
#[derive(Debug)]
pub struct NormalizedSnippet {
    pub text: String,
}

impl View for NormalizedSnippet {
    type V = Seq<char>;

    open spec fn view(&self) -> Seq<char> {
        self.text@
    }
}

/// The texts of some pieces of code.
pub open spec fn snippets_of(list: Seq<NormalizedSnippet>) -> Seq<Seq<char>> {
    list.map_values(|snippet: NormalizedSnippet| snippet@)
}

/// One message of a conversation. `extra` is the source record.
#[derive(Debug)]
pub struct NormalizedMessage {
    pub idx: i64,
    pub role: String,
    pub author: Option<String>,
    pub created_at: Option<i64>,
    pub content: String,
    pub extra: Json,
    pub invocations: Vec<NormalizedInvocation>,
    pub snippets: Vec<NormalizedSnippet>,
}

/// The model of a message.
pub struct MessageView {
    pub idx: int,
    pub role: Seq<char>,
    pub author: Option<Seq<char>>,
    pub created_at: Option<i64>,
    pub content: Seq<char>,
    pub extra: Tree,
    pub invocations: Seq<InvocationView>,
    pub snippets: Seq<Seq<char>>,
}

impl View for NormalizedMessage {
    type V = MessageView;

    open spec fn view(&self) -> MessageView {
        MessageView {
            idx: self.idx as int,
            role: self.role@,
            author: text::held(self.author),
            created_at: self.created_at,
            content: self.content@,
            extra: self.extra@,
            invocations: invocations_of(self.invocations@),
            snippets: snippets_of(self.snippets@),
        }
    }
}

/// The models of some messages.
pub open spec fn messages_of(list: Seq<NormalizedMessage>) -> Seq<MessageView> {
    list.map_values(|message: NormalizedMessage| message@)
}

/// A conversation as one connector found it in one source.
#[derive(Debug)]
pub struct NormalizedConversation {
    pub agent_slug: String,
    pub external_id: Option<String>,
    pub title: Option<String>,
    pub workspace: Option<String>,
    pub source_path: FilePath,
    pub started_at: Option<i64>,
    pub ended_at: Option<i64>,
    pub metadata: Json,
    pub messages: Vec<NormalizedMessage>,
}

/// The model of a conversation.
pub struct ConversationView {
    pub agent_slug: Seq<char>,
    pub external_id: Option<Seq<char>>,
    pub title: Option<Seq<char>>,
    pub workspace: Option<Seq<char>>,
    pub source_path: Seq<Seq<char>>,
    pub started_at: Option<i64>,
    pub ended_at: Option<i64>,
    pub metadata: Tree,
    pub messages: Seq<MessageView>,
}

impl View for NormalizedConversation {
    type V = ConversationView;

    open spec fn view(&self) -> ConversationView {
        ConversationView {
            agent_slug: self.agent_slug@,
            external_id: text::held(self.external_id),
            title: text::held(self.title),
            workspace: text::held(self.workspace),
            source_path: self.source_path@,
            started_at: self.started_at,
            ended_at: self.ended_at,
            metadata: self.metadata@,
            messages: messages_of(self.messages@),
        }
    }
}

/// The models of some conversations.
pub open spec fn conversations_of(list: Seq<NormalizedConversation>) -> Seq<ConversationView> {
    list.map_values(|conversation: NormalizedConversation| conversation@)
}

/// One more conversation is one more model.
pub broadcast proof fn lemma_conversations_push(
    list: Seq<NormalizedConversation>,
    next: NormalizedConversation,
)
    ensures
        #[trigger] conversations_of(list.push(next)) == conversations_of(list).push(next@),
{
    assert(conversations_of(list.push(next)) =~= conversations_of(list).push(next@));
}

/// The model of a conversation that may be absent.
pub open spec fn held_conversation(found: Option<NormalizedConversation>) -> Option<
    ConversationView,
> {
    match found {
        Some(conversation) => Some(conversation@),
        None => None,
    }
}

/// A conversation that may be absent, as a list.
pub open spec fn listed(found: Option<ConversationView>) -> Seq<ConversationView> {
    match found {
        Some(conversation) => seq![conversation],
        None => Seq::empty(),
    }
}

/// What the outcome of reading a file says.
pub open spec fn held_outcome(outcome: Result<Option<NormalizedConversation>, ReadError>) -> Result<
    Option<ConversationView>,
    ReadError,
> {
    match outcome {
        Ok(found) => Ok(held_conversation(found)),
        Err(error) => Err(error),
    }
}

/// The number that a message at a place carries.
pub open spec fn number(place: int) -> int {
    if place <= i64::MAX {
        place
    } else {
        i64::MAX as int
    }
}

/// Messages with each its place as its number.
pub open spec fn numbered(drafts: Seq<MessageView>) -> Seq<MessageView> {
    Seq::new(drafts.len(), |i: int| MessageView { idx: number(i), ..drafts[i] })
}

/// A message without quoted code and not yet numbered.
pub open spec fn draft(
    role: Seq<char>,
    author: Option<Seq<char>>,
    created_at: Option<i64>,
    content: Seq<char>,
    extra: Tree,
    invocations: Seq<InvocationView>,
) -> MessageView {
    MessageView {
        idx: 0,
        role,
        author,
        created_at,
        content,
        extra,
        invocations,
        snippets: Seq::empty(),
    }
}

/// The number that a message at a place carries.
pub fn place_number(place: usize) -> (idx: i64)
    ensures
        idx == number(place as int),
{
    if place as u64 <= i64::MAX as u64 {
        place as i64
    } else {
        i64::MAX
    }
}

/// Some messages with one more, which carries its place.
pub open spec fn appended(messages: Seq<MessageView>, next: MessageView) -> Seq<MessageView> {
    messages.push(MessageView { idx: number(messages.len() as int), ..next })
}

/// One more message gets the next number.
pub broadcast proof fn lemma_numbered_push(drafts: Seq<MessageView>, next: MessageView)
    ensures
        #[trigger] numbered(drafts.push(next)) == appended(numbered(drafts), next),
{
    assert(numbered(drafts.push(next)) =~= appended(numbered(drafts), next));
}

/// Puts a message at the end of a conversation's messages.
pub fn add_message(
    messages: &mut Vec<NormalizedMessage>,
    role: &str,
    author: Option<&str>,
    created_at: Option<i64>,
    content: String,
    extra: Json,
    invocations: Vec<NormalizedInvocation>,
)
    ensures
        messages_of(final(messages)@) == appended(
            messages_of(old(messages)@),
            draft(
                role@,
                text::seen(author),
                created_at,
                content@,
                extra@,
                invocations_of(invocations@),
            ),
        ),
{
    let ghost before = messages@;
    let author_text = match author {
        Some(name) => Some(name.to_owned()),
        None => None,
    };
    let message = NormalizedMessage {
        idx: place_number(messages.len()),
        role: role.to_owned(),
        author: author_text,
        created_at,
        content,
        extra,
        invocations,
        snippets: Vec::new(),
    };
    assert(snippets_of(message.snippets@) =~= Seq::empty());
    messages.push(message);
    assert(messages_of(messages@) =~= messages_of(before).push(message@));
}

/// The content of the first message of a role.
pub open spec fn first_content(messages: Seq<MessageView>, role: Seq<char>) -> Option<Seq<char>>
    decreases messages.len(),
{
    if messages.len() == 0 {
        None
    } else if messages[0].role == role {
        Some(messages[0].content)
    } else {
        first_content(messages.skip(1), role)
    }
}

/// The title that a content suggests: its first line, cut.
pub open spec fn title_line(content: Seq<char>) -> Seq<char> {
    text::cut(text::first_line_of(content), TITLE_LIMIT as nat)
}

/// The title that the first message of the user suggests.
pub open spec fn user_title(messages: Seq<MessageView>) -> Option<Seq<char>> {
    match first_content(messages, "user"@) {
        Some(content) => Some(title_line(content)),
        None => None,
    }
}

/// Where the first message of a role stands, or how many there are.
pub fn first_of(messages: &Vec<NormalizedMessage>, role: &str) -> (at: usize)
    ensures
        at <= messages.len(),
        first_content(messages_of(messages@), role@) == if at < messages.len() {
            Some(messages[at as int].content@)
        } else {
            None
        },
{
    let ghost views = messages_of(messages@);
    let mut at: usize = 0;
    assert(views.skip(0) =~= views);
    while at < messages.len()
        invariant
            at <= messages.len(),
            views == messages_of(messages@),
            first_content(views, role@) == first_content(views.skip(at as int), role@),
        decreases messages.len() - at,
    {
        assert(views.skip(at as int)[0] == messages[at as int]@);
        assert(views.skip(at as int).skip(1) =~= views.skip(at + 1));
        if text::same_text(messages[at].role.as_str(), role) {
            return at;
        }
        at += 1;
    }
    at
}

/// The title that the first message of the user suggests.
pub fn title_of(messages: &Vec<NormalizedMessage>) -> (title: Option<String>)
    ensures
        text::held(title) == user_title(messages_of(messages@)),
{
    let at = first_of(messages, "user");
    if at < messages.len() {
        let line = text::first_line(messages[at].content.as_str());
        Some(text::cut_to(line.as_str(), TITLE_LIMIT))
    } else {
        None
    }
}

/// The times of some messages.
pub open spec fn stamps_of(messages: Seq<MessageView>) -> Seq<Option<i64>> {
    messages.map_values(|message: MessageView| message.created_at)
}

/// Numbering changes no time and no role.
pub proof fn lemma_numbered_stamps(drafts: Seq<MessageView>)
    ensures
        stamps_of(numbered(drafts)) == stamps_of(drafts),
        user_title(numbered(drafts)) == user_title(drafts),
{
    assert(stamps_of(numbered(drafts)) =~= stamps_of(drafts));
    lemma_numbered_content(drafts, numbered(drafts), "user"@);
}

proof fn lemma_numbered_content(a: Seq<MessageView>, b: Seq<MessageView>, role: Seq<char>)
    requires
        a.len() == b.len(),
        forall|i: int|
            0 <= i < a.len() ==> (#[trigger] a[i]).role == b[i].role && a[i].content == b[i].content,
    ensures
        first_content(a, role) == first_content(b, role),
    decreases a.len(),
{
    if a.len() > 0 {
        assert(a[0].role == b[0].role);
        assert forall|i: int| 0 <= i < a.skip(1).len() implies (#[trigger] a.skip(1)[i]).role
            == b.skip(1)[i].role && a.skip(1)[i].content == b.skip(1)[i].content by {
            assert(a[i + 1].role == b[i + 1].role);
        }
        lemma_numbered_content(a.skip(1), b.skip(1), role);
    }
}

/// Numbering changes no content.
pub proof fn lemma_numbered_first(drafts: Seq<MessageView>, role: Seq<char>)
    ensures
        first_content(numbered(drafts), role) == first_content(drafts, role),
{
    lemma_numbered_content(drafts, numbered(drafts), role);
}

/// Every message carries its place as its number.
pub proof fn law_messages_are_numbered(drafts: Seq<MessageView>, at: int)
    requires
        0 <= at < drafts.len() <= i64::MAX,
    ensures
        numbered(drafts).len() == drafts.len(),
        numbered(drafts)[at].idx == at,
{
}

/// A suggested title is one line of at most as many characters as a title may
/// have.
pub proof fn law_title_is_short(messages: Seq<MessageView>)
    requires
        user_title(messages) is Some,
    ensures
        user_title(messages)->Some_0.len() <= TITLE_LIMIT,
        !user_title(messages)->Some_0.contains('\n'),
{
    let content = first_content(messages, "user"@)->Some_0;
    text::lemma_first_line(content);
    let line = text::first_line_of(content);
    let title = title_line(content);
    assert forall|i: int| 0 <= i < title.len() implies title[i] != '\n' by {
        assert(title[i] == line[i]);
    }
}

/// Numbering changes nothing of a message but its number.
pub proof fn law_numbering_changes_the_number_only(drafts: Seq<MessageView>, at: int)
    requires
        0 <= at < drafts.len(),
    ensures
        numbered(drafts).len() == drafts.len(),
        numbered(drafts)[at].role == drafts[at].role,
        numbered(drafts)[at].author == drafts[at].author,
        numbered(drafts)[at].created_at == drafts[at].created_at,
        numbered(drafts)[at].content == drafts[at].content,
        numbered(drafts)[at].extra == drafts[at].extra,
        numbered(drafts)[at].invocations == drafts[at].invocations,
        numbered(drafts)[at].snippets == drafts[at].snippets,
{
}

/// The first message of a role is the one before which there is none of it.
pub proof fn law_the_first_message_of_a_role(messages: Seq<MessageView>, role: Seq<char>, at: int)
    ensures
        0 <= at < messages.len() && messages[at].role == role && (forall|j: int|
            0 <= j < at ==> (#[trigger] messages[j]).role != role) ==> first_content(messages, role)
            == Some(messages[at].content),
        (forall|j: int| 0 <= j < messages.len() ==> (#[trigger] messages[j]).role != role)
            ==> first_content(messages, role) is None,
    decreases messages.len(),
{
    if messages.len() > 0 {
        let rest = messages.skip(1);
        law_the_first_message_of_a_role(rest, role, at - 1);
        if 0 <= at < messages.len() && messages[at].role == role && (forall|j: int|
            0 <= j < at ==> (#[trigger] messages[j]).role != role) && at > 0 {
            assert(messages[0].role != role);
            assert forall|j: int| 0 <= j < at - 1 implies (#[trigger] rest[j]).role != role by {
                assert(rest[j] == messages[j + 1]);
            }
            assert(rest[at - 1] == messages[at]);
        }
        if forall|j: int| 0 <= j < messages.len() ==> (#[trigger] messages[j]).role != role {
            assert(messages[0].role != role);
            assert forall|j: int| 0 <= j < rest.len() implies (#[trigger] rest[j]).role != role by {
                assert(rest[j] == messages[j + 1]);
            }
        }
    }
}

/// The title is the first line of the first message of the user, or its first 120
/// characters where it is longer; without such a message there is none.
pub proof fn law_the_title_is_what_the_user_says_first(
    messages: Seq<MessageView>,
    at: int,
    line: Seq<char>,
    rest: Seq<char>,
)
    requires
        !line.contains('\n'),
        !line.contains('\r'),
    ensures
        0 <= at < messages.len() && messages[at].role == "user"@ && (forall|j: int|
            0 <= j < at ==> (#[trigger] messages[j]).role != "user"@) && (messages[at].content
            == line || messages[at].content == line + seq!['\n'] + rest) ==> user_title(messages)
            == Some(
            if line.len() <= 120 {
                line
            } else {
                line.take(120)
            },
        ),
        (forall|j: int| 0 <= j < messages.len() ==> (#[trigger] messages[j]).role != "user"@)
            ==> user_title(messages) is None,
{
    law_the_first_message_of_a_role(messages, "user"@, at);
    text::laws::law_the_first_line_comes_first(line, rest);
    if line.len() > 0 {
        assert(line.contains(line.last()));
    }
}

} // verus!
