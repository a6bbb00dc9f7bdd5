//! Chat with the vault: requests, sessions, and the answers of a runner.
use vstd::prelude::*;
use crate::text::{
    chars_of, is_blank, replace_char, replace_char_exec, string_of, string_of_range, trim,
    trim_bounds,
};
use crate::vault::wikilinks::opt_view;

verus! {

/// A question for the assistant, in a chat session.
#[derive(Debug, Clone)]
pub struct AskRequest {
    pub message: String,
    pub session_id: Option<String>,
}

/// The assistant's answer.
#[derive(Debug, Clone, PartialEq, Eq)]
pub struct AskResponse {
    pub answer: String,
}

/// A chat session as the session list shows it.
#[derive(Debug, Clone, PartialEq, Eq)]
pub struct ChatSession {
    pub id: String,
    pub name: String,
    pub updated_at: Option<String>,
}

/// A message of a chat transcript.
#[derive(Debug, Clone, PartialEq, Eq)]
pub struct ChatMessage {
    pub role: ChatRole,
    pub content: String,
}

/// Who wrote a chat message.
#[derive(Debug, Clone, Copy, PartialEq, Eq, Structural)]
pub enum ChatRole {
    User,
    Assistant,
}

/// Why a question could not be answered.
#[derive(Debug, Clone, PartialEq, Eq)]
pub enum AskError {
    MissingApiKey,
    EmptyAnswer,
    Session(String),
    Harness(String),
}

/// The message of an error.
pub open spec fn ask_error_message(e: AskError) -> Seq<char> {
    match e {
        AskError::MissingApiKey => "missing DEEPSEEK_API_KEY"@,
        AskError::EmptyAnswer => "llm returned no assistant text"@,
        AskError::Session(s) => "session error: "@ + s@,
        AskError::Harness(s) => "llm harness error: "@ + s@,
    }
}

impl AskError {
    /// The message shown to the user.
    pub fn message(&self) -> (r: String)
        ensures
            r@ == ask_error_message(*self),
    {
        match self {
            AskError::MissingApiKey => String::from_str("missing DEEPSEEK_API_KEY"),
            AskError::EmptyAnswer => String::from_str("llm returned no assistant text"),
            AskError::Session(s) => {
                let mut m = String::from_str("session error: ");
                m.append(s.as_str());
                m
            },
            AskError::Harness(s) => {
                let mut m = String::from_str("llm harness error: ");
                m.append(s.as_str());
                m
            },
        }
    }

    /// A copy of the error.
    pub fn duplicate(&self) -> (r: AskError)
        ensures
            r == *self,
    {
        match self {
            AskError::MissingApiKey => AskError::MissingApiKey,
            AskError::EmptyAnswer => AskError::EmptyAnswer,
            AskError::Session(s) => AskError::Session(s.clone()),
            AskError::Harness(s) => AskError::Harness(s.clone()),
        }
    }
}

/// A session id from a user-given name: trimmed, with `\` and `/` turned into `-`.
pub open spec fn session_id_of(value: Seq<char>) -> Seq<char> {
    replace_char(replace_char(trim(value), '\\', '-'), '/', '-')
}

/// Makes a session id from a user-given name.
pub fn normalize_session_id(value: &str) -> (r: String)
    ensures
        r@ == session_id_of(value@),
{
    let v = chars_of(value);
    assert(v@.subrange(0, v@.len() as int) =~= v@);
    let (a, b) = trim_bounds(&v, 0, v.len());
    let t = chars_of(string_of_range(&v, a, b).as_str());
    let w = replace_char_exec(&t, '\\', '-');
    let x = replace_char_exec(&w, '/', '-');
    string_of(&x)
}

/// The session that exists before any is created.
pub fn default_chat_session() -> (r: ChatSession)
    ensures
        r.id@ == "default"@,
        r.name@ == "默认会话"@,
        r.updated_at is None,
{
    ChatSession {
        id: String::from_str("default"),
        name: String::from_str("默认会话"),
        updated_at: None,
    }
}

/// A runner that answers every question with a fixed text.
#[derive(Debug)]
pub struct FakeAskRunner {
    answer: String,
}

impl FakeAskRunner {
    /// A runner that always answers `answer`.
    pub fn new(answer: &str) -> (r: Self)
        ensures
            r.answer()@ == answer@,
    {
        Self { answer: String::from_str(answer) }
    }

    /// The fixed answer.
    pub closed spec fn answer(&self) -> String {
        self.answer
    }

    /// Answers with the fixed text.
    pub fn ask(&self, request: AskRequest) -> (r: Result<AskResponse, AskError>)
        ensures
            r matches Ok(resp) && resp.answer@ == self.answer()@,
    {
        Ok(AskResponse { answer: self.answer.clone() })
    }

    /// Only the default session.
    pub fn list_sessions(&self) -> (r: Result<Vec<ChatSession>, AskError>)
        ensures
            r matches Ok(v) && v@.len() == 1 && v@[0].id@ == "default"@ && v@[0].name@ == "默认会话"@
                && v@[0].updated_at is None,
    {
        let mut v: Vec<ChatSession> = Vec::new();
        v.push(default_chat_session());
        Ok(v)
    }

    /// A session named `name`, with the normalized name as its id.
    pub fn create_session(&self, name: String) -> (r: Result<ChatSession, AskError>)
        ensures
            r matches Ok(s) && s.id@ == session_id_of(name@) && s.name@ == name@ && s.updated_at is None,
    {
        Ok(ChatSession { id: normalize_session_id(name.as_str()), name, updated_at: None })
    }

    /// The session under its new name.
    pub fn rename_session(&self, session_id: String, name: String) -> (r: Result<ChatSession, AskError>)
        ensures
            r matches Ok(s) && s.id@ == session_id_of(name@) && s.name@ == name@ && s.updated_at is None,
    {
        Ok(ChatSession { id: normalize_session_id(name.as_str()), name, updated_at: None })
    }

    /// Nothing to delete.
    pub fn delete_session(&self, session_id: String) -> (r: Result<(), AskError>)
        ensures
            r is Ok,
    {
        Ok(())
    }

    /// No messages.
    pub fn session_messages(&self, session_id: String) -> (r: Result<Vec<ChatMessage>, AskError>)
        ensures
            r matches Ok(v) && v@.len() == 0,
    {
        Ok(Vec::new())
    }
}

/// A runner that cannot answer, because of a configuration error.
#[derive(Debug)]
pub struct UnavailableAskRunner {
    error: AskError,
}

impl UnavailableAskRunner {
    /// A runner that fails every question with `error`.
    pub fn new(error: AskError) -> (r: Self)
        ensures
            r.error() == error,
    {
        Self { error }
    }

    /// The configuration error.
    pub closed spec fn error(&self) -> AskError {
        self.error
    }

    /// Fails with the configuration error.
    pub fn ask(&self, request: AskRequest) -> (r: Result<AskResponse, AskError>)
        ensures
            r == Err::<AskResponse, AskError>(self.error()),
    {
        Err(self.error.duplicate())
    }

    /// Only the default session.
    pub fn list_sessions(&self) -> (r: Result<Vec<ChatSession>, AskError>)
        ensures
            r matches Ok(v) && v@.len() == 1 && v@[0].id@ == "default"@ && v@[0].name@ == "默认会话"@
                && v@[0].updated_at is None,
    {
        let mut v: Vec<ChatSession> = Vec::new();
        v.push(default_chat_session());
        Ok(v)
    }

    /// A session named `name`, with the normalized name as its id.
    pub fn create_session(&self, name: String) -> (r: Result<ChatSession, AskError>)
        ensures
            r matches Ok(s) && s.id@ == session_id_of(name@) && s.name@ == name@ && s.updated_at is None,
    {
        Ok(ChatSession { id: normalize_session_id(name.as_str()), name, updated_at: None })
    }

    /// The session under its new name; this runner stores no sessions.
    pub fn rename_session(&self, session_id: String, name: String) -> (r: Result<ChatSession, AskError>)
        ensures
            r matches Ok(s) && s.id@ == session_id_of(name@) && s.name@ == name@ && s.updated_at is None,
    {
        Ok(ChatSession { id: normalize_session_id(name.as_str()), name, updated_at: None })
    }

    /// Nothing to delete.
    pub fn delete_session(&self, session_id: String) -> (r: Result<(), AskError>)
        ensures
            r is Ok,
    {
        Ok(())
    }

    /// No messages.
    pub fn session_messages(&self, session_id: String) -> (r: Result<Vec<ChatMessage>, AskError>)
        ensures
            r matches Ok(v) && v@.len() == 0,
    {
        Ok(Vec::new())
    }
}

/// The model used when none is configured.
pub open spec fn default_model() -> Seq<char> {
    "deepseek-v4-flash"@
}

/// The DeepSeek credentials and model of a runner.
#[derive(Debug, Clone, PartialEq, Eq)]
pub struct DeepSeekConfig {
    pub api_key: String,
    pub model: String,
}

/// Resolves the DeepSeek configuration from the values of `DEEPSEEK_API_KEY` and
/// `DEEPSEEK_MODEL`: a blank value counts as missing; a key is required, the
/// model defaults to `deepseek-v4-flash`.
pub fn deepseek_config(api_key: Option<String>, model: Option<String>) -> (r: Result<DeepSeekConfig, AskError>)
    ensures
        match api_key {
            Some(k) if trim(k@).len() > 0 => r matches Ok(c) && c.api_key@ == k@ && c.model@ == (
            match model {
                Some(m) if trim(m@).len() > 0 => m@,
                _ => default_model(),
            }),
            _ => r == Err::<DeepSeekConfig, AskError>(AskError::MissingApiKey),
        },
{
    let key = match api_key {
        Some(k) => {
            if is_blank(k.as_str()) {
                return Err(AskError::MissingApiKey);
            }
            k
        },
        None => {
            return Err(AskError::MissingApiKey);
        },
    };
    let model = match model {
        Some(m) => {
            if is_blank(m.as_str()) {
                String::from_str("deepseek-v4-flash")
            } else {
                m
            }
        },
        None => String::from_str("deepseek-v4-flash"),
    };
    Ok(DeepSeekConfig { api_key: key, model })
}

/// The session a question goes to: the requested one, normalized, unless it is
/// missing or normalizes to nothing, then `default_name`.
pub fn session_for_request(requested: Option<String>, default_name: &str) -> (r: String)
    ensures
        r@ == (match requested {
            Some(s) if session_id_of(s@).len() > 0 => session_id_of(s@),
            _ => default_name@,
        }),
{
    match requested {
        Some(s) => {
            let id = normalize_session_id(s.as_str());
            if id.as_str().is_empty() {
                String::from_str(default_name)
            } else {
                id
            }
        },
        None => String::from_str(default_name),
    }
}

/// A new named session of the DeepSeek runner: its id and name are the
/// normalized name, which must not be empty.
pub fn named_session(name: &str) -> (r: Result<ChatSession, AskError>)
    ensures
        session_id_of(name@).len() == 0 ==> (r matches Err(e) && e is Session && e->Session_0@
            == "session name cannot be empty"@),
        session_id_of(name@).len() > 0 ==> (r matches Ok(s) && s.id@ == session_id_of(name@) && s.name@
            == session_id_of(name@) && s.updated_at is None),
{
    let id = normalize_session_id(name);
    if id.as_str().is_empty() {
        return Err(AskError::Session(String::from_str("session name cannot be empty")));
    }
    Ok(ChatSession { id: id.clone(), name: id, updated_at: None })
}

/// A stored session: its name, if it has one, and when it was last updated.
#[derive(Debug, Clone)]
pub struct StoredSession {
    pub name: Option<String>,
    pub updated_at: String,
}

/// The sessions to list: the named stored sessions, each under its name, or the
/// default session when there is none.
pub open spec fn listed_sessions(stored: Seq<StoredSession>, i: int) -> Seq<(Seq<char>, Seq<char>, Option<Seq<char>>)>
    decreases i,
{
    if i <= 0 {
        seq![]
    } else {
        let rest = listed_sessions(stored, i - 1);
        match stored[i - 1].name {
            Some(n) => rest.push((n@, n@, Some(stored[i - 1].updated_at@))),
            None => rest,
        }
    }
}

/// The abstract value of a session.
pub open spec fn session_view(s: ChatSession) -> (Seq<char>, Seq<char>, Option<Seq<char>>) {
    (s.id@, s.name@, opt_view(s.updated_at))
}

/// The session list of the DeepSeek runner.
pub fn chat_sessions(stored: Vec<StoredSession>) -> (r: Vec<ChatSession>)
    ensures
        listed_sessions(stored@, stored@.len() as int).len() > 0 ==> r@.map_values(
            |s: ChatSession| session_view(s),
        ) == listed_sessions(stored@, stored@.len() as int),
        listed_sessions(stored@, stored@.len() as int).len() == 0 ==> r@.len() == 1 && r@[0].id@
            == "default"@ && r@[0].name@ == "默认会话"@ && r@[0].updated_at is None,
{
    let mut out: Vec<ChatSession> = Vec::new();
    let mut i: usize = 0;
    while i < stored.len()
        invariant
            i <= stored.len(),
            out@.map_values(|s: ChatSession| session_view(s)) == listed_sessions(stored@, i as int),
        decreases stored.len() - i,
    {
        let ghost before = out@;
        match &stored[i].name {
            Some(n) => {
                out.push(ChatSession { id: n.clone(), name: n.clone(), updated_at: Some(stored[i].updated_at.clone()) });
                assert(out@.map_values(|s: ChatSession| session_view(s)) =~= before.map_values(
                    |s: ChatSession| session_view(s),
                ).push(session_view(out@[out@.len() - 1])));
            },
            None => {},
        }
        i = i + 1;
    }
    if out.len() == 0 {
        out.push(default_chat_session());
    }
    out
}

/// A piece of message content.
#[derive(Debug, Clone)]
pub enum ContentPiece {
    Text(String),
    Other,
}

/// Who produced a message of the harness conversation.
#[derive(Debug, Clone, Copy, PartialEq, Eq, Structural)]
pub enum MessageRole {
    User,
    Assistant,
    Other,
}

/// A message of the harness conversation, with its content pieces.
#[derive(Debug, Clone)]
pub struct ConversationMessage {
    pub role: MessageRole,
    pub content: Vec<ContentPiece>,
}

/// The text pieces of a content list, joined.
pub open spec fn joined_text(pieces: Seq<ContentPiece>) -> Seq<char>
    decreases pieces.len(),
{
    if pieces.len() == 0 {
        seq![]
    } else {
        joined_text(pieces.drop_last()) + match pieces.last() {
            ContentPiece::Text(t) => t@,
            ContentPiece::Other => seq![],
        }
    }
}

/// The text of the assistant messages, joined.
pub open spec fn assistant_joined(messages: Seq<ConversationMessage>) -> Seq<char>
    decreases messages.len(),
{
    if messages.len() == 0 {
        seq![]
    } else {
        assistant_joined(messages.drop_last()) + if messages.last().role == MessageRole::Assistant {
            joined_text(messages.last().content@)
        } else {
            seq![]
        }
    }
}

/// Joins the text pieces of a content list.
pub fn text_blocks(pieces: &Vec<ContentPiece>) -> (r: String)
    ensures
        r@ == joined_text(pieces@),
{
    let mut out = String::new();
    let mut i: usize = 0;
    while i < pieces.len()
        invariant
            i <= pieces.len(),
            out@ == joined_text(pieces@.take(i as int)),
        decreases pieces.len() - i,
    {
        assert(pieces@.take(i + 1).drop_last() =~= pieces@.take(i as int));
        match &pieces[i] {
            ContentPiece::Text(t) => out.append(t.as_str()),
            ContentPiece::Other => {},
        }
        i = i + 1;
        assert(out@ =~= joined_text(pieces@.take(i as int)));
    }
    assert(pieces@.take(pieces@.len() as int) =~= pieces@);
    out
}

/// Joins the text of the assistant messages from `start` on.
pub fn assistant_text(messages: &Vec<ConversationMessage>, start: usize) -> (r: String)
    requires
        start <= messages.len(),
    ensures
        r@ == assistant_joined(messages@.skip(start as int)),
{
    let ghost ms = messages@.skip(start as int);
    let mut out = String::new();
    let mut i: usize = start;
    while i < messages.len()
        invariant
            start <= i <= messages.len(),
            ms == messages@.skip(start as int),
            out@ == assistant_joined(ms.take(i - start)),
        decreases messages.len() - i,
    {
        assert(ms.take(i + 1 - start).drop_last() =~= ms.take(i - start));
        assert(ms.take(i + 1 - start).last() == messages@[i as int]);
        let m = &messages[i];
        if m.role == MessageRole::Assistant {
            let t = text_blocks(&m.content);
            out.append(t.as_str());
        }
        i = i + 1;
        assert(out@ =~= assistant_joined(ms.take(i - start)));
    }
    assert(ms.take(ms.len() as int) =~= ms);
    out
}

/// The answer of a turn: the assistant text added after `start`, which must
/// not be blank.
pub fn answer_from_turn(messages: &Vec<ConversationMessage>, start: usize) -> (r: Result<AskResponse, AskError>)
    requires
        start <= messages.len(),
    ensures
        trim(assistant_joined(messages@.skip(start as int))).len() == 0 ==> r == Err::<AskResponse, AskError>(
            AskError::EmptyAnswer,
        ),
        trim(assistant_joined(messages@.skip(start as int))).len() > 0 ==> (r matches Ok(resp)
            && resp.answer@ == assistant_joined(messages@.skip(start as int))),
{
    let answer = assistant_text(messages, start);
    if is_blank(answer.as_str()) {
        return Err(AskError::EmptyAnswer);
    }
    Ok(AskResponse { answer })
}

/// The transcript of a conversation: user messages with their text, and the
/// assistant messages whose text is not blank; other messages are left out.
pub open spec fn transcript(messages: Seq<ConversationMessage>) -> Seq<(ChatRole, Seq<char>)>
    decreases messages.len(),
{
    if messages.len() == 0 {
        seq![]
    } else {
        let rest = transcript(messages.drop_last());
        let m = messages.last();
        let text = joined_text(m.content@);
        match m.role {
            MessageRole::User => rest.push((ChatRole::User, text)),
            MessageRole::Assistant => if trim(text).len() > 0 {
                rest.push((ChatRole::Assistant, text))
            } else {
                rest
            },
            MessageRole::Other => rest,
        }
    }
}

/// Turns a conversation into its chat transcript.
pub fn to_chat_messages(messages: &Vec<ConversationMessage>) -> (r: Vec<ChatMessage>)
    ensures
        r@.map_values(|m: ChatMessage| (m.role, m.content@)) == transcript(messages@),
{
    let mut out: Vec<ChatMessage> = Vec::new();
    let mut i: usize = 0;
    while i < messages.len()
        invariant
            i <= messages.len(),
            out@.map_values(|m: ChatMessage| (m.role, m.content@)) == transcript(messages@.take(i as int)),
        decreases messages.len() - i,
    {
        assert(messages@.take(i + 1).drop_last() =~= messages@.take(i as int));
        assert(messages@.take(i + 1).last() == messages@[i as int]);
        let ghost before = out@;
        let m = &messages[i];
        let content = text_blocks(&m.content);
        match m.role {
            MessageRole::User => {
                out.push(ChatMessage { role: ChatRole::User, content });
            },
            MessageRole::Assistant => {
                if !is_blank(content.as_str()) {
                    out.push(ChatMessage { role: ChatRole::Assistant, content });
                }
            },
            MessageRole::Other => {},
        }
        i = i + 1;
        assert(out@.map_values(|m: ChatMessage| (m.role, m.content@)) =~= transcript(messages@.take(i as int)));
    }
    assert(messages@.take(messages@.len() as int) =~= messages@);
    out
}

/// Index of the stored session whose name is exactly `name`, if any.
pub fn find_named_session(names: &Vec<Option<String>>, name: &str) -> (r: Option<usize>)
    ensures
        match r {
            Some(k) => k < names@.len() && (names@[k as int] matches Some(n) && n@ == name@) && forall|m: int|
                0 <= m < k ==> !(#[trigger] names@[m] matches Some(x) && x@ == name@),
            None => forall|m: int| 0 <= m < names@.len() ==> !(#[trigger] names@[m] matches Some(x) && x@ == name@),
        },
{
    let mut k: usize = 0;
    while k < names.len()
        invariant
            k <= names.len(),
            forall|m: int| 0 <= m < k ==> !(#[trigger] names@[m] matches Some(x) && x@ == name@),
        decreases names.len() - k,
    {
        match &names[k] {
            Some(n) => {
                if crate::text::str_eq(n.as_str(), name) {
                    return Some(k);
                }
            },
            None => {},
        }
        k = k + 1;
    }
    None
}

} // verus!
