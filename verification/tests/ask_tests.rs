use knowledge_agent::ask::{
    answer_from_turn, assistant_text, chat_sessions, deepseek_config, default_chat_session,
    find_named_session, named_session, normalize_session_id, session_for_request, text_blocks,
    to_chat_messages, AskError, AskRequest, ChatMessage, ChatRole, ContentPiece,
    ConversationMessage, FakeAskRunner, MessageRole, StoredSession, UnavailableAskRunner,
};

fn request(message: &str) -> AskRequest {
    AskRequest { message: message.to_string(), session_id: None }
}

fn text(s: &str) -> ContentPiece {
    ContentPiece::Text(s.to_string())
}

fn message(role: MessageRole, pieces: Vec<ContentPiece>) -> ConversationMessage {
    ConversationMessage { role, content: pieces }
}

#[test]
fn fake_runner_returns_configured_answer() {
    let runner = FakeAskRunner::new("fake answer");

    let response = runner.ask(request("hello")).unwrap();

    assert_eq!(response.answer, "fake answer");
}

#[test]
fn deepseek_runner_reports_missing_api_key() {
    let result = deepseek_config(None, Some("deepseek-v4-flash".to_string()));

    assert!(matches!(result, Err(AskError::MissingApiKey)));
}

#[test]
fn unavailable_runner_returns_its_error() {
    let runner = UnavailableAskRunner::new(AskError::MissingApiKey);

    let result = runner.ask(request("hello"));

    assert!(matches!(result, Err(AskError::MissingApiKey)));
}

#[test]
fn deepseek_config_defaults_the_model_and_ignores_blank_values() {
    let config = deepseek_config(Some("sk-1".to_string()), None).unwrap();
    assert_eq!(config.api_key, "sk-1");
    assert_eq!(config.model, "deepseek-v4-flash");

    let config = deepseek_config(Some("sk-1".to_string()), Some("  ".to_string())).unwrap();
    assert_eq!(config.model, "deepseek-v4-flash");

    let config = deepseek_config(Some("sk-1".to_string()), Some("deepseek-chat".to_string())).unwrap();
    assert_eq!(config.model, "deepseek-chat");

    assert_eq!(deepseek_config(Some(" \t".to_string()), None), Err(AskError::MissingApiKey));
}

#[test]
fn error_messages_name_the_cause() {
    assert_eq!(AskError::MissingApiKey.message(), "missing DEEPSEEK_API_KEY");
    assert_eq!(AskError::EmptyAnswer.message(), "llm returned no assistant text");
    assert_eq!(AskError::Session("x".to_string()).message(), "session error: x");
    assert_eq!(AskError::Harness("boom".to_string()).message(), "llm harness error: boom");
    let e = AskError::Harness("boom".to_string());
    assert_eq!(e.duplicate(), e);
}

#[test]
fn runners_start_with_the_default_session() {
    let fake = FakeAskRunner::new("a");
    let sessions = fake.list_sessions().unwrap();
    assert_eq!(sessions, vec![default_chat_session()]);
    assert_eq!(sessions[0].id, "default");
    assert_eq!(sessions[0].name, "默认会话");
    assert!(fake.session_messages("default".to_string()).unwrap().is_empty());
    assert!(fake.delete_session("x".to_string()).is_ok());

    let unavailable = UnavailableAskRunner::new(AskError::EmptyAnswer);
    assert_eq!(unavailable.list_sessions().unwrap()[0].id, "default");
    assert!(unavailable.session_messages("default".to_string()).unwrap().is_empty());
}

#[test]
fn created_and_renamed_sessions_take_normalized_ids() {
    let fake = FakeAskRunner::new("a");
    let created = fake.create_session("research".to_string()).unwrap();
    assert_eq!(created.id, "research");
    assert_eq!(created.name, "research");

    let renamed = fake.rename_session("research".to_string(), " a/b\\c ".to_string()).unwrap();
    assert_eq!(renamed.id, "a-b-c");
    assert_eq!(renamed.name, " a/b\\c ");

    let unavailable = UnavailableAskRunner::new(AskError::MissingApiKey);
    assert_eq!(unavailable.create_session("x/y".to_string()).unwrap().id, "x-y");
}

#[test]
fn session_ids_are_trimmed_and_lose_separators() {
    assert_eq!(normalize_session_id("  notes/2026\\june  "), "notes-2026-june");
    assert_eq!(normalize_session_id("   "), "");
}

#[test]
fn questions_go_to_the_requested_session_or_the_default() {
    assert_eq!(session_for_request(Some(" my/topic ".to_string()), "default"), "my-topic");
    assert_eq!(session_for_request(Some("  ".to_string()), "default"), "default");
    assert_eq!(session_for_request(None, "main"), "main");
}

#[test]
fn named_sessions_need_a_name() {
    let s = named_session(" ideas ").unwrap();
    assert_eq!(s.id, "ideas");
    assert_eq!(s.name, "ideas");
    assert!(s.updated_at.is_none());
    assert_eq!(
        named_session("  "),
        Err(AskError::Session("session name cannot be empty".to_string()))
    );
}

#[test]
fn stored_sessions_are_listed_by_name_or_default() {
    let listed = chat_sessions(vec![
        StoredSession { name: Some("a".to_string()), updated_at: "1".to_string() },
        StoredSession { name: None, updated_at: "2".to_string() },
        StoredSession { name: Some("b".to_string()), updated_at: "3".to_string() },
    ]);
    assert_eq!(listed.len(), 2);
    assert_eq!(listed[0].id, "a");
    assert_eq!(listed[0].updated_at.as_deref(), Some("1"));
    assert_eq!(listed[1].name, "b");

    let none = chat_sessions(vec![StoredSession { name: None, updated_at: "2".to_string() }]);
    assert_eq!(none, vec![default_chat_session()]);
}

#[test]
fn finds_the_first_session_with_a_name() {
    let names = vec![None, Some("x".to_string()), Some("y".to_string()), Some("x".to_string())];
    assert_eq!(find_named_session(&names, "x"), Some(1));
    assert_eq!(find_named_session(&names, "z"), None);
}

#[test]
fn harness_runner_keeps_context_between_turns() {
    // Two turns of a conversation: the answer of a turn is the assistant text
    // added after the turn's first message.
    let conversation = vec![
        message(MessageRole::User, vec![text("first question")]),
        message(MessageRole::Assistant, vec![text("first answer")]),
        message(MessageRole::User, vec![text("second question")]),
        message(MessageRole::Assistant, vec![text("second answer")]),
    ];

    let second = answer_from_turn(&conversation, 2).unwrap();

    assert_eq!(second.answer, "second answer");
    let messages = to_chat_messages(&conversation);
    assert!(
        messages.len() >= 4,
        "expected user/assistant messages from two turns, got {}",
        messages.len()
    );
}

#[test]
fn turn_answers_join_the_assistant_text() {
    let conversation = vec![
        message(MessageRole::User, vec![text("q")]),
        message(MessageRole::Assistant, vec![text("part one, "), ContentPiece::Other]),
        message(MessageRole::Other, vec![text("tool output")]),
        message(MessageRole::Assistant, vec![text("part two")]),
    ];
    assert_eq!(text_blocks(&vec![text("a"), ContentPiece::Other, text("b")]), "ab");
    assert_eq!(assistant_text(&conversation, 0), "part one, part two");
    assert_eq!(answer_from_turn(&conversation, 0).unwrap().answer, "part one, part two");
    assert_eq!(answer_from_turn(&conversation, 4), Err(AskError::EmptyAnswer));

    let blank = vec![message(MessageRole::Assistant, vec![text("  \n")])];
    assert_eq!(answer_from_turn(&blank, 0), Err(AskError::EmptyAnswer));
}

#[test]
fn transcripts_keep_user_messages_and_non_blank_answers() {
    let conversation = vec![
        message(MessageRole::User, vec![text("hi")]),
        message(MessageRole::Assistant, vec![ContentPiece::Other]),
        message(MessageRole::Other, vec![text("tool")]),
        message(MessageRole::Assistant, vec![text("hello")]),
    ];

    let transcript = to_chat_messages(&conversation);

    assert_eq!(
        transcript,
        vec![
            ChatMessage { role: ChatRole::User, content: "hi".to_string() },
            ChatMessage { role: ChatRole::Assistant, content: "hello".to_string() },
        ]
    );
}
