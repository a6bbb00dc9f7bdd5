use knowledge_agent::ask::AskError;
use knowledge_agent::server::{
    ask_error, ask_reply, check_ask_message, check_session_name, events_session,
    to_activity_event, to_agent_activity_event, tool_action, tool_label, AgentEvent,
    AskActivityEvent, HarnessEvent,
};

fn event(kind: &str, label: &str, detail: Option<&str>) -> AskActivityEvent {
    AskActivityEvent {
        kind: kind.to_string(),
        label: label.to_string(),
        detail: detail.map(|d| d.to_string()),
    }
}

#[test]
fn ask_rejects_empty_message() {
    let refused = check_ask_message("   ").unwrap_err();
    assert_eq!(refused.status, 400);
    assert_eq!(refused.message, "message cannot be empty");
    assert!(check_ask_message("什么是 Agent Harness？").is_ok());
}

#[test]
fn session_names_must_not_be_blank() {
    let refused = check_session_name("\t").unwrap_err();
    assert_eq!(refused.status, 400);
    assert_eq!(refused.message, "session name cannot be empty");
    assert!(check_session_name("research").is_ok());
}

#[test]
fn ask_reports_missing_llm_configuration() {
    let error = ask_error(&AskError::MissingApiKey);
    assert_eq!(error.status, 500);
    assert!(error.message.contains("DEEPSEEK_API_KEY"));
}

#[test]
fn ask_returns_runner_answer() {
    let reply = ask_reply("fake llm answer".to_string());
    assert_eq!(reply.answer, "fake llm answer");
    assert!(reply.sources.is_empty());
    assert!(!reply.requires_followup);
}

#[test]
fn events_default_to_the_default_session() {
    assert_eq!(events_session(None), "default");
    assert_eq!(events_session(Some("research".to_string())), "research");
}

#[test]
fn tools_have_display_names_and_actions() {
    assert_eq!(tool_label("vault_search_notes"), "搜索笔记");
    assert_eq!(tool_label("vault_propose_note_update"), "提出笔记修改");
    assert_eq!(tool_label("custom_tool"), "custom_tool");
    assert_eq!(tool_action("vault_neighbor_notes"), "查看链接邻近节点");
    assert_eq!(tool_action("vault_propose_note_update"), "生成笔记修改提案");
    assert_eq!(tool_action("custom_tool"), "执行工具");
}

#[test]
fn agent_events_become_activity_events() {
    assert_eq!(to_agent_activity_event(&AgentEvent::AgentStart), event("agent_start", "开始处理", None));
    assert_eq!(
        to_agent_activity_event(&AgentEvent::ToolCallStart { name: "web_search".to_string() }),
        event("tool_call_start", "准备使用工具：搜索网页", Some("web_search"))
    );
    assert_eq!(
        to_agent_activity_event(&AgentEvent::ToolExecutionStart {
            tool_name: "vault_read_note".to_string()
        }),
        event("tool_execution_start", "正在读取笔记", Some("vault_read_note"))
    );
    assert_eq!(
        to_agent_activity_event(&AgentEvent::ToolExecutionEnd { error: Some("boom".to_string()) }),
        event("tool_execution_end", "工具执行失败", Some("boom"))
    );
    assert_eq!(
        to_agent_activity_event(&AgentEvent::ToolExecutionEnd { error: None }),
        event("tool_execution_end", "工具执行完成", None)
    );
    assert_eq!(to_agent_activity_event(&AgentEvent::TextDelta), event("answering", "正在生成回答", None));
    assert_eq!(to_agent_activity_event(&AgentEvent::Error("x".to_string())), event("error", "处理失败", Some("x")));
    assert_eq!(to_agent_activity_event(&AgentEvent::Other), event("running", "正在处理", None));
}

#[test]
fn harness_events_become_activity_events() {
    assert_eq!(to_activity_event(&HarnessEvent::Agent(AgentEvent::AgentEnd)), event("agent_end", "完成", None));
    assert_eq!(
        to_activity_event(&HarnessEvent::ToolCallEnd { tool_name: "t".to_string(), is_error: false }),
        event("tool_execution_end", "工具执行完成", Some("t"))
    );
    assert_eq!(
        to_activity_event(&HarnessEvent::ToolCallEnd { tool_name: "t".to_string(), is_error: true }),
        event("tool_execution_end", "工具执行失败", Some("t"))
    );
    assert_eq!(to_activity_event(&HarnessEvent::SavePoint), event("save_point", "正在保存会话", None));
    assert_eq!(to_activity_event(&HarnessEvent::Settled), event("agent_end", "完成", None));
}
