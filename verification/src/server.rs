//! The decisions of the HTTP API: request checks, replies, and the activity
//! events shown while the agent works.
use vstd::prelude::*;
use crate::ask::{ask_error_message, AskError};
use crate::text::{is_blank, str_eq, trim};
use crate::vault::wikilinks::opt_view;

verus! {

/// An error answer of the API: an HTTP status and a message.
#[derive(Debug, Clone, PartialEq, Eq)]
pub struct ApiError {
    pub status: u16,
    pub message: String,
}

/// A question must not be blank.
pub fn check_ask_message(message: &str) -> (r: Result<(), ApiError>)
    ensures
        trim(message@).len() == 0 ==> (r matches Err(e) && e.status == 400 && e.message@
            == "message cannot be empty"@),
        trim(message@).len() > 0 ==> r is Ok,
{
    if is_blank(message) {
        return Err(ApiError { status: 400, message: String::from_str("message cannot be empty") });
    }
    Ok(())
}

/// A session name must not be blank.
pub fn check_session_name(name: &str) -> (r: Result<(), ApiError>)
    ensures
        trim(name@).len() == 0 ==> (r matches Err(e) && e.status == 400 && e.message@
            == "session name cannot be empty"@),
        trim(name@).len() > 0 ==> r is Ok,
{
    if is_blank(name) {
        return Err(ApiError { status: 400, message: String::from_str("session name cannot be empty") });
    }
    Ok(())
}

/// A failed question is an internal error carrying the error's message.
pub fn ask_error(e: &AskError) -> (r: ApiError)
    ensures
        r.status == 500,
        r.message@ == ask_error_message(*e),
{
    ApiError { status: 500, message: e.message() }
}

/// A local note that an answer relies on.
#[derive(Debug, Clone, PartialEq, Eq)]
pub struct AskSource {
    pub title: String,
    pub path: String,
}

/// The answer of `POST /api/ask`.
#[derive(Debug, Clone, PartialEq, Eq)]
pub struct AskReply {
    pub answer: String,
    pub sources: Vec<AskSource>,
    pub requires_followup: bool,
}

/// The reply to a question: the runner's answer, no sources yet, no follow-up.
pub fn ask_reply(answer: String) -> (r: AskReply)
    ensures
        r.answer == answer,
        r.sources@.len() == 0,
        !r.requires_followup,
{
    AskReply { answer, sources: Vec::new(), requires_followup: false }
}

/// The session whose events are streamed: the requested one or `default`.
pub fn events_session(session_id: Option<String>) -> (r: String)
    ensures
        r@ == (match session_id {
            Some(s) => s@,
            None => "default"@,
        }),
{
    match session_id {
        Some(s) => s,
        None => String::from_str("default"),
    }
}

/// An event of the agent loop.
#[derive(Debug, Clone)]
pub enum AgentEvent {
    AgentStart,
    ThinkingDelta,
    ToolCallStart { name: String },
    ToolExecutionStart { tool_name: String },
    /// The end of a tool run, with its error message if it failed.
    ToolExecutionEnd { error: Option<String> },
    TextDelta,
    MessageUpdate,
    AgentEnd,
    Error(String),
    Other,
}

/// An event of the agent harness.
#[derive(Debug, Clone)]
pub enum HarnessEvent {
    Agent(AgentEvent),
    ToolCallStart { tool_name: String },
    ToolCallEnd { tool_name: String, is_error: bool },
    Settled,
    SavePoint,
    PhaseChange,
    Other,
}

/// What the web UI shows for an event.
#[derive(Debug, Clone, PartialEq, Eq)]
pub struct AskActivityEvent {
    pub kind: String,
    pub label: String,
    pub detail: Option<String>,
}

/// Kind, label and detail of an activity event.
pub type ActivityView = (Seq<char>, Seq<char>, Option<Seq<char>>);

/// The abstract value of an activity event.
pub open spec fn activity_view(e: AskActivityEvent) -> ActivityView {
    (e.kind@, e.label@, opt_view(e.detail))
}

/// The display name of a tool.
pub open spec fn tool_label_of(name: Seq<char>) -> Seq<char> {
    if name == "vault_list_notes"@ {
        "列出笔记"@
    } else if name == "vault_read_note"@ {
        "读取笔记"@
    } else if name == "vault_search_notes"@ {
        "搜索笔记"@
    } else if name == "vault_neighbor_notes"@ {
        "查看相邻节点"@
    } else if name == "web_search"@ {
        "搜索网页"@
    } else if name == "vault_create_note"@ {
        "新建笔记"@
    } else if name == "vault_append_index_entry"@ {
        "维护索引"@
    } else if name == "vault_propose_note_update"@ {
        "提出笔记修改"@
    } else {
        name
    }
}

/// What a running tool is doing.
pub open spec fn tool_action_of(name: Seq<char>) -> Seq<char> {
    if name == "vault_list_notes"@ {
        "列出知识库笔记"@
    } else if name == "vault_read_note"@ {
        "读取笔记"@
    } else if name == "vault_search_notes"@ {
        "搜索知识库"@
    } else if name == "vault_neighbor_notes"@ {
        "查看链接邻近节点"@
    } else if name == "web_search"@ {
        "搜索网页"@
    } else if name == "vault_create_note"@ {
        "新建笔记"@
    } else if name == "vault_append_index_entry"@ {
        "维护索引"@
    } else if name == "vault_propose_note_update"@ {
        "生成笔记修改提案"@
    } else {
        "执行工具"@
    }
}

/// The display name of a tool; unknown tools keep their name.
pub fn tool_label(name: &str) -> (r: String)
    ensures
        r@ == tool_label_of(name@),
{
    if str_eq(name, "vault_list_notes") {
        String::from_str("列出笔记")
    } else if str_eq(name, "vault_read_note") {
        String::from_str("读取笔记")
    } else if str_eq(name, "vault_search_notes") {
        String::from_str("搜索笔记")
    } else if str_eq(name, "vault_neighbor_notes") {
        String::from_str("查看相邻节点")
    } else if str_eq(name, "web_search") {
        String::from_str("搜索网页")
    } else if str_eq(name, "vault_create_note") {
        String::from_str("新建笔记")
    } else if str_eq(name, "vault_append_index_entry") {
        String::from_str("维护索引")
    } else if str_eq(name, "vault_propose_note_update") {
        String::from_str("提出笔记修改")
    } else {
        String::from_str(name)
    }
}

/// What a running tool is doing; unknown tools are "running a tool".
pub fn tool_action(name: &str) -> (r: String)
    ensures
        r@ == tool_action_of(name@),
{
    if str_eq(name, "vault_list_notes") {
        String::from_str("列出知识库笔记")
    } else if str_eq(name, "vault_read_note") {
        String::from_str("读取笔记")
    } else if str_eq(name, "vault_search_notes") {
        String::from_str("搜索知识库")
    } else if str_eq(name, "vault_neighbor_notes") {
        String::from_str("查看链接邻近节点")
    } else if str_eq(name, "web_search") {
        String::from_str("搜索网页")
    } else if str_eq(name, "vault_create_note") {
        String::from_str("新建笔记")
    } else if str_eq(name, "vault_append_index_entry") {
        String::from_str("维护索引")
    } else if str_eq(name, "vault_propose_note_update") {
        String::from_str("生成笔记修改提案")
    } else {
        String::from_str("执行工具")
    }
}

/// The activity shown for an agent event.
pub open spec fn agent_activity(e: AgentEvent) -> ActivityView {
    match e {
        AgentEvent::AgentStart => ("agent_start"@, "开始处理"@, None),
        AgentEvent::ThinkingDelta => ("thinking"@, "正在思考"@, None),
        AgentEvent::ToolCallStart { name } => (
            "tool_call_start"@,
            "准备使用工具："@ + tool_label_of(name@),
            Some(name@),
        ),
        AgentEvent::ToolExecutionStart { tool_name } => (
            "tool_execution_start"@,
            "正在"@ + tool_action_of(tool_name@),
            Some(tool_name@),
        ),
        AgentEvent::ToolExecutionEnd { error } => (
            "tool_execution_end"@,
            if error is None {
                "工具执行完成"@
            } else {
                "工具执行失败"@
            },
            opt_view(error),
        ),
        AgentEvent::TextDelta => ("answering"@, "正在生成回答"@, None),
        AgentEvent::MessageUpdate => ("answering"@, "正在生成回答"@, None),
        AgentEvent::AgentEnd => ("agent_end"@, "完成"@, None),
        AgentEvent::Error(m) => ("error"@, "处理失败"@, Some(m@)),
        AgentEvent::Other => ("running"@, "正在处理"@, None),
    }
}

/// The activity shown for a harness event.
pub open spec fn harness_activity(e: HarnessEvent) -> ActivityView {
    match e {
        HarnessEvent::Agent(a) => agent_activity(a),
        HarnessEvent::ToolCallStart { tool_name } => (
            "tool_call_start"@,
            "准备使用工具："@ + tool_label_of(tool_name@),
            Some(tool_name@),
        ),
        HarnessEvent::ToolCallEnd { tool_name, is_error } => (
            "tool_execution_end"@,
            if is_error {
                "工具执行失败"@
            } else {
                "工具执行完成"@
            },
            Some(tool_name@),
        ),
        HarnessEvent::Settled => ("agent_end"@, "完成"@, None),
        HarnessEvent::SavePoint => ("save_point"@, "正在保存会话"@, None),
        HarnessEvent::PhaseChange => ("running"@, "正在处理"@, None),
        HarnessEvent::Other => ("running"@, "正在处理"@, None),
    }
}

/// An activity event from its parts.
fn activity(kind: &str, label: String, detail: Option<String>) -> (r: AskActivityEvent)
    ensures
        r.kind@ == kind@,
        r.label == label,
        r.detail == detail,
{
    AskActivityEvent { kind: String::from_str(kind), label, detail }
}

/// `prefix` followed by `rest`.
fn joined(prefix: &str, rest: String) -> (r: String)
    ensures
        r@ == prefix@ + rest@,
{
    let mut s = String::from_str(prefix);
    s.append(rest.as_str());
    s
}

/// The activity shown for an agent event.
pub fn to_agent_activity_event(event: &AgentEvent) -> (r: AskActivityEvent)
    ensures
        activity_view(r) == agent_activity(*event),
{
    match event {
        AgentEvent::AgentStart => activity("agent_start", String::from_str("开始处理"), None),
        AgentEvent::ThinkingDelta => activity("thinking", String::from_str("正在思考"), None),
        AgentEvent::ToolCallStart { name } => activity(
            "tool_call_start",
            joined("准备使用工具：", tool_label(name.as_str())),
            Some(name.clone()),
        ),
        AgentEvent::ToolExecutionStart { tool_name } => activity(
            "tool_execution_start",
            joined("正在", tool_action(tool_name.as_str())),
            Some(tool_name.clone()),
        ),
        AgentEvent::ToolExecutionEnd { error } => {
            let label = match error {
                None => String::from_str("工具执行完成"),
                Some(_) => String::from_str("工具执行失败"),
            };
            let detail = match error {
                Some(m) => Some(m.clone()),
                None => None,
            };
            activity("tool_execution_end", label, detail)
        },
        AgentEvent::TextDelta => activity("answering", String::from_str("正在生成回答"), None),
        AgentEvent::MessageUpdate => activity("answering", String::from_str("正在生成回答"), None),
        AgentEvent::AgentEnd => activity("agent_end", String::from_str("完成"), None),
        AgentEvent::Error(m) => activity("error", String::from_str("处理失败"), Some(m.clone())),
        AgentEvent::Other => activity("running", String::from_str("正在处理"), None),
    }
}

/// The activity shown for a harness event.
pub fn to_activity_event(event: &HarnessEvent) -> (r: AskActivityEvent)
    ensures
        activity_view(r) == harness_activity(*event),
{
    match event {
        HarnessEvent::Agent(a) => to_agent_activity_event(a),
        HarnessEvent::ToolCallStart { tool_name } => activity(
            "tool_call_start",
            joined("准备使用工具：", tool_label(tool_name.as_str())),
            Some(tool_name.clone()),
        ),
        HarnessEvent::ToolCallEnd { tool_name, is_error } => {
            let label = if *is_error {
                String::from_str("工具执行失败")
            } else {
                String::from_str("工具执行完成")
            };
            activity("tool_execution_end", label, Some(tool_name.clone()))
        },
        HarnessEvent::Settled => activity("agent_end", String::from_str("完成"), None),
        HarnessEvent::SavePoint => activity("save_point", String::from_str("正在保存会话"), None),
        HarnessEvent::PhaseChange => activity("running", String::from_str("正在处理"), None),
        HarnessEvent::Other => activity("running", String::from_str("正在处理"), None),
    }
}

} // verus!
