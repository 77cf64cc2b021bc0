use rcode::agent::{Agent, ChatMessage, ChatStep, ChatTurn, FinishReason, StreamDelta, ToolAction, ToolError};
use rcode::config::{AgentConfig, Config, LlmConfig};
use rcode::tool_calls::{FunctionCall, FunctionCallStream, ToolCall, ToolCallChunk, ToolCallError};

fn config() -> Config {
    Config {
        llm: LlmConfig { api_key: "k".to_string(), api_base: "https://example.test".to_string() },
        agent: AgentConfig { model: "m".to_string(), system_prompt: "be brief".to_string() },
    }
}

fn text(s: &str) -> StreamDelta {
    StreamDelta { content: Some(s.to_string()), tool_calls: None, finish_reason: None }
}

fn call(name: &str, arguments: &str) -> ToolCall {
    ToolCall {
        id: "id1".to_string(),
        function: FunctionCall { name: name.to_string(), arguments: arguments.to_string() },
    }
}

#[test]
fn new_agent_starts_with_the_system_prompt() {
    let agent = Agent::new(config());
    assert_eq!(agent.model(), "m");
    assert_eq!(agent.messages().len(), 1);
    assert!(matches!(&agent.messages()[0], ChatMessage::System(s) if s == "be brief"));
    assert_eq!(agent.tools().len(), 1);
    assert_eq!(agent.tools()[0].name, "execute_command");
    assert!(agent.tools()[0].strict);
    let schema: serde_json::Value = serde_json::from_str(&agent.tools()[0].parameters).unwrap();
    assert_eq!(schema["required"][0], "command");
}

#[test]
fn clear_keeps_only_the_system_prompt() {
    let mut agent = Agent::new(config());
    agent.push_user_message("hi");
    agent.push_assistant_message("hello\n".to_string());
    agent.push_tool_calls(vec![call("execute_command", "{}")]);
    agent.push_tool_result("out".to_string(), "id1".to_string());
    assert_eq!(agent.messages().len(), 5);
    agent.clear();
    assert_eq!(agent.messages().len(), 1);
    assert!(matches!(&agent.messages()[0], ChatMessage::System(s) if s == "be brief"));
    agent.clear();
    assert_eq!(agent.messages().len(), 1);
}

#[test]
fn stop_finishes_with_a_newline() {
    let mut turn = ChatTurn::new();
    assert!(matches!(turn.push_delta(text("Hel")), ChatStep::Continue));
    assert!(matches!(turn.push_delta(text("lo")), ChatStep::Continue));
    let step = turn.push_delta(StreamDelta { content: None, tool_calls: None, finish_reason: Some(FinishReason::Stop) });
    match step {
        ChatStep::Finished { content, newline_added } => {
            assert_eq!(content, "Hello\n");
            assert!(newline_added);
        }
        _ => panic!("expected a finished reply"),
    }
}

#[test]
fn stop_keeps_an_existing_newline() {
    let mut turn = ChatTurn::new();
    let step = turn.push_delta(StreamDelta {
        content: Some("done\n".to_string()),
        tool_calls: None,
        finish_reason: Some(FinishReason::Stop),
    });
    match step {
        ChatStep::Finished { content, newline_added } => {
            assert_eq!(content, "done\n");
            assert!(!newline_added);
        }
        _ => panic!("expected a finished reply"),
    }
}

#[test]
fn other_finish_reasons_continue() {
    let mut turn = ChatTurn::new();
    let step = turn.push_delta(StreamDelta { content: Some("x".to_string()), tool_calls: None, finish_reason: Some(FinishReason::Other) });
    assert!(matches!(step, ChatStep::Continue));
}

#[test]
fn tool_calls_are_assembled_on_finish() {
    let mut turn = ChatTurn::new();
    let first = StreamDelta {
        content: None,
        tool_calls: Some(vec![ToolCallChunk {
            index: 0,
            id: Some("c1".to_string()),
            function: Some(FunctionCallStream { name: Some("execute_command".to_string()), arguments: Some("{\"command\":".to_string()) }),
        }]),
        finish_reason: None,
    };
    assert!(matches!(turn.push_delta(first), ChatStep::Continue));
    let last = StreamDelta {
        content: None,
        tool_calls: Some(vec![ToolCallChunk {
            index: 0,
            id: None,
            function: Some(FunctionCallStream { name: None, arguments: Some(" \"ls\"}".to_string()) }),
        }]),
        finish_reason: Some(FinishReason::ToolCalls),
    };
    match turn.push_delta(last) {
        ChatStep::CallTools(calls) => {
            assert_eq!(calls.len(), 1);
            assert_eq!(calls[0].id, "c1");
            assert_eq!(calls[0].function.arguments, "{\"command\": \"ls\"}");
        }
        _ => panic!("expected tool calls"),
    }
}

#[test]
fn incomplete_tool_calls_fail() {
    let mut turn = ChatTurn::new();
    let only = StreamDelta {
        content: None,
        tool_calls: Some(vec![ToolCallChunk { index: 0, id: None, function: None }]),
        finish_reason: Some(FinishReason::ToolCalls),
    };
    assert!(matches!(turn.push_delta(only), ChatStep::Failed(ToolCallError::MissingId)));
}

#[test]
fn tool_action_reads_the_command() {
    let agent = Agent::new(config());
    match agent.tool_action(&call("execute_command", "{\"command\": \"echo hi\"}")) {
        Ok(ToolAction::ExecuteCommand { command }) => assert_eq!(command, "echo hi"),
        other => panic!("unexpected {:?}", other),
    }
}

#[test]
fn tool_action_errors() {
    let agent = Agent::new(config());
    let missing = agent.tool_action(&call("execute_command", "{\"cmd\": \"ls\"}"));
    assert!(matches!(missing, Err(ToolError::MissingCommand)));
    assert_eq!(missing.unwrap_err().message(), "Missing command");

    let unknown = agent.tool_action(&call("rm_rf", "{}"));
    assert!(matches!(&unknown, Err(ToolError::UnknownTool(n)) if n == "rm_rf"));
    assert_eq!(unknown.unwrap_err().message(), "Unknown tool: rm_rf");

    let invalid = agent.tool_action(&call("rm_rf", "not json"));
    match invalid {
        Err(ToolError::InvalidArguments(m)) => assert!(!m.is_empty()),
        other => panic!("unexpected {:?}", other),
    }
}

#[test]
fn non_string_command_is_missing() {
    let agent = Agent::new(config());
    let r = agent.tool_action(&call("execute_command", "{\"command\": 3}"));
    assert!(matches!(r, Err(ToolError::MissingCommand)));
}

fn command_call(id: &str, command: &str) -> ToolCall {
    ToolCall {
        id: id.to_string(),
        function: FunctionCall {
            name: "execute_command".to_string(),
            arguments: format!("{{\"command\":\"{}\"}}", command),
        },
    }
}

#[test]
fn tool_calls_are_recorded_then_each_result_in_order() {
    let mut agent = Agent::new(config());
    agent.push_user_message("list");
    let calls = vec![command_call("a", "ls"), command_call("b", "pwd")];
    let r = agent.run_tool_calls(calls, |command: &str| Ok(format!("ran {}", command)));
    assert_eq!(r, Ok(()));
    let m = agent.messages();
    assert_eq!(m.len(), 5);
    assert!(matches!(&m[1], ChatMessage::User(s) if s == "list"));
    assert!(matches!(&m[2], ChatMessage::AssistantToolCalls(c) if c.len() == 2 && c[0].id == "a" && c[1].id == "b"));
    assert!(matches!(&m[3], ChatMessage::Tool { content, tool_call_id } if content == "ran ls" && tool_call_id == "a"));
    assert!(matches!(&m[4], ChatMessage::Tool { content, tool_call_id } if content == "ran pwd" && tool_call_id == "b"));
}

#[test]
fn a_failing_command_stops_the_run() {
    let mut agent = Agent::new(config());
    let calls = vec![command_call("a", "ls"), command_call("b", "boom"), command_call("c", "pwd")];
    let r = agent.run_tool_calls(calls, |command: &str| {
        if command == "boom" { Err("it failed".to_string()) } else { Ok("fine".to_string()) }
    });
    assert_eq!(r, Err("it failed".to_string()));
    let m = agent.messages();
    assert_eq!(m.len(), 3);
    assert!(matches!(&m[1], ChatMessage::AssistantToolCalls(c) if c.len() == 3));
    assert!(matches!(&m[2], ChatMessage::Tool { tool_call_id, .. } if tool_call_id == "a"));
}

#[test]
fn an_unknown_tool_stops_the_run_with_its_message() {
    let mut agent = Agent::new(config());
    let calls = vec![call("browse", "{\"command\":\"x\"}")];
    let r = agent.run_tool_calls(calls, |_command: &str| Ok("never".to_string()));
    assert_eq!(r, Err("Unknown tool: browse".to_string()));
    assert_eq!(agent.messages().len(), 2);
}
