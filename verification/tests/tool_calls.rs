use rcode::agent::Agent;
use rcode::tool_calls::{FunctionCall, FunctionCallStream, ToolCall, ToolCallChunk, ToolCallError};

fn chunk(index: u32, id: Option<&str>, name: Option<&str>, arguments: Option<&str>) -> ToolCallChunk {
    ToolCallChunk {
        index,
        id: id.map(|s| s.to_string()),
        function: if name.is_none() && arguments.is_none() {
            None
        } else {
            Some(FunctionCallStream {
                name: name.map(|s| s.to_string()),
                arguments: arguments.map(|s| s.to_string()),
            })
        },
    }
}

#[test]
fn single_tool_call_from_chunks() {
    let chunks = vec![
        ToolCallChunk {
            index: 0,
            id: Some("call_1".to_string()),
            function: Some(FunctionCallStream {
                name: Some("execute_command".to_string()),
                arguments: None,
            }),
        },
        ToolCallChunk {
            index: 0,
            id: None,
            function: Some(FunctionCallStream {
                name: None,
                arguments: Some("{\"command\": \"ls\"}".to_string()),
            }),
        },
    ];

    let tool_calls = Agent::build_tool_calls(chunks);
    assert!(tool_calls.is_ok());

    let tool_calls = tool_calls.unwrap();
    assert_eq!(tool_calls.len(), 1);

    assert_eq!(
        tool_calls[0],
        ToolCall {
            id: "call_1".to_string(),
            function: FunctionCall {
                name: "execute_command".to_string(),
                arguments: "{\"command\": \"ls\"}".to_string(),
            },
        }
    );
}

#[test]
fn multiple_tool_calls_from_chunks() {
    let chunks = vec![
        ToolCallChunk {
            index: 0,
            id: Some("call_1".to_string()),
            function: Some(FunctionCallStream {
                name: Some("execute_command".to_string()),
                arguments: None,
            }),
        },
        ToolCallChunk {
            index: 0,
            id: None,
            function: Some(FunctionCallStream {
                name: None,
                arguments: Some("{\"command\": \"ls\"}".to_string()),
            }),
        },
        ToolCallChunk {
            index: 1,
            id: Some("call_2".to_string()),
            function: Some(FunctionCallStream {
                name: Some("execute_command".to_string()),
                arguments: None,
            }),
        },
        ToolCallChunk {
            index: 1,
            id: None,
            function: Some(FunctionCallStream {
                name: None,
                arguments: Some("{\"command\": \"ls".to_string()),
            }),
        },
        ToolCallChunk {
            index: 1,
            id: None,
            function: Some(FunctionCallStream {
                name: None,
                arguments: Some(" -al\"}".to_string()),
            }),
        },
    ];

    let tool_calls = Agent::build_tool_calls(chunks);
    assert!(tool_calls.is_ok());

    let tool_calls = tool_calls.unwrap();
    assert_eq!(tool_calls.len(), 2);

    assert_eq!(
        tool_calls[0],
        ToolCall {
            id: "call_1".to_string(),
            function: FunctionCall {
                name: "execute_command".to_string(),
                arguments: "{\"command\": \"ls\"}".to_string(),
            },
        }
    );
    assert_eq!(
        tool_calls[1],
        ToolCall {
            id: "call_2".to_string(),
            function: FunctionCall {
                name: "execute_command".to_string(),
                arguments: "{\"command\": \"ls -al\"}".to_string(),
            },
        }
    );
}

#[test]
fn no_chunks_no_calls() {
    assert_eq!(Agent::build_tool_calls(Vec::new()), Ok(Vec::new()));
}

#[test]
fn calls_come_out_in_index_order() {
    let chunks = vec![
        chunk(7, Some("b"), Some("f"), Some("2")),
        chunk(3, Some("a"), Some("g"), Some("1")),
        chunk(7, None, None, Some("x")),
    ];
    let calls = Agent::build_tool_calls(chunks).unwrap();
    assert_eq!(calls.len(), 2);
    assert_eq!(calls[0].id, "a");
    assert_eq!(calls[0].function.name, "g");
    assert_eq!(calls[0].function.arguments, "1");
    assert_eq!(calls[1].id, "b");
    assert_eq!(calls[1].function.name, "f");
    assert_eq!(calls[1].function.arguments, "2x");
}

#[test]
fn later_id_and_name_win() {
    let chunks = vec![
        chunk(0, Some("first"), Some("one"), None),
        chunk(0, Some("second"), Some("two"), None),
        chunk(0, None, None, None),
    ];
    let calls = Agent::build_tool_calls(chunks).unwrap();
    assert_eq!(calls.len(), 1);
    assert_eq!(calls[0].id, "second");
    assert_eq!(calls[0].function.name, "two");
    assert_eq!(calls[0].function.arguments, "");
}

#[test]
fn missing_id_is_an_error() {
    let chunks = vec![chunk(0, None, Some("execute_command"), Some("{}"))];
    assert_eq!(Agent::build_tool_calls(chunks), Err(ToolCallError::MissingId));
}

#[test]
fn missing_name_is_an_error() {
    let chunks = vec![chunk(0, Some("id"), None, Some("{}"))];
    assert_eq!(Agent::build_tool_calls(chunks), Err(ToolCallError::MissingName));
}

#[test]
fn first_incomplete_call_decides_the_error() {
    // Index 1 has no name, index 2 has no id: index 1 comes first.
    let chunks = vec![
        chunk(2, None, Some("n"), None),
        chunk(1, Some("i"), None, None),
        chunk(0, Some("ok"), Some("ok"), None),
    ];
    assert_eq!(Agent::build_tool_calls(chunks), Err(ToolCallError::MissingName));
}

#[test]
fn arguments_may_be_split_anywhere() {
    // law: splitting a chunk's arguments over two chunks gives the same calls.
    let whole = vec![chunk(0, Some("c"), Some("execute_command"), Some("{\"command\": \"pwd\"}"))];
    let split = vec![
        chunk(0, Some("c"), Some("execute_command"), Some("{\"comm")),
        chunk(0, None, None, Some("and\": \"pwd\"}")),
    ];
    assert_eq!(Agent::build_tool_calls(whole), Agent::build_tool_calls(split));
}

#[test]
fn interleaved_calls_give_the_same_result() {
    // law: chunks of different calls may arrive in any order.
    let a = vec![
        chunk(0, Some("x"), Some("f"), Some("1")),
        chunk(1, Some("y"), Some("g"), Some("2")),
        chunk(0, None, None, Some("3")),
    ];
    let b = vec![
        chunk(1, Some("y"), Some("g"), Some("2")),
        chunk(0, Some("x"), Some("f"), Some("1")),
        chunk(0, None, None, Some("3")),
    ];
    assert_eq!(Agent::build_tool_calls(a), Agent::build_tool_calls(b));
}

#[test]
fn any_interleaving_that_keeps_each_call_in_order_assembles_alike() {
    let first = vec![
        chunk(2, Some("b"), Some("execute_command"), Some("{\"comm")),
        chunk(0, Some("a"), Some("execute_command"), Some("{\"command\"")),
        chunk(2, None, None, Some("and\":\"ls\"}")),
        chunk(1, Some("c"), Some("other"), None),
        chunk(0, None, None, Some(":\"pwd\"}")),
    ];
    let second = vec![
        chunk(0, Some("a"), Some("execute_command"), Some("{\"command\"")),
        chunk(1, Some("c"), Some("other"), None),
        chunk(0, None, None, Some(":\"pwd\"}")),
        chunk(2, Some("b"), Some("execute_command"), Some("{\"comm")),
        chunk(2, None, None, Some("and\":\"ls\"}")),
    ];
    let a = Agent::build_tool_calls(first).unwrap();
    let b = Agent::build_tool_calls(second).unwrap();
    assert_eq!(a, b);
    let ids: Vec<&str> = a.iter().map(|c| c.id.as_str()).collect();
    assert_eq!(ids, vec!["a", "c", "b"]);
    assert_eq!(a[0].function.arguments, "{\"command\":\"pwd\"}");
    assert_eq!(a[2].function.arguments, "{\"command\":\"ls\"}");
}
