use xai_gork_telegram::acp::{
    agent_line, read_agent_line,
    attach_params, initialize_params, prompt_finish, prompt_params, request_line, response_line,
    attach_first, attach_method, attach_next, attached_id, choose_agent_bin, classify_incoming,
    line_incoming, parse_server_request, result_session_id, result_stop_reason,
    session_update_event, stdout_closed_event, AcpEvent, AgentBin, AttachStep, Incoming,
    ServerRequest,
};
use xai_gork_telegram::json::{Json, JsonNumber};

fn to_json(v: &serde_json::Value) -> Json {
    match v {
        serde_json::Value::Null => Json::Null,
        serde_json::Value::Bool(b) => Json::Bool(*b),
        serde_json::Value::Number(n) => {
            if let Some(u) = n.as_u64() {
                Json::Number(JsonNumber::PosInt(u))
            } else if let Some(i) = n.as_i64() {
                Json::Number(JsonNumber::NegInt(i))
            } else {
                Json::Number(JsonNumber::Float(n.to_string()))
            }
        }
        serde_json::Value::String(s) => Json::Str(s.clone()),
        serde_json::Value::Array(a) => Json::Array(a.iter().map(to_json).collect()),
        serde_json::Value::Object(m) => {
            Json::Object(m.iter().map(|(k, v)| (k.clone(), to_json(v))).collect())
        }
    }
}

fn parse(text: &str) -> Json {
    to_json(&serde_json::from_str::<serde_json::Value>(text).unwrap())
}

#[test]
fn parse_permission_fixture() {
    let msg = parse(
        r#"{
            "jsonrpc": "2.0",
            "id": 42,
            "method": "session/request_permission",
            "params": {
                "toolCall": { "title": "run_terminal_command" },
                "options": [
                    { "optionId": "allow-once", "name": "Allow once" },
                    { "optionId": "reject-once", "name": "Deny" }
                ]
            }
        }"#,
    );
    match parse_server_request(&msg).unwrap() {
        ServerRequest::Permission {
            tool_title,
            options,
            ..
        } => {
            assert_eq!(tool_title, "run_terminal_command");
            assert_eq!(options.len(), 2);
            assert_eq!(options[0].0, "allow-once");
        }
        _ => panic!("expected permission"),
    }
}

#[test]
fn permission_defaults() {
    let msg = parse(
        r#"{"id": "abc", "method": "session/request_permission",
            "params": {"tool_call": {"toolCallId": "t-1"},
                       "options": [{"option_id": "o1"}, {"id": 5, "label": "L"}, "junk"]}}"#,
    );
    match parse_server_request(&msg).unwrap() {
        ServerRequest::Permission { id, tool_title, options } => {
            assert_eq!(id, Json::Str("abc".into()));
            assert_eq!(tool_title, "t-1");
            assert_eq!(
                options,
                vec![
                    ("o1".to_string(), "o1".to_string()),
                    ("opt".to_string(), "L".to_string()),
                    ("opt".to_string(), "opt".to_string()),
                ]
            );
        }
        _ => panic!("expected permission"),
    }
    let bare = parse(r#"{"id": 1, "method": "session/request_permission"}"#);
    match parse_server_request(&bare).unwrap() {
        ServerRequest::Permission { tool_title, options, .. } => {
            assert_eq!(tool_title, "tool");
            assert!(options.is_empty());
        }
        _ => panic!("expected permission"),
    }
}

#[test]
fn ask_user_question_reads_first_question() {
    let msg = parse(
        r#"{"id": 7, "method": "x.ai/ask_user_question",
            "params": {"questions": [{"question": "Which?", "options": [{"label": "A"}, {"name": "B"}, {}]}]}}"#,
    );
    match parse_server_request(&msg).unwrap() {
        ServerRequest::AskUser { question, options, .. } => {
            assert_eq!(question, "Which?");
            assert_eq!(
                options,
                vec![
                    ("0".to_string(), "A".to_string()),
                    ("1".to_string(), "B".to_string()),
                    ("2".to_string(), "opt".to_string()),
                ]
            );
        }
        _ => panic!("expected question"),
    }
    let flat = parse(r#"{"id": 8, "method": "ask_user_question", "params": {"options": [{"label": "Z"}]}}"#);
    match parse_server_request(&flat).unwrap() {
        ServerRequest::AskUser { question, options, .. } => {
            assert_eq!(question, "Choose:");
            assert_eq!(options, vec![("0".to_string(), "Z".to_string())]);
        }
        _ => panic!("expected question"),
    }
}

#[test]
fn exit_plan_takes_at_most_1500_chars() {
    let text = "é".repeat(1600);
    let msg = parse(&format!(
        r#"{{"id": 9, "method": "x.ai/exit_plan_mode", "params": {{"plan_content": "{text}"}}}}"#
    ));
    match parse_server_request(&msg).unwrap() {
        ServerRequest::ExitPlan { plan_excerpt, .. } => {
            assert_eq!(plan_excerpt, "é".repeat(1500));
        }
        _ => panic!("expected plan"),
    }
}

#[test]
fn other_methods_and_missing_parts() {
    let msg = parse(r#"{"id": 1, "method": "fs/read_text_file"}"#);
    match parse_server_request(&msg).unwrap() {
        ServerRequest::Other { method, id } => {
            assert_eq!(method, "fs/read_text_file");
            assert_eq!(id, Json::Number(JsonNumber::PosInt(1)));
        }
        _ => panic!("expected other"),
    }
    assert!(parse_server_request(&parse(r#"{"method": "x"}"#)).is_none());
    assert!(parse_server_request(&parse(r#"{"id": 1, "method": 3}"#)).is_none());
}

#[test]
fn session_updates_become_events() {
    let chunk = parse(
        r#"{"method": "session/update", "params": {"update": {"sessionUpdate": "agent_message_chunk", "content": {"text": "hi"}}}}"#,
    );
    match session_update_event(&chunk) {
        Some(AcpEvent::AgentText(t)) => assert_eq!(t, "hi"),
        other => panic!("unexpected {other:?}"),
    }
    let tool = parse(r#"{"method": "session/update", "params": {"session_update": "tool_call", "toolCallId": "c1"}}"#);
    match session_update_event(&tool) {
        Some(AcpEvent::ToolTitle(t)) => assert_eq!(t, "c1"),
        other => panic!("unexpected {other:?}"),
    }
    let other = parse(r#"{"method": "session/update", "params": {"update": {"sessionUpdate": "plan"}}}"#);
    assert!(session_update_event(&other).is_none());
}

#[test]
fn incoming_lines_are_classified() {
    match classify_incoming(&parse(r#"{"id": 3, "result": {"sessionId": "s-1"}}"#)) {
        Incoming::Reply { id, error, result } => {
            assert_eq!(id, 3);
            assert!(error.is_none());
            assert_eq!(result_session_id(&result), Some("s-1".to_string()));
        }
        other => panic!("unexpected {other:?}"),
    }
    match classify_incoming(&parse(r#"{"id": 4, "error": {"code": -1}}"#)) {
        Incoming::Reply { error, result, .. } => {
            assert!(error.is_some());
            assert_eq!(result, Json::Null);
        }
        other => panic!("unexpected {other:?}"),
    }
    match classify_incoming(&parse(r#"{"id": 5, "method": "session/request_permission"}"#)) {
        Incoming::Request(ServerRequest::Permission { .. }) => {}
        other => panic!("unexpected {other:?}"),
    }
    match classify_incoming(&parse(
        r#"{"method": "session/update", "params": {"sessionUpdate": "agent_message_chunk", "text": "yo"}}"#,
    )) {
        Incoming::Event(AcpEvent::AgentText(t)) => assert_eq!(t, "yo"),
        other => panic!("unexpected {other:?}"),
    }
    // a string id is not a reply
    match classify_incoming(&parse(r#"{"id": "x", "result": 1}"#)) {
        Incoming::Ignored => {}
        other => panic!("unexpected {other:?}"),
    }
}

#[test]
fn stop_reason_defaults_to_ok() {
    assert_eq!(result_stop_reason(&parse(r#"{"stopReason": "end_turn"}"#)), "end_turn");
    assert_eq!(result_stop_reason(&parse(r#"{"stop_reason": "cancelled"}"#)), "cancelled");
    assert_eq!(result_stop_reason(&parse(r#"{}"#)), "ok");
    assert_eq!(result_session_id(&parse(r#"{"session_id": 5}"#)), None);
}

#[test]
fn attach_tries_load_then_resume_then_new() {
    assert_eq!(attach_first(Some("s1")), AttachStep::Load);
    assert_eq!(attach_first(None), AttachStep::New);
    assert_eq!(attach_next(AttachStep::Load, false), Some(AttachStep::Resume));
    assert_eq!(attach_next(AttachStep::Resume, false), Some(AttachStep::New));
    assert_eq!(attach_next(AttachStep::New, false), None);
    assert_eq!(attach_next(AttachStep::Load, true), None);
    assert_eq!(attach_next(AttachStep::Resume, true), None);
    assert_eq!(attach_next(AttachStep::New, true), None);
    assert_eq!(attach_method(AttachStep::Load), "session/load");
    assert_eq!(attach_method(AttachStep::Resume), "session/resume");
    assert_eq!(attach_method(AttachStep::New), "session/new");
    let req = Some("wanted".to_string());
    let made = Some("created".to_string());
    assert_eq!(attached_id(AttachStep::Load, req.clone(), made.clone()).as_deref(), Some("wanted"));
    assert_eq!(attached_id(AttachStep::Resume, req.clone(), made.clone()).as_deref(), Some("wanted"));
    assert_eq!(attached_id(AttachStep::New, req, made).as_deref(), Some("created"));
}

#[test]
fn agent_binary_choice_order() {
    assert_eq!(choose_agent_bin(true, true, true, true), AgentBin::Explicit);
    assert_eq!(choose_agent_bin(false, true, true, true), AgentBin::Env);
    assert_eq!(choose_agent_bin(false, false, true, true), AgentBin::SiblingGork);
    assert_eq!(choose_agent_bin(false, false, false, true), AgentBin::SiblingGrok);
    // no sibling agent: `gork` on PATH, never this program itself
    assert_eq!(choose_agent_bin(false, false, false, false), AgentBin::OnPath);
}

#[test]
fn reader_lines() {
    assert!(line_incoming("   ", Err("EOF while parsing".to_string())).is_none());
    match line_incoming("{oops", Err("key must be a string".to_string())) {
        Some(Incoming::Event(AcpEvent::Error(m))) => assert_eq!(m, "bad json: key must be a string"),
        other => panic!("unexpected {other:?}"),
    }
    let reply = Json::Object(vec![
        ("id".into(), Json::Number(JsonNumber::PosInt(3))),
        ("result".into(), Json::Null),
    ]);
    match line_incoming(r#"{"id":3,"result":null}"#, Ok(reply)) {
        Some(Incoming::Reply { id, error, result }) => {
            assert_eq!(id, 3);
            assert!(error.is_none());
            assert_eq!(result, Json::Null);
        }
        other => panic!("unexpected {other:?}"),
    }
    match stdout_closed_event() {
        AcpEvent::Error(m) => assert_eq!(m, "agent stdout closed"),
        other => panic!("unexpected {other:?}"),
    }
}

fn obj(members: Vec<(&str, Json)>) -> Json {
    Json::Object(members.into_iter().map(|(k, v)| (k.to_string(), v)).collect())
}

fn st(s: &str) -> Json {
    Json::Str(s.to_string())
}

#[test]
fn attach_request_params() {
    let load = attach_params(AttachStep::Load, Some("s1"), "/w").unwrap();
    let expected = obj(vec![("sessionId", st("s1")), ("cwd", st("/w")), ("mcpServers", Json::Array(vec![]))]);
    assert_eq!(load, expected);
    // a resume repeats the load's params
    assert_eq!(attach_params(AttachStep::Resume, Some("s1"), "/w").unwrap(), expected);
    assert!(attach_params(AttachStep::Load, None, "/w").is_none());
    assert!(attach_params(AttachStep::Resume, None, "/w").is_none());
    assert_eq!(
        attach_params(AttachStep::New, Some("ignored"), "/w").unwrap(),
        obj(vec![("cwd", st("/w")), ("mcpServers", Json::Array(vec![]))])
    );
}

#[test]
fn prompt_request_and_end() {
    assert_eq!(prompt_params(None, "hi").unwrap_err(), "no session");
    assert_eq!(
        prompt_params(Some("s1"), "hi").unwrap(),
        obj(vec![
            ("sessionId", st("s1")),
            ("prompt", Json::Array(vec![obj(vec![("type", st("text")), ("text", st("hi"))])])),
        ])
    );
    let (outcome, events) = prompt_finish(Ok(obj(vec![("stop_reason", st("cancelled"))])));
    assert_eq!(outcome.unwrap(), "cancelled");
    assert_eq!(events.len(), 1);
    match &events[0] {
        AcpEvent::TurnDone { stop_reason } => assert_eq!(stop_reason, "cancelled"),
        other => panic!("unexpected {other:?}"),
    }
    let (outcome, events) = prompt_finish(Ok(Json::Null));
    assert_eq!(outcome.unwrap(), "ok");
    assert_eq!(events.len(), 1);
    let (outcome, events) = prompt_finish(Err("timeout".to_string()));
    assert_eq!(outcome.unwrap_err(), "timeout");
    assert!(events.is_empty());
}

#[test]
fn protocol_lines() {
    assert_eq!(
        initialize_params(),
        obj(vec![
            ("protocolVersion", Json::Number(JsonNumber::PosInt(1))),
            (
                "clientCapabilities",
                obj(vec![
                    ("fs", obj(vec![("readTextFile", Json::Bool(false)), ("writeTextFile", Json::Bool(false))])),
                    ("terminal", Json::Bool(false)),
                ])
            ),
            ("clientInfo", obj(vec![("name", st("gork-telegram")), ("version", st("0.1.0"))])),
        ])
    );
    assert_eq!(
        request_line(7, "session/new", Json::Null),
        obj(vec![
            ("jsonrpc", st("2.0")),
            ("id", Json::Number(JsonNumber::PosInt(7))),
            ("method", st("session/new")),
            ("params", Json::Null),
        ])
    );
    assert_eq!(
        response_line(st("q1"), Json::Bool(true)),
        obj(vec![("jsonrpc", st("2.0")), ("id", st("q1")), ("result", Json::Bool(true))])
    );
}

#[test]
fn agent_lines_are_parsed_and_written() {
    assert!(read_agent_line("   ").is_none());
    match read_agent_line("{oops") {
        Some(Incoming::Event(AcpEvent::Error(m))) => assert!(m.starts_with("bad json: "), "{m}"),
        other => panic!("unexpected {other:?}"),
    }
    match read_agent_line(r#"{"jsonrpc":"2.0","id":4,"result":{"stopReason":"end_turn"}}"#) {
        Some(Incoming::Reply { id, error, result }) => {
            assert_eq!(id, 4);
            assert!(error.is_none());
            assert_eq!(result, obj(vec![("stopReason", st("end_turn"))]));
        }
        other => panic!("unexpected {other:?}"),
    }
    match read_agent_line(
        r#"{"method":"session/update","params":{"update":{"sessionUpdate":"agent_message_chunk","content":{"text":"hi"}}}}"#,
    ) {
        Some(Incoming::Event(AcpEvent::AgentText(t))) => assert_eq!(t, "hi"),
        other => panic!("unexpected {other:?}"),
    }
    let line = agent_line(&request_line(7, "session/new", Json::Null)).unwrap();
    assert_eq!(line, "{\"id\":7,\"jsonrpc\":\"2.0\",\"method\":\"session/new\",\"params\":null}\n");
    let line = agent_line(&response_line(st("q"), Json::Number(JsonNumber::NegInt(-2)))).unwrap();
    assert_eq!(line, "{\"id\":\"q\",\"jsonrpc\":\"2.0\",\"result\":-2}\n");
}
