use spruce_grove::acp::{
    agent_gone_event, agent_reply, call_error_text, call_outcome, check_prompt_session, chunk_text,
    classify, first_allow_option, handshake_next, handshake_start, line_payload, load_resumed,
    option_id_to_render, parse_session_new, prompt_request, route, HandshakeStage, HandshakeStep,
    Incoming, Route,
};
use spruce_grove::json::{Json, JsonNumber, Member};

/// The compact JSON text of a value, members in the order they were built.
fn to_json_text(j: &Json) -> String {
    match j {
        Json::Null => "null".to_string(),
        Json::Bool(b) => b.to_string(),
        Json::Number(JsonNumber::PosInt(u)) => u.to_string(),
        Json::Number(JsonNumber::NegInt(i)) => i.to_string(),
        Json::Number(JsonNumber::Float(t)) => t.clone(),
        Json::Str(s) => serde_json::Value::String(s.clone()).to_string(),
        Json::Array(a) => format!("[{}]", a.iter().map(to_json_text).collect::<Vec<_>>().join(",")),
        Json::Object(m) => {
            let members: Vec<String> = m
                .iter()
                .map(|x| format!("{}:{}", serde_json::Value::String(x.key.clone()), to_json_text(&x.value)))
                .collect();
            format!("{{{}}}", members.join(","))
        }
    }
}

fn obj(pairs: Vec<(&str, Json)>) -> Json {
    Json::Object(
        pairs
            .into_iter()
            .map(|(k, v)| Member { key: k.to_string(), value: v })
            .collect(),
    )
}

fn s(x: &str) -> Json {
    Json::from_str(x)
}

#[test]
fn classify_routes_all_three_shapes() {
    let resp = obj(vec![
        ("jsonrpc", s("2.0")),
        ("id", Json::uint(7)),
        ("result", obj(vec![("stopReason", s("end_turn"))])),
    ]);
    assert!(matches!(classify(&resp), Incoming::Response(7, _)));

    let req = obj(vec![
        ("jsonrpc", s("2.0")),
        ("id", Json::uint(3)),
        ("method", s("session/request_permission")),
        ("params", obj(vec![])),
    ]);
    assert!(matches!(classify(&req), Incoming::AgentRequest(3, m, _) if m == "session/request_permission"));

    let note = obj(vec![
        ("jsonrpc", s("2.0")),
        ("method", s("session/update")),
        ("params", obj(vec![("update", obj(vec![("sessionUpdate", s("agent_message_chunk"))]))])),
    ]);
    assert!(matches!(classify(&note), Incoming::Notification(m, _) if m == "session/update"));
}

#[test]
fn chunk_text_extracts_deltas() {
    let params = obj(vec![
        ("sessionId", s("s")),
        (
            "update",
            obj(vec![
                ("sessionUpdate", s("agent_message_chunk")),
                ("content", obj(vec![("type", s("text")), ("text", s("ACP ONLINE."))])),
            ]),
        ),
    ]);
    assert_eq!(chunk_text(&params), "ACP ONLINE.");
}

#[test]
fn first_allow_prefers_allow_kind() {
    let opt = |id: &str, kind: &str| obj(vec![("optionId", s(id)), ("kind", s(kind))]);
    let params = obj(vec![(
        "options",
        Json::Array(vec![opt("deny1", "reject_once"), opt("ok1", "allow_once"), opt("ok2", "allow_always")]),
    )]);
    assert_eq!(first_allow_option(&params, None).as_deref(), Some("ok1"));
    let none = obj(vec![("options", Json::Array(vec![opt("only", "reject_once")]))]);
    assert_eq!(first_allow_option(&none, None).as_deref(), Some("only"));
}

#[test]
fn parse_session_new_reads_id_and_model() {
    let result = obj(vec![
        ("sessionId", s("sess_123")),
        (
            "configOptions",
            Json::Array(vec![obj(vec![("currentValue", s("syn:large:text")), ("options", Json::Array(vec![]))])]),
        ),
    ]);
    let (sid, model) = parse_session_new(&result);
    assert_eq!(sid.as_deref(), Some("sess_123"));
    assert_eq!(model.as_deref(), Some("syn:large:text"));
}

#[test]
fn blank_lines_are_not_messages() {
    assert_eq!(line_payload("   \n"), None);
    assert_eq!(line_payload("  {\"a\":1} \n"), Some("{\"a\":1}".to_string()));
}

#[test]
fn requests_and_replies_are_json_rpc() {
    let p = prompt_request(4, "sess", "hi");
    let t = to_json_text(&p);
    assert!(t.contains("\"jsonrpc\":\"2.0\""));
    assert!(t.contains("\"id\":4"));
    assert!(t.contains("\"method\":\"session/prompt\""));
    assert!(t.contains("\"sessionId\":\"sess\""));
    let reply = agent_reply(9, "fs/read_text_file", &obj(vec![]), None);
    assert!(to_json_text(&reply).contains("\"id\":9"));
    assert!(check_prompt_session(Some("a"), "a").is_ok());
    assert!(check_prompt_session(Some("a"), "b").is_err());
    assert!(check_prompt_session(None, "a").is_err());
}

#[test]
fn the_reader_routes_each_message() {
    let resp = obj(vec![("id", Json::uint(2)), ("result", Json::Null)]);
    assert!(matches!(route(classify(&resp), None), Route::Deliver(2, _)));
    let req = obj(vec![
        ("id", Json::uint(5)),
        ("method", s("session/request_permission")),
        ("params", obj(vec![("options", Json::Array(vec![obj(vec![("optionId", s("y")), ("kind", s("allow_once"))])]))])),
    ]);
    match route(classify(&req), None) {
        Route::Answer(reply, Some(ev)) => {
            assert_eq!(
                to_json_text(&reply),
                "{\"jsonrpc\":\"2.0\",\"id\":5,\"result\":{\"outcome\":{\"outcome\":\"selected\",\"optionId\":\"y\"}}}"
            );
            assert_eq!(ev.kind, "permission");
        }
        _ => panic!("a permission request is answered and raised"),
    }
    let other = obj(vec![("id", Json::uint(6)), ("method", s("fs/write"))]);
    match route(classify(&other), None) {
        Route::Answer(reply, None) => {
            assert_eq!(
                to_json_text(&reply),
                "{\"jsonrpc\":\"2.0\",\"id\":6,\"error\":{\"code\":-32601,\"message\":\"method not supported by this client\"}}"
            );
        }
        _ => panic!("an unknown request is refused, not ignored"),
    }
    let note = obj(vec![
        ("method", s("session/update")),
        ("params", obj(vec![("update", obj(vec![("sessionUpdate", s("tool_call"))]))])),
    ]);
    match route(classify(&note), None) {
        Route::Emit(ev) => assert_eq!(ev.kind, "tool"),
        _ => panic!("a session update is raised"),
    }
    assert!(matches!(route(classify(&obj(vec![("method", s("other"))])), None), Route::Skip));
    assert!(matches!(route(classify(&Json::Null), None), Route::Skip));
}

#[test]
fn a_load_result_with_a_session_id_resumes() {
    let loaded = obj(vec![("sessionId", s("prev-1")), ("models", Json::Null)]);
    assert!(load_resumed(&Some(loaded)));
    assert!(!load_resumed(&Some(obj(vec![("models", Json::Null)]))));
    assert!(!load_resumed(&Some(Json::Null)));
    assert!(!load_resumed(&None));
}

#[test]
fn an_unknown_agent_request_gets_a_json_rpc_error() {
    let reply = agent_reply(12, "fs/read_text_file", &obj(vec![]), None);
    assert!(reply.get("result").is_none());
    let err = reply.get("error").expect("an error member");
    assert_eq!(err.get("code").and_then(|c| c.as_i64()), Some(-32601));
    assert_eq!(err.get("message").and_then(|m| m.as_str()), Some("method not supported by this client"));
    assert_eq!(reply.get("id").and_then(|i| i.as_u64()), Some(12));
}

#[test]
fn the_end_of_the_agent_output_is_an_error_event() {
    let ev = agent_gone_event();
    assert_eq!(ev.kind, "error");
    assert_eq!(ev.data.get("message").and_then(|m| m.as_str()), Some("the agent process exited"));
}

#[test]
fn a_non_string_option_id_is_answered_with_its_json_text() {
    let params = obj(vec![(
        "options",
        Json::Array(vec![obj(vec![("optionId", Json::uint(42)), ("kind", s("allow_once"))])]),
    )]);
    let v = option_id_to_render(&params).expect("the id needs its text");
    assert_eq!(to_json_text(&v), "42");
    assert_eq!(first_allow_option(&params, Some("42")).as_deref(), Some("42"));
    assert_eq!(first_allow_option(&params, None), None);
    let string_id = obj(vec![("options", Json::Array(vec![obj(vec![("optionId", s("y"))])]))]);
    assert!(option_id_to_render(&string_id).is_none());
}

#[test]
fn a_handshake_error_names_the_method() {
    let ok = obj(vec![("id", Json::uint(1)), ("result", obj(vec![("a", Json::uint(1))]))]);
    assert_eq!(to_json_text(&call_outcome(&ok).ok().unwrap()), "{\"a\":1}");
    let none = obj(vec![("id", Json::uint(1))]);
    assert!(matches!(call_outcome(&none), Ok(Json::Null)));
    let bad = obj(vec![("id", Json::uint(1)), ("error", obj(vec![("code", Json::uint(3))]))]);
    let e = call_outcome(&bad).err().unwrap();
    assert_eq!(call_error_text("session/load", &to_json_text(&e)), "session/load error: {\"code\":3}");
}

#[test]
fn the_handshake_resumes_or_falls_back() {
    let (stage, step) = handshake_start();
    assert_eq!(stage, HandshakeStage::Initialize);
    assert!(matches!(step, HandshakeStep::Call(ref m, _) if m == "initialize"));

    // with a previous session: load it
    let (stage, step) = handshake_next(stage, "/w", Some("prev-1"), Ok(obj(vec![])));
    assert_eq!(stage, HandshakeStage::Load);
    match step {
        HandshakeStep::Call(m, p) => {
            assert_eq!(m, "session/load");
            assert_eq!(to_json_text(&p), "{\"cwd\":\"/w\",\"sessionId\":\"prev-1\",\"mcpServers\":[]}");
        }
        _ => panic!("a load follows initialize"),
    }

    // a load whose result carries the id resumes
    let loaded = obj(vec![("sessionId", s("prev-1"))]);
    let (_, step) = handshake_next(HandshakeStage::Load, "/w", Some("prev-1"), Ok(loaded));
    assert!(matches!(step, HandshakeStep::Ready(ref id, None, true) if id == "prev-1"));

    // a failed load raises the resume-failed event and opens a new session
    let (stage, step) = handshake_next(HandshakeStage::Load, "/w", Some("prev-1"), Err("x".to_string()));
    assert_eq!(stage, HandshakeStage::New);
    match step {
        HandshakeStep::Announce(ev, m, _) => {
            assert_eq!(ev.kind, "error");
            assert_eq!(m, "session/new");
        }
        _ => panic!("a failed load falls back"),
    }

    // without a previous session: straight to session/new
    let (stage, step) = handshake_next(HandshakeStage::Initialize, "/w", None, Ok(Json::Null));
    assert_eq!(stage, HandshakeStage::New);
    assert!(matches!(step, HandshakeStep::Call(ref m, _) if m == "session/new"));
    let (_, step) = handshake_next(HandshakeStage::New, "/w", None, Ok(obj(vec![("sessionId", s("n1"))])));
    assert!(matches!(step, HandshakeStep::Ready(ref id, None, false) if id == "n1"));
    let (_, step) = handshake_next(HandshakeStage::New, "/w", None, Ok(obj(vec![])));
    assert!(matches!(step, HandshakeStep::Fail(ref e) if e == "session/new returned no sessionId"));
    let (_, step) = handshake_next(HandshakeStage::Initialize, "/w", None, Err("initialize timed out".to_string()));
    assert!(matches!(step, HandshakeStep::Fail(ref e) if e == "initialize timed out"));
}
