use tokenicode_core::inbound::parse_stdout_line;
use tokenicode_core::protocol::{
    ControlRequest, ControlRequestPayload, ControlResponse, StdoutMessage,
};
use tokenicode_core::relay::exit_marker_json;

#[test]
fn test_parse_can_use_tool() {
    let json = r#"{
        "type": "control_request",
        "request_id": "abc123",
        "request": {
            "subtype": "can_use_tool",
            "tool_name": "Bash",
            "input": {"command": "ls -la"},
            "description": "List files",
            "tool_use_id": "tu_001"
        }
    }"#;
    let msg = parse_stdout_line(json).unwrap();
    match msg {
        StdoutMessage::ControlRequest { request_id, request } => {
            assert_eq!(request_id, "abc123");
            match request {
                ControlRequestPayload::CanUseTool { tool_name, description, .. } => {
                    assert_eq!(tool_name, "Bash");
                    assert_eq!(description.unwrap(), "List files");
                }
                _ => panic!("Expected CanUseTool"),
            }
        }
        _ => panic!("Expected ControlRequest"),
    }
}

#[test]
fn test_parse_other_message() {
    let json = r#"{"type": "assistant", "message": {}, "uuid": "x", "session_id": "y"}"#;
    let msg = parse_stdout_line(json).unwrap();
    assert!(matches!(msg, StdoutMessage::Other));
}

#[test]
fn test_serialize_allow() {
    let resp = ControlResponse::allow("req_001".to_string());
    let json = resp.to_json();
    assert!(json.contains(r#""behavior":"allow""#));
    assert!(json.contains(r#""request_id":"req_001""#));
    assert!(!json.contains("updatedInput")); // None should be skipped
}

#[test]
fn test_serialize_deny() {
    let resp = ControlResponse::deny("req_002".to_string(), "User denied".to_string(), true);
    let json = resp.to_json();
    assert!(json.contains(r#""behavior":"deny""#));
    assert!(json.contains(r#""message":"User denied""#));
    assert!(json.contains(r#""interrupt":true"#));
}

#[test]
fn test_serialize_interrupt() {
    let req = ControlRequest::interrupt();
    let json = req.to_json();
    assert!(json.contains(r#""type":"control_request""#));
    assert!(json.contains(r#""subtype":"interrupt""#));
}

#[test]
fn test_serialize_set_model() {
    let req = ControlRequest::set_model(Some("cli-model-4-6".to_string()));
    let json = req.to_json();
    assert!(json.contains(r#""subtype":"set_model""#));
    assert!(json.contains(r#""model":"cli-model-4-6""#));
}

#[test]
fn test_serialize_set_permission_mode() {
    let req = ControlRequest::set_permission_mode("acceptEdits".to_string());
    let json = req.to_json();
    assert!(json.contains(r#""subtype":"set_permission_mode""#));
    assert!(json.contains(r#""mode":"acceptEdits""#));
}

#[test]
fn test_serialize_set_model_none() {
    let req = ControlRequest::set_model(None);
    let json = req.to_json();
    assert!(json.contains(r#""subtype":"set_model""#));
    assert!(!json.contains("model\":"));
}

#[test]
fn test_response_is_valid_json() {
    // The hand-framed envelope must parse under a real JSON parser with
    // the escaping intact.
    let resp = ControlResponse::deny(
        "id \"quoted\"".to_string(),
        "line一\nline二\ttab\\end".to_string(),
        false,
    );
    let v: serde_json::Value = serde_json::from_str(&resp.to_json()).unwrap();
    assert_eq!(v["type"], "control_response");
    assert_eq!(v["response"]["subtype"], "success");
    assert_eq!(v["response"]["request_id"], "id \"quoted\"");
    assert_eq!(v["response"]["response"]["behavior"], "deny");
    assert_eq!(v["response"]["response"]["message"], "line一\nline二\ttab\\end");
    assert!(v["response"]["response"].get("interrupt").is_none());
}

#[test]
fn test_user_turn_framing() {
    let json = tokenicode_core::protocol::user_turn_json("hello \"world\"\u{1b}[0m");
    let v: serde_json::Value = serde_json::from_str(&json).unwrap();
    assert_eq!(v["type"], "user");
    assert_eq!(v["message"]["role"], "user");
    assert_eq!(v["message"]["content"], "hello \"world\"\u{1b}[0m");
    // one line on the wire: the escape hid every raw control character
    assert!(!json.contains('\n'));
}

#[test]
fn test_allow_with_updated_input_spliced() {
    let mut resp = ControlResponse::allow("r1".to_string());
    resp.response.response = tokenicode_core::protocol::PermissionResult::Allow {
        updated_input: Some(r#"{"command":"ls"}"#.to_string()),
    };
    let v: serde_json::Value = serde_json::from_str(&resp.to_json()).unwrap();
    assert_eq!(v["response"]["response"]["updatedInput"]["command"], "ls");
}

#[test]
fn test_random_request_ids_are_hex() {
    let req = ControlRequest::interrupt();
    assert!(!req.request_id.is_empty());
    assert!(req.request_id.len() <= 16);
    assert!(req.request_id.chars().all(|c| c.is_ascii_hexdigit() && !c.is_ascii_uppercase()));
}

#[test]
fn test_exit_marker_shape() {
    assert_eq!(exit_marker_json(), r#"{"type":"process_exit"}"#);
}

#[test]
fn test_parse_hook_callback() {
    let json = r#"{"type":"control_request","request_id":"r9","request":{"subtype":"hook_callback","callback_id":"cb1","input":{"k":1}}}"#;
    match parse_stdout_line(json).unwrap() {
        StdoutMessage::ControlRequest { request_id, request } => {
            assert_eq!(request_id, "r9");
            match request {
                ControlRequestPayload::HookCallback { callback_id, input, .. } => {
                    assert_eq!(callback_id, "cb1");
                    let v: serde_json::Value =
                        serde_json::from_str(&input.unwrap()).unwrap();
                    assert_eq!(v["k"], 1);
                }
                _ => panic!("Expected HookCallback"),
            }
        }
        _ => panic!("Expected ControlRequest"),
    }
}

#[test]
fn test_parse_malformed_line_dropped() {
    assert!(parse_stdout_line("not json at all {{{").is_none());
    // a control request missing its request_id is malformed, not forwarded
    assert!(parse_stdout_line(r#"{"type":"control_request"}"#).is_none());
}

#[test]
fn test_parse_unknown_subtype() {
    let json = r#"{"type":"control_request","request_id":"r2","request":{"subtype":"mcp_message"}}"#;
    match parse_stdout_line(json).unwrap() {
        StdoutMessage::ControlRequest { request_id, request } => {
            assert_eq!(request_id, "r2");
            assert!(matches!(request, ControlRequestPayload::Unknown));
        }
        _ => panic!("Expected ControlRequest"),
    }
}

#[test]
fn test_parse_non_object_json_forwarded() {
    // any valid JSON that is not a control request passes through,
    // whatever its shape
    assert!(matches!(parse_stdout_line("5").unwrap(), StdoutMessage::Other));
    assert!(matches!(parse_stdout_line("[1,2]").unwrap(), StdoutMessage::Other));
}

#[test]
fn test_parse_control_missing_subtype_dropped() {
    let json = r#"{"type":"control_request","request_id":"r4","request":{}}"#;
    assert!(parse_stdout_line(json).is_none());
    let json2 = r#"{"type":"control_request","request_id":"r5","request":{"subtype":"can_use_tool"}}"#;
    // a can_use_tool without its tool name is malformed
    assert!(parse_stdout_line(json2).is_none());
}
