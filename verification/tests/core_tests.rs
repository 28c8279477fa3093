use tokenicode_core::launcher::{
    build_child_env, build_session_args, complete_launch, prepare_launch, resolve_custom_env,
    resolve_session_id, StartSessionParams,
};
use tokenicode_core::mediator::{Mediator, PermissionDecision};
use tokenicode_core::process::{ProcessError, ProcessManager, StdinManager};
use tokenicode_core::relay::{RelayAction, StdoutRelay};

fn params(prompt: &str) -> StartSessionParams {
    StartSessionParams {
        prompt: prompt.to_string(),
        cwd: "/work".to_string(),
        model: None,
        session_id: None,
        allowed_tools: None,
        dangerously_skip_permissions: None,
        resume_session_id: None,
        thinking_level: None,
        session_mode: None,
        custom_env: None,
        permission_mode: None,
    }
}

#[test]
fn test_relaunch_supersedes() {
    // launch(A) twice: both registries hold the newer process afterwards
    let mut sm = StdinManager::new();
    let mut pm = ProcessManager::new();
    prepare_launch(&mut sm, &mut pm, "A");
    let first = complete_launch(&mut sm, &mut pm, "A".to_string(), 100, 1, 11);
    assert_eq!(first.pid, 100);
    prepare_launch(&mut sm, &mut pm, "A");
    let second = complete_launch(&mut sm, &mut pm, "A".to_string(), 200, 2, 22);
    assert_eq!(second.pid, 200);
    let proc = pm.get("A").expect("A must stay registered");
    assert_eq!(proc.pid, 200);
    assert_eq!(proc.handle, 22);
    let w = sm.send("A", "hi").unwrap();
    assert_eq!(w.chan, 2);
}

#[test]
fn test_send_unregistered_fails() {
    let sm = StdinManager::new();
    let r = sm.send("ghost", "hello");
    assert!(matches!(r, Err(ProcessError::NoSuchSession)));
}

#[test]
fn test_two_sends_complete_lines_in_order() {
    let mut sm = StdinManager::new();
    sm.insert("s".to_string(), 7);
    let w1 = sm.send("s", r#"{"a":1}"#).unwrap();
    let w2 = sm.send("s", r#"{"b":2}"#).unwrap();
    assert_eq!(w1.line, "{\"a\":1}\n");
    assert_eq!(w2.line, "{\"b\":2}\n");
    // each write is one complete line: its only newline is at its end
    assert_eq!(w1.line.matches('\n').count(), 1);
    assert_eq!(w2.line.matches('\n').count(), 1);
}

#[test]
fn test_exactly_one_response_per_request() {
    let mut m = Mediator::new();
    let first = m.resolve_decision(
        "R",
        Ok(PermissionDecision::Allow { updated_input: None }),
    );
    let again = m.resolve_decision(
        "R",
        Ok(PermissionDecision::Deny { message: "late".to_string(), interrupt: false }),
    );
    let json = first.expect("first decision must answer").to_json();
    assert!(json.contains(r#""request_id":"R""#));
    assert!(json.contains(r#""behavior":"allow""#));
    assert!(again.is_none(), "a second response for the same id must be refused");
}

#[test]
fn test_decision_failure_becomes_deny() {
    let mut m = Mediator::new();
    let resp = m.resolve_decision("R2", Err("collaborator crashed".to_string())).unwrap();
    let json = resp.to_json();
    assert!(json.contains(r#""behavior":"deny""#));
    assert!(json.contains("Permission decision failed: collaborator crashed"));
}

#[test]
fn test_exit_notice_emitted_once() {
    let mut relay = StdoutRelay::new();
    assert!(relay.on_end(), "first end-of-stream emits the notification");
    assert!(!relay.on_end(), "a second end-of-stream must not emit again");
}

#[test]
fn test_session_reusable_after_exit() {
    let mut sm = StdinManager::new();
    let mut pm = ProcessManager::new();
    prepare_launch(&mut sm, &mut pm, "A");
    complete_launch(&mut sm, &mut pm, "A".to_string(), 10, 1, 1);
    // child exits on its own: the relay reports it once
    let mut relay = StdoutRelay::new();
    assert!(relay.on_end());
    // the same id is immediately reusable for a new launch
    prepare_launch(&mut sm, &mut pm, "A");
    let info = complete_launch(&mut sm, &mut pm, "A".to_string(), 20, 9, 9);
    assert_eq!(info.pid, 20);
    assert_eq!(sm.send("A", "x").unwrap().chan, 9);
}

#[test]
fn test_relay_classifies_lines() {
    let relay = StdoutRelay::new();
    let passthrough = relay.on_line(r#"{"type":"assistant","message":{}}"#);
    match passthrough {
        RelayAction::Forward { line } => assert_eq!(line, r#"{"type":"assistant","message":{}}"#),
        _ => panic!("other messages must be forwarded verbatim"),
    }
    let control = relay.on_line(
        r#"{"type":"control_request","request_id":"q1","request":{"subtype":"can_use_tool","tool_name":"Edit"}}"#,
    );
    assert!(matches!(control, RelayAction::Mediate { .. }));
    assert!(matches!(relay.on_line("garbage"), RelayAction::Skip));
}

#[test]
fn test_default_session_args() {
    let args = build_session_args(&params("hello"));
    assert_eq!(
        args,
        vec![
            "--input-format",
            "stream-json",
            "--output-format",
            "stream-json",
            "--verbose",
            "--include-partial-messages",
            "--permission-mode",
            "acceptEdits",
            "--permission-prompt-tool",
            "stdio",
            "--settings",
            r#"{"alwaysThinkingEnabled":true}"#,
        ]
    );
}

#[test]
fn test_full_session_args() {
    let mut p = params("go");
    p.resume_session_id = Some("sess-9".to_string());
    p.model = Some("m1".to_string());
    p.allowed_tools = Some(vec!["Bash".to_string(), "Edit".to_string()]);
    p.session_mode = Some("plan".to_string());
    p.thinking_level = Some("off".to_string());
    let args = build_session_args(&p);
    assert_eq!(
        args,
        vec![
            "--input-format",
            "stream-json",
            "--output-format",
            "stream-json",
            "--verbose",
            "--include-partial-messages",
            "--resume",
            "sess-9",
            "--model",
            "m1",
            "--allowedTools",
            "Bash",
            "--allowedTools",
            "Edit",
            "--permission-mode",
            "acceptEdits",
            "--permission-prompt-tool",
            "stdio",
            "--mode",
            "plan",
            "--settings",
            r#"{"alwaysThinkingEnabled":false}"#,
        ]
    );
}

#[test]
fn test_bypass_session_args() {
    let mut p = params("");
    p.dangerously_skip_permissions = Some(true);
    let args = build_session_args(&p);
    assert!(args.contains(&"--dangerously-skip-permissions".to_string()));
    assert!(!args.contains(&"--permission-prompt-tool".to_string()));

    let mut q = params("");
    q.permission_mode = Some("bypassPermissions".to_string());
    let args = build_session_args(&q);
    assert!(args.contains(&"bypassPermissions".to_string()));
    assert!(!args.contains(&"--permission-prompt-tool".to_string()));
}

#[test]
fn test_resolve_custom_env_substitutes_stored_key() {
    let env = vec![
        ("ANTHROPIC_BASE_URL".to_string(), "https://proxy.example".to_string()),
        ("ANTHROPIC_AUTH_TOKEN".to_string(), "USE_STORED_KEY".to_string()),
    ];
    let out = resolve_custom_env(Some(&env), Some("sk-stored")).unwrap();
    assert_eq!(out[0].1, "https://proxy.example");
    assert_eq!(out[1].0, "ANTHROPIC_AUTH_TOKEN");
    assert_eq!(out[1].1, "sk-stored");
}

#[test]
fn test_resolve_custom_env_missing_key_fails() {
    let env = vec![("ANTHROPIC_AUTH_TOKEN".to_string(), "USE_STORED_KEY".to_string())];
    assert!(resolve_custom_env(Some(&env), None).is_err());
    assert_eq!(resolve_custom_env(None, None).unwrap().len(), 0);
}

#[test]
fn test_resolve_session_id() {
    assert_eq!(resolve_session_id(&Some("abc".to_string())), "abc");
    let generated = resolve_session_id(&None);
    assert_eq!(generated.len(), 36);
}

#[test]
fn test_remove_absent_id_is_noop() {
    let mut sm = StdinManager::new();
    sm.insert("keep".to_string(), 3);
    sm.remove("absent");
    assert_eq!(sm.send("keep", "still there").unwrap().chan, 3);
}

#[test]
fn test_build_child_env_defaults() {
    let p = params("");
    let resolved = vec![("A".to_string(), "1".to_string())];
    let env = build_child_env(&p, "/usr/bin:/bin", resolved);
    assert_eq!(env.clear, vec!["CLAUDECODE"]);
    assert_eq!(
        env.set,
        vec![
            ("PATH".to_string(), "/usr/bin:/bin".to_string()),
            ("A".to_string(), "1".to_string()),
            ("CLAUDE_CODE_EFFORT_LEVEL".to_string(), "high".to_string()),
            ("CLAUDE_CODE_MAX_OUTPUT_TOKENS".to_string(), "64000".to_string()),
        ]
    );
}

#[test]
fn test_build_child_env_overrides() {
    let mut p = params("");
    p.thinking_level = Some("off".to_string());
    let resolved = vec![("CLAUDE_CODE_MAX_OUTPUT_TOKENS".to_string(), "9000".to_string())];
    let env = build_child_env(&p, "x", resolved);
    // no effort level when thinking is off, no default cap over an override
    assert_eq!(
        env.set,
        vec![
            ("PATH".to_string(), "x".to_string()),
            ("CLAUDE_CODE_MAX_OUTPUT_TOKENS".to_string(), "9000".to_string()),
        ]
    );
}

#[test]
fn test_mediator_respond_plans_one_line() {
    let mut sm = StdinManager::new();
    sm.insert("s1".to_string(), 5);
    let mut m = Mediator::new();
    let planned = m
        .respond(&sm, "s1", "RQ", Ok(PermissionDecision::Allow { updated_input: None }))
        .unwrap()
        .unwrap();
    let (resp, w) = planned;
    assert_eq!(w.chan, 5);
    assert_eq!(w.line, format!("{}\n", resp.to_json()));
    assert!(w.line.contains(r#""request_id":"RQ""#));
    // a second decision for the same request plans nothing
    let again = m.respond(
        &sm,
        "s1",
        "RQ",
        Ok(PermissionDecision::Deny { message: "no".to_string(), interrupt: false }),
    );
    assert!(matches!(again, Ok(None)));
}

#[test]
fn test_mediator_respond_dead_session() {
    let sm = StdinManager::new();
    let mut m = Mediator::new();
    let r = m.respond(&sm, "gone", "RX", Err("x".to_string()));
    assert!(matches!(r, Err(ProcessError::NoSuchSession)));
}
