use neomux::agent::{AgentState, CommandResult};
use neomux::step::{
    confirmed, needs_line_break, require_key, stream_answer, AgentAction,
};
use neomux::workspace::{check_in_workspace, components, starts_with_path};
use std::path::Path;

fn state() -> AgentState {
    let mut s = AgentState::new(None, None, None, None);
    s.load_file("a.rs", "fn main() {}".to_string());
    s.push_command("ls".to_string(), CommandResult { label: String::new(), text: "x".to_string(), code: 0, ms: 3 });
    s.record_exchange("q", "a".to_string());
    s
}

fn snapshot(s: &AgentState) -> String {
    format!(
        "{}|{}|{:?}|{:?}|{:?}|{:?}|{:?}",
        s.endpoint,
        s.model,
        s.temperature,
        s.max_tokens,
        s.files.iter().map(|f| (f.path.clone(), f.text.clone())).collect::<Vec<_>>(),
        s.commands.iter().map(|c| (c.label.clone(), c.text.clone(), c.code, c.ms)).collect::<Vec<_>>(),
        s.conversation
    )
}

#[test]
fn refused_lines_leave_state_unchanged() {
    for line in ["/read", "/run ", "/model", "/max-tokens x", "/max-tokens -3", "/nope a"] {
        let mut s = state();
        let before = snapshot(&s);
        assert!(s.step(line).is_err(), "line {line:?}");
        assert_eq!(snapshot(&s), before, "line {line:?}");
    }
    let mut s = state();
    let before = snapshot(&s);
    assert_eq!(s.finish_temperature("hot", None), Err("usage: /temperature <number>".to_string()));
    assert_eq!(snapshot(&s), before);
    assert_eq!(
        s.finish_chat("q2", "a2".to_string(), false, "exit status: 22"),
        Err("EdgeOne request failed with curl status exit status: 22".to_string())
    );
    assert_eq!(snapshot(&s), before);
}

#[test]
fn step_applies_session_commands() {
    let mut s = state();
    match s.step("/clear") {
        Ok(AgentAction::Say(lines)) => assert_eq!(lines, vec!["conversation cleared"]),
        _ => panic!("expected a message"),
    }
    assert!(s.conversation.is_empty());
    match s.step("/model  other ") {
        Ok(AgentAction::Say(lines)) => {
            assert_eq!(lines, vec!["\x1b[38;2;110;106;134mmodel:\x1b[0m other"])
        }
        _ => panic!("expected a message"),
    }
    assert_eq!(s.model, "other");
    match s.step("/max-tokens +64") {
        Ok(AgentAction::Say(lines)) => {
            assert_eq!(lines, vec!["\x1b[38;2;110;106;134mmax tokens:\x1b[0m +64"])
        }
        _ => panic!("expected a message"),
    }
    assert_eq!(s.max_tokens, Some(64));
    match s.step("/forget a.rs") {
        Ok(AgentAction::Say(lines)) => assert_eq!(lines, vec!["removed 1 context item(s)"]),
        _ => panic!("expected a message"),
    }
    assert!(s.files.is_empty());
}

#[test]
fn step_hands_back_actions() {
    let mut s = state();
    assert!(matches!(s.step("hello there"), Ok(AgentAction::Chat(p)) if p == "hello there"));
    assert!(matches!(s.step("/help"), Ok(AgentAction::Help)));
    assert!(matches!(s.step("/read src/x.rs"), Ok(AgentAction::Read(p)) if p == "src/x.rs"));
    assert!(matches!(s.step("/temperature 0.5"), Ok(AgentAction::Temperature(a)) if a == "0.5"));
    match s.step("/run sudo rm x") {
        Ok(AgentAction::Run { command, risk }) => {
            assert_eq!(command, "sudo rm x");
            assert_eq!(risk, Some("privileged command"));
        }
        _ => panic!("expected a run"),
    }
    match s.step("/find fn main") {
        Ok(AgentAction::Find { search, label }) => {
            assert_eq!(search.program, "rg");
            assert_eq!(search.args[5], "fn main");
            assert_eq!(label, "/find fn main");
        }
        _ => panic!("expected a search"),
    }
    match s.step("/context") {
        Ok(AgentAction::Say(lines)) => assert_eq!(lines.len(), 4),
        _ => panic!("expected the report"),
    }
}

#[test]
fn finishing_requests() {
    let mut s = state();
    assert_eq!(
        s.finish_temperature("0.50", Some("0.5".to_string())),
        Ok("\x1b[38;2;110;106;134mtemperature:\x1b[0m 0.50".to_string())
    );
    assert_eq!(s.temperature, Some("0.5".to_string()));
    assert_eq!(s.finish_chat("q2", "a2".to_string(), true, "exit status: 0"), Ok(()));
    assert_eq!(s.conversation.len(), 4);
    assert_eq!(s.conversation[3], ("assistant".to_string(), "a2".to_string()));
}

#[test]
fn stream_answer_joins_tokens() {
    let lines: Vec<String> = vec![
        ": keep-alive",
        "data: {\"choices\":[{\"delta\":{\"content\":\"Hel\"}}]}",
        "",
        "data: {\"choices\":[{\"delta\":{\"content\":\"lo\\n\"}}]}",
        "data: [DONE]",
    ]
    .into_iter()
    .map(String::from)
    .collect();
    assert_eq!(stream_answer(&lines), "Hello\n");
    assert_eq!(stream_answer(&Vec::new()), "");
}

#[test]
fn confirmation_and_line_breaks() {
    assert!(confirmed("run\n"));
    assert!(confirmed("  run "));
    assert!(!confirmed("yes\n"));
    assert!(!confirmed("Run"));
    assert!(needs_line_break("abc"));
    assert!(!needs_line_break("abc\n"));
    assert!(!needs_line_break(""));
}

#[test]
fn api_key_is_required() {
    assert_eq!(require_key(Some("k".to_string())), Ok("k".to_string()));
    assert_eq!(
        require_key(None),
        Err("missing MAKERS_MODELS_KEY. Fix: export MAKERS_MODELS_KEY=\"...\"".to_string())
    );
}

#[test]
fn workspace_check_follows_path_starts_with() {
    let cases = [
        ("/home/me/proj/src/a.rs", "/home/me/proj"),
        ("/home/me/proj", "/home/me/proj"),
        ("/home/me/project/a.rs", "/home/me/proj"),
        ("/home/me", "/home/me/proj"),
        ("/etc/passwd", "/home/me/proj"),
        ("/home//me/./proj/x", "/home/me/proj/"),
        ("/a", "/"),
        ("a/b", "a"),
        ("./a/b", "a"),
        ("./a/b", "."),
        ("../x", ".."),
        ("a", "/a"),
        ("", ""),
    ];
    for (path, base) in cases {
        let expected = Path::new(path).starts_with(base);
        assert_eq!(starts_with_path(path.as_bytes(), base.as_bytes()), expected, "{path:?} {base:?}");
        assert_eq!(check_in_workspace(path.as_bytes(), base.as_bytes()).is_ok(), expected);
    }
    assert_eq!(
        check_in_workspace(b"/etc/passwd", b"/home/me"),
        Err("path must stay inside the workspace".to_string())
    );
}

#[test]
fn components_follow_std() {
    for path in ["/a//b/./c/", "./x/../y", ".", "a/.", "/", "", "../.."] {
        let expected: Vec<Vec<u8>> = Path::new(path)
            .components()
            .map(|c| c.as_os_str().as_encoded_bytes().to_vec())
            .collect();
        assert_eq!(components(path.as_bytes()), expected, "{path:?}");
    }
}
