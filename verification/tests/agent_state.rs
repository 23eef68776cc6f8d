use neomux::agent::{AgentState, CommandResult};
use neomux::command::{
    agent_input, chat_endpoint, chat_request, find_invocation, find_label, parse_agent_line,
    AgentCommand, AgentInput,
};

fn result(text: &str, code: i32, ms: u128) -> CommandResult {
    CommandResult { label: "sh".to_string(), text: text.to_string(), code, ms }
}

fn fresh() -> AgentState {
    AgentState::new(None, None, None, None)
}

const PROMPT: &str = "You are Neomux, a token-efficient coding agent running beside Neovim in tmux.\n\nRules:\n- Be concise and execution-focused.\n- Prefer minimal, explicit code over clever abstractions.\n- Do not chase theoretical completeness.\n- Avoid speculative edge-case handling.\n- Do not add defensive code unless it prevents a realistic failure.\n- Prefer small diffs and direct commands.\n- Ask before destructive actions.\n- When commands are needed, give exact commands.";

#[test]
fn new_state_uses_defaults() {
    let s = fresh();
    assert_eq!(s.endpoint, "https://ai-gateway.edgeone.link/v1");
    assert_eq!(s.model, "@makers/deepseek-v4-flash");
    assert_eq!(s.temperature, Some("0.2".to_string()));
    assert_eq!(s.max_tokens, None);
    assert!(s.files.is_empty() && s.commands.is_empty() && s.conversation.is_empty());
}

#[test]
fn new_state_reads_configuration() {
    let s = AgentState::new(
        Some("http://localhost:8080/".to_string()),
        Some("m".to_string()),
        Some("0.7".to_string()),
        Some("512"),
    );
    assert_eq!(s.endpoint, "http://localhost:8080/");
    assert_eq!(s.model, "m");
    assert_eq!(s.temperature, Some("0.7".to_string()));
    assert_eq!(s.max_tokens, Some(512));
    let bad = AgentState::new(None, None, None, Some("lots"));
    assert_eq!(bad.max_tokens, None);
}

#[test]
fn push_command_keeps_last_eight() {
    let mut s = fresh();
    for i in 0..11 {
        s.push_command(format!("cmd{i}"), result("out", i, 1));
    }
    assert_eq!(s.commands.len(), 8);
    let labels: Vec<&str> = s.commands.iter().map(|c| c.label.as_str()).collect();
    assert_eq!(labels, vec!["cmd3", "cmd4", "cmd5", "cmd6", "cmd7", "cmd8", "cmd9", "cmd10"]);
    assert_eq!(s.commands.back().unwrap().code, 10);
}

#[test]
fn record_exchange_keeps_last_thirty_messages() {
    let mut s = fresh();
    for i in 0..20 {
        s.record_exchange(&format!("q{i}"), format!("a{i}"));
    }
    assert_eq!(s.conversation.len(), 30);
    assert_eq!(s.conversation[0], ("user".to_string(), "q5".to_string()));
    assert_eq!(s.conversation[29], ("assistant".to_string(), "a19".to_string()));
    for (i, (role, _)) in s.conversation.iter().enumerate() {
        assert_eq!(role, if i % 2 == 0 { "user" } else { "assistant" });
    }
    s.clear_conversation();
    assert!(s.conversation.is_empty());
}

#[test]
fn load_file_replaces_and_truncates() {
    let mut s = fresh();
    s.load_file("a.rs", "one".to_string());
    s.load_file("b.rs", "two".to_string());
    s.load_file("a.rs", "three".to_string());
    let paths: Vec<&str> = s.files.iter().map(|f| f.path.as_str()).collect();
    assert_eq!(paths, vec!["b.rs", "a.rs"]);
    assert_eq!(s.files[1].text, "three");
    s.load_file("big", "x".repeat(60_000));
    assert_eq!(s.files.last().unwrap().text.len(), 50_000);
    s.load_file("wide", "é".repeat(30_000));
    assert_eq!(s.files.last().unwrap().text, "é".repeat(25_000));
}

#[test]
fn forget_removes_files() {
    let mut s = fresh();
    s.load_file("a", "1".to_string());
    s.load_file("b", "2".to_string());
    assert_eq!(s.forget("missing"), 0);
    assert_eq!(s.forget("a"), 1);
    assert_eq!(s.files.len(), 1);
    s.load_file("c", "3".to_string());
    assert_eq!(s.forget("all"), 2);
    assert!(s.files.is_empty());
    s.load_file("d", "4".to_string());
    assert_eq!(s.forget(""), 1);
}

#[test]
fn forget_after_load_drops_exactly_that_file() {
    let mut s = fresh();
    s.load_file("keep", "k".to_string());
    s.load_file("x", "1".to_string());
    s.load_file("x", "2".to_string());
    assert_eq!(s.forget("x"), 1);
    assert_eq!(s.files.len(), 1);
    assert_eq!(s.files[0].path, "keep");
}

#[test]
fn context_prompt_lists_files_and_newest_commands() {
    let mut s = fresh();
    assert_eq!(s.context_prompt(), "");
    s.load_file("a.txt", "alpha".to_string());
    assert_eq!(s.context_prompt(), "Loaded files:\n--- a.txt\nalpha\n\n");
    for i in 0..7 {
        s.push_command(format!("c{i}"), result(&format!("o{i}"), -i, i as u128 * 10));
    }
    let text = s.context_prompt();
    let expected_commands: String = (2..7)
        .rev()
        .map(|i| format!("$ c{i}\nexit {} in {}ms\no{i}\n\n", -i, i * 10))
        .collect();
    assert_eq!(
        text,
        format!("Loaded files:\n--- a.txt\nalpha\n\nRecent commands:\n{expected_commands}")
    );
}

#[test]
fn chat_body_matches_wire_format() {
    let mut s = AgentState::new(None, Some("m\"x".to_string()), None, Some("64"));
    let body = s.chat_body("hi \"you\"");
    assert_eq!(
        body,
        format!(
            "{{\"model\":\"m\\\"x\",\"stream\":true,\"messages\":[{{\"role\":\"system\",\"content\":\"{}\"}},{{\"role\":\"user\",\"content\":\"hi \\\"you\\\"\"}}],\"temperature\":0.2,\"max_tokens\":64}}",
            PROMPT.replace('\n', "\\n")
        )
    );
    s.temperature = None;
    s.max_tokens = None;
    s.record_exchange("q", "a".to_string());
    s.load_file("f", "t".to_string());
    let body = s.chat_body("next");
    let expected = format!(
        "{{\"model\":\"m\\\"x\",\"stream\":true,\"messages\":[{{\"role\":\"system\",\"content\":\"{}\"}},{{\"role\":\"user\",\"content\":\"Loaded files:\\n--- f\\nt\\n\\n\"}},{{\"role\":\"user\",\"content\":\"q\"}},{{\"role\":\"assistant\",\"content\":\"a\"}},{{\"role\":\"user\",\"content\":\"next\"}}]}}",
        PROMPT.replace('\n', "\\n")
    );
    assert_eq!(body, expected);
}

#[test]
fn context_report_lines() {
    let mut s = fresh();
    assert_eq!(
        s.context_report(),
        vec![
            "\x1b[38;2;110;106;134mfiles:\x1b[0m none".to_string(),
            "\x1b[38;2;110;106;134mrecent commands:\x1b[0m none".to_string(),
        ]
    );
    s.load_file("é.txt", "héllo".to_string());
    s.push_command("ls".to_string(), result("x", 2, 15));
    assert_eq!(
        s.context_report(),
        vec![
            "\x1b[38;2;110;106;134mfiles:\x1b[0m 1".to_string(),
            "  é.txt (6 chars)".to_string(),
            "\x1b[38;2;110;106;134mrecent commands:\x1b[0m 1".to_string(),
            "  ls: exit 2 in 15ms".to_string(),
        ]
    );
}

#[test]
fn agent_input_classifies_lines() {
    assert!(matches!(agent_input("   \n"), AgentInput::Skip));
    assert!(matches!(agent_input(" /exit \n"), AgentInput::Exit));
    assert!(matches!(agent_input("/exit now"), AgentInput::Line("/exit now")));
    assert!(matches!(agent_input("  hello\n"), AgentInput::Line("hello")));
}

#[test]
fn parse_agent_line_commands() {
    assert!(matches!(parse_agent_line("hello"), Ok(AgentCommand::Chat(p)) if p == "hello"));
    assert!(matches!(parse_agent_line("/help"), Ok(AgentCommand::Help)));
    assert!(matches!(parse_agent_line("/clear"), Ok(AgentCommand::Clear)));
    assert!(matches!(parse_agent_line("/context"), Ok(AgentCommand::Context)));
    assert!(matches!(parse_agent_line("/find  TODO "), Ok(AgentCommand::Find(a)) if a == "TODO"));
    assert!(matches!(parse_agent_line("/read a.rs"), Ok(AgentCommand::Read(a)) if a == "a.rs"));
    assert!(matches!(parse_agent_line("/forget"), Ok(AgentCommand::Forget(a)) if a.is_empty()));
    assert!(matches!(parse_agent_line("/run ls -l"), Ok(AgentCommand::Run(a)) if a == "ls -l"));
    assert!(matches!(parse_agent_line("/model x"), Ok(AgentCommand::Model(a)) if a == "x"));
    assert!(matches!(parse_agent_line("/temperature 0.5"), Ok(AgentCommand::Temperature(a)) if a == "0.5"));
    assert!(matches!(parse_agent_line("/max-tokens 100"), Ok(AgentCommand::MaxTokens(100))));
}

#[test]
fn parse_agent_line_errors() {
    assert!(matches!(parse_agent_line("/read"), Err(e) if e == "usage: /read <file>"));
    assert!(matches!(parse_agent_line("/run  "), Err(e) if e == "usage: /run <cmd>"));
    assert!(matches!(parse_agent_line("/model"), Err(e) if e == "usage: /model <id>"));
    assert!(matches!(parse_agent_line("/max-tokens -1"), Err(e) if e == "usage: /max-tokens <integer>"));
    assert!(matches!(parse_agent_line("/bogus arg"), Err(e) if e == "unknown command: /bogus"));
}

#[test]
fn find_invocation_and_label() {
    let inv = find_invocation("needle");
    assert_eq!(inv.program, "rg");
    assert_eq!(
        inv.args,
        vec!["--line-number", "--column", "--color", "never", "--fixed-strings", "needle", "."]
    );
    assert_eq!(find_label("needle"), "/find needle");
}

#[test]
fn chat_endpoint_strips_trailing_slashes() {
    assert_eq!(chat_endpoint("https://x/v1"), "https://x/v1/chat/completions");
    assert_eq!(chat_endpoint("https://x/v1///"), "https://x/v1/chat/completions");
    assert_eq!(chat_endpoint(""), "/chat/completions");
}

#[test]
fn chat_request_arguments() {
    let inv = chat_request("https://e/chat/completions", "KEY", "{}");
    assert_eq!(inv.program, "curl");
    assert_eq!(
        inv.args,
        vec![
            "-sS", "-N", "-X", "POST", "https://e/chat/completions", "-H",
            "Authorization: Bearer KEY", "-H", "Content-Type: application/json", "--data", "{}",
        ]
    );
}
