use neomux::cli::{
    colors_supported, config_lines, doctor_programs, doctor_report, endpoint_probe, parse_cli,
    version_text, CliCommand,
};
use neomux::launch::{
    agent_command, agent_split_args, agent_start, editor_setup, existing_session_steps,
    finish_launch, has_session_args, new_session_args, parse_launch_args, session_name,
    LaunchRequest, LaunchStep,
};

fn args(v: &[&str]) -> Vec<String> {
    v.iter().map(|s| s.to_string()).collect()
}

#[test]
fn cli_picks_subcommand() {
    assert!(matches!(parse_cli(&args(&[])), CliCommand::Launch));
    assert!(matches!(parse_cli(&args(&["agent"])), CliCommand::Agent));
    assert!(matches!(parse_cli(&args(&["doctor"])), CliCommand::Doctor));
    assert!(matches!(parse_cli(&args(&["models"])), CliCommand::Models));
    assert!(matches!(parse_cli(&args(&["config"])), CliCommand::Config));
    assert!(matches!(parse_cli(&args(&["version"])), CliCommand::Version(false)));
    assert!(matches!(parse_cli(&args(&["version", "--json"])), CliCommand::Version(true)));
    assert!(matches!(parse_cli(&args(&["-V"])), CliCommand::Version(false)));
    assert!(matches!(parse_cli(&args(&["--help"])), CliCommand::Help));
    assert!(matches!(parse_cli(&args(&["."])), CliCommand::Launch));
}

#[test]
fn launch_args_are_read_in_order() {
    match parse_launch_args(&args(&["proj", "--session", "s1", "--no-attach"]), None) {
        Ok(LaunchRequest::Start(o)) => {
            assert_eq!(o.target.as_deref(), Some("proj"));
            assert_eq!(o.session.as_deref(), Some("s1"));
            assert!(!o.attach);
        }
        _ => panic!("expected a start"),
    }
    match parse_launch_args(&args(&[]), Some("env".to_string())) {
        Ok(LaunchRequest::Start(o)) => {
            assert_eq!(o.target, None);
            assert_eq!(o.session.as_deref(), Some("env"));
            assert!(o.attach);
        }
        _ => panic!("expected a start"),
    }
    assert!(matches!(parse_launch_args(&args(&["x", "-h", "--bad"]), None), Ok(LaunchRequest::Help)));
    assert!(matches!(parse_launch_args(&args(&["--session"]), None),
        Err(e) if e == "--session requires a name"));
    assert!(matches!(parse_launch_args(&args(&["--bad", "-h"]), None),
        Err(e) if e == "unknown argument: --bad"));
}

#[test]
fn session_names() {
    assert_eq!(session_name(Some("mine".to_string()), Some("dir")), "mine");
    assert_eq!(session_name(None, Some("my app")), "neomux-my-app");
    assert_eq!(session_name(None, None), "neomux-workspace");
}

#[test]
fn tmux_commands() {
    assert_eq!(has_session_args("s"), vec!["has-session", "-t", "s"]);
    assert_eq!(
        new_session_args("s", "/w"),
        vec!["new-session", "-d", "-P", "-F", "#{pane_id}", "-s", "s", "-c", "/w"]
    );
    let setup = editor_setup("s", "%1");
    assert_eq!(setup.len(), 6);
    assert_eq!(setup[0], vec!["rename-window", "-t", "%1", "neomux"]);
    assert_eq!(setup[5], vec!["send-keys", "-t", "%1", "nvim '+silent! colorscheme rose-pine' .", "C-m"]);
    assert_eq!(agent_command("/opt/it's/neomux"), "'/opt/it'\\''s/neomux' agent");
    assert_eq!(
        agent_split_args("%1", "/w"),
        vec!["split-window", "-P", "-F", "#{pane_id}", "-h", "-t", "%1", "-c", "/w"]
    );
    let start = agent_start("%2", "'x' agent", "%1");
    assert_eq!(start[0], vec!["send-keys", "-t", "%2", "'x' agent", "C-m"]);
    assert_eq!(start[1], vec!["select-pane", "-t", "%1"]);
}

#[test]
fn launch_steps() {
    let steps = existing_session_steps("s", true);
    assert_eq!(steps.len(), 2);
    assert!(matches!(&steps[0], LaunchStep::Tmux(a) if a == &vec!["attach-session", "-t", "s"]));
    assert!(matches!(&steps[1], LaunchStep::Say(m) if m == "neomux session already running: s"));
    let steps = existing_session_steps("s", false);
    assert_eq!(steps.len(), 1);
    assert!(matches!(finish_launch("s", false), LaunchStep::Say(m) if m == "neomux session started: s"));
    assert!(matches!(finish_launch("s", true), LaunchStep::Tmux(a) if a == vec!["attach-session", "-t", "s"]));
}

#[test]
fn doctor_reports_and_fails_on_missing() {
    assert_eq!(doctor_programs(), vec!["tmux", "nvim", "rg", "curl"]);
    let (lines, failed) = doctor_report(&vec![true, true, true, true], true, true, true);
    assert!(!failed);
    assert_eq!(
        lines,
        vec!["ok   tmux", "ok   nvim", "ok   rg", "ok   curl", "ok   MAKERS_MODELS_KEY", "ok   terminal colors", "ok   EdgeOne endpoint"]
    );
    let (lines, failed) = doctor_report(&vec![true, false, true, true], true, false, false);
    assert!(failed);
    assert_eq!(lines[1], "miss nvim  fix: install nvim and make sure it is in PATH");
    assert_eq!(lines[5], "warn terminal colors  fix: use a 256-color or truecolor terminal");
    assert_eq!(lines[6], "warn EdgeOne endpoint  fix: check network or EDGEONE_BASE_URL");
    let (lines, failed) = doctor_report(&vec![true, true, true, true], false, true, true);
    assert!(failed);
    assert_eq!(lines[4], "miss MAKERS_MODELS_KEY  fix: export MAKERS_MODELS_KEY=\"...\"");
}

#[test]
fn terminal_colors() {
    assert!(colors_supported(true, None));
    assert!(colors_supported(false, Some("xterm-256color")));
    assert!(colors_supported(false, Some("foot-truecolor")));
    assert!(!colors_supported(false, Some("xterm")));
    assert!(!colors_supported(false, None));
}

#[test]
fn endpoint_probe_arguments() {
    let inv = endpoint_probe("https://e");
    assert_eq!(inv.program, "curl");
    assert_eq!(inv.args, vec!["-sS", "--max-time", "5", "-o", "/dev/null", "https://e"]);
}

#[test]
fn config_and_version() {
    assert_eq!(
        config_lines(None, None, false),
        vec!["endpoint=https://ai-gateway.edgeone.link/v1", "model=@makers/deepseek-v4-flash", "key=missing"]
    );
    assert_eq!(
        config_lines(Some("e".to_string()), Some("m".to_string()), true),
        vec!["endpoint=e", "model=m", "key=set"]
    );
    assert_eq!(version_text("1.2.3", "x86_64-linux", false), "neomux 1.2.3");
    assert_eq!(
        version_text("1.2.3", "x86_64-linux", true),
        "{\"version\":\"1.2.3\",\"target\":\"x86_64-linux\",\"defaultModel\":\"@makers/deepseek-v4-flash\",\"edgeoneBaseUrl\":\"https://ai-gateway.edgeone.link/v1\"}"
    );
}
