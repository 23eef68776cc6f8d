use neomux::number::{parse_u32, push_decimal, push_signed_decimal};
use neomux::shell::{
    command_probe, path_str, require_command, risk, run_shell, shell_quote, slug, split_command,
};
use neomux::text::{byte_len, str_eq, trim_str, truncate_bytes};
use neomux::wire::{json, sse_content};

#[test]
fn split_command_takes_first_word_and_trims_argument() {
    assert_eq!(split_command("/read src/main.rs"), ("/read", "src/main.rs"));
    assert_eq!(split_command("/run   ls -la  "), ("/run", "ls -la"));
    assert_eq!(split_command("/help"), ("/help", ""));
    assert_eq!(split_command("/model "), ("/model", ""));
    assert_eq!(split_command(""), ("", ""));
}

#[test]
fn split_command_roundtrip_on_concrete_values() {
    let command = "/find";
    let arg = "TODO later";
    let line = format!("{} {}", command, arg);
    assert_eq!(split_command(&line), (command, arg));
}

#[test]
fn trim_matches_std() {
    for s in ["  a b  ", "\t\nx\r\n", "", "   ", "\u{3000}wide\u{2003}", "x"] {
        assert_eq!(trim_str(s), s.trim());
    }
    let once = trim_str("  twice  ");
    assert_eq!(trim_str(once), once);
}

#[test]
fn json_escapes_specials() {
    assert_eq!(json("a\"b\\c\nd\re\tf"), "a\\\"b\\\\c\\nd\\re\\tf");
    assert_eq!(json("plain ünïcode"), "plain ünïcode");
    assert_eq!(json(""), "");
}

#[test]
fn sse_content_extracts_tokens() {
    assert_eq!(
        sse_content("data: {\"choices\":[{\"delta\":{\"content\":\"Hello\"}}]}"),
        Some("Hello".to_string())
    );
    assert_eq!(
        sse_content("data: {\"content\":\"a\\nb\\t\\\"q\\\" \\\\ \\u0041\"}"),
        Some("a\nb\t\"q\" \\ u0041".to_string())
    );
    assert_eq!(sse_content("data: [DONE]"), None);
    assert_eq!(sse_content("data:   [DONE]  "), None);
    assert_eq!(sse_content("event: message"), None);
    assert_eq!(sse_content("data: {\"role\":\"assistant\"}"), None);
    assert_eq!(sse_content("data: {\"content\":\"unterminated"), Some("unterminated".to_string()));
    assert_eq!(sse_content("data: {\"content\":\"ends with \\"), Some("ends with ".to_string()));
    assert_eq!(sse_content(""), None);
}

#[test]
fn streamed_token_roundtrip_on_concrete_values() {
    for token in ["", "hi", "quote \" back \\ slash", "lines\n\r\ttabs", "ünï"] {
        let line = format!("data: {{\"content\":\"{}\"}}", json(token));
        assert_eq!(sse_content(&line), Some(token.to_string()));
    }
}

#[test]
fn parse_u32_follows_std() {
    for s in ["0", "42", "+7", "007", "4294967295", "4294967296", "", "+", "-1", "1.5", " 1", "++1", "-0", "99999999999"] {
        assert_eq!(parse_u32(s), s.parse::<u32>().ok(), "input {s:?}");
    }
}

#[test]
fn decimals_match_display() {
    for n in [0u128, 7, 10, 1234567890, u128::MAX] {
        let mut s = String::new();
        push_decimal(&mut s, n);
        assert_eq!(s, n.to_string());
    }
    for n in [0i32, -1, 15, i32::MIN, i32::MAX] {
        let mut s = String::from("x");
        push_signed_decimal(&mut s, n);
        assert_eq!(s, format!("x{n}"));
    }
}

#[test]
fn decimal_reads_back() {
    for n in [0u32, 9, 10, 65535, u32::MAX] {
        let mut s = String::new();
        push_decimal(&mut s, n as u128);
        assert_eq!(parse_u32(&s), Some(n));
    }
}

#[test]
fn risk_flags_destructive_commands() {
    assert_eq!(risk("rm -rf build"), Some("recursive force remove"));
    assert_eq!(risk("RM -FR /tmp/x"), Some("recursive force remove"));
    assert_eq!(risk("sudo apt install x"), Some("privileged command"));
    assert_eq!(risk("SUDO ls"), Some("privileged command"));
    assert_eq!(risk("git reset --hard"), Some("destructive git command"));
    assert_eq!(risk("Git Clean -fd"), Some("destructive git command"));
    assert_eq!(risk("ls -la"), None);
    assert_eq!(risk("sudo"), None);
    assert_eq!(risk("rm -r dir"), None);
}

#[test]
fn risk_agrees_with_unicode_lowercase() {
    let samples = ["İgit reset", "gİt reset", "KELVIN \u{212A} rm -rf", "ÅSUDO ls", "gıt clean"];
    for s in samples {
        let lower = s.to_lowercase();
        let expected = if lower.contains("rm -rf") || lower.contains("rm -fr") {
            Some("recursive force remove")
        } else if lower.contains("sudo ") {
            Some("privileged command")
        } else if lower.contains("git reset") || lower.contains("git clean") {
            Some("destructive git command")
        } else {
            None
        };
        assert_eq!(risk(s), expected, "input {s:?}");
    }
}

#[test]
fn shell_quote_wraps_and_escapes() {
    assert_eq!(shell_quote("/usr/bin/neomux"), "'/usr/bin/neomux'");
    assert_eq!(shell_quote("it's"), "'it'\\''s'");
    assert_eq!(shell_quote(""), "''");
}

#[test]
fn slug_replaces_unsafe_characters() {
    assert_eq!(slug("my project.v2"), "my-project-v2");
    assert_eq!(slug("ok_Name-9"), "ok_Name-9");
    assert_eq!(slug("ünï"), "-n-");
    let once = slug("a b/c");
    assert_eq!(slug(&once), once);
}

#[test]
fn run_shell_uses_login_shell() {
    let inv = run_shell("echo hi");
    assert_eq!(inv.program, "sh");
    assert_eq!(inv.args, vec!["-lc".to_string(), "echo hi".to_string()]);
    let probe = command_probe("tmux");
    assert_eq!(probe.program, "sh");
    assert_eq!(probe.args, vec!["-lc".to_string(), "command -v tmux".to_string()]);
}

#[test]
fn require_command_reports_missing_program() {
    assert_eq!(require_command("tmux", true), Ok(()));
    assert_eq!(
        require_command("nvim", false),
        Err("nvim is required. Fix: install nvim and make sure it is in PATH".to_string())
    );
}

#[test]
fn path_str_refuses_non_utf8() {
    assert_eq!(path_str(Some("/home/me")), Ok("/home/me"));
    assert_eq!(path_str(None), Err("path is not valid utf-8".to_string()));
}

#[test]
fn str_eq_and_byte_len() {
    assert!(str_eq("abc", "abc"));
    assert!(!str_eq("abc", "abd"));
    assert!(!str_eq("abc", "ab"));
    assert_eq!(byte_len("aé€😀"), "aé€😀".len() as u128);
}

#[test]
fn truncate_bytes_matches_string_truncate() {
    let text = "aé€😀b".repeat(3);
    for limit in [0usize, 1, 3, 6, 10, 11, 100] {
        if text.len() <= limit || text.is_char_boundary(limit) {
            let mut expected = text.clone();
            expected.truncate(limit);
            assert_eq!(truncate_bytes(text.clone(), limit), expected, "limit {limit}");
        }
    }
}

#[test]
fn json_literals_read_back() {
    // Each escaped text, quoted, is the JSON literal a JSON writer produces for it.
    let cases = [
        ("plain", "\"plain\""),
        ("q\"b\\n\n\r\t", "\"q\\\"b\\\\n\\n\\r\\t\""),
        ("ünï/", "\"ünï/\""),
    ];
    for (text, literal) in cases {
        assert_eq!(format!("\"{}\"", json(text)), literal);
    }
}

#[test]
fn shell_quote_reads_back_as_one_word() {
    // Reading single-quoted parts literally and `\'` as a quote gives the value back.
    fn sh_read(word: &str) -> Option<String> {
        let mut out = String::new();
        let mut chars = word.chars();
        let mut quoted = false;
        while let Some(c) = chars.next() {
            if quoted {
                if c == '\'' { quoted = false } else { out.push(c) }
            } else if c == '\'' {
                quoted = true;
            } else if c == '\\' {
                out.push(chars.next()?);
            } else {
                return None;
            }
        }
        if quoted { None } else { Some(out) }
    }
    for value in ["", "plain", "it's", "''", "a b $HOME *", "\\'"] {
        assert_eq!(sh_read(&shell_quote(value)), Some(value.to_string()));
    }
}
