//! The command line of the `neomux` program: which subcommand runs, and what
//! `doctor`, `config` and `version` report.

use vstd::prelude::*;

use crate::agent::{default_endpoint, default_model, resolve_endpoint, resolve_model};
use crate::launch::opt_view;
use crate::shell::{strings_view, Invocation};
use crate::text::{chars_of, contains_chars, contains_seq, push_str, str_eq};

verus! {

/// The subcommand that the program runs.
pub enum CliCommand {
    /// Run the agent pane in this terminal.
    Agent,
    /// Check the local setup.
    Doctor,
    /// List the bundled model metadata.
    Models,
    /// Show the active configuration.
    Config,
    /// Print the version, as JSON when asked to.
    Version(bool),
    /// Print the usage.
    Help,
    /// Start the tmux cockpit; every argument goes to the launcher.
    Launch,
}

/// The subcommand that the arguments (after the program name) select.
pub open spec fn cli_spec(args: Seq<Seq<char>>) -> CliCommand {
    if args.len() == 0 {
        CliCommand::Launch
    } else {
        let a = args[0];
        if a == "agent"@ {
            CliCommand::Agent
        } else if a == "doctor"@ {
            CliCommand::Doctor
        } else if a == "models"@ {
            CliCommand::Models
        } else if a == "config"@ {
            CliCommand::Config
        } else if a == "version"@ {
            CliCommand::Version(args.len() > 1 && args[1] == "--json"@)
        } else if a == "--version"@ || a == "-V"@ {
            CliCommand::Version(false)
        } else if a == "--help"@ || a == "-h"@ {
            CliCommand::Help
        } else {
            CliCommand::Launch
        }
    }
}

/// Picks the subcommand from the first argument after the program name;
/// `version --json` asks for JSON, and anything unrecognised (or nothing)
/// starts the tmux cockpit.
pub fn parse_cli(args: &Vec<String>) -> (r: CliCommand)
    ensures
        r == cli_spec(strings_view(args@)),
{
    if args.len() == 0 {
        return CliCommand::Launch;
    }
    let a = args[0].as_str();
    if str_eq(a, "agent") {
        CliCommand::Agent
    } else if str_eq(a, "doctor") {
        CliCommand::Doctor
    } else if str_eq(a, "models") {
        CliCommand::Models
    } else if str_eq(a, "config") {
        CliCommand::Config
    } else if str_eq(a, "version") {
        CliCommand::Version(args.len() > 1 && str_eq(args[1].as_str(), "--json"))
    } else if str_eq(a, "--version") || str_eq(a, "-V") {
        CliCommand::Version(false)
    } else if str_eq(a, "--help") || str_eq(a, "-h") {
        CliCommand::Help
    } else {
        CliCommand::Launch
    }
}

/// Whether the terminal shows colors well: `COLORTERM` is set, or `TERM`
/// names a 256-color or truecolor terminal.
pub fn colors_supported(colorterm_set: bool, term: Option<&str>) -> (r: bool)
    ensures
        r == (colorterm_set || match term {
            Some(t) => contains_seq(t@, "256color"@) || contains_seq(t@, "truecolor"@),
            None => false,
        }),
{
    if colorterm_set {
        return true;
    }
    match term {
        Some(t) => {
            let v = chars_of(t);
            contains_chars(&v, "256color") || contains_chars(&v, "truecolor")
        },
        None => false,
    }
}

/// The programs that `doctor` requires.
pub open spec fn doctor_tools() -> Seq<Seq<char>> {
    seq!["tmux"@, "nvim"@, "rg"@, "curl"@]
}

/// How `doctor` reports a required program.
pub open spec fn tool_line(tool: Seq<char>, found: bool) -> Seq<char> {
    if found {
        "ok   "@ + tool
    } else {
        "miss "@ + tool + "  fix: install "@ + tool + " and make sure it is in PATH"@
    }
}

/// What `doctor` reports, line by line.
pub open spec fn doctor_lines(found: Seq<bool>, key_set: bool, colors: bool, endpoint: bool) -> Seq<
    Seq<char>,
> {
    Seq::new(4, |i: int| tool_line(doctor_tools()[i], found[i])) + seq![
        if key_set {
            "ok   MAKERS_MODELS_KEY"@
        } else {
            "miss MAKERS_MODELS_KEY  fix: export MAKERS_MODELS_KEY=\"...\""@
        },
        if colors {
            "ok   terminal colors"@
        } else {
            "warn terminal colors  fix: use a 256-color or truecolor terminal"@
        },
        if endpoint {
            "ok   EdgeOne endpoint"@
        } else {
            "warn EdgeOne endpoint  fix: check network or EDGEONE_BASE_URL"@
        },
    ]
}

/// The programs that `doctor` probes, in the order it reports them.
pub fn doctor_programs() -> (r: Vec<String>)
    ensures
        strings_view(r@) == doctor_tools(),
{
    let r = crate::shell::strings(&["tmux", "nvim", "rg", "curl"]);
    assert(strings_view(r@) =~= doctor_tools());
    r
}

/// The report of `doctor` from what it found: whether each of `tmux`,
/// `nvim`, `rg` and `curl` is on the `PATH` (`found`, in that order), whether
/// the API key is set, whether the terminal shows colors, and whether the
/// endpoint answered. The flag is set when a program or the key is missing;
/// colors and the endpoint only warn.
pub fn doctor_report(found: &Vec<bool>, key_set: bool, colors: bool, endpoint: bool) -> (r: (
    Vec<String>,
    bool,
))
    requires
        found@.len() == 4,
    ensures
        strings_view(r.0@) == doctor_lines(found@, key_set, colors, endpoint),
        r.1 == (!key_set || exists|i: int| 0 <= i < 4 && !found@[i]),
{
    let tools = doctor_programs();
    assert(tools@.len() == 4) by {
        assert(strings_view(tools@).len() == tools@.len());
    }
    let mut lines: Vec<String> = Vec::new();
    let mut failed = false;
    let mut i: usize = 0;
    while i < 4
        invariant
            i <= 4,
            found@.len() == 4,
            strings_view(tools@) == doctor_tools(),
            tools@.len() == 4,
            strings_view(lines@) == Seq::new(i as nat, |k: int| tool_line(doctor_tools()[k], found@[k])),
            failed == (exists|k: int| 0 <= k < i && !found@[k]),
        decreases 4 - i,
    {
        let tool = tools[i].as_str();
        assert(strings_view(tools@)[i as int] == tools@[i as int]@);
        assert(tool@ == doctor_tools()[i as int]);
        let mut line = String::new();
        if found[i] {
            push_str(&mut line, "ok   ");
            push_str(&mut line, tool);
        } else {
            failed = true;
            push_str(&mut line, "miss ");
            push_str(&mut line, tool);
            push_str(&mut line, "  fix: install ");
            push_str(&mut line, tool);
            push_str(&mut line, " and make sure it is in PATH");
        }
        assert(line@ =~= tool_line(doctor_tools()[i as int], found@[i as int]));
        let ghost before = lines@;
        lines.push(line);
        assert(strings_view(lines@) =~= strings_view(before).push(line@));
        assert(strings_view(lines@) =~= Seq::new((i + 1) as nat, |k: int| tool_line(doctor_tools()[k], found@[k])));
        i = i + 1;
    }
    let ghost tools_part = strings_view(lines@);
    if key_set {
        lines.push("ok   MAKERS_MODELS_KEY".to_owned());
    } else {
        failed = true;
        lines.push("miss MAKERS_MODELS_KEY  fix: export MAKERS_MODELS_KEY=\"...\"".to_owned());
    }
    if colors {
        lines.push("ok   terminal colors".to_owned());
    } else {
        lines.push("warn terminal colors  fix: use a 256-color or truecolor terminal".to_owned());
    }
    if endpoint {
        lines.push("ok   EdgeOne endpoint".to_owned());
    } else {
        lines.push("warn EdgeOne endpoint  fix: check network or EDGEONE_BASE_URL".to_owned());
    }
    assert(strings_view(lines@) =~= doctor_lines(found@, key_set, colors, endpoint));
    (lines, failed)
}

/// The request that checks whether the chat endpoint answers within five
/// seconds.
pub fn endpoint_probe(endpoint: &str) -> (r: Invocation)
    ensures
        r.program@ == "curl"@,
        strings_view(r.args@) == seq!["-sS"@, "--max-time"@, "5"@, "-o"@, "/dev/null"@, endpoint@],
{
    let args = crate::shell::strings(&["-sS", "--max-time", "5", "-o", "/dev/null", endpoint]);
    assert(strings_view(args@) =~= seq!["-sS"@, "--max-time"@, "5"@, "-o"@, "/dev/null"@, endpoint@]);
    Invocation { program: "curl".to_owned(), args }
}

/// The lines that `config` prints: the endpoint and model in use (the
/// configured ones, else the defaults) and whether the API key is set.
pub fn config_lines(endpoint: Option<String>, model: Option<String>, key_set: bool) -> (r: Vec<
    String,
>)
    ensures
        strings_view(r@) == seq![
            "endpoint="@ + (match opt_view(endpoint) {
                Some(e) => e,
                None => default_endpoint(),
            }),
            "model="@ + (match opt_view(model) {
                Some(m) => m,
                None => default_model(),
            }),
            "key="@ + (if key_set {
                "set"@
            } else {
                "missing"@
            }),
        ],
{
    let e = resolve_endpoint(endpoint);
    let m = resolve_model(model);
    let mut first = "endpoint=".to_owned();
    push_str(&mut first, e.as_str());
    let mut second = "model=".to_owned();
    push_str(&mut second, m.as_str());
    let mut third = "key=".to_owned();
    if key_set {
        push_str(&mut third, "set");
    } else {
        push_str(&mut third, "missing");
    }
    let ghost views = seq![first@, second@, third@];
    let r = vec![first, second, third];
    assert(strings_view(r@) =~= views);
    r
}

/// What `version` prints: `neomux` and the version, or as JSON the
/// version, the build target, the default model and the default endpoint.
pub fn version_text(version: &str, target: &str, json: bool) -> (r: String)
    ensures
        json ==> r@ == "{\"version\":\""@ + version@ + "\",\"target\":\""@ + target@
            + "\",\"defaultModel\":\""@ + default_model() + "\",\"edgeoneBaseUrl\":\""@
            + default_endpoint() + "\"}"@,
        !json ==> r@ == "neomux "@ + version@,
{
    let mut out = String::new();
    if json {
        push_str(&mut out, "{\"version\":\"");
        push_str(&mut out, version);
        push_str(&mut out, "\",\"target\":\"");
        push_str(&mut out, target);
        push_str(&mut out, "\",\"defaultModel\":\"");
        push_str(&mut out, "@makers/deepseek-v4-flash");
        push_str(&mut out, "\",\"edgeoneBaseUrl\":\"");
        push_str(&mut out, "https://ai-gateway.edgeone.link/v1");
        push_str(&mut out, "\"}");
    } else {
        push_str(&mut out, "neomux ");
        push_str(&mut out, version);
    }
    out
}

} // verus!
