//! Reading the agent pane's input: which line to act on, which command a
//! line names and with which argument, and what the `/context` command shows.

use vstd::prelude::*;

use crate::agent::AgentState;
use crate::number::{decimal, parse_u32, parse_u32_spec, push_decimal, push_signed_decimal, signed_decimal};
use crate::shell::{Invocation, args_view, split_command, split_command_spec, strings_view};
use crate::text::{byte_len, push_str, str_eq, trim, trim_str};
use vstd::utf8::encode_utf8;

verus! {

/// What the agent does with one line typed at its prompt.
pub enum AgentInput<'a> {
    /// A blank line: nothing to do.
    Skip,
    /// `/exit`: leave the agent.
    Exit,
    /// Any other line, trimmed.
    Line(&'a str),
}

/// Reads one raw input line: trimmed, a blank line is skipped, `/exit`
/// leaves, anything else is acted on.
pub fn agent_input(raw: &str) -> (r: AgentInput<'_>)
    ensures
        trim(raw@).len() == 0 ==> r is Skip,
        trim(raw@).len() > 0 && trim(raw@) == "/exit"@ ==> r is Exit,
        trim(raw@).len() > 0 && trim(raw@) != "/exit"@ ==> (r matches AgentInput::Line(l) && l@
            == trim(raw@)),
{
    let line = trim_str(raw);
    if line.is_empty() {
        AgentInput::Skip
    } else if str_eq(line, "/exit") {
        AgentInput::Exit
    } else {
        AgentInput::Line(line)
    }
}

/// A request typed at the agent prompt.
pub enum AgentCommand {
    /// Text to send to the model.
    Chat(String),
    Help,
    Clear,
    Context,
    /// Search the workspace for a fixed string.
    Find(String),
    /// Load a workspace file into the context.
    Read(String),
    /// Forget a loaded file, or all of them.
    Forget(String),
    /// Run a shell command.
    Run(String),
    /// Switch the model.
    Model(String),
    /// Set the temperature; the argument is read as a number by the caller.
    Temperature(String),
    /// Set the output-token limit.
    MaxTokens(u32),
}

/// Whether `r` is what `parse_agent_line` gives for `line`.
pub open spec fn parsed_as(line: Seq<char>, r: Result<AgentCommand, String>) -> bool {
    if line.len() == 0 || line[0] != '/' {
        r matches Ok(AgentCommand::Chat(p)) && p@ == line
    } else {
        let (c, a) = split_command_spec(line);
        if c == "/help"@ {
            r matches Ok(AgentCommand::Help)
        } else if c == "/clear"@ {
            r matches Ok(AgentCommand::Clear)
        } else if c == "/context"@ {
            r matches Ok(AgentCommand::Context)
        } else if c == "/find"@ {
            r matches Ok(AgentCommand::Find(x)) && x@ == a
        } else if c == "/read"@ {
            if a.len() == 0 {
                r matches Err(e) && e@ == "usage: /read <file>"@
            } else {
                r matches Ok(AgentCommand::Read(x)) && x@ == a
            }
        } else if c == "/forget"@ {
            r matches Ok(AgentCommand::Forget(x)) && x@ == a
        } else if c == "/run"@ {
            if a.len() == 0 {
                r matches Err(e) && e@ == "usage: /run <cmd>"@
            } else {
                r matches Ok(AgentCommand::Run(x)) && x@ == a
            }
        } else if c == "/model"@ {
            if a.len() == 0 {
                r matches Err(e) && e@ == "usage: /model <id>"@
            } else {
                r matches Ok(AgentCommand::Model(x)) && x@ == a
            }
        } else if c == "/temperature"@ {
            r matches Ok(AgentCommand::Temperature(x)) && x@ == a
        } else if c == "/max-tokens"@ {
            match parse_u32_spec(a) {
                Some(n) => r matches Ok(AgentCommand::MaxTokens(m)) && m == n,
                None => r matches Err(e) && e@ == "usage: /max-tokens <integer>"@,
            }
        } else {
            r matches Err(e) && e@ == "unknown command: "@ + c
        }
    }
}

/// Reads a line typed at the agent prompt: a line that does not start with
/// `/` is a chat message; otherwise its command word picks the request and
/// its argument completes it. `/read`, `/run` and `/model` need an argument,
/// `/max-tokens` an unsigned 32-bit integer; an unknown command is refused.
pub fn parse_agent_line(line: &str) -> (r: Result<AgentCommand, String>)
    ensures
        parsed_as(line@, r),
{
    let starts_with_slash = !line.is_empty() && line.get_char(0) == '/';
    if !starts_with_slash {
        return Ok(AgentCommand::Chat(line.to_owned()));
    }
    let (command, arg) = split_command(line);
    if str_eq(command, "/help") {
        Ok(AgentCommand::Help)
    } else if str_eq(command, "/clear") {
        Ok(AgentCommand::Clear)
    } else if str_eq(command, "/context") {
        Ok(AgentCommand::Context)
    } else if str_eq(command, "/find") {
        Ok(AgentCommand::Find(arg.to_owned()))
    } else if str_eq(command, "/read") {
        if arg.is_empty() {
            Err("usage: /read <file>".to_owned())
        } else {
            Ok(AgentCommand::Read(arg.to_owned()))
        }
    } else if str_eq(command, "/forget") {
        Ok(AgentCommand::Forget(arg.to_owned()))
    } else if str_eq(command, "/run") {
        if arg.is_empty() {
            Err("usage: /run <cmd>".to_owned())
        } else {
            Ok(AgentCommand::Run(arg.to_owned()))
        }
    } else if str_eq(command, "/model") {
        if arg.is_empty() {
            Err("usage: /model <id>".to_owned())
        } else {
            Ok(AgentCommand::Model(arg.to_owned()))
        }
    } else if str_eq(command, "/temperature") {
        Ok(AgentCommand::Temperature(arg.to_owned()))
    } else if str_eq(command, "/max-tokens") {
        match parse_u32(arg) {
            Some(n) => Ok(AgentCommand::MaxTokens(n)),
            None => Err("usage: /max-tokens <integer>".to_owned()),
        }
    } else {
        let mut message = "unknown command: ".to_owned();
        push_str(&mut message, command);
        Err(message)
    }
}

/// The arguments of the search that `/find` runs for `pattern`.
pub open spec fn find_args(pattern: Seq<char>) -> Seq<Seq<char>> {
    seq![
        "--line-number"@,
        "--column"@,
        "--color"@,
        "never"@,
        "--fixed-strings"@,
        pattern,
        "."@,
    ]
}

/// The search that `/find` runs for `pattern`: ripgrep for the fixed string,
/// with line and column numbers and no colors, over the workspace.
pub fn find_invocation(pattern: &str) -> (r: Invocation)
    ensures
        r.program@ == "rg"@,
        args_view(&r) == find_args(pattern@),
{
    let mut args: Vec<String> = Vec::new();
    args.push("--line-number".to_owned());
    args.push("--column".to_owned());
    args.push("--color".to_owned());
    args.push("never".to_owned());
    args.push("--fixed-strings".to_owned());
    args.push(pattern.to_owned());
    args.push(".".to_owned());
    let r = Invocation { program: "rg".to_owned(), args };
    assert(args_view(&r) =~= seq![
        "--line-number"@,
        "--column"@,
        "--color"@,
        "never"@,
        "--fixed-strings"@,
        pattern@,
        "."@,
    ]);
    r
}

/// The label under which a `/find` result is kept.
pub fn find_label(pattern: &str) -> (r: String)
    ensures
        r@ == "/find "@ + pattern@,
{
    let mut label = "/find ".to_owned();
    push_str(&mut label, pattern);
    label
}

/// The streaming chat request that `curl` sends to `endpoint` with the API
/// key `key` and the JSON `body`.
pub fn chat_request(endpoint: &str, key: &str, body: &str) -> (r: Invocation)
    ensures
        r.program@ == "curl"@,
        args_view(&r) == seq![
            "-sS"@,
            "-N"@,
            "-X"@,
            "POST"@,
            endpoint@,
            "-H"@,
            "Authorization: Bearer "@ + key@,
            "-H"@,
            "Content-Type: application/json"@,
            "--data"@,
            body@,
        ],
{
    let mut auth = "Authorization: Bearer ".to_owned();
    push_str(&mut auth, key);
    let mut args = crate::shell::strings(&["-sS", "-N", "-X", "POST", endpoint, "-H"]);
    assert(strings_view(args@) =~= seq!["-sS"@, "-N"@, "-X"@, "POST"@, endpoint@, "-H"@]);
    let ghost head = args@;
    args.push(auth);
    assert(strings_view(args@) =~= strings_view(head).push(auth@));
    let mut rest = crate::shell::strings(&["-H", "Content-Type: application/json", "--data", body]);
    assert(strings_view(rest@) =~= seq!["-H"@, "Content-Type: application/json"@, "--data"@, body@]);
    let ghost tail = strings_view(rest@);
    let ghost mid = strings_view(args@);
    args.append(&mut rest);
    let r = Invocation { program: "curl".to_owned(), args };
    assert(strings_view(r.args@) =~= mid + tail);
    assert(args_view(&r) =~= seq![
        "-sS"@,
        "-N"@,
        "-X"@,
        "POST"@,
        endpoint@,
        "-H"@,
        "Authorization: Bearer "@ + key@,
        "-H"@,
        "Content-Type: application/json"@,
        "--data"@,
        body@,
    ]);
    r
}

/// `s` without its trailing slashes, as `trim_end_matches('/')` leaves it.
pub open spec fn strip_trailing_slashes(s: Seq<char>) -> Seq<char>
    decreases s.len(),
{
    if s.len() > 0 && s.last() == '/' {
        strip_trailing_slashes(s.drop_last())
    } else {
        s
    }
}

/// The chat-completions URL under the base URL `base`.
pub fn chat_endpoint(base: &str) -> (r: String)
    ensures
        r@ == strip_trailing_slashes(base@) + "/chat/completions"@,
{
    let v = crate::text::chars_of(base);
    let mut end = v.len();
    assert(v@.take(v@.len() as int) =~= v@);
    while end > 0 && v[end - 1] == '/'
        invariant
            end <= v@.len(),
            strip_trailing_slashes(v@) == strip_trailing_slashes(v@.take(end as int)),
        decreases end,
    {
        assert(v@.take(end as int).drop_last() =~= v@.take(end - 1));
        end = end - 1;
    }
    let mut url = crate::text::string_of(&v, 0, end);
    assert(v@.subrange(0, end as int) =~= v@.take(end as int));
    push_str(&mut url, "/chat/completions");
    url
}

/// The escape code that dims text in the terminal.
pub open spec fn muted() -> Seq<char> {
    "\x1b[38;2;110;106;134m"@
}

/// The escape code that resets terminal colors.
pub open spec fn reset() -> Seq<char> {
    "\x1b[0m"@
}

/// A count as `/context` shows it: `none` for zero.
pub open spec fn count_text(n: nat) -> Seq<char> {
    if n == 0 {
        "none"@
    } else {
        decimal(n)
    }
}

/// How `/context` lists a loaded file: its path and its size in bytes.
pub open spec fn file_line(path: Seq<char>, text: Seq<char>) -> Seq<char> {
    "  "@ + path + " ("@ + decimal(encode_utf8(text).len()) + " chars)"@
}

/// How `/context` lists a kept command result.
pub open spec fn command_line(c: (Seq<char>, Seq<char>, i32, u128)) -> Seq<char> {
    "  "@ + c.0 + ": exit "@ + signed_decimal(c.2 as int) + " in "@ + decimal(c.3 as nat) + "ms"@
}

/// The lines that `/context` prints for the given files and commands.
pub open spec fn context_report_lines(
    files: Seq<(Seq<char>, Seq<char>)>,
    commands: Seq<(Seq<char>, Seq<char>, i32, u128)>,
) -> Seq<Seq<char>> {
    seq![muted() + "files:"@ + reset() + " "@ + count_text(files.len())] + files.map_values(
        |f: (Seq<char>, Seq<char>)| file_line(f.0, f.1),
    ) + seq![muted() + "recent commands:"@ + reset() + " "@ + count_text(commands.len())]
        + commands.map_values(|c: (Seq<char>, Seq<char>, i32, u128)| command_line(c))
}

/// Appends the count `n` as `/context` shows it.
fn push_count(out: &mut String, n: usize)
    ensures
        final(out)@ == old(out)@ + count_text(n as nat),
{
    if n == 0 {
        push_str(out, "none");
    } else {
        push_decimal(out, n as u128);
    }
}

impl AgentState {
    /// The lines that `/context` prints: how many files are loaded, each
    /// with its size in bytes, then how many command results are kept, each
    /// with its exit code and duration.
    pub fn context_report(&self) -> (r: Vec<String>)
        ensures
            strings_view(r@) == context_report_lines(self.files_seq(), self.commands_seq()),
    {
        let mut lines: Vec<String> = Vec::new();
        let mut head = String::new();
        push_str(&mut head, "\x1b[38;2;110;106;134mfiles:\x1b[0m ");
        proof {
            reveal_strlit("\x1b[38;2;110;106;134mfiles:\x1b[0m ");
            reveal_strlit("\x1b[38;2;110;106;134m");
            reveal_strlit("files:");
            reveal_strlit("\x1b[0m");
            reveal_strlit(" ");
            assert("\x1b[38;2;110;106;134mfiles:\x1b[0m "@ =~= muted() + "files:"@ + reset() + " "@);
        }
        push_count(&mut head, self.files.len());
        lines.push(head);
        assert(strings_view(lines@) =~= seq![head@]);
        let ghost fs = self.files_seq();
        let ghost fl = |f: (Seq<char>, Seq<char>)| file_line(f.0, f.1);
        let mut i: usize = 0;
        while i < self.files.len()
            invariant
                i <= self.files@.len(),
                fs == self.files_seq(),
                fl == (|f: (Seq<char>, Seq<char>)| file_line(f.0, f.1)),
                strings_view(lines@) == seq![muted() + "files:"@ + reset() + " "@ + count_text(fs.len())]
                    + fs.take(i as int).map_values(fl),
            decreases self.files@.len() - i,
        {
            let file = &self.files[i];
            let mut line = "  ".to_owned();
            push_str(&mut line, file.path.as_str());
            push_str(&mut line, " (");
            push_decimal(&mut line, byte_len(file.text.as_str()));
            push_str(&mut line, " chars)");
            assert(line@ =~= file_line(file.path@, file.text@));
            let ghost before = lines@;
            lines.push(line);
            assert(strings_view(lines@) =~= strings_view(before).push(line@));
            assert(fs.take(i + 1).map_values(fl) =~= fs.take(i as int).map_values(fl).push(fl(fs[i as int])));
            assert(strings_view(lines@) =~= seq![muted() + "files:"@ + reset() + " "@ + count_text(fs.len())]
                + fs.take(i + 1).map_values(fl));
            i = i + 1;
        }
        assert(fs.take(i as int) =~= fs);
        let ghost first = strings_view(lines@);
        let mut head = String::new();
        push_str(&mut head, "\x1b[38;2;110;106;134mrecent commands:\x1b[0m ");
        proof {
            reveal_strlit("\x1b[38;2;110;106;134mrecent commands:\x1b[0m ");
            reveal_strlit("\x1b[38;2;110;106;134m");
            reveal_strlit("recent commands:");
            reveal_strlit("\x1b[0m");
            reveal_strlit(" ");
            assert("\x1b[38;2;110;106;134mrecent commands:\x1b[0m "@ =~= muted() + "recent commands:"@
                + reset() + " "@);
        }
        push_count(&mut head, self.commands.len());
        let ghost before = lines@;
        lines.push(head);
        assert(strings_view(lines@) =~= strings_view(before).push(head@));
        let ghost cs = self.commands_seq();
        let ghost cl = |c: (Seq<char>, Seq<char>, i32, u128)| command_line(c);
        let mut k: usize = 0;
        while k < self.commands.len()
            invariant
                k <= self.commands@.len(),
                cs == self.commands_seq(),
                cl == (|c: (Seq<char>, Seq<char>, i32, u128)| command_line(c)),
                strings_view(lines@) == first + seq![muted() + "recent commands:"@ + reset() + " "@
                    + count_text(cs.len())] + cs.take(k as int).map_values(cl),
            decreases self.commands@.len() - k,
        {
            let command = &self.commands[k];
            let mut line = "  ".to_owned();
            push_str(&mut line, command.label.as_str());
            push_str(&mut line, ": exit ");
            push_signed_decimal(&mut line, command.code);
            push_str(&mut line, " in ");
            push_decimal(&mut line, command.ms);
            push_str(&mut line, "ms");
            assert(cs[k as int] == (command.label@, command.text@, command.code, command.ms));
            assert(line@ =~= command_line(cs[k as int]));
            let ghost before = lines@;
            lines.push(line);
            assert(strings_view(lines@) =~= strings_view(before).push(line@));
            assert(cs.take(k + 1).map_values(cl) =~= cs.take(k as int).map_values(cl).push(cl(cs[k as int])));
            assert(strings_view(lines@) =~= first + seq![muted() + "recent commands:"@ + reset() + " "@
                + count_text(cs.len())] + cs.take(k + 1).map_values(cl));
            k = k + 1;
        }
        assert(cs.take(k as int) =~= cs);
        lines
    }
}

} // verus!
