//! Shell-facing helpers: splitting agent command lines, quoting for `sh`,
//! session-name slugs, the risk screen for shell commands, and the programs
//! that the agent asks the system to run.

use vstd::prelude::*;
use vstd::string::StrSliceExecFns;

use crate::text::{
    chars_of, contains_chars, contains_seq, find, find_in, lemma_find_from_bounds, push_str, trim,
    trim_str,
};

verus! {

/// A program and its arguments, to be run by the caller.
pub struct Invocation {
    pub program: String,
    pub args: Vec<String>,
}

/// The characters of each string of `v`.
pub open spec fn strings_view(v: Seq<String>) -> Seq<Seq<char>> {
    v.map_values(|s: String| s@)
}

/// The characters of each argument of `inv`.
pub open spec fn args_view(inv: &Invocation) -> Seq<Seq<char>> {
    strings_view(inv.args@)
}

/// Owned copies of `parts`, in order.
pub fn strings(parts: &[&str]) -> (r: Vec<String>)
    ensures
        strings_view(r@) == parts@.map_values(|p: &str| p@),
{
    let mut r: Vec<String> = Vec::new();
    let mut i: usize = 0;
    while i < parts.len()
        invariant
            i <= parts@.len(),
            strings_view(r@) == parts@.take(i as int).map_values(|p: &str| p@),
        decreases parts@.len() - i,
    {
        let ghost before = r@;
        let part: String = parts[i].to_owned();
        assert(part@ == parts@[i as int]@);
        r.push(part);
        assert(strings_view(r@) =~= strings_view(before).push(parts@[i as int]@));
        assert(parts@.take(i + 1).map_values(|p: &str| p@) =~= parts@.take(i as int).map_values(
            |p: &str| p@,
        ).push(parts@[i as int]@));
        i = i + 1;
    }
    assert(parts@.take(i as int) =~= parts@);
    r
}

/// The command word and the trimmed argument of an agent line: split at the
/// first space; a line without a space is all command and has no argument.
pub open spec fn split_command_spec(line: Seq<char>) -> (Seq<char>, Seq<char>) {
    match find(line, seq![' ']) {
        None => (line, Seq::empty()),
        Some(k) => (line.take(k), trim(line.skip(k + 1))),
    }
}

/// Splits an agent line into its command word and its argument: the part
/// before the first space, and what follows it with surrounding whitespace
/// removed. A line without a space is all command, with an empty argument.
pub fn split_command(line: &str) -> (r: (&str, &str))
    ensures
        (r.0@, r.1@) == split_command_spec(line@),
{
    let v = chars_of(line);
    let mut space: Vec<char> = Vec::new();
    space.push(' ');
    assert(space@ =~= seq![' ']);
    match find_in(&v, &space, 0) {
        None => {
            proof {
                reveal_strlit("");
            }
            assert(""@ =~= Seq::<char>::empty());
            (line, "")
        },
        Some(k) => {
            proof {
                lemma_find_from_bounds(v@, space@, 0);
            }
            let n = v.len();
            assert(k + 1 <= n);
            let command = line.substring_char(0, k);
            let rest = line.substring_char(k + 1, n);
            assert(line@.subrange(0, k as int) =~= line@.take(k as int));
            assert(line@.subrange(k + 1, v@.len() as int) =~= line@.skip(k + 1));
            (command, trim_str(rest))
        },
    }
}

/// `c` in lower case when it is an ASCII capital letter, else `c` itself.
pub open spec fn ascii_lower(c: char) -> char {
    if 'A' <= c && c <= 'Z' {
        ((c as int) + 32) as char
    } else {
        c
    }
}

/// The reason why the shell command `command` asks for confirmation, if any.
///
/// Matching is case-insensitive. `str::to_lowercase` followed by `contains`
/// finds the same patterns: the patterns are lower-case ASCII, ASCII letters
/// lower-case alike under both, and no other character lower-cases to a
/// pattern character except U+0130, whose `i` is always followed by U+0307.
pub open spec fn risk_reason(command: Seq<char>) -> Option<Seq<char>> {
    let lower = command.map_values(|c: char| ascii_lower(c));
    if contains_seq(lower, "rm -rf"@) || contains_seq(lower, "rm -fr"@) {
        Some("recursive force remove"@)
    } else if contains_seq(lower, "sudo "@) {
        Some("privileged command"@)
    } else if contains_seq(lower, "git reset"@) || contains_seq(lower, "git clean"@) {
        Some("destructive git command"@)
    } else {
        None
    }
}

/// Screens a shell command for destructive patterns (recursive force remove,
/// `sudo`, `git reset`, `git clean`), ignoring case; returns why it asks
/// for confirmation, or `None`.
pub fn risk(command: &str) -> (r: Option<&'static str>)
    ensures
        match r {
            Some(reason) => risk_reason(command@) == Some(reason@),
            None => risk_reason(command@) is None,
        },
{
    let v = chars_of(command);
    let mut lower: Vec<char> = Vec::new();
    let mut i: usize = 0;
    while i < v.len()
        invariant
            i <= v@.len(),
            lower@ == v@.take(i as int).map_values(|c: char| ascii_lower(c)),
        decreases v@.len() - i,
    {
        let c = v[i];
        let l = if 'A' <= c && c <= 'Z' {
            ((c as u8) + 32) as char
        } else {
            c
        };
        assert(l == ascii_lower(c));
        lower.push(l);
        i = i + 1;
        assert(lower@ =~= v@.take(i as int).map_values(|c: char| ascii_lower(c)));
    }
    assert(v@.take(v@.len() as int) =~= v@);
    if contains_chars(&lower, "rm -rf") || contains_chars(&lower, "rm -fr") {
        Some("recursive force remove")
    } else if contains_chars(&lower, "sudo ") {
        Some("privileged command")
    } else if contains_chars(&lower, "git reset") || contains_chars(&lower, "git clean") {
        Some("destructive git command")
    } else {
        None
    }
}

/// How one character is written inside single quotes for `sh`.
pub open spec fn quote_char(c: char) -> Seq<char> {
    if c == '\'' {
        seq!['\'', '\\', '\'', '\'']
    } else {
        seq![c]
    }
}

/// `s` with every single quote written as `'\''`.
pub open spec fn quote_body(s: Seq<char>) -> Seq<char>
    decreases s.len(),
{
    if s.len() == 0 {
        Seq::empty()
    } else {
        quote_body(s.drop_last()) + quote_char(s.last())
    }
}

/// Characters that `sh` treats specially outside quotes: blanks and
/// newlines end a word, operators start a new one, and the others begin
/// quoting, expansion, pattern matching or a comment.
pub open spec fn sh_special(c: char) -> bool {
    ||| c == ' ' || c == '\t' || c == '\n'
    ||| c == '|' || c == '&' || c == ';' || c == '<' || c == '>' || c == '(' || c == ')'
    ||| c == '$' || c == '`' || c == '"' || c == '*' || c == '?' || c == '[' || c == '#'
        || c == '~'
}

/// The single field that POSIX `sh` makes of the text `s` read as one word
/// made of single-quoted parts (taken literally up to the next `'`),
/// backslash-escaped characters (a backslash before a newline joins lines)
/// and plain characters. `None` when `s` is not such a word: an unclosed
/// quote, a trailing backslash, a NUL, or a character that `sh` would treat
/// specially (see `sh_special`) outside quotes. `quoted` tells whether a
/// single-quoted part is open.
pub open spec fn sh_read(s: Seq<char>, quoted: bool) -> Option<Seq<char>>
    decreases s.len(),
{
    if quoted {
        if s.len() == 0 || s[0] == '\0' {
            None
        } else if s[0] == '\'' {
            sh_read(s.skip(1), false)
        } else {
            crate::text::prepend(s[0], sh_read(s.skip(1), true))
        }
    } else {
        if s.len() == 0 {
            Some(Seq::empty())
        } else if s[0] == '\'' {
            sh_read(s.skip(1), true)
        } else if s[0] == '\\' {
            if s.len() < 2 || s[1] == '\0' {
                None
            } else if s[1] == '\n' {
                sh_read(s.skip(2), false)
            } else {
                crate::text::prepend(s[1], sh_read(s.skip(2), false))
            }
        } else if s[0] == '\0' || sh_special(s[0]) {
            None
        } else {
            crate::text::prepend(s[0], sh_read(s.skip(1), false))
        }
    }
}

/// Quotes `value` as one word for `sh`: wrapped in single quotes, with every
/// single quote inside written as `'\''`.
pub fn shell_quote(value: &str) -> (r: String)
    ensures
        r@ == seq!['\''] + quote_body(value@) + seq!['\''],
{
    let v = chars_of(value);
    let mut out = String::new();
    out.push('\'');
    let mut i: usize = 0;
    while i < v.len()
        invariant
            i <= v@.len(),
            out@ == seq!['\''] + quote_body(v@.take(i as int)),
        decreases v@.len() - i,
    {
        let c = v[i];
        let ghost before = out@;
        if c == '\'' {
            out.push('\'');
            out.push('\\');
            out.push('\'');
            out.push('\'');
        } else {
            out.push(c);
        }
        assert(v@.take(i + 1).drop_last() =~= v@.take(i as int));
        assert(out@ =~= before + quote_char(c));
        i = i + 1;
    }
    assert(v@.take(v@.len() as int) =~= v@);
    out.push('\'');
    out
}

/// Whether `c` stays as it is in a session slug.
pub open spec fn slug_keeps(c: char) -> bool {
    ||| ('a' <= c && c <= 'z')
    ||| ('A' <= c && c <= 'Z')
    ||| ('0' <= c && c <= '9')
    ||| c == '-'
    ||| c == '_'
}

/// The character that `c` becomes in a session slug.
pub open spec fn slug_char(c: char) -> char {
    if slug_keeps(c) {
        c
    } else {
        '-'
    }
}

/// `s` with every character made safe for a session name.
pub open spec fn slug_spec(s: Seq<char>) -> Seq<char> {
    s.map_values(|c: char| slug_char(c))
}

/// Makes `value` safe as part of a tmux session name: ASCII letters,
/// digits, `-` and `_` are kept, every other character becomes `-`.
pub fn slug(value: &str) -> (r: String)
    ensures
        r@ == slug_spec(value@),
{
    let v = chars_of(value);
    let mut out = String::new();
    let mut i: usize = 0;
    while i < v.len()
        invariant
            i <= v@.len(),
            out@ == v@.take(i as int).map_values(|c: char| slug_char(c)),
        decreases v@.len() - i,
    {
        let c = v[i];
        let keep = ('a' <= c && c <= 'z') || ('A' <= c && c <= 'Z') || ('0' <= c && c <= '9') || c
            == '-' || c == '_';
        if keep {
            out.push(c);
        } else {
            out.push('-');
        }
        i = i + 1;
        assert(out@ =~= v@.take(i as int).map_values(|c: char| slug_char(c)));
    }
    assert(v@.take(v@.len() as int) =~= v@);
    out
}

/// The invocation that runs `command` through a login shell in the workspace.
pub fn run_shell(command: &str) -> (r: Invocation)
    ensures
        r.program@ == "sh"@,
        args_view(&r) == seq!["-lc"@, command@],
{
    let mut args: Vec<String> = Vec::new();
    args.push("-lc".to_owned());
    args.push(command.to_owned());
    let r = Invocation { program: "sh".to_owned(), args };
    assert(args_view(&r) =~= seq!["-lc"@, command@]);
    r
}

/// The invocation that asks a login shell whether `command` is on the `PATH`.
pub fn command_probe(command: &str) -> (r: Invocation)
    ensures
        r.program@ == "sh"@,
        args_view(&r) == seq!["-lc"@, "command -v "@ + command@],
{
    let mut probe = "command -v ".to_owned();
    push_str(&mut probe, command);
    let mut args: Vec<String> = Vec::new();
    args.push("-lc".to_owned());
    args.push(probe);
    let r = Invocation { program: "sh".to_owned(), args };
    assert(args_view(&r) =~= seq!["-lc"@, "command -v "@ + command@]);
    r
}

/// The message for a missing required program.
pub open spec fn missing_command_message(command: Seq<char>) -> Seq<char> {
    command + " is required. Fix: install "@ + command + " and make sure it is in PATH"@
}

/// Succeeds when the required program `command` was found on the `PATH`
/// (`found`, the result of running `command_probe`); otherwise fails with
/// a message that names it and says how to fix it.
pub fn require_command(command: &str, found: bool) -> (r: Result<(), String>)
    ensures
        found ==> r is Ok,
        !found ==> (r matches Err(message) && message@ == missing_command_message(command@)),
{
    if found {
        Ok(())
    } else {
        let mut message = command.to_owned();
        push_str(&mut message, " is required. Fix: install ");
        push_str(&mut message, command);
        push_str(&mut message, " and make sure it is in PATH");
        Err(message)
    }
}

/// The text of a path, which `Path::to_str` gives as `path` when the path
/// is valid UTF-8; a path that is not is refused.
pub fn path_str(path: Option<&str>) -> (r: Result<&str, String>)
    ensures
        match path {
            Some(p) => r == Ok::<&str, String>(p),
            None => (r matches Err(message) && message@ == "path is not valid utf-8"@),
        },
{
    match path {
        Some(p) => Ok(p),
        None => Err("path is not valid utf-8".to_owned()),
    }
}

} // verus!
