//! Properties that relate several functions of the library.

use vstd::prelude::*;

use crate::agent::{is_exchanges, last_n, other_path};
use crate::cli::{CliCommand, cli_spec, doctor_lines};
use crate::command::{command_line, context_report_lines, file_line, muted, reset};
use crate::launch::launch_scan;
use crate::prompt::{chat_messages, command_block, context_text, file_block, join_map, newest_five, system_prompt};
use crate::step::stream_text;
use vstd::utf8::encode_utf8;
use crate::number::{all_digits, decimal, signed_decimal, digit_char, digit_value, digits_value, parse_u32_spec};
use crate::shell::{quote_body, quote_char, sh_read, slug_keeps, slug_spec, split_command_spec};
use crate::text::{find, find_from, is_ws, trim, trim_end, trim_start};
use crate::text::prepend;
use crate::wire::{
    content_key, data_prefix, done_marker, json_escape, json_escape_char, sse_payload, sse_unescape,
    unescape_char,
};

verus! {

/// Quoting distributes over concatenation.
proof fn lemma_quote_body_concat(a: Seq<char>, b: Seq<char>)
    ensures
        quote_body(a + b) == quote_body(a) + quote_body(b),
    decreases b.len(),
{
    if b.len() == 0 {
        assert(a + b =~= a);
        assert(quote_body(a) + quote_body(b) =~= quote_body(a));
    } else {
        assert((a + b).drop_last() =~= a + b.drop_last());
        assert((a + b).last() == b.last());
        lemma_quote_body_concat(a, b.drop_last());
        assert(quote_body(a + b) =~= quote_body(a) + quote_body(b));
    }
}

/// Inside an open single-quoted part, the quoted text of `v` reads as `v`.
proof fn lemma_sh_read_quoted(v: Seq<char>, rest: Seq<char>)
    requires
        forall|i: int| 0 <= i < v.len() ==> #[trigger] v[i] != '\0',
    ensures
        sh_read(quote_body(v) + rest, true) == prepend_all(v, sh_read(rest, true)),
    decreases v.len(),
{
    if v.len() == 0 {
        assert(quote_body(v) + rest =~= rest);
        assert(prepend_all(v, sh_read(rest, true)) == sh_read(rest, true)) by {
            match sh_read(rest, true) {
                Some(t) => {
                    assert(v + t =~= t);
                },
                None => {},
            }
        }
    } else {
        let c = v[0];
        let t = v.drop_first();
        assert(v =~= seq![c] + t);
        assert forall|i: int| 0 <= i < t.len() implies #[trigger] t[i] != '\0' by {
            assert(t[i] == v[i + 1]);
        }
        lemma_quote_body_concat(seq![c], t);
        assert(seq![c].drop_last() =~= Seq::<char>::empty());
        assert(seq![c].last() == c);
        assert(quote_body(Seq::<char>::empty()) =~= Seq::<char>::empty());
        assert(quote_body(seq![c]) =~= quote_char(c));
        let r = quote_body(t) + rest;
        lemma_sh_read_quoted(t, rest);
        let q = quote_char(c);
        assert(quote_body(v) + rest =~= q + r);
        let s = q + r;
        if c == '\'' {
            let s1 = s.skip(1);
            let s2 = s1.skip(2);
            assert(s1 =~= seq!['\\', '\''] + seq!['\''] + r);
            assert(s2 =~= seq!['\''] + r);
            assert(s2.skip(1) =~= r);
            assert(sh_read(s2, false) == sh_read(r, true));
            assert(s1[0] == '\\' && s1[1] == '\'');
            assert(sh_read(s1, false) == prepend(c, sh_read(s2, false)));
            assert(sh_read(s, true) == sh_read(s1, false));
        } else {
            assert(s.skip(1) =~= r);
            assert(s[0] == c);
            assert(sh_read(s, true) == prepend(c, sh_read(r, true)));
        }
        match sh_read(rest, true) {
            Some(u) => {
                assert(seq![c] + (t + u) =~= v + u);
            },
            None => {},
        }
    }
}

/// The text `v` in front of the field `rest`, if there is one.
pub open spec fn prepend_all(v: Seq<char>, rest: Option<Seq<char>>) -> Option<Seq<char>> {
    match rest {
        Some(t) => Some(v + t),
        None => None,
    }
}

/// POSIX `sh` reads what `shell_quote` makes of `value` as one word whose
/// field is `value`, with no expansion, splitting or pattern matching,
/// when `value` holds no NUL.
pub proof fn law_shell_quote_reads_back(value: Seq<char>)
    requires
        forall|i: int| 0 <= i < value.len() ==> #[trigger] value[i] != '\0',
    ensures
        sh_read(seq!['\''] + quote_body(value) + seq!['\''], false) == Some(value),
{
    let s = seq!['\''] + quote_body(value) + seq!['\''];
    assert(s.skip(1) =~= quote_body(value) + seq!['\'']);
    lemma_sh_read_quoted(value, seq!['\'']);
    assert(seq!['\''].skip(1) =~= Seq::<char>::empty());
    assert(sh_read(Seq::<char>::empty(), false) == Some(Seq::<char>::empty()));
    assert(sh_read(seq!['\''], true) == Some(Seq::<char>::empty()));
    assert(value + Seq::<char>::empty() =~= value);
}

/// Escaping distributes over concatenation.
pub proof fn lemma_json_escape_concat(a: Seq<char>, b: Seq<char>)
    ensures
        json_escape(a + b) == json_escape(a) + json_escape(b),
    decreases b.len(),
{
    if b.len() == 0 {
        assert(a + b =~= a);
        assert(json_escape(a) + json_escape(b) =~= json_escape(a));
    } else {
        assert((a + b).drop_last() =~= a + b.drop_last());
        assert((a + b).last() == b.last());
        lemma_json_escape_concat(a, b.drop_last());
        assert(json_escape(a + b) =~= json_escape(a) + json_escape(b));
    }
}

/// Decoding an escaped text followed by a closing quote gives the text back.
proof fn lemma_unescape_escaped(s: Seq<char>, tail: Seq<char>)
    requires
        tail.len() > 0,
        tail[0] == '"',
    ensures
        sse_unescape(json_escape(s) + tail) == s,
    decreases s.len(),
{
    if s.len() == 0 {
        assert(json_escape(s) + tail =~= tail);
    } else {
        let c = s[0];
        let rest = s.drop_first();
        assert(s =~= seq![c] + rest);
        lemma_json_escape_concat(seq![c], rest);
        assert(seq![c].drop_last() =~= Seq::<char>::empty());
        assert(seq![c].last() == c);
        assert(json_escape(Seq::<char>::empty()) =~= Seq::<char>::empty());
        assert(json_escape(seq![c]) =~= json_escape_char(c));
        let r = json_escape(rest) + tail;
        lemma_unescape_escaped(rest, tail);
        let e = json_escape_char(c);
        assert(json_escape(s) + tail =~= e + r);
        if e.len() == 2 {
            assert((e + r).skip(2) =~= r);
            assert(unescape_char(e[1]) == c);
        } else {
            assert((e + r).skip(1) =~= r);
        }
        assert(seq![c] + rest =~= s);
    }
}

/// A token written into an event-stream data line, as the server writes it
/// (`data: {"content":"<token, JSON-escaped>"}`), reads back as the token.
pub proof fn law_streamed_token_roundtrip(token: Seq<char>)
    ensures
        sse_payload("data: {\"content\":\""@ + json_escape(token) + "\"}"@) == Some(token),
{
    reveal_strlit("data: {\"content\":\"");
    reveal_strlit("\"}");
    reveal_strlit("data: ");
    reveal_strlit("[DONE]");
    reveal_strlit("\"content\":\"");
    let tail = "\"}"@;
    let line = "data: {\"content\":\""@ + json_escape(token) + tail;
    let data = line.skip(6);
    assert(line.take(6) =~= data_prefix());
    assert(data =~= seq!['{'] + content_key() + json_escape(token) + tail);
    assert(trim_start(data) == data);
    assert(data.last() == '}');
    assert(trim_end(data) == data);
    assert(trim(data) == data);
    assert(data[0] != done_marker()[0]);
    assert(data != done_marker());
    assert(content_key().len() == 11);
    assert(data.subrange(0, 11)[0] != content_key()[0]);
    assert(data.subrange(0, 11) != content_key());
    assert(data.subrange(1, 12) =~= content_key());
    assert(find_from(data, content_key(), 1) == Some(1int));
    assert(find(data, content_key()) == Some(1int));
    assert(data.skip(12) =~= json_escape(token) + tail);
    lemma_unescape_escaped(token, tail);
}

/// The digit for `d` reads back as `d`.
proof fn lemma_digit_roundtrip(d: nat)
    requires
        d < 10,
    ensures
        crate::number::is_digit(digit_char(d)),
        digit_value(digit_char(d)) == d,
{
}

/// A numeral is all digits and spells its number.
pub proof fn lemma_decimal_value(n: nat)
    ensures
        decimal(n).len() > 0,
        all_digits(decimal(n)),
        digits_value(decimal(n)) == n,
    decreases n,
{
    if n < 10 {
        lemma_digit_roundtrip(n);
        let d = decimal(n);
        assert(d =~= seq![digit_char(n)]);
        assert(d.drop_last() =~= Seq::<char>::empty());
        assert(digits_value(Seq::<char>::empty()) == 0);
        assert(digits_value(d) == digits_value(d.drop_last()) * 10 + digit_value(d.last()));
    } else {
        lemma_decimal_value(n / 10);
        lemma_digit_roundtrip(n % 10);
        let d = decimal(n);
        assert(d.drop_last() =~= decimal(n / 10));
        assert(d.last() == digit_char(n % 10));
        assert(digits_value(d) == digits_value(d.drop_last()) * 10 + digit_value(d.last()));
        assert((n / 10) * 10 + n % 10 == n);
        assert(all_digits(d)) by {
            assert forall|i: int| 0 <= i < d.len() implies #[trigger] crate::number::is_digit(d[i]) by {
                if i < d.len() - 1 {
                    assert(d[i] == decimal(n / 10)[i]);
                }
            }
        }
    }
}

/// The numeral that the request body writes for a number (the output-token
/// limit) reads back, as `str::parse::<u32>` reads it, as that number.
pub proof fn law_decimal_reads_back(n: u32)
    ensures
        parse_u32_spec(decimal(n as nat)) == Some(n),
{
    lemma_decimal_value(n as nat);
    let d = decimal(n as nat);
    assert(crate::number::is_digit(d[0]));
}

/// A slug is made only of kept characters, and slugging it again changes nothing.
pub proof fn law_slug_stable(s: Seq<char>)
    ensures
        slug_spec(s).len() == s.len(),
        forall|i: int| 0 <= i < s.len() ==> slug_keeps(#[trigger] slug_spec(s)[i]),
        slug_spec(slug_spec(s)) == slug_spec(s),
{
    assert(slug_spec(slug_spec(s)) =~= slug_spec(s));
}

/// `find_from` skips positions that hold no match.
proof fn lemma_find_skip(s: Seq<char>, pat: Seq<char>, i: int, k: int)
    requires
        0 <= i <= k,
        k + pat.len() <= s.len(),
        forall|j: int| i <= j < k ==> #[trigger] s.subrange(j, j + pat.len()) != pat,
    ensures
        find_from(s, pat, i) == find_from(s, pat, k),
    decreases k - i,
{
    if i < k {
        lemma_find_skip(s, pat, i + 1, k);
    }
}

/// Trimming text that has no surrounding whitespace leaves it as it is.
proof fn lemma_trim_untrimmed(s: Seq<char>)
    requires
        s.len() > 0 ==> !is_ws(s[0]) && !is_ws(s.last()),
    ensures
        trim(s) == s,
{
}

/// The trimmed text has no surrounding whitespace.
proof fn lemma_trim_start_edges(s: Seq<char>)
    ensures
        trim_start(s).len() > 0 ==> !is_ws(trim_start(s)[0]),
        trim_start(s).len() > 0 ==> trim_start(s).last() == s.last(),
        trim_start(s).len() <= s.len(),
    decreases s.len(),
{
    if s.len() > 0 && is_ws(s[0]) {
        lemma_trim_start_edges(s.drop_first());
    }
}

proof fn lemma_trim_end_edges(s: Seq<char>)
    ensures
        trim_end(s).len() > 0 ==> !is_ws(trim_end(s).last()),
        trim_end(s).len() > 0 ==> trim_end(s)[0] == s[0],
    decreases s.len(),
{
    if s.len() > 0 && is_ws(s.last()) {
        lemma_trim_end_edges(s.drop_last());
    }
}

/// Trimming twice trims no more than trimming once.
pub proof fn law_trim_idempotent(s: Seq<char>)
    ensures
        trim(trim(s)) == trim(s),
{
    lemma_trim_start_edges(s);
    lemma_trim_end_edges(trim_start(s));
    lemma_trim_untrimmed(trim(s));
}

/// A command word without spaces, a space and an argument without
/// surrounding whitespace split back into that word and that argument.
pub proof fn law_split_command_roundtrip(command: Seq<char>, arg: Seq<char>)
    requires
        forall|i: int| 0 <= i < command.len() ==> command[i] != ' ',
        trim(arg) == arg,
    ensures
        split_command_spec(command + seq![' '] + arg) == (command, arg),
{
    let line = command + seq![' '] + arg;
    let k = command.len() as int;
    assert forall|j: int| 0 <= j < k implies #[trigger] line.subrange(j, j + 1) != seq![' '] by {
        assert(line.subrange(j, j + 1)[0] == command[j]);
    }
    lemma_find_skip(line, seq![' '], 0, k);
    assert(line.subrange(k, k + 1) =~= seq![' ']);
    assert(find(line, seq![' ']) == Some(k));
    assert(line.take(k) =~= command);
    assert(line.skip(k + 1) =~= arg);
}

/// After an exchange is recorded, the conversation still holds complete
/// exchanges and ends with that exchange.
pub proof fn law_newest_exchange_kept(
    conversation: Seq<(Seq<char>, Seq<char>)>,
    prompt: Seq<char>,
    answer: Seq<char>,
)
    requires
        is_exchanges(conversation),
        conversation.len() <= 30,
    ensures
        ({
            let after = last_n(
                conversation + seq![("user"@, prompt), ("assistant"@, answer)],
                30,
            );
            &&& after.len() >= 2
            &&& after[after.len() - 2] == ("user"@, prompt)
            &&& after[after.len() - 1] == ("assistant"@, answer)
        }),
{
}

/// After a command result is kept, it is the newest one kept.
pub proof fn law_newest_command_kept<T>(commands: Seq<T>, result: T)
    ensures
        last_n(commands.push(result), 8).len() >= 1,
        last_n(commands.push(result), 8).last() == result,
{
}

/// Dropping the files of one path twice drops nothing more.
proof fn lemma_filter_twice(s: Seq<(Seq<char>, Seq<char>)>, path: Seq<char>)
    ensures
        s.filter(other_path(path)).filter(other_path(path)) == s.filter(other_path(path)),
    decreases s.len(),
{
    reveal_with_fuel(Seq::<_>::filter, 1);
    if s.len() > 0 {
        lemma_filter_twice(s.drop_last(), path);
        let p = other_path(path);
        let f = s.drop_last().filter(p);
        if p(s.last()) {
            assert(f.push(s.last()).drop_last() =~= f);
        }
    }
}

/// Forgetting the path of a file just loaded forgets exactly that file and
/// leaves the files that were loaded before it.
pub proof fn law_forget_after_load(
    files: Seq<(Seq<char>, Seq<char>)>,
    path: Seq<char>,
    text: Seq<char>,
)
    ensures
        ({
            let loaded = files.filter(other_path(path)).push((path, text));
            &&& loaded.filter(other_path(path)) == files.filter(other_path(path))
            &&& loaded.len() - loaded.filter(other_path(path)).len() == 1
        }),
{
    reveal_with_fuel(Seq::<_>::filter, 1);
    let p = other_path(path);
    let loaded = files.filter(p).push((path, text));
    assert(loaded.drop_last() =~= files.filter(p));
    assert(!p(loaded.last()));
    lemma_filter_twice(files, path);
}

/// Every request opens with the system prompt and closes with the user's
/// prompt; the conversation so far stands just before that prompt.
pub proof fn law_request_frames_prompt(
    context: Seq<char>,
    conversation: Seq<(Seq<char>, Seq<char>)>,
    prompt: Seq<char>,
)
    ensures
        ({
            let messages = chat_messages(context, conversation, prompt);
            &&& messages[0] == ("system"@, system_prompt())
            &&& messages.last() == ("user"@, prompt)
            &&& messages.subrange(
                messages.len() - 1 - conversation.len(),
                messages.len() - 1,
            ) == conversation
        }),
{
    let messages = chat_messages(context, conversation, prompt);
    assert(messages.subrange(messages.len() - 1 - conversation.len(), messages.len() - 1)
        =~= conversation);
}


/// Loading one more file adds its block at the end of the files part of
/// the context: `--- `, its path, a newline, its text and a blank line,
/// after every block already there; the first file also brings the
/// `Loaded files:` heading. With nothing loaded and no command kept the
/// context is empty, and the command part always follows the files part.
pub proof fn law_context_lists_files_in_load_order(
    files: Seq<(Seq<char>, Seq<char>)>,
    path: Seq<char>,
    text: Seq<char>,
    commands: Seq<(Seq<char>, Seq<char>, i32, u128)>,
)
    ensures
        context_text(Seq::empty(), Seq::empty()) == Seq::<char>::empty(),
        context_text(files.push((path, text)), Seq::empty()) == (if files.len() == 0 {
            "Loaded files:\n"@
        } else {
            context_text(files, Seq::empty())
        }) + "--- "@ + path + "\n"@ + text + "\n\n"@,
        context_text(files, commands) == context_text(files, Seq::empty()) + context_text(
            Seq::empty(),
            commands,
        ),
{
    let f = |x: (Seq<char>, Seq<char>)| file_block(x);
    let g = files.push((path, text));
    assert(g.drop_last() =~= files);
    assert(join_map(g, f) == join_map(files, f) + file_block((path, text)));
    if files.len() == 0 {
        assert(join_map(files, f) =~= Seq::<char>::empty());
    }
    assert(context_text(g, Seq::empty()) =~= (if files.len() == 0 {
        "Loaded files:\n"@
    } else {
        context_text(files, Seq::empty())
    }) + "--- "@ + path + "\n"@ + text + "\n\n"@);
    assert(context_text(files, commands) =~= context_text(files, Seq::empty()) + context_text(
        Seq::empty(),
        commands,
    ));
}

/// The token that one line of the event stream carries, or nothing.
pub open spec fn line_token(line: Seq<char>) -> Seq<char> {
    match sse_payload(line) {
        Some(token) => token,
        None => Seq::empty(),
    }
}

/// The answer read from a stream is the tokens of its lines in order: an
/// empty stream gives an empty answer, one line gives its own token, and
/// the answer of two streams read one after the other is the first
/// answer followed by the second.
pub proof fn law_stream_answer_joins_every_token(
    first: Seq<Seq<char>>,
    second: Seq<Seq<char>>,
    line: Seq<char>,
)
    ensures
        stream_text(Seq::empty()) == Seq::<char>::empty(),
        stream_text(seq![line]) == line_token(line),
        stream_text(first.push(line)) == stream_text(first) + line_token(line),
        stream_text(first + second) == stream_text(first) + stream_text(second),
    decreases second.len(),
{
    assert(stream_text(Seq::<Seq<char>>::empty()) == Seq::<char>::empty());
    assert(seq![line].drop_last() =~= Seq::<Seq<char>>::empty());
    assert(stream_text(seq![line]) =~= line_token(line));
    assert(first.push(line).drop_last() =~= first);
    if second.len() == 0 {
        assert(first + second =~= first);
        assert(stream_text(first) + stream_text(second) =~= stream_text(first));
    } else {
        law_stream_answer_joins_every_token(first, second.drop_last(), line);
        assert((first + second).drop_last() =~= first + second.drop_last());
        assert((first + second).last() == second.last());
        assert(stream_text(first + second) =~= stream_text(first) + stream_text(second));
    }
}

/// Only data lines carry tokens: a line that does not start with `data: `
/// adds nothing to the answer, and neither does the `data: [DONE]` line
/// that ends the stream.
pub proof fn law_stream_skips_other_lines(line: Seq<char>)
    ensures
        !(line.len() >= 6 && line.take(6) == "data: "@) ==> line_token(line) == Seq::<char>::empty(),
        line_token("data: [DONE]"@) == Seq::<char>::empty(),
{
    reveal_strlit("data: ");
    reveal_strlit("data: [DONE]");
    reveal_strlit("[DONE]");
    assert(data_prefix() =~= "data: "@);
    let d = "data: [DONE]"@;
    assert(d.take(6) =~= data_prefix());
    assert(d.skip(6) =~= done_marker());
    assert(trim_start(d.skip(6)) == d.skip(6));
    assert(trim_end(d.skip(6)) == d.skip(6));
}

/// Before the `--session` flag at `j`, the scan carries the configured
/// session along without looking at it.
proof fn lemma_scan_before_flag(
    args: Seq<Seq<char>>,
    i: int,
    j: int,
    target: Option<Seq<char>>,
    s1: Option<Seq<char>>,
    s2: Option<Seq<char>>,
    attach: bool,
)
    requires
        0 <= i <= j,
        j + 1 < args.len(),
        args[j] == "--session"@,
        forall|k: int| 0 <= k < args.len() && k != j && k != j + 1 ==> args[k] != "--session"@,
    ensures
        launch_scan(args, i, target, s1, attach) == launch_scan(args, i, target, s2, attach),
        launch_scan(args, i, target, s1, attach) matches Ok(Some(p)) ==> p.1 == Some(args[j + 1]),
    decreases j - i,
{
    if i == j {
        reveal_strlit("--session");
        reveal_strlit("--no-attach");
        assert("--session"@.len() == 9);
        assert("--no-attach"@.len() == 11);
        lemma_scan_after_flag(args, j + 2, target, Some(args[j + 1]), attach);
    } else {
        let a = args[i];
        assert(a != "--session"@);
        if a == "--no-attach"@ {
            lemma_scan_before_flag(args, i + 1, j, target, s1, s2, false);
        } else if a == "-h"@ || a == "--help"@ {
        } else if a.len() == 0 || a[0] != '-' {
            lemma_scan_before_flag(args, i + 1, j, Some(a), s1, s2, attach);
        }
    }
}

/// With no `--session` flag left, the scan ends with the session it holds.
proof fn lemma_scan_after_flag(
    args: Seq<Seq<char>>,
    i: int,
    target: Option<Seq<char>>,
    session: Option<Seq<char>>,
    attach: bool,
)
    requires
        0 <= i,
        forall|k: int| i <= k < args.len() ==> args[k] != "--session"@,
    ensures
        launch_scan(args, i, target, session, attach) matches Ok(Some(p)) ==> p.1 == session,
    decreases args.len() - i,
{
    if i < args.len() {
        let a = args[i];
        assert(a != "--session"@);
        if a == "--no-attach"@ {
            lemma_scan_after_flag(args, i + 1, target, session, false);
        } else if a == "-h"@ || a == "--help"@ {
        } else if a.len() == 0 || a[0] != '-' {
            lemma_scan_after_flag(args, i + 1, Some(a), session, attach);
        }
    }
}

/// A `--session NAME` argument names the session whatever session the
/// environment configures: the outcome of reading the arguments does not
/// depend on the configured session, and a session that starts is `NAME`.
pub proof fn law_session_flag_overrides_configured(
    args: Seq<Seq<char>>,
    j: int,
    configured: Option<Seq<char>>,
    other: Option<Seq<char>>,
)
    requires
        0 <= j,
        j + 1 < args.len(),
        args[j] == "--session"@,
        forall|k: int| 0 <= k < args.len() && k != j && k != j + 1 ==> args[k] != "--session"@,
    ensures
        launch_scan(args, 0, None, configured, true) == launch_scan(args, 0, None, other, true),
        launch_scan(args, 0, None, configured, true) matches Ok(Some(p)) ==> p.1 == Some(
            args[j + 1],
        ),
{
    lemma_scan_before_flag(args, 0, j, None, configured, other, true);
}

/// Without a `--session` flag, a session that starts is the configured one.
pub proof fn law_configured_session_without_flag(
    args: Seq<Seq<char>>,
    configured: Option<Seq<char>>,
)
    requires
        forall|k: int| 0 <= k < args.len() ==> args[k] != "--session"@,
    ensures
        launch_scan(args, 0, None, configured, true) matches Ok(Some(p)) ==> p.1 == configured,
{
    lemma_scan_after_flag(args, 0, None, configured, true);
}

/// The first argument alone picks the subcommand, whatever follows it:
/// `--version` and `-V` the plain version report, `--help` and `-h` the
/// usage, `agent`, `doctor`, `models` and `config` their commands, and
/// `version` the version report, as JSON exactly when `--json` comes next.
pub proof fn law_first_argument_picks_subcommand(rest: Seq<Seq<char>>)
    ensures
        cli_spec(seq!["--version"@] + rest) == CliCommand::Version(false),
        cli_spec(seq!["-V"@] + rest) == CliCommand::Version(false),
        cli_spec(seq!["--help"@] + rest) == CliCommand::Help,
        cli_spec(seq!["-h"@] + rest) == CliCommand::Help,
        cli_spec(seq!["agent"@] + rest) == CliCommand::Agent,
        cli_spec(seq!["doctor"@] + rest) == CliCommand::Doctor,
        cli_spec(seq!["models"@] + rest) == CliCommand::Models,
        cli_spec(seq!["config"@] + rest) == CliCommand::Config,
        cli_spec(seq!["version"@] + rest) == CliCommand::Version(
            rest.len() > 0 && rest[0] == "--json"@,
        ),
        cli_spec(Seq::empty()) == CliCommand::Launch,
{
    reveal_strlit("--version");
    reveal_strlit("-V");
    reveal_strlit("--help");
    reveal_strlit("-h");
    reveal_strlit("agent");
    reveal_strlit("doctor");
    reveal_strlit("models");
    reveal_strlit("config");
    reveal_strlit("version");
    reveal_strlit("--json");
    assert("--version"@.len() == 9 && "--version"@[0] == '-');
    assert("-V"@.len() == 2 && "-V"@[0] == '-');
    assert("--help"@.len() == 6 && "--help"@[0] == '-');
    assert("-h"@.len() == 2 && "-h"@[0] == '-');
    assert("agent"@.len() == 5 && "agent"@[0] == 'a');
    assert("doctor"@.len() == 6 && "doctor"@[0] == 'd');
    assert("models"@.len() == 6 && "models"@[0] == 'm');
    assert("config"@.len() == 6 && "config"@[0] == 'c');
    assert("version"@.len() == 7 && "version"@[0] == 'v');
    assert("-V"@[1] == 'V' && "-h"@[1] == 'h');
    assert((seq!["--version"@] + rest)[0] == "--version"@);
    assert((seq!["-V"@] + rest)[0] == "-V"@);
    assert((seq!["--help"@] + rest)[0] == "--help"@);
    assert((seq!["-h"@] + rest)[0] == "-h"@);
    assert((seq!["agent"@] + rest)[0] == "agent"@);
    assert((seq!["doctor"@] + rest)[0] == "doctor"@);
    assert((seq!["models"@] + rest)[0] == "models"@);
    assert((seq!["config"@] + rest)[0] == "config"@);
    assert((seq!["version"@] + rest)[0] == "version"@);
    assert((seq!["version"@] + rest).len() > 1 ==> (seq!["version"@] + rest)[1] == rest[0]);
}

/// Joining `x` in front of `s` puts its piece in front.
proof fn lemma_join_map_prepend<T>(x: T, s: Seq<T>, f: spec_fn(T) -> Seq<char>)
    ensures
        join_map(seq![x] + s, f) == f(x) + join_map(s, f),
    decreases s.len(),
{
    if s.len() == 0 {
        assert(seq![x] + s =~= seq![x]);
        assert(seq![x].drop_last() =~= Seq::<T>::empty());
        assert(join_map(Seq::<T>::empty(), f) =~= Seq::<char>::empty());
        assert(f(x) + join_map(s, f) =~= f(x));
        assert(join_map(seq![x], f) == join_map(Seq::<T>::empty(), f) + f(x));
        assert(join_map(seq![x], f) =~= f(x));
    } else {
        lemma_join_map_prepend(x, s.drop_last(), f);
        assert((seq![x] + s).drop_last() =~= seq![x] + s.drop_last());
        assert((seq![x] + s).last() == s.last());
        assert(join_map(seq![x] + s, f) =~= f(x) + join_map(s, f));
    }
}

/// A new command result comes first in the commands part of the context,
/// before the results already there (while fewer than five were kept),
/// and results older than the five newest never show: the part for a list
/// of five or more is the part for its five newest alone.
pub proof fn law_context_lists_newest_commands_first(
    commands: Seq<(Seq<char>, Seq<char>, i32, u128)>,
    c: (Seq<char>, Seq<char>, i32, u128),
)
    ensures
        commands.len() < 5 ==> context_text(Seq::empty(), commands.push(c)) == "Recent commands:\n"@
            + "$ "@ + c.0 + "\nexit "@ + signed_decimal(c.2 as int) + " in "@ + decimal(c.3 as nat)
            + "ms\n"@ + c.1 + "\n\n"@ + (if commands.len() == 0 {
            Seq::empty()
        } else {
            context_text(Seq::empty(), commands).skip(17)
        }),
        commands.len() >= 5 ==> context_text(Seq::empty(), commands) == context_text(
            Seq::empty(),
            commands.skip(commands.len() - 5),
        ),
{
    reveal_strlit("Recent commands:\n");
    let g = |x: (Seq<char>, Seq<char>, i32, u128)| command_block(x);
    let heading = "Recent commands:\n"@;
    assert(heading.len() == 17);
    if commands.len() < 5 {
        let p = commands.push(c);
        assert(newest_five(p) =~= seq![c] + newest_five(commands));
        lemma_join_map_prepend(c, newest_five(commands), g);
        if commands.len() == 0 {
            assert(newest_five(commands) =~= Seq::<(Seq<char>, Seq<char>, i32, u128)>::empty());
            assert(context_text(Seq::empty(), p) =~= heading + command_block(c));
        } else {
            let rest = join_map(newest_five(commands), g);
            assert(context_text(Seq::empty(), commands) =~= heading + rest);
            assert((heading + rest).skip(17) =~= rest);
            assert(context_text(Seq::empty(), p) =~= heading + command_block(c) + rest);
        }
    } else {
        assert(newest_five(commands) =~= newest_five(commands.skip(commands.len() - 5)));
    }
}

/// Whether a launch argument names the workspace directory.
pub open spec fn names_target(a: Seq<char>) -> bool {
    a.len() == 0 || a[0] != '-'
}

/// Reading the arguments from `i` on, with no `--session` among them.
proof fn lemma_scan_plain(
    args: Seq<Seq<char>>,
    i: int,
    target: Option<Seq<char>>,
    session: Option<Seq<char>>,
    attach: bool,
)
    requires
        0 <= i <= args.len(),
        forall|k: int| 0 <= k < args.len() ==> args[k] != "--session"@,
    ensures
        launch_scan(args, i, target, session, attach) matches Ok(Some(p)) ==> {
            &&& p.1 == session
            &&& p.2 == (attach && !(exists|k: int| i <= k < args.len() && args[k] == "--no-attach"@))
            &&& ((p.0 == target && forall|k: int| i <= k < args.len() ==> !names_target(args[k]))
                || (exists|k: int|
                i <= k < args.len() && p.0 == Some(args[k]) && names_target(args[k]) && forall|
                    m: int,
                | k < m < args.len() ==> !names_target(args[m])))
        },
        launch_scan(args, i, target, session, attach) matches Err(e) ==> exists|k: int|
            i <= k < args.len() && !names_target(args[k]) && e == "unknown argument: "@ + args[k],
    decreases args.len() - i,
{
    if i < args.len() {
        let a = args[i];
        assert(a != "--session"@);
        if a == "--no-attach"@ {
            lemma_scan_plain(args, i + 1, target, session, false);
            reveal_strlit("--no-attach");
            assert(!names_target(a));
        } else if a == "-h"@ || a == "--help"@ {
        } else if names_target(a) {
            lemma_scan_plain(args, i + 1, Some(a), session, attach);
            reveal_strlit("--no-attach");
            assert("--no-attach"@[0] == '-');
            let r = launch_scan(args, i, target, session, attach);
            if let Ok(Some(p)) = r {
                if p.0 == Some(a) && forall|k: int| i + 1 <= k < args.len() ==> !names_target(args[k]) {
                    assert(i <= i && p.0 == Some(args[i]) && names_target(args[i]));
                }
            }
        }
    }
}

/// With no `--session` argument, a session that starts attaches exactly
/// when no `--no-attach` argument was given, takes its workspace from the
/// last argument that does not start with `-` (none when there is no
/// such argument), and keeps the configured session; an argument refused
/// is one that starts with `-` and is quoted in the error.
pub proof fn law_launch_attach_and_target(args: Seq<Seq<char>>, configured: Option<Seq<char>>)
    requires
        forall|k: int| 0 <= k < args.len() ==> args[k] != "--session"@,
    ensures
        launch_scan(args, 0, None, configured, true) matches Ok(Some(p)) ==> {
            &&& p.1 == configured
            &&& p.2 == !(exists|k: int| 0 <= k < args.len() && args[k] == "--no-attach"@)
            &&& p.0 is None ==> forall|k: int| 0 <= k < args.len() ==> !names_target(args[k])
            &&& p.0 matches Some(t) ==> exists|k: int|
                0 <= k < args.len() && t == args[k] && names_target(args[k]) && forall|m: int|
                    k < m < args.len() ==> !names_target(args[m])
        },
        launch_scan(args, 0, None, configured, true) matches Err(e) ==> exists|k: int|
            0 <= k < args.len() && !names_target(args[k]) && e == "unknown argument: "@ + args[k],
{
    lemma_scan_plain(args, 0, None, configured, true);
}

/// `doctor` reports seven lines: one per required program, in the order
/// `tmux`, `nvim`, `rg`, `curl`, marked `ok` when it was found and `miss`
/// with how to install it when not; then the API key, the terminal colors
/// and the endpoint, in that order.
pub proof fn law_doctor_reports_each_program(
    found: Seq<bool>,
    key_set: bool,
    colors: bool,
    endpoint: bool,
)
    requires
        found.len() == 4,
    ensures
        ({
            let r = doctor_lines(found, key_set, colors, endpoint);
            let tools = seq!["tmux"@, "nvim"@, "rg"@, "curl"@];
            &&& r.len() == 7
            &&& forall|i: int|
                0 <= i < 4 ==> #[trigger] r[i] == (if found[i] {
                    "ok   "@ + tools[i]
                } else {
                    "miss "@ + tools[i] + "  fix: install "@ + tools[i]
                        + " and make sure it is in PATH"@
                })
            &&& r[4] == (if key_set {
                "ok   MAKERS_MODELS_KEY"@
            } else {
                "miss MAKERS_MODELS_KEY  fix: export MAKERS_MODELS_KEY=\"...\""@
            })
            &&& r[5].take(5) == (if colors {
                "ok   "@
            } else {
                "warn "@
            })
            &&& r[6].take(5) == (if endpoint {
                "ok   "@
            } else {
                "warn "@
            })
        }),
{
    reveal_strlit("ok   terminal colors");
    reveal_strlit("warn terminal colors  fix: use a 256-color or truecolor terminal");
    reveal_strlit("ok   EdgeOne endpoint");
    reveal_strlit("warn EdgeOne endpoint  fix: check network or EDGEONE_BASE_URL");
    reveal_strlit("ok   ");
    reveal_strlit("warn ");
    let r = doctor_lines(found, key_set, colors, endpoint);
    assert(r[5].take(5) =~= (if colors {
        "ok   "@
    } else {
        "warn "@
    }));
    assert(r[6].take(5) =~= (if endpoint {
        "ok   "@
    } else {
        "warn "@
    }));
}

/// How `/context` shows a count: `none` for zero, else its decimal.
pub open spec fn shown_count(n: nat) -> Seq<char> {
    if n == 0 {
        "none"@
    } else {
        decimal(n)
    }
}

/// `/context` prints a heading with the number of loaded files, one line
/// per file in load order with its path and size in bytes, then a heading
/// with the number of kept command results, and one line per result with
/// its label, exit code and duration: two lines more than there are files
/// and results.
pub proof fn law_context_report_counts(
    files: Seq<(Seq<char>, Seq<char>)>,
    commands: Seq<(Seq<char>, Seq<char>, i32, u128)>,
)
    ensures
        ({
            let r = context_report_lines(files, commands);
            &&& r.len() == files.len() + commands.len() + 2
            &&& r[0] == muted() + "files:"@ + reset() + " "@ + shown_count(files.len())
            &&& forall|i: int|
                0 <= i < files.len() ==> #[trigger] r[1 + i] == "  "@ + files[i].0 + " ("@
                    + decimal(encode_utf8(files[i].1).len()) + " chars)"@
            &&& r[files.len() + 1int] == muted() + "recent commands:"@ + reset() + " "@ + shown_count(
                commands.len(),
            )
            &&& forall|k: int|
                0 <= k < commands.len() ==> #[trigger] r[files.len() + 2 + k] == "  "@
                    + commands[k].0 + ": exit "@ + signed_decimal(commands[k].2 as int) + " in "@
                    + decimal(commands[k].3 as nat) + "ms"@
        }),
{
    let r = context_report_lines(files, commands);
    let n = files.len() as int;
    assert forall|i: int| 0 <= i < files.len() implies #[trigger] r[1 + i] == "  "@ + files[i].0
        + " ("@ + decimal(encode_utf8(files[i].1).len()) + " chars)"@ by {
        assert(r[1 + i] == file_line(files[i].0, files[i].1));
    }
    assert forall|k: int| 0 <= k < commands.len() implies #[trigger] r[n + 2 + k] == "  "@
        + commands[k].0 + ": exit "@ + signed_decimal(commands[k].2 as int) + " in "@ + decimal(
        commands[k].3 as nat,
    ) + "ms"@ by {
        assert(r[n + 2 + k] == command_line(commands[k]));
    }
}

} // verus!
