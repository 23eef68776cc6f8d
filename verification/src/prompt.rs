//! The request that the agent sends to the model: the context block built
//! from loaded files and recent commands, and the streaming chat body.

use vstd::prelude::*;

use crate::agent::{AgentState, CommandResult, LoadedFile, conversation_view};
use crate::number::{decimal, push_decimal, push_signed_decimal, signed_decimal};
use crate::text::push_str;
use crate::wire::{json, json_escape};

verus! {

/// The pieces `f(x)` for each `x` of `s`, one after another.
pub open spec fn join_map<T>(s: Seq<T>, f: spec_fn(T) -> Seq<char>) -> Seq<char>
    decreases s.len(),
{
    if s.len() == 0 {
        Seq::empty()
    } else {
        join_map(s.drop_last(), f) + f(s.last())
    }
}

/// The pieces `f(x)` for each `x` of `s`, separated by commas.
pub open spec fn join_commas<T>(s: Seq<T>, f: spec_fn(T) -> Seq<char>) -> Seq<char>
    decreases s.len(),
{
    if s.len() == 0 {
        Seq::empty()
    } else if s.len() == 1 {
        f(s[0])
    } else {
        join_commas(s.drop_last(), f) + ","@ + f(s.last())
    }
}

/// The system prompt that opens every request.
pub open spec fn system_prompt() -> Seq<char> {
    "You are Neomux, a token-efficient coding agent running beside Neovim in tmux.\n\nRules:\n- Be concise and execution-focused.\n- Prefer minimal, explicit code over clever abstractions.\n- Do not chase theoretical completeness.\n- Avoid speculative edge-case handling.\n- Do not add defensive code unless it prevents a realistic failure.\n- Prefer small diffs and direct commands.\n- Ask before destructive actions.\n- When commands are needed, give exact commands."@
}

/// How a loaded file (path, text) appears in the context block.
pub open spec fn file_block(f: (Seq<char>, Seq<char>)) -> Seq<char> {
    "--- "@ + f.0 + "\n"@ + f.1 + "\n\n"@
}

/// How a command result (label, text, code, ms) appears in the context block.
pub open spec fn command_block(c: (Seq<char>, Seq<char>, i32, u128)) -> Seq<char> {
    "$ "@ + c.0 + "\nexit "@ + signed_decimal(c.2 as int) + " in "@ + decimal(c.3 as nat) + "ms\n"@
        + c.1 + "\n\n"@
}

/// The last five elements of `s` at most, newest first.
pub open spec fn newest_five<T>(s: Seq<T>) -> Seq<T> {
    let m = if s.len() < 5 {
        s.len()
    } else {
        5
    };
    Seq::new(m, |j: int| s[s.len() - 1 - j])
}

/// The context block: every loaded file under a `Loaded files:` heading,
/// then the five newest command results, newest first, under a `Recent
/// commands:` heading; a heading is left out with its empty list.
pub open spec fn context_text(
    files: Seq<(Seq<char>, Seq<char>)>,
    commands: Seq<(Seq<char>, Seq<char>, i32, u128)>,
) -> Seq<char> {
    (if files.len() == 0 {
        Seq::empty()
    } else {
        "Loaded files:\n"@ + join_map(files, |f: (Seq<char>, Seq<char>)| file_block(f))
    }) + (if commands.len() == 0 {
        Seq::empty()
    } else {
        "Recent commands:\n"@ + join_map(
            newest_five(commands),
            |c: (Seq<char>, Seq<char>, i32, u128)| command_block(c),
        )
    })
}

/// How one message (role, content) is written in the request body.
pub open spec fn message_json(m: (Seq<char>, Seq<char>)) -> Seq<char> {
    "{\"role\":\""@ + json_escape(m.0) + "\",\"content\":\""@ + json_escape(m.1) + "\"}"@
}

/// The messages of a request: the system prompt, the context block when it
/// is not empty, the conversation so far, then the user's prompt.
pub open spec fn chat_messages(
    context: Seq<char>,
    conversation: Seq<(Seq<char>, Seq<char>)>,
    prompt: Seq<char>,
) -> Seq<(Seq<char>, Seq<char>)> {
    seq![("system"@, system_prompt())] + (if context.len() == 0 {
        Seq::empty()
    } else {
        seq![("user"@, context)]
    }) + conversation + seq![("user"@, prompt)]
}

/// The streaming request body for `messages`.
pub open spec fn chat_json(
    model: Seq<char>,
    messages: Seq<(Seq<char>, Seq<char>)>,
    temperature: Option<Seq<char>>,
    max_tokens: Option<u32>,
) -> Seq<char> {
    "{\"model\":\""@ + json_escape(model) + "\",\"stream\":true,\"messages\":["@ + join_commas(
        messages,
        |m: (Seq<char>, Seq<char>)| message_json(m),
    ) + "]"@ + (match temperature {
        Some(t) => ",\"temperature\":"@ + t,
        None => Seq::empty(),
    }) + (match max_tokens {
        Some(n) => ",\"max_tokens\":"@ + decimal(n as nat),
        None => Seq::empty(),
    }) + "}"@
}

/// Appends how the command result `command` appears in the context block.
fn push_command_block(text: &mut String, command: &CommandResult)
    ensures
        final(text)@ == old(text)@ + command_block(
            (command.label@, command.text@, command.code, command.ms),
        ),
{
    push_str(text, "$ ");
    push_str(text, command.label.as_str());
    push_str(text, "\nexit ");
    push_signed_decimal(text, command.code);
    push_str(text, " in ");
    push_decimal(text, command.ms);
    push_str(text, "ms\n");
    push_str(text, command.text.as_str());
    push_str(text, "\n\n");
    assert(final(text)@ =~= old(text)@ + command_block(
        (command.label@, command.text@, command.code, command.ms),
    ));
}

/// Appends how the loaded file `file` appears in the context block.
fn push_file_block(text: &mut String, file: &LoadedFile)
    ensures
        final(text)@ == old(text)@ + file_block((file.path@, file.text@)),
{
    push_str(text, "--- ");
    push_str(text, file.path.as_str());
    push_str(text, "\n");
    push_str(text, file.text.as_str());
    push_str(text, "\n\n");
    assert(final(text)@ =~= old(text)@ + file_block((file.path@, file.text@)));
}

/// Appends how the message (`role`, `content`) is written in the request body.
fn push_message(body: &mut String, role: &str, content: &str)
    ensures
        final(body)@ == old(body)@ + message_json((role@, content@)),
{
    push_str(body, "{\"role\":\"");
    let r = json(role);
    push_str(body, r.as_str());
    push_str(body, "\",\"content\":\"");
    let c = json(content);
    push_str(body, c.as_str());
    push_str(body, "\"}");
    assert(final(body)@ =~= old(body)@ + message_json((role@, content@)));
}

impl AgentState {
    /// The context block for the current files and commands.
    pub open spec fn context_spec(&self) -> Seq<char> {
        context_text(self.files_seq(), self.commands_seq())
    }

    /// The block that tells the model which files are loaded and what the
    /// newest commands printed.
    pub fn context_prompt(&self) -> (r: String)
        ensures
            r@ == self.context_spec(),
    {
        let mut text = String::new();
        let ghost fs = self.files_seq();
        let ghost ff = |f: (Seq<char>, Seq<char>)| file_block(f);
        if self.files.len() > 0 {
            push_str(&mut text, "Loaded files:\n");
            let mut i: usize = 0;
            while i < self.files.len()
                invariant
                    i <= self.files@.len(),
                    fs == self.files_seq(),
                    ff == (|f: (Seq<char>, Seq<char>)| file_block(f)),
                    text@ == "Loaded files:\n"@ + join_map(fs.take(i as int), ff),
                decreases self.files@.len() - i,
            {
                let file = &self.files[i];
                let ghost before = text@;
                push_file_block(&mut text, file);
                assert(fs.take(i + 1).drop_last() =~= fs.take(i as int));
                assert(fs[i as int] == (file.path@, file.text@));
                assert(text@ =~= before + file_block(fs[i as int]));
                i = i + 1;
            }
            assert(fs.take(i as int) =~= fs);
        }
        let ghost files_part = text@;
        assert(files_part =~= (if fs.len() == 0 {
            Seq::empty()
        } else {
            "Loaded files:\n"@ + join_map(fs, ff)
        }));
        let ghost cs = self.commands_seq();
        let ghost recent = newest_five(cs);
        let ghost cf = |c: (Seq<char>, Seq<char>, i32, u128)| command_block(c);
        let n = self.commands.len();
        if n > 0 {
            push_str(&mut text, "Recent commands:\n");
            let m: usize = if n < 5 {
                n
            } else {
                5
            };
            let mut j: usize = 0;
            while j < m
                invariant
                    n == cs.len(),
                    m == recent.len(),
                    j <= m,
                    m <= n,
                    cs == self.commands_seq(),
                    recent == newest_five(cs),
                    cf == (|c: (Seq<char>, Seq<char>, i32, u128)| command_block(c)),
                    text@ == files_part + "Recent commands:\n"@ + join_map(recent.take(j as int), cf),
                decreases m - j,
            {
                let command = &self.commands[n - 1 - j];
                let ghost before = text@;
                push_command_block(&mut text, command);
                assert(recent.take(j + 1).drop_last() =~= recent.take(j as int));
                assert(recent[j as int] == cs[n - 1 - j]);
                assert(cs[n - 1 - j] == (command.label@, command.text@, command.code, command.ms));
                assert(text@ =~= before + command_block(recent[j as int]));
                j = j + 1;
            }
            assert(recent.take(m as int) =~= recent);
        }
        text
    }

    /// The streaming chat request for `prompt`: model, messages (system
    /// prompt, context block if any, conversation, prompt), then the
    /// temperature and the output-token limit when they are set.
    pub fn chat_body(&self, prompt: &str) -> (r: String)
        ensures
            r@ == chat_json(
                self.model@,
                chat_messages(self.context_spec(), self.conversation_seq(), prompt@),
                match self.temperature {
                    Some(t) => Some(t@),
                    None => None,
                },
                self.max_tokens,
            ),
    {
        let context = self.context_prompt();
        let ghost ctx = context@;
        let mut messages: Vec<(String, String)> = Vec::new();
        messages.push(("system".to_owned(), "You are Neomux, a token-efficient coding agent running beside Neovim in tmux.\n\nRules:\n- Be concise and execution-focused.\n- Prefer minimal, explicit code over clever abstractions.\n- Do not chase theoretical completeness.\n- Avoid speculative edge-case handling.\n- Do not add defensive code unless it prevents a realistic failure.\n- Prefer small diffs and direct commands.\n- Ask before destructive actions.\n- When commands are needed, give exact commands.".to_owned()));
        assert(conversation_view(messages@) =~= seq![("system"@, system_prompt())]);
        if !context.as_str().is_empty() {
            let ghost before = messages@;
            messages.push(("user".to_owned(), context));
            assert(conversation_view(messages@) =~= conversation_view(before).push(("user"@, ctx)));
        }
        let ghost head = conversation_view(messages@);
        assert(head =~= seq![("system"@, system_prompt())] + (if ctx.len() == 0 {
            Seq::empty()
        } else {
            seq![("user"@, ctx)]
        }));
        let mut k: usize = 0;
        while k < self.conversation.len()
            invariant
                k <= self.conversation@.len(),
                conversation_view(messages@) == head + self.conversation_seq().take(k as int),
            decreases self.conversation@.len() - k,
        {
            let role = self.conversation[k].0.clone();
            let content = self.conversation[k].1.clone();
            let ghost before = messages@;
            messages.push((role, content));
            assert(conversation_view(messages@) =~= conversation_view(before).push((role@, content@)));
            assert(self.conversation_seq()[k as int] == (role@, content@));
            assert(self.conversation_seq().take(k + 1) =~= self.conversation_seq().take(k as int).push(
                (role@, content@),
            ));
            assert(conversation_view(messages@) =~= head + self.conversation_seq().take(k + 1));
            k = k + 1;
        }
        let ghost before_prompt = messages@;
        messages.push(("user".to_owned(), prompt.to_owned()));
        assert(conversation_view(messages@) =~= conversation_view(before_prompt).push(("user"@, prompt@)));
        let ghost msgs = conversation_view(messages@);
        proof {
            assert(self.conversation_seq().take(k as int) =~= self.conversation_seq());
            assert(msgs =~= chat_messages(ctx, self.conversation_seq(), prompt@));
        }
        let mut body = String::new();
        push_str(&mut body, "{\"model\":\"");
        let model = json(self.model.as_str());
        push_str(&mut body, model.as_str());
        push_str(&mut body, "\",\"stream\":true,\"messages\":[");
        let ghost opening = body@;
        let ghost mf = |m: (Seq<char>, Seq<char>)| message_json(m);
        let mut i: usize = 0;
        while i < messages.len()
            invariant
                i <= messages@.len(),
                msgs == conversation_view(messages@),
                mf == (|m: (Seq<char>, Seq<char>)| message_json(m)),
                body@ == opening + join_commas(msgs.take(i as int), mf),
            decreases messages@.len() - i,
        {
            let ghost before = body@;
            if i > 0 {
                push_str(&mut body, ",");
            }
            push_message(&mut body, messages[i].0.as_str(), messages[i].1.as_str());
            assert(msgs.take(i + 1).drop_last() =~= msgs.take(i as int));
            assert(msgs[i as int] == (messages@[i as int].0@, messages@[i as int].1@));
            if i > 0 {
                assert(body@ =~= before + ","@ + message_json(msgs[i as int]));
            } else {
                assert(msgs.take(1)[0] == msgs[0]);
                assert(body@ =~= before + message_json(msgs[i as int]));
            }
            i = i + 1;
        }
        assert(msgs.take(i as int) =~= msgs);
        push_str(&mut body, "]");
        let ghost closed = body@;
        match &self.temperature {
            Some(t) => {
                push_str(&mut body, ",\"temperature\":");
                push_str(&mut body, t.as_str());
            },
            None => {},
        }
        match self.max_tokens {
            Some(n) => {
                push_str(&mut body, ",\"max_tokens\":");
                push_decimal(&mut body, n as u128);
            },
            None => {},
        }
        push_str(&mut body, "}");
        body
    }
}

} // verus!
