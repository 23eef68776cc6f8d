//! One step of the agent pane: what a typed line does to the session and
//! what the caller is asked to do next, and the steps that finish a request
//! once the caller has done its part.

use vstd::prelude::*;

use crate::agent::{AgentState, other_path};
use crate::command::{
    context_report_lines, find_args, find_invocation, find_label, muted, parse_agent_line, reset,
    AgentCommand,
};
use crate::number::{decimal, parse_u32_spec, push_decimal};
use crate::shell::{Invocation, args_view, risk, risk_reason, split_command, split_command_spec, strings_view};
use crate::text::{push_str, str_eq, trim, trim_str};
use crate::wire::{sse_content, sse_payload};

verus! {

/// What the caller does after a line has been taken in.
pub enum AgentAction {
    /// Send this prompt to the model, then call `finish_chat`.
    Chat(String),
    /// Print the command help.
    Help,
    /// Print these lines.
    Say(Vec<String>),
    /// Run this search, then keep its result under `label`.
    Find { search: Invocation, label: String },
    /// Load this workspace file: check it with `check_in_workspace`, read
    /// it, then call `load_file`.
    Read(String),
    /// Run this shell command, asking for confirmation first when `risk`
    /// names a reason, then keep its result under the command.
    Run { command: String, risk: Option<&'static str> },
    /// Read this argument as a temperature, then call `finish_temperature`.
    Temperature(String),
}

/// The model settings of `a` and `b` agree.
pub open spec fn keeps_settings(a: AgentState, b: AgentState) -> bool {
    &&& a.endpoint == b.endpoint
    &&& a.model == b.model
    &&& a.temperature == b.temperature
    &&& a.max_tokens == b.max_tokens
}

/// The files, command results and conversation of `a` and `b` agree.
pub open spec fn keeps_history(a: AgentState, b: AgentState) -> bool {
    &&& a.files@ == b.files@
    &&& a.commands@ == b.commands@
    &&& a.conversation@ == b.conversation@
}

/// `a` and `b` are the same session state.
pub open spec fn same_state(a: AgentState, b: AgentState) -> bool {
    keeps_settings(a, b) && keeps_history(a, b)
}

/// A heading as the agent prints it: dimmed label, then a space.
pub open spec fn heading(label: Seq<char>) -> Seq<char> {
    muted() + label + reset() + " "@
}

/// What taking in the line `line` does: `before` is the state before,
/// `after` the state after, `r` what the caller is asked to do.
pub open spec fn stepped(
    line: Seq<char>,
    before: AgentState,
    after: AgentState,
    r: Result<AgentAction, String>,
) -> bool {
    if line.len() == 0 || line[0] != '/' {
        r matches Ok(AgentAction::Chat(p)) && p@ == line && same_state(before, after)
    } else {
        let (c, a) = split_command_spec(line);
        if c == "/help"@ {
            r matches Ok(AgentAction::Help) && same_state(before, after)
        } else if c == "/clear"@ {
            &&& r matches Ok(AgentAction::Say(lines)) && strings_view(lines@) == seq![
                "conversation cleared"@,
            ]
            &&& keeps_settings(before, after)
            &&& after.files@ == before.files@
            &&& after.commands@ == before.commands@
            &&& after.conversation@.len() == 0
        } else if c == "/context"@ {
            &&& r matches Ok(AgentAction::Say(lines)) && strings_view(lines@)
                == context_report_lines(before.files_seq(), before.commands_seq())
            &&& same_state(before, after)
        } else if c == "/find"@ {
            &&& r matches Ok(AgentAction::Find { search, label }) && search.program@ == "rg"@
                && args_view(&search) == find_args(a) && label@ == "/find "@ + a
            &&& same_state(before, after)
        } else if c == "/read"@ {
            &&& if a.len() == 0 {
                r matches Err(e) && e@ == "usage: /read <file>"@
            } else {
                r matches Ok(AgentAction::Read(x)) && x@ == a
            }
            &&& same_state(before, after)
        } else if c == "/forget"@ {
            &&& r matches Ok(AgentAction::Say(lines)) && strings_view(lines@) == seq![
                "removed "@ + decimal((before.files@.len() - after.files@.len()) as nat)
                    + " context item(s)"@,
            ]
            &&& keeps_settings(before, after)
            &&& after.commands@ == before.commands@
            &&& after.conversation@ == before.conversation@
            &&& (a.len() == 0 || a == "all"@) ==> after.files@.len() == 0
            &&& !(a.len() == 0 || a == "all"@) ==> after.files_seq() == before.files_seq().filter(
                other_path(a),
            )
        } else if c == "/run"@ {
            &&& if a.len() == 0 {
                r matches Err(e) && e@ == "usage: /run <cmd>"@
            } else {
                r matches Ok(AgentAction::Run { command, risk }) && command@ == a && match risk {
                    Some(reason) => risk_reason(a) == Some(reason@),
                    None => risk_reason(a) is None,
                }
            }
            &&& same_state(before, after)
        } else if c == "/model"@ {
            if a.len() == 0 {
                r matches Err(e) && e@ == "usage: /model <id>"@ && same_state(before, after)
            } else {
                &&& r matches Ok(AgentAction::Say(lines)) && strings_view(lines@) == seq![
                    heading("model:"@) + a,
                ]
                &&& after.model@ == a
                &&& after.endpoint == before.endpoint
                &&& after.temperature == before.temperature
                &&& after.max_tokens == before.max_tokens
                &&& keeps_history(before, after)
            }
        } else if c == "/temperature"@ {
            r matches Ok(AgentAction::Temperature(x)) && x@ == a && same_state(before, after)
        } else if c == "/max-tokens"@ {
            match parse_u32_spec(a) {
                Some(n) => {
                    &&& r matches Ok(AgentAction::Say(lines)) && strings_view(lines@) == seq![
                        heading("max tokens:"@) + a,
                    ]
                    &&& after.max_tokens == Some(n)
                    &&& after.endpoint == before.endpoint
                    &&& after.model == before.model
                    &&& after.temperature == before.temperature
                    &&& keeps_history(before, after)
                },
                None => r matches Err(e) && e@ == "usage: /max-tokens <integer>"@ && same_state(
                    before,
                    after,
                ),
            }
        } else {
            r matches Err(e) && e@ == "unknown command: "@ + c && same_state(before, after)
        }
    }
}

/// A line made of a dimmed heading and `text`.
fn heading_line(label: &str, text: &str) -> (r: String)
    ensures
        r@ == heading(label@) + text@,
{
    let mut line = String::new();
    push_str(&mut line, "\x1b[38;2;110;106;134m");
    push_str(&mut line, label);
    push_str(&mut line, "\x1b[0m");
    push_str(&mut line, " ");
    push_str(&mut line, text);
    assert(line@ =~= heading(label@) + text@);
    line
}

/// A vector holding just `line`.
fn one_line(line: String) -> (r: Vec<String>)
    ensures
        strings_view(r@) == seq![line@],
{
    let ghost view = line@;
    let r = vec![line];
    assert(strings_view(r@) =~= seq![view]);
    r
}

impl AgentState {
    /// Takes in one line typed at the agent prompt. Session commands take
    /// effect here (`/clear`, `/forget`, `/model`, `/max-tokens`); the rest
    /// come back as the action the caller carries out. A line that is
    /// refused leaves the state as it was.
    pub fn step(&mut self, line: &str) -> (r: Result<AgentAction, String>)
        requires
            old(self).wf(),
        ensures
            final(self).wf(),
            stepped(line@, *old(self), *final(self), r),
            r is Err ==> same_state(*old(self), *final(self)),
    {
        let command = match parse_agent_line(line) {
            Ok(command) => command,
            Err(e) => return Err(e),
        };
        let ghost parts = split_command_spec(line@);
        match command {
            AgentCommand::Chat(prompt) => Ok(AgentAction::Chat(prompt)),
            AgentCommand::Help => Ok(AgentAction::Help),
            AgentCommand::Clear => {
                self.clear_conversation();
                Ok(AgentAction::Say(one_line("conversation cleared".to_owned())))
            },
            AgentCommand::Context => Ok(AgentAction::Say(self.context_report())),
            AgentCommand::Find(pattern) => {
                let search = find_invocation(pattern.as_str());
                let label = find_label(pattern.as_str());
                Ok(AgentAction::Find { search, label })
            },
            AgentCommand::Read(path) => Ok(AgentAction::Read(path)),
            AgentCommand::Forget(arg) => {
                let removed = self.forget(arg.as_str());
                let mut message = "removed ".to_owned();
                push_decimal(&mut message, removed as u128);
                push_str(&mut message, " context item(s)");
                Ok(AgentAction::Say(one_line(message)))
            },
            AgentCommand::Run(command) => {
                let reason = risk(command.as_str());
                Ok(AgentAction::Run { command, risk: reason })
            },
            AgentCommand::Model(model) => {
                let said = heading_line("model:", model.as_str());
                self.model = model;
                Ok(AgentAction::Say(one_line(said)))
            },
            AgentCommand::Temperature(arg) => Ok(AgentAction::Temperature(arg)),
            AgentCommand::MaxTokens(limit) => {
                let (_, arg) = split_command(line);
                self.max_tokens = Some(limit);
                Ok(AgentAction::Say(one_line(heading_line("max tokens:", arg))))
            },
        }
    }

    /// Sets the temperature from `/temperature arg`: `rendered` is the
    /// argument read as a number and written as the request writes it, or
    /// `None` when it did not read as a number, which is refused and leaves
    /// the state as it was. Returns the line to print.
    pub fn finish_temperature(&mut self, arg: &str, rendered: Option<String>) -> (r: Result<
        String,
        String,
    >)
        requires
            old(self).wf(),
        ensures
            final(self).wf(),
            match rendered {
                Some(t) => {
                    &&& r matches Ok(line) && line@ == heading("temperature:"@) + arg@
                    &&& final(self).temperature == Some(t)
                    &&& final(self).endpoint == old(self).endpoint
                    &&& final(self).model == old(self).model
                    &&& final(self).max_tokens == old(self).max_tokens
                    &&& keeps_history(*old(self), *final(self))
                },
                None => r matches Err(e) && e@ == "usage: /temperature <number>"@ && same_state(
                    *old(self),
                    *final(self),
                ),
            },
    {
        match rendered {
            Some(t) => {
                self.temperature = Some(t);
                Ok(heading_line("temperature:", arg))
            },
            None => Err("usage: /temperature <number>".to_owned()),
        }
    }

    /// Ends a chat request for `prompt`: when the request succeeded the
    /// exchange with `answer` is recorded; otherwise it fails with the
    /// request's exit status `status` and leaves the state as it was.
    pub fn finish_chat(&mut self, prompt: &str, answer: String, succeeded: bool, status: &str) -> (r:
        Result<(), String>)
        requires
            old(self).wf(),
        ensures
            final(self).wf(),
            succeeded ==> r is Ok && keeps_settings(*old(self), *final(self))
                && final(self).files@ == old(self).files@ && final(self).commands@ == old(
                self,
            ).commands@ && final(self).conversation_seq() == crate::agent::last_n(
                old(self).conversation_seq() + seq![("user"@, prompt@), ("assistant"@, answer@)],
                crate::agent::conversation_capacity(),
            ),
            !succeeded ==> (r matches Err(e) && e@ == "EdgeOne request failed with curl status "@
                + status@) && same_state(*old(self), *final(self)),
    {
        if succeeded {
            self.record_exchange(prompt, answer);
            Ok(())
        } else {
            let mut message = "EdgeOne request failed with curl status ".to_owned();
            push_str(&mut message, status);
            Err(message)
        }
    }
}

/// The answer that a chat event stream carries: the tokens of its lines,
/// in order.
pub open spec fn stream_text(lines: Seq<Seq<char>>) -> Seq<char>
    decreases lines.len(),
{
    if lines.len() == 0 {
        Seq::empty()
    } else {
        stream_text(lines.drop_last()) + match sse_payload(lines.last()) {
            Some(token) => token,
            None => Seq::empty(),
        }
    }
}

/// Joins the tokens that the stream `lines` carries into the answer.
pub fn stream_answer(lines: &Vec<String>) -> (r: String)
    ensures
        r@ == stream_text(strings_view(lines@)),
{
    let ghost sv = strings_view(lines@);
    let mut answer = String::new();
    let mut i: usize = 0;
    while i < lines.len()
        invariant
            i <= lines@.len(),
            sv == strings_view(lines@),
            answer@ == stream_text(sv.take(i as int)),
        decreases lines@.len() - i,
    {
        assert(sv.take(i + 1).drop_last() =~= sv.take(i as int));
        assert(sv[i as int] == lines@[i as int]@);
        match sse_content(lines[i].as_str()) {
            Some(token) => push_str(&mut answer, token.as_str()),
            None => {},
        }
        assert(answer@ =~= stream_text(sv.take(i + 1)));
        i = i + 1;
    }
    assert(sv.take(i as int) =~= sv);
    answer
}

/// Whether the answer to the confirmation question lets a risky command
/// run: it must read `run` once trimmed.
pub fn confirmed(answer: &str) -> (r: bool)
    ensures
        r == (trim(answer@) == "run"@),
{
    str_eq(trim_str(answer), "run")
}

/// Whether a command's output needs a line break after it: it is not empty
/// and does not end with one.
pub fn needs_line_break(text: &str) -> (r: bool)
    ensures
        r == (text@.len() > 0 && text@.last() != '\n'),
{
    let v = crate::text::chars_of(text);
    v.len() > 0 && v[v.len() - 1] != '\n'
}

/// The API key for chat requests, which must be configured.
pub fn require_key(key: Option<String>) -> (r: Result<String, String>)
    ensures
        match key {
            Some(k) => r == Ok::<String, String>(k),
            None => (r matches Err(e) && e@
                == "missing MAKERS_MODELS_KEY. Fix: export MAKERS_MODELS_KEY=\"...\""@),
        },
{
    match key {
        Some(k) => Ok(k),
        None => Err("missing MAKERS_MODELS_KEY. Fix: export MAKERS_MODELS_KEY=\"...\"".to_owned()),
    }
}

} // verus!
