//! The state of the agent pane: loaded files, recent command results, the
//! conversation with the model, and the rules that keep each of them bounded.

use std::collections::VecDeque;
use vstd::prelude::*;

use crate::number::{parse_u32, parse_u32_spec};
use crate::text::{chars_of, matches_at, truncate_bytes};
use vstd::utf8::{encode_utf8, is_char_boundary};

verus! {

/// The chat endpoint used when none is configured.
pub open spec fn default_endpoint() -> Seq<char> {
    "https://ai-gateway.edgeone.link/v1"@
}

/// The model used when none is configured.
pub open spec fn default_model() -> Seq<char> {
    "@makers/deepseek-v4-flash"@
}

/// The sampling temperature sent when none is configured, as the request writes it.
pub open spec fn default_temperature() -> Seq<char> {
    "0.2"@
}

/// How many command results the agent keeps.
pub open spec fn command_capacity() -> nat {
    8
}

/// How many conversation messages the agent keeps.
pub open spec fn conversation_capacity() -> nat {
    30
}

/// The last `n` elements of `s`, or all of them when there are fewer.
pub open spec fn last_n<T>(s: Seq<T>, n: nat) -> Seq<T> {
    if s.len() <= n {
        s
    } else {
        s.skip(s.len() - n)
    }
}

/// A file loaded into the agent's context.
pub struct LoadedFile {
    pub path: String,
    pub text: String,
}

/// The captured result of a command that the agent ran.
pub struct CommandResult {
    pub label: String,
    pub text: String,
    pub code: i32,
    pub ms: u128,
}

/// The agent's session state.
pub struct AgentState {
    pub endpoint: String,
    pub model: String,
    /// The sampling temperature, written as the request body writes it.
    pub temperature: Option<String>,
    pub max_tokens: Option<u32>,
    pub files: Vec<LoadedFile>,
    pub commands: VecDeque<CommandResult>,
    /// Messages as (role, content), oldest first.
    pub conversation: Vec<(String, String)>,
}

/// The (path, text) pairs of `files`.
pub open spec fn files_view(files: Seq<LoadedFile>) -> Seq<(Seq<char>, Seq<char>)> {
    files.map_values(|f: LoadedFile| (f.path@, f.text@))
}

/// The (label, text, code, ms) tuples of `commands`.
pub open spec fn commands_view(commands: Seq<CommandResult>) -> Seq<(Seq<char>, Seq<char>, i32, u128)> {
    commands.map_values(|c: CommandResult| (c.label@, c.text@, c.code, c.ms))
}

/// The (role, content) pairs of `conversation`.
pub open spec fn conversation_view(conversation: Seq<(String, String)>) -> Seq<(Seq<char>, Seq<char>)> {
    conversation.map_values(|m: (String, String)| (m.0@, m.1@))
}

/// Whether `messages` is a run of complete exchanges: a user message, then
/// the assistant's answer, and so on.
pub open spec fn is_exchanges(messages: Seq<(Seq<char>, Seq<char>)>) -> bool {
    &&& messages.len() % 2 == 0
    &&& forall|i: int|
        0 <= i < messages.len() ==> (#[trigger] messages[i]).0 == (if i % 2 == 0 {
            "user"@
        } else {
            "assistant"@
        })
}

impl AgentState {
    /// The loaded files as (path, text).
    pub open spec fn files_seq(&self) -> Seq<(Seq<char>, Seq<char>)> {
        files_view(self.files@)
    }

    /// The kept command results, oldest first.
    pub open spec fn commands_seq(&self) -> Seq<(Seq<char>, Seq<char>, i32, u128)> {
        commands_view(self.commands@)
    }

    /// The conversation as (role, content), oldest first.
    pub open spec fn conversation_seq(&self) -> Seq<(Seq<char>, Seq<char>)> {
        conversation_view(self.conversation@)
    }

    /// What every state reached through these methods keeps: at most eight
    /// command results, a conversation of at most thirty messages made of
    /// complete exchanges, and no file loaded twice under one path.
    pub open spec fn wf(&self) -> bool {
        &&& self.commands@.len() <= command_capacity()
        &&& self.conversation@.len() <= conversation_capacity()
        &&& is_exchanges(self.conversation_seq())
        &&& forall|i: int, j: int|
            0 <= i < self.files@.len() && 0 <= j < self.files@.len() && i != j
                ==> #[trigger] self.files@[i].path@ != #[trigger] self.files@[j].path@
    }

    /// A fresh session. `endpoint` and `model` fall back to the defaults;
    /// `temperature` is the configured temperature as the request writes it,
    /// `None` when none was configured or it did not read as a number, and
    /// then falls back to `0.2`; `max_tokens` is read as `str::parse::<u32>`
    /// reads it, and a value that does not read leaves it unset.
    pub fn new(
        endpoint: Option<String>,
        model: Option<String>,
        temperature: Option<String>,
        max_tokens: Option<&str>,
    ) -> (s: AgentState)
        ensures
            s.wf(),
            s.endpoint@ == (match endpoint {
                Some(e) => e@,
                None => default_endpoint(),
            }),
            s.model@ == (match model {
                Some(m) => m@,
                None => default_model(),
            }),
            s.temperature matches Some(t) && t@ == (match temperature {
                Some(t) => t@,
                None => default_temperature(),
            }),
            s.max_tokens == (match max_tokens {
                Some(m) => parse_u32_spec(m@),
                None => None,
            }),
            s.files@.len() == 0,
            s.commands@.len() == 0,
            s.conversation@.len() == 0,
    {
        let endpoint = resolve_endpoint(endpoint);
        let model = resolve_model(model);
        let temperature = match temperature {
            Some(t) => t,
            None => "0.2".to_owned(),
        };
        let max_tokens = match max_tokens {
            Some(m) => parse_u32(m),
            None => None,
        };
        let s = AgentState {
            endpoint,
            model,
            temperature: Some(temperature),
            max_tokens,
            files: Vec::new(),
            commands: VecDeque::new(),
            conversation: Vec::new(),
        };
        assert(s.conversation_seq() =~= Seq::empty());
        s
    }

    /// Keeps the result of a command under `label`, dropping the oldest
    /// results beyond the last eight.
    pub fn push_command(&mut self, label: String, result: CommandResult)
        requires
            old(self).wf(),
        ensures
            final(self).wf(),
            final(self).commands_seq() == last_n(
                old(self).commands_seq().push((label@, result.text@, result.code, result.ms)),
                command_capacity(),
            ),
            final(self).files@ == old(self).files@,
            final(self).conversation@ == old(self).conversation@,
            final(self).endpoint == old(self).endpoint,
            final(self).model == old(self).model,
            final(self).temperature == old(self).temperature,
            final(self).max_tokens == old(self).max_tokens,
    {
        let mut result = result;
        result.label = label;
        let ghost entry = result;
        let ghost full = self.commands@.push(entry);
        self.commands.push_back(result);
        while self.commands.len() > 8
            invariant
                self.commands@.len() >= 8 || self.commands@.len() == full.len(),
                self.commands@.len() <= full.len(),
                self.files@ == old(self).files@,
                self.conversation@ == old(self).conversation@,
                self.endpoint == old(self).endpoint,
                self.model == old(self).model,
                self.temperature == old(self).temperature,
                self.max_tokens == old(self).max_tokens,
                self.commands@ == full.skip(full.len() - self.commands@.len()),
            decreases self.commands@.len(),
        {
            let ghost before = self.commands@;
            let _ = self.commands.pop_front();
            assert(self.commands@ =~= full.skip(full.len() - self.commands@.len()));
        }
        assert(self.commands@ =~= last_n(full, 8));
        assert(commands_view(last_n(full, 8)) =~= last_n(commands_view(full), 8));
        assert(commands_view(full) =~= old(self).commands_seq().push(
            (label@, entry.text@, entry.code, entry.ms),
        ));
    }

    /// Forgets the conversation.
    pub fn clear_conversation(&mut self)
        requires
            old(self).wf(),
        ensures
            final(self).wf(),
            final(self).conversation@.len() == 0,
            final(self).files@ == old(self).files@,
            final(self).commands@ == old(self).commands@,
            final(self).endpoint == old(self).endpoint,
            final(self).model == old(self).model,
            final(self).temperature == old(self).temperature,
            final(self).max_tokens == old(self).max_tokens,
    {
        self.conversation.clear();
        assert(self.conversation_seq() =~= Seq::empty());
    }

    /// Records one finished exchange, the user's `prompt` and the model's
    /// `answer`, dropping the oldest messages beyond the last thirty.
    pub fn record_exchange(&mut self, prompt: &str, answer: String)
        requires
            old(self).wf(),
        ensures
            final(self).wf(),
            final(self).conversation_seq() == last_n(
                old(self).conversation_seq() + seq![("user"@, prompt@), ("assistant"@, answer@)],
                conversation_capacity(),
            ),
            final(self).files@ == old(self).files@,
            final(self).commands@ == old(self).commands@,
            final(self).endpoint == old(self).endpoint,
            final(self).model == old(self).model,
            final(self).temperature == old(self).temperature,
            final(self).max_tokens == old(self).max_tokens,
    {
        let user = ("user".to_owned(), prompt.to_owned());
        let assistant = ("assistant".to_owned(), answer);
        let ghost full = self.conversation@.push(user).push(assistant);
        assert(old(self).conversation@.len() <= 30);
        self.conversation.push(user);
        self.conversation.push(assistant);
        while self.conversation.len() > 30
            invariant
                self.conversation@.len() >= 30 || self.conversation@.len() == full.len(),
                self.conversation@.len() <= full.len(),
                self.files@ == old(self).files@,
                self.commands@ == old(self).commands@,
                self.endpoint == old(self).endpoint,
                self.model == old(self).model,
                self.temperature == old(self).temperature,
                self.max_tokens == old(self).max_tokens,
                self.conversation@ == full.skip(full.len() - self.conversation@.len()),
            decreases self.conversation@.len(),
        {
            self.conversation.remove(0);
            assert(self.conversation@ =~= full.skip(full.len() - self.conversation@.len()));
        }
        let ghost old_view = old(self).conversation_seq();
        let ghost full_view = old_view + seq![("user"@, prompt@), ("assistant"@, answer@)];
        assert(conversation_view(full) =~= full_view);
        assert(self.conversation@ =~= last_n(full, 30));
        assert(conversation_view(last_n(full, 30)) =~= last_n(full_view, 30));
        assert(is_exchanges(full_view)) by {
            assert forall|i: int| 0 <= i < full_view.len() implies (#[trigger] full_view[i]).0 == (
            if i % 2 == 0 {
                "user"@
            } else {
                "assistant"@
            }) by {
                if i < old_view.len() {
                    assert(full_view[i] == old_view[i]);
                }
            }
        }
        assert(is_exchanges(last_n(full_view, 30))) by {
            if full_view.len() > 30 {
                let t = last_n(full_view, 30);
                assert(full_view.len() == 32);
                assert forall|i: int| 0 <= i < t.len() implies (#[trigger] t[i]).0 == (if i % 2
                    == 0 {
                    "user"@
                } else {
                    "assistant"@
                }) by {
                    assert(t[i] == full_view[i + 2]);
                }
            }
        }
    }
}

/// The predicate that keeps every file whose path is not `path`.
pub open spec fn other_path(path: Seq<char>) -> spec_fn((Seq<char>, Seq<char>)) -> bool {
    |f: (Seq<char>, Seq<char>)| f.0 != path
}

/// How many bytes of a file the agent keeps.
pub open spec fn file_limit() -> nat {
    50000
}

/// Whether `kept` is `text` cut to at most `limit` bytes of UTF-8, as
/// `String::truncate` cuts it.
pub open spec fn is_truncation(kept: Seq<char>, text: Seq<char>, limit: nat) -> bool {
    &&& kept == text.take(kept.len() as int)
    &&& encode_utf8(kept) == (if encode_utf8(text).len() <= limit {
        encode_utf8(text)
    } else {
        encode_utf8(text).take(limit as int)
    })
}

/// Whether `String::truncate(limit)` accepts `text`: it is short enough, or
/// `limit` falls on a character boundary.
pub open spec fn truncatable(text: Seq<char>, limit: nat) -> bool {
    encode_utf8(text).len() <= limit || is_char_boundary(encode_utf8(text), limit as int)
}

impl AgentState {
    /// Drops every file loaded under `path`; returns how many were dropped.
    fn drop_path(&mut self, path: &str) -> (removed: usize)
        requires
            old(self).wf(),
        ensures
            final(self).wf(),
            final(self).files_seq() == old(self).files_seq().filter(other_path(path@)),
            removed == old(self).files@.len() - final(self).files@.len(),
            forall|i: int| 0 <= i < final(self).files@.len() ==> #[trigger] final(self).files@[i].path@ != path@,
            final(self).commands@ == old(self).commands@,
            final(self).conversation@ == old(self).conversation@,
            final(self).endpoint == old(self).endpoint,
            final(self).model == old(self).model,
            final(self).temperature == old(self).temperature,
            final(self).max_tokens == old(self).max_tokens,
    {
        let target = path.to_owned();
        let n0 = self.files.len();
        let ghost orig = old(self).files@;
        let ghost p = other_path(path@);
        let mut i: usize = 0;
        let ghost mut j: int = 0;
        while i < self.files.len()
            invariant
                0 <= i <= j <= orig.len(),
                i <= self.files@.len(),
                self.files@.len() - i == orig.len() - j,
                target@ == path@,
                p == other_path(path@),
                self.wf(),
                files_view(self.files@).take(i as int) == files_view(orig).take(j).filter(p),
                self.files@.skip(i as int) == orig.skip(j),
                forall|k: int| 0 <= k < i ==> #[trigger] self.files@[k].path@ != path@,
                self.commands@ == old(self).commands@,
                self.conversation@ == old(self).conversation@,
                self.endpoint == old(self).endpoint,
                self.model == old(self).model,
                self.temperature == old(self).temperature,
                self.max_tokens == old(self).max_tokens,
            decreases self.files@.len() - i,
        {
            let ghost before = self.files@;
            assert(orig[j] == before[i as int]) by {
                assert(before.skip(i as int)[0] == orig.skip(j)[0]);
            }
            assert(files_view(orig).take(j + 1).drop_last() =~= files_view(orig).take(j));
            let ghost fj = files_view(orig)[j];
            proof {
                reveal_with_fuel(Seq::<_>::filter, 1);
            }
            assert(files_view(orig).take(j + 1).last() == fj);
            assert(fj.0 == before[i as int].path@);
            if self.files[i].path == target {
                assert(!p(fj));
                assert(files_view(orig).take(j + 1).filter(p) == files_view(orig).take(j).filter(p));
                self.files.remove(i);
                assert(self.files@.skip(i as int) =~= orig.skip(j + 1)) by {
                    assert(before.skip(i as int).skip(1) =~= self.files@.skip(i as int));
                    assert(orig.skip(j).skip(1) =~= orig.skip(j + 1));
                }
                assert(files_view(self.files@).take(i as int) =~= files_view(before).take(i as int));
            } else {
                assert(p(fj));
                assert(files_view(orig).take(j + 1).filter(p) == files_view(orig).take(j).filter(p).push(fj));
                assert(files_view(self.files@).take(i + 1) =~= files_view(before).take(i as int).push(
                    files_view(orig)[j],
                ));
                assert(self.files@.skip(i + 1) =~= orig.skip(j + 1)) by {
                    assert(before.skip(i as int).skip(1) =~= before.skip(i + 1));
                    assert(orig.skip(j).skip(1) =~= orig.skip(j + 1));
                }
                i = i + 1;
            }
            proof {
                j = j + 1;
            }
        }
        assert(files_view(self.files@).take(i as int) =~= files_view(self.files@));
        assert(files_view(orig).take(j) =~= files_view(orig));
        n0 - self.files.len()
    }

    /// Loads `text` as the context of the file `path`: the text is cut to
    /// at most 50,000 bytes of UTF-8 as `String::truncate` cuts it, any file
    /// loaded before under the same path is dropped, and the file goes last.
    pub fn load_file(&mut self, path: &str, text: String)
        requires
            old(self).wf(),
            truncatable(text@, file_limit()),
        ensures
            final(self).wf(),
            final(self).files@.len() > 0,
            final(self).files_seq().drop_last() == old(self).files_seq().filter(other_path(path@)),
            final(self).files_seq().last().0 == path@,
            is_truncation(final(self).files_seq().last().1, text@, file_limit()),
            final(self).commands@ == old(self).commands@,
            final(self).conversation@ == old(self).conversation@,
            final(self).endpoint == old(self).endpoint,
            final(self).model == old(self).model,
            final(self).temperature == old(self).temperature,
            final(self).max_tokens == old(self).max_tokens,
    {
        let kept = truncate_bytes(text, 50000);
        self.drop_path(path);
        let ghost before = self.files@;
        self.files.push(LoadedFile { path: path.to_owned(), text: kept });
        assert(files_view(self.files@).drop_last() =~= files_view(before));
        assert forall|i: int, j: int|
            0 <= i < self.files@.len() && 0 <= j < self.files@.len() && i != j
                implies #[trigger] self.files@[i].path@ != #[trigger] self.files@[j].path@ by {
            if i < before.len() && j < before.len() {
                assert(self.files@[i] == before[i] && self.files@[j] == before[j]);
            } else if i < before.len() {
                assert(self.files@[i] == before[i]);
            } else if j < before.len() {
                assert(self.files@[j] == before[j]);
            }
        }
    }

    /// Forgets loaded files: all of them when `arg` is empty or `all`, else
    /// those loaded under the path `arg`. Returns how many were forgotten.
    pub fn forget(&mut self, arg: &str) -> (removed: usize)
        requires
            old(self).wf(),
        ensures
            final(self).wf(),
            (arg@.len() == 0 || arg@ == "all"@) ==> final(self).files@.len() == 0,
            !(arg@.len() == 0 || arg@ == "all"@) ==> final(self).files_seq() == old(
                self,
            ).files_seq().filter(other_path(arg@)),
            removed == old(self).files@.len() - final(self).files@.len(),
            final(self).commands@ == old(self).commands@,
            final(self).conversation@ == old(self).conversation@,
            final(self).endpoint == old(self).endpoint,
            final(self).model == old(self).model,
            final(self).temperature == old(self).temperature,
            final(self).max_tokens == old(self).max_tokens,
    {
        let v = chars_of(arg);
        let all = chars_of("all");
        let everything = v.len() == 0 || (v.len() == all.len() && matches_at(&v, &all, 0));
        assert(everything == (arg@.len() == 0 || arg@ == "all"@)) by {
            if v@.len() == all@.len() {
                assert(v@.subrange(0, all@.len() as int) =~= v@);
            }
        }
        if everything {
            let count = self.files.len();
            self.files.clear();
            count
        } else {
            self.drop_path(arg)
        }
    }
}

/// The configured endpoint, or the default one.
pub fn resolve_endpoint(endpoint: Option<String>) -> (r: String)
    ensures
        r@ == (match endpoint {
            Some(e) => e@,
            None => default_endpoint(),
        }),
{
    match endpoint {
        Some(e) => e,
        None => "https://ai-gateway.edgeone.link/v1".to_owned(),
    }
}

/// The configured model, or the default one.
pub fn resolve_model(model: Option<String>) -> (r: String)
    ensures
        r@ == (match model {
            Some(m) => m@,
            None => default_model(),
        }),
{
    match model {
        Some(m) => m,
        None => "@makers/deepseek-v4-flash".to_owned(),
    }
}

} // verus!
