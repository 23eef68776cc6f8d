//! Starting the tmux cockpit: reading the launch arguments, naming the
//! session, and the tmux commands that lay out the editor and agent panes.

use vstd::prelude::*;

use crate::shell::{quote_body, shell_quote, slug, slug_spec, strings, strings_view};
use crate::text::{push_str, str_eq};

verus! {

/// What the launch arguments ask for.
pub struct LaunchOptions {
    /// The workspace directory, when one was named.
    pub target: Option<String>,
    /// The session name, when one was given.
    pub session: Option<String>,
    /// Whether to attach to the session once it runs.
    pub attach: bool,
}

/// The outcome of reading the launch arguments.
pub enum LaunchRequest {
    /// `-h` or `--help`: print the usage.
    Help,
    /// Start (or join) a session.
    Start(LaunchOptions),
}

/// A launch request as plain values: `None` for help, else the target,
/// the session name and whether to attach.
pub type LaunchPlan = Option<(Option<Seq<char>>, Option<Seq<char>>, bool)>;

/// The characters of an optional string.
pub open spec fn opt_view(s: Option<String>) -> Option<Seq<char>> {
    match s {
        Some(x) => Some(x@),
        None => None,
    }
}

/// The plain view of what `parse_launch_args` returns.
pub open spec fn launch_view(r: Result<LaunchRequest, String>) -> Result<LaunchPlan, Seq<char>> {
    match r {
        Ok(LaunchRequest::Help) => Ok(None),
        Ok(LaunchRequest::Start(o)) => Ok(Some((opt_view(o.target), opt_view(o.session), o.attach))),
        Err(e) => Err(e@),
    }
}

/// Reads the launch arguments from position `i` on, with the target, the
/// session and the attach flag read so far: `--no-attach` clears the flag,
/// `--session` takes the next argument as the session name, `-h` and
/// `--help` ask for the usage at once, an argument that does not start
/// with `-` names the target, and anything else is refused.
pub open spec fn launch_scan(
    args: Seq<Seq<char>>,
    i: int,
    target: Option<Seq<char>>,
    session: Option<Seq<char>>,
    attach: bool,
) -> Result<LaunchPlan, Seq<char>>
    decreases args.len() - i,
{
    if i < 0 || i >= args.len() {
        Ok(Some((target, session, attach)))
    } else {
        let a = args[i];
        if a == "--no-attach"@ {
            launch_scan(args, i + 1, target, session, false)
        } else if a == "--session"@ {
            if i + 1 < args.len() {
                launch_scan(args, i + 2, target, Some(args[i + 1]), attach)
            } else {
                Err("--session requires a name"@)
            }
        } else if a == "-h"@ || a == "--help"@ {
            Ok(None)
        } else if a.len() == 0 || a[0] != '-' {
            launch_scan(args, i + 1, Some(a), session, attach)
        } else {
            Err("unknown argument: "@ + a)
        }
    }
}

/// Reads the launch arguments. `session` is the session name configured in
/// the environment, which `--session` overrides; attaching is the default.
pub fn parse_launch_args(args: &Vec<String>, session: Option<String>) -> (r: Result<
    LaunchRequest,
    String,
>)
    ensures
        launch_view(r) == launch_scan(strings_view(args@), 0, None, opt_view(session), true),
{
    let ghost sv = strings_view(args@);
    let ghost initial = opt_view(session);
    let mut target: Option<String> = None;
    let mut current = session.clone();
    let mut attach = true;
    let mut i: usize = 0;
    while i < args.len()
        invariant
            sv == strings_view(args@),
            i <= args@.len() + 1,
            launch_scan(sv, 0, None, initial, true) == launch_scan(
                sv,
                i as int,
                opt_view(target),
                opt_view(current),
                attach,
            ),
            initial == opt_view(session),
        decreases args@.len() + 1 - i,
    {
        let a = args[i].as_str();
        assert(sv[i as int] == a@);
        if str_eq(a, "--no-attach") {
            attach = false;
        } else if str_eq(a, "--session") {
            if i + 1 < args.len() {
                current = Some(args[i + 1].clone());
                i = i + 1;
            } else {
                return Err("--session requires a name".to_owned());
            }
        } else if str_eq(a, "-h") || str_eq(a, "--help") {
            return Ok(LaunchRequest::Help);
        } else if a.is_empty() || a.get_char(0) != '-' {
            target = Some(args[i].clone());
        } else {
            let mut message = "unknown argument: ".to_owned();
            push_str(&mut message, a);
            return Err(message);
        }
        i = i + 1;
    }
    Ok(LaunchRequest::Start(LaunchOptions { target, session: current, attach }))
}

/// The session name: the one given, else `neomux-` and the slug of the
/// workspace directory's name (`workspace` when it has none).
pub open spec fn session_name_spec(session: Option<Seq<char>>, dir_name: Option<Seq<char>>) -> Seq<
    char,
> {
    match session {
        Some(s) => s,
        None => "neomux-"@ + slug_spec(
            match dir_name {
                Some(d) => d,
                None => "workspace"@,
            },
        ),
    }
}

/// Names the tmux session: the name given, else `neomux-` followed by the
/// slug of the workspace directory's name, or of `workspace`.
pub fn session_name(session: Option<String>, dir_name: Option<&str>) -> (r: String)
    ensures
        r@ == session_name_spec(opt_view(session), match dir_name {
            Some(d) => Some(d@),
            None => None,
        }),
{
    match session {
        Some(s) => s,
        None => {
            let base = match dir_name {
                Some(d) => d,
                None => "workspace",
            };
            let mut name = "neomux-".to_owned();
            let tail = slug(base);
            push_str(&mut name, tail.as_str());
            name
        },
    }
}

/// One step of starting a session that the caller carries out.
pub enum LaunchStep {
    /// Run tmux with these arguments.
    Tmux(Vec<String>),
    /// Print this line.
    Say(String),
}

/// The plain view of a launch step: `Ok` for tmux arguments, `Err` for a
/// line to print.
pub open spec fn step_view(s: LaunchStep) -> Result<Seq<Seq<char>>, Seq<char>> {
    match s {
        LaunchStep::Tmux(a) => Ok(strings_view(a@)),
        LaunchStep::Say(m) => Err(m@),
    }
}

/// The plain views of several launch steps.
pub open spec fn steps_view(s: Seq<LaunchStep>) -> Seq<Result<Seq<Seq<char>>, Seq<char>>> {
    s.map_values(|x: LaunchStep| step_view(x))
}

/// The plain views of several tmux argument lists.
pub open spec fn commands_view(v: Seq<Vec<String>>) -> Seq<Seq<Seq<char>>> {
    v.map_values(|x: Vec<String>| strings_view(x@))
}

/// The tmux arguments that ask whether the session `name` already runs.
pub fn has_session_args(name: &str) -> (r: Vec<String>)
    ensures
        strings_view(r@) == seq!["has-session"@, "-t"@, name@],
{
    let r = strings(&["has-session", "-t", name]);
    assert(strings_view(r@) =~= seq!["has-session"@, "-t"@, name@]);
    r
}

/// What to do when the session `name` already runs: attach to it when
/// asked to, then say that it was running.
pub fn existing_session_steps(name: &str, attach: bool) -> (r: Vec<LaunchStep>)
    ensures
        steps_view(r@) == (if attach {
            seq![Ok(seq!["attach-session"@, "-t"@, name@])]
        } else {
            Seq::empty()
        }) + seq![Err("neomux session already running: "@ + name@)],
{
    let mut r: Vec<LaunchStep> = Vec::new();
    if attach {
        let a = strings(&["attach-session", "-t", name]);
        assert(strings_view(a@) =~= seq!["attach-session"@, "-t"@, name@]);
        r.push(LaunchStep::Tmux(a));
    }
    let mut message = "neomux session already running: ".to_owned();
    push_str(&mut message, name);
    let ghost before = r@;
    r.push(LaunchStep::Say(message));
    assert(steps_view(r@) =~= steps_view(before).push(Err(message@)));
    assert(steps_view(r@) =~= (if attach {
        seq![Ok(seq!["attach-session"@, "-t"@, name@])]
    } else {
        Seq::empty()
    }) + seq![Err("neomux session already running: "@ + name@)]);
    r
}

/// The tmux arguments that create the detached session `name` in `cwd` and
/// print the id of its first pane, the editor pane.
pub fn new_session_args(name: &str, cwd: &str) -> (r: Vec<String>)
    ensures
        strings_view(r@) == seq![
            "new-session"@,
            "-d"@,
            "-P"@,
            "-F"@,
            "#{pane_id}"@,
            "-s"@,
            name@,
            "-c"@,
            cwd@,
        ],
{
    let r = strings(&["new-session", "-d", "-P", "-F", "#{pane_id}", "-s", name, "-c", cwd]);
    assert(strings_view(r@) =~= seq![
        "new-session"@,
        "-d"@,
        "-P"@,
        "-F"@,
        "#{pane_id}"@,
        "-s"@,
        name@,
        "-c"@,
        cwd@,
    ]);
    r
}

/// The tmux commands that name the window, style the session `name`, and
/// open Neovim in the editor pane `editor`.
pub fn editor_setup(name: &str, editor: &str) -> (r: Vec<Vec<String>>)
    ensures
        commands_view(r@) == seq![
            seq!["rename-window"@, "-t"@, editor@, "neomux"@],
            seq!["set-option"@, "-t"@, name@, "status-style"@, "bg=#191724,fg=#e0def4"@],
            seq![
                "set-option"@,
                "-t"@,
                name@,
                "status-left"@,
                "#[fg=#eb6f92,bold] neomux #[fg=#c4a7e7]"@,
            ],
            seq!["set-option"@, "-t"@, name@, "pane-active-border-style"@, "fg=#eb6f92"@],
            seq!["set-option"@, "-t"@, name@, "pane-border-style"@, "fg=#6e6a86"@],
            seq!["send-keys"@, "-t"@, editor@, "nvim '+silent! colorscheme rose-pine' ."@, "C-m"@],
        ],
{
    let c0 = strings(&["rename-window", "-t", editor, "neomux"]);
    assert(strings_view(c0@) =~= seq!["rename-window"@, "-t"@, editor@, "neomux"@]);
    let c1 = strings(&["set-option", "-t", name, "status-style", "bg=#191724,fg=#e0def4"]);
    assert(strings_view(c1@) =~= seq![
        "set-option"@,
        "-t"@,
        name@,
        "status-style"@,
        "bg=#191724,fg=#e0def4"@,
    ]);
    let c2 = strings(
        &["set-option", "-t", name, "status-left", "#[fg=#eb6f92,bold] neomux #[fg=#c4a7e7]"],
    );
    assert(strings_view(c2@) =~= seq![
        "set-option"@,
        "-t"@,
        name@,
        "status-left"@,
        "#[fg=#eb6f92,bold] neomux #[fg=#c4a7e7]"@,
    ]);
    let c3 = strings(&["set-option", "-t", name, "pane-active-border-style", "fg=#eb6f92"]);
    assert(strings_view(c3@) =~= seq![
        "set-option"@,
        "-t"@,
        name@,
        "pane-active-border-style"@,
        "fg=#eb6f92"@,
    ]);
    let c4 = strings(&["set-option", "-t", name, "pane-border-style", "fg=#6e6a86"]);
    assert(strings_view(c4@) =~= seq![
        "set-option"@,
        "-t"@,
        name@,
        "pane-border-style"@,
        "fg=#6e6a86"@,
    ]);
    let c5 = strings(&["send-keys", "-t", editor, "nvim '+silent! colorscheme rose-pine' .", "C-m"]);
    assert(strings_view(c5@) =~= seq![
        "send-keys"@,
        "-t"@,
        editor@,
        "nvim '+silent! colorscheme rose-pine' ."@,
        "C-m"@,
    ]);
    let ghost views = seq![
        strings_view(c0@),
        strings_view(c1@),
        strings_view(c2@),
        strings_view(c3@),
        strings_view(c4@),
        strings_view(c5@),
    ];
    let r = vec![c0, c1, c2, c3, c4, c5];
    assert(commands_view(r@) =~= views);
    r
}

/// The shell command that starts the agent pane from the program at `exe`.
pub fn agent_command(exe: &str) -> (r: String)
    ensures
        r@ == seq!['\''] + quote_body(exe@) + seq!['\''] + " agent"@,
{
    let mut command = shell_quote(exe);
    push_str(&mut command, " agent");
    command
}

/// The tmux arguments that split the editor pane `editor` and open the
/// agent pane beside it in `cwd`, printing the new pane's id.
pub fn agent_split_args(editor: &str, cwd: &str) -> (r: Vec<String>)
    ensures
        strings_view(r@) == seq![
            "split-window"@,
            "-P"@,
            "-F"@,
            "#{pane_id}"@,
            "-h"@,
            "-t"@,
            editor@,
            "-c"@,
            cwd@,
        ],
{
    let r = strings(&["split-window", "-P", "-F", "#{pane_id}", "-h", "-t", editor, "-c", cwd]);
    assert(strings_view(r@) =~= seq![
        "split-window"@,
        "-P"@,
        "-F"@,
        "#{pane_id}"@,
        "-h"@,
        "-t"@,
        editor@,
        "-c"@,
        cwd@,
    ]);
    r
}

/// The tmux commands that start `command` in the agent pane `agent` and
/// give the focus back to the editor pane `editor`.
pub fn agent_start(agent: &str, command: &str, editor: &str) -> (r: Vec<Vec<String>>)
    ensures
        commands_view(r@) == seq![
            seq!["send-keys"@, "-t"@, agent@, command@, "C-m"@],
            seq!["select-pane"@, "-t"@, editor@],
        ],
{
    let c0 = strings(&["send-keys", "-t", agent, command, "C-m"]);
    assert(strings_view(c0@) =~= seq!["send-keys"@, "-t"@, agent@, command@, "C-m"@]);
    let c1 = strings(&["select-pane", "-t", editor]);
    assert(strings_view(c1@) =~= seq!["select-pane"@, "-t"@, editor@]);
    let ghost views = seq![strings_view(c0@), strings_view(c1@)];
    let r = vec![c0, c1];
    assert(commands_view(r@) =~= views);
    r
}

/// The last step of starting the session `name`: attach to it when asked
/// to, else say that it started.
pub fn finish_launch(name: &str, attach: bool) -> (r: LaunchStep)
    ensures
        step_view(r) == (if attach {
            Ok(seq!["attach-session"@, "-t"@, name@])
        } else {
            Err("neomux session started: "@ + name@)
        }),
{
    if attach {
        let a = strings(&["attach-session", "-t", name]);
        assert(strings_view(a@) =~= seq!["attach-session"@, "-t"@, name@]);
        LaunchStep::Tmux(a)
    } else {
        let mut message = "neomux session started: ".to_owned();
        push_str(&mut message, name);
        LaunchStep::Say(message)
    }
}

} // verus!
