//! Slash commands that the agent runs: built-in ones and those a user defines.
use vstd::prelude::*;

use super::result::{Reply, ToolResult};
use crate::json::{param, param_of, Json};
use crate::search::{
    has_prefix, join, join_strs, law_join_holds_each, lemma_tells, lemma_tells_more, starts_with,
    tells,
};
use crate::text::{cat2, cat3, cat4, cat5, str_eq, trim, trimmed, views};

verus! {

/// The slash command tool.
pub struct SlashCommandTool {}

/// What to do next.
pub enum SlashStep {
    Done(ToolResult),
    /// Look the directory up and go on with [`directory_checked`].
    ChangeDir { path: String },
    /// Detect the project source and answer with [`source_detected`].
    DetectSource,
    /// Read the approval policy and answer with [`policy_read`].
    ReadPolicy,
    /// Write the approval policy and answer with [`policy_written`].
    WritePolicy { policy: String },
    /// Load the user's commands and answer with [`user_command`].
    LookUp { command: String },
}

/// A step, as values.
pub enum SlashStepV {
    Done(Reply),
    ChangeDir(Seq<char>),
    DetectSource,
    ReadPolicy,
    WritePolicy(Seq<char>),
    LookUp(Seq<char>),
}

impl View for SlashStep {
    type V = SlashStepV;

    open spec fn view(&self) -> SlashStepV {
        match self {
            SlashStep::Done(r) => SlashStepV::Done(r@),
            SlashStep::ChangeDir { path } => SlashStepV::ChangeDir(path@),
            SlashStep::DetectSource => SlashStepV::DetectSource,
            SlashStep::ReadPolicy => SlashStepV::ReadPolicy,
            SlashStep::WritePolicy { policy } => SlashStepV::WritePolicy(policy@),
            SlashStep::LookUp { command } => SlashStepV::LookUp(command@),
        }
    }
}

/// The approval policies there are.
pub open spec fn is_policy(p: Seq<char>) -> bool {
    p == "approve-only"@ || p == "auto-session"@ || p == "auto-always"@
}

/// Commands that open a dialog, which the agent cannot do.
pub open spec fn opens_dialog(c: Seq<char>) -> bool {
    ||| c == "/models"@
    ||| c == "/sessions"@
    ||| c == "/help"@
    ||| c == "/settings"@
    ||| c == "/onboard"@
    ||| c == "/usage"@
}

/// How `/cd` begins.
pub open spec fn cd_step(args: Seq<char>) -> SlashStepV {
    if trimmed(args).len() == 0 {
        SlashStepV::Done(
            Reply::Error(
                "No directory specified. Usage: slash_command /cd with args='/path/to/dir'"@,
            ),
        )
    } else {
        SlashStepV::ChangeDir(trimmed(args))
    }
}

/// How `/approve` begins.
pub open spec fn approve_step(args: Seq<char>) -> SlashStepV {
    let policy = trimmed(args);
    if policy.len() == 0 {
        SlashStepV::ReadPolicy
    } else if is_policy(policy) {
        SlashStepV::WritePolicy(policy)
    } else {
        SlashStepV::Done(
            Reply::Error(
                "Invalid policy: '"@ + policy
                    + "'. Valid: approve-only, auto-session, auto-always"@,
            ),
        )
    }
}

/// How a command begins.
pub open spec fn command_step(command: Seq<char>, args: Seq<char>) -> SlashStepV {
    if !has_prefix(command, "/"@) {
        SlashStepV::Done(Reply::Error("Command must start with '/'. Got: '"@ + command + "'"@))
    } else if command == "/cd"@ {
        cd_step(args)
    } else if command == "/compact"@ {
        SlashStepV::Done(
            Reply::Success(
                "Compaction requested. Summarize the current conversation for continuity, then the system will trim context automatically."@,
            ),
        )
    } else if command == "/rebuild"@ {
        SlashStepV::DetectSource
    } else if command == "/approve"@ {
        approve_step(args)
    } else if opens_dialog(command) {
        SlashStepV::Done(
            Reply::Success(
                command
                    + " is a TUI-only command (opens an interactive dialog). Tell the user to type "@
                    + command + " in the input box."@,
            ),
        )
    } else if command == "/whisper"@ {
        SlashStepV::Done(
            Reply::Success(
                "WhisperCrabs is a TUI-triggered command. Tell the user to type /whisper in the input box to launch the floating voice-to-text tool."@,
            ),
        )
    } else {
        SlashStepV::LookUp(command)
    }
}

impl SlashCommandTool {
    pub fn name(&self) -> (r: &'static str)
        ensures
            r@ == "slash_command"@,
    {
        "slash_command"
    }

    pub fn requires_approval(&self) -> (r: bool)
        ensures
            r,
    {
        true
    }

    fn handle_cd(&self, args: &str) -> (r: SlashStep)
        ensures
            r@ == cd_step(args@),
    {
        let path = trim(args);
        if path.is_empty() {
            return SlashStep::Done(
                ToolResult::error(
                    "No directory specified. Usage: slash_command /cd with args='/path/to/dir'".to_owned(),
                ),
            );
        }
        SlashStep::ChangeDir { path: path.to_owned() }
    }

    fn handle_approve(&self, args: &str) -> (r: SlashStep)
        ensures
            r@ == approve_step(args@),
    {
        let policy = trim(args);
        if policy.is_empty() {
            return SlashStep::ReadPolicy;
        }
        if str_eq(policy, "approve-only") || str_eq(policy, "auto-session") || str_eq(
            policy,
            "auto-always",
        ) {
            return SlashStep::WritePolicy { policy: policy.to_owned() };
        }
        SlashStep::Done(
            ToolResult::error(
                cat3(
                    "Invalid policy: '",
                    policy,
                    "'. Valid: approve-only, auto-session, auto-always",
                ),
            ),
        )
    }

    /// Begins a command.
    pub fn execute(&self, input: &Json) -> (r: SlashStep)
        ensures
            r@ == command_step(param(*input, "command"@), param(*input, "args"@)),
    {
        let given = param_of(input, "command");
        let args = param_of(input, "args");
        let command = given.as_str();
        if !starts_with(command, "/") {
            return SlashStep::Done(
                ToolResult::error(cat3("Command must start with '/'. Got: '", command, "'")),
            );
        }
        if str_eq(command, "/cd") {
            return self.handle_cd(args.as_str());
        }
        if str_eq(command, "/compact") {
            return SlashStep::Done(
                ToolResult::success(
                    "Compaction requested. Summarize the current conversation for continuity, then the system will trim context automatically.".to_owned(),
                ),
            );
        }
        if str_eq(command, "/rebuild") {
            return SlashStep::DetectSource;
        }
        if str_eq(command, "/approve") {
            return self.handle_approve(args.as_str());
        }
        if str_eq(command, "/models") || str_eq(command, "/sessions") || str_eq(command, "/help")
            || str_eq(command, "/settings") || str_eq(command, "/onboard") || str_eq(
            command,
            "/usage",
        ) {
            return SlashStep::Done(
                ToolResult::success(
                    cat4(
                        command,
                        " is a TUI-only command (opens an interactive dialog). Tell the user to type ",
                        command,
                        " in the input box.",
                    ),
                ),
            );
        }
        if str_eq(command, "/whisper") {
            return SlashStep::Done(
                ToolResult::success(
                    "WhisperCrabs is a TUI-triggered command. Tell the user to type /whisper in the input box to launch the floating voice-to-text tool.".to_owned(),
                ),
            );
        }
        SlashStep::LookUp { command: given }
    }
}

/// What a lookup of a directory gave.
pub enum DirProbe {
    Missing,
    NotDirectory,
    Unresolved(String),
    /// Its canonical path.
    Resolved(String),
}

/// The directory to change to, or the answer where there is none. On success
/// the running session moves there and the path is persisted.
pub fn directory_checked(path: &str, probe: DirProbe) -> (r: Result<String, ToolResult>)
    ensures
        match probe {
            DirProbe::Missing => r is Err && r->Err_0@ == Reply::Error(
                "Path does not exist: "@ + path@,
            ),
            DirProbe::NotDirectory => r is Err && r->Err_0@ == Reply::Error(
                "Path is not a directory: "@ + path@,
            ),
            DirProbe::Unresolved(e) => r is Err && r->Err_0@ == Reply::Error(
                "Failed to resolve path: "@ + e@,
            ),
            DirProbe::Resolved(p) => r is Ok && r->Ok_0@ == p@,
        },
{
    match probe {
        DirProbe::Missing => Err(ToolResult::error(cat2("Path does not exist: ", path))),
        DirProbe::NotDirectory => Err(ToolResult::error(cat2("Path is not a directory: ", path))),
        DirProbe::Unresolved(e) => Err(
            ToolResult::error(cat2("Failed to resolve path: ", e.as_str())),
        ),
        DirProbe::Resolved(p) => Ok(p),
    }
}

/// The answer of `/cd` once the path was to be persisted.
pub fn directory_persisted(path: &str, outcome: &Result<(), String>) -> (r: ToolResult)
    ensures
        r@ == match *outcome {
            Ok(()) => Reply::Success("Working directory changed to: "@ + path@),
            Err(e) => Reply::Error(
                "Runtime updated but failed to persist to config.toml: "@ + e@,
            ),
        },
{
    match outcome {
        Ok(()) => ToolResult::success(cat2("Working directory changed to: ", path)),
        Err(e) => ToolResult::error(
            cat2("Runtime updated but failed to persist to config.toml: ", e.as_str()),
        ),
    }
}

/// The answer of `/rebuild`: the project root, or why it was not found.
pub fn source_detected(outcome: &Result<String, String>) -> (r: ToolResult)
    ensures
        r@ == match *outcome {
            Ok(root) => Reply::Success(
                "Source detected at: "@ + root@
                    + ". Use the `rebuild` tool to build and restart, or tell the user to type /rebuild."@,
            ),
            Err(e) => Reply::Error("Cannot detect project source: "@ + e@),
        },
{
    match outcome {
        Ok(root) => ToolResult::success(
            cat3(
                "Source detected at: ",
                root.as_str(),
                ". Use the `rebuild` tool to build and restart, or tell the user to type /rebuild.",
            ),
        ),
        Err(e) => ToolResult::error(cat2("Cannot detect project source: ", e.as_str())),
    }
}

/// The answer of `/approve` without a policy.
pub fn policy_read(outcome: &Result<String, String>) -> (r: ToolResult)
    ensures
        r@ == match *outcome {
            Ok(p) => Reply::Success("Current approval policy: "@ + p@),
            Err(e) => Reply::Error("Failed to read config: "@ + e@),
        },
{
    match outcome {
        Ok(p) => ToolResult::success(cat2("Current approval policy: ", p.as_str())),
        Err(e) => ToolResult::error(cat2("Failed to read config: ", e.as_str())),
    }
}

/// The answer of `/approve` with a policy.
pub fn policy_written(policy: &str, outcome: &Result<(), String>) -> (r: ToolResult)
    ensures
        r@ == match *outcome {
            Ok(()) => Reply::Success("Approval policy set to: "@ + policy@),
            Err(e) => Reply::Error("Failed to write config: "@ + e@),
        },
{
    match outcome {
        Ok(()) => ToolResult::success(cat2("Approval policy set to: ", policy)),
        Err(e) => ToolResult::error(cat2("Failed to write config: ", e.as_str())),
    }
}

/// A command that a user defined.
pub struct UserCommand {
    pub name: String,
    pub description: String,
    pub action: String,
    pub prompt: String,
}

/// The names of the built-in commands.
pub open spec fn builtin() -> Seq<Seq<char>> {
    seq![
        "/cd"@,
        "/compact"@,
        "/rebuild"@,
        "/approve"@,
        "/models"@,
        "/sessions"@,
        "/help"@,
        "/onboard"@,
        "/usage"@,
        "/whisper"@,
        "/settings"@,
    ]
}

fn builtin_names() -> (r: Vec<String>)
    ensures
        views(r@) == builtin(),
{
    let r = vec![
        "/cd".to_owned(),
        "/compact".to_owned(),
        "/rebuild".to_owned(),
        "/approve".to_owned(),
        "/models".to_owned(),
        "/sessions".to_owned(),
        "/help".to_owned(),
        "/onboard".to_owned(),
        "/usage".to_owned(),
        "/whisper".to_owned(),
        "/settings".to_owned(),
    ];
    assert(views(r@) =~= builtin());
    r
}

pub open spec fn command_names(v: Seq<UserCommand>) -> Seq<Seq<char>> {
    v.map_values(|c: UserCommand| c.name@)
}

/// The first of the commands with that name.
pub open spec fn command_named(v: Seq<UserCommand>, name: Seq<char>) -> Option<UserCommand>
    decreases v.len(),
{
    if v.len() == 0 {
        None
    } else if v[0].name@ == name {
        Some(v[0])
    } else {
        command_named(v.drop_first(), name)
    }
}

/// The answer of a command that is not built in.
pub open spec fn user_answer(v: Seq<UserCommand>, command: Seq<char>) -> Reply {
    match command_named(v, command) {
        Some(c) => if c.action@ == "system"@ {
            Reply::Success("[System message] "@ + c.prompt@)
        } else {
            Reply::Success(
                "User command '"@ + c.name@ + "' ("@ + c.description@ + "): "@ + c.prompt@,
            )
        },
        None => Reply::Error(
            "Unknown command: '"@ + command + "'. Built-in: "@ + join(builtin(), ", "@)
                + ". User-defined: "@ + (if v.len() == 0 {
                "(none)"@
            } else {
                join(command_names(v), ", "@)
            }),
        ),
    }
}

/// The answer of a command that is not built in.
pub fn user_command(commands: &Vec<UserCommand>, command: &str) -> (r: ToolResult)
    ensures
        r@ == user_answer(commands@, command@),
{
    let mut names: Vec<String> = Vec::new();
    let mut i: usize = 0;
    assert(commands@.skip(0) =~= commands@);
    assert(views(names@) =~= command_names(commands@).take(0));
    while i < commands.len()
        invariant
            i <= commands.len(),
            command_named(commands@, command@) == command_named(
                commands@.skip(i as int),
                command@,
            ),
            views(names@) == command_names(commands@).take(i as int),
        decreases commands.len() - i,
    {
        assert(commands@.skip(i as int)[0] == commands@[i as int]);
        assert(commands@.skip(i as int).drop_first() =~= commands@.skip(i + 1));
        let c = &commands[i];
        if str_eq(c.name.as_str(), command) {
            if str_eq(c.action.as_str(), "system") {
                return ToolResult::success(cat2("[System message] ", c.prompt.as_str()));
            }
            let head = cat5(
                "User command '",
                c.name.as_str(),
                "' (",
                c.description.as_str(),
                "): ",
            );
            return ToolResult::success(cat2(head.as_str(), c.prompt.as_str()));
        }
        let ghost pre = views(names@);
        names.push(c.name.clone());
        assert(views(names@) =~= pre.push(c.name@));
        assert(command_names(commands@).take(i + 1) =~= command_names(commands@).take(
            i as int,
        ).push(c.name@));
        i = i + 1;
    }
    assert(command_names(commands@).take(i as int) =~= command_names(commands@));
    let user = if names.len() == 0 {
        "(none)".to_owned()
    } else {
        join_strs(&names, ", ")
    };
    let head = cat4(
        "Unknown command: '",
        command,
        "'. Built-in: ",
        join_strs(&builtin_names(), ", ").as_str(),
    );
    ToolResult::error(cat3(head.as_str(), ". User-defined: ", user.as_str()))
}

/// A built-in command never falls through to the user's commands.
pub proof fn law_builtin_is_not_looked_up(i: int, args: Seq<char>)
    requires
        0 <= i < builtin().len(),
    ensures
        !(command_step(builtin()[i], args) is LookUp),
{
}

/// Commands do what they are named for: `/cd` changes to the directory given,
/// `/rebuild` looks for the source, `/approve` reads or sets the policy, and
/// those that open a dialog say so.
pub proof fn law_commands_do_what_they_say(args: Seq<char>)
    ensures
        trimmed(args).len() > 0 ==> command_step("/cd"@, args) == SlashStepV::ChangeDir(
            trimmed(args),
        ),
        trimmed(args).len() == 0 ==> command_step("/cd"@, args) is Done && command_step(
            "/cd"@,
            args,
        )->Done_0 is Error,
        command_step("/compact"@, args) is Done && command_step("/compact"@, args)->Done_0
            is Success,
        command_step("/rebuild"@, args) is DetectSource,
        trimmed(args).len() == 0 ==> command_step("/approve"@, args) is ReadPolicy,
        trimmed(args) == "approve-only"@ || trimmed(args) == "auto-session"@ || trimmed(args)
            == "auto-always"@ ==> command_step("/approve"@, args) == SlashStepV::WritePolicy(
            trimmed(args),
        ),
        trimmed(args).len() > 0 && trimmed(args) != "approve-only"@ && trimmed(args)
            != "auto-session"@ && trimmed(args) != "auto-always"@ ==> command_step(
            "/approve"@,
            args,
        ) is Done && command_step("/approve"@, args)->Done_0 is Error,
{
    lemma_slash("/cd"@);
    reveal_strlit("/cd");
    reveal_strlit("/compact");
    reveal_strlit("/rebuild");
    reveal_strlit("/approve");
    reveal_strlit("/models");
    reveal_strlit("/sessions");
    reveal_strlit("/help");
    reveal_strlit("/onboard");
    reveal_strlit("/usage");
    reveal_strlit("/whisper");
    reveal_strlit("/settings");
    reveal_strlit("/");
    reveal_strlit("approve-only");
    reveal_strlit("auto-session");
    reveal_strlit("auto-always");
    assert("approve-only"@.len() > 0 && "auto-session"@.len() > 0 && "auto-always"@.len() > 0);
    lemma_slash("/compact"@);
    lemma_slash("/rebuild"@);
    lemma_slash("/approve"@);
    assert("/cd"@.len() == 3 && "/compact"@.len() == 8 && "/rebuild"@.len() == 8
        && "/approve"@.len() == 8);
    assert("/compact"@[1] == 'c' && "/rebuild"@[1] == 'r' && "/approve"@[1] == 'a');
}

proof fn lemma_slash(c: Seq<char>)
    ensures
        c.len() > 0 && c[0] == '/' <==> has_prefix(c, "/"@),
{
    reveal_strlit("/");
    if c.len() > 0 {
        assert(c.subrange(0, 1)[0] == c[0]);
        assert("/"@[0] == '/');
        if c[0] == '/' {
            assert(c.subrange(0, 1) =~= "/"@);
        }
    }
}

/// What is no command is refused; a command that is not built in is looked up
/// under its own name; one that opens a dialog is answered with its name.
pub proof fn law_other_commands(command: Seq<char>, args: Seq<char>)
    ensures
        command.len() == 0 || command[0] != '/' ==> command_step(command, args)
            == SlashStepV::Done(
            Reply::Error("Command must start with '/'. Got: '"@ + command + "'"@),
        ),
        command.len() > 0 && command[0] == '/' && command != "/cd"@ && command != "/compact"@ && command != "/rebuild"@ && command != "/approve"@ && command != "/models"@ && command != "/sessions"@ && command != "/help"@ && command != "/onboard"@ && command != "/usage"@ && command != "/whisper"@ && command != "/settings"@ ==> command_step(command, args)
            == SlashStepV::LookUp(command),
        command == "/models"@ || command == "/sessions"@ || command == "/help"@ || command
            == "/settings"@ || command == "/onboard"@ || command == "/usage"@ ==> command_step(
            command,
            args,
        ) == SlashStepV::Done(
            Reply::Success(
                command
                    + " is a TUI-only command (opens an interactive dialog). Tell the user to type "@
                    + command + " in the input box."@,
            ),
        ),
{
    lemma_slash(command);
    reveal_strlit("/cd");
    reveal_strlit("/compact");
    reveal_strlit("/rebuild");
    reveal_strlit("/approve");
    reveal_strlit("/models");
    reveal_strlit("/sessions");
    reveal_strlit("/help");
    reveal_strlit("/onboard");
    reveal_strlit("/usage");
    reveal_strlit("/whisper");
    reveal_strlit("/settings");
    reveal_strlit("/");
    let c = command;
    if c == "/models"@ || c == "/sessions"@ || c == "/help"@ || c == "/settings"@ || c
        == "/onboard"@ || c == "/usage"@ {
        assert(c[0] == '/');
        assert(c[1] == 'm' || c[1] == 's' || c[1] == 'h' || c[1] == 'o' || c[1] == 'u');
        assert("/cd"@[1] == 'c' && "/compact"@[1] == 'c' && "/rebuild"@[1] == 'r'
            && "/approve"@[1] == 'a');
    }
}

proof fn lemma_named(v: Seq<UserCommand>, name: Seq<char>, i: int)
    ensures
        0 <= i < v.len() && v[i].name@ == name && (forall|j: int|
            0 <= j < i ==> (#[trigger] v[j]).name@ != name) ==> command_named(v, name) == Some(
            v[i],
        ),
        (forall|j: int| 0 <= j < v.len() ==> (#[trigger] v[j]).name@ != name) ==> command_named(
            v,
            name,
        ) is None,
    decreases v.len(),
{
    if v.len() > 0 {
        let rest = v.drop_first();
        lemma_named(rest, name, i - 1);
        assert forall|j: int| 0 <= j < rest.len() implies #[trigger] rest[j] == v[j + 1] by {}
        if v[0].name@ != name && 0 <= i < v.len() && v[i].name@ == name {
            assert(rest[i - 1] == v[i]);
        }
    }
}

/// A user's command answers with its prompt, the first of that name; an
/// unknown one is refused, with every command there is.
pub proof fn law_user_commands_answer(v: Seq<UserCommand>, i: int, command: Seq<char>, k: int)
    ensures
        0 <= i < v.len() && v[i].name@ == command && (forall|j: int|
            0 <= j < i ==> (#[trigger] v[j]).name@ != command) ==> ({
            let a = user_answer(v, command);
            &&& a is Success
            &&& tells(a->Success_0, v[i].prompt@)
            &&& v[i].action@ == "system"@ ==> a->Success_0 == "[System message] "@ + v[i].prompt@
            &&& v[i].action@ != "system"@ ==> a->Success_0 == "User command '"@ + command + "' ("@
                + v[i].description@ + "): "@ + v[i].prompt@
        }),
        (forall|j: int| 0 <= j < v.len() ==> (#[trigger] v[j]).name@ != command) ==> ({
            let a = user_answer(v, command);
            &&& a is Error
            &&& tells(a->Error_0, "Unknown command: '"@ + command + "'"@)
            &&& 0 <= k < v.len() ==> tells(a->Error_0, v[k].name@)
            &&& 0 <= k < builtin().len() ==> tells(a->Error_0, builtin()[k])
        }),
{
    lemma_named(v, command, i);
    let a = user_answer(v, command);
    let none = Seq::<char>::empty();
    match command_named(v, command) {
        Some(c) => {
            let t = a->Success_0;
            let head = t.take(t.len() - c.prompt@.len());
            assert(t =~= head + c.prompt@ + none);
            lemma_tells(t, head, c.prompt@, none);
        },
        None => {
            let t = a->Error_0;
            reveal_strlit("'. Built-in: ");
            reveal_strlit("'");
            let b = "'. Built-in: "@;
            let built = join(builtin(), ", "@);
            let user = if v.len() == 0 {
                "(none)"@
            } else {
                join(command_names(v), ", "@)
            };
            let p = "Unknown command: '"@ + command + "'"@;
            let rest = b.skip(1) + built + ". User-defined: "@ + user;
            assert(t =~= none + p + rest);
            lemma_tells(t, none, p, rest);
            if 0 <= k < v.len() {
                law_join_holds_each(command_names(v), ", "@, k);
                let before = "Unknown command: '"@ + command + b + built + ". User-defined: "@;
                assert(t =~= before + user + none);
                lemma_tells_more(t, before, user, none, v[k].name@);
            }
            if 0 <= k < builtin().len() {
                law_join_holds_each(builtin(), ", "@, k);
                let before = "Unknown command: '"@ + command + b;
                let after = ". User-defined: "@ + user;
                assert(t =~= before + built + after);
                lemma_tells_more(t, before, built, after, builtin()[k]);
            }
        },
    }
}

/// The commands that are built in.
pub proof fn law_builtin_commands(name: Seq<char>)
    ensures
        builtin().contains(name) <==> (name == "/cd"@ || name == "/compact"@ || name == "/rebuild"@ || name == "/approve"@ || name == "/models"@ || name == "/sessions"@ || name == "/help"@ || name == "/onboard"@ || name == "/usage"@ || name == "/whisper"@ || name == "/settings"@),
{
    assert(builtin()[0] == "/cd"@);
    assert(builtin()[1] == "/compact"@);
    assert(builtin()[2] == "/rebuild"@);
    assert(builtin()[3] == "/approve"@);
    assert(builtin()[4] == "/models"@);
    assert(builtin()[5] == "/sessions"@);
    assert(builtin()[6] == "/help"@);
    assert(builtin()[7] == "/onboard"@);
    assert(builtin()[8] == "/usage"@);
    assert(builtin()[9] == "/whisper"@);
    assert(builtin()[10] == "/settings"@);
    if builtin().contains(name) {
        let i = choose|i: int| 0 <= i < builtin().len() && builtin()[i] == name;
        assert(builtin()[i] == name);
    }
}

} // verus!
