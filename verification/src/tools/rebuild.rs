//! Rebuilding from source in the background: where its report goes, and what
//! follows the build.
use vstd::prelude::*;

use super::result::{Reply, ToolResult};
use crate::paths::{join_path, joined};
use crate::search::{
    join, join_strs, law_join_holds_each, lemma_tells, lemma_tells_more, tells,
};
use crate::text::{
    cat2, cat3, cat4, oview, str_eq, tail_of, tail_within_bytes, trim, trimmed, views,
};

verus! {

/// Where the report of a build goes. Only channels that can deliver have a
/// target; a Telegram topic is part of its target.
pub open spec fn target_of(
    channel: Seq<char>,
    chat: Option<Seq<char>>,
    thread: Option<Seq<char>>,
) -> Option<Seq<char>> {
    match chat {
        Some(c) => {
            let id = trimmed(c);
            if id.len() == 0 {
                None
            } else if channel == "telegram"@ {
                match thread {
                    Some(t) if trimmed(t).len() > 0 => Some(
                        "telegram:"@ + id + ":"@ + trimmed(t),
                    ),
                    _ => Some("telegram:"@ + id),
                }
            } else if channel == "discord"@ || channel == "slack"@ {
                Some(channel + ":"@ + id)
            } else {
                None
            }
        },
        None => None,
    }
}

/// Where the report of a build goes.
pub fn rebuild_deliver_target(
    channel: &str,
    chat_id: &Option<String>,
    thread_id: &Option<String>,
) -> (r: Option<String>)
    ensures
        oview(r) == target_of(channel@, oview(*chat_id), oview(*thread_id)),
{
    let id = match chat_id {
        Some(c) => trim(c.as_str()),
        None => return None,
    };
    if id.is_empty() {
        return None;
    }
    if str_eq(channel, "telegram") {
        if let Some(t) = thread_id {
            let t = trim(t.as_str());
            if !t.is_empty() {
                return Some(cat4("telegram:", id, ":", t));
            }
        }
        return Some(cat2("telegram:", id));
    }
    if str_eq(channel, "discord") || str_eq(channel, "slack") {
        return Some(cat3(channel, ":", id));
    }
    None
}

/// The command that builds.
pub const BUILD_COMMAND: &'static str = "RUSTFLAGS='-C target-cpu=native' cargo build --release";

/// The command that builds.
pub fn detached_build_command() -> (r: String)
    ensures
        r@ == BUILD_COMMAND@,
{
    BUILD_COMMAND.to_owned()
}

/// Where the build leaves its binary.
pub open spec fn built_binary(root: Seq<char>) -> Seq<char> {
    joined(joined(joined(root, "target"@), "release"@), "opencrabs"@)
}

/// Where the build leaves its binary.
pub fn built_path(root: &str) -> (r: String)
    ensures
        r@ == built_binary(root@),
{
    let target = join_path(root, "target");
    let release = join_path(target.as_str(), "release");
    join_path(release.as_str(), "opencrabs")
}

/// A notice to a delivery target.
pub struct Notice {
    pub target: String,
    pub text: String,
}

/// What follows a build. The notice to the channel is sent, and awaited,
/// before a restart.
pub enum Completion {
    /// Record the report, and the warning where there is one, in the session;
    /// send the notice; then restart into the binary.
    Restart { binary: String, report: String, warning: Option<String>, notice: Option<Notice> },
    /// Deliver the message to the session and send the notice. Nothing
    /// restarts.
    Failed { message: String, notice: Option<Notice> },
}

/// What follows a build, as values.
pub enum CompletionV {
    Restart {
        binary: Seq<char>,
        report: Seq<char>,
        warning: Option<Seq<char>>,
        notice: Option<(Seq<char>, Seq<char>)>,
    },
    Failed { message: Seq<char>, notice: Option<(Seq<char>, Seq<char>)> },
}

pub open spec fn notice_view(n: Option<Notice>) -> Option<(Seq<char>, Seq<char>)> {
    match n {
        Some(n) => Some((n.target@, n.text@)),
        None => None,
    }
}

impl View for Completion {
    type V = CompletionV;

    open spec fn view(&self) -> CompletionV {
        match self {
            Completion::Restart { binary, report, warning, notice } => CompletionV::Restart {
                binary: binary@,
                report: report@,
                warning: oview(*warning),
                notice: notice_view(*notice),
            },
            Completion::Failed { message, notice } => CompletionV::Failed {
                message: message@,
                notice: notice_view(*notice),
            },
        }
    }
}

/// A notice where there is a target.
pub open spec fn notice_to(target: Option<Seq<char>>, text: Seq<char>) -> Option<
    (Seq<char>, Seq<char>),
> {
    match target {
        Some(t) => Some((t, text)),
        None => None,
    }
}

fn make_notice(target: &Option<String>, text: &str) -> (r: Option<Notice>)
    ensures
        notice_view(r) == notice_to(oview(*target), text@),
{
    match target {
        Some(t) => Some(Notice { target: t.clone(), text: text.to_owned() }),
        None => None,
    }
}

/// The warning about tasks that the restart interrupts.
pub open spec fn interrupted(tasks: Seq<Seq<char>>) -> Option<Seq<char>> {
    if tasks.len() == 0 {
        None
    } else {
        Some(
            "⚠️ Reloading now: these detached tasks were still running and get interrupted by the restart: "@
                + join(tasks, ", "@),
        )
    }
}

/// What follows a build that succeeded.
pub open spec fn after_success(
    root: Seq<char>,
    fallback: Seq<char>,
    built_exists: bool,
    tasks: Seq<Seq<char>>,
    target: Option<Seq<char>>,
) -> CompletionV {
    let binary = if built_exists {
        built_binary(root)
    } else {
        fallback
    };
    CompletionV::Restart {
        binary,
        report: "✅ Background rebuild succeeded — binary at "@ + binary + ". Hot-reloading now."@,
        warning: interrupted(tasks),
        notice: notice_to(
            target,
            "✅ Rebuilt from source — reloading into the new binary now."@,
        ),
    }
}

/// How many bytes of the compiler's output a failure shows.
pub const OUTPUT_TAIL: usize = 4000;

/// The message about a failed build.
pub open spec fn failure_message(output: Seq<char>) -> Seq<char> {
    "⚠️ Background rebuild failed:\n"@ + tail_within_bytes(output, OUTPUT_TAIL as int)
}

/// What follows the build. `built_exists` tells whether the fresh binary is
/// there; `tasks` are the other tasks of the session that still run.
pub fn rebuild_completion_hook(
    success: bool,
    output: &str,
    root: &str,
    fallback: &str,
    built_exists: bool,
    tasks: &Vec<String>,
    target: &Option<String>,
) -> (r: Completion)
    ensures
        r@ == if success {
            after_success(root@, fallback@, built_exists, views(tasks@), oview(*target))
        } else {
            CompletionV::Failed {
                message: failure_message(output@),
                notice: notice_to(oview(*target), failure_message(output@)),
            }
        },
{
    if success {
        let binary = if built_exists {
            built_path(root)
        } else {
            fallback.to_owned()
        };
        let report = cat3(
            "✅ Background rebuild succeeded — binary at ",
            binary.as_str(),
            ". Hot-reloading now.",
        );
        assert(views(tasks@).len() == tasks.len());
        let warning = if tasks.len() == 0 {
            None
        } else {
            Some(
                cat2(
                    "⚠️ Reloading now: these detached tasks were still running and get interrupted by the restart: ",
                    join_strs(tasks, ", ").as_str(),
                ),
            )
        };
        let notice = make_notice(
            target,
            "✅ Rebuilt from source — reloading into the new binary now.",
        );
        Completion::Restart { binary, report, warning, notice }
    } else {
        let message = cat2("⚠️ Background rebuild failed:\n", tail_of(output, OUTPUT_TAIL));
        let notice = make_notice(target, message.as_str());
        Completion::Failed { message, notice }
    }
}

/// The message where the restart itself failed.
pub fn restart_failed(error: &str) -> (r: String)
    ensures
        r@ == "⚠️ Rebuild finished but the reload failed: "@ + error@,
{
    cat2("⚠️ Rebuild finished but the reload failed: ", error)
}

/// The rebuild tool.
pub struct RebuildTool {}

impl RebuildTool {
    pub fn new() -> (r: Self)
        ensures
            r == (RebuildTool {}),
    {
        RebuildTool {}
    }

    /// Whether a rebuild can be started here; the answer where it cannot.
    pub fn refused(&self, has_manager: bool, has_services: bool) -> (r: Option<ToolResult>)
        ensures
            match r {
                None => has_manager && has_services,
                Some(a) => a@ == Reply::Error(
                    if !has_manager {
                        "rebuild: no background task manager available in this context"@
                    } else {
                        "rebuild: no service context available to schedule the background build"@
                    },
                ) && !(has_manager && has_services),
            },
    {
        if !has_manager {
            return Some(
                ToolResult::error(
                    "rebuild: no background task manager available in this context".to_owned(),
                ),
            );
        }
        if !has_services {
            return Some(
                ToolResult::error(
                    "rebuild: no service context available to schedule the background build".to_owned(),
                ),
            );
        }
        None
    }

    /// The answer once the build was to be started.
    pub fn started(&self, outcome: &Result<(), String>) -> (r: ToolResult)
        ensures
            r@ == match *outcome {
                Ok(()) => Reply::Success(
                    "🔨 Rebuild running detached: the live timer shows progress and it does not block you. OpenCrabs exec-restarts into the new binary automatically when it's done; keep working."@,
                ),
                Err(e) => Reply::Error(e@),
            },
    {
        match outcome {
            Ok(()) => ToolResult::success(
                "🔨 Rebuild running detached: the live timer shows progress and it does not block you. OpenCrabs exec-restarts into the new binary automatically when it's done; keep working.".to_owned(),
            ),
            Err(e) => ToolResult::error(e.clone()),
        }
    }
}

impl Default for RebuildTool {
    fn default() -> (r: Self)
        ensures
            r == (RebuildTool {}),
    {
        Self::new()
    }
}

/// The report goes back to where the build was asked for: the chat, and on
/// Telegram its topic. Other channels, and chats without an id, have no target.
pub proof fn law_report_goes_back(channel: Seq<char>, chat: Seq<char>, thread: Option<Seq<char>>)
    ensures
        ({
            let id = trimmed(chat);
            &&& id.len() > 0 && (thread is None || trimmed(thread->0).len() == 0) ==> target_of(
                "telegram"@,
                Some(chat),
                thread,
            ) == Some("telegram:"@ + id)
            &&& id.len() > 0 && thread is Some && trimmed(thread->0).len() > 0 ==> target_of(
                "telegram"@,
                Some(chat),
                thread,
            ) == Some("telegram:"@ + id + ":"@ + trimmed(thread->0))
            &&& id.len() > 0 ==> target_of("discord"@, Some(chat), thread) == Some(
                "discord"@ + ":"@ + id,
            )
            &&& id.len() > 0 ==> target_of("slack"@, Some(chat), thread) == Some(
                "slack"@ + ":"@ + id,
            )
            &&& channel != "telegram"@ && channel != "discord"@ && channel != "slack"@ ==> target_of(
                channel,
                Some(chat),
                thread,
            ) is None
            &&& id.len() == 0 ==> target_of(channel, Some(chat), thread) is None
            &&& target_of(channel, None, thread) is None
        }),
{
    reveal_strlit("telegram");
    reveal_strlit("discord");
    reveal_strlit("slack");
    assert("telegram"@.len() == 8 && "discord"@.len() == 7 && "slack"@.len() == 5);
}

/// A build that succeeded restarts into the fresh binary where it is there and
/// into the present one otherwise; its report names the binary, and the warning
/// names every task that is interrupted.
pub proof fn law_restart_names_its_binary(
    root: Seq<char>,
    fallback: Seq<char>,
    built_exists: bool,
    tasks: Seq<Seq<char>>,
    target: Option<Seq<char>>,
    i: int,
)
    ensures
        ({
            let c = after_success(root, fallback, built_exists, tasks, target);
            &&& c is Restart
            &&& built_exists ==> c->binary == built_binary(root)
            &&& !built_exists ==> c->binary == fallback
            &&& tells(c->report, c->binary)
            &&& c->warning is Some <==> tasks.len() > 0
            &&& 0 <= i < tasks.len() ==> tells(c->warning->0, tasks[i])
            &&& c->Restart_notice is Some <==> target is Some
            &&& target matches Some(t) ==> (c->Restart_notice matches Some((to, _)) && to == t)
        }),
{
    let c = after_success(root, fallback, built_exists, tasks, target);
    lemma_tells(
        c->report,
        "✅ Background rebuild succeeded — binary at "@,
        c->binary,
        ". Hot-reloading now."@,
    );
    if 0 <= i < tasks.len() {
        law_join_holds_each(tasks, ", "@, i);
        let head = "⚠️ Reloading now: these detached tasks were still running and get interrupted by the restart: "@;
        let w = interrupted(tasks)->0;
        assert(w =~= head + join(tasks, ", "@) + Seq::<char>::empty());
        lemma_tells_more(w, head, join(tasks, ", "@), Seq::empty(), tasks[i]);
    }
}

/// The fresh binary is the release build below the source root.
pub proof fn law_binary_is_the_release_build(root: Seq<char>)
    requires
        root.len() > 0,
        root.last() != '/',
    ensures
        built_binary(root) == root + "/"@ + "target"@ + "/"@ + "release"@ + "/"@ + "opencrabs"@,
        BUILD_COMMAND@ == "RUSTFLAGS='-C target-cpu=native' cargo build --release"@,
{
    reveal_strlit("target");
    reveal_strlit("release");
    reveal_strlit("opencrabs");
    assert("target"@[0] == 't' && "release"@[0] == 'r' && "opencrabs"@[0] == 'o');
    let a = root + "/"@ + "target"@;
    assert(a.last() == 't');
    let b = a + "/"@ + "release"@;
    assert(b.last() == 'e');
}

/// A failure shows the end of the output, and all of it where it is short.
pub proof fn law_failure_shows_the_output(output: Seq<char>)
    ensures
        failure_message(output) == "⚠️ Background rebuild failed:\n"@ + tail_within_bytes(
            output,
            4000,
        ),
        notice_to(None, output) is None,
        notice_to(Some(output), output) == Some((output, output)),
{
}

} // verus!
