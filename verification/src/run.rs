//! The proxy's lifecycle: what the upstream command is, and how every shutdown
//! path leaves no orphaned Lean server behind.

use crate::forward::FirstClosed;
use vstd::prelude::*;
use vstd::string::StringExecFns;

verus! {

/// How long to wait for the upstream to exit on its own before killing it.
pub const REAP_GRACE_SECS: u64 = 5;

// ---------------------------------------------------------------------------
// Start
// ---------------------------------------------------------------------------

/// The program to start, and its arguments.
#[derive(Debug)]
pub struct Upstream {
    pub program: String,
    pub args: Vec<String>,
}

/// Take the upstream command apart. `None` if it is empty.
pub fn upstream_command(words: Vec<String>) -> (r: Option<Upstream>)
    ensures
        match r {
            Some(u) => words@ == seq![u.program] + u.args@,
            None => words@.len() == 0,
        },
{
    let mut words: Vec<String> = words;
    let ghost given = words@;
    if words.len() == 0 {
        return None;
    }
    let program: String = words.remove(0);
    assert(given =~= seq![program] + words@);
    Some(Upstream { program, args: words })
}

/// What to tell the user if there is no such program as the upstream command
/// names.
pub open spec fn not_found_text(program: Seq<char>) -> Seq<char> {
    "upstream command not found: "@ + program
        + " (install it, for Lean via elan, or give an absolute command path)"@
}

/// What to tell the user if there is no such program as the upstream command
/// names.
pub fn not_found_message(program: &str) -> (r: String)
    ensures
        r@ == not_found_text(program@),
{
    let mut r: String = "upstream command not found: ".to_owned();
    r.append(program);
    r.append(" (install it, for Lean via elan, or give an absolute command path)");
    r
}

/// What to tell the user if the server has exited without a word.
pub const NEVER_STARTED: &'static str =
    "the Lean server exited without starting up; try `lake build` in the project, then reopen";

// ---------------------------------------------------------------------------
// Shutdown
// ---------------------------------------------------------------------------

/// One step of the shutdown.
#[derive(Debug, Clone, Copy, PartialEq, Eq, Structural)]
pub enum ShutdownStep {
    /// Tell the user that the server never started up.
    ReportNeverStarted,
    /// Stop the client→server pump.
    AbortClientPump,
    /// Wait for the upstream to exit, within the grace period.
    Reap,
    /// Wait for the server→client pump, so that the last output of the server
    /// still reaches Helix.
    JoinServerPump,
    /// Wait for both writers, so that each sink gets a clean half-close.
    DrainWriters,
}

/// The shutdown, by the side that closed first and by whether the server ever
/// sent a frame.
pub open spec fn shutdown_plan(first: FirstClosed, server_spoke: bool) -> Seq<ShutdownStep> {
    match first {
        FirstClosed::Client => seq![
            ShutdownStep::Reap,
            ShutdownStep::JoinServerPump,
            ShutdownStep::DrainWriters,
        ],
        FirstClosed::Server => (if server_spoke {
            Seq::empty()
        } else {
            seq![ShutdownStep::ReportNeverStarted]
        }) + seq![
            ShutdownStep::AbortClientPump,
            ShutdownStep::Reap,
            ShutdownStep::DrainWriters,
        ],
    }
}

/// The shutdown, by the side that closed first and by whether the server ever
/// sent a frame.
pub fn shutdown(first: FirstClosed, server_spoke: bool) -> (r: Vec<ShutdownStep>)
    ensures
        r@ == shutdown_plan(first, server_spoke),
{
    let mut r: Vec<ShutdownStep> = Vec::new();
    match first {
        FirstClosed::Client => {
            r.push(ShutdownStep::Reap);
            r.push(ShutdownStep::JoinServerPump);
        },
        FirstClosed::Server => {
            if !server_spoke {
                r.push(ShutdownStep::ReportNeverStarted);
            }
            r.push(ShutdownStep::AbortClientPump);
            r.push(ShutdownStep::Reap);
        },
    }
    r.push(ShutdownStep::DrainWriters);
    assert(r@ =~= shutdown_plan(first, server_spoke));
    r
}

/// How waiting for the upstream ended.
#[derive(Debug, Clone, Copy, PartialEq, Eq, Structural)]
pub enum Waited {
    /// It exited within the grace period.
    Exited,
    /// Waiting for it failed.
    Failed,
    /// The grace period is over and it still runs.
    Overstayed,
}

/// Whether the upstream has to be killed: if and only if it overstayed.
pub fn must_kill(waited: Waited) -> (r: bool)
    ensures
        r == (waited is Overstayed),
{
    match waited {
        Waited::Exited => false,
        Waited::Failed => false,
        Waited::Overstayed => true,
    }
}

/// Whichever side closed first, the upstream is reaped exactly once, and the
/// writers are drained last.
pub proof fn every_shutdown_reaps(first: FirstClosed, server_spoke: bool)
    ensures
        ({
            let plan = shutdown_plan(first, server_spoke);
            &&& exists|i: int| #![trigger plan[i]]
                0 <= i < plan.len() - 1 && plan[i] == ShutdownStep::Reap && forall|j: int|
                    #![trigger plan[j]]
                    0 <= j < plan.len() && plan[j] == ShutdownStep::Reap ==> j == i
            &&& plan.last() == ShutdownStep::DrainWriters
        }),
{
    let plan = shutdown_plan(first, server_spoke);
    let i: int = match first {
        FirstClosed::Client => 0,
        FirstClosed::Server => if server_spoke {
            1
        } else {
            2
        },
    };
    assert(plan[i] == ShutdownStep::Reap);
}

/// The server's last output is waited for exactly if the client closed first,
/// and the user is told that the server never started up exactly if it closed
/// first without a word.
pub proof fn shutdown_tells_the_cases_apart(first: FirstClosed, server_spoke: bool)
    ensures
        shutdown_plan(first, server_spoke).contains(ShutdownStep::JoinServerPump) <==> first
            is Client,
        shutdown_plan(first, server_spoke).contains(ShutdownStep::ReportNeverStarted) <==> first
            is Server && !server_spoke,
{
    let plan = shutdown_plan(first, server_spoke);
    match first {
        FirstClosed::Client => {
            assert(plan[1] == ShutdownStep::JoinServerPump);
        },
        FirstClosed::Server => {
            if !server_spoke {
                assert(plan[0] == ShutdownStep::ReportNeverStarted);
            }
        },
    }
}

/// What the user is told names the program and says that it was not found.
pub proof fn not_found_names_the_program(program: Seq<char>)
    ensures
        ({
            let text = not_found_text(program);
            &&& exists|i: int|
                0 <= i <= text.len() - 9 && #[trigger] text.subrange(i, i + 9) == "not found"@
            &&& exists|i: int|
                0 <= i <= text.len() - program.len() && #[trigger] text.subrange(
                    i,
                    i + program.len(),
                ) == program
        }),
{
    reveal_strlit("upstream command not found: ");
    reveal_strlit(" (install it, for Lean via elan, or give an absolute command path)");
    reveal_strlit("not found");
    let text = not_found_text(program);
    assert(text.subrange(17, 17int + 9) =~= "not found"@);
    assert(text.subrange(28, 28int + program.len()) =~= program);
}

/// The order of the shutdown: if the client closed first, the upstream is
/// reaped before its last output is waited for; if the server closed first, the
/// client pump is stopped before the upstream is reaped, and it is stopped in
/// no other case.
pub proof fn shutdown_order(first: FirstClosed, server_spoke: bool)
    ensures
        ({
            let plan = shutdown_plan(first, server_spoke);
            &&& first is Client ==> plan.len() == 3 && plan[0] == ShutdownStep::Reap && plan[1]
                == ShutdownStep::JoinServerPump
            &&& first is Client ==> !plan.contains(ShutdownStep::AbortClientPump)
            &&& first is Server ==> plan.len() == if server_spoke {
                3nat
            } else {
                4nat
            }
            &&& first is Server ==> plan[plan.len() - 3] == ShutdownStep::AbortClientPump
                && plan[plan.len() - 2] == ShutdownStep::Reap
            &&& first is Server && !server_spoke ==> plan[0] == ShutdownStep::ReportNeverStarted
        }),
{
}

} // verus!
