//! Starting a pane's program: what is started, in which steps, and what becomes of the pane.

use crate::capability::{is_spawn_env, pane_spawn_env, EnvVar};
use crate::config::SessionIsolationMode;
use crate::messages::Spawn;
use crate::pane::{fresh_pane, PaneRelay, PaneView};
use crate::protocol::ClientCapabilities;
use crate::text::{text_option, views};
use vstd::prelude::*;

verus! {

/// What is asked of the system on the way to a running pane.
#[derive(Clone, Copy, Debug, PartialEq, Eq, Structural)]
pub enum SpawnStep {
    /// Find the user's shell.
    DetectShell,
    /// Start the program on a terminal of its own.
    Start,
    /// Hand the terminal to a worker process.
    StartWorker,
    /// Open the terminal for reading and writing.
    OpenTerminal,
    /// The pane runs, its emulator in a worker or in the daemon.
    Done { isolated: bool },
    Failed,
}

/// The step with which starting a pane begins.
pub open spec fn spawn_begins(has_program: bool) -> SpawnStep {
    if has_program {
        SpawnStep::Start
    } else {
        SpawnStep::DetectShell
    }
}

/// The step after one that succeeded or failed. A worker that cannot be started leaves the pane
/// to the daemon.
pub open spec fn spawn_after(step: SpawnStep, ok: bool, isolation: SessionIsolationMode)
    -> SpawnStep {
    match step {
        SpawnStep::DetectShell => if ok {
            SpawnStep::Start
        } else {
            SpawnStep::Failed
        },
        SpawnStep::Start => if !ok {
            SpawnStep::Failed
        } else if isolation == SessionIsolationMode::Process {
            SpawnStep::StartWorker
        } else {
            SpawnStep::OpenTerminal
        },
        SpawnStep::StartWorker => if ok {
            SpawnStep::Done { isolated: true }
        } else {
            SpawnStep::OpenTerminal
        },
        SpawnStep::OpenTerminal => if ok {
            SpawnStep::Done { isolated: false }
        } else {
            SpawnStep::Failed
        },
        SpawnStep::Done { isolated: _ } => step,
        SpawnStep::Failed => step,
    }
}

/// The step with which starting a pane begins.
pub fn first_spawn_step(has_program: bool) -> (r: SpawnStep)
    ensures
        r == spawn_begins(has_program),
{
    if has_program {
        SpawnStep::Start
    } else {
        SpawnStep::DetectShell
    }
}

/// The step after one that succeeded or failed.
pub fn next_spawn_step(step: SpawnStep, ok: bool, isolation: SessionIsolationMode) -> (r: SpawnStep)
    ensures
        r == spawn_after(step, ok, isolation),
{
    match step {
        SpawnStep::DetectShell => if ok {
            SpawnStep::Start
        } else {
            SpawnStep::Failed
        },
        SpawnStep::Start => if !ok {
            SpawnStep::Failed
        } else if isolation.is_process() {
            SpawnStep::StartWorker
        } else {
            SpawnStep::OpenTerminal
        },
        SpawnStep::StartWorker => if ok {
            SpawnStep::Done { isolated: true }
        } else {
            SpawnStep::OpenTerminal
        },
        SpawnStep::OpenTerminal => if ok {
            SpawnStep::Done { isolated: false }
        } else {
            SpawnStep::Failed
        },
        SpawnStep::Done { isolated: _ } => step,
        SpawnStep::Failed => step,
    }
}

/// Isolation is never what keeps a pane from running: only the shell, the program and the
/// terminal can fail it, and without the setting no worker is ever started.
pub proof fn law_isolation_fails_no_pane(step: SpawnStep, ok: bool, isolation: SessionIsolationMode)
    ensures
        spawn_after(step, ok, isolation) is Failed ==> step is Failed || (!ok && (
        step is DetectShell || step is Start || step is OpenTerminal)),
        spawn_after(step, ok, isolation) is StartWorker ==> isolation
            == SessionIsolationMode::Process,
        spawn_after(step, ok, isolation) == (SpawnStep::Done { isolated: true }) ==> step
            == (SpawnStep::Done { isolated: true }) || (step is StartWorker && ok),
{
}

/// A program to start, with all it is started with.
#[derive(Debug)]
pub struct PtyConfig {
    pub program: String,
    pub args: Vec<String>,
    pub rows: u16,
    pub cols: u16,
    /// Variables set on top of the daemon's own.
    pub env: Vec<EnvVar>,
    pub cwd: Option<String>,
}

impl PtyConfig {
    /// What is started for a request: the program it names, or else the user's shell.
    pub fn new(spawn: &Spawn, shell: String, cwd: Option<String>, seed_caps: &ClientCapabilities) -> (r:
        PtyConfig)
        ensures
            r.program@ == match text_option(spawn.program) {
                Some(p) => p,
                None => shell@,
            },
            views(r.args@) == views(spawn.args@),
            r.rows == spawn.size.rows,
            r.cols == spawn.size.cols,
            is_spawn_env(r.env@),
            text_option(r.cwd) == text_option(cwd),
    {
        let program = match &spawn.program {
            Some(p) => p.clone(),
            None => shell,
        };
        PtyConfig {
            program,
            args: crate::text::copy_texts(&spawn.args),
            rows: spawn.size.rows,
            cols: spawn.size.cols,
            env: pane_spawn_env(seed_caps),
            cwd,
        }
    }
}

/// A pane whose program was just started.
pub open spec fn spawned_pane(
    word: Seq<char>,
    pane_index: u32,
    program: Seq<char>,
    args: Seq<Seq<char>>,
    size: crate::protocol::TermSize,
    seed: ClientCapabilities,
    isolated: bool,
) -> PaneView {
    PaneView { isolated, ..fresh_pane(word, pane_index, program, args, size, seed) }
}

impl PaneRelay {
    /// The pane of a program that was just started.
    pub fn spawned(
        word_id: &str,
        pane_index: u32,
        config: PtyConfig,
        spawn: &Spawn,
        seed_caps: &ClientCapabilities,
        isolated: bool,
    ) -> (r: PaneRelay)
        ensures
            r@ == spawned_pane(
                word_id@,
                pane_index,
                config.program@,
                views(config.args@),
                spawn.size,
                *seed_caps,
                isolated,
            ),
    {
        let mut pane = PaneRelay::new(
            word_id,
            pane_index,
            config.program,
            config.args,
            spawn.size,
            seed_caps,
        );
        pane.isolated = isolated;
        pane
    }
}

} // verus!
