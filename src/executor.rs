//! The executor's decisions. Running shell commands, waiting and the
//! bounded parallelism are the caller's part; the library decides what a
//! beam needs, what it ran to, what to report and when to stop.

use vstd::prelude::*;

use crate::beam::{Beam, RunBlock, Command};
use crate::condition::Condition;
use crate::hook::Hook;
use crate::text::copy_str;

verus! {

/// Why a beam was skipped.
#[derive(Clone, Copy, Debug, PartialEq, Eq)]
pub enum SkipReason {
    /// The cache holds it as up to date.
    Cached,
    /// Its condition does not hold.
    ConditionFalse,
}

/// Progress of an execution.
#[derive(Clone, Debug)]
pub enum BeamEvent {
    Started { name: String },
    Skipped { name: String, reason: SkipReason },
    Completed { name: String, duration_ms: u64 },
    Failed { name: String, error: String },
    Output { name: String, line: String, is_stderr: bool },
}

/// What an execution did.
#[derive(Clone, Debug)]
pub struct ExecutionReport {
    /// Beams that ran (or would have run, in a dry run).
    pub executed: Vec<String>,
    /// Beams that were skipped.
    pub skipped: Vec<String>,
    /// Beams that failed, with the error.
    pub failed: Vec<(String, String)>,
    /// Wall-clock time of the execution, in milliseconds.
    pub duration_ms: u64,
}

/// How a beam ended.
#[derive(Clone, Debug)]
pub enum BeamOutcome {
    Executed,
    Skipped(SkipReason),
    Failed(String),
}

/// Why a beam is skipped, if it is: cached beams are skipped before their
/// condition is looked at.
pub open spec fn spec_skip_reason(use_cache: bool, up_to_date: bool, condition_holds: Option<bool>) -> Option<SkipReason> {
    if use_cache && up_to_date {
        Some(SkipReason::Cached)
    } else if condition_holds == Some(false) {
        Some(SkipReason::ConditionFalse)
    } else {
        None
    }
}

/// Decides whether a beam is skipped. `up_to_date` is what the cache says
/// (looked at only with the cache in use); `condition_holds` is the value
/// of the beam's condition, `None` where it has none.
pub fn skip_reason(use_cache: bool, up_to_date: bool, condition_holds: Option<bool>) -> (r: Option<SkipReason>)
    ensures
        r == spec_skip_reason(use_cache, up_to_date, condition_holds),
{
    if use_cache && up_to_date {
        Some(SkipReason::Cached)
    } else if condition_holds == Some(false) {
        Some(SkipReason::ConditionFalse)
    } else {
        None
    }
}

/// Whether the beam's commands run: it is not skipped and this is no dry run.
pub open spec fn spec_runs_commands(skip: Option<SkipReason>, dry_run: bool) -> bool {
    skip is None && !dry_run
}

/// The outcome of a beam that was not skipped, from the result of its
/// commands (`None` where they all succeeded, or did not run in a dry run).
pub open spec fn spec_outcome(skip: Option<SkipReason>, dry_run: bool, error: Option<Seq<char>>) -> BeamOutcomeModel {
    match skip {
        Some(r) => BeamOutcomeModel::Skipped(r),
        None => if dry_run {
            BeamOutcomeModel::Executed
        } else {
            match error {
                Some(e) => BeamOutcomeModel::Failed(e),
                None => BeamOutcomeModel::Executed,
            }
        },
    }
}

/// How a beam ended, over character sequences.
pub enum BeamOutcomeModel {
    Executed,
    Skipped(SkipReason),
    Failed(Seq<char>),
}

impl BeamOutcome {
    pub open spec fn model(&self) -> BeamOutcomeModel {
        match self {
            BeamOutcome::Executed => BeamOutcomeModel::Executed,
            BeamOutcome::Skipped(r) => BeamOutcomeModel::Skipped(*r),
            BeamOutcome::Failed(e) => BeamOutcomeModel::Failed(e@),
        }
    }
}

/// Whether a beam's commands run.
pub fn runs_commands(skip: Option<SkipReason>, dry_run: bool) -> (r: bool)
    ensures
        r == spec_runs_commands(skip, dry_run),
{
    skip.is_none() && !dry_run
}

/// The outcome of a beam.
pub fn beam_outcome(skip: Option<SkipReason>, dry_run: bool, error: Option<String>) -> (r: BeamOutcome)
    ensures
        r.model() == spec_outcome(skip, dry_run, match error {
            Some(e) => Some(e@),
            None => None,
        }),
{
    match skip {
        Some(reason) => BeamOutcome::Skipped(reason),
        None => if dry_run {
            BeamOutcome::Executed
        } else {
            match error {
                Some(e) => BeamOutcome::Failed(e),
                None => BeamOutcome::Executed,
            }
        },
    }
}

/// Whether the cache records a beam after it ended: with the cache in use,
/// after its commands ran and succeeded.
pub fn records_in_cache(use_cache: bool, skip: Option<SkipReason>, dry_run: bool, error: &Option<String>) -> (r: bool)
    ensures
        r == (use_cache && spec_runs_commands(skip, dry_run) && error is None),
{
    use_cache && skip.is_none() && !dry_run && error.is_none()
}

/// The run block that a hook runs as: its commands, shell and working
/// directory, stopping at the first failure where it fails on error.
pub fn hook_run_block(hook: &Hook) -> (r: RunBlock)
    ensures
        crate::beam::command_lines(r.commands@) == hook.commands@.map_values(|s: String| s@),
        r.shell == hook.shell,
        r.working_dir == hook.working_dir,
        r.fail_fast == hook.fail_on_error,
{
    let mut commands: Vec<Command> = Vec::new();
    let mut i: usize = 0;
    while i < hook.commands.len()
        invariant
            i <= hook.commands@.len(),
            commands@.len() == i,
            forall|j: int| 0 <= j < i ==> (#[trigger] commands@[j]).command@ == hook.commands@[j]@,
        decreases hook.commands@.len() - i,
    {
        commands.push(Command::new(hook.commands[i].as_str()));
        i = i + 1;
    }
    assert(crate::beam::command_lines(commands@) =~= hook.commands@.map_values(|s: String| s@));
    RunBlock { commands, shell: hook.shell.clone(), working_dir: hook.working_dir.clone(), fail_fast: hook.fail_on_error }
}

/// Whether run block `r` runs hook `h`: its commands, shell and working
/// directory, stopping at the first failure where the hook fails on error.
pub open spec fn hook_block(r: RunBlock, h: Hook) -> bool {
    &&& crate::beam::command_lines(r.commands@) == h.commands@.map_values(|s: String| s@)
    &&& r.shell == h.shell
    &&& r.working_dir == h.working_dir
    &&& r.fail_fast == h.fail_on_error
}

/// Whether two run blocks run the same command lines the same way.
pub open spec fn same_block(a: RunBlock, b: RunBlock) -> bool {
    &&& crate::beam::command_lines(a.commands@) == crate::beam::command_lines(b.commands@)
    &&& a.shell == b.shell
    &&& a.working_dir == b.working_dir
    &&& a.fail_fast == b.fail_fast
}

/// The run blocks of a beam, in the order they run: its pre-hooks, its
/// main run block, its post-hooks.
pub fn beam_run_blocks(beam: &Beam) -> (r: Vec<RunBlock>)
    ensures
        r@.len() == beam.pre_hooks@.len() + (if beam.run is Some { 1int } else { 0int }) + beam.post_hooks@.len(),
        forall|i: int| 0 <= i < beam.pre_hooks@.len() ==> hook_block(#[trigger] r@[i], beam.pre_hooks@[i]),
        beam.run matches Some(run) ==> same_block(r@[beam.pre_hooks@.len() as int], run),
        forall|i: int| 0 <= i < beam.post_hooks@.len() ==> hook_block(r@[r@.len() - beam.post_hooks@.len() + i], #[trigger] beam.post_hooks@[i]),
{
    let mut r: Vec<RunBlock> = Vec::new();
    let mut i: usize = 0;
    while i < beam.pre_hooks.len()
        invariant
            i <= beam.pre_hooks@.len(),
            r@.len() == i,
            forall|j: int| 0 <= j < i ==> hook_block(#[trigger] r@[j], beam.pre_hooks@[j]),
        decreases beam.pre_hooks@.len() - i,
    {
        r.push(hook_run_block(&beam.pre_hooks[i]));
        i = i + 1;
    }
    match &beam.run {
        Some(run) => {
            r.push(copy_run_block(run));
        },
        None => {},
    }
    let base = r.len();
    let mut j: usize = 0;
    while j < beam.post_hooks.len()
        invariant
            j <= beam.post_hooks@.len(),
            base == beam.pre_hooks@.len() + (if beam.run is Some { 1int } else { 0int }),
            r@.len() == base + j,
            forall|k: int| 0 <= k < beam.pre_hooks@.len() ==> hook_block(#[trigger] r@[k], beam.pre_hooks@[k]),
            beam.run matches Some(run) ==> same_block(r@[beam.pre_hooks@.len() as int], run),
            forall|k: int| 0 <= k < j ==> hook_block(#[trigger] r@[base + k], beam.post_hooks@[k]),
        decreases beam.post_hooks@.len() - j,
    {
        r.push(hook_run_block(&beam.post_hooks[j]));
        j = j + 1;
    }
    proof {
        assert forall|i: int| 0 <= i < beam.post_hooks@.len() implies hook_block(r@[r@.len() - beam.post_hooks@.len() + i], #[trigger] beam.post_hooks@[i]) by {
            assert(r@.len() - beam.post_hooks@.len() + i == base + i);
            assert(hook_block(r@[base + i], beam.post_hooks@[i]));
        }
    }
    r
}

/// A copy of a run block.
fn copy_run_block(run: &RunBlock) -> (r: RunBlock)
    ensures
        crate::beam::command_lines(r.commands@) == crate::beam::command_lines(run.commands@),
        r.shell == run.shell,
        r.working_dir == run.working_dir,
        r.fail_fast == run.fail_fast,
{
    let mut commands: Vec<Command> = Vec::new();
    let mut i: usize = 0;
    while i < run.commands.len()
        invariant
            i <= run.commands@.len(),
            commands@.len() == i,
            forall|j: int| 0 <= j < i ==> (#[trigger] commands@[j]).command@ == run.commands@[j].command@,
        decreases run.commands@.len() - i,
    {
        let c = &run.commands[i];
        commands.push(Command { command: copy_str(c.command.as_str()), description: c.description.clone() });
        i = i + 1;
    }
    assert(crate::beam::command_lines(commands@) =~= crate::beam::command_lines(run.commands@));
    RunBlock { commands, shell: run.shell.clone(), working_dir: run.working_dir.clone(), fail_fast: run.fail_fast }
}

/// The names of a report's failures.
pub open spec fn failed_names(failed: Seq<(String, String)>) -> Seq<Seq<char>> {
    failed.map_values(|p: (String, String)| p.0@)
}

/// The names in a list.
pub open spec fn names_view(v: Seq<String>) -> Seq<Seq<char>> {
    v.map_values(|s: String| s@)
}

impl ExecutionReport {
    /// An empty report.
    pub fn new() -> (r: ExecutionReport)
        ensures
            r.executed@.len() == 0,
            r.skipped@.len() == 0,
            r.failed@.len() == 0,
            r.duration_ms == 0,
    {
        ExecutionReport { executed: Vec::new(), skipped: Vec::new(), failed: Vec::new(), duration_ms: 0 }
    }

    /// Whether a later level may start: no beam has failed.
    pub fn may_continue(&self) -> (r: bool)
        ensures
            r == (self.failed@.len() == 0),
    {
        self.failed.len() == 0
    }

    /// Records how the beam `name` ended, and gives the event that tells of it.
    pub fn record(&mut self, name: &str, outcome: BeamOutcome, duration_ms: u64) -> (event: BeamEvent)
        ensures
            match outcome {
                BeamOutcome::Executed => names_view(final(self).executed@) == names_view(old(self).executed@).push(name@)
                    && final(self).skipped == old(self).skipped && final(self).failed == old(self).failed
                    && (event matches BeamEvent::Completed { name: n, duration_ms: d } && n@ == name@ && d == duration_ms),
                BeamOutcome::Skipped(reason) => names_view(final(self).skipped@) == names_view(old(self).skipped@).push(name@)
                    && final(self).executed == old(self).executed && final(self).failed == old(self).failed
                    && (event matches BeamEvent::Skipped { name: n, reason: r } && n@ == name@ && r == reason),
                BeamOutcome::Failed(e) => failed_names(final(self).failed@) == failed_names(old(self).failed@).push(name@)
                    && final(self).failed@.last().1@ == e@
                    && final(self).executed == old(self).executed && final(self).skipped == old(self).skipped
                    && (event matches BeamEvent::Failed { name: n, error: m } && n@ == name@ && m@ == e@),
            },
            final(self).duration_ms == old(self).duration_ms,
    {
        match outcome {
            BeamOutcome::Executed => {
                let ghost old_names = names_view(self.executed@);
                self.executed.push(copy_str(name));
                assert(names_view(self.executed@) =~= old_names.push(name@));
                BeamEvent::Completed { name: copy_str(name), duration_ms }
            },
            BeamOutcome::Skipped(reason) => {
                let ghost old_names = names_view(self.skipped@);
                self.skipped.push(copy_str(name));
                assert(names_view(self.skipped@) =~= old_names.push(name@));
                BeamEvent::Skipped { name: copy_str(name), reason }
            },
            BeamOutcome::Failed(e) => {
                let ghost old_names = failed_names(self.failed@);
                let m = copy_str(e.as_str());
                self.failed.push((copy_str(name), e));
                assert(failed_names(self.failed@) =~= old_names.push(name@));
                BeamEvent::Failed { name: copy_str(name), error: m }
            },
        }
    }
}

/// The event that a beam started.
pub fn started_event(name: &str) -> (r: BeamEvent)
    ensures
        r matches BeamEvent::Started { name: n } && n@ == name@,
{
    BeamEvent::Started { name: copy_str(name) }
}

/// In a dry run, a beam that neither the cache nor its condition skips
/// counts as executed, and none of its commands run.
pub proof fn lemma_dry_run_executes_without_commands(use_cache: bool, up_to_date: bool, condition_holds: Option<bool>, error: Option<Seq<char>>)
    requires
        !(use_cache && up_to_date),
        condition_holds != Some(false),
    ensures
        !spec_runs_commands(spec_skip_reason(use_cache, up_to_date, condition_holds), true),
        spec_outcome(spec_skip_reason(use_cache, up_to_date, condition_holds), true, error) == BeamOutcomeModel::Executed,
{
}

/// With the cache in use, a beam that the cache holds as up to date is
/// skipped as cached, whatever its condition, and none of its commands run.
pub proof fn lemma_cached_beam_is_skipped(up_to_date: bool, condition_holds: Option<bool>, dry_run: bool, error: Option<Seq<char>>)
    requires
        up_to_date,
    ensures
        !spec_runs_commands(spec_skip_reason(true, up_to_date, condition_holds), dry_run),
        spec_outcome(spec_skip_reason(true, up_to_date, condition_holds), dry_run, error) == BeamOutcomeModel::Skipped(SkipReason::Cached),
{
}

} // verus!
