//! Beams: the targets of a Beamfile.

use vstd::prelude::*;

use crate::condition::Condition;
use crate::hook::Hook;
use crate::strmap::StrMap;
use crate::text::copy_str;

verus! {

/// A build target: a named task with dependencies, commands, an optional
/// condition, hooks, inputs and outputs.
#[derive(Clone, Debug)]
pub struct Beam {
    /// Its name.
    pub name: String,
    /// What it does.
    pub description: Option<String>,
    /// Names of the beams that must run first.
    pub depends_on: Vec<String>,
    /// Condition that must hold for it to run.
    pub condition: Option<Condition>,
    /// Environment variables for its commands.
    pub env: StrMap,
    /// Hooks that run before its commands.
    pub pre_hooks: Vec<Hook>,
    /// Its main commands.
    pub run: Option<RunBlock>,
    /// Hooks that run after its commands.
    pub post_hooks: Vec<Hook>,
    /// Input paths, which the cache fingerprints.
    pub inputs: Vec<String>,
    /// Output paths, which the cache fingerprints.
    pub outputs: Vec<String>,
}

/// The main commands of a beam.
#[derive(Clone, Debug)]
pub struct RunBlock {
    /// Commands to run, in order.
    pub commands: Vec<Command>,
    /// Shell to run them with.
    pub shell: Option<String>,
    /// Working directory to run them in.
    pub working_dir: Option<String>,
    /// Whether the first failing command stops the block.
    pub fail_fast: bool,
}

/// One shell command.
#[derive(Clone, Debug)]
pub struct Command {
    /// The command line.
    pub command: String,
    /// What it does.
    pub description: Option<String>,
}

/// The command lines of a list of commands.
pub open spec fn command_lines(cs: Seq<Command>) -> Seq<Seq<char>> {
    cs.map_values(|c: Command| c.command@)
}

impl Beam {
    /// The command lines of the main run block; empty where there is none.
    pub open spec fn run_lines(&self) -> Seq<Seq<char>> {
        match self.run {
            Some(r) => command_lines(r.commands@),
            None => Seq::empty(),
        }
    }

    /// Whether the beam's maps are well formed.
    pub open spec fn wf(&self) -> bool {
        self.env.wf()
    }

    /// A beam with the given name and nothing else.
    pub fn new(name: &str) -> (r: Beam)
        ensures
            r.wf(),
            r.name@ == name@,
            r.description is None,
            r.depends_on@.len() == 0,
            r.condition is None,
            r.env@ == Map::<Seq<char>, Seq<char>>::empty(),
            r.pre_hooks@.len() == 0,
            r.run is None,
            r.post_hooks@.len() == 0,
            r.inputs@.len() == 0,
            r.outputs@.len() == 0,
    {
        Beam {
            name: copy_str(name),
            description: None,
            depends_on: Vec::new(),
            condition: None,
            env: StrMap::new(),
            pre_hooks: Vec::new(),
            run: None,
            post_hooks: Vec::new(),
            inputs: Vec::new(),
            outputs: Vec::new(),
        }
    }

    /// Sets the description.
    pub fn with_description(self, description: &str) -> (r: Beam)
        ensures
            r.description matches Some(d) && d@ == description@,
            r == (Beam { description: r.description, ..self }),
    {
        Beam { description: Some(copy_str(description)), ..self }
    }

    /// Sets the dependencies.
    pub fn with_depends_on(self, deps: Vec<String>) -> (r: Beam)
        ensures
            r == (Beam { depends_on: deps, ..self }),
    {
        Beam { depends_on: deps, ..self }
    }

    /// Sets the condition.
    pub fn with_condition(self, condition: Condition) -> (r: Beam)
        ensures
            r == (Beam { condition: Some(condition), ..self }),
    {
        Beam { condition: Some(condition), ..self }
    }

    /// Sets the environment.
    pub fn with_env(self, env: StrMap) -> (r: Beam)
        ensures
            r == (Beam { env: env, ..self }),
    {
        Beam { env, ..self }
    }

    /// Sets the main run block.
    pub fn with_run(self, run: RunBlock) -> (r: Beam)
        ensures
            r == (Beam { run: Some(run), ..self }),
    {
        Beam { run: Some(run), ..self }
    }

    /// Sets the pre-hooks.
    pub fn with_pre_hooks(self, hooks: Vec<Hook>) -> (r: Beam)
        ensures
            r == (Beam { pre_hooks: hooks, ..self }),
    {
        Beam { pre_hooks: hooks, ..self }
    }

    /// Sets the post-hooks.
    pub fn with_post_hooks(self, hooks: Vec<Hook>) -> (r: Beam)
        ensures
            r == (Beam { post_hooks: hooks, ..self }),
    {
        Beam { post_hooks: hooks, ..self }
    }

    /// Sets the input paths.
    pub fn with_inputs(self, inputs: Vec<String>) -> (r: Beam)
        ensures
            r == (Beam { inputs: inputs, ..self }),
    {
        Beam { inputs, ..self }
    }

    /// Sets the output paths.
    pub fn with_outputs(self, outputs: Vec<String>) -> (r: Beam)
        ensures
            r == (Beam { outputs: outputs, ..self }),
    {
        Beam { outputs, ..self }
    }
}

impl RunBlock {
    /// A run block with the given commands, failing fast.
    pub fn new(commands: Vec<Command>) -> (r: RunBlock)
        ensures
            r.commands == commands,
            r.shell is None,
            r.working_dir is None,
            r.fail_fast,
    {
        RunBlock { commands, shell: None, working_dir: None, fail_fast: true }
    }

    /// A run block of the given command lines, with no descriptions.
    pub fn from_strings(commands: Vec<String>) -> (r: RunBlock)
        ensures
            command_lines(r.commands@) == commands@.map_values(|s: String| s@),
            forall|i: int| 0 <= i < r.commands@.len() ==> (#[trigger] r.commands@[i]).description is None,
            r.shell is None,
            r.working_dir is None,
            r.fail_fast,
    {
        let mut cs: Vec<Command> = Vec::new();
        let mut i: usize = 0;
        while i < commands.len()
            invariant
                i <= commands@.len(),
                cs@.len() == i,
                forall|j: int| 0 <= j < i ==> (#[trigger] cs@[j]).command@ == commands@[j]@
                    && cs@[j].description is None,
            decreases commands@.len() - i,
        {
            cs.push(Command::new(commands[i].as_str()));
            i = i + 1;
        }
        let r = RunBlock::new(cs);
        assert(command_lines(r.commands@) =~= commands@.map_values(|s: String| s@));
        r
    }

    /// Sets the shell.
    pub fn with_shell(self, shell: &str) -> (r: RunBlock)
        ensures
            r.shell matches Some(s) && s@ == shell@,
            r == (RunBlock { shell: r.shell, ..self }),
    {
        RunBlock { shell: Some(copy_str(shell)), ..self }
    }

    /// Sets the working directory.
    pub fn with_working_dir(self, dir: &str) -> (r: RunBlock)
        ensures
            r.working_dir matches Some(s) && s@ == dir@,
            r == (RunBlock { working_dir: r.working_dir, ..self }),
    {
        RunBlock { working_dir: Some(copy_str(dir)), ..self }
    }

    /// Sets whether the first failing command stops the block.
    pub fn with_fail_fast(self, fail_fast: bool) -> (r: RunBlock)
        ensures
            r == (RunBlock { fail_fast: fail_fast, ..self }),
    {
        RunBlock { fail_fast, ..self }
    }
}

impl Command {
    /// A command with no description.
    pub fn new(command: &str) -> (r: Command)
        ensures
            r.command@ == command@,
            r.description is None,
    {
        Command { command: copy_str(command), description: None }
    }

    /// Sets the description.
    pub fn with_description(self, description: &str) -> (r: Command)
        ensures
            r.description matches Some(d) && d@ == description@,
            r.command == self.command,
    {
        Command { description: Some(copy_str(description)), ..self }
    }
}

} // verus!
