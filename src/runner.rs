//! Shell invocation: which program and arguments run a command, with
//! which environment and working directory, and what a finished command
//! means for its run block. Spawning the process is the caller's part.

use vstd::prelude::*;

use crate::beam::RunBlock;
use crate::error::AuroraError;
use crate::strmap::StrMap;
use crate::text::copy_str;

verus! {

/// The shell that commands run in.
#[derive(Clone, Debug)]
pub enum Shell {
    /// A POSIX shell at the path, run as `<path> -c <command>`.
    Unix { path: String },
    /// Windows PowerShell.
    PowerShell,
    /// Windows `cmd.exe`.
    Cmd,
}

/// What a finished command gave.
#[derive(Clone, Debug)]
pub struct CommandResult {
    pub exit_code: i32,
    pub stdout: String,
    pub stderr: String,
}

/// Runs commands: a shell, a default working directory and default
/// environment variables.
#[derive(Clone, Debug)]
pub struct CommandRunner {
    shell: Shell,
    working_dir: String,
    env: StrMap,
}

/// The POSIX shells to try, in order of preference.
pub fn shell_candidates() -> (r: Vec<String>)
    ensures
        r@.len() == 4,
        r@[0]@ == "/bin/bash"@,
        r@[1]@ == "/bin/sh"@,
        r@[2]@ == "/usr/bin/bash"@,
        r@[3]@ == "/usr/bin/sh"@,
{
    let mut r: Vec<String> = Vec::new();
    r.push(copy_str("/bin/bash"));
    r.push(copy_str("/bin/sh"));
    r.push(copy_str("/usr/bin/bash"));
    r.push(copy_str("/usr/bin/sh"));
    r
}

/// The first candidate shell that exists (`exists[i]` tells of candidate
/// `i`), else `/bin/sh`.
pub fn pick_shell(candidates: &Vec<String>, exists: &Vec<bool>) -> (r: Shell)
    requires
        candidates@.len() == exists@.len(),
    ensures
        match r {
            Shell::Unix { path } => (exists|i: int| 0 <= i < exists@.len() && exists@[i] && path@ == candidates@[i]@
                && forall|j: int| 0 <= j < i ==> !exists@[j]) || ((forall|j: int|
                0 <= j < exists@.len() ==> !exists@[j]) && path@ == "/bin/sh"@),
            _ => false,
        },
{
    let mut i: usize = 0;
    while i < candidates.len()
        invariant
            candidates@.len() == exists@.len(),
            i <= exists@.len(),
            forall|j: int| 0 <= j < i ==> !exists@[j],
        decreases exists@.len() - i,
    {
        if exists[i] {
            return Shell::Unix { path: copy_str(candidates[i].as_str()) };
        }
        i = i + 1;
    }
    Shell::Unix { path: copy_str("/bin/sh") }
}

impl Shell {
    /// The program and arguments that run `command`.
    pub fn args(&self, command: &str) -> (r: (String, Vec<String>))
        ensures
            match self {
                Shell::Unix { path } => r.0@ == path@ && r.1@.len() == 2 && r.1@[0]@ == "-c"@ && r.1@[1]@
                    == command@,
                Shell::PowerShell => r.0@ == "powershell.exe"@ && r.1@.len() == 4 && r.1@[0]@
                    == "-NoProfile"@ && r.1@[1]@ == "-NonInteractive"@ && r.1@[2]@ == "-Command"@
                    && r.1@[3]@ == command@,
                Shell::Cmd => r.0@ == "cmd.exe"@ && r.1@.len() == 2 && r.1@[0]@ == "/C"@ && r.1@[1]@
                    == command@,
            },
    {
        match self {
            Shell::Unix { path } => {
                let mut a: Vec<String> = Vec::new();
                a.push(copy_str("-c"));
                a.push(copy_str(command));
                (copy_str(path.as_str()), a)
            },
            Shell::PowerShell => {
                let mut a: Vec<String> = Vec::new();
                a.push(copy_str("-NoProfile"));
                a.push(copy_str("-NonInteractive"));
                a.push(copy_str("-Command"));
                a.push(copy_str(command));
                (copy_str("powershell.exe"), a)
            },
            Shell::Cmd => {
                let mut a: Vec<String> = Vec::new();
                a.push(copy_str("/C"));
                a.push(copy_str(command));
                (copy_str("cmd.exe"), a)
            },
        }
    }
}

impl CommandRunner {
    pub closed spec fn wf(&self) -> bool {
        self.env.wf()
    }

    /// The default working directory.
    pub closed spec fn dir(&self) -> Seq<char> {
        self.working_dir@
    }

    /// The default environment.
    pub closed spec fn env_view(&self) -> Map<Seq<char>, Seq<char>> {
        self.env@
    }

    /// The shell.
    pub closed spec fn shell_of(&self) -> Shell {
        self.shell
    }

    /// A runner in `working_dir` with `/bin/sh` and no extra environment.
    pub fn new(working_dir: &str) -> (r: CommandRunner)
        ensures
            r.wf(),
            r.dir() == working_dir@,
            r.env_view() == Map::<Seq<char>, Seq<char>>::empty(),
            r.shell_of() matches Shell::Unix { path } && path@ == "/bin/sh"@,
    {
        CommandRunner {
            shell: Shell::Unix { path: copy_str("/bin/sh") },
            working_dir: copy_str(working_dir),
            env: StrMap::new(),
        }
    }

    /// Sets the shell.
    pub fn with_shell(self, shell: Shell) -> (r: CommandRunner)
        requires
            self.wf(),
        ensures
            r.wf(),
            r.shell_of() == shell,
            r.dir() == self.dir(),
            r.env_view() == self.env_view(),
    {
        CommandRunner { shell, ..self }
    }

    /// Sets the shell to the first of the candidate shells that exists
    /// (`exists[i]` tells of `shell_candidates()[i]`), else `/bin/sh`.
    pub fn with_detected_shell(self, exists: &Vec<bool>) -> (r: CommandRunner)
        requires
            self.wf(),
            exists@.len() == 4,
        ensures
            r.wf(),
            r.dir() == self.dir(),
            r.env_view() == self.env_view(),
            r.shell_of() matches Shell::Unix { path } && (
                (exists@[0] && path@ == "/bin/bash"@)
                || (!exists@[0] && exists@[1] && path@ == "/bin/sh"@)
                || (!exists@[0] && !exists@[1] && exists@[2] && path@ == "/usr/bin/bash"@)
                || (!exists@[0] && !exists@[1] && !exists@[2] && exists@[3] && path@ == "/usr/bin/sh"@)
                || (!exists@[0] && !exists@[1] && !exists@[2] && !exists@[3] && path@ == "/bin/sh"@)),
    {
        let candidates = shell_candidates();
        let shell = pick_shell(&candidates, exists);
        proof {
            match &shell {
                Shell::Unix { path } => {
                    if exists@[0] {
                        if !(path@ == candidates@[0]@) {
                            let i = choose|i: int| 0 <= i < exists@.len() && exists@[i] && path@ == candidates@[i]@
                                && forall|j: int| 0 <= j < i ==> !exists@[j];
                            assert(i == 0);
                        }
                    }
                },
                _ => {},
            }
        }
        CommandRunner { shell, ..self }
    }

    /// Sets a POSIX shell by its path.
    pub fn with_shell_path(self, path: &str) -> (r: CommandRunner)
        requires
            self.wf(),
        ensures
            r.wf(),
            r.shell_of() matches Shell::Unix { path: p } && p@ == path@,
            r.dir() == self.dir(),
            r.env_view() == self.env_view(),
    {
        CommandRunner { shell: Shell::Unix { path: copy_str(path) }, ..self }
    }

    /// Adds environment variables, replacing those of the same name.
    pub fn with_env(self, env: &StrMap) -> (r: CommandRunner)
        requires
            self.wf(),
            env.wf(),
        ensures
            r.wf(),
            r.env_view() == self.env_view().union_prefer_right(env@),
            r.dir() == self.dir(),
            r.shell_of() == self.shell_of(),
    {
        let CommandRunner { shell, working_dir, env: mine } = self;
        CommandRunner { shell, working_dir, env: mine.merged(env) }
    }

    /// The program and arguments that run `command`.
    pub fn shell_args(&self, command: &str) -> (r: (String, Vec<String>))
        ensures
            match self.shell_of() {
                Shell::Unix { path } => r.0@ == path@ && r.1@.len() == 2 && r.1@[0]@ == "-c"@ && r.1@[1]@
                    == command@,
                Shell::PowerShell => r.0@ == "powershell.exe"@ && r.1@.len() == 4 && r.1@[3]@ == command@,
                Shell::Cmd => r.0@ == "cmd.exe"@ && r.1@.len() == 2 && r.1@[0]@ == "/C"@ && r.1@[1]@
                    == command@,
            },
    {
        self.shell.args(command)
    }

    /// The environment of a run block's commands: the runner's, with `extra`
    /// on top.
    pub fn merged_env(&self, extra: &StrMap) -> (r: StrMap)
        requires
            self.wf(),
            extra.wf(),
        ensures
            r.wf(),
            r@ == self.env_view().union_prefer_right(extra@),
    {
        self.env.clone_map().merged(extra)
    }

    /// The working directory of a run block: its own, else the runner's.
    pub fn block_dir(&self, run: &RunBlock) -> (r: String)
        ensures
            r@ == match run.working_dir {
                Some(d) => d@,
                None => self.dir(),
            },
    {
        match &run.working_dir {
            Some(d) => copy_str(d.as_str()),
            None => copy_str(self.working_dir.as_str()),
        }
    }
}

/// What a finished command means for its run block: an error where it
/// exited non-zero in a block that fails fast, else nothing.
pub fn command_verdict(run: &RunBlock, command: &str, result: &CommandResult) -> (r: Result<(), AuroraError>)
    ensures
        match r {
            Ok(()) => !(result.exit_code != 0 && run.fail_fast),
            Err(e) => result.exit_code != 0 && run.fail_fast && (e matches AuroraError::CommandFailed {
                command: c,
                exit_code: Some(code),
                stderr: Some(err),
            } && c@ == command@ && code == result.exit_code && err@ == result.stderr@),
        },
{
    if result.exit_code != 0 && run.fail_fast {
        Err(AuroraError::CommandFailed {
            command: copy_str(command),
            exit_code: Some(result.exit_code),
            stderr: Some(copy_str(result.stderr.as_str())),
        })
    } else {
        Ok(())
    }
}

/// The error for a command that could not be started.
pub fn spawn_failure(command: &str, cause: &str) -> (r: AuroraError)
    ensures
        r matches AuroraError::CommandFailed { command: c, exit_code: None, stderr: Some(s) } && c@ == command@
            && s@ == cause@,
{
    AuroraError::CommandFailed { command: copy_str(command), exit_code: None, stderr: Some(copy_str(cause)) }
}

} // verus!
