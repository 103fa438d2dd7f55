//! Pre- and post-hooks of a beam.

use vstd::prelude::*;

use crate::text::copy_str;

verus! {

/// Commands that run before or after a beam's main commands.
#[derive(Clone, Debug)]
pub struct Hook {
    /// Commands to run, in order.
    pub commands: Vec<String>,
    /// Shell to run them with, overriding the default.
    pub shell: Option<String>,
    /// Working directory to run them in.
    pub working_dir: Option<String>,
    /// Whether a failing command fails the beam.
    pub fail_on_error: bool,
}

impl Hook {
    /// A hook with the given commands, no overrides, failing on error.
    pub fn new(commands: Vec<String>) -> (r: Hook)
        ensures
            r.commands == commands,
            r.shell is None,
            r.working_dir is None,
            r.fail_on_error,
    {
        Hook { commands, shell: None, working_dir: None, fail_on_error: true }
    }

    /// A hook with no commands, failing on error.
    pub fn empty() -> (r: Hook)
        ensures
            r.commands@.len() == 0,
            r.shell is None,
            r.working_dir is None,
            r.fail_on_error,
    {
        Hook::new(Vec::new())
    }

    /// Sets the shell.
    pub fn with_shell(self, shell: &str) -> (r: Hook)
        ensures
            r.shell matches Some(s) && s@ == shell@,
            r.commands == self.commands,
            r.working_dir == self.working_dir,
            r.fail_on_error == self.fail_on_error,
    {
        Hook { shell: Some(copy_str(shell)), ..self }
    }

    /// Sets the working directory.
    pub fn with_working_dir(self, dir: &str) -> (r: Hook)
        ensures
            r.working_dir matches Some(s) && s@ == dir@,
            r.commands == self.commands,
            r.shell == self.shell,
            r.fail_on_error == self.fail_on_error,
    {
        Hook { working_dir: Some(copy_str(dir)), ..self }
    }

    /// Sets whether a failing command fails the beam.
    pub fn fail_on_error(self, fail: bool) -> (r: Hook)
        ensures
            r.fail_on_error == fail,
            r.commands == self.commands,
            r.shell == self.shell,
            r.working_dir == self.working_dir,
    {
        Hook { fail_on_error: fail, ..self }
    }
}

impl Default for Hook {
    fn default() -> (r: Hook)
        ensures
            r.commands@.len() == 0,
            r.shell is None,
            r.working_dir is None,
            r.fail_on_error,
    {
        Hook::empty()
    }
}

} // verus!
