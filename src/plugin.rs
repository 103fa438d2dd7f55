//! The state that the plugin host exposes to plugins, and plugin manifests.

use vstd::prelude::*;

use crate::strmap::StrMap;
use crate::text::copy_str;

verus! {

/// A message that a plugin logged.
#[derive(Clone, Debug)]
pub struct LogEntry {
    /// 0 trace, 1 debug, 2 info, 3 warn, 4 (or more) error.
    pub level: i32,
    pub message: String,
}

/// Variables, a snapshot of the environment and log messages shared
/// with a plugin.
#[derive(Clone, Debug)]
pub struct PluginState {
    variables: StrMap,
    env: StrMap,
    logs: Vec<LogEntry>,
}

/// The errors of the plugin host.
#[derive(Clone, Debug)]
pub enum PluginError {
    LoadError { path: String, reason: String },
    NotFound(String),
    InvalidFormat(String),
    InitError(String),
    ExecutionError(String),
    FunctionNotFound(String),
    PluginError(String),
    ManifestError(String),
    WasmError(String),
    Io(String),
}

/// The level tag of a log line.
pub open spec fn level_prefix(level: i32) -> Seq<char> {
    if level == 0 {
        "[TRACE]"@
    } else if level == 1 {
        "[DEBUG]"@
    } else if level == 2 {
        "[INFO]"@
    } else if level == 3 {
        "[WARN]"@
    } else {
        "[ERROR]"@
    }
}

/// The line that shows a plugin's log message.
pub fn log_line(level: i32, message: &str) -> (r: String)
    ensures
        r@ == level_prefix(level) + " [plugin] "@ + message@,
{
    let prefix = if level == 0 {
        "[TRACE]"
    } else if level == 1 {
        "[DEBUG]"
    } else if level == 2 {
        "[INFO]"
    } else if level == 3 {
        "[WARN]"
    } else {
        "[ERROR]"
    };
    String::from_str(prefix).concat(" [plugin] ").concat(message)
}

impl PluginState {
    pub closed spec fn wf(&self) -> bool {
        self.variables.wf() && self.env.wf()
    }

    /// The environment snapshot.
    pub closed spec fn env_view(&self) -> Map<Seq<char>, Seq<char>> {
        self.env@
    }

    /// The variables.
    pub closed spec fn vars(&self) -> Map<Seq<char>, Seq<char>> {
        self.variables@
    }

    /// The log, oldest first, as (level, message) pairs.
    pub closed spec fn log_view(&self) -> Seq<(i32, Seq<char>)> {
        self.logs@.map_values(|e: LogEntry| (e.level, e.message@))
    }

    /// A state with no variable and an empty log.
    pub fn new() -> (r: PluginState)
        ensures
            r.wf(),
            r.vars() == Map::<Seq<char>, Seq<char>>::empty(),
            r.log_view() == Seq::<(i32, Seq<char>)>::empty(),
    {
        let r = PluginState { variables: StrMap::new(), env: StrMap::new(), logs: Vec::new() };
        assert(r.log_view() =~= Seq::<(i32, Seq<char>)>::empty());
        r
    }

    /// A state with the given variables and an empty log.
    pub fn with_variables(variables: StrMap) -> (r: PluginState)
        requires
            variables.wf(),
        ensures
            r.wf(),
            r.vars() == variables@,
            r.log_view() == Seq::<(i32, Seq<char>)>::empty(),
    {
        let r = PluginState { variables, env: StrMap::new(), logs: Vec::new() };
        assert(r.log_view() =~= Seq::<(i32, Seq<char>)>::empty());
        r
    }

    /// Takes `env` as the snapshot of the process environment.
    pub fn with_environment(self, env: StrMap) -> (r: PluginState)
        requires
            self.wf(),
            env.wf(),
        ensures
            r.wf(),
            r.env_view() == env@,
            r.vars() == self.vars(),
            r.log_view() == self.log_view(),
    {
        PluginState { env, ..self }
    }

    /// The value of an environment variable in the snapshot.
    pub fn get_env(&self, name: &str) -> (r: Option<String>)
        requires
            self.wf(),
        ensures
            match r {
                Some(v) => self.env_view().contains_key(name@) && self.env_view()[name@] == v@,
                None => !self.env_view().contains_key(name@),
            },
    {
        match self.env.get(name) {
            Some(v) => Some(v.clone()),
            None => None,
        }
    }

    /// The value of a variable.
    pub fn get_var(&self, name: &str) -> (r: Option<String>)
        requires
            self.wf(),
        ensures
            match r {
                Some(v) => self.vars().contains_key(name@) && self.vars()[name@] == v@,
                None => !self.vars().contains_key(name@),
            },
    {
        match self.variables.get(name) {
            Some(v) => Some(v.clone()),
            None => None,
        }
    }

    /// Sets a variable.
    pub fn set_var(&mut self, name: &str, value: &str)
        requires
            old(self).wf(),
        ensures
            final(self).wf(),
            final(self).vars() == old(self).vars().insert(name@, value@),
            final(self).log_view() == old(self).log_view(),
    {
        self.variables.insert(copy_str(name), copy_str(value));
    }

    /// Appends a message to the log.
    pub fn log(&mut self, level: i32, message: &str)
        ensures
            final(self).wf() == old(self).wf(),
            final(self).vars() == old(self).vars(),
            final(self).log_view() == old(self).log_view().push((level, message@)),
    {
        let ghost before = self.log_view();
        self.logs.push(LogEntry { level, message: copy_str(message) });
        assert(self.log_view() =~= before.push((level, message@)));
    }

    /// The log, oldest first.
    pub fn get_logs(&self) -> (r: Vec<LogEntry>)
        ensures
            r@.map_values(|e: LogEntry| (e.level, e.message@)) == self.log_view(),
    {
        let mut r: Vec<LogEntry> = Vec::new();
        let mut i: usize = 0;
        while i < self.logs.len()
            invariant
                i <= self.logs@.len(),
                r@.len() == i,
                forall|j: int| 0 <= j < i ==> (#[trigger] r@[j]).level == self.logs@[j].level && r@[j].message@
                    == self.logs@[j].message@,
            decreases self.logs@.len() - i,
        {
            let e = &self.logs[i];
            r.push(LogEntry { level: e.level, message: copy_str(e.message.as_str()) });
            i = i + 1;
        }
        assert(r@.map_values(|e: LogEntry| (e.level, e.message@)) =~= self.log_view());
        r
    }

    /// Empties the log.
    pub fn clear_logs(&mut self)
        ensures
            final(self).wf() == old(self).wf(),
            final(self).vars() == old(self).vars(),
            final(self).log_view() == Seq::<(i32, Seq<char>)>::empty(),
    {
        self.logs.clear();
        assert(self.log_view() =~= Seq::<(i32, Seq<char>)>::empty());
    }
}

/// The functions that the host offers plugins.
#[derive(Clone, Debug)]
pub struct HostFunctions {
    state: PluginState,
}

impl HostFunctions {
    pub closed spec fn wf(&self) -> bool {
        self.state.wf()
    }

    /// The shared state.
    pub closed spec fn state_view(&self) -> PluginState {
        self.state
    }

    /// Host functions over a new state.
    pub fn new() -> (r: HostFunctions)
        ensures
            r.wf(),
            r.state_view().vars() == Map::<Seq<char>, Seq<char>>::empty(),
            r.state_view().log_view() == Seq::<(i32, Seq<char>)>::empty(),
    {
        HostFunctions { state: PluginState::new() }
    }

    /// Host functions over the given state.
    pub fn with_state(state: PluginState) -> (r: HostFunctions)
        ensures
            r.state_view() == state,
    {
        HostFunctions { state }
    }

    /// The shared state.
    pub fn state(&self) -> (r: &PluginState)
        ensures
            *r == self.state_view(),
    {
        &self.state
    }

    /// The shared state, to change it.
    pub fn state_mut(&mut self) -> (r: &mut PluginState)
        ensures
            *r == old(self).state_view(),
            final(self).state_view() == *final(r),
    {
        &mut self.state
    }

    /// Logs a message for the plugin.
    pub fn aurora_log(&mut self, level: i32, message: &str)
        ensures
            final(self).wf() == old(self).wf(),
            final(self).state_view().vars() == old(self).state_view().vars(),
            final(self).state_view().log_view() == old(self).state_view().log_view().push((level, message@)),
    {
        self.state.log(level, message);
    }

    /// The value of a variable, or the empty string.
    pub fn aurora_get_var(&self, name: &str) -> (r: String)
        requires
            self.wf(),
        ensures
            r@ == if self.state_view().vars().contains_key(name@) {
                self.state_view().vars()[name@]
            } else {
                Seq::<char>::empty()
            },
    {
        match self.state.get_var(name) {
            Some(v) => v,
            None => String::new(),
        }
    }

    /// The value of an environment variable, or the empty string.
    pub fn aurora_get_env(&self, name: &str) -> (r: String)
        requires
            self.wf(),
        ensures
            r@ == if self.state_view().env_view().contains_key(name@) {
                self.state_view().env_view()[name@]
            } else {
                Seq::<char>::empty()
            },
    {
        match self.state.get_env(name) {
            Some(v) => v,
            None => String::new(),
        }
    }

    /// Sets a variable.
    pub fn aurora_set_var(&mut self, name: &str, value: &str)
        requires
            old(self).wf(),
        ensures
            final(self).wf(),
            final(self).state_view().vars() == old(self).state_view().vars().insert(name@, value@),
            final(self).state_view().log_view() == old(self).state_view().log_view(),
    {
        self.state.set_var(name, value);
    }
}

/// Packs a pointer and a length into one integer: the pointer in the high
/// 32 bits, the length in the low 32 bits.
pub fn pack_ptr_len(ptr: i32, len: i32) -> (r: i64)
    ensures
        (r >> 32u64) as i32 == ptr,
        (r & 0xFFFF_FFFFi64) as i32 == len,
{
    let r = ((ptr as i64) << 32u64) | ((len as i64) & 0xFFFF_FFFFi64);
    assert(((((ptr as i64) << 32u64) | ((len as i64) & 0xFFFF_FFFFi64)) >> 32u64) as i32 == ptr) by (bit_vector);
    assert(((((ptr as i64) << 32u64) | ((len as i64) & 0xFFFF_FFFFi64)) & 0xFFFF_FFFFi64) as i32 == len) by (bit_vector);
    r
}

/// What a plugin manifest holds.
#[derive(Clone, Debug)]
pub struct PluginManifest {
    pub plugin: PluginMetadata,
    pub capabilities: PluginCapabilities,
    pub dependencies: Vec<PluginDependency>,
}

/// A plugin's name, version and description.
#[derive(Clone, Debug)]
pub struct PluginMetadata {
    pub name: String,
    pub version: String,
    pub description: Option<String>,
    pub author: Option<String>,
    pub license: Option<String>,
    pub homepage: Option<String>,
    /// Path of the module, relative to the manifest.
    pub wasm: String,
}

/// What a plugin may do.
#[derive(Clone, Copy, Debug, PartialEq, Eq)]
pub struct PluginCapabilities {
    pub transform_commands: bool,
    pub beam_hooks: bool,
    pub env_access: bool,
    pub fs_read: bool,
    pub fs_write: bool,
    pub network: bool,
}

/// A plugin that another needs.
#[derive(Clone, Debug)]
pub struct PluginDependency {
    pub name: String,
    pub version: String,
}

/// The module path that a manifest names where it names none.
pub fn default_wasm_path() -> (r: String)
    ensures
        r@ == "plugin.wasm"@,
{
    copy_str("plugin.wasm")
}

impl PluginCapabilities {
    /// No capability.
    pub fn none() -> (r: PluginCapabilities)
        ensures
            !r.transform_commands && !r.beam_hooks && !r.env_access && !r.fs_read && !r.fs_write && !r.network,
    {
        PluginCapabilities {
            transform_commands: false,
            beam_hooks: false,
            env_access: false,
            fs_read: false,
            fs_write: false,
            network: false,
        }
    }
}

impl Default for PluginCapabilities {
    fn default() -> (r: PluginCapabilities)
        ensures
            !r.transform_commands && !r.beam_hooks && !r.env_access && !r.fs_read && !r.fs_write && !r.network,
    {
        PluginCapabilities::none()
    }
}

impl PluginMetadata {
    /// Metadata with a name and version and the default module path.
    pub fn new(name: &str, version: &str) -> (r: PluginMetadata)
        ensures
            r.name@ == name@,
            r.version@ == version@,
            r.description is None,
            r.author is None,
            r.license is None,
            r.homepage is None,
            r.wasm@ == "plugin.wasm"@,
    {
        PluginMetadata {
            name: copy_str(name),
            version: copy_str(version),
            description: None,
            author: None,
            license: None,
            homepage: None,
            wasm: default_wasm_path(),
        }
    }

    /// Sets the description.
    pub fn with_description(self, description: &str) -> (r: PluginMetadata)
        ensures
            r.description matches Some(d) && d@ == description@,
            r == (PluginMetadata { description: r.description, ..self }),
    {
        PluginMetadata { description: Some(copy_str(description)), ..self }
    }

    /// Sets the author.
    pub fn with_author(self, author: &str) -> (r: PluginMetadata)
        ensures
            r.author matches Some(a) && a@ == author@,
            r == (PluginMetadata { author: r.author, ..self }),
    {
        PluginMetadata { author: Some(copy_str(author)), ..self }
    }
}

impl PluginManifest {
    /// A manifest with a name and version, no capability and no dependency.
    pub fn minimal(name: &str, version: &str) -> (r: PluginManifest)
        ensures
            r.plugin.name@ == name@,
            r.plugin.version@ == version@,
            r.plugin.wasm@ == "plugin.wasm"@,
            r.plugin.description is None,
            r.plugin.author is None,
            r.plugin.license is None,
            r.plugin.homepage is None,
            r.capabilities == PluginCapabilities::none_spec(),
            r.dependencies@.len() == 0,
    {
        PluginManifest {
            plugin: PluginMetadata::new(name, version),
            capabilities: PluginCapabilities::none(),
            dependencies: Vec::new(),
        }
    }
}

impl PluginCapabilities {
    pub open spec fn none_spec() -> PluginCapabilities {
        PluginCapabilities {
            transform_commands: false,
            beam_hooks: false,
            env_access: false,
            fs_read: false,
            fs_write: false,
            network: false,
        }
    }
}

} // verus!
