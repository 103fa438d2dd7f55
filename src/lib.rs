//! Aurora: a task-automation and build system.
//!
//! The library holds the Beamfile model, its parser, variable
//! interpolation, the dependency graph and scheduler, the build cache's
//! staleness rules and the executor's per-beam decisions.

mod text;
pub mod strmap;
pub mod error;
pub mod interpolation;
pub mod hook;
pub mod variable;
pub mod condition;
pub mod beam;
pub mod beamfile;
pub mod dag;
pub mod scheduler;
pub mod cache;
pub mod lexer;
pub mod ast;
pub mod fields;
pub mod parser;
pub mod validate;
pub mod executor;
pub mod runner;
pub mod plugin;
pub mod discovery;

pub use beam::{Beam, Command, RunBlock};
pub use beamfile::Beamfile;
pub use cache::{BuildCache, CacheEntry};
pub use condition::Condition;
pub use dag::DependencyGraph;
pub use discovery::{WatchConfig, cache_dir, working_dir};
pub use error::{AuroraError, Span};
pub use executor::{BeamEvent, BeamOutcome, ExecutionReport, SkipReason};
pub use hook::Hook;
pub use interpolation::{InterpolationContext, contains_variables, interpolate, interpolate_map, interpolate_vec};
pub use lexer::ParseError;
pub use parser::{parse_beamfile, parse_str};
pub use plugin::{HostFunctions, LogEntry, PluginCapabilities, PluginDependency, PluginManifest, PluginMetadata, PluginState};
pub use runner::{CommandResult, CommandRunner, Shell};
pub use scheduler::{ExecutionLevel, ExecutionPlan, Scheduler};
pub use strmap::StrMap;
pub use variable::Variable;
