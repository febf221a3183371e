//! Verified core of the Wield utility hub: the tool descriptor model, its
//! validation, command-template rendering, the tool registry and the
//! decisions of the execution pipeline.

pub mod args;
pub mod availability;
pub mod capabilities;
pub mod builder;
pub mod cli;
pub mod command;
pub mod descriptor;
pub mod error;
pub mod executor;
pub mod float;
pub mod invocation;
pub mod json_args;
pub mod outcome;
pub mod native;
pub mod path;
pub mod portal;
pub mod registry;
pub mod shell;
pub mod template;
pub mod text;
pub mod time;
pub mod tray;
pub mod validate;

pub use args::{validate_args, visible_args, ArgMap, ArgValue};
pub use availability::{is_available, AvailabilityView, NameSet, VersionMap};
pub use builder::{ArgSpecBuilder, CommandSpecBuilder, DescriptorBuilder};
pub use command::{BinaryResolver, CommandResult, OutputPlan};
pub use descriptor::{
    ArgSpec, ArgType, ArgValueLiteral, Capability, Category, CommandArg, CommandSpec, Descriptor,
    FileFilter, NativeId, OutputDir, OutputSpec, ProgressSpec, Requires, SuccessSpec, ToolId,
    ValueKind, When,
};
pub use error::{CoreError, DescriptorError, ValidationError};
pub use executor::Executor;
pub use float::FloatNum;
pub use outcome::{hint_for_stderr, Progress, Stage, ToolOutcome};
pub use registry::{Registry, RegistryError};
pub use validate::validate_descriptor;

use vstd::prelude::*;

verus! {

/// The library's version.
pub fn version() -> (v: &'static str)
    ensures
        v@ == "0.1.0"@,
{
    "0.1.0"
}

} // verus!
