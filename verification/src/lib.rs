//! Snippets of C and C++ inside a host program.
//!
//! A snippet comes as the tokens that the host's tokenizer made of it. This
//! library puts them back into source text, takes the environment directives
//! out of the text, and lays out what it takes to compile the text and to run
//! what the compiler made: the temporary files, the compiler's arguments in
//! their order, the variables to set. It starts no process and touches no
//! file: a driver does, and hands back what it found. What a process gave is
//! then held against what is expected of it.

pub mod assertion;
pub mod command;
pub mod directive;
pub mod reconstruct;
pub mod run;
pub mod snippet;
pub mod text;
pub mod token;
pub mod variables;

pub use crate::assertion::{Assert, AssertionError, ExecutionResult};
pub use crate::command::{
    command_add_compiler_flags, command_add_output_file, Command, OutputConvention,
};
pub use crate::directive::collect_environment_variables;
pub use crate::reconstruct::{reconstruct, ReconstructError};
pub use crate::run::{
    prepare, run, BuildPlan, BuildSettings, Compilation, Compiler, Execution, Language, TempFile,
    Tool,
};
pub use crate::snippet::{assert_c, assert_cxx};
pub use crate::token::{Delimiter, Spacing, Token};
pub use crate::variables::Variables;
