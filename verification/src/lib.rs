//! A wrapper around a Perl interpreter and the environment used to build and install
//! CPAN distributions with it.
//!
//! [`Perl`] records the full path to `perl`, the full path to `make` (or `None`), an
//! optional module install location, and a list of directories for `PERL5LIB`. Its
//! methods say exactly which commands to run in which environment, read what the
//! interpreter reports of itself, and look up installed modules and their versions.
//!
//! The library decides and computes. It looks for `perl` and `make` on `PATH`, but it
//! starts no process and reads no file: where one has to be started or read, it hands
//! out a description of what to do ([`Execution`], [`ModuleSearch`]) and takes in what
//! came of it.
//!
//! Paths are Unix paths: bytes, with `/` between names.

pub mod alphabet;
pub mod command;
pub mod error;
pub mod execute;
pub mod interpreter;
pub mod module_name;
pub mod outside;
pub mod path;
pub mod perl;
pub mod search;
pub mod text;
pub mod version;

pub use command::{CommandLine, EnvChange};
pub use error::PerlError;
pub use execute::{Event, ExecuteResult, Execution, ExitStatus, Stage};
pub use interpreter::InterpreterConfig;
pub use path::FilePath;
pub use perl::{ListSeparator, Perl};
pub use search::{Answer, Module, ModuleSearch};
