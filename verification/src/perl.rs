//! A configured Perl interpreter: where `perl` and `make` live, where newly built
//! modules are installed, and which directories go on `PERL5LIB`.

use crate::command::{CommandLine, CommandView, EnvChange, EnvView};
use crate::error::{ErrorView, PerlError};
use crate::execute::{ExecuteResult, Execution, ExecutionView, ResultView, Stage};
use crate::interpreter;
use crate::interpreter::{ConfigView, InterpreterConfig};
use crate::outside;
use crate::path;
use crate::path::FilePath;
use crate::text;
use std::borrow::Cow;
use vstd::prelude::*;

verus! {

/// The byte that separates the directories of a search path in an environment
/// variable.
#[derive(Debug, Clone, Copy, PartialEq, Eq, Structural)]
pub enum ListSeparator {
    /// `:`, as on Unix.
    Colon,
    /// `;`, as on Windows.
    Semicolon,
}

impl ListSeparator {
    /// The byte that the separator is written as.
    pub open spec fn spec_byte(self) -> u8 {
        match self {
            ListSeparator::Colon => 0x3a,
            ListSeparator::Semicolon => 0x3b,
        }
    }

    /// The byte that the separator is written as.
    pub fn byte(self) -> (b: u8)
        ensures
            b == self.spec_byte(),
    {
        match self {
            ListSeparator::Colon => 0x3a,
            ListSeparator::Semicolon => 0x3b,
        }
    }

    /// The separator on a platform where `main_separator` separates the names in a
    /// path: `\` does on Windows.
    pub open spec fn spec_with_main_separator(main_separator: char) -> Self {
        if main_separator == '\\' {
            ListSeparator::Semicolon
        } else {
            ListSeparator::Colon
        }
    }

    /// The separator on a platform where `main_separator` separates the names in a
    /// path: `\` does on Windows.
    pub fn with_main_separator(main_separator: char) -> (separator: Self)
        ensures
            separator == ListSeparator::spec_with_main_separator(main_separator),
    {
        if main_separator == '\\' {
            ListSeparator::Semicolon
        } else {
            ListSeparator::Colon
        }
    }

    /// Whether this is the separator that goes with the platform's main separator.
    pub open spec fn is_of_platform(self) -> bool {
        exists|c: char| #[trigger]
            outside::is_main_separator(c) && self == ListSeparator::spec_with_main_separator(c)
    }

    /// The separator of the platform that the program runs on.
    fn of_platform() -> (separator: Self)
        ensures
            separator.is_of_platform(),
    {
        ListSeparator::with_main_separator(outside::platform_main_separator())
    }
}

/// A configured interpreter, as mathematical values.
#[verifier::ext_equal]
pub struct PerlView {
    /// The path of the `perl` executable.
    pub perl: Seq<u8>,
    /// The path of `make`, if there is one.
    pub make: Option<Seq<u8>>,
    /// Where newly installed modules go, if not to the default location.
    pub install_base: Option<Seq<u8>>,
    /// The directories for `PERL5LIB`.
    pub lib: Seq<Seq<u8>>,
    /// Whether output is captured.
    pub capture_output: bool,
    /// The directory to run commands in, if not that of this process.
    pub current_dir: Option<Seq<u8>>,
    /// What separates the directories of `PERL5LIB`.
    pub list_separator: ListSeparator,
    /// What the interpreter reported of itself, once it was asked.
    pub interpreter: Option<ConfigView>,
}

/// A Perl interpreter and the environment used to build and install CPAN
/// distributions with it.
///
/// Construct one with [`Perl::new`] (which finds `perl` on `PATH`) or
/// [`Perl::with_perl`] (which takes an explicit interpreter), then adjust it with
/// [`with_install_base`](Self::with_install_base) and [`with_lib`](Self::with_lib).
#[derive(Debug)]
#[non_exhaustive]
pub struct Perl {
    /// Full path to the `perl` executable.
    pub perl: FilePath,
    /// Full path to `make`, or `None` when no `make` is on `PATH`. Required to build
    /// `ExtUtils::MakeMaker` distributions; `Module::Build` distributions do not need
    /// it.
    pub make: Option<FilePath>,
    /// Full path to the install location for newly installed modules: the equivalent
    /// of `ExtUtils::MakeMaker`'s `INSTALL_BASE` or `Module::Build`'s
    /// `--install_base`. `None` installs to the interpreter's default location.
    pub install_base: Option<FilePath>,
    /// Full paths of directories to search for Perl modules. Joined with the platform
    /// path separator by [`perl5lib`](Self::perl5lib) to form the `PERL5LIB`
    /// environment variable.
    pub lib: Vec<FilePath>,
    /// When `true`, [`execute_perl`](Self::execute_perl) and
    /// [`execute_make`](Self::execute_make) capture the child's merged stdout and
    /// stderr instead of letting it write to this process's streams. Off by default.
    pub capture_output: bool,
    /// Directory to run commands in. `None` (the default) uses this process's working
    /// directory.
    pub current_dir: Option<FilePath>,
    /// What separates the directories of `PERL5LIB`.
    pub list_separator: ListSeparator,
    /// What the interpreter reported of itself, kept once it was asked: its `@INC` and
    /// `$Config{archname}`. [`with_lib`](Self::with_lib) and
    /// [`with_current_dir`](Self::with_current_dir) clear it, since they change what
    /// the interpreter would report.
    pub(crate) interpreter: Option<InterpreterConfig>,
}

impl View for Perl {
    type V = PerlView;

    open(crate) spec fn view(&self) -> PerlView {
        PerlView {
            perl: self.perl@,
            make: self.make.deep_view(),
            install_base: self.install_base.deep_view(),
            lib: self.lib.deep_view(),
            capture_output: self.capture_output,
            current_dir: self.current_dir.deep_view(),
            list_separator: self.list_separator,
            interpreter: self.interpreter.deep_view(),
        }
    }
}

/// An interpreter with nothing configured but where it and `make` live.
pub open spec fn unconfigured(
    perl: Seq<u8>,
    make: Option<Seq<u8>>,
    list_separator: ListSeparator,
) -> PerlView {
    PerlView {
        perl,
        make,
        install_base: None,
        lib: Seq::empty(),
        capture_output: false,
        current_dir: None,
        list_separator,
        interpreter: None,
    }
}

/// The path that a search came up with, if any.
pub open spec fn found_path(found: Result<FilePath, which::Error>) -> Option<Seq<u8>> {
    match found {
        Ok(path) => Some(path@),
        Err(_) => None,
    }
}

/// Whether `words` is how `reason`, for which a search found nothing, is put in words.
pub open spec fn is_worded(reason: which::Error, words: Seq<char>) -> bool {
    exists|s: String| #[trigger]
        vstd::string::to_string_from_display_ensures::<which::Error>(&reason, s) && s@ == words
}

/// Whether `p` is the interpreter at `perl` with nothing configured: with the `make` that
/// a search of `PATH` came up with, and the list separator of the platform.
pub open spec fn is_resolved(p: PerlView, perl: Seq<u8>) -> bool {
    &&& p.list_separator.is_of_platform()
    &&& exists|make: Result<FilePath, which::Error>| #[trigger]
        outside::is_found("make", make) && p == unconfigured(
            perl,
            found_path(make),
            p.list_separator,
        )
}

/// The `PERL5LIB` value of an interpreter: its `lib` directories with the separator
/// between them.
pub open spec fn perl5lib_value(p: PerlView) -> Seq<u8> {
    text::join(p.lib, seq![p.list_separator.spec_byte()])
}

/// `prefix` followed by the path `base`, if there is one.
pub open spec fn option_value(prefix: Seq<char>, base: Option<Seq<u8>>) -> Option<Seq<u8>> {
    match base {
        Some(base) => Some(vstd::utf8::encode_utf8(prefix) + base),
        None => None,
    }
}

/// The CPAN build environment of an interpreter, as changes to the inherited one.
pub open spec fn build_env(p: PerlView) -> Seq<EnvView> {
    seq![
        EnvView { name: "PERL"@, value: Some(p.perl) },
        EnvView { name: "MAKE"@, value: p.make },
        EnvView {
            name: "PERL5LIB"@,
            value: if p.lib.len() == 0 {
                None
            } else {
                Some(perl5lib_value(p))
            },
        },
        EnvView { name: "PERLLIB"@, value: None },
        EnvView { name: "PERL_LOCAL_LIB_ROOT"@, value: p.install_base },
        EnvView { name: "PERL_MB_OPT"@, value: option_value("--install_base "@, p.install_base) },
        EnvView { name: "PERL_MM_OPT"@, value: option_value("INSTALL_BASE="@, p.install_base) },
    ]
}

/// The command that runs `program` with `args` in the build environment of an
/// interpreter.
pub open spec fn build_command(p: PerlView, program: Seq<u8>, args: Seq<Seq<u8>>) -> CommandView {
    CommandView { program, args, env: build_env(p), current_dir: p.current_dir }
}

impl Clone for Perl {
    fn clone(&self) -> (copy: Self)
        ensures
            copy@ == self@,
    {
        Perl {
            perl: self.perl.clone(),
            make: path::clone_path(&self.make),
            install_base: path::clone_path(&self.install_base),
            lib: path::clone_paths(&self.lib),
            capture_output: self.capture_output,
            current_dir: path::clone_path(&self.current_dir),
            list_separator: self.list_separator,
            interpreter: match &self.interpreter {
                Some(config) => Some(config.clone()),
                None => None,
            },
        }
    }
}

impl Perl {
    /// An interpreter with nothing configured but where it and `make` live.
    pub fn unconfigured(
        perl: FilePath,
        make: Option<FilePath>,
        list_separator: ListSeparator,
    ) -> (result: Self)
        ensures
            result@ == unconfigured(perl@, make.deep_view(), list_separator),
    {
        let result = Perl {
            perl,
            make,
            install_base: None,
            lib: Vec::new(),
            capture_output: false,
            current_dir: None,
            list_separator,
            interpreter: None,
        };
        assert(result@.lib == Seq::<Seq<u8>>::empty());
        result
    }

    /// The interpreter that a search for `perl` and `make` came up with; an error if
    /// it found no `perl`.
    pub fn from_search(
        perl: Result<FilePath, String>,
        make: Option<FilePath>,
        list_separator: ListSeparator,
    ) -> (result: Result<Self, PerlError>)
        ensures
            match (perl, result) {
                (Ok(path), Ok(p)) => p@ == unconfigured(path@, make.deep_view(), list_separator),
                (Err(cause), Err(e)) => e@ == ErrorView::PerlNotFound(cause@),
                _ => false,
            },
    {
        match perl {
            Ok(path) => Ok(Perl::unconfigured(path, make, list_separator)),
            Err(cause) => Err(PerlError::PerlNotFound(cause)),
        }
    }

    /// Creates a wrapper, resolving `perl` and `make` from `PATH`.
    ///
    /// The first `perl` on `PATH` is used; an error is returned if there is none. The
    /// first `make` on `PATH` is used when present, otherwise `make` is `None`.
    /// `install_base` is `None` (install to the default location) and `lib` is empty.
    pub fn new() -> (result: Result<Self, PerlError>)
        ensures
            match result {
                Ok(p) => exists|path: FilePath| #[trigger]
                    outside::is_found("perl", Ok(path)) && is_resolved(p@, path@),
                Err(e) => exists|reason: which::Error| #[trigger]
                    outside::is_found("perl", Err(reason)) && (e@ matches ErrorView::PerlNotFound(
                        cause,
                    ) && is_worded(reason, cause)),
            },
    {
        let perl = match outside::search("perl") {
            Ok(path) => Ok(path),
            Err(e) => Err(e.to_string()),
        };
        let make = outside::search("make").ok();
        Perl::from_search(perl, make, ListSeparator::of_platform())
    }

    /// Creates a wrapper that uses `perl` as the interpreter instead of searching
    /// `PATH`.
    ///
    /// `make` is still resolved from `PATH` (first match, or `None`); `install_base`
    /// is `None` and `lib` is empty.
    pub fn with_perl(perl: FilePath) -> (result: Self)
        ensures
            is_resolved(result@, perl@),
    {
        let make = outside::search("make").ok();
        Perl::unconfigured(perl, make, ListSeparator::of_platform())
    }

    /// Sets the install location for newly installed modules.
    #[must_use]
    pub fn with_install_base(self, install_base: FilePath) -> (result: Self)
        ensures
            result@ == (PerlView { install_base: Some(install_base@), ..self@ }),
    {
        Perl { install_base: Some(install_base), ..self }
    }

    /// Enables or disables capturing the child's merged stdout and stderr.
    #[must_use]
    pub fn with_capture_output(self, capture: bool) -> (result: Self)
        ensures
            result@ == (PerlView { capture_output: capture, ..self@ }),
    {
        Perl { capture_output: capture, ..self }
    }

    /// Runs commands in `dir`. What the interpreter reported of itself is forgotten.
    #[must_use]
    pub fn with_current_dir(self, dir: FilePath) -> (result: Self)
        ensures
            result@ == (PerlView { current_dir: Some(dir@), interpreter: None, ..self@ }),
    {
        Perl { current_dir: Some(dir), interpreter: None, ..self }
    }

    /// Replaces the module search path. What the interpreter reported of itself is
    /// forgotten.
    #[must_use]
    pub fn with_lib(self, lib: Vec<FilePath>) -> (result: Self)
        ensures
            result@ == (PerlView { lib: lib.deep_view(), interpreter: None, ..self@ }),
    {
        Perl { lib, interpreter: None, ..self }
    }

    /// Overrides `make` with an explicit path.
    #[must_use]
    pub fn with_make(self, make: FilePath) -> (result: Self)
        ensures
            result@ == (PerlView { make: Some(make@), ..self@ }),
    {
        Perl { make: Some(make), ..self }
    }

    /// The `PERL5LIB` value: `lib` joined with the platform path separator (`:` on
    /// Unix, `;` on Windows). Empty when `lib` is empty.
    pub fn perl5lib(&self) -> (value: Vec<u8>)
        ensures
            value@ == perl5lib_value(self@),
    {
        let separator = self.list_separator.byte();
        let mut value: Vec<u8> = Vec::new();
        let mut i: usize = 0;
        let ghost lib = self@.lib;
        let ghost mark = seq![separator];
        assert(value@ + separated_rest(lib, 0, mark) == text::join(lib, mark));
        while i < self.lib.len()
            invariant
                i <= self.lib@.len(),
                lib == self.lib.deep_view(),
                mark == seq![separator],
                value@ + separated_rest(lib, i as int, mark) == text::join(lib, mark),
            decreases self.lib@.len() - i,
        {
            let ghost before = value@;
            if i > 0 {
                value.push(separator);
            }
            value.extend_from_slice(self.lib[i].bytes.as_slice());
            proof {
                let rest = lib.skip(i as int);
                assert(rest[0] == self.lib@[i as int]@);
                assert(rest.drop_first() == lib.skip(i + 1));
                if i > 0 {
                    assert(value@ == before + mark + rest[0]);
                } else {
                    assert(value@ == before + rest[0]);
                }
                assert(value@ + separated_rest(lib, i + 1, mark) == before + separated_rest(
                    lib,
                    i as int,
                    mark,
                ));
            }
            i += 1;
        }
        assert(value@ == text::join(lib, mark));
        value
    }

    /// The CPAN build environment:
    ///
    /// * `PERL` is set to `perl`.
    /// * `MAKE` is set to `make`, or unset when it is `None`.
    /// * `PERL5LIB` is set from `lib`, or unset when `lib` is empty.
    /// * `PERLLIB` is always unset (so it cannot shadow `PERL5LIB`).
    /// * `PERL_LOCAL_LIB_ROOT`, `PERL_MB_OPT` and `PERL_MM_OPT` are set from
    ///   `install_base` in the same way `local::lib` does, or unset when it is `None`.
    pub fn apply_env(&self) -> (env: Vec<EnvChange>)
        ensures
            env.deep_view() == build_env(self@),
    {
        let mut env: Vec<EnvChange> = Vec::new();
        env.push(EnvChange { name: "PERL", value: Some(copy_bytes(&self.perl)) });
        let make = match &self.make {
            Some(make) => Some(copy_bytes(make)),
            None => None,
        };
        env.push(EnvChange { name: "MAKE", value: make });
        let perl5lib = if self.lib.len() == 0 {
            None
        } else {
            Some(self.perl5lib())
        };
        env.push(EnvChange { name: "PERL5LIB", value: perl5lib });
        env.push(EnvChange { name: "PERLLIB", value: None });
        let root = match &self.install_base {
            Some(base) => Some(copy_bytes(base)),
            None => None,
        };
        env.push(EnvChange { name: "PERL_LOCAL_LIB_ROOT", value: root });
        let mb_opt = prefixed("--install_base ", &self.install_base);
        env.push(EnvChange { name: "PERL_MB_OPT", value: mb_opt });
        let mm_opt = prefixed("INSTALL_BASE=", &self.install_base);
        env.push(EnvChange { name: "PERL_MM_OPT", value: mm_opt });
        assert(env.deep_view() == build_env(self@));
        env
    }

    /// The command that runs `program` with `args` in the build environment.
    fn command(&self, program: &FilePath, args: Vec<Vec<u8>>) -> (command: CommandLine)
        ensures
            command@ == build_command(self@, program@, path::byte_views(args@)),
    {
        CommandLine {
            program: program.clone(),
            args,
            env: self.apply_env(),
            current_dir: path::clone_path(&self.current_dir),
        }
    }

    /// A command for `perl` with the CPAN build environment applied (the same one
    /// [`execute_perl`](Self::execute_perl) sets up) and no arguments set. Use it when
    /// you need to customise the command before running it.
    pub fn perl_command(&self) -> (command: CommandLine)
        ensures
            command@ == build_command(self@, self@.perl, Seq::empty()),
            command@.program == self@.perl,
            command@.args.len() == 0,
            command@.env == build_env(self@),
            command@.current_dir == self@.current_dir,
    {
        let args: Vec<Vec<u8>> = Vec::new();
        assert(path::byte_views(args@) == Seq::<Seq<u8>>::empty());
        self.command(&self.perl, args)
    }

    /// A command for `make` with the CPAN build environment applied and no arguments
    /// set. Errors when there is no `make` available.
    pub fn make_command(&self) -> (command: Result<CommandLine, PerlError>)
        ensures
            match command {
                Ok(command) => self@.make is Some && command@ == build_command(
                    self@,
                    self@.make->0,
                    Seq::empty(),
                ),
                Err(e) => self@.make is None && e@ == ErrorView::NoMake,
            },
            command matches Ok(command) ==> {
                &&& self@.make == Some(command@.program)
                &&& command@.args.len() == 0
                &&& command@.env == build_env(self@)
                &&& command@.current_dir == self@.current_dir
            },
    {
        match &self.make {
            Some(make) => {
                let args: Vec<Vec<u8>> = Vec::new();
                assert(path::byte_views(args@) == Seq::<Seq<u8>>::empty());
                Ok(self.command(make, args))
            },
            None => Err(PerlError::NoMake),
        }
    }
}

/// The command `command` about to be run, called `program` in error messages, with
/// its output captured or not.
pub open spec fn started(command: CommandView, program: Seq<u8>, capture: bool) -> ExecutionView {
    ExecutionView { command, program, stage: crate::execute::first_stage(capture) }
}

/// The run of the interpreter `p` with `args`.
pub open spec fn perl_run(p: PerlView, args: Seq<Seq<u8>>) -> ExecutionView {
    started(build_command(p, p.perl, args), p.perl, p.capture_output)
}

/// The run of the interpreter `p` that makes it report on itself, with its output
/// captured.
pub open spec fn query_run(p: PerlView) -> ExecutionView {
    started(build_command(p, p.perl, query_args()), p.perl, true)
}

/// The script that makes an interpreter report its `$Config{archname}` and its `@INC`.
pub const QUERY_SCRIPT: &'static str =
    "use Config (); print \"archname\\t$Config::Config{archname}\\n\"; print \"inc\\t$_\\n\" for @INC;";

/// The arguments that make an interpreter run the query script.
pub open spec fn query_args() -> Seq<Seq<u8>> {
    seq![vstd::utf8::encode_utf8("-e"@), vstd::utf8::encode_utf8(QUERY_SCRIPT@)]
}

/// What is known of an interpreter when `outcome` came of running the query script,
/// or `None` if the script could not be run.
pub open spec fn queried_config(outcome: Option<ResultView>) -> ConfigView {
    match outcome {
        Some(result) => if result.is_success && result.output is Some {
            interpreter::reported(text::lines(outside::utf8_lossy(result.output->0)))
        } else {
            interpreter::unknown_config()
        },
        None => interpreter::unknown_config(),
    }
}

/// The text that a successful run of the query script printed, if it is valid UTF-8.
pub open spec fn printed_text(outcome: Option<ResultView>) -> Option<Seq<char>> {
    match outcome {
        Some(result) => if result.is_success && result.output is Some && vstd::utf8::valid_utf8(
            result.output->0,
        ) {
            Some(vstd::utf8::decode_utf8(result.output->0))
        } else {
            None
        },
        None => None,
    }
}

/// What is known of the interpreter `p`: what it reported before, or else `outcome`.
pub open spec fn known_config(p: PerlView, outcome: Option<ResultView>) -> ConfigView {
    match p.interpreter {
        Some(config) => config,
        None => queried_config(outcome),
    }
}

/// The interpreter `p` after it was asked, where `outcome` came of running the query
/// script if it had to be run.
pub open spec fn asked(p: PerlView, outcome: Option<ResultView>) -> PerlView {
    PerlView { interpreter: Some(known_config(p, outcome)), ..p }
}

impl Perl {
    /// Prepares to run `command`, honouring `capture_output`. `program` is only used
    /// to describe the executable in error messages.
    pub fn run(&self, command: CommandLine, program: &FilePath) -> (execution: Execution)
        ensures
            execution@ == started(command@, program@, self@.capture_output),
            execution@.command == command@,
            execution@.program == program@,
            self@.capture_output ==> execution@.stage is Pipe,
            !self@.capture_output ==> execution@.stage is Run,
    {
        let stage = if self.capture_output {
            Stage::Pipe
        } else {
            Stage::Run
        };
        Execution { command, program: program.clone(), stage }
    }

    /// Prepares to run `perl` with `args` in the build environment of
    /// [`apply_env`](Self::apply_env).
    ///
    /// The child inherits this process's stdio, unless `capture_output` is set, in
    /// which case its merged stdout and stderr is collected into
    /// [`ExecuteResult::output`]. A non-zero exit is reported in the
    /// [`ExecuteResult`], not as an error.
    ///
    /// The run ends in an error when the process cannot be spawned or waited for, and,
    /// where output is captured, also when the pipe for it cannot be set up or read to
    /// its end.
    pub fn execute_perl(&self, args: Vec<Vec<u8>>) -> (execution: Execution)
        ensures
            execution@ == perl_run(self@, path::byte_views(args@)),
            execution@.command.args == path::byte_views(args@),
            execution@.command.program == self@.perl,
            execution@.command.env == build_env(self@),
            execution@.command.current_dir == self@.current_dir,
            execution@.program == self@.perl,
            self@.capture_output ==> execution@.stage is Pipe,
            !self@.capture_output ==> execution@.stage is Run,
    {
        let mut command = self.perl_command();
        command.args = args;
        self.run(command, &self.perl)
    }

    /// Prepares to run `make` with `args` in the build environment. Output is
    /// inherited or captured exactly as for [`execute_perl`](Self::execute_perl).
    ///
    /// Errors when there is no `make` available. The run ends in an error as for
    /// [`execute_perl`](Self::execute_perl).
    pub fn execute_make(&self, args: Vec<Vec<u8>>) -> (execution: Result<Execution, PerlError>)
        ensures
            match execution {
                Ok(execution) => self@.make is Some && execution@ == started(
                    build_command(self@, self@.make->0, path::byte_views(args@)),
                    self@.make->0,
                    self@.capture_output,
                ),
                Err(e) => self@.make is None && e@ == ErrorView::NoMake,
            },
            execution matches Ok(execution) ==> {
                &&& execution@.command.args == path::byte_views(args@)
                &&& self@.make == Some(execution@.command.program)
                &&& execution@.command.env == build_env(self@)
                &&& execution@.command.current_dir == self@.current_dir
                &&& self@.make == Some(execution@.program)
                &&& self@.capture_output ==> execution@.stage is Pipe
                &&& !self@.capture_output ==> execution@.stage is Run
            },
    {
        match self.make_command() {
            Ok(mut command) => {
                command.args = args;
                let program = command.program.clone();
                Ok(self.run(command, &program))
            },
            Err(e) => Err(e),
        }
    }

    /// The run of the interpreter that has to come before [`inc`](Self::inc) and
    /// [`archname`](Self::archname) can answer, or `None` when the answer is known.
    ///
    /// The script's output is always captured, whatever `capture_output` says.
    pub fn query_interpreter_config(&self) -> (query: Option<Execution>)
        ensures
            query is None <==> self@.interpreter is Some,
            query matches Some(execution) ==> execution@ == query_run(self@),
    {
        if self.interpreter.is_some() {
            return None;
        }
        let mut args: Vec<Vec<u8>> = Vec::new();
        args.push(vstd::slice::slice_to_vec("-e".as_bytes()));
        args.push(vstd::slice::slice_to_vec(QUERY_SCRIPT.as_bytes()));
        assert(path::byte_views(args@) == query_args());
        let command = self.command(&self.perl, args);
        Some(Execution { command, program: self.perl.clone(), stage: Stage::Pipe })
    }

    /// What is known of the interpreter. The first call takes it from `outcome`, which
    /// is what came of the run that
    /// [`query_interpreter_config`](Self::query_interpreter_config) asks for; later
    /// calls give the same answer whatever `outcome` is.
    ///
    /// `None`, a non-zero exit, or no output leave nothing known.
    pub fn interpreter_config(&mut self, outcome: Option<ExecuteResult>) -> (config:
        &InterpreterConfig)
        ensures
            final(self)@ == asked(old(self)@, outcome.deep_view()),
            config@ == known_config(old(self)@, outcome.deep_view()),
            old(self)@.interpreter is None ==> (printed_text(outcome.deep_view()) matches Some(t)
                ==> config@ == interpreter::reported(text::lines(t))),
    {
        if self.interpreter.is_none() {
            self.interpreter = Some(config_of(outcome));
        }
        self.interpreter.as_ref().unwrap()
    }

    /// The interpreter's effective `@INC`: the directories `perl` searches for
    /// modules, in order, with this wrapper's `lib` entries already prepended (they are
    /// passed to the child through `PERL5LIB`).
    ///
    /// The list is taken from `outcome` once and then kept, as for
    /// [`interpreter_config`](Self::interpreter_config). `@INC` entries that are not
    /// filesystem paths are filtered out. It is empty when the interpreter could not be
    /// run. `install_base` is not reflected here, since it is never placed on
    /// `PERL5LIB`.
    pub fn inc(&mut self, outcome: Option<ExecuteResult>) -> (dirs: &[FilePath])
        ensures
            final(self)@ == asked(old(self)@, outcome.deep_view()),
            dirs.deep_view() == known_config(old(self)@, outcome.deep_view()).inc,
            old(self)@.interpreter is None ==> (printed_text(outcome.deep_view()) matches Some(t)
                ==> dirs.deep_view() == interpreter::reported(text::lines(t)).inc),
            interpreter::are_inc_paths(dirs.deep_view()),
    {
        self.interpreter_config(outcome).inc()
    }

    /// The interpreter's `$Config{archname}` (for example
    /// `x86_64-linux-gnu-thread-multi`), or `None` when it could not be run.
    ///
    /// It is taken from `outcome` once and then kept, as for
    /// [`interpreter_config`](Self::interpreter_config).
    pub fn archname(&mut self, outcome: Option<ExecuteResult>) -> (name: Option<&str>)
        ensures
            final(self)@ == asked(old(self)@, outcome.deep_view()),
            name.deep_view() == known_config(old(self)@, outcome.deep_view()).archname,
            old(self)@.interpreter is None ==> (printed_text(outcome.deep_view()) matches Some(t)
                ==> name.deep_view() == interpreter::reported(text::lines(t)).archname),
    {
        self.interpreter_config(outcome).archname()
    }
}

/// What a run of the query script says of an interpreter.
fn config_of(outcome: Option<ExecuteResult>) -> (config: InterpreterConfig)
    ensures
        config@ == queried_config(outcome.deep_view()),
        printed_text(outcome.deep_view()) matches Some(t) ==> config@ == interpreter::reported(
            text::lines(t),
        ),
{
    match outcome {
        Some(result) => {
            if !result.is_success {
                return InterpreterConfig::default();
            }
            match result.output_lossy() {
                Some(Cow::Borrowed(output)) => InterpreterConfig::parse(output),
                Some(Cow::Owned(output)) => InterpreterConfig::parse(output.as_str()),
                None => InterpreterConfig::default(),
            }
        },
        None => InterpreterConfig::default(),
    }
}

/// The part of `join(list, separator)` that comes after the first `i` items.
spec fn separated_rest(list: Seq<Seq<u8>>, i: int, separator: Seq<u8>) -> Seq<u8> {
    if i == 0 {
        text::join(list, separator)
    } else if i < list.len() {
        separator + text::join(list.skip(i), separator)
    } else {
        Seq::empty()
    }
}

/// The bytes of a path.
fn copy_bytes(path: &FilePath) -> (bytes: Vec<u8>)
    ensures
        bytes@ == path@,
{
    path.clone().bytes
}

/// `prefix` followed by the path `base`, if there is one.
fn prefixed(prefix: &str, base: &Option<FilePath>) -> (value: Option<Vec<u8>>)
    ensures
        crate::command::optional_bytes(value) == option_value(prefix@, base.deep_view()),
{
    match base {
        Some(base) => {
            let mut value = vstd::slice::slice_to_vec(prefix.as_bytes());
            value.extend_from_slice(base.bytes.as_slice());
            assert(value@ == vstd::utf8::encode_utf8(prefix@) + base@);
            Some(value)
        },
        None => None,
    }
}

/// The value of a variable in an environment.
pub open spec fn env_value(env: Map<Seq<char>, Seq<u8>>, name: Seq<char>) -> Option<Seq<u8>> {
    if env.contains_key(name) {
        Some(env[name])
    } else {
        None
    }
}

/// Whatever environment a command inherits, it sees `PERL` set to the interpreter,
/// `MAKE` set to `make` or unset, `PERL5LIB` set from `lib` or unset, `PERLLIB` unset,
/// `PERL_LOCAL_LIB_ROOT`, `PERL_MB_OPT` and `PERL_MM_OPT` set from the install location
/// or unset, and every other variable as inherited.
pub proof fn law_build_environment(p: PerlView, inherited: Map<Seq<char>, Seq<u8>>)
    ensures
        ({
            let env = crate::command::changed(inherited, build_env(p));
            &&& env_value(env, "PERL"@) == Some(p.perl)
            &&& env_value(env, "MAKE"@) == p.make
            &&& env_value(env, "PERL5LIB"@) == (if p.lib.len() == 0 {
                None
            } else {
                Some(perl5lib_value(p))
            })
            &&& env_value(env, "PERLLIB"@) is None
            &&& env_value(env, "PERL_LOCAL_LIB_ROOT"@) == p.install_base
            &&& env_value(env, "PERL_MB_OPT"@) is Some <==> p.install_base is Some
            &&& env_value(env, "PERL_MM_OPT"@) is Some <==> p.install_base is Some
            &&& p.install_base matches Some(base) ==> {
                &&& env_value(env, "PERL_MB_OPT"@) == Some(
                    vstd::utf8::encode_utf8("--install_base "@) + base,
                )
                &&& env_value(env, "PERL_MM_OPT"@) == Some(
                    vstd::utf8::encode_utf8("INSTALL_BASE="@) + base,
                )
            }
            &&& forall|name: Seq<char>|
                name != "PERL"@ && name != "MAKE"@ && name != "PERL5LIB"@ && name != "PERLLIB"@
                    && name != "PERL_LOCAL_LIB_ROOT"@ && name != "PERL_MB_OPT"@ && name
                    != "PERL_MM_OPT"@ ==> #[trigger] env_value(env, name) == env_value(
                    inherited,
                    name,
                )
        }),
{
    reveal_strlit("PERL");
    reveal_strlit("MAKE");
    reveal_strlit("PERL5LIB");
    reveal_strlit("PERLLIB");
    reveal_strlit("PERL_LOCAL_LIB_ROOT");
    reveal_strlit("PERL_MB_OPT");
    reveal_strlit("PERL_MM_OPT");
    assert("PERL"@[0] != "MAKE"@[0]);
    assert("PERL_MB_OPT"@[6] != "PERL_MM_OPT"@[6]);
    assert("PERL"@.len() == 4 && "MAKE"@.len() == 4);
    assert("PERL5LIB"@.len() == 8 && "PERLLIB"@.len() == 7);
    assert("PERL_LOCAL_LIB_ROOT"@.len() == 19);
    assert("PERL_MB_OPT"@.len() == 11 && "PERL_MM_OPT"@.len() == 11);
    let all = build_env(p);
    let e0 = inherited;
    let e1 = e0.insert("PERL"@, p.perl);
    let e2 = with_change(e1, all[1]);
    let e3 = with_change(e2, all[2]);
    let e4 = e3.remove("PERLLIB"@);
    let e5 = with_change(e4, all[4]);
    let e6 = with_change(e5, all[5]);
    let e7 = with_change(e6, all[6]);
    assert(crate::command::changed(inherited, all.take(0)) == e0);
    assert(all.take(1).drop_last() == all.take(0));
    assert(crate::command::changed(inherited, all.take(1)) == e1);
    assert(all.take(2).drop_last() == all.take(1));
    assert(crate::command::changed(inherited, all.take(2)) == e2);
    assert(all.take(3).drop_last() == all.take(2));
    assert(crate::command::changed(inherited, all.take(3)) == e3);
    assert(all.take(4).drop_last() == all.take(3));
    assert(crate::command::changed(inherited, all.take(4)) == e4);
    assert(all.take(5).drop_last() == all.take(4));
    assert(crate::command::changed(inherited, all.take(5)) == e5);
    assert(all.take(6).drop_last() == all.take(5));
    assert(crate::command::changed(inherited, all.take(6)) == e6);
    assert(all.drop_last() == all.take(6));
    assert(crate::command::changed(inherited, all) == e7);
}

spec fn with_change(env: Map<Seq<char>, Seq<u8>>, change: EnvView) -> Map<Seq<char>, Seq<u8>> {
    match change.value {
        Some(value) => env.insert(change.name, value),
        None => env.remove(change.name),
    }
}

/// The `PERL5LIB` value is empty when there are no directories, and otherwise splits
/// back into them, if the separator stands in none of them.
pub proof fn law_perl5lib_splits_into_lib(p: PerlView)
    requires
        forall|i: int|
            0 <= i < p.lib.len() ==> !(#[trigger] p.lib[i]).contains(p.list_separator.spec_byte()),
    ensures
        p.lib.len() == 0 ==> perl5lib_value(p).len() == 0,
        p.lib.len() > 0 ==> text::split(perl5lib_value(p), p.list_separator.spec_byte()) == p.lib,
{
    if p.lib.len() > 0 {
        text::lemma_split_join(p.lib, p.list_separator.spec_byte());
    }
}

/// The install location is never placed on `PERL5LIB`.
pub proof fn law_install_base_is_not_on_perl5lib(p: PerlView, base: Option<Seq<u8>>)
    ensures
        perl5lib_value(PerlView { install_base: base, ..p }) == perl5lib_value(p),
        build_env(PerlView { install_base: base, ..p })[2] == build_env(p)[2],
        build_env(p)[2].name == "PERL5LIB"@,
{
}

/// What an interpreter reported once is kept: asking again changes nothing and gives
/// the same answer, whatever another run of the script would report.
pub proof fn law_answer_is_kept(
    p: PerlView,
    first: Option<ResultView>,
    second: Option<ResultView>,
)
    ensures
        asked(asked(p, first), second) == asked(p, first),
        known_config(asked(p, first), second) == known_config(p, first),
{
}

/// Nothing is known of an interpreter that could not be run, that exited with another
/// status than zero, or of which no output was captured.
pub proof fn law_failed_query_tells_nothing(outcome: Option<ResultView>)
    requires
        outcome matches Some(result) ==> !result.is_success || result.output is None,
    ensures
        queried_config(outcome) == interpreter::unknown_config(),
{
}

/// The query runs as `execute_perl` runs the script on a copy that captures output.
pub proof fn law_query_is_a_captured_run(p: PerlView)
    ensures
        query_run(p) == perl_run(PerlView { capture_output: true, ..p }, query_args()),
{
}

/// What an interpreter stands for is what it holds.
pub(crate) proof fn law_perl_view(perl: Perl)
    ensures
        perl@.perl == perl.perl.bytes@,
        perl@.make is Some <==> perl.make is Some,
        perl.make matches Some(make) ==> perl@.make == Some(make.bytes@),
        perl@.install_base is Some <==> perl.install_base is Some,
        perl.install_base matches Some(base) ==> perl@.install_base == Some(base.bytes@),
        perl@.lib.len() == perl.lib@.len(),
        forall|i: int| 0 <= i < perl.lib@.len() ==> #[trigger] perl@.lib[i] == perl.lib@[i].bytes@,
        perl@.capture_output == perl.capture_output,
        perl@.current_dir is Some <==> perl.current_dir is Some,
        perl.current_dir matches Some(dir) ==> perl@.current_dir == Some(dir.bytes@),
        perl@.list_separator == perl.list_separator,
        perl@.interpreter is Some <==> perl.interpreter is Some,
        perl.interpreter matches Some(config) ==> perl@.interpreter == Some(config@),
{
}

/// The list separator is `;` where names in a path are separated by `\`, and `:` anywhere
/// else.
pub proof fn law_list_separators(main_separator: char)
    ensures
        ListSeparator::Colon.spec_byte() == 0x3a,
        ListSeparator::Semicolon.spec_byte() == 0x3b,
        ListSeparator::spec_with_main_separator(main_separator) is Semicolon <==> main_separator
            == '\\',
{
}

/// An interpreter with nothing configured runs where this process does, captures nothing,
/// and has no directories, no install location and no report.
pub proof fn law_nothing_is_configured(
    perl: Seq<u8>,
    make: Option<Seq<u8>>,
    list_separator: ListSeparator,
)
    ensures
        ({
            let p = unconfigured(perl, make, list_separator);
            &&& p.perl == perl
            &&& p.make == make
            &&& p.install_base is None
            &&& p.lib.len() == 0
            &&& !p.capture_output
            &&& p.current_dir is None
            &&& p.list_separator == list_separator
            &&& p.interpreter is None
        }),
{
}

/// An interpreter that was resolved has the path that was given, the `make` that a search
/// for it came up with, if any, and nothing else configured.
pub proof fn law_resolved_interpreters(p: PerlView, perl: Seq<u8>)
    requires
        is_resolved(p, perl),
    ensures
        p.perl == perl,
        p.make is None ==> exists|reason: which::Error| #[trigger]
            outside::is_found("make", Err(reason)),
        p.make matches Some(make) ==> exists|path: FilePath| #[trigger]
            outside::is_found("make", Ok(path)) && path.bytes@ == make,
        exists|c: char| #[trigger]
            outside::is_main_separator(c) && (p.list_separator is Semicolon <==> c == '\\'),
        p.install_base is None,
        p.lib.len() == 0,
        !p.capture_output,
        p.current_dir is None,
        p.interpreter is None,
{
    let make = choose|make: Result<FilePath, which::Error>| #[trigger]
        outside::is_found("make", make) && p == unconfigured(
            perl,
            found_path(make),
            p.list_separator,
        );
    match make {
        Ok(path) => {
            assert(outside::is_found("make", Ok(path)));
        },
        Err(reason) => {
            assert(outside::is_found("make", Err(reason)));
        },
    }
}

/// A directory that is added to the end of `lib` is added to the end of `PERL5LIB`, behind
/// a separator if it is not the only one.
pub proof fn law_perl5lib_grows(p: PerlView, dir: Seq<u8>)
    ensures
        perl5lib_value(PerlView { lib: Seq::empty(), ..p }).len() == 0,
        perl5lib_value(PerlView { lib: seq![dir], ..p }) == dir,
        p.lib.len() > 0 ==> perl5lib_value(PerlView { lib: p.lib.push(dir), ..p })
            == perl5lib_value(p) + seq![
            match p.list_separator {
                ListSeparator::Colon => 0x3au8,
                ListSeparator::Semicolon => 0x3bu8,
            },
        ] + dir,
{
    let mark = seq![p.list_separator.spec_byte()];
    text::law_join_grows(p.lib, dir, mark);
}

/// A command in the build environment has the program and all the arguments that it was
/// made with, in order, and runs in the directory of the interpreter.
pub proof fn law_commands_keep_their_parts(p: PerlView, program: Seq<u8>, args: Seq<Seq<u8>>)
    ensures
        ({
            let command = build_command(p, program, args);
            &&& command.program == program
            &&& command.args.len() == args.len()
            &&& forall|i: int| 0 <= i < args.len() ==> #[trigger] command.args[i] == args[i]
            &&& command.env == build_env(p)
            &&& command.current_dir == p.current_dir
        }),
{
}

/// A run keeps the command and the name of the program, and starts with a pipe exactly if
/// output is captured.
pub proof fn law_runs_keep_their_command(command: CommandView, program: Seq<u8>, capture: bool)
    ensures
        ({
            let run = started(command, program, capture);
            &&& run.command == command
            &&& run.program == program
            &&& capture ==> run.stage is Pipe
            &&& !capture ==> run.stage is Run
        }),
{
}

/// However many arguments there are, the interpreter is run with exactly those, in order,
/// in its own build environment and directory, and its output is captured if it is to be.
pub proof fn law_arguments_are_passed_on(p: PerlView, args: Seq<Seq<u8>>)
    ensures
        ({
            let run = perl_run(p, args);
            &&& run.command.program == p.perl
            &&& run.command.args.len() == args.len()
            &&& forall|i: int| 0 <= i < args.len() ==> #[trigger] run.command.args[i] == args[i]
            &&& run.command.env == build_env(p)
            &&& run.command.current_dir == p.current_dir
            &&& run.program == p.perl
            &&& p.capture_output ==> run.stage is Pipe
            &&& !p.capture_output ==> run.stage is Run
        }),
{
}

/// The query runs the interpreter with `-e` and the script, in its own build environment
/// and directory, and captures the output.
pub proof fn law_query_runs_the_script(p: PerlView)
    ensures
        ({
            let run = query_run(p);
            &&& run.command.program == p.perl
            &&& run.command.args.len() == 2
            &&& run.command.args[0] == vstd::utf8::encode_utf8("-e"@)
            &&& run.command.args[1] == vstd::utf8::encode_utf8(
                "use Config (); print \"archname\\t$Config::Config{archname}\\n\"; print \"inc\\t$_\\n\" for @INC;"@,
            )
            &&& run.command.env == build_env(p)
            &&& run.command.current_dir == p.current_dir
            &&& run.program == p.perl
            &&& run.stage is Pipe
        }),
{
}

/// What is known of an interpreter is what it reported before, if it did; else what it
/// printed, if the script succeeded and its output was captured; else nothing. To ask it
/// changes nothing but that.
pub proof fn law_what_is_known(p: PerlView, outcome: Option<ResultView>)
    ensures
        p.interpreter matches Some(config) ==> known_config(p, outcome) == config,
        p.interpreter is None ==> {
            let known = known_config(p, outcome);
            let printed = outcome is Some && outcome->0.is_success && outcome->0.output is Some;
            &&& known == queried_config(outcome)
            &&& printed ==> known == interpreter::reported(
                text::lines(outside::utf8_lossy(outcome->0.output->0)),
            )
            &&& !printed ==> known.archname is None && known.inc.len() == 0
        },
        printed_text(outcome) matches Some(t) ==> outcome is Some && outcome->0.is_success
            && outcome->0.output is Some && t == vstd::utf8::decode_utf8(outcome->0.output->0),
        outcome is Some && outcome->0.is_success && outcome->0.output is Some
            && vstd::utf8::valid_utf8(outcome->0.output->0) ==> printed_text(outcome) == Some(
            vstd::utf8::decode_utf8(outcome->0.output->0),
        ),
        ({
            let q = asked(p, outcome);
            &&& q.interpreter == Some(known_config(p, outcome))
            &&& q.perl == p.perl && q.make == p.make && q.install_base == p.install_base
            &&& q.lib == p.lib && q.capture_output == p.capture_output
            &&& q.current_dir == p.current_dir && q.list_separator == p.list_separator
        }),
{
}

/// A reason is put in words as it is displayed.
pub proof fn law_reasons_are_displayed(reason: which::Error, words: Seq<char>)
    ensures
        is_worded(reason, words) <==> exists|s: String| #[trigger]
            vstd::string::to_string_from_display_ensures::<which::Error>(&reason, s) && s@ == words,
{
}

} // verus!
