use perl_wrapper::interpreter::is_directory_entry;
use perl_wrapper::{
    ExecuteResult, ExitStatus, FilePath, InterpreterConfig, ListSeparator, Perl, Stage,
};

fn perl_at(s: &str) -> Perl {
    Perl::unconfigured(FilePath::new(s), None, ListSeparator::Colon)
}

fn report(output: &str) -> Option<ExecuteResult> {
    Some(ExecuteResult::new(
        ExitStatus::Exited(0),
        Some(output.as_bytes().to_vec()),
    ))
}

#[test]
fn is_directory_entry_rejects_use_lib_hooks() {
    assert!(is_directory_entry("/usr/lib/perl5"));
    assert!(is_directory_entry("."));
    assert!(!is_directory_entry(""));
    assert!(!is_directory_entry("CODE(0x55d3e2a1b2c0)"));
    assert!(!is_directory_entry("My::Hook=HASH(0x561f00)"));
}

#[test]
fn interpreter_config_parses_query_output() {
    let output = "archname\tx86_64-linux\n\
                  inc\t/opt/perl/lib/site_perl\n\
                  inc\tCODE(0x559abc)\n\
                  inc\t/opt/perl/lib\n";
    let config = InterpreterConfig::parse(output);
    assert_eq!(config.archname(), Some("x86_64-linux"));
    assert_eq!(
        config.inc(),
        [
            FilePath::new("/opt/perl/lib/site_perl"),
            FilePath::new("/opt/perl/lib"),
        ]
    );
}

#[test]
fn reports_are_read_line_by_line() {
    let config = InterpreterConfig::parse("");
    assert_eq!(config, InterpreterConfig::default());
    let config = InterpreterConfig::parse("archname\t \ninc\t\n inc\t/x\nnoise\n");
    assert_eq!(config, InterpreterConfig::default());
    let config = InterpreterConfig::parse("archname\t a \r\narchname\tb\ninc\t/p q\r\ninc\t/\u{e9}");
    assert_eq!(config.archname(), Some("b"));
    assert_eq!(config.inc()[0].bytes, b"/p q");
    assert_eq!(config.inc()[1].bytes, "/\u{e9}".as_bytes());
    assert_eq!(config.inc().len(), 2);
    let config = InterpreterConfig::parse("archname\tb\narchname\t\n");
    assert_eq!(config.archname(), Some("b"));
}

#[test]
fn inc_and_archname_empty_without_a_working_interpreter() {
    let mut perl = perl_at("/nonexistent/perl");
    assert!(perl.inc(None).is_empty());
    assert_eq!(perl.archname(None), None);
}

#[test]
fn failed_queries_leave_nothing_known() {
    let text = b"archname\tx\ninc\t/x\n".to_vec();
    for outcome in [
        ExecuteResult::new(ExitStatus::Exited(1), Some(text.clone())),
        ExecuteResult::new(ExitStatus::Signaled(2), Some(text)),
        ExecuteResult::new(ExitStatus::Exited(0), None),
    ] {
        let mut perl = perl_at("/usr/bin/perl");
        assert!(perl.inc(Some(outcome)).is_empty());
        assert_eq!(perl.archname(None), None);
        assert!(perl.query_interpreter_config().is_none());
    }
}

#[test]
fn inc_is_cached_and_reflects_lib() {
    let root = FilePath::new("/tmp/inc");
    let mut perl = perl_at("/usr/bin/perl").with_lib(vec![root.clone()]);

    // `lib` is threaded through `PERL5LIB` of the query.
    let query = perl.query_interpreter_config().expect("not asked yet");
    let lib = query.command.env.iter().find(|change| change.name == "PERL5LIB").unwrap();
    assert_eq!(lib.value.as_deref(), Some(&b"/tmp/inc"[..]));

    let first = perl.inc(report("archname\tx86_64-linux\ninc\t/tmp/inc\ninc\t/usr/lib\n")).to_vec();
    assert!(!first.is_empty());
    assert!(first.iter().any(|dir| dir == &root), "{root:?} not in {first:?}");
    // A second call returns the same cached data.
    assert!(perl.query_interpreter_config().is_none());
    assert_eq!(perl.inc(report("inc\t/other\n")), first.as_slice());
    assert_eq!(perl.archname(None), Some("x86_64-linux"));
    // So does a copy.
    assert_eq!(perl.clone().inc(None), first.as_slice());
}

#[test]
fn with_lib_clears_a_populated_interpreter_cache() {
    let root = FilePath::new("/tmp/recache");
    let mut perl = perl_at("/usr/bin/perl");
    assert!(!perl.inc(report("inc\t/usr/lib\n")).iter().any(|dir| dir == &root));

    let mut perl = perl.with_lib(vec![root.clone()]);
    assert!(
        perl.inc(report("inc\t/tmp/recache\ninc\t/usr/lib\n")).iter().any(|dir| dir == &root),
        "cache was not refreshed after with_lib"
    );
    let perl = perl.with_install_base(FilePath::new("/opt")).with_make(FilePath::new("make"));
    assert!(perl.query_interpreter_config().is_none());
    let perl = perl.with_current_dir(FilePath::new("/tmp"));
    assert!(perl.query_interpreter_config().is_some());
}

#[test]
fn the_query_runs_a_script_and_captures_its_output() {
    let perl = perl_at("/usr/bin/perl");
    let query = perl.query_interpreter_config().unwrap();
    assert_eq!(query.stage, Stage::Pipe);
    assert_eq!(query.program.bytes, b"/usr/bin/perl");
    let script = "use Config (); \
        print \"archname\\t$Config::Config{archname}\\n\"; \
        print \"inc\\t$_\\n\" for @INC;";
    assert_eq!(
        query.command.args,
        vec![b"-e".to_vec(), script.as_bytes().to_vec()]
    );
    let run = perl.with_capture_output(true).execute_perl(query.command.args.clone());
    assert_eq!(run, query);
}

#[test]
fn undecodable_reports_are_read_with_replacements() {
    let mut perl = perl_at("/usr/bin/perl");
    let outcome = ExecuteResult::new(ExitStatus::Exited(0), Some(b"inc\t/a\xff\n".to_vec()));
    assert_eq!(perl.inc(Some(outcome))[0].bytes, "/a\u{fffd}".as_bytes());
}
