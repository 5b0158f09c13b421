use perl_wrapper::{CommandLine, FilePath, ListSeparator, Perl, PerlError, Stage};
use std::collections::HashMap;

fn path(s: &str) -> FilePath {
    FilePath::new(s)
}

fn paths(list: &[&str]) -> Vec<FilePath> {
    list.iter().map(|s| path(s)).collect()
}

fn perl_at(s: &str) -> Perl {
    Perl::with_perl(path(s))
}

fn bare() -> Perl {
    Perl::unconfigured(path("/usr/bin/perl"), None, ListSeparator::Colon)
}

fn env_of(cmd: &CommandLine) -> HashMap<&'static str, Option<Vec<u8>>> {
    cmd.env.iter().map(|change| (change.name, change.value.clone())).collect()
}

fn value(s: &str) -> Option<Vec<u8>> {
    Some(s.as_bytes().to_vec())
}

#[test]
fn new_resolves_perl_from_path() {
    let Ok(perl) = Perl::new() else {
        assert!(which::which("perl").is_err());
        return;
    };
    assert!(perl.perl.bytes.starts_with(b"/"));
    assert!(!perl.perl.bytes.ends_with(b"/"));
    assert!(perl.install_base.is_none());
    assert!(perl.lib.is_empty());
    // `make` mirrors whatever is (or isn't) on PATH.
    assert_eq!(perl.make.is_some(), which::which("make").is_ok());
}

#[test]
fn with_perl_uses_the_given_interpreter() {
    let perl = perl_at("/usr/local/bin/perl");
    assert_eq!(perl.perl, path("/usr/local/bin/perl"));
    assert!(perl.install_base.is_none());
    assert_eq!(perl.make.is_some(), which::which("make").is_ok());
}

#[test]
fn search_results_are_those_of_the_search() {
    match which::which("perl") {
        Ok(found) => {
            let perl = Perl::new().unwrap();
            assert_eq!(perl.perl.bytes, found.to_str().unwrap().as_bytes());
        }
        Err(cause) => {
            let error = Perl::new().unwrap_err();
            assert_eq!(error, PerlError::PerlNotFound(cause.to_string()));
        }
    }
    let make = perl_at("/p").make.map(|make| make.bytes);
    let found = which::which("make").ok();
    assert_eq!(make, found.map(|found| found.to_str().unwrap().as_bytes().to_vec()));
}

#[test]
fn a_search_without_perl_is_an_error() {
    let perl = Perl::from_search(
        Ok(path("/opt/perl")),
        Some(path("/bin/make")),
        ListSeparator::Colon,
    )
    .unwrap();
    assert_eq!(perl.perl.bytes, b"/opt/perl");
    assert_eq!(perl.make, Some(path("/bin/make")));

    let error = Perl::from_search(Err("cannot find binary path".to_string()), None, ListSeparator::Colon)
        .unwrap_err();
    assert_eq!(
        error.message(),
        "no `perl` executable found on PATH: cannot find binary path"
    );
}

#[test]
fn with_install_base_sets_the_location() {
    let perl = perl_at("/usr/bin/perl").with_install_base(path("/opt/perl5"));
    assert_eq!(perl.install_base, Some(path("/opt/perl5")));
}

#[test]
fn with_make_overrides_resolution() {
    let perl = perl_at("/usr/bin/perl").with_make(path("/usr/bin/gmake"));
    assert_eq!(perl.make, Some(path("/usr/bin/gmake")));
}

#[test]
fn with_lib_accepts_various_path_types() {
    let perl = perl_at("/usr/bin/perl").with_lib(vec![
        path("/opt/perl5/lib/perl5"),
        FilePath::from_bytes(b"/home/me/perl5/lib/perl5".to_vec()),
    ]);
    assert_eq!(
        perl.lib,
        paths(&["/opt/perl5/lib/perl5", "/home/me/perl5/lib/perl5"])
    );
}

#[test]
fn perl5lib_joins_with_colon() {
    let perl = perl_at("/usr/bin/perl").with_lib(paths(&["/a/lib", "/b/c/lib"]));
    assert_eq!(perl.perl5lib(), b"/a/lib:/b/c/lib");
}

#[test]
fn perl5lib_joins_with_semicolon_on_windows() {
    let separator = ListSeparator::with_main_separator('\\');
    assert_eq!(separator.byte(), b';');
    assert_eq!(ListSeparator::with_main_separator('/').byte(), b':');
    let perl = Perl::unconfigured(path("perl.exe"), None, separator)
        .with_lib(paths(&["C:/a", "C:/b", ""]));
    assert_eq!(perl.perl5lib(), b"C:/a;C:/b;");
    let platform = perl_at("perl").list_separator;
    let main = std::path::MAIN_SEPARATOR;
    assert_eq!(platform, ListSeparator::with_main_separator(main));
    assert_eq!(platform == ListSeparator::Colon, main == '/');
}

#[test]
fn perl5lib_is_empty_without_lib_dirs() {
    let perl = perl_at("/usr/bin/perl");
    assert_eq!(perl.perl5lib(), b"");
}

#[test]
fn perl5lib_keeps_bytes_that_are_not_text() {
    let perl = bare().with_lib(vec![FilePath::from_bytes(vec![0xff, b'/']), path("b")]);
    assert_eq!(perl.perl5lib(), [0xff, b'/', b':', b'b']);
    assert_eq!(perl.perl5lib().split(|b| *b == b':').count(), 2);
}

#[test]
fn command_sets_env_from_lib_and_install_base() {
    let perl = perl_at("/usr/bin/perl")
        .with_make(path("/usr/bin/make"))
        .with_lib(paths(&["/a/lib", "/b/lib"]))
        .with_install_base(path("/opt/pl"));
    let cmd = perl.perl_command();
    let env = env_of(&cmd);

    assert_eq!(env["PERL"], value("/usr/bin/perl"));
    assert_eq!(env["MAKE"], value("/usr/bin/make"));
    assert_eq!(env["PERL5LIB"], value("/a/lib:/b/lib"));
    assert_eq!(env["PERLLIB"], None);
    assert_eq!(env["PERL_LOCAL_LIB_ROOT"], value("/opt/pl"));
    assert_eq!(env["PERL_MB_OPT"], value("--install_base /opt/pl"));
    assert_eq!(env["PERL_MM_OPT"], value("INSTALL_BASE=/opt/pl"));
    assert_eq!(env.len(), 7);
}

#[test]
fn command_unsets_env_when_nothing_configured() {
    let perl = bare();
    let cmd = perl.perl_command();
    let env = env_of(&cmd);

    // `PERL` is always set; everything else is cleared.
    assert_eq!(env["PERL"], value("/usr/bin/perl"));
    for key in [
        "MAKE",
        "PERL5LIB",
        "PERLLIB",
        "PERL_LOCAL_LIB_ROOT",
        "PERL_MB_OPT",
        "PERL_MM_OPT",
    ] {
        assert_eq!(env[key], None, "{key} should be unset");
    }
}

#[test]
fn make_command_errors_without_make() {
    let perl = bare();
    assert!(perl.make_command().is_err());
    assert!(perl
        .execute_make(vec![b"all".to_vec()])
        .unwrap_err()
        .message()
        .contains("make"));
}

#[test]
fn commands_name_their_program() {
    let perl = bare().with_make(path("/usr/bin/gmake"));
    assert_eq!(perl.perl_command().program.bytes, b"/usr/bin/perl");
    let cmd = perl.make_command().unwrap();
    assert_eq!(cmd.program.bytes, b"/usr/bin/gmake");
    assert!(cmd.args.is_empty());
    let run = perl.execute_make(vec![b"install".to_vec(), b"-j".to_vec()]).unwrap();
    assert_eq!(run.command.args, vec![b"install".to_vec(), b"-j".to_vec()]);
    assert_eq!(run.program.bytes, b"/usr/bin/gmake");
    assert_eq!(run.command.env, cmd.env);
}

#[test]
fn capture_output_is_off_by_default() {
    let perl = perl_at("/usr/bin/perl");
    assert!(!perl.capture_output);
    assert_eq!(perl.execute_perl(vec![]).stage, Stage::Run);
    let perl = perl.with_capture_output(true);
    assert!(perl.capture_output);
    assert_eq!(perl.execute_perl(vec![]).stage, Stage::Pipe);
    assert!(!perl.with_capture_output(false).capture_output);
}

#[test]
fn with_current_dir_sets_the_command_working_directory() {
    let plain = perl_at("/usr/bin/perl").perl_command();
    assert_eq!(plain.current_dir, None);

    let perl = perl_at("/usr/bin/perl").with_current_dir(path("/tmp/build"));
    assert_eq!(perl.perl_command().current_dir, Some(path("/tmp/build")));
    let perl = perl.with_make(path("make"));
    assert_eq!(perl.make_command().unwrap().current_dir, Some(path("/tmp/build")));
}

#[test]
fn install_base_stays_off_perl5lib() {
    let perl = bare().with_lib(paths(&["/a"]));
    let based = perl.clone().with_install_base(path("/opt/pl"));
    assert_eq!(perl.perl5lib(), based.perl5lib());
    assert_eq!(env_of(&based.perl_command())["PERL5LIB"], value("/a"));
}
