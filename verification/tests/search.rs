use perl_wrapper::module_name::module_relative_path;
use perl_wrapper::search::push_unique;
use perl_wrapper::{
    Answer, ExecuteResult, ExitStatus, FilePath, ListSeparator, Module, ModuleSearch, Perl,
};

fn path(s: &str) -> FilePath {
    FilePath::new(s)
}

fn broken_perl() -> Perl {
    Perl::unconfigured(path("/nonexistent/perl"), None, ListSeparator::Colon)
}

fn report(output: &str) -> Option<ExecuteResult> {
    Some(ExecuteResult::new(
        ExitStatus::Exited(0),
        Some(output.as_bytes().to_vec()),
    ))
}

/// Looks a module up in a file system that holds `files`, with an interpreter that
/// prints `outcome`; gives the result and how often the interpreter was run.
fn look_up(
    perl: &mut Perl,
    name: &str,
    files: &[(&str, &str)],
    outcome: Option<ExecuteResult>,
) -> (Option<Module>, usize) {
    let mut outcome = outcome;
    let mut runs: usize = 0;
    let mut search = perl.module(name);
    loop {
        let answer = match &search {
            ModuleSearch::Query { .. } => {
                runs += 1;
                Answer::Ran(outcome.take())
            }
            ModuleSearch::Probe { candidate, .. } => {
                Answer::IsFile(files.iter().any(|file| path(file.0) == *candidate))
            }
            ModuleSearch::Resolve { candidate, .. } => {
                let real = files.iter().find(|file| path(file.0) == *candidate);
                Answer::Canonical(real.map(|file| path(file.0)))
            }
            ModuleSearch::Read { path: wanted, .. } => {
                let file = files.iter().find(|file| path(file.0) == *wanted);
                Answer::Contents(file.map(|file| file.1.as_bytes().to_vec()))
            }
            ModuleSearch::Done(_) => break,
        };
        search = perl.search_step(search, answer);
    }
    match search {
        ModuleSearch::Done(module) => (module, runs),
        _ => unreachable!(),
    }
}

#[test]
fn module_relative_path_maps_and_validates_names() {
    assert_eq!(module_relative_path("Foo::Bar"), Some(path("Foo/Bar.pm")));
    assert_eq!(module_relative_path("Foo"), Some(path("Foo.pm")));
    assert_eq!(
        module_relative_path("Foo::Bar::Baz"),
        Some(path("Foo/Bar/Baz.pm"))
    );

    for bad in [
        "",
        "Foo::",
        "::Foo",
        "Foo:::Bar",
        "Foo::1Bar",
        "Foo Bar",
        "Foo::Bar-Baz",
    ] {
        assert_eq!(module_relative_path(bad), None, "{bad:?} should be rejected");
    }
}

#[test]
fn names_are_ascii_identifiers() {
    assert_eq!(module_relative_path("_x::Y9").unwrap().bytes, b"_x/Y9.pm");
    for bad in ["9", "a:b", "a:::", "::", "a::::b", "\u{e9}", "a/b", "a.b", "a'b"] {
        assert_eq!(module_relative_path(bad), None, "{bad:?} should be rejected");
    }
}

#[test]
fn module_finds_file_and_version_via_lib() {
    let files = [(
        "/scratch/lib/My/Thing.pm",
        "package My::Thing;\nour $VERSION = '3.14';\n1;\n",
    )];
    let mut perl = broken_perl().with_lib(vec![path("/scratch/lib")]);

    let found = look_up(&mut perl, "My::Thing", &files, None).0.expect("module found");
    assert_eq!(found.name, "My::Thing");
    assert_eq!(found.version.as_deref(), Some("3.14"));
    assert_eq!(found.path, path("/scratch/lib/My/Thing.pm"));

    assert!(look_up(&mut perl, "My::Missing", &files, None).0.is_none());
    assert!(look_up(&mut perl, "not a module name", &files, None).0.is_none());
}

#[test]
fn module_reports_none_version_when_source_declares_none() {
    let files = [(
        "/scratch/nover/My/Plain.pm",
        "package My::Plain;\nsub new { bless {}, shift }\n1;\n",
    )];
    let mut perl = broken_perl().with_lib(vec![path("/scratch/nover")]);

    let found = look_up(&mut perl, "My::Plain", &files, None).0.expect("module found");
    assert_eq!(found.version, None);
}

#[test]
fn module_searches_install_base_layout() {
    let files = [(
        "/scratch/base/lib/perl5/My/Installed.pm",
        "package My::Installed;\nour $VERSION = '0.02';\n1;\n",
    )];
    let mut perl = broken_perl().with_install_base(path("/scratch/base"));
    let found = look_up(&mut perl, "My::Installed", &files, None).0.expect("module found");
    assert_eq!(found.version.as_deref(), Some("0.02"));
}

#[test]
fn module_finds_core_module_through_real_inc() {
    let files = [(
        "/usr/share/perl/5.36/strict.pm",
        "package strict;\n\n$strict::VERSION = \"1.12\";\n",
    )];
    let printed = "archname\tx86_64-linux\ninc\t/etc/perl\ninc\t/usr/share/perl/5.36\n";
    let mut perl = Perl::with_perl(path("/usr/bin/perl"));

    let strict = look_up(&mut perl, "strict", &files, report(printed)).0;
    let strict = strict.expect("strict is always installed");
    assert_eq!(strict.name, "strict");
    assert!(strict.path.bytes.starts_with(b"/"));
    assert!(strict.path.bytes.ends_with(b"/strict.pm"), "{:?}", strict.path);
    assert!(strict.version.is_some(), "{:?}", strict.version);

    let missing = "No::Such::Module::From::This::Test";
    assert!(look_up(&mut perl, missing, &files, None).0.is_none());
}

#[test]
fn the_interpreter_is_asked_once_and_only_for_valid_names() {
    let printed = "inc\t/usr/lib\n";
    let files = [("/usr/lib/A.pm", "")];
    let mut perl = broken_perl();
    assert_eq!(look_up(&mut perl, "not valid", &files, report(printed)), (None, 0));
    assert!(perl.query_interpreter_config().is_some());
    let (found, runs) = look_up(&mut perl, "A", &files, report(printed));
    assert_eq!((found.is_some(), runs), (true, 1));
    let (found, runs) = look_up(&mut perl, "A", &files, None);
    assert_eq!((found.is_some(), runs), (true, 0));
    assert_eq!(perl.inc(None), vec![path("/usr/lib")].as_slice());
}

#[test]
fn the_first_file_on_the_search_path_wins() {
    let printed = "archname\tarch\ninc\t/inc\n";
    let files = [
        ("/inc/M.pm", "$VERSION = 4"),
        ("/base/lib/perl5/M.pm", "$VERSION = 3"),
        ("/base/lib/perl5/arch/M.pm", "$VERSION = 2"),
        ("/lib/M.pm", "$VERSION = 1"),
    ];
    for first in 0..files.len() {
        let left = &files[..files.len() - first];
        let mut perl = broken_perl()
            .with_lib(vec![path("/lib")])
            .with_install_base(path("/base"));
        let (found, _) = look_up(&mut perl, "M", left, report(printed));
        assert_eq!(found.unwrap().version.unwrap(), (first + 1).to_string());
    }
}

#[test]
fn unreadable_files_have_no_version_and_unresolved_ones_keep_their_path() {
    let mut perl = broken_perl().with_lib(vec![path("rel//lib/")]);
    let search = perl.module("M");
    let search = perl.search_step(search, Answer::Ran(None));
    let search = perl.search_step(search, Answer::IsFile(true));
    let search = perl.search_step(search, Answer::Canonical(None));
    let search = perl.search_step(search, Answer::Contents(None));
    let ModuleSearch::Done(Some(module)) = search else {
        panic!("not found");
    };
    assert_eq!(module.path.bytes, b"rel//lib/M.pm");
    assert_eq!(module.version, None);
}

#[test]
fn sources_are_decoded_with_replacements() {
    let mut perl = broken_perl().with_lib(vec![path("/l")]);
    let search = perl.module("M");
    let search = perl.search_step(search, Answer::Ran(None));
    let search = perl.search_step(search, Answer::IsFile(true));
    let search = perl.search_step(search, Answer::Canonical(Some(path("/real/M.pm"))));
    let source = b"# \xff\n$VERSION = '1.5\xfe';".to_vec();
    let search = perl.search_step(search, Answer::Contents(Some(source)));
    let ModuleSearch::Done(Some(module)) = search else {
        panic!("not found");
    };
    assert_eq!(module.path.bytes, b"/real/M.pm");
    assert_eq!(module.version.as_deref(), Some("1.5\u{fffd}"));
}

#[test]
fn answers_to_other_questions_change_nothing() {
    let mut perl = broken_perl().with_lib(vec![path("/l")]);
    let search = perl.module("M");
    let search = perl.search_step(search, Answer::IsFile(true));
    assert!(matches!(search, ModuleSearch::Query { .. }));
    let search = perl.search_step(search, Answer::Ran(None));
    let search = perl.search_step(search, Answer::Ran(report("inc\t/x\n")));
    assert!(matches!(search, ModuleSearch::Probe { .. }));
    assert!(perl.inc(None).is_empty());
    let search = perl.search_step(search, Answer::IsFile(false));
    assert_eq!(search, ModuleSearch::Done(None));
}

#[test]
fn search_paths_have_no_repeats_and_no_empty_entries() {
    let mut dirs: Vec<FilePath> = Vec::new();
    for dir in ["/a", "", "/a/", "/b", "//a", "b", "./b", "/b/."] {
        push_unique(&mut dirs, path(dir));
    }
    let kept: Vec<Vec<u8>> = dirs.into_iter().map(|dir| dir.bytes).collect();
    assert_eq!(kept, [&b"/a"[..], b"/b", b"b", b"./b"]);

    let mut perl = broken_perl()
        .with_lib(vec![path("/l"), path("/base/lib/perl5/")])
        .with_install_base(path("/base"));
    let dirs = perl.module_search_path(report("archname\tx\ninc\t/l\ninc\t/i\n"));
    let dirs: Vec<Vec<u8>> = dirs.into_iter().map(|dir| dir.bytes).collect();
    assert_eq!(
        dirs,
        [&b"/l"[..], b"/base/lib/perl5/", b"/base/lib/perl5/x", b"/i"]
    );
}

#[test]
fn an_absolute_architecture_name_replaces_the_layout() {
    let mut perl = broken_perl().with_install_base(path("/base"));
    let dirs = perl.module_search_path(report("archname\t/abs\n"));
    assert_eq!(dirs, vec![path("/abs"), path("/base/lib/perl5")]);
}

#[test]
fn modules_have_distinct_files_below_the_directory() {
    let names = ["A", "B", "A::B", "A::B::C", "AB", "A_B", "A::B_C"];
    for a in names {
        let file = module_relative_path(a).unwrap();
        let below = path("/dir").join(&file);
        assert!(below.bytes.starts_with(b"/dir/"));
        assert_eq!(below.bytes.split(|b| *b == b'/').count(), 2 + a.split("::").count());
        for b in names {
            assert_eq!(a == b, file == module_relative_path(b).unwrap());
        }
    }
}
