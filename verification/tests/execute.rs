use perl_wrapper::{
    Event, ExecuteResult, Execution, ExitStatus, FilePath, ListSeparator, Perl, PerlError, Stage,
};

fn perl() -> Perl {
    Perl::unconfigured(FilePath::new("/usr/bin/perl"), None, ListSeparator::Colon)
}

fn args(list: &[&str]) -> Vec<Vec<u8>> {
    list.iter().map(|s| s.as_bytes().to_vec()).collect()
}

fn finish(mut execution: Execution, events: Vec<Event>) -> Result<ExecuteResult, PerlError> {
    for event in events {
        execution = execution.step(event);
    }
    match execution.stage {
        Stage::Done(result) => result,
        stage => panic!("not done: {stage:?}"),
    }
}

fn captured(output: &[u8], code: i32) -> Vec<Event> {
    vec![
        Event::Ready,
        Event::Ready,
        Event::Ready,
        Event::Output(output.to_vec()),
        Event::Ended(ExitStatus::Exited(code)),
    ]
}

#[test]
fn execute_perl_reports_success_and_exit_code() {
    let run = perl().execute_perl(args(&["-e", "exit 0"]));
    assert_eq!(run.command.args, args(&["-e", "exit 0"]));
    let ok = finish(run, vec![Event::Ended(ExitStatus::Exited(0))]).unwrap();
    assert!(ok.is_success);
    assert_eq!(ok.code, Some(0));
    assert!(ok.output.is_none(), "output not captured by default");

    let run = perl().execute_perl(args(&["-e", "exit 3"]));
    let bad = finish(run, vec![Event::Ended(ExitStatus::Exited(3))]).unwrap();
    assert!(!bad.is_success);
    assert_eq!(bad.code, Some(3));
}

#[test]
fn execute_perl_captures_merged_output_when_enabled() {
    let perl = perl().with_capture_output(true);
    let script = r#"$| = 1; print "to stdout\n"; print STDERR "to stderr\n"; exit 7"#;
    let run = perl.execute_perl(args(&["-e", script]));
    assert_eq!(run.command.args, args(&["-e", script]));
    let result = finish(run, captured(b"to stdout\nto stderr\n", 7)).unwrap();

    assert!(!result.is_success);
    assert_eq!(result.code, Some(7));
    let output = result.output_lossy().expect("output captured");
    assert!(output.contains("to stdout"), "{output:?}");
    assert!(output.contains("to stderr"), "{output:?}");
}

#[test]
fn a_signal_is_neither_success_nor_a_code() {
    let run = perl().execute_perl(vec![]);
    let result = finish(run, vec![Event::Ended(ExitStatus::Signaled(9))]).unwrap();
    assert!(!result.is_success);
    assert_eq!(result.code, None);
    assert_eq!(result.status, ExitStatus::Signaled(9));
}

#[test]
fn invalid_output_is_replaced_when_decoded() {
    let status = ExitStatus::Exited(0);
    let result = ExecuteResult::new(status, Some(b"a\xffb\xe2\x82".to_vec()));
    assert_eq!(result.output_lossy().unwrap(), "a\u{fffd}b\u{fffd}");
    let result = ExecuteResult::new(status, Some("p\u{e9}rl".as_bytes().to_vec()));
    assert_eq!(result.output_lossy().unwrap(), "p\u{e9}rl");
    assert!(ExecuteResult::new(status, None).output_lossy().is_none());
}

#[test]
fn every_operation_fails_with_its_own_error() {
    let failing = |ready: usize| {
        let mut events: Vec<Event> = Vec::new();
        for event in captured(b"", 0) {
            if events.len() < ready {
                events.push(event);
            }
        }
        events.push(Event::Failed);
        let run = perl().with_capture_output(true).execute_perl(vec![]);
        finish(run, events).unwrap_err()
    };
    let cases = [
        (PerlError::Pipe, "failed to create an output pipe"),
        (PerlError::Capture, "failed to set up output capture"),
        (
            PerlError::Run(FilePath::new("/usr/bin/perl")),
            "failed to run `/usr/bin/perl`",
        ),
        (PerlError::Read, "failed to read captured output"),
        (PerlError::Wait, "failed to wait for the child process"),
    ];
    for (ready, (error, message)) in cases.into_iter().enumerate() {
        assert_eq!(failing(ready), error);
        assert_eq!(failing(ready).message(), message);
    }
    let run = perl().execute_perl(vec![]);
    let error = finish(run, vec![Event::Failed]).unwrap_err();
    assert_eq!(error, PerlError::Run(FilePath::new("/usr/bin/perl")));
    assert_eq!(PerlError::NoMake.message(), "no `make` executable is available");
    let odd = PerlError::Run(FilePath::from_bytes(b"/\xff".to_vec()));
    assert_eq!(odd.message(), "failed to run `/\u{fffd}`");
}

#[test]
fn events_out_of_place_change_nothing() {
    let run = perl().with_capture_output(true).execute_perl(vec![]);
    let run = run.step(Event::Ended(ExitStatus::Exited(1)));
    assert_eq!(run.stage, Stage::Pipe);
    let run = run.step(Event::Output(vec![1]));
    assert_eq!(run.stage, Stage::Pipe);
    let run = run.step(Event::Failed).step(Event::Ready).step(Event::Failed);
    assert_eq!(run.stage, Stage::Done(Err(PerlError::Pipe)));
}
