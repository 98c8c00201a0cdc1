use scallop::builtins;
use scallop::builtins::RaiseAction;
use scallop::error;
use scallop::shell;
use scallop::Error;
use scallop::ExecStatus;
use scallop::Shell;

#[test]
fn test_bash_version() {
    assert!(!shell::bash_version().is_empty());
}

#[test]
fn test_reset() {
    let mut sh = Shell::init();
    scallop::variables::bind(&mut sh, "VAR", "1", None, None).unwrap();
    assert_eq!(scallop::variables::string_value(&sh, "VAR").unwrap(), "1");
    sh.reset();
    assert_eq!(scallop::variables::string_value(&sh, "VAR"), None);
}

#[test]
fn subshell_level_counts_nesting() {
    let sh = Shell::init();
    assert!(!shell::in_subshell(&sh));
    assert_eq!(shell::subshell_level(&sh), 0);
    let child = sh.subshell();
    assert!(shell::in_subshell(&child));
    assert_eq!(shell::subshell_level(&child), 1);
    let grandchild = child.subshell();
    assert_eq!(shell::subshell_level(&grandchild), 2);
}

#[test]
fn error_channel_two_calls_only_second_raises() {
    let mut sh = Shell::init();
    // the first interpreter call raises nothing: success, no stale error
    assert!(matches!(error::ok_or_error(&mut sh), Ok(ExecStatus::Success)));
    // the second call raises an error through the interpreter's callback
    error::bash_error(&mut sh, &"scallop: something failed".to_string(), 0);
    match error::ok_or_error(&mut sh) {
        Err(Error::Base(m)) => assert_eq!(m, "something failed"),
        other => panic!("expected the second call's error, got {other:?}"),
    }
    // consumed exactly once
    assert!(matches!(error::ok_or_error(&mut sh), Ok(ExecStatus::Success)));
}

#[test]
fn error_callback_classifies_os_errors() {
    let mut sh = Shell::init();
    error::bash_error(&mut sh, &"read failed".to_string(), 5);
    match error::last_error(&mut sh) {
        Some(Error::IO(code, m)) => {
            assert_eq!(code, 5);
            assert_eq!(m, "read failed");
        },
        other => panic!("expected an OS-classified error, got {other:?}"),
    }
}

#[test]
fn error_callback_ignores_empty_messages() {
    let mut sh = Shell::init();
    error::bash_error(&mut sh, &"scallop: ".to_string(), 0);
    assert!(error::last_error(&mut sh).is_none());
}

#[test]
fn raise_error_in_main_process_unwinds() {
    let mut sh = Shell::init();
    let action = builtins::raise_error(&mut sh, "bad state");
    assert_eq!(action, RaiseAction::Unwind);
    // the deposited message comes back out of the channel
    match error::ok_or_error(&mut sh) {
        Err(Error::Base(m)) => assert_eq!(m, "bad state"),
        other => panic!("expected the raised error, got {other:?}"),
    }
}

#[test]
fn subshell_fatal_error_reaches_parent() {
    let parent = Shell::init();
    let mut child = parent.subshell();
    assert!(shell::in_subshell(&child));
    // the fatal path inside the forked child deposits the message and asks
    // for the distinguished exit, not a normal return
    let action = builtins::raise_error(&mut child, "fatal from subshell");
    match action {
        RaiseAction::SignalParentAndExit { exit_code } => {
            assert_eq!(exit_code, shell::FATAL_EXIT_CODE)
        },
        RaiseAction::Unwind => panic!("a subshell must not unwind in place"),
    }
    // the error slot is one shared segment: after waiting on the child the
    // parent sees the child's write
    let mut parent = parent;
    parent.shm = child.shm.clone();
    match error::last_error(&mut parent) {
        Some(e) => assert_eq!(e.message(), "fatal from subshell"),
        None => panic!("the parent must observe the subshell's error"),
    }
}

#[test]
fn shared_slot_messages_are_length_bounded() {
    let mut sh = Shell::init();
    let long = "x".repeat(shell::SHM_BUF_LEN + 100);
    builtins::raise_error(&mut sh, long.as_str());
    let e = error::last_error(&mut sh).unwrap();
    assert_eq!(e.message().chars().count(), shell::SHM_BUF_LEN - 1);
}

#[test]
fn warnings_only_reach_the_diagnostic_sink() {
    let mut sh = Shell::init();
    error::bash_warning(&mut sh, &"deprecated usage".to_string());
    assert_eq!(sh.diag.last().unwrap(), "deprecated usage");
    // a warning never enters the error channel
    assert!(matches!(error::ok_or_error(&mut sh), Ok(ExecStatus::Success)));
}

#[test]
fn source_results_prefer_channel_errors() {
    let mut sh = Shell::init();
    // a clean channel and a zero status succeed
    assert!(matches!(scallop::source::string_result(&mut sh, 0), Ok(ExecStatus::Success)));
    // a channel error outranks the returned status
    error::bash_error(&mut sh, &"scallop: local: can only be used in a function".to_string(), 0);
    match scallop::source::string_result(&mut sh, 0) {
        Err(Error::Base(m)) => assert_eq!(m, "local: can only be used in a function"),
        other => panic!("expected the channel's error, got {other:?}"),
    }
    // a nonzero status without a channel error fails plainly
    match scallop::source::string_result(&mut sh, 1) {
        Err(Error::Base(m)) => assert_eq!(m, "failed sourcing string"),
        other => panic!("expected a sourcing failure, got {other:?}"),
    }
    match scallop::source::file_result(&mut sh, "setup.sh", 1) {
        Err(Error::Base(m)) => assert_eq!(m, "failed sourcing: setup.sh"),
        other => panic!("expected a sourcing failure, got {other:?}"),
    }
}

#[test]
fn unconsumed_errors_are_overwritten() {
    let mut sh = Shell::init();
    error::bash_error(&mut sh, &"first failure".to_string(), 0);
    error::bash_error(&mut sh, &"second failure".to_string(), 0);
    // the stale first error was dropped at the overwrite
    assert_eq!(error::last_error(&mut sh).unwrap().message(), "second failure");
    assert!(error::last_error(&mut sh).is_none());
}
