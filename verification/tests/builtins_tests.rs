use scallop::builtins;
use scallop::builtins::has::has;
use scallop::builtins::Builtin;
use scallop::builtins::NativeBuiltin;
use scallop::builtins::Registry;
use scallop::builtins::ScopedBuiltins;
use scallop::traits::words_from_strs;
use scallop::Error;
use scallop::ExecStatus;
use scallop::Shell;

fn strs(xs: &[&str]) -> Vec<String> {
    xs.iter().map(|s| s.to_string()).collect()
}

#[test]
fn toggle_status() {
    let mut sh = Shell::init();
    // select a builtin to toggle
    let (enabled, disabled) = builtins::shell_builtins(&sh);
    assert!(!enabled.is_empty());
    let builtin = enabled.iter().next().unwrap().clone();
    assert!(!disabled.contains(&builtin));

    // disable the builtin
    builtins::disable(&mut sh, &vec![builtin.clone()]).unwrap();
    let (enabled, disabled) = builtins::shell_builtins(&sh);
    assert!(!enabled.contains(&builtin));
    assert!(disabled.contains(&builtin));

    // enable the builtin
    builtins::enable(&mut sh, &vec![builtin.clone()]).unwrap();
    let (enabled, disabled) = builtins::shell_builtins(&sh);
    assert!(enabled.contains(&builtin));
    assert!(!disabled.contains(&builtin));
}

#[test]
fn toggle_unknown_builtins_reported_in_batch() {
    let mut sh = Shell::init();
    let err = builtins::disable(&mut sh, &strs(&["echo", "nope1", "nope2"])).unwrap_err();
    assert_eq!(err.message(), "unknown builtins: nope1, nope2");
    // the known name was still toggled
    let (_, disabled) = builtins::shell_builtins(&sh);
    assert!(disabled.contains(&"echo".to_string()));
}

#[test]
fn scoped_builtins_revert_on_release() {
    let mut sh = Shell::init();
    let guard = ScopedBuiltins::new(&mut sh, &strs(&[]), &strs(&["echo", "eval"])).unwrap();
    let (enabled, disabled) = builtins::shell_builtins(&sh);
    assert!(!enabled.contains(&"echo".to_string()));
    assert!(disabled.contains(&"eval".to_string()));
    guard.restore(&mut sh);
    let (enabled, disabled) = builtins::shell_builtins(&sh);
    assert!(enabled.contains(&"echo".to_string()));
    assert!(!disabled.contains(&"eval".to_string()));
}

#[test]
fn has_reports_membership() {
    assert_eq!(has(&strs(&["b", "a", "b", "c"])).unwrap(), ExecStatus::Success);
    assert_eq!(has(&strs(&["z", "a", "b", "c"])).unwrap(), ExecStatus::Failure(1));
    // the needle itself is not part of the haystack
    assert_eq!(has(&strs(&["b"])).unwrap(), ExecStatus::Failure(1));
    match has(&strs(&[])) {
        Err(Error::Builtin(m)) => assert_eq!(m, "requires 1 or more args"),
        other => panic!("expected a usage error, got {other:?}"),
    }
}

#[test]
fn has_invocation_through_trampoline() {
    let mut sh = Shell::init();
    let mut reg: Registry<NativeBuiltin> = Registry::new();
    let b = Builtin {
        name: "has".to_string(),
        func: NativeBuiltin::Has,
        help: "Returns success if the first argument is found in the list of\nsubsequent arguments.".to_string(),
        usage: "has needle arg1 arg2".to_string(),
    };
    builtins::register(&mut sh, &mut reg, vec![b]);
    // registration made the builtin visible in the interpreter's table
    let (enabled, _) = builtins::shell_builtins(&sh);
    assert!(enabled.contains(&"has".to_string()));

    // a real invocation: the interpreter sets the current command and calls
    // the trampoline with the marshaled words
    sh.set_current_command(&"has".to_string());
    let code = builtins::run_builtin(&mut sh, &reg, words_from_strs(&strs(&["b", "a", "b", "c"]), false));
    assert_eq!(code, 0);
    let code = builtins::run_builtin(&mut sh, &reg, words_from_strs(&strs(&["z", "a", "b", "c"]), false));
    assert_eq!(code, 1);
}

#[test]
fn trampoline_writes_diagnostic_for_builtin_errors() {
    let mut sh = Shell::init();
    let mut reg: Registry<NativeBuiltin> = Registry::new();
    let b = Builtin {
        name: "has".to_string(),
        func: NativeBuiltin::Has,
        help: "h".to_string(),
        usage: "u".to_string(),
    };
    builtins::register(&mut sh, &mut reg, vec![b]);
    sh.set_current_command(&"has".to_string());
    let code = builtins::run_builtin(&mut sh, &reg, words_from_strs(&strs(&[]), false));
    assert_eq!(code, 1);
    assert_eq!(sh.diag.last().unwrap(), "has: error: requires 1 or more args");
}

#[test]
fn dispatch_resolves_registered_builtin() {
    let mut sh = Shell::init();
    let mut reg: Registry<NativeBuiltin> = Registry::new();
    let b = Builtin {
        name: "has".to_string(),
        func: NativeBuiltin::Has,
        help: "h".to_string(),
        usage: "u".to_string(),
    };
    builtins::register(&mut sh, &mut reg, vec![b]);
    sh.set_current_command(&"has".to_string());
    let found = builtins::running_builtin(&sh, &reg).expect("registered name must resolve");
    assert_eq!(found.name, "has");
    // an unregistered current command resolves to nothing
    sh.set_current_command(&"other".to_string());
    assert!(builtins::running_builtin(&sh, &reg).is_none());
}

#[test]
fn descriptor_mirrors_builtin() {
    let b: Builtin<NativeBuiltin> = Builtin {
        name: "has".to_string(),
        func: NativeBuiltin::Has,
        help: "line one\nline two".to_string(),
        usage: "has needle args".to_string(),
    };
    let d = b.to_descriptor();
    assert_eq!(d.name, "has");
    assert_eq!(d.short_doc, "has needle args");
    assert_eq!(d.long_doc, vec!["line one".to_string(), "line two".to_string()]);
    assert!(d.has_function);
    assert_eq!(d.flags & builtins::BUILTIN_ENABLED, builtins::BUILTIN_ENABLED);
}

#[test]
fn command_not_found_handle_reports_command_line() {
    let err = builtins::command_not_found_handle::run(&strs(&["frob", "-x", "file"])).unwrap_err();
    assert_eq!(err.message(), "unknown command \"frob\" when executing: frob -x file");
}

#[test]
fn exec_status_integer_mapping() {
    assert_eq!(i32::from(ExecStatus::Success), scallop::EXECUTION_SUCCESS);
    assert_eq!(i32::from(ExecStatus::Failure(7)), 7);
    assert_eq!(i32::from(ExecStatus::Error), scallop::EX_LONGJMP);
    assert_eq!(ExecStatus::from(0), ExecStatus::Success);
    assert_eq!(ExecStatus::from(3), ExecStatus::Failure(3));
    assert_eq!(ExecStatus::from(true), ExecStatus::Success);
    assert_eq!(ExecStatus::from(false), ExecStatus::Failure(1));
    assert!(bool::from(&ExecStatus::Success));
    assert!(!bool::from(&ExecStatus::Failure(0)));
    assert!(!bool::from(&ExecStatus::Error));
}

#[test]
fn error_variants_carry_their_messages() {
    assert_eq!(Error::new("plain").message(), "plain");
    assert_eq!(Error::Builtin("bad args".to_string()).message(), "bad args");
    assert_eq!(Error::Bail("stop".to_string()).message(), "stop");
    assert_eq!(Error::IO(2, "no such file".to_string()).message(), "no such file");
}

#[test]
fn update_run_map_replaces_same_name() {
    let mut reg: Registry<NativeBuiltin> = Registry::new();
    let entry = |usage: &str| Builtin {
        name: "has".to_string(),
        func: NativeBuiltin::Has,
        help: "h".to_string(),
        usage: usage.to_string(),
    };
    builtins::update_run_map(&mut reg, vec![entry("first")]);
    builtins::update_run_map(&mut reg, vec![entry("second")]);
    assert_eq!(reg.entries.len(), 1);
    assert_eq!(reg.entries[0].usage, "second");
}

#[test]
fn clearing_the_current_command_stops_dispatch() {
    let mut sh = Shell::init();
    let mut reg: Registry<NativeBuiltin> = Registry::new();
    builtins::update_run_map(
        &mut reg,
        vec![Builtin {
            name: "has".to_string(),
            func: NativeBuiltin::Has,
            help: "h".to_string(),
            usage: "u".to_string(),
        }],
    );
    sh.set_current_command(&"has".to_string());
    assert!(builtins::running_builtin(&sh, &reg).is_some());
    sh.clear_current_command();
    assert!(builtins::running_builtin(&sh, &reg).is_none());
}

#[test]
fn register_accepts_further_batches() {
    let mut sh = Shell::init();
    let mut reg: Registry<NativeBuiltin> = Registry::new();
    let entry = |name: &str| Builtin {
        name: name.to_string(),
        func: NativeBuiltin::Has,
        help: "h".to_string(),
        usage: "u".to_string(),
    };
    builtins::register(&mut sh, &mut reg, vec![entry("has")]);
    builtins::register(&mut sh, &mut reg, vec![entry("contains")]);
    let (enabled, _) = builtins::shell_builtins(&sh);
    assert!(enabled.contains(&"has".to_string()));
    assert!(enabled.contains(&"contains".to_string()));
    sh.set_current_command(&"contains".to_string());
    assert!(builtins::running_builtin(&sh, &reg).is_some());
    sh.set_current_command(&"has".to_string());
    assert!(builtins::running_builtin(&sh, &reg).is_some());
}

#[test]
fn hasv_prints_the_found_needle() {
    let mut sh = Shell::init();
    let mut reg: Registry<NativeBuiltin> = Registry::new();
    builtins::register(
        &mut sh,
        &mut reg,
        vec![Builtin {
            name: "hasv".to_string(),
            func: NativeBuiltin::Hasv,
            help: "h".to_string(),
            usage: "u".to_string(),
        }],
    );
    sh.set_current_command(&"hasv".to_string());
    let code = builtins::run_builtin(&mut sh, &reg, words_from_strs(&strs(&["b", "a", "b"]), false));
    assert_eq!(code, 0);
    assert_eq!(sh.out, strs(&["b"]));
    // nothing is printed when the needle is missing
    let code = builtins::run_builtin(&mut sh, &reg, words_from_strs(&strs(&["z", "a", "b"]), false));
    assert_eq!(code, 1);
    assert_eq!(sh.out, strs(&["b"]));
}

#[test]
fn version_builtins_read_shell_bindings() {
    let mut sh = Shell::init();
    let mut reg: Registry<NativeBuiltin> = Registry::new();
    let entry = |name: &str, func: NativeBuiltin| Builtin {
        name: name.to_string(),
        func,
        help: "h".to_string(),
        usage: "u".to_string(),
    };
    builtins::register(
        &mut sh,
        &mut reg,
        vec![
            entry("ver_test", NativeBuiltin::VerTest),
            entry("ver_cut", NativeBuiltin::VerCut),
            entry("ver_rs", NativeBuiltin::VerRs),
        ],
    );
    scallop::variables::bind(&mut sh, "PVR", "1.2.3-r1", None, None).unwrap();
    scallop::variables::bind(&mut sh, "PV", "1.2.3", None, None).unwrap();

    sh.set_current_command(&"ver_test".to_string());
    let code = builtins::run_builtin(&mut sh, &reg, words_from_strs(&strs(&["-lt", "1.2.4"]), false));
    assert_eq!(code, 0);

    sh.set_current_command(&"ver_cut".to_string());
    let code = builtins::run_builtin(&mut sh, &reg, words_from_strs(&strs(&["1-2"]), false));
    assert_eq!(code, 0);
    assert_eq!(sh.out.last().unwrap(), "1.2");

    sh.set_current_command(&"ver_rs".to_string());
    let code = builtins::run_builtin(&mut sh, &reg, words_from_strs(&strs(&["1", "-"]), false));
    assert_eq!(code, 0);
    assert_eq!(sh.out.last().unwrap(), "1-2.3");
}
