use scallop::bash;
use scallop::builtins;
use scallop::builtins::ScopedOptions;
use scallop::Shell;

fn strs(xs: &[&str]) -> Vec<String> {
    xs.iter().map(|s| s.to_string()).collect()
}

#[test]
fn test_set_opts() {
    let mut sh = Shell::init();
    let noexec = "noexec".to_string();
    // noexec option exists
    assert!(bash::all_set_opts(&sh).contains(&noexec));
    // but isn't currently enabled
    assert!(!bash::set_opts(&sh).contains(&noexec));
    // enable it
    builtins::set::enable(&mut sh, &strs(&["noexec"])).unwrap();
    // and now it's currently enabled
    assert!(bash::set_opts(&sh).contains(&noexec));
    // disable it
    builtins::set::disable(&mut sh, &strs(&["noexec"])).unwrap();
    assert!(!bash::set_opts(&sh).contains(&noexec));
}

#[test]
fn test_shopt_opts() {
    let mut sh = Shell::init();
    let autocd = "autocd".to_string();
    // autocd option exists
    assert!(bash::all_shopt_opts(&sh).contains(&autocd));
    // but isn't currently enabled
    assert!(!bash::shopt_opts(&sh).contains(&autocd));
    // enable it
    builtins::shopt::enable(&mut sh, &strs(&["autocd"])).unwrap();
    // and now it's currently enabled
    assert!(bash::shopt_opts(&sh).contains(&autocd));
    // disable it
    builtins::shopt::disable(&mut sh, &strs(&["autocd"])).unwrap();
    assert!(!bash::shopt_opts(&sh).contains(&autocd));
}

#[test]
fn scoped_options() {
    let mut sh = Shell::init();
    let set = "autocd".to_string();
    let unset = "sourcepath".to_string();

    assert!(!bash::shopt_opts(&sh).contains(&set));
    assert!(bash::shopt_opts(&sh).contains(&unset));
    {
        let mut opts = ScopedOptions::default();
        opts.enable(&mut sh, &strs(&["autocd"])).unwrap();
        opts.disable(&mut sh, &strs(&["sourcepath"])).unwrap();
        assert!(bash::shopt_opts(&sh).contains(&set));
        assert!(!bash::shopt_opts(&sh).contains(&unset));
        opts.restore(&mut sh);
    }
    assert!(!bash::shopt_opts(&sh).contains(&set));
    assert!(bash::shopt_opts(&sh).contains(&unset));

    // toggle options in separate scope from ScopedOptions creation
    {
        let mut opts = ScopedOptions::default();
        // options aren't toggled
        assert!(!bash::shopt_opts(&sh).contains(&set));
        assert!(bash::shopt_opts(&sh).contains(&unset));
        {
            opts.enable(&mut sh, &strs(&["autocd"])).unwrap();
            opts.disable(&mut sh, &strs(&["sourcepath"])).unwrap();
            // options are toggled
            assert!(bash::shopt_opts(&sh).contains(&set));
            assert!(!bash::shopt_opts(&sh).contains(&unset));
        }
        // options are still toggled
        assert!(bash::shopt_opts(&sh).contains(&set));
        assert!(!bash::shopt_opts(&sh).contains(&unset));
        opts.restore(&mut sh);
    }
    // options have been reverted
    assert!(!bash::shopt_opts(&sh).contains(&set));
    assert!(bash::shopt_opts(&sh).contains(&unset));
}

#[test]
fn scoped_options_reject_only_unknown_names() {
    let mut sh = Shell::init();
    let mut opts = ScopedOptions::default();
    // a name no option table holds is a batch error
    let err = opts.enable(&mut sh, &strs(&["nosuchopt"])).unwrap_err();
    assert_eq!(err.message(), "unknown options: nosuchopt");
    // enabling an already-enabled valid name is a silent no-op: no error,
    // no recorded delta, and the option stays enabled
    opts.enable(&mut sh, &strs(&["sourcepath"])).unwrap();
    assert!(opts.shopt_enabled.is_empty());
    assert!(bash::shopt_opts(&sh).contains(&"sourcepath".to_string()));
    // disabling an already-disabled valid name is the same silent no-op
    opts.disable(&mut sh, &strs(&["autocd"])).unwrap();
    assert!(opts.shopt_disabled.is_empty());
    assert!(!bash::shopt_opts(&sh).contains(&"autocd".to_string()));
    // the release reverts nothing, because nothing was recorded
    opts.restore(&mut sh);
    assert!(bash::shopt_opts(&sh).contains(&"sourcepath".to_string()));
    assert!(!bash::shopt_opts(&sh).contains(&"autocd".to_string()));
}

#[test]
fn nested_scoped_options_revert_innermost_first_set_table() {
    let mut sh = Shell::init();
    let o = "noexec".to_string();
    assert!(!bash::set_opts(&sh).contains(&o));
    let mut outer = ScopedOptions::default();
    outer.enable(&mut sh, &strs(&["noexec"])).unwrap();
    assert!(bash::set_opts(&sh).contains(&o));
    let mut inner = ScopedOptions::default();
    inner.disable(&mut sh, &strs(&["noexec"])).unwrap();
    assert!(!bash::set_opts(&sh).contains(&o));
    inner.restore(&mut sh);
    assert!(bash::set_opts(&sh).contains(&o));
    outer.restore(&mut sh);
    assert!(!bash::set_opts(&sh).contains(&o));
}

#[test]
fn set_enable_stops_at_first_unknown() {
    let mut sh = Shell::init();
    let err = builtins::set::enable(&mut sh, &strs(&["noexec", "bogus", "xtrace"])).unwrap_err();
    assert_eq!(err.message(), "set: bogus: invalid option name");
    // the option before the unknown one was enabled, the one after was not
    assert!(bash::set_opts(&sh).contains(&"noexec".to_string()));
    assert!(!bash::set_opts(&sh).contains(&"xtrace".to_string()));
}

#[test]
fn nested_scoped_options_revert_innermost_first() {
    let mut sh = Shell::init();
    let o = "autocd".to_string();
    assert!(!bash::shopt_opts(&sh).contains(&o));
    let mut outer = ScopedOptions::default();
    outer.enable(&mut sh, &strs(&["autocd"])).unwrap();
    assert!(bash::shopt_opts(&sh).contains(&o));
    let mut inner = ScopedOptions::default();
    inner.disable(&mut sh, &strs(&["autocd"])).unwrap();
    assert!(!bash::shopt_opts(&sh).contains(&o));
    // innermost released first: the outer toggle is re-established
    inner.restore(&mut sh);
    assert!(bash::shopt_opts(&sh).contains(&o));
    // outer released: back to the pre-toggle membership
    outer.restore(&mut sh);
    assert!(!bash::shopt_opts(&sh).contains(&o));
}
