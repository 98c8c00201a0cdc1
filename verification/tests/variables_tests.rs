use scallop::variables;
use scallop::variables::ScopedVariable;
use scallop::variables::Variable;
use scallop::Error;
use scallop::Shell;

fn strs(xs: &[&str]) -> Vec<String> {
    xs.iter().map(|s| s.to_string()).collect()
}

#[test]
fn bind_read_unbind_cycle() {
    let mut sh = Shell::init();
    variables::bind(&mut sh, "VAR", "1", None, None).unwrap();
    assert_eq!(variables::string_value(&sh, "VAR"), Some("1".to_string()));
    variables::unbind(&mut sh, "VAR").unwrap();
    assert_eq!(variables::string_value(&sh, "VAR"), None);
    // unbinding an already-unbound variable is not an error
    variables::unbind(&mut sh, "VAR").unwrap();
    assert_eq!(variables::string_value(&sh, "VAR"), None);
}

#[test]
fn variable_handle_binds_and_appends() {
    let mut sh = Shell::init();
    let mut var = Variable::new("VAR");
    assert_eq!(var.string_value(&sh), None);
    var.bind(&mut sh, "", None, None).unwrap();
    assert_eq!(var.string_value(&sh).unwrap(), "");
    var.bind(&mut sh, "1", None, None).unwrap();
    assert_eq!(var.string_value(&sh).unwrap(), "1");
    var.append(&mut sh, "2").unwrap();
    assert_eq!(var.string_value(&sh).unwrap(), "12");
    var.append(&mut sh, " 3").unwrap();
    assert_eq!(var.string_value(&sh).unwrap(), "12 3");
    var.unbind(&mut sh).unwrap();
    assert_eq!(var.string_value(&sh), None);
}

#[test]
fn readonly_variables_reject_changes() {
    let mut sh = Shell::init();
    variables::bind(&mut sh, "VAR", "1", None, Some(variables::ATT_READONLY)).unwrap();
    assert_eq!(variables::string_value(&sh, "VAR").unwrap(), "1");
    let err = variables::bind(&mut sh, "VAR", "2", None, None).unwrap_err();
    assert_eq!(err.message(), "VAR: readonly variable");
    let err = variables::unbind(&mut sh, "VAR").unwrap_err();
    assert_eq!(err.message(), "VAR: cannot unset: readonly variable");
    // the binding survived both rejected changes
    assert_eq!(variables::string_value(&sh, "VAR").unwrap(), "1");
}

#[test]
fn string_vec_splits_fields() {
    let mut sh = Shell::init();
    match variables::string_vec(&sh, "VAR") {
        Err(Error::Base(m)) => assert_eq!(m, "undefined variable: VAR"),
        other => panic!("expected an undefined-variable error, got {other:?}"),
    }
    variables::bind(&mut sh, "VAR", "", None, None).unwrap();
    assert_eq!(variables::string_vec(&sh, "VAR").unwrap(), strs(&[]));
    variables::bind(&mut sh, "VAR", "a", None, None).unwrap();
    assert_eq!(variables::string_vec(&sh, "VAR").unwrap(), strs(&["a"]));
    variables::bind(&mut sh, "VAR", "1 2 3", None, None).unwrap();
    assert_eq!(variables::string_vec(&sh, "VAR").unwrap(), strs(&["1", "2", "3"]));
    variables::bind(&mut sh, "VAR", "  a  b ", None, None).unwrap();
    assert_eq!(variables::string_vec(&sh, "VAR").unwrap(), strs(&["a", "b"]));
}

#[test]
fn arrays_read_back_their_elements() {
    let mut sh = Shell::init();
    match variables::array_to_vec(&sh, "ARR") {
        Err(Error::Base(m)) => assert_eq!(m, "undefined variable: ARR"),
        other => panic!("expected an undefined-variable error, got {other:?}"),
    }
    variables::bind(&mut sh, "SCALAR", "x", None, None).unwrap();
    match variables::array_to_vec(&sh, "SCALAR") {
        Err(Error::Base(m)) => assert_eq!(m, "variable is not an array: SCALAR"),
        other => panic!("expected a not-an-array error, got {other:?}"),
    }
    variables::bind_array(&mut sh, "ARR", &strs(&["x", "y z", ""])).unwrap();
    assert_eq!(variables::array_to_vec(&sh, "ARR").unwrap(), strs(&["x", "y z", ""]));
    // var_to_vec picks the array branch for arrays, the split branch else
    assert_eq!(variables::var_to_vec(&sh, "ARR").unwrap(), strs(&["x", "y z", ""]));
    variables::bind(&mut sh, "VAR", "1 2", None, None).unwrap();
    assert_eq!(variables::var_to_vec(&sh, "VAR").unwrap(), strs(&["1", "2"]));
}

#[test]
fn scoped_variable_restores_original_value() {
    let mut sh = Shell::init();
    variables::bind(&mut sh, "VAR", "outer", None, None).unwrap();
    assert_eq!(variables::string_value(&sh, "VAR").unwrap(), "outer");
    {
        let mut var = ScopedVariable::new(&sh, "VAR");
        var.bind(&mut sh, "inner", None, None).unwrap();
        assert_eq!(var.string_value(&sh).unwrap(), "inner");
        var.restore(&mut sh);
    }
    assert_eq!(variables::string_value(&sh, "VAR").unwrap(), "outer");
}

#[test]
fn scoped_variable_unbinds_originally_unbound_names() {
    let mut sh = Shell::init();
    let var = ScopedVariable::new(&sh, "VAR");
    variables::bind(&mut sh, "VAR", "temporary", None, None).unwrap();
    assert_eq!(variables::string_value(&sh, "VAR").unwrap(), "temporary");
    var.restore(&mut sh);
    assert_eq!(variables::string_value(&sh, "VAR"), None);
}

#[test]
fn attribute_queries_follow_the_binding() {
    let mut sh = Shell::init();
    let var = Variable::new("VAR");
    assert!(!var.is_readonly(&sh));
    assert!(!var.is_array(&sh));
    variables::bind(&mut sh, "VAR", "1", None, Some(variables::ATT_READONLY)).unwrap();
    assert!(var.is_readonly(&sh));
    variables::bind_array(&mut sh, "ARR", &strs(&["a"])).unwrap();
    assert!(Variable::new("ARR").is_array(&sh));
}
