use scallop::builtins::ver_cut::ver_cut;
use scallop::builtins::ver_rs::ver_rs;
use scallop::builtins::ver_test::ver_test;
use scallop::version::compare;
use scallop::version::Suffix;
use scallop::version::Version;
use scallop::Error;
use scallop::ExecStatus;

fn strs(xs: &[&str]) -> Vec<String> {
    xs.iter().map(|s| s.to_string()).collect()
}

#[test]
fn version_parse_reads_components_and_revision() {
    let v = Version::parse("1.2.3-r4").unwrap();
    assert_eq!(v.parts, vec![1, 2, 3]);
    assert_eq!(v.letter, None);
    assert!(v.suffixes.is_empty());
    assert_eq!(v.revision, 4);
    let v = Version::parse("10").unwrap();
    assert_eq!(v.parts, vec![10]);
    assert_eq!(v.revision, 0);
    assert!(Version::parse("").is_none());
    assert!(Version::parse("1..2").is_none());
    assert!(Version::parse("1.a").is_none());
    assert!(Version::parse("1-r").is_none());
    assert!(Version::parse("1-x3").is_none());
    assert!(Version::parse("1-r2-r3").is_none());
}

#[test]
fn version_parse_reads_letters_and_suffixes() {
    let v = Version::parse("1.0b").unwrap();
    assert_eq!(v.parts, vec![1, 0]);
    assert_eq!(v.letter, Some('b'));
    assert!(v.suffixes.is_empty());
    let v = Version::parse("1.0_alpha1").unwrap();
    assert_eq!(v.suffixes.len(), 1);
    assert_eq!(v.suffixes[0].kind, Suffix::Alpha);
    assert_eq!(v.suffixes[0].num, 1);
    let v = Version::parse("2.3c_pre10_p1-r2").unwrap();
    assert_eq!(v.parts, vec![2, 3]);
    assert_eq!(v.letter, Some('c'));
    assert_eq!(v.suffixes.len(), 2);
    assert_eq!(v.suffixes[0].kind, Suffix::Pre);
    assert_eq!(v.suffixes[0].num, 10);
    assert_eq!(v.suffixes[1].kind, Suffix::P);
    assert_eq!(v.suffixes[1].num, 1);
    assert_eq!(v.revision, 2);
    // a suffix tag must carry only digits behind it
    assert!(Version::parse("1.0_alphax").is_none());
    assert!(Version::parse("1.0_x1").is_none());
    assert!(Version::parse("1.0_").is_none());
    // a letter stands alone only behind digits
    assert!(Version::parse("b").is_none());
    assert!(Version::parse("1.ab").is_none());
}

#[test]
fn version_compare_orders_numerically() {
    let v = |s: &str| Version::parse(s).unwrap();
    assert_eq!(compare(&v("1"), &v("2")), -1);
    assert_eq!(compare(&v("2"), &v("1.9")), 1);
    assert_eq!(compare(&v("1.2"), &v("1.2")), 0);
    assert_eq!(compare(&v("1.2"), &v("1.2.0")), -1);
    assert_eq!(compare(&v("1.10"), &v("1.9")), 1);
    assert_eq!(compare(&v("1.2"), &v("1.2-r1")), -1);
    assert_eq!(compare(&v("1.2-r2"), &v("1.2-r1")), 1);
    assert_eq!(compare(&v("1.2-r1"), &v("1.2-r1")), 0);
}

#[test]
fn version_compare_orders_letters_and_suffixes() {
    let v = |s: &str| Version::parse(s).unwrap();
    // a bare version sorts before its lettered forms
    assert_eq!(compare(&v("1.0"), &v("1.0b")), -1);
    assert_eq!(compare(&v("1.0b"), &v("1.0c")), -1);
    assert_eq!(compare(&v("1.0b"), &v("1.0b")), 0);
    // the pre-release tags sort below the bare version, `p` above it
    assert_eq!(compare(&v("1.0_alpha"), &v("1.0_beta")), -1);
    assert_eq!(compare(&v("1.0_beta"), &v("1.0_pre")), -1);
    assert_eq!(compare(&v("1.0_pre"), &v("1.0_rc")), -1);
    assert_eq!(compare(&v("1.0_rc"), &v("1.0")), -1);
    assert_eq!(compare(&v("1.0"), &v("1.0_p1")), -1);
    // equal tags compare by their numbers, absent counting as zero
    assert_eq!(compare(&v("1.0_alpha1"), &v("1.0_alpha2")), -1);
    assert_eq!(compare(&v("1.0_alpha"), &v("1.0_alpha0")), 0);
    // a chain that runs out sorts below a continuing `p`
    assert_eq!(compare(&v("1.0_alpha1"), &v("1.0_alpha1_p1")), -1);
    // the revision still breaks the remaining ties
    assert_eq!(compare(&v("1.0_p1"), &v("1.0_p1-r1")), -1);
}

#[test]
fn ver_test_orders_lettered_and_suffixed_versions() {
    let pvr = None;
    assert_eq!(ver_test(&strs(&["1.0b", "-gt", "1.0"]), &pvr).unwrap(), ExecStatus::Success);
    assert_eq!(ver_test(&strs(&["1.0_rc1", "-lt", "1.0"]), &pvr).unwrap(), ExecStatus::Success);
    assert_eq!(ver_test(&strs(&["1.0_p1", "-gt", "1.0"]), &pvr).unwrap(), ExecStatus::Success);
}

#[test]
fn ver_test_with_three_args() {
    let pvr = None;
    assert_eq!(ver_test(&strs(&["1", "-lt", "2-r1"]), &pvr).unwrap(), ExecStatus::Success);
    assert_eq!(ver_test(&strs(&["2", "-lt", "2"]), &pvr).unwrap(), ExecStatus::Failure(1));
    assert_eq!(ver_test(&strs(&["2", "-le", "2"]), &pvr).unwrap(), ExecStatus::Success);
    assert_eq!(ver_test(&strs(&["2", "-eq", "2"]), &pvr).unwrap(), ExecStatus::Success);
    assert_eq!(ver_test(&strs(&["2", "-ne", "2"]), &pvr).unwrap(), ExecStatus::Failure(1));
    assert_eq!(ver_test(&strs(&["3", "-gt", "2.9"]), &pvr).unwrap(), ExecStatus::Success);
    assert_eq!(ver_test(&strs(&["3", "-ge", "3"]), &pvr).unwrap(), ExecStatus::Success);
}

#[test]
fn ver_test_with_bound_left_side() {
    let pvr = Some("1.2.3".to_string());
    assert_eq!(ver_test(&strs(&["-lt", "1.2.4"]), &pvr).unwrap(), ExecStatus::Success);
    assert_eq!(ver_test(&strs(&["-gt", "1.2.4"]), &pvr).unwrap(), ExecStatus::Failure(1));
    match ver_test(&strs(&["-lt", "2"]), &None) {
        Err(Error::Base(m)) => assert_eq!(m, "$PVR is undefined"),
        other => panic!("expected an undefined-PVR error, got {other:?}"),
    }
    match ver_test(&strs(&["-lt", "2"]), &Some(String::new())) {
        Err(Error::Base(m)) => assert_eq!(m, "$PVR is undefined"),
        other => panic!("expected an undefined-PVR error, got {other:?}"),
    }
}

#[test]
fn ver_test_rejects_bad_shapes() {
    let pvr = None;
    match ver_test(&strs(&["1"]), &pvr) {
        Err(Error::Base(m)) => assert_eq!(m, "only accepts 2 or 3 args, got 1"),
        other => panic!("expected an arity error, got {other:?}"),
    }
    match ver_test(&strs(&["x", "-lt", "2"]), &pvr) {
        Err(Error::Base(m)) => assert_eq!(m, "invalid version: x"),
        other => panic!("expected an invalid-version error, got {other:?}"),
    }
    match ver_test(&strs(&["1", "-lt", "y"]), &pvr) {
        Err(Error::Base(m)) => assert_eq!(m, "invalid version: y"),
        other => panic!("expected an invalid-version error, got {other:?}"),
    }
    match ver_test(&strs(&["1", "-foo", "2"]), &pvr) {
        Err(Error::Base(m)) => assert_eq!(m, "invalid operator: -foo"),
        other => panic!("expected an invalid-operator error, got {other:?}"),
    }
}

#[test]
fn ver_cut_selects_component_ranges() {
    let pv = Some("1.2.3".to_string());
    assert_eq!(ver_cut(&strs(&["1-2"]), &pv).unwrap(), "1.2");
    assert_eq!(ver_cut(&strs(&["2-"]), &pv).unwrap(), "2.3");
    assert_eq!(ver_cut(&strs(&["1"]), &pv).unwrap(), "1");
    assert_eq!(ver_cut(&strs(&["1-2", "1.2.3"]), &None).unwrap(), "1.2");
    // a version string need not follow the spec to be cut
    assert_eq!(ver_cut(&strs(&["0-1", ".1.2"]), &None).unwrap(), ".1");
    match ver_cut(&strs(&["x", "1.2.3"]), &None) {
        Err(Error::Base(m)) => assert_eq!(m, "invalid range: x"),
        other => panic!("expected an invalid-range error, got {other:?}"),
    }
    match ver_cut(&strs(&[]), &None) {
        Err(Error::Base(m)) => assert_eq!(m, "requires 1 or 2 args, got 0"),
        other => panic!("expected an arity error, got {other:?}"),
    }
}

#[test]
fn ver_rs_replaces_separators() {
    assert_eq!(ver_rs(&strs(&["1", "-", "1.2.3"]), &None).unwrap(), "1-2.3");
    assert_eq!(ver_rs(&strs(&["1-2", "-", "1.2.3"]), &None).unwrap(), "1-2-3");
    assert_eq!(ver_rs(&strs(&["2", "-"]), &Some("1.2.3".to_string())).unwrap(), "1.2-3");
    // ranges beyond the split leave it unchanged
    assert_eq!(ver_rs(&strs(&["5", "-", "1.2.3"]), &None).unwrap(), "1.2.3");
    match ver_rs(&strs(&["x", "-", "1.2.3"]), &None) {
        Err(Error::Base(m)) => assert_eq!(m, "invalid range: x"),
        other => panic!("expected an invalid-range error, got {other:?}"),
    }
    match ver_rs(&strs(&["1"]), &None) {
        Err(Error::Base(m)) => assert_eq!(m, "requires 2 or more args, got 1"),
        other => panic!("expected an arity error, got {other:?}"),
    }
}
