//! Command-line entry specifications.

use statline::spec::{Spec, PSI};

#[test]
fn spec_parse_simple() {
    assert_eq!(
        Spec::from("foo"),
        Spec {
            main: "foo".into(),
            subs: Default::default(),
        },
    )
}

#[test]
fn spec_parse_with_subs() {
    assert_eq!(
        Spec::from("foo:bar,baz"),
        Spec {
            main: "foo".into(),
            subs: vec!["bar".into(), "baz".into()],
        },
    )
}

#[test]
fn spec_parse_drops_empty_subs() {
    assert_eq!(
        Spec::from("foo:,bar,,"),
        Spec {
            main: "foo".into(),
            subs: vec!["bar".into()],
        },
    )
}

#[test]
fn spec_parse_empty_sub_list() {
    assert_eq!(
        Spec::from("foo:"),
        Spec {
            main: "foo".into(),
            subs: Default::default(),
        },
    )
}

#[test]
fn spec_no_subs_1() {
    Spec {
        main: Default::default(),
        subs: Default::default(),
    }
    .no_subs()
    .expect("No subs failed");
}

#[test]
fn spec_no_subs_2() {
    assert!(Spec {
        main: Default::default(),
        subs: vec!["boo".into()]
    }
    .no_subs()
    .is_err())
}

#[test]
fn psi_sub_spec_words() {
    assert_eq!(PSI::parse(b"cpu"), Some(PSI::Cpu));
    assert_eq!(PSI::parse(b"c"), Some(PSI::Cpu));
    assert_eq!(PSI::parse(b"memory"), Some(PSI::Memory));
    assert_eq!(PSI::parse(b"mem"), Some(PSI::Memory));
    assert_eq!(PSI::parse(b"m"), Some(PSI::Memory));
    assert_eq!(PSI::parse(b"io"), Some(PSI::Io));
    assert_eq!(PSI::parse(b"disk"), None);
}

#[test]
fn psi_paths() {
    assert_eq!(PSI::Cpu.path(), "/proc/pressure/cpu");
    assert_eq!(PSI::Memory.path(), "/proc/pressure/memory");
    assert_eq!(PSI::Io.path(), "/proc/pressure/io");
}
