use stager::error::ErrorKind;
use stager::paths::abs_to_rel;

#[test]
fn abs_to_rel_errors_on_rel() {
    assert!(abs_to_rel("./hello/world").is_err());
    assert!(abs_to_rel("hello/world").is_err());
}

#[test]
fn abs_to_rel_reformats() {
    assert_eq!(abs_to_rel("/hello/world").unwrap(), "hello/world");
}

#[test]
fn abs_to_rel_cleans_nop() {
    assert_eq!(abs_to_rel("/hello//world").unwrap(), "hello/world");
    assert_eq!(abs_to_rel("/hello/./world").unwrap(), "hello/world");
}

#[test]
fn abs_to_rel_cleans_up_root() {
    assert_eq!(abs_to_rel("/hello/../goodbye/world").unwrap(), "goodbye/world");
}

#[test]
fn abs_to_rel_cleans_repeated_ups() {
    assert_eq!(abs_to_rel("/hello/world/../../foo/bar").unwrap(), "foo/bar");
}

#[test]
fn abs_to_rel_cleans_up_leaf() {
    assert_eq!(abs_to_rel("/hello/world/foo/bar/../..").unwrap(), "hello/world");
}

#[test]
fn abs_to_rel_rejects_every_relative_form() {
    for p in ["", "a", "a/b", "./x", "..", " /x"] {
        let e = abs_to_rel(p).unwrap_err();
        assert_eq!(e.kind(), ErrorKind::InvalidConfiguration);
    }
}

#[test]
fn abs_to_rel_rejects_escape_from_root() {
    assert!(abs_to_rel("/..").is_err());
    assert!(abs_to_rel("/a/../..").is_err());
    assert!(abs_to_rel("/a/../../b").is_err());
    let e = abs_to_rel("/..").unwrap_err();
    assert_eq!(e.kind(), ErrorKind::InvalidConfiguration);
    assert!(e.message().contains("outside of staging root"));
}

#[test]
fn abs_to_rel_keeps_root_itself_empty() {
    assert_eq!(abs_to_rel("/").unwrap(), "");
    assert_eq!(abs_to_rel("/a/..").unwrap(), "");
}

#[test]
fn abs_to_rel_is_idempotent_on_normal_paths() {
    let once = abs_to_rel("/hello//./world/../world").unwrap();
    let again = abs_to_rel(&format!("/{}", once)).unwrap();
    assert_eq!(once, again);
}

#[test]
fn abs_to_rel_results_are_always_relative() {
    for p in ["/", "/a", "//a//b//", "/x/../y", "/./a/./b/.."] {
        let r = abs_to_rel(p).unwrap();
        assert!(!r.starts_with('/'), "{:?} normalized to {:?}", p, r);
    }
}
