use pkgsmgr::generations::Generations;
use pkgsmgr::manifest::{update_manifest, FormatError};
use pkgsmgr::rollback::{rollback, RollbackError};
use pkgsmgr::tree::TreeLink;

#[test]
fn first_manifest_becomes_current() {
    let mut kept = Generations::new();
    assert!(update_manifest("---\n", &mut kept));
    assert_eq!(kept.current.as_deref(), Some("---\n"));
    assert_eq!(kept.old, None);
}

#[test]
fn same_manifest_twice_changes_only_once() {
    let mut kept = Generations::new();
    assert!(update_manifest("A: b\n---\n", &mut kept));
    assert!(!update_manifest("A: b\n---\n", &mut kept));
    assert_eq!(kept.current.as_deref(), Some("A: b\n---\n"));
    assert_eq!(kept.old, None);
}

#[test]
fn same_manifest_twice_keeps_the_old_one() {
    let mut kept = Generations { current: Some("two".into()), old: Some("one".into()) };
    assert!(update_manifest("three", &mut kept));
    assert!(!update_manifest("three", &mut kept));
    assert_eq!(kept.current.as_deref(), Some("three"));
    assert_eq!(kept.old.as_deref(), Some("two"));
}

#[test]
fn new_manifest_demotes_current_and_drops_old() {
    let mut kept = Generations::new();
    update_manifest("one", &mut kept);
    assert!(update_manifest("two", &mut kept));
    assert_eq!(kept.current.as_deref(), Some("two"));
    assert_eq!(kept.old.as_deref(), Some("one"));
    assert!(update_manifest("three", &mut kept));
    assert_eq!(kept.current.as_deref(), Some("three"));
    assert_eq!(kept.old.as_deref(), Some("two"));
}

#[test]
fn manifests_differing_in_one_byte_differ() {
    let mut kept = Generations::new();
    update_manifest("---\n", &mut kept);
    assert!(update_manifest("---\n ", &mut kept));
}

#[test]
fn without_current_the_old_manifest_stays() {
    let mut kept = Generations { current: None, old: Some("one".into()) };
    assert!(update_manifest("two", &mut kept));
    assert_eq!(kept.current.as_deref(), Some("two"));
    assert_eq!(kept.old.as_deref(), Some("one"));
}

#[test]
fn rollback_without_old_manifest_is_refused() {
    let mut kept = Generations::new();
    assert_eq!(rollback(&mut kept), Err(RollbackError::NoRollbackAvailable));
    update_manifest("---\n", &mut kept);
    assert_eq!(rollback(&mut kept), Err(RollbackError::NoRollbackAvailable));
    assert_eq!(kept.current.as_deref(), Some("---\n"));
    assert_eq!(kept.old, None);
}

#[test]
fn rollback_promotes_the_old_manifest() {
    let mut kept = Generations::new();
    update_manifest("---\n420;1;aa;bin/a\n", &mut kept);
    update_manifest("---\n420;1;bb;bin/b\n", &mut kept);
    let links = rollback(&mut kept).unwrap();
    assert_eq!(links, vec![TreeLink { object: "aa420".into(), path: "bin/a".into() }]);
    assert_eq!(kept.current.as_deref(), Some("---\n420;1;aa;bin/a\n"));
    assert_eq!(kept.old, None);
}

#[test]
fn second_rollback_in_a_row_is_refused() {
    let mut kept = Generations::new();
    update_manifest("---\n1;1;a;a\n", &mut kept);
    update_manifest("---\n1;1;b;b\n", &mut kept);
    assert!(rollback(&mut kept).is_ok());
    assert_eq!(rollback(&mut kept), Err(RollbackError::NoRollbackAvailable));
}

#[test]
fn rollback_to_rollback_is_possible_after_an_update() {
    let mut kept = Generations::new();
    update_manifest("---\n1;1;a;a\n", &mut kept);
    update_manifest("---\n1;1;b;b\n", &mut kept);
    rollback(&mut kept).unwrap();
    update_manifest("---\n1;1;c;c\n", &mut kept);
    let links = rollback(&mut kept).unwrap();
    assert_eq!(links, vec![TreeLink { object: "a1".into(), path: "a".into() }]);
}

#[test]
fn rollback_to_an_unreadable_manifest_changes_nothing() {
    let mut kept = Generations { current: Some("---\n".into()), old: Some("no divider".into()) };
    assert_eq!(rollback(&mut kept), Err(RollbackError::Format(FormatError::MissingDivider)));
    assert_eq!(kept.current.as_deref(), Some("---\n"));
    assert_eq!(kept.old.as_deref(), Some("no divider"));
    let mut kept = Generations { current: None, old: Some("---\nx;1;h;p".into()) };
    assert_eq!(rollback(&mut kept), Err(RollbackError::Format(FormatError::InvalidPermissions)));
    assert_eq!(kept.old.as_deref(), Some("---\nx;1;h;p"));
}
