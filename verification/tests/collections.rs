use config::collections::acl::{AclAction, ConfigAcl};
use config::collections::list::ConfigList;
use config::collections::set::ConfigSet;
use config::collections::value::ConfigValue;
use config::collections::{ConfigCollection, ConfigCollectionExt, Operation};
use config::cval::Cval;
use config::fmt::ConfigFmt;
use config::key::Key;
use config::parse::ast::AstOperation;
use config::parse::RawOperation;

fn v(x: u64) -> Cval<u64> {
    Cval::from_repr(x)
}

fn kinds(ops: &Vec<Operation<u64>>) -> Vec<(&'static str, Option<u64>)> {
    ops.iter()
        .map(|op| match op {
            Operation::Assign(c) => ("assign", Some(c.0)),
            Operation::AssignIfUndefined(c) => ("assign_if_undefined", Some(c.0)),
            Operation::Add(c) => ("add", Some(c.0)),
            Operation::Remove(c) => ("remove", Some(c.0)),
            Operation::Reset => ("reset", None),
            Operation::Clear => ("clear", None),
        })
        .collect()
}

#[test]
fn value_operations() {
    let mut c = ConfigValue::<u64>::new_with_default(Key::from_static(b"PORT"), v(80));
    assert_eq!(c.value().0, 80);
    assert!(c.is_default());
    assert!(!c.is_defined());
    c.assign_if_undefined(v(8080));
    assert_eq!(c.value().0, 8080);
    c.assign_if_undefined(v(1));
    assert_eq!(c.value().0, 8080);
    c.remove(v(1));
    assert_eq!(c.value().0, 8080);
    c.remove(v(8080));
    assert_eq!(c.value().0, 80);
    assert!(c.is_default());
    c.add(v(9));
    assert_eq!(c.value().0, 9);
    assert!(!c.is_default());
    c.reset();
    assert_eq!(c.value().0, 80);
    assert_eq!(kinds(c.history()), vec![("reset", None)]);
    c.assign(v(3));
    c.add(v(4));
    assert_eq!(kinds(c.history()), vec![("assign", Some(3)), ("add", Some(4))]);
    c.clear();
    assert!(c.is_default());
    assert_eq!(c.value().0, 80);
}

#[test]
fn value_default_of_the_type() {
    let c = ConfigValue::<u64>::new(Key::from_static(b"X"));
    assert_eq!(c.value().0, 0);
}

#[test]
fn replay_onto_fresh_reproduces_value() {
    let mut a = ConfigValue::<u64>::new_with_default(Key::from_static(b"K"), v(1));
    a.add(v(5));
    a.assign_if_undefined(v(6));
    a.remove(v(5));
    a.add(v(7));
    let mut b = ConfigValue::<u64>::new_with_default(Key::from_static(b"K"), v(1));
    b.replay(&a);
    assert_eq!(b.value().0, a.value().0);
    assert_eq!(b.is_default(), a.is_default());
    assert_eq!(kinds(b.history()), kinds(a.history()));
}

#[test]
fn list_operations() {
    let mut l = ConfigList::<u64>::new_with_default(Key::from_static(b"L"), vec![v(1), v(2)]);
    assert_eq!(l.len(), 2);
    assert!(l.is_default());
    l.add(v(3));
    l.add(v(2));
    assert_eq!(l.values().iter().map(|c| c.0).collect::<Vec<_>>(), vec![1, 2, 3, 2]);
    l.remove(v(2));
    assert_eq!(l.values().iter().map(|c| c.0).collect::<Vec<_>>(), vec![1, 3]);
    assert_eq!(l.get(1).map(|c| c.0), Some(3));
    assert!(l.get(2).is_none());
    l.assign_if_undefined(v(9));
    assert_eq!(l.len(), 2);
    l.clear();
    assert!(l.is_empty());
    assert!(!l.is_default());
    l.assign_if_undefined(v(9));
    assert_eq!(l.values().iter().map(|c| c.0).collect::<Vec<_>>(), vec![9]);
    l.reset();
    assert_eq!(l.values().iter().map(|c| c.0).collect::<Vec<_>>(), vec![1, 2]);
    assert!(l.is_default());
    l.remove(v(7));
    assert!(l.is_default());
    l.assign(v(5));
    assert_eq!(l.values().iter().map(|c| c.0).collect::<Vec<_>>(), vec![5]);
}

#[test]
fn list_display_and_replay() {
    let mut l = ConfigList::<u64>::new(Key::from_static(b"L"));
    assert_eq!(l.display(&ConfigFmt::new()), b"L !!;".to_vec());
    l.add(v(1));
    l.add(v(2));
    assert_eq!(l.display(&ConfigFmt::new()), b"L = 1;\nL += 2;".to_vec());
    let mut m = ConfigList::<u64>::new(Key::from_static(b"L"));
    m.replay(&l);
    assert_eq!(m.values().iter().map(|c| c.0).collect::<Vec<_>>(), vec![1, 2]);
}

#[test]
fn set_operations() {
    let mut s = ConfigSet::<u64>::new_with_default(Key::from_static(b"S"), vec![v(1), v(1), v(2)]);
    assert_eq!(s.len(), 2);
    s.add(v(2));
    assert_eq!(s.len(), 2);
    s.add(v(3));
    assert!(s.contains(&v(3)));
    s.remove(v(1));
    assert!(!s.contains(&v(1)));
    assert_eq!(s.len(), 2);
    s.clear();
    assert!(s.is_empty());
    s.reset();
    assert_eq!(s.len(), 2);
    assert!(s.is_default());
}

#[test]
fn acl_last_action_wins() {
    let mut a = ConfigAcl::<u64>::new(Key::from_static(b"A"));
    a.add(v(1));
    a.add(v(2));
    a.remove(v(1));
    let entries: Vec<(AclAction, u64)> = a.values().iter().map(|(act, c)| (*act, c.0)).collect();
    assert_eq!(entries, vec![(AclAction::Allow, 2), (AclAction::Deny, 1)]);
    assert_eq!(a.allowed().iter().map(|c| c.0).collect::<Vec<_>>(), vec![2]);
    assert_eq!(a.denied().iter().map(|c| c.0).collect::<Vec<_>>(), vec![1]);
    assert_eq!(a.display(&ConfigFmt::new()), b"A = 2;A -= 1;".to_vec());
    a.clear();
    assert_eq!(a.display(&ConfigFmt::new()), b"A !!;".to_vec());
}

#[test]
fn parse_entry_applies_or_refuses() {
    let mut c = ConfigValue::<u64>::new(Key::from_static(b"N"));
    let ok = c.parse_entry(Key::from_static(b"N"), RawOperation(AstOperation::Assign(b"42".to_vec())));
    assert!(ok.is_ok());
    assert_eq!(c.value().0, 42);
    let bad = c.parse_entry(Key::from_static(b"N"), RawOperation(AstOperation::Add(b"x".to_vec())));
    assert!(bad.is_err());
    assert_eq!(c.value().0, 42);
    assert!(c.parse_entry(Key::from_static(b"N"), RawOperation(AstOperation::Reset)).is_ok());
    assert_eq!(c.value().0, 0);
}

#[test]
fn value_display_is_an_assignment() {
    let mut c = ConfigValue::<i32>::new(Key::from_static(b"T"));
    c.assign(Cval::from_repr(-5));
    let fmt = ConfigFmt::new().next();
    assert_eq!(c.display(&fmt), b"    T = -5;".to_vec());
}

#[test]
fn replay_onto_new_list_with_same_default() {
    let mut x = ConfigList::<u64>::new_with_default(Key::from_static(b"L"), vec![v(1), v(2)]);
    x.add(v(3));
    x.remove(v(1));
    x.assign_if_undefined(v(9));
    x.add(v(4));
    let mut y = ConfigList::<u64>::new_with_default(Key::from_static(b"L"), vec![v(1), v(2)]);
    y.replay(&x);
    assert_eq!(y.values().iter().map(|c| c.0).collect::<Vec<_>>(), x.values().iter().map(|c| c.0).collect::<Vec<_>>());
    assert_eq!(y.is_default(), x.is_default());
    assert_eq!(kinds(y.history()), kinds(x.history()));
}
