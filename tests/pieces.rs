use memo_runtime::address::{CallAddress, CallStack};
use memo_runtime::children::{Attach, ChildList};
use memo_runtime::env::{EnvironmentError, Environment};

fn run(steps: &[(u64, u64)]) -> Vec<CallAddress> {
    let mut stack = CallStack::new();
    let mut out = Vec::new();
    for &(site, slot) in steps {
        out.push(stack.enter(site, slot));
        if site % 2 == 0 {
            stack.exit();
        }
    }
    out
}

#[test]
fn same_control_flow_same_addresses() {
    let steps = [(1, 0), (2, 0), (3, 1), (4, 2)];
    let a = run(&steps);
    let b = run(&steps);
    assert_eq!(a.len(), b.len());
    for (x, y) in a.iter().zip(b.iter()) {
        assert!(x.same_as(y));
    }
    assert_eq!(a[3].frames.len(), 3);
}

#[test]
fn different_slots_different_addresses() {
    let mut s = CallStack::new();
    let a = s.enter(3, 0);
    s.exit();
    let b = s.enter(3, 1);
    assert!(!a.same_as(&b));
    assert_eq!(s.depth(), 1);
    assert!(s.current().same_as(&b));
    assert!(b.duplicate().same_as(&b));
    assert!(s.exit().is_some());
    assert!(s.exit().is_none());
}

#[test]
fn environment_shadowing_and_scope() {
    let mut env: Environment<u64> = Environment::new();
    assert_eq!(env.expect(1), Err(EnvironmentError::Missing));
    env.push_frame();
    env.provide(1, 10);
    env.push_frame();
    assert_eq!(env.expect(1), Ok(10));
    env.provide(1, 11);
    env.provide(2, 20);
    assert_eq!(env.expect(1), Ok(11));
    env.pop_frame();
    assert_eq!(env.expect(1), Ok(10));
    assert_eq!(env.expect(2), Err(EnvironmentError::Missing));
    env.pop_frame();
    assert_eq!(env.expect(1), Err(EnvironmentError::Missing));
    env.pop_frame();
}

#[test]
fn attach_keeps_replaces_and_appends() {
    let mut list = ChildList::new(vec![1, 2, 3]);
    assert_eq!(list.attach(1), Attach::Kept);
    assert_eq!(list.attach(3), Attach::Replaced(2));
    assert_eq!(list.children(), &vec![1, 3]);
    assert_eq!(list.attach(4), Attach::Appended);
    assert_eq!(list.trim(), Vec::<u64>::new());
    assert_eq!(list.children(), &vec![1, 3, 4]);
}

#[test]
fn trim_removes_trailing_children() {
    let mut list = ChildList::new(vec![5, 6, 7]);
    assert_eq!(list.attach(5), Attach::Kept);
    assert_eq!(list.trim(), vec![6, 7]);
    assert_eq!(list.children(), &vec![5]);
    assert_eq!(list.trim(), vec![5]);
    assert!(list.children().is_empty());
}

#[test]
fn reconcile_gives_declared_children() {
    let mut list = ChildList::new(vec![9, 8, 7, 6]);
    let removed = list.reconcile(&vec![7, 9, 1]);
    assert_eq!(list.children(), &vec![7, 9, 1]);
    assert_eq!(removed, Vec::<u64>::new());
    list.reconcile(&vec![]);
    assert!(list.children().is_empty());
}
