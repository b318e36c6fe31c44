use memo_runtime::address::{CallAddress, CallStack};
use memo_runtime::memo::MemoOutcome;
use memo_runtime::runtime::{RunError, Runtime};
use std::cell::Cell;

fn visit(rt: &mut Runtime<u64, u64>, site: u64, slot: u64, fingerprint: u64, calls: &Cell<u32>) -> MemoOutcome<u64> {
    rt.enter(site, slot);
    let out = rt.memo(fingerprint, |f| {
        calls.set(calls.get() + 1);
        f * 10
    });
    rt.exit();
    out
}

fn address(frames: &[(u64, u64)]) -> CallAddress {
    let mut stack = CallStack::new();
    let mut last = CallAddress::root();
    for &(site, slot) in frames {
        last = stack.enter(site, slot);
    }
    last
}

#[test]
fn same_fingerprint_reuses_value() {
    let mut rt: Runtime<u64, u64> = Runtime::new();
    let calls = Cell::new(0);
    assert_eq!(rt.begin_revision(), Ok(1));
    assert!(matches!(visit(&mut rt, 1, 0, 7, &calls), MemoOutcome::Created));
    let end = rt.finish_revision().ok().unwrap();
    assert_eq!(end.revision, 1);
    assert!(end.disposed.is_empty());
    assert_eq!(rt.memoized(&address(&[(1, 0)])), Some(&70));

    assert_eq!(rt.begin_revision(), Ok(2));
    assert!(matches!(visit(&mut rt, 1, 0, 7, &calls), MemoOutcome::Reused));
    let end = rt.finish_revision().ok().unwrap();
    assert!(end.disposed.is_empty());
    assert_eq!(rt.memoized(&address(&[(1, 0)])), Some(&70));
    assert_eq!(calls.get(), 1);
}

#[test]
fn stability_over_many_revisions() {
    let mut rt: Runtime<u64, u64> = Runtime::new();
    let calls = Cell::new(0);
    for n in 1..=5u64 {
        assert_eq!(rt.begin_revision(), Ok(n));
        visit(&mut rt, 3, 0, 9, &calls);
        rt.finish_revision().ok().unwrap();
    }
    assert_eq!(calls.get(), 1);
    assert_eq!(rt.current_revision(), 5);
}

#[test]
fn changed_fingerprint_replaces_value() {
    let mut rt: Runtime<u64, u64> = Runtime::new();
    let calls = Cell::new(0);
    rt.begin_revision().unwrap();
    visit(&mut rt, 1, 0, 7, &calls);
    rt.finish_revision().ok().unwrap();
    rt.begin_revision().unwrap();
    match visit(&mut rt, 1, 0, 8, &calls) {
        MemoOutcome::Replaced(old) => assert_eq!(old, 70),
        _ => panic!("expected a replacement"),
    }
    rt.finish_revision().ok().unwrap();
    assert_eq!(calls.get(), 2);
    assert_eq!(rt.memoized(&address(&[(1, 0)])), Some(&80));
}

#[test]
fn unvisited_site_is_disposed_once() {
    let mut rt: Runtime<u64, u64> = Runtime::new();
    let calls = Cell::new(0);
    rt.begin_revision().unwrap();
    visit(&mut rt, 1, 0, 1, &calls);
    visit(&mut rt, 2, 0, 2, &calls);
    assert!(rt.finish_revision().ok().unwrap().disposed.is_empty());

    rt.begin_revision().unwrap();
    visit(&mut rt, 1, 0, 1, &calls);
    let end = rt.finish_revision().ok().unwrap();
    assert_eq!(end.disposed.len(), 1);
    assert!(end.disposed[0].address.same_as(&address(&[(2, 0)])));
    assert_eq!(end.disposed[0].value, 20);
    assert_eq!(rt.memoized(&address(&[(2, 0)])), None);
    assert_eq!(rt.memoized(&address(&[(1, 0)])), Some(&10));

    rt.begin_revision().unwrap();
    visit(&mut rt, 1, 0, 1, &calls);
    let end = rt.finish_revision().ok().unwrap();
    assert!(end.disposed.is_empty());
    assert_eq!(calls.get(), 2);
}

#[test]
fn state_write_visible_next_revision() {
    let mut rt: Runtime<u64, u64> = Runtime::new();
    rt.begin_revision().unwrap();
    rt.enter(4, 0);
    let cell = rt.state(0);
    rt.exit();
    assert_eq!(rt.read(&cell), Some(0));
    assert!(rt.write(&cell, 5));
    assert_eq!(rt.read(&cell), Some(0));
    assert!(rt.is_invalidated());
    let end = rt.finish_revision().ok().unwrap();
    assert!(end.invalidated);

    rt.begin_revision().unwrap();
    assert!(!rt.is_invalidated());
    rt.enter(4, 0);
    let again = rt.state(0);
    rt.exit();
    assert!(again.same_as(&cell));
    assert_eq!(rt.read(&cell), Some(5));
    rt.finish_revision().ok().unwrap();
}

#[test]
fn last_write_wins() {
    let mut rt: Runtime<u64, u64> = Runtime::new();
    rt.begin_revision().unwrap();
    let cell = rt.state(1);
    rt.finish_revision().ok().unwrap();
    assert!(rt.write(&cell, 2));
    assert!(rt.write(&cell, 3));
    rt.begin_revision().unwrap();
    rt.state(1);
    assert_eq!(rt.read(&cell), Some(3));
}

#[test]
fn write_to_missing_cell_is_refused() {
    let mut rt: Runtime<u64, u64> = Runtime::new();
    assert!(!rt.write(&address(&[(9, 9)]), 1));
    assert!(!rt.is_invalidated());
    assert_eq!(rt.read(&address(&[(9, 9)])), None);
}

#[test]
fn unvisited_cell_is_dropped() {
    let mut rt: Runtime<u64, u64> = Runtime::new();
    rt.begin_revision().unwrap();
    rt.enter(5, 0);
    let cell = rt.state(3);
    rt.exit();
    rt.finish_revision().ok().unwrap();
    rt.begin_revision().unwrap();
    let end = rt.finish_revision().ok().unwrap();
    assert_eq!(end.dropped_cells.len(), 1);
    assert_eq!(rt.read(&cell), None);
}

#[test]
fn colliding_calls_share_one_entry() {
    let mut rt: Runtime<u64, u64> = Runtime::new();
    rt.begin_revision().unwrap();
    let mut seen = Vec::new();
    for i in 0..2u64 {
        rt.enter(6, 0);
        let out = rt.memo(0, |_| 100 + i);
        rt.exit();
        seen.push(out);
        seen.len();
    }
    assert!(matches!(seen[0], MemoOutcome::Created));
    assert!(matches!(seen[1], MemoOutcome::Reused));
    assert_eq!(rt.memoized(&address(&[(6, 0)])), Some(&100));
    rt.finish_revision().ok().unwrap();
}

#[test]
fn slots_keep_repeated_calls_apart() {
    let mut rt: Runtime<u64, u64> = Runtime::new();
    rt.begin_revision().unwrap();
    for i in 0..2u64 {
        rt.enter(6, i);
        rt.memo(0, |_| 100 + i);
        rt.exit();
    }
    assert_eq!(rt.memoized(&address(&[(6, 0)])), Some(&100));
    assert_eq!(rt.memoized(&address(&[(6, 1)])), Some(&101));
    rt.finish_revision().ok().unwrap();
}

#[test]
fn revisions_do_not_nest() {
    let mut rt: Runtime<u64, u64> = Runtime::new();
    assert_eq!(rt.finish_revision().err(), Some(RunError::NotRunning));
    assert_eq!(rt.begin_revision(), Ok(1));
    assert!(rt.is_running());
    assert_eq!(rt.begin_revision(), Err(RunError::AlreadyRunning));
    assert_eq!(rt.current_revision(), 1);
    rt.finish_revision().ok().unwrap();
    assert!(!rt.is_running());
}

#[test]
fn nested_addresses() {
    let mut rt: Runtime<u64, u64> = Runtime::new();
    let calls = Cell::new(0);
    rt.begin_revision().unwrap();
    rt.enter(1, 0);
    visit(&mut rt, 2, 0, 1, &calls);
    rt.exit();
    visit(&mut rt, 2, 0, 1, &calls);
    assert_eq!(calls.get(), 2);
    assert_eq!(rt.memoized(&address(&[(1, 0), (2, 0)])), Some(&10));
    assert_eq!(rt.memoized(&address(&[(2, 0)])), Some(&10));
    rt.finish_revision().ok().unwrap();
}

#[test]
fn failed_initializer_leaves_nothing() {
    let mut rt: Runtime<u64, u64> = Runtime::new();
    rt.begin_revision().unwrap();
    rt.enter(7, 0);
    let failed = rt.try_memo(1, |_| Err::<u64, &str>("boom"));
    match failed {
        Err(f) => {
            assert_eq!(f.error, "boom");
            assert!(f.displaced.is_none());
        }
        Ok(_) => panic!("expected a failure"),
    }
    rt.exit();
    assert_eq!(rt.memoized(&address(&[(7, 0)])), None);
    rt.finish_revision().ok().unwrap();
}

#[test]
fn failed_replacement_displaces_old_value() {
    let mut rt: Runtime<u64, u64> = Runtime::new();
    rt.begin_revision().unwrap();
    rt.enter(7, 0);
    assert!(matches!(rt.try_memo(1, |f| Ok::<u64, &str>(f + 40)), Ok(MemoOutcome::Created)));
    assert!(matches!(rt.try_memo(1, |_| Err::<u64, &str>("unused")), Ok(MemoOutcome::Reused)));
    match rt.try_memo(2, |_| Err::<u64, &str>("boom")) {
        Err(f) => assert_eq!(f.displaced, Some(41)),
        Ok(_) => panic!("expected a failure"),
    }
    rt.exit();
    assert_eq!(rt.memoized(&address(&[(7, 0)])), None);
    rt.finish_revision().ok().unwrap();
}

#[test]
fn second_visit_at_one_address_is_detected() {
    let mut rt: Runtime<u64, u64> = Runtime::new();
    rt.begin_revision().unwrap();
    rt.enter(8, 0);
    assert!(!rt.visited_here());
    rt.memo(1, |f| f);
    assert!(rt.visited_here());
    rt.exit();
    rt.finish_revision().ok().unwrap();
    rt.begin_revision().unwrap();
    rt.enter(8, 0);
    assert!(!rt.visited_here());
    rt.exit();
}
