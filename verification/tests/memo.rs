use leptos_reactive::memo_nodedup::{
    create_memo_nodedup, format_memo_nodedup_warning, forward_ref_to, MemoNodedup,
    MemoNodedupState,
};
use leptos_reactive::runtime::{NodeOwner, Runtime};
use leptos_reactive::signal::create_rw_signal;

type F = fn(Option<&i64>) -> i64;
type Rt = Runtime<i64, F>;

fn counter(prev: Option<&i64>) -> i64 {
    match prev {
        Some(p) => p + 1,
        None => 100,
    }
}

#[test]
fn memo_first_run_sees_none() {
    let mut rt = Rt::new();
    let m = create_memo_nodedup(&mut rt, counter as F);
    assert_eq!(*rt.value_ref(m.id), None);
    assert!(rt.meta_of(m.id).dirty);
    assert_eq!(m.get_untracked(&mut rt), 100);
}

#[test]
fn memo_runs_once_per_change() {
    let mut rt = Rt::new();
    let m = MemoNodedup::new(&mut rt, counter as F);
    assert_eq!(m.get_untracked(&mut rt), 100);
    assert_eq!(m.get_untracked(&mut rt), 100);
    assert_eq!(m.with_untracked(&mut rt, |v| *v), 100);
    assert!(!rt.meta_of(m.id).dirty);
}

#[test]
fn memo_reruns_after_source_changes() {
    let mut rt = Rt::new();
    let s = create_rw_signal(&mut rt, 0);
    let m = create_memo_nodedup(&mut rt, counter as F);
    rt.set_observer(Some(m.id));
    assert_eq!(s.get(&mut rt), 0);
    rt.set_observer(None);
    assert_eq!(m.get_untracked(&mut rt), 100);
    s.set(&mut rt, 1);
    assert!(rt.meta_of(m.id).dirty);
    assert_eq!(m.get_untracked(&mut rt), 101);
    s.set_untracked(&mut rt, 2);
    assert_eq!(m.get_untracked(&mut rt), 101);
}

#[test]
fn memo_always_notifies() {
    let mut rt = Rt::new();
    let m = create_memo_nodedup(&mut rt, (|_p: Option<&i64>| 5) as F);
    let watcher = create_rw_signal(&mut rt, 0);
    rt.set_observer(Some(watcher.id));
    assert_eq!(m.try_get(&mut rt), Some(5));
    rt.set_observer(None);
    assert!(rt.meta_of(watcher.id).dirty);
}

#[test]
fn memo_tracked_reads() {
    let mut rt = Rt::new();
    let m = create_memo_nodedup(&mut rt, counter as F);
    assert_eq!(m.get(&mut rt), 100);
    assert_eq!(m.with(&mut rt, |v| v * 2), 200);
    assert_eq!(m.try_with(&mut rt, |v| v + 1), Some(101));
    assert_eq!(m.try_get_untracked(&mut rt), Some(100));
    assert_eq!(m.try_with_untracked(&mut rt, |v| v - 1), Some(99));
}

#[test]
fn disposed_memo_reads_none() {
    let mut rt = Rt::new();
    let m = create_memo_nodedup(&mut rt, counter as F);
    let copy = m;
    m.dispose(&mut rt);
    assert_eq!(copy.try_get(&mut rt), None);
    assert_eq!(copy.try_get_untracked(&mut rt), None);
    assert_eq!(copy.try_with(&mut rt, |v| *v), None);
    assert_eq!(copy.try_with_untracked(&mut rt, |v| *v), None);
}

#[test]
fn memo_is_disposed_with_its_scope() {
    let mut rt = Rt::new();
    rt.set_owner(NodeOwner::Scope(9));
    let m = create_memo_nodedup(&mut rt, counter as F);
    rt.dispose_scope(9);
    assert_eq!(m.try_get_untracked(&mut rt), None);
}

#[test]
fn memos_compare_by_id() {
    let mut rt = Rt::new();
    let a = create_memo_nodedup(&mut rt, counter as F);
    let b = create_memo_nodedup(&mut rt, counter as F);
    let a2 = a.clone();
    assert!(a == a2);
    assert!(a != b);
}

#[test]
fn run_stores_result_and_reports_change() {
    let state: MemoNodedupState<i64, F> = MemoNodedupState { f: counter, t: std::marker::PhantomData };
    let mut v = None;
    assert!(state.run(&mut v));
    assert_eq!(v, Some(100));
    assert!(state.run(&mut v));
    assert_eq!(v, Some(101));
}

#[test]
fn run_reports_change_even_when_equal() {
    let state: MemoNodedupState<i64, F> = MemoNodedupState { f: |_| 3, t: std::marker::PhantomData };
    let mut v = Some(3);
    assert!(state.run(&mut v));
    assert_eq!(v, Some(3));
}

#[test]
fn forward_ref_to_applies_to_some() {
    let g = forward_ref_to(|v: &i64| v * 10);
    assert_eq!(g(&Some(4)), 40);
}

#[test]
fn warning_with_definition_site() {
    let s = format_memo_nodedup_warning("boom", Some("a.rs:1:2"), "b.rs:3:4");
    assert_eq!(s, "boom\nsignal created here: a.rs:1:2\nwarning happened here: b.rs:3:4");
}

#[test]
fn warning_without_definition_site() {
    let s = format_memo_nodedup_warning("boom", None, "b.rs:3:4");
    assert_eq!(s, "boom\nwarning happened here: b.rs:3:4");
}

#[test]
fn reading_a_memo_refreshes_the_memo_it_reads_from() {
    let mut rt = Rt::new();
    let s = create_rw_signal(&mut rt, 0);
    let m1 = create_memo_nodedup(&mut rt, counter as F);
    let m2 = create_memo_nodedup(&mut rt, counter as F);
    rt.set_observer(Some(m1.id));
    assert_eq!(s.get(&mut rt), 0);
    rt.set_observer(Some(m2.id));
    assert_eq!(m1.get(&mut rt), 100);
    rt.set_observer(None);
    assert_eq!(m2.get_untracked(&mut rt), 100);
    s.set(&mut rt, 1);
    assert!(rt.meta_of(m1.id).dirty);
    assert!(!rt.meta_of(m2.id).dirty);
    assert_eq!(m2.get_untracked(&mut rt), 101);
    assert_eq!(*rt.value_ref(m1.id), Some(101));
    assert!(!rt.meta_of(m1.id).dirty);
    assert!(!rt.meta_of(m2.id).dirty);
    assert_eq!(m2.get_untracked(&mut rt), 101);
    assert_eq!(m1.get_untracked(&mut rt), 101);
}
