use leptos_reactive::runtime::{NodeId, NodeKind, NodeOwner, Runtime};
use leptos_reactive::signal::{create_rw_signal, RwSignal};

type Rt = Runtime<i64, fn(Option<&i64>) -> i64>;

#[test]
fn new_runtime_is_empty() {
    let rt = Rt::new();
    assert_eq!(rt.node_count(), 0);
    assert_eq!(rt.current_owner(), NodeOwner::Unowned);
    assert!(!rt.is_leaking());
}

#[test]
fn create_reads_back_value() {
    let mut rt = Rt::new();
    let s = create_rw_signal(&mut rt, 7);
    assert_eq!(s.id, NodeId { index: 0 });
    assert_eq!(s.get_untracked(&rt), 7);
    assert_eq!(s.try_get_untracked(&rt), Some(7));
    assert_eq!(s.with_untracked(&rt, |v| v * 2), 14);
    let m = rt.meta_of(s.id);
    assert_eq!(m.kind, NodeKind::Signal);
    assert_eq!(m.owner, NodeOwner::Unowned);
    assert!(m.alive);
    assert!(!m.dirty);
    assert_eq!(m.handles, 0);
}

#[test]
fn read_after_write() {
    let mut rt = Rt::new();
    let s = create_rw_signal(&mut rt, 1);
    s.set(&mut rt, 5);
    assert_eq!(s.get(&mut rt), 5);
    s.set_untracked(&mut rt, 6);
    assert_eq!(s.get_untracked(&rt), 6);
    assert_eq!(s.try_set(&mut rt, 9), None);
    assert_eq!(s.try_get(&mut rt), Some(9));
}

#[test]
fn update_applies_function() {
    let mut rt = Rt::new();
    let s = create_rw_signal(&mut rt, 10);
    s.update(&mut rt, |v| v + 1);
    assert_eq!(s.get_untracked(&rt), 11);
    s.update_untracked(&mut rt, |v| v * 3);
    assert_eq!(s.get_untracked(&rt), 33);
    assert_eq!(s.try_update(&mut rt, |v| (v - 3, v)), Some(33));
    assert_eq!(s.get_untracked(&rt), 30);
    assert_eq!(s.try_update_untracked(&mut rt, |v| (0, v + 1)), Some(31));
    assert_eq!(s.get_untracked(&rt), 0);
}

#[test]
fn disposed_signal_reads_none_and_hands_back_writes() {
    let mut rt = Rt::new();
    let s = create_rw_signal(&mut rt, 3);
    s.dispose(&mut rt);
    assert!(!rt.alive(s.id));
    assert_eq!(s.try_get_untracked(&rt), None);
    assert_eq!(s.try_get(&mut rt), None);
    assert_eq!(s.try_with_untracked(&rt, |v| *v), None);
    assert_eq!(s.try_with(&mut rt, |v| *v), None);
    assert_eq!(s.try_set(&mut rt, 4), Some(4));
    assert_eq!(s.try_set_untracked(&mut rt, 5), Some(5));
    s.set(&mut rt, 6);
    s.update(&mut rt, |v| v + 1);
    assert_eq!(s.try_update(&mut rt, |v| (v, 1)), None);
    assert_eq!(s.try_update_untracked(&mut rt, |v| (v, 1)), None);
    assert_eq!(*rt.value_ref(s.id), None);
}

#[test]
fn unknown_id_reads_none() {
    let rt = Rt::new();
    let s: RwSignal<i64> = RwSignal { id: NodeId { index: 4 }, ty: std::marker::PhantomData };
    assert_eq!(s.try_get_untracked(&rt), None);
    assert!(!rt.alive(s.id));
}

#[test]
fn tracked_write_marks_observer_dirty() {
    let mut rt = Rt::new();
    let s = create_rw_signal(&mut rt, 1);
    let watcher = create_rw_signal(&mut rt, 0);
    rt.set_observer(Some(watcher.id));
    assert_eq!(s.get(&mut rt), 1);
    rt.set_observer(None);
    assert!(!rt.meta_of(watcher.id).dirty);
    s.set_untracked(&mut rt, 2);
    assert!(!rt.meta_of(watcher.id).dirty);
    s.set(&mut rt, 3);
    assert!(rt.meta_of(watcher.id).dirty);
}

#[test]
fn untracked_read_does_not_subscribe() {
    let mut rt = Rt::new();
    let s = create_rw_signal(&mut rt, 1);
    let watcher = create_rw_signal(&mut rt, 0);
    rt.set_observer(Some(watcher.id));
    assert_eq!(s.get_untracked(&rt), 1);
    assert_eq!(s.with_untracked(&rt, |v| *v), 1);
    rt.set_observer(None);
    s.set(&mut rt, 3);
    assert!(!rt.meta_of(watcher.id).dirty);
}

#[test]
fn signals_compare_by_id() {
    let mut rt = Rt::new();
    let a = create_rw_signal(&mut rt, 1);
    let b = create_rw_signal(&mut rt, 1);
    let a2 = a;
    assert!(a == a2);
    assert!(a != b);
}

#[test]
fn scope_disposes_owned_signals_only() {
    let mut rt = Rt::new();
    let outside = create_rw_signal(&mut rt, 1);
    rt.set_owner(NodeOwner::Scope(7));
    let inside = create_rw_signal(&mut rt, 2);
    rt.set_owner(NodeOwner::Scope(8));
    let other = create_rw_signal(&mut rt, 3);
    rt.set_owner(NodeOwner::Unowned);
    rt.dispose_scope(7);
    assert!(rt.alive(outside.id));
    assert!(!rt.alive(inside.id));
    assert!(rt.alive(other.id));
    assert_eq!(inside.try_get_untracked(&rt), None);
    assert_eq!(other.get_untracked(&rt), 3);
}

#[test]
fn set_owner_returns_previous() {
    let mut rt = Rt::new();
    assert_eq!(rt.set_owner(NodeOwner::Scope(1)), NodeOwner::Unowned);
    assert_eq!(rt.set_owner(NodeOwner::Leak), NodeOwner::Scope(1));
    assert_eq!(rt.current_owner(), NodeOwner::Leak);
}

#[test]
fn string_values() {
    let mut rt: Runtime<String, fn(Option<&String>) -> String> = Runtime::new();
    let s = create_rw_signal(&mut rt, String::from("a"));
    s.update(&mut rt, |v| v + "b");
    assert_eq!(s.get_untracked(&rt), "ab");
    assert_eq!(s.with_untracked(&rt, |v| v.len()), 2);
}
