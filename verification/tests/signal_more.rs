use leptos_reactive::runtime::{NodeOwner, Runtime};
use leptos_reactive::signal::Signal;
use leptos_reactive::signal_more::{
    leaking_intentionally, with_intentional_leak, LeakedRwSignal, RcSignal,
};

type Rt = Runtime<i64, fn(Option<&i64>) -> i64>;

#[test]
fn leak_flag_is_set_only_during_the_call() {
    let mut rt = Rt::new();
    assert!(!leaking_intentionally(&rt));
    let seen = with_intentional_leak(&mut rt, |inner: Rt| {
        let flag = leaking_intentionally(&inner);
        (inner, flag)
    });
    assert!(seen);
    assert!(!leaking_intentionally(&rt));
}

#[test]
fn nested_leak_restores_outer_flag() {
    let mut rt = Rt::new();
    let (inner_after, outer_during) = with_intentional_leak(&mut rt, |mut inner: Rt| {
        let nested = with_intentional_leak(&mut inner, |r: Rt| {
            let f = r.is_leaking();
            (r, f)
        });
        let after = inner.is_leaking();
        (inner, (nested && after, after))
    });
    assert!(inner_after);
    assert!(outer_during);
    assert!(!rt.is_leaking());
}

#[test]
fn leaked_signal_is_owned_by_leak() {
    let mut rt = Rt::new();
    rt.set_owner(NodeOwner::Scope(3));
    let s = LeakedRwSignal::new(&mut rt, 42);
    assert_eq!(rt.meta_of(s.id).owner, NodeOwner::Leak);
    assert_eq!(rt.current_owner(), NodeOwner::Scope(3));
    assert!(!rt.is_leaking());
    assert_eq!(s.get_untracked(&rt), 42);
}

#[test]
fn leaked_signal_survives_scope_disposal() {
    let mut rt = Rt::new();
    rt.set_owner(NodeOwner::Scope(3));
    let leaked = LeakedRwSignal::new(&mut rt, 1);
    let owned = leptos_reactive::signal::create_rw_signal(&mut rt, 2);
    rt.dispose_scope(3);
    assert!(rt.alive(leaked.id));
    assert!(!rt.alive(owned.id));
    assert_eq!(leaked.get_untracked(&rt), 1);
}

#[test]
fn leaked_signal_can_be_disposed_by_hand() {
    let mut rt = Rt::new();
    let leaked = LeakedRwSignal::new(&mut rt, 1);
    leaked.dispose(&mut rt);
    assert_eq!(leaked.try_get_untracked(&rt), None);
}

#[test]
fn leaked_default_and_copy_and_eq() {
    let mut rt = Rt::new();
    let a = LeakedRwSignal::default(&mut rt);
    let b = a;
    let c = LeakedRwSignal::new(&mut rt, 0);
    assert_eq!(a.get_untracked(&rt), 0);
    assert!(a == b);
    assert!(a != c);
}

#[test]
fn leaked_into_signal_keeps_id() {
    let mut rt = Rt::new();
    let a = LeakedRwSignal::new(&mut rt, 5);
    let s: Signal<i64> = a.into();
    assert_eq!(s.id, a.id);
    assert_eq!(s.try_get_untracked(&rt), Some(5));
}

#[test]
fn rc_signal_starts_with_one_handle() {
    let mut rt = Rt::new();
    let s = RcSignal::new(&mut rt, 8);
    let rw = s.into_rw(&mut rt);
    assert_eq!(rt.meta_of(rw.id).handles, 2);
    assert_eq!(rt.meta_of(rw.id).owner, NodeOwner::Leak);
    assert_eq!(s.get_untracked(&rt), 8);
}

#[test]
fn rc_signal_clones_share_the_signal() {
    let mut rt = Rt::new();
    let a = RcSignal::new(&mut rt, 1);
    let b = a.clone(&mut rt);
    assert!(a == b);
    b.set(&mut rt, 5);
    assert_eq!(a.get(&mut rt), 5);
    a.update(&mut rt, |v| v * 2);
    assert_eq!(b.get_untracked(&rt), 10);
}

#[test]
fn rc_signal_disposed_with_last_handle() {
    let mut rt = Rt::new();
    let a = RcSignal::new(&mut rt, 1);
    let b = a.clone(&mut rt);
    rt.set_owner(NodeOwner::Scope(1));
    let rw = b.into_rw(&mut rt);
    rt.dispose_scope(1);
    assert_eq!(rt.meta_of(rw.id).handles, 2);
    a.release(&mut rt);
    assert!(rt.alive(rw.id));
    assert_eq!(b.try_get_untracked(&rt), Some(1));
    b.release(&mut rt);
    assert!(!rt.alive(rw.id));
    assert_eq!(rw.try_get_untracked(&rt), None);
}

#[test]
fn into_rw_lives_as_long_as_the_scope() {
    let mut rt = Rt::new();
    rt.set_owner(NodeOwner::Scope(1));
    let rc = RcSignal::new(&mut rt, 4);
    let rw = rc.into_rw(&mut rt);
    rc.release(&mut rt);
    assert!(rt.alive(rw.id));
    assert_eq!(rw.get_untracked(&rt), 4);
    rt.dispose_scope(2);
    assert!(rt.alive(rw.id));
    rt.dispose_scope(1);
    assert!(!rt.alive(rw.id));
}

#[test]
fn into_rw_outside_a_scope_keeps_the_signal() {
    let mut rt = Rt::new();
    let rc = RcSignal::new(&mut rt, 4);
    let rw = rc.into_rw(&mut rt);
    rc.release(&mut rt);
    assert!(rt.alive(rw.id));
    assert_eq!(rt.meta_of(rw.id).handles, 1);
}

#[test]
fn rc_signal_forwarders() {
    let mut rt = Rt::new();
    let s = RcSignal::new(&mut rt, 2);
    assert_eq!(s.with_untracked(&rt, |v| v + 1), 3);
    assert_eq!(s.try_with_untracked(&rt, |v| v + 1), Some(3));
    assert_eq!(s.with(&mut rt, |v| v + 2), 4);
    assert_eq!(s.try_with(&mut rt, |v| v + 2), Some(4));
    assert_eq!(s.try_get_untracked(&rt), Some(2));
    assert_eq!(s.try_get(&mut rt), Some(2));
    s.set_untracked(&mut rt, 3);
    assert_eq!(s.try_set(&mut rt, 4), None);
    assert_eq!(s.try_set_untracked(&mut rt, 5), None);
    s.update_untracked(&mut rt, |v| v + 1);
    assert_eq!(s.get_untracked(&rt), 6);
    assert_eq!(s.try_update(&mut rt, |v| (v + 1, v)), Some(6));
    assert_eq!(s.try_update_untracked(&mut rt, |v| (v + 1, v)), Some(7));
    assert_eq!(s.get_untracked(&rt), 8);
}

#[test]
fn rc_signal_default_holds_default() {
    let mut rt = Rt::new();
    let s = RcSignal::default(&mut rt);
    assert_eq!(s.get_untracked(&rt), 0);
}
