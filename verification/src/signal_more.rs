//! Signals with a lifetime of their own: [`LeakedRwSignal`], which no scope
//! disposes, and [`RcSignal`], which lives as long as a handle of it is held.
use vstd::prelude::*;

use crate::runtime::{fresh_meta, NodeId, NodeKind, NodeMeta, NodeOwner, Runtime};
use crate::signal::{create_rw_signal, try_updated, updated, written, RwSignal, Signal};

use core::marker::PhantomData;

verus! {

/// Whether an intentional leak is under way in `rt`.
pub fn leaking_intentionally<T, F: Fn(Option<&T>) -> T>(rt: &Runtime<T, F>) -> (b: bool)
    ensures
        b == rt.leaking(),
{
    rt.is_leaking()
}

/// Runs `f` with the leak flag set, and puts the flag back as it was.
///
/// `f` receives the runtime with the flag set and hands back the runtime it
/// leaves behind together with its result.
pub fn with_intentional_leak<T, F: Fn(Option<&T>) -> T, Out, G: FnOnce(Runtime<T, F>) -> (
    Runtime<T, F>,
    Out,
)>(rt: &mut Runtime<T, F>, f: G) -> (out: Out)
    requires
        call_requires(f, (old(rt).with_leaking(true),)),
    ensures
        exists|r: Runtime<T, F>|
            #[trigger] call_ensures(f, (old(rt).with_leaking(true),), (r, out)) && *final(rt)
                == r.with_leaking(old(rt).leaking()),
{
    let old_flag = rt.is_leaking();
    rt.set_leaking(true);
    let mut cur: Runtime<T, F> = Runtime::new();
    std::mem::swap(&mut cur, rt);
    let (mut after, out) = f(cur);
    after.set_leaking(old_flag);
    *rt = after;
    out
}

/// `post` is `pre` with one more signal, `id`, which holds `value`, is owned by
/// the leak owner, and has `handles` handles.
pub open spec fn leak_created<T, F: Fn(Option<&T>) -> T>(
    pre: &Runtime<T, F>,
    post: &Runtime<T, F>,
    value: T,
    id: NodeId,
    handles: u64,
) -> bool {
    &&& id.index == pre.len()
    &&& post.values() == pre.values().push(Some(value))
    &&& post.metas() == pre.metas().push(
        NodeMeta { handles, ..fresh_meta(NodeKind::Signal, NodeOwner::Leak) },
    )
    &&& post.computations() == pre.computations().push(None)
    &&& post.subs() == pre.subs()
    &&& post.stored() == pre.stored()
    &&& post.owner() == pre.owner()
    &&& post.observer() == pre.observer()
    &&& post.leaking() == pre.leaking()
}

/// A signal created under the leak owner: no scope disposes it; only the user
/// or the end of the runtime does.
#[derive(Debug)]
pub struct LeakedRwSignal<T>(RwSignal<T>);

impl<T> LeakedRwSignal<T> {
    /// The signal this handle stands for.
    pub closed spec fn signal(&self) -> RwSignal<T> {
        self.0
    }

    /// Creates a signal holding `value` under the leak owner, with the leak
    /// flag set while it is created.
    pub fn new<F: Fn(Option<&T>) -> T>(rt: &mut Runtime<T, F>, value: T) -> (s: Self)
        requires
            old(rt).wf(),
            old(rt).len() < usize::MAX,
        ensures
            final(rt).wf(),
            leak_created(&*old(rt), &*final(rt), value, s.signal().id, 0),
    {
        proof {
            old(rt).lemma_with_leaking(true);
        }
        let ghost v = value;
        let create = move |rt0: Runtime<T, F>| -> (res: (Runtime<T, F>, RwSignal<T>))
            requires
                rt0.wf(),
                rt0.len() < usize::MAX,
            ensures
                res.0.wf(),
                leak_created(&rt0, &res.0, v, res.1.id, 0),
        {
            let mut rt1 = rt0;
            let prev = rt1.set_owner(NodeOwner::Leak);
            let s = create_rw_signal(&mut rt1, value);
            rt1.set_owner(prev);
            (rt1, s)
        };
        let ghost made = create;
        let s = with_intentional_leak(rt, create);
        proof {
            let r = choose|r: Runtime<T, F>|
                #[trigger] call_ensures(made, (old(rt).with_leaking(true),), (r, s)) && *rt
                    == r.with_leaking(old(rt).leaking());
            r.lemma_with_leaking(old(rt).leaking());
        }
        LeakedRwSignal(s)
    }
}

impl<T> LeakedRwSignal<T> {
    /// Creates a leaked signal holding `T`'s default value.
    pub fn default<F: Fn(Option<&T>) -> T>(rt: &mut Runtime<T, F>) -> (s: Self) where T: Default
        requires
            old(rt).wf(),
            old(rt).len() < usize::MAX,
        ensures
            final(rt).wf(),
            leak_created(&*old(rt), &*final(rt), final(rt).value_of(s.signal().id)->0, s.signal().id, 0),
            call_ensures(T::default, (), final(rt).value_of(s.signal().id)->0),
    {
        let make = T::default;
        let v = make();
        let s = Self::new(rt, v);
        proof {
            old(rt).lemma_wf();
            assert(rt.values()[s.signal().id.index as int] == Some(v));
        }
        s
    }
}

impl<T> Clone for LeakedRwSignal<T> {
    fn clone(&self) -> (r: Self)
        ensures
            r == *self,
    {
        LeakedRwSignal(self.0)
    }
}

impl<T> Copy for LeakedRwSignal<T> {

}

impl<T> PartialEq for LeakedRwSignal<T> {
    fn eq(&self, other: &Self) -> (r: bool) {
        self.0.id.index == other.0.id.index
    }
}

impl<T> vstd::std_specs::cmp::PartialEqSpecImpl for LeakedRwSignal<T> {
    open spec fn obeys_eq_spec() -> bool {
        true
    }

    open spec fn eq_spec(&self, other: &Self) -> bool {
        self.signal().id == other.signal().id
    }
}

impl<T> Eq for LeakedRwSignal<T> {

}

impl<T> core::ops::Deref for LeakedRwSignal<T> {
    type Target = RwSignal<T>;

    fn deref(&self) -> (r: &RwSignal<T>)
        ensures
            *r == self.signal(),
    {
        &self.0
    }
}

impl<T> From<LeakedRwSignal<T>> for Signal<T> {
    fn from(value: LeakedRwSignal<T>) -> (r: Signal<T>) {
        Signal { id: value.0.id, ty: PhantomData }
    }
}

impl<T> vstd::std_specs::convert::FromSpecImpl<LeakedRwSignal<T>> for Signal<T> {
    open spec fn obeys_from_spec() -> bool {
        true
    }

    open spec fn from_spec(v: LeakedRwSignal<T>) -> Signal<T> {
        Signal { id: v.signal().id, ty: PhantomData }
    }
}

/// The shared part of the handles of one [`RcSignal`]; dropping the last
/// handle disposes the signal.
#[derive(Debug)]
struct RcSignalInner<T>(LeakedRwSignal<T>);

impl<T> RcSignalInner<T> {
    /// Disposes the signal: the last handle of it is gone.
    fn drop<F: Fn(Option<&T>) -> T>(&self, rt: &mut Runtime<T, F>)
        requires
            old(rt).wf(),
        ensures
            final(rt).wf(),
            old(rt).disposed(&*final(rt), self.0.signal().id),
    {
        self.0.0.dispose(rt);
    }
}

/// A signal that lives as long as a handle of it is held: each handle counts
/// in the runtime, and giving back the last one disposes the signal.
#[derive(Debug)]
pub struct RcSignal<T> {
    inner: RcSignalInner<T>,
}

impl<T> PartialEq for RcSignal<T> {
    fn eq(&self, other: &Self) -> (r: bool) {
        self.inner.0.0.id.index == other.inner.0.0.id.index
    }
}

impl<T> vstd::std_specs::cmp::PartialEqSpecImpl for RcSignal<T> {
    open spec fn obeys_eq_spec() -> bool {
        true
    }

    open spec fn eq_spec(&self, other: &Self) -> bool {
        self.signal().id == other.signal().id
    }
}

impl<T> Eq for RcSignal<T> {

}

impl<T> RcSignal<T> {
    /// The signal this handle stands for.
    pub closed spec fn signal(&self) -> RwSignal<T> {
        self.inner.0.signal()
    }

    /// Creates a leaked signal holding `value`, with this one handle.
    pub fn new<F: Fn(Option<&T>) -> T>(rt: &mut Runtime<T, F>, value: T) -> (s: Self)
        requires
            old(rt).wf(),
            old(rt).len() < usize::MAX,
        ensures
            final(rt).wf(),
            leak_created(&*old(rt), &*final(rt), value, s.signal().id, 1),
    {
        let leaked = LeakedRwSignal::new(rt, value);
        rt.retain_handle(leaked.0.id);
        proof {
            assert(rt.metas() =~= old(rt).metas().push(
                NodeMeta { handles: 1, ..fresh_meta(NodeKind::Signal, NodeOwner::Leak) },
            ));
        }
        RcSignal { inner: RcSignalInner(leaked) }
    }

    /// Creates a signal holding `T`'s default value, with this one handle.
    pub fn default<F: Fn(Option<&T>) -> T>(rt: &mut Runtime<T, F>) -> (s: Self) where T: Default
        requires
            old(rt).wf(),
            old(rt).len() < usize::MAX,
        ensures
            final(rt).wf(),
            leak_created(&*old(rt), &*final(rt), final(rt).value_of(s.signal().id)->0, s.signal().id, 1),
            call_ensures(T::default, (), final(rt).value_of(s.signal().id)->0),
    {
        let make = T::default;
        let v = make();
        let s = Self::new(rt, v);
        proof {
            old(rt).lemma_wf();
            assert(rt.values()[s.signal().id.index as int] == Some(v));
        }
        s
    }

    /// The signal as a plain [`RwSignal`], kept alive at least as long as the
    /// current owner: the owner takes a handle of it.
    pub fn into_rw<F: Fn(Option<&T>) -> T>(&self, rt: &mut Runtime<T, F>) -> (r: RwSignal<T>)
        requires
            old(rt).wf(),
            self.signal().id.index < old(rt).len(),
            old(rt).metas()[self.signal().id.index as int].handles < u64::MAX,
        ensures
            final(rt).wf(),
            old(rt).stored_by_owner(&*final(rt), self.signal().id),
            r == self.signal(),
    {
        rt.store_handle(self.inner.0.0.id);
        self.inner.0.0
    }

    /// A second handle of the same signal.
    pub fn clone<F: Fn(Option<&T>) -> T>(&self, rt: &mut Runtime<T, F>) -> (r: Self)
        requires
            old(rt).wf(),
            self.signal().id.index < old(rt).len(),
            old(rt).metas()[self.signal().id.index as int].handles < u64::MAX,
        ensures
            final(rt).wf(),
            old(rt).retained(&*final(rt), self.signal().id),
            r.signal() == self.signal(),
    {
        rt.retain_handle(self.inner.0.0.id);
        RcSignal { inner: RcSignalInner(self.inner.0) }
    }

    /// Gives this handle back; the last one disposes the signal.
    pub fn release<F: Fn(Option<&T>) -> T>(self, rt: &mut Runtime<T, F>)
        requires
            old(rt).wf(),
            self.signal().id.index < old(rt).len(),
        ensures
            final(rt).wf(),
            old(rt).handle_dropped(&*final(rt), self.signal().id),
    {
        let last = rt.release_handle(self.inner.0.0.id);
        if last {
            self.inner.drop(rt);
            proof {
                let i = self.signal().id.index as int;
                let m = old(rt).metas()[i];
                assert(rt.metas() =~= old(rt).metas().update(
                    i,
                    NodeMeta { alive: false, handles: 0, ..m },
                ));
            }
        }
    }

    /// Applies `f` to the signal's value without subscribing to it.
    /// The signal must be live.
    pub fn with_untracked<F: Fn(Option<&T>) -> T, O, G: FnOnce(&T) -> O>(
        &self,
        rt: &Runtime<T, F>,
        f: G,
    ) -> (r: O)
        requires
            rt.wf(),
            rt.is_signal(self.signal().id),
            call_requires(f, (&rt.value_of(self.signal().id)->0,)),
        ensures
            call_ensures(f, (&rt.value_of(self.signal().id)->0,), r),
    {
        self.inner.0.with_untracked(rt, f)
    }

    /// Applies `f` to the signal's value without subscribing to it; `None`
    /// if the signal has been disposed.
    pub fn try_with_untracked<F: Fn(Option<&T>) -> T, O, G: FnOnce(&T) -> O>(
        &self,
        rt: &Runtime<T, F>,
        f: G,
    ) -> (r: Option<O>)
        requires
            rt.wf(),
            rt.is_signal(self.signal().id) ==> call_requires(f, (&rt.value_of(self.signal().id)->0,)),
        ensures
            r is Some <==> rt.is_signal(self.signal().id),
            r is Some ==> call_ensures(f, (&rt.value_of(self.signal().id)->0,), r->0),
    {
        self.inner.0.try_with_untracked(rt, f)
    }

    /// Subscribes the current observer to the signal and applies `f` to its
    /// value. The signal must be live.
    pub fn with<F: Fn(Option<&T>) -> T, O, G: FnOnce(&T) -> O>(
        &self,
        rt: &mut Runtime<T, F>,
        f: G,
    ) -> (r: O)
        requires
            old(rt).wf(),
            old(rt).is_signal(self.signal().id),
            call_requires(f, (&old(rt).value_of(self.signal().id)->0,)),
        ensures
            final(rt).wf(),
            old(rt).tracked_read(&*final(rt), self.signal().id),
            call_ensures(f, (&old(rt).value_of(self.signal().id)->0,), r),
    {
        self.inner.0.with(rt, f)
    }

    /// Subscribes the current observer to the signal and applies `f` to its
    /// value; `None` if the signal has been disposed.
    pub fn try_with<F: Fn(Option<&T>) -> T, O, G: FnOnce(&T) -> O>(
        &self,
        rt: &mut Runtime<T, F>,
        f: G,
    ) -> (r: Option<O>)
        requires
            old(rt).wf(),
            old(rt).is_signal(self.signal().id) ==> call_requires(
                f,
                (&old(rt).value_of(self.signal().id)->0,),
            ),
        ensures
            final(rt).wf(),
            old(rt).tracked_read(&*final(rt), self.signal().id),
            r is Some <==> old(rt).is_signal(self.signal().id),
            r is Some ==> call_ensures(f, (&old(rt).value_of(self.signal().id)->0,), r->0),
    {
        self.inner.0.try_with(rt, f)
    }

    /// A clone of the signal's value, without subscribing to it. The signal
    /// must be live.
    pub fn get_untracked<F: Fn(Option<&T>) -> T>(&self, rt: &Runtime<T, F>) -> (r: T) where
        T: Clone,

        requires
            rt.wf(),
            rt.is_signal(self.signal().id),
        ensures
            cloned(rt.value_of(self.signal().id)->0, r),
    {
        self.inner.0.get_untracked(rt)
    }

    /// A clone of the signal's value, without subscribing to it; `None` if
    /// the signal has been disposed.
    pub fn try_get_untracked<F: Fn(Option<&T>) -> T>(&self, rt: &Runtime<T, F>) -> (r: Option<T>) where
        T: Clone,

        requires
            rt.wf(),
        ensures
            r is Some <==> rt.is_signal(self.signal().id),
            r is Some ==> cloned(rt.value_of(self.signal().id)->0, r->0),
    {
        self.inner.0.try_get_untracked(rt)
    }

    /// Subscribes the current observer to the signal and returns a clone of
    /// its value. The signal must be live.
    pub fn get<F: Fn(Option<&T>) -> T>(&self, rt: &mut Runtime<T, F>) -> (r: T) where T: Clone
        requires
            old(rt).wf(),
            old(rt).is_signal(self.signal().id),
        ensures
            final(rt).wf(),
            old(rt).tracked_read(&*final(rt), self.signal().id),
            cloned(old(rt).value_of(self.signal().id)->0, r),
    {
        self.inner.0.get(rt)
    }

    /// Subscribes the current observer to the signal and returns a clone of
    /// its value; `None` if the signal has been disposed.
    pub fn try_get<F: Fn(Option<&T>) -> T>(&self, rt: &mut Runtime<T, F>) -> (r: Option<T>) where
        T: Clone,

        requires
            old(rt).wf(),
        ensures
            final(rt).wf(),
            old(rt).tracked_read(&*final(rt), self.signal().id),
            r is Some <==> old(rt).is_signal(self.signal().id),
            r is Some ==> cloned(old(rt).value_of(self.signal().id)->0, r->0),
    {
        self.inner.0.try_get(rt)
    }

    /// Writes `new_value` and marks the signal's subscribers dirty; on a
    /// disposed signal nothing happens.
    pub fn set<F: Fn(Option<&T>) -> T>(&self, rt: &mut Runtime<T, F>, new_value: T)
        requires
            old(rt).wf(),
        ensures
            final(rt).wf(),
            written(&*old(rt), &*final(rt), self.signal().id, new_value, true),
    {
        self.inner.0.set(rt, new_value);
    }

    /// Writes `new_value` and marks the signal's subscribers dirty; on a
    /// disposed signal the value is handed back.
    pub fn try_set<F: Fn(Option<&T>) -> T>(&self, rt: &mut Runtime<T, F>, new_value: T) -> (r:
        Option<T>)
        requires
            old(rt).wf(),
        ensures
            final(rt).wf(),
            written(&*old(rt), &*final(rt), self.signal().id, new_value, true),
            r == if old(rt).is_signal(self.signal().id) {
                None
            } else {
                Some(new_value)
            },
    {
        self.inner.0.try_set(rt, new_value)
    }

    /// Writes `new_value` without telling the subscribers; on a disposed
    /// signal nothing happens.
    pub fn set_untracked<F: Fn(Option<&T>) -> T>(&self, rt: &mut Runtime<T, F>, new_value: T)
        requires
            old(rt).wf(),
        ensures
            final(rt).wf(),
            written(&*old(rt), &*final(rt), self.signal().id, new_value, false),
    {
        self.inner.0.set_untracked(rt, new_value);
    }

    /// Writes `new_value` without telling the subscribers; on a disposed
    /// signal the value is handed back.
    pub fn try_set_untracked<F: Fn(Option<&T>) -> T>(
        &self,
        rt: &mut Runtime<T, F>,
        new_value: T,
    ) -> (r: Option<T>)
        requires
            old(rt).wf(),
        ensures
            final(rt).wf(),
            written(&*old(rt), &*final(rt), self.signal().id, new_value, false),
            r == if old(rt).is_signal(self.signal().id) {
                None
            } else {
                Some(new_value)
            },
    {
        self.inner.0.try_set_untracked(rt, new_value)
    }

    /// Replaces the signal's value by what `f` returns for it and marks the
    /// signal's subscribers dirty; on a disposed signal nothing happens.
    pub fn update<F: Fn(Option<&T>) -> T, G: FnOnce(T) -> T>(&self, rt: &mut Runtime<T, F>, f: G)
        requires
            old(rt).wf(),
            old(rt).is_signal(self.signal().id) ==> call_requires(
                f,
                (old(rt).value_of(self.signal().id)->0,),
            ),
        ensures
            final(rt).wf(),
            updated(&*old(rt), &*final(rt), self.signal().id, f, true),
    {
        self.inner.0.update(rt, f);
    }

    /// Replaces the signal's value by the first part of what `f` returns for
    /// it, marks the signal's subscribers dirty, and returns the second part;
    /// `None` on a disposed signal.
    pub fn try_update<F: Fn(Option<&T>) -> T, O, G: FnOnce(T) -> (T, O)>(
        &self,
        rt: &mut Runtime<T, F>,
        f: G,
    ) -> (r: Option<O>)
        requires
            old(rt).wf(),
            old(rt).is_signal(self.signal().id) ==> call_requires(
                f,
                (old(rt).value_of(self.signal().id)->0,),
            ),
        ensures
            final(rt).wf(),
            try_updated(&*old(rt), &*final(rt), self.signal().id, f, true, r),
    {
        self.inner.0.try_update(rt, f)
    }

    /// Replaces the signal's value by what `f` returns for it without telling
    /// the subscribers; on a disposed signal nothing happens.
    pub fn update_untracked<F: Fn(Option<&T>) -> T, G: FnOnce(T) -> T>(
        &self,
        rt: &mut Runtime<T, F>,
        f: G,
    )
        requires
            old(rt).wf(),
            old(rt).is_signal(self.signal().id) ==> call_requires(
                f,
                (old(rt).value_of(self.signal().id)->0,),
            ),
        ensures
            final(rt).wf(),
            updated(&*old(rt), &*final(rt), self.signal().id, f, false),
    {
        self.inner.0.update_untracked(rt, f);
    }

    /// Replaces the signal's value by the first part of what `f` returns for
    /// it without telling the subscribers, and returns the second part;
    /// `None` on a disposed signal.
    pub fn try_update_untracked<F: Fn(Option<&T>) -> T, O, G: FnOnce(T) -> (T, O)>(
        &self,
        rt: &mut Runtime<T, F>,
        f: G,
    ) -> (r: Option<O>)
        requires
            old(rt).wf(),
            old(rt).is_signal(self.signal().id) ==> call_requires(
                f,
                (old(rt).value_of(self.signal().id)->0,),
            ),
        ensures
            final(rt).wf(),
            try_updated(&*old(rt), &*final(rt), self.signal().id, f, false, r),
    {
        self.inner.0.try_update_untracked(rt, f)
    }
}

} // verus!
