//! Signals that can be read and written: the handle [`RwSignal`], and what its
//! reads and writes do to a [`Runtime`].
use vstd::prelude::*;

use core::marker::PhantomData;

use crate::runtime::{lemma_value_written, marked, node_ok, NodeId, NodeKind, Runtime};

verus! {

/// A handle to a signal of a [`Runtime`] that can be read and written.
#[derive(Debug)]
pub struct RwSignal<T> {
    pub id: NodeId,
    pub ty: PhantomData<T>,
}

impl<T> Clone for RwSignal<T> {
    fn clone(&self) -> (r: Self)
        ensures
            r == *self,
    {
        *self
    }
}

impl<T> Copy for RwSignal<T> {

}

impl<T> PartialEq for RwSignal<T> {
    fn eq(&self, other: &Self) -> (r: bool) {
        self.id.index == other.id.index
    }
}

impl<T> vstd::std_specs::cmp::PartialEqSpecImpl for RwSignal<T> {
    open spec fn obeys_eq_spec() -> bool {
        true
    }

    open spec fn eq_spec(&self, other: &Self) -> bool {
        self.id == other.id
    }
}

impl<T> Eq for RwSignal<T> {

}

/// A handle to a signal of a [`Runtime`] that can only be read.
#[derive(Debug)]
pub struct Signal<T> {
    pub id: NodeId,
    pub ty: PhantomData<T>,
}

impl<T> Clone for Signal<T> {
    fn clone(&self) -> (r: Self)
        ensures
            r == *self,
    {
        *self
    }
}

impl<T> Copy for Signal<T> {

}

impl<T> Signal<T> {
    /// A clone of the signal's value, without subscribing to it; `None` if
    /// the signal has been disposed.
    pub fn try_get_untracked<F: Fn(Option<&T>) -> T>(&self, rt: &Runtime<T, F>) -> (r: Option<T>) where
        T: Clone,

        requires
            rt.wf(),
        ensures
            r is Some <==> rt.is_signal(self.id),
            r is Some ==> cloned(rt.value_of(self.id)->0, r->0),
    {
        let s: RwSignal<T> = RwSignal { id: self.id, ty: PhantomData };
        s.try_get_untracked(rt)
    }
}

/// `post` is `pre` after `v` was written to signal `id`; a notifying write also
/// marks the subscribers of `id` dirty. Writing to anything but a live signal
/// changes nothing.
pub open spec fn written<T, F: Fn(Option<&T>) -> T>(
    pre: &Runtime<T, F>,
    post: &Runtime<T, F>,
    id: NodeId,
    v: T,
    notifying: bool,
) -> bool {
    &&& pre.same_graph(post)
    &&& if pre.is_signal(id) {
        &&& post.values() == pre.values().update(id.index as int, Some(v))
        &&& post.metas() == if notifying {
            marked(pre.metas(), pre.subs(), id.index as int)
        } else {
            pre.metas()
        }
    } else {
        &&& post.values() == pre.values()
        &&& post.metas() == pre.metas()
    }
}

/// `post` is `pre` after signal `id` was given the value that `f` returned for
/// its current one; a notifying update also marks the subscribers of `id` dirty.
/// On anything but a live signal, `f` is not called and nothing changes.
pub open spec fn updated<T, F: Fn(Option<&T>) -> T, G: FnOnce(T) -> T>(
    pre: &Runtime<T, F>,
    post: &Runtime<T, F>,
    id: NodeId,
    f: G,
    notifying: bool,
) -> bool {
    &&& pre.same_graph(post)
    &&& if pre.is_signal(id) {
        &&& post.values() == pre.values().update(id.index as int, post.value_of(id))
        &&& post.value_of(id) is Some
        &&& call_ensures(f, (pre.value_of(id)->0,), post.value_of(id)->0)
        &&& post.metas() == if notifying {
            marked(pre.metas(), pre.subs(), id.index as int)
        } else {
            pre.metas()
        }
    } else {
        &&& post.values() == pre.values()
        &&& post.metas() == pre.metas()
    }
}

/// `post` is `pre` after signal `id` was given the first part of what `f`
/// returned for its current value, and `r` holds the second part; a tracked
/// update also marks the subscribers of `id` dirty. On anything but a live
/// signal, `f` is not called, nothing changes and `r` is `None`.
pub open spec fn try_updated<T, F: Fn(Option<&T>) -> T, O, G: FnOnce(T) -> (T, O)>(
    pre: &Runtime<T, F>,
    post: &Runtime<T, F>,
    id: NodeId,
    f: G,
    notifying: bool,
    r: Option<O>,
) -> bool {
    &&& pre.same_graph(post)
    &&& (r is Some <==> pre.is_signal(id))
    &&& if pre.is_signal(id) {
        &&& post.values() == pre.values().update(id.index as int, post.value_of(id))
        &&& post.value_of(id) is Some
        &&& call_ensures(f, (pre.value_of(id)->0,), (post.value_of(id)->0, r->0))
        &&& post.metas() == if notifying {
            marked(pre.metas(), pre.subs(), id.index as int)
        } else {
            pre.metas()
        }
    } else {
        &&& post.values() == pre.values()
        &&& post.metas() == pre.metas()
    }
}

/// Creates a signal holding `value`, owned by the runtime's current owner.
pub fn create_rw_signal<T, F: Fn(Option<&T>) -> T>(rt: &mut Runtime<T, F>, value: T) -> (s:
    RwSignal<T>)
    requires
        old(rt).wf(),
        old(rt).len() < usize::MAX,
    ensures
        final(rt).wf(),
        old(rt).created(&*final(rt), NodeKind::Signal, Some(value), None, s.id),
{
    let id = rt.create_node(NodeKind::Signal, Some(value), None);
    RwSignal { id, ty: PhantomData }
}

impl<T> RwSignal<T> {
    /// Applies `f` to the signal's value without subscribing to it.
    /// The signal must be live.
    pub fn with_untracked<F: Fn(Option<&T>) -> T, O, G: FnOnce(&T) -> O>(
        &self,
        rt: &Runtime<T, F>,
        f: G,
    ) -> (r: O)
        requires
            rt.wf(),
            rt.is_signal(self.id),
            call_requires(f, (&rt.value_of(self.id)->0,)),
        ensures
            call_ensures(f, (&rt.value_of(self.id)->0,), r),
    {
        proof {
            rt.lemma_wf();
            assert(node_ok(rt.metas()[self.id.index as int], rt.values()[self.id.index as int], rt.computations()[self.id.index as int]));
        }
        let v = rt.value_ref(self.id).as_ref().unwrap();
        f(v)
    }

    /// Applies `f` to the signal's value without subscribing to it; `None`
    /// if the signal has been disposed.
    pub fn try_with_untracked<F: Fn(Option<&T>) -> T, O, G: FnOnce(&T) -> O>(
        &self,
        rt: &Runtime<T, F>,
        f: G,
    ) -> (r: Option<O>)
        requires
            rt.wf(),
            rt.is_signal(self.id) ==> call_requires(f, (&rt.value_of(self.id)->0,)),
        ensures
            r is Some <==> rt.is_signal(self.id),
            r is Some ==> call_ensures(f, (&rt.value_of(self.id)->0,), r->0),
    {
        if rt.signal_alive(self.id) {
            Some(self.with_untracked(rt, f))
        } else {
            None
        }
    }

    /// Subscribes the current observer to the signal and applies `f` to its
    /// value. The signal must be live.
    pub fn with<F: Fn(Option<&T>) -> T, O, G: FnOnce(&T) -> O>(
        &self,
        rt: &mut Runtime<T, F>,
        f: G,
    ) -> (r: O)
        requires
            old(rt).wf(),
            old(rt).is_signal(self.id),
            call_requires(f, (&old(rt).value_of(self.id)->0,)),
        ensures
            final(rt).wf(),
            old(rt).tracked_read(&*final(rt), self.id),
            call_ensures(f, (&old(rt).value_of(self.id)->0,), r),
    {
        rt.subscribe(self.id);
        self.with_untracked(rt, f)
    }

    /// Subscribes the current observer to the signal and applies `f` to its
    /// value; `None` if the signal has been disposed.
    pub fn try_with<F: Fn(Option<&T>) -> T, O, G: FnOnce(&T) -> O>(
        &self,
        rt: &mut Runtime<T, F>,
        f: G,
    ) -> (r: Option<O>)
        requires
            old(rt).wf(),
            old(rt).is_signal(self.id) ==> call_requires(f, (&old(rt).value_of(self.id)->0,)),
        ensures
            final(rt).wf(),
            old(rt).tracked_read(&*final(rt), self.id),
            r is Some <==> old(rt).is_signal(self.id),
            r is Some ==> call_ensures(f, (&old(rt).value_of(self.id)->0,), r->0),
    {
        rt.subscribe(self.id);
        self.try_with_untracked(rt, f)
    }

    /// A clone of the signal's value, without subscribing to it. The signal
    /// must be live.
    pub fn get_untracked<F: Fn(Option<&T>) -> T>(&self, rt: &Runtime<T, F>) -> (r: T) where
        T: Clone,

        requires
            rt.wf(),
            rt.is_signal(self.id),
        ensures
            cloned(rt.value_of(self.id)->0, r),
    {
        proof {
            rt.lemma_wf();
            assert(node_ok(rt.metas()[self.id.index as int], rt.values()[self.id.index as int], rt.computations()[self.id.index as int]));
        }
        rt.value_ref(self.id).as_ref().unwrap().clone()
    }

    /// A clone of the signal's value, without subscribing to it; `None` if
    /// the signal has been disposed.
    pub fn try_get_untracked<F: Fn(Option<&T>) -> T>(&self, rt: &Runtime<T, F>) -> (r: Option<T>) where
        T: Clone,

        requires
            rt.wf(),
        ensures
            r is Some <==> rt.is_signal(self.id),
            r is Some ==> cloned(rt.value_of(self.id)->0, r->0),
    {
        if rt.signal_alive(self.id) {
            Some(self.get_untracked(rt))
        } else {
            None
        }
    }

    /// Subscribes the current observer to the signal and returns a clone of
    /// its value. The signal must be live.
    pub fn get<F: Fn(Option<&T>) -> T>(&self, rt: &mut Runtime<T, F>) -> (r: T) where T: Clone
        requires
            old(rt).wf(),
            old(rt).is_signal(self.id),
        ensures
            final(rt).wf(),
            old(rt).tracked_read(&*final(rt), self.id),
            cloned(old(rt).value_of(self.id)->0, r),
    {
        rt.subscribe(self.id);
        self.get_untracked(rt)
    }

    /// Subscribes the current observer to the signal and returns a clone of
    /// its value; `None` if the signal has been disposed.
    pub fn try_get<F: Fn(Option<&T>) -> T>(&self, rt: &mut Runtime<T, F>) -> (r: Option<T>) where
        T: Clone,

        requires
            old(rt).wf(),
        ensures
            final(rt).wf(),
            old(rt).tracked_read(&*final(rt), self.id),
            r is Some <==> old(rt).is_signal(self.id),
            r is Some ==> cloned(old(rt).value_of(self.id)->0, r->0),
    {
        rt.subscribe(self.id);
        self.try_get_untracked(rt)
    }

    /// Writes `new_value` and marks the signal's subscribers dirty; on a
    /// disposed signal nothing happens.
    pub fn set<F: Fn(Option<&T>) -> T>(&self, rt: &mut Runtime<T, F>, new_value: T)
        requires
            old(rt).wf(),
        ensures
            final(rt).wf(),
            written(&*old(rt), &*final(rt), self.id, new_value, true),
    {
        let _ = self.try_set(rt, new_value);
    }

    /// Writes `new_value` and marks the signal's subscribers dirty; on a
    /// disposed signal the value is handed back.
    pub fn try_set<F: Fn(Option<&T>) -> T>(&self, rt: &mut Runtime<T, F>, new_value: T) -> (r:
        Option<T>)
        requires
            old(rt).wf(),
        ensures
            final(rt).wf(),
            written(&*old(rt), &*final(rt), self.id, new_value, true),
            r == if old(rt).is_signal(self.id) {
                None
            } else {
                Some(new_value)
            },
    {
        let r = self.try_set_untracked(rt, new_value);
        if r.is_none() {
            rt.notify(self.id);
        }
        r
    }

    /// Writes `new_value` without telling the subscribers; on a disposed
    /// signal nothing happens.
    pub fn set_untracked<F: Fn(Option<&T>) -> T>(&self, rt: &mut Runtime<T, F>, new_value: T)
        requires
            old(rt).wf(),
        ensures
            final(rt).wf(),
            written(&*old(rt), &*final(rt), self.id, new_value, false),
    {
        let _ = self.try_set_untracked(rt, new_value);
    }

    /// Writes `new_value` without telling the subscribers; on a disposed
    /// signal the value is handed back.
    pub fn try_set_untracked<F: Fn(Option<&T>) -> T>(
        &self,
        rt: &mut Runtime<T, F>,
        new_value: T,
    ) -> (r: Option<T>)
        requires
            old(rt).wf(),
        ensures
            final(rt).wf(),
            written(&*old(rt), &*final(rt), self.id, new_value, false),
            r == if old(rt).is_signal(self.id) {
                None
            } else {
                Some(new_value)
            },
    {
        if rt.signal_alive(self.id) {
            proof {
                rt.lemma_wf();
            }
            rt.put_value(self.id, Some(new_value));
            proof {
                assert(rt.values() =~= old(rt).values().update(self.id.index as int, rt.value_of(self.id)));
                lemma_value_written(*old(rt), *rt, self.id);
            }
            None
        } else {
            Some(new_value)
        }
    }

    /// Replaces the signal's value by what `f` returns for it and marks the
    /// signal's subscribers dirty; on a disposed signal nothing happens.
    pub fn update<F: Fn(Option<&T>) -> T, G: FnOnce(T) -> T>(&self, rt: &mut Runtime<T, F>, f: G)
        requires
            old(rt).wf(),
            old(rt).is_signal(self.id) ==> call_requires(f, (old(rt).value_of(self.id)->0,)),
        ensures
            final(rt).wf(),
            updated(&*old(rt), &*final(rt), self.id, f, true),
    {
        self.update_untracked(rt, f);
        if rt.signal_alive(self.id) {
            rt.notify(self.id);
        }
    }

    /// Replaces the signal's value by the first part of what `f` returns for
    /// it, marks the signal's subscribers dirty, and returns the second part;
    /// `None` on a disposed signal.
    pub fn try_update<F: Fn(Option<&T>) -> T, O, G: FnOnce(T) -> (T, O)>(
        &self,
        rt: &mut Runtime<T, F>,
        f: G,
    ) -> (r: Option<O>)
        requires
            old(rt).wf(),
            old(rt).is_signal(self.id) ==> call_requires(f, (old(rt).value_of(self.id)->0,)),
        ensures
            final(rt).wf(),
            try_updated(&*old(rt), &*final(rt), self.id, f, true, r),
    {
        let r = self.try_update_untracked(rt, f);
        if r.is_some() {
            rt.notify(self.id);
        }
        r
    }

    /// Replaces the signal's value by what `f` returns for it without telling
    /// the subscribers; on a disposed signal nothing happens.
    pub fn update_untracked<F: Fn(Option<&T>) -> T, G: FnOnce(T) -> T>(
        &self,
        rt: &mut Runtime<T, F>,
        f: G,
    )
        requires
            old(rt).wf(),
            old(rt).is_signal(self.id) ==> call_requires(f, (old(rt).value_of(self.id)->0,)),
        ensures
            final(rt).wf(),
            updated(&*old(rt), &*final(rt), self.id, f, false),
    {
        if rt.signal_alive(self.id) {
            proof {
                rt.lemma_wf();
                assert(node_ok(rt.metas()[self.id.index as int], rt.values()[self.id.index as int], rt.computations()[self.id.index as int]));
            }
            let v = rt.take_value(self.id).unwrap();
            let w = f(v);
            rt.put_value(self.id, Some(w));
            proof {
                assert(rt.values() =~= old(rt).values().update(self.id.index as int, rt.value_of(self.id)));
                lemma_value_written(*old(rt), *rt, self.id);
            }
        }
    }

    /// Replaces the signal's value by the first part of what `f` returns for
    /// it without telling the subscribers, and returns the second part;
    /// `None` on a disposed signal.
    pub fn try_update_untracked<F: Fn(Option<&T>) -> T, O, G: FnOnce(T) -> (T, O)>(
        &self,
        rt: &mut Runtime<T, F>,
        f: G,
    ) -> (r: Option<O>)
        requires
            old(rt).wf(),
            old(rt).is_signal(self.id) ==> call_requires(f, (old(rt).value_of(self.id)->0,)),
        ensures
            final(rt).wf(),
            try_updated(&*old(rt), &*final(rt), self.id, f, false, r),
    {
        if rt.signal_alive(self.id) {
            proof {
                rt.lemma_wf();
                assert(node_ok(rt.metas()[self.id.index as int], rt.values()[self.id.index as int], rt.computations()[self.id.index as int]));
            }
            let v = rt.take_value(self.id).unwrap();
            let (w, out) = f(v);
            rt.put_value(self.id, Some(w));
            proof {
                assert(rt.values() =~= old(rt).values().update(self.id.index as int, rt.value_of(self.id)));
                lemma_value_written(*old(rt), *rt, self.id);
            }
            Some(out)
        } else {
            None
        }
    }

    /// Disposes the signal: later reads fail and writes do nothing.
    pub fn dispose<F: Fn(Option<&T>) -> T>(self, rt: &mut Runtime<T, F>)
        requires
            old(rt).wf(),
        ensures
            final(rt).wf(),
            old(rt).disposed(&*final(rt), self.id),
    {
        rt.dispose_node(self.id);
    }
}

} // verus!
