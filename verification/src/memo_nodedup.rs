//! Memos that run once per change and always notify their dependents.
use vstd::prelude::*;

use core::marker::PhantomData;

use vstd::string::StringExecFns;

use crate::runtime::{node_ok, NodeId, NodeKind, Runtime};

verus! {

/// The computation of a memo: `f` receives the memo's previous value
/// (`None` the first time) and returns the new one.
#[verifier::reject_recursive_types(T)]
pub struct MemoNodedupState<T, F: Fn(Option<&T>) -> T> {
    pub f: F,
    pub t: PhantomData<T>,
}

/// `o` seen through a reference, as `Option::as_ref` gives it.
pub open spec fn opt_ref<T>(o: &Option<T>) -> Option<&T> {
    match o {
        Some(v) => Some(v),
        None => None,
    }
}

impl<T, F: Fn(Option<&T>) -> T> MemoNodedupState<T, F> {
    /// `f` can be called on every previous value.
    pub open spec fn total(&self) -> bool {
        forall|p: Option<&T>| #[trigger] call_requires(self.f, (p,))
    }

    /// `new` is a value that `f` may return for the previous value `prev`.
    pub open spec fn ran(&self, prev: Option<T>, new: T) -> bool {
        call_ensures(self.f, (opt_ref(&prev),), new)
    }

    /// Runs the computation on the current value and stores its result.
    ///
    /// Returns `true` always: a memo of this kind tells its dependents of
    /// every run, whether or not the value changed.
    pub fn run(&self, value: &mut Option<T>) -> (changed: bool)
        requires
            self.total(),
        ensures
            changed,
            *final(value) is Some,
            self.ran(*old(value), (*final(value))->0),
    {
        let new_value = (self.f)(value.as_ref());
        *value = Some(new_value);
        true
    }
}

/// A handle to a memo of a [`Runtime`]: a value derived by a computation,
/// which runs once per change, and only when the value is read, and which
/// always tells its dependents when it ran.
#[derive(Debug)]
pub struct MemoNodedup<T> {
    pub id: NodeId,
    pub ty: PhantomData<T>,
}

/// Creates a memo computed by `f`, owned by the runtime's current owner.
/// `f` receives the memo's previous value, `None` the first time; it first
/// runs when the memo is read.
pub fn create_memo_nodedup<T, F: Fn(Option<&T>) -> T>(rt: &mut Runtime<T, F>, f: F) -> (m:
    MemoNodedup<T>)
    requires
        old(rt).wf(),
        old(rt).len() < usize::MAX,
        forall|p: Option<&T>| #[trigger] call_requires(f, (p,)),
    ensures
        final(rt).wf(),
        old(rt).created(
            &*final(rt),
            NodeKind::Memo,
            None,
            Some((MemoNodedupState { f, t: PhantomData })),
            m.id,
        ),
{
    let state = MemoNodedupState { f, t: PhantomData };
    let id = rt.create_node(NodeKind::Memo, None, Some(state));
    MemoNodedup { id, ty: PhantomData }
}

impl<T> Clone for MemoNodedup<T> {
    fn clone(&self) -> (r: Self)
        ensures
            r == *self,
    {
        *self
    }
}

impl<T> Copy for MemoNodedup<T> {

}

impl<T> PartialEq for MemoNodedup<T> {
    fn eq(&self, other: &Self) -> (r: bool) {
        self.id.index == other.id.index
    }
}

impl<T> vstd::std_specs::cmp::PartialEqSpecImpl for MemoNodedup<T> {
    open spec fn obeys_eq_spec() -> bool {
        true
    }

    open spec fn eq_spec(&self, other: &Self) -> bool {
        self.id == other.id
    }
}

impl<T> Eq for MemoNodedup<T> {

}

/// Turns `f`, which reads a value, into a function that reads the value of a
/// memo that has run; it may only be called on `Some`.
pub fn forward_ref_to<T, O, F: FnOnce(&T) -> O>(f: F) -> (g: impl FnOnce(&Option<T>) -> O)
    ensures
        forall|m: &Option<T>|
            m is Some && call_requires(f, (&m->0,)) ==> #[trigger] call_requires(g, (m,)),
        forall|m: &Option<T>, r: O|
            #[trigger] call_ensures(g, (m,), r) ==> m is Some && call_ensures(f, (&m->0,), r),
{
    move |maybe_value: &Option<T>| -> (r: O)
        requires
            maybe_value is Some && call_requires(f, (&maybe_value->0,)),
        ensures
            maybe_value is Some,
            call_ensures(f, (&maybe_value->0,), r),
        {
            let ref_t = maybe_value.as_ref().unwrap();
            f(ref_t)
        }
}

/// `post` is `pre` after a tracked read of memo `id`: the observer
/// subscribes to it, then it and the memos upstream of it are brought up
/// to date.
pub open spec fn memo_read_tracked<T, F: Fn(Option<&T>) -> T>(
    pre: &Runtime<T, F>,
    post: &Runtime<T, F>,
    id: NodeId,
) -> bool {
    exists|mid: Runtime<T, F>| #[trigger] pre.tracked_read(&mid, id) && mid.brought_up_to_date(post, id)
}

impl<T> MemoNodedup<T> {
    /// Creates a memo computed by `f`; the same as [`create_memo_nodedup`].
    pub fn new<F: Fn(Option<&T>) -> T>(rt: &mut Runtime<T, F>, f: F) -> (m: MemoNodedup<T>)
        requires
            old(rt).wf(),
            old(rt).len() < usize::MAX,
            forall|p: Option<&T>| #[trigger] call_requires(f, (p,)),
        ensures
            final(rt).wf(),
            old(rt).created(
                &*final(rt),
                NodeKind::Memo,
                None,
                Some((MemoNodedupState { f, t: PhantomData })),
                m.id,
            ),
    {
        create_memo_nodedup(rt, f)
    }

    /// Brings the memo up to date and applies `f` to its value, without
    /// subscribing to it. The memo must be live.
    pub fn with_untracked<F: Fn(Option<&T>) -> T, O, G: FnOnce(&T) -> O>(
        &self,
        rt: &mut Runtime<T, F>,
        f: G,
    ) -> (r: O)
        requires
            old(rt).wf(),
            old(rt).is_memo(self.id),
            forall|v: &T| #[trigger] call_requires(f, (v,)),
        ensures
            final(rt).wf(),
            old(rt).brought_up_to_date(&*final(rt), self.id),
            final(rt).value_of(self.id) is Some,
            call_ensures(f, (&final(rt).value_of(self.id)->0,), r),
    {
        rt.bring_up_to_date(self.id);
        proof {
            rt.lemma_wf();
            assert(node_ok(rt.metas()[self.id.index as int], rt.values()[self.id.index as int], rt.computations()[self.id.index as int]));
        }
        let read = forward_ref_to(f);
        read(rt.value_ref(self.id))
    }

    /// Brings the memo up to date and applies `f` to its value, without
    /// subscribing to it; `None` if the memo has been disposed.
    pub fn try_with_untracked<F: Fn(Option<&T>) -> T, O, G: FnOnce(&T) -> O>(
        &self,
        rt: &mut Runtime<T, F>,
        f: G,
    ) -> (r: Option<O>)
        requires
            old(rt).wf(),
            old(rt).is_memo(self.id) ==> forall|v: &T| #[trigger] call_requires(f, (v,)),
        ensures
            final(rt).wf(),
            old(rt).brought_up_to_date(&*final(rt), self.id),
            r is Some <==> old(rt).is_memo(self.id),
            r is Some ==> call_ensures(f, (&final(rt).value_of(self.id)->0,), r->0),
    {
        if rt.memo_alive(self.id) {
            Some(self.with_untracked(rt, f))
        } else {
            rt.bring_up_to_date(self.id);
            None
        }
    }

    /// Brings the memo up to date and returns a clone of its value, without
    /// subscribing to it. The memo must be live.
    pub fn get_untracked<F: Fn(Option<&T>) -> T>(&self, rt: &mut Runtime<T, F>) -> (r: T) where
        T: Clone,

        requires
            old(rt).wf(),
            old(rt).is_memo(self.id),
        ensures
            final(rt).wf(),
            old(rt).brought_up_to_date(&*final(rt), self.id),
            final(rt).value_of(self.id) is Some,
            cloned(final(rt).value_of(self.id)->0, r),
    {
        rt.bring_up_to_date(self.id);
        proof {
            rt.lemma_wf();
            assert(node_ok(rt.metas()[self.id.index as int], rt.values()[self.id.index as int], rt.computations()[self.id.index as int]));
        }
        rt.value_ref(self.id).as_ref().unwrap().clone()
    }

    /// Brings the memo up to date and returns a clone of its value, without
    /// subscribing to it; `None` if the memo has been disposed.
    pub fn try_get_untracked<F: Fn(Option<&T>) -> T>(&self, rt: &mut Runtime<T, F>) -> (r: Option<
        T,
    >) where T: Clone
        requires
            old(rt).wf(),
        ensures
            final(rt).wf(),
            old(rt).brought_up_to_date(&*final(rt), self.id),
            r is Some <==> old(rt).is_memo(self.id),
            r is Some ==> cloned(final(rt).value_of(self.id)->0, r->0),
    {
        if rt.memo_alive(self.id) {
            Some(self.get_untracked(rt))
        } else {
            rt.bring_up_to_date(self.id);
            None
        }
    }

    /// Subscribes the current observer to the memo, brings it up to date and
    /// applies `f` to its value; `None` if the memo has been disposed.
    pub fn try_with<F: Fn(Option<&T>) -> T, O, G: FnOnce(&T) -> O>(
        &self,
        rt: &mut Runtime<T, F>,
        f: G,
    ) -> (r: Option<O>)
        requires
            old(rt).wf(),
            old(rt).is_memo(self.id) ==> forall|v: &T| #[trigger] call_requires(f, (v,)),
        ensures
            final(rt).wf(),
            memo_read_tracked(&*old(rt), &*final(rt), self.id),
            r is Some <==> old(rt).is_memo(self.id),
            r is Some ==> call_ensures(f, (&final(rt).value_of(self.id)->0,), r->0),
    {
        rt.subscribe(self.id);
        let ghost mid = *rt;
        let r = self.try_with_untracked(rt, f);
        proof {
            assert(old(rt).tracked_read(&mid, self.id));
        }
        r
    }

    /// Subscribes the current observer to the memo, brings it up to date and
    /// applies `f` to its value. The memo must be live.
    pub fn with<F: Fn(Option<&T>) -> T, O, G: FnOnce(&T) -> O>(
        &self,
        rt: &mut Runtime<T, F>,
        f: G,
    ) -> (r: O)
        requires
            old(rt).wf(),
            old(rt).is_memo(self.id),
            forall|v: &T| #[trigger] call_requires(f, (v,)),
        ensures
            final(rt).wf(),
            memo_read_tracked(&*old(rt), &*final(rt), self.id),
            call_ensures(f, (&final(rt).value_of(self.id)->0,), r),
    {
        match self.try_with(rt, f) {
            Some(t) => t,
            None => vstd::pervasive::unreached(),
        }
    }

    /// Subscribes the current observer to the memo, brings it up to date and
    /// returns a clone of its value; `None` if the memo has been disposed.
    pub fn try_get<F: Fn(Option<&T>) -> T>(&self, rt: &mut Runtime<T, F>) -> (r: Option<T>) where
        T: Clone,

        requires
            old(rt).wf(),
        ensures
            final(rt).wf(),
            memo_read_tracked(&*old(rt), &*final(rt), self.id),
            r is Some <==> old(rt).is_memo(self.id),
            r is Some ==> cloned(final(rt).value_of(self.id)->0, r->0),
    {
        rt.subscribe(self.id);
        let ghost mid = *rt;
        let r = self.try_get_untracked(rt);
        proof {
            assert(old(rt).tracked_read(&mid, self.id));
        }
        r
    }

    /// Subscribes the current observer to the memo, brings it up to date and
    /// returns a clone of its value. The memo must be live.
    pub fn get<F: Fn(Option<&T>) -> T>(&self, rt: &mut Runtime<T, F>) -> (r: T) where T: Clone
        requires
            old(rt).wf(),
            old(rt).is_memo(self.id),
        ensures
            final(rt).wf(),
            memo_read_tracked(&*old(rt), &*final(rt), self.id),
            cloned(final(rt).value_of(self.id)->0, r),
    {
        rt.subscribe(self.id);
        let ghost mid = *rt;
        let r = self.get_untracked(rt);
        proof {
            assert(old(rt).tracked_read(&mid, self.id));
        }
        r
    }

    /// Disposes the memo: later reads fail.
    pub fn dispose<F: Fn(Option<&T>) -> T>(self, rt: &mut Runtime<T, F>)
        requires
            old(rt).wf(),
        ensures
            final(rt).wf(),
            old(rt).disposed(&*final(rt), self.id),
    {
        rt.dispose_node(self.id);
    }
}

/// The text of a warning about a memo: the message, then, where it is known,
/// where the memo was created, then where the warning arose.
pub fn format_memo_nodedup_warning(msg: &str, defined_at: Option<&str>, location: &str) -> (r:
    String)
    ensures
        r@ == msg@ + "\n"@ + (match defined_at {
            Some(d) => "signal created here: "@ + d@ + "\n"@,
            None => Seq::<char>::empty(),
        }) + "warning happened here: "@ + location@,
{
    let mut s = String::new();
    s.append(msg);
    s.append("\n");
    if let Some(d) = defined_at {
        s.append("signal created here: ");
        s.append(d);
        s.append("\n");
    }
    s.append("warning happened here: ");
    s.append(location);
    proof {
        assert(s@ =~= msg@ + "\n"@ + (match defined_at {
            Some(d) => "signal created here: "@ + d@ + "\n"@,
            None => Seq::<char>::empty(),
        }) + "warning happened here: "@ + location@);
    }
    s
}

} // verus!
