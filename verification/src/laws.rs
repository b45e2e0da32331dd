//! Properties of the reactive system that span several operations.
use vstd::prelude::*;

use crate::memo_nodedup::MemoNodedupState;
use crate::runtime::{
    lemma_stored_split, marked, only_dirt_changed, source_step, stored_count, stored_outside,
    stored_total, subscribed, NodeId, NodeKind, NodeMeta, NodeOwner, Runtime,
};
use crate::signal::{try_updated, updated, written};

verus! {

/// A read of a signal gives back what the last write to it wrote.
pub proof fn lemma_read_after_write<T, F: Fn(Option<&T>) -> T>(
    pre: Runtime<T, F>,
    post: Runtime<T, F>,
    id: NodeId,
    v: T,
    notifying: bool,
)
    requires
        pre.wf(),
        pre.is_signal(id),
        written(&pre, &post, id, v, notifying),
    ensures
        post.is_signal(id),
        post.value_of(id) == Some(v),
{
    pre.lemma_wf();
}

/// A write to a disposed signal changes nothing.
pub proof fn lemma_write_after_dispose<T, F: Fn(Option<&T>) -> T>(
    pre: Runtime<T, F>,
    mid: Runtime<T, F>,
    post: Runtime<T, F>,
    id: NodeId,
    v: T,
    notifying: bool,
)
    requires
        pre.wf(),
        pre.disposed(&mid, id),
        written(&mid, &post, id, v, notifying),
    ensures
        !post.is_alive(id),
        post.values() == mid.values(),
        post.metas() == mid.metas(),
{
}

/// Once a tracked read of a live node has subscribed the observer, a
/// notifying write to that node marks the observer dirty; a write that does
/// not notify leaves it as it was.
pub proof fn lemma_tracked_read_then_write<T, F: Fn(Option<&T>) -> T>(
    pre: Runtime<T, F>,
    mid: Runtime<T, F>,
    post: Runtime<T, F>,
    id: NodeId,
    v: T,
    notifying: bool,
)
    requires
        pre.wf(),
        pre.is_signal(id),
        pre.observer() is Some,
        pre.tracked_read(&mid, id),
        written(&mid, &post, id, v, notifying),
    ensures
        notifying ==> post.metas()[pre.observer()->0 as int].dirty,
        !notifying ==> post.metas() == pre.metas(),
{
    pre.lemma_wf();
    let o = pre.observer()->0;
    let subs = mid.subs();
    if !subscribed(pre.subs(), id.index as int, o as int) {
        assert(subs[subs.len() - 1] == (id.index, o));
    }
    assert(subscribed(subs, id.index as int, o as int));
}

/// A tracked read only adds subscriptions: every subscription there before
/// is still there after, and a live node read while something observes has
/// that observer among its subscribers.
pub proof fn lemma_tracked_read_keeps_subscriptions<T, F: Fn(Option<&T>) -> T>(
    pre: Runtime<T, F>,
    post: Runtime<T, F>,
    id: NodeId,
)
    requires
        pre.tracked_read(&post, id),
    ensures
        forall|src: int, sub: int|
            #[trigger] subscribed(pre.subs(), src, sub) ==> subscribed(post.subs(), src, sub),
        pre.is_alive(id) && pre.observer() is Some ==> subscribed(
            post.subs(),
            id.index as int,
            pre.observer()->0 as int,
        ),
{
    assert forall|src: int, sub: int| #[trigger] subscribed(pre.subs(), src, sub) implies subscribed(
        post.subs(),
        src,
        sub,
    ) by {
        let k = choose|k: int|
            0 <= k < pre.subs().len() && (#[trigger] pre.subs()[k]).0 as int == src
                && pre.subs()[k].1 as int == sub;
        assert(post.subs()[k] == pre.subs()[k]);
    }
    if pre.is_alive(id) && pre.observer() is Some {
        let o = pre.observer()->0;
        let subs = post.subs();
        if !subscribed(pre.subs(), id.index as int, o as int) {
            assert(subs[subs.len() - 1] == (id.index, o));
        }
    }
}

/// Once a tracked read of a live signal has subscribed the observer, an
/// update of that signal that notifies marks the observer dirty; one that
/// does not notify leaves every dirty flag as it was.
pub proof fn lemma_tracked_read_then_update<T, F: Fn(Option<&T>) -> T, G: FnOnce(T) -> T>(
    pre: Runtime<T, F>,
    mid: Runtime<T, F>,
    post: Runtime<T, F>,
    id: NodeId,
    f: G,
    notifying: bool,
)
    requires
        pre.wf(),
        pre.is_signal(id),
        pre.observer() is Some,
        pre.tracked_read(&mid, id),
        updated(&mid, &post, id, f, notifying),
    ensures
        notifying ==> post.metas()[pre.observer()->0 as int].dirty,
        !notifying ==> post.metas() == pre.metas(),
        post.value_of(id) is Some,
        call_ensures(f, (pre.value_of(id)->0,), post.value_of(id)->0),
{
    pre.lemma_wf();
    lemma_tracked_read_keeps_subscriptions(pre, mid, id);
}

/// Once a tracked read of a live signal has subscribed the observer, a
/// `try_update` of that signal that notifies marks the observer dirty and
/// returns the second part of what the function gave.
pub proof fn lemma_tracked_read_then_try_update<
    T,
    F: Fn(Option<&T>) -> T,
    O,
    G: FnOnce(T) -> (T, O),
>(
    pre: Runtime<T, F>,
    mid: Runtime<T, F>,
    post: Runtime<T, F>,
    id: NodeId,
    f: G,
    notifying: bool,
    r: Option<O>,
)
    requires
        pre.wf(),
        pre.is_signal(id),
        pre.observer() is Some,
        pre.tracked_read(&mid, id),
        try_updated(&mid, &post, id, f, notifying, r),
    ensures
        notifying ==> post.metas()[pre.observer()->0 as int].dirty,
        !notifying ==> post.metas() == pre.metas(),
        r is Some,
        call_ensures(f, (pre.value_of(id)->0,), (post.value_of(id)->0, r->0)),
{
    pre.lemma_wf();
    lemma_tracked_read_keeps_subscriptions(pre, mid, id);
}

/// Disposing a scope gives back every handle it stored: each node keeps its
/// count less the handles of that scope, and the stored handles of that
/// scope are gone.
pub proof fn lemma_scope_gives_back_every_handle<T, F: Fn(Option<&T>) -> T>(
    pre: Runtime<T, F>,
    post: Runtime<T, F>,
    scope: u64,
)
    requires
        pre.wf(),
        pre.scope_disposed(&post, scope),
    ensures
        forall|i: int|
            0 <= i < pre.len() ==> #[trigger] post.metas()[i].handles + stored_count(
                pre.stored(),
                scope,
                i,
            ) == pre.metas()[i].handles,
        forall|i: int|
            0 <= i < pre.len() ==> stored_total(post.stored(), i) + #[trigger] stored_count(
                pre.stored(),
                scope,
                i,
            ) == stored_total(pre.stored(), i),
        forall|i: int| 0 <= i < pre.len() ==> stored_count(post.stored(), scope, i) == 0,
{
    pre.lemma_wf();
    assert forall|i: int| 0 <= i < pre.len() implies #[trigger] post.metas()[i].handles
        + stored_count(pre.stored(), scope, i) == pre.metas()[i].handles by {
        lemma_stored_split(pre.stored(), scope, i);
    }
    assert forall|i: int| 0 <= i < pre.len() implies stored_total(post.stored(), i)
        + #[trigger] stored_count(pre.stored(), scope, i) == stored_total(pre.stored(), i) by {
        lemma_stored_split(pre.stored(), scope, i);
    }
    assert forall|i: int| 0 <= i < pre.len() implies stored_count(post.stored(), scope, i) == 0 by {
        lemma_count_outside_same(pre.stored(), scope, i);
    }
}

/// No handle of `scope` is left once its handles are dropped.
pub proof fn lemma_count_outside_same(stored: Seq<(u64, usize)>, scope: u64, i: int)
    ensures
        stored_count(stored_outside(stored, scope), scope, i) == 0,
    decreases stored.len(),
{
    if stored.len() > 0 {
        lemma_count_outside_same(stored.drop_last(), scope, i);
        if stored.last().0 != scope {
            let rest = stored_outside(stored.drop_last(), scope);
            assert(rest.push(stored.last()).drop_last() =~= rest);
        }
    }
}

/// Disposing a scope leaves alone a node that the leak owner holds and that
/// no handle counts: it stays as alive as it was, with the same value.
pub proof fn lemma_leaked_survives_scope<T, F: Fn(Option<&T>) -> T>(
    pre: Runtime<T, F>,
    post: Runtime<T, F>,
    scope: u64,
    id: NodeId,
)
    requires
        pre.wf(),
        id.index < pre.len(),
        pre.metas()[id.index as int].owner == NodeOwner::Leak,
        pre.metas()[id.index as int].handles == 0,
        pre.scope_disposed(&post, scope),
    ensures
        post.is_alive(id) == pre.is_alive(id),
        post.value_of(id) == pre.value_of(id),
{
}

/// Disposing a scope disposes every node it owns.
pub proof fn lemma_scope_disposes_its_nodes<T, F: Fn(Option<&T>) -> T>(
    pre: Runtime<T, F>,
    post: Runtime<T, F>,
    scope: u64,
    id: NodeId,
)
    requires
        pre.wf(),
        id.index < pre.len(),
        pre.metas()[id.index as int].owner == NodeOwner::Scope(scope),
        pre.scope_disposed(&post, scope),
    ensures
        !post.is_alive(id),
        post.value_of(id) is None,
{
}

/// A reference-counted node with more handles than the scope keeps outlives
/// the scope; one whose handles the scope keeps all of is disposed with it.
pub proof fn lemma_rc_signal_and_scope<T, F: Fn(Option<&T>) -> T>(
    pre: Runtime<T, F>,
    post: Runtime<T, F>,
    scope: u64,
    id: NodeId,
)
    requires
        pre.wf(),
        id.index < pre.len(),
        pre.metas()[id.index as int].owner == NodeOwner::Leak,
        pre.scope_disposed(&post, scope),
    ensures
        pre.metas()[id.index as int].handles > stored_count(pre.stored(), scope, id.index as int)
            ==> post.is_alive(id) == pre.is_alive(id) && post.value_of(id) == pre.value_of(id),
        pre.metas()[id.index as int].handles > 0 && pre.metas()[id.index as int].handles
            <= stored_count(pre.stored(), scope, id.index as int) ==> !post.is_alive(id),
{
}

/// Dropping a handle of a live reference-counted node keeps it alive while
/// another handle is left, stored by a scope or not, and disposes it with the
/// last one.
pub proof fn lemma_rc_signal_lives_while_held<T, F: Fn(Option<&T>) -> T>(
    pre: Runtime<T, F>,
    post: Runtime<T, F>,
    id: NodeId,
)
    requires
        pre.wf(),
        pre.is_alive(id),
        pre.handle_dropped(&post, id),
    ensures
        post.is_alive(id) <==> !(pre.metas()[id.index as int].handles == 1 && stored_total(
            pre.stored(),
            id.index as int,
        ) == 0),
        post.is_alive(id) ==> post.value_of(id) == pre.value_of(id),
{
    pre.lemma_wf();
}

/// A second handle keeps the signal alive when it is dropped: the clone and
/// the handle it was made from count apart.
pub proof fn lemma_rc_clone_then_drop<T, F: Fn(Option<&T>) -> T>(
    pre: Runtime<T, F>,
    mid: Runtime<T, F>,
    post: Runtime<T, F>,
    id: NodeId,
)
    requires
        pre.wf(),
        pre.is_alive(id),
        pre.metas()[id.index as int].handles >= 1,
        pre.metas()[id.index as int].handles < u64::MAX,
        pre.retained(&mid, id),
        mid.handle_dropped(&post, id),
    ensures
        post.is_alive(id),
        post.value_of(id) == pre.value_of(id),
        post.metas()[id.index as int].handles >= 1,
{
    pre.lemma_wf();
}

/// Once the current scope has taken a handle with
/// [`crate::signal_more::RcSignal::into_rw`], the scope keeps at least one
/// handle of the signal.
pub proof fn lemma_into_rw_stores_in_scope<T, F: Fn(Option<&T>) -> T>(
    pre: Runtime<T, F>,
    post: Runtime<T, F>,
    scope: u64,
    id: NodeId,
)
    requires
        pre.wf(),
        id.index < pre.len(),
        pre.owner() == NodeOwner::Scope(scope),
        pre.stored_by_owner(&post, id),
    ensures
        stored_count(post.stored(), scope, id.index as int) == stored_count(
            pre.stored(),
            scope,
            id.index as int,
        ) + 1,
        post.is_alive(id) == pre.is_alive(id),
        post.value_of(id) == pre.value_of(id),
{
    assert(post.stored().drop_last() == pre.stored());
}

/// While a scope keeps a handle of a node, dropping any other handle leaves
/// the node alive with its value, and the scope still keeps its handle.
pub proof fn lemma_stored_handle_keeps_alive<T, F: Fn(Option<&T>) -> T>(
    pre: Runtime<T, F>,
    post: Runtime<T, F>,
    scope: u64,
    id: NodeId,
)
    requires
        pre.wf(),
        id.index < pre.len(),
        stored_count(pre.stored(), scope, id.index as int) >= 1,
        pre.handle_dropped(&post, id),
    ensures
        post.is_alive(id) == pre.is_alive(id),
        post.value_of(id) == pre.value_of(id),
        stored_count(post.stored(), scope, id.index as int) == stored_count(
            pre.stored(),
            scope,
            id.index as int,
        ),
{
    pre.lemma_wf();
    lemma_stored_split(pre.stored(), scope, id.index as int);
}

/// While a scope keeps a handle of a node that another scope does not own,
/// disposing that other scope leaves the node alive with its value, and the
/// first scope still keeps its handle.
pub proof fn lemma_stored_handle_outlives_other_scope<T, F: Fn(Option<&T>) -> T>(
    pre: Runtime<T, F>,
    post: Runtime<T, F>,
    scope: u64,
    other: u64,
    id: NodeId,
)
    requires
        pre.wf(),
        id.index < pre.len(),
        scope != other,
        pre.metas()[id.index as int].owner != NodeOwner::Scope(other),
        stored_count(pre.stored(), scope, id.index as int) >= 1,
        pre.scope_disposed(&post, other),
    ensures
        post.is_alive(id) == pre.is_alive(id),
        post.value_of(id) == pre.value_of(id),
        stored_count(post.stored(), scope, id.index as int) == stored_count(
            pre.stored(),
            scope,
            id.index as int,
        ),
{
    let i = id.index as int;
    pre.lemma_wf();
    lemma_stored_split(pre.stored(), other, i);
    lemma_stored_split(stored_outside(pre.stored(), other), scope, i);
    lemma_count_outside_other(pre.stored(), scope, other, i);
}

/// Dropping the handles of one scope keeps the count of another.
pub proof fn lemma_count_outside_other(stored: Seq<(u64, usize)>, scope: u64, other: u64, i: int)
    requires
        scope != other,
    ensures
        stored_count(stored_outside(stored, other), scope, i) == stored_count(stored, scope, i),
    decreases stored.len(),
{
    if stored.len() > 0 {
        lemma_count_outside_other(stored.drop_last(), scope, other, i);
        if stored.last().0 != other {
            let rest = stored_outside(stored.drop_last(), other);
            assert(rest.push(stored.last()).drop_last() =~= rest);
        }
    }
}

/// The leak flag is set for the whole run of
/// [`crate::signal_more::with_intentional_leak`]'s closure, nested calls
/// included, and is as before once it returns: the closure receives the
/// runtime with the flag set, and a call made on a runtime hands it back with
/// that runtime's flag.
pub proof fn lemma_leak_flag_while_running<T, F: Fn(Option<&T>) -> T>(
    pre: Runtime<T, F>,
    inner: Runtime<T, F>,
    post: Runtime<T, F>,
)
    requires
        post == inner.with_leaking(pre.leaking()),
    ensures
        pre.with_leaking(true).leaking(),
        post.leaking() == pre.leaking(),
        pre.leaking() ==> post.leaking(),
        post.values() == inner.values(),
        post.metas() == inner.metas(),
{
    pre.lemma_with_leaking(true);
    inner.lemma_with_leaking(pre.leaking());
}

/// A new memo has not run: it holds nothing and is dirty, so its computation
/// first runs when it is read; its id differs from that of every node before it.
pub proof fn lemma_memo_is_lazy<T, F: Fn(Option<&T>) -> T>(
    pre: Runtime<T, F>,
    post: Runtime<T, F>,
    state: MemoNodedupState<T, F>,
    id: NodeId,
)
    requires
        pre.wf(),
        pre.created(&post, NodeKind::Memo, None, Some(state), id),
    ensures
        post.value_of(id) is None,
        post.is_memo(id),
        post.metas()[id.index as int].dirty,
        forall|other: NodeId| other.index < pre.len() ==> other != id,
{
    pre.lemma_wf();
    assert(post.metas()[id.index as int] == post.metas().last());
}

/// `id` subscribes to no live memo but itself.
pub open spec fn no_memo_sources<T, F: Fn(Option<&T>) -> T>(rt: Runtime<T, F>, id: NodeId) -> bool {
    forall|k: int|
        0 <= k < rt.subs().len() && (#[trigger] rt.subs()[k]).1 == id.index && rt.subs()[k].0
            != id.index ==> !rt.is_memo(NodeId { index: rt.subs()[k].0 })
}

/// Going through the subscriptions of a memo that subscribes to no other
/// live memo changes nothing.
pub proof fn lemma_no_sources_unchanged<T, F: Fn(Option<&T>) -> T>(
    pre: Runtime<T, F>,
    post: Runtime<T, F>,
    id: NodeId,
    fuel: nat,
    k: nat,
)
    requires
        no_memo_sources(pre, id),
        k <= pre.subs().len(),
        pre.sources_refreshed(&post, id, fuel, k),
    ensures
        pre.unchanged(&post),
    decreases k,
{
    reveal_with_fuel(Runtime::sources_refreshed, 2);
    if k > 0 {
        let mid = choose|mid: Runtime<T, F>|
            #![trigger mid.metas()]
            pre.sources_refreshed(&mid, id, fuel, (k - 1) as nat) && source_step(
                &mid,
                &post,
                id,
                fuel,
                pre.subs()[k - 1],
            );
        lemma_no_sources_unchanged(pre, mid, id, fuel, (k - 1) as nat);
        let e = pre.subs()[k - 1];
        if e.1 == id.index && e.0 != id.index {
            assert(!pre.is_memo(NodeId { index: e.0 }));
        }
    }
}

/// A read of a memo that subscribes to no other live memo is one run of it,
/// if it is dirty.
pub proof fn lemma_read_without_memo_sources<T, F: Fn(Option<&T>) -> T>(
    pre: Runtime<T, F>,
    post: Runtime<T, F>,
    id: NodeId,
    fuel: nat,
)
    requires
        no_memo_sources(pre, id),
        pre.refreshed_within(&post, id, fuel),
    ensures
        pre.refreshed(&post, id),
{
    if fuel > 0 && pre.is_memo(id) {
        let mid = choose|mid: Runtime<T, F>|
            pre.sources_refreshed(&mid, id, (fuel - 1) as nat, pre.subs().len())
                && #[trigger] mid.refreshed(&post, id);
        lemma_no_sources_unchanged(pre, mid, id, (fuel - 1) as nat, pre.subs().len());
    }
}

/// Reading a memo twice in a row runs it at most once: after the first read
/// brought it up to date, the second changes nothing. This holds of a memo
/// that subscribes to no other live memo, nor to itself.
pub proof fn lemma_memo_runs_once_per_change<T, F: Fn(Option<&T>) -> T>(
    a: Runtime<T, F>,
    b: Runtime<T, F>,
    c: Runtime<T, F>,
    id: NodeId,
)
    requires
        a.wf(),
        !subscribed(a.subs(), id.index as int, id.index as int),
        no_memo_sources(a, id),
        a.brought_up_to_date(&b, id),
        b.brought_up_to_date(&c, id),
    ensures
        c.values() == b.values(),
        c.metas() == b.metas(),
{
    lemma_read_without_memo_sources(a, b, id, a.len());
    assert(b.subs() == a.subs());
    assert forall|k: int|
        0 <= k < b.subs().len() && (#[trigger] b.subs()[k]).1 == id.index && b.subs()[k].0
            != id.index implies !b.is_memo(NodeId { index: b.subs()[k].0 }) by {
        assert(!a.is_memo(NodeId { index: a.subs()[k].0 }));
        if a.len() > b.subs()[k].0 {
            let j = b.subs()[k].0 as int;
            if a.is_memo(id) && a.metas()[id.index as int].dirty {
                assert(b.metas()[j] == marked(
                    a.metas().update(id.index as int, NodeMeta { dirty: false, ..a.metas()[id.index as int] }),
                    a.subs(),
                    id.index as int,
                )[j]);
            }
        }
    }
    lemma_read_without_memo_sources(b, c, id, b.len());
}

/// A memo that runs tells all of its subscribers, whatever value it computed.
pub proof fn lemma_memo_always_notifies<T, F: Fn(Option<&T>) -> T>(
    a: Runtime<T, F>,
    b: Runtime<T, F>,
    id: NodeId,
    sub: int,
)
    requires
        a.wf(),
        a.is_memo(id),
        a.metas()[id.index as int].dirty,
        subscribed(a.subs(), id.index as int, sub),
        0 <= sub < a.len(),
        a.refreshed(&b, id),
    ensures
        b.metas()[sub].dirty,
{
}

/// The first read of a new memo runs its computation on `None`.
pub proof fn lemma_memo_first_run_sees_none<T, F: Fn(Option<&T>) -> T>(
    pre: Runtime<T, F>,
    mid: Runtime<T, F>,
    post: Runtime<T, F>,
    f: F,
    id: NodeId,
)
    requires
        pre.wf(),
        mid.wf(),
        pre.created(
            &mid,
            NodeKind::Memo,
            None,
            Some((MemoNodedupState { f, t: core::marker::PhantomData })),
            id,
        ),
        mid.brought_up_to_date(&post, id),
    ensures
        post.value_of(id) is Some,
        call_ensures(f, (None::<&T>,), post.value_of(id)->0),
{
    pre.lemma_wf();
    mid.lemma_wf();
    assert(mid.metas()[id.index as int] == mid.metas().last());
    assert forall|k: int|
        0 <= k < mid.subs().len() && (#[trigger] mid.subs()[k]).1 == id.index && mid.subs()[k].0
            != id.index implies !mid.is_memo(NodeId { index: mid.subs()[k].0 }) by {
        assert(pre.subs()[k].1 < pre.len());
    }
    lemma_read_without_memo_sources(mid, post, id, mid.len());
}

/// A read of memo `m2` brings a dirty memo `m1` that it subscribes to up to
/// date first: `m1` runs on its previous value, which tells `m2`, and then
/// `m2` runs on its own; both end up clean. This holds where `m1` is the only
/// live memo `m2` subscribes to, and `m1` subscribes to no live memo.
pub proof fn lemma_memo_read_refreshes_upstream<T, F: Fn(Option<&T>) -> T>(
    pre: Runtime<T, F>,
    post: Runtime<T, F>,
    m1: NodeId,
    m2: NodeId,
)
    requires
        pre.wf(),
        pre.is_memo(m1),
        pre.is_memo(m2),
        m1.index != m2.index,
        subscribed(pre.subs(), m1.index as int, m2.index as int),
        forall|k: int|
            0 <= k < pre.subs().len() && (#[trigger] pre.subs()[k]).1 == m2.index && pre.is_memo(
                NodeId { index: pre.subs()[k].0 },
            ) ==> pre.subs()[k].0 == m1.index,
        forall|k: int|
            0 <= k < pre.subs().len() && (#[trigger] pre.subs()[k]).1 == m1.index ==> !pre.is_memo(
                NodeId { index: pre.subs()[k].0 },
            ),
        pre.metas()[m1.index as int].dirty,
        pre.brought_up_to_date(&post, m2),
    ensures
        post.value_of(m1) is Some,
        pre.computations()[m1.index as int]->0.ran(pre.value_of(m1), post.value_of(m1)->0),
        !post.metas()[m1.index as int].dirty,
        post.value_of(m2) is Some,
        pre.computations()[m2.index as int]->0.ran(pre.value_of(m2), post.value_of(m2)->0),
        !post.metas()[m2.index as int].dirty,
{
    pre.lemma_wf();
    let fuel = pre.len();
    let n = pre.subs().len();
    let mid = choose|mid: Runtime<T, F>|
        pre.sources_refreshed(&mid, m2, (fuel - 1) as nat, n) && #[trigger] mid.refreshed(&post, m2);
    lemma_chain_sources(pre, mid, m1, m2, (fuel - 1) as nat, n);
    let k = choose|k: int| 0 <= k < n && (#[trigger] pre.subs()[k]).0 as int == m1.index as int
        && pre.subs()[k].1 as int == m2.index as int;
    assert(pre.subs()[k] == (m1.index, m2.index));
    assert(subscribed(pre.subs(), m1.index as int, m2.index as int));
    if subscribed(pre.subs(), m2.index as int, m2.index as int) {
        let q = choose|q: int| 0 <= q < n && (#[trigger] pre.subs()[q]).0 as int == m2.index as int
            && pre.subs()[q].1 as int == m2.index as int;
        assert(pre.subs()[q].1 == m2.index);
    }
    if subscribed(pre.subs(), m2.index as int, m1.index as int) {
        let q = choose|q: int| 0 <= q < n && (#[trigger] pre.subs()[q]).0 as int == m2.index as int
            && pre.subs()[q].1 as int == m1.index as int;
        assert(pre.subs()[q].1 == m1.index);
    }
    if subscribed(pre.subs(), m1.index as int, m1.index as int) {
        let q = choose|q: int| 0 <= q < n && (#[trigger] pre.subs()[q]).0 as int == m1.index as int
            && pre.subs()[q].1 as int == m1.index as int;
        assert(pre.subs()[q].1 == m1.index);
    }
}

/// Going through the subscriptions while `m2` is read refreshes `m1` exactly
/// as one run of it, once some subscription made `m2` a subscriber of `m1`,
/// and changes nothing before that.
pub proof fn lemma_chain_sources<T, F: Fn(Option<&T>) -> T>(
    pre: Runtime<T, F>,
    post: Runtime<T, F>,
    m1: NodeId,
    m2: NodeId,
    fuel: nat,
    k: nat,
)
    requires
        pre.wf(),
        pre.is_memo(m1),
        m1.index != m2.index,
        k <= pre.subs().len(),
        forall|j: int|
            0 <= j < pre.subs().len() && (#[trigger] pre.subs()[j]).1 == m2.index && pre.is_memo(
                NodeId { index: pre.subs()[j].0 },
            ) ==> pre.subs()[j].0 == m1.index,
        forall|j: int|
            0 <= j < pre.subs().len() && (#[trigger] pre.subs()[j]).1 == m1.index ==> !pre.is_memo(
                NodeId { index: pre.subs()[j].0 },
            ),
        pre.sources_refreshed(&post, m2, fuel, k),
    ensures
        (exists|j: int| 0 <= j < k && #[trigger] pre.subs()[j] == (m1.index, m2.index))
            ==> pre.refreshed(&post, m1),
        !(exists|j: int| 0 <= j < k && #[trigger] pre.subs()[j] == (m1.index, m2.index))
            ==> pre.unchanged(&post),
    decreases k,
{
    pre.lemma_wf();
    reveal_with_fuel(Runtime::sources_refreshed, 2);
    if k > 0 {
        let mid = choose|mid: Runtime<T, F>|
            #![trigger mid.metas()]
            pre.sources_refreshed(&mid, m2, fuel, (k - 1) as nat) && source_step(
                &mid,
                &post,
                m2,
                fuel,
                pre.subs()[k - 1],
            );
        lemma_chain_sources(pre, mid, m1, m2, fuel, (k - 1) as nat);
        let e = pre.subs()[k - 1];
        // `mid` differs from `pre` at most in the run of `m1`, which changes
        // only values and dirty flags, so the live memos are the same.
        assert forall|x: int| 0 <= x < pre.len() implies #[trigger] mid.metas()[x].alive
            == pre.metas()[x].alive && mid.metas()[x].kind == pre.metas()[x].kind by {
            if pre.is_memo(m1) && pre.metas()[m1.index as int].dirty && !pre.unchanged(&mid) {
                assert(mid.metas()[x] == marked(
                    pre.metas().update(m1.index as int, NodeMeta { dirty: false, ..pre.metas()[m1.index as int] }),
                    pre.subs(),
                    m1.index as int,
                )[x]);
            }
        }
        if e.1 == m2.index && e.0 != m2.index && mid.is_memo(NodeId { index: e.0 }) {
            assert(pre.is_memo(NodeId { index: e.0 }));
            assert(e.0 == m1.index);
            assert(mid.subs() == pre.subs());
            assert forall|j: int|
                0 <= j < mid.subs().len() && (#[trigger] mid.subs()[j]).1 == m1.index && mid.subs()[j].0
                    != m1.index implies !mid.is_memo(NodeId { index: mid.subs()[j].0 }) by {
                assert(!pre.is_memo(NodeId { index: pre.subs()[j].0 }));
                assert(pre.subs()[j].0 < pre.len());
            }
            lemma_read_without_memo_sources(mid, post, m1, fuel);
            if !subscribed(pre.subs(), m1.index as int, m1.index as int) {
                assert(pre.subs()[k - 1] == (m1.index, m2.index));
            } else {
                let q = choose|q: int| 0 <= q < pre.subs().len() && (#[trigger] pre.subs()[q]).0 as int == m1.index as int
                    && pre.subs()[q].1 as int == m1.index as int;
                assert(pre.subs()[q].1 == m1.index);
            }
        } else {
            if e == (m1.index, m2.index) {
                assert(pre.is_memo(NodeId { index: e.0 }));
            }
        }
    }
}

/// `c` is a chain of live memos, each subscribing to the one before it: the
/// first subscribes to no live memo, and each other one subscribes to the one
/// before it and to no other live memo.
pub open spec fn memo_chain<T, F: Fn(Option<&T>) -> T>(rt: Runtime<T, F>, c: Seq<NodeId>) -> bool {
    &&& rt.values().len() == rt.len()
    &&& c.len() >= 1
    &&& forall|x: int| 0 <= x < c.len() ==> rt.is_memo(#[trigger] c[x])
    &&& forall|x: int, y: int| 0 <= x < c.len() && 0 <= y < c.len() && x != y ==> (#[trigger] c[x]).index
        != (#[trigger] c[y]).index
    &&& forall|k: int|
        0 <= k < rt.subs().len() && (#[trigger] rt.subs()[k]).1 == c[0].index ==> !rt.is_memo(
            NodeId { index: rt.subs()[k].0 },
        )
    &&& forall|x: int, k: int|
        1 <= x < c.len() && 0 <= k < rt.subs().len() && (#[trigger] rt.subs()[k]).1 == (#[trigger] c[x]).index
            && rt.is_memo(NodeId { index: rt.subs()[k].0 }) ==> rt.subs()[k].0 == c[x - 1].index
    &&& forall|x: int|
        1 <= x < c.len() ==> subscribed(rt.subs(), c[x - 1].index as int, (#[trigger] c[x]).index as int)
}

/// `post` is `pre` after the memos `c[0..=j]` of a chain ran, in order, each
/// on its previous value: they are clean; the other nodes hold what they held,
/// and stay dirty if they were; the next memo of the chain is dirty.
pub open spec fn chain_ran<T, F: Fn(Option<&T>) -> T>(
    pre: Runtime<T, F>,
    post: Runtime<T, F>,
    c: Seq<NodeId>,
    j: int,
) -> bool {
    &&& pre.same_graph(&post)
    &&& only_dirt_changed(pre.metas(), post.metas())
    &&& post.values().len() == pre.values().len()
    &&& forall|x: int|
        0 <= x <= j ==> {
            &&& !post.metas()[(#[trigger] c[x]).index as int].dirty
            &&& post.value_of(c[x]) is Some
            &&& pre.computations()[c[x].index as int]->0.ran(pre.value_of(c[x]), post.value_of(c[x])->0)
        }
    &&& forall|y: int|
        0 <= y < pre.len() && (forall|x: int| 0 <= x <= j ==> (#[trigger] c[x]).index != y) ==> {
            &&& #[trigger] post.values()[y] == pre.values()[y]
            &&& pre.metas()[y].dirty ==> post.metas()[y].dirty
        }
    &&& j + 1 < c.len() ==> post.metas()[c[j + 1].index as int].dirty
}

/// A chain stays a chain while only values and dirty flags change.
proof fn lemma_chain_stable<T, F: Fn(Option<&T>) -> T>(
    a: Runtime<T, F>,
    b: Runtime<T, F>,
    c: Seq<NodeId>,
)
    requires
        memo_chain(a, c),
        a.same_graph(&b),
        only_dirt_changed(a.metas(), b.metas()),
        b.values().len() == a.values().len(),
    ensures
        memo_chain(b, c),
        forall|n: NodeId| #[trigger] b.is_memo(n) == a.is_memo(n),
{
    assert forall|n: NodeId| #[trigger] b.is_memo(n) == a.is_memo(n) by {
        if n.index < a.len() {
            assert(b.metas()[n.index as int] == (NodeMeta {
                dirty: b.metas()[n.index as int].dirty,
                ..a.metas()[n.index as int]
            }));
        }
    }
}

/// Bringing up to date a chain memo whose chain prefix is clean changes
/// nothing.
proof fn lemma_clean_chain_unchanged<T, F: Fn(Option<&T>) -> T>(
    s: Runtime<T, F>,
    post: Runtime<T, F>,
    c: Seq<NodeId>,
    j: int,
    fuel: nat,
)
    requires
        memo_chain(s, c),
        0 <= j < c.len(),
        forall|x: int| 0 <= x <= j ==> !s.metas()[(#[trigger] c[x]).index as int].dirty,
        s.refreshed_within(&post, c[j], fuel),
    ensures
        s.unchanged(&post),
    decreases j, fuel, 1nat, 0nat,
{
    if j == 0 {
        assert(!s.metas()[c[0].index as int].dirty);
        assert forall|k: int|
            0 <= k < s.subs().len() && (#[trigger] s.subs()[k]).1 == c[0].index && s.subs()[k].0
                != c[0].index implies !s.is_memo(NodeId { index: s.subs()[k].0 }) by {}
        lemma_read_without_memo_sources(s, post, c[0], fuel);
    } else if fuel > 0 && s.is_memo(c[j]) {
        let mid = choose|mid: Runtime<T, F>|
            s.sources_refreshed(&mid, c[j], (fuel - 1) as nat, s.subs().len())
                && #[trigger] mid.refreshed(&post, c[j]);
        lemma_clean_chain_sources(s, mid, c, j, (fuel - 1) as nat, s.subs().len());
        assert(!s.metas()[c[j].index as int].dirty);
    } else {
        assert(!s.metas()[c[j].index as int].dirty);
    }
}

/// Going through the subscriptions of a chain memo whose chain prefix is
/// clean changes nothing.
proof fn lemma_clean_chain_sources<T, F: Fn(Option<&T>) -> T>(
    s: Runtime<T, F>,
    post: Runtime<T, F>,
    c: Seq<NodeId>,
    j: int,
    fuel: nat,
    k: nat,
)
    requires
        memo_chain(s, c),
        1 <= j < c.len(),
        k <= s.subs().len(),
        forall|x: int| 0 <= x <= j ==> !s.metas()[(#[trigger] c[x]).index as int].dirty,
        s.sources_refreshed(&post, c[j], fuel, k),
    ensures
        s.unchanged(&post),
    decreases j, fuel + 1, 0nat, k,
{
    reveal_with_fuel(Runtime::sources_refreshed, 2);
    if k > 0 {
        let mid = choose|mid: Runtime<T, F>|
            #![trigger mid.metas()]
            s.sources_refreshed(&mid, c[j], fuel, (k - 1) as nat) && source_step(
                &mid,
                &post,
                c[j],
                fuel,
                s.subs()[k - 1],
            );
        lemma_clean_chain_sources(s, mid, c, j, fuel, (k - 1) as nat);
        let e = s.subs()[k - 1];
        if e.1 == c[j].index && e.0 != c[j].index && mid.is_memo(NodeId { index: e.0 }) {
            assert(s.is_memo(NodeId { index: e.0 }));
            assert(e.0 == c[j - 1].index);
            assert(NodeId { index: e.0 } == c[j - 1]);
            lemma_chain_stable(s, mid, c);
            lemma_clean_chain_unchanged(mid, post, c, j - 1, fuel);
        }
    }
}

/// Bringing up to date memo `c[j]` of a chain whose first memo is dirty,
/// `j + 1` levels deep or more, runs `c[0]`, ..., `c[j]` in order.
proof fn lemma_chain_runs<T, F: Fn(Option<&T>) -> T>(
    s: Runtime<T, F>,
    post: Runtime<T, F>,
    c: Seq<NodeId>,
    j: int,
    fuel: nat,
)
    requires
        memo_chain(s, c),
        0 <= j < c.len(),
        s.metas()[c[0].index as int].dirty,
        fuel >= j + 1,
        s.refreshed_within(&post, c[j], fuel),
    ensures
        chain_ran(s, post, c, j),
    decreases j, fuel, 1nat, 0nat,
{
    if j == 0 {
        assert forall|k: int|
            0 <= k < s.subs().len() && (#[trigger] s.subs()[k]).1 == c[0].index && s.subs()[k].0
                != c[0].index implies !s.is_memo(NodeId { index: s.subs()[k].0 }) by {}
        lemma_read_without_memo_sources(s, post, c[0], fuel);
        lemma_one_run_extends(s, s, post, c, 0);
    } else {
        assert(s.is_memo(c[j]));
        let mid = choose|mid: Runtime<T, F>|
            s.sources_refreshed(&mid, c[j], (fuel - 1) as nat, s.subs().len())
                && #[trigger] mid.refreshed(&post, c[j]);
        lemma_chain_sources_run(s, mid, c, j, (fuel - 1) as nat, s.subs().len());
        let q = choose|q: int|
            0 <= q < s.subs().len() && (#[trigger] s.subs()[q]).0 as int == c[j - 1].index as int
                && s.subs()[q].1 as int == c[j].index as int;
        assert(s.subs()[q] == (c[j - 1].index, c[j].index));
        lemma_one_run_extends(s, mid, post, c, j);
    }
}

/// After `c[0..j)` ran, the run of `c[j]` makes `c[0..=j]` have run.
#[verifier::spinoff_prover]
#[verifier::rlimit(40)]
proof fn lemma_one_run_extends<T, F: Fn(Option<&T>) -> T>(
    s: Runtime<T, F>,
    mid: Runtime<T, F>,
    post: Runtime<T, F>,
    c: Seq<NodeId>,
    j: int,
)
    requires
        memo_chain(s, c),
        0 <= j < c.len(),
        j == 0 ==> s.unchanged(&mid),
        j == 0 ==> s.metas()[c[0].index as int].dirty,
        j > 0 ==> chain_ran(s, mid, c, j - 1),
        mid.refreshed(&post, c[j]),
    ensures
        chain_ran(s, post, c, j),
{
    if j > 0 {
        lemma_chain_stable(s, mid, c);
    }
    let cj = c[j].index as int;
    assert(mid.is_memo(c[j]));
    assert(mid.metas()[cj].dirty);
    // `c[j]` does not subscribe to itself, nor does any earlier chain memo
    // subscribe to it.
    assert forall|x: int| 0 <= x <= j implies !subscribed(s.subs(), cj, (#[trigger] c[x]).index as int) by {
        if subscribed(s.subs(), cj, c[x].index as int) {
            let k = choose|k: int|
                0 <= k < s.subs().len() && (#[trigger] s.subs()[k]).0 as int == cj
                    && s.subs()[k].1 as int == c[x].index as int;
            assert(s.subs()[k].1 == c[x].index);
            assert(s.is_memo(NodeId { index: s.subs()[k].0 }));
            assert(NodeId { index: s.subs()[k].0 } == c[j]);
            if x > 0 {
                assert(s.subs()[k].0 == c[x - 1].index);
            }
        }
    }
    if j + 1 < c.len() {
        assert(subscribed(s.subs(), cj, c[j + 1].index as int));
    }
    assert(mid.computations() == s.computations());
    assert(mid.values().len() == s.values().len());
    if j > 0 {
        assert forall|x: int| 0 <= x <= j - 1 implies (#[trigger] c[x]).index != cj by {
            assert(c[x].index != c[j].index);
        }
        assert(mid.values()[cj] == s.values()[cj]);
    }
    assert(mid.value_of(c[j]) == s.value_of(c[j]));
    assert forall|x: int| 0 <= x <= j implies {
        &&& !post.metas()[(#[trigger] c[x]).index as int].dirty
        &&& post.value_of(c[x]) is Some
        &&& s.computations()[c[x].index as int]->0.ran(s.value_of(c[x]), post.value_of(c[x])->0)
    } by {
        if x < j {
            assert(c[x].index != c[j].index);
            assert(post.values()[c[x].index as int] == mid.values()[c[x].index as int]);
        }
    }
    assert forall|y: int|
        0 <= y < s.len() && (forall|x: int| 0 <= x <= j ==> (#[trigger] c[x]).index != y) implies {
        &&& #[trigger] post.values()[y] == s.values()[y]
        &&& s.metas()[y].dirty ==> post.metas()[y].dirty
    } by {
        assert(c[j].index != y);
        assert(post.values()[y] == mid.values()[y]);
        if j > 0 {
            assert(forall|x: int| 0 <= x <= j - 1 ==> (#[trigger] c[x]).index != y);
            assert(mid.values()[y] == s.values()[y]);
        }
    }
    assert(s.same_graph(&post));
    assert(post.values().len() == s.values().len());
    assert forall|i: int| 0 <= i < s.metas().len() implies #[trigger] post.metas()[i] == (NodeMeta {
        dirty: post.metas()[i].dirty,
        ..s.metas()[i]
    }) by {
        assert(mid.metas()[i] == (NodeMeta { dirty: mid.metas()[i].dirty, ..s.metas()[i] }));
    }
    assert(only_dirt_changed(s.metas(), post.metas()));
    if j + 1 < c.len() {
        assert(post.metas()[c[j + 1].index as int].dirty);
    }
}

/// Going through the subscriptions of `c[j]`, `j >= 1`, runs `c[0..j)` once
/// the subscription of `c[j]` to `c[j - 1]` came, and changes nothing before.
proof fn lemma_chain_sources_run<T, F: Fn(Option<&T>) -> T>(
    s: Runtime<T, F>,
    post: Runtime<T, F>,
    c: Seq<NodeId>,
    j: int,
    fuel: nat,
    k: nat,
)
    requires
        memo_chain(s, c),
        1 <= j < c.len(),
        s.metas()[c[0].index as int].dirty,
        fuel >= j,
        k <= s.subs().len(),
        s.sources_refreshed(&post, c[j], fuel, k),
    ensures
        (exists|q: int| 0 <= q < k && #[trigger] s.subs()[q] == (c[j - 1].index, c[j].index))
            ==> chain_ran(s, post, c, j - 1),
        !(exists|q: int| 0 <= q < k && #[trigger] s.subs()[q] == (c[j - 1].index, c[j].index))
            ==> s.unchanged(&post),
    decreases j, fuel + 1, 0nat, k,
{
    reveal_with_fuel(Runtime::sources_refreshed, 2);
    if k > 0 {
        let mid = choose|mid: Runtime<T, F>|
            #![trigger mid.metas()]
            s.sources_refreshed(&mid, c[j], fuel, (k - 1) as nat) && source_step(
                &mid,
                &post,
                c[j],
                fuel,
                s.subs()[k - 1],
            );
        lemma_chain_sources_run(s, mid, c, j, fuel, (k - 1) as nat);
        let e = s.subs()[k - 1];
        let had = exists|q: int| 0 <= q < k - 1 && #[trigger] s.subs()[q] == (c[j - 1].index, c[j].index);
        if had {
            assert(chain_ran(s, mid, c, j - 1));
        } else {
            assert(s.unchanged(&mid));
        }
        lemma_chain_stable(s, mid, c);
        if e.1 == c[j].index && e.0 != c[j].index && mid.is_memo(NodeId { index: e.0 }) {
            assert(s.is_memo(NodeId { index: e.0 }));
            assert(e.0 == c[j - 1].index);
            assert(NodeId { index: e.0 } == c[j - 1]);
            if had {
                assert forall|x: int| 0 <= x <= j - 1 implies !mid.metas()[(#[trigger] c[x]).index as int].dirty by {}
                lemma_clean_chain_unchanged(mid, post, c, j - 1, fuel);
            } else {
                assert(mid.metas()[c[0].index as int].dirty);
                lemma_chain_runs(mid, post, c, j - 1, fuel);
                lemma_chain_ran_after_unchanged(s, mid, post, c, j - 1);
            }
        } else {
            if e == (c[j - 1].index, c[j].index) {
                assert(mid.is_memo(c[j - 1]));
                assert(c[j - 1].index != c[j].index);
            }
        }
    }
}

/// `chain_ran` from a state that agrees with `s` in everything holds from `s`.
proof fn lemma_chain_ran_after_unchanged<T, F: Fn(Option<&T>) -> T>(
    s: Runtime<T, F>,
    mid: Runtime<T, F>,
    post: Runtime<T, F>,
    c: Seq<NodeId>,
    j: int,
)
    requires
        s.unchanged(&mid),
        chain_ran(mid, post, c, j),
    ensures
        chain_ran(s, post, c, j),
{
}

/// Reading the last memo of a chain whose first memo is dirty brings the
/// whole chain up to date first, however long it is: every memo of the chain
/// runs, in order, on its previous value, and ends clean; the other nodes
/// keep their values.
pub proof fn lemma_memo_read_refreshes_chain<T, F: Fn(Option<&T>) -> T>(
    pre: Runtime<T, F>,
    post: Runtime<T, F>,
    c: Seq<NodeId>,
)
    requires
        pre.wf(),
        memo_chain(pre, c),
        pre.metas()[c[0].index as int].dirty,
        pre.brought_up_to_date(&post, c.last()),
    ensures
        forall|x: int|
            0 <= x < c.len() ==> {
                &&& !post.metas()[(#[trigger] c[x]).index as int].dirty
                &&& post.value_of(c[x]) is Some
                &&& pre.computations()[c[x].index as int]->0.ran(
                    pre.value_of(c[x]),
                    post.value_of(c[x])->0,
                )
            },
        forall|y: int|
            0 <= y < pre.len() && (forall|x: int| 0 <= x < c.len() ==> (#[trigger] c[x]).index != y)
                ==> #[trigger] post.values()[y] == pre.values()[y],
{
    lemma_chain_fits(pre, c);
    lemma_chain_runs(pre, post, c, c.len() - 1, pre.len());
    assert forall|y: int|
        0 <= y < pre.len() && (forall|x: int| 0 <= x < c.len() ==> (#[trigger] c[x]).index != y)
            implies #[trigger] post.values()[y] == pre.values()[y] by {
        assert(forall|x: int| 0 <= x <= c.len() - 1 ==> (#[trigger] c[x]).index != y);
    }
}

/// A chain has no more memos than the runtime has nodes.
proof fn lemma_chain_fits<T, F: Fn(Option<&T>) -> T>(rt: Runtime<T, F>, c: Seq<NodeId>)
    requires
        memo_chain(rt, c),
    ensures
        c.len() <= rt.len(),
{
    let idx = c.map_values(|n: NodeId| n.index as int);
    assert forall|x: int, y: int| 0 <= x < idx.len() && 0 <= y < idx.len() && x != y implies idx[x]
        != idx[y] by {
        assert(c[x].index != c[y].index);
    }
    assert(idx.no_duplicates());
    let full = vstd::set_lib::set_int_range(0, rt.len() as int);
    assert(idx.to_set().subset_of(full)) by {
        assert forall|v: int| idx.to_set().contains(v) implies full.contains(v) by {
            let x = choose|x: int| 0 <= x < idx.len() && idx[x] == v;
            assert(rt.is_memo(c[x]));
        }
    }
    idx.unique_seq_to_set();
    vstd::set_lib::lemma_int_range(0, rt.len() as int);
    vstd::set_lib::lemma_len_subset(idx.to_set(), full);
}

} // verus!
