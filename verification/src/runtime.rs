//! The reactive runtime: an arena of signal and memo nodes, the owner that new
//! nodes are created under, the observer that tracked reads subscribe, the
//! subscription graph, the handles that keep reference-counted signals alive,
//! and the flag that marks an intentional leak.
use vstd::prelude::*;

use crate::memo_nodedup::MemoNodedupState;

verus! {

/// Identifies one reactive node (a signal or a memo) of a [`Runtime`].
#[derive(Clone, Copy, Debug, PartialEq, Eq, Hash, Structural)]
pub struct NodeId {
    pub index: usize,
}

/// The owner a node is created under.
///
/// `Leak` is the owner that is never disposed; `Scope(s)` is disposed by
/// [`Runtime::dispose_scope`]; `Unowned` nodes live until they are disposed one
/// by one.
#[derive(Clone, Copy, Debug, PartialEq, Eq, Structural)]
pub enum NodeOwner {
    Unowned,
    Leak,
    Scope(u64),
}

/// What a node holds: a value that is written from outside, or a value that a
/// memo computes.
#[derive(Clone, Copy, Debug, PartialEq, Eq, Structural)]
pub enum NodeKind {
    Signal,
    Memo,
}

/// The bookkeeping of one node.
///
/// `dirty` marks a node whose sources changed since it last ran; `handles`
/// counts the reference-counted handles that keep the node alive.
#[derive(Clone, Copy, Debug, PartialEq, Eq, Structural)]
pub struct NodeMeta {
    pub kind: NodeKind,
    pub owner: NodeOwner,
    pub alive: bool,
    pub dirty: bool,
    pub handles: u64,
}

/// The state of the reactive system that signals and memos live in.
///
/// `T` is the type of the values held by the nodes and `F` the type of the
/// functions that memos compute their values with.
#[verifier::reject_recursive_types(T)]
pub struct Runtime<T, F: Fn(Option<&T>) -> T> {
    values: Vec<Option<T>>,
    meta: Vec<NodeMeta>,
    computations: Vec<Option<MemoNodedupState<T, F>>>,
    subscriptions: Vec<(usize, usize)>,
    stored: Vec<(u64, usize)>,
    owner: NodeOwner,
    observer: Option<usize>,
    leaking: bool,
}

/// `src` has `sub` among its subscribers in the subscription list `subs`.
pub open spec fn subscribed(subs: Seq<(usize, usize)>, src: int, sub: int) -> bool {
    exists|k: int| 0 <= k < subs.len() && (#[trigger] subs[k]).0 as int == src && subs[k].1 as int == sub
}

/// The bookkeeping after every subscriber of `src` has been marked dirty.
pub open spec fn marked(metas: Seq<NodeMeta>, subs: Seq<(usize, usize)>, src: int) -> Seq<NodeMeta> {
    Seq::new(
        metas.len(),
        |j: int| NodeMeta { dirty: metas[j].dirty || subscribed(subs, src, j), ..metas[j] },
    )
}

/// The subscription list after the observer `obs` has subscribed to `src`.
pub open spec fn with_subscription(subs: Seq<(usize, usize)>, src: int, obs: int) -> Seq<(usize, usize)> {
    if subscribed(subs, src, obs) {
        subs
    } else {
        subs.push((src as usize, obs as usize))
    }
}

/// How many of the stored handles in `stored` belong to `scope` and keep node `i`.
pub open spec fn stored_count(stored: Seq<(u64, usize)>, scope: u64, i: int) -> nat
    decreases stored.len(),
{
    if stored.len() == 0 {
        0
    } else {
        stored_count(stored.drop_last(), scope, i) + if stored.last() == (scope, i as usize) {
            1nat
        } else {
            0nat
        }
    }
}

/// How many stored handles, of any scope, keep node `i`.
pub open spec fn stored_total(stored: Seq<(u64, usize)>, i: int) -> nat
    decreases stored.len(),
{
    if stored.len() == 0 {
        0
    } else {
        stored_total(stored.drop_last(), i) + if stored.last().1 as int == i {
            1nat
        } else {
            0nat
        }
    }
}

/// The handles one scope stores are among all the stored handles, and
/// dropping them leaves the handles of the other scopes.
pub proof fn lemma_stored_split(stored: Seq<(u64, usize)>, scope: u64, i: int)
    requires
        0 <= i <= usize::MAX,
    ensures
        stored_count(stored, scope, i) <= stored_total(stored, i),
        stored_total(stored_outside(stored, scope), i) + stored_count(stored, scope, i)
            == stored_total(stored, i),
    decreases stored.len(),
{
    if stored.len() > 0 {
        lemma_stored_split(stored.drop_last(), scope, i);
        if stored.last().0 != scope {
            let rest = stored_outside(stored.drop_last(), scope);
            assert(rest.push(stored.last()).drop_last() =~= rest);
            assert(rest.push(stored.last()).last() == stored.last());
        }
        if stored.last().1 as int == i && stored.last().0 == scope {
            assert(stored.last() == (scope, i as usize));
        }
    }
}

/// No stored handle keeps a node at or past `n` when every stored handle
/// names a node below `n`.
pub proof fn lemma_stored_total_past_end(stored: Seq<(u64, usize)>, n: int)
    requires
        forall|k: int| 0 <= k < stored.len() ==> (#[trigger] stored[k]).1 < n,
    ensures
        stored_total(stored, n) == 0,
    decreases stored.len(),
{
    if stored.len() > 0 {
        let rest = stored.drop_last();
        assert forall|k: int| 0 <= k < rest.len() implies (#[trigger] rest[k]).1 < n by {
            assert(rest[k] == stored[k]);
        }
        lemma_stored_total_past_end(rest, n);
        assert(stored.last() == stored[stored.len() - 1]);
    }
}

/// The stored handles of a prefix of the list are at most those of the whole.
pub proof fn lemma_stored_prefix(stored: Seq<(u64, usize)>, k: int, i: int)
    requires
        0 <= k <= stored.len(),
    ensures
        stored_total(stored.take(k), i) <= stored_total(stored, i),
    decreases stored.len() - k,
{
    if k < stored.len() {
        lemma_stored_prefix(stored, k + 1, i);
        assert(stored.take(k + 1).drop_last() =~= stored.take(k));
    } else {
        assert(stored.take(k) =~= stored);
    }
}

/// Every node stays well-formed when the tables change at most at `j`, and
/// what `j` holds afterwards is well-formed.
pub proof fn lemma_node_ok_update<T, F: Fn(Option<&T>) -> T>(
    metas0: Seq<NodeMeta>,
    values0: Seq<Option<T>>,
    comps0: Seq<Option<MemoNodedupState<T, F>>>,
    metas1: Seq<NodeMeta>,
    values1: Seq<Option<T>>,
    comps1: Seq<Option<MemoNodedupState<T, F>>>,
    j: int,
)
    requires
        values0.len() == metas0.len(),
        comps0.len() == metas0.len(),
        metas1.len() == metas0.len(),
        values1.len() == metas0.len(),
        comps1.len() == metas0.len(),
        forall|i: int| 0 <= i < metas0.len() ==> node_ok(#[trigger] metas0[i], values0[i], comps0[i]),
        forall|i: int|
            0 <= i < metas0.len() && i != j ==> #[trigger] metas1[i] == metas0[i] && values1[i]
                == values0[i] && comps1[i] == comps0[i],
        0 <= j < metas0.len() ==> node_ok(metas1[j], values1[j], comps1[j]),
    ensures
        forall|i: int| 0 <= i < metas1.len() ==> node_ok(#[trigger] metas1[i], values1[i], comps1[i]),
{
    assert forall|i: int| 0 <= i < metas1.len() implies node_ok(
        #[trigger] metas1[i],
        values1[i],
        comps1[i],
    ) by {
        if i != j {
            assert(metas1[i] == metas0[i]);
            assert(node_ok(metas0[i], values0[i], comps0[i]));
        }
    }
}

/// The stored handles that do not belong to `scope`, in their order.
pub open spec fn stored_outside(stored: Seq<(u64, usize)>, scope: u64) -> Seq<(u64, usize)>
    decreases stored.len(),
{
    if stored.len() == 0 {
        stored
    } else if stored.last().0 == scope {
        stored_outside(stored.drop_last(), scope)
    } else {
        stored_outside(stored.drop_last(), scope).push(stored.last())
    }
}

/// `a - b`, or 0 where `b` exceeds `a`.
pub open spec fn saturating_sub(a: u64, b: nat) -> u64 {
    if b <= a {
        (a - b) as u64
    } else {
        0
    }
}

/// The bookkeeping of node `i` after the handles that `scope` stored have been
/// released and the nodes it owns disposed.
pub open spec fn meta_after_scope(m: NodeMeta, scope: u64, k: nat) -> NodeMeta {
    NodeMeta {
        alive: m.alive && !scope_kills(m, scope, k),
        handles: saturating_sub(m.handles, k),
        ..m
    }
}

/// Disposing `scope` ends a node with bookkeeping `m` that `k` handles of the
/// scope keep: the scope owns it, or those handles were the last ones.
pub open spec fn scope_kills(m: NodeMeta, scope: u64, k: nat) -> bool {
    m.owner == NodeOwner::Scope(scope) || (m.handles > 0 && k >= m.handles)
}

/// The bookkeeping after the nodes below `upto` that `scope` owns were disposed.
pub open spec fn metas_owned_disposed(metas: Seq<NodeMeta>, scope: u64, upto: int) -> Seq<NodeMeta> {
    Seq::new(
        metas.len(),
        |j: int|
            if j < upto && metas[j].owner == NodeOwner::Scope(scope) {
                NodeMeta { alive: false, ..metas[j] }
            } else {
                metas[j]
            },
    )
}

/// The values after the nodes below `upto` that `scope` owns were disposed.
pub open spec fn values_owned_disposed<T>(
    values: Seq<Option<T>>,
    metas: Seq<NodeMeta>,
    scope: u64,
    upto: int,
) -> Seq<Option<T>> {
    Seq::new(
        metas.len(),
        |j: int|
            if j < upto && metas[j].owner == NodeOwner::Scope(scope) {
                None
            } else {
                values[j]
            },
    )
}

/// The bookkeeping after `scope` was disposed, with `stored` the handles it
/// gave back.
pub open spec fn metas_released(metas: Seq<NodeMeta>, stored: Seq<(u64, usize)>, scope: u64) -> Seq<
    NodeMeta,
> {
    Seq::new(metas.len(), |j: int| meta_after_scope(metas[j], scope, stored_count(stored, scope, j)))
}

/// The values after `scope` was disposed, with `stored` the handles it gave back.
pub open spec fn values_released<T>(
    values: Seq<Option<T>>,
    metas: Seq<NodeMeta>,
    stored: Seq<(u64, usize)>,
    scope: u64,
) -> Seq<Option<T>> {
    Seq::new(
        metas.len(),
        |j: int|
            if scope_kills(metas[j], scope, stored_count(stored, scope, j)) {
                None
            } else {
                values[j]
            },
    )
}

/// The bookkeeping of a node that was just created.
pub open spec fn fresh_meta(kind: NodeKind, owner: NodeOwner) -> NodeMeta {
    NodeMeta { kind, owner, alive: true, dirty: kind == NodeKind::Memo, handles: 0 }
}

impl<T, F: Fn(Option<&T>) -> T> Runtime<T, F> {
    /// The value each node holds; `None` for a disposed node and for a memo
    /// that has not run yet.
    pub closed spec fn values(&self) -> Seq<Option<T>> {
        self.values@
    }

    /// The bookkeeping of each node.
    pub closed spec fn metas(&self) -> Seq<NodeMeta> {
        self.meta@
    }

    /// The computation of each memo node; `None` for a signal.
    pub closed spec fn computations(&self) -> Seq<Option<MemoNodedupState<T, F>>> {
        self.computations@
    }

    /// Pairs `(source, subscriber)`: a tracked read of `source` made while
    /// `subscriber` was observing.
    pub closed spec fn subs(&self) -> Seq<(usize, usize)> {
        self.subscriptions@
    }

    /// Pairs `(scope, node)`: a handle of `node` that `scope` keeps until it is
    /// disposed.
    pub closed spec fn stored(&self) -> Seq<(u64, usize)> {
        self.stored@
    }

    /// The owner that new nodes are created under.
    pub closed spec fn owner(&self) -> NodeOwner {
        self.owner
    }

    /// The node whose tracked reads are being recorded, if any.
    pub closed spec fn observer(&self) -> Option<usize> {
        self.observer
    }

    /// Whether an intentional leak is under way.
    pub closed spec fn leaking(&self) -> bool {
        self.leaking
    }

    /// The number of nodes ever created.
    pub open spec fn len(&self) -> nat {
        self.metas().len()
    }

    /// Node `id` exists and has not been disposed.
    pub open spec fn is_alive(&self, id: NodeId) -> bool {
        id.index < self.len() && self.metas()[id.index as int].alive
    }

    /// Node `id` is a live signal.
    pub open spec fn is_signal(&self, id: NodeId) -> bool {
        self.is_alive(id) && self.metas()[id.index as int].kind == NodeKind::Signal
    }

    /// Node `id` is a live memo.
    pub open spec fn is_memo(&self, id: NodeId) -> bool {
        self.is_alive(id) && self.metas()[id.index as int].kind == NodeKind::Memo
    }

    /// The value held by node `id`.
    pub open spec fn value_of(&self, id: NodeId) -> Option<T> {
        self.values()[id.index as int]
    }

    /// The same runtime with the leak flag set to `b`.
    pub closed spec fn with_leaking(self, b: bool) -> Self {
        Runtime { leaking: b, ..self }
    }

    /// The well-formedness of a runtime: the tables agree in length, a
    /// disposed node holds nothing, a live signal holds a value, a clean live
    /// memo holds its last result, every memo has a computation defined on
    /// every input, every recorded index names a node, and no node has fewer
    /// handles than the scopes store of it.
    pub open spec fn wf(&self) -> bool {
        &&& self.values().len() == self.len()
        &&& self.computations().len() == self.len()
        &&& self.nodes_wf()
        &&& self.handles_wf()
    }

    /// The part of [`Runtime::wf`] that speaks of handles: a node has at
    /// least as many handles as the scopes store of it.
    pub closed spec fn handles_wf(&self) -> bool {
        forall|i: int|
            0 <= i < self.meta@.len() ==> stored_total(self.stored@, i) <= (
            #[trigger] self.meta@[i]).handles
    }

    /// The part of [`Runtime::wf`] that speaks of each node and of each
    /// recorded index.
    pub closed spec fn nodes_wf(&self) -> bool {
        &&& self.meta@.len() <= usize::MAX
        &&& self.values@.len() == self.meta@.len()
        &&& self.computations@.len() == self.meta@.len()
        &&& forall|i: int|
            0 <= i < self.meta@.len() ==> node_ok(
                #[trigger] self.meta@[i],
                self.values@[i],
                self.computations@[i],
            )
        &&& forall|k: int|
            0 <= k < self.subscriptions@.len() ==> (#[trigger] self.subscriptions@[k]).0
                < self.meta@.len() && self.subscriptions@[k].1 < self.meta@.len()
        &&& forall|k: int|
            0 <= k < self.stored@.len() ==> (#[trigger] self.stored@[k]).1 < self.meta@.len()
        &&& (self.observer matches Some(o) ==> o < self.meta@.len())
    }

    /// Everything but the nodes' values and bookkeeping is the same in `self`
    /// and `other`.
    pub open spec fn same_graph(&self, other: &Self) -> bool {
        &&& self.computations() == other.computations()
        &&& self.subs() == other.subs()
        &&& self.stored() == other.stored()
        &&& self.owner() == other.owner()
        &&& self.observer() == other.observer()
        &&& self.leaking() == other.leaking()
    }

    /// `self` and `other` agree in everything but the subscriptions.
    pub open spec fn same_but_subs(&self, other: &Self) -> bool {
        &&& self.values() == other.values()
        &&& self.metas() == other.metas()
        &&& self.computations() == other.computations()
        &&& self.stored() == other.stored()
        &&& self.owner() == other.owner()
        &&& self.observer() == other.observer()
        &&& self.leaking() == other.leaking()
    }

    /// `new` is `self` with one more node, created under the current owner:
    /// `id` names it, and it holds `value` and the computation `comp`.
    pub open spec fn created(
        &self,
        new: &Self,
        kind: NodeKind,
        value: Option<T>,
        comp: Option<MemoNodedupState<T, F>>,
        id: NodeId,
    ) -> bool {
        &&& id.index == self.len()
        &&& new.values() == self.values().push(value)
        &&& new.metas() == self.metas().push(fresh_meta(kind, self.owner()))
        &&& new.computations() == self.computations().push(comp)
        &&& new.subs() == self.subs()
        &&& new.stored() == self.stored()
        &&& new.owner() == self.owner()
        &&& new.observer() == self.observer()
        &&& new.leaking() == self.leaking()
    }

    /// `new` is `self` after node `id` was disposed (nothing, if it does not exist).
    pub open spec fn disposed(&self, new: &Self, id: NodeId) -> bool {
        &&& self.same_graph(new)
        &&& if id.index < self.len() {
            &&& new.values() == self.values().update(id.index as int, None)
            &&& new.metas() == self.metas().update(
                id.index as int,
                NodeMeta { alive: false, ..self.metas()[id.index as int] },
            )
        } else {
            &&& new.values() == self.values()
            &&& new.metas() == self.metas()
        }
    }

    /// `new` is `self` after a tracked read of `id`: the current observer, if
    /// any, subscribes to a live `id`.
    pub open spec fn tracked_read(&self, new: &Self, id: NodeId) -> bool {
        &&& self.same_but_subs(new)
        &&& new.subs() == match self.observer() {
            Some(o) => if self.is_alive(id) {
                with_subscription(self.subs(), id.index as int, o as int)
            } else {
                self.subs()
            },
            None => self.subs(),
        }
    }

    /// `new` is `self` after node `id` changed and told its subscribers:
    /// every subscriber of `id` is dirty.
    pub open spec fn notified(&self, new: &Self, id: NodeId) -> bool {
        &&& self.same_graph(new)
        &&& new.values() == self.values()
        &&& new.metas() == marked(self.metas(), self.subs(), id.index as int)
    }

    /// `new` is `self` after memo `id` was brought up to date: a live dirty
    /// memo runs its computation on its previous value, holds the result, is
    /// clean, and marks its subscribers dirty; anything else is unchanged.
    pub open spec fn refreshed(&self, new: &Self, id: NodeId) -> bool {
        if self.is_memo(id) && self.metas()[id.index as int].dirty {
            let i = id.index as int;
            &&& self.same_graph(new)
            &&& new.values().len() == self.values().len()
            &&& new.values() == self.values().update(i, new.values()[i])
            &&& new.values()[i] is Some
            &&& self.computations()[i]->0.ran(self.values()[i], new.values()[i]->0)
            &&& new.metas() == marked(
                self.metas().update(i, NodeMeta { dirty: false, ..self.metas()[i] }),
                self.subs(),
                i,
            )
        } else {
            &&& self.same_graph(new)
            &&& new.values() == self.values()
            &&& new.metas() == self.metas()
        }
    }

    /// `self` and `new` agree in everything.
    pub open spec fn unchanged(&self, new: &Self) -> bool {
        &&& self.same_graph(new)
        &&& new.values() == self.values()
        &&& new.metas() == self.metas()
    }

    /// `new` is `self` after memo `id` was brought up to date together with
    /// the memos upstream of it, `fuel` levels deep: first each live memo
    /// that `id` subscribes to is brought up to date the same way, one level
    /// less deep, in the order of the subscriptions; then `id` runs if it is
    /// dirty, which it is when one of those memos ran.
    pub open spec fn refreshed_within(&self, new: &Self, id: NodeId, fuel: nat) -> bool
        decreases fuel, 0nat, 0nat,
    {
        if fuel > 0 && self.is_memo(id) {
            exists|mid: Self|
                self.sources_refreshed(&mid, id, (fuel - 1) as nat, self.subs().len())
                    && #[trigger] mid.refreshed(new, id)
        } else {
            self.refreshed(new, id)
        }
    }

    /// `new` is `self` after the first `k` subscriptions were gone through:
    /// for each that makes `id` a subscriber of another live memo, that memo
    /// was brought up to date `fuel` levels deep.
    pub open spec fn sources_refreshed(&self, new: &Self, id: NodeId, fuel: nat, k: nat) -> bool
        decreases fuel, 1nat, k,
    {
        if k == 0 {
            self.unchanged(new)
        } else {
            exists|mid: Self|
                #![trigger mid.metas()]
                self.sources_refreshed(&mid, id, fuel, (k - 1) as nat) && source_step(
                    &mid,
                    new,
                    id,
                    fuel,
                    self.subs()[k - 1],
                )
        }
    }

    /// What a read of memo `id` does: it is brought up to date together with
    /// every memo upstream of it along a chain of at most as many
    /// subscriptions as there are nodes.
    pub open spec fn brought_up_to_date(&self, new: &Self, id: NodeId) -> bool {
        self.refreshed_within(new, id, self.len())
    }

    /// What well-formedness says, for use outside this module.
    pub proof fn lemma_wf(&self)
        requires
            self.wf(),
        ensures
            self.values().len() == self.len(),
            self.computations().len() == self.len(),
            forall|i: int|
                0 <= i < self.len() ==> node_ok(
                    #[trigger] self.metas()[i],
                    self.values()[i],
                    self.computations()[i],
                ),
            forall|k: int|
                0 <= k < self.subs().len() ==> (#[trigger] self.subs()[k]).0 < self.len()
                    && self.subs()[k].1 < self.len(),
            forall|k: int| 0 <= k < self.stored().len() ==> (#[trigger] self.stored()[k]).1 < self.len(),
            self.observer() matches Some(o) ==> o < self.len(),
            forall|i: int|
                0 <= i < self.len() ==> stored_total(self.stored(), i) <= (
                #[trigger] self.metas()[i]).handles,
            self.len() <= usize::MAX,
    {
    }

    /// Creates an empty runtime: no nodes, no owner, no observer, no leak.
    pub fn new() -> (rt: Self)
        ensures
            rt.wf(),
            rt.len() == 0,
            rt.values().len() == 0,
            rt.computations().len() == 0,
            rt.subs().len() == 0,
            rt.stored().len() == 0,
            rt.owner() == NodeOwner::Unowned,
            rt.observer() is None,
            !rt.leaking(),
    {
        Runtime {
            values: Vec::new(),
            meta: Vec::new(),
            computations: Vec::new(),
            subscriptions: Vec::new(),
            stored: Vec::new(),
            owner: NodeOwner::Unowned,
            observer: None,
            leaking: false,
        }
    }

    /// The number of nodes ever created.
    pub fn node_count(&self) -> (n: usize)
        requires
            self.wf(),
        ensures
            n == self.len(),
    {
        self.meta.len()
    }

    /// Whether node `id` exists and has not been disposed.
    pub fn alive(&self, id: NodeId) -> (b: bool)
        requires
            self.wf(),
        ensures
            b == self.is_alive(id),
    {
        id.index < self.meta.len() && self.meta[id.index].alive
    }

    /// Whether node `id` is a live signal.
    pub fn signal_alive(&self, id: NodeId) -> (b: bool)
        requires
            self.wf(),
        ensures
            b == self.is_signal(id),
    {
        id.index < self.meta.len() && self.meta[id.index].alive && self.meta[id.index].kind
            == NodeKind::Signal
    }

    /// Whether node `id` is a live memo.
    pub fn memo_alive(&self, id: NodeId) -> (b: bool)
        requires
            self.wf(),
        ensures
            b == self.is_memo(id),
    {
        id.index < self.meta.len() && self.meta[id.index].alive && self.meta[id.index].kind
            == NodeKind::Memo
    }

    /// The bookkeeping of node `id`.
    pub fn meta_of(&self, id: NodeId) -> (m: NodeMeta)
        requires
            self.wf(),
            id.index < self.len(),
        ensures
            m == self.metas()[id.index as int],
    {
        self.meta[id.index]
    }

    /// The owner that new nodes are created under.
    pub fn current_owner(&self) -> (o: NodeOwner)
        ensures
            o == self.owner(),
    {
        self.owner
    }

    /// Makes `owner` the owner of the nodes created from now on, and returns
    /// the one it replaces.
    pub fn set_owner(&mut self, owner: NodeOwner) -> (prev: NodeOwner)
        requires
            old(self).wf(),
        ensures
            final(self).wf(),
            prev == old(self).owner(),
            final(self).owner() == owner,
            final(self).values() == old(self).values(),
            final(self).metas() == old(self).metas(),
            final(self).computations() == old(self).computations(),
            final(self).subs() == old(self).subs(),
            final(self).stored() == old(self).stored(),
            final(self).observer() == old(self).observer(),
            final(self).leaking() == old(self).leaking(),
    {
        let prev = self.owner;
        self.owner = owner;
        prev
    }

    /// Makes `obs` the node whose tracked reads are recorded from now on, and
    /// returns the one it replaces.
    pub fn set_observer(&mut self, obs: Option<NodeId>) -> (prev: Option<NodeId>)
        requires
            old(self).wf(),
            obs matches Some(o) ==> o.index < old(self).len(),
        ensures
            final(self).wf(),
            prev == (match old(self).observer() {
                Some(o) => Some(NodeId { index: o }),
                None => None::<NodeId>,
            }),
            final(self).observer() == (match obs {
                Some(o) => Some(o.index),
                None => None::<usize>,
            }),
            final(self).values() == old(self).values(),
            final(self).metas() == old(self).metas(),
            final(self).computations() == old(self).computations(),
            final(self).subs() == old(self).subs(),
            final(self).stored() == old(self).stored(),
            final(self).owner() == old(self).owner(),
            final(self).leaking() == old(self).leaking(),
    {
        let prev = match self.observer {
            Some(o) => Some(NodeId { index: o }),
            None => None,
        };
        self.observer = match obs {
            Some(o) => Some(o.index),
            None => None,
        };
        prev
    }

    /// Whether an intentional leak is under way.
    pub fn is_leaking(&self) -> (b: bool)
        ensures
            b == self.leaking(),
    {
        self.leaking
    }

    /// Sets the leak flag.
    pub(crate) fn set_leaking(&mut self, b: bool)
        ensures
            *final(self) == old(self).with_leaking(b),
    {
        self.leaking = b;
    }

    /// The facts that callers need about [`Runtime::with_leaking`]: only the
    /// flag changes.
    pub proof fn lemma_with_leaking(self, b: bool)
        ensures
            self.with_leaking(b).leaking() == b,
            self.with_leaking(b).values() == self.values(),
            self.with_leaking(b).metas() == self.metas(),
            self.with_leaking(b).computations() == self.computations(),
            self.with_leaking(b).subs() == self.subs(),
            self.with_leaking(b).stored() == self.stored(),
            self.with_leaking(b).owner() == self.owner(),
            self.with_leaking(b).observer() == self.observer(),
            self.with_leaking(b).wf() == self.wf(),
            self.with_leaking(self.leaking()) == self,
    {
        let r = self.with_leaking(b);
        assert(r.values@ == self.values@ && r.meta@ == self.meta@);
        assert(r.computations@ == self.computations@ && r.subscriptions@ == self.subscriptions@);
        assert(r.stored@ == self.stored@ && r.observer == self.observer);
    }

    /// Adds a node under the current owner and returns its id.
    pub(crate) fn create_node(
        &mut self,
        kind: NodeKind,
        value: Option<T>,
        comp: Option<MemoNodedupState<T, F>>,
    ) -> (id: NodeId)
        requires
            old(self).wf(),
            old(self).len() < usize::MAX,
            node_ok(fresh_meta(kind, old(self).owner()), value, comp),
        ensures
            final(self).wf(),
            old(self).created(&*final(self), kind, value, comp, id),
    {
        let id = NodeId { index: self.meta.len() };
        let m = NodeMeta {
            kind,
            owner: self.owner,
            alive: true,
            dirty: match kind {
                NodeKind::Memo => true,
                NodeKind::Signal => false,
            },
            handles: 0,
        };
        self.values.push(value);
        self.meta.push(m);
        self.computations.push(comp);
        proof {
            assert(self.meta@[id.index as int] == m);
            assert forall|i: int| 0 <= i < self.meta@.len() implies node_ok(
                #[trigger] self.meta@[i],
                self.values@[i],
                self.computations@[i],
            ) by {
                if i < id.index {
                    assert(node_ok(old(self).meta@[i], old(self).values@[i], old(self).computations@[i]));
                }
            }
            assert forall|k: int| 0 <= k < self.subscriptions@.len() implies (
            #[trigger] self.subscriptions@[k]).0 < self.meta@.len() && self.subscriptions@[k].1
                < self.meta@.len() by {
                assert(old(self).subscriptions@[k].0 < old(self).meta@.len());
            }
            assert forall|k: int| 0 <= k < self.stored@.len() implies (
            #[trigger] self.stored@[k]).1 < self.meta@.len() by {
                assert(old(self).stored@[k].1 < old(self).meta@.len());
            }
            lemma_stored_total_past_end(self.stored@, id.index as int);
            assert forall|i: int| 0 <= i < self.meta@.len() implies stored_total(self.stored@, i) <= (
            #[trigger] self.meta@[i]).handles by {
                if i < id.index {
                    assert(self.meta@[i] == old(self).meta@[i]);
                }
            }
        }
        id
    }

    /// The value that node `id` holds.
    pub fn value_ref(&self, id: NodeId) -> (v: &Option<T>)
        requires
            self.wf(),
            id.index < self.len(),
        ensures
            *v == self.value_of(id),
    {
        &self.values[id.index]
    }

    /// Takes the value out of node `id`, leaving nothing in its place.
    pub(crate) fn take_value(&mut self, id: NodeId) -> (v: Option<T>)
        requires
            id.index < old(self).values().len(),
        ensures
            v == old(self).value_of(id),
            final(self).values() == old(self).values().update(id.index as int, None),
            final(self).metas() == old(self).metas(),
            old(self).same_graph(&*final(self)),
    {
        let mut v: Option<T> = None;
        std::mem::swap(&mut v, &mut self.values[id.index]);
        v
    }

    /// Puts `v` into node `id`.
    pub(crate) fn put_value(&mut self, id: NodeId, v: Option<T>)
        requires
            id.index < old(self).values().len(),
        ensures
            final(self).values() == old(self).values().update(id.index as int, v),
            final(self).metas() == old(self).metas(),
            old(self).same_graph(&*final(self)),
    {
        self.values.set(id.index, v);
    }

    /// Disposes node `id`: it holds nothing from now on, and reads of it fail.
    /// An id that names no node is ignored.
    pub fn dispose_node(&mut self, id: NodeId)
        requires
            old(self).wf(),
        ensures
            final(self).wf(),
            old(self).disposed(&*final(self), id),
    {
        self.dispose_raw(id);
    }

    /// [`Runtime::dispose_node`] on a runtime whose handle counts may be
    /// under way.
    fn dispose_raw(&mut self, id: NodeId)
        requires
            old(self).nodes_wf(),
        ensures
            final(self).nodes_wf(),
            old(self).disposed(&*final(self), id),
            forall|i: int|
                0 <= i < final(self).meta@.len() ==> (#[trigger] final(self).meta@[i]).handles
                    == old(self).meta@[i].handles,
            final(self).meta@.len() == old(self).meta@.len(),
    {
        if id.index < self.meta.len() {
            let mut m = self.meta[id.index];
            m.alive = false;
            self.meta.set(id.index, m);
            self.values.set(id.index, None);
            proof {
                lemma_node_ok_update(
                    old(self).meta@,
                    old(self).values@,
                    old(self).computations@,
                    self.meta@,
                    self.values@,
                    self.computations@,
                    id.index as int,
                );
            }
        }
    }

    /// Records a tracked read of `id`: the current observer, if any,
    /// subscribes to a live `id`.
    pub(crate) fn subscribe(&mut self, id: NodeId)
        requires
            old(self).wf(),
        ensures
            final(self).wf(),
            old(self).tracked_read(&*final(self), id),
    {
        if let Some(o) = self.observer {
            if id.index < self.meta.len() && self.meta[id.index].alive {
                let n = self.subscriptions.len();
                let mut k: usize = 0;
                let mut found = false;
                while k < n
                    invariant
                        n == self.subscriptions@.len(),
                        k <= n,
                        found <==> exists|j: int|
                            0 <= j < k && #[trigger] self.subscriptions@[j] == (id.index, o),
                    decreases n - k,
                {
                    if self.subscriptions[k].0 == id.index && self.subscriptions[k].1 == o {
                        found = true;
                    }
                    k = k + 1;
                }
                if !found {
                    self.subscriptions.push((id.index, o));
                    proof {
                        assert forall|k2: int| 0 <= k2 < self.subscriptions@.len() implies (
                        #[trigger] self.subscriptions@[k2]).0 < self.meta@.len()
                            && self.subscriptions@[k2].1 < self.meta@.len() by {
                            if k2 < n {
                                assert(old(self).subscriptions@[k2] == self.subscriptions@[k2]);
                            }
                        }
                    }
                }
            }
        }
    }

    /// Tells the subscribers of `id` that it changed: each of them is marked dirty.
    pub(crate) fn notify(&mut self, id: NodeId)
        requires
            old(self).wf(),
        ensures
            final(self).wf(),
            old(self).notified(&*final(self), id),
    {
        let n = self.subscriptions.len();
        let ghost metas0 = self.meta@;
        let ghost subs0 = self.subscriptions@;
        let mut k: usize = 0;
        while k < n
            invariant
                self.wf(),
                n == subs0.len(),
                k <= n,
                self.subscriptions@ == subs0,
                subs0 == old(self).subscriptions@,
                self.values@ == old(self).values@,
                self.computations@ == old(self).computations@,
                self.stored@ == old(self).stored@,
                self.owner == old(self).owner,
                self.observer == old(self).observer,
                self.leaking == old(self).leaking,
                metas0 == old(self).meta@,
                self.meta@ == marked(metas0, subs0.take(k as int), id.index as int),
            decreases n - k,
        {
            let (s, t) = self.subscriptions[k];
            let ghost before = self.meta@;
            if s == id.index {
                let mut m = self.meta[t];
                m.dirty = true;
                self.meta.set(t, m);
                proof {
                    assert(node_ok(before[t as int], self.values@[t as int], self.computations@[t as int]));
                    lemma_node_ok_update(
                        before,
                        self.values@,
                        self.computations@,
                        self.meta@,
                        self.values@,
                        self.computations@,
                        t as int,
                    );
                }
            }
            proof {
                let next = subs0.take(k + 1);
                let prev = subs0.take(k as int);
                assert forall|j: int| 0 <= j < metas0.len() implies subscribed(next, id.index as int, j)
                    == (subscribed(prev, id.index as int, j) || (subs0[k as int].0 as int == id.index
                    && subs0[k as int].1 as int == j)) by {
                    if subscribed(prev, id.index as int, j) {
                        let q = choose|q: int| 0 <= q < prev.len() && (#[trigger] prev[q]).0 as int == id.index as int && prev[q].1 as int == j;
                        assert(next[q] == prev[q]);
                    }
                    if subs0[k as int].0 as int == id.index && subs0[k as int].1 as int == j {
                        assert(next[k as int] == subs0[k as int]);
                    }
                    if subscribed(next, id.index as int, j) {
                        let q = choose|q: int| 0 <= q < next.len() && (#[trigger] next[q]).0 as int == id.index as int && next[q].1 as int == j;
                        if q < k {
                            assert(prev[q] == next[q]);
                        }
                    }
                }
                assert(self.meta@ =~= marked(metas0, next, id.index as int));
            }
            k = k + 1;
        }
        proof {
            assert(subs0.take(n as int) =~= subs0);
        }
    }

    /// `new` is `self` with the handle count of node `id` raised by one.
    pub open spec fn retained(&self, new: &Self, id: NodeId) -> bool {
        let i = id.index as int;
        &&& self.same_graph(new)
        &&& new.values() == self.values()
        &&& new.metas() == self.metas().update(
            i,
            NodeMeta { handles: (self.metas()[i].handles + 1) as u64, ..self.metas()[i] },
        )
    }

    /// Adds one handle to node `id`.
    pub(crate) fn retain_handle(&mut self, id: NodeId)
        requires
            old(self).wf(),
            id.index < old(self).len(),
            old(self).metas()[id.index as int].handles < u64::MAX,
        ensures
            final(self).wf(),
            old(self).retained(&*final(self), id),
    {
        let mut m = self.meta[id.index];
        m.handles = m.handles + 1;
        self.meta.set(id.index, m);
        proof {
            lemma_node_ok_update(
                old(self).meta@,
                old(self).values@,
                old(self).computations@,
                self.meta@,
                self.values@,
                self.computations@,
                id.index as int,
            );
        }
    }

    /// `new` is `self` after the current owner took a handle of node `id`:
    /// the count is one higher, and a scope records the handle to give it back
    /// when it is disposed (the leak owner and no owner keep it for good).
    pub open spec fn stored_by_owner(&self, new: &Self, id: NodeId) -> bool {
        let i = id.index as int;
        &&& new.values() == self.values()
        &&& new.metas() == self.metas().update(
            i,
            NodeMeta { handles: (self.metas()[i].handles + 1) as u64, ..self.metas()[i] },
        )
        &&& new.computations() == self.computations()
        &&& new.subs() == self.subs()
        &&& new.owner() == self.owner()
        &&& new.observer() == self.observer()
        &&& new.leaking() == self.leaking()
        &&& new.stored() == match self.owner() {
            NodeOwner::Scope(s) => self.stored().push((s, id.index)),
            _ => self.stored(),
        }
    }

    /// Stores a handle of node `id` in the current owner.
    pub(crate) fn store_handle(&mut self, id: NodeId)
        requires
            old(self).wf(),
            id.index < old(self).len(),
            old(self).metas()[id.index as int].handles < u64::MAX,
        ensures
            final(self).wf(),
            old(self).stored_by_owner(&*final(self), id),
    {
        self.retain_handle(id);
        if let NodeOwner::Scope(s) = self.owner {
            let ghost before = self.stored@;
            self.stored.push((s, id.index));
            proof {
                assert(self.stored@.drop_last() =~= before);
                assert forall|j: int| 0 <= j < self.meta@.len() implies stored_total(self.stored@, j)
                    <= (#[trigger] self.meta@[j]).handles by {
                    assert(stored_total(before, j) <= old(self).meta@[j].handles);
                }
                assert forall|k: int| 0 <= k < self.stored@.len() implies (
                #[trigger] self.stored@[k]).1 < self.meta@.len() by {
                    if k < self.stored@.len() - 1 {
                        assert(old(self).stored@[k] == self.stored@[k]);
                    }
                }
            }
        }
    }

    /// `new` is `self` after one handle of node `id` was given back: a
    /// positive count drops by one; at zero nothing changes.
    pub open spec fn released(&self, new: &Self, id: NodeId) -> bool {
        let i = id.index as int;
        &&& self.same_graph(new)
        &&& new.values() == self.values()
        &&& new.metas() == if self.metas()[i].handles > 0 {
            self.metas().update(
                i,
                NodeMeta { handles: (self.metas()[i].handles - 1) as u64, ..self.metas()[i] },
            )
        } else {
            self.metas()
        }
    }

    /// `new` is `self` after a handle of node `id` that no scope stores was
    /// dropped: the count drops by one, and the node is disposed when that
    /// was its last handle. Where the node has no more handles than the
    /// scopes store, there is no such handle to drop, and nothing changes.
    pub open spec fn handle_dropped(&self, new: &Self, id: NodeId) -> bool {
        let i = id.index as int;
        let m = self.metas()[i];
        let free = m.handles > stored_total(self.stored(), i);
        &&& self.same_graph(new)
        &&& if free && m.handles == 1 {
            &&& new.values() == self.values().update(i, None)
            &&& new.metas() == self.metas().update(i, NodeMeta { alive: false, handles: 0, ..m })
        } else if free {
            &&& new.values() == self.values()
            &&& new.metas() == self.metas().update(i, NodeMeta { handles: (m.handles - 1) as u64, ..m })
        } else {
            &&& new.values() == self.values()
            &&& new.metas() == self.metas()
        }
    }

    /// Gives back one handle of node `id` that a scope stored; returns whether
    /// it was the last one.
    fn give_back_stored(&mut self, id: NodeId) -> (last: bool)
        requires
            old(self).nodes_wf(),
            id.index < old(self).len(),
        ensures
            final(self).nodes_wf(),
            old(self).released(&*final(self), id),
            last == (old(self).metas()[id.index as int].handles == 1),
    {
        let mut m = self.meta[id.index];
        if m.handles > 0 {
            m.handles = m.handles - 1;
            self.meta.set(id.index, m);
            proof {
                lemma_node_ok_update(
                    old(self).meta@,
                    old(self).values@,
                    old(self).computations@,
                    self.meta@,
                    self.values@,
                    self.computations@,
                    id.index as int,
                );
            }
            m.handles == 0
        } else {
            false
        }
    }

    /// How many stored handles keep node `id`.
    fn count_stored(&self, id: NodeId) -> (n: u64)
        requires
            self.wf(),
            id.index < self.len(),
        ensures
            n == stored_total(self.stored(), id.index as int),
    {
        let len = self.stored.len();
        let mut n: u64 = 0;
        let mut k: usize = 0;
        while k < len
            invariant
                self.wf(),
                id.index < self.len(),
                len == self.stored@.len(),
                k <= len,
                n == stored_total(self.stored@.take(k as int), id.index as int),
                n <= self.meta@[id.index as int].handles,
            decreases len - k,
        {
            proof {
                assert(self.stored@.take(k + 1).drop_last() =~= self.stored@.take(k as int));
                lemma_stored_prefix(self.stored@, k + 1, id.index as int);
            }
            if self.stored[k].1 == id.index {
                n = n + 1;
            }
            k = k + 1;
        }
        proof {
            assert(self.stored@.take(len as int) =~= self.stored@);
        }
        n
    }

    /// `new` is `self` after a handle of node `id` that no scope stores was
    /// given back: where the node has more handles than the scopes store, the
    /// count drops by one; otherwise nothing changes.
    pub open spec fn released_free(&self, new: &Self, id: NodeId) -> bool {
        let i = id.index as int;
        let m = self.metas()[i];
        &&& self.same_graph(new)
        &&& new.values() == self.values()
        &&& new.metas() == if m.handles > stored_total(self.stored(), i) {
            self.metas().update(i, NodeMeta { handles: (m.handles - 1) as u64, ..m })
        } else {
            self.metas()
        }
    }

    /// Gives back one handle of node `id` that no scope stores; returns
    /// whether it was the last handle of the node.
    pub(crate) fn release_handle(&mut self, id: NodeId) -> (last: bool)
        requires
            old(self).wf(),
            id.index < old(self).len(),
        ensures
            final(self).wf(),
            old(self).released_free(&*final(self), id),
            last == (old(self).metas()[id.index as int].handles == 1 && stored_total(
                old(self).stored(),
                id.index as int,
            ) == 0),
    {
        let held = self.count_stored(id);
        let mut m = self.meta[id.index];
        if m.handles > held {
            m.handles = m.handles - 1;
            self.meta.set(id.index, m);
            proof {
                lemma_node_ok_update(
                    old(self).meta@,
                    old(self).values@,
                    old(self).computations@,
                    self.meta@,
                    self.values@,
                    self.computations@,
                    id.index as int,
                );
            }
            m.handles == 0
        } else {
            false
        }
    }

    /// `new` is `self` after `scope` was disposed: every node it owns is
    /// disposed; every handle it stored is given back, and a node whose last
    /// handle that was is disposed too; the handles it stored are forgotten.
    pub open spec fn scope_disposed(&self, new: &Self, scope: u64) -> bool {
        &&& new.values() == values_released(self.values(), self.metas(), self.stored(), scope)
        &&& new.metas() == metas_released(self.metas(), self.stored(), scope)
        &&& new.stored() == stored_outside(self.stored(), scope)
        &&& new.computations() == self.computations()
        &&& new.subs() == self.subs()
        &&& new.owner() == self.owner()
        &&& new.observer() == self.observer()
        &&& new.leaking() == self.leaking()
    }

    /// Disposes `scope`: the nodes it owns, and the reference-counted nodes
    /// whose last handles it kept.
    pub fn dispose_scope(&mut self, scope: u64)
        requires
            old(self).wf(),
        ensures
            final(self).wf(),
            old(self).scope_disposed(&*final(self), scope),
    {
        let ghost metas0 = self.meta@;
        let ghost values0 = self.values@;
        let ghost stored0 = self.stored@;
        let n = self.meta.len();
        let mut i: usize = 0;
        while i < n
            invariant
                self.nodes_wf(),
                n == metas0.len(),
                i <= n,
                metas0 == old(self).meta@,
                values0 == old(self).values@,
                self.stored@ == stored0,
                stored0 == old(self).stored@,
                self.computations@ == old(self).computations@,
                self.subscriptions@ == old(self).subscriptions@,
                self.owner == old(self).owner,
                self.observer == old(self).observer,
                self.leaking == old(self).leaking,
                self.meta@ == metas_owned_disposed(metas0, scope, i as int),
                self.values@ == values_owned_disposed(values0, metas0, scope, i as int),
            decreases n - i,
        {
            if self.meta[i].owner == NodeOwner::Scope(scope) {
                self.dispose_raw(NodeId { index: i });
            }
            proof {
                assert(self.meta@ =~= metas_owned_disposed(metas0, scope, i + 1));
                assert(self.values@ =~= values_owned_disposed(values0, metas0, scope, i + 1));
            }
            i = i + 1;
        }
        let m = self.stored.len();
        let mut kept: Vec<(u64, usize)> = Vec::new();
        let mut k: usize = 0;
        proof {
            assert(stored0.take(0) =~= Seq::<(u64, usize)>::empty());
            assert(self.meta@ =~= metas_released(metas0, stored0.take(0), scope));
            assert(self.values@ =~= values_released(values0, metas0, stored0.take(0), scope));
        }
        while k < m
            invariant
                self.nodes_wf(),
                n == metas0.len(),
                m == stored0.len(),
                k <= m,
                metas0 == old(self).meta@,
                values0 == old(self).values@,
                self.stored@ == stored0,
                stored0 == old(self).stored@,
                self.computations@ == old(self).computations@,
                self.subscriptions@ == old(self).subscriptions@,
                self.owner == old(self).owner,
                self.observer == old(self).observer,
                self.leaking == old(self).leaking,
                self.meta@ == metas_released(metas0, stored0.take(k as int), scope),
                self.values@ == values_released(values0, metas0, stored0.take(k as int), scope),
                kept@ == stored_outside(stored0.take(k as int), scope),
                forall|q: int| 0 <= q < kept@.len() ==> (#[trigger] kept@[q]).1 < n,
            decreases m - k,
        {
            let (s, node) = self.stored[k];
            let ghost before_meta = self.meta@;
            proof {
                assert(stored0.take(k + 1).drop_last() =~= stored0.take(k as int));
                assert(stored0.take(k + 1).last() == stored0[k as int]);
                assert(node < n);
            }
            if s == scope {
                let last = self.give_back_stored(NodeId { index: node });
                if last {
                    self.dispose_raw(NodeId { index: node });
                }
                proof {
                    assert forall|j: int| 0 <= j < n implies #[trigger] self.meta@[j] == metas_released(
                        metas0,
                        stored0.take(k + 1),
                        scope,
                    )[j] && self.values@[j] == values_released(
                        values0,
                        metas0,
                        stored0.take(k + 1),
                        scope,
                    )[j] by {
                        assert(before_meta[j] == metas_released(metas0, stored0.take(k as int), scope)[j]);
                    }
                }
            }
            else {
                kept.push((s, node));
            }
            proof {
                assert(self.meta@ =~= metas_released(metas0, stored0.take(k + 1), scope));
                assert(self.values@ =~= values_released(values0, metas0, stored0.take(k + 1), scope));
            }
            k = k + 1;
        }
        proof {
            assert(stored0.take(m as int) =~= stored0);
        }
        self.stored = kept;
        proof {
            assert forall|j: int| 0 <= j < self.meta@.len() implies stored_total(self.stored@, j) <= (
            #[trigger] self.meta@[j]).handles by {
                lemma_stored_split(stored0, scope, j);
                assert(stored_total(stored0, j) <= metas0[j].handles);
            }
        }
    }

    /// Runs memo `id` if it is live and dirty: it runs its computation on its
    /// previous value and, as it always reports a change, marks its
    /// subscribers dirty.
    fn refresh_node(&mut self, id: NodeId)
        requires
            old(self).wf(),
        ensures
            final(self).wf(),
            old(self).refreshed(&*final(self), id),
    {
        if id.index < self.meta.len() && self.meta[id.index].alive && self.meta[id.index].kind
            == NodeKind::Memo && self.meta[id.index].dirty {
            let ghost i = id.index as int;
            proof {
                assert(node_ok(self.meta@[i], self.values@[i], self.computations@[i]));
            }
            let ghost prev = self.values@[i];
            let mut cur = self.take_value(id);
            let changed = match &self.computations[id.index] {
                Some(state) => state.run(&mut cur),
                None => false,
            };
            self.put_value(id, cur);
            let mut m = self.meta[id.index];
            m.dirty = false;
            self.meta.set(id.index, m);
            proof {
                assert(self.values@ =~= old(self).values@.update(i, self.values@[i]));
                lemma_node_ok_update(
                    old(self).meta@,
                    old(self).values@,
                    old(self).computations@,
                    self.meta@,
                    self.values@,
                    self.computations@,
                    i,
                );
            }
            if changed {
                self.notify(id);
            }
        }
    }

    /// Brings memo `id` up to date together with the memos upstream of it,
    /// `fuel` levels deep.
    pub(crate) fn update_if_necessary(&mut self, id: NodeId, fuel: usize)
        requires
            old(self).wf(),
        ensures
            final(self).wf(),
            old(self).refreshed_within(&*final(self), id, fuel as nat),
            old(self).same_graph(&*final(self)),
            only_dirt_changed(old(self).metas(), final(self).metas()),
            old(self).is_memo(id) ==> final(self).value_of(id) is Some,
            old(self).is_memo(id) && !subscribed(old(self).subs(), id.index as int, id.index as int)
                ==> !final(self).metas()[id.index as int].dirty,
        decreases fuel, 0nat,
    {
        let ghost pre = *self;
        if fuel > 0 && self.memo_alive(id) {
            self.update_sources(id, fuel - 1);
            let ghost mid = *self;
            self.refresh_node(id);
            proof {
                Self::lemma_within_step(pre, mid, *self, id, fuel as nat);
                self.lemma_refresh_facts(mid, id);
            }
        } else {
            self.refresh_node(id);
            proof {
                self.lemma_refresh_facts(pre, id);
            }
        }
    }

    /// Brings memo `id` up to date together with every memo upstream of it
    /// along a chain of at most as many subscriptions as there are nodes.
    pub(crate) fn bring_up_to_date(&mut self, id: NodeId)
        requires
            old(self).wf(),
        ensures
            final(self).wf(),
            old(self).brought_up_to_date(&*final(self), id),
            old(self).same_graph(&*final(self)),
            only_dirt_changed(old(self).metas(), final(self).metas()),
            old(self).is_memo(id) ==> final(self).value_of(id) is Some,
            old(self).is_memo(id) && !subscribed(old(self).subs(), id.index as int, id.index as int)
                ==> !final(self).metas()[id.index as int].dirty,
    {
        let n = self.meta.len();
        self.update_if_necessary(id, n);
    }

    /// Goes through the subscriptions, bringing up to date `fuel` levels deep
    /// each live memo that `id` subscribes to.
    fn update_sources(&mut self, id: NodeId, fuel: usize)
        requires
            old(self).wf(),
        ensures
            final(self).wf(),
            old(self).sources_refreshed(&*final(self), id, fuel as nat, old(self).subs().len()),
            old(self).same_graph(&*final(self)),
            only_dirt_changed(old(self).metas(), final(self).metas()),
        decreases fuel, 1nat,
    {
        let n = self.subscriptions.len();
        let ghost pre = *self;
        let mut k: usize = 0;
        while k < n
            invariant
                self.wf(),
                n == pre.subs().len(),
                k <= n,
                pre.wf(),
                pre.same_graph(&*self),
                only_dirt_changed(pre.metas(), self.metas()),
                pre.sources_refreshed(&*self, id, fuel as nat, k as nat),
            decreases n - k,
        {
            let (s, t) = self.subscriptions[k];
            let ghost mid = *self;
            if t == id.index && s != id.index && self.memo_alive(NodeId { index: s }) {
                self.update_if_necessary(NodeId { index: s }, fuel);
            }
            proof {
                assert(self.subs() == pre.subs());
                assert(source_step(&mid, &*self, id, fuel as nat, pre.subs()[k as int]));
                Self::lemma_sources_step(pre, mid, *self, id, fuel as nat, k as nat);
            }
            k = k + 1;
        }
    }

    /// One more subscription gone through extends [`Runtime::sources_refreshed`].
    proof fn lemma_sources_step(pre: Self, mid: Self, post: Self, id: NodeId, fuel: nat, k: nat)
        requires
            pre.sources_refreshed(&mid, id, fuel, k),
            source_step(&mid, &post, id, fuel, pre.subs()[k as int]),
        ensures
            pre.sources_refreshed(&post, id, fuel, k + 1),
    {
        let k1: nat = k + 1;
        assert((k1 - 1) as nat == k);
        assert(pre.subs()[k1 - 1] == pre.subs()[k as int]);
        assert(pre.sources_refreshed(&mid, id, fuel, (k1 - 1) as nat) && source_step(
            &mid,
            &post,
            id,
            fuel,
            pre.subs()[k1 - 1],
        ));
    }

    /// Bringing the sources up to date and then running `id` is bringing
    /// `id` up to date `fuel` levels deep.
    proof fn lemma_within_step(pre: Self, mid: Self, post: Self, id: NodeId, fuel: nat)
        requires
            fuel > 0,
            pre.is_memo(id),
            pre.sources_refreshed(&mid, id, (fuel - 1) as nat, pre.subs().len()),
            mid.refreshed(&post, id),
        ensures
            pre.refreshed_within(&post, id, fuel),
    {
    }

    /// What a refresh of `id` from `pre` keeps: the graph, every node's
    /// bookkeeping but its dirty flag, a value in a live memo, and a clean
    /// memo that does not subscribe to itself.
    proof fn lemma_refresh_facts(self, pre: Self, id: NodeId)
        requires
            pre.wf(),
            self.wf(),
            pre.refreshed(&self, id),
        ensures
            pre.same_graph(&self),
            only_dirt_changed(pre.metas(), self.metas()),
            pre.is_memo(id) ==> self.value_of(id) is Some,
            pre.is_memo(id) && !subscribed(pre.subs(), id.index as int, id.index as int)
                ==> !self.metas()[id.index as int].dirty,
    {
        let i = id.index as int;
        if pre.is_memo(id) {
            assert(node_ok(self.meta@[i], self.values@[i], self.computations@[i]));
        }
    }
}

/// Writing a value into a live signal of a well-formed runtime, and touching
/// nothing else, keeps it well-formed.
pub(crate) proof fn lemma_value_written<T, F: Fn(Option<&T>) -> T>(
    pre: Runtime<T, F>,
    post: Runtime<T, F>,
    id: NodeId,
)
    requires
        pre.wf(),
        pre.is_signal(id),
        pre.same_graph(&post),
        post.metas() == pre.metas(),
        post.values() == pre.values().update(id.index as int, post.value_of(id)),
        post.value_of(id) is Some,
    ensures
        post.wf(),
{
    lemma_node_ok_update(
        pre.meta@,
        pre.values@,
        pre.computations@,
        post.meta@,
        post.values@,
        post.computations@,
        id.index as int,
    );
}

/// One subscription `e` gone through while memo `id` is brought up to date:
/// when it makes `id` a subscriber of another live memo, that memo is brought
/// up to date `fuel` levels deep; otherwise nothing changes.
pub open spec fn source_step<T, F: Fn(Option<&T>) -> T>(
    pre: &Runtime<T, F>,
    post: &Runtime<T, F>,
    id: NodeId,
    fuel: nat,
    e: (usize, usize),
) -> bool
    decreases fuel, 0nat, 1nat,
{
    if e.1 == id.index && e.0 != id.index && pre.is_memo(NodeId { index: e.0 }) {
        pre.refreshed_within(post, NodeId { index: e.0 }, fuel)
    } else {
        pre.unchanged(post)
    }
}

/// Only the dirty flags may differ between the bookkeeping of `pre` and `post`.
pub open spec fn only_dirt_changed(pre: Seq<NodeMeta>, post: Seq<NodeMeta>) -> bool {
    &&& post.len() == pre.len()
    &&& forall|j: int| 0 <= j < pre.len() ==> #[trigger] post[j] == (NodeMeta { dirty: post[j].dirty, ..pre[j] })
}

/// The invariant of one node: see [`Runtime::wf`].
pub open spec fn node_ok<T, F: Fn(Option<&T>) -> T>(
    m: NodeMeta,
    v: Option<T>,
    c: Option<MemoNodedupState<T, F>>,
) -> bool {
    &&& !m.alive ==> v is None
    &&& m.kind == NodeKind::Signal ==> c is None && (m.alive ==> v is Some)
    &&& m.kind == NodeKind::Memo ==> c is Some && (m.alive && !m.dirty ==> v is Some) && c->0.total()
}

} // verus!
