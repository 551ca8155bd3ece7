//! Data transducers as explicit state machines.
//!
//! The QRE constructs are the more convenient, higher-level way to build a
//! computation; this module can be used to write the states and transitions
//! by hand.
//!
//! For simplicity, the states of one machine all hold the same element type
//! `Q` (an enum can stand in where several types are wanted).  States are
//! referred to by an opaque identifier which indexes the machine's state
//! vector; transitions hold identifiers rather than references, and all
//! dereferencing is mediated by the owning machine.  Transition guards and
//! actions of one machine share the function types `G`, `F1`, `F2`, `E1`,
//! `E2`, so a machine built from plain functions uses function-pointer
//! types there.
//!
//! The machine offers the same operations as the `Transducer` contract
//! through inherent methods, but deliberately does not implement the
//! trait: the trait carries the law that feeding an empty initial value
//! has no effect, and the machine does not satisfy it in every reachable
//! state (an epsilon transition whose source is still populated re-fires
//! on a later initial value and can collapse its target to the conflict
//! value, because the per-run contribution summary is not kept across
//! calls).

use vstd::prelude::*;

use crate::ext_value::Ext;

verus! {

/*
    States are represented by an id (an index into the state vector of the
    data transducer).  This opaque representation keeps states and
    transitions completely separate.

    State ids are also a typing discipline: StateId is a newtype, and
    StateList is a vector that can be indexed only by a StateId, never by a
    plain integer or by a transition id.  Conversely a StateId cannot
    accidentally index any other vector.
*/

#[derive(Clone, Copy, Debug, Eq, PartialEq, Structural)]
pub struct StateId(pub usize);

/// A vector indexed by `StateId` alone.
#[derive(Clone, Debug)]
pub struct StateList<T>(Vec<T>);

impl<T> StateList<T> {
    pub closed spec fn view(&self) -> Seq<T> {
        self.0@
    }

    pub fn new(v: Vec<T>) -> (r: StateList<T>)
        ensures
            r@ == v@,
    {
        StateList(v)
    }

    pub fn len(&self) -> (r: usize)
        ensures
            r == self@.len(),
    {
        self.0.len()
    }

    pub fn in_range(&self, id: StateId) -> (r: bool)
        ensures
            r == (id.0 < self@.len()),
    {
        id.0 < self.0.len()
    }

    pub fn get(&self, id: StateId) -> (r: &T)
        requires
            id.0 < self@.len(),
        ensures
            *r == self@[id.0 as int],
    {
        &self.0[id.0]
    }

    pub fn set(&mut self, id: StateId, v: T)
        requires
            id.0 < old(self)@.len(),
        ensures
            final(self)@ == old(self)@.update(id.0 as int, v),
    {
        self.0[id.0] = v;
    }

    pub fn push(&mut self, v: T)
        ensures
            final(self)@ == old(self)@.push(v),
    {
        self.0.push(v);
    }
}

/*
    Exactly like StateId and StateList, TransId and TransList are wrappers
    over usize and Vec where the former indexes only the latter.
*/

#[derive(Clone, Copy, Debug, Eq, PartialEq, Structural)]
pub struct TransId(pub usize);

/// A vector indexed by `TransId` alone.
#[derive(Clone, Debug)]
pub struct TransList<T>(Vec<T>);

impl<T> TransList<T> {
    pub closed spec fn view(&self) -> Seq<T> {
        self.0@
    }

    pub fn new(v: Vec<T>) -> (r: TransList<T>)
        ensures
            r@ == v@,
    {
        TransList(v)
    }

    pub fn len(&self) -> (r: usize)
        ensures
            r == self@.len(),
    {
        self.0.len()
    }

    pub fn get(&self, id: TransId) -> (r: &T)
        requires
            id.0 < self@.len(),
        ensures
            *r == self@[id.0 as int],
    {
        &self.0[id.0]
    }

    pub fn set(&mut self, id: TransId, v: T)
        requires
            id.0 < old(self)@.len(),
        ensures
            final(self)@ == old(self)@.update(id.0 as int, v),
    {
        self.0[id.0] = v;
    }

    pub fn push(&mut self, v: T)
        ensures
            final(self)@ == old(self)@.push(v),
    {
        self.0.push(v);
    }
}

/*
    Transitions are defined by a guard that says when they are active, and
    an action giving the function applied to the source states to produce a
    new contribution for the target state.  The set of shapes is closed:
    a transition reads one or two source states, and an update transition's
    unary action may also be the built-in identity (used for transitions
    that carry a state unchanged from one step to the next).
*/

/// The action of an update transition with one source.
pub enum Action1<F1> {
    Fun(F1),
    Iden,
}

/// An update transition: fires on a stream item accepted by its guard.
pub enum UpdateTrans<G, F1, F2> {
    T1 { source: StateId, target: StateId, guard: G, action: Action1<F1> },
    T2 { source1: StateId, source2: StateId, target: StateId, guard: G, action: F2 },
}

/// An epsilon transition: always eligible, fires during the closure.
pub enum EpsTrans<E1, E2> {
    T1 { source: StateId, target: StateId, action: E1 },
    T2 { source1: StateId, source2: StateId, target: StateId, action: E2 },
}

pub open spec fn update_target<G, F1, F2>(t: UpdateTrans<G, F1, F2>) -> StateId {
    match t {
        UpdateTrans::T1 { target, .. } => target,
        UpdateTrans::T2 { target, .. } => target,
    }
}

pub open spec fn eps_target<E1, E2>(t: EpsTrans<E1, E2>) -> StateId {
    match t {
        EpsTrans::T1 { target, .. } => target,
        EpsTrans::T2 { target, .. } => target,
    }
}

/// Whether all ids named by an update transition are below `n`.
pub open spec fn update_ids_ok<G, F1, F2>(t: UpdateTrans<G, F1, F2>, n: int) -> bool {
    match t {
        UpdateTrans::T1 { source, target, .. } => source.0 < n && target.0 < n,
        UpdateTrans::T2 { source1, source2, target, .. } => source1.0 < n && source2.0 < n
            && target.0 < n,
    }
}

/// Whether all ids named by an epsilon transition are below `n`.
pub open spec fn eps_ids_ok<E1, E2>(t: EpsTrans<E1, E2>, n: int) -> bool {
    match t {
        EpsTrans::T1 { source, target, .. } => source.0 < n && target.0 < n,
        EpsTrans::T2 { source1, source2, target, .. } => source1.0 < n && source2.0 < n
            && target.0 < n,
    }
}

/// Whether an epsilon transition reads from state `s`.
pub open spec fn eps_reads_from<E1, E2>(t: EpsTrans<E1, E2>, s: int) -> bool {
    match t {
        EpsTrans::T1 { source, .. } => source.0 == s,
        EpsTrans::T2 { source1, source2, .. } => source1.0 == s || source2.0 == s,
    }
}

/// Totality of an update transition's guard and action.
pub open spec fn update_trans_total<D, Q, G: Fn(D) -> bool, F1: Fn(D, Q) -> Q, F2: Fn(
    D,
    Q,
    Q,
) -> Q>(t: UpdateTrans<G, F1, F2>) -> bool {
    match t {
        UpdateTrans::T1 { guard, action, .. } => (forall|d: D| #[trigger] call_requires(
            guard,
            (d,),
        )) && match action {
            Action1::Fun(f) => forall|d: D, q: Q| #[trigger] call_requires(f, (d, q)),
            Action1::Iden => true,
        },
        UpdateTrans::T2 { guard, action, .. } => (forall|d: D| #[trigger] call_requires(
            guard,
            (d,),
        )) && forall|d: D, q1: Q, q2: Q| #[trigger] call_requires(action, (d, q1, q2)),
    }
}

/// Totality of an epsilon transition's action.
pub open spec fn eps_trans_total<Q, E1: Fn(Q) -> Q, E2: Fn(Q, Q) -> Q>(
    t: EpsTrans<E1, E2>,
) -> bool {
    match t {
        EpsTrans::T1 { action, .. } => forall|q: Q| #[trigger] call_requires(action, (q,)),
        EpsTrans::T2 { action, .. } => forall|q1: Q, q2: Q| #[trigger] call_requires(
            action,
            (q1, q2),
        ),
    }
}

/// What one update transition contributes to the fresh state vector for
/// one item: nothing if its guard rejects the item, and otherwise its
/// action applied, under the extended-value functor, to its source slots
/// read from the old state vector.
pub open spec fn update_fired_rel<D, Q, G: Fn(D) -> bool, F1: Fn(D, Q) -> Q, F2: Fn(
    D,
    Q,
    Q,
) -> Q>(t: UpdateTrans<G, F1, F2>, states: Seq<Ext<Q>>, item: D, c: Ext<Q>) -> bool {
    match t {
        UpdateTrans::T1 { source, guard, action, .. } => exists|g: bool|
            #[trigger] call_ensures(guard, (item,), g) && if g {
                match action {
                    Action1::Fun(f) => match states[source.0 as int] {
                        Ext::Zero => c == Ext::<Q>::Zero,
                        Ext::One(q) => exists|y: Q|
                            #[trigger] call_ensures(f, (item, q), y) && c == Ext::One(y),
                        Ext::Many => c == Ext::<Q>::Many,
                    },
                    Action1::Iden => c == states[source.0 as int],
                }
            } else {
                c == Ext::<Q>::Zero
            },
        UpdateTrans::T2 { source1, source2, guard, action, .. } => exists|g: bool|
            #[trigger] call_ensures(guard, (item,), g) && if g {
                match (states[source1.0 as int], states[source2.0 as int]) {
                    (Ext::Zero, _) => c == Ext::<Q>::Zero,
                    (_, Ext::Zero) => c == Ext::<Q>::Zero,
                    (Ext::One(q1), Ext::One(q2)) => exists|y: Q|
                        #[trigger] call_ensures(action, (item, q1, q2), y) && c == Ext::One(y),
                    _ => c == Ext::<Q>::Many,
                }
            } else {
                c == Ext::<Q>::Zero
            },
    }
}

/// The join of the contributions of exactly the update transitions whose
/// target is slot `j`.
pub open spec fn contribs_at<Q, G, F1, F2>(
    ts: Seq<UpdateTrans<G, F1, F2>>,
    cs: Seq<Ext<Q>>,
    j: int,
) -> Ext<Q>
    decreases ts.len(),
{
    if ts.len() == 0 {
        Ext::Zero
    } else {
        let rest = contribs_at(ts.drop_last(), cs.drop_last(), j);
        if update_target(ts.last()).0 == j {
            rest.join(cs.last())
        } else {
            rest
        }
    }
}

/// The whole update pass, exactly: a fresh state vector in which every
/// slot holds the join of the evaluated contributions, over the old slots
/// and the item, of exactly the update transitions targeting it.  Old
/// values are not carried forward implicitly.
pub open spec fn updates_pass_rel<D, Q, G: Fn(D) -> bool, F1: Fn(D, Q) -> Q, F2: Fn(
    D,
    Q,
    Q,
) -> Q>(
    ts: Seq<UpdateTrans<G, F1, F2>>,
    states: Seq<Ext<Q>>,
    item: D,
    new_states: Seq<Ext<Q>>,
) -> bool {
    exists|cs: Seq<Ext<Q>>|
        #![trigger cs.len()]
        {
            &&& cs.len() == ts.len()
            &&& forall|t: int|
                0 <= t < ts.len() ==> update_fired_rel(#[trigger] ts[t], states, item, cs[t])
            &&& new_states.len() == states.len()
            &&& forall|j: int| 0 <= j < states.len() ==> new_states[j] == contribs_at(ts, cs, j)
        }
}

/*
    The value lattice of a state slot: Zero below any One below Many.  The
    epsilon closure only ever moves slots upward in this order, and the
    total remaining headroom of the slots is what makes the worklist
    algorithm terminate.
*/

/// Lattice order on slot values: a slot can stay, or step up to `Many`.
pub open spec fn ext_leq<T>(a: Ext<T>, b: Ext<T>) -> bool {
    a == b || a is Zero || b is Many
}

/// Pointwise lattice order on whole state vectors.
pub open spec fn seq_leq<T>(a: Seq<Ext<T>>, b: Seq<Ext<T>>) -> bool {
    a.len() == b.len() && forall|j: int| 0 <= j < a.len() ==> #[trigger] ext_leq(a[j], b[j])
}

/// Height of a slot value in the lattice.
pub open spec fn ext_level<T>(e: Ext<T>) -> int {
    match e {
        Ext::Zero => 0,
        Ext::One(_) => 1,
        Ext::Many => 2,
    }
}

/// Total headroom left in a state vector: how much all slots together can
/// still grow.
pub open spec fn slots_pot<T>(s: Seq<Ext<T>>) -> int
    decreases s.len(),
{
    if s.len() == 0 {
        0
    } else {
        slots_pot(s.drop_last()) + 2 - ext_level(s.last())
    }
}

proof fn lemma_slots_pot_nonneg<T>(s: Seq<Ext<T>>)
    ensures
        0 <= slots_pot(s),
    decreases s.len(),
{
    if s.len() > 0 {
        lemma_slots_pot_nonneg(s.drop_last());
    }
}

proof fn lemma_slots_pot_update<T>(s: Seq<Ext<T>>, j: int, v: Ext<T>)
    requires
        0 <= j < s.len(),
    ensures
        slots_pot(s.update(j, v)) == slots_pot(s) + ext_level(s[j]) - ext_level(v),
    decreases s.len(),
{
    if j == s.len() - 1 {
        assert(s.update(j, v).drop_last() =~= s.drop_last());
        assert(s.update(j, v).last() == v);
    } else {
        assert(s.update(j, v).drop_last() =~= s.drop_last().update(j, v));
        assert(s.update(j, v).last() == s.last());
        lemma_slots_pot_update(s.drop_last(), j, v);
    }
}

/// The level of what an epsilon transition can contribute, determined by
/// its source slots alone: zero if any source is empty, conflict if any
/// source is (and none is empty), a single value otherwise.
pub open spec fn eps_eval_level<Q, E1, E2>(t: EpsTrans<E1, E2>, states: Seq<Ext<Q>>) -> int {
    match t {
        EpsTrans::T1 { source, .. } => ext_level(states[source.0 as int]),
        EpsTrans::T2 { source1, source2, .. } => {
            let l1 = ext_level(states[source1.0 as int]);
            let l2 = ext_level(states[source2.0 as int]);
            if l1 == 0 || l2 == 0 {
                0
            } else if l1 == 2 || l2 == 2 {
                2
            } else {
                1
            }
        },
    }
}

/// What evaluating an epsilon transition against the current states can
/// produce: its unary or binary action applied under the extended-value
/// functor to its source slots.
pub open spec fn eps_eval_rel<Q, E1: Fn(Q) -> Q, E2: Fn(Q, Q) -> Q>(
    t: EpsTrans<E1, E2>,
    states: Seq<Ext<Q>>,
    r: Ext<Q>,
) -> bool {
    match t {
        EpsTrans::T1 { source, action, .. } => match states[source.0 as int] {
            Ext::Zero => r == Ext::<Q>::Zero,
            Ext::Many => r == Ext::<Q>::Many,
            Ext::One(q) => exists|y: Q| #[trigger] call_ensures(action, (q,), y) && r == Ext::One(
                y,
            ),
        },
        EpsTrans::T2 { source1, source2, action, .. } => match (
            states[source1.0 as int],
            states[source2.0 as int],
        ) {
            (Ext::Zero, _) => r == Ext::<Q>::Zero,
            (_, Ext::Zero) => r == Ext::<Q>::Zero,
            (Ext::One(q1), Ext::One(q2)) => exists|y: Q| #[trigger] call_ensures(
                action,
                (q1, q2),
                y,
            ) && r == Ext::One(y),
            _ => r == Ext::<Q>::Many,
        },
    }
}

/// Every possible evaluation result of an epsilon transition has exactly
/// the level determined by its source slots.
proof fn lemma_eps_eval_level<Q, E1: Fn(Q) -> Q, E2: Fn(Q, Q) -> Q>(
    t: EpsTrans<E1, E2>,
    states: Seq<Ext<Q>>,
    r: Ext<Q>,
)
    requires
        eps_eval_rel(t, states, r),
    ensures
        ext_level(r) == eps_eval_level(t, states),
{
}

/// Joining can only raise a slot's level, and at least to the level of
/// what was joined in.
proof fn lemma_join_level<Q>(a: Ext<Q>, b: Ext<Q>)
    ensures
        ext_level(a.join(b)) >= ext_level(a),
        ext_level(a.join(b)) >= ext_level(b),
{
}


/// The join of the contributions of exactly the epsilon transitions whose
/// target is slot `j`.
pub open spec fn eps_contribs_at<Q, E1, E2>(
    ts: Seq<EpsTrans<E1, E2>>,
    cs: Seq<Ext<Q>>,
    j: int,
) -> Ext<Q>
    decreases ts.len(),
{
    if ts.len() == 0 {
        Ext::Zero
    } else {
        let rest = eps_contribs_at(ts.drop_last(), cs.drop_last(), j);
        if eps_target(ts.last()).0 == j {
            rest.join(cs.last())
        } else {
            rest
        }
    }
}

proof fn lemma_eps_contribs_zero<Q, E1, E2>(ts: Seq<EpsTrans<E1, E2>>, cs: Seq<Ext<Q>>, j: int)
    requires
        cs.len() == ts.len(),
        forall|t: int| 0 <= t < cs.len() ==> #[trigger] cs[t] == Ext::<Q>::Zero,
    ensures
        eps_contribs_at(ts, cs, j) == Ext::<Q>::Zero,
    decreases ts.len(),
{
    if ts.len() > 0 {
        lemma_eps_contribs_zero(ts.drop_last(), cs.drop_last(), j);
    }
}

/// Replacing a transition's contribution by one that absorbs it changes
/// the fold by joining the new contribution at its target.
proof fn lemma_eps_contribs_update<Q, E1, E2>(
    ts: Seq<EpsTrans<E1, E2>>,
    cs: Seq<Ext<Q>>,
    t: int,
    v: Ext<Q>,
    j: int,
)
    requires
        cs.len() == ts.len(),
        0 <= t < ts.len(),
        cs[t].join(v) == v,
    ensures
        eps_contribs_at(ts, cs.update(t, v), j) == if eps_target(ts[t]).0 == j {
            eps_contribs_at(ts, cs, j).join(v)
        } else {
            eps_contribs_at(ts, cs, j)
        },
    decreases ts.len(),
{
    if t == ts.len() - 1 {
        assert(cs.update(t, v).drop_last() =~= cs.drop_last());
        assert(cs.update(t, v).last() == v);
        if eps_target(ts[t]).0 == j {
            let rest = eps_contribs_at(ts.drop_last(), cs.drop_last(), j);
            crate::ext_value::lemma_join_associative(rest, cs[t], v);
        }
    } else {
        assert(cs.update(t, v).drop_last() =~= cs.drop_last().update(t, v));
        assert(cs.update(t, v).last() == cs.last());
        lemma_eps_contribs_update(ts.drop_last(), cs.drop_last(), t, v, j);
        if eps_target(ts[t]).0 == j && eps_target(ts.last()).0 == j {
            let inner = eps_contribs_at(ts.drop_last(), cs.drop_last(), j);
            crate::ext_value::lemma_join_associative(inner, v, cs.last());
            crate::ext_value::lemma_join_associative(inner, cs.last(), v);
            crate::ext_value::lemma_join_commutative(v, cs.last());
        }
    }
}

/// The possible-contribution level of a transition only grows when the
/// slots grow.
proof fn lemma_eval_level_monotone<Q, E1, E2>(
    t: EpsTrans<E1, E2>,
    s1: Seq<Ext<Q>>,
    s2: Seq<Ext<Q>>,
)
    requires
        s1.len() == s2.len(),
        forall|j: int| 0 <= j < s1.len() ==> ext_level(#[trigger] s1[j]) <= ext_level(s2[j]),
    ensures
        eps_eval_level(t, s1) <= eps_eval_level(t, s2) || !eps_ids_ok(t, s1.len() as int),
{
    if eps_ids_ok(t, s1.len() as int) {
        match t {
            EpsTrans::T1 { source, .. } => {
                assert(ext_level(s1[source.0 as int]) <= ext_level(s2[source.0 as int]));
            },
            EpsTrans::T2 { source1, source2, .. } => {
                assert(ext_level(s1[source1.0 as int]) <= ext_level(s2[source1.0 as int]));
                assert(ext_level(s1[source2.0 as int]) <= ext_level(s2[source2.0 as int]));
            },
        }
    }
}

/// When the worklist algorithm has nothing left to do for a transition:
/// it can contribute nothing, its target is already saturated, or it has
/// already contributed everything the zero/one/many summary tracks.
spec fn eps_no_fire<Q, E1, E2>(t: EpsTrans<E1, E2>, states: Seq<Ext<Q>>, cur: Ext<()>) -> bool {
    ||| eps_eval_level(t, states) == 0
    ||| cur is Many
    ||| states[eps_target(t).0 as int] is Many
    ||| (eps_eval_level(t, states) == 1 && cur is One)
}

proof fn lemma_contains_after_pop(w: Seq<TransId>, y: TransId)
    requires
        w.len() > 0,
        w.contains(y),
    ensures
        w.drop_last().contains(y) || y == w.last(),
{
    let k = choose|k: int| 0 <= k < w.len() && w[k] == y;
    if k < w.len() - 1 {
        assert(w.drop_last()[k] == y);
    }
}

proof fn lemma_contains_after_push(w: Seq<TransId>, x: TransId, y: TransId)
    requires
        w.contains(y),
    ensures
        w.push(x).contains(y),
{
    let k = choose|k: int| 0 <= k < w.len() && w[k] == y;
    assert(w.push(x)[k] == y);
}

/*
    The main DataTransducer state machine.

    State 0 is the initial state (it receives external restart input) and
    state 1 is the final state (read as the machine's output); a machine
    always has at least these two states.  Transitions are divided into
    update transitions, executed on each stream item from old states to new
    states, and epsilon transitions, which define a least fixed point on
    init and after every update.  For each state, the table of epsilon
    transitions going out from it drives the fixed-point worklist; the
    table must stay exactly consistent with the current set of epsilon
    transitions, which is part of the machine's standing invariant.
*/

#[verifier::reject_recursive_types(D)]
#[verifier::reject_recursive_types(Q)]
pub struct DataTransducer<D, Q, G, F1, F2, E1, E2> where
    Q: Copy,
    G: Fn(D) -> bool,
    F1: Fn(D, Q) -> Q,
    F2: Fn(D, Q, Q) -> Q,
    E1: Fn(Q) -> Q,
    E2: Fn(Q, Q) -> Q,
 {
    states: StateList<Ext<Q>>,
    updates: TransList<UpdateTrans<G, F1, F2>>,
    epsilons: TransList<EpsTrans<E1, E2>>,
    eps_out: StateList<Vec<TransId>>,
    ph: core::marker::PhantomData<D>,
}

impl<
    D: Copy,
    Q: Copy,
    G: Fn(D) -> bool + Copy,
    F1: Fn(D, Q) -> Q + Copy,
    F2: Fn(D, Q, Q) -> Q + Copy,
    E1: Fn(Q) -> Q + Copy,
    E2: Fn(Q, Q) -> Q + Copy,
> Default for DataTransducer<D, Q, G, F1, F2, E1, E2> {
    fn default() -> (r: Self)
        ensures
            r.wf(),
            r.states_spec() == seq![Ext::<Q>::Zero, Ext::<Q>::Zero],
            r.updates_spec().len() == 0,
            r.epsilons_spec().len() == 0,
    {
        Self::new()
    }
}

impl<
    D: Copy,
    Q: Copy,
    G: Fn(D) -> bool + Copy,
    F1: Fn(D, Q) -> Q + Copy,
    F2: Fn(D, Q, Q) -> Q + Copy,
    E1: Fn(Q) -> Q + Copy,
    E2: Fn(Q, Q) -> Q + Copy,
> DataTransducer<D, Q, G, F1, F2, E1, E2> {
    /// The state vector.
    pub closed spec fn states_spec(&self) -> Seq<Ext<Q>> {
        self.states@
    }

    /// The update transitions.
    pub closed spec fn updates_spec(&self) -> Seq<UpdateTrans<G, F1, F2>> {
        self.updates@
    }

    /// The epsilon transitions.
    pub closed spec fn epsilons_spec(&self) -> Seq<EpsTrans<E1, E2>> {
        self.epsilons@
    }

    /// The epsilon adjacency table: for each state, which epsilon
    /// transitions read from it.
    pub closed spec fn eps_out_spec(&self) -> Seq<Seq<TransId>> {
        self.eps_out@.map_values(|v: Vec<TransId>| v@)
    }

    /// The machine's standing structural invariant, re-established after
    /// every mutation: at least two states; every id named by a transition
    /// is a valid state; the epsilon adjacency table has exactly one row
    /// per state and lists exactly the epsilon transitions reading from
    /// that state; and every stored guard and action is total.
    pub closed spec fn wf(&self) -> bool {
        let n = self.states@.len() as int;
        &&& self.states@.len() >= 2
        &&& self.eps_out@.len() == self.states@.len()
        &&& self.updates@.len() + self.epsilons@.len() <= usize::MAX
        &&& forall|t: int|
            0 <= t < self.updates@.len() ==> update_ids_ok(#[trigger] self.updates@[t], n)
        &&& forall|t: int|
            0 <= t < self.epsilons@.len() ==> eps_ids_ok(#[trigger] self.epsilons@[t], n)
        &&& forall|t: int|
            0 <= t < self.updates@.len() ==> update_trans_total(#[trigger] self.updates@[t])
        &&& forall|t: int|
            0 <= t < self.epsilons@.len() ==> eps_trans_total(#[trigger] self.epsilons@[t])
        &&& forall|s: int, k: int|
            0 <= s < self.eps_out@.len() && 0 <= k < self.eps_out@[s]@.len() ==> {
                let tid = #[trigger] self.eps_out@[s]@[k];
                tid.0 < self.epsilons@.len() && eps_reads_from(self.epsilons@[tid.0 as int], s)
            }
        &&& forall|t: int, s: int|
            0 <= t < self.epsilons@.len() && 0 <= s < n && eps_reads_from(
                #[trigger] self.epsilons@[t],
                s,
            ) ==> #[trigger] self.eps_out@[s]@.contains(TransId(t as usize))
    }

    /// Create a machine with the two obligatory states (initial and
    /// final) and no transitions.
    pub fn new() -> (r: Self)
        ensures
            r.wf(),
            r.states_spec() == seq![Ext::<Q>::Zero, Ext::<Q>::Zero],
            r.updates_spec().len() == 0,
            r.epsilons_spec().len() == 0,
    {
        let mut states_v: Vec<Ext<Q>> = Vec::new();
        states_v.push(Ext::Zero);
        states_v.push(Ext::Zero);
        let mut eps_out_v: Vec<Vec<TransId>> = Vec::new();
        eps_out_v.push(Vec::new());
        eps_out_v.push(Vec::new());
        let r = DataTransducer {
            states: StateList::new(states_v),
            updates: TransList::new(Vec::new()),
            epsilons: TransList::new(Vec::new()),
            eps_out: StateList::new(eps_out_v),
            ph: core::marker::PhantomData,
        };
        proof {
            assert(r.states_spec() =~= seq![Ext::<Q>::Zero, Ext::<Q>::Zero]);
        }
        r
    }

    /// Add one fresh state, initially holding `Zero`.
    pub fn add_state(&mut self)
        requires
            old(self).wf(),
        ensures
            final(self).wf(),
            final(self).states_spec() == old(self).states_spec().push(Ext::<Q>::Zero),
            final(self).updates_spec() == old(self).updates_spec(),
            final(self).epsilons_spec() == old(self).epsilons_spec(),
    {
        self.states.push(Ext::Zero);
        let fresh_row: Vec<TransId> = Vec::new();
        self.eps_out.push(fresh_row);
        proof {
            assert forall|t: int, s: int|
                0 <= t < self.epsilons@.len() && 0 <= s < self.states@.len() && eps_reads_from(
                    #[trigger] self.epsilons@[t],
                    s,
                ) implies #[trigger] self.eps_out@[s]@.contains(TransId(t as usize)) by {
                assert(eps_ids_ok(self.epsilons@[t], old(self).states@.len() as int));
                assert(s < old(self).states@.len());
                assert(self.eps_out@[s] == old(self).eps_out@[s]);
            }
        }
    }

    /// Bring the number of states up to `n` (instead of calling
    /// `add_state` repeatedly).  The state count can never shrink.
    pub fn set_nstates(&mut self, n: usize)
        requires
            old(self).wf(),
            old(self).states_spec().len() <= n,
        ensures
            final(self).wf(),
            final(self).states_spec().len() == n,
            final(self).states_spec().take(old(self).states_spec().len() as int) == old(
                self,
            ).states_spec(),
            forall|j: int|
                old(self).states_spec().len() <= j < n ==> final(self).states_spec()[j]
                    == Ext::<Q>::Zero,
            final(self).updates_spec() == old(self).updates_spec(),
            final(self).epsilons_spec() == old(self).epsilons_spec(),
    {
        while self.states.len() < n
            invariant
                self.wf(),
                self.states_spec().len() <= n,
                self.states_spec().take(old(self).states_spec().len() as int) == old(
                    self,
                ).states_spec(),
                old(self).states_spec().len() <= self.states_spec().len(),
                forall|j: int|
                    old(self).states_spec().len() <= j < self.states_spec().len() ==> self.states_spec()[j]
                        == Ext::<Q>::Zero,
                self.updates_spec() == old(self).updates_spec(),
                self.epsilons_spec() == old(self).epsilons_spec(),
            decreases n - self.states@.len(),
        {
            let ghost pre = self.states_spec();
            self.add_state();
            proof {
                assert(self.states_spec().take(old(self).states_spec().len() as int) =~= pre.take(
                    old(self).states_spec().len() as int,
                ));
            }
        }
    }

    /// Append an update transition.  Precondition: every state id the
    /// transition names must already have been added to the machine.
    fn add_transition_core(&mut self, tr: UpdateTrans<G, F1, F2>)
        requires
            old(self).wf(),
            update_ids_ok(tr, old(self).states_spec().len() as int),
            update_trans_total(tr),
            old(self).updates_spec().len() + old(self).epsilons_spec().len() < usize::MAX,
        ensures
            final(self).wf(),
            final(self).updates_spec() == old(self).updates_spec().push(tr),
            final(self).states_spec() == old(self).states_spec(),
            final(self).epsilons_spec() == old(self).epsilons_spec(),
            final(self).eps_out_spec() == old(self).eps_out_spec(),
    {
        self.updates.push(tr);
    }

    /// Append an epsilon transition, and record it in the adjacency row of
    /// every state it reads from.  Precondition: every state id the
    /// transition names must already have been added to the machine.
    fn add_epsilon_core(&mut self, tr: EpsTrans<E1, E2>)
        requires
            old(self).wf(),
            eps_ids_ok(tr, old(self).states_spec().len() as int),
            eps_trans_total(tr),
            old(self).updates_spec().len() + old(self).epsilons_spec().len() < usize::MAX,
        ensures
            final(self).wf(),
            final(self).epsilons_spec() == old(self).epsilons_spec().push(tr),
            final(self).states_spec() == old(self).states_spec(),
            final(self).updates_spec() == old(self).updates_spec(),
            forall|s: int|
                0 <= s < old(self).eps_out_spec().len() && !eps_reads_from(tr, s)
                    ==> final(self).eps_out_spec()[s] == old(self).eps_out_spec()[s],
            forall|s: int|
                0 <= s < old(self).eps_out_spec().len() && eps_reads_from(tr, s)
                    ==> final(self).eps_out_spec()[s].contains(
                    TransId(old(self).epsilons_spec().len() as usize),
                ),
    {
        let new_tr_id = TransId(self.epsilons.len());
        match &tr {
            EpsTrans::T1 { source, .. } => {
                let s = source.0;
                self.eps_out.0[s].push(new_tr_id);
            },
            EpsTrans::T2 { source1, source2, .. } => {
                let s1 = source1.0;
                let s2 = source2.0;
                self.eps_out.0[s1].push(new_tr_id);
                self.eps_out.0[s2].push(new_tr_id);
            },
        }
        self.epsilons.push(tr);
        proof {
            let pre = *old(self);
            let post = *self;
            let n = post.states@.len() as int;
            let tnew = pre.epsilons@.len() as int;
            assert forall|s: int, k: int|
                0 <= s < post.eps_out@.len() && 0 <= k < post.eps_out@[s]@.len() implies {
                let tid = #[trigger] post.eps_out@[s]@[k];
                tid.0 < post.epsilons@.len() && eps_reads_from(post.epsilons@[tid.0 as int], s)
            } by {
                if k < pre.eps_out@[s]@.len() {
                    assert(post.eps_out@[s]@[k] == pre.eps_out@[s]@[k]);
                } else {
                    assert(post.eps_out@[s]@[k] == new_tr_id);
                    assert(eps_reads_from(tr, s));
                }
            }
            assert forall|t: int, s: int|
                0 <= t < post.epsilons@.len() && 0 <= s < n && eps_reads_from(
                    #[trigger] post.epsilons@[t],
                    s,
                ) implies #[trigger] post.eps_out@[s]@.contains(TransId(t as usize)) by {
                if t < tnew {
                    assert(pre.eps_out@[s]@.contains(TransId(t as usize)));
                    let k = choose|k: int|
                        0 <= k < pre.eps_out@[s]@.len() && pre.eps_out@[s]@[k] == TransId(
                            t as usize,
                        );
                    assert(post.eps_out@[s]@[k] == TransId(t as usize));
                } else {
                    assert(post.epsilons@[t] == tr);
                    let row = post.eps_out@[s]@;
                    assert(row[row.len() - 1] == new_tr_id);
                }
            }
            assert forall|s: int|
                0 <= s < pre.eps_out_spec().len() && !eps_reads_from(tr, s) implies post.eps_out_spec()[s]
                == pre.eps_out_spec()[s] by {
                assert(post.eps_out@[s] == pre.eps_out@[s]);
            }
            assert forall|s: int|
                0 <= s < pre.eps_out_spec().len() && eps_reads_from(tr, s) implies post.eps_out_spec()[s].contains(
                TransId(pre.epsilons_spec().len() as usize),
            ) by {
                assert(post.eps_out_spec()[s] == post.eps_out@[s]@);
                assert(post.epsilons@[tnew] == tr);
                assert(eps_reads_from(post.epsilons@[tnew], s));
                assert(post.eps_out@[s]@.contains(TransId(tnew as usize)));
            }
        }
    }

    /// Add an update transition with one source state.
    pub fn add_transition1(&mut self, source: usize, target: usize, guard: G, action: F1)
        requires
            old(self).wf(),
            source < old(self).states_spec().len(),
            target < old(self).states_spec().len(),
            old(self).updates_spec().len() + old(self).epsilons_spec().len() < usize::MAX,
            forall|d: D| #[trigger] call_requires(guard, (d,)),
            forall|d: D, q: Q| #[trigger] call_requires(action, (d, q)),
        ensures
            final(self).wf(),
            final(self).updates_spec() == old(self).updates_spec().push(
                UpdateTrans::T1 {
                    source: StateId(source),
                    target: StateId(target),
                    guard,
                    action: Action1::Fun(action),
                },
            ),
            final(self).states_spec() == old(self).states_spec(),
            final(self).epsilons_spec() == old(self).epsilons_spec(),
            final(self).eps_out_spec() == old(self).eps_out_spec(),
    {
        self.add_transition_core(
            UpdateTrans::T1 {
                source: StateId(source),
                target: StateId(target),
                guard,
                action: Action1::Fun(action),
            },
        );
    }

    /// Add an update transition with two source states.
    pub fn add_transition2(
        &mut self,
        source1: usize,
        source2: usize,
        target: usize,
        guard: G,
        action: F2,
    )
        requires
            old(self).wf(),
            source1 < old(self).states_spec().len(),
            source2 < old(self).states_spec().len(),
            target < old(self).states_spec().len(),
            old(self).updates_spec().len() + old(self).epsilons_spec().len() < usize::MAX,
            forall|d: D| #[trigger] call_requires(guard, (d,)),
            forall|d: D, q1: Q, q2: Q| #[trigger] call_requires(action, (d, q1, q2)),
        ensures
            final(self).wf(),
            final(self).updates_spec() == old(self).updates_spec().push(
                UpdateTrans::T2 {
                    source1: StateId(source1),
                    source2: StateId(source2),
                    target: StateId(target),
                    guard,
                    action,
                },
            ),
            final(self).states_spec() == old(self).states_spec(),
            final(self).epsilons_spec() == old(self).epsilons_spec(),
            final(self).eps_out_spec() == old(self).eps_out_spec(),
    {
        self.add_transition_core(
            UpdateTrans::T2 {
                source1: StateId(source1),
                source2: StateId(source2),
                target: StateId(target),
                guard,
                action,
            },
        );
    }

    /// Add an "identity transition" which preserves a particular state from
    /// one step to the next whenever the guard accepts the item.  (This is
    /// common enough to be worth exposing in the construction interface.)
    pub fn add_iden(&mut self, source: usize, target: usize, guard: G)
        requires
            old(self).wf(),
            source < old(self).states_spec().len(),
            target < old(self).states_spec().len(),
            old(self).updates_spec().len() + old(self).epsilons_spec().len() < usize::MAX,
            forall|d: D| #[trigger] call_requires(guard, (d,)),
        ensures
            final(self).wf(),
            final(self).updates_spec() == old(self).updates_spec().push(
                UpdateTrans::T1 {
                    source: StateId(source),
                    target: StateId(target),
                    guard,
                    action: Action1::Iden,
                },
            ),
            final(self).states_spec() == old(self).states_spec(),
            final(self).epsilons_spec() == old(self).epsilons_spec(),
            final(self).eps_out_spec() == old(self).eps_out_spec(),
    {
        self.add_transition_core(
            UpdateTrans::T1 {
                source: StateId(source),
                target: StateId(target),
                guard,
                action: Action1::Iden,
            },
        );
    }

    /// Add an epsilon transition with one source state.
    pub fn add_epsilon1(&mut self, source: usize, target: usize, action: E1)
        requires
            old(self).wf(),
            source < old(self).states_spec().len(),
            target < old(self).states_spec().len(),
            old(self).updates_spec().len() + old(self).epsilons_spec().len() < usize::MAX,
            forall|q: Q| #[trigger] call_requires(action, (q,)),
        ensures
            final(self).wf(),
            final(self).epsilons_spec() == old(self).epsilons_spec().push(
                EpsTrans::T1 { source: StateId(source), target: StateId(target), action },
            ),
            final(self).states_spec() == old(self).states_spec(),
            final(self).updates_spec() == old(self).updates_spec(),
    {
        self.add_epsilon_core(
            EpsTrans::T1 { source: StateId(source), target: StateId(target), action },
        );
    }

    /// Add an epsilon transition with two source states.
    pub fn add_epsilon2(&mut self, source1: usize, source2: usize, target: usize, action: E2)
        requires
            old(self).wf(),
            source1 < old(self).states_spec().len(),
            source2 < old(self).states_spec().len(),
            target < old(self).states_spec().len(),
            old(self).updates_spec().len() + old(self).epsilons_spec().len() < usize::MAX,
            forall|q1: Q, q2: Q| #[trigger] call_requires(action, (q1, q2)),
        ensures
            final(self).wf(),
            final(self).epsilons_spec() == old(self).epsilons_spec().push(
                EpsTrans::T2 {
                    source1: StateId(source1),
                    source2: StateId(source2),
                    target: StateId(target),
                    action,
                },
            ),
            final(self).states_spec() == old(self).states_spec(),
            final(self).updates_spec() == old(self).updates_spec(),
    {
        self.add_epsilon_core(
            EpsTrans::T2 {
                source1: StateId(source1),
                source2: StateId(source2),
                target: StateId(target),
                action,
            },
        );
    }

    /* Utility / conveniences */

    /// Join an incoming value into the initial state (state 0).
    fn add_to_istate(&mut self, i: Ext<Q>)
        requires
            old(self).wf(),
        ensures
            final(self).wf(),
            final(self).states_spec() == old(self).states_spec().update(
                0,
                old(self).states_spec()[0].join(i),
            ),
            final(self).updates_spec() == old(self).updates_spec(),
            final(self).epsilons_spec() == old(self).epsilons_spec(),
            final(self).eps_out_spec() == old(self).eps_out_spec(),
    {
        let cur = *self.states.get(StateId(0));
        self.states.set(StateId(0), cur.add(i));
    }

    /// Read the final state (state 1), the machine's output.
    fn get_fstate(&self) -> (r: Ext<Q>)
        requires
            self.wf(),
        ensures
            r == self.states_spec()[1],
    {
        *self.states.get(StateId(1))
    }

    /// Evaluate one epsilon transition against the current states.
    fn eval_epsilon(&self, tid: TransId) -> (r: Ext<Q>)
        requires
            self.wf(),
            tid.0 < self.epsilons_spec().len(),
        ensures
            eps_eval_rel(self.epsilons_spec()[tid.0 as int], self.states_spec(), r),
    {
        match self.epsilons.get(tid) {
            EpsTrans::T1 { source, action, .. } => {
                let v = *self.states.get(*source);
                match v {
                    Ext::Zero => Ext::Zero,
                    Ext::One(q) => {
                        let a = *action;
                        Ext::One(a(q))
                    },
                    Ext::Many => Ext::Many,
                }
            },
            EpsTrans::T2 { source1, source2, action, .. } => {
                let v1 = *self.states.get(*source1);
                let v2 = *self.states.get(*source2);
                match (v1, v2) {
                    (Ext::Zero, _) => Ext::Zero,
                    (_, Ext::Zero) => Ext::Zero,
                    (Ext::One(q1), Ext::One(q2)) => {
                        let a = *action;
                        Ext::One(a(q1, q2))
                    },
                    _ => Ext::Many,
                }
            },
        }
    }

    /* Streaming algorithm */

    /// Run the epsilon transitions to their least fixed point, using a
    /// transition worklist.
    ///
    /// For each transition the last contribution it made is kept only as a
    /// zero / one / many summary: once a transition has contributed a
    /// single value, contributing another single changes nothing that the
    /// target slot's own join would not already record.  A transition is
    /// re-examined whenever one of its source slots changes.  Termination
    /// holds because every step that does any work strictly raises one
    /// slot in the finite-height lattice.
    #[verifier::loop_isolation(false)]
    fn eval_epsilons(&mut self)
        requires
            old(self).wf(),
        ensures
            final(self).wf(),
            final(self).updates_spec() == old(self).updates_spec(),
            final(self).epsilons_spec() == old(self).epsilons_spec(),
            final(self).eps_out_spec() == old(self).eps_out_spec(),
            seq_leq(old(self).states_spec(), final(self).states_spec()),
            forall|j: int|
                0 <= j < old(self).states_spec().len() && (forall|t: int|
                    0 <= t < old(self).epsilons_spec().len() ==> eps_target(
                        #[trigger] old(self).epsilons_spec()[t],
                    ).0 != j) ==> final(self).states_spec()[j] == old(self).states_spec()[j],
            (forall|j: int|
                0 <= j < old(self).states_spec().len() ==> old(self).states_spec()[j]
                    == Ext::<Q>::Zero) ==> final(self).states_spec() == old(self).states_spec(),
            forall|t: int|
                0 <= t < old(self).epsilons_spec().len() ==> eps_eval_level(
                    #[trigger] old(self).epsilons_spec()[t],
                    final(self).states_spec(),
                ) <= ext_level(
                    final(self).states_spec()[eps_target(old(self).epsilons_spec()[t]).0 as int],
                ),
            exists|cvs: Seq<Ext<Q>>|
                #![trigger cvs.len()]
                {
                    &&& cvs.len() == old(self).epsilons_spec().len()
                    &&& forall|j: int|
                        0 <= j < old(self).states_spec().len() ==> final(self).states_spec()[j]
                            == old(self).states_spec()[j].join(
                            eps_contribs_at(old(self).epsilons_spec(), cvs, j),
                        )
                    &&& forall|t: int|
                        0 <= t < cvs.len() ==> ext_level(#[trigger] cvs[t]) == eps_eval_level(
                            old(self).epsilons_spec()[t],
                            final(self).states_spec(),
                        ) || final(self).states_spec()[eps_target(
                            old(self).epsilons_spec()[t],
                        ).0 as int] is Many
                },
    {
        let n_epsilons = self.epsilons.len();
        let mut wklist: Vec<TransId> = Vec::new();
        let mut t: usize = 0;
        while t < n_epsilons
            invariant
                t <= n_epsilons,
                wklist@.len() == t,
                forall|k: int| 0 <= k < wklist@.len() ==> (#[trigger] wklist@[k]).0 < n_epsilons,
                forall|tt: int|
                    0 <= tt < t ==> #[trigger] wklist@.contains(TransId(tt as usize)),
            decreases n_epsilons - t,
        {
            let ghost wk_before = wklist@;
            wklist.push(TransId(t));
            proof {
                assert forall|tt: int|
                    0 <= tt < t + 1 implies #[trigger] wklist@.contains(TransId(tt as usize)) by {
                    if tt < t {
                        lemma_contains_after_push(wk_before, TransId(t), TransId(tt as usize));
                    } else {
                        assert(wklist@[wklist@.len() - 1] == TransId(tt as usize));
                    }
                }
            }
            t += 1;
        }
        let mut trans_vals: Vec<Ext<()>> = Vec::new();
        let mut t2: usize = 0;
        while t2 < n_epsilons
            invariant
                t2 <= n_epsilons,
                trans_vals@.len() == t2,
                forall|j: int| 0 <= j < t2 ==> #[trigger] trans_vals@[j] == Ext::<()>::Zero,
            decreases n_epsilons - t2,
        {
            trans_vals.push(Ext::Zero);
            t2 += 1;
        }
        let ghost mut cur_vals: Seq<Ext<Q>> = Seq::new(n_epsilons as nat, |t: int| Ext::<Q>::Zero);
        proof {
            assert forall|j: int| 0 <= j < old(self).states_spec().len() implies self.states_spec()[j]
                == old(self).states_spec()[j].join(
                eps_contribs_at(self.epsilons_spec(), cur_vals, j),
            ) by {
                lemma_eps_contribs_zero(self.epsilons_spec(), cur_vals, j);
            }
        }
        while wklist.len() > 0
            invariant
                self.wf(),
                self.updates_spec() == old(self).updates_spec(),
                self.epsilons_spec() == old(self).epsilons_spec(),
                self.eps_out_spec() == old(self).eps_out_spec(),
                trans_vals@.len() == n_epsilons,
                forall|k: int| 0 <= k < wklist@.len() ==> (#[trigger] wklist@[k]).0 < n_epsilons,
                seq_leq(old(self).states_spec(), self.states_spec()),
                forall|j: int|
                    0 <= j < old(self).states_spec().len() && (forall|t: int|
                        0 <= t < old(self).epsilons_spec().len() ==> eps_target(
                            #[trigger] old(self).epsilons_spec()[t],
                        ).0 != j) ==> self.states_spec()[j] == old(self).states_spec()[j],
                (forall|j: int|
                    0 <= j < old(self).states_spec().len() ==> old(self).states_spec()[j]
                        == Ext::<Q>::Zero) ==> self.states_spec() == old(self).states_spec(),
                forall|t: int|
                    0 <= t < n_epsilons ==> wklist@.contains(TransId(t as usize)) || eps_no_fire(
                        self.epsilons_spec()[t],
                        self.states_spec(),
                        #[trigger] trans_vals@[t],
                    ),
                forall|t: int|
                    0 <= t < n_epsilons ==> ext_level(#[trigger] trans_vals@[t]) <= ext_level(
                        self.states_spec()[eps_target(self.epsilons_spec()[t]).0 as int],
                    ),
                cur_vals.len() == n_epsilons,
                forall|t: int|
                    0 <= t < n_epsilons ==> trans_vals@[t] == (#[trigger] cur_vals[t]).unit(),
                forall|j: int|
                    0 <= j < old(self).states_spec().len() ==> self.states_spec()[j] == old(
                        self,
                    ).states_spec()[j].join(eps_contribs_at(self.epsilons_spec(), cur_vals, j)),
                forall|t: int|
                    0 <= t < n_epsilons ==> ext_level(#[trigger] trans_vals@[t])
                        <= eps_eval_level(self.epsilons_spec()[t], self.states_spec()),
            decreases slots_pot(self.states_spec()), wklist@.len(),
        {
            proof {
                lemma_slots_pot_nonneg(self.states_spec());
            }
            let ghost wk0 = wklist@;
            let tr_id = wklist.pop().unwrap();
            let cur = trans_vals[tr_id.0];
            let tgt: StateId = match self.epsilons.get(tr_id) {
                EpsTrans::T1 { target, .. } => *target,
                EpsTrans::T2 { target, .. } => *target,
            };
            proof {
                assert(eps_target(self.epsilons_spec()[tr_id.0 as int]).0 == tgt.0);
            }
            // Only evaluate the transition if its value may cause a change.
            if cur.is_many() || self.states.get(tgt).is_many() {
                proof {
                    assert forall|t: int|
                        0 <= t < n_epsilons implies wklist@.contains(TransId(t as usize))
                        || eps_no_fire(
                        self.epsilons_spec()[t],
                        self.states_spec(),
                        #[trigger] trans_vals@[t],
                    ) by {
                        if wk0.contains(TransId(t as usize)) {
                            lemma_contains_after_pop(wk0, TransId(t as usize));
                            if TransId(t as usize) == wk0.last() {
                                assert(t == tr_id.0);
                                assert(eps_no_fire(
                                    self.epsilons_spec()[t],
                                    self.states_spec(),
                                    trans_vals@[t],
                                ));
                            }
                        }
                    }
                }
                continue ;
            }
            let new = self.eval_epsilon(tr_id);
            if new.is_none() || (new.is_one() && cur.is_one()) {
                proof {
                    lemma_eps_eval_level(
                        self.epsilons_spec()[tr_id.0 as int],
                        self.states_spec(),
                        new,
                    );
                    assert forall|t: int|
                        0 <= t < n_epsilons implies wklist@.contains(TransId(t as usize))
                        || eps_no_fire(
                        self.epsilons_spec()[t],
                        self.states_spec(),
                        #[trigger] trans_vals@[t],
                    ) by {
                        if wk0.contains(TransId(t as usize)) {
                            lemma_contains_after_pop(wk0, TransId(t as usize));
                            if TransId(t as usize) == wk0.last() {
                                assert(t == tr_id.0);
                                assert(eps_no_fire(
                                    self.epsilons_spec()[t],
                                    self.states_spec(),
                                    trans_vals@[t],
                                ));
                            }
                        }
                    }
                }
                continue ;
            }
            // Here the value of the transition has increased (from zero to
            // one, zero to many, or one to many), and the target state is
            // not yet many, so joining strictly raises the target.
            let ghost tv_pre = trans_vals@;
            trans_vals[tr_id.0] = new.to_unit();
            let curtgt = *self.states.get(tgt);
            let ghost pre_states = self.states_spec();
            self.states.set(tgt, curtgt.add(new));
            proof {
                lemma_eps_eval_level(self.epsilons_spec()[tr_id.0 as int], pre_states, new);
                lemma_slots_pot_update(pre_states, tgt.0 as int, curtgt.join(new));
                assert(ext_level(curtgt.join(new)) > ext_level(curtgt));
                assert(slots_pot(self.states_spec()) < slots_pot(pre_states));
                lemma_slots_pot_nonneg(self.states_spec());
                assert forall|j: int|
                    0 <= j < old(self).states_spec().len() implies #[trigger] ext_leq(
                    old(self).states_spec()[j],
                    self.states_spec()[j],
                ) by {
                    assert(ext_leq(old(self).states_spec()[j], pre_states[j]));
                    if j == tgt.0 as int {
                        assert(self.states_spec()[j] == curtgt.join(new));
                    } else {
                        assert(self.states_spec()[j] == pre_states[j]);
                    }
                }
                if forall|j: int|
                    0 <= j < old(self).states_spec().len() ==> old(self).states_spec()[j]
                        == Ext::<Q>::Zero {
                    assert(pre_states == old(self).states_spec());
                    assert(eps_eval_rel(
                        self.epsilons_spec()[tr_id.0 as int],
                        pre_states,
                        new,
                    ));
                    assert(eps_ids_ok(
                        self.epsilons_spec()[tr_id.0 as int],
                        pre_states.len() as int,
                    ));
                    assert(new == Ext::<Q>::Zero);
                    assert(false);
                }
                lemma_join_level(curtgt, new);
                assert forall|t: int|
                    0 <= t < n_epsilons implies ext_level(#[trigger] trans_vals@[t]) <= ext_level(
                    self.states_spec()[eps_target(self.epsilons_spec()[t]).0 as int],
                ) by {
                    if t == tr_id.0 {
                        assert(self.states_spec()[tgt.0 as int] == curtgt.join(new));
                    } else {
                        assert(trans_vals@[t] == tv_pre[t]);
                        if eps_target(self.epsilons_spec()[t]).0 == tgt.0 {
                            assert(ext_level(tv_pre[t]) <= ext_level(curtgt));
                        }
                    }
                }
                assert forall|t: int|
                    0 <= t < n_epsilons && !eps_reads_from(
                        self.epsilons_spec()[t],
                        tgt.0 as int,
                    ) implies eps_eval_level(#[trigger] self.epsilons_spec()[t], self.states_spec())
                    == eps_eval_level(self.epsilons_spec()[t], pre_states) by {
                    assert(eps_ids_ok(self.epsilons_spec()[t], pre_states.len() as int));
                }
                let cur_vals_prev = cur_vals;
                assert(cur_vals_prev[tr_id.0 as int].join(new) == new) by {
                    if !(new is Many) {
                        assert(trans_vals@[tr_id.0 as int] == new.unit());
                        assert(cur == Ext::<()>::Zero);
                        assert(cur_vals_prev[tr_id.0 as int].unit() == Ext::<()>::Zero);
                    }
                }
                cur_vals = cur_vals.update(tr_id.0 as int, new);
                assert forall|j: int|
                    0 <= j < old(self).states_spec().len() implies self.states_spec()[j] == old(
                    self,
                ).states_spec()[j].join(eps_contribs_at(self.epsilons_spec(), cur_vals, j)) by {
                    lemma_eps_contribs_update(
                        self.epsilons_spec(),
                        cur_vals_prev,
                        tr_id.0 as int,
                        new,
                        j,
                    );
                    if j == tgt.0 as int {
                        crate::ext_value::lemma_join_associative(
                            old(self).states_spec()[j],
                            eps_contribs_at(self.epsilons_spec(), cur_vals_prev, j),
                            new,
                        );
                        assert(self.states_spec()[j] == pre_states[j].join(new));
                    } else {
                        assert(self.states_spec()[j] == pre_states[j]);
                    }
                }
                assert forall|j: int|
                    0 <= j < pre_states.len() implies ext_level(#[trigger] pre_states[j])
                    <= ext_level(self.states_spec()[j]) by {
                    if j == tgt.0 as int {
                        assert(self.states_spec()[j] == curtgt.join(new));
                    } else {
                        assert(self.states_spec()[j] == pre_states[j]);
                    }
                }
                assert forall|t: int|
                    0 <= t < n_epsilons implies ext_level(#[trigger] trans_vals@[t])
                    <= eps_eval_level(self.epsilons_spec()[t], self.states_spec()) by {
                    assert(eps_ids_ok(self.epsilons_spec()[t], pre_states.len() as int));
                    lemma_eval_level_monotone(
                        self.epsilons_spec()[t],
                        pre_states,
                        self.states_spec(),
                    );
                    if t == tr_id.0 {
                        assert(ext_level(new.unit()) == ext_level(new));
                        assert(ext_level(new) == eps_eval_level(
                            self.epsilons_spec()[t],
                            pre_states,
                        ));
                    }
                }
                assert forall|t: int|
                    0 <= t < n_epsilons implies wklist@.contains(TransId(t as usize))
                    || eps_no_fire(
                    self.epsilons_spec()[t],
                    self.states_spec(),
                    #[trigger] trans_vals@[t],
                ) || (exists|kk: int|
                    0 <= kk < self.eps_out@[tgt.0 as int]@.len()
                        && self.eps_out@[tgt.0 as int]@[kk] == TransId(t as usize)) by {
                    if eps_reads_from(self.epsilons_spec()[t], tgt.0 as int) {
                        assert(self.eps_out@[tgt.0 as int]@.contains(TransId(t as usize)));
                    } else {
                        assert(eps_eval_level(self.epsilons_spec()[t], self.states_spec())
                            == eps_eval_level(self.epsilons_spec()[t], pre_states));
                        if t == tr_id.0 {
                            assert(trans_vals@[t] == new.unit());
                            assert(eps_no_fire(
                                self.epsilons_spec()[t],
                                self.states_spec(),
                                trans_vals@[t],
                            ));
                        } else {
                            assert(trans_vals@[t] == tv_pre[t]);
                            if wk0.contains(TransId(t as usize)) {
                                lemma_contains_after_pop(wk0, TransId(t as usize));
                                assert(wklist@.contains(TransId(t as usize)));
                            } else {
                                assert(eps_no_fire(
                                    self.epsilons_spec()[t],
                                    pre_states,
                                    tv_pre[t],
                                ));
                                assert(eps_target(self.epsilons_spec()[t]).0 != tgt.0
                                    || !(pre_states[eps_target(self.epsilons_spec()[t]).0 as int]
                                    is Many));
                                assert(eps_no_fire(
                                    self.epsilons_spec()[t],
                                    self.states_spec(),
                                    trans_vals@[t],
                                ));
                            }
                        }
                    }
                }
            }
            let mut k: usize = 0;
            while k < self.eps_out.get(tgt).len()
                invariant
                    k <= self.eps_out@[tgt.0 as int]@.len(),
                    forall|kk: int|
                        0 <= kk < wklist@.len() ==> (#[trigger] wklist@[kk]).0 < n_epsilons,
                    forall|t: int|
                        0 <= t < n_epsilons ==> wklist@.contains(TransId(t as usize))
                            || eps_no_fire(
                            self.epsilons_spec()[t],
                            self.states_spec(),
                            #[trigger] trans_vals@[t],
                        ) || (exists|kk: int|
                            k <= kk < self.eps_out@[tgt.0 as int]@.len()
                                && self.eps_out@[tgt.0 as int]@[kk] == TransId(t as usize)),
                decreases self.eps_out@[tgt.0 as int]@.len() - k,
            {
                let ghost wk_before = wklist@;
                let eps_id = self.eps_out.get(tgt)[k];
                wklist.push(eps_id);
                proof {
                    assert forall|t: int|
                        0 <= t < n_epsilons implies wklist@.contains(TransId(t as usize))
                        || eps_no_fire(
                        self.epsilons_spec()[t],
                        self.states_spec(),
                        #[trigger] trans_vals@[t],
                    ) || (exists|kk: int|
                        k + 1 <= kk < self.eps_out@[tgt.0 as int]@.len()
                            && self.eps_out@[tgt.0 as int]@[kk] == TransId(t as usize)) by {
                        if wk_before.contains(TransId(t as usize)) {
                            lemma_contains_after_push(wk_before, eps_id, TransId(t as usize));
                        } else if !eps_no_fire(
                            self.epsilons_spec()[t],
                            self.states_spec(),
                            trans_vals@[t],
                        ) {
                            let kk = choose|kk: int|
                                k <= kk < self.eps_out@[tgt.0 as int]@.len()
                                    && self.eps_out@[tgt.0 as int]@[kk] == TransId(t as usize);
                            if kk == k {
                                assert(eps_id == TransId(t as usize));
                                assert(wklist@[wklist@.len() - 1] == TransId(t as usize));
                            }
                        }
                    }
                }
                k += 1;
            }
            proof {
                assert forall|t: int|
                    0 <= t < n_epsilons implies wklist@.contains(TransId(t as usize))
                    || eps_no_fire(
                    self.epsilons_spec()[t],
                    self.states_spec(),
                    #[trigger] trans_vals@[t],
                ) by {}
            }
        }
        proof {
            assert forall|t: int|
                0 <= t < old(self).epsilons_spec().len() implies eps_eval_level(
                #[trigger] old(self).epsilons_spec()[t],
                self.states_spec(),
            ) <= ext_level(
                self.states_spec()[eps_target(old(self).epsilons_spec()[t]).0 as int],
            ) by {
                assert(!wklist@.contains(TransId(t as usize)));
                assert(eps_no_fire(
                    self.epsilons_spec()[t],
                    self.states_spec(),
                    trans_vals@[t],
                ));
            }
            assert forall|t: int|
                0 <= t < cur_vals.len() implies ext_level(#[trigger] cur_vals[t])
                == eps_eval_level(old(self).epsilons_spec()[t], self.states_spec())
                || self.states_spec()[eps_target(old(self).epsilons_spec()[t]).0 as int]
                is Many by {
                assert(!wklist@.contains(TransId(t as usize)));
                assert(eps_no_fire(
                    self.epsilons_spec()[t],
                    self.states_spec(),
                    trans_vals@[t],
                ));
                assert(trans_vals@[t] == cur_vals[t].unit());
                assert(ext_level(cur_vals[t].unit()) == ext_level(cur_vals[t]));
            }
            assert(cur_vals.len() == old(self).epsilons_spec().len());
        }
    }

    /// The update pass prior to the epsilon closure: compute a fresh
    /// all-`Zero` state vector, joining into it the contribution of every
    /// update transition whose guard accepts the item, then replace the
    /// machine's states with it.  Old values are not carried forward
    /// implicitly: a slot that should persist across an update needs an
    /// explicit identity self-loop.
    #[verifier::loop_isolation(false)]
    fn eval_updates(&mut self, item: &D)
        requires
            old(self).wf(),
        ensures
            final(self).wf(),
            final(self).updates_spec() == old(self).updates_spec(),
            final(self).epsilons_spec() == old(self).epsilons_spec(),
            final(self).eps_out_spec() == old(self).eps_out_spec(),
            final(self).states_spec().len() == old(self).states_spec().len(),
            forall|j: int|
                0 <= j < old(self).states_spec().len() && (forall|t: int|
                    0 <= t < old(self).updates_spec().len() ==> update_target(
                        #[trigger] old(self).updates_spec()[t],
                    ).0 != j) ==> final(self).states_spec()[j] == Ext::<Q>::Zero,
            updates_pass_rel(
                old(self).updates_spec(),
                old(self).states_spec(),
                *item,
                final(self).states_spec(),
            ),
    {
        let n = self.states.len();
        let mut new_states_v: Vec<Ext<Q>> = Vec::new();
        let mut j0: usize = 0;
        while j0 < n
            invariant
                j0 <= n,
                new_states_v@.len() == j0,
                forall|j: int| 0 <= j < j0 ==> new_states_v@[j] == Ext::<Q>::Zero,
            decreases n - j0,
        {
            new_states_v.push(Ext::Zero);
            j0 += 1;
        }
        let n_upd = self.updates.len();
        let ghost mut cs: Seq<Ext<Q>> = Seq::empty();
        proof {
            assert forall|j: int| 0 <= j < n implies new_states_v@[j] == contribs_at(
                self.updates_spec().take(0),
                cs,
                j,
            ) by {
                assert(self.updates_spec().take(0).len() == 0);
            }
        }
        let mut t: usize = 0;
        while t < n_upd
            invariant
                t <= n_upd,
                new_states_v@.len() == n,
                cs.len() == t,
                forall|tt: int|
                    0 <= tt < t ==> update_fired_rel(
                        #[trigger] self.updates_spec()[tt],
                        self.states_spec(),
                        *item,
                        cs[tt],
                    ),
                forall|j: int|
                    0 <= j < n ==> new_states_v@[j] == contribs_at(
                        self.updates_spec().take(t as int),
                        cs,
                        j,
                    ),
                forall|j: int|
                    0 <= j < n && (forall|tt: int|
                        0 <= tt < self.updates_spec().len() ==> update_target(
                            #[trigger] self.updates_spec()[tt],
                        ).0 != j) ==> new_states_v@[j] == Ext::<Q>::Zero,
            decreases n_upd - t,
        {
            let ghost cs_pre = cs;
            let ghost nv_pre = new_states_v@;
            match self.updates.get(TransId(t)) {
                UpdateTrans::T1 { source, target, guard, action } => {
                    let g = *guard;
                    if g(*item) {
                        let v = *self.states.get(*source);
                        let fired_val: Ext<Q> = match action {
                            Action1::Fun(f) => match v {
                                Ext::Zero => Ext::Zero,
                                Ext::One(q) => {
                                    let a = *f;
                                    Ext::One(a(*item, q))
                                },
                                Ext::Many => Ext::Many,
                            },
                            Action1::Iden => v,
                        };
                        let tj = target.0;
                        let curv = new_states_v[tj];
                        new_states_v[tj] = curv.add(fired_val);
                        proof {
                            assert(update_target(self.updates_spec()[t as int]).0 == tj);
                            cs = cs.push(fired_val);
                            assert(update_fired_rel(
                                self.updates_spec()[t as int],
                                self.states_spec(),
                                *item,
                                fired_val,
                            ));
                        }
                    } else {
                        proof {
                            cs = cs.push(Ext::Zero);
                            assert(update_fired_rel(
                                self.updates_spec()[t as int],
                                self.states_spec(),
                                *item,
                                Ext::<Q>::Zero,
                            ));
                        }
                    }
                },
                UpdateTrans::T2 { source1, source2, target, guard, action } => {
                    let g = *guard;
                    if g(*item) {
                        let v1 = *self.states.get(*source1);
                        let v2 = *self.states.get(*source2);
                        let fired_val: Ext<Q> = match (v1, v2) {
                            (Ext::Zero, _) => Ext::Zero,
                            (_, Ext::Zero) => Ext::Zero,
                            (Ext::One(q1), Ext::One(q2)) => {
                                let a = *action;
                                Ext::One(a(*item, q1, q2))
                            },
                            _ => Ext::Many,
                        };
                        let tj = target.0;
                        let curv = new_states_v[tj];
                        new_states_v[tj] = curv.add(fired_val);
                        proof {
                            assert(update_target(self.updates_spec()[t as int]).0 == tj);
                            cs = cs.push(fired_val);
                            assert(update_fired_rel(
                                self.updates_spec()[t as int],
                                self.states_spec(),
                                *item,
                                fired_val,
                            ));
                        }
                    } else {
                        proof {
                            cs = cs.push(Ext::Zero);
                            assert(update_fired_rel(
                                self.updates_spec()[t as int],
                                self.states_spec(),
                                *item,
                                Ext::<Q>::Zero,
                            ));
                        }
                    }
                },
            }
            proof {
                assert(self.updates_spec().take(t + 1).drop_last() =~= self.updates_spec().take(
                    t as int,
                ));
                assert(cs.drop_last() =~= cs_pre);
                assert(self.updates_spec().take(t + 1).last() == self.updates_spec()[t as int]);
                assert(cs.last() == cs[t as int]);
                assert forall|j: int| 0 <= j < n implies new_states_v@[j] == contribs_at(
                    self.updates_spec().take(t + 1),
                    cs,
                    j,
                ) by {
                    assert(contribs_at(self.updates_spec().take(t as int), cs_pre, j) == nv_pre[j]);
                    if update_target(self.updates_spec()[t as int]).0 != j {
                        assert(new_states_v@[j] == nv_pre[j]);
                    }
                }
            }
            t += 1;
        }
        proof {
            assert(self.updates_spec().take(n_upd as int) =~= self.updates_spec());
        }
        self.states = StateList::new(new_states_v);
    }

    /* The transducer operations */

    /// Record an initial value (or a restart): join it into the initial
    /// state, run the epsilon closure, and read the final state.
    pub fn init(&mut self, i: Ext<Q>) -> (out: Ext<Q>)
        requires
            old(self).wf(),
        ensures
            final(self).wf(),
            final(self).updates_spec() == old(self).updates_spec(),
            final(self).epsilons_spec() == old(self).epsilons_spec(),
            final(self).eps_out_spec() == old(self).eps_out_spec(),
            seq_leq(
                old(self).states_spec().update(0, old(self).states_spec()[0].join(i)),
                final(self).states_spec(),
            ),
            forall|j: int|
                0 <= j < old(self).states_spec().len() && (forall|t: int|
                    0 <= t < old(self).epsilons_spec().len() ==> eps_target(
                        #[trigger] old(self).epsilons_spec()[t],
                    ).0 != j) ==> final(self).states_spec()[j] == old(self).states_spec().update(
                    0,
                    old(self).states_spec()[0].join(i),
                )[j],
            exists|cvs: Seq<Ext<Q>>|
                #![trigger cvs.len()]
                {
                    &&& cvs.len() == old(self).epsilons_spec().len()
                    &&& forall|j: int|
                        0 <= j < old(self).states_spec().len() ==> final(self).states_spec()[j]
                            == old(self).states_spec().update(
                            0,
                            old(self).states_spec()[0].join(i),
                        )[j].join(eps_contribs_at(old(self).epsilons_spec(), cvs, j))
                    &&& forall|t: int|
                        0 <= t < cvs.len() ==> ext_level(#[trigger] cvs[t]) == eps_eval_level(
                            old(self).epsilons_spec()[t],
                            final(self).states_spec(),
                        ) || final(self).states_spec()[eps_target(
                            old(self).epsilons_spec()[t],
                        ).0 as int] is Many
                },
            out == final(self).states_spec()[1],
            forall|t: int|
                0 <= t < old(self).epsilons_spec().len() ==> eps_eval_level(
                    #[trigger] old(self).epsilons_spec()[t],
                    final(self).states_spec(),
                ) <= ext_level(
                    final(self).states_spec()[eps_target(old(self).epsilons_spec()[t]).0 as int],
                ),
    {
        self.add_to_istate(i);
        let ghost seeded = *self;
        self.eval_epsilons();
        proof {
            let cvs = choose|cvs: Seq<Ext<Q>>|
                #![trigger cvs.len()]
                {
                    &&& cvs.len() == seeded.epsilons_spec().len()
                    &&& forall|j: int|
                        0 <= j < seeded.states_spec().len() ==> self.states_spec()[j]
                            == seeded.states_spec()[j].join(
                            eps_contribs_at(seeded.epsilons_spec(), cvs, j),
                        )
                    &&& forall|t: int|
                        0 <= t < cvs.len() ==> ext_level(#[trigger] cvs[t]) == eps_eval_level(
                            seeded.epsilons_spec()[t],
                            self.states_spec(),
                        ) || self.states_spec()[eps_target(
                            seeded.epsilons_spec()[t],
                        ).0 as int] is Many
                };
            assert(cvs.len() == old(self).epsilons_spec().len());
        }
        self.get_fstate()
    }

    /// Version of `init` which takes `Q` instead of `Ext<Q>`.
    pub fn init_one(&mut self, i: Q) -> (out: Ext<Q>)
        requires
            old(self).wf(),
        ensures
            final(self).wf(),
            final(self).updates_spec() == old(self).updates_spec(),
            final(self).epsilons_spec() == old(self).epsilons_spec(),
            final(self).eps_out_spec() == old(self).eps_out_spec(),
            seq_leq(
                old(self).states_spec().update(0, old(self).states_spec()[0].join(Ext::One(i))),
                final(self).states_spec(),
            ),
            out == final(self).states_spec()[1],
    {
        self.init(Ext::One(i))
    }

    /// Process one stream item: run the update pass, then the epsilon
    /// closure, and read the final state.  A machine without update
    /// transitions behaves on every item exactly as after a reset, and
    /// produces no output.
    pub fn update(&mut self, item: &D) -> (out: Ext<Q>)
        requires
            old(self).wf(),
        ensures
            final(self).wf(),
            final(self).updates_spec() == old(self).updates_spec(),
            final(self).epsilons_spec() == old(self).epsilons_spec(),
            final(self).eps_out_spec() == old(self).eps_out_spec(),
            final(self).states_spec().len() == old(self).states_spec().len(),
            out == final(self).states_spec()[1],
            old(self).updates_spec().len() == 0 ==> out == Ext::<Q>::Zero && (forall|j: int|
                0 <= j < final(self).states_spec().len() ==> final(self).states_spec()[j]
                    == Ext::<Q>::Zero),
            exists|mid: Seq<Ext<Q>>|
                #![trigger seq_leq(mid, final(self).states_spec())]
                {
                    &&& updates_pass_rel(
                        old(self).updates_spec(),
                        old(self).states_spec(),
                        *item,
                        mid,
                    )
                    &&& seq_leq(mid, final(self).states_spec())
                    &&& forall|j: int|
                        0 <= j < mid.len() && (forall|t: int|
                            0 <= t < old(self).epsilons_spec().len() ==> eps_target(
                                #[trigger] old(self).epsilons_spec()[t],
                            ).0 != j) ==> final(self).states_spec()[j] == mid[j]
                    &&& exists|cvs: Seq<Ext<Q>>|
                        #![trigger cvs.len()]
                        {
                            &&& cvs.len() == old(self).epsilons_spec().len()
                            &&& forall|j: int|
                                0 <= j < mid.len() ==> final(self).states_spec()[j] == mid[j].join(
                                    eps_contribs_at(old(self).epsilons_spec(), cvs, j),
                                )
                            &&& forall|t: int|
                                0 <= t < cvs.len() ==> ext_level(#[trigger] cvs[t])
                                    == eps_eval_level(
                                    old(self).epsilons_spec()[t],
                                    final(self).states_spec(),
                                ) || final(self).states_spec()[eps_target(
                                    old(self).epsilons_spec()[t],
                                ).0 as int] is Many
                        }
                },
            forall|t: int|
                0 <= t < old(self).epsilons_spec().len() ==> eps_eval_level(
                    #[trigger] old(self).epsilons_spec()[t],
                    final(self).states_spec(),
                ) <= ext_level(
                    final(self).states_spec()[eps_target(old(self).epsilons_spec()[t]).0 as int],
                ),
    {
        self.eval_updates(item);
        let ghost midm = *self;
        let ghost mid = self.states_spec();
        self.eval_epsilons();
        proof {
            assert(seq_leq(mid, self.states_spec()));
            let cvs = choose|cvs: Seq<Ext<Q>>|
                #![trigger cvs.len()]
                {
                    &&& cvs.len() == midm.epsilons_spec().len()
                    &&& forall|j: int|
                        0 <= j < midm.states_spec().len() ==> self.states_spec()[j]
                            == midm.states_spec()[j].join(
                            eps_contribs_at(midm.epsilons_spec(), cvs, j),
                        )
                    &&& forall|t: int|
                        0 <= t < cvs.len() ==> ext_level(#[trigger] cvs[t]) == eps_eval_level(
                            midm.epsilons_spec()[t],
                            self.states_spec(),
                        ) || self.states_spec()[eps_target(
                            midm.epsilons_spec()[t],
                        ).0 as int] is Many
                };
            assert(cvs.len() == old(self).epsilons_spec().len());
        }
        self.get_fstate()
    }

    /// Version of `update` which takes `D` by value.
    pub fn update_val(&mut self, d: D) -> (out: Ext<Q>)
        requires
            old(self).wf(),
        ensures
            final(self).wf(),
            final(self).updates_spec() == old(self).updates_spec(),
            final(self).epsilons_spec() == old(self).epsilons_spec(),
            final(self).eps_out_spec() == old(self).eps_out_spec(),
            final(self).states_spec().len() == old(self).states_spec().len(),
            out == final(self).states_spec()[1],
            exists|mid: Seq<Ext<Q>>|
                #![trigger seq_leq(mid, final(self).states_spec())]
                {
                    &&& updates_pass_rel(
                        old(self).updates_spec(),
                        old(self).states_spec(),
                        d,
                        mid,
                    )
                    &&& seq_leq(mid, final(self).states_spec())
                    &&& forall|j: int|
                        0 <= j < mid.len() && (forall|t: int|
                            0 <= t < old(self).epsilons_spec().len() ==> eps_target(
                                #[trigger] old(self).epsilons_spec()[t],
                            ).0 != j) ==> final(self).states_spec()[j] == mid[j]
                    &&& exists|cvs: Seq<Ext<Q>>|
                        #![trigger cvs.len()]
                        {
                            &&& cvs.len() == old(self).epsilons_spec().len()
                            &&& forall|j: int|
                                0 <= j < mid.len() ==> final(self).states_spec()[j] == mid[j].join(
                                    eps_contribs_at(old(self).epsilons_spec(), cvs, j),
                                )
                            &&& forall|t: int|
                                0 <= t < cvs.len() ==> ext_level(#[trigger] cvs[t])
                                    == eps_eval_level(
                                    old(self).epsilons_spec()[t],
                                    final(self).states_spec(),
                                ) || final(self).states_spec()[eps_target(
                                    old(self).epsilons_spec()[t],
                                ).0 as int] is Many
                        }
                },
    {
        self.update(&d)
    }

    /// Restore every state to `Zero`.
    #[verifier::loop_isolation(false)]
    pub fn reset(&mut self)
        requires
            old(self).wf(),
        ensures
            final(self).wf(),
            final(self).updates_spec() == old(self).updates_spec(),
            final(self).epsilons_spec() == old(self).epsilons_spec(),
            final(self).eps_out_spec() == old(self).eps_out_spec(),
            final(self).states_spec().len() == old(self).states_spec().len(),
            forall|j: int|
                0 <= j < final(self).states_spec().len() ==> final(self).states_spec()[j]
                    == Ext::<Q>::Zero,
    {
        let n = self.states.len();
        let mut j: usize = 0;
        while j < n
            invariant
                j <= n,
                self.states_spec().len() == n,
                self.updates_spec() == old(self).updates_spec(),
                self.epsilons_spec() == old(self).epsilons_spec(),
                self.eps_out_spec() == old(self).eps_out_spec(),
                self.wf(),
                forall|jj: int| 0 <= jj < j ==> self.states_spec()[jj] == Ext::<Q>::Zero,
            decreases n - j,
        {
            self.states.set(StateId(j), Ext::Zero);
            j += 1;
        }
    }

    /// The machine is an epsilon iff it has only epsilon transitions.
    pub fn is_epsilon(&self) -> (r: bool)
        requires
            self.wf(),
        ensures
            r == (self.updates_spec().len() == 0),
    {
        self.updates.len() == 0
    }

    /// Restartability of an explicit machine is a decision procedure this
    /// library deliberately does not compute (the problem is
    /// PSPACE-complete), so the answer is always "not computed" rather
    /// than a possibly wrong boolean.
    pub fn is_restartable(&self) -> (r: Option<bool>)
        ensures
            r == None::<bool>,
    {
        None
    }

    pub fn n_states(&self) -> (r: usize)
        requires
            self.wf(),
        ensures
            r == self.states_spec().len(),
            r >= 2,
    {
        self.states.len()
    }

    pub fn n_transs(&self) -> (r: usize)
        requires
            self.wf(),
        ensures
            r == self.updates_spec().len() + self.epsilons_spec().len(),
    {
        self.updates.len() + self.epsilons.len()
    }
}

} // verus!
