//! Interface for streaming transducers.
//!
//! Type parameters, throughout the file:
//! - `I`: the type of initial input to a transducer,
//! - `D`: the type of the input data stream (updates to the transducer),
//! - `O`: the type of output data produced after each update.
//!
//! Input to a transducer is an initial value followed by a stream of items.
//! Alternatively it can be a single augmented stream mixing items with
//! "restart" events carrying initial values (`RInput` items).  Multiple
//! restarts matter for *restartable* transducers, which are more composable.
//!
//! A transducer's exec operations are specified *relationally*: the caller
//! supplies the transition functions as closures, and a closure in Verus is
//! described only by its `call_ensures` relation, so the most precise
//! statement of what `init` or `update` did is a relation between the state
//! before, the input, the state after, and the output.

use vstd::prelude::*;
use vstd::std_specs::cmp::PartialEqSpec;

use crate::ext_value::Ext;

verus! {

/// An input item which could also be a "restart event" carrying a fresh
/// initial value.
#[derive(Clone, Copy, Debug)]
pub enum RInput<I, D> {
    Restart(I),
    Item(D),
}

/// Conjunction of two possibly-uncomputed booleans, mirroring a
/// short-circuit `&&`: a known `false` on the left decides the answer, and
/// otherwise an uncomputed side leaves the answer uncomputed.
pub open spec fn opt_and_spec(a: Option<bool>, b: Option<bool>) -> Option<bool> {
    match a {
        None => None,
        Some(false) => Some(false),
        Some(true) => b,
    }
}

pub fn opt_and(a: Option<bool>, b: Option<bool>) -> (r: Option<bool>)
    ensures
        r == opt_and_spec(a, b),
{
    match a {
        None => None,
        Some(false) => Some(false),
        Some(true) => b,
    }
}

/// The contract every streaming computation of this library implements.
///
/// Each implementation gives, as spec functions, an exact relational model of
/// its `init` and `update` operations, the state its `reset` restores, and
/// its static metadata.  The proof functions are laws every implementation
/// must establish:
/// - `lemma_init_zero`: `init(Zero)` has no effect and returns `Zero`;
/// - `lemma_init_meta` / `lemma_update_meta` / `lemma_reset_meta`: the
///   static metadata is invariant under `init`, `update` and `reset`.
pub trait Transducer<I, D, O>: Sized {
    /// Well-formedness of the transducer's internal state; established by
    /// constructors and preserved by every operation.
    spec fn inv(&self) -> bool;

    /// The state `reset` restores (and `spawn_empty` starts from).
    spec fn resetted(&self) -> Self;

    /// Exactly how `init` may step: from state `pre` with initial value `i`
    /// to state `post` with immediate output `out`.
    spec fn init_rel(pre: Self, i: Ext<I>, post: Self, out: Ext<O>) -> bool;

    /// Exactly how `update` may step on one stream item.
    spec fn update_rel(pre: Self, item: D, post: Self, out: Ext<O>) -> bool;

    /// Whether `update` always returns `Zero` and is equivalent to `reset`.
    spec fn is_epsilon_spec(&self) -> bool;

    /// Whether the computation is restartable; `None` where the library
    /// deliberately does not compute the answer.
    spec fn restartable_spec(&self) -> Option<bool>;

    /// Number of internal values kept (complexity metadata).
    spec fn n_states_spec(&self) -> int;

    /// Number of transforming functions kept (complexity metadata).
    spec fn n_transs_spec(&self) -> int;

    /// Record an initial value for the computation (or a restart), returning
    /// any output produced immediately.
    fn init(&mut self, i: Ext<I>) -> (out: Ext<O>)
        requires
            old(self).inv(),
        ensures
            final(self).inv(),
            Self::init_rel(*old(self), i, *final(self), out),
    ;

    /// Process one input data item, returning any output produced.
    fn update(&mut self, item: &D) -> (out: Ext<O>)
        requires
            old(self).inv(),
        ensures
            final(self).inv(),
            Self::update_rel(*old(self), *item, *final(self), out),
    ;

    /// Restore the transducer to its original state.
    fn reset(&mut self)
        requires
            old(self).inv(),
        ensures
            final(self).inv(),
            *final(self) == old(self).resetted(),
    ;

    /// An independent copy of the transducer, reset to the initial state and
    /// prior to any `init` calls.
    fn spawn_empty(&self) -> (r: Self)
        requires
            self.inv(),
        ensures
            r.inv(),
            r == self.resetted(),
    ;

    fn is_epsilon(&self) -> (r: bool)
        requires
            self.inv(),
        ensures
            r == self.is_epsilon_spec(),
    ;

    fn is_restartable(&self) -> (r: Option<bool>)
        requires
            self.inv(),
        ensures
            r == self.restartable_spec(),
    ;

    fn n_states(&self) -> (r: usize)
        requires
            self.inv(),
        ensures
            r == self.n_states_spec(),
    ;

    fn n_transs(&self) -> (r: usize)
        requires
            self.inv(),
        ensures
            r == self.n_transs_spec(),
    ;

    /// Law: `init(Zero)` has no effect and returns `Zero`.
    proof fn lemma_init_zero(pre: Self, post: Self, out: Ext<O>)
        requires
            pre.inv(),
            Self::init_rel(pre, Ext::Zero, post, out),
        ensures
            post == pre,
            out == Ext::<O>::Zero,
    ;

    /// Law: `init` preserves well-formedness and the static metadata.
    proof fn lemma_init_meta(pre: Self, i: Ext<I>, post: Self, out: Ext<O>)
        requires
            pre.inv(),
            Self::init_rel(pre, i, post, out),
        ensures
            post.inv(),
            post.is_epsilon_spec() == pre.is_epsilon_spec(),
            post.restartable_spec() == pre.restartable_spec(),
            post.n_states_spec() == pre.n_states_spec(),
            post.n_transs_spec() == pre.n_transs_spec(),
    ;

    /// Law: `update` preserves well-formedness and the static metadata.
    proof fn lemma_update_meta(pre: Self, item: D, post: Self, out: Ext<O>)
        requires
            pre.inv(),
            Self::update_rel(pre, item, post, out),
        ensures
            post.inv(),
            post.is_epsilon_spec() == pre.is_epsilon_spec(),
            post.restartable_spec() == pre.restartable_spec(),
            post.n_states_spec() == pre.n_states_spec(),
            post.n_transs_spec() == pre.n_transs_spec(),
    ;

    /// Law: `reset` preserves well-formedness and the static metadata.
    proof fn lemma_reset_meta(pre: Self)
        requires
            pre.inv(),
        ensures
            pre.resetted().inv(),
            pre.resetted().is_epsilon_spec() == pre.is_epsilon_spec(),
            pre.resetted().restartable_spec() == pre.restartable_spec(),
            pre.resetted().n_states_spec() == pre.n_states_spec(),
            pre.resetted().n_transs_spec() == pre.n_transs_spec(),
    ;

    /* Derived functionality */

    /// Version of `init` which takes `I` instead of `Ext<I>`.
    fn init_one(&mut self, i: I) -> (out: Ext<O>)
        requires
            old(self).inv(),
        ensures
            final(self).inv(),
            Self::init_rel(*old(self), Ext::One(i), *final(self), out),
    {
        self.init(Ext::One(i))
    }

    /// Version of `update` which takes `D` by value.
    fn update_val(&mut self, d: D) -> (out: Ext<O>)
        requires
            old(self).inv(),
        ensures
            final(self).inv(),
            Self::update_rel(*old(self), d, *final(self), out),
    {
        self.update(&d)
    }

}

/// Process an input stream (plus an initial value): one output entry for
/// the initial value, then one per item.
pub fn process_stream<I, D: Copy, O, M: Transducer<I, D, O>>(m: &mut M, i: I, strm: &Vec<D>) -> (
    outs: Vec<Ext<O>>)
    requires
        old(m).inv(),
    ensures
        final(m).inv(),
        stream_rel(*old(m), i, strm@, *final(m), outs@),
{
    let mut outs: Vec<Ext<O>> = Vec::new();
    let y0 = m.init(Ext::One(i));
    outs.push(y0);
    let ghost mid0 = *m;
    let mut k: usize = 0;
    while k < strm.len()
        invariant
            old(m).inv(),
            m.inv(),
            k <= strm.len(),
            outs@.len() == k + 1,
            M::init_rel(*old(m), Ext::One(i), mid0, outs@[0]),
            updates_rel(mid0, strm@.take(k as int), *m, outs@.skip(1)),
        decreases strm.len() - k,
    {
        let d = strm[k];
        let ghost prev = *m;
        let ghost outs_prev = outs@;
        let o = m.update(&d);
        outs.push(o);
        proof {
            lemma_updates_rel_push(
                mid0,
                strm@.take(k as int),
                prev,
                outs_prev.skip(1),
                d,
                *m,
                o,
            );
            assert(strm@.take(k + 1) =~= strm@.take(k as int).push(strm@[k as int]));
            assert(outs@.skip(1) =~= outs_prev.skip(1).push(o));
        }
        k += 1;
    }
    proof {
        assert(strm@.take(strm@.len() as int) =~= strm@);
    }
    outs
}

/// Process an input stream with restart events, routing restarts to `init`
/// and items to `update` on one long-lived instance.
pub fn process_rstream_single<I: Copy, D: Copy, O, M: Transducer<I, D, O>>(
    m: &mut M,
    strm: &Vec<RInput<I, D>>,
) -> (outs: Vec<Ext<O>>)
    requires
        old(m).inv(),
    ensures
        final(m).inv(),
        rstream_single_rel(*old(m), strm@, *final(m), outs@),
{
    let mut outs: Vec<Ext<O>> = Vec::new();
    let mut k: usize = 0;
    while k < strm.len()
        invariant
            old(m).inv(),
            m.inv(),
            k <= strm.len(),
            outs@.len() == k,
            rstream_single_rel(*old(m), strm@.take(k as int), *m, outs@),
        decreases strm.len() - k,
    {
        let ghost prev = *m;
        let ghost outs_prev = outs@;
        let o = match &strm[k] {
            RInput::Restart(i) => m.init(Ext::One(*i)),
            RInput::Item(d) => m.update(d),
        };
        outs.push(o);
        proof {
            lemma_rstream_single_rel_push(
                *old(m),
                strm@.take(k as int),
                prev,
                outs_prev,
                strm@[k as int],
                *m,
                o,
            );
            assert(strm@.take(k + 1) =~= strm@.take(k as int).push(strm@[k as int]));
        }
        k += 1;
    }
    proof {
        assert(strm@.take(strm@.len() as int) =~= strm@);
    }
    outs
}

/* Relational semantics of the derived stream-processing operations */

/// A chain of `update` steps, one per stream item, with their outputs.
pub open spec fn updates_rel<I, D, O, M: Transducer<I, D, O>>(
    pre: M,
    strm: Seq<D>,
    post: M,
    outs: Seq<Ext<O>>,
) -> bool
    decreases strm.len(),
{
    if strm.len() == 0 {
        post == pre && outs.len() == 0
    } else {
        &&& outs.len() == strm.len()
        &&& exists|mid: M|
            #[trigger] M::update_rel(pre, strm[0], mid, outs[0]) && updates_rel(
                mid,
                strm.skip(1),
                post,
                outs.skip(1),
            )
    }
}

/// One `init` with the given initial value, then a chain of updates.
pub open spec fn stream_rel<I, D, O, M: Transducer<I, D, O>>(
    pre: M,
    i: I,
    strm: Seq<D>,
    post: M,
    outs: Seq<Ext<O>>,
) -> bool {
    &&& outs.len() == strm.len() + 1
    &&& exists|mid: M|
        #[trigger] M::init_rel(pre, Ext::One(i), mid, outs[0]) && updates_rel(
            mid,
            strm,
            post,
            outs.skip(1),
        )
}

/// A chain of steps over a restart-augmented stream, driven by one
/// instance: restarts go to `init`, items to `update`.
pub open spec fn rstream_single_rel<I, D, O, M: Transducer<I, D, O>>(
    pre: M,
    strm: Seq<RInput<I, D>>,
    post: M,
    outs: Seq<Ext<O>>,
) -> bool
    decreases strm.len(),
{
    if strm.len() == 0 {
        post == pre && outs.len() == 0
    } else {
        &&& outs.len() == strm.len()
        &&& match strm[0] {
            RInput::Restart(i) => exists|mid: M|
                #[trigger] M::init_rel(pre, Ext::One(i), mid, outs[0]) && rstream_single_rel(
                    mid,
                    strm.skip(1),
                    post,
                    outs.skip(1),
                ),
            RInput::Item(d) => exists|mid: M|
                #[trigger] M::update_rel(pre, d, mid, outs[0]) && rstream_single_rel(
                    mid,
                    strm.skip(1),
                    post,
                    outs.skip(1),
                ),
        }
    }
}

/// A chain of update steps extends by one more step at its end.
proof fn lemma_updates_rel_push<I, D, O, M: Transducer<I, D, O>>(
    pre: M,
    strm: Seq<D>,
    mid: M,
    outs: Seq<Ext<O>>,
    d: D,
    post: M,
    o: Ext<O>,
)
    requires
        updates_rel(pre, strm, mid, outs),
        M::update_rel(mid, d, post, o),
    ensures
        updates_rel(pre, strm.push(d), post, outs.push(o)),
    decreases strm.len(),
{
    if strm.len() == 0 {
        assert(strm.push(d)[0] == d);
        assert(outs.push(o)[0] == o);
        assert(strm.push(d).skip(1) =~= Seq::<D>::empty());
        assert(outs.push(o).skip(1) =~= Seq::<Ext<O>>::empty());
        assert(updates_rel(post, strm.push(d).skip(1), post, outs.push(o).skip(1)));
    } else {
        let mid1 = choose|mid1: M|
            #[trigger] M::update_rel(pre, strm[0], mid1, outs[0]) && updates_rel(
                mid1,
                strm.skip(1),
                mid,
                outs.skip(1),
            );
        lemma_updates_rel_push(mid1, strm.skip(1), mid, outs.skip(1), d, post, o);
        assert(strm.push(d).skip(1) =~= strm.skip(1).push(d));
        assert(outs.push(o).skip(1) =~= outs.skip(1).push(o));
        assert(strm.push(d)[0] == strm[0]);
        assert(outs.push(o)[0] == outs[0]);
    }
}

/// A single-instance chain over a restart-augmented stream extends by one
/// more event at its end.
proof fn lemma_rstream_single_rel_push<I, D, O, M: Transducer<I, D, O>>(
    pre: M,
    strm: Seq<RInput<I, D>>,
    mid: M,
    outs: Seq<Ext<O>>,
    x: RInput<I, D>,
    post: M,
    o: Ext<O>,
)
    requires
        rstream_single_rel(pre, strm, mid, outs),
        match x {
            RInput::Restart(i) => M::init_rel(mid, Ext::One(i), post, o),
            RInput::Item(d) => M::update_rel(mid, d, post, o),
        },
    ensures
        rstream_single_rel(pre, strm.push(x), post, outs.push(o)),
    decreases strm.len(),
{
    if strm.len() == 0 {
        assert(strm.push(x)[0] == x);
        assert(outs.push(o)[0] == o);
        assert(strm.push(x).skip(1) =~= Seq::<RInput<I, D>>::empty());
        assert(outs.push(o).skip(1) =~= Seq::<Ext<O>>::empty());
        assert(rstream_single_rel(post, strm.push(x).skip(1), post, outs.push(o).skip(1)));
    } else {
        assert(strm.push(x).skip(1) =~= strm.skip(1).push(x));
        assert(outs.push(o).skip(1) =~= outs.skip(1).push(o));
        assert(strm.push(x)[0] == strm[0]);
        assert(outs.push(o)[0] == outs[0]);
        match strm[0] {
            RInput::Restart(i) => {
                let mid1 = choose|mid1: M|
                    #[trigger] M::init_rel(pre, Ext::One(i), mid1, outs[0]) && rstream_single_rel(
                        mid1,
                        strm.skip(1),
                        mid,
                        outs.skip(1),
                    );
                lemma_rstream_single_rel_push(mid1, strm.skip(1), mid, outs.skip(1), x, post, o);
            },
            RInput::Item(d) => {
                let mid1 = choose|mid1: M|
                    #[trigger] M::update_rel(pre, d, mid1, outs[0]) && rstream_single_rel(
                        mid1,
                        strm.skip(1),
                        mid,
                        outs.skip(1),
                    );
                lemma_rstream_single_rel_push(mid1, strm.skip(1), mid, outs.skip(1), x, post, o);
            },
        }
    }
}

/// Fold a batch of outputs together with join, left to right.
pub open spec fn join_all<O>(s: Seq<Ext<O>>) -> Ext<O>
    decreases s.len(),
{
    if s.len() == 0 {
        Ext::Zero
    } else {
        join_all(s.drop_last()).join(s.last())
    }
}

/// A chain of steps over a restart-augmented stream, driven by a growing
/// collection of instances: each restart spawns a fresh instance from the
/// prototype's initial state, and each item is routed to every live
/// instance, joining their outputs.
pub open spec fn rstream_multi_rel<I, D, O, M: Transducer<I, D, O>>(
    proto: M,
    insts: Seq<M>,
    strm: Seq<RInput<I, D>>,
    post_insts: Seq<M>,
    outs: Seq<Ext<O>>,
) -> bool
    decreases strm.len(),
{
    if strm.len() == 0 {
        post_insts == insts && outs.len() == 0
    } else {
        &&& outs.len() == strm.len()
        &&& match strm[0] {
            RInput::Restart(i) => exists|newm: M|
                #[trigger] M::init_rel(proto.resetted(), Ext::One(i), newm, outs[0])
                    && rstream_multi_rel(proto, insts.push(newm), strm.skip(1), post_insts, outs.skip(1)),
            RInput::Item(d) => exists|mids: Seq<M>, os: Seq<Ext<O>>|
                {
                    &&& mids.len() == insts.len()
                    &&& os.len() == insts.len()
                    &&& forall|j: int|
                        0 <= j < insts.len() ==> #[trigger] M::update_rel(insts[j], d, mids[j], os[j])
                    &&& outs[0] == join_all(os)
                    &&& rstream_multi_rel(proto, mids, strm.skip(1), post_insts, outs.skip(1))
                },
        }
    }
}

/// A multi-instance chain over a restart-augmented stream extends by one
/// more event at its end.
proof fn lemma_rstream_multi_rel_push<I, D, O, M: Transducer<I, D, O>>(
    proto: M,
    insts: Seq<M>,
    strm: Seq<RInput<I, D>>,
    mid_insts: Seq<M>,
    outs: Seq<Ext<O>>,
    x: RInput<I, D>,
    post_insts: Seq<M>,
    o: Ext<O>,
)
    requires
        rstream_multi_rel(proto, insts, strm, mid_insts, outs),
        match x {
            RInput::Restart(i) => exists|newm: M|
                #[trigger] M::init_rel(proto.resetted(), Ext::One(i), newm, o) && post_insts
                    == mid_insts.push(newm),
            RInput::Item(d) => exists|os: Seq<Ext<O>>|
                {
                    &&& post_insts.len() == mid_insts.len()
                    &&& os.len() == mid_insts.len()
                    &&& forall|j: int|
                        0 <= j < mid_insts.len() ==> #[trigger] M::update_rel(
                            mid_insts[j],
                            d,
                            post_insts[j],
                            os[j],
                        )
                    &&& o == join_all(os)
                },
        },
    ensures
        rstream_multi_rel(proto, insts, strm.push(x), post_insts, outs.push(o)),
    decreases strm.len(),
{
    if strm.len() == 0 {
        assert(strm.push(x)[0] == x);
        assert(outs.push(o)[0] == o);
        assert(strm.push(x).skip(1) =~= Seq::<RInput<I, D>>::empty());
        assert(outs.push(o).skip(1) =~= Seq::<Ext<O>>::empty());
        match x {
            RInput::Restart(i) => {
                let newm = choose|newm: M|
                    M::init_rel(proto.resetted(), Ext::One(i), newm, o) && post_insts
                        == mid_insts.push(newm);
                assert(rstream_multi_rel(
                    proto,
                    insts.push(newm),
                    strm.push(x).skip(1),
                    post_insts,
                    outs.push(o).skip(1),
                ));
            },
            RInput::Item(d) => {
                assert(rstream_multi_rel(
                    proto,
                    post_insts,
                    strm.push(x).skip(1),
                    post_insts,
                    outs.push(o).skip(1),
                ));
            },
        }
    } else {
        assert(strm.push(x).skip(1) =~= strm.skip(1).push(x));
        assert(outs.push(o).skip(1) =~= outs.skip(1).push(o));
        assert(strm.push(x)[0] == strm[0]);
        assert(outs.push(o)[0] == outs[0]);
        match strm[0] {
            RInput::Restart(i) => {
                let newm = choose|newm: M|
                    #[trigger] M::init_rel(proto.resetted(), Ext::One(i), newm, outs[0])
                        && rstream_multi_rel(
                        proto,
                        insts.push(newm),
                        strm.skip(1),
                        mid_insts,
                        outs.skip(1),
                    );
                lemma_rstream_multi_rel_push(
                    proto,
                    insts.push(newm),
                    strm.skip(1),
                    mid_insts,
                    outs.skip(1),
                    x,
                    post_insts,
                    o,
                );
            },
            RInput::Item(d) => {
                let (mids, os) = choose|mids: Seq<M>, os: Seq<Ext<O>>|
                    {
                        &&& mids.len() == insts.len()
                        &&& os.len() == insts.len()
                        &&& forall|j: int|
                            0 <= j < insts.len() ==> #[trigger] M::update_rel(
                                insts[j],
                                d,
                                mids[j],
                                os[j],
                            )
                        &&& outs[0] == join_all(os)
                        &&& rstream_multi_rel(proto, mids, strm.skip(1), mid_insts, outs.skip(1))
                    };
                lemma_rstream_multi_rel_push(
                    proto,
                    mids,
                    strm.skip(1),
                    mid_insts,
                    outs.skip(1),
                    x,
                    post_insts,
                    o,
                );
            },
        }
    }
}

/// Process an input stream with restart events by spawning a fresh
/// instance per restart: each item is fed to every live instance and the
/// outputs are joined, in deterministic left-to-right instance order.
/// The prototype itself is never driven; it only provides the initial
/// state for spawned instances.  This is used as the oracle for the
/// restartability check.
pub fn process_rstream_multi<I: Copy, D: Copy, O, M: Transducer<I, D, O>>(
    proto: &M,
    strm: &Vec<RInput<I, D>>,
) -> (outs: Vec<Ext<O>>)
    requires
        proto.inv(),
    ensures
        exists|post_insts: Seq<M>|
            #[trigger] rstream_multi_rel(*proto, Seq::empty(), strm@, post_insts, outs@),
{
    let mut transducers: Vec<M> = Vec::new();
    let mut outs: Vec<Ext<O>> = Vec::new();
    let mut k: usize = 0;
    while k < strm.len()
        invariant
            proto.inv(),
            k <= strm.len(),
            outs@.len() == k,
            forall|j: int| 0 <= j < transducers@.len() ==> (#[trigger] transducers@[j]).inv(),
            rstream_multi_rel(*proto, Seq::empty(), strm@.take(k as int), transducers@, outs@),
        decreases strm.len() - k,
    {
        let ghost insts_mid = transducers@;
        let ghost outs_prev = outs@;
        let x = strm[k];
        match x {
            RInput::Restart(i) => {
                let mut t = proto.spawn_empty();
                let o = t.init(Ext::One(i));
                transducers.push(t);
                outs.push(o);
                proof {
                    lemma_rstream_multi_rel_push(
                        *proto,
                        Seq::empty(),
                        strm@.take(k as int),
                        insts_mid,
                        outs_prev,
                        x,
                        transducers@,
                        o,
                    );
                    assert(strm@.take(k + 1) =~= strm@.take(k as int).push(strm@[k as int]));
                }
            },
            RInput::Item(d) => {
                let ghost insts0 = transducers@;
                let ghost mut os = Seq::<Ext<O>>::empty();
                let mut acc: Ext<O> = Ext::Zero;
                let n = transducers.len();
                let mut j: usize = 0;
                while j < n
                    invariant
                        j <= n,
                        n == transducers@.len(),
                        insts0.len() == n,
                        os.len() == j,
                        forall|jj: int|
                            0 <= jj < transducers@.len() ==> (#[trigger] transducers@[jj]).inv(),
                        forall|jj: int| j <= jj < n ==> transducers@[jj] == insts0[jj],
                        forall|jj: int|
                            0 <= jj < j ==> #[trigger] M::update_rel(
                                insts0[jj],
                                d,
                                transducers@[jj],
                                os[jj],
                            ),
                        acc == join_all(os),
                    decreases n - j,
                {
                    let ghost os_prev = os;
                    let o = transducers[j].update(&d);
                    proof {
                        os = os.push(o);
                        assert(os.drop_last() =~= os_prev);
                        assert(os.last() == o);
                    }
                    acc = acc.add(o);
                    j += 1;
                }
                outs.push(acc);
                proof {
                    lemma_rstream_multi_rel_push(
                        *proto,
                        Seq::empty(),
                        strm@.take(k as int),
                        insts_mid,
                        outs_prev,
                        x,
                        transducers@,
                        acc,
                    );
                    assert(strm@.take(k + 1) =~= strm@.take(k as int).push(strm@[k as int]));
                }
            },
        }
        k += 1;
    }
    proof {
        assert(strm@.take(strm@.len() as int) =~= strm@);
    }
    outs
}

/// Whether two extended values agree, comparing `One` contents through the
/// element type's equality.
pub open spec fn ext_eq_spec<T: PartialEq>(a: Ext<T>, b: Ext<T>) -> bool {
    match (a, b) {
        (Ext::Zero, Ext::Zero) => true,
        (Ext::Many, Ext::Many) => true,
        (Ext::One(x), Ext::One(y)) => x.eq_spec(&y),
        _ => false,
    }
}

/// Pointwise agreement of two output sequences.
pub open spec fn ext_seq_eq_spec<T: PartialEq>(a: Seq<Ext<T>>, b: Seq<Ext<T>>) -> bool {
    a.len() == b.len() && forall|j: int| 0 <= j < a.len() ==> #[trigger] ext_eq_spec(a[j], b[j])
}

fn ext_eq<T: PartialEq>(a: &Ext<T>, b: &Ext<T>) -> (r: bool)
    ensures
        T::obeys_eq_spec() ==> r == ext_eq_spec(*a, *b),
{
    match (a, b) {
        (Ext::Zero, Ext::Zero) => true,
        (Ext::Many, Ext::Many) => true,
        (Ext::One(x), Ext::One(y)) => x == y,
        _ => false,
    }
}

/// The restartability check on one given input stream: compare, entry for
/// entry, the single-instance and multi-instance strategies on the same
/// restart-augmented stream.  The result is the pointwise agreement of the
/// two runs the call performed.
pub fn restartability_holds_for<I: Copy, D: Copy, O: PartialEq, M: Transducer<I, D, O>>(
    m: &M,
    strm: &Vec<RInput<I, D>>,
) -> (r: bool)
    requires
        m.inv(),
    ensures
        exists|mfin: M, v1: Seq<Ext<O>>, post_insts: Seq<M>, v2: Seq<Ext<O>>|
            #![trigger rstream_single_rel(m.resetted(), strm@, mfin, v1), rstream_multi_rel(*m, Seq::empty(), strm@, post_insts, v2)]
            {
                &&& rstream_single_rel(m.resetted(), strm@, mfin, v1)
                &&& rstream_multi_rel(*m, Seq::empty(), strm@, post_insts, v2)
                &&& (O::obeys_eq_spec() ==> r == ext_seq_eq_spec(v1, v2))
            },
{
    let mut m1 = m.spawn_empty();
    let single_out = process_rstream_single(&mut m1, strm);
    let multi_out = process_rstream_multi(m, strm);
    let mut r = single_out.len() == multi_out.len();
    let n = single_out.len();
    let mut j: usize = 0;
    while j < n
        invariant
            j <= n,
            n == single_out@.len(),
            r ==> n == multi_out@.len(),
            O::obeys_eq_spec() ==> (r <==> (single_out@.len() == multi_out@.len() && forall|jj: int|
                0 <= jj < j ==> #[trigger] ext_eq_spec(single_out@[jj], multi_out@[jj]))),
        decreases n - j,
    {
        if r {
            let e = ext_eq(&single_out[j], &multi_out[j]);
            r = r && e;
        }
        j += 1;
    }
    r
}

/// The restartability property itself: a computation is restartable when,
/// over every restart-augmented stream, one long-lived instance produces
/// pointwise the same outputs as the multi-instance strategy that spawns
/// a fresh instance per restart.
pub open spec fn restartable_prop<I, D, O, M: Transducer<I, D, O>>(m: M) -> bool {
    forall|strm: Seq<RInput<I, D>>, mfin: M, pinsts: Seq<M>, v1: Seq<Ext<O>>, v2: Seq<Ext<O>>|
        #![trigger rstream_single_rel(m.resetted(), strm, mfin, v1), rstream_multi_rel(m, Seq::empty(), strm, pinsts, v2)]
        rstream_single_rel(m.resetted(), strm, mfin, v1) && rstream_multi_rel(
            m,
            Seq::empty(),
            strm,
            pinsts,
            v2,
        ) ==> v1 == v2
}

} // verus!
