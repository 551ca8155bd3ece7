//! Combinators in the style of the QRE (quantitative regular expression)
//! language, built over streaming transducers.
//!
//! The computation is built at the same time as the constructs themselves:
//! every construct wraps its sub-transducers as black boxes behind the
//! `Transducer` contract, and its own contract is stated in terms of theirs.

use core::marker::PhantomData;
use vstd::prelude::*;

use crate::ext_value::{apply1_rel, Ext};
use crate::interface::Transducer;

verus! {

/// Relies on the standard library's `Clone` for `PhantomData`, which
/// returns the marker value itself; vstd does not specify it, and the
/// derived `Clone` impls of the constructs below call it for their marker
/// fields.
pub assume_specification<T: core::marker::PointeeSized>[ <PhantomData<T> as Clone>::clone ](
    p: &PhantomData<T>,
) -> (r: PhantomData<T>)
    ensures
        r == *p,
;

/*
    QRE epsilon

    Base construct which processes no data and immediately produces output.

    Derived constructs:

    - epsilon_iden
      Epsilon which is the identity function.
      This is the identity for QRE concatenation.

    - epsilon_const
      Epsilon which produces a constant output.
*/

#[verifier::reject_recursive_types(I)]
#[verifier::reject_recursive_types(O)]
#[derive(Clone)]
pub struct Epsilon<I, D, O, F> where F: Fn(I) -> O {
    action: F,
    ph: PhantomData<(I, D, O)>,
}

impl<I, D, O, F: Fn(I) -> O> Epsilon<I, D, O, F> {
    /// The action function this construct applies to its initial value.
    pub closed spec fn action_spec(&self) -> F {
        self.action
    }
}

pub fn epsilon<I, D, O, F: Fn(I) -> O + Copy>(action: F) -> (r: Epsilon<I, D, O, F>)
    requires
        forall|x: I| #[trigger] call_requires(action, (x,)),
    ensures
        r.inv(),
        r.action_spec() == action,
        r.is_epsilon_spec(),
        r.restartable_spec() == Some(true),
        r.n_states_spec() == 0,
        r.n_transs_spec() == 1,
{
    Epsilon { action, ph: PhantomData }
}

impl<I, D, O, F: Fn(I) -> O + Copy> Transducer<I, D, O> for Epsilon<I, D, O, F> {
    closed spec fn inv(&self) -> bool {
        forall|x: I| #[trigger] call_requires(self.action, (x,))
    }

    closed spec fn resetted(&self) -> Self {
        *self
    }

    closed spec fn init_rel(pre: Self, i: Ext<I>, post: Self, out: Ext<O>) -> bool {
        post == pre && apply1_rel(pre.action, i, out)
    }

    closed spec fn update_rel(pre: Self, item: D, post: Self, out: Ext<O>) -> bool {
        post == pre && out == Ext::<O>::Zero
    }

    closed spec fn is_epsilon_spec(&self) -> bool {
        true
    }

    closed spec fn restartable_spec(&self) -> Option<bool> {
        Some(true)
    }

    closed spec fn n_states_spec(&self) -> int {
        0
    }

    closed spec fn n_transs_spec(&self) -> int {
        1
    }

    fn init(&mut self, i: Ext<I>) -> (out: Ext<O>) {
        crate::ext_value::apply1(self.action, i)
    }

    fn update(&mut self, _item: &D) -> (out: Ext<O>) {
        Ext::Zero
    }

    fn reset(&mut self) {
    }

    fn spawn_empty(&self) -> (r: Self) {
        Epsilon { action: self.action, ph: PhantomData }
    }

    fn is_epsilon(&self) -> (r: bool) {
        true
    }

    fn is_restartable(&self) -> (r: Option<bool>) {
        Some(true)
    }

    fn n_states(&self) -> (r: usize) {
        // This would be 2 following the published definition, including one
        // initial and one final state; initial and final states are excluded
        // here unless they need to be saved.
        0
    }

    fn n_transs(&self) -> (r: usize) {
        // The action function is still recorded as one epsilon transition.
        1
    }

    proof fn lemma_init_zero(pre: Self, post: Self, out: Ext<O>) {
    }

    proof fn lemma_init_meta(pre: Self, i: Ext<I>, post: Self, out: Ext<O>) {
    }

    proof fn lemma_update_meta(pre: Self, item: D, post: Self, out: Ext<O>) {
    }

    proof fn lemma_reset_meta(pre: Self) {
    }
}

/*
    QRE atom

    Base construct which processes a single data item and then
    produces output only if the data item satisfies a guard.
*/

#[verifier::reject_recursive_types(I)]
#[verifier::reject_recursive_types(D)]
#[verifier::reject_recursive_types(O)]
#[derive(Clone)]
pub struct Atom<I, D, O, G, F> where G: Fn(D) -> bool, F: Fn(I, D) -> O {
    guard: G,
    action: F,
    istate: Ext<I>,
    ph: PhantomData<(D, O)>,
}

impl<I, D, O, G: Fn(D) -> bool, F: Fn(I, D) -> O> Atom<I, D, O, G, F> {
    /// The guard deciding which items this construct consumes.
    pub closed spec fn guard_spec(&self) -> G {
        self.guard
    }

    /// The action applied to the buffered initial value and the item.
    pub closed spec fn action_spec(&self) -> F {
        self.action
    }

    /// The buffered accumulation of initial values not yet consumed.
    pub closed spec fn istate_spec(&self) -> Ext<I> {
        self.istate
    }
}

pub fn atom<I, D, O, G: Fn(D) -> bool + Copy, F: Fn(I, D) -> O + Copy>(guard: G, action: F) -> (r:
    Atom<I, D, O, G, F>) where D: Copy
    requires
        forall|d: D| #[trigger] call_requires(guard, (d,)),
        forall|x: I, d: D| #[trigger] call_requires(action, (x, d)),
    ensures
        r.inv(),
        r.guard_spec() == guard,
        r.action_spec() == action,
        r.istate_spec() == Ext::<I>::Zero,
        !r.is_epsilon_spec(),
        r.restartable_spec() == Some(true),
        r.n_states_spec() == 1,
        r.n_transs_spec() == 1,
{
    Atom { guard, action, istate: Ext::Zero, ph: PhantomData }
}

impl<I, D: Copy, O, G: Fn(D) -> bool + Copy, F: Fn(I, D) -> O + Copy> Transducer<I, D, O> for Atom<
    I,
    D,
    O,
    G,
    F,
> {
    closed spec fn inv(&self) -> bool {
        &&& forall|d: D| #[trigger] call_requires(self.guard, (d,))
        &&& forall|x: I, d: D| #[trigger] call_requires(self.action, (x, d))
    }

    closed spec fn resetted(&self) -> Self {
        Atom { guard: self.guard, action: self.action, istate: Ext::Zero, ph: self.ph }
    }

    closed spec fn init_rel(pre: Self, i: Ext<I>, post: Self, out: Ext<O>) -> bool {
        &&& post == (Atom { istate: pre.istate.join(i), ..pre })
        &&& out == Ext::<O>::Zero
    }

    closed spec fn update_rel(pre: Self, item: D, post: Self, out: Ext<O>) -> bool {
        &&& post == (Atom { istate: Ext::<I>::Zero, ..pre })
        &&& exists|g: bool|
            #[trigger] call_ensures(pre.guard, (item,), g) && if g {
                match pre.istate {
                    Ext::Zero => out == Ext::<O>::Zero,
                    Ext::Many => out == Ext::<O>::Many,
                    Ext::One(x) => exists|y: O|
                        #[trigger] call_ensures(pre.action, (x, item), y) && out == Ext::One(y),
                }
            } else {
                out == Ext::<O>::Zero
            }
    }

    closed spec fn is_epsilon_spec(&self) -> bool {
        false
    }

    closed spec fn restartable_spec(&self) -> Option<bool> {
        Some(true)
    }

    closed spec fn n_states_spec(&self) -> int {
        1
    }

    closed spec fn n_transs_spec(&self) -> int {
        1
    }

    fn init(&mut self, i: Ext<I>) -> (out: Ext<O>) {
        self.istate.add_assign(i);
        Ext::Zero
    }

    fn update(&mut self, item: &D) -> (out: Ext<O>) {
        let mut istate: Ext<I> = Ext::Zero;
        core::mem::swap(&mut self.istate, &mut istate);
        if (self.guard)(*item) {
            match istate {
                Ext::Zero => Ext::Zero,
                Ext::One(x) => Ext::One((self.action)(x, *item)),
                Ext::Many => Ext::Many,
            }
        } else {
            Ext::Zero
        }
    }

    fn reset(&mut self) {
        self.istate = Ext::Zero;
    }

    fn spawn_empty(&self) -> (r: Self) {
        Atom { guard: self.guard, action: self.action, istate: Ext::Zero, ph: PhantomData }
    }

    fn is_epsilon(&self) -> (r: bool) {
        false
    }

    fn is_restartable(&self) -> (r: Option<bool>) {
        Some(true)
    }

    fn n_states(&self) -> (r: usize) {
        1
    }

    fn n_transs(&self) -> (r: usize) {
        1
    }

    proof fn lemma_init_zero(pre: Self, post: Self, out: Ext<O>) {
    }

    proof fn lemma_init_meta(pre: Self, i: Ext<I>, post: Self, out: Ext<O>) {
    }

    proof fn lemma_update_meta(pre: Self, item: D, post: Self, out: Ext<O>) {
    }

    proof fn lemma_reset_meta(pre: Self) {
    }
}

/*
    QRE union

    Processes the input stream and produces the union (join on Ext)
    of the two results.
*/

#[derive(Clone)]
pub struct Union<I, D, O, M1, M2> where M1: Transducer<I, D, O>, M2: Transducer<I, D, O> {
    m1: M1,
    m2: M2,
    ph: PhantomData<(I, D, O)>,
}

impl<I, D, O, M1: Transducer<I, D, O>, M2: Transducer<I, D, O>> Union<I, D, O, M1, M2> {
    /// The first sub-transducer.
    pub closed spec fn m1_spec(&self) -> M1 {
        self.m1
    }

    /// The second sub-transducer.
    pub closed spec fn m2_spec(&self) -> M2 {
        self.m2
    }
}

pub fn union<I: Copy, D, O, M1: Transducer<I, D, O>, M2: Transducer<I, D, O>>(m1: M1, m2: M2) -> (
    r: Union<I, D, O, M1, M2>)
    requires
        m1.inv(),
        m2.inv(),
        m1.n_states_spec() + m2.n_states_spec() <= usize::MAX,
        m1.n_transs_spec() + m2.n_transs_spec() <= usize::MAX,
    ensures
        r.inv(),
        r.m1_spec() == m1,
        r.m2_spec() == m2,
        r.is_epsilon_spec() == (m1.is_epsilon_spec() && m2.is_epsilon_spec()),
        r.restartable_spec() == crate::interface::opt_and_spec(
            m1.restartable_spec(),
            m2.restartable_spec(),
        ),
        r.n_states_spec() == m1.n_states_spec() + m2.n_states_spec(),
        r.n_transs_spec() == m1.n_transs_spec() + m2.n_transs_spec(),
{
    Union { m1, m2, ph: PhantomData }
}

impl<I: Copy, D, O, M1: Transducer<I, D, O>, M2: Transducer<I, D, O>> Transducer<I, D, O> for Union<
    I,
    D,
    O,
    M1,
    M2,
> {
    closed spec fn inv(&self) -> bool {
        &&& self.m1.inv()
        &&& self.m2.inv()
        &&& self.m1.n_states_spec() + self.m2.n_states_spec() <= usize::MAX
        &&& self.m1.n_transs_spec() + self.m2.n_transs_spec() <= usize::MAX
    }

    closed spec fn resetted(&self) -> Self {
        Union { m1: self.m1.resetted(), m2: self.m2.resetted(), ph: self.ph }
    }

    closed spec fn init_rel(pre: Self, i: Ext<I>, post: Self, out: Ext<O>) -> bool {
        &&& post.ph == pre.ph
        &&& exists|o1: Ext<O>, o2: Ext<O>|
            #![trigger M1::init_rel(pre.m1, i, post.m1, o1), M2::init_rel(pre.m2, i, post.m2, o2)]
            M1::init_rel(pre.m1, i, post.m1, o1) && M2::init_rel(pre.m2, i, post.m2, o2) && out
                == o1.join(o2)
    }

    closed spec fn update_rel(pre: Self, item: D, post: Self, out: Ext<O>) -> bool {
        &&& post.ph == pre.ph
        &&& exists|o1: Ext<O>, o2: Ext<O>|
            #![trigger M1::update_rel(pre.m1, item, post.m1, o1), M2::update_rel(pre.m2, item, post.m2, o2)]
            M1::update_rel(pre.m1, item, post.m1, o1) && M2::update_rel(pre.m2, item, post.m2, o2)
                && out == o1.join(o2)
    }

    closed spec fn is_epsilon_spec(&self) -> bool {
        self.m1.is_epsilon_spec() && self.m2.is_epsilon_spec()
    }

    closed spec fn restartable_spec(&self) -> Option<bool> {
        crate::interface::opt_and_spec(self.m1.restartable_spec(), self.m2.restartable_spec())
    }

    closed spec fn n_states_spec(&self) -> int {
        self.m1.n_states_spec() + self.m2.n_states_spec()
    }

    closed spec fn n_transs_spec(&self) -> int {
        self.m1.n_transs_spec() + self.m2.n_transs_spec()
    }

    fn init(&mut self, i: Ext<I>) -> (out: Ext<O>) {
        let i2 = i;
        let o1 = self.m1.init(i);
        let o2 = self.m2.init(i2);
        proof {
            M1::lemma_init_meta(old(self).m1, i, self.m1, o1);
            M2::lemma_init_meta(old(self).m2, i, self.m2, o2);
        }
        o1.add(o2)
    }

    fn update(&mut self, item: &D) -> (out: Ext<O>) {
        let o1 = self.m1.update(item);
        let o2 = self.m2.update(item);
        proof {
            M1::lemma_update_meta(old(self).m1, *item, self.m1, o1);
            M2::lemma_update_meta(old(self).m2, *item, self.m2, o2);
        }
        o1.add(o2)
    }

    fn reset(&mut self) {
        self.m1.reset();
        self.m2.reset();
        proof {
            M1::lemma_reset_meta(old(self).m1);
            M2::lemma_reset_meta(old(self).m2);
        }
    }

    fn spawn_empty(&self) -> (r: Self) {
        let r = Union { m1: self.m1.spawn_empty(), m2: self.m2.spawn_empty(), ph: PhantomData };
        proof {
            M1::lemma_reset_meta(self.m1);
            M2::lemma_reset_meta(self.m2);
        }
        r
    }

    fn is_epsilon(&self) -> (r: bool) {
        self.m1.is_epsilon() && self.m2.is_epsilon()
    }

    fn is_restartable(&self) -> (r: Option<bool>) {
        crate::interface::opt_and(self.m1.is_restartable(), self.m2.is_restartable())
    }

    fn n_states(&self) -> (r: usize) {
        self.m1.n_states() + self.m2.n_states()
    }

    fn n_transs(&self) -> (r: usize) {
        self.m1.n_transs() + self.m2.n_transs()
    }

    proof fn lemma_init_zero(pre: Self, post: Self, out: Ext<O>) {
        let (o1, o2) = choose|o1: Ext<O>, o2: Ext<O>|
            M1::init_rel(pre.m1, Ext::Zero, post.m1, o1) && M2::init_rel(
                pre.m2,
                Ext::Zero,
                post.m2,
                o2,
            ) && out == o1.join(o2);
        M1::lemma_init_zero(pre.m1, post.m1, o1);
        M2::lemma_init_zero(pre.m2, post.m2, o2);
    }

    proof fn lemma_init_meta(pre: Self, i: Ext<I>, post: Self, out: Ext<O>) {
        let (o1, o2) = choose|o1: Ext<O>, o2: Ext<O>|
            M1::init_rel(pre.m1, i, post.m1, o1) && M2::init_rel(pre.m2, i, post.m2, o2) && out
                == o1.join(o2);
        M1::lemma_init_meta(pre.m1, i, post.m1, o1);
        M2::lemma_init_meta(pre.m2, i, post.m2, o2);
    }

    proof fn lemma_update_meta(pre: Self, item: D, post: Self, out: Ext<O>) {
        let (o1, o2) = choose|o1: Ext<O>, o2: Ext<O>|
            M1::update_rel(pre.m1, item, post.m1, o1) && M2::update_rel(pre.m2, item, post.m2, o2)
                && out == o1.join(o2);
        M1::lemma_update_meta(pre.m1, item, post.m1, o1);
        M2::lemma_update_meta(pre.m2, item, post.m2, o2);
    }

    proof fn lemma_reset_meta(pre: Self) {
        M1::lemma_reset_meta(pre.m1);
        M2::lemma_reset_meta(pre.m2);
    }
}

/*
    QRE parallel composition

    Processes the input stream and produces an ordered pair
    of the two results.
*/

#[derive(Clone)]
pub struct ParComp<I, D, O1, O2, M1, M2> where M1: Transducer<I, D, O1>, M2: Transducer<I, D, O2> {
    m1: M1,
    m2: M2,
    ph: PhantomData<(I, D, O1, O2)>,
}

impl<I, D, O1, O2, M1: Transducer<I, D, O1>, M2: Transducer<I, D, O2>> ParComp<
    I,
    D,
    O1,
    O2,
    M1,
    M2,
> {
    /// The first sub-transducer.
    pub closed spec fn m1_spec(&self) -> M1 {
        self.m1
    }

    /// The second sub-transducer.
    pub closed spec fn m2_spec(&self) -> M2 {
        self.m2
    }
}

pub fn parcomp<I: Copy, D, O1, O2, M1: Transducer<I, D, O1>, M2: Transducer<I, D, O2>>(
    m1: M1,
    m2: M2,
) -> (r: ParComp<I, D, O1, O2, M1, M2>)
    requires
        m1.inv(),
        m2.inv(),
        m1.n_states_spec() + m2.n_states_spec() <= usize::MAX,
        m1.n_transs_spec() + m2.n_transs_spec() <= usize::MAX,
    ensures
        r.inv(),
        r.m1_spec() == m1,
        r.m2_spec() == m2,
        r.is_epsilon_spec() == (m1.is_epsilon_spec() && m2.is_epsilon_spec()),
        r.restartable_spec() == None::<bool>,
        r.n_states_spec() == m1.n_states_spec() + m2.n_states_spec(),
        r.n_transs_spec() == m1.n_transs_spec() + m2.n_transs_spec(),
{
    ParComp { m1, m2, ph: PhantomData }
}

impl<I: Copy, D, O1, O2, M1: Transducer<I, D, O1>, M2: Transducer<I, D, O2>> Transducer<
    I,
    D,
    (O1, O2),
> for ParComp<I, D, O1, O2, M1, M2> {
    closed spec fn inv(&self) -> bool {
        &&& self.m1.inv()
        &&& self.m2.inv()
        &&& self.m1.n_states_spec() + self.m2.n_states_spec() <= usize::MAX
        &&& self.m1.n_transs_spec() + self.m2.n_transs_spec() <= usize::MAX
    }

    closed spec fn resetted(&self) -> Self {
        ParComp { m1: self.m1.resetted(), m2: self.m2.resetted(), ph: self.ph }
    }

    closed spec fn init_rel(pre: Self, i: Ext<I>, post: Self, out: Ext<(O1, O2)>) -> bool {
        &&& post.ph == pre.ph
        &&& exists|o1: Ext<O1>, o2: Ext<O2>|
            #![trigger M1::init_rel(pre.m1, i, post.m1, o1), M2::init_rel(pre.m2, i, post.m2, o2)]
            M1::init_rel(pre.m1, i, post.m1, o1) && M2::init_rel(pre.m2, i, post.m2, o2) && out
                == o1.prod(o2)
    }

    closed spec fn update_rel(pre: Self, item: D, post: Self, out: Ext<(O1, O2)>) -> bool {
        &&& post.ph == pre.ph
        &&& exists|o1: Ext<O1>, o2: Ext<O2>|
            #![trigger M1::update_rel(pre.m1, item, post.m1, o1), M2::update_rel(pre.m2, item, post.m2, o2)]
            M1::update_rel(pre.m1, item, post.m1, o1) && M2::update_rel(pre.m2, item, post.m2, o2)
                && out == o1.prod(o2)
    }

    closed spec fn is_epsilon_spec(&self) -> bool {
        self.m1.is_epsilon_spec() && self.m2.is_epsilon_spec()
    }

    closed spec fn restartable_spec(&self) -> Option<bool> {
        // Deciding this would require checking that the languages of the two
        // sub-transducers agree, which the library does not compute.
        None
    }

    closed spec fn n_states_spec(&self) -> int {
        self.m1.n_states_spec() + self.m2.n_states_spec()
    }

    closed spec fn n_transs_spec(&self) -> int {
        self.m1.n_transs_spec() + self.m2.n_transs_spec()
    }

    fn init(&mut self, i: Ext<I>) -> (out: Ext<(O1, O2)>) {
        let i2 = i;
        let o1 = self.m1.init(i);
        let o2 = self.m2.init(i2);
        proof {
            M1::lemma_init_meta(old(self).m1, i, self.m1, o1);
            M2::lemma_init_meta(old(self).m2, i, self.m2, o2);
        }
        o1.mul(o2)
    }

    fn update(&mut self, item: &D) -> (out: Ext<(O1, O2)>) {
        let o1 = self.m1.update(item);
        let o2 = self.m2.update(item);
        proof {
            M1::lemma_update_meta(old(self).m1, *item, self.m1, o1);
            M2::lemma_update_meta(old(self).m2, *item, self.m2, o2);
        }
        o1.mul(o2)
    }

    fn reset(&mut self) {
        self.m1.reset();
        self.m2.reset();
        proof {
            M1::lemma_reset_meta(old(self).m1);
            M2::lemma_reset_meta(old(self).m2);
        }
    }

    fn spawn_empty(&self) -> (r: Self) {
        let r = ParComp { m1: self.m1.spawn_empty(), m2: self.m2.spawn_empty(), ph: PhantomData };
        proof {
            M1::lemma_reset_meta(self.m1);
            M2::lemma_reset_meta(self.m2);
        }
        r
    }

    fn is_epsilon(&self) -> (r: bool) {
        self.m1.is_epsilon() && self.m2.is_epsilon()
    }

    fn is_restartable(&self) -> (r: Option<bool>) {
        None
    }

    fn n_states(&self) -> (r: usize) {
        self.m1.n_states() + self.m2.n_states()
    }

    fn n_transs(&self) -> (r: usize) {
        self.m1.n_transs() + self.m2.n_transs()
    }

    proof fn lemma_init_zero(pre: Self, post: Self, out: Ext<(O1, O2)>) {
        let (o1, o2) = choose|o1: Ext<O1>, o2: Ext<O2>|
            M1::init_rel(pre.m1, Ext::Zero, post.m1, o1) && M2::init_rel(
                pre.m2,
                Ext::Zero,
                post.m2,
                o2,
            ) && out == o1.prod(o2);
        M1::lemma_init_zero(pre.m1, post.m1, o1);
        M2::lemma_init_zero(pre.m2, post.m2, o2);
    }

    proof fn lemma_init_meta(pre: Self, i: Ext<I>, post: Self, out: Ext<(O1, O2)>) {
        let (o1, o2) = choose|o1: Ext<O1>, o2: Ext<O2>|
            M1::init_rel(pre.m1, i, post.m1, o1) && M2::init_rel(pre.m2, i, post.m2, o2) && out
                == o1.prod(o2);
        M1::lemma_init_meta(pre.m1, i, post.m1, o1);
        M2::lemma_init_meta(pre.m2, i, post.m2, o2);
    }

    proof fn lemma_update_meta(pre: Self, item: D, post: Self, out: Ext<(O1, O2)>) {
        let (o1, o2) = choose|o1: Ext<O1>, o2: Ext<O2>|
            M1::update_rel(pre.m1, item, post.m1, o1) && M2::update_rel(pre.m2, item, post.m2, o2)
                && out == o1.prod(o2);
        M1::lemma_update_meta(pre.m1, item, post.m1, o1);
        M2::lemma_update_meta(pre.m2, item, post.m2, o2);
    }

    proof fn lemma_reset_meta(pre: Self) {
        M1::lemma_reset_meta(pre.m1);
        M2::lemma_reset_meta(pre.m2);
    }
}

/*
    QRE concat

    Processes the input stream w and splits it into w = uv where u matches
    the first transducer and v matches the second transducer; feeds the
    output of the first as the input of the second.  If there are multiple
    matches the results collapse through the join.

    Here X is the initial-input type, Z the output type, and Y the
    intermediate type passed from the first transducer to the second.

    This and iteration are the constructs where restartability of a
    sub-transducer is a requirement for the construction.
*/

#[derive(Clone)]
pub struct Concat<D, X, Y, Z, M1, M2> where M1: Transducer<X, D, Y>, M2: Transducer<Y, D, Z> {
    m1: M1,
    m2: M2,
    ph: PhantomData<(D, X, Y, Z)>,
}

impl<D, X, Y, Z, M1: Transducer<X, D, Y>, M2: Transducer<Y, D, Z>> Concat<D, X, Y, Z, M1, M2> {
    /// The first sub-transducer.
    pub closed spec fn m1_spec(&self) -> M1 {
        self.m1
    }

    /// The second sub-transducer.
    pub closed spec fn m2_spec(&self) -> M2 {
        self.m2
    }
}

/// Requirement: `m2` must be restartable, or `m1` must be an epsilon.
pub fn concat<D, X, Y, Z, M1: Transducer<X, D, Y>, M2: Transducer<Y, D, Z>>(m1: M1, m2: M2) -> (r:
    Concat<D, X, Y, Z, M1, M2>)
    requires
        m1.inv(),
        m2.inv(),
        m1.n_states_spec() + m2.n_states_spec() <= usize::MAX,
        m1.n_transs_spec() + m2.n_transs_spec() <= usize::MAX,
        m2.restartable_spec() == Some(true) || m1.is_epsilon_spec(),
    ensures
        r.inv(),
        r.m1_spec() == m1,
        r.m2_spec() == m2,
        r.is_epsilon_spec() == (m1.is_epsilon_spec() && m2.is_epsilon_spec()),
        r.restartable_spec() == crate::interface::opt_and_spec(
            m1.restartable_spec(),
            m2.restartable_spec(),
        ),
        r.n_states_spec() == m1.n_states_spec() + m2.n_states_spec(),
        r.n_transs_spec() == m1.n_transs_spec() + m2.n_transs_spec(),
{
    Concat { m1, m2, ph: PhantomData }
}

impl<D, X, Y, Z, M1: Transducer<X, D, Y>, M2: Transducer<Y, D, Z>> Transducer<X, D, Z> for Concat<
    D,
    X,
    Y,
    Z,
    M1,
    M2,
> {
    closed spec fn inv(&self) -> bool {
        &&& self.m1.inv()
        &&& self.m2.inv()
        &&& self.m1.n_states_spec() + self.m2.n_states_spec() <= usize::MAX
        &&& self.m1.n_transs_spec() + self.m2.n_transs_spec() <= usize::MAX
        &&& self.m2.restartable_spec() == Some(true) || self.m1.is_epsilon_spec()
    }

    closed spec fn resetted(&self) -> Self {
        Concat { m1: self.m1.resetted(), m2: self.m2.resetted(), ph: self.ph }
    }

    closed spec fn init_rel(pre: Self, i: Ext<X>, post: Self, out: Ext<Z>) -> bool {
        &&& post.ph == pre.ph
        &&& exists|y: Ext<Y>|
            #![trigger M1::init_rel(pre.m1, i, post.m1, y)]
            M1::init_rel(pre.m1, i, post.m1, y) && M2::init_rel(pre.m2, y, post.m2, out)
    }

    closed spec fn update_rel(pre: Self, item: D, post: Self, out: Ext<Z>) -> bool {
        &&& post.ph == pre.ph
        &&& exists|y: Ext<Y>, z1: Ext<Z>, z2: Ext<Z>, m2mid: M2|
            #![trigger M1::update_rel(pre.m1, item, post.m1, y), M2::update_rel(pre.m2, item, m2mid, z1), M2::init_rel(m2mid, y, post.m2, z2)]
            M1::update_rel(pre.m1, item, post.m1, y) && M2::update_rel(pre.m2, item, m2mid, z1)
                && M2::init_rel(m2mid, y, post.m2, z2) && out == z1.join(z2)
    }

    closed spec fn is_epsilon_spec(&self) -> bool {
        // Concatenation of two epsilons is an epsilon: on an update, the
        // first produces `Zero`, and feeding `Zero` into the second has no
        // effect by the init-zero law that holds for every transducer.
        self.m1.is_epsilon_spec() && self.m2.is_epsilon_spec()
    }

    closed spec fn restartable_spec(&self) -> Option<bool> {
        // On construction m2 was restartable or m1 was an epsilon.  In the
        // first case restartability needs m1 restartable; in the second it
        // needs m2 restartable.  Either way this is the conjunction, since
        // an epsilon is always restartable.
        crate::interface::opt_and_spec(self.m1.restartable_spec(), self.m2.restartable_spec())
    }

    closed spec fn n_states_spec(&self) -> int {
        self.m1.n_states_spec() + self.m2.n_states_spec()
    }

    closed spec fn n_transs_spec(&self) -> int {
        self.m1.n_transs_spec() + self.m2.n_transs_spec()
    }

    fn init(&mut self, i: Ext<X>) -> (out: Ext<Z>) {
        let y = self.m1.init(i);
        let out = self.m2.init(y);
        proof {
            M1::lemma_init_meta(old(self).m1, i, self.m1, y);
            M2::lemma_init_meta(old(self).m2, y, self.m2, out);
        }
        out
    }

    fn update(&mut self, item: &D) -> (out: Ext<Z>) {
        let y = self.m1.update(item);
        let z1 = self.m2.update(item);
        let ghost m2mid = self.m2;
        let z2 = self.m2.init(y);
        proof {
            M1::lemma_update_meta(old(self).m1, *item, self.m1, y);
            M2::lemma_update_meta(old(self).m2, *item, m2mid, z1);
            M2::lemma_init_meta(m2mid, y, self.m2, z2);
        }
        z1.add(z2)
    }

    fn reset(&mut self) {
        self.m1.reset();
        self.m2.reset();
        proof {
            M1::lemma_reset_meta(old(self).m1);
            M2::lemma_reset_meta(old(self).m2);
        }
    }

    fn spawn_empty(&self) -> (r: Self) {
        let r = Concat { m1: self.m1.spawn_empty(), m2: self.m2.spawn_empty(), ph: PhantomData };
        proof {
            M1::lemma_reset_meta(self.m1);
            M2::lemma_reset_meta(self.m2);
        }
        r
    }

    fn is_epsilon(&self) -> (r: bool) {
        self.m1.is_epsilon() && self.m2.is_epsilon()
    }

    fn is_restartable(&self) -> (r: Option<bool>) {
        crate::interface::opt_and(self.m1.is_restartable(), self.m2.is_restartable())
    }

    fn n_states(&self) -> (r: usize) {
        self.m1.n_states() + self.m2.n_states()
    }

    fn n_transs(&self) -> (r: usize) {
        self.m1.n_transs() + self.m2.n_transs()
    }

    proof fn lemma_init_zero(pre: Self, post: Self, out: Ext<Z>) {
        let y = choose|y: Ext<Y>|
            M1::init_rel(pre.m1, Ext::Zero, post.m1, y) && M2::init_rel(pre.m2, y, post.m2, out);
        M1::lemma_init_zero(pre.m1, post.m1, y);
        M2::lemma_init_zero(pre.m2, post.m2, out);
    }

    proof fn lemma_init_meta(pre: Self, i: Ext<X>, post: Self, out: Ext<Z>) {
        let y = choose|y: Ext<Y>|
            M1::init_rel(pre.m1, i, post.m1, y) && M2::init_rel(pre.m2, y, post.m2, out);
        M1::lemma_init_meta(pre.m1, i, post.m1, y);
        M2::lemma_init_meta(pre.m2, y, post.m2, out);
    }

    proof fn lemma_update_meta(pre: Self, item: D, post: Self, out: Ext<Z>) {
        let (y, z1, z2, m2mid) = choose|y: Ext<Y>, z1: Ext<Z>, z2: Ext<Z>, m2mid: M2|
            M1::update_rel(pre.m1, item, post.m1, y) && M2::update_rel(pre.m2, item, m2mid, z1)
                && M2::init_rel(m2mid, y, post.m2, z2) && out == z1.join(z2);
        M1::lemma_update_meta(pre.m1, item, post.m1, y);
        M2::lemma_update_meta(pre.m2, item, m2mid, z1);
        M2::lemma_init_meta(m2mid, y, post.m2, z2);
    }

    proof fn lemma_reset_meta(pre: Self) {
        M1::lemma_reset_meta(pre.m1);
        M2::lemma_reset_meta(pre.m2);
    }
}

/*
    QRE iteration

    Parse the input stream as a sequence of matches, and apply the
    sub-transducer to each match.

    Like concatenation this is a construction that requires restartability.
    Additionally, iteration is the only construct where the update logic
    involves a feedback loop: the result of an update feeds back in as a
    fresh initial value.
*/

#[derive(Clone)]
pub struct Iterate<X, D, M> where M: Transducer<X, D, X> {
    m: M,
    // Tracks the accumulation of values fed into m's initial channel.
    istate: Ext<()>,
    // Some(true) if m produced output in response to an initial value (the
    // degenerate case), Some(false) if it does not produce such output, None
    // if this is not known yet.  Once determined, the answer never changes;
    // this is sound because the behavior of the initial channel is
    // independent of the context, by the requirement that m is restartable.
    loopy: Option<bool>,
    ph: PhantomData<(X, D)>,
}

impl<X, D, M: Transducer<X, D, X>> Iterate<X, D, M> {
    /// The iterated sub-transducer.
    pub closed spec fn m_spec(&self) -> M {
        self.m
    }

    /// The accumulation of values fed into the sub-transducer's initial
    /// channel since the last item.
    pub closed spec fn istate_spec(&self) -> Ext<()> {
        self.istate
    }

    /// What is known about the sub-transducer producing output directly in
    /// response to an initial value.
    pub closed spec fn loopy_spec(&self) -> Option<bool> {
        self.loopy
    }
}

/// Exactly how iteration responds to an initial value.  In the case where
/// loopiness is discovered on this very call, the step re-enters itself once
/// with the knowledge recorded, which is what the decrease measure counts.
spec fn iterate_init_rel<X, D, M: Transducer<X, D, X>>(
    pre: Iterate<X, D, M>,
    i: Ext<X>,
    post: Iterate<X, D, M>,
    out: Ext<X>,
) -> bool
    decreases (if pre.loopy is None { 1int } else { 0int }),
{
    if i is Zero {
        post == pre && out == Ext::<X>::Zero
    } else {
        match pre.loopy {
            Some(true) => {
                if pre.istate is Many {
                    post == pre && out == Ext::<X>::Many
                } else {
                    exists|m1: M, o1: Ext<X>|
                        #[trigger] M::init_rel(pre.m, Ext::Many, m1, o1) && post == (Iterate {
                            m: m1,
                            istate: Ext::Many,
                            loopy: Some(true),
                            ph: pre.ph,
                        }) && out == Ext::<X>::Many
                }
            },
            Some(false) => {
                if pre.istate is Many {
                    post == pre && out == i
                } else {
                    exists|m1: M, o1: Ext<X>|
                        #[trigger] M::init_rel(pre.m, i, m1, o1) && post == (Iterate {
                            m: m1,
                            istate: pre.istate.join(i.unit()),
                            loopy: Some(false),
                            ph: pre.ph,
                        }) && out == i
                }
            },
            None => {
                exists|m1: M, o1: Ext<X>|
                    #[trigger] M::init_rel(pre.m, i, m1, o1) && if o1 is Zero {
                        post == (Iterate { m: m1, istate: i.unit(), loopy: Some(false), ph: pre.ph })
                            && out == i
                    } else {
                        iterate_init_rel(
                            (Iterate { m: m1, istate: i.unit(), loopy: Some(true), ph: pre.ph }),
                            o1,
                            post,
                            out,
                        )
                    }
            },
        }
    }
}

/// An initial step of iteration preserves the sub-transducer's
/// well-formedness and static metadata.
proof fn lemma_iterate_init_meta<X, D, M: Transducer<X, D, X>>(
    pre: Iterate<X, D, M>,
    i: Ext<X>,
    post: Iterate<X, D, M>,
    out: Ext<X>,
)
    requires
        pre.m.inv(),
        iterate_init_rel(pre, i, post, out),
    ensures
        post.m.inv(),
        post.loopy is Some || post.loopy == pre.loopy,
        post.m.is_epsilon_spec() == pre.m.is_epsilon_spec(),
        post.m.restartable_spec() == pre.m.restartable_spec(),
        post.m.n_states_spec() == pre.m.n_states_spec(),
        post.m.n_transs_spec() == pre.m.n_transs_spec(),
    decreases (if pre.loopy is None { 1int } else { 0int }),
{
    if i is Zero {
    } else {
        match pre.loopy {
            Some(true) => {
                if pre.istate is Many {
                } else {
                    let (m1, o1) = choose|m1: M, o1: Ext<X>|
                        M::init_rel(pre.m, Ext::Many, m1, o1) && post == (Iterate {
                            m: m1,
                            istate: Ext::<()>::Many,
                            loopy: Some(true),
                            ph: pre.ph,
                        }) && out == Ext::<X>::Many;
                    M::lemma_init_meta(pre.m, Ext::Many, m1, o1);
                }
            },
            Some(false) => {
                if pre.istate is Many {
                } else {
                    let (m1, o1) = choose|m1: M, o1: Ext<X>|
                        M::init_rel(pre.m, i, m1, o1) && post == (Iterate {
                            m: m1,
                            istate: pre.istate.join(i.unit()),
                            loopy: Some(false),
                            ph: pre.ph,
                        }) && out == i;
                    M::lemma_init_meta(pre.m, i, m1, o1);
                }
            },
            None => {
                let (m1, o1) = choose|m1: M, o1: Ext<X>|
                    M::init_rel(pre.m, i, m1, o1) && if o1 is Zero {
                        post == (Iterate { m: m1, istate: i.unit(), loopy: Some(false), ph: pre.ph })
                            && out == i
                    } else {
                        iterate_init_rel(
                            (Iterate { m: m1, istate: i.unit(), loopy: Some(true), ph: pre.ph }),
                            o1,
                            post,
                            out,
                        )
                    };
                M::lemma_init_meta(pre.m, i, m1, o1);
                if o1 is Zero {
                } else {
                    lemma_iterate_init_meta(
                        (Iterate { m: m1, istate: i.unit(), loopy: Some(true), ph: pre.ph }),
                        o1,
                        post,
                        out,
                    );
                }
            },
        }
    }
}

/// Requirement: `m` must be restartable.
pub fn iterate<X: Copy, D, M: Transducer<X, D, X>>(m: M) -> (r: Iterate<X, D, M>)
    requires
        m.inv(),
        m.restartable_spec() == Some(true),
        m.n_states_spec() + 1 <= usize::MAX,
    ensures
        r.inv(),
        r.m_spec() == m,
        r.istate_spec() == Ext::<()>::Zero,
        r.loopy_spec() == None::<bool>,
        r.is_epsilon_spec() == m.is_epsilon_spec(),
        r.restartable_spec() == Some(true),
        r.n_states_spec() == m.n_states_spec() + 1,
        r.n_transs_spec() == m.n_transs_spec(),
{
    Iterate { m, istate: Ext::Zero, loopy: None, ph: PhantomData }
}

impl<X: Copy, D, M: Transducer<X, D, X>> Transducer<X, D, X> for Iterate<X, D, M> {
    closed spec fn inv(&self) -> bool {
        &&& self.m.inv()
        &&& self.m.restartable_spec() == Some(true)
        &&& self.m.n_states_spec() + 1 <= usize::MAX
    }

    closed spec fn resetted(&self) -> Self {
        // loopy is deliberately kept: that knowledge remains valid.
        Iterate { m: self.m.resetted(), istate: Ext::Zero, loopy: self.loopy, ph: self.ph }
    }

    closed spec fn init_rel(pre: Self, i: Ext<X>, post: Self, out: Ext<X>) -> bool {
        iterate_init_rel(pre, i, post, out)
    }

    closed spec fn update_rel(pre: Self, item: D, post: Self, out: Ext<X>) -> bool {
        exists|mmid: M, sub_out: Ext<X>|
            #[trigger] M::update_rel(pre.m, item, mmid, sub_out) && iterate_init_rel(
                (Iterate { m: mmid, istate: Ext::Zero, loopy: pre.loopy, ph: pre.ph }),
                sub_out,
                post,
                out,
            )
    }

    closed spec fn is_epsilon_spec(&self) -> bool {
        self.m.is_epsilon_spec()
    }

    closed spec fn restartable_spec(&self) -> Option<bool> {
        // m was restartable on construction, so this always holds.
        Some(true)
    }

    closed spec fn n_states_spec(&self) -> int {
        self.m.n_states_spec() + 1
    }

    closed spec fn n_transs_spec(&self) -> int {
        self.m.n_transs_spec()
    }

    fn init(&mut self, i: Ext<X>) -> (out: Ext<X>) {
        proof {
            reveal_with_fuel(iterate_init_rel, 2);
        }
        if i.is_none() {
            return Ext::Zero;
        }
        match self.loopy {
            Some(true) => {
                if !self.istate.is_many() {
                    self.istate = Ext::Many;
                    let o1 = self.m.init(Ext::Many);
                    proof {
                        M::lemma_init_meta(old(self).m, Ext::Many, self.m, o1);
                    }
                }
                Ext::Many
            },
            Some(false) => {
                if !self.istate.is_many() {
                    let u = i.to_unit();
                    self.istate.add_assign(u);
                    let o1 = self.m.init(i);
                    proof {
                        M::lemma_init_meta(old(self).m, i, self.m, o1);
                    }
                }
                i
            },
            None => {
                self.istate = i.to_unit();
                let o1 = self.m.init(i);
                proof {
                    M::lemma_init_meta(old(self).m, i, self.m, o1);
                }
                if o1.is_none() {
                    self.loopy = Some(false);
                    i
                } else {
                    self.loopy = Some(true);
                    let ghost m1 = self.m;
                    let ghost mid = *self;
                    if !self.istate.is_many() {
                        self.istate = Ext::Many;
                        let o2 = self.m.init(Ext::Many);
                        proof {
                            M::lemma_init_meta(m1, Ext::Many, self.m, o2);
                            assert(iterate_init_rel(mid, o1, *self, Ext::<X>::Many));
                        }
                    }
                    Ext::Many
                }
            },
        }
    }

    fn update(&mut self, item: &D) -> (out: Ext<X>) {
        self.istate = Ext::Zero;
        let sub_out = self.m.update(item);
        proof {
            M::lemma_update_meta(old(self).m, *item, self.m, sub_out);
        }
        let ghost mid = *self;
        let out = self.init(sub_out);
        proof {
            lemma_iterate_init_meta(mid, sub_out, *self, out);
        }
        out
    }

    fn reset(&mut self) {
        self.m.reset();
        self.istate = Ext::Zero;
        proof {
            M::lemma_reset_meta(old(self).m);
        }
    }

    fn spawn_empty(&self) -> (r: Self) {
        let r = Iterate {
            m: self.m.spawn_empty(),
            istate: Ext::Zero,
            loopy: self.loopy,
            ph: PhantomData,
        };
        proof {
            M::lemma_reset_meta(self.m);
        }
        r
    }

    fn is_epsilon(&self) -> (r: bool) {
        self.m.is_epsilon()
    }

    fn is_restartable(&self) -> (r: Option<bool>) {
        Some(true)
    }

    fn n_states(&self) -> (r: usize) {
        self.m.n_states() + 1
    }

    fn n_transs(&self) -> (r: usize) {
        self.m.n_transs()
    }

    proof fn lemma_init_zero(pre: Self, post: Self, out: Ext<X>) {
    }

    proof fn lemma_init_meta(pre: Self, i: Ext<X>, post: Self, out: Ext<X>) {
        lemma_iterate_init_meta(pre, i, post, out);
    }

    proof fn lemma_update_meta(pre: Self, item: D, post: Self, out: Ext<X>) {
        let (mmid, sub_out) = choose|mmid: M, sub_out: Ext<X>|
            M::update_rel(pre.m, item, mmid, sub_out) && iterate_init_rel(
                (Iterate { m: mmid, istate: Ext::<()>::Zero, loopy: pre.loopy, ph: pre.ph }),
                sub_out,
                post,
                out,
            );
        M::lemma_update_meta(pre.m, item, mmid, sub_out);
        lemma_iterate_init_meta(
            (Iterate { m: mmid, istate: Ext::<()>::Zero, loopy: pre.loopy, ph: pre.ph }),
            sub_out,
            post,
            out,
        );
    }

    proof fn lemma_reset_meta(pre: Self) {
        M::lemma_reset_meta(pre.m);
    }
}

/*
    QRE aggregate (also known as "prefix sum")

    Each time the sub-transducer matches, apply a combining function to get
    the new aggregate and produce it as output.  The combining function can
    be any sequential function Z x Y -> Z; it does not need to be
    commutative or associative.

    This transducer is not restartable, because it is not in general
    possible to store the aggregates of several overlapping computations
    using a finite number of state variables.
*/

#[verifier::reject_recursive_types(Y)]
#[verifier::reject_recursive_types(Z)]
#[derive(Clone)]
pub struct Aggregate<D, X, Y, Z, M, F> where M: Transducer<X, D, Y>, F: Fn(Z, Y) -> Z {
    m: M,
    agg_fun: F,
    agg: Ext<Z>,
    ph: PhantomData<(D, X, Y)>,
}

/// What one aggregation step does: a `Zero` from the sub-transducer leaves
/// the aggregate alone and produces nothing; anything else is folded into
/// the aggregate through the combining function, and the new aggregate is
/// the output.
pub open spec fn agg_step_rel<Y, Z, F: Fn(Z, Y) -> Z>(
    agg_fun: F,
    agg0: Ext<Z>,
    y: Ext<Y>,
    agg1: Ext<Z>,
    out: Ext<Z>,
) -> bool {
    match y {
        Ext::Zero => agg1 == agg0 && out == Ext::<Z>::Zero,
        _ => {
            &&& match agg0.prod(y) {
                Ext::Zero => agg1 == Ext::<Z>::Zero,
                Ext::Many => agg1 == Ext::<Z>::Many,
                Ext::One(zy) => exists|c: Z|
                    #[trigger] call_ensures(agg_fun, (zy.0, zy.1), c) && agg1 == Ext::One(c),
            }
            &&& out == agg1
        },
    }
}

/// The first components of a split initial value (the sub-transducer's
/// initial input).
pub open spec fn split_first<X, Z>(i: Ext<(X, Z)>) -> Ext<X> {
    match i {
        Ext::Zero => Ext::Zero,
        Ext::One((x, _)) => Ext::One(x),
        Ext::Many => Ext::Many,
    }
}

/// The second components of a split initial value (the initial aggregate).
pub open spec fn split_second<X, Z>(i: Ext<(X, Z)>) -> Ext<Z> {
    match i {
        Ext::Zero => Ext::Zero,
        Ext::One((_, z)) => Ext::One(z),
        Ext::Many => Ext::Many,
    }
}

impl<D, X, Y, Z, M: Transducer<X, D, Y>, F: Fn(Z, Y) -> Z> Aggregate<D, X, Y, Z, M, F> {
    /// The sub-transducer being aggregated over.
    pub closed spec fn m_spec(&self) -> M {
        self.m
    }

    /// The combining function.
    pub closed spec fn agg_fun_spec(&self) -> F {
        self.agg_fun
    }

    /// The most recently produced aggregate.
    pub closed spec fn agg_spec(&self) -> Ext<Z> {
        self.agg
    }
}

pub fn aggregate<D, X, Y, Z: Copy, M: Transducer<X, D, Y>, F: Fn(Z, Y) -> Z + Copy>(
    m: M,
    agg_fun: F,
) -> (r: Aggregate<D, X, Y, Z, M, F>)
    requires
        m.inv(),
        m.n_states_spec() + 1 <= usize::MAX,
        m.n_transs_spec() + 1 <= usize::MAX,
        forall|z: Z, y: Y| #[trigger] call_requires(agg_fun, (z, y)),
    ensures
        r.inv(),
        r.m_spec() == m,
        r.agg_fun_spec() == agg_fun,
        r.agg_spec() == Ext::<Z>::Zero,
        r.is_epsilon_spec() == m.is_epsilon_spec(),
        r.restartable_spec() == Some(false),
        r.n_states_spec() == m.n_states_spec() + 1,
        r.n_transs_spec() == m.n_transs_spec() + 1,
{
    Aggregate { m, agg_fun, agg: Ext::Zero, ph: PhantomData }
}

impl<D, X, Y, Z: Copy, M: Transducer<X, D, Y>, F: Fn(Z, Y) -> Z + Copy> Aggregate<
    D,
    X,
    Y,
    Z,
    M,
    F,
> {
    /// Fold one batch of sub-transducer output into the running aggregate
    /// and return the new aggregate (if it changed).
    fn update_agg(&mut self, y: Ext<Y>) -> (out: Ext<Z>)
        requires
            forall|z: Z, yy: Y| #[trigger] call_requires(old(self).agg_fun_spec(), (z, yy)),
        ensures
            final(self).m_spec() == old(self).m_spec(),
            final(self).agg_fun_spec() == old(self).agg_fun_spec(),
            agg_step_rel(
                old(self).agg_fun_spec(),
                old(self).agg_spec(),
                y,
                final(self).agg_spec(),
                out,
            ),
    {
        if y.is_none() {
            Ext::Zero
        } else {
            let f = self.agg_fun;
            let tmp = self.agg;
            proof {
                assert(f == old(self).agg_fun_spec());
            }
            self.agg = crate::ext_value::apply2(f, tmp, y);
            self.agg
        }
    }
}

impl<D, X, Y, Z: Copy, M: Transducer<X, D, Y>, F: Fn(Z, Y) -> Z + Copy> Transducer<
    (X, Z),
    D,
    Z,
> for Aggregate<D, X, Y, Z, M, F> {
    closed spec fn inv(&self) -> bool {
        &&& self.m.inv()
        &&& self.m.n_states_spec() + 1 <= usize::MAX
        &&& self.m.n_transs_spec() + 1 <= usize::MAX
        &&& forall|z: Z, y: Y| #[trigger] call_requires(self.agg_fun, (z, y))
    }

    closed spec fn resetted(&self) -> Self {
        Aggregate { m: self.m.resetted(), agg_fun: self.agg_fun, agg: Ext::Zero, ph: self.ph }
    }

    closed spec fn init_rel(pre: Self, i: Ext<(X, Z)>, post: Self, out: Ext<Z>) -> bool {
        &&& post.ph == pre.ph
        &&& post.agg_fun == pre.agg_fun
        &&& exists|y: Ext<Y>|
            #![trigger M::init_rel(pre.m, split_first(i), post.m, y)]
            M::init_rel(pre.m, split_first(i), post.m, y) && agg_step_rel(
                pre.agg_fun,
                pre.agg.join(split_second(i)),
                y,
                post.agg,
                out,
            )
    }

    closed spec fn update_rel(pre: Self, item: D, post: Self, out: Ext<Z>) -> bool {
        &&& post.ph == pre.ph
        &&& post.agg_fun == pre.agg_fun
        &&& exists|y: Ext<Y>|
            #![trigger M::update_rel(pre.m, item, post.m, y)]
            M::update_rel(pre.m, item, post.m, y) && agg_step_rel(
                pre.agg_fun,
                pre.agg,
                y,
                post.agg,
                out,
            )
    }

    closed spec fn is_epsilon_spec(&self) -> bool {
        self.m.is_epsilon_spec()
    }

    closed spec fn restartable_spec(&self) -> Option<bool> {
        Some(false)
    }

    closed spec fn n_states_spec(&self) -> int {
        self.m.n_states_spec() + 1
    }

    closed spec fn n_transs_spec(&self) -> int {
        self.m.n_transs_spec() + 1
    }

    fn init(&mut self, i: Ext<(X, Z)>) -> (out: Ext<Z>) {
        let (x, z) = match i {
            Ext::Zero => (Ext::Zero, Ext::Zero),
            Ext::One((x, z)) => (Ext::One(x), Ext::One(z)),
            Ext::Many => (Ext::Many, Ext::Many),
        };
        let y = self.m.init(x);
        self.agg.add_assign(z);
        let out = self.update_agg(y);
        proof {
            M::lemma_init_meta(old(self).m, x, self.m, y);
        }
        out
    }

    fn update(&mut self, item: &D) -> (out: Ext<Z>) {
        let y = self.m.update(item);
        let out = self.update_agg(y);
        proof {
            M::lemma_update_meta(old(self).m, *item, self.m, y);
        }
        out
    }

    fn reset(&mut self) {
        self.m.reset();
        self.agg = Ext::Zero;
        proof {
            M::lemma_reset_meta(old(self).m);
        }
    }

    fn spawn_empty(&self) -> (r: Self) {
        let r = Aggregate {
            m: self.m.spawn_empty(),
            agg_fun: self.agg_fun,
            agg: Ext::Zero,
            ph: PhantomData,
        };
        proof {
            M::lemma_reset_meta(self.m);
        }
        r
    }

    fn is_epsilon(&self) -> (r: bool) {
        self.m.is_epsilon()
    }

    fn is_restartable(&self) -> (r: Option<bool>) {
        Some(false)
    }

    fn n_states(&self) -> (r: usize) {
        self.m.n_states() + 1
    }

    fn n_transs(&self) -> (r: usize) {
        self.m.n_transs() + 1
    }

    proof fn lemma_init_zero(pre: Self, post: Self, out: Ext<Z>) {
        let y = choose|y: Ext<Y>|
            M::init_rel(pre.m, split_first::<X, Z>(Ext::Zero), post.m, y) && agg_step_rel(
                pre.agg_fun,
                pre.agg.join(split_second(Ext::<(X, Z)>::Zero)),
                y,
                post.agg,
                out,
            );
        M::lemma_init_zero(pre.m, post.m, y);
    }

    proof fn lemma_init_meta(pre: Self, i: Ext<(X, Z)>, post: Self, out: Ext<Z>) {
        let y = choose|y: Ext<Y>|
            M::init_rel(pre.m, split_first(i), post.m, y) && agg_step_rel(
                pre.agg_fun,
                pre.agg.join(split_second(i)),
                y,
                post.agg,
                out,
            );
        M::lemma_init_meta(pre.m, split_first(i), post.m, y);
    }

    proof fn lemma_update_meta(pre: Self, item: D, post: Self, out: Ext<Z>) {
        let y = choose|y: Ext<Y>|
            M::update_rel(pre.m, item, post.m, y) && agg_step_rel(
                pre.agg_fun,
                pre.agg,
                y,
                post.agg,
                out,
            );
        M::lemma_update_meta(pre.m, item, post.m, y);
    }

    proof fn lemma_reset_meta(pre: Self) {
        M::lemma_reset_meta(pre.m);
    }
}

/*
    QRE transducer top-level wrapper

    Saves the number of states, number of transitions, epsilon-ness, and
    restartability of the wrapped transducer, as this is more efficient
    than recomputing them on every call.
*/

#[derive(Clone)]
pub struct TopWrapper<I, D, O, M> where M: Transducer<I, D, O> {
    m: M,
    epsilon: bool,
    restartable: Option<bool>,
    n_states: usize,
    n_transs: usize,
    ph: PhantomData<(I, D, O)>,
}

impl<I, D, O, M: Transducer<I, D, O>> TopWrapper<I, D, O, M> {
    /// The wrapped transducer.
    pub closed spec fn m_spec(&self) -> M {
        self.m
    }
}

pub fn top<I, D, O, M: Transducer<I, D, O>>(m: M) -> (r: TopWrapper<I, D, O, M>)
    requires
        m.inv(),
    ensures
        r.inv(),
        r.m_spec() == m,
        r.is_epsilon_spec() == m.is_epsilon_spec(),
        r.restartable_spec() == m.restartable_spec(),
        r.n_states_spec() == m.n_states_spec(),
        r.n_transs_spec() == m.n_transs_spec(),
{
    let epsilon = m.is_epsilon();
    let restartable = m.is_restartable();
    let n_states = m.n_states();
    let n_transs = m.n_transs();
    TopWrapper { m, epsilon, restartable, n_states, n_transs, ph: PhantomData }
}

impl<I, D, O, M: Transducer<I, D, O>> Transducer<I, D, O> for TopWrapper<I, D, O, M> {
    closed spec fn inv(&self) -> bool {
        &&& self.m.inv()
        &&& self.epsilon == self.m.is_epsilon_spec()
        &&& self.restartable == self.m.restartable_spec()
        &&& self.n_states == self.m.n_states_spec()
        &&& self.n_transs == self.m.n_transs_spec()
    }

    closed spec fn resetted(&self) -> Self {
        TopWrapper { m: self.m.resetted(), ..*self }
    }

    closed spec fn init_rel(pre: Self, i: Ext<I>, post: Self, out: Ext<O>) -> bool {
        &&& post == (TopWrapper { m: post.m, ..pre })
        &&& M::init_rel(pre.m, i, post.m, out)
    }

    closed spec fn update_rel(pre: Self, item: D, post: Self, out: Ext<O>) -> bool {
        &&& post == (TopWrapper { m: post.m, ..pre })
        &&& M::update_rel(pre.m, item, post.m, out)
    }

    closed spec fn is_epsilon_spec(&self) -> bool {
        self.m.is_epsilon_spec()
    }

    closed spec fn restartable_spec(&self) -> Option<bool> {
        self.m.restartable_spec()
    }

    closed spec fn n_states_spec(&self) -> int {
        self.m.n_states_spec()
    }

    closed spec fn n_transs_spec(&self) -> int {
        self.m.n_transs_spec()
    }

    fn init(&mut self, i: Ext<I>) -> (out: Ext<O>) {
        let out = self.m.init(i);
        proof {
            M::lemma_init_meta(old(self).m, i, self.m, out);
        }
        out
    }

    fn update(&mut self, item: &D) -> (out: Ext<O>) {
        let out = self.m.update(item);
        proof {
            M::lemma_update_meta(old(self).m, *item, self.m, out);
        }
        out
    }

    fn reset(&mut self) {
        self.m.reset();
        proof {
            M::lemma_reset_meta(old(self).m);
        }
    }

    fn spawn_empty(&self) -> (r: Self) {
        let r = TopWrapper {
            m: self.m.spawn_empty(),
            epsilon: self.epsilon,
            restartable: self.is_restartable(),
            n_states: self.n_states,
            n_transs: self.n_transs,
            ph: PhantomData,
        };
        proof {
            M::lemma_reset_meta(self.m);
        }
        r
    }

    fn is_epsilon(&self) -> (r: bool) {
        self.epsilon
    }

    fn is_restartable(&self) -> (r: Option<bool>) {
        self.restartable
    }

    fn n_states(&self) -> (r: usize) {
        self.n_states
    }

    fn n_transs(&self) -> (r: usize) {
        self.n_transs
    }

    proof fn lemma_init_zero(pre: Self, post: Self, out: Ext<O>) {
        M::lemma_init_zero(pre.m, post.m, out);
    }

    proof fn lemma_init_meta(pre: Self, i: Ext<I>, post: Self, out: Ext<O>) {
        M::lemma_init_meta(pre.m, i, post.m, out);
    }

    proof fn lemma_update_meta(pre: Self, item: D, post: Self, out: Ext<O>) {
        M::lemma_update_meta(pre.m, item, post.m, out);
    }

    proof fn lemma_reset_meta(pre: Self) {
        M::lemma_reset_meta(pre.m);
    }
}


/*
    Behavioral descriptions of the derived constructs.

    A derived constructor returns an opaque `impl Transducer`, so its
    behavior cannot be stated through that type's (hidden) step relations
    directly.  Instead each constructor ensures a simulation: there exist
    an invariant `ok` and an observer (`buf`, the buffered restart state)
    under which every `init` and `update` step of the returned value is
    exactly the intended one.  A caller chains the step clauses along any
    run it makes.
*/


/// Instantiation marker for a simulation witness consisting of an
/// invariant alone.
pub open spec fn sim_trigger<M>(ok: spec_fn(M) -> bool) -> bool {
    true
}

/// Instantiation marker for a simulation witness consisting of an
/// invariant and an observer.
pub open spec fn sim_pair_trigger<M, B>(ok: spec_fn(M) -> bool, buf: spec_fn(M) -> B) -> bool {
    true
}

/// The returned construct applies nothing and passes every initial value
/// through unchanged, and produces nothing on items.
pub open spec fn iden_epsilon_behavior<I, D, M: Transducer<I, D, I>>(m0: M) -> bool {
    exists|ok: spec_fn(M) -> bool|
        {
            &&& #[trigger] sim_trigger(ok)
            &&& ok(m0)
            &&& forall|m: M| #[trigger] ok(m) ==> ok(m.resetted())
            &&& forall|pre: M, i: Ext<I>, post: M, out: Ext<I>|
                ok(pre) && #[trigger] M::init_rel(pre, i, post, out) ==> ok(post) && out == i
            &&& forall|pre: M, d: D, post: M, out: Ext<I>|
                ok(pre) && #[trigger] M::update_rel(pre, d, post, out) ==> ok(post) && out
                    == Ext::<I>::Zero
        }
}

/// The returned construct answers every present initial value with the
/// constant `c`, and produces nothing on items.
pub open spec fn const_epsilon_behavior<I, D, O, M: Transducer<I, D, O>>(m0: M, c: O) -> bool {
    exists|ok: spec_fn(M) -> bool|
        {
            &&& #[trigger] sim_trigger(ok)
            &&& ok(m0)
            &&& forall|m: M| #[trigger] ok(m) ==> ok(m.resetted())
            &&& forall|pre: M, i: Ext<I>, post: M, out: Ext<O>|
                ok(pre) && #[trigger] M::init_rel(pre, i, post, out) ==> ok(post) && out == match i {
                    Ext::Zero => Ext::<O>::Zero,
                    Ext::One(_) => Ext::One(c),
                    Ext::Many => Ext::<O>::Many,
                }
            &&& forall|pre: M, d: D, post: M, out: Ext<O>|
                ok(pre) && #[trigger] M::update_rel(pre, d, post, out) ==> ok(post) && out
                    == Ext::<O>::Zero
        }
}

/// The returned construct buffers restarts (producing nothing), and on
/// every item consumes and clears the buffer, applying `action` to the
/// buffered value and the item.
pub open spec fn univ_atom_behavior<I, D, O, F: Fn(I, D) -> O, M: Transducer<I, D, O>>(
    m0: M,
    action: F,
) -> bool {
    exists|ok: spec_fn(M) -> bool, buf: spec_fn(M) -> Ext<I>|
        {
            &&& #[trigger] sim_pair_trigger(ok, buf)
            &&& ok(m0)
            &&& buf(m0) == Ext::<I>::Zero
            &&& forall|m: M|
                #[trigger] ok(m) ==> ok(m.resetted()) && buf(m.resetted()) == Ext::<I>::Zero
            &&& forall|pre: M, i: Ext<I>, post: M, out: Ext<O>|
                ok(pre) && #[trigger] M::init_rel(pre, i, post, out) ==> ok(post) && out
                    == Ext::<O>::Zero && buf(post) == buf(pre).join(i)
            &&& forall|pre: M, d: D, post: M, out: Ext<O>|
                ok(pre) && #[trigger] M::update_rel(pre, d, post, out) ==> ok(post) && buf(post)
                    == Ext::<I>::Zero && match buf(pre) {
                    Ext::Zero => out == Ext::<O>::Zero,
                    Ext::One(x) => exists|y: O|
                        #[trigger] call_ensures(action, (x, d), y) && out == Ext::One(y),
                    Ext::Many => out == Ext::<O>::Many,
                }
        }
}

/// As `univ_atom_behavior`, but the item is consumed only when `guard`
/// accepts it, and a consumed single buffered value yields unit.
pub open spec fn guarded_atom_behavior<D, G: Fn(D) -> bool, M: Transducer<(), D, ()>>(
    m0: M,
    guard: G,
) -> bool {
    exists|ok: spec_fn(M) -> bool, buf: spec_fn(M) -> Ext<()>|
        {
            &&& #[trigger] sim_pair_trigger(ok, buf)
            &&& ok(m0)
            &&& buf(m0) == Ext::<()>::Zero
            &&& forall|m: M|
                #[trigger] ok(m) ==> ok(m.resetted()) && buf(m.resetted()) == Ext::<()>::Zero
            &&& forall|pre: M, i: Ext<()>, post: M, out: Ext<()>|
                ok(pre) && #[trigger] M::init_rel(pre, i, post, out) ==> ok(post) && out
                    == Ext::<()>::Zero && buf(post) == buf(pre).join(i)
            &&& forall|pre: M, d: D, post: M, out: Ext<()>|
                ok(pre) && #[trigger] M::update_rel(pre, d, post, out) ==> ok(post) && buf(post)
                    == Ext::<()>::Zero && exists|g: bool|
                    #[trigger] call_ensures(guard, (d,), g) && if g {
                        out == buf(pre)
                    } else {
                        out == Ext::<()>::Zero
                    }
        }
}

/// The returned construct echoes on every item the value it buffered, or
/// the conflict of several, clearing the buffer.
pub open spec fn iden_atom_behavior<I, D, M: Transducer<I, D, I>>(m0: M) -> bool {
    exists|ok: spec_fn(M) -> bool, buf: spec_fn(M) -> Ext<I>|
        {
            &&& #[trigger] sim_pair_trigger(ok, buf)
            &&& ok(m0)
            &&& buf(m0) == Ext::<I>::Zero
            &&& forall|m: M|
                #[trigger] ok(m) ==> ok(m.resetted()) && buf(m.resetted()) == Ext::<I>::Zero
            &&& forall|pre: M, i: Ext<I>, post: M, out: Ext<I>|
                ok(pre) && #[trigger] M::init_rel(pre, i, post, out) ==> ok(post) && out
                    == Ext::<I>::Zero && buf(post) == buf(pre).join(i)
            &&& forall|pre: M, d: D, post: M, out: Ext<I>|
                ok(pre) && #[trigger] M::update_rel(pre, d, post, out) ==> ok(post) && buf(post)
                    == Ext::<I>::Zero && out == buf(pre)
        }
}

/// The returned construct emits, for every item following a single
/// pending restart, that item itself.
pub open spec fn item_iden_atom_behavior<D, M: Transducer<(), D, D>>(m0: M) -> bool {
    exists|ok: spec_fn(M) -> bool, buf: spec_fn(M) -> Ext<()>|
        {
            &&& #[trigger] sim_pair_trigger(ok, buf)
            &&& ok(m0)
            &&& buf(m0) == Ext::<()>::Zero
            &&& forall|m: M|
                #[trigger] ok(m) ==> ok(m.resetted()) && buf(m.resetted()) == Ext::<()>::Zero
            &&& forall|pre: M, i: Ext<()>, post: M, out: Ext<D>|
                ok(pre) && #[trigger] M::init_rel(pre, i, post, out) ==> ok(post) && out
                    == Ext::<D>::Zero && buf(post) == buf(pre).join(i)
            &&& forall|pre: M, d: D, post: M, out: Ext<D>|
                ok(pre) && #[trigger] M::update_rel(pre, d, post, out) ==> ok(post) && buf(post)
                    == Ext::<()>::Zero && out == match buf(pre) {
                    Ext::Zero => Ext::<D>::Zero,
                    Ext::One(_) => Ext::One(d),
                    Ext::Many => Ext::<D>::Many,
                }
        }
}

/// The returned construct emits unit for every item following a single
/// pending restart.
pub open spec fn unit_atom_behavior<D, M: Transducer<(), D, ()>>(m0: M) -> bool {
    exists|ok: spec_fn(M) -> bool, buf: spec_fn(M) -> Ext<()>|
        {
            &&& #[trigger] sim_pair_trigger(ok, buf)
            &&& ok(m0)
            &&& buf(m0) == Ext::<()>::Zero
            &&& forall|m: M|
                #[trigger] ok(m) ==> ok(m.resetted()) && buf(m.resetted()) == Ext::<()>::Zero
            &&& forall|pre: M, i: Ext<()>, post: M, out: Ext<()>|
                ok(pre) && #[trigger] M::init_rel(pre, i, post, out) ==> ok(post) && out
                    == Ext::<()>::Zero && buf(post) == buf(pre).join(i)
            &&& forall|pre: M, d: D, post: M, out: Ext<()>|
                ok(pre) && #[trigger] M::update_rel(pre, d, post, out) ==> ok(post) && buf(post)
                    == Ext::<()>::Zero && out == buf(pre)
        }
}


/// An epsilon whose action is the identity satisfies the pass-through
/// description.
proof fn lemma_iden_epsilon_behavior<I, D, F: Fn(I) -> I + Copy>(m0: Epsilon<I, D, I, F>)
    requires
        forall|x: I, y: I| #[trigger] call_ensures(m0.action_spec(), (x,), y) ==> y == x,
    ensures
        iden_epsilon_behavior::<I, D, Epsilon<I, D, I, F>>(m0),
{
    let a = m0.action_spec();
    let ok = |m: Epsilon<I, D, I, F>| m.action_spec() == a;
    assert(ok(m0));
    assert forall|m: Epsilon<I, D, I, F>| #[trigger] ok(m) implies ok(m.resetted()) by {
        assert(m.resetted() == m);
    }
    assert forall|pre: Epsilon<I, D, I, F>, i: Ext<I>, post: Epsilon<I, D, I, F>, out: Ext<I>|
        ok(pre) && #[trigger] Epsilon::<I, D, I, F>::init_rel(pre, i, post, out) implies ok(post)
        && out == i by {
        match i {
            Ext::Zero => {},
            Ext::One(x) => {
                let y = choose|y: I|
                    #[trigger] call_ensures(pre.action_spec(), (x,), y) && out == Ext::One(y);
                assert(y == x);
            },
            Ext::Many => {},
        }
    }
    assert forall|pre: Epsilon<I, D, I, F>, d: D, post: Epsilon<I, D, I, F>, out: Ext<I>|
        ok(pre) && #[trigger] Epsilon::<I, D, I, F>::update_rel(pre, d, post, out) implies ok(post)
        && out == Ext::<I>::Zero by {}
    let _ = sim_trigger(ok);
    assert(iden_epsilon_behavior::<I, D, Epsilon<I, D, I, F>>(m0));
}

/// An epsilon whose action always returns `c` satisfies the constant
/// description.
proof fn lemma_const_epsilon_behavior<I, D, O, F: Fn(I) -> O + Copy>(
    m0: Epsilon<I, D, O, F>,
    c: O,
)
    requires
        forall|x: I, y: O| #[trigger] call_ensures(m0.action_spec(), (x,), y) ==> y == c,
    ensures
        const_epsilon_behavior::<I, D, O, Epsilon<I, D, O, F>>(m0, c),
{
    let a = m0.action_spec();
    let ok = |m: Epsilon<I, D, O, F>| m.action_spec() == a;
    assert(ok(m0));
    assert forall|m: Epsilon<I, D, O, F>| #[trigger] ok(m) implies ok(m.resetted()) by {
        assert(m.resetted() == m);
    }
    assert forall|pre: Epsilon<I, D, O, F>, i: Ext<I>, post: Epsilon<I, D, O, F>, out: Ext<O>|
        ok(pre) && #[trigger] Epsilon::<I, D, O, F>::init_rel(pre, i, post, out) implies ok(post)
        && out == (match i {
        Ext::Zero => Ext::<O>::Zero,
        Ext::One(_) => Ext::One(c),
        Ext::Many => Ext::<O>::Many,
    }) by {
        match i {
            Ext::Zero => {},
            Ext::One(x) => {
                let y = choose|y: O|
                    #[trigger] call_ensures(pre.action_spec(), (x,), y) && out == Ext::One(y);
                assert(y == c);
            },
            Ext::Many => {},
        }
    }
    assert forall|pre: Epsilon<I, D, O, F>, d: D, post: Epsilon<I, D, O, F>, out: Ext<O>|
        ok(pre) && #[trigger] Epsilon::<I, D, O, F>::update_rel(pre, d, post, out) implies ok(post)
        && out == Ext::<O>::Zero by {}
    let _ = sim_trigger(ok);
    assert(const_epsilon_behavior::<I, D, O, Epsilon<I, D, O, F>>(m0, c));
}

/// An atom whose guard accepts every item satisfies the buffering
/// description with its own action.
proof fn lemma_univ_atom_behavior_base<
    I,
    D: Copy,
    O,
    G: Fn(D) -> bool + Copy,
    F: Fn(I, D) -> O + Copy,
>(m0: Atom<I, D, O, G, F>)
    requires
        forall|d: D, g: bool| #[trigger] call_ensures(m0.guard_spec(), (d,), g) ==> g,
        m0.istate_spec() == Ext::<I>::Zero,
    ensures
        univ_atom_behavior::<I, D, O, F, Atom<I, D, O, G, F>>(m0, m0.action_spec()),
{
    let gm = m0.guard_spec();
    let am = m0.action_spec();
    let ok = |m: Atom<I, D, O, G, F>| m.guard_spec() == gm && m.action_spec() == am;
    let buf = |m: Atom<I, D, O, G, F>| m.istate_spec();
    assert(ok(m0) && buf(m0) == Ext::<I>::Zero);
    assert forall|m: Atom<I, D, O, G, F>| #[trigger] ok(m) implies ok(m.resetted()) && buf(
        m.resetted(),
    ) == Ext::<I>::Zero by {}
    assert forall|pre: Atom<I, D, O, G, F>, i: Ext<I>, post: Atom<I, D, O, G, F>, out: Ext<O>|
        ok(pre) && #[trigger] Atom::<I, D, O, G, F>::init_rel(pre, i, post, out) implies ok(post)
        && out == Ext::<O>::Zero && buf(post) == buf(pre).join(i) by {}
    assert forall|pre: Atom<I, D, O, G, F>, d: D, post: Atom<I, D, O, G, F>, out: Ext<O>|
        ok(pre) && #[trigger] Atom::<I, D, O, G, F>::update_rel(pre, d, post, out) implies ok(post)
        && buf(post) == Ext::<I>::Zero && (match buf(pre) {
        Ext::Zero => out == Ext::<O>::Zero,
        Ext::One(x) => exists|y: O| #[trigger] call_ensures(am, (x, d), y) && out == Ext::One(y),
        Ext::Many => out == Ext::<O>::Many,
    }) by {
        let g = choose|g: bool|
            #[trigger] call_ensures(pre.guard_spec(), (d,), g) && if g {
                match pre.istate_spec() {
                    Ext::Zero => out == Ext::<O>::Zero,
                    Ext::Many => out == Ext::<O>::Many,
                    Ext::One(x) => exists|y: O|
                        #[trigger] call_ensures(pre.action_spec(), (x, d), y) && out == Ext::One(
                            y,
                        ),
                }
            } else {
                out == Ext::<O>::Zero
            };
        assert(g);
    }
    let _ = sim_pair_trigger(ok, buf);
    assert(univ_atom_behavior::<I, D, O, F, Atom<I, D, O, G, F>>(m0, am));
}

/// An atom with a unit initial type and a unit action satisfies the
/// guarded description with its own guard.
proof fn lemma_guarded_atom_behavior_base<D: Copy, G: Fn(D) -> bool + Copy, F: Fn(
    (),
    D,
) -> () + Copy>(m0: Atom<(), D, (), G, F>)
    requires
        m0.istate_spec() == Ext::<()>::Zero,
    ensures
        guarded_atom_behavior::<D, G, Atom<(), D, (), G, F>>(m0, m0.guard_spec()),
{
    let gm = m0.guard_spec();
    let am = m0.action_spec();
    let ok = |m: Atom<(), D, (), G, F>| m.guard_spec() == gm && m.action_spec() == am;
    let buf = |m: Atom<(), D, (), G, F>| m.istate_spec();
    assert(ok(m0) && buf(m0) == Ext::<()>::Zero);
    assert forall|m: Atom<(), D, (), G, F>| #[trigger] ok(m) implies ok(m.resetted()) && buf(
        m.resetted(),
    ) == Ext::<()>::Zero by {}
    assert forall|pre: Atom<(), D, (), G, F>, i: Ext<()>, post: Atom<(), D, (), G, F>, out: Ext<
        (),
    >|
        ok(pre) && #[trigger] Atom::<(), D, (), G, F>::init_rel(pre, i, post, out) implies ok(post)
        && out == Ext::<()>::Zero && buf(post) == buf(pre).join(i) by {}
    assert forall|pre: Atom<(), D, (), G, F>, d: D, post: Atom<(), D, (), G, F>, out: Ext<()>|
        ok(pre) && #[trigger] Atom::<(), D, (), G, F>::update_rel(pre, d, post, out) implies ok(
        post,
    ) && buf(post) == Ext::<()>::Zero && (exists|g: bool|
        #[trigger] call_ensures(gm, (d,), g) && if g {
            out == buf(pre)
        } else {
            out == Ext::<()>::Zero
        }) by {
        let g = choose|g: bool|
            #[trigger] call_ensures(pre.guard_spec(), (d,), g) && if g {
                match pre.istate_spec() {
                    Ext::Zero => out == Ext::<()>::Zero,
                    Ext::Many => out == Ext::<()>::Many,
                    Ext::One(x) => exists|y: ()|
                        #[trigger] call_ensures(pre.action_spec(), (x, d), y) && out == Ext::One(
                            y,
                        ),
                }
            } else {
                out == Ext::<()>::Zero
            };
        if g {
            match pre.istate_spec() {
                Ext::Zero => {},
                Ext::One(x) => {
                    assert(out == Ext::One(()));
                    assert(buf(pre) == Ext::One(()));
                },
                Ext::Many => {},
            }
        }
    }
    let _ = sim_pair_trigger(ok, buf);
    assert(guarded_atom_behavior::<D, G, Atom<(), D, (), G, F>>(m0, gm));
}

/// A buffering atom whose action is the identity echoes its buffer.
proof fn lemma_univ_to_iden_atom<I, D: Copy, F: Fn(I, D) -> I, M: Transducer<I, D, I>>(
    m0: M,
    f: F,
)
    requires
        univ_atom_behavior(m0, f),
        forall|x: I, d: D, y: I| #[trigger] call_ensures(f, (x, d), y) ==> y == x,
    ensures
        iden_atom_behavior(m0),
{
    let (ok, buf) = choose|ok: spec_fn(M) -> bool, buf: spec_fn(M) -> Ext<I>|
        {
            &&& #[trigger] sim_pair_trigger(ok, buf)
            &&& ok(m0)
            &&& buf(m0) == Ext::<I>::Zero
            &&& forall|m: M|
                #[trigger] ok(m) ==> ok(m.resetted()) && buf(m.resetted()) == Ext::<I>::Zero
            &&& forall|pre: M, i: Ext<I>, post: M, out: Ext<I>|
                ok(pre) && #[trigger] M::init_rel(pre, i, post, out) ==> ok(post) && out
                    == Ext::<I>::Zero && buf(post) == buf(pre).join(i)
            &&& forall|pre: M, d: D, post: M, out: Ext<I>|
                ok(pre) && #[trigger] M::update_rel(pre, d, post, out) ==> ok(post) && buf(post)
                    == Ext::<I>::Zero && match buf(pre) {
                    Ext::Zero => out == Ext::<I>::Zero,
                    Ext::One(x) => exists|y: I|
                        #[trigger] call_ensures(f, (x, d), y) && out == Ext::One(y),
                    Ext::Many => out == Ext::<I>::Many,
                }
        };
    assert forall|pre: M, d: D, post: M, out: Ext<I>|
        ok(pre) && #[trigger] M::update_rel(pre, d, post, out) implies ok(post) && buf(post)
        == Ext::<I>::Zero && out == buf(pre) by {
        match buf(pre) {
            Ext::Zero => {},
            Ext::One(x) => {
                let y = choose|y: I| #[trigger] call_ensures(f, (x, d), y) && out == Ext::One(y);
                assert(y == x);
            },
            Ext::Many => {},
        }
    }
    let _ = sim_pair_trigger(ok, buf);
    assert(iden_atom_behavior::<I, D, M>(m0));
}

/// A buffering atom whose action returns the item itself.
proof fn lemma_univ_to_item_iden_atom<D: Copy, F: Fn((), D) -> D, M: Transducer<(), D, D>>(
    m0: M,
    f: F,
)
    requires
        univ_atom_behavior(m0, f),
        forall|x: (), d: D, y: D| #[trigger] call_ensures(f, (x, d), y) ==> y == d,
    ensures
        item_iden_atom_behavior(m0),
{
    let (ok, buf) = choose|ok: spec_fn(M) -> bool, buf: spec_fn(M) -> Ext<()>|
        {
            &&& #[trigger] sim_pair_trigger(ok, buf)
            &&& ok(m0)
            &&& buf(m0) == Ext::<()>::Zero
            &&& forall|m: M|
                #[trigger] ok(m) ==> ok(m.resetted()) && buf(m.resetted()) == Ext::<()>::Zero
            &&& forall|pre: M, i: Ext<()>, post: M, out: Ext<D>|
                ok(pre) && #[trigger] M::init_rel(pre, i, post, out) ==> ok(post) && out
                    == Ext::<D>::Zero && buf(post) == buf(pre).join(i)
            &&& forall|pre: M, d: D, post: M, out: Ext<D>|
                ok(pre) && #[trigger] M::update_rel(pre, d, post, out) ==> ok(post) && buf(post)
                    == Ext::<()>::Zero && match buf(pre) {
                    Ext::Zero => out == Ext::<D>::Zero,
                    Ext::One(x) => exists|y: D|
                        #[trigger] call_ensures(f, (x, d), y) && out == Ext::One(y),
                    Ext::Many => out == Ext::<D>::Many,
                }
        };
    assert forall|pre: M, d: D, post: M, out: Ext<D>|
        ok(pre) && #[trigger] M::update_rel(pre, d, post, out) implies ok(post) && buf(post)
        == Ext::<()>::Zero && out == (match buf(pre) {
        Ext::Zero => Ext::<D>::Zero,
        Ext::One(_) => Ext::One(d),
        Ext::Many => Ext::<D>::Many,
    }) by {
        match buf(pre) {
            Ext::Zero => {},
            Ext::One(x) => {
                let y = choose|y: D| #[trigger] call_ensures(f, (x, d), y) && out == Ext::One(y);
                assert(y == d);
            },
            Ext::Many => {},
        }
    }
    let _ = sim_pair_trigger(ok, buf);
    assert(item_iden_atom_behavior::<D, M>(m0));
}

/// A buffering atom over unit values echoes its buffer.
proof fn lemma_univ_to_unit_atom<D: Copy, F: Fn((), D) -> (), M: Transducer<(), D, ()>>(
    m0: M,
    f: F,
)
    requires
        univ_atom_behavior(m0, f),
    ensures
        unit_atom_behavior(m0),
{
    let (ok, buf) = choose|ok: spec_fn(M) -> bool, buf: spec_fn(M) -> Ext<()>|
        {
            &&& #[trigger] sim_pair_trigger(ok, buf)
            &&& ok(m0)
            &&& buf(m0) == Ext::<()>::Zero
            &&& forall|m: M|
                #[trigger] ok(m) ==> ok(m.resetted()) && buf(m.resetted()) == Ext::<()>::Zero
            &&& forall|pre: M, i: Ext<()>, post: M, out: Ext<()>|
                ok(pre) && #[trigger] M::init_rel(pre, i, post, out) ==> ok(post) && out
                    == Ext::<()>::Zero && buf(post) == buf(pre).join(i)
            &&& forall|pre: M, d: D, post: M, out: Ext<()>|
                ok(pre) && #[trigger] M::update_rel(pre, d, post, out) ==> ok(post) && buf(post)
                    == Ext::<()>::Zero && match buf(pre) {
                    Ext::Zero => out == Ext::<()>::Zero,
                    Ext::One(x) => exists|y: ()|
                        #[trigger] call_ensures(f, (x, d), y) && out == Ext::One(y),
                    Ext::Many => out == Ext::<()>::Many,
                }
        };
    assert forall|pre: M, d: D, post: M, out: Ext<()>|
        ok(pre) && #[trigger] M::update_rel(pre, d, post, out) implies ok(post) && buf(post)
        == Ext::<()>::Zero && out == buf(pre) by {
        match buf(pre) {
            Ext::Zero => {},
            Ext::One(x) => {
                let y = choose|y: ()| #[trigger] call_ensures(f, (x, d), y) && out == Ext::One(y);
                assert(Ext::One(y) == Ext::One(x));
            },
            Ext::Many => {},
        }
    }
    let _ = sim_pair_trigger(ok, buf);
    assert(unit_atom_behavior::<D, M>(m0));
}

pub fn epsilon_iden<I, D>() -> (r: impl Transducer<I, D, I>)
    ensures
        r.inv(),
        r.is_epsilon_spec(),
        r.restartable_spec() == Some(true),
        r.n_states_spec() == 0,
        r.n_transs_spec() == 1,
        iden_epsilon_behavior(r),
{
    let r = epsilon(|i: I| -> (o: I) ensures o == i { i });
    proof {
        lemma_iden_epsilon_behavior(r);
    }
    r
}

pub fn epsilon_const<I, D, O: Copy>(out: O) -> (r: impl Transducer<I, D, O>)
    ensures
        r.inv(),
        r.is_epsilon_spec(),
        r.restartable_spec() == Some(true),
        r.n_states_spec() == 0,
        r.n_transs_spec() == 1,
        const_epsilon_behavior(r, out),
{
    let r = epsilon(move |_i: I| -> (o: O) ensures o == out { out });
    proof {
        lemma_const_epsilon_behavior(r, out);
    }
    r
}

/*
    Derived atoms: an atom with no guard (applies a function to every item),
    an atom with no action (outputs unit when the guard matches), and atoms
    matching any single item.
*/

pub fn atom_univ<I, D: Copy, O, F: Fn(I, D) -> O + Copy>(action: F) -> (r: impl Transducer<
    I,
    D,
    O,
>)
    requires
        forall|x: I, d: D| #[trigger] call_requires(action, (x, d)),
    ensures
        r.inv(),
        !r.is_epsilon_spec(),
        r.restartable_spec() == Some(true),
        r.n_states_spec() == 1,
        r.n_transs_spec() == 1,
        univ_atom_behavior(r, action),
{
    let r = atom(|_d: D| -> (b: bool) ensures b { true }, action);
    proof {
        lemma_univ_atom_behavior_base(r);
    }
    r
}

pub fn atom_guard<D: Copy, G: Fn(D) -> bool + Copy>(guard: G) -> (r: impl Transducer<(), D, ()>)
    requires
        forall|d: D| #[trigger] call_requires(guard, (d,)),
    ensures
        r.inv(),
        !r.is_epsilon_spec(),
        r.restartable_spec() == Some(true),
        r.n_states_spec() == 1,
        r.n_transs_spec() == 1,
        guarded_atom_behavior(r, guard),
{
    let r = atom(guard, |_u: (), _d: D| -> (o: ()) { () });
    proof {
        lemma_guarded_atom_behavior_base(r);
    }
    r
}

pub fn atom_iden<I, D: Copy>() -> (r: impl Transducer<I, D, I>)
    ensures
        r.inv(),
        !r.is_epsilon_spec(),
        r.restartable_spec() == Some(true),
        r.n_states_spec() == 1,
        r.n_transs_spec() == 1,
        iden_atom_behavior(r),
{
    let f = |i: I, _d: D| -> (o: I) ensures o == i { i };
    let r = atom_univ(f);
    proof {
        lemma_univ_to_iden_atom(r, f);
    }
    r
}

pub fn atom_item_iden<D: Copy>() -> (r: impl Transducer<(), D, D>)
    ensures
        r.inv(),
        !r.is_epsilon_spec(),
        r.restartable_spec() == Some(true),
        r.n_states_spec() == 1,
        r.n_transs_spec() == 1,
        item_iden_atom_behavior(r),
{
    let f = |_u: (), d: D| -> (o: D) ensures o == d { d };
    let r = atom_univ(f);
    proof {
        lemma_univ_to_item_iden_atom(r, f);
    }
    r
}

pub fn atom_unit<D: Copy>() -> (r: impl Transducer<(), D, ()>)
    ensures
        r.inv(),
        !r.is_epsilon_spec(),
        r.restartable_spec() == Some(true),
        r.n_states_spec() == 1,
        r.n_transs_spec() == 1,
        unit_atom_behavior(r),
{
    let f = |_u: (), _d: D| -> (o: ()) { () };
    let r = atom_univ(f);
    proof {
        lemma_univ_to_unit_atom(r, f);
    }
    r
}

/*
    Additional derived constructs.

    - stream_iden
      Match the entire input stream (any input stream) and apply the
      identity function; analogous to atom_iden and epsilon_iden.

    - repeat
      Repeat a constant item initially and on every update.

    - map
      Apply a function to every item in the input stream.

    - apply_op
      Apply a function to the outputs of two transducers (parallel
      composition followed by an epsilon).
*/


/// The returned construct matches the entire stream as the identity: an
/// initial value passes straight through, and every item re-emits the
/// value restarted since (or the conflict of several).
pub open spec fn iden_stream_behavior<I, D, M: Transducer<I, D, I>>(m0: M) -> bool {
    exists|ok: spec_fn(M) -> bool, buf: spec_fn(M) -> Ext<I>|
        {
            &&& #[trigger] sim_pair_trigger(ok, buf)
            &&& ok(m0)
            &&& buf(m0) == Ext::<I>::Zero
            &&& forall|m: M|
                #[trigger] ok(m) ==> ok(m.resetted()) && buf(m.resetted()) == Ext::<I>::Zero
            &&& forall|pre: M, i: Ext<I>, post: M, out: Ext<I>|
                ok(pre) && #[trigger] M::init_rel(pre, i, post, out) ==> ok(post) && out == i && buf(
                    post,
                ) == buf(pre).join(i)
            &&& forall|pre: M, d: D, post: M, out: Ext<I>|
                ok(pre) && #[trigger] M::update_rel(pre, d, post, out) ==> ok(post) && out == buf(
                    pre,
                ) && buf(post) == buf(pre)
        }
}

/// Iterating a buffer-echoing atom gives the stream identity.
proof fn lemma_iterate_iden_stream<I: Copy, D, M: Transducer<I, D, I>>(m0: Iterate<I, D, M>)
    requires
        iden_atom_behavior::<I, D, M>(m0.m_spec()),
        m0.istate_spec() == Ext::<()>::Zero,
        m0.loopy_spec() == None::<bool>,
    ensures
        iden_stream_behavior::<I, D, Iterate<I, D, M>>(m0),
{
    let (ok_a, buf_a) = choose|ok_a: spec_fn(M) -> bool, buf_a: spec_fn(M) -> Ext<I>|
        {
            &&& #[trigger] sim_pair_trigger(ok_a, buf_a)
            &&& ok_a(m0.m_spec())
            &&& buf_a(m0.m_spec()) == Ext::<I>::Zero
            &&& forall|m: M|
                #[trigger] ok_a(m) ==> ok_a(m.resetted()) && buf_a(m.resetted()) == Ext::<I>::Zero
            &&& forall|pre: M, i: Ext<I>, post: M, out: Ext<I>|
                ok_a(pre) && #[trigger] M::init_rel(pre, i, post, out) ==> ok_a(post) && out
                    == Ext::<I>::Zero && buf_a(post) == buf_a(pre).join(i)
            &&& forall|pre: M, d: D, post: M, out: Ext<I>|
                ok_a(pre) && #[trigger] M::update_rel(pre, d, post, out) ==> ok_a(post) && buf_a(
                    post,
                ) == Ext::<I>::Zero && out == buf_a(pre)
        };
    let ok = |m: Iterate<I, D, M>|
        {
            &&& ok_a(m.m_spec())
            &&& m.loopy_spec() != Some(true)
            &&& (m.loopy_spec() == None::<bool> ==> m.istate_spec() == Ext::<()>::Zero && buf_a(
                m.m_spec(),
            ) == Ext::<I>::Zero)
            &&& (m.loopy_spec() == Some(false) ==> m.istate_spec() == buf_a(m.m_spec()).unit())
        };
    let buf = |m: Iterate<I, D, M>| buf_a(m.m_spec());
    assert(ok(m0) && buf(m0) == Ext::<I>::Zero);
    assert forall|m: Iterate<I, D, M>| #[trigger] ok(m) implies ok(m.resetted()) && buf(
        m.resetted(),
    ) == Ext::<I>::Zero by {
        lemma_iterate_resetted(m);
        assert(ok_a(m.m_spec()));
    }
    assert forall|pre: Iterate<I, D, M>, i: Ext<I>, post: Iterate<I, D, M>, out: Ext<I>|
        ok(pre) && #[trigger] Iterate::<I, D, M>::init_rel(pre, i, post, out) implies ok(post)
        && out == i && buf(post) == buf(pre).join(i) by {
        if i is Zero {
        } else {
            match pre.loopy_spec() {
                Some(true) => {
                    assert(false);
                },
                Some(false) => {
                    if pre.istate_spec() is Many {
                        assert(buf(pre) is Many);
                    } else {
                        let (m1, o1) = choose|m1: M, o1: Ext<I>|
                            #[trigger] M::init_rel(pre.m_spec(), i, m1, o1) && post == (Iterate {
                                m: m1,
                                istate: pre.istate_spec().join(i.unit()),
                                loopy: Some(false),
                                ph: pre.ph,
                            }) && out == i;
                        assert(buf_a(m1) == buf_a(pre.m_spec()).join(i));
                        assert(buf_a(pre.m_spec()).join(i).unit() == buf_a(
                            pre.m_spec(),
                        ).unit().join(i.unit()));
                    }
                },
                None => {
                    let (m1, o1) = choose|m1: M, o1: Ext<I>|
                        #[trigger] M::init_rel(pre.m_spec(), i, m1, o1) && if o1 is Zero {
                            post == (Iterate {
                                m: m1,
                                istate: i.unit(),
                                loopy: Some(false),
                                ph: pre.ph,
                            }) && out == i
                        } else {
                            iterate_init_rel(
                                (Iterate {
                                    m: m1,
                                    istate: i.unit(),
                                    loopy: Some(true),
                                    ph: pre.ph,
                                }),
                                o1,
                                post,
                                out,
                            )
                        };
                    assert(o1 == Ext::<I>::Zero);
                    assert(buf_a(m1) == buf_a(pre.m_spec()).join(i));
                    assert(buf_a(pre.m_spec()) == Ext::<I>::Zero);
                    assert(buf_a(m1).unit() == i.unit());
                },
            }
        }
    }
    assert forall|pre: Iterate<I, D, M>, d: D, post: Iterate<I, D, M>, out: Ext<I>|
        ok(pre) && #[trigger] Iterate::<I, D, M>::update_rel(pre, d, post, out) implies ok(post)
        && out == buf(pre) && buf(post) == buf(pre) by {
        let (mmid, sub_out) = choose|mmid: M, sub_out: Ext<I>|
            #[trigger] M::update_rel(pre.m_spec(), d, mmid, sub_out) && iterate_init_rel(
                (Iterate {
                    m: mmid,
                    istate: Ext::<()>::Zero,
                    loopy: pre.loopy_spec(),
                    ph: pre.ph,
                }),
                sub_out,
                post,
                out,
            );
        let mid = (Iterate {
            m: mmid,
            istate: Ext::<()>::Zero,
            loopy: pre.loopy_spec(),
            ph: pre.ph,
        });
        assert(buf_a(mmid) == Ext::<I>::Zero && sub_out == buf_a(pre.m_spec()));
        assert(ok(mid) && buf(mid) == Ext::<I>::Zero);
        assert(Iterate::<I, D, M>::init_rel(mid, sub_out, post, out));
        assert(ok(post) && out == sub_out && buf(post) == buf(mid).join(sub_out));
    }
    let _ = sim_pair_trigger(ok, buf);
    assert(iden_stream_behavior::<I, D, Iterate<I, D, M>>(m0));
}

pub fn stream_iden<I: Copy, D: Copy>() -> (r: impl Transducer<I, D, I>)
    ensures
        r.inv(),
        r.restartable_spec() == Some(true),
        r.n_states_spec() == 2,
        r.n_transs_spec() == 1,
        iden_stream_behavior(r),
{
    let a = atom_iden();
    let r = iterate(a);
    proof {
        lemma_iterate_iden_stream(r);
    }
    r
}


/// The returned construct, once restarted, applies `map_fun` to every
/// item of the stream.
pub open spec fn mapper_behavior<D, E, F: Fn(D) -> E, M: Transducer<(), D, E>>(
    m0: M,
    map_fun: F,
) -> bool {
    exists|ok: spec_fn(M) -> bool, buf: spec_fn(M) -> Ext<()>|
        {
            &&& #[trigger] sim_pair_trigger(ok, buf)
            &&& ok(m0)
            &&& buf(m0) == Ext::<()>::Zero
            &&& forall|m: M|
                #[trigger] ok(m) ==> ok(m.resetted()) && buf(m.resetted()) == Ext::<()>::Zero
            &&& forall|pre: M, i: Ext<()>, post: M, out: Ext<E>|
                ok(pre) && #[trigger] M::init_rel(pre, i, post, out) ==> ok(post) && out
                    == Ext::<E>::Zero && buf(post) == buf(pre).join(i)
            &&& forall|pre: M, d: D, post: M, out: Ext<E>|
                ok(pre) && #[trigger] M::update_rel(pre, d, post, out) ==> ok(post) && buf(post)
                    == buf(pre) && match buf(pre) {
                    Ext::Zero => out == Ext::<E>::Zero,
                    Ext::One(_) => exists|y: E|
                        #[trigger] call_ensures(map_fun, (d,), y) && out == Ext::One(y),
                    Ext::Many => out == Ext::<E>::Many,
                }
        }
}

/// The returned construct, once restarted, emits the constant `c` for
/// the restart and again for every item.
pub open spec fn repeat_behavior<D, O, M: Transducer<(), D, O>>(m0: M, c: O) -> bool {
    exists|ok: spec_fn(M) -> bool, buf: spec_fn(M) -> Ext<()>|
        {
            &&& #[trigger] sim_pair_trigger(ok, buf)
            &&& ok(m0)
            &&& buf(m0) == Ext::<()>::Zero
            &&& forall|m: M|
                #[trigger] ok(m) ==> ok(m.resetted()) && buf(m.resetted()) == Ext::<()>::Zero
            &&& forall|pre: M, i: Ext<()>, post: M, out: Ext<O>|
                ok(pre) && #[trigger] M::init_rel(pre, i, post, out) ==> ok(post) && buf(post)
                    == buf(pre).join(i) && out == match i {
                    Ext::Zero => Ext::<O>::Zero,
                    Ext::One(_) => Ext::One(c),
                    Ext::Many => Ext::<O>::Many,
                }
            &&& forall|pre: M, d: D, post: M, out: Ext<O>|
                ok(pre) && #[trigger] M::update_rel(pre, d, post, out) ==> ok(post) && buf(post)
                    == buf(pre) && out == match buf(pre) {
                    Ext::Zero => Ext::<O>::Zero,
                    Ext::One(_) => Ext::One(c),
                    Ext::Many => Ext::<O>::Many,
                }
        }
}

/// Concatenating the stream identity with a buffering atom applies the
/// atom's action to every item after a restart.
proof fn lemma_concat_mapper<
    D: Copy,
    E,
    F: Fn(D) -> E,
    FW: Fn((), D) -> E,
    M1: Transducer<(), D, ()>,
    M2: Transducer<(), D, E>,
>(m0: Concat<D, (), (), E, M1, M2>, w: FW, map_fun: F)
    requires
        iden_stream_behavior::<(), D, M1>(m0.m1_spec()),
        univ_atom_behavior::<(), D, E, FW, M2>(m0.m2_spec(), w),
        forall|u: (), d: D, e: E| #[trigger] call_ensures(w, (u, d), e) ==> call_ensures(
            map_fun,
            (d,),
            e,
        ),
    ensures
        mapper_behavior::<D, E, F, Concat<D, (), (), E, M1, M2>>(m0, map_fun),
{
    let (ok1, buf1) = choose|ok1: spec_fn(M1) -> bool, buf1: spec_fn(M1) -> Ext<()>|
        {
            &&& #[trigger] sim_pair_trigger(ok1, buf1)
            &&& ok1(m0.m1_spec())
            &&& buf1(m0.m1_spec()) == Ext::<()>::Zero
            &&& forall|m: M1|
                #[trigger] ok1(m) ==> ok1(m.resetted()) && buf1(m.resetted()) == Ext::<()>::Zero
            &&& forall|pre: M1, i: Ext<()>, post: M1, out: Ext<()>|
                ok1(pre) && #[trigger] M1::init_rel(pre, i, post, out) ==> ok1(post) && out == i
                    && buf1(post) == buf1(pre).join(i)
            &&& forall|pre: M1, d: D, post: M1, out: Ext<()>|
                ok1(pre) && #[trigger] M1::update_rel(pre, d, post, out) ==> ok1(post) && out
                    == buf1(pre) && buf1(post) == buf1(pre)
        };
    let (ok2, buf2) = choose|ok2: spec_fn(M2) -> bool, buf2: spec_fn(M2) -> Ext<()>|
        {
            &&& #[trigger] sim_pair_trigger(ok2, buf2)
            &&& ok2(m0.m2_spec())
            &&& buf2(m0.m2_spec()) == Ext::<()>::Zero
            &&& forall|m: M2|
                #[trigger] ok2(m) ==> ok2(m.resetted()) && buf2(m.resetted()) == Ext::<()>::Zero
            &&& forall|pre: M2, i: Ext<()>, post: M2, out: Ext<E>|
                ok2(pre) && #[trigger] M2::init_rel(pre, i, post, out) ==> ok2(post) && out
                    == Ext::<E>::Zero && buf2(post) == buf2(pre).join(i)
            &&& forall|pre: M2, d: D, post: M2, out: Ext<E>|
                ok2(pre) && #[trigger] M2::update_rel(pre, d, post, out) ==> ok2(post) && buf2(
                    post,
                ) == Ext::<()>::Zero && match buf2(pre) {
                    Ext::Zero => out == Ext::<E>::Zero,
                    Ext::One(x) => exists|y: E|
                        #[trigger] call_ensures(w, (x, d), y) && out == Ext::One(y),
                    Ext::Many => out == Ext::<E>::Many,
                }
        };
    let ok = |m: Concat<D, (), (), E, M1, M2>|
        {
            &&& ok1(m.m1_spec())
            &&& ok2(m.m2_spec())
            &&& buf2(m.m2_spec()) == buf1(m.m1_spec())
        };
    let buf = |m: Concat<D, (), (), E, M1, M2>| buf1(m.m1_spec());
    assert(ok(m0) && buf(m0) == Ext::<()>::Zero);
    assert forall|m: Concat<D, (), (), E, M1, M2>| #[trigger] ok(m) implies ok(m.resetted())
        && buf(m.resetted()) == Ext::<()>::Zero by {
        lemma_concat_resetted(m);
        assert(ok1(m.m1_spec()) && ok2(m.m2_spec()));
    }
    assert forall|
        pre: Concat<D, (), (), E, M1, M2>,
        i: Ext<()>,
        post: Concat<D, (), (), E, M1, M2>,
        out: Ext<E>,
    |
        ok(pre) && #[trigger] Concat::<D, (), (), E, M1, M2>::init_rel(pre, i, post, out) implies
        ok(post) && out == Ext::<E>::Zero && buf(post) == buf(pre).join(i) by {
        let y = choose|y: Ext<()>|
            #[trigger] M1::init_rel(pre.m1_spec(), i, post.m1_spec(), y) && M2::init_rel(
                pre.m2_spec(),
                y,
                post.m2_spec(),
                out,
            );
        assert(y == i);
    }
    assert forall|
        pre: Concat<D, (), (), E, M1, M2>,
        d: D,
        post: Concat<D, (), (), E, M1, M2>,
        out: Ext<E>,
    |
        ok(pre) && #[trigger] Concat::<D, (), (), E, M1, M2>::update_rel(pre, d, post, out)
        implies ok(post) && buf(post) == buf(pre) && (match buf(pre) {
        Ext::Zero => out == Ext::<E>::Zero,
        Ext::One(_) => exists|y: E| #[trigger] call_ensures(map_fun, (d,), y) && out == Ext::One(y),
        Ext::Many => out == Ext::<E>::Many,
    }) by {
        let (y, z1, z2, m2mid) = choose|y: Ext<()>, z1: Ext<E>, z2: Ext<E>, m2mid: M2|
            #![auto]
            M1::update_rel(pre.m1_spec(), d, post.m1_spec(), y) && M2::update_rel(
                pre.m2_spec(),
                d,
                m2mid,
                z1,
            ) && M2::init_rel(m2mid, y, post.m2_spec(), z2) && out == z1.join(z2);
        assert(y == buf1(pre.m1_spec()));
        assert(ok2(m2mid) && buf2(m2mid) == Ext::<()>::Zero);
        assert(z2 == Ext::<E>::Zero && buf2(post.m2_spec()) == y);
        match buf2(pre.m2_spec()) {
            Ext::Zero => {},
            Ext::One(x) => {
                let yy = choose|yy: E|
                    #[trigger] call_ensures(w, (x, d), yy) && z1 == Ext::One(yy);
                assert(call_ensures(map_fun, (d,), yy));
                assert(out == Ext::One(yy));
            },
            Ext::Many => {},
        }
    }
    let _ = sim_pair_trigger(ok, buf);
    assert(mapper_behavior::<D, E, F, Concat<D, (), (), E, M1, M2>>(m0, map_fun));
}

/// Concatenating the stream identity with a constant epsilon repeats the
/// constant.
proof fn lemma_concat_repeater<D: Copy, O, M1: Transducer<(), D, ()>, M2: Transducer<(), D, O>>(
    m0: Concat<D, (), (), O, M1, M2>,
    c: O,
)
    requires
        iden_stream_behavior::<(), D, M1>(m0.m1_spec()),
        const_epsilon_behavior::<(), D, O, M2>(m0.m2_spec(), c),
    ensures
        repeat_behavior::<D, O, Concat<D, (), (), O, M1, M2>>(m0, c),
{
    let (ok1, buf1) = choose|ok1: spec_fn(M1) -> bool, buf1: spec_fn(M1) -> Ext<()>|
        {
            &&& #[trigger] sim_pair_trigger(ok1, buf1)
            &&& ok1(m0.m1_spec())
            &&& buf1(m0.m1_spec()) == Ext::<()>::Zero
            &&& forall|m: M1|
                #[trigger] ok1(m) ==> ok1(m.resetted()) && buf1(m.resetted()) == Ext::<()>::Zero
            &&& forall|pre: M1, i: Ext<()>, post: M1, out: Ext<()>|
                ok1(pre) && #[trigger] M1::init_rel(pre, i, post, out) ==> ok1(post) && out == i
                    && buf1(post) == buf1(pre).join(i)
            &&& forall|pre: M1, d: D, post: M1, out: Ext<()>|
                ok1(pre) && #[trigger] M1::update_rel(pre, d, post, out) ==> ok1(post) && out
                    == buf1(pre) && buf1(post) == buf1(pre)
        };
    let ok2 = choose|ok2: spec_fn(M2) -> bool|
        {
            &&& #[trigger] sim_trigger(ok2)
            &&& ok2(m0.m2_spec())
            &&& forall|m: M2| #[trigger] ok2(m) ==> ok2(m.resetted())
            &&& forall|pre: M2, i: Ext<()>, post: M2, out: Ext<O>|
                ok2(pre) && #[trigger] M2::init_rel(pre, i, post, out) ==> ok2(post) && out
                    == match i {
                    Ext::Zero => Ext::<O>::Zero,
                    Ext::One(_) => Ext::One(c),
                    Ext::Many => Ext::<O>::Many,
                }
            &&& forall|pre: M2, d: D, post: M2, out: Ext<O>|
                ok2(pre) && #[trigger] M2::update_rel(pre, d, post, out) ==> ok2(post) && out
                    == Ext::<O>::Zero
        };
    let ok = |m: Concat<D, (), (), O, M1, M2>| ok1(m.m1_spec()) && ok2(m.m2_spec());
    let buf = |m: Concat<D, (), (), O, M1, M2>| buf1(m.m1_spec());
    assert(ok(m0) && buf(m0) == Ext::<()>::Zero);
    assert forall|m: Concat<D, (), (), O, M1, M2>| #[trigger] ok(m) implies ok(m.resetted())
        && buf(m.resetted()) == Ext::<()>::Zero by {
        lemma_concat_resetted(m);
        assert(ok1(m.m1_spec()) && ok2(m.m2_spec()));
    }
    assert forall|
        pre: Concat<D, (), (), O, M1, M2>,
        i: Ext<()>,
        post: Concat<D, (), (), O, M1, M2>,
        out: Ext<O>,
    |
        ok(pre) && #[trigger] Concat::<D, (), (), O, M1, M2>::init_rel(pre, i, post, out) implies
        ok(post) && buf(post) == buf(pre).join(i) && out == (match i {
        Ext::Zero => Ext::<O>::Zero,
        Ext::One(_) => Ext::One(c),
        Ext::Many => Ext::<O>::Many,
    }) by {
        let y = choose|y: Ext<()>|
            #[trigger] M1::init_rel(pre.m1_spec(), i, post.m1_spec(), y) && M2::init_rel(
                pre.m2_spec(),
                y,
                post.m2_spec(),
                out,
            );
        assert(y == i);
    }
    assert forall|
        pre: Concat<D, (), (), O, M1, M2>,
        d: D,
        post: Concat<D, (), (), O, M1, M2>,
        out: Ext<O>,
    |
        ok(pre) && #[trigger] Concat::<D, (), (), O, M1, M2>::update_rel(pre, d, post, out)
        implies ok(post) && buf(post) == buf(pre) && out == (match buf(pre) {
        Ext::Zero => Ext::<O>::Zero,
        Ext::One(_) => Ext::One(c),
        Ext::Many => Ext::<O>::Many,
    }) by {
        let (y, z1, z2, m2mid) = choose|y: Ext<()>, z1: Ext<O>, z2: Ext<O>, m2mid: M2|
            #![auto]
            M1::update_rel(pre.m1_spec(), d, post.m1_spec(), y) && M2::update_rel(
                pre.m2_spec(),
                d,
                m2mid,
                z1,
            ) && M2::init_rel(m2mid, y, post.m2_spec(), z2) && out == z1.join(z2);
        assert(y == buf1(pre.m1_spec()));
        assert(ok2(m2mid) && z1 == Ext::<O>::Zero);
    }
    let _ = sim_pair_trigger(ok, buf);
    assert(repeat_behavior::<D, O, Concat<D, (), (), O, M1, M2>>(m0, c));
}

pub fn repeat<D: Copy, O: Copy>(out: O) -> (r: impl Transducer<(), D, O>)
    ensures
        r.inv(),
        r.restartable_spec() == Some(true),
        repeat_behavior(r, out),
{
    let si = stream_iden();
    let e = epsilon_const(out);
    let r = concat(si, e);
    proof {
        lemma_concat_repeater(r, out);
    }
    r
}

pub fn map<D: Copy, E, F: Fn(D) -> E + Copy>(map_fun: F) -> (r: impl Transducer<(), D, E>)
    requires
        forall|d: D| #[trigger] call_requires(map_fun, (d,)),
    ensures
        r.inv(),
        r.restartable_spec() == Some(true),
        mapper_behavior(r, map_fun),
{
    let w = move |_u: (), d: D| -> (e: E) ensures call_ensures(map_fun, (d,), e) { map_fun(d) };
    let si = stream_iden();
    let a = atom_univ(w);
    let r = concat(si, a);
    proof {
        lemma_concat_mapper(r, w, map_fun);
    }
    r
}


/// Instantiation marker for a simulation witness consisting of an
/// invariant and two projections.
pub open spec fn sim_proj_trigger<M, A, B>(
    ok: spec_fn(M) -> bool,
    p1: spec_fn(M) -> A,
    p2: spec_fn(M) -> B,
) -> bool {
    true
}

/// The returned construct runs both sub-transducers in parallel and
/// combines their simultaneous outputs through `op`.
pub open spec fn pair_op_behavior<
    I,
    D,
    O1,
    O2,
    O,
    F: Fn(O1, O2) -> O,
    M1: Transducer<I, D, O1>,
    M2: Transducer<I, D, O2>,
    M: Transducer<I, D, O>,
>(m0: M, m1_0: M1, m2_0: M2, op: F) -> bool {
    exists|ok: spec_fn(M) -> bool, p1: spec_fn(M) -> M1, p2: spec_fn(M) -> M2|
        {
            &&& #[trigger] sim_proj_trigger(ok, p1, p2)
            &&& ok(m0)
            &&& p1(m0) == m1_0
            &&& p2(m0) == m2_0
            &&& forall|m: M|
                #[trigger] ok(m) ==> ok(m.resetted()) && p1(m.resetted()) == p1(m).resetted() && p2(
                    m.resetted(),
                ) == p2(m).resetted()
            &&& forall|pre: M, i: Ext<I>, post: M, out: Ext<O>|
                ok(pre) && #[trigger] M::init_rel(pre, i, post, out) ==> ok(post) && exists|
                    o1: Ext<O1>,
                    o2: Ext<O2>,
                |
                    #![trigger o1.prod(o2)]
                    {
                        &&& M1::init_rel(p1(pre), i, p1(post), o1)
                        &&& M2::init_rel(p2(pre), i, p2(post), o2)
                        &&& match (o1, o2) {
                            (Ext::Zero, _) => out == Ext::<O>::Zero,
                            (_, Ext::Zero) => out == Ext::<O>::Zero,
                            (Ext::One(a), Ext::One(b)) => exists|y: O|
                                #[trigger] call_ensures(op, (a, b), y) && out == Ext::One(y),
                            _ => out == Ext::<O>::Many,
                        }
                    }
            &&& forall|pre: M, d: D, post: M, out: Ext<O>|
                ok(pre) && #[trigger] M::update_rel(pre, d, post, out) ==> ok(post) && exists|
                    o1: Ext<O1>,
                    o2: Ext<O2>,
                |
                    #![trigger o1.prod(o2)]
                    {
                        &&& M1::update_rel(p1(pre), d, p1(post), o1)
                        &&& M2::update_rel(p2(pre), d, p2(post), o2)
                        &&& match (o1, o2) {
                            (Ext::Zero, _) => out == Ext::<O>::Zero,
                            (_, Ext::Zero) => out == Ext::<O>::Zero,
                            (Ext::One(a), Ext::One(b)) => exists|y: O|
                                #[trigger] call_ensures(op, (a, b), y) && out == Ext::One(y),
                            _ => out == Ext::<O>::Many,
                        }
                    }
        }
}

/// A parallel composition followed by a combining epsilon applies the
/// combining function to the paired outputs.
proof fn lemma_apply_op_behavior<
    I: Copy,
    D,
    O1,
    O2,
    O,
    M1: Transducer<I, D, O1>,
    M2: Transducer<I, D, O2>,
    F: Fn(O1, O2) -> O,
    FE: Fn((O1, O2)) -> O + Copy,
>(
    m0: Concat<D, I, (O1, O2), O, ParComp<I, D, O1, O2, M1, M2>, Epsilon<(O1, O2), D, O, FE>>,
    op: F,
)
    requires
        forall|p: (O1, O2), y: O|
            #[trigger] call_ensures(m0.m2_spec().action_spec(), (p,), y) ==> call_ensures(
                op,
                (p.0, p.1),
                y,
            ),
    ensures
        pair_op_behavior::<
            I,
            D,
            O1,
            O2,
            O,
            F,
            M1,
            M2,
            Concat<D, I, (O1, O2), O, ParComp<I, D, O1, O2, M1, M2>, Epsilon<(O1, O2), D, O, FE>>,
        >(m0, m0.m1_spec().m1_spec(), m0.m1_spec().m2_spec(), op),
{
    let a = m0.m2_spec().action_spec();
    let ok = |m: Concat<
        D,
        I,
        (O1, O2),
        O,
        ParComp<I, D, O1, O2, M1, M2>,
        Epsilon<(O1, O2), D, O, FE>,
    >| m.m2_spec().action_spec() == a;
    let p1 = |m: Concat<
        D,
        I,
        (O1, O2),
        O,
        ParComp<I, D, O1, O2, M1, M2>,
        Epsilon<(O1, O2), D, O, FE>,
    >| m.m1_spec().m1_spec();
    let p2 = |m: Concat<
        D,
        I,
        (O1, O2),
        O,
        ParComp<I, D, O1, O2, M1, M2>,
        Epsilon<(O1, O2), D, O, FE>,
    >| m.m1_spec().m2_spec();
    assert(ok(m0) && p1(m0) == m0.m1_spec().m1_spec() && p2(m0) == m0.m1_spec().m2_spec());
    assert forall|m: Concat<
        D,
        I,
        (O1, O2),
        O,
        ParComp<I, D, O1, O2, M1, M2>,
        Epsilon<(O1, O2), D, O, FE>,
    >| #[trigger] ok(m) implies ok(m.resetted()) && p1(m.resetted()) == p1(m).resetted() && p2(
        m.resetted(),
    ) == p2(m).resetted() by {}
    assert forall|
        pre: Concat<D, I, (O1, O2), O, ParComp<I, D, O1, O2, M1, M2>, Epsilon<(O1, O2), D, O, FE>>,
        i: Ext<I>,
        post: Concat<D, I, (O1, O2), O, ParComp<I, D, O1, O2, M1, M2>, Epsilon<(O1, O2), D, O, FE>>,
        out: Ext<O>,
    |
        ok(pre) && #[trigger] Concat::<
            D,
            I,
            (O1, O2),
            O,
            ParComp<I, D, O1, O2, M1, M2>,
            Epsilon<(O1, O2), D, O, FE>,
        >::init_rel(pre, i, post, out) implies ok(post) && exists|o1: Ext<O1>, o2: Ext<O2>|
        #![trigger o1.prod(o2)]
        {
            &&& M1::init_rel(p1(pre), i, p1(post), o1)
            &&& M2::init_rel(p2(pre), i, p2(post), o2)
            &&& match (o1, o2) {
                (Ext::Zero, _) => out == Ext::<O>::Zero,
                (_, Ext::Zero) => out == Ext::<O>::Zero,
                (Ext::One(a2), Ext::One(b2)) => exists|y: O|
                    #[trigger] call_ensures(op, (a2, b2), y) && out == Ext::One(y),
                _ => out == Ext::<O>::Many,
            }
        } by {
        let y = choose|y: Ext<(O1, O2)>|
            #[trigger] ParComp::<I, D, O1, O2, M1, M2>::init_rel(
                pre.m1_spec(),
                i,
                post.m1_spec(),
                y,
            ) && Epsilon::<(O1, O2), D, O, FE>::init_rel(pre.m2_spec(), y, post.m2_spec(), out);
        let (o1, o2) = choose|o1: Ext<O1>, o2: Ext<O2>|
            #![auto]
            M1::init_rel(pre.m1_spec().m1_spec(), i, post.m1_spec().m1_spec(), o1)
                && M2::init_rel(pre.m1_spec().m2_spec(), i, post.m1_spec().m2_spec(), o2) && y
                == o1.prod(o2);
        match (o1, o2) {
            (Ext::One(a2), Ext::One(b2)) => {
                assert(y == Ext::One((a2, b2)));
                let w = choose|w: O|
                    #[trigger] call_ensures(pre.m2_spec().action_spec(), ((a2, b2),), w) && out
                        == Ext::One(w);
                assert(call_ensures(op, (a2, b2), w));
            },
            _ => {},
        }
        assert(o1.prod(o2) == y);
    }
    assert forall|
        pre: Concat<D, I, (O1, O2), O, ParComp<I, D, O1, O2, M1, M2>, Epsilon<(O1, O2), D, O, FE>>,
        d: D,
        post: Concat<D, I, (O1, O2), O, ParComp<I, D, O1, O2, M1, M2>, Epsilon<(O1, O2), D, O, FE>>,
        out: Ext<O>,
    |
        ok(pre) && #[trigger] Concat::<
            D,
            I,
            (O1, O2),
            O,
            ParComp<I, D, O1, O2, M1, M2>,
            Epsilon<(O1, O2), D, O, FE>,
        >::update_rel(pre, d, post, out) implies ok(post) && exists|o1: Ext<O1>, o2: Ext<O2>|
        #![trigger o1.prod(o2)]
        {
            &&& M1::update_rel(p1(pre), d, p1(post), o1)
            &&& M2::update_rel(p2(pre), d, p2(post), o2)
            &&& match (o1, o2) {
                (Ext::Zero, _) => out == Ext::<O>::Zero,
                (_, Ext::Zero) => out == Ext::<O>::Zero,
                (Ext::One(a2), Ext::One(b2)) => exists|y: O|
                    #[trigger] call_ensures(op, (a2, b2), y) && out == Ext::One(y),
                _ => out == Ext::<O>::Many,
            }
        } by {
        let (y, z1, z2, m2mid) = choose|
            y: Ext<(O1, O2)>,
            z1: Ext<O>,
            z2: Ext<O>,
            m2mid: Epsilon<(O1, O2), D, O, FE>,
        |
            #![auto]
            ParComp::<I, D, O1, O2, M1, M2>::update_rel(pre.m1_spec(), d, post.m1_spec(), y)
                && Epsilon::<(O1, O2), D, O, FE>::update_rel(pre.m2_spec(), d, m2mid, z1)
                && Epsilon::<(O1, O2), D, O, FE>::init_rel(m2mid, y, post.m2_spec(), z2) && out
                == z1.join(z2);
        assert(z1 == Ext::<O>::Zero && m2mid == pre.m2_spec());
        assert(out == z2);
        let (o1, o2) = choose|o1: Ext<O1>, o2: Ext<O2>|
            #![auto]
            M1::update_rel(pre.m1_spec().m1_spec(), d, post.m1_spec().m1_spec(), o1)
                && M2::update_rel(pre.m1_spec().m2_spec(), d, post.m1_spec().m2_spec(), o2) && y
                == o1.prod(o2);
        match (o1, o2) {
            (Ext::One(a2), Ext::One(b2)) => {
                assert(y == Ext::One((a2, b2)));
                let w = choose|w: O|
                    #[trigger] call_ensures(m2mid.action_spec(), ((a2, b2),), w) && out == Ext::One(
                        w,
                    );
                assert(call_ensures(op, (a2, b2), w));
            },
            _ => {},
        }
        assert(o1.prod(o2) == y);
    }
    let _ = sim_proj_trigger(ok, p1, p2);
    assert(pair_op_behavior::<
        I,
        D,
        O1,
        O2,
        O,
        F,
        M1,
        M2,
        Concat<D, I, (O1, O2), O, ParComp<I, D, O1, O2, M1, M2>, Epsilon<(O1, O2), D, O, FE>>,
    >(m0, m0.m1_spec().m1_spec(), m0.m1_spec().m2_spec(), op));
}

pub fn apply_op<
    I: Copy,
    D,
    O1,
    O2,
    O,
    M1: Transducer<I, D, O1>,
    M2: Transducer<I, D, O2>,
    F: Fn(O1, O2) -> O + Copy,
>(m1: M1, m2: M2, op: F) -> (r: impl Transducer<I, D, O>)
    requires
        m1.inv(),
        m2.inv(),
        m1.n_states_spec() + m2.n_states_spec() <= usize::MAX,
        m1.n_transs_spec() + m2.n_transs_spec() + 1 <= usize::MAX,
        forall|a: O1, b: O2| #[trigger] call_requires(op, (a, b)),
    ensures
        r.inv(),
        pair_op_behavior(r, m1, m2, op),
{
    let ghost m1g = m1;
    let ghost m2g = m2;
    let p = parcomp(m1, m2);
    let e = epsilon(
        move |pp: (O1, O2)| -> (o: O) ensures call_ensures(op, (pp.0, pp.1), o) { op(pp.0, pp.1) },
    );
    let r = concat(p, e);
    proof {
        lemma_apply_op_behavior(r, op);
        assert(r.m1_spec().m1_spec() == m1g && r.m1_spec().m2_spec() == m2g);
    }
    r
}

/*
    Characterizations of the constructs' step relations.

    The trait states each operation's contract through the implementation's
    own `init_rel` / `update_rel`; the lemmas below say, construct by
    construct, what those relations amount to, in terms of the public
    accessors, so that a caller holding a concrete construct can reason
    about a run of it.
*/

/// An epsilon's `init` applies its action under the extended-value functor
/// and leaves the construct unchanged.
pub proof fn lemma_epsilon_init<I, D, O, F: Fn(I) -> O + Copy>(
    pre: Epsilon<I, D, O, F>,
    i: Ext<I>,
    post: Epsilon<I, D, O, F>,
    out: Ext<O>,
)
    requires
        Transducer::<I, D, O>::init_rel(pre, i, post, out),
    ensures
        post == pre,
        apply1_rel(pre.action_spec(), i, out),
{
}

/// An epsilon's `update` produces nothing and changes nothing.
pub proof fn lemma_epsilon_update<I, D, O, F: Fn(I) -> O + Copy>(
    pre: Epsilon<I, D, O, F>,
    item: D,
    post: Epsilon<I, D, O, F>,
    out: Ext<O>,
)
    requires
        Transducer::<I, D, O>::update_rel(pre, item, post, out),
    ensures
        post == pre,
        out == Ext::<O>::Zero,
{
}

/// An atom's `init` joins the initial value into its buffer and produces
/// nothing.
pub proof fn lemma_atom_init<I, D: Copy, O, G: Fn(D) -> bool + Copy, F: Fn(I, D) -> O + Copy>(
    pre: Atom<I, D, O, G, F>,
    i: Ext<I>,
    post: Atom<I, D, O, G, F>,
    out: Ext<O>,
)
    requires
        Transducer::<I, D, O>::init_rel(pre, i, post, out),
    ensures
        post.guard_spec() == pre.guard_spec(),
        post.action_spec() == pre.action_spec(),
        post.istate_spec() == pre.istate_spec().join(i),
        out == Ext::<O>::Zero,
{
}

/// An atom's `update` consumes and clears the buffer; if the guard accepts
/// the item, the action is applied to the buffered value and the item.
pub proof fn lemma_atom_update<I, D: Copy, O, G: Fn(D) -> bool + Copy, F: Fn(I, D) -> O + Copy>(
    pre: Atom<I, D, O, G, F>,
    item: D,
    post: Atom<I, D, O, G, F>,
    out: Ext<O>,
)
    requires
        Transducer::<I, D, O>::update_rel(pre, item, post, out),
    ensures
        post.guard_spec() == pre.guard_spec(),
        post.action_spec() == pre.action_spec(),
        post.istate_spec() == Ext::<I>::Zero,
        exists|g: bool|
            #[trigger] call_ensures(pre.guard_spec(), (item,), g) && if g {
                match pre.istate_spec() {
                    Ext::Zero => out == Ext::<O>::Zero,
                    Ext::Many => out == Ext::<O>::Many,
                    Ext::One(x) => exists|y: O|
                        #[trigger] call_ensures(pre.action_spec(), (x, item), y) && out == Ext::One(
                            y,
                        ),
                }
            } else {
                out == Ext::<O>::Zero
            },
{
    let g = choose|g: bool|
        #[trigger] call_ensures(pre.guard_spec(), (item,), g) && if g {
            match pre.istate_spec() {
                Ext::Zero => out == Ext::<O>::Zero,
                Ext::Many => out == Ext::<O>::Many,
                Ext::One(x) => exists|y: O|
                    #[trigger] call_ensures(pre.action_spec(), (x, item), y) && out == Ext::One(y),
            }
        } else {
            out == Ext::<O>::Zero
        };
    assert(call_ensures(pre.guard_spec(), (item,), g));
}

/// A union's `init` is the join of both sub-inits.
pub proof fn lemma_union_init<I: Copy, D, O, M1: Transducer<I, D, O>, M2: Transducer<I, D, O>>(
    pre: Union<I, D, O, M1, M2>,
    i: Ext<I>,
    post: Union<I, D, O, M1, M2>,
    out: Ext<O>,
)
    requires
        Transducer::<I, D, O>::init_rel(pre, i, post, out),
    ensures
        exists|o1: Ext<O>, o2: Ext<O>|
            #![trigger M1::init_rel(pre.m1_spec(), i, post.m1_spec(), o1), M2::init_rel(pre.m2_spec(), i, post.m2_spec(), o2)]
            M1::init_rel(pre.m1_spec(), i, post.m1_spec(), o1) && M2::init_rel(
                pre.m2_spec(),
                i,
                post.m2_spec(),
                o2,
            ) && out == o1.join(o2),
{
    let (o1, o2) = choose|o1: Ext<O>, o2: Ext<O>|
        #![auto]
        M1::init_rel(pre.m1_spec(), i, post.m1_spec(), o1) && M2::init_rel(
            pre.m2_spec(),
            i,
            post.m2_spec(),
            o2,
        ) && out == o1.join(o2);
    assert(M1::init_rel(pre.m1_spec(), i, post.m1_spec(), o1));
    assert(M2::init_rel(pre.m2_spec(), i, post.m2_spec(), o2));
}

/// A union's `update` is the join of both sub-updates.
pub proof fn lemma_union_update<I: Copy, D, O, M1: Transducer<I, D, O>, M2: Transducer<I, D, O>>(
    pre: Union<I, D, O, M1, M2>,
    item: D,
    post: Union<I, D, O, M1, M2>,
    out: Ext<O>,
)
    requires
        Transducer::<I, D, O>::update_rel(pre, item, post, out),
    ensures
        exists|o1: Ext<O>, o2: Ext<O>|
            #![trigger M1::update_rel(pre.m1_spec(), item, post.m1_spec(), o1), M2::update_rel(pre.m2_spec(), item, post.m2_spec(), o2)]
            M1::update_rel(pre.m1_spec(), item, post.m1_spec(), o1) && M2::update_rel(
                pre.m2_spec(),
                item,
                post.m2_spec(),
                o2,
            ) && out == o1.join(o2),
{
    let (o1, o2) = choose|o1: Ext<O>, o2: Ext<O>|
        #![auto]
        M1::update_rel(pre.m1_spec(), item, post.m1_spec(), o1) && M2::update_rel(
            pre.m2_spec(),
            item,
            post.m2_spec(),
            o2,
        ) && out == o1.join(o2);
    assert(M1::update_rel(pre.m1_spec(), item, post.m1_spec(), o1));
    assert(M2::update_rel(pre.m2_spec(), item, post.m2_spec(), o2));
}

/// A parallel composition's `init` is the product of both sub-inits.
pub proof fn lemma_parcomp_init<
    I: Copy,
    D,
    O1,
    O2,
    M1: Transducer<I, D, O1>,
    M2: Transducer<I, D, O2>,
>(
    pre: ParComp<I, D, O1, O2, M1, M2>,
    i: Ext<I>,
    post: ParComp<I, D, O1, O2, M1, M2>,
    out: Ext<(O1, O2)>,
)
    requires
        Transducer::<I, D, (O1, O2)>::init_rel(pre, i, post, out),
    ensures
        exists|o1: Ext<O1>, o2: Ext<O2>|
            #![trigger M1::init_rel(pre.m1_spec(), i, post.m1_spec(), o1), M2::init_rel(pre.m2_spec(), i, post.m2_spec(), o2)]
            M1::init_rel(pre.m1_spec(), i, post.m1_spec(), o1) && M2::init_rel(
                pre.m2_spec(),
                i,
                post.m2_spec(),
                o2,
            ) && out == o1.prod(o2),
{
    let (o1, o2) = choose|o1: Ext<O1>, o2: Ext<O2>|
        #![auto]
        M1::init_rel(pre.m1_spec(), i, post.m1_spec(), o1) && M2::init_rel(
            pre.m2_spec(),
            i,
            post.m2_spec(),
            o2,
        ) && out == o1.prod(o2);
    assert(M1::init_rel(pre.m1_spec(), i, post.m1_spec(), o1));
    assert(M2::init_rel(pre.m2_spec(), i, post.m2_spec(), o2));
}

/// A parallel composition's `update` is the product of both sub-updates.
pub proof fn lemma_parcomp_update<
    I: Copy,
    D,
    O1,
    O2,
    M1: Transducer<I, D, O1>,
    M2: Transducer<I, D, O2>,
>(
    pre: ParComp<I, D, O1, O2, M1, M2>,
    item: D,
    post: ParComp<I, D, O1, O2, M1, M2>,
    out: Ext<(O1, O2)>,
)
    requires
        Transducer::<I, D, (O1, O2)>::update_rel(pre, item, post, out),
    ensures
        exists|o1: Ext<O1>, o2: Ext<O2>|
            #![trigger M1::update_rel(pre.m1_spec(), item, post.m1_spec(), o1), M2::update_rel(pre.m2_spec(), item, post.m2_spec(), o2)]
            M1::update_rel(pre.m1_spec(), item, post.m1_spec(), o1) && M2::update_rel(
                pre.m2_spec(),
                item,
                post.m2_spec(),
                o2,
            ) && out == o1.prod(o2),
{
    let (o1, o2) = choose|o1: Ext<O1>, o2: Ext<O2>|
        #![auto]
        M1::update_rel(pre.m1_spec(), item, post.m1_spec(), o1) && M2::update_rel(
            pre.m2_spec(),
            item,
            post.m2_spec(),
            o2,
        ) && out == o1.prod(o2);
    assert(M1::update_rel(pre.m1_spec(), item, post.m1_spec(), o1));
    assert(M2::update_rel(pre.m2_spec(), item, post.m2_spec(), o2));
}

/// A concatenation's `init` feeds the first sub-init's output into the
/// second's initial channel and returns the second's output.
pub proof fn lemma_concat_init<D, X, Y, Z, M1: Transducer<X, D, Y>, M2: Transducer<Y, D, Z>>(
    pre: Concat<D, X, Y, Z, M1, M2>,
    i: Ext<X>,
    post: Concat<D, X, Y, Z, M1, M2>,
    out: Ext<Z>,
)
    requires
        Transducer::<X, D, Z>::init_rel(pre, i, post, out),
    ensures
        exists|y: Ext<Y>|
            #![trigger M1::init_rel(pre.m1_spec(), i, post.m1_spec(), y)]
            M1::init_rel(pre.m1_spec(), i, post.m1_spec(), y) && M2::init_rel(
                pre.m2_spec(),
                y,
                post.m2_spec(),
                out,
            ),
{
    let y = choose|y: Ext<Y>|
        #![auto]
        M1::init_rel(pre.m1_spec(), i, post.m1_spec(), y) && M2::init_rel(
            pre.m2_spec(),
            y,
            post.m2_spec(),
            out,
        );
    assert(M1::init_rel(pre.m1_spec(), i, post.m1_spec(), y));
}

/// A concatenation's `update` feeds the item to both sides, re-seeds the
/// second with the first's output, and joins the second's two outputs.
pub proof fn lemma_concat_update<D, X, Y, Z, M1: Transducer<X, D, Y>, M2: Transducer<Y, D, Z>>(
    pre: Concat<D, X, Y, Z, M1, M2>,
    item: D,
    post: Concat<D, X, Y, Z, M1, M2>,
    out: Ext<Z>,
)
    requires
        Transducer::<X, D, Z>::update_rel(pre, item, post, out),
    ensures
        exists|y: Ext<Y>, z1: Ext<Z>, z2: Ext<Z>, m2mid: M2|
            #![trigger M1::update_rel(pre.m1_spec(), item, post.m1_spec(), y), M2::update_rel(pre.m2_spec(), item, m2mid, z1), M2::init_rel(m2mid, y, post.m2_spec(), z2)]
            M1::update_rel(pre.m1_spec(), item, post.m1_spec(), y) && M2::update_rel(
                pre.m2_spec(),
                item,
                m2mid,
                z1,
            ) && M2::init_rel(m2mid, y, post.m2_spec(), z2) && out == z1.join(z2),
{
    let (y, z1, z2, m2mid) = choose|y: Ext<Y>, z1: Ext<Z>, z2: Ext<Z>, m2mid: M2|
        #![auto]
        M1::update_rel(pre.m1_spec(), item, post.m1_spec(), y) && M2::update_rel(
            pre.m2_spec(),
            item,
            m2mid,
            z1,
        ) && M2::init_rel(m2mid, y, post.m2_spec(), z2) && out == z1.join(z2);
    assert(M1::update_rel(pre.m1_spec(), item, post.m1_spec(), y));
    assert(M2::update_rel(pre.m2_spec(), item, m2mid, z1));
    assert(M2::init_rel(m2mid, y, post.m2_spec(), z2));
}

/// An aggregation's `init` splits the incoming pair, seeds the
/// sub-transducer and the accumulator, and folds the sub-output in.
pub proof fn lemma_aggregate_init<D, X, Y, Z: Copy, M: Transducer<X, D, Y>, F: Fn(Z, Y) -> Z + Copy>(
    pre: Aggregate<D, X, Y, Z, M, F>,
    i: Ext<(X, Z)>,
    post: Aggregate<D, X, Y, Z, M, F>,
    out: Ext<Z>,
)
    requires
        Transducer::<(X, Z), D, Z>::init_rel(pre, i, post, out),
    ensures
        post.agg_fun_spec() == pre.agg_fun_spec(),
        exists|y: Ext<Y>|
            #![trigger M::init_rel(pre.m_spec(), split_first(i), post.m_spec(), y)]
            M::init_rel(pre.m_spec(), split_first(i), post.m_spec(), y) && agg_step_rel(
                pre.agg_fun_spec(),
                pre.agg_spec().join(split_second(i)),
                y,
                post.agg_spec(),
                out,
            ),
{
    let y = choose|y: Ext<Y>|
        #![auto]
        M::init_rel(pre.m_spec(), split_first(i), post.m_spec(), y) && agg_step_rel(
            pre.agg_fun_spec(),
            pre.agg_spec().join(split_second(i)),
            y,
            post.agg_spec(),
            out,
        );
    assert(M::init_rel(pre.m_spec(), split_first(i), post.m_spec(), y));
}

/// An aggregation's `update` folds the sub-transducer's output into the
/// running accumulator.
pub proof fn lemma_aggregate_update<
    D,
    X,
    Y,
    Z: Copy,
    M: Transducer<X, D, Y>,
    F: Fn(Z, Y) -> Z + Copy,
>(
    pre: Aggregate<D, X, Y, Z, M, F>,
    item: D,
    post: Aggregate<D, X, Y, Z, M, F>,
    out: Ext<Z>,
)
    requires
        Transducer::<(X, Z), D, Z>::update_rel(pre, item, post, out),
    ensures
        post.agg_fun_spec() == pre.agg_fun_spec(),
        exists|y: Ext<Y>|
            #![trigger M::update_rel(pre.m_spec(), item, post.m_spec(), y)]
            M::update_rel(pre.m_spec(), item, post.m_spec(), y) && agg_step_rel(
                pre.agg_fun_spec(),
                pre.agg_spec(),
                y,
                post.agg_spec(),
                out,
            ),
{
    let y = choose|y: Ext<Y>|
        #![auto]
        M::update_rel(pre.m_spec(), item, post.m_spec(), y) && agg_step_rel(
            pre.agg_fun_spec(),
            pre.agg_spec(),
            y,
            post.agg_spec(),
            out,
        );
    assert(M::update_rel(pre.m_spec(), item, post.m_spec(), y));
}

/// The top-level wrapper passes `init` straight through.
pub proof fn lemma_top_init<I, D, O, M: Transducer<I, D, O>>(
    pre: TopWrapper<I, D, O, M>,
    i: Ext<I>,
    post: TopWrapper<I, D, O, M>,
    out: Ext<O>,
)
    requires
        Transducer::<I, D, O>::init_rel(pre, i, post, out),
    ensures
        M::init_rel(pre.m_spec(), i, post.m_spec(), out),
{
}

/// The top-level wrapper passes `update` straight through.
pub proof fn lemma_top_update<I, D, O, M: Transducer<I, D, O>>(
    pre: TopWrapper<I, D, O, M>,
    item: D,
    post: TopWrapper<I, D, O, M>,
    out: Ext<O>,
)
    requires
        Transducer::<I, D, O>::update_rel(pre, item, post, out),
    ensures
        M::update_rel(pre.m_spec(), item, post.m_spec(), out),
{
}

/// Iteration's `init` on a construct already known not to be loopy simply
/// passes the initial value through as output.
pub proof fn lemma_iterate_init_not_loopy<X: Copy, D, M: Transducer<X, D, X>>(
    pre: Iterate<X, D, M>,
    i: Ext<X>,
    post: Iterate<X, D, M>,
    out: Ext<X>,
)
    requires
        Transducer::<X, D, X>::init_rel(pre, i, post, out),
        pre.loopy_spec() == Some(false),
    ensures
        out == i,
        post.loopy_spec() == Some(false),
{
}

/// Iteration's `init` on a construct known to be loopy degenerates to the
/// conflict value on any present input.
pub proof fn lemma_iterate_init_loopy<X: Copy, D, M: Transducer<X, D, X>>(
    pre: Iterate<X, D, M>,
    i: Ext<X>,
    post: Iterate<X, D, M>,
    out: Ext<X>,
)
    requires
        Transducer::<X, D, X>::init_rel(pre, i, post, out),
        pre.loopy_spec() == Some(true),
        !(i matches Ext::Zero),
    ensures
        out == Ext::<X>::Many,
        post.istate_spec() == Ext::<()>::Many,
        post.loopy_spec() == Some(true),
{
}

/// Iteration's first `init` with a present value discovers whether the
/// sub-transducer is loopy: if not, the value passes through; if so, the
/// output degenerates to the conflict value.
pub proof fn lemma_iterate_init_fresh<X: Copy, D, M: Transducer<X, D, X>>(
    pre: Iterate<X, D, M>,
    i: Ext<X>,
    post: Iterate<X, D, M>,
    out: Ext<X>,
)
    requires
        Transducer::<X, D, X>::init_rel(pre, i, post, out),
        pre.loopy_spec() == None::<bool>,
        !(i matches Ext::Zero),
    ensures
        post.loopy_spec() matches Some(_),
        post.loopy_spec() == Some(false) ==> out == i,
        post.loopy_spec() == Some(true) ==> out == Ext::<X>::Many,
{
    reveal_with_fuel(iterate_init_rel, 2);
}

/// Iteration's `update` clears the restart buffer, updates the
/// sub-transducer, and feeds the sub-output back in as a fresh initial
/// value.
pub proof fn lemma_iterate_update<X: Copy, D, M: Transducer<X, D, X>>(
    pre: Iterate<X, D, M>,
    item: D,
    post: Iterate<X, D, M>,
    out: Ext<X>,
)
    requires
        Transducer::<X, D, X>::update_rel(pre, item, post, out),
    ensures
        exists|mmid: M, sub_out: Ext<X>, mid: Iterate<X, D, M>|
            #![trigger M::update_rel(pre.m_spec(), item, mmid, sub_out), Transducer::<X, D, X>::init_rel(mid, sub_out, post, out)]
            M::update_rel(pre.m_spec(), item, mmid, sub_out) && mid.m_spec() == mmid
                && mid.istate_spec() == Ext::<()>::Zero && mid.loopy_spec() == pre.loopy_spec()
                && Transducer::<X, D, X>::init_rel(mid, sub_out, post, out),
{
    let (mmid, sub_out) = choose|mmid: M, sub_out: Ext<X>|
        #![auto]
        M::update_rel(pre.m_spec(), item, mmid, sub_out) && iterate_init_rel(
            (Iterate { m: mmid, istate: Ext::<()>::Zero, loopy: pre.loopy_spec(), ph: pre.ph }),
            sub_out,
            post,
            out,
        );
    let mid = (Iterate { m: mmid, istate: Ext::<()>::Zero, loopy: pre.loopy_spec(), ph: pre.ph });
    assert(M::update_rel(pre.m_spec(), item, mmid, sub_out));
    assert(mid.m_spec() == mmid && mid.istate_spec() == Ext::<()>::Zero && mid.loopy_spec()
        == pre.loopy_spec());
    assert(Transducer::<X, D, X>::init_rel(mid, sub_out, post, out));
}

/*
    Restartability of the epsilon construct, proved against the oracle.

    Restartability compares two execution strategies over the same
    restart-augmented stream: one long-lived instance handling every
    restart, against a fresh instance spawned per restart with the items
    routed to all of them and the outputs joined.  For an epsilon whose
    action is deterministic, the two strategies agree entry for entry on
    every stream.
*/

proof fn lemma_join_all_zero<O>(s: Seq<Ext<O>>)
    requires
        forall|j: int| 0 <= j < s.len() ==> s[j] == Ext::<O>::Zero,
    ensures
        crate::interface::join_all(s) == Ext::<O>::Zero,
    decreases s.len(),
{
    if s.len() > 0 {
        lemma_join_all_zero(s.drop_last());
    }
}

proof fn lemma_epsilon_oracle_aux<I, D, O, F: Fn(I) -> O + Copy>(
    m: Epsilon<I, D, O, F>,
    cur: Epsilon<I, D, O, F>,
    insts: Seq<Epsilon<I, D, O, F>>,
    strm: Seq<crate::interface::RInput<I, D>>,
    mfin: Epsilon<I, D, O, F>,
    pinsts: Seq<Epsilon<I, D, O, F>>,
    v1: Seq<Ext<O>>,
    v2: Seq<Ext<O>>,
)
    requires
        forall|x: I, y1: O, y2: O|
            call_ensures(m.action_spec(), (x,), y1) && call_ensures(m.action_spec(), (x,), y2)
                ==> y1 == y2,
        cur == m,
        forall|j: int| 0 <= j < insts.len() ==> insts[j] == m,
        crate::interface::rstream_single_rel(cur, strm, mfin, v1),
        crate::interface::rstream_multi_rel(m, insts, strm, pinsts, v2),
    ensures
        v1 == v2,
    decreases strm.len(),
{
    if strm.len() == 0 {
        assert(v1 =~= v2);
    } else {
        match strm[0] {
            crate::interface::RInput::Restart(i) => {
                let mid1 = choose|mid: Epsilon<I, D, O, F>|
                    #![auto]
                    Epsilon::<I, D, O, F>::init_rel(cur, Ext::One(i), mid, v1[0])
                        && crate::interface::rstream_single_rel(
                        mid,
                        strm.skip(1),
                        mfin,
                        v1.skip(1),
                    );
                let newm = choose|newm: Epsilon<I, D, O, F>|
                    #![auto]
                    Epsilon::<I, D, O, F>::init_rel(m.resetted(), Ext::One(i), newm, v2[0])
                        && crate::interface::rstream_multi_rel(
                        m,
                        insts.push(newm),
                        strm.skip(1),
                        pinsts,
                        v2.skip(1),
                    );
                assert(mid1 == cur && newm == m.resetted() && m.resetted() == m);
                let y1 = choose|y: O|
                    #[trigger] call_ensures(cur.action_spec(), (i,), y) && v1[0] == Ext::One(y);
                let y2 = choose|y: O|
                    #[trigger] call_ensures(m.action_spec(), (i,), y) && v2[0] == Ext::One(y);
                assert(y1 == y2);
                assert(v1[0] == v2[0]);
                lemma_epsilon_oracle_aux(
                    m,
                    mid1,
                    insts.push(newm),
                    strm.skip(1),
                    mfin,
                    pinsts,
                    v1.skip(1),
                    v2.skip(1),
                );
            },
            crate::interface::RInput::Item(d) => {
                let mid1 = choose|mid: Epsilon<I, D, O, F>|
                    #![auto]
                    Epsilon::<I, D, O, F>::update_rel(cur, d, mid, v1[0])
                        && crate::interface::rstream_single_rel(
                        mid,
                        strm.skip(1),
                        mfin,
                        v1.skip(1),
                    );
                let (mids, os) = choose|mids: Seq<Epsilon<I, D, O, F>>, os: Seq<Ext<O>>|
                    #![auto]
                    {
                        &&& mids.len() == insts.len()
                        &&& os.len() == insts.len()
                        &&& forall|j: int|
                            0 <= j < insts.len() ==> Epsilon::<I, D, O, F>::update_rel(
                                insts[j],
                                d,
                                mids[j],
                                os[j],
                            )
                        &&& v2[0] == crate::interface::join_all(os)
                        &&& crate::interface::rstream_multi_rel(
                            m,
                            mids,
                            strm.skip(1),
                            pinsts,
                            v2.skip(1),
                        )
                    };
                assert(forall|j: int| 0 <= j < os.len() ==> os[j] == Ext::<O>::Zero);
                lemma_join_all_zero(os);
                assert(v1[0] == Ext::<O>::Zero && v2[0] == Ext::<O>::Zero);
                assert forall|j: int| 0 <= j < mids.len() implies mids[j] == m by {
                    assert(Epsilon::<I, D, O, F>::update_rel(insts[j], d, mids[j], os[j]));
                }
                lemma_epsilon_oracle_aux(
                    m,
                    mid1,
                    mids,
                    strm.skip(1),
                    mfin,
                    pinsts,
                    v1.skip(1),
                    v2.skip(1),
                );
            },
        }
        assert(v1 =~= v2) by {
            assert(v1.skip(1) == v2.skip(1));
            assert(v1.len() == strm.len() && v2.len() == strm.len());
            assert forall|k: int| 0 <= k < v1.len() implies v1[k] == v2[k] by {
                if k > 0 {
                    assert(v1[k] == v1.skip(1)[k - 1]);
                    assert(v2[k] == v2.skip(1)[k - 1]);
                }
            }
        }
    }
}

/// Law: an epsilon construct with a deterministic action is restartable.
/// Over any restart-augmented stream, the single-instance run (from the
/// construct's initial state) and the multi-instance oracle run produce
/// the same output at every position.
pub proof fn lemma_epsilon_restartable<I, D, O, F: Fn(I) -> O + Copy>(
    m: Epsilon<I, D, O, F>,
    strm: Seq<crate::interface::RInput<I, D>>,
    mfin: Epsilon<I, D, O, F>,
    pinsts: Seq<Epsilon<I, D, O, F>>,
    v1: Seq<Ext<O>>,
    v2: Seq<Ext<O>>,
)
    requires
        forall|x: I, y1: O, y2: O|
            call_ensures(m.action_spec(), (x,), y1) && call_ensures(m.action_spec(), (x,), y2)
                ==> y1 == y2,
        crate::interface::rstream_single_rel(m.resetted(), strm, mfin, v1),
        crate::interface::rstream_multi_rel(m, Seq::empty(), strm, pinsts, v2),
    ensures
        v1 == v2,
{
    lemma_epsilon_oracle_aux(m, m.resetted(), Seq::empty(), strm, mfin, pinsts, v1, v2);
}

/*
    Restartability of the atom construct, proved against the oracle.

    The simulation invariant: the single long-lived atom's buffered state
    is exactly the join of the buffered states of all spawned instances.
    On an item, joining the per-instance outputs gives the same answer as
    applying the action to the joined buffer, provided the guard and the
    action are deterministic.
*/

/// The join of the buffered states of a collection of atom instances.
spec fn atom_istates_join<I, D: Copy, O, G: Fn(D) -> bool + Copy, F: Fn(I, D) -> O + Copy>(
    insts: Seq<Atom<I, D, O, G, F>>,
) -> Ext<I>
    decreases insts.len(),
{
    if insts.len() == 0 {
        Ext::Zero
    } else {
        atom_istates_join(insts.drop_last()).join(insts.last().istate_spec())
    }
}

proof fn lemma_atom_item_fold<I, D: Copy, O, G: Fn(D) -> bool + Copy, F: Fn(I, D) -> O + Copy>(
    m: Atom<I, D, O, G, F>,
    insts: Seq<Atom<I, D, O, G, F>>,
    mids: Seq<Atom<I, D, O, G, F>>,
    os: Seq<Ext<O>>,
    d: D,
    g: bool,
)
    requires
        forall|dd: D, g1: bool, g2: bool|
            call_ensures(m.guard_spec(), (dd,), g1) && call_ensures(m.guard_spec(), (dd,), g2)
                ==> g1 == g2,
        forall|x: I, dd: D, y1: O, y2: O|
            call_ensures(m.action_spec(), (x, dd), y1) && call_ensures(m.action_spec(), (x, dd), y2)
                ==> y1 == y2,
        forall|j: int|
            0 <= j < insts.len() ==> (#[trigger] insts[j]).guard_spec() == m.guard_spec() && insts[
                j
            ].action_spec() == m.action_spec(),
        mids.len() == insts.len(),
        os.len() == insts.len(),
        forall|j: int|
            0 <= j < insts.len() ==> #[trigger] Atom::<I, D, O, G, F>::update_rel(
                insts[j],
                d,
                mids[j],
                os[j],
            ),
        call_ensures(m.guard_spec(), (d,), g),
    ensures
        !g ==> crate::interface::join_all(os) == Ext::<O>::Zero,
        g ==> match atom_istates_join(insts) {
            Ext::Zero => crate::interface::join_all(os) == Ext::<O>::Zero,
            Ext::One(x) => exists|y: O|
                #[trigger] call_ensures(m.action_spec(), (x, d), y)
                    && crate::interface::join_all(os) == Ext::One(y),
            Ext::Many => crate::interface::join_all(os) == Ext::<O>::Many,
        },
        forall|j: int|
            0 <= j < mids.len() ==> (#[trigger] mids[j]).istate_spec() == Ext::<I>::Zero && mids[
                j
            ].guard_spec() == m.guard_spec() && mids[j].action_spec() == m.action_spec(),
    decreases insts.len(),
{
    if insts.len() == 0 {
    } else {
        lemma_atom_item_fold(m, insts.drop_last(), mids.drop_last(), os.drop_last(), d, g);
        let last = insts.last();
        let out_last = os.last();
        assert(Atom::<I, D, O, G, F>::update_rel(
            insts[insts.len() - 1],
            d,
            mids[insts.len() - 1],
            os[insts.len() - 1],
        ));
        let g_last = choose|gg: bool|
            #[trigger] call_ensures(last.guard_spec(), (d,), gg) && if gg {
                match last.istate_spec() {
                    Ext::Zero => out_last == Ext::<O>::Zero,
                    Ext::Many => out_last == Ext::<O>::Many,
                    Ext::One(x) => exists|y: O|
                        #[trigger] call_ensures(last.action_spec(), (x, d), y) && out_last
                            == Ext::One(y),
                }
            } else {
                out_last == Ext::<O>::Zero
            };
        assert(g_last == g);
        assert(crate::interface::join_all(os) == crate::interface::join_all(os.drop_last()).join(
            out_last,
        ));
        assert(atom_istates_join(insts) == atom_istates_join(insts.drop_last()).join(
            last.istate_spec(),
        ));
        assert forall|j: int|
            0 <= j < mids.len() implies (#[trigger] mids[j]).istate_spec() == Ext::<I>::Zero
            && mids[j].guard_spec() == m.guard_spec() && mids[j].action_spec()
            == m.action_spec() by {
            if j < mids.len() - 1 {
                assert(mids.drop_last()[j] == mids[j]);
                assert((mids.drop_last()[j]).istate_spec() == Ext::<I>::Zero);
            } else {
                assert(Atom::<I, D, O, G, F>::update_rel(insts[j], d, mids[j], os[j]));
            }
        }
    }
}

proof fn lemma_atom_oracle_aux<I, D: Copy, O, G: Fn(D) -> bool + Copy, F: Fn(I, D) -> O + Copy>(
    m: Atom<I, D, O, G, F>,
    cur: Atom<I, D, O, G, F>,
    insts: Seq<Atom<I, D, O, G, F>>,
    strm: Seq<crate::interface::RInput<I, D>>,
    mfin: Atom<I, D, O, G, F>,
    pinsts: Seq<Atom<I, D, O, G, F>>,
    v1: Seq<Ext<O>>,
    v2: Seq<Ext<O>>,
)
    requires
        forall|dd: D, g1: bool, g2: bool|
            call_ensures(m.guard_spec(), (dd,), g1) && call_ensures(m.guard_spec(), (dd,), g2)
                ==> g1 == g2,
        forall|x: I, dd: D, y1: O, y2: O|
            call_ensures(m.action_spec(), (x, dd), y1) && call_ensures(m.action_spec(), (x, dd), y2)
                ==> y1 == y2,
        forall|dd: D| #[trigger] call_requires(m.guard_spec(), (dd,)),
        cur.guard_spec() == m.guard_spec(),
        cur.action_spec() == m.action_spec(),
        forall|j: int|
            0 <= j < insts.len() ==> (#[trigger] insts[j]).guard_spec() == m.guard_spec() && insts[
                j
            ].action_spec() == m.action_spec(),
        cur.istate_spec() == atom_istates_join(insts),
        crate::interface::rstream_single_rel(cur, strm, mfin, v1),
        crate::interface::rstream_multi_rel(m, insts, strm, pinsts, v2),
    ensures
        v1 == v2,
    decreases strm.len(),
{
    if strm.len() == 0 {
        assert(v1 =~= v2);
    } else {
        match strm[0] {
            crate::interface::RInput::Restart(i) => {
                let mid1 = choose|mid: Atom<I, D, O, G, F>|
                    #![auto]
                    Atom::<I, D, O, G, F>::init_rel(cur, Ext::One(i), mid, v1[0])
                        && crate::interface::rstream_single_rel(
                        mid,
                        strm.skip(1),
                        mfin,
                        v1.skip(1),
                    );
                let newm = choose|newm: Atom<I, D, O, G, F>|
                    #![auto]
                    Atom::<I, D, O, G, F>::init_rel(m.resetted(), Ext::One(i), newm, v2[0])
                        && crate::interface::rstream_multi_rel(
                        m,
                        insts.push(newm),
                        strm.skip(1),
                        pinsts,
                        v2.skip(1),
                    );
                assert(v1[0] == Ext::<O>::Zero && v2[0] == Ext::<O>::Zero);
                assert(insts.push(newm).drop_last() =~= insts);
                assert(atom_istates_join(insts.push(newm)) == mid1.istate_spec());
                lemma_atom_oracle_aux(
                    m,
                    mid1,
                    insts.push(newm),
                    strm.skip(1),
                    mfin,
                    pinsts,
                    v1.skip(1),
                    v2.skip(1),
                );
            },
            crate::interface::RInput::Item(d) => {
                let mid1 = choose|mid: Atom<I, D, O, G, F>|
                    #![auto]
                    Atom::<I, D, O, G, F>::update_rel(cur, d, mid, v1[0])
                        && crate::interface::rstream_single_rel(
                        mid,
                        strm.skip(1),
                        mfin,
                        v1.skip(1),
                    );
                let (mids, os) = choose|mids: Seq<Atom<I, D, O, G, F>>, os: Seq<Ext<O>>|
                    #![auto]
                    {
                        &&& mids.len() == insts.len()
                        &&& os.len() == insts.len()
                        &&& forall|j: int|
                            0 <= j < insts.len() ==> Atom::<I, D, O, G, F>::update_rel(
                                insts[j],
                                d,
                                mids[j],
                                os[j],
                            )
                        &&& v2[0] == crate::interface::join_all(os)
                        &&& crate::interface::rstream_multi_rel(
                            m,
                            mids,
                            strm.skip(1),
                            pinsts,
                            v2.skip(1),
                        )
                    };
                let g = choose|gg: bool|
                    #[trigger] call_ensures(cur.guard_spec(), (d,), gg) && if gg {
                        match cur.istate_spec() {
                            Ext::Zero => v1[0] == Ext::<O>::Zero,
                            Ext::Many => v1[0] == Ext::<O>::Many,
                            Ext::One(x) => exists|y: O|
                                #[trigger] call_ensures(cur.action_spec(), (x, d), y) && v1[0]
                                    == Ext::One(y),
                        }
                    } else {
                        v1[0] == Ext::<O>::Zero
                    };
                assert forall|j: int|
                    0 <= j < insts.len() implies #[trigger] Atom::<I, D, O, G, F>::update_rel(
                    insts[j],
                    d,
                    mids[j],
                    os[j],
                ) by {}
                lemma_atom_item_fold(m, insts, mids, os, d, g);
                assert(v1[0] == v2[0]);
                assert(atom_istates_join(mids) == Ext::<I>::Zero) by {
                    lemma_atom_istates_zero(mids);
                }
                lemma_atom_oracle_aux(
                    m,
                    mid1,
                    mids,
                    strm.skip(1),
                    mfin,
                    pinsts,
                    v1.skip(1),
                    v2.skip(1),
                );
            },
        }
        assert(v1 =~= v2) by {
            assert(v1.skip(1) == v2.skip(1));
            assert(v1.len() == strm.len() && v2.len() == strm.len());
            assert forall|k: int| 0 <= k < v1.len() implies v1[k] == v2[k] by {
                if k > 0 {
                    assert(v1[k] == v1.skip(1)[k - 1]);
                    assert(v2[k] == v2.skip(1)[k - 1]);
                }
            }
        }
    }
}

proof fn lemma_atom_istates_zero<I, D: Copy, O, G: Fn(D) -> bool + Copy, F: Fn(I, D) -> O + Copy>(
    insts: Seq<Atom<I, D, O, G, F>>,
)
    requires
        forall|j: int|
            0 <= j < insts.len() ==> (#[trigger] insts[j]).istate_spec() == Ext::<I>::Zero,
    ensures
        atom_istates_join(insts) == Ext::<I>::Zero,
    decreases insts.len(),
{
    if insts.len() > 0 {
        lemma_atom_istates_zero(insts.drop_last());
    }
}

/// Law: an atom construct with a deterministic guard and action, started
/// from its initial state, is restartable.  Over any restart-augmented
/// stream, the single-instance run and the multi-instance oracle run
/// produce the same output at every position.
pub proof fn lemma_atom_restartable<I, D: Copy, O, G: Fn(D) -> bool + Copy, F: Fn(I, D) -> O + Copy>(
    m: Atom<I, D, O, G, F>,
    strm: Seq<crate::interface::RInput<I, D>>,
    mfin: Atom<I, D, O, G, F>,
    pinsts: Seq<Atom<I, D, O, G, F>>,
    v1: Seq<Ext<O>>,
    v2: Seq<Ext<O>>,
)
    requires
        forall|dd: D, g1: bool, g2: bool|
            call_ensures(m.guard_spec(), (dd,), g1) && call_ensures(m.guard_spec(), (dd,), g2)
                ==> g1 == g2,
        forall|x: I, dd: D, y1: O, y2: O|
            call_ensures(m.action_spec(), (x, dd), y1) && call_ensures(m.action_spec(), (x, dd), y2)
                ==> y1 == y2,
        forall|dd: D| #[trigger] call_requires(m.guard_spec(), (dd,)),
        crate::interface::rstream_single_rel(m.resetted(), strm, mfin, v1),
        crate::interface::rstream_multi_rel(m, Seq::empty(), strm, pinsts, v2),
    ensures
        v1 == v2,
{
    lemma_atom_oracle_aux(m, m.resetted(), Seq::empty(), strm, mfin, pinsts, v1, v2);
}

/// What the initial state of each construct is: an epsilon is stateless;
/// an atom clears its buffer; the composite constructs reset their parts.
pub proof fn lemma_epsilon_resetted<I, D, O, F: Fn(I) -> O + Copy>(m: Epsilon<I, D, O, F>)
    ensures
        m.resetted() == m,
{
}

pub proof fn lemma_atom_resetted<I, D: Copy, O, G: Fn(D) -> bool + Copy, F: Fn(I, D) -> O + Copy>(
    m: Atom<I, D, O, G, F>,
)
    ensures
        m.resetted().guard_spec() == m.guard_spec(),
        m.resetted().action_spec() == m.action_spec(),
        m.resetted().istate_spec() == Ext::<I>::Zero,
{
}

pub proof fn lemma_union_resetted<I: Copy, D, O, M1: Transducer<I, D, O>, M2: Transducer<I, D, O>>(
    m: Union<I, D, O, M1, M2>,
)
    ensures
        m.resetted().m1_spec() == m.m1_spec().resetted(),
        m.resetted().m2_spec() == m.m2_spec().resetted(),
{
}

pub proof fn lemma_parcomp_resetted<
    I: Copy,
    D,
    O1,
    O2,
    M1: Transducer<I, D, O1>,
    M2: Transducer<I, D, O2>,
>(m: ParComp<I, D, O1, O2, M1, M2>)
    ensures
        m.resetted().m1_spec() == m.m1_spec().resetted(),
        m.resetted().m2_spec() == m.m2_spec().resetted(),
{
}

pub proof fn lemma_concat_resetted<D, X, Y, Z, M1: Transducer<X, D, Y>, M2: Transducer<Y, D, Z>>(
    m: Concat<D, X, Y, Z, M1, M2>,
)
    ensures
        m.resetted().m1_spec() == m.m1_spec().resetted(),
        m.resetted().m2_spec() == m.m2_spec().resetted(),
{
}

/// Iteration's reset clears the restart buffer but deliberately keeps the
/// loopiness knowledge: that information remains valid.
pub proof fn lemma_iterate_resetted<X: Copy, D, M: Transducer<X, D, X>>(m: Iterate<X, D, M>)
    ensures
        m.resetted().m_spec() == m.m_spec().resetted(),
        m.resetted().istate_spec() == Ext::<()>::Zero,
        m.resetted().loopy_spec() == m.loopy_spec(),
{
}

pub proof fn lemma_aggregate_resetted<
    D,
    X,
    Y,
    Z: Copy,
    M: Transducer<X, D, Y>,
    F: Fn(Z, Y) -> Z + Copy,
>(m: Aggregate<D, X, Y, Z, M, F>)
    ensures
        m.resetted().m_spec() == m.m_spec().resetted(),
        m.resetted().agg_fun_spec() == m.agg_fun_spec(),
        m.resetted().agg_spec() == Ext::<Z>::Zero,
{
}

pub proof fn lemma_top_resetted<I, D, O, M: Transducer<I, D, O>>(m: TopWrapper<I, D, O, M>)
    ensures
        m.resetted().m_spec() == m.m_spec().resetted(),
{
}

/// Law: an epsilon construct with a deterministic action is restartable.
pub proof fn lemma_epsilon_restartable_prop<I, D, O, F: Fn(I) -> O + Copy>(
    m: Epsilon<I, D, O, F>,
)
    requires
        forall|x: I, y1: O, y2: O|
            call_ensures(m.action_spec(), (x,), y1) && call_ensures(m.action_spec(), (x,), y2)
                ==> y1 == y2,
    ensures
        crate::interface::restartable_prop(m),
{
    assert forall|
        strm: Seq<crate::interface::RInput<I, D>>,
        mfin: Epsilon<I, D, O, F>,
        pinsts: Seq<Epsilon<I, D, O, F>>,
        v1: Seq<Ext<O>>,
        v2: Seq<Ext<O>>,
    |
        crate::interface::rstream_single_rel(m.resetted(), strm, mfin, v1)
            && crate::interface::rstream_multi_rel(
            m,
            Seq::empty(),
            strm,
            pinsts,
            v2,
        ) implies v1 == v2 by {
        lemma_epsilon_restartable(m, strm, mfin, pinsts, v1, v2);
    }
}

/// Law: an atom construct with a deterministic guard and action is
/// restartable.
pub proof fn lemma_atom_restartable_prop<
    I,
    D: Copy,
    O,
    G: Fn(D) -> bool + Copy,
    F: Fn(I, D) -> O + Copy,
>(m: Atom<I, D, O, G, F>)
    requires
        forall|dd: D, g1: bool, g2: bool|
            call_ensures(m.guard_spec(), (dd,), g1) && call_ensures(m.guard_spec(), (dd,), g2)
                ==> g1 == g2,
        forall|x: I, dd: D, y1: O, y2: O|
            call_ensures(m.action_spec(), (x, dd), y1) && call_ensures(m.action_spec(), (x, dd), y2)
                ==> y1 == y2,
        forall|dd: D| #[trigger] call_requires(m.guard_spec(), (dd,)),
    ensures
        crate::interface::restartable_prop(m),
{
    assert forall|
        strm: Seq<crate::interface::RInput<I, D>>,
        mfin: Atom<I, D, O, G, F>,
        pinsts: Seq<Atom<I, D, O, G, F>>,
        v1: Seq<Ext<O>>,
        v2: Seq<Ext<O>>,
    |
        crate::interface::rstream_single_rel(m.resetted(), strm, mfin, v1)
            && crate::interface::rstream_multi_rel(
            m,
            Seq::empty(),
            strm,
            pinsts,
            v2,
        ) implies v1 == v2 by {
        lemma_atom_restartable(m, strm, mfin, pinsts, v1, v2);
    }
}

/*
    Restartability is preserved by union.

    A run of a union decomposes into a run of each side over the same
    stream, with the union's outputs the pointwise join of the two sides'
    outputs; and joining a batch of pointwise-joined outputs is the join
    of the two batch joins.  Together these reduce the union's oracle
    agreement to the sides' own restartability.
*/

proof fn lemma_union_single_project<I: Copy, D, O, M1: Transducer<I, D, O>, M2: Transducer<I, D, O>>(
    u0: Union<I, D, O, M1, M2>,
    strm: Seq<crate::interface::RInput<I, D>>,
    ufin: Union<I, D, O, M1, M2>,
    v: Seq<Ext<O>>,
)
    requires
        crate::interface::rstream_single_rel(u0, strm, ufin, v),
    ensures
        exists|va: Seq<Ext<O>>, vb: Seq<Ext<O>>|
            #![auto]
            {
                &&& crate::interface::rstream_single_rel(u0.m1_spec(), strm, ufin.m1_spec(), va)
                &&& crate::interface::rstream_single_rel(u0.m2_spec(), strm, ufin.m2_spec(), vb)
                &&& va.len() == v.len()
                &&& vb.len() == v.len()
                &&& forall|k: int| 0 <= k < v.len() ==> v[k] == #[trigger] va[k].join(vb[k])
            },
    decreases strm.len(),
{
    if strm.len() == 0 {
        let va = Seq::<Ext<O>>::empty();
        let vb = Seq::<Ext<O>>::empty();
        assert(crate::interface::rstream_single_rel(u0.m1_spec(), strm, ufin.m1_spec(), va));
        assert(crate::interface::rstream_single_rel(u0.m2_spec(), strm, ufin.m2_spec(), vb));
    } else {
        match strm[0] {
            crate::interface::RInput::Restart(i) => {
                let umid = choose|umid: Union<I, D, O, M1, M2>|
                    #![auto]
                    Union::<I, D, O, M1, M2>::init_rel(u0, Ext::One(i), umid, v[0])
                        && crate::interface::rstream_single_rel(umid, strm.skip(1), ufin, v.skip(1));
                let (o1, o2) = choose|o1: Ext<O>, o2: Ext<O>|
                    #![auto]
                    M1::init_rel(u0.m1_spec(), Ext::One(i), umid.m1_spec(), o1) && M2::init_rel(
                        u0.m2_spec(),
                        Ext::One(i),
                        umid.m2_spec(),
                        o2,
                    ) && v[0] == o1.join(o2);
                lemma_union_single_project(umid, strm.skip(1), ufin, v.skip(1));
                let (va1, vb1) = choose|va1: Seq<Ext<O>>, vb1: Seq<Ext<O>>|
                    #![auto]
                    {
                        &&& crate::interface::rstream_single_rel(
                            umid.m1_spec(),
                            strm.skip(1),
                            ufin.m1_spec(),
                            va1,
                        )
                        &&& crate::interface::rstream_single_rel(
                            umid.m2_spec(),
                            strm.skip(1),
                            ufin.m2_spec(),
                            vb1,
                        )
                        &&& va1.len() == v.skip(1).len()
                        &&& vb1.len() == v.skip(1).len()
                        &&& forall|k: int|
                            0 <= k < v.skip(1).len() ==> v.skip(1)[k] == #[trigger] va1[k].join(
                                vb1[k],
                            )
                    };
                let va = seq![o1] + va1;
                let vb = seq![o2] + vb1;
                assert(va.skip(1) =~= va1);
                assert(vb.skip(1) =~= vb1);
                assert(va[0] == o1 && vb[0] == o2);
                assert(crate::interface::rstream_single_rel(
                    u0.m1_spec(),
                    strm,
                    ufin.m1_spec(),
                    va,
                ));
                assert(crate::interface::rstream_single_rel(
                    u0.m2_spec(),
                    strm,
                    ufin.m2_spec(),
                    vb,
                ));
                assert forall|k: int| 0 <= k < v.len() implies v[k] == #[trigger] va[k].join(
                    vb[k],
                ) by {
                    if k > 0 {
                        assert(v[k] == v.skip(1)[k - 1]);
                        assert(va[k] == va1[k - 1]);
                        assert(vb[k] == vb1[k - 1]);
                    }
                }
            },
            crate::interface::RInput::Item(d) => {
                let umid = choose|umid: Union<I, D, O, M1, M2>|
                    #![auto]
                    Union::<I, D, O, M1, M2>::update_rel(u0, d, umid, v[0])
                        && crate::interface::rstream_single_rel(umid, strm.skip(1), ufin, v.skip(1));
                let (o1, o2) = choose|o1: Ext<O>, o2: Ext<O>|
                    #![auto]
                    M1::update_rel(u0.m1_spec(), d, umid.m1_spec(), o1) && M2::update_rel(
                        u0.m2_spec(),
                        d,
                        umid.m2_spec(),
                        o2,
                    ) && v[0] == o1.join(o2);
                lemma_union_single_project(umid, strm.skip(1), ufin, v.skip(1));
                let (va1, vb1) = choose|va1: Seq<Ext<O>>, vb1: Seq<Ext<O>>|
                    #![auto]
                    {
                        &&& crate::interface::rstream_single_rel(
                            umid.m1_spec(),
                            strm.skip(1),
                            ufin.m1_spec(),
                            va1,
                        )
                        &&& crate::interface::rstream_single_rel(
                            umid.m2_spec(),
                            strm.skip(1),
                            ufin.m2_spec(),
                            vb1,
                        )
                        &&& va1.len() == v.skip(1).len()
                        &&& vb1.len() == v.skip(1).len()
                        &&& forall|k: int|
                            0 <= k < v.skip(1).len() ==> v.skip(1)[k] == #[trigger] va1[k].join(
                                vb1[k],
                            )
                    };
                let va = seq![o1] + va1;
                let vb = seq![o2] + vb1;
                assert(va.skip(1) =~= va1);
                assert(vb.skip(1) =~= vb1);
                assert(va[0] == o1 && vb[0] == o2);
                assert(crate::interface::rstream_single_rel(
                    u0.m1_spec(),
                    strm,
                    ufin.m1_spec(),
                    va,
                ));
                assert(crate::interface::rstream_single_rel(
                    u0.m2_spec(),
                    strm,
                    ufin.m2_spec(),
                    vb,
                ));
                assert forall|k: int| 0 <= k < v.len() implies v[k] == #[trigger] va[k].join(
                    vb[k],
                ) by {
                    if k > 0 {
                        assert(v[k] == v.skip(1)[k - 1]);
                        assert(va[k] == va1[k - 1]);
                        assert(vb[k] == vb1[k - 1]);
                    }
                }
            },
        }
    }
}

proof fn lemma_join_all_pointwise<O>(os: Seq<Ext<O>>, oa: Seq<Ext<O>>, ob: Seq<Ext<O>>)
    requires
        oa.len() == os.len(),
        ob.len() == os.len(),
        forall|k: int| 0 <= k < os.len() ==> os[k] == #[trigger] oa[k].join(ob[k]),
    ensures
        crate::interface::join_all(os) == crate::interface::join_all(oa).join(
            crate::interface::join_all(ob),
        ),
    decreases os.len(),
{
    if os.len() == 0 {
    } else {
        assert forall|k: int|
            0 <= k < os.drop_last().len() implies os.drop_last()[k]
            == #[trigger] oa.drop_last()[k].join(ob.drop_last()[k]) by {
            assert(os[k] == oa[k].join(ob[k]));
        }
        lemma_join_all_pointwise(os.drop_last(), oa.drop_last(), ob.drop_last());
        assert(os.last() == oa.last().join(ob.last()));
    }
}

proof fn lemma_union_multi_project<I: Copy, D, O, M1: Transducer<I, D, O>, M2: Transducer<I, D, O>>(
    proto: Union<I, D, O, M1, M2>,
    insts: Seq<Union<I, D, O, M1, M2>>,
    strm: Seq<crate::interface::RInput<I, D>>,
    pinsts: Seq<Union<I, D, O, M1, M2>>,
    v: Seq<Ext<O>>,
)
    requires
        crate::interface::rstream_multi_rel(proto, insts, strm, pinsts, v),
    ensures
        exists|va: Seq<Ext<O>>, vb: Seq<Ext<O>>|
            #![auto]
            {
                &&& crate::interface::rstream_multi_rel(
                    proto.m1_spec(),
                    insts.map_values(|u: Union<I, D, O, M1, M2>| u.m1_spec()),
                    strm,
                    pinsts.map_values(|u: Union<I, D, O, M1, M2>| u.m1_spec()),
                    va,
                )
                &&& crate::interface::rstream_multi_rel(
                    proto.m2_spec(),
                    insts.map_values(|u: Union<I, D, O, M1, M2>| u.m2_spec()),
                    strm,
                    pinsts.map_values(|u: Union<I, D, O, M1, M2>| u.m2_spec()),
                    vb,
                )
                &&& va.len() == v.len()
                &&& vb.len() == v.len()
                &&& forall|k: int| 0 <= k < v.len() ==> v[k] == #[trigger] va[k].join(vb[k])
            },
    decreases strm.len(),
{
    let insts_a = insts.map_values(|u: Union<I, D, O, M1, M2>| u.m1_spec());
    let insts_b = insts.map_values(|u: Union<I, D, O, M1, M2>| u.m2_spec());
    let pinsts_a = pinsts.map_values(|u: Union<I, D, O, M1, M2>| u.m1_spec());
    let pinsts_b = pinsts.map_values(|u: Union<I, D, O, M1, M2>| u.m2_spec());
    if strm.len() == 0 {
        let va = Seq::<Ext<O>>::empty();
        let vb = Seq::<Ext<O>>::empty();
        assert(pinsts_a =~= insts_a);
        assert(pinsts_b =~= insts_b);
        assert(crate::interface::rstream_multi_rel(proto.m1_spec(), insts_a, strm, pinsts_a, va));
        assert(crate::interface::rstream_multi_rel(proto.m2_spec(), insts_b, strm, pinsts_b, vb));
    } else {
        match strm[0] {
            crate::interface::RInput::Restart(i) => {
                let newm = choose|newm: Union<I, D, O, M1, M2>|
                    #![auto]
                    Union::<I, D, O, M1, M2>::init_rel(proto.resetted(), Ext::One(i), newm, v[0])
                        && crate::interface::rstream_multi_rel(
                        proto,
                        insts.push(newm),
                        strm.skip(1),
                        pinsts,
                        v.skip(1),
                    );
                let (o1, o2) = choose|o1: Ext<O>, o2: Ext<O>|
                    #![auto]
                    M1::init_rel(
                        proto.resetted().m1_spec(),
                        Ext::One(i),
                        newm.m1_spec(),
                        o1,
                    ) && M2::init_rel(proto.resetted().m2_spec(), Ext::One(i), newm.m2_spec(), o2)
                        && v[0] == o1.join(o2);
                lemma_union_multi_project(proto, insts.push(newm), strm.skip(1), pinsts, v.skip(1));
                let (va1, vb1) = choose|va1: Seq<Ext<O>>, vb1: Seq<Ext<O>>|
                    #![trigger va1.len(), vb1.len()]
                    {
                        &&& crate::interface::rstream_multi_rel(
                            proto.m1_spec(),
                            insts.push(newm).map_values(|u: Union<I, D, O, M1, M2>| u.m1_spec()),
                            strm.skip(1),
                            pinsts_a,
                            va1,
                        )
                        &&& crate::interface::rstream_multi_rel(
                            proto.m2_spec(),
                            insts.push(newm).map_values(|u: Union<I, D, O, M1, M2>| u.m2_spec()),
                            strm.skip(1),
                            pinsts_b,
                            vb1,
                        )
                        &&& va1.len() == v.skip(1).len()
                        &&& vb1.len() == v.skip(1).len()
                        &&& forall|k: int|
                            0 <= k < v.skip(1).len() ==> v.skip(1)[k] == #[trigger] va1[k].join(
                                vb1[k],
                            )
                    };
                assert(insts.push(newm).map_values(|u: Union<I, D, O, M1, M2>| u.m1_spec())
                    =~= insts_a.push(newm.m1_spec()));
                assert(insts.push(newm).map_values(|u: Union<I, D, O, M1, M2>| u.m2_spec())
                    =~= insts_b.push(newm.m2_spec()));
                let va = seq![o1] + va1;
                let vb = seq![o2] + vb1;
                assert(va.skip(1) =~= va1);
                assert(vb.skip(1) =~= vb1);
                assert(va[0] == o1 && vb[0] == o2);
                assert(proto.resetted().m1_spec() == proto.m1_spec().resetted());
                assert(proto.resetted().m2_spec() == proto.m2_spec().resetted());
                assert(crate::interface::rstream_multi_rel(
                    proto.m1_spec(),
                    insts_a,
                    strm,
                    pinsts_a,
                    va,
                ));
                assert(crate::interface::rstream_multi_rel(
                    proto.m2_spec(),
                    insts_b,
                    strm,
                    pinsts_b,
                    vb,
                ));
                assert forall|k: int| 0 <= k < v.len() implies v[k] == #[trigger] va[k].join(
                    vb[k],
                ) by {
                    if k > 0 {
                        assert(v[k] == v.skip(1)[k - 1]);
                        assert(va[k] == va1[k - 1]);
                        assert(vb[k] == vb1[k - 1]);
                    }
                }
            },
            crate::interface::RInput::Item(d) => {
                let (mids, os) = choose|
                    mids: Seq<Union<I, D, O, M1, M2>>,
                    os: Seq<Ext<O>>,
                |
                    #![auto]
                    {
                        &&& mids.len() == insts.len()
                        &&& os.len() == insts.len()
                        &&& forall|j: int|
                            0 <= j < insts.len() ==> Union::<I, D, O, M1, M2>::update_rel(
                                insts[j],
                                d,
                                mids[j],
                                os[j],
                            )
                        &&& v[0] == crate::interface::join_all(os)
                        &&& crate::interface::rstream_multi_rel(
                            proto,
                            mids,
                            strm.skip(1),
                            pinsts,
                            v.skip(1),
                        )
                    };
                let mids_a = mids.map_values(|u: Union<I, D, O, M1, M2>| u.m1_spec());
                let mids_b = mids.map_values(|u: Union<I, D, O, M1, M2>| u.m2_spec());
                let pick = |j: int|
                    choose|x: Ext<O>, y: Ext<O>|
                        #![auto]
                        M1::update_rel(insts[j].m1_spec(), d, mids[j].m1_spec(), x)
                            && M2::update_rel(insts[j].m2_spec(), d, mids[j].m2_spec(), y) && os[j]
                            == x.join(y);
                let oa = Seq::new(insts.len(), |j: int| pick(j).0);
                let ob = Seq::new(insts.len(), |j: int| pick(j).1);
                assert forall|j: int|
                    0 <= j < insts.len() implies #[trigger] M1::update_rel(
                    insts_a[j],
                    d,
                    mids_a[j],
                    oa[j],
                ) && M2::update_rel(insts_b[j], d, mids_b[j], ob[j]) && os[j] == oa[j].join(
                    ob[j],
                ) by {
                    assert(Union::<I, D, O, M1, M2>::update_rel(insts[j], d, mids[j], os[j]));
                    assert(exists|x: Ext<O>, y: Ext<O>|
                        #![auto]
                        M1::update_rel(insts[j].m1_spec(), d, mids[j].m1_spec(), x)
                            && M2::update_rel(insts[j].m2_spec(), d, mids[j].m2_spec(), y) && os[j]
                            == x.join(y));
                    assert(oa[j] == pick(j).0 && ob[j] == pick(j).1);
                }
                assert forall|k: int|
                    0 <= k < os.len() implies os[k] == #[trigger] oa[k].join(ob[k]) by {}
                lemma_join_all_pointwise(os, oa, ob);
                lemma_union_multi_project(proto, mids, strm.skip(1), pinsts, v.skip(1));
                let (va1, vb1) = choose|va1: Seq<Ext<O>>, vb1: Seq<Ext<O>>|
                    #![trigger va1.len(), vb1.len()]
                    {
                        &&& crate::interface::rstream_multi_rel(
                            proto.m1_spec(),
                            mids.map_values(|u: Union<I, D, O, M1, M2>| u.m1_spec()),
                            strm.skip(1),
                            pinsts_a,
                            va1,
                        )
                        &&& crate::interface::rstream_multi_rel(
                            proto.m2_spec(),
                            mids.map_values(|u: Union<I, D, O, M1, M2>| u.m2_spec()),
                            strm.skip(1),
                            pinsts_b,
                            vb1,
                        )
                        &&& va1.len() == v.skip(1).len()
                        &&& vb1.len() == v.skip(1).len()
                        &&& forall|k: int|
                            0 <= k < v.skip(1).len() ==> v.skip(1)[k] == #[trigger] va1[k].join(
                                vb1[k],
                            )
                    };
                let va = seq![crate::interface::join_all(oa)] + va1;
                let vb = seq![crate::interface::join_all(ob)] + vb1;
                assert(va.skip(1) =~= va1);
                assert(vb.skip(1) =~= vb1);
                assert(va[0] == crate::interface::join_all(oa));
                assert(vb[0] == crate::interface::join_all(ob));
                assert(mids.map_values(|u: Union<I, D, O, M1, M2>| u.m1_spec()) =~= mids_a);
                assert(mids.map_values(|u: Union<I, D, O, M1, M2>| u.m2_spec()) =~= mids_b);
                assert(crate::interface::rstream_multi_rel(
                    proto.m1_spec(),
                    mids_a,
                    strm.skip(1),
                    pinsts_a,
                    va1,
                ));
                assert(crate::interface::rstream_multi_rel(
                    proto.m2_spec(),
                    mids_b,
                    strm.skip(1),
                    pinsts_b,
                    vb1,
                ));
                assert(crate::interface::rstream_multi_rel(
                    proto.m1_spec(),
                    mids_a,
                    strm.skip(1),
                    pinsts_a,
                    va.skip(1),
                ));
                assert(crate::interface::rstream_multi_rel(
                    proto.m2_spec(),
                    mids_b,
                    strm.skip(1),
                    pinsts_b,
                    vb.skip(1),
                ));
                assert(exists|mm: Seq<M1>, oo: Seq<Ext<O>>|
                    #![trigger crate::interface::rstream_multi_rel(proto.m1_spec(), mm, strm.skip(1), pinsts_a, va.skip(1)), crate::interface::join_all(oo)]
                    {
                        &&& mm.len() == insts_a.len()
                        &&& oo.len() == insts_a.len()
                        &&& forall|j: int|
                            0 <= j < insts_a.len() ==> #[trigger] M1::update_rel(
                                insts_a[j],
                                d,
                                mm[j],
                                oo[j],
                            )
                        &&& va[0] == crate::interface::join_all(oo)
                        &&& crate::interface::rstream_multi_rel(
                            proto.m1_spec(),
                            mm,
                            strm.skip(1),
                            pinsts_a,
                            va.skip(1),
                        )
                    });
                assert(exists|mm: Seq<M2>, oo: Seq<Ext<O>>|
                    #![trigger crate::interface::rstream_multi_rel(proto.m2_spec(), mm, strm.skip(1), pinsts_b, vb.skip(1)), crate::interface::join_all(oo)]
                    {
                        &&& mm.len() == insts_b.len()
                        &&& oo.len() == insts_b.len()
                        &&& forall|j: int|
                            0 <= j < insts_b.len() ==> #[trigger] M2::update_rel(
                                insts_b[j],
                                d,
                                mm[j],
                                oo[j],
                            )
                        &&& vb[0] == crate::interface::join_all(oo)
                        &&& crate::interface::rstream_multi_rel(
                            proto.m2_spec(),
                            mm,
                            strm.skip(1),
                            pinsts_b,
                            vb.skip(1),
                        )
                    });
                assert(crate::interface::rstream_multi_rel(
                    proto.m1_spec(),
                    insts_a,
                    strm,
                    pinsts_a,
                    va,
                ));
                assert(crate::interface::rstream_multi_rel(
                    proto.m2_spec(),
                    insts_b,
                    strm,
                    pinsts_b,
                    vb,
                ));
                assert forall|k: int| 0 <= k < v.len() implies v[k] == #[trigger] va[k].join(
                    vb[k],
                ) by {
                    if k > 0 {
                        assert(v[k] == v.skip(1)[k - 1]);
                        assert(va[k] == va1[k - 1]);
                        assert(vb[k] == vb1[k - 1]);
                    }
                }
            },
        }
    }
}

/// Law: the union of two restartable computations is restartable.
pub proof fn lemma_union_restartable<I: Copy, D, O, M1: Transducer<I, D, O>, M2: Transducer<
    I,
    D,
    O,
>>(m: Union<I, D, O, M1, M2>)
    requires
        crate::interface::restartable_prop(m.m1_spec()),
        crate::interface::restartable_prop(m.m2_spec()),
    ensures
        crate::interface::restartable_prop(m),
{
    assert forall|
        strm: Seq<crate::interface::RInput<I, D>>,
        ufin: Union<I, D, O, M1, M2>,
        pinsts: Seq<Union<I, D, O, M1, M2>>,
        v1: Seq<Ext<O>>,
        v2: Seq<Ext<O>>,
    |
        crate::interface::rstream_single_rel(m.resetted(), strm, ufin, v1)
            && crate::interface::rstream_multi_rel(
            m,
            Seq::empty(),
            strm,
            pinsts,
            v2,
        ) implies v1 == v2 by {
        lemma_union_single_project(m.resetted(), strm, ufin, v1);
        let (va1, vb1) = choose|va1: Seq<Ext<O>>, vb1: Seq<Ext<O>>|
            #![auto]
            {
                &&& crate::interface::rstream_single_rel(
                    m.resetted().m1_spec(),
                    strm,
                    ufin.m1_spec(),
                    va1,
                )
                &&& crate::interface::rstream_single_rel(
                    m.resetted().m2_spec(),
                    strm,
                    ufin.m2_spec(),
                    vb1,
                )
                &&& va1.len() == v1.len()
                &&& vb1.len() == v1.len()
                &&& forall|k: int| 0 <= k < v1.len() ==> v1[k] == #[trigger] va1[k].join(vb1[k])
            };
        lemma_union_multi_project(m, Seq::empty(), strm, pinsts, v2);
        let pinsts_a = pinsts.map_values(|u: Union<I, D, O, M1, M2>| u.m1_spec());
        let pinsts_b = pinsts.map_values(|u: Union<I, D, O, M1, M2>| u.m2_spec());
        let (va2, vb2) = choose|va2: Seq<Ext<O>>, vb2: Seq<Ext<O>>|
            #![trigger va2.len(), vb2.len()]
            {
                &&& crate::interface::rstream_multi_rel(
                    m.m1_spec(),
                    Seq::<Union<I, D, O, M1, M2>>::empty().map_values(
                        |u: Union<I, D, O, M1, M2>| u.m1_spec(),
                    ),
                    strm,
                    pinsts_a,
                    va2,
                )
                &&& crate::interface::rstream_multi_rel(
                    m.m2_spec(),
                    Seq::<Union<I, D, O, M1, M2>>::empty().map_values(
                        |u: Union<I, D, O, M1, M2>| u.m2_spec(),
                    ),
                    strm,
                    pinsts_b,
                    vb2,
                )
                &&& va2.len() == v2.len()
                &&& vb2.len() == v2.len()
                &&& forall|k: int| 0 <= k < v2.len() ==> v2[k] == #[trigger] va2[k].join(vb2[k])
            };
        assert(Seq::<Union<I, D, O, M1, M2>>::empty().map_values(
            |u: Union<I, D, O, M1, M2>| u.m1_spec(),
        ) =~= Seq::<M1>::empty());
        assert(Seq::<Union<I, D, O, M1, M2>>::empty().map_values(
            |u: Union<I, D, O, M1, M2>| u.m2_spec(),
        ) =~= Seq::<M2>::empty());
        assert(m.resetted().m1_spec() == m.m1_spec().resetted());
        assert(m.resetted().m2_spec() == m.m2_spec().resetted());
        assert(crate::interface::rstream_single_rel(
            m.m1_spec().resetted(),
            strm,
            ufin.m1_spec(),
            va1,
        ));
        assert(crate::interface::rstream_multi_rel(
            m.m1_spec(),
            Seq::<M1>::empty(),
            strm,
            pinsts_a,
            va2,
        ));
        assert(va1 == va2);
        assert(crate::interface::rstream_single_rel(
            m.m2_spec().resetted(),
            strm,
            ufin.m2_spec(),
            vb1,
        ));
        assert(crate::interface::rstream_multi_rel(
            m.m2_spec(),
            Seq::<M2>::empty(),
            strm,
            pinsts_b,
            vb2,
        ));
        assert(vb1 == vb2);
        assert(v1 =~= v2) by {
            assert(v1.len() == v2.len());
            assert forall|k: int| 0 <= k < v1.len() implies v1[k] == v2[k] by {
                assert(v1[k] == va1[k].join(vb1[k]));
                assert(v2[k] == va2[k].join(vb2[k]));
            }
        }
    }
}

} // verus!
