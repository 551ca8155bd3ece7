//! Extended values `Ext<T>`: a container holding zero values (`Zero`), one
//! value (`One`), or an unknown collection of two or more values (`Many`).
//!
//! `Ext<T>` is a variant of `Option<T>` where `Many` stands for a multiset of
//! at least two values whose contents are permanently lost: once two values
//! have been merged there is no way to recover them.  `Ext<T>` carries a
//! join (union) operation, a pairing (product) operation, and functor-style
//! application helpers.

use vstd::prelude::*;

verus! {

#[derive(Clone, Copy, Debug, PartialEq, Eq)]
pub enum Ext<T> {
    Zero,
    One(T),
    Many,
}

impl<T> Ext<T> {
    /// Join (union) of two extended values: `Zero` is the identity, any two
    /// non-`Zero` values collapse to `Many`, and `Many` absorbs everything.
    pub open spec fn join(self, other: Ext<T>) -> Ext<T> {
        match self {
            Ext::Zero => other,
            Ext::One(_) => match other {
                Ext::Zero => self,
                _ => Ext::Many,
            },
            Ext::Many => Ext::Many,
        }
    }

    /// Product (pairing) of two extended values: `Zero` annihilates (even
    /// against `Many`), two `One`s pair up, anything else is `Many`.
    pub open spec fn prod<T2>(self, rhs: Ext<T2>) -> Ext<(T, T2)> {
        match (self, rhs) {
            (Ext::Zero, _) => Ext::Zero,
            (_, Ext::Zero) => Ext::Zero,
            (Ext::One(x), Ext::One(y)) => Ext::One((x, y)),
            _ => Ext::Many,
        }
    }

    /// Forget the contents, keeping only the zero / one / many summary.
    pub open spec fn unit(self) -> Ext<()> {
        match self {
            Ext::Zero => Ext::Zero,
            Ext::One(_) => Ext::One(()),
            Ext::Many => Ext::Many,
        }
    }

    /// What the in-place product against a unit-valued summary leaves behind.
    pub open spec fn scale(self, rhs: Ext<()>) -> Ext<T> {
        match rhs {
            Ext::Zero => Ext::Zero,
            Ext::One(_) => self,
            Ext::Many => match self {
                Ext::Zero => Ext::Zero,
                _ => Ext::Many,
            },
        }
    }
}

/* Basic getters */

impl<T> Ext<T> {
    pub fn is_none(&self) -> (r: bool)
        ensures
            r == (*self matches Ext::Zero),
    {
        matches!(self, Ext::Zero)
    }

    pub fn is_one(&self) -> (r: bool)
        ensures
            r == (*self matches Ext::One(_)),
    {
        matches!(self, Ext::One(_))
    }

    pub fn is_many(&self) -> (r: bool)
        ensures
            r == (*self matches Ext::Many),
    {
        matches!(self, Ext::Many)
    }

    pub fn get_one(&self) -> (r: Option<&T>)
        ensures
            r.is_some() == (*self matches Ext::One(_)),
            r matches Some(v) ==> *self == Ext::One(*v),
    {
        match self {
            Ext::One(x) => Some(x),
            _ => None,
        }
    }

    /// Lower to a plain optional value.  The conversion is lossy in the
    /// `Many` direction by design: a `Many` carries no value of `T` (the
    /// collapsed values are permanently lost), so it lowers to `None`,
    /// exactly like `Zero`.
    pub fn into_inner(self) -> (r: Option<T>)
        ensures
            r == match self {
                Ext::One(x) => Some(x),
                _ => None::<T>,
            },
    {
        match self {
            Ext::One(x) => Some(x),
            _ => None,
        }
    }

    /// Extract the value of a `One`; the caller must know that the value is
    /// indeed a `One`.
    pub fn unwrap(self) -> (r: T)
        requires
            self matches Ext::One(_),
        ensures
            self == Ext::One(r),
    {
        match self {
            Ext::One(x) => x,
            _ => vstd::pervasive::unreached(),
        }
    }

    /// Split a value of pairs into a pair of values, component by component.
    pub fn split<T1, T2, F: FnOnce(T) -> (T1, T2)>(self, f: F) -> (r: (Ext<T1>, Ext<T2>))
        requires
            self matches Ext::One(x) ==> call_requires(f, (x,)),
        ensures
            self matches Ext::Zero ==> r == (Ext::<T1>::Zero, Ext::<T2>::Zero),
            self matches Ext::Many ==> r == (Ext::<T1>::Many, Ext::<T2>::Many),
            self matches Ext::One(x) ==> exists|y: (T1, T2)|
                call_ensures(f, (x,), y) && r == (Ext::One(y.0), Ext::One(y.1)),
    {
        match self {
            Ext::Zero => (Ext::Zero, Ext::Zero),
            Ext::One(x) => {
                let (x1, x2) = f(x);
                (Ext::One(x1), Ext::One(x2))
            }
            Ext::Many => (Ext::Many, Ext::Many),
        }
    }

    pub fn to_unit(&self) -> (r: Ext<()>)
        ensures
            r == self.unit(),
    {
        match self {
            Ext::Zero => Ext::Zero,
            Ext::One(_) => Ext::One(()),
            Ext::Many => Ext::Many,
        }
    }

    pub fn as_ref(&self) -> (r: Ext<&T>)
        ensures
            (r matches Ext::Zero) == (*self matches Ext::Zero),
            (r matches Ext::Many) == (*self matches Ext::Many),
            r matches Ext::One(v) ==> *self == Ext::One(*v),
    {
        match self {
            Ext::Zero => Ext::Zero,
            Ext::One(x) => Ext::One(x),
            Ext::Many => Ext::Many,
        }
    }
}

/* Default value and conversions */

impl<T> Default for Ext<T> {
    fn default() -> (r: Self)
        ensures
            r == Ext::<T>::Zero,
    {
        Ext::Zero
    }
}

impl<T> From<T> for Ext<T> {
    fn from(t: T) -> (r: Self)
        ensures
            r == Ext::One(t),
    {
        Ext::One(t)
    }
}

impl<T> vstd::std_specs::convert::FromSpecImpl<T> for Ext<T> {
    open spec fn obeys_from_spec() -> bool {
        true
    }

    open spec fn from_spec(t: T) -> Self {
        Ext::One(t)
    }
}

impl<T> From<Option<T>> for Ext<T> {
    fn from(opt_t: Option<T>) -> (r: Self)
        ensures
            r == match opt_t {
                None => Ext::<T>::Zero,
                Some(t) => Ext::One(t),
            },
    {
        match opt_t {
            None => Ext::Zero,
            Some(t) => Ext::One(t),
        }
    }
}

impl<T> vstd::std_specs::convert::FromSpecImpl<Option<T>> for Ext<T> {
    open spec fn obeys_from_spec() -> bool {
        true
    }

    open spec fn from_spec(opt_t: Option<T>) -> Self {
        match opt_t {
            None => Ext::Zero,
            Some(t) => Ext::One(t),
        }
    }
}

impl<T> From<Ext<T>> for Option<T> {
    /// Lossy in the `Many` direction by design: a `Many` holds no value
    /// to hand out, so it converts to `None`, exactly like `Zero`.
    fn from(e: Ext<T>) -> (r: Self)
        ensures
            r == match e {
                Ext::One(x) => Some(x),
                _ => None::<T>,
            },
    {
        e.into_inner()
    }
}

impl<T> vstd::std_specs::convert::FromSpecImpl<Ext<T>> for Option<T> {
    open spec fn obeys_from_spec() -> bool {
        true
    }

    open spec fn from_spec(e: Ext<T>) -> Self {
        match e {
            Ext::One(x) => Some(x),
            _ => None,
        }
    }
}

impl<T> Ext<T> {
    /// Collect a vector of values: zero elements give `Zero`, one element
    /// gives `One` of it, two or more give `Many`.
    pub fn from_vec(v: Vec<T>) -> (r: Ext<T>)
        ensures
            v@.len() == 0 ==> r == Ext::<T>::Zero,
            v@.len() == 1 ==> r == Ext::One(v@[0]),
            v@.len() >= 2 ==> r == Ext::<T>::Many,
    {
        let mut v = v;
        if v.len() == 0 {
            Ext::Zero
        } else if v.len() == 1 {
            let x = v.remove(0);
            Ext::One(x)
        } else {
            Ext::Many
        }
    }
}

/* Union (join) operation */

impl<T> Ext<T> {
    /// Join, consuming both sides.
    pub fn add(self, other: Self) -> (r: Self)
        ensures
            r == self.join(other),
    {
        match self {
            Ext::Zero => other,
            Ext::One(_) => match other {
                Ext::Zero => self,
                _ => Ext::Many,
            },
            Ext::Many => Ext::Many,
        }
    }

    /// In-place join; has exactly the effect of `add` on the stored value.
    pub fn add_assign(&mut self, other: Self)
        ensures
            *final(self) == (*old(self)).join(other),
    {
        if self.is_none() {
            *self = other;
        } else if !other.is_none() {
            *self = Ext::Many;
        }
    }
}

/* Product (pair) operation */

impl<T1> Ext<T1> {
    /// Product, consuming both sides.
    pub fn mul<T2>(self, rhs: Ext<T2>) -> (r: Ext<(T1, T2)>)
        ensures
            r == self.prod(rhs),
    {
        match self {
            Ext::One(x) => match rhs {
                Ext::One(y) => Ext::One((x, y)),
                Ext::Zero => Ext::Zero,
                Ext::Many => Ext::Many,
            },
            Ext::Zero => Ext::Zero,
            Ext::Many => match rhs {
                Ext::Zero => Ext::Zero,
                _ => Ext::Many,
            },
        }
    }

    /// In-place product against a unit-valued summary.
    pub fn mul_assign(&mut self, rhs: Ext<()>)
        ensures
            *final(self) == (*old(self)).scale(rhs),
    {
        if rhs.is_none() {
            *self = Ext::Zero;
        } else if rhs.is_many() && self.is_one() {
            *self = Ext::Many;
        }
    }
}

/* Function application */

/// What applying a unary function under `Ext` can produce: the function is
/// consulted only when the input is a `One`.
pub open spec fn apply1_rel<T1, T2, F: FnOnce(T1) -> T2>(op: F, v1: Ext<T1>, r: Ext<T2>) -> bool {
    match v1 {
        Ext::Zero => r == Ext::<T2>::Zero,
        Ext::Many => r == Ext::<T2>::Many,
        Ext::One(x) => exists|y: T2| #[trigger] call_ensures(op, (x,), y) && r == Ext::One(y),
    }
}

pub fn apply0<T1, F: FnOnce() -> T1>(op: F) -> (r: Ext<T1>)
    requires
        call_requires(op, ()),
    ensures
        r matches Ext::One(y) && call_ensures(op, (), y),
{
    Ext::One(op())
}

pub fn apply1<T1, T2, F: FnOnce(T1) -> T2>(op: F, v1: Ext<T1>) -> (r: Ext<T2>)
    requires
        v1 matches Ext::One(x) ==> call_requires(op, (x,)),
    ensures
        apply1_rel(op, v1, r),
{
    match v1 {
        Ext::Zero => Ext::Zero,
        Ext::One(x) => Ext::One(op(x)),
        Ext::Many => Ext::Many,
    }
}

pub fn apply2<T1, T2, T3, F: FnOnce(T1, T2) -> T3>(op: F, v1: Ext<T1>, v2: Ext<T2>) -> (r: Ext<
    T3,
>)
    requires
        v1 matches Ext::One(x) ==> v2 matches Ext::One(y) ==> call_requires(op, (x, y)),
    ensures
        v1.prod(v2) matches Ext::Zero ==> r == Ext::<T3>::Zero,
        v1.prod(v2) matches Ext::Many ==> r == Ext::<T3>::Many,
        v1.prod(v2) matches Ext::One(xy) ==> exists|z: T3| #[trigger] call_ensures(
            op,
            (xy.0, xy.1),
            z,
        ) && r == Ext::One(z),
{
    match v1.mul(v2) {
        Ext::Zero => Ext::Zero,
        Ext::One((x, y)) => Ext::One(op(x, y)),
        Ext::Many => Ext::Many,
    }
}

pub fn apply3<T1, T2, T3, T4, F: FnOnce(T1, T2, T3) -> T4>(
    op: F,
    v1: Ext<T1>,
    v2: Ext<T2>,
    v3: Ext<T3>,
) -> (r: Ext<T4>)
    requires
        v1 matches Ext::One(x) ==> v2 matches Ext::One(y) ==> v3 matches Ext::One(z)
            ==> call_requires(op, (x, y, z)),
    ensures
        v1.prod(v2).prod(v3) matches Ext::Zero ==> r == Ext::<T4>::Zero,
        v1.prod(v2).prod(v3) matches Ext::Many ==> r == Ext::<T4>::Many,
        v1.prod(v2).prod(v3) matches Ext::One(xyz) ==> exists|w: T4| #[trigger] call_ensures(
            op,
            (xyz.0.0, xyz.0.1, xyz.1),
            w,
        ) && r == Ext::One(w),
{
    match v1.mul(v2).mul(v3) {
        Ext::Zero => Ext::Zero,
        Ext::One(((x, y), z)) => Ext::One(op(x, y, z)),
        Ext::Many => Ext::Many,
    }
}

pub fn apply4<T1, T2, T3, T4, T5, F: FnOnce(T1, T2, T3, T4) -> T5>(
    op: F,
    v1: Ext<T1>,
    v2: Ext<T2>,
    v3: Ext<T3>,
    v4: Ext<T4>,
) -> (r: Ext<T5>)
    requires
        v1 matches Ext::One(x) ==> v2 matches Ext::One(y) ==> v3 matches Ext::One(z) ==> v4 matches
            Ext::One(t) ==> call_requires(op, (x, y, z, t)),
    ensures
        v1.prod(v2).prod(v3).prod(v4) matches Ext::Zero ==> r == Ext::<T5>::Zero,
        v1.prod(v2).prod(v3).prod(v4) matches Ext::Many ==> r == Ext::<T5>::Many,
        v1.prod(v2).prod(v3).prod(v4) matches Ext::One(q) ==> exists|w: T5| #[trigger] call_ensures(
            op,
            (q.0.0.0, q.0.0.1, q.0.1, q.1),
            w,
        ) && r == Ext::One(w),
{
    match v1.mul(v2).mul(v3).mul(v4) {
        Ext::Zero => Ext::Zero,
        Ext::One((((x, y), z), t)) => Ext::One(op(x, y, z, t)),
        Ext::Many => Ext::Many,
    }
}

/* Algebraic laws of join and product */

/// `Zero` is a two-sided identity for join.
pub proof fn lemma_join_identity<T>(x: Ext<T>)
    ensures
        Ext::<T>::Zero.join(x) == x,
        x.join(Ext::<T>::Zero) == x,
{
}

/// `Many` absorbs everything under join.
pub proof fn lemma_join_absorbing<T>(x: Ext<T>)
    ensures
        Ext::<T>::Many.join(x) == Ext::<T>::Many,
        x.join(Ext::<T>::Many) == Ext::<T>::Many,
{
}

/// Joining two `One` values always collapses to `Many`, whatever they hold.
pub proof fn lemma_join_one_one<T>(a: T, b: T)
    ensures
        Ext::One(a).join(Ext::One(b)) == Ext::<T>::Many,
{
}

/// Join is commutative.
pub proof fn lemma_join_commutative<T>(x: Ext<T>, y: Ext<T>)
    ensures
        x.join(y) == y.join(x),
{
}

/// Join is associative.
pub proof fn lemma_join_associative<T>(x: Ext<T>, y: Ext<T>, z: Ext<T>)
    ensures
        x.join(y).join(z) == x.join(y.join(z)),
{
}

/// `Zero` annihilates under product, on either side and even against `Many`.
pub proof fn lemma_prod_annihilating<T1, T2>(x: Ext<T1>, y: Ext<T2>)
    ensures
        Ext::<T1>::Zero.prod(y) == Ext::<(T1, T2)>::Zero,
        x.prod(Ext::<T2>::Zero) == Ext::<(T1, T2)>::Zero,
{
}

/// The product of two `One` values pairs their contents.
pub proof fn lemma_prod_one_one<T1, T2>(a: T1, b: T2)
    ensures
        Ext::One(a).prod(Ext::One(b)) == Ext::One((a, b)),
{
}

/// The in-place product against a unit-valued summary has exactly the
/// effect of taking the product and keeping the first component.
pub proof fn lemma_scale_is_prod<T>(x: Ext<T>, u: Ext<()>)
    ensures
        x.scale(u) == match x.prod(u) {
            Ext::Zero => Ext::<T>::Zero,
            Ext::One(p) => Ext::One(p.0),
            Ext::Many => Ext::<T>::Many,
        },
{
}

} // verus!
