//! Read-only program data: scalar constants and curves.

use vstd::prelude::*;
use crate::search::lower_bound;
use crate::slice::SliceExt;

verus! {

/// How a lookup-table curve blends between two neighbouring knots.
#[derive(Debug, Clone, Copy, PartialEq, Eq, Structural, PartialOrd)]
pub enum InterpolationMode {
    Nearest,
    Linear,
    CubicHermite,
}

/// A piecewise scalar function over scalars of type `S`.
#[derive(Debug, Clone, PartialEq)]
pub enum Curve<S> {
    /// Polynomial coefficients, lowest degree first.
    Poly(Vec<S>),
    /// Knots `(x, y, tangent)`, strictly ascending in `x`.
    LookupTable { values: Vec<(S, S, S)>, interpolation: InterpolationMode },
}

/// The scalar arithmetic that lookup-table curves need. The numeric type that
/// realises it supplies these.
pub trait Scalar: Copy + Sized {
    fn zero() -> Self;

    /// The small integer `n` as a scalar.
    fn from_u8(n: u8) -> Self;

    fn add(self, b: Self) -> Self;

    fn sub(self, b: Self) -> Self;

    fn mul(self, b: Self) -> Self;

    fn div(self, b: Self) -> Self;

    fn lt(self, b: Self) -> bool;
}

/// Every answer `lt` may give to "is knot `i` left of `x`" is yes.
pub open spec fn knot_left_of<S: Scalar>(values: Seq<(S, S, S)>, x: S, i: int) -> bool {
    forall|b: bool| call_ensures(S::lt, (values[i].0, x), b) ==> b
}

/// Every answer `lt` may give to "is knot `i` left of `x`" is no.
pub open spec fn knot_not_left_of<S: Scalar>(values: Seq<(S, S, S)>, x: S, i: int) -> bool {
    forall|b: bool| call_ensures(S::lt, (values[i].0, x), b) ==> !b
}

/// The knots left of `x` come first: once a knot is not left of `x`, no later
/// one is. This holds when the knots ascend and `lt` is an order.
pub open spec fn knots_split_at<S: Scalar>(values: Seq<(S, S, S)>, x: S) -> bool {
    forall|i: int, j: int, a: bool, b: bool|
        0 <= i <= j < values.len() && #[trigger] call_ensures(S::lt, (values[i].0, x), a)
            && #[trigger] call_ensures(S::lt, (values[j].0, x), b) && !a ==> !b
}

/// `t` is where `x` lies between knots `a` and `b` as the scalar operations
/// may compute it: `(x - a.x) / (b.x - a.x)`.
pub open spec fn position_gives<S: Scalar>(a: (S, S, S), b: (S, S, S), x: S, t: S) -> bool {
    exists|d: S, w: S|
        call_ensures(S::sub, (x, a.0), d) && call_ensures(S::sub, (b.0, a.0), w) && call_ensures(
            S::div,
            (d, w),
            t,
        )
}

/// `r` may be `(1 - t)·a.y + t·b.y`.
pub open spec fn linear_gives<S: Scalar>(a: (S, S, S), b: (S, S, S), t: S, r: S) -> bool {
    exists|one: S, u: S, p: S, q: S|
        call_ensures(S::from_u8, (1u8,), one) && call_ensures(S::sub, (one, t), u) && call_ensures(
            S::mul,
            (u, a.1),
            p,
        ) && call_ensures(S::mul, (t, b.1), q) && call_ensures(S::add, (p, q), r)
}

/// `r` may be `a.y` when `t < 1/2`, else `b.y`.
pub open spec fn nearest_gives<S: Scalar>(a: (S, S, S), b: (S, S, S), t: S, r: S) -> bool {
    exists|one: S, two: S, half: S, c: bool|
        call_ensures(S::from_u8, (1u8,), one) && call_ensures(S::from_u8, (2u8,), two)
            && call_ensures(S::div, (one, two), half) && call_ensures(S::lt, (t, half), c) && r == (
        if c {
            a.1
        } else {
            b.1
        })
}

/// The cubic Hermite basis at `t`: `h00 = (1 + 2t)(1 - t)²`, `h10 = t(1 - t)²`,
/// `h01 = t²(3 - 2t)`, `h11 = t²(t - 1)`, as the scalar operations may compute it.
pub open spec fn hermite_basis_gives<S: Scalar>(t: S, h00: S, h10: S, h01: S, h11: S) -> bool {
    exists|one: S, two: S, three: S, ti: S, tis: S, ts: S, t2: S, u: S, v: S, w: S|
        call_ensures(S::from_u8, (1u8,), one) && call_ensures(S::sub, (one, t), ti)
            && call_ensures(S::mul, (ti, ti), tis) && call_ensures(S::mul, (t, t), ts)
            && call_ensures(S::from_u8, (2u8,), two) && call_ensures(S::mul, (two, t), t2)
            && call_ensures(S::add, (one, t2), u) && call_ensures(S::mul, (u, tis), h00)
            && call_ensures(S::mul, (t, tis), h10) && call_ensures(S::from_u8, (3u8,), three)
            && call_ensures(S::sub, (three, t2), v) && call_ensures(S::mul, (ts, v), h01)
            && call_ensures(S::sub, (t, one), w) && call_ensures(S::mul, (ts, w), h11)
}

/// `r` may be `(h00·a.y + h10·a.m) + (h01·b.y + h11·b.m)`, `m` the tangent.
pub open spec fn hermite_gives<S: Scalar>(a: (S, S, S), b: (S, S, S), t: S, r: S) -> bool {
    exists|h00: S, h10: S, h01: S, h11: S, p1: S, p2: S, p3: S, p4: S, s1: S, s2: S|
        hermite_basis_gives(t, h00, h10, h01, h11) && call_ensures(S::mul, (h00, a.1), p1)
            && call_ensures(S::mul, (h10, a.2), p2) && call_ensures(S::add, (p1, p2), s1)
            && call_ensures(S::mul, (h01, b.1), p3) && call_ensures(S::mul, (h11, b.2), p4)
            && call_ensures(S::add, (p3, p4), s2) && call_ensures(S::add, (s1, s2), r)
}

/// `r` may be the blend of knots `a` and `b` at `x` that `mode` names.
pub open spec fn blend_gives<S: Scalar>(
    mode: InterpolationMode,
    a: (S, S, S),
    b: (S, S, S),
    x: S,
    r: S,
) -> bool {
    exists|t: S|
        position_gives(a, b, x, t) && match mode {
            InterpolationMode::Linear => linear_gives(a, b, t, r),
            InterpolationMode::Nearest => nearest_gives(a, b, t, r),
            InterpolationMode::CubicHermite => hermite_gives(a, b, t, r),
        }
}

/// Blends knots `a` and `b` at `x` as `mode` says.
fn blend<S: Scalar>(mode: InterpolationMode, a: (S, S, S), b: (S, S, S), x: S) -> (r: S)
    ensures
        blend_gives(mode, a, b, x, r),
{
    let d = x.sub(a.0);
    let w = b.0.sub(a.0);
    let t = d.div(w);
    assert(position_gives(a, b, x, t));
    match mode {
        InterpolationMode::Linear => {
            let one = S::from_u8(1);
            let u = one.sub(t);
            let p = u.mul(a.1);
            let q = t.mul(b.1);
            let r = p.add(q);
            assert(linear_gives(a, b, t, r));
            r
        },
        InterpolationMode::Nearest => {
            let one = S::from_u8(1);
            let two = S::from_u8(2);
            let half = one.div(two);
            let c = t.lt(half);
            let r = if c {
                a.1
            } else {
                b.1
            };
            assert(nearest_gives(a, b, t, r));
            r
        },
        InterpolationMode::CubicHermite => {
            let one = S::from_u8(1);
            let t_inverse = one.sub(t);
            let t_inverse_sqr = t_inverse.mul(t_inverse);
            let t_squared = t.mul(t);
            let two = S::from_u8(2);
            let t2 = two.mul(t);
            let u = one.add(t2);
            let h00 = u.mul(t_inverse_sqr);
            let h10 = t.mul(t_inverse_sqr);
            let three = S::from_u8(3);
            let v = three.sub(t2);
            let h01 = t_squared.mul(v);
            let w = t.sub(one);
            let h11 = t_squared.mul(w);
            assert(hermite_basis_gives(t, h00, h10, h01, h11));
            let p1 = h00.mul(a.1);
            let p2 = h10.mul(a.2);
            let s1 = p1.add(p2);
            let p3 = h01.mul(b.1);
            let p4 = h11.mul(b.2);
            let s2 = p3.add(p4);
            let r = s1.add(s2);
            assert(hermite_gives(a, b, t, r));
            r
        },
    }
}

impl<S: Scalar> Curve<S> {
    /// The curve's value at `x`, for a lookup table. Past the last knot the
    /// value is zero; at or before the first it is the first knot's `y`;
    /// between two knots, the first of which is left of `x` and the second
    /// not, it blends them as the interpolation mode says. A polynomial has no
    /// scalar form here and gives zero.
    pub fn eval_scalar(&self, x: S) -> (r: S)
        ensures
            self is Poly ==> call_ensures(S::zero, (), r),
            self matches Curve::LookupTable { values, .. } ==> {
                &&& values@.len() == 0 ==> call_ensures(S::zero, (), r)
                &&& knots_split_at(values@, x) && values@.len() > 0 && call_ensures(
                    S::lt,
                    (values@.last().0, x),
                    true,
                ) ==> call_ensures(S::zero, (), r)
                &&& knots_split_at(values@, x) && values@.len() > 0 && call_ensures(
                    S::lt,
                    (values@[0].0, x),
                    false,
                ) ==> r == values@[0].1
            },
            self matches Curve::LookupTable { values, interpolation } ==> forall|k: int|
                0 < k < values@.len() && knots_split_at(values@, x) && call_ensures(
                    S::lt,
                    (values@[k - 1].0, x),
                    true,
                ) && #[trigger] call_ensures(S::lt, (values@[k].0, x), false) ==> blend_gives(
                    *interpolation,
                    values@[k - 1],
                    values@[k],
                    x,
                    r,
                ),
    {
        match self {
            Curve::LookupTable { values, interpolation } => {
                let n = values.len();
                let left_of = |i: usize| -> (b: bool)
                    requires
                        i < n,
                    ensures
                        call_ensures(S::lt, (values@[i as int].0, x), b),
                    { values[i].0.lt(x) };
                let found = lower_bound(n, left_of);
                proof {
                    if knots_split_at(values@, x) && n > 0 {
                        if call_ensures(S::lt, (values@.last().0, x), true) {
                            if let Some(k) = found {
                                let j = choose|j: usize| j <= k && #[trigger] left_of.ensures((j,), false);
                                assert(call_ensures(S::lt, (values@[j as int].0, x), false));
                                assert(call_ensures(S::lt, (values@[n - 1].0, x), true));
                            }
                        }
                        if call_ensures(S::lt, (values@[0].0, x), false) {
                            let end = match found {
                                Some(k) => k,
                                None => n,
                            };
                            if end > 0 {
                                let (j, b) = choose|j: usize, b: bool|
                                    end - 1 <= j < n && b != false && #[trigger] left_of.ensures((j,), b);
                                assert(call_ensures(S::lt, (values@[j as int].0, x), true));
                                assert(call_ensures(S::lt, (values@[0].0, x), false));
                            }
                        }
                    }
                }
                proof {
                    assert forall|k: int|
                        0 < k < n && knots_split_at(values@, x) && call_ensures(
                            S::lt,
                            (values@[k - 1].0, x),
                            true,
                        ) && #[trigger] call_ensures(S::lt, (values@[k].0, x), false) implies found
                        == Some(k as usize) by {
                        let end: int = match found {
                            Some(m) => m as int,
                            None => n as int,
                        };
                        if end < k {
                            let m = found->Some_0;
                            let j = choose|j: usize| j <= m && #[trigger] left_of.ensures((j,), false);
                            assert(call_ensures(S::lt, (values@[j as int].0, x), false));
                        } else if end > k {
                            let (j, b) = choose|j: usize, b: bool|
                                end - 1 <= j < n && b != false && #[trigger] left_of.ensures((j,), b);
                            assert(call_ensures(S::lt, (values@[j as int].0, x), true));
                        }
                    }
                }
                match found {
                    Some(idx) => {
                        if idx > 0 {
                            blend(*interpolation, values[idx - 1], values[idx], x)
                        } else {
                            values[idx].1
                        }
                    },
                    None => S::zero(),
                }
            },
            Curve::Poly(_) => S::zero(),
        }
    }
}

/// Index of a curve in a [`ROM`].
#[derive(Debug, Clone, Copy, PartialEq, Eq, Structural, PartialOrd, Ord, Hash)]
pub struct CurveIndex(pub u8);

impl CurveIndex {
    /// The index `index`, which must fit in a byte.
    pub fn new(index: usize) -> (r: CurveIndex)
        requires
            index < 256,
        ensures
            r.0 == index,
    {
        CurveIndex(index as u8)
    }
}

impl From<CurveIndex> for usize {
    fn from(index: CurveIndex) -> (r: usize) {
        index.0 as usize
    }
}

impl vstd::std_specs::convert::FromSpecImpl<CurveIndex> for usize {
    open spec fn obeys_from_spec() -> bool {
        true
    }

    open spec fn from_spec(index: CurveIndex) -> usize {
        index.0 as usize
    }
}

/// Program data shared read-only by every run: scalar constants and curves.
pub struct ROM<S> {
    pub scalar: Vec<S>,
    pub curves: Vec<Curve<S>>,
}

impl<S> ROM<S> {
    /// The curve at `index`, which the program's producer guarantees is in range.
    pub fn get_curve(&self, index: CurveIndex) -> (r: &Curve<S>)
        requires
            (index.0 as int) < self.curves@.len(),
        ensures
            *r == self.curves@[index.0 as int],
    {
        self.curves.as_slice().get_unchecked_debug_checked(usize::from(index))
    }
}

} // verus!
