//! The shading VM's instruction set and its dispatch over the operand stack.

use vstd::prelude::*;
use crate::rom::{Curve, CurveIndex, ROM};
use crate::stack::Stack;

verus! {

/// One-operand per-lane policies.
#[derive(Debug, Clone, Copy, PartialEq, Eq, Structural, PartialOrd, Hash)]
pub enum UnaryOp {
    Saturate,
    Neg,
    Abs,
    Sqrt,
    Square,
    Sign,
    Ln,
    Sin,
    Cos,
    Tan,
    ArcSin,
    ArcCos,
    ArcTan,
    Trunc,
    Fract,
    Round,
    Floor,
    Ceil,
    ToDegrees,
    ToRadians,
    Invert,
    Heavyside,
}

/// Two-operand per-lane policies.
#[derive(Debug, Clone, Copy, PartialEq, Eq, Structural, PartialOrd, Hash)]
pub enum BinaryOp {
    Add,
    Sub,
    Mul,
    Div,
    Rem,
    Powf,
    Min,
    Max,
    ArcTan2,
    Hypot,
}

/// Per-lane comparisons, answering one or zero.
#[derive(Debug, Clone, Copy, PartialEq, Eq, Structural, PartialOrd, Hash)]
pub enum CompareMode {
    LessThan,
    LessThanEqual,
    Equal,
    ApproxEqual,
    GreaterThan,
    GreaterThanEqual,
}

/// What the instruction set needs of a lane vector whose scalars are `S`: the
/// per-lane policies, the folds of a 3-vector, and curve evaluation. The
/// numeric type that realises it supplies these.
pub trait Lane<S>: Copy + Sized {
    fn unary(self, op: UnaryOp) -> Self;

    fn binary(self, op: BinaryOp, b: Self) -> Self;

    fn compare(self, mode: CompareMode, b: Self) -> Self;

    fn add(self, b: Self) -> Self;

    fn mul(self, b: Self) -> Self;

    fn min(self, b: Self) -> Self;

    fn max(self, b: Self) -> Self;

    fn curve(self, curve: &Curve<S>) -> Self;
}

/// `v` is a value that `unary` may give for `x`.
pub open spec fn unary_gives<S, L: Lane<S>>(op: UnaryOp, x: L, v: L) -> bool {
    call_ensures(L::unary, (x, op), v)
}

/// `v` is a value that `binary` may give for `a` and `b`.
pub open spec fn binary_gives<S, L: Lane<S>>(op: BinaryOp, a: L, b: L, v: L) -> bool {
    call_ensures(L::binary, (a, op, b), v)
}

/// `v` is a value that `compare` may give for `a` and `b`.
pub open spec fn compare_gives<S, L: Lane<S>>(mode: CompareMode, a: L, b: L, v: L) -> bool {
    call_ensures(L::compare, (a, mode, b), v)
}

/// The ways a 3-vector is folded into one value.
#[derive(Clone, Copy)]
pub enum Fold {
    Sum,
    Product,
    Min,
    Max,
}

/// `v` is a value that the pairwise operation of `fold` may give for `a` and `b`.
pub open spec fn fold_step_gives<S, L: Lane<S>>(fold: Fold, a: L, b: L, v: L) -> bool {
    match fold {
        Fold::Sum => call_ensures(L::add, (a, b), v),
        Fold::Product => call_ensures(L::mul, (a, b), v),
        Fold::Min => call_ensures(L::min, (a, b), v),
        Fold::Max => call_ensures(L::max, (a, b), v),
    }
}

/// `v` is what folding `x`, `y`, `z` left to right may give.
pub open spec fn fold_gives<S, L: Lane<S>>(fold: Fold, x: L, y: L, z: L, v: L) -> bool {
    exists|w: L| fold_step_gives::<S, L>(fold, x, y, w) && fold_step_gives::<S, L>(fold, w, z, v)
}

/// The pairwise operation of `fold` on `a` and `b`.
fn fold_step<S, L: Lane<S>>(fold: Fold, a: L, b: L) -> (r: L)
    ensures
        fold_step_gives::<S, L>(fold, a, b, r),
{
    match fold {
        Fold::Sum => a.add(b),
        Fold::Product => a.mul(b),
        Fold::Min => a.min(b),
        Fold::Max => a.max(b),
    }
}

/// Replaces the top three values of `stack` with their fold.
fn fold_top<S, L: Lane<S>>(stack: &mut Stack<L>, fold: Fold)
    requires
        old(stack).wf(),
        3 <= old(stack)@.len(),
        old(stack)@.len() - 2 < old(stack).capacity(),
    ensures
        final(stack).wf(),
        final(stack).capacity() == old(stack).capacity(),
        final(stack)@.len() == old(stack)@.len() - 2,
        final(stack).below(1) == old(stack).below(3),
        fold_gives::<S, L>(
            fold,
            old(stack).top_n(3)[0],
            old(stack).top_n(3)[1],
            old(stack).top_n(3)[2],
            final(stack).top_n(1)[0],
        ),
{
    let ghost before = stack@;
    let f = |a: [L; 3]| -> (r: L)
        ensures
            fold_gives::<S, L>(fold, a@[0], a@[1], a@[2], r),
        {
            let w = fold_step(fold, a[0], a[1]);
            let r = fold_step(fold, w, a[2]);
            assert(fold_step_gives::<S, L>(fold, a@[0], a@[1], w));
            r
        };
    stack.reduce(f);
    proof {
        lemma_reduced(f, before, stack@);
    }
}

/// After `reduce` with `f`: the popped array and the pushed value, as
/// witnesses.
proof fn lemma_reduced<T, F: FnOnce([T; N]) -> T, const N: usize>(
    f: F,
    before: Seq<T>,
    after: Seq<T>,
) -> (av: ([T; N], T))
    requires
        N <= before.len(),
        exists|a: [T; N], v: T|
            a@ == before.subrange(before.len() - N, before.len() as int) && #[trigger] f.ensures(
                (a,),
                v,
            ) && after == before.subrange(0, before.len() - N).push(v),
    ensures
        av.0@ == before.subrange(before.len() - N, before.len() as int),
        f.ensures((av.0,), av.1),
        after == before.subrange(0, before.len() - N).push(av.1),
        after.subrange(after.len() - 1, after.len() as int) == seq![av.1],
{
    let (a, v) = choose|a: [T; N], v: T|
        a@ == before.subrange(before.len() - N, before.len() as int) && #[trigger] f.ensures((a,), v)
            && after == before.subrange(0, before.len() - N).push(v);
    assert(after.subrange(after.len() - 1, after.len() as int) =~= seq![v]);
    (a, v)
}

/// After `map` with `f`: the popped and the pushed arrays, as witnesses.
proof fn lemma_mapped<T, F: FnOnce([T; M]) -> [T; N], const M: usize, const N: usize>(
    f: F,
    before: Seq<T>,
    after: Seq<T>,
) -> (ab: ([T; M], [T; N]))
    requires
        M <= before.len(),
        exists|a: [T; M], b: [T; N]|
            a@ == before.subrange(before.len() - M, before.len() as int) && #[trigger] f.ensures(
                (a,),
                b,
            ) && after == before.subrange(0, before.len() - M) + b@,
    ensures
        ab.0@ == before.subrange(before.len() - M, before.len() as int),
        f.ensures((ab.0,), ab.1),
        after.subrange(after.len() - N, after.len() as int) == ab.1@,
{
    let (a, b) = choose|a: [T; M], b: [T; N]|
        a@ == before.subrange(before.len() - M, before.len() as int) && #[trigger] f.ensures((a,), b)
            && after == before.subrange(0, before.len() - M) + b@;
    assert(after.subrange(after.len() - N, after.len() as int) =~= b@);
    (a, b)
}

/// One operation of the VM, with at most one small operand.
#[derive(Debug, Clone, Copy, PartialEq, Eq, Structural)]
pub enum Instruction {
    NoOp,
    ScalarBinary(BinaryOp),
    ScalarUnary(UnaryOp),
    ScalarCompare(CompareMode),
    VectorBinary(BinaryOp),
    VectorUnary(UnaryOp),
    VectorCompare(CompareMode),
    VectorSum,
    VectorProduct,
    VectorMin,
    VectorMax,
    VectorSplat,
    CopyScalar(u8),
    CopyVector(u8),
    Curve(CurveIndex),
}

impl Instruction {
    /// How many values the instruction takes off the stack.
    pub open spec fn pops(self) -> nat {
        match self {
            Instruction::NoOp => 0,
            Instruction::ScalarBinary(_) => 2,
            Instruction::ScalarUnary(_) => 1,
            Instruction::ScalarCompare(_) => 2,
            Instruction::VectorBinary(_) => 6,
            Instruction::VectorUnary(_) => 3,
            Instruction::VectorCompare(_) => 6,
            Instruction::VectorSum => 3,
            Instruction::VectorProduct => 3,
            Instruction::VectorMin => 3,
            Instruction::VectorMax => 3,
            Instruction::VectorSplat => 1,
            Instruction::CopyScalar(_) => 0,
            Instruction::CopyVector(_) => 0,
            Instruction::Curve(_) => 1,
        }
    }

    /// How many values the instruction puts on the stack.
    pub open spec fn pushes(self) -> nat {
        match self {
            Instruction::NoOp => 0,
            Instruction::ScalarBinary(_) => 1,
            Instruction::ScalarUnary(_) => 1,
            Instruction::ScalarCompare(_) => 1,
            Instruction::VectorBinary(_) => 3,
            Instruction::VectorUnary(_) => 3,
            Instruction::VectorCompare(_) => 3,
            Instruction::VectorSum => 1,
            Instruction::VectorProduct => 1,
            Instruction::VectorMin => 1,
            Instruction::VectorMax => 1,
            Instruction::VectorSplat => 3,
            Instruction::CopyScalar(k) => k as nat,
            Instruction::CopyVector(k) => 3 * k as nat,
            Instruction::Curve(_) => 1,
        }
    }

    /// How many values must be on the stack for the instruction to run.
    pub open spec fn reads(self) -> nat {
        match self {
            Instruction::CopyScalar(_) => 1,
            Instruction::CopyVector(_) => 3,
            _ => self.pops(),
        }
    }

    /// The stack depth and capacity let the instruction run: enough values to
    /// read, and after a push one slot of the storage still free.
    pub open spec fn fits(self, depth: nat, capacity: nat) -> bool {
        &&& self.reads() <= depth
        &&& self is NoOp || depth - self.pops() + self.pushes() < capacity
    }

    /// The ROM holds every curve the instruction names.
    pub open spec fn rom_ok<S>(self, rom: &ROM<S>) -> bool {
        self matches Instruction::Curve(idx) ==> (idx.0 as int) < rom.curves@.len()
    }

    /// The values the instruction pushes, `out`, follow from those it pops,
    /// `input`, by the lane operations it names: the `i`-th output of a vector
    /// operation from the `i`-th component of each operand triple, the lower
    /// triple giving the first operand. Copies and splats are stated on the
    /// whole stack instead.
    pub open spec fn computes<S, L: Lane<S>>(self, rom: &ROM<S>, input: Seq<L>, out: Seq<L>) -> bool {
        match self {
            Instruction::ScalarUnary(op) => unary_gives::<S, L>(op, input[0], out[0]),
            Instruction::ScalarBinary(op) => binary_gives::<S, L>(op, input[0], input[1], out[0]),
            Instruction::ScalarCompare(mode) => compare_gives::<S, L>(mode, input[0], input[1], out[0]),
            Instruction::VectorUnary(op) => {
                &&& unary_gives::<S, L>(op, input[0], out[0])
                &&& unary_gives::<S, L>(op, input[1], out[1])
                &&& unary_gives::<S, L>(op, input[2], out[2])
            },
            Instruction::VectorBinary(op) => {
                &&& binary_gives::<S, L>(op, input[0], input[3], out[0])
                &&& binary_gives::<S, L>(op, input[1], input[4], out[1])
                &&& binary_gives::<S, L>(op, input[2], input[5], out[2])
            },
            Instruction::VectorCompare(mode) => {
                &&& compare_gives::<S, L>(mode, input[0], input[3], out[0])
                &&& compare_gives::<S, L>(mode, input[1], input[4], out[1])
                &&& compare_gives::<S, L>(mode, input[2], input[5], out[2])
            },
            Instruction::VectorSum => fold_gives::<S, L>(Fold::Sum, input[0], input[1], input[2], out[0]),
            Instruction::VectorProduct => fold_gives::<S, L>(Fold::Product, input[0], input[1], input[2], out[0]),
            Instruction::VectorMin => fold_gives::<S, L>(Fold::Min, input[0], input[1], input[2], out[0]),
            Instruction::VectorMax => fold_gives::<S, L>(Fold::Max, input[0], input[1], input[2], out[0]),
            Instruction::Curve(idx) => call_ensures(L::curve, (input[0], &rom.curves@[idx.0 as int]), out[0]),
            _ => true,
        }
    }

    /// Runs the instruction on `stack`, reading curves from `rom`.
    pub fn eval<S, L: Lane<S>>(self, stack: &mut Stack<L>, rom: &ROM<S>)
        requires
            old(stack).wf(),
            self.fits(old(stack)@.len(), old(stack).capacity()),
            self.rom_ok(rom),
        ensures
            final(stack).wf(),
            final(stack).capacity() == old(stack).capacity(),
            final(stack)@.len() == old(stack)@.len() - self.pops() + self.pushes(),
            final(stack).below(self.pushes() as int) == old(stack).below(self.pops() as int),
            self.computes(
                rom,
                old(stack).top_n(self.pops() as int),
                final(stack).top_n(self.pushes() as int),
            ),
            self is NoOp ==> final(stack)@ == old(stack)@,
            self is VectorSplat ==> final(stack)@ == old(stack).below(1) + seq![
                old(stack)@.last(),
                old(stack)@.last(),
                old(stack)@.last(),
            ],
            self matches Instruction::CopyScalar(k) ==> final(stack)@ == old(stack)@ + Seq::new(
                k as nat,
                |i: int| old(stack)@.last(),
            ),
            self matches Instruction::CopyVector(k) ==> final(stack)@ == old(stack)@ + Seq::new(
                3 * k as nat,
                |i: int| old(stack).top_n(3)[i % 3],
            ),
    {
        let ghost before = stack@;
        match self {
            Instruction::NoOp => {},
            Instruction::ScalarUnary(op) => {
                let f = |x: L| -> (r: L)
                    ensures
                        unary_gives::<S, L>(op, x, r),
                    { x.unary(op) };
                stack.peek_one_mut(f);
                proof {
                    assert(stack.top_n(1) =~= seq![stack@.last()]);
                    assert(before.subrange(before.len() - 1, before.len() as int) =~= seq![before.last()]);
                }
            },
            Instruction::ScalarBinary(op) => {
                let f = |a: [L; 2]| -> (r: L)
                    ensures
                        binary_gives::<S, L>(op, a@[0], a@[1], r),
                    { a[0].binary(op, a[1]) };
                stack.reduce(f);
                proof {
                    lemma_reduced(f, before, stack@);
                }
            },
            Instruction::ScalarCompare(mode) => {
                let f = |a: [L; 2]| -> (r: L)
                    ensures
                        compare_gives::<S, L>(mode, a@[0], a@[1], r),
                    { a[0].compare(mode, a[1]) };
                stack.reduce(f);
                proof {
                    lemma_reduced(f, before, stack@);
                }
            },
            Instruction::VectorUnary(op) => {
                let f = |a: [L; 3]| -> (r: [L; 3])
                    ensures
                        unary_gives::<S, L>(op, a@[0], r@[0]),
                        unary_gives::<S, L>(op, a@[1], r@[1]),
                        unary_gives::<S, L>(op, a@[2], r@[2]),
                    {
                        let r = [a[0].unary(op), a[1].unary(op), a[2].unary(op)];
                        r
                    };
                stack.map(f);
                proof {
                    lemma_mapped(f, before, stack@);
                }
            },
            Instruction::VectorBinary(op) => {
                let f = |a: [L; 6]| -> (r: [L; 3])
                    ensures
                        binary_gives::<S, L>(op, a@[0], a@[3], r@[0]),
                        binary_gives::<S, L>(op, a@[1], a@[4], r@[1]),
                        binary_gives::<S, L>(op, a@[2], a@[5], r@[2]),
                    {
                        let r = [a[0].binary(op, a[3]), a[1].binary(op, a[4]), a[2].binary(op, a[5])];
                        r
                    };
                stack.map(f);
                proof {
                    lemma_mapped(f, before, stack@);
                }
            },
            Instruction::VectorCompare(mode) => {
                let f = |a: [L; 6]| -> (r: [L; 3])
                    ensures
                        compare_gives::<S, L>(mode, a@[0], a@[3], r@[0]),
                        compare_gives::<S, L>(mode, a@[1], a@[4], r@[1]),
                        compare_gives::<S, L>(mode, a@[2], a@[5], r@[2]),
                    {
                        let r = [a[0].compare(mode, a[3]), a[1].compare(mode, a[4]), a[2].compare(mode, a[5])];
                        r
                    };
                stack.map(f);
                proof {
                    lemma_mapped(f, before, stack@);
                }
            },
            Instruction::VectorSum => fold_top(stack, Fold::Sum),
            Instruction::VectorProduct => fold_top(stack, Fold::Product),
            Instruction::VectorMin => fold_top(stack, Fold::Min),
            Instruction::VectorMax => fold_top(stack, Fold::Max),
            Instruction::VectorSplat => {
                let splat = |a: [L; 1]| -> (r: [L; 3])
                    ensures
                        r@ == seq![a@[0], a@[0], a@[0]],
                    { [a[0], a[0], a[0]] };
                stack.map(splat);
            },
            Instruction::CopyScalar(count) => {
                let read = |x: &L| -> (r: L)
                    ensures
                        r == *x,
                    { *x };
                let value = stack.peek_one(read);
                let fill = |i: usize| -> (r: L)
                    ensures
                        r == value,
                    { value };
                stack.push(count as usize, fill);
                proof {
                    let want = before + Seq::new(count as nat, |i: int| before.last());
                    assert forall|j: int| 0 <= j < want.len() implies stack@[j] == want[j] by {
                        if j >= before.len() {
                            let i = (j - before.len()) as usize;
                            assert(fill.ensures((i,), stack@[before.len() + i]));
                        } else {
                            assert(stack.below(count as int)[j] == before[j]);
                        }
                    }
                    assert(stack@ =~= want);
                }
            },
            Instruction::CopyVector(count) => {
                let xyz = stack.peek_n::<3>();
                let cycle = |i: usize| -> (r: L)
                    ensures
                        r == xyz@[i as int % 3],
                    { xyz[i % 3] };
                stack.push(count as usize * 3, cycle);
                proof {
                    let top3 = before.subrange(before.len() - 3, before.len() as int);
                    let want = before + Seq::new(3 * count as nat, |i: int| top3[i % 3]);
                    assert forall|j: int| 0 <= j < want.len() implies stack@[j] == want[j] by {
                        if j >= before.len() {
                            let i = (j - before.len()) as usize;
                            assert(cycle.ensures((i,), stack@[before.len() + i]));
                        } else {
                            assert(stack.below(3 * count as int)[j] == before[j]);
                        }
                    }
                    assert(stack@ =~= want);
                }
            },
            Instruction::Curve(idx) => {
                let curve = rom.get_curve(idx);
                let f = |x: L| -> (r: L)
                    ensures
                        call_ensures(L::curve, (x, curve), r),
                    { x.curve(curve) };
                stack.peek_one_mut(f);
                proof {
                    assert(stack.top_n(1) =~= seq![stack@.last()]);
                    assert(before.subrange(before.len() - 1, before.len() as int) =~= seq![before.last()]);
                }
            },
        }
    }
}

} // verus!
