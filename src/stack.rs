//! Bounded operand stack of lane values over caller-supplied storage.

use vstd::prelude::*;
use vstd::slice::slice_subrange;

verus! {

/// Relies on `core::array::from_fn`: element `i` of the array is what `f`
/// returns for `i`.
#[verifier::external_body]
fn array_from_fn<T, F: Fn(usize) -> T, const N: usize>(f: F) -> (r: [T; N])
    requires
        forall|i: usize| i < N ==> #[trigger] f.requires((i,)),
    ensures
        forall|i: usize| i < N ==> f.ensures((i,), #[trigger] r@[i as int]),
{
    core::array::from_fn(f)
}

/// A LIFO of lane values. Slots below the cursor hold the live values; the
/// slots above it are never read.
pub struct Stack<T> {
    stack: Vec<T>,
    top: usize,
}

impl<T> View for Stack<T> {
    type V = Seq<T>;

    /// The live values, bottom first.
    closed spec fn view(&self) -> Seq<T> {
        self.stack@.subrange(0, self.top as int)
    }
}

impl<T: Copy> Stack<T> {
    /// The cursor never passes the end of the storage.
    pub closed spec fn wf(&self) -> bool {
        self.top <= self.stack@.len()
    }

    /// Number of slots in the storage.
    pub closed spec fn capacity(&self) -> nat {
        self.stack@.len()
    }

    /// The top `n` live values, bottom first.
    pub open spec fn top_n(&self, n: int) -> Seq<T> {
        self@.subrange(self@.len() - n, self@.len() as int)
    }

    /// The live values below the top `n`.
    pub open spec fn below(&self, n: int) -> Seq<T> {
        self@.subrange(0, self@.len() - n)
    }

    /// An empty stack over `stack`, whose length is the capacity.
    pub fn new(stack: Vec<T>) -> (r: Stack<T>)
        ensures
            r.wf(),
            r@ == Seq::<T>::empty(),
            r.capacity() == stack@.len(),
    {
        let r = Stack { stack, top: 0 };
        assert(r@ =~= Seq::<T>::empty());
        r
    }

    /// Gives the storage back, live values first, for reuse by another run.
    pub fn into_storage(self) -> (r: Vec<T>)
        requires
            self.wf(),
        ensures
            r@.len() == self.capacity(),
            r@.subrange(0, self@.len() as int) == self@,
    {
        self.stack
    }

    /// The live values, bottom first.
    pub fn as_slice(&self) -> (r: &[T])
        requires
            self.wf(),
        ensures
            r@ == self@,
    {
        slice_subrange(self.stack.as_slice(), 0, self.top)
    }

    /// Number of live values.
    pub fn len(&self) -> (r: usize)
        requires
            self.wf(),
        ensures
            r == self@.len(),
    {
        self.top
    }

    /// Hands the top `n` values, as a slice, to `f`.
    pub fn peek<F: FnOnce(&[T]) -> U, U>(&self, n: usize, f: F) -> (r: U)
        requires
            self.wf(),
            n <= self@.len(),
            forall|s: &[T]| s@ == self.top_n(n as int) ==> #[trigger] f.requires((s,)),
        ensures
            exists|s: &[T]| s@ == self.top_n(n as int) && #[trigger] f.ensures((s,), r),
    {
        let s = slice_subrange(self.stack.as_slice(), self.top - n, self.top);
        assert(s@ =~= self.top_n(n as int));
        f(s)
    }

    /// Hands the top `N` values, bottom first, to `f`, which returns the values
    /// that replace them and a result.
    pub fn peek_mut<F: FnOnce([T; N]) -> ([T; N], U), U, const N: usize>(&mut self, f: F) -> (r: U)
        requires
            old(self).wf(),
            N <= old(self)@.len(),
            forall|a: [T; N]| a@ == old(self).top_n(N as int) ==> #[trigger] f.requires((a,)),
        ensures
            final(self).wf(),
            final(self).capacity() == old(self).capacity(),
            final(self)@.len() == old(self)@.len(),
            final(self).below(N as int) == old(self).below(N as int),
            exists|a: [T; N], b: [T; N]|
                a@ == old(self).top_n(N as int) && #[trigger] f.ensures((a,), (b, r))
                    && final(self).top_n(N as int) == b@,
    {
        let a = self.peek_n::<N>();
        let (b, r) = f(a);
        let start = self.top - N;
        let mut i: usize = 0;
        while i < N
            invariant
                start + N == self.top,
                self.top == old(self).top,
                self.stack@.len() == old(self).stack@.len(),
                self.top <= self.stack@.len(),
                i <= N,
                self.stack@.subrange(0, start as int) == old(self).below(N as int),
                forall|j: int| 0 <= j < i ==> #[trigger] self.stack@[start + j] == b@[j],
                forall|j: int| i <= j < N ==> #[trigger] self.stack@[start + j] == old(self).stack@[start + j],
            decreases N - i,
        {
            self.stack.set(start + i, b[i]);
            assert(self.stack@.subrange(0, start as int) =~= old(self).below(N as int));
            i += 1;
        }
        assert(self.below(N as int) =~= old(self).below(N as int));
        assert forall|j: int| 0 <= j < N implies self.top_n(N as int)[j] == b@[j] by {
            assert(self.stack@[start + j] == b@[j]);
        }
        assert(self.top_n(N as int) =~= b@);
        r
    }

    /// Hands the top value to `f`.
    pub fn peek_one<F: FnOnce(&T) -> U, U>(&self, f: F) -> (r: U)
        requires
            self.wf(),
            1 <= self@.len(),
            f.requires((&self@.last(),)),
        ensures
            f.ensures((&self@.last(),), r),
    {
        f(&self.stack[self.top - 1])
    }

    /// Replaces the top value `x` with `f(x)`.
    pub fn peek_one_mut<F: FnOnce(T) -> T>(&mut self, f: F)
        requires
            old(self).wf(),
            1 <= old(self)@.len(),
            f.requires((old(self)@.last(),)),
        ensures
            final(self).wf(),
            final(self).capacity() == old(self).capacity(),
            final(self)@.len() == old(self)@.len(),
            final(self).below(1) == old(self).below(1),
            f.ensures((old(self)@.last(),), final(self)@.last()),
    {
        let i = self.top - 1;
        let x = self.stack[i];
        let y = f(x);
        self.stack.set(i, y);
        assert(self.below(1) =~= old(self).below(1));
    }

    /// Removes the top `n` values and hands them, as a slice, to `f`.
    pub fn pop<F: FnOnce(&[T]) -> U, U>(&mut self, n: usize, f: F) -> (r: U)
        requires
            old(self).wf(),
            n <= old(self)@.len(),
            forall|s: &[T]| s@ == old(self).top_n(n as int) ==> #[trigger] f.requires((s,)),
        ensures
            final(self).wf(),
            final(self).capacity() == old(self).capacity(),
            final(self)@ == old(self).below(n as int),
            exists|s: &[T]| s@ == old(self).top_n(n as int) && #[trigger] f.ensures((s,), r),
    {
        self.top = self.top - n;
        let s = slice_subrange(self.stack.as_slice(), self.top, self.top + n);
        assert(s@ =~= old(self).top_n(n as int));
        assert(self@ =~= old(self).below(n as int));
        f(s)
    }

    /// Pushes `n` values, the `i`-th of them being `f(i)`. One slot of the
    /// storage always stays free.
    pub fn push<F: Fn(usize) -> T>(&mut self, n: usize, f: F)
        requires
            old(self).wf(),
            old(self)@.len() + n < old(self).capacity(),
            forall|i: usize| i < n ==> #[trigger] f.requires((i,)),
        ensures
            final(self).wf(),
            final(self).capacity() == old(self).capacity(),
            final(self)@.len() == old(self)@.len() + n,
            final(self).below(n as int) == old(self)@,
            forall|i: usize| i < n ==> f.ensures((i,), #[trigger] final(self)@[old(self)@.len() + i]),
    {
        let base = self.top;
        let cap = self.stack.len();
        let mut i: usize = 0;
        while i < n
            invariant
                forall|j: usize| j < n ==> #[trigger] f.requires((j,)),
                cap == self.stack@.len(),
                base == old(self).top,
                base + n < self.stack@.len(),
                self.stack@.len() == old(self).stack@.len(),
                self.top == base,
                i <= n,
                self.stack@.subrange(0, base as int) == old(self)@,
                forall|j: usize| j < i ==> f.ensures((j,), #[trigger] self.stack@[base + j]),
            decreases n - i,
        {
            let v = f(i);
            self.stack.set(base + i, v);
            assert(self.stack@.subrange(0, base as int) =~= old(self)@);
            i += 1;
        }
        self.top = base + n;
        assert(self.below(n as int) =~= old(self)@);
    }

    /// Moves the top `buf.len()` values into `buf`, bottom first.
    pub fn pop_to(&mut self, buf: &mut [T])
        requires
            old(self).wf(),
            old(buf)@.len() <= old(self)@.len(),
        ensures
            final(self).wf(),
            final(self).capacity() == old(self).capacity(),
            final(buf)@ == old(self).top_n(old(buf)@.len() as int),
            final(self)@ == old(self).below(old(buf)@.len() as int),
    {
        let n = buf.len();
        let start = self.top - n;
        let mut i: usize = 0;
        while i < n
            invariant
                n == buf@.len(),
                start + n == self.top,
                self.top <= self.stack@.len(),
                self == old(self),
                i <= n,
                forall|j: int| 0 <= j < i ==> buf@[j] == self.stack@[start + j],
            decreases n - i,
        {
            buf[i] = self.stack[start + i];
            i += 1;
        }
        self.top = start;
        assert(buf@ =~= old(self).top_n(n as int));
        assert(self@ =~= old(self).below(n as int));
    }

    /// Pushes the values of `buf`, bottom first. One slot of the storage
    /// always stays free.
    pub fn push_from(&mut self, buf: &[T])
        requires
            old(self).wf(),
            old(self)@.len() + buf@.len() < old(self).capacity(),
        ensures
            final(self).wf(),
            final(self).capacity() == old(self).capacity(),
            final(self)@ == old(self)@ + buf@,
    {
        let base = self.top;
        let n = buf.len();
        let cap = self.stack.len();
        let mut i: usize = 0;
        while i < n
            invariant
                n == buf@.len(),
                cap == self.stack@.len(),
                base == old(self).top,
                base + n < self.stack@.len(),
                self.stack@.len() == old(self).stack@.len(),
                self.top == base,
                i <= n,
                self.stack@.subrange(0, base as int) == old(self)@,
                forall|j: int| 0 <= j < i ==> #[trigger] self.stack@[base + j] == buf@[j],
            decreases n - i,
        {
            self.stack.set(base + i, buf[i]);
            assert(self.stack@.subrange(0, base as int) =~= old(self)@);
            i += 1;
        }
        self.top = base + n;
        assert forall|k: int| 0 <= k < self@.len() implies self@[k] == (old(self)@ + buf@)[k] by {
            if k < base {
                assert(self.stack@.subrange(0, base as int)[k] == old(self)@[k]);
            } else {
                assert(self.stack@[base + (k - base)] == buf@[k - base]);
            }
        }
        assert(self@ =~= old(self)@ + buf@);
    }

    /// The top `N` values, bottom first, left on the stack.
    pub fn peek_n<const N: usize>(&self) -> (r: [T; N])
        requires
            self.wf(),
            N <= self@.len(),
        ensures
            r@ == self.top_n(N as int),
    {
        let start = self.top - N;
        let slot = |i: usize| -> (x: T)
            requires
                N > i,
            ensures
                x == self.stack@[start + i],
            { self.stack[start + i] };
        let r: [T; N] = array_from_fn(slot);
        assert(r@ =~= self.top_n(N as int));
        r
    }

    /// Removes the top `N` values and returns them, bottom first.
    pub fn pop_n<const N: usize>(&mut self) -> (r: [T; N])
        requires
            old(self).wf(),
            N <= old(self)@.len(),
        ensures
            final(self).wf(),
            final(self).capacity() == old(self).capacity(),
            r@ == old(self).top_n(N as int),
            final(self)@ == old(self).below(N as int),
    {
        let r = self.peek_n::<N>();
        self.top = self.top - N;
        assert(self@ =~= old(self).below(N as int));
        r
    }

    /// Pushes `values`, bottom first. One slot of the storage always stays
    /// free.
    pub fn push_n<const N: usize>(&mut self, values: [T; N])
        requires
            old(self).wf(),
            old(self)@.len() + N < old(self).capacity(),
        ensures
            final(self).wf(),
            final(self).capacity() == old(self).capacity(),
            final(self)@ == old(self)@ + values@,
    {
        self.push_from(values.as_slice());
    }

    /// Pops `M` values, hands them to `f`, and pushes the `N` values it
    /// returns.
    pub fn map<F: FnOnce([T; M]) -> [T; N], const M: usize, const N: usize>(&mut self, f: F)
        requires
            old(self).wf(),
            M <= old(self)@.len(),
            old(self)@.len() - M + N < old(self).capacity(),
            forall|a: [T; M]| a@ == old(self).top_n(M as int) ==> #[trigger] f.requires((a,)),
        ensures
            final(self).wf(),
            final(self).capacity() == old(self).capacity(),
            exists|a: [T; M], b: [T; N]|
                a@ == old(self).top_n(M as int) && #[trigger] f.ensures((a,), b) && final(self)@
                    == old(self).below(M as int) + b@,
    {
        let a = self.pop_n::<M>();
        let b = f(a);
        self.push_n(b);
    }

    /// Pops `N` values, hands them to `f`, and pushes the value it returns.
    pub fn reduce<F: FnOnce([T; N]) -> T, const N: usize>(&mut self, f: F)
        requires
            old(self).wf(),
            N <= old(self)@.len(),
            old(self)@.len() - N + 1 < old(self).capacity(),
            forall|a: [T; N]| a@ == old(self).top_n(N as int) ==> #[trigger] f.requires((a,)),
        ensures
            final(self).wf(),
            final(self).capacity() == old(self).capacity(),
            exists|a: [T; N], v: T|
                a@ == old(self).top_n(N as int) && #[trigger] f.ensures((a,), v) && final(self)@
                    == old(self).below(N as int).push(v),
    {
        let a = self.pop_n::<N>();
        let v = f(a);
        self.push_n([v]);
        assert(self@ =~= old(self).below(N as int).push(v));
    }
}

} // verus!
