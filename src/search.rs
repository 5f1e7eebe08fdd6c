//! Count-halving binary searches driven by index predicates.

use vstd::prelude::*;

verus! {

/// Every value that `f` may return at index `i` is `true`.
pub open spec fn always_true<F: Fn(usize) -> bool>(f: F, i: usize) -> bool {
    forall|b: bool| f.ensures((i,), b) ==> b
}

/// Every value that `f` may return at index `i` is `false`.
pub open spec fn always_false<F: Fn(usize) -> bool>(f: F, i: usize) -> bool {
    forall|b: bool| f.ensures((i,), b) ==> !b
}

/// Over `0..size`, once `f` has answered `false` it never answers `true` at the
/// same or a later index: true on a prefix, false on the rest.
pub open spec fn prefix_true<F: Fn(usize) -> bool>(f: F, size: usize) -> bool {
    forall|i: usize, j: usize, a: bool, b: bool|
        i <= j < size && #[trigger] f.ensures((i,), a) && #[trigger] f.ensures((j,), b) && !a
            ==> !b
}

/// Over `0..size`, once `f` has answered `true` it never answers `false` at the
/// same or a later index: false on a prefix, true on the rest.
pub open spec fn prefix_false<F: Fn(usize) -> bool>(f: F, size: usize) -> bool {
    forall|i: usize, j: usize, a: bool, b: bool|
        i <= j < size && #[trigger] f.ensures((i,), a) && #[trigger] f.ensures((j,), b) && a
            ==> b
}

/// `f` may be called at every index below `size`.
pub open spec fn callable<F: Fn(usize) -> bool>(f: F, size: usize) -> bool {
    forall|i: usize| i < size ==> #[trigger] f.requires((i,))
}

/// `r` rests on answers that `f` actually gave: `at` at or before a returned
/// index, and the opposite answer just before where the result ends (the
/// returned index, or `size` for `None`).
pub open spec fn witnessed<F: Fn(usize) -> bool>(f: F, size: usize, r: Option<usize>, at: bool) -> bool {
    let end = match r {
        Some(k) => k,
        None => size,
    };
    &&& r matches Some(k) ==> exists|j: usize| j <= k && #[trigger] f.ensures((j,), at)
    &&& end > 0 ==> exists|j: usize, b: bool|
        end - 1 <= j < size && b != at && #[trigger] f.ensures((j,), b)
}

/// `r` is the first index below `size` at which `f` is false, or `None` when `f`
/// is true everywhere below `size`.
pub open spec fn is_first_false<F: Fn(usize) -> bool>(f: F, size: usize, r: Option<usize>) -> bool {
    match r {
        None => forall|i: usize| i < size ==> always_true(f, i),
        Some(k) => {
            &&& k < size
            &&& always_false(f, k)
            &&& forall|i: usize| i < k ==> always_true(f, i)
        },
    }
}

/// `r` is the first index below `size` at which `f` is true, or `None` when `f`
/// is false everywhere below `size`.
pub open spec fn is_first_true<F: Fn(usize) -> bool>(f: F, size: usize, r: Option<usize>) -> bool {
    match r {
        None => forall|i: usize| i < size ==> always_false(f, i),
        Some(k) => {
            &&& k < size
            &&& always_true(f, k)
            &&& forall|i: usize| i < k ==> always_false(f, i)
        },
    }
}

/// Smallest index at which the "element is greater than the key" predicate
/// `gt` is true, `None` when there is none (an empty range included). The
/// answer is meaningful when `gt` is false on a prefix and true on the rest;
/// otherwise it is only some index in range, or `None`.
pub fn upper_bound<F: Fn(usize) -> bool>(size: usize, gt: F) -> (r: Option<usize>)
    requires
        callable(gt, size),
    ensures
        r matches Some(k) ==> k < size,
        witnessed(gt, size, r, true),
        prefix_false(gt, size) ==> is_first_true(gt, size, r),
{
    if size == 0 {
        return None;
    }
    let mut count: usize = size;
    let mut first: usize = 0;
    while count > 1
        invariant
            callable(gt, size),
            first + count < size ==> exists|j: usize| j <= first + count && #[trigger] gt.ensures((j,), true),
            1 <= count,
            first + count <= size,
            first == 0 || gt.ensures((first,), false),
            prefix_false(gt, size) && first + count < size ==> always_true(gt, (first + count) as usize),
        decreases count,
    {
        let half = count / 2;
        let mid = first + half;
        let greater = gt(mid);
        proof {
            if greater {
                assert(gt.ensures((mid,), true));
                if prefix_false(gt, size) {
                    let upper = (first + count - half) as usize;
                    assert forall|b: bool| gt.ensures((upper,), b) implies b by {
                        assert(gt.ensures((mid,), greater));
                    }
                }
            }
        }
        first = if greater { first } else { mid };
        count -= half;
    }
    let not_greater = !gt(first);
    let idx = first + not_greater as usize;
    proof {
        if prefix_false(gt, size) {
            assert forall|i: usize| i < idx implies always_false(gt, i) by {
                assert forall|b: bool| gt.ensures((i,), b) implies !b by {
                    if not_greater {
                        assert(gt.ensures((first,), !not_greater));
                    } else {
                        assert(gt.ensures((first,), false));
                    }
                }
            }
            if idx < size && not_greater {
                assert forall|b: bool| gt.ensures((idx,), b) implies b by {
                    assert(gt.ensures((first,), !not_greater));
                }
            }
        }
    }
    if idx == size {
        None
    } else {
        Some(idx)
    }
}

/// Smallest index at which the "element is less than the key" predicate `lt`
/// is false, `None` when there is none (an empty range included). The answer
/// is meaningful when `lt` is true on a prefix and false on the rest;
/// otherwise it is only some index in range, or `None`.
pub fn lower_bound<F: Fn(usize) -> bool>(size: usize, lt: F) -> (r: Option<usize>)
    requires
        callable(lt, size),
    ensures
        r matches Some(k) ==> k < size,
        witnessed(lt, size, r, false),
        prefix_true(lt, size) ==> is_first_false(lt, size, r),
{
    if size == 0 {
        return None;
    }
    let mut count: usize = size;
    let mut first: usize = 0;
    while count > 1
        invariant
            callable(lt, size),
            first + count < size ==> exists|j: usize| j <= first + count && #[trigger] lt.ensures((j,), false),
            1 <= count,
            first + count <= size,
            first == 0 || lt.ensures((first,), true),
            prefix_true(lt, size) && first + count < size ==> always_false(lt, (first + count) as usize),
        decreases count,
    {
        let half = count / 2;
        let mid = first + half;
        let less = lt(mid);
        proof {
            if !less {
                assert(lt.ensures((mid,), false));
                if prefix_true(lt, size) {
                    let upper = (first + count - half) as usize;
                    assert forall|b: bool| lt.ensures((upper,), b) implies !b by {
                        assert(lt.ensures((mid,), less));
                    }
                }
            }
        }
        first = if less { mid } else { first };
        count -= half;
    }
    let less = lt(first);
    let idx = first + less as usize;
    proof {
        if prefix_true(lt, size) {
            assert forall|i: usize| i < idx implies always_true(lt, i) by {
                assert forall|b: bool| lt.ensures((i,), b) implies b by {
                    if less {
                        assert(lt.ensures((first,), less));
                    } else {
                        assert(lt.ensures((first,), true));
                    }
                }
            }
            if idx < size && !less {
                assert forall|b: bool| lt.ensures((idx,), b) implies !b by {
                    assert(lt.ensures((first,), less));
                }
            }
        }
    }
    if idx == size {
        None
    } else {
        Some(idx)
    }
}

/// The first index in `i..size` at which `p` holds, found by a linear scan.
pub open spec fn linear_first(p: spec_fn(int) -> bool, i: int, size: int) -> Option<int>
    decreases size - i,
{
    if i >= size {
        None
    } else if p(i) {
        Some(i)
    } else {
        linear_first(p, i + 1, size)
    }
}

/// An index result seen as a mathematical integer.
pub open spec fn index_of(r: Option<usize>) -> Option<int> {
    match r {
        Some(k) => Some(k as int),
        None => None,
    }
}

/// Elements in non-decreasing order.
pub open spec fn sorted(s: Seq<int>) -> bool {
    forall|i: int, j: int| 0 <= i <= j < s.len() ==> s[i] <= s[j]
}

proof fn lemma_linear_first(p: spec_fn(int) -> bool, i: int, size: int, k: int)
    requires
        0 <= i <= k <= size,
        forall|j: int| i <= j < k ==> !#[trigger] p(j),
        k < size ==> p(k),
    ensures
        linear_first(p, i, size) == (if k < size { Some(k) } else { None::<int> }),
    decreases k - i,
{
    if i < k {
        lemma_linear_first(p, i + 1, size, k);
    }
}

/// Over a sorted sequence, with `lt` deciding `s[i] < key`, whatever
/// `lower_bound` returns is the first index whose element is not below the
/// key, as a linear scan finds it.
pub proof fn lower_bound_matches_linear_scan<F: Fn(usize) -> bool>(
    s: Seq<int>,
    key: int,
    lt: F,
    r: Option<usize>,
)
    requires
        sorted(s),
        s.len() <= usize::MAX,
        forall|i: usize, b: bool| i < s.len() ==> (lt.ensures((i,), b) <==> b == (s[i as int] < key)),
        prefix_true(lt, s.len() as usize) ==> is_first_false(lt, s.len() as usize, r),
    ensures
        prefix_true(lt, s.len() as usize),
        index_of(r) == linear_first(|i: int| !(s[i] < key), 0, s.len() as int),
{
    let p = |i: int| !(s[i] < key);
    assert(prefix_true(lt, s.len() as usize));
    match r {
        Some(k) => {
            assert(lt.ensures((k,), s[k as int] < key));
            assert forall|j: int| 0 <= j < k implies !#[trigger] p(j) by {
                assert(lt.ensures((j as usize,), s[j] < key));
                assert(always_true(lt, j as usize));
            }
            lemma_linear_first(p, 0, s.len() as int, k as int);
        },
        None => {
            assert forall|j: int| 0 <= j < s.len() implies !#[trigger] p(j) by {
                assert(lt.ensures((j as usize,), s[j] < key));
                assert(always_true(lt, j as usize));
            }
            lemma_linear_first(p, 0, s.len() as int, s.len() as int);
        },
    }
}

/// Over a sorted sequence, with `gt` deciding `s[i] > key`, whatever
/// `upper_bound` returns is the first index whose element is above the key,
/// as a linear scan finds it.
pub proof fn upper_bound_matches_linear_scan<F: Fn(usize) -> bool>(
    s: Seq<int>,
    key: int,
    gt: F,
    r: Option<usize>,
)
    requires
        sorted(s),
        s.len() <= usize::MAX,
        forall|i: usize, b: bool| i < s.len() ==> (gt.ensures((i,), b) <==> b == (s[i as int] > key)),
        prefix_false(gt, s.len() as usize) ==> is_first_true(gt, s.len() as usize, r),
    ensures
        prefix_false(gt, s.len() as usize),
        index_of(r) == linear_first(|i: int| s[i] > key, 0, s.len() as int),
{
    let p = |i: int| s[i] > key;
    assert(prefix_false(gt, s.len() as usize));
    match r {
        Some(k) => {
            assert(gt.ensures((k,), s[k as int] > key));
            assert forall|j: int| 0 <= j < k implies !#[trigger] p(j) by {
                assert(gt.ensures((j as usize,), s[j] > key));
                assert(always_false(gt, j as usize));
            }
            lemma_linear_first(p, 0, s.len() as int, k as int);
        },
        None => {
            assert forall|j: int| 0 <= j < s.len() implies !#[trigger] p(j) by {
                assert(gt.ensures((j as usize,), s[j] > key));
                assert(always_false(gt, j as usize));
            }
            lemma_linear_first(p, 0, s.len() as int, s.len() as int);
        },
    }
}

} // verus!
