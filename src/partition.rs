//! In-place two-way partition scanning from both ends.

use vstd::prelude::*;

verus! {

broadcast use vstd::seq_lib::group_to_multiset_ensures;

/// Relies on `<[T]>::swap`: the elements at the two indices trade places, and
/// the call panics when either index is out of bounds.
pub assume_specification<E>[ <[E]>::swap ](s: &mut [E], a: usize, b: usize)
    requires
        a < old(s)@.len(),
        b < old(s)@.len(),
    ensures
        final(s)@ == old(s)@.update(a as int, old(s)@[b as int]).update(
            b as int,
            old(s)@[a as int],
        ),
;

/// `pred` may answer `true` for `x`.
pub open spec fn accepts<T, P: Fn(&T) -> bool>(pred: P, x: T) -> bool {
    pred.ensures((&x,), true)
}

/// `pred` may answer `false` for `x`.
pub open spec fn rejects<T, P: Fn(&T) -> bool>(pred: P, x: T) -> bool {
    pred.ensures((&x,), false)
}

/// `pred` gives one answer per element.
pub open spec fn deterministic<T, P: Fn(&T) -> bool>(pred: P) -> bool {
    forall|x: T| !(#[trigger] accepts(pred, x) && rejects(pred, x))
}

/// `pred` accepts every element before `b` and rejects every element from `b` on.
pub open spec fn partitioned_at<T, P: Fn(&T) -> bool>(pred: P, s: Seq<T>, b: int) -> bool {
    &&& 0 <= b <= s.len()
    &&& forall|i: int| 0 <= i < b ==> accepts(pred, #[trigger] s[i])
    &&& forall|i: int| b <= i < s.len() ==> rejects(pred, #[trigger] s[i])
}

/// What one call of `partition_bidir` guarantees, from the slice before the call
/// to the slice after it and the boundary returned: the same elements, split
/// at the boundary; an already split slice left as it is; and, for a
/// deterministic predicate, every element that was already on its side of the
/// boundary left in its place.
pub open spec fn partition_post<T, P: Fn(&T) -> bool>(
    pred: P,
    before: Seq<T>,
    after: Seq<T>,
    b: usize,
) -> bool {
    &&& after.to_multiset() == before.to_multiset()
    &&& after.len() == before.len()
    &&& partitioned_at(pred, after, b as int)
    &&& forall|k: int|
        deterministic(pred) && #[trigger] partitioned_at(pred, before, k) ==> after == before && b
            == k
    &&& forall|i: int|
        0 <= i < before.len() && deterministic(pred) && ((i < b && accepts(pred, before[i])) || (b
            <= i && rejects(pred, before[i]))) ==> #[trigger] after[i] == before[i]
}

/// Moves the elements that `pred` accepts before those it rejects, swapping
/// out-of-place pairs found by a scan from each end, and returns the boundary.
/// Not stable; a slice already partitioned by a deterministic `pred` is left
/// untouched.
pub fn partition_bidir<T, P: Fn(&T) -> bool>(v: &mut [T], pred: P) -> (b: usize)
    requires
        forall|x: &T| #[trigger] pred.requires((x,)),
    ensures
        partition_post(pred, old(v)@, final(v)@, b),
{
    let ghost start = v@;
    let mut l: usize = 0;
    let mut r: usize = v.len();
    loop
        invariant
            forall|x: &T| #[trigger] pred.requires((x,)),
            start == old(v)@,
            l <= r <= v@.len(),
            v@.len() == start.len(),
            v@.to_multiset() == start.to_multiset(),
            forall|i: int| 0 <= i < l ==> accepts(pred, #[trigger] v@[i]),
            forall|i: int| 0 <= i < l ==> #[trigger] v@[i] == start[i] || rejects(pred, start[i]),
            forall|i: int| l <= i < r ==> #[trigger] v@[i] == start[i],
            forall|i: int| r <= i < v@.len() ==> #[trigger] v@[i] == start[i] || accepts(pred, start[i]),
            forall|i: int| r <= i < v@.len() ==> rejects(pred, #[trigger] v@[i]),
            forall|k: int|
                deterministic(pred) && #[trigger] partitioned_at(pred, start, k) ==> v@ == start
                    && l <= k <= r,
        decreases r - l,
    {
        let ghost (l0, r0) = (l, r);
        loop
            invariant
                forall|x: &T| #[trigger] pred.requires((x,)),
                start == old(v)@,
                l0 <= l <= r == r0 <= v@.len(),
                v@.len() == start.len(),
                v@.to_multiset() == start.to_multiset(),
                forall|i: int| 0 <= i < l ==> accepts(pred, #[trigger] v@[i]),
                forall|i: int| 0 <= i < l ==> #[trigger] v@[i] == start[i] || rejects(pred, start[i]),
                forall|i: int| l <= i < r ==> #[trigger] v@[i] == start[i],
                forall|i: int| r <= i < v@.len() ==> #[trigger] v@[i] == start[i] || accepts(pred, start[i]),
                forall|i: int| r <= i < v@.len() ==> rejects(pred, #[trigger] v@[i]),
                forall|k: int|
                    deterministic(pred) && #[trigger] partitioned_at(pred, start, k) ==> v@
                        == start && l <= k <= r,
            ensures
                l0 <= l < r == r0 <= v@.len(),
                rejects(pred, v@[l as int]),
                forall|k: int|
                    deterministic(pred) && #[trigger] partitioned_at(pred, start, k) ==> l == k,
            decreases r - l,
        {
            if l == r {
                return l;
            }
            let accepted = pred(&v[l]);
            if !accepted {
                proof {
                    assert forall|k: int|
                        deterministic(pred) && #[trigger] partitioned_at(pred, start, k)
                            implies l == k by {
                        if l < k {
                            assert(accepts(pred, start[l as int]));
                        }
                    }
                }
                break;
            }
            proof {
                assert(accepts(pred, v@[l as int]));
                assert forall|k: int|
                    deterministic(pred) && #[trigger] partitioned_at(pred, start, k)
                        implies l < k by {
                    if l == k {
                        assert(rejects(pred, start[l as int]));
                    }
                }
            }
            l += 1;
        }
        let ghost r1 = r;
        loop
            invariant_except_break
                forall|i: int| r <= i < v@.len() ==> rejects(pred, #[trigger] v@[i]),
            invariant
                forall|x: &T| #[trigger] pred.requires((x,)),
                start == old(v)@,
                l0 <= l < r <= r1 == r0 <= v@.len(),
                v@.len() == start.len(),
                v@.to_multiset() == start.to_multiset(),
                rejects(pred, v@[l as int]),
                forall|i: int| 0 <= i < l ==> accepts(pred, #[trigger] v@[i]),
                forall|i: int| 0 <= i < l ==> #[trigger] v@[i] == start[i] || rejects(pred, start[i]),
                forall|i: int| l <= i < r ==> #[trigger] v@[i] == start[i],
                forall|i: int| r <= i < v@.len() ==> #[trigger] v@[i] == start[i] || accepts(pred, start[i]),
                forall|k: int|
                    deterministic(pred) && #[trigger] partitioned_at(pred, start, k) ==> v@
                        == start && l == k,
            ensures
                l0 <= l < r < r1 == r0 <= v@.len(),
                accepts(pred, v@[r as int]),
                forall|i: int| r < i < v@.len() ==> rejects(pred, #[trigger] v@[i]),
                forall|k: int|
                    deterministic(pred) && #[trigger] partitioned_at(pred, start, k) ==> false,
            decreases r - l,
        {
            r -= 1;
            if l == r {
                return l;
            }
            let accepted = pred(&v[r]);
            if accepted {
                proof {
                    assert forall|k: int|
                        deterministic(pred) && #[trigger] partitioned_at(pred, start, k)
                            implies false by {
                        assert(accepts(pred, v@[r as int]));
                        assert(rejects(pred, start[r as int]));
                    }
                }
                break;
            }
        }
        let ghost before = v@;
        v.swap(l, r);
        proof {
            assert(v@ == before.update(l as int, before[r as int]).update(r as int, before[l as int]));
            assert(v@.to_multiset() =~= before.to_multiset());
        }
        l += 1;
    }
}

/// Partitioning a second time with the same deterministic predicate changes
/// nothing and returns the same boundary.
pub proof fn partition_bidir_twice_is_noop<T, P: Fn(&T) -> bool>(
    pred: P,
    s0: Seq<T>,
    s1: Seq<T>,
    b1: usize,
    s2: Seq<T>,
    b2: usize,
)
    requires
        deterministic(pred),
        partition_post(pred, s0, s1, b1),
        partition_post(pred, s1, s2, b2),
    ensures
        s2 == s1,
        b2 == b1,
{
    assert(partitioned_at(pred, s1, b1 as int));
}

} // verus!
