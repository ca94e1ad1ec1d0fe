use vstd::prelude::*;

verus! {

/// `p` comes before `q` in the order pairs are tested: by first index,
/// then by second.
pub open spec fn pair_before(p: (usize, usize), q: (usize, usize)) -> bool {
    p.0 < q.0 || (p.0 == q.0 && p.1 < q.1)
}

/// The order in which the collision test visits `n` colliders: every pair
/// of positions `(i, j)` with `i < j < n` exactly once, by `i` and then by
/// `j`. The test then keeps the pairs whose bodies overlap.
pub fn collision_pairs(n: usize) -> (r: Vec<(usize, usize)>)
    ensures
        forall|k: int| 0 <= k < r@.len() ==> #[trigger] r@[k].0 < r@[k].1 && r@[k].1 < n,
        forall|k1: int, k2: int| 0 <= k1 < k2 < r@.len() ==> pair_before(#[trigger] r@[k1], #[trigger] r@[k2]),
        forall|i: usize, j: usize| i < j < n ==> #[trigger] r@.contains((i, j)),
{
    let mut r: Vec<(usize, usize)> = Vec::new();
    let mut i: usize = 0;
    while i < n
        invariant
            0 <= i <= n,
            forall|k: int| 0 <= k < r@.len() ==> #[trigger] r@[k].0 < r@[k].1 && r@[k].1 < n && r@[k].0 < i,
            forall|k1: int, k2: int| 0 <= k1 < k2 < r@.len() ==> pair_before(#[trigger] r@[k1], #[trigger] r@[k2]),
            forall|a: usize, b: usize| a < b < n && a < i ==> #[trigger] r@.contains((a, b)),
        decreases n - i,
    {
        let mut j: usize = i + 1;
        while j < n
            invariant
                0 <= i < n,
                i + 1 <= j <= n,
                forall|k: int|
                    0 <= k < r@.len() ==> #[trigger] r@[k].0 < r@[k].1 && r@[k].1 < n && (r@[k].0 < i || (
                    r@[k].0 == i && r@[k].1 < j)),
                forall|k1: int, k2: int| 0 <= k1 < k2 < r@.len() ==> pair_before(#[trigger] r@[k1], #[trigger] r@[k2]),
                forall|a: usize, b: usize|
                    a < b < n && (a < i || (a == i && b < j)) ==> #[trigger] r@.contains((a, b)),
            decreases n - j,
        {
            let ghost before = r@;
            r.push((i, j));
            assert forall|a: usize, b: usize|
                a < b < n && (a < i || (a == i && b < j + 1)) implies #[trigger] r@.contains((a, b)) by {
                if a == i && b == j {
                    assert(r@[before.len() as int] == (a, b));
                } else {
                    assert(before.contains((a, b)));
                    let k = choose|k: int| 0 <= k < before.len() && before[k] == (a, b);
                    assert(r@[k] == (a, b));
                }
            }
            j = j + 1;
        }
        i = i + 1;
    }
    r
}

} // verus!
