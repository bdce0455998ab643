use vstd::prelude::*;

use rand::seq::SliceRandom;

use crate::model::{all_in_bounds, CELLS, HEIGHT, WIDTH};

verus! {

/// Every square of the board once, column after column: entry `i` is
/// column `i / HEIGHT`, row `i % HEIGHT`.
pub open spec fn canonical_coords() -> Seq<(usize, usize)> {
    Seq::new(CELLS as nat, |i: int| ((i / (HEIGHT as int)) as usize, (i % (HEIGHT as int)) as usize))
}

/// The canonical enumeration names squares of the board, none twice.
pub proof fn lemma_canonical_coords()
    ensures
        canonical_coords().len() == CELLS,
        canonical_coords().no_duplicates(),
        all_in_bounds(canonical_coords()),
{
    let s = canonical_coords();
    assert forall|i: int| 0 <= i < s.len() implies crate::model::in_bounds(
        #[trigger] s[i].0 as int,
        s[i].1 as int,
    ) by {
        assert(0 <= i / 8 < 8 && 0 <= i % 8 < 8) by (nonlinear_arith)
            requires
                0 <= i < 64,
        ;
    }
    assert forall|i: int, j: int| 0 <= i < s.len() && 0 <= j < s.len() && i != j implies s[i]
        != s[j] by {
        assert(i == (i / 8) * 8 + i % 8 && j == (j / 8) * 8 + j % 8 && 0 <= i / 8 < 8 && 0 <= j / 8
            < 8 && 0 <= i % 8 < 8 && 0 <= j % 8 < 8) by (nonlinear_arith)
            requires
                0 <= i < 64,
                0 <= j < 64,
        ;
    }
}

/// Lists every square of the board once, column after column.
pub fn all_coords() -> (r: Vec<(usize, usize)>)
    ensures
        r@ == canonical_coords(),
{
    let mut r: Vec<(usize, usize)> = Vec::new();
    let mut x: usize = 0;
    while x < WIDTH
        invariant
            x <= WIDTH,
            r@.len() == x * HEIGHT,
            forall|i: int| 0 <= i < r@.len() ==> #[trigger] r@[i] == canonical_coords()[i],
        decreases WIDTH - x,
    {
        let mut y: usize = 0;
        while y < HEIGHT
            invariant
                x < WIDTH,
                y <= HEIGHT,
                r@.len() == x * HEIGHT + y,
                forall|i: int| 0 <= i < r@.len() ==> #[trigger] r@[i] == canonical_coords()[i],
            decreases HEIGHT - y,
        {
            assert((x * 8 + y) / 8 == x && (x * 8 + y) % 8 == y && x * 8 + y < 64) by (
            nonlinear_arith)
                requires
                    0 <= x < 8,
                    0 <= y < 8,
            ;
            r.push((x, y));
            y = y + 1;
        }
        x = x + 1;
    }
    assert(r@ =~= canonical_coords());
    r
}

/// Relies on rand's `SliceRandom::shuffle`, driven by the thread-local
/// generator: it reorders the entries in place by swaps, so the same entries
/// remain, each as often as before; which order comes out is left to chance.
#[verifier::external_body]
pub(crate) fn shuffle_coords(v: &mut Vec<(usize, usize)>)
    ensures
        final(v)@.to_multiset() == old(v)@.to_multiset(),
{
    v.shuffle(&mut rand::thread_rng());
}

/// A reordering of the canonical enumeration still names squares of the
/// board, none twice.
pub proof fn lemma_reordered_coords(order: Seq<(usize, usize)>)
    requires
        order.to_multiset() == canonical_coords().to_multiset(),
    ensures
        order.len() == CELLS,
        order.no_duplicates(),
        all_in_bounds(order),
{
    broadcast use vstd::seq_lib::group_to_multiset_ensures;

    let c = canonical_coords();
    lemma_canonical_coords();
    assert(order.to_multiset().len() == c.to_multiset().len());
    c.lemma_multiset_has_no_duplicates();
    order.lemma_multiset_has_no_duplicates_conv();
    assert forall|i: int| 0 <= i < order.len() implies crate::model::in_bounds(
        #[trigger] order[i].0 as int,
        order[i].1 as int,
    ) by {
        assert(order.contains(order[i]));
        assert(c.to_multiset().count(order[i]) > 0);
        let j = choose|j: int| 0 <= j < c.len() && c[j] == order[i];
    }
}

} // verus!
