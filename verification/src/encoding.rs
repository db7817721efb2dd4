//! Base-3 positional encoding of board configurations into state keys.
use vstd::prelude::*;

use crate::board::Cell;

verus! {

/// The number of distinct board configurations, `3^9`; every state key
/// lies in `[0, KEY_SPACE)`.
pub const KEY_SPACE: i32 = 19683;

/// What a cell contributes at its position: an empty cell adds nothing,
/// a `PlayerA` mark weighs 1 and a `PlayerB` mark weighs 2.
pub open spec fn cell_weight(c: Cell) -> int {
    match c {
        Cell::Empty => 0,
        Cell::PlayerA => 1,
        Cell::PlayerB => 2,
    }
}

/// `3^n`.
pub open spec fn pow3(n: nat) -> int
    decreases n,
{
    if n == 0 {
        1
    } else {
        3 * pow3((n - 1) as nat)
    }
}

/// The state key of a grid: the sum over all cells of the cell's weight
/// times 3 to the cell's index.
pub open spec fn enc(g: Seq<Cell>) -> int
    decreases g.len(),
{
    if g.len() == 0 {
        0
    } else {
        cell_weight(g[0]) + 3 * enc(g.subrange(1, g.len() as int))
    }
}

/// Powers of 3 are positive.
pub proof fn lemma_pow3_pos(n: nat)
    ensures
        pow3(n) >= 1,
    decreases n,
{
    if n > 0 {
        lemma_pow3_pos((n - 1) as nat);
    }
}

/// Powers of 3 grow with the exponent.
pub proof fn lemma_pow3_mono(m: nat, n: nat)
    requires
        m <= n,
    ensures
        pow3(m) <= pow3(n),
    decreases n,
{
    if m < n {
        lemma_pow3_mono(m, (n - 1) as nat);
        lemma_pow3_pos((n - 1) as nat);
    }
}

/// A state key is nonnegative and below `3` to the number of cells.
pub proof fn lemma_enc_bounds(g: Seq<Cell>)
    ensures
        0 <= enc(g) < pow3(g.len()),
    decreases g.len(),
{
    if g.len() == 0 {
    } else {
        lemma_enc_bounds(g.subrange(1, g.len() as int));
        assert(0 <= cell_weight(g[0]) <= 2);
    }
}

/// Keys of full grids fit in `[0, KEY_SPACE)`.
pub proof fn lemma_enc_key_space(g: Seq<Cell>)
    requires
        g.len() == 9,
    ensures
        0 <= enc(g) < KEY_SPACE,
{
    lemma_enc_bounds(g);
    assert(pow3(9) == 19683) by {
        reveal_with_fuel(pow3, 10);
    }
}

/// Cells with equal weights are equal.
proof fn lemma_cell_weight_injective(c1: Cell, c2: Cell)
    requires
        cell_weight(c1) == cell_weight(c2),
    ensures
        c1 == c2,
{
}

/// Law: the encoding is injective. No two distinct configurations of
/// equally sized grids produce the same state key.
pub proof fn lemma_enc_injective(g1: Seq<Cell>, g2: Seq<Cell>)
    requires
        g1.len() == g2.len(),
        enc(g1) == enc(g2),
    ensures
        g1 == g2,
    decreases g1.len(),
{
    if g1.len() == 0 {
        assert(g1 =~= g2);
    } else {
        let t1 = g1.subrange(1, g1.len() as int);
        let t2 = g2.subrange(1, g2.len() as int);
        let w1 = cell_weight(g1[0]);
        let w2 = cell_weight(g2[0]);
        assert(w1 + 3 * enc(t1) == w2 + 3 * enc(t2));
        assert(w1 - w2 == 3 * (enc(t2) - enc(t1)));
        assert(0 <= w1 <= 2 && 0 <= w2 <= 2);
        assert(w1 == w2);
        lemma_cell_weight_injective(g1[0], g2[0]);
        assert(enc(t1) == enc(t2));
        lemma_enc_injective(t1, t2);
        assert forall|i: int| 0 <= i < g1.len() implies g1[i] == g2[i] by {
            if i > 0 {
                assert(g1[i] == t1[i - 1]);
                assert(g2[i] == t2[i - 1]);
            }
        }
        assert(g1 =~= g2);
    }
}

} // verus!
