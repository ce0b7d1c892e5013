use vstd::prelude::*;
use crate::gameworld::position::Position;

verus! {

/// The position with coordinates `x` and `y`.
pub open spec fn pos(x: int, y: int) -> Position {
    Position { x: x as i32, y: y as i32 }
}

/// `p` lies in the box `[x0, x1] x [y0, y1]`.
pub open spec fn in_box(p: Position, x0: int, x1: int, y0: int, y1: int) -> bool {
    x0 <= p.x <= x1 && y0 <= p.y <= y1
}

/// Sum of `f` over the positions `(x0..=x1, y)`.
pub open spec fn row_sum(f: spec_fn(Position) -> int, x0: int, x1: int, y: int) -> int
    decreases x1 - x0 + 1,
{
    if x1 < x0 {
        0
    } else {
        row_sum(f, x0, x1 - 1, y) + f(pos(x1, y))
    }
}

/// Sum of `f` over the positions of the box `[x0, x1] x [y0, y1]`.
pub open spec fn box_sum(f: spec_fn(Position) -> int, x0: int, x1: int, y0: int, y1: int) -> int
    decreases y1 - y0 + 1,
{
    if y1 < y0 {
        0
    } else {
        box_sum(f, x0, x1, y0, y1 - 1) + row_sum(f, x0, x1, y1)
    }
}

/// A row sum does not grow when the summed function does not grow, and shrinks
/// when it shrinks at one position of the row.
pub proof fn lemma_row_sum_le(
    f: spec_fn(Position) -> int,
    h: spec_fn(Position) -> int,
    x0: int,
    x1: int,
    y: int,
    qx: int,
)
    requires
        i32::MIN <= x0,
        x1 <= i32::MAX,
        i32::MIN <= y <= i32::MAX,
        forall|x: int| x0 <= x <= x1 ==> #[trigger] h(pos(x, y)) <= f(pos(x, y)),
    ensures
        row_sum(h, x0, x1, y) <= row_sum(f, x0, x1, y),
        x0 <= qx <= x1 && h(pos(qx, y)) < f(pos(qx, y)) ==> row_sum(h, x0, x1, y) < row_sum(
            f,
            x0,
            x1,
            y,
        ),
    decreases x1 - x0 + 1,
{
    if x1 >= x0 {
        lemma_row_sum_le(f, h, x0, x1 - 1, y, qx);
        assert(h(pos(x1, y)) <= f(pos(x1, y)));
    }
}

/// A box sum does not grow when the summed function does not grow, and shrinks
/// when it shrinks at one position of the box.
pub proof fn lemma_box_sum_le(
    f: spec_fn(Position) -> int,
    h: spec_fn(Position) -> int,
    x0: int,
    x1: int,
    y0: int,
    y1: int,
    q: Position,
)
    requires
        i32::MIN <= x0,
        x1 <= i32::MAX,
        i32::MIN <= y0,
        y1 <= i32::MAX,
        forall|p: Position| in_box(p, x0, x1, y0, y1) ==> #[trigger] h(p) <= f(p),
    ensures
        box_sum(h, x0, x1, y0, y1) <= box_sum(f, x0, x1, y0, y1),
        in_box(q, x0, x1, y0, y1) && h(q) < f(q) ==> box_sum(h, x0, x1, y0, y1) < box_sum(
            f,
            x0,
            x1,
            y0,
            y1,
        ),
    decreases y1 - y0 + 1,
{
    if y1 >= y0 {
        lemma_box_sum_le(f, h, x0, x1, y0, y1 - 1, q);
        assert forall|x: int| x0 <= x <= x1 implies #[trigger] h(pos(x, y1)) <= f(pos(x, y1)) by {
            assert(in_box(pos(x, y1), x0, x1, y0, y1));
        }
        lemma_row_sum_le(f, h, x0, x1, y1, q.x as int);
        if in_box(q, x0, x1, y0, y1) && h(q) < f(q) && q.y == y1 {
            assert(pos(q.x as int, y1) == q);
        }
    }
}

/// A sum of non-negative values is non-negative.
pub proof fn lemma_box_sum_nonneg(f: spec_fn(Position) -> int, x0: int, x1: int, y0: int, y1: int)
    requires
        i32::MIN <= x0,
        x1 <= i32::MAX,
        i32::MIN <= y0,
        y1 <= i32::MAX,
        forall|p: Position| #[trigger] f(p) >= 0,
    ensures
        box_sum(f, x0, x1, y0, y1) >= 0,
{
    let z = |p: Position| 0int;
    lemma_box_sum_le(f, z, x0, x1, y0, y1, pos(x0, y0));
    lemma_box_sum_zero(x0, x1, y0, y1);
}

proof fn lemma_row_sum_zero(x0: int, x1: int, y: int)
    ensures
        row_sum(|p: Position| 0int, x0, x1, y) == 0,
    decreases x1 - x0 + 1,
{
    if x1 >= x0 {
        lemma_row_sum_zero(x0, x1 - 1, y);
    }
}

proof fn lemma_box_sum_zero(x0: int, x1: int, y0: int, y1: int)
    ensures
        box_sum(|p: Position| 0int, x0, x1, y0, y1) == 0,
    decreases y1 - y0 + 1,
{
    if y1 >= y0 {
        lemma_box_sum_zero(x0, x1, y0, y1 - 1);
        lemma_row_sum_zero(x0, x1, y1);
    }
}


/// Number of positions of the box that `m` has no entry for.
pub open spec fn missing_in_box(m: Map<Position, u128>, x0: int, x1: int, y0: int, y1: int) -> int {
    box_sum(|p: Position| if m.contains_key(p) { 0int } else { 1int }, x0, x1, y0, y1)
}

/// Sum of the entries of `m` over the box.
pub open spec fn score_in_box(m: Map<Position, u128>, x0: int, x1: int, y0: int, y1: int) -> int {
    box_sum(|p: Position| if m.contains_key(p) { m[p] as int } else { 0int }, x0, x1, y0, y1)
}

/// Both measures are non-negative.
pub proof fn lemma_box_measures_nonneg(m: Map<Position, u128>, x0: int, x1: int, y0: int, y1: int)
    requires
        i32::MIN <= x0,
        x1 <= i32::MAX,
        i32::MIN <= y0,
        y1 <= i32::MAX,
    ensures
        missing_in_box(m, x0, x1, y0, y1) >= 0,
        score_in_box(m, x0, x1, y0, y1) >= 0,
{
    lemma_box_sum_nonneg(|p: Position| if m.contains_key(p) { 0int } else { 1int }, x0, x1, y0, y1);
    lemma_box_sum_nonneg(|p: Position| if m.contains_key(p) { m[p] as int } else { 0int }, x0, x1, y0, y1);
}

/// Setting an entry inside the box: a new key lowers the missing count;
/// lowering an existing value keeps the missing count and lowers the sum.
pub proof fn lemma_box_measures_insert(
    m: Map<Position, u128>,
    q: Position,
    v: u128,
    x0: int,
    x1: int,
    y0: int,
    y1: int,
)
    requires
        i32::MIN <= x0,
        x1 <= i32::MAX,
        i32::MIN <= y0,
        y1 <= i32::MAX,
        in_box(q, x0, x1, y0, y1),
        m.contains_key(q) ==> v < m[q],
    ensures
        missing_in_box(m.insert(q, v), x0, x1, y0, y1) <= missing_in_box(m, x0, x1, y0, y1),
        !m.contains_key(q) ==> missing_in_box(m.insert(q, v), x0, x1, y0, y1) < missing_in_box(m, x0, x1, y0, y1),
        m.contains_key(q) ==> missing_in_box(m.insert(q, v), x0, x1, y0, y1) == missing_in_box(m, x0, x1, y0, y1),
        m.contains_key(q) ==> score_in_box(m.insert(q, v), x0, x1, y0, y1) < score_in_box(m, x0, x1, y0, y1),
{
    let m2 = m.insert(q, v);
    let f1 = |p: Position| if m.contains_key(p) { 0int } else { 1int };
    let h1 = |p: Position| if m2.contains_key(p) { 0int } else { 1int };
    lemma_box_sum_le(f1, h1, x0, x1, y0, y1, q);
    if m.contains_key(q) {
        lemma_box_sum_le(h1, f1, x0, x1, y0, y1, q);
        let f2 = |p: Position| if m.contains_key(p) { m[p] as int } else { 0int };
        let h2 = |p: Position| if m2.contains_key(p) { m2[p] as int } else { 0int };
        lemma_box_sum_le(f2, h2, x0, x1, y0, y1, q);
    }
}

} // verus!
