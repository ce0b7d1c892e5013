use vstd::prelude::*;
use std::collections::HashMap;
use vstd::std_specs::iter::IteratorSpec;
use rand::seq::SliceRandom;
use crate::errors::MyError;
use crate::tile::{Tile, TileType};

verus! {

broadcast use vstd::std_specs::hash::group_hash_axioms;

/// The default map of the grid world, one string per row.
pub open spec fn default_map() -> Seq<Seq<char>> {
    seq![
        "vmfffffffffffffffffm"@,
        "fmfffffffffffffffflm"@,
        "fffffffvfffffffffllm"@,
        "ffffffffffffffffllfm"@,
        "fffffffffffffffllffm"@,
        "ffffffffffffffllfffm"@,
        "fffffffffffffllffffm"@,
        "ffffffffffffffmffllm"@,
        "ffffmmfffffffffmlllm"@,
        "ffffmfffffffffmllllm"@,
        "fffffmffffffffffmllm"@,
        "fffffffmfffffmmmmllm"@,
        "mmmmmmmmmmmfmmmmlllm"@,
        "fffffffffffffffflllm"@,
        "fffffffffffffffflllm"@,
        "fffffffffffffffflllm"@,
        "ffffffllfffffffflllm"@,
        "ffffffffvffffffflllm"@,
        "fmfffffffffffffflllm"@,
        "fmfffffffffffffflllm"@,
        "fmfffffffffffffflllm"@
    ]
}

/// The tile type that a character of the default map stands for.
pub open spec fn map_char_type(c: char) -> TileType {
    if c == 'm' {
        TileType::Mountain
    } else if c == 'l' {
        TileType::Lake
    } else if c == 'v' {
        TileType::Village
    } else if c == 'd' {
        TileType::Dungeon
    } else {
        TileType::Forest
    }
}

/// The characters a map of the grid world may contain.
pub open spec fn is_grid_char(c: char) -> bool {
    c == 'm' || c == 'l' || c == 'v' || c == 'd' || c == 'f'
}

/// The type and the spawn flag of each tile of a grid.
pub open spec fn grid_view(g: Seq<Vec<Tile>>) -> Seq<Seq<(TileType, bool)>> {
    g.map_values(|row: Vec<Tile>| row@.map_values(|t: Tile| (t.kind(), t.spawnable())))
}

/// The view has the shape of the grid and the fields of its tiles.
proof fn lemma_grid_view(g: Seq<Vec<Tile>>)
    ensures
        grid_view(g).len() == g.len(),
        forall|rr: int| 0 <= rr < g.len() ==> (#[trigger] grid_view(g)[rr]).len() == g[rr]@.len(),
        forall|rr: int, cc: int|
            0 <= rr < g.len() && 0 <= cc < g[rr]@.len() ==> #[trigger] grid_view(g)[rr][cc] == (
            g[rr]@[cc].kind(),
            g[rr]@[cc].spawnable(),
        ),
{
}

/// `(rr, cc)` is in the square of radius 5 around `(r, c)`.
pub open spec fn in_square(rr: int, cc: int, r: int, c: int) -> bool {
    r - 5 <= rr <= r + 5 && c - 5 <= cc <= c + 5
}

/// Forbids spawning on the whole square of radius 5 around row `r`, column `c`.
pub open spec fn clear_square(a: Seq<Seq<(TileType, bool)>>, r: int, c: int) -> Seq<Seq<(TileType, bool)>> {
    Seq::new(
        a.len(),
        |rr: int|
            Seq::new(
                a[rr].len(),
                |cc: int| if in_square(rr, cc, r, c) { (a[rr][cc].0, false) } else { a[rr][cc] },
            ),
    )
}

/// The effect of visiting one tile: a spawnable village forbids spawning
/// around it, a spawnable mountain or lake forbids spawning on itself.
pub open spec fn process_cell(a: Seq<Seq<(TileType, bool)>>, r: int, c: int) -> Seq<Seq<(TileType, bool)>> {
    if !a[r][c].1 {
        a
    } else if a[r][c].0 == TileType::Village {
        clear_square(a, r, c)
    } else if a[r][c].0 == TileType::Mountain || a[r][c].0 == TileType::Lake {
        a.update(r, a[r].update(c, (a[r][c].0, false)))
    } else {
        a
    }
}

/// Visits the first `n` tiles of row `r`, left to right.
pub open spec fn sweep_row(a: Seq<Seq<(TileType, bool)>>, r: int, n: int) -> Seq<Seq<(TileType, bool)>>
    decreases n,
{
    if n <= 0 {
        a
    } else {
        process_cell(sweep_row(a, r, n - 1), r, n - 1)
    }
}

/// Visits all tiles of the first `n` rows, row after row.
pub open spec fn sweep_rows(a: Seq<Seq<(TileType, bool)>>, n: int) -> Seq<Seq<(TileType, bool)>>
    decreases n,
{
    if n <= 0 {
        a
    } else {
        let b = sweep_rows(a, n - 1);
        sweep_row(b, n - 1, b[n - 1].len() as int)
    }
}

/// Visiting tiles keeps the shape of the grid and the tile types.
proof fn lemma_process_shape(a: Seq<Seq<(TileType, bool)>>, r: int, c: int)
    requires
        0 <= r < a.len(),
        0 <= c < a[r].len(),
    ensures
        process_cell(a, r, c).len() == a.len(),
        forall|rr: int| 0 <= rr < a.len() ==> (#[trigger] process_cell(a, r, c)[rr]).len() == a[rr].len(),
{
}

proof fn lemma_sweep_row_shape(a: Seq<Seq<(TileType, bool)>>, r: int, n: int)
    requires
        0 <= r < a.len(),
        0 <= n <= a[r].len(),
    ensures
        sweep_row(a, r, n).len() == a.len(),
        forall|rr: int| 0 <= rr < a.len() ==> (#[trigger] sweep_row(a, r, n)[rr]).len() == a[rr].len(),
    decreases n,
{
    if n > 0 {
        lemma_sweep_row_shape(a, r, n - 1);
        lemma_process_shape(sweep_row(a, r, n - 1), r, n - 1);
    }
}

proof fn lemma_sweep_rows_shape(a: Seq<Seq<(TileType, bool)>>, n: int)
    requires
        0 <= n <= a.len(),
    ensures
        sweep_rows(a, n).len() == a.len(),
        forall|rr: int| 0 <= rr < a.len() ==> (#[trigger] sweep_rows(a, n)[rr]).len() == a[rr].len(),
    decreases n,
{
    if n > 0 {
        lemma_sweep_rows_shape(a, n - 1);
        let b = sweep_rows(a, n - 1);
        lemma_sweep_row_shape(b, n - 1, b[n - 1].len() as int);
    }
}

/// `y` has the shape and the tile types of `x`, and allows spawning on a
/// tile only where `x` does.
pub open spec fn spawns_narrowed(x: Seq<Seq<(TileType, bool)>>, y: Seq<Seq<(TileType, bool)>>) -> bool {
    &&& y.len() == x.len()
    &&& forall|rr: int| 0 <= rr < x.len() ==> (#[trigger] y[rr]).len() == x[rr].len()
    &&& forall|rr: int, cc: int|
        0 <= rr < x.len() && 0 <= cc < x[rr].len() ==> (#[trigger] y[rr][cc]).0 == x[rr][cc].0 && (y[rr][cc].1
            ==> x[rr][cc].1)
}

/// Villages, mountains and lakes: the tiles on which no monster may spawn.
pub open spec fn spawn_free_type(t: TileType) -> bool {
    t == TileType::Village || t == TileType::Mountain || t == TileType::Lake
}

/// The tile at `(rr, cc)` does not allow spawning if it is a village, a
/// mountain or a lake.
pub open spec fn settled_cell(a: Seq<Seq<(TileType, bool)>>, rr: int, cc: int) -> bool {
    spawn_free_type(a[rr][cc].0) ==> !a[rr][cc].1
}

/// No village, mountain or lake of the grid allows spawning.
pub open spec fn spawns_settled(a: Seq<Seq<(TileType, bool)>>) -> bool {
    forall|rr: int, cc: int| 0 <= rr < a.len() && 0 <= cc < a[rr].len() ==> #[trigger] settled_cell(a, rr, cc)
}

proof fn lemma_narrowed_trans(
    x: Seq<Seq<(TileType, bool)>>,
    y: Seq<Seq<(TileType, bool)>>,
    z: Seq<Seq<(TileType, bool)>>,
)
    requires
        spawns_narrowed(x, y),
        spawns_narrowed(y, z),
    ensures
        spawns_narrowed(x, z),
        forall|rr: int, cc: int|
            0 <= rr < x.len() && 0 <= cc < x[rr].len() && #[trigger] settled_cell(y, rr, cc) ==> settled_cell(z, rr, cc),
{
    assert forall|rr: int, cc: int| 0 <= rr < x.len() && 0 <= cc < x[rr].len() implies (#[trigger] z[rr][cc]).0
        == x[rr][cc].0 && (z[rr][cc].1 ==> x[rr][cc].1) by {
        assert(y[rr].len() == x[rr].len());
        assert(z[rr][cc].0 == y[rr][cc].0);
    }
    assert forall|rr: int, cc: int|
        0 <= rr < x.len() && 0 <= cc < x[rr].len() && #[trigger] settled_cell(y, rr, cc) implies settled_cell(
        z,
        rr,
        cc,
    ) by {
        assert(y[rr].len() == x[rr].len());
        assert(z[rr][cc].0 == y[rr][cc].0);
    }
}

/// Visiting a tile narrows the spawns and settles the tile visited.
proof fn lemma_process_narrows(a: Seq<Seq<(TileType, bool)>>, r: int, c: int)
    requires
        0 <= r < a.len(),
        0 <= c < a[r].len(),
    ensures
        spawns_narrowed(a, process_cell(a, r, c)),
        settled_cell(process_cell(a, r, c), r, c),
{
    let p = process_cell(a, r, c);
    assert forall|rr: int, cc: int| 0 <= rr < a.len() && 0 <= cc < a[rr].len() implies (#[trigger] p[rr][cc]).0
        == a[rr][cc].0 && (p[rr][cc].1 ==> a[rr][cc].1) by {
        if a[r][c].1 && a[r][c].0 == TileType::Village {
            assert(p[rr][cc] == (if in_square(rr, cc, r, c) { (a[rr][cc].0, false) } else { a[rr][cc] }));
        }
    }
    if a[r][c].1 && a[r][c].0 == TileType::Village {
        assert(in_square(r, c, r, c));
        assert(p[r][c] == (a[r][c].0, false));
    }
}

/// A grid whose villages, mountains and lakes are settled is left as it is
/// by visiting a tile.
proof fn lemma_process_settled(a: Seq<Seq<(TileType, bool)>>, r: int, c: int)
    requires
        0 <= r < a.len(),
        0 <= c < a[r].len(),
        spawns_settled(a),
    ensures
        process_cell(a, r, c) == a,
{
    assert(settled_cell(a, r, c));
}

proof fn lemma_sweep_row_narrows(a: Seq<Seq<(TileType, bool)>>, r: int, n: int)
    requires
        0 <= r < a.len(),
        0 <= n <= a[r].len(),
    ensures
        spawns_narrowed(a, sweep_row(a, r, n)),
        forall|cc: int| 0 <= cc < n ==> #[trigger] settled_cell(sweep_row(a, r, n), r, cc),
    decreases n,
{
    if n == 0 {
        assert(spawns_narrowed(a, a));
    } else {
        lemma_sweep_row_narrows(a, r, n - 1);
        let b = sweep_row(a, r, n - 1);
        lemma_process_narrows(b, r, n - 1);
        lemma_narrowed_trans(a, b, process_cell(b, r, n - 1));
        assert forall|cc: int| 0 <= cc < n implies #[trigger] settled_cell(sweep_row(a, r, n), r, cc) by {
            if cc < n - 1 {
                assert(settled_cell(b, r, cc));
            }
        }
    }
}

proof fn lemma_sweep_row_settled(a: Seq<Seq<(TileType, bool)>>, r: int, n: int)
    requires
        0 <= r < a.len(),
        0 <= n <= a[r].len(),
        spawns_settled(a),
    ensures
        sweep_row(a, r, n) == a,
    decreases n,
{
    if n > 0 {
        lemma_sweep_row_settled(a, r, n - 1);
        lemma_process_settled(a, r, n - 1);
    }
}

/// Sweeping the first `n` rows narrows the spawns and settles every tile of
/// those rows.
pub proof fn lemma_sweep_rows_narrows(a: Seq<Seq<(TileType, bool)>>, n: int)
    requires
        0 <= n <= a.len(),
    ensures
        spawns_narrowed(a, sweep_rows(a, n)),
        forall|rr: int, cc: int|
            0 <= rr < n && 0 <= cc < a[rr].len() ==> #[trigger] settled_cell(sweep_rows(a, n), rr, cc),
    decreases n,
{
    if n == 0 {
        assert(spawns_narrowed(a, a));
    } else {
        lemma_sweep_rows_narrows(a, n - 1);
        let b = sweep_rows(a, n - 1);
        assert(b[n - 1].len() == a[n - 1].len());
        lemma_sweep_row_narrows(b, n - 1, b[n - 1].len() as int);
        let c = sweep_row(b, n - 1, b[n - 1].len() as int);
        lemma_narrowed_trans(a, b, c);
        assert forall|rr: int, cc: int|
            0 <= rr < n && 0 <= cc < a[rr].len() implies #[trigger] settled_cell(sweep_rows(a, n), rr, cc) by {
            if rr < n - 1 {
                assert(settled_cell(b, rr, cc));
            } else {
                assert(settled_cell(c, rr, cc));
            }
        }
    }
}

/// The tile at `(rr, cc)` lies within 5 tiles, along both axes, of a village
/// of the grid.
pub open spec fn near_village(a: Seq<Seq<(TileType, bool)>>, rr: int, cc: int) -> bool {
    exists|vr: int, vc: int|
        0 <= vr < a.len() && 0 <= vc < a[vr].len() && #[trigger] a[vr][vc].0 == TileType::Village && in_square(
            rr,
            cc,
            vr,
            vc,
        )
}

/// Every tile whose spawning changed from `x` to `y` is a village, a
/// mountain or a lake, or lies near a village of `x`.
pub open spec fn changes_explained(x: Seq<Seq<(TileType, bool)>>, y: Seq<Seq<(TileType, bool)>>) -> bool {
    forall|rr: int, cc: int|
        0 <= rr < x.len() && 0 <= cc < x[rr].len() && (#[trigger] y[rr][cc]).1 != x[rr][cc].1 ==> spawn_free_type(
            x[rr][cc].0,
        ) || near_village(x, rr, cc)
}

proof fn lemma_process_explained(a: Seq<Seq<(TileType, bool)>>, r: int, c: int)
    requires
        0 <= r < a.len(),
        0 <= c < a[r].len(),
    ensures
        changes_explained(a, process_cell(a, r, c)),
{
    let p = process_cell(a, r, c);
    assert forall|rr: int, cc: int|
        0 <= rr < a.len() && 0 <= cc < a[rr].len() && (#[trigger] p[rr][cc]).1 != a[rr][cc].1 implies spawn_free_type(
        a[rr][cc].0,
    ) || near_village(a, rr, cc) by {
        if a[r][c].1 && a[r][c].0 == TileType::Village {
            assert(p[rr][cc] == (if in_square(rr, cc, r, c) { (a[rr][cc].0, false) } else { a[rr][cc] }));
            assert(a[r][c].0 == TileType::Village && in_square(rr, cc, r, c));
        }
    }
}

proof fn lemma_explained_trans(
    x: Seq<Seq<(TileType, bool)>>,
    y: Seq<Seq<(TileType, bool)>>,
    z: Seq<Seq<(TileType, bool)>>,
)
    requires
        spawns_narrowed(x, y),
        changes_explained(x, y),
        changes_explained(y, z),
    ensures
        changes_explained(x, z),
{
    assert forall|rr: int, cc: int|
        0 <= rr < x.len() && 0 <= cc < x[rr].len() && (#[trigger] z[rr][cc]).1 != x[rr][cc].1 implies spawn_free_type(
        x[rr][cc].0,
    ) || near_village(x, rr, cc) by {
        assert(y[rr].len() == x[rr].len());
        assert(y[rr][cc].0 == x[rr][cc].0);
        if y[rr][cc].1 == x[rr][cc].1 {
            assert(z[rr][cc].1 != y[rr][cc].1);
            if !spawn_free_type(y[rr][cc].0) {
                assert(near_village(y, rr, cc));
                let (vr, vc) = choose|vr: int, vc: int|
                    0 <= vr < y.len() && 0 <= vc < y[vr].len() && #[trigger] y[vr][vc].0 == TileType::Village
                        && in_square(rr, cc, vr, vc);
                assert(y[vr].len() == x[vr].len());
                assert(x[vr][vc].0 == TileType::Village);
            }
        }
    }
}

proof fn lemma_sweep_row_explained(a: Seq<Seq<(TileType, bool)>>, r: int, n: int)
    requires
        0 <= r < a.len(),
        0 <= n <= a[r].len(),
    ensures
        changes_explained(a, sweep_row(a, r, n)),
    decreases n,
{
    if n > 0 {
        lemma_sweep_row_explained(a, r, n - 1);
        lemma_sweep_row_narrows(a, r, n - 1);
        let b = sweep_row(a, r, n - 1);
        lemma_process_explained(b, r, n - 1);
        lemma_explained_trans(a, b, process_cell(b, r, n - 1));
    }
}

/// Every tile whose spawning a sweep of the first `n` rows changes is a
/// village, a mountain or a lake, or lies near a village.
pub proof fn lemma_sweep_rows_explained(a: Seq<Seq<(TileType, bool)>>, n: int)
    requires
        0 <= n <= a.len(),
    ensures
        changes_explained(a, sweep_rows(a, n)),
    decreases n,
{
    if n > 0 {
        lemma_sweep_rows_explained(a, n - 1);
        lemma_sweep_rows_narrows(a, n - 1);
        let b = sweep_rows(a, n - 1);
        assert(b[n - 1].len() == a[n - 1].len());
        lemma_sweep_row_explained(b, n - 1, b[n - 1].len() as int);
        lemma_explained_trans(a, b, sweep_row(b, n - 1, b[n - 1].len() as int));
    }
}

/// Sweeping a settled grid leaves it as it is.
pub proof fn lemma_sweep_rows_settled(a: Seq<Seq<(TileType, bool)>>, n: int)
    requires
        0 <= n <= a.len(),
        spawns_settled(a),
    ensures
        sweep_rows(a, n) == a,
    decreases n,
{
    if n > 0 {
        lemma_sweep_rows_settled(a, n - 1);
        lemma_sweep_row_settled(a, n - 1, a[n - 1].len() as int);
    }
}

/// `p` is within distance 5 of row `r`, column `c`.
pub open spec fn near(p: (usize, usize), r: int, c: int) -> bool {
    (r - p.0) * (r - p.0) + (c - p.1) * (c - p.1) <= 25
}

/// Some stored position is within distance 5 of row `r`, column `c`.
pub open spec fn any_near(m: Map<u32, (usize, usize)>, r: int, c: int) -> bool {
    exists|k: u32| #[trigger] m.contains_key(k) && near(m[k], r, c)
}

/// Some stored position is exactly row `r`, column `c`.
pub open spec fn any_at(m: Map<u32, (usize, usize)>, r: int, c: int) -> bool {
    exists|k: u32| #[trigger] m.contains_key(k) && m[k].0 == r && m[k].1 == c
}

/// Checks whether `p` is within distance 5 of row `r`, column `c`.
fn is_near(p: (usize, usize), r: usize, c: usize) -> (b: bool)
    ensures
        b == near(p, r as int, c as int),
{
    let dr: i128 = r as i128 - p.0 as i128;
    let dc: i128 = c as i128 - p.1 as i128;
    if dr > 5 || dr < -5 || dc > 5 || dc < -5 {
        assert(!near(p, r as int, c as int)) by (nonlinear_arith)
            requires
                dr > 5 || dr < -5 || dc > 5 || dc < -5,
                dr == r - p.0,
                dc == c - p.1,
        ;
        return false;
    }
    assert(0 <= dr * dr <= 25 && 0 <= dc * dc <= 25) by (nonlinear_arith)
        requires
            -5 <= dr <= 5,
            -5 <= dc <= 5,
    ;
    assert(dr * dr == (r - p.0) * (r - p.0) && dc * dc == (c - p.1) * (c - p.1));
    dr * dr + dc * dc <= 25
}

/// Checks whether some stored position is within distance 5 of row `r`, column `c`.
fn check_any_near(m: &HashMap<u32, (usize, usize)>, r: usize, c: usize) -> (b: bool)
    ensures
        b == any_near(m@, r as int, c as int),
{
    let ghost sq = vstd::std_specs::hash::spec_values_iter(m).remaining();
    for pos in it: m.values()
        invariant
            it.seq() == sq,
            sq.unref().to_set() == m@.values(),
            forall|i: int| 0 <= i < it.index() ==> !near(*it.seq()[i], r as int, c as int),
    {
        if is_near(*pos, r, c) {
            proof {
                let v = *pos;
                assert(it.seq().unref().to_set().contains(v)) by {
                    assert(it.seq().unref()[it.index()] == v);
                }
                assert(m@.values().contains(v));
                let k = choose|k: u32| m@.contains_key(k) && m@[k] == v;
                assert(m@.contains_key(k) && near(m@[k], r as int, c as int));
            }
            return true;
        }
    }
    proof {
        assert(forall|i: int| 0 <= i < sq.len() ==> !near(*sq[i], r as int, c as int));
        assert forall|k: u32| #[trigger] m@.contains_key(k) implies !near(m@[k], r as int, c as int) by {
            let v = m@[k];
            assert(m@.values().contains(v));
            assert(sq.unref().to_set().contains(v));
            let i = choose|i: int| 0 <= i < sq.unref().len() && sq.unref()[i] == v;
            assert(*sq[i] == v);
        }
    }
    false
}

/// Checks whether some stored position is exactly row `r`, column `c`.
fn check_any_at(m: &HashMap<u32, (usize, usize)>, r: usize, c: usize) -> (b: bool)
    ensures
        b == any_at(m@, r as int, c as int),
{
    let ghost sq = vstd::std_specs::hash::spec_values_iter(m).remaining();
    for pos in it: m.values()
        invariant
            it.seq() == sq,
            sq.unref().to_set() == m@.values(),
            forall|i: int| 0 <= i < it.index() ==> !((*it.seq()[i]).0 == r && (*it.seq()[i]).1 == c),
    {
        if pos.0 == r && pos.1 == c {
            proof {
                let v = *pos;
                assert(it.seq().unref().to_set().contains(v)) by {
                    assert(it.seq().unref()[it.index()] == v);
                }
                assert(m@.values().contains(v));
                let k = choose|k: u32| m@.contains_key(k) && m@[k] == v;
                assert(m@.contains_key(k) && m@[k].0 == r && m@[k].1 == c);
            }
            return true;
        }
    }
    proof {
        assert(forall|i: int| 0 <= i < sq.len() ==> !((*sq[i]).0 == r && (*sq[i]).1 == c));
        assert forall|k: u32| #[trigger] m@.contains_key(k) implies !(m@[k].0 == r && m@[k].1 == c) by {
            let v = m@[k];
            assert(m@.values().contains(v));
            assert(sq.unref().to_set().contains(v));
            let i = choose|i: int| 0 <= i < sq.unref().len() && sq.unref()[i] == v;
            assert(*sq[i] == v);
        }
    }
    false
}

/// Shuffles the spawn points in place with `rand`'s `SliceRandom::shuffle`
/// and the thread-local generator; the result is a permutation of the input.
#[verifier::external_body]
fn shuffle_spawns(spawns: &mut Vec<(u32, u32)>)
    ensures
        final(spawns)@.to_multiset() == old(spawns)@.to_multiset(),
{
    spawns.shuffle(&mut rand::thread_rng());
}

/// The village positions `(x, y)` of a grid, row after row.
pub open spec fn village_cells(grid: Seq<Vec<Tile>>, rows: int) -> Seq<(usize, usize)>
    decreases rows,
{
    if rows <= 0 {
        Seq::empty()
    } else {
        village_cells(grid, rows - 1) + village_cells_in_row(grid[rows - 1]@, rows - 1, grid[rows - 1]@.len() as int)
    }
}

/// The village positions `(x, y)` among the first `n` tiles of row `y`.
pub open spec fn village_cells_in_row(row: Seq<Tile>, y: int, n: int) -> Seq<(usize, usize)>
    decreases n,
{
    if n <= 0 {
        Seq::empty()
    } else if row[n - 1].kind() == TileType::Village {
        village_cells_in_row(row, y, n - 1).push(((n - 1) as usize, y as usize))
    } else {
        village_cells_in_row(row, y, n - 1)
    }
}

/// Tiles of this type end the scan of a row for monster spawns.
pub open spec fn stops_scan(t: TileType) -> bool {
    t == TileType::Village || t == TileType::Mountain || t == TileType::Lake
}

/// A grid world: rows of tiles and the grid positions of agents, monsters and
/// treasures by id.
pub struct World {
    pub agents: HashMap<u32, (usize, usize)>,
    pub monsters: HashMap<u32, (usize, usize)>,
    pub treasures: HashMap<u32, (usize, usize)>,
    pub grid: Vec<Vec<Tile>>,
}

/// Creates the world with the default map, and no agents, monsters or treasures.
pub fn create_world() -> (w: World)
    ensures
        w.grid@.len() == default_map().len(),
        forall|y: int|
            0 <= y < default_map().len() ==> (#[trigger] w.grid@[y])@.len() == default_map()[y].len(),
        forall|y: int, x: int|
            0 <= y < default_map().len() && 0 <= x < default_map()[y].len() ==> (#[trigger] w.grid@[y]@[x]).kind()
                == map_char_type(default_map()[y][x]) && w.grid@[y]@[x].spawnable(),
        w.agents@ == Map::<u32, (usize, usize)>::empty(),
        w.monsters@ == Map::<u32, (usize, usize)>::empty(),
        w.treasures@ == Map::<u32, (usize, usize)>::empty(),
{
    let map_data: Vec<&str> = vec![
        "vmfffffffffffffffffm",
        "fmfffffffffffffffflm",
        "fffffffvfffffffffllm",
        "ffffffffffffffffllfm",
        "fffffffffffffffllffm",
        "ffffffffffffffllfffm",
        "fffffffffffffllffffm",
        "ffffffffffffffmffllm",
        "ffffmmfffffffffmlllm",
        "ffffmfffffffffmllllm",
        "fffffmffffffffffmllm",
        "fffffffmfffffmmmmllm",
        "mmmmmmmmmmmfmmmmlllm",
        "fffffffffffffffflllm",
        "fffffffffffffffflllm",
        "fffffffffffffffflllm",
        "ffffffllfffffffflllm",
        "ffffffffvffffffflllm",
        "fmfffffffffffffflllm",
        "fmfffffffffffffflllm",
        "fmfffffffffffffflllm"
    ];
    proof {
            reveal_strlit("vmfffffffffffffffffm");
            reveal_strlit("fmfffffffffffffffflm");
            reveal_strlit("fffffffvfffffffffllm");
            reveal_strlit("ffffffffffffffffllfm");
            reveal_strlit("fffffffffffffffllffm");
            reveal_strlit("ffffffffffffffllfffm");
            reveal_strlit("fffffffffffffllffffm");
            reveal_strlit("ffffffffffffffmffllm");
            reveal_strlit("ffffmmfffffffffmlllm");
            reveal_strlit("ffffmfffffffffmllllm");
            reveal_strlit("fffffmffffffffffmllm");
            reveal_strlit("fffffffmfffffmmmmllm");
            reveal_strlit("mmmmmmmmmmmfmmmmlllm");
            reveal_strlit("fffffffffffffffflllm");
            reveal_strlit("fffffffffffffffflllm");
            reveal_strlit("fffffffffffffffflllm");
            reveal_strlit("ffffffllfffffffflllm");
            reveal_strlit("ffffffffvffffffflllm");
            reveal_strlit("fmfffffffffffffflllm");
            reveal_strlit("fmfffffffffffffflllm");
            reveal_strlit("fmfffffffffffffflllm");
        assert(map_data@.len() == default_map().len());
        assert forall|y: int| 0 <= y < map_data@.len() implies (#[trigger] map_data@[y])@ == default_map()[y] by {}
        assert forall|y: int, x: int|
            0 <= y < default_map().len() && 0 <= x < default_map()[y].len() implies is_grid_char(
                #[trigger] default_map()[y][x],
            ) by {}
    }
    let mut world = World::new();
    world.grid = Vec::new();
    let mut y: usize = 0;
    while y < map_data.len()
        invariant
            0 <= y <= map_data@.len(),
            map_data@.len() == default_map().len(),
            forall|r: int| 0 <= r < map_data@.len() ==> (#[trigger] map_data@[r])@ == default_map()[r],
            forall|r: int, x: int|
                0 <= r < default_map().len() && 0 <= x < default_map()[r].len() ==> is_grid_char(
                    #[trigger] default_map()[r][x],
                ),
            world.grid@.len() == y,
            forall|r: int| 0 <= r < y ==> (#[trigger] world.grid@[r])@.len() == default_map()[r].len(),
            forall|r: int, x: int|
                0 <= r < y && 0 <= x < default_map()[r].len() ==> (#[trigger] world.grid@[r]@[x]).kind()
                    == map_char_type(default_map()[r][x]) && world.grid@[r]@[x].spawnable(),
            world.agents@ == Map::<u32, (usize, usize)>::empty(),
            world.monsters@ == Map::<u32, (usize, usize)>::empty(),
            world.treasures@ == Map::<u32, (usize, usize)>::empty(),
        decreases map_data@.len() - y,
    {
        let row_str = map_data[y];
        let n = row_str.unicode_len();
        let mut row: Vec<Tile> = Vec::new();
        let mut x: usize = 0;
        while x < n
            invariant
                0 <= y < default_map().len(),
                row_str@ == default_map()[y as int],
                n == row_str@.len(),
                forall|c: int| 0 <= c < n ==> is_grid_char(#[trigger] row_str@[c]),
                0 <= x <= n,
                row@.len() == x,
                forall|c: int|
                    0 <= c < x ==> (#[trigger] row@[c]).kind() == map_char_type(row_str@[c]) && row@[c].spawnable(),
            decreases n - x,
        {
            let c = row_str.get_char(x);
            let tile_type = if c == 'm' {
                TileType::Mountain
            } else if c == 'l' {
                TileType::Lake
            } else if c == 'v' {
                TileType::Village
            } else if c == 'd' {
                TileType::Dungeon
            } else {
                TileType::Forest
            };
            row.push(Tile::new(tile_type));
            x = x + 1;
        }
        world.grid.push(row);
        y = y + 1;
    }
    world
}

/// A row of `n` forest tiles.
fn forest_row(n: usize) -> (row: Vec<Tile>)
    ensures
        row@.len() == n,
        forall|c: int| 0 <= c < n ==> (#[trigger] row@[c]).kind() == TileType::Forest && row@[c].spawnable(),
{
    let mut row: Vec<Tile> = Vec::new();
    let mut x: usize = 0;
    while x < n
        invariant
            0 <= x <= n,
            row@.len() == x,
            forall|c: int| 0 <= c < x ==> (#[trigger] row@[c]).kind() == TileType::Forest && row@[c].spawnable(),
        decreases n - x,
    {
        row.push(Tile::new(TileType::Forest));
        x = x + 1;
    }
    row
}

impl World {
    /// `(x, y)` is a tile of the grid.
    pub open spec fn valid_position(&self, x: int, y: int) -> bool {
        0 <= y < self.grid@.len() && 0 <= x < self.grid@[y]@.len()
    }

    /// The tile at `(x, y)`.
    pub open spec fn tile(&self, x: int, y: int) -> Tile {
        self.grid@[y]@[x]
    }

    /// An empty world: a 30 by 30 grid of forest, and no agents, monsters or
    /// treasures.
    pub fn new() -> (w: World)
        ensures
            w.grid@.len() == 30,
            forall|y: int| 0 <= y < 30 ==> (#[trigger] w.grid@[y])@.len() == 30,
            forall|y: int, x: int|
                0 <= y < 30 && 0 <= x < 30 ==> (#[trigger] w.grid@[y]@[x]).kind() == TileType::Forest
                    && w.grid@[y]@[x].spawnable(),
            w.agents@ == Map::<u32, (usize, usize)>::empty(),
            w.monsters@ == Map::<u32, (usize, usize)>::empty(),
            w.treasures@ == Map::<u32, (usize, usize)>::empty(),
    {
        let mut grid: Vec<Vec<Tile>> = Vec::new();
        let mut y: usize = 0;
        while y < 30
            invariant
                0 <= y <= 30,
                grid@.len() == y,
                forall|r: int| 0 <= r < y ==> (#[trigger] grid@[r])@.len() == 30,
                forall|r: int, x: int|
                    0 <= r < y && 0 <= x < 30 ==> (#[trigger] grid@[r]@[x]).kind() == TileType::Forest
                        && grid@[r]@[x].spawnable(),
            decreases 30 - y,
        {
            grid.push(forest_row(30));
            y = y + 1;
        }
        World {
            agents: HashMap::new(),
            monsters: HashMap::new(),
            treasures: HashMap::new(),
            grid,
        }
    }

    /// Checks that `(x, y)` is a tile of the grid.
    fn is_valid_position(&self, x: usize, y: usize) -> (r: Result<(), MyError>)
        ensures
            r is Ok <==> self.valid_position(x as int, y as int),
            r is Err ==> r == Err::<(), MyError>(MyError::PositionError),
    {
        if y < self.grid.len() {
            if x < self.grid[y].len() {
                return Ok(());
            }
        }
        Err(MyError::PositionError)
    }

    /// An independent copy of the world.
    pub fn copy(&self) -> (w: World)
        ensures
            w.agents@ == self.agents@,
            w.monsters@ == self.monsters@,
            w.treasures@ == self.treasures@,
            w.grid@.len() == self.grid@.len(),
            forall|y: int| 0 <= y < self.grid@.len() ==> (#[trigger] w.grid@[y])@ == self.grid@[y]@,
    {
        let mut new_grid: Vec<Vec<Tile>> = Vec::new();
        let mut y: usize = 0;
        while y < self.grid.len()
            invariant
                0 <= y <= self.grid@.len(),
                new_grid@.len() == y,
                forall|r: int| 0 <= r < y ==> (#[trigger] new_grid@[r])@ == self.grid@[r]@,
            decreases self.grid@.len() - y,
        {
            let row = &self.grid[y];
            let mut new_row: Vec<Tile> = Vec::new();
            let mut x: usize = 0;
            while x < row.len()
                invariant
                    0 <= x <= row@.len(),
                    new_row@ == row@.take(x as int),
                decreases row@.len() - x,
            {
                new_row.push(row[x].copy_tile());
                x = x + 1;
                assert(new_row@ =~= row@.take(x as int));
            }
            assert(new_row@ =~= row@);
            new_grid.push(new_row);
            y = y + 1;
        }
        World {
            agents: self.agents.clone(),
            monsters: self.monsters.clone(),
            treasures: self.treasures.clone(),
            grid: new_grid,
        }
    }

    /// The tile at `(x, y)`, or `TileNotFound` when the grid has none there.
    pub fn get_tile(&self, x: usize, y: usize) -> (r: Result<&Tile, MyError>)
        ensures
            match r {
                Ok(t) => self.valid_position(x as int, y as int) && *t == self.tile(x as int, y as int),
                Err(e) => !self.valid_position(x as int, y as int) && e == MyError::TileNotFound,
            },
    {
        match self.is_valid_position(x, y) {
            Ok(_) => Ok(&self.grid[y][x]),
            Err(_) => Err(MyError::TileNotFound),
        }
    }

    /// The type of the tile at `(x, y)`, or `PositionError` when the grid has
    /// none there.
    pub fn get_tile_type(&self, x: usize, y: usize) -> (r: Result<Option<TileType>, MyError>)
        ensures
            match r {
                Ok(t) => self.valid_position(x as int, y as int) && t == Some(self.tile(x as int, y as int).kind()),
                Err(e) => !self.valid_position(x as int, y as int) && e == MyError::PositionError,
            },
    {
        self.is_valid_position(x, y)?;
        match self.get_tile(x, y) {
            Ok(tile) => Ok(Some(tile.get_tile_type())),
            Err(_) => Err(MyError::TileNotFound),
        }
    }

    /// The grid position of the agent with the given id.
    pub fn get_agent_position(&self, agent_id: u32) -> (r: Result<(usize, usize), MyError>)
        ensures
            r == (if self.agents@.contains_key(agent_id) {
                Ok(self.agents@[agent_id])
            } else {
                Err(MyError::AgentNotFound)
            }),
    {
        match self.agents.get(&agent_id) {
            Some(position) => Ok(*position),
            None => Err(MyError::AgentNotFound),
        }
    }

    /// The grid position of the monster with the given id.
    pub fn get_monster_position(&self, monster_id: u32) -> (r: Result<(usize, usize), MyError>)
        ensures
            r == (if self.monsters@.contains_key(monster_id) {
                Ok(self.monsters@[monster_id])
            } else {
                Err(MyError::MonsterNotFound)
            }),
    {
        match self.monsters.get(&monster_id) {
            Some(position) => Ok(*position),
            None => Err(MyError::MonsterNotFound),
        }
    }

    /// The grid position of the treasure with the given id.
    pub fn get_treasure_position(&self, treasure_id: u32) -> (r: Result<(usize, usize), MyError>)
        ensures
            r == (if self.treasures@.contains_key(treasure_id) {
                Ok(self.treasures@[treasure_id])
            } else {
                Err(MyError::TreasureNotFound)
            }),
    {
        match self.treasures.get(&treasure_id) {
            Some(position) => Ok(*position),
            None => Err(MyError::TreasureNotFound),
        }
    }

    /// Mutable access to the tile at `(x, y)`, or `TileNotFound` when the grid
    /// has none there.
    pub fn get_tile_mut(&mut self, x: usize, y: usize) -> (r: Result<Option<&mut Tile>, MyError>)
        ensures
            match r {
                Ok(Some(t)) => {
                    &&& old(self).valid_position(x as int, y as int)
                    &&& *t == old(self).tile(x as int, y as int)
                    &&& final(self).grid@.len() == old(self).grid@.len()
                    &&& forall|r: int| 0 <= r < old(self).grid@.len() && r != y ==> (#[trigger] final(self).grid@[r])@ == old(self).grid@[r]@
                    &&& final(self).grid@[y as int]@ == old(self).grid@[y as int]@.update(x as int, *final(t))
                    &&& final(self).agents@ == old(self).agents@
                    &&& final(self).monsters@ == old(self).monsters@
                    &&& final(self).treasures@ == old(self).treasures@
                },
                Ok(None) => false,
                Err(e) => {
                    &&& !old(self).valid_position(x as int, y as int)
                    &&& e == MyError::TileNotFound
                    &&& *final(self) == *old(self)
                },
            },
    {
        match self.is_valid_position(x, y) {
            Ok(_) => Ok(Some(&mut self.grid[y][x])),
            Err(_) => Err(MyError::TileNotFound),
        }
    }

    /// Checks whether `(x, y)` is a tile of the grid.
    pub fn is_valid_position_bool(&self, x: isize, y: isize) -> (b: bool)
        ensures
            b == self.valid_position(x as int, y as int),
    {
        x >= 0 && y >= 0 && (y as usize) < self.grid.len() && (x as usize) < self.grid[y as usize].len()
    }

    /// Forbids monsters to spawn on the tile at row `r`, column `c`.
    fn clear_spawn(&mut self, r: usize, c: usize)
        requires
            old(self).valid_position(c as int, r as int),
        ensures
            grid_view(final(self).grid@) == grid_view(old(self).grid@).update(
                r as int,
                grid_view(old(self).grid@)[r as int].update(
                    c as int,
                    (grid_view(old(self).grid@)[r as int][c as int].0, false),
                ),
            ),
            final(self).grid@.len() == old(self).grid@.len(),
            forall|rr: int| 0 <= rr < old(self).grid@.len() ==> (#[trigger] final(self).grid@[rr])@.len() == old(self).grid@[rr]@.len(),
            final(self).agents@ == old(self).agents@,
            final(self).monsters@ == old(self).monsters@,
            final(self).treasures@ == old(self).treasures@,
    {
        self.grid[r][c].set_monster_spawn(false);
        proof {
            let a = grid_view(old(self).grid@);
            let b = a.update(r as int, a[r as int].update(c as int, (a[r as int][c as int].0, false)));
            assert forall|rr: int| 0 <= rr < a.len() implies #[trigger] grid_view(self.grid@)[rr] =~= b[rr] by {}
            assert(grid_view(self.grid@) =~= b);
        }
    }

    /// Forbids monsters to spawn around every village (in the square of
    /// radius 5, the village included), and on every mountain and lake,
    /// visiting the tiles row by row; a tile whose spawning has already been
    /// forbidden has no effect when it is visited.
    pub fn set_valid_spawns(&mut self)
        ensures
            grid_view(final(self).grid@) == sweep_rows(grid_view(old(self).grid@), old(self).grid@.len() as int),
            spawns_narrowed(grid_view(old(self).grid@), grid_view(final(self).grid@)),
            changes_explained(grid_view(old(self).grid@), grid_view(final(self).grid@)),
            spawns_settled(grid_view(final(self).grid@)),
            final(self).agents@ == old(self).agents@,
            final(self).monsters@ == old(self).monsters@,
            final(self).treasures@ == old(self).treasures@,
    {
        let ghost a0 = grid_view(self.grid@);
        proof {
            lemma_grid_view(self.grid@);
        }
        let mut r: usize = 0;
        while r < self.grid.len()
            invariant
                0 <= r <= self.grid@.len(),
                self.grid@.len() == a0.len(),
                forall|rr: int| 0 <= rr < a0.len() ==> (#[trigger] self.grid@[rr])@.len() == a0[rr].len(),
                a0.len() == old(self).grid@.len(),
                a0 == grid_view(old(self).grid@),
                grid_view(self.grid@) == sweep_rows(a0, r as int),
                self.agents@ == old(self).agents@,
                self.monsters@ == old(self).monsters@,
                self.treasures@ == old(self).treasures@,
            decreases a0.len() - r,
        {
            proof {
                lemma_sweep_rows_shape(a0, r as int);
            }
            let ghost b = sweep_rows(a0, r as int);
            let mut c: usize = 0;
            while c < self.grid[r].len()
                invariant
                    0 <= r < self.grid@.len(),
                    self.grid@.len() == a0.len(),
                    forall|rr: int| 0 <= rr < a0.len() ==> (#[trigger] self.grid@[rr])@.len() == a0[rr].len(),
                    forall|rr: int| 0 <= rr < a0.len() ==> (#[trigger] b[rr]).len() == a0[rr].len(),
                    b.len() == a0.len(),
                    0 <= c <= b[r as int].len(),
                    grid_view(self.grid@) == sweep_row(b, r as int, c as int),
                    self.agents@ == old(self).agents@,
                    self.monsters@ == old(self).monsters@,
                    self.treasures@ == old(self).treasures@,
                decreases b[r as int].len() - c,
            {
                proof {
                    lemma_sweep_row_shape(b, r as int, c as int);
                    lemma_grid_view(self.grid@);
                }
                let ghost before = grid_view(self.grid@);
                let mut tile = self.grid[r][c];
                assert(before[r as int][c as int] == (tile.kind(), tile.spawnable()));
                if tile.is_monster_spawn() {
                    match tile.get_tile_type() {
                        TileType::Village => {
                            self.clear_spawn(r, c);
                            self.clear_village_square(r, c, Ghost(before));
                        },
                        TileType::Mountain => {
                            self.clear_spawn(r, c);
                        },
                        TileType::Lake => {
                            self.clear_spawn(r, c);
                        },
                        _ => {},
                    }
                }
                c = c + 1;
            }
            proof {
                lemma_sweep_row_shape(b, r as int, c as int);
            }
            r = r + 1;
        }
        proof {
            let s = sweep_rows(a0, a0.len() as int);
            lemma_sweep_rows_narrows(a0, a0.len() as int);
            lemma_sweep_rows_explained(a0, a0.len() as int);
            assert forall|rr: int, cc: int| 0 <= rr < s.len() && 0 <= cc < s[rr].len() implies #[trigger] settled_cell(
                s,
                rr,
                cc,
            ) by {
                assert(s[rr].len() == a0[rr].len());
            }
        }
    }

    /// Forbids spawning on the tiles of the square of radius 5 around row `r`,
    /// column `c` (the centre is already forbidden).
    fn clear_village_square(&mut self, r: usize, c: usize, Ghost(a): Ghost<Seq<Seq<(TileType, bool)>>>)
        requires
            old(self).valid_position(c as int, r as int),
            a.len() == old(self).grid@.len(),
            forall|rr: int| 0 <= rr < a.len() ==> (#[trigger] a[rr]).len() == old(self).grid@[rr]@.len(),
            grid_view(old(self).grid@) == a.update(r as int, a[r as int].update(c as int, (a[r as int][c as int].0, false))),
        ensures
            grid_view(final(self).grid@) == clear_square(a, r as int, c as int),
            final(self).grid@.len() == old(self).grid@.len(),
            forall|rr: int| 0 <= rr < old(self).grid@.len() ==> (#[trigger] final(self).grid@[rr])@.len() == old(self).grid@[rr]@.len(),
            final(self).agents@ == old(self).agents@,
            final(self).monsters@ == old(self).monsters@,
            final(self).treasures@ == old(self).treasures@,
    {
        let mut i: i128 = -5;
        while i <= 5
            invariant
                -5 <= i <= 6,
                0 <= r < a.len(),
                0 <= c < a[r as int].len(),
                self.grid@.len() == a.len(),
                forall|rr: int| 0 <= rr < a.len() ==> (#[trigger] self.grid@[rr])@.len() == a[rr].len(),
                forall|rr: int, cc: int|
                    0 <= rr < a.len() && 0 <= cc < a[rr].len() ==> #[trigger] grid_view(self.grid@)[rr][cc] == (
                    if in_square(rr, cc, r as int, c as int) && (rr - r < i || (rr == r && cc == c)) {
                        (a[rr][cc].0, false)
                    } else {
                        a[rr][cc]
                    }),
                self.agents@ == old(self).agents@,
                self.monsters@ == old(self).monsters@,
                self.treasures@ == old(self).treasures@,
            decreases 6 - i,
        {
            let mut j: i128 = -5;
            while j <= 5
                invariant
                    -5 <= i <= 5,
                    -5 <= j <= 6,
                    0 <= r < a.len(),
                    0 <= c < a[r as int].len(),
                    self.grid@.len() == a.len(),
                    forall|rr: int| 0 <= rr < a.len() ==> (#[trigger] self.grid@[rr])@.len() == a[rr].len(),
                    forall|rr: int, cc: int|
                        0 <= rr < a.len() && 0 <= cc < a[rr].len() ==> #[trigger] grid_view(self.grid@)[rr][cc]
                            == (if in_square(rr, cc, r as int, c as int) && (rr - r < i || (rr - r == i && cc - c < j) || (
                        rr == r && cc == c)) {
                            (a[rr][cc].0, false)
                        } else {
                            a[rr][cc]
                        }),
                    self.agents@ == old(self).agents@,
                    self.monsters@ == old(self).monsters@,
                    self.treasures@ == old(self).treasures@,
                decreases 6 - j,
            {
                if j != 0 || i != 0 {
                    let new_row: i128 = r as i128 + i;
                    let new_col: i128 = c as i128 + j;
                    if new_row >= 0 && new_col >= 0 && new_row < self.grid.len() as i128 && new_col
                        < self.grid[new_row as usize].len() as i128 {
                        let ghost g0 = grid_view(self.grid@);
                        self.clear_spawn(new_row as usize, new_col as usize);
                        proof {
                            assert forall|rr: int, cc: int|
                                0 <= rr < a.len() && 0 <= cc < a[rr].len() implies #[trigger] grid_view(self.grid@)[rr][cc]
                                == (if in_square(rr, cc, r as int, c as int) && (rr - r < i || (rr - r == i && cc - c < j + 1) || (
                            rr == r && cc == c)) {
                                (a[rr][cc].0, false)
                            } else {
                                a[rr][cc]
                            }) by {
                                if rr != new_row || cc != new_col {
                                    assert(grid_view(self.grid@)[rr][cc] == g0[rr][cc]);
                                }
                            }
                        }
                    }
                }
                j = j + 1;
            }
            i = i + 1;
        }
        proof {
            let target = clear_square(a, r as int, c as int);
            assert forall|rr: int| 0 <= rr < a.len() implies #[trigger] grid_view(self.grid@)[rr] =~= target[rr] by {
                assert forall|cc: int| 0 <= cc < a[rr].len() implies grid_view(self.grid@)[rr][cc] == target[rr][cc] by {
                    assert(grid_view(self.grid@)[rr][cc] == (if in_square(rr, cc, r as int, c as int) && (rr - r < i || (rr == r && cc == c)) {
                        (a[rr][cc].0, false)
                    } else {
                        a[rr][cc]
                    }));
                }
            }
            assert(grid_view(self.grid@) =~= target);
        }
    }

    /// No tile of row `r` up to column `c` ends the scan.
    pub open spec fn scan_open(&self, r: int, c: int) -> bool {
        forall|k: int| 0 <= k <= c ==> !stops_scan(#[trigger] self.tile(k, r).kind())
    }

    /// A monster may spawn at row `r`, column `c`: no agent is within distance
    /// 5 and no monster is there already.
    pub open spec fn spawn_free(&self, r: int, c: int) -> bool {
        !any_near(self.agents@, r, c) && !any_at(self.monsters@, r, c)
    }

    /// The spawn points among the first `n` columns of row `r`: those before
    /// the first village, mountain or lake of the row that are free.
    pub open spec fn row_spawns(&self, r: int, n: int) -> Seq<(u32, u32)>
        decreases n,
    {
        if n <= 0 {
            Seq::empty()
        } else if self.scan_open(r, n - 1) && self.spawn_free(r, n - 1) {
            self.row_spawns(r, n - 1).push((r as u32, (n - 1) as u32))
        } else {
            self.row_spawns(r, n - 1)
        }
    }

    /// The non-empty rows of spawn points of the first `n` rows.
    pub open spec fn spawn_rows(&self, n: int) -> Seq<Seq<(u32, u32)>>
        decreases n,
    {
        if n <= 0 {
            Seq::empty()
        } else {
            let row = self.row_spawns(n - 1, self.grid@[n - 1]@.len() as int);
            if row.len() > 0 {
                self.spawn_rows(n - 1).push(row)
            } else {
                self.spawn_rows(n - 1)
            }
        }
    }

    /// Once the scan of a row has stopped, later columns add nothing.
    proof fn lemma_row_spawns_stopped(&self, r: int, c: int, n: int)
        requires
            0 <= c < n,
            !self.scan_open(r, c),
        ensures
            self.row_spawns(r, n) == self.row_spawns(r, c),
        decreases n - c,
    {
        if n > c + 1 {
            self.lemma_row_spawns_stopped(r, c, n - 1);
            assert(!self.scan_open(r, n - 1));
        }
    }

    /// The places where monsters may spawn, row by row: a row is scanned from
    /// the left until its first village, mountain or lake, and a tile is taken
    /// as `(row, column)` when no agent is within distance 5 and no monster is
    /// on it; rows without such tiles are left out.
    pub fn find_valid_monster_spawns(&self) -> (r: Vec<Vec<(u32, u32)>>)
        ensures
            r@.map_values(|v: Vec<(u32, u32)>| v@) == self.spawn_rows(self.grid@.len() as int),
    {
        let mut valid_spawns: Vec<Vec<(u32, u32)>> = Vec::new();
        let mut row_index: usize = 0;
        while row_index < self.grid.len()
            invariant
                0 <= row_index <= self.grid@.len(),
                valid_spawns@.map_values(|v: Vec<(u32, u32)>| v@) == self.spawn_rows(row_index as int),
            decreases self.grid@.len() - row_index,
        {
            let row = &self.grid[row_index];
            let mut valid_row_spawns: Vec<(u32, u32)> = Vec::new();
            let mut col_index: usize = 0;
            let mut stopped = false;
            while col_index < row.len() && !stopped
                invariant
                    0 <= row_index < self.grid@.len(),
                    row@ == self.grid@[row_index as int]@,
                    0 <= col_index <= row@.len(),
                    !stopped ==> col_index == 0 || self.scan_open(row_index as int, col_index - 1),
                    stopped ==> col_index > 0 && !self.scan_open(row_index as int, col_index - 1),
                    valid_row_spawns@ == self.row_spawns(row_index as int, col_index as int),
                decreases row@.len() - col_index,
            {
                let tile_type = row[col_index].get_tile_type();
                let near_agent = check_any_near(&self.agents, row_index, col_index);
                let on_monster = check_any_at(&self.monsters, row_index, col_index);
                let is_valid_spawn = !near_agent && !on_monster;
                assert(self.tile(col_index as int, row_index as int) == row@[col_index as int]);
                if tile_type == TileType::Village || tile_type == TileType::Mountain || tile_type == TileType::Lake {
                    assert(stops_scan(self.tile(col_index as int, row_index as int).kind()));
                    assert(!self.scan_open(row_index as int, col_index as int));
                    stopped = true;
                } else {
                    proof {
                        assert forall|k: int| 0 <= k <= col_index implies !stops_scan(#[trigger] self.tile(k, row_index as int).kind()) by {
                            if k < col_index {
                                assert(self.scan_open(row_index as int, col_index - 1));
                            }
                        }
                    }
                    if is_valid_spawn {
                        valid_row_spawns.push((row_index as u32, col_index as u32));
                    }
                }
                col_index = col_index + 1;
            }
            proof {
                if stopped {
                    self.lemma_row_spawns_stopped(row_index as int, col_index - 1, row@.len() as int);
                }
            }
            let ghost before = valid_spawns@;
            if valid_row_spawns.len() > 0 {
                valid_spawns.push(valid_row_spawns);
                proof {
                    assert(valid_spawns@.map_values(|v: Vec<(u32, u32)>| v@) =~= before.map_values(|v: Vec<(u32, u32)>| v@).push(self.row_spawns(row_index as int, row@.len() as int)));
                }
            }
            row_index = row_index + 1;
        }
        valid_spawns
    }

    /// A copy of the grid.
    pub fn get_grid(&self) -> (g: Vec<Vec<Tile>>)
        ensures
            g@.len() == self.grid@.len(),
            forall|y: int| 0 <= y < self.grid@.len() ==> (#[trigger] g@[y])@ == self.grid@[y]@,
    {
        let copy = self.copy();
        copy.grid
    }

    /// Records the agent with the given id at `(x, y)`; `PositionError` when the
    /// grid has no tile there.
    pub fn add_agent(&mut self, agent_id: u32, x: usize, y: usize) -> (r: Result<(), MyError>)
        ensures
            r is Ok <==> old(self).valid_position(x as int, y as int),
            r is Ok ==> final(self).agents@ == old(self).agents@.insert(agent_id, (x, y)),
            r is Err ==> r == Err::<(), MyError>(MyError::PositionError) && final(self).agents@ == old(self).agents@,
            final(self).monsters@ == old(self).monsters@,
            final(self).treasures@ == old(self).treasures@,
            final(self).grid@ == old(self).grid@,
    {
        self.is_valid_position(x, y)?;
        self.agents.insert(agent_id, (x, y));
        Ok(())
    }

    /// Removes the agent with the given id; `AgentNotFound` when there is none.
    pub fn remove_agent(&mut self, agent_id: u32) -> (r: Result<(), MyError>)
        ensures
            r is Ok <==> old(self).agents@.contains_key(agent_id),
            r is Err ==> r == Err::<(), MyError>(MyError::AgentNotFound),
            final(self).agents@ == old(self).agents@.remove(agent_id),
            final(self).monsters@ == old(self).monsters@,
            final(self).treasures@ == old(self).treasures@,
            final(self).grid@ == old(self).grid@,
    {
        if self.agents.contains_key(&agent_id) {
            self.agents.remove(&agent_id);
            return Ok(());
        }
        assert(self.agents@.remove(agent_id) =~= self.agents@);
        Err(MyError::AgentNotFound)
    }

    /// Moves the agent with the given id, storing `(pos_y2, pos_x2)`;
    /// `AgentNotFound` when there is none.
    pub fn move_agent(&mut self, agent_id: u32, pos_y2: usize, pos_x2: usize) -> (r: Result<(), MyError>)
        ensures
            r is Ok <==> old(self).agents@.contains_key(agent_id),
            r is Ok ==> final(self).agents@ == old(self).agents@.insert(agent_id, (pos_y2, pos_x2)),
            r is Err ==> r == Err::<(), MyError>(MyError::AgentNotFound) && final(self).agents@ == old(self).agents@,
            final(self).monsters@ == old(self).monsters@,
            final(self).treasures@ == old(self).treasures@,
            final(self).grid@ == old(self).grid@,
    {
        if self.agents.contains_key(&agent_id) {
            self.agents.insert(agent_id, (pos_y2, pos_x2));
            Ok(())
        } else {
            Err(MyError::AgentNotFound)
        }
    }

    /// Records the monster with the given id at `(x, y)`; `PositionError` when
    /// the grid has no tile there.
    pub fn add_monster(&mut self, monster_id: u32, x: usize, y: usize) -> (r: Result<(), MyError>)
        ensures
            r is Ok <==> old(self).valid_position(x as int, y as int),
            r is Ok ==> final(self).monsters@ == old(self).monsters@.insert(monster_id, (x, y)),
            r is Err ==> r == Err::<(), MyError>(MyError::PositionError) && final(self).monsters@ == old(self).monsters@,
            final(self).agents@ == old(self).agents@,
            final(self).treasures@ == old(self).treasures@,
            final(self).grid@ == old(self).grid@,
    {
        self.is_valid_position(x, y)?;
        self.monsters.insert(monster_id, (x, y));
        Ok(())
    }

    /// Removes the monster with the given id; `MonsterNotFound` when there is none.
    pub fn remove_monster(&mut self, monster_id: u32) -> (r: Result<(), MyError>)
        ensures
            r is Ok <==> old(self).monsters@.contains_key(monster_id),
            r is Err ==> r == Err::<(), MyError>(MyError::MonsterNotFound),
            final(self).monsters@ == old(self).monsters@.remove(monster_id),
            final(self).agents@ == old(self).agents@,
            final(self).treasures@ == old(self).treasures@,
            final(self).grid@ == old(self).grid@,
    {
        if self.monsters.contains_key(&monster_id) {
            self.monsters.remove(&monster_id);
            return Ok(());
        }
        assert(self.monsters@.remove(monster_id) =~= self.monsters@);
        Err(MyError::MonsterNotFound)
    }

    /// Records the treasure with the given id at `(x, y)`; `PositionError` when
    /// the grid has no tile there.
    pub fn add_treasure(&mut self, treasure_id: u32, x: usize, y: usize) -> (r: Result<(), MyError>)
        ensures
            r is Ok <==> old(self).valid_position(x as int, y as int),
            r is Ok ==> final(self).treasures@ == old(self).treasures@.insert(treasure_id, (x, y)),
            r is Err ==> r == Err::<(), MyError>(MyError::PositionError) && final(self).treasures@ == old(self).treasures@,
            final(self).agents@ == old(self).agents@,
            final(self).monsters@ == old(self).monsters@,
            final(self).grid@ == old(self).grid@,
    {
        self.is_valid_position(x, y)?;
        self.treasures.insert(treasure_id, (x, y));
        Ok(())
    }

    /// Removes the treasure with the given id; `TreasureNotFound` when there is none.
    pub fn remove_treasure(&mut self, treasure_id: u32) -> (r: Result<(), MyError>)
        ensures
            r is Ok <==> old(self).treasures@.contains_key(treasure_id),
            r is Err ==> r == Err::<(), MyError>(MyError::TreasureNotFound),
            final(self).treasures@ == old(self).treasures@.remove(treasure_id),
            final(self).agents@ == old(self).agents@,
            final(self).monsters@ == old(self).monsters@,
            final(self).grid@ == old(self).grid@,
    {
        if self.treasures.contains_key(&treasure_id) {
            self.treasures.remove(&treasure_id);
            return Ok(());
        }
        assert(self.treasures@.remove(treasure_id) =~= self.treasures@);
        Err(MyError::TreasureNotFound)
    }

    /// The villages of the grid, as `(x, y)`, row after row.
    pub fn villages(&self) -> (v: Vec<(usize, usize)>)
        ensures
            v@ == village_cells(self.grid@, self.grid@.len() as int),
    {
        let mut villages: Vec<(usize, usize)> = Vec::new();
        let mut y: usize = 0;
        while y < self.grid.len()
            invariant
                0 <= y <= self.grid@.len(),
                villages@ == village_cells(self.grid@, y as int),
            decreases self.grid@.len() - y,
        {
            let ghost before = villages@;
            let row = &self.grid[y];
            let mut x: usize = 0;
            while x < row.len()
                invariant
                    0 <= y < self.grid@.len(),
                    row@ == self.grid@[y as int]@,
                    0 <= x <= row@.len(),
                    villages@ == before + village_cells_in_row(row@, y as int, x as int),
                decreases row@.len() - x,
            {
                if row[x].get_tile_type() == TileType::Village {
                    villages.push((x, y));
                    assert(villages@ =~= before + village_cells_in_row(row@, y as int, x as int + 1));
                }
                x = x + 1;
            }
            y = y + 1;
        }
        villages
    }

    /// Where `start_agent_count` new agents are placed: agent `i` goes to
    /// village `i` modulo the number of villages.
    pub fn populate_agents(&self, start_agent_count: usize) -> (p: Vec<(usize, usize)>)
        requires
            start_agent_count > 0 ==> village_cells(self.grid@, self.grid@.len() as int).len() > 0,
        ensures
            p@.len() == start_agent_count,
            forall|i: int| 0 <= i < start_agent_count ==> #[trigger] p@[i] == village_cells(self.grid@, self.grid@.len() as int)[i % village_cells(self.grid@, self.grid@.len() as int).len() as int],
    {
        let villages = self.villages();
        let mut positions: Vec<(usize, usize)> = Vec::new();
        let mut i: usize = 0;
        while i < start_agent_count
            invariant
                0 <= i <= start_agent_count,
                villages@ == village_cells(self.grid@, self.grid@.len() as int),
                start_agent_count > 0 ==> villages@.len() > 0,
                positions@.len() == i,
                forall|k: int| 0 <= k < i ==> #[trigger] positions@[k] == villages@[k % villages@.len() as int],
            decreases start_agent_count - i,
        {
            positions.push(villages[i % villages.len()]);
            i = i + 1;
        }
        positions
    }

    /// Where monsters are placed: the first `max_monsters` of all spawn points
    /// in a random order.
    pub fn populate_monsters(valid_spawns: Vec<Vec<(u32, u32)>>, max_monsters: usize) -> (p: Vec<(u32, u32)>)
        ensures
            exists|order: Seq<(u32, u32)>|
                #[trigger] order.to_multiset() == valid_spawns@.map_values(|v: Vec<(u32, u32)>| v@).flatten().to_multiset()
                    && p@ == order.take(if max_monsters < order.len() { max_monsters as int } else { order.len() as int }),
    {
        let ghost rows = valid_spawns@.map_values(|v: Vec<(u32, u32)>| v@);
        let mut all_spawns: Vec<(u32, u32)> = Vec::new();
        let mut r: usize = 0;
        while r < valid_spawns.len()
            invariant
                0 <= r <= valid_spawns@.len(),
                rows == valid_spawns@.map_values(|v: Vec<(u32, u32)>| v@),
                all_spawns@ == rows.take(r as int).flatten_alt(),
            decreases valid_spawns@.len() - r,
        {
            let row = &valid_spawns[r];
            let ghost before = all_spawns@;
            let mut c: usize = 0;
            while c < row.len()
                invariant
                    0 <= c <= row@.len(),
                    all_spawns@ == before + row@.take(c as int),
                decreases row@.len() - c,
            {
                all_spawns.push(row[c]);
                c = c + 1;
                assert(all_spawns@ =~= before + row@.take(c as int));
            }
            proof {
                assert(row@.take(c as int) =~= row@);
                assert(rows.take(r as int + 1).drop_last() =~= rows.take(r as int));
            }
            r = r + 1;
        }
        proof {
            assert(rows.take(r as int) =~= rows);
            rows.lemma_flatten_and_flatten_alt_are_equivalent();
        }
        shuffle_spawns(&mut all_spawns);
        let count = if max_monsters < all_spawns.len() { max_monsters } else { all_spawns.len() };
        let mut chosen: Vec<(u32, u32)> = Vec::new();
        let mut i: usize = 0;
        while i < count
            invariant
                0 <= i <= count <= all_spawns@.len(),
                chosen@ == all_spawns@.take(i as int),
            decreases count - i,
        {
            chosen.push(all_spawns[i]);
            i = i + 1;
            assert(chosen@ =~= all_spawns@.take(i as int));
        }
        assert(all_spawns@.to_multiset() == rows.flatten().to_multiset());
        chosen
    }
}

} // verus!
