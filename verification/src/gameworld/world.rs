use vstd::prelude::*;
use crate::gameworld::position::{Position, manhattan, manhattan_distance};
use crate::gameworld::tile::Tile;
use crate::gameworld::tile_types::TileType;

verus! {

/// The game world: its tiles, each with its position, and the bounding box
/// of those positions.
pub struct GameWorld {
    pub tiles: Vec<(Position, Tile)>,
    pub width_mind: i32,
    pub height_min: i32,
    pub width_max: i32,
    pub height_max: i32,
}

/// `i` is the first index of `s` whose position is `p`.
pub open spec fn is_first_index(s: Seq<(Position, Tile)>, p: Position, i: int) -> bool {
    &&& 0 <= i < s.len()
    &&& s[i].0 == p
    &&& forall|j: int| 0 <= j < i ==> s[j].0 != p
}

/// Some entry of `s` is at position `p`.
pub open spec fn seq_has_position(s: Seq<(Position, Tile)>, p: Position) -> bool {
    exists|i: int| 0 <= i < s.len() && s[i].0 == p
}

/// The first index of `s` whose position is `p` (meaningful when there is one).
pub open spec fn first_index(s: Seq<(Position, Tile)>, p: Position) -> int {
    choose|i: int| #[trigger] is_first_index(s, p, i)
}

/// The tile of the first entry of `s` at position `p`, if there is one.
pub open spec fn seq_tile_at(s: Seq<(Position, Tile)>, p: Position) -> Option<Tile> {
    if exists|i: int| #[trigger] is_first_index(s, p, i) {
        Some(s[first_index(s, p)].1)
    } else {
        None
    }
}

/// No two entries of `s` share a position.
pub open spec fn distinct_positions(s: Seq<(Position, Tile)>) -> bool {
    forall|i: int, j: int| 0 <= i < s.len() && 0 <= j < s.len() && i != j ==> s[i].0 != s[j].0
}

/// The tile type that a map character stands for.
pub open spec fn char_tile_type(c: char) -> TileType {
    if c == 'm' {
        TileType::Mountain
    } else if c == 'l' {
        TileType::Lake
    } else if c == 'v' {
        TileType::Village
    } else if c == 'd' {
        TileType::Dungeon
    } else if c == 'f' {
        TileType::Forest
    } else if c == 'F' {
        TileType::Farm
    } else {
        TileType::Mine
    }
}

/// The characters that a world map may contain.
pub open spec fn is_map_char(c: char) -> bool {
    c == 'm' || c == 'l' || c == 'v' || c == 'd' || c == 'f' || c == 'F' || c == 'M'
}

/// The tiles of map row `row`, which is row number `y`, left to right.
pub open spec fn row_tiles(row: Seq<char>, y: int) -> Seq<(Position, Tile)> {
    Seq::new(
        row.len(),
        |x: int| (Position { x: x as i32, y: y as i32 }, Tile { tile_type: char_tile_type(row[x]) }),
    )
}

/// The tiles of a whole map, row after row.
pub open spec fn map_tiles(rows: Seq<Seq<char>>) -> Seq<(Position, Tile)>
    decreases rows.len(),
{
    if rows.len() == 0 {
        Seq::empty()
    } else {
        map_tiles(rows.drop_last()) + row_tiles(rows.last(), rows.len() - 1)
    }
}

/// The character rows of a map.
pub open spec fn map_rows(rows: Seq<String>) -> Seq<Seq<char>> {
    rows.map_values(|r: String| r@)
}

/// Smallest x of the entries, or `i32::MAX` when there are none.
pub open spec fn min_x(s: Seq<(Position, Tile)>) -> int
    decreases s.len(),
{
    if s.len() == 0 {
        i32::MAX as int
    } else {
        let m = min_x(s.drop_last());
        if (s.last().0.x as int) < m { s.last().0.x as int } else { m }
    }
}

/// Smallest y of the entries, or `i32::MAX` when there are none.
pub open spec fn min_y(s: Seq<(Position, Tile)>) -> int
    decreases s.len(),
{
    if s.len() == 0 {
        i32::MAX as int
    } else {
        let m = min_y(s.drop_last());
        if (s.last().0.y as int) < m { s.last().0.y as int } else { m }
    }
}

/// Largest x of the entries, or `i32::MIN` when there are none.
pub open spec fn max_x(s: Seq<(Position, Tile)>) -> int
    decreases s.len(),
{
    if s.len() == 0 {
        i32::MIN as int
    } else {
        let m = max_x(s.drop_last());
        if (s.last().0.x as int) > m { s.last().0.x as int } else { m }
    }
}

/// Largest y of the entries, or `i32::MIN` when there are none.
pub open spec fn max_y(s: Seq<(Position, Tile)>) -> int
    decreases s.len(),
{
    if s.len() == 0 {
        i32::MIN as int
    } else {
        let m = max_y(s.drop_last());
        if (s.last().0.y as int) > m { s.last().0.y as int } else { m }
    }
}

/// `k` is the first index of a tile of type `tt` at the smallest Manhattan
/// distance from `pos`, and that distance is below `i32::MAX`.
pub open spec fn is_closest_of_type(s: Seq<(Position, Tile)>, pos: Position, tt: TileType, k: int) -> bool {
    &&& 0 <= k < s.len()
    &&& s[k].1.tile_type == tt
    &&& manhattan(pos, s[k].0) < i32::MAX
    &&& forall|j: int|
        0 <= j < s.len() && (#[trigger] s[j]).1.tile_type == tt ==> manhattan(pos, s[k].0) <= manhattan(
            pos,
            s[j].0,
        )
    &&& forall|j: int|
        0 <= j < k && (#[trigger] s[j]).1.tile_type == tt ==> manhattan(pos, s[k].0) < manhattan(
            pos,
            s[j].0,
        )
}

/// The position of the closest tile of type `tt` to `pos`, if there is one
/// closer than `i32::MAX`.
pub open spec fn closest_of_type(s: Seq<(Position, Tile)>, pos: Position, tt: TileType) -> Option<Position> {
    if exists|k: int| is_closest_of_type(s, pos, tt, k) {
        Some(s[choose|k: int| is_closest_of_type(s, pos, tt, k)].0)
    } else {
        None
    }
}

/// Only one index is the closest of its type.
pub proof fn lemma_closest_unique(s: Seq<(Position, Tile)>, pos: Position, tt: TileType, k1: int, k2: int)
    requires
        is_closest_of_type(s, pos, tt, k1),
        is_closest_of_type(s, pos, tt, k2),
    ensures
        k1 == k2,
{
    if k1 < k2 {
        assert(s[k1].1.tile_type == tt);
    } else if k2 < k1 {
        assert(s[k2].1.tile_type == tt);
    }
}

/// The positions of the village tiles, in tile order.
pub open spec fn village_positions(s: Seq<(Position, Tile)>) -> Seq<Position>
    decreases s.len(),
{
    if s.len() == 0 {
        Seq::empty()
    } else if s.last().1.tile_type == TileType::Village {
        village_positions(s.drop_last()).push(s.last().0)
    } else {
        village_positions(s.drop_last())
    }
}

/// Squared Euclidean distance between two positions.
pub open spec fn distance_squared(a: Position, b: Position) -> int {
    (a.x - b.x) * (a.x - b.x) + (a.y - b.y) * (a.y - b.y)
}

/// `k` is the first index of `vs` whose position differs from `vs[a]` and is
/// at the smallest squared distance from it.
pub open spec fn is_closest_other(vs: Seq<Position>, a: int, k: int) -> bool {
    &&& 0 <= k < vs.len()
    &&& vs[k] != vs[a]
    &&& forall|j: int|
        0 <= j < vs.len() && #[trigger] vs[j] != vs[a] ==> distance_squared(vs[a], vs[k])
            <= distance_squared(vs[a], vs[j])
    &&& forall|j: int|
        0 <= j < k && #[trigger] vs[j] != vs[a] ==> distance_squared(vs[a], vs[k]) < distance_squared(
            vs[a],
            vs[j],
        )
}

/// The closest-village pairs of the first `n` villages of `vs`.
pub open spec fn closest_pairs(vs: Seq<Position>, n: int) -> Seq<(Position, Position)>
    decreases n,
{
    if n <= 0 {
        Seq::empty()
    } else if exists|k: int| #[trigger] is_closest_other(vs, n - 1, k) {
        closest_pairs(vs, n - 1).push((vs[n - 1], vs[choose|k: int| #[trigger] is_closest_other(vs, n - 1, k)]))
    } else {
        closest_pairs(vs, n - 1)
    }
}

/// There is only one closest other village index.
proof fn lemma_closest_other_unique(vs: Seq<Position>, a: int, k: int)
    requires
        is_closest_other(vs, a, k),
    ensures
        (choose|j: int| #[trigger] is_closest_other(vs, a, j)) == k,
{
    let c = choose|j: int| #[trigger] is_closest_other(vs, a, j);
    assert(is_closest_other(vs, a, c));
    if c < k {
        assert(vs[c] != vs[a]);
    } else if k < c {
        assert(vs[k] != vs[a]);
    }
}

/// Every village tile has its position among the village positions.
pub proof fn lemma_village_positions_cover(s: Seq<(Position, Tile)>, i: int)
    requires
        0 <= i < s.len(),
        s[i].1.tile_type == TileType::Village,
    ensures
        village_positions(s).contains(s[i].0),
    decreases s.len(),
{
    let front = s.drop_last();
    if i == s.len() - 1 {
        assert(village_positions(s) == village_positions(front).push(s[i].0));
        assert(village_positions(s)[village_positions(front).len() as int] == s[i].0);
    } else {
        assert(front[i] == s[i]);
        lemma_village_positions_cover(front, i);
        let k = choose|k: int| 0 <= k < village_positions(front).len() && village_positions(front)[k] == s[i].0;
        if s.last().1.tile_type == TileType::Village {
            assert(village_positions(s)[k] == s[i].0);
        } else {
            assert(village_positions(s)[k] == s[i].0);
        }
    }
}

/// Among the first `m` positions, when one differs from `vs[a]`, some differs
/// and is closest to it, the first such when several are.
proof fn lemma_closest_in_prefix(vs: Seq<Position>, a: int, m: int)
    requires
        0 <= a < vs.len(),
        0 <= m <= vs.len(),
        exists|j: int| 0 <= j < m && #[trigger] vs[j] != vs[a],
    ensures
        exists|k: int|
            0 <= k < m && vs[k] != vs[a] && (forall|j: int|
                0 <= j < m && #[trigger] vs[j] != vs[a] ==> distance_squared(vs[a], vs[k]) <= distance_squared(vs[a], vs[j]))
                && (forall|j: int|
                0 <= j < k && #[trigger] vs[j] != vs[a] ==> distance_squared(vs[a], vs[k]) < distance_squared(vs[a], vs[j])),
    decreases m,
{
    if exists|j: int| 0 <= j < m - 1 && #[trigger] vs[j] != vs[a] {
        lemma_closest_in_prefix(vs, a, m - 1);
        let k = choose|k: int|
            0 <= k < m - 1 && vs[k] != vs[a] && (forall|j: int|
                0 <= j < m - 1 && #[trigger] vs[j] != vs[a] ==> distance_squared(vs[a], vs[k]) <= distance_squared(vs[a], vs[j]))
                && (forall|j: int|
                0 <= j < k && #[trigger] vs[j] != vs[a] ==> distance_squared(vs[a], vs[k]) < distance_squared(vs[a], vs[j]));
        if vs[m - 1] != vs[a] && distance_squared(vs[a], vs[m - 1]) < distance_squared(vs[a], vs[k]) {
            let k2 = m - 1;
            assert(forall|j: int|
                0 <= j < m && #[trigger] vs[j] != vs[a] ==> distance_squared(vs[a], vs[k2]) <= distance_squared(vs[a], vs[j]));
            assert(forall|j: int|
                0 <= j < k2 && #[trigger] vs[j] != vs[a] ==> distance_squared(vs[a], vs[k2]) < distance_squared(vs[a], vs[j]));
        } else {
            assert(forall|j: int|
                0 <= j < m && #[trigger] vs[j] != vs[a] ==> distance_squared(vs[a], vs[k]) <= distance_squared(vs[a], vs[j]));
        }
    } else {
        let k = m - 1;
        assert(vs[k] != vs[a]);
        assert(forall|j: int|
            0 <= j < m && #[trigger] vs[j] != vs[a] ==> j == k);
        assert(forall|j: int|
            0 <= j < k && #[trigger] vs[j] != vs[a] ==> distance_squared(vs[a], vs[k]) < distance_squared(vs[a], vs[j]));
    }
}

/// A village with another village elsewhere has a closest other village.
pub proof fn lemma_closest_other_exists(vs: Seq<Position>, a: int, j: int)
    requires
        0 <= a < vs.len(),
        0 <= j < vs.len(),
        vs[j] != vs[a],
    ensures
        exists|k: int| #[trigger] is_closest_other(vs, a, k),
{
    lemma_closest_in_prefix(vs, a, vs.len() as int);
    let k = choose|k: int|
        0 <= k < vs.len() && vs[k] != vs[a] && (forall|j: int|
            0 <= j < vs.len() && #[trigger] vs[j] != vs[a] ==> distance_squared(vs[a], vs[k]) <= distance_squared(vs[a], vs[j]))
            && (forall|j: int|
            0 <= j < k && #[trigger] vs[j] != vs[a] ==> distance_squared(vs[a], vs[k]) < distance_squared(vs[a], vs[j]));
    assert(is_closest_other(vs, a, k));
}

/// Each of the first `n` villages that has a closest other village is paired
/// with it.
pub proof fn lemma_closest_pairs_cover(vs: Seq<Position>, n: int, a: int, k: int)
    requires
        0 <= a < n <= vs.len(),
        is_closest_other(vs, a, k),
    ensures
        closest_pairs(vs, n).contains((vs[a], vs[k])),
    decreases n,
{
    if a == n - 1 {
        lemma_closest_other_unique(vs, a, k);
        let prev = closest_pairs(vs, n - 1);
        assert(closest_pairs(vs, n) == prev.push((vs[a], vs[k])));
        assert(closest_pairs(vs, n)[prev.len() as int] == (vs[a], vs[k]));
    } else {
        lemma_closest_pairs_cover(vs, n - 1, a, k);
        let prev = closest_pairs(vs, n - 1);
        let i = choose|i: int| 0 <= i < prev.len() && prev[i] == (vs[a], vs[k]);
        if exists|c: int| #[trigger] is_closest_other(vs, n - 1, c) {
            assert(closest_pairs(vs, n)[i] == (vs[a], vs[k]));
        } else {
            assert(closest_pairs(vs, n)[i] == (vs[a], vs[k]));
        }
    }
}

/// Computes the squared Euclidean distance between two positions.
pub fn squared_distance(a: Position, b: Position) -> (d: i128)
    ensures
        d == distance_squared(a, b),
{
    let dx: i128 = a.x as i128 - b.x as i128;
    let dy: i128 = a.y as i128 - b.y as i128;
    assert(0 <= dx * dx <= 0x1_0000_0000_0000_0000) by (nonlinear_arith)
        requires
            -0x1_0000_0000 <= dx <= 0x1_0000_0000,
    ;
    assert(0 <= dy * dy <= 0x1_0000_0000_0000_0000) by (nonlinear_arith)
        requires
            -0x1_0000_0000 <= dy <= 0x1_0000_0000,
    ;
    dx * dx + dy * dy
}

impl GameWorld {
    /// The world has a tile at `p`.
    pub open spec fn has_position(&self, p: Position) -> bool {
        seq_has_position(self.tiles@, p)
    }

    /// The tile at `p`, if any.
    pub open spec fn tile_at(&self, p: Position) -> Option<Tile> {
        seq_tile_at(self.tiles@, p)
    }

    /// The type of the tile at `p`, if any.
    pub open spec fn tile_type_at(&self, p: Position) -> Option<TileType> {
        match self.tile_at(p) {
            Some(t) => Some(t.tile_type),
            None => None,
        }
    }

    /// `p` lies in the bounding box of the world.
    pub open spec fn in_bounds(&self, p: Position) -> bool {
        self.width_mind <= p.x <= self.width_max && self.height_min <= p.y <= self.height_max
    }

    /// Every tile position is unique and the bounding box is that of the tiles.
    pub open spec fn wf(&self) -> bool {
        &&& distinct_positions(self.tiles@)
        &&& self.width_mind == min_x(self.tiles@)
        &&& self.height_min == min_y(self.tiles@)
        &&& self.width_max == max_x(self.tiles@)
        &&& self.height_max == max_y(self.tiles@)
    }

    /// Constructs an empty world.
    pub fn new() -> (w: GameWorld)
        ensures
            w.tiles@.len() == 0,
            w.width_mind == i32::MAX,
            w.height_min == i32::MAX,
            w.width_max == i32::MIN,
            w.height_max == i32::MIN,
            w.wf(),
    {
        GameWorld {
            tiles: Vec::new(),
            width_mind: i32::MAX,
            height_min: i32::MAX,
            width_max: i32::MIN,
            height_max: i32::MIN,
        }
    }

    /// Creates a world from map rows; row `y`, character `x` becomes the tile at
    /// `(x, y)` ('m' mountain, 'l' lake, 'v' village, 'd' dungeon, 'f' forest,
    /// 'F' farm, 'M' mine), and the bounding box is that of all tiles.
    pub fn create_world(map_data: Vec<String>) -> (w: GameWorld)
        requires
            map_data@.len() <= i32::MAX,
            forall|r: int| 0 <= r < map_data@.len() ==> #[trigger] map_data@[r]@.len() <= i32::MAX,
            forall|r: int, c: int|
                0 <= r < map_data@.len() && 0 <= c < map_data@[r]@.len() ==> is_map_char(
                    #[trigger] map_data@[r]@[c],
                ),
        ensures
            w.tiles@ == map_tiles(map_rows(map_data@)),
            w.wf(),
    {
        let ghost rows = map_rows(map_data@);
        let mut world = GameWorld::new();
        let mut mnx: i32 = i32::MAX;
        let mut mny: i32 = i32::MAX;
        let mut mxx: i32 = i32::MIN;
        let mut mxy: i32 = i32::MIN;
        let mut y: usize = 0;
        while y < map_data.len()
            invariant
                rows == map_rows(map_data@),
                rows.len() == map_data@.len(),
                map_data@.len() <= i32::MAX,
                forall|r: int| 0 <= r < map_data@.len() ==> #[trigger] map_data@[r]@.len() <= i32::MAX,
                forall|r: int, c: int|
                    0 <= r < map_data@.len() && 0 <= c < map_data@[r]@.len() ==> is_map_char(
                        #[trigger] map_data@[r]@[c],
                    ),
                0 <= y <= map_data@.len(),
                world.tiles@ == map_tiles(rows.take(y as int)),
                mnx == min_x(world.tiles@),
                mny == min_y(world.tiles@),
                mxx == max_x(world.tiles@),
                mxy == max_y(world.tiles@),
                distinct_positions(world.tiles@),
                forall|i: int| 0 <= i < world.tiles@.len() ==> (#[trigger] world.tiles@[i]).0.y < y,
            decreases map_data@.len() - y,
        {
            let row = map_data[y].as_str();
            let n = row.unicode_len();
            let ghost before = world.tiles@;
            let mut x: usize = 0;
            while x < n
                invariant
                    rows == map_rows(map_data@),
                    0 <= y < map_data@.len() <= i32::MAX,
                    row@ == map_data@[y as int]@,
                    row@ == rows[y as int],
                    n == row@.len(),
                    n <= i32::MAX,
                    forall|c: int| 0 <= c < row@.len() ==> is_map_char(#[trigger] row@[c]),
                    0 <= x <= n,
                    before == map_tiles(rows.take(y as int)),
                    world.tiles@ == before + row_tiles(rows[y as int], y as int).take(x as int),
                    mnx == min_x(world.tiles@),
                    mny == min_y(world.tiles@),
                    mxx == max_x(world.tiles@),
                    mxy == max_y(world.tiles@),
                    distinct_positions(world.tiles@),
                    forall|i: int|
                        0 <= i < world.tiles@.len() ==> (#[trigger] world.tiles@[i]).0.y < y || (
                        world.tiles@[i].0.y == y && world.tiles@[i].0.x < x),
                decreases n - x,
            {
                let c = row.get_char(x);
                let tile_type = if c == 'm' {
                    TileType::Mountain
                } else if c == 'l' {
                    TileType::Lake
                } else if c == 'v' {
                    TileType::Village
                } else if c == 'd' {
                    TileType::Dungeon
                } else if c == 'f' {
                    TileType::Forest
                } else if c == 'F' {
                    TileType::Farm
                } else {
                    TileType::Mine
                };
                let position = Position { x: x as i32, y: y as i32 };
                let ghost old_tiles = world.tiles@;
                world.tiles.push((position, Tile::new(tile_type)));
                assert(world.tiles@.drop_last() == old_tiles);
                if position.x < mnx {
                    mnx = position.x;
                }
                if position.y < mny {
                    mny = position.y;
                }
                if position.x > mxx {
                    mxx = position.x;
                }
                if position.y > mxy {
                    mxy = position.y;
                }
                x = x + 1;
                assert(world.tiles@ =~= before + row_tiles(rows[y as int], y as int).take(x as int));
            }
            assert(row_tiles(rows[y as int], y as int).take(x as int) =~= row_tiles(rows[y as int], y as int));
            assert(rows.take(y as int + 1).drop_last() =~= rows.take(y as int));
            y = y + 1;
        }
        assert(rows.take(y as int) =~= rows);
        world.width_mind = mnx;
        world.height_min = mny;
        world.width_max = mxx;
        world.height_max = mxy;
        world
    }

    /// Finds the first entry at position `(x, y)`.
    fn find_index(&self, x: i32, y: i32) -> (r: Option<usize>)
        ensures
            match r {
                Some(i) => is_first_index(self.tiles@, Position { x, y }, i as int),
                None => !self.has_position(Position { x, y }),
            },
    {
        let p = Position { x, y };
        let mut i: usize = 0;
        while i < self.tiles.len()
            invariant
                0 <= i <= self.tiles@.len(),
                p == (Position { x, y }),
                forall|j: int| 0 <= j < i ==> self.tiles@[j].0 != p,
            decreases self.tiles@.len() - i,
        {
            if self.tiles[i].0 == p {
                return Some(i);
            }
            i = i + 1;
        }
        None
    }

    /// The first index of an entry at `p` is the one the spec functions read.
    pub proof fn lemma_first_index(&self, p: Position, i: int)
        requires
            is_first_index(self.tiles@, p, i),
        ensures
            self.has_position(p),
            self.tile_at(p) == Some(self.tiles@[i].1),
            first_index(self.tiles@, p) == i,
    {
        let k = first_index(self.tiles@, p);
        assert(is_first_index(self.tiles@, p, k));
        if k < i {
            assert(self.tiles@[k].0 != p);
        } else if i < k {
            assert(self.tiles@[i].0 != p);
        }
    }

    /// Checks whether the world has a tile at `(x, y)`.
    pub fn is_valid_position(&self, x: i32, y: i32) -> (b: bool)
        ensures
            b == self.has_position(Position { x, y }),
    {
        let r = self.find_index(x, y);
        r.is_some()
    }

    /// The tiles of the world.
    pub fn get_tiles(&self) -> (t: &Vec<(Position, Tile)>)
        ensures
            t@ == self.tiles@,
    {
        &self.tiles
    }

    /// Smallest x of the bounding box.
    pub fn get_width_mind(&self) -> (v: i32)
        ensures
            v == self.width_mind,
    {
        self.width_mind
    }

    /// Smallest y of the bounding box.
    pub fn get_height_min(&self) -> (v: i32)
        ensures
            v == self.height_min,
    {
        self.height_min
    }

    /// Largest x of the bounding box.
    pub fn get_width_max(&self) -> (v: i32)
        ensures
            v == self.width_max,
    {
        self.width_max
    }

    /// Largest y of the bounding box.
    pub fn get_height_max(&self) -> (v: i32)
        ensures
            v == self.height_max,
    {
        self.height_max
    }

    /// An independent copy of the world.
    pub fn copy(&self) -> (w: GameWorld)
        ensures
            w.tiles@ == self.tiles@,
            w.width_mind == self.width_mind,
            w.height_min == self.height_min,
            w.width_max == self.width_max,
            w.height_max == self.height_max,
    {
        let mut tiles: Vec<(Position, Tile)> = Vec::new();
        let mut i: usize = 0;
        while i < self.tiles.len()
            invariant
                0 <= i <= self.tiles@.len(),
                tiles@ == self.tiles@.take(i as int),
            decreases self.tiles@.len() - i,
        {
            let e = self.tiles[i];
            tiles.push((e.0, e.1));
            i = i + 1;
            assert(tiles@ =~= self.tiles@.take(i as int));
        }
        assert(tiles@ =~= self.tiles@);
        GameWorld {
            tiles,
            width_mind: self.width_mind,
            height_min: self.height_min,
            width_max: self.width_max,
            height_max: self.height_max,
        }
    }

    /// The tile at `(x, y)`, if the world has one.
    pub fn get_tile(&self, x: i32, y: i32) -> (t: Option<Tile>)
        ensures
            t == self.tile_at(Position { x, y }),
    {
        match self.find_index(x, y) {
            Some(i) => {
                proof {
                    self.lemma_first_index(Position { x, y }, i as int);
                }
                Some(self.tiles[i].1)
            },
            None => None,
        }
    }

    /// Mutable access to the tile at `(x, y)`, if the world has one; the
    /// changes made through it land in that tile of the world.
    pub fn get_tile_mut(&mut self, x: i32, y: i32) -> (r: Option<&mut Tile>)
        ensures
            match r {
                Some(t) => {
                    &&& old(self).tile_at(Position { x, y }) == Some(*t)
                    &&& final(self).tiles@ == old(self).tiles@.update(
                        first_index(old(self).tiles@, Position { x, y }),
                        (Position { x, y }, *final(t)),
                    )
                    &&& final(self).width_mind == old(self).width_mind
                    &&& final(self).height_min == old(self).height_min
                    &&& final(self).width_max == old(self).width_max
                    &&& final(self).height_max == old(self).height_max
                },
                None => {
                    &&& old(self).tile_at(Position { x, y }) is None
                    &&& *final(self) == *old(self)
                },
            },
    {
        match self.find_index(x, y) {
            Some(i) => {
                proof {
                    self.lemma_first_index(Position { x, y }, i as int);
                }
                Some(&mut self.tiles[i].1)
            },
            None => None,
        }
    }

    /// The type of the tile at `(x, y)`, if the world has one.
    pub fn get_tile_type(&self, x: i32, y: i32) -> (t: Option<TileType>)
        ensures
            t == self.tile_type_at(Position { x, y }),
    {
        match self.get_tile(x, y) {
            Some(tile) => Some(tile.get_tile_type()),
            None => None,
        }
    }

    /// The position of the first tile of type `tile_type` that is closest to
    /// `position` in Manhattan distance, among those closer than `i32::MAX`.
    pub fn find_closest_tiletype(&self, position: Position, tile_type: TileType) -> (r: Option<
        Position,
    >)
        ensures
            match r {
                Some(p) => exists|k: int|
                    is_closest_of_type(self.tiles@, position, tile_type, k) && #[trigger] self.tiles@[k].0
                        == p,
                None => forall|j: int|
                    0 <= j < self.tiles@.len() && (#[trigger] self.tiles@[j]).1.tile_type == tile_type
                        ==> manhattan(position, self.tiles@[j].0) >= i32::MAX,
            },
            r == closest_of_type(self.tiles@, position, tile_type),
    {
        let mut closest_tile: Option<usize> = None;
        let mut min_cost: i64 = i32::MAX as i64;
        let mut i: usize = 0;
        while i < self.tiles.len()
            invariant
                0 <= i <= self.tiles@.len(),
                match closest_tile {
                    Some(k) => {
                        &&& k < i
                        &&& self.tiles@[k as int].1.tile_type == tile_type
                        &&& min_cost == manhattan(position, self.tiles@[k as int].0)
                        &&& min_cost < i32::MAX
                        &&& forall|j: int|
                            0 <= j < i && (#[trigger] self.tiles@[j]).1.tile_type == tile_type ==> min_cost
                                <= manhattan(position, self.tiles@[j].0)
                        &&& forall|j: int|
                            0 <= j < k && (#[trigger] self.tiles@[j]).1.tile_type == tile_type ==> min_cost
                                < manhattan(position, self.tiles@[j].0)
                    },
                    None => {
                        &&& min_cost == i32::MAX
                        &&& forall|j: int|
                            0 <= j < i && (#[trigger] self.tiles@[j]).1.tile_type == tile_type
                                ==> manhattan(position, self.tiles@[j].0) >= i32::MAX
                    },
                },
            decreases self.tiles@.len() - i,
        {
            let entry = self.tiles[i];
            if entry.1.get_tile_type() == tile_type {
                let cost = manhattan_distance(position, entry.0);
                if cost < min_cost {
                    min_cost = cost;
                    closest_tile = Some(i);
                }
            }
            i = i + 1;
        }
        match closest_tile {
            Some(k) => {
                assert(is_closest_of_type(self.tiles@, position, tile_type, k as int));
                proof {
                    let c = choose|c: int| is_closest_of_type(self.tiles@, position, tile_type, c);
                    lemma_closest_unique(self.tiles@, position, tile_type, k as int, c);
                }
                Some(self.tiles[k].0)
            },
            None => {
                assert(!exists|c: int| is_closest_of_type(self.tiles@, position, tile_type, c)) by {
                    if exists|c: int| is_closest_of_type(self.tiles@, position, tile_type, c) {
                        let c = choose|c: int| is_closest_of_type(self.tiles@, position, tile_type, c);
                        assert(self.tiles@[c].1.tile_type == tile_type);
                    }
                }
                None
            },
        }
    }

    /// For each village (in tile order) that has another village, the village
    /// paired with the first other village at the smallest Euclidean distance.
    pub fn find_closest_villages(&self) -> (r: Vec<(Position, Position)>)
        ensures
            r@ == closest_pairs(village_positions(self.tiles@), village_positions(self.tiles@).len() as int),
    {
        let mut village_positions_vec: Vec<Position> = Vec::new();
        let mut i: usize = 0;
        while i < self.tiles.len()
            invariant
                0 <= i <= self.tiles@.len(),
                village_positions_vec@ == village_positions(self.tiles@.take(i as int)),
            decreases self.tiles@.len() - i,
        {
            let entry = self.tiles[i];
            assert(self.tiles@.take(i as int + 1).drop_last() =~= self.tiles@.take(i as int));
            if entry.1.get_tile_type() == TileType::Village {
                village_positions_vec.push(entry.0);
            }
            i = i + 1;
        }
        assert(self.tiles@.take(i as int) =~= self.tiles@);
        let ghost vs = village_positions_vec@;
        let mut result: Vec<(Position, Position)> = Vec::new();
        let mut a: usize = 0;
        while a < village_positions_vec.len()
            invariant
                vs == village_positions_vec@,
                0 <= a <= vs.len(),
                result@ == closest_pairs(vs, a as int),
            decreases vs.len() - a,
        {
            let village_pos = village_positions_vec[a];
            let mut closest_village: Option<usize> = None;
            let mut min_distance: i128 = 0;
            let mut b: usize = 0;
            while b < village_positions_vec.len()
                invariant
                    vs == village_positions_vec@,
                    0 <= a < vs.len(),
                    village_pos == vs[a as int],
                    0 <= b <= vs.len(),
                    match closest_village {
                        Some(k) => {
                            &&& k < b
                            &&& vs[k as int] != village_pos
                            &&& min_distance == distance_squared(village_pos, vs[k as int])
                            &&& forall|j: int|
                                0 <= j < b && #[trigger] vs[j] != village_pos ==> min_distance
                                    <= distance_squared(village_pos, vs[j])
                            &&& forall|j: int|
                                0 <= j < k && #[trigger] vs[j] != village_pos ==> min_distance
                                    < distance_squared(village_pos, vs[j])
                        },
                        None => forall|j: int| 0 <= j < b ==> #[trigger] vs[j] == village_pos,
                    },
                decreases vs.len() - b,
            {
                let other_village_pos = village_positions_vec[b];
                if village_pos != other_village_pos {
                    let distance = squared_distance(village_pos, other_village_pos);
                    if closest_village.is_none() || distance < min_distance {
                        min_distance = distance;
                        closest_village = Some(b);
                    }
                }
                b = b + 1;
            }
            match closest_village {
                Some(k) => {
                    proof {
                        assert(is_closest_other(vs, a as int, k as int));
                        lemma_closest_other_unique(vs, a as int, k as int);
                    }
                    result.push((village_pos, village_positions_vec[k]));
                },
                None => {
                    assert forall|k: int| !is_closest_other(vs, a as int, k) by {
                        if 0 <= k < vs.len() {
                            assert(vs[k] == village_pos);
                        }
                    }
                },
            }
            a = a + 1;
        }
        result
    }

    /// Checks whether the position lies in the world's bounding box.
    pub fn is_within_bounds(&self, position: Position) -> (b: bool)
        ensures
            b == self.in_bounds(position),
    {
        position.x >= self.width_mind && position.x <= self.width_max && position.y
            >= self.height_min && position.y <= self.height_max
    }
}

} // verus!
