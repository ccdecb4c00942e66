//! Breadth-first flood fills over a room's tiles: from some seed tiles, every
//! tile reachable through the chosen kind of neighbours, nearest first, each with
//! its distance in steps.
use vstd::prelude::*;
use crate::planner::{ROOM_AREA, RoomXY, TerrainKind, tile_index, xy_valid};

verus! {

/// Which neighbours of a tile a fill spreads to: tiles that are not walls, in all
/// eight directions, only diagonally, or only orthogonally; or, in all eight
/// directions, the non-wall tiles that lie on the star pattern around a center.
#[derive(PartialEq, Eq, Structural, Clone, Copy, Debug)]
pub enum Spread {
    Walkable,
    Diagonal,
    Orthogonal,
    Star { center: RoomXY },
}

/// The step in direction `d`, counting clockwise from the top (0) to the top left
/// (7), with y growing downwards.
pub open spec fn dir_offset(d: int) -> (int, int) {
    if d == 0 { (0, -1) }
    else if d == 1 { (1, -1) }
    else if d == 2 { (1, 0) }
    else if d == 3 { (1, 1) }
    else if d == 4 { (0, 1) }
    else if d == 5 { (-1, 1) }
    else if d == 6 { (-1, 0) }
    else { (-1, -1) }
}

/// The neighbour of `p` in direction `d`, if it is in the room.
pub open spec fn spec_step(p: RoomXY, d: int) -> Option<RoomXY> {
    let x = p.x + dir_offset(d).0;
    let y = p.y + dir_offset(d).1;
    if 0 <= x < 50 && 0 <= y < 50 { Some(RoomXY { x: x as u8, y: y as u8 }) } else { None }
}

/// The neighbour of `p` in direction `d` (0 to 7), if it is in the room.
pub fn step_towards(p: RoomXY, d: u8) -> (r: Option<RoomXY>)
    requires
        xy_valid(p),
        d < 8,
    ensures
        r == spec_step(p, d as int),
{
    let (dx, dy): (i16, i16) = if d == 0 { (0, -1) }
        else if d == 1 { (1, -1) }
        else if d == 2 { (1, 0) }
        else if d == 3 { (1, 1) }
        else if d == 4 { (0, 1) }
        else if d == 5 { (-1, 1) }
        else if d == 6 { (-1, 0) }
        else { (-1, -1) };
    let x: i16 = p.x as i16 + dx;
    let y: i16 = p.y as i16 + dy;
    if 0 <= x && x < 50 && 0 <= y && y < 50 {
        Some(RoomXY { x: x as u8, y: y as u8 })
    } else {
        None
    }
}

/// The absolute difference of two coordinates.
pub open spec fn coord_dist(a: u8, b: u8) -> int {
    if a >= b { a - b } else { b - a }
}

/// The tile lies on the star pattern around `center`: its distance along the two
/// axes together is 2 modulo 4, or it is 0 modulo 4 with an odd distance along x.
pub open spec fn on_star(center: RoomXY, p: RoomXY) -> bool {
    let dx = coord_dist(p.x, center.x);
    let dy = coord_dist(p.y, center.y);
    (dx + dy) % 4 == 2 || ((dx + dy) % 4 == 0 && dx % 2 == 1)
}

/// The fill spreads from a tile to its neighbour `q` in direction `d`.
pub open spec fn spreads_to(spread: Spread, terrain: Seq<TerrainKind>, d: int, q: RoomXY) -> bool {
    &&& terrain[tile_index(q)] != TerrainKind::Wall
    &&& match spread {
        Spread::Walkable => true,
        Spread::Diagonal => d % 2 == 1,
        Spread::Orthogonal => d % 2 == 0,
        Spread::Star { center } => on_star(center, q),
    }
}

/// The tiles that the fill adds from `p`, looking at directions 0 to `n - 1` in
/// turn: each neighbour it spreads to that is neither among `filled` nor already
/// added.
pub open spec fn added(spread: Spread, terrain: Seq<TerrainKind>, p: RoomXY, n: int, filled: Set<int>) -> Seq<RoomXY>
    decreases n,
{
    if n <= 0 {
        Seq::empty()
    } else {
        let rest = added(spread, terrain, p, n - 1, filled);
        match spec_step(p, n - 1) {
            Some(q) => if spreads_to(spread, terrain, n - 1, q) && !filled.contains(tile_index(q)) && !rest.contains(q) {
                rest.push(q)
            } else {
                rest
            },
            None => rest,
        }
    }
}

/// The fill adds no wall.
proof fn lemma_added_no_wall(spread: Spread, terrain: Seq<TerrainKind>, p: RoomXY, n: int, filled: Set<int>)
    ensures
        forall|i: int| 0 <= i < added(spread, terrain, p, n, filled).len()
            ==> terrain[tile_index(#[trigger] added(spread, terrain, p, n, filled)[i])] != TerrainKind::Wall,
    decreases n,
{
    if n > 0 {
        lemma_added_no_wall(spread, terrain, p, n - 1, filled);
    }
}

/// Tiles of the room have distinct indexes.
proof fn lemma_tile_index_injective(a: RoomXY, b: RoomXY)
    requires
        xy_valid(a),
        xy_valid(b),
        tile_index(a) == tile_index(b),
    ensures
        a == b,
{
    assert(a.y == b.y && a.x == b.x) by (nonlinear_arith)
        requires
            a.x < 50, b.x < 50,
            a.y * 50 + a.x == b.y * 50 + b.x;
}

/// Whether the fill spreads to the neighbour `q` in direction `d`.
fn spreads(spread: Spread, terrain: &Vec<TerrainKind>, d: u8, q: RoomXY) -> (b: bool)
    requires
        terrain@.len() == ROOM_AREA,
        xy_valid(q),
    ensures
        b == spreads_to(spread, terrain@, d as int, q),
{
    let idx = q.y as usize * 50 + q.x as usize;
    if terrain[idx] == TerrainKind::Wall {
        return false;
    }
    match spread {
        Spread::Walkable => true,
        Spread::Diagonal => d % 2 == 1,
        Spread::Orthogonal => d % 2 == 0,
        Spread::Star { center } => {
            let dx: u8 = if q.x >= center.x { q.x - center.x } else { center.x - q.x };
            let dy: u8 = if q.y >= center.y { q.y - center.y } else { center.y - q.y };
            let sum: u16 = dx as u16 + dy as u16;
            sum % 4 == 2 || (sum % 4 == 0 && dx % 2 == 1)
        },
    }
}

/// How many of the flags are set.
pub open spec fn count_true(s: Seq<bool>) -> nat
    decreases s.len(),
{
    if s.len() == 0 {
        0
    } else {
        count_true(s.drop_last()) + if s.last() { 1nat } else { 0nat }
    }
}

/// No more flags are set than there are.
proof fn lemma_count_true_le(s: Seq<bool>)
    ensures
        count_true(s) <= s.len(),
    decreases s.len(),
{
    if s.len() > 0 {
        lemma_count_true_le(s.drop_last());
    }
}

/// Setting a flag that was clear adds one to the count.
proof fn lemma_count_true_set(s: Seq<bool>, i: int)
    requires
        0 <= i < s.len(),
        !s[i],
    ensures
        count_true(s.update(i, true)) == count_true(s) + 1,
    decreases s.len(),
{
    let u = s.update(i, true);
    if i == s.len() - 1 {
        assert(u.drop_last() =~= s.drop_last());
    } else {
        lemma_count_true_set(s.drop_last(), i);
        assert(u.drop_last() =~= s.drop_last().update(i, true));
    }
}

/// Setting a flag never lowers the count.
proof fn lemma_count_true_set_any(s: Seq<bool>, i: int)
    requires
        0 <= i < s.len(),
    ensures
        count_true(s.update(i, true)) >= count_true(s),
{
    if !s[i] {
        lemma_count_true_set(s, i);
    } else {
        assert(s.update(i, true) =~= s);
    }
}

/// The entries of a fill: each queued tile with its distance, in the order queued.
pub open spec fn with_dist(s: Seq<RoomXY>, d: int) -> Seq<(usize, RoomXY)> {
    s.map_values(|q: RoomXY| (d as usize, q))
}

/// The tiles of the entries.
pub open spec fn entry_tiles(s: Seq<(usize, RoomXY)>) -> Set<int> {
    Set::new(|t: int| exists|i: int| 0 <= i < s.len() && tile_index(#[trigger] s[i].1) == t)
}

/// A breadth-first fill: every tile queued so far (the first `head` of which were
/// handed out), which tiles are filled, the room's terrain, and how it spreads.
pub struct FloodFill {
    queue: Vec<(usize, RoomXY)>,
    head: usize,
    filled: Vec<bool>,
    terrain: Vec<TerrainKind>,
    spread: Spread,
    seeds: Ghost<nat>,
}

impl FloodFill {
    /// Every entry queued so far, in order.
    pub closed spec fn entries(&self) -> Seq<(usize, RoomXY)> {
        self.queue@
    }

    /// How many entries were handed out.
    pub closed spec fn handed_out(&self) -> nat {
        self.head as nat
    }

    /// The room's terrain.
    pub closed spec fn spec_terrain(&self) -> Seq<TerrainKind> {
        self.terrain@
    }

    /// How the fill spreads.
    pub closed spec fn spec_spread(&self) -> Spread {
        self.spread
    }

    /// How many seed tiles it started from.
    pub closed spec fn seed_count(&self) -> nat {
        self.seeds@
    }

    /// The fill is consistent: the filled tiles are those queued; all tiles are in
    /// the room; distances never fall along the queue, span at most one step from
    /// the next entry to hand out on, and are at most an entry's place in the
    /// queue; and every entry after the seeds is a tile queued nowhere else, and no
    /// wall.
    pub closed spec fn wf(&self) -> bool {
        &&& self.filled@.len() == ROOM_AREA
        &&& self.terrain@.len() == ROOM_AREA
        &&& self.head <= self.queue@.len()
        &&& self.seeds@ <= self.queue@.len()
        &&& self.queue@.len() <= self.seeds@ + count_true(self.filled@)
        &&& forall|i: int| 0 <= i < self.queue@.len() ==> xy_valid(#[trigger] self.queue@[i].1)
        &&& forall|t: int| 0 <= t < ROOM_AREA ==> (self.filled@[t] <==> entry_tiles(self.queue@).contains(t))
        &&& forall|i: int, j: int| 0 <= i <= j < self.queue@.len() ==> #[trigger] self.queue@[i].0 <= #[trigger] self.queue@[j].0
        &&& forall|j: int| self.head <= j < self.queue@.len() ==> #[trigger] self.queue@[j].0 <= self.queue@[self.head as int].0 + 1
        &&& forall|i: int| 0 <= i < self.queue@.len() ==> #[trigger] self.queue@[i].0 <= i
        &&& forall|i: int, j: int| 0 <= i < j < self.queue@.len() && j >= self.seeds@ ==> #[trigger] self.queue@[i].1 != #[trigger] self.queue@[j].1
        &&& forall|i: int| self.seeds@ <= i < self.queue@.len() ==> self.terrain@[tile_index(#[trigger] self.queue@[i].1)] != TerrainKind::Wall
    }

    /// A fill from the seed tiles (each queued at distance 0, in order, even where
    /// one repeats), over the room's terrain (by tile index).
    pub fn new(seed: Vec<RoomXY>, terrain: Vec<TerrainKind>, spread: Spread) -> (f: Self)
        requires
            terrain@.len() == ROOM_AREA,
            forall|i: int| 0 <= i < seed@.len() ==> xy_valid(#[trigger] seed@[i]),
        ensures
            f.wf(),
            f.entries() == with_dist(seed@, 0),
            f.handed_out() == 0,
            f.seed_count() == seed@.len(),
            f.spec_terrain() == terrain@,
            f.spec_spread() == spread,
    {
        let mut filled: Vec<bool> = Vec::new();
        let mut t: usize = 0;
        while t < ROOM_AREA
            invariant
                t <= ROOM_AREA,
                filled@.len() == t,
                forall|k: int| 0 <= k < t ==> !#[trigger] filled@[k],
            decreases ROOM_AREA - t,
        {
            filled.push(false);
            t = t + 1;
        }
        let mut queue: Vec<(usize, RoomXY)> = Vec::new();
        let mut i: usize = 0;
        while i < seed.len()
            invariant
                i <= seed@.len(),
                filled@.len() == ROOM_AREA,
                forall|k: int| 0 <= k < seed@.len() ==> xy_valid(#[trigger] seed@[k]),
                queue@ == with_dist(seed@.take(i as int), 0),
                forall|k: int| 0 <= k < ROOM_AREA ==> (filled@[k] <==> entry_tiles(queue@).contains(k)),
            decreases seed@.len() - i,
        {
            let p = seed[i];
            let idx = p.y as usize * 50 + p.x as usize;
            let ghost before = queue@;
            let ghost fb = filled@;
            filled.set(idx, true);
            queue.push((0, p));
            proof {
                lemma_count_true_set_any(fb, idx as int);
            }
            proof {
                assert(seed@.take(i as int + 1) =~= seed@.take(i as int).push(p));
                assert(queue@ =~= with_dist(seed@.take(i as int + 1), 0));
                assert forall|k: int| 0 <= k < ROOM_AREA implies (filled@[k] <==> entry_tiles(queue@).contains(k)) by {
                    if entry_tiles(queue@).contains(k) && k != idx {
                        let j = choose|j: int| 0 <= j < queue@.len() && tile_index(#[trigger] queue@[j].1) == k;
                        assert(j < before.len());
                        assert(entry_tiles(before).contains(k));
                    }
                    if entry_tiles(before).contains(k) {
                        let j = choose|j: int| 0 <= j < before.len() && tile_index(#[trigger] before[j].1) == k;
                        assert(queue@[j] == before[j]);
                    }
                    if k == idx {
                        assert(tile_index(queue@[i as int].1) == k);
                    }
                }
            }
            i = i + 1;
        }
        proof {
            assert(seed@.take(i as int) =~= seed@);
        }
        FloodFill { queue, head: 0, filled, terrain, spread, seeds: Ghost(seed@.len()) }
    }

    /// Hands out the next entry, queueing the tiles it spreads to that were never
    /// queued, one step further, in direction order; `None` once every entry was
    /// handed out.
    pub fn next(&mut self) -> (r: Option<(usize, RoomXY)>)
        requires
            old(self).wf(),
        ensures
            final(self).wf(),
            final(self).spec_terrain() == old(self).spec_terrain(),
            final(self).spec_spread() == old(self).spec_spread(),
            final(self).seed_count() == old(self).seed_count(),
            old(self).handed_out() == old(self).entries().len() ==> r is None && *final(self) == *old(self),
            old(self).handed_out() < old(self).entries().len() ==> {
                let e = old(self).entries()[old(self).handed_out() as int];
                &&& r == Some(e)
                &&& final(self).handed_out() == old(self).handed_out() + 1
                &&& final(self).entries() == old(self).entries() + with_dist(
                    added(old(self).spec_spread(), old(self).spec_terrain(), e.1, 8, entry_tiles(old(self).entries())), e.0 + 1)
            },
    {
        if self.head == self.queue.len() {
            return None;
        }
        let (dist, pos) = self.queue[self.head];
        self.head = self.head + 1;
        let ghost old_q = old(self).queue@;
        let ghost old_tiles = entry_tiles(old_q);
        let ghost h = old(self).head as int;
        let len = self.queue.len();
        proof {
            assert(dist <= h);
            assert(h < len);
        }
        let mut d: u8 = 0;
        while d < 8
            invariant
                d <= 8,
                dist < len,
                self.head == h + 1,
                h < old_q.len(),
                old_q[h] == (dist, pos),
                xy_valid(pos),
                self.filled@.len() == ROOM_AREA,
                self.terrain@.len() == ROOM_AREA,
                self.terrain@ == old(self).terrain@,
                self.spread == old(self).spread,
                self.seeds == old(self).seeds,
                old(self).wf(),
                old_q == old(self).queue@,
                old_tiles == entry_tiles(old_q),
                self.queue@ == old_q + with_dist(added(self.spread, self.terrain@, pos, d as int, old_tiles), dist + 1),
                self.queue@.len() <= self.seeds@ + count_true(self.filled@),
                forall|t: int| 0 <= t < ROOM_AREA ==> (self.filled@[t] <==> entry_tiles(self.queue@).contains(t)),
                forall|i: int| 0 <= i < added(self.spread, self.terrain@, pos, d as int, old_tiles).len() ==>
                    xy_valid(#[trigger] added(self.spread, self.terrain@, pos, d as int, old_tiles)[i])
                    && !old_tiles.contains(tile_index(added(self.spread, self.terrain@, pos, d as int, old_tiles)[i])),
                forall|i: int, j: int| 0 <= i < j < added(self.spread, self.terrain@, pos, d as int, old_tiles).len() ==>
                    #[trigger] added(self.spread, self.terrain@, pos, d as int, old_tiles)[i]
                        != #[trigger] added(self.spread, self.terrain@, pos, d as int, old_tiles)[j],
            decreases 8 - d,
        {
            let ghost a = added(self.spread, self.terrain@, pos, d as int, old_tiles);
            match step_towards(pos, d) {
                None => {},
                Some(q) => {
                    let idx = q.y as usize * 50 + q.x as usize;
                    if spreads(self.spread, &self.terrain, d, q) && !self.filled[idx] {
                        proof {
                            assert(!old_tiles.contains(tile_index(q))) by {
                                if old_tiles.contains(tile_index(q)) {
                                    let j = choose|j: int| 0 <= j < old_q.len() && tile_index(#[trigger] old_q[j].1) == tile_index(q);
                                    assert(self.queue@[j] == old_q[j]);
                                }
                            }
                            assert(!a.contains(q)) by {
                                if a.contains(q) {
                                    let j = choose|j: int| 0 <= j < a.len() && a[j] == q;
                                    assert(self.queue@[old_q.len() + j].1 == q);
                                }
                            }
                        }
                        let ghost before = self.queue@;
                        let ghost fb = self.filled@;
                        self.filled.set(idx, true);
                        self.queue.push((dist + 1, q));
                        proof {
                            lemma_count_true_set(fb, idx as int);
                            let a2 = added(self.spread, self.terrain@, pos, d as int + 1, old_tiles);
                            assert(a2 == a.push(q));
                            assert(with_dist(a2, dist + 1) =~= with_dist(a, dist + 1).push(((dist + 1) as usize, q)));
                            assert(self.queue@ =~= old_q + with_dist(a2, dist + 1));
                            assert forall|t: int| 0 <= t < ROOM_AREA implies (self.filled@[t] <==> entry_tiles(self.queue@).contains(t)) by {
                                if entry_tiles(self.queue@).contains(t) && t != idx {
                                    let j = choose|j: int| 0 <= j < self.queue@.len() && tile_index(#[trigger] self.queue@[j].1) == t;
                                    assert(j < before.len());
                                    assert(before[j] == self.queue@[j]);
                                    assert(entry_tiles(before).contains(t));
                                }
                                if entry_tiles(before).contains(t) {
                                    let j = choose|j: int| 0 <= j < before.len() && tile_index(#[trigger] before[j].1) == t;
                                    assert(self.queue@[j] == before[j]);
                                }
                                if t == idx {
                                    assert(tile_index(self.queue@[before.len() as int].1) == t);
                                }
                            }
                        }
                    } else {
                        proof {
                            let a2 = added(self.spread, self.terrain@, pos, d as int + 1, old_tiles);
                            if spreads_to(self.spread, self.terrain@, d as int, q) {
                                assert(self.filled@[tile_index(q)]);
                                let j = choose|j: int| 0 <= j < self.queue@.len() && tile_index(#[trigger] self.queue@[j].1) == tile_index(q);
                                if j < old_q.len() {
                                    assert(self.queue@[j] == old_q[j]);
                                    assert(old_tiles.contains(tile_index(q)));
                                } else {
                                    let k = j - old_q.len();
                                    assert(self.queue@[j].1 == a[k]);
                                    lemma_tile_index_injective(a[k], q);
                                    assert(a.contains(q));
                                }
                            }
                            assert(a2 == a);
                        }
                    }
                },
            }
            proof {
                let a2 = added(self.spread, self.terrain@, pos, d as int + 1, old_tiles);
                if spec_step(pos, d as int) is None {
                    assert(a2 == a);
                }
            }
            d = d + 1;
        }
        proof {
            let a = added(self.spread, self.terrain@, pos, 8, old_tiles);
            let q = self.queue@;
            assert forall|i: int| 0 <= i < q.len() implies xy_valid(#[trigger] q[i].1) by {
                if i >= old_q.len() {
                    assert(q[i].1 == a[i - old_q.len()]);
                }
            }
            lemma_added_no_wall(self.spread, self.terrain@, pos, 8, old_tiles);
            assert forall|i: int| self.seeds@ <= i < q.len() implies self.terrain@[tile_index(#[trigger] q[i].1)] != TerrainKind::Wall by {
                if i >= old_q.len() {
                    assert(q[i].1 == a[i - old_q.len()]);
                } else {
                    assert(q[i] == old_q[i]);
                }
            }
            assert forall|i: int, j: int| 0 <= i <= j < q.len() implies #[trigger] q[i].0 <= #[trigger] q[j].0 by {
                if j >= old_q.len() && i < old_q.len() {
                    if i >= h {
                        assert(old_q[i].0 <= old_q[h].0 + 1);
                    } else {
                        assert(old_q[i].0 <= old_q[h].0);
                    }
                }
            }
            assert forall|j: int| self.head <= j < q.len() implies #[trigger] q[j].0 <= q[self.head as int].0 + 1 by {
                if j < old_q.len() {
                    assert(old_q[j].0 <= old_q[h].0 + 1);
                    assert(old_q[h].0 <= old_q[self.head as int].0);
                } else if self.head < old_q.len() {
                    assert(old_q[h].0 <= old_q[self.head as int].0);
                }
            }
            assert forall|i: int| 0 <= i < q.len() implies #[trigger] q[i].0 <= i by {
                if i >= old_q.len() {
                    assert(old_q[h].0 <= h);
                }
            }
            assert forall|i: int, j: int| 0 <= i < j < q.len() && j >= self.seeds@ implies #[trigger] q[i].1 != #[trigger] q[j].1 by {
                if j >= old_q.len() {
                    let k = j - old_q.len();
                    assert(q[j].1 == a[k]);
                    if i < old_q.len() {
                        assert(q[i] == old_q[i]);
                        if q[i].1 == a[k] {
                            assert(old_tiles.contains(tile_index(old_q[i].1)));
                        }
                    } else {
                        assert(q[i].1 == a[i - old_q.len()]);
                    }
                } else {
                    assert(q[i] == old_q[i] && q[j] == old_q[j]);
                }
            }
        }
        Some((dist, pos))
    }
}

/// Law: a fill hands out its tiles in breadth-first order: distances never fall
/// along the entries, a tile queued after the seeds is queued nowhere else and is
/// no wall, and no more entries are ever queued than the seeds and one per tile of
/// the room.
pub proof fn law_breadth_first(f: &FloodFill)
    requires
        f.wf(),
    ensures
        forall|i: int, j: int| 0 <= i <= j < f.entries().len() ==> #[trigger] f.entries()[i].0 <= #[trigger] f.entries()[j].0,
        forall|i: int, j: int| 0 <= i < j < f.entries().len() && j >= f.seed_count()
            ==> #[trigger] f.entries()[i].1 != #[trigger] f.entries()[j].1,
        f.handed_out() <= f.entries().len() <= f.seed_count() + ROOM_AREA,
        f.seed_count() <= f.entries().len(),
        forall|i: int| 0 <= i < f.entries().len() ==> xy_valid(#[trigger] f.entries()[i].1),
        forall|i: int| 0 <= i < f.entries().len() ==> #[trigger] f.entries()[i].0 <= i,
        forall|i: int| f.seed_count() <= i < f.entries().len()
            ==> f.spec_terrain()[tile_index(#[trigger] f.entries()[i].1)] != TerrainKind::Wall,
        f.spec_terrain().len() == ROOM_AREA,
{
    lemma_count_true_le(f.filled@);
}

/// The entries of a fill that started from `e0`, after `k` of them were handed
/// out: each handed-out entry queues, at one more than its distance, the tiles it
/// adds.
pub open spec fn fill_after(e0: Seq<(usize, RoomXY)>, spread: Spread, terrain: Seq<TerrainKind>, k: nat)
    -> Seq<(usize, RoomXY)>
    decreases k,
{
    if k == 0 {
        e0
    } else {
        let e = fill_after(e0, spread, terrain, (k - 1) as nat);
        if k - 1 < e.len() {
            e + with_dist(added(spread, terrain, e[k - 1].1, 8, entry_tiles(e)), e[k - 1].0 + 1)
        } else {
            e
        }
    }
}

/// All the entries of a fill from the seeds, once it has handed out everything.
pub open spec fn fill_all(seed: Seq<RoomXY>, spread: Spread, terrain: Seq<TerrainKind>) -> Seq<(usize, RoomXY)> {
    fill_after(with_dist(seed, 0), spread, terrain, (seed.len() + ROOM_AREA) as nat)
}

/// A fill that has handed out all its entries stays as it is.
proof fn lemma_fill_settled(e0: Seq<(usize, RoomXY)>, spread: Spread, terrain: Seq<TerrainKind>, k: nat, n: nat)
    requires
        k <= n,
        fill_after(e0, spread, terrain, k).len() <= k,
    ensures
        fill_after(e0, spread, terrain, n) == fill_after(e0, spread, terrain, k),
    decreases n - k,
{
    if k < n {
        assert(fill_after(e0, spread, terrain, k + 1) == fill_after(e0, spread, terrain, k));
        lemma_fill_settled(e0, spread, terrain, k + 1, n);
    }
}

/// Runs a fill from the seeds to its end and gives all its entries, in the order
/// handed out.
pub fn run_fill(seed: Vec<RoomXY>, terrain: Vec<TerrainKind>, spread: Spread) -> (r: Vec<(usize, RoomXY)>)
    requires
        terrain@.len() == ROOM_AREA,
        forall|i: int| 0 <= i < seed@.len() ==> xy_valid(#[trigger] seed@[i]),
    ensures
        r@ == fill_all(seed@, spread, terrain@),
        forall|i: int, j: int| 0 <= i <= j < r@.len() ==> #[trigger] r@[i].0 <= #[trigger] r@[j].0,
        forall|i: int, j: int| 0 <= i < j < r@.len() && j >= seed@.len() ==> #[trigger] r@[i].1 != #[trigger] r@[j].1,
        forall|i: int| 0 <= i < r@.len() ==> xy_valid(#[trigger] r@[i].1),
        forall|i: int| 0 <= i < r@.len() ==> #[trigger] r@[i].0 <= i,
        r@.len() <= seed@.len() + ROOM_AREA,
{
    let ghost sd = seed@;
    let ghost tr = terrain@;
    let mut f = FloodFill::new(seed, terrain, spread);
    let ghost e0 = f.entries();
    let mut r: Vec<(usize, RoomXY)> = Vec::new();
    proof {
        law_breadth_first(&f);
    }
    loop
        invariant
            f.wf(),
            f.spec_terrain() == tr,
            f.spec_spread() == spread,
            f.seed_count() == sd.len(),
            sd == seed@,
            tr == terrain@,
            e0 == with_dist(sd, 0),
            f.entries() == fill_after(e0, spread, tr, f.handed_out()),
            r@ == f.entries().take(f.handed_out() as int),
            f.handed_out() <= f.entries().len() <= sd.len() + ROOM_AREA,
        decreases sd.len() + ROOM_AREA - f.handed_out(),
    {
        let ghost before = f;
        match f.next() {
            None => {
                proof {
                    lemma_fill_settled(e0, spread, tr, f.handed_out(), (sd.len() + ROOM_AREA) as nat);
                    assert(r@ =~= f.entries());
                    law_breadth_first(&f);
                }
                return r;
            }
            Some(e) => {
                r.push(e);
                proof {
                    law_breadth_first(&f);
                    assert(r@ =~= f.entries().take(f.handed_out() as int));
                }
            }
        }
    }
}

} // verus!
