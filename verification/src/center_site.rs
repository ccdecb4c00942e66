//! Where a colony's center goes when no flag marks it: the open tiles farthest
//! from walls and from the tiles near the room's exits, kept apart from each
//! other, are the candidates, and the one with the shortest paths to the room's
//! points of interest wins.
use vstd::prelude::*;
use crate::center::{range_xy, xy_range};
use crate::floodfill::{fill_all, run_fill, Spread};
use crate::planner::{RoomXY, TerrainKind, ROOM_AREA, tile_index, xy_valid};
use vstd::utf8::encode_utf8;

verus! {

/// How far from the exits a tile still counts as near them.
pub const MIN_ENTRANCE_DIST: usize = 8;

/// How close two candidates at the same distance may be before the later one is
/// dropped.
pub const MIN_CANDIDATE_DIST: u8 = 4;

/// How many candidates are weighed.
pub const CANDIDATE_COUNT: usize = 5;

/// The tiles of the entries up to the first farther than `limit`.
pub open spec fn close_prefix(es: Seq<(usize, RoomXY)>, limit: nat) -> Seq<RoomXY>
    decreases es.len(),
{
    if es.len() == 0 || es[0].0 > limit {
        Seq::empty()
    } else {
        seq![es[0].1] + close_prefix(es.drop_first(), limit)
    }
}

/// The tile at position `n` when tiles are listed column by column.
pub open spec fn column_tile(n: int) -> RoomXY {
    RoomXY { x: (n / 50) as u8, y: (n % 50) as u8 }
}

/// The walls among the first `n` tiles listed column by column.
pub open spec fn walls_upto(terrain: Seq<TerrainKind>, n: nat) -> Seq<RoomXY>
    decreases n,
{
    if n == 0 {
        Seq::empty()
    } else {
        let before = walls_upto(terrain, (n - 1) as nat);
        let q = column_tile(n - 1);
        if terrain[tile_index(q)] == TerrainKind::Wall { before.push(q) } else { before }
    }
}

/// The distance of the first entry on tile `t`, if any.
pub open spec fn first_dist(es: Seq<(usize, RoomXY)>, t: int) -> Option<usize>
    decreases es.len(),
{
    if es.len() == 0 {
        None
    } else {
        match first_dist(es.drop_last(), t) {
            Some(d) => Some(d),
            None => if tile_index(es.last().1) == t { Some(es.last().0) } else { None },
        }
    }
}

/// The largest distance among the first `n` tiles.
pub open spec fn max_dist(dist: Seq<Option<usize>>, n: nat) -> nat
    decreases n,
{
    if n == 0 {
        0
    } else {
        let m = max_dist(dist, (n - 1) as nat);
        match dist[n - 1] {
            Some(d) => if d > m { d as nat } else { m },
            None => m,
        }
    }
}

/// The tile with tile index `t`.
pub open spec fn row_tile(t: int) -> RoomXY {
    RoomXY { x: (t % 50) as u8, y: (t / 50) as u8 }
}

/// The tiles with a distance, farthest first and in tile order among equals (by
/// row, then column), through the first `k` of the `(maxd + 1) * 2500` slots.
pub open spec fn ranked_upto(dist: Seq<Option<usize>>, maxd: nat, k: nat) -> Seq<(usize, RoomXY)>
    decreases k,
{
    if k == 0 {
        Seq::empty()
    } else {
        let before = ranked_upto(dist, maxd, (k - 1) as nat);
        let d = maxd - (k - 1) / 2500;
        let t = (k - 1) % 2500;
        if dist[t] == Some(d as usize) { before.push((d as usize, row_tile(t))) } else { before }
    }
}

/// The ranked tiles with each one dropped that has the distance of the last one
/// kept and lies within `MIN_CANDIDATE_DIST` of it.
pub open spec fn spread_out(s: Seq<(usize, RoomXY)>) -> Seq<(usize, RoomXY)>
    decreases s.len(),
{
    if s.len() == 0 {
        Seq::empty()
    } else {
        let kept = spread_out(s.drop_last());
        if kept.len() > 0 && kept.last().0 == s.last().0 && xy_range(kept.last().1, s.last().1) <= MIN_CANDIDATE_DIST {
            kept
        } else {
            kept.push(s.last())
        }
    }
}

/// The candidates for the center of a room with this terrain and these exit
/// tiles: the tiles near the exits are those a walking fill from the exits
/// reaches within `MIN_ENTRANCE_DIST`; an orthogonal fill from the walls (column
/// by column) and those tiles gives each tile its distance; the tiles ranked by
/// it, spread out, give the first `CANDIDATE_COUNT`.
pub open spec fn candidates_of(terrain: Seq<TerrainKind>, exits: Seq<RoomXY>) -> Seq<RoomXY> {
    let entrance = close_prefix(fill_all(exits, Spread::Walkable, terrain), MIN_ENTRANCE_DIST as nat);
    let es = fill_all(walls_upto(terrain, 2500) + entrance, Spread::Orthogonal, terrain);
    let dist = Seq::new(2500, |t: int| first_dist(es, t));
    let maxd = max_dist(dist, 2500);
    let s = spread_out(ranked_upto(dist, maxd, (maxd + 1) * 2500));
    let n = if s.len() < CANDIDATE_COUNT { s.len() } else { CANDIDATE_COUNT as nat };
    Seq::new(n, |i: int| s[i].1)
}

/// A copy of the terrain.
fn copy_terrain(t: &Vec<TerrainKind>) -> (r: Vec<TerrainKind>)
    ensures
        r@ == t@,
{
    let mut r: Vec<TerrainKind> = Vec::new();
    let mut i: usize = 0;
    while i < t.len()
        invariant
            i <= t@.len(),
            r@ == t@.take(i as int),
        decreases t@.len() - i,
    {
        r.push(t[i]);
        proof {
            assert(r@ =~= t@.take(i as int + 1));
        }
        i = i + 1;
    }
    proof {
        assert(t@.take(i as int) =~= t@);
    }
    r
}

/// The tiles near the exits: those a walking fill from the exits reaches within
/// `MIN_ENTRANCE_DIST`, in the order reached.
fn entrance_blocks(exits: Vec<RoomXY>, terrain: &Vec<TerrainKind>) -> (r: Vec<RoomXY>)
    requires
        terrain@.len() == ROOM_AREA,
        forall|i: int| 0 <= i < exits@.len() ==> xy_valid(#[trigger] exits@[i]),
    ensures
        r@ == close_prefix(fill_all(exits@, Spread::Walkable, terrain@), MIN_ENTRANCE_DIST as nat),
        forall|i: int| 0 <= i < r@.len() ==> xy_valid(#[trigger] r@[i]),
{
    let es = run_fill(exits, copy_terrain(terrain), Spread::Walkable);
    let ghost all = es@;
    let mut r: Vec<RoomXY> = Vec::new();
    let mut i: usize = 0;
    proof {
        assert(all.skip(0) =~= all);
    }
    while i < es.len() && es[i].0 <= MIN_ENTRANCE_DIST
        invariant
            all == es@,
            i <= all.len(),
            forall|j: int| 0 <= j < all.len() ==> xy_valid(#[trigger] all[j].1),
            forall|j: int| 0 <= j < r@.len() ==> xy_valid(#[trigger] r@[j]),
            close_prefix(all, MIN_ENTRANCE_DIST as nat) == r@ + close_prefix(all.skip(i as int), MIN_ENTRANCE_DIST as nat),
        decreases all.len() - i,
    {
        proof {
            let rest = all.skip(i as int);
            assert(rest.drop_first() =~= all.skip(i as int + 1));
            assert(rest[0] == all[i as int]);
            assert(r@.push(all[i as int].1) + close_prefix(all.skip(i as int + 1), MIN_ENTRANCE_DIST as nat)
                =~= r@ + (seq![all[i as int].1] + close_prefix(all.skip(i as int + 1), MIN_ENTRANCE_DIST as nat)));
        }
        r.push(es[i].1);
        i = i + 1;
    }
    proof {
        assert(close_prefix(all.skip(i as int), MIN_ENTRANCE_DIST as nat) =~= Seq::<RoomXY>::empty());
        assert(r@ + Seq::<RoomXY>::empty() =~= r@);
    }
    r
}

/// The walls of the room, column by column.
fn wall_tiles(terrain: &Vec<TerrainKind>) -> (r: Vec<RoomXY>)
    requires
        terrain@.len() == ROOM_AREA,
    ensures
        r@ == walls_upto(terrain@, 2500),
        forall|i: int| 0 <= i < r@.len() ==> xy_valid(#[trigger] r@[i]),
{
    let mut r: Vec<RoomXY> = Vec::new();
    let mut n: u16 = 0;
    while n < 2500
        invariant
            terrain@.len() == ROOM_AREA,
            n <= 2500,
            r@ == walls_upto(terrain@, n as nat),
            forall|i: int| 0 <= i < r@.len() ==> xy_valid(#[trigger] r@[i]),
        decreases 2500 - n,
    {
        let q = RoomXY { x: (n / 50) as u8, y: (n % 50) as u8 };
        proof {
            assert(q == column_tile(n as int));
        }
        if terrain[q.y as usize * 50 + q.x as usize] == TerrainKind::Wall {
            r.push(q);
        }
        n = n + 1;
    }
    r
}

/// The distance of the first entry on each tile, by tile index.
fn tile_dists(es: &Vec<(usize, RoomXY)>) -> (d: Vec<Option<usize>>)
    requires
        forall|i: int| 0 <= i < es@.len() ==> xy_valid(#[trigger] es@[i].1),
    ensures
        d@.len() == ROOM_AREA,
        forall|t: int| 0 <= t < ROOM_AREA ==> #[trigger] d@[t] == first_dist(es@, t),
{
    let mut d: Vec<Option<usize>> = Vec::new();
    let mut t: usize = 0;
    while t < ROOM_AREA
        invariant
            t <= ROOM_AREA,
            d@.len() == t,
            forall|u: int| 0 <= u < t ==> #[trigger] d@[u] is None,
        decreases ROOM_AREA - t,
    {
        d.push(None);
        t = t + 1;
    }
    let mut i: usize = 0;
    while i < es.len()
        invariant
            i <= es@.len(),
            forall|j: int| 0 <= j < es@.len() ==> xy_valid(#[trigger] es@[j].1),
            d@.len() == ROOM_AREA,
            forall|u: int| 0 <= u < ROOM_AREA ==> #[trigger] d@[u] == first_dist(es@.take(i as int), u),
        decreases es@.len() - i,
    {
        let (dist, q) = es[i];
        let u: usize = q.y as usize * 50 + q.x as usize;
        proof {
            let t1 = es@.take(i as int + 1);
            assert(t1.drop_last() =~= es@.take(i as int));
            assert(t1.last() == es@[i as int]);
            assert(xy_valid(es@[i as int].1));
        }
        if d[u].is_none() {
            d.set(u, Some(dist));
        }
        i = i + 1;
    }
    proof {
        assert(es@.take(i as int) =~= es@);
    }
    d
}

/// The largest distance of any tile.
fn largest_dist(dist: &Vec<Option<usize>>) -> (m: usize)
    requires
        dist@.len() == ROOM_AREA,
    ensures
        m == max_dist(dist@, 2500),
{
    let mut m: usize = 0;
    let mut t: usize = 0;
    while t < ROOM_AREA
        invariant
            dist@.len() == ROOM_AREA,
            t <= ROOM_AREA,
            m == max_dist(dist@, t as nat),
        decreases ROOM_AREA - t,
    {
        if let Some(d) = dist[t] {
            if d > m {
                m = d;
            }
        }
        t = t + 1;
    }
    m
}

/// The tiles with a distance, farthest first and in tile order among equals,
/// spread out (see `spread_out`).
fn ranked_spread(dist: &Vec<Option<usize>>, maxd: usize) -> (r: Vec<(usize, RoomXY)>)
    requires
        dist@.len() == ROOM_AREA,
    ensures
        r@ == spread_out(ranked_upto(dist@, maxd as nat, ((maxd + 1) * 2500) as nat)),
{
    let total: u128 = (maxd as u128 + 1) * 2500;
    let mut kept: Vec<(usize, RoomXY)> = Vec::new();
    let mut k: u128 = 0;
    while k < total
        invariant
            dist@.len() == ROOM_AREA,
            total == (maxd + 1) * 2500,
            k <= total,
            kept@ == spread_out(ranked_upto(dist@, maxd as nat, k as nat)),
        decreases total - k,
    {
        let d: usize = (maxd as u128 - k / 2500) as usize;
        let t: usize = (k % 2500) as usize;
        proof {
            assert(k / 2500 <= maxd) by (nonlinear_arith)
                requires k < (maxd + 1) * 2500;
        }
        if dist[t] == Some(d) {
            let q = RoomXY { x: (t % 50) as u8, y: (t / 50) as u8 };
            proof {
                assert(q == row_tile(t as int));
                let ranked = ranked_upto(dist@, maxd as nat, k as nat);
                assert(ranked_upto(dist@, maxd as nat, (k + 1) as nat) == ranked.push((d, q)));
                assert(ranked.push((d, q)).drop_last() =~= ranked);
            }
            let n = kept.len();
            let close = n > 0 && kept[n - 1].0 == d && range_xy(kept[n - 1].1, q) <= MIN_CANDIDATE_DIST;
            if !close {
                kept.push((d, q));
            }
        }
        k = k + 1;
    }
    kept
}

/// The candidates for the center of a room (see `candidates_of`).
pub fn center_candidates(terrain: &Vec<TerrainKind>, exits: Vec<RoomXY>) -> (r: Vec<RoomXY>)
    requires
        terrain@.len() == ROOM_AREA,
        forall|i: int| 0 <= i < exits@.len() ==> xy_valid(#[trigger] exits@[i]),
    ensures
        r@ == candidates_of(terrain@, exits@),
{
    let ghost ex = exits@;
    let entrance = entrance_blocks(exits, terrain);
    let mut seeds = wall_tiles(terrain);
    let ghost walls = seeds@;
    let mut i: usize = 0;
    while i < entrance.len()
        invariant
            i <= entrance@.len(),
            seeds@ == walls + entrance@.take(i as int),
            forall|j: int| 0 <= j < walls.len() ==> xy_valid(#[trigger] walls[j]),
            forall|j: int| 0 <= j < entrance@.len() ==> xy_valid(#[trigger] entrance@[j]),
        decreases entrance@.len() - i,
    {
        seeds.push(entrance[i]);
        proof {
            assert(seeds@ =~= walls + entrance@.take(i as int + 1));
        }
        i = i + 1;
    }
    proof {
        assert(entrance@.take(i as int) =~= entrance@);
        assert forall|j: int| 0 <= j < seeds@.len() implies xy_valid(#[trigger] seeds@[j]) by {
            if j >= walls.len() {
                assert(seeds@[j] == entrance@[j - walls.len()]);
            }
        }
    }
    let ghost sd = seeds@;
    let es = run_fill(seeds, copy_terrain(terrain), Spread::Orthogonal);
    let dist = tile_dists(&es);
    proof {
        assert(dist@ =~= Seq::new(2500, |t: int| first_dist(es@, t)));
    }
    let maxd = largest_dist(&dist);
    let ranked = ranked_spread(&dist, maxd);
    let mut r: Vec<RoomXY> = Vec::new();
    let mut j: usize = 0;
    while j < ranked.len() && j < CANDIDATE_COUNT
        invariant
            j <= ranked@.len(),
            j <= CANDIDATE_COUNT,
            r@ == Seq::new(j as nat, |a: int| ranked@[a].1),
        decreases ranked@.len() - j,
    {
        r.push(ranked[j].1);
        proof {
            assert(r@ =~= Seq::new(j as nat + 1, |a: int| ranked@[a].1));
        }
        j = j + 1;
    }
    proof {
        let n = if ranked@.len() < CANDIDATE_COUNT { ranked@.len() } else { CANDIDATE_COUNT as nat };
        assert(j == n);
        assert(r@ =~= Seq::new(n, |a: int| ranked@[a].1));
    }
    r
}

/// The lower-case form of a string, as `str::to_lowercase` gives it.
pub uninterp spec fn spec_lowercase(s: Seq<char>) -> Seq<char>;

/// The lower-case form of a string, by `str::to_lowercase`, which maps each
/// character by the Unicode tables of the standard library.
#[verifier::external_body]
fn lowercase(s: &String) -> (r: String)
    ensures
        r@ == spec_lowercase(s@),
{
    s.to_lowercase()
}

/// The bytes of `center`.
pub open spec fn center_word() -> Seq<u8> {
    seq![99u8, 101u8, 110u8, 116u8, 101u8, 114u8]
}

/// The bytes hold the word at position `i`.
pub open spec fn word_at(b: Seq<u8>, w: Seq<u8>, i: int) -> bool {
    0 <= i && i + w.len() <= b.len() && b.subrange(i, i + w.len()) == w
}

/// A flag's name marks the room's center: in lower case, it holds `center`.
pub open spec fn names_center(name: Seq<char>) -> bool {
    exists|i: int| #[trigger] word_at(encode_utf8(spec_lowercase(name)), center_word(), i)
}

/// Whether a flag's name marks the room's center.
pub fn is_center_flag(name: &String) -> (b: bool)
    ensures
        b == names_center(name@),
{
    let low = lowercase(name);
    let bytes = low.as_str().as_bytes();
    let ghost bs = bytes@;
    let ghost w = center_word();
    if bytes.len() < 6 {
        proof {
            assert forall|i: int| !#[trigger] word_at(bs, w, i) by {}
        }
        return false;
    }
    let mut i: usize = 0;
    while i <= bytes.len() - 6
        invariant
            bytes@.len() >= 6,
            bs == bytes@,
            bs == encode_utf8(spec_lowercase(name@)),
            w == center_word(),
            forall|j: int| 0 <= j < i ==> !#[trigger] word_at(bs, w, j),
        decreases bytes@.len() - i,
    {
        if bytes[i] == 99 && bytes[i + 1] == 101 && bytes[i + 2] == 110 && bytes[i + 3] == 116
            && bytes[i + 4] == 101 && bytes[i + 5] == 114 {
            proof {
                assert(bs.subrange(i as int, i as int + 6) =~= w);
                assert(word_at(bs, w, i as int));
            }
            return true;
        }
        proof {
            if word_at(bs, w, i as int) {
                assert(bs.subrange(i as int, i as int + 6)[0] == w[0]);
                assert(bs.subrange(i as int, i as int + 6)[1] == w[1]);
                assert(bs.subrange(i as int, i as int + 6)[2] == w[2]);
                assert(bs.subrange(i as int, i as int + 6)[3] == w[3]);
                assert(bs.subrange(i as int, i as int + 6)[4] == w[4]);
                assert(bs.subrange(i as int, i as int + 6)[5] == w[5]);
            }
        }
        i = i + 1;
    }
    proof {
        assert forall|j: int| !#[trigger] word_at(bs, w, j) by {
            if j >= i {
                assert(j + 6 > bs.len());
            }
        }
    }
    false
}

/// The candidate with the least cost, the first among equals; none without
/// candidates.
pub fn pick_center(candidates: &Vec<RoomXY>, costs: &Vec<u64>) -> (r: Option<RoomXY>)
    requires
        costs@.len() == candidates@.len(),
    ensures
        r is None <==> candidates@.len() == 0,
        r matches Some(c) ==> exists|i: int| 0 <= i < candidates@.len() && c == candidates@[i]
            && (forall|j: int| 0 <= j < costs@.len() ==> costs@[i] <= #[trigger] costs@[j])
            && (forall|j: int| 0 <= j < i ==> costs@[i] < #[trigger] costs@[j]),
{
    if candidates.len() == 0 {
        return None;
    }
    let mut best: usize = 0;
    let mut j: usize = 1;
    while j < candidates.len()
        invariant
            costs@.len() == candidates@.len(),
            best < j <= candidates@.len(),
            forall|a: int| 0 <= a < j ==> costs@[best as int] <= #[trigger] costs@[a],
            forall|a: int| 0 <= a < best ==> costs@[best as int] < #[trigger] costs@[a],
        decreases candidates@.len() - j,
    {
        if costs[j] < costs[best] {
            best = j;
        }
        j = j + 1;
    }
    Some(candidates[best])
}

} // verus!
