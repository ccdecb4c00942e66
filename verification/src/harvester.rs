//! The early-game harvester: each creep is given a tile beside a source to harvest
//! from, a tile taking as many creeps as its capacity; it harvests there until
//! full, then brings the energy where the room needs it most, repairing worn roads
//! on the way. A round may run several states in turn (an idle creep that finds
//! work starts on it at once); each state's decision is made here, and carrying
//! it out is the caller's part.
use vstd::prelude::*;
use crate::keyed::KeyedMap;
use crate::planner::TerrainKind;
use crate::position::{packed_valid, positions_near, range_between, spec_near, spec_range};
use crate::worker::{DistributionTarget, TargetRules, TargetSight, distribution_target, is_pick, pick_best, spec_distribution_target,
    spec_pick, spec_target_range};

verus! {

/// A tile beside a source: where it is, how many creeps may harvest from it, and
/// the creeps assigned to it.
pub struct HarvestSpot {
    pub pos: u32,
    pub capacity: u32,
    pub assigned: Vec<u64>,
}

/// A source and the tiles beside it.
pub struct SourceSpots {
    pub source: u64,
    pub spots: Vec<HarvestSpot>,
}

/// What a spot holds: its position, capacity and assigned creeps.
pub open spec fn spot_view(s: HarvestSpot) -> (u32, u32, Seq<u64>) {
    (s.pos, s.capacity, s.assigned@)
}

/// The sources, each with its spots.
pub open spec fn sources_view(v: Seq<SourceSpots>) -> Seq<(u64, Seq<(u32, u32, Seq<u64>)>)> {
    v.map_values(|s: SourceSpots| (s.source, s.spots@.map_values(|p: HarvestSpot| spot_view(p))))
}

/// Which creep harvests where: each source's tiles, and each creep's tile and source.
pub struct SourceDistribution {
    pub sources: Vec<SourceSpots>,
    pub assignments: KeyedMap<(u32, u64)>,
}

/// A spot is consistent: a position in a room, no creep twice, and no more creeps
/// than its capacity.
pub open spec fn spot_wf(s: (u32, u32, Seq<u64>)) -> bool {
    &&& packed_valid(s.0)
    &&& s.2.no_duplicates()
    &&& s.2.len() <= s.1
}

/// The tiles left free on a spot.
pub open spec fn spot_free(s: (u32, u32, Seq<u64>)) -> int {
    s.1 - s.2.len()
}

/// The order of positions: by world y, then world x.
pub open spec fn pos_order(p: u32) -> int {
    ((p / 65536) % 256 * 50 + p % 256) * 12800 + (p / 16777216) % 256 * 50 + (p / 256) % 256
}

/// The spots as candidates: a spot with room, the fewest free places first, then
/// the first position in the order of positions.
pub open spec fn spot_keys(spots: Seq<(u32, u32, Seq<u64>)>) -> Seq<(bool, int, int)> {
    spots.map_values(|s: (u32, u32, Seq<u64>)| (spot_free(s) > 0, -spot_free(s), pos_order(s.0)))
}

/// The first source, from the `k`-th on, that has a spot with room, and the spot
/// picked there.
pub open spec fn first_assignable(srcs: Seq<(u64, Seq<(u32, u32, Seq<u64>)>)>, k: nat) -> Option<(int, int)>
    decreases srcs.len() - k,
{
    if k >= srcs.len() {
        None
    } else {
        match spec_pick(spot_keys(srcs[k as int].1)) {
            Some(i) => Some((k as int, i)),
            None => first_assignable(srcs, k + 1),
        }
    }
}

/// The creeps of a spot without `c`.
pub open spec fn without(a: Seq<u64>, c: u64) -> Seq<u64>
    decreases a.len(),
{
    if a.len() == 0 {
        a
    } else {
        let r = without(a.drop_last(), c);
        if a.last() == c { r } else { r.push(a.last()) }
    }
}

/// Leaving a creep out keeps the others, with no creep twice.
proof fn lemma_without(a: Seq<u64>, c: u64)
    requires
        a.no_duplicates(),
    ensures
        without(a, c).no_duplicates(),
        without(a, c).len() <= a.len(),
        forall|x: u64| without(a, c).contains(x) <==> (a.contains(x) && x != c),
    decreases a.len(),
{
    if a.len() > 0 {
        let p = a.drop_last();
        assert(p.no_duplicates()) by {
            assert forall|i: int, j: int| 0 <= i < p.len() && 0 <= j < p.len() && i != j implies p[i] != p[j] by {
                assert(p[i] == a[i] && p[j] == a[j]);
            }
        }
        lemma_without(p, c);
        assert forall|x: u64| p.contains(x) || x == a.last() <==> a.contains(x) by {
            if a.contains(x) {
                let i = choose|i: int| 0 <= i < a.len() && a[i] == x;
                if i < a.len() - 1 {
                    assert(p[i] == x);
                }
            }
            if p.contains(x) {
                let i = choose|i: int| 0 <= i < p.len() && p[i] == x;
                assert(a[i] == x);
            }
        }
        assert(!p.contains(a.last())) by {
            if p.contains(a.last()) {
                let i = choose|i: int| 0 <= i < p.len() && p[i] == a.last();
                assert(a[i] == a[a.len() - 1]);
            }
        }
        let r = without(p, c);
        if a.last() != c {
            let w = without(a, c);
            assert(w == r.push(a.last()));
            assert forall|x: u64| w.contains(x) <==> (a.contains(x) && x != c) by {
                if w.contains(x) {
                    let i = choose|i: int| 0 <= i < w.len() && w[i] == x;
                    if i < r.len() {
                        assert(r[i] == x);
                    }
                }
                if r.contains(x) {
                    let i = choose|i: int| 0 <= i < r.len() && r[i] == x;
                    assert(w[i] == x);
                }
                if x == a.last() {
                    assert(w[r.len() as int] == x);
                }
            }
            assert(w.no_duplicates()) by {
                assert forall|i: int, j: int| 0 <= i < w.len() && 0 <= j < w.len() && i != j implies w[i] != w[j] by {
                    if i < r.len() && j < r.len() {
                        assert(w[i] == r[i] && w[j] == r[j]);
                    } else if i < r.len() {
                        assert(r.contains(w[i]));
                    } else if j < r.len() {
                        assert(r.contains(w[j]));
                    }
                }
            }
        }
    }
}

impl SourceDistribution {
    /// The sources, each with its spots.
    pub open spec fn spec_sources(&self) -> Seq<(u64, Seq<(u32, u32, Seq<u64>)>)> {
        sources_view(self.sources@)
    }

    /// Each creep's tile and source.
    pub open spec fn spec_assignments(&self) -> Map<u64, (u32, u64)> {
        self.assignments@
    }

    /// Every spot is consistent, and the map of assignments is well formed.
    pub open spec fn wf(&self) -> bool {
        &&& self.assignments.wf()
        &&& forall|k: int, i: int| 0 <= k < self.spec_sources().len() && 0 <= i < self.spec_sources()[k].1.len()
            ==> spot_wf(#[trigger] self.spec_sources()[k].1[i])
    }

    /// The distribution of `sources` (each an id and a position in a room, away from
    /// the room's edge): beside each, every tile of the nine around and on it that
    /// is no wall in `terrain` (by tile index), each for one creep; no creep is
    /// assigned yet.
    pub fn new(sources: &Vec<(u64, u32)>, terrain: &Vec<TerrainKind>) -> (d: Self)
        requires
            terrain@.len() == 2500,
            forall|i: int| 0 <= i < sources@.len() ==> packed_valid(#[trigger] sources@[i].1)
                && 1 <= (sources@[i].1 / 256) % 256 <= 48 && 1 <= sources@[i].1 % 256 <= 48,
        ensures
            d.wf(),
            d.spec_assignments() == Map::<u64, (u32, u64)>::empty(),
            d.spec_sources().len() == sources@.len(),
            forall|k: int| 0 <= k < sources@.len() ==> (#[trigger] d.spec_sources()[k]).0 == sources@[k].0
                && d.spec_sources()[k].1 == spots_of(sources@[k].1, terrain@),
    {
        let mut out: Vec<SourceSpots> = Vec::new();
        let mut k: usize = 0;
        while k < sources.len()
            invariant
                k <= sources@.len(),
                terrain@.len() == 2500,
                forall|i: int| 0 <= i < sources@.len() ==> packed_valid(#[trigger] sources@[i].1)
                    && 1 <= (sources@[i].1 / 256) % 256 <= 48 && 1 <= sources@[i].1 % 256 <= 48,
                out@.len() == k,
                forall|j: int| 0 <= j < k ==> (#[trigger] sources_view(out@)[j]).0 == sources@[j].0
                    && sources_view(out@)[j].1 == spots_of(sources@[j].1, terrain@),
            decreases sources@.len() - k,
        {
            let (id, p) = sources[k];
            let spots = spots_beside(p, terrain);
            let ghost before = out@;
            out.push(SourceSpots { source: id, spots });
            proof {
                assert forall|j: int| 0 <= j < k + 1 implies (#[trigger] sources_view(out@)[j]).0 == sources@[j].0
                    && sources_view(out@)[j].1 == spots_of(sources@[j].1, terrain@) by {
                    assert(sources_view(out@)[j] == (out@[j].source, out@[j].spots@.map_values(|p: HarvestSpot| spot_view(p))));
                    if j < k {
                        assert(out@[j] == before[j]);
                        assert(sources_view(before)[j] == (before[j].source, before[j].spots@.map_values(|p: HarvestSpot| spot_view(p))));
                    }
                }
            }
            k = k + 1;
        }
        let d = SourceDistribution { sources: out, assignments: KeyedMap::new() };
        proof {
            assert forall|a: int, i: int| 0 <= a < d.spec_sources().len() && 0 <= i < d.spec_sources()[a].1.len()
                implies spot_wf(#[trigger] d.spec_sources()[a].1[i]) by {
                lemma_spots_of_wf(sources@[a].1, terrain@);
            }
        }
        d
    }
}

/// The in-room offset of a position moved by `(dx, dy)`, within the room.
pub open spec fn moved(p: u32, dx: int, dy: int) -> u32 {
    (p + dx * 256 + dy) as u32
}

/// The spots beside the source at `p`: the tiles of the nine around and on it, row
/// by row from the top left (in the order the offsets run: x from -1, then y from
/// -1), that are no wall.
pub open spec fn spots_of(p: u32, terrain: Seq<TerrainKind>) -> Seq<(u32, u32, Seq<u64>)> {
    spots_upto(p, terrain, 9)
}

/// The first `n` of the nine offsets, as spots.
pub open spec fn spots_upto(p: u32, terrain: Seq<TerrainKind>, n: nat) -> Seq<(u32, u32, Seq<u64>)>
    decreases n,
{
    if n == 0 {
        Seq::empty()
    } else {
        let before = spots_upto(p, terrain, (n - 1) as nat);
        let dx = (n - 1) / 3 - 1;
        let dy = (n - 1) % 3 - 1;
        let q = moved(p, dx, dy);
        if terrain[(q % 256) * 50 + (q / 256) % 256] != TerrainKind::Wall {
            before.push((q, 1u32, Seq::<u64>::empty()))
        } else {
            before
        }
    }
}

/// The spots beside a source are consistent.
proof fn lemma_spots_of_wf(p: u32, terrain: Seq<TerrainKind>)
    requires
        packed_valid(p),
        1 <= (p / 256) % 256 <= 48,
        1 <= p % 256 <= 48,
    ensures
        forall|i: int| 0 <= i < spots_of(p, terrain).len() ==> spot_wf(#[trigger] spots_of(p, terrain)[i]),
{
    lemma_spots_upto_wf(p, terrain, 9);
}

/// A tile beside an in-room tile away from the edge is in the room.
proof fn lemma_moved_valid(p: u32, dx: int, dy: int)
    requires
        packed_valid(p),
        1 <= (p / 256) % 256 <= 48,
        1 <= p % 256 <= 48,
        -1 <= dx <= 1,
        -1 <= dy <= 1,
    ensures
        moved(p, dx, dy) == p + dx * 256 + dy,
        (moved(p, dx, dy) / 256) % 256 == (p / 256) % 256 + dx,
        moved(p, dx, dy) % 256 == p % 256 + dy,
        packed_valid(moved(p, dx, dy)),
{
    let q: int = p + dx * 256 + dy;
    assert(0 <= q <= u32::MAX) by (nonlinear_arith)
        requires
            q == p + dx * 256 + dy,
            1 <= (p / 256) % 256 <= 48,
            1 <= p % 256 <= 48,
            -1 <= dx <= 1,
            -1 <= dy <= 1,
            0 <= p <= u32::MAX;
    assert((q / 256) % 256 == (p / 256) % 256 + dx && q % 256 == p % 256 + dy) by (nonlinear_arith)
        requires
            q == p + dx * 256 + dy,
            1 <= (p / 256) % 256 <= 48,
            1 <= p % 256 <= 48,
            -1 <= dx <= 1,
            -1 <= dy <= 1;
}

proof fn lemma_spots_upto_wf(p: u32, terrain: Seq<TerrainKind>, n: nat)
    requires
        packed_valid(p),
        1 <= (p / 256) % 256 <= 48,
        1 <= p % 256 <= 48,
        n <= 9,
    ensures
        forall|i: int| 0 <= i < spots_upto(p, terrain, n).len() ==> spot_wf(#[trigger] spots_upto(p, terrain, n)[i]),
    decreases n,
{
    if n > 0 {
        lemma_spots_upto_wf(p, terrain, (n - 1) as nat);
        let dx = (n - 1) / 3 - 1;
        let dy = (n - 1) % 3 - 1;
        lemma_moved_valid(p, dx, dy);
        assert(Seq::<u64>::empty().no_duplicates());
        let before = spots_upto(p, terrain, (n - 1) as nat);
        assert forall|i: int| 0 <= i < spots_upto(p, terrain, n).len() implies spot_wf(#[trigger] spots_upto(p, terrain, n)[i]) by {
            if i < before.len() {
                assert(spots_upto(p, terrain, n)[i] == before[i]);
            }
        }
    }
}

/// The spots beside the source at `p` (see `spots_of`).
fn spots_beside(p: u32, terrain: &Vec<TerrainKind>) -> (r: Vec<HarvestSpot>)
    requires
        terrain@.len() == 2500,
        packed_valid(p),
        1 <= (p / 256) % 256 <= 48,
        1 <= p % 256 <= 48,
    ensures
        r@.map_values(|s: HarvestSpot| spot_view(s)) == spots_of(p, terrain@),
{
    let mut r: Vec<HarvestSpot> = Vec::new();
    let mut n: u32 = 0;
    while n < 9
        invariant
            n <= 9,
            terrain@.len() == 2500,
            packed_valid(p),
            1 <= (p / 256) % 256 <= 48,
            1 <= p % 256 <= 48,
            r@.map_values(|s: HarvestSpot| spot_view(s)) == spots_upto(p, terrain@, n as nat),
        decreases 9 - n,
    {
        let dx: i64 = (n / 3) as i64 - 1;
        let dy: i64 = (n % 3) as i64 - 1;
        let qi: i64 = p as i64 + dx * 256 + dy;
        let q: u32 = qi as u32;
        proof {
            lemma_moved_valid(p, dx as int, dy as int);
            assert(q == moved(p, dx as int, dy as int));
        }
        let t = (q % 256) as usize * 50 + ((q / 256) % 256) as usize;
        let ghost before = r@;
        if terrain[t] != TerrainKind::Wall {
            r.push(HarvestSpot { pos: q, capacity: 1, assigned: Vec::new() });
        }
        proof {
            assert(r@.map_values(|s: HarvestSpot| spot_view(s)) =~= spots_upto(p, terrain@, n as nat + 1)) by {
                assert(before.map_values(|s: HarvestSpot| spot_view(s)) == spots_upto(p, terrain@, n as nat));
                if r@.len() > before.len() {
                    assert(r@ == before.push(r@[before.len() as int]));
                    assert forall|i: int| 0 <= i < before.len() implies r@[i] == before[i] by {}
                }
            }
        }
        n = n + 1;
    }
    r
}

/// The spot's creeps with `c` added, unless it is there already.
pub open spec fn with_creep(a: Seq<u64>, c: u64) -> Seq<u64> {
    if a.contains(c) { a } else { a.push(c) }
}

/// The sources with creep `c` added to the `i`-th spot of the `k`-th source.
pub open spec fn assigned_to(srcs: Seq<(u64, Seq<(u32, u32, Seq<u64>)>)>, k: int, i: int, c: u64)
    -> Seq<(u64, Seq<(u32, u32, Seq<u64>)>)> {
    let spot = srcs[k].1[i];
    srcs.update(k, (srcs[k].0, srcs[k].1.update(i, (spot.0, spot.1, with_creep(spot.2, c)))))
}

/// Where no source before the `k`-th has a spot with room, the first source with
/// one is searched from the `k`-th on.
proof fn lemma_first_assignable_from(srcs: Seq<(u64, Seq<(u32, u32, Seq<u64>)>)>, k: nat)
    requires
        k <= srcs.len(),
        forall|j: int| 0 <= j < k ==> spec_pick(spot_keys(#[trigger] srcs[j].1)) is None,
    ensures
        first_assignable(srcs, 0) == first_assignable(srcs, k),
    decreases k,
{
    if k > 0 {
        assert(spec_pick(spot_keys(srcs[k - 1].1)) is None);
        lemma_first_assignable_from(srcs, (k - 1) as nat);
    }
}

/// The free places of a spot, fewest first, then the position's order, as a key.
fn spot_key(spot: &HarvestSpot) -> (k: (bool, i64, u64))
    requires
        spot_wf(spot_view(*spot)),
    ensures
        (k.0, k.1 as int, k.2 as int) == (spot_free(spot_view(*spot)) > 0, -spot_free(spot_view(*spot)), pos_order(spot.pos)),
{
    let free: u64 = spot.capacity as u64 - spot.assigned.len() as u64;
    let q = spot.pos as u64;
    let order: u64 = ((q / 65536) % 256 * 50 + q % 256) * 12800 + (q / 16777216) % 256 * 50 + (q / 256) % 256;
    (free > 0, -(free as i64), order)
}

/// The spot picked among a source's spots: one with room, with the fewest free
/// places, then first in the order of positions.
fn pick_spot(spots: &Vec<HarvestSpot>) -> (r: Option<usize>)
    requires
        forall|i: int| 0 <= i < spots@.len() ==> spot_wf(#[trigger] spot_view(spots@[i])),
    ensures
        match spec_pick(spot_keys(spots@.map_values(|p: HarvestSpot| spot_view(p)))) {
            Some(i) => r == Some(i as usize),
            None => r is None,
        },
{
    let ghost sv = spots@.map_values(|p: HarvestSpot| spot_view(p));
    let mut keys: Vec<(bool, i64, u64)> = Vec::new();
    let mut i: usize = 0;
    while i < spots.len()
        invariant
            i <= spots@.len(),
            sv == spots@.map_values(|p: HarvestSpot| spot_view(p)),
            forall|j: int| 0 <= j < spots@.len() ==> spot_wf(#[trigger] spot_view(spots@[j])),
            keys@.len() == i,
            forall|j: int| 0 <= j < i ==> ((#[trigger] keys@[j]).0, keys@[j].1 as int, keys@[j].2 as int) == spot_keys(sv)[j],
        decreases spots@.len() - i,
    {
        let k = spot_key(&spots[i]);
        keys.push(k);
        i = i + 1;
    }
    proof {
        assert(keys@.map_values(|k: (bool, i64, u64)| (k.0, k.1 as int, k.2 as int)) =~= spot_keys(sv));
    }
    pick_best(&keys)
}

impl SourceDistribution {
    /// The tile and source of `creep`: the one it has, else it is assigned to the
    /// spot picked at the first source (in order) with room on a spot; none where
    /// no source has room.
    pub fn get_assignment(&mut self, creep: u64) -> (r: Option<(u32, u64)>)
        requires
            old(self).wf(),
        ensures
            final(self).wf(),
            old(self).spec_assignments().contains_key(creep) ==> r == Some(old(self).spec_assignments()[creep])
                && final(self).spec_sources() == old(self).spec_sources()
                && final(self).spec_assignments() == old(self).spec_assignments(),
            !old(self).spec_assignments().contains_key(creep) ==> match first_assignable(old(self).spec_sources(), 0) {
                None => r is None && final(self).spec_sources() == old(self).spec_sources()
                    && final(self).spec_assignments() == old(self).spec_assignments(),
                Some((k, i)) => r == Some((old(self).spec_sources()[k].1[i].0, old(self).spec_sources()[k].0))
                    && final(self).spec_sources() == assigned_to(old(self).spec_sources(), k, i, creep)
                    && final(self).spec_assignments() == old(self).spec_assignments().insert(creep, r.unwrap()),
            },
    {
        if let Some(a) = self.assignments.get(creep) {
            return Some(*a);
        }
        let ghost srcs = self.spec_sources();
        let mut k: usize = 0;
        while k < self.sources.len()
            invariant
                self.wf(),
                *self == *old(self),
                !old(self).spec_assignments().contains_key(creep),
                srcs == self.spec_sources(),
                k <= srcs.len(),
                forall|j: int| 0 <= j < k ==> spec_pick(spot_keys(#[trigger] srcs[j].1)) is None,
            decreases srcs.len() - k,
        {
            proof {
                assert(srcs[k as int].1 == self.sources@[k as int].spots@.map_values(|p: HarvestSpot| spot_view(p)));
                assert forall|i: int| 0 <= i < self.sources@[k as int].spots@.len()
                    implies spot_wf(#[trigger] spot_view(self.sources@[k as int].spots@[i])) by {
                    assert(srcs[k as int].1[i] == spot_view(self.sources@[k as int].spots@[i]));
                }
            }
            let nspots = self.sources[k].spots.len();
            match pick_spot(&self.sources[k].spots) {
                None => {},
                Some(i) => {
                    proof {
                        lemma_first_assignable_from(srcs, k as nat);
                        let ks = spot_keys(srcs[k as int].1);
                        assert(ks == spot_keys(self.sources@[k as int].spots@.map_values(|p: HarvestSpot| spot_view(p))));
                        assert(spec_pick(ks) is Some);
                        let x = spec_pick(ks).unwrap();
                        assert(is_pick(ks, x));
                        assert(ks.len() == self.sources@[k as int].spots@.len());
                        assert(nspots == self.sources@[k as int].spots@.len());
                        assert(i as int == x);
                        assert(x == i);
                        assert(ks[x].0);
                        assert(srcs[k as int].1[x] == spot_view(self.sources@[k as int].spots@[x]));
                    }
                    let mut src = self.sources.remove(k);
                    let mut spot = src.spots.remove(i);
                    let ghost old_spot = spot_view(spot);
                    let mut present = false;
                    let mut j: usize = 0;
                    while j < spot.assigned.len()
                        invariant
                            j <= spot.assigned@.len(),
                            present <==> exists|m: int| 0 <= m < j && spot.assigned@[m] == creep,
                        decreases spot.assigned@.len() - j,
                    {
                        if spot.assigned[j] == creep {
                            present = true;
                        }
                        j = j + 1;
                    }
                    if !present {
                        spot.assigned.push(creep);
                    }
                    let r = (spot.pos, src.source);
                    proof {
                        assert(spot_view(spot) == (old_spot.0, old_spot.1, with_creep(old_spot.2, creep)));
                        assert(spot_wf(spot_view(spot))) by {
                            assert(spot_free(old_spot) > 0);
                            if !present {
                                assert(!old_spot.2.contains(creep));
                                assert forall|a: int, b: int| 0 <= a < spot.assigned@.len() && 0 <= b < spot.assigned@.len() && a != b
                                    implies spot.assigned@[a] != spot.assigned@[b] by {
                                    if a < old_spot.2.len() && b < old_spot.2.len() {
                                        assert(spot.assigned@[a] == old_spot.2[a] && spot.assigned@[b] == old_spot.2[b]);
                                    } else if a < old_spot.2.len() {
                                        assert(old_spot.2.contains(spot.assigned@[a]));
                                    } else {
                                        assert(old_spot.2.contains(spot.assigned@[b]));
                                    }
                                }
                            }
                        }
                    }
                    src.spots.insert(i, spot);
                    self.sources.insert(k, src);
                    self.assignments.insert(creep, r);
                    proof {
                        let after = assigned_to(srcs, k as int, i as int, creep);
                        assert(self.spec_sources() =~= after) by {
                            assert forall|a: int| 0 <= a < after.len() implies #[trigger] self.spec_sources()[a] == after[a] by {
                                if a == k {
                                    assert(self.spec_sources()[a].1 =~= after[a].1);
                                } else {
                                    assert(self.sources@[a] == old(self).sources@[a]);
                                }
                            }
                        }
                        assert forall|a: int, b: int| 0 <= a < self.spec_sources().len() && 0 <= b < self.spec_sources()[a].1.len()
                            implies spot_wf(#[trigger] self.spec_sources()[a].1[b]) by {
                            if a != k || b != i {
                                assert(self.spec_sources()[a].1[b] == srcs[a].1[b]);
                            }
                        }
                    }
                    return Some(r);
                },
            }
            k = k + 1;
        }
        proof {
            lemma_first_assignable_from(srcs, k as nat);
        }
        None
    }

    /// How many creeps the spots take in all.
    pub open spec fn spec_max_creeps(&self) -> int {
        capacity_sum(self.spec_sources(), self.spec_sources().len() as int)
    }

    /// Forgets a creep that no longer exists: its assignment, and its place on
    /// every spot.
    pub fn cleanup_dead_creep(&mut self, creep: u64)
        requires
            old(self).wf(),
        ensures
            final(self).wf(),
            final(self).spec_assignments() == old(self).spec_assignments().remove(creep),
            final(self).spec_sources().len() == old(self).spec_sources().len(),
            forall|k: int| 0 <= k < old(self).spec_sources().len() ==> (#[trigger] final(self).spec_sources()[k]).0 == old(self).spec_sources()[k].0
                && final(self).spec_sources()[k].1 == old(self).spec_sources()[k].1.map_values(
                    |s: (u32, u32, Seq<u64>)| (s.0, s.1, without(s.2, creep))),
    {
        self.assignments.remove(creep);
        let ghost srcs = self.spec_sources();
        let mut k: usize = 0;
        while k < self.sources.len()
            invariant
                self.assignments.wf(),
                self.assignments@ == old(self).assignments@.remove(creep),
                srcs == old(self).spec_sources(),
                forall|a: int, b: int| 0 <= a < srcs.len() && 0 <= b < srcs[a].1.len() ==> spot_wf(#[trigger] srcs[a].1[b]),
                k <= srcs.len(),
                self.sources@.len() == srcs.len(),
                forall|a: int| 0 <= a < srcs.len() ==> (#[trigger] self.spec_sources()[a]).0 == srcs[a].0,
                forall|a: int| 0 <= a < k ==> (#[trigger] self.spec_sources()[a]).1 == srcs[a].1.map_values(
                    |s: (u32, u32, Seq<u64>)| (s.0, s.1, without(s.2, creep))),
                forall|a: int| k <= a < srcs.len() ==> (#[trigger] self.spec_sources()[a]).1 == srcs[a].1,
            decreases srcs.len() - k,
        {
            let ghost before = self.spec_sources();
            proof {
                assert(before[k as int] == (self.sources@[k as int].source,
                    self.sources@[k as int].spots@.map_values(|p: HarvestSpot| spot_view(p))));
            }
            let mut src = self.sources.remove(k);
            let ghost sp0 = src.spots@;
            let mut spots: Vec<HarvestSpot> = Vec::new();
            let mut old_spots = src.spots;
            let mut rest: Vec<HarvestSpot> = Vec::new();
            // take the spots out from the back, keeping them in order in `rest`
            while old_spots.len() > 0
                invariant
                    old_spots@ + rest@.reverse() == sp0,
                decreases old_spots@.len(),
            {
                let ghost ob = old_spots@;
                let ghost rb = rest@;
                let x = old_spots.pop().unwrap();
                rest.push(x);
                proof {
                    assert(rest@.reverse() =~= seq![x] + rb.reverse()) by {
                        assert forall|m: int| 0 <= m < rest@.len() implies rest@.reverse()[m] == (seq![x] + rb.reverse())[m] by {
                            if m > 0 {
                                assert(rb.reverse()[m - 1] == rb[rb.len() - m]);
                            }
                        }
                    }
                    assert(ob =~= old_spots@.push(x));
                    assert(old_spots@ + rest@.reverse() =~= ob + rb.reverse());
                }
            }
            proof {
                assert(old_spots@ + rest@.reverse() =~= rest@.reverse());
            }
            let ghost n = rest@.len();
            while rest.len() > 0
                invariant
                    n == sp0.len(),
                    rest@.len() <= n,
                    rest@.reverse() == sp0.skip(n - rest@.len()),
                    spots@.len() == n - rest@.len(),
                    forall|m: int| 0 <= m < spots@.len() ==> spot_view(#[trigger] spots@[m]) == (sp0[m].pos, sp0[m].capacity,
                        without(sp0[m].assigned@, creep)),
                decreases rest@.len(),
            {
                let ghost rb = rest@;
                let ghost j = n - rest@.len();
                let mut spot = rest.pop().unwrap();
                proof {
                    assert(sp0.skip(j)[0] == rb.reverse()[0]);
                    assert(rb.reverse()[0] == rb[rb.len() - 1]);
                    assert(sp0[j] == spot);
                    assert(rest@.reverse() =~= sp0.skip(j + 1)) by {
                        assert forall|m: int| 0 <= m < rest@.len() implies rest@.reverse()[m] == sp0.skip(j + 1)[m] by {
                            assert(rest@.reverse()[m] == rb.reverse()[m + 1]);
                            assert(sp0.skip(j)[m + 1] == sp0.skip(j + 1)[m]);
                        }
                    }
                }
                let mut kept: Vec<u64> = Vec::new();
                let mut m: usize = 0;
                while m < spot.assigned.len()
                    invariant
                        m <= spot.assigned@.len(),
                        kept@ == without(spot.assigned@.take(m as int), creep),
                    decreases spot.assigned@.len() - m,
                {
                    proof {
                        assert(spot.assigned@.take(m as int + 1).drop_last() =~= spot.assigned@.take(m as int));
                    }
                    if spot.assigned[m] != creep {
                        kept.push(spot.assigned[m]);
                    }
                    m = m + 1;
                }
                proof {
                    assert(spot.assigned@.take(m as int) =~= spot.assigned@);
                }
                spot.assigned = kept;
                let ghost s0 = spots@;
                spots.push(spot);
                proof {
                    assert forall|q: int| 0 <= q < spots@.len() implies spot_view(#[trigger] spots@[q]) == (sp0[q].pos, sp0[q].capacity,
                        without(sp0[q].assigned@, creep)) by {
                        if q < s0.len() {
                            assert(spots@[q] == s0[q]);
                        }
                    }
                }
            }
            src.spots = spots;
            self.sources.insert(k, src);
            proof {
                assert(self.spec_sources()[k as int].1 =~= srcs[k as int].1.map_values(
                    |s: (u32, u32, Seq<u64>)| (s.0, s.1, without(s.2, creep)))) by {
                    assert(srcs[k as int].1 == sp0.map_values(|p: HarvestSpot| spot_view(p)));
                }
                assert forall|a: int| 0 <= a < srcs.len() && a != k implies #[trigger] self.spec_sources()[a] == before[a] by {
                    assert(self.sources@[a] == old(self).sources@[a] || true);
                }
            }
            k = k + 1;
        }
        proof {
            assert forall|a: int, b: int| 0 <= a < self.spec_sources().len() && 0 <= b < self.spec_sources()[a].1.len()
                implies spot_wf(#[trigger] self.spec_sources()[a].1[b]) by {
                let s = srcs[a].1[b];
                assert(spot_wf(s));
                lemma_without(s.2, creep);
            }
        }
    }
}

/// The capacities of the spots of the first `k` sources, added up.
pub open spec fn capacity_sum(srcs: Seq<(u64, Seq<(u32, u32, Seq<u64>)>)>, k: int) -> int
    decreases k,
{
    if k <= 0 { 0 } else { capacity_sum(srcs, k - 1) + spots_capacity(srcs[k - 1].1, srcs[k - 1].1.len() as int) }
}

/// The capacities of the first `i` spots, added up.
pub open spec fn spots_capacity(spots: Seq<(u32, u32, Seq<u64>)>, i: int) -> int
    decreases i,
{
    if i <= 0 { 0 } else { spots_capacity(spots, i - 1) + spots[i - 1].1 }
}

impl SourceDistribution {
    /// How many creeps the spots take in all.
    pub fn max_creeps(&self) -> (n: usize)
        requires
            self.spec_max_creeps() <= usize::MAX,
        ensures
            n == self.spec_max_creeps(),
    {
        let ghost srcs = self.spec_sources();
        proof {
            lemma_capacity_sum_mono(srcs, srcs.len() as int);
        }
        let mut total: usize = 0;
        let mut k: usize = 0;
        while k < self.sources.len()
            invariant
                srcs == self.spec_sources(),
                k <= srcs.len(),
                total == capacity_sum(srcs, k as int),
                self.spec_max_creeps() <= usize::MAX,
                forall|a: int| 0 <= a <= srcs.len() ==> 0 <= #[trigger] capacity_sum(srcs, a) <= self.spec_max_creeps(),
            decreases srcs.len() - k,
        {
            let spots = &self.sources[k].spots;
            let ghost sp = srcs[k as int].1;
            proof {
                assert(sp == spots@.map_values(|p: HarvestSpot| spot_view(p)));
                assert(capacity_sum(srcs, k as int + 1) == capacity_sum(srcs, k as int) + spots_capacity(sp, sp.len() as int));
                lemma_spots_capacity_mono(sp, sp.len() as int);
            }
            let mut i: usize = 0;
            let mut sub: usize = 0;
            while i < spots.len()
                invariant
                    i <= sp.len(),
                    sp == spots@.map_values(|p: HarvestSpot| spot_view(p)),
                    sub == spots_capacity(sp, i as int),
                    total + spots_capacity(sp, sp.len() as int) <= usize::MAX,
                    forall|a: int| 0 <= a <= sp.len() ==> #[trigger] spots_capacity(sp, a) <= spots_capacity(sp, sp.len() as int),
                    forall|a: int| 0 <= a <= sp.len() ==> 0 <= #[trigger] spots_capacity(sp, a),
                decreases sp.len() - i,
            {
                proof {
                    assert(sp[i as int].1 == spots@[i as int].capacity);
                    assert(spots_capacity(sp, i as int + 1) == spots_capacity(sp, i as int) + sp[i as int].1);
                    assert(spots_capacity(sp, i as int + 1) <= spots_capacity(sp, sp.len() as int));
                }
                sub = sub + spots[i].capacity as usize;
                i = i + 1;
            }
            total = total + sub;
            k = k + 1;
        }
        total
    }
}

/// Adding the sources' capacities up never falls.
proof fn lemma_capacity_sum_mono(srcs: Seq<(u64, Seq<(u32, u32, Seq<u64>)>)>, n: int)
    requires
        0 <= n <= srcs.len(),
    ensures
        forall|a: int| 0 <= a <= n ==> 0 <= #[trigger] capacity_sum(srcs, a) <= capacity_sum(srcs, n),
    decreases n,
{
    if n > 0 {
        lemma_capacity_sum_mono(srcs, n - 1);
        lemma_spots_capacity_mono(srcs[n - 1].1, srcs[n - 1].1.len() as int);
        assert(capacity_sum(srcs, n) == capacity_sum(srcs, n - 1) + spots_capacity(srcs[n - 1].1, srcs[n - 1].1.len() as int));
    }
}

/// Adding capacities up never falls.
proof fn lemma_spots_capacity_mono(spots: Seq<(u32, u32, Seq<u64>)>, n: int)
    requires
        0 <= n <= spots.len(),
    ensures
        forall|a: int| 0 <= a <= n ==> #[trigger] spots_capacity(spots, a) <= spots_capacity(spots, n),
        forall|a: int| 0 <= a <= n ==> 0 <= #[trigger] spots_capacity(spots, a),
    decreases n,
{
    if n > 0 {
        lemma_spots_capacity_mono(spots, n - 1);
        assert(spots_capacity(spots, n) == spots_capacity(spots, n - 1) + spots[n - 1].1);
    }
}

/// The states of a harvester.
#[derive(PartialEq, Eq, Structural, Clone, Copy, Debug)]
pub enum HarvesterState {
    Idle,
    /// Harvesting the source from the tile it is assigned.
    Harvesting(u32, u64),
    /// Bringing energy to the target.
    Distributing(DistributionTarget),
}

/// The id of a target's game object.
pub open spec fn target_id(t: DistributionTarget) -> u64 {
    match t {
        DistributionTarget::Controller(i) | DistributionTarget::Spawn(i) | DistributionTarget::Extension(i)
        | DistributionTarget::Tower(i) | DistributionTarget::Storage(i) | DistributionTarget::Terminal(i)
        | DistributionTarget::ConstructionSite(i) => i,
    }
}

fn id_of(t: DistributionTarget) -> (i: u64)
    ensures
        i == target_id(t),
{
    match t {
        DistributionTarget::Controller(i) | DistributionTarget::Spawn(i) | DistributionTarget::Extension(i)
        | DistributionTarget::Tower(i) | DistributionTarget::Storage(i) | DistributionTarget::Terminal(i)
        | DistributionTarget::ConstructionSite(i) => i,
    }
}

/// What a harvester reads of the game in a tick.
pub struct HarvesterObservation {
    /// The creep, by id.
    pub creep: u64,
    /// Where it stands.
    pub pos: u32,
    /// It carries nothing.
    pub empty: bool,
    /// It has no free capacity.
    pub full: bool,
    /// What its room offers as targets.
    pub targets: TargetSight,
    /// The position of each game object it can see (sources, structures, sites,
    /// the controller), by id.
    pub positions: KeyedMap<u32>,
}

/// What a harvester does in one of its states in a tick.
#[derive(PartialEq, Eq, Structural, Clone, Copy, Debug)]
pub enum HarvesterAct {
    Nothing,
    Harvest(u64),
    Distribute(DistributionTarget),
}

/// After a state's turn: the round ends (with the next state, or an error), or
/// the creep takes its turn again, in the given state, within the same tick.
#[derive(PartialEq, Eq, Structural, Clone, Copy, Debug)]
pub enum HarvesterNext {
    Done(Option<HarvesterState>),
    Again(HarvesterState),
}

/// One state's turn: where to move, whether to repair worn roads in range, the
/// action, and what follows where it succeeds or fails (only a distribution can
/// fail; a harvest's outcome does not matter).
#[derive(PartialEq, Eq, Structural, Clone, Copy, Debug)]
pub struct HarvesterTurn {
    pub move_to: Option<u32>,
    pub repair: bool,
    pub act: HarvesterAct,
    pub on_success: HarvesterNext,
    pub on_failure: HarvesterNext,
}

/// A turn that does nothing and goes on with `next`.
pub open spec fn quiet_turn(next: HarvesterNext) -> HarvesterTurn {
    HarvesterTurn { move_to: None, repair: false, act: HarvesterAct::Nothing, on_success: next, on_failure: next }
}

/// What follows once a state has been decided on: the round ends where the
/// creep stays idle, else the new state takes its turn at once.
pub open spec fn go_on(next: HarvesterState) -> HarvesterNext {
    if next == HarvesterState::Idle { HarvesterNext::Done(Some(HarvesterState::Idle)) } else { HarvesterNext::Again(next) }
}

/// The turn of a harvesting or distributing creep (an idle one's turn depends on
/// the distribution of sources; see `HarvesterState::turn`).
pub open spec fn spec_busy_turn(s: HarvesterState, obs: HarvesterObservation) -> HarvesterTurn {
    match s {
        HarvesterState::Idle => quiet_turn(HarvesterNext::Done(Some(HarvesterState::Idle))),
        HarvesterState::Harvesting(p, src) => {
            let after = if obs.full { HarvesterNext::Again(HarvesterState::Idle) } else { HarvesterNext::Done(Some(s)) };
            if spec_near(obs.pos, p) {
                if obs.positions@.contains_key(src) {
                    HarvesterTurn { move_to: Some(p), repair: false, act: HarvesterAct::Harvest(src), on_success: after, on_failure: after }
                } else {
                    HarvesterTurn { move_to: Some(p), repair: false, act: HarvesterAct::Nothing,
                        on_success: HarvesterNext::Done(None), on_failure: HarvesterNext::Done(None) }
                }
            } else {
                HarvesterTurn { move_to: Some(p), repair: false, act: HarvesterAct::Nothing, on_success: after, on_failure: after }
            }
        },
        HarvesterState::Distributing(t) => {
            if !obs.positions@.contains_key(target_id(t)) {
                HarvesterTurn { move_to: None, repair: true, act: HarvesterAct::Nothing,
                    on_success: HarvesterNext::Done(None), on_failure: HarvesterNext::Done(None) }
            } else {
                let tp = obs.positions@[target_id(t)];
                let after = if (t is ConstructionSite && !obs.positions@.contains_key(target_id(t))) || obs.empty {
                    HarvesterNext::Again(HarvesterState::Idle)
                } else {
                    HarvesterNext::Done(Some(s))
                };
                if spec_range(obs.pos, tp) <= spec_target_range(t) {
                    HarvesterTurn { move_to: Some(tp), repair: true, act: HarvesterAct::Distribute(t),
                        on_success: after, on_failure: HarvesterNext::Again(HarvesterState::Idle) }
                } else {
                    HarvesterTurn { move_to: Some(tp), repair: true, act: HarvesterAct::Nothing, on_success: after, on_failure: after }
                }
            }
        },
    }
}

/// The observation's positions are positions in a room, and a harvesting state's
/// tile too.
pub open spec fn harvester_ready(s: HarvesterState, obs: HarvesterObservation) -> bool {
    &&& packed_valid(obs.pos)
    &&& obs.positions.wf()
    &&& forall|k: u64| #[trigger] obs.positions@.contains_key(k) ==> packed_valid(obs.positions@[k])
    &&& forall|i: int| 0 <= i < obs.targets.fills@.len() ==> packed_valid(#[trigger] obs.targets.fills@[i].pos)
    &&& forall|i: int| 0 <= i < obs.targets.sites@.len() ==> packed_valid(#[trigger] obs.targets.sites@[i].pos)
    &&& (s matches HarvesterState::Harvesting(p, _) ==> packed_valid(p))
}

impl HarvesterState {
    /// One turn of the harvester in this state.
    ///
    /// - Idle: where it carries energy and there is a target, it goes distributing;
    ///   else, where it has room, it takes its assignment (being assigned a spot
    ///   where it has none) and goes harvesting. The new state takes its turn at
    ///   once; without work it stays idle and the round ends.
    /// - Harvesting: it moves to its tile and, next to it, harvests the source
    ///   (failing where the source is not seen); once full it turns idle at once.
    /// - Distributing: it repairs worn roads in range; it moves to the target
    ///   (failing where the target is not seen) and serves it when in range; where
    ///   that fails, a site is gone, or it is empty, it turns idle at once.
    pub fn turn(self, obs: &HarvesterObservation, dist: &mut SourceDistribution) -> (r: HarvesterTurn)
        requires
            harvester_ready(self, *obs),
            old(dist).wf(),
        ensures
            final(dist).wf(),
            match self {
                HarvesterState::Idle => {
                    let t = spec_distribution_target(TargetRules::Harvester, obs.targets, obs.pos);
                    if !obs.empty && t is Some {
                        r == quiet_turn(HarvesterNext::Again(HarvesterState::Distributing(t.unwrap())))
                            && *final(dist) == *old(dist)
                    } else if obs.full {
                        r == quiet_turn(HarvesterNext::Done(Some(HarvesterState::Idle))) && *final(dist) == *old(dist)
                    } else {
                        exists|a: Option<(u32, u64)>| #[trigger] assignment_given(*old(dist), *final(dist), obs.creep, a)
                            && r == quiet_turn(match a {
                                Some(x) => HarvesterNext::Again(HarvesterState::Harvesting(x.0, x.1)),
                                None => HarvesterNext::Done(Some(HarvesterState::Idle)),
                            })
                    }
                },
                _ => r == spec_busy_turn(self, *obs) && *final(dist) == *old(dist),
            },
    {
        match self {
            HarvesterState::Idle => {
                let t = distribution_target(TargetRules::Harvester, &obs.targets, obs.pos);
                if !obs.empty && t.is_some() {
                    return HarvesterTurn { move_to: None, repair: false, act: HarvesterAct::Nothing,
                        on_success: HarvesterNext::Again(HarvesterState::Distributing(t.unwrap())),
                        on_failure: HarvesterNext::Again(HarvesterState::Distributing(t.unwrap())) };
                }
                if obs.full {
                    return HarvesterTurn { move_to: None, repair: false, act: HarvesterAct::Nothing,
                        on_success: HarvesterNext::Done(Some(HarvesterState::Idle)),
                        on_failure: HarvesterNext::Done(Some(HarvesterState::Idle)) };
                }
                let ghost d0 = *dist;
                let a = dist.get_assignment(obs.creep);
                proof {
                    assert(assignment_given(d0, *dist, obs.creep, a));
                }
                let next = match a {
                    Some(x) => HarvesterNext::Again(HarvesterState::Harvesting(x.0, x.1)),
                    None => HarvesterNext::Done(Some(HarvesterState::Idle)),
                };
                HarvesterTurn { move_to: None, repair: false, act: HarvesterAct::Nothing, on_success: next, on_failure: next }
            },
            HarvesterState::Harvesting(p, src) => {
                let after = if obs.full { HarvesterNext::Again(HarvesterState::Idle) } else { HarvesterNext::Done(Some(self)) };
                if positions_near(obs.pos, p) {
                    if obs.positions.contains_key(src) {
                        HarvesterTurn { move_to: Some(p), repair: false, act: HarvesterAct::Harvest(src), on_success: after, on_failure: after }
                    } else {
                        HarvesterTurn { move_to: Some(p), repair: false, act: HarvesterAct::Nothing,
                            on_success: HarvesterNext::Done(None), on_failure: HarvesterNext::Done(None) }
                    }
                } else {
                    HarvesterTurn { move_to: Some(p), repair: false, act: HarvesterAct::Nothing, on_success: after, on_failure: after }
                }
            },
            HarvesterState::Distributing(t) => {
                let id = id_of(t);
                let tp = match obs.positions.get(id) {
                    None => {
                        return HarvesterTurn { move_to: None, repair: true, act: HarvesterAct::Nothing,
                            on_success: HarvesterNext::Done(None), on_failure: HarvesterNext::Done(None) };
                    },
                    Some(p) => *p,
                };
                let is_site = match t {
                    DistributionTarget::ConstructionSite(_) => true,
                    _ => false,
                };
                let after = if (is_site && !obs.positions.contains_key(id)) || obs.empty {
                    HarvesterNext::Again(HarvesterState::Idle)
                } else {
                    HarvesterNext::Done(Some(self))
                };
                if range_between(obs.pos, tp) <= t.range() {
                    HarvesterTurn { move_to: Some(tp), repair: true, act: HarvesterAct::Distribute(t),
                        on_success: after, on_failure: HarvesterNext::Again(HarvesterState::Idle) }
                } else {
                    HarvesterTurn { move_to: Some(tp), repair: true, act: HarvesterAct::Nothing, on_success: after, on_failure: after }
                }
            },
        }
    }
}

impl HarvesterTurn {
    /// What follows, once the action succeeded or failed.
    pub fn settle(&self, failed: bool) -> (r: HarvesterNext)
        ensures
            r == if failed { self.on_failure } else { self.on_success },
    {
        if failed { self.on_failure } else { self.on_success }
    }
}

/// `b` is the distribution `a` after `get_assignment(creep)` gave `r` (see its
/// contract).
pub open spec fn assignment_given(a: SourceDistribution, b: SourceDistribution, creep: u64, r: Option<(u32, u64)>) -> bool {
    &&& a.spec_assignments().contains_key(creep) ==> r == Some(a.spec_assignments()[creep])
        && b.spec_sources() == a.spec_sources() && b.spec_assignments() == a.spec_assignments()
    &&& !a.spec_assignments().contains_key(creep) ==> match first_assignable(a.spec_sources(), 0) {
        None => r is None && b.spec_sources() == a.spec_sources() && b.spec_assignments() == a.spec_assignments(),
        Some((k, i)) => r == Some((a.spec_sources()[k].1[i].0, a.spec_sources()[k].0))
            && b.spec_sources() == assigned_to(a.spec_sources(), k, i, creep)
            && b.spec_assignments() == a.spec_assignments().insert(creep, r.unwrap()),
    }
}

} // verus!
