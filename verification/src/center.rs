//! Placing the structures of a colony's center: tiles are taken in the order of a
//! diagonal flood fill from the center, skipping tiles already planned, and each
//! tile taken marks its orthogonal neighbours as wanted for roads by its step; a
//! road is planned where three structures want one, from the third step.
use vstd::prelude::*;
use crate::floodfill::{FloodFill, Spread, coord_dist, law_breadth_first, spec_step, step_towards};
use crate::keyed::KeyedMap;
use crate::planner::{ColonyPlanner, KIND_COUNT, PlanError, PlannedStructure, ROOM_AREA, RoomXY, StructureKind, TerrainKind,
    TilePathing, count_index, key_xy, keys_are_tiles, lemma_distinct_tiles_bounded, lemma_min_left_after_one,
    lemma_min_left_mono, lemma_min_left_other_kind, lemma_tiles_distinct, min_left_from, placed_by, spec_structure_kind, structure_limit, pathing_cost, plan_structure_result, road_planned, same_plan, structure_planned, tile_index, xy_key, xy_valid};
use crate::steps::{lemma_step_index_roundtrip, spec_first_at_level, step_at, step_index, step_level};
use crate::steps::ColonyStep;

verus! {

/// The orthogonal neighbours of `p` that are no walls, looking at directions 0 to
/// `n - 1` (top, right, bottom, left among them), in that order.
pub open spec fn orth_neighbours(terrain: Seq<TerrainKind>, p: RoomXY, n: int) -> Seq<RoomXY>
    decreases n,
{
    if n <= 0 {
        Seq::empty()
    } else {
        let rest = orth_neighbours(terrain, p, n - 1);
        match spec_step(p, n - 1) {
            Some(q) => if (n - 1) % 2 == 0 && terrain[tile_index(q)] != TerrainKind::Wall { rest.push(q) } else { rest },
            None => rest,
        }
    }
}

/// The wanted roads after each tile of `s`, in turn, is wanted once more by `step`.
pub open spec fn with_step(m: Map<u64, Seq<ColonyStep>>, s: Seq<RoomXY>, step: ColonyStep) -> Map<u64, Seq<ColonyStep>>
    decreases s.len(),
{
    if s.len() == 0 {
        m
    } else {
        let m2 = with_step(m, s.drop_last(), step);
        let k = xy_key(s.last());
        m2.insert(k, (if m2.contains_key(k) { m2[k] } else { Seq::empty() }).push(step))
    }
}

/// `b` is fill `a` after handing out more entries: what was queued stays queued,
/// in order, and nothing about the room changes.
pub open spec fn advanced(a: FloodFill, b: FloodFill) -> bool {
    &&& a.entries().len() <= b.entries().len()
    &&& b.entries().subrange(0, a.entries().len() as int) == a.entries()
    &&& a.handed_out() <= b.handed_out()
    &&& b.spec_terrain() == a.spec_terrain()
    &&& b.spec_spread() == a.spec_spread()
    &&& b.seed_count() == a.seed_count()
}


/// How many of the steps come no later than the `i`-th step.
pub open spec fn count_le(s: Seq<ColonyStep>, i: nat) -> nat
    decreases s.len(),
{
    if s.len() == 0 {
        0
    } else {
        count_le(s.drop_last(), i) + if step_index(s.last()) <= i { 1nat } else { 0nat }
    }
}

/// The first of the steps from the `i`-th on by which three of the steps have
/// come.
pub open spec fn third_from(s: Seq<ColonyStep>, i: nat) -> Option<ColonyStep>
    decreases 18 - i,
{
    if i >= 18 {
        None
    } else if count_le(s, i) >= 3 {
        step_at(i)
    } else {
        third_from(s, i + 1)
    }
}

/// The step from which a road wanted by structures of the steps `s` is planned:
/// the third of them in order, if there are three.
pub open spec fn road_step(s: Seq<ColonyStep>) -> Option<ColonyStep> {
    third_from(s, 0)
}

/// The roads and path costs after planning a road on tile `k` from `step` on, as
/// `ColonyPlanner::plan_road` does.
pub open spec fn road_update(roads: Map<u64, ColonyStep>, costs: Seq<u8>, structures: Map<u64, PlannedStructure>, k: u64,
    step: ColonyStep) -> (Map<u64, ColonyStep>, Seq<u8>) {
    if roads.contains_key(k) && step_index(step) >= step_index(roads[k]) {
        (roads, costs)
    } else {
        (roads.insert(k, step), if structures.contains_key(k) {
            costs
        } else {
            costs.update(tile_index(key_xy(k)), pathing_cost(TilePathing::PlannedRoad))
        })
    }
}

/// The roads and path costs after planning, in turn, the road each entry of `es`
/// wants, where it is wanted enough.
pub open spec fn roads_from_wants(roads: Map<u64, ColonyStep>, costs: Seq<u8>, structures: Map<u64, PlannedStructure>,
    es: Seq<(u64, Seq<ColonyStep>)>) -> (Map<u64, ColonyStep>, Seq<u8>)
    decreases es.len(),
{
    if es.len() == 0 {
        (roads, costs)
    } else {
        let prev = roads_from_wants(roads, costs, structures, es.drop_last());
        match road_step(es.last().1) {
            Some(st) => road_update(prev.0, prev.1, structures, es.last().0, st),
            None => prev,
        }
    }
}

/// How many of the steps come no later than the `i`-th step.
fn count_up_to(v: &Vec<ColonyStep>, i: u8) -> (c: usize)
    ensures
        c == count_le(v@, i as nat),
{
    let mut c: usize = 0;
    let mut j: usize = 0;
    while j < v.len()
        invariant
            j <= v@.len(),
            c == count_le(v@.take(j as int), i as nat),
            c <= j,
        decreases v@.len() - j,
    {
        proof {
            assert(v@.take(j as int + 1).drop_last() =~= v@.take(j as int));
            assert(v@.take(j as int + 1).last() == v@[j as int]);
        }
        if v[j].index() <= i {
            c = c + 1;
        }
        j = j + 1;
    }
    proof {
        assert(v@.take(j as int) =~= v@);
    }
    c
}

/// The step from which a road wanted by structures of the steps `v` is planned.
fn third_step(v: &Vec<ColonyStep>) -> (r: Option<ColonyStep>)
    ensures
        r == road_step(v@),
{
    let mut i: u8 = 0;
    while i < 18
        invariant
            i <= 18,
            road_step(v@) == third_from(v@, i as nat),
        decreases 18 - i,
    {
        if count_up_to(v, i) >= 3 {
            return ColonyStep::from_repr(i);
        }
        i = i + 1;
    }
    None
}

/// Where the center's structures go, and the roads they want.
pub struct CenterPlanner {
    flood_fill: FloodFill,
    roads_utility_increases: KeyedMap<Vec<ColonyStep>>,
}

impl CenterPlanner {
    /// The fill that hands out the center's tiles.
    pub closed spec fn fill(&self) -> FloodFill {
        self.flood_fill
    }

    /// The steps of the structures that want a road on each tile, by tile key.
    pub closed spec fn increases(&self) -> Map<u64, Seq<ColonyStep>> {
        self.roads_utility_increases@.map_values(|v: Vec<ColonyStep>| v@)
    }

    /// The fill is consistent and every tile wanted for a road is in the room.
    pub closed spec fn wf(&self) -> bool {
        &&& self.flood_fill.wf()
        &&& self.flood_fill.seed_count() == 1
        &&& self.roads_utility_increases.wf()
        &&& keys_are_tiles(self.roads_utility_increases@.dom())
    }

    /// A planner for the center at `center`: a diagonal fill of the room from it,
    /// with no roads wanted yet.
    pub fn new(planner: &ColonyPlanner, center: RoomXY) -> (c: Self)
        requires
            planner.wf(),
            xy_valid(center),
        ensures
            c.wf(),
            c.fill().entries() == seq![(0usize, center)],
            c.fill().handed_out() == 0,
            c.fill().seed_count() == 1,
            c.fill().spec_terrain() == planner.terrain(),
            c.fill().spec_spread() == Spread::Diagonal,
            c.increases() == Map::<u64, Seq<ColonyStep>>::empty(),
    {
        let terrain = planner.terrain_copy();
        let f = FloodFill::new(vec![center], terrain, Spread::Diagonal);
        let c = CenterPlanner { flood_fill: f, roads_utility_increases: KeyedMap::new() };
        proof {
            assert(c.fill().entries() =~= seq![(0usize, center)]);
            assert(c.increases() =~= Map::<u64, Seq<ColonyStep>>::empty());
        }
        c
    }

    /// Marks tile `q` as wanted for a road by `step`.
    fn want_road(&mut self, q: RoomXY, step: ColonyStep)
        requires
            old(self).wf(),
            xy_valid(q),
        ensures
            final(self).wf(),
            final(self).fill() == old(self).fill(),
            final(self).increases() == old(self).increases().insert(xy_key(q),
                (if old(self).increases().contains_key(xy_key(q)) { old(self).increases()[xy_key(q)] } else { Seq::empty() }).push(step)),
    {
        let k: u64 = q.x as u64 * 256 + q.y as u64;
        let ghost before = self.roads_utility_increases@;
        let ghost wanted = (if old(self).increases().contains_key(xy_key(q)) { old(self).increases()[xy_key(q)] } else { Seq::empty() }).push(step);
        let v = match self.roads_utility_increases.remove(k) {
            Some(mut v) => {
                v.push(step);
                v
            },
            None => {
                let v = vec![step];
                proof {
                    assert(v@ =~= Seq::<ColonyStep>::empty().push(step));
                }
                v
            },
        };
        let ghost vv = v@;
        proof {
            assert(vv == wanted);
        }
        self.roads_utility_increases.insert(k, v);
        proof {
            assert(self.roads_utility_increases@ =~= before.insert(k, v));
            assert(self.increases() =~= old(self).increases().insert(xy_key(q), wanted));
            assert forall|key: u64| #[trigger] self.roads_utility_increases@.dom().contains(key)
                implies xy_valid(crate::planner::key_xy(key)) && xy_key(crate::planner::key_xy(key)) == key by {
                if key != k {
                    assert(before.dom().contains(key));
                }
            }
        }
    }

    /// The next tile of the center for a structure of `step`: the next tile the
    /// fill hands out that has no structure planned (skipping those that have);
    /// its orthogonal neighbours that are no walls are then wanted for roads by
    /// `step`. It fails once the fill is exhausted.
    pub fn next_structure_pos(&mut self, planner: &ColonyPlanner, step: ColonyStep) -> (r: Result<RoomXY, PlanError>)
        requires
            old(self).wf(),
            planner.wf(),
            old(self).fill().spec_terrain() == planner.terrain(),
        ensures
            final(self).wf(),
            advanced(old(self).fill(), final(self).fill()),
            forall|i: int| old(self).fill().handed_out() <= i < final(self).fill().handed_out() - (if r is Ok { 1int } else { 0int })
                ==> planner.structures().contains_key(xy_key(#[trigger] final(self).fill().entries()[i].1)),
            r matches Ok(p) ==> {
                &&& final(self).fill().handed_out() > old(self).fill().handed_out()
                &&& p == final(self).fill().entries()[final(self).fill().handed_out() - 1].1
                &&& xy_valid(p)
                &&& !planner.structures().contains_key(xy_key(p))
                &&& final(self).increases() == with_step(old(self).increases(), orth_neighbours(planner.terrain(), p, 8), step)
            },
            r is Err ==> {
                &&& r == Err::<RoomXY, PlanError>(PlanError::NoCenterSpace)
                &&& final(self).fill().handed_out() == final(self).fill().entries().len()
                &&& final(self).increases() == old(self).increases()
            },
    {
        proof {
            law_breadth_first(&self.flood_fill);
            assert(self.flood_fill.entries().subrange(0, self.flood_fill.entries().len() as int) =~= self.flood_fill.entries());
        }
        loop
            invariant
                self.wf(),
                planner.wf(),
                self.fill().spec_terrain() == planner.terrain(),
                advanced(old(self).fill(), self.fill()),
                self.increases() == old(self).increases(),
                forall|i: int| old(self).fill().handed_out() <= i < self.fill().handed_out()
                    ==> planner.structures().contains_key(xy_key(#[trigger] self.fill().entries()[i].1)),
                self.fill().handed_out() <= self.fill().seed_count() + ROOM_AREA,
            decreases self.fill().seed_count() + ROOM_AREA - self.fill().handed_out(),
        {
            let ghost before = self.flood_fill;
            let next = self.flood_fill.next();
            proof {
                law_breadth_first(&self.flood_fill);
                law_breadth_first(&before);
                assert(self.fill().entries().subrange(0, old(self).fill().entries().len() as int)
                    =~= before.entries().subrange(0, old(self).fill().entries().len() as int));
            }
            match next {
                None => {
                    return Err(PlanError::NoCenterSpace);
                },
                Some((_, pos)) => {
                    proof {
                        assert(self.fill().entries()[before.handed_out() as int] == before.entries()[before.handed_out() as int]);
                    }
                    if planner.has_structure_at(pos) {
                        continue;
                    }
                    let ghost inc0 = self.increases();
                    let ghost f1 = self.fill();
                    let mut d: u8 = 0;
                    while d < 8
                        invariant
                            d <= 8,
                            xy_valid(pos),
                            self.wf(),
                            planner.wf(),
                            self.fill() == f1,
                            self.increases() == with_step(inc0, orth_neighbours(planner.terrain(), pos, d as int), step),
                        decreases 8 - d,
                    {
                        let ghost fill_before = self.fill();
                        match step_towards(pos, d) {
                            Some(q) => {
                                if d % 2 == 0 && !planner.is_wall(q) {
                                    self.want_road(q, step);
                                    proof {
                                        let s = orth_neighbours(planner.terrain(), pos, d as int + 1);
                                        assert(s == orth_neighbours(planner.terrain(), pos, d as int).push(q));
                                        assert(s.drop_last() =~= orth_neighbours(planner.terrain(), pos, d as int));
                                    }
                                }
                            },
                            None => {},
                        }
                        d = d + 1;
                    }
                    return Ok(pos);
                },
            }
        }
    }

    /// The roads wanted, with the steps of the structures that want each, in the
    /// order they were first wanted.
    pub closed spec fn wanted(&self) -> Seq<(u64, Seq<ColonyStep>)> {
        self.roads_utility_increases.entries().map_values(|e: (u64, Vec<ColonyStep>)| (e.0, e.1@))
    }

    /// Plans `structure` from `step` on, on the next tile of the center for it.
    pub fn plan_structure(&mut self, planner: &mut ColonyPlanner, step: ColonyStep, structure: PlannedStructure)
        -> (r: Result<(), PlanError>)
        requires
            old(self).wf(),
            old(planner).wf(),
            old(self).fill().spec_terrain() == old(planner).terrain(),
        ensures
            final(self).wf(),
            final(planner).wf(),
            final(self).fill().spec_terrain() == final(planner).terrain(),
            advanced(old(self).fill(), final(self).fill()),
            r == Err::<(), PlanError>(PlanError::NoCenterSpace) ==> {
                &&& same_plan(*old(planner), *final(planner))
                &&& final(self).fill().handed_out() == final(self).fill().entries().len()
                &&& final(self).increases() == old(self).increases()
            },
            r != Err::<(), PlanError>(PlanError::NoCenterSpace) ==> {
                let p = final(self).fill().entries()[final(self).fill().handed_out() - 1].1;
                &&& final(self).fill().handed_out() > old(self).fill().handed_out()
                &&& xy_valid(p)
                &&& !old(planner).structures().contains_key(xy_key(p))
                &&& forall|i: int| old(self).fill().handed_out() <= i < final(self).fill().handed_out() - 1
                    ==> old(planner).structures().contains_key(xy_key(#[trigger] final(self).fill().entries()[i].1))
                &&& final(self).increases() == with_step(old(self).increases(), orth_neighbours(old(planner).terrain(), p, 8), step)
                &&& r == plan_structure_result(*old(planner), p, step, structure)
                &&& structure_planned(*old(planner), *final(planner), p, step, structure, r)
            },
    {
        match self.next_structure_pos(planner, step) {
            Err(e) => Err(e),
            Ok(p) => {
                let r = planner.plan_structure(p, step, structure);
                proof {
                    assert(r != Err::<(), PlanError>(PlanError::NoCenterSpace));
                }
                r
            },
        }
    }

    /// Plans the wanted roads: each tile wanted by three structures or more gets a
    /// road from the step of the third of them (in step order) on.
    pub fn plan_roads(self, planner: &mut ColonyPlanner)
        requires
            self.wf(),
            old(planner).wf(),
        ensures
            final(planner).wf(),
            final(planner).terrain() == old(planner).terrain(),
            final(planner).structures() == old(planner).structures(),
            final(planner).structure_steps() == old(planner).structure_steps(),
            final(planner).counts() == old(planner).counts(),
            (final(planner).roads(), final(planner).costs())
                == roads_from_wants(old(planner).roads(), old(planner).costs(), old(planner).structures(), self.wanted()),
    {
        let ghost es = self.wanted();
        proof {
            self.roads_utility_increases.lemma_wf();
        }
        let mut i: usize = 0;
        while i < self.roads_utility_increases.len()
            invariant
                self.wf(),
                es == self.wanted(),
                i <= es.len(),
                es.len() == self.roads_utility_increases.entries().len(),
                planner.wf(),
                planner.terrain() == old(planner).terrain(),
                planner.structures() == old(planner).structures(),
                planner.structure_steps() == old(planner).structure_steps(),
                planner.counts() == old(planner).counts(),
                (planner.roads(), planner.costs())
                    == roads_from_wants(old(planner).roads(), old(planner).costs(), old(planner).structures(), es.take(i as int)),
            decreases es.len() - i,
        {
            proof {
                self.roads_utility_increases.lemma_wf();
                assert(es.take(i as int + 1).drop_last() =~= es.take(i as int));
                assert(es.take(i as int + 1).last() == es[i as int]);
            }
            let k = self.roads_utility_increases.key_at(i);
            let v = self.roads_utility_increases.value_at(i);
            proof {
                assert(es[i as int] == (k, v@));
                assert(self.roads_utility_increases@.dom().contains(k));
            }
            match third_step(v) {
                Some(st) => {
                    let p = RoomXY { x: (k / 256) as u8, y: (k % 256) as u8 };
                    let ghost before = *planner;
                    planner.plan_road(p, st);
                    proof {
                        assert(p == key_xy(k));
                        assert(road_planned(before, *planner, p, st));
                    }
                },
                None => {},
            }
            i = i + 1;
        }
        proof {
            assert(es.take(i as int) =~= es);
        }
    }
}

/// The range between two tiles of a room: the larger of the distances along x and
/// along y.
pub open spec fn xy_range(a: RoomXY, b: RoomXY) -> nat {
    let dx = coord_dist(a.x, b.x);
    let dy = coord_dist(a.y, b.y);
    (if dx >= dy { dx } else { dy }) as nat
}

/// The range between two tiles of a room, as `RoomXY::get_range_to` measures it.
pub fn range_xy(a: RoomXY, b: RoomXY) -> (r: u8)
    ensures
        r == xy_range(a, b),
{
    let dx: u8 = if a.x >= b.x { a.x - b.x } else { b.x - a.x };
    let dy: u8 = if a.y >= b.y { a.y - b.y } else { b.y - a.y };
    if dx >= dy { dx } else { dy }
}

/// The sum of the ranges from `p` to each tower.
pub open spec fn range_sum(towers: Seq<RoomXY>, p: RoomXY) -> nat
    decreases towers.len(),
{
    if towers.len() == 0 {
        0
    } else {
        range_sum(towers.drop_last(), p) + xy_range(towers.last(), p)
    }
}

/// Tile `a` comes after tile `b` in the game's order of tiles: by y, then by x.
pub open spec fn xy_after(a: RoomXY, b: RoomXY) -> bool {
    a.y > b.y || (a.y == b.y && a.x > b.x)
}

/// The sum of the ranges from `p` to each tower.
fn tower_range_sum(towers: &Vec<RoomXY>, p: RoomXY) -> (r: u64)
    requires
        towers@.len() <= ROOM_AREA,
        xy_valid(p),
        forall|i: int| 0 <= i < towers@.len() ==> xy_valid(#[trigger] towers@[i]),
    ensures
        r == range_sum(towers@, p),
{
    let mut sum: u64 = 0;
    let mut j: usize = 0;
    while j < towers.len()
        invariant
            j <= towers@.len(),
            towers@.len() <= ROOM_AREA,
            xy_valid(p),
            forall|i: int| 0 <= i < towers@.len() ==> xy_valid(#[trigger] towers@[i]),
            sum == range_sum(towers@.take(j as int), p),
            sum <= 49 * j,
        decreases towers@.len() - j,
    {
        proof {
            assert(towers@.take(j as int + 1).drop_last() =~= towers@.take(j as int));
            assert(towers@.take(j as int + 1).last() == towers@[j as int]);
            assert(xy_valid(towers@[j as int]));
        }
        let r = range_xy(towers[j], p);
        sum = sum + r as u64;
        j = j + 1;
    }
    proof {
        assert(towers@.take(j as int) =~= towers@);
    }
    sum
}

/// Where the next tower goes among the available tiles: the one farthest from the
/// towers in all, by the sum of ranges, and among equals the last in the game's
/// order of tiles.
pub fn choose_tower(available: &Vec<RoomXY>, towers: &Vec<RoomXY>) -> (i: usize)
    requires
        available@.len() > 0,
        towers@.len() <= ROOM_AREA,
        forall|k: int| 0 <= k < available@.len() ==> xy_valid(#[trigger] available@[k]),
        forall|k: int| 0 <= k < towers@.len() ==> xy_valid(#[trigger] towers@[k]),
    ensures
        i < available@.len(),
        forall|j: int| 0 <= j < available@.len() ==> range_sum(towers@, #[trigger] available@[j]) <= range_sum(towers@, available@[i as int]),
        forall|j: int| 0 <= j < available@.len() && range_sum(towers@, #[trigger] available@[j]) == range_sum(towers@, available@[i as int])
            ==> !xy_after(available@[j], available@[i as int]),
{
    let mut best: usize = 0;
    let mut best_sum = tower_range_sum(towers, available[0]);
    let mut j: usize = 1;
    while j < available.len()
        invariant
            1 <= j <= available@.len(),
            best < j,
            towers@.len() <= ROOM_AREA,
            forall|k: int| 0 <= k < available@.len() ==> xy_valid(#[trigger] available@[k]),
            forall|k: int| 0 <= k < towers@.len() ==> xy_valid(#[trigger] towers@[k]),
            best_sum == range_sum(towers@, available@[best as int]),
            forall|k: int| 0 <= k < j ==> range_sum(towers@, #[trigger] available@[k]) <= best_sum,
            forall|k: int| 0 <= k < j && range_sum(towers@, #[trigger] available@[k]) == best_sum
                ==> !xy_after(available@[k], available@[best as int]),
        decreases available@.len() - j,
    {
        let here = tower_range_sum(towers, available[j]);
        let a = available[j];
        let b = available[best];
        if here > best_sum || (here == best_sum && (a.y > b.y || (a.y == b.y && a.x > b.x))) {
            best = j;
            best_sum = here;
        }
        j = j + 1;
    }
    best
}

/// `b` is `a` with structures added: the terrain and the roads are as they were,
/// every structure planned stays planned, and no count falls.
pub open spec fn planner_grew(a: ColonyPlanner, b: ColonyPlanner) -> bool {
    &&& b.terrain() == a.terrain()
    &&& b.roads() == a.roads()
    &&& forall|k: u64| #[trigger] a.structures().contains_key(k) ==> b.structures().contains_key(k)
        && b.structures()[k] == a.structures()[k]
    &&& b.counts().len() == a.counts().len()
    &&& forall|j: int| 0 <= j < a.counts().len() ==> #[trigger] a.counts()[j] <= b.counts()[j]
}

/// The tiles are distinct tiles of the room, none with a structure planned.
pub open spec fn fresh_tiles(pl: ColonyPlanner, s: Seq<RoomXY>) -> bool {
    &&& s.no_duplicates()
    &&& forall|k: int| 0 <= k < s.len() ==> xy_valid(#[trigger] s[k]) && !pl.structures().contains_key(xy_key(s[k]))
}

/// The center ran out of tiles: its fill handed out every entry.
pub open spec fn center_exhausted(f: FloodFill) -> bool {
    f.handed_out() == f.entries().len()
}

/// The center's own tile, where its fill starts, is a wall and is still to be
/// handed out.
pub open spec fn center_wall_untaken(f: FloodFill) -> bool {
    &&& f.handed_out() == 0
    &&& f.entries().len() > 0
    &&& f.spec_terrain()[tile_index(f.entries()[0].1)] == TerrainKind::Wall
}

/// Of the tiles `s`, taken from the center after fill `f0`, a wall can only be the
/// center's own tile, still to be handed out in `f0`.
pub open spec fn walls_only_center(f0: FloodFill, s: Seq<RoomXY>) -> bool {
    forall|k: int| 0 <= k < s.len() && f0.spec_terrain()[tile_index(#[trigger] s[k])] == TerrainKind::Wall
        ==> center_wall_untaken(f0) && s[k] == f0.entries()[0].1
}

/// Handing out more entries after more entries were handed out is handing them out.
proof fn lemma_advanced_trans(a: FloodFill, b: FloodFill, c: FloodFill)
    requires
        advanced(a, b),
        advanced(b, c),
    ensures
        advanced(a, c),
{
    assert(c.entries().subrange(0, a.entries().len() as int) =~= a.entries()) by {
        assert forall|i: int| 0 <= i < a.entries().len() implies c.entries()[i] == a.entries()[i] by {
            assert(c.entries().subrange(0, b.entries().len() as int)[i] == c.entries()[i]);
            assert(b.entries().subrange(0, a.entries().len() as int)[i] == b.entries()[i]);
        }
    }
}

/// A center tile that is a wall still to be handed out was so before too.
proof fn lemma_wall_untaken_before(a: FloodFill, b: FloodFill)
    requires
        a.wf(),
        a.seed_count() >= 1,
        advanced(a, b),
        center_wall_untaken(b),
    ensures
        center_wall_untaken(a),
{
    law_breadth_first(&a);
    assert(b.entries().subrange(0, a.entries().len() as int)[0] == b.entries()[0]);
}

/// A tile handed out from the center at or after entry `h0` that is a wall is the
/// center's own tile, and nothing had been handed out before it.
proof fn lemma_taken_wall(f0: FloodFill, f: FloodFill, i: int)
    requires
        f0.wf(),
        f.wf(),
        f0.seed_count() == 1,
        advanced(f0, f),
        f0.handed_out() <= i < f.entries().len(),
    ensures
        walls_only_center(f0, seq![f.entries()[i].1]),
{
    law_breadth_first(&f0);
    law_breadth_first(&f);
    let x = f.entries()[i].1;
    if f0.spec_terrain()[tile_index(x)] == TerrainKind::Wall {
        assert(i == 0);
        assert(f.entries().subrange(0, f0.entries().len() as int)[0] == f.entries()[0]);
    }
    assert(seq![x][0] == x);
}

/// Where the least number of structures of a kind left from a step on is not
/// zero, that step allows one more of them.
proof fn lemma_left_allows_one(counts: Seq<u32>, kind: StructureKind, step: ColonyStep)
    requires
        min_left_from(counts, kind, step_index(step)) > 0,
    ensures
        placed_by(counts, kind, step_index(step)) < structure_limit(kind, step_level(step) as u32),
{
    lemma_step_index_roundtrip(step);
}

/// Planning a structure on a fresh tile adds it, and one to its count.
proof fn lemma_fresh_planned(a: ColonyPlanner, b: ColonyPlanner, p: RoomXY, step: ColonyStep, s: PlannedStructure,
    r: Result<(), PlanError>)
    requires
        a.wf(),
        xy_valid(p),
        !a.structures().contains_key(xy_key(p)),
        r is Ok,
        structure_planned(a, b, p, step, s, r),
    ensures
        b.structures() == a.structures().insert(xy_key(p), s),
        b.counts() == a.counts().update(count_index(spec_structure_kind(s), step_index(step)),
            (a.counts()[count_index(spec_structure_kind(s), step_index(step))] + 1) as u32),
        planner_grew(a, b),
{
    a.lemma_plan_facts();
}

/// Planning a structure on one fresh tile leaves the others fresh.
proof fn lemma_fresh_rest(a: ColonyPlanner, b: ColonyPlanner, p: RoomXY, s: PlannedStructure, rest: Seq<RoomXY>)
    requires
        xy_valid(p),
        b.structures() == a.structures().insert(xy_key(p), s),
        fresh_tiles(a, rest),
        !rest.contains(p),
    ensures
        fresh_tiles(b, rest),
{
    assert forall|k: int| 0 <= k < rest.len() implies xy_valid(#[trigger] rest[k]) && !b.structures().contains_key(xy_key(rest[k])) by {
        assert(rest[k] != p);
        lemma_tiles_distinct(rest[k], p);
    }
}

/// Plans, for the controller level `level`, every extension and tower it still
/// allows at its first step: tiles are taken from the center, the towers placed
/// one by one where they are farthest from all towers, and the other tiles get
/// extensions. It fails where the center runs out of tiles, or where the
/// center's own tile, still to be handed out, is a wall.
fn plan_level(planner: &mut ColonyPlanner, center: &mut CenterPlanner, level: u8) -> (r: Result<(), PlanError>)
    requires
        old(planner).wf(),
        old(center).wf(),
        old(center).fill().spec_terrain() == old(planner).terrain(),
        1 <= level <= 8,
    ensures
        final(planner).wf(),
        final(center).wf(),
        final(center).fill().spec_terrain() == final(planner).terrain(),
        planner_grew(*old(planner), *final(planner)),
        advanced(old(center).fill(), final(center).fill()),
        r matches Err(e) ==> (e == PlanError::NoCenterSpace && center_exhausted(final(center).fill()))
            || ((e == PlanError::OnWall(PlannedStructure::Extension) || e == PlanError::OnWall(PlannedStructure::Tower))
                && center_wall_untaken(old(center).fill())),
        r is Ok ==> min_left_from(final(planner).counts(), StructureKind::Extension, step_index(spec_first_at_level(level as nat))) == 0,
        r is Ok ==> min_left_from(final(planner).counts(), StructureKind::Tower, step_index(spec_first_at_level(level as nat))) == 0,
{
    let step = ColonyStep::first_at_level(level);
    let ghost si = step_index(step);
    proof {
        lemma_step_index_roundtrip(step);
        planner.lemma_plan_facts();
    }
    let n_ext = planner.count_left_for(PlannedStructure::Extension, step);
    let n_tow = planner.count_left_for(PlannedStructure::Tower, step);
    let total: u64 = n_ext as u64 + n_tow as u64;
    let ghost p0 = *planner;
    let ghost f0 = center.fill();
    proof {
        assert(f0.entries().subrange(0, f0.entries().len() as int) =~= f0.entries());
    }
    // the tiles, each a distinct entry of the center's fill with no structure
    let mut available: Vec<RoomXY> = Vec::new();
    let ghost mut idxs: Seq<int> = Seq::empty();
    let mut c: u64 = 0;
    while c < total
        invariant
            c <= total,
            *planner == p0,
            p0.wf(),
            center.wf(),
            center.fill().spec_terrain() == p0.terrain(),
            f0 == old(center).fill(),
            f0.wf(),
            f0.seed_count() == 1,
            advanced(f0, center.fill()),
            available@.len() == c,
            idxs.len() == c,
            forall|k: int| 0 <= k < c ==> f0.handed_out() <= #[trigger] idxs[k] < center.fill().handed_out()
                && center.fill().entries()[idxs[k]].1 == available@[k],
            forall|k1: int, k2: int| 0 <= k1 < k2 < c ==> #[trigger] idxs[k1] < #[trigger] idxs[k2],
            forall|k: int| 0 <= k < c ==> xy_valid(#[trigger] available@[k]) && !p0.structures().contains_key(xy_key(available@[k])),
        decreases total - c,
    {
        let ghost fb = center.fill();
        match center.next_structure_pos(planner, step) {
            Err(e) => {
                proof {
                    lemma_advanced_trans(f0, fb, center.fill());
                }
                return Err(e);
            },
            Ok(p) => {
                proof {
                    lemma_advanced_trans(f0, fb, center.fill());
                    let h = center.fill().handed_out() - 1;
                    law_breadth_first(&fb);
                    assert forall|k: int| 0 <= k < c implies center.fill().entries()[idxs[k]] == fb.entries()[idxs[k]] by {
                        assert(idxs[k] < fb.entries().len());
                        assert(center.fill().entries().subrange(0, fb.entries().len() as int)[idxs[k]] == center.fill().entries()[idxs[k]]);
                    }
                    idxs = idxs.push(h);
                }
                available.push(p);
                c = c + 1;
            },
        }
    }
    proof {
        law_breadth_first(&center.flood_fill);
        assert(walls_only_center(f0, available@)) by {
            assert forall|k: int| 0 <= k < available@.len() && f0.spec_terrain()[tile_index(#[trigger] available@[k])] == TerrainKind::Wall
                implies center_wall_untaken(f0) && available@[k] == f0.entries()[0].1 by {
                lemma_taken_wall(f0, center.fill(), idxs[k]);
                assert(seq![center.fill().entries()[idxs[k]].1][0] == available@[k]);
            }
        }
        assert(available@.no_duplicates()) by {
            assert forall|k1: int, k2: int| 0 <= k1 < available@.len() && 0 <= k2 < available@.len() && k1 != k2
                implies available@[k1] != available@[k2] by {
                if k1 < k2 {
                    assert(idxs[k1] < idxs[k2]);
                    assert(center.fill().entries()[idxs[k1]].1 != center.fill().entries()[idxs[k2]].1);
                } else {
                    assert(idxs[k2] < idxs[k1]);
                    assert(center.fill().entries()[idxs[k2]].1 != center.fill().entries()[idxs[k1]].1);
                }
            }
        }
    }
    // the towers, one by one
    let mut towers = planner.get_structure_positions(PlannedStructure::Tower);
    let mut new_towers: Vec<RoomXY> = Vec::new();
    let mut t: u32 = 0;
    while t < n_tow
        invariant
            center.wf(),
            center.fill().spec_terrain() == p0.terrain(),
            *planner == p0,
            p0.wf(),
            t <= n_tow,
            available@.len() + t == total,
            total == n_ext + n_tow,
            new_towers@.len() == t,
            fresh_tiles(p0, available@ + new_towers@),
            f0 == old(center).fill(),
            advanced(f0, center.fill()),
            walls_only_center(f0, available@ + new_towers@),
            towers@.no_duplicates(),
            forall|k: int| 0 <= k < towers@.len() ==> xy_valid(#[trigger] towers@[k]),
            forall|k: int| 0 <= k < available@.len() ==> !towers@.contains(#[trigger] available@[k]),
        decreases n_tow - t,
    {
        proof {
            lemma_distinct_tiles_bounded(towers@);
            assert forall|k: int| 0 <= k < available@.len() implies xy_valid(#[trigger] available@[k]) by {
                assert((available@ + new_towers@)[k] == available@[k]);
            }
        }
        let i = choose_tower(&available, &towers);
        let ghost av = available@;
        let ghost nt = new_towers@;
        let tower = available.remove(i);
        towers.push(tower);
        new_towers.push(tower);
        proof {
            assert(available@ + new_towers@ =~= (av + nt).remove(i as int).push(av[i as int]));
            let all = av + nt;
            assert(all[i as int] == av[i as int]);
            assert((av + nt).remove(i as int).push(av[i as int]).no_duplicates()) by {
                let r = all.remove(i as int).push(all[i as int]);
                assert forall|a: int, b: int| 0 <= a < r.len() && 0 <= b < r.len() && a != b implies r[a] != r[b] by {
                    let ia = if a == r.len() - 1 { i as int } else if a < i { a } else { a + 1 };
                    let ib = if b == r.len() - 1 { i as int } else if b < i { b } else { b + 1 };
                    assert(r[a] == all[ia]);
                    assert(r[b] == all[ib]);
                }
            }
            assert forall|k: int| 0 <= k < (available@ + new_towers@).len() implies
                xy_valid(#[trigger] (available@ + new_towers@)[k]) && !p0.structures().contains_key(xy_key((available@ + new_towers@)[k])) by {
                let r = all.remove(i as int).push(all[i as int]);
                assert((available@ + new_towers@)[k] == r[k]);
                let ik = if k == r.len() - 1 { i as int } else if k < i { k } else { k + 1 };
                assert(r[k] == all[ik]);
            }
            assert forall|k: int| 0 <= k < (available@ + new_towers@).len()
                && f0.spec_terrain()[tile_index(#[trigger] (available@ + new_towers@)[k])] == TerrainKind::Wall
                implies center_wall_untaken(f0) && (available@ + new_towers@)[k] == f0.entries()[0].1 by {
                let r = all.remove(i as int).push(all[i as int]);
                assert((available@ + new_towers@)[k] == r[k]);
                let ik = if k == r.len() - 1 { i as int } else if k < i { k } else { k + 1 };
                assert(r[k] == all[ik]);
            }
            assert(towers@.no_duplicates()) by {
                assert(!towers@.drop_last().contains(tower));
                assert forall|a: int, b: int| 0 <= a < towers@.len() && 0 <= b < towers@.len() && a != b implies towers@[a] != towers@[b] by {
                    if a < towers@.len() - 1 && b < towers@.len() - 1 {
                        assert(towers@[a] == towers@.drop_last()[a]);
                        assert(towers@[b] == towers@.drop_last()[b]);
                    } else if a == towers@.len() - 1 {
                        assert(towers@.drop_last()[b] == towers@[b]);
                    } else {
                        assert(towers@.drop_last()[a] == towers@[a]);
                    }
                }
            }
            assert forall|k: int| 0 <= k < available@.len() implies !towers@.contains(#[trigger] available@[k]) by {
                let ik = if k < i { k } else { k + 1 };
                assert(available@[k] == av[ik]);
                assert(av[ik] != av[i as int]) by {
                    assert(all[ik] == av[ik]);
                }
                if towers@.contains(available@[k]) {
                    let w = choose|w: int| 0 <= w < towers@.len() && towers@[w] == available@[k];
                    if w < towers@.len() - 1 {
                        assert(towers@.drop_last()[w] == towers@[w]);
                        assert(towers@.drop_last().contains(av[ik]));
                    }
                }
            }
            assert forall|k: int| 0 <= k < towers@.len() implies xy_valid(#[trigger] towers@[k]) by {
                if k == towers@.len() - 1 {
                    assert(all[i as int] == av[i as int]);
                }
            }
        }
        t = t + 1;
    }
    // the extensions, then the new towers
    let ghost ci_ext = count_index(StructureKind::Extension, si as nat);
    let ghost ci_tow = count_index(StructureKind::Tower, si as nat);
    proof {
        assert(min_left_from(p0.counts(), StructureKind::Extension, si as nat) == n_ext);
        assert(min_left_from(p0.counts(), StructureKind::Tower, si as nat) == n_tow);
    }
    proof {
        assert(available@.skip(0) =~= available@);
    }
    let mut k: usize = 0;
    while k < available.len()
        invariant
            center.wf(),
            center.fill().spec_terrain() == p0.terrain(),
            k <= available@.len(),
            available@.len() == n_ext,
            new_towers@.len() == n_tow,
            planner.wf(),
            si == step_index(step),
            si < 18,
            planner_grew(p0, *planner),
            p0 == *old(planner),
            fresh_tiles(*planner, available@.skip(k as int) + new_towers@),
            f0 == old(center).fill(),
            f0.spec_terrain() == p0.terrain(),
            advanced(f0, center.fill()),
            walls_only_center(f0, available@.skip(k as int) + new_towers@),
            min_left_from(planner.counts(), StructureKind::Extension, si as nat) == n_ext - k,
            min_left_from(planner.counts(), StructureKind::Tower, si as nat) == n_tow,
        decreases available@.len() - k,
    {
        let p = available[k];
        let ghost before = *planner;
        let ghost rest = available@.skip(k as int + 1) + new_towers@;
        proof {
            assert((available@.skip(k as int) + new_towers@)[0] == p);
            assert(available@.skip(k as int) + new_towers@ =~= seq![p] + rest);
            assert(!rest.contains(p)) by {
                let all = available@.skip(k as int) + new_towers@;
                if rest.contains(p) {
                    let w = choose|w: int| 0 <= w < rest.len() && rest[w] == p;
                    assert(all[w + 1] == p);
                }
            }
            assert(fresh_tiles(before, rest)) by {
                let all = available@.skip(k as int) + new_towers@;
                assert forall|w: int| 0 <= w < rest.len() implies xy_valid(#[trigger] rest[w]) && !before.structures().contains_key(xy_key(rest[w])) by {
                    assert(rest[w] == all[w + 1]);
                }
                assert forall|a: int, b: int| 0 <= a < rest.len() && 0 <= b < rest.len() && a != b implies rest[a] != rest[b] by {
                    assert(rest[a] == all[a + 1]);
                    assert(rest[b] == all[b + 1]);
                }
            }
            assert(walls_only_center(f0, rest)) by {
                let all = available@.skip(k as int) + new_towers@;
                assert forall|w: int| 0 <= w < rest.len() && f0.spec_terrain()[tile_index(#[trigger] rest[w])] == TerrainKind::Wall
                    implies center_wall_untaken(f0) && rest[w] == f0.entries()[0].1 by {
                    assert(rest[w] == all[w + 1]);
                }
            }
            before.lemma_plan_facts();
        }
        match planner.plan_structure(p, step, PlannedStructure::Extension) {
            Err(e) => {
                proof {
                    assert(same_plan(before, *planner));
                    lemma_left_allows_one(before.counts(), StructureKind::Extension, step);
                    let all = available@.skip(k as int) + new_towers@;
                    assert(all[0] == p);
                }
                return Err(e);
            },
            Ok(()) => {},
        }
        proof {
            lemma_fresh_planned(before, *planner, p, step, PlannedStructure::Extension, Ok(()));
            lemma_fresh_rest(before, *planner, p, PlannedStructure::Extension, rest);
            lemma_min_left_after_one(before.counts(), StructureKind::Extension, si as nat, si as nat);
            lemma_min_left_other_kind(before.counts(), StructureKind::Extension, si as nat, StructureKind::Tower, si as nat);
            assert(available@.skip(k as int + 1) + new_towers@ == rest);
        }
        k = k + 1;
    }
    proof {
        assert(available@.skip(k as int) + new_towers@ =~= new_towers@);
        assert(new_towers@.skip(0) =~= new_towers@);
    }
    let mut w: usize = 0;
    while w < new_towers.len()
        invariant
            center.wf(),
            center.fill().spec_terrain() == p0.terrain(),
            w <= new_towers@.len(),
            new_towers@.len() == n_tow,
            planner.wf(),
            si == step_index(step),
            si < 18,
            planner_grew(p0, *planner),
            p0 == *old(planner),
            fresh_tiles(*planner, new_towers@.skip(w as int)),
            f0 == old(center).fill(),
            f0.spec_terrain() == p0.terrain(),
            advanced(f0, center.fill()),
            walls_only_center(f0, new_towers@.skip(w as int)),
            min_left_from(planner.counts(), StructureKind::Extension, si as nat) == 0,
            min_left_from(planner.counts(), StructureKind::Tower, si as nat) == n_tow - w,
        decreases new_towers@.len() - w,
    {
        let p = new_towers[w];
        let ghost before = *planner;
        let ghost rest = new_towers@.skip(w as int + 1);
        proof {
            let all = new_towers@.skip(w as int);
            assert(all[0] == p);
            assert(!rest.contains(p)) by {
                if rest.contains(p) {
                    let j = choose|j: int| 0 <= j < rest.len() && rest[j] == p;
                    assert(all[j + 1] == p);
                }
            }
            assert(fresh_tiles(before, rest)) by {
                assert forall|j: int| 0 <= j < rest.len() implies xy_valid(#[trigger] rest[j]) && !before.structures().contains_key(xy_key(rest[j])) by {
                    assert(rest[j] == all[j + 1]);
                }
                assert forall|a: int, b: int| 0 <= a < rest.len() && 0 <= b < rest.len() && a != b implies rest[a] != rest[b] by {
                    assert(rest[a] == all[a + 1]);
                    assert(rest[b] == all[b + 1]);
                }
            }
            assert(walls_only_center(f0, rest)) by {
                assert forall|j: int| 0 <= j < rest.len() && f0.spec_terrain()[tile_index(#[trigger] rest[j])] == TerrainKind::Wall
                    implies center_wall_untaken(f0) && rest[j] == f0.entries()[0].1 by {
                    assert(rest[j] == all[j + 1]);
                }
            }
            before.lemma_plan_facts();
        }
        match planner.plan_structure(p, step, PlannedStructure::Tower) {
            Err(e) => {
                proof {
                    assert(same_plan(before, *planner));
                    lemma_left_allows_one(before.counts(), StructureKind::Tower, step);
                    assert(new_towers@.skip(w as int)[0] == p);
                }
                return Err(e);
            },
            Ok(()) => {},
        }
        proof {
            lemma_fresh_planned(before, *planner, p, step, PlannedStructure::Tower, Ok(()));
            lemma_fresh_rest(before, *planner, p, PlannedStructure::Tower, rest);
            lemma_min_left_after_one(before.counts(), StructureKind::Tower, si as nat, si as nat);
            lemma_min_left_other_kind(before.counts(), StructureKind::Tower, si as nat, StructureKind::Extension, si as nat);
        }
        w = w + 1;
    }
    Ok(())
}

/// Every extension and tower that the controller level `level` allows is planned
/// by its first step.
pub open spec fn level_filled(pl: ColonyPlanner, level: nat) -> bool {
    &&& min_left_from(pl.counts(), StructureKind::Extension, step_index(spec_first_at_level(level))) == 0
    &&& min_left_from(pl.counts(), StructureKind::Tower, step_index(spec_first_at_level(level))) == 0
}

/// A filled level stays filled as structures are added.
proof fn lemma_filled_kept(a: ColonyPlanner, b: ColonyPlanner, level: nat)
    requires
        a.wf(),
        b.wf(),
        planner_grew(a, b),
        level_filled(a, level),
    ensures
        level_filled(b, level),
{
    a.lemma_plan_facts();
    b.lemma_plan_facts();
    lemma_step_index_roundtrip(spec_first_at_level(level));
    let i = step_index(spec_first_at_level(level));
    lemma_min_left_mono(a.counts(), b.counts(), StructureKind::Extension, i);
    lemma_min_left_mono(a.counts(), b.counts(), StructureKind::Tower, i);
}

/// Plans the extensions and towers of every controller level, from level 1 to 8,
/// each at the first step of its level and on tiles of the center, and before the
/// eighth level an observer on the next tile of the center.
///
/// It fails only where the center runs out of tiles, where the center's own
/// tile, still to be handed out, is a wall, or where the planner already has as
/// many observers planned by the eighth level's first step as that level allows.
///
/// Law: where this succeeds, every level has all the extensions and towers it
/// allows planned by its first step, and an observer is planned.
pub fn plan_extensions_towers_observer(planner: &mut ColonyPlanner, center: &mut CenterPlanner) -> (r: Result<(), PlanError>)
    requires
        old(planner).wf(),
        old(center).wf(),
        old(center).fill().spec_terrain() == old(planner).terrain(),
    ensures
        final(planner).wf(),
        final(center).wf(),
        final(center).fill().spec_terrain() == final(planner).terrain(),
        planner_grew(*old(planner), *final(planner)),
        advanced(old(center).fill(), final(center).fill()),
        r matches Err(e) ==> {
            ||| e == PlanError::NoCenterSpace && center_exhausted(final(center).fill())
            ||| (e == PlanError::OnWall(PlannedStructure::Extension) || e == PlanError::OnWall(PlannedStructure::Tower)
                || e == PlanError::OnWall(PlannedStructure::Observer)) && center_wall_untaken(old(center).fill())
            ||| e == PlanError::NoneLeft(PlannedStructure::Observer, ColonyStep::BuildLvl8)
                && placed_by(final(planner).counts(), StructureKind::Observer, step_index(ColonyStep::BuildLvl8))
                    >= structure_limit(StructureKind::Observer, step_level(ColonyStep::BuildLvl8) as u32)
        },
        r is Ok ==> forall|level: nat| 1 <= level <= 8 ==> #[trigger] level_filled(*final(planner), level),
        r is Ok ==> exists|k: u64| #[trigger] final(planner).structures().contains_key(k)
            && final(planner).structures()[k] == PlannedStructure::Observer,
{
    proof {
        assert(old(center).fill().entries().subrange(0, old(center).fill().entries().len() as int)
            =~= old(center).fill().entries());
    }
    let mut level: u8 = 1;
    while level <= 8
        invariant
            1 <= level <= 9,
            planner.wf(),
            center.wf(),
            center.fill().spec_terrain() == planner.terrain(),
            planner_grew(*old(planner), *planner),
            old(center).wf(),
            advanced(old(center).fill(), center.fill()),
            forall|l: nat| 1 <= l < level ==> #[trigger] level_filled(*planner, l),
            level > 8 ==> exists|k: u64| #[trigger] planner.structures().contains_key(k)
                && planner.structures()[k] == PlannedStructure::Observer,
        decreases 9 - level,
    {
        if level == 8 {
            let ghost before = *planner;
            let ghost cb = center.fill();
            match center.plan_structure(planner, ColonyStep::BuildLvl8, PlannedStructure::Observer) {
                Err(e) => {
                    proof {
                        assert(same_plan(before, *planner));
                        lemma_advanced_trans(old(center).fill(), cb, center.fill());
                        if e != PlanError::NoCenterSpace {
                            let f = center.fill();
                            let h = f.handed_out() - 1;
                            law_breadth_first(&f);
                            if e matches PlanError::OnWall(_) {
                                lemma_taken_wall(cb, f, h);
                                assert(seq![f.entries()[h].1][0] == f.entries()[h].1);
                                lemma_wall_untaken_before(old(center).fill(), cb);
                            }
                        }
                    }
                    return Err(e);
                },
                Ok(()) => {},
            }
            proof {
                lemma_advanced_trans(old(center).fill(), cb, center.fill());
                let p = center.fill().entries()[center.fill().handed_out() - 1].1;
                lemma_fresh_planned(before, *planner, p, ColonyStep::BuildLvl8, PlannedStructure::Observer, Ok(()));
                assert(planner.structures().contains_key(xy_key(p)));
                assert forall|l: nat| 1 <= l < level implies #[trigger] level_filled(*planner, l) by {
                    lemma_filled_kept(before, *planner, l);
                }
            }
        }
        let ghost before = *planner;
        let ghost cb = center.fill();
        match plan_level(planner, center, level) {
            Err(e) => {
                proof {
                    lemma_advanced_trans(old(center).fill(), cb, center.fill());
                    if e != PlanError::NoCenterSpace {
                        lemma_wall_untaken_before(old(center).fill(), cb);
                    }
                }
                return Err(e);
            },
            Ok(()) => {},
        }
        proof {
            lemma_advanced_trans(old(center).fill(), cb, center.fill());
            assert forall|l: nat| 1 <= l < level + 1 implies #[trigger] level_filled(*planner, l) by {
                if l < level {
                    lemma_filled_kept(before, *planner, l);
                }
            }
            if level == 8 {
                let k = choose|k: u64| #[trigger] before.structures().contains_key(k)
                    && before.structures()[k] == PlannedStructure::Observer;
                assert(planner.structures().contains_key(k));
            }
        }
        level = level + 1;
    }
    Ok(())
}

/// `b` and `pb` are the center planner `a` and the planner `pa` after planning
/// `s` from `step` on at the next tile of the center, with result `r` (as
/// `CenterPlanner::plan_structure` gives it).
pub open spec fn center_planned(a: CenterPlanner, pa: ColonyPlanner, b: CenterPlanner, pb: ColonyPlanner,
    step: ColonyStep, s: PlannedStructure, r: Result<(), PlanError>) -> bool {
    &&& b.wf()
    &&& pb.wf()
    &&& b.fill().spec_terrain() == pb.terrain()
    &&& advanced(a.fill(), b.fill())
    &&& r == Err::<(), PlanError>(PlanError::NoCenterSpace) ==> {
        &&& same_plan(pa, pb)
        &&& b.fill().handed_out() == b.fill().entries().len()
        &&& b.increases() == a.increases()
    }
    &&& r != Err::<(), PlanError>(PlanError::NoCenterSpace) ==> {
        let p = b.fill().entries()[b.fill().handed_out() - 1].1;
        &&& b.fill().handed_out() > a.fill().handed_out()
        &&& xy_valid(p)
        &&& !pa.structures().contains_key(xy_key(p))
        &&& forall|i: int| a.fill().handed_out() <= i < b.fill().handed_out() - 1
            ==> pa.structures().contains_key(xy_key(#[trigger] b.fill().entries()[i].1))
        &&& b.increases() == with_step(a.increases(), orth_neighbours(pa.terrain(), p, 8), step)
        &&& r == plan_structure_result(pa, p, step, s)
        &&& structure_planned(pa, pb, p, step, s, r)
    }
}

/// The structures planned around the center, in order, each with its step.
pub open spec fn center_order() -> Seq<(ColonyStep, PlannedStructure)> {
    seq![
        (ColonyStep::BuildLvl4, PlannedStructure::Storage),
        (ColonyStep::BuildSpawn, PlannedStructure::MainSpawn),
        (ColonyStep::BuildLvl5, PlannedStructure::CentralLink),
        (ColonyStep::BuildLvl6, PlannedStructure::Terminal),
        (ColonyStep::BuildLvl3, PlannedStructure::Tower),
    ]
}

/// The center planners and planners `cs` and `ps` go from their first through the
/// first `n` structures of `center_order`, each planned with success.
pub open spec fn center_run(cs: Seq<CenterPlanner>, ps: Seq<ColonyPlanner>, n: int) -> bool {
    &&& cs.len() == n + 1
    &&& ps.len() == n + 1
    &&& forall|i: int| 0 <= i < n ==> #[trigger] center_planned(cs[i], ps[i], cs[i + 1], ps[i + 1],
        center_order()[i].0, center_order()[i].1, Ok(()))
}

/// `b`, with center planner `c`, is `a` after the core of a colony's center was
/// planned around `center`: a container for storage on the tile right of it from
/// the step that builds the buffer, then a fresh center planner (see
/// `CenterPlanner::new`) planning the structures of `center_order` in turn; the
/// first failure ends it and gives `r`.
pub open spec fn center_core_planned(a: ColonyPlanner, b: ColonyPlanner, center: RoomXY, c: Option<CenterPlanner>,
    r: Result<(), PlanError>) -> bool {
    let right = RoomXY { x: (center.x + 1) as u8, y: center.y };
    let s0 = PlannedStructure::ContainerStorage;
    let step0 = ColonyStep::BuildBufferAndSourceContainers;
    exists|p1: ColonyPlanner| #[trigger] structure_planned(a, p1, right, step0, s0, plan_structure_result(a, right, step0, s0))
        && match plan_structure_result(a, right, step0, s0) {
            Err(e) => r == Err::<(), PlanError>(e) && same_plan(p1, b) && c is None,
            Ok(()) => exists|cs: Seq<CenterPlanner>, ps: Seq<ColonyPlanner>, n: int| #[trigger] center_run(cs, ps, n)
                && 0 <= n <= 5 && ps[0] == p1
                && cs[0].wf() && cs[0].fill().entries() == seq![(0usize, center)] && cs[0].fill().handed_out() == 0
                && cs[0].fill().seed_count() == 1 && cs[0].fill().spec_terrain() == p1.terrain()
                && cs[0].fill().spec_spread() == Spread::Diagonal
                && cs[0].increases() == Map::<u64, Seq<ColonyStep>>::empty()
                && if n == 5 {
                    r is Ok && same_plan(ps[5], b) && c == Some(cs[5])
                } else {
                    exists|cb: CenterPlanner, e: PlanError| #[trigger] center_planned(cs[n], ps[n], cb, b,
                        center_order()[n].0, center_order()[n].1, Err(e)) && r == Err::<(), PlanError>(e) && c is None
                },
        }
}

/// Plans the core of a colony's center (see `center_core_planned`) and gives the
/// center planner for what comes after.
pub fn plan_center_core(planner: &mut ColonyPlanner, center: RoomXY) -> (r: Result<CenterPlanner, PlanError>)
    requires
        old(planner).wf(),
        xy_valid(center),
        center.x < 49,
    ensures
        final(planner).wf(),
        center_core_planned(*old(planner), *final(planner), center,
            match r { Ok(c) => Some(c), Err(_) => None },
            match r { Ok(_) => Ok(()), Err(e) => Err(e) }),
        r matches Ok(c) ==> c.wf() && c.fill().spec_terrain() == final(planner).terrain(),
{
    let ghost a = *planner;
    let right = RoomXY { x: center.x + 1, y: center.y };
    let r0 = planner.plan_structure(right, ColonyStep::BuildBufferAndSourceContainers, PlannedStructure::ContainerStorage);
    let ghost p1 = *planner;
    if let Err(e) = r0 {
        return Err(e);
    }
    let mut c = CenterPlanner::new(planner, center);
    let ghost mut cs: Seq<CenterPlanner> = seq![c];
    let ghost mut ps: Seq<ColonyPlanner> = seq![p1];
    let order: [(ColonyStep, PlannedStructure); 5] = [
        (ColonyStep::BuildLvl4, PlannedStructure::Storage),
        (ColonyStep::BuildSpawn, PlannedStructure::MainSpawn),
        (ColonyStep::BuildLvl5, PlannedStructure::CentralLink),
        (ColonyStep::BuildLvl6, PlannedStructure::Terminal),
        (ColonyStep::BuildLvl3, PlannedStructure::Tower),
    ];
    proof {
        assert(order@ =~= center_order());
        assert(center_run(cs, ps, 0));
    }
    let mut i: usize = 0;
    while i < 5
        invariant
            i <= 5,
            order@ == center_order(),
            planner.wf(),
            c.wf(),
            c.fill().spec_terrain() == planner.terrain(),
            center_run(cs, ps, i as int),
            cs.last() == c,
            ps.last() == *planner,
            ps[0] == p1,
            cs[0].wf() && cs[0].fill().entries() == seq![(0usize, center)] && cs[0].fill().handed_out() == 0
                && cs[0].fill().seed_count() == 1 && cs[0].fill().spec_terrain() == p1.terrain()
                && cs[0].fill().spec_spread() == Spread::Diagonal
                && cs[0].increases() == Map::<u64, Seq<ColonyStep>>::empty(),
            a == *old(planner),
            structure_planned(a, p1, RoomXY { x: (center.x + 1) as u8, y: center.y }, ColonyStep::BuildBufferAndSourceContainers,
                PlannedStructure::ContainerStorage, plan_structure_result(a, RoomXY { x: (center.x + 1) as u8, y: center.y },
                ColonyStep::BuildBufferAndSourceContainers, PlannedStructure::ContainerStorage)),
            plan_structure_result(a, RoomXY { x: (center.x + 1) as u8, y: center.y }, ColonyStep::BuildBufferAndSourceContainers,
                PlannedStructure::ContainerStorage) is Ok,
        decreases 5 - i,
    {
        let (step, s) = order[i];
        let ghost c0 = c;
        let ghost pl0 = *planner;
        let res = c.plan_structure(planner, step, s);
        proof {
            assert(center_planned(c0, pl0, c, *planner, step, s, res));
        }
        if let Err(e) = res {
            proof {
                assert(center_planned(cs[i as int], ps[i as int], c, *planner, center_order()[i as int].0, center_order()[i as int].1, Err(e)));
            }
            return Err(e);
        }
        proof {
            let cs0 = cs;
            let ps0 = ps;
            cs = cs.push(c);
            ps = ps.push(*planner);
            assert forall|j: int| 0 <= j < i + 1 implies #[trigger] center_planned(cs[j], ps[j], cs[j + 1], ps[j + 1],
                center_order()[j].0, center_order()[j].1, Ok(())) by {
                if j < i {
                    assert(cs[j] == cs0[j] && cs[j + 1] == cs0[j + 1] && ps[j] == ps0[j] && ps[j + 1] == ps0[j + 1]);
                    assert(center_planned(cs0[j], ps0[j], cs0[j + 1], ps0[j + 1], center_order()[j].0, center_order()[j].1, Ok(())));
                }
            }
        }
        i = i + 1;
    }
    Ok(c)
}

} // verus!
