//! The layout around each energy source: a container on the first tile of the
//! path from the source to the center, a spawn on the second, a link and
//! extensions on the free tiles around the container, and roads under the two.
use vstd::prelude::*;
use crate::floodfill::{spec_step, step_towards};
use crate::planner::{
    ColonyPlanner, PlanError, PlannedStructure, RoomXY, TerrainKind, earliest_step, plan_structure_result,
    road_planned, same_plan, spec_structure_kind, structure_planned, tile_index, xy_key, xy_valid,
};
use crate::steps::{ColonyStep, step_index};

verus! {

/// `b` is `a` after planning `s` on `p` from the earliest step that allows it,
/// with result `r`.
pub open spec fn earliest_planned(a: ColonyPlanner, b: ColonyPlanner, p: RoomXY, s: PlannedStructure,
    r: Result<ColonyStep, PlanError>) -> bool {
    match earliest_step(a.counts(), spec_structure_kind(s)) {
        None => r == Err::<ColonyStep, PlanError>(PlanError::NoneBuildable(s)) && same_plan(a, b),
        Some(step) => {
            let res = plan_structure_result(a, p, step, s);
            &&& structure_planned(a, b, p, step, s, res)
            &&& r == match res {
                Ok(()) => Ok::<ColonyStep, PlanError>(step),
                Err(e) => Err(e),
            }
        },
    }
}

/// The tile is no wall and has no structure planned.
pub open spec fn free_in(pl: ColonyPlanner, q: RoomXY) -> bool {
    pl.terrain()[tile_index(q)] != TerrainKind::Wall && !pl.structures().contains_key(xy_key(q))
}

/// The free neighbours of `e` other than `m`, among the first `d` directions
/// (clockwise from the top).
pub open spec fn slots_upto(pl: ColonyPlanner, e: RoomXY, m: RoomXY, d: nat) -> Seq<RoomXY>
    decreases d,
{
    if d == 0 {
        Seq::empty()
    } else {
        let before = slots_upto(pl, e, m, (d - 1) as nat);
        match spec_step(e, d - 1) {
            Some(q) => if free_in(pl, q) && q != m { before.push(q) } else { before },
            None => before,
        }
    }
}

/// Extensions of the source planned on each of the slots in turn, from `a` to
/// `b`, all with success.
pub open spec fn extensions_done(a: ColonyPlanner, b: ColonyPlanner, slots: Seq<RoomXY>, id: u64) -> bool
    decreases slots.len(),
{
    if slots.len() == 0 {
        same_plan(a, b)
    } else {
        exists|m: ColonyPlanner, st: ColonyStep| extensions_done(a, m, slots.drop_last(), id)
            && #[trigger] earliest_planned(m, b, slots.last(), PlannedStructure::SourceExtension(id), Ok(st))
    }
}

/// Extensions planned on the slots from `a` to `b` with result `r`: all of them,
/// or those before the one that failed, which gives the error.
pub open spec fn extensions_planned(a: ColonyPlanner, b: ColonyPlanner, slots: Seq<RoomXY>, id: u64,
    r: Result<(), PlanError>) -> bool {
    match r {
        Ok(()) => extensions_done(a, b, slots, id),
        Err(e) => exists|i: int, m: ColonyPlanner| 0 <= i < slots.len() && extensions_done(a, m, slots.take(i), id)
            && #[trigger] earliest_planned(m, b, slots[i], PlannedStructure::SourceExtension(id), Err(e)),
    }
}

/// The link, then the extensions, on the slots, from `a` to `b`, giving `r`.
pub open spec fn slots_planned(a: ColonyPlanner, b: ColonyPlanner, slots: Seq<RoomXY>, id: u64, m: RoomXY,
    r: Result<RoomXY, PlanError>) -> bool {
    if slots.len() == 0 {
        r == Err::<RoomXY, PlanError>(PlanError::NoLinkSlot) && same_plan(a, b)
    } else {
        exists|p: ColonyPlanner, rl: Result<ColonyStep, PlanError>| #[trigger] earliest_planned(a, p, slots[0], PlannedStructure::SourceLink(id), rl)
            && match rl {
                Err(e) => r == Err::<RoomXY, PlanError>(e) && same_plan(p, b),
                Ok(_) => exists|re: Result<(), PlanError>| #[trigger] extensions_planned(p, b, slots.drop_first(), id, re)
                    && r == match re { Ok(()) => Ok::<RoomXY, PlanError>(m), Err(e) => Err(e) },
            }
    }
}

/// The main road and the spawn on the second tile `m` of the path, then the
/// slots around the container on `e`, from `a` to `b`, giving `r`.
pub open spec fn spawn_and_slots_planned(a: ColonyPlanner, b: ColonyPlanner, e: RoomXY, m: RoomXY, id: u64,
    r: Result<RoomXY, PlanError>) -> bool {
    let slots = slots_upto(a, e, m, 8);
    exists|p1: ColonyPlanner, p2: ColonyPlanner, rs: Result<ColonyStep, PlanError>|
        road_planned(a, p1, m, ColonyStep::BuildArterialRoads)
        && #[trigger] earliest_planned(p1, p2, m, PlannedStructure::SourceSpawn(id), rs)
        && match rs {
            Err(e) => r == Err::<RoomXY, PlanError>(e) && same_plan(p2, b),
            Ok(_) => slots_planned(p2, b, slots, id, m, r),
        }
}

/// `b` is `a` after planning around the source `id` along `path`, the path from
/// the source towards the center, with result `r`: the tile beside the source gets
/// a road and the source's container, the next one a road and the source's spawn,
/// the free tiles around the container (but that one) the link and then
/// extensions; the first failure ends it. `r` gives the spawn's tile.
pub open spec fn source_planned(a: ColonyPlanner, b: ColonyPlanner, path: Seq<RoomXY>, id: u64,
    r: Result<RoomXY, PlanError>) -> bool {
    if path.len() == 0 {
        r == Err::<RoomXY, PlanError>(PlanError::EmptyPath) && same_plan(a, b)
    } else {
        let e = path[0];
        let s = PlannedStructure::SourceContainer(id);
        exists|p1: ColonyPlanner, p2: ColonyPlanner| road_planned(a, p1, e, ColonyStep::BuildArterialRoads)
            && #[trigger] structure_planned(p1, p2, e, ColonyStep::BuildBufferAndSourceContainers, s,
                plan_structure_result(p1, e, ColonyStep::BuildBufferAndSourceContainers, s))
            && match plan_structure_result(p1, e, ColonyStep::BuildBufferAndSourceContainers, s) {
                Err(err) => r == Err::<RoomXY, PlanError>(err) && same_plan(p2, b),
                Ok(()) => if path.len() < 2 {
                    r == Err::<RoomXY, PlanError>(PlanError::ShortPath) && same_plan(p2, b)
                } else {
                    spawn_and_slots_planned(p2, b, e, path[1], id, r)
                },
            }
    }
}

/// The free neighbours of `e` other than `m`, clockwise from the top.
fn free_slots(planner: &ColonyPlanner, e: RoomXY, m: RoomXY) -> (r: Vec<RoomXY>)
    requires
        planner.wf(),
        xy_valid(e),
    ensures
        r@ == slots_upto(*planner, e, m, 8),
        forall|i: int| 0 <= i < r@.len() ==> xy_valid(#[trigger] r@[i]),
{
    let mut r: Vec<RoomXY> = Vec::new();
    let mut d: u8 = 0;
    while d < 8
        invariant
            planner.wf(),
            xy_valid(e),
            d <= 8,
            r@ == slots_upto(*planner, e, m, d as nat),
            forall|i: int| 0 <= i < r@.len() ==> xy_valid(#[trigger] r@[i]),
        decreases 8 - d,
    {
        if let Some(q) = step_towards(e, d) {
            if planner.is_free_at(q) && q != m {
                r.push(q);
            }
        }
        d = d + 1;
    }
    r
}

/// Plans extensions of the source on the slots after the first, in turn, until
/// one fails.
fn plan_extensions(planner: &mut ColonyPlanner, slots: &Vec<RoomXY>, id: u64) -> (r: Result<(), PlanError>)
    requires
        old(planner).wf(),
        slots@.len() > 0,
        forall|i: int| 0 <= i < slots@.len() ==> xy_valid(#[trigger] slots@[i]),
    ensures
        final(planner).wf(),
        extensions_planned(*old(planner), *final(planner), slots@.drop_first(), id, r),
{
    let ghost a = *planner;
    let ghost rest = slots@.drop_first();
    let mut j: usize = 1;
    proof {
        assert(rest.take(0) =~= Seq::<RoomXY>::empty());
    }
    while j < slots.len()
        invariant
            planner.wf(),
            a == *old(planner),
            1 <= j <= slots@.len(),
            rest == slots@.drop_first(),
            forall|i: int| 0 <= i < slots@.len() ==> xy_valid(#[trigger] slots@[i]),
            extensions_done(a, *planner, rest.take(j - 1), id),
        decreases slots@.len() - j,
    {
        let ghost prev = *planner;
        let q = slots[j];
        proof {
            assert(rest[j - 1] == q);
        }
        match planner.plan_structure_earliest(q, PlannedStructure::SourceExtension(id)) {
            Ok(st) => {
                proof {
                    let t = rest.take(j as int);
                    assert(t.drop_last() =~= rest.take(j - 1));
                    assert(t.last() == q);
                    assert(earliest_planned(prev, *planner, t.last(), PlannedStructure::SourceExtension(id), Ok(st)));
                }
            }
            Err(e) => {
                proof {
                    assert(earliest_planned(prev, *planner, rest[j - 1], PlannedStructure::SourceExtension(id), Err(e)));
                }
                return Err(e);
            }
        }
        j = j + 1;
    }
    proof {
        assert(rest.take(j - 1) =~= rest);
    }
    Ok(())
}

/// Plans around the source `id` along `path`, the path from the source towards
/// the center, and gives the tile of the source's spawn (see `source_planned`).
pub fn plan_source(planner: &mut ColonyPlanner, path: &Vec<RoomXY>, id: u64) -> (r: Result<RoomXY, PlanError>)
    requires
        old(planner).wf(),
        path@.len() > 0 ==> xy_valid(path@[0]),
        path@.len() > 1 ==> xy_valid(path@[1]),
    ensures
        final(planner).wf(),
        source_planned(*old(planner), *final(planner), path@, id, r),
{
    if path.len() == 0 {
        return Err(PlanError::EmptyPath);
    }
    let e = path[0];
    let container = PlannedStructure::SourceContainer(id);
    planner.plan_road(e, ColonyStep::BuildArterialRoads);
    let ghost p1 = *planner;
    let rc = planner.plan_structure(e, ColonyStep::BuildBufferAndSourceContainers, container);
    let ghost p2 = *planner;
    proof {
        assert(structure_planned(p1, p2, e, ColonyStep::BuildBufferAndSourceContainers, container,
            plan_structure_result(p1, e, ColonyStep::BuildBufferAndSourceContainers, container)));
    }
    if let Err(err) = rc {
        return Err(err);
    }
    if path.len() < 2 {
        return Err(PlanError::ShortPath);
    }
    let m = path[1];
    let slots = free_slots(planner, e, m);
    planner.plan_road(m, ColonyStep::BuildArterialRoads);
    let ghost p3 = *planner;
    let rs = planner.plan_structure_earliest(m, PlannedStructure::SourceSpawn(id));
    let ghost p4 = *planner;
    proof {
        assert(earliest_planned(p3, p4, m, PlannedStructure::SourceSpawn(id), rs));
    }
    if let Err(err) = rs {
        return Err(err);
    }
    if slots.len() == 0 {
        return Err(PlanError::NoLinkSlot);
    }
    let rl = planner.plan_structure_earliest(slots[0], PlannedStructure::SourceLink(id));
    let ghost p5 = *planner;
    proof {
        assert(earliest_planned(p4, p5, slots@[0], PlannedStructure::SourceLink(id), rl));
    }
    if let Err(err) = rl {
        return Err(err);
    }
    let re = plan_extensions(planner, &slots, id);
    proof {
        assert(extensions_planned(p5, *planner, slots@.drop_first(), id, re));
    }
    match re {
        Ok(()) => Ok(m),
        Err(err) => Err(err),
    }
}

/// The first neighbour of `p`, clockwise from the top, with a planned road, among
/// the first `d` directions.
pub open spec fn road_beside_upto(pl: ColonyPlanner, p: RoomXY, d: nat) -> Option<RoomXY>
    decreases d,
{
    if d == 0 {
        None
    } else {
        match road_beside_upto(pl, p, (d - 1) as nat) {
            Some(q) => Some(q),
            None => match spec_step(p, d - 1) {
                Some(q) => if pl.roads().contains_key(xy_key(q)) { Some(q) } else { None },
                None => None,
            },
        }
    }
}

/// The first neighbour of `p`, clockwise from the top, with a planned road: the
/// tile for a mineral's container.
pub fn road_beside(planner: &ColonyPlanner, p: RoomXY) -> (r: Option<RoomXY>)
    requires
        planner.wf(),
        xy_valid(p),
    ensures
        r == road_beside_upto(*planner, p, 8),
{
    let mut d: u8 = 0;
    while d < 8
        invariant
            planner.wf(),
            xy_valid(p),
            d <= 8,
            road_beside_upto(*planner, p, d as nat) is None,
        decreases 8 - d,
    {
        if let Some(q) = step_towards(p, d) {
            if planner.road_at(q).is_some() {
                proof {
                    assert(road_beside_upto(*planner, p, (d + 1) as nat) == Some(q));
                    lemma_road_beside_found(*planner, p, (d + 1) as nat, q);
                }
                return Some(q);
            }
        }
        d = d + 1;
    }
    None
}

/// Once found, the first neighbour with a road stays the one found.
proof fn lemma_road_beside_found(pl: ColonyPlanner, p: RoomXY, d: nat, q: RoomXY)
    requires
        d <= 8,
        road_beside_upto(pl, p, d) == Some(q),
    ensures
        road_beside_upto(pl, p, 8) == Some(q),
    decreases 8 - d,
{
    if d < 8 {
        lemma_road_beside_found(pl, p, d + 1, q);
    }
}

/// The structures and their steps are recorded on the same tiles.
pub open spec fn doms_agree(p: ColonyPlanner) -> bool {
    p.structure_steps().dom() == p.structures().dom()
}

/// Planning a structure with success records it on its tile, and nothing else.
proof fn lemma_structure_planned_ok(a: ColonyPlanner, b: ColonyPlanner, q: RoomXY, step: ColonyStep, s: PlannedStructure)
    requires
        doms_agree(a),
        plan_structure_result(a, q, step, s) is Ok,
        structure_planned(a, b, q, step, s, plan_structure_result(a, q, step, s)),
    ensures
        doms_agree(b),
        b.structures() == a.structures().insert(xy_key(q), s),
        b.roads() == a.roads(),
{
    let k = xy_key(q);
    if a.structure_steps().contains_key(k) && step_index(step) >= step_index(a.structure_steps()[k]) {
        assert(a.structures().contains_key(k));
        assert(a.structures()[k] == s);
        assert(a.structures().insert(k, s) =~= a.structures());
    } else {
        assert(b.structure_steps().dom() =~= b.structures().dom());
    }
}

/// Planning a structure at the earliest step with success records it on its tile,
/// and nothing else.
proof fn lemma_earliest_ok(a: ColonyPlanner, b: ColonyPlanner, q: RoomXY, s: PlannedStructure, st: ColonyStep)
    requires
        doms_agree(a),
        earliest_planned(a, b, q, s, Ok(st)),
    ensures
        doms_agree(b),
        b.structures() == a.structures().insert(xy_key(q), s),
        b.roads() == a.roads(),
{
    match earliest_step(a.counts(), spec_structure_kind(s)) {
        None => {},
        Some(step) => {
            lemma_structure_planned_ok(a, b, q, step, s);
        },
    }
}

/// Extensions planned with success on the slots change no structure off them, and
/// no road.
proof fn lemma_extensions_keep(a: ColonyPlanner, b: ColonyPlanner, slots: Seq<RoomXY>, id: u64, k: u64)
    requires
        doms_agree(a),
        extensions_done(a, b, slots, id),
        forall|j: int| 0 <= j < slots.len() ==> xy_key(#[trigger] slots[j]) != k,
    ensures
        doms_agree(b),
        b.roads() == a.roads(),
        a.structures().contains_key(k) ==> b.structures().contains_key(k) && b.structures()[k] == a.structures()[k],
    decreases slots.len(),
{
    if slots.len() > 0 {
        let (m, st) = choose|m: ColonyPlanner, st: ColonyStep| extensions_done(a, m, slots.drop_last(), id)
            && #[trigger] earliest_planned(m, b, slots.last(), PlannedStructure::SourceExtension(id), Ok(st));
        assert forall|j: int| 0 <= j < slots.drop_last().len() implies xy_key(#[trigger] slots.drop_last()[j]) != k by {
            assert(slots.drop_last()[j] == slots[j]);
        }
        lemma_extensions_keep(a, m, slots.drop_last(), id, k);
        lemma_earliest_ok(m, b, slots.last(), PlannedStructure::SourceExtension(id), st);
        assert(xy_key(slots[slots.len() - 1]) != k);
    }
}

/// Every slot is a free tile of the room other than `m`.
proof fn lemma_slots_free(pl: ColonyPlanner, e: RoomXY, m: RoomXY, d: nat)
    requires
        xy_valid(e),
    ensures
        forall|j: int| 0 <= j < slots_upto(pl, e, m, d).len() ==> xy_valid(#[trigger] slots_upto(pl, e, m, d)[j])
            && free_in(pl, slots_upto(pl, e, m, d)[j]) && slots_upto(pl, e, m, d)[j] != m,
    decreases d,
{
    if d > 0 {
        lemma_slots_free(pl, e, m, (d - 1) as nat);
        let before = slots_upto(pl, e, m, (d - 1) as nat);
        let now = slots_upto(pl, e, m, d);
        assert forall|j: int| 0 <= j < now.len() implies xy_valid(#[trigger] now[j]) && free_in(pl, now[j]) && now[j] != m by {
            if j < before.len() {
                match spec_step(e, d - 1) {
                    Some(q) => {
                        if free_in(pl, q) && q != m {
                            assert(now[j] == before.push(q)[j]);
                        }
                    },
                    None => {},
                }
                assert(now[j] == before[j]);
            } else {
                let q = spec_step(e, d - 1).unwrap();
                assert(now[j] == q);
            }
        }
    }
}

/// Tiles of the room have distinct keys.
proof fn lemma_keys_differ(p: RoomXY, q: RoomXY)
    requires
        xy_valid(p),
        xy_valid(q),
        p != q,
    ensures
        xy_key(p) != xy_key(q),
{
    if xy_key(p) == xy_key(q) {
        assert(p.x == q.x && p.y == q.y) by (nonlinear_arith)
            requires
                p.x < 50, q.x < 50, p.y < 50, q.y < 50,
                p.x * 256 + p.y == q.x * 256 + q.y;
    }
}

/// Law: where planning around a source succeeds, the source's container stands on
/// the first tile of the path and its spawn on the second, both on planned roads,
/// and the spawn's tile is what it gives.
pub proof fn law_source_layout(a: ColonyPlanner, b: ColonyPlanner, path: Seq<RoomXY>, id: u64, r: Result<RoomXY, PlanError>)
    requires
        a.wf(),
        path.len() > 0 ==> xy_valid(path[0]),
        path.len() > 1 ==> xy_valid(path[1]),
        source_planned(a, b, path, id, r),
        r is Ok,
    ensures
        path.len() >= 2,
        r == Ok::<RoomXY, PlanError>(path[1]),
        b.structures().contains_key(xy_key(path[0])) && b.structures()[xy_key(path[0])] == PlannedStructure::SourceContainer(id),
        b.structures().contains_key(xy_key(path[1])) && b.structures()[xy_key(path[1])] == PlannedStructure::SourceSpawn(id),
        b.roads().contains_key(xy_key(path[0])),
        b.roads().contains_key(xy_key(path[1])),
{
    let e = path[0];
    let s0 = PlannedStructure::SourceContainer(id);
    let step0 = ColonyStep::BuildBufferAndSourceContainers;
    let (p1, p2) = choose|p1: ColonyPlanner, p2: ColonyPlanner| road_planned(a, p1, e, ColonyStep::BuildArterialRoads)
        && #[trigger] structure_planned(p1, p2, e, step0, s0, plan_structure_result(p1, e, step0, s0))
        && match plan_structure_result(p1, e, step0, s0) {
            Err(err) => r == Err::<RoomXY, PlanError>(err) && same_plan(p2, b),
            Ok(()) => if path.len() < 2 {
                r == Err::<RoomXY, PlanError>(PlanError::ShortPath) && same_plan(p2, b)
            } else {
                spawn_and_slots_planned(p2, b, e, path[1], id, r)
            },
        };
    a.lemma_plan_facts();
    assert(doms_agree(a));
    assert(doms_agree(p1));
    lemma_structure_planned_ok(p1, p2, e, step0, s0);
    let m = path[1];
    let ke = xy_key(e);
    let km = xy_key(m);
    let slots = slots_upto(p2, e, m, 8);
    let (q1, q2, rs) = choose|q1: ColonyPlanner, q2: ColonyPlanner, rs: Result<ColonyStep, PlanError>|
        road_planned(p2, q1, m, ColonyStep::BuildArterialRoads)
        && #[trigger] earliest_planned(q1, q2, m, PlannedStructure::SourceSpawn(id), rs)
        && match rs {
            Err(err) => r == Err::<RoomXY, PlanError>(err) && same_plan(q2, b),
            Ok(_) => slots_planned(q2, b, slots, id, m, r),
        };
    let st = rs.unwrap();
    assert(doms_agree(q1));
    assert(q1.structures().contains_key(ke) && q1.structures()[ke] == s0);
    if km == ke {
        match earliest_step(q1.counts(), spec_structure_kind(PlannedStructure::SourceSpawn(id))) {
            None => {},
            Some(step) => {
                assert(plan_structure_result(q1, m, step, PlannedStructure::SourceSpawn(id)) is Err);
            },
        }
    }
    lemma_earliest_ok(q1, q2, m, PlannedStructure::SourceSpawn(id), st);
    assert(q2.roads().contains_key(ke) && q2.roads().contains_key(km));
    let (p5, rl) = choose|p: ColonyPlanner, rl: Result<ColonyStep, PlanError>| #[trigger] earliest_planned(q2, p, slots[0], PlannedStructure::SourceLink(id), rl)
        && match rl {
            Err(err) => r == Err::<RoomXY, PlanError>(err) && same_plan(p, b),
            Ok(_) => exists|re: Result<(), PlanError>| #[trigger] extensions_planned(p, b, slots.drop_first(), id, re)
                && r == match re { Ok(()) => Ok::<RoomXY, PlanError>(m), Err(err) => Err(err) },
        };
    lemma_slots_free(p2, e, m, 8);
    assert(p2.structures().contains_key(ke));
    assert forall|j: int| 0 <= j < slots.len() implies xy_key(#[trigger] slots[j]) != ke && xy_key(slots[j]) != km by {
        assert(free_in(p2, slots[j]) && slots[j] != m && xy_valid(slots[j]));
        lemma_keys_differ(slots[j], m);
    }
    lemma_earliest_ok(q2, p5, slots[0], PlannedStructure::SourceLink(id), rl.unwrap());
    let re = choose|re: Result<(), PlanError>| #[trigger] extensions_planned(p5, b, slots.drop_first(), id, re)
        && r == match re { Ok(()) => Ok::<RoomXY, PlanError>(m), Err(err) => Err(err) };
    assert forall|j: int| 0 <= j < slots.drop_first().len() implies xy_key(#[trigger] slots.drop_first()[j]) != ke by {
        assert(slots.drop_first()[j] == slots[j + 1]);
    }
    assert forall|j: int| 0 <= j < slots.drop_first().len() implies xy_key(#[trigger] slots.drop_first()[j]) != km by {
        assert(slots.drop_first()[j] == slots[j + 1]);
    }
    lemma_extensions_keep(p5, b, slots.drop_first(), id, ke);
    lemma_extensions_keep(p5, b, slots.drop_first(), id, km);
}

} // verus!
