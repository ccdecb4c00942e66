//! Where a finished plan puts the structures that the colony's creeps work with:
//! the center's, each source's, and the mineral's.
use vstd::prelude::*;
use crate::planner::{ColonyPlanner, PlanError, PlannedStructure, RoomXY, xy_key, xy_valid};

verus! {

/// Some structure `s` is planned.
pub open spec fn has_planned(pl: ColonyPlanner, s: PlannedStructure) -> bool {
    exists|k: u64| #[trigger] pl.structures().contains_key(k) && pl.structures()[k] == s
}

/// Structure `s` is planned on two different tiles.
pub open spec fn planned_twice(pl: ColonyPlanner, s: PlannedStructure) -> bool {
    exists|k1: u64, k2: u64| k1 != k2
        && #[trigger] pl.structures().contains_key(k1) && pl.structures()[k1] == s
        && #[trigger] pl.structures().contains_key(k2) && pl.structures()[k2] == s
}

/// The tile of the one structure `s` that is planned: an error where there is
/// none, or more than one.
pub open spec fn ref_of(pl: ColonyPlanner, s: PlannedStructure) -> Result<RoomXY, PlanError> {
    if !has_planned(pl, s) {
        Err(PlanError::NotFound(s))
    } else if planned_twice(pl, s) {
        Err(PlanError::NotUnique(s))
    } else {
        Ok(choose|p: RoomXY| xy_valid(p) && pl.structures().contains_key(xy_key(p)) && pl.structures()[xy_key(p)] == s)
    }
}

/// Tiles of the room have distinct keys.
proof fn lemma_key_injective(p: RoomXY, q: RoomXY)
    requires
        xy_valid(p),
        xy_valid(q),
        xy_key(p) == xy_key(q),
    ensures
        p == q,
{
    assert(p.x == q.x && p.y == q.y) by (nonlinear_arith)
        requires
            p.x < 50, q.x < 50, p.y < 50, q.y < 50,
            p.x * 256 + p.y == q.x * 256 + q.y;
}

/// The tile of the one structure `s` that is planned (see `ref_of`).
pub fn structure_ref(planner: &ColonyPlanner, s: PlannedStructure) -> (r: Result<RoomXY, PlanError>)
    requires
        planner.wf(),
    ensures
        r == ref_of(*planner, s),
{
    let r = planner.get_structure_ref(s);
    proof {
        if let Ok(p) = r {
            let q = choose|q: RoomXY| xy_valid(q) && planner.structures().contains_key(xy_key(q)) && planner.structures()[xy_key(q)] == s;
            assert(xy_valid(p) && planner.structures().contains_key(xy_key(p)) && planner.structures()[xy_key(p)] == s);
            assert(xy_key(q) == xy_key(p));
            lemma_key_injective(p, q);
            assert(has_planned(*planner, s));
            if planned_twice(*planner, s) {
                let (k1, k2) = choose|k1: u64, k2: u64| k1 != k2
                    && #[trigger] planner.structures().contains_key(k1) && planner.structures()[k1] == s
                    && #[trigger] planner.structures().contains_key(k2) && planner.structures()[k2] == s;
                assert(k1 == xy_key(p) && k2 == xy_key(p));
            }
        }
    }
    r
}

/// The center's structures: the storage's tile (where the center is taken to
/// be), the main spawn, the storage, its container, the central link, the
/// terminal, the observer, and the towers and extensions.
pub struct CenterPlan {
    pub pos: RoomXY,
    pub spawn: RoomXY,
    pub storage: RoomXY,
    pub container_storage: RoomXY,
    pub link: RoomXY,
    pub terminal: RoomXY,
    pub observer: RoomXY,
    pub towers: Vec<RoomXY>,
    pub extensions: Vec<RoomXY>,
}

/// The first error among the refs, in order, if any.
pub open spec fn first_error(rs: Seq<Result<RoomXY, PlanError>>) -> Option<PlanError>
    decreases rs.len(),
{
    if rs.len() == 0 {
        None
    } else {
        match rs[0] {
            Err(e) => Some(e),
            Ok(_) => first_error(rs.drop_first()),
        }
    }
}

/// The refs the center's plan is made of, in the order they are looked up.
pub open spec fn center_refs(pl: ColonyPlanner) -> Seq<Result<RoomXY, PlanError>> {
    seq![
        ref_of(pl, PlannedStructure::Storage),
        ref_of(pl, PlannedStructure::MainSpawn),
        ref_of(pl, PlannedStructure::ContainerStorage),
        ref_of(pl, PlannedStructure::CentralLink),
        ref_of(pl, PlannedStructure::Terminal),
        ref_of(pl, PlannedStructure::Observer),
    ]
}

/// The tiles are exactly those of the structure `s`, each once.
pub open spec fn all_of(pl: ColonyPlanner, s: PlannedStructure, r: Seq<RoomXY>) -> bool {
    &&& r.no_duplicates()
    &&& forall|i: int| 0 <= i < r.len() ==> xy_valid(#[trigger] r[i])
        && pl.structures().contains_key(xy_key(r[i])) && pl.structures()[xy_key(r[i])] == s
    &&& forall|k: u64| #[trigger] pl.structures().contains_key(k) && pl.structures()[k] == s
        ==> exists|i: int| 0 <= i < r.len() && xy_key(r[i]) == k
}

/// The center's plan: the first error of its refs where one fails.
pub fn compile_center(planner: &ColonyPlanner) -> (r: Result<CenterPlan, PlanError>)
    requires
        planner.wf(),
    ensures
        match first_error(center_refs(*planner)) {
            Some(e) => r == Err::<CenterPlan, PlanError>(e),
            None => r matches Ok(c) && Ok::<RoomXY, PlanError>(c.storage) == ref_of(*planner, PlannedStructure::Storage)
                && c.pos == c.storage
                && Ok::<RoomXY, PlanError>(c.spawn) == ref_of(*planner, PlannedStructure::MainSpawn)
                && Ok::<RoomXY, PlanError>(c.container_storage) == ref_of(*planner, PlannedStructure::ContainerStorage)
                && Ok::<RoomXY, PlanError>(c.link) == ref_of(*planner, PlannedStructure::CentralLink)
                && Ok::<RoomXY, PlanError>(c.terminal) == ref_of(*planner, PlannedStructure::Terminal)
                && Ok::<RoomXY, PlanError>(c.observer) == ref_of(*planner, PlannedStructure::Observer)
                && all_of(*planner, PlannedStructure::Tower, c.towers@)
                && all_of(*planner, PlannedStructure::Extension, c.extensions@),
        },
{
    proof {
        let rs = center_refs(*planner);
        reveal_with_fuel(first_error, 7);
        assert(rs.drop_first() =~= seq![rs[1], rs[2], rs[3], rs[4], rs[5]]);
        assert(rs.drop_first().drop_first() =~= seq![rs[2], rs[3], rs[4], rs[5]]);
        assert(rs.drop_first().drop_first().drop_first() =~= seq![rs[3], rs[4], rs[5]]);
        assert(rs.drop_first().drop_first().drop_first().drop_first() =~= seq![rs[4], rs[5]]);
        assert(rs.drop_first().drop_first().drop_first().drop_first().drop_first() =~= seq![rs[5]]);
    }
    let storage = structure_ref(planner, PlannedStructure::Storage)?;
    let spawn = structure_ref(planner, PlannedStructure::MainSpawn)?;
    let container_storage = structure_ref(planner, PlannedStructure::ContainerStorage)?;
    let link = structure_ref(planner, PlannedStructure::CentralLink)?;
    let terminal = structure_ref(planner, PlannedStructure::Terminal)?;
    let observer = structure_ref(planner, PlannedStructure::Observer)?;
    Ok(CenterPlan {
        pos: storage,
        spawn,
        storage,
        container_storage,
        link,
        terminal,
        observer,
        towers: planner.get_structure_positions(PlannedStructure::Tower),
        extensions: planner.get_structure_positions(PlannedStructure::Extension),
    })
}

/// The mineral's structures: its container and its extractor.
pub struct MineralPlan {
    pub container: RoomXY,
    pub extractor: RoomXY,
}

/// The mineral's plan: the container's error first, then the extractor's.
pub fn compile_mineral(planner: &ColonyPlanner) -> (r: Result<MineralPlan, PlanError>)
    requires
        planner.wf(),
    ensures
        match (ref_of(*planner, PlannedStructure::MineralContainer), ref_of(*planner, PlannedStructure::Extractor)) {
            (Err(e), _) => r == Err::<MineralPlan, PlanError>(e),
            (Ok(_), Err(e)) => r == Err::<MineralPlan, PlanError>(e),
            (Ok(c), Ok(x)) => r matches Ok(m) && m.container == c && m.extractor == x,
        },
{
    let container = structure_ref(planner, PlannedStructure::MineralContainer)?;
    let extractor = structure_ref(planner, PlannedStructure::Extractor)?;
    Ok(MineralPlan { container, extractor })
}

/// A source's structures: its spawn, container, link and extensions.
pub struct SourcePlan {
    pub spawn: RoomXY,
    pub container: RoomXY,
    pub link: RoomXY,
    pub extensions: Vec<RoomXY>,
}

/// The refs a source's plan is made of, in the order they are looked up.
pub open spec fn source_refs(pl: ColonyPlanner, id: u64) -> Seq<Result<RoomXY, PlanError>> {
    seq![
        ref_of(pl, PlannedStructure::SourceSpawn(id)),
        ref_of(pl, PlannedStructure::SourceContainer(id)),
        ref_of(pl, PlannedStructure::SourceLink(id)),
    ]
}

/// The first error of the sources' refs, source by source.
pub open spec fn sources_error(pl: ColonyPlanner, ids: Seq<u64>) -> Option<PlanError>
    decreases ids.len(),
{
    if ids.len() == 0 {
        None
    } else {
        match first_error(source_refs(pl, ids[0])) {
            Some(e) => Some(e),
            None => sources_error(pl, ids.drop_first()),
        }
    }
}

/// The plan `p` of source `id` holds its structures' tiles.
pub open spec fn source_plan_of(pl: ColonyPlanner, id: u64, p: SourcePlan) -> bool {
    &&& Ok::<RoomXY, PlanError>(p.spawn) == ref_of(pl, PlannedStructure::SourceSpawn(id))
    &&& Ok::<RoomXY, PlanError>(p.container) == ref_of(pl, PlannedStructure::SourceContainer(id))
    &&& Ok::<RoomXY, PlanError>(p.link) == ref_of(pl, PlannedStructure::SourceLink(id))
    &&& all_of(pl, PlannedStructure::SourceExtension(id), p.extensions@)
}

/// The plan of one source.
fn compile_source(planner: &ColonyPlanner, id: u64) -> (r: Result<SourcePlan, PlanError>)
    requires
        planner.wf(),
    ensures
        match first_error(source_refs(*planner, id)) {
            Some(e) => r == Err::<SourcePlan, PlanError>(e),
            None => r matches Ok(p) && source_plan_of(*planner, id, p),
        },
{
    proof {
        let rs = source_refs(*planner, id);
        reveal_with_fuel(first_error, 4);
        assert(rs.drop_first() =~= seq![rs[1], rs[2]]);
        assert(rs.drop_first().drop_first() =~= seq![rs[2]]);
    }
    let spawn = structure_ref(planner, PlannedStructure::SourceSpawn(id))?;
    let container = structure_ref(planner, PlannedStructure::SourceContainer(id))?;
    let link = structure_ref(planner, PlannedStructure::SourceLink(id))?;
    Ok(SourcePlan { spawn, container, link, extensions: planner.get_structure_positions(PlannedStructure::SourceExtension(id)) })
}

/// The plans of the sources, in the order given; the first error where one fails.
pub fn compile_sources(planner: &ColonyPlanner, ids: &Vec<u64>) -> (r: Result<Vec<(u64, SourcePlan)>, PlanError>)
    requires
        planner.wf(),
    ensures
        match sources_error(*planner, ids@) {
            Some(e) => r == Err::<Vec<(u64, SourcePlan)>, PlanError>(e),
            None => r matches Ok(v) && v@.len() == ids@.len()
                && forall|i: int| 0 <= i < ids@.len() ==> (#[trigger] v@[i]).0 == ids@[i]
                    && source_plan_of(*planner, ids@[i], v@[i].1),
        },
{
    let mut v: Vec<(u64, SourcePlan)> = Vec::new();
    let mut i: usize = 0;
    proof {
        assert(ids@.skip(0) =~= ids@);
    }
    while i < ids.len()
        invariant
            planner.wf(),
            i <= ids@.len(),
            sources_error(*planner, ids@) == sources_error(*planner, ids@.skip(i as int)),
            v@.len() == i,
            forall|a: int| 0 <= a < i ==> (#[trigger] v@[a]).0 == ids@[a] && source_plan_of(*planner, ids@[a], v@[a].1),
        decreases ids@.len() - i,
    {
        let id = ids[i];
        proof {
            assert(ids@.skip(i as int)[0] == id);
            assert(ids@.skip(i as int).drop_first() =~= ids@.skip(i as int + 1));
        }
        match compile_source(planner, id) {
            Ok(p) => {
                v.push((id, p));
            }
            Err(e) => {
                return Err(e);
            }
        }
        i = i + 1;
    }
    Ok(v)
}

} // verus!
