//! A colony's plan against its room: what is missing, extra or different, what
//! tearing down the extra costs, and what one step still has to build.
use vstd::prelude::*;
use crate::keyed::KeyedMap;
use crate::planner::{RoomXY, StepPlan, StructureKind, key_xy, keys_are_tiles, lemma_tiles_distinct, xy_key, xy_valid};

verus! {

/// The kinds of structures the game has.
#[derive(PartialEq, Eq, Structural, Clone, Copy, Debug, Hash)]
pub enum GameStructure {
    Spawn,
    Extension,
    Road,
    Wall,
    Rampart,
    KeeperLair,
    Portal,
    Controller,
    Link,
    Storage,
    Tower,
    Observer,
    PowerBank,
    PowerSpawn,
    Extractor,
    Lab,
    Terminal,
    Container,
    Nuker,
    Factory,
    InvaderCore,
}

/// The game's kind of a planned structure.
pub open spec fn kind_structure(k: StructureKind) -> GameStructure {
    match k {
        StructureKind::Spawn => GameStructure::Spawn,
        StructureKind::Container => GameStructure::Container,
        StructureKind::Extension => GameStructure::Extension,
        StructureKind::Link => GameStructure::Link,
        StructureKind::Storage => GameStructure::Storage,
        StructureKind::Tower => GameStructure::Tower,
        StructureKind::Terminal => GameStructure::Terminal,
        StructureKind::Extractor => GameStructure::Extractor,
        StructureKind::Observer => GameStructure::Observer,
    }
}

/// The energy that building a structure of a kind costs, as the game's
/// `CONSTRUCTION_COST` table gives it; kinds that cannot be built have none.
pub open spec fn spec_construction_cost(s: GameStructure) -> Option<u32> {
    match s {
        GameStructure::Spawn => Some(15_000u32),
        GameStructure::Extension => Some(3_000u32),
        GameStructure::Road => Some(300u32),
        GameStructure::Wall => Some(1u32),
        GameStructure::Rampart => Some(1u32),
        GameStructure::Link => Some(5_000u32),
        GameStructure::Storage => Some(30_000u32),
        GameStructure::Tower => Some(5_000u32),
        GameStructure::Observer => Some(8_000u32),
        GameStructure::PowerSpawn => Some(100_000u32),
        GameStructure::Extractor => Some(5_000u32),
        GameStructure::Lab => Some(50_000u32),
        GameStructure::Terminal => Some(100_000u32),
        GameStructure::Container => Some(5_000u32),
        GameStructure::Nuker => Some(100_000u32),
        GameStructure::Factory => Some(100_000u32),
        _ => None,
    }
}

impl GameStructure {
    /// The game's kind of a planned structure.
    pub fn from_kind(k: StructureKind) -> (s: GameStructure)
        ensures
            s == kind_structure(k),
    {
        match k {
            StructureKind::Spawn => GameStructure::Spawn,
            StructureKind::Container => GameStructure::Container,
            StructureKind::Extension => GameStructure::Extension,
            StructureKind::Link => GameStructure::Link,
            StructureKind::Storage => GameStructure::Storage,
            StructureKind::Tower => GameStructure::Tower,
            StructureKind::Terminal => GameStructure::Terminal,
            StructureKind::Extractor => GameStructure::Extractor,
            StructureKind::Observer => GameStructure::Observer,
        }
    }

    /// The energy that building a structure of this kind costs.
    pub fn construction_cost(&self) -> (c: Option<u32>)
        ensures
            c == spec_construction_cost(*self),
    {
        match self {
            GameStructure::Spawn => Some(15_000),
            GameStructure::Extension => Some(3_000),
            GameStructure::Road => Some(300),
            GameStructure::Wall => Some(1),
            GameStructure::Rampart => Some(1),
            GameStructure::Link => Some(5_000),
            GameStructure::Storage => Some(30_000),
            GameStructure::Tower => Some(5_000),
            GameStructure::Observer => Some(8_000),
            GameStructure::PowerSpawn => Some(100_000),
            GameStructure::Extractor => Some(5_000),
            GameStructure::Lab => Some(50_000),
            GameStructure::Terminal => Some(100_000),
            GameStructure::Container => Some(5_000),
            GameStructure::Nuker => Some(100_000),
            GameStructure::Factory => Some(100_000),
            _ => None,
        }
    }
}

/// How a road tile differs between plan and room.
#[derive(PartialEq, Eq, Structural, Clone, Copy, Debug)]
pub enum RoadDiff {
    /// Planned, and not in the room.
    Missing,
    /// In the room, and not planned.
    Extra,
}

/// How a structure tile differs between plan and room.
#[derive(PartialEq, Eq, Structural, Clone, Copy, Debug)]
pub enum StructureDiff {
    Missing(GameStructure),
    Extra(GameStructure),
    Different { expected: GameStructure, found: GameStructure },
}

/// What the room shows on a tile: a road (whether finished), or a structure (its
/// kind, whether finished).
pub type RoomRoads = KeyedMap<bool>;

/// The structures of a room, by tile key: kind, and whether finished.
pub type RoomStructures = KeyedMap<(GameStructure, bool)>;

/// The difference between plan and room, by tile key.
pub struct ColonyPlanDiff {
    pub roads: KeyedMap<RoadDiff>,
    pub structures: KeyedMap<StructureDiff>,
}

/// The planned steps of a colony, each with its new roads and structures.
pub struct ColonyPlan {
    pub steps: Vec<StepPlan>,
}

/// Some step of the plan has a road on tile `k`.
pub open spec fn road_planned_at(steps: Seq<StepPlan>, k: u64) -> bool {
    exists|i: int, j: int| 0 <= i < steps.len() && 0 <= j < steps[i].new_roads@.len()
        && xy_key(#[trigger] steps[i].new_roads@[j]) == k
}

/// Some step of the plan has a structure on tile `k`.
pub open spec fn structure_planned_at(steps: Seq<StepPlan>, k: u64) -> bool {
    exists|i: int, j: int| 0 <= i < steps.len() && 0 <= j < steps[i].new_structures@.len()
        && xy_key((#[trigger] steps[i].new_structures@[j]).0) == k
}

/// The game's kind of the structure the plan has on tile `k`, if any.
pub open spec fn planned_kind(steps: Seq<StepPlan>, k: u64) -> Option<GameStructure> {
    if structure_planned_at(steps, k) {
        let (i, j) = choose|i: int, j: int| 0 <= i < steps.len() && 0 <= j < steps[i].new_structures@.len()
            && xy_key((#[trigger] steps[i].new_structures@[j]).0) == k;
        Some(kind_structure(steps[i].new_structures@[j].1))
    } else {
        None
    }
}

/// Every planned tile is in the room, and no tile carries two planned structures.
pub open spec fn plan_sound(steps: Seq<StepPlan>) -> bool {
    &&& forall|i: int, j: int| 0 <= i < steps.len() && 0 <= j < steps[i].new_roads@.len()
        ==> xy_valid(#[trigger] steps[i].new_roads@[j])
    &&& forall|i: int, j: int| 0 <= i < steps.len() && 0 <= j < steps[i].new_structures@.len()
        ==> xy_valid((#[trigger] steps[i].new_structures@[j]).0)
    &&& forall|i1: int, j1: int, i2: int, j2: int|
        0 <= i1 < steps.len() && 0 <= j1 < steps[i1].new_structures@.len()
        && 0 <= i2 < steps.len() && 0 <= j2 < steps[i2].new_structures@.len()
        && #[trigger] steps[i1].new_structures@[j1].0 == #[trigger] steps[i2].new_structures@[j2].0
        ==> i1 == i2 && j1 == j2
}

/// The difference on a road tile, by whether the plan and the room have a road there.
pub open spec fn road_diff_at(planned: bool, found: bool) -> Option<RoadDiff> {
    if planned && !found {
        Some(RoadDiff::Missing)
    } else if found && !planned {
        Some(RoadDiff::Extra)
    } else {
        None
    }
}

/// The difference on a structure tile, by what the plan and the room have there;
/// a controller that the plan does not have is no difference.
pub open spec fn structure_diff_at(planned: Option<GameStructure>, found: Option<GameStructure>) -> Option<StructureDiff> {
    match (planned, found) {
        (Some(e), None) => Some(StructureDiff::Missing(e)),
        (None, Some(f)) => if f == GameStructure::Controller { None } else { Some(StructureDiff::Extra(f)) },
        (Some(e), Some(f)) => if e != f { Some(StructureDiff::Different { expected: e, found: f }) } else { None },
        (None, None) => None,
    }
}

/// What a map holds under a key, if anything.
pub open spec fn lookup<V>(m: Map<u64, V>, k: u64) -> Option<V> {
    if m.contains_key(k) { Some(m[k]) } else { None }
}

/// The kind of the structure a room has on a tile, if any.
pub open spec fn found_kind(m: Map<u64, (GameStructure, bool)>, k: u64) -> Option<GameStructure> {
    if m.contains_key(k) { Some(m[k].0) } else { None }
}

/// A road of one of the steps before the `i`-th, or among the first `j` of the
/// `i`-th, is on tile `k`.
pub open spec fn road_seen(steps: Seq<StepPlan>, i: int, j: int, k: u64) -> bool {
    exists|i2: int, j2: int| 0 <= i2 < steps.len() && 0 <= j2 < steps[i2].new_roads@.len()
        && (i2 < i || (i2 == i && j2 < j)) && xy_key(#[trigger] steps[i2].new_roads@[j2]) == k
}

/// A structure of one of the steps before the `i`-th, or among the first `j` of
/// the `i`-th, is on tile `k`.
pub open spec fn structure_seen(steps: Seq<StepPlan>, i: int, j: int, k: u64) -> bool {
    exists|i2: int, j2: int| 0 <= i2 < steps.len() && 0 <= j2 < steps[i2].new_structures@.len()
        && (i2 < i || (i2 == i && j2 < j)) && xy_key((#[trigger] steps[i2].new_structures@[j2]).0) == k
}

/// The kind the plan has on the tile of one of its structures is that structure's.
proof fn lemma_planned_kind_at(steps: Seq<StepPlan>, i: int, j: int)
    requires
        plan_sound(steps),
        0 <= i < steps.len(),
        0 <= j < steps[i].new_structures@.len(),
    ensures
        planned_kind(steps, xy_key(steps[i].new_structures@[j].0)) == Some(kind_structure(steps[i].new_structures@[j].1)),
{
    let k = xy_key(steps[i].new_structures@[j].0);
    assert(structure_planned_at(steps, k));
    let (i2, j2) = choose|i2: int, j2: int| 0 <= i2 < steps.len() && 0 <= j2 < steps[i2].new_structures@.len()
        && xy_key((#[trigger] steps[i2].new_structures@[j2]).0) == k;
    if steps[i2].new_structures@[j2].0 != steps[i].new_structures@[j].0 {
        lemma_tiles_distinct(steps[i2].new_structures@[j2].0, steps[i].new_structures@[j].0);
    }
}

/// The tiles of all the roads the plan has.
fn planned_road_tiles(steps: &Vec<StepPlan>) -> (m: KeyedMap<()>)
    requires
        plan_sound(steps@),
    ensures
        m.wf(),
        keys_are_tiles(m@.dom()),
        forall|k: u64| #[trigger] m@.contains_key(k) <==> road_planned_at(steps@, k),
{
    let mut m: KeyedMap<()> = KeyedMap::new();
    let mut i: usize = 0;
    while i < steps.len()
        invariant
            i <= steps@.len(),
            plan_sound(steps@),
            m.wf(),
            keys_are_tiles(m@.dom()),
            forall|k: u64| #[trigger] m@.contains_key(k) <==> road_seen(steps@, i as int, 0, k),
        decreases steps@.len() - i,
    {
        let mut j: usize = 0;
        while j < steps[i].new_roads.len()
            invariant
                i < steps@.len(),
                j <= steps@[i as int].new_roads@.len(),
                plan_sound(steps@),
                m.wf(),
                keys_are_tiles(m@.dom()),
                forall|k: u64| #[trigger] m@.contains_key(k) <==> road_seen(steps@, i as int, j as int, k),
            decreases steps@[i as int].new_roads@.len() - j,
        {
            let p = steps[i].new_roads[j];
            let k: u64 = p.x as u64 * 256 + p.y as u64;
            m.insert(k, ());
            proof {
                assert(xy_valid(steps@[i as int].new_roads@[j as int]));
                assert forall|key: u64| #[trigger] m@.contains_key(key) <==> road_seen(steps@, i as int, j as int + 1, key) by {
                    if key == k {
                        assert(xy_key(steps@[i as int].new_roads@[j as int]) == key);
                    }
                    if road_seen(steps@, i as int, j as int + 1, key) && key != k {
                        let (i2, j2) = choose|i2: int, j2: int| 0 <= i2 < steps@.len() && 0 <= j2 < steps@[i2].new_roads@.len()
                            && (i2 < i || (i2 == i && j2 < j + 1)) && xy_key(#[trigger] steps@[i2].new_roads@[j2]) == key;
                        assert(road_seen(steps@, i as int, j as int, key));
                    }
                }
            }
            j = j + 1;
        }
        proof {
            assert forall|key: u64| #[trigger] m@.contains_key(key) <==> road_seen(steps@, i as int + 1, 0, key) by {
                if road_seen(steps@, i as int + 1, 0, key) {
                    let (i2, j2) = choose|i2: int, j2: int| 0 <= i2 < steps@.len() && 0 <= j2 < steps@[i2].new_roads@.len()
                        && (i2 < i + 1 || (i2 == i + 1 && j2 < 0)) && xy_key(#[trigger] steps@[i2].new_roads@[j2]) == key;
                    assert(road_seen(steps@, i as int, j as int, key));
                }
                if road_seen(steps@, i as int, j as int, key) {
                    let (i2, j2) = choose|i2: int, j2: int| 0 <= i2 < steps@.len() && 0 <= j2 < steps@[i2].new_roads@.len()
                        && (i2 < i || (i2 == i && j2 < j)) && xy_key(#[trigger] steps@[i2].new_roads@[j2]) == key;
                    assert(road_seen(steps@, i as int + 1, 0, key));
                }
            }
        }
        i = i + 1;
    }
    proof {
        assert forall|k: u64| #[trigger] m@.contains_key(k) <==> road_planned_at(steps@, k) by {
            if road_planned_at(steps@, k) {
                let (i2, j2) = choose|i2: int, j2: int| 0 <= i2 < steps@.len() && 0 <= j2 < steps@[i2].new_roads@.len()
                    && xy_key(#[trigger] steps@[i2].new_roads@[j2]) == k;
                assert(road_seen(steps@, i as int, 0, k));
            }
        }
    }
    m
}

/// The game's kinds of all the structures the plan has, by tile.
fn planned_structure_kinds(steps: &Vec<StepPlan>) -> (m: KeyedMap<GameStructure>)
    requires
        plan_sound(steps@),
    ensures
        m.wf(),
        keys_are_tiles(m@.dom()),
        forall|k: u64| #[trigger] lookup(m@, k) == planned_kind(steps@, k),
{
    let mut m: KeyedMap<GameStructure> = KeyedMap::new();
    let mut i: usize = 0;
    while i < steps.len()
        invariant
            i <= steps@.len(),
            plan_sound(steps@),
            m.wf(),
            keys_are_tiles(m@.dom()),
            forall|k: u64| #[trigger] m@.contains_key(k) <==> structure_seen(steps@, i as int, 0, k),
            forall|k: u64| #[trigger] m@.contains_key(k) ==> Some(m@[k]) == planned_kind(steps@, k),
        decreases steps@.len() - i,
    {
        let mut j: usize = 0;
        while j < steps[i].new_structures.len()
            invariant
                i < steps@.len(),
                j <= steps@[i as int].new_structures@.len(),
                plan_sound(steps@),
                m.wf(),
                keys_are_tiles(m@.dom()),
                forall|k: u64| #[trigger] m@.contains_key(k) <==> structure_seen(steps@, i as int, j as int, k),
                forall|k: u64| #[trigger] m@.contains_key(k) ==> Some(m@[k]) == planned_kind(steps@, k),
            decreases steps@[i as int].new_structures@.len() - j,
        {
            let (p, kind) = steps[i].new_structures[j];
            let k: u64 = p.x as u64 * 256 + p.y as u64;
            m.insert(k, GameStructure::from_kind(kind));
            proof {
                assert(xy_valid(steps@[i as int].new_structures@[j as int].0));
                lemma_planned_kind_at(steps@, i as int, j as int);
                assert forall|key: u64| #[trigger] m@.contains_key(key) <==> structure_seen(steps@, i as int, j as int + 1, key) by {
                    if key == k {
                        assert(xy_key(steps@[i as int].new_structures@[j as int].0) == key);
                    }
                    if structure_seen(steps@, i as int, j as int + 1, key) && key != k {
                        let (i2, j2) = choose|i2: int, j2: int| 0 <= i2 < steps@.len() && 0 <= j2 < steps@[i2].new_structures@.len()
                            && (i2 < i || (i2 == i && j2 < j + 1)) && xy_key((#[trigger] steps@[i2].new_structures@[j2]).0) == key;
                        assert(structure_seen(steps@, i as int, j as int, key));
                    }
                }
            }
            j = j + 1;
        }
        proof {
            assert forall|key: u64| #[trigger] m@.contains_key(key) <==> structure_seen(steps@, i as int + 1, 0, key) by {
                if structure_seen(steps@, i as int + 1, 0, key) {
                    let (i2, j2) = choose|i2: int, j2: int| 0 <= i2 < steps@.len() && 0 <= j2 < steps@[i2].new_structures@.len()
                        && (i2 < i + 1 || (i2 == i + 1 && j2 < 0)) && xy_key((#[trigger] steps@[i2].new_structures@[j2]).0) == key;
                    assert(structure_seen(steps@, i as int, j as int, key));
                }
                if structure_seen(steps@, i as int, j as int, key) {
                    let (i2, j2) = choose|i2: int, j2: int| 0 <= i2 < steps@.len() && 0 <= j2 < steps@[i2].new_structures@.len()
                        && (i2 < i || (i2 == i && j2 < j)) && xy_key((#[trigger] steps@[i2].new_structures@[j2]).0) == key;
                    assert(structure_seen(steps@, i as int + 1, 0, key));
                }
            }
        }
        i = i + 1;
    }
    proof {
        assert forall|k: u64| #[trigger] lookup(m@, k) == planned_kind(steps@, k) by {
            if structure_planned_at(steps@, k) {
                let (i2, j2) = choose|i2: int, j2: int| 0 <= i2 < steps@.len() && 0 <= j2 < steps@[i2].new_structures@.len()
                    && xy_key((#[trigger] steps@[i2].new_structures@[j2]).0) == k;
                assert(structure_seen(steps@, i as int, 0, k));
            }
            if m@.contains_key(k) {
                let (i2, j2) = choose|i2: int, j2: int| 0 <= i2 < steps@.len() && 0 <= j2 < steps@[i2].new_structures@.len()
                    && (i2 < i || (i2 == i && j2 < 0)) && xy_key((#[trigger] steps@[i2].new_structures@[j2]).0) == k;
                assert(structure_planned_at(steps@, k));
            }
        }
    }
    m
}

impl ColonyPlan {
    /// How the room differs from the plan: planned roads the room lacks are
    /// missing, roads the plan lacks are extra; likewise for structures, where a
    /// tile with another kind than planned differs, and a controller the plan does
    /// not have counts for nothing.
    pub fn diff_with(&self, roads: &RoomRoads, structures: &RoomStructures) -> (d: ColonyPlanDiff)
        requires
            plan_sound(self.steps@),
            roads.wf(),
            structures.wf(),
            keys_are_tiles(roads@.dom()),
            keys_are_tiles(structures@.dom()),
        ensures
            d.roads.wf(),
            d.structures.wf(),
            keys_are_tiles(d.roads@.dom()),
            keys_are_tiles(d.structures@.dom()),
            forall|k: u64| #[trigger] lookup(d.roads@, k)
                == road_diff_at(road_planned_at(self.steps@, k), roads@.contains_key(k)),
            forall|k: u64| #[trigger] lookup(d.structures@, k)
                == structure_diff_at(planned_kind(self.steps@, k), found_kind(structures@, k)),
    {
        let planned = planned_road_tiles(&self.steps);
        let road_diff = diff_roads(&planned, roads);
        let kinds = planned_structure_kinds(&self.steps);
        let structure_diff = diff_structures(&kinds, structures);
        proof {
            assert forall|k: u64| #[trigger] road_diff.view().contains_key(k) implies planned@.contains_key(k) || roads@.contains_key(k) by {
                assert(lookup(road_diff@, k) is Some);
            }
            assert forall|k: u64| #[trigger] structure_diff.view().contains_key(k) implies kinds@.contains_key(k) || structures@.contains_key(k) by {
                assert(lookup(structure_diff@, k) is Some);
            }
        }
        ColonyPlanDiff { roads: road_diff, structures: structure_diff }
    }
}

/// The road differences between the tiles of planned roads and those of the room.
fn diff_roads(planned: &KeyedMap<()>, roads: &RoomRoads) -> (d: KeyedMap<RoadDiff>)
    requires
        planned.wf(),
        roads.wf(),
    ensures
        d.wf(),
        forall|k: u64| #[trigger] lookup(d@, k) == road_diff_at(planned@.contains_key(k), roads@.contains_key(k)),
{
    let mut d: KeyedMap<RoadDiff> = KeyedMap::new();
    proof {
        planned.lemma_wf();
        roads.lemma_wf();
    }
    let mut i: usize = 0;
    while i < planned.len()
        invariant
            planned.wf(),
            roads.wf(),
            d.wf(),
            i <= planned.entries().len(),
            forall|k: u64| #[trigger] d@.contains_key(k)
                ==> Some(d@[k]) == road_diff_at(planned@.contains_key(k), roads@.contains_key(k)),
            forall|a: int| 0 <= a < i && !roads@.contains_key(#[trigger] planned.entries()[a].0)
                ==> d@.contains_key(planned.entries()[a].0),
        decreases planned.entries().len() - i,
    {
        let k = planned.key_at(i);
        proof {
            planned.lemma_wf();
        }
        if !roads.contains_key(k) {
            d.insert(k, RoadDiff::Missing);
        }
        i = i + 1;
    }
    let mut i: usize = 0;
    while i < roads.len()
        invariant
            planned.wf(),
            roads.wf(),
            d.wf(),
            i <= roads.entries().len(),
            forall|k: u64| #[trigger] d@.contains_key(k)
                ==> Some(d@[k]) == road_diff_at(planned@.contains_key(k), roads@.contains_key(k)),
            forall|k: u64| #[trigger] planned@.contains_key(k) && !roads@.contains_key(k) ==> d@.contains_key(k),
            forall|a: int| 0 <= a < i && !planned@.contains_key(#[trigger] roads.entries()[a].0)
                ==> d@.contains_key(roads.entries()[a].0),
        decreases roads.entries().len() - i,
    {
        let k = roads.key_at(i);
        proof {
            roads.lemma_wf();
        }
        if !planned.contains_key(k) {
            d.insert(k, RoadDiff::Extra);
        }
        i = i + 1;
    }
    proof {
        planned.lemma_wf();
        roads.lemma_wf();
        assert forall|k: u64| #[trigger] lookup(d@, k) == road_diff_at(planned@.contains_key(k), roads@.contains_key(k)) by {
            if roads@.contains_key(k) && !planned@.contains_key(k) {
                let a = choose|a: int| 0 <= a < roads.entries().len() && roads.entries()[a].0 == k;
                assert(d@.contains_key(roads.entries()[a].0));
            }
        }
    }
    d
}

/// The structure differences between the planned kinds and the room's, by tile.
fn diff_structures(kinds: &KeyedMap<GameStructure>, structures: &RoomStructures) -> (d: KeyedMap<StructureDiff>)
    requires
        kinds.wf(),
        structures.wf(),
    ensures
        d.wf(),
        forall|k: u64| #[trigger] lookup(d@, k) == structure_diff_at(lookup(kinds@, k), found_kind(structures@, k)),
{
    let mut d: KeyedMap<StructureDiff> = KeyedMap::new();
    proof {
        kinds.lemma_wf();
        structures.lemma_wf();
    }
    let mut i: usize = 0;
    while i < kinds.len()
        invariant
            kinds.wf(),
            structures.wf(),
            d.wf(),
            i <= kinds.entries().len(),
            forall|k: u64| #[trigger] d@.contains_key(k)
                ==> Some(d@[k]) == structure_diff_at(lookup(kinds@, k), found_kind(structures@, k)),
            forall|a: int| 0 <= a < i
                && (#[trigger] structure_diff_at(lookup(kinds@, kinds.entries()[a].0), found_kind(structures@, kinds.entries()[a].0))) is Some
                ==> d@.contains_key(kinds.entries()[a].0),
        decreases kinds.entries().len() - i,
    {
        let k = kinds.key_at(i);
        let expected = *kinds.value_at(i);
        proof {
            kinds.lemma_wf();
        }
        match structures.get(k) {
            Some(found) => {
                let f = found.0;
                if f != expected {
                    d.insert(k, StructureDiff::Different { expected, found: f });
                }
            }
            None => {
                d.insert(k, StructureDiff::Missing(expected));
            }
        }
        i = i + 1;
    }
    let mut i: usize = 0;
    while i < structures.len()
        invariant
            kinds.wf(),
            structures.wf(),
            d.wf(),
            i <= structures.entries().len(),
            forall|k: u64| #[trigger] d@.contains_key(k)
                ==> Some(d@[k]) == structure_diff_at(lookup(kinds@, k), found_kind(structures@, k)),
            forall|k: u64| kinds@.contains_key(k)
                && (#[trigger] structure_diff_at(lookup(kinds@, k), found_kind(structures@, k))) is Some
                ==> d@.contains_key(k),
            forall|a: int| 0 <= a < i
                && (#[trigger] structure_diff_at(lookup(kinds@, structures.entries()[a].0), found_kind(structures@, structures.entries()[a].0))) is Some
                ==> d@.contains_key(structures.entries()[a].0),
        decreases structures.entries().len() - i,
    {
        let k = structures.key_at(i);
        let f = structures.value_at(i).0;
        proof {
            structures.lemma_wf();
        }
        if !kinds.contains_key(k) {
            match f {
                GameStructure::Controller => {}
                _ => {
                    d.insert(k, StructureDiff::Extra(f));
                }
            }
        }
        i = i + 1;
    }
    proof {
        kinds.lemma_wf();
        structures.lemma_wf();
        assert forall|k: u64| #[trigger] lookup(d@, k) == structure_diff_at(lookup(kinds@, k), found_kind(structures@, k)) by {
            if structure_diff_at(lookup(kinds@, k), found_kind(structures@, k)) is Some && !kinds@.contains_key(k) {
                assert(structures@.contains_key(k));
                let a = choose|a: int| 0 <= a < structures.entries().len() && structures.entries()[a].0 == k;
                assert(structure_diff_at(lookup(kinds@, structures.entries()[a].0), found_kind(structures@, structures.entries()[a].0)) is Some);
            }
        }
    }
    d
}

/// A difference that only asks for building, nothing for tearing down.
pub open spec fn road_only_missing(d: RoadDiff) -> bool {
    d == RoadDiff::Missing
}

/// A structure difference that only asks for building.
pub open spec fn structure_only_missing(d: StructureDiff) -> bool {
    d is Missing
}

/// The structure that tearing down would remove on a tile with this difference.
pub open spec fn removed_structure(d: StructureDiff) -> Option<GameStructure> {
    match d {
        StructureDiff::Missing(_) => None,
        StructureDiff::Extra(found) => Some(found),
        StructureDiff::Different { expected: _, found } => Some(found),
    }
}

/// What tearing down a structure of a kind loses: walls and ramparts count as
/// their full hits, others as their construction cost (none if they have none).
pub open spec fn structure_loss(s: GameStructure) -> u32 {
    if s == GameStructure::Rampart || s == GameStructure::Wall {
        300_000_000u32
    } else {
        match spec_construction_cost(s) {
            Some(c) => c,
            None => 0u32,
        }
    }
}

/// What tearing down on tile `k` loses, summed over an extra road and a removed
/// structure there; nothing if neither is torn down.
pub open spec fn removal_loss(roads: Map<u64, RoadDiff>, structures: Map<u64, StructureDiff>, k: u64) -> Option<u32> {
    let road = roads.contains_key(k) && roads[k] == RoadDiff::Extra;
    let removed = if structures.contains_key(k) { removed_structure(structures[k]) } else { None };
    match removed {
        Some(s) => Some((structure_loss(s) + if road { 300u32 } else { 0u32 }) as u32),
        None => if road { Some(300u32) } else { None },
    }
}

/// What is torn down on tile `k`: the extra road, if any, and the structure
/// found where the plan has none or another.
pub open spec fn removal_at(roads: Map<u64, RoadDiff>, structures: Map<u64, StructureDiff>, r: (RoomXY, GameStructure)) -> bool {
    let k = xy_key(r.0);
    &&& key_xy(k) == r.0
    &&& ((r.1 == GameStructure::Road && roads.contains_key(k) && roads[k] == RoadDiff::Extra)
        || (structures.contains_key(k) && removed_structure(structures[k]) == Some(r.1)))
}

impl ColonyPlanDiff {
    /// The room can reach the plan by building alone.
    pub fn compatible(&self) -> (c: bool)
        requires
            self.roads.wf(),
            self.structures.wf(),
        ensures
            c == ((forall|k: u64| #[trigger] self.roads@.contains_key(k) ==> road_only_missing(self.roads@[k]))
                && (forall|k: u64| #[trigger] self.structures@.contains_key(k) ==> structure_only_missing(self.structures@[k]))),
    {
        proof {
            self.roads.lemma_wf();
            self.structures.lemma_wf();
        }
        let mut i: usize = 0;
        while i < self.roads.len()
            invariant
                self.roads.wf(),
                i <= self.roads.entries().len(),
                forall|a: int| 0 <= a < i ==> road_only_missing(#[trigger] self.roads.entries()[a].1),
            decreases self.roads.entries().len() - i,
        {
            if *self.roads.value_at(i) != RoadDiff::Missing {
                proof {
                    self.roads.lemma_wf();
                    assert(self.roads@.contains_key(self.roads.entries()[i as int].0));
                }
                return false;
            }
            i = i + 1;
        }
        let mut j: usize = 0;
        while j < self.structures.len()
            invariant
                self.structures.wf(),
                j <= self.structures.entries().len(),
                forall|a: int| 0 <= a < j ==> structure_only_missing(#[trigger] self.structures.entries()[a].1),
            decreases self.structures.entries().len() - j,
        {
            match self.structures.value_at(j) {
                StructureDiff::Missing(_) => {}
                _ => {
                    proof {
                        self.structures.lemma_wf();
                        assert(self.structures@.contains_key(self.structures.entries()[j as int].0));
                    }
                    return false;
                }
            }
            j = j + 1;
        }
        proof {
            self.roads.lemma_wf();
            self.structures.lemma_wf();
            assert forall|k: u64| #[trigger] self.roads@.contains_key(k) implies road_only_missing(self.roads@[k]) by {
                let a = choose|a: int| 0 <= a < self.roads.entries().len() && self.roads.entries()[a].0 == k;
                assert(road_only_missing(self.roads.entries()[a].1));
            }
            assert forall|k: u64| #[trigger] self.structures@.contains_key(k) implies structure_only_missing(self.structures@[k]) by {
                let a = choose|a: int| 0 <= a < self.structures.entries().len() && self.structures.entries()[a].0 == k;
                assert(structure_only_missing(self.structures.entries()[a].1));
            }
        }
        true
    }

    /// What tearing down the room's extra and differing roads and structures
    /// loses, by tile.
    pub fn get_removal_losses(&self) -> (r: KeyedMap<u32>)
        requires
            self.roads.wf(),
            self.structures.wf(),
        ensures
            r.wf(),
            forall|k: u64| #[trigger] lookup(r@, k) == removal_loss(self.roads@, self.structures@, k),
    {
        let road_cost = match GameStructure::Road.construction_cost() {
            Some(c) => c,
            None => 0,
        };
        let mut r: KeyedMap<u32> = KeyedMap::new();
        proof {
            self.roads.lemma_wf();
            self.structures.lemma_wf();
        }
        let mut i: usize = 0;
        while i < self.roads.len()
            invariant
                self.roads.wf(),
                r.wf(),
                road_cost == 300,
                i <= self.roads.entries().len(),
                forall|k: u64| #[trigger] r@.contains_key(k) ==> self.roads@.contains_key(k)
                    && self.roads@[k] == RoadDiff::Extra && r@[k] == 300,
                forall|a: int| 0 <= a < i && (#[trigger] self.roads.entries()[a]).1 == RoadDiff::Extra
                    ==> r@.contains_key(self.roads.entries()[a].0),
            decreases self.roads.entries().len() - i,
        {
            let k = self.roads.key_at(i);
            proof {
                self.roads.lemma_wf();
            }
            if *self.roads.value_at(i) == RoadDiff::Extra {
                r.insert(k, road_cost);
                proof {
                    assert(self.roads@.contains_key(self.roads.entries()[i as int].0));
                }
            }
            i = i + 1;
        }
        proof {
            self.roads.lemma_wf();
        }
        let ghost road_losses = r@;
        let mut j: usize = 0;
        while j < self.structures.len()
            invariant
                self.roads.wf(),
                self.structures.wf(),
                r.wf(),
                j <= self.structures.entries().len(),
                forall|k: u64| #[trigger] road_losses.contains_key(k) <==> self.roads@.contains_key(k)
                    && self.roads@[k] == RoadDiff::Extra,
                forall|k: u64| #[trigger] road_losses.contains_key(k) ==> road_losses[k] == 300,
                forall|a: int| 0 <= a < j ==> #[trigger] lookup(r@, self.structures.entries()[a].0)
                    == removal_loss(self.roads@, self.structures@, self.structures.entries()[a].0),
                forall|k: u64| !(exists|a: int| 0 <= a < j && self.structures.entries()[a].0 == k)
                    ==> #[trigger] lookup(r@, k) == lookup(road_losses, k),
            decreases self.structures.entries().len() - j,
        {
            let k = self.structures.key_at(j);
            let ghost r0 = r@;
            proof {
                self.structures.lemma_wf();
                assert(!(exists|a: int| 0 <= a < j && self.structures.entries()[a].0 == k));
                assert(lookup(r0, k) == lookup(road_losses, k));
            }
            let removed = match self.structures.value_at(j) {
                StructureDiff::Missing(_) => None,
                StructureDiff::Extra(found) => Some(*found),
                StructureDiff::Different { expected: _, found } => Some(*found),
            };
            if let Some(s) = removed {
                proof {
                    assert(self.structures@.contains_key(k));
                }
                let loss: u32 = match s {
                    GameStructure::Rampart => 300_000_000,
                    GameStructure::Wall => 300_000_000,
                    _ => match s.construction_cost() {
                        Some(c) => c,
                        None => 0,
                    },
                };
                let total: u32 = match r.get(k) {
                    Some(road) => loss + *road,
                    None => loss,
                };
                r.insert(k, total);
            }
            proof {
                assert forall|k2: u64| !(exists|a: int| 0 <= a < j + 1 && self.structures.entries()[a].0 == k2)
                    implies #[trigger] lookup(r@, k2) == lookup(road_losses, k2) by {
                    assert(self.structures.entries()[j as int].0 != k2);
                    assert(!(exists|a: int| 0 <= a < j && self.structures.entries()[a].0 == k2));
                    assert(lookup(r0, k2) == lookup(road_losses, k2));
                    assert(lookup(r@, k2) == lookup(r0, k2));
                }
                assert forall|a: int| 0 <= a < j + 1 implies #[trigger] lookup(r@, self.structures.entries()[a].0)
                    == removal_loss(self.roads@, self.structures@, self.structures.entries()[a].0) by {
                    if a < j {
                        assert(self.structures.entries()[a].0 != k);
                        assert(lookup(r@, self.structures.entries()[a].0) == lookup(r0, self.structures.entries()[a].0));
                    } else {
                        assert(!(exists|b: int| 0 <= b < j && self.structures.entries()[b].0 == k));
                    }
                }
            }
            j = j + 1;
        }
        proof {
            self.structures.lemma_wf();
            assert forall|k: u64| #[trigger] lookup(r@, k) == removal_loss(self.roads@, self.structures@, k) by {
                if self.structures@.contains_key(k) {
                    let a = choose|a: int| 0 <= a < self.structures.entries().len() && self.structures.entries()[a].0 == k;
                    assert(lookup(r@, self.structures.entries()[a].0)
                        == removal_loss(self.roads@, self.structures@, self.structures.entries()[a].0));
                } else {
                    assert(!(exists|a: int| 0 <= a < j && self.structures.entries()[a].0 == k));
                }
            }
        }
        r
    }
}

/// The extra roads among entries, in their order, each as a removal.
pub open spec fn road_removals(e: Seq<(u64, RoadDiff)>) -> Seq<(RoomXY, GameStructure)>
    decreases e.len(),
{
    if e.len() == 0 {
        Seq::empty()
    } else if e.last().1 == RoadDiff::Extra {
        road_removals(e.drop_last()).push((key_xy(e.last().0), GameStructure::Road))
    } else {
        road_removals(e.drop_last())
    }
}

/// The structures to tear down among entries, in their order.
pub open spec fn structure_removals(e: Seq<(u64, StructureDiff)>) -> Seq<(RoomXY, GameStructure)>
    decreases e.len(),
{
    if e.len() == 0 {
        Seq::empty()
    } else {
        match removed_structure(e.last().1) {
            Some(s) => structure_removals(e.drop_last()).push((key_xy(e.last().0), s)),
            None => structure_removals(e.drop_last()),
        }
    }
}

impl ColonyPlanDiff {
    /// What to tear down to bring the room to the plan: the extra roads, then the
    /// structures found where the plan has none or another kind.
    pub fn migrate(self) -> (r: Vec<(RoomXY, GameStructure)>)
        requires
            self.roads.wf(),
            self.structures.wf(),
            keys_are_tiles(self.roads@.dom()),
            keys_are_tiles(self.structures@.dom()),
        ensures
            r@ == road_removals(self.roads.entries()) + structure_removals(self.structures.entries()),
            forall|i: int| 0 <= i < r@.len() ==> removal_at(self.roads@, self.structures@, #[trigger] r@[i]),
            forall|k: u64| #[trigger] self.roads@.contains_key(k) && self.roads@[k] == RoadDiff::Extra
                ==> r@.contains((key_xy(k), GameStructure::Road)),
            forall|k: u64| #[trigger] self.structures@.contains_key(k) && removed_structure(self.structures@[k]) is Some
                ==> r@.contains((key_xy(k), removed_structure(self.structures@[k]).unwrap())),
    {
        let mut r: Vec<(RoomXY, GameStructure)> = Vec::new();
        proof {
            self.roads.lemma_wf();
            self.structures.lemma_wf();
        }
        let mut i: usize = 0;
        while i < self.roads.len()
            invariant
                self.roads.wf(),
                keys_are_tiles(self.roads@.dom()),
                i <= self.roads.entries().len(),
                r@ == road_removals(self.roads.entries().take(i as int)),
                forall|a: int| 0 <= a < r@.len() ==> removal_at(self.roads@, self.structures@, #[trigger] r@[a]),
                forall|a: int| 0 <= a < i && (#[trigger] self.roads.entries()[a]).1 == RoadDiff::Extra
                    ==> r@.contains((key_xy(self.roads.entries()[a].0), GameStructure::Road)),
            decreases self.roads.entries().len() - i,
        {
            let k = self.roads.key_at(i);
            proof {
                self.roads.lemma_wf();
                assert(self.roads.entries().take(i as int + 1).drop_last() =~= self.roads.entries().take(i as int));
                assert(self.roads@.contains_key(k));
            }
            let ghost r0 = r@;
            if *self.roads.value_at(i) == RoadDiff::Extra {
                let p = RoomXY { x: (k / 256) as u8, y: (k % 256) as u8 };
                r.push((p, GameStructure::Road));
                proof {
                    assert(r@[r@.len() - 1] == (p, GameStructure::Road));
                    assert forall|a: int| 0 <= a < i + 1 && (#[trigger] self.roads.entries()[a]).1 == RoadDiff::Extra
                        implies r@.contains((key_xy(self.roads.entries()[a].0), GameStructure::Road)) by {
                        if a < i {
                            let b = choose|b: int| 0 <= b < r0.len() && r0[b] == (key_xy(self.roads.entries()[a].0), GameStructure::Road);
                            assert(r@[b] == r0[b]);
                        } else {
                            assert(r@[r@.len() - 1] == (key_xy(self.roads.entries()[a].0), GameStructure::Road));
                        }
                    }
                }
            }
            i = i + 1;
        }
        proof {
            assert(self.roads.entries().take(i as int) =~= self.roads.entries());
        }
        let ghost roads_part = r@;
        let mut j: usize = 0;
        while j < self.structures.len()
            invariant
                self.roads.wf(),
                self.structures.wf(),
                keys_are_tiles(self.structures@.dom()),
                j <= self.structures.entries().len(),
                roads_part == road_removals(self.roads.entries()),
                r@ == roads_part + structure_removals(self.structures.entries().take(j as int)),
                forall|a: int| 0 <= a < r@.len() ==> removal_at(self.roads@, self.structures@, #[trigger] r@[a]),
                forall|k: u64| #[trigger] self.roads@.contains_key(k) && self.roads@[k] == RoadDiff::Extra
                    ==> r@.contains((key_xy(k), GameStructure::Road)),
                forall|a: int| 0 <= a < j && (#[trigger] removed_structure(self.structures.entries()[a].1)) is Some
                    ==> r@.contains((key_xy(self.structures.entries()[a].0), removed_structure(self.structures.entries()[a].1).unwrap())),
            decreases self.structures.entries().len() - j,
        {
            let k = self.structures.key_at(j);
            proof {
                self.structures.lemma_wf();
                assert(self.structures.entries().take(j as int + 1).drop_last() =~= self.structures.entries().take(j as int));
                assert(self.structures@.contains_key(k));
            }
            let ghost r0 = r@;
            let removed = match self.structures.value_at(j) {
                StructureDiff::Missing(_) => None,
                StructureDiff::Extra(found) => Some(*found),
                StructureDiff::Different { expected: _, found } => Some(*found),
            };
            if let Some(s) = removed {
                let p = RoomXY { x: (k / 256) as u8, y: (k % 256) as u8 };
                r.push((p, s));
                proof {
                    assert(r@ =~= roads_part + structure_removals(self.structures.entries().take(j as int + 1)));
                    assert(r@[r@.len() - 1] == (p, s));
                    assert forall|k2: u64| #[trigger] self.roads@.contains_key(k2) && self.roads@[k2] == RoadDiff::Extra
                        implies r@.contains((key_xy(k2), GameStructure::Road)) by {
                        let b = choose|b: int| 0 <= b < r0.len() && r0[b] == (key_xy(k2), GameStructure::Road);
                        assert(r@[b] == r0[b]);
                    }
                    assert forall|a: int| 0 <= a < j + 1 && (#[trigger] removed_structure(self.structures.entries()[a].1)) is Some
                        implies r@.contains((key_xy(self.structures.entries()[a].0), removed_structure(self.structures.entries()[a].1).unwrap())) by {
                        if a < j {
                            let b = choose|b: int| 0 <= b < r0.len()
                                && r0[b] == (key_xy(self.structures.entries()[a].0), removed_structure(self.structures.entries()[a].1).unwrap());
                            assert(r@[b] == r0[b]);
                        } else {
                            assert(r@[r@.len() - 1] == (key_xy(self.structures.entries()[a].0), removed_structure(self.structures.entries()[a].1).unwrap()));
                        }
                    }
                }
            } else {
                proof {
                    assert(r@ =~= roads_part + structure_removals(self.structures.entries().take(j as int + 1)));
                }
            }
            j = j + 1;
        }
        proof {
            assert(self.structures.entries().take(j as int) =~= self.structures.entries());
            self.roads.lemma_wf();
            self.structures.lemma_wf();
            assert forall|k: u64| #[trigger] self.structures@.contains_key(k) && removed_structure(self.structures@[k]) is Some
                implies r@.contains((key_xy(k), removed_structure(self.structures@[k]).unwrap())) by {
                let a = choose|a: int| 0 <= a < self.structures.entries().len() && self.structures.entries()[a].0 == k;
                assert(removed_structure(self.structures.entries()[a].1) is Some);
            }
        }
        r
    }
}

/// The planned roads whose tiles have no road in the room, in their order.
pub open spec fn missing_roads_of(s: Seq<RoomXY>, roads: Map<u64, bool>) -> Seq<RoomXY>
    decreases s.len(),
{
    if s.len() == 0 {
        Seq::empty()
    } else if roads.contains_key(xy_key(s.last())) {
        missing_roads_of(s.drop_last(), roads)
    } else {
        missing_roads_of(s.drop_last(), roads).push(s.last())
    }
}

/// The room already has the planned structure, of its kind, on its tile.
pub open spec fn structure_in_place(e: (RoomXY, StructureKind), structures: Map<u64, (GameStructure, bool)>) -> bool {
    structures.contains_key(xy_key(e.0)) && structures[xy_key(e.0)].0 == kind_structure(e.1)
}

/// The planned structures that are not in place, in their order.
pub open spec fn missing_structures_of(s: Seq<(RoomXY, StructureKind)>, structures: Map<u64, (GameStructure, bool)>)
    -> Seq<(RoomXY, StructureKind)>
    decreases s.len(),
{
    if s.len() == 0 {
        Seq::empty()
    } else if structure_in_place(s.last(), structures) {
        missing_structures_of(s.drop_last(), structures)
    } else {
        missing_structures_of(s.drop_last(), structures).push(s.last())
    }
}

/// A planned structure's tile holds a structure of another kind.
pub open spec fn has_overlap(s: Seq<(RoomXY, StructureKind)>, structures: Map<u64, (GameStructure, bool)>) -> bool {
    exists|j: int| 0 <= j < s.len() && structures.contains_key(xy_key((#[trigger] s[j]).0))
        && !structure_in_place(s[j], structures)
}

/// Every road and structure of the step stands finished in the room.
pub open spec fn step_finished(step: StepPlan, roads: Map<u64, bool>, structures: Map<u64, (GameStructure, bool)>) -> bool {
    &&& forall|j: int| 0 <= j < step.new_roads@.len() ==> roads.contains_key(xy_key(#[trigger] step.new_roads@[j]))
        && roads[xy_key(step.new_roads@[j])]
    &&& forall|j: int| 0 <= j < step.new_structures@.len() ==> structures.contains_key(xy_key((#[trigger] step.new_structures@[j]).0))
        && structures[xy_key(step.new_structures@[j].0)].1
}

/// What building a step asks of the room: construction sites for the missing
/// roads, then, unless a planned tile holds another structure, for the missing
/// structures; and whether the step already stands finished.
pub struct StepBuild {
    pub roads: Vec<RoomXY>,
    pub structures: Vec<(RoomXY, StructureKind)>,
    pub overlap: bool,
    pub finished: bool,
}

impl StepPlan {
    /// What building this step asks of a room with these roads and structures.
    pub fn build(&self, roads: &RoomRoads, structures: &RoomStructures) -> (b: StepBuild)
        requires
            roads.wf(),
            structures.wf(),
        ensures
            b.roads@ == missing_roads_of(self.new_roads@, roads@),
            b.structures@ == missing_structures_of(self.new_structures@, structures@),
            b.overlap == has_overlap(self.new_structures@, structures@),
            b.finished == step_finished(*self, roads@, structures@),
    {
        let mut missing_roads: Vec<RoomXY> = Vec::new();
        let mut roads_finished = true;
        let mut i: usize = 0;
        while i < self.new_roads.len()
            invariant
                roads.wf(),
                i <= self.new_roads@.len(),
                missing_roads@ == missing_roads_of(self.new_roads@.take(i as int), roads@),
                roads_finished == (forall|j: int| 0 <= j < i ==> roads@.contains_key(xy_key(#[trigger] self.new_roads@[j]))
                    && roads@[xy_key(self.new_roads@[j])]),
            decreases self.new_roads@.len() - i,
        {
            let p = self.new_roads[i];
            let k: u64 = p.x as u64 * 256 + p.y as u64;
            proof {
                assert(self.new_roads@.take(i as int + 1).drop_last() =~= self.new_roads@.take(i as int));
            }
            match roads.get(k) {
                Some(done) => {
                    if !*done {
                        roads_finished = false;
                    }
                }
                None => {
                    missing_roads.push(p);
                    roads_finished = false;
                }
            }
            i = i + 1;
        }
        proof {
            assert(self.new_roads@.take(i as int) =~= self.new_roads@);
        }
        let mut missing_structures: Vec<(RoomXY, StructureKind)> = Vec::new();
        let mut overlap = false;
        let mut structures_finished = true;
        let mut j: usize = 0;
        while j < self.new_structures.len()
            invariant
                structures.wf(),
                j <= self.new_structures@.len(),
                missing_structures@ == missing_structures_of(self.new_structures@.take(j as int), structures@),
                overlap == (exists|a: int| 0 <= a < j && structures@.contains_key(xy_key((#[trigger] self.new_structures@[a]).0))
                    && !structure_in_place(self.new_structures@[a], structures@)),
                structures_finished == (forall|a: int| 0 <= a < j
                    ==> structures@.contains_key(xy_key((#[trigger] self.new_structures@[a]).0))
                    && structures@[xy_key(self.new_structures@[a].0)].1),
            decreases self.new_structures@.len() - j,
        {
            let (p, kind) = self.new_structures[j];
            let k: u64 = p.x as u64 * 256 + p.y as u64;
            proof {
                assert(self.new_structures@.take(j as int + 1).drop_last() =~= self.new_structures@.take(j as int));
            }
            let expected = GameStructure::from_kind(kind);
            match structures.get(k) {
                Some(found) => {
                    if found.0 != expected {
                        missing_structures.push((p, kind));
                        overlap = true;
                    }
                    if !found.1 {
                        structures_finished = false;
                    }
                }
                None => {
                    missing_structures.push((p, kind));
                    structures_finished = false;
                }
            }
            j = j + 1;
        }
        proof {
            assert(self.new_structures@.take(j as int) =~= self.new_structures@);
        }
        StepBuild {
            roads: missing_roads,
            structures: missing_structures,
            overlap,
            finished: roads_finished && structures_finished,
        }
    }
}

/// A diff that the room can reach by building alone costs nothing to tear down,
/// and a diff that costs nothing anywhere can be reached by building alone.
pub proof fn law_compatible_iff_nothing_lost(roads: Map<u64, RoadDiff>, structures: Map<u64, StructureDiff>)
    ensures
        ((forall|k: u64| #[trigger] roads.contains_key(k) ==> road_only_missing(roads[k]))
            && (forall|k: u64| #[trigger] structures.contains_key(k) ==> structure_only_missing(structures[k])))
        <==> (forall|k: u64| #[trigger] removal_loss(roads, structures, k) is None),
{
    if forall|k: u64| #[trigger] removal_loss(roads, structures, k) is None {
        assert forall|k: u64| #[trigger] roads.contains_key(k) implies road_only_missing(roads[k]) by {
            assert(removal_loss(roads, structures, k) is None);
        }
        assert forall|k: u64| #[trigger] structures.contains_key(k) implies structure_only_missing(structures[k]) by {
            assert(removal_loss(roads, structures, k) is None);
        }
    }
}

/// What is in the road removals of entries: the extra roads' tiles.
proof fn lemma_road_removals_members(e: Seq<(u64, RoadDiff)>)
    ensures
        forall|x: (RoomXY, GameStructure)| #[trigger] road_removals(e).contains(x) <==>
            exists|a: int| 0 <= a < e.len() && e[a].1 == RoadDiff::Extra && x == (key_xy(e[a].0), GameStructure::Road),
    decreases e.len(),
{
    if e.len() > 0 {
        lemma_road_removals_members(e.drop_last());
        let r0 = road_removals(e.drop_last());
        assert forall|x: (RoomXY, GameStructure)| #[trigger] road_removals(e).contains(x) <==>
            exists|a: int| 0 <= a < e.len() && e[a].1 == RoadDiff::Extra && x == (key_xy(e[a].0), GameStructure::Road) by {
            if e.last().1 == RoadDiff::Extra {
                let y = (key_xy(e.last().0), GameStructure::Road);
                if road_removals(e).contains(x) {
                    let i = choose|i: int| 0 <= i < road_removals(e).len() && road_removals(e)[i] == x;
                    if i < r0.len() {
                        assert(r0[i] == x);
                        assert(r0.contains(x));
                        let a = choose|a: int| 0 <= a < e.drop_last().len() && e.drop_last()[a].1 == RoadDiff::Extra
                            && x == (key_xy(e.drop_last()[a].0), GameStructure::Road);
                        assert(e[a] == e.drop_last()[a]);
                    } else {
                        assert(x == y);
                        assert(e[e.len() - 1] == e.last());
                    }
                }
                if exists|a: int| 0 <= a < e.len() && e[a].1 == RoadDiff::Extra && x == (key_xy(e[a].0), GameStructure::Road) {
                    let a = choose|a: int| 0 <= a < e.len() && e[a].1 == RoadDiff::Extra && x == (key_xy(e[a].0), GameStructure::Road);
                    if a < e.len() - 1 {
                        assert(e.drop_last()[a] == e[a]);
                        assert(r0.contains(x));
                        let i = choose|i: int| 0 <= i < r0.len() && r0[i] == x;
                        assert(road_removals(e)[i] == x);
                    } else {
                        assert(road_removals(e)[r0.len() as int] == y);
                    }
                }
            } else {
                if road_removals(e).contains(x) {
                    let a = choose|a: int| 0 <= a < e.drop_last().len() && e.drop_last()[a].1 == RoadDiff::Extra
                        && x == (key_xy(e.drop_last()[a].0), GameStructure::Road);
                    assert(e[a] == e.drop_last()[a]);
                }
                if exists|a: int| 0 <= a < e.len() && e[a].1 == RoadDiff::Extra && x == (key_xy(e[a].0), GameStructure::Road) {
                    let a = choose|a: int| 0 <= a < e.len() && e[a].1 == RoadDiff::Extra && x == (key_xy(e[a].0), GameStructure::Road);
                    assert(a < e.len() - 1);
                    assert(e.drop_last()[a] == e[a]);
                }
            }
        }
    }
}

/// What is in the structure removals of entries: the removed structures' tiles.
proof fn lemma_structure_removals_members(e: Seq<(u64, StructureDiff)>)
    ensures
        forall|x: (RoomXY, GameStructure)| #[trigger] structure_removals(e).contains(x) <==>
            exists|a: int| 0 <= a < e.len() && removed_structure(e[a].1) == Some(x.1) && x.0 == key_xy(e[a].0),
    decreases e.len(),
{
    if e.len() > 0 {
        lemma_structure_removals_members(e.drop_last());
        let r0 = structure_removals(e.drop_last());
        assert forall|x: (RoomXY, GameStructure)| #[trigger] structure_removals(e).contains(x) <==>
            exists|a: int| 0 <= a < e.len() && removed_structure(e[a].1) == Some(x.1) && x.0 == key_xy(e[a].0) by {
            match removed_structure(e.last().1) {
                Some(s) => {
                    let y = (key_xy(e.last().0), s);
                    if structure_removals(e).contains(x) {
                        let i = choose|i: int| 0 <= i < structure_removals(e).len() && structure_removals(e)[i] == x;
                        if i < r0.len() {
                            assert(r0[i] == x);
                            assert(r0.contains(x));
                            let a = choose|a: int| 0 <= a < e.drop_last().len() && removed_structure(e.drop_last()[a].1) == Some(x.1)
                                && x.0 == key_xy(e.drop_last()[a].0);
                            assert(e[a] == e.drop_last()[a]);
                        } else {
                            assert(x == y);
                            assert(e[e.len() - 1] == e.last());
                        }
                    }
                    if exists|a: int| 0 <= a < e.len() && removed_structure(e[a].1) == Some(x.1) && x.0 == key_xy(e[a].0) {
                        let a = choose|a: int| 0 <= a < e.len() && removed_structure(e[a].1) == Some(x.1) && x.0 == key_xy(e[a].0);
                        if a < e.len() - 1 {
                            assert(e.drop_last()[a] == e[a]);
                            assert(r0.contains(x));
                            let i = choose|i: int| 0 <= i < r0.len() && r0[i] == x;
                            assert(structure_removals(e)[i] == x);
                        } else {
                            assert(x == y);
                            assert(structure_removals(e)[r0.len() as int] == y);
                        }
                    }
                }
                None => {
                    if structure_removals(e).contains(x) {
                        let a = choose|a: int| 0 <= a < e.drop_last().len() && removed_structure(e.drop_last()[a].1) == Some(x.1)
                            && x.0 == key_xy(e.drop_last()[a].0);
                        assert(e[a] == e.drop_last()[a]);
                    }
                    if exists|a: int| 0 <= a < e.len() && removed_structure(e[a].1) == Some(x.1) && x.0 == key_xy(e[a].0) {
                        let a = choose|a: int| 0 <= a < e.len() && removed_structure(e[a].1) == Some(x.1) && x.0 == key_xy(e[a].0);
                        assert(a < e.len() - 1);
                        assert(e.drop_last()[a] == e[a]);
                    }
                }
            }
        }
    }
}

/// Law: the tiles that `migrate` tears down on are exactly those where
/// `get_removal_losses` counts a loss.
pub proof fn law_migrate_tears_down_what_costs(d: &ColonyPlanDiff, k: u64)
    requires
        d.roads.wf(),
        d.structures.wf(),
        keys_are_tiles(d.roads@.dom()),
        keys_are_tiles(d.structures@.dom()),
    ensures
        (exists|i: int| 0 <= i < (road_removals(d.roads.entries()) + structure_removals(d.structures.entries())).len()
            && xy_key((#[trigger] (road_removals(d.roads.entries()) + structure_removals(d.structures.entries()))[i]).0) == k)
        <==> removal_loss(d.roads@, d.structures@, k) is Some,
{
    let re = d.roads.entries();
    let se = d.structures.entries();
    let rr = road_removals(re);
    let sr = structure_removals(se);
    let all = rr + sr;
    d.roads.lemma_wf();
    d.structures.lemma_wf();
    lemma_road_removals_members(re);
    lemma_structure_removals_members(se);
    if exists|i: int| 0 <= i < all.len() && xy_key((#[trigger] all[i]).0) == k {
        let i = choose|i: int| 0 <= i < all.len() && xy_key((#[trigger] all[i]).0) == k;
        let x = all[i];
        if i < rr.len() {
            assert(rr[i] == x);
            assert(rr.contains(x));
            let a = choose|a: int| 0 <= a < re.len() && re[a].1 == RoadDiff::Extra && x == (key_xy(re[a].0), GameStructure::Road);
            assert(d.roads@.contains_key(re[a].0));
            assert(xy_key(key_xy(re[a].0)) == re[a].0);
        } else {
            assert(sr[i - rr.len()] == x);
            assert(sr.contains(x));
            let a = choose|a: int| 0 <= a < se.len() && removed_structure(se[a].1) == Some(x.1) && x.0 == key_xy(se[a].0);
            assert(d.structures@.contains_key(se[a].0));
            assert(xy_key(key_xy(se[a].0)) == se[a].0);
        }
    }
    if removal_loss(d.roads@, d.structures@, k) is Some {
        if d.roads@.contains_key(k) && d.roads@[k] == RoadDiff::Extra {
            let a = choose|a: int| 0 <= a < re.len() && re[a].0 == k;
            let x = (key_xy(k), GameStructure::Road);
            assert(rr.contains(x));
            let i = choose|i: int| 0 <= i < rr.len() && rr[i] == x;
            assert(all[i] == x);
            assert(xy_key(key_xy(k)) == k);
        } else {
            assert(d.structures@.contains_key(k));
            let s = removed_structure(d.structures@[k]).unwrap();
            let a = choose|a: int| 0 <= a < se.len() && se[a].0 == k;
            let x = (key_xy(k), s);
            assert(removed_structure(se[a].1) == Some(x.1));
            assert(sr.contains(x));
            let i = choose|i: int| 0 <= i < sr.len() && sr[i] == x;
            assert(all[rr.len() + i] == x);
            assert(xy_key(key_xy(k)) == k);
        }
    }
}

} // verus!
