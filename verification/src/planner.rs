//! The planner of a colony's layout: which structure stands where, from which step
//! of development on, which roads are planned, and the path costs that follow.
//! Structures of each kind are limited per controller level, as the game limits
//! them.
use vstd::prelude::*;
use crate::keyed::KeyedMap;
use crate::steps::{ColonyStep, STEP_COUNT, step_index, step_at, step_level};

verus! {

/// The side of a room, in tiles.
pub const ROOM_SIZE: u8 = 50;
/// The number of tiles in a room.
pub const ROOM_AREA: usize = 2500;
/// The number of kinds of structures that plans use.
pub const KIND_COUNT: usize = 9;

/// A tile of a room.
#[derive(PartialEq, Eq, Structural, Clone, Copy, Debug, Hash)]
pub struct RoomXY {
    pub x: u8,
    pub y: u8,
}

/// The terrain of a tile.
#[derive(PartialEq, Eq, Structural, Clone, Copy, Debug, Hash)]
pub enum TerrainKind {
    Plain,
    Wall,
    Swamp,
}

/// The kinds of structures that plans use.
#[derive(PartialEq, Eq, Structural, Clone, Copy, Debug, Hash)]
pub enum StructureKind {
    Spawn,
    Container,
    Extension,
    Link,
    Storage,
    Tower,
    Terminal,
    Extractor,
    Observer,
}

/// A structure of a plan; the structures that belong to a source name it.
#[derive(PartialEq, Eq, Structural, Clone, Copy, Debug, Hash)]
pub enum PlannedStructure {
    MainSpawn,
    SourceSpawn(u64),
    SourceContainer(u64),
    SourceLink(u64),
    SourceExtension(u64),
    Extension,
    Storage,
    Terminal,
    ContainerStorage,
    Tower,
    CentralLink,
    Extractor,
    MineralContainer,
    Observer,
}

/// How a tile counts for paths.
#[derive(PartialEq, Eq, Structural, Clone, Copy, Debug)]
pub enum TilePathing {
    BuiltRoad,
    PlannedRoad,
    Plains,
    Swamp,
    Impassable,
}

/// The cost of a tile for paths.
pub open spec fn pathing_cost(t: TilePathing) -> u8 {
    match t {
        TilePathing::BuiltRoad => 5,
        TilePathing::PlannedRoad => 6,
        TilePathing::Plains => 8,
        TilePathing::Swamp => 20,
        TilePathing::Impassable => 255,
    }
}

/// How a tile of a terrain counts for paths.
pub open spec fn terrain_pathing(t: TerrainKind) -> TilePathing {
    match t {
        TerrainKind::Plain => TilePathing::Plains,
        TerrainKind::Swamp => TilePathing::Swamp,
        TerrainKind::Wall => TilePathing::Impassable,
    }
}

impl TilePathing {
    /// The cost of the tile for paths.
    pub fn cost(self) -> (c: u8)
        ensures
            c == pathing_cost(self),
    {
        match self {
            TilePathing::BuiltRoad => 5,
            TilePathing::PlannedRoad => 6,
            TilePathing::Plains => 8,
            TilePathing::Swamp => 20,
            TilePathing::Impassable => 255,
        }
    }

    /// How a tile of the terrain counts.
    pub fn from_terrain(t: TerrainKind) -> (p: TilePathing)
        ensures
            p == terrain_pathing(t),
    {
        match t {
            TerrainKind::Plain => TilePathing::Plains,
            TerrainKind::Swamp => TilePathing::Swamp,
            TerrainKind::Wall => TilePathing::Impassable,
        }
    }
}

/// The structure can be stood on.
pub open spec fn spec_walkable(s: PlannedStructure) -> bool {
    s is SourceContainer || s is ContainerStorage || s is MineralContainer
}

/// The structure can stand on a wall.
pub open spec fn spec_buildable_on_wall(s: PlannedStructure) -> bool {
    s is Extractor
}

/// The kind of a planned structure.
pub open spec fn spec_structure_kind(s: PlannedStructure) -> StructureKind {
    match s {
        PlannedStructure::MainSpawn | PlannedStructure::SourceSpawn(_) => StructureKind::Spawn,
        PlannedStructure::SourceContainer(_) | PlannedStructure::ContainerStorage
        | PlannedStructure::MineralContainer => StructureKind::Container,
        PlannedStructure::Extension | PlannedStructure::SourceExtension(_) => StructureKind::Extension,
        PlannedStructure::CentralLink | PlannedStructure::SourceLink(_) => StructureKind::Link,
        PlannedStructure::Storage => StructureKind::Storage,
        PlannedStructure::Tower => StructureKind::Tower,
        PlannedStructure::Terminal => StructureKind::Terminal,
        PlannedStructure::Extractor => StructureKind::Extractor,
        PlannedStructure::Observer => StructureKind::Observer,
    }
}

/// The index of a kind.
pub open spec fn kind_index(k: StructureKind) -> nat {
    match k {
        StructureKind::Spawn => 0,
        StructureKind::Container => 1,
        StructureKind::Extension => 2,
        StructureKind::Link => 3,
        StructureKind::Storage => 4,
        StructureKind::Tower => 5,
        StructureKind::Terminal => 6,
        StructureKind::Extractor => 7,
        StructureKind::Observer => 8,
    }
}

impl PlannedStructure {
    /// Whether the structure can be stood on.
    pub fn walkable(&self) -> (b: bool)
        ensures
            b == spec_walkable(*self),
    {
        match self {
            PlannedStructure::SourceContainer(_) | PlannedStructure::ContainerStorage
            | PlannedStructure::MineralContainer => true,
            _ => false,
        }
    }

    /// Whether the structure can stand on a wall.
    pub fn buildable_on_wall(&self) -> (b: bool)
        ensures
            b == spec_buildable_on_wall(*self),
    {
        match self {
            PlannedStructure::Extractor => true,
            _ => false,
        }
    }

    /// The kind of the structure.
    pub fn structure_type(&self) -> (k: StructureKind)
        ensures
            k == spec_structure_kind(*self),
    {
        match self {
            PlannedStructure::MainSpawn | PlannedStructure::SourceSpawn(_) => StructureKind::Spawn,
            PlannedStructure::SourceContainer(_) | PlannedStructure::ContainerStorage
            | PlannedStructure::MineralContainer => StructureKind::Container,
            PlannedStructure::Extension | PlannedStructure::SourceExtension(_) => StructureKind::Extension,
            PlannedStructure::CentralLink | PlannedStructure::SourceLink(_) => StructureKind::Link,
            PlannedStructure::Storage => StructureKind::Storage,
            PlannedStructure::Tower => StructureKind::Tower,
            PlannedStructure::Terminal => StructureKind::Terminal,
            PlannedStructure::Extractor => StructureKind::Extractor,
            PlannedStructure::Observer => StructureKind::Observer,
        }
    }
}

/// The number of structures of a kind that a controller of `level` allows, as the
/// game's `CONTROLLER_STRUCTURES` table gives it.
pub open spec fn structure_limit(kind: StructureKind, level: u32) -> u32 {
    match kind {
        StructureKind::Spawn => if level == 0 { 0 } else if level <= 6 { 1 } else if level == 7 { 2 } else { 3 },
        StructureKind::Container => 5,
        StructureKind::Extension => if level <= 1 { 0 } else if level == 2 { 5 } else if level == 3 { 10 } else if level == 4 { 20 }
            else if level == 5 { 30 } else if level == 6 { 40 } else if level == 7 { 50 } else { 60 },
        StructureKind::Link => if level <= 4 { 0 } else if level == 5 { 2 } else if level == 6 { 3 } else if level == 7 { 4 } else { 6 },
        StructureKind::Storage => if level <= 3 { 0 } else { 1 },
        StructureKind::Tower => if level <= 2 { 0 } else if level <= 4 { 1 } else if level <= 6 { 2 } else if level == 7 { 3 } else { 6 },
        StructureKind::Terminal => if level <= 5 { 0 } else { 1 },
        StructureKind::Extractor => if level <= 5 { 0 } else { 1 },
        StructureKind::Observer => if level <= 7 { 0 } else { 1 },
    }
}

/// The number of structures of a kind that a controller of `level` allows, by
/// `screeps::StructureType::controller_structures`, whose table `structure_limit`
/// states for the kinds a plan holds.
#[verifier::external_body]
pub(crate) fn controller_structures(kind: StructureKind, level: u32) -> (r: u32)
    ensures
        r == structure_limit(kind, level),
        r <= 2500,
{
    let ty = match kind {
        StructureKind::Spawn => screeps::StructureType::Spawn,
        StructureKind::Container => screeps::StructureType::Container,
        StructureKind::Extension => screeps::StructureType::Extension,
        StructureKind::Link => screeps::StructureType::Link,
        StructureKind::Storage => screeps::StructureType::Storage,
        StructureKind::Tower => screeps::StructureType::Tower,
        StructureKind::Terminal => screeps::StructureType::Terminal,
        StructureKind::Extractor => screeps::StructureType::Extractor,
        StructureKind::Observer => screeps::StructureType::Observer,
    };
    ty.controller_structures(level)
}

/// The tile is in the room.
pub open spec fn xy_valid(p: RoomXY) -> bool {
    p.x < 50 && p.y < 50
}

/// The tile's index in the room's terrain and cost arrays.
pub open spec fn tile_index(p: RoomXY) -> int {
    p.y * 50 + p.x
}

/// The key under which a tile is recorded.
pub open spec fn xy_key(p: RoomXY) -> u64 {
    (p.x * 256 + p.y) as u64
}

/// The tile recorded under a key.
pub open spec fn key_xy(k: u64) -> RoomXY {
    RoomXY { x: (k / 256) as u8, y: (k % 256) as u8 }
}

/// The position of a count in the table of counts by kind and step.
pub open spec fn count_index(kind: StructureKind, step: nat) -> int {
    (kind_index(kind) * 18 + step) as int
}

/// The structures of a kind planned at the steps up to the `i`-th.
pub open spec fn placed_by(counts: Seq<u32>, kind: StructureKind, i: nat) -> nat
    decreases i,
{
    counts[count_index(kind, i)] as nat + if i == 0 { 0 } else { placed_by(counts, kind, (i - 1) as nat) }
}

/// The structures of a kind that the controller level of the `i`-th step allows.
pub open spec fn limit_at(kind: StructureKind, i: nat) -> nat {
    structure_limit(kind, step_level(step_at(i).unwrap()) as u32) as nat
}

/// The structures of a kind that can still be planned at the `i`-th step.
pub open spec fn left_at(counts: Seq<u32>, kind: StructureKind, i: nat) -> nat {
    if limit_at(kind, i) >= placed_by(counts, kind, i) { (limit_at(kind, i) - placed_by(counts, kind, i)) as nat } else { 0 }
}

/// The least of `left_at` over the steps from the `i`-th to the last.
pub open spec fn min_left_from(counts: Seq<u32>, kind: StructureKind, i: nat) -> nat
    decreases 17 - i,
{
    if i >= 17 {
        left_at(counts, kind, 17)
    } else {
        let rest = min_left_from(counts, kind, i + 1);
        if left_at(counts, kind, i) <= rest { left_at(counts, kind, i) } else { rest }
    }
}

/// Every key stands for a tile of the room.
pub open spec fn keys_are_tiles(keys: Set<u64>) -> bool {
    forall|k: u64| #[trigger] keys.contains(k) ==> xy_valid(key_xy(k)) && xy_key(key_xy(k)) == k
}

/// Why a structure could not be planned, or found.
#[derive(PartialEq, Eq, Structural, Clone, Copy, Debug)]
pub enum PlanError {
    /// The tile is a wall.
    OnWall(PlannedStructure),
    /// No more structures of the kind are allowed by the step.
    NoneLeft(PlannedStructure, ColonyStep),
    /// Another structure is planned on the tile.
    Overlap(PlannedStructure),
    /// No step allows another structure of the kind.
    NoneBuildable(PlannedStructure),
    /// No such structure is planned.
    NotFound(PlannedStructure),
    /// More than one such structure is planned.
    NotUnique(PlannedStructure),
    /// The center has no free tile left.
    NoCenterSpace,
    /// The path to a source has no tile to harvest from.
    EmptyPath,
    /// The path to a source has no tile beyond the harvesting one.
    ShortPath,
    /// No free tile is left beside a source's container for its link.
    NoLinkSlot,
}

/// What planning `s` on tile `p` from `step` on gives.
pub open spec fn plan_structure_result(pl: ColonyPlanner, p: RoomXY, step: ColonyStep, s: PlannedStructure) -> Result<(), PlanError> {
    let kind = spec_structure_kind(s);
    if !spec_buildable_on_wall(s) && pl.terrain()[tile_index(p)] == TerrainKind::Wall {
        Err(PlanError::OnWall(s))
    } else if placed_by(pl.counts(), kind, step_index(step)) >= structure_limit(kind, step_level(step) as u32) {
        Err(PlanError::NoneLeft(s, step))
    } else if pl.structures().contains_key(xy_key(p)) && pl.structures()[xy_key(p)] != s {
        Err(PlanError::Overlap(s))
    } else {
        Ok(())
    }
}

/// `b` is `a` with nothing changed.
pub open spec fn same_plan(a: ColonyPlanner, b: ColonyPlanner) -> bool {
    &&& b.terrain() == a.terrain()
    &&& b.costs() == a.costs()
    &&& b.roads() == a.roads()
    &&& b.structure_steps() == a.structure_steps()
    &&& b.structures() == a.structures()
    &&& b.counts() == a.counts()
}

/// `b` is `a` after planning `s` on tile `p` from `step` on, with result `r`: the
/// structure is recorded unless planning failed or it was already planned from
/// that step or an earlier one; its count goes up, and a structure that cannot be
/// stood on blocks paths.
pub open spec fn structure_planned(a: ColonyPlanner, b: ColonyPlanner, p: RoomXY, step: ColonyStep, s: PlannedStructure,
    r: Result<(), PlanError>) -> bool {
    let k = xy_key(p);
    let ci = count_index(spec_structure_kind(s), step_index(step));
    if r is Err || (a.structure_steps().contains_key(k) && step_index(step) >= step_index(a.structure_steps()[k])) {
        same_plan(a, b)
    } else {
        &&& b.terrain() == a.terrain()
        &&& b.roads() == a.roads()
        &&& b.structures() == a.structures().insert(k, s)
        &&& b.structure_steps() == a.structure_steps().insert(k, step)
        &&& b.counts() == a.counts().update(ci, (a.counts()[ci] + 1) as u32)
        &&& b.costs() == if !spec_walkable(s) { a.costs().update(tile_index(p), 255u8) } else { a.costs() }
    }
}

/// The controller level of the `i`-th step allows more of the kind than are
/// planned by then.
pub open spec fn fits(counts: Seq<u32>, kind: StructureKind, i: nat) -> bool {
    placed_by(counts, kind, i) < limit_at(kind, i)
}

/// The first step of the run of fitting steps that ends at the `i`-th.
pub open spec fn run_start(counts: Seq<u32>, kind: StructureKind, i: nat) -> nat
    decreases i,
{
    if i == 0 {
        0
    } else if fits(counts, kind, (i - 1) as nat) {
        run_start(counts, kind, (i - 1) as nat)
    } else {
        i
    }
}

/// The earliest step from which on every step allows another structure of the
/// kind, if the last step does.
pub open spec fn earliest_step(counts: Seq<u32>, kind: StructureKind) -> Option<ColonyStep> {
    if fits(counts, kind, 17) { step_at(run_start(counts, kind, 17)) } else { None }
}

/// The road on the tile is planned by `step`, and no structure is planned there.
pub open spec fn road_built_by(pl: ColonyPlanner, k: u64, step: ColonyStep) -> bool {
    pl.roads().contains_key(k) && step_index(pl.roads()[k]) <= step_index(step) && !pl.structures().contains_key(k)
}

/// A road may be planned on the tile: nothing is planned there that cannot be
/// stood on, and it is no wall.
pub open spec fn road_allowed(pl: ColonyPlanner, p: RoomXY) -> bool {
    &&& (!pl.structures().contains_key(xy_key(p)) || spec_walkable(pl.structures()[xy_key(p)]))
    &&& pl.terrain()[tile_index(p)] != TerrainKind::Wall
}

/// Some tile of the path where a road may be planned has key `k`.
pub open spec fn on_path(pl: ColonyPlanner, path: Seq<RoomXY>, k: u64) -> bool {
    exists|i: int| 0 <= i < path.len() && #[trigger] xy_key(path[i]) == k && road_allowed(pl, path[i])
}

/// The road on tile `k` is planned anew from `step` on: it was not planned, or only
/// from a later step.
pub open spec fn road_renewed(pl: ColonyPlanner, k: u64, step: ColonyStep) -> bool {
    !(pl.roads().contains_key(k) && step_index(step) >= step_index(pl.roads()[k]))
}

/// The new roads and structures of one step.
pub struct StepPlan {
    pub new_roads: Vec<RoomXY>,
    pub new_structures: Vec<(RoomXY, StructureKind)>,
}

/// The tiles of `r` are exactly those recorded in `m` with the `i`-th step, each once.
pub open spec fn tiles_at_step(r: Seq<RoomXY>, m: Map<u64, ColonyStep>, i: nat) -> bool {
    &&& r.no_duplicates()
    &&& forall|j: int| 0 <= j < r.len() ==> xy_valid(#[trigger] r[j]) && m.contains_key(xy_key(r[j]))
        && step_index(m[xy_key(r[j])]) == i
    &&& forall|k: u64| #[trigger] m.contains_key(k) && step_index(m[k]) == i ==> exists|j: int| 0 <= j < r.len() && xy_key(r[j]) == k
}

/// `b` is `a` after planning a road on tile `p` from `step` on: nothing changes
/// where one is planned there from that step or an earlier one; otherwise the road
/// is recorded from `step` on and, where no structure is planned there, paths over
/// it get the cost of a planned road.
pub open spec fn road_planned(a: ColonyPlanner, b: ColonyPlanner, p: RoomXY, step: ColonyStep) -> bool {
    &&& b.terrain() == a.terrain()
    &&& b.structures() == a.structures()
    &&& b.structure_steps() == a.structure_steps()
    &&& b.counts() == a.counts()
    &&& if a.roads().contains_key(xy_key(p)) && step_index(step) >= step_index(a.roads()[xy_key(p)]) {
        b.roads() == a.roads() && b.costs() == a.costs()
    } else {
        &&& b.roads() == a.roads().insert(xy_key(p), step)
        &&& b.costs() == if a.structures().contains_key(xy_key(p)) {
            a.costs()
        } else {
            a.costs().update(tile_index(p), pathing_cost(TilePathing::PlannedRoad))
        }
    }
}

/// The layout of a colony as planned so far.
pub struct ColonyPlanner {
    terrain: Vec<TerrainKind>,
    cost_matrix: Vec<u8>,
    roads: KeyedMap<ColonyStep>,
    structures: KeyedMap<ColonyStep>,
    pos2structure: KeyedMap<PlannedStructure>,
    counts: Vec<u32>,
}

impl ColonyPlanner {
    /// The terrain, by tile index.
    pub closed spec fn terrain(&self) -> Seq<TerrainKind> {
        self.terrain@
    }

    /// The cost of each tile for paths, by tile index.
    pub closed spec fn costs(&self) -> Seq<u8> {
        self.cost_matrix@
    }

    /// The planned roads and the step from which each is planned, by tile key.
    pub closed spec fn roads(&self) -> Map<u64, ColonyStep> {
        self.roads@
    }

    /// The step from which each planned structure is planned, by tile key.
    pub closed spec fn structure_steps(&self) -> Map<u64, ColonyStep> {
        self.structures@
    }

    /// The planned structures, by tile key.
    pub closed spec fn structures(&self) -> Map<u64, PlannedStructure> {
        self.pos2structure@
    }

    /// The number of structures planned, by kind and step.
    pub closed spec fn counts(&self) -> Seq<u32> {
        self.counts@
    }

    /// The arrays cover the room and the table every kind and step; no count
    /// exceeds what any controller level allows.
    pub closed spec fn wf(&self) -> bool {
        &&& self.terrain@.len() == ROOM_AREA
        &&& self.cost_matrix@.len() == ROOM_AREA
        &&& self.roads.wf()
        &&& self.structures.wf()
        &&& self.pos2structure.wf()
        &&& self.counts@.len() == KIND_COUNT * 18
        &&& forall|i: int| 0 <= i < self.counts@.len() ==> #[trigger] self.counts@[i] <= 2500
        &&& keys_are_tiles(self.roads@.dom())
        &&& keys_are_tiles(self.structures@.dom())
        &&& keys_are_tiles(self.pos2structure@.dom())
        &&& self.pos2structure@.dom() == self.structures@.dom()
    }

    /// A planner with nothing planned, over a room's terrain (by tile index).
    pub fn new(terrain: Vec<TerrainKind>) -> (p: Self)
        requires
            terrain@.len() == ROOM_AREA,
        ensures
            p.wf(),
            p.terrain() == terrain@,
            p.costs() == terrain@.map_values(|t: TerrainKind| pathing_cost(terrain_pathing(t))),
            p.roads() == Map::<u64, ColonyStep>::empty(),
            p.structure_steps() == Map::<u64, ColonyStep>::empty(),
            p.structures() == Map::<u64, PlannedStructure>::empty(),
            forall|i: int| 0 <= i < p.counts().len() ==> p.counts()[i] == 0,
            p.counts().len() == KIND_COUNT * 18,
    {
        let mut cost_matrix: Vec<u8> = Vec::new();
        let mut i: usize = 0;
        while i < ROOM_AREA
            invariant
                terrain@.len() == ROOM_AREA,
                i <= ROOM_AREA,
                cost_matrix@ == terrain@.take(i as int).map_values(|t: TerrainKind| pathing_cost(terrain_pathing(t))),
            decreases ROOM_AREA - i,
        {
            let c = TilePathing::from_terrain(terrain[i]).cost();
            cost_matrix.push(c);
            proof {
                assert(terrain@.take(i as int + 1).map_values(|t: TerrainKind| pathing_cost(terrain_pathing(t)))
                    =~= terrain@.take(i as int).map_values(|t: TerrainKind| pathing_cost(terrain_pathing(t))).push(c));
            }
            i = i + 1;
        }
        proof {
            assert(terrain@.take(ROOM_AREA as int) =~= terrain@);
        }
        let mut counts: Vec<u32> = Vec::new();
        let mut j: usize = 0;
        while j < KIND_COUNT * 18
            invariant
                j <= KIND_COUNT * 18,
                counts@.len() == j,
                forall|a: int| 0 <= a < j ==> counts@[a] == 0,
            decreases KIND_COUNT * 18 - j,
        {
            counts.push(0);
            j = j + 1;
        }
        ColonyPlanner {
            terrain,
            cost_matrix,
            roads: KeyedMap::new(),
            structures: KeyedMap::new(),
            pos2structure: KeyedMap::new(),
            counts,
        }
    }

    fn key(p: RoomXY) -> (k: u64)
        ensures
            k == xy_key(p),
    {
        p.x as u64 * 256 + p.y as u64
    }

    fn index(p: RoomXY) -> (i: usize)
        requires
            xy_valid(p),
        ensures
            i == tile_index(p),
            i < ROOM_AREA,
    {
        p.y as usize * 50 + p.x as usize
    }

    /// A copy of the room's terrain, by tile index.
    pub fn terrain_copy(&self) -> (t: Vec<TerrainKind>)
        requires
            self.wf(),
        ensures
            t@ == self.terrain(),
            t@.len() == ROOM_AREA,
    {
        let mut t: Vec<TerrainKind> = Vec::new();
        let mut i: usize = 0;
        while i < self.terrain.len()
            invariant
                i <= self.terrain@.len(),
                t@ == self.terrain@.take(i as int),
            decreases self.terrain@.len() - i,
        {
            t.push(self.terrain[i]);
            proof {
                assert(self.terrain@.take(i as int + 1) =~= self.terrain@.take(i as int).push(self.terrain@[i as int]));
            }
            i = i + 1;
        }
        proof {
            assert(self.terrain@.take(i as int) =~= self.terrain@);
        }
        t
    }

    /// The facts of a well formed plan that its users rely on: structures and their
    /// steps are recorded on the same tiles, every key is a tile, and the table of
    /// counts covers every kind and step, no count above the size of the room.
    pub proof fn lemma_plan_facts(&self)
        requires
            self.wf(),
        ensures
            self.structure_steps().dom() == self.structures().dom(),
            keys_are_tiles(self.structures().dom()),
            keys_are_tiles(self.roads().dom()),
            self.counts().len() == KIND_COUNT * 18,
            forall|i: int| 0 <= i < self.counts().len() ==> #[trigger] self.counts()[i] <= 2500,
            self.terrain().len() == ROOM_AREA,
    {
    }

    /// The step from which a road is planned on the tile, if one is.
    pub fn road_at(&self, p: RoomXY) -> (r: Option<ColonyStep>)
        requires
            self.wf(),
        ensures
            r == if self.roads().contains_key(xy_key(p)) { Some(self.roads()[xy_key(p)]) } else { None },
    {
        match self.roads.get(Self::key(p)) {
            Some(step) => Some(*step),
            None => None,
        }
    }

    /// The structure planned on the tile and the step from which it is, if one is.
    pub fn structure_at(&self, p: RoomXY) -> (r: Option<(PlannedStructure, ColonyStep)>)
        requires
            self.wf(),
        ensures
            r == if self.structures().contains_key(xy_key(p)) {
                Some((self.structures()[xy_key(p)], self.structure_steps()[xy_key(p)]))
            } else {
                None
            },
    {
        let k = Self::key(p);
        match self.pos2structure.get(k) {
            Some(s) => {
                let step = *self.structures.get(k).unwrap();
                Some((*s, step))
            }
            None => None,
        }
    }

    /// Whether a structure is planned on the tile.
    pub fn has_structure_at(&self, p: RoomXY) -> (b: bool)
        requires
            self.wf(),
        ensures
            b == self.structures().contains_key(xy_key(p)),
    {
        self.pos2structure.contains_key(Self::key(p))
    }

    /// Whether the tile is a wall.
    pub fn is_wall(&self, p: RoomXY) -> (b: bool)
        requires
            self.wf(),
            xy_valid(p),
        ensures
            b == (self.terrain()[tile_index(p)] == TerrainKind::Wall),
    {
        self.terrain[Self::index(p)] == TerrainKind::Wall
    }

    /// Whether the tile is free: no wall, and no structure planned there.
    pub fn is_free_at(&self, p: RoomXY) -> (b: bool)
        requires
            self.wf(),
            xy_valid(p),
        ensures
            b == (self.terrain()[tile_index(p)] != TerrainKind::Wall && !self.structures().contains_key(xy_key(p))),
    {
        self.terrain[Self::index(p)] != TerrainKind::Wall && !self.pos2structure.contains_key(Self::key(p))
    }

    /// The structures of a kind planned at the steps up to `step`.
    pub fn num_placed_by(&self, kind: StructureKind, step: ColonyStep) -> (n: u32)
        requires
            self.wf(),
        ensures
            n == placed_by(self.counts(), kind, step_index(step)),
    {
        let last = step.index();
        let base: usize = kind_position(kind) * 18;
        let mut sum: u32 = self.counts[base];
        let mut i: u8 = 0;
        proof {
            reveal_with_fuel(placed_by, 1);
        }
        while i < last
            invariant
                self.wf(),
                i <= last,
                last == step_index(step),
                last < 18,
                base == kind_index(kind) * 18,
                sum == placed_by(self.counts(), kind, i as nat),
                sum <= 2500 * (i + 1),
            decreases last - i,
        {
            i = i + 1;
            assert(0 <= base + i < self.counts@.len());
            sum = sum + self.counts[base + i as usize];
        }
        sum
    }

    /// The structures of `structure`'s kind that can still be planned at `step` and
    /// every later step: the least, over those steps, of what the controller level
    /// allows less what is planned by then.
    pub fn count_left_for(&self, structure: PlannedStructure, step: ColonyStep) -> (n: u32)
        requires
            self.wf(),
        ensures
            n == min_left_from(self.counts(), spec_structure_kind(structure), step_index(step)),
    {
        let kind = structure.structure_type();
        let mut i: u8 = 17;
        let mut best: u32 = self.left_at(kind, 17);
        while i > step.index()
            invariant
                self.wf(),
                step_index(step) <= i <= 17,
                kind == spec_structure_kind(structure),
                best == min_left_from(self.counts(), kind, i as nat),
            decreases i,
        {
            i = i - 1;
            let here = self.left_at(kind, i);
            if here <= best {
                best = here;
            }
        }
        best
    }

    /// Plans a road on tile `p` from `step` on, unless one is planned there from
    /// that step or an earlier one; a road where no structure is planned makes
    /// paths cheaper.
    pub fn plan_road(&mut self, p: RoomXY, step: ColonyStep)
        requires
            old(self).wf(),
            xy_valid(p),
        ensures
            final(self).wf(),
            road_planned(*old(self), *final(self), p, step),
    {
        let k = Self::key(p);
        if let Some(old_step) = self.roads.get(k) {
            if step.index() >= old_step.index() {
                return;
            }
        }
        self.roads.insert(k, step);
        if !self.pos2structure.contains_key(k) {
            let i = Self::index(p);
            self.cost_matrix.set(i, TilePathing::PlannedRoad.cost());
        }
    }

    fn check_structure(&self, p: RoomXY, step: ColonyStep, s: PlannedStructure) -> (r: Result<(), PlanError>)
        requires
            self.wf(),
            xy_valid(p),
        ensures
            r == plan_structure_result(*self, p, step, s),
            structure_limit(spec_structure_kind(s), step_level(step) as u32) <= 2500,
    {
        let kind = s.structure_type();
        let limit = controller_structures(kind, step.controller_level() as u32);
        if !s.buildable_on_wall() && self.terrain[Self::index(p)] == TerrainKind::Wall {
            return Err(PlanError::OnWall(s));
        }
        if self.num_placed_by(kind, step) >= limit {
            return Err(PlanError::NoneLeft(s, step));
        }
        if let Some(other) = self.pos2structure.get(Self::key(p)) {
            if *other != s {
                return Err(PlanError::Overlap(s));
            }
        }
        Ok(())
    }

    /// Plans structure `s` on tile `p` from `step` on. It fails on a wall (unless
    /// the structure stands on walls), where the step allows no more of the kind,
    /// or where another structure is planned on the tile. A structure already
    /// planned there from that step or an earlier one stays as it is.
    pub fn plan_structure(&mut self, p: RoomXY, step: ColonyStep, s: PlannedStructure) -> (r: Result<(), PlanError>)
        requires
            old(self).wf(),
            xy_valid(p),
        ensures
            final(self).wf(),
            r == plan_structure_result(*old(self), p, step, s),
            structure_planned(*old(self), *final(self), p, step, s, r),
    {
        let r = self.check_structure(p, step, s);
        if r.is_err() {
            return r;
        }
        let k = Self::key(p);
        if let Some(old_step) = self.structures.get(k) {
            if step.index() >= old_step.index() {
                return Ok(());
            }
        }
        let kind = s.structure_type();
        let ci = kind_position(kind) * 18 + step.index() as usize;
        proof {
            lemma_count_le_placed(self.counts@, kind, step_index(step));
        }
        self.pos2structure.insert(k, s);
        self.structures.insert(k, step);
        let c = self.counts[ci];
        self.counts.set(ci, c + 1);
        if !s.walkable() {
            let i = Self::index(p);
            self.cost_matrix.set(i, TilePathing::Impassable.cost());
        }
        proof {
            assert forall|j: int| 0 <= j < self.counts@.len() implies #[trigger] self.counts@[j] <= 2500 by {
                if j != ci {
                    assert(self.counts@[j] == old(self).counts@[j]);
                }
            }
        }
        Ok(())
    }

    fn fits_at(&self, kind: StructureKind, i: u8) -> (b: bool)
        requires
            self.wf(),
            i < 18,
        ensures
            b == fits(self.counts(), kind, i as nat),
    {
        proof {
            crate::steps::lemma_step_at_index(i as nat);
        }
        let step = ColonyStep::from_repr(i).unwrap();
        self.num_placed_by(kind, step) < controller_structures(kind, step.controller_level() as u32)
    }

    /// Plans structure `s` on tile `p` from the earliest step from which on every
    /// step allows another structure of its kind, and gives that step.
    pub fn plan_structure_earliest(&mut self, p: RoomXY, s: PlannedStructure) -> (r: Result<ColonyStep, PlanError>)
        requires
            old(self).wf(),
            xy_valid(p),
        ensures
            final(self).wf(),
            match earliest_step(old(self).counts(), spec_structure_kind(s)) {
                None => r == Err::<ColonyStep, PlanError>(PlanError::NoneBuildable(s)) && same_plan(*old(self), *final(self)),
                Some(step) => {
                    let res = plan_structure_result(*old(self), p, step, s);
                    &&& structure_planned(*old(self), *final(self), p, step, s, res)
                    &&& r == match res {
                        Ok(()) => Ok::<ColonyStep, PlanError>(step),
                        Err(e) => Err(e),
                    }
                },
            },
    {
        let kind = s.structure_type();
        if !self.fits_at(kind, 17) {
            return Err(PlanError::NoneBuildable(s));
        }
        let mut j: u8 = 17;
        while j > 0 && self.fits_at(kind, j - 1)
            invariant
                self.wf(),
                j <= 17,
                run_start(self.counts(), kind, 17) == run_start(self.counts(), kind, j as nat),
            decreases j,
        {
            j = j - 1;
        }
        proof {
            crate::steps::lemma_step_at_index(j as nat);
        }
        let step = ColonyStep::from_repr(j).unwrap();
        match self.plan_structure(p, step, s) {
            Ok(()) => Ok(step),
            Err(e) => Err(e),
        }
    }

    fn tile_of(k: u64) -> (p: RoomXY)
        requires
            xy_valid(key_xy(k)),
        ensures
            p == key_xy(k),
    {
        RoomXY { x: (k / 256) as u8, y: (k % 256) as u8 }
    }

    /// The tiles where structure `s` is planned, each once.
    pub fn get_structure_positions(&self, s: PlannedStructure) -> (r: Vec<RoomXY>)
        requires
            self.wf(),
        ensures
            r@.no_duplicates(),
            forall|i: int| 0 <= i < r@.len() ==> xy_valid(#[trigger] r@[i])
                && self.structures().contains_key(xy_key(r@[i])) && self.structures()[xy_key(r@[i])] == s,
            forall|k: u64| #[trigger] self.structures().contains_key(k) && self.structures()[k] == s
                ==> exists|i: int| 0 <= i < r@.len() && xy_key(r@[i]) == k,
    {
        proof {
            self.pos2structure.lemma_wf();
        }
        let mut r: Vec<RoomXY> = Vec::new();
        let mut i: usize = 0;
        let ghost mut idx: Seq<int> = Seq::empty();
        while i < self.pos2structure.len()
            invariant
                self.wf(),
                i <= self.pos2structure.entries().len(),
                idx.len() == r@.len(),
                forall|a: int| 0 <= a < r@.len() ==> 0 <= #[trigger] idx[a] < i
                    && r@[a] == key_xy(self.pos2structure.entries()[idx[a]].0)
                    && self.pos2structure.entries()[idx[a]].1 == s,
                forall|a: int, b: int| 0 <= a < b < r@.len() ==> idx[a] < idx[b],
                forall|j: int| 0 <= j < i && self.pos2structure.entries()[j].1 == s
                    ==> exists|a: int| 0 <= a < r@.len() && #[trigger] idx[a] == j,
            decreases self.pos2structure.entries().len() - i,
        {
            let k = self.pos2structure.key_at(i);
            proof {
                self.pos2structure.lemma_wf();
                assert(self.pos2structure@.contains_key(k));
            }
            let ghost old_idx = idx;
            if *self.pos2structure.value_at(i) == s {
                let p = Self::tile_of(k);
                r.push(p);
                proof {
                    idx = idx.push(i as int);
                    assert forall|j: int| 0 <= j < i + 1 && self.pos2structure.entries()[j].1 == s
                        implies exists|a: int| 0 <= a < r@.len() && #[trigger] idx[a] == j by {
                        if j == i {
                            assert(idx[r@.len() - 1] == j);
                        } else {
                            let a = choose|a: int| 0 <= a < old_idx.len() && #[trigger] old_idx[a] == j;
                            assert(idx[a] == j);
                        }
                    }
                }
            }
            i = i + 1;
        }
        proof {
            self.pos2structure.lemma_wf();
            let e = self.pos2structure.entries();
            assert forall|a: int| 0 <= a < r@.len() implies xy_valid(#[trigger] r@[a])
                && self.structures().contains_key(xy_key(r@[a])) && self.structures()[xy_key(r@[a])] == s by {
                assert(self.pos2structure@.contains_key(e[idx[a]].0));
            }
            assert forall|a: int, b: int| 0 <= a < r@.len() && 0 <= b < r@.len() && a != b implies r@[a] != r@[b] by {
                assert(self.pos2structure@.contains_key(e[idx[a]].0));
                assert(self.pos2structure@.contains_key(e[idx[b]].0));
                if a < b { assert(idx[a] < idx[b]); } else { assert(idx[b] < idx[a]); }
            }
            assert forall|k: u64| #[trigger] self.structures().contains_key(k) && self.structures()[k] == s
                implies exists|a: int| 0 <= a < r@.len() && xy_key(r@[a]) == k by {
                assert(self.pos2structure@.contains_key(k));
                let j = choose|j: int| 0 <= j < e.len() && e[j].0 == k;
                assert(e[j].1 == s);
                let a = choose|a: int| 0 <= a < r@.len() && #[trigger] idx[a] == j;
                assert(xy_key(r@[a]) == k);
            }
        }
        r
    }

    /// The one tile where structure `s` is planned.
    pub fn get_structure_ref(&self, s: PlannedStructure) -> (r: Result<RoomXY, PlanError>)
        requires
            self.wf(),
        ensures
            r == Err::<RoomXY, PlanError>(PlanError::NotFound(s)) <==> !exists|k: u64| #[trigger] self.structures().contains_key(k)
                && self.structures()[k] == s,
            r == Err::<RoomXY, PlanError>(PlanError::NotUnique(s)) <==> exists|k1: u64, k2: u64| k1 != k2
                && #[trigger] self.structures().contains_key(k1) && self.structures()[k1] == s
                && #[trigger] self.structures().contains_key(k2) && self.structures()[k2] == s,
            r matches Ok(p) ==> xy_valid(p) && self.structures().contains_key(xy_key(p)) && self.structures()[xy_key(p)] == s
                && forall|k: u64| #[trigger] self.structures().contains_key(k) && self.structures()[k] == s ==> k == xy_key(p),
            r is Ok || r == Err::<RoomXY, PlanError>(PlanError::NotFound(s)) || r == Err::<RoomXY, PlanError>(PlanError::NotUnique(s)),
    {
        let positions = self.get_structure_positions(s);
        if positions.len() == 0 {
            proof {
                if exists|k: u64| #[trigger] self.structures().contains_key(k) && self.structures()[k] == s {
                    let k = choose|k: u64| #[trigger] self.structures().contains_key(k) && self.structures()[k] == s;
                    assert(self.structures().contains_key(k) && self.structures()[k] == s);
                }
                if exists|k1: u64, k2: u64| k1 != k2
                    && #[trigger] self.structures().contains_key(k1) && self.structures()[k1] == s
                    && #[trigger] self.structures().contains_key(k2) && self.structures()[k2] == s {
                    let (k1, k2) = choose|k1: u64, k2: u64| k1 != k2
                        && #[trigger] self.structures().contains_key(k1) && self.structures()[k1] == s
                        && #[trigger] self.structures().contains_key(k2) && self.structures()[k2] == s;
                    assert(self.structures().contains_key(k1) && self.structures()[k1] == s);
                }
            }
            return Err(PlanError::NotFound(s));
        }
        if positions.len() > 1 {
            proof {
                let p0 = positions@[0];
                let p1 = positions@[1];
                assert(p0 != p1);
                assert(xy_key(p0) != xy_key(p1));
                assert(self.structures().contains_key(xy_key(p0)) && self.structures()[xy_key(p0)] == s);
                assert(self.structures().contains_key(xy_key(p1)) && self.structures()[xy_key(p1)] == s);
            }
            return Err(PlanError::NotUnique(s));
        }
        let p = positions[0];
        proof {
            assert(self.structures().contains_key(xy_key(p)) && self.structures()[xy_key(p)] == s);
            assert forall|k: u64| #[trigger] self.structures().contains_key(k) && self.structures()[k] == s implies k == xy_key(p) by {
                let a = choose|a: int| 0 <= a < positions@.len() && xy_key(positions@[a]) == k;
            }
            if exists|k1: u64, k2: u64| k1 != k2
                && #[trigger] self.structures().contains_key(k1) && self.structures()[k1] == s
                && #[trigger] self.structures().contains_key(k2) && self.structures()[k2] == s {
                let (k1, k2) = choose|k1: u64, k2: u64| k1 != k2
                    && #[trigger] self.structures().contains_key(k1) && self.structures()[k1] == s
                    && #[trigger] self.structures().contains_key(k2) && self.structures()[k2] == s;
                assert(self.structures().contains_key(k1) && self.structures()[k1] == s);
                assert(self.structures().contains_key(k2) && self.structures()[k2] == s);
            }
        }
        Ok(p)
    }

    /// The path costs of the room at `step`: the planned costs, with the roads
    /// built by then (where no structure is planned) at the cost of a built road.
    pub fn path_costs(&self, step: ColonyStep) -> (r: Vec<u8>)
        requires
            self.wf(),
        ensures
            r@.len() == ROOM_AREA,
            forall|p: RoomXY| xy_valid(p) ==> #[trigger] r@[tile_index(p)] == if road_built_by(*self, xy_key(p), step) {
                pathing_cost(TilePathing::BuiltRoad)
            } else {
                self.costs()[tile_index(p)]
            },
    {
        let mut r: Vec<u8> = Vec::new();
        let mut t: usize = 0;
        while t < ROOM_AREA
            invariant
                self.wf(),
                t <= ROOM_AREA,
                r@ == self.cost_matrix@.take(t as int),
            decreases ROOM_AREA - t,
        {
            r.push(self.cost_matrix[t]);
            proof {
                assert(self.cost_matrix@.take(t as int + 1) =~= self.cost_matrix@.take(t as int).push(self.cost_matrix@[t as int]));
            }
            t = t + 1;
        }
        proof {
            assert(self.cost_matrix@.take(ROOM_AREA as int) =~= self.cost_matrix@);
            self.roads.lemma_wf();
        }
        let built = TilePathing::BuiltRoad.cost();
        let mut i: usize = 0;
        while i < self.roads.len()
            invariant
                self.wf(),
                i <= self.roads.entries().len(),
                r@.len() == ROOM_AREA,
                built == pathing_cost(TilePathing::BuiltRoad),
                forall|p: RoomXY| xy_valid(p) ==> #[trigger] r@[tile_index(p)] == if road_built_by(*self, xy_key(p), step)
                    && exists|j: int| 0 <= j < i && self.roads.entries()[j].0 == xy_key(p) {
                    built
                } else {
                    self.costs()[tile_index(p)]
                },
            decreases self.roads.entries().len() - i,
        {
            let k = self.roads.key_at(i);
            let road_step = *self.roads.value_at(i);
            proof {
                self.roads.lemma_wf();
                assert(self.roads@.contains_key(k));
            }
            let ghost before = r@;
            if road_step.index() <= step.index() && !self.pos2structure.contains_key(k) {
                let q = Self::tile_of(k);
                r.set(Self::index(q), built);
                proof {
                    assert forall|p: RoomXY| xy_valid(p) implies #[trigger] r@[tile_index(p)] == if road_built_by(*self, xy_key(p), step)
                        && exists|j: int| 0 <= j < i + 1 && self.roads.entries()[j].0 == xy_key(p) {
                        built
                    } else {
                        self.costs()[tile_index(p)]
                    } by {
                        if p == q {
                            assert(self.roads.entries()[i as int].0 == xy_key(p));
                        } else {
                            lemma_tiles_distinct(p, q);
                            assert(before[tile_index(p)] == r@[tile_index(p)]);
                            if exists|j: int| 0 <= j < i + 1 && self.roads.entries()[j].0 == xy_key(p) {
                                let j = choose|j: int| 0 <= j < i + 1 && self.roads.entries()[j].0 == xy_key(p);
                                assert(j != i);
                            }
                        }
                    }
                }
            } else {
                proof {
                    assert forall|p: RoomXY| xy_valid(p) implies #[trigger] r@[tile_index(p)] == if road_built_by(*self, xy_key(p), step)
                        && exists|j: int| 0 <= j < i + 1 && self.roads.entries()[j].0 == xy_key(p) {
                        built
                    } else {
                        self.costs()[tile_index(p)]
                    } by {
                        assert(before[tile_index(p)] == r@[tile_index(p)]);
                        if exists|j: int| 0 <= j < i + 1 && self.roads.entries()[j].0 == xy_key(p) {
                            let j = choose|j: int| 0 <= j < i + 1 && self.roads.entries()[j].0 == xy_key(p);
                            if j == i {
                                assert(xy_key(p) == k);
                                assert(!road_built_by(*self, xy_key(p), step));
                            }
                        }
                    }
                }
            }
            i = i + 1;
        }
        proof {
            self.roads.lemma_wf();
            assert forall|p: RoomXY| xy_valid(p) implies #[trigger] r@[tile_index(p)] == if road_built_by(*self, xy_key(p), step) {
                pathing_cost(TilePathing::BuiltRoad)
            } else {
                self.costs()[tile_index(p)]
            } by {
                if road_built_by(*self, xy_key(p), step) {
                    assert(self.roads@.contains_key(xy_key(p)));
                    let j = choose|j: int| 0 <= j < self.roads.entries().len() && self.roads.entries()[j].0 == xy_key(p);
                }
            }
        }
        r
    }

    /// Plans roads along a path (given by its tiles) from `step` on, on every tile
    /// where nothing is planned that cannot be stood on and that is no wall.
    pub fn plan_road_along(&mut self, path: &Vec<RoomXY>, step: ColonyStep)
        requires
            old(self).wf(),
            forall|i: int| 0 <= i < path@.len() ==> xy_valid(#[trigger] path@[i]),
        ensures
            final(self).wf(),
            final(self).terrain() == old(self).terrain(),
            final(self).structures() == old(self).structures(),
            final(self).structure_steps() == old(self).structure_steps(),
            final(self).counts() == old(self).counts(),
            final(self).roads() == Map::new(
                |k: u64| old(self).roads().contains_key(k) || on_path(*old(self), path@, k),
                |k: u64| if on_path(*old(self), path@, k) && road_renewed(*old(self), k, step) { step } else { old(self).roads()[k] },
            ),
            final(self).costs().len() == ROOM_AREA,
            forall|p: RoomXY| xy_valid(p) ==> #[trigger] final(self).costs()[tile_index(p)] ==
                if on_path(*old(self), path@, xy_key(p)) && road_renewed(*old(self), xy_key(p), step)
                    && !old(self).structures().contains_key(xy_key(p)) {
                    pathing_cost(TilePathing::PlannedRoad)
                } else {
                    old(self).costs()[tile_index(p)]
                },
    {
        let ghost a = *old(self);
        let mut i: usize = 0;
        while i < path.len()
            invariant
                self.wf(),
                forall|j: int| 0 <= j < path@.len() ==> xy_valid(#[trigger] path@[j]),
                i <= path@.len(),
                a.wf(),
                self.terrain() == a.terrain(),
                self.structures() == a.structures(),
                self.structure_steps() == a.structure_steps(),
                self.counts() == a.counts(),
                self.roads() == Map::new(
                    |k: u64| a.roads().contains_key(k) || on_path(a, path@.take(i as int), k),
                    |k: u64| if on_path(a, path@.take(i as int), k) && road_renewed(a, k, step) { step } else { a.roads()[k] },
                ),
                self.costs().len() == ROOM_AREA,
                forall|p: RoomXY| xy_valid(p) ==> #[trigger] self.costs()[tile_index(p)] ==
                    if on_path(a, path@.take(i as int), xy_key(p)) && road_renewed(a, xy_key(p), step)
                        && !a.structures().contains_key(xy_key(p)) {
                        pathing_cost(TilePathing::PlannedRoad)
                    } else {
                        a.costs()[tile_index(p)]
                    },
            decreases path@.len() - i,
        {
            let q = path[i];
            let k = Self::key(q);
            let allowed = match self.pos2structure.get(k) {
                Some(st) => st.walkable(),
                None => true,
            } && self.terrain[Self::index(q)] != TerrainKind::Wall;
            let ghost mid = *self;
            proof {
                let pre = path@.take(i as int);
                let post = path@.take(i as int + 1);
                assert(post =~= pre.push(q));
                assert forall|kk: u64| on_path(a, post, kk) <==> on_path(a, pre, kk) || (kk == k && road_allowed(a, q)) by {
                    if on_path(a, post, kk) {
                        let j = choose|j: int| 0 <= j < post.len() && #[trigger] xy_key(post[j]) == kk && road_allowed(a, post[j]);
                        if j < pre.len() {
                            assert(pre[j] == post[j]);
                            assert(xy_key(pre[j]) == kk);
                        }
                    }
                    if on_path(a, pre, kk) {
                        let j = choose|j: int| 0 <= j < pre.len() && #[trigger] xy_key(pre[j]) == kk && road_allowed(a, pre[j]);
                        assert(post[j] == pre[j]);
                        assert(xy_key(post[j]) == kk);
                    }
                    if kk == k && road_allowed(a, q) {
                        assert(post[i as int] == q);
                        assert(xy_key(post[i as int]) == kk);
                    }
                }
                assert(allowed == road_allowed(a, q));
            }
            if allowed {
                self.plan_road(q, step);
            }
            proof {
                let pre = path@.take(i as int);
                let post = path@.take(i as int + 1);
                assert(self.roads() =~= Map::new(
                    |kk: u64| a.roads().contains_key(kk) || on_path(a, post, kk),
                    |kk: u64| if on_path(a, post, kk) && road_renewed(a, kk, step) { step } else { a.roads()[kk] },
                ));
                assert forall|p: RoomXY| xy_valid(p) implies #[trigger] self.costs()[tile_index(p)] ==
                    if on_path(a, post, xy_key(p)) && road_renewed(a, xy_key(p), step)
                        && !a.structures().contains_key(xy_key(p)) {
                        pathing_cost(TilePathing::PlannedRoad)
                    } else {
                        a.costs()[tile_index(p)]
                    } by {
                    if p != q {
                        lemma_tiles_distinct(p, q);
                        assert(self.costs()[tile_index(p)] == mid.costs()[tile_index(p)]);
                    } else {
                        assert(mid.costs()[tile_index(p)] == self.costs()[tile_index(p)] || allowed);
                    }
                }
            }
            i = i + 1;
        }
        proof {
            assert(path@.take(i as int) =~= path@);
        }
    }

    /// The tiles recorded in `m` with the `i`-th step, in the order of its entries.
    fn tiles_with_step(m: &KeyedMap<ColonyStep>, i: u8) -> (r: Vec<RoomXY>)
        requires
            m.wf(),
            keys_are_tiles(m@.dom()),
        ensures
            tiles_at_step(r@, m@, i as nat),
    {
        proof {
            m.lemma_wf();
        }
        let mut r: Vec<RoomXY> = Vec::new();
        let mut a: usize = 0;
        let ghost mut idx: Seq<int> = Seq::empty();
        while a < m.len()
            invariant
                m.wf(),
                keys_are_tiles(m@.dom()),
                a <= m.entries().len(),
                idx.len() == r@.len(),
                forall|b: int| 0 <= b < r@.len() ==> 0 <= #[trigger] idx[b] < a
                    && r@[b] == key_xy(m.entries()[idx[b]].0) && step_index(m.entries()[idx[b]].1) == i,
                forall|b: int, c: int| 0 <= b < c < r@.len() ==> idx[b] < idx[c],
                forall|j: int| 0 <= j < a && step_index(m.entries()[j].1) == i
                    ==> exists|b: int| 0 <= b < r@.len() && #[trigger] idx[b] == j,
            decreases m.entries().len() - a,
        {
            let k = m.key_at(a);
            proof {
                m.lemma_wf();
                assert(m@.contains_key(k));
            }
            let ghost old_idx = idx;
            if m.value_at(a).index() == i {
                let p = Self::tile_of(k);
                r.push(p);
                proof {
                    idx = idx.push(a as int);
                    assert forall|j: int| 0 <= j < a + 1 && step_index(m.entries()[j].1) == i
                        implies exists|b: int| 0 <= b < r@.len() && #[trigger] idx[b] == j by {
                        if j == a {
                            assert(idx[r@.len() - 1] == j);
                        } else {
                            let b = choose|b: int| 0 <= b < old_idx.len() && #[trigger] old_idx[b] == j;
                            assert(idx[b] == j);
                        }
                    }
                }
            }
            a = a + 1;
        }
        proof {
            m.lemma_wf();
            let e = m.entries();
            assert forall|b: int| 0 <= b < r@.len() implies xy_valid(#[trigger] r@[b]) && m@.contains_key(xy_key(r@[b]))
                && step_index(m@[xy_key(r@[b])]) == i by {
                assert(m@.contains_key(e[idx[b]].0));
            }
            assert forall|b: int, c: int| 0 <= b < r@.len() && 0 <= c < r@.len() && b != c implies r@[b] != r@[c] by {
                assert(m@.contains_key(e[idx[b]].0));
                assert(m@.contains_key(e[idx[c]].0));
                if b < c { assert(idx[b] < idx[c]); } else { assert(idx[c] < idx[b]); }
            }
            assert forall|k: u64| #[trigger] m@.contains_key(k) && step_index(m@[k]) == i
                implies exists|b: int| 0 <= b < r@.len() && xy_key(r@[b]) == k by {
                let j = choose|j: int| 0 <= j < e.len() && e[j].0 == k;
                let b = choose|b: int| 0 <= b < r@.len() && #[trigger] idx[b] == j;
                assert(xy_key(r@[b]) == k);
            }
        }
        r
    }

    /// For each step, in order: the roads and the structures (with their kinds)
    /// that are planned from it on.
    pub fn compile_steps(&self) -> (r: Vec<StepPlan>)
        requires
            self.wf(),
        ensures
            r@.len() == STEP_COUNT,
            forall|i: int| 0 <= i < STEP_COUNT ==> tiles_at_step(#[trigger] r@[i].new_roads@, self.roads(), i as nat),
            forall|i: int| 0 <= i < STEP_COUNT ==> tiles_at_step(
                (#[trigger] r@[i]).new_structures@.map_values(|e: (RoomXY, StructureKind)| e.0), self.structure_steps(), i as nat),
            forall|i: int, j: int| 0 <= i < STEP_COUNT && 0 <= j < r@[i].new_structures@.len() ==>
                #[trigger] r@[i].new_structures@[j].1 == spec_structure_kind(self.structures()[xy_key(r@[i].new_structures@[j].0)]),
    {
        let mut r: Vec<StepPlan> = Vec::new();
        let mut i: u8 = 0;
        while i < STEP_COUNT
            invariant
                self.wf(),
                i <= STEP_COUNT,
                r@.len() == i,
                forall|a: int| 0 <= a < i ==> tiles_at_step(#[trigger] r@[a].new_roads@, self.roads(), a as nat),
                forall|a: int| 0 <= a < i ==> tiles_at_step(
                    (#[trigger] r@[a]).new_structures@.map_values(|e: (RoomXY, StructureKind)| e.0), self.structure_steps(), a as nat),
                forall|a: int, j: int| 0 <= a < i && 0 <= j < r@[a].new_structures@.len() ==>
                    #[trigger] r@[a].new_structures@[j].1 == spec_structure_kind(self.structures()[xy_key(r@[a].new_structures@[j].0)]),
            decreases STEP_COUNT - i,
        {
            let new_roads = Self::tiles_with_step(&self.roads, i);
            let tiles = Self::tiles_with_step(&self.structures, i);
            let mut new_structures: Vec<(RoomXY, StructureKind)> = Vec::new();
            let mut j: usize = 0;
            while j < tiles.len()
                invariant
                    self.wf(),
                    j <= tiles@.len(),
                    tiles_at_step(tiles@, self.structure_steps(), i as nat),
                    new_structures@.map_values(|e: (RoomXY, StructureKind)| e.0) == tiles@.take(j as int),
                    forall|b: int| 0 <= b < new_structures@.len() ==>
                        #[trigger] new_structures@[b].1 == spec_structure_kind(self.structures()[xy_key(new_structures@[b].0)]),
                decreases tiles@.len() - j,
            {
                let p = tiles[j];
                proof {
                    assert(self.structures@.contains_key(xy_key(p)));
                }
                let kind = self.pos2structure.get(Self::key(p)).unwrap().structure_type();
                let ghost before = new_structures@;
                new_structures.push((p, kind));
                proof {
                    assert(new_structures@ == before.push((p, kind)));
                    assert(tiles@.take(j as int + 1) =~= tiles@.take(j as int).push(p));
                    assert(new_structures@.map_values(|e: (RoomXY, StructureKind)| e.0)
                        =~= before.map_values(|e: (RoomXY, StructureKind)| e.0).push(p));
                    assert(new_structures@.map_values(|e: (RoomXY, StructureKind)| e.0) =~= tiles@.take(j as int + 1));
                }
                j = j + 1;
            }
            proof {
                assert(tiles@.take(j as int) =~= tiles@);
            }
            r.push(StepPlan { new_roads, new_structures });
            i = i + 1;
        }
        r
    }

    fn left_at(&self, kind: StructureKind, i: u8) -> (n: u32)
        requires
            self.wf(),
            i < 18,
        ensures
            n == left_at(self.counts(), kind, i as nat),
    {
        proof {
            crate::steps::lemma_step_at_index(i as nat);
        }
        let step = ColonyStep::from_repr(i).unwrap();
        let placed = self.num_placed_by(kind, step);
        let limit = controller_structures(kind, step.controller_level() as u32);
        limit.saturating_sub(placed)
    }
}

fn kind_position(kind: StructureKind) -> (i: usize)
    ensures
        i == kind_index(kind),
        i < KIND_COUNT,
{
    match kind {
        StructureKind::Spawn => 0,
        StructureKind::Container => 1,
        StructureKind::Extension => 2,
        StructureKind::Link => 3,
        StructureKind::Storage => 4,
        StructureKind::Tower => 5,
        StructureKind::Terminal => 6,
        StructureKind::Extractor => 7,
        StructureKind::Observer => 8,
    }
}

/// A count is at most the number planned by its step.
proof fn lemma_count_le_placed(counts: Seq<u32>, kind: StructureKind, i: nat)
    ensures
        counts[count_index(kind, i)] <= placed_by(counts, kind, i),
{
}

/// Two different tiles of the room have different indices and keys.
pub proof fn lemma_tiles_distinct(p: RoomXY, q: RoomXY)
    requires
        xy_valid(p),
        xy_valid(q),
        p != q,
    ensures
        tile_index(p) != tile_index(q),
        xy_key(p) != xy_key(q),
{
}

/// Adding one structure of a kind at a step adds one to what is planned of that
/// kind by that step and every later one, and nothing to other kinds or earlier
/// steps.
proof fn lemma_placed_by_increment(counts: Seq<u32>, kind: StructureKind, step: nat, other: StructureKind, i: nat)
    requires
        counts.len() == KIND_COUNT * 18,
        step < 18,
        i < 18,
        counts[count_index(kind, step)] < u32::MAX,
    ensures
        placed_by(counts.update(count_index(kind, step), (counts[count_index(kind, step)] + 1) as u32), other, i)
            == placed_by(counts, other, i) + if other == kind && i >= step { 1int } else { 0int },
    decreases i,
{
    if i > 0 {
        lemma_placed_by_increment(counts, kind, step, other, (i - 1) as nat);
    }
    if other != kind {
        assert(kind_index(other) != kind_index(kind));
    }
}

/// Planning never places more structures of a kind by a step than the controller
/// level of that step allows: a structure that planning records brings the count
/// by its step to at most the limit.
pub proof fn law_planning_respects_limits(a: ColonyPlanner, b: ColonyPlanner, p: RoomXY, step: ColonyStep, s: PlannedStructure)
    requires
        a.wf(),
        plan_structure_result(a, p, step, s) is Ok,
        structure_planned(a, b, p, step, s, plan_structure_result(a, p, step, s)),
        !same_plan(a, b),
    ensures
        placed_by(b.counts(), spec_structure_kind(s), step_index(step))
            <= structure_limit(spec_structure_kind(s), step_level(step) as u32),
{
    let kind = spec_structure_kind(s);
    let ci = count_index(kind, step_index(step));
    crate::steps::lemma_step_index_roundtrip(step);
    lemma_count_le_placed(a.counts(), kind, step_index(step));
    lemma_placed_by_increment(a.counts(), kind, step_index(step), kind, step_index(step));
}

/// Planning the same road twice is planning it once.
pub proof fn law_plan_road_idempotent(a: ColonyPlanner, b: ColonyPlanner, c: ColonyPlanner, p: RoomXY, step: ColonyStep)
    requires
        xy_valid(p),
        road_planned(a, b, p, step),
        road_planned(b, c, p, step),
    ensures
        same_plan(b, c),
{
}

/// What can still be planned of a kind at a step, after one more structure of it
/// at that step: one less, going no lower than zero.
pub proof fn lemma_min_left_after_one(counts: Seq<u32>, kind: StructureKind, step: nat, i: nat)
    requires
        counts.len() == KIND_COUNT * 18,
        step <= i < 18,
        counts[count_index(kind, step)] < u32::MAX,
    ensures
        min_left_from(counts.update(count_index(kind, step), (counts[count_index(kind, step)] + 1) as u32), kind, i)
            == if min_left_from(counts, kind, i) > 0 { min_left_from(counts, kind, i) - 1 } else { 0 },
    decreases 17 - i,
{
    let c2 = counts.update(count_index(kind, step), (counts[count_index(kind, step)] + 1) as u32);
    lemma_placed_by_increment(counts, kind, step, kind, i);
    if i < 17 {
        lemma_min_left_after_one(counts, kind, step, i + 1);
    }
}

/// One more structure of one kind leaves what can be planned of any other kind as
/// it was.
pub proof fn lemma_min_left_other_kind(counts: Seq<u32>, kind: StructureKind, step: nat, other: StructureKind, i: nat)
    requires
        counts.len() == KIND_COUNT * 18,
        step < 18,
        i < 18,
        other != kind,
        counts[count_index(kind, step)] < u32::MAX,
    ensures
        min_left_from(counts.update(count_index(kind, step), (counts[count_index(kind, step)] + 1) as u32), other, i)
            == min_left_from(counts, other, i),
    decreases 17 - i,
{
    lemma_placed_by_increment(counts, kind, step, other, i);
    if i < 17 {
        lemma_min_left_other_kind(counts, kind, step, other, i + 1);
    }
}

/// More structures planned, count by count, means no more of what can still be
/// planned, by any step.
pub proof fn lemma_placed_by_mono(c1: Seq<u32>, c2: Seq<u32>, kind: StructureKind, i: nat)
    requires
        c1.len() == KIND_COUNT * 18,
        c2.len() == KIND_COUNT * 18,
        i < 18,
        forall|j: int| 0 <= j < c1.len() ==> #[trigger] c1[j] <= c2[j],
    ensures
        placed_by(c1, kind, i) <= placed_by(c2, kind, i),
    decreases i,
{
    assert(c1[count_index(kind, i)] <= c2[count_index(kind, i)]);
    if i > 0 {
        lemma_placed_by_mono(c1, c2, kind, (i - 1) as nat);
    }
}

/// More structures planned, count by count, means no more left to plan.
pub proof fn lemma_min_left_mono(c1: Seq<u32>, c2: Seq<u32>, kind: StructureKind, i: nat)
    requires
        c1.len() == KIND_COUNT * 18,
        c2.len() == KIND_COUNT * 18,
        i < 18,
        forall|j: int| 0 <= j < c1.len() ==> #[trigger] c1[j] <= c2[j],
    ensures
        min_left_from(c2, kind, i) <= min_left_from(c1, kind, i),
    decreases 17 - i,
{
    lemma_placed_by_mono(c1, c2, kind, i);
    if i < 17 {
        lemma_min_left_mono(c1, c2, kind, i + 1);
    }
}

/// Distinct tiles of the room are at most as many as the room has.
pub proof fn lemma_distinct_tiles_bounded(s: Seq<RoomXY>)
    requires
        s.no_duplicates(),
        forall|i: int| 0 <= i < s.len() ==> xy_valid(#[trigger] s[i]),
    ensures
        s.len() <= ROOM_AREA,
{
    let t = s.map_values(|p: RoomXY| tile_index(p));
    assert(t.no_duplicates()) by {
        assert forall|i: int, j: int| 0 <= i < t.len() && 0 <= j < t.len() && i != j implies t[i] != t[j] by {
            lemma_tiles_distinct(s[i], s[j]);
        }
    }
    t.unique_seq_to_set();
    vstd::set_lib::lemma_int_range(0, ROOM_AREA as int);
    assert(t.to_set().subset_of(vstd::set_lib::set_int_range(0, ROOM_AREA as int))) by {
        assert forall|x: int| t.to_set().contains(x) implies vstd::set_lib::set_int_range(0, ROOM_AREA as int).contains(x) by {
            let i = choose|i: int| 0 <= i < t.len() && t[i] == x;
            assert(xy_valid(s[i]));
        }
    }
    vstd::set_lib::lemma_len_subset(t.to_set(), vstd::set_lib::set_int_range(0, ROOM_AREA as int));
}

} // verus!
