//! The roles of creeps, and how a creep whose role was lost is given one back:
//! its role from the first word of its name, its home from where it stands.
use vstd::prelude::*;
use crate::colony_data::name_bytes;
use crate::excavator::ExcavatorCreep;
use crate::fabricator::state::FabricatorCreep;
use crate::flagship::FlagshipCreep;
use crate::position::{packed_valid, range_between, spec_range};
use crate::truck::import::ImportTruckState;
use crate::truck::state::TruckCreep;
use crate::keyed::KeyedMap;

verus! {

/// What a creep does, with the game objects its work is tied to (by id).
pub enum CreepRole {
    Excavator(ExcavatorCreep, u64),
    Flagship(FlagshipCreep),
    Truck(TruckCreep),
    ImportTruck(ImportTruckState),
    Fabricator(FabricatorCreep),
    Tugboat(u64, u64),
    Scrap(u64),
}

/// The word a creep's name starts with for each role.
pub open spec fn spec_prefix(r: CreepRole) -> Seq<char> {
    match r {
        CreepRole::Flagship(_) => "Flagship"@,
        CreepRole::Excavator(_, _) => "Excavator"@,
        CreepRole::Tugboat(_, _) => "Tugboat"@,
        CreepRole::Scrap(_) => "Scrap"@,
        CreepRole::Truck(_) => "Truck"@,
        CreepRole::ImportTruck(_) => "ImportTruck"@,
        CreepRole::Fabricator(_) => "Fabricator"@,
    }
}

impl CreepRole {
    /// The word a creep's name starts with for its role.
    pub fn prefix(&self) -> (p: &'static str)
        ensures
            p@ == spec_prefix(*self),
    {
        match self {
            CreepRole::Flagship(_) => "Flagship",
            CreepRole::Excavator(_, _) => "Excavator",
            CreepRole::Tugboat(_, _) => "Tugboat",
            CreepRole::Scrap(_) => "Scrap",
            CreepRole::Truck(_) => "Truck",
            CreepRole::ImportTruck(_) => "ImportTruck",
            CreepRole::Fabricator(_) => "Fabricator",
        }
    }
}

/// An ASCII whitespace byte: space, tab, line feed, form feed or carriage return.
pub open spec fn ascii_ws(b: u8) -> bool {
    b == 32u8 || b == 9u8 || b == 10u8 || b == 12u8 || b == 13u8
}

/// The bytes after the leading whitespace.
pub open spec fn skip_ws(b: Seq<u8>) -> Seq<u8>
    decreases b.len(),
{
    if b.len() > 0 && ascii_ws(b[0]) { skip_ws(b.drop_first()) } else { b }
}

/// The bytes up to the first whitespace.
pub open spec fn word_prefix(b: Seq<u8>) -> Seq<u8>
    decreases b.len(),
{
    if b.len() == 0 || ascii_ws(b[0]) { Seq::empty() } else { seq![b[0]] + word_prefix(b.drop_first()) }
}

/// The first whitespace-separated word, if there is one.
pub open spec fn first_word(b: Seq<u8>) -> Option<Seq<u8>> {
    let rest = skip_ws(b);
    if rest.len() == 0 { None } else { Some(word_prefix(rest)) }
}

/// The roles a name's first word can ask for.
#[derive(PartialEq, Eq, Structural, Clone, Copy, Debug)]
pub enum RoleWord {
    Flagship,
    Truck,
    ImportTruck,
    Fabricator,
    Excavator,
    Other,
}

/// The bytes of `Flagship`.
pub open spec fn flagship_word() -> Seq<u8> {
    seq![70u8, 108u8, 97u8, 103u8, 115u8, 104u8, 105u8, 112u8]
}

/// The bytes of `Truck`.
pub open spec fn truck_word() -> Seq<u8> {
    seq![84u8, 114u8, 117u8, 99u8, 107u8]
}

/// The bytes of `ImportTruck`.
pub open spec fn import_truck_word() -> Seq<u8> {
    seq![73u8, 109u8, 112u8, 111u8, 114u8, 116u8, 84u8, 114u8, 117u8, 99u8, 107u8]
}

/// The bytes of `Fabricator`.
pub open spec fn fabricator_word() -> Seq<u8> {
    seq![70u8, 97u8, 98u8, 114u8, 105u8, 99u8, 97u8, 116u8, 111u8, 114u8]
}

/// The bytes of `Excavator`.
pub open spec fn excavator_word() -> Seq<u8> {
    seq![69u8, 120u8, 99u8, 97u8, 118u8, 97u8, 116u8, 111u8, 114u8]
}

/// The role a word asks for.
pub open spec fn spec_role_word(w: Seq<u8>) -> RoleWord {
    if w == flagship_word() { RoleWord::Flagship }
    else if w == truck_word() { RoleWord::Truck }
    else if w == import_truck_word() { RoleWord::ImportTruck }
    else if w == fabricator_word() { RoleWord::Fabricator }
    else if w == excavator_word() { RoleWord::Excavator }
    else { RoleWord::Other }
}

/// Whether the bytes from `i` to `j` are the word.
fn bytes_are(b: &[u8], i: usize, j: usize, w: &[u8]) -> (r: bool)
    requires
        i <= j <= b@.len(),
    ensures
        r == (b@.subrange(i as int, j as int) == w@),
{
    if j - i != w.len() {
        proof {
            assert(b@.subrange(i as int, j as int).len() != w@.len());
        }
        return false;
    }
    let mut k: usize = 0;
    while k < w.len()
        invariant
            i <= j <= b@.len(),
            j - i == w@.len(),
            k <= w@.len(),
            forall|a: int| 0 <= a < k ==> b@[i + a] == w@[a],
        decreases w@.len() - k,
    {
        if b[i + k] != w[k] {
            proof {
                assert(b@.subrange(i as int, j as int)[k as int] != w@[k as int]);
            }
            return false;
        }
        k = k + 1;
    }
    proof {
        assert(b@.subrange(i as int, j as int) =~= w@);
    }
    true
}

/// Whether a byte is ASCII whitespace.
fn is_ws(b: u8) -> (r: bool)
    ensures
        r == ascii_ws(b),
{
    b == 32 || b == 9 || b == 10 || b == 12 || b == 13
}

/// The role the first word of a creep's name asks for; none without a word.
pub fn role_word(name: &String) -> (r: Option<RoleWord>)
    ensures
        r == match first_word(name_bytes(*name)) {
            None => None::<RoleWord>,
            Some(w) => Some(spec_role_word(w)),
        },
{
    let b = name.as_str().as_bytes();
    let ghost bs = b@;
    let mut i: usize = 0;
    proof {
        assert(bs.skip(0) =~= bs);
    }
    while i < b.len() && is_ws(b[i])
        invariant
            bs == b@,
            i <= bs.len(),
            skip_ws(bs) == skip_ws(bs.skip(i as int)),
        decreases bs.len() - i,
    {
        proof {
            assert(bs.skip(i as int).drop_first() =~= bs.skip(i as int + 1));
        }
        i = i + 1;
    }
    proof {
        if i < bs.len() {
            assert(bs.skip(i as int)[0] == bs[i as int]);
        }
        assert(skip_ws(bs.skip(i as int)) == bs.skip(i as int));
    }
    if i == b.len() {
        return None;
    }
    let mut j: usize = i;
    proof {
        assert(bs.subrange(i as int, i as int) =~= Seq::<u8>::empty());
        assert(Seq::<u8>::empty() + word_prefix(bs.skip(i as int)) =~= word_prefix(bs.skip(i as int)));
    }
    while j < b.len() && !is_ws(b[j])
        invariant
            bs == b@,
            i <= j <= bs.len(),
            word_prefix(bs.skip(i as int)) == bs.subrange(i as int, j as int) + word_prefix(bs.skip(j as int)),
        decreases bs.len() - j,
    {
        proof {
            let rest = bs.skip(j as int);
            assert(rest[0] == bs[j as int]);
            assert(rest.drop_first() =~= bs.skip(j as int + 1));
            assert(bs.subrange(i as int, j as int) + (seq![bs[j as int]] + word_prefix(bs.skip(j as int + 1)))
                =~= bs.subrange(i as int, j as int + 1) + word_prefix(bs.skip(j as int + 1)));
        }
        j = j + 1;
    }
    proof {
        if j < bs.len() {
            assert(bs.skip(j as int)[0] == bs[j as int]);
        }
        assert(word_prefix(bs.skip(j as int)) =~= Seq::<u8>::empty());
        assert(bs.subrange(i as int, j as int) + Seq::<u8>::empty() =~= bs.subrange(i as int, j as int));
    }
    let flagship: [u8; 8] = [70, 108, 97, 103, 115, 104, 105, 112];
    let truck: [u8; 5] = [84, 114, 117, 99, 107];
    let import_truck: [u8; 11] = [73, 109, 112, 111, 114, 116, 84, 114, 117, 99, 107];
    let fabricator: [u8; 10] = [70, 97, 98, 114, 105, 99, 97, 116, 111, 114];
    let excavator: [u8; 9] = [69, 120, 99, 97, 118, 97, 116, 111, 114];
    proof {
        assert(flagship@ =~= flagship_word());
        assert(truck@ =~= truck_word());
        assert(import_truck@ =~= import_truck_word());
        assert(fabricator@ =~= fabricator_word());
        assert(excavator@ =~= excavator_word());
    }
    let word = if bytes_are(b, i, j, flagship.as_slice()) {
        RoleWord::Flagship
    } else if bytes_are(b, i, j, truck.as_slice()) {
        RoleWord::Truck
    } else if bytes_are(b, i, j, import_truck.as_slice()) {
        RoleWord::ImportTruck
    } else if bytes_are(b, i, j, fabricator.as_slice()) {
        RoleWord::Fabricator
    } else if bytes_are(b, i, j, excavator.as_slice()) {
        RoleWord::Excavator
    } else {
        RoleWord::Other
    };
    Some(word)
}

/// The role a creep is given back from its name's word: each role starts in its
/// first state, an import truck that carries energy heads home, an excavator
/// works `source` (none without one), and any other creep is scrapped at `spawn`.
pub open spec fn spec_recover_role(word: RoleWord, carries_energy: bool, source: Option<u64>, spawn: u64) -> Option<CreepRole> {
    match word {
        RoleWord::Flagship => Some(CreepRole::Flagship(FlagshipCreep::Idle)),
        RoleWord::Truck => Some(CreepRole::Truck(TruckCreep::Idle)),
        RoleWord::ImportTruck => Some(CreepRole::ImportTruck(
            if carries_energy { ImportTruckState::GoingHome } else { ImportTruckState::Idle })),
        RoleWord::Fabricator => Some(CreepRole::Fabricator(FabricatorCreep::Idle)),
        RoleWord::Excavator => match source {
            Some(s) => Some(CreepRole::Excavator(ExcavatorCreep::Going, s)),
            None => None,
        },
        RoleWord::Other => Some(CreepRole::Scrap(spawn)),
    }
}

/// The role a creep is given back (see `spec_recover_role`).
pub fn recover_role(word: RoleWord, carries_energy: bool, source: Option<u64>, spawn: u64) -> (r: Option<CreepRole>)
    ensures
        r == spec_recover_role(word, carries_energy, source, spawn),
{
    match word {
        RoleWord::Flagship => Some(CreepRole::Flagship(FlagshipCreep::Idle)),
        RoleWord::Truck => Some(CreepRole::Truck(TruckCreep::Idle)),
        RoleWord::ImportTruck => Some(CreepRole::ImportTruck(
            if carries_energy { ImportTruckState::GoingHome } else { ImportTruckState::Idle })),
        RoleWord::Fabricator => Some(CreepRole::Fabricator(FabricatorCreep::Idle)),
        RoleWord::Excavator => match source {
            Some(s) => Some(CreepRole::Excavator(ExcavatorCreep::Going, s)),
            None => None,
        },
        RoleWord::Other => Some(CreepRole::Scrap(spawn)),
    }
}

/// A colony as a possible home: its room, its center, and whether its main
/// spawn is built.
#[derive(PartialEq, Eq, Structural, Clone, Copy, Debug)]
pub struct HomeSight {
    pub room: u16,
    pub center: u32,
    pub spawn_complete: bool,
}

/// The first colony of the room, if any.
pub open spec fn colony_of_room(cs: Seq<HomeSight>, room: u16) -> Option<int> {
    if exists|i: int| 0 <= i < cs.len() && #[trigger] cs[i].room == room {
        Some(choose|i: int| 0 <= i < cs.len() && #[trigger] cs[i].room == room
            && forall|k: int| 0 <= k < i ==> cs[k].room != room)
    } else {
        None
    }
}

/// The `i`-th colony has its spawn built and the least range from its center to
/// `pos` of all such colonies, the first among equals.
pub open spec fn nearest_complete(cs: Seq<HomeSight>, pos: u32, i: int) -> bool {
    &&& 0 <= i < cs.len()
    &&& cs[i].spawn_complete
    &&& forall|k: int| 0 <= k < cs.len() && #[trigger] cs[k].spawn_complete ==> spec_range(cs[i].center, pos) <= spec_range(cs[k].center, pos)
    &&& forall|k: int| 0 <= k < i && #[trigger] cs[k].spawn_complete ==> spec_range(cs[i].center, pos) < spec_range(cs[k].center, pos)
}

/// The first colony of the room, if any.
fn room_colony(colonies: &Vec<HomeSight>, room: u16) -> (r: Option<usize>)
    ensures
        r == match colony_of_room(colonies@, room) {
            Some(i) => Some(i as usize),
            None => None::<usize>,
        },
        r matches Some(i) ==> i < colonies@.len() && colony_of_room(colonies@, room) == Some(i as int),
{
    let mut i: usize = 0;
    while i < colonies.len()
        invariant
            i <= colonies@.len(),
            forall|k: int| 0 <= k < i ==> colonies@[k].room != room,
        decreases colonies@.len() - i,
    {
        if colonies[i].room == room {
            proof {
                assert(colonies@[i as int].room == room);
                let c = choose|c: int| 0 <= c < colonies@.len() && #[trigger] colonies@[c].room == room
                    && forall|k: int| 0 <= k < c ==> colonies@[k].room != room;
                if c < i {
                    assert(colonies@[c].room != room);
                }
                if c > i {
                    assert(colonies@[i as int].room != room);
                }
            }
            return Some(i);
        }
        i = i + 1;
    }
    None
}

/// The home of a creep at `pos`: the colony of its room where that has its spawn
/// built, else the nearest colony with its spawn built; none without one.
pub fn choose_home(colonies: &Vec<HomeSight>, pos: u32) -> (r: Option<usize>)
    requires
        packed_valid(pos),
        forall|i: int| 0 <= i < colonies@.len() ==> packed_valid(#[trigger] colonies@[i].center),
    ensures
        match colony_of_room(colonies@, (pos / 65536) as u16) {
            Some(i) if colonies@[i].spawn_complete => r == Some(i as usize),
            _ => match r {
                Some(i) => nearest_complete(colonies@, pos, i as int),
                None => forall|k: int| 0 <= k < colonies@.len() ==> !(#[trigger] colonies@[k]).spawn_complete,
            },
        },
{
    let room: u16 = (pos / 65536) as u16;
    if let Some(i) = room_colony(colonies, room) {
        if colonies[i].spawn_complete {
            return Some(i);
        }
    }
    let mut best: Option<usize> = None;
    let mut best_range: u32 = 0;
    let mut j: usize = 0;
    while j < colonies.len()
        invariant
            j <= colonies@.len(),
            packed_valid(pos),
            forall|a: int| 0 <= a < colonies@.len() ==> packed_valid(#[trigger] colonies@[a].center),
            best is None <==> forall|k: int| 0 <= k < j ==> !(#[trigger] colonies@[k]).spawn_complete,
            best matches Some(b) ==> b < j && colonies@[b as int].spawn_complete
                && best_range == spec_range(colonies@[b as int].center, pos)
                && (forall|k: int| 0 <= k < j && #[trigger] colonies@[k].spawn_complete
                    ==> spec_range(colonies@[b as int].center, pos) <= spec_range(colonies@[k].center, pos))
                && (forall|k: int| 0 <= k < b && #[trigger] colonies@[k].spawn_complete
                    ==> spec_range(colonies@[b as int].center, pos) < spec_range(colonies@[k].center, pos)),
        decreases colonies@.len() - j,
    {
        if colonies[j].spawn_complete {
            let r = range_between(colonies[j].center, pos);
            match best {
                None => {
                    best = Some(j);
                    best_range = r;
                }
                Some(_) => {
                    if r < best_range {
                        best = Some(j);
                        best_range = r;
                    }
                }
            }
        }
        j = j + 1;
    }
    best
}

/// What is kept of a creep between ticks: its role, and the room of its home colony.
pub struct CreepData {
    pub role: CreepRole,
    pub home: u16,
}

/// Where a colony stands in the room, a first one does.
proof fn lemma_first_of_room(cs: Seq<HomeSight>, room: u16, i: int)
    requires
        0 <= i < cs.len(),
        cs[i].room == room,
    ensures
        exists|j: int| 0 <= j < cs.len() && #[trigger] cs[j].room == room && forall|k: int| 0 <= k < j ==> cs[k].room != room,
    decreases i,
{
    if exists|k: int| 0 <= k < i && #[trigger] cs[k].room == room {
        let k = choose|k: int| 0 <= k < i && #[trigger] cs[k].room == room;
        lemma_first_of_room(cs, room, k);
    } else {
        assert(forall|k: int| 0 <= k < i ==> cs[k].room != room);
    }
}

/// The first colony of a room is one of the colonies, in that room.
proof fn lemma_colony_of_room(cs: Seq<HomeSight>, room: u16)
    ensures
        colony_of_room(cs, room) matches Some(j) ==> 0 <= j < cs.len() && cs[j].room == room,
{
    if exists|i: int| 0 <= i < cs.len() && #[trigger] cs[i].room == room {
        let i = choose|i: int| 0 <= i < cs.len() && #[trigger] cs[i].room == room;
        lemma_first_of_room(cs, room, i);
    }
}

/// The `i`-th colony is the home `choose_home` picks for a creep at `pos`.
pub open spec fn is_home(cs: Seq<HomeSight>, pos: u32, i: int) -> bool {
    match colony_of_room(cs, (pos / 65536) as u16) {
        Some(j) if cs[j].spawn_complete => i == j,
        _ => nearest_complete(cs, pos, i),
    }
}

/// The data recovered for a creep at `pos` whose name's first word is `word`: its
/// home is the colony `choose_home` picks, and its role the one `recover_role`
/// gives, scrapping it at `recycle[i]` where the `i`-th colony is its home. None
/// without a home, a word, or (for an excavator) a source.
pub open spec fn recovered_data(cs: Seq<HomeSight>, pos: u32, word: Option<RoleWord>, carries_energy: bool,
    source: Option<u64>, recycle: Seq<u64>, i: int, d: Option<CreepData>) -> bool {
    &&& is_home(cs, pos, i)
    &&& match (word, d) {
        (Some(w), Some(data)) => data.home == cs[i].room
            && spec_recover_role(w, carries_energy, source, recycle[i]) == Some(data.role),
        (Some(w), None) => spec_recover_role(w, carries_energy, source, recycle[i]) is None,
        (None, d) => d is None,
    }
}

/// Recovers the data of a creep whose data was lost: its home colony, then its
/// role by its name's first word; `recycle[i]` is the spawn it would be scrapped
/// at, were the `i`-th colony its home.
pub fn recover_creep_data(colonies: &Vec<HomeSight>, pos: u32, word: Option<RoleWord>, carries_energy: bool,
    source: Option<u64>, recycle: &Vec<u64>) -> (r: Option<CreepData>)
    requires
        packed_valid(pos),
        forall|i: int| 0 <= i < colonies@.len() ==> packed_valid(#[trigger] colonies@[i].center),
        recycle@.len() == colonies@.len(),
    ensures
        (forall|i: int| 0 <= i < colonies@.len() ==> !(#[trigger] colonies@[i]).spawn_complete) ==> r is None,
        r is Some ==> exists|i: int| 0 <= i < colonies@.len()
            && #[trigger] recovered_data(colonies@, pos, word, carries_energy, source, recycle@, i, r),
        (exists|i: int| 0 <= i < colonies@.len() && #[trigger] colonies@[i].spawn_complete) ==> exists|i: int|
            0 <= i < colonies@.len() && #[trigger] recovered_data(colonies@, pos, word, carries_energy, source, recycle@, i, r),
{
    proof {
        lemma_colony_of_room(colonies@, (pos / 65536) as u16);
    }
    let _n = colonies.len();
    let h = choose_home(colonies, pos);
    let home = match h {
        Some(i) => i,
        None => {
            return None;
        },
    };
    proof {
        lemma_colony_of_room(colonies@, (pos / 65536) as u16);
        match colony_of_room(colonies@, (pos / 65536) as u16) {
            Some(j) => {
                if colonies@[j].spawn_complete {
                    assert(home as int == j);
                }
            },
            None => {},
        }
        assert(is_home(colonies@, pos, home as int));
    }
    let w = match word {
        Some(w) => w,
        None => {
            proof {
                assert(recovered_data(colonies@, pos, word, carries_energy, source, recycle@, home as int, None));
            }
            return None;
        },
    };
    let r = match recover_role(w, carries_energy, source, recycle[home]) {
        Some(role) => Some(CreepData { role, home: colonies[home].room }),
        None => None,
    };
    proof {
        assert(recovered_data(colonies@, pos, word, carries_energy, source, recycle@, home as int, r));
    }
    r
}

/// The kept data after adding, in order, each recovered entry for a creep that
/// has none yet (the first recovered entry of a creep wins).
pub open spec fn with_recovered(m: Map<u64, CreepData>, rs: Seq<(u64, Option<CreepData>)>) -> Map<u64, CreepData>
    decreases rs.len(),
{
    if rs.len() == 0 {
        m
    } else {
        let prev = with_recovered(m, rs.drop_last());
        match rs.last().1 {
            Some(d) => if prev.contains_key(rs.last().0) { prev } else { prev.insert(rs.last().0, d) },
            None => prev,
        }
    }
}

/// Law: recovering keeps every creep's data as it was, and a creep that had none
/// has data afterwards exactly where some data was recovered for it.
pub proof fn law_recovery_keeps_data(m: Map<u64, CreepData>, rs: Seq<(u64, Option<CreepData>)>)
    ensures
        forall|k: u64| #[trigger] m.contains_key(k) ==> with_recovered(m, rs).contains_key(k) && with_recovered(m, rs)[k] == m[k],
        forall|k: u64| !m.contains_key(k) ==> (#[trigger] with_recovered(m, rs).contains_key(k)
            <==> exists|i: int| 0 <= i < rs.len() && #[trigger] rs[i].0 == k && rs[i].1 is Some),
    decreases rs.len(),
{
    if rs.len() > 0 {
        let p = rs.drop_last();
        law_recovery_keeps_data(m, p);
        assert forall|k: u64| !m.contains_key(k) implies (#[trigger] with_recovered(m, rs).contains_key(k)
            <==> exists|i: int| 0 <= i < rs.len() && #[trigger] rs[i].0 == k && rs[i].1 is Some) by {
            let prev = with_recovered(m, p);
            assert(prev.contains_key(k) <==> exists|i: int| 0 <= i < p.len() && #[trigger] p[i].0 == k && p[i].1 is Some);
            assert(rs.last() == rs[rs.len() - 1]);
            if exists|i: int| 0 <= i < rs.len() && #[trigger] rs[i].0 == k && rs[i].1 is Some {
                let i = choose|i: int| 0 <= i < rs.len() && #[trigger] rs[i].0 == k && rs[i].1 is Some;
                if i < rs.len() - 1 {
                    assert(p[i] == rs[i]);
                }
            }
            if exists|i: int| 0 <= i < p.len() && #[trigger] p[i].0 == k && p[i].1 is Some {
                let i = choose|i: int| 0 <= i < p.len() && #[trigger] p[i].0 == k && p[i].1 is Some;
                assert(rs[i] == p[i]);
            }
        }
    }
}

/// The live creeps, in order, that are not spawning and have no data kept: those
/// whose data is to be recovered.
pub open spec fn to_recover(m: Map<u64, CreepData>, live: Seq<(u64, bool)>) -> Seq<u64>
    decreases live.len(),
{
    if live.len() == 0 {
        Seq::empty()
    } else {
        let rest = to_recover(m, live.drop_last());
        if !live.last().1 && !m.contains_key(live.last().0) { rest.push(live.last().0) } else { rest }
    }
}

/// The creeps (by id, with whether each is spawning) whose data is to be
/// recovered: those not spawning that have none kept.
pub fn creeps_to_recover(known: &KeyedMap<CreepData>, live: &Vec<(u64, bool)>) -> (r: Vec<u64>)
    requires
        known.wf(),
    ensures
        r@ == to_recover(known@, live@),
{
    let mut r: Vec<u64> = Vec::new();
    let mut i: usize = 0;
    while i < live.len()
        invariant
            known.wf(),
            i <= live@.len(),
            r@ == to_recover(known@, live@.take(i as int)),
        decreases live@.len() - i,
    {
        proof {
            assert(live@.take(i as int + 1).drop_last() =~= live@.take(i as int));
            assert(live@.take(i as int + 1).last() == live@[i as int]);
        }
        let (id, spawning) = live[i];
        if !spawning && !known.contains_key(id) {
            r.push(id);
        }
        i = i + 1;
    }
    proof {
        assert(live@.take(i as int) =~= live@);
    }
    r
}

/// Keeps every creep's data, and adds the data recovered for the creeps that had
/// none; a creep whose data could not be recovered stays without.
pub fn keep_recovered(known: &mut KeyedMap<CreepData>, recovered: Vec<(u64, Option<CreepData>)>)
    requires
        old(known).wf(),
    ensures
        final(known).wf(),
        final(known)@ == with_recovered(old(known)@, recovered@),
{
    let ghost rs = recovered@;
    let mut recovered = recovered;
    let mut pending: Vec<(u64, Option<CreepData>)> = Vec::new();
    // taken from the back, then replayed from the front
    while recovered.len() > 0
        invariant
            recovered@ + pending@.reverse() == rs,
        decreases recovered@.len(),
    {
        let ghost before = recovered@;
        let ghost pb = pending@;
        let e = recovered.pop().unwrap();
        pending.push(e);
        proof {
            assert(pending@.reverse() =~= seq![e] + pb.reverse()) by {
                assert forall|k: int| 0 <= k < pending@.len() implies pending@.reverse()[k] == (seq![e] + pb.reverse())[k] by {
                    if k > 0 {
                        assert(pb.reverse()[k - 1] == pb[pb.len() - k]);
                    }
                }
            }
            assert(before =~= recovered@.push(e));
            assert(recovered@ + pending@.reverse() =~= before + pb.reverse());
        }
    }
    proof {
        assert(recovered@ + pending@.reverse() =~= pending@.reverse());
        assert(rs.skip(0) =~= rs);
        assert(rs.take(0) =~= Seq::<(u64, Option<CreepData>)>::empty());
    }
    let ghost n = pending@.len();
    while pending.len() > 0
        invariant
            known.wf(),
            pending@.len() <= n,
            n == rs.len(),
            pending@.reverse() == rs.skip(n - pending@.len()),
            known@ == with_recovered(old(known)@, rs.take(n - pending@.len())),
        decreases pending@.len(),
    {
        let ghost before = pending@;
        let ghost j = n - pending@.len();
        let (id, d) = pending.pop().unwrap();
        proof {
            assert(rs.skip(j)[0] == before.reverse()[0]);
            assert(before.reverse()[0] == before[before.len() - 1]);
            assert(rs[j] == (id, d));
            assert(rs.take(j + 1).drop_last() =~= rs.take(j));
            assert(rs.take(j + 1).last() == rs[j]);
            assert(pending@.reverse() =~= rs.skip(j + 1)) by {
                assert forall|k: int| 0 <= k < pending@.len() implies pending@.reverse()[k] == rs.skip(j + 1)[k] by {
                    assert(pending@.reverse()[k] == before.reverse()[k + 1]);
                    assert(rs.skip(j)[k + 1] == rs.skip(j + 1)[k]);
                }
            }
        }
        match d {
            Some(data) => {
                if !known.contains_key(id) {
                    known.insert(id, data);
                }
            },
            None => {},
        }
    }
    proof {
        assert(rs.take(n as int) =~= rs);
    }
}

/// The bytes of an ASCII text.
pub open spec fn ascii_bytes(t: Seq<char>) -> Seq<u8> {
    t.map_values(|c: char| c as u8)
}

/// Law: the role a creep gets back is the one its name's word asks for. For every
/// word but `Other`, the name prefix of the recovered role reads back as that same
/// word, and the role starts afresh (an import truck heading home exactly when it
/// carries energy, an excavator at the given source); any other word makes a
/// creep to scrap at the given spawn; and only an excavator without a source
/// gets no role.
pub proof fn law_recovered_role_matches_word(word: RoleWord, carries_energy: bool, source: Option<u64>, spawn: u64)
    ensures
        spec_recover_role(word, carries_energy, source, spawn) is None <==> (word == RoleWord::Excavator && source is None),
        spec_recover_role(word, carries_energy, source, spawn) matches Some(r)
            ==> (word != RoleWord::Other ==> spec_role_word(ascii_bytes(spec_prefix(r))) == word),
        word == RoleWord::Other ==> spec_recover_role(word, carries_energy, source, spawn) == Some(CreepRole::Scrap(spawn)),
        spec_recover_role(word, carries_energy, source, spawn) matches Some(CreepRole::Excavator(st, s))
            ==> st == ExcavatorCreep::Going && source == Some(s),
        spec_recover_role(word, carries_energy, source, spawn) matches Some(CreepRole::ImportTruck(st))
            ==> (st == ImportTruckState::GoingHome <==> carries_energy) && (st == ImportTruckState::GoingHome || st == ImportTruckState::Idle),
        spec_recover_role(word, carries_energy, source, spawn) matches Some(CreepRole::Fabricator(st)) ==> st == FabricatorCreep::Idle,
        spec_recover_role(word, carries_energy, source, spawn) matches Some(CreepRole::Truck(st)) ==> st == TruckCreep::Idle,
        spec_recover_role(word, carries_energy, source, spawn) matches Some(CreepRole::Flagship(st)) ==> st == FlagshipCreep::Idle,
{
    reveal_strlit("Flagship");
    reveal_strlit("Excavator");
    reveal_strlit("Tugboat");
    reveal_strlit("Scrap");
    reveal_strlit("Truck");
    reveal_strlit("ImportTruck");
    reveal_strlit("Fabricator");
    assert(ascii_bytes("Flagship"@) =~= flagship_word());
    assert(ascii_bytes("Truck"@) =~= truck_word());
    assert(ascii_bytes("ImportTruck"@) =~= import_truck_word());
    assert(ascii_bytes("Fabricator"@) =~= fabricator_word());
    assert(ascii_bytes("Excavator"@) =~= excavator_word());
    assert(ascii_bytes("Truck"@) != flagship_word()) by {
        assert(ascii_bytes("Truck"@).len() != flagship_word().len());
    }
    assert(ascii_bytes("ImportTruck"@) != flagship_word()) by {
        assert(ascii_bytes("ImportTruck"@).len() != flagship_word().len());
    }
    assert(ascii_bytes("ImportTruck"@) != truck_word()) by {
        assert(ascii_bytes("ImportTruck"@).len() != truck_word().len());
    }
    assert(ascii_bytes("Fabricator"@) != flagship_word()) by {
        assert(ascii_bytes("Fabricator"@).len() != flagship_word().len());
    }
    assert(ascii_bytes("Fabricator"@) != truck_word()) by {
        assert(ascii_bytes("Fabricator"@).len() != truck_word().len());
    }
    assert(ascii_bytes("Fabricator"@) != import_truck_word()) by {
        assert(ascii_bytes("Fabricator"@).len() != import_truck_word().len());
    }
    assert(ascii_bytes("Excavator"@) != flagship_word()) by {
        assert(ascii_bytes("Excavator"@)[0] != flagship_word()[0]);
    }
    assert(ascii_bytes("Excavator"@) != truck_word()) by {
        assert(ascii_bytes("Excavator"@).len() != truck_word().len());
    }
    assert(ascii_bytes("Excavator"@) != import_truck_word()) by {
        assert(ascii_bytes("Excavator"@).len() != import_truck_word().len());
    }
    assert(ascii_bytes("Excavator"@) != fabricator_word()) by {
        assert(ascii_bytes("Excavator"@).len() != fabricator_word().len());
    }
}

} // verus!
