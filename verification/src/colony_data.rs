//! Where a colony stands in its room: its center, taken from its spawns (the
//! first by name among those called `Center…`, else the first by name) or from a
//! claim flag, and its buffer, taken from a storage or a container beside the
//! center, or else the first diagonal neighbour of the center that is no wall.
use vstd::prelude::*;
use vstd::utf8::encode_utf8;
use crate::colony::ColonyState;
use crate::floodfill::dir_offset;
use crate::plan_diff::GameStructure;
use crate::planner::TerrainKind;
use crate::position::{packed_valid, range_between, spec_range};

verus! {

/// Names compare as strings do: byte by byte, a proper prefix first.
pub open spec fn bytes_lt(a: Seq<u8>, b: Seq<u8>) -> bool
    decreases a.len(),
{
    if a.len() == 0 {
        b.len() > 0
    } else if b.len() == 0 {
        false
    } else if a[0] != b[0] {
        a[0] < b[0]
    } else {
        bytes_lt(a.drop_first(), b.drop_first())
    }
}

/// No byte string comes before itself.
pub proof fn lemma_bytes_lt_irreflexive(a: Seq<u8>)
    ensures
        !bytes_lt(a, a),
    decreases a.len(),
{
    if a.len() > 0 {
        lemma_bytes_lt_irreflexive(a.drop_first());
    }
}

/// Of two different byte strings, one comes first.
pub proof fn lemma_bytes_lt_total(a: Seq<u8>, b: Seq<u8>)
    ensures
        bytes_lt(a, b) || bytes_lt(b, a) || a =~= b,
    decreases a.len(),
{
    if a.len() == 0 || b.len() == 0 {
        if a.len() == 0 && b.len() == 0 {
            assert(a =~= b);
        }
    } else if a[0] == b[0] {
        let (ta, tb) = (a.drop_first(), b.drop_first());
        lemma_bytes_lt_total(ta, tb);
        if ta =~= tb {
            assert forall|i: int| 0 <= i < a.len() implies a[i] == b[i] by {
                if i > 0 {
                    assert(a[i] == ta[i - 1]);
                    assert(b[i] == tb[i - 1]);
                }
            }
            assert(a =~= b);
        }
    }
}

/// The order of byte strings is transitive.
pub proof fn lemma_bytes_lt_transitive(a: Seq<u8>, b: Seq<u8>, c: Seq<u8>)
    requires
        bytes_lt(a, b),
        bytes_lt(b, c),
    ensures
        bytes_lt(a, c),
    decreases a.len(),
{
    if a.len() > 0 && b.len() > 0 && c.len() > 0 && a[0] == b[0] && b[0] == c[0] {
        lemma_bytes_lt_transitive(a.drop_first(), b.drop_first(), c.drop_first());
    }
}

/// The bytes of a name.
pub open spec fn name_bytes(s: String) -> Seq<u8> {
    encode_utf8(s@)
}

/// Whether the first name comes before the second.
pub fn name_less(a: &String, b: &String) -> (r: bool)
    ensures
        r == bytes_lt(name_bytes(*a), name_bytes(*b)),
{
    let x = a.as_str().as_bytes();
    let y = b.as_str().as_bytes();
    let ghost xs = x@;
    let ghost ys = y@;
    let mut i: usize = 0;
    proof {
        assert(xs.skip(0) =~= xs);
        assert(ys.skip(0) =~= ys);
    }
    while i < x.len() && i < y.len()
        invariant
            x@ == xs,
            y@ == ys,
            xs == name_bytes(*a),
            ys == name_bytes(*b),
            i <= xs.len(),
            i <= ys.len(),
            bytes_lt(xs, ys) == bytes_lt(xs.skip(i as int), ys.skip(i as int)),
        decreases xs.len() - i,
    {
        if x[i] != y[i] {
            return x[i] < y[i];
        }
        proof {
            assert(xs.skip(i as int).drop_first() =~= xs.skip(i as int + 1));
            assert(ys.skip(i as int).drop_first() =~= ys.skip(i as int + 1));
        }
        i = i + 1;
    }
    i < y.len()
}

/// A spawn of the room: its name and packed position.
pub struct SpawnSight {
    pub name: String,
    pub pos: u32,
}

/// The name starts with `Center`.
pub open spec fn center_prefixed(n: Seq<u8>) -> bool {
    &&& n.len() >= 6
    &&& n[0] == 67u8 && n[1] == 101u8 && n[2] == 110u8
    &&& n[3] == 116u8 && n[4] == 101u8 && n[5] == 114u8
}

/// The `j`-th spawn is among those considered: any, or only those whose name
/// starts with `Center`.
pub open spec fn eligible(spawns: Seq<SpawnSight>, j: int, prefixed_only: bool) -> bool {
    0 <= j < spawns.len() && (!prefixed_only || center_prefixed(name_bytes(spawns[j].name)))
}

/// The `i`-th spawn comes first by name among those considered, and first in
/// order among those of its name.
pub open spec fn first_least(spawns: Seq<SpawnSight>, i: int, prefixed_only: bool) -> bool {
    &&& eligible(spawns, i, prefixed_only)
    &&& forall|j: int| #[trigger] eligible(spawns, j, prefixed_only)
        ==> !bytes_lt(name_bytes(spawns[j].name), name_bytes(spawns[i].name))
    &&& forall|j: int| 0 <= j < i && #[trigger] eligible(spawns, j, prefixed_only)
        ==> bytes_lt(name_bytes(spawns[i].name), name_bytes(spawns[j].name))
}

/// Some spawn's name starts with `Center`.
pub open spec fn any_prefixed(spawns: Seq<SpawnSight>) -> bool {
    exists|j: int| #[trigger] eligible(spawns, j, true)
}

/// The `i`-th spawn marks the center: the first by name among those called
/// `Center…`, or among all where none is.
pub open spec fn is_center_spawn(spawns: Seq<SpawnSight>, i: int) -> bool {
    first_least(spawns, i, any_prefixed(spawns))
}

/// Law: at most one spawn marks the center.
pub proof fn law_center_spawn_unique(spawns: Seq<SpawnSight>, i: int, j: int)
    requires
        is_center_spawn(spawns, i),
        is_center_spawn(spawns, j),
    ensures
        i == j,
{
    let p = any_prefixed(spawns);
    assert(eligible(spawns, i, p) && eligible(spawns, j, p));
    if i < j {
        assert(bytes_lt(name_bytes(spawns[j].name), name_bytes(spawns[i].name)));
    } else if j < i {
        assert(bytes_lt(name_bytes(spawns[i].name), name_bytes(spawns[j].name)));
    }
}

/// Whether a name starts with `Center`.
fn has_center_prefix(name: &String) -> (b: bool)
    ensures
        b == center_prefixed(name_bytes(*name)),
{
    let x = name.as_str().as_bytes();
    x.len() >= 6 && x[0] == 67 && x[1] == 101 && x[2] == 110 && x[3] == 116 && x[4] == 101 && x[5] == 114
}

/// The spawn that comes first by name among those considered, if any.
fn least_spawn(spawns: &Vec<SpawnSight>, prefixed_only: bool) -> (r: Option<usize>)
    ensures
        r is None <==> !(exists|j: int| #[trigger] eligible(spawns@, j, prefixed_only)),
        r matches Some(i) ==> first_least(spawns@, i as int, prefixed_only),
{
    let mut best: Option<usize> = None;
    let mut j: usize = 0;
    while j < spawns.len()
        invariant
            j <= spawns@.len(),
            best is None <==> !(exists|a: int| 0 <= a < j && #[trigger] eligible(spawns@, a, prefixed_only)),
            best matches Some(b) ==> b < j && eligible(spawns@, b as int, prefixed_only)
                && (forall|a: int| 0 <= a < j && #[trigger] eligible(spawns@, a, prefixed_only)
                    ==> !bytes_lt(name_bytes(spawns@[a].name), name_bytes(spawns@[b as int].name)))
                && (forall|a: int| 0 <= a < b && #[trigger] eligible(spawns@, a, prefixed_only)
                    ==> bytes_lt(name_bytes(spawns@[b as int].name), name_bytes(spawns@[a].name))),
        decreases spawns@.len() - j,
    {
        let considered = !prefixed_only || has_center_prefix(&spawns[j].name);
        if considered {
            match best {
                None => {
                    proof {
                        lemma_bytes_lt_irreflexive(name_bytes(spawns@[j as int].name));
                    }
                    best = Some(j);
                }
                Some(b) => {
                    if name_less(&spawns[j].name, &spawns[b].name) {
                        proof {
                            let nj = name_bytes(spawns@[j as int].name);
                            let nb = name_bytes(spawns@[b as int].name);
                            lemma_bytes_lt_irreflexive(nj);
                            assert forall|a: int| 0 <= a < j + 1 && #[trigger] eligible(spawns@, a, prefixed_only)
                                implies !bytes_lt(name_bytes(spawns@[a].name), nj) by {
                                if a < j && bytes_lt(name_bytes(spawns@[a].name), nj) {
                                    lemma_bytes_lt_transitive(name_bytes(spawns@[a].name), nj, nb);
                                }
                            }
                            assert forall|a: int| 0 <= a < j && #[trigger] eligible(spawns@, a, prefixed_only)
                                implies bytes_lt(nj, name_bytes(spawns@[a].name)) by {
                                let na = name_bytes(spawns@[a].name);
                                if a < b {
                                    lemma_bytes_lt_transitive(nj, nb, na);
                                } else if a == b {
                                } else {
                                    lemma_bytes_lt_total(na, nb);
                                    if bytes_lt(nb, na) {
                                        lemma_bytes_lt_transitive(nj, nb, na);
                                    } else {
                                        assert(na =~= nb);
                                    }
                                }
                            }
                        }
                        best = Some(j);
                    }
                }
            }
        }
        proof {
            if considered {
                assert(eligible(spawns@, j as int, prefixed_only));
            } else {
                assert(!eligible(spawns@, j as int, prefixed_only));
            }
        }
        j = j + 1;
    }
    best
}

/// What a colony's room shows: its spawns, and its structures and construction
/// sites (structures first), each with its packed position and kind.
pub struct ColonyRoomSight {
    pub spawns: Vec<SpawnSight>,
    pub buildings: Vec<(u32, GameStructure)>,
}

/// Where a colony stands.
pub struct ColonyData {
    pub room_name: u16,
    pub center: u32,
    pub buffer_pos: u32,
    pub state: ColonyState,
}

/// The packed room of a packed position.
pub open spec fn room_of(p: u32) -> u16 {
    (p / 65536) as u16
}

/// The first of the positions that lies in the room.
pub open spec fn first_in_room(flags: Seq<u32>, name: u16) -> Option<u32>
    decreases flags.len(),
{
    if flags.len() == 0 {
        None
    } else if room_of(flags[0]) == name {
        Some(flags[0])
    } else {
        first_in_room(flags.drop_first(), name)
    }
}

/// `c` is the colony's center: the position of the center spawn where the room
/// is seen and has spawns, else that of the first claim flag in the room.
pub open spec fn center_ok(name: u16, room: Option<ColonyRoomSight>, flags: Seq<u32>, c: Option<u32>) -> bool {
    if room is Some && room.unwrap().spawns@.len() > 0 {
        exists|i: int| #[trigger] is_center_spawn(room.unwrap().spawns@, i) && c == Some(room.unwrap().spawns@[i].pos)
    } else {
        c == first_in_room(flags, name)
    }
}

/// The first building that can serve as the buffer: a storage, or a container
/// right beside the center.
pub open spec fn first_buffer(b: Seq<(u32, GameStructure)>, center: u32) -> Option<u32>
    decreases b.len(),
{
    if b.len() == 0 {
        None
    } else if b[0].1 == GameStructure::Storage || (b[0].1 == GameStructure::Container && spec_range(b[0].0, center) == 1) {
        Some(b[0].0)
    } else {
        first_buffer(b.drop_first(), center)
    }
}

/// The position one step from `p` over world coordinates, if it is in the world.
pub open spec fn spec_position_after(p: u32, dx: int, dy: int) -> Option<u32> {
    let px = (p / 16777216) % 256 * 50 + (p / 256) % 256 + dx;
    let py = (p / 65536) % 256 * 50 + p % 256 + dy;
    if 0 <= px < 12800 && 0 <= py < 12800 {
        Some(((px / 50) * 16777216 + (py / 50) * 65536 + (px % 50) * 256 + py % 50) as u32)
    } else {
        None
    }
}

/// The position `(dx, dy)` away from `p`, by `screeps::Position::checked_add` on
/// the position that `Position::from_packed` makes of `p`, packed again. The crate
/// adds over world coordinates and refuses a result outside the world; it panics
/// where an in-room coordinate of `p` is 50 or more, and the `i32` sum of a world
/// coordinate and an offset overflows where the offset is far beyond the world.
#[verifier::external_body]
fn position_after(p: u32, dx: i32, dy: i32) -> (r: Option<u32>)
    requires
        packed_valid(p),
        -12800 <= dx <= 12800,
        -12800 <= dy <= 12800,
    ensures
        r == spec_position_after(p, dx as int, dy as int),
{
    match screeps::Position::from_packed(p).checked_add((dx, dy)) {
        Ok(q) => Some(q.packed_repr()),
        Err(_) => None,
    }
}

/// The tile of a packed position within its room's terrain.
pub open spec fn pos_tile(c: u32) -> int {
    (c % 256) * 50 + (c / 256) % 256
}

/// The `k`-th diagonal tried for the buffer: bottom right, then turning a
/// quarter clockwise each time.
pub open spec fn diagonal(k: int) -> (int, int) {
    dir_offset((3 + 2 * k) % 8)
}

/// The first diagonal neighbour of the center, from the `k`-th on, that is no
/// wall; none where one of those tried leaves the world, or all are walls.
pub open spec fn fallback_from(center: u32, terrain: Seq<TerrainKind>, k: nat) -> Option<u32>
    decreases 4 - k,
{
    if k >= 4 {
        None
    } else {
        match spec_position_after(center, diagonal(k as int).0, diagonal(k as int).1) {
            None => None,
            Some(c) => if terrain[pos_tile(c)] != TerrainKind::Wall {
                Some(c)
            } else {
                fallback_from(center, terrain, k + 1)
            },
        }
    }
}

/// The buffer's position: the first fitting building where the room is seen and
/// has one, else the first free diagonal neighbour of the center.
pub open spec fn buffer_of(room: Option<ColonyRoomSight>, center: u32, terrain: Seq<TerrainKind>) -> Option<u32> {
    let found = if room is Some { first_buffer(room.unwrap().buildings@, center) } else { None };
    if found is Some { found } else { fallback_from(center, terrain, 0) }
}

/// The colony's center, if it has one.
pub fn choose_center(name: u16, room: &Option<ColonyRoomSight>, flags: &Vec<u32>) -> (c: Option<u32>)
    ensures
        center_ok(name, *room, flags@, c),
{
    if let Some(r) = room {
        if r.spawns.len() > 0 {
            let i = match least_spawn(&r.spawns, true) {
                Some(i) => i,
                None => match least_spawn(&r.spawns, false) {
                    Some(i) => i,
                    None => 0,
                },
            };
            proof {
                assert(eligible(r.spawns@, 0, false));
                assert(is_center_spawn(r.spawns@, i as int));
            }
            return Some(r.spawns[i].pos);
        }
    }
    let mut j: usize = 0;
    proof {
        assert(flags@.skip(0) =~= flags@);
    }
    while j < flags.len()
        invariant
            j <= flags@.len(),
            !(room is Some && room.unwrap().spawns@.len() > 0),
            first_in_room(flags@, name) == first_in_room(flags@.skip(j as int), name),
        decreases flags@.len() - j,
    {
        let f = flags[j];
        if (f / 65536) as u16 == name {
            proof {
                assert(flags@.skip(j as int)[0] == f);
            }
            return Some(f);
        }
        proof {
            assert(flags@.skip(j as int).drop_first() =~= flags@.skip(j as int + 1));
        }
        j = j + 1;
    }
    None
}

/// The first building that can serve as the buffer, if any.
pub fn find_buffer(buildings: &Vec<(u32, GameStructure)>, center: u32) -> (r: Option<u32>)
    requires
        packed_valid(center),
        forall|i: int| 0 <= i < buildings@.len() ==> packed_valid(#[trigger] buildings@[i].0),
    ensures
        r == first_buffer(buildings@, center),
{
    let mut j: usize = 0;
    proof {
        assert(buildings@.skip(0) =~= buildings@);
    }
    while j < buildings.len()
        invariant
            j <= buildings@.len(),
            packed_valid(center),
            forall|i: int| 0 <= i < buildings@.len() ==> packed_valid(#[trigger] buildings@[i].0),
            first_buffer(buildings@, center) == first_buffer(buildings@.skip(j as int), center),
        decreases buildings@.len() - j,
    {
        let (p, kind) = buildings[j];
        let fits = match kind {
            GameStructure::Storage => true,
            GameStructure::Container => range_between(p, center) == 1,
            _ => false,
        };
        if fits {
            return Some(p);
        }
        proof {
            assert(buildings@.skip(j as int).drop_first() =~= buildings@.skip(j as int + 1));
        }
        j = j + 1;
    }
    None
}

/// The first diagonal neighbour of the center that is no wall, trying bottom
/// right first and turning a quarter clockwise each time; none where one of those
/// tried leaves the world, or all four are walls.
pub fn fallback_buffer(center: u32, terrain: &Vec<TerrainKind>) -> (r: Option<u32>)
    requires
        packed_valid(center),
        terrain@.len() == 2500,
    ensures
        r == fallback_from(center, terrain@, 0),
{
    let mut k: u8 = 0;
    while k < 4
        invariant
            k <= 4,
            packed_valid(center),
            terrain@.len() == 2500,
            fallback_from(center, terrain@, 0) == fallback_from(center, terrain@, k as nat),
        decreases 4 - k,
    {
        let d: u8 = (3 + 2 * k) % 8;
        let (dx, dy): (i32, i32) = if d == 3 { (1, 1) } else if d == 5 { (-1, 1) } else if d == 7 { (-1, -1) } else { (1, -1) };
        proof {
            assert(diagonal(k as int) == (dx as int, dy as int));
        }
        match position_after(center, dx, dy) {
            None => {
                return None;
            }
            Some(c) => {
                proof {
                    lemma_after_in_room(center, dx as int, dy as int);
                }
                let t: usize = (c % 256) as usize * 50 + ((c / 256) % 256) as usize;
                if terrain[t] != TerrainKind::Wall {
                    return Some(c);
                }
            }
        }
        k = k + 1;
    }
    None
}

impl ColonyData {
    /// The colony of a room: its center (see `choose_center`), and its buffer
    /// (see `buffer_of`); none where the room has no center.
    pub fn try_construct_from(name: u16, room: &Option<ColonyRoomSight>, flags: &Vec<u32>, terrain: &Vec<TerrainKind>) -> (r: Option<ColonyData>)
        requires
            terrain@.len() == 2500,
            forall|i: int| 0 <= i < flags@.len() ==> packed_valid(#[trigger] flags@[i]),
            room matches Some(s) ==> forall|i: int| 0 <= i < s.spawns@.len() ==> packed_valid(#[trigger] s.spawns@[i].pos),
            room matches Some(s) ==> forall|i: int| 0 <= i < s.buildings@.len() ==> packed_valid(#[trigger] s.buildings@[i].0),
            forall|c: u32| #[trigger] center_ok(name, *room, flags@, Some(c)) ==> buffer_of(*room, c, terrain@) is Some,
        ensures
            r is None <==> center_ok(name, *room, flags@, None),
            r matches Some(d) ==> d.room_name == name && center_ok(name, *room, flags@, Some(d.center))
                && Some(d.buffer_pos) == buffer_of(*room, d.center, terrain@)
                && d.state == ColonyState::Unclaimed,
    {
        let center = match choose_center(name, room, flags) {
            Some(c) => c,
            None => {
                return None;
            }
        };
        proof {
            if room is Some && room.unwrap().spawns@.len() > 0 {
                let i = choose|i: int| #[trigger] is_center_spawn(room.unwrap().spawns@, i) && Some(center) == Some(room.unwrap().spawns@[i].pos);
                assert(packed_valid(room.unwrap().spawns@[i].pos));
            } else {
                lemma_first_in_room_valid(flags@, name);
            }
        }
        let found = match room {
            Some(s) => find_buffer(&s.buildings, center),
            None => None,
        };
        let buffer_pos = match found {
            Some(p) => p,
            None => match fallback_buffer(center, terrain) {
                Some(p) => p,
                None => center,
            },
        };
        Some(ColonyData { room_name: name, center, buffer_pos, state: ColonyState::Unclaimed })
    }
}

/// The parts of a packed position come back out of it.
proof fn lemma_packed_parts(a: int, b: int, x: int, y: int)
    requires
        0 <= a < 256,
        0 <= b < 256,
        0 <= x < 50,
        0 <= y < 50,
    ensures
        (a * 16777216 + b * 65536 + x * 256 + y) % 256 == y,
        (a * 16777216 + b * 65536 + x * 256 + y) / 256 % 256 == x,
        a * 16777216 + b * 65536 + x * 256 + y < 4294967296,
{
    let c = a * 16777216 + b * 65536 + x * 256 + y;
    assert(a * 16777216 + b * 65536 + x * 256 + y == (a * 65536 + b * 256 + x) * 256 + y) by (nonlinear_arith);
    vstd::arithmetic::div_mod::lemma_fundamental_div_mod_converse(c, 256, a * 65536 + b * 256 + x, y);
    let q = a * 65536 + b * 256 + x;
    assert(a * 65536 + b * 256 + x == (a * 256 + b) * 256 + x) by (nonlinear_arith);
    vstd::arithmetic::div_mod::lemma_fundamental_div_mod_converse(q, 256, a * 256 + b, x);
    assert(a * 16777216 + b * 65536 <= 255 * 16777216 + 255 * 65536) by (nonlinear_arith)
        requires 0 <= a < 256, 0 <= b < 256;
}

/// A step from a position that stays in the world lands within a room.
proof fn lemma_after_in_room(p: u32, dx: int, dy: int)
    requires
        spec_position_after(p, dx, dy) is Some,
    ensures
        spec_position_after(p, dx, dy).unwrap() % 256 < 50,
        spec_position_after(p, dx, dy).unwrap() / 256 % 256 < 50,
        pos_tile(spec_position_after(p, dx, dy).unwrap()) < 2500,
{
    let px = (p / 16777216) % 256 * 50 + (p / 256) % 256 + dx;
    let py = (p / 65536) % 256 * 50 + p % 256 + dy;
    lemma_packed_parts(px / 50, py / 50, px % 50, py % 50);
}

/// The first position in a room is one of the positions.
proof fn lemma_first_in_room_valid(flags: Seq<u32>, name: u16)
    requires
        forall|i: int| 0 <= i < flags.len() ==> packed_valid(#[trigger] flags[i]),
    ensures
        first_in_room(flags, name) matches Some(p) ==> packed_valid(p),
    decreases flags.len(),
{
    if flags.len() > 0 {
        assert(packed_valid(flags[0]));
        if room_of(flags[0]) != name {
            assert forall|i: int| 0 <= i < flags.drop_first().len() implies packed_valid(#[trigger] flags.drop_first()[i]) by {
                assert(flags.drop_first()[i] == flags[i + 1]);
            }
            lemma_first_in_room_valid(flags.drop_first(), name);
        }
    }
}

/// What a sequence holds after a push.
proof fn lemma_push_contains(s: Seq<u16>, x: u16)
    ensures
        forall|y: u16| #[trigger] s.push(x).contains(y) <==> s.contains(y) || y == x,
        !s.contains(x) && s.no_duplicates() ==> s.push(x).no_duplicates(),
{
    assert forall|y: u16| #[trigger] s.push(x).contains(y) <==> s.contains(y) || y == x by {
        if s.push(x).contains(y) {
            let i = choose|i: int| 0 <= i < s.push(x).len() && s.push(x)[i] == y;
            if i < s.len() {
                assert(s[i] == y);
            }
        }
        if s.contains(y) {
            let i = choose|i: int| 0 <= i < s.len() && s[i] == y;
            assert(s.push(x)[i] == y);
        }
        if y == x {
            assert(s.push(x)[s.len() as int] == x);
        }
    }
    if !s.contains(x) && s.no_duplicates() {
        assert forall|i: int, j: int| 0 <= i < s.push(x).len() && 0 <= j < s.push(x).len() && i != j
            implies s.push(x)[i] != s.push(x)[j] by {
            if i < s.len() && j == s.len() {
                assert(s.contains(s[i]));
            }
            if j < s.len() && i == s.len() {
                assert(s.contains(s[j]));
            }
        }
    }
}

/// Whether the rooms hold `x`.
fn holds(v: &Vec<u16>, x: u16) -> (b: bool)
    ensures
        b == v@.contains(x),
{
    let mut i: usize = 0;
    while i < v.len()
        invariant
            i <= v@.len(),
            forall|j: int| 0 <= j < i ==> v@[j] != x,
        decreases v@.len() - i,
    {
        if v[i] == x {
            return true;
        }
        i = i + 1;
    }
    false
}

/// The colonies' rooms as they change: those kept no more, and those to keep.
pub struct RoomChanges {
    pub lost: Vec<u16>,
    pub current: Vec<u16>,
}

/// The rooms to keep colonies in are those owned and those with a claim flag,
/// each once; a known room not among them is lost.
pub fn room_changes(known: &Vec<u16>, owned: &Vec<u16>, claimed: &Vec<u16>) -> (c: RoomChanges)
    ensures
        forall|r: u16| #[trigger] c.current@.contains(r) <==> owned@.contains(r) || claimed@.contains(r),
        c.current@.no_duplicates(),
        forall|r: u16| #[trigger] c.lost@.contains(r) <==> known@.contains(r) && !owned@.contains(r) && !claimed@.contains(r),
        known@.no_duplicates() ==> c.lost@.no_duplicates(),
{
    let mut current: Vec<u16> = Vec::new();
    let mut i: usize = 0;
    while i < owned.len()
        invariant
            i <= owned@.len(),
            current@.no_duplicates(),
            forall|r: u16| #[trigger] current@.contains(r) <==> owned@.take(i as int).contains(r),
        decreases owned@.len() - i,
    {
        let r = owned[i];
        proof {
            assert(owned@.take(i as int + 1) =~= owned@.take(i as int).push(r));
            lemma_push_contains(owned@.take(i as int), r);
            lemma_push_contains(current@, r);
        }
        if !holds(&current, r) {
            current.push(r);
        }
        i = i + 1;
    }
    proof {
        assert(owned@.take(i as int) =~= owned@);
    }
    let mut j: usize = 0;
    while j < claimed.len()
        invariant
            j <= claimed@.len(),
            current@.no_duplicates(),
            forall|r: u16| #[trigger] current@.contains(r) <==> owned@.contains(r) || claimed@.take(j as int).contains(r),
        decreases claimed@.len() - j,
    {
        let r = claimed[j];
        proof {
            assert(claimed@.take(j as int + 1) =~= claimed@.take(j as int).push(r));
            lemma_push_contains(claimed@.take(j as int), r);
            lemma_push_contains(current@, r);
        }
        if !holds(&current, r) {
            current.push(r);
        }
        j = j + 1;
    }
    proof {
        assert(claimed@.take(j as int) =~= claimed@);
    }
    let mut lost: Vec<u16> = Vec::new();
    let mut k: usize = 0;
    while k < known.len()
        invariant
            k <= known@.len(),
            forall|r: u16| #[trigger] current@.contains(r) <==> owned@.contains(r) || claimed@.contains(r),
            forall|r: u16| #[trigger] lost@.contains(r) <==> known@.take(k as int).contains(r) && !current@.contains(r),
            known@.no_duplicates() ==> lost@.no_duplicates(),
        decreases known@.len() - k,
    {
        let r = known[k];
        proof {
            assert(known@.take(k as int + 1) =~= known@.take(k as int).push(r));
            lemma_push_contains(known@.take(k as int), r);
            lemma_push_contains(lost@, r);
        }
        if !holds(&current, r) {
            proof {
                if known@.no_duplicates() {
                    assert(!known@.take(k as int).contains(r)) by {
                        if known@.take(k as int).contains(r) {
                            let a = choose|a: int| 0 <= a < k && known@.take(k as int)[a] == r;
                            assert(known@[a] == known@[k as int]);
                        }
                    }
                }
            }
            lost.push(r);
        }
        k = k + 1;
    }
    proof {
        assert(known@.take(k as int) =~= known@);
    }
    RoomChanges { lost, current }
}

} // verus!
