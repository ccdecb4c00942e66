//! Claiming rooms: the rooms a `claim` command asks for, and the flagship creep
//! that goes to each in turn and claims its controller.
use vstd::prelude::*;
use vstd::string::StrSliceExecFns;
use crate::commands::{Command, CommandQueue, CommandView, partition};
use crate::keyed::KeyedMap;
use crate::movement::{Approach, approach_within, approached, deferable, has_move, spec_approach_within};
use crate::position::packed_valid;
use crate::steps::Transition;
use crate::virtual_creep::{Intent, IntentAction, IntentError, IntentType, VirtualCreep, register_outcome, register_result};

verus! {

/// A letter that names the east or the west.
pub open spec fn is_ew(c: char) -> bool {
    c == 'E' || c == 'e' || c == 'W' || c == 'w'
}

/// A letter that names the north or the south.
pub open spec fn is_ns(c: char) -> bool {
    c == 'N' || c == 'n' || c == 'S' || c == 's'
}

/// The first index from `i` on that holds a north or south letter.
pub open spec fn first_ns(s: Seq<char>, i: int) -> Option<int>
    decreases s.len() - i,
{
    if i < 0 || i >= s.len() {
        None
    } else if is_ns(s[i]) {
        Some(i)
    } else {
        first_ns(s, i + 1)
    }
}

/// Every character is a decimal digit.
pub open spec fn all_digits(s: Seq<char>) -> bool {
    forall|i: int| 0 <= i < s.len() ==> '0' <= #[trigger] s[i] <= '9'
}

/// The number that decimal digits write.
pub open spec fn digits_value(s: Seq<char>) -> nat
    decreases s.len(),
{
    if s.len() == 0 {
        0
    } else {
        digits_value(s.drop_last()) * 10 + ((s.last() as int) - ('0' as int)) as nat
    }
}

/// The coordinate a room name's number gives: read as an `i32` is (an optional
/// plus sign, then decimal digits), where it is at most 127; none otherwise (a
/// larger number is out of the world, or out of an `i32`).
pub open spec fn room_coord(s: Seq<char>) -> Option<nat> {
    let d = if s.len() > 0 && s[0] == '+' { s.drop_first() } else { s };
    if d.len() > 0 && all_digits(d) && digits_value(d) <= 127 { Some(digits_value(d)) } else { None }
}

/// What parsing a room name gives: the packed form of the name (the room's x
/// plus 128, times 256, plus its y plus 128; a west or north number `n` stands
/// for `-n - 1`), or nothing where the text is no room name. A room name is an
/// east or west letter, a number, a north or south letter, and a number (the
/// first north or south letter after the first number's first character ends
/// that number).
pub open spec fn spec_parse_room_name(name: Seq<char>) -> Option<u16> {
    if name.len() < 2 || !is_ew(name[0]) {
        None
    } else {
        match first_ns(name, 2) {
            None => None,
            Some(m) => match (room_coord(name.subrange(1, m)), room_coord(name.subrange(m + 1, name.len() as int))) {
                (Some(x), Some(y)) => {
                    let rx: int = if name[0] == 'E' || name[0] == 'e' { x as int + 128 } else { 127 - x };
                    let ry: int = if name[m] == 'S' || name[m] == 's' { y as int + 128 } else { 127 - y };
                    Some((rx * 256 + ry) as u16)
                },
                _ => None,
            },
        }
    }
}

/// Parses a room name, by `screeps::RoomName::new`, giving the name's packed form
/// (`RoomName::packed_repr`): the crate reads `(E|W)x(N|S)y` as `spec_parse_room_name`
/// states (without its `sim` feature, which this crate does not enable). The crate
/// reads each number as an `i32`, sign included, and negates the number of a west
/// or north name, which overflows on the least `i32`; a text without a minus sign
/// never reaches that.
#[verifier::external_body]
fn parse_room_name(name: &String) -> (r: Option<u16>)
    requires
        !name@.contains('-'),
    ensures
        r == spec_parse_room_name(name@),
{
    match screeps::RoomName::new(name) {
        Ok(n) => Some(n.packed_repr()),
        Err(_) => None,
    }
}

/// The room that a text names: none where it holds a minus sign (a room name is
/// a letter, digits, a letter and digits), else what parsing it gives.
pub open spec fn spec_room_name(name: Seq<char>) -> Option<u16> {
    if name.contains('-') { None } else { spec_parse_room_name(name) }
}

/// Whether the text holds a minus sign.
fn has_minus_sign(name: &String) -> (b: bool)
    ensures
        b == name@.contains('-'),
{
    let s = name.as_str();
    let n = s.unicode_len();
    let mut i: usize = 0;
    while i < n
        invariant
            s@ == name@,
            n == name@.len(),
            i <= n,
            forall|j: int| 0 <= j < i ==> name@[j] != '-',
        decreases n - i,
    {
        if s.get_char(i) == '-' {
            return true;
        }
        i = i + 1;
    }
    false
}

/// The room that a text names, in packed form, or `None` where it names none.
pub fn room_name(name: &String) -> (r: Option<u16>)
    ensures
        r == spec_room_name(name@),
{
    if has_minus_sign(name) {
        None
    } else {
        parse_room_name(name)
    }
}

/// The middle of a room, position 25, 25 in it, in packed form.
pub open spec fn spec_room_center(room: u16) -> u32 {
    (room * 65536 + 25 * 256 + 25) as u32
}

/// The middle of a room, position 25, 25 in it.
pub fn room_center(room: u16) -> (p: u32)
    ensures
        p == spec_room_center(room),
        packed_valid(p),
{
    (room as u32) * 65536 + 25 * 256 + 25
}

/// What is known of a room this tick.
#[derive(PartialEq, Eq, Structural, Clone, Copy, Debug)]
pub enum RoomSight {
    /// No creep or structure of ours sees the room.
    Unseen,
    NoController,
    /// Its controller: where it is, whether it is ours, and whether someone holds
    /// a reservation on it.
    Controller { id: u64, pos: u32, my: bool, reserved: bool },
}

/// A seen room needs no claim: it has no controller, or the controller is ours.
pub open spec fn settled(s: RoomSight) -> bool {
    s is NoController || (s matches RoomSight::Controller { my, .. } && my)
}

/// The room that a command asks to claim, where it is a claim with a valid name.
pub open spec fn claim_room(c: Command) -> Option<u64> {
    match c@ {
        CommandView::Claim { room } => match spec_room_name(room) {
            Some(n) => Some(n as u64),
            None => None,
        },
        _ => None,
    }
}

/// The rooms that the commands ask to claim.
pub open spec fn claimed_rooms(s: Seq<Command>) -> Set<u64>
    decreases s.len(),
{
    if s.len() == 0 {
        Set::empty()
    } else {
        let rest = claimed_rooms(s.drop_last());
        match claim_room(s.last()) {
            Some(k) => rest.insert(k),
            None => rest,
        }
    }
}

/// Whether each command is a claim.
pub open spec fn claim_flags(s: Seq<Command>) -> Seq<bool> {
    Seq::new(s.len(), |i: int| s[i]@ is Claim)
}

/// Taking out the claims keeps the rooms they ask for.
proof fn lemma_claims_kept(s: Seq<Command>, d: Seq<bool>)
    requires
        d.len() == s.len(),
        forall|i: int| 0 <= i < s.len() ==> d[i] == (s[i]@ is Claim),
    ensures
        claimed_rooms(partition(s, d, true)) == claimed_rooms(s),
    decreases s.len(),
{
    if s.len() > 0 {
        lemma_claims_kept(s.drop_last(), d.drop_last());
        let p = partition(s.drop_last(), d.drop_last(), true);
        if d.last() {
            let q = p + seq![s.last()];
            assert(q.drop_last() =~= p);
            assert(q.last() == s.last());
        } else {
            assert(p + Seq::<Command>::empty() =~= p);
        }
    }
}

/// Whether a command is a claim.
fn is_claim(c: &Command) -> (b: bool)
    ensures
        b == (c@ is Claim),
{
    match c {
        Command::Claim { .. } => true,
        _ => false,
    }
}

/// The rooms that flagships are to claim.
pub struct FlagshipCoordinator {
    pub rooms: KeyedMap<()>,
}

impl FlagshipCoordinator {
    /// The rooms to claim, by their packed names.
    pub open spec fn room_set(&self) -> Set<u64> {
        self.rooms@.dom()
    }

    /// The map is well formed and every room is a packed room name.
    pub open spec fn wf(&self) -> bool {
        &&& self.rooms.wf()
        &&& forall|k: u64| #[trigger] self.rooms@.contains_key(k) ==> k < 65536
    }

    /// No rooms to claim.
    pub fn new() -> (c: Self)
        ensures
            c.wf(),
            c.room_set() == Set::<u64>::empty(),
    {
        FlagshipCoordinator { rooms: KeyedMap::new() }
    }

    /// Adds the room that a parsed claim names, where the name was valid.
    pub fn claim_room(&mut self, room: Option<u16>)
        requires
            old(self).wf(),
        ensures
            final(self).wf(),
            final(self).room_set() == match room {
                Some(r) => old(self).room_set().insert(r as u64),
                None => old(self).room_set(),
            },
    {
        match room {
            Some(r) => {
                self.rooms.insert(r as u64, ());
            },
            None => {},
        }
    }

    /// Drops the rooms that are seen and need no claim any more (they have no
    /// controller, or it is ours), then takes every `claim` command out of the
    /// queue and adds the rooms they name (a claim with an invalid name is taken
    /// out too).
    pub fn update(&mut self, queue: &mut CommandQueue, sights: &KeyedMap<RoomSight>)
        requires
            old(self).wf(),
            old(queue).wf(),
            sights.wf(),
        ensures
            final(self).wf(),
            final(queue).wf(),
            final(self).room_set() == old(self).room_set().filter(|k: u64| !(sights@.contains_key(k) && settled(sights@[k])))
                .union(claimed_rooms(old(queue).commands())),
            final(queue).commands() == partition(old(queue).commands(), claim_flags(old(queue).commands()), false),
    {
        let ghost base = old(self).room_set().filter(|k: u64| !(sights@.contains_key(k) && settled(sights@[k])));
        let mut i: usize = 0;
        while i < self.rooms.len()
            invariant
                self.wf(),
                sights.wf(),
                i <= self.rooms.entries().len(),
                forall|k: u64| #[trigger] self.room_set().contains(k) ==> old(self).room_set().contains(k),
                forall|k: u64| #[trigger] old(self).room_set().contains(k) && base.contains(k) ==> self.room_set().contains(k),
                base == old(self).room_set().filter(|k: u64| !(sights@.contains_key(k) && settled(sights@[k]))),
                forall|a: int| 0 <= a < i ==> base.contains(#[trigger] self.rooms.entries()[a].0),
            decreases self.rooms.entries().len() - i,
        {
            proof {
                self.rooms.lemma_wf();
            }
            let k = self.rooms.key_at(i);
            let drop = match sights.get(k) {
                Some(s) => match s {
                    RoomSight::NoController => true,
                    RoomSight::Controller { my, .. } => *my,
                    RoomSight::Unseen => false,
                },
                None => false,
            };
            proof {
                assert(self.rooms@.contains_key(k));
                assert(self.room_set().contains(k));
                assert(old(self).room_set().contains(k));
                assert(drop == (sights@.contains_key(k) && settled(sights@[k])));
            }
            if drop {
                let ghost before = self.rooms.entries();
                let ghost before_map = self.rooms@;
                let ghost before_self = *self;
                self.rooms.remove_at(i);
                proof {
                    assert(self.rooms@ == before_map.remove(k));
                    assert forall|a: int| 0 <= a < i implies base.contains(#[trigger] self.rooms.entries()[a].0) by {
                        assert(self.rooms.entries()[a] == before[a]);
                    }
                    assert forall|x: u64| #[trigger] self.room_set().contains(x) implies old(self).room_set().contains(x) by {
                        assert(before_map.contains_key(x));
                        assert(before_self.room_set().contains(x));
                    }
                }
            } else {
                proof {
                    assert(base.contains(k));
                }
                i = i + 1;
            }
        }
        proof {
            self.rooms.lemma_wf();
            assert(self.room_set() =~= base) by {
                assert forall|k: u64| self.room_set().contains(k) implies base.contains(k) by {
                    assert(self.rooms@.contains_key(k));
                    let a = choose|a: int| 0 <= a < self.rooms.entries().len() && self.rooms.entries()[a].0 == k;
                    assert(base.contains(self.rooms.entries()[a].0));
                }
            }
        }
        let ghost cmds = queue.commands();
        let f = |c: &Command| -> (b: bool)
            ensures
                b == (c@ is Claim),
            { is_claim(c) };
        let handled = queue.handle_commands(f);
        proof {
            let d = choose|d: Seq<bool>| {
                &&& #[trigger] d.len() == cmds.len()
                &&& forall|i: int| 0 <= i < d.len() ==> f.ensures((&cmds[i],), #[trigger] d[i])
                &&& queue.commands() == partition(cmds, d, false)
                &&& handled@ == partition(cmds, d, true)
            };
            assert(d =~= claim_flags(cmds));
            lemma_claims_kept(cmds, d);
            assert(claimed_rooms(handled@) == claimed_rooms(cmds));
        }
        let mut j: usize = 0;
        while j < handled.len()
            invariant
                self.wf(),
                j <= handled@.len(),
                self.room_set() == base.union(claimed_rooms(handled@.take(j as int))),
            decreases handled@.len() - j,
        {
            let room = match &handled[j] {
                Command::Claim { room } => room_name(room),
                _ => None,
            };
            self.claim_room(room);
            proof {
                let t = handled@.take(j as int + 1);
                assert(t.drop_last() =~= handled@.take(j as int));
                assert(t.last() == handled@[j as int]);
                assert(self.room_set() =~= base.union(claimed_rooms(t)));
            }
            j = j + 1;
        }
        proof {
            assert(handled@.take(j as int) =~= handled@);
            assert(handled@.take(0) =~= Seq::<Command>::empty());
        }
    }
}

/// The states of a flagship.
#[derive(PartialEq, Eq, Structural, Clone, Copy, Debug)]
pub enum FlagshipCreep {
    Idle,
    /// Going to a room to claim, with its controller's position once seen.
    Claiming { room: u16, controller_pos: Option<u32> },
}

/// Why a flagship could not go on.
#[derive(PartialEq, Eq, Structural, Clone, Copy, Debug)]
pub enum FlagshipError {
    /// The room to claim has no controller; its claim was dropped.
    NoController(u16),
    Intent(IntentError),
}

/// What one round decided: the transition, and where the flagship is to move.
#[derive(PartialEq, Eq, Structural, Clone, Copy, Debug)]
pub struct FlagshipStep {
    pub transition: Transition<FlagshipCreep>,
    pub move_to: Option<u32>,
}

/// The step that stops at `s`, with a move towards the target if one was registered.
pub open spec fn stay(s: FlagshipCreep, a: Approach) -> FlagshipStep {
    FlagshipStep {
        transition: Transition::Break(s),
        move_to: match a { Approach::Moving(t) => Some(t), _ => None },
    }
}

/// The step that goes on to `s` in the same tick.
pub open spec fn go_on(s: FlagshipCreep) -> FlagshipStep {
    FlagshipStep { transition: Transition::Continue(s), move_to: None }
}

/// The controller's position as the flagship knows it after this tick's sight.
pub open spec fn known_controller(controller_pos: Option<u32>, sight: RoomSight) -> Option<u32> {
    match controller_pos {
        Some(p) => Some(p),
        None => match sight {
            RoomSight::Controller { pos, .. } => Some(pos),
            _ => None,
        },
    }
}

/// Where the flagship heads: the controller, or the middle of the room while the
/// controller is unknown.
pub open spec fn claim_target(room: u16, known: Option<u32>) -> u32 {
    match known {
        Some(p) => p,
        None => spec_room_center(room),
    }
}

/// An idle flagship takes a room to claim, if there is one, and stays idle
/// otherwise.
pub open spec fn flagship_idle_outcome(rooms: Set<u64>, r: Result<FlagshipStep, FlagshipError>) -> bool {
    if rooms == Set::<u64>::empty() {
        r == Ok::<FlagshipStep, FlagshipError>(stay(FlagshipCreep::Idle, Approach::Arrived))
    } else {
        exists|k: u64| #[trigger] rooms.contains(k) && r == Ok::<FlagshipStep, FlagshipError>(
            go_on(FlagshipCreep::Claiming { room: k as u16, controller_pos: None }))
    }
}

/// A claiming flagship goes idle once its room needs no claim; it drops the claim
/// of a seen room without a controller; otherwise it goes next to the controller
/// (or the middle of the room until the controller is seen) and claims it, and the
/// claim is done unless someone holds a reservation on the controller.
pub open spec fn claiming_outcome(room: u16, controller_pos: Option<u32>, t0: VirtualCreep, t1: VirtualCreep,
    c0: Set<u64>, c1: Set<u64>, pos: u32, sight: RoomSight, r: Result<FlagshipStep, FlagshipError>) -> bool {
    if !c0.contains(room as u64) {
        r == Ok::<FlagshipStep, FlagshipError>(go_on(FlagshipCreep::Idle)) && t1 == t0 && c1 == c0
    } else if sight is NoController {
        r == Err::<FlagshipStep, FlagshipError>(FlagshipError::NoController(room)) && t1 == t0 && c1 == c0.remove(room as u64)
    } else {
        let known = known_controller(controller_pos, sight);
        let this = FlagshipCreep::Claiming { room, controller_pos: known };
        let a = spec_approach_within(has_move(t0), pos, claim_target(room, known), 1);
        if a != Approach::Arrived {
            r == Ok::<FlagshipStep, FlagshipError>(stay(this, a)) && approached(t0, t1, a) && c1 == c0
        } else {
            match sight {
                RoomSight::Controller { id, reserved, .. } => {
                    let i = Intent { effect: None, action: IntentAction::ClaimController { controller: id } };
                    let res = register_result(t0, IntentType::ClaimController, i.effect);
                    &&& register_outcome(t0, t1, IntentType::ClaimController, i, res)
                    &&& match res {
                        Err(e) => c1 == c0 && r == if deferable(e) {
                            Ok::<FlagshipStep, FlagshipError>(stay(this, Approach::Arrived))
                        } else {
                            Err::<FlagshipStep, FlagshipError>(FlagshipError::Intent(e))
                        },
                        Ok(_) => if reserved {
                            r == Ok::<FlagshipStep, FlagshipError>(stay(this, Approach::Arrived)) && c1 == c0
                        } else {
                            r == Ok::<FlagshipStep, FlagshipError>(go_on(FlagshipCreep::Idle)) && c1 == c0.remove(room as u64)
                        },
                    }
                },
                _ => false,
            }
        }
    }
}

/// A flagship that reaches its target sees the room: standing within range of a
/// place in the room, without a move of its own registered, means the room is
/// seen.
pub open spec fn seen_when_near(s: FlagshipCreep, creep: VirtualCreep, pos: u32, sight: RoomSight) -> bool {
    match s {
        FlagshipCreep::Claiming { room, controller_pos } => sight is Unseen && !has_move(creep)
            ==> crate::position::spec_range(pos, claim_target(room, known_controller(controller_pos, sight))) > 1,
        FlagshipCreep::Idle => true,
    }
}

impl FlagshipCreep {
    /// One round of the flagship's decisions, with what is seen of the room it
    /// claims.
    pub fn update(self, creep: &mut VirtualCreep, pos: u32, coordinator: &mut FlagshipCoordinator, sight: RoomSight)
        -> (r: Result<FlagshipStep, FlagshipError>)
        requires
            old(creep).wf(),
            old(coordinator).wf(),
            packed_valid(pos),
            sight matches RoomSight::Controller { pos: p, .. } ==> packed_valid(p),
            self matches FlagshipCreep::Claiming { controller_pos: Some(p), .. } ==> packed_valid(p),
            seen_when_near(self, *old(creep), pos, sight),
        ensures
            final(creep).wf(),
            final(coordinator).wf(),
            match self {
                FlagshipCreep::Idle => flagship_idle_outcome(old(coordinator).room_set(), r)
                    && *final(creep) == *old(creep) && *final(coordinator) == *old(coordinator),
                FlagshipCreep::Claiming { room, controller_pos } => claiming_outcome(room, controller_pos,
                    *old(creep), *final(creep), old(coordinator).room_set(), final(coordinator).room_set(), pos, sight, r),
            },
    {
        match self {
            FlagshipCreep::Idle => {
                if coordinator.rooms.len() == 0 {
                    proof {
                        coordinator.rooms.lemma_wf();
                        assert(coordinator.room_set() =~= Set::<u64>::empty());
                    }
                    return Ok(FlagshipStep { transition: Transition::Break(FlagshipCreep::Idle), move_to: None });
                }
                let k = coordinator.rooms.key_at(0);
                proof {
                    coordinator.rooms.lemma_wf();
                    assert(coordinator.room_set().contains(k));
                }
                Ok(FlagshipStep {
                    transition: Transition::Continue(FlagshipCreep::Claiming { room: k as u16, controller_pos: None }),
                    move_to: None,
                })
            },
            FlagshipCreep::Claiming { room, controller_pos } => {
                if !coordinator.rooms.contains_key(room as u64) {
                    return Ok(FlagshipStep { transition: Transition::Continue(FlagshipCreep::Idle), move_to: None });
                }
                let controller = match sight {
                    RoomSight::NoController => {
                        coordinator.rooms.remove(room as u64);
                        return Err(FlagshipError::NoController(room));
                    },
                    RoomSight::Unseen => None,
                    RoomSight::Controller { id, pos: cpos, reserved, .. } => Some((id, cpos, reserved)),
                };
                let known = match controller_pos {
                    Some(p) => Some(p),
                    None => match controller {
                        Some((_, cpos, _)) => Some(cpos),
                        None => None,
                    },
                };
                let this = FlagshipCreep::Claiming { room, controller_pos: known };
                let target = match known {
                    Some(p) => p,
                    None => room_center(room),
                };
                let a = approach_within(creep, pos, target, 1);
                if a != Approach::Arrived {
                    return Ok(FlagshipStep {
                        transition: Transition::Break(this),
                        move_to: match a { Approach::Moving(t) => Some(t), _ => None },
                    });
                }
                let (id, reserved) = match controller {
                    Some((id, _, reserved)) => (id, reserved),
                    None => {
                        proof {
                            assert(false);
                        }
                        return Ok(FlagshipStep { transition: Transition::Break(this), move_to: None });
                    },
                };
                match creep.claim_controller(id) {
                    Err(e) => {
                        if e.is_deferable() {
                            Ok(FlagshipStep { transition: Transition::Break(this), move_to: None })
                        } else {
                            Err(FlagshipError::Intent(e))
                        }
                    },
                    Ok(_) => {
                        if reserved {
                            Ok(FlagshipStep { transition: Transition::Break(this), move_to: None })
                        } else {
                            coordinator.rooms.remove(room as u64);
                            Ok(FlagshipStep { transition: Transition::Continue(FlagshipCreep::Idle), move_to: None })
                        }
                    },
                }
            },
        }
    }
}

} // verus!
