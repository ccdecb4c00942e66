//! Work that runs every so many ticks, and the record of when each kind last ran.
use vstd::prelude::*;
use crate::keyed::KeyedMap;

verus! {

/// The kinds of periodic work.
#[derive(PartialEq, Eq, Structural, Clone, Copy, Debug, Hash)]
pub enum PeriodicCallback {
    RoomUpdate,
}

/// The ticks between two room updates.
pub const ROOM_UPDATE_DELAY: u32 = 10;

/// The key under which a kind's last run is recorded.
pub open spec fn callback_code(c: PeriodicCallback) -> u64 {
    match c {
        PeriodicCallback::RoomUpdate => 0,
    }
}

/// The ticks between two runs of a kind.
pub open spec fn callback_delay(c: PeriodicCallback) -> u32 {
    match c {
        PeriodicCallback::RoomUpdate => ROOM_UPDATE_DELAY,
    }
}

/// All kinds of periodic work, in the order they are handled.
pub open spec fn all_callbacks() -> Seq<PeriodicCallback> {
    seq![PeriodicCallback::RoomUpdate]
}

/// The tick a kind last ran (0 where it never did).
pub open spec fn last_run(m: Map<u64, u32>, c: PeriodicCallback) -> u32 {
    if m.contains_key(callback_code(c)) { m[callback_code(c)] } else { 0 }
}

/// A kind is due at `now` once its delay has passed since its last run.
pub open spec fn is_due(m: Map<u64, u32>, c: PeriodicCallback, now: u32) -> bool {
    now >= last_run(m, c) + callback_delay(c)
}

impl PeriodicCallback {
    /// The ticks between two runs.
    pub fn delay(&self) -> (d: u32)
        ensures
            d == callback_delay(*self),
    {
        match self {
            PeriodicCallback::RoomUpdate => ROOM_UPDATE_DELAY,
        }
    }

    fn code(&self) -> (c: u64)
        ensures
            c == callback_code(*self),
    {
        match self {
            PeriodicCallback::RoomUpdate => 0,
        }
    }

    /// All kinds, in the order they are handled.
    pub fn all() -> (v: Vec<PeriodicCallback>)
        ensures
            v@ == all_callbacks(),
    {
        let v = vec![PeriodicCallback::RoomUpdate];
        proof {
            assert(v@ =~= all_callbacks());
        }
        v
    }
}

/// When each kind of periodic work last ran.
pub struct Callbacks {
    last_periodic: KeyedMap<u32>,
}

impl Callbacks {
    /// The tick of each kind's last run, by its key.
    pub closed spec fn view(&self) -> Map<u64, u32> {
        self.last_periodic@
    }

    pub closed spec fn wf(&self) -> bool {
        self.last_periodic.wf()
    }

    /// No kind has run yet.
    pub fn new() -> (c: Self)
        ensures
            c.wf(),
            c@ == Map::<u64, u32>::empty(),
    {
        Callbacks { last_periodic: KeyedMap::new() }
    }

    /// The kinds that are due at tick `now`, in order; each one's last run becomes
    /// `now`, and a kind that never ran is recorded as having run at tick 0.
    pub fn handle_callbacks(&mut self, now: u32) -> (due: Vec<PeriodicCallback>)
        requires
            old(self).wf(),
        ensures
            final(self).wf(),
            due@ == if is_due(old(self)@, PeriodicCallback::RoomUpdate, now) {
                seq![PeriodicCallback::RoomUpdate]
            } else {
                Seq::<PeriodicCallback>::empty()
            },
            final(self)@ == old(self)@.insert(callback_code(PeriodicCallback::RoomUpdate),
                if is_due(old(self)@, PeriodicCallback::RoomUpdate, now) {
                    now
                } else {
                    last_run(old(self)@, PeriodicCallback::RoomUpdate)
                }),
    {
        let mut due: Vec<PeriodicCallback> = Vec::new();
        let all = PeriodicCallback::all();
        let c = all[0];
        let key = c.code();
        let last: u32 = match self.last_periodic.get(key) {
            Some(t) => *t,
            None => 0,
        };
        if (now as u64) < last as u64 + c.delay() as u64 {
            self.last_periodic.insert(key, last);
        } else {
            self.last_periodic.insert(key, now);
            due.push(c);
        }
        proof {
            assert(due@ =~= if is_due(old(self)@, PeriodicCallback::RoomUpdate, now) {
                seq![PeriodicCallback::RoomUpdate]
            } else {
                Seq::<PeriodicCallback>::empty()
            });
        }
        due
    }
}

/// A kind of periodic work runs at most once in any `delay` ticks: once it ran at
/// tick `t`, it is not due again before `t + delay`.
pub proof fn law_callbacks_spaced(m: Map<u64, u32>, c: PeriodicCallback, t: u32, now: u32)
    requires
        now < t + callback_delay(c),
    ensures
        !is_due(m.insert(callback_code(c), t), c, now),
{
}

} // verus!
