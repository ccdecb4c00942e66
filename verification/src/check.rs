//! Checking of values read back from memory: a value that was stored on an earlier
//! tick may no longer be valid (an object died, an entry expired), so it is checked
//! on its way in, and the collections that hold such values drop what fails.
use vstd::prelude::*;

verus! {

/// Values that stay valid forever, and need no check.
pub trait TriviallyChecked {}

impl TriviallyChecked for u32 {}

impl TriviallyChecked for () {}

/// A type whose values are checked from an unchecked form.
pub trait CheckFrom: Sized {
    type Unchecked;
    type Err;

    fn check_from(uc: Self::Unchecked) -> Result<Self, Self::Err>;
}

/// The unchecked side of `CheckFrom`: `uc.check()` is `T::check_from(uc)`.
pub trait Check<T> {
    type Err;

    fn check(self) -> Result<T, Self::Err>;
}

/// A collection that is checked entry by entry, keeping what passes and reporting
/// what fails.
pub trait FilterCheckFrom: Sized {
    type Unchecked;
    type Err;

    fn filter_check_from(uc: Self::Unchecked) -> (Self, Vec<Self::Err>);
}

/// The unchecked side of `FilterCheckFrom`.
pub trait FilterCheck<T> {
    type Err;

    fn filter_check(self) -> (T, Vec<Self::Err>);
}

/// How a key/value pair failed its check: the key failed (with the value that
/// went with it), or the key passed and the value failed.
pub enum PairCheckError<K, KErr, V, VErr> {
    Key(KErr, V),
    Value(K, VErr),
}

/// A collection whose entries were checked one by one, with the failures dropped.
#[derive(Clone, Copy, Debug, PartialEq, Eq, Hash)]
pub struct Filtered<T>(pub T);

impl<T> TriviallyChecked for Filtered<T> {}

/// The current game tick.
///
/// Trusted: calls `screeps::game::time`, which reads the tick from the game; it
/// returns a value that depends on when it is called, so nothing is stated of it.
#[verifier::external_body]
pub(crate) fn current_tick() -> (t: u32) {
    screeps::game::time()
}

/// Whether an expiration refreshed at `last_refresh` with a lifetime of `lifetime`
/// ticks is still live at tick `now`.
pub open spec fn spec_live(last_refresh: nat, lifetime: nat, now: nat) -> bool {
    now <= last_refresh + lifetime
}

/// The ticks left before an expiration runs out: it is live up to and including
/// `LIFETIME` ticks after its last refresh.
#[derive(Clone, Copy, Debug)]
pub struct Expiration<const LIFETIME: u32> {
    pub last_refresh: u32,
}

impl<const LIFETIME: u32> Expiration<LIFETIME> {
    /// The tick of the last refresh.
    pub open spec fn view(&self) -> u32 {
        self.last_refresh
    }

    /// The expiration refreshed at tick `now`.
    pub open spec fn new_spec(now: u32) -> Self {
        Expiration { last_refresh: now }
    }

    /// Its count of ticks fits in a `u32`.
    pub open spec fn wf(&self) -> bool {
        self@ + LIFETIME + 1 <= u32::MAX
    }

    /// An expiration refreshed at tick `now`.
    pub fn new_at(now: u32) -> (e: Self)
        ensures
            e == Self::new_spec(now),
            e@ == now,
    {
        Expiration { last_refresh: now }
    }

    /// An expiration refreshed now: at the current tick, whichever that is.
    pub fn new() -> (e: Self)
        ensures
            exists|now: u32| e == Self::new_spec(now),
    {
        Self::new_at(current_tick())
    }

    /// The tick of the last refresh.
    pub fn last_refresh(&self) -> (t: u32)
        ensures
            t == self@,
    {
        self.last_refresh
    }

    /// Refreshes at tick `now`.
    pub fn refresh_at(&mut self, now: u32)
        ensures
            *final(self) == Self::new_spec(now),
    {
        self.last_refresh = now;
    }

    /// Refreshes now: at the current tick, whichever that is.
    pub fn refresh(&mut self)
        ensures
            exists|now: u32| *final(self) == Self::new_spec(now),
    {
        let now = current_tick();
        self.refresh_at(now);
    }

    /// The ticks left at tick `now`: `last_refresh + LIFETIME + 1 - now`, or 0
    /// once that is passed.
    pub open spec fn spec_time_left(&self, now: u32) -> int {
        if now <= self@ + LIFETIME + 1 { self@ + LIFETIME + 1 - now } else { 0 }
    }

    /// The ticks left at tick `now`: `last_refresh + LIFETIME + 1 - now`, or 0
    /// once that is passed.
    pub fn time_left_at(&self, now: u32) -> (t: u32)
        requires
            self.wf(),
        ensures
            t == if now <= self@ + LIFETIME + 1 { self@ + LIFETIME + 1 - now } else { 0 },
            t > 0 <==> spec_live(self@ as nat, LIFETIME as nat, now as nat),
    {
        (self.last_refresh + LIFETIME + 1).saturating_sub(now)
    }

    /// The ticks left now, at the current tick, whichever that is.
    pub fn time_left(&self) -> (t: u32)
        requires
            self.wf(),
        ensures
            exists|now: u32| t == #[trigger] self.spec_time_left(now),
    {
        let now = current_tick();
        let t = self.time_left_at(now);
        proof {
            assert(t == self.spec_time_left(now));
        }
        t
    }

    /// Checks at tick `now`: passes while time is left.
    pub fn check_at(self, now: u32) -> (r: Result<Self, ()>)
        requires
            self.wf(),
        ensures
            r is Ok <==> spec_live(self@ as nat, LIFETIME as nat, now as nat),
            r matches Ok(e) ==> e == self,
    {
        if self.time_left_at(now) == 0 {
            return Err(());
        }
        Ok(self)
    }
}

/// A value that lives for `LIFETIME` ticks after its last refresh.
#[derive(Clone, Copy, Debug)]
pub struct Expiring<T, const LIFETIME: u32> {
    pub inner: T,
    pub expiration: Expiration<LIFETIME>,
}

/// How an expiring value failed its check: it expired (with the value), or the
/// value itself failed.
pub enum ExpirationCheckError<T, E> {
    Expired(T),
    Inner(E),
}

impl<T, const LIFETIME: u32> Expiring<T, LIFETIME> {
    /// The value `Expiring::new_at(inner, now)` gives.
    pub open spec fn new_spec(inner: T, now: u32) -> Self {
        Expiring { inner, expiration: Expiration::<LIFETIME>::new_spec(now) }
    }

    /// Wraps `inner`, refreshed at tick `now`.
    pub fn new_at(inner: T, now: u32) -> (e: Self)
        ensures
            e == Self::new_spec(inner, now),
    {
        Expiring { inner, expiration: Expiration::new_at(now) }
    }

    /// Wraps `inner`, refreshed now: at the current tick, whichever that is.
    pub fn new(inner: T) -> (e: Self)
        ensures
            exists|now: u32| e == Self::new_spec(inner, now),
    {
        let now = current_tick();
        Self::new_at(inner, now)
    }

    /// Checks at tick `now`, where the value itself needs no check.
    pub fn check_at(self, now: u32) -> (r: Result<Self, ExpirationCheckError<T, ()>>)
        requires
            self.expiration.wf(),
        ensures
            r is Ok <==> spec_live(self.expiration@ as nat, LIFETIME as nat, now as nat),
            r matches Ok(e) ==> e == self,
            r matches Err(ExpirationCheckError::Expired(v)) ==> v == self.inner,
            !(r matches Err(ExpirationCheckError::Inner(_))),
    {
        let Expiring { inner, expiration } = self;
        match expiration.check_at(now) {
            Ok(expiration) => Ok(Expiring { inner, expiration }),
            Err(()) => Err(ExpirationCheckError::Expired(inner)),
        }
    }
}

} // verus!
