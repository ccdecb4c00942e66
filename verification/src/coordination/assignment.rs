//! A slot that at most one owner holds at a time, and that frees itself unless
//! its owner refreshes it every tick.
use vstd::prelude::*;
use crate::check::{Expiring, ExpirationCheckError, current_tick, spec_live};
use crate::coordination::expiring_map::TIMEOUT;

verus! {

/// A slot held by an owner with data, or free.
pub struct Assignment<Owner, Data> {
    pub slot: Option<Expiring<(Owner, Data), TIMEOUT>>,
}

/// A holder of the slot that was live when it refreshed it.
#[derive(PartialEq, Eq, Structural, Clone, Copy, Debug)]
pub struct AssignmentHandle {}

impl<Owner, Data> Assignment<Owner, Data> {
    /// A free slot.
    pub fn new() -> (a: Self)
        ensures
            a.slot is None,
    {
        Assignment { slot: None }
    }

    /// Gives the slot to `owner` with `data`, refreshed at tick `now`, whoever held it.
    pub fn assign_at(&mut self, owner: Owner, data: Data, now: u32)
        ensures
            final(self).slot == Some(Expiring::<(Owner, Data), TIMEOUT>::new_spec((owner, data), now)),
    {
        self.slot = Some(Expiring::new_at((owner, data), now));
    }

    /// Gives the slot to `owner` with `data`, refreshed now.
    pub fn assign(&mut self, owner: Owner, data: Data)
        ensures
            final(self).slot matches Some(e) && e.inner == (owner, data),
    {
        let now = current_tick();
        self.assign_at(owner, data, now);
    }

    /// Whether no one holds the slot.
    pub fn is_free(&self) -> (b: bool)
        ensures
            b == self.slot is None,
    {
        self.slot.is_none()
    }

    /// Refreshes the slot at tick `now`, where it is held.
    pub fn refresh_at(&mut self, now: u32) -> (h: Option<AssignmentHandle>)
        ensures
            h is Some <==> old(self).slot is Some,
            old(self).slot matches Some(e) ==> final(self).slot == Some(
                Expiring::<(Owner, Data), TIMEOUT>::new_spec(e.inner, now)),
            old(self).slot is None ==> final(self).slot is None,
    {
        match self.slot.take() {
            Some(mut e) => {
                e.expiration.refresh_at(now);
                self.slot = Some(e);
                Some(AssignmentHandle {})
            },
            None => None,
        }
    }

    /// Refreshes the slot now, where it is held.
    pub fn refresh(&mut self) -> (h: Option<AssignmentHandle>)
        ensures
            h is Some <==> old(self).slot is Some,
            old(self).slot matches Some(e) ==> final(self).slot matches Some(f) && f.inner == e.inner,
            old(self).slot is None ==> final(self).slot is None,
    {
        let now = current_tick();
        self.refresh_at(now)
    }

    /// Frees the slot where it was not refreshed in time for tick `now`, handing
    /// back what it held.
    pub fn filter_check_at(&mut self, now: u32) -> (errs: Vec<ExpirationCheckError<(Owner, Data), ()>>)
        requires
            old(self).slot matches Some(e) ==> e.expiration.wf(),
        ensures
            old(self).slot matches Some(e) ==> if spec_live(e.expiration@ as nat, TIMEOUT as nat, now as nat) {
                final(self).slot == old(self).slot && errs.len() == 0
            } else {
                final(self).slot is None && errs.len() == 1 && errs[0] == ExpirationCheckError::<(Owner, Data), ()>::Expired(e.inner)
            },
            old(self).slot is None ==> final(self).slot is None && errs.len() == 0,
    {
        let mut errs: Vec<ExpirationCheckError<(Owner, Data), ()>> = Vec::new();
        match self.slot.take() {
            Some(e) => match e.check_at(now) {
                Ok(e) => {
                    self.slot = Some(e);
                },
                Err(err) => {
                    errs.push(err);
                },
            },
            None => {},
        }
        errs
    }
}

impl AssignmentHandle {
    /// Frees the slot.
    pub fn release<Owner, Data>(self, assignment: &mut Assignment<Owner, Data>)
        ensures
            final(assignment).slot is None,
    {
        assignment.slot = None;
    }

    /// The data of the holder.
    pub fn get<'a, Owner, Data>(&self, assignment: &'a Assignment<Owner, Data>) -> (d: &'a Data)
        requires
            assignment.slot is Some,
        ensures
            *d == assignment.slot.unwrap().inner.1,
    {
        let e = assignment.slot.as_ref().unwrap();
        &e.inner.1
    }
}

} // verus!
