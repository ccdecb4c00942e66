//! The intents a creep registers during one tick, and the accounting of its store
//! that they imply.
//!
//! Creep actions are resolved against the state at the start of the tick, not
//! step by step, so a withdraw does not make energy available to a later transfer
//! in the same tick. Two quantities are therefore handed out separately during a
//! tick: the free capacity (what incoming intents may add) and the resources held
//! (what outgoing intents may remove). Every intent that registers takes its share
//! of one of them, so that all registered intents can be resolved.
use vstd::prelude::*;
use crate::keyed::{KeyedMap, seq_sum, lemma_seq_sum_remove, lemma_seq_sum_push, lemma_seq_sum_term,
    lemma_seq_sum_update, lemma_seq_sum_concat};

verus! {

/// The kinds of creep intents.
#[derive(PartialEq, Eq, Structural, Clone, Copy, Debug, Hash)]
pub enum IntentType {
    Attack,
    AttackController,
    Build,
    ClaimController,
    Dismantle,
    Drop,
    Harvest,
    Heal,
    Move,
    Pickup,
    Pull,
    RangedAttack,
    RangedHeal,
    RangedMassAttack,
    Repair,
    ReserveController,
    Transfer,
    UpgradeController,
    Withdraw,
}

/// The identifier of a kind of resource (energy is `ENERGY`).
pub type ResourceKind = u32;

/// The resource identifier of energy.
pub const ENERGY: ResourceKind = 0;

/// Why an intent could not be registered.
#[derive(PartialEq, Eq, Structural, Clone, Copy, Debug)]
pub enum IntentError {
    /// An intent of this kind is already registered.
    AlreadyScheduled(IntentType),
    /// An intent of the same pipeline is already registered.
    PipelineCollision { existing: IntentType, new: IntentType },
    /// Not enough free capacity is left this tick.
    NotEnoughCapacity { resource: ResourceKind, target: u32, curr: u32 },
    /// Not enough of the resource is left this tick.
    NotEnoughResource { resource: ResourceKind, target: u32, curr: u32 },
    /// The target does not hold the resource asked for.
    WrongResource { resource: ResourceKind },
}

/// What an intent does to the creep's store.
#[derive(PartialEq, Eq, Structural, Clone, Copy, Debug)]
pub enum IntentEffect {
    Incoming(ResourceKind, u32),
    Outgoing(ResourceKind, u32),
}

/// The game action that carries out an intent, on targets named by the caller's
/// identifiers.
#[derive(PartialEq, Eq, Structural, Clone, Copy, Debug)]
pub enum IntentAction {
    Build { site: u64 },
    Drop { resource: ResourceKind, amount: u32 },
    Harvest { source: u64 },
    Pickup { pile: u64 },
    Repair { target: u64 },
    Transfer { target: u64, resource: ResourceKind, amount: u32 },
    Withdraw { target: u64, resource: ResourceKind, amount: u32 },
    UpgradeController { controller: u64 },
    ClaimController { controller: u64 },
    Move,
}

/// A registered intent: its effect on the store, and the action to carry out.
#[derive(PartialEq, Eq, Structural, Clone, Copy, Debug)]
pub struct Intent {
    pub effect: Option<IntentEffect>,
    pub action: IntentAction,
}

/// What a creep holds at the start of the tick.
pub struct CreepSnapshot {
    /// Its total capacity.
    pub capacity: u32,
    /// Its free capacity.
    pub free_capacity: u32,
    /// What it holds, by resource (a resource it does not hold may be absent).
    pub stored: KeyedMap<u32>,
    /// Its active work parts.
    pub work_parts: u8,
}

impl IntentError {
    /// Whether the intent might register later in the tick, or on the next one:
    /// it collided with another intent rather than lacking resources.
    pub fn is_deferable(&self) -> (b: bool)
        ensures
            b == (*self is AlreadyScheduled || *self is PipelineCollision),
    {
        match self {
            IntentError::AlreadyScheduled(_) | IntentError::PipelineCollision { .. } => true,
            _ => false,
        }
    }
}

/// The key under which an intent of a kind is registered.
pub open spec fn intent_code(t: IntentType) -> u64 {
    match t {
        IntentType::Attack => 0,
        IntentType::AttackController => 1,
        IntentType::Build => 2,
        IntentType::ClaimController => 3,
        IntentType::Dismantle => 4,
        IntentType::Drop => 5,
        IntentType::Harvest => 6,
        IntentType::Heal => 7,
        IntentType::Move => 8,
        IntentType::Pickup => 9,
        IntentType::Pull => 10,
        IntentType::RangedAttack => 11,
        IntentType::RangedHeal => 12,
        IntentType::RangedMassAttack => 13,
        IntentType::Repair => 14,
        IntentType::ReserveController => 15,
        IntentType::Transfer => 16,
        IntentType::UpgradeController => 17,
        IntentType::Withdraw => 18,
    }
}

/// The first pipeline: at most one of these intents resolves per tick.
pub open spec fn in_pipeline_a(t: IntentType) -> bool {
    t == IntentType::Harvest || t == IntentType::Attack || t == IntentType::Build || t == IntentType::Repair
        || t == IntentType::Dismantle || t == IntentType::AttackController || t == IntentType::RangedHeal
        || t == IntentType::Heal
}

/// The second pipeline.
pub open spec fn in_pipeline_b(t: IntentType) -> bool {
    t == IntentType::RangedAttack || t == IntentType::RangedMassAttack || t == IntentType::Build
        || t == IntentType::Repair || t == IntentType::RangedHeal
}

/// Two kinds of intent that share a pipeline.
pub open spec fn collide(a: IntentType, b: IntentType) -> bool {
    (in_pipeline_a(a) && in_pipeline_a(b)) || (in_pipeline_b(a) && in_pipeline_b(b))
}

/// What an effect adds to the store.
pub open spec fn incoming_amount(e: Option<IntentEffect>) -> nat {
    match e {
        Some(IntentEffect::Incoming(_, a)) => a as nat,
        _ => 0,
    }
}

/// What an effect takes from the store.
pub open spec fn outgoing_amount(e: Option<IntentEffect>) -> nat {
    match e {
        Some(IntentEffect::Outgoing(_, a)) => a as nat,
        _ => 0,
    }
}

/// What an effect adds to the store of one kind of resource.
pub open spec fn incoming_of(e: Option<IntentEffect>, r: ResourceKind) -> nat {
    match e {
        Some(IntentEffect::Incoming(r2, a)) => if r2 == r { a as nat } else { 0 },
        _ => 0,
    }
}

/// What an effect takes from the store of one kind of resource.
pub open spec fn outgoing_of(e: Option<IntentEffect>, r: ResourceKind) -> nat {
    match e {
        Some(IntentEffect::Outgoing(r2, a)) => if r2 == r { a as nat } else { 0 },
        _ => 0,
    }
}

/// The amount an effect moves.
pub open spec fn effect_amount(e: Option<IntentEffect>) -> u32 {
    match e {
        Some(IntentEffect::Incoming(_, a)) => a,
        Some(IntentEffect::Outgoing(_, a)) => a,
        None => 0,
    }
}

/// The kind of intent registered under a code.
pub open spec fn intent_of_code(c: u64) -> IntentType {
    choose|t: IntentType| intent_code(t) == c
}

/// Whether `t` belongs to the first pipeline (`first`) or to the second.
pub open spec fn in_pipeline(t: IntentType, first: bool) -> bool {
    if first { in_pipeline_a(t) } else { in_pipeline_b(t) }
}

/// The sum of the values of a map's entries.
pub open spec fn values_sum(s: Seq<(u64, u32)>) -> nat {
    seq_sum(s, value_term())
}

/// A value as a term of a sum.
pub open spec fn value_term() -> spec_fn(u32) -> nat {
    |v: u32| v as nat
}

/// The incoming amount of an intent as a term of a sum.
pub open spec fn incoming_term() -> spec_fn(Intent) -> nat {
    |i: Intent| incoming_amount(i.effect)
}

/// The outgoing amount of an intent as a term of a sum.
pub open spec fn outgoing_term() -> spec_fn(Intent) -> nat {
    |i: Intent| outgoing_amount(i.effect)
}

/// The incoming amount of one resource of an intent as a term of a sum.
pub open spec fn incoming_of_term(r: ResourceKind) -> spec_fn(Intent) -> nat {
    |i: Intent| incoming_of(i.effect, r)
}

/// The value stored under `k`, or 0.
pub open spec fn get_or_zero(m: Map<u64, u32>, k: u64) -> u32 {
    if m.contains_key(k) { m[k] } else { 0 }
}

/// The smaller of two amounts.
pub open spec fn min_u32(a: u32, b: u32) -> u32 {
    if a <= b { a } else { b }
}

/// A creep and the intents it registered this tick.
pub struct VirtualCreep {
    /// Free capacity left this tick.
    free_capacity: u32,
    /// Resources left this tick, over all kinds.
    total_resources: u32,
    total_incoming_resources: u32,
    total_outgoing_resources: u32,
    /// Resources left this tick, by kind.
    resources: KeyedMap<u32>,
    /// Incoming amounts, by kind.
    incoming_resources: KeyedMap<u32>,
    /// The registered intents, by the code of their kind.
    intents: KeyedMap<Intent>,
    capacity: u32,
    work_parts: u8,
    initial_free: Ghost<nat>,
    initial_used: Ghost<nat>,
}

impl VirtualCreep {
    /// The registered intents, by kind code.
    pub closed spec fn intents(&self) -> Map<u64, Intent> {
        self.intents@
    }

    /// The free capacity left this tick.
    pub closed spec fn spec_free_capacity(&self) -> u32 {
        self.free_capacity
    }

    /// The resources left this tick, over all kinds.
    pub closed spec fn spec_total_resources(&self) -> u32 {
        self.total_resources
    }

    /// What the registered intents add, over all kinds.
    pub closed spec fn spec_total_incoming(&self) -> u32 {
        self.total_incoming_resources
    }

    /// What the registered intents take, over all kinds.
    pub closed spec fn spec_total_outgoing(&self) -> u32 {
        self.total_outgoing_resources
    }

    /// The resources of a kind left this tick.
    pub closed spec fn spec_resource(&self, r: ResourceKind) -> u32 {
        get_or_zero(self.resources@, r as u64)
    }

    /// The incoming amount of a kind this tick.
    pub closed spec fn spec_incoming(&self, r: ResourceKind) -> u32 {
        get_or_zero(self.incoming_resources@, r as u64)
    }

    /// What the registered intents add to the store, over all kinds.
    pub closed spec fn intents_incoming(&self) -> nat {
        seq_sum(self.intents.entries(), incoming_term())
    }

    /// What the registered intents take from the store, over all kinds.
    pub closed spec fn intents_outgoing(&self) -> nat {
        seq_sum(self.intents.entries(), outgoing_term())
    }

    /// The free capacity at the start of the tick.
    pub closed spec fn spec_initial_free(&self) -> nat {
        self.initial_free@
    }

    /// The resources held at the start of the tick.
    pub closed spec fn spec_initial_used(&self) -> nat {
        self.initial_used@
    }

    /// The active work parts.
    pub closed spec fn spec_work_parts(&self) -> u8 {
        self.work_parts
    }

    /// The total capacity.
    pub closed spec fn spec_capacity(&self) -> u32 {
        self.capacity
    }

    /// The accounting is consistent: what is left plus what was handed out is what
    /// there was, every registered intent is covered by what was handed out, and no
    /// two intents share a kind or a pipeline.
    pub closed spec fn wf(&self) -> bool {
        &&& self.resources.wf()
        &&& self.incoming_resources.wf()
        &&& self.intents.wf()
        &&& self.free_capacity + self.total_incoming_resources == self.initial_free@
        &&& self.total_resources + self.total_outgoing_resources == self.initial_used@
        &&& self.initial_free@ + self.initial_used@ <= u32::MAX
        &&& self.total_incoming_resources >= seq_sum(self.intents.entries(), incoming_term())
        &&& self.total_outgoing_resources >= seq_sum(self.intents.entries(), outgoing_term())
        &&& self.total_resources == values_sum(self.resources.entries())
        &&& self.total_incoming_resources == values_sum(self.incoming_resources.entries())
        &&& forall|r: u32| #[trigger] get_or_zero(self.incoming_resources@, r as u64)
            >= seq_sum(self.intents.entries(), incoming_of_term(r))
        &&& forall|k: u64| #[trigger] self.intents@.contains_key(k) ==> {
            &&& (self.intents@[k].effect matches Some(IntentEffect::Outgoing(r, _))
                ==> self.resources@.contains_key(r as u64))
            &&& (self.intents@[k].effect matches Some(IntentEffect::Incoming(r, _))
                ==> self.incoming_resources@.contains_key(r as u64))
            &&& exists|t: IntentType| intent_code(t) == k
        }
        &&& forall|a: u64, b: u64| #[trigger] self.intents@.contains_key(a) && #[trigger] self.intents@.contains_key(b)
            && a != b ==> !collide(intent_of_code(a), intent_of_code(b))
    }

    /// A creep with no intents, as it stands at the start of the tick.
    pub fn new(snapshot: CreepSnapshot) -> (c: Self)
        requires
            snapshot.stored.wf(),
            snapshot.free_capacity + values_sum(snapshot.stored.entries()) <= u32::MAX,
        ensures
            c.wf(),
            c.intents() == Map::<u64, Intent>::empty(),
            c.spec_free_capacity() == snapshot.free_capacity,
            c.spec_total_resources() == values_sum(snapshot.stored.entries()),
            c.spec_total_incoming() == 0,
            c.spec_total_outgoing() == 0,
            c.spec_initial_free() == snapshot.free_capacity,
            c.spec_initial_used() == values_sum(snapshot.stored.entries()),
            forall|r: ResourceKind| #[trigger] c.spec_resource(r) == get_or_zero(snapshot.stored@, r as u64),
            forall|r: ResourceKind| #[trigger] c.spec_incoming(r) == 0,
            c.spec_work_parts() == snapshot.work_parts,
            c.spec_capacity() == snapshot.capacity,
    {
        let CreepSnapshot { capacity, free_capacity, stored, work_parts } = snapshot;
        let total = Self::sum_values(&stored);
        let ghost used = values_sum(stored.entries());
        let c = VirtualCreep {
            free_capacity,
            total_resources: total,
            total_incoming_resources: 0,
            total_outgoing_resources: 0,
            resources: stored,
            incoming_resources: KeyedMap::new(),
            intents: KeyedMap::new(),
            capacity,
            work_parts,
            initial_free: Ghost(free_capacity as nat),
            initial_used: Ghost(used),
        };
        proof {
            assert(c.intents@ =~= Map::<u64, Intent>::empty());
        }
        c
    }

    fn sum_values(m: &KeyedMap<u32>) -> (t: u32)
        requires
            values_sum(m.entries()) <= u32::MAX,
        ensures
            t == values_sum(m.entries()),
    {
        let mut t: u32 = 0;
        let mut i: usize = 0;
        while i < m.len()
            invariant
                i <= m.entries().len(),
                t == values_sum(m.entries().take(i as int)),
                values_sum(m.entries()) <= u32::MAX,
            decreases m.entries().len() - i,
        {
            proof {
                let s = m.entries();
                assert(s.take(i as int + 1).drop_last() =~= s.take(i as int));
                lemma_seq_sum_concat(s.take(i as int + 1), s.skip(i as int + 1), value_term());
                assert(s.take(i as int + 1) + s.skip(i as int + 1) =~= s);
            }
            t = t + *m.value_at(i);
            i = i + 1;
        }
        proof {
            assert(m.entries().take(i as int) =~= m.entries());
        }
        t
    }

    /// The code of a kind of intent.
    pub fn code(t: IntentType) -> (c: u64)
        ensures
            c == intent_code(t),
    {
        match t {
            IntentType::Attack => 0,
            IntentType::AttackController => 1,
            IntentType::Build => 2,
            IntentType::ClaimController => 3,
            IntentType::Dismantle => 4,
            IntentType::Drop => 5,
            IntentType::Harvest => 6,
            IntentType::Heal => 7,
            IntentType::Move => 8,
            IntentType::Pickup => 9,
            IntentType::Pull => 10,
            IntentType::RangedAttack => 11,
            IntentType::RangedHeal => 12,
            IntentType::RangedMassAttack => 13,
            IntentType::Repair => 14,
            IntentType::ReserveController => 15,
            IntentType::Transfer => 16,
            IntentType::UpgradeController => 17,
            IntentType::Withdraw => 18,
        }
    }

    fn kind_of(c: u64) -> (t: Option<IntentType>)
        ensures
            t matches Some(k) ==> intent_code(k) == c && intent_of_code(c) == k,
            (exists|k: IntentType| intent_code(k) == c) ==> t is Some,
    {
        let t = match c {
            0 => Some(IntentType::Attack),
            1 => Some(IntentType::AttackController),
            2 => Some(IntentType::Build),
            3 => Some(IntentType::ClaimController),
            4 => Some(IntentType::Dismantle),
            5 => Some(IntentType::Drop),
            6 => Some(IntentType::Harvest),
            7 => Some(IntentType::Heal),
            8 => Some(IntentType::Move),
            9 => Some(IntentType::Pickup),
            10 => Some(IntentType::Pull),
            11 => Some(IntentType::RangedAttack),
            12 => Some(IntentType::RangedHeal),
            13 => Some(IntentType::RangedMassAttack),
            14 => Some(IntentType::Repair),
            15 => Some(IntentType::ReserveController),
            16 => Some(IntentType::Transfer),
            17 => Some(IntentType::UpgradeController),
            18 => Some(IntentType::Withdraw),
            _ => None,
        };
        proof {
            if let Some(k) = t {
                lemma_code_decodes(k);
            }
        }
        t
    }

    /// Whether an intent of this kind is registered.
    pub fn has_intent(&self, intent: IntentType) -> (b: bool)
        requires
            self.wf(),
        ensures
            b == self.intents().contains_key(intent_code(intent)),
    {
        self.intents.contains_key(Self::code(intent))
    }

    fn in_pipeline(t: IntentType, first: bool) -> (b: bool)
        ensures
            b == in_pipeline(t, first),
    {
        if first {
            match t {
                IntentType::Harvest | IntentType::Attack | IntentType::Build | IntentType::Repair
                | IntentType::Dismantle | IntentType::AttackController | IntentType::RangedHeal
                | IntentType::Heal => true,
                _ => false,
            }
        } else {
            match t {
                IntentType::RangedAttack | IntentType::RangedMassAttack | IntentType::Build
                | IntentType::Repair | IntentType::RangedHeal => true,
                _ => false,
            }
        }
    }

    /// Fails with a collision where `intent` belongs to a pipeline (the first when
    /// `first`, else the second) that a registered intent also belongs to.
    fn check_pipeline(&self, intent: IntentType, first: bool) -> (r: Result<(), IntentError>)
        requires
            self.wf(),
        ensures
            r is Ok <==> !pipeline_conflict(*self, intent, first),
            r matches Err(e) ==> e == (IntentError::PipelineCollision {
                existing: pipeline_holder(*self, first),
                new: intent,
            }),
    {
        if !Self::in_pipeline(intent, first) {
            return Ok(());
        }
        let mut i: usize = 0;
        proof {
            self.intents.lemma_wf();
        }
        while i < self.intents.len()
            invariant
                self.wf(),
                in_pipeline(intent, first),
                i <= self.intents.entries().len(),
                forall|j: int| 0 <= j < i ==> !in_pipeline(intent_of_code(#[trigger] self.intents.entries()[j].0), first),
            decreases self.intents.entries().len() - i,
        {
            let c = self.intents.key_at(i);
            proof {
                self.intents.lemma_wf();
                assert(self.intents@.contains_key(c));
            }
            let other = Self::kind_of(c).unwrap();
            if Self::in_pipeline(other, first) {
                proof {
                    let k = choose|k: u64| self.intents@.contains_key(k) && in_pipeline(intent_of_code(k), first);
                    if k != c {
                        assert(collide(intent_of_code(k), intent_of_code(c)));
                    }
                }
                return Err(IntentError::PipelineCollision { existing: other, new: intent });
            }
            i = i + 1;
        }
        proof {
            self.intents.lemma_wf();
            assert forall|k: u64| #[trigger] self.intents@.contains_key(k) implies !in_pipeline(intent_of_code(k), first) by {
                let j = choose|j: int| 0 <= j < self.intents.entries().len() && self.intents.entries()[j].0 == k;
                assert(self.intents.entries()[j].0 == k);
            }
        }
        Ok(())
    }

    fn add_incoming(&mut self, ty: ResourceKind, amount: u32) -> (r: Result<(), IntentError>)
        requires
            old(self).wf(),
        ensures
            final(self).wf(),
            final(self).intents == old(self).intents,
            r is Ok <==> amount <= old(self).spec_free_capacity(),
            r matches Err(e) ==> e == (IntentError::NotEnoughCapacity {
                resource: ty,
                target: amount,
                curr: old(self).spec_free_capacity(),
            }),
            r is Ok ==> accounts_shifted(*old(self), *final(self), Some(IntentEffect::Incoming(ty, amount))),
            r is Ok ==> final(self).incoming_resources@.contains_key(ty as u64),
            r is Err ==> accounts_equal(*old(self), *final(self)),
    {
        if amount > self.free_capacity {
            return Err(IntentError::NotEnoughCapacity { resource: ty, target: amount, curr: self.free_capacity });
        }
        proof {
            lemma_value_le_sum(self.incoming_resources, ty as u64);
        }
        self.free_capacity = self.free_capacity - amount;
        let cur = get_value(&self.incoming_resources, ty as u64);
        set_value(&mut self.incoming_resources, ty as u64, cur + amount);
        self.total_incoming_resources = self.total_incoming_resources + amount;
        proof {
            let e = Some(IntentEffect::Incoming(ty, amount));
            assert forall|r: u32| #[trigger] get_or_zero(self.incoming_resources@, r as u64)
                >= seq_sum(self.intents.entries(), incoming_of_term(r)) by {
                assert(get_or_zero(old(self).incoming_resources@, r as u64)
                    >= seq_sum(self.intents.entries(), incoming_of_term(r)));
            }
            assert forall|r: ResourceKind| #[trigger] self.spec_incoming(r) == old(self).spec_incoming(r) + incoming_of(e, r) by {}
        }
        Ok(())
    }

    fn add_outgoing(&mut self, ty: ResourceKind, amount: u32) -> (r: Result<(), IntentError>)
        requires
            old(self).wf(),
        ensures
            final(self).wf(),
            final(self).intents == old(self).intents,
            r is Ok <==> amount <= old(self).spec_resource(ty),
            r matches Err(e) ==> e == (IntentError::NotEnoughResource {
                resource: ty,
                target: amount,
                curr: old(self).spec_resource(ty),
            }),
            r is Ok ==> accounts_shifted(*old(self), *final(self), Some(IntentEffect::Outgoing(ty, amount))),
            r is Ok ==> final(self).resources@.contains_key(ty as u64),
            r is Err ==> accounts_equal(*old(self), *final(self)),
    {
        let cur = get_value(&self.resources, ty as u64);
        if amount > cur {
            return Err(IntentError::NotEnoughResource { resource: ty, target: amount, curr: cur });
        }
        proof {
            lemma_value_le_sum(self.resources, ty as u64);
        }
        set_value(&mut self.resources, ty as u64, cur - amount);
        self.total_resources = self.total_resources - amount;
        self.total_outgoing_resources = self.total_outgoing_resources + amount;
        proof {
            let e = Some(IntentEffect::Outgoing(ty, amount));
            assert forall|r: ResourceKind| #[trigger] self.spec_resource(r) + outgoing_of(e, r) == old(self).spec_resource(r) by {}
        }
        Ok(())
    }

    fn register_intent(&mut self, ty: IntentType, intent: Intent) -> (r: Result<u32, IntentError>)
        requires
            old(self).wf(),
        ensures
            final(self).wf(),
            register_outcome(*old(self), *final(self), ty, intent, r),
    {
        if self.has_intent(ty) {
            return Err(IntentError::AlreadyScheduled(ty));
        }
        match self.check_pipeline(ty, true) {
            Err(e) => { return Err(e); },
            Ok(()) => {},
        }
        match self.check_pipeline(ty, false) {
            Err(e) => { return Err(e); },
            Ok(()) => {},
        }
        let amount: u32 = match intent.effect {
            Some(IntentEffect::Incoming(r, a)) => {
                match self.add_incoming(r, a) {
                    Err(e) => { return Err(e); },
                    Ok(()) => a,
                }
            },
            Some(IntentEffect::Outgoing(r, a)) => {
                match self.add_outgoing(r, a) {
                    Err(e) => { return Err(e); },
                    Ok(()) => a,
                }
            },
            None => 0,
        };
        let ghost mid = *self;
        let ghost before = self.intents.entries();
        assert(mid.wf());
        assert(mid.incoming_resources@ == self.incoming_resources@);
        assert(accounts_shifted(*old(self), mid, intent.effect));
        let code = Self::code(ty);
        self.intents.insert(code, intent);
        proof {
            let x = (code, intent);
            assert(self.intents.entries() == before.push(x));
            lemma_seq_sum_push(before, x, incoming_term());
            lemma_seq_sum_push(before, x, outgoing_term());
            assert forall|r: u32| #[trigger] get_or_zero(self.incoming_resources@, r as u64)
                >= seq_sum(self.intents.entries(), incoming_of_term(r)) by {
                lemma_seq_sum_push(before, x, incoming_of_term(r));
                assert(mid.spec_incoming(r) == old(self).spec_incoming(r) + incoming_of(intent.effect, r));
                assert(get_or_zero(old(self).incoming_resources@, r as u64) >= seq_sum(before, incoming_of_term(r)));
            }
            lemma_code_decodes(ty);
            assert forall|k: u64| #[trigger] self.intents@.contains_key(k) implies {
                &&& (self.intents@[k].effect matches Some(IntentEffect::Outgoing(r, _))
                    ==> self.resources@.contains_key(r as u64))
                &&& (self.intents@[k].effect matches Some(IntentEffect::Incoming(r, _))
                    ==> self.incoming_resources@.contains_key(r as u64))
                &&& exists|t: IntentType| intent_code(t) == k
            } by {
                if k == code {
                    assert(intent_code(ty) == k);
                } else {
                    assert(mid.intents@.contains_key(k));
                }
            }
            assert(self.resources == mid.resources);
            assert(self.incoming_resources == mid.incoming_resources);
            assert forall|r: ResourceKind| #[trigger] self.spec_incoming(r)
                == old(self).spec_incoming(r) + incoming_of(intent.effect, r) by {
                assert(mid.spec_incoming(r) == old(self).spec_incoming(r) + incoming_of(intent.effect, r));
            }
            assert forall|r: ResourceKind| #[trigger] self.spec_resource(r) + outgoing_of(intent.effect, r)
                == old(self).spec_resource(r) by {
                assert(mid.spec_resource(r) + outgoing_of(intent.effect, r) == old(self).spec_resource(r));
            }
            assert(accounts_shifted(*old(self), *self, intent.effect));
            assert(registered(*old(self), *self, ty, intent));
            assert(register_result(*old(self), ty, intent.effect) == Ok::<u32, IntentError>(amount));
            assert forall|a: u64, b: u64| #[trigger] self.intents@.contains_key(a) && #[trigger] self.intents@.contains_key(b)
                && a != b implies !collide(intent_of_code(a), intent_of_code(b)) by {
                if a == code {
                    assert(old(self).intents@.contains_key(b));
                } else if b == code {
                    assert(old(self).intents@.contains_key(a));
                } else {
                    assert(old(self).intents@.contains_key(a) && old(self).intents@.contains_key(b));
                }
            }
        }
        Ok(amount)
    }

    /// Takes back the intent of this kind, if one is registered, and gives back
    /// what it took of the free capacity or of the resources.
    pub fn cancel_intent(&mut self, intent: IntentType) -> (b: bool)
        requires
            old(self).wf(),
        ensures
            final(self).wf(),
            b == old(self).intents().contains_key(intent_code(intent)),
            cancelled(*old(self), *final(self), intent),
    {
        let code = Self::code(intent);
        let ghost before = self.intents.entries();
        proof {
            self.intents.lemma_wf();
        }
        let removed = self.intents.remove(code);
        match removed {
            None => {
                proof {
                    assert(self.intents@ =~= old(self).intents@);
                    assert(accounts_shifted(*old(self), *self, None));
                }
                false
            },
            Some(i) => {
                let ghost j = choose|j: int| 0 <= j < before.len() && before[j].0 == code
                    && self.intents.entries() == before.remove(j);
                proof {
                    assert(before[j].1 == i);
                    lemma_seq_sum_term(before, j, incoming_term());
                    lemma_seq_sum_term(before, j, outgoing_term());
                    lemma_seq_sum_remove(before, j, incoming_term());
                    lemma_seq_sum_remove(before, j, outgoing_term());
                    assert forall|r: u32| #[trigger] get_or_zero(old(self).incoming_resources@, r as u64)
                        >= seq_sum(self.intents.entries(), incoming_of_term(r)) + incoming_of(i.effect, r) by {
                        lemma_seq_sum_remove(before, j, incoming_of_term(r));
                    }
                }
                let ghost mid = *self;
                match i.effect {
                    Some(IntentEffect::Incoming(r, a)) => {
                        proof {
                            assert(get_or_zero(old(self).incoming_resources@, r as u64)
                                >= seq_sum(self.intents.entries(), incoming_of_term(r)) + incoming_of(i.effect, r));
                        }
                        self.free_capacity = self.free_capacity + a;
                        let cur = get_value(&self.incoming_resources, r as u64);
                        set_value(&mut self.incoming_resources, r as u64, cur - a);
                        self.total_incoming_resources = self.total_incoming_resources - a;
                        proof {
                            assert forall|k: ResourceKind| #[trigger] old(self).spec_incoming(k)
                                == self.spec_incoming(k) + incoming_of(i.effect, k) by {}
                        }
                    },
                    Some(IntentEffect::Outgoing(r, a)) => {
                        let cur = get_value(&self.resources, r as u64);
                        proof {
                            lemma_value_le_sum(self.resources, r as u64);
                        }
                        set_value(&mut self.resources, r as u64, cur + a);
                        self.total_resources = self.total_resources + a;
                        self.total_outgoing_resources = self.total_outgoing_resources - a;
                        proof {
                            assert forall|k: ResourceKind| #[trigger] old(self).spec_resource(k) + outgoing_of(i.effect, k)
                                == self.spec_resource(k) by {}
                        }
                    },
                    None => {},
                }
                proof {
                    assert forall|r: u32| #[trigger] get_or_zero(self.incoming_resources@, r as u64)
                        >= seq_sum(self.intents.entries(), incoming_of_term(r)) by {
                        assert(get_or_zero(old(self).incoming_resources@, r as u64)
                            >= seq_sum(self.intents.entries(), incoming_of_term(r)) + incoming_of(i.effect, r));
                        assert(self.spec_incoming(r) + incoming_of(i.effect, r) == old(self).spec_incoming(r));
                    }
                    assert forall|k: u64| #[trigger] self.intents@.contains_key(k) implies {
                        &&& (self.intents@[k].effect matches Some(IntentEffect::Outgoing(r, _))
                            ==> self.resources@.contains_key(r as u64))
                        &&& (self.intents@[k].effect matches Some(IntentEffect::Incoming(r, _))
                            ==> self.incoming_resources@.contains_key(r as u64))
                        &&& exists|t: IntentType| intent_code(t) == k
                    } by {
                        assert(old(self).intents@.contains_key(k));
                    }
                    assert forall|a: u64, b: u64| #[trigger] self.intents@.contains_key(a)
                        && #[trigger] self.intents@.contains_key(b) && a != b
                        implies !collide(intent_of_code(a), intent_of_code(b)) by {
                        assert(old(self).intents@.contains_key(a) && old(self).intents@.contains_key(b));
                    }
                    assert(accounts_shifted(*self, *old(self), i.effect));
                }
                true
            },
        }
    }

    /// Counts an amount that another creep transfers into this one as incoming,
    /// without registering an intent of this creep: at most `amount` (all the free
    /// capacity where it is `None`), and at most what the other creep holds.
    pub fn transfer_from(&mut self, other_holds: u32, ty: ResourceKind, amount: Option<u32>) -> (r: Result<u32, IntentError>)
        requires
            old(self).wf(),
        ensures
            final(self).wf(),
            final(self).intents() == old(self).intents(),
            ({
                let a = transfer_from_amount(*old(self), other_holds, amount);
                &&& r is Ok <==> a <= old(self).spec_free_capacity()
                &&& r matches Ok(x) ==> x == a && accounts_shifted(*old(self), *final(self), Some(IntentEffect::Incoming(ty, a)))
                &&& r matches Err(e) ==> e == (IntentError::NotEnoughCapacity { resource: ty, target: a, curr: old(self).spec_free_capacity() })
                    && accounts_equal(*old(self), *final(self))
            }),
    {
        let wanted = match amount {
            Some(a) => a,
            None => self.free_capacity,
        };
        let a = smaller(wanted, other_holds);
        match self.add_incoming(ty, a) {
            Ok(()) => Ok(a),
            Err(e) => Err(e),
        }
    }

    /// Registers building a construction site with `progress` of `progress_total`
    /// done: it spends five energy per work part, at most what the site still needs
    /// and what the creep holds. Gives the amount spent.
    pub fn build(&mut self, site: u64, progress: u32, progress_total: u32) -> (r: Result<u32, IntentError>)
        requires
            old(self).wf(),
            progress <= progress_total,
        ensures
            final(self).wf(),
            register_outcome(*old(self), *final(self), IntentType::Build, Intent {
                effect: Some(IntentEffect::Outgoing(ENERGY, build_amount(*old(self), progress, progress_total))),
                action: IntentAction::Build { site },
            }, r),
    {
        let energy = get_value(&self.resources, ENERGY as u64);
        let amount = smaller(smaller(self.work_parts as u32 * 5, progress_total - progress), energy);
        self.register_intent(IntentType::Build, Intent {
            effect: Some(IntentEffect::Outgoing(ENERGY, amount)),
            action: IntentAction::Build { site },
        })
    }

    /// Registers dropping `amount` of a resource (all of it where `amount` is
    /// `None`). Gives the amount dropped.
    pub fn drop(&mut self, ty: ResourceKind, amount: Option<u32>) -> (r: Result<u32, IntentError>)
        requires
            old(self).wf(),
        ensures
            final(self).wf(),
            register_outcome(*old(self), *final(self), IntentType::Drop, Intent {
                effect: Some(IntentEffect::Outgoing(ty, drop_amount(*old(self), ty, amount))),
                action: IntentAction::Drop { resource: ty, amount: drop_amount(*old(self), ty, amount) },
            }, r),
    {
        let a = match amount {
            Some(a) => a,
            None => get_value(&self.resources, ty as u64),
        };
        self.register_intent(IntentType::Drop, Intent {
            effect: Some(IntentEffect::Outgoing(ty, a)),
            action: IntentAction::Drop { resource: ty, amount: a },
        })
    }

    /// Registers harvesting a source that holds `source_energy`: two energy per
    /// work part, at most what the source holds and the free capacity. Gives the
    /// amount harvested.
    pub fn harvest_source(&mut self, source: u64, source_energy: u32) -> (r: Result<u32, IntentError>)
        requires
            old(self).wf(),
        ensures
            final(self).wf(),
            register_outcome(*old(self), *final(self), IntentType::Harvest, Intent {
                effect: Some(IntentEffect::Incoming(ENERGY, harvest_amount(*old(self), source_energy))),
                action: IntentAction::Harvest { source },
            }, r),
    {
        let amount = smaller(smaller(self.work_parts as u32 * 2, source_energy), self.free_capacity);
        self.register_intent(IntentType::Harvest, Intent {
            effect: Some(IntentEffect::Incoming(ENERGY, amount)),
            action: IntentAction::Harvest { source },
        })
    }

    /// Registers picking up a pile of `pile_amount` of a resource: at most the free
    /// capacity. Gives the amount picked up.
    pub fn pickup(&mut self, pile: u64, ty: ResourceKind, pile_amount: u32) -> (r: Result<u32, IntentError>)
        requires
            old(self).wf(),
        ensures
            final(self).wf(),
            register_outcome(*old(self), *final(self), IntentType::Pickup, Intent {
                effect: Some(IntentEffect::Incoming(ty, min_u32(pile_amount, old(self).spec_free_capacity()))),
                action: IntentAction::Pickup { pile },
            }, r),
    {
        let amount = smaller(pile_amount, self.free_capacity);
        self.register_intent(IntentType::Pickup, Intent {
            effect: Some(IntentEffect::Incoming(ty, amount)),
            action: IntentAction::Pickup { pile },
        })
    }

    /// Registers repairing a structure with `hits` of `hits_max`: one energy per
    /// work part, at most one per hundred missing hits (rounded up) and what the
    /// creep holds. Gives the amount spent.
    pub fn repair(&mut self, target: u64, hits: u32, hits_max: u32) -> (r: Result<u32, IntentError>)
        requires
            old(self).wf(),
            hits <= hits_max,
        ensures
            final(self).wf(),
            register_outcome(*old(self), *final(self), IntentType::Repair, Intent {
                effect: Some(IntentEffect::Outgoing(ENERGY, repair_amount(*old(self), hits, hits_max))),
                action: IntentAction::Repair { target },
            }, r),
    {
        let missing = hits_max - hits;
        let needed = missing / 100 + if missing % 100 == 0 { 0 } else { 1 };
        let energy = get_value(&self.resources, ENERGY as u64);
        let amount = smaller(smaller(self.work_parts as u32, needed), energy);
        self.register_intent(IntentType::Repair, Intent {
            effect: Some(IntentEffect::Outgoing(ENERGY, amount)),
            action: IntentAction::Repair { target },
        })
    }

    /// Registers claiming a controller; it spends nothing. Gives 0.
    pub fn claim_controller(&mut self, controller: u64) -> (r: Result<u32, IntentError>)
        requires
            old(self).wf(),
        ensures
            final(self).wf(),
            register_outcome(*old(self), *final(self), IntentType::ClaimController, Intent {
                effect: None,
                action: IntentAction::ClaimController { controller },
            }, r),
    {
        self.register_intent(IntentType::ClaimController, Intent {
            effect: None,
            action: IntentAction::ClaimController { controller },
        })
    }

    /// Registers upgrading a controller: it spends one energy per work part, at most
    /// what the creep holds. Gives the amount spent.
    pub fn upgrade_controller(&mut self, controller: u64) -> (r: Result<u32, IntentError>)
        requires
            old(self).wf(),
        ensures
            final(self).wf(),
            register_outcome(*old(self), *final(self), IntentType::UpgradeController, Intent {
                effect: Some(IntentEffect::Outgoing(ENERGY, upgrade_controller_amount(*old(self)))),
                action: IntentAction::UpgradeController { controller },
            }, r),
    {
        let energy = get_value(&self.resources, ENERGY as u64);
        let amount = smaller(self.work_parts as u32, energy);
        self.register_intent(IntentType::UpgradeController, Intent {
            effect: Some(IntentEffect::Outgoing(ENERGY, amount)),
            action: IntentAction::UpgradeController { controller },
        })
    }

    /// Registers transferring a resource to a target with `target_free` free
    /// capacity for it: `amount` (all the creep holds where it is `None`), at most
    /// `target_free`. Gives the amount transferred.
    pub fn transfer(&mut self, target: u64, target_free: u32, ty: ResourceKind, amount: Option<u32>) -> (r: Result<u32, IntentError>)
        requires
            old(self).wf(),
        ensures
            final(self).wf(),
            register_outcome(*old(self), *final(self), IntentType::Transfer, Intent {
                effect: Some(IntentEffect::Outgoing(ty, transfer_amount(*old(self), ty, amount, target_free))),
                action: IntentAction::Transfer {
                    target,
                    resource: ty,
                    amount: transfer_amount(*old(self), ty, amount, target_free),
                },
            }, r),
    {
        let wanted = match amount {
            Some(a) => a,
            None => get_value(&self.resources, ty as u64),
        };
        let a = smaller(wanted, target_free);
        self.register_intent(IntentType::Transfer, Intent {
            effect: Some(IntentEffect::Outgoing(ty, a)),
            action: IntentAction::Transfer { target, resource: ty, amount: a },
        })
    }

    /// Registers withdrawing a resource from a target that holds `target_holds` of
    /// it: `amount` (all the free capacity where it is `None`), at most
    /// `target_holds`. Gives the amount withdrawn.
    pub fn withdraw(&mut self, target: u64, target_holds: u32, ty: ResourceKind, amount: Option<u32>) -> (r: Result<u32, IntentError>)
        requires
            old(self).wf(),
        ensures
            final(self).wf(),
            register_outcome(*old(self), *final(self), IntentType::Withdraw, Intent {
                effect: Some(IntentEffect::Incoming(ty, transfer_from_amount(*old(self), target_holds, amount))),
                action: IntentAction::Withdraw {
                    target,
                    resource: ty,
                    amount: transfer_from_amount(*old(self), target_holds, amount),
                },
            }, r),
    {
        let wanted = match amount {
            Some(a) => a,
            None => self.free_capacity,
        };
        let a = smaller(wanted, target_holds);
        self.register_intent(IntentType::Withdraw, Intent {
            effect: Some(IntentEffect::Incoming(ty, a)),
            action: IntentAction::Withdraw { target, resource: ty, amount: a },
        })
    }

    /// Registers a move, which moves no resources.
    pub fn register_move(&mut self) -> (r: Result<u32, IntentError>)
        requires
            old(self).wf(),
        ensures
            final(self).wf(),
            register_outcome(*old(self), *final(self), IntentType::Move, Intent { effect: None, action: IntentAction::Move }, r),
    {
        self.register_intent(IntentType::Move, Intent { effect: None, action: IntentAction::Move })
    }

    /// The active work parts.
    pub fn work_parts(&self) -> (w: u8)
        ensures
            w == self.spec_work_parts(),
    {
        self.work_parts
    }

    /// The total capacity.
    pub fn capacity(&self) -> (c: u32)
        ensures
            c == self.spec_capacity(),
    {
        self.capacity
    }

    /// The free capacity left this tick.
    pub fn curr_free_capacity(&self) -> (c: u32)
        ensures
            c == self.spec_free_capacity(),
    {
        self.free_capacity
    }

    /// The free capacity next tick, once the intents have resolved.
    pub fn next_free_capacity(&self) -> (c: u32)
        requires
            self.wf(),
        ensures
            c == self.spec_free_capacity() + self.spec_total_outgoing(),
    {
        self.free_capacity + self.total_outgoing_resources
    }

    /// The resources left this tick, of one kind or over all kinds.
    pub fn curr_used_capacity(&self, ty: Option<ResourceKind>) -> (c: u32)
        requires
            self.wf(),
        ensures
            c == match ty {
                Some(t) => self.spec_resource(t),
                None => self.spec_total_resources(),
            },
    {
        match ty {
            Some(t) => get_value(&self.resources, t as u64),
            None => self.total_resources,
        }
    }

    /// The resources held next tick, of one kind or over all kinds.
    pub fn next_used_capacity(&self, ty: Option<ResourceKind>) -> (c: u32)
        requires
            self.wf(),
        ensures
            c == match ty {
                Some(t) => self.spec_resource(t) + self.spec_incoming(t),
                None => self.spec_total_resources() + self.spec_total_incoming(),
            },
    {
        match ty {
            Some(t) => {
                proof {
                    lemma_value_le_sum(self.resources, t as u64);
                    lemma_value_le_sum(self.incoming_resources, t as u64);
                }
                get_value(&self.resources, t as u64) + get_value(&self.incoming_resources, t as u64)
            },
            None => self.total_resources + self.total_incoming_resources,
        }
    }

    /// What the intents add this tick, of one kind or over all kinds.
    pub fn incoming(&self, ty: Option<ResourceKind>) -> (c: u32)
        requires
            self.wf(),
        ensures
            c == match ty {
                Some(t) => self.spec_incoming(t),
                None => self.spec_total_incoming(),
            },
    {
        match ty {
            Some(t) => get_value(&self.incoming_resources, t as u64),
            None => self.total_incoming_resources,
        }
    }

    /// What the intents take this tick, over all kinds.
    pub fn outgoing(&self) -> (c: u32)
        ensures
            c == self.spec_total_outgoing(),
    {
        self.total_outgoing_resources
    }

    /// The energy left this tick.
    pub fn curr_used_energy_capacity(&self) -> (c: u32)
        requires
            self.wf(),
        ensures
            c == self.spec_resource(ENERGY),
    {
        self.curr_used_capacity(Some(ENERGY))
    }

    /// The energy held next tick.
    pub fn next_used_energy_capacity(&self) -> (c: u32)
        requires
            self.wf(),
        ensures
            c == self.spec_resource(ENERGY) + self.spec_incoming(ENERGY),
    {
        self.next_used_capacity(Some(ENERGY))
    }

    /// The energy the intents add this tick.
    pub fn incoming_energy(&self) -> (c: u32)
        requires
            self.wf(),
        ensures
            c == self.spec_incoming(ENERGY),
    {
        self.incoming(Some(ENERGY))
    }

    /// The actions that carry out the registered intents, one per intent.
    pub fn commit(self) -> (actions: Vec<IntentAction>)
        requires
            self.wf(),
        ensures
            actions.len() == self.intents().dom().len(),
            forall|j: int| 0 <= j < actions.len() ==> #[trigger] carries_intent(self, actions[j]),
            forall|k: u64| #[trigger] self.intents().contains_key(k) ==> exists|j: int| 0 <= j < actions.len()
                && actions[j] == self.intents()[k].action,
    {
        proof {
            self.intents.lemma_wf();
        }
        let mut actions: Vec<IntentAction> = Vec::new();
        let mut i: usize = 0;
        while i < self.intents.len()
            invariant
                self.wf(),
                i <= self.intents.entries().len(),
                actions.len() == i,
                forall|j: int| 0 <= j < i ==> actions[j] == #[trigger] self.intents.entries()[j].1.action,
            decreases self.intents.entries().len() - i,
        {
            actions.push(self.intents.value_at(i).action);
            i = i + 1;
        }
        proof {
            self.intents.lemma_wf();
            assert forall|j: int| 0 <= j < actions.len() implies #[trigger] carries_intent(self, actions[j]) by {
                let k = self.intents.entries()[j].0;
                assert(self.intents@.contains_key(k));
                assert(self.intents()[k].action == actions[j]);
            }
            assert forall|k: u64| #[trigger] self.intents().contains_key(k) implies exists|j: int| 0 <= j < actions.len()
                && actions[j] == self.intents()[k].action by {
                let j = choose|j: int| 0 <= j < self.intents.entries().len() && self.intents.entries()[j].0 == k;
                assert(actions[j] == self.intents.entries()[j].1.action);
            }
        }
        actions
    }

    /// Whether an intent of this kind could be registered now, its amounts aside.
    pub fn can_do(&self, intent: IntentType) -> (b: bool)
        requires
            self.wf(),
        ensures
            b == (!self.intents().contains_key(intent_code(intent))
                && !pipeline_conflict(*self, intent, true) && !pipeline_conflict(*self, intent, false)),
    {
        !self.has_intent(intent) && self.check_pipeline(intent, true).is_ok()
            && self.check_pipeline(intent, false).is_ok()
    }
}

/// The outcome of registering an intent of kind `ty` with effect `e`: the first
/// of the checks that fails, else the amount that the effect moves.
pub open spec fn register_result(c: VirtualCreep, ty: IntentType, e: Option<IntentEffect>) -> Result<u32, IntentError> {
    if c.intents().contains_key(intent_code(ty)) {
        Err(IntentError::AlreadyScheduled(ty))
    } else if pipeline_conflict(c, ty, true) {
        Err(IntentError::PipelineCollision { existing: pipeline_holder(c, true), new: ty })
    } else if pipeline_conflict(c, ty, false) {
        Err(IntentError::PipelineCollision { existing: pipeline_holder(c, false), new: ty })
    } else {
        match e {
            Some(IntentEffect::Incoming(r, a)) => if a > c.spec_free_capacity() {
                Err(IntentError::NotEnoughCapacity { resource: r, target: a, curr: c.spec_free_capacity() })
            } else {
                Ok(a)
            },
            Some(IntentEffect::Outgoing(r, a)) => if a > c.spec_resource(r) {
                Err(IntentError::NotEnoughResource { resource: r, target: a, curr: c.spec_resource(r) })
            } else {
                Ok(a)
            },
            None => Ok(0),
        }
    }
}

/// The parts of a creep that the tick does not change are the same.
pub open spec fn same_creep(a: VirtualCreep, b: VirtualCreep) -> bool {
    &&& a.spec_initial_free() == b.spec_initial_free()
    &&& a.spec_initial_used() == b.spec_initial_used()
    &&& a.spec_work_parts() == b.spec_work_parts()
    &&& a.spec_capacity() == b.spec_capacity()
}

/// `b` accounts for the effect `e` on top of what `a` accounts for.
pub open spec fn accounts_shifted(a: VirtualCreep, b: VirtualCreep, e: Option<IntentEffect>) -> bool {
    &&& same_creep(a, b)
    &&& b.spec_free_capacity() + incoming_amount(e) == a.spec_free_capacity()
    &&& b.spec_total_incoming() == a.spec_total_incoming() + incoming_amount(e)
    &&& b.spec_total_resources() + outgoing_amount(e) == a.spec_total_resources()
    &&& b.spec_total_outgoing() == a.spec_total_outgoing() + outgoing_amount(e)
    &&& forall|r: ResourceKind| #[trigger] b.spec_incoming(r) == a.spec_incoming(r) + incoming_of(e, r)
    &&& forall|r: ResourceKind| #[trigger] b.spec_resource(r) + outgoing_of(e, r) == a.spec_resource(r)
}

/// The two creeps have the same accounting and the same intents.
pub open spec fn accounts_equal(a: VirtualCreep, b: VirtualCreep) -> bool {
    &&& accounts_shifted(a, b, None)
    &&& a.intents() == b.intents()
}

/// `b` is `a` with the intent `i` of kind `ty` registered.
pub open spec fn registered(a: VirtualCreep, b: VirtualCreep, ty: IntentType, i: Intent) -> bool {
    &&& !a.intents().contains_key(intent_code(ty))
    &&& b.intents() == a.intents().insert(intent_code(ty), i)
    &&& accounts_shifted(a, b, i.effect)
}

/// `b` is `a` with the intent of kind `ty` taken back, if there was one.
pub open spec fn cancelled(a: VirtualCreep, b: VirtualCreep, ty: IntentType) -> bool {
    if a.intents().contains_key(intent_code(ty)) {
        &&& b.intents() == a.intents().remove(intent_code(ty))
        &&& accounts_shifted(b, a, a.intents()[intent_code(ty)].effect)
    } else {
        accounts_equal(a, b)
    }
}

/// Registering gives `r` and leads from `a` to `b`: the intent is added where
/// `r` is `Ok`, and nothing changes where it is an error.
pub open spec fn register_outcome(a: VirtualCreep, b: VirtualCreep, ty: IntentType, i: Intent, r: Result<u32, IntentError>) -> bool {
    &&& r == register_result(a, ty, i.effect)
    &&& r is Ok ==> registered(a, b, ty, i)
    &&& r is Err ==> accounts_equal(a, b)
}

/// The value of a map under a key is at most the sum of its values.
proof fn lemma_value_le_sum(m: KeyedMap<u32>, k: u64)
    requires
        m.wf(),
    ensures
        get_or_zero(m@, k) <= values_sum(m.entries()),
{
    m.lemma_wf();
    if m@.contains_key(k) {
        let i = choose|i: int| 0 <= i < m.entries().len() && m.entries()[i].0 == k;
        lemma_seq_sum_term(m.entries(), i, value_term());
    }
}

fn get_value(m: &KeyedMap<u32>, k: u64) -> (v: u32)
    requires
        m.wf(),
    ensures
        v == get_or_zero(m@, k),
{
    match m.get(k) {
        Some(v) => *v,
        None => 0,
    }
}

fn set_value(m: &mut KeyedMap<u32>, k: u64, v: u32)
    requires
        old(m).wf(),
    ensures
        final(m).wf(),
        final(m)@ == old(m)@.insert(k, v),
        values_sum(final(m).entries()) + get_or_zero(old(m)@, k) == values_sum(old(m).entries()) + v,
{
    let ghost before = m.entries();
    proof {
        m.lemma_wf();
    }
    m.insert(k, v);
    proof {
        if old(m)@.contains_key(k) {
            let i = choose|i: int| 0 <= i < before.len() && before[i].0 == k
                && m.entries() == before.update(i, (k, v));
            lemma_seq_sum_update(before, i, (k, v), value_term());
        } else {
            lemma_seq_sum_push(before, (k, v), value_term());
        }
    }
}

/// The amount a transfer into the creep moves: `amount` (all the free capacity
/// where it is `None`), at most what the other side holds.
pub open spec fn transfer_from_amount(c: VirtualCreep, holds: u32, amount: Option<u32>) -> u32 {
    min_u32(match amount { Some(a) => a, None => c.spec_free_capacity() }, holds)
}

/// The energy that building spends.
pub open spec fn build_amount(c: VirtualCreep, progress: u32, progress_total: u32) -> u32 {
    min_u32(min_u32((c.spec_work_parts() * 5) as u32, (progress_total - progress) as u32), c.spec_resource(ENERGY))
}

/// The energy that upgrading a controller spends: one per work part, at most what
/// the creep holds.
pub open spec fn upgrade_controller_amount(c: VirtualCreep) -> u32 {
    min_u32(c.spec_work_parts() as u32, c.spec_resource(ENERGY))
}

/// The amount that dropping moves.
pub open spec fn drop_amount(c: VirtualCreep, ty: ResourceKind, amount: Option<u32>) -> u32 {
    match amount { Some(a) => a, None => c.spec_resource(ty) }
}

/// The energy that harvesting gains.
pub open spec fn harvest_amount(c: VirtualCreep, source_energy: u32) -> u32 {
    min_u32(min_u32((c.spec_work_parts() * 2) as u32, source_energy), c.spec_free_capacity())
}

/// One energy repairs a hundred hits: the energy that `missing` hits need.
pub open spec fn repair_need(missing: u32) -> u32 {
    (missing / 100 + if missing % 100 == 0 { 0int } else { 1int }) as u32
}

/// The energy that repairing spends.
pub open spec fn repair_amount(c: VirtualCreep, hits: u32, hits_max: u32) -> u32 {
    min_u32(min_u32(c.spec_work_parts() as u32, repair_need((hits_max - hits) as u32)), c.spec_resource(ENERGY))
}

/// The amount that a transfer out of the creep moves.
pub open spec fn transfer_amount(c: VirtualCreep, ty: ResourceKind, amount: Option<u32>, target_free: u32) -> u32 {
    min_u32(drop_amount(c, ty, amount), target_free)
}

fn smaller(a: u32, b: u32) -> (m: u32)
    ensures
        m == min_u32(a, b),
{
    if a <= b { a } else { b }
}

/// The action carries out one of the registered intents.
pub open spec fn carries_intent(c: VirtualCreep, a: IntentAction) -> bool {
    exists|k: u64| #[trigger] c.intents().contains_key(k) && c.intents()[k].action == a
}

/// Some registered intent belongs to the pipeline.
pub open spec fn pipeline_taken(c: VirtualCreep, first: bool) -> bool {
    exists|k: u64| c.intents().contains_key(k) && in_pipeline(intent_of_code(k), first)
}

/// `t` belongs to a pipeline that a registered intent belongs to.
pub open spec fn pipeline_conflict(c: VirtualCreep, t: IntentType, first: bool) -> bool {
    in_pipeline(t, first) && pipeline_taken(c, first)
}

/// The registered intent that holds the pipeline.
pub open spec fn pipeline_holder(c: VirtualCreep, first: bool) -> IntentType {
    intent_of_code(choose|k: u64| c.intents().contains_key(k) && in_pipeline(intent_of_code(k), first))
}

/// Each kind has its own code, and the code gives the kind back.
pub proof fn lemma_code_decodes(t: IntentType)
    ensures
        intent_of_code(intent_code(t)) == t,
{
    let c = intent_code(t);
    assert(intent_code(t) == c);
    let u = intent_of_code(c);
    assert(intent_code(u) == c);
    match t {
        IntentType::Attack => {},
        IntentType::AttackController => {},
        IntentType::Build => {},
        IntentType::ClaimController => {},
        IntentType::Dismantle => {},
        IntentType::Drop => {},
        IntentType::Harvest => {},
        IntentType::Heal => {},
        IntentType::Move => {},
        IntentType::Pickup => {},
        IntentType::Pull => {},
        IntentType::RangedAttack => {},
        IntentType::RangedHeal => {},
        IntentType::RangedMassAttack => {},
        IntentType::Repair => {},
        IntentType::ReserveController => {},
        IntentType::Transfer => {},
        IntentType::UpgradeController => {},
        IntentType::Withdraw => {},
    }
}

/// Taking back an intent right after registering it restores the creep's
/// accounting and intents as they were.
pub proof fn law_cancel_undoes_register(a: VirtualCreep, b: VirtualCreep, c: VirtualCreep, ty: IntentType, i: Intent)
    requires
        registered(a, b, ty, i),
        cancelled(b, c, ty),
    ensures
        accounts_equal(a, c),
{
    assert(b.intents().contains_key(intent_code(ty)));
    assert(c.intents() =~= a.intents());
    assert forall|r: ResourceKind| #[trigger] c.spec_incoming(r) == a.spec_incoming(r) + incoming_of(None, r) by {
        assert(b.spec_incoming(r) == a.spec_incoming(r) + incoming_of(i.effect, r));
        assert(b.spec_incoming(r) == c.spec_incoming(r) + incoming_of(i.effect, r));
    }
    assert forall|r: ResourceKind| #[trigger] c.spec_resource(r) + outgoing_of(None, r) == a.spec_resource(r) by {
        assert(b.spec_resource(r) + outgoing_of(i.effect, r) == a.spec_resource(r));
        assert(b.spec_resource(r) + outgoing_of(i.effect, r) == c.spec_resource(r));
    }
}

/// Within a tick the creep hands out no more than it has: what the registered
/// intents add fits in the free capacity at the start of the tick, and what they
/// take is at most what the creep held then; the free capacity and resources left
/// are what there was less what was handed out.
pub proof fn law_intents_fit_the_store(c: VirtualCreep)
    requires
        c.wf(),
    ensures
        c.intents_incoming() <= c.spec_total_incoming(),
        c.intents_outgoing() <= c.spec_total_outgoing(),
        c.spec_free_capacity() + c.spec_total_incoming() == c.spec_initial_free(),
        c.spec_total_resources() + c.spec_total_outgoing() == c.spec_initial_used(),
        c.intents_incoming() <= c.spec_initial_free(),
        c.intents_outgoing() <= c.spec_initial_used(),
{
}

/// At most one intent of each kind is registered, and no two registered intents
/// share a pipeline.
pub proof fn law_one_intent_per_pipeline(c: VirtualCreep)
    requires
        c.wf(),
    ensures
        forall|k: u64| #[trigger] c.intents().contains_key(k) ==> intent_code(intent_of_code(k)) == k,
        forall|a: u64, b: u64| #[trigger] c.intents().contains_key(a) && #[trigger] c.intents().contains_key(b)
            && a != b ==> !collide(intent_of_code(a), intent_of_code(b)),
{
    assert forall|k: u64| #[trigger] c.intents().contains_key(k) implies intent_code(intent_of_code(k)) == k by {
        let t = choose|t: IntentType| intent_code(t) == k;
        assert(intent_code(t) == k);
    }
}

} // verus!
