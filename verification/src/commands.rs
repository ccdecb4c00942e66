//! Console commands: those that act at once, and the queue of those that the
//! colony code picks up when it gets to them.
use vstd::prelude::*;

verus! {

/// A console command.
#[derive(Clone, Debug, Hash)]
pub enum Command {
    ClearVisuals,
    VisualizeNewPlan { room: String },
    VisualizePlan { room: String, animate: bool },
    CleanRoomStructures { room: String },
    CleanRoomSites { room: String },
    ResetColonyStep { room: String },
    ResetColony { room: String },
    MigrateColony { room: String },
    DebugSpawn,
    VisualizeMovement { creep: String },
    Claim { room: String },
}

/// The abstract value of a command: its variant and the text of its arguments.
pub enum CommandView {
    ClearVisuals,
    VisualizeNewPlan { room: Seq<char> },
    VisualizePlan { room: Seq<char>, animate: bool },
    CleanRoomStructures { room: Seq<char> },
    CleanRoomSites { room: Seq<char> },
    ResetColonyStep { room: Seq<char> },
    ResetColony { room: Seq<char> },
    MigrateColony { room: Seq<char> },
    DebugSpawn,
    VisualizeMovement { creep: Seq<char> },
    Claim { room: Seq<char> },
}

impl View for Command {
    type V = CommandView;

    open spec fn view(&self) -> CommandView {
        match self {
            Command::ClearVisuals => CommandView::ClearVisuals,
            Command::VisualizeNewPlan { room } => CommandView::VisualizeNewPlan { room: room@ },
            Command::VisualizePlan { room, animate } => CommandView::VisualizePlan { room: room@, animate: *animate },
            Command::CleanRoomStructures { room } => CommandView::CleanRoomStructures { room: room@ },
            Command::CleanRoomSites { room } => CommandView::CleanRoomSites { room: room@ },
            Command::ResetColonyStep { room } => CommandView::ResetColonyStep { room: room@ },
            Command::ResetColony { room } => CommandView::ResetColony { room: room@ },
            Command::MigrateColony { room } => CommandView::MigrateColony { room: room@ },
            Command::DebugSpawn => CommandView::DebugSpawn,
            Command::VisualizeMovement { creep } => CommandView::VisualizeMovement { creep: creep@ },
            Command::Claim { room } => CommandView::Claim { room: room@ },
        }
    }
}

impl PartialEq for Command {
    fn eq(&self, other: &Self) -> (r: bool) {
        match self {
            Command::ClearVisuals => match other {
                Command::ClearVisuals => true,
                _ => false,
            },
            Command::VisualizeNewPlan { room: a } => match other {
                Command::VisualizeNewPlan { room: b } => *a == *b,
                _ => false,
            },
            Command::VisualizePlan { room: a, animate: x } => match other {
                Command::VisualizePlan { room: b, animate: y } => *a == *b && *x == *y,
                _ => false,
            },
            Command::CleanRoomStructures { room: a } => match other {
                Command::CleanRoomStructures { room: b } => *a == *b,
                _ => false,
            },
            Command::CleanRoomSites { room: a } => match other {
                Command::CleanRoomSites { room: b } => *a == *b,
                _ => false,
            },
            Command::ResetColonyStep { room: a } => match other {
                Command::ResetColonyStep { room: b } => *a == *b,
                _ => false,
            },
            Command::ResetColony { room: a } => match other {
                Command::ResetColony { room: b } => *a == *b,
                _ => false,
            },
            Command::MigrateColony { room: a } => match other {
                Command::MigrateColony { room: b } => *a == *b,
                _ => false,
            },
            Command::DebugSpawn => match other {
                Command::DebugSpawn => true,
                _ => false,
            },
            Command::VisualizeMovement { creep: a } => match other {
                Command::VisualizeMovement { creep: b } => *a == *b,
                _ => false,
            },
            Command::Claim { room: a } => match other {
                Command::Claim { room: b } => *a == *b,
                _ => false,
            },
        }
    }
}

impl vstd::std_specs::cmp::PartialEqSpecImpl for Command {
    open spec fn obeys_eq_spec() -> bool {
        true
    }

    open spec fn eq_spec(&self, other: &Command) -> bool {
        self@ == other@
    }
}

impl Eq for Command {}

impl Command {
    /// The command acts at once (on visuals or on a room's objects) rather than
    /// waiting in the queue.
    pub fn runs_at_once(&self) -> (b: bool)
        ensures
            b == (self@ is ClearVisuals || self@ is VisualizeNewPlan || self@ is CleanRoomStructures
                || self@ is CleanRoomSites),
    {
        match self {
            Command::ClearVisuals | Command::VisualizeNewPlan { .. } | Command::CleanRoomStructures { .. }
            | Command::CleanRoomSites { .. } => true,
            _ => false,
        }
    }
}

/// The views of a sequence of commands.
pub open spec fn views(s: Seq<Command>) -> Seq<CommandView> {
    s.map_values(|c: Command| c@)
}

/// The commands whose decision is `keep`, in order.
pub open spec fn partition(s: Seq<Command>, d: Seq<bool>, keep: bool) -> Seq<Command>
    decreases s.len(),
{
    if s.len() == 0 || d.len() != s.len() {
        Seq::empty()
    } else {
        partition(s.drop_last(), d.drop_last(), keep) + if d.last() == keep { seq![s.last()] } else { Seq::empty() }
    }
}

/// The commands waiting to be picked up, each once.
pub struct CommandQueue {
    commands: Vec<Command>,
}

impl CommandQueue {
    /// The waiting commands, in the order they came.
    pub closed spec fn commands(&self) -> Seq<Command> {
        self.commands@
    }

    /// The set of waiting commands.
    pub open spec fn view(&self) -> Set<CommandView> {
        views(self.commands()).to_set()
    }

    /// No command waits twice.
    pub open spec fn wf(&self) -> bool {
        views(self.commands()).no_duplicates()
    }

    /// No waiting commands.
    pub fn new() -> (q: Self)
        ensures
            q.wf(),
            q@ == Set::<CommandView>::empty(),
    {
        let q = CommandQueue { commands: Vec::new() };
        proof {
            assert(views(q.commands()) =~= Seq::<CommandView>::empty());
            assert(q@ =~= Set::<CommandView>::empty());
        }
        q
    }

    fn position(&self, cmd: &Command) -> (r: Option<usize>)
        requires
            self.wf(),
        ensures
            r is None <==> !self@.contains(cmd@),
            r matches Some(i) ==> i < self.commands().len() && self.commands()[i as int]@ == cmd@,
    {
        let mut i: usize = 0;
        while i < self.commands.len()
            invariant
                i <= self.commands@.len(),
                forall|j: int| 0 <= j < i ==> (#[trigger] self.commands@[j])@ != cmd@,
            decreases self.commands@.len() - i,
        {
            if self.commands[i] == *cmd {
                proof {
                    assert(views(self.commands())[i as int] == cmd@);
                }
                return Some(i);
            }
            i = i + 1;
        }
        proof {
            if self@.contains(cmd@) {
                let j = choose|j: int| 0 <= j < views(self.commands()).len() && views(self.commands())[j] == cmd@;
                assert(self.commands@[j]@ == cmd@);
            }
        }
        None
    }

    /// Queues a command; gives whether it was not queued yet.
    pub fn insert(&mut self, cmd: Command) -> (added: bool)
        requires
            old(self).wf(),
        ensures
            final(self).wf(),
            added == !old(self)@.contains(cmd@),
            final(self)@ == old(self)@.insert(cmd@),
    {
        match self.position(&cmd) {
            Some(_) => {
                proof {
                    assert(old(self)@.insert(cmd@) =~= old(self)@);
                }
                false
            },
            None => {
                let ghost before = self.commands@;
                let ghost v = cmd@;
                self.commands.push(cmd);
                proof {
                    assert(views(self.commands@) =~= views(before).push(v));
                    views(before).lemma_push_to_set_commute(v);
                    assert(self@ =~= old(self)@.insert(v));
                    assert(!views(before).contains(v));
                }
                true
            },
        }
    }

    /// Takes a command out of the queue; gives whether it was there.
    pub fn pop_command(&mut self, cmd: &Command) -> (did_pop: bool)
        requires
            old(self).wf(),
        ensures
            final(self).wf(),
            did_pop == old(self)@.contains(cmd@),
            final(self)@ == old(self)@.remove(cmd@),
    {
        match self.position(cmd) {
            None => {
                proof {
                    assert(old(self)@.remove(cmd@) =~= old(self)@);
                }
                false
            },
            Some(i) => {
                let ghost before = self.commands@;
                self.commands.remove(i);
                proof {
                    let vb = views(before);
                    assert(views(self.commands@) =~= vb.remove(i as int));
                    let vr = vb.remove(i as int);
                    assert(vb[i as int] == cmd@);
                    assert forall|x: CommandView| self@.contains(x) <==> old(self)@.remove(cmd@).contains(x) by {
                        if self@.contains(x) {
                            assert(views(self.commands@).contains(x));
                            assert(vr.contains(x));
                            let j = choose|j: int| 0 <= j < vr.len() && vr[j] == x;
                            let oj = if j < i { j } else { j + 1 };
                            assert(vb[oj] == x);
                            assert(oj != i);
                            assert(vb.contains(x));
                            assert(x != cmd@);
                        }
                        if old(self)@.remove(cmd@).contains(x) {
                            assert(vb.contains(x));
                            let j = choose|j: int| 0 <= j < vb.len() && vb[j] == x;
                            assert(j != i);
                            let nj = if j < i { j } else { j - 1 };
                            assert(vr[nj] == x);
                            assert(views(self.commands@).contains(x));
                        }
                    }
                    assert(self@ =~= old(self)@.remove(cmd@));
                }
                true
            },
        }
    }

    /// Hands each waiting command to `f`, in order: those for which it gives `true`
    /// are handled and leave the queue (they are given back, in order); the others
    /// stay, in order.
    pub fn handle_commands<F: Fn(&Command) -> bool>(&mut self, f: F) -> (handled: Vec<Command>)
        requires
            old(self).wf(),
            forall|c: Command| #[trigger] f.requires((&c,)),
        ensures
            final(self).wf(),
            exists|d: Seq<bool>| {
                &&& #[trigger] d.len() == old(self).commands().len()
                &&& forall|i: int| 0 <= i < d.len() ==> f.ensures((&old(self).commands()[i],), #[trigger] d[i])
                &&& final(self).commands() == partition(old(self).commands(), d, false)
                &&& handled@ == partition(old(self).commands(), d, true)
            },
    {
        let mut rest: Vec<Command> = Vec::new();
        std::mem::swap(&mut rest, &mut self.commands);
        let ghost s = rest@;
        let ghost mut d: Seq<bool> = Seq::empty();
        let mut handled: Vec<Command> = Vec::new();
        let mut n: usize = 0;
        let total = rest.len();
        while rest.len() > 0
            invariant
                forall|c: Command| #[trigger] f.requires((&c,)),
                s.len() == total,
                n + rest@.len() == s.len(),
                rest@ == s.skip(n as int),
                d.len() == n,
                forall|i: int| 0 <= i < n ==> f.ensures((&s[i],), #[trigger] d[i]),
                self.commands@ == partition(s.take(n as int), d, false),
                handled@ == partition(s.take(n as int), d, true),
            decreases rest@.len(),
        {
            let ghost before = rest@;
            let c = rest.remove(0);
            proof {
                assert(before[0] == s[n as int]);
                assert(rest@ =~= s.skip(n as int + 1));
            }
            let b = f(&c);
            let ghost d_old = d;
            proof {
                d = d.push(b);
                assert(d.drop_last() =~= d_old);
                assert(s.take(n as int + 1).drop_last() =~= s.take(n as int));
                assert(s.take(n as int + 1).last() == s[n as int]);
                assert(d.drop_last() =~= d.take(n as int));
                assert(d.take(n as int) =~= d.drop_last());
            }
            if b {
                handled.push(c);
            } else {
                self.commands.push(c);
            }
            proof {
                assert(partition(s.take(n as int + 1), d, false) =~= partition(s.take(n as int), d.drop_last(), false)
                    + if d.last() == false { seq![s[n as int]] } else { Seq::empty() });
                assert(partition(s.take(n as int + 1), d, true) =~= partition(s.take(n as int), d.drop_last(), true)
                    + if d.last() == true { seq![s[n as int]] } else { Seq::empty() });
            }
            n = n + 1;
        }
        proof {
            assert(s.take(n as int) =~= s);
            lemma_partition_no_dups(s, d, false);
        }
        handled
    }
}

/// Keeping some of a sequence of distinct commands keeps them distinct.
proof fn lemma_partition_no_dups(s: Seq<Command>, d: Seq<bool>, keep: bool)
    requires
        views(s).no_duplicates(),
    ensures
        views(partition(s, d, keep)).no_duplicates(),
        forall|x: CommandView| views(partition(s, d, keep)).contains(x) ==> views(s).contains(x),
    decreases s.len(),
{
    if s.len() == 0 || d.len() != s.len() {
        assert(views(partition(s, d, keep)) =~= Seq::<CommandView>::empty());
    } else {
        assert(views(s.drop_last()) =~= views(s).drop_last());
        lemma_partition_no_dups(s.drop_last(), d.drop_last(), keep);
        let p = partition(s.drop_last(), d.drop_last(), keep);
        if d.last() == keep {
            assert(views(partition(s, d, keep)) =~= views(p).push(s.last()@));
            assert(!views(p).contains(s.last()@)) by {
                if views(p).contains(s.last()@) {
                    assert(views(s.drop_last()).contains(s.last()@));
                    let j = choose|j: int| 0 <= j < views(s.drop_last()).len() && views(s.drop_last())[j] == s.last()@;
                    assert(views(s)[j] == views(s)[s.len() - 1]);
                }
            }
            assert forall|x: CommandView| views(partition(s, d, keep)).contains(x) implies views(s).contains(x) by {
                if x == s.last()@ {
                    assert(views(s)[s.len() - 1] == x);
                } else {
                    assert(views(p).contains(x));
                    assert(views(s.drop_last()).contains(x));
                    let j = choose|j: int| 0 <= j < views(s.drop_last()).len() && views(s.drop_last())[j] == x;
                    assert(views(s)[j] == x);
                }
            }
        } else {
            assert(views(partition(s, d, keep)) =~= views(p));
            assert forall|x: CommandView| views(partition(s, d, keep)).contains(x) implies views(s).contains(x) by {
                assert(views(p).contains(x));
                assert(views(s.drop_last()).contains(x));
                let j = choose|j: int| 0 <= j < views(s.drop_last()).len() && views(s.drop_last())[j] == x;
                assert(views(s)[j] == x);
            }
        }
    }
}

} // verus!
