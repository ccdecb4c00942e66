//! Making every road and structure of a plan reachable from the colony's center:
//! step by step, the new roads join a network of tiles kept in a union-find, and
//! each road, or structure, that is not yet joined to the center gets a road
//! from the center planned to it.
use vstd::prelude::*;
use unionfind::HashUnionFindByRank;
use crate::floodfill::{spec_step, step_towards};
use crate::planner::{ColonyPlanner, PlannedStructure, RoomXY, xy_key, xy_valid};
use crate::steps::{ColonyStep, STEP_COUNT};

verus! {

#[verifier::external_type_specification]
#[verifier::external_body]
#[verifier::reject_recursive_types(T)]
#[verifier::reject_recursive_types(V)]
#[verifier::reject_recursive_types(M)]
#[verifier::reject_recursive_types(E)]
pub struct ExUnionFind<T, V, M, E>(unionfind::generic::UnionFind<T, V, M, E>);

#[verifier::external_type_specification]
#[verifier::external_body]
#[verifier::reject_recursive_types(M)]
#[verifier::reject_recursive_types(T)]
pub struct ExByRank<M, T>(unionfind::extra::ByRank<M, T>);

/// A union-find of tile keys.
pub type Network = HashUnionFindByRank<u64>;

/// What a union-find of tile keys holds: each key and the key that `find` gives
/// for it, the representative of its class.
pub uninterp spec fn network_roots(n: Network) -> Map<u64, u64>;

/// A union-find holding the one key `c`, by `HashUnionFindByRank::new`. The
/// crate builds it by adding the key to empty maps, which cannot fail.
#[verifier::external_body]
fn network_new(c: u64) -> (r: Option<Network>)
    ensures
        r is Some,
        network_roots(r.unwrap()) == Map::empty().insert(c, c),
{
    Network::new(vec![c]).ok()
}

/// Adds `e` as a class of its own, by `UnionFind::add`; this fails, and the
/// crate says nothing of the union-find afterwards, where `e` is in it already.
#[verifier::external_body]
fn network_add(n: &mut Network, e: u64) -> (ok: bool)
    ensures
        ok == !network_roots(*old(n)).contains_key(e),
        ok ==> network_roots(*final(n)) == network_roots(*old(n)).insert(e, e),
{
    n.add(e).is_ok()
}

/// The representative of `e`'s class, if `e` is in the union-find, by
/// `UnionFind::find_shorten`, which only shortens paths.
#[verifier::external_body]
fn network_find(n: &mut Network, e: u64) -> (r: Option<u64>)
    ensures
        network_roots(*final(n)) == network_roots(*old(n)),
        r == if network_roots(*old(n)).contains_key(e) { Some(network_roots(*old(n))[e]) } else { None },
{
    n.find_shorten(&e)
}

/// Every key of the classes of `x` and `y` in `a` has the representative `r` in
/// `b`, itself one of their two representatives; every other key keeps its own.
pub open spec fn merged_under(a: Map<u64, u64>, b: Map<u64, u64>, x: u64, y: u64, r: u64) -> bool {
    &&& r == a[x] || r == a[y]
    &&& forall|k: u64| #[trigger] a.contains_key(k)
        ==> b[k] == if a[k] == a[x] || a[k] == a[y] { r } else { a[k] }
}

/// `b` is `a` with the classes of `x` and `y` merged under the representative of
/// one of the two.
pub open spec fn merged(a: Map<u64, u64>, b: Map<u64, u64>, x: u64, y: u64) -> bool {
    &&& b.dom() == a.dom()
    &&& exists|r: u64| #[trigger] merged_under(a, b, x, y, r)
}

/// Merges the classes of `x` and `y`, by `UnionFind::union_by_rank`, which fails
/// where one of the two is not in the union-find. The crate hangs the root of
/// lower rank under the other, so the merged class takes one of the two
/// representatives.
#[verifier::external_body]
fn network_union(n: &mut Network, x: u64, y: u64) -> (ok: bool)
    ensures
        ok == (network_roots(*old(n)).contains_key(x) && network_roots(*old(n)).contains_key(y)),
        ok ==> merged(network_roots(*old(n)), network_roots(*final(n)), x, y),
        !ok ==> network_roots(*final(n)) == network_roots(*old(n)),
{
    n.union_by_rank(&x, &y).is_ok()
}

/// The tile of a tile index.
pub open spec fn tile_at(t: int) -> RoomXY {
    RoomXY { x: (t % 50) as u8, y: (t / 50) as u8 }
}

/// A road is planned on the tile from exactly this step.
pub open spec fn road_of_step(pl: ColonyPlanner, step: ColonyStep, q: RoomXY) -> bool {
    pl.roads().contains_key(xy_key(q)) && pl.roads()[xy_key(q)] == step
}

/// A structure other than a source's container is planned on the tile from
/// exactly this step.
pub open spec fn structure_of_step(pl: ColonyPlanner, step: ColonyStep, q: RoomXY) -> bool {
    &&& pl.structures().contains_key(xy_key(q))
    &&& pl.structure_steps()[xy_key(q)] == step
    &&& !(pl.structures()[xy_key(q)] is SourceContainer)
}

/// The tiles with index below `t` holding a road of the step, in tile order (by
/// row, then column).
pub open spec fn roads_upto(pl: ColonyPlanner, step: ColonyStep, t: nat) -> Seq<RoomXY>
    decreases t,
{
    if t == 0 {
        Seq::empty()
    } else {
        let before = roads_upto(pl, step, (t - 1) as nat);
        if road_of_step(pl, step, tile_at(t - 1)) { before.push(tile_at(t - 1)) } else { before }
    }
}

/// The tiles with index below `t` holding a structure of the step (not a
/// source's container), in tile order.
pub open spec fn structures_upto(pl: ColonyPlanner, step: ColonyStep, t: nat) -> Seq<RoomXY>
    decreases t,
{
    if t == 0 {
        Seq::empty()
    } else {
        let before = structures_upto(pl, step, (t - 1) as nat);
        if structure_of_step(pl, step, tile_at(t - 1)) { before.push(tile_at(t - 1)) } else { before }
    }
}

/// One neighbour's turn as road `r` joins: `n` is `m` with the road's class merged
/// with that of its `d`-th neighbour (clockwise from the top) where that one is in
/// the network, else `m` itself.
pub open spec fn neighbour_step(m: Map<u64, u64>, n: Map<u64, u64>, r: RoomXY, d: int) -> bool {
    match spec_step(r, d) {
        Some(q) => if m.contains_key(xy_key(q)) { merged(m, n, xy_key(r), xy_key(q)) } else { n == m },
        None => n == m,
    }
}

/// The networks `ms` go from `a` with road `r` added as its own class, through its
/// neighbours' turns, to `b`.
pub open spec fn join_chain(a: Map<u64, u64>, b: Map<u64, u64>, r: RoomXY, ms: Seq<Map<u64, u64>>) -> bool {
    &&& ms.len() == 9
    &&& ms[0] == a.insert(xy_key(r), xy_key(r))
    &&& ms[8] == b
    &&& forall|d: int| 0 <= d < 8 ==> #[trigger] neighbour_step(ms[d], ms[d + 1], r, d)
}

/// `b` is `a` after road `r` joined it: added as its own class, then merged with
/// each of its neighbours already in it, clockwise from the top.
pub open spec fn joined(a: Map<u64, u64>, b: Map<u64, u64>, r: RoomXY) -> bool {
    exists|ms: Seq<Map<u64, u64>>| #[trigger] join_chain(a, b, r, ms)
}

/// The networks `ms` go from `a` to their last through the roads joining in
/// turn, none of them in the network before.
pub open spec fn roads_chain(a: Map<u64, u64>, rs: Seq<RoomXY>, ms: Seq<Map<u64, u64>>) -> bool {
    &&& ms.len() == rs.len() + 1
    &&& ms[0] == a
    &&& forall|i: int| 0 <= i < rs.len() ==> !ms[i].contains_key(xy_key(#[trigger] rs[i])) && joined(ms[i], ms[i + 1], rs[i])
}

/// `b` is `a` after the roads joined it in turn, none of them in it before.
pub open spec fn roads_joined(a: Map<u64, u64>, b: Map<u64, u64>, rs: Seq<RoomXY>) -> bool {
    exists|ms: Seq<Map<u64, u64>>| #[trigger] roads_chain(a, rs, ms) && ms.last() == b
}

/// One road's turn against the center `c`: where it is not in the center's class,
/// the two classes are merged; else nothing changes.
pub open spec fn center_step(m: Map<u64, u64>, n: Map<u64, u64>, r: RoomXY, c: u64) -> bool {
    if m[xy_key(r)] != m[c] { merged(m, n, xy_key(r), c) } else { n == m }
}

/// The networks `ms` go from `a` to their last through the roads' turns against
/// the center `c`.
pub open spec fn center_chain(a: Map<u64, u64>, rs: Seq<RoomXY>, c: u64, ms: Seq<Map<u64, u64>>) -> bool {
    &&& ms.len() == rs.len() + 1
    &&& ms[0] == a
    &&& forall|i: int| 0 <= i < rs.len() ==> #[trigger] center_step(ms[i], ms[i + 1], rs[i], c)
}

/// The roads among the first `i` that were not in the center's class at their turn.
pub open spec fn picked(ms: Seq<Map<u64, u64>>, rs: Seq<RoomXY>, c: u64, i: nat) -> Seq<RoomXY>
    decreases i,
{
    if i == 0 {
        Seq::empty()
    } else {
        let before = picked(ms, rs, c, (i - 1) as nat);
        let m = ms[i - 1];
        if m[xy_key(rs[i - 1])] != m[c] { before.push(rs[i - 1]) } else { before }
    }
}

/// Going through the roads in turn from `a` to `b`, those not in the class of the
/// center `c` are `ts`, each merged into it once found.
pub open spec fn targets_from(a: Map<u64, u64>, b: Map<u64, u64>, rs: Seq<RoomXY>, c: u64, ts: Seq<RoomXY>) -> bool {
    exists|ms: Seq<Map<u64, u64>>| #[trigger] center_chain(a, rs, c, ms) && ms.last() == b
        && ts == picked(ms, rs, c, rs.len())
}

/// Some neighbour of the tile is in the network.
pub open spec fn neighbour_in(dom: Set<u64>, s: RoomXY) -> bool {
    exists|d: int| 0 <= d < 8 && #[trigger] spec_step(s, d) is Some && dom.contains(xy_key(spec_step(s, d).unwrap()))
}

/// The structures, in order, that are not the center and have no neighbour in
/// the network.
pub open spec fn unconnected(ss: Seq<RoomXY>, c: RoomXY, dom: Set<u64>) -> Seq<RoomXY>
    decreases ss.len(),
{
    if ss.len() == 0 {
        Seq::empty()
    } else {
        let before = unconnected(ss.drop_last(), c, dom);
        if ss.last() != c && !neighbour_in(dom, ss.last()) { before.push(ss.last()) } else { before }
    }
}

/// The tiles that one step of connecting asks roads from the center to: first the
/// new roads that are not joined to the center, then the new structures that no
/// road of the network touches.
pub struct StepConnections {
    pub roads: Vec<RoomXY>,
    pub structures: Vec<RoomXY>,
}

/// The new roads of a step, in tile order.
fn new_roads(planner: &ColonyPlanner, step: ColonyStep) -> (r: Vec<RoomXY>)
    requires
        planner.wf(),
    ensures
        r@ == roads_upto(*planner, step, 2500),
        forall|i: int| 0 <= i < r@.len() ==> xy_valid(#[trigger] r@[i]),
{
    let mut r: Vec<RoomXY> = Vec::new();
    let mut t: u16 = 0;
    while t < 2500
        invariant
            planner.wf(),
            t <= 2500,
            r@ == roads_upto(*planner, step, t as nat),
            forall|i: int| 0 <= i < r@.len() ==> xy_valid(#[trigger] r@[i]),
        decreases 2500 - t,
    {
        let q = RoomXY { x: (t % 50) as u8, y: (t / 50) as u8 };
        proof {
            assert(q == tile_at(t as int));
        }
        if let Some(s) = planner.road_at(q) {
            if s == step {
                r.push(q);
            }
        }
        t = t + 1;
    }
    r
}

/// The new structures of a step (but sources' containers), in tile order.
fn new_structures(planner: &ColonyPlanner, step: ColonyStep) -> (r: Vec<RoomXY>)
    requires
        planner.wf(),
    ensures
        r@ == structures_upto(*planner, step, 2500),
        forall|i: int| 0 <= i < r@.len() ==> xy_valid(#[trigger] r@[i]),
{
    let mut r: Vec<RoomXY> = Vec::new();
    let mut t: u16 = 0;
    while t < 2500
        invariant
            planner.wf(),
            t <= 2500,
            r@ == structures_upto(*planner, step, t as nat),
            forall|i: int| 0 <= i < r@.len() ==> xy_valid(#[trigger] r@[i]),
        decreases 2500 - t,
    {
        let q = RoomXY { x: (t % 50) as u8, y: (t / 50) as u8 };
        proof {
            assert(q == tile_at(t as int));
        }
        if let Some((s, st)) = planner.structure_at(q) {
            let container = match s {
                PlannedStructure::SourceContainer(_) => true,
                _ => false,
            };
            if st == step && !container {
                r.push(q);
            }
        }
        t = t + 1;
    }
    r
}

/// Joins road `r` to the network (see `joined`); fails where it is in the
/// network already.
fn join_road(network: &mut Network, r: RoomXY) -> (ok: bool)
    requires
        xy_valid(r),
    ensures
        ok == !network_roots(*old(network)).contains_key(xy_key(r)),
        ok ==> joined(network_roots(*old(network)), network_roots(*final(network)), r),
        ok ==> network_roots(*final(network)).dom() == network_roots(*old(network)).dom().insert(xy_key(r)),
{
    let kr: u64 = r.x as u64 * 256 + r.y as u64;
    let ghost m0 = network_roots(*network);
    if !network_add(network, kr) {
        return false;
    }
    let ghost mut ms: Seq<Map<u64, u64>> = seq![network_roots(*network)];
    let mut d: u8 = 0;
    while d < 8
        invariant
            xy_valid(r),
            kr == xy_key(r),
            d <= 8,
            ms.len() == d + 1,
            ms[0] == m0.insert(kr, kr),
            ms.last() == network_roots(*network),
            forall|e: int| 0 <= e < d ==> #[trigger] neighbour_step(ms[e], ms[e + 1], r, e),
            network_roots(*network).dom() == m0.dom().insert(kr),
        decreases 8 - d,
    {
        let ghost prev = network_roots(*network);
        if let Some(q) = step_towards(r, d) {
            let kq: u64 = q.x as u64 * 256 + q.y as u64;
            if network_find(network, kq).is_some() {
                let ok = network_union(network, kr, kq);
                proof {
                    assert(ok);
                }
            }
        }
        proof {
            let ms0 = ms;
            ms = ms.push(network_roots(*network));
            assert(neighbour_step(ms[d as int], ms[d as int + 1], r, d as int));
            assert forall|e: int| 0 <= e < d + 1 implies #[trigger] neighbour_step(ms[e], ms[e + 1], r, e) by {
                if e < d {
                    assert(ms[e] == ms0[e] && ms[e + 1] == ms0[e + 1]);
                }
            }
        }
        d = d + 1;
    }
    proof {
        assert(join_chain(m0, network_roots(*network), r, ms));
    }
    true
}

/// The roads among the first `i` picked are the same for two runs of networks
/// that agree on their first `i`.
proof fn lemma_picked_prefix(ms1: Seq<Map<u64, u64>>, ms2: Seq<Map<u64, u64>>, rs: Seq<RoomXY>, c: u64, i: nat)
    requires
        i <= ms1.len(),
        i <= ms2.len(),
        forall|k: int| 0 <= k < i ==> ms1[k] == ms2[k],
    ensures
        picked(ms1, rs, c, i) == picked(ms2, rs, c, i),
    decreases i,
{
    if i > 0 {
        lemma_picked_prefix(ms1, ms2, rs, c, (i - 1) as nat);
    }
}

/// Whether some neighbour of the tile is in the network.
fn touches_network(network: &mut Network, s: RoomXY) -> (b: bool)
    requires
        xy_valid(s),
    ensures
        network_roots(*final(network)) == network_roots(*old(network)),
        b == neighbour_in(network_roots(*old(network)).dom(), s),
{
    let ghost m0 = network_roots(*network);
    let mut d: u8 = 0;
    while d < 8
        invariant
            xy_valid(s),
            d <= 8,
            m0 == network_roots(*old(network)),
            network_roots(*network) == m0,
            !(exists|d2: int| 0 <= d2 < d && #[trigger] spec_step(s, d2) is Some && m0.dom().contains(xy_key(spec_step(s, d2).unwrap()))),
        decreases 8 - d,
    {
        if let Some(q) = step_towards(s, d) {
            let kq: u64 = q.x as u64 * 256 + q.y as u64;
            if network_find(network, kq).is_some() {
                proof {
                    assert(spec_step(s, d as int) is Some && m0.dom().contains(xy_key(spec_step(s, d as int).unwrap())));
                }
                return true;
            }
        }
        d = d + 1;
    }
    false
}

/// One step of connecting the plan to the center: the new roads of the step, in
/// tile order, join the network, failing at the first one already in it (see
/// `roads_joined`); then those not joined to the center are joined to it in turn
/// and asked a road from the center (see `targets_from`); last, the new
/// structures of the step (but sources' containers) that are not the center and
/// touch no tile of the network are asked a road from the center.
pub fn connect_step(network: &mut Network, planner: &ColonyPlanner, center: RoomXY, step: ColonyStep)
    -> (r: Result<StepConnections, RoomXY>)
    requires
        planner.wf(),
        network_roots(*old(network)).contains_key(xy_key(center)),
    ensures
        r matches Ok(c) ==> network_roots(*final(network)).contains_key(xy_key(center))
            && c.structures@ == unconnected(structures_upto(*planner, step, 2500), center, network_roots(*final(network)).dom())
            && exists|m: Map<u64, u64>| #[trigger] roads_joined(network_roots(*old(network)), m, roads_upto(*planner, step, 2500))
                && targets_from(m, network_roots(*final(network)), roads_upto(*planner, step, 2500), xy_key(center), c.roads@),
        r matches Err(t) ==> exists|i: int, m: Map<u64, u64>| 0 <= i < roads_upto(*planner, step, 2500).len()
            && #[trigger] roads_joined(network_roots(*old(network)), m, roads_upto(*planner, step, 2500).take(i))
            && m.contains_key(xy_key(roads_upto(*planner, step, 2500)[i]))
            && t == roads_upto(*planner, step, 2500)[i],
{
    let roads = new_roads(planner, step);
    let ghost rs = roads@;
    let ghost m0 = network_roots(*network);
    let ghost mut ms: Seq<Map<u64, u64>> = seq![m0];
    let kc: u64 = center.x as u64 * 256 + center.y as u64;
    let mut i: usize = 0;
    while i < roads.len()
        invariant
            rs == roads@,
            rs == roads_upto(*planner, step, 2500),
            m0 == network_roots(*old(network)),
            kc == xy_key(center),
            i <= rs.len(),
            forall|j: int| 0 <= j < rs.len() ==> xy_valid(#[trigger] rs[j]),
            ms.len() == i + 1,
            ms[0] == m0,
            ms.last() == network_roots(*network),
            forall|j: int| 0 <= j < i ==> !ms[j].contains_key(xy_key(#[trigger] rs[j])) && joined(ms[j], ms[j + 1], rs[j]),
            network_roots(*network).contains_key(kc),
            forall|j: int| 0 <= j < i ==> network_roots(*network).contains_key(xy_key(#[trigger] rs[j])),
        decreases rs.len() - i,
    {
        let q = roads[i];
        if !join_road(network, q) {
            proof {
                assert(roads_chain(m0, rs.take(i as int), ms));
                assert(roads_joined(m0, ms.last(), rs.take(i as int)));
            }
            return Err(q);
        }
        proof {
            let ms0 = ms;
            ms = ms.push(network_roots(*network));
            assert forall|j: int| 0 <= j < i + 1 implies !ms[j].contains_key(xy_key(#[trigger] rs[j])) && joined(ms[j], ms[j + 1], rs[j]) by {
                if j < i {
                    assert(ms[j] == ms0[j] && ms[j + 1] == ms0[j + 1]);
                }
            }
        }
        i = i + 1;
    }
    proof {
        assert(roads_chain(m0, rs, ms));
        assert(roads_joined(m0, network_roots(*network), rs));
    }
    let ghost ma = network_roots(*network);
    let ghost mut ns: Seq<Map<u64, u64>> = seq![ma];
    let mut targets: Vec<RoomXY> = Vec::new();
    let mut j: usize = 0;
    while j < roads.len()
        invariant
            rs == roads@,
            rs == roads_upto(*planner, step, 2500),
            roads_joined(network_roots(*old(network)), ma, rs),
            kc == xy_key(center),
            j <= rs.len(),
            forall|a: int| 0 <= a < rs.len() ==> xy_valid(#[trigger] rs[a]),
            forall|a: int| 0 <= a < rs.len() ==> ma.contains_key(xy_key(#[trigger] rs[a])),
            ma.contains_key(kc),
            network_roots(*network).dom() == ma.dom(),
            ns.len() == j + 1,
            ns[0] == ma,
            ns.last() == network_roots(*network),
            forall|a: int| 0 <= a < j ==> #[trigger] center_step(ns[a], ns[a + 1], rs[a], kc),
            targets@ == picked(ns, rs, kc, j as nat),
        decreases rs.len() - j,
    {
        let q = roads[j];
        let kq: u64 = q.x as u64 * 256 + q.y as u64;
        let fq = network_find(network, kq);
        let fc = network_find(network, kc);
        proof {
            assert(ma.contains_key(xy_key(rs[j as int])));
        }
        if fq != fc {
            targets.push(q);
            let ok = network_union(network, kq, kc);
            proof {
                assert(ok);
            }
        }
        proof {
            let ns0 = ns;
            ns = ns.push(network_roots(*network));
            lemma_picked_prefix(ns0, ns, rs, kc, j as nat);
            assert(center_step(ns[j as int], ns[j as int + 1], rs[j as int], kc));
            assert forall|a: int| 0 <= a < j + 1 implies #[trigger] center_step(ns[a], ns[a + 1], rs[a], kc) by {
                if a < j {
                    assert(ns[a] == ns0[a] && ns[a + 1] == ns0[a + 1]);
                }
            }
        }
        j = j + 1;
    }
    proof {
        assert(center_chain(ma, rs, kc, ns));
        assert(targets_from(ma, network_roots(*network), rs, kc, targets@));
    }
    let structures = new_structures(planner, step);
    let ghost ss = structures@;
    let ghost mb = network_roots(*network);
    let mut far: Vec<RoomXY> = Vec::new();
    let mut k: usize = 0;
    proof {
        assert(ss.take(0) =~= Seq::<RoomXY>::empty());
    }
    while k < structures.len()
        invariant
            ss == structures@,
            ss == structures_upto(*planner, step, 2500),
            k <= ss.len(),
            rs == roads_upto(*planner, step, 2500),
            roads_joined(network_roots(*old(network)), ma, rs),
            targets_from(ma, mb, rs, kc, targets@),
            mb.contains_key(kc),
            kc == xy_key(center),
            forall|a: int| 0 <= a < ss.len() ==> xy_valid(#[trigger] ss[a]),
            network_roots(*network) == mb,
            far@ == unconnected(ss.take(k as int), center, mb.dom()),
        decreases ss.len() - k,
    {
        let s = structures[k];
        proof {
            let t = ss.take(k as int + 1);
            assert(t.drop_last() =~= ss.take(k as int));
            assert(t.last() == s);
        }
        if s != center {
            if !touches_network(network, s) {
                far.push(s);
            }
        }
        k = k + 1;
    }
    proof {
        assert(ss.take(k as int) =~= ss);
        assert(roads_joined(network_roots(*old(network)), ma, roads_upto(*planner, step, 2500)));
    }
    Ok(StepConnections { roads: targets, structures: far })
}

/// The network that connecting a plan starts from: the center alone.
pub fn new_network(center: RoomXY) -> (n: Network)
    ensures
        network_roots(n) == Map::<u64, u64>::empty().insert(xy_key(center), xy_key(center)),
{
    let kc: u64 = center.x as u64 * 256 + center.y as u64;
    network_new(kc).unwrap()
}

/// Through the first `n` turns of the roads against the center, every road that
/// had its turn is in the center's class, and the network keeps its keys.
proof fn lemma_turns_join(a: Map<u64, u64>, rs: Seq<RoomXY>, c: u64, ms: Seq<Map<u64, u64>>, n: int)
    requires
        center_chain(a, rs, c, ms),
        0 <= n <= rs.len(),
        a.contains_key(c),
        forall|i: int| 0 <= i < rs.len() ==> a.contains_key(xy_key(#[trigger] rs[i])),
    ensures
        ms[n].dom() == a.dom(),
        forall|j: int| 0 <= j < n ==> ms[n][xy_key(#[trigger] rs[j])] == ms[n][c],
    decreases n,
{
    if n > 0 {
        lemma_turns_join(a, rs, c, ms, n - 1);
        let k = n - 1;
        assert(center_step(ms[k], ms[k + 1], rs[k], c));
        let m = ms[k];
        let b = ms[k + 1];
        assert(b == ms[n]);
        let r = xy_key(rs[k]);
        assert(m.contains_key(r));
        if m[r] != m[c] {
            let root = choose|root: u64| #[trigger] merged_under(m, b, r, c, root);
            assert(merged_under(m, b, r, c, root));
            assert(b[c] == root);
            assert(b[r] == root);
            assert forall|j: int| 0 <= j < n implies b[xy_key(#[trigger] rs[j])] == b[c] by {
                if j < n - 1 {
                    assert(m.contains_key(xy_key(rs[j])));
                    assert(m[xy_key(rs[j])] == m[c]);
                }
            }
        }
    }
}

/// Law: connecting a step leaves every new road of it in the class of the center,
/// and the network keeps its keys.
pub proof fn law_roads_join_center(a: Map<u64, u64>, b: Map<u64, u64>, rs: Seq<RoomXY>, c: u64, ts: Seq<RoomXY>)
    requires
        targets_from(a, b, rs, c, ts),
        a.contains_key(c),
        forall|i: int| 0 <= i < rs.len() ==> a.contains_key(xy_key(#[trigger] rs[i])),
    ensures
        b.dom() == a.dom(),
        forall|i: int| 0 <= i < rs.len() ==> b[xy_key(#[trigger] rs[i])] == b[c],
{
    let ms = choose|ms: Seq<Map<u64, u64>>| #[trigger] center_chain(a, rs, c, ms) && ms.last() == b
        && ts == picked(ms, rs, c, rs.len());
    lemma_turns_join(a, rs, c, ms, rs.len() as int);
}

/// The plan keeps its terrain and structures, and every road it had: only roads
/// are added.
pub open spec fn roads_added(a: ColonyPlanner, b: ColonyPlanner) -> bool {
    &&& b.terrain() == a.terrain()
    &&& b.structures() == a.structures()
    &&& b.structure_steps() == a.structure_steps()
    &&& b.counts() == a.counts()
    &&& forall|k: u64| #[trigger] a.roads().contains_key(k) ==> b.roads().contains_key(k)
}

/// Plans roads from `center` to each of `targets` from `step` on, each along the
/// path `find_path` gives over the plan's path costs for the step at that moment.
fn roads_from_center<F: Fn(Vec<u8>, RoomXY, RoomXY) -> Vec<RoomXY>>(planner: &mut ColonyPlanner, center: RoomXY,
    targets: &Vec<RoomXY>, step: ColonyStep, find_path: &F)
    requires
        old(planner).wf(),
        forall|c: Vec<u8>, a: RoomXY, b: RoomXY| #[trigger] find_path.requires((c, a, b)),
        forall|c: Vec<u8>, a: RoomXY, b: RoomXY, p: Vec<RoomXY>| #[trigger] find_path.ensures((c, a, b), p)
            ==> forall|i: int| 0 <= i < p@.len() ==> xy_valid(#[trigger] p@[i]),
    ensures
        final(planner).wf(),
        roads_added(*old(planner), *final(planner)),
{
    let mut i: usize = 0;
    while i < targets.len()
        invariant
            planner.wf(),
            roads_added(*old(planner), *planner),
            forall|c: Vec<u8>, a: RoomXY, b: RoomXY| #[trigger] find_path.requires((c, a, b)),
            forall|c: Vec<u8>, a: RoomXY, b: RoomXY, p: Vec<RoomXY>| #[trigger] find_path.ensures((c, a, b), p)
                ==> forall|i: int| 0 <= i < p@.len() ==> xy_valid(#[trigger] p@[i]),
        decreases targets@.len() - i,
    {
        let costs = planner.path_costs(step);
        let path = find_path(costs, center, targets[i]);
        planner.plan_road_along(&path, step);
        i = i + 1;
    }
}

/// Makes every road and structure of the plan reachable from `center`: step by
/// step, `connect_step` joins the step's new roads to the network, and a road
/// from the center is planned, along the path `find_path` gives over the plan's
/// path costs for the step, to each road and structure it names. It fails with
/// the first new road that is already in the network. The path finder is the
/// caller's: it is asked only for paths of tiles of the room.
pub fn connect_plan<F: Fn(Vec<u8>, RoomXY, RoomXY) -> Vec<RoomXY>>(planner: &mut ColonyPlanner, center: RoomXY, find_path: F)
    -> (r: Result<(), RoomXY>)
    requires
        old(planner).wf(),
        forall|c: Vec<u8>, a: RoomXY, b: RoomXY| #[trigger] find_path.requires((c, a, b)),
        forall|c: Vec<u8>, a: RoomXY, b: RoomXY, p: Vec<RoomXY>| #[trigger] find_path.ensures((c, a, b), p)
            ==> forall|i: int| 0 <= i < p@.len() ==> xy_valid(#[trigger] p@[i]),
    ensures
        final(planner).wf(),
        roads_added(*old(planner), *final(planner)),
        r matches Err(t) ==> final(planner).roads().contains_key(xy_key(t)),
{
    let mut network = new_network(center);
    let mut i: u8 = 0;
    while i < STEP_COUNT
        invariant
            planner.wf(),
            roads_added(*old(planner), *planner),
            network_roots(network).contains_key(xy_key(center)),
            forall|c: Vec<u8>, a: RoomXY, b: RoomXY| #[trigger] find_path.requires((c, a, b)),
            forall|c: Vec<u8>, a: RoomXY, b: RoomXY, p: Vec<RoomXY>| #[trigger] find_path.ensures((c, a, b), p)
                ==> forall|i: int| 0 <= i < p@.len() ==> xy_valid(#[trigger] p@[i]),
        decreases STEP_COUNT - i,
    {
        let step = match ColonyStep::from_repr(i) {
            Some(s) => s,
            None => {
                i = i + 1;
                continue;
            },
        };
        let ghost n0 = network_roots(network);
        let connections = match connect_step(&mut network, planner, center, step) {
            Ok(c) => c,
            Err(t) => {
                proof {
                    let ghost rs = roads_upto(*planner, step, 2500);
                    let (j, m) = choose|j: int, m: Map<u64, u64>| 0 <= j < rs.len()
                        && #[trigger] roads_joined(n0, m, rs.take(j))
                        && m.contains_key(xy_key(rs[j])) && t == rs[j];
                    lemma_roads_upto_are_roads(*planner, step, 2500);
                    assert(road_of_step(*planner, step, rs[j]));
                }
                return Err(t);
            },
        };
        let ghost before = *planner;
        roads_from_center(planner, center, &connections.roads, step, &find_path);
        let ghost mid = *planner;
        roads_from_center(planner, center, &connections.structures, step, &find_path);
        proof {
            assert(roads_added(before, mid) && roads_added(mid, *planner));
        }
        i = i + 1;
    }
    Ok(())
}

/// Every tile listed as a road of a step holds a road of that step.
proof fn lemma_roads_upto_are_roads(pl: ColonyPlanner, step: ColonyStep, t: nat)
    ensures
        forall|i: int| 0 <= i < roads_upto(pl, step, t).len() ==> #[trigger] road_of_step(pl, step, roads_upto(pl, step, t)[i]),
    decreases t,
{
    if t > 0 {
        lemma_roads_upto_are_roads(pl, step, (t - 1) as nat);
        let before = roads_upto(pl, step, (t - 1) as nat);
        assert forall|i: int| 0 <= i < roads_upto(pl, step, t).len() implies #[trigger] road_of_step(pl, step, roads_upto(pl, step, t)[i]) by {
            if i < before.len() {
                assert(roads_upto(pl, step, t)[i] == before[i]);
            }
        }
    }
}

} // verus!
