//! Observation of which writer lane owns each route key of a query: a
//! route key must be written by one lane only, so a second lane reporting
//! the same key of the same query is a routing error.
use crate::error::PaimonError;
use vstd::prelude::*;

verus! {

/// The owner recorded for a route (query id and route key): an executor id
/// and a lane id.
pub open spec fn observe_outcome(
    owners: Map<(Seq<char>, Seq<u8>), (Seq<char>, u64)>,
    route: (Seq<char>, Seq<u8>),
    lane: (Seq<char>, u64),
) -> Option<Map<(Seq<char>, Seq<u8>), (Seq<char>, u64)>> {
    if owners.contains_key(route) {
        if owners[route] == lane {
            Some(owners)
        } else {
            None
        }
    } else {
        Some(owners.insert(route, lane))
    }
}

/// Once a lane has been recorded for a route, any other lane reporting the
/// same route is rejected.
pub proof fn lemma_second_lane_rejected(
    owners: Map<(Seq<char>, Seq<u8>), (Seq<char>, u64)>,
    route: (Seq<char>, Seq<u8>),
    first: (Seq<char>, u64),
    second: (Seq<char>, u64),
)
    requires
        observe_outcome(owners, route, first) is Some,
        first != second,
    ensures
        observe_outcome(observe_outcome(owners, route, first)->Some_0, route, second) is None,
{
}

/// Reporting the same lane for a route again is accepted and records nothing new.
pub proof fn lemma_same_lane_idempotent(
    owners: Map<(Seq<char>, Seq<u8>), (Seq<char>, u64)>,
    route: (Seq<char>, Seq<u8>),
    lane: (Seq<char>, u64),
)
    requires
        observe_outcome(owners, route, lane) is Some,
    ensures
        observe_outcome(observe_outcome(owners, route, lane)->Some_0, route, lane)
            == observe_outcome(owners, route, lane),
{
}

/// The owner map and the accepted/rejected outcomes of a run of
/// observations (route, lane) made one after another on an empty registry,
/// as after a reset.
pub open spec fn observe_run(
    obs: Seq<((Seq<char>, Seq<u8>), (Seq<char>, u64))>,
) -> (Map<(Seq<char>, Seq<u8>), (Seq<char>, u64)>, Seq<bool>)
    decreases obs.len(),
{
    if obs.len() == 0 {
        (Map::empty(), Seq::empty())
    } else {
        let prev = observe_run(obs.drop_last());
        match observe_outcome(prev.0, obs.last().0, obs.last().1) {
            Some(owners) => (owners, prev.1.push(true)),
            None => (prev.0, prev.1.push(false)),
        }
    }
}

/// Over a run of observations since a reset (a registry's `observed()`,
/// whose outcomes and owners `observe_route_lane` reports as those of the
/// run): an observation is rejected
/// exactly when an earlier accepted observation of the same route had
/// another lane (so observations of different routes never conflict); every
/// accepted observation's lane is the route's recorded owner, which thus
/// never changes; and the recorded routes, a finite set, are exactly the
/// routes of the accepted observations, so the registry's count is the
/// number of distinct routes accepted.
pub proof fn lemma_lane_run(obs: Seq<((Seq<char>, Seq<u8>), (Seq<char>, u64))>)
    ensures
        observe_run(obs).1.len() == obs.len(),
        observe_run(obs).0.dom().finite(),
        forall|route: (Seq<char>, Seq<u8>)| #[trigger] observe_run(obs).0.contains_key(route)
            <==> exists|j: int| 0 <= j < obs.len() && observe_run(obs).1[j] && obs[j].0 == route,
        forall|j: int| 0 <= j < obs.len() && #[trigger] observe_run(obs).1[j]
            ==> observe_run(obs).0[obs[j].0] == obs[j].1,
        forall|k: int| 0 <= k < obs.len() ==> (!#[trigger] observe_run(obs).1[k] <==> exists|j: int|
            0 <= j < k && observe_run(obs).1[j] && obs[j].0 == obs[k].0 && obs[j].1 != obs[k].1),
    decreases obs.len(),
{
    if obs.len() > 0 {
        let prefix = obs.drop_last();
        lemma_lane_run(prefix);
        let m0 = observe_run(prefix).0;
        let acc0 = observe_run(prefix).1;
        let m = observe_run(obs).0;
        let acc = observe_run(obs).1;
        let n = obs.len() - 1;
        let r = obs.last().0;
        let o = obs.last().1;
        assert(obs[n] == obs.last());
        assert forall|j: int| 0 <= j < n implies acc[j] == acc0[j] && obs[j] == prefix[j] by {}
        assert forall|route: (Seq<char>, Seq<u8>)| #[trigger] m.contains_key(route)
            <==> exists|j: int| 0 <= j < obs.len() && acc[j] && obs[j].0 == route by {
            if m.contains_key(route) {
                if m0.contains_key(route) {
                    let j = choose|j: int| 0 <= j < prefix.len() && acc0[j] && prefix[j].0 == route;
                    assert(acc[j] && obs[j].0 == route);
                } else {
                    assert(route == r);
                    assert(acc[n] && obs[n].0 == route);
                }
            }
            if exists|j: int| 0 <= j < obs.len() && acc[j] && obs[j].0 == route {
                let j = choose|j: int| 0 <= j < obs.len() && acc[j] && obs[j].0 == route;
                if j < n {
                    assert(acc0[j] && prefix[j].0 == route);
                    assert(m0.contains_key(route));
                }
            }
        }
        assert forall|j: int| 0 <= j < obs.len() && #[trigger] acc[j] implies m[obs[j].0] == obs[j].1 by {
            if j < n {
                assert(acc0[j]);
                assert(m0.contains_key(prefix[j].0));
                assert(m0[prefix[j].0] == prefix[j].1);
            }
        }
        assert forall|k: int| 0 <= k < obs.len() implies (!#[trigger] acc[k] <==> exists|j: int|
            0 <= j < k && acc[j] && obs[j].0 == obs[k].0 && obs[j].1 != obs[k].1) by {
            if k < n {
                assert(acc[k] == acc0[k]);
                if exists|j: int| 0 <= j < k && acc[j] && obs[j].0 == obs[k].0 && obs[j].1 != obs[k].1 {
                    let j = choose|j: int| 0 <= j < k && acc[j] && obs[j].0 == obs[k].0 && obs[j].1 != obs[k].1;
                    assert(acc0[j] && prefix[j].0 == prefix[k].0 && prefix[j].1 != prefix[k].1);
                }
                if !acc[k] {
                    let j = choose|j: int| 0 <= j < k && acc0[j] && prefix[j].0 == prefix[k].0 && prefix[j].1 != prefix[k].1;
                    assert(acc[j] && obs[j].0 == obs[k].0 && obs[j].1 != obs[k].1);
                }
            } else {
                assert(k == n);
                if m0.contains_key(r) {
                    let w = choose|j: int| 0 <= j < prefix.len() && acc0[j] && prefix[j].0 == r;
                    assert(m0[prefix[w].0] == prefix[w].1);
                    if m0[r] != o {
                        assert(acc[w] && obs[w].0 == obs[k].0 && obs[w].1 != obs[k].1);
                    } else {
                        if exists|j: int| 0 <= j < k && acc[j] && obs[j].0 == obs[k].0 && obs[j].1 != obs[k].1 {
                            let j = choose|j: int| 0 <= j < k && acc[j] && obs[j].0 == obs[k].0 && obs[j].1 != obs[k].1;
                            assert(acc0[j]);
                            assert(m0[prefix[j].0] == prefix[j].1);
                        }
                    }
                } else {
                    if exists|j: int| 0 <= j < k && acc[j] && obs[j].0 == obs[k].0 && obs[j].1 != obs[k].1 {
                        let j = choose|j: int| 0 <= j < k && acc[j] && obs[j].0 == obs[k].0 && obs[j].1 != obs[k].1;
                        assert(acc0[j] && prefix[j].0 == r);
                    }
                }
            }
        }
    }
}

/// A recorded owner of a route.
pub struct LaneObservation {
    query_id: String,
    route_key: Vec<u8>,
    executor_id: String,
    lane_id: u64,
}

impl LaneObservation {
    pub closed spec fn route(self) -> (Seq<char>, Seq<u8>) {
        (self.query_id@, self.route_key@)
    }

    pub closed spec fn owner(self) -> (Seq<char>, u64) {
        (self.executor_id@, self.lane_id)
    }
}

/// The owners recorded by a list of observations, later ones overriding.
pub open spec fn owners_of(entries: Seq<LaneObservation>) -> Map<(Seq<char>, Seq<u8>), (Seq<char>, u64)>
    decreases entries.len(),
{
    if entries.len() == 0 {
        Map::empty()
    } else {
        owners_of(entries.drop_last()).insert(entries.last().route(), entries.last().owner())
    }
}

/// No route occurs twice among the observations.
pub open spec fn routes_distinct(entries: Seq<LaneObservation>) -> bool {
    forall|i: int, j: int| 0 <= i < j < entries.len() ==> entries[i].route() != entries[j].route()
}

proof fn lemma_owners_of_finite(entries: Seq<LaneObservation>)
    ensures
        owners_of(entries).dom().finite(),
    decreases entries.len(),
{
    if entries.len() > 0 {
        lemma_owners_of_finite(entries.drop_last());
    }
}

/// The recorded owners of a registry form a finite map.
pub proof fn lemma_owners_finite(lanes: LaneObservations)
    ensures
        lanes.owners().dom().finite(),
{
    lemma_owners_of_finite(lanes.owners.entries@);
}

proof fn lemma_owners_of(entries: Seq<LaneObservation>)
    requires
        routes_distinct(entries),
    ensures
        owners_of(entries).dom().finite(),
        owners_of(entries).len() == entries.len(),
        forall|k: (Seq<char>, Seq<u8>)| #[trigger] owners_of(entries).contains_key(k)
            <==> exists|i: int| 0 <= i < entries.len() && entries[i].route() == k,
        forall|i: int| 0 <= i < entries.len() ==> #[trigger] owners_of(entries)[entries[i].route()] == entries[i].owner(),
    decreases entries.len(),
{
    if entries.len() > 0 {
        let prefix = entries.drop_last();
        assert(routes_distinct(prefix));
        lemma_owners_of(prefix);
        let last = entries.last();
        assert(!owners_of(prefix).contains_key(last.route())) by {
            if owners_of(prefix).contains_key(last.route()) {
                let i = choose|i: int| 0 <= i < prefix.len() && prefix[i].route() == last.route();
                assert(entries[i].route() == entries[entries.len() - 1].route());
            }
        }
        assert forall|k: (Seq<char>, Seq<u8>)| #[trigger] owners_of(entries).contains_key(k)
            <==> exists|i: int| 0 <= i < entries.len() && entries[i].route() == k by {
            if owners_of(entries).contains_key(k) && k != last.route() {
                let i = choose|i: int| 0 <= i < prefix.len() && prefix[i].route() == k;
                assert(entries[i].route() == k);
            }
            if exists|i: int| 0 <= i < entries.len() && entries[i].route() == k {
                let i = choose|i: int| 0 <= i < entries.len() && entries[i].route() == k;
                if i < entries.len() - 1 {
                    assert(prefix[i].route() == k);
                }
            }
        }
        assert forall|i: int| 0 <= i < entries.len() implies #[trigger] owners_of(entries)[entries[i].route()]
            == entries[i].owner() by {
            if i < entries.len() - 1 {
                assert(prefix[i] == entries[i]);
            }
        }
    }
}

/// One observation: a route (query id, route key) and the lane (executor
/// id, lane id) that reported it.
pub type Observation = ((Seq<char>, Seq<u8>), (Seq<char>, u64));

/// The lane id handed out by the `n`-th request (counting from 0) since the
/// registry was made or last reset: ids count up from 1 and wrap at
/// `u64::MAX`.
pub open spec fn lane_id_at(n: nat) -> u64 {
    ((n + 1) % 0x1_0000_0000_0000_0000) as u64
}

/// The ids handed out by `n` requests since the registry was made or last
/// reset, in order.
pub open spec fn lane_ids_issued(n: nat) -> Seq<u64> {
    Seq::new(n, |i: int| lane_id_at(i as nat))
}

proof fn lemma_lane_id_step(n: nat)
    ensures
        lane_id_at(n + 1) == (if lane_id_at(n) == u64::MAX { 0u64 } else { (lane_id_at(n) + 1) as u64 }),
{
    let m: int = 0x1_0000_0000_0000_0000;
    let x: int = (n + 1) as int;
    vstd::arithmetic::div_mod::lemma_fundamental_div_mod(x, m);
    let q = x / m;
    let r = x % m;
    if r + 1 < m {
        vstd::arithmetic::div_mod::lemma_fundamental_div_mod_converse(x + 1, m, q, r + 1);
    } else {
        vstd::arithmetic::div_mod::lemma_fundamental_div_mod_converse(x + 1, m, q + 1, 0);
    }
}

/// Lane ids stay unique between resets: fewer than 2^64 requests since the
/// registry was made or last reset hand out ids that are at least 1 and
/// strictly increase, so no two are equal.
pub proof fn lemma_lane_ids_unique(n: nat)
    requires
        n <= u64::MAX,
    ensures
        forall|i: int| 0 <= i < n ==> #[trigger] lane_ids_issued(n)[i] == i + 1,
        forall|i: int, j: int|
            0 <= i < j < n ==> 1 <= #[trigger] lane_ids_issued(n)[i] < #[trigger] lane_ids_issued(n)[j],
{
    assert forall|i: int| 0 <= i < n implies #[trigger] lane_ids_issued(n)[i] == i + 1 by {
        vstd::arithmetic::div_mod::lemma_small_mod((i + 1) as nat, 0x1_0000_0000_0000_0000nat);
    }
    assert forall|i: int, j: int| 0 <= i < j < n implies 1 <= #[trigger] lane_ids_issued(n)[i]
        < #[trigger] lane_ids_issued(n)[j] by {
        vstd::arithmetic::div_mod::lemma_small_mod((i + 1) as nat, 0x1_0000_0000_0000_0000nat);
        vstd::arithmetic::div_mod::lemma_small_mod((j + 1) as nat, 0x1_0000_0000_0000_0000nat);
    }
}

/// The recorded owners, with every observation made since the registry was
/// made or last reset.
struct OwnerTable {
    entries: Vec<LaneObservation>,
    observed: Ghost<Seq<Observation>>,
}

impl OwnerTable {
    spec fn wf(self) -> bool {
        &&& routes_distinct(self.entries@)
        &&& owners_of(self.entries@) == observe_run(self.observed@).0
    }

    fn empty() -> (t: Self)
        ensures
            t.entries@ == Seq::<LaneObservation>::empty(),
            t.observed@ == Seq::<Observation>::empty(),
            t.wf(),
    {
        let t = OwnerTable { entries: Vec::new(), observed: Ghost(Seq::empty()) };
        assert(owners_of(t.entries@) =~= observe_run(t.observed@).0);
        t
    }
}

/// The next lane id, with the number of ids handed out since the registry
/// was made or last reset.
struct LaneCounter {
    next: u64,
    handed_out: Ghost<nat>,
}

/// The lane-ownership registry: the recorded owner of every route, and the
/// next lane id to hand out.
pub struct LaneObservations {
    owners: OwnerTable,
    counter: LaneCounter,
}

impl LaneObservations {
    #[verifier::type_invariant]
    closed spec fn inv(self) -> bool {
        &&& self.owners.wf()
        &&& self.counter.next == lane_id_at(self.counter.handed_out@)
    }

    /// The recorded owner (executor id, lane id) of each (query id, route key).
    pub closed spec fn owners(self) -> Map<(Seq<char>, Seq<u8>), (Seq<char>, u64)> {
        owners_of(self.owners.entries@)
    }

    /// Every observation reported since the registry was made or last
    /// reset, accepted or not, in order.
    pub closed spec fn observed(self) -> Seq<Observation> {
        self.owners.observed@
    }

    /// The number of lane ids handed out since the registry was made or
    /// last reset.
    pub closed spec fn lane_calls(self) -> nat {
        self.counter.handed_out@
    }

    /// The lane id that will be handed out next.
    pub closed spec fn next_lane(self) -> u64 {
        self.counter.next
    }

    /// An empty registry whose first lane id is 1.
    pub fn new() -> (r: Self)
        ensures
            r.owners() == Map::<(Seq<char>, Seq<u8>), (Seq<char>, u64)>::empty(),
            r.observed() == Seq::<Observation>::empty(),
            r.lane_calls() == 0,
            r.next_lane() == 1,
    {
        LaneObservations { owners: OwnerTable::empty(), counter: LaneCounter { next: 1, handed_out: Ghost(0) } }
    }
}

fn bytes_equal(a: &Vec<u8>, b: &[u8]) -> (r: bool)
    ensures
        r == (a@ == b@),
{
    if a.len() != b.len() {
        return false;
    }
    let n = a.len();
    for i in 0..n
        invariant
            n == a@.len(),
            n == b@.len(),
            forall|k: int| 0 <= k < i ==> a@[k] == b@[k],
    {
        if a[i] != b[i] {
            return false;
        }
    }
    assert(a@ =~= b@);
    true
}

fn copy_bytes(b: &[u8]) -> (r: Vec<u8>)
    ensures
        r@ == b@,
{
    let mut r: Vec<u8> = Vec::new();
    let n = b.len();
    for i in 0..n
        invariant
            n == b@.len(),
            r@ == b@.subrange(0, i as int),
    {
        r.push(b[i]);
        assert(b@.subrange(0, i + 1) =~= b@.subrange(0, i as int).push(b@[i as int]));
    }
    assert(b@.subrange(0, n as int) =~= b@);
    r
}

/// Records the observation in the table: the first report of a route
/// records its owner; a later report with the same owner is accepted; a
/// later report with another owner is rejected and changes no owner.
fn record_observation(
    table: &mut OwnerTable,
    query_id: &str,
    route_key: &[u8],
    executor_id: &str,
    lane_id: u64,
) -> (r: Result<(), PaimonError>)
    requires
        old(table).wf(),
    ensures
        final(table).wf(),
        final(table).observed@ == old(table).observed@.push(((query_id@, route_key@), (executor_id@, lane_id))),
        ({
            let outcome = observe_outcome(
                owners_of(old(table).entries@),
                (query_id@, route_key@),
                (executor_id@, lane_id),
            );
            match outcome {
                Some(owners) => r is Ok && owners_of(final(table).entries@) == owners,
                None => owners_of(final(table).entries@) == owners_of(old(table).entries@) && (r matches Err(
                    PaimonError::RouteLaneConflict { query_id: q, previous_executor: pe, previous_lane: pl, executor: e, lane: l },
                ) && q@ == query_id@ && e@ == executor_id@ && l == lane_id
                    && (pe@, pl) == owners_of(old(table).entries@)[(query_id@, route_key@)]),
            }
        }),
{
    proof {
        lemma_owners_of(table.entries@);
    }
    let query = query_id.to_owned();
    let executor = executor_id.to_owned();
    let ghost route = (query_id@, route_key@);
    let ghost observation = (route, (executor_id@, lane_id));
    let ghost observed = table.observed@.push(observation);
    assert(observed.drop_last() =~= table.observed@);
    assert(observed.last() == observation);
    let n = table.entries.len();
    for i in 0..n
        invariant
            n == table.entries@.len(),
            *table == *old(table),
            table.wf(),
            query@ == query_id@,
            executor@ == executor_id@,
            route == (query_id@, route_key@),
            observation == (route, (executor_id@, lane_id)),
            observed == table.observed@.push(observation),
            observed.drop_last() == table.observed@,
            observed.last() == observation,
            forall|k: int| 0 <= k < i ==> (#[trigger] table.entries@[k]).route() != route,
    {
        let entry = &table.entries[i];
        if entry.query_id == query && bytes_equal(&entry.route_key, route_key) {
            proof {
                lemma_owners_of(table.entries@);
                assert(entry.route() == route);
                assert(owners_of(table.entries@)[table.entries@[i as int].route()] == table.entries@[i as int].owner());
            }
            if entry.executor_id == executor && entry.lane_id == lane_id {
                proof {
                    table.observed@ = observed;
                }
                return Ok(());
            }
            let previous_executor = entry.executor_id.clone();
            let previous_lane = entry.lane_id;
            proof {
                table.observed@ = observed;
            }
            return Err(PaimonError::RouteLaneConflict {
                query_id: query,
                previous_executor,
                previous_lane,
                executor,
                lane: lane_id,
            });
        }
    }
    let ghost old_entries = table.entries@;
    let recorded = LaneObservation {
        query_id: query,
        route_key: copy_bytes(route_key),
        executor_id: executor,
        lane_id,
    };
    assert(recorded.route() == route);
    table.entries.push(recorded);
    assert(table.entries@.drop_last() =~= old_entries);
    proof {
        table.observed@ = observed;
        assert forall|i: int, j: int| 0 <= i < j < table.entries@.len() implies table.entries@[i].route()
            != table.entries@[j].route() by {
            if j == table.entries@.len() - 1 {
                assert(old_entries[i] == table.entries@[i]);
            } else {
                assert(old_entries[i] == table.entries@[i] && old_entries[j] == table.entries@[j]);
            }
        }
    }
    Ok(())
}

/// Records that `route_key` of `query_id` is written by lane `lane_id` of
/// executor `executor_id`. The first report of a route records its owner;
/// a later report with the same owner is accepted; a later report with
/// another owner is rejected with `RouteLaneConflict` and changes nothing.
/// Every report joins the observations since the last reset, and the owners
/// and this report's outcome are those of that run of observations.
pub fn observe_route_lane(
    lanes: &mut LaneObservations,
    query_id: &str,
    route_key: &[u8],
    executor_id: &str,
    lane_id: u64,
) -> (r: Result<(), PaimonError>)
    ensures
        final(lanes).next_lane() == old(lanes).next_lane(),
        final(lanes).lane_calls() == old(lanes).lane_calls(),
        final(lanes).owners().dom().finite(),
        final(lanes).observed() == old(lanes).observed().push(((query_id@, route_key@), (executor_id@, lane_id))),
        final(lanes).owners() == observe_run(final(lanes).observed()).0,
        (r is Ok) == observe_run(final(lanes).observed()).1.last(),
        ({
            let outcome = observe_outcome(
                old(lanes).owners(),
                (query_id@, route_key@),
                (executor_id@, lane_id),
            );
            match outcome {
                Some(owners) => r is Ok && final(lanes).owners() == owners,
                None => final(lanes).owners() == old(lanes).owners() && (r matches Err(
                    PaimonError::RouteLaneConflict { query_id: q, previous_executor: pe, previous_lane: pl, executor: e, lane: l },
                ) && q@ == query_id@ && e@ == executor_id@ && l == lane_id
                    && (pe@, pl) == old(lanes).owners()[(query_id@, route_key@)]),
            }
        }),
{
    proof {
        use_type_invariant(&*lanes);
    }
    let mut table = OwnerTable::empty();
    std::mem::swap(&mut table, &mut lanes.owners);
    let r = record_observation(&mut table, query_id, route_key, executor_id, lane_id);
    proof {
        lemma_owners_of_finite(table.entries@);
        let obs = table.observed@;
        assert(obs.drop_last() =~= old(lanes).owners.observed@);
    }
    lanes.owners = table;
    r
}

/// Hands out the next lane id; ids count up from 1, wrapping at `u64::MAX`,
/// so the ids handed out since the last reset are `lane_ids_issued` of
/// their number.
pub fn next_lane_id_for_test(lanes: &mut LaneObservations) -> (id: u64)
    ensures
        id == old(lanes).next_lane(),
        id == lane_id_at(old(lanes).lane_calls()),
        final(lanes).lane_calls() == old(lanes).lane_calls() + 1,
        lane_ids_issued(final(lanes).lane_calls()) == lane_ids_issued(old(lanes).lane_calls()).push(id),
        final(lanes).next_lane() == (if id == u64::MAX { 0 } else { (id + 1) as u64 }),
        final(lanes).owners() == old(lanes).owners(),
        final(lanes).observed() == old(lanes).observed(),
{
    proof {
        use_type_invariant(&*lanes);
        lemma_lane_id_step(lanes.counter.handed_out@);
    }
    let id = lanes.counter.next;
    let ghost handed_out = lanes.counter.handed_out@;
    lanes.counter = LaneCounter { next: id.wrapping_add(1), handed_out: Ghost(handed_out + 1) };
    assert(lane_ids_issued(handed_out + 1) =~= lane_ids_issued(handed_out).push(id));
    id
}

/// Forgets every recorded owner and every observation, and restarts lane
/// ids at 1.
pub fn reset_lane_observations_for_test(lanes: &mut LaneObservations)
    ensures
        final(lanes).owners() == Map::<(Seq<char>, Seq<u8>), (Seq<char>, u64)>::empty(),
        final(lanes).observed() == Seq::<Observation>::empty(),
        final(lanes).lane_calls() == 0,
        final(lanes).next_lane() == 1,
{
    proof {
        use_type_invariant(&*lanes);
    }
    lanes.owners = OwnerTable::empty();
    lanes.counter = LaneCounter { next: 1, handed_out: Ghost(0) };
}

/// The number of routes with a recorded owner: the number of distinct
/// routes accepted since the last reset.
pub fn lane_observation_count_for_test(lanes: &LaneObservations) -> (count: usize)
    ensures
        count == lanes.owners().len(),
        count == observe_run(lanes.observed()).0.len(),
        lanes.owners().dom().finite(),
{
    proof {
        use_type_invariant(lanes);
        lemma_owners_of(lanes.owners.entries@);
    }
    lanes.owners.entries.len()
}

} // verus!
