//! What the balancer learns of a backend, and what that changes in the registry.

use crate::counter::{lemma_wrapped_down, lemma_wrapped_fits, lemma_wrapped_up, wrapped};
use crate::registry::{addresses, ids_apart, place_of, stands_at, Backend, BackendRegistry, BREAKER_THRESHOLD};
use vstd::prelude::*;

verus! {

/// How often every backend is health-checked, in seconds.
pub const PROBE_INTERVAL_SECS: u64 = 5;

/// How long a health check waits for a connection, in seconds.
pub const PROBE_TIMEOUT_SECS: u64 = 1;

/// Something that was learnt of the backend at a position.
pub enum Change {
    /// A request is on its way to the backend.
    Connected { at: int },
    /// The backend is done with a request, or has failed it.
    Released { at: int },
    /// The backend answered a request.
    Answered { at: int },
    /// The backend failed a request.
    Failed { at: int },
    /// A health check reached the backend, or did not.
    Probed { at: int, reachable: bool },
}

impl Change {
    /// The position that the change is about.
    pub open spec fn at(self) -> int {
        match self {
            Change::Connected { at } => at,
            Change::Released { at } => at,
            Change::Answered { at } => at,
            Change::Failed { at } => at,
            Change::Probed { at, .. } => at,
        }
    }

    /// The backend `b` once the change is known.
    pub open spec fn on(self, b: Backend) -> Backend {
        match self {
            Change::Connected { .. } => Backend {
                active_connections: wrapped(b.active_connections + 1),
                ..b
            },
            Change::Released { .. } => Backend {
                active_connections: wrapped(b.active_connections - 1),
                ..b
            },
            Change::Answered { .. } => Backend { consecutive_errors: 0, ..b },
            Change::Failed { .. } => Backend {
                consecutive_errors: wrapped(b.consecutive_errors + 1),
                is_alive: b.is_alive && wrapped(b.consecutive_errors + 1) < BREAKER_THRESHOLD,
                ..b
            },
            Change::Probed { reachable, .. } => if reachable {
                Backend { is_alive: true, consecutive_errors: 0, ..b }
            } else {
                Backend { is_alive: false, ..b }
            },
        }
    }
}

/// The backends once `change` is known: at most the one that it is about differs.
pub open spec fn changed(backends: Seq<Backend>, change: Change) -> Seq<Backend> {
    if 0 <= change.at() < backends.len() {
        backends.update(change.at(), change.on(backends[change.at()]))
    } else {
        backends
    }
}

/// The backends once `changes` are known, one after the other.
pub open spec fn run(backends: Seq<Backend>, changes: Seq<Change>) -> Seq<Backend>
    decreases changes.len(),
{
    if changes.len() == 0 {
        backends
    } else {
        changed(run(backends, changes.drop_last()), changes.last())
    }
}

/// How many of `changes` are `wanted`.
pub open spec fn times(changes: Seq<Change>, wanted: Change) -> int
    decreases changes.len(),
{
    if changes.len() == 0 {
        0
    } else {
        times(changes.drop_last(), wanted) + if changes.last() == wanted {
            1int
        } else {
            0
        }
    }
}

/// The active connections of all backends together.
pub open spec fn total_active(backends: Seq<Backend>) -> nat
    decreases backends.len(),
{
    if backends.len() == 0 {
        0
    } else {
        total_active(backends.drop_last()) + backends.last().active_connections as nat
    }
}

/// A live backend has failed fewer requests in a row than trip the breaker.
pub open spec fn breaker_kept(backends: Seq<Backend>) -> bool {
    forall|i: int|
        0 <= i < backends.len() && (#[trigger] backends[i]).is_alive ==> backends[i].consecutive_errors
            < BREAKER_THRESHOLD
}

impl BackendRegistry {
    /// Whether the backends together have at least `max` active connections.
    pub fn at_capacity(&self, max: usize) -> (res: bool)
        ensures
            res == (total_active(self.backends@) >= max),
    {
        let mut left: usize = max;
        let mut i: usize = 0;
        while i < self.backends.len()
            invariant
                i <= self.backends@.len(),
                left + total_active(self.backends@.take(i as int)) == max,
            decreases self.backends@.len() - i,
        {
            assert(self.backends@.take(i + 1).drop_last() == self.backends@.take(i as int));
            let active: usize = self.backends[i].active_connections;
            if active >= left {
                proof {
                    lemma_total_grows(self.backends@, i + 1);
                }
                return true;
            }
            left -= active;
            i += 1;
        }
        assert(self.backends@.take(i as int) == self.backends@);
        left == 0
    }

    /// Counts a request that is on its way to the backend at `at`.
    pub fn connect(&mut self, at: usize)
        requires
            at < old(self).backends@.len(),
        ensures
            final(self).backends@ == changed(old(self).backends@, Change::Connected { at: at as int }),
            final(self).curr == old(self).curr,
            final(self).next_id == old(self).next_id,
    {
        proof {
            lemma_wrapped_fits(self.backends@[at as int].active_connections as int);
            lemma_wrapped_up(self.backends@[at as int].active_connections as int);
        }
        self.backends[at].active_connections = self.backends[at].active_connections.wrapping_add(1);
    }

    /// Counts off a request that the backend at `at` is done with.
    pub fn release(&mut self, at: usize)
        requires
            at < old(self).backends@.len(),
        ensures
            final(self).backends@ == changed(old(self).backends@, Change::Released { at: at as int }),
            final(self).curr == old(self).curr,
            final(self).next_id == old(self).next_id,
    {
        proof {
            lemma_wrapped_fits(self.backends@[at as int].active_connections as int);
            lemma_wrapped_down(self.backends@[at as int].active_connections as int);
        }
        self.backends[at].active_connections = self.backends[at].active_connections.wrapping_sub(1);
    }

    /// Notes a good answer of the backend at `at`: its failures in a row are forgotten.
    pub fn record_answer(&mut self, at: usize)
        requires
            at < old(self).backends@.len(),
        ensures
            final(self).backends@ == changed(old(self).backends@, Change::Answered { at: at as int }),
            final(self).curr == old(self).curr,
            final(self).next_id == old(self).next_id,
    {
        self.backends[at].consecutive_errors = 0;
    }

    /// Notes a failed request of the backend at `at`, and takes the backend out of rotation if it
    /// has now failed too many in a row. Gives the failures in a row.
    pub fn record_failure(&mut self, at: usize) -> (errors: usize)
        requires
            at < old(self).backends@.len(),
            old(self).backends@[at as int].consecutive_errors < usize::MAX,
        ensures
            errors == old(self).backends@[at as int].consecutive_errors + 1,
            final(self).backends@ == changed(old(self).backends@, Change::Failed { at: at as int }),
            final(self).curr == old(self).curr,
            final(self).next_id == old(self).next_id,
    {
        let errors: usize = self.backends[at].consecutive_errors + 1;
        proof {
            lemma_wrapped_fits(errors as int);
        }
        self.backends[at].consecutive_errors = errors;
        if errors >= BREAKER_THRESHOLD {
            self.backends[at].is_alive = false;
        }
        errors
    }

    /// Notes whether a health check reached the backend at `at`: one that was reached is live again
    /// with a clean record, one that was not is taken out of rotation.
    pub fn record_probe(&mut self, at: usize, reachable: bool)
        requires
            at < old(self).backends@.len(),
        ensures
            final(self).backends@ == changed(
                old(self).backends@,
                Change::Probed { at: at as int, reachable },
            ),
            final(self).curr == old(self).curr,
            final(self).next_id == old(self).next_id,
    {
        if reachable {
            self.backends[at].is_alive = true;
            self.backends[at].consecutive_errors = 0;
        } else {
            self.backends[at].is_alive = false;
        }
    }
}

/// Fewer backends have no more active connections.
proof fn lemma_total_grows(backends: Seq<Backend>, k: int)
    requires
        0 <= k <= backends.len(),
    ensures
        total_active(backends.take(k)) <= total_active(backends),
    decreases backends.len(),
{
    if k == backends.len() {
        assert(backends.take(k) == backends);
    } else {
        lemma_total_grows(backends.drop_last(), k);
        assert(backends.drop_last().take(k) == backends.take(k));
    }
}

/// The total changes by as much as one of its parts.
proof fn lemma_total_of_update(backends: Seq<Backend>, at: int, b: Backend)
    requires
        0 <= at < backends.len(),
    ensures
        total_active(backends.update(at, b)) == total_active(backends) - backends[at].active_connections
            + b.active_connections,
        backends[at].active_connections <= total_active(backends),
    decreases backends.len(),
{
    let after = backends.update(at, b);
    if at == backends.len() - 1 {
        assert(after.drop_last() == backends.drop_last());
    } else {
        assert(after.drop_last() == backends.drop_last().update(at, b));
        lemma_total_of_update(backends.drop_last(), at, b);
    }
}

/// A request that is sent below the maximum makes one more active connection, which is within it.
pub proof fn law_connections_stay_within_the_maximum(backends: Seq<Backend>, at: int, max: usize)
    requires
        0 <= at < backends.len(),
        total_active(backends) < max,
    ensures
        total_active(changed(backends, Change::Connected { at })) == total_active(backends) + 1,
        total_active(changed(backends, Change::Connected { at })) <= max,
{
    let b = backends[at];
    lemma_total_of_update(backends, at, Change::Connected { at }.on(b));
    lemma_wrapped_fits(b.active_connections + 1);
}

/// Whatever is learnt, no backend comes, goes, moves or changes its id, its address or its weight.
pub proof fn law_backends_stay(backends: Seq<Backend>, changes: Seq<Change>)
    ensures
        run(backends, changes).len() == backends.len(),
        forall|i: int|
            0 <= i < backends.len() ==> {
                &&& (#[trigger] run(backends, changes)[i]).addr == backends[i].addr
                &&& run(backends, changes)[i].id == backends[i].id
                &&& run(backends, changes)[i].weight == backends[i].weight
            },
    decreases changes.len(),
{
    if changes.len() > 0 {
        law_backends_stay(backends, changes.drop_last());
    }
}

/// A change keeps the addresses, and keeps the backends apart.
pub proof fn lemma_change_keeps_identity(backends: Seq<Backend>, change: Change)
    ensures
        addresses(changed(backends, change)) == addresses(backends),
        forall|next_id: u64|
            #[trigger] ids_apart(backends, next_id) ==> ids_apart(changed(backends, change), next_id),
        forall|id: u64| #[trigger] place_of(changed(backends, change), id) == place_of(backends, id),
{
    let after = changed(backends, change);
    assert(after.len() == backends.len());
    assert forall|i: int| 0 <= i < backends.len() implies (#[trigger] after[i]).id == backends[i].id
        && after[i].addr == backends[i].addr by {}
    assert(addresses(after) =~= addresses(backends));
    assert forall|id: u64| #[trigger] place_of(after, id) == place_of(backends, id) by {
        assert forall|i: int| stands_at(after, id, i) == stands_at(backends, id, i) by {
            if 0 <= i < backends.len() {
                assert(after[i].id == backends[i].id);
            }
            if stands_at(after, id, i) {
                assert forall|j: int| 0 <= j < i implies (#[trigger] backends[j]).id != id by {
                    assert(after[j].id == backends[j].id);
                }
            }
        }
        lemma_place_agrees(after, backends, id);
    }
}

/// Where the same positions stand for an id, the same place is found for it.
proof fn lemma_place_agrees(a: Seq<Backend>, b: Seq<Backend>, id: u64)
    requires
        forall|i: int| stands_at(a, id, i) == stands_at(b, id, i),
    ensures
        place_of(a, id) == place_of(b, id),
{
    if exists|i: int| stands_at(a, id, i) {
        let i = choose|i: int| stands_at(a, id, i);
        assert(stands_at(b, id, i));
        let j = choose|j: int| stands_at(b, id, j);
        assert(stands_at(a, id, j) && i == j);
    } else if exists|i: int| stands_at(b, id, i) {
        let i = choose|i: int| stands_at(b, id, i);
        assert(stands_at(a, id, i));
    }
}

/// A change leaves every other backend as it is.
pub proof fn law_changes_are_local(backends: Seq<Backend>, changes: Seq<Change>, i: int)
    requires
        0 <= i < backends.len(),
        forall|k: int| 0 <= k < changes.len() ==> (#[trigger] changes[k]).at() != i,
    ensures
        run(backends, changes)[i] == backends[i],
    decreases changes.len(),
{
    if changes.len() > 0 {
        assert(changes.last() == changes[changes.len() - 1]);
        assert forall|k: int| 0 <= k < changes.drop_last().len() implies (
        #[trigger] changes.drop_last()[k]).at() != i by {
            assert(changes.drop_last()[k] == changes[k]);
        }
        law_changes_are_local(backends, changes.drop_last(), i);
        law_backends_stay(backends, changes.drop_last());
    }
}

/// The active connections of a backend are the requests that were sent to it less those that it is
/// done with, whatever else happens in between and to the others.
pub proof fn law_active_connections_are_in_flight(backends: Seq<Backend>, changes: Seq<Change>, i: int)
    requires
        0 <= i < backends.len(),
    ensures
        run(backends, changes)[i].active_connections == wrapped(
            backends[i].active_connections + times(changes, Change::Connected { at: i }) - times(
                changes,
                Change::Released { at: i },
            ),
        ),
    decreases changes.len(),
{
    let base = backends[i].active_connections as int;
    if changes.len() == 0 {
        lemma_wrapped_fits(base);
    } else {
        let before = changes.drop_last();
        law_active_connections_are_in_flight(backends, before, i);
        law_backends_stay(backends, before);
        let so_far = base + times(before, Change::Connected { at: i }) - times(
            before,
            Change::Released { at: i },
        );
        lemma_wrapped_up(so_far);
        lemma_wrapped_down(so_far);
    }
}

/// A request that was sent and answered leaves no trace in the count of active connections.
pub proof fn law_release_undoes_connect(backends: Seq<Backend>, at: int)
    requires
        0 <= at < backends.len(),
    ensures
        changed(changed(backends, Change::Connected { at }), Change::Released { at }) == backends,
{
    let b = backends[at];
    lemma_wrapped_fits(b.active_connections as int);
    lemma_wrapped_down(b.active_connections + 1);
    assert(changed(changed(backends, Change::Connected { at }), Change::Released { at }) =~= backends);
}

/// Whatever is learnt, a live backend stays below the breaker's threshold.
pub proof fn law_breaker_is_kept(backends: Seq<Backend>, changes: Seq<Change>)
    requires
        breaker_kept(backends),
    ensures
        breaker_kept(run(backends, changes)),
    decreases changes.len(),
{
    if changes.len() > 0 {
        law_breaker_is_kept(backends, changes.drop_last());
        let before = run(backends, changes.drop_last());
        let change = changes.last();
        assert forall|i: int|
            0 <= i < changed(before, change).len() && (#[trigger] changed(
                before,
                change,
            )[i]).is_alive implies changed(before, change)[i].consecutive_errors < BREAKER_THRESHOLD by {
            assert(changed(before, change)[i] == if i == change.at() {
                change.on(before[i])
            } else {
                before[i]
            });
        }
    }
}

/// As long as a backend answers no request and is not health-checked, its failures add up, and it
/// is out of rotation from the one on that reaches the threshold. A backend with a clean record
/// is thus live for exactly the first four failures in a row.
pub proof fn law_breaker_trips(backends: Seq<Backend>, changes: Seq<Change>, i: int)
    requires
        0 <= i < backends.len(),
        breaker_kept(backends),
        backends[i].consecutive_errors + changes.len() <= usize::MAX,
        forall|k: int|
            0 <= k < changes.len() && (#[trigger] changes[k]).at() == i ==> !(changes[k] is Answered)
                && !(changes[k] is Probed),
    ensures
        run(backends, changes)[i].consecutive_errors == backends[i].consecutive_errors + times(
            changes,
            Change::Failed { at: i },
        ),
        run(backends, changes)[i].is_alive <==> backends[i].is_alive && backends[i].consecutive_errors
            + times(changes, Change::Failed { at: i }) < BREAKER_THRESHOLD,
        0 <= times(changes, Change::Failed { at: i }) <= changes.len(),
    decreases changes.len(),
{
    if changes.len() > 0 {
        let before = changes.drop_last();
        assert(changes.last() == changes[changes.len() - 1]);
        assert forall|k: int| 0 <= k < before.len() implies #[trigger] before[k] == changes[k] by {}
        law_breaker_trips(backends, before, i);
        law_backends_stay(backends, before);
        let errors = run(backends, before)[i].consecutive_errors;
        lemma_wrapped_fits(errors + 1);
    }
}

/// One health check of every backend, in order.
pub open spec fn probe_round(reachable: Seq<bool>) -> Seq<Change> {
    Seq::new(reachable.len(), |i: int| Change::Probed { at: i, reachable: reachable[i] })
}

/// After a round of health checks exactly the backends that were reached are live, and those have a
/// clean record.
pub proof fn law_health_round_decides(backends: Seq<Backend>, reachable: Seq<bool>)
    requires
        reachable.len() <= backends.len(),
    ensures
        forall|i: int|
            0 <= i < reachable.len() ==> {
                &&& (#[trigger] run(backends, probe_round(reachable))[i]).is_alive == reachable[i]
                &&& reachable[i] ==> run(backends, probe_round(reachable))[i].consecutive_errors == 0
            },
    decreases reachable.len(),
{
    if reachable.len() > 0 {
        let before = reachable.drop_last();
        law_health_round_decides(backends, before);
        assert(probe_round(reachable).drop_last() =~= probe_round(before));
        law_backends_stay(backends, probe_round(before));
        let rest = run(backends, probe_round(before));
        assert forall|i: int| 0 <= i < reachable.len() implies {
            &&& (#[trigger] run(backends, probe_round(reachable))[i]).is_alive == reachable[i]
            &&& reachable[i] ==> run(backends, probe_round(reachable))[i].consecutive_errors == 0
        } by {
            if i < before.len() {
                assert(before[i] == reachable[i]);
                assert(rest[i].is_alive == before[i]);
            }
        }
    }
}

/// What is learnt of a backend changes in it what it is about, and nothing else: connections go up and
/// down by one, an answer clears the failures, a failure adds one and takes the backend out of rotation
/// from the fifth in a row on, and a health check decides whether it is live.
pub proof fn law_each_change_does_its_own(b: Backend, at: int)
    ensures
        b.active_connections < usize::MAX ==> (Change::Connected { at }).on(b) == (Backend {
            active_connections: (b.active_connections + 1) as usize,
            ..b
        }),
        b.active_connections == usize::MAX ==> (Change::Connected { at }).on(b) == (Backend {
            active_connections: 0,
            ..b
        }),
        b.active_connections > 0 ==> (Change::Released { at }).on(b) == (Backend {
            active_connections: (b.active_connections - 1) as usize,
            ..b
        }),
        b.active_connections == 0 ==> (Change::Released { at }).on(b) == (Backend {
            active_connections: usize::MAX,
            ..b
        }),
        (Change::Answered { at }).on(b) == (Backend { consecutive_errors: 0, ..b }),
        b.consecutive_errors < usize::MAX ==> (Change::Failed { at }).on(b) == (Backend {
            consecutive_errors: (b.consecutive_errors + 1) as usize,
            is_alive: b.is_alive && b.consecutive_errors + 1 < 5,
            ..b
        }),
        (Change::Probed { at, reachable: true }).on(b) == (Backend { is_alive: true, consecutive_errors: 0, ..b }),
        (Change::Probed { at, reachable: false }).on(b) == (Backend { is_alive: false, ..b }),
{
    let m = b.active_connections as int;
    lemma_wrapped_fits(m);
    lemma_wrapped_up(m);
    lemma_wrapped_down(m);
    if b.consecutive_errors < usize::MAX {
        lemma_wrapped_fits(b.consecutive_errors + 1);
    }
}

/// A change reaches the backend that it is about and no other, and moves none.
pub proof fn law_change_reaches_one_backend(backends: Seq<Backend>, change: Change, i: int)
    requires
        0 <= i < backends.len(),
    ensures
        changed(backends, change).len() == backends.len(),
        i == change.at() ==> changed(backends, change)[i] == change.on(backends[i]),
        i != change.at() ==> changed(backends, change)[i] == backends[i],
{
}

/// A change is about the position that it names.
pub proof fn law_change_names_its_position(at: int, reachable: bool)
    ensures
        (Change::Connected { at }).at() == at,
        (Change::Released { at }).at() == at,
        (Change::Answered { at }).at() == at,
        (Change::Failed { at }).at() == at,
        (Change::Probed { at, reachable }).at() == at,
{
}

/// The active connections of all backends are those of each of them together, live or not.
pub proof fn law_total_adds_up(a: Seq<Backend>, b: Backend, c: Seq<Backend>)
    ensures
        total_active(Seq::empty()) == 0,
        total_active(seq![b]) == b.active_connections,
        total_active(a + c) == total_active(a) + total_active(c),
    decreases c.len(),
{
    reveal_with_fuel(total_active, 2);
    assert(seq![b].drop_last() =~= Seq::<Backend>::empty());
    if c.len() == 0 {
        assert(a + c =~= a);
    } else {
        law_total_adds_up(a, b, c.drop_last());
        assert((a + c).drop_last() =~= a + c.drop_last());
    }
}

/// Every backend is health-checked every five seconds, and has one second to be reached.
pub proof fn law_health_checks_keep_time()
    ensures
        PROBE_INTERVAL_SECS == 5,
        PROBE_TIMEOUT_SECS == 1,
{
}

} // verus!
