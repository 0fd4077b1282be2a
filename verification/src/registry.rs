//! The pool of backends: who may be picked, and what is remembered of each.

use crate::config::BackendConfig;
use crate::counter::{lemma_wrapped_fits, lemma_wrapped_up, wrapped};
use crate::upkeep::breaker_kept;
use vstd::prelude::*;

verus! {

/// A backend is taken out of rotation at this many failed requests in a row.
pub const BREAKER_THRESHOLD: usize = 5;

/// A backend server and what the balancer remembers of it.
pub struct Backend {
    /// Tells the backend from all others that the registry ever held.
    pub id: u64,
    /// `host:port` of the server.
    pub addr: String,
    /// Whether requests may be sent to the server.
    pub is_alive: bool,
    /// Requests that were sent to the server and are not answered yet.
    pub active_connections: usize,
    /// Failed requests since the last good answer or health check.
    pub consecutive_errors: usize,
    /// The backend's share when backends are drawn at random.
    pub weight: usize,
}

/// All backends, the cursor of the round-robin rotation, and the id of the next backend.
pub struct BackendRegistry {
    pub backends: Vec<Backend>,
    pub curr: usize,
    pub next_id: u64,
}

/// No two backends have the same id, and the next id is not taken.
pub open spec fn ids_apart(backends: Seq<Backend>, next_id: u64) -> bool {
    &&& forall|i: int| 0 <= i < backends.len() ==> (#[trigger] backends[i]).id < next_id
    &&& forall|i: int, j: int|
        0 <= i < j < backends.len() ==> (#[trigger] backends[i]).id != (#[trigger] backends[j]).id
}

/// The backend with this id stands at position `i`, and at none before it.
pub open spec fn stands_at(backends: Seq<Backend>, id: u64, i: int) -> bool {
    &&& 0 <= i < backends.len()
    &&& backends[i].id == id
    &&& forall|j: int| 0 <= j < i ==> (#[trigger] backends[j]).id != id
}

/// The position of the backend with this id, if the registry still holds it.
pub open spec fn place_of(backends: Seq<Backend>, id: u64) -> Option<int> {
    if exists|i: int| stands_at(backends, id, i) {
        Some(choose|i: int| stands_at(backends, id, i))
    } else {
        None
    }
}

/// The backend that the configuration newly names: live, idle and without errors.
pub open spec fn is_fresh(b: Backend, config: BackendConfig) -> bool {
    &&& b.addr@ == config.address@
    &&& b.weight == config.weight
    &&& b.is_alive
    &&& b.active_connections == 0
    &&& b.consecutive_errors == 0
}

/// The addresses of the backends, in order.
pub open spec fn addresses(backends: Seq<Backend>) -> Seq<Seq<char>> {
    backends.map_values(|b: Backend| b.addr@)
}

/// The addresses that the configuration names, in order.
pub open spec fn configured(configs: Seq<BackendConfig>) -> Seq<Seq<char>> {
    configs.map_values(|c: BackendConfig| c.address@)
}

/// How often `addr` stands among the first `k` of `all`.
pub open spec fn occurrences(all: Seq<Seq<char>>, addr: Seq<char>, k: int) -> nat
    decreases k,
{
    if k <= 0 {
        0
    } else {
        occurrences(all, addr, k - 1) + if all[k - 1] == addr {
            1nat
        } else {
            0
        }
    }
}

/// Entry `i` of `new` is entry `p` of `old` again: the same address, and as many of that address
/// before it.
pub open spec fn same_entry(old_all: Seq<Seq<char>>, p: int, new_all: Seq<Seq<char>>, i: int) -> bool {
    &&& 0 <= p < old_all.len()
    &&& old_all[p] == new_all[i]
    &&& occurrences(old_all, old_all[p], p) == occurrences(new_all, new_all[i], i)
}

/// Entry `i` of `new` is no entry of `old` again.
pub open spec fn new_entry(old_all: Seq<Seq<char>>, new_all: Seq<Seq<char>>, i: int) -> bool {
    forall|p: int| !#[trigger] same_entry(old_all, p, new_all, i)
}

/// What a new configuration makes of a backend: one that was there before keeps what is remembered
/// of it, and any other is fresh.
pub open spec fn carried_over(before: Seq<Backend>, configs: Seq<BackendConfig>, i: int, b: Backend) -> bool {
    if new_entry(addresses(before), configured(configs), i) {
        is_fresh(b, configs[i])
    } else {
        exists|p: int|
            #[trigger] same_entry(addresses(before), p, configured(configs), i) && b == (Backend {
                weight: configs[i].weight,
                ..before[p]
            })
    }
}

/// No backend may be sent a request.
pub open spec fn none_alive(backends: Seq<Backend>) -> bool {
    forall|i: int| 0 <= i < backends.len() ==> !(#[trigger] backends[i]).is_alive
}

/// The position that the rotation looks at `k` steps after cursor `curr`, among `n` backends.
pub open spec fn rotation_at(curr: usize, k: int, n: int) -> int {
    wrapped(curr + k) as int % n
}

/// The first `k` positions that the rotation looks at from `curr` hold no live backend.
pub open spec fn dead_run(backends: Seq<Backend>, curr: usize, k: int) -> bool {
    forall|j: int|
        0 <= j < k ==> !backends[#[trigger] rotation_at(curr, j, backends.len() as int)].is_alive
}

/// One turn of the rotation from `curr` stops at position `chosen` and leaves the cursor at
/// `next`. It stops at the first live backend among as many positions as there are backends, and
/// nowhere if there is none among them.
pub open spec fn rotates(backends: Seq<Backend>, curr: usize, chosen: Option<int>, next: usize) -> bool {
    match chosen {
        Some(i) => exists|k: int|
            {
                &&& 0 <= k < backends.len()
                &&& dead_run(backends, curr, k)
                &&& i == #[trigger] rotation_at(curr, k, backends.len() as int)
                &&& backends[i].is_alive
                &&& next == wrapped(curr + k + 1)
            },
        None => {
            &&& dead_run(backends, curr, backends.len() as int)
            &&& next == wrapped(curr + backends.len())
        },
    }
}

/// The positions of the live backends, in order.
pub open spec fn live_positions(backends: Seq<Backend>) -> Seq<int>
    decreases backends.len(),
{
    if backends.len() == 0 {
        Seq::empty()
    } else {
        let before = live_positions(backends.drop_last());
        if backends.last().is_alive {
            before.push(backends.len() - 1)
        } else {
            before
        }
    }
}

/// The position that a client with this hash is sent to: the hash picks among the live backends.
pub open spec fn hash_choice(backends: Seq<Backend>, hash: u64) -> Option<int> {
    let live = live_positions(backends);
    if live.len() == 0 {
        None
    } else {
        Some(live[(hash as usize) as int % live.len() as int])
    }
}

/// `i` is the first among the live backends with the fewest active connections.
pub open spec fn least_loaded(backends: Seq<Backend>, i: int) -> bool {
    &&& 0 <= i < backends.len()
    &&& backends[i].is_alive
    &&& forall|j: int|
        0 <= j < backends.len() && (#[trigger] backends[j]).is_alive ==> backends[i].active_connections
            <= backends[j].active_connections
    &&& forall|j: int|
        0 <= j < i && (#[trigger] backends[j]).is_alive ==> backends[i].active_connections
            < backends[j].active_connections
}

/// The live positions are exactly the positions of live backends, in ascending order.
pub proof fn law_live_positions(backends: Seq<Backend>)
    ensures
        live_positions(backends).len() <= backends.len(),
        forall|k: int|
            0 <= k < live_positions(backends).len() ==> 0 <= #[trigger] live_positions(backends)[k]
                < backends.len() && backends[live_positions(backends)[k]].is_alive,
        forall|k: int, l: int|
            0 <= k < l < live_positions(backends).len() ==> #[trigger] live_positions(backends)[k]
                < #[trigger] live_positions(backends)[l],
        forall|i: int|
            0 <= i < backends.len() && (#[trigger] backends[i]).is_alive ==> live_positions(
                backends,
            ).contains(i),
        live_positions(backends).len() == 0 <==> none_alive(backends),
    decreases backends.len(),
{
    if backends.len() > 0 {
        let rest = backends.drop_last();
        let before = live_positions(rest);
        law_live_positions(rest);
        assert forall|i: int| 0 <= i < backends.len() && (#[trigger] backends[i]).is_alive implies live_positions(
            backends,
        ).contains(i) by {
            if i < rest.len() {
                assert(rest[i] == backends[i]);
                let k = choose|k: int| 0 <= k < before.len() && before[k] == i;
                assert(live_positions(backends)[k] == i);
            } else {
                assert(live_positions(backends)[before.len() as int] == i);
            }
        }
        assert forall|k: int| 0 <= k < live_positions(backends).len() implies 0
            <= #[trigger] live_positions(backends)[k] < backends.len()
            && backends[live_positions(backends)[k]].is_alive by {
            if k < before.len() {
                assert(rest[before[k]] == backends[before[k]]);
            }
        }
        if none_alive(backends) && live_positions(backends).len() > 0 {
            assert(backends[live_positions(backends)[0]].is_alive);
        }
        if live_positions(backends).len() == 0 {
            assert(none_alive(backends));
        }
    }
}

/// The registry `before` becomes `after` under a new configuration: it has the backends that the
/// configuration names, in its order, and what was remembered of them. Ids are not given twice.
pub open spec fn reconfigured(before: BackendRegistry, configs: Seq<BackendConfig>, after: BackendRegistry) -> bool {
    &&& after.curr == before.curr
    &&& before.next_id <= after.next_id <= before.next_id + configs.len()
    &&& after.backends@.len() == configs.len()
    &&& addresses(after.backends@) == configured(configs)
    &&& forall|i: int|
        0 <= i < configs.len() ==> carried_over(before.backends@, configs, i, #[trigger] after.backends@[i])
    &&& forall|i: int|
        0 <= i < configs.len() && new_entry(addresses(before.backends@), configured(configs), i) ==> (
        #[trigger] after.backends@[i]).id >= before.next_id
}

/// After a new configuration, whoever holds the id of a backend finds that backend with its load and
/// its record, or none: never another one.
pub proof fn law_reload_confuses_no_backends(
    before: BackendRegistry,
    configs: Seq<BackendConfig>,
    after: BackendRegistry,
    id: u64,
    i: int,
)
    requires
        before.sound(),
        reconfigured(before, configs, after),
        id < before.next_id,
        place_of(after.backends@, id) == Some(i),
    ensures
        0 <= i < configs.len(),
        exists|p: int|
            {
                &&& #[trigger] same_entry(addresses(before.backends@), p, configured(configs), i)
                &&& place_of(before.backends@, id) == Some(p)
                &&& after.backends@[i] == (Backend { weight: configs[i].weight, ..before.backends@[p] })
            },
{
    assert(stands_at(after.backends@, id, i));
    assert(carried_over(before.backends@, configs, i, after.backends@[i]));
    let p = choose|p: int|
        #[trigger] same_entry(addresses(before.backends@), p, configured(configs), i) && after.backends@[i] == (
        Backend { weight: configs[i].weight, ..before.backends@[p] });
    assert(same_entry(addresses(before.backends@), p, configured(configs), i));
    law_backend_is_found_by_id(before.backends@, before.next_id, p);
}

/// Entry `k` of a new configuration was taken over as `b`: out of position `from`, or as a fresh
/// backend with an id from `first` up to `next`.
spec fn entry_taken(
    before: Seq<Backend>,
    configs: Seq<BackendConfig>,
    k: int,
    from: Option<int>,
    b: Backend,
    first: u64,
    next: u64,
) -> bool {
    match from {
        Some(p) => same_entry(addresses(before), p, configured(configs), k) && b == (Backend {
            weight: configs[k].weight,
            ..before[p]
        }),
        None => new_entry(addresses(before), configured(configs), k) && is_fresh(b, configs[k]) && first
            <= b.id < next,
    }
}

/// The longer the part, the more often an address stands in it.
proof fn lemma_occurrences_grow(all: Seq<Seq<char>>, addr: Seq<char>, k: int, l: int)
    requires
        k <= l,
    ensures
        occurrences(all, addr, k) <= occurrences(all, addr, l),
    decreases l - k,
{
    if k < l {
        lemma_occurrences_grow(all, addr, k, l - 1);
    }
}

/// In a sound registry a backend is found at its position by its id.
pub proof fn law_backend_is_found_by_id(backends: Seq<Backend>, next_id: u64, i: int)
    requires
        ids_apart(backends, next_id),
        0 <= i < backends.len(),
    ensures
        place_of(backends, backends[i].id) == Some(i),
{
    assert(stands_at(backends, backends[i].id, i));
}

impl BackendRegistry {
    /// The registry is sound: its backends can be told apart.
    pub open spec fn sound(self) -> bool {
        ids_apart(self.backends@, self.next_id)
    }

    /// The backends that the configuration names, in its order. Until something else is learnt of
    /// them they are live, idle and without errors, and the first of them is next in turn.
    pub fn from_config(configs: &Vec<BackendConfig>) -> (res: BackendRegistry)
        ensures
            res.curr == 0,
            res.backends@.len() == configs@.len(),
            addresses(res.backends@) == configured(configs@),
            forall|i: int|
                0 <= i < configs@.len() ==> is_fresh(#[trigger] res.backends@[i], configs@[i]),
            res.next_id == configs@.len(),
            res.sound(),
            breaker_kept(res.backends@),
    {
        let mut backends: Vec<Backend> = Vec::new();
        let mut i: usize = 0;
        while i < configs.len()
            invariant
                i <= configs@.len(),
                backends@.len() == i,
                forall|k: int| 0 <= k < i ==> is_fresh(#[trigger] backends@[k], configs@[k]),
                ids_apart(backends@, i as u64),
            decreases configs@.len() - i,
        {
            backends.push(
                Backend {
                    id: i as u64,
                    addr: configs[i].address.clone(),
                    is_alive: true,
                    active_connections: 0,
                    consecutive_errors: 0,
                    weight: configs[i].weight,
                },
            );
            i += 1;
        }
        assert(addresses(backends@) =~= configured(configs@));
        BackendRegistry { backends, curr: 0, next_id: i as u64 }
    }

    /// The position of the backend with this id, if the registry still holds it.
    pub fn locate(&self, id: u64) -> (res: Option<usize>)
        ensures
            match res {
                Some(i) => place_of(self.backends@, id) == Some(i as int) && stands_at(
                    self.backends@,
                    id,
                    i as int,
                ),
                None => place_of(self.backends@, id) is None,
            },
    {
        let mut i: usize = 0;
        while i < self.backends.len()
            invariant
                i <= self.backends@.len(),
                forall|j: int| 0 <= j < i ==> (#[trigger] self.backends@[j]).id != id,
            decreases self.backends@.len() - i,
        {
            if self.backends[i].id == id {
                assert(stands_at(self.backends@, id, i as int));
                return Some(i);
            }
            i += 1;
        }
        None
    }

    /// How often the address of entry `i` stands before it in `configs`.
    fn earlier_entries(configs: &Vec<BackendConfig>, i: usize) -> (res: usize)
        requires
            i < configs@.len(),
        ensures
            res == occurrences(configured(configs@), configured(configs@)[i as int], i as int),
            res <= i,
    {
        let ghost all = configured(configs@);
        let mut n: usize = 0;
        let mut k: usize = 0;
        while k < i
            invariant
                k <= i < configs@.len(),
                all == configured(configs@),
                n == occurrences(all, all[i as int], k as int),
                n <= k,
            decreases i - k,
        {
            assert(all[k as int] == configs@[k as int].address@);
            if configs[k].address == configs[i].address {
                n += 1;
            }
            k += 1;
        }
        n
    }

    /// The position of the backend that entry `i` of `configs` names again, if there is one.
    fn find_entry(&self, configs: &Vec<BackendConfig>, i: usize) -> (res: Option<usize>)
        requires
            i < configs@.len(),
        ensures
            match res {
                Some(p) => same_entry(addresses(self.backends@), p as int, configured(configs@), i as int),
                None => new_entry(addresses(self.backends@), configured(configs@), i as int),
            },
    {
        let ghost before = addresses(self.backends@);
        let ghost all = configured(configs@);
        let ghost addr = all[i as int];
        let wanted: usize = Self::earlier_entries(configs, i);
        let mut seen: usize = 0;
        let mut p: usize = 0;
        while p < self.backends.len()
            invariant
                i < configs@.len(),
                before == addresses(self.backends@),
                all == configured(configs@),
                addr == all[i as int],
                wanted == occurrences(all, addr, i as int),
                p <= self.backends@.len(),
                seen == occurrences(before, addr, p as int),
                seen <= p,
                forall|q: int| 0 <= q < p ==> !#[trigger] same_entry(before, q, all, i as int),
            decreases self.backends@.len() - p,
        {
            assert(before[p as int] == self.backends@[p as int].addr@);
            if self.backends[p].addr == configs[i].address {
                if seen == wanted {
                    return Some(p);
                }
                seen += 1;
            }
            p += 1;
        }
        None
    }

    /// Takes the backends of a new configuration over, in its order. A backend that was there before
    /// keeps its id, its load and its record; the others are fresh, and those that the configuration
    /// no longer names are gone.
    pub fn apply_config(&mut self, configs: &Vec<BackendConfig>)
        requires
            old(self).next_id + configs@.len() <= u64::MAX,
        ensures
            reconfigured(*old(self), configs@, *final(self)),
            old(self).sound() ==> final(self).sound(),
            breaker_kept(old(self).backends@) ==> breaker_kept(final(self).backends@),
    {
        let ghost before = old(self).backends@;
        let ghost old_all = addresses(before);
        let ghost new_all = configured(configs@);
        let ghost mut from: Seq<Option<int>> = Seq::empty();
        let mut backends: Vec<Backend> = Vec::new();
        let mut next_id: u64 = self.next_id;
        let mut i: usize = 0;
        while i < configs.len()
            invariant
                *self == *old(self),
                before == old(self).backends@,
                old_all == addresses(before),
                new_all == configured(configs@),
                i <= configs@.len(),
                backends@.len() == i,
                from.len() == i,
                old(self).next_id + configs@.len() <= u64::MAX,
                old(self).next_id <= next_id <= old(self).next_id + i,
                forall|k: int|
                    0 <= k < i ==> #[trigger] entry_taken(
                        before,
                        configs@,
                        k,
                        from[k],
                        backends@[k],
                        old(self).next_id,
                        next_id,
                    ),
                forall|k: int, l: int|
                    0 <= k < l < i && from[k] is None && from[l] is None ==> (#[trigger] backends@[k]).id != (
                    #[trigger] backends@[l]).id,
            decreases configs@.len() - i,
        {
            let ghost done = backends@;
            let ghost done_from = from;
            let ghost done_id = next_id;
            match self.find_entry(configs, i) {
                Some(p) => {
                    backends.push(
                        Backend {
                            id: self.backends[p].id,
                            addr: self.backends[p].addr.clone(),
                            is_alive: self.backends[p].is_alive,
                            active_connections: self.backends[p].active_connections,
                            consecutive_errors: self.backends[p].consecutive_errors,
                            weight: configs[i].weight,
                        },
                    );
                    proof {
                        from = from.push(Some(p as int));
                    }
                },
                None => {
                    backends.push(
                        Backend {
                            id: next_id,
                            addr: configs[i].address.clone(),
                            is_alive: true,
                            active_connections: 0,
                            consecutive_errors: 0,
                            weight: configs[i].weight,
                        },
                    );
                    next_id += 1;
                    proof {
                        from = from.push(None);
                    }
                },
            }
            proof {
                let first = old(self).next_id;
                assert forall|k: int| 0 <= k < i + 1 implies #[trigger] entry_taken(
                    before,
                    configs@,
                    k,
                    from[k],
                    backends@[k],
                    first,
                    next_id,
                ) by {
                    if k < i {
                        assert(entry_taken(before, configs@, k, done_from[k], done[k], first, done_id));
                    }
                }
                assert forall|k: int, l: int|
                    0 <= k < l < i + 1 && from[k] is None && from[l] is None implies (
                #[trigger] backends@[k]).id != (#[trigger] backends@[l]).id by {
                    assert(entry_taken(before, configs@, k, done_from[k], done[k], first, done_id));
                    if l < i {
                        assert(done[k].id != done[l].id);
                    }
                }
            }
            i += 1;
        }
        proof {
            let first = old(self).next_id;
            assert forall|k: int| 0 <= k < i implies {
                &&& (#[trigger] backends@[k]).addr@ == new_all[k]
                &&& carried_over(before, configs@, k, backends@[k])
                &&& breaker_kept(before) && backends@[k].is_alive ==> backends@[k].consecutive_errors
                    < BREAKER_THRESHOLD
                &&& new_entry(old_all, new_all, k) ==> backends@[k].id >= first
                &&& ids_apart(before, first) ==> backends@[k].id < next_id
            } by {
                assert(entry_taken(before, configs@, k, from[k], backends@[k], first, next_id));
                if from[k] is Some {
                    let p = from[k]->0;
                    assert(same_entry(old_all, p, new_all, k));
                    assert(old_all[p] == before[p].addr@);
                    assert(breaker_kept(before) && before[p].is_alive ==> before[p].consecutive_errors
                        < BREAKER_THRESHOLD);
                    assert(ids_apart(before, first) ==> before[p].id < first);
                }
            }
            assert(addresses(backends@) =~= new_all);
            if ids_apart(before, first) {
                assert forall|k: int, l: int| 0 <= k < l < i implies (#[trigger] backends@[k]).id != (
                #[trigger] backends@[l]).id by {
                    assert(entry_taken(before, configs@, k, from[k], backends@[k], first, next_id));
                    assert(entry_taken(before, configs@, l, from[l], backends@[l], first, next_id));
                    if from[k] is Some && from[l] is Some {
                        let p = from[k]->0;
                        let q = from[l]->0;
                        assert(same_entry(old_all, p, new_all, k));
                        assert(same_entry(old_all, q, new_all, l));
                        if p == q {
                            lemma_occurrences_grow(new_all, new_all[k], k + 1, l);
                        }
                        assert(before[p].id != before[q].id);
                    } else if from[k] is Some {
                        assert(before[from[k]->0].id < first);
                    } else if from[l] is Some {
                        assert(before[from[l]->0].id < first);
                    }
                }
            }
        }
        self.backends = backends;
        self.next_id = next_id;
    }

    /// The next live backend in turn. Each position that is looked at moves the cursor on by one,
    /// and after as many positions as there are backends the search ends.
    pub fn round_robin(&mut self) -> (res: Option<&Backend>)
        ensures
            final(self).backends@ == old(self).backends@,
            final(self).next_id == old(self).next_id,
            match res {
                Some(b) => exists|i: int|
                    {
                        &&& #[trigger] rotates(
                            old(self).backends@,
                            old(self).curr,
                            Some(i),
                            final(self).curr,
                        )
                        &&& 0 <= i < old(self).backends@.len()
                        &&& *b == old(self).backends@[i]
                    },
                None => rotates(old(self).backends@, old(self).curr, None, final(self).curr),
            },
    {
        let len: usize = self.backends.len();
        let mut k: usize = 0;
        proof {
            lemma_wrapped_fits(self.curr as int);
        }
        while k < len
            invariant
                len == self.backends@.len(),
                self.backends@ == old(self).backends@,
                self.next_id == old(self).next_id,
                k <= len,
                self.curr == wrapped(old(self).curr + k),
                dead_run(self.backends@, old(self).curr, k as int),
            decreases len - k,
        {
            proof {
                lemma_wrapped_up(old(self).curr + k);
            }
            let ind: usize = self.curr % len;
            assert(ind == rotation_at(old(self).curr, k as int, len as int));
            self.curr = self.curr.wrapping_add(1);
            if self.backends[ind].is_alive {
                assert(rotates(old(self).backends@, old(self).curr, Some(ind as int), self.curr));
                return Some(&self.backends[ind]);
            }
            k += 1;
        }
        None
    }

    /// The live backend that a client with this hash is sent to.
    pub fn pick_by_hash(&self, hash: u64) -> (res: Option<&Backend>)
        ensures
            match hash_choice(self.backends@, hash) {
                Some(i) => 0 <= i < self.backends@.len() && self.backends@[i].is_alive && res == Some(
                    &self.backends@[i],
                ),
                None => res is None && none_alive(self.backends@),
            },
    {
        let mut live: Vec<usize> = Vec::new();
        let mut i: usize = 0;
        while i < self.backends.len()
            invariant
                i <= self.backends@.len(),
                live@.len() == live_positions(self.backends@.take(i as int)).len(),
                forall|k: int|
                    0 <= k < live@.len() ==> #[trigger] live@[k] == live_positions(
                        self.backends@.take(i as int),
                    )[k],
            decreases self.backends@.len() - i,
        {
            proof {
                assert(self.backends@.take(i + 1).drop_last() == self.backends@.take(i as int));
            }
            if self.backends[i].is_alive {
                live.push(i);
            }
            i += 1;
        }
        proof {
            assert(self.backends@.take(i as int) == self.backends@);
            law_live_positions(self.backends@);
        }
        if live.len() == 0 {
            return None;
        }
        let index: usize = (hash as usize) % live.len();
        Some(&self.backends[live[index]])
    }

    /// The position of the first among the live backends with the fewest active connections.
    pub fn least_connections_at(&self) -> (res: Option<usize>)
        ensures
            match res {
                Some(i) => least_loaded(self.backends@, i as int),
                None => none_alive(self.backends@),
            },
    {
        let mut best: Option<usize> = None;
        let mut i: usize = 0;
        while i < self.backends.len()
            invariant
                i <= self.backends@.len(),
                match best {
                    Some(b) => b < i && least_loaded(self.backends@.take(i as int), b as int),
                    None => none_alive(self.backends@.take(i as int)),
                },
            decreases self.backends@.len() - i,
        {
            let ghost before = self.backends@.take(i as int);
            let ghost after = self.backends@.take(i + 1);
            assert(forall|j: int| 0 <= j < i ==> #[trigger] after[j] == before[j]);
            assert(after[i as int] == self.backends@[i as int]);
            if self.backends[i].is_alive {
                match best {
                    None => {
                        best = Some(i);
                    },
                    Some(b) => {
                        assert(before[b as int] == self.backends@[b as int]);
                        if self.backends[i].active_connections < self.backends[b].active_connections {
                            best = Some(i);
                        }
                    },
                }
            }
            i += 1;
        }
        assert(self.backends@.take(i as int) == self.backends@);
        best
    }

    /// The first among the live backends with the fewest active connections.
    pub fn least_connections(&self) -> (res: Option<&Backend>)
        ensures
            match res {
                Some(b) => exists|i: int|
                    #[trigger] least_loaded(self.backends@, i) && *b == self.backends@[i],
                None => none_alive(self.backends@),
            },
    {
        match self.least_connections_at() {
            Some(i) => {
                assert(least_loaded(self.backends@, i as int));
                Some(&self.backends[i])
            },
            None => None,
        }
    }
}

/// No backend is live if and only if every one of them is out of rotation.
pub proof fn law_none_alive_means_all_dead(backends: Seq<Backend>)
    ensures
        none_alive(backends) <==> forall|i: int| 0 <= i < backends.len() ==> !(#[trigger] backends[i]).is_alive,
{
}

/// An id finds the first backend that has it, and nothing if and only if none has it.
pub proof fn law_id_finds_its_backend(backends: Seq<Backend>, id: u64)
    ensures
        place_of(backends, id) matches Some(i) ==> 0 <= i < backends.len() && backends[i].id == id && forall|j: int|
            0 <= j < i ==> (#[trigger] backends[j]).id != id,
        place_of(backends, id) is None <==> forall|j: int|
            0 <= j < backends.len() ==> (#[trigger] backends[j]).id != id,
{
    if place_of(backends, id) is None {
        assert forall|j: int| 0 <= j < backends.len() implies (#[trigger] backends[j]).id != id by {
            if backends[j].id == id {
                lemma_first_with_id(backends, id, j);
            }
        }
    } else {
        let i = choose|i: int| stands_at(backends, id, i);
        assert(stands_at(backends, id, i));
    }
}

/// If some backend has an id, one is the first that has it.
proof fn lemma_first_with_id(backends: Seq<Backend>, id: u64, j: int)
    requires
        0 <= j < backends.len(),
        backends[j].id == id,
    ensures
        exists|i: int| stands_at(backends, id, i),
    decreases j,
{
    if exists|k: int| 0 <= k < j && (#[trigger] backends[k]).id == id {
        let k = choose|k: int| 0 <= k < j && (#[trigger] backends[k]).id == id;
        lemma_first_with_id(backends, id, k);
    } else {
        assert(stands_at(backends, id, j));
    }
}

/// Addresses are those of the backends and of the configuration, one for one and in order.
pub proof fn law_addresses_are_in_order(backends: Seq<Backend>, configs: Seq<BackendConfig>, i: int)
    ensures
        addresses(backends).len() == backends.len(),
        0 <= i < backends.len() ==> addresses(backends)[i] == backends[i].addr@,
        configured(configs).len() == configs.len(),
        0 <= i < configs.len() ==> configured(configs)[i] == configs[i].address@,
{
}

/// A fresh backend has the address and the weight that the configuration gives it, is live and idle,
/// and has failed nothing.
pub proof fn law_fresh_backend_is_live_and_idle(b: Backend, config: BackendConfig)
    ensures
        is_fresh(b, config) <==> b.addr@ == config.address@ && b.weight == config.weight && b.is_alive
            && b.active_connections == 0 && b.consecutive_errors == 0,
{
}

/// In a sound registry no two backends share an id, and the next id is above all of them.
pub proof fn law_sound_ids_differ(registry: BackendRegistry, i: int, j: int)
    requires
        registry.sound(),
        0 <= i < registry.backends@.len(),
        0 <= j < registry.backends@.len(),
    ensures
        registry.backends@[i].id < registry.next_id,
        registry.backends@[i].id == registry.backends@[j].id ==> i == j,
{
    if i < j {
        assert(registry.backends@[i].id != registry.backends@[j].id);
    } else if j < i {
        assert(registry.backends@[j].id != registry.backends@[i].id);
    }
}

/// A new configuration leaves as many backends as it names, each with the address and the weight that
/// it gives, in its order, and the turn of the rotation where it is.
pub proof fn law_reload_brings_what_is_named(
    before: BackendRegistry,
    configs: Seq<BackendConfig>,
    after: BackendRegistry,
    i: int,
)
    requires
        reconfigured(before, configs, after),
    ensures
        after.backends@.len() == configs.len(),
        after.curr == before.curr,
        0 <= i < configs.len() ==> after.backends@[i].addr@ == configs[i].address@ && after.backends@[i].weight
            == configs[i].weight,
{
    if 0 <= i < configs.len() {
        assert(addresses(after.backends@)[i] == configured(configs)[i]);
        assert(carried_over(before.backends@, configs, i, after.backends@[i]));
    }
}

/// Only one position has an address with as many of that address before it.
proof fn lemma_occurrences_apart(all: Seq<Seq<char>>, p: int, q: int)
    requires
        0 <= p < all.len(),
        0 <= q < all.len(),
        all[p] == all[q],
        occurrences(all, all[p], p) == occurrences(all, all[q], q),
    ensures
        p == q,
{
    if p < q {
        lemma_occurrences_grow(all, all[p], p + 1, q);
    } else if q < p {
        lemma_occurrences_grow(all, all[p], q + 1, p);
    }
}

/// An address that does not stand between two positions stands as often before the one as before the
/// other.
proof fn lemma_occurrences_stay(all: Seq<Seq<char>>, addr: Seq<char>, k: int, l: int)
    requires
        0 <= k <= l <= all.len(),
        forall|j: int| k <= j < l ==> #[trigger] all[j] != addr,
    ensures
        occurrences(all, addr, k) == occurrences(all, addr, l),
    decreases l - k,
{
    if k < l {
        lemma_occurrences_stay(all, addr, k, l - 1);
        assert(all[l - 1] != addr);
    }
}

/// Entries that stand for each other carry everything over.
proof fn lemma_same_entry_is_kept(
    before: BackendRegistry,
    configs: Seq<BackendConfig>,
    after: BackendRegistry,
    p: int,
    i: int,
)
    requires
        reconfigured(before, configs, after),
        0 <= i < configs.len(),
        same_entry(addresses(before.backends@), p, configured(configs), i),
    ensures
        after.backends@[i] == (Backend { weight: configs[i].weight, ..before.backends@[p] }),
{
    let old_all = addresses(before.backends@);
    assert(carried_over(before.backends@, configs, i, after.backends@[i]));
    let q = choose|q: int|
        #[trigger] same_entry(old_all, q, configured(configs), i) && after.backends@[i] == (Backend {
            weight: configs[i].weight,
            ..before.backends@[q]
        });
    lemma_occurrences_apart(old_all, p, q);
}

/// A backend that a new configuration names again keeps its id, its load, its record and whether it is
/// live, wherever it now stands. Of several with one address this is said of the first.
pub proof fn law_reload_keeps_a_named_backend(
    before: BackendRegistry,
    configs: Seq<BackendConfig>,
    after: BackendRegistry,
    p: int,
    i: int,
)
    requires
        reconfigured(before, configs, after),
        0 <= p < before.backends@.len(),
        0 <= i < configs.len(),
        before.backends@[p].addr@ == configs[i].address@,
        forall|q: int| 0 <= q < p ==> (#[trigger] before.backends@[q]).addr@ != configs[i].address@,
        forall|j: int| 0 <= j < i ==> (#[trigger] configs[j]).address@ != configs[i].address@,
    ensures
        after.backends@[i].id == before.backends@[p].id,
        after.backends@[i].is_alive == before.backends@[p].is_alive,
        after.backends@[i].active_connections == before.backends@[p].active_connections,
        after.backends@[i].consecutive_errors == before.backends@[p].consecutive_errors,
{
    let old_all = addresses(before.backends@);
    let new_all = configured(configs);
    let addr = configs[i].address@;
    assert forall|q: int| 0 <= q < p implies #[trigger] old_all[q] != addr by {
        assert(old_all[q] == before.backends@[q].addr@);
    }
    assert forall|j: int| 0 <= j < i implies #[trigger] new_all[j] != addr by {
        assert(new_all[j] == configs[j].address@);
    }
    lemma_occurrences_stay(old_all, addr, 0, p);
    lemma_occurrences_stay(new_all, addr, 0, i);
    assert(same_entry(old_all, p, new_all, i));
    lemma_same_entry_is_kept(before, configs, after, p, i);
}

/// A backend that took an id over stands for the backend that had it.
proof fn lemma_id_tells_the_entry(
    before: BackendRegistry,
    configs: Seq<BackendConfig>,
    after: BackendRegistry,
    p: int,
    i: int,
)
    requires
        before.sound(),
        reconfigured(before, configs, after),
        0 <= p < before.backends@.len(),
        0 <= i < configs.len(),
        after.backends@[i].id == before.backends@[p].id,
    ensures
        same_entry(addresses(before.backends@), p, configured(configs), i),
{
    let old_all = addresses(before.backends@);
    assert(carried_over(before.backends@, configs, i, after.backends@[i]));
    law_sound_ids_differ(before, p, p);
    let q = choose|q: int|
        #[trigger] same_entry(old_all, q, configured(configs), i) && after.backends@[i] == (Backend {
            weight: configs[i].weight,
            ..before.backends@[q]
        });
    assert(same_entry(old_all, q, configured(configs), i));
    law_sound_ids_differ(before, p, q);
}

/// Of several backends with one address each stands for its own: if one was kept, the next of them is
/// kept by the next entry with that address.
pub proof fn law_reload_keeps_the_next_with_the_address(
    before: BackendRegistry,
    configs: Seq<BackendConfig>,
    after: BackendRegistry,
    p: int,
    next_p: int,
    i: int,
    next_i: int,
)
    requires
        before.sound(),
        reconfigured(before, configs, after),
        0 <= p < next_p < before.backends@.len(),
        0 <= i < next_i < configs.len(),
        after.backends@[i].id == before.backends@[p].id,
        before.backends@[next_p].addr@ == before.backends@[p].addr@,
        configs[next_i].address@ == before.backends@[p].addr@,
        forall|q: int|
            p < q < next_p ==> (#[trigger] before.backends@[q]).addr@ != before.backends@[p].addr@,
        forall|j: int| i < j < next_i ==> (#[trigger] configs[j]).address@ != before.backends@[p].addr@,
    ensures
        after.backends@[next_i].id == before.backends@[next_p].id,
        after.backends@[next_i].is_alive == before.backends@[next_p].is_alive,
        after.backends@[next_i].active_connections == before.backends@[next_p].active_connections,
        after.backends@[next_i].consecutive_errors == before.backends@[next_p].consecutive_errors,
{
    let old_all = addresses(before.backends@);
    let new_all = configured(configs);
    let addr = before.backends@[p].addr@;
    lemma_id_tells_the_entry(before, configs, after, p, i);
    assert forall|q: int| p + 1 <= q < next_p implies #[trigger] old_all[q] != addr by {
        assert(old_all[q] == before.backends@[q].addr@);
    }
    assert forall|j: int| i + 1 <= j < next_i implies #[trigger] new_all[j] != addr by {
        assert(new_all[j] == configs[j].address@);
    }
    lemma_occurrences_stay(old_all, addr, p + 1, next_p);
    lemma_occurrences_stay(new_all, addr, i + 1, next_i);
    assert(old_all[p] == addr && new_all[i] == addr);
    assert(same_entry(old_all, next_p, new_all, next_i));
    lemma_same_entry_is_kept(before, configs, after, next_p, next_i);
}

/// A backend that the configuration did not name before starts live, idle, without failures and under
/// an id that no backend had.
pub proof fn law_reload_starts_a_new_backend_afresh(
    before: BackendRegistry,
    configs: Seq<BackendConfig>,
    after: BackendRegistry,
    i: int,
)
    requires
        reconfigured(before, configs, after),
        0 <= i < configs.len(),
        forall|p: int|
            0 <= p < before.backends@.len() ==> (#[trigger] before.backends@[p]).addr@ != configs[i].address@,
    ensures
        after.backends@[i].is_alive,
        after.backends@[i].active_connections == 0,
        after.backends@[i].consecutive_errors == 0,
        after.backends@[i].id >= before.next_id,
{
    let old_all = addresses(before.backends@);
    let new_all = configured(configs);
    assert forall|p: int| !#[trigger] same_entry(old_all, p, new_all, i) by {
        if 0 <= p < old_all.len() {
            assert(old_all[p] == before.backends@[p].addr@);
        }
    }
    assert(carried_over(before.backends@, configs, i, after.backends@[i]));
}

/// An entry behind the one that kept the last backend with its address starts afresh too.
pub proof fn law_reload_starts_a_further_backend_afresh(
    before: BackendRegistry,
    configs: Seq<BackendConfig>,
    after: BackendRegistry,
    p: int,
    i: int,
    later: int,
)
    requires
        before.sound(),
        reconfigured(before, configs, after),
        0 <= p < before.backends@.len(),
        0 <= i < later < configs.len(),
        after.backends@[i].id == before.backends@[p].id,
        configs[later].address@ == before.backends@[p].addr@,
        forall|q: int|
            p < q < before.backends@.len() ==> (#[trigger] before.backends@[q]).addr@
                != before.backends@[p].addr@,
    ensures
        after.backends@[later].is_alive,
        after.backends@[later].active_connections == 0,
        after.backends@[later].consecutive_errors == 0,
        after.backends@[later].id >= before.next_id,
{
    let old_all = addresses(before.backends@);
    let new_all = configured(configs);
    let addr = before.backends@[p].addr@;
    lemma_id_tells_the_entry(before, configs, after, p, i);
    lemma_occurrences_grow(new_all, addr, i + 1, later);
    assert(old_all[p] == addr && new_all[i] == addr && new_all[later] == addr);
    assert forall|q: int| !#[trigger] same_entry(old_all, q, new_all, later) by {
        if same_entry(old_all, q, new_all, later) {
            assert(old_all[q] == before.backends@[q].addr@);
            assert(q <= p);
            lemma_occurrences_grow(old_all, addr, q, p);
        }
    }
    assert(carried_over(before.backends@, configs, later, after.backends@[later]));
}

} // verus!
