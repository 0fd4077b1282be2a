//! What holds of the ways to pick a backend over many picks, and the pick by client address.

use crate::counter::{lemma_wrapped_fits, wrapped};
use crate::registry::{
    dead_run, hash_choice, law_live_positions, least_loaded, live_positions, none_alive, rotates, rotation_at, Backend,
    BackendRegistry,
};
use crate::upkeep::{changed, law_backends_stay, run, Change};
use std::collections::hash_map::DefaultHasher;
use std::hash::{Hash, Hasher};
use vstd::arithmetic::div_mod::{lemma_fundamental_div_mod, lemma_fundamental_div_mod_converse, lemma_mod_bound};
use vstd::prelude::*;
use vstd::set_lib::{lemma_int_range, set_int_range};
use vstd::std_specs::hash::DefaultHasherAdditionalSpecFns;

verus! {

/// The state of a hasher in state `state` once `text` was fed to it.
pub uninterp spec fn text_hashed(state: Seq<Seq<u8>>, text: Seq<char>) -> Seq<Seq<u8>>;

/// Calls `<str as std::hash::Hash>::hash` on a `DefaultHasher`. It claims that the state that the
/// hasher ends in depends on nothing but the state that it was in and on the text.
#[verifier::external_body]
fn feed_text(text: &str, hasher: &mut DefaultHasher)
    ensures
        final(hasher)@ == text_hashed(old(hasher)@, text@),
{
    text.hash(hasher);
}

/// The hash that stands for a client: what a new `DefaultHasher` makes of its address.
pub open spec fn client_hash(client_ip: Seq<char>) -> u64 {
    DefaultHasher::spec_finish(text_hashed(Seq::empty(), client_ip))
}

impl BackendRegistry {
    /// The live backend that the client at `client_ip` is sent to.
    pub fn ip_hash(&self, client_ip: &str) -> (res: Option<&Backend>)
        ensures
            match hash_choice(self.backends@, client_hash(client_ip@)) {
                Some(i) => 0 <= i < self.backends@.len() && self.backends@[i].is_alive && res == Some(
                    &self.backends@[i],
                ),
                None => res is None && none_alive(self.backends@),
            },
    {
        let mut hasher = DefaultHasher::new();
        feed_text(client_ip, &mut hasher);
        self.pick_by_hash(hasher.finish())
    }
}

/// The weights of the live ones among the first `k` backends together.
pub open spec fn live_weight(backends: Seq<Backend>, k: int) -> nat
    decreases k,
{
    if k <= 0 {
        0
    } else {
        live_weight(backends, k - 1) + if backends[k - 1].is_alive {
            backends[k - 1].weight as nat
        } else {
            0
        }
    }
}

/// The number `d` falls to the backend at `p`, if the live backends get as many numbers each as their
/// weights say, one after the other from zero on.
pub open spec fn falls_to(backends: Seq<Backend>, d: int, p: int) -> bool {
    &&& 0 <= p < backends.len()
    &&& backends[p].is_alive
    &&& live_weight(backends, p) <= d < live_weight(backends, p) + backends[p].weight
}

impl BackendRegistry {
    /// The live backend that a number drawn at random falls to, each in proportion to its weight.
    /// There is none if no live backend has a weight.
    pub fn weighted_random(&self, drawn: u128) -> (res: Option<&Backend>)
        ensures
            ({
                let total = live_weight(self.backends@, self.backends@.len() as int);
                match res {
                    Some(b) => total > 0 && exists|p: int|
                        #[trigger] falls_to(self.backends@, drawn as int % total as int, p) && *b
                            == self.backends@[p],
                    None => total == 0,
                }
            }),
    {
        let n: usize = self.backends.len();
        let mut total: u128 = 0;
        let mut i: usize = 0;
        while i < n
            invariant
                n == self.backends@.len(),
                i <= n,
                total == live_weight(self.backends@, i as int),
                total <= i * usize::MAX,
            decreases n - i,
        {
            assert(i * usize::MAX + usize::MAX == (i + 1) * usize::MAX && (i + 1) * usize::MAX
                <= u128::MAX) by (nonlinear_arith)
                requires
                    i < n,
            ;
            if self.backends[i].is_alive {
                total += self.backends[i].weight as u128;
            }
            i += 1;
        }
        if total == 0 {
            return None;
        }
        let d: u128 = drawn % total;
        let mut left: u128 = d;
        let mut p: usize = 0;
        while p < n
            invariant
                n == self.backends@.len(),
                p <= n,
                0 < total == live_weight(self.backends@, n as int),
                d == drawn % total,
                d < total,
                left + live_weight(self.backends@, p as int) == d,
            decreases n - p,
        {
            if self.backends[p].is_alive {
                let weight: u128 = self.backends[p].weight as u128;
                if left < weight {
                    assert(falls_to(self.backends@, d as int, p as int));
                    return Some(&self.backends[p]);
                }
                left -= weight;
            }
            p += 1;
        }
        None
    }
}

/// More backends have no less weight.
proof fn lemma_live_weight_grows(backends: Seq<Backend>, k: int, l: int)
    requires
        k <= l,
    ensures
        live_weight(backends, k) <= live_weight(backends, l),
    decreases l - k,
{
    if k < l {
        lemma_live_weight_grows(backends, k, l - 1);
    }
}

/// Every number falls to at most one backend, and exactly as many numbers fall to a live backend as
/// its weight says.
pub proof fn law_draws_are_in_proportion(backends: Seq<Backend>, p: int)
    requires
        0 <= p < backends.len(),
        backends[p].is_alive,
    ensures
        forall|d: int, q: int|
            #[trigger] falls_to(backends, d, q) && #[trigger] falls_to(backends, d, p) ==> q == p,
        forall|d: int|
            #[trigger] falls_to(backends, d, p) ==> 0 <= d < live_weight(backends, backends.len() as int),
        Set::new(|d: int| falls_to(backends, d, p)).finite(),
        Set::new(|d: int| falls_to(backends, d, p)).len() == backends[p].weight,
{
    let lo = live_weight(backends, p) as int;
    let hi = lo + backends[p].weight;
    assert forall|d: int, q: int|
        #[trigger] falls_to(backends, d, q) && #[trigger] falls_to(backends, d, p) implies q == p by {
        if q < p {
            lemma_live_weight_grows(backends, q + 1, p);
        } else if p < q {
            lemma_live_weight_grows(backends, p + 1, q);
        }
    }
    lemma_live_weight_grows(backends, p + 1, backends.len() as int);
    lemma_int_range(lo, hi);
    assert(Set::new(|d: int| falls_to(backends, d, p)) =~= set_int_range(lo, hi));
}

/// Among `n` places in a circle, some place less than a full turn after `from` is `i`.
proof fn lemma_turn_reaches(from: int, i: int, n: int) -> (j: int)
    requires
        0 <= from,
        0 <= i < n,
    ensures
        0 <= j < n,
        (from + j) % n == i,
{
    let c = from % n;
    let q = from / n;
    lemma_fundamental_div_mod(from, n);
    lemma_mod_bound(from, n);
    assert(n * q == q * n && q * n + n == (q + 1) * n) by (nonlinear_arith);
    if c <= i {
        let j = i - c;
        lemma_fundamental_div_mod_converse(from + j, n, q, i);
        j
    } else {
        let j = i - c + n;
        lemma_fundamental_div_mod_converse(from + j, n, q + 1, i);
        j
    }
}

/// Less than a full turn apart, no place of a circle comes twice.
proof fn lemma_turn_repeats_nothing(from: int, j: int, k: int, n: int)
    requires
        0 <= from,
        0 <= j < k < n,
    ensures
        (from + j) % n != (from + k) % n,
{
    lemma_fundamental_div_mod(from + j, n);
    lemma_fundamental_div_mod(from + k, n);
    let a = (from + j) / n;
    let b = (from + k) / n;
    if (from + j) % n == (from + k) % n {
        assert(n * b - n * a == k - j);
        assert(n * b - n * a == n * (b - a)) by (nonlinear_arith);
        assert(n * (b - a) <= 0 || n * (b - a) >= n) by (nonlinear_arith)
            requires
                n > 0,
        ;
    }
}

/// Unless the cursor wraps around on the way, a turn of the rotation that stops nowhere has seen
/// every backend, and none of them is live.
pub proof fn law_rotation_misses_no_live_backend(backends: Seq<Backend>, curr: usize, next: usize)
    requires
        curr + backends.len() <= usize::MAX + 1,
        rotates(backends, curr, None, next),
    ensures
        none_alive(backends),
{
    let n = backends.len() as int;
    assert forall|i: int| 0 <= i < n implies !(#[trigger] backends[i]).is_alive by {
        let j = lemma_turn_reaches(curr as int, i, n);
        lemma_wrapped_fits(curr + j);
        assert(rotation_at(curr, j, n) == i);
    }
}

/// While all backends are live, the rotation takes them strictly in turn.
pub proof fn law_rotation_takes_turns(
    backends: Seq<Backend>,
    cursors: Seq<usize>,
    chosen: Seq<Option<int>>,
    j: int,
)
    requires
        0 < backends.len(),
        forall|i: int| 0 <= i < backends.len() ==> (#[trigger] backends[i]).is_alive,
        cursors.len() == chosen.len() + 1,
        forall|k: int|
            0 <= k < chosen.len() ==> rotates(backends, cursors[k], #[trigger] chosen[k], cursors[k + 1]),
        cursors[0] + chosen.len() <= usize::MAX,
        0 <= j < chosen.len(),
    ensures
        chosen[j] == Some((cursors[0] + j) % backends.len() as int),
        cursors[j + 1] == cursors[0] + j + 1,
    decreases j,
{
    let n = backends.len() as int;
    if j > 0 {
        law_rotation_takes_turns(backends, cursors, chosen, j - 1);
    }
    let curr = cursors[j];
    assert(curr == cursors[0] + j);
    lemma_wrapped_fits(curr as int);
    lemma_wrapped_fits(curr + 1);
    lemma_mod_bound(curr as int, n);
    assert(rotation_at(curr, 0, n) == curr as int % n);
    assert(rotates(backends, curr, chosen[j], cursors[j + 1]));
    assert(backends[rotation_at(curr, 0, n)].is_alive);
}

/// While all backends are live, each of them gets exactly one of as many picks in a row as there
/// are backends.
pub proof fn law_rotation_is_fair(
    backends: Seq<Backend>,
    cursors: Seq<usize>,
    chosen: Seq<Option<int>>,
    i: int,
)
    requires
        0 < backends.len(),
        forall|i: int| 0 <= i < backends.len() ==> (#[trigger] backends[i]).is_alive,
        chosen.len() == backends.len(),
        cursors.len() == chosen.len() + 1,
        forall|k: int|
            0 <= k < chosen.len() ==> rotates(backends, cursors[k], #[trigger] chosen[k], cursors[k + 1]),
        cursors[0] + chosen.len() <= usize::MAX,
        0 <= i < backends.len(),
    ensures
        exists|j: int|
            {
                &&& 0 <= j < chosen.len()
                &&& #[trigger] chosen[j] == Some(i)
                &&& forall|k: int| 0 <= k < chosen.len() && k != j ==> #[trigger] chosen[k] != Some(i)
            },
{
    let n = backends.len() as int;
    let from = cursors[0] as int;
    let j = lemma_turn_reaches(from, i, n);
    law_rotation_takes_turns(backends, cursors, chosen, j);
    assert forall|k: int| 0 <= k < chosen.len() && k != j implies #[trigger] chosen[k] != Some(i) by {
        law_rotation_takes_turns(backends, cursors, chosen, k);
        if k < j {
            lemma_turn_repeats_nothing(from, k, j, n);
        } else {
            lemma_turn_repeats_nothing(from, j, k, n);
        }
    }
    assert(chosen[j] == Some(i));
}

/// A client keeps its backend as long as the same backends are live, whatever their load and
/// their errors are.
pub proof fn law_hash_choice_is_sticky(before: Seq<Backend>, after: Seq<Backend>, hash: u64)
    requires
        before.len() == after.len(),
        forall|i: int| 0 <= i < before.len() ==> (#[trigger] before[i]).is_alive == after[i].is_alive,
    ensures
        hash_choice(after, hash) == hash_choice(before, hash),
{
    lemma_live_positions_agree(before, after);
}

/// The live positions depend on nothing but which backends are live.
proof fn lemma_live_positions_agree(before: Seq<Backend>, after: Seq<Backend>)
    requires
        before.len() == after.len(),
        forall|i: int| 0 <= i < before.len() ==> (#[trigger] before[i]).is_alive == after[i].is_alive,
    ensures
        live_positions(after) == live_positions(before),
    decreases before.len(),
{
    if before.len() > 0 {
        assert(before.last() == before[before.len() - 1]);
        assert forall|i: int| 0 <= i < before.drop_last().len() implies (
        #[trigger] before.drop_last()[i]).is_alive == after.drop_last()[i].is_alive by {
            assert(before.drop_last()[i] == before[i]);
        }
        lemma_live_positions_agree(before.drop_last(), after.drop_last());
    }
}

/// The least loaded backend is one and no other.
pub proof fn law_least_loaded_is_unique(backends: Seq<Backend>, i: int, j: int)
    requires
        least_loaded(backends, i),
        least_loaded(backends, j),
    ensures
        i == j,
{
}

/// As soon as one backend is live, every client is sent to some live backend.
pub proof fn law_hash_choice_is_live(backends: Seq<Backend>, hash: u64)
    ensures
        hash_choice(backends, hash) is None <==> none_alive(backends),
        hash_choice(backends, hash) matches Some(i) ==> 0 <= i < backends.len() && backends[i].is_alive,
{
    law_live_positions(backends);
    if live_positions(backends).len() > 0 {
        lemma_mod_bound((hash as usize) as int, live_positions(backends).len() as int);
    }
}

/// No live backend has more than one active connection more than another.
pub open spec fn balanced(backends: Seq<Backend>) -> bool {
    forall|i: int, j: int|
        0 <= i < backends.len() && 0 <= j < backends.len() && (#[trigger] backends[i]).is_alive && (
        #[trigger] backends[j]).is_alive ==> backends[i].active_connections <= backends[j].active_connections
            + 1
}

/// As long as requests only come in, sending each to the least loaded backend keeps the load
/// balanced.
pub proof fn law_least_connections_keeps_balance(backends: Seq<Backend>, i: int)
    requires
        balanced(backends),
        least_loaded(backends, i),
        backends[i].active_connections < usize::MAX,
    ensures
        balanced(changed(backends, Change::Connected { at: i })),
{
    lemma_wrapped_fits(backends[i].active_connections + 1);
    let after = changed(backends, Change::Connected { at: i });
    assert forall|j: int, k: int|
        0 <= j < after.len() && 0 <= k < after.len() && (#[trigger] after[j]).is_alive && (
        #[trigger] after[k]).is_alive implies after[j].active_connections <= after[k].active_connections
        + 1 by {
        assert(backends[j].is_alive && backends[k].is_alive);
    }
}

/// A backend that is out of rotation is not picked in any way, whatever else is learnt, until a
/// health check reaches it.
pub proof fn law_dead_backend_gets_no_request(
    backends: Seq<Backend>,
    changes: Seq<Change>,
    i: int,
    hash: u64,
    curr: usize,
    next: usize,
)
    requires
        0 <= i < backends.len(),
        !backends[i].is_alive,
        forall|k: int| 0 <= k < changes.len() ==> #[trigger] changes[k] != (Change::Probed { at: i, reachable: true }),
    ensures
        !run(backends, changes)[i].is_alive,
        !least_loaded(run(backends, changes), i),
        hash_choice(run(backends, changes), hash) != Some(i),
        !rotates(run(backends, changes), curr, Some(i), next),
    decreases changes.len(),
{
    if changes.len() > 0 {
        let before = changes.drop_last();
        assert(changes.last() == changes[changes.len() - 1]);
        assert forall|k: int| 0 <= k < before.len() implies #[trigger] before[k] != (Change::Probed {
            at: i,
            reachable: true,
        }) by {
            assert(before[k] == changes[k]);
        }
        law_dead_backend_gets_no_request(backends, before, i, hash, curr, next);
        law_backends_stay(backends, before);
    }
    law_backends_stay(backends, changes);
    law_hash_choice_is_live(run(backends, changes), hash);
}

/// The hash of a client is what a new hasher makes of its whole address, fed once.
pub proof fn law_client_is_hashed_by_its_address(client_ip: Seq<char>)
    ensures
        client_hash(client_ip) == DefaultHasher::spec_finish(text_hashed(Seq::empty(), client_ip)),
{
}

/// The live positions are as many as the live backends, and before each of them stand as many live
/// backends as positions.
proof fn lemma_live_positions_count(backends: Seq<Backend>)
    ensures
        live_positions(backends).len() == backends.filter(|b: Backend| b.is_alive).len(),
        forall|k: int|
            0 <= k < live_positions(backends).len() ==> backends.take(
                #[trigger] live_positions(backends)[k],
            ).filter(|b: Backend| b.is_alive).len() == k,
    decreases backends.len(),
{
    reveal(Seq::filter);
    if backends.len() > 0 {
        let rest = backends.drop_last();
        let before = live_positions(rest);
        lemma_live_positions_count(rest);
        law_live_positions(rest);
        assert forall|k: int| 0 <= k < live_positions(backends).len() implies backends.take(
            #[trigger] live_positions(backends)[k],
        ).filter(|b: Backend| b.is_alive).len() == k by {
            if k < before.len() {
                assert(0 <= before[k] < rest.len());
                assert(rest.take(before[k]) =~= backends.take(before[k]));
            } else {
                assert(backends.take(backends.len() - 1) =~= rest);
            }
        }
    }
}

/// A client is sent to the live backend that has as many live ones before it as its hash leaves over
/// when it is divided by how many are live, and to none if and only if none is live.
pub proof fn law_hash_counts_off_the_live_backends(backends: Seq<Backend>, hash: u64)
    ensures
        hash_choice(backends, hash) is None <==> backends.filter(|b: Backend| b.is_alive).len() == 0,
        hash_choice(backends, hash) matches Some(i) ==> {
            &&& 0 <= i < backends.len()
            &&& backends[i].is_alive
            &&& backends.take(i).filter(|b: Backend| b.is_alive).len() == (hash as usize) as int
                % backends.filter(|b: Backend| b.is_alive).len() as int
        },
{
    lemma_live_positions_count(backends);
    law_live_positions(backends);
    let live = live_positions(backends);
    if live.len() > 0 {
        let k = (hash as usize) as int % live.len() as int;
        lemma_mod_bound((hash as usize) as int, live.len() as int);
        assert(0 <= live[k] < backends.len());
    }
}

/// Clients are spread evenly: of as many hashes in a row as there are live backends, each live backend
/// gets exactly one.
pub proof fn law_hashes_are_spread_evenly(backends: Seq<Backend>, from: u64, p: int)
    requires
        0 <= p < backends.len(),
        backends[p].is_alive,
        from + backends.filter(|b: Backend| b.is_alive).len() <= usize::MAX,
    ensures
        exists|h: u64|
            {
                &&& from <= h < from + backends.filter(|b: Backend| b.is_alive).len()
                &&& #[trigger] hash_choice(backends, h) == Some(p)
                &&& forall|g: u64|
                    from <= g < from + backends.filter(|b: Backend| b.is_alive).len() && g != h
                        ==> #[trigger] hash_choice(backends, g) != Some(p)
            },
{
    lemma_live_positions_count(backends);
    law_live_positions(backends);
    let live = live_positions(backends);
    let n = live.len() as int;
    assert(live.contains(p));
    let k = choose|k: int| 0 <= k < live.len() && live[k] == p;
    let j = lemma_turn_reaches(from as int, k, n);
    let h = (from + j) as u64;
    assert((h as usize) as int == from + j);
    assert(hash_choice(backends, h) == Some(p));
    assert forall|g: u64| from <= g < from + n && g != h implies #[trigger] hash_choice(backends, g) != Some(p) by {
        let l = g - from;
        assert((g as usize) as int == from + l);
        lemma_mod_bound(from + l, n);
        let m = (from + l) % n;
        if l < j {
            lemma_turn_repeats_nothing(from as int, l, j, n);
        } else {
            lemma_turn_repeats_nothing(from as int, j, l, n);
        }
        if m < k {
            assert(live[m] < live[k]);
        } else {
            assert(live[k] < live[m]);
        }
    }
}

/// The least loaded backend is live, no live backend has fewer active connections, and those before it
/// have more.
pub proof fn law_least_loaded_has_the_fewest_connections(backends: Seq<Backend>, i: int)
    requires
        least_loaded(backends, i),
    ensures
        0 <= i < backends.len(),
        backends[i].is_alive,
        forall|j: int|
            0 <= j < backends.len() && (#[trigger] backends[j]).is_alive ==> backends[i].active_connections
                <= backends[j].active_connections,
        forall|j: int|
            0 <= j < i && (#[trigger] backends[j]).is_alive ==> backends[i].active_connections
                < backends[j].active_connections,
{
}

/// As soon as one backend is live, one is the least loaded: the first live one with the fewest active
/// connections.
pub proof fn law_some_live_backend_is_least_loaded(backends: Seq<Backend>, p: int) -> (i: int)
    requires
        0 <= p < backends.len(),
        backends[p].is_alive,
    ensures
        least_loaded(backends, i),
    decreases backends[p].active_connections, p,
{
    if exists|j: int|
        0 <= j < backends.len() && (#[trigger] backends[j]).is_alive && backends[j].active_connections
            < backends[p].active_connections {
        let j = choose|j: int|
            0 <= j < backends.len() && (#[trigger] backends[j]).is_alive && backends[j].active_connections
                < backends[p].active_connections;
        law_some_live_backend_is_least_loaded(backends, j)
    } else if exists|j: int|
        0 <= j < p && (#[trigger] backends[j]).is_alive && backends[j].active_connections
            == backends[p].active_connections {
        let j = choose|j: int|
            0 <= j < p && (#[trigger] backends[j]).is_alive && backends[j].active_connections
                == backends[p].active_connections;
        law_some_live_backend_is_least_loaded(backends, j)
    } else {
        p
    }
}

/// The rotation stops at the first live backend from the cursor on, in a circle, and leaves the cursor
/// behind it. The cursor wraps around at the end of its range.
pub proof fn law_rotation_stops_at_the_next_live_backend(
    backends: Seq<Backend>,
    curr: usize,
    i: int,
    next: usize,
) -> (k: int)
    requires
        rotates(backends, curr, Some(i), next),
    ensures
        0 <= k < backends.len(),
        i == (curr + k) % (usize::MAX + 1) % (backends.len() as int),
        next == (curr + k + 1) % (usize::MAX + 1),
        backends[i].is_alive,
        forall|j: int|
            0 <= j < k ==> {
                &&& #[trigger] rotation_at(curr, j, backends.len() as int) == (curr + j) % (usize::MAX + 1) % (
                backends.len() as int)
                &&& !backends[rotation_at(curr, j, backends.len() as int)].is_alive
            },
{
    let n = backends.len() as int;
    let steps = choose|k: int|
        {
            &&& 0 <= k < backends.len()
            &&& dead_run(backends, curr, k)
            &&& i == #[trigger] rotation_at(curr, k, n)
            &&& backends[i].is_alive
            &&& next == wrapped(curr + k + 1)
        };
    lemma_rotation_at(curr, steps, n);
    lemma_mod_bound(curr + steps + 1, usize::MAX + 1);
    lemma_dead_run_positions(backends, curr, steps);
    steps
}

/// If the rotation stops nowhere it has passed as many positions as there are backends, all of them
/// dead.
pub proof fn law_rotation_that_stops_nowhere_saw_dead_backends(backends: Seq<Backend>, curr: usize, next: usize)
    requires
        rotates(backends, curr, None, next),
    ensures
        next == (curr + backends.len()) % (usize::MAX + 1),
        forall|j: int|
            0 <= j < backends.len() ==> {
                &&& #[trigger] rotation_at(curr, j, backends.len() as int) == (curr + j) % (usize::MAX + 1) % (
                backends.len() as int)
                &&& !backends[rotation_at(curr, j, backends.len() as int)].is_alive
            },
{
    let n = backends.len() as int;
    lemma_mod_bound(curr + n, usize::MAX + 1);
    lemma_dead_run_positions(backends, curr, n);
}

/// The positions that a dead run passes, in the circle of the backends, hold no live backend.
proof fn lemma_dead_run_positions(backends: Seq<Backend>, curr: usize, k: int)
    requires
        dead_run(backends, curr, k),
    ensures
        forall|j: int|
            0 <= j < k ==> {
                &&& #[trigger] rotation_at(curr, j, backends.len() as int) == (curr + j) % (usize::MAX + 1) % (
                backends.len() as int)
                &&& !backends[rotation_at(curr, j, backends.len() as int)].is_alive
            },
{
    let n = backends.len() as int;
    assert forall|j: int| 0 <= j < k implies #[trigger] rotation_at(curr, j, n) == (curr + j) % (usize::MAX + 1)
        % n by {
        lemma_rotation_at(curr, j, n);
    }
}

/// The position that the rotation looks at is the cursor's, as far on, in the circle of the backends.
proof fn lemma_rotation_at(curr: usize, k: int, n: int)
    ensures
        rotation_at(curr, k, n) == (curr + k) % (usize::MAX + 1) % n,
{
    lemma_mod_bound(curr + k, usize::MAX + 1);
}

/// Where the rotation stops, and where it leaves the cursor, depends on nothing but the backends and
/// the cursor.
pub proof fn law_rotation_is_decided(
    backends: Seq<Backend>,
    curr: usize,
    a: Option<int>,
    next_a: usize,
    b: Option<int>,
    next_b: usize,
)
    requires
        rotates(backends, curr, a, next_a),
        rotates(backends, curr, b, next_b),
    ensures
        a == b,
        next_a == next_b,
{
    let n = backends.len() as int;
    if a is Some && b is Some {
        let k = choose|k: int|
            0 <= k < backends.len() && dead_run(backends, curr, k) && a->0 == #[trigger] rotation_at(curr, k, n)
                && backends[a->0].is_alive && next_a == wrapped(curr + k + 1);
        let l = choose|l: int|
            0 <= l < backends.len() && dead_run(backends, curr, l) && b->0 == #[trigger] rotation_at(curr, l, n)
                && backends[b->0].is_alive && next_b == wrapped(curr + l + 1);
        if k < l {
            assert(!backends[rotation_at(curr, k, n)].is_alive);
        } else if l < k {
            assert(!backends[rotation_at(curr, l, n)].is_alive);
        }
    }
}

/// Every number below the weights of the live backends together falls to one of them, to an earlier
/// one if it is smaller, and to a live one in any case. The weights together are none if and only if
/// no live backend has one.
pub proof fn law_every_draw_falls_to_a_live_backend(backends: Seq<Backend>, d: int)
    ensures
        0 <= d < live_weight(backends, backends.len() as int) ==> exists|p: int| #[trigger] falls_to(backends, d, p),
        forall|p: int| #[trigger] falls_to(backends, d, p) ==> 0 <= p < backends.len() && backends[p].is_alive,
        forall|e: int, p: int, q: int|
            #[trigger] falls_to(backends, d, p) && #[trigger] falls_to(backends, e, q) && p < q ==> d < e,
        live_weight(backends, backends.len() as int) == 0 <==> forall|p: int|
            0 <= p < backends.len() && (#[trigger] backends[p]).is_alive ==> backends[p].weight == 0,
{
    let n = backends.len() as int;
    if 0 <= d < live_weight(backends, n) {
        let p = lemma_draw_falls(backends, d, n);
        assert(falls_to(backends, d, p));
    }
    assert forall|e: int, p: int, q: int|
        #[trigger] falls_to(backends, d, p) && #[trigger] falls_to(backends, e, q) && p < q implies d < e by {
        lemma_live_weight_grows(backends, p + 1, q);
    }
    if live_weight(backends, n) == 0 {
        assert forall|p: int| 0 <= p < backends.len() && (#[trigger] backends[p]).is_alive implies backends[p].weight
            == 0 by {
            lemma_live_weight_grows(backends, p + 1, n);
            assert(live_weight(backends, p + 1) == live_weight(backends, p) + backends[p].weight);
        }
    } else {
        let p = lemma_draw_falls(backends, 0, n);
        assert(backends[p].is_alive && backends[p].weight > 0);
    }
}

/// A number below the weights of the first live backends falls to one of them.
proof fn lemma_draw_falls(backends: Seq<Backend>, d: int, k: int) -> (p: int)
    requires
        0 <= k <= backends.len(),
        0 <= d < live_weight(backends, k),
    ensures
        falls_to(backends, d, p),
    decreases k,
{
    if d < live_weight(backends, k - 1) {
        lemma_draw_falls(backends, d, k - 1)
    } else {
        k - 1
    }
}

} // verus!
