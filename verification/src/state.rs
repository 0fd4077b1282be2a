//! The balancer as a whole: the configuration in force, the backends that it names, and the totals of
//! requests.

use crate::config::{accepted, problem, Config, ConfigManager};
use crate::exchange::Exchange;
use crate::metrics::{count_request, counted, counts_of, metrics_of, RequestCount};
use crate::registry::{
    addresses, configured, ids_apart, is_fresh, law_sound_ids_differ, least_loaded, place_of, reconfigured, Backend, BackendRegistry,
    BREAKER_THRESHOLD,
};
use crate::reply::{bad_gateway, gateway_timeout, metrics_reply, Reply};
use crate::upkeep::{breaker_kept, changed, law_breaker_is_kept, lemma_change_keeps_identity, run, Change};
use crate::upstream::{answer_noted, end_noted, errors_countable, failure_noted, Delivery, Dispatch, Failure, Forward};
use vstd::prelude::*;

verus! {

/// What all requests share.
pub struct LbState {
    pub registry: BackendRegistry,
    pub config: ConfigManager,
    /// The requests to backends so far, by backend and status.
    pub requests: Vec<RequestCount>,
}

/// The configuration names a backend with this address.
pub open spec fn names(config: Config, addr: Seq<char>) -> bool {
    configured(config.backends@).contains(addr)
}

/// A request goes to no backend but one that the configuration in force names.
pub proof fn law_traffic_goes_to_named_backends(
    config: Config,
    before: BackendRegistry,
    after: BackendRegistry,
    x: Exchange,
    f: Forward,
)
    requires
        addresses(before.backends@) == configured(config.backends@),
        x.dispatches(before, after, Dispatch::Forward(f)),
    ensures
        names(config, f.addr@),
{
    let i = choose|i: int|
        #[trigger] least_loaded(before.backends@, i) && f.addr@ == before.backends@[i].addr@;
    assert(addresses(before.backends@)[i] == f.addr@);
}

/// The registry `after` has the same backends as `before`, and is as good.
spec fn keeps_step(before: BackendRegistry, after: BackendRegistry) -> bool {
    &&& addresses(after.backends@) == addresses(before.backends@)
    &&& before.sound() ==> after.sound()
    &&& breaker_kept(before.backends@) ==> breaker_kept(after.backends@)
}

/// What is learnt of the backends leaves them the same, and the registry as good.
proof fn lemma_changes_keep_step(before: BackendRegistry, after: BackendRegistry, changes: Seq<Change>)
    requires
        after.backends@ == run(before.backends@, changes),
        after.next_id == before.next_id,
    ensures
        keeps_step(before, after),
{
    lemma_run_keeps_identity(before.backends@, before.next_id, changes);
    if breaker_kept(before.backends@) {
        law_breaker_is_kept(before.backends@, changes);
    }
}

/// What is learnt of the backends leaves their addresses as they are, and keeps them apart.
proof fn lemma_run_keeps_identity(backends: Seq<Backend>, next_id: u64, changes: Seq<Change>)
    ensures
        addresses(run(backends, changes)) == addresses(backends),
        ids_apart(backends, next_id) ==> ids_apart(run(backends, changes), next_id),
    decreases changes.len(),
{
    if changes.len() > 0 {
        lemma_run_keeps_identity(backends, next_id, changes.drop_last());
        lemma_change_keeps_identity(run(backends, changes.drop_last()), changes.last());
    }
}

/// One thing that is learnt of a backend leaves the registry as good.
proof fn lemma_change_keeps_step(before: BackendRegistry, after: BackendRegistry, change: Change)
    requires
        after.backends@ == changed(before.backends@, change),
        after.next_id == before.next_id,
    ensures
        keeps_step(before, after),
{
    reveal_with_fuel(run, 2);
    assert(seq![change].drop_last() == Seq::<Change>::empty());
    lemma_changes_keep_step(before, after, seq![change]);
}

/// The end of a request leaves the registry as good.
proof fn lemma_end_keeps_step(before: BackendRegistry, after: BackendRegistry, id: u64, errors: usize)
    requires
        answer_noted(before, after, id) || failure_noted(before, after, id, errors),
    ensures
        keeps_step(before, after),
{
    reveal_with_fuel(run, 3);
    match place_of(before.backends@, id) {
        Some(i) => {
            let last = if answer_noted(before, after, id) {
                Change::Answered { at: i }
            } else {
                Change::Failed { at: i }
            };
            let changes = seq![Change::Released { at: i }, last];
            assert(changes.drop_last() == seq![Change::Released { at: i }]);
            assert(changes.drop_last().drop_last() == Seq::<Change>::empty());
            lemma_changes_keep_step(before, after, changes);
        },
        None => {
            lemma_changes_keep_step(before, after, Seq::empty());
        },
    }
}

impl LbState {
    /// The registry holds the backends of the configuration in force and no others, can tell them
    /// apart, and has tripped the breaker for all that failed too often.
    pub open spec fn in_step(self) -> bool {
        &&& addresses(self.registry.backends@) == configured(self.config.current().backends@)
        &&& self.registry.sound()
        &&& breaker_kept(self.registry.backends@)
    }

    /// Starts with what was read from `path`.
    pub fn start(path: &str, read: Result<Config, String>) -> (res: Result<LbState, String>)
        ensures
            match read {
                Err(e) => res matches Err(m) && m@ == e@,
                Ok(config) => match problem(config) {
                    Some(p) => res matches Err(m) && m@ == "Valid startup configuration: "@ + p,
                    None => {
                        &&& res matches Ok(state)
                        &&& state.in_step()
                        &&& state.config.current() == config
                        &&& state.config.source() == path@
                        &&& state.registry.curr == 0
                        &&& state.registry.next_id == config.backends@.len()
                        &&& state.registry.backends@.len() == config.backends@.len()
                        &&& forall|i: int|
                            0 <= i < config.backends@.len() ==> is_fresh(
                                #[trigger] state.registry.backends@[i],
                                config.backends@[i],
                            )
                        &&& state.requests@.len() == 0
                    },
                },
            },
    {
        match ConfigManager::new(path, read) {
            Err(e) => Err(e),
            Ok(config) => {
                let registry = BackendRegistry::from_config(&config.get().backends);
                Ok(LbState { registry, config, requests: Vec::new() })
            },
        }
    }

    /// Puts what was read in force if it is in order, with the backends that it names, and else keeps
    /// what is in force.
    pub fn reload_with_validation(&mut self, read: Result<Config, String>) -> (res: Result<(), String>)
        requires
            read matches Ok(config) ==> old(self).registry.next_id + config.backends@.len() <= u64::MAX,
        ensures
            final(self).requests@ == old(self).requests@,
            final(self).config.source() == old(self).config.source(),
            final(self).config.current() == accepted(old(self).config.current(), read.ok()),
            match read {
                Err(e) => {
                    &&& res matches Err(m) && m@ == e@
                    &&& final(self).registry == old(self).registry
                },
                Ok(config) => match problem(config) {
                    Some(p) => {
                        &&& res matches Err(m) && m@ == p
                        &&& final(self).registry == old(self).registry
                    },
                    None => {
                        &&& res is Ok
                        &&& reconfigured(old(self).registry, config.backends@, final(self).registry)
                    },
                },
            },
            old(self).in_step() ==> final(self).in_step(),
    {
        match self.config.reload_with_validation(read) {
            Err(e) => Err(e),
            Ok(()) => {
                let config = self.config.get();
                self.registry.apply_config(&config.backends);
                Ok(())
            },
        }
    }

    /// Takes a request on, under the configuration in force.
    pub fn open(&self, method: &str, path: &str, peer_ip: Option<String>) -> (res: Exchange)
        ensures
            res.opened(self.config.current(), method@, path@, peer_ip),
    {
        let config = self.config.get();
        Exchange::open(&config, method, path, peer_ip)
    }

    /// Sends the request to the live backend with the fewest active connections. It goes to no
    /// backend but one that the configuration in force names.
    pub fn dispatch(&mut self, exchange: &Exchange) -> (res: Dispatch)
        ensures
            exchange.dispatches(old(self).registry, final(self).registry, res),
            final(self).config == old(self).config,
            final(self).requests == old(self).requests,
            old(self).in_step() ==> final(self).in_step(),
            old(self).in_step() ==> (res matches Dispatch::Forward(f) ==> names(
                old(self).config.current(),
                f.addr@,
            )),
    {
        let ghost before = self.registry;
        let res = exchange.dispatch(&mut self.registry);
        proof {
            if res is Forward {
                let f = res->Forward_0;
                let i = choose|i: int|
                    #[trigger] least_loaded(before.backends@, i) && self.registry.backends@ == changed(
                        before.backends@,
                        Change::Connected { at: i },
                    );
                lemma_change_keeps_step(before, self.registry, Change::Connected { at: i });
                if old(self).in_step() {
                    law_traffic_goes_to_named_backends(
                        self.config.current(),
                        before,
                        self.registry,
                        *exchange,
                        f,
                    );
                }
            }
        }
        res
    }

    /// Notes that the backend failed the request.
    pub fn failed(&mut self, exchange: &Exchange, forward: &Forward) -> (res: Failure)
        requires
            errors_countable(old(self).registry, forward.id),
        ensures
            failure_noted(old(self).registry, final(self).registry, forward.id, res.errors),
            res.reply@ == bad_gateway(forward.addr@),
            res.tripped <==> res.errors >= BREAKER_THRESHOLD,
            counts_of(final(self).requests@) == counted(counts_of(old(self).requests@), forward.addr@, 502),
            final(self).config == old(self).config,
            old(self).in_step() ==> final(self).in_step(),
    {
        let ghost before = self.registry;
        let failure = exchange.failed(&mut self.registry, forward);
        proof {
            lemma_end_keeps_step(before, self.registry, forward.id, failure.errors);
        }
        count_request(&mut self.requests, forward.addr.as_str(), 502);
        failure
    }

    /// Notes that the backend did not answer the request in time.
    pub fn timed_out(&mut self, exchange: &Exchange, forward: &Forward) -> (res: Failure)
        requires
            errors_countable(old(self).registry, forward.id),
        ensures
            failure_noted(old(self).registry, final(self).registry, forward.id, res.errors),
            res.reply@ == gateway_timeout(forward.addr@),
            res.tripped <==> res.errors >= BREAKER_THRESHOLD,
            counts_of(final(self).requests@) == counted(counts_of(old(self).requests@), forward.addr@, 504),
            final(self).config == old(self).config,
            old(self).in_step() ==> final(self).in_step(),
    {
        let ghost before = self.registry;
        let failure = exchange.timed_out(&mut self.registry, forward);
        proof {
            lemma_end_keeps_step(before, self.registry, forward.id, failure.errors);
        }
        count_request(&mut self.requests, forward.addr.as_str(), 504);
        failure
    }

    /// Notes that the client left before the backend answered. The request ended with no status, and
    /// counts for none.
    pub fn abandoned(&mut self, exchange: &Exchange, forward: &Forward)
        ensures
            end_noted(old(self).registry, final(self).registry, forward.id),
            final(self).config == old(self).config,
            final(self).requests == old(self).requests,
            old(self).in_step() ==> final(self).in_step(),
    {
        let ghost before = self.registry;
        exchange.abandoned(&mut self.registry, forward);
        proof {
            match place_of(before.backends@, forward.id) {
                Some(i) => lemma_change_keeps_step(before, self.registry, Change::Released { at: i }),
                None => {},
            }
        }
    }

    /// Notes that the backend answered, and says what to do with the response.
    pub fn answered(
        &mut self,
        exchange: &Exchange,
        forward: &Forward,
        status: u16,
        content_length: &Option<Vec<u8>>,
    ) -> (res: Delivery)
        ensures
            answer_noted(old(self).registry, final(self).registry, forward.id),
            exchange.delivers(*forward, status, *content_length, res),
            counts_of(final(self).requests@) == counted(
                counts_of(old(self).requests@),
                forward.addr@,
                status,
            ),
            final(self).config == old(self).config,
            old(self).in_step() ==> final(self).in_step(),
    {
        let ghost before = self.registry;
        let delivery = exchange.answered(&mut self.registry, forward, status, content_length);
        proof {
            lemma_end_keeps_step(before, self.registry, forward.id, 0);
        }
        count_request(&mut self.requests, forward.addr.as_str(), status);
        delivery
    }

    /// Notes whether a health check reached the backend with this id. One that is gone leaves nothing
    /// to note.
    pub fn record_probe(&mut self, id: u64, reachable: bool)
        ensures
            match place_of(old(self).registry.backends@, id) {
                Some(i) => final(self).registry.backends@ == changed(
                    old(self).registry.backends@,
                    Change::Probed { at: i, reachable },
                ),
                None => final(self).registry.backends@ == old(self).registry.backends@,
            },
            final(self).registry.curr == old(self).registry.curr,
            final(self).registry.next_id == old(self).registry.next_id,
            final(self).config == old(self).config,
            final(self).requests == old(self).requests,
            old(self).in_step() ==> final(self).in_step(),
    {
        let ghost before = self.registry;
        match self.registry.locate(id) {
            Some(at) => {
                self.registry.record_probe(at, reachable);
                proof {
                    lemma_change_keeps_step(
                        before,
                        self.registry,
                        Change::Probed { at: at as int, reachable },
                    );
                }
            },
            None => {},
        }
    }

    /// The answer with the metrics as they are now.
    pub fn metrics(&self, exchange: &Exchange) -> (res: Reply)
        ensures
            res@ == metrics_reply(metrics_of(self.registry.backends@, counts_of(self.requests@))),
    {
        exchange.metrics_collected(&self.registry, &self.requests)
    }
}

/// A configuration names an address if and only if one of its backends has it.
pub proof fn law_named_address_is_that_of_a_backend(config: Config, addr: Seq<char>)
    ensures
        names(config, addr) <==> exists|i: int|
            0 <= i < config.backends@.len() && (#[trigger] config.backends@[i]).address@ == addr,
{
    let all = configured(config.backends@);
    if names(config, addr) {
        let i = choose|i: int| 0 <= i < all.len() && all[i] == addr;
        assert(config.backends@[i].address@ == addr);
    }
    if exists|i: int| 0 <= i < config.backends@.len() && (#[trigger] config.backends@[i]).address@ == addr {
        let i = choose|i: int|
            0 <= i < config.backends@.len() && (#[trigger] config.backends@[i]).address@ == addr;
        assert(all[i] == addr);
    }
}

/// In a balancer in step the backends are those of the configuration in force, one for one and in
/// order, no two share an id, and a live one has failed fewer than five requests in a row.
pub proof fn law_balancer_in_step_has_the_named_backends(state: LbState, i: int, j: int)
    requires
        state.in_step(),
        0 <= i < state.registry.backends@.len(),
        0 <= j < state.registry.backends@.len(),
    ensures
        state.registry.backends@.len() == state.config.current().backends@.len(),
        state.registry.backends@[i].addr@ == state.config.current().backends@[i].address@,
        state.registry.backends@[i].id == state.registry.backends@[j].id ==> i == j,
        state.registry.backends@[i].is_alive ==> state.registry.backends@[i].consecutive_errors < 5,
{
    let all = addresses(state.registry.backends@);
    assert(all.len() == configured(state.config.current().backends@).len());
    assert(all[i] == configured(state.config.current().backends@)[i]);
    law_sound_ids_differ(state.registry, i, j);
}

} // verus!
