//! The way of a request up to the point where it is answered or sent to a backend.
//!
//! An [`Exchange`] says what to do next as a [`Step`]. Whoever performs the step hands the outcome
//! back and gets the next one.

use crate::config::Config;
use crate::metrics::{counts_of, metrics_of, metrics_text, RequestCount};
use crate::rate::{law_rate_key_holds_the_address, over_limit, rate_key, rate_key_of, refuses, WINDOW_SECS};
use crate::registry::BackendRegistry;
use crate::reply::{
    from_cache, html, law_cached_bodies_are_told_apart, law_cached_body_is_answered_whole, metrics_reply,
    too_many_requests, BodyView, Reply, ReplyView,
};
use crate::stats::{page_of, stats_page, Hits};
use vstd::prelude::*;

verus! {

/// A request under way: what was asked, by whom, and under which configuration.
pub struct Exchange {
    /// Whether responses are cached.
    pub caching: bool,
    /// How many requests a client may send per window, if that is limited.
    pub rate_limit: Option<u32>,
    /// How long a backend may take to answer, in milliseconds.
    pub timeout_ms: u64,
    /// How many connections to backends may be active at once.
    pub max_connections: usize,
    pub is_get: bool,
    pub client_ip: String,
    pub path: String,
}

/// What is to be done next for a request.
pub enum Step {
    /// Count the request under `key`, and hand the reply to [`Exchange::counted`].
    Count { key: String, max_requests: u32, window_secs: u64 },
    /// Look `key` up in the cache, and hand what is there to [`Exchange::looked_up`].
    LookUp { key: String },
    /// Read all hit counters, and hand them to [`Exchange::stats_collected`].
    CollectStats,
    /// Answer with what [`Exchange::metrics_collected`] makes of the registry and the request counts.
    CollectMetrics,
    /// Send the request to a backend.
    Dispatch,
    /// Answer the client.
    Respond(Reply),
}

/// What a step says.
#[verifier::ext_equal]
pub enum StepView {
    Count { key: Seq<char>, max_requests: u32, window_secs: u64 },
    LookUp { key: Seq<char> },
    CollectStats,
    CollectMetrics,
    Dispatch,
    Respond(ReplyView),
}

impl View for Step {
    type V = StepView;

    open spec fn view(&self) -> StepView {
        match *self {
            Step::Count { key, max_requests, window_secs } => StepView::Count {
                key: key@,
                max_requests,
                window_secs,
            },
            Step::LookUp { key } => StepView::LookUp { key: key@ },
            Step::CollectStats => StepView::CollectStats,
            Step::CollectMetrics => StepView::CollectMetrics,
            Step::Dispatch => StepView::Dispatch,
            Step::Respond(reply) => StepView::Respond(reply@),
        }
    }
}

impl Exchange {
    /// The answer may come out of the cache, and go into it.
    pub open spec fn uses_cache(self) -> bool {
        self.caching && self.is_get
    }

    /// The step for a request that is neither refused nor answered out of the cache.
    pub open spec fn after_cache(self) -> StepView {
        if self.path@ == "/stats"@ {
            StepView::CollectStats
        } else if self.path@ == "/metrics"@ {
            StepView::CollectMetrics
        } else {
            StepView::Dispatch
        }
    }

    /// The step for a request that is not refused.
    pub open spec fn after_limit(self) -> StepView {
        if self.uses_cache() {
            StepView::LookUp { key: self.path@ }
        } else {
            self.after_cache()
        }
    }

    /// The first step for a request.
    pub open spec fn first_step(self) -> StepView {
        match self.rate_limit {
            Some(max_requests) => StepView::Count {
                key: rate_key_of(self.client_ip@),
                max_requests,
                window_secs: WINDOW_SECS,
            },
            None => self.after_limit(),
        }
    }

    /// The step once the request was counted.
    pub open spec fn counted_step(self, reply: Option<Seq<i64>>) -> StepView {
        if self.rate_limit matches Some(max_requests) && over_limit(reply, max_requests) {
            StepView::Respond(too_many_requests())
        } else {
            self.after_limit()
        }
    }

    /// The step once the cache was looked up.
    pub open spec fn looked_up_step(self, found: Option<Seq<u8>>) -> StepView {
        match found {
            Some(body) => StepView::Respond(from_cache(body)),
            None => self.after_cache(),
        }
    }

    /// This is the request with these properties, under `config`.
    pub open spec fn opened(self, config: Config, method: Seq<char>, path: Seq<char>, peer_ip: Option<String>) -> bool {
        &&& self.caching == config.feature_flags.enable_caching
        &&& self.rate_limit == if config.feature_flags.enable_rate_limiting {
            Some(config.feature_flags.rate_limit_per_second)
        } else {
            None
        }
        &&& self.timeout_ms == config.timeout_ms
        &&& self.max_connections == config.max_connections
        &&& self.is_get <==> method == "GET"@
        &&& self.path@ == path
        &&& self.client_ip@ == match peer_ip {
            Some(ip) => ip@,
            None => "unknown"@,
        }
    }

    /// Takes a request on. A client whose address is not known is called `unknown`.
    pub fn open(config: &Config, method: &str, path: &str, peer_ip: Option<String>) -> (res: Exchange)
        ensures
            res.opened(*config, method@, path@, peer_ip),
    {
        Exchange {
            caching: config.feature_flags.enable_caching,
            rate_limit: if config.feature_flags.enable_rate_limiting {
                Some(config.feature_flags.rate_limit_per_second)
            } else {
                None
            },
            timeout_ms: config.timeout_ms,
            max_connections: config.max_connections,
            is_get: method.to_owned() == "GET".to_owned(),
            client_ip: match peer_ip {
                Some(ip) => ip,
                None => "unknown".to_owned(),
            },
            path: path.to_owned(),
        }
    }

    fn past_cache(&self) -> (res: Step)
        ensures
            res@ == self.after_cache(),
    {
        if self.path == "/stats".to_owned() {
            Step::CollectStats
        } else if self.path == "/metrics".to_owned() {
            Step::CollectMetrics
        } else {
            Step::Dispatch
        }
    }

    fn past_limit(&self) -> (res: Step)
        ensures
            res@ == self.after_limit(),
    {
        if self.caching && self.is_get {
            Step::LookUp { key: self.path.clone() }
        } else {
            self.past_cache()
        }
    }

    /// The first step: a limited client's request is counted before anything else.
    pub fn begin(&self) -> (res: Step)
        ensures
            res@ == self.first_step(),
    {
        match self.rate_limit {
            Some(max_requests) => Step::Count {
                key: rate_key(self.client_ip.as_str()),
                max_requests,
                window_secs: WINDOW_SECS,
            },
            None => self.past_limit(),
        }
    }

    /// The step once the request was counted. `reply` is what the script gave, and is missing if the
    /// request could not be counted: then it passes.
    pub fn counted(&self, reply: Option<Vec<i64>>) -> (res: Step)
        requires
            reply matches Some(counts) ==> counts@.len() > 0,
        ensures
            res@ == self.counted_step(
                match reply {
                    Some(counts) => Some(counts@),
                    None => None,
                },
            ),
    {
        match self.rate_limit {
            Some(max_requests) => if refuses(&reply, max_requests) {
                Step::Respond(Reply::too_many_requests())
            } else {
                self.past_limit()
            },
            None => self.past_limit(),
        }
    }

    /// The step once the cache was looked up: what was found is the answer.
    pub fn looked_up(&self, found: Option<Vec<u8>>) -> (res: Step)
        ensures
            res@ == self.looked_up_step(
                match found {
                    Some(body) => Some(body@),
                    None => None,
                },
            ),
    {
        match found {
            Some(body) => Step::Respond(Reply::from_cache(body)),
            None => self.past_cache(),
        }
    }

    /// The answer once the hit counters were read.
    pub fn stats_collected(&self, all: &Vec<Hits>) -> (res: Reply)
        ensures
            res@ == html(page_of(all@)),
    {
        Reply::html(stats_page(all))
    }

    /// The answer with the metrics as they are now.
    pub fn metrics_collected(&self, registry: &BackendRegistry, requests: &Vec<RequestCount>) -> (res: Reply)
        ensures
            res@ == metrics_reply(metrics_of(registry.backends@, counts_of(requests@))),
    {
        Reply::metrics(metrics_text(registry, requests))
    }
}

/// How far a step is from the end of the way.
pub open spec fn distance(step: StepView) -> nat {
    match step {
        StepView::Count { .. } => 3,
        StepView::LookUp { .. } => 2,
        StepView::CollectStats => 1,
        StepView::CollectMetrics => 1,
        StepView::Dispatch => 1,
        StepView::Respond(_) => 0,
    }
}

/// No request goes in circles: it is counted at most once, then looked up at most once.
pub proof fn law_steps_lead_on(
    x: Exchange,
    reply: Option<Seq<i64>>,
    found: Option<Seq<u8>>,
    key: Seq<char>,
    max_requests: u32,
    window_secs: u64,
)
    ensures
        distance(x.counted_step(reply)) < distance(StepView::Count { key, max_requests, window_secs }),
        distance(x.looked_up_step(found)) < distance(StepView::LookUp { key }),
{
}

/// A client over its limit is refused whatever it asks for: neither the cache, nor the statistics,
/// nor a backend is touched for it.
pub proof fn law_refusal_comes_first(x: Exchange, max_requests: u32, reply: Option<Seq<i64>>)
    requires
        x.rate_limit == Some(max_requests),
        over_limit(reply, max_requests),
    ensures
        x.first_step() is Count,
        x.counted_step(reply) == StepView::Respond(too_many_requests()),
{
}

/// A request that cannot be counted is treated as if there was no limit.
pub proof fn law_limit_fails_open(x: Exchange, y: Exchange)
    requires
        y == (Exchange { rate_limit: None, ..x }),
    ensures
        x.counted_step(None) == y.first_step(),
{
}

/// Unless caching is enabled and the request is a `GET`, the cache is not looked up.
pub proof fn law_cache_is_for_get(x: Exchange, reply: Option<Seq<i64>>)
    requires
        !x.caching || !x.is_get,
    ensures
        !(x.first_step() is LookUp),
        !(x.counted_step(reply) is LookUp),
{
}

/// A request for the statistics never reaches a backend.
pub proof fn law_stats_stay_here(x: Exchange, reply: Option<Seq<i64>>, found: Option<Seq<u8>>)
    requires
        x.path@ == "/stats"@,
    ensures
        !(x.first_step() is Dispatch),
        !(x.counted_step(reply) is Dispatch),
        !(x.looked_up_step(found) is Dispatch),
{
}

/// A request for the metrics never reaches a backend: unless it is refused, and as nothing is cached
/// for it, it is answered with them.
pub proof fn law_metrics_stay_here(x: Exchange, reply: Option<Seq<i64>>, found: Option<Seq<u8>>)
    requires
        x.path@ == "/metrics"@,
    ensures
        !(x.first_step() is Dispatch),
        !(x.counted_step(reply) is Dispatch),
        !(x.looked_up_step(found) is Dispatch),
        x.looked_up_step(None) == StepView::CollectMetrics,
        !x.uses_cache() ==> x.after_limit() == StepView::CollectMetrics,
{
    reveal_strlit("/stats");
    reveal_strlit("/metrics");
    assert("/stats"@.len() != "/metrics"@.len());
}

/// A step is seen as it is.
pub proof fn law_step_is_seen_as_it_is(step: Step)
    ensures
        step matches Step::Count { key, max_requests, window_secs } ==> step@ == (StepView::Count {
            key: key@,
            max_requests,
            window_secs,
        }),
        step matches Step::LookUp { key } ==> step@ == (StepView::LookUp { key: key@ }),
        step is CollectStats <==> step@ is CollectStats,
        step is CollectMetrics <==> step@ is CollectMetrics,
        step is Dispatch <==> step@ is Dispatch,
        step matches Step::Respond(reply) ==> step@ == StepView::Respond(reply@),
{
}

/// A request is taken on as it came: with its path, its method, its client, and the settings of the
/// configuration.
pub proof fn law_request_is_taken_as_it_came(
    x: Exchange,
    config: Config,
    method: Seq<char>,
    path: Seq<char>,
    peer_ip: Option<String>,
)
    requires
        x.opened(config, method, path, peer_ip),
    ensures
        x.path@ == path,
        x.is_get <==> method == seq!['G', 'E', 'T'],
        peer_ip matches Some(ip) ==> x.client_ip@ == ip@,
        peer_ip is None ==> x.client_ip@ == seq!['u', 'n', 'k', 'n', 'o', 'w', 'n'],
        x.caching == config.feature_flags.enable_caching,
        config.feature_flags.enable_rate_limiting ==> x.rate_limit == Some(
            config.feature_flags.rate_limit_per_second,
        ),
        !config.feature_flags.enable_rate_limiting ==> x.rate_limit is None,
        x.timeout_ms == config.timeout_ms,
        x.max_connections == config.max_connections,
{
    reveal_strlit("GET");
    reveal_strlit("unknown");
    assert("GET"@ =~= seq!['G', 'E', 'T']);
    assert("unknown"@ =~= seq!['u', 'n', 'k', 'n', 'o', 'w', 'n']);
}

/// Of the requests that are neither refused nor answered out of the cache, the balancer answers those
/// for two paths itself, and sends all others to a backend. Nothing but the path decides.
pub proof fn law_path_decides_who_answers(x: Exchange)
    ensures
        x.after_cache() is CollectStats <==> x.path@ == seq!['/', 's', 't', 'a', 't', 's'],
        x.after_cache() is CollectMetrics <==> x.path@ == seq!['/', 'm', 'e', 't', 'r', 'i', 'c', 's'],
        x.after_cache() is Dispatch <==> x.path@ != seq!['/', 's', 't', 'a', 't', 's'] && x.path@ != seq![
            '/',
            'm',
            'e',
            't',
            'r',
            'i',
            'c',
            's',
        ],
{
    reveal_strlit("/stats");
    reveal_strlit("/metrics");
    assert("/stats"@ =~= seq!['/', 's', 't', 'a', 't', 's']);
    assert("/metrics"@ =~= seq!['/', 'm', 'e', 't', 'r', 'i', 'c', 's']);
    assert("/stats"@.len() != "/metrics"@.len());
}

/// The cache is looked up for a `GET` while caching is enabled, for no other request, and under the
/// path of the request. What is not looked up, or not found, goes on as if there was no cache.
pub proof fn law_cache_is_asked_for_the_path(x: Exchange, y: Exchange)
    requires
        y == (Exchange { caching: false, ..x }),
    ensures
        x.caching && x.is_get ==> x.after_limit() == (StepView::LookUp { key: x.path@ }),
        !x.caching || !x.is_get ==> x.after_limit() == x.after_cache(),
        x.looked_up_step(None) == x.after_cache(),
        x.looked_up_step(None) == y.after_limit(),
{
}

/// A limited client is counted first, under its address, its limit and one second. Any other request
/// is neither counted nor refused.
pub proof fn law_limited_clients_are_counted(x: Exchange)
    ensures
        x.rate_limit matches Some(m) ==> {
            &&& x.first_step() matches StepView::Count { key, max_requests, window_secs }
            &&& key.take(11) == seq!['r', 'a', 't', 'e', '_', 'l', 'i', 'm', 'i', 't', ':']
            &&& key.skip(11) == x.client_ip@
            &&& max_requests == m
            &&& window_secs == 1
        },
        x.rate_limit is None ==> x.first_step() == x.after_limit(),
        !(x.after_limit() is Count),
        !(x.after_limit() is Respond),
{
    law_rate_key_holds_the_address(x.client_ip@);
}

/// A counted request is refused if and only if its count is above the limit, whatever its method, its
/// path and its client are.
pub proof fn law_only_the_count_refuses(x: Exchange, max_requests: u32, counts: Seq<i64>)
    requires
        x.rate_limit == Some(max_requests),
    ensures
        x.counted_step(Some(counts)) is Respond <==> counts[0] > max_requests,
        counts[0] > max_requests ==> (x.counted_step(Some(counts)) matches StepView::Respond(r) && r.status
            == 429),
{
}

/// A request within the limit goes on as it would without a limit.
pub proof fn law_limit_is_not_felt_below_it(x: Exchange, y: Exchange, max_requests: u32, counts: Seq<i64>)
    requires
        x.rate_limit == Some(max_requests),
        counts[0] <= max_requests,
        y == (Exchange { rate_limit: None, ..x }),
    ensures
        x.counted_step(Some(counts)) == y.first_step(),
{
}

/// What the cache holds is the answer: status 200, and every byte of it. Different bodies give
/// different answers.
pub proof fn law_cache_hit_is_answered_with_what_was_found(x: Exchange, a: Seq<u8>, b: Seq<u8>)
    ensures
        x.looked_up_step(Some(a)) matches StepView::Respond(r) && r.status == 200 && (
        r.body matches BodyView::Bytes(bytes) && bytes.len() == a.len() && forall|i: int|
            0 <= i < a.len() ==> #[trigger] bytes[i] == a[i]),
        x.looked_up_step(Some(a)) == x.looked_up_step(Some(b)) ==> a == b,
{
    law_cached_body_is_answered_whole(a);
    if x.looked_up_step(Some(a)) == x.looked_up_step(Some(b)) {
        law_cached_bodies_are_told_apart(a, b);
    }
}

} // verus!
