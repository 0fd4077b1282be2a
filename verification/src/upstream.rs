//! The way of a request to a backend and of the response back.

use crate::exchange::{Exchange, StepView};
use crate::length::{announced, announced_length};
use crate::registry::{
    law_backend_is_found_by_id, least_loaded, none_alive, place_of, Backend, BackendRegistry, BREAKER_THRESHOLD,
};
use crate::reply::{bad_gateway, busy, from_cache, gateway_timeout, no_backend, BodyView, Reply};
use crate::selection::law_least_loaded_is_unique;
use crate::stats::{hits_key, hits_key_of, law_hits_key_holds_the_address};
use crate::upkeep::{
    changed, law_connections_stay_within_the_maximum, law_each_change_does_its_own, law_release_undoes_connect,
    lemma_change_keeps_identity, total_active, Change,
};
use vstd::prelude::*;
use vstd::string::StringExecFns;
use vstd::utf8::encode_utf8;

verus! {

/// Responses longer than this many bytes are not cached.
pub const MAX_CACHED_BYTES: usize = 5242880;

/// How many bytes of bodies the cache holds.
pub const CACHE_CAPACITY_BYTES: u64 = 104857600;

/// How long a response stays in the cache, in seconds.
pub const CACHE_TTL_SECS: u64 = 60;

/// `text` can be read as a URI.
pub uninterp spec fn is_uri(text: Seq<char>) -> bool;

/// Calls `<hyper::Uri as FromStr>::from_str`. It claims that whether the text is taken as a URI
/// depends on nothing but the text; what a URI is made of is left unsaid.
#[verifier::external_body]
fn uri_accepts(text: &str) -> (res: bool)
    ensures
        res == is_uri(text@),
{
    text.parse::<hyper::Uri>().is_ok()
}

/// `text` can be the value of a header: it has no control characters other than tabs.
pub open spec fn is_header_value(text: Seq<char>) -> bool {
    forall|i: int|
        0 <= i < encode_utf8(text).len() ==> {
            let b = #[trigger] encode_utf8(text)[i];
            b == 9 || (b >= 32 && b != 127)
        }
}

/// Calls `hyper::header::HeaderValue::from_str`. It claims that a text is taken as the value of a
/// header if and only if every byte of it is a tab, or is at least 32 and not 127.
#[verifier::external_body]
fn header_accepts(text: &str) -> (res: bool)
    ensures
        res == is_header_value(text@),
{
    hyper::header::HeaderValue::from_str(text).is_ok()
}

/// Where a request goes: the backend that was picked, and the URI to ask it for.
pub struct Route {
    /// The id of the backend.
    pub id: u64,
    pub addr: String,
    pub uri: String,
}

/// A request as it goes out to a backend.
pub struct Forward {
    /// The id of the backend.
    pub id: u64,
    pub addr: String,
    pub uri: String,
    /// How long the backend may take to answer, in milliseconds.
    pub timeout_ms: u64,
    /// The value of `X-Forwarded-For`.
    pub forwarded_for: String,
}

/// Why a request cannot go out.
#[derive(Debug, Clone, Copy, PartialEq, Eq, Structural)]
pub enum ForwardError {
    /// The backend's address and the path make no URI.
    InvalidUri,
    /// The client's address makes no header value.
    InvalidClient,
}

/// What becomes of a request that is to be sent to a backend.
pub enum Dispatch {
    /// There is no backend, or too much is going on: answer the client.
    Refused(Reply),
    /// Send the request.
    Forward(Forward),
    /// Drop the connection.
    Aborted(ForwardError),
}

/// What follows from a failed request.
pub struct Failure {
    /// The answer to the client.
    pub reply: Reply,
    /// How many requests the backend has failed in a row, as far as the registry still holds it.
    pub errors: usize,
    /// Whether the breaker took the backend out of rotation.
    pub tripped: bool,
}

/// What to do with a response.
pub struct Delivery {
    /// The counter to count up by one, if any.
    pub count_hit: Option<String>,
    /// Under what and as how long the body is put into the cache, if it is. Either way the response
    /// goes to the client.
    pub store: Option<(String, usize)>,
    /// Whether the response would be put into the cache if it were not too long.
    pub too_long: bool,
}

/// The URI of `path` at the backend `addr`.
pub open spec fn upstream_uri(addr: Seq<char>, path: Seq<char>) -> Seq<char> {
    "http://"@ + addr + path
}

/// How a request came to its end.
pub enum Outcome {
    /// A backend answered it.
    Answered { addr: Seq<char>, status: u16 },
    /// A backend failed it, or took too long.
    Failed { addr: Seq<char> },
    /// It was answered without a backend: refused, out of the cache, or with the balancer's own
    /// pages.
    Local,
}

/// The counter that the outcome of a request counts up, if any.
pub open spec fn hit_of(outcome: Outcome) -> Option<Seq<char>> {
    match outcome {
        Outcome::Answered { addr, status } => if is_success(status) {
            Some(hits_key_of(addr))
        } else {
            None
        },
        _ => None,
    }
}

/// One more failure of the backend with this id can be counted, if the registry holds it.
pub open spec fn errors_countable(registry: BackendRegistry, id: u64) -> bool {
    place_of(registry.backends@, id) matches Some(i) ==> registry.backends@[i].consecutive_errors < usize::MAX
}

/// The registry `after` notes that the backend with this id is done with a request and failed it. One
/// that is gone leaves nothing to note.
pub open spec fn failure_noted(before: BackendRegistry, after: BackendRegistry, id: u64, errors: usize) -> bool {
    &&& after.curr == before.curr
    &&& after.next_id == before.next_id
    &&& match place_of(before.backends@, id) {
        Some(i) => {
            &&& after.backends@ == changed(
                changed(before.backends@, Change::Released { at: i }),
                Change::Failed { at: i },
            )
            &&& errors == before.backends@[i].consecutive_errors + 1
        },
        None => after.backends@ == before.backends@ && errors == 0,
    }
}

/// The registry `after` notes that the backend with this id answered a request. One that is gone
/// leaves nothing to note.
pub open spec fn answer_noted(before: BackendRegistry, after: BackendRegistry, id: u64) -> bool {
    &&& after.curr == before.curr
    &&& after.next_id == before.next_id
    &&& match place_of(before.backends@, id) {
        Some(i) => after.backends@ == changed(
            changed(before.backends@, Change::Released { at: i }),
            Change::Answered { at: i },
        ),
        None => after.backends@ == before.backends@,
    }
}

/// The registry `after` notes that a request to the backend with this id is over without an outcome.
/// One that is gone leaves nothing to note.
pub open spec fn end_noted(before: BackendRegistry, after: BackendRegistry, id: u64) -> bool {
    &&& after.curr == before.curr
    &&& after.next_id == before.next_id
    &&& match place_of(before.backends@, id) {
        Some(i) => after.backends@ == changed(before.backends@, Change::Released { at: i }),
        None => after.backends@ == before.backends@,
    }
}

/// `status` says that the request succeeded.
pub open spec fn is_success(status: u16) -> bool {
    200 <= status < 300
}

impl Exchange {
    /// A response with this status and length goes into the cache.
    pub open spec fn stores(self, status: u16, content_length: Option<Seq<u8>>) -> bool {
        self.uses_cache() && is_success(status) && announced(content_length) <= MAX_CACHED_BYTES
    }

    /// A response with this status and length would go into the cache if it were shorter.
    pub open spec fn exceeds_cache(self, status: u16, content_length: Option<Seq<u8>>) -> bool {
        self.uses_cache() && is_success(status) && announced(content_length) > MAX_CACHED_BYTES
    }

    /// What `dispatch` makes of the registry `before`, which leaves it as `after`.
    pub open spec fn dispatches(self, before: BackendRegistry, after: BackendRegistry, res: Dispatch) -> bool {
        &&& after.curr == before.curr
        &&& after.next_id == before.next_id
        &&& match res {
            Dispatch::Refused(reply) => {
                &&& after.backends@ == before.backends@
                &&& if none_alive(before.backends@) {
                    reply@ == no_backend()
                } else {
                    total_active(before.backends@) >= self.max_connections && reply@ == busy()
                }
            },
            Dispatch::Forward(f) => exists|i: int|
                {
                    &&& #[trigger] least_loaded(before.backends@, i)
                    &&& total_active(before.backends@) < self.max_connections
                    &&& f.id == before.backends@[i].id
                    &&& f.addr@ == before.backends@[i].addr@
                    &&& f.uri@ == upstream_uri(f.addr@, self.path@)
                    &&& is_uri(f.uri@)
                    &&& f.timeout_ms == self.timeout_ms
                    &&& f.forwarded_for@ == self.client_ip@
                    &&& is_header_value(self.client_ip@)
                    &&& after.backends@ == changed(before.backends@, Change::Connected { at: i })
                },
            Dispatch::Aborted(e) => exists|i: int|
                {
                    let uri = upstream_uri(before.backends@[i].addr@, self.path@);
                    &&& #[trigger] least_loaded(before.backends@, i)
                    &&& total_active(before.backends@) < self.max_connections
                    &&& match e {
                        ForwardError::InvalidUri => !is_uri(uri),
                        ForwardError::InvalidClient => is_uri(uri) && !is_header_value(self.client_ip@),
                    }
                    &&& after.backends@ == before.backends@
                },
        }
    }

    /// Picks the live backend with the fewest active connections, unless as many are active as may
    /// be. The registry is left as it is.
    pub fn route(&self, registry: &BackendRegistry) -> (res: Result<(usize, Route), Reply>)
        ensures
            match res {
                Ok((at, route)) => {
                    &&& least_loaded(registry.backends@, at as int)
                    &&& total_active(registry.backends@) < self.max_connections
                    &&& route.id == registry.backends@[at as int].id
                    &&& route.addr@ == registry.backends@[at as int].addr@
                    &&& route.uri@ == upstream_uri(route.addr@, self.path@)
                },
                Err(reply) => if none_alive(registry.backends@) {
                    reply@ == no_backend()
                } else {
                    total_active(registry.backends@) >= self.max_connections && reply@ == busy()
                },
            },
    {
        match registry.least_connections_at() {
            Some(at) => {
                if registry.at_capacity(self.max_connections) {
                    return Err(Reply::busy());
                }
                let addr: String = registry.backends[at].addr.clone();
                let uri: String = "http://".to_owned().concat(addr.as_str()).concat(self.path.as_str());
                Ok((at, Route { id: registry.backends[at].id, addr, uri }))
            },
            None => Err(Reply::no_backend()),
        }
    }

    /// The request as it goes out on `route`, given whether its URI is one and whether the client's
    /// address can be the value of a header.
    pub fn prepare(&self, route: Route, uri_ok: bool, client_ok: bool) -> (res: Result<Forward, ForwardError>)
        ensures
            match res {
                Ok(f) => {
                    &&& uri_ok && client_ok
                    &&& f.id == route.id
                    &&& f.addr@ == route.addr@
                    &&& f.uri@ == route.uri@
                    &&& f.timeout_ms == self.timeout_ms
                    &&& f.forwarded_for@ == self.client_ip@
                },
                Err(ForwardError::InvalidUri) => !uri_ok,
                Err(ForwardError::InvalidClient) => uri_ok && !client_ok,
            },
    {
        if !uri_ok {
            return Err(ForwardError::InvalidUri);
        }
        if !client_ok {
            return Err(ForwardError::InvalidClient);
        }
        Ok(
            Forward {
                id: route.id,
                addr: route.addr,
                uri: route.uri,
                timeout_ms: self.timeout_ms,
                forwarded_for: self.client_ip.clone(),
            },
        )
    }

    /// Sends the request to the live backend with the fewest active connections, of which it then is
    /// one. A request that cannot go out changes nothing.
    pub fn dispatch(&self, registry: &mut BackendRegistry) -> (res: Dispatch)
        ensures
            self.dispatches(*old(registry), *final(registry), res),
            res is Forward ==> total_active(final(registry).backends@) <= self.max_connections,
            !(res is Forward) ==> *final(registry) == *old(registry),
    {
        match self.route(registry) {
            Err(reply) => Dispatch::Refused(reply),
            Ok((at, route)) => {
                assert(least_loaded(registry.backends@, at as int));
                let uri_ok: bool = uri_accepts(route.uri.as_str());
                let client_ok: bool = header_accepts(self.client_ip.as_str());
                match self.prepare(route, uri_ok, client_ok) {
                    Ok(forward) => {
                        proof {
                            law_connections_stay_within_the_maximum(
                                registry.backends@,
                                at as int,
                                self.max_connections,
                            );
                        }
                        registry.connect(at);
                        Dispatch::Forward(forward)
                    },
                    Err(e) => Dispatch::Aborted(e),
                }
            },
        }
    }

    /// Notes in the registry that the backend is done with the request, and failed it. Gives its
    /// failures in a row, which are none if the registry no longer holds the backend.
    fn note_failure(&self, registry: &mut BackendRegistry, forward: &Forward) -> (errors: usize)
        requires
            errors_countable(*old(registry), forward.id),
        ensures
            failure_noted(*old(registry), *final(registry), forward.id, errors),
    {
        match registry.locate(forward.id) {
            Some(at) => {
                registry.release(at);
                registry.record_failure(at)
            },
            None => 0,
        }
    }

    /// Notes that the backend failed the request.
    pub fn failed(&self, registry: &mut BackendRegistry, forward: &Forward) -> (res: Failure)
        requires
            errors_countable(*old(registry), forward.id),
        ensures
            failure_noted(*old(registry), *final(registry), forward.id, res.errors),
            res.reply@ == bad_gateway(forward.addr@),
            res.tripped <==> res.errors >= BREAKER_THRESHOLD,
    {
        let errors: usize = self.note_failure(registry, forward);
        Failure {
            reply: Reply::bad_gateway(forward.addr.as_str()),
            errors,
            tripped: errors >= BREAKER_THRESHOLD,
        }
    }

    /// Notes that the backend did not answer the request in time, which is a failure too.
    pub fn timed_out(&self, registry: &mut BackendRegistry, forward: &Forward) -> (res: Failure)
        requires
            errors_countable(*old(registry), forward.id),
        ensures
            failure_noted(*old(registry), *final(registry), forward.id, res.errors),
            res.reply@ == gateway_timeout(forward.addr@),
            res.tripped <==> res.errors >= BREAKER_THRESHOLD,
    {
        let errors: usize = self.note_failure(registry, forward);
        Failure {
            reply: Reply::gateway_timeout(forward.addr.as_str()),
            errors,
            tripped: errors >= BREAKER_THRESHOLD,
        }
    }

    /// Notes that the client left before the backend answered, of which the backend has no fault.
    pub fn abandoned(&self, registry: &mut BackendRegistry, forward: &Forward)
        ensures
            end_noted(*old(registry), *final(registry), forward.id),
    {
        match registry.locate(forward.id) {
            Some(at) => registry.release(at),
            None => {},
        }
    }

    /// Notes that the backend answered, whatever the status, and says what to do with the response.
    /// A success is counted as a hit, and is cached if it may be and announces that it is not too
    /// long.
    pub fn answered(
        &self,
        registry: &mut BackendRegistry,
        forward: &Forward,
        status: u16,
        content_length: &Option<Vec<u8>>,
    ) -> (res: Delivery)
        ensures
            answer_noted(*old(registry), *final(registry), forward.id),
            self.delivers(*forward, status, *content_length, res),
    {
        match registry.locate(forward.id) {
            Some(at) => {
                registry.release(at);
                registry.record_answer(at);
            },
            None => {},
        }
        let success: bool = 200 <= status && status < 300;
        let count_hit: Option<String> = if success {
            Some(hits_key(forward.addr.as_str()))
        } else {
            None
        };
        let length: usize = announced_length(content_length);
        let cacheable: bool = self.caching && self.is_get && success;
        let store: Option<(String, usize)> = if cacheable && length <= MAX_CACHED_BYTES {
            Some((self.path.clone(), length))
        } else {
            None
        };
        Delivery { count_hit, store, too_long: cacheable && length > MAX_CACHED_BYTES }
    }

    /// What is to be done with a response with this status and this `Content-Length`.
    pub open spec fn delivers(
        self,
        forward: Forward,
        status: u16,
        content_length: Option<Vec<u8>>,
        res: Delivery,
    ) -> bool {
        let header = match content_length {
            Some(text) => Some(text@),
            None => None,
        };
        &&& match res.count_hit {
            Some(key) => hit_of(Outcome::Answered { addr: forward.addr@, status }) == Some(key@),
            None => hit_of(Outcome::Answered { addr: forward.addr@, status }) is None,
        }
        &&& match res.store {
            Some((key, length)) => self.stores(status, header) && key@ == self.path@ && length == announced(
                header,
            ),
            None => !self.stores(status, header),
        }
        &&& res.too_long == self.exceeds_cache(status, header)
    }
}

/// Unless caching is enabled and the request is a `GET`, nothing goes into the cache.
pub proof fn law_only_get_is_stored(x: Exchange, status: u16, content_length: Option<Seq<u8>>)
    requires
        !x.caching || !x.is_get,
    ensures
        !x.stores(status, content_length),
{
}

/// A response that does not announce its length does not go into the cache.
pub proof fn law_unknown_length_is_not_stored(x: Exchange, status: u16)
    ensures
        !x.stores(status, None),
{
}

/// What one request put into the cache, a later one for the same path looks up under the same key
/// once it is not refused, and is answered with.
pub proof fn law_stored_response_is_served(
    writer: Exchange,
    reader: Exchange,
    status: u16,
    content_length: Option<Seq<u8>>,
    body: Seq<u8>,
)
    requires
        writer.stores(status, content_length),
        reader.caching,
        reader.is_get,
        reader.path@ == writer.path@,
    ensures
        reader.after_limit() == (StepView::LookUp { key: writer.path@ }),
        reader.looked_up_step(Some(body)) == StepView::Respond(from_cache(body)),
{
}

/// A request that was sent to a backend and comes back answered leaves the load of every backend as it
/// was, and the answering one with a clean record.
pub proof fn law_answer_restores_load(
    before: BackendRegistry,
    sent: BackendRegistry,
    done: BackendRegistry,
    x: Exchange,
    f: Forward,
)
    requires
        before.sound(),
        x.dispatches(before, sent, Dispatch::Forward(f)),
        answer_noted(sent, done, f.id),
    ensures
        exists|i: int|
            {
                &&& #[trigger] least_loaded(before.backends@, i)
                &&& done.backends@ == before.backends@.update(
                    i,
                    Backend { consecutive_errors: 0, ..before.backends@[i] },
                )
            },
{
    let i = choose|i: int|
        #[trigger] least_loaded(before.backends@, i) && f.id == before.backends@[i].id && sent.backends@
            == changed(before.backends@, Change::Connected { at: i });
    law_backend_is_found_by_id(before.backends@, before.next_id, i);
    lemma_change_keeps_identity(before.backends@, Change::Connected { at: i });
    assert(place_of(sent.backends@, f.id) == Some(i));
    law_release_undoes_connect(before.backends@, i);
    assert(least_loaded(before.backends@, i));
}

/// A request that was sent to a backend and fails leaves the load of every backend as it was, and
/// nothing but one more failure of the backend that failed it.
pub proof fn law_failure_restores_load(
    before: BackendRegistry,
    sent: BackendRegistry,
    done: BackendRegistry,
    x: Exchange,
    f: Forward,
    errors: usize,
)
    requires
        before.sound(),
        x.dispatches(before, sent, Dispatch::Forward(f)),
        failure_noted(sent, done, f.id, errors),
    ensures
        exists|i: int|
            {
                &&& #[trigger] least_loaded(before.backends@, i)
                &&& done.backends@ == changed(before.backends@, Change::Failed { at: i })
            },
{
    let i = choose|i: int|
        #[trigger] least_loaded(before.backends@, i) && f.id == before.backends@[i].id && sent.backends@
            == changed(before.backends@, Change::Connected { at: i });
    law_backend_is_found_by_id(before.backends@, before.next_id, i);
    lemma_change_keeps_identity(before.backends@, Change::Connected { at: i });
    assert(place_of(sent.backends@, f.id) == Some(i));
    law_release_undoes_connect(before.backends@, i);
    assert(least_loaded(before.backends@, i));
}

/// A request that was sent to a backend and whose client leaves changes nothing.
pub proof fn law_abandoned_request_leaves_no_trace(
    before: BackendRegistry,
    sent: BackendRegistry,
    done: BackendRegistry,
    x: Exchange,
    f: Forward,
)
    requires
        before.sound(),
        x.dispatches(before, sent, Dispatch::Forward(f)),
        end_noted(sent, done, f.id),
    ensures
        done.backends@ == before.backends@,
        done.curr == before.curr,
        done.next_id == before.next_id,
{
    let i = choose|i: int|
        #[trigger] least_loaded(before.backends@, i) && f.id == before.backends@[i].id && sent.backends@
            == changed(before.backends@, Change::Connected { at: i });
    law_backend_is_found_by_id(before.backends@, before.next_id, i);
    lemma_change_keeps_identity(before.backends@, Change::Connected { at: i });
    assert(place_of(sent.backends@, f.id) == Some(i));
    law_release_undoes_connect(before.backends@, i);
}

/// What comes of a request whose backend the configuration no longer names changes nothing.
pub proof fn law_gone_backend_leaves_no_trace(before: BackendRegistry, after: BackendRegistry, id: u64, errors: usize)
    requires
        place_of(before.backends@, id) is None,
        answer_noted(before, after, id) || failure_noted(before, after, id, errors) || end_noted(
            before,
            after,
            id,
        ),
    ensures
        after.backends@ == before.backends@,
{
}

/// The URI of a request is `http://`, the address of the backend and the path, each whole and once.
pub proof fn law_uri_is_the_path_at_the_backend(addr: Seq<char>, path: Seq<char>)
    ensures
        upstream_uri(addr, path).len() == 7 + addr.len() + path.len(),
        upstream_uri(addr, path).take(7) == seq!['h', 't', 't', 'p', ':', '/', '/'],
        upstream_uri(addr, path).subrange(7, 7int + addr.len()) == addr,
        upstream_uri(addr, path).skip(7int + addr.len()) == path,
{
    reveal_strlit("http://");
    let uri = upstream_uri(addr, path);
    assert(uri.take(7) =~= seq!['h', 't', 't', 'p', ':', '/', '/']);
    assert(uri.subrange(7, 7int + addr.len()) =~= addr);
    assert(uri.skip(7int + addr.len()) =~= path);
}

/// Requests to one backend have the same URI only if they have the same path.
pub proof fn law_paths_are_told_apart_at_the_backend(addr: Seq<char>, a: Seq<char>, b: Seq<char>)
    requires
        upstream_uri(addr, a) == upstream_uri(addr, b),
    ensures
        a == b,
{
    law_uri_is_the_path_at_the_backend(addr, a);
    law_uri_is_the_path_at_the_backend(addr, b);
}

/// A request that goes out carries what the client asked for: it goes to the address and under the id
/// of one live backend that no live one has fewer active connections than, asks it for the path of the
/// request, names the client, and has the time that is configured. That backend then has one active
/// connection more, and nothing else changes.
pub proof fn law_forward_carries_the_request(
    before: BackendRegistry,
    after: BackendRegistry,
    x: Exchange,
    f: Forward,
) -> (i: int)
    requires
        x.dispatches(before, after, Dispatch::Forward(f)),
    ensures
        0 <= i < before.backends@.len(),
        before.backends@[i].is_alive,
        forall|j: int|
            0 <= j < before.backends@.len() && (#[trigger] before.backends@[j]).is_alive
                ==> before.backends@[i].active_connections <= before.backends@[j].active_connections,
        f.id == before.backends@[i].id,
        f.addr@ == before.backends@[i].addr@,
        f.uri@.take(7) == seq!['h', 't', 't', 'p', ':', '/', '/'],
        f.uri@.subrange(7, 7int + f.addr@.len()) == f.addr@,
        f.uri@.skip(7int + f.addr@.len()) == x.path@,
        is_uri(f.uri@),
        f.forwarded_for@ == x.client_ip@,
        f.timeout_ms == x.timeout_ms,
        total_active(before.backends@) < x.max_connections,
        after.backends@.len() == before.backends@.len(),
        after.backends@[i] == (Backend {
            active_connections: (before.backends@[i].active_connections + 1) as usize,
            ..before.backends@[i]
        }),
        forall|j: int|
            0 <= j < before.backends@.len() && j != i ==> #[trigger] after.backends@[j] == before.backends@[j],
        after.curr == before.curr,
        after.next_id == before.next_id,
{
    let i = choose|i: int|
        {
            &&& #[trigger] least_loaded(before.backends@, i)
            &&& total_active(before.backends@) < x.max_connections
            &&& f.id == before.backends@[i].id
            &&& f.addr@ == before.backends@[i].addr@
            &&& f.uri@ == upstream_uri(f.addr@, x.path@)
            &&& is_uri(f.uri@)
            &&& f.timeout_ms == x.timeout_ms
            &&& f.forwarded_for@ == x.client_ip@
            &&& is_header_value(x.client_ip@)
            &&& after.backends@ == changed(before.backends@, Change::Connected { at: i })
        };
    assert(least_loaded(before.backends@, i));
    law_uri_is_the_path_at_the_backend(f.addr@, x.path@);
    law_connections_stay_within_the_maximum(before.backends@, i, x.max_connections);
    lemma_part_of_total(before.backends@, i);
    law_each_change_does_its_own(before.backends@[i], i);
    i
}

/// No backend has more active connections than all together.
proof fn lemma_part_of_total(backends: Seq<Backend>, i: int)
    requires
        0 <= i < backends.len(),
    ensures
        backends[i].active_connections <= total_active(backends),
    decreases backends.len(),
{
    if i < backends.len() - 1 {
        lemma_part_of_total(backends.drop_last(), i);
    }
}

/// A request is refused if and only if no backend is live or as many connections are active as may be,
/// and then nothing changes. The answer has status 503 and says which of the two it is.
pub proof fn law_request_is_refused_only_for_want_of_room(
    before: BackendRegistry,
    after: BackendRegistry,
    x: Exchange,
    res: Dispatch,
)
    requires
        x.dispatches(before, after, res),
    ensures
        res is Refused <==> total_active(before.backends@) >= x.max_connections || forall|i: int|
            0 <= i < before.backends@.len() ==> !(#[trigger] before.backends@[i]).is_alive,
        res matches Dispatch::Refused(reply) ==> {
            &&& reply@.status == 503
            &&& after.backends@ == before.backends@
            &&& reply@.body == if (forall|i: int|
                0 <= i < before.backends@.len() ==> !(#[trigger] before.backends@[i]).is_alive) {
                BodyView::Text("No healthy backends avaiable\n"@)
            } else {
                BodyView::Text("Too many active connections\n"@)
            }
        },
{
    match res {
        Dispatch::Forward(f) => {
            let i = law_forward_carries_the_request(before, after, x, f);
            assert(before.backends@[i].is_alive);
        },
        Dispatch::Aborted(e) => {
            let i = choose|i: int|
                #[trigger] least_loaded(before.backends@, i) && total_active(before.backends@)
                    < x.max_connections;
            assert(before.backends@[i].is_alive);
        },
        Dispatch::Refused(_) => {},
    }
}

/// A request that is not refused goes out if its URI and its client's name can be used, and is dropped
/// if and only if one of them cannot, and then nothing changes. `i` is where it would go.
pub proof fn law_request_is_dropped_only_for_bad_text(
    before: BackendRegistry,
    after: BackendRegistry,
    x: Exchange,
    res: Dispatch,
    i: int,
)
    requires
        x.dispatches(before, after, res),
        !(res is Refused),
        least_loaded(before.backends@, i),
    ensures
        res is Forward <==> is_uri("http://"@ + before.backends@[i].addr@ + x.path@) && is_header_value(x.client_ip@),
        res is Aborted ==> after.backends@ == before.backends@ && after.curr == before.curr,
        res matches Dispatch::Aborted(e) ==> (e == ForwardError::InvalidUri <==> !is_uri(
            "http://"@ + before.backends@[i].addr@ + x.path@,
        )),
{
    match res {
        Dispatch::Forward(f) => {
            let k = choose|k: int|
                #[trigger] least_loaded(before.backends@, k) && f.addr@ == before.backends@[k].addr@ && f.uri@
                    == upstream_uri(f.addr@, x.path@) && is_uri(f.uri@) && is_header_value(x.client_ip@);
            law_least_loaded_is_unique(before.backends@, i, k);
        },
        Dispatch::Aborted(e) => {
            let k = choose|k: int|
                {
                    let uri = upstream_uri(before.backends@[k].addr@, x.path@);
                    &&& #[trigger] least_loaded(before.backends@, k)
                    &&& match e {
                        ForwardError::InvalidUri => !is_uri(uri),
                        ForwardError::InvalidClient => is_uri(uri) && !is_header_value(x.client_ip@),
                    }
                };
            law_least_loaded_is_unique(before.backends@, i, k);
        },
        Dispatch::Refused(_) => {},
    }
}

/// The backend that answered has one active connection less and a clean record, and nothing else
/// changes.
pub proof fn law_answer_is_noted_at_its_backend(before: BackendRegistry, after: BackendRegistry, i: int)
    requires
        before.sound(),
        0 <= i < before.backends@.len(),
        before.backends@[i].active_connections > 0,
        answer_noted(before, after, before.backends@[i].id),
    ensures
        after.backends@ == before.backends@.update(
            i,
            (Backend {
                active_connections: (before.backends@[i].active_connections - 1) as usize,
                consecutive_errors: 0,
                ..before.backends@[i]
            }),
        ),
        after.curr == before.curr,
        after.next_id == before.next_id,
{
    law_backend_is_found_by_id(before.backends@, before.next_id, i);
    law_each_change_does_its_own(before.backends@[i], i);
    let b = (Change::Released { at: i }).on(before.backends@[i]);
    law_each_change_does_its_own(b, i);
}

/// The backend that failed a request has one active connection less and one failure more, and is out of
/// rotation if that is the fifth in a row. Nothing else changes.
pub proof fn law_failure_is_noted_at_its_backend(before: BackendRegistry, after: BackendRegistry, i: int, errors: usize)
    requires
        before.sound(),
        0 <= i < before.backends@.len(),
        before.backends@[i].active_connections > 0,
        before.backends@[i].consecutive_errors < usize::MAX,
        failure_noted(before, after, before.backends@[i].id, errors),
    ensures
        errors == before.backends@[i].consecutive_errors + 1,
        after.backends@ == before.backends@.update(
            i,
            (Backend {
                active_connections: (before.backends@[i].active_connections - 1) as usize,
                consecutive_errors: errors,
                is_alive: before.backends@[i].is_alive && errors < 5,
                ..before.backends@[i]
            }),
        ),
        after.curr == before.curr,
        after.next_id == before.next_id,
{
    law_backend_is_found_by_id(before.backends@, before.next_id, i);
    law_each_change_does_its_own(before.backends@[i], i);
    let b = (Change::Released { at: i }).on(before.backends@[i]);
    law_each_change_does_its_own(b, i);
}

/// The backend whose request was abandoned has one active connection less, and nothing else changes.
pub proof fn law_end_is_noted_at_its_backend(before: BackendRegistry, after: BackendRegistry, i: int)
    requires
        before.sound(),
        0 <= i < before.backends@.len(),
        before.backends@[i].active_connections > 0,
        end_noted(before, after, before.backends@[i].id),
    ensures
        after.backends@ == before.backends@.update(
            i,
            (Backend {
                active_connections: (before.backends@[i].active_connections - 1) as usize,
                ..before.backends@[i]
            }),
        ),
        after.curr == before.curr,
        after.next_id == before.next_id,
{
    law_backend_is_found_by_id(before.backends@, before.next_id, i);
    law_each_change_does_its_own(before.backends@[i], i);
}

/// A response is a success if and only if its status is one of the two hundreds.
pub proof fn law_success_is_a_status_of_the_two_hundreds(status: u16)
    ensures
        is_success(status) <==> status / 100 == 2,
{
}

/// A response counts for the backend that gave it if and only if it is a success. What ends otherwise
/// counts for none.
pub proof fn law_only_successes_count(addr: Seq<char>, status: u16)
    ensures
        hit_of(Outcome::Answered { addr, status }) is Some <==> status / 100 == 2,
        hit_of(Outcome::Answered { addr, status }) matches Some(key) ==> key.take(8) == seq![
            'l',
            'b',
            ':',
            'h',
            'i',
            't',
            's',
            ':',
        ] && key.skip(8) == addr,
        hit_of(Outcome::Failed { addr }) is None,
        hit_of(Outcome::Local) is None,
{
    law_hits_key_holds_the_address(addr);
}

/// A response goes into the cache if and only if caching is enabled, the request is a `GET`, the
/// response is a success, and it announces at most 5 MiB. One that announces more, or nothing, is too
/// long.
pub proof fn law_cache_takes_short_successes_of_get(x: Exchange, status: u16, content_length: Option<Seq<u8>>)
    ensures
        x.stores(status, content_length) <==> x.caching && x.is_get && status / 100 == 2 && announced(
            content_length,
        ) <= 5 * 1024 * 1024,
        x.exceeds_cache(status, content_length) <==> x.caching && x.is_get && status / 100 == 2 && announced(
            content_length,
        ) > 5 * 1024 * 1024,
{
}

/// A response is counted under the key of its backend, and stored under the path of its request with
/// the length that it announces, each if and only if it is to be.
pub proof fn law_delivery_follows_from_the_response(
    x: Exchange,
    f: Forward,
    status: u16,
    content_length: Option<Vec<u8>>,
    res: Delivery,
)
    requires
        x.delivers(f, status, content_length, res),
    ensures
        ({
            let length = match content_length {
                Some(text) => announced(Some(text@)),
                None => announced(None),
            };
            &&& res.count_hit is Some <==> status / 100 == 2
            &&& res.count_hit matches Some(key) ==> key@.skip(8) == f.addr@ && key@.len() == 8 + f.addr@.len()
            &&& res.store is Some <==> x.caching && x.is_get && status / 100 == 2 && length <= 5 * 1024 * 1024
            &&& res.store matches Some((key, n)) ==> key@ == x.path@ && n == length
            &&& res.too_long <==> x.caching && x.is_get && status / 100 == 2 && length > 5 * 1024 * 1024
        }),
{
    law_hits_key_holds_the_address(f.addr@);
    law_only_successes_count(f.addr@, status);
}

/// The cache holds 100 MiB, each response for one minute.
pub proof fn law_cache_has_its_room_and_time()
    ensures
        CACHE_CAPACITY_BYTES == 100 * 1024 * 1024,
        CACHE_TTL_SECS == 60,
{
}

/// A text can be the value of a header if and only if it holds no byte below 32 but tabs, and not 127.
pub proof fn law_header_value_has_no_control_characters(text: Seq<char>)
    ensures
        is_header_value(text) <==> !exists|i: int|
            0 <= i < encode_utf8(text).len() && (encode_utf8(text)[i] == 127 || (#[trigger] encode_utf8(
                text,
            )[i] < 32 && encode_utf8(text)[i] != 9)),
{
}

} // verus!
