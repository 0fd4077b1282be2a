//! The rate limit: how requests are counted per client, and which are refused.

use vstd::prelude::*;
use vstd::string::StringExecFns;

verus! {

/// The span that the limit holds for, in seconds, wherever it begins.
pub const WINDOW_SECS: u64 = 1;

/// The script that Redis counts a request with. Its key is the client's, its arguments are the limit
/// and the window. It gives how many requests the client sent within the window that ends now, this
/// one included, and the milliseconds until all of them are forgotten.
pub const RATE_LIMIT_SCRIPT: &'static str = "
    local key = KEYS[1]
    local max_requests = tonumber(ARGV[1])
    local window_seconds = tonumber(ARGV[2])

    local clock = redis.call('TIME')
    local now = tonumber(clock[1]) * 1000000 + tonumber(clock[2])
    local stamp = string.format('%.0f', now)
    local expired = string.format('%.0f', now - window_seconds * 1000000)

    redis.call('ZREMRANGEBYSCORE', key, '-inf', expired)
    redis.call('ZADD', key, stamp, stamp .. ':' .. redis.call('ZCARD', key))
    redis.call('PEXPIRE', key, window_seconds * 1000)

    local count = redis.call('ZCARD', key)
    local pttl = redis.call('PTTL', key)

    return { count, pttl }
";

/// The key that the requests of the client at `client_ip` are counted under.
pub open spec fn rate_key_of(client_ip: Seq<char>) -> Seq<char> {
    "rate_limit:"@ + client_ip
}

/// A request is refused if its count is known and above the limit.
pub open spec fn over_limit(reply: Option<Seq<i64>>, max_requests: u32) -> bool {
    match reply {
        Some(counts) => counts[0] > max_requests,
        None => false,
    }
}

/// How many of the first `k` requests came after `from`, and not after `to`.
pub open spec fn sent_within(times: Seq<int>, from: int, to: int, k: int) -> nat
    decreases k,
{
    if k <= 0 {
        0
    } else {
        sent_within(times, from, to, k - 1) + if from < times[k - 1] <= to {
            1nat
        } else {
            0
        }
    }
}

/// How many of the first `k` requests came after `from`, and not after `to`, and were let through.
pub open spec fn passed_within(
    times: Seq<int>,
    replies: Seq<Option<Seq<i64>>>,
    max_requests: u32,
    from: int,
    to: int,
    k: int,
) -> nat
    decreases k,
{
    if k <= 0 {
        0
    } else {
        passed_within(times, replies, max_requests, from, to, k - 1) + if from < times[k - 1] <= to
            && !over_limit(replies[k - 1], max_requests) {
            1nat
        } else {
            0
        }
    }
}

/// Each request was counted together with those of the window that ended with it.
pub open spec fn counted_by_window(times: Seq<int>, replies: Seq<Option<Seq<i64>>>, window: int) -> bool {
    &&& replies.len() == times.len()
    &&& forall|i: int, j: int| 0 <= i <= j < times.len() ==> times[i] <= times[j]
    &&& forall|i: int|
        0 <= i < times.len() ==> ((#[trigger] replies[i]) matches Some(counts) && counts[0] == sent_within(
            times,
            times[i] - window,
            times[i],
            i + 1,
        ))
}

/// The key that the requests of the client at `client_ip` are counted under.
pub fn rate_key(client_ip: &str) -> (res: String)
    ensures
        res@ == rate_key_of(client_ip@),
{
    "rate_limit:".to_owned().concat(client_ip)
}

/// Whether the request that got `reply` is refused. Without a reply it is not.
pub fn refuses(reply: &Option<Vec<i64>>, max_requests: u32) -> (res: bool)
    requires
        reply matches Some(counts) ==> counts@.len() > 0,
    ensures
        res == over_limit(
            match *reply {
                Some(counts) => Some(counts@),
                None => None,
            },
            max_requests,
        ),
{
    match reply {
        Some(counts) => counts[0] > max_requests as i64,
        None => false,
    }
}

/// A wider span holds no fewer requests, and of those that were sent no more were let through.
proof fn lemma_wider_holds_more(
    times: Seq<int>,
    replies: Seq<Option<Seq<i64>>>,
    max_requests: u32,
    from: int,
    to: int,
    wide_from: int,
    wide_to: int,
    k: int,
)
    requires
        forall|j: int|
            0 <= j < k && from < #[trigger] times[j] <= to ==> wide_from < times[j] <= wide_to,
    ensures
        passed_within(times, replies, max_requests, from, to, k) <= sent_within(times, wide_from, wide_to, k),
    decreases k,
{
    if k > 0 {
        lemma_wider_holds_more(times, replies, max_requests, from, to, wide_from, wide_to, k - 1);
    }
}

/// In no span of the length of the window are more requests of a client let through than the limit
/// says, wherever the span begins.
pub proof fn law_any_window_keeps_the_limit(
    times: Seq<int>,
    replies: Seq<Option<Seq<i64>>>,
    max_requests: u32,
    window: int,
    from: int,
    k: int,
)
    requires
        counted_by_window(times, replies, window),
        0 <= k <= times.len(),
    ensures
        passed_within(times, replies, max_requests, from, from + window, k) <= max_requests,
    decreases k,
{
    if k > 0 {
        law_any_window_keeps_the_limit(times, replies, max_requests, window, from, k - 1);
        let now = times[k - 1];
        if from < now <= from + window && !over_limit(replies[k - 1], max_requests) {
            assert(replies[k - 1] is Some);
            lemma_wider_holds_more(
                times,
                replies,
                max_requests,
                from,
                from + window,
                now - window,
                now,
                k,
            );
        }
    }
}

/// A request is refused only if the client sent more than the limit within the window that ends with
/// it.
pub proof fn law_a_client_within_its_limit_passes(
    times: Seq<int>,
    replies: Seq<Option<Seq<i64>>>,
    max_requests: u32,
    window: int,
    i: int,
)
    requires
        counted_by_window(times, replies, window),
        0 <= i < times.len(),
    ensures
        over_limit(replies[i], max_requests) <==> sent_within(times, times[i] - window, times[i], i + 1)
            > max_requests,
{
    assert(replies[i] is Some);
}

/// While requests cannot be counted, all are let through.
pub proof fn law_uncounted_requests_pass(
    times: Seq<int>,
    replies: Seq<Option<Seq<i64>>>,
    max_requests: u32,
    from: int,
    to: int,
    k: int,
)
    requires
        0 <= k <= replies.len(),
        forall|i: int| 0 <= i < replies.len() ==> (#[trigger] replies[i]) is None,
    ensures
        passed_within(times, replies, max_requests, from, to, k) == sent_within(times, from, to, k),
    decreases k,
{
    if k > 0 {
        law_uncounted_requests_pass(times, replies, max_requests, from, to, k - 1);
        assert(replies[k - 1] is None);
    }
}

/// Clients at different addresses are counted apart.
pub proof fn law_clients_are_counted_apart(a: Seq<char>, b: Seq<char>)
    requires
        rate_key_of(a) == rate_key_of(b),
    ensures
        a == b,
{
    let m = "rate_limit:"@.len() as int;
    assert(rate_key_of(a).skip(m) == a);
    assert(rate_key_of(b).skip(m) == b);
}

/// A count refuses a request if and only if it is above the limit, however large either is and
/// whatever else the reply holds. Without a count nothing is refused.
pub proof fn law_count_above_the_limit_refuses(counts: Seq<i64>, max_requests: u32)
    ensures
        over_limit(Some(counts), max_requests) <==> counts[0] > max_requests,
        !over_limit(None, max_requests),
{
}

/// With a higher limit no request more is refused, and with a higher count none less.
pub proof fn law_refusal_goes_by_count_and_limit(a: Seq<i64>, b: Seq<i64>, low: u32, high: u32)
    requires
        a[0] <= b[0],
        low <= high,
        over_limit(Some(a), high),
    ensures
        over_limit(Some(b), low),
{
}

/// A client is counted under a key that starts with the prefix and goes on with its address, whole.
pub proof fn law_rate_key_holds_the_address(client_ip: Seq<char>)
    ensures
        rate_key_of(client_ip).len() == 11 + client_ip.len(),
        rate_key_of(client_ip).take(11) == seq!['r', 'a', 't', 'e', '_', 'l', 'i', 'm', 'i', 't', ':'],
        rate_key_of(client_ip).skip(11) == client_ip,
{
    reveal_strlit("rate_limit:");
    assert(rate_key_of(client_ip).take(11) =~= seq!['r', 'a', 't', 'e', '_', 'l', 'i', 'm', 'i', 't', ':']);
    assert(rate_key_of(client_ip).skip(11) =~= client_ip);
}

} // verus!
