# Tachyon

An HTTP load balancer whose decisions are verified with Verus.

- `src/` is the library. It decides which backend a request goes to, when a backend is taken out of
  rotation and when it returns, how a request is limited, answered, forwarded and cached, what is
  counted, and which configuration is in force. It performs no I/O: each decision is a function from
  plain values to plain values, with a contract that Verus proves.
- `app/` is the program around it: TLS, HTTP, Redis, the response cache, the health checks, the
  configuration file and the shutdown.
- `tests/` runs the library on concrete values.

## How a request goes

1. If rate limiting is enabled, Redis counts the request under the client's address, in a window that
   slides: a client that sent more than `rate_limit_per_second` requests within the second that ends
   with this one is answered 429. While Redis cannot count, every request passes.
2. If caching is enabled, a `GET` is answered out of the cache if its path is there.
3. `/stats` is answered with the hit counters of the backends, and `/metrics` with the requests by
   backend and status and the active connections by backend, as Prometheus reads them.
4. Everything else goes to the live backend with the fewest active connections. It is answered 503 if
   none is live, or if `max_connections` connections to backends are active.
5. A request that the backend fails is answered 502, and one that is not answered within `timeout_ms`
   is answered 504. At the fifth failure in a row the backend is taken out of rotation. Health checks,
   every five seconds, bring it back once it can be reached.
6. A success is counted as a hit of the backend. If it answers a `GET`, caching is enabled and the
   announced length is at most 5 MiB, it goes into the cache.

Backends can also be picked in turn, by the hash of the client's address, or by a number drawn at
random, in proportion to their weights.

## How the configuration changes

When `config.toml` is modified it is read again, and put in force if it is in order. The backends are
then those that it names: one that it named before keeps its connections and its record, any other
starts afresh, and a request that is still under way finds its own backend again, or none. The port
is read at the start only.

## What is not proved

The contracts of the functions marked `external_body` are believed: they call `arc_swap` for the
configuration in force, `hyper` for what a URI and a header value are, and the standard library for
the hash of a client's address. That Redis counts as the script for the rate limit says, and counts
hits, is not proved either: the laws about both take what Redis gives. The program under `app/` is
ordinary Rust; it shares the state of the balancer under a mutex, so that each step of the library
happens at once for all requests.
