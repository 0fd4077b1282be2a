//! Metrics in the Prometheus text format: requests by backend and status, and active connections.

use crate::registry::{Backend, BackendRegistry};
use crate::text::{append_decimal, decimal};
use vstd::prelude::*;
use vstd::string::{StrSliceExecFns, StringExecFns};

verus! {

/// How many requests to a backend ended with a status.
pub struct RequestCount {
    pub backend: String,
    pub status: u16,
    pub count: u64,
}

/// What a count says.
#[verifier::ext_equal]
pub struct RequestCountView {
    pub backend: Seq<char>,
    pub status: u16,
    pub count: u64,
}

impl View for RequestCount {
    type V = RequestCountView;

    open spec fn view(&self) -> RequestCountView {
        RequestCountView { backend: self.backend@, status: self.status, count: self.count }
    }
}

/// What the counts say, in order.
pub open spec fn counts_of(all: Seq<RequestCount>) -> Seq<RequestCountView> {
    all.map_values(|c: RequestCount| c@)
}

/// The count `c` is for this backend and status.
pub open spec fn counts_for(c: RequestCountView, backend: Seq<char>, status: u16) -> bool {
    c.backend == backend && c.status == status
}

/// No two counts are for the same backend and status.
pub open spec fn counts_apart(all: Seq<RequestCountView>) -> bool {
    forall|i: int, j: int|
        0 <= i < j < all.len() ==> !counts_for(#[trigger] all[i], (#[trigger] all[j]).backend, all[j].status)
}

/// `n` and one more, as far as the counter goes.
pub open spec fn one_more(n: u64) -> u64 {
    if n < u64::MAX {
        (n + 1) as u64
    } else {
        n
    }
}

/// The counts once a request to `backend` ended with `status`: its count is one higher, or begins.
pub open spec fn counted(all: Seq<RequestCountView>, backend: Seq<char>, status: u16) -> Seq<RequestCountView>
    decreases all.len(),
{
    if all.len() == 0 {
        seq![RequestCountView { backend, status, count: 1 }]
    } else if counts_for(all[0], backend, status) {
        seq![RequestCountView { count: one_more(all[0].count), ..all[0] }] + all.skip(1)
    } else {
        seq![all[0]] + counted(all.skip(1), backend, status)
    }
}

/// The counts once requests ended one after the other.
pub open spec fn counted_all(all: Seq<RequestCountView>, ends: Seq<(Seq<char>, u16)>) -> Seq<RequestCountView>
    decreases ends.len(),
{
    if ends.len() == 0 {
        all
    } else {
        counted(counted_all(all, ends.drop_last()), ends.last().0, ends.last().1)
    }
}

/// The count for this backend and status, which is none if there is no such count.
pub open spec fn count_of(all: Seq<RequestCountView>, backend: Seq<char>, status: u16) -> u64
    decreases all.len(),
{
    if all.len() == 0 {
        0
    } else if counts_for(all[0], backend, status) {
        all[0].count
    } else {
        count_of(all.skip(1), backend, status)
    }
}

/// How many of `ends` are this backend and status.
pub open spec fn ends_with(ends: Seq<(Seq<char>, u16)>, backend: Seq<char>, status: u16) -> nat
    decreases ends.len(),
{
    if ends.len() == 0 {
        0
    } else {
        ends_with(ends.drop_last(), backend, status) + if ends.last() == (backend, status) {
            1nat
        } else {
            0
        }
    }
}

/// Notes that a request to `backend` ended with `status`.
pub fn count_request(all: &mut Vec<RequestCount>, backend: &str, status: u16)
    ensures
        counts_of(final(all)@) == counted(counts_of(old(all)@), backend@, status),
{
    let name: String = backend.to_owned();
    let ghost before = counts_of(all@);
    let mut i: usize = 0;
    assert(before.skip(0) == before);
    assert(before.take(0) + counted(before, backend@, status) == counted(before, backend@, status));
    while i < all.len()
        invariant
            *all == *old(all),
            before == counts_of(all@),
            i <= all@.len(),
            name@ == backend@,
            counted(before, backend@, status) == before.take(i as int) + counted(
                before.skip(i as int),
                backend@,
                status,
            ),
        decreases all@.len() - i,
    {
        let ghost rest = before.skip(i as int);
        assert(rest[0] == all@[i as int]@);
        assert(rest.skip(1) == before.skip(i + 1));
        if all[i].status == status && all[i].backend == name {
            let n: u64 = all[i].count;
            let m: u64 = if n < u64::MAX {
                n + 1
            } else {
                n
            };
            all[i].count = m;
            assert(counts_of(all@) =~= before.take(i as int) + counted(rest, backend@, status));
            return ;
        }
        assert(before.take(i + 1) == before.take(i as int) + seq![rest[0]]);
        assert(before.take(i + 1) + counted(rest.skip(1), backend@, status) =~= before.take(i as int) + (
        seq![rest[0]] + counted(rest.skip(1), backend@, status)));
        i += 1;
    }
    assert(before.take(i as int) == before);
    all.push(RequestCount { backend: name, status, count: 1 });
    assert(counts_of(all@) =~= before + seq![RequestCountView { backend: backend@, status, count: 1 }]);
}

/// How a character stands inside a label: backslashes, double quotes and line feeds are escaped.
pub open spec fn escaped_char(c: char) -> Seq<char> {
    if c == '\\' {
        seq!['\\', '\\']
    } else if c == '"' {
        seq!['\\', '"']
    } else if c == '\n' {
        seq!['\\', 'n']
    } else {
        seq![c]
    }
}

/// How the first `k` characters of a text stand inside a label.
pub open spec fn escaped(text: Seq<char>, k: int) -> Seq<char>
    decreases k,
{
    if k <= 0 {
        Seq::empty()
    } else {
        escaped(text, k - 1) + escaped_char(text[k - 1])
    }
}

/// A text as it stands inside a label.
pub open spec fn label(text: Seq<char>) -> Seq<char> {
    escaped(text, text.len() as int)
}

/// Writes `text` as it stands inside a label.
fn append_label(out: &mut String, text: &str)
    ensures
        final(out)@ == old(out)@ + label(text@),
{
    let n: usize = text.unicode_len();
    let mut i: usize = 0;
    proof {
        reveal_strlit("\\\\");
        reveal_strlit("\\\"");
        reveal_strlit("\\n");
    }
    while i < n
        invariant
            n == text@.len(),
            i <= n,
            "\\\\"@ =~= seq!['\\', '\\'],
            "\\\""@ =~= seq!['\\', '"'],
            "\\n"@ =~= seq!['\\', 'n'],
            out@ == old(out)@ + escaped(text@, i as int),
        decreases n - i,
    {
        let c: char = text.get_char(i);
        if c == '\\' {
            out.append("\\\\");
        } else if c == '"' {
            out.append("\\\"");
        } else if c == '\n' {
            out.append("\\n");
        } else {
            out.append(text.substring_char(i, i + 1));
            assert(text@.subrange(i as int, i + 1) =~= seq![c]);
        }
        i += 1;
        assert(out@ =~= old(out)@ + escaped(text@, i as int));
    }
}

/// What stands before the counts of requests.
pub const REQUESTS_HEAD: &'static str = "# HELP tachyon_requests_total Total requests routed, labeled by backend and status
# TYPE tachyon_requests_total counter
";

/// What stands before the active connections.
pub const ACTIVE_HEAD: &'static str = "# HELP tachyon_active_connections Currently active connections per backend
# TYPE tachyon_active_connections gauge
";

/// The line for a count of requests.
pub open spec fn request_line(c: RequestCountView) -> Seq<char> {
    "tachyon_requests_total{backend=\""@ + label(c.backend) + "\",status=\""@ + decimal(c.status as nat)
        + "\"} "@ + decimal(c.count as nat) + "\n"@
}

/// The line for the active connections of a backend.
pub open spec fn active_line(b: Backend) -> Seq<char> {
    "tachyon_active_connections{backend=\""@ + label(b.addr@) + "\"} "@ + decimal(
        b.active_connections as nat,
    ) + "\n"@
}

/// The lines for `all`, in order.
pub open spec fn request_lines(all: Seq<RequestCountView>) -> Seq<char>
    decreases all.len(),
{
    if all.len() == 0 {
        Seq::empty()
    } else {
        request_lines(all.drop_last()) + request_line(all.last())
    }
}

/// The lines for `backends`, in order.
pub open spec fn active_lines(backends: Seq<Backend>) -> Seq<char>
    decreases backends.len(),
{
    if backends.len() == 0 {
        Seq::empty()
    } else {
        active_lines(backends.drop_last()) + active_line(backends.last())
    }
}

/// The whole text.
pub open spec fn metrics_of(backends: Seq<Backend>, requests: Seq<RequestCountView>) -> Seq<char> {
    REQUESTS_HEAD@ + request_lines(requests) + ACTIVE_HEAD@ + active_lines(backends)
}

/// The metrics of the backends and of the requests that were counted.
pub fn metrics_text(registry: &BackendRegistry, requests: &Vec<RequestCount>) -> (res: String)
    ensures
        res@ == metrics_of(registry.backends@, counts_of(requests@)),
{
    let ghost counts = counts_of(requests@);
    let mut out: String = REQUESTS_HEAD.to_owned();
    let mut i: usize = 0;
    while i < requests.len()
        invariant
            counts == counts_of(requests@),
            i <= requests@.len(),
            out@ == REQUESTS_HEAD@ + request_lines(counts.take(i as int)),
        decreases requests@.len() - i,
    {
        let ghost before = out@;
        out.append("tachyon_requests_total{backend=\"");
        append_label(&mut out, requests[i].backend.as_str());
        out.append("\",status=\"");
        append_decimal(&mut out, requests[i].status as u64);
        out.append("\"} ");
        append_decimal(&mut out, requests[i].count);
        out.append("\n");
        assert(counts.take(i + 1).drop_last() == counts.take(i as int));
        assert(out@ == before + request_line(counts[i as int]));
        i += 1;
    }
    assert(counts.take(i as int) == counts);
    out.append(ACTIVE_HEAD);
    let ghost so_far = out@;
    let mut k: usize = 0;
    while k < registry.backends.len()
        invariant
            k <= registry.backends@.len(),
            out@ == so_far + active_lines(registry.backends@.take(k as int)),
        decreases registry.backends@.len() - k,
    {
        let ghost before = out@;
        out.append("tachyon_active_connections{backend=\"");
        append_label(&mut out, registry.backends[k].addr.as_str());
        out.append("\"} ");
        append_decimal(&mut out, registry.backends[k].active_connections as u64);
        out.append("\n");
        assert(registry.backends@.take(k + 1).drop_last() == registry.backends@.take(k as int));
        assert(out@ == before + active_line(registry.backends@[k as int]));
        k += 1;
    }
    assert(registry.backends@.take(k as int) == registry.backends@);
    out
}

/// Counting a request counts it for its backend and status, and for no other.
proof fn lemma_counted(all: Seq<RequestCountView>, backend: Seq<char>, status: u16, b: Seq<char>, s: u16)
    ensures
        count_of(counted(all, backend, status), b, s) == if (b, s) == (backend, status) {
            one_more(count_of(all, b, s))
        } else {
            count_of(all, b, s)
        },
    decreases all.len(),
{
    let after = counted(all, backend, status);
    if all.len() == 0 {
        assert(after.skip(1) =~= all);
    } else if counts_for(all[0], backend, status) {
        assert(after.skip(1) =~= all.skip(1));
    } else {
        assert(after.skip(1) =~= counted(all.skip(1), backend, status));
        lemma_counted(all.skip(1), backend, status, b, s);
    }
}

/// The total for a backend and status is how many requests ended so, and no request counts for
/// another.
pub proof fn law_totals_count_requests(ends: Seq<(Seq<char>, u16)>, backend: Seq<char>, status: u16)
    requires
        ends.len() <= u64::MAX,
    ensures
        count_of(counted_all(Seq::empty(), ends), backend, status) == ends_with(ends, backend, status),
        ends_with(ends, backend, status) <= ends.len(),
    decreases ends.len(),
{
    if ends.len() > 0 {
        law_totals_count_requests(ends.drop_last(), backend, status);
        lemma_counted(
            counted_all(Seq::empty(), ends.drop_last()),
            ends.last().0,
            ends.last().1,
            backend,
            status,
        );
    }
}

/// Counting keeps the counts apart, and makes no count for another backend and status.
proof fn lemma_counted_apart(all: Seq<RequestCountView>, backend: Seq<char>, status: u16)
    requires
        counts_apart(all),
    ensures
        counts_apart(counted(all, backend, status)),
        forall|i: int|
            0 <= i < counted(all, backend, status).len() ==> counts_for(
                #[trigger] counted(all, backend, status)[i],
                backend,
                status,
            ) || exists|k: int|
                0 <= k < all.len() && counts_for(
                    #[trigger] all[k],
                    counted(all, backend, status)[i].backend,
                    counted(all, backend, status)[i].status,
                ),
    decreases all.len(),
{
    let after = counted(all, backend, status);
    if all.len() > 0 {
        let rest = all.skip(1);
        assert forall|i: int, j: int| 0 <= i < j < rest.len() implies !counts_for(
            #[trigger] rest[i],
            (#[trigger] rest[j]).backend,
            rest[j].status,
        ) by {
            assert(!counts_for(all[i + 1], all[j + 1].backend, all[j + 1].status));
        }
        if counts_for(all[0], backend, status) {
            assert forall|i: int| 0 <= i < after.len() implies (#[trigger] after[i]).backend
                == all[i].backend && after[i].status == all[i].status by {
                if i > 0 {
                    assert(after[i] == rest[i - 1]);
                }
            }
            assert forall|i: int, j: int| 0 <= i < j < after.len() implies !counts_for(
                #[trigger] after[i],
                (#[trigger] after[j]).backend,
                after[j].status,
            ) by {
                assert(!counts_for(all[i], all[j].backend, all[j].status));
            }
        } else {
            lemma_counted_apart(rest, backend, status);
            let more = counted(rest, backend, status);
            assert forall|i: int, j: int| 0 <= i < j < after.len() implies !counts_for(
                #[trigger] after[i],
                (#[trigger] after[j]).backend,
                after[j].status,
            ) by {
                assert(after[j] == more[j - 1]);
                if i > 0 {
                    assert(after[i] == more[i - 1]);
                } else if !counts_for(more[j - 1], backend, status) {
                    let k = choose|k: int|
                        0 <= k < rest.len() && counts_for(
                            #[trigger] rest[k],
                            more[j - 1].backend,
                            more[j - 1].status,
                        );
                    assert(rest[k] == all[k + 1]);
                    assert(!counts_for(all[0], all[k + 1].backend, all[k + 1].status));
                }
            }
            assert forall|i: int| 0 <= i < after.len() implies counts_for(
                #[trigger] after[i],
                backend,
                status,
            ) || exists|k: int|
                0 <= k < all.len() && counts_for(#[trigger] all[k], after[i].backend, after[i].status) by {
                if i == 0 {
                    assert(counts_for(all[0], after[0].backend, after[0].status));
                } else {
                    assert(after[i] == more[i - 1]);
                    if !counts_for(more[i - 1], backend, status) {
                        let k = choose|k: int|
                            0 <= k < rest.len() && counts_for(
                                #[trigger] rest[k],
                                more[i - 1].backend,
                                more[i - 1].status,
                            );
                        assert(rest[k] == all[k + 1]);
                    }
                }
            }
        }
    }
}

/// There is one line for a backend and status, however many requests ended so.
pub proof fn law_totals_are_apart(ends: Seq<(Seq<char>, u16)>)
    ensures
        counts_apart(counted_all(Seq::empty(), ends)),
    decreases ends.len(),
{
    if ends.len() > 0 {
        law_totals_are_apart(ends.drop_last());
        lemma_counted_apart(counted_all(Seq::empty(), ends.drop_last()), ends.last().0, ends.last().1);
    }
}

/// A count is seen as it is.
pub proof fn law_count_is_seen_as_it_is(all: Seq<RequestCount>, i: int)
    requires
        0 <= i < all.len(),
    ensures
        counts_of(all).len() == all.len(),
        counts_of(all)[i].backend == all[i].backend@,
        counts_of(all)[i].status == all[i].status,
        counts_of(all)[i].count == all[i].count,
{
}

/// A request counts one up in the first count for its backend and status, and changes nothing else.
pub proof fn law_request_counts_once(all: Seq<RequestCountView>, backend: Seq<char>, status: u16, k: int)
    requires
        0 <= k < all.len(),
        all[k].backend == backend,
        all[k].status == status,
        forall|i: int|
            0 <= i < k ==> (#[trigger] all[i]).backend != backend || all[i].status != status,
    ensures
        counted(all, backend, status).len() == all.len(),
        counted(all, backend, status)[k].backend == backend,
        counted(all, backend, status)[k].status == status,
        all[k].count < u64::MAX ==> counted(all, backend, status)[k].count == all[k].count + 1,
        all[k].count == u64::MAX ==> counted(all, backend, status)[k].count == u64::MAX,
        forall|i: int|
            0 <= i < all.len() && i != k ==> #[trigger] counted(all, backend, status)[i] == all[i],
    decreases all.len(),
{
    let after = counted(all, backend, status);
    if k > 0 {
        assert(all[0].backend != backend || all[0].status != status);
        let rest = all.skip(1);
        assert forall|i: int| 0 <= i < k - 1 implies (#[trigger] rest[i]).backend != backend || rest[i].status
            != status by {
            assert(rest[i] == all[i + 1]);
        }
        law_request_counts_once(rest, backend, status, k - 1);
        let more = counted(rest, backend, status);
        assert(after =~= seq![all[0]] + more);
        assert forall|i: int| 0 <= i < all.len() && i != k implies #[trigger] after[i] == all[i] by {
            if i > 0 {
                assert(after[i] == more[i - 1]);
                assert(rest[i - 1] == all[i]);
            }
        }
    } else {
        assert forall|i: int| 0 <= i < all.len() && i != k implies #[trigger] after[i] == all[i] by {
            assert(all.skip(1)[i - 1] == all[i]);
        }
    }
}

/// The first request for a backend and status begins a count with one, behind all others.
pub proof fn law_first_request_begins_a_count(all: Seq<RequestCountView>, backend: Seq<char>, status: u16)
    requires
        forall|i: int|
            0 <= i < all.len() ==> (#[trigger] all[i]).backend != backend || all[i].status != status,
    ensures
        counted(all, backend, status) == all.push(RequestCountView { backend, status, count: 1 }),
    decreases all.len(),
{
    if all.len() > 0 {
        let rest = all.skip(1);
        assert(all[0].backend != backend || all[0].status != status);
        assert forall|i: int| 0 <= i < rest.len() implies (#[trigger] rest[i]).backend != backend
            || rest[i].status != status by {
            assert(rest[i] == all[i + 1]);
        }
        law_first_request_begins_a_count(rest, backend, status);
    }
    assert(counted(all, backend, status) =~= all.push(RequestCountView { backend, status, count: 1 }));
}

/// A text stands inside a label character by character: backslashes, double quotes and line feeds with
/// a backslash before them, and all others as they are.
pub proof fn law_label_escapes_each_character(a: Seq<char>, c: char, b: Seq<char>)
    ensures
        label(Seq::empty()) == Seq::<char>::empty(),
        label(seq!['\\']) == seq!['\\', '\\'],
        label(seq!['"']) == seq!['\\', '"'],
        label(seq!['\n']) == seq!['\\', 'n'],
        c != '\\' && c != '"' && c != '\n' ==> label(seq![c]) == seq![c],
        label(a + b) == label(a) + label(b),
{
    reveal_with_fuel(escaped, 2);
    assert(label(seq!['\\']) =~= seq!['\\', '\\']);
    assert(label(seq!['"']) =~= seq!['\\', '"']);
    assert(label(seq!['\n']) =~= seq!['\\', 'n']);
    if c != '\\' && c != '"' && c != '\n' {
        assert(label(seq![c]) =~= seq![c]);
    }
    lemma_escaped_splits(a, b, b.len() as int);
}

/// The start of two texts behind one another stands inside a label as the two do.
proof fn lemma_escaped_splits(a: Seq<char>, b: Seq<char>, k: int)
    requires
        0 <= k <= b.len(),
    ensures
        escaped(a + b, a.len() + k) == label(a) + escaped(b, k),
    decreases k,
{
    if k == 0 {
        lemma_escaped_agrees(a + b, a, a.len() as int);
        assert(label(a) + escaped(b, 0) =~= label(a));
    } else {
        lemma_escaped_splits(a, b, k - 1);
        assert((a + b)[a.len() + k - 1] == b[k - 1]);
        assert(escaped(a + b, a.len() + k) =~= label(a) + escaped(b, k));
    }
}

/// Texts that begin alike stand inside a label alike as far.
proof fn lemma_escaped_agrees(a: Seq<char>, b: Seq<char>, k: int)
    requires
        0 <= k <= a.len(),
        k <= b.len(),
        forall|i: int| 0 <= i < k ==> #[trigger] a[i] == b[i],
    ensures
        escaped(a, k) == escaped(b, k),
    decreases k,
{
    if k > 0 {
        lemma_escaped_agrees(a, b, k - 1);
        assert(a[k - 1] == b[k - 1]);
    }
}

/// The line of a count names its backend, its status and its count.
pub proof fn law_line_names_backend_status_and_count(c: RequestCountView)
    ensures
        ({
            let line = request_line(c);
            let head = "tachyon_requests_total{backend=\""@;
            let middle = "\",status=\""@;
            let close = "\"} "@;
            let status = decimal(c.status as nat);
            let count = decimal(c.count as nat);
            let p = head.len() as int;
            let q = p + label(c.backend).len() + middle.len();
            let r = q + status.len() + close.len();
            &&& line.len() == r + count.len() + 1
            &&& line.take(p) == head
            &&& line.subrange(p, p + label(c.backend).len()) == label(c.backend)
            &&& line.subrange(p + label(c.backend).len(), q) == middle
            &&& line.subrange(q, q + status.len()) == status
            &&& line.subrange(q + status.len(), r) == close
            &&& line.subrange(r, r + count.len()) == count
            &&& line.last() == '\n'
        }),
{
    reveal_strlit("\n");
    let line = request_line(c);
    let head = "tachyon_requests_total{backend=\""@;
    let middle = "\",status=\""@;
    let close = "\"} "@;
    let status = decimal(c.status as nat);
    let count = decimal(c.count as nat);
    let p = head.len() as int;
    let q = p + label(c.backend).len() + middle.len();
    let r = q + status.len() + close.len();
    assert(line.take(p) =~= head);
    assert(line.subrange(p, p + label(c.backend).len()) =~= label(c.backend));
    assert(line.subrange(p + label(c.backend).len(), q) =~= middle);
    assert(line.subrange(q, q + status.len()) =~= status);
    assert(line.subrange(q + status.len(), r) =~= close);
    assert(line.subrange(r, r + count.len()) =~= count);
}

/// The line of a backend names it and its active connections.
pub proof fn law_line_names_active_connections(b: Backend)
    ensures
        ({
            let line = active_line(b);
            let head = "tachyon_active_connections{backend=\""@;
            let close = "\"} "@;
            let count = decimal(b.active_connections as nat);
            let p = head.len() as int;
            let r = p + label(b.addr@).len() + close.len();
            &&& line.len() == r + count.len() + 1
            &&& line.take(p) == head
            &&& line.subrange(p, p + label(b.addr@).len()) == label(b.addr@)
            &&& line.subrange(p + label(b.addr@).len(), r) == close
            &&& line.subrange(r, r + count.len()) == count
            &&& line.last() == '\n'
        }),
{
    reveal_strlit("\n");
    let line = active_line(b);
    let head = "tachyon_active_connections{backend=\""@;
    let close = "\"} "@;
    let count = decimal(b.active_connections as nat);
    let p = head.len() as int;
    let r = p + label(b.addr@).len() + close.len();
    assert(line.take(p) =~= head);
    assert(line.subrange(p, p + label(b.addr@).len()) =~= label(b.addr@));
    assert(line.subrange(p + label(b.addr@).len(), r) =~= close);
    assert(line.subrange(r, r + count.len()) =~= count);
}

/// The metrics have a line for each count and each backend, in order and each once, below the heads,
/// and nothing else.
pub proof fn law_metrics_have_a_line_each(
    backends: Seq<Backend>,
    b: Backend,
    requests: Seq<RequestCountView>,
    c: RequestCountView,
)
    ensures
        metrics_of(Seq::empty(), Seq::empty()) == REQUESTS_HEAD@ + ACTIVE_HEAD@,
        metrics_of(backends.push(b), requests) == metrics_of(backends, requests) + active_line(b),
        request_lines(requests.push(c)) == request_lines(requests) + request_line(c),
        metrics_of(Seq::empty(), requests) == REQUESTS_HEAD@ + request_lines(requests) + ACTIVE_HEAD@,
        REQUESTS_HEAD@
            == "# HELP tachyon_requests_total Total requests routed, labeled by backend and status\n# TYPE tachyon_requests_total counter\n"@,
        ACTIVE_HEAD@
            == "# HELP tachyon_active_connections Currently active connections per backend\n# TYPE tachyon_active_connections gauge\n"@,
{
    assert(backends.push(b).drop_last() =~= backends);
    assert(requests.push(c).drop_last() =~= requests);
    assert(metrics_of(Seq::empty(), Seq::empty()) =~= REQUESTS_HEAD@ + ACTIVE_HEAD@);
    assert(metrics_of(backends.push(b), requests) =~= metrics_of(backends, requests) + active_line(b));
    assert(metrics_of(Seq::empty(), requests) =~= REQUESTS_HEAD@ + request_lines(requests) + ACTIVE_HEAD@);
}

} // verus!
