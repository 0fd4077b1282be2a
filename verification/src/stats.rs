//! The live statistics page: how many good answers each backend gave.

use crate::text::{append_decimal, decimal, lemma_without_absent, occurs_at, remove_all, without};
use crate::upstream::{hit_of, is_success, Outcome};
use vstd::prelude::*;
use vstd::string::StringExecFns;

verus! {

/// What the key of every hit counter starts with.
pub const HITS_PREFIX: &'static str = "lb:hits:";

/// The pattern that the keys of all hit counters match.
pub const HITS_PATTERN: &'static str = "lb:hits:*";

/// The page up to the first counter.
pub const PAGE_HEAD: &'static str = "
        <html>
        <head>
            <title>Iron Gate Live</title>
            <style>
                body { font-family: monospace; background-color: #121212; color: #00ff00; padding: 2rem; }
                li { font-size: 1.2rem; margin-bottom: 0.5rem; }
            </style>
        </head>
        <body>
            <h1>Iron Gate Live Stats</h1>
            <ul id='stats-list'>
    ";

/// The page after the last counter.
pub const PAGE_FOOT: &'static str = "
            </ul>
            <script>
                // Run this every 1000 milliseconds (1 second)
                setInterval(() => {
                    fetch('/stats')
                        .then(response => response.text())
                        .then(html => {
                            // Parse the incoming HTML quietly in the background
                            let parser = new DOMParser();
                            let doc = parser.parseFromString(html, 'text/html');
                            // Replace the old list with the newly fetched list
                            document.getElementById('stats-list').innerHTML = doc.getElementById('stats-list').innerHTML;
                        });
                }, 1000);
            </script>
        </body>
        </html>
    ";

/// A hit counter as it was read: its key, and its count if there was one to read.
pub struct Hits {
    pub key: String,
    pub count: Option<u64>,
}

/// The key of the hit counter of the backend at `addr`.
pub open spec fn hits_key_of(addr: Seq<char>) -> Seq<char> {
    HITS_PREFIX@ + addr
}

/// The name that a hit counter is shown under.
pub open spec fn hits_label(key: Seq<char>) -> Seq<char> {
    without(key, HITS_PREFIX@)
}

/// The count that is shown: one that could not be read is shown as none.
pub open spec fn hits_shown(hits: Hits) -> nat {
    match hits.count {
        Some(n) => n as nat,
        None => 0,
    }
}

/// The line of the page for one counter.
pub open spec fn hits_row(hits: Hits) -> Seq<char> {
    "<li><b>"@ + hits_label(hits.key@) + "</b>: "@ + decimal(hits_shown(hits)) + " hits</li>"@
}

/// The lines of the page for `all`, in order.
pub open spec fn hits_rows(all: Seq<Hits>) -> Seq<char>
    decreases all.len(),
{
    if all.len() == 0 {
        Seq::empty()
    } else {
        hits_rows(all.drop_last()) + hits_row(all.last())
    }
}

/// The whole page.
pub open spec fn page_of(all: Seq<Hits>) -> Seq<char> {
    PAGE_HEAD@ + hits_rows(all) + PAGE_FOOT@
}

/// The key under which the hits of the backend at `addr` are counted.
pub fn hits_key(addr: &str) -> (res: String)
    ensures
        res@ == hits_key_of(addr@),
{
    HITS_PREFIX.to_owned().concat(addr)
}

/// The statistics page for the counters `all`.
pub fn stats_page(all: &Vec<Hits>) -> (res: String)
    ensures
        res@ == page_of(all@),
{
    let mut page: String = PAGE_HEAD.to_owned();
    let mut i: usize = 0;
    while i < all.len()
        invariant
            i <= all@.len(),
            page@ == PAGE_HEAD@ + hits_rows(all@.take(i as int)),
        decreases all@.len() - i,
    {
        let ghost before = page@;
        let label: String = remove_all(all[i].key.as_str(), HITS_PREFIX);
        let count: u64 = match all[i].count {
            Some(n) => n,
            None => 0,
        };
        page.append("<li><b>");
        page.append(label.as_str());
        page.append("</b>: ");
        append_decimal(&mut page, count);
        page.append(" hits</li>");
        assert(all@.take(i + 1).drop_last() == all@.take(i as int));
        assert(page@ == before + hits_row(all@[i as int]));
        i += 1;
    }
    assert(all@.take(i as int) == all@);
    page.append(PAGE_FOOT);
    page
}

/// Unless the address of a backend itself holds the prefix, the page shows the backend's hits under
/// that address.
pub proof fn law_hits_are_shown_by_address(addr: Seq<char>)
    requires
        plain(addr),
    ensures
        hits_label(hits_key_of(addr)) == addr,
{
    let key = hits_key_of(addr);
    let m = HITS_PREFIX@.len() as int;
    reveal_strlit("lb:hits:");
    assert(key.take(m) == HITS_PREFIX@);
    assert(key.skip(m) == addr);
    lemma_without_absent(addr, HITS_PREFIX@);
}

/// Backends with different addresses have different counters.
pub proof fn law_hits_are_kept_apart(a: Seq<char>, b: Seq<char>)
    requires
        hits_key_of(a) == hits_key_of(b),
    ensures
        a == b,
{
    let m = HITS_PREFIX@.len() as int;
    assert(hits_key_of(a).skip(m) == a);
    assert(hits_key_of(b).skip(m) == b);
}

/// The hit counters once requests came to these ends, when there were none before.
pub open spec fn hit_store(outcomes: Seq<Outcome>) -> Map<Seq<char>, nat>
    decreases outcomes.len(),
{
    if outcomes.len() == 0 {
        Map::empty()
    } else {
        let before = hit_store(outcomes.drop_last());
        match hit_of(outcomes.last()) {
            Some(key) => before.insert(
                key,
                if before.contains_key(key) {
                    before[key] + 1
                } else {
                    1
                },
            ),
            None => before,
        }
    }
}

/// The backend at `addr` answered the request with a success.
pub open spec fn succeeds_at(outcome: Outcome, addr: Seq<char>) -> bool {
    outcome matches Outcome::Answered { addr: a, status } && a == addr && is_success(status)
}

/// How many requests the backend at `addr` answered with a success.
pub open spec fn successes(outcomes: Seq<Outcome>, addr: Seq<char>) -> nat
    decreases outcomes.len(),
{
    if outcomes.len() == 0 {
        0
    } else {
        successes(outcomes.drop_last(), addr) + if succeeds_at(outcomes.last(), addr) {
            1nat
        } else {
            0
        }
    }
}

/// Counter `i` of those that were read is the one under `key`.
pub open spec fn read_at(all: Seq<Hits>, i: int, key: Seq<char>) -> bool {
    0 <= i < all.len() && all[i].key@ == key
}

/// `all` is what a reading of the counters gives, in whatever order: each of them once, with its
/// count.
pub open spec fn reads(all: Seq<Hits>, store: Map<Seq<char>, nat>) -> bool {
    &&& forall|i: int|
        0 <= i < all.len() ==> store.contains_key((#[trigger] all[i]).key@) && all[i].count is Some
            && hits_shown(all[i]) == store[all[i].key@]
    &&& forall|i: int, j: int|
        0 <= i < j < all.len() ==> (#[trigger] all[i]).key@ != (#[trigger] all[j]).key@
    &&& forall|key: Seq<char>|
        #[trigger] store.contains_key(key) ==> exists|i: int| #[trigger] read_at(all, i, key)
}

/// The address does not hold the prefix of the counters.
pub open spec fn plain(addr: Seq<char>) -> bool {
    forall|i: int| !occurs_at(addr, HITS_PREFIX@, i)
}

/// The counters hold the successes of each backend and nothing else.
proof fn lemma_store_counts_successes(outcomes: Seq<Outcome>, addr: Seq<char>)
    ensures
        hit_store(outcomes).contains_key(hits_key_of(addr)) <==> successes(outcomes, addr) > 0,
        successes(outcomes, addr) > 0 ==> hit_store(outcomes)[hits_key_of(addr)] == successes(outcomes, addr),
    decreases outcomes.len(),
{
    if outcomes.len() > 0 {
        lemma_store_counts_successes(outcomes.drop_last(), addr);
        if let Outcome::Answered { addr: a, .. } = outcomes.last() {
            if hits_key_of(a) == hits_key_of(addr) {
                law_hits_are_kept_apart(a, addr);
            }
        }
    }
}

/// Every counter is that of a backend that answered a request with a success.
proof fn lemma_counters_have_addresses(outcomes: Seq<Outcome>, key: Seq<char>) -> (k: int)
    requires
        hit_store(outcomes).contains_key(key),
    ensures
        0 <= k < outcomes.len(),
        hit_of(outcomes[k]) == Some(key),
    decreases outcomes.len(),
{
    if hit_of(outcomes.last()) == Some(key) {
        outcomes.len() - 1
    } else {
        let k = lemma_counters_have_addresses(outcomes.drop_last(), key);
        assert(outcomes[k] == outcomes.drop_last()[k]);
        k
    }
}

/// The lines of a page are those before one, that one, and those after it.
proof fn lemma_rows_split(all: Seq<Hits>, i: int)
    requires
        0 <= i < all.len(),
    ensures
        hits_rows(all) == hits_rows(all.take(i)) + hits_row(all[i]) + hits_rows(all.skip(i + 1)),
    decreases all.len(),
{
    if i == all.len() - 1 {
        assert(all.take(i) == all.drop_last());
        assert(all.skip(i + 1) == Seq::<Hits>::empty());
        assert(hits_rows(all) == hits_rows(all.take(i)) + hits_row(all[i]) + hits_rows(all.skip(i + 1)));
    } else {
        let rest = all.drop_last();
        lemma_rows_split(rest, i);
        assert(rest.take(i) == all.take(i));
        assert(all.skip(i + 1).drop_last() == rest.skip(i + 1));
        assert(all.skip(i + 1).last() == all.last());
        assert(hits_rows(all) == hits_rows(all.take(i)) + hits_row(all[i]) + hits_rows(all.skip(i + 1)));
    }
}

/// The page shows as the hits of a backend how many requests it answered with a success since there
/// were no counters, on exactly one line, and has no line for a backend without a success. Requests
/// that failed, that were answered with another status, or that no backend answered count for
/// nothing. Left out is an address with successes that holds the prefix of the counters itself, and
/// one under which the successes of another address are shown.
pub proof fn law_successes_show_as_hits(outcomes: Seq<Outcome>, all: Seq<Hits>, addr: Seq<char>)
    requires
        reads(all, hit_store(outcomes)),
        successes(outcomes, addr) > 0 ==> plain(addr),
        forall|a: Seq<char>|
            #[trigger] successes(outcomes, a) > 0 ==> a == addr || hits_label(hits_key_of(a)) != addr,
    ensures
        successes(outcomes, addr) == 0 ==> forall|i: int|
            0 <= i < all.len() ==> hits_label((#[trigger] all[i]).key@) != addr,
        successes(outcomes, addr) > 0 ==> exists|i: int|
            {
                &&& #[trigger] read_at(all, i, hits_key_of(addr))
                &&& hits_row(all[i]) == "<li><b>"@ + addr + "</b>: "@ + decimal(successes(outcomes, addr))
                    + " hits</li>"@
                &&& page_of(all) == PAGE_HEAD@ + (hits_rows(all.take(i)) + hits_row(all[i]) + hits_rows(
                    all.skip(i + 1),
                )) + PAGE_FOOT@
                &&& forall|j: int|
                    0 <= j < all.len() && j != i ==> hits_label((#[trigger] all[j]).key@) != addr
            },
{
    let key = hits_key_of(addr);
    lemma_store_counts_successes(outcomes, addr);
    assert forall|j: int| 0 <= j < all.len() && hits_label((#[trigger] all[j]).key@) == addr implies all[j].key@
        == key by {
        let k = lemma_counters_have_addresses(outcomes, all[j].key@);
        match outcomes[k] {
            Outcome::Answered { addr: a, .. } => {
                lemma_store_counts_successes(outcomes, a);
            },
            _ => {},
        }
    }
    if successes(outcomes, addr) > 0 {
        let i = choose|i: int| #[trigger] read_at(all, i, key);
        assert(read_at(all, i, key));
        law_hits_are_shown_by_address(addr);
        lemma_rows_split(all, i);
    }
}

/// The keys of all hit counters match the pattern: its literal part, then anything.
pub proof fn law_hits_are_found(addr: Seq<char>)
    ensures
        HITS_PATTERN@.drop_last().is_prefix_of(hits_key_of(addr)),
        HITS_PATTERN@.last() == '*',
{
    reveal_strlit("lb:hits:");
    reveal_strlit("lb:hits:*");
    assert(HITS_PATTERN@.drop_last() == HITS_PREFIX@);
}

/// The counter of a backend is under a key that starts with the prefix and goes on with the address,
/// whole.
pub proof fn law_hits_key_holds_the_address(addr: Seq<char>)
    ensures
        hits_key_of(addr).len() == 8 + addr.len(),
        hits_key_of(addr).take(8) == seq!['l', 'b', ':', 'h', 'i', 't', 's', ':'],
        hits_key_of(addr).skip(8) == addr,
{
    reveal_strlit("lb:hits:");
    assert(hits_key_of(addr).take(8) =~= seq!['l', 'b', ':', 'h', 'i', 't', 's', ':']);
    assert(hits_key_of(addr).skip(8) =~= addr);
}

/// A line shows the key of its counter without the prefix, and its count, or none if there was none to
/// read.
pub proof fn law_line_shows_its_counter(hits: Hits)
    ensures
        ({
            let row = hits_row(hits);
            let label = without(hits.key@, seq!['l', 'b', ':', 'h', 'i', 't', 's', ':']);
            let shown = match hits.count {
                Some(n) => decimal(n as nat),
                None => decimal(0),
            };
            let at = "<li><b>"@.len() as int;
            let count_at = at + label.len() + "</b>: "@.len();
            &&& row.len() == count_at + shown.len() + " hits</li>"@.len()
            &&& row.take(at) == "<li><b>"@
            &&& row.subrange(at, at + label.len()) == label
            &&& row.subrange(at + label.len(), count_at) == "</b>: "@
            &&& row.subrange(count_at, count_at + shown.len()) == shown
            &&& row.skip(count_at + shown.len()) == " hits</li>"@
        }),
{
    reveal_strlit("lb:hits:");
    assert("lb:hits:"@ =~= seq!['l', 'b', ':', 'h', 'i', 't', 's', ':']);
    let row = hits_row(hits);
    let label = hits_label(hits.key@);
    let shown = decimal(hits_shown(hits));
    let at = "<li><b>"@.len() as int;
    let count_at = at + label.len() + "</b>: "@.len();
    assert(row.take(at) =~= "<li><b>"@);
    assert(row.subrange(at, at + label.len()) =~= label);
    assert(row.subrange(at + label.len(), count_at) =~= "</b>: "@);
    assert(row.subrange(count_at, count_at + shown.len()) =~= shown);
    assert(row.skip(count_at + shown.len()) =~= " hits</li>"@);
}

/// The page of counters that were read one after another has their lines in that order, each once,
/// between its head and its foot, and nothing else.
pub proof fn law_page_has_a_line_per_counter(before: Seq<Hits>, hits: Hits, after: Seq<Hits>)
    ensures
        page_of(Seq::empty()) == PAGE_HEAD@ + PAGE_FOOT@,
        hits_rows(seq![hits]) == hits_row(hits),
        hits_rows(before.push(hits) + after) == hits_rows(before) + hits_row(hits) + hits_rows(after),
        page_of(before) == PAGE_HEAD@ + hits_rows(before) + PAGE_FOOT@,
{
    let all = before.push(hits) + after;
    let i = before.len() as int;
    lemma_rows_split(all, i);
    assert(all.take(i) =~= before);
    assert(all.skip(i + 1) =~= after);
    assert(seq![hits].drop_last() =~= Seq::<Hits>::empty());
    reveal_with_fuel(hits_rows, 2);
    assert(hits_rows(seq![hits]) =~= hits_row(hits));
    assert(page_of(Seq::empty()) =~= PAGE_HEAD@ + PAGE_FOOT@);
}

/// The page is this document, with the lines of the counters as its list.
pub proof fn law_page_is_a_document_with_a_list(all: Seq<Hits>)
    ensures
        page_of(all) == "
        <html>
        <head>
            <title>Iron Gate Live</title>
            <style>
                body { font-family: monospace; background-color: #121212; color: #00ff00; padding: 2rem; }
                li { font-size: 1.2rem; margin-bottom: 0.5rem; }
            </style>
        </head>
        <body>
            <h1>Iron Gate Live Stats</h1>
            <ul id='stats-list'>
    "@ + hits_rows(all) + "
            </ul>
            <script>
                // Run this every 1000 milliseconds (1 second)
                setInterval(() => {
                    fetch('/stats')
                        .then(response => response.text())
                        .then(html => {
                            // Parse the incoming HTML quietly in the background
                            let parser = new DOMParser();
                            let doc = parser.parseFromString(html, 'text/html');
                            // Replace the old list with the newly fetched list
                            document.getElementById('stats-list').innerHTML = doc.getElementById('stats-list').innerHTML;
                        });
                }, 1000);
            </script>
        </body>
        </html>
    "@,
{
}

} // verus!
