//! Tumbling-window rollup metrics for the proxy.
//!
//! A `Metrics` implementation that accumulates per-endpoint outcomes, and a
//! `RollupMetrics::drain` that gives one summary per endpoint (count, success
//! and failure, p50/p95 latency) for the window and then clears it. The proxy
//! drains on a fixed interval, so that logs get a periodic statistical summary
//! alongside the per-call events.

use vstd::prelude::*;
use vstd::relations::{sorted_by, total_ordering};
use vstd::seq_lib::lemma_sorted_unique;

use crate::metrics::Metrics;
use crate::text::{
    lemma_precedes_asymmetric, lemma_precedes_transitive, precedes, str_eq, str_precedes,
};
use crate::time::Duration;

verus! {

/// Numbers never fall along the list.
pub open spec fn ascending(s: Seq<u64>) -> bool {
    forall|i: int, j: int| 0 <= i <= j < s.len() ==> #[trigger] s[i] <= #[trigger] s[j]
}

/// The numbers in ascending order.
pub open spec fn in_order(s: Seq<u64>) -> Seq<u64> {
    s.sort_by(|a: u64, b: u64| a <= b)
}

/// There is one ascending arrangement of a list.
proof fn lemma_in_order(s: Seq<u64>, sorted: Seq<u64>)
    requires
        ascending(sorted),
        sorted.to_multiset() == s.to_multiset(),
    ensures
        sorted == in_order(s),
{
    let leq = |a: u64, b: u64| a <= b;
    assert(total_ordering(leq));
    s.lemma_sort_by_ensures(leq);
    assert(sorted_by(sorted, leq));
    lemma_sorted_unique(sorted, in_order(s), leq);
}

/// Merge two ascending lists.
fn merge(a: Vec<u64>, b: Vec<u64>) -> (r: Vec<u64>)
    requires
        ascending(a@),
        ascending(b@),
        a@.len() + b@.len() <= usize::MAX,
    ensures
        ascending(r@),
        r@.to_multiset() == a@.to_multiset().add(b@.to_multiset()),
{
    broadcast use vstd::seq_lib::group_to_multiset_ensures;

    let mut out: Vec<u64> = Vec::new();
    let mut i: usize = 0;
    let mut j: usize = 0;
    assert(a@.take(0) =~= seq![]);
    assert(b@.take(0) =~= seq![]);
    assert(out@.to_multiset() =~= a@.take(0).to_multiset().add(b@.take(0).to_multiset()));
    while i < a.len() || j < b.len()
        invariant
            i <= a@.len(),
            j <= b@.len(),
            ascending(a@),
            ascending(b@),
            ascending(out@),
            out@.to_multiset() == a@.take(i as int).to_multiset().add(
                b@.take(j as int).to_multiset(),
            ),
            forall|k: int, m: int|
                0 <= k < out@.len() && i <= m < a@.len() ==> #[trigger] out@[k] <= #[trigger] a@[m],
            forall|k: int, m: int|
                0 <= k < out@.len() && j <= m < b@.len() ==> #[trigger] out@[k] <= #[trigger] b@[m],
        decreases a.len() - i + b.len() - j,
    {
        broadcast use vstd::seq_lib::group_to_multiset_ensures;

        if j >= b.len() || (i < a.len() && a[i] <= b[j]) {
            let ghost before = out@;
            out.push(a[i]);
            assert(out@ == before.push(a@[i as int]));
            assert(a@.take(i + 1) =~= a@.take(i as int).push(a@[i as int]));
            assert(out@.to_multiset() =~= a@.take(i + 1).to_multiset().add(
                b@.take(j as int).to_multiset(),
            ));
            i += 1;
        } else {
            let ghost before = out@;
            out.push(b[j]);
            assert(out@ == before.push(b@[j as int]));
            assert(b@.take(j + 1) =~= b@.take(j as int).push(b@[j as int]));
            assert(out@.to_multiset() =~= a@.take(i as int).to_multiset().add(
                b@.take(j + 1).to_multiset(),
            ));
            j += 1;
        }
    }
    assert(a@.take(i as int) =~= a@);
    assert(b@.take(j as int) =~= b@);
    out
}

/// The numbers from `from` up to `to`, in ascending order.
fn sort_range(s: &Vec<u64>, from: usize, to: usize) -> (r: Vec<u64>)
    requires
        from <= to <= s@.len(),
    ensures
        ascending(r@),
        r@.to_multiset() == s@.subrange(from as int, to as int).to_multiset(),
    decreases to - from,
{
    broadcast use vstd::seq_lib::group_to_multiset_ensures;

    if to - from <= 1 {
        let mut r: Vec<u64> = Vec::new();
        if from < to {
            r.push(s[from]);
        }
        assert(r@ =~= s@.subrange(from as int, to as int));
        return r;
    }
    let mid: usize = from + (to - from) / 2;
    let a = sort_range(s, from, mid);
    let b = sort_range(s, mid, to);
    proof {
        let left = s@.subrange(from as int, mid as int);
        let right = s@.subrange(mid as int, to as int);
        assert(left + right =~= s@.subrange(from as int, to as int));
        vstd::seq_lib::lemma_multiset_commutative(left, right);
        assert(a@.to_multiset().len() == left.len());
        assert(b@.to_multiset().len() == right.len());
    }
    merge(a, b)
}

/// What was seen of an endpoint in a window.
pub struct WindowView {
    pub ok: nat,
    pub err: nat,
    pub latencies_ms: Seq<u64>,
}

impl WindowView {
    /// Nothing seen.
    pub open spec fn empty() -> Self {
        WindowView { ok: 0, err: 0, latencies_ms: seq![] }
    }

    /// One more outcome seen.
    pub open spec fn counted(self, success: bool, latency: Duration) -> Self {
        WindowView {
            ok: if success {
                self.ok + 1
            } else {
                self.ok
            },
            err: if success {
                self.err
            } else {
                self.err + 1
            },
            latencies_ms: self.latencies_ms.push(latency.millis() as u64),
        }
    }
}

/// The windows after one more outcome was seen of `endpoint`.
pub open spec fn recorded(
    windows: Map<Seq<char>, WindowView>,
    endpoint: Seq<char>,
    success: bool,
    latency: Duration,
) -> Map<Seq<char>, WindowView> {
    let window = if windows.contains_key(endpoint) {
        windows[endpoint]
    } else {
        WindowView::empty()
    };
    windows.insert(endpoint, window.counted(success, latency))
}

/// The rank in a list of `n` that lies closest to so many twentieths of the
/// way from the first to the last; halfway counts as the later one.
pub open spec fn nearest_rank(twentieths: nat, n: nat) -> nat {
    ((twentieths * (n - 1) + 10) / 20) as nat
}

/// The latency so many twentieths of the way up the ordered latencies.
pub open spec fn percentile(latencies_ms: Seq<u64>, twentieths: nat) -> u64 {
    in_order(latencies_ms)[nearest_rank(twentieths, latencies_ms.len()) as int]
}

struct Window {
    ok: u64,
    err: u64,
    latencies_ms: Vec<u64>,
}

impl View for Window {
    type V = WindowView;

    closed spec fn view(&self) -> WindowView {
        WindowView {
            ok: self.ok as nat,
            err: self.err as nat,
            latencies_ms: self.latencies_ms@,
        }
    }
}

impl Window {
    spec fn wf(self) -> bool {
        self.ok + self.err == self.latencies_ms@.len()
    }

    /// Count one more outcome.
    fn count(&mut self, success: bool, latency: Duration)
        requires
            old(self).wf(),
        ensures
            final(self).wf(),
            final(self)@ == old(self)@.counted(success, latency),
            final(self)@.latencies_ms.len() > 0,
    {
        let ms: u64 =
        #[verifier::truncate]
        (latency.as_millis() as u64);
        self.latencies_ms.push(ms);
        assert(self.latencies_ms.len() <= usize::MAX);
        if success {
            self.ok = self.ok + 1;
        } else {
            self.err = self.err + 1;
        }
    }

    /// The latency so many twentieths of the way up `sorted`.
    fn pick(sorted: &Vec<u64>, twentieths: u128) -> (r: u64)
        requires
            sorted@.len() > 0,
            twentieths <= 20,
        ensures
            r == sorted@[nearest_rank(twentieths as nat, sorted@.len()) as int],
    {
        let n: u128 = sorted.len() as u128;
        assert(twentieths * (n - 1) <= 20 * (n - 1)) by (nonlinear_arith)
            requires
                twentieths <= 20,
                n >= 1,
        ;
        assert(0 <= twentieths * (n - 1)) by (nonlinear_arith)
            requires
                n >= 1,
        ;
        let rank: u128 = (twentieths * (n - 1) + 10) / 20;
        assert(rank < n);
        sorted[rank as usize]
    }
}

/// One endpoint's stats for a drained window.
#[derive(Debug, Clone, PartialEq)]
pub struct EndpointRollup {
    pub endpoint: String,
    pub requests: u64,
    pub ok: u64,
    pub err: u64,
    pub p50_ms: u64,
    pub p95_ms: u64,
}

impl EndpointRollup {
    /// These are the stats of `window`.
    pub open spec fn sums_up(self, window: WindowView) -> bool {
        &&& self.requests == window.ok + window.err
        &&& self.ok == window.ok
        &&& self.err == window.err
        &&& self.p50_ms == percentile(window.latencies_ms, 10)
        &&& self.p95_ms == percentile(window.latencies_ms, 19)
    }
}

/// The windows in a list, by endpoint.
spec fn windows_map(windows: Seq<(String, Window)>) -> Map<Seq<char>, WindowView>
    decreases windows.len(),
{
    if windows.len() == 0 {
        Map::empty()
    } else {
        windows_map(windows.drop_last()).insert(windows.last().0@, windows.last().1@)
    }
}

/// Endpoints stand in dictionary order, each once, and each has been seen.
spec fn windows_wf(windows: Seq<(String, Window)>) -> bool {
    &&& forall|i: int, j: int|
        0 <= i < j < windows.len() ==> precedes(
            (#[trigger] windows[i]).0@,
            (#[trigger] windows[j]).0@,
        )
    &&& forall|i: int|
        0 <= i < windows.len() ==> (#[trigger] windows[i]).1.wf()
            && windows[i].1@.latencies_ms.len() > 0
}

/// The map holds exactly what the list does.
proof fn lemma_windows_map(windows: Seq<(String, Window)>)
    requires
        windows_wf(windows),
    ensures
        forall|i: int|
            0 <= i < windows.len() ==> windows_map(windows).contains_key(
                (#[trigger] windows[i]).0@,
            ) && windows_map(windows)[windows[i].0@] == windows[i].1@,
        forall|k: Seq<char>| #[trigger]
            windows_map(windows).contains_key(k) ==> exists|i: int|
                0 <= i < windows.len() && (#[trigger] windows[i]).0@ == k,
    decreases windows.len(),
{
    if windows.len() > 0 {
        let shorter = windows.drop_last();
        lemma_windows_map(shorter);
        assert forall|i: int| 0 <= i < windows.len() implies windows_map(windows).contains_key(
            (#[trigger] windows[i]).0@,
        ) && windows_map(windows)[windows[i].0@] == windows[i].1@ by {
            if i < shorter.len() {
                assert(shorter[i] == windows[i]);
                lemma_precedes_asymmetric(windows[i].0@, windows[windows.len() - 1].0@);
            }
        }
        assert forall|k: Seq<char>| #[trigger]
            windows_map(windows).contains_key(k) implies exists|i: int|
            0 <= i < windows.len() && (#[trigger] windows[i]).0@ == k by {
            if k == windows.last().0@ {
                assert(windows[windows.len() - 1].0@ == k);
            } else {
                assert(windows_map(shorter).contains_key(k));
                let i = choose|i: int| 0 <= i < shorter.len() && (#[trigger] shorter[i]).0@ == k;
                assert(windows[i].0@ == k);
            }
        }
    }
}

/// Another window for an endpoint that the list holds.
proof fn lemma_window_replaced(
    windows: Seq<(String, Window)>,
    i: int,
    entry: (String, Window),
)
    requires
        windows_wf(windows),
        0 <= i < windows.len(),
        entry.0@ == windows[i].0@,
        entry.1.wf(),
        entry.1@.latencies_ms.len() > 0,
    ensures
        windows_wf(windows.update(i, entry)),
        windows_map(windows.update(i, entry)) == windows_map(windows).insert(entry.0@, entry.1@),
{
    let after = windows.update(i, entry);
    assert forall|a: int, b: int| 0 <= a < b < after.len() implies precedes(
        (#[trigger] after[a]).0@,
        (#[trigger] after[b]).0@,
    ) by {
        assert(precedes(windows[a].0@, windows[b].0@));
    }
    lemma_windows_map(windows);
    lemma_windows_map(after);
    let wanted = windows_map(windows).insert(entry.0@, entry.1@);
    assert(after[i] == entry);
    assert forall|k: Seq<char>|
        #![trigger windows_map(after).dom().contains(k)]
        #![trigger wanted.dom().contains(k)]
        windows_map(after).dom().contains(k) == wanted.dom().contains(k) && (wanted.dom().contains(
            k,
        ) ==> windows_map(after)[k] == wanted[k]) by {
        if windows_map(after).contains_key(k) {
            let at = choose|at: int| 0 <= at < after.len() && (#[trigger] after[at]).0@ == k;
            assert(windows[at].0@ == k);
            if at < i {
                lemma_precedes_asymmetric(windows[at].0@, windows[i].0@);
            } else if i < at {
                lemma_precedes_asymmetric(windows[i].0@, windows[at].0@);
            }
        }
        if windows_map(windows).contains_key(k) {
            let at = choose|at: int| 0 <= at < windows.len() && (#[trigger] windows[at]).0@ == k;
            assert(after[at].0@ == k);
        }
    }
    assert(windows_map(after) =~= wanted);
}

/// A window for an endpoint that the list does not hold, at its place.
proof fn lemma_window_added(windows: Seq<(String, Window)>, i: int, entry: (String, Window))
    requires
        windows_wf(windows),
        0 <= i <= windows.len(),
        forall|k: int| 0 <= k < i ==> precedes((#[trigger] windows[k]).0@, entry.0@),
        i < windows.len() ==> precedes(entry.0@, windows[i].0@),
        entry.1.wf(),
        entry.1@.latencies_ms.len() > 0,
    ensures
        windows_wf(windows.insert(i, entry)),
        windows_map(windows.insert(i, entry)) == windows_map(windows).insert(entry.0@, entry.1@),
        !windows_map(windows).contains_key(entry.0@),
{
    let after = windows.insert(i, entry);
    assert forall|k: int| i <= k < windows.len() implies precedes(
        entry.0@,
        (#[trigger] windows[k]).0@,
    ) by {
        if k > i {
            lemma_precedes_transitive(entry.0@, windows[i].0@, windows[k].0@);
        }
    }
    assert forall|a: int, b: int| 0 <= a < b < after.len() implies precedes(
        (#[trigger] after[a]).0@,
        (#[trigger] after[b]).0@,
    ) by {
        let wa = if a < i {
            a
        } else {
            a - 1
        };
        let wb = if b < i {
            b
        } else {
            b - 1
        };
        if a != i {
            assert(after[a] == windows[wa]);
        }
        if b != i {
            assert(after[b] == windows[wb]);
        }
    }
    assert forall|a: int| 0 <= a < after.len() implies (#[trigger] after[a]).1.wf()
        && after[a].1@.latencies_ms.len() > 0 by {
        if a < i {
            assert(after[a] == windows[a]);
        } else if a > i {
            assert(after[a] == windows[a - 1]);
        }
    }
    lemma_windows_map(windows);
    lemma_windows_map(after);
    let wanted = windows_map(windows).insert(entry.0@, entry.1@);
    assert(after[i] == entry);
    if windows_map(windows).contains_key(entry.0@) {
        let at = choose|at: int|
            0 <= at < windows.len() && (#[trigger] windows[at]).0@ == entry.0@;
        if at < i {
            lemma_precedes_asymmetric(windows[at].0@, entry.0@);
        } else {
            lemma_precedes_asymmetric(entry.0@, windows[at].0@);
        }
    }
    assert forall|k: Seq<char>|
        #![trigger windows_map(after).dom().contains(k)]
        #![trigger wanted.dom().contains(k)]
        windows_map(after).dom().contains(k) == wanted.dom().contains(k) && (wanted.dom().contains(
            k,
        ) ==> windows_map(after)[k] == wanted[k]) by {
        if windows_map(after).contains_key(k) {
            let at = choose|at: int| 0 <= at < after.len() && (#[trigger] after[at]).0@ == k;
            if at < i {
                assert(after[at] == windows[at]);
                lemma_precedes_asymmetric(windows[at].0@, entry.0@);
            } else if at > i {
                assert(after[at] == windows[at - 1]);
                lemma_precedes_asymmetric(entry.0@, windows[at - 1].0@);
            }
        }
        if windows_map(windows).contains_key(k) {
            let at = choose|at: int| 0 <= at < windows.len() && (#[trigger] windows[at]).0@ == k;
            if at < i {
                assert(after[at] == windows[at]);
            } else {
                assert(after[at + 1] == windows[at]);
            }
        }
    }
    assert(windows_map(after) =~= wanted);
}

/// Accumulates per-endpoint outcomes for the current window.
pub struct RollupMetrics {
    windows: Vec<(String, Window)>,
}

impl View for RollupMetrics {
    type V = Map<Seq<char>, WindowView>;

    closed spec fn view(&self) -> Map<Seq<char>, WindowView> {
        windows_map(self.windows@)
    }
}

impl RollupMetrics {
    #[verifier::type_invariant]
    spec fn inv(self) -> bool {
        windows_wf(self.windows@)
    }

    /// An empty window.
    pub fn new() -> (r: Self)
        ensures
            r@ == Map::<Seq<char>, WindowView>::empty(),
    {
        RollupMetrics { windows: Vec::new() }
    }

    /// Count one more outcome of `endpoint`.
    fn record(&mut self, endpoint: &str, success: bool, latency: Duration)
        ensures
            final(self)@ == recorded(old(self)@, endpoint@, success, latency),
    {
        proof {
            use_type_invariant(&*self);
        }
        let mut windows: Vec<(String, Window)> = Vec::new();
        std::mem::swap(&mut windows, &mut self.windows);
        let ghost before = windows@;
        let mut i: usize = 0;
        while i < windows.len() && str_precedes(windows[i].0.as_str(), endpoint)
            invariant
                i <= windows@.len(),
                windows@ == before,
                windows_wf(before),
                forall|k: int| 0 <= k < i ==> precedes((#[trigger] before[k]).0@, endpoint@),
            decreases windows.len() - i,
        {
            i += 1;
        }
        if i < windows.len() && str_eq(windows[i].0.as_str(), endpoint) {
            windows[i].1.count(success, latency);
            proof {
                lemma_windows_map(before);
                lemma_window_replaced(before, i as int, windows@[i as int]);
                assert(windows@ =~= before.update(i as int, windows@[i as int]));
            }
        } else {
            proof {
                if i < windows@.len() {
                    assert(precedes(endpoint@, before[i as int].0@));
                }
            }
            let mut window = Window { ok: 0, err: 0, latencies_ms: Vec::new() };
            assert(window@ == WindowView::empty());
            window.count(success, latency);
            windows.insert(i, (endpoint.to_owned(), window));
            proof {
                lemma_window_added(before, i as int, windows@[i as int]);
                assert(windows@ =~= before.insert(i as int, windows@[i as int]));
            }
        }
        self.windows = windows;
    }

    /// Take and clear the current window, returning per-endpoint stats sorted
    /// by endpoint. Endpoints with no traffic are omitted.
    pub fn drain(&mut self) -> (r: Vec<EndpointRollup>)
        ensures
            final(self)@ == Map::<Seq<char>, WindowView>::empty(),
            report_on(r@, old(self)@),
    {
        proof {
            use_type_invariant(&*self);
        }
        let mut windows: Vec<(String, Window)> = Vec::new();
        std::mem::swap(&mut windows, &mut self.windows);
        let mut out: Vec<EndpointRollup> = Vec::new();
        let mut i: usize = 0;
        proof {
            lemma_windows_map(windows@);
        }
        while i < windows.len()
            invariant
                i <= windows@.len(),
                out@.len() == i,
                windows_wf(windows@),
                forall|k: int|
                    0 <= k < i ==> (#[trigger] out@[k]).endpoint@ == windows@[k].0@
                        && out@[k].sums_up(windows@[k].1@) && out@[k].requests > 0
                        && windows@[k].1@.latencies_ms.len() == out@[k].requests,
            decreases windows.len() - i,
        {
            let entry = &windows[i];
            let window = &entry.1;
            assert(windows@[i as int].1.wf());
            let sorted = sort_range(&window.latencies_ms, 0, window.latencies_ms.len());
            proof {
                let latencies = window@.latencies_ms;
                assert(latencies.subrange(0, latencies.len() as int) =~= latencies);
                lemma_in_order(latencies, sorted@);
                vstd::seq_lib::to_multiset_len(latencies);
                vstd::seq_lib::to_multiset_len(sorted@);
            }
            let rollup = EndpointRollup {
                endpoint: entry.0.clone(),
                requests: window.ok + window.err,
                ok: window.ok,
                err: window.err,
                p50_ms: Window::pick(&sorted, 10),
                p95_ms: Window::pick(&sorted, 19),
            };
            out.push(rollup);
            i += 1;
        }
        proof {
            assert forall|k: Seq<char>| #[trigger] windows_map(windows@).contains_key(k) implies (
            exists|j: int| 0 <= j < out@.len() && (#[trigger] out@[j]).endpoint@ == k) by {
                let j = choose|j: int|
                    0 <= j < windows@.len() && (#[trigger] windows@[j]).0@ == k;
                assert(out@[j].endpoint@ == k);
            }
            assert forall|a: int, b: int| 0 <= a < b < out@.len() implies precedes(
                (#[trigger] out@[a]).endpoint@,
                (#[trigger] out@[b]).endpoint@,
            ) by {
                assert(precedes(windows@[a].0@, windows@[b].0@));
            }
        }
        out
    }

    /// Drain the window into one event per endpoint, to be logged. Empty when
    /// no endpoint saw traffic in the window.
    pub fn flush(&mut self, window_secs: u64) -> (r: Vec<RollupEvent>)
        ensures
            final(self)@ == Map::<Seq<char>, WindowView>::empty(),
            report_on(r@.map_values(|e: RollupEvent| e.rollup), old(self)@),
            forall|i: int| 0 <= i < r@.len() ==> (#[trigger] r@[i]).window_s == window_secs,
    {
        let rollups = self.drain();
        let ghost drained = rollups@;
        let mut events: Vec<RollupEvent> = Vec::new();
        for rollup in it: rollups
            invariant
                it.seq() == drained,
                events@.len() == it.index(),
                forall|k: int|
                    0 <= k < events@.len() ==> (#[trigger] events@[k]).rollup == drained[k]
                        && events@[k].window_s == window_secs,
        {
            events.push(RollupEvent { window_s: window_secs, rollup });
        }
        assert(events@.map_values(|e: RollupEvent| e.rollup) =~= drained);
        events
    }
}

/// One endpoint's line in the periodic summary.
#[derive(Debug)]
pub struct RollupEvent {
    pub window_s: u64,
    pub rollup: EndpointRollup,
}

/// `rollups` are the stats of `windows`: one for each endpoint that was seen,
/// in dictionary order, each over one latency for every request.
pub open spec fn report_on(
    rollups: Seq<EndpointRollup>,
    windows: Map<Seq<char>, WindowView>,
) -> bool {
    &&& forall|i: int, j: int|
        0 <= i < j < rollups.len() ==> precedes(
            (#[trigger] rollups[i]).endpoint@,
            (#[trigger] rollups[j]).endpoint@,
        )
    &&& forall|i: int|
        0 <= i < rollups.len() ==> windows.contains_key((#[trigger] rollups[i]).endpoint@)
            && rollups[i].sums_up(windows[rollups[i].endpoint@]) && rollups[i].requests > 0
            && windows[rollups[i].endpoint@].latencies_ms.len() == rollups[i].requests
    &&& forall|k: Seq<char>| #[trigger]
        windows.contains_key(k) ==> exists|i: int|
            0 <= i < rollups.len() && (#[trigger] rollups[i]).endpoint@ == k
}

impl Default for RollupMetrics {
    fn default() -> (r: Self)
        ensures
            r@ == Map::<Seq<char>, WindowView>::empty(),
    {
        RollupMetrics::new()
    }
}

impl Metrics for RollupMetrics {
    fn on_request(&mut self, _endpoint_tag: &str, _method: &str)
        ensures
            final(self)@ == old(self)@,
    {
    }

    fn on_success(&mut self, endpoint_tag: &str, _method: &str, latency: Duration)
        ensures
            final(self)@ == recorded(old(self)@, endpoint_tag@, true, latency),
    {
        self.record(endpoint_tag, true, latency);
    }

    fn on_failure(
        &mut self,
        endpoint_tag: &str,
        _method: &str,
        latency: Duration,
        _error: &str,
    )
        ensures
            final(self)@ == recorded(old(self)@, endpoint_tag@, false, latency),
    {
        self.record(endpoint_tag, false, latency);
    }

    fn on_skipped_incapable(&mut self, _endpoint_tag: &str, _method: &str)
        ensures
            final(self)@ == old(self)@,
    {
    }

    fn on_skipped_cooldown(&mut self, _endpoint_tag: &str, _method: &str)
        ensures
            final(self)@ == old(self)@,
    {
    }
}

/// One request's outcome, as metrics see it.
pub struct Observation {
    pub endpoint: Seq<char>,
    pub success: bool,
    pub latency: Duration,
}

/// The window after a list of outcomes, from an empty one.
pub open spec fn window_of(observations: Seq<Observation>) -> Map<Seq<char>, WindowView>
    decreases observations.len(),
{
    if observations.len() == 0 {
        Map::empty()
    } else {
        let last = observations.last();
        recorded(
            window_of(observations.drop_last()),
            last.endpoint,
            last.success,
            last.latency,
        )
    }
}

/// How many of the outcomes are an endpoint's successes, or its failures.
pub open spec fn tally(observations: Seq<Observation>, endpoint: Seq<char>, success: bool) -> nat
    decreases observations.len(),
{
    if observations.len() == 0 {
        0
    } else {
        let last = observations.last();
        tally(observations.drop_last(), endpoint, success) + if last.endpoint == endpoint
            && last.success == success {
            1nat
        } else {
            0nat
        }
    }
}

/// A window counts every outcome once, under its endpoint: as many successes
/// and failures as were seen, one latency for each, and nothing for endpoints
/// that were not seen.
pub proof fn law_window_counts_every_outcome(observations: Seq<Observation>, endpoint: Seq<char>)
    ensures
        ({
            let ok = tally(observations, endpoint, true);
            let err = tally(observations, endpoint, false);
            let windows = window_of(observations);
            &&& windows.contains_key(endpoint) <==> ok + err > 0
            &&& windows.contains_key(endpoint) ==> {
                &&& windows[endpoint].ok == ok
                &&& windows[endpoint].err == err
                &&& windows[endpoint].latencies_ms.len() == ok + err
            }
        }),
    decreases observations.len(),
{
    if observations.len() > 0 {
        law_window_counts_every_outcome(observations.drop_last(), endpoint);
    }
}

/// Both reported percentiles are latencies that were seen in the window.
pub proof fn law_percentiles_are_observed(latencies_ms: Seq<u64>, twentieths: nat)
    requires
        latencies_ms.len() > 0,
        twentieths <= 20,
    ensures
        latencies_ms.contains(percentile(latencies_ms, twentieths)),
{
    broadcast use vstd::seq_lib::group_to_multiset_ensures;

    let leq = |a: u64, b: u64| a <= b;
    let n = latencies_ms.len();
    let rank = nearest_rank(twentieths, n);
    assert(total_ordering(leq));
    latencies_ms.lemma_sort_by_ensures(leq);
    let sorted = in_order(latencies_ms);
    assert(sorted.to_multiset().len() == n);
    assert(0 <= twentieths * (n - 1) <= 20 * (n - 1)) by (nonlinear_arith)
        requires
            twentieths <= 20,
            n >= 1,
    ;
    assert(rank < n);
    assert(sorted.contains(sorted[rank as int]));
    assert(sorted.to_multiset().count(sorted[rank as int]) > 0);
}

/// A higher percentile is never below a lower one.
pub proof fn law_percentiles_ascend(latencies_ms: Seq<u64>, lower: nat, higher: nat)
    requires
        latencies_ms.len() > 0,
        lower <= higher <= 20,
    ensures
        percentile(latencies_ms, lower) <= percentile(latencies_ms, higher),
{
    broadcast use vstd::seq_lib::group_to_multiset_ensures;

    let leq = |a: u64, b: u64| a <= b;
    let n = latencies_ms.len();
    assert(total_ordering(leq));
    latencies_ms.lemma_sort_by_ensures(leq);
    let sorted = in_order(latencies_ms);
    assert(sorted.to_multiset().len() == n);
    let a = nearest_rank(lower, n);
    let b = nearest_rank(higher, n);
    assert(0 <= lower * (n - 1) <= higher * (n - 1) <= 20 * (n - 1)) by (nonlinear_arith)
        requires
            lower <= higher <= 20,
            n >= 1,
    ;
    assert(a <= b < n);
    if a < b {
        assert(leq(sorted[a as int], sorted[b as int]));
    }
}

/// The outcomes of one endpoint, in the order in which they were seen.
pub open spec fn outcomes_of(
    observations: Seq<Observation>,
    endpoint: Seq<char>,
) -> Seq<Observation> {
    observations.filter(|o: Observation| o.endpoint == endpoint)
}

/// A window is exact: it holds the latency of each of an endpoint's outcomes in
/// whole milliseconds, in the order in which they were seen, and counts as many
/// successes and failures as there were among them. Of a number of milliseconds
/// that takes more than 64 bits it holds the low 64.
pub proof fn law_window_keeps_every_latency(
    observations: Seq<Observation>,
    endpoint: Seq<char>,
    k: int,
)
    ensures
        ({
            let own = outcomes_of(observations, endpoint);
            let windows = window_of(observations);
            let window = windows[endpoint];
            &&& windows.contains_key(endpoint) <==> own.len() > 0
            &&& own.len() > 0 ==> {
                &&& window.latencies_ms.len() == own.len()
                &&& window.ok == own.filter(|o: Observation| o.success).len()
                &&& window.err == own.filter(|o: Observation| !o.success).len()
            }
            &&& 0 <= k < own.len() ==> window.latencies_ms[k] == own[k].latency.nanos / 1_000_000
                % 0x1_0000_0000_0000_0000
        }),
    decreases observations.len(),
{
    reveal(Seq::filter);
    if observations.len() > 0 {
        let shorter = observations.drop_last();
        let last = observations.last();
        law_window_keeps_every_latency(shorter, endpoint, k);
        let before = outcomes_of(shorter, endpoint);
        let own = outcomes_of(observations, endpoint);
        if last.endpoint == endpoint {
            let good = |o: Observation| o.success;
            let bad = |o: Observation| !o.success;
            assert(own == before.push(last));
            before.lemma_filter_push(last, good);
            before.lemma_filter_push(last, bad);
            before.lemma_filter_len(good);
            before.lemma_filter_len(bad);
            if last.success {
                assert(own.filter(good).len() == before.filter(good).len() + 1);
            } else {
                assert(own.filter(bad).len() == before.filter(bad).len() + 1);
            }
            let ms: u128 = last.latency.nanos / 1_000_000;
            assert(ms as u64 == ms % 0x1_0000_0000_0000_0000) by (bit_vector);
            assert(window_of(observations)[endpoint].latencies_ms.last() == ms as u64);
        } else {
            assert(own == before);
        }
    }
}

/// A percentile is told by counting, with no ordering of the latencies: for the
/// rank that is nearest to so many twentieths of the way from the first to the
/// last of them, where halfway counts as the later one, that many latencies at
/// most lie below it, and more than that many do not lie above it.
pub proof fn law_percentile_by_counting(latencies_ms: Seq<u64>, twentieths: nat, rank: int)
    requires
        latencies_ms.len() > 0,
        twentieths <= 20,
        -10 < 20 * rank - twentieths * (latencies_ms.len() - 1) <= 10,
    ensures
        ({
            let value = percentile(latencies_ms, twentieths);
            let all = latencies_ms.to_multiset();
            &&& latencies_ms.contains(value)
            &&& all.filter(|ms: u64| ms < value).len() <= rank
            &&& rank < all.filter(|ms: u64| ms <= value).len()
        }),
{
    broadcast use vstd::seq_lib::group_to_multiset_ensures;
    broadcast use vstd::multiset::group_multiset_axioms;

    law_percentiles_are_observed(latencies_ms, twentieths);
    let n = latencies_ms.len();
    let leq = |a: u64, b: u64| a <= b;
    assert(total_ordering(leq));
    latencies_ms.lemma_sort_by_ensures(leq);
    let sorted = in_order(latencies_ms);
    let all = latencies_ms.to_multiset();
    assert(sorted.to_multiset() == all);
    vstd::seq_lib::to_multiset_len(latencies_ms);
    vstd::seq_lib::to_multiset_len(sorted);
    assert(0 <= twentieths * (n - 1) <= 20 * (n - 1)) by (nonlinear_arith)
        requires
            twentieths <= 20,
            n >= 1,
    ;
    assert(rank == nearest_rank(twentieths, n));
    assert(0 <= rank < n);
    let value = sorted[rank];
    let first = sorted.take(rank);
    let rest = sorted.skip(rank);
    let upto = sorted.take(rank + 1);
    let above = sorted.skip(rank + 1);
    assert(first + rest =~= sorted);
    assert(upto + above =~= sorted);
    vstd::seq_lib::lemma_multiset_commutative(first, rest);
    vstd::seq_lib::lemma_multiset_commutative(upto, above);
    let below = all.filter(|ms: u64| ms < value);
    let not_above = all.filter(|ms: u64| ms <= value);
    assert forall|i: int, j: int| 0 <= i <= j < n implies #[trigger] sorted[i]
        <= #[trigger] sorted[j] by {
        if i < j {
            assert(leq(sorted[i], sorted[j]));
        }
    }
    assert forall|ms: u64| below.count(ms) <= #[trigger] first.to_multiset().count(ms) by {
        if ms < value && rest.to_multiset().count(ms) > 0 {
            assert(rest.contains(ms));
            let at = choose|at: int| 0 <= at < rest.len() && rest[at] == ms;
            assert(sorted[rank + at] == ms);
        }
        assert(all.count(ms) == first.to_multiset().count(ms) + rest.to_multiset().count(ms));
    }
    assert(below.subset_of(first.to_multiset()));
    assert(first.to_multiset().sub(below).len() == first.to_multiset().len() - below.len());
    assert forall|ms: u64| #[trigger] upto.to_multiset().count(ms) <= not_above.count(ms) by {
        if upto.to_multiset().count(ms) > 0 {
            assert(upto.contains(ms));
            let at = choose|at: int| 0 <= at < upto.len() && upto[at] == ms;
            assert(sorted[at] == ms);
        }
        assert(all.count(ms) == upto.to_multiset().count(ms) + above.to_multiset().count(ms));
    }
    assert(upto.to_multiset().subset_of(not_above));
    assert(not_above.sub(upto.to_multiset()).len() == not_above.len() - upto.to_multiset().len());
}

/// What a drained window reports, from the outcomes themselves: one line for
/// every endpoint that was seen and for no other, in dictionary order, with its
/// number of outcomes, successes and failures, and with the latencies, in whole
/// milliseconds, at half and at nineteen twentieths of the way up.
pub proof fn law_report_sums_up_the_outcomes(
    observations: Seq<Observation>,
    rollups: Seq<EndpointRollup>,
    i: int,
    j: int,
    half: int,
    most: int,
)
    requires
        report_on(rollups, window_of(observations)),
        0 <= i < rollups.len(),
        -10 < 20 * half - 10 * (rollups[i].requests - 1) <= 10,
        -10 < 20 * most - 19 * (rollups[i].requests - 1) <= 10,
    ensures
        ({
            let rollup = rollups[i];
            let own = outcomes_of(observations, rollup.endpoint@);
            let latencies = own.map_values(
                |o: Observation| (o.latency.nanos / 1_000_000 % 0x1_0000_0000_0000_0000) as u64,
            ).to_multiset();
            &&& rollup.requests == own.len()
            &&& own.len() > 0
            &&& rollup.ok == own.filter(|o: Observation| o.success).len()
            &&& rollup.err == own.filter(|o: Observation| !o.success).len()
            &&& latencies.count(rollup.p50_ms) > 0
            &&& latencies.filter(|ms: u64| ms < rollup.p50_ms).len() <= half < latencies.filter(
                |ms: u64| ms <= rollup.p50_ms,
            ).len()
            &&& latencies.count(rollup.p95_ms) > 0
            &&& latencies.filter(|ms: u64| ms < rollup.p95_ms).len() <= most < latencies.filter(
                |ms: u64| ms <= rollup.p95_ms,
            ).len()
        }),
        i < j < rollups.len() ==> precedes(rollups[i].endpoint@, rollups[j].endpoint@),
        forall|m: int|
            0 <= m < observations.len() ==> exists|at: int|
                0 <= at < rollups.len() && (#[trigger] rollups[at]).endpoint@ == (
                #[trigger] observations[m]).endpoint,
{
    broadcast use vstd::seq_lib::group_to_multiset_ensures;

    let rollup = rollups[i];
    let endpoint = rollup.endpoint@;
    let own = outcomes_of(observations, endpoint);
    let window = window_of(observations)[endpoint];
    let latencies = own.map_values(|o: Observation| (o.latency.nanos / 1_000_000 % 0x1_0000_0000_0000_0000) as u64);
    law_window_keeps_every_latency(observations, endpoint, 0);
    assert forall|k: int| 0 <= k < own.len() implies window.latencies_ms[k] == latencies[k] by {
        law_window_keeps_every_latency(observations, endpoint, k);
    }
    assert(window.latencies_ms =~= latencies);
    law_percentile_by_counting(latencies, 10, half);
    law_percentile_by_counting(latencies, 19, most);
    assert forall|m: int| 0 <= m < observations.len() implies exists|at: int|
        0 <= at < rollups.len() && (#[trigger] rollups[at]).endpoint@ == (
        #[trigger] observations[m]).endpoint by {
        let seen = observations[m].endpoint;
        let pred = |o: Observation| o.endpoint == seen;
        observations.lemma_filter_contains(pred, m);
        assert(outcomes_of(observations, seen) == observations.filter(pred));
        law_window_keeps_every_latency(observations, seen, 0);
        assert(window_of(observations).contains_key(seen));
    }
}

} // verus!
