//! Byte throughput over a sliding window, in total and per flow. Each
//! record is kept with the time it was made (nanoseconds on the caller's
//! clock); records older than the window are dropped whenever a new one
//! arrives. The rate in bytes a second is the recorded bytes over the
//! time the window's records span (or the whole window, where they span
//! none or more than it).

use vstd::prelude::*;
use crate::base::id::FlowId;

verus! {

/// The default window: five seconds, in nanoseconds.
pub const DEFAULT_WINDOW: u128 = 5_000_000_000;

/// How many of the first records of `w` were made before `cutoff`.
pub open spec fn stale_prefix(w: Seq<(u128, u64)>, cutoff: u128) -> nat
    decreases w.len(),
{
    if w.len() == 0 || w[0].0 >= cutoff {
        0
    } else {
        1 + stale_prefix(w.drop_first(), cutoff)
    }
}

/// `w` without its first records made before `cutoff`.
pub open spec fn pruned(w: Seq<(u128, u64)>, cutoff: u128) -> Seq<(u128, u64)> {
    w.skip(stale_prefix(w, cutoff) as int)
}

/// The bytes recorded in `w`.
pub open spec fn window_bytes(w: Seq<(u128, u64)>) -> nat
    decreases w.len(),
{
    if w.len() == 0 {
        0
    } else {
        window_bytes(w.drop_last()) + w.last().1 as nat
    }
}

/// The time the records of `w` span: from the first to the last, zero
/// where the last is not later.
pub open spec fn window_span(w: Seq<(u128, u64)>) -> u128 {
    if w.len() > 0 && w.last().0 >= w[0].0 {
        (w.last().0 - w[0].0) as u128
    } else {
        0
    }
}

/// Law: for records kept in time order, the span is the largest gap
/// between any two of them, and it is reached by the first and the last;
/// it is zero only where every record was made at the same time.
pub proof fn lemma_span_is_widest_gap(w: Seq<(u128, u64)>)
    requires
        forall|i: int, j: int| 0 <= i <= j < w.len() ==> (#[trigger] w[i]).0 <= (#[trigger] w[j]).0,
    ensures
        forall|i: int, j: int|
            0 <= i <= j < w.len() ==> (#[trigger] w[j]).0 - (#[trigger] w[i]).0 <= window_span(w),
        w.len() > 0 ==> w[w.len() - 1].0 - w[0].0 == window_span(w),
        window_span(w) == 0 <==> forall|i: int, j: int|
            0 <= i < w.len() && 0 <= j < w.len() ==> (#[trigger] w[i]).0 == (#[trigger] w[j]).0,
{
    if w.len() > 0 {
        assert(w.last() == w[w.len() - 1]);
        assert forall|i: int, j: int|
            0 <= i <= j < w.len() implies (#[trigger] w[j]).0 - (#[trigger] w[i]).0 <= window_span(w) by {
            assert(w[0].0 <= w[i].0);
            assert(w[j].0 <= w[w.len() - 1].0);
        }
        if window_span(w) == 0 {
            assert forall|i: int, j: int|
                0 <= i < w.len() && 0 <= j < w.len() implies (#[trigger] w[i]).0 == (#[trigger] w[j]).0 by {
                assert(w[0].0 <= w[i].0 && w[i].0 <= w[w.len() - 1].0);
                assert(w[0].0 <= w[j].0 && w[j].0 <= w[w.len() - 1].0);
            }
        }
        if forall|i: int, j: int|
            0 <= i < w.len() && 0 <= j < w.len() ==> (#[trigger] w[i]).0 == (#[trigger] w[j]).0 {
            assert(w[0].0 == w[w.len() - 1].0);
        }
    }
}

/// The cutoff for a record made at `now` with window `window`.
pub open spec fn cutoff_for(now: u128, window: u128) -> u128 {
    if now >= window {
        (now - window) as u128
    } else {
        0
    }
}

proof fn lemma_stale_prefix_bound(w: Seq<(u128, u64)>, cutoff: u128)
    ensures
        stale_prefix(w, cutoff) <= w.len(),
    decreases w.len(),
{
    if w.len() > 0 && w[0].0 < cutoff {
        lemma_stale_prefix_bound(w.drop_first(), cutoff);
    }
}

proof fn lemma_stale_prefix_step(w: Seq<(u128, u64)>, cutoff: u128, k: int)
    requires
        0 <= k <= w.len(),
        forall|j: int| 0 <= j < k ==> (#[trigger] w[j]).0 < cutoff,
    ensures
        stale_prefix(w, cutoff) == k + stale_prefix(w.skip(k), cutoff),
    decreases k,
{
    if k > 0 {
        assert(w.drop_first().skip(k - 1) =~= w.skip(k));
        assert forall|j: int| 0 <= j < k - 1 implies (#[trigger] w.drop_first()[j]).0 < cutoff by {
            assert(w.drop_first()[j] == w[j + 1]);
        }
        lemma_stale_prefix_step(w.drop_first(), cutoff, k - 1);
    } else {
        assert(w.skip(0) =~= w);
    }
}

proof fn lemma_stale_prefix_facts(w: Seq<(u128, u64)>, cutoff: u128)
    ensures
        stale_prefix(w, cutoff) <= w.len(),
        forall|j: int| 0 <= j < stale_prefix(w, cutoff) ==> (#[trigger] w[j]).0 < cutoff,
        stale_prefix(w, cutoff) < w.len() ==> w[stale_prefix(w, cutoff) as int].0 >= cutoff,
    decreases w.len(),
{
    if w.len() > 0 && w[0].0 < cutoff {
        let rest = w.drop_first();
        lemma_stale_prefix_facts(rest, cutoff);
        assert forall|j: int| 0 <= j < stale_prefix(w, cutoff) implies (#[trigger] w[j]).0 < cutoff by {
            if j > 0 {
                assert(w[j] == rest[j - 1]);
            }
        }
        if stale_prefix(w, cutoff) < w.len() {
            assert(w[stale_prefix(w, cutoff) as int] == rest[stale_prefix(rest, cutoff) as int]);
        }
    }
}

/// Law: recording at `now` into records kept in time order, none later
/// than `now`, keeps them in time order; the new record is the last one
/// kept; every record kept lies within the window ending at `now`, and
/// every record dropped lies before it. So a flow's span after such a
/// record is the time from its oldest record still in the window to `now`.
pub proof fn lemma_record_keeps_window(w: Seq<(u128, u64)>, now: u128, bytes: u64, window: u128)
    requires
        forall|i: int, j: int| 0 <= i <= j < w.len() ==> (#[trigger] w[i]).0 <= (#[trigger] w[j]).0,
        forall|i: int| 0 <= i < w.len() ==> (#[trigger] w[i]).0 <= now,
    ensures
        ({
            let kept = pruned(w.push((now, bytes)), cutoff_for(now, window));
            &&& kept.len() > 0
            &&& kept.last() == (now, bytes)
            &&& forall|i: int, j: int| 0 <= i <= j < kept.len() ==> (#[trigger] kept[i]).0 <= (#[trigger] kept[j]).0
            &&& forall|i: int| 0 <= i < kept.len() ==> (#[trigger] kept[i]).0 + window >= now
            &&& forall|i: int|
                0 <= i < w.len() && w[i].0 + window >= now ==> kept.contains(#[trigger] w[i])
            &&& window_span(kept) == now - kept[0].0
        }),
{
    let v = w.push((now, bytes));
    let c = cutoff_for(now, window);
    lemma_stale_prefix_facts(v, c);
    let sp = stale_prefix(v, c) as int;
    let kept = pruned(v, c);
    assert(v[v.len() - 1] == (now, bytes));
    assert(sp < v.len());
    assert forall|i: int, j: int| 0 <= i <= j < v.len() implies (#[trigger] v[i]).0 <= (#[trigger] v[j]).0 by {
        if j < w.len() {
            assert(v[i] == w[i] && v[j] == w[j]);
        } else {
            if i < w.len() {
                assert(v[i] == w[i]);
            }
        }
    }
    assert forall|i: int| 0 <= i < kept.len() implies #[trigger] kept[i] == v[sp + i] by {}
    assert(kept.last() == v[v.len() - 1]);
    assert forall|i: int| 0 <= i < kept.len() implies (#[trigger] kept[i]).0 + window >= now by {
        assert(v[sp].0 <= v[sp + i].0);
    }
    assert forall|i: int| 0 <= i < w.len() && w[i].0 + window >= now implies kept.contains(#[trigger] w[i]) by {
        assert(v[i] == w[i]);
        if i < sp {
            assert(v[i].0 < c);
        }
        assert(kept[i - sp] == w[i]);
    }
    assert(kept[0] == v[sp]);
}

/// `window` without its first records made before `cutoff`.
fn prune_copy(window: &Vec<(u128, u64)>, cutoff: u128) -> (r: Vec<(u128, u64)>)
    ensures
        r@ == pruned(window@, cutoff),
{
    let mut k: usize = 0;
    while k < window.len() && window[k].0 < cutoff
        invariant
            k <= window@.len(),
            forall|j: int| 0 <= j < k ==> (#[trigger] window@[j]).0 < cutoff,
        decreases window@.len() - k,
    {
        k += 1;
    }
    proof {
        lemma_stale_prefix_step(window@, cutoff, k as int);
        if k < window@.len() {
            assert(window@.skip(k as int)[0] == window@[k as int]);
        }
        assert(stale_prefix(window@.skip(k as int), cutoff) == 0);
    }
    let mut r: Vec<(u128, u64)> = Vec::new();
    let mut i: usize = k;
    while i < window.len()
        invariant
            k <= i <= window@.len(),
            r@ == window@.subrange(k as int, i as int),
        decreases window@.len() - i,
    {
        r.push(window[i]);
        i += 1;
        assert(r@ =~= window@.subrange(k as int, i as int));
    }
    assert(window@.subrange(k as int, i as int) =~= window@.skip(k as int));
    r
}

/// Drop the first records of `window` made before `cutoff`.
pub fn prune_window(window: &mut Vec<(u128, u64)>, cutoff: u128)
    ensures
        final(window)@ == pruned(old(window)@, cutoff),
{
    let kept = prune_copy(window, cutoff);
    *window = kept;
}

/// The bytes and the time span of a window's records: the sum of their
/// bytes, and the time from the first record to the last (zero where
/// the last is not later).
pub fn window_stats(window: &Vec<(u128, u64)>) -> (r: (u128, u128))
    ensures
        r.0 == window_bytes(window@),
        r.1 == window_span(window@),
{
    let mut sum: u128 = 0;
    let mut i: usize = 0;
    let n = window.len();
    assert(n <= usize::MAX);
    assert(window@.len() < 0x1_0000_0000_0000_0000);
    while i < window.len()
        invariant
            i <= window@.len(),
            window@.len() < 0x1_0000_0000_0000_0000,
            sum == window_bytes(window@.take(i as int)),
            sum <= i * 0xffff_ffff_ffff_ffff,
        decreases window@.len() - i,
    {
        proof {
            assert(window@.take(i + 1).drop_last() =~= window@.take(i as int));
            assert((i + 1) * 0xffff_ffff_ffff_ffff <= 0x1_0000_0000_0000_0000 * 0xffff_ffff_ffff_ffff) by (nonlinear_arith)
                requires
                    i + 1 <= 0x1_0000_0000_0000_0000,
            ;
        }
        sum = sum + window[i].1 as u128;
        i += 1;
        assert(sum <= i * 0xffff_ffff_ffff_ffff) by (nonlinear_arith)
            requires
                sum <= (i - 1) * 0xffff_ffff_ffff_ffff + 0xffff_ffff_ffff_ffff,
        ;
    }
    assert(window@.take(i as int) =~= window@);
    if window.len() == 0 {
        return (sum, 0);
    }
    let first = window[0].0;
    let last = window[window.len() - 1].0;
    let span: u128 = if last >= first {
        last - first
    } else {
        0
    };
    (sum, span)
}

/// The window of `flow` among `flows`, where it has one.
pub open spec fn flow_window(flows: Seq<(FlowId, Vec<(u128, u64)>)>, flow: u128) -> Option<Seq<(u128, u64)>>
    decreases flows.len(),
{
    if flows.len() == 0 {
        None
    } else if flows[0].0@ == flow {
        Some(flows[0].1@)
    } else {
        flow_window(flows.drop_first(), flow)
    }
}

/// Tracks bytes over a sliding window, in total and per flow.
#[derive(Debug, Clone)]
pub struct ThroughputTracker {
    window: u128,
    total: Vec<(u128, u64)>,
    flows: Vec<(FlowId, Vec<(u128, u64)>)>,
}

impl ThroughputTracker {
    /// The window's length in nanoseconds.
    pub closed spec fn window_view(&self) -> u128 {
        self.window
    }

    /// The records of every flow, oldest first.
    pub closed spec fn total_view(&self) -> Seq<(u128, u64)> {
        self.total@
    }

    /// The records of `flow`, oldest first, where it has any window.
    pub closed spec fn flow_view(&self, flow: u128) -> Option<Seq<(u128, u64)>> {
        flow_window(self.flows@, flow)
    }

    /// An empty tracker with the default window.
    pub fn new() -> (t: Self)
        ensures
            t.window_view() == DEFAULT_WINDOW,
            t.total_view().len() == 0,
            forall|f: u128| #[trigger] t.flow_view(f) is None,
    {
        ThroughputTracker { window: DEFAULT_WINDOW, total: Vec::new(), flows: Vec::new() }
    }

    /// The same tracker with a window of `window` nanoseconds.
    pub fn with_window(self, window: u128) -> (t: Self)
        ensures
            t.window_view() == window,
            t.total_view() == self.total_view(),
            forall|f: u128| #[trigger] t.flow_view(f) == self.flow_view(f),
    {
        ThroughputTracker { window, total: self.total, flows: self.flows }
    }

    /// Record `bytes` for `flow_id` at time `now`, then drop every
    /// record, in total and of every flow, made before the window that
    /// ends at `now`.
    pub fn record(&mut self, flow_id: FlowId, bytes: u64, now: u128)
        ensures
            final(self).window_view() == old(self).window_view(),
            final(self).total_view() == pruned(
                old(self).total_view().push((now, bytes)),
                cutoff_for(now, old(self).window_view()),
            ),
            final(self).flow_view(flow_id@) == Some(
                pruned(
                    match old(self).flow_view(flow_id@) {
                        Some(w) => w,
                        None => Seq::empty(),
                    }.push((now, bytes)),
                    cutoff_for(now, old(self).window_view()),
                ),
            ),
            forall|f: u128|
                f != flow_id@ ==> #[trigger] final(self).flow_view(f) == match old(self).flow_view(f) {
                    Some(w) => Some(pruned(w, cutoff_for(now, old(self).window_view()))),
                    None => None,
                },
    {
        let cutoff: u128 = if now >= self.window {
            now - self.window
        } else {
            0
        };
        self.total.push((now, bytes));
        prune_window(&mut self.total, cutoff);
        let ghost flows0 = self.flows@;
        let mut found = false;
        let mut next: Vec<(FlowId, Vec<(u128, u64)>)> = Vec::new();
        let mut i: usize = 0;
        while i < self.flows.len()
            invariant
                flows0 == self.flows@,
                i <= flows0.len(),
                next@.len() == i,
                forall|j: int| 0 <= j < i ==> (#[trigger] next@[j]).0 == flows0[j].0,
                forall|j: int|
                    0 <= j < i ==> (#[trigger] next@[j]).1@ == pruned(
                        if flows0[j].0@ == flow_id@ && !exists|t: int| 0 <= t < j && flows0[t].0@ == flow_id@ {
                            flows0[j].1@.push((now, bytes))
                        } else {
                            flows0[j].1@
                        },
                        cutoff,
                    ),
                found <==> exists|t: int| 0 <= t < i && flows0[t].0@ == flow_id@,
            decreases flows0.len() - i,
        {
            let id = self.flows[i].0;
            let first_match = !found && id.same_as(&flow_id);
            let mut w = prune_copy(&self.flows[i].1, 0);
            proof {
                assert(stale_prefix(self.flows@[i as int].1@, 0) == 0);
                assert(w@ =~= self.flows@[i as int].1@);
            }
            if first_match {
                w.push((now, bytes));
                found = true;
            }
            prune_window(&mut w, cutoff);
            next.push((id, w));
            i += 1;
        }
        if !found {
            let mut w: Vec<(u128, u64)> = Vec::new();
            w.push((now, bytes));
            prune_window(&mut w, cutoff);
            next.push((flow_id, w));
        }
        self.flows = next;
        proof {
            lemma_flow_window_rebuilt(flows0, self.flows@, flow_id@, now, bytes, cutoff);
        }
    }

    /// The window's length in nanoseconds.
    pub fn window(&self) -> (w: u128)
        ensures
            w == self.window_view(),
    {
        self.window
    }

    /// The bytes and time span of all records in the window.
    pub fn total_stats(&self) -> (r: (u128, u128))
        ensures
            r.0 == window_bytes(self.total_view()),
            r.1 == window_span(self.total_view()),
    {
        window_stats(&self.total)
    }

    /// The bytes and time span of the window of `flow_id`, where it has
    /// one.
    pub fn flow_stats(&self, flow_id: FlowId) -> (r: Option<(u128, u128)>)
        ensures
            r is None <==> self.flow_view(flow_id@) is None,
            r matches Some(p) ==> p.0 == window_bytes(self.flow_view(flow_id@)->0) && p.1 == window_span(
                self.flow_view(flow_id@)->0,
            ),
    {
        let mut i: usize = 0;
        assert(self.flows@.skip(0) =~= self.flows@);
        while i < self.flows.len()
            invariant
                i <= self.flows@.len(),
                flow_window(self.flows@, flow_id@) == flow_window(self.flows@.skip(i as int), flow_id@),
            decreases self.flows@.len() - i,
        {
            proof {
                assert(self.flows@.skip(i as int)[0] == self.flows@[i as int]);
                assert(self.flows@.skip(i as int).drop_first() =~= self.flows@.skip(i + 1));
            }
            if self.flows[i].0.same_as(&flow_id) {
                return Some(window_stats(&self.flows[i].1));
            }
            i += 1;
        }
        proof {
            assert(self.flows@.skip(i as int).len() == 0);
        }
        None
    }
}

proof fn lemma_flow_window_rebuilt(
    flows0: Seq<(FlowId, Vec<(u128, u64)>)>,
    flows1: Seq<(FlowId, Vec<(u128, u64)>)>,
    flow: u128,
    now: u128,
    bytes: u64,
    cutoff: u128,
)
    requires
        flows1.len() >= flows0.len(),
        forall|j: int| 0 <= j < flows0.len() ==> (#[trigger] flows1[j]).0 == flows0[j].0,
        forall|j: int|
            0 <= j < flows0.len() ==> (#[trigger] flows1[j]).1@ == pruned(
                if flows0[j].0@ == flow && !exists|t: int| 0 <= t < j && flows0[t].0@ == flow {
                    flows0[j].1@.push((now, bytes))
                } else {
                    flows0[j].1@
                },
                cutoff,
            ),
        (exists|t: int| 0 <= t < flows0.len() && flows0[t].0@ == flow) ==> flows1.len() == flows0.len(),
        !(exists|t: int| 0 <= t < flows0.len() && flows0[t].0@ == flow) ==> flows1.len() == flows0.len() + 1
            && flows1[flows0.len() as int].0@ == flow && flows1[flows0.len() as int].1@ == pruned(
            Seq::<(u128, u64)>::empty().push((now, bytes)),
            cutoff,
        ),
    ensures
        flow_window(flows1, flow) == Some(
            pruned(
                match flow_window(flows0, flow) {
                    Some(w) => w,
                    None => Seq::empty(),
                }.push((now, bytes)),
                cutoff,
            ),
        ),
        forall|f: u128|
            f != flow ==> #[trigger] flow_window(flows1, f) == match flow_window(flows0, f) {
                Some(w) => Some(pruned(w, cutoff)),
                None => None,
            },
    decreases flows0.len(),
{
    if flows0.len() == 0 {
        assert(flows1.len() == 1);
        assert(flows1.drop_first().len() == 0);
        assert forall|f: u128| f != flow implies #[trigger] flow_window(flows1, f) == match flow_window(flows0, f) {
            Some(w) => Some(pruned(w, cutoff)),
            None => None,
        } by {
            assert(flow_window(flows1.drop_first(), f) is None);
        }
    } else {
        let head_match = flows0[0].0@ == flow;
        if head_match {
            assert(flows1[0].1@ == pruned(flows0[0].1@.push((now, bytes)), cutoff));
            assert forall|f: u128| f != flow implies #[trigger] flow_window(flows1, f) == match flow_window(flows0, f) {
                Some(w) => Some(pruned(w, cutoff)),
                None => None,
            } by {
                let rest0 = flows0.drop_first();
                let rest1 = flows1.drop_first();
                assert(exists|t: int| 0 <= t < flows0.len() && flows0[t].0@ == flow) by {
                    assert(flows0[0].0@ == flow);
                }
                assert forall|j: int| 0 <= j < rest0.len() implies (#[trigger] rest1[j]).0 == rest0[j].0 by {
                    assert(rest1[j] == flows1[j + 1]);
                }
                assert forall|j: int| 0 <= j < rest0.len() && (#[trigger] rest0[j]).0@ == f implies rest1[j].1@ == pruned(rest0[j].1@, cutoff) by {
                    assert(rest1[j] == flows1[j + 1]);
                    assert(rest0[j] == flows0[j + 1]);
                }
                lemma_flow_window_same(rest0, rest1, f, cutoff);
            }
        } else {
            let rest0 = flows0.drop_first();
            let rest1 = flows1.drop_first();
            assert forall|j: int| 0 <= j < rest0.len() implies (#[trigger] rest1[j]).0 == rest0[j].0 by {
                assert(rest1[j] == flows1[j + 1]);
            }
            assert forall|j: int|
                0 <= j < rest0.len() implies (#[trigger] rest1[j]).1@ == pruned(
                    if rest0[j].0@ == flow && !exists|t: int| 0 <= t < j && rest0[t].0@ == flow {
                        rest0[j].1@.push((now, bytes))
                    } else {
                        rest0[j].1@
                    },
                    cutoff,
                ) by {
                assert(rest1[j] == flows1[j + 1]);
                assert(rest0[j] == flows0[j + 1]);
                if exists|t: int| 0 <= t < j + 1 && flows0[t].0@ == flow {
                    let t = choose|t: int| 0 <= t < j + 1 && flows0[t].0@ == flow;
                    assert(t != 0);
                    assert(rest0[t - 1] == flows0[t]);
                }
                if exists|t: int| 0 <= t < j && rest0[t].0@ == flow {
                    let t = choose|t: int| 0 <= t < j && rest0[t].0@ == flow;
                    assert(rest0[t] == flows0[t + 1]);
                }
            }
            if exists|t: int| 0 <= t < rest0.len() && rest0[t].0@ == flow {
                let t = choose|t: int| 0 <= t < rest0.len() && rest0[t].0@ == flow;
                assert(flows0[t + 1] == rest0[t]);
            }
            if exists|t: int| 0 <= t < flows0.len() && flows0[t].0@ == flow {
                let t = choose|t: int| 0 <= t < flows0.len() && flows0[t].0@ == flow;
                assert(t != 0);
                assert(rest0[t - 1] == flows0[t]);
            } else {
                assert(rest1[rest0.len() as int] == flows1[flows0.len() as int]);
            }
            lemma_flow_window_rebuilt(rest0, rest1, flow, now, bytes, cutoff);
            assert(flows1[0].1@ == pruned(flows0[0].1@, cutoff));
            assert forall|f: u128| f != flow implies #[trigger] flow_window(flows1, f) == match flow_window(flows0, f) {
                Some(w) => Some(pruned(w, cutoff)),
                None => None,
            } by {
                if flows0[0].0@ != f {
                    assert(flow_window(rest1, f) == match flow_window(rest0, f) {
                        Some(w) => Some(pruned(w, cutoff)),
                        None => None,
                    });
                }
            }
        }
    }
}

proof fn lemma_flow_window_same(
    flows0: Seq<(FlowId, Vec<(u128, u64)>)>,
    flows1: Seq<(FlowId, Vec<(u128, u64)>)>,
    f: u128,
    cutoff: u128,
)
    requires
        flows1.len() == flows0.len(),
        forall|j: int| 0 <= j < flows0.len() ==> (#[trigger] flows1[j]).0 == flows0[j].0,
        forall|j: int| 0 <= j < flows0.len() && (#[trigger] flows0[j]).0@ == f ==> flows1[j].1@ == pruned(flows0[j].1@, cutoff),
    ensures
        flow_window(flows1, f) == match flow_window(flows0, f) {
            Some(w) => Some(pruned(w, cutoff)),
            None => None,
        },
    decreases flows0.len(),
{
    if flows0.len() > 0 && flows0[0].0@ != f {
        let rest0 = flows0.drop_first();
        let rest1 = flows1.drop_first();
        assert forall|j: int| 0 <= j < rest0.len() implies (#[trigger] rest1[j]).0 == rest0[j].0 by {
            assert(rest1[j] == flows1[j + 1]);
        }
        assert forall|j: int| 0 <= j < rest0.len() && (#[trigger] rest0[j]).0@ == f implies rest1[j].1@ == pruned(rest0[j].1@, cutoff) by {
            assert(rest1[j] == flows1[j + 1]);
            assert(rest0[j] == flows0[j + 1]);
        }
        lemma_flow_window_same(rest0, rest1, f, cutoff);
    }
}

} // verus!
