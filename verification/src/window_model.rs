//! The model of the sliding window: what it shows at a second, and what holds of that.

use vstd::arithmetic::power::pow;
use vstd::multiset::Multiset;
use vstd::prelude::*;

use crate::durations::{
    at_rank, count_up_to, law_rank_is_unique, lemma_more_admitted, percentile_rank,
    percentile_value, stands_for, stands_for_rank, MOST_RANKED,
};

verus! {

/// The shortest duration that a histogram tells from 0, in milliseconds.
pub const SHORTEST_MS: u64 = 1;

/// The longest duration that a histogram tracks, in milliseconds.
pub const LONGEST_MS: u64 = 1_000_000;

/// How many significant digits of a duration are kept.
pub const DIGITS: u8 = 3;

/// The percentile of the durations that a snapshot reports.
pub const PERCENTILE: u8 = 95;

/// The bounds of every histogram in the window.
pub open spec fn window_bounds() -> (u64, u64, u8) {
    (SHORTEST_MS, LONGEST_MS, DIGITS)
}

/// A summary of the window.
#[derive(Debug)]
pub struct Snapshot<N> {
    /// The requests of the whole window.
    pub total: N,
    /// The number of seconds over which `total` is averaged.
    pub window_seconds: u64,
    /// The 95th percentile of the durations, in milliseconds, or 0 without any.
    pub p95_ms: u64,
    /// The number of workers that was reported last.
    pub workers_gauge: Option<i32>,
    /// The requests of the last seconds.
    pub short_total: N,
    /// The number of seconds over which `short_total` is averaged.
    pub short_seconds: u64,
}

/// The content of a bucket: its second, its request count, the durations recorded in it.
pub struct BucketView<N> {
    pub sec: u64,
    pub req_count: N,
    pub durations: Multiset<u64>,
}

/// A bucket in which nothing was counted yet.
pub open spec fn fresh<N>(sec: int, zero: N) -> BucketView<N> {
    BucketView { sec: sec as u64, req_count: zero, durations: Multiset::empty() }
}

/// Whether buckets stand for seconds that follow one another without a gap.
pub open spec fn consecutive<N>(buckets: Seq<BucketView<N>>) -> bool {
    forall|i: int|
        #![trigger buckets[i]]
        0 <= i < buckets.len() ==> buckets[i].sec == buckets[0].sec + i
}

/// The oldest second that a window of `span` seconds still shows at second `now`.
pub open spec fn oldest_shown(now: u64, span: u64) -> int {
    let back = if span == 0 {
        0
    } else {
        span - 1
    };
    if now < back {
        0
    } else {
        now - back
    }
}

/// The buckets, and a fresh one for each second after the last up to `now`.
pub open spec fn extended<N>(buckets: Seq<BucketView<N>>, now: u64, zero: N) -> Seq<BucketView<N>> {
    if buckets.len() == 0 {
        seq![fresh(now as int, zero)]
    } else {
        let last = buckets.last().sec;
        let missing = if now > last {
            (now - last) as nat
        } else {
            0
        };
        buckets + Seq::new(missing, |i: int| fresh(last + 1 + i, zero))
    }
}

/// The buckets without those at the front that stand for a second before `oldest`.
pub open spec fn pruned<N>(buckets: Seq<BucketView<N>>, oldest: int) -> Seq<BucketView<N>>
    decreases buckets.len(),
{
    if buckets.len() > 0 && buckets[0].sec < oldest {
        pruned(buckets.drop_first(), oldest)
    } else {
        buckets
    }
}

/// The buckets of a window of `span` seconds, brought up to second `now`.
pub open spec fn advanced<N>(
    buckets: Seq<BucketView<N>>,
    now: u64,
    span: u64,
    zero: N,
) -> Seq<BucketView<N>> {
    if buckets.len() > 0 && buckets.last().sec == now {
        buckets
    } else {
        pruned(extended(buckets, now, zero), oldest_shown(now, span))
    }
}

/// Whether `sums` holds what comes out, one after another, when `counts` are added to `start`.
pub open spec fn partial_sums<N, A: Fn(N, N) -> N>(
    plus: A,
    start: N,
    counts: Seq<N>,
    sums: Seq<N>,
) -> bool {
    &&& sums.len() == counts.len() + 1
    &&& sums[0] == start
    &&& forall|i: int|
        0 <= i < counts.len() ==> call_ensures(plus, (sums[i], #[trigger] counts[i]), sums[i + 1])
}

/// Whether `total` comes out when `counts` are added to `start`, one after another.
pub open spec fn adds_up<N, A: Fn(N, N) -> N>(
    plus: A,
    start: N,
    counts: Seq<N>,
    total: N,
) -> bool {
    exists|sums: Seq<N>| #[trigger]
        partial_sums(plus, start, counts, sums) && sums.last() == total
}

/// The request counts of the buckets, the oldest first.
pub open spec fn request_counts<N>(buckets: Seq<BucketView<N>>) -> Seq<N> {
    buckets.map_values(|b: BucketView<N>| b.req_count)
}

/// The request counts from second `oldest` on, the newest first.
pub open spec fn recent_counts<N>(buckets: Seq<BucketView<N>>, oldest: int) -> Seq<N>
    decreases buckets.len(),
{
    if buckets.len() == 0 || buckets.last().sec < oldest {
        Seq::empty()
    } else {
        seq![buckets.last().req_count] + recent_counts(buckets.drop_last(), oldest)
    }
}

/// All durations in the buckets.
pub open spec fn all_durations<N>(buckets: Seq<BucketView<N>>) -> Multiset<u64>
    decreases buckets.len(),
{
    if buckets.len() == 0 {
        Multiset::empty()
    } else {
        all_durations(buckets.drop_last()).add(buckets.last().durations)
    }
}

/// The 95th percentile of the durations in the buckets, or 0 where there are none.
pub open spec fn p95<N>(buckets: Seq<BucketView<N>>) -> u64 {
    if all_durations(buckets).len() == 0 {
        0
    } else {
        percentile_value(all_durations(buckets), window_bounds(), PERCENTILE)
    }
}

/// Whether `p95_ms` is the 95th percentile of the durations: 0 where there are none; otherwise, as
/// far as there are no more than `MOST_RANKED`, at least 95 of 100 are at most `p95_ms`, which
/// stands for the duration with the rank that belongs to it: it exceeds that duration by a
/// thousandth at most, and equals it below 2048.
pub open spec fn is_p95(durations: Multiset<u64>, p95_ms: u64) -> bool {
    &&& durations.len() == 0 ==> p95_ms == 0
    &&& 0 < durations.len() <= MOST_RANKED ==> {
        &&& 100 * count_up_to(durations, p95_ms) >= 95 * durations.len()
        &&& exists|ms: u64| #[trigger]
            at_rank(durations, percentile_rank(95, durations.len()), ms) && ms <= p95_ms && (p95_ms
                - ms) * 1000 <= ms && (ms < 2048 ==> p95_ms == ms)
    }
}

/// What the histograms promise of the percentile, in plain numbers.
pub(crate) proof fn lemma_is_p95(durations: Multiset<u64>, p95_ms: u64)
    requires
        durations.len() == 0 ==> p95_ms == 0,
        0 < durations.len() <= MOST_RANKED ==> stands_for_rank(
            p95_ms,
            durations,
            percentile_rank(95, durations.len()),
            DIGITS as nat,
        ),
    ensures
        is_p95(durations, p95_ms),
{
    if 0 < durations.len() <= MOST_RANKED {
        assert(pow(10, 3) == 1000) by {
            reveal_with_fuel(pow, 4);
        }
        let rank = percentile_rank(95, durations.len());
        let ms = choose|v: u64| #[trigger]
            at_rank(durations, rank, v) && stands_for(p95_ms, v, DIGITS as nat);
        lemma_more_admitted(durations, |v: u64| v <= ms, |v: u64| v <= p95_ms);
    }
}

/// A duration as it is recorded.
pub open spec fn clamped(ms: u64) -> u64 {
    if ms < SHORTEST_MS {
        SHORTEST_MS
    } else if ms > LONGEST_MS {
        LONGEST_MS
    } else {
        ms
    }
}

/// At least one second.
pub open spec fn at_least_one(seconds: u64) -> u64 {
    if seconds == 0 {
        1
    } else {
        seconds
    }
}

/// Whether the second after the last bucket, and the second after `now`, can be written down,
/// as far as buckets are to be added.
pub open spec fn can_advance<N>(buckets: Seq<BucketView<N>>, now: u64) -> bool {
    buckets.len() > 0 && buckets.last().sec != now ==> buckets.last().sec < u64::MAX && now
        < u64::MAX
}

/// The content of the window.
pub struct StateView<N> {
    /// How many seconds the window spans.
    pub window_seconds: u64,
    /// The request count of a second without requests.
    pub zero: N,
    /// One bucket for each second, the oldest first.
    pub buckets: Seq<BucketView<N>>,
    /// The number of workers that was reported last.
    pub workers_gauge: Option<i32>,
}

impl<N> StateView<N> {
    /// The window brought up to second `now`.
    pub open spec fn at(self, now: u64) -> StateView<N> {
        StateView {
            buckets: advanced(self.buckets, now, self.window_seconds, self.zero),
            ..self
        }
    }

    /// The window with other content in its newest bucket.
    pub open spec fn with_newest(self, bucket: BucketView<N>) -> StateView<N> {
        StateView { buckets: self.buckets.update(self.buckets.len() - 1, bucket), ..self }
    }

    /// The window after a duration of `ms` milliseconds was recorded at second `now`.
    pub open spec fn with_duration(self, now: u64, ms: u64) -> StateView<N> {
        self.at(now).with_newest(
            BucketView {
                durations: self.at(now).newest().durations.insert(clamped(ms)),
                ..self.at(now).newest()
            },
        )
    }

    /// The window after the request count of second `now` became `req_count`.
    pub open spec fn with_requests(self, now: u64, req_count: N) -> StateView<N> {
        self.at(now).with_newest(BucketView { req_count, ..self.at(now).newest() })
    }

    /// The newest bucket.
    pub open spec fn newest(self) -> BucketView<N> {
        self.buckets.last()
    }

    /// Whether a snapshot sums up this window, with the last `short_window_s` seconds before
    /// second `now` as the short window.
    pub open spec fn summed_up<A: Fn(N, N) -> N>(
        self,
        snap: Snapshot<N>,
        now: u64,
        short_window_s: u64,
        plus: A,
    ) -> bool {
        &&& adds_up(plus, self.zero, request_counts(self.buckets), snap.total)
        &&& snap.window_seconds == at_least_one(self.window_seconds)
        &&& snap.p95_ms == p95(self.buckets)
        &&& snap.workers_gauge == self.workers_gauge
        &&& adds_up(
            plus,
            self.zero,
            recent_counts(self.buckets, oldest_shown(now, at_least_one(short_window_s))),
            snap.short_total,
        )
        &&& snap.short_seconds == at_least_one(short_window_s)
    }

    /// Whether the buckets follow one another and span no more than the window.
    pub open spec fn wf(self) -> bool {
        &&& consecutive(self.buckets)
        &&& self.buckets.len() <= self.window_seconds || self.buckets.len() <= 1
    }
}

/// Adding one more count to a total.
pub(crate) proof fn lemma_adds_up_more<N, A: Fn(N, N) -> N>(
    plus: A,
    start: N,
    counts: Seq<N>,
    before: N,
    count: N,
    total: N,
)
    requires
        adds_up(plus, start, counts, before),
        call_ensures(plus, (before, count), total),
    ensures
        adds_up(plus, start, counts.push(count), total),
{
    let sums = choose|sums: Seq<N>| #[trigger]
        partial_sums(plus, start, counts, sums) && sums.last() == before;
    assert(partial_sums(plus, start, counts.push(count), sums.push(total)));
}

/// Of consecutive buckets, pruning drops exactly those before `oldest`.
proof fn lemma_pruned<N>(buckets: Seq<BucketView<N>>, oldest: int)
    requires
        consecutive(buckets),
    ensures
        buckets.len() == 0 ==> pruned(buckets, oldest) == buckets,
        buckets.len() > 0 && oldest <= buckets[0].sec ==> pruned(buckets, oldest) == buckets,
        buckets.len() > 0 && buckets[0].sec <= oldest <= buckets[0].sec + buckets.len() ==> pruned(
            buckets,
            oldest,
        ) == buckets.skip(oldest - buckets[0].sec),
        buckets.len() > 0 && oldest >= buckets[0].sec + buckets.len() ==> pruned(
            buckets,
            oldest,
        ).len() == 0,
    decreases buckets.len(),
{
    if buckets.len() > 0 && buckets[0].sec < oldest {
        let rest = buckets.drop_first();
        assert forall|i: int| #![trigger rest[i]] 0 <= i < rest.len() implies rest[i].sec
            == rest[0].sec + i by {
            assert(rest[i] == buckets[i + 1]);
            assert(rest[0] == buckets[1]);
        }
        lemma_pruned(rest, oldest);
        if rest.len() > 0 {
            assert(rest[0] == buckets[1]);
            if oldest <= buckets[0].sec + buckets.len() {
                assert(rest.skip(oldest - rest[0].sec) =~= buckets.skip(oldest - buckets[0].sec));
            }
        } else {
            assert(rest =~= buckets.skip(1));
        }
    } else if buckets.len() > 0 {
        assert(buckets.skip(0) =~= buckets);
    }
}

/// Extending consecutive buckets keeps them consecutive.
proof fn lemma_extended<N>(buckets: Seq<BucketView<N>>, now: u64, zero: N)
    requires
        consecutive(buckets),
    ensures
        consecutive(extended(buckets, now, zero)),
        extended(buckets, now, zero).len() > 0,
{
    let ext = extended(buckets, now, zero);
    if buckets.len() > 0 {
        assert(ext[0] == buckets[0]);
        let last = buckets.last().sec;
        assert(last == buckets[0].sec + buckets.len() - 1);
        assert forall|i: int| #![trigger ext[i]] 0 <= i < ext.len() implies ext[i].sec == ext[0].sec
            + i by {
            if i < buckets.len() {
                assert(ext[i] == buckets[i]);
            } else {
                assert(ext[i] == fresh(last + 1 + (i - buckets.len()), zero));
            }
        }
    }
}

/// A window that is brought up to date is well-formed and shows at least one second.
pub(crate) proof fn lemma_at<N>(state: StateView<N>, now: u64)
    requires
        state.wf(),
    ensures
        state.at(now).wf(),
        state.at(now).buckets.len() > 0,
{
    let span = state.window_seconds;
    let oldest = oldest_shown(now, span);
    if !(state.buckets.len() > 0 && state.buckets.last().sec == now) {
        let ext = extended(state.buckets, now, state.zero);
        lemma_extended(state.buckets, now, state.zero);
        lemma_pruned(ext, oldest);
        assert(ext.last().sec == ext[0].sec + ext.len() - 1);
        assert(ext.last().sec >= now) by {
            if state.buckets.len() > 0 {
                if now <= state.buckets.last().sec {
                    assert(ext =~= state.buckets);
                } else {
                    assert(ext.last() == fresh(now as int, state.zero));
                }
            }
        }
        let res = pruned(ext, oldest);
        if oldest <= ext[0].sec {
            assert(res == ext);
        } else {
            assert(res == ext.skip(oldest - ext[0].sec));
            assert forall|i: int| #![trigger res[i]] 0 <= i < res.len() implies res[i].sec
                == res[0].sec + i by {
                assert(res[i] == ext[i + oldest - ext[0].sec]);
                assert(res[0] == ext[oldest - ext[0].sec]);
            }
        }
    }
}

/// The first buckets hold no more durations than all of them.
pub(crate) proof fn lemma_fewer_durations<N>(buckets: Seq<BucketView<N>>, k: int)
    requires
        0 <= k <= buckets.len(),
    ensures
        all_durations(buckets.take(k)).len() <= all_durations(buckets).len(),
    decreases buckets.len() - k,
{
    if k < buckets.len() {
        lemma_fewer_durations(buckets, k + 1);
        assert(buckets.take(k + 1).drop_last() =~= buckets.take(k));
    } else {
        assert(buckets.take(k) =~= buckets);
    }
}

/// Bringing a window up to the same second again changes nothing.
pub(crate) proof fn lemma_at_twice<N>(state: StateView<N>, now: u64)
    requires
        state.wf(),
    ensures
        state.at(now).at(now) == state.at(now),
        can_advance(state.buckets, now) ==> can_advance(state.at(now).buckets, now),
{
    law_shows_the_last_seconds(state, now);
    let once = state.at(now).buckets;
    if once.last().sec != now {
        assert(extended(once, now, state.zero) =~= once);
        lemma_pruned(once, oldest_shown(now, state.window_seconds));
    }
}

/// What is counted at a second leaves the window up to date.
proof fn lemma_counted_at<N>(state: StateView<N>, b: BucketView<N>, now: u64)
    requires
        state.wf(),
        b.sec == state.at(now).newest().sec,
    ensures
        state.at(now).buckets.len() > 0,
        state.at(now).with_newest(b).at(now) == state.at(now).with_newest(b),
        state.at(now).with_newest(b).newest() == b,
{
    law_shows_the_last_seconds(state, now);
    let there = state.at(now).buckets;
    let counted = state.at(now).with_newest(b).buckets;
    if counted.last().sec != now {
        assert(extended(counted, now, state.zero) =~= counted);
        assert(counted[0].sec == there[0].sec);
    }
}

/// What a window shows at second `now`: seconds without a gap, the last of which is `now` (or
/// the last one it has, where that lies ahead); none that is older than the window; each bucket
/// that was there and is not older, unchanged; and otherwise only fresh buckets.
#[verifier::spinoff_prover]
pub proof fn law_shows_the_last_seconds<N>(state: StateView<N>, now: u64)
    requires
        state.wf(),
    ensures
        state.at(now).wf(),
        state.at(now).buckets.len() > 0,
        state.buckets.len() == 0 || state.newest().sec <= now ==> state.at(now).newest().sec == now,
        state.buckets.len() > 0 && state.newest().sec > now ==> state.at(now).newest()
            == state.newest(),
        forall|i: int|
            0 <= i < state.at(now).buckets.len() ==> (#[trigger] state.at(now).buckets[i]).sec
                >= oldest_shown(now, state.window_seconds),
        forall|i: int|
            0 <= i < state.buckets.len() && (#[trigger] state.buckets[i]).sec >= oldest_shown(
                now,
                state.window_seconds,
            ) ==> state.at(now).buckets.contains(state.buckets[i]),
        forall|i: int|
            0 <= i < state.at(now).buckets.len() ==> state.buckets.contains(
                #[trigger] state.at(now).buckets[i],
            ) || state.at(now).buckets[i] == fresh(
                state.at(now).buckets[i].sec as int,
                state.zero,
            ),
{
    lemma_at(state, now);
    let oldest = oldest_shown(now, state.window_seconds);
    let res = state.at(now).buckets;
    if !(state.buckets.len() > 0 && state.newest().sec == now) {
        let ext = extended(state.buckets, now, state.zero);
        lemma_extended(state.buckets, now, state.zero);
        lemma_pruned(ext, oldest);
        let k = if oldest <= ext[0].sec {
            0
        } else {
            oldest - ext[0].sec
        };
        assert(ext.last().sec == ext[0].sec + ext.len() - 1);
        assert(ext.last().sec >= now) by {
            if state.buckets.len() > 0 && now > state.buckets.last().sec {
                assert(ext.last() == fresh(now as int, state.zero));
            }
        }
        assert(res =~= ext.skip(k));
        assert forall|i: int|
            0 <= i < state.buckets.len() && (#[trigger] state.buckets[i]).sec
                >= oldest implies res.contains(state.buckets[i]) by {
            assert(ext[i] == state.buckets[i]);
            assert(res[i - k] == state.buckets[i]);
        }
        assert forall|i: int| 0 <= i < res.len() implies state.buckets.contains(#[trigger] res[i])
            || res[i] == fresh(res[i].sec as int, state.zero) by {
            assert(res[i] == ext[i + k]);
            if i + k < state.buckets.len() {
                assert(ext[i + k] == state.buckets[i + k]);
            }
        }
    }
}

/// How many buckets a window drops, from its front, when it is brought up to second `now`.
spec fn dropped<N>(state: StateView<N>, now: u64) -> int {
    let oldest = oldest_shown(now, state.window_seconds);
    if oldest <= state.buckets[0].sec {
        0
    } else {
        oldest - state.buckets[0].sec
    }
}

/// What a window that is not empty becomes when it is brought up to a second ahead.
proof fn lemma_at_form<N>(state: StateView<N>, now: u64)
    requires
        state.wf(),
        state.buckets.len() > 0,
        state.newest().sec <= now,
    ensures
        extended(state.buckets, now, state.zero).len() == now - state.buckets[0].sec + 1,
        0 <= dropped(state, now) < extended(state.buckets, now, state.zero).len(),
        state.at(now).buckets == extended(state.buckets, now, state.zero).skip(dropped(state, now)),
{
    let ext = extended(state.buckets, now, state.zero);
    assert(state.newest().sec == state.buckets[0].sec + state.buckets.len() - 1);
    assert(ext[0] == state.buckets[0]);
    if state.newest().sec == now {
        lemma_span(state);
        assert(ext =~= state.buckets);
        assert(ext.skip(0) =~= ext);
    } else {
        lemma_extended(state.buckets, now, state.zero);
        lemma_pruned(ext, oldest_shown(now, state.window_seconds));
        assert(ext.skip(0) =~= ext);
    }
}

/// Extending a window in two goes.
proof fn lemma_extended_twice<N>(state: StateView<N>, sooner: u64, later: u64)
    requires
        state.wf(),
        state.buckets.len() > 0,
        state.newest().sec <= sooner <= later,
    ensures
        extended(state.at(sooner).buckets, later, state.zero) == extended(
            state.buckets,
            later,
            state.zero,
        ).skip(dropped(state, sooner)),
{
    let k = dropped(state, sooner);
    lemma_at_form(state, sooner);
    law_shows_the_last_seconds(state, sooner);
    let short = extended(state.buckets, sooner, state.zero);
    let long = extended(state.buckets, later, state.zero);
    let twice = extended(state.at(sooner).buckets, later, state.zero);
    let last = state.newest().sec;
    assert(last == state.buckets[0].sec + state.buckets.len() - 1);
    assert(twice.len() == long.len() - k);
    assert forall|i: int| 0 <= i < twice.len() implies twice[i] == long.skip(k)[i] by {
        if i + k < state.buckets.len() {
            assert(short[i + k] == state.buckets[i + k]);
            assert(long[i + k] == state.buckets[i + k]);
        } else {
            assert(long[i + k] == fresh(state.buckets[0].sec + i + k, state.zero));
            if i + k < short.len() {
                assert(short[i + k] == fresh(state.buckets[0].sec + i + k, state.zero));
            }
        }
    }
    assert(twice =~= long.skip(k));
}

/// Looking at the window in between changes nothing of what it shows later.
pub proof fn law_looking_changes_nothing<N>(state: StateView<N>, sooner: u64, later: u64)
    requires
        state.wf(),
        state.buckets.len() > 0,
        state.newest().sec <= sooner <= later,
    ensures
        state.at(sooner).at(later) == state.at(later),
{
    let mid = state.at(sooner);
    law_shows_the_last_seconds(state, sooner);
    lemma_at_form(state, sooner);
    lemma_at_form(state, later);
    lemma_at_form(mid, later);
    lemma_extended_twice(state, sooner, later);
    let long = extended(state.buckets, later, state.zero);
    let (k, m) = (dropped(state, sooner), dropped(mid, later));
    assert(extended(state.buckets, sooner, state.zero)[k].sec == state.buckets[0].sec + k) by {
        lemma_extended(state.buckets, sooner, state.zero);
    }
    assert(mid.buckets[0].sec == state.buckets[0].sec + k);
    assert(k + m == dropped(state, later));
    assert(long.skip(k).skip(m) =~= long.skip(k + m));
}

/// No bucket of a well-formed window is older than the window at its newest second.
proof fn lemma_span<N>(state: StateView<N>)
    requires
        state.wf(),
        state.buckets.len() > 0,
    ensures
        state.buckets[0].sec >= oldest_shown(state.newest().sec, state.window_seconds),
{
    assert(state.newest().sec == state.buckets[0].sec + state.buckets.len() - 1);
}

/// The order in which durations of the same second are recorded does not matter.
pub proof fn law_durations_commute<N>(state: StateView<N>, now: u64, first: u64, second: u64)
    requires
        state.wf(),
    ensures
        state.with_duration(now, first).with_duration(now, second) == state.with_duration(
            now,
            second,
        ).with_duration(now, first),
{
    let (a, b) = (state.with_duration(now, first), state.with_duration(now, second));
    lemma_at(state, now);
    lemma_counted_at(state, a.newest(), now);
    lemma_counted_at(state, b.newest(), now);
    let durations = state.at(now).newest().durations;
    assert(durations.insert(clamped(first)).insert(clamped(second)) =~= durations.insert(
        clamped(second),
    ).insert(clamped(first)));
    assert(a.with_duration(now, second).buckets =~= b.with_duration(now, first).buckets);
}

/// What was counted in the newest second, `b` in place of what was there, is shown with that
/// second for as long as the window reaches back to it, and no longer; the other seconds are
/// not affected.
pub proof fn law_kept_while_shown<N>(state: StateView<N>, b: BucketView<N>, later: u64)
    requires
        state.wf(),
        state.buckets.len() > 0,
        state.newest().sec <= later,
        b.sec == state.newest().sec,
    ensures
        oldest_shown(later, state.window_seconds) <= b.sec ==> ({
            let shown = state.at(later).buckets;
            let i = b.sec - shown[0].sec;
            &&& 0 <= i < shown.len()
            &&& shown[i] == state.newest()
            &&& state.with_newest(b).at(later).buckets == shown.update(i, b)
        }),
        oldest_shown(later, state.window_seconds) > b.sec ==> ({
            let shown = state.with_newest(b).at(later).buckets;
            &&& shown == state.at(later).buckets
            &&& forall|i: int|
                0 <= i < shown.len() ==> #[trigger] shown[i] == fresh(
                    shown[i].sec as int,
                    state.zero,
                )
        }),
{
    let rec = state.with_newest(b);
    let last = state.buckets.len() - 1;
    lemma_with_newest(state, b);
    assert(rec.buckets[0].sec == state.buckets[0].sec);
    assert(state.newest().sec == state.buckets[0].sec + last);
    lemma_at_form(state, later);
    lemma_at_form(rec, later);
    let (ext_s, ext_r) = (
        extended(state.buckets, later, state.zero),
        extended(rec.buckets, later, state.zero),
    );
    assert(ext_r =~= ext_s.update(last, b));
    lemma_extended(state.buckets, later, state.zero);
    assert(ext_s[0] == state.buckets[0]);
    let k = dropped(state, later);
    let shown = state.at(later).buckets;
    assert(shown[0] == ext_s[k]);
    assert(ext_s[k].sec == ext_s[0].sec + k);
    if oldest_shown(later, state.window_seconds) <= b.sec {
        assert(b.sec - shown[0].sec == last - k);
        assert(rec.at(later).buckets =~= shown.update(last - k, b));
    } else {
        assert(rec.at(later).buckets =~= shown);
        assert forall|i: int| 0 <= i < shown.len() implies #[trigger] shown[i] == fresh(
            shown[i].sec as int,
            state.zero,
        ) by {
            assert(shown[i] == ext_s[i + k]);
        }
    }
}

/// A duration that was recorded counts in the percentile for as long as its second is shown,
/// and no longer.
pub proof fn law_duration_counts_while_shown<N>(state: StateView<N>, now: u64, ms: u64, later: u64)
    requires
        state.wf(),
        state.buckets.len() == 0 || state.newest().sec <= now,
        now <= later,
    ensures
        oldest_shown(later, state.window_seconds) <= now ==> all_durations(
            state.with_duration(now, ms).at(later).buckets,
        ) == all_durations(state.at(now).at(later).buckets).insert(clamped(ms)),
        oldest_shown(later, state.window_seconds) > now ==> all_durations(
            state.with_duration(now, ms).at(later).buckets,
        ) == Multiset::<u64>::empty(),
{
    law_shows_the_last_seconds(state, now);
    let there = state.at(now);
    let b = BucketView {
        durations: there.newest().durations.insert(clamped(ms)),
        ..there.newest()
    };
    law_kept_while_shown(there, b, later);
    let shown = there.at(later).buckets;
    if oldest_shown(later, state.window_seconds) <= now {
        let i = now - shown[0].sec;
        lemma_one_more_duration(shown, shown.update(i, b), i, clamped(ms));
    } else {
        lemma_no_durations(shown);
    }
}

/// The short window covers the buckets from its oldest second on, read backwards.
#[verifier::spinoff_prover]
pub proof fn law_short_window<N>(buckets: Seq<BucketView<N>>, oldest: int)
    requires
        consecutive(buckets),
    ensures
        buckets.len() == 0 || oldest > buckets.last().sec ==> recent_counts(buckets, oldest)
            == Seq::<N>::empty(),
        buckets.len() > 0 && buckets[0].sec <= oldest <= buckets.last().sec ==> recent_counts(
            buckets,
            oldest,
        ) == request_counts(buckets.skip(oldest - buckets[0].sec)).reverse(),
        buckets.len() > 0 && oldest <= buckets[0].sec ==> recent_counts(buckets, oldest)
            == request_counts(buckets).reverse(),
    decreases buckets.len(),
{
    if buckets.len() > 0 && oldest <= buckets.last().sec {
        let rest = buckets.drop_last();
        assert(buckets.last().sec == buckets[0].sec + buckets.len() - 1);
        assert forall|i: int| #![trigger rest[i]] 0 <= i < rest.len() implies rest[i].sec
            == rest[0].sec + i by {
            assert(rest[i] == buckets[i] && rest[0] == buckets[0]);
        }
        law_short_window(rest, oldest);
        let recent = recent_counts(buckets, oldest);
        assert(recent == seq![buckets.last().req_count] + recent_counts(rest, oldest));
        if rest.len() > 0 {
            assert(rest[0] == buckets[0]);
            assert(rest.last().sec == buckets[0].sec + rest.len() - 1);
        }
        let k = if oldest <= buckets[0].sec {
            0
        } else {
            oldest - buckets[0].sec
        };
        let shown = buckets.skip(k);
        assert(shown.drop_last() =~= rest.skip(k));
        assert(rest.skip(0) =~= rest);
        assert(buckets.skip(0) =~= buckets);
        if rest.len() > 0 && oldest <= rest.last().sec {
            assert(recent_counts(rest, oldest) == request_counts(rest.skip(k)).reverse());
        } else {
            assert(rest.skip(k).len() == 0);
        }
        assert(recent =~= request_counts(shown).reverse()) by {
            assert forall|i: int| 0 <= i < recent.len() implies recent[i] == request_counts(
                shown,
            ).reverse()[i] by {
                if i > 0 {
                    assert(recent[i] == recent_counts(rest, oldest)[i - 1]);
                    assert(rest.skip(k)[rest.skip(k).len() - i] == shown[shown.len() - 1 - i]);
                }
            }
        }
    }
}

/// Two runs of buckets that differ in one duration of one bucket.
proof fn lemma_one_more_duration<N>(
    less: Seq<BucketView<N>>,
    more: Seq<BucketView<N>>,
    at: int,
    ms: u64,
)
    requires
        less.len() == more.len(),
        0 <= at < less.len(),
        forall|i: int| 0 <= i < less.len() && i != at ==> #[trigger] more[i] == less[i],
        more[at].durations == less[at].durations.insert(ms),
    ensures
        all_durations(more) == all_durations(less).insert(ms),
    decreases less.len(),
{
    let (l, m) = (less.drop_last(), more.drop_last());
    if at == less.len() - 1 {
        assert(l =~= m);
        assert(all_durations(l).add(less[at].durations.insert(ms)) =~= all_durations(l).add(
            less[at].durations,
        ).insert(ms));
    } else {
        lemma_one_more_duration(l, m, at, ms);
        assert(all_durations(l).insert(ms).add(less.last().durations) =~= all_durations(l).add(
            less.last().durations,
        ).insert(ms));
    }
}

/// Buckets without durations hold none in all.
proof fn lemma_no_durations<N>(buckets: Seq<BucketView<N>>)
    requires
        forall|i: int|
            0 <= i < buckets.len() ==> (#[trigger] buckets[i]).durations == Multiset::<
                u64,
            >::empty(),
    ensures
        all_durations(buckets) == Multiset::<u64>::empty(),
    decreases buckets.len(),
{
    if buckets.len() > 0 {
        lemma_no_durations(buckets.drop_last());
        assert(all_durations(buckets) =~= Multiset::<u64>::empty());
    }
}

/// What the 95th percentile is: with `ms` the duration of the rank that belongs to it, it is at
/// least `ms` and at most a thousandth more, and exactly `ms` below 2048.
pub proof fn law_p95_is_the_duration_at_its_rank(durations: Multiset<u64>, p95_ms: u64, ms: u64)
    requires
        is_p95(durations, p95_ms),
        durations.len() <= MOST_RANKED,
        at_rank(durations, percentile_rank(95, durations.len()), ms),
    ensures
        ms <= p95_ms,
        1000 * p95_ms <= 1001 * ms,
        ms < 2048 ==> p95_ms == ms,
{
    let rank = percentile_rank(95, durations.len());
    assert(durations.len() > 0);
    let v = choose|v: u64| #[trigger]
        at_rank(durations, rank, v) && v <= p95_ms && (p95_ms - v) * 1000 <= v && (v < 2048
            ==> p95_ms == v);
    law_rank_is_unique(durations, rank, v, ms);
}

/// Whether an addition has one result.
pub open spec fn functional<N, A: Fn(N, N) -> N>(plus: A) -> bool {
    forall|a: N, b: N, x: N, y: N|
        #![trigger call_ensures(plus, (a, b), x), call_ensures(plus, (a, b), y)]
        call_ensures(plus, (a, b), x) && call_ensures(plus, (a, b), y) ==> x == y
}

/// With an addition that has one result, counts add up to one total.
proof fn lemma_one_total<N, A: Fn(N, N) -> N>(plus: A, start: N, counts: Seq<N>, x: N, y: N)
    requires
        functional(plus),
        adds_up(plus, start, counts, x),
        adds_up(plus, start, counts, y),
    ensures
        x == y,
{
    let xs = choose|sums: Seq<N>| #[trigger]
        partial_sums(plus, start, counts, sums) && sums.last() == x;
    let ys = choose|sums: Seq<N>| #[trigger]
        partial_sums(plus, start, counts, sums) && sums.last() == y;
    lemma_same_sums(plus, start, counts, xs, ys, counts.len() as int);
}

/// Two runs of partial sums agree, one sum after another.
proof fn lemma_same_sums<N, A: Fn(N, N) -> N>(
    plus: A,
    start: N,
    counts: Seq<N>,
    xs: Seq<N>,
    ys: Seq<N>,
    k: int,
)
    requires
        functional(plus),
        partial_sums(plus, start, counts, xs),
        partial_sums(plus, start, counts, ys),
        0 <= k <= counts.len(),
    ensures
        xs[k] == ys[k],
    decreases k,
{
    if k > 0 {
        lemma_same_sums(plus, start, counts, xs, ys, k - 1);
        let c = counts[k - 1];
        assert(call_ensures(plus, (xs[k - 1], c), xs[k]));
        assert(call_ensures(plus, (ys[k - 1], c), ys[k]));
    }
}

/// Two snapshots in a row at the same second are equal, and the second changes nothing; neither
/// alters the number of workers that was reported.
pub proof fn law_looking_twice<N, A: Fn(N, N) -> N>(
    state: StateView<N>,
    now: u64,
    short_window_s: u64,
    plus: A,
    first: Snapshot<N>,
    second: Snapshot<N>,
)
    requires
        state.wf(),
        functional(plus),
        state.at(now).summed_up(first, now, short_window_s, plus),
        state.at(now).at(now).summed_up(second, now, short_window_s, plus),
    ensures
        state.at(now).at(now) == state.at(now),
        first == second,
        first.workers_gauge == state.workers_gauge,
{
    lemma_at_twice(state, now);
    let there = state.at(now);
    lemma_one_total(plus, there.zero, request_counts(there.buckets), first.total, second.total);
    lemma_one_total(
        plus,
        there.zero,
        recent_counts(there.buckets, oldest_shown(now, at_least_one(short_window_s))),
        first.short_total,
        second.short_total,
    );
}

/// A short window of no seconds is one of a single second.
pub proof fn law_shortest_window<N, A: Fn(N, N) -> N>(
    state: StateView<N>,
    snap: Snapshot<N>,
    now: u64,
    plus: A,
)
    ensures
        state.summed_up(snap, now, 0, plus) == state.summed_up(snap, now, 1, plus),
{
}

/// Where nothing was counted, sums stay at zero.
proof fn lemma_zero_total<N, A: Fn(N, N) -> N>(plus: A, zero: N, counts: Seq<N>, total: N)
    requires
        forall|x: N| #[trigger] call_ensures(plus, (zero, zero), x) ==> x == zero,
        forall|i: int| 0 <= i < counts.len() ==> #[trigger] counts[i] == zero,
        adds_up(plus, zero, counts, total),
    ensures
        total == zero,
{
    let sums = choose|sums: Seq<N>| #[trigger]
        partial_sums(plus, zero, counts, sums) && sums.last() == total;
    lemma_zero_sums(plus, zero, counts, sums, counts.len() as int);
}

/// Where nothing was counted, each partial sum is zero.
proof fn lemma_zero_sums<N, A: Fn(N, N) -> N>(
    plus: A,
    zero: N,
    counts: Seq<N>,
    sums: Seq<N>,
    k: int,
)
    requires
        forall|x: N| #[trigger] call_ensures(plus, (zero, zero), x) ==> x == zero,
        forall|i: int| 0 <= i < counts.len() ==> #[trigger] counts[i] == zero,
        partial_sums(plus, zero, counts, sums),
        0 <= k <= counts.len(),
    ensures
        sums[k] == zero,
    decreases k,
{
    if k > 0 {
        lemma_zero_sums(plus, zero, counts, sums, k - 1);
        assert(call_ensures(plus, (sums[k - 1], counts[k - 1]), sums[k]));
    }
}

/// Buckets in which nothing was counted have no recent counts but zero.
proof fn lemma_zero_recent<N>(buckets: Seq<BucketView<N>>, oldest: int, zero: N)
    requires
        forall|i: int| 0 <= i < buckets.len() ==> (#[trigger] buckets[i]).req_count == zero,
    ensures
        forall|i: int|
            0 <= i < recent_counts(buckets, oldest).len() ==> #[trigger] recent_counts(
                buckets,
                oldest,
            )[i] == zero,
    decreases buckets.len(),
{
    if buckets.len() > 0 && buckets.last().sec >= oldest {
        let rest = recent_counts(buckets.drop_last(), oldest);
        lemma_zero_recent(buckets.drop_last(), oldest, zero);
        let recent = recent_counts(buckets, oldest);
        assert forall|i: int| 0 <= i < recent.len() implies #[trigger] recent[i] == zero by {
            if i > 0 {
                assert(recent[i] == rest[i - 1]);
            }
        }
    }
}

/// Whether nothing was counted after second `last`: buckets of later seconds are fresh.
pub open spec fn nothing_after<N>(state: StateView<N>, last: u64) -> bool {
    forall|i: int|
        0 <= i < state.buckets.len() && (#[trigger] state.buckets[i]).sec > last
            ==> state.buckets[i] == fresh(state.buckets[i].sec as int, state.zero)
}

/// A window runs out: once its length has passed since the last second `last` in which anything
/// was counted, however often it was looked at since, it shows nothing but fresh buckets. A
/// snapshot then has no requests, in either window, and no durations, given that zero and zero
/// make zero; only the number of workers is reported as it was.
pub proof fn law_window_runs_out<N, A: Fn(N, N) -> N>(
    state: StateView<N>,
    last: u64,
    now: u64,
    short_window_s: u64,
    plus: A,
    snap: Snapshot<N>,
)
    requires
        state.wf(),
        nothing_after(state, last),
        now >= last + at_least_one(state.window_seconds),
        forall|x: N| #[trigger] call_ensures(plus, (state.zero, state.zero), x) ==> x == state.zero,
        state.at(now).summed_up(snap, now, short_window_s, plus),
    ensures
        forall|i: int|
            0 <= i < state.at(now).buckets.len() ==> #[trigger] state.at(now).buckets[i] == fresh(
                state.at(now).buckets[i].sec as int,
                state.zero,
            ),
        all_durations(state.at(now).buckets) == Multiset::<u64>::empty(),
        snap.total == state.zero,
        snap.short_total == state.zero,
        snap.p95_ms == 0,
        snap.workers_gauge == state.workers_gauge,
{
    law_shows_the_last_seconds(state, now);
    let shown = state.at(now).buckets;
    assert forall|i: int| 0 <= i < shown.len() implies #[trigger] shown[i] == fresh(
        shown[i].sec as int,
        state.zero,
    ) by {
        if state.buckets.contains(shown[i]) {
            let j = choose|j: int| 0 <= j < state.buckets.len() && state.buckets[j] == shown[i];
            assert(state.buckets[j].sec > last);
        }
    }
    lemma_no_durations(shown);
    lemma_zero_recent(shown, oldest_shown(now, at_least_one(short_window_s)), state.zero);
    let counts = request_counts(shown);
    assert forall|i: int| 0 <= i < counts.len() implies #[trigger] counts[i] == state.zero by {
        assert(counts[i] == shown[i].req_count);
    }
    lemma_zero_total(plus, state.zero, counts, snap.total);
    lemma_zero_total(
        plus,
        state.zero,
        recent_counts(shown, oldest_shown(now, at_least_one(short_window_s))),
        snap.short_total,
    );
}

/// What happens to a window.
pub enum Event<N> {
    /// Requests were counted, which made the count of the second this one.
    Requests { sec: u64, req_count: N },
    /// A duration was recorded.
    Duration { sec: u64, ms: u64 },
    /// The window was looked at.
    Look { sec: u64 },
    /// A number of workers was reported.
    Workers { number: i32 },
}

impl<N> Event<N> {
    /// The second at which it happens, where that matters.
    pub open spec fn sec(self) -> Option<u64> {
        match self {
            Event::Requests { sec, .. } => Some(sec),
            Event::Duration { sec, .. } => Some(sec),
            Event::Look { sec } => Some(sec),
            Event::Workers { .. } => None,
        }
    }
}

/// The window after events, one after another.
pub open spec fn history<N>(start: StateView<N>, events: Seq<Event<N>>) -> StateView<N>
    decreases events.len(),
{
    if events.len() == 0 {
        start
    } else {
        let before = history(start, events.drop_last());
        match events.last() {
            Event::Requests { sec, req_count } => before.with_requests(sec, req_count),
            Event::Duration { sec, ms } => before.with_duration(sec, ms),
            Event::Look { sec } => before.at(sec),
            Event::Workers { number } => StateView { workers_gauge: Some(number), ..before },
        }
    }
}

/// Whether no event comes after second `until`, nor after a later event.
pub open spec fn in_order<N>(events: Seq<Event<N>>, until: u64) -> bool
    decreases events.len(),
{
    events.len() > 0 ==> match events.last().sec() {
        Some(sec) => sec <= until && in_order(events.drop_last(), sec),
        None => in_order(events.drop_last(), until),
    }
}

/// The durations among the events from second `oldest` on, as they are recorded.
pub open spec fn durations_since<N>(events: Seq<Event<N>>, oldest: int) -> Multiset<u64>
    decreases events.len(),
{
    if events.len() == 0 {
        Multiset::empty()
    } else {
        let before = durations_since(events.drop_last(), oldest);
        match events.last() {
            Event::Duration { sec, ms } => if sec >= oldest {
                before.insert(clamped(ms))
            } else {
                before
            },
            _ => before,
        }
    }
}

/// No duration was recorded after the last event.
proof fn lemma_none_since<N>(events: Seq<Event<N>>, until: u64, oldest: int)
    requires
        in_order(events, until),
        until < oldest,
    ensures
        durations_since(events, oldest) == Multiset::<u64>::empty(),
    decreases events.len(),
{
    if events.len() > 0 {
        match events.last().sec() {
            Some(sec) => lemma_none_since(events.drop_last(), sec, oldest),
            None => lemma_none_since(events.drop_last(), until, oldest),
        }
    }
}

/// Buckets that hold the same durations hold the same in all.
proof fn lemma_same_durations<N>(a: Seq<BucketView<N>>, b: Seq<BucketView<N>>)
    requires
        a.len() == b.len(),
        forall|i: int| 0 <= i < a.len() ==> (#[trigger] a[i]).durations == b[i].durations,
    ensures
        all_durations(a) == all_durations(b),
    decreases a.len(),
{
    if a.len() > 0 {
        let (c, d) = (a.drop_last(), b.drop_last());
        assert forall|i: int| 0 <= i < c.len() implies (#[trigger] c[i]).durations
            == d[i].durations by {
            assert(a[i].durations == b[i].durations);
        }
        lemma_same_durations(c, d);
        assert(a[a.len() - 1].durations == b[b.len() - 1].durations);
    }
}

/// Looking at the window in between changes nothing of the durations that it shows later, even
/// where it was empty.
proof fn lemma_look_keeps_durations<N>(state: StateView<N>, sooner: u64, later: u64)
    requires
        state.wf(),
        state.buckets.len() == 0 || state.newest().sec <= sooner,
        sooner <= later,
    ensures
        all_durations(state.at(sooner).at(later).buckets) == all_durations(state.at(later).buckets),
{
    if state.buckets.len() > 0 {
        law_looking_changes_nothing(state, sooner, later);
    } else {
        law_shows_the_last_seconds(state, sooner);
        law_shows_the_last_seconds(state, later);
        law_shows_the_last_seconds(state.at(sooner), later);
        let none = Multiset::<u64>::empty();
        let (mid, twice) = (state.at(sooner).buckets, state.at(sooner).at(later).buckets);
        assert forall|i: int| 0 <= i < twice.len() implies (#[trigger] twice[i]).durations
            == none by {
            if mid.contains(twice[i]) {
                let j = choose|j: int| 0 <= j < mid.len() && mid[j] == twice[i];
                assert(mid[j].durations == none);
            }
        }
        lemma_no_durations(twice);
        lemma_no_durations(state.at(later).buckets);
    }
}

/// Counting requests changes nothing of the durations that the window shows later.
proof fn lemma_requests_keep_durations<N>(state: StateView<N>, sec: u64, req_count: N, later: u64)
    requires
        state.wf(),
        state.buckets.len() == 0 || state.newest().sec <= sec,
        sec <= later,
    ensures
        all_durations(state.with_requests(sec, req_count).at(later).buckets) == all_durations(
            state.at(later).buckets,
        ),
{
    law_shows_the_last_seconds(state, sec);
    lemma_look_keeps_durations(state, sec, later);
    let there = state.at(sec);
    let b = BucketView { req_count, ..there.newest() };
    law_kept_while_shown(there, b, later);
    let shown = there.at(later).buckets;
    if oldest_shown(later, state.window_seconds) <= sec {
        lemma_same_durations(shown.update(sec - shown[0].sec, b), shown);
    }
}

/// Replacing the newest bucket by one of the same second keeps a window well-formed.
proof fn lemma_with_newest<N>(state: StateView<N>, b: BucketView<N>)
    requires
        state.wf(),
        state.buckets.len() > 0,
        b.sec == state.newest().sec,
    ensures
        state.with_newest(b).wf(),
        state.with_newest(b).newest() == b,
{
    let rec = state.with_newest(b).buckets;
    assert forall|i: int| #![trigger rec[i]] 0 <= i < rec.len() implies rec[i].sec == rec[0].sec
        + i by {
        assert(state.buckets[i].sec == state.buckets[0].sec + i);
        assert(rec[i].sec == state.buckets[i].sec && rec[0].sec == state.buckets[0].sec);
    }
}

/// What a window has become after events in order.
proof fn lemma_history<N>(start: StateView<N>, events: Seq<Event<N>>, until: u64, later: u64)
    requires
        start.buckets.len() == 0,
        in_order(events, until),
        until <= later,
    ensures
        ({
            let state = history(start, events);
            &&& state.wf()
            &&& state.window_seconds == start.window_seconds
            &&& state.zero == start.zero
            &&& state.buckets.len() == 0 || state.newest().sec <= until
            &&& all_durations(state.at(later).buckets) == durations_since(
                events,
                oldest_shown(later, start.window_seconds),
            )
        }),
    decreases events.len(),
{
    let oldest = oldest_shown(later, start.window_seconds);
    if events.len() == 0 {
        law_shows_the_last_seconds(start, later);
        lemma_no_durations(start.at(later).buckets);
    } else {
        let rest = events.drop_last();
        let before = history(start, rest);
        match events.last() {
            Event::Workers { number } => {
                lemma_history(start, rest, until, later);
                assert(history(start, events).at(later).buckets == before.at(later).buckets);
            },
            Event::Look { sec } => {
                lemma_history(start, rest, sec, later);
                law_shows_the_last_seconds(before, sec);
                lemma_look_keeps_durations(before, sec, later);
            },
            Event::Requests { sec, req_count } => {
                lemma_history(start, rest, sec, later);
                law_shows_the_last_seconds(before, sec);
                let there = before.at(sec);
                lemma_with_newest(there, BucketView { req_count, ..there.newest() });
                lemma_requests_keep_durations(before, sec, req_count, later);
            },
            Event::Duration { sec, ms } => {
                lemma_history(start, rest, sec, later);
                law_shows_the_last_seconds(before, sec);
                let there = before.at(sec);
                lemma_with_newest(
                    there,
                    BucketView {
                        durations: there.newest().durations.insert(clamped(ms)),
                        ..there.newest()
                    },
                );
                lemma_look_keeps_durations(before, sec, later);
                law_duration_counts_while_shown(before, sec, ms, later);
                if sec < oldest {
                    lemma_none_since(rest, sec, oldest);
                }
            },
        }
    }
}

/// A window whose newest second is not after `last` holds nothing that was counted later.
proof fn lemma_nothing_after<N>(state: StateView<N>, last: u64)
    requires
        state.wf(),
        state.buckets.len() > 0,
        state.newest().sec <= last,
    ensures
        nothing_after(state, last),
{
    assert(state.newest().sec == state.buckets[0].sec + state.buckets.len() - 1);
    assert forall|i: int| 0 <= i < state.buckets.len() implies (#[trigger] state.buckets[i]).sec
        <= last by {
        assert(state.buckets[i].sec == state.buckets[0].sec + i);
    }
}

/// Where all requests and durations among events in order came at second `last` or before, the
/// window holds nothing that was counted later, whenever it was looked at.
pub proof fn law_nothing_after_the_last_count<N>(
    start: StateView<N>,
    events: Seq<Event<N>>,
    last: u64,
    now: u64,
)
    requires
        start.buckets.len() == 0,
        in_order(events, now),
        forall|i: int|
            0 <= i < events.len() ==> match #[trigger] events[i] {
                Event::Requests { sec, .. } => sec <= last,
                Event::Duration { sec, .. } => sec <= last,
                _ => true,
            },
    ensures
        history(start, events).wf(),
        nothing_after(history(start, events), last),
    decreases events.len(),
{
    lemma_history(start, events, now, now);
    if events.len() > 0 {
        let rest = events.drop_last();
        let state = history(start, events);
        let before = history(start, rest);
        assert forall|i: int| 0 <= i < rest.len() implies match #[trigger] rest[i] {
            Event::Requests { sec, .. } => sec <= last,
            Event::Duration { sec, .. } => sec <= last,
            _ => true,
        } by {
            assert(rest[i] == events[i]);
        }
        assert(events.last() == events[events.len() - 1]);
        match events.last() {
            Event::Workers { .. } => {
                law_nothing_after_the_last_count(start, rest, last, now);
                assert(state.buckets == before.buckets);
            },
            Event::Look { sec } => {
                law_nothing_after_the_last_count(start, rest, last, sec);
                law_shows_the_last_seconds(before, sec);
                assert forall|i: int|
                    0 <= i < state.buckets.len() && (#[trigger] state.buckets[i]).sec
                        > last implies state.buckets[i] == fresh(
                    state.buckets[i].sec as int,
                    state.zero,
                ) by {
                    if before.buckets.contains(state.buckets[i]) {
                        let j = choose|j: int|
                            0 <= j < before.buckets.len() && before.buckets[j] == state.buckets[i];
                        assert(before.buckets[j].sec > last);
                    }
                }
            },
            Event::Requests { sec, .. } => {
                lemma_history(start, rest, sec, sec);
                law_shows_the_last_seconds(before, sec);
                lemma_nothing_after(state, last);
            },
            Event::Duration { sec, .. } => {
                lemma_history(start, rest, sec, sec);
                law_shows_the_last_seconds(before, sec);
                lemma_nothing_after(state, last);
            },
        }
    }
}

/// Whatever was counted, recorded and looked at since the window was empty, in the order of
/// time: the durations of which it reports the percentile at second `now` are exactly those that
/// were recorded during the seconds that it spans.
pub proof fn law_percentile_of_the_last_seconds<N>(
    start: StateView<N>,
    events: Seq<Event<N>>,
    now: u64,
)
    requires
        start.buckets.len() == 0,
        in_order(events, now),
    ensures
        all_durations(history(start, events).at(now).buckets) == durations_since(
            events,
            oldest_shown(now, start.window_seconds),
        ),
{
    lemma_history(start, events, now, now);
}

/// What was reported over the last seconds: with `ms` the duration of the rank that belongs to the
/// 95th percentile, among those recorded during the seconds that the window spans, the percentile
/// is at least `ms` and at most a thousandth more, and exactly `ms` below 2048; without any it
/// is 0.
pub proof fn law_p95_of_the_last_seconds<N>(
    start: StateView<N>,
    events: Seq<Event<N>>,
    now: u64,
    p95_ms: u64,
    ms: u64,
)
    requires
        start.buckets.len() == 0,
        in_order(events, now),
        is_p95(all_durations(history(start, events).at(now).buckets), p95_ms),
    ensures
        ({
            let recent = durations_since(events, oldest_shown(now, start.window_seconds));
            &&& recent.len() == 0 ==> p95_ms == 0
            &&& recent.len() <= MOST_RANKED && at_rank(
                recent,
                percentile_rank(95, recent.len()),
                ms,
            ) ==> ms <= p95_ms && 1000 * p95_ms <= 1001 * ms && (ms < 2048 ==> p95_ms == ms)
        }),
{
    law_percentile_of_the_last_seconds(start, events, now);
    let recent = durations_since(events, oldest_shown(now, start.window_seconds));
    if recent.len() <= MOST_RANKED && at_rank(recent, percentile_rank(95, recent.len()), ms) {
        law_p95_is_the_duration_at_its_rank(recent, p95_ms, ms);
    }
}

/// The request count of a second after events: the one that the last requests of that second made
/// it, or `zero` without any.
pub open spec fn count_at<N>(events: Seq<Event<N>>, sec: u64, zero: N) -> N
    decreases events.len(),
{
    if events.len() == 0 {
        zero
    } else {
        match events.last() {
            Event::Requests { sec: s, req_count } => if s == sec {
                req_count
            } else {
                count_at(events.drop_last(), sec, zero)
            },
            _ => count_at(events.drop_last(), sec, zero),
        }
    }
}

/// Whether each bucket has the request count of its second, and every later second has none.
spec fn counts_match<N>(state: StateView<N>, counts: spec_fn(u64) -> N) -> bool {
    &&& forall|i: int|
        0 <= i < state.buckets.len() ==> (#[trigger] state.buckets[i]).req_count == counts(
            state.buckets[i].sec,
        )
    &&& forall|sec: u64|
        (state.buckets.len() == 0 || sec > state.newest().sec) ==> #[trigger] counts(sec)
            == state.zero
}

/// Bringing a window up to date keeps its request counts right.
proof fn lemma_counts_at<N>(state: StateView<N>, counts: spec_fn(u64) -> N, now: u64)
    requires
        state.wf(),
        state.buckets.len() == 0 || state.newest().sec <= now,
        counts_match(state, counts),
    ensures
        counts_match(state.at(now), counts),
{
    law_shows_the_last_seconds(state, now);
    let shown = state.at(now).buckets;
    if state.buckets.len() > 0 {
        lemma_at_form(state, now);
        let ext = extended(state.buckets, now, state.zero);
        let k = dropped(state, now);
        let last = state.newest().sec;
        assert forall|i: int| 0 <= i < shown.len() implies (#[trigger] shown[i]).req_count
            == counts(shown[i].sec) by {
            assert(shown[i] == ext[i + k]);
            if i + k < state.buckets.len() {
                assert(ext[i + k] == state.buckets[i + k]);
            } else {
                assert(ext[i + k] == fresh(last + 1 + (i + k - state.buckets.len()), state.zero));
                assert(shown[i].sec > last);
            }
        }
    }
}

/// Every bucket of a window after events in order has the request count of its second.
proof fn lemma_history_counts<N>(start: StateView<N>, events: Seq<Event<N>>, until: u64)
    requires
        start.buckets.len() == 0,
        in_order(events, until),
    ensures
        counts_match(history(start, events), |sec: u64| count_at(events, sec, start.zero)),
    decreases events.len(),
{
    lemma_history(start, events, until, until);
    if events.len() > 0 {
        let rest = events.drop_last();
        let (state, before) = (history(start, events), history(start, rest));
        let old_counts = |sec: u64| count_at(rest, sec, start.zero);
        let counts = |sec: u64| count_at(events, sec, start.zero);
        match events.last().sec() {
            None => {
                lemma_history_counts(start, rest, until);
                assert(state.buckets == before.buckets);
                assert(forall|sec: u64| #[trigger] counts(sec) == old_counts(sec));
            },
            Some(at) => {
                lemma_history(start, rest, at, at);
                lemma_history_counts(start, rest, at);
                lemma_counts_at(before, old_counts, at);
                law_shows_the_last_seconds(before, at);
                let there = before.at(at);
                assert(there.newest().sec == at);
                assert(state.buckets.len() == there.buckets.len());
                assert(forall|sec: u64| sec != at ==> #[trigger] counts(sec) == old_counts(sec));
                assert forall|i: int| 0 <= i < state.buckets.len() implies (
                #[trigger] state.buckets[i]).req_count == counts(state.buckets[i].sec) by {
                    assert(there.buckets[i].req_count == old_counts(there.buckets[i].sec));
                    if i < state.buckets.len() - 1 {
                        assert(state.buckets[i] == there.buckets[i]);
                        assert(there.buckets[i].sec == there.buckets[0].sec + i);
                        assert(at == there.buckets[0].sec + there.buckets.len() - 1);
                    }
                }
            },
        }
    }
}

/// Whatever was counted, recorded and looked at since the window was empty, in the order of
/// time: each second that it shows at second `now` has the request count that the last requests
/// of that second made it, and none where there were no requests.
pub proof fn law_counts_of_the_last_seconds<N>(
    start: StateView<N>,
    events: Seq<Event<N>>,
    now: u64,
)
    requires
        start.buckets.len() == 0,
        in_order(events, now),
    ensures
        forall|i: int|
            0 <= i < history(start, events).at(now).buckets.len() ==> (#[trigger] history(
                start,
                events,
            ).at(now).buckets[i]).req_count == count_at(
                events,
                history(start, events).at(now).buckets[i].sec,
                start.zero,
            ),
{
    let counts = |sec: u64| count_at(events, sec, start.zero);
    lemma_history(start, events, now, now);
    lemma_history_counts(start, events, now);
    lemma_counts_at(history(start, events), counts, now);
    let shown = history(start, events).at(now).buckets;
    assert forall|i: int| 0 <= i < shown.len() implies (#[trigger] shown[i]).req_count == count_at(
        events,
        shown[i].sec,
        start.zero,
    ) by {
        assert(shown[i].req_count == counts(shown[i].sec));
    }
}

/// A service that is no longer used is reported as such: once the window's length has passed since
/// the last requests and durations among events in order, a snapshot has neither, whatever its
/// short window, given that zero and zero make zero; the number of workers that was reported is
/// kept.
pub proof fn law_unused_service_shows_nothing<N, A: Fn(N, N) -> N>(
    start: StateView<N>,
    events: Seq<Event<N>>,
    last: u64,
    now: u64,
    short_window_s: u64,
    plus: A,
    snap: Snapshot<N>,
)
    requires
        start.buckets.len() == 0,
        in_order(events, now),
        forall|i: int|
            0 <= i < events.len() ==> match #[trigger] events[i] {
                Event::Requests { sec, .. } => sec <= last,
                Event::Duration { sec, .. } => sec <= last,
                _ => true,
            },
        now >= last + at_least_one(start.window_seconds),
        forall|x: N| #[trigger] call_ensures(plus, (start.zero, start.zero), x) ==> x == start.zero,
        history(start, events).at(now).summed_up(snap, now, short_window_s, plus),
    ensures
        snap.total == start.zero,
        snap.short_total == start.zero,
        snap.p95_ms == 0,
        snap.workers_gauge == history(start, events).workers_gauge,
{
    lemma_history(start, events, now, now);
    law_nothing_after_the_last_count(start, events, last, now);
    law_window_runs_out(history(start, events), last, now, short_window_s, plus, snap);
}

/// A duration from 1 to 1000000 milliseconds is recorded as it is; a shorter one counts as 1, and a
/// longer one as 1000000. It is added to the newest second; nothing else changes.
pub proof fn law_duration_is_recorded<N>(state: StateView<N>, now: u64, ms: u64)
    requires
        state.wf(),
    ensures
        ({
            let (there, then) = (state.at(now), state.with_duration(now, ms));
            let last = there.buckets.len() - 1;
            let recorded = then.buckets[last].durations;
            &&& last >= 0
            &&& 1 <= ms <= 1_000_000 ==> recorded == there.buckets[last].durations.insert(ms)
            &&& ms == 0 ==> recorded == there.buckets[last].durations.insert(1)
            &&& ms > 1_000_000 ==> recorded == there.buckets[last].durations.insert(1_000_000)
            &&& then.buckets.len() == there.buckets.len()
            &&& then.buckets[last].sec == there.buckets[last].sec
            &&& then.buckets[last].req_count == there.buckets[last].req_count
            &&& forall|i: int| 0 <= i < last ==> #[trigger] then.buckets[i] == there.buckets[i]
            &&& then.window_seconds == state.window_seconds
            &&& then.zero == state.zero
            &&& then.workers_gauge == state.workers_gauge
        }),
{
    lemma_at(state, now);
}

/// A request count goes to the newest second, in place of the one before; nothing else changes.
pub proof fn law_requests_are_counted<N>(state: StateView<N>, now: u64, req_count: N)
    requires
        state.wf(),
    ensures
        ({
            let (there, then) = (state.at(now), state.with_requests(now, req_count));
            let last = there.buckets.len() - 1;
            &&& last >= 0
            &&& then.buckets.len() == there.buckets.len()
            &&& then.buckets[last].req_count == req_count
            &&& then.newest() == then.buckets[last]
            &&& there.newest() == there.buckets[last]
            &&& then.buckets[last].sec == there.buckets[last].sec
            &&& then.buckets[last].durations == there.buckets[last].durations
            &&& forall|i: int| 0 <= i < last ==> #[trigger] then.buckets[i] == there.buckets[i]
            &&& then.window_seconds == state.window_seconds
            &&& then.zero == state.zero
            &&& then.workers_gauge == state.workers_gauge
        }),
{
    lemma_at(state, now);
}

/// An empty window shows, at any second, that second alone, with nothing counted in it.
pub proof fn law_empty_window_shows_the_present<N>(state: StateView<N>, now: u64)
    requires
        state.buckets.len() == 0,
    ensures
        ({
            let shown = state.at(now).buckets;
            &&& shown.len() == 1
            &&& shown[0].sec == now
            &&& shown[0].req_count == state.zero
            &&& shown[0].durations == Multiset::<u64>::empty()
            &&& state.at(now).window_seconds == state.window_seconds
            &&& state.at(now).zero == state.zero
            &&& state.at(now).workers_gauge == state.workers_gauge
        }),
{
    lemma_pruned(
        extended(state.buckets, now, state.zero),
        oldest_shown(now, state.window_seconds),
    );
}

/// What a window shows at second `now`, second by second: from the first one that it has, or the
/// last ones up to `now` that it spans, one at least, whichever begins later; without a gap, up to
/// `now`, or up to its last one, where that lies ahead; each second that it had as it was, and
/// each later one with nothing counted in it.
#[verifier::spinoff_prover]
pub proof fn law_window_second_by_second<N>(state: StateView<N>, now: u64)
    requires
        state.wf(),
        state.buckets.len() > 0,
    ensures
        ({
            let shown = state.at(now).buckets;
            let had = state.buckets;
            let last = had[had.len() - 1].sec;
            let span = if state.window_seconds == 0 {
                1
            } else {
                state.window_seconds as int
            };
            &&& shown.len() > 0
            &&& shown[shown.len() - 1].sec == if last > now {
                last
            } else {
                now
            }
            &&& shown[0].sec >= had[0].sec
            &&& shown[0].sec + span > now
            &&& shown[0].sec == had[0].sec || shown[0].sec + span == now + 1
            &&& forall|i: int|
                0 <= i < shown.len() ==> (#[trigger] shown[i]).sec == shown[0].sec + i && {
                    let j = shown[i].sec - had[0].sec;
                    if shown[i].sec <= last {
                        shown[i] == had[j]
                    } else {
                        shown[i].req_count == state.zero && shown[i].durations == Multiset::<
                            u64,
                        >::empty()
                    }
                }
            &&& state.at(now).window_seconds == state.window_seconds
            &&& state.at(now).zero == state.zero
            &&& state.at(now).workers_gauge == state.workers_gauge
        }),
{
    let had = state.buckets;
    let last = state.newest().sec;
    let shown = state.at(now).buckets;
    law_shows_the_last_seconds(state, now);
    assert(last == had[0].sec + had.len() - 1);
    let ext = extended(had, now, state.zero);
    let k = dropped(state, now);
    lemma_extended(had, now, state.zero);
    assert(ext[0] == had[0]);
    if last <= now {
        lemma_at_form(state, now);
    } else {
        assert(ext =~= had);
        lemma_pruned(ext, oldest_shown(now, state.window_seconds));
        assert(ext.skip(0) =~= ext);
        assert(shown == ext.skip(k));
    }
    assert forall|i: int| 0 <= i < shown.len() implies (#[trigger] shown[i]).sec == shown[0].sec + i
        && shown[i] == ext[i + k] && ext[i + k].sec == had[0].sec + i + k by {
        assert(shown[i] == ext[i + k]);
        assert(ext[i + k].sec == ext[0].sec + (i + k));
        assert(shown[0] == ext[k]);
        assert(ext[k].sec == ext[0].sec + k);
    }
    assert forall|i: int| 0 <= i < shown.len() implies (#[trigger] shown[i]).sec == shown[0].sec + i
        && {
        let j = shown[i].sec - had[0].sec;
        if shown[i].sec <= last {
            shown[i] == had[j]
        } else {
            shown[i].req_count == state.zero && shown[i].durations == Multiset::<u64>::empty()
        }
    } by {
        assert(shown[i] == ext[i + k]);
        if i + k < had.len() {
            assert(ext[i + k] == had[i + k]);
        }
    }
    lemma_span(state);
}

/// What adding up is: no counts leave what one starts with, and one count more is added to what
/// the counts before it come to.
pub proof fn law_counts_are_added_up<N, A: Fn(N, N) -> N>(
    plus: A,
    start: N,
    counts: Seq<N>,
    count: N,
    total: N,
)
    ensures
        adds_up(plus, start, Seq::empty(), total) <==> total == start,
        adds_up(plus, start, counts.push(count), total) <==> exists|before: N|
            adds_up(plus, start, counts, before) && #[trigger] call_ensures(
                plus,
                (before, count),
                total,
            ),
{
    let none = Seq::<N>::empty();
    assert(partial_sums(plus, start, none, seq![start]));
    assert(seq![start].last() == start);
    if adds_up(plus, start, none, total) {
        let sums = choose|sums: Seq<N>| #[trigger]
            partial_sums(plus, start, none, sums) && sums.last() == total;
        assert(sums.last() == sums[0]);
    }
    let more = counts.push(count);
    if adds_up(plus, start, more, total) {
        let sums = choose|sums: Seq<N>| #[trigger]
            partial_sums(plus, start, more, sums) && sums.last() == total;
        let less = sums.drop_last();
        assert forall|i: int| 0 <= i < counts.len() implies call_ensures(
            plus,
            (less[i], #[trigger] counts[i]),
            less[i + 1],
        ) by {
            assert(more[i] == counts[i]);
            assert(call_ensures(plus, (sums[i], more[i]), sums[i + 1]));
        }
        assert(partial_sums(plus, start, counts, less));
        assert(call_ensures(plus, (sums[counts.len() as int], more[counts.len() as int]), total));
        assert(adds_up(plus, start, counts, less.last()));
        assert(call_ensures(plus, (less.last(), count), total));
    }
    if exists|before: N|
        adds_up(plus, start, counts, before) && #[trigger] call_ensures(
            plus,
            (before, count),
            total,
        ) {
        let before = choose|before: N|
            adds_up(plus, start, counts, before) && #[trigger] call_ensures(
                plus,
                (before, count),
                total,
            );
        lemma_adds_up_more(plus, start, counts, before, count, total);
    }
}

/// The durations of buckets are those of each of them, and nothing else.
pub proof fn law_durations_are_put_together<N>(
    a: Seq<BucketView<N>>,
    b: Seq<BucketView<N>>,
    one: BucketView<N>,
)
    ensures
        all_durations(Seq::<BucketView<N>>::empty()) == Multiset::<u64>::empty(),
        all_durations(seq![one]) == one.durations,
        all_durations(a + b) == all_durations(a).add(all_durations(b)),
    decreases b.len(),
{
    let none = Seq::<BucketView<N>>::empty();
    assert(all_durations(none) == Multiset::<u64>::empty());
    assert(seq![one].drop_last() =~= none);
    assert(all_durations(seq![one]) =~= one.durations);
    if b.len() == 0 {
        assert(a + b =~= a);
        assert(all_durations(a).add(all_durations(b)) =~= all_durations(a));
    } else {
        law_durations_are_put_together(a, b.drop_last(), one);
        assert((a + b).drop_last() =~= a + b.drop_last());
        assert((a + b).last() == b.last());
        assert(all_durations(a + b) =~= all_durations(a).add(all_durations(b)));
    }
}

/// The counts of the latest buckets, the newest first, as long as they are not before `oldest`.
#[verifier::spinoff_prover]
proof fn lemma_recent_counts<N>(buckets: Seq<BucketView<N>>, oldest: int)
    requires
        consecutive(buckets),
    ensures
        ({
            let recent = recent_counts(buckets, oldest);
            &&& recent.len() <= buckets.len()
            &&& forall|i: int|
                0 <= i < recent.len() ==> #[trigger] recent[i] == buckets[buckets.len() - 1
                    - i].req_count && buckets[buckets.len() - 1 - i].sec >= oldest
            &&& recent.len() < buckets.len() ==> buckets[buckets.len() - 1 - recent.len()].sec
                < oldest
        }),
    decreases buckets.len(),
{
    if buckets.len() > 0 && buckets.last().sec >= oldest {
        let rest = buckets.drop_last();
        assert forall|i: int| #![trigger rest[i]] 0 <= i < rest.len() implies rest[i].sec
            == rest[0].sec + i by {
            assert(rest[i] == buckets[i] && rest[0] == buckets[0]);
        }
        lemma_recent_counts(rest, oldest);
        let (recent, less) = (recent_counts(buckets, oldest), recent_counts(rest, oldest));
        assert(recent == seq![buckets[buckets.len() - 1].req_count] + less);
        assert forall|i: int| 0 <= i < recent.len() implies #[trigger] recent[i]
            == buckets[buckets.len() - 1 - i].req_count && buckets[buckets.len() - 1 - i].sec
            >= oldest by {
            if i > 0 {
                assert(recent[i] == less[i - 1]);
                assert(less[i - 1] == rest[rest.len() - 1 - (i - 1)].req_count);
                assert(rest[rest.len() - 1 - (i - 1)] == buckets[buckets.len() - 1 - i]);
            }
        }
        assert(recent.len() == less.len() + 1);
        if recent.len() < buckets.len() {
            assert(rest[rest.len() - 1 - less.len()] == buckets[buckets.len() - 1 - recent.len()]);
        }
    }
}

/// What a snapshot says of a window. The total is that of all buckets, the oldest first, over as
/// many seconds as the window spans, one at least. The short total is that of the buckets of the
/// last `short_window_s` seconds up to `now`, one at least, the newest first, over as many
/// seconds. The percentile is that of all durations, by histograms from 1 to 1000000 with three
/// digits, or 0 without any; and the number of workers is the one that was reported last.
pub proof fn law_snapshot_sums_up<N, A: Fn(N, N) -> N>(
    state: StateView<N>,
    snap: Snapshot<N>,
    now: u64,
    short_window_s: u64,
    plus: A,
)
    requires
        state.wf(),
        state.summed_up(snap, now, short_window_s, plus),
    ensures
        ({
            let all = state.buckets;
            let seconds = if short_window_s == 0 {
                1
            } else {
                short_window_s as int
            };
            &&& adds_up(
                plus,
                state.zero,
                Seq::new(all.len(), |i: int| all[i].req_count),
                snap.total,
            )
            &&& snap.window_seconds == if state.window_seconds == 0 {
                1
            } else {
                state.window_seconds
            }
            &&& snap.short_seconds == seconds
            &&& exists|recent: Seq<N>| #[trigger]
                adds_up(plus, state.zero, recent, snap.short_total) && {
                    let n = recent.len();
                    &&& n <= all.len()
                    &&& forall|i: int|
                        0 <= i < n ==> #[trigger] recent[i] == all[all.len() - 1 - i].req_count
                    &&& n > 0 ==> all[all.len() - n].sec + seconds > now
                    &&& n < all.len() ==> all[all.len() - 1 - n].sec + seconds <= now
                }
            &&& all_durations(all).len() == 0 ==> snap.p95_ms == 0
            &&& all_durations(all).len() > 0 ==> snap.p95_ms == percentile_value(
                all_durations(all),
                (1, 1_000_000, 3),
                95,
            )
            &&& snap.workers_gauge == state.workers_gauge
        }),
{
    let all = state.buckets;
    assert(request_counts(all) =~= Seq::new(all.len(), |i: int| all[i].req_count));
    let oldest = oldest_shown(now, at_least_one(short_window_s));
    lemma_recent_counts(all, oldest);
    let recent = recent_counts(all, oldest);
    let n = recent.len();
    assert(adds_up(plus, state.zero, recent, snap.short_total));
    if n > 0 {
        assert(recent[n - 1] == all[all.len() - n].req_count);
    }
}

/// Where all durations of the window are the same, from 1 to 2047 milliseconds, that is the 95th
/// percentile: the report is neither better nor worse than what every request took.
pub proof fn law_equal_durations_are_reported(durations: Multiset<u64>, p95_ms: u64, ms: u64)
    requires
        0 < durations.len() <= MOST_RANKED,
        forall|v: u64| #[trigger] durations.contains(v) ==> v == ms,
        ms < 2048,
        is_p95(durations, p95_ms),
    ensures
        p95_ms == ms,
{
    let rank = percentile_rank(95, durations.len());
    let (below, up_to) = (durations.filter(|v: u64| v < ms), durations.filter(|v: u64| v <= ms));
    assert forall|v: u64| #[trigger] below.count(v) == 0 by {
        assert(durations.count(v) > 0 ==> durations.contains(v));
    }
    assert forall|v: u64| #[trigger] up_to.count(v) == durations.count(v) by {
        assert(durations.count(v) > 0 ==> durations.contains(v));
    }
    assert(below =~= Multiset::<u64>::empty());
    assert(up_to =~= durations);
    assert(1 <= rank <= durations.len());
    law_p95_is_the_duration_at_its_rank(durations, p95_ms, ms);
}

/// A window can be brought up to any second before the last that a clock can show, and in any case
/// to its own last one, or where it is empty.
pub proof fn law_window_can_advance<N>(buckets: Seq<BucketView<N>>, now: u64)
    ensures
        buckets.len() == 0 ==> can_advance(buckets, now),
        buckets.len() > 0 && buckets[buckets.len() - 1].sec == now ==> can_advance(buckets, now),
        buckets.len() > 0 && buckets[buckets.len() - 1].sec < 0xffff_ffff_ffff_ffff && now
            < 0xffff_ffff_ffff_ffff ==> can_advance(buckets, now),
{
}

} // verus!
