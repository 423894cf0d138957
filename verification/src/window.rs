//! The sliding window of request metrics: one bucket for each second.

use std::collections::VecDeque;

use hdrhistogram::CreationError;
use vstd::prelude::*;

use crate::durations::{self, bounds, recorded, Durations};
use crate::window_model::{
    adds_up, all_durations, can_advance, extended, fresh, is_p95, lemma_adds_up_more, lemma_at,
    lemma_at_twice, lemma_fewer_durations, lemma_is_p95, oldest_shown, partial_sums, pruned,
    recent_counts, request_counts, window_bounds, BucketView, Snapshot, StateView, DIGITS,
    LONGEST_MS, PERCENTILE, SHORTEST_MS,
};

verus! {

/// Why the window could not be brought up to date.
#[derive(Debug)]
pub enum WindowError {
    /// A histogram could not be made.
    HistInit(CreationError),
    /// The window holds more durations than can be counted.
    TooManyDurations,
}

/// What a metric tells about the server. `N` is the type of a request count.
#[derive(Debug)]
pub enum Sample<N> {
    /// So many requests were served.
    Requests(N),
    /// A request took so many milliseconds.
    DurationMs(u64),
    /// So many workers are running.
    Workers(i32),
}

/// What was counted during one second. `N` is the type of a request count.
pub struct Bucket<N> {
    sec: u64,
    req_count: N,
    hist: Durations,
}

impl<N> View for Bucket<N> {
    type V = BucketView<N>;

    closed spec fn view(&self) -> BucketView<N> {
        BucketView { sec: self.sec, req_count: self.req_count, durations: recorded(self.hist) }
    }
}

/// The metrics of the last seconds.
pub struct State<N> {
    window_seconds: u64,
    zero: N,
    buckets: VecDeque<Bucket<N>>,
    workers_gauge: Option<i32>,
}

impl<N> View for State<N> {
    type V = StateView<N>;

    closed spec fn view(&self) -> StateView<N> {
        StateView {
            window_seconds: self.window_seconds,
            zero: self.zero,
            buckets: self.buckets@.map_values(|b: Bucket<N>| b@),
            workers_gauge: self.workers_gauge,
        }
    }
}

impl<N> State<N> {
    /// Whether all histograms have the window's bounds.
    pub closed spec fn wf_hists(&self) -> bool {
        forall|i: int|
            0 <= i < self.buckets@.len() ==> bounds(#[trigger] self.buckets@[i].hist)
                == window_bounds()
    }

    /// Whether the window is well-formed, and all its histograms have the window's bounds.
    pub open spec fn wf(&self) -> bool {
        &&& self@.wf()
        &&& self.wf_hists()
    }
}

impl<N: Copy> State<N> {
    /// An empty window. `zero` is the request count of a second without requests.
    pub fn new(window_seconds: u64, zero: N) -> (res: State<N>)
        ensures
            res.wf(),
            res@ == (StateView {
                window_seconds,
                zero,
                buckets: Seq::<BucketView<N>>::empty(),
                workers_gauge: None::<i32>,
            }),
    {
        let res = State { window_seconds, zero, buckets: VecDeque::new(), workers_gauge: None };
        assert(res@.buckets =~= Seq::<BucketView<N>>::empty());
        res
    }

    /// A bucket for a second in which nothing was counted yet.
    fn fresh_bucket(&self, sec: u64) -> (res: Result<Bucket<N>, WindowError>)
        ensures
            res matches Ok(b) && b@ == fresh(sec as int, self@.zero) && bounds(b.hist)
                == window_bounds(),
    {
        match durations::new_with_bounds(SHORTEST_MS, LONGEST_MS, DIGITS) {
            Ok(hist) => Ok(Bucket { sec, req_count: self.zero, hist }),
            Err(e) => Err(WindowError::HistInit(e)),
        }
    }

    /// Brings the window up to second `now_sec`: adds a bucket for each second since the last
    /// one, and drops those that the window no longer shows.
    pub fn ensure_bucket(&mut self, now_sec: u64) -> (res: Result<(), WindowError>)
        requires
            old(self).wf(),
            can_advance(old(self)@.buckets, now_sec),
        ensures
            res is Ok,
            final(self).wf(),
            final(self)@ == old(self)@.at(now_sec),
            final(self)@.buckets.len() > 0,
    {
        let ghost start = self@;
        let len: usize = self.buckets.len();
        proof {
            lemma_at(start, now_sec);
        }
        if len > 0 && self.buckets[len - 1].sec == now_sec {
            return Ok(());
        }
        if len == 0 {
            let bucket = self.fresh_bucket(now_sec)?;
            self.buckets.push_back(bucket);
        } else {
            let ghost last = start.buckets.last().sec;
            let mut sec: u64 = self.buckets[len - 1].sec + 1;
            while sec <= now_sec
                invariant
                    now_sec < u64::MAX,
                    sec > last,
                    self@.buckets == start.buckets + Seq::new(
                        (sec - last - 1) as nat,
                        |i: int| fresh(last + 1 + i, start.zero),
                    ),
                    sec <= now_sec + 1 || sec == last + 1,
                    self.wf_hists(),
                    self.window_seconds == start.window_seconds,
                    self.zero == start.zero,
                    self.workers_gauge == start.workers_gauge,
                decreases now_sec + 1 - sec,
            {
                let ghost before = self@.buckets;
                let bucket = self.fresh_bucket(sec)?;
                self.buckets.push_back(bucket);
                assert(self@.buckets =~= before.push(bucket@));
                sec += 1;
            }
        }
        let ghost ext = extended(start.buckets, now_sec, start.zero);
        assert(self@.buckets =~= ext);
        let min_keep: u64 = now_sec.saturating_sub(self.window_seconds.saturating_sub(1));
        assert(min_keep == oldest_shown(now_sec, start.window_seconds));
        while self.buckets.len() > 0 && self.buckets[0].sec < min_keep
            invariant
                pruned(self@.buckets, min_keep as int) == pruned(ext, min_keep as int),
                self.wf_hists(),
                self.window_seconds == start.window_seconds,
                self.zero == start.zero,
                self.workers_gauge == start.workers_gauge,
            decreases self.buckets@.len(),
        {
            let ghost before = self@.buckets;
            let _ = self.buckets.pop_front();
            assert(self@.buckets =~= before.drop_first());
        }
        Ok(())
    }

    /// Counts requests in the bucket of second `now_sec`.
    pub fn ingest_request<A: Fn(N, N) -> N>(
        &mut self,
        now_sec: u64,
        count: N,
        plus: A,
    ) -> (res: Result<(), WindowError>)
        requires
            old(self).wf(),
            can_advance(old(self)@.buckets, now_sec),
            call_requires(plus, (old(self)@.at(now_sec).newest().req_count, count)),
        ensures
            res is Ok,
            final(self).wf(),
            call_ensures(
                plus,
                (old(self)@.at(now_sec).newest().req_count, count),
                final(self)@.newest().req_count,
            ),
            final(self)@ == old(self)@.with_requests(now_sec, final(self)@.newest().req_count),
    {
        self.ensure_bucket(now_sec)?;
        let ghost there = self@;
        if let Some(mut b) = self.buckets.pop_back() {
            b.req_count = plus(b.req_count, count);
            self.buckets.push_back(b);
            assert(self@.buckets =~= there.with_newest(b@).buckets);
        }
        Ok(())
    }

    /// Records a duration in the bucket of second `now_sec`.
    pub fn ingest_duration_ms(&mut self, now_sec: u64, ms: u64) -> (res: Result<(), WindowError>)
        requires
            old(self).wf(),
            can_advance(old(self)@.buckets, now_sec),
        ensures
            res is Ok,
            final(self).wf(),
            final(self)@ == old(self)@.with_duration(now_sec, ms),
    {
        self.ensure_bucket(now_sec)?;
        let ghost there = self@;
        if let Some(mut b) = self.buckets.pop_back() {
            let ms: u64 = if ms < SHORTEST_MS {
                SHORTEST_MS
            } else if ms > LONGEST_MS {
                LONGEST_MS
            } else {
                ms
            };
            let _ = durations::record(&mut b.hist, ms);
            self.buckets.push_back(b);
            assert(self@.buckets =~= there.with_newest(b@).buckets);
        }
        Ok(())
    }

    /// Takes in what a metric tells.
    pub fn ingest<A: Fn(N, N) -> N>(
        &mut self,
        now_sec: u64,
        sample: Sample<N>,
        plus: A,
    ) -> (res: Result<(), WindowError>)
        requires
            old(self).wf(),
            sample !is Workers ==> can_advance(old(self)@.buckets, now_sec),
            sample matches Sample::Requests(count) ==> call_requires(
                plus,
                (old(self)@.at(now_sec).newest().req_count, count),
            ),
        ensures
            res is Ok,
            final(self).wf(),
            match sample {
                Sample::Requests(count) => call_ensures(
                    plus,
                    (old(self)@.at(now_sec).newest().req_count, count),
                    final(self)@.newest().req_count,
                ) && final(self)@ == old(self)@.with_requests(
                    now_sec,
                    final(self)@.newest().req_count,
                ),
                Sample::DurationMs(ms) => final(self)@ == old(self)@.with_duration(now_sec, ms),
                Sample::Workers(n) => final(self)@ == (StateView {
                    workers_gauge: Some(n),
                    ..old(self)@
                }),
            },
    {
        match sample {
            Sample::Requests(count) => self.ingest_request(now_sec, count, plus),
            Sample::DurationMs(ms) => self.ingest_duration_ms(now_sec, ms),
            Sample::Workers(n) => {
                self.workers_gauge = Some(n);
                Ok(())
            },
        }
    }

    /// Sums up the window at second `now_sec`, and the last `short_window_s` seconds of it.
    pub fn snapshot<A: Fn(N, N) -> N>(
        &mut self,
        now_sec: u64,
        short_window_s: u64,
        plus: A,
    ) -> (res: Result<Snapshot<N>, WindowError>)
        requires
            old(self).wf(),
            can_advance(old(self)@.buckets, now_sec),
            forall|a: N, b: N| #[trigger] call_requires(plus, (a, b)),
            all_durations(old(self)@.at(now_sec).buckets).len() <= u64::MAX,
        ensures
            final(self).wf(),
            final(self)@ == old(self)@.at(now_sec),
            res matches Ok(snap) && final(self)@.summed_up(snap, now_sec, short_window_s, plus)
                && is_p95(all_durations(final(self)@.buckets), snap.p95_ms),
    {
        self.ensure_bucket(now_sec)?;
        let ghost buckets = self@.buckets;
        let mut total: N = self.zero;
        assert(partial_sums(plus, total, Seq::<N>::empty(), seq![total]));
        assert(request_counts(buckets.take(0)) =~= Seq::<N>::empty());
        let mut merged = match durations::new_with_bounds(SHORTEST_MS, LONGEST_MS, DIGITS) {
            Ok(hist) => hist,
            Err(e) => {
                return Err(WindowError::HistInit(e));
            },
        };
        let len: usize = self.buckets.len();
        let mut i: usize = 0;
        while i < len
            invariant
                i <= len == buckets.len() == self.buckets@.len(),
                buckets == self@.buckets,
                self.wf_hists(),
                forall|a: N, b: N| #[trigger] call_requires(plus, (a, b)),
                adds_up(plus, self.zero, request_counts(buckets.take(i as int)), total),
                recorded(merged) == all_durations(buckets.take(i as int)),
                bounds(merged) == window_bounds(),
            decreases len - i,
        {
            let b = &self.buckets[i];
            let ghost done = buckets.take(i as int);
            let ghost more = buckets.take(i + 1);
            assert(more.drop_last() =~= done);
            assert(more.last() == b@);
            assert(request_counts(more) =~= request_counts(done).push(b.req_count));
            let ghost before = total;
            total = plus(total, b.req_count);
            proof {
                lemma_adds_up_more(
                    plus,
                    self.zero,
                    request_counts(done),
                    before,
                    b.req_count,
                    total,
                );
            }
            let _ = durations::add_all(&mut merged, &b.hist);
            i += 1;
        }
        assert(buckets.take(len as int) =~= buckets);
        let p95_ms: u64 = if durations::count(&merged) == 0 {
            0
        } else {
            durations::value_at_percentile(&merged, PERCENTILE)
        };
        proof {
            lemma_is_p95(all_durations(buckets), p95_ms);
        }

        let n: u64 = if short_window_s == 0 {
            1
        } else {
            short_window_s
        };
        let min_sec: u64 = now_sec.saturating_sub(n.saturating_sub(1));
        let mut short_total: N = self.zero;
        let mut left: usize = len;
        let ghost mut done = Seq::<N>::empty();
        let ghost recent = recent_counts(buckets, min_sec as int);
        while left > 0 && self.buckets[left - 1].sec >= min_sec
            invariant
                left <= len == buckets.len() == self.buckets@.len(),
                buckets == self@.buckets,
                forall|a: N, b: N| #[trigger] call_requires(plus, (a, b)),
                adds_up(plus, self.zero, done, short_total),
                recent == done + recent_counts(buckets.take(left as int), min_sec as int),
            decreases left,
        {
            let b = &self.buckets[left - 1];
            let ghost part = buckets.take(left as int);
            assert(part.last() == b@);
            assert(part.drop_last() =~= buckets.take(left - 1));
            let ghost before = short_total;
            short_total = plus(short_total, b.req_count);
            proof {
                lemma_adds_up_more(plus, self.zero, done, before, b.req_count, short_total);
                done = done.push(b.req_count);
                assert(recent =~= done + recent_counts(buckets.take(left - 1), min_sec as int));
            }
            left -= 1;
        }
        assert(recent =~= done);
        Ok(
            Snapshot {
                total,
                window_seconds: if self.window_seconds == 0 {
                    1
                } else {
                    self.window_seconds
                },
                p95_ms,
                workers_gauge: self.workers_gauge,
                short_total,
                short_seconds: n,
            },
        )
    }

    /// Sums up the window as `snapshot` does, unless it holds more durations than can be
    /// counted.
    pub fn checked_snapshot<A: Fn(N, N) -> N>(
        &mut self,
        now_sec: u64,
        short_window_s: u64,
        plus: A,
    ) -> (res: Result<Snapshot<N>, WindowError>)
        requires
            old(self).wf(),
            can_advance(old(self)@.buckets, now_sec),
            forall|a: N, b: N| #[trigger] call_requires(plus, (a, b)),
        ensures
            final(self).wf(),
            final(self)@ == old(self)@.at(now_sec),
            match res {
                Ok(snap) => all_durations(final(self)@.buckets).len() < u64::MAX
                    && final(self)@.summed_up(snap, now_sec, short_window_s, plus) && is_p95(
                    all_durations(final(self)@.buckets),
                    snap.p95_ms,
                ),
                Err(e) => e is TooManyDurations && all_durations(final(self)@.buckets).len()
                    >= u64::MAX,
            },
    {
        self.ensure_bucket(now_sec)?;
        let ghost buckets = self@.buckets;
        let len: usize = self.buckets.len();
        let mut sum: u64 = 0;
        let mut i: usize = 0;
        while i < len
            invariant
                i <= len == buckets.len() == self.buckets@.len(),
                buckets == self@.buckets,
                self@ == old(self)@.at(now_sec),
                self.wf(),
                sum == all_durations(buckets.take(i as int)).len(),
                sum < u64::MAX,
            decreases len - i,
        {
            let ghost more = buckets.take(i + 1);
            assert(more.drop_last() =~= buckets.take(i as int));
            assert(more.last() == self.buckets@[i as int]@);
            let n: u64 = durations::count(&self.buckets[i].hist);
            if n >= u64::MAX - sum {
                proof {
                    lemma_fewer_durations(buckets, i + 1);
                }
                return Err(WindowError::TooManyDurations);
            }
            sum += n;
            i += 1;
        }
        assert(buckets.take(len as int) =~= buckets);
        proof {
            lemma_at_twice(old(self)@, now_sec);
        }
        self.snapshot(now_sec, short_window_s, plus)
    }
}

} // verus!
