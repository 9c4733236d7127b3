//! The rolling buffer of a device's charge readings.

use std::collections::VecDeque;

use vstd::prelude::*;

use crate::chart;
use crate::double::{Double, INFINITY_BITS, SIGN_BIT};
use crate::messages::{Point, Stats};

verus! {

/// How many of the newest readings are known whatever the capacity of a buffer.
pub const RECENT_COUNT: usize = 100;

/// Mean and root-mean-square deviation of the values in a buffer.
#[derive(Clone, Copy, Debug, PartialEq, Eq, Structural)]
pub struct Moments {
    pub mean: Double,
    pub rmsd: Double,
}

/// Whether `m` is the least of the values in `s` that are numbers, or infinity if none is.
pub open spec fn is_least(s: Seq<Point>, m: Double) -> bool {
    &&& !m.nan()
    &&& forall|i: int| 0 <= i < s.len() ==> !(#[trigger] s[i]).value.below(m)
    &&& m.bits == INFINITY_BITS || exists|i: int|
        0 <= i < s.len() && (#[trigger] s[i]).value == m
}

/// Whether `m` is the greatest of the values in `s` that are numbers, or negative infinity
/// if none is.
pub open spec fn is_greatest(s: Seq<Point>, m: Double) -> bool {
    &&& !m.nan()
    &&& forall|i: int| 0 <= i < s.len() ==> !m.below((#[trigger] s[i]).value)
    &&& m.bits == INFINITY_BITS + SIGN_BIT || exists|i: int|
        0 <= i < s.len() && (#[trigger] s[i]).value == m
}

/// The newest readings of a device, at most as many as its capacity.
///
/// The extrema are kept up to date as readings come and go: they are sought anew only when
/// one of them leaves. Mean and deviation are held for whoever accumulates them.
///
/// Beside what the buffer holds for display, the newest hundred readings are known whatever its
/// capacity is, and though it is cleared.
#[derive(Clone, Debug)]
pub struct RollingBuffer {
    data: VecDeque<Point>,
    newest: VecDeque<Point>,
    capacity: usize,
    total_pushed: u64,
    moments: Moments,
    min: Double,
    max: Double,
    extrema_dirty: bool,
}

impl RollingBuffer {
    /// The readings, oldest first.
    pub closed spec fn held(self) -> Seq<Point> {
        self.data@
    }

    /// The newest readings that were ever pushed, oldest first.
    pub closed spec fn recent(self) -> Seq<Point> {
        self.newest@
    }

    pub closed spec fn cap(self) -> nat {
        self.capacity as nat
    }

    /// How many readings were ever pushed, modulo 2^64.
    pub closed spec fn pushed(self) -> u64 {
        self.total_pushed
    }

    pub closed spec fn moments_view(self) -> Moments {
        self.moments
    }

    /// The statistics of the readings.
    pub closed spec fn stats(self) -> Stats {
        if self.data@.len() == 0 {
            crate::messages::no_stats()
        } else {
            Stats {
                mean: self.moments.mean,
                min: self.min,
                max: self.max,
                rmsd: self.moments.rmsd,
            }
        }
    }

    /// The extrema are those of the readings, and no more of the newest are kept than that.
    pub closed spec fn wf(self) -> bool {
        &&& self.newest@.len() <= RECENT_COUNT
        &&& !self.extrema_dirty
        &&& is_least(self.data@, self.min)
        &&& is_greatest(self.data@, self.max)
    }

    /// The buffer holds no more than it has room for, and no more than were ever pushed. That
    /// holds of every buffer until its count of readings starts anew.
    pub open spec fn is_counted(self) -> bool {
        &&& self.held().len() <= self.cap() || self.held().len() <= 1
        &&& self.held().len() <= self.pushed()
    }

    spec fn extrema_known(self) -> bool {
        self.extrema_dirty || (is_least(self.data@, self.min) && is_greatest(self.data@, self.max))
    }

    pub fn new(capacity: usize) -> (res: RollingBuffer)
        ensures
            res.wf(),
            res.is_counted(),
            res.held() == Seq::<Point>::empty(),
            res.recent() == Seq::<Point>::empty(),
            res.cap() == capacity,
            res.pushed() == 0,
            res.stats() == crate::messages::no_stats(),
            res.moments_view() == (Moments { mean: Double { bits: 0 }, rmsd: Double { bits: 0 } }),
    {
        let res = RollingBuffer {
            data: VecDeque::new(),
            newest: VecDeque::new(),
            capacity,
            total_pushed: 0,
            moments: Moments { mean: Double::zero(), rmsd: Double::zero() },
            min: Double::infinity(),
            max: Double::neg_infinity(),
            extrema_dirty: false,
        };
        res
    }

    /// Appends a reading, making room for it by dropping the oldest, which is returned.
    pub fn push(&mut self, timestamp: Double, value: Double) -> (res: Option<Point>)
        requires
            old(self).wf(),
        ensures
            final(self).wf(),
            old(self).is_counted() && old(self).pushed() < u64::MAX ==> final(self).is_counted(),
            final(self).held() == chart::appended(
                old(self).held(),
                seq![Point { timestamp, value }],
                old(self).cap(),
            ),
            final(self).recent() == chart::appended(
                old(self).recent(),
                seq![Point { timestamp, value }],
                RECENT_COUNT as nat,
            ),
            final(self).cap() == old(self).cap(),
            final(self).pushed() == (if old(self).pushed() == u64::MAX {
                0
            } else {
                (old(self).pushed() + 1) as u64
            }),
            final(self).moments_view() == old(self).moments_view(),
            res == (if old(self).held().len() >= old(self).cap() && old(self).held().len() > 0 {
                Some(old(self).held()[0])
            } else {
                None
            }),
    {
        let evicted = if self.data.len() >= self.capacity {
            self.evict_front()
        } else {
            None
        };
        let ghost kept = self.data@;
        let point = Point { timestamp, value };
        self.data.push_back(point);
        assert(self.data@ =~= chart::appended(old(self).data@, seq![point], self.capacity as nat));
        if self.extrema_dirty {
            self.recompute_extrema();
        } else {
            self.include_value(Ghost(kept), point);
        }
        if self.newest.len() >= RECENT_COUNT {
            let _ = self.newest.pop_front();
        }
        self.newest.push_back(point);
        assert(self.newest@ =~= chart::appended(
            old(self).newest@,
            seq![point],
            RECENT_COUNT as nat,
        ));
        self.total_pushed = self.total_pushed.wrapping_add(1);
        evicted
    }

    /// Takes the newest reading into the extrema of the others.
    fn include_value(&mut self, Ghost(kept): Ghost<Seq<Point>>, point: Point)
        requires
            old(self).data@ == kept.push(point),
            is_least(kept, old(self).min),
            is_greatest(kept, old(self).max),
        ensures
            final(self).data == old(self).data,
            final(self).newest == old(self).newest,
            final(self).capacity == old(self).capacity,
            final(self).total_pushed == old(self).total_pushed,
            final(self).moments == old(self).moments,
            final(self).extrema_dirty == old(self).extrema_dirty,
            is_least(final(self).data@, final(self).min),
            is_greatest(final(self).data@, final(self).max),
    {
        let v = point.value;
        let ghost all = self.data@;
        let ghost n = kept.len() as int;
        proof {
            assert(all[n] == point);
            assert forall|i: int| 0 <= i < n implies all[i] == kept[i] by {}
        }
        let ghost low = self.min;
        if v.lt(self.min) {
            self.min = v;
        } else {
            proof {
                if low.bits != INFINITY_BITS {
                    let i = choose|i: int| 0 <= i < n && (#[trigger] kept[i]).value == low;
                    assert(all[i].value == low);
                }
            }
        }
        let ghost high = self.max;
        if self.max.lt(v) {
            self.max = v;
        } else {
            proof {
                if high.bits != INFINITY_BITS + SIGN_BIT {
                    let i = choose|i: int| 0 <= i < n && (#[trigger] kept[i]).value == high;
                    assert(all[i].value == high);
                }
            }
        }
    }

    /// Drops the oldest reading.
    fn evict_front(&mut self) -> (res: Option<Point>)
        requires
            old(self).extrema_known(),
        ensures
            final(self).extrema_known(),
            final(self).newest == old(self).newest,
            final(self).capacity == old(self).capacity,
            final(self).total_pushed == old(self).total_pushed,
            final(self).moments == old(self).moments,
            old(self).data@.len() == 0 ==> res is None && final(self).data@ == old(self).data@,
            old(self).data@.len() > 0 ==> res == Some(old(self).data@[0]) && final(self).data@
                == old(self).data@.skip(1),
    {
        let ghost was = self.data@;
        match self.data.pop_front() {
            Some(p) => {
                let v = p.value;
                assert(self.data@ =~= was.skip(1));
                if v.same_value(self.min) || v.same_value(self.max) {
                    self.extrema_dirty = true;
                } else if !self.extrema_dirty {
                    proof {
                        let low = self.min;
                        let high = self.max;
                        assert forall|i: int| 0 <= i < self.data@.len() implies self.data@[i]
                            == was[i + 1] by {}
                        if low.bits != INFINITY_BITS {
                            let i = choose|i: int| 0 <= i < was.len() && (#[trigger] was[i]).value == low;
                            assert(i != 0);
                            assert(self.data@[i - 1].value == low);
                        }
                        if high.bits != INFINITY_BITS + SIGN_BIT {
                            let i = choose|i: int|
                                0 <= i < was.len() && (#[trigger] was[i]).value == high;
                            assert(i != 0);
                            assert(self.data@[i - 1].value == high);
                        }
                    }
                }
                Some(p)
            },
            None => None,
        }
    }

    /// Seeks the extrema anew.
    fn recompute_extrema(&mut self)
        requires
            old(self).newest@.len() <= RECENT_COUNT,
        ensures
            final(self).wf(),
            final(self).data == old(self).data,
            final(self).newest == old(self).newest,
            final(self).capacity == old(self).capacity,
            final(self).total_pushed == old(self).total_pushed,
            final(self).moments == old(self).moments,
    {
        let mut low = Double::infinity();
        let mut high = Double::neg_infinity();
        let mut i: usize = 0;
        while i < self.data.len()
            invariant
                i <= self.data@.len(),
                is_least(self.data@.take(i as int), low),
                is_greatest(self.data@.take(i as int), high),
            decreases self.data@.len() - i,
        {
            let v: Double = self.data[i].value;
            proof {
                let seen = self.data@.take(i as int);
                let more = self.data@.take(i as int + 1);
                assert(more[i as int].value == v);
                assert forall|k: int| 0 <= k < i implies more[k] == seen[k] by {}
                if low.bits != INFINITY_BITS {
                    let k = choose|k: int| 0 <= k < seen.len() && (#[trigger] seen[k]).value == low;
                    assert(more[k].value == low);
                }
                if high.bits != INFINITY_BITS + SIGN_BIT {
                    let k = choose|k: int| 0 <= k < seen.len() && (#[trigger] seen[k]).value == high;
                    assert(more[k].value == high);
                }
            }
            if v.lt(low) {
                low = v;
            }
            if high.lt(v) {
                high = v;
            }
            i += 1;
        }
        assert(self.data@.take(i as int) =~= self.data@);
        self.min = low;
        self.max = high;
        self.extrema_dirty = false;
    }

    /// How many readings there are.
    pub fn len(&self) -> (res: usize)
        ensures
            res == self.held().len(),
    {
        self.data.len()
    }

    /// How many readings were ever pushed, modulo 2^64.
    pub fn total_pushed(&self) -> (res: u64)
        ensures
            res == self.pushed(),
    {
        self.total_pushed
    }

    /// Changes the capacity. The oldest readings that no longer fit are dropped and returned.
    pub fn set_capacity(&mut self, new_capacity: usize) -> (res: Vec<Point>)
        requires
            old(self).wf(),
        ensures
            final(self).wf(),
            old(self).is_counted() ==> final(self).is_counted(),
            final(self).cap() == new_capacity,
            final(self).held() == chart::last_of(old(self).held(), new_capacity as nat),
            final(self).recent() == old(self).recent(),
            res@ + final(self).held() == old(self).held(),
            final(self).pushed() == old(self).pushed(),
            final(self).moments_view() == old(self).moments_view(),
    {
        self.capacity = new_capacity;
        let mut evicted: Vec<Point> = Vec::new();
        let ghost all = self.data@;
        assert(all.skip(0) =~= all);
        assert(all.take(0) =~= evicted@);
        while self.data.len() > new_capacity
            invariant
                self.extrema_known(),
                self.newest == old(self).newest,
                self.capacity == new_capacity,
                self.total_pushed == old(self).total_pushed,
                self.moments == old(self).moments,
                evicted@.len() <= all.len(),
                evicted@ == all.take(evicted@.len() as int),
                self.data@ == all.skip(evicted@.len() as int),
                self.data@.len() >= new_capacity || evicted@.len() == 0,
            decreases self.data@.len(),
        {
            let ghost k = evicted@.len() as int;
            if let Some(p) = self.evict_front() {
                evicted.push(p);
            }
            assert(evicted@ =~= all.take(k + 1));
            assert(self.data@ =~= all.skip(k + 1));
        }
        if self.extrema_dirty {
            self.recompute_extrema();
        }
        assert(evicted@ + self.data@ =~= all);
        assert(self.data@ =~= chart::last_of(all, new_capacity as nat));
        evicted
    }

    /// Records mean and deviation of the values.
    pub fn set_moments(&mut self, moments: Moments)
        requires
            old(self).wf(),
        ensures
            final(self).wf(),
            old(self).is_counted() ==> final(self).is_counted(),
            final(self).held() == old(self).held(),
            final(self).recent() == old(self).recent(),
            final(self).cap() == old(self).cap(),
            final(self).pushed() == old(self).pushed(),
            final(self).moments_view() == moments,
    {
        self.moments = moments;
    }

    /// The statistics of the readings: the recorded moments, and the extrema of the values
    /// that are numbers. All are zero when there are no readings.
    pub fn statistics(&self) -> (res: Stats)
        requires
            self.wf(),
        ensures
            res == self.stats(),
            is_statistics(*self, res),
    {
        if self.data.len() == 0 {
            return Stats::default();
        }
        Stats { mean: self.moments.mean, min: self.min, max: self.max, rmsd: self.moments.rmsd }
    }

    /// The readings, oldest first.
    pub fn as_points(&self) -> (res: Vec<Point>)
        ensures
            res@ == self.held(),
    {
        let res = self.last_points(self.data.len());
        assert(res@ =~= self.data@);
        res
    }

    /// The newest `n` readings, or all of them if there are fewer, oldest first.
    pub fn last_points(&self, n: usize) -> (res: Vec<Point>)
        ensures
            res@ == chart::last_of(self.held(), n as nat),
    {
        let len: usize = self.data.len();
        let mut i: usize = if n < len {
            len - n
        } else {
            0
        };
        let ghost from = i as int;
        let mut out: Vec<Point> = Vec::new();
        while i < len
            invariant
                0 <= from <= i <= len,
                len == self.data@.len(),
                out@ == self.data@.subrange(from, i as int),
            decreases len - i,
        {
            out.push(self.data[i]);
            assert(out@ =~= self.data@.subrange(from, i as int + 1));
            i += 1;
        }
        assert(out@ =~= chart::last_of(self.data@, n as nat));
        out
    }

    /// The newest readings that were ever pushed, oldest first: a hundred of them, or all if there
    /// were fewer.
    pub fn recent_points(&self) -> (res: Vec<Point>)
        ensures
            res@ == self.recent(),
    {
        let mut out: Vec<Point> = Vec::new();
        let mut i: usize = 0;
        while i < self.newest.len()
            invariant
                i <= self.newest@.len(),
                out@ == self.newest@.take(i as int),
            decreases self.newest@.len() - i,
        {
            out.push(self.newest[i]);
            assert(out@ =~= self.newest@.take(i as int + 1));
            i += 1;
        }
        assert(self.newest@.take(i as int) =~= self.newest@);
        out
    }

    /// Empties the buffer. The readings still count as pushed, and the newest are still known.
    pub fn clear(&mut self)
        requires
            old(self).wf(),
        ensures
            final(self).wf(),
            final(self).is_counted(),
            final(self).recent() == old(self).recent(),
            final(self).stats() == crate::messages::no_stats(),
            final(self).held() == Seq::<Point>::empty(),
            final(self).cap() == old(self).cap(),
            final(self).pushed() == old(self).pushed(),
            final(self).moments_view() == (Moments {
                mean: Double { bits: 0 },
                rmsd: Double { bits: 0 },
            }),
    {
        self.data.clear();
        self.moments = Moments { mean: Double::zero(), rmsd: Double::zero() };
        self.min = Double::infinity();
        self.max = Double::neg_infinity();
        self.extrema_dirty = false;
    }
}

/// Whether `stats` are the statistics of a buffer.
pub open spec fn is_statistics(buffer: RollingBuffer, stats: Stats) -> bool {
    if buffer.held().len() == 0 {
        stats == crate::messages::no_stats()
    } else {
        &&& stats.mean == buffer.moments_view().mean
        &&& stats.rmsd == buffer.moments_view().rmsd
        &&& is_least(buffer.held(), stats.min)
        &&& is_greatest(buffer.held(), stats.max)
    }
}

/// No more of the newest readings are known than that.
pub proof fn recent_is_bounded(buffer: RollingBuffer)
    requires
        buffer.wf(),
    ensures
        buffer.recent().len() <= RECENT_COUNT,
{
}

/// Whether a buffer is what another became when readings were pushed to it, one after the other,
/// while its count did not start anew.
pub open spec fn is_extended(was: RollingBuffer, now: RollingBuffer, fresh: Seq<Point>) -> bool {
    &&& now.cap() == was.cap()
    &&& now.pushed() == was.pushed() + fresh.len()
    &&& now.held() == chart::appended(was.held(), fresh, was.cap())
}

/// Each push extends a buffer by one more reading.
pub proof fn push_extends(
    was: RollingBuffer,
    between: RollingBuffer,
    now: RollingBuffer,
    fresh: Seq<Point>,
    reading: Point,
)
    requires
        is_extended(was, between, fresh),
        is_extended(between, now, seq![reading]),
    ensures
        is_extended(was, now, fresh.push(reading)),
{
    chart::appended_twice(was.held(), fresh, seq![reading], was.cap());
    assert(fresh + seq![reading] =~= fresh.push(reading));
}

/// A copy of a buffer that is sent the newest readings after some were pushed is a copy again: no
/// reading is lost, doubled or out of order, however many are sent beyond those that are fresh, and
/// though more were pushed than the buffer holds. Sent the same once more, it stays one.
pub proof fn delta_follows_buffer(
    was: RollingBuffer,
    now: RollingBuffer,
    fresh: Seq<Point>,
    n: nat,
)
    requires
        was.is_counted(),
        was.cap() > 0,
        is_extended(was, now, fresh),
        fresh.len() <= n,
    ensures
        ({
            let sent = chart::last_of(now.held(), n);
            let copy = chart::after_delta(was.held(), was.pushed(), sent, now.pushed(), was.cap());
            &&& copy == now.held()
            &&& chart::after_delta(copy, now.pushed(), sent, now.pushed(), was.cap()) == copy
        }),
{
    if fresh.len() == 0 {
        assert(chart::appended(was.held(), fresh, was.cap()) =~= was.held());
    } else {
        chart::delta_keeps_in_sync(was.held(), was.pushed(), fresh, n, was.cap());
    }
}

/// The extrema in the statistics are those of the readings that are held, by their values: no number
/// is less than the one or greater than the other, and both are among them if there is any. Without
/// readings all are zero.
pub proof fn extrema_are_of_the_readings(buffer: RollingBuffer, stats: Stats)
    requires
        is_statistics(buffer, stats),
    ensures
        forall|i: int|
            0 <= i < buffer.held().len() && !(#[trigger] buffer.held()[i]).value.nan()
                ==> stats.min.rank() <= buffer.held()[i].value.rank() <= stats.max.rank(),
        (exists|i: int|
            0 <= i < buffer.held().len() && !(#[trigger] buffer.held()[i]).value.nan()) ==> exists|
            i: int,
        |
            0 <= i < buffer.held().len() && (#[trigger] buffer.held()[i]).value.rank()
                == stats.min.rank(),
        (exists|i: int|
            0 <= i < buffer.held().len() && !(#[trigger] buffer.held()[i]).value.nan()) ==> exists|
            i: int,
        |
            0 <= i < buffer.held().len() && (#[trigger] buffer.held()[i]).value.rank()
                == stats.max.rank(),
        buffer.held().len() == 0 ==> stats.mean.bits == 0 && stats.min.bits == 0 && stats.max.bits
            == 0 && stats.rmsd.bits == 0,
{
    if exists|i: int| 0 <= i < buffer.held().len() && !(#[trigger] buffer.held()[i]).value.nan() {
        let k = choose|k: int|
            0 <= k < buffer.held().len() && !(#[trigger] buffer.held()[k]).value.nan();
        if stats.min.bits == INFINITY_BITS {
            assert(!buffer.held()[k].value.below(stats.min));
            assert(buffer.held()[k].value.rank() == stats.min.rank());
        }
        if stats.max.bits == INFINITY_BITS + SIGN_BIT {
            assert(!stats.max.below(buffer.held()[k].value));
            assert(buffer.held()[k].value.rank() == stats.max.rank());
        }
    }
}

}
