//! A client's copy of a device's rolling buffer, kept up to date by snapshots and deltas.
//!
//! Every reading has a number, counted by the server from one. A snapshot or a delta carries
//! the number of its last reading, the cursor, from which the client tells what it already has.

use std::collections::VecDeque;

use vstd::prelude::*;

use crate::messages::Point;

verus! {

/// The newest `n` elements of `s`, or all of them if there are fewer.
pub open spec fn last_of<T>(s: Seq<T>, n: nat) -> Seq<T> {
    if s.len() <= n {
        s
    } else {
        s.skip(s.len() - n)
    }
}

/// How many of the oldest elements leave a buffer of capacity `cap` that holds `len` of them
/// when `k` more are appended. An append never makes room for more than itself, and a
/// buffer keeps what was appended last even if its capacity is zero.
pub open spec fn dropped(len: nat, k: nat, cap: nat) -> nat {
    let room = if cap == 0 {
        1
    } else {
        cap
    };
    if len + k <= room {
        0
    } else if len + k - room >= k {
        k
    } else {
        (len + k - room) as nat
    }
}

/// A rolling buffer of capacity `cap` after `fresh` was appended, element by element.
pub open spec fn appended<T>(held: Seq<T>, fresh: Seq<T>, cap: nat) -> Seq<T> {
    (held + fresh).skip(dropped(held.len(), fresh.len(), cap) as int)
}

/// How many of the `k` readings that end at `cursor` were applied before.
pub open spec fn overlap(applied: u64, k: nat, cursor: u64) -> nat {
    let start = if cursor >= k {
        cursor - k
    } else {
        0
    };
    if applied <= start {
        0
    } else if applied - start >= k {
        k
    } else {
        (applied - start) as nat
    }
}

/// What a buffer holds after a delta of `new_points` that end at `cursor`.
pub open spec fn after_delta<T>(
    held: Seq<T>,
    applied: u64,
    new_points: Seq<T>,
    cursor: u64,
    cap: nat,
) -> Seq<T> {
    if cursor <= applied {
        held
    } else {
        appended(held, new_points.skip(overlap(applied, new_points.len(), cursor) as int), cap)
    }
}

/// The readings that a client holds of one device.
#[derive(Clone, Debug)]
pub struct PointBuffer {
    points: VecDeque<Point>,
    cursor: u64,
}

impl PointBuffer {
    /// The readings, oldest first.
    pub closed spec fn held(self) -> Seq<Point> {
        self.points@
    }

    /// The number of the newest reading that was applied.
    pub closed spec fn applied(self) -> u64 {
        self.cursor
    }

    pub fn new() -> (res: PointBuffer)
        ensures
            res.held() == Seq::<Point>::empty(),
            res.applied() == 0,
    {
        PointBuffer { points: VecDeque::new(), cursor: 0 }
    }

    /// The readings, oldest first.
    pub fn points(&self) -> (res: &VecDeque<Point>)
        ensures
            res@ == self.held(),
    {
        &self.points
    }

    /// The number of the newest reading that was applied.
    pub fn cursor(&self) -> (res: u64)
        ensures
            res == self.applied(),
    {
        self.cursor
    }

    /// Replaces the buffer by a snapshot, as far as it fits.
    pub fn set_snapshot(&mut self, points: Vec<Point>, cursor: u64, cap: usize)
        ensures
            final(self).held() == last_of(points@, cap as nat),
            final(self).applied() == cursor,
    {
        let mut fresh: VecDeque<Point> = VecDeque::new();
        let mut i: usize = 0;
        while i < points.len()
            invariant
                i <= points@.len(),
                fresh@ == points@.take(i as int),
            decreases points@.len() - i,
        {
            fresh.push_back(points[i]);
            assert(fresh@ =~= points@.take(i as int + 1));
            i += 1;
        }
        assert(points@.take(i as int) =~= points@);
        self.points = fresh;
        self.trim(cap);
        self.cursor = cursor;
    }

    /// Appends the readings of a delta that were not applied before. `cursor` is the number
    /// of the last of `new_points`. A delta that brings nothing new is ignored.
    pub fn apply_delta(&mut self, new_points: Vec<Point>, cursor: u64, cap: usize)
        ensures
            final(self).held() == after_delta(
                old(self).held(),
                old(self).applied(),
                new_points@,
                cursor,
                cap as nat,
            ),
            final(self).applied() == (if cursor <= old(self).applied() {
                old(self).applied()
            } else {
                cursor
            }),
    {
        if cursor <= self.cursor {
            return ;
        }
        let len: u64 = new_points.len() as u64;
        let start: u64 = cursor.saturating_sub(len);
        let known: u64 = self.cursor.saturating_sub(start);
        let skip: usize = if known >= len {
            new_points.len()
        } else {
            known as usize
        };
        let ghost was = self.points@;
        let ghost fresh = new_points@.skip(skip as int);
        let mut i: usize = skip;
        assert(appended(was, fresh.take(0), cap as nat) =~= was);
        while i < new_points.len()
            invariant
                skip <= i <= new_points@.len(),
                fresh == new_points@.skip(skip as int),
                self.points@ == appended(was, fresh.take(i - skip), cap as nat),
            decreases new_points@.len() - i,
        {
            let ghost before = self.points@;
            if self.points.len() >= cap {
                self.points.pop_front();
            }
            self.points.push_back(new_points[i]);
            proof {
                let p = new_points@[i as int];
                let done = fresh.take(i - skip);
                assert(fresh.take(i - skip + 1) =~= done.push(p));
                assert(self.points@ =~= appended(before, seq![p], cap as nat));
                appended_twice(was, done, seq![p], cap as nat);
                assert(done + seq![p] =~= done.push(p));
            }
            i += 1;
        }
        assert(fresh.take(i - skip) =~= fresh);
        self.cursor = cursor;
    }

    /// Shrinks the buffer to a new capacity, dropping the oldest readings.
    pub fn set_capacity(&mut self, cap: usize)
        ensures
            final(self).held() == last_of(old(self).held(), cap as nat),
            final(self).applied() == old(self).applied(),
    {
        self.trim(cap);
    }

    fn trim(&mut self, cap: usize)
        ensures
            final(self).held() == last_of(old(self).held(), cap as nat),
            final(self).applied() == old(self).applied(),
    {
        let ghost all = self.points@;
        assert(all.skip(0) =~= all);
        while self.points.len() > cap
            invariant
                self.points@.len() <= all.len(),
                self.points@ == all.skip(all.len() - self.points@.len()),
                self.points@.len() >= cap || self.points@.len() == all.len(),
                self.cursor == old(self).cursor,
            decreases self.points@.len(),
        {
            let ghost before = self.points@;
            self.points.pop_front();
            assert(before.skip(1) =~= all.skip(all.len() - self.points@.len()));
            assert(self.points@ =~= before.skip(1));
        }
    }
}

/// Appending in two steps is appending at once.
pub proof fn appended_twice<T>(held: Seq<T>, a: Seq<T>, b: Seq<T>, cap: nat)
    ensures
        appended(appended(held, a, cap), b, cap) == appended(held, a + b, cap),
{
    let first = appended(held, a, cap);
    let one = dropped(held.len(), a.len(), cap);
    let two = dropped(first.len(), b.len(), cap);
    let both = dropped(held.len(), a.len() + b.len(), cap);
    assert(one + two == both);
    assert(first + b =~= (held + (a + b)).skip(one as int));
    assert((first + b).skip(two as int) =~= (held + (a + b)).skip(both as int));
}

/// A buffer within its capacity stays within it.
pub proof fn appended_stays_within<T>(held: Seq<T>, fresh: Seq<T>, cap: nat)
    requires
        held.len() <= cap,
        cap > 0,
    ensures
        appended(held, fresh, cap) == last_of(held + fresh, cap),
        appended(held, fresh, cap).len() <= cap,
{
    assert(appended(held, fresh, cap) =~= last_of(held + fresh, cap));
}

/// A client that holds what the server held at cursor `applied` holds what the server holds
/// now, once it was sent a delta: the `k` newest readings of the server's buffer, for any `k`
/// that covers what is `fresh` since, however much of the delta the client already has.
pub proof fn delta_keeps_in_sync<T>(held: Seq<T>, applied: u64, fresh: Seq<T>, k: nat, cap: nat)
    requires
        cap > 0,
        held.len() <= cap,
        0 < fresh.len() <= k,
        applied + fresh.len() <= u64::MAX,
        held.len() <= applied,
    ensures
        after_delta(
            held,
            applied,
            last_of(appended(held, fresh, cap), k),
            (applied + fresh.len()) as u64,
            cap,
        ) == appended(held, fresh, cap),
{
    let now = appended(held, fresh, cap);
    let sent = last_of(now, k);
    let cursor = (applied + fresh.len()) as u64;
    appended_stays_within(held, fresh, cap);
    let known = overlap(applied, sent.len(), cursor);
    if fresh.len() <= cap {
        assert(sent.skip(known as int) =~= fresh);
    } else {
        assert(known == 0);
        assert(sent =~= fresh.skip(fresh.len() - cap));
        assert(sent.skip(0) =~= sent);
        assert(appended(held, sent, cap) =~= now);
    }
}

/// Applying a delta again changes nothing.
pub proof fn delta_applies_once<T>(
    held: Seq<T>,
    applied: u64,
    new_points: Seq<T>,
    cursor: u64,
    cap: nat,
)
    ensures
        ({
            let once = after_delta(held, applied, new_points, cursor, cap);
            let at = if cursor <= applied {
                applied
            } else {
                cursor
            };
            after_delta(once, at, new_points, cursor, cap) == once
        }),
{
}

/// A buffer that readings were appended to holds the newest of all of them, as many as fit, in their
/// order.
pub proof fn buffers_hold_the_newest<T>(held: Seq<T>, fresh: Seq<T>, cap: nat)
    requires
        held.len() <= cap,
        cap > 0,
    ensures
        ({
            let all = held + fresh;
            let now = appended(held, fresh, cap);
            &&& now.len() == vstd::math::min(all.len() as int, cap as int)
            &&& forall|k: int|
                0 <= k < now.len() ==> #[trigger] now[k] == all[all.len() - now.len() + k]
        }),
{
}

/// A snapshot that is too long is cut to its newest readings.
pub proof fn snapshots_are_cut_to_the_newest<T>(points: Seq<T>, cap: nat)
    ensures
        last_of(points, cap).len() == vstd::math::min(points.len() as int, cap as int),
        forall|k: int|
            0 <= k < last_of(points, cap).len() ==> #[trigger] last_of(points, cap)[k]
                == points[points.len() - last_of(points, cap).len() + k],
{
}

}
