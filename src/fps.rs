//! Rolling frame-rate estimate over the most recent frame durations.

use vstd::prelude::*;

verus! {

/// How many frame durations the window keeps.
pub const WINDOW_CAPACITY: usize = 20;

/// Nanoseconds in one second.
pub const NANOS_PER_SECOND: u128 = 1_000_000_000;

/// The window after `nanos` is recorded: the new duration goes in front,
/// and the oldest one leaves once there are more than the capacity.
pub open spec fn recorded(s: Seq<u64>, nanos: u64) -> Seq<u64> {
    let t = seq![nanos] + s;
    if t.len() > WINDOW_CAPACITY {
        t.drop_last()
    } else {
        t
    }
}

/// The window after recording each of `ds` in turn into an empty one.
pub open spec fn window_after(ds: Seq<u64>) -> Seq<u64>
    decreases ds.len(),
{
    if ds.len() == 0 {
        seq![]
    } else {
        recorded(window_after(ds.drop_last()), ds.last())
    }
}

/// The sum of the durations in `s`.
pub open spec fn sum_nanos(s: Seq<u64>) -> int
    decreases s.len(),
{
    if s.len() == 0 {
        0
    } else {
        sum_nanos(s.drop_last()) + s.last()
    }
}

/// Frames per second over the window `s`, as the fraction
/// `(NANOS_PER_SECOND * count, total nanoseconds)`: one second over the
/// mean duration. There is none while the window is empty or sums to zero.
pub open spec fn fps_fraction(s: Seq<u64>) -> Option<(int, int)> {
    if s.len() == 0 || sum_nanos(s) == 0 {
        None
    } else {
        Some((NANOS_PER_SECOND * s.len(), sum_nanos(s)))
    }
}

/// The most recent frame durations in nanoseconds, newest first.
pub struct FrameWindow {
    samples: Vec<u64>,
}

impl View for FrameWindow {
    type V = Seq<u64>;

    closed spec fn view(&self) -> Seq<u64> {
        self.samples@
    }
}

proof fn lemma_sum_bounded(s: Seq<u64>)
    ensures
        0 <= sum_nanos(s) <= s.len() * 0xffff_ffff_ffff_ffff,
    decreases s.len(),
{
    if s.len() > 0 {
        lemma_sum_bounded(s.drop_last());
    }
}

proof fn lemma_sum_positive(s: Seq<u64>)
    requires
        s.len() > 0,
        forall|i: int| 0 <= i < s.len() ==> s[i] > 0,
    ensures
        sum_nanos(s) > 0,
    decreases s.len(),
{
    lemma_sum_bounded(s.drop_last());
}

impl FrameWindow {
    /// The window holds no more than its capacity.
    pub open spec fn wf(&self) -> bool {
        self@.len() <= WINDOW_CAPACITY
    }

    /// An empty window.
    pub fn new() -> (w: FrameWindow)
        ensures
            w.wf(),
            w@ == Seq::<u64>::empty(),
    {
        FrameWindow { samples: Vec::new() }
    }

    /// The number of durations held.
    pub fn len(&self) -> (n: usize)
        ensures
            n == self@.len(),
    {
        self.samples.len()
    }

    /// The durations held, newest first.
    pub fn samples(&self) -> (s: &Vec<u64>)
        ensures
            s@ == self@,
    {
        &self.samples
    }

    /// Records the duration of the frame that just ended.
    pub fn record(&mut self, nanos: u64)
        requires
            old(self).wf(),
        ensures
            final(self).wf(),
            final(self)@ == recorded(old(self)@, nanos),
    {
        self.samples.insert(0, nanos);
        if self.samples.len() > WINDOW_CAPACITY {
            self.samples.pop();
        }
        proof {
            assert(self@ =~= recorded(old(self)@, nanos));
        }
    }

    /// The sum of the durations held, in nanoseconds.
    pub fn total_nanos(&self) -> (total: u128)
        requires
            self.wf(),
        ensures
            total == sum_nanos(self@),
    {
        let mut total: u128 = 0;
        let mut i: usize = 0;
        while i < self.samples.len()
            invariant
                self.wf(),
                i <= self@.len(),
                total == sum_nanos(self@.take(i as int)),
            decreases self@.len() - i,
        {
            proof {
                assert(self@.take(i as int + 1).drop_last() =~= self@.take(i as int));
                lemma_sum_bounded(self@.take(i as int));
                assert(i * 0xffff_ffff_ffff_ffff <= 20 * 0xffff_ffff_ffff_ffff);
            }
            total = total + self.samples[i] as u128;
            i = i + 1;
        }
        proof {
            assert(self@.take(i as int) =~= self@);
        }
        total
    }

    /// Frames per second over the window, as a fraction: one second times
    /// the number of durations held, over their sum. `None` while the window
    /// is empty or its durations sum to zero.
    pub fn fps_ratio(&self) -> (r: Option<(u128, u128)>)
        requires
            self.wf(),
        ensures
            r matches Some((n, d)) ==> fps_fraction(self@) == Some((n as int, d as int)),
            r is None <==> fps_fraction(self@) is None,
    {
        let total = self.total_nanos();
        if self.samples.len() == 0 || total == 0 {
            None
        } else {
            Some((NANOS_PER_SECOND * self.samples.len() as u128, total))
        }
    }

    /// The frame rate over the window rounded down to whole frames per
    /// second; `None` where `fps_ratio` gives none.
    pub fn fps_floor(&self) -> (f: Option<u128>)
        requires
            self.wf(),
        ensures
            f matches Some(v) ==> fps_fraction(self@) matches Some((n, d)) && v == n / d,
            f is None <==> fps_fraction(self@) is None,
    {
        match self.fps_ratio() {
            Some((n, d)) => Some(n / d),
            None => None,
        }
    }
}

/// However many durations are recorded, the window holds at most its
/// capacity: the newest ones, newest first. Once more than the capacity
/// have been recorded, the first one recorded is no longer held.
pub proof fn lemma_window_keeps_newest(ds: Seq<u64>)
    ensures
        window_after(ds).len() <= WINDOW_CAPACITY,
        window_after(ds).len() == if ds.len() < WINDOW_CAPACITY {
            ds.len() as int
        } else {
            WINDOW_CAPACITY as int
        },
        forall|i: int|
            0 <= i < window_after(ds).len() ==> #[trigger] window_after(ds)[i] == ds[ds.len() - 1
                - i],
        ds.len() > WINDOW_CAPACITY && (forall|j: int| 1 <= j < ds.len() ==> #[trigger] ds[j] != ds[0])
            ==> !window_after(ds).contains(ds[0]),
    decreases ds.len(),
{
    if ds.len() > 0 {
        let prev = ds.drop_last();
        lemma_window_keeps_newest(prev);
        let w = window_after(ds);
        let t = seq![ds.last()] + window_after(prev);
        assert forall|i: int| 0 <= i < w.len() implies #[trigger] w[i] == ds[ds.len() - 1 - i] by {
            assert(w[i] == t[i]);
            if i > 0 {
                assert(t[i] == window_after(prev)[i - 1]);
            }
        }
        if ds.len() > WINDOW_CAPACITY && (forall|j: int| 1 <= j < ds.len() ==> #[trigger] ds[j] != ds[0]) {
            assert forall|i: int| 0 <= i < w.len() implies w[i] != ds[0] by {
                assert(w[i] == ds[ds.len() - 1 - i]);
            }
        }
    }
}

/// A non-empty window of positive durations has a frame rate, and it is
/// positive: both parts of the fraction are.
pub proof fn lemma_fps_positive(s: Seq<u64>)
    requires
        s.len() > 0,
        forall|i: int| 0 <= i < s.len() ==> s[i] > 0,
    ensures
        fps_fraction(s) matches Some((n, d)) && n > 0 && d > 0,
{
    lemma_sum_positive(s);
}

} // verus!
