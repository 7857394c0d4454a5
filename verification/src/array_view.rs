//! Fixed-capacity circular history of samples with a rising-edge trigger.
//!
//! `RingState` is the mathematical model: the slots, the write cursor, and
//! the trigger state. `ArrayView` is the executable buffer; its view is a
//! `RingState`, and every contract is stated over it.

use vstd::prelude::*;
use crate::sample::Sample;

verus! {

/// What a circular history holds, as plain mathematics.
pub struct RingState {
    /// One entry per slot; the length is the capacity.
    pub slots: Seq<Sample>,
    /// The slot that the next write goes to.
    pub cursor: int,
    /// Whether the cursor has wrapped at least once.
    pub wrapped: bool,
    /// Whether the signal is currently above the threshold.
    pub above: bool,
    /// The cursor at the most recent upward crossing.
    pub rising: int,
    /// The level that a crossing is measured against.
    pub threshold: Sample,
}

impl RingState {
    /// Number of slots.
    pub open spec fn capacity(self) -> int {
        self.slots.len() as int
    }

    /// Cursor and trigger index address slots, and before the first wrap
    /// the trigger index does not lie beyond what was written.
    pub open spec fn wf(self) -> bool {
        &&& self.capacity() > 0
        &&& 0 <= self.cursor < self.capacity()
        &&& 0 <= self.rising < self.capacity()
        &&& !self.wrapped ==> self.rising <= self.cursor
    }

    /// A history of the given capacity that nothing was written to.
    pub open spec fn empty(capacity: int, threshold: Sample) -> RingState {
        RingState {
            slots: Seq::new(capacity as nat, |i: int| Sample { bits: 0 }),
            cursor: 0,
            wrapped: false,
            above: false,
            rising: 0,
            threshold,
        }
    }

    /// Number of entries that were written and not yet overwritten.
    pub open spec fn filled(self) -> int {
        if self.wrapped {
            self.capacity()
        } else {
            self.cursor
        }
    }

    /// The written entries, oldest first.
    pub open spec fn window(self) -> Seq<Sample> {
        if self.wrapped {
            self.slots.subrange(self.cursor, self.capacity()) + self.slots.subrange(
                0,
                self.cursor,
            )
        } else {
            self.slots.subrange(0, self.cursor)
        }
    }

    /// The slot `back` places before slot `end`, going round the ring.
    pub open spec fn slot_before(self, end: int, back: int) -> int {
        if back <= end {
            end - back
        } else {
            end - back + self.capacity()
        }
    }

    /// The `n` slots that precede slot `end`, in ring order.
    pub open spec fn tail(self, end: int, n: int) -> Seq<Sample> {
        Seq::new(n as nat, |i: int| self.slots[self.slot_before(end, n - i)])
    }

    /// How many entries a read of `n` entries ending at slot `end` yields:
    /// `n`, but no more than were written before `end`.
    pub open spec fn reach(self, end: int, n: int) -> int {
        let available = if self.wrapped {
            self.capacity()
        } else {
            end
        };
        if n <= available {
            n
        } else {
            available
        }
    }

    /// The most recent `n` entries, oldest first; all of them if fewer were
    /// written.
    pub open spec fn last_n(self, n: int) -> Seq<Sample> {
        self.tail(self.cursor, self.reach(self.cursor, n))
    }

    /// The `n` entries that end at the most recent upward crossing, oldest
    /// first; before the first wrap no more than were written before it.
    pub open spec fn last_n_rising(self, n: int) -> Seq<Sample> {
        self.tail(self.rising, self.reach(self.rising, n))
    }

    /// The most recent entry.
    pub open spec fn last(self) -> Sample {
        self.slots[self.slot_before(self.cursor, 1)]
    }

    /// The state after writing `x` at the cursor.
    pub open spec fn push(self, x: Sample) -> RingState {
        RingState {
            slots: self.slots.update(self.cursor, x),
            cursor: if self.cursor + 1 == self.capacity() {
                0
            } else {
                self.cursor + 1
            },
            wrapped: self.wrapped || self.cursor + 1 == self.capacity(),
            ..self
        }
    }

    /// Whether the trigger already looks at incoming values: not during the
    /// first two writes.
    pub open spec fn warm(self) -> bool {
        self.wrapped || self.cursor > 1
    }

    /// Whether `x` ends the current stay above the threshold.
    pub open spec fn falls(self, x: Sample) -> bool {
        self.warm() && self.above && x.lt(self.threshold)
    }

    /// Whether `x` is an upward crossing.
    pub open spec fn rises(self, x: Sample) -> bool {
        self.warm() && !self.above && x.gt(self.threshold)
    }

    /// The trigger state after looking at `x`, before `x` is written.
    pub open spec fn watch(self, x: Sample) -> RingState {
        RingState {
            above: if self.rises(x) {
                true
            } else if self.falls(x) {
                false
            } else {
                self.above
            },
            rising: if self.rises(x) {
                self.cursor
            } else {
                self.rising
            },
            ..self
        }
    }

    /// The state after `x` was looked at by the trigger and written.
    pub open spec fn push_riser(self, x: Sample) -> RingState {
        self.watch(x).push(x)
    }

    /// The state after writing all of `xs`, first to last.
    pub open spec fn push_slice(self, xs: Seq<Sample>) -> RingState
        decreases xs.len(),
    {
        if xs.len() == 0 {
            self
        } else {
            self.push_slice(xs.drop_last()).push(xs.last())
        }
    }

    /// The state after all of `xs`, first to last, were looked at by the
    /// trigger and written.
    pub open spec fn push_slice_with_rise(self, xs: Seq<Sample>) -> RingState
        decreases xs.len(),
    {
        if xs.len() == 0 {
            self
        } else {
            self.push_slice_with_rise(xs.drop_last()).push_riser(xs.last())
        }
    }

    /// The state after forgetting what was written.
    pub open spec fn clear(self) -> RingState {
        RingState { cursor: 0, wrapped: false, rising: 0, ..self }
    }
}

/// Each entry of `w` with its position in `w`.
pub open spec fn ticked(w: Seq<Sample>) -> Seq<(usize, Sample)> {
    Seq::new(w.len(), |i: int| (i as usize, w[i]))
}

/// The last `n` entries of `h`, or all of `h` if it has fewer.
pub open spec fn newest(h: Seq<Sample>, n: int) -> Seq<Sample> {
    if n <= 0 {
        Seq::empty()
    } else if h.len() <= n {
        h
    } else {
        h.subrange(h.len() - n, h.len() as int)
    }
}

/// A write keeps the state well formed, and the written entries are then
/// the newest `capacity` of the earlier ones followed by the new value.
pub proof fn lemma_push_window(s: RingState, x: Sample)
    requires
        s.wf(),
    ensures
        s.push(x).wf(),
        s.push(x).capacity() == s.capacity(),
        s.push(x).threshold == s.threshold,
        s.push(x).window() == newest(s.window().push(x), s.capacity()),
{
}

/// Letting the trigger look at a value changes neither the slots nor the
/// cursor, so it changes nothing that a plain read returns.
pub proof fn lemma_push_riser_window(s: RingState, x: Sample)
    requires
        s.wf(),
    ensures
        s.push_riser(x).wf(),
        s.push_riser(x).capacity() == s.capacity(),
        s.push_riser(x).threshold == s.threshold,
        s.push_riser(x).slots == s.push(x).slots,
        s.push_riser(x).cursor == s.push(x).cursor,
        s.push_riser(x).wrapped == s.push(x).wrapped,
        s.push_riser(x).window() == newest(s.window().push(x), s.capacity()),
{
    lemma_push_window(s, x);
    lemma_push_window(s.watch(x), x);
}

/// An upward crossing leaves the trigger index at the slot that the
/// crossing value was written to; that value is above the threshold, and
/// the signal counts as above it from then on. Any other value leaves the
/// trigger index where it was.
pub proof fn lemma_rising_marks_crossing(s: RingState, x: Sample)
    requires
        s.wf(),
    ensures
        s.rises(x) ==> s.push_riser(x).rising == s.cursor && s.push_riser(x).slots[s.cursor] == x
            && x.gt(s.threshold) && s.push_riser(x).above,
        !s.rises(x) ==> s.push_riser(x).rising == s.rising,
        s.falls(x) ==> !s.push_riser(x).above,
        !s.warm() ==> s.push_riser(x).above == s.above,
{
}

/// A read of the most recent `n` entries returns the newest `n` of the
/// written entries, in the order in which they were written.
pub proof fn lemma_last_n_is_newest(s: RingState, n: int)
    requires
        s.wf(),
        0 <= n,
    ensures
        s.last_n(n) == newest(s.window(), n),
{
}

/// Before the first wrap a read from the trigger returns written entries
/// only: those that were written just before the crossing, in the order in
/// which they were written. After a wrap every slot is written, and the
/// read returns as many entries as were asked for, up to the capacity.
pub proof fn lemma_trigger_window_is_written(s: RingState, n: int)
    requires
        s.wf(),
        0 <= n,
    ensures
        !s.wrapped ==> s.last_n_rising(n) == newest(s.window().subrange(0, s.rising), n),
        !s.wrapped ==> s.last_n_rising(n).len() <= s.filled(),
        s.wrapped ==> s.last_n_rising(n).len() == if n <= s.capacity() {
            n
        } else {
            s.capacity()
        },
        forall|i: int|
            0 <= i < s.last_n_rising(n).len() ==> s.window().contains(
                #[trigger] s.last_n_rising(n)[i],
            ),
{
    let w = s.last_n_rising(n);
    let m = s.reach(s.rising, n);
    assert forall|i: int| 0 <= i < w.len() implies s.window().contains(#[trigger] w[i]) by {
        let slot = s.slot_before(s.rising, m - i);
        if s.wrapped {
            let k = if slot >= s.cursor {
                slot - s.cursor
            } else {
                slot + s.capacity() - s.cursor
            };
            assert(s.window()[k] == s.slots[slot]);
        } else {
            assert(s.window()[slot] == s.slots[slot]);
        }
    }
}

/// The newest `cap` of a history, followed by one more value and cut to
/// the newest `cap` again, is the newest `cap` of the longer history.
pub proof fn lemma_newest_push(h: Seq<Sample>, x: Sample, cap: int)
    requires
        cap > 0,
    ensures
        newest(newest(h, cap).push(x), cap) == newest(h.push(x), cap),
{
}

/// After any sequence of writes the written entries are the newest
/// `capacity` of what was there before followed by what was written.
pub proof fn lemma_push_slice_window(s: RingState, xs: Seq<Sample>)
    requires
        s.wf(),
    ensures
        s.push_slice(xs).wf(),
        s.push_slice(xs).capacity() == s.capacity(),
        s.push_slice(xs).threshold == s.threshold,
        s.push_slice(xs).window() == newest(s.window() + xs, s.capacity()),
    decreases xs.len(),
{
    if xs.len() > 0 {
        let before = s.push_slice(xs.drop_last());
        lemma_push_slice_window(s, xs.drop_last());
        lemma_push_window(before, xs.last());
        lemma_newest_push(s.window() + xs.drop_last(), xs.last(), s.capacity());
    }
}

/// The same holds when the trigger looks at each value that is written.
pub proof fn lemma_push_slice_with_rise_window(s: RingState, xs: Seq<Sample>)
    requires
        s.wf(),
    ensures
        s.push_slice_with_rise(xs).wf(),
        s.push_slice_with_rise(xs).capacity() == s.capacity(),
        s.push_slice_with_rise(xs).threshold == s.threshold,
        s.push_slice_with_rise(xs).window() == newest(s.window() + xs, s.capacity()),
    decreases xs.len(),
{
    if xs.len() > 0 {
        let before = s.push_slice_with_rise(xs.drop_last());
        lemma_push_slice_with_rise_window(s, xs.drop_last());
        lemma_push_riser_window(before, xs.last());
        lemma_newest_push(s.window() + xs.drop_last(), xs.last(), s.capacity());
    }
}

/// Circular buffer correctness. Start from an empty history of capacity
/// `cap`, write any sequence `xs`, with or without the trigger looking, and
/// read the most recent `n` entries, where `n` is at most the number of
/// writes and at most the capacity: the read returns exactly the last `n`
/// values written, in the order in which they were written. A read of more
/// than were written returns no more than were written.
pub proof fn lemma_read_returns_last_pushed(
    cap: int,
    threshold: Sample,
    xs: Seq<Sample>,
    n: int,
)
    requires
        cap > 0,
        0 <= n,
    ensures
        RingState::empty(cap, threshold).push_slice(xs).last_n(n) == newest(
            newest(xs, cap),
            n,
        ),
        RingState::empty(cap, threshold).push_slice_with_rise(xs).last_n(n) == newest(
            newest(xs, cap),
            n,
        ),
        n <= xs.len() && n <= cap ==> RingState::empty(cap, threshold).push_slice(xs).last_n(n)
            == xs.subrange(xs.len() - n, xs.len() as int),
        n <= xs.len() && n <= cap ==> RingState::empty(cap, threshold).push_slice_with_rise(
            xs,
        ).last_n(n) == xs.subrange(xs.len() - n, xs.len() as int),
        RingState::empty(cap, threshold).push_slice(xs).last_n(n).len() <= xs.len(),
        RingState::empty(cap, threshold).push_slice_with_rise(xs).last_n(n).len() <= xs.len(),
{
    let e = RingState::empty(cap, threshold);
    lemma_push_slice_window(e, xs);
    lemma_push_slice_with_rise_window(e, xs);
    lemma_last_n_is_newest(e.push_slice(xs), n);
    lemma_last_n_is_newest(e.push_slice_with_rise(xs), n);
}

/// The executable circular history, with room for `N` samples.
pub struct ArrayView<const N: usize> {
    idx: usize,
    cycled: bool,
    rise_cycle: bool,
    rising_idx: usize,
    x_thresh: Sample,
    arr: [Sample; N],
}

impl<const N: usize> View for ArrayView<N> {
    type V = RingState;

    closed spec fn view(&self) -> RingState {
        RingState {
            slots: self.arr@,
            cursor: self.idx as int,
            wrapped: self.cycled,
            above: self.rise_cycle,
            rising: self.rising_idx as int,
            threshold: self.x_thresh,
        }
    }
}

impl<const N: usize> ArrayView<N> {
    #[verifier::type_invariant]
    spec fn inv(self) -> bool {
        self@.wf()
    }

    /// An empty history with the trigger threshold at zero.
    pub fn new() -> (av: ArrayView<N>)
        requires
            N > 0,
        ensures
            av@ == RingState::empty(N as int, Sample { bits: 0 }),
            av@.wf(),
    {
        let av = ArrayView {
            idx: 0,
            cycled: false,
            rise_cycle: false,
            rising_idx: 0,
            x_thresh: Sample::zero(),
            arr: [Sample::zero();N],
        };
        assert(av@.slots =~= RingState::empty(N as int, Sample { bits: 0 }).slots);
        av
    }

    /// Writes `x` at the cursor and advances the cursor, wrapping at the
    /// end.
    pub fn push(&mut self, x: Sample)
        ensures
            final(self)@ == old(self)@.push(x),
            old(self)@.wf(),
            final(self)@.wf(),
            final(self)@.capacity() == N,
    {
        proof {
            use_type_invariant(&*self);
        }
        self.arr[self.idx] = x;
        if self.idx + 1 == N {
            self.cycled = true;
            self.idx = 0;
        } else {
            self.idx = self.idx + 1;
        }
    }

    /// Writes all of `xs`, first to last.
    pub fn push_slice(&mut self, xs: &[Sample])
        ensures
            final(self)@ == old(self)@.push_slice(xs@),
            old(self)@.wf(),
            final(self)@.wf(),
            final(self)@.capacity() == N,
    {
        proof {
            use_type_invariant(&*self);
        }
        let mut i: usize = 0;
        while i < xs.len()
            invariant
                i <= xs@.len(),
                self@ == old(self)@.push_slice(xs@.take(i as int)),
                self@.wf(),
                self@.capacity() == N,
            decreases xs@.len() - i,
        {
            proof {
                assert(xs@.take(i + 1).drop_last() =~= xs@.take(i as int));
            }
            self.push(xs[i]);
            i = i + 1;
        }
        proof {
            assert(xs@.take(i as int) =~= xs@);
        }
    }

    /// Lets the trigger look at `x`, then writes it. During the first two
    /// writes the trigger does not look. After that, a value below the
    /// threshold ends a stay above it, and a value above the threshold
    /// while not above it is an upward crossing: its slot becomes the
    /// trigger index.
    pub fn push_riser(&mut self, x: Sample)
        ensures
            final(self)@ == old(self)@.push_riser(x),
            old(self)@.wf(),
            final(self)@.wf(),
            final(self)@.capacity() == N,
    {
        proof {
            use_type_invariant(&*self);
        }
        if self.cycled || self.idx > 1 {
            if self.rise_cycle && x.is_below(self.x_thresh) {
                self.rise_cycle = false;
            }
            if !self.rise_cycle && x.is_above(self.x_thresh) {
                self.rise_cycle = true;
                self.rising_idx = self.idx;
            }
        }
        self.push(x);
    }

    /// Lets the trigger look at each of `xs` and writes it, first to last.
    pub fn push_slice_with_rise(&mut self, xs: &[Sample])
        ensures
            final(self)@ == old(self)@.push_slice_with_rise(xs@),
            old(self)@.wf(),
            final(self)@.wf(),
            final(self)@.capacity() == N,
    {
        proof {
            use_type_invariant(&*self);
        }
        let mut i: usize = 0;
        while i < xs.len()
            invariant
                i <= xs@.len(),
                self@ == old(self)@.push_slice_with_rise(xs@.take(i as int)),
                self@.wf(),
                self@.capacity() == N,
            decreases xs@.len() - i,
        {
            proof {
                assert(xs@.take(i + 1).drop_last() =~= xs@.take(i as int));
            }
            self.push_riser(xs[i]);
            i = i + 1;
        }
        proof {
            assert(xs@.take(i as int) =~= xs@);
        }
    }

    /// Forgets what was written. The slots keep their contents, but no read
    /// returns them until they are written again.
    pub fn clear(&mut self)
        ensures
            final(self)@ == old(self)@.clear(),
            final(self)@.wf(),
            final(self)@.filled() == 0,
    {
        proof {
            use_type_invariant(&*self);
        }
        self.rising_idx = 0;
        self.idx = 0;
        self.cycled = false;
    }

    /// Number of entries that were written and not yet overwritten.
    pub fn len(&self) -> (n: usize)
        ensures
            n == self@.filled(),
            n <= N,
    {
        proof {
            use_type_invariant(self);
        }
        if self.cycled {
            N
        } else {
            self.idx
        }
    }

    /// The slot of the most recent upward crossing.
    pub fn rising_idx(&self) -> (i: usize)
        ensures
            i == self@.rising,
    {
        self.rising_idx
    }

    /// Whether the signal is currently above the threshold.
    pub fn rise_cycle(&self) -> (b: bool)
        ensures
            b == self@.above,
    {
        self.rise_cycle
    }

    /// The most recent entry.
    pub fn last(&self) -> (x: Sample)
        requires
            self@.filled() > 0,
        ensures
            x == self@.last(),
    {
        proof {
            use_type_invariant(self);
        }
        if self.idx == 0 {
            self.arr[N - 1]
        } else {
            self.arr[self.idx - 1]
        }
    }

    /// The `n` slots that precede slot `end`, in ring order.
    fn read_tail(&self, end: usize, n: usize) -> (out: Vec<Sample>)
        requires
            end < N,
            n <= N,
        ensures
            out@ == self@.tail(end as int, n as int),
    {
        let mut out: Vec<Sample> = Vec::with_capacity(n);
        let mut i: usize = 0;
        while i < n
            invariant
                end < N,
                n <= N,
                i <= n,
                out@.len() == i,
                forall|k: int|
                    0 <= k < i ==> out@[k] == self@.slots[self@.slot_before(
                        end as int,
                        n - k,
                    )],
                self@.slots.len() == N,
            decreases n - i,
        {
            let back: usize = n - i;
            let slot: usize = if back <= end {
                end - back
            } else {
                N - (back - end)
            };
            out.push(self.arr[slot]);
            i = i + 1;
        }
        out
    }

    /// How many entries a read of `n` entries that ends at slot `end`
    /// yields.
    fn reach(&self, end: usize, n: usize) -> (m: usize)
        requires
            end < N,
        ensures
            m == self@.reach(end as int, n as int),
            m <= N,
    {
        let available: usize = if self.cycled {
            N
        } else {
            end
        };
        if n <= available {
            n
        } else {
            available
        }
    }

    /// The most recent `n` entries, oldest first. Where fewer than `n` were
    /// written, all that were written.
    pub fn last_n(&self, n: usize) -> (out: Vec<Sample>)
        ensures
            out@ == self@.last_n(n as int),
            self@.wf(),
            self@.capacity() == N,
    {
        proof {
            use_type_invariant(self);
        }
        let m: usize = self.reach(self.idx, n);
        self.read_tail(self.idx, m)
    }

    /// The most recent `n` entries, oldest first, each with its position in
    /// the result: entry `i` belongs to the time `i` sample periods after
    /// the start of the window.
    pub fn last_nt(&self, n: usize) -> (out: Vec<(usize, Sample)>)
        ensures
            out@ == ticked(self@.last_n(n as int)),
            self@.wf(),
            self@.capacity() == N,
    {
        let w = self.last_n(n);
        with_ticks(&w)
    }

    /// The `n` entries that end at the most recent upward crossing, oldest
    /// first, each with its position in the result. Before the first wrap
    /// no entry beyond what was written is returned.
    pub fn last_nt_rising(&self, n: usize) -> (out: Vec<(usize, Sample)>)
        ensures
            out@ == ticked(self@.last_n_rising(n as int)),
            self@.wf(),
            self@.capacity() == N,
    {
        proof {
            use_type_invariant(self);
        }
        let m: usize = self.reach(self.rising_idx, n);
        let w = self.read_tail(self.rising_idx, m);
        with_ticks(&w)
    }

    /// Number of slots.
    pub fn size(&self) -> (n: usize)
        ensures
            n == N,
            n == self@.capacity(),
            self@.wf(),
    {
        proof {
            use_type_invariant(self);
        }
        N
    }

    /// The slot that the next write goes to.
    pub fn idx(&self) -> (i: usize)
        ensures
            i == self@.cursor,
    {
        self.idx
    }
}

/// Each entry of `w` with its position in `w`.
pub fn with_ticks(w: &Vec<Sample>) -> (out: Vec<(usize, Sample)>)
    ensures
        out@ == ticked(w@),
{
    let mut out: Vec<(usize, Sample)> = Vec::with_capacity(w.len());
    let mut i: usize = 0;
    while i < w.len()
        invariant
            i <= w@.len(),
            out@.len() == i,
            forall|k: int| 0 <= k < i ==> out@[k] == (k as usize, w@[k]),
        decreases w@.len() - i,
    {
        out.push((i, w[i]));
        i = i + 1;
    }
    out
}

} // verus!
