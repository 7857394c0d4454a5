//! One channel: its pair of histories, the worker that fills them from the
//! sample queue, and the state that the consumer reads.

use vstd::prelude::*;
use vstd::slice::slice_subrange;
use crate::array_view::ArrayView;
use crate::array_view::lemma_push_slice_window;
use crate::array_view::lemma_push_slice_with_rise_window;
use crate::array_view::newest;
use crate::array_view::ticked;
use crate::comm::Bus;
use crate::comm::FFT_BUF_SIZE;
use crate::comm::Jack;
use crate::comm::Signal;
use crate::comm::StopReceiver;
use crate::comm::StopSender;
use crate::comm::TIMING_DIAGNOSTIC_CYCLES;
use crate::comm::Update;
use crate::queue::RingConsumer;
use crate::queue::consumed;
use crate::queue::consumer_room;
use crate::sample::Sample;
use crate::timing::CYCLE_TIME_MAX;
use crate::timing::TimingDiagnostics;

verus! {

/// The largest multiple of `bin` that is not above `limit`.
pub open spec fn largest_multiple(limit: int, bin: int) -> int {
    (limit / bin) * bin
}

/// How many samples one iteration drains when `available` are queued: the
/// largest multiple of the block size `bin` that is available and fits the
/// staging capacity.
pub open spec fn planned(available: int, bin: int) -> int {
    if available <= FFT_BUF_SIZE {
        largest_multiple(available, bin)
    } else {
        largest_multiple(FFT_BUF_SIZE as int, bin)
    }
}

/// `largest_multiple` is what its name says: a multiple of `bin`, not above
/// `limit`, and no multiple of `bin` lies between it and `limit`.
pub proof fn lemma_largest_multiple(limit: int, bin: int)
    requires
        0 <= limit,
        0 < bin,
    ensures
        0 <= largest_multiple(limit, bin) <= limit,
        largest_multiple(limit, bin) % bin == 0,
        limit - largest_multiple(limit, bin) < bin,
        largest_multiple(limit, bin) / bin == limit / bin,
        forall|k: int| k * bin <= limit ==> #[trigger] (k * bin) <= largest_multiple(limit, bin),
{
    let q = limit / bin;
    assert(limit == q * bin + limit % bin && 0 <= limit % bin < bin && 0 <= q) by {
        vstd::arithmetic::div_mod::lemma_fundamental_div_mod(limit, bin);
        vstd::arithmetic::div_mod::lemma_mod_bound(limit, bin);
        vstd::arithmetic::div_mod::lemma_div_pos_is_pos(limit, bin);
    }
    assert(0 <= q * bin) by (nonlinear_arith)
        requires
            0 <= q,
            0 < bin,
    ;
    assert((q * bin) % bin == 0 && (q * bin) / bin == q) by {
        vstd::arithmetic::div_mod::lemma_mod_multiples_basic(q, bin);
        vstd::arithmetic::div_mod::lemma_div_multiples_vanish(q, bin);
    }
    assert forall|k: int| k * bin <= limit implies #[trigger] (k * bin) <= q * bin by {
        assert(k <= q) by (nonlinear_arith)
            requires
                k * bin <= limit,
                limit < q * bin + bin,
                0 < bin,
        ;
        assert(k * bin <= q * bin) by (nonlinear_arith)
            requires
                k <= q,
                0 < bin,
        ;
    }
}

/// How many samples to drain in one iteration, given that `available` are
/// queued. What is left over stays in the queue for the next iteration.
pub fn n_samples(available: usize, agg_bin_size: usize) -> (n: usize)
    requires
        agg_bin_size > 0,
    ensures
        n == planned(available as int, agg_bin_size as int),
        n <= available,
        n <= FFT_BUF_SIZE,
        n % agg_bin_size == 0,
        forall|k: int|
            k * agg_bin_size <= available && k * agg_bin_size <= FFT_BUF_SIZE ==> #[trigger] (k
                * agg_bin_size) <= n,
{
    let limit: usize = if available <= FFT_BUF_SIZE {
        available
    } else {
        FFT_BUF_SIZE
    };
    proof {
        lemma_largest_multiple(limit as int, agg_bin_size as int);
    }
    let agg_chunks: usize = limit / agg_bin_size;
    agg_chunks * agg_bin_size
}

/// Block `i` of `raw` cut into blocks of `bin` samples.
pub open spec fn block(raw: Seq<Sample>, bin: int, i: int) -> Seq<Sample> {
    raw.subrange(i * bin, i * bin + bin)
}

/// Whether `agg` is a value that `mean` returns for the samples `blk`.
pub open spec fn is_mean_of<F: Fn(&[Sample]) -> Sample>(
    mean: F,
    blk: Seq<Sample>,
    agg: Sample,
) -> bool {
    exists|b: &[Sample]| b@ == blk && #[trigger] call_ensures(mean, (b,), agg)
}

/// `aggs` holds one value per complete block of `raw`, each of them a value
/// that `mean` returns for that block. Samples after the last complete
/// block have no aggregate.
pub open spec fn aggregates_of<F: Fn(&[Sample]) -> Sample>(
    raw: Seq<Sample>,
    bin: int,
    mean: F,
    aggs: Seq<Sample>,
) -> bool {
    &&& aggs.len() == raw.len() / (bin as nat)
    &&& forall|i: int|
        0 <= i < aggs.len() ==> is_mean_of(mean, block(raw, bin, i), #[trigger] aggs[i])
}

/// Whether `mean` can be called on every block of `bin` samples.
pub open spec fn accepts_blocks<F: Fn(&[Sample]) -> Sample>(mean: F, bin: int) -> bool {
    forall|b: &[Sample]| b@.len() == bin ==> #[trigger] call_requires(mean, (b,))
}

/// One aggregate per complete block of `agg_bin_size` samples, in order.
/// `mean` computes the aggregate of one block: the arithmetic mean, which
/// is floating-point arithmetic and therefore the caller's.
pub fn aggregate<F: Fn(&[Sample]) -> Sample>(
    raw: &Vec<Sample>,
    agg_bin_size: usize,
    mean: &F,
) -> (aggs: Vec<Sample>)
    requires
        agg_bin_size > 0,
        accepts_blocks(*mean, agg_bin_size as int),
    ensures
        aggregates_of(raw@, agg_bin_size as int, *mean, aggs@),
{
    let chunks: usize = raw.len() / agg_bin_size;
    proof {
        lemma_largest_multiple(raw@.len() as int, agg_bin_size as int);
    }
    let mut aggs: Vec<Sample> = Vec::with_capacity(chunks);
    let mut i: usize = 0;
    while i < chunks
        invariant
            agg_bin_size > 0,
            accepts_blocks(*mean, agg_bin_size as int),
            chunks == raw@.len() / (agg_bin_size as nat),
            chunks * agg_bin_size <= raw@.len() <= usize::MAX,
            i <= chunks,
            aggs@.len() == i,
            forall|k: int|
                0 <= k < i ==> is_mean_of(
                    *mean,
                    block(raw@, agg_bin_size as int, k),
                    #[trigger] aggs@[k],
                ),
        decreases chunks - i,
    {
        proof {
            assert(i * agg_bin_size + agg_bin_size <= chunks * agg_bin_size) by (nonlinear_arith)
                requires
                    i < chunks,
                    agg_bin_size > 0,
            ;
            assert(0 <= i * agg_bin_size) by (nonlinear_arith)
                requires
                    0 <= i,
                    0 < agg_bin_size,
            ;
        }
        let start: usize = i * agg_bin_size;
        let b = slice_subrange(raw.as_slice(), start, start + agg_bin_size);
        let x = mean(b);
        aggs.push(x);
        i = i + 1;
    }
    aggs
}

/// The two histories of one channel: every sample as it came, and one
/// aggregate per block of samples.
pub struct TriBuf<const N: usize> {
    pub agg: ArrayView<N>,
    pub raw: ArrayView<N>,
}

/// What one iteration of a worker took out of the queue, and the
/// aggregates of its blocks.
pub struct Batch {
    pub raw: Vec<Sample>,
    pub aggs: Vec<Sample>,
}

impl<const N: usize> TriBuf<N> {
    /// Two empty histories.
    pub fn new() -> (buf: TriBuf<N>)
        requires
            N > 0,
        ensures
            buf.agg@ == crate::array_view::RingState::empty(N as int, Sample { bits: 0 }),
            buf.raw@ == crate::array_view::RingState::empty(N as int, Sample { bits: 0 }),
    {
        TriBuf { agg: ArrayView::new(), raw: ArrayView::new() }
    }

    /// Copies a batch into the histories: the samples into the raw one,
    /// with the trigger looking at each, the aggregates into the
    /// aggregated one. Each history then holds the newest `N` of what it
    /// held before followed by what the batch brought, in arrival order.
    pub fn commit(&mut self, batch: &Batch)
        ensures
            final(self).raw@ == old(self).raw@.push_slice_with_rise(batch.raw@),
            final(self).agg@ == old(self).agg@.push_slice(batch.aggs@),
            final(self).raw@.window() == newest(old(self).raw@.window() + batch.raw@, N as int),
            final(self).agg@.window() == newest(old(self).agg@.window() + batch.aggs@, N as int),
    {
        self.raw.push_slice_with_rise(batch.raw.as_slice());
        self.agg.push_slice(batch.aggs.as_slice());
        proof {
            lemma_push_slice_with_rise_window(old(self).raw@, batch.raw@);
            lemma_push_slice_window(old(self).agg@, batch.aggs@);
        }
    }

    /// The write cursors of the aggregated and of the raw history.
    pub fn curr_idx(&self) -> (at: (usize, usize))
        ensures
            at.0 == self.agg@.cursor,
            at.1 == self.raw@.cursor,
    {
        (self.agg.idx(), self.raw.idx())
    }
}

/// What a worker is started with: the aggregation block size, the
/// consuming end of the channel's sample queue, and the update bus.
pub struct PortBufProcessConfig {
    pub agg_bin_size: usize,
    pub rb: RingConsumer,
    pub bus: Bus,
}

/// Why a worker could not be made.
#[derive(Clone, Copy, Debug, PartialEq, Eq, Structural)]
pub enum ActivateError {
    /// The aggregation block size is zero or does not divide the staging
    /// capacity.
    BlockSize,
}

/// Whether blocks of `bin` samples tile the staging capacity.
pub open spec fn block_size_ok(bin: int) -> bool {
    bin > 0 && FFT_BUF_SIZE as int % bin == 0
}

/// What one iteration does when `available` samples are queued: nothing
/// while less than one block is there, else drain `planned` samples.
pub open spec fn drain_plan(available: int, bin: int) -> Option<int> {
    if available < bin {
        None
    } else {
        Some(planned(available, bin))
    }
}

/// The samples of a staged batch, and none where nothing was staged.
pub open spec fn staged_raw(r: Option<Batch>) -> Seq<Sample> {
    match r {
        Some(b) => b.raw@,
        None => Seq::empty(),
    }
}

/// Whether an iteration that held back `held`, read the queue length
/// `available` and took `popped` out of the queue may stage `staged` and
/// hold back `left`. It takes nothing while less than one block is
/// queued, and never more than was planned. What it held back and what it
/// took, in that order, is what it stages followed by what it holds back:
/// no sample is dropped. It stages the largest number of whole blocks
/// that is there and fits the staging capacity.
pub open spec fn staging(
    held: Seq<Sample>,
    bin: int,
    room: nat,
    available: int,
    popped: Seq<Sample>,
    staged: Seq<Sample>,
    left: Seq<Sample>,
) -> bool {
    &&& 0 <= available <= room
    &&& match drain_plan(available, bin) {
        None => popped.len() == 0,
        Some(n) => popped.len() <= n,
    }
    &&& held + popped == staged + left
    &&& staged.len() == planned((held + popped).len() as int, bin)
}

/// The event that ends a worker's cycle: a timing report where the cycle
/// completed a diagnostics window, none otherwise.
pub open spec fn cycle_report(complete: bool, port_idx: usize, timing: TimingDiagnostics) -> Option<
    Update,
> {
    if complete {
        Some(Update::PortBuf(crate::comm::PortBuf::TimingDiagnostics { port_idx, timing }))
    } else {
        None
    }
}

/// The event for a worker's cycle, given whether the cycle completed a
/// diagnostics window.
pub fn report_for(complete: bool, port_idx: usize, timing: TimingDiagnostics) -> (r: Option<
    Update,
>)
    ensures
        r == cycle_report(complete, port_idx, timing),
{
    if complete {
        Some(Update::PortBuf(crate::comm::PortBuf::TimingDiagnostics { port_idx, timing }))
    } else {
        None
    }
}

/// An aggregation block size that tiles the staging capacity.
pub struct BlockSize {
    size: usize,
}

impl View for BlockSize {
    type V = int;

    closed spec fn view(&self) -> int {
        self.size as int
    }
}

impl BlockSize {
    #[verifier::type_invariant]
    spec fn inv(self) -> bool {
        block_size_ok(self.size as int)
    }

    /// The block size `size`, if it is positive and divides the staging
    /// capacity.
    pub fn new(size: usize) -> (r: Option<BlockSize>)
        ensures
            r is Some <==> block_size_ok(size as int),
            r matches Some(b) ==> b@ == size,
    {
        if size == 0 || FFT_BUF_SIZE % size != 0 {
            None
        } else {
            Some(BlockSize { size })
        }
    }

    /// The size as a number.
    pub fn get(&self) -> (size: usize)
        ensures
            size == self@,
            block_size_ok(size as int),
            0 < size <= FFT_BUF_SIZE,
    {
        proof {
            use_type_invariant(self);
            if self.size > FFT_BUF_SIZE {
                vstd::arithmetic::div_mod::lemma_small_mod(FFT_BUF_SIZE as nat, self.size as nat);
            }
        }
        self.size
    }
}

/// The worker of one channel: what its thread owns. One iteration is
/// `begin_cycle`, `stage`, a `TriBuf::commit` under the channel's lock, and
/// `end_cycle`.
pub struct Worker {
    rb: RingConsumer,
    agg_bin_size: BlockSize,
    bus: Bus,
    port_idx: usize,
    timing_diagnostics: TimingDiagnostics,
    quit_rx: StopReceiver,
    carry: Vec<Sample>,
}

/// How the first half of a worker's iteration ended.
pub enum Step {
    /// A stop was requested, or no request can come any more: leave the
    /// loop.
    Exit,
    /// Less than one block was queued, and no stop request came during the
    /// wait: start over.
    Idle,
    /// Samples were drained: commit them under the channel's lock, then
    /// end the cycle.
    Staged(Batch),
}

/// Whether the first half of an iteration may end as `r`, given what the
/// look at the stop signal found before the drain and what the wait found
/// after a drain that staged nothing: a stop that is found first ends
/// the loop, staged samples are handed on, and a stop that comes during
/// the wait ends the loop.
pub open spec fn steps(polled: Signal, waited: Signal, r: Step) -> bool {
    if polled.ends_worker() {
        r is Exit
    } else if r is Staged {
        true
    } else if waited.ends_worker() {
        r is Exit
    } else {
        r is Idle
    }
}

/// The samples that the first half of an iteration hands on: those of the
/// staged batch, and none where it staged nothing.
pub open spec fn step_raw(r: Step) -> Seq<Sample> {
    match r {
        Step::Staged(b) => b.raw@,
        _ => Seq::empty(),
    }
}

/// Whether the first half of an iteration that held back `held` and took
/// `popped` out of the queue may end as `r` and hold back `left`, given
/// what its two looks at the stop signal found. What it held back and what
/// it took, in that order, is what it hands on followed by what it holds
/// back. A stop that the first look finds ends the loop before anything
/// is taken.
pub open spec fn stepping(
    held: Seq<Sample>,
    polled: Signal,
    waited: Signal,
    popped: Seq<Sample>,
    r: Step,
    left: Seq<Sample>,
) -> bool {
    &&& steps(polled, waited, r)
    &&& held + popped == step_raw(r) + left
    &&& polled.ends_worker() ==> popped.len() == 0 && left == held
}

impl Worker {
    /// All that the worker has taken out of the queue, in order.
    pub closed spec fn taken(self) -> Seq<Sample> {
        consumed(self.rb)
    }

    /// The aggregation block size.
    pub closed spec fn bin(self) -> int {
        self.agg_bin_size@
    }

    /// The index of the channel.
    pub closed spec fn channel(self) -> usize {
        self.port_idx
    }

    /// The room of the channel's sample queue.
    pub closed spec fn room(self) -> nat {
        consumer_room(self.rb)
    }

    /// The diagnostics of the worker's own cycles.
    pub closed spec fn timing(self) -> TimingDiagnostics {
        self.timing_diagnostics
    }

    /// The samples that were taken out of the queue and not yet staged,
    /// because they were no whole block. A queue with one consumer hands
    /// out what it reported, so that in practice there are none.
    pub closed spec fn held(self) -> Seq<Sample> {
        self.carry@
    }

    /// A worker for channel `port_idx`, with diagnostics windows of
    /// `TIMING_DIAGNOSTIC_CYCLES` cycles. The block size must be positive
    /// and divide the staging capacity.
    pub fn new(port_idx: usize, config: PortBufProcessConfig, quit_rx: StopReceiver) -> (r: Result<
        Worker,
        ActivateError,
    >)
        ensures
            r is Ok <==> block_size_ok(config.agg_bin_size as int),
            r matches Ok(w) ==> w.bin() == config.agg_bin_size && w.channel() == port_idx
                && w.room() == consumer_room(config.rb) && w.taken() == consumed(config.rb)
                && w.held().len() == 0 && w.timing()@
                == crate::timing::TimingState::fresh(
                TIMING_DIAGNOSTIC_CYCLES as int,
            ),
            r matches Err(e) ==> e == ActivateError::BlockSize,
    {
        match BlockSize::new(config.agg_bin_size) {
            None => Err(ActivateError::BlockSize),
            Some(agg_bin_size) => Ok(
                Worker {
                    rb: config.rb,
                    agg_bin_size,
                    bus: config.bus,
                    port_idx,
                    timing_diagnostics: TimingDiagnostics::new(TIMING_DIAGNOSTIC_CYCLES),
                    quit_rx,
                    carry: Vec::new(),
                },
            ),
        }
    }

    /// The aggregation block size.
    pub fn agg_bin_size(&self) -> (n: usize)
        ensures
            n == self.bin(),
            block_size_ok(n as int),
    {
        self.agg_bin_size.get()
    }

    /// How many samples are waiting in the queue. The real-time callback
    /// may have added more since.
    pub fn pending(&self) -> (n: usize)
        ensures
            n <= self.room(),
    {
        self.rb.len()
    }

    /// What an iteration does when `available` samples are queued: `None`
    /// while less than one block is there, so that the caller waits; else
    /// the number of samples to drain.
    pub fn plan(&self, available: usize) -> (n: Option<usize>)
        ensures
            n matches Some(k) ==> drain_plan(available as int, self.bin()) == Some(k as int)
                && self.bin() <= k <= available && k <= FFT_BUF_SIZE && k as int % self.bin()
                == 0,
            n is None ==> drain_plan(available as int, self.bin()) is None,
    {
        let bin = self.agg_bin_size.get();
        if available < bin {
            None
        } else {
            let k = n_samples(available, bin);
            proof {
                assert(1 * bin <= k);
            }
            Some(k)
        }
    }

    /// Marks the start of an iteration. With `diagnostics` off the cycle
    /// is not timed.
    pub fn begin_cycle(&mut self, diagnostics: bool)
        ensures
            final(self).bin() == old(self).bin(),
            final(self).channel() == old(self).channel(),
            final(self).room() == old(self).room(),
            final(self).held() == old(self).held(),
            final(self).taken() == old(self).taken(),
            diagnostics ==> final(self).timing()@ == old(self).timing()@.begin(),
            !diagnostics ==> final(self).timing() == old(self).timing(),
    {
        if diagnostics {
            self.timing_diagnostics.record();
        }
    }

    /// Makes a batch of what was held back and the samples `popped` that
    /// just left the queue: the whole blocks that are there, as many as fit
    /// the staging capacity, each with the aggregate that `mean` computes
    /// for it. Returns `None` where there is no whole block. The samples
    /// after the last whole block are held back for the next call; none is
    /// dropped.
    pub fn stage_popped<F: Fn(&[Sample]) -> Sample>(&mut self, popped: Vec<Sample>, mean: &F) -> (r:
        Option<Batch>)
        requires
            accepts_blocks(*mean, old(self).bin()),
        ensures
            final(self).bin() == old(self).bin(),
            final(self).channel() == old(self).channel(),
            final(self).room() == old(self).room(),
            final(self).taken() == old(self).taken(),
            final(self).timing() == old(self).timing(),
            old(self).held() + popped@ == staged_raw(r) + final(self).held(),
            staged_raw(r).len() == planned((old(self).held() + popped@).len() as int, old(self).bin()),
            r is None <==> planned((old(self).held() + popped@).len() as int, old(self).bin())
                == 0,
            r matches Some(b) ==> b.raw@.len() >= old(self).bin() && b.raw@.len() as int % old(
                self,
            ).bin() == 0 && b.raw@.len() <= FFT_BUF_SIZE && aggregates_of(
                b.raw@,
                old(self).bin(),
                *mean,
                b.aggs@,
            ),
    {
        let bin = self.agg_bin_size.get();
        let mut popped = popped;
        let ghost took = popped@;
        self.carry.append(&mut popped);
        let keep = n_samples(self.carry.len(), bin);
        let mut raw = self.carry.split_off(keep);
        std::mem::swap(&mut raw, &mut self.carry);
        let ghost staged = raw@;
        let r = if keep == 0 {
            None
        } else {
            proof {
                assert(1 * bin <= keep) by {
                    lemma_largest_multiple(raw@.len() as int, bin as int);
                    if keep < bin {
                        assert(keep as int / bin as int == 0) by {
                            vstd::arithmetic::div_mod::lemma_basic_div(keep as int, bin as int);
                        }
                        vstd::arithmetic::div_mod::lemma_fundamental_div_mod(
                            keep as int,
                            bin as int,
                        );
                    }
                }
            }
            let aggs = aggregate(&raw, bin, mean);
            Some(Batch { raw, aggs })
        };
        proof {
            assert(staged + self.carry@ =~= old(self).held() + took);
            assert(staged_raw(r) =~= staged);
        }
        r
    }

    /// Drains the queue for one iteration and aggregates what came out.
    /// Takes nothing while less than one block is queued. Else takes the
    /// planned number of samples, oldest first: whole blocks only, so that
    /// what is left over stays queued. Stages the whole blocks that it
    /// then has, as `stage_popped` says. Should the queue hand out less
    /// than it reported, the samples after the last whole block are held
    /// back for the next iteration.
    pub fn stage<F: Fn(&[Sample]) -> Sample>(&mut self, mean: &F) -> (r: Option<Batch>)
        requires
            accepts_blocks(*mean, old(self).bin()),
        ensures
            final(self).bin() == old(self).bin(),
            final(self).channel() == old(self).channel(),
            final(self).room() == old(self).room(),
            final(self).timing() == old(self).timing(),
            exists|available: int, popped: Seq<Sample>| #[trigger]
                staging(
                    old(self).held(),
                    old(self).bin(),
                    old(self).room(),
                    available,
                    popped,
                    staged_raw(r),
                    final(self).held(),
                ) && final(self).taken() == old(self).taken() + popped,
            old(self).room() < old(self).bin() && old(self).held().len() == 0 ==> r is None,
            r matches Some(b) ==> b.raw@.len() >= old(self).bin() && b.raw@.len() as int % old(
                self,
            ).bin() == 0 && b.raw@.len() <= FFT_BUF_SIZE && aggregates_of(
                b.raw@,
                old(self).bin(),
                *mean,
                b.aggs@,
            ),
    {
        let available = self.rb.len();
        let popped = match self.plan(available) {
            None => Vec::new(),
            Some(n) => self.rb.pop_up_to(n),
        };
        let ghost took = popped@;
        proof {
            assert(old(self).taken() + took =~= self.taken());
        }
        let r = self.stage_popped(popped, mean);
        proof {
            assert(staging(
                old(self).held(),
                old(self).bin(),
                old(self).room(),
                available as int,
                took,
                staged_raw(r),
                self.held(),
            ));
        }
        r
    }

    /// The first half of an iteration: starts the cycle, looks for a stop
    /// request, drains and aggregates what is queued, and where less than
    /// one block was queued waits a moment for a stop request.
    pub fn step<F: Fn(&[Sample]) -> Sample>(&mut self, mean: &F, diagnostics: bool) -> (r: Step)
        requires
            accepts_blocks(*mean, old(self).bin()),
        ensures
            final(self).bin() == old(self).bin(),
            final(self).channel() == old(self).channel(),
            final(self).room() == old(self).room(),
            diagnostics ==> final(self).timing()@ == old(self).timing()@.begin(),
            !diagnostics ==> final(self).timing() == old(self).timing(),
            exists|polled: Signal, waited: Signal, popped: Seq<Sample>| #[trigger]
                stepping(
                    old(self).held(),
                    polled,
                    waited,
                    popped,
                    r,
                    final(self).held(),
                ) && final(self).taken() == old(self).taken() + popped,
            r matches Step::Staged(b) ==> b.raw@.len() >= old(self).bin() && b.raw@.len() as int
                % old(self).bin() == 0 && b.raw@.len() <= FFT_BUF_SIZE && aggregates_of(
                b.raw@,
                old(self).bin(),
                *mean,
                b.aggs@,
            ),
    {
        self.begin_cycle(diagnostics);
        let polled = self.quit_rx.poll();
        if polled.exits() {
            proof {
                let none = Seq::<Sample>::empty();
                assert(old(self).held() + none =~= step_raw(Step::Exit) + self.held());
                assert(self.taken() =~= old(self).taken() + none);
                assert(stepping(
                    old(self).held(),
                    polled,
                    Signal::Nothing,
                    none,
                    Step::Exit,
                    self.held(),
                ));
            }
            return Step::Exit;
        }
        let ghost before = *self;
        let staged = self.stage(mean);
        proof {
            assert(before.held() == old(self).held());
            assert(before.taken() == old(self).taken());
        }
        let ghost (available, popped) = choose|available: int, popped: Seq<Sample>| #[trigger]
            staging(
                before.held(),
                before.bin(),
                before.room(),
                available,
                popped,
                staged_raw(staged),
                self.held(),
            ) && self.taken() == before.taken() + popped;
        match staged {
            Some(batch) => {
                let r = Step::Staged(batch);
                proof {
                    assert(stepping(
                        old(self).held(),
                        polled,
                        Signal::Nothing,
                        popped,
                        r,
                        self.held(),
                    ));
                }
                r
            },
            None => {
                let waited = self.quit_rx.wait();
                let r = if waited.exits() {
                    Step::Exit
                } else {
                    Step::Idle
                };
                proof {
                    assert(stepping(old(self).held(), polled, waited, popped, r, self.held()));
                }
                r
            },
        }
    }

    /// Marks the end of an iteration that processed samples. With
    /// `diagnostics` on, the cycle is timed; where it completes a
    /// diagnostics window, the window is sent over the bus as a timing
    /// report. In every other case the display is only asked to redraw.
    /// Returns whether a report was sent.
    pub fn end_cycle(&mut self, diagnostics: bool) -> (reported: bool)
        ensures
            final(self).bin() == old(self).bin(),
            final(self).channel() == old(self).channel(),
            final(self).room() == old(self).room(),
            final(self).held() == old(self).held(),
            final(self).taken() == old(self).taken(),
            !diagnostics ==> !reported && final(self).timing() == old(self).timing(),
            diagnostics ==> reported == final(self).timing()@.complete() && exists|elapsed: int|
                0 <= elapsed <= CYCLE_TIME_MAX && final(self).timing()@ == (
                #[trigger] old(self).timing()@.end(elapsed)),
    {
        let complete = if diagnostics {
            let complete = self.timing_diagnostics.done();
            proof {
                let elapsed = choose|elapsed: int|
                    0 <= elapsed <= CYCLE_TIME_MAX && self.timing_diagnostics@ == (
                    #[trigger] old(self).timing_diagnostics@.end(elapsed));
                assert(self.timing()@ == old(self).timing()@.end(elapsed));
            }
            complete
        } else {
            false
        };
        match report_for(complete, self.port_idx, self.timing_diagnostics) {
            Some(updt) => {
                self.bus.send(updt);
            },
            None => {
                self.bus.request_repaint();
            },
        }
        complete
    }
}

/// How many samples span `window_nanos` nanoseconds at `sample_rate`
/// samples per second: the window divided by the sample period, rounded
/// up.
pub open spec fn samples_in_window(window_nanos: int, sample_rate: int) -> int {
    (window_nanos * sample_rate + 999_999_999) / 1_000_000_000
}

/// Whether one of `port_names` is `name`.
pub open spec fn names_port(port_names: Seq<String>, name: Seq<char>) -> bool {
    exists|i: int| 0 <= i < port_names.len() && (#[trigger] port_names[i])@ == name
}

/// What the consumer knows of a channel's state and can be changed by an
/// event.
pub struct ChannelState {
    pub enabled: bool,
    pub timing: TimingDiagnostics,
}

impl ChannelState {
    /// The state of the channel `name` with index `port_idx` after one
    /// event: a connection change that names the channel sets `enabled`
    /// to the new connection state, a timing report of the channel's
    /// worker replaces the diagnostics, and any other event changes
    /// nothing.
    pub open spec fn apply(self, name: Seq<char>, port_idx: usize, updt: Update) -> ChannelState {
        match updt {
            Update::PortBuf(crate::comm::PortBuf::TimingDiagnostics { port_idx: idx, timing }) => {
                if idx == port_idx {
                    ChannelState { timing, ..self }
                } else {
                    self
                }
            },
            Update::Jack(Jack::Connected { connected, port_names }) => {
                if names_port(port_names@, name) {
                    ChannelState { enabled: connected, ..self }
                } else {
                    self
                }
            },
            Update::Jack(Jack::TimingDiagnostics(_)) => self,
        }
    }

    /// The state after all of `updts`, first to last.
    pub open spec fn apply_all(
        self,
        name: Seq<char>,
        port_idx: usize,
        updts: Seq<Update>,
    ) -> ChannelState
        decreases updts.len(),
    {
        if updts.len() == 0 {
            self
        } else {
            self.apply_all(name, port_idx, updts.drop_last()).apply(name, port_idx, updts.last())
        }
    }
}

/// Enable flag propagation. Whatever events came before, a connection
/// change that names the channel leaves `enabled` at the event's
/// connection state; one that does not name it, and any event that is no
/// connection change, leaves `enabled` as it was.
pub proof fn lemma_connection_change_sets_enabled(
    state: ChannelState,
    name: Seq<char>,
    port_idx: usize,
    before: Seq<Update>,
    updt: Update,
)
    ensures
        updt matches Update::Jack(Jack::Connected { connected, port_names }) ==> names_port(
            port_names@,
            name,
        ) ==> state.apply_all(name, port_idx, before.push(updt)).enabled == connected,
        updt matches Update::Jack(Jack::Connected { connected, port_names }) ==> !names_port(
            port_names@,
            name,
        ) ==> state.apply_all(name, port_idx, before.push(updt)).enabled == state.apply_all(
            name,
            port_idx,
            before,
        ).enabled,
        !(updt is Jack && updt->Jack_0 is Connected) ==> state.apply_all(
            name,
            port_idx,
            before.push(updt),
        ).enabled == state.apply_all(name, port_idx, before).enabled,
{
    assert(before.push(updt).drop_last() =~= before);
}

/// Whether `name` is one of `port_names`.
pub fn port_is_named(port_names: &Vec<String>, name: &String) -> (r: bool)
    ensures
        r == names_port(port_names@, name@),
{
    let mut i: usize = 0;
    while i < port_names.len()
        invariant
            i <= port_names@.len(),
            forall|k: int| 0 <= k < i ==> (#[trigger] port_names@[k])@ != name@,
        decreases port_names@.len() - i,
    {
        if port_names[i] == *name {
            return true;
        }
        i = i + 1;
    }
    false
}

/// Whether a channel's worker was stopped by a `quit`.
#[derive(Clone, Copy, Debug, PartialEq, Eq, Structural)]
pub enum Quit {
    /// No worker was running: nothing was done.
    NotRunning,
    /// The stop was requested: the worker's thread is to be joined.
    Requested,
    /// A worker had been started, but it is gone already and took no
    /// request.
    WorkerGone,
}

/// What a `quit` says, given whether a worker was running and whether its
/// stop signal took the request.
pub open spec fn quit_outcome(running: bool, queued: bool) -> Quit {
    if !running {
        Quit::NotRunning
    } else if queued {
        Quit::Requested
    } else {
        Quit::WorkerGone
    }
}

/// What a channel has beyond its public values: its index, and the
/// requesting end of its worker's stop signal while a worker runs.
pub struct WorkerLink {
    port_idx: usize,
    quit_tx: Option<StopSender>,
}

impl WorkerLink {
    /// The index of the channel.
    pub closed spec fn index(self) -> usize {
        self.port_idx
    }

    /// Whether a worker was started and not stopped since.
    pub closed spec fn running(self) -> bool {
        self.quit_tx is Some
    }
}

/// One channel as the consumer sees it: its name, whether its port is
/// connected, the sample rate, the diagnostics of its worker, and the
/// requesting end of the worker's stop signal while a worker runs. Its
/// histories are a `TriBuf<N>` that the consumer shares with the worker.
pub struct PortBuf<const N: usize> {
    pub name: String,
    pub timing: TimingDiagnostics,
    pub enabled: bool,
    pub sample_rate: usize,
    pub link: WorkerLink,
}

impl<const N: usize> PortBuf<N> {
    /// The index of the channel.
    pub open spec fn port_idx(self) -> usize {
        self.link.index()
    }

    /// Whether a worker was started and not stopped since.
    pub open spec fn running(self) -> bool {
        self.link.running()
    }

    /// What an event can change.
    pub open spec fn state(self) -> ChannelState {
        ChannelState { enabled: self.enabled, timing: self.timing }
    }

    /// The name of the channel's port.
    pub open spec fn label(self) -> Seq<char> {
        self.name@
    }

    /// Samples per second.
    pub open spec fn rate(self) -> int {
        self.sample_rate as int
    }

    /// Whether the channel's port is connected.
    pub fn enabled(&self) -> (r: bool)
        ensures
            r == self.state().enabled,
    {
        self.enabled
    }

    /// The diagnostics of the channel's worker, as last reported.
    pub fn diagnostics(&self) -> (r: TimingDiagnostics)
        ensures
            r == self.state().timing,
    {
        self.timing
    }

    /// A channel without a worker. Its diagnostics are an empty window
    /// until the first report of a worker arrives.
    pub fn new(port_idx: usize, name: String, enabled: bool, sample_rate: usize) -> (pb: PortBuf<N>)
        ensures
            pb.name == name,
            pb.enabled == enabled,
            pb.sample_rate == sample_rate,
            pb.port_idx() == port_idx,
            pb.timing@ == crate::timing::TimingState::fresh(0),
            !pb.running(),
    {
        PortBuf {
            name,
            enabled,
            sample_rate,
            timing: TimingDiagnostics::new(0),
            link: WorkerLink { port_idx, quit_tx: None },
        }
    }

    /// Makes the channel's worker, to be run on a thread of its own, and
    /// keeps the requesting end of its stop signal. Fails, and changes
    /// nothing, where the block size is zero or does not divide the
    /// staging capacity.
    pub fn activate(&mut self, config: PortBufProcessConfig) -> (r: Result<Worker, ActivateError>)
        ensures
            r is Ok <==> block_size_ok(config.agg_bin_size as int),
            r matches Ok(w) ==> w.bin() == config.agg_bin_size && w.channel() == old(
                self,
            ).port_idx() && w.room() == consumer_room(config.rb) && w.taken() == consumed(
                config.rb,
            ) && w.held().len() == 0 && final(self).running(),
            r matches Err(e) ==> e == ActivateError::BlockSize && final(self).running() == old(
                self,
            ).running(),
            final(self).name == old(self).name,
            final(self).state() == old(self).state(),
            final(self).sample_rate == old(self).sample_rate,
            final(self).port_idx() == old(self).port_idx(),
    {
        let (quit_tx, quit_rx) = crate::comm::stop_signal();
        match Worker::new(self.link.port_idx, config, quit_rx) {
            Ok(worker) => {
                self.link.quit_tx = Some(quit_tx);
                Ok(worker)
            },
            Err(e) => Err(e),
        }
    }

    /// Asks the channel's worker to stop. Says `Requested` where the
    /// caller now has a thread to join. Without a worker nothing happens,
    /// so a second `quit` is harmless and leaves the channel as the first
    /// one left it.
    pub fn quit(&mut self) -> (r: Quit)
        ensures
            !final(self).running(),
            exists|queued: bool| r == #[trigger] quit_outcome(old(self).running(), queued),
            r == Quit::NotRunning <==> !old(self).running(),
            !old(self).running() ==> *final(self) == *old(self),
            final(self).name == old(self).name,
            final(self).state() == old(self).state(),
            final(self).sample_rate == old(self).sample_rate,
            final(self).port_idx() == old(self).port_idx(),
    {
        match self.link.quit_tx.take() {
            Some(quit_tx) => {
                let queued = quit_tx.request();
                let r = if queued {
                    Quit::Requested
                } else {
                    Quit::WorkerGone
                };
                assert(old(self).running());
                assert(r == quit_outcome(old(self).running(), queued));
                r
            },
            None => {
                assert(!old(self).running());
                assert(Quit::NotRunning == quit_outcome(old(self).running(), false));
                Quit::NotRunning
            },
        }
    }

    /// The write cursors of the aggregated and of the raw history.
    pub fn curr_idx(&self, buf: &TriBuf<N>) -> (at: (usize, usize))
        ensures
            at.0 == buf.agg@.cursor,
            at.1 == buf.raw@.cursor,
    {
        buf.curr_idx()
    }

    /// Takes in the events of one tick of the consumer, first to last.
    pub fn update(&mut self, updts: &Vec<Update>)
        ensures
            final(self).state() == old(self).state().apply_all(
                old(self).label(),
                old(self).port_idx(),
                updts@,
            ),
            final(self).name == old(self).name,
            final(self).sample_rate == old(self).sample_rate,
            final(self).port_idx() == old(self).port_idx(),
            final(self).running() == old(self).running(),
    {
        let mut i: usize = 0;
        while i < updts.len()
            invariant
                i <= updts@.len(),
                self.state() == old(self).state().apply_all(
                    old(self).name@,
                    old(self).port_idx(),
                    updts@.take(i as int),
                ),
                self.name == old(self).name,
                self.sample_rate == old(self).sample_rate,
                self.link == old(self).link,
            decreases updts@.len() - i,
        {
            proof {
                assert(updts@.take(i + 1).drop_last() =~= updts@.take(i as int));
            }
            match &updts[i] {
                Update::PortBuf(crate::comm::PortBuf::TimingDiagnostics { port_idx, timing }) => {
                    if *port_idx == self.link.port_idx {
                        self.timing = *timing;
                    }
                },
                Update::Jack(Jack::Connected { connected, port_names }) => {
                    if port_is_named(port_names, &self.name) {
                        self.enabled = *connected;
                    }
                },
                Update::Jack(Jack::TimingDiagnostics(_)) => {},
            }
            i = i + 1;
        }
        proof {
            assert(updts@.take(i as int) =~= updts@);
        }
    }

    /// How many samples a window of `window_nanos` nanoseconds spans at
    /// this channel's sample rate.
    pub fn samples_per_window(&self, window_nanos: u64) -> (n: usize)
        ensures
            n == samples_in_window(window_nanos as int, self.rate()) || (n == usize::MAX
                && samples_in_window(window_nanos as int, self.rate()) > usize::MAX),
    {
        let nanos: u128 = window_nanos as u128;
        let rate: u128 = self.sample_rate as u128;
        proof {
            assert(nanos * rate <= 0xffff_ffff_ffff_ffff * 0xffff_ffff_ffff_ffff)
                by (nonlinear_arith)
                requires
                    0 <= nanos <= 0xffff_ffff_ffff_ffff,
                    0 <= rate <= 0xffff_ffff_ffff_ffff,
            ;
        }
        let samples: u128 = (nanos * rate + 999_999_999) / 1_000_000_000;
        if samples > usize::MAX as u128 {
            usize::MAX
        } else {
            samples as usize
        }
    }

    /// The samples of a time window that ends at the most recent upward
    /// crossing, oldest first, each with its position in the window: the
    /// sample at position `i` belongs to the time `i` sample periods after
    /// the start of the window. The window spans `window_nanos`
    /// nanoseconds, rounded up to whole samples, and holds no more than
    /// the history does.
    pub fn time_window(&self, buf: &TriBuf<N>, window_nanos: u64) -> (out: Vec<(usize, Sample)>)
        ensures
            out@ == ticked(
                buf.raw@.last_n_rising(samples_in_window(window_nanos as int, self.rate())),
            ),
    {
        let samples = self.samples_per_window(window_nanos);
        buf.raw.last_nt_rising(samples)
    }
}

} // verus!
