//! What the capture bridge, the workers and the consumer share: the sizes
//! they agree on, the events they exchange, the update bus that carries
//! the events, and the stop signal of a worker.

use vstd::prelude::*;
use std::time::Duration;
use crossbeam_channel::Receiver;
use crossbeam_channel::Sender;
pub use crate::queue::RingConsumer;
pub use crate::queue::RingProducer;
pub use crate::timing::TimingDiagnostics;

verus! {

/// How many backend blocks fit into one sample queue.
pub const RINGBUF_CYCLE_SIZE: usize = 10;

/// How many samples a channel history holds before it overwrites.
pub const PORT_BUF_SIZE: usize = 65_536;

/// How many samples are averaged into one entry of the aggregated history.
pub const AGG_SAMPLE_SIZE: usize = 1024;

/// How long a worker waits for samples before it looks again, in
/// milliseconds.
pub const PORT_BUF_WAIT_DUR: u64 = 1;

/// How many samples a worker stages at most in one iteration. The
/// aggregation block size must divide it.
pub const FFT_BUF_SIZE: usize = 16_384;

/// How many events the update bus queues.
pub const CHANNEL_BUS_SIZE: usize = 10;

/// How many cycles one diagnostics window spans.
pub const TIMING_DIAGNOSTIC_CYCLES: u32 = 10;

/// What the capture bridge reports.
#[derive(Debug)]
pub enum Jack {
    /// Ports of this client were connected or disconnected.
    Connected { connected: bool, port_names: Vec<String> },
    /// A diagnostics window of the real-time callback is complete.
    TimingDiagnostics(TimingDiagnostics),
}

/// What a channel worker reports.
#[derive(Debug)]
pub enum PortBuf {
    /// A diagnostics window of the worker of channel `port_idx` is
    /// complete.
    TimingDiagnostics { port_idx: usize, timing: TimingDiagnostics },
}

/// An event on the update bus.
#[derive(Debug)]
pub enum Update {
    Jack(Jack),
    PortBuf(PortBuf),
}

/// `Sender` of the crossbeam-channel crate: the sending half of a channel.
/// Opaque: the queue behind it is shared with other threads.
#[verifier::external_type_specification]
#[verifier::external_body]
#[verifier::reject_recursive_types(T)]
pub struct ExSender<T>(Sender<T>);

/// `Receiver` of the crossbeam-channel crate: the receiving half of a
/// channel. Opaque, as the sending half is.
#[verifier::external_type_specification]
#[verifier::external_body]
#[verifier::reject_recursive_types(T)]
pub struct ExReceiver<T>(Receiver<T>);

/// `Context` of the egui crate, through which a repaint is requested.
/// Opaque.
#[verifier::external_type_specification]
#[verifier::external_body]
pub struct ExContext(egui::Context);

/// `Sender::clone`: another sender of the same channel. Nothing is claimed
/// of it.
pub assume_specification<T>[ <Sender<T> as Clone>::clone ](tx: &Sender<T>) -> Sender<T>;

/// `Receiver::clone`: another receiver of the same channel. Nothing is
/// claimed of it.
pub assume_specification<T>[ <Receiver<T> as Clone>::clone ](rx: &Receiver<T>) -> Receiver<T>;

/// `Context::clone` of egui: another handle to the same context. Nothing is
/// claimed of it.
pub assume_specification[ <egui::Context as Clone>::clone ](ctx: &egui::Context) -> egui::Context;

/// What `Sender::capacity` returns for the sending half of an update
/// channel: the capacity that the channel was made with, if it is bounded.
/// It never changes, whatever any thread does.
pub uninterp spec fn update_capacity(tx: Sender<Update>) -> Option<usize>;

/// What `Sender::capacity` returns for the sending half of a stop signal.
pub uninterp spec fn stop_sender_capacity(tx: Sender<()>) -> Option<usize>;

/// What `Receiver::capacity` returns for the receiving half of a stop
/// signal.
pub uninterp spec fn stop_receiver_capacity(rx: Receiver<()>) -> Option<usize>;

/// `crossbeam_channel::bounded` for events: a channel that queues at most
/// `cap` messages, which is then what its capacity is. It panics where
/// `cap` is too large to allocate; nothing here asks for more than
/// `CHANNEL_BUS_SIZE`.
#[verifier::external_body]
fn update_channel(cap: usize) -> (ends: (Sender<Update>, Receiver<Update>))
    requires
        cap <= CHANNEL_BUS_SIZE,
    ensures
        update_capacity(ends.0) == Some(cap),
{
    crossbeam_channel::bounded(cap)
}

/// `crossbeam_channel::bounded` for stop requests: a channel that queues
/// at most `cap` messages, which is then what the capacity of both halves
/// is. A name takes no type parameter, so events and stop requests have a
/// declaration each.
#[verifier::external_body]
fn signal_channel(cap: usize) -> (ends: (Sender<()>, Receiver<()>))
    requires
        cap <= CHANNEL_BUS_SIZE,
    ensures
        stop_sender_capacity(ends.0) == Some(cap),
        stop_receiver_capacity(ends.1) == Some(cap),
{
    crossbeam_channel::bounded(cap)
}

/// `Sender::capacity` of the sending half of an update channel.
#[verifier::external_body]
fn update_sender_capacity(tx: &Sender<Update>) -> (capacity: Option<usize>)
    ensures
        capacity == update_capacity(*tx),
{
    tx.capacity()
}

/// `Sender::capacity` of the sending half of a stop signal.
#[verifier::external_body]
fn signal_sender_capacity(tx: &Sender<()>) -> (capacity: Option<usize>)
    ensures
        capacity == stop_sender_capacity(*tx),
{
    tx.capacity()
}

/// `Receiver::capacity` of the receiving half of a stop signal.
#[verifier::external_body]
fn signal_receiver_capacity(rx: &Receiver<()>) -> (capacity: Option<usize>)
    ensures
        capacity == stop_receiver_capacity(*rx),
{
    rx.capacity()
}

/// `Sender::send`: queues the message, waiting while the channel is full.
/// Returns whether it was queued: it is not where every receiver is gone.
#[verifier::external_body]
fn channel_send<T>(tx: &Sender<T>, msg: T) -> (queued: bool) {
    tx.send(msg).is_ok()
}

/// `Receiver::try_iter`: the messages that are queued now, in the order in
/// which they arrived, without waiting. Other threads fill the queue, so
/// nothing is claimed of what comes out.
#[verifier::external_body]
fn channel_drain(rx: &Receiver<Update>) -> (updts: Vec<Update>) {
    rx.try_iter().collect()
}

/// `Context::request_repaint` of egui: asks the display to redraw soon.
#[verifier::external_body]
fn context_request_repaint(ctx: &egui::Context) {
    ctx.request_repaint()
}

/// What a look at a worker's stop signal found.
#[derive(Clone, Copy, Debug, PartialEq, Eq, Structural)]
pub enum Signal {
    /// A stop request was waiting.
    Stop,
    /// The requesting side is gone: no request can come any more.
    Closed,
    /// Nothing was waiting.
    Nothing,
}

/// `Receiver::try_recv` on a stop signal: looks without waiting.
#[verifier::external_body]
fn signal_try_recv(rx: &Receiver<()>) -> (found: Signal) {
    match rx.try_recv() {
        Ok(_) => Signal::Stop,
        Err(crossbeam_channel::TryRecvError::Disconnected) => Signal::Closed,
        Err(crossbeam_channel::TryRecvError::Empty) => Signal::Nothing,
    }
}

/// `Receiver::recv_timeout` on a stop signal: waits for a request, but no
/// longer than `millis` milliseconds.
#[verifier::external_body]
fn signal_recv_timeout(rx: &Receiver<()>, millis: u64) -> (found: Signal) {
    match rx.recv_timeout(Duration::from_millis(millis)) {
        Ok(_) => Signal::Stop,
        Err(crossbeam_channel::RecvTimeoutError::Disconnected) => Signal::Closed,
        Err(crossbeam_channel::RecvTimeoutError::Timeout) => Signal::Nothing,
    }
}

/// The requesting end of a worker's stop signal.
pub struct StopSender {
    tx: Sender<()>,
}

/// The worker's end of its stop signal.
pub struct StopReceiver {
    rx: Receiver<()>,
}

/// A stop signal with room for one request, as its two ends.
pub fn stop_signal() -> (ends: (StopSender, StopReceiver))
    ensures
        ends.0.room() == Some(1usize),
        ends.1.room() == Some(1usize),
{
    let (tx, rx) = signal_channel(1);
    (StopSender { tx }, StopReceiver { rx })
}

impl Signal {
    /// Whether a worker that found this leaves its loop: on a request, and
    /// when no request can come any more.
    pub open spec fn ends_worker(self) -> bool {
        self != Signal::Nothing
    }

    /// Whether a worker that found this leaves its loop.
    pub fn exits(self) -> (r: bool)
        ensures
            r == self.ends_worker(),
    {
        match self {
            Signal::Stop => true,
            Signal::Closed => true,
            Signal::Nothing => false,
        }
    }
}

impl StopSender {
    /// How many requests the signal queues at most.
    pub closed spec fn room(self) -> Option<usize> {
        stop_sender_capacity(self.tx)
    }

    /// How many requests the signal queues at most.
    pub fn capacity(&self) -> (capacity: Option<usize>)
        ensures
            capacity == self.room(),
    {
        signal_sender_capacity(&self.tx)
    }

    /// Requests the stop. Returns whether the request was queued: it is
    /// not where the worker is gone already. Waits while an earlier
    /// request is still queued.
    pub fn request(&self) -> (queued: bool) {
        channel_send(&self.tx, ())
    }
}

impl StopReceiver {
    /// How many requests the signal queues at most.
    pub closed spec fn room(self) -> Option<usize> {
        stop_receiver_capacity(self.rx)
    }

    /// How many requests the signal queues at most.
    pub fn capacity(&self) -> (capacity: Option<usize>)
        ensures
            capacity == self.room(),
    {
        signal_receiver_capacity(&self.rx)
    }

    /// Looks for a stop request without waiting.
    pub fn poll(&self) -> (found: Signal) {
        signal_try_recv(&self.rx)
    }

    /// Waits for a stop request, but no longer than `PORT_BUF_WAIT_DUR`.
    pub fn wait(&self) -> (found: Signal) {
        signal_recv_timeout(&self.rx, PORT_BUF_WAIT_DUR)
    }
}

/// The update bus: a bounded queue of events from the capture bridge and
/// the workers to the consumer, and the signal that asks the display to
/// redraw. A clone is another handle to the same queue.
#[derive(Clone)]
pub struct Bus {
    ctx: egui::Context,
    tx: Sender<Update>,
    rx: Receiver<Update>,
}

impl Bus {
    /// How many events the bus queues at most.
    pub closed spec fn room(self) -> Option<usize> {
        update_capacity(self.tx)
    }

    /// A bus with room for `CHANNEL_BUS_SIZE` events.
    pub fn new(ctx: egui::Context) -> (bus: Bus)
        ensures
            bus.room() == Some(CHANNEL_BUS_SIZE),
    {
        let (tx, rx) = update_channel(CHANNEL_BUS_SIZE);
        Bus { ctx, tx, rx }
    }

    /// How many events the bus queues at most.
    pub fn capacity(&self) -> (capacity: Option<usize>)
        ensures
            capacity == self.room(),
    {
        update_sender_capacity(&self.tx)
    }

    /// Queues an event and asks for a repaint. Waits while the queue is
    /// full. Returns whether the event was queued; a bus holds a receiver
    /// of its own queue, so there is always one.
    pub fn send(&self, updt: Update) -> (queued: bool) {
        let queued = channel_send(&self.tx, updt);
        context_request_repaint(&self.ctx);
        queued
    }

    /// The events that are queued now, in the order in which they arrived.
    /// Does not wait.
    pub fn updates(&self) -> (updts: Vec<Update>) {
        channel_drain(&self.rx)
    }

    /// Asks for a repaint without queueing an event.
    pub fn request_repaint(&self) {
        context_request_repaint(&self.ctx)
    }
}

} // verus!
