//! The capture bridge: its lifecycle, the per-port enable flags, and what
//! the real-time callback and the notification handler decide. The calls
//! into the audio backend are the caller's; the bridge is told what the
//! backend reported. The bridge, the notification handler and the callback
//! each hold handles to the same enable flags: the first two write them,
//! the callback reads them.

use vstd::prelude::*;
use crate::comm::Bus;
use crate::comm::Jack;
use crate::comm::TIMING_DIAGNOSTIC_CYCLES;
use crate::comm::Update;
use crate::flag::RelaxedFlag;
use crate::flag::lemma_same_flag;
use crate::queue::QUEUE_ROOM_MAX;
use crate::queue::RingConsumer;
use crate::queue::RingProducer;
use crate::queue::ShortWrite;
use crate::queue::consumed;
use crate::queue::consumer_room;
use crate::queue::produced;
use crate::queue::producer_room;
use crate::sample::Sample;
use crate::timing::CYCLE_TIME_MAX;
use crate::timing::TimingDiagnostics;
use crate::timing::lemma_end_after_begin;

verus! {

/// What the bridge is started with: how many backend blocks a sample
/// queue holds, and the update bus.
pub struct JackItConfig {
    pub ringbuf_cycle_size: usize,
    pub bus: Bus,
}

/// Where the bridge stands with the backend.
#[derive(Clone, Copy, Debug, PartialEq, Eq, Structural)]
pub enum ClientState {
    /// No backend client is bound.
    Unconfigured,
    /// A client is bound and inactive.
    Passive,
    /// The client is active: the callback runs.
    Active,
}

/// Why the bridge did not start.
#[derive(Clone, Copy, Debug, PartialEq, Eq, Structural)]
pub enum StartError {
    /// The bridge is active already.
    AlreadyActive,
    /// No backend client is bound.
    NoClient,
    /// The backend registered another number of ports than the bridge has
    /// channels.
    PortCount,
    /// The queue capacity, block size times cycle multiplier, is zero or
    /// more than a queue can have.
    QueueSize,
}

impl ClientState {
    /// The state after a `stop`: an active client is deactivated and stays
    /// bound; every other state stays as it is.
    pub open spec fn stopped(self) -> ClientState {
        match self {
            ClientState::Active => ClientState::Passive,
            other => other,
        }
    }

    /// The state after a client was bound: a bridge without one becomes
    /// passive; every other state stays as it is.
    pub open spec fn bound(self) -> ClientState {
        match self {
            ClientState::Unconfigured => ClientState::Passive,
            other => other,
        }
    }

    /// The error of a `start` in this state, if it has one.
    pub open spec fn start_error(self) -> Option<StartError> {
        match self {
            ClientState::Passive => None,
            ClientState::Active => Some(StartError::AlreadyActive),
            ClientState::Unconfigured => Some(StartError::NoClient),
        }
    }
}

/// Idempotent shutdown: stopping twice leaves the bridge where stopping
/// once left it, and a stopped bridge is never active.
pub proof fn lemma_stop_is_idempotent(state: ClientState)
    ensures
        state.stopped().stopped() == state.stopped(),
        state.stopped() != ClientState::Active,
        state != ClientState::Active ==> state.stopped() == state,
{
}

/// The capacity of a sample queue: the backend's block size times the
/// cycle multiplier.
pub open spec fn queue_capacity(buffer_size: int, ringbuf_cycle_size: int) -> int {
    buffer_size * ringbuf_cycle_size
}

/// Whether a queue of that capacity can be made.
pub open spec fn queue_size_ok(buffer_size: int, ringbuf_cycle_size: int) -> bool {
    0 < queue_capacity(buffer_size, ringbuf_cycle_size) <= QUEUE_ROOM_MAX
}

/// The capacity of a sample queue, if one of that capacity can be made.
pub fn ring_capacity(buffer_size: u32, ringbuf_cycle_size: usize) -> (r: Option<usize>)
    ensures
        r is Some <==> queue_size_ok(buffer_size as int, ringbuf_cycle_size as int),
        r matches Some(c) ==> c == queue_capacity(buffer_size as int, ringbuf_cycle_size as int),
{
    proof {
        assert(buffer_size * ringbuf_cycle_size <= 0xffff_ffff * 0xffff_ffff_ffff_ffff)
            by (nonlinear_arith)
            requires
                0 <= buffer_size <= 0xffff_ffff,
                0 <= ringbuf_cycle_size <= 0xffff_ffff_ffff_ffff,
        ;
    }
    let wide: u128 = (buffer_size as u128) * (ringbuf_cycle_size as u128);
    if wide == 0 || wide > QUEUE_ROOM_MAX as u128 {
        None
    } else {
        Some(wide as usize)
    }
}

/// One port as the real-time callback sees it: the producing end of the
/// port's sample queue and the port's enable flag.
pub struct PortProc {
    rb: RingProducer,
    enabled: RelaxedFlag,
}

/// The state of the real-time callback.
pub struct JProcessor {
    port_procs: Vec<PortProc>,
    bus: Bus,
    timing_diagnostics: TimingDiagnostics,
}

/// How a cycle over the first `ports` ports ends, given what was read
/// from each port's enable flag and how many samples each queue took: with
/// the first short write, and well if there is none.
pub open spec fn cycle_outcome(
    reads: Seq<bool>,
    blocks: Seq<Vec<Sample>>,
    pushed: Seq<int>,
    ports: int,
) -> Result<(), ShortWrite>
    decreases ports,
{
    if ports <= 0 {
        Ok(())
    } else {
        match cycle_outcome(reads, blocks, pushed, ports - 1) {
            Err(e) => Err(e),
            Ok(_) => capture_outcome(
                reads[ports - 1],
                blocks[ports - 1]@.len() as int,
                pushed[ports - 1],
            ),
        }
    }
}

/// A cycle that ended with a short write stays ended: the ports after it
/// do not change how it ends.
pub proof fn lemma_short_write_ends_cycle(
    reads: Seq<bool>,
    blocks: Seq<Vec<Sample>>,
    pushed: Seq<int>,
    at: int,
    ports: int,
)
    requires
        at <= ports,
        cycle_outcome(reads, blocks, pushed, at) is Err,
    ensures
        cycle_outcome(reads, blocks, pushed, ports) == cycle_outcome(reads, blocks, pushed, at),
    decreases ports - at,
{
    if at < ports {
        lemma_short_write_ends_cycle(reads, blocks, pushed, at, ports - 1);
    }
}

/// How a cycle over the first `ports` ports ends depends on those ports
/// only.
pub proof fn lemma_cycle_outcome_of_prefix(
    reads: Seq<bool>,
    pushed: Seq<int>,
    more_reads: Seq<bool>,
    more_pushed: Seq<int>,
    blocks: Seq<Vec<Sample>>,
    ports: int,
)
    requires
        0 <= ports <= reads.len(),
        reads.len() == pushed.len(),
    ensures
        cycle_outcome(reads + more_reads, blocks, pushed + more_pushed, ports) == cycle_outcome(
            reads,
            blocks,
            pushed,
            ports,
        ),
    decreases ports,
{
    if ports > 0 {
        lemma_cycle_outcome_of_prefix(reads, pushed, more_reads, more_pushed, blocks, ports - 1);
    }
}

/// The part of a cycle's result that says how the pushes went.
pub open spec fn pushes(r: Result<bool, ShortWrite>) -> Result<(), ShortWrite> {
    match r {
        Ok(_) => Ok(()),
        Err(e) => Err(e),
    }
}

impl JProcessor {
    /// Whether `after` is this state after a cycle over `blocks` in which
    /// `reads` was read from the enable flags and the queues took `pushed`
    /// samples, and which ended as `outcome` says: the cycle ends with the
    /// first short write, and it leaves every port alone whose flag read
    /// false or that comes after a short write. For every other port it
    /// pushed what the queue took of the port's block, from the front and
    /// in order: the whole block, unless this port's is the short write.
    pub open spec fn cycle(
        self,
        after: JProcessor,
        blocks: Seq<Vec<Sample>>,
        reads: Seq<bool>,
        pushed: Seq<int>,
        outcome: Result<(), ShortWrite>,
    ) -> bool {
        &&& reads.len() == self.ports()
        &&& pushed.len() == self.ports()
        &&& forall|p: int| 0 <= p < self.ports() ==> 0 <= #[trigger] pushed[p] <= blocks[p]@.len()
        &&& outcome == cycle_outcome(reads, blocks, pushed, self.ports())
        &&& forall|p: int|
            0 <= p < self.ports() && (!reads[p] || cycle_outcome(reads, blocks, pushed, p) is Err)
                ==> #[trigger] after.port(p) == self.port(p)
        &&& forall|p: int|
            0 <= p < self.ports() && cycle_outcome(reads, blocks, pushed, p) is Ok ==> (
            #[trigger] after.port(p)).pushed() == self.port(p).pushed() + captured(
                reads[p],
                blocks[p]@,
                pushed[p],
            )
    }

    /// Number of ports.
    pub closed spec fn ports(self) -> int {
        self.port_procs@.len() as int
    }

    /// The room of the sample queue of port `port`.
    pub closed spec fn room(self, port: int) -> nat {
        self.port_procs@[port].room()
    }

    /// The callback's handle to the enable flag of port `port`.
    pub closed spec fn flag(self, port: int) -> RelaxedFlag {
        self.port_procs@[port].flag()
    }

    /// Port `port` as the callback holds it.
    pub closed spec fn port(self, port: int) -> PortProc {
        self.port_procs@[port]
    }

    /// All that the callback has pushed for port `port`, in order.
    pub open spec fn pushed(self, port: int) -> Seq<Sample> {
        self.port(port).pushed()
    }

    /// The diagnostics of the callback's cycles.
    pub closed spec fn timing(self) -> TimingDiagnostics {
        self.timing_diagnostics
    }

    /// The state of a callback over the given ports, with diagnostics
    /// windows of `diagnostic_proc_cycles` cycles.
    pub fn new(port_procs: Vec<PortProc>, bus: Bus, diagnostic_proc_cycles: u32) -> (p: JProcessor)
        ensures
            p.ports() == port_procs@.len(),
            forall|port: int|
                0 <= port < port_procs@.len() ==> #[trigger] p.port(port) == port_procs@[port],
            forall|port: int|
                0 <= port < port_procs@.len() ==> #[trigger] p.room(port) == port_procs@[port].room(),
            forall|port: int|
                0 <= port < port_procs@.len() ==> #[trigger] p.flag(port) == port_procs@[port].flag(),
            p.timing()@ == crate::timing::TimingState::fresh(diagnostic_proc_cycles as int),
    {
        JProcessor {
            port_procs,
            bus,
            timing_diagnostics: TimingDiagnostics::new(diagnostic_proc_cycles),
        }
    }

    /// Number of ports.
    pub fn port_count(&self) -> (n: usize)
        ensures
            n == self.ports(),
    {
        self.port_procs.len()
    }

    /// Whether the callback captures port `port` in this cycle: what the
    /// port's enable flag says at this moment.
    pub fn is_enabled(&self, port: usize) -> (enabled: bool)
        requires
            port < self.ports(),
    {
        self.port_procs[port].enabled.get()
    }

    /// One cycle of the callback. `blocks` holds the backend's block of
    /// each port. The block of each port whose enable flag reads true is
    /// pushed whole into the port's queue, without waiting. A queue that
    /// does not take a whole block ends the cycle with an error: samples
    /// are lost for good then, and the caller must not go on. With
    /// `diagnostics` on, the cycle is timed, and a diagnostics window that
    /// it completes is sent over the bus. Returns whether one was sent.
    pub fn process(&mut self, blocks: &Vec<Vec<Sample>>, diagnostics: bool) -> (r: Result<
        bool,
        ShortWrite,
    >)
        requires
            blocks@.len() == old(self).ports(),
        ensures
            final(self).ports() == old(self).ports(),
            forall|port: int|
                0 <= port < old(self).ports() ==> #[trigger] final(self).room(port) == old(
                    self,
                ).room(port),
            forall|port: int|
                0 <= port < old(self).ports() ==> #[trigger] final(self).flag(port) == old(
                    self,
                ).flag(port),
            exists|reads: Seq<bool>, pushed: Seq<int>| #[trigger]
                old(self).cycle(*final(self), blocks@, reads, pushed, pushes(r)),
            r matches Err(e) ==> e.pushed < e.offered && exists|port: int|
                0 <= port < blocks@.len() && e.offered == (#[trigger] blocks@[port])@.len(),
            r is Err ==> diagnostics ==> final(self).timing()@ == old(self).timing()@.begin(),
            !diagnostics ==> final(self).timing() == old(self).timing() && r != Ok::<
                bool,
                ShortWrite,
            >(true),
            r matches Ok(sent) ==> diagnostics ==> sent == final(self).timing()@.complete()
                && exists|elapsed: int|
                0 <= elapsed <= CYCLE_TIME_MAX && final(self).timing()@ == (
                #[trigger] old(self).timing()@.end(elapsed)),
    {
        if diagnostics {
            self.timing_diagnostics.record();
        }
        let ghost started = self.timing_diagnostics@;
        let ghost mut reads: Seq<bool> = Seq::empty();
        let ghost mut pushed: Seq<int> = Seq::empty();
        let ghost ports = self.port_procs@.len() as int;
        let mut port: usize = 0;
        while port < self.port_procs.len()
            invariant
                port <= self.port_procs@.len(),
                ports == old(self).port_procs@.len(),
                self.port_procs@.len() == ports,
                forall|k: int|
                    0 <= k < ports ==> (#[trigger] self.port_procs@[k]).room() == old(
                        self,
                    ).port_procs@[k].room() && self.port_procs@[k].flag() == old(
                        self,
                    ).port_procs@[k].flag(),
                blocks@.len() == ports,
                reads.len() == port,
                pushed.len() == port,
                forall|k: int| 0 <= k < port ==> 0 <= #[trigger] pushed[k] <= blocks@[k]@.len(),
                cycle_outcome(reads, blocks@, pushed, port as int) is Ok,
                forall|k: int|
                    0 <= k < port && !reads[k] ==> #[trigger] self.port_procs@[k] == old(
                        self,
                    ).port_procs@[k],
                forall|k: int|
                    0 <= k < port ==> (#[trigger] self.port_procs@[k]).pushed() == old(
                        self,
                    ).port_procs@[k].pushed() + captured(reads[k], blocks@[k]@, pushed[k]),
                forall|k: int|
                    port <= k < ports ==> #[trigger] self.port_procs@[k] == old(
                        self,
                    ).port_procs@[k],
                self.timing_diagnostics@ == started,
                diagnostics ==> started == old(self).timing_diagnostics@.begin(),
                !diagnostics ==> self.timing_diagnostics == old(self).timing_diagnostics,
            decreases self.port_procs@.len() - port,
        {
            let ghost before = *self;
            let enabled = self.port_procs[port].enabled.get();
            let outcome = self.port_procs[port].capture_if(enabled, blocks[port].as_slice());
            proof {
                let took = choose|took: int|
                    0 <= took <= blocks@[port as int]@.len() && outcome
                        == #[trigger] capture_outcome(
                        enabled,
                        blocks@[port as int]@.len() as int,
                        took,
                    ) && self.port_procs@[port as int].pushed()
                        == before.port_procs@[port as int].pushed() + captured(
                        enabled,
                        blocks@[port as int]@,
                        took,
                    );
                lemma_cycle_outcome_of_prefix(
                    reads,
                    pushed,
                    seq![enabled],
                    seq![took],
                    blocks@,
                    port as int,
                );
                reads = reads + seq![enabled];
                pushed = pushed + seq![took];
                assert(cycle_outcome(reads, blocks@, pushed, port + 1) == outcome);
            }
            match outcome {
                Ok(()) => {},
                Err(e) => {
                    proof {
                        let rest = (ports - port - 1) as nat;
                        let more_reads = Seq::new(rest, |k: int| false);
                        let more_pushed = Seq::new(rest, |k: int| 0int);
                        let all_reads = reads + more_reads;
                        let all_pushed = pushed + more_pushed;
                        lemma_cycle_outcome_of_prefix(
                            reads,
                            pushed,
                            more_reads,
                            more_pushed,
                            blocks@,
                            port + 1,
                        );
                        lemma_short_write_ends_cycle(
                            all_reads,
                            blocks@,
                            all_pushed,
                            port + 1,
                            ports,
                        );
                        assert forall|p: int|
                            0 <= p < ports && (!all_reads[p] || cycle_outcome(
                                all_reads,
                                blocks@,
                                all_pushed,
                                p,
                            ) is Err) implies #[trigger] self.port(p) == old(self).port(p) by {
                            if p <= port {
                                lemma_cycle_outcome_of_prefix(
                                    reads,
                                    pushed,
                                    more_reads,
                                    more_pushed,
                                    blocks@,
                                    p,
                                );
                                if cycle_outcome(reads, blocks@, pushed, p) is Err {
                                    lemma_short_write_ends_cycle(
                                        reads,
                                        blocks@,
                                        pushed,
                                        p,
                                        port as int,
                                    );
                                }
                                if p < port {
                                    assert(all_reads[p] == reads[p]);
                                }
                            }
                        }
                        assert forall|p: int|
                            0 <= p < ports && cycle_outcome(all_reads, blocks@, all_pushed, p)
                                is Ok implies (#[trigger] self.port(p)).pushed() == old(
                            self,
                        ).port(p).pushed() + captured(
                            all_reads[p],
                            blocks@[p]@,
                            all_pushed[p],
                        ) by {
                            if p > port {
                                lemma_short_write_ends_cycle(
                                    all_reads,
                                    blocks@,
                                    all_pushed,
                                    port + 1,
                                    p,
                                );
                            } else {
                                assert(all_reads[p] == reads[p]);
                                assert(all_pushed[p] == pushed[p]);
                            }
                        }
                        assert(old(self).cycle(
                            *self,
                            blocks@,
                            all_reads,
                            all_pushed,
                            Err::<(), ShortWrite>(e),
                        ));
                    }
                    return Err(e);
                },
            }
            port = port + 1;
        }
        let sent = if diagnostics {
            let complete = self.timing_diagnostics.done();
            proof {
                let elapsed = choose|elapsed: int|
                    0 <= elapsed <= CYCLE_TIME_MAX && self.timing_diagnostics@ == (
                    #[trigger] started.end(elapsed));
                lemma_end_after_begin(old(self).timing_diagnostics@, elapsed);
                assert(self.timing()@ == old(self).timing()@.end(elapsed));
            }
            if complete {
                self.bus.send(Update::Jack(Jack::TimingDiagnostics(self.timing_diagnostics)));
            }
            complete
        } else {
            false
        };
        proof {
            assert forall|p: int|
                0 <= p < ports && (!reads[p] || cycle_outcome(reads, blocks@, pushed, p) is Err)
                    implies #[trigger] self.port(p) == old(self).port(p) by {
                if cycle_outcome(reads, blocks@, pushed, p) is Err {
                    lemma_short_write_ends_cycle(reads, blocks@, pushed, p, ports);
                }
            }
            assert(old(self).cycle(*self, blocks@, reads, pushed, Ok::<(), ShortWrite>(())));
        }
        Ok(sent)
    }
}

/// What the callback returns for a port's block of `offered` samples,
/// given what it read from the port's enable flag and how many samples the
/// queue took: a disabled port is skipped, and an enabled port's block
/// must go into the queue whole.
pub open spec fn capture_outcome(enabled: bool, offered: int, pushed: int) -> Result<
    (),
    ShortWrite,
> {
    if enabled {
        crate::queue::block_outcome(offered, pushed)
    } else {
        Ok(())
    }
}

/// What the callback pushes for a port's block, given what it read from
/// the port's enable flag and how many samples the queue took: the first
/// that many samples of the block, in order, and nothing for a disabled
/// port.
pub open spec fn captured(enabled: bool, block: Seq<Sample>, pushed: int) -> Seq<Sample> {
    if enabled {
        block.take(pushed)
    } else {
        Seq::empty()
    }
}

impl PortProc {
    /// All that the callback has pushed for this port, in order.
    pub closed spec fn pushed(self) -> Seq<Sample> {
        produced(self.rb)
    }

    /// The room of the port's sample queue.
    pub closed spec fn room(self) -> nat {
        producer_room(self.rb)
    }

    /// The port's handle to its enable flag.
    pub closed spec fn flag(self) -> RelaxedFlag {
        self.enabled
    }

    /// A port of the callback: the producing end of its queue, and its
    /// enable flag.
    pub fn new(rb: RingProducer, enabled: RelaxedFlag) -> (pp: PortProc)
        ensures
            pp.room() == producer_room(rb),
            pp.pushed() == produced(rb),
            pp.flag() == enabled,
    {
        PortProc { rb, enabled }
    }

    /// Pushes `block` into the port's queue if `enabled` says so, and
    /// leaves the queue alone if not.
    pub fn capture_if(&mut self, enabled: bool, block: &[Sample]) -> (r: Result<(), ShortWrite>)
        ensures
            exists|pushed: int|
                0 <= pushed <= block@.len() && r == #[trigger] capture_outcome(
                    enabled,
                    block@.len() as int,
                    pushed,
                ) && final(self).pushed() == old(self).pushed() + captured(
                    enabled,
                    block@,
                    pushed,
                ),
            enabled && r is Ok ==> final(self).pushed() == old(self).pushed() + block@,
            !enabled ==> r is Ok && *final(self) == *old(self),
            final(self).flag() == old(self).flag(),
            block@.len() == 0 ==> r is Ok,
            enabled && block@.len() > old(self).room() ==> r is Err,
            r matches Err(e) ==> e.offered == block@.len() && e.pushed < e.offered && e.pushed
                <= old(self).room(),
            final(self).room() == old(self).room(),
    {
        if enabled {
            let r = self.rb.push_block(block);
            proof {
                let pushed = match r {
                    Ok(_) => block@.len() as int,
                    Err(e) => e.pushed as int,
                };
                assert(block@.take(block@.len() as int) =~= block@);
                assert(r == capture_outcome(enabled, block@.len() as int, pushed));
                assert(self.pushed() == old(self).pushed() + captured(enabled, block@, pushed));
            }
            r
        } else {
            proof {
                assert(Ok::<(), ShortWrite>(()) == capture_outcome(
                    enabled,
                    block@.len() as int,
                    0,
                ));
                assert(old(self).pushed() + captured(enabled, block@, 0) =~= old(self).pushed());
            }
            Ok(())
        }
    }

    /// One port's share of a cycle of the callback: reads the port's
    /// enable flag, and pushes `block` if the flag reads true.
    pub fn capture(&mut self, block: &[Sample]) -> (r: Result<(), ShortWrite>)
        ensures
            exists|enabled: bool, pushed: int|
                0 <= pushed <= block@.len() && r == #[trigger] capture_outcome(
                    enabled,
                    block@.len() as int,
                    pushed,
                ) && final(self).pushed() == old(self).pushed() + captured(
                    enabled,
                    block@,
                    pushed,
                ),
            block@.len() == 0 ==> r is Ok,
            r matches Err(e) ==> e.offered == block@.len() && e.pushed < e.offered && e.pushed
                <= old(self).room(),
            final(self).room() == old(self).room(),
            final(self).flag() == old(self).flag(),
    {
        let enabled = self.enabled.get();
        let r = self.capture_if(enabled, block);
        proof {
            let pushed = choose|pushed: int|
                0 <= pushed <= block@.len() && r == #[trigger] capture_outcome(
                    enabled,
                    block@.len() as int,
                    pushed,
                ) && self.pushed() == old(self).pushed() + captured(enabled, block@, pushed);
            assert(r == capture_outcome(enabled, block@.len() as int, pushed));
        }
        r
    }
}

/// The event for a change in the connections of this client's ports
/// `port_names`: none where the change touches none of them.
pub open spec fn connection_event(port_names: Vec<String>, are_connected: bool) -> Option<Update> {
    if port_names@.len() > 0 {
        Some(Update::Jack(Jack::Connected { connected: are_connected, port_names }))
    } else {
        None
    }
}

/// The event for a connection change between two ports, given the names
/// of those of the two that belong to this client.
pub fn connection_update(port_names: Vec<String>, are_connected: bool) -> (r: Option<Update>)
    ensures
        r == connection_event(port_names, are_connected),
{
    if port_names.len() > 0 {
        Some(Update::Jack(Jack::Connected { connected: are_connected, port_names }))
    } else {
        None
    }
}

/// What the notification handler does when two ports were connected or
/// disconnected: it sends a connection change with the names of those of
/// the two that belong to this client, unless none does. Returns whether
/// it sent one.
pub fn ports_connected(
    bus: &Bus,
    flags: &mut PortFlags,
    port_names: Vec<String>,
    are_connected: bool,
) -> (sent: bool)
    ensures
        sent == (port_names@.len() > 0),
        final(flags).shares(*old(flags)),
        forall|p: int|
            0 <= p < old(flags).names().len() ==> (#[trigger] final(flags).flag(p)).written()
                == after_writes(
                old(flags).written(p),
                named_writes(old(flags).names(), port_names@, are_connected),
                p,
            ),
{
    flags.write(&port_names, are_connected);
    match connection_update(port_names, are_connected) {
        Some(updt) => {
            bus.send(updt);
            true
        },
        None => false,
    }
}

/// The first position of `name` in `port_names`, if it has one.
pub open spec fn position_of(port_names: Seq<String>, name: Seq<char>) -> Option<int> {
    if exists|i: int| 0 <= i < port_names.len() && (#[trigger] port_names[i])@ == name {
        Some(first_position(port_names, name))
    } else {
        None
    }
}

/// The least index at which `port_names` holds `name`.
pub open spec fn first_position(port_names: Seq<String>, name: Seq<char>) -> int
    decreases port_names.len(),
{
    if port_names.len() == 0 {
        0
    } else if port_names[0]@ == name {
        0
    } else {
        1 + first_position(port_names.drop_first(), name)
    }
}

/// Where `first_position` is asked for a name that occurs, it gives the
/// least index at which the name stands.
pub proof fn lemma_first_position(port_names: Seq<String>, name: Seq<char>, at: int)
    requires
        0 <= at < port_names.len(),
        port_names[at]@ == name,
    ensures
        0 <= first_position(port_names, name) <= at,
        port_names[first_position(port_names, name)]@ == name,
        forall|k: int|
            0 <= k < first_position(port_names, name) ==> (#[trigger] port_names[k])@ != name,
    decreases port_names.len(),
{
    if port_names[0]@ != name {
        let rest = port_names.drop_first();
        lemma_first_position(rest, name, at - 1);
        let p = first_position(rest, name);
        assert forall|k: int| 0 <= k < p + 1 implies (#[trigger] port_names[k])@ != name by {
            if k > 0 {
                assert(port_names[k] == rest[k - 1]);
            }
        }
    }
}

/// The flag writes that one event asks for, in order: for a connection
/// change, one write of the new connection state for each of its port
/// names that is a port of the bridge, to that port's flag.
pub open spec fn flag_writes(port_names: Seq<String>, updt: Update) -> Seq<(int, bool)> {
    match updt {
        Update::Jack(Jack::Connected { connected, port_names: changed }) => named_writes(
            port_names,
            changed@,
            connected,
        ),
        _ => Seq::empty(),
    }
}

/// One write of `connected` for each of `changed` that is one of
/// `port_names`, in the order of `changed`.
pub open spec fn named_writes(
    port_names: Seq<String>,
    changed: Seq<String>,
    connected: bool,
) -> Seq<(int, bool)>
    decreases changed.len(),
{
    if changed.len() == 0 {
        Seq::empty()
    } else {
        let before = named_writes(port_names, changed.drop_last(), connected);
        match position_of(port_names, changed.last()@) {
            Some(i) => before.push((i, connected)),
            None => before,
        }
    }
}

/// The diagnostics of the callback after one event: a timing report of
/// the callback replaces them.
pub open spec fn timing_after(timing: TimingDiagnostics, updt: Update) -> TimingDiagnostics {
    match updt {
        Update::Jack(Jack::TimingDiagnostics(d)) => d,
        _ => timing,
    }
}

/// The diagnostics of the callback after all of `updts`, first to last.
pub open spec fn timing_after_all(timing: TimingDiagnostics, updts: Seq<Update>) -> TimingDiagnostics
    decreases updts.len(),
{
    if updts.len() == 0 {
        timing
    } else {
        timing_after(timing_after_all(timing, updts.drop_last()), updts.last())
    }
}

/// The flag writes that all of `updts` ask for, first to last.
pub open spec fn flag_writes_all(port_names: Seq<String>, updts: Seq<Update>) -> Seq<(int, bool)>
    decreases updts.len(),
{
    if updts.len() == 0 {
        Seq::empty()
    } else {
        flag_writes_all(port_names, updts.drop_last()) + flag_writes(port_names, updts.last())
    }
}

/// What a flag holds after the writes `writes` were made in order, as far
/// as this end wrote it: the value of the last write to flag `p`, and
/// `before` where none of the writes goes to `p`.
pub open spec fn after_writes(before: bool, writes: Seq<(int, bool)>, p: int) -> bool
    decreases writes.len(),
{
    if writes.len() == 0 {
        before
    } else if writes.last().0 == p {
        writes.last().1
    } else {
        after_writes(before, writes.drop_last(), p)
    }
}

/// Writes made one batch after the other are the writes of both batches
/// made in order.
pub proof fn lemma_after_writes_append(
    before: bool,
    first: Seq<(int, bool)>,
    second: Seq<(int, bool)>,
    p: int,
)
    ensures
        after_writes(after_writes(before, first, p), second, p) == after_writes(
            before,
            first + second,
            p,
        ),
    decreases second.len(),
{
    if second.len() == 0 {
        assert(first + second =~= first);
    } else {
        assert((first + second).drop_last() =~= first + second.drop_last());
        assert((first + second).last() == second.last());
        lemma_after_writes_append(before, first, second.drop_last(), p);
    }
}

/// The writes of a sequence of events are made event by event: what a flag
/// holds after one more event is what that event's writes make of what the
/// flag held after the events before it.
pub proof fn lemma_updates_apply_in_order(
    port_names: Seq<String>,
    updts: Seq<Update>,
    updt: Update,
    before: bool,
    p: int,
)
    ensures
        after_writes(before, flag_writes_all(port_names, updts.push(updt)), p) == after_writes(
            after_writes(before, flag_writes_all(port_names, updts), p),
            flag_writes(port_names, updt),
            p,
        ),
{
    assert(updts.push(updt).drop_last() =~= updts);
    lemma_after_writes_append(
        before,
        flag_writes_all(port_names, updts),
        flag_writes(port_names, updt),
        p,
    );
}

/// Enable flag propagation, on the side of the flags. After the writes of
/// a connection change, the flag of every port that the change names
/// holds the change's connection state, and the flag of every other port
/// holds what it held.
pub proof fn lemma_connection_change_sets_flags(
    port_names: Seq<String>,
    changed: Seq<String>,
    connected: bool,
    before: bool,
    p: int,
)
    ensures
        (exists|at: int|
            0 <= at < changed.len() && #[trigger] position_of(port_names, changed[at]@) == Some(
                p,
            )) ==> after_writes(before, named_writes(port_names, changed, connected), p)
            == connected,
        (forall|at: int|
            0 <= at < changed.len() ==> #[trigger] position_of(port_names, changed[at]@) != Some(
                p,
            )) ==> after_writes(before, named_writes(port_names, changed, connected), p)
            == before,
    decreases changed.len(),
{
    if changed.len() > 0 {
        let head = changed.drop_last();
        lemma_connection_change_sets_flags(port_names, head, connected, before, p);
        let all = named_writes(port_names, changed, connected);
        let part = named_writes(port_names, head, connected);
        assert forall|at: int| 0 <= at < head.len() implies head[at] == changed[at] by {}
        if position_of(port_names, changed.last()@) == Some(p) {
            assert(all == part.push((p, connected)));
            assert(all.last() == (p, connected));
        } else {
            if exists|at: int|
                0 <= at < changed.len() && #[trigger] position_of(port_names, changed[at]@)
                    == Some(p) {
                let at = choose|at: int|
                    0 <= at < changed.len() && #[trigger] position_of(port_names, changed[at]@)
                        == Some(p);
                assert(at < head.len());
                assert(position_of(port_names, head[at]@) == Some(p));
            }
            match position_of(port_names, changed.last()@) {
                Some(i) => {
                    assert(all == part.push((i, connected)));
                    assert(all.drop_last() =~= part);
                },
                None => {
                    assert(all == part);
                },
            }
        }
    }
}

/// One port of the bridge: its name and a handle to its enable flag.
pub struct PortFlag {
    name: String,
    flag: RelaxedFlag,
}

/// The ports of the bridge, by name, with a handle to the enable flag of
/// each. The bridge holds one set of handles, the notification handler
/// another, and the real-time callback reads through a third.
pub struct PortFlags {
    ports: Vec<PortFlag>,
}

impl PortFlags {
    /// The names of the ports, in order.
    pub closed spec fn names(self) -> Seq<String> {
        Seq::new(self.ports@.len(), |p: int| self.ports@[p].name)
    }

    /// The handle to the flag of port `p`.
    pub closed spec fn flag(self, p: int) -> RelaxedFlag {
        self.ports@[p].flag
    }

    /// What these handles wrote last to the flag of port `p`.
    pub open spec fn written(self, p: int) -> bool {
        self.flag(p).written()
    }

    /// Whether the two sets have the same names and handles to the same
    /// flags.
    pub open spec fn shares(self, other: PortFlags) -> bool {
        &&& self.names() == other.names()
        &&& forall|p: int|
            0 <= p < self.names().len() ==> (#[trigger] self.flag(p)).same_flag(other.flag(p))
    }

    /// One flag per name, each holding `false`: no port is connected yet.
    pub fn new(port_names: &Vec<String>) -> (flags: PortFlags)
        ensures
            flags.names() == port_names@,
            forall|p: int| 0 <= p < port_names@.len() ==> !(#[trigger] flags.flag(p)).written(),
    {
        let mut ports: Vec<PortFlag> = Vec::with_capacity(port_names.len());
        let mut i: usize = 0;
        while i < port_names.len()
            invariant
                i <= port_names@.len(),
                ports@.len() == i,
                forall|p: int|
                    0 <= p < i ==> (#[trigger] ports@[p]).name == port_names@[p]
                        && !ports@[p].flag.written(),
            decreases port_names@.len() - i,
        {
            ports.push(PortFlag { name: port_names[i].clone(), flag: RelaxedFlag::new(false) });
            i = i + 1;
        }
        let flags = PortFlags { ports };
        assert(flags.names() =~= port_names@);
        flags
    }

    /// The same ports under the names `registered`, with handles to the
    /// same flags.
    pub fn renamed(&self, registered: &Vec<String>) -> (flags: PortFlags)
        requires
            registered@.len() == self.names().len(),
        ensures
            flags.names() == registered@,
            forall|p: int|
                0 <= p < registered@.len() ==> (#[trigger] flags.flag(p)).same_flag(self.flag(p))
                    && flags.written(p) == self.written(p),
    {
        let mut ports: Vec<PortFlag> = Vec::with_capacity(registered.len());
        let mut i: usize = 0;
        while i < registered.len()
            invariant
                registered@.len() == self.ports@.len(),
                i <= registered@.len(),
                ports@.len() == i,
                forall|p: int|
                    0 <= p < i ==> (#[trigger] ports@[p]).name == registered@[p]
                        && ports@[p].flag.same_flag(self.ports@[p].flag)
                        && ports@[p].flag.written() == self.ports@[p].flag.written(),
            decreases registered@.len() - i,
        {
            ports.push(PortFlag { name: registered[i].clone(), flag: self.ports[i].flag.share() });
            i = i + 1;
        }
        let flags = PortFlags { ports };
        assert(flags.names() =~= registered@);
        flags
    }

    /// Another set of handles to the same flags, under the same names.
    pub fn share(&self) -> (flags: PortFlags)
        ensures
            flags.shares(*self),
            forall|p: int|
                0 <= p < self.names().len() ==> (#[trigger] flags.flag(p)).written() == self.written(p),
    {
        let mut ports: Vec<PortFlag> = Vec::with_capacity(self.ports.len());
        let mut i: usize = 0;
        while i < self.ports.len()
            invariant
                i <= self.ports@.len(),
                ports@.len() == i,
                forall|p: int|
                    0 <= p < i ==> (#[trigger] ports@[p]).name == self.ports@[p].name
                        && ports@[p].flag.same_flag(self.ports@[p].flag)
                        && ports@[p].flag.written() == self.ports@[p].flag.written(),
            decreases self.ports@.len() - i,
        {
            ports.push(
                PortFlag { name: self.ports[i].name.clone(), flag: self.ports[i].flag.share() },
            );
            i = i + 1;
        }
        let flags = PortFlags { ports };
        assert(flags.names() =~= self.names());
        flags
    }

    /// Number of ports.
    pub fn len(&self) -> (n: usize)
        ensures
            n == self.names().len(),
    {
        self.ports.len()
    }

    /// The names of the ports, in order.
    pub fn port_names(&self) -> (names: Vec<String>)
        ensures
            names@ == self.names(),
    {
        let mut names: Vec<String> = Vec::with_capacity(self.ports.len());
        let mut i: usize = 0;
        while i < self.ports.len()
            invariant
                i <= self.ports@.len(),
                names@.len() == i,
                forall|p: int| 0 <= p < i ==> #[trigger] names@[p] == self.ports@[p].name,
            decreases self.ports@.len() - i,
        {
            names.push(self.ports[i].name.clone());
            i = i + 1;
        }
        assert(names@ =~= self.names());
        names
    }

    /// The first position of `name` among the names.
    pub fn position(&self, name: &String) -> (r: Option<usize>)
        ensures
            r matches Some(i) ==> position_of(self.names(), name@) == Some(i as int) && i
                < self.names().len(),
            r is None ==> position_of(self.names(), name@) is None,
    {
        let mut i: usize = 0;
        while i < self.ports.len()
            invariant
                i <= self.ports@.len(),
                forall|k: int| 0 <= k < i ==> (#[trigger] self.names()[k])@ != name@,
            decreases self.ports@.len() - i,
        {
            if self.ports[i].name == *name {
                proof {
                    assert(self.names()[i as int] == self.ports@[i as int].name);
                    lemma_first_position(self.names(), name@, i as int);
                }
                return Some(i);
            }
            proof {
                assert(self.names()[i as int] == self.ports@[i as int].name);
            }
            i = i + 1;
        }
        None
    }

    /// What these handles wrote last to the flag of port `port`.
    pub fn last_written(&self, port: usize) -> (value: bool)
        requires
            port < self.names().len(),
        ensures
            value == self.written(port as int),
    {
        self.ports[port].flag.last_written()
    }

    /// Makes the writes of a connection change: writes `connected` to the
    /// flag of each of `changed` that is a port of the bridge. A name that
    /// is no port of the bridge changes nothing.
    pub fn write(&mut self, changed: &Vec<String>, connected: bool)
        ensures
            final(self).shares(*old(self)),
            forall|p: int|
                0 <= p < old(self).names().len() ==> (#[trigger] final(self).flag(p)).written()
                    == after_writes(
                    old(self).written(p),
                    named_writes(old(self).names(), changed@, connected),
                    p,
                ),
    {
        proof {
            assert forall|p: int| 0 <= p < self.ports@.len() implies (
            #[trigger] self.ports@[p]).flag.same_flag(old(self).ports@[p].flag) by {
                lemma_same_flag(self.ports@[p].flag, self.ports@[p].flag, self.ports@[p].flag);
            }
        }
        let mut i: usize = 0;
        while i < changed.len()
            invariant
                i <= changed@.len(),
                self.ports@.len() == old(self).ports@.len(),
                self.names() == old(self).names(),
                forall|p: int|
                    0 <= p < self.ports@.len() ==> (#[trigger] self.ports@[p]).flag.same_flag(
                        old(self).ports@[p].flag,
                    ),
                forall|p: int|
                    0 <= p < self.ports@.len() ==> (#[trigger] self.ports@[p]).flag.written()
                        == after_writes(
                        old(self).ports@[p].flag.written(),
                        named_writes(old(self).names(), changed@.take(i as int), connected),
                        p,
                    ),
            decreases changed@.len() - i,
        {
            proof {
                assert(changed@.take(i + 1).drop_last() =~= changed@.take(i as int));
                assert(changed@.take(i + 1).last() == changed@[i as int]);
            }
            let ghost before = *self;
            match self.position(&changed[i]) {
                Some(at) => {
                    self.ports[at].flag.set(connected);
                    proof {
                        assert(self.names() =~= before.names());
                        assert forall|p: int| 0 <= p < self.ports@.len() implies (
                        #[trigger] self.ports@[p]).flag.same_flag(old(self).ports@[p].flag) by {
                            lemma_same_flag(
                                self.ports@[p].flag,
                                before.ports@[p].flag,
                                old(self).ports@[p].flag,
                            );
                        }
                        let part = named_writes(
                            old(self).names(),
                            changed@.take(i as int),
                            connected,
                        );
                        let all = named_writes(
                            old(self).names(),
                            changed@.take(i + 1),
                            connected,
                        );
                        assert(all == part.push((at as int, connected)));
                        assert(all.drop_last() =~= part);
                    }
                },
                None => {},
            }
            i = i + 1;
        }
        proof {
            assert(changed@.take(i as int) =~= changed@);
        }
    }
}

/// Why a `start` fails, if it does: because of the state that the bridge
/// is in, else because the backend registered another number of ports
/// than the bridge has channels, else because no queue of the asked
/// capacity can be made.
pub open spec fn start_refusal(
    state: ClientState,
    channels: int,
    registered: int,
    buffer_size: int,
    ringbuf_cycle_size: int,
) -> Option<StartError> {
    if state.start_error() is Some {
        state.start_error()
    } else if registered != channels {
        Some(StartError::PortCount)
    } else if !queue_size_ok(buffer_size, ringbuf_cycle_size) {
        Some(StartError::QueueSize)
    } else {
        None
    }
}

/// The state after a `start`: active where it succeeded, and unchanged
/// where it failed.
pub open spec fn state_after_start(state: ClientState, refusal: Option<StartError>) -> ClientState {
    if refusal is None {
        ClientState::Active
    } else {
        state
    }
}

/// The capture bridge, without its backend client: the lifecycle state,
/// the channels' port names and enable flags, and the diagnostics of the
/// callback as last reported.
pub struct JackIt {
    timing: TimingDiagnostics,
    client: ClientState,
    flags: PortFlags,
}

/// What a started bridge hands out: the state of the real-time callback,
/// for the notification handler a handle to the update bus and handles to
/// the enable flags, and the consuming end of each channel's sample queue.
pub struct Started {
    pub processor: JProcessor,
    pub bus: Bus,
    pub flags: PortFlags,
    pub consumers: Vec<RingConsumer>,
}

impl JackIt {
    /// Where the bridge stands with the backend.
    pub closed spec fn state(self) -> ClientState {
        self.client
    }

    /// The names of the channels' ports.
    pub closed spec fn names(self) -> Seq<String> {
        self.flags.names()
    }

    /// The bridge's handle to the enable flag of port `p`.
    pub closed spec fn flag(self, p: int) -> RelaxedFlag {
        self.flags.flag(p)
    }

    /// What the bridge wrote last to the enable flag of port `p`.
    pub open spec fn written(self, p: int) -> bool {
        self.flag(p).written()
    }

    /// The diagnostics of the callback, as last reported.
    pub closed spec fn diagnostics(self) -> TimingDiagnostics {
        self.timing
    }

    /// A bridge for a backend client that was just bound, with one channel
    /// for each of `port_names`. All channels start disabled, until a
    /// connection is made.
    pub fn new(port_names: Vec<String>) -> (jackit: JackIt)
        ensures
            jackit.state() == ClientState::Passive,
            jackit.names() == port_names@,
            jackit.diagnostics()@ == crate::timing::TimingState::fresh(0),
            forall|p: int| 0 <= p < port_names@.len() ==> !(#[trigger] jackit.flag(p)).written(),
    {
        JackIt {
            timing: TimingDiagnostics::new(0),
            client: ClientState::Passive,
            flags: PortFlags::new(&port_names),
        }
    }

    /// A bridge to which no backend client is bound yet, with one channel
    /// for each of `port_names`, all disabled.
    pub fn unbound(port_names: Vec<String>) -> (jackit: JackIt)
        ensures
            jackit.state() == ClientState::Unconfigured,
            jackit.names() == port_names@,
            jackit.diagnostics()@ == crate::timing::TimingState::fresh(0),
            forall|p: int| 0 <= p < port_names@.len() ==> !(#[trigger] jackit.flag(p)).written(),
    {
        JackIt {
            timing: TimingDiagnostics::new(0),
            client: ClientState::Unconfigured,
            flags: PortFlags::new(&port_names),
        }
    }

    /// Takes note that a backend client was bound: a bridge without a
    /// client becomes passive. Returns whether it had none; a bridge that
    /// has a client is left as it is.
    pub fn bind(&mut self) -> (bound: bool)
        ensures
            bound == (old(self).state() == ClientState::Unconfigured),
            final(self).state() == old(self).state().bound(),
            final(self).names() == old(self).names(),
            final(self).diagnostics() == old(self).diagnostics(),
            forall|p: int| final(self).flag(p) == old(self).flag(p),
            !bound ==> *final(self) == *old(self),
    {
        match self.client {
            ClientState::Unconfigured => {
                self.client = ClientState::Passive;
                true
            },
            ClientState::Passive => false,
            ClientState::Active => false,
        }
    }

    /// Where the bridge stands with the backend.
    pub fn client_state(&self) -> (state: ClientState)
        ensures
            state == self.state(),
    {
        self.client
    }

    /// The diagnostics of the callback, as last reported.
    pub fn timing(&self) -> (timing: TimingDiagnostics)
        ensures
            timing == self.diagnostics(),
    {
        self.timing
    }

    /// The names of the channels' ports.
    pub fn port_names(&self) -> (names: Vec<String>)
        ensures
            names@ == self.names(),
    {
        self.flags.port_names()
    }

    /// What the bridge wrote last to the enable flag of port `port`.
    pub fn last_written(&self, port: usize) -> (value: bool)
        requires
            port < self.names().len(),
        ensures
            value == self.written(port as int),
    {
        self.flags.last_written(port)
    }

    /// Whether a `start` with these values would fail, and why. Nothing is
    /// changed.
    pub fn start_check(&self, config: &JackItConfig, buffer_size: u32, registered: usize) -> (r:
        Option<StartError>)
        ensures
            r == start_refusal(
                self.state(),
                self.names().len() as int,
                registered as int,
                buffer_size as int,
                config.ringbuf_cycle_size as int,
            ),
    {
        match self.client {
            ClientState::Passive => {},
            ClientState::Active => {
                return Some(StartError::AlreadyActive);
            },
            ClientState::Unconfigured => {
                return Some(StartError::NoClient);
            },
        }
        if registered != self.flags.len() {
            return Some(StartError::PortCount);
        }
        match ring_capacity(buffer_size, config.ringbuf_cycle_size) {
            Some(_) => None,
            None => Some(StartError::QueueSize),
        }
    }

    /// Starts the bridge, after the backend registered one port per
    /// channel: `buffer_size` is the backend's block size, `registered`
    /// the full names that it gave the ports. Makes one sample queue per
    /// channel, with room for `buffer_size` times the cycle multiplier
    /// samples, and hands out the callback's state, which holds the
    /// producing ends and reads the bridge's enable flags, and the
    /// consuming ends. From then on the channels go by their full names.
    /// A start that fails changes nothing.
    pub fn start(&mut self, config: JackItConfig, buffer_size: u32, registered: Vec<String>) -> (r:
        Result<Started, StartError>)
        ensures
            (match r {
                Ok(_) => None,
                Err(e) => Some(e),
            }) == start_refusal(
                old(self).state(),
                old(self).names().len() as int,
                registered@.len() as int,
                buffer_size as int,
                config.ringbuf_cycle_size as int,
            ),
            final(self).state() == state_after_start(
                old(self).state(),
                start_refusal(
                    old(self).state(),
                    old(self).names().len() as int,
                    registered@.len() as int,
                    buffer_size as int,
                    config.ringbuf_cycle_size as int,
                ),
            ),
            final(self).diagnostics() == old(self).diagnostics(),
            r is Err ==> *final(self) == *old(self),
            r matches Ok(s) ==> final(self).names() == registered@ && s.processor.ports()
                == registered@.len() && s.consumers@.len() == registered@.len()
                && s.processor.timing()@ == crate::timing::TimingState::fresh(
                TIMING_DIAGNOSTIC_CYCLES as int,
            ),
            r matches Ok(s) ==> forall|port: int|
                0 <= port < registered@.len() ==> #[trigger] s.processor.room(port)
                    == queue_capacity(buffer_size as int, config.ringbuf_cycle_size as int),
            r matches Ok(s) ==> forall|port: int|
                0 <= port < registered@.len() ==> consumer_room(#[trigger] s.consumers@[port])
                    == queue_capacity(buffer_size as int, config.ringbuf_cycle_size as int),
            r matches Ok(s) ==> forall|port: int|
                0 <= port < registered@.len() ==> (#[trigger] s.processor.port(port)).pushed()
                    == Seq::<Sample>::empty(),
            r matches Ok(s) ==> forall|port: int|
                0 <= port < registered@.len() ==> consumed(#[trigger] s.consumers@[port])
                    == Seq::<Sample>::empty(),
            r matches Ok(s) ==> forall|port: int|
                0 <= port < registered@.len() ==> (#[trigger] s.processor.flag(port)).same_flag(
                    final(self).flag(port),
                ),
            r matches Ok(s) ==> s.flags.names() == registered@ && forall|port: int|
                0 <= port < registered@.len() ==> (#[trigger] s.flags.flag(port)).same_flag(
                    final(self).flag(port),
                ),
            r is Ok ==> forall|port: int|
                0 <= port < registered@.len() ==> (#[trigger] final(self).flag(port)).same_flag(
                    old(self).flag(port),
                ) && final(self).written(port) == old(self).written(port),
    {
        match self.start_check(&config, buffer_size, registered.len()) {
            Some(e) => {
                return Err(e);
            },
            None => {},
        }
        let capacity = match ring_capacity(buffer_size, config.ringbuf_cycle_size) {
            Some(capacity) => capacity,
            None => {
                return Err(StartError::QueueSize);
            },
        };
        let flags = self.flags.renamed(&registered);
        let mut port_procs: Vec<PortProc> = Vec::with_capacity(flags.len());
        let mut consumers: Vec<RingConsumer> = Vec::with_capacity(flags.len());
        let mut i: usize = 0;
        while i < flags.len()
            invariant
                0 < capacity <= QUEUE_ROOM_MAX,
                i <= flags.names().len(),
                port_procs@.len() == i,
                consumers@.len() == i,
                forall|port: int|
                    0 <= port < i ==> (#[trigger] port_procs@[port]).room() == capacity
                        && consumer_room(consumers@[port]) == capacity
                        && port_procs@[port].flag().same_flag(flags.flag(port))
                        && port_procs@[port].pushed() == Seq::<Sample>::empty()
                        && consumed(consumers@[port]) == Seq::<Sample>::empty(),
            decreases flags.names().len() - i,
        {
            let (prod, cons) = crate::queue::sample_queue(capacity);
            port_procs.push(PortProc::new(prod, flags.ports[i].flag.share()));
            consumers.push(cons);
            i = i + 1;
        }
        let processor = JProcessor::new(port_procs, config.bus.clone(), TIMING_DIAGNOSTIC_CYCLES);
        let notifier = flags.share();
        proof {
            let room = queue_capacity(buffer_size as int, config.ringbuf_cycle_size as int);
            assert forall|port: int| 0 <= port < registered@.len() implies #[trigger] processor.room(
                port,
            ) == room by {
                assert(port_procs@[port].room() == capacity);
            }
            assert forall|port: int| 0 <= port < registered@.len() implies consumer_room(
                #[trigger] consumers@[port],
            ) == room by {
                assert(port_procs@[port].room() == capacity);
            }
            assert forall|port: int| 0 <= port < registered@.len() implies (
            #[trigger] processor.flag(port)).same_flag(flags.flag(port)) by {
                assert(port_procs@[port].flag().same_flag(flags.flag(port)));
            }
            assert forall|port: int| 0 <= port < registered@.len() implies (
            #[trigger] processor.port(port)).pushed() == Seq::<Sample>::empty() by {
                assert(port_procs@[port].pushed() == Seq::<Sample>::empty());
            }
            assert forall|port: int| 0 <= port < registered@.len() implies consumed(
                #[trigger] consumers@[port],
            ) == Seq::<Sample>::empty() by {
                assert(port_procs@[port].room() == capacity);
            }
        }
        self.flags = flags;
        self.client = ClientState::Active;
        Ok(Started { processor, bus: config.bus, flags: notifier, consumers })
    }

    /// Takes in the events of one tick of the consumer, first to last: a
    /// timing report of the callback replaces the diagnostics, and a
    /// connection change writes its connection state to the flag of each
    /// port that it names and the bridge has, so that the next cycle of
    /// the callback goes by it. A flag that no event names is not written.
    pub fn update(&mut self, updts: &Vec<Update>)
        ensures
            final(self).diagnostics() == timing_after_all(old(self).diagnostics(), updts@),
            final(self).state() == old(self).state(),
            final(self).names() == old(self).names(),
            forall|p: int|
                0 <= p < old(self).names().len() ==> (#[trigger] final(self).flag(p)).same_flag(
                    old(self).flag(p),
                ),
            forall|p: int|
                0 <= p < old(self).names().len() ==> (#[trigger] final(self).flag(p)).written()
                    == after_writes(
                    old(self).written(p),
                    flag_writes_all(old(self).names(), updts@),
                    p,
                ),
    {
        proof {
            assert forall|p: int| 0 <= p < self.flags.names().len() implies (
            #[trigger] self.flags.flag(p)).same_flag(old(self).flags.flag(p)) by {
                lemma_same_flag(self.flags.flag(p), self.flags.flag(p), self.flags.flag(p));
            }
        }
        let mut i: usize = 0;
        while i < updts.len()
            invariant
                i <= updts@.len(),
                self.timing == timing_after_all(old(self).timing, updts@.take(i as int)),
                self.client == old(self).client,
                self.flags.shares(old(self).flags),
                forall|p: int|
                    0 <= p < old(self).flags.names().len() ==> (#[trigger] self.flags.flag(p)).written()
                        == after_writes(
                        old(self).flags.written(p),
                        flag_writes_all(old(self).flags.names(), updts@.take(i as int)),
                        p,
                    ),
            decreases updts@.len() - i,
        {
            proof {
                assert(updts@.take(i + 1).drop_last() =~= updts@.take(i as int));
                assert(updts@.take(i + 1).last() == updts@[i as int]);
            }
            let ghost before = self.flags;
            let ghost done = flag_writes_all(old(self).flags.names(), updts@.take(i as int));
            match &updts[i] {
                Update::Jack(Jack::Connected { connected, port_names }) => {
                    self.flags.write(port_names, *connected);
                    proof {
                        let more = named_writes(before.names(), port_names@, *connected);
                        assert forall|p: int|
                            0 <= p < old(self).flags.names().len() implies (
                        #[trigger] self.flags.flag(p)).written() == after_writes(
                            old(self).flags.written(p),
                            done + more,
                            p,
                        ) by {
                            lemma_after_writes_append(old(self).flags.written(p), done, more, p);
                        }
                        assert forall|p: int|
                            0 <= p < old(self).flags.names().len() implies (
                        #[trigger] self.flags.flag(p)).same_flag(old(self).flags.flag(p)) by {
                            assert(self.flags.flag(p).same_flag(before.flag(p)));
                            assert(before.flag(p).same_flag(old(self).flags.flag(p)));
                            lemma_same_flag(
                                self.flags.flag(p),
                                before.flag(p),
                                old(self).flags.flag(p),
                            );
                        }
                    }
                },
                Update::Jack(Jack::TimingDiagnostics(d)) => {
                    self.timing = *d;
                    proof {
                        assert(done + Seq::<(int, bool)>::empty() =~= done);
                    }
                },
                Update::PortBuf(_) => {
                    proof {
                        assert(done + Seq::<(int, bool)>::empty() =~= done);
                    }
                },
            }
            i = i + 1;
        }
        proof {
            assert(updts@.take(i as int) =~= updts@);
        }
    }

    /// Deactivates an active bridge: the client stays bound. A bridge that
    /// is not active is left as it is. Returns whether the bridge was
    /// active, that is, whether the caller has a client to deactivate.
    pub fn stop(&mut self) -> (was_active: bool)
        ensures
            final(self).state() == old(self).state().stopped(),
            was_active == (old(self).state() == ClientState::Active),
            final(self).names() == old(self).names(),
            final(self).diagnostics() == old(self).diagnostics(),
            forall|p: int| final(self).flag(p) == old(self).flag(p),
            !was_active ==> *final(self) == *old(self),
    {
        match self.client {
            ClientState::Active => {
                self.client = ClientState::Passive;
                true
            },
            ClientState::Passive => false,
            ClientState::Unconfigured => false,
        }
    }
}

} // verus!
