//! The monitoring loop of a session, as a machine: it says what to do next, and takes the outcome.
//!
//! At every tick it resolves the processes of the session, collects their metrics and, where
//! enabled, their network statistics, and puts these together to one measurement.

use std::collections::HashMap;
use vstd::prelude::*;
use vstd::std_specs::hash::*;
use vstd::string::*;

use crate::monitor::metrics;
use crate::monitor::metrics::{CpuUsage, ProcessMetrics};
use crate::monitor::network::NetworkStats;
use crate::session;
use crate::session::{DataPoint, DataPointView, Hundredths};
use crate::time::Timestamp;

verus! {

broadcast use {vstd::std_specs::hash::group_hash_axioms, vstd::string::group_string_axioms};

/// Two counters that only grow, and when they were read: bytes read and written, or received and
/// sent.
#[derive(Debug, Clone, Copy, PartialEq, Eq, Structural)]
pub struct CounterSample {
    pub first: u64,
    pub second: u64,
    /// When they were read, in nanoseconds on a clock that never goes back.
    pub at: u64,
}

/// By how much two counters have grown within an interval that has some length.
#[derive(Debug, Clone, Copy, PartialEq, Eq, Structural)]
pub struct CounterDelta {
    pub first: u64,
    pub second: u64,
    pub elapsed_nanos: u64,
}

/// By how much counters have grown since the last sample: nothing is known of it without one, nor
/// if no time has passed.
pub open spec fn delta_since(last: Option<CounterSample>, sample: CounterSample) -> Option<
    CounterDelta,
> {
    match last {
        None => None,
        Some(last) => if sample.at > last.at {
            Some(
                CounterDelta {
                    first: metrics::growth(last.first, sample.first) as u64,
                    second: metrics::growth(last.second, sample.second) as u64,
                    elapsed_nanos: (sample.at - last.at) as u64,
                },
            )
        } else {
            None
        },
    }
}

/// Takes the next sample of a process and gives the growth since the last one.
fn observe(cache: &mut HashMap<u32, CounterSample>, pid: u32, sample: CounterSample) -> (res:
    Option<CounterDelta>)
    ensures
        res == delta_since(metrics::value_at(old(cache)@, pid), sample),
        final(cache)@ == old(cache)@.insert(pid, sample),
{
    let delta = match cache.get(&pid) {
        None => None,
        Some(last) => if sample.at > last.at {
            Some(
                CounterDelta {
                    first: sample.first.saturating_sub(last.first),
                    second: sample.second.saturating_sub(last.second),
                    elapsed_nanos: sample.at - last.at,
                },
            )
        } else {
            None
        },
    };
    cache.insert(pid, sample);
    delta
}

/// By how many bytes a sample of a process's counters adds to the totals of a session: by the growth
/// since the last sample. The first sample of a process that was there when the session started adds
/// nothing, and that of any other process adds all that it has counted.
pub open spec fn moved_since(
    last: Option<CounterSample>,
    was_present: bool,
    sample: CounterSample,
) -> (nat, nat) {
    match last {
        Some(last) => (
            metrics::growth(last.first, sample.first),
            metrics::growth(last.second, sample.second),
        ),
        None => if was_present {
            (0, 0)
        } else {
            (sample.first as nat, sample.second as nat)
        },
    }
}

/// The bytes that the next sample of a process adds to the totals of a session.
fn count_moved(
    cache: &HashMap<u32, CounterSample>,
    pid: u32,
    was_present: bool,
    sample: &CounterSample,
) -> (res: (u64, u64))
    ensures
        (res.0 as nat, res.1 as nat) == moved_since(
            metrics::value_at(cache@, pid),
            was_present,
            *sample,
        ),
{
    match cache.get(&pid) {
        Some(last) => (
            sample.first.saturating_sub(last.first),
            sample.second.saturating_sub(last.second),
        ),
        None => if was_present {
            (0, 0)
        } else {
            (sample.first, sample.second)
        },
    }
}

/// Whether an identifier is among others.
fn is_among(pids: &Vec<u32>, pid: u32) -> (res: bool)
    ensures
        res == pids@.contains(pid),
{
    for i in 0..pids.len()
        invariant
            forall|j: int| 0 <= j < i ==> pids@[j] != pid,
    {
        if pids[i] == pid {
            return true;
        }
    }
    false
}

/// The bytes that the processes of a session have moved since it started.
#[derive(Debug, Clone, Copy, PartialEq, Eq, Structural)]
pub struct Moved {
    pub read: u64,
    pub written: u64,
    pub received: u64,
    pub sent: u64,
}

/// The bytes that the processes of a session have moved since it started, however many.
pub struct MovedView {
    pub read: nat,
    pub written: nat,
    pub received: nat,
    pub sent: nat,
}

impl View for Moved {
    type V = MovedView;

    open spec fn view(&self) -> MovedView {
        MovedView {
            read: self.read as nat,
            written: self.written as nat,
            received: self.received as nat,
            sent: self.sent as nat,
        }
    }
}

impl MovedView {
    /// Whether the totals stay within 64 bits.
    pub open spec fn fit(self) -> bool {
        &&& self.read <= u64::MAX
        &&& self.written <= u64::MAX
        &&& self.received <= u64::MAX
        &&& self.sent <= u64::MAX
    }

    /// The totals with more input and output.
    pub open spec fn with_io(self, bytes: (nat, nat)) -> MovedView {
        MovedView { read: self.read + bytes.0, written: self.written + bytes.1, ..self }
    }

    /// The totals with more network traffic.
    pub open spec fn with_traffic(self, bytes: (nat, nat)) -> MovedView {
        MovedView { received: self.received + bytes.0, sent: self.sent + bytes.1, ..self }
    }

    /// Whether no total is smaller than another one.
    pub open spec fn at_least(self, other: MovedView) -> bool {
        &&& self.read >= other.read
        &&& self.written >= other.written
        &&& self.received >= other.received
        &&& self.sent >= other.sent
    }

    /// No bytes.
    pub open spec fn nothing() -> MovedView {
        MovedView { read: 0, written: 0, received: 0, sent: 0 }
    }
}

impl Moved {
    /// The totals with more input and output, if they stay within 64 bits.
    fn with_io(&self, bytes: (u64, u64)) -> (res: Option<Moved>)
        ensures
            res is Some <==> self@.with_io((bytes.0 as nat, bytes.1 as nat)).fit(),
            res matches Some(moved) ==> moved@ == self@.with_io((bytes.0 as nat, bytes.1 as nat)),
    {
        match (self.read.checked_add(bytes.0), self.written.checked_add(bytes.1)) {
            (Some(read), Some(written)) => Some(Moved { read, written, ..*self }),
            _ => None,
        }
    }

    /// The totals with more network traffic, if they stay within 64 bits.
    fn with_traffic(&self, bytes: (u64, u64)) -> (res: Option<Moved>)
        ensures
            res is Some <==> self@.with_traffic((bytes.0 as nat, bytes.1 as nat)).fit(),
            res matches Some(moved) ==> moved@ == self@.with_traffic(
                (bytes.0 as nat, bytes.1 as nat),
            ),
    {
        match (self.received.checked_add(bytes.0), self.sent.checked_add(bytes.1)) {
            (Some(received), Some(sent)) => Some(Moved { received, sent, ..*self }),
            _ => None,
        }
    }
}

/// The metrics of a process in a tick, with its rates of input and output in bytes per second.
#[derive(Debug, Clone, Copy, PartialEq, Eq, Structural)]
pub struct ProcessSample {
    pub pid: u32,
    pub metrics: ProcessMetrics,
    pub read_rate: u64,
    pub write_rate: u64,
}

/// The network statistics of a process in a tick, with its rates in bytes per second.
#[derive(Debug, Clone, Copy, PartialEq, Eq, Structural)]
pub struct NetworkSample {
    pub stats: NetworkStats,
    pub recv_rate: u64,
    pub sent_rate: u64,
}

impl NetworkSample {
    /// The bytes received and sent that are estimated: none where they are counted.
    pub open spec fn estimate(self) -> (u64, u64) {
        if self.stats.using_wfp {
            (0, 0)
        } else {
            (self.stats.bytes_received, self.stats.bytes_sent)
        }
    }
}

/// The sums over the processes in a tick.
#[derive(Debug, Clone, Copy, PartialEq, Eq, Structural)]
pub struct Totals {
    pub ram: u64,
    pub read_rate: u64,
    pub write_rate: u64,
    pub recv_rate: u64,
    pub sent_rate: u64,
    pub recv_estimate: u64,
    pub sent_estimate: u64,
    pub connections: u32,
}

/// The sums over the processes in a tick, of any size.
pub struct Sums {
    pub ram: nat,
    pub read_rate: nat,
    pub write_rate: nat,
    pub recv_rate: nat,
    pub sent_rate: nat,
    pub recv_estimate: nat,
    pub sent_estimate: nat,
    pub connections: nat,
}

/// The memory of the processes in a tick.
pub open spec fn ram_sizes(processes: Seq<ProcessSample>) -> Seq<nat> {
    processes.map_values(|p: ProcessSample| p.metrics.working_set_bytes as nat)
}

/// The rates at which the processes in a tick read.
pub open spec fn read_rates(processes: Seq<ProcessSample>) -> Seq<nat> {
    processes.map_values(|p: ProcessSample| p.read_rate as nat)
}

/// The rates at which the processes in a tick write.
pub open spec fn write_rates(processes: Seq<ProcessSample>) -> Seq<nat> {
    processes.map_values(|p: ProcessSample| p.write_rate as nat)
}

/// The rates at which the processes in a tick receive.
pub open spec fn recv_rates(networks: Seq<NetworkSample>) -> Seq<nat> {
    networks.map_values(|n: NetworkSample| n.recv_rate as nat)
}

/// The rates at which the processes in a tick send.
pub open spec fn sent_rates(networks: Seq<NetworkSample>) -> Seq<nat> {
    networks.map_values(|n: NetworkSample| n.sent_rate as nat)
}

/// The bytes that the processes in a tick are estimated to receive, where nothing counts them.
pub open spec fn recv_estimates(networks: Seq<NetworkSample>) -> Seq<nat> {
    networks.map_values(
        |n: NetworkSample|
            if n.stats.using_wfp {
                0
            } else {
                n.stats.bytes_received as nat
            },
    )
}

/// The bytes that the processes in a tick are estimated to send, where nothing counts them.
pub open spec fn sent_estimates(networks: Seq<NetworkSample>) -> Seq<nat> {
    networks.map_values(
        |n: NetworkSample|
            if n.stats.using_wfp {
                0
            } else {
                n.stats.bytes_sent as nat
            },
    )
}

/// The numbers of connections of the processes in a tick.
pub open spec fn connection_counts(networks: Seq<NetworkSample>) -> Seq<nat> {
    networks.map_values(|n: NetworkSample| n.stats.connection_count as nat)
}

/// The sums over the processes in a tick.
pub open spec fn sums(processes: Seq<ProcessSample>, networks: Seq<NetworkSample>) -> Sums {
    Sums {
        ram: session::sum(ram_sizes(processes)),
        read_rate: session::sum(read_rates(processes)),
        write_rate: session::sum(write_rates(processes)),
        recv_rate: session::sum(recv_rates(networks)),
        sent_rate: session::sum(sent_rates(networks)),
        recv_estimate: session::sum(recv_estimates(networks)),
        sent_estimate: session::sum(sent_estimates(networks)),
        connections: session::sum(connection_counts(networks)),
    }
}

impl Sums {
    /// Whether the sums stay within the widths in which they are kept.
    pub open spec fn fit(self) -> bool {
        &&& self.ram <= u64::MAX
        &&& self.read_rate <= u64::MAX
        &&& self.write_rate <= u64::MAX
        &&& self.recv_rate <= u64::MAX
        &&& self.sent_rate <= u64::MAX
        &&& self.recv_estimate <= u64::MAX
        &&& self.sent_estimate <= u64::MAX
        &&& self.connections <= u32::MAX
    }
}

impl View for Totals {
    type V = Sums;

    open spec fn view(&self) -> Sums {
        Sums {
            ram: self.ram as nat,
            read_rate: self.read_rate as nat,
            write_rate: self.write_rate as nat,
            recv_rate: self.recv_rate as nat,
            sent_rate: self.sent_rate as nat,
            recv_estimate: self.recv_estimate as nat,
            sent_estimate: self.sent_estimate as nat,
            connections: self.connections as nat,
        }
    }
}

proof fn lemma_sums_push_process(
    processes: Seq<ProcessSample>,
    networks: Seq<NetworkSample>,
    p: ProcessSample,
)
    ensures
        sums(processes.push(p), networks) == (Sums {
            ram: sums(processes, networks).ram + p.metrics.working_set_bytes as nat,
            read_rate: sums(processes, networks).read_rate + p.read_rate as nat,
            write_rate: sums(processes, networks).write_rate + p.write_rate as nat,
            ..sums(processes, networks)
        }),
{
    let all = processes.push(p);
    assert(ram_sizes(all).drop_last() =~= ram_sizes(processes));
    assert(read_rates(all).drop_last() =~= read_rates(processes));
    assert(write_rates(all).drop_last() =~= write_rates(processes));
}

proof fn lemma_sums_push_network(
    processes: Seq<ProcessSample>,
    networks: Seq<NetworkSample>,
    n: NetworkSample,
)
    ensures
        sums(processes, networks.push(n)) == (Sums {
            recv_rate: sums(processes, networks).recv_rate + n.recv_rate as nat,
            sent_rate: sums(processes, networks).sent_rate + n.sent_rate as nat,
            recv_estimate: sums(processes, networks).recv_estimate + n.estimate().0 as nat,
            sent_estimate: sums(processes, networks).sent_estimate + n.estimate().1 as nat,
            connections: sums(processes, networks).connections + n.stats.connection_count as nat,
            ..sums(processes, networks)
        }),
{
    let all = networks.push(n);
    assert(recv_rates(all).drop_last() =~= recv_rates(networks));
    assert(sent_rates(all).drop_last() =~= sent_rates(networks));
    assert(recv_estimates(all).drop_last() =~= recv_estimates(networks));
    assert(sent_estimates(all).drop_last() =~= sent_estimates(networks));
    assert(connection_counts(all).drop_last() =~= connection_counts(networks));
}

/// The sums over the first processes in a tick stay within their widths if all do.
proof fn lemma_sums_of_prefixes(
    processes: Seq<ProcessSample>,
    networks: Seq<NetworkSample>,
    i: int,
    j: int,
)
    requires
        sums(processes, networks).fit(),
        0 <= i <= processes.len(),
        0 <= j <= networks.len(),
    ensures
        sums(processes.take(i), networks.take(j)).fit(),
{
    assert(ram_sizes(processes.take(i)) =~= ram_sizes(processes).take(i));
    assert(read_rates(processes.take(i)) =~= read_rates(processes).take(i));
    assert(write_rates(processes.take(i)) =~= write_rates(processes).take(i));
    assert(recv_rates(networks.take(j)) =~= recv_rates(networks).take(j));
    assert(sent_rates(networks.take(j)) =~= sent_rates(networks).take(j));
    assert(recv_estimates(networks.take(j)) =~= recv_estimates(networks).take(j));
    assert(sent_estimates(networks.take(j)) =~= sent_estimates(networks).take(j));
    assert(connection_counts(networks.take(j)) =~= connection_counts(networks).take(j));
    session::lemma_sum_of_prefix(ram_sizes(processes), i);
    session::lemma_sum_of_prefix(read_rates(processes), i);
    session::lemma_sum_of_prefix(write_rates(processes), i);
    session::lemma_sum_of_prefix(recv_rates(networks), j);
    session::lemma_sum_of_prefix(sent_rates(networks), j);
    session::lemma_sum_of_prefix(recv_estimates(networks), j);
    session::lemma_sum_of_prefix(sent_estimates(networks), j);
    session::lemma_sum_of_prefix(connection_counts(networks), j);
}

impl Totals {
    /// No sums yet.
    fn zero() -> (res: Totals)
        ensures
            res@ == sums(Seq::empty(), Seq::empty()),
    {
        Totals {
            ram: 0,
            read_rate: 0,
            write_rate: 0,
            recv_rate: 0,
            sent_rate: 0,
            recv_estimate: 0,
            sent_estimate: 0,
            connections: 0,
        }
    }

    /// The sums with one more process, if they stay within their widths.
    fn with_process(
        &self,
        p: &ProcessSample,
        Ghost(processes): Ghost<Seq<ProcessSample>>,
        Ghost(networks): Ghost<Seq<NetworkSample>>,
    ) -> (res: Option<Totals>)
        requires
            self@ == sums(processes, networks),
        ensures
            res is Some <==> sums(processes.push(*p), networks).fit(),
            res matches Some(t) ==> t@ == sums(processes.push(*p), networks),
    {
        proof {
            lemma_sums_push_process(processes, networks, *p);
        }
        match (
            self.ram.checked_add(p.metrics.working_set_bytes),
            self.read_rate.checked_add(p.read_rate),
            self.write_rate.checked_add(p.write_rate),
        ) {
            (Some(ram), Some(read_rate), Some(write_rate)) => Some(
                Totals { ram, read_rate, write_rate, ..*self },
            ),
            _ => None,
        }
    }

    /// The sums with the network statistics of one more process, if they stay within their widths.
    fn with_network(
        &self,
        n: &NetworkSample,
        Ghost(processes): Ghost<Seq<ProcessSample>>,
        Ghost(networks): Ghost<Seq<NetworkSample>>,
    ) -> (res: Option<Totals>)
        requires
            self@ == sums(processes, networks),
        ensures
            res is Some <==> sums(processes, networks.push(*n)).fit(),
            res matches Some(t) ==> t@ == sums(processes, networks.push(*n)),
    {
        proof {
            lemma_sums_push_network(processes, networks, *n);
        }
        let (received, sent): (u64, u64) = if n.stats.using_wfp {
            (0, 0)
        } else {
            (n.stats.bytes_received, n.stats.bytes_sent)
        };
        match (
            self.recv_rate.checked_add(n.recv_rate),
            self.sent_rate.checked_add(n.sent_rate),
            self.recv_estimate.checked_add(received),
            self.sent_estimate.checked_add(sent),
            self.connections.checked_add(n.stats.connection_count),
        ) {
            (
                Some(recv_rate),
                Some(sent_rate),
                Some(recv_estimate),
                Some(sent_estimate),
                Some(connections),
            ) => Some(
                Totals {
                    recv_rate,
                    sent_rate,
                    recv_estimate,
                    sent_estimate,
                    connections,
                    ..*self
                },
            ),
            _ => None,
        }
    }

    /// The sums over the processes in a tick.
    fn over(processes: &Vec<ProcessSample>, networks: &Vec<NetworkSample>) -> (res: Totals)
        requires
            sums(processes@, networks@).fit(),
        ensures
            res@ == sums(processes@, networks@),
    {
        let mut totals = Totals::zero();
        let ghost none = Seq::<NetworkSample>::empty();
        assert(processes@.take(0) == Seq::<ProcessSample>::empty());
        for i in 0..processes.len()
            invariant
                none == Seq::<NetworkSample>::empty(),
                sums(processes@, networks@).fit(),
                totals@ == sums(processes@.take(i as int), none),
        {
            let ghost before = processes@.take(i as int);
            assert(processes@.take(i + 1) == before.push(processes@[i as int]));
            proof {
                lemma_sums_of_prefixes(processes@, networks@, i + 1, 0);
                assert(networks@.take(0) == none);
            }
            totals = totals.with_process(&processes[i], Ghost(before), Ghost(none)).unwrap();
        }
        assert(processes@.take(processes@.len() as int) == processes@);
        assert(networks@.take(0) == none);
        for i in 0..networks.len()
            invariant
                sums(processes@, networks@).fit(),
                totals@ == sums(processes@, networks@.take(i as int)),
        {
            let ghost before = networks@.take(i as int);
            assert(networks@.take(i + 1) == before.push(networks@[i as int]));
            proof {
                lemma_sums_of_prefixes(processes@, networks@, processes@.len() as int, i + 1);
                assert(processes@.take(processes@.len() as int) == processes@);
            }
            totals = totals.with_network(&networks[i], Ghost(processes@), Ghost(before)).unwrap();
        }
        assert(networks@.take(networks@.len() as int) == networks@);
        totals
    }
}

/// A status report to the frontend.
#[derive(Debug)]
pub struct StatusEvent {
    pub session_id: String,
    pub status: String,
    pub message: String,
}

/// What a status report holds.
pub struct StatusEventView {
    pub session_id: Seq<char>,
    pub status: Seq<char>,
    pub message: Seq<char>,
}

impl View for StatusEvent {
    type V = StatusEventView;

    open spec fn view(&self) -> StatusEventView {
        StatusEventView {
            session_id: self.session_id@,
            status: self.status@,
            message: self.message@,
        }
    }
}

/// What the machine waits for.
#[derive(Debug, Clone, Copy, PartialEq, Eq, Structural)]
pub enum Phase {
    /// The next tick.
    Waiting,
    /// The processes of the session.
    Resolving,
    /// The report that there are no such processes.
    ReportingMissing,
    /// The metrics of a process.
    Collecting,
    /// The rates of input and output of a process with the given metrics.
    RatingIo(ProcessMetrics),
    /// The report that all processes have exited.
    ReportingGone,
    /// The settings for the network statistics.
    ReadingSetting,
    /// The network statistics of a process, by byte counters or not.
    CollectingNetwork(bool),
    /// The rates of network traffic of a process with the given statistics, by byte counters or
    /// not.
    RatingNetwork(NetworkStats, bool),
    /// The summary of the tick.
    Summarising,
    /// The storage of the measurement.
    Storing,
    /// Nothing: the session is over.
    Stopped,
}

/// What has happened.
#[derive(Debug)]
pub enum Event {
    /// A tick has come; the session is still active or not.
    Tick { active: bool },
    /// The processes of the session were looked up.
    Pids(Result<Vec<u32>, String>),
    /// The metrics of the process were collected at the given time.
    Metrics { collected: Result<ProcessMetrics, String>, now: u64 },
    /// The rates for a growth of counters were computed, in bytes per second.
    Rates { first: u64, second: u64 },
    /// The report was made.
    Reported,
    /// The settings for the network statistics were read.
    Setting { network_enabled: bool, elevated: bool },
    /// The network statistics of the process were collected at the given time.
    Network { statistics: Result<NetworkStats, String>, now: u64 },
    /// The time of the measurement, and the processor load and the memory as computed in floating
    /// point.
    Summary { timestamp: Timestamp, cpu_percent: Hundredths, ram_mb: Hundredths },
    /// The measurement was stored.
    Stored,
}

/// What to do next.
#[derive(Debug)]
pub enum Action {
    /// Wait for the next tick, and see whether the session is still active.
    WaitTick { session_id: String },
    /// Look up the processes of an executable.
    FindPids { executable: String },
    /// Report to the frontend.
    Report(StatusEvent),
    /// Collect the metrics of a process.
    Collect { pid: u32 },
    /// Compute the rates for a growth of counters.
    Rate(CounterDelta),
    /// Read the settings for the network statistics.
    ReadSetting { session_id: String },
    /// Collect the network statistics of a process, by byte counters or not.
    CollectNetwork { pid: u32, use_wfp: bool },
    /// Compute the processor load of processes with these processor times, and put the memory into
    /// megabytes.
    Summarise { cpu: Vec<Option<CpuUsage>>, ram_bytes: u64 },
    /// Store a measurement and send it to the frontend.
    Store { session_id: String, point: DataPoint },
    /// End the loop.
    Stop,
}

/// What an action holds.
pub enum ActionView {
    WaitTick { session_id: Seq<char> },
    FindPids { executable: Seq<char> },
    Report(StatusEventView),
    Collect { pid: u32 },
    Rate(CounterDelta),
    ReadSetting { session_id: Seq<char> },
    CollectNetwork { pid: u32, use_wfp: bool },
    Summarise { cpu: Seq<Option<CpuUsage>>, ram_bytes: u64 },
    Store { session_id: Seq<char>, point: DataPointView },
    Stop,
}

impl View for Action {
    type V = ActionView;

    open spec fn view(&self) -> ActionView {
        match self {
            Action::WaitTick { session_id } => ActionView::WaitTick { session_id: session_id@ },
            Action::FindPids { executable } => ActionView::FindPids { executable: executable@ },
            Action::Report(status) => ActionView::Report(status@),
            Action::Collect { pid } => ActionView::Collect { pid: *pid },
            Action::Rate(delta) => ActionView::Rate(*delta),
            Action::ReadSetting { session_id } => ActionView::ReadSetting {
                session_id: session_id@,
            },
            Action::CollectNetwork { pid, use_wfp } => ActionView::CollectNetwork {
                pid: *pid,
                use_wfp: *use_wfp,
            },
            Action::Summarise { cpu, ram_bytes } => ActionView::Summarise {
                cpu: cpu@,
                ram_bytes: *ram_bytes,
            },
            Action::Store { session_id, point } => ActionView::Store {
                session_id: session_id@,
                point: point@,
            },
            Action::Stop => ActionView::Stop,
        }
    }
}

/// What the machine knows: the processes that were there when the session started, the last counters
/// of each process, the totals since the start, the processes of the tick, how many of them it has
/// asked about, and what it has learned of them.
pub struct MonitorView {
    pub session_id: Seq<char>,
    pub executable: Seq<char>,
    /// What the first lookup found.
    pub present: Option<Seq<u32>>,
    pub io_cache: Map<u32, CounterSample>,
    pub net_cache: Map<u32, CounterSample>,
    pub moved: MovedView,
    pub phase: Phase,
    pub pids: Seq<u32>,
    pub next: nat,
    pub processes: Seq<ProcessSample>,
    pub networks: Seq<NetworkSample>,
}

/// The processor times of the processes in a tick.
pub open spec fn cpu_usages(processes: Seq<ProcessSample>) -> Seq<Option<CpuUsage>> {
    processes.map_values(|p: ProcessSample| p.metrics.cpu)
}

/// Whether a process is known to have used processor time.
pub open spec fn is_busy(usage: Option<CpuUsage>) -> bool {
    usage matches Some(usage) && usage.busy > 0
}

/// The processor load of processes with these processor times: none where none of them is busy, and
/// otherwise the one that was computed in floating point.
pub open spec fn load(usages: Seq<Option<CpuUsage>>, inexact: Hundredths) -> Hundredths {
    if exists|i: int| 0 <= i < usages.len() && is_busy(#[trigger] usages[i]) {
        inexact
    } else {
        Hundredths { count: 0 }
    }
}

/// The largest number of bytes whose hundredfold a binary floating-point number of 64 bits holds
/// exactly.
pub const LARGEST_EXACT_BYTES: u64 = 90_071_992_547_409;

/// Bytes in megabytes, rounded to the nearest hundredth and up from halfway. Where there are too
/// many for an exact result in floating point, it is the one that was computed there.
pub open spec fn megabytes(bytes: nat, inexact: Hundredths) -> Hundredths {
    if bytes <= LARGEST_EXACT_BYTES {
        Hundredths { count: ((bytes * 100 + 0x8_0000) / 0x10_0000) as u64 }
    } else {
        inexact
    }
}

/// Bytes in megabytes.
fn to_megabytes(bytes: u64, inexact: Hundredths) -> (res: Hundredths)
    ensures
        res == megabytes(bytes as nat, inexact),
{
    if bytes <= LARGEST_EXACT_BYTES {
        Hundredths { count: (bytes * 100 + 0x8_0000) / 0x10_0000 }
    } else {
        inexact
    }
}

/// The measurement of a tick, given the totals since the start, the time and, as computed in floating
/// point, the processor load and the memory. Traffic that is estimated counts for its own tick alone.
pub open spec fn measurement(
    processes: Seq<ProcessSample>,
    networks: Seq<NetworkSample>,
    moved: MovedView,
    timestamp: Timestamp,
    cpu_percent: Hundredths,
    ram_mb: Hundredths,
) -> DataPointView {
    let totals = sums(processes, networks);
    DataPointView {
        timestamp,
        cpu_percent: load(cpu_usages(processes), cpu_percent),
        ram_mb: megabytes(totals.ram, ram_mb),
        io_read_bytes_per_sec: totals.read_rate as u64,
        io_write_bytes_per_sec: totals.write_rate as u64,
        io_read_bytes_total: moved.read as u64,
        io_write_bytes_total: moved.written as u64,
        net_recv_bytes_per_sec: totals.recv_rate as u64,
        net_sent_bytes_per_sec: totals.sent_rate as u64,
        net_recv_bytes_total: (moved.received + totals.recv_estimate) as u64,
        net_sent_bytes_total: (moved.sent + totals.sent_estimate) as u64,
        net_connection_count: totals.connections as u32,
        active_pids: processes.map_values(|p: ProcessSample| p.pid),
    }
}

/// Whether the totals since the start and the sums over the processes in a tick stay within their
/// widths, alone and where a measurement shows them together.
pub open spec fn fit_together(moved: MovedView, tick: Sums) -> bool {
    &&& moved.fit()
    &&& tick.fit()
    &&& moved.received + tick.recv_estimate <= u64::MAX
    &&& moved.sent + tick.sent_estimate <= u64::MAX
}

/// Whether the totals since the start and the sums over the processes in a tick stay within their
/// widths where a measurement shows them together.
fn do_fit_together(moved: &Moved, tick: &Totals) -> (res: bool)
    ensures
        res == fit_together(moved@, tick@),
{
    moved.received.checked_add(tick.recv_estimate).is_some() && moved.sent.checked_add(
        tick.sent_estimate,
    ).is_some()
}

impl MonitorView {
    /// The report that there are no processes of the executable.
    pub open spec fn missing_report(self) -> StatusEventView {
        StatusEventView {
            session_id: self.session_id,
            status: "process_not_found"@,
            message: "Process '"@ + self.executable + "' not found"@,
        }
    }

    /// The report that all processes have exited.
    pub open spec fn gone_report(self) -> StatusEventView {
        StatusEventView {
            session_id: self.session_id,
            status: "process_terminated"@,
            message: "All monitored processes have exited"@,
        }
    }

    /// Waiting for the next tick.
    pub open spec fn wait(self) -> (MonitorView, ActionView) {
        (
            MonitorView { phase: Phase::Waiting, ..self },
            ActionView::WaitTick { session_id: self.session_id },
        )
    }

    /// The machine after a lookup; the first one shows which processes were there when the session
    /// started.
    pub open spec fn looked_up(self, pids: Seq<u32>) -> MonitorView {
        if self.present is None {
            MonitorView { present: Some(pids), ..self }
        } else {
            self
        }
    }

    /// Whether a process was there when the session started.
    pub open spec fn was_present(self, pid: u32) -> bool {
        self.present matches Some(pids) && pids.contains(pid)
    }

    /// The tick's processes, none of which was asked about.
    pub open spec fn with_pids(self, pids: Seq<u32>) -> MonitorView {
        MonitorView {
            pids,
            next: 0,
            processes: Seq::empty(),
            networks: Seq::empty(),
            ..self
        }
    }

    /// The machine with one more process asked about.
    pub open spec fn advanced(self) -> MonitorView {
        MonitorView { next: self.next + 1, ..self }
    }

    /// Asking for the metrics of the next process or, after the last one, for the settings. If no
    /// process is left, that is reported before.
    pub open spec fn collect_next(self) -> (MonitorView, ActionView) {
        if self.next < self.pids.len() {
            (
                MonitorView { phase: Phase::Collecting, ..self },
                ActionView::Collect { pid: self.pids[self.next as int] },
            )
        } else if self.processes.len() == 0 {
            (
                MonitorView { phase: Phase::ReportingGone, ..self },
                ActionView::Report(self.gone_report()),
            )
        } else {
            self.read_setting()
        }
    }

    /// Asking for the settings.
    pub open spec fn read_setting(self) -> (MonitorView, ActionView) {
        (
            MonitorView { phase: Phase::ReadingSetting, ..self },
            ActionView::ReadSetting { session_id: self.session_id },
        )
    }

    /// The process that the machine asked about, with its metrics and rates, is one of the tick's.
    pub open spec fn with_process(
        self,
        metrics: ProcessMetrics,
        read_rate: u64,
        write_rate: u64,
    ) -> MonitorView {
        MonitorView {
            processes: self.processes.push(
                ProcessSample { pid: self.pids[self.next as int], metrics, read_rate, write_rate },
            ),
            ..self
        }
    }

    /// Asking for the network statistics of the next process or, after the last one, for the
    /// summary.
    pub open spec fn collect_next_network(self, use_wfp: bool) -> (MonitorView, ActionView) {
        if self.next < self.processes.len() {
            (
                MonitorView { phase: Phase::CollectingNetwork(use_wfp), ..self },
                ActionView::CollectNetwork { pid: self.processes[self.next as int].pid, use_wfp },
            )
        } else {
            self.summarise()
        }
    }

    /// Asking for the summary.
    pub open spec fn summarise(self) -> (MonitorView, ActionView) {
        (
            MonitorView { phase: Phase::Summarising, ..self },
            ActionView::Summarise {
                cpu: cpu_usages(self.processes),
                ram_bytes: sums(self.processes, self.networks).ram as u64,
            },
        )
    }

    /// Statistics and rates of a process are among the tick's.
    pub open spec fn with_network(
        self,
        stats: NetworkStats,
        recv_rate: u64,
        sent_rate: u64,
    ) -> MonitorView {
        MonitorView {
            networks: self.networks.push(NetworkSample { stats, recv_rate, sent_rate }),
            ..self
        }
    }

    /// What follows from metrics that were collected. Rates are known only if the counters were
    /// read before and time has passed since; otherwise they are zero.
    pub open spec fn after_metrics(self, metrics: ProcessMetrics, now: u64) -> (
        MonitorView,
        ActionView,
    ) {
        let pid = self.pids[self.next as int];
        let sample = CounterSample {
            first: metrics.io_read_bytes,
            second: metrics.io_write_bytes,
            at: now,
        };
        let last = metrics::value_at(self.io_cache, pid);
        let seen = MonitorView {
            io_cache: self.io_cache.insert(pid, sample),
            moved: self.moved.with_io(moved_since(last, self.was_present(pid), sample)),
            ..self
        };
        match delta_since(last, sample) {
            Some(delta) => (
                MonitorView { phase: Phase::RatingIo(metrics), ..seen },
                ActionView::Rate(delta),
            ),
            None => seen.with_process(metrics, 0, 0).advanced().collect_next(),
        }
    }

    /// What follows from network statistics that were collected. Byte counters give rates as those
    /// of input and output do; estimates are rates themselves.
    pub open spec fn after_network(self, stats: NetworkStats, now: u64, use_wfp: bool) -> (
        MonitorView,
        ActionView,
    ) {
        let pid = self.processes[self.next as int].pid;
        let sample = CounterSample {
            first: stats.bytes_received,
            second: stats.bytes_sent,
            at: now,
        };
        if stats.using_wfp {
            let last = metrics::value_at(self.net_cache, pid);
            let seen = MonitorView {
                net_cache: self.net_cache.insert(pid, sample),
                moved: self.moved.with_traffic(moved_since(last, self.was_present(pid), sample)),
                ..self
            };
            match delta_since(last, sample) {
                Some(delta) => (
                    MonitorView { phase: Phase::RatingNetwork(stats, use_wfp), ..seen },
                    ActionView::Rate(delta),
                ),
                None => seen.with_network(stats, 0, 0).advanced().collect_next_network(use_wfp),
            }
        } else {
            self.with_network(
                stats,
                stats.bytes_received,
                stats.bytes_sent,
            ).advanced().collect_next_network(use_wfp)
        }
    }

    /// Whether an event is one that the machine waits for.
    pub open spec fn expects(self, event: Event) -> bool {
        match (self.phase, event) {
            (Phase::Waiting, Event::Tick { .. }) => true,
            (Phase::Resolving, Event::Pids(_)) => true,
            (Phase::ReportingMissing, Event::Reported) => true,
            (Phase::Collecting, Event::Metrics { .. }) => true,
            (Phase::RatingIo(_), Event::Rates { .. }) => true,
            (Phase::ReportingGone, Event::Reported) => true,
            (Phase::ReadingSetting, Event::Setting { .. }) => true,
            (Phase::CollectingNetwork(_), Event::Network { .. }) => true,
            (Phase::RatingNetwork(_, _), Event::Rates { .. }) => true,
            (Phase::Summarising, Event::Summary { .. }) => true,
            (Phase::Storing, Event::Stored) => true,
            _ => false,
        }
    }

    /// What an event leads to, and what to do next.
    pub open spec fn after(self, event: Event) -> (MonitorView, ActionView) {
        match (self.phase, event) {
            (Phase::Waiting, Event::Tick { active }) => if active {
                (
                    MonitorView { phase: Phase::Resolving, ..self },
                    ActionView::FindPids { executable: self.executable },
                )
            } else {
                (MonitorView { phase: Phase::Stopped, ..self }, ActionView::Stop)
            },
            (Phase::Resolving, Event::Pids(Ok(pids))) => if pids@.len() > 0 {
                self.looked_up(pids@).with_pids(pids@).collect_next()
            } else {
                (
                    MonitorView { phase: Phase::ReportingMissing, ..self.looked_up(pids@) },
                    ActionView::Report(self.missing_report()),
                )
            },
            (Phase::Resolving, _) => (
                MonitorView { phase: Phase::ReportingMissing, ..self },
                ActionView::Report(self.missing_report()),
            ),
            (Phase::Collecting, Event::Metrics { collected: Ok(metrics), now }) => self.after_metrics(
                metrics,
                now,
            ),
            (Phase::Collecting, _) => self.advanced().collect_next(),
            (Phase::RatingIo(metrics), Event::Rates { first, second }) => self.with_process(
                metrics,
                first,
                second,
            ).advanced().collect_next(),
            (Phase::ReportingGone, _) => self.read_setting(),
            (
                Phase::ReadingSetting,
                Event::Setting { network_enabled, elevated },
            ) => if network_enabled {
                (MonitorView { next: 0, ..self }).collect_next_network(elevated)
            } else {
                self.summarise()
            },
            (
                Phase::CollectingNetwork(use_wfp),
                Event::Network { statistics: Ok(stats), now },
            ) => self.after_network(stats, now, use_wfp),
            (Phase::CollectingNetwork(use_wfp), _) => self.advanced().collect_next_network(use_wfp),
            (
                Phase::RatingNetwork(stats, use_wfp),
                Event::Rates { first, second },
            ) => self.with_network(stats, first, second).advanced().collect_next_network(use_wfp),
            (Phase::Summarising, Event::Summary { timestamp, cpu_percent, ram_mb }) => (
                MonitorView { phase: Phase::Storing, ..self },
                ActionView::Store {
                    session_id: self.session_id,
                    point: measurement(
                        self.processes,
                        self.networks,
                        self.moved,
                        timestamp,
                        cpu_percent,
                        ram_mb,
                    ),
                },
            ),
            _ => self.wait(),
        }
    }

    /// Whether the sums over the processes in the tick and the totals since the start stay within
    /// their widths.
    pub open spec fn sums_fit(self) -> bool {
        fit_together(self.moved, sums(self.processes, self.networks))
    }

    /// Whether the machine can take an event: it waits for it, and the sums over the processes in
    /// the tick and the totals since the start stay within their widths.
    pub open spec fn accepts(self, event: Event) -> bool {
        self.expects(event) && self.after(event).0.sums_fit()
    }

    /// The sums over the processes in the tick and the totals since the start stay within their
    /// widths, a machine that waits for something about a process has asked about one of the tick,
    /// and there are no network statistics before the settings are read.
    pub open spec fn wf(self) -> bool {
        &&& self.sums_fit()
        &&& match self.phase {
            Phase::Collecting | Phase::RatingIo(_) => self.next < self.pids.len()
                && self.networks.len() == 0,
            Phase::ReportingGone => self.processes.len() == 0 && self.networks.len() == 0,
            Phase::ReadingSetting => self.networks.len() == 0,
            Phase::CollectingNetwork(_) | Phase::RatingNetwork(_, _) => self.next
                < self.processes.len(),
            _ => true,
        }
    }

    /// The machine of a new session.
    pub open spec fn initial(session_id: Seq<char>, executable: Seq<char>) -> MonitorView {
        MonitorView {
            session_id,
            executable,
            present: None,
            io_cache: Map::empty(),
            net_cache: Map::empty(),
            moved: MovedView::nothing(),
            phase: Phase::Waiting,
            pids: Seq::empty(),
            next: 0,
            processes: Seq::empty(),
            networks: Seq::empty(),
        }
    }
}

/// The monitoring loop of a session.
pub struct Monitor {
    session_id: String,
    executable: String,
    present: Option<Vec<u32>>,
    io_cache: HashMap<u32, CounterSample>,
    net_cache: HashMap<u32, CounterSample>,
    moved: Moved,
    phase: Phase,
    pids: Vec<u32>,
    next: usize,
    processes: Vec<ProcessSample>,
    networks: Vec<NetworkSample>,
}

impl View for Monitor {
    type V = MonitorView;

    closed spec fn view(&self) -> MonitorView {
        MonitorView {
            session_id: self.session_id@,
            executable: self.executable@,
            present: match self.present {
                Some(pids) => Some(pids@),
                None => None,
            },
            io_cache: self.io_cache@,
            net_cache: self.net_cache@,
            moved: self.moved@,
            phase: self.phase,
            pids: self.pids@,
            next: self.next as nat,
            processes: self.processes@,
            networks: self.networks@,
        }
    }
}

impl Monitor {
    /// The machine of a new session, which waits for its first tick.
    pub fn new(session_id: &str, executable: &str) -> (res: Monitor)
        ensures
            res@.wf(),
            res@ == MonitorView::initial(session_id@, executable@),
    {
        Monitor {
            session_id: String::from_str(session_id),
            executable: String::from_str(executable),
            present: None,
            io_cache: HashMap::new(),
            net_cache: HashMap::new(),
            moved: Moved { read: 0, written: 0, received: 0, sent: 0 },
            phase: Phase::Waiting,
            pids: Vec::new(),
            next: 0,
            processes: Vec::new(),
            networks: Vec::new(),
        }
    }

    /// What to do first.
    pub fn start(&self) -> (res: Action)
        ensures
            res@ == self@.wait().1,
    {
        Action::WaitTick { session_id: self.session_id.clone() }
    }

    /// Whether a process was there when the session started.
    fn was_present(&self, pid: u32) -> (res: bool)
        ensures
            res == self@.was_present(pid),
    {
        match &self.present {
            Some(pids) => is_among(pids, pid),
            None => false,
        }
    }

    /// Whether the sums stay within their widths with one more process.
    fn has_room_for_process(&self, sample: &ProcessSample) -> (res: bool)
        requires
            self@.sums_fit(),
        ensures
            res == sums(self@.processes.push(*sample), self@.networks).fit(),
    {
        Totals::over(&self.processes, &self.networks).with_process(
            sample,
            Ghost(self.processes@),
            Ghost(self.networks@),
        ).is_some()
    }

    /// Whether the sums stay within their widths, together with the given totals, with the network
    /// statistics of one more process.
    fn has_room_for_network(&self, sample: &NetworkSample, moved: &Moved) -> (res: bool)
        requires
            self@.sums_fit(),
        ensures
            res == fit_together(moved@, sums(self@.processes, self@.networks.push(*sample))),
    {
        match Totals::over(&self.processes, &self.networks).with_network(
            sample,
            Ghost(self.processes@),
            Ghost(self.networks@),
        ) {
            Some(tick) => do_fit_together(moved, &tick),
            None => false,
        }
    }

    /// Whether the machine can take the metrics of the process that it asked about.
    fn accepts_metrics(&self, metrics: &ProcessMetrics, now: u64) -> (res: bool)
        requires
            self@.wf(),
            self@.phase is Collecting,
        ensures
            res == self@.after_metrics(*metrics, now).0.sums_fit(),
    {
        let pid: u32 = self.pids[self.next];
        let sample = CounterSample {
            first: metrics.io_read_bytes,
            second: metrics.io_write_bytes,
            at: now,
        };
        let moved = count_moved(&self.io_cache, pid, self.was_present(pid), &sample);
        if self.moved.with_io(moved).is_none() {
            return false;
        }
        match self.io_cache.get(&pid) {
            Some(last) if now > last.at => true,
            _ => self.has_room_for_process(
                &ProcessSample { pid, metrics: *metrics, read_rate: 0, write_rate: 0 },
            ),
        }
    }

    /// Whether the machine can take the network statistics of the process that it asked about.
    fn accepts_network(&self, stats: &NetworkStats, now: u64, Ghost(use_wfp): Ghost<bool>) -> (res:
        bool)
        requires
            self@.wf(),
            self@.phase is CollectingNetwork,
        ensures
            res == self@.after_network(*stats, now, use_wfp).0.sums_fit(),
    {
        let pid: u32 = self.processes[self.next].pid;
        if stats.using_wfp {
            let sample = CounterSample {
                first: stats.bytes_received,
                second: stats.bytes_sent,
                at: now,
            };
            let bytes = count_moved(&self.net_cache, pid, self.was_present(pid), &sample);
            let moved = match self.moved.with_traffic(bytes) {
                Some(moved) => moved,
                None => {
                    return false;
                },
            };
            match self.net_cache.get(&pid) {
                Some(last) if now > last.at => do_fit_together(
                    &moved,
                    &Totals::over(&self.processes, &self.networks),
                ),
                _ => self.has_room_for_network(
                    &NetworkSample { stats: *stats, recv_rate: 0, sent_rate: 0 },
                    &moved,
                ),
            }
        } else {
            self.has_room_for_network(
                &NetworkSample {
                    stats: *stats,
                    recv_rate: stats.bytes_received,
                    sent_rate: stats.bytes_sent,
                },
                &self.moved,
            )
        }
    }

    /// Whether the machine can take an event.
    pub fn accepts(&self, event: &Event) -> (res: bool)
        requires
            self@.wf(),
        ensures
            res == self@.accepts(*event),
    {
        match (self.phase, event) {
            (Phase::Waiting, Event::Tick { .. }) => true,
            (Phase::Resolving, Event::Pids(_)) => {
                proof {
                    lemma_no_sums();
                }
                true
            },
            (Phase::ReportingMissing, Event::Reported) => true,
            (Phase::Collecting, Event::Metrics { collected, now }) => match collected {
                Ok(metrics) => self.accepts_metrics(metrics, *now),
                Err(_) => true,
            },
            (Phase::RatingIo(metrics), Event::Rates { first, second }) => {
                self.has_room_for_process(
                    &ProcessSample {
                        pid: self.pids[self.next],
                        metrics,
                        read_rate: *first,
                        write_rate: *second,
                    },
                )
            },
            (Phase::ReportingGone, Event::Reported) => true,
            (Phase::ReadingSetting, Event::Setting { .. }) => true,
            (Phase::CollectingNetwork(use_wfp), Event::Network { statistics, now }) => match statistics {
                Ok(stats) => self.accepts_network(stats, *now, Ghost(use_wfp)),
                Err(_) => true,
            },
            (Phase::RatingNetwork(stats, _), Event::Rates { first, second }) => {
                self.has_room_for_network(
                    &NetworkSample { stats, recv_rate: *first, sent_rate: *second },
                    &self.moved,
                )
            },
            (Phase::Summarising, Event::Summary { .. }) => true,
            (Phase::Storing, Event::Stored) => true,
            _ => false,
        }
    }
}

proof fn lemma_no_sums()
    ensures
        sums(Seq::empty(), Seq::empty()).fit(),
{
}

impl Monitor {
    /// Asks for the metrics of the next process, or for what comes after the last one.
    fn collect_next(&mut self) -> (res: Action)
        requires
            old(self)@.sums_fit(),
            old(self)@.networks.len() == 0,
        ensures
            final(self)@.wf(),
            (final(self)@, res@) == old(self)@.collect_next(),
    {
        if self.next < self.pids.len() {
            self.phase = Phase::Collecting;
            Action::Collect { pid: self.pids[self.next] }
        } else if self.processes.len() == 0 {
            self.phase = Phase::ReportingGone;
            Action::Report(
                StatusEvent {
                    session_id: self.session_id.clone(),
                    status: String::from_str("process_terminated"),
                    message: String::from_str("All monitored processes have exited"),
                },
            )
        } else {
            self.read_setting()
        }
    }

    /// Asks for the settings.
    fn read_setting(&mut self) -> (res: Action)
        requires
            old(self)@.sums_fit(),
            old(self)@.networks.len() == 0,
        ensures
            final(self)@.wf(),
            (final(self)@, res@) == old(self)@.read_setting(),
    {
        self.phase = Phase::ReadingSetting;
        Action::ReadSetting { session_id: self.session_id.clone() }
    }

    /// Takes up the process that was asked about, and goes on to the next.
    fn add_process(&mut self, metrics: ProcessMetrics, read_rate: u64, write_rate: u64) -> (res:
        Action)
        requires
            old(self)@.next < old(self)@.pids.len(),
            old(self)@.networks.len() == 0,
            old(self)@.with_process(metrics, read_rate, write_rate).sums_fit(),
        ensures
            final(self)@.wf(),
            (final(self)@, res@) == old(self)@.with_process(
                metrics,
                read_rate,
                write_rate,
            ).advanced().collect_next(),
    {
        let sample = ProcessSample { pid: self.pids[self.next], metrics, read_rate, write_rate };
        self.processes.push(sample);
        assert(self.next < self.pids.len());
        self.next = self.next + 1;
        self.collect_next()
    }

    /// Asks for the network statistics of the next process or, after the last one, for the summary.
    fn collect_next_network(&mut self, use_wfp: bool) -> (res: Action)
        requires
            old(self)@.sums_fit(),
        ensures
            final(self)@.wf(),
            (final(self)@, res@) == old(self)@.collect_next_network(use_wfp),
    {
        if self.next < self.processes.len() {
            self.phase = Phase::CollectingNetwork(use_wfp);
            Action::CollectNetwork { pid: self.processes[self.next].pid, use_wfp }
        } else {
            self.summarise()
        }
    }

    /// Takes up network statistics of the process that was asked about, and goes on to the next.
    fn add_network(
        &mut self,
        stats: NetworkStats,
        recv_rate: u64,
        sent_rate: u64,
        use_wfp: bool,
    ) -> (res: Action)
        requires
            old(self)@.next < old(self)@.processes.len(),
            old(self)@.with_network(stats, recv_rate, sent_rate).sums_fit(),
        ensures
            final(self)@.wf(),
            (final(self)@, res@) == old(self)@.with_network(
                stats,
                recv_rate,
                sent_rate,
            ).advanced().collect_next_network(use_wfp),
    {
        let sample = NetworkSample { stats, recv_rate, sent_rate };
        self.networks.push(sample);
        assert(self.next < self.processes.len());
        self.next = self.next + 1;
        self.collect_next_network(use_wfp)
    }

    /// Asks for the summary.
    fn summarise(&mut self) -> (res: Action)
        requires
            old(self)@.sums_fit(),
        ensures
            final(self)@.wf(),
            (final(self)@, res@) == old(self)@.summarise(),
    {
        self.phase = Phase::Summarising;
        let mut cpu: Vec<Option<CpuUsage>> = Vec::new();
        for i in 0..self.processes.len()
            invariant
                cpu@ == cpu_usages(self.processes@).take(i as int),
        {
            cpu.push(self.processes[i].metrics.cpu);
            assert(cpu@ =~= cpu_usages(self.processes@).take(i + 1));
        }
        assert(cpu@ =~= cpu_usages(self.processes@));
        let ram_bytes: u64 = Totals::over(&self.processes, &self.networks).ram;
        Action::Summarise { cpu, ram_bytes }
    }

    /// Reports that there are no processes of the executable.
    fn report_missing(&mut self) -> (res: Action)
        requires
            old(self)@.sums_fit(),
        ensures
            final(self)@.wf(),
            final(self)@ == (MonitorView { phase: Phase::ReportingMissing, ..old(self)@ }),
            res@ == ActionView::Report(old(self)@.missing_report()),
    {
        self.phase = Phase::ReportingMissing;
        let mut message = String::from_str("Process '");
        message.append(self.executable.as_str());
        message.append("' not found");
        Action::Report(
            StatusEvent {
                session_id: self.session_id.clone(),
                status: String::from_str("process_not_found"),
                message,
            },
        )
    }

    /// Remembers what the first lookup found.
    fn look_up(&mut self, pids: &Vec<u32>)
        ensures
            final(self)@ == old(self)@.looked_up(pids@),
    {
        if self.present.is_none() {
            let found = pids.clone();
            assert(found@ =~= pids@);
            self.present = Some(found);
        }
    }

    /// Waits for the next tick.
    fn wait(&mut self) -> (res: Action)
        requires
            old(self)@.sums_fit(),
        ensures
            final(self)@.wf(),
            (final(self)@, res@) == old(self)@.wait(),
    {
        self.phase = Phase::Waiting;
        Action::WaitTick { session_id: self.session_id.clone() }
    }

    /// The measurement of the tick.
    fn measure(&self, timestamp: Timestamp, cpu_percent: Hundredths, ram_mb: Hundredths) -> (res:
        DataPoint)
        requires
            self@.sums_fit(),
        ensures
            res@ == measurement(
                self@.processes,
                self@.networks,
                self@.moved,
                timestamp,
                cpu_percent,
                ram_mb,
            ),
    {
        let mut active_pids: Vec<u32> = Vec::new();
        let mut busy: bool = false;
        let ghost pids = self.processes@.map_values(|p: ProcessSample| p.pid);
        let ghost usages = cpu_usages(self.processes@);
        for i in 0..self.processes.len()
            invariant
                pids == self.processes@.map_values(|p: ProcessSample| p.pid),
                usages == cpu_usages(self.processes@),
                active_pids@ == pids.take(i as int),
                busy <==> exists|j: int| 0 <= j < i && is_busy(#[trigger] usages[j]),
        {
            active_pids.push(self.processes[i].pid);
            assert(active_pids@ =~= pids.take(i + 1));
            assert(usages[i as int] == self.processes@[i as int].metrics.cpu);
            if let Some(usage) = self.processes[i].metrics.cpu {
                busy = busy || usage.busy > 0;
            }
        }
        assert(active_pids@ =~= pids);
        let totals = Totals::over(&self.processes, &self.networks);
        DataPoint {
            timestamp,
            cpu_percent: if busy {
                cpu_percent
            } else {
                Hundredths { count: 0 }
            },
            ram_mb: to_megabytes(totals.ram, ram_mb),
            io_read_bytes_per_sec: totals.read_rate,
            io_write_bytes_per_sec: totals.write_rate,
            io_read_bytes_total: self.moved.read,
            io_write_bytes_total: self.moved.written,
            net_recv_bytes_per_sec: totals.recv_rate,
            net_sent_bytes_per_sec: totals.sent_rate,
            net_recv_bytes_total: self.moved.received + totals.recv_estimate,
            net_sent_bytes_total: self.moved.sent + totals.sent_estimate,
            net_connection_count: totals.connections,
            active_pids,
        }
    }

    /// Takes an event, and says what to do next.
    pub fn step(&mut self, event: Event) -> (res: Action)
        requires
            old(self)@.wf(),
            old(self)@.accepts(event),
        ensures
            final(self)@.wf(),
            (final(self)@, res@) == old(self)@.after(event),
    {
        match (self.phase, event) {
            (Phase::Waiting, Event::Tick { active }) => {
                if active {
                    self.phase = Phase::Resolving;
                    Action::FindPids { executable: self.executable.clone() }
                } else {
                    self.phase = Phase::Stopped;
                    Action::Stop
                }
            },
            (Phase::Resolving, Event::Pids(result)) => match result {
                Ok(pids) => {
                    self.look_up(&pids);
                    if pids.len() > 0 {
                        self.pids = pids;
                        self.next = 0;
                        self.processes = Vec::new();
                        self.networks = Vec::new();
                        proof {
                            lemma_no_sums();
                        }
                        self.collect_next()
                    } else {
                        self.report_missing()
                    }
                },
                Err(_) => self.report_missing(),
            },
            (Phase::Collecting, Event::Metrics { collected, now }) => match collected {
                Ok(metrics) => {
                    let pid = self.pids[self.next];
                    let sample = CounterSample {
                        first: metrics.io_read_bytes,
                        second: metrics.io_write_bytes,
                        at: now,
                    };
                    let moved = count_moved(&self.io_cache, pid, self.was_present(pid), &sample);
                    self.moved = self.moved.with_io(moved).unwrap();
                    match observe(&mut self.io_cache, pid, sample) {
                        Some(delta) => {
                            self.phase = Phase::RatingIo(metrics);
                            Action::Rate(delta)
                        },
                        None => self.add_process(metrics, 0, 0),
                    }
                },
                Err(_) => {
                    assert(self.next < self.pids.len());
                    self.next = self.next + 1;
                    self.collect_next()
                },
            },
            (Phase::RatingIo(metrics), Event::Rates { first, second }) => self.add_process(
                metrics,
                first,
                second,
            ),
            (Phase::ReportingGone, Event::Reported) => self.read_setting(),
            (
                Phase::ReadingSetting,
                Event::Setting { network_enabled, elevated },
            ) => if network_enabled {
                self.next = 0;
                self.collect_next_network(elevated)
            } else {
                self.summarise()
            },
            (Phase::CollectingNetwork(use_wfp), Event::Network { statistics, now }) => match statistics {
                Ok(stats) => {
                    let pid = self.processes[self.next].pid;
                    if stats.using_wfp {
                        let sample = CounterSample {
                            first: stats.bytes_received,
                            second: stats.bytes_sent,
                            at: now,
                        };
                        let moved = count_moved(
                            &self.net_cache,
                            pid,
                            self.was_present(pid),
                            &sample,
                        );
                        self.moved = self.moved.with_traffic(moved).unwrap();
                        match observe(&mut self.net_cache, pid, sample) {
                            Some(delta) => {
                                self.phase = Phase::RatingNetwork(stats, use_wfp);
                                Action::Rate(delta)
                            },
                            None => self.add_network(stats, 0, 0, use_wfp),
                        }
                    } else {
                        self.add_network(stats, stats.bytes_received, stats.bytes_sent, use_wfp)
                    }
                },
                Err(_) => {
                    assert(self.next < self.processes.len());
                    self.next = self.next + 1;
                    self.collect_next_network(use_wfp)
                },
            },
            (Phase::RatingNetwork(stats, use_wfp), Event::Rates { first, second }) => {
                self.add_network(stats, first, second, use_wfp)
            },
            (Phase::Summarising, Event::Summary { timestamp, cpu_percent, ram_mb }) => {
                let point = self.measure(timestamp, cpu_percent, ram_mb);
                self.phase = Phase::Storing;
                Action::Store { session_id: self.session_id.clone(), point }
            },
            _ => self.wait(),
        }
    }
}

/// The loop ends when a tick finds the session inactive, and for no other reason.
pub proof fn law_ends_only_when_inactive(s: MonitorView, event: Event)
    requires
        s.expects(event),
    ensures
        s.after(event).1 is Stop <==> s.phase is Waiting && event == (Event::Tick {
            active: false,
        }),
{
}

/// A tick that finds no process is reported and changes nothing else, but that the first lookup is
/// remembered: the loop waits for the next tick, since the process may start again.
pub proof fn law_missing_process_keeps_polling(s: MonitorView, pids: Result<Vec<u32>, String>)
    requires
        s.phase is Resolving,
        pids matches Ok(found) ==> found@.len() == 0,
    ensures
        s.after(Event::Pids(pids)).1 == ActionView::Report(s.missing_report()),
        s.after(Event::Pids(pids)).0.after(Event::Reported) == (match pids {
            Ok(found) => s.looked_up(found@).wait(),
            Err(_) => s.wait(),
        }),
{
}

/// When all processes have exited, a measurement is stored all the same, whatever the settings are.
/// The totals in it are those reached before, and everything else but the time is zero.
pub proof fn law_exited_processes_give_zeros(
    s: MonitorView,
    network_enabled: bool,
    elevated: bool,
    timestamp: Timestamp,
    cpu_percent: Hundredths,
    ram_mb: Hundredths,
)
    requires
        s.wf(),
        s.phase is ReportingGone,
    ensures
        ({
            let asked = s.after(Event::Reported).0;
            let (summing, action) = asked.after(Event::Setting { network_enabled, elevated });
            &&& asked.phase is ReadingSetting
            &&& action == ActionView::Summarise { cpu: Seq::empty(), ram_bytes: 0 }
            &&& summing.after(Event::Summary { timestamp, cpu_percent, ram_mb }).1
                == ActionView::Store {
                session_id: s.session_id,
                point: DataPointView {
                    timestamp,
                    cpu_percent: Hundredths { count: 0 },
                    ram_mb: Hundredths { count: 0 },
                    io_read_bytes_per_sec: 0,
                    io_write_bytes_per_sec: 0,
                    io_read_bytes_total: s.moved.read as u64,
                    io_write_bytes_total: s.moved.written as u64,
                    net_recv_bytes_per_sec: 0,
                    net_sent_bytes_per_sec: 0,
                    net_recv_bytes_total: s.moved.received as u64,
                    net_sent_bytes_total: s.moved.sent as u64,
                    net_connection_count: 0,
                    active_pids: Seq::empty(),
                },
            }
        }),
{
    assert(cpu_usages(s.processes) =~= Seq::<Option<CpuUsage>>::empty());
    assert(s.processes.map_values(|p: ProcessSample| p.pid) =~= Seq::<u32>::empty());
}

/// Without network monitoring, a measurement shows no network traffic, and the totals of it stay as
/// they are.
pub proof fn law_no_network_without_setting(
    s: MonitorView,
    elevated: bool,
    timestamp: Timestamp,
    cpu_percent: Hundredths,
    ram_mb: Hundredths,
)
    requires
        s.wf(),
        s.phase is ReadingSetting,
    ensures
        ({
            let summing = s.after(Event::Setting { network_enabled: false, elevated }).0;
            let action = summing.after(Event::Summary { timestamp, cpu_percent, ram_mb }).1;
            &&& action is Store
            &&& action->point.net_recv_bytes_per_sec == 0
            &&& action->point.net_sent_bytes_per_sec == 0
            &&& action->point.net_recv_bytes_total == s.moved.received
            &&& action->point.net_sent_bytes_total == s.moved.sent
            &&& action->point.net_connection_count == 0
            &&& action->point.active_pids == pids_of(s.processes)
        }),
{
}

/// A whole number of megabytes is shown as it is.
pub proof fn law_whole_megabytes_are_exact(n: nat, inexact: Hundredths)
    requires
        n * 0x10_0000 <= LARGEST_EXACT_BYTES,
    ensures
        megabytes(n * 0x10_0000, inexact) == (Hundredths { count: (n * 100) as u64 }),
{
}

/// A process that was not seen before has no rates in its first tick.
pub proof fn law_first_sample_has_no_rates(s: MonitorView, metrics: ProcessMetrics, now: u64)
    requires
        s.phase is Collecting,
        s.next < s.pids.len(),
        !s.io_cache.dom().contains(s.pids[s.next as int]),
    ensures
        s.after(Event::Metrics { collected: Ok(metrics), now }).0.processes == s.processes.push(
            ProcessSample { pid: s.pids[s.next as int], metrics, read_rate: 0, write_rate: 0 },
        ),
{
}

/// What came of the question for the metrics of a process.
pub struct ProcessAnswer {
    pub collected: Result<ProcessMetrics, String>,
    pub now: u64,
    pub read_rate: u64,
    pub write_rate: u64,
}

/// The machine after the metrics of a process and, where it asks for them, their rates.
pub open spec fn after_process(s: MonitorView, answer: ProcessAnswer) -> MonitorView {
    let asked = s.after(Event::Metrics { collected: answer.collected, now: answer.now }).0;
    if asked.phase is RatingIo {
        asked.after(Event::Rates { first: answer.read_rate, second: answer.write_rate }).0
    } else {
        asked
    }
}

/// The machine after the metrics of several processes.
pub open spec fn after_processes(s: MonitorView, answers: Seq<ProcessAnswer>) -> MonitorView
    decreases answers.len(),
{
    if answers.len() == 0 {
        s
    } else {
        after_processes(after_process(s, answers[0]), answers.skip(1))
    }
}

/// The processes whose metrics could be collected.
pub open spec fn answered(pids: Seq<u32>, answers: Seq<ProcessAnswer>) -> Seq<u32>
    decreases answers.len(),
{
    if answers.len() == 0 {
        Seq::empty()
    } else if answers[0].collected is Ok {
        seq![pids[0]] + answered(pids.skip(1), answers.skip(1))
    } else {
        answered(pids.skip(1), answers.skip(1))
    }
}

/// The identifiers of the processes in a tick.
pub open spec fn pids_of(processes: Seq<ProcessSample>) -> Seq<u32> {
    processes.map_values(|p: ProcessSample| p.pid)
}

proof fn lemma_pids_of_push(processes: Seq<ProcessSample>, p: ProcessSample)
    ensures
        pids_of(processes.push(p)) == pids_of(processes).push(p.pid),
{
    assert(pids_of(processes.push(p)) =~= pids_of(processes).push(p.pid));
}

/// Once every process was asked about, the tick consists of exactly those whose metrics could be
/// collected, in their order; if there are none, that is reported next, and otherwise the settings
/// are read.
pub proof fn law_tick_consists_of_answered_processes(s: MonitorView, answers: Seq<ProcessAnswer>)
    requires
        s.phase is Collecting,
        s.next < s.pids.len(),
        answers.len() == s.pids.len() - s.next,
    ensures
        pids_of(after_processes(s, answers).processes) == pids_of(s.processes) + answered(
            s.pids.skip(s.next as int),
            answers,
        ),
        after_processes(s, answers).phase == (if after_processes(s, answers).processes.len() == 0 {
            Phase::ReportingGone
        } else {
            Phase::ReadingSetting
        }),
    decreases answers.len(),
{
    let answer = answers[0];
    let t = after_process(s, answer);
    let rest = answers.skip(1);
    let pid = s.pids[s.next as int];
    let left = s.pids.skip(s.next as int);
    assert(left[0] == pid);
    assert(left.skip(1) =~= s.pids.skip((s.next + 1) as int));
    assert(t.pids == s.pids && t.next == s.next + 1);
    if answer.collected is Ok {
        let p = t.processes.last();
        assert(t.processes == s.processes.push(p) && p.pid == pid);
        lemma_pids_of_push(s.processes, p);
    } else {
        assert(t.processes == s.processes);
    }
    if rest.len() == 0 {
        assert(after_processes(t, rest) == t);
        assert(answered(left.skip(1), rest) =~= Seq::<u32>::empty());
    } else {
        law_tick_consists_of_answered_processes(t, rest);
    }
    assert(pids_of(after_processes(s, answers).processes) =~= pids_of(s.processes) + answered(
        left,
        answers,
    ));
}

/// What came of the question for the network statistics of a process.
pub struct NetworkAnswer {
    pub statistics: Result<NetworkStats, String>,
    pub now: u64,
    pub recv_rate: u64,
    pub sent_rate: u64,
}

/// The machine after the network statistics of a process and, where it asks for them, their rates.
pub open spec fn after_statistics(s: MonitorView, answer: NetworkAnswer) -> MonitorView {
    let asked = s.after(Event::Network { statistics: answer.statistics, now: answer.now }).0;
    if asked.phase is RatingNetwork {
        asked.after(Event::Rates { first: answer.recv_rate, second: answer.sent_rate }).0
    } else {
        asked
    }
}

/// The machine after the network statistics of several processes.
pub open spec fn after_all_statistics(s: MonitorView, answers: Seq<NetworkAnswer>) -> MonitorView
    decreases answers.len(),
{
    if answers.len() == 0 {
        s
    } else {
        after_all_statistics(after_statistics(s, answers[0]), answers.skip(1))
    }
}

/// The network statistics that could be collected.
pub open spec fn statistics_answered(answers: Seq<NetworkAnswer>) -> Seq<NetworkStats>
    decreases answers.len(),
{
    if answers.len() == 0 {
        Seq::empty()
    } else if answers[0].statistics is Ok {
        seq![answers[0].statistics->Ok_0] + statistics_answered(answers.skip(1))
    } else {
        statistics_answered(answers.skip(1))
    }
}

/// The network statistics in a tick.
pub open spec fn statistics_of(networks: Seq<NetworkSample>) -> Seq<NetworkStats> {
    networks.map_values(|n: NetworkSample| n.stats)
}

/// Once every process of the tick was asked about, all network statistics that could be collected
/// are in the tick, in their order, and its processes are as they were; the summary is next.
pub proof fn law_tick_holds_answered_statistics(s: MonitorView, answers: Seq<NetworkAnswer>)
    requires
        s.phase is CollectingNetwork,
        s.next < s.processes.len(),
        answers.len() == s.processes.len() - s.next,
    ensures
        statistics_of(after_all_statistics(s, answers).networks) == statistics_of(s.networks)
            + statistics_answered(answers),
        after_all_statistics(s, answers).processes == s.processes,
        after_all_statistics(s, answers).phase is Summarising,
    decreases answers.len(),
{
    let answer = answers[0];
    let t = after_statistics(s, answer);
    let rest = answers.skip(1);
    assert(t.processes == s.processes && t.next == s.next + 1);
    if answer.statistics is Ok {
        let n = t.networks.last();
        assert(t.networks == s.networks.push(n) && n.stats == answer.statistics->Ok_0);
        assert(statistics_of(t.networks) =~= statistics_of(s.networks).push(n.stats));
    } else {
        assert(t.networks == s.networks);
    }
    if rest.len() == 0 {
        assert(after_all_statistics(t, rest) == t);
        assert(statistics_answered(rest) =~= Seq::<NetworkStats>::empty());
    } else {
        law_tick_holds_answered_statistics(t, rest);
    }
    assert(statistics_of(after_all_statistics(s, answers).networks) =~= statistics_of(s.networks)
        + statistics_answered(answers));
}

/// The machine once the report that all processes have exited was made, where it waits for that.
pub open spec fn after_report(s: MonitorView) -> MonitorView {
    if s.phase is ReportingGone {
        s.after(Event::Reported).0
    } else {
        s
    }
}

/// The machine once the settings were read and, where these ask for it, the network statistics were
/// collected.
pub open spec fn after_setting(
    s: MonitorView,
    network_enabled: bool,
    elevated: bool,
    answers: Seq<NetworkAnswer>,
) -> MonitorView {
    let asked = s.after(Event::Setting { network_enabled, elevated }).0;
    if asked.phase is CollectingNetwork {
        after_all_statistics(asked, answers)
    } else {
        asked
    }
}

/// A tick that finds processes ends in one measurement, whatever comes of the questions about them:
/// it names exactly the processes whose metrics could be collected, and once it is stored the loop
/// waits for the next tick.
pub proof fn law_tick_ends_in_a_measurement(
    s: MonitorView,
    pids: Vec<u32>,
    answers: Seq<ProcessAnswer>,
    network_enabled: bool,
    elevated: bool,
    network_answers: Seq<NetworkAnswer>,
    timestamp: Timestamp,
    cpu_percent: Hundredths,
    ram_mb: Hundredths,
)
    requires
        s.phase is Resolving,
        pids@.len() > 0,
        answers.len() == pids@.len(),
        network_answers.len() == answered(pids@, answers).len(),
    ensures
        ({
            let found = s.after(Event::Pids(Ok(pids))).0;
            let collected = after_report(after_processes(found, answers));
            let summing = after_setting(collected, network_enabled, elevated, network_answers);
            let (storing, action) = summing.after(
                Event::Summary { timestamp, cpu_percent, ram_mb },
            );
            &&& summing.phase is Summarising
            &&& action is Store
            &&& action->point.active_pids == answered(pids@, answers)
            &&& action->point.timestamp == timestamp
            &&& storing.after(Event::Stored) == summing.wait()
        }),
{
    let found = s.after(Event::Pids(Ok(pids))).0;
    assert(found.pids.skip(0) =~= pids@);
    law_tick_consists_of_answered_processes(found, answers);
    let left = after_processes(found, answers);
    assert(pids_of(left.processes) =~= answered(pids@, answers));
    let collected = after_report(left);
    let asked = collected.after(Event::Setting { network_enabled, elevated }).0;
    if asked.phase is CollectingNetwork {
        law_tick_holds_answered_statistics(asked, network_answers);
    }
}

/// The machine after several events.
pub open spec fn run(s: MonitorView, events: Seq<Event>) -> MonitorView
    decreases events.len(),
{
    if events.len() == 0 {
        s
    } else {
        run(s, events.drop_last()).after(events.last()).0
    }
}

/// What is counted since the start never falls, whatever happens: neither when a process exits nor
/// when its counters go back.
pub proof fn law_totals_never_fall(s: MonitorView, events: Seq<Event>)
    ensures
        run(s, events).moved.at_least(s.moved),
    decreases events.len(),
{
    if events.len() > 0 {
        law_totals_never_fall(s, events.drop_last());
    }
}

/// Every measurement shows the totals that were reached, and with those of the network what is
/// estimated for its own tick.
pub proof fn law_measurements_show_totals(s: MonitorView, event: Event)
    requires
        s.wf(),
        s.after(event).1 is Store,
    ensures
        s.after(event).1->point.io_read_bytes_total == s.moved.read,
        s.after(event).1->point.io_write_bytes_total == s.moved.written,
        s.after(event).1->point.net_recv_bytes_total == s.moved.received + session::sum(
            recv_estimates(s.networks),
        ),
        s.after(event).1->point.net_sent_bytes_total == s.moved.sent + session::sum(
            sent_estimates(s.networks),
        ),
{
}

/// Whether an event fits to processes that move nothing: their counters stand still, and are zero
/// for a process that was not there when the session started.
pub open spec fn moves_nothing(
    s: MonitorView,
    event: Event,
    io: spec_fn(u32) -> (u64, u64),
    traffic: spec_fn(u32) -> (u64, u64),
) -> bool {
    &&& s.phase is Collecting ==> (event matches Event::Metrics { collected: Ok(metrics), now } ==> {
        let pid = s.pids[s.next as int];
        &&& (metrics.io_read_bytes, metrics.io_write_bytes) == io(pid)
        &&& s.was_present(pid) || io(pid) == (0u64, 0u64)
    })
    &&& s.phase is CollectingNetwork ==> (event matches Event::Network {
        statistics: Ok(stats),
        now,
    } ==> stats.using_wfp ==> {
        let pid = s.processes[s.next as int].pid;
        &&& (stats.bytes_received, stats.bytes_sent) == traffic(pid)
        &&& s.was_present(pid) || traffic(pid) == (0u64, 0u64)
    })
}

/// Whether all of several events fit to processes that move nothing.
pub open spec fn all_move_nothing(
    s: MonitorView,
    events: Seq<Event>,
    io: spec_fn(u32) -> (u64, u64),
    traffic: spec_fn(u32) -> (u64, u64),
) -> bool
    decreases events.len(),
{
    events.len() > 0 ==> {
        &&& all_move_nothing(s, events.drop_last(), io, traffic)
        &&& moves_nothing(run(s, events.drop_last()), events.last(), io, traffic)
    }
}

/// Whether the last counters of each process are the given ones.
pub open spec fn counters_stand(
    cache: Map<u32, CounterSample>,
    counters: spec_fn(u32) -> (u64, u64),
) -> bool {
    forall|pid: u32| #[trigger]
        cache.dom().contains(pid) ==> (cache[pid].first, cache[pid].second) == counters(pid)
}

proof fn lemma_totals_stand(
    s: MonitorView,
    event: Event,
    io: spec_fn(u32) -> (u64, u64),
    traffic: spec_fn(u32) -> (u64, u64),
)
    requires
        counters_stand(s.io_cache, io),
        counters_stand(s.net_cache, traffic),
        moves_nothing(s, event, io, traffic),
    ensures
        s.after(event).0.moved == s.moved,
        counters_stand(s.after(event).0.io_cache, io),
        counters_stand(s.after(event).0.net_cache, traffic),
{
}

/// The totals are zero, in every measurement, while no process moves any bytes after the session has
/// started, however many the processes that were there at its start have moved before. Those of the
/// network show the estimates of the tick, where there are any.
pub proof fn law_no_totals_from_before_the_start(
    session_id: Seq<char>,
    executable: Seq<char>,
    events: Seq<Event>,
    io: spec_fn(u32) -> (u64, u64),
    traffic: spec_fn(u32) -> (u64, u64),
)
    requires
        all_move_nothing(MonitorView::initial(session_id, executable), events, io, traffic),
    ensures
        ({
            let s = run(MonitorView::initial(session_id, executable), events);
            &&& s.moved == MovedView::nothing()
            &&& forall|event: Event| #[trigger]
                s.after(event).1 is Store ==> {
                    &&& s.after(event).1->point.io_read_bytes_total == 0
                    &&& s.after(event).1->point.io_write_bytes_total == 0
                    &&& s.after(event).1->point.net_recv_bytes_total == session::sum(
                        recv_estimates(s.networks),
                    ) as u64
                    &&& s.after(event).1->point.net_sent_bytes_total == session::sum(
                        sent_estimates(s.networks),
                    ) as u64
                }
        }),
{
    lemma_run_stands(MonitorView::initial(session_id, executable), events, io, traffic);
}

proof fn lemma_run_stands(
    s: MonitorView,
    events: Seq<Event>,
    io: spec_fn(u32) -> (u64, u64),
    traffic: spec_fn(u32) -> (u64, u64),
)
    requires
        counters_stand(s.io_cache, io),
        counters_stand(s.net_cache, traffic),
        all_move_nothing(s, events, io, traffic),
    ensures
        run(s, events).moved == s.moved,
        counters_stand(run(s, events).io_cache, io),
        counters_stand(run(s, events).net_cache, traffic),
    decreases events.len(),
{
    if events.len() > 0 {
        lemma_run_stands(s, events.drop_last(), io, traffic);
        lemma_totals_stand(run(s, events.drop_last()), events.last(), io, traffic);
    }
}

/// Estimated traffic counts for its own tick alone: it leaves the totals since the start as they are,
/// and the next tick that finds processes begins without it.
pub proof fn law_estimates_are_per_tick(
    s: MonitorView,
    stats: NetworkStats,
    now: u64,
    later: MonitorView,
    pids: Vec<u32>,
)
    requires
        s.phase is CollectingNetwork,
        !stats.using_wfp,
        later.phase is Resolving,
        pids@.len() > 0,
    ensures
        ({
            let after = s.after(Event::Network { statistics: Ok(stats), now }).0;
            &&& after.moved == s.moved
            &&& sums(after.processes, after.networks).recv_estimate == sums(
                s.processes,
                s.networks,
            ).recv_estimate + stats.bytes_received
            &&& sums(after.processes, after.networks).sent_estimate == sums(
                s.processes,
                s.networks,
            ).sent_estimate + stats.bytes_sent
        }),
        ({
            let begun = later.after(Event::Pids(Ok(pids))).0;
            &&& sums(begun.processes, begun.networks).recv_estimate == 0
            &&& sums(begun.processes, begun.networks).sent_estimate == 0
        }),
{
    lemma_sums_push_network(
        s.processes,
        s.networks,
        NetworkSample {
            stats,
            recv_rate: stats.bytes_received,
            sent_rate: stats.bytes_sent,
        },
    );
}

/// Where no traffic is counted, the totals of the network are what is estimated for the tick.
pub proof fn law_uncounted_totals_are_estimates(s: MonitorView, event: Event)
    requires
        s.wf(),
        s.moved.received == 0 && s.moved.sent == 0,
        forall|i: int| 0 <= i < s.networks.len() ==> !(#[trigger] s.networks[i]).stats.using_wfp,
        s.after(event).1 is Store,
    ensures
        s.after(event).1->point.net_recv_bytes_total == session::sum(
            s.networks.map_values(|n: NetworkSample| n.stats.bytes_received as nat),
        ),
        s.after(event).1->point.net_sent_bytes_total == session::sum(
            s.networks.map_values(|n: NetworkSample| n.stats.bytes_sent as nat),
        ),
{
    assert(recv_estimates(s.networks) =~= s.networks.map_values(
        |n: NetworkSample| n.stats.bytes_received as nat,
    ));
    assert(sent_estimates(s.networks) =~= s.networks.map_values(
        |n: NetworkSample| n.stats.bytes_sent as nat,
    ));
}

} // verus!
