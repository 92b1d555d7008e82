//! What the monitoring loop is for: how the events of a tick show in its measurement.

use vstd::prelude::*;
use vstd::string::*;

use crate::monitor::metrics::ProcessMetrics;
use crate::monitor::network::NetworkStats;
use crate::monitor::sampling;
use crate::monitor::sampling::{
    Action, ActionView, CounterSample, Event, MonitorView, NetworkSample, Phase, ProcessSample,
};
use crate::session;
use crate::session::{DataPointView, Hundredths};
use crate::time::Timestamp;

verus! {

/// What events add up to, where each counts for the given number.
pub open spec fn adding_up(events: Seq<Event>, count: spec_fn(Event) -> nat) -> nat {
    events.fold_left(0nat, |sum: nat, event: Event| sum + count(event))
}

/// The first of the rates that an event gives.
pub open spec fn first_rate() -> spec_fn(Event) -> nat {
    |event: Event|
        match event {
            Event::Rates { first, .. } => first as nat,
            _ => 0,
        }
}

/// The second of the rates that an event gives.
pub open spec fn second_rate() -> spec_fn(Event) -> nat {
    |event: Event|
        match event {
            Event::Rates { second, .. } => second as nat,
            _ => 0,
        }
}

/// The memory that an event reports of a process.
pub open spec fn reported_memory() -> spec_fn(Event) -> nat {
    |event: Event|
        match event {
            Event::Metrics { collected: Ok(metrics), .. } => metrics.working_set_bytes as nat,
            _ => 0,
        }
}

/// One for an event about the metrics of a process, whether they could be collected or not.
pub open spec fn metrics_answer() -> spec_fn(Event) -> nat {
    |event: Event|
        match event {
            Event::Metrics { .. } => 1,
            _ => 0,
        }
}

/// The connections that an event reports of a process.
pub open spec fn reported_connections() -> spec_fn(Event) -> nat {
    |event: Event|
        match event {
            Event::Network { statistics: Ok(stats), .. } => stats.connection_count as nat,
            _ => 0,
        }
}

/// The bytes received that an event reports where nothing counts them.
pub open spec fn estimated_received() -> spec_fn(Event) -> nat {
    |event: Event|
        match event {
            Event::Network { statistics: Ok(stats), .. } => if stats.using_wfp {
                0
            } else {
                stats.bytes_received as nat
            },
            _ => 0,
        }
}

/// The bytes sent that an event reports where nothing counts them.
pub open spec fn estimated_sent() -> spec_fn(Event) -> nat {
    |event: Event|
        match event {
            Event::Network { statistics: Ok(stats), .. } => if stats.using_wfp {
                0
            } else {
                stats.bytes_sent as nat
            },
            _ => 0,
        }
}

/// Whether an event reports a process that has used processor time.
pub open spec fn reports_load(event: Event) -> bool {
    event matches Event::Metrics { collected: Ok(metrics), .. } && metrics.cpu matches Some(
        usage,
    ) && usage.busy > 0
}

/// The metrics that events report, in their order.
pub open spec fn reported_metrics(events: Seq<Event>) -> Seq<ProcessMetrics>
    decreases events.len(),
{
    if events.len() == 0 {
        Seq::empty()
    } else {
        match events.last() {
            Event::Metrics { collected: Ok(metrics), .. } => reported_metrics(
                events.drop_last(),
            ).push(metrics),
            _ => reported_metrics(events.drop_last()),
        }
    }
}

/// The processes whose metrics events report, where the first answer is about the first process, and
/// so on.
pub open spec fn reported_pids(pids: Seq<u32>, events: Seq<Event>) -> Seq<u32>
    decreases events.len(),
{
    if events.len() == 0 {
        Seq::empty()
    } else {
        let before = events.drop_last();
        match events.last() {
            Event::Metrics { collected: Ok(_), .. } => reported_pids(pids, before).push(
                pids[adding_up(before, metrics_answer()) as int],
            ),
            _ => reported_pids(pids, before),
        }
    }
}

/// Whether the machine waited for each of several events when it came.
pub open spec fn all_expected(s: MonitorView, events: Seq<Event>) -> bool
    decreases events.len(),
{
    events.len() > 0 ==> {
        &&& all_expected(s, events.drop_last())
        &&& sampling::run(s, events.drop_last()).expects(events.last())
    }
}

/// Whether events belong to the first part of a tick, about the metrics.
pub open spec fn about_metrics(events: Seq<Event>) -> bool {
    forall|i: int|
        0 <= i < events.len() ==> (#[trigger] events[i] is Metrics || events[i] is Rates
            || events[i] is Reported)
}

/// Whether events belong to the second part of a tick, about the network.
pub open spec fn about_network(events: Seq<Event>) -> bool {
    forall|i: int|
        0 <= i < events.len() ==> (#[trigger] events[i] is Network || events[i] is Rates)
}

/// The process whose rates the machine waits for, if any.
spec fn pending(s: MonitorView) -> Seq<ProcessSample> {
    match s.phase {
        Phase::RatingIo(metrics) => seq![
            ProcessSample {
                pid: s.pids[s.next as int],
                metrics,
                read_rate: 0,
                write_rate: 0,
            },
        ],
        _ => Seq::empty(),
    }
}

/// How the machine stands after events about metrics.
spec fn stands_after_metrics(start: MonitorView, events: Seq<Event>) -> bool {
    let s = sampling::run(start, events);
    let known = s.processes + pending(s);
    &&& s.phase is Collecting || s.phase is RatingIo || s.phase is ReportingGone
        || s.phase is ReadingSetting
    &&& s.pids == start.pids
    &&& s.networks.len() == 0
    &&& adding_up(events, metrics_answer()) == s.next + pending(s).len()
    &&& session::sum(sampling::read_rates(s.processes)) == adding_up(events, first_rate())
    &&& session::sum(sampling::write_rates(s.processes)) == adding_up(events, second_rate())
    &&& session::sum(sampling::ram_sizes(known)) == adding_up(events, reported_memory())
    &&& known.map_values(|p: ProcessSample| p.metrics) == reported_metrics(events)
    &&& known.map_values(|p: ProcessSample| p.pid) == reported_pids(start.pids, events)
}

proof fn lemma_sum_push(numbers: Seq<nat>, n: nat)
    ensures
        session::sum(numbers.push(n)) == session::sum(numbers) + n,
{
    assert(numbers.push(n).drop_last() =~= numbers);
}

proof fn lemma_pushed_process(processes: Seq<ProcessSample>, p: ProcessSample)
    ensures
        sampling::read_rates(processes.push(p)) == sampling::read_rates(processes).push(
            p.read_rate as nat,
        ),
        sampling::write_rates(processes.push(p)) == sampling::write_rates(processes).push(
            p.write_rate as nat,
        ),
        sampling::ram_sizes(processes.push(p)) == sampling::ram_sizes(processes).push(
            p.metrics.working_set_bytes as nat,
        ),
        processes.push(p).map_values(|p: ProcessSample| p.metrics) == processes.map_values(
            |p: ProcessSample| p.metrics,
        ).push(p.metrics),
        processes.push(p).map_values(|p: ProcessSample| p.pid) == processes.map_values(
            |p: ProcessSample| p.pid,
        ).push(p.pid),
        session::sum(sampling::read_rates(processes.push(p))) == session::sum(
            sampling::read_rates(processes),
        ) + p.read_rate,
        session::sum(sampling::write_rates(processes.push(p))) == session::sum(
            sampling::write_rates(processes),
        ) + p.write_rate,
        session::sum(sampling::ram_sizes(processes.push(p))) == session::sum(
            sampling::ram_sizes(processes),
        ) + p.metrics.working_set_bytes,
{
    assert(sampling::read_rates(processes.push(p)) =~= sampling::read_rates(processes).push(
        p.read_rate as nat,
    ));
    assert(sampling::write_rates(processes.push(p)) =~= sampling::write_rates(processes).push(
        p.write_rate as nat,
    ));
    assert(sampling::ram_sizes(processes.push(p)) =~= sampling::ram_sizes(processes).push(
        p.metrics.working_set_bytes as nat,
    ));
    assert(processes.push(p).map_values(|p: ProcessSample| p.metrics) =~= processes.map_values(
        |p: ProcessSample| p.metrics,
    ).push(p.metrics));
    assert(processes.push(p).map_values(|p: ProcessSample| p.pid) =~= processes.map_values(
        |p: ProcessSample| p.pid,
    ).push(p.pid));
    lemma_sum_push(sampling::read_rates(processes), p.read_rate as nat);
    lemma_sum_push(sampling::write_rates(processes), p.write_rate as nat);
    lemma_sum_push(sampling::ram_sizes(processes), p.metrics.working_set_bytes as nat);
}

proof fn lemma_metrics_part(start: MonitorView, events: Seq<Event>)
    requires
        start.phase is Collecting,
        start.next == 0,
        start.processes.len() == 0,
        start.networks.len() == 0,
        about_metrics(events),
        all_expected(start, events),
    ensures
        stands_after_metrics(start, events),
    decreases events.len(),
{
    let s = sampling::run(start, events);
    if events.len() == 0 {
        let none = Seq::<ProcessSample>::empty();
        assert(s.processes + pending(s) =~= none);
        assert(none.map_values(|p: ProcessSample| p.metrics) =~= Seq::<ProcessMetrics>::empty());
        assert(none.map_values(|p: ProcessSample| p.pid) =~= Seq::<u32>::empty());
        assert(s.processes =~= none);
    } else {
        let before = events.drop_last();
        let event = events.last();
        let t = sampling::run(start, before);
        assert forall|i: int| 0 <= i < before.len() implies (#[trigger] before[i] is Metrics
            || before[i] is Rates || before[i] is Reported) by {
            assert(before[i] == events[i]);
        }
        assert(events[events.len() - 1] == event);
        lemma_metrics_part(start, before);
        let known = t.processes + pending(t);
        match event {
            Event::Metrics { collected: Ok(metrics), now } => {
                let p = ProcessSample {
                    pid: t.pids[t.next as int],
                    metrics,
                    read_rate: 0,
                    write_rate: 0,
                };
                assert(pending(t).len() == 0);
                assert(known =~= t.processes);
                lemma_pushed_process(t.processes, p);
                assert(s.processes + pending(s) =~= t.processes.push(p));
            },
            Event::Metrics { collected: Err(_), now } => {
                assert(s.processes + pending(s) =~= known);
            },
            Event::Rates { first, second } => {
                let p = pending(t)[0];
                let q = ProcessSample { read_rate: first, write_rate: second, ..p };
                assert(known =~= t.processes.push(p));
                lemma_pushed_process(t.processes, p);
                lemma_pushed_process(t.processes, q);
                assert(s.processes =~= t.processes.push(q));
                assert(s.processes + pending(s) =~= t.processes.push(q));
            },
            _ => {
                assert(s.processes + pending(s) =~= known);
            },
        }
    }
}

/// How the machine stands after events about the network.
spec fn stands_after_network(start: MonitorView, events: Seq<Event>) -> bool {
    let s = sampling::run(start, events);
    let waiting: nat = match s.phase {
        Phase::RatingNetwork(stats, _) => stats.connection_count as nat,
        _ => 0,
    };
    &&& s.phase is CollectingNetwork || s.phase is RatingNetwork || s.phase is Summarising
    &&& s.phase matches Phase::RatingNetwork(stats, _) ==> stats.using_wfp
    &&& s.processes == start.processes
    &&& session::sum(sampling::recv_rates(s.networks)) == adding_up(events, first_rate())
        + adding_up(events, estimated_received())
    &&& session::sum(sampling::sent_rates(s.networks)) == adding_up(events, second_rate())
        + adding_up(events, estimated_sent())
    &&& session::sum(sampling::recv_estimates(s.networks)) == adding_up(
        events,
        estimated_received(),
    )
    &&& session::sum(sampling::sent_estimates(s.networks)) == adding_up(events, estimated_sent())
    &&& session::sum(sampling::connection_counts(s.networks)) + waiting == adding_up(
        events,
        reported_connections(),
    )
}

proof fn lemma_pushed_network(networks: Seq<NetworkSample>, n: NetworkSample)
    ensures
        session::sum(sampling::recv_rates(networks.push(n))) == session::sum(
            sampling::recv_rates(networks),
        ) + n.recv_rate,
        session::sum(sampling::sent_rates(networks.push(n))) == session::sum(
            sampling::sent_rates(networks),
        ) + n.sent_rate,
        session::sum(sampling::recv_estimates(networks.push(n))) == session::sum(
            sampling::recv_estimates(networks),
        ) + (if n.stats.using_wfp {
            0
        } else {
            n.stats.bytes_received as nat
        }),
        session::sum(sampling::sent_estimates(networks.push(n))) == session::sum(
            sampling::sent_estimates(networks),
        ) + (if n.stats.using_wfp {
            0
        } else {
            n.stats.bytes_sent as nat
        }),
        session::sum(sampling::connection_counts(networks.push(n))) == session::sum(
            sampling::connection_counts(networks),
        ) + n.stats.connection_count,
{
    let all = networks.push(n);
    assert(sampling::recv_rates(all).drop_last() =~= sampling::recv_rates(networks));
    assert(sampling::sent_rates(all).drop_last() =~= sampling::sent_rates(networks));
    assert(sampling::recv_estimates(all).drop_last() =~= sampling::recv_estimates(networks));
    assert(sampling::sent_estimates(all).drop_last() =~= sampling::sent_estimates(networks));
    assert(sampling::connection_counts(all).drop_last() =~= sampling::connection_counts(networks));
}

proof fn lemma_network_part(start: MonitorView, events: Seq<Event>)
    requires
        start.phase is CollectingNetwork || start.phase is Summarising,
        start.networks.len() == 0,
        about_network(events),
        all_expected(start, events),
    ensures
        stands_after_network(start, events),
    decreases events.len(),
{
    let s = sampling::run(start, events);
    if events.len() > 0 {
        let before = events.drop_last();
        let event = events.last();
        let t = sampling::run(start, before);
        assert forall|i: int| 0 <= i < before.len() implies (#[trigger] before[i] is Network
            || before[i] is Rates) by {
            assert(before[i] == events[i]);
        }
        assert(events[events.len() - 1] == event);
        lemma_network_part(start, before);
        match event {
            Event::Network { statistics: Ok(stats), now } => {
                lemma_pushed_network(
                    t.networks,
                    NetworkSample { stats, recv_rate: 0, sent_rate: 0 },
                );
                lemma_pushed_network(
                    t.networks,
                    NetworkSample {
                        stats,
                        recv_rate: stats.bytes_received,
                        sent_rate: stats.bytes_sent,
                    },
                );
            },
            Event::Rates { first, second } => {
                let stats = t.phase->RatingNetwork_0;
                lemma_pushed_network(
                    t.networks,
                    NetworkSample { stats, recv_rate: first, sent_rate: second },
                );
            },
            _ => {},
        }
    }
}

proof fn lemma_load_is_reported(events: Seq<Event>)
    ensures
        (exists|i: int|
            0 <= i < reported_metrics(events).len() && sampling::is_busy(
                (#[trigger] reported_metrics(events)[i]).cpu,
            )) <==> (exists|j: int| 0 <= j < events.len() && reports_load(#[trigger] events[j])),
    decreases events.len(),
{
    if events.len() > 0 {
        let before = events.drop_last();
        let last = events.last();
        let all = reported_metrics(events);
        let fewer = reported_metrics(before);
        lemma_load_is_reported(before);
        assert(events[events.len() - 1] == last);
        if exists|i: int| 0 <= i < all.len() && sampling::is_busy((#[trigger] all[i]).cpu) {
            let i = choose|i: int| 0 <= i < all.len() && sampling::is_busy((#[trigger] all[i]).cpu);
            if i < fewer.len() {
                assert(fewer[i] == all[i]);
                let j = choose|j: int| 0 <= j < before.len() && reports_load(#[trigger] before[j]);
                assert(events[j] == before[j]);
            } else {
                assert(reports_load(events[events.len() - 1]));
            }
        }
        if exists|j: int| 0 <= j < events.len() && reports_load(#[trigger] events[j]) {
            let j = choose|j: int| 0 <= j < events.len() && reports_load(#[trigger] events[j]);
            if j < before.len() {
                assert(before[j] == events[j]);
                let i = choose|i: int|
                    0 <= i < fewer.len() && sampling::is_busy((#[trigger] fewer[i]).cpu);
                assert(all[i] == fewer[i]);
            } else {
                assert(sampling::is_busy(all[all.len() - 1].cpu));
            }
        }
    }
}

/// Whether a point is what the events of a tick come to: those about the metrics of the processes
/// found, those about the network, the time, and the load and the memory as computed in floating
/// point.
pub open spec fn shows_tick(
    point: DataPointView,
    pids: Seq<u32>,
    of_metrics: Seq<Event>,
    of_network: Seq<Event>,
    timestamp: Timestamp,
    cpu_percent: Hundredths,
    ram_mb: Hundredths,
) -> bool {
    let memory = adding_up(of_metrics, reported_memory());
    &&& point.timestamp == timestamp
    &&& (exists|i: int| 0 <= i < of_metrics.len() && reports_load(#[trigger] of_metrics[i]))
        ==> point.cpu_percent == cpu_percent
    &&& !(exists|i: int| 0 <= i < of_metrics.len() && reports_load(#[trigger] of_metrics[i]))
        ==> point.cpu_percent.count == 0
    &&& memory <= 90_071_992_547_409 ==> point.ram_mb.count * 1_048_576 <= memory * 100 + 524_288
        < (point.ram_mb.count + 1) * 1_048_576
    &&& memory > 90_071_992_547_409 ==> point.ram_mb == ram_mb
    &&& point.io_read_bytes_per_sec == adding_up(of_metrics, first_rate())
    &&& point.io_write_bytes_per_sec == adding_up(of_metrics, second_rate())
    &&& point.net_recv_bytes_per_sec == adding_up(of_network, first_rate()) + adding_up(
        of_network,
        estimated_received(),
    )
    &&& point.net_sent_bytes_per_sec == adding_up(of_network, second_rate()) + adding_up(
        of_network,
        estimated_sent(),
    )
    &&& point.net_connection_count == adding_up(of_network, reported_connections())
    &&& point.active_pids == reported_pids(pids, of_metrics)
}

/// A measurement is what the events of its tick come to. Each of the four rates is the sum of those
/// that were given for it, plus what is estimated where nothing counts; so is the number of
/// connections. The load is the one given if some process was busy, and zero if none was. The memory
/// is that of all processes together, rounded to hundredths of a megabyte. The processes named are
/// those that answered. The totals are those that the machine has reached, and for the network what
/// is estimated on top of that.
pub proof fn law_measurement_shows_the_tick(
    s: MonitorView,
    pids: Vec<u32>,
    of_metrics: Seq<Event>,
    network_enabled: bool,
    elevated: bool,
    of_network: Seq<Event>,
    timestamp: Timestamp,
    cpu_percent: Hundredths,
    ram_mb: Hundredths,
)
    requires
        s.phase is Resolving,
        pids@.len() > 0,
        about_metrics(of_metrics),
        about_network(of_network),
        ({
            let found = s.after(Event::Pids(Ok(pids))).0;
            let collected = sampling::run(found, of_metrics);
            let asked = collected.after(Event::Setting { network_enabled, elevated }).0;
            let summing = sampling::run(asked, of_network);
            &&& all_expected(found, of_metrics)
            &&& collected.phase is ReadingSetting
            &&& all_expected(asked, of_network)
            &&& summing.phase is Summarising
            &&& summing.wf()
        }),
    ensures
        ({
            let found = s.after(Event::Pids(Ok(pids))).0;
            let collected = sampling::run(found, of_metrics);
            let asked = collected.after(Event::Setting { network_enabled, elevated }).0;
            let summing = sampling::run(asked, of_network);
            let action = summing.after(Event::Summary { timestamp, cpu_percent, ram_mb }).1;
            &&& action is Store
            &&& action->point.io_read_bytes_total == summing.moved.read
            &&& action->point.io_write_bytes_total == summing.moved.written
            &&& action->point.net_recv_bytes_total == summing.moved.received + adding_up(
                of_network,
                estimated_received(),
            )
            &&& action->point.net_sent_bytes_total == summing.moved.sent + adding_up(
                of_network,
                estimated_sent(),
            )
            &&& !network_enabled ==> of_network.len() == 0
            &&& shows_tick(
                action->point,
                pids@,
                of_metrics,
                of_network,
                timestamp,
                cpu_percent,
                ram_mb,
            )
        }),
{
    let found = s.after(Event::Pids(Ok(pids))).0;
    let collected = sampling::run(found, of_metrics);
    let asked = collected.after(Event::Setting { network_enabled, elevated }).0;
    let summing = sampling::run(asked, of_network);
    lemma_metrics_part(found, of_metrics);
    assert(collected.processes + pending(collected) =~= collected.processes);
    lemma_network_part(asked, of_network);
    lemma_load_is_reported(of_metrics);
    if !network_enabled && of_network.len() > 0 {
        lemma_first_expected(asked, of_network);
    }
    let usages = sampling::cpu_usages(summing.processes);
    let metrics = reported_metrics(of_metrics);
    assert(metrics.len() == usages.len());
    assert forall|i: int| 0 <= i < usages.len() implies #[trigger] usages[i] == metrics[i].cpu by {
        assert(metrics[i] == collected.processes[i].metrics);
    }
    if exists|i: int| 0 <= i < metrics.len() && sampling::is_busy((#[trigger] metrics[i]).cpu) {
        let i = choose|i: int|
            0 <= i < metrics.len() && sampling::is_busy((#[trigger] metrics[i]).cpu);
        assert(sampling::is_busy(usages[i]));
    }
    if exists|i: int| 0 <= i < usages.len() && sampling::is_busy(#[trigger] usages[i]) {
        let i = choose|i: int| 0 <= i < usages.len() && sampling::is_busy(#[trigger] usages[i]);
        assert(sampling::is_busy(metrics[i].cpu));
    }
}

proof fn lemma_first_expected(s: MonitorView, events: Seq<Event>)
    requires
        all_expected(s, events),
        events.len() > 0,
    ensures
        s.expects(events[0]),
    decreases events.len(),
{
    if events.len() > 1 {
        lemma_first_expected(s, events.drop_last());
    } else {
        assert(sampling::run(s, events.drop_last()) == s);
    }
}

/// The processor times of all processes that answered are handed over to compute the load, in their
/// order and none left out, with their memory together.
pub proof fn law_summary_is_of_all_processes(s: MonitorView, event: Event)
    requires
        s.after(event).1 is Summarise,
        s.after(event).0.wf(),
    ensures
        s.after(event).1->cpu.len() == s.after(event).0.processes.len(),
        forall|i: int|
            0 <= i < s.after(event).0.processes.len() ==> #[trigger] s.after(event).1->cpu[i]
                == s.after(event).0.processes[i].metrics.cpu,
        s.after(event).1->ram_bytes == s.after(event).0.processes.fold_left(
            0nat,
            |sum: nat, p: ProcessSample| sum + p.metrics.working_set_bytes as nat,
        ),
{
    lemma_ram_is_fold(s.after(event).0.processes);
}

proof fn lemma_ram_is_fold(processes: Seq<ProcessSample>)
    ensures
        session::sum(sampling::ram_sizes(processes)) == processes.fold_left(
            0nat,
            |sum: nat, p: ProcessSample| sum + p.metrics.working_set_bytes as nat,
        ),
    decreases processes.len(),
{
    if processes.len() > 0 {
        lemma_ram_is_fold(processes.drop_last());
        assert(sampling::ram_sizes(processes).drop_last() =~= sampling::ram_sizes(
            processes.drop_last(),
        ));
    }
}

/// An idle process more in a tick changes nothing of the load that its measurement shows.
pub proof fn law_idle_process_leaves_the_load(
    s: MonitorView,
    t: MonitorView,
    idle: ProcessSample,
    at: int,
    timestamp: Timestamp,
    cpu_percent: Hundredths,
    ram_mb: Hundredths,
)
    requires
        s.phase is Summarising,
        0 <= at <= s.processes.len(),
        idle.metrics.cpu matches Some(usage) ==> usage.busy == 0,
        t == (MonitorView { processes: s.processes.insert(at, idle), ..s }),
    ensures
        ({
            let summary = Event::Summary { timestamp, cpu_percent, ram_mb };
            s.after(summary).1->point.cpu_percent == t.after(summary).1->point.cpu_percent
        }),
{
    let fewer = sampling::cpu_usages(s.processes);
    let more = sampling::cpu_usages(t.processes);
    if exists|i: int| 0 <= i < fewer.len() && sampling::is_busy(#[trigger] fewer[i]) {
        let i = choose|i: int| 0 <= i < fewer.len() && sampling::is_busy(#[trigger] fewer[i]);
        let j = if i < at {
            i
        } else {
            i + 1
        };
        assert(more[j] == fewer[i]);
    }
    if exists|j: int| 0 <= j < more.len() && sampling::is_busy(#[trigger] more[j]) {
        let j = choose|j: int| 0 <= j < more.len() && sampling::is_busy(#[trigger] more[j]);
        let i = if j < at {
            j
        } else {
            j - 1
        };
        assert(fewer[i] == more[j]);
    }
}

/// By how much a counter is larger than it was, if it is.
pub open spec fn excess(before: u64, after: u64) -> int {
    if after > before {
        after - before
    } else {
        0
    }
}

/// What the metrics of a process lead to. Its counters are remembered with the time, those of all
/// others stay. The totals grow by what the counters have grown since they were last read; the first
/// time, by nothing for a process that the first lookup found, and by all of it for any other. If
/// the counters were read before and time has passed, the rates are asked for over that time;
/// otherwise the process counts without rates.
pub proof fn law_metrics_are_taken_up(s: MonitorView, metrics: ProcessMetrics, now: u64)
    requires
        s.phase is Collecting,
        s.next < s.pids.len(),
    ensures
        ({
            let pid = s.pids[s.next as int];
            let (t, action) = s.after(Event::Metrics { collected: Ok(metrics), now });
            let last = s.io_cache[pid];
            let known = s.io_cache.dom().contains(pid);
            let was_there = s.present is Some && s.present->0.contains(pid);
            &&& t.io_cache.dom() == s.io_cache.dom().insert(pid)
            &&& t.io_cache[pid] == (CounterSample {
                first: metrics.io_read_bytes,
                second: metrics.io_write_bytes,
                at: now,
            })
            &&& forall|other: u32|
                other != pid && s.io_cache.dom().contains(other) ==> #[trigger] t.io_cache[other]
                    == s.io_cache[other]
            &&& t.net_cache == s.net_cache && t.present == s.present && t.pids == s.pids
            &&& t.session_id == s.session_id && t.executable == s.executable
            &&& t.moved.received == s.moved.received && t.moved.sent == s.moved.sent
            &&& t.moved.read - s.moved.read == (if known {
                excess(last.first, metrics.io_read_bytes)
            } else if was_there {
                0
            } else {
                metrics.io_read_bytes as int
            })
            &&& t.moved.written - s.moved.written == (if known {
                excess(last.second, metrics.io_write_bytes)
            } else if was_there {
                0
            } else {
                metrics.io_write_bytes as int
            })
            &&& known && now > last.at ==> {
                &&& action is Rate
                &&& action->Rate_0.first == excess(last.first, metrics.io_read_bytes)
                &&& action->Rate_0.second == excess(last.second, metrics.io_write_bytes)
                &&& action->Rate_0.elapsed_nanos == now - last.at
                &&& t.phase == Phase::RatingIo(metrics)
                &&& t.processes == s.processes && t.next == s.next
            }
            &&& !(known && now > last.at) ==> {
                &&& action !is Rate
                &&& t.processes == s.processes.push(
                    ProcessSample { pid, metrics, read_rate: 0, write_rate: 0 },
                )
                &&& t.next == s.next + 1
            }
        }),
{
    let pid = s.pids[s.next as int];
    let t = s.after(Event::Metrics { collected: Ok(metrics), now }).0;
    assert(t.io_cache.dom() =~= s.io_cache.dom().insert(pid));
}

/// What the network statistics of a process lead to. Counted bytes are remembered and added up as
/// those of input and output are; estimated bytes are the rates themselves, and nothing is remembered
/// of them.
pub proof fn law_statistics_are_taken_up(s: MonitorView, stats: NetworkStats, now: u64)
    requires
        s.phase is CollectingNetwork,
        s.next < s.processes.len(),
    ensures
        ({
            let pid = s.processes[s.next as int].pid;
            let (t, action) = s.after(Event::Network { statistics: Ok(stats), now });
            let last = s.net_cache[pid];
            let known = s.net_cache.dom().contains(pid);
            let was_there = s.present is Some && s.present->0.contains(pid);
            &&& t.io_cache == s.io_cache && t.present == s.present && t.pids == s.pids
            &&& t.processes == s.processes
            &&& t.session_id == s.session_id && t.executable == s.executable
            &&& t.moved.read == s.moved.read && t.moved.written == s.moved.written
            &&& !stats.using_wfp ==> {
                &&& t.net_cache == s.net_cache
                &&& t.moved == s.moved
                &&& action !is Rate
                &&& t.next == s.next + 1
                &&& t.networks == s.networks.push(
                    NetworkSample {
                        stats,
                        recv_rate: stats.bytes_received,
                        sent_rate: stats.bytes_sent,
                    },
                )
            }
            &&& stats.using_wfp ==> {
                &&& t.net_cache.dom() == s.net_cache.dom().insert(pid)
                &&& t.net_cache[pid] == (CounterSample {
                    first: stats.bytes_received,
                    second: stats.bytes_sent,
                    at: now,
                })
                &&& forall|other: u32|
                    other != pid && s.net_cache.dom().contains(other)
                        ==> #[trigger] t.net_cache[other] == s.net_cache[other]
                &&& t.moved.received - s.moved.received == (if known {
                    excess(last.first, stats.bytes_received)
                } else if was_there {
                    0
                } else {
                    stats.bytes_received as int
                })
                &&& t.moved.sent - s.moved.sent == (if known {
                    excess(last.second, stats.bytes_sent)
                } else if was_there {
                    0
                } else {
                    stats.bytes_sent as int
                })
                &&& known && now > last.at ==> {
                    &&& action is Rate
                    &&& action->Rate_0.first == excess(last.first, stats.bytes_received)
                    &&& action->Rate_0.second == excess(last.second, stats.bytes_sent)
                    &&& action->Rate_0.elapsed_nanos == now - last.at
                    &&& t.networks == s.networks && t.next == s.next
                }
                &&& !(known && now > last.at) ==> {
                    &&& action !is Rate
                    &&& t.networks == s.networks.push(
                        NetworkSample { stats, recv_rate: 0, sent_rate: 0 },
                    )
                    &&& t.next == s.next + 1
                }
            }
        }),
{
    let pid = s.processes[s.next as int].pid;
    let t = s.after(Event::Network { statistics: Ok(stats), now }).0;
    if stats.using_wfp {
        assert(t.net_cache.dom() =~= s.net_cache.dom().insert(pid));
    }
}

/// Rates go to the process that they were asked for, and what could not be collected leaves no
/// trace.
pub proof fn law_rates_and_failures(s: MonitorView, first: u64, second: u64, now: u64, why: String)
    requires
        s.wf(),
    ensures
        s.phase matches Phase::RatingIo(metrics) ==> s.after(
            Event::Rates { first, second },
        ).0.processes == s.processes.push(
            ProcessSample {
                pid: s.pids[s.next as int],
                metrics,
                read_rate: first,
                write_rate: second,
            },
        ),
        s.phase matches Phase::RatingNetwork(stats, _) ==> s.after(
            Event::Rates { first, second },
        ).0.networks == s.networks.push(
            NetworkSample { stats, recv_rate: first, sent_rate: second },
        ),
        s.phase is RatingIo || s.phase is RatingNetwork ==> ({
            let t = s.after(Event::Rates { first, second }).0;
            &&& t.next == s.next + 1
            &&& t.moved == s.moved && t.io_cache == s.io_cache && t.net_cache == s.net_cache
        }),
        s.phase is Collecting ==> ({
            let t = s.after(Event::Metrics { collected: Err(why), now }).0;
            &&& t.processes == s.processes && t.next == s.next + 1
            &&& t.moved == s.moved && t.io_cache == s.io_cache && t.net_cache == s.net_cache
        }),
        s.phase is CollectingNetwork ==> ({
            let t = s.after(Event::Network { statistics: Err(why), now }).0;
            &&& t.networks == s.networks && t.next == s.next + 1
            &&& t.moved == s.moved && t.io_cache == s.io_cache && t.net_cache == s.net_cache
        }),
{
}

/// The questions of a tick: an active session looks up the processes of its executable; each process
/// found is asked about once, in order; the settings are read once all were; with network monitoring
/// each process that answered is asked about once more, in order, by byte counters exactly if the
/// application is elevated; then the tick is summed up, stored for its session, and the next one is
/// awaited.
pub proof fn law_questions_of_a_tick(
    s: MonitorView,
    event: Event,
    pids: Vec<u32>,
    network_enabled: bool,
    elevated: bool,
)
    requires
        s.wf(),
    ensures
        s.phase is Waiting ==> s.after(Event::Tick { active: true }).1 == (ActionView::FindPids {
            executable: s.executable,
        }),
        s.phase is Waiting ==> s.after(Event::Tick { active: true }).0 == (MonitorView {
            phase: Phase::Resolving,
            ..s
        }),
        s.phase is Resolving && pids@.len() > 0 ==> ({
            let (t, action) = s.after(Event::Pids(Ok(pids)));
            &&& action == (ActionView::Collect { pid: pids@[0] })
            &&& t.pids == pids@ && t.next == 0 && t.processes.len() == 0 && t.networks.len() == 0
            &&& t.moved == s.moved && t.io_cache == s.io_cache && t.net_cache == s.net_cache
            &&& s.present is None ==> t.present == Some(pids@)
            &&& s.present is Some ==> t.present == s.present
        }),
        (s.phase is Collecting || s.phase is RatingIo) && s.expects(event) && s.after(
            event,
        ).1 !is Rate ==> ({
            let (t, action) = s.after(event);
            &&& s.next + 1 < s.pids.len() ==> action == (ActionView::Collect {
                pid: s.pids[(s.next + 1) as int],
            })
            &&& s.next + 1 >= s.pids.len() && t.processes.len() > 0 ==> action == (
            ActionView::ReadSetting { session_id: s.session_id })
            &&& s.next + 1 >= s.pids.len() && t.processes.len() == 0 ==> action is Report
        }),
        s.phase is ReportingGone ==> s.after(Event::Reported).1 == (ActionView::ReadSetting {
            session_id: s.session_id,
        }),
        s.phase is ReadingSetting ==> ({
            let (t, action) = s.after(Event::Setting { network_enabled, elevated });
            &&& network_enabled && s.processes.len() > 0 ==> action == (ActionView::CollectNetwork {
                pid: s.processes[0].pid,
                use_wfp: elevated,
            })
            &&& !network_enabled || s.processes.len() == 0 ==> action is Summarise
            &&& t.processes == s.processes && t.networks.len() == 0 && t.moved == s.moved
        }),
        s.phase matches Phase::CollectingNetwork(use_wfp) ==> s.expects(event) && s.after(
            event,
        ).1 !is Rate ==> ({
            let (t, action) = s.after(event);
            &&& s.next + 1 < s.processes.len() ==> action == (ActionView::CollectNetwork {
                pid: s.processes[(s.next + 1) as int].pid,
                use_wfp,
            })
            &&& s.next + 1 >= s.processes.len() ==> action is Summarise
        }),
        s.phase matches Phase::RatingNetwork(_, use_wfp) ==> s.expects(event) ==> ({
            let (t, action) = s.after(event);
            &&& s.next + 1 < s.processes.len() ==> action == (ActionView::CollectNetwork {
                pid: s.processes[(s.next + 1) as int].pid,
                use_wfp,
            })
            &&& s.next + 1 >= s.processes.len() ==> action is Summarise
        }),
        s.phase is Summarising && s.expects(event) ==> s.after(event).1 is Store && s.after(
            event,
        ).1->Store_session_id == s.session_id,
        s.phase is Storing ==> s.after(Event::Stored) == (
            MonitorView { phase: Phase::Waiting, ..s },
            ActionView::WaitTick { session_id: s.session_id },
        ),
        s.phase is ReportingMissing ==> s.after(Event::Reported) == (
            MonitorView { phase: Phase::Waiting, ..s },
            ActionView::WaitTick { session_id: s.session_id },
        ),
{
}

/// What is reported of processes that are missing and of those that have exited.
pub proof fn law_reports(s: MonitorView, none: Vec<u32>, why: String)
    requires
        s.phase is Resolving,
        none@.len() == 0,
    ensures
        s.after(Event::Pids(Ok(none))).1 == s.after(Event::Pids(Err(why))).1,
        s.after(Event::Pids(Err(why))).1 is Report,
        s.after(Event::Pids(Err(why))).1->Report_0.session_id == s.session_id,
        s.after(Event::Pids(Err(why))).1->Report_0.status == "process_not_found"@,
        s.after(Event::Pids(Err(why))).1->Report_0.message == "Process '"@ + s.executable
            + "' not found"@,
        forall|t: MonitorView, e: Event|
            (t.phase is Collecting || t.phase is RatingIo) && #[trigger] t.after(e).1 is Report
                ==> t.after(e).1->Report_0.session_id == t.session_id && t.after(
                e,
            ).1->Report_0.status == "process_terminated"@ && t.after(e).1->Report_0.message
                == "All monitored processes have exited"@,
{
}

/// What the machine can take: exactly the answer to its last question, as long as every sum and total
/// that a measurement shows stays within its width.
pub proof fn law_answers_are_accepted(s: MonitorView, event: Event)
    ensures
        s.expects(event) <==> {
            ||| s.phase is Waiting && event is Tick
            ||| s.phase is Resolving && event is Pids
            ||| s.phase is ReportingMissing && event is Reported
            ||| s.phase is Collecting && event is Metrics
            ||| s.phase is RatingIo && event is Rates
            ||| s.phase is ReportingGone && event is Reported
            ||| s.phase is ReadingSetting && event is Setting
            ||| s.phase is CollectingNetwork && event is Network
            ||| s.phase is RatingNetwork && event is Rates
            ||| s.phase is Summarising && event is Summary
            ||| s.phase is Storing && event is Stored
        },
        s.accepts(event) <==> s.expects(event) && ({
            let t = s.after(event).0;
            &&& t.moved.read <= 0xFFFF_FFFF_FFFF_FFFF
            &&& t.moved.written <= 0xFFFF_FFFF_FFFF_FFFF
            &&& t.moved.received + session::sum(sampling::recv_estimates(t.networks))
                <= 0xFFFF_FFFF_FFFF_FFFF
            &&& t.moved.sent + session::sum(sampling::sent_estimates(t.networks))
                <= 0xFFFF_FFFF_FFFF_FFFF
            &&& session::sum(sampling::ram_sizes(t.processes)) <= 0xFFFF_FFFF_FFFF_FFFF
            &&& session::sum(sampling::read_rates(t.processes)) <= 0xFFFF_FFFF_FFFF_FFFF
            &&& session::sum(sampling::write_rates(t.processes)) <= 0xFFFF_FFFF_FFFF_FFFF
            &&& session::sum(sampling::recv_rates(t.networks)) <= 0xFFFF_FFFF_FFFF_FFFF
            &&& session::sum(sampling::sent_rates(t.networks)) <= 0xFFFF_FFFF_FFFF_FFFF
            &&& session::sum(sampling::connection_counts(t.networks)) <= 0xFFFF_FFFF
        }),
{
}

/// A new machine knows nothing yet, and its first question is for the next tick of its session.
pub proof fn law_new_machine(session_id: Seq<char>, executable: Seq<char>)
    ensures
        ({
            let s = MonitorView::initial(session_id, executable);
            &&& s.session_id == session_id && s.executable == executable
            &&& s.present is None
            &&& s.io_cache == Map::<u32, CounterSample>::empty()
            &&& s.net_cache == Map::<u32, CounterSample>::empty()
            &&& s.moved.read == 0 && s.moved.written == 0
            &&& s.moved.received == 0 && s.moved.sent == 0
            &&& s.phase is Waiting
            &&& s.processes.len() == 0 && s.networks.len() == 0
            &&& s.wait().1 == (ActionView::WaitTick { session_id })
        }),
{
}

/// The views of a report, of a request for rates and of a request to store show what these hold.
pub proof fn law_actions_show_what_they_hold(action: Action)
    ensures
        action matches Action::WaitTick { session_id } ==> action@ == (ActionView::WaitTick {
            session_id: session_id@,
        }),
        action matches Action::FindPids { executable } ==> action@ == (ActionView::FindPids {
            executable: executable@,
        }),
        action matches Action::Report(status) ==> action@ is Report && action@->Report_0.session_id
            == status.session_id@ && action@->Report_0.status == status.status@
            && action@->Report_0.message == status.message@,
        action matches Action::Collect { pid } ==> action@ == (ActionView::Collect { pid }),
        action matches Action::Rate(delta) ==> action@ == ActionView::Rate(delta),
        action matches Action::ReadSetting { session_id } ==> action@ == (
        ActionView::ReadSetting { session_id: session_id@ }),
        action matches Action::CollectNetwork { pid, use_wfp } ==> action@ == (
        ActionView::CollectNetwork { pid, use_wfp }),
        action matches Action::Summarise { cpu, ram_bytes } ==> action@ == (
        ActionView::Summarise { cpu: cpu@, ram_bytes }),
        action matches Action::Store { session_id, point } ==> action@ == (ActionView::Store {
            session_id: session_id@,
            point: point@,
        }),
        action is Stop ==> action@ is Stop,
{
}

} // verus!
