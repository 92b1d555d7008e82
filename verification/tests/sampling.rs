use process_observer::monitor::metrics::{CpuUsage, ProcessMetrics};
use process_observer::monitor::network::NetworkStats;
use process_observer::monitor::sampling::{Action, CounterDelta, Event, Monitor};
use process_observer::session::{DataPoint, Hundredths};
use process_observer::time::Timestamp;

const SECOND: u64 = 1_000_000_000;

fn metrics(ram: u64, read: u64, write: u64) -> ProcessMetrics {
    ProcessMetrics {
        cpu: Some(CpuUsage { busy: ram, elapsed: 100 }),
        working_set_bytes: ram,
        io_read_bytes: read,
        io_write_bytes: write,
    }
}

fn collected(m: ProcessMetrics, now: u64) -> Event {
    Event::Metrics { collected: Ok(m), now }
}

fn stats(received: u64, sent: u64, using_wfp: bool) -> NetworkStats {
    NetworkStats { connection_count: 3, bytes_received: received, bytes_sent: sent, using_wfp }
}

fn network(stats: NetworkStats, now: u64) -> Event {
    Event::Network { statistics: Ok(stats), now }
}

fn summary() -> Event {
    Event::Summary {
        timestamp: Timestamp { secs: 77, nanos: 5 },
        cpu_percent: Hundredths { count: 4200 },
        ram_mb: Hundredths { count: 150 },
    }
}

fn setting(network_enabled: bool, elevated: bool) -> Event {
    Event::Setting { network_enabled, elevated }
}

fn take(monitor: &mut Monitor, event: Event) -> Action {
    assert!(monitor.accepts(&event));
    monitor.step(event)
}

fn shows(action: &Action, expected: &str) {
    assert_eq!(format!("{:?}", action), expected);
}

/// A machine that has found the given processes.
fn found(pids: Vec<u32>) -> Monitor {
    let mut monitor = Monitor::new("session-1", "a.exe");
    take(&mut monitor, Event::Tick { active: true });
    take(&mut monitor, Event::Pids(Ok(pids)));
    monitor
}

/// Goes on from a stored measurement to the metrics of the next tick.
fn next_tick(monitor: &mut Monitor, pids: Vec<u32>) {
    take(monitor, Event::Stored);
    take(monitor, Event::Tick { active: true });
    take(monitor, Event::Pids(Ok(pids)));
}

fn stored(action: Action) -> DataPoint {
    match action {
        Action::Store { session_id, point } => {
            assert_eq!(session_id, "session-1");
            point
        }
        other => panic!("{:?}", other),
    }
}

#[test]
fn the_loop_starts_with_a_tick() {
    let monitor = Monitor::new("session-1", "a.exe");
    shows(&monitor.start(), "WaitTick { session_id: \"session-1\" }");
    assert!(!monitor.accepts(&Event::Stored));
    assert!(!monitor.accepts(&Event::Pids(Ok(vec![]))));
}

#[test]
fn an_inactive_session_ends_the_loop() {
    let mut monitor = Monitor::new("session-1", "a.exe");
    shows(&take(&mut monitor, Event::Tick { active: false }), "Stop");
    assert!(!monitor.accepts(&Event::Tick { active: true }));
}

#[test]
fn an_active_session_looks_up_its_processes() {
    let mut monitor = Monitor::new("session-1", "a.exe");
    shows(
        &take(&mut monitor, Event::Tick { active: true }),
        "FindPids { executable: \"a.exe\" }",
    );
}

#[test]
fn a_missing_process_is_reported_and_polling_goes_on() {
    for answer in [Ok(vec![]), Err("denied".to_string())] {
        let mut monitor = Monitor::new("session-1", "a.exe");
        take(&mut monitor, Event::Tick { active: true });
        match take(&mut monitor, Event::Pids(answer)) {
            Action::Report(status) => {
                assert_eq!(status.session_id, "session-1");
                assert_eq!(status.status, "process_not_found");
                assert_eq!(status.message, "Process 'a.exe' not found");
            }
            other => panic!("{:?}", other),
        }
        shows(&take(&mut monitor, Event::Reported), "WaitTick { session_id: \"session-1\" }");
    }
}

#[test]
fn all_processes_exited_give_a_zero_reading() {
    let mut monitor = found(vec![1, 2]);
    let gone = || Event::Metrics { collected: Err("gone".to_string()), now: 0 };
    shows(&take(&mut monitor, gone()), "Collect { pid: 2 }");
    match take(&mut monitor, gone()) {
        Action::Report(status) => {
            assert_eq!(status.session_id, "session-1");
            assert_eq!(status.status, "process_terminated");
            assert_eq!(status.message, "All monitored processes have exited");
        }
        other => panic!("{:?}", other),
    }
    shows(&take(&mut monitor, Event::Reported), "ReadSetting { session_id: \"session-1\" }");
    shows(
        &take(&mut monitor, setting(true, true)),
        "Summarise { cpu: [], ram_bytes: 0 }",
    );
    let point = stored(take(&mut monitor, summary()));
    assert_eq!(point.timestamp, Timestamp { secs: 77, nanos: 5 });
    assert_eq!(point.cpu_percent, Hundredths { count: 0 });
    assert_eq!(point.ram_mb, Hundredths { count: 0 });
    assert_eq!(point.io_read_bytes_per_sec, 0);
    assert_eq!(point.io_write_bytes_per_sec, 0);
    assert_eq!(point.io_read_bytes_total, 0);
    assert_eq!(point.io_write_bytes_total, 0);
    assert_eq!(point.net_recv_bytes_per_sec, 0);
    assert_eq!(point.net_sent_bytes_per_sec, 0);
    assert_eq!(point.net_recv_bytes_total, 0);
    assert_eq!(point.net_sent_bytes_total, 0);
    assert_eq!(point.net_connection_count, 0);
    assert!(point.active_pids.is_empty());
    shows(&take(&mut monitor, Event::Stored), "WaitTick { session_id: \"session-1\" }");
}

#[test]
fn a_tick_sums_up_its_processes() {
    let mut monitor = found(vec![1, 2, 3]);
    shows(&take(&mut monitor, collected(metrics(10, 100, 1), 0)), "Collect { pid: 2 }");
    take(&mut monitor, Event::Metrics { collected: Err("gone".to_string()), now: 0 });
    shows(
        &take(&mut monitor, collected(metrics(20, 200, 2), 0)),
        "ReadSetting { session_id: \"session-1\" }",
    );
    match take(&mut monitor, setting(false, true)) {
        Action::Summarise { cpu, ram_bytes } => {
            assert_eq!(ram_bytes, 30);
            assert_eq!(
                cpu,
                vec![
                    Some(CpuUsage { busy: 10, elapsed: 100 }),
                    Some(CpuUsage { busy: 20, elapsed: 100 }),
                ]
            );
        }
        other => panic!("{:?}", other),
    }
    let point = stored(take(&mut monitor, summary()));
    assert_eq!(point.io_read_bytes_per_sec, 0);
    assert_eq!(point.io_write_bytes_per_sec, 0);
    assert_eq!(point.io_read_bytes_total, 0);
    assert_eq!(point.io_write_bytes_total, 0);
    assert_eq!(point.net_connection_count, 0);
    assert_eq!(point.active_pids, vec![1, 3]);
}

#[test]
fn rates_are_those_since_the_last_tick() {
    let mut monitor = found(vec![1]);
    take(&mut monitor, collected(metrics(10, 1000, 500), SECOND));
    take(&mut monitor, setting(false, false));
    take(&mut monitor, summary());
    next_tick(&mut monitor, vec![1, 2]);
    match take(&mut monitor, collected(metrics(10, 4000, 400), 3 * SECOND)) {
        Action::Rate(delta) => assert_eq!(
            delta,
            CounterDelta { first: 3000, second: 0, elapsed_nanos: 2 * SECOND }
        ),
        other => panic!("{:?}", other),
    }
    shows(
        &take(&mut monitor, Event::Rates { first: 1500, second: 0 }),
        "Collect { pid: 2 }",
    );
    take(&mut monitor, collected(metrics(10, 7, 8), 3 * SECOND));
    take(&mut monitor, setting(false, false));
    let point = stored(take(&mut monitor, summary()));
    assert_eq!(point.io_read_bytes_per_sec, 1500);
    assert_eq!(point.io_write_bytes_per_sec, 0);
    assert_eq!(point.io_read_bytes_total, 3007);
    assert_eq!(point.io_write_bytes_total, 8);
    assert_eq!(point.active_pids, vec![1, 2]);
}

#[test]
fn no_time_gives_no_rate() {
    let mut monitor = found(vec![1, 1]);
    shows(&take(&mut monitor, collected(metrics(1, 10, 10), 5)), "Collect { pid: 1 }");
    shows(
        &take(&mut monitor, collected(metrics(1, 20, 20), 5)),
        "ReadSetting { session_id: \"session-1\" }",
    );
}

#[test]
fn counters_survive_a_tick_without_processes() {
    let mut monitor = found(vec![1]);
    take(&mut monitor, collected(metrics(10, 1000, 500), SECOND));
    take(&mut monitor, setting(false, false));
    take(&mut monitor, summary());
    take(&mut monitor, Event::Stored);
    take(&mut monitor, Event::Tick { active: true });
    take(&mut monitor, Event::Pids(Ok(vec![])));
    take(&mut monitor, Event::Reported);
    take(&mut monitor, Event::Tick { active: true });
    take(&mut monitor, Event::Pids(Ok(vec![1])));
    assert!(matches!(
        take(&mut monitor, collected(metrics(10, 1001, 500), 2 * SECOND)),
        Action::Rate(CounterDelta { first: 1, second: 0, elapsed_nanos: SECOND })
    ));
}

#[test]
fn byte_counters_need_elevation() {
    let mut monitor = found(vec![1]);
    take(&mut monitor, collected(metrics(1, 1, 1), 0));
    shows(
        &take(&mut monitor, setting(true, false)),
        "CollectNetwork { pid: 1, use_wfp: false }",
    );
    let mut monitor = found(vec![1]);
    take(&mut monitor, collected(metrics(1, 1, 1), 0));
    shows(
        &take(&mut monitor, setting(true, true)),
        "CollectNetwork { pid: 1, use_wfp: true }",
    );
}

#[test]
fn estimates_are_rates_and_totals() {
    let mut monitor = found(vec![1, 2, 3]);
    for _ in 0..3 {
        take(&mut monitor, collected(metrics(1, 1, 1), 0));
    }
    take(&mut monitor, setting(true, false));
    shows(
        &take(&mut monitor, network(stats(3072, 1536, false), 1)),
        "CollectNetwork { pid: 2, use_wfp: false }",
    );
    shows(
        &take(&mut monitor, Event::Network { statistics: Err("denied".to_string()), now: 1 }),
        "CollectNetwork { pid: 3, use_wfp: false }",
    );
    take(&mut monitor, network(stats(3072, 1536, false), 2));
    let point = stored(take(&mut monitor, summary()));
    assert_eq!(point.net_recv_bytes_per_sec, 6144);
    assert_eq!(point.net_sent_bytes_per_sec, 3072);
    assert_eq!(point.net_recv_bytes_total, 6144);
    assert_eq!(point.net_sent_bytes_total, 3072);
    assert_eq!(point.net_connection_count, 6);
    assert_eq!(point.active_pids, vec![1, 2, 3]);
}

#[test]
fn byte_counters_give_rates() {
    let mut monitor = found(vec![1]);
    take(&mut monitor, collected(metrics(1, 1, 1), 0));
    take(&mut monitor, setting(true, true));
    take(&mut monitor, network(stats(1000, 100, true), SECOND));
    let point = stored(take(&mut monitor, summary()));
    assert_eq!(point.net_recv_bytes_per_sec, 0);
    assert_eq!(point.net_recv_bytes_total, 0);
    assert_eq!(point.net_sent_bytes_total, 0);
    next_tick(&mut monitor, vec![1]);
    take(&mut monitor, collected(metrics(1, 1, 1), 0));
    take(&mut monitor, setting(true, true));
    match take(&mut monitor, network(stats(1600, 130, true), 2 * SECOND)) {
        Action::Rate(delta) => assert_eq!(
            delta,
            CounterDelta { first: 600, second: 30, elapsed_nanos: SECOND }
        ),
        other => panic!("{:?}", other),
    }
    take(&mut monitor, Event::Rates { first: 600, second: 30 });
    let point = stored(take(&mut monitor, summary()));
    assert_eq!(point.net_recv_bytes_per_sec, 600);
    assert_eq!(point.net_sent_bytes_per_sec, 30);
    assert_eq!(point.net_recv_bytes_total, 600);
    assert_eq!(point.net_sent_bytes_total, 30);
    assert_eq!(point.net_connection_count, 3);
}

/// The measurement of a tick with one process.
fn measured(m: ProcessMetrics) -> DataPoint {
    let mut monitor = found(vec![1]);
    take(&mut monitor, collected(m, 0));
    take(&mut monitor, setting(false, false));
    stored(take(&mut monitor, summary()))
}

#[test]
fn memory_is_rounded_to_hundredths_of_megabytes() {
    for bytes in [0, 1, 5242, 5243, 10_485, 10_486, 1 << 20, 123_456_789, 90_071_992_547_409] {
        let expected = (bytes as f64 / (1024.0 * 1024.0) * 100.0).round() as u64;
        assert_eq!(measured(metrics(bytes, 0, 0)).ram_mb, Hundredths { count: expected });
    }
    assert_eq!(measured(metrics(3 << 20, 0, 0)).ram_mb, Hundredths { count: 300 });
    assert_eq!(measured(metrics(5243, 0, 0)).ram_mb, Hundredths { count: 1 });
    assert_eq!(measured(metrics(5242, 0, 0)).ram_mb, Hundredths { count: 0 });
}

#[test]
fn very_much_memory_takes_the_given_number() {
    let point = measured(metrics(90_071_992_547_410, 0, 0));
    assert_eq!(point.ram_mb, Hundredths { count: 150 });
}

#[test]
fn only_busy_processes_show_a_load() {
    let busy = metrics(1, 0, 0);
    assert_eq!(measured(busy).cpu_percent, Hundredths { count: 4200 });
    let idle = ProcessMetrics { cpu: Some(CpuUsage { busy: 0, elapsed: 100 }), ..busy };
    assert_eq!(measured(idle).cpu_percent, Hundredths { count: 0 });
    let unknown = ProcessMetrics { cpu: None, ..busy };
    assert_eq!(measured(unknown).cpu_percent, Hundredths { count: 0 });
}

#[test]
fn without_network_monitoring_the_network_part_is_zero() {
    let point = measured(metrics(1, 2, 3));
    assert_eq!(point.net_recv_bytes_per_sec, 0);
    assert_eq!(point.net_sent_bytes_per_sec, 0);
    assert_eq!(point.net_recv_bytes_total, 0);
    assert_eq!(point.net_sent_bytes_total, 0);
    assert_eq!(point.net_connection_count, 0);
    assert_eq!(point.active_pids, vec![1]);
}

/// Goes through the metrics of a tick, answers every question for rates, and stores.
fn tick_of(monitor: &mut Monitor, answers: &[Option<(u64, u64)>], now: u64) -> DataPoint {
    for answer in answers {
        let event = match answer {
            Some((read, write)) => collected(metrics(0, *read, *write), now),
            None => Event::Metrics { collected: Err("gone".to_string()), now },
        };
        if let Action::Rate(_) = take(monitor, event) {
            take(monitor, Event::Rates { first: 0, second: 0 });
        }
    }
    if monitor.accepts(&Event::Reported) {
        take(monitor, Event::Reported);
    }
    take(monitor, setting(false, false));
    stored(take(monitor, summary()))
}

fn totals(point: &DataPoint) -> (u64, u64) {
    (point.io_read_bytes_total, point.io_write_bytes_total)
}

#[test]
fn bytes_from_before_the_session_do_not_count() {
    let mut monitor = found(vec![1]);
    for tick in 1..4 {
        let point = tick_of(&mut monitor, &[Some((5000, 700))], tick * SECOND);
        assert_eq!(totals(&point), (0, 0));
        next_tick(&mut monitor, vec![1]);
    }
}

#[test]
fn totals_add_up_and_never_fall() {
    let mut monitor = found(vec![1, 2]);
    let p = tick_of(&mut monitor, &[Some((100, 10)), Some((50, 5))], SECOND);
    assert_eq!(totals(&p), (0, 0));
    next_tick(&mut monitor, vec![1, 2, 3]);
    let p = tick_of(&mut monitor, &[Some((130, 10)), None, Some((7, 8))], 2 * SECOND);
    assert_eq!(totals(&p), (37, 8));
    next_tick(&mut monitor, vec![2, 3]);
    let p = tick_of(&mut monitor, &[Some((60, 5)), Some((7, 9))], 3 * SECOND);
    assert_eq!(totals(&p), (47, 9));
    next_tick(&mut monitor, vec![2]);
    let p = tick_of(&mut monitor, &[Some((1, 1))], 4 * SECOND);
    assert_eq!(totals(&p), (47, 9));
    next_tick(&mut monitor, vec![2]);
    let p = tick_of(&mut monitor, &[None], 5 * SECOND);
    assert_eq!(totals(&p), (47, 9));
    assert!(p.active_pids.is_empty());
}

#[test]
fn a_process_that_was_there_but_silent_counts_from_its_first_answer() {
    let mut monitor = found(vec![1, 2]);
    tick_of(&mut monitor, &[Some((0, 0)), None], SECOND);
    next_tick(&mut monitor, vec![1, 2]);
    let p = tick_of(&mut monitor, &[Some((0, 0)), Some((900, 90))], 2 * SECOND);
    assert_eq!(totals(&p), (0, 0));
    next_tick(&mut monitor, vec![1, 2]);
    let p = tick_of(&mut monitor, &[Some((0, 0)), Some((905, 91))], 3 * SECOND);
    assert_eq!(totals(&p), (5, 1));
}

#[test]
fn a_process_that_starts_after_the_first_lookup_counts_in_full() {
    let mut monitor = Monitor::new("session-1", "a.exe");
    take(&mut monitor, Event::Tick { active: true });
    take(&mut monitor, Event::Pids(Ok(vec![])));
    take(&mut monitor, Event::Reported);
    take(&mut monitor, Event::Tick { active: true });
    take(&mut monitor, Event::Pids(Ok(vec![1])));
    let p = tick_of(&mut monitor, &[Some((40, 4))], SECOND);
    assert_eq!(totals(&p), (40, 4));
}

#[test]
fn a_failed_lookup_is_not_the_first() {
    let mut monitor = Monitor::new("session-1", "a.exe");
    take(&mut monitor, Event::Tick { active: true });
    take(&mut monitor, Event::Pids(Err("denied".to_string())));
    take(&mut monitor, Event::Reported);
    take(&mut monitor, Event::Tick { active: true });
    take(&mut monitor, Event::Pids(Ok(vec![1])));
    let p = tick_of(&mut monitor, &[Some((40, 4))], SECOND);
    assert_eq!(totals(&p), (0, 0));
}

#[test]
fn estimates_count_for_their_own_tick_alone() {
    let mut monitor = found(vec![1]);
    for tick in 1..4 {
        take(&mut monitor, collected(metrics(1, 1, 1), 0));
        take(&mut monitor, setting(true, false));
        take(&mut monitor, network(stats(3072, 1536, false), tick));
        let point = stored(take(&mut monitor, summary()));
        assert_eq!(point.net_recv_bytes_per_sec, 3072);
        assert_eq!(point.net_recv_bytes_total, 3072);
        assert_eq!(point.net_sent_bytes_total, 1536);
        next_tick(&mut monitor, vec![1]);
    }
}

#[test]
fn totals_beyond_64_bits_are_not_accepted() {
    let mut monitor = found(vec![1]);
    tick_of(&mut monitor, &[Some((0, 0))], SECOND);
    next_tick(&mut monitor, vec![2, 3]);
    take(&mut monitor, collected(metrics(0, u64::MAX, 0), SECOND));
    assert!(!monitor.accepts(&collected(metrics(0, 1, 0), SECOND)));
    assert!(monitor.accepts(&collected(metrics(0, 0, 1), SECOND)));
}

#[test]
fn one_estimated_connection_shows_the_same_in_every_tick() {
    let mut monitor = found(vec![1]);
    let one = NetworkStats {
        connection_count: 1,
        bytes_received: 1024,
        bytes_sent: 512,
        using_wfp: false,
    };
    for tick in 1..4 {
        take(&mut monitor, collected(metrics(1, 1, 1), 0));
        take(&mut monitor, setting(true, false));
        take(&mut monitor, network(one, tick));
        let point = stored(take(&mut monitor, summary()));
        assert_eq!(point.net_recv_bytes_total, 1024);
        assert_eq!(point.net_sent_bytes_total, 512);
        next_tick(&mut monitor, vec![1]);
    }
}

#[test]
fn estimates_and_counters_together_stay_within_64_bits() {
    let mut monitor = found(vec![1]);
    take(&mut monitor, collected(metrics(1, 1, 1), 0));
    take(&mut monitor, setting(false, false));
    take(&mut monitor, summary());
    next_tick(&mut monitor, vec![2, 3]);
    take(&mut monitor, collected(metrics(1, 1, 1), 0));
    take(&mut monitor, collected(metrics(1, 1, 1), 0));
    take(&mut monitor, setting(true, true));
    take(&mut monitor, network(stats(u64::MAX - 5, 0, true), 0));
    assert!(!monitor.accepts(&network(stats(6, 0, false), 0)));
    take(&mut monitor, network(stats(5, 0, false), 0));
    let point = stored(take(&mut monitor, summary()));
    assert_eq!(point.net_recv_bytes_total, u64::MAX);
}

#[test]
fn sums_beyond_their_width_are_not_accepted() {
    let mut monitor = found(vec![1, 2]);
    take(&mut monitor, collected(metrics(u64::MAX, 1, 1), 0));
    assert!(!monitor.accepts(&collected(metrics(1, 1, 1), 0)));
    assert!(monitor.accepts(&collected(metrics(0, 1, 1), 0)));
    take(&mut monitor, collected(metrics(0, 1, 1), 0));
    take(&mut monitor, setting(true, false));
    let many = NetworkStats { connection_count: u32::MAX, ..stats(0, 0, false) };
    take(&mut monitor, network(many, 0));
    assert!(!monitor.accepts(&network(stats(0, 0, false), 0)));
}
