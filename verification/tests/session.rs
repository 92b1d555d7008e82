use process_observer::session::{
    copy_points, Averages, DataPoint, Export, ExportFormat, Hundredths, Session,
};
use process_observer::time::{LocalTime, Timestamp};

fn at(secs: i64, nanos: u32) -> Timestamp {
    Timestamp { secs, nanos }
}

fn hundredths(count: u64) -> Hundredths {
    Hundredths { count }
}

fn point(timestamp: Timestamp) -> DataPoint {
    DataPoint {
        timestamp,
        cpu_percent: hundredths(1250),
        ram_mb: hundredths(20_007),
        io_read_bytes_per_sec: 1,
        io_write_bytes_per_sec: 2,
        io_read_bytes_total: 3,
        io_write_bytes_total: 4,
        net_recv_bytes_per_sec: 5,
        net_sent_bytes_per_sec: 6,
        net_recv_bytes_total: 7,
        net_sent_bytes_total: 8,
        net_connection_count: 9,
        active_pids: vec![100, 200],
    }
}

fn session(retention_secs: u64) -> Session {
    Session::new_at(
        3,
        "Session #3".to_string(),
        "a.exe".to_string(),
        500,
        retention_secs,
        true,
        LocalTime { at: at(86_399, 0), offset_secs: 3600 },
    )
}

fn averages() -> Averages {
    Averages {
        avg_cpu: hundredths(11),
        avg_ram_mb: hundredths(22),
        avg_io_bytes: 33,
        avg_net_bytes: 44,
    }
}

#[test]
fn a_new_session_is_active_and_empty() {
    let s = Session::new(7, "label".to_string(), "a.exe".to_string(), 100, 60, true);
    assert_eq!(s.id, "session-7");
    assert_eq!(s.label, "label");
    assert_eq!(s.executable, "a.exe");
    assert_eq!(s.interval_ms, 100);
    assert_eq!(s.retention_secs, 60);
    assert!(s.active);
    assert!(s.network_enabled);
    assert!(s.ended_at.is_none());
    assert!(s.data_points.is_empty());
    assert!(s.started_at.at.secs > 1_600_000_000);
}

#[test]
fn info_counts_the_measurements() {
    let mut s = session(0);
    s.push_point_at(point(at(0, 0)), at(0, 0));
    s.push_point_at(point(at(1, 0)), at(1, 0));
    let info = s.info();
    assert_eq!(info.id, "session-3");
    assert_eq!(info.label, "Session #3");
    assert_eq!(info.executable, "a.exe");
    assert_eq!(info.interval_ms, 500);
    assert_eq!(info.retention_secs, 0);
    assert!(info.active);
    assert!(info.network_enabled);
    assert_eq!(info.data_point_count, 2);
    assert_eq!(info.started_at, LocalTime { at: at(86_399, 0), offset_secs: 3600 });
    assert_eq!(info.ended_at, None);
}

#[test]
fn copies_are_equal() {
    let points = vec![point(at(0, 0)), point(at(1, 5))];
    assert_eq!(format!("{:?}", copy_points(&points)), format!("{:?}", points));
}

#[test]
fn totals_are_sums_and_maxima() {
    let mut s = session(0);
    let mut low = point(at(0, 0));
    low.cpu_percent = hundredths(3);
    low.io_read_bytes_per_sec = 100;
    s.push_point_at(point(at(0, 0)), at(0, 0));
    s.push_point_at(low, at(1, 0));
    let totals = s.totals().unwrap();
    assert_eq!(totals.sum_io_bytes, 3 + 102);
    assert_eq!(totals.sum_net_bytes, 22);
    assert_eq!(totals.max_cpu, hundredths(1250));
    assert_eq!(totals.max_ram_mb, hundredths(20_007));
    assert_eq!(totals.max_io_bytes, 102);
    assert_eq!(totals.max_net_bytes, 11);
}

#[test]
fn totals_beyond_64_bits_are_refused() {
    let mut s = session(0);
    let mut big = point(at(0, 0));
    big.io_read_bytes_per_sec = u64::MAX - 2;
    s.push_point_at(big, at(0, 0));
    assert!(s.totals().is_some());
    s.push_point_at(point(at(1, 0)), at(1, 0));
    assert!(s.totals().is_none());

    let mut t = session(0);
    let mut wide = point(at(0, 0));
    wide.net_recv_bytes_per_sec = u64::MAX;
    t.push_point_at(wide, at(0, 0));
    assert!(t.totals().is_none());
}

#[test]
fn a_snapshot_divides_rates_exactly() {
    let mut s = session(0);
    let mut second = point(at(1, 0));
    second.io_write_bytes_per_sec = 7;
    s.push_point_at(point(at(0, 0)), at(0, 0));
    s.push_point_at(second, at(1, 0));
    let snapshot = s.snapshot(averages());
    assert_eq!(snapshot.avg_io_bytes, (3 + 8) / 2);
    assert_eq!(snapshot.avg_net_bytes, 11);
    assert_eq!(snapshot.max_io_bytes, 8);
    assert_eq!(snapshot.max_net_bytes, 11);
    assert_eq!(snapshot.max_cpu, hundredths(1250));
    assert_eq!(snapshot.max_ram_mb, hundredths(20_007));
    assert_eq!(snapshot.avg_cpu, hundredths(11));
    assert_eq!(snapshot.avg_ram_mb, hundredths(22));
    assert_eq!(snapshot.data_points.len(), 2);
    assert_eq!(snapshot.info.data_point_count, 2);
}

#[test]
fn a_snapshot_of_no_measurements_is_zero() {
    let snapshot = session(0).snapshot(averages());
    assert_eq!(snapshot.max_cpu, hundredths(0));
    assert_eq!(snapshot.avg_cpu, hundredths(0));
    assert_eq!(snapshot.max_ram_mb, hundredths(0));
    assert_eq!(snapshot.avg_ram_mb, hundredths(0));
    assert_eq!(snapshot.max_io_bytes, 0);
    assert_eq!(snapshot.avg_io_bytes, 0);
    assert_eq!(snapshot.max_net_bytes, 0);
    assert_eq!(snapshot.avg_net_bytes, 0);
    assert!(snapshot.data_points.is_empty());
}

#[test]
fn large_sums_take_the_given_mean() {
    let mut s = session(0);
    let mut big = point(at(0, 0));
    big.io_read_bytes_per_sec = (1 << 53) + 1;
    big.io_write_bytes_per_sec = 0;
    big.net_recv_bytes_per_sec = 1 << 53;
    big.net_sent_bytes_per_sec = 0;
    s.push_point_at(big, at(0, 0));
    let snapshot = s.snapshot(averages());
    assert_eq!(snapshot.avg_io_bytes, 33);
    assert_eq!(snapshot.avg_net_bytes, 1 << 53);
}

#[test]
fn exact_means_are_those_of_floating_point() {
    for (sum, count) in [(11u64, 2usize), (100, 3), ((1 << 53) - 1, 7), (1 << 53, 3), (2, 3)] {
        let mut s = session(0);
        for i in 0..count {
            let mut p = point(at(i as i64, 0));
            p.io_read_bytes_per_sec = if i == 0 { sum } else { 0 };
            p.io_write_bytes_per_sec = 0;
            s.push_point_at(p, at(i as i64, 0));
        }
        assert_eq!(s.snapshot(averages()).avg_io_bytes, (sum as f64 / count as f64) as u64);
    }
}

#[test]
fn measurements_older_than_the_window_go() {
    let mut s = session(10);
    s.push_point_at(point(at(100, 0)), at(100, 0));
    s.push_point_at(point(at(105, 500)), at(105, 500));
    s.push_point_at(point(at(110, 0)), at(110, 0));
    assert_eq!(s.data_points.len(), 3);
    s.push_point_at(point(at(110, 1)), at(110, 1));
    assert_eq!(s.data_points.len(), 3);
    assert_eq!(s.data_points[0].timestamp, at(105, 500));
    assert_eq!(s.data_points[2].timestamp, at(110, 1));
}

#[test]
fn a_measurement_outside_the_window_is_not_kept() {
    let mut s = session(10);
    s.push_point_at(point(at(50, 0)), at(100, 0));
    assert!(s.data_points.is_empty());
}

#[test]
fn without_a_window_everything_is_kept() {
    let mut s = session(0);
    s.push_point_at(point(at(0, 0)), at(1_000_000, 0));
    s.push_point_at(point(at(999_999, 0)), at(1_000_000, 0));
    assert_eq!(s.data_points.len(), 2);
}

#[test]
fn a_window_beyond_the_calendar_keeps_all() {
    for secs in [u64::MAX, 1 << 63, (1 << 63) - 1, 8_334_601_228_901] {
        let mut s = session(secs);
        s.push_point_at(point(at(-8_334_601_228_800, 0)), at(100, 0));
        s.push_point_at(point(at(100, 0)), at(100, 0));
        assert_eq!(s.data_points.len(), 2);
    }
}

#[test]
fn the_largest_window_starts_with_the_calendar() {
    let mut s = session(8_334_601_228_900);
    s.push_point_at(point(at(-8_334_601_228_800, 4)), at(100, 5));
    assert!(s.data_points.is_empty());
    s.push_point_at(point(at(-8_334_601_228_800, 5)), at(100, 5));
    assert_eq!(s.data_points.len(), 1);
}

#[test]
fn csv_depends_on_what_it_shows() {
    let mut a = session(60);
    let mut b = session(0);
    b.id = "session-9".to_string();
    b.active = false;
    b.network_enabled = false;
    b.ended_at = Some(LocalTime { at: at(9, 0), offset_secs: 0 });
    a.push_point_at(point(at(5, 0)), at(5, 0));
    b.push_point_at(point(at(5, 0)), at(5, 0));
    match (a.export(ExportFormat::Csv), b.export(ExportFormat::Csv)) {
        (Ok(Export::Csv(x)), Ok(Export::Csv(y))) => assert_eq!(x, y),
        other => panic!("{:?}", other),
    }
}

#[test]
fn too_many_measurements_lose_the_oldest() {
    let mut s = session(0);
    for i in 0..100_000 {
        s.push_point_at(point(at(i, 0)), at(i, 0));
    }
    assert_eq!(s.data_points.len(), 100_000);
    s.push_point_at(point(at(100_000, 0)), at(100_000, 0));
    assert_eq!(s.data_points.len(), 50_001);
    assert_eq!(s.data_points[0].timestamp, at(50_000, 0));
    assert_eq!(s.data_points[50_000].timestamp, at(100_000, 0));
}

#[test]
fn csv_is_comments_and_a_table() {
    let mut s = session(0);
    s.push_point_at(point(at(951_782_400, 250_000_000)), at(951_782_400, 250_000_000));
    let mut idle = point(at(-1, 999_999_999));
    idle.active_pids = vec![];
    idle.cpu_percent = hundredths(0);
    s.push_point_at(idle, at(0, 0));
    let expected = "# ProcessObserver Session Export\n\
        # Executable: a.exe\n\
        # Session: Session #3\n\
        # Started: 1970-01-02 00:59:59\n\
        # Interval: 500ms\n\
        # Points: 2\n\
        \n\
        Timestamp,CPU_%,RAM_MB,IO_Read_Bps,IO_Write_Bps,IO_Read_Total,IO_Write_Total,\
        Net_Recv_Bps,Net_Sent_Bps,Net_Recv_Total,Net_Sent_Total,Net_Connections,Active_PIDs\n\
        2000-02-29T00:00:00.250Z,12.50,200.07,1,2,3,4,5,6,7,8,9,100;200\n\
        1969-12-31T23:59:59.999Z,0.00,200.07,1,2,3,4,5,6,7,8,9,\n";
    match s.export(ExportFormat::Csv) {
        Ok(Export::Csv(text)) => assert_eq!(text, expected),
        other => panic!("{:?}", other),
    }
}

#[test]
fn csv_without_measurements_has_titles() {
    match session(0).export(ExportFormat::Csv) {
        Ok(Export::Csv(text)) => {
            assert!(text.contains("# Points: 0\n\nTimestamp,CPU_%,"));
            assert!(text.ends_with(",Net_Connections,Active_PIDs\n"));
        }
        other => panic!("{:?}", other),
    }
}

#[test]
fn dates_are_padded_to_four_digits_of_the_year() {
    let mut s = session(0);
    s.started_at = LocalTime { at: at(-62_167_219_200, 0), offset_secs: 0 };
    for secs in [-61_946_294_400, 253_402_300_799, 253_402_300_800, -62_167_219_201, 1_709_164_800] {
        s.push_point_at(point(at(secs, 7_999_999)), at(0, 0));
    }
    match s.export_csv() {
        Ok(text) => {
            assert!(text.contains("# Started: 0000-01-01 00:00:00\n"));
            assert!(text.contains("\n0007-01-01T00:00:00.007Z,"));
            assert!(text.contains("\n9999-12-31T23:59:59.007Z,"));
            assert!(text.contains("\n+10000-01-01T00:00:00.007Z,"));
            assert!(text.contains("\n-0001-12-31T23:59:59.007Z,"));
            assert!(text.contains("\n2024-02-29T00:00:00.007Z,"));
        }
        Err(message) => panic!("{}", message),
    }
}

#[test]
fn sessions_are_cloned_with_their_data() {
    let mut s = session(60);
    s.push_point_at(point(at(5, 0)), at(5, 0));
    s.ended_at = Some(LocalTime { at: at(9, 0), offset_secs: 60 });
    assert_eq!(format!("{:?}", s.clone()), format!("{:?}", s));
    assert_eq!(format!("{:?}", s.info().clone()), format!("{:?}", s.info()));
    let snapshot = s.snapshot(averages());
    assert_eq!(format!("{:?}", snapshot.clone()), format!("{:?}", snapshot));
}

#[test]
fn csv_covers_the_whole_calendar() {
    let mut s = session(0);
    s.started_at = LocalTime { at: at(8_210_266_876_799, 0), offset_secs: 86_399 };
    let first = at(-8_334_601_228_800, 0);
    let last = at(8_210_266_876_799, 999_999_999);
    s.push_point_at(point(first), at(0, 0));
    s.push_point_at(point(last), at(0, 0));
    match s.export(ExportFormat::Csv) {
        Ok(Export::Csv(text)) => {
            assert!(text.contains("-262143-01-01T00:00:00.000Z"));
            assert!(text.contains("+262142-12-31T23:59:59.999Z"));
        }
        other => panic!("{:?}", other),
    }
}

#[test]
fn local_clocks_may_pass_the_ends_of_the_calendar() {
    let mut s = session(0);
    s.started_at = LocalTime { at: at(-8_334_601_228_800, 0), offset_secs: -86_399 };
    match s.export(ExportFormat::Csv) {
        Ok(Export::Csv(text)) => assert!(text.contains("-12-31 00:00:01\n")),
        other => panic!("{:?}", other),
    }
    s.started_at = LocalTime { at: at(8_210_266_876_799, 0), offset_secs: 86_399 };
    match s.export(ExportFormat::Csv) {
        Ok(Export::Csv(text)) => assert!(text.contains("-01-01 23:59:58\n")),
        other => panic!("{:?}", other),
    }
}

#[test]
fn what_is_retained_keeps_its_order() {
    let mut s = session(10);
    for secs in [100, 95, 103, 99, 104] {
        s.push_point_at(point(at(secs, 0)), at(106, 0));
    }
    let kept: Vec<i64> = s.data_points.iter().map(|p| p.timestamp.secs).collect();
    assert_eq!(kept, vec![100, 103, 99, 104]);
}

#[test]
fn json_is_made_of_info_and_measurements() {
    let mut s = session(0);
    s.push_point_at(point(at(0, 0)), at(0, 0));
    match s.export(ExportFormat::Json) {
        Ok(Export::Json { metadata, data }) => {
            assert_eq!(format!("{:?}", metadata), format!("{:?}", s.info()));
            assert_eq!(format!("{:?}", data), format!("{:?}", s.data_points));
        }
        other => panic!("{:?}", other),
    }
}

#[test]
fn the_largest_number_is_written_with_decimals() {
    let mut s = session(0);
    let mut p = point(at(0, 0));
    p.ram_mb = hundredths(u64::MAX);
    s.push_point_at(p, at(0, 0));
    match s.export(ExportFormat::Csv) {
        Ok(Export::Csv(text)) => assert!(text.contains(",184467440737095516.15,")),
        other => panic!("{:?}", other),
    }
}
