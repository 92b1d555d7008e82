use process_observer::app_state::AppState;
use process_observer::session::{
    Averages, DataPoint, Export, ExportFormat, Hundredths,
};
use process_observer::time::{LocalTime, Timestamp};

fn at(secs: i64) -> Timestamp {
    Timestamp { secs, nanos: 0 }
}

fn local(secs: i64, offset_secs: i32) -> LocalTime {
    LocalTime { at: at(secs), offset_secs }
}

fn point(secs: i64) -> DataPoint {
    DataPoint {
        timestamp: at(secs),
        cpu_percent: Hundredths { count: 100 },
        ram_mb: Hundredths { count: 200 },
        io_read_bytes_per_sec: 10,
        io_write_bytes_per_sec: 20,
        io_read_bytes_total: 0,
        io_write_bytes_total: 0,
        net_recv_bytes_per_sec: 0,
        net_sent_bytes_per_sec: 0,
        net_recv_bytes_total: 0,
        net_sent_bytes_total: 0,
        net_connection_count: 0,
        active_pids: vec![1],
    }
}

fn two_sessions() -> AppState {
    let mut state = AppState::new();
    state.create_session_at("a.exe", 1000, false, 60, local(0, 0), local(0, 0));
    state.create_session_at("b.exe", 500, true, 0, local(1, 0), local(2, 0));
    state
}

const ZERO: Averages = Averages {
    avg_cpu: Hundredths { count: 0 },
    avg_ram_mb: Hundredths { count: 0 },
    avg_io_bytes: 0,
    avg_net_bytes: 0,
};

#[test]
fn a_new_state_has_no_sessions() {
    let state = AppState::new();
    assert!(state.get_session_infos().is_empty());
    assert_eq!(state.session_counter(), 0);
    assert!(!state.is_session_active("session-1"));
}

#[test]
fn sessions_are_numbered_and_labelled() {
    let mut state = AppState::new();
    let id = state.create_session_at("a.exe", 1000, true, 60, local(3661, 7200), local(3662, 7200));
    assert_eq!(id, "session-1");
    let infos = state.get_session_infos();
    assert_eq!(infos.len(), 1);
    assert_eq!(infos[0].label, "Session #1 \u{2013} 03:01:01");
    assert_eq!(infos[0].executable, "a.exe");
    assert_eq!(infos[0].interval_ms, 1000);
    assert_eq!(infos[0].retention_secs, 60);
    assert!(infos[0].network_enabled);
    assert!(infos[0].active);
    assert_eq!(infos[0].started_at, local(3662, 7200));
    assert_eq!(infos[0].ended_at, None);
    assert_eq!(state.session_counter(), 1);
}

#[test]
fn clocks_before_midnight_go_round() {
    let mut state = AppState::new();
    state.create_session_at("a", 1, false, 0, local(0, -1), local(0, -1));
    state.create_session_at("a", 1, false, 0, local(-1, 3600), local(-1, 3600));
    state.create_session_at("a", 1, false, 0, local(86_399, 86_399), local(0, 0));
    let infos = state.get_session_infos();
    assert_eq!(infos[0].label, "Session #1 \u{2013} 23:59:59");
    assert_eq!(infos[1].label, "Session #2 \u{2013} 00:59:59");
    assert_eq!(infos[2].label, "Session #3 \u{2013} 23:59:58");
}

#[test]
fn sessions_are_created_at_the_current_time() {
    let mut state = AppState::new();
    let id = state.create_session("a.exe", 1000, false, 0);
    assert_eq!(id, "session-1");
    let info = &state.get_session_infos()[0];
    assert!(info.started_at.at.secs > 1_600_000_000);
    assert!(info.label.starts_with("Session #1 \u{2013} "));
    assert_eq!(info.label.chars().count(), "Session #1 - 00:00:00".len());
}

#[test]
fn identifiers_are_not_reused() {
    let mut state = two_sessions();
    state.remove_session("session-2");
    assert_eq!(
        state.create_session_at("c", 1, false, 0, local(0, 0), local(0, 0)),
        "session-3"
    );
    let ids: Vec<String> = state.get_session_infos().into_iter().map(|i| i.id).collect();
    assert_eq!(ids, vec!["session-1", "session-3"]);
}

#[test]
fn a_stopped_session_keeps_its_data() {
    let mut state = two_sessions();
    state.push_data_point_at("session-2", point(5), at(5));
    assert!(state.is_session_active("session-2"));
    state.stop_session_at("session-2", local(9, 0));
    assert!(!state.is_session_active("session-2"));
    assert!(state.is_session_active("session-1"));
    let info = &state.get_session_infos()[1];
    assert_eq!(info.ended_at, Some(local(9, 0)));
    assert_eq!(info.data_point_count, 1);
    state.push_data_point_at("session-2", point(6), at(6));
    assert!(!state.is_session_active("session-2"));
}

#[test]
fn stopping_now_ends_after_the_start() {
    let mut state = AppState::new();
    let id = state.create_session("a.exe", 1000, false, 0);
    state.stop_session(&id);
    let info = &state.get_session_infos()[0];
    assert!(!info.active);
    assert!(info.ended_at.unwrap().at.secs > 1_600_000_000);
}

#[test]
fn an_unknown_session_is_left_alone() {
    let mut state = two_sessions();
    let before = format!("{:?}", state.get_session_infos());
    state.stop_session_at("session-9", local(9, 0));
    state.stop_session("session-9");
    state.remove_session("session-9");
    state.push_data_point_at("session-9", point(5), at(5));
    state.push_data_point("session-9", point(5));
    assert_eq!(format!("{:?}", state.get_session_infos()), before);
}

#[test]
fn a_removed_session_is_gone() {
    let mut state = two_sessions();
    state.remove_session("session-1");
    assert!(state.find_session("session-1").is_none());
    assert!(!state.is_session_active("session-1"));
    let infos = state.get_session_infos();
    assert_eq!(infos.len(), 1);
    assert_eq!(infos[0].id, "session-2");
    assert_eq!(infos[0].executable, "b.exe");
}

#[test]
fn network_monitoring_is_set_for_each_session() {
    let state = two_sessions();
    assert!(!state.is_network_enabled("session-1"));
    assert!(state.is_network_enabled("session-2"));
    assert!(!state.is_network_enabled("session-3"));
}

#[test]
fn measurements_reach_their_session_alone() {
    let mut state = two_sessions();
    state.push_data_point_at("session-1", point(100), at(100));
    state.push_data_point_at("session-1", point(170), at(170));
    assert_eq!(state.find_session("session-1").unwrap().data_points.len(), 1);
    assert_eq!(state.find_session("session-1").unwrap().data_points[0].timestamp, at(170));
    assert!(state.find_session("session-2").unwrap().data_points.is_empty());
}

#[test]
fn retention_goes_by_the_current_time() {
    let mut state = two_sessions();
    state.push_data_point("session-1", point(100));
    assert!(state.find_session("session-1").unwrap().data_points.is_empty());
    state.push_data_point("session-1", DataPoint { timestamp: Timestamp::now(), ..point(0) });
    assert_eq!(state.find_session("session-1").unwrap().data_points.len(), 1);
    state.push_data_point("session-2", point(100));
    assert_eq!(state.find_session("session-2").unwrap().data_points.len(), 1);
}

#[test]
fn a_measurement_within_a_very_large_window_is_appended() {
    for retention_secs in [u64::MAX, 1 << 63, 1 << 62] {
        let mut state = AppState::new();
        let id = state.create_session("a.exe", 1000, false, retention_secs);
        state.push_data_point(&id, point(1_704_067_200));
        assert_eq!(state.get_session_infos()[0].data_point_count, 1);
    }
}

#[test]
fn a_session_is_active_until_its_end() {
    let mut state = two_sessions();
    state.stop_session_at("session-1", local(9, 0));
    state.create_session_at("c", 1, false, 0, local(0, 0), local(0, 0));
    let infos = state.get_session_infos();
    for info in &infos {
        assert_eq!(info.active, info.ended_at.is_none());
    }
    let ids: Vec<&str> = infos.iter().map(|i| i.id.as_str()).collect();
    assert_eq!(ids, vec!["session-1", "session-2", "session-3"]);
}

#[test]
fn snapshots_are_found_by_identifier() {
    let mut state = two_sessions();
    state.push_data_point_at("session-2", point(5), at(5));
    let snapshot = state.get_session_snapshot("session-2", ZERO).unwrap();
    assert_eq!(snapshot.info.id, "session-2");
    assert_eq!(snapshot.max_io_bytes, 30);
    assert_eq!(snapshot.avg_io_bytes, 30);
    assert!(state.get_session_snapshot("session-3", ZERO).is_none());
}

#[test]
fn exports_are_found_by_identifier() {
    let state = two_sessions();
    match state.export_session("session-1", ExportFormat::Csv) {
        Ok(Export::Csv(text)) => assert!(text.contains("# Executable: a.exe\n")),
        other => panic!("{:?}", other),
    }
    match state.export_session("session-2", ExportFormat::Json) {
        Ok(Export::Json { metadata, data }) => {
            assert_eq!(metadata.id, "session-2");
            assert!(data.is_empty());
        }
        other => panic!("{:?}", other),
    }
    match state.export_session("session-3", ExportFormat::Csv) {
        Err(message) => assert_eq!(message, "Session not found: session-3"),
        other => panic!("{:?}", other),
    }
}

#[test]
fn the_current_time_is_not_before_earlier_times() {
    let first = Timestamp::now();
    assert!(first.secs > 1_600_000_000);
    assert!(first.nanos < 1_000_000_000);
    assert!(first.is_not_before(&at(0)));
    assert!(!at(0).is_not_before(&first));
    assert!(first.is_not_before(&first));
    assert!(Timestamp { secs: 5, nanos: 2 }.is_not_before(&Timestamp { secs: 5, nanos: 1 }));
    assert!(!Timestamp { secs: 5, nanos: 1 }.is_not_before(&Timestamp { secs: 5, nanos: 2 }));
}
