use process_observer::monitor::network::{
    estats_counters, estats_enabled, owned_connections, query_tcp_table, sum_readings,
    table_is_complete, NetworkStats, TcpRow,
};

fn table(rows: &[[u32; 6]]) -> Vec<u8> {
    let mut bytes = (rows.len() as u32).to_le_bytes().to_vec();
    for row in rows {
        for number in row {
            bytes.extend(number.to_le_bytes());
        }
    }
    bytes
}

fn row(pid: u32) -> TcpRow {
    TcpRow {
        state: 5,
        local_addr: 0x0100007F,
        local_port: 80,
        remote_addr: 0,
        remote_port: 0,
        owning_pid: pid,
    }
}

#[test]
fn the_rows_of_a_table_are_read() {
    let bytes = table(&[[5, 0x0100007F, 0x5000, 0xFFFFFFFF, 0x1234, 42], [2, 1, 2, 3, 4, 7]]);
    let rows = query_tcp_table(0, &bytes).unwrap();
    assert_eq!(rows.len(), 2);
    assert_eq!(
        rows[0],
        TcpRow {
            state: 5,
            local_addr: 0x0100007F,
            local_port: 0x5000,
            remote_addr: 0xFFFFFFFF,
            remote_port: 0x1234,
            owning_pid: 42,
        }
    );
    assert_eq!(rows[1].owning_pid, 7);
}

#[test]
fn bytes_after_the_last_row_do_not_matter() {
    let mut bytes = table(&[[1, 1, 1, 1, 1, 9]]);
    bytes.extend([0xAA; 30]);
    assert!(table_is_complete(&bytes));
    assert_eq!(query_tcp_table(0, &bytes).unwrap().len(), 1);
}

#[test]
fn an_empty_table_has_no_rows() {
    assert!(query_tcp_table(0, &table(&[])).unwrap().is_empty());
}

#[test]
fn a_short_table_is_not_complete() {
    assert!(!table_is_complete(&vec![]));
    assert!(!table_is_complete(&vec![1, 0, 0]));
    assert!(!table_is_complete(&vec![1, 0, 0, 0]));
    assert!(!table_is_complete(&vec![0xFF; 100]));
    assert!(table_is_complete(&vec![0, 0, 0, 0]));
}

#[test]
fn a_refused_table_is_an_error() {
    assert_eq!(query_tcp_table(122, &vec![]), Err("GetExtendedTcpTable failed: 0x7A".to_string()));
}

#[test]
fn refused_counters_are_errors() {
    assert_eq!(estats_enabled(0), Ok(()));
    assert_eq!(
        estats_enabled(5),
        Err("SetPerTcpConnectionEStats failed: 0x5".to_string())
    );
    assert_eq!(estats_counters(0, 10, 20), Ok((10, 20)));
    assert_eq!(
        estats_counters(0x490, 10, 20),
        Err("GetPerTcpConnectionEStats failed: 0x490".to_string())
    );
}

#[test]
fn connections_are_picked_by_their_owner() {
    let rows = vec![row(1), row(2), row(1)];
    assert_eq!(owned_connections(&rows, 1).len(), 2);
    assert_eq!(owned_connections(&rows, 2), vec![row(2)]);
    assert!(owned_connections(&rows, 3).is_empty());
}

#[test]
fn counters_are_summed_up() {
    let readings = vec![Ok((1, 10)), Err("gone".to_string()), Ok((2, 20))];
    assert_eq!(sum_readings(&readings), Some((3, 30)));
    assert_eq!(sum_readings(&vec![]), Some((0, 0)));
    assert_eq!(sum_readings(&vec![Ok((u64::MAX, 0)), Ok((1, 0))]), None);
    assert_eq!(sum_readings(&vec![Ok((0, u64::MAX)), Ok((0, 1))]), None);
}

#[test]
fn elevated_statistics_count_bytes() {
    let readings = vec![Ok((100, 7)), Err("gone".to_string())];
    let stats =
        NetworkStats::collect(1, true, true, Ok(vec![row(1), row(2), row(1)]), &readings).unwrap();
    assert_eq!(stats.connection_count, 2);
    assert_eq!(stats.bytes_received, 100);
    assert_eq!(stats.bytes_sent, 7);
    assert!(stats.using_wfp);
}

#[test]
fn plain_statistics_estimate_bytes() {
    for (use_wfp, elevated) in [(false, false), (false, true), (true, false)] {
        let rows = vec![row(1), row(2), row(1)];
        let stats = NetworkStats::collect(1, use_wfp, elevated, Ok(rows), &vec![]).unwrap();
        assert_eq!(stats.connection_count, 2);
        assert_eq!(stats.bytes_received, 2048);
        assert_eq!(stats.bytes_sent, 1024);
        assert!(!stats.using_wfp);
    }
}

#[test]
fn without_a_table_there_are_no_statistics() {
    let message = "GetExtendedTcpTable failed: 0x5".to_string();
    assert_eq!(NetworkStats::collect(1, true, true, Err(message.clone()), &vec![]), Err(message));
}

#[test]
fn default_statistics_are_zero() {
    let stats = NetworkStats::default();
    assert_eq!(stats.connection_count, 0);
    assert_eq!(stats.bytes_received, 0);
    assert_eq!(stats.bytes_sent, 0);
    assert!(!stats.using_wfp);
}
