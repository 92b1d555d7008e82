//! Network statistics of processes.
//!
//! With elevated rights, the byte counters that the operating system keeps for each TCP connection
//! are summed up. Without them, the number of connections stands in for the traffic.

use vstd::prelude::*;
use vstd::string::*;

use crate::session;
use crate::text;

verus! {

broadcast use vstd::string::group_string_axioms;

/// A TCP connection and the process that owns it.
#[derive(Debug, Clone, Copy, PartialEq, Eq, Structural)]
pub struct TcpRow {
    pub state: u32,
    pub local_addr: u32,
    pub local_port: u32,
    pub remote_addr: u32,
    pub remote_port: u32,
    pub owning_pid: u32,
}

/// Network statistics for a specific process.
#[derive(Debug, Clone, Copy, PartialEq, Eq, Structural)]
pub struct NetworkStats {
    /// Number of active TCP connections owned by this process.
    pub connection_count: u32,
    /// Total bytes received, counted or estimated.
    pub bytes_received: u64,
    /// Total bytes sent, counted or estimated.
    pub bytes_sent: u64,
    /// Whether true byte counters were used.
    pub using_wfp: bool,
}

impl Default for NetworkStats {
    fn default() -> (res: NetworkStats)
        ensures
            res == (NetworkStats {
                connection_count: 0,
                bytes_received: 0,
                bytes_sent: 0,
                using_wfp: false,
            }),
    {
        NetworkStats { connection_count: 0, bytes_received: 0, bytes_sent: 0, using_wfp: false }
    }
}

/// The bytes by which a connection counts as received, where nothing counts them.
pub const ESTIMATED_RECEIVED: u64 = 1024;

/// The bytes by which a connection counts as sent, where nothing counts them.
pub const ESTIMATED_SENT: u64 = 512;

/// The size of the number of rows at the head of a table of connections.
pub const TABLE_HEAD: usize = 4;

/// The size of a row of a table of connections.
pub const TABLE_ROW: usize = 24;

/// The number in four bytes, the least significant first.
pub open spec fn number_at(bytes: Seq<u8>, at: int) -> u32 {
    (bytes[at] + 0x100 * bytes[at + 1] + 0x1_0000 * bytes[at + 2] + 0x100_0000 * bytes[at
        + 3]) as u32
}

/// Whether a table of connections has as many rows as it says.
pub open spec fn is_complete(bytes: Seq<u8>) -> bool {
    bytes.len() >= TABLE_HEAD && bytes.len() >= TABLE_HEAD + TABLE_ROW * number_at(bytes, 0)
}

/// A row of a table of connections.
pub open spec fn row_of(bytes: Seq<u8>, i: int) -> TcpRow {
    let at = TABLE_HEAD + TABLE_ROW * i;
    TcpRow {
        state: number_at(bytes, at),
        local_addr: number_at(bytes, at + 4),
        local_port: number_at(bytes, at + 8),
        remote_addr: number_at(bytes, at + 12),
        remote_port: number_at(bytes, at + 16),
        owning_pid: number_at(bytes, at + 20),
    }
}

/// The rows of a table of connections.
pub open spec fn rows_of(bytes: Seq<u8>) -> Seq<TcpRow> {
    Seq::new(number_at(bytes, 0) as nat, |i: int| row_of(bytes, i))
}

/// A message with the code of a failure.
pub open spec fn failure_code(call: Seq<char>, code: u32) -> Seq<char> {
    call + " failed: 0x"@ + text::hexadecimal(code as nat)
}

fn failure(call: &str, code: u32) -> (res: String)
    ensures
        res@ == failure_code(call@, code),
{
    let mut res = String::from_str(call);
    res.append(" failed: 0x");
    res.append(text::hexadecimal_string(code).as_str());
    res
}

fn read_number(bytes: &Vec<u8>, at: usize) -> (res: u32)
    requires
        at + 4 <= bytes.len(),
    ensures
        res == number_at(bytes@, at as int),
{
    let b0: u32 = bytes[at] as u32;
    let b1: u32 = bytes[at + 1] as u32;
    let b2: u32 = bytes[at + 2] as u32;
    let b3: u32 = bytes[at + 3] as u32;
    b0 + 0x100 * b1 + 0x1_0000 * b2 + 0x100_0000 * b3
}

/// Whether a table of connections has as many rows as it says.
pub fn table_is_complete(bytes: &Vec<u8>) -> (res: bool)
    ensures
        res == is_complete(bytes@),
{
    if bytes.len() < TABLE_HEAD {
        return false;
    }
    let needed: u64 = TABLE_HEAD as u64 + TABLE_ROW as u64 * read_number(bytes, 0) as u64;
    bytes.len() as u64 >= needed
}

/// Reads the table of all IPv4 TCP connections, given the answer of the operating system: a code
/// that is not zero for a failure, and the bytes of the table.
pub fn query_tcp_table(ret: u32, buffer: &Vec<u8>) -> (res: Result<Vec<TcpRow>, String>)
    requires
        ret == 0 ==> is_complete(buffer@),
    ensures
        if ret == 0 {
            &&& res is Ok
            &&& res->Ok_0@ == rows_of(buffer@)
        } else {
            &&& res is Err
            &&& res->Err_0@ == failure_code("GetExtendedTcpTable"@, ret)
        },
{
    if ret != 0 {
        return Err(failure("GetExtendedTcpTable", ret));
    }
    let count: usize = read_number(buffer, 0) as usize;
    let mut rows: Vec<TcpRow> = Vec::new();
    for i in 0..count
        invariant
            is_complete(buffer@),
            count == number_at(buffer@, 0),
            rows@ == rows_of(buffer@).take(i as int),
    {
        assert(TABLE_HEAD + TABLE_ROW * i + TABLE_ROW <= buffer.len());
        let at: usize = TABLE_HEAD + TABLE_ROW * i;
        rows.push(
            TcpRow {
                state: read_number(buffer, at),
                local_addr: read_number(buffer, at + 4),
                local_port: read_number(buffer, at + 8),
                remote_addr: read_number(buffer, at + 12),
                remote_port: read_number(buffer, at + 16),
                owning_pid: read_number(buffer, at + 20),
            },
        );
        assert(rows@ =~= rows_of(buffer@).take(i + 1));
    }
    assert(rows_of(buffer@).take(count as int) =~= rows_of(buffer@));
    Ok(rows)
}

/// Judges the answer to the request to count the bytes of a connection: a code that is not zero for
/// a failure.
pub fn estats_enabled(set_ret: u32) -> (res: Result<(), String>)
    ensures
        if set_ret == 0 {
            res is Ok
        } else {
            &&& res is Err
            &&& res->Err_0@ == failure_code("SetPerTcpConnectionEStats"@, set_ret)
        },
{
    if set_ret != 0 {
        Err(failure("SetPerTcpConnectionEStats", set_ret))
    } else {
        Ok(())
    }
}

/// The bytes received and sent on a connection, given the answer of the operating system: a code
/// that is not zero for a failure, and the counters.
pub fn estats_counters(ret: u32, data_bytes_in: u64, data_bytes_out: u64) -> (res: Result<
    (u64, u64),
    String,
>)
    ensures
        if ret == 0 {
            res == Ok::<(u64, u64), String>((data_bytes_in, data_bytes_out))
        } else {
            &&& res is Err
            &&& res->Err_0@ == failure_code("GetPerTcpConnectionEStats"@, ret)
        },
{
    if ret != 0 {
        Err(failure("GetPerTcpConnectionEStats", ret))
    } else {
        Ok((data_bytes_in, data_bytes_out))
    }
}

/// Whether a process owns a connection.
pub open spec fn owned_by(pid: u32) -> spec_fn(TcpRow) -> bool {
    |row: TcpRow| row.owning_pid == pid
}

/// The connections that a process owns.
pub open spec fn owned(rows: Seq<TcpRow>, pid: u32) -> Seq<TcpRow> {
    rows.filter(owned_by(pid))
}

/// Picks the connections that a process owns.
pub fn owned_connections(rows: &Vec<TcpRow>, pid: u32) -> (res: Vec<TcpRow>)
    ensures
        res@ == owned(rows@, pid),
{
    let mut res: Vec<TcpRow> = Vec::new();
    reveal(Seq::filter);
    for i in 0..rows.len()
        invariant
            res@ == rows@.take(i as int).filter(owned_by(pid)),
    {
        reveal(Seq::filter);
        assert(rows@.take(i + 1).drop_last() == rows@.take(i as int));
        if rows[i].owning_pid == pid {
            res.push(rows[i]);
        }
    }
    assert(rows@.take(rows@.len() as int) == rows@);
    res
}

/// The bytes received on the connections whose counters could be read.
pub open spec fn received(readings: Seq<Result<(u64, u64), String>>) -> Seq<nat> {
    readings.map_values(
        |r: Result<(u64, u64), String>|
            match r {
                Ok((bytes_in, _)) => bytes_in as nat,
                Err(_) => 0,
            },
    )
}

/// The bytes sent on the connections whose counters could be read.
pub open spec fn sent(readings: Seq<Result<(u64, u64), String>>) -> Seq<nat> {
    readings.map_values(
        |r: Result<(u64, u64), String>|
            match r {
                Ok((_, bytes_out)) => bytes_out as nat,
                Err(_) => 0,
            },
    )
}

/// Whether the counters of all connections together stay within 64 bits.
pub open spec fn readings_fit(readings: Seq<Result<(u64, u64), String>>) -> bool {
    &&& session::sum(received(readings)) <= u64::MAX
    &&& session::sum(sent(readings)) <= u64::MAX
}

/// Sums up the bytes received and sent on connections, or gives `None` where a sum exceeds 64 bits.
pub fn sum_readings(readings: &Vec<Result<(u64, u64), String>>) -> (res: Option<(u64, u64)>)
    ensures
        res == (if readings_fit(readings@) {
            Some(
                (
                    session::sum(received(readings@)) as u64,
                    session::sum(sent(readings@)) as u64,
                ),
            )
        } else {
            None
        }),
{
    let mut total_in: u64 = 0;
    let mut total_out: u64 = 0;
    let ghost ins = received(readings@);
    let ghost outs = sent(readings@);
    for i in 0..readings.len()
        invariant
            ins == received(readings@),
            outs == sent(readings@),
            total_in == session::sum(ins.take(i as int)),
            total_out == session::sum(outs.take(i as int)),
    {
        proof {
            assert(ins.take(i + 1).drop_last() == ins.take(i as int));
            assert(outs.take(i + 1).drop_last() == outs.take(i as int));
            session::lemma_sum_of_prefix(ins, i + 1);
            session::lemma_sum_of_prefix(outs, i + 1);
        }
        let (bytes_in, bytes_out): (u64, u64) = match &readings[i] {
            Ok((bytes_in, bytes_out)) => (*bytes_in, *bytes_out),
            Err(_) => (0, 0),
        };
        total_in =
        match total_in.checked_add(bytes_in) {
            Some(sum) => sum,
            None => {
                return None;
            },
        };
        total_out =
        match total_out.checked_add(bytes_out) {
            Some(sum) => sum,
            None => {
                return None;
            },
        };
    }
    assert(ins.take(ins.len() as int) == ins);
    assert(outs.take(outs.len() as int) == outs);
    Some((total_in, total_out))
}

/// The statistics of a process that owns the given number of connections, by the counters of these.
pub open spec fn counted(
    connections: nat,
    readings: Seq<Result<(u64, u64), String>>,
) -> NetworkStats {
    NetworkStats {
        connection_count: connections as u32,
        bytes_received: session::sum(received(readings)) as u64,
        bytes_sent: session::sum(sent(readings)) as u64,
        using_wfp: true,
    }
}

/// The statistics of a process that owns the given number of connections, by that number. The
/// number is kept in 32 bits.
pub open spec fn estimated(connections: nat) -> NetworkStats {
    let count = connections % 0x1_0000_0000;
    NetworkStats {
        connection_count: count as u32,
        bytes_received: (count * ESTIMATED_RECEIVED) as u64,
        bytes_sent: (count * ESTIMATED_SENT) as u64,
        using_wfp: false,
    }
}

impl NetworkStats {
    /// Collects per-process network statistics from the table of connections, or from the message
    /// why it cannot be had.
    ///
    /// When `use_wfp` is `true` and the process is elevated, this sums the byte counters of all
    /// connections owned by `pid`, which are given in the order of these connections; a connection
    /// whose counters could not be read still counts. Otherwise it falls back to connection counting.
    pub fn collect(
        pid: u32,
        use_wfp: bool,
        elevated: bool,
        table: Result<Vec<TcpRow>, String>,
        readings: &Vec<Result<(u64, u64), String>>,
    ) -> (res: Result<NetworkStats, String>)
        requires
            table matches Ok(rows) ==> use_wfp && elevated ==> {
                &&& readings@.len() == owned(rows@, pid).len()
                &&& readings@.len() <= u32::MAX
                &&& readings_fit(readings@)
            },
        ensures
            match table {
                Err(message) => res == Err::<NetworkStats, String>(message),
                Ok(rows) => res == Ok::<NetworkStats, String>(
                    if use_wfp && elevated {
                        counted(owned(rows@, pid).len(), readings@)
                    } else {
                        estimated(owned(rows@, pid).len())
                    },
                ),
            },
    {
        let rows = match table {
            Ok(rows) => rows,
            Err(message) => {
                return Err(message);
            },
        };
        let connections: usize = owned_connections(&rows, pid).len();
        if use_wfp && elevated {
            let (bytes_received, bytes_sent) = sum_readings(readings).unwrap();
            Ok(
                NetworkStats {
                    connection_count: connections as u32,
                    bytes_received,
                    bytes_sent,
                    using_wfp: true,
                },
            )
        } else {
            let count: u64 = connections as u64 % 0x1_0000_0000;
            Ok(
                NetworkStats {
                    connection_count: count as u32,
                    bytes_received: count * ESTIMATED_RECEIVED,
                    bytes_sent: count * ESTIMATED_SENT,
                    using_wfp: false,
                },
            )
        }
    }
}

/// How many rows of a table a process owns, one counted after the other.
pub open spec fn rows_owned(rows: Seq<TcpRow>, pid: u32) -> nat {
    rows.fold_left(
        0nat,
        |count: nat, row: TcpRow|
            if row.owning_pid == pid {
                count + 1
            } else {
                count
            },
    )
}

/// The connections of a process are exactly the rows of the table that it owns, in their order,
/// whatever their state, their addresses and their ports are.
pub proof fn law_connections_go_by_owner(rows: Seq<TcpRow>, pid: u32)
    ensures
        owned(rows, pid) == rows.filter(|row: TcpRow| row.owning_pid == pid),
        owned(rows, pid).len() == rows_owned(rows, pid),
    decreases rows.len(),
{
    reveal(Seq::filter);
    if rows.len() > 0 {
        law_connections_go_by_owner(rows.drop_last(), pid);
    }
    lemma_same_owned(rows, pid);
}

proof fn lemma_same_owned(rows: Seq<TcpRow>, pid: u32)
    ensures
        owned(rows, pid) == rows.filter(|row: TcpRow| row.owning_pid == pid),
    decreases rows.len(),
{
    reveal(Seq::filter);
    if rows.len() > 0 {
        lemma_same_owned(rows.drop_last(), pid);
    }
}

/// Tables with the same owners give the same number of connections, and one row more counts for its
/// owner and for nobody else.
pub proof fn law_only_owners_count(a: Seq<TcpRow>, b: Seq<TcpRow>, row: TcpRow, pid: u32)
    requires
        a.len() == b.len(),
        forall|i: int| 0 <= i < a.len() ==> (#[trigger] a[i]).owning_pid == b[i].owning_pid,
    ensures
        owned(a, pid).len() == owned(b, pid).len(),
        owned(a.push(row), pid).len() == owned(a, pid).len() + (if row.owning_pid == pid {
            1nat
        } else {
            0nat
        }),
    decreases a.len(),
{
    reveal(Seq::filter);
    assert(a.push(row).drop_last() =~= a);
    if a.len() > 0 {
        let a0 = a.drop_last();
        let b0 = b.drop_last();
        assert forall|i: int| 0 <= i < a0.len() implies (#[trigger] a0[i]).owning_pid
            == b0[i].owning_pid by {
            assert(a[i].owning_pid == b[i].owning_pid);
        }
        law_only_owners_count(a0, b0, row, pid);
        assert(a[a.len() - 1].owning_pid == b[a.len() - 1].owning_pid);
    }
}

/// An estimate counts every row that the process owns, with 1024 bytes received and 512 bytes sent
/// for each.
pub proof fn law_estimates_count_rows(rows: Seq<TcpRow>, pid: u32)
    requires
        rows.len() <= 0xFFFF_FFFF,
    ensures
        ({
            let stats = estimated(owned(rows, pid).len());
            &&& stats.connection_count == rows_owned(rows, pid)
            &&& stats.bytes_received == 1024 * rows_owned(rows, pid)
            &&& stats.bytes_sent == 512 * rows_owned(rows, pid)
            &&& !stats.using_wfp
        }),
{
    law_connections_go_by_owner(rows, pid);
    rows.lemma_filter_len(owned_by(pid));
}

/// Byte counters count every row that the process owns, and add up what could be read: the bytes that
/// came in as received, and those that went out as sent.
pub proof fn law_counters_add_up(
    rows: Seq<TcpRow>,
    pid: u32,
    readings: Seq<Result<(u64, u64), String>>,
)
    requires
        rows.len() <= 0xFFFF_FFFF,
        readings_fit(readings),
    ensures
        ({
            let stats = counted(owned(rows, pid).len(), readings);
            &&& stats.connection_count == rows_owned(rows, pid)
            &&& stats.bytes_received == bytes_in(readings)
            &&& stats.bytes_sent == bytes_out(readings)
            &&& stats.using_wfp
        }),
{
    law_connections_go_by_owner(rows, pid);
    rows.lemma_filter_len(owned_by(pid));
    law_counters_fit(readings);
}

/// The bytes that came in on the connections that could be read, one added after the other.
pub open spec fn bytes_in(readings: Seq<Result<(u64, u64), String>>) -> nat {
    readings.fold_left(
        0nat,
        |total: nat, r: Result<(u64, u64), String>|
            match r {
                Ok(counters) => total + counters.0 as nat,
                Err(_) => total,
            },
    )
}

/// The bytes that went out on the connections that could be read, one added after the other.
pub open spec fn bytes_out(readings: Seq<Result<(u64, u64), String>>) -> nat {
    readings.fold_left(
        0nat,
        |total: nat, r: Result<(u64, u64), String>|
            match r {
                Ok(counters) => total + counters.1 as nat,
                Err(_) => total,
            },
    )
}

/// Counters are summed up exactly where both sums stay within 64 bits.
pub proof fn law_counters_fit(readings: Seq<Result<(u64, u64), String>>)
    ensures
        session::sum(received(readings)) == bytes_in(readings),
        session::sum(sent(readings)) == bytes_out(readings),
        readings_fit(readings) <==> bytes_in(readings) <= 0xFFFF_FFFF_FFFF_FFFF && bytes_out(
            readings,
        ) <= 0xFFFF_FFFF_FFFF_FFFF,
    decreases readings.len(),
{
    if readings.len() > 0 {
        law_counters_fit(readings.drop_last());
        assert(received(readings).drop_last() =~= received(readings.drop_last()));
        assert(sent(readings).drop_last() =~= sent(readings.drop_last()));
    }
}

/// The number that four bytes of a table hold, the least significant first.
pub open spec fn little_endian(b0: u8, b1: u8, b2: u8, b3: u8) -> int {
    b0 + 256 * b1 + 65_536 * b2 + 16_777_216 * b3
}

/// A table starts with the number of its rows, and is complete if it holds them all; a row is six
/// numbers in a fixed order, and one row follows the other.
pub proof fn law_table_layout(bytes: Seq<u8>, i: int)
    requires
        is_complete(bytes),
    ensures
        rows_of(bytes).len() == little_endian(bytes[0], bytes[1], bytes[2], bytes[3]),
        0 <= i < rows_of(bytes).len() ==> ({
            let at = 4 + 24 * i;
            let row = rows_of(bytes)[i];
            &&& at + 24 <= bytes.len()
            &&& row.state == little_endian(bytes[at], bytes[at + 1], bytes[at + 2], bytes[at + 3])
            &&& row.local_addr == little_endian(
                bytes[at + 4],
                bytes[at + 5],
                bytes[at + 6],
                bytes[at + 7],
            )
            &&& row.local_port == little_endian(
                bytes[at + 8],
                bytes[at + 9],
                bytes[at + 10],
                bytes[at + 11],
            )
            &&& row.remote_addr == little_endian(
                bytes[at + 12],
                bytes[at + 13],
                bytes[at + 14],
                bytes[at + 15],
            )
            &&& row.remote_port == little_endian(
                bytes[at + 16],
                bytes[at + 17],
                bytes[at + 18],
                bytes[at + 19],
            )
            &&& row.owning_pid == little_endian(
                bytes[at + 20],
                bytes[at + 21],
                bytes[at + 22],
                bytes[at + 23],
            )
        }),
{
}

/// A table is complete exactly if it has room for the number of rows that it starts with.
pub proof fn law_complete_tables(bytes: Seq<u8>)
    ensures
        is_complete(bytes) <==> bytes.len() >= 4 && bytes.len() >= 4 + 24 * little_endian(
            bytes[0],
            bytes[1],
            bytes[2],
            bytes[3],
        ),
{
}

/// A failure names the call and its code in base sixteen.
pub proof fn law_failures_name_the_code(call: Seq<char>, code: u32)
    ensures
        failure_code(call, code) == call + " failed: 0x"@ + text::hexadecimal(code as nat),
{
}

} // verus!
