//! Sessions: their data, what is kept of it, and its export.

use vstd::prelude::*;
use vstd::string::*;
use vstd::utf8::*;

use crate::sequences;
use crate::table;
use crate::text;
use crate::time;
use crate::time::{LocalTime, Timestamp};

verus! {

broadcast use vstd::string::group_string_axioms;

/// A number with two decimals, as a count of hundredths.
#[derive(Debug, Clone, Copy, PartialEq, Eq, Structural)]
pub struct Hundredths {
    pub count: u64,
}

/// A single timestamped measurement of all monitored metrics.
#[derive(Debug)]
pub struct DataPoint {
    pub timestamp: Timestamp,
    pub cpu_percent: Hundredths,
    pub ram_mb: Hundredths,
    /// Current read rate in bytes per second (computed over the sample interval).
    pub io_read_bytes_per_sec: u64,
    /// Current write rate in bytes per second (computed over the sample interval).
    pub io_write_bytes_per_sec: u64,
    /// Cumulative bytes read since the session started.
    pub io_read_bytes_total: u64,
    /// Cumulative bytes written since the session started.
    pub io_write_bytes_total: u64,
    pub net_recv_bytes_per_sec: u64,
    pub net_sent_bytes_per_sec: u64,
    /// Cumulative bytes received since the session started, counted or estimated.
    pub net_recv_bytes_total: u64,
    /// Cumulative bytes sent since the session started, counted or estimated.
    pub net_sent_bytes_total: u64,
    /// Number of active TCP connections for the monitored process group.
    pub net_connection_count: u32,
    pub active_pids: Vec<u32>,
}

/// What a measurement holds.
pub struct DataPointView {
    pub timestamp: Timestamp,
    pub cpu_percent: Hundredths,
    pub ram_mb: Hundredths,
    pub io_read_bytes_per_sec: u64,
    pub io_write_bytes_per_sec: u64,
    pub io_read_bytes_total: u64,
    pub io_write_bytes_total: u64,
    pub net_recv_bytes_per_sec: u64,
    pub net_sent_bytes_per_sec: u64,
    pub net_recv_bytes_total: u64,
    pub net_sent_bytes_total: u64,
    pub net_connection_count: u32,
    pub active_pids: Seq<u32>,
}

impl View for DataPoint {
    type V = DataPointView;

    open spec fn view(&self) -> DataPointView {
        DataPointView {
            timestamp: self.timestamp,
            cpu_percent: self.cpu_percent,
            ram_mb: self.ram_mb,
            io_read_bytes_per_sec: self.io_read_bytes_per_sec,
            io_write_bytes_per_sec: self.io_write_bytes_per_sec,
            io_read_bytes_total: self.io_read_bytes_total,
            io_write_bytes_total: self.io_write_bytes_total,
            net_recv_bytes_per_sec: self.net_recv_bytes_per_sec,
            net_sent_bytes_per_sec: self.net_sent_bytes_per_sec,
            net_recv_bytes_total: self.net_recv_bytes_total,
            net_sent_bytes_total: self.net_sent_bytes_total,
            net_connection_count: self.net_connection_count,
            active_pids: self.active_pids@,
        }
    }
}

/// What a list of measurements holds.
pub open spec fn points_view(points: Seq<DataPoint>) -> Seq<DataPointView> {
    points.map_values(|p: DataPoint| p@)
}

impl Clone for DataPoint {
    fn clone(&self) -> (res: DataPoint)
        ensures
            res@ == self@,
    {
        let res = DataPoint {
            timestamp: self.timestamp,
            cpu_percent: self.cpu_percent,
            ram_mb: self.ram_mb,
            io_read_bytes_per_sec: self.io_read_bytes_per_sec,
            io_write_bytes_per_sec: self.io_write_bytes_per_sec,
            io_read_bytes_total: self.io_read_bytes_total,
            io_write_bytes_total: self.io_write_bytes_total,
            net_recv_bytes_per_sec: self.net_recv_bytes_per_sec,
            net_sent_bytes_per_sec: self.net_sent_bytes_per_sec,
            net_recv_bytes_total: self.net_recv_bytes_total,
            net_sent_bytes_total: self.net_sent_bytes_total,
            net_connection_count: self.net_connection_count,
            active_pids: self.active_pids.clone(),
        };
        assert(res.active_pids@ =~= self.active_pids@);
        res
    }
}

/// Copies a list of measurements.
pub fn copy_points(points: &Vec<DataPoint>) -> (res: Vec<DataPoint>)
    ensures
        points_view(res@) == points_view(points@),
{
    let mut res: Vec<DataPoint> = Vec::new();
    for i in 0..points.len()
        invariant
            res@.len() == i,
            forall|j: int| 0 <= j < i ==> #[trigger] res@[j]@ == points@[j]@,
    {
        res.push(points[i].clone());
    }
    assert(points_view(res@) =~= points_view(points@));
    res
}

/// Lightweight session metadata for the tab bar.
#[derive(Debug)]
pub struct SessionInfo {
    pub id: String,
    pub label: String,
    pub executable: String,
    pub interval_ms: u64,
    pub retention_secs: u64,
    pub active: bool,
    pub network_enabled: bool,
    pub data_point_count: usize,
    pub started_at: LocalTime,
    pub ended_at: Option<LocalTime>,
}

/// What session metadata holds.
pub struct SessionInfoView {
    pub id: Seq<char>,
    pub label: Seq<char>,
    pub executable: Seq<char>,
    pub interval_ms: u64,
    pub retention_secs: u64,
    pub active: bool,
    pub network_enabled: bool,
    pub data_point_count: nat,
    pub started_at: LocalTime,
    pub ended_at: Option<LocalTime>,
}

impl View for SessionInfo {
    type V = SessionInfoView;

    open spec fn view(&self) -> SessionInfoView {
        SessionInfoView {
            id: self.id@,
            label: self.label@,
            executable: self.executable@,
            interval_ms: self.interval_ms,
            retention_secs: self.retention_secs,
            active: self.active,
            network_enabled: self.network_enabled,
            data_point_count: self.data_point_count as nat,
            started_at: self.started_at,
            ended_at: self.ended_at,
        }
    }
}

impl Clone for SessionInfo {
    fn clone(&self) -> (res: SessionInfo)
        ensures
            res@ == self@,
    {
        SessionInfo {
            id: self.id.clone(),
            label: self.label.clone(),
            executable: self.executable.clone(),
            interval_ms: self.interval_ms,
            retention_secs: self.retention_secs,
            active: self.active,
            network_enabled: self.network_enabled,
            data_point_count: self.data_point_count,
            started_at: self.started_at,
            ended_at: self.ended_at,
        }
    }
}

/// The sums and maxima over the measurements of a session.
#[derive(Debug, Clone, Copy, PartialEq, Eq, Structural)]
pub struct SessionTotals {
    pub sum_io_bytes: u64,
    pub sum_net_bytes: u64,
    pub max_cpu: Hundredths,
    pub max_ram_mb: Hundredths,
    pub max_io_bytes: u64,
    pub max_net_bytes: u64,
}

/// Means over the measurements of a session, as computed in floating point.
#[derive(Debug, Clone, Copy, PartialEq, Eq, Structural)]
pub struct Averages {
    pub avg_cpu: Hundredths,
    pub avg_ram_mb: Hundredths,
    pub avg_io_bytes: u64,
    pub avg_net_bytes: u64,
}

/// Full snapshot of a session for rendering charts.
#[derive(Debug)]
pub struct SessionSnapshot {
    pub info: SessionInfo,
    pub data_points: Vec<DataPoint>,
    pub max_cpu: Hundredths,
    pub avg_cpu: Hundredths,
    pub max_ram_mb: Hundredths,
    pub avg_ram_mb: Hundredths,
    pub max_io_bytes: u64,
    pub avg_io_bytes: u64,
    pub max_net_bytes: u64,
    pub avg_net_bytes: u64,
}

/// What a snapshot holds.
pub struct SessionSnapshotView {
    pub info: SessionInfoView,
    pub data_points: Seq<DataPointView>,
    pub max_cpu: Hundredths,
    pub avg_cpu: Hundredths,
    pub max_ram_mb: Hundredths,
    pub avg_ram_mb: Hundredths,
    pub max_io_bytes: u64,
    pub avg_io_bytes: u64,
    pub max_net_bytes: u64,
    pub avg_net_bytes: u64,
}

impl View for SessionSnapshot {
    type V = SessionSnapshotView;

    open spec fn view(&self) -> SessionSnapshotView {
        SessionSnapshotView {
            info: self.info@,
            data_points: points_view(self.data_points@),
            max_cpu: self.max_cpu,
            avg_cpu: self.avg_cpu,
            max_ram_mb: self.max_ram_mb,
            avg_ram_mb: self.avg_ram_mb,
            max_io_bytes: self.max_io_bytes,
            avg_io_bytes: self.avg_io_bytes,
            max_net_bytes: self.max_net_bytes,
            avg_net_bytes: self.avg_net_bytes,
        }
    }
}

impl Clone for SessionSnapshot {
    fn clone(&self) -> (res: SessionSnapshot)
        ensures
            res@ == self@,
    {
        SessionSnapshot {
            info: self.info.clone(),
            data_points: copy_points(&self.data_points),
            max_cpu: self.max_cpu,
            avg_cpu: self.avg_cpu,
            max_ram_mb: self.max_ram_mb,
            avg_ram_mb: self.avg_ram_mb,
            max_io_bytes: self.max_io_bytes,
            avg_io_bytes: self.avg_io_bytes,
            max_net_bytes: self.max_net_bytes,
            avg_net_bytes: self.avg_net_bytes,
        }
    }
}

/// Supported export formats.
#[derive(Debug, Clone, Copy, PartialEq, Eq, Structural)]
pub enum ExportFormat {
    Csv,
    Json,
}

/// An export of a session: a finished text, or the values of which a JSON text is made.
#[derive(Debug)]
pub enum Export {
    Csv(String),
    Json { metadata: SessionInfo, data: Vec<DataPoint> },
}

/// What an export holds.
pub enum ExportView {
    Csv(Seq<char>),
    Json { metadata: SessionInfoView, data: Seq<DataPointView> },
}

impl View for Export {
    type V = ExportView;

    open spec fn view(&self) -> ExportView {
        match self {
            Export::Csv(text) => ExportView::Csv(text@),
            Export::Json { metadata, data } => ExportView::Json {
                metadata: metadata@,
                data: points_view(data@),
            },
        }
    }
}

/// A single monitoring session with all its accumulated data.
#[derive(Debug)]
pub struct Session {
    pub id: String,
    pub label: String,
    pub executable: String,
    pub interval_ms: u64,
    pub retention_secs: u64,
    pub active: bool,
    pub network_enabled: bool,
    pub started_at: LocalTime,
    pub ended_at: Option<LocalTime>,
    pub data_points: Vec<DataPoint>,
}

/// What a session holds.
pub struct SessionView {
    pub id: Seq<char>,
    pub label: Seq<char>,
    pub executable: Seq<char>,
    pub interval_ms: u64,
    pub retention_secs: u64,
    pub active: bool,
    pub network_enabled: bool,
    pub started_at: LocalTime,
    pub ended_at: Option<LocalTime>,
    pub data_points: Seq<DataPointView>,
}

impl View for Session {
    type V = SessionView;

    open spec fn view(&self) -> SessionView {
        SessionView {
            id: self.id@,
            label: self.label@,
            executable: self.executable@,
            interval_ms: self.interval_ms,
            retention_secs: self.retention_secs,
            active: self.active,
            network_enabled: self.network_enabled,
            started_at: self.started_at,
            ended_at: self.ended_at,
            data_points: points_view(self.data_points@),
        }
    }
}

impl Clone for Session {
    fn clone(&self) -> (res: Session)
        ensures
            res@ == self@,
    {
        Session {
            id: self.id.clone(),
            label: self.label.clone(),
            executable: self.executable.clone(),
            interval_ms: self.interval_ms,
            retention_secs: self.retention_secs,
            active: self.active,
            network_enabled: self.network_enabled,
            started_at: self.started_at,
            ended_at: self.ended_at,
            data_points: copy_points(&self.data_points),
        }
    }
}

impl SessionView {
    /// Whether the calendar can express every time in the session.
    pub open spec fn valid(self) -> bool {
        &&& self.started_at.valid()
        &&& self.ended_at is Some ==> self.ended_at->0.valid()
        &&& forall|i: int|
            0 <= i < self.data_points.len() ==> (#[trigger] self.data_points[i]).timestamp.valid()
    }

    /// The metadata of the session.
    pub open spec fn info(self) -> SessionInfoView {
        SessionInfoView {
            id: self.id,
            label: self.label,
            executable: self.executable,
            interval_ms: self.interval_ms,
            retention_secs: self.retention_secs,
            active: self.active,
            network_enabled: self.network_enabled,
            data_point_count: self.data_points.len(),
            started_at: self.started_at,
            ended_at: self.ended_at,
        }
    }

    /// The snapshot of the session, given the means over its measurements.
    pub open spec fn snapshot(self, averages: Averages) -> SessionSnapshotView {
        SessionSnapshotView {
            info: self.info(),
            data_points: self.data_points,
            max_cpu: Hundredths { count: largest(cpu_counts(self.data_points)) as u64 },
            avg_cpu: mean_fraction(self.data_points.len(), averages.avg_cpu),
            max_ram_mb: Hundredths { count: largest(ram_counts(self.data_points)) as u64 },
            avg_ram_mb: mean_fraction(self.data_points.len(), averages.avg_ram_mb),
            max_io_bytes: largest(io_rates(self.data_points)) as u64,
            avg_io_bytes: mean(
                sum(io_rates(self.data_points)),
                self.data_points.len(),
                averages.avg_io_bytes,
            ),
            max_net_bytes: largest(net_rates(self.data_points)) as u64,
            avg_net_bytes: mean(
                sum(net_rates(self.data_points)),
                self.data_points.len(),
                averages.avg_net_bytes,
            ),
        }
    }

    /// Whether the rates of all measurements together stay within 64 bits.
    pub open spec fn totals_fit(self) -> bool {
        &&& sum(io_rates(self.data_points)) <= u64::MAX
        &&& sum(net_rates(self.data_points)) <= u64::MAX
    }

    /// The sums and maxima over the measurements of the session.
    pub open spec fn totals(self) -> SessionTotals {
        SessionTotals {
            sum_io_bytes: sum(io_rates(self.data_points)) as u64,
            sum_net_bytes: sum(net_rates(self.data_points)) as u64,
            max_cpu: Hundredths { count: largest(cpu_counts(self.data_points)) as u64 },
            max_ram_mb: Hundredths { count: largest(ram_counts(self.data_points)) as u64 },
            max_io_bytes: largest(io_rates(self.data_points)) as u64,
            max_net_bytes: largest(net_rates(self.data_points)) as u64,
        }
    }
}

/// The sum of numbers.
pub open spec fn sum(numbers: Seq<nat>) -> nat
    decreases numbers.len(),
{
    if numbers.len() == 0 {
        0
    } else {
        sum(numbers.drop_last()) + numbers.last()
    }
}

/// The largest of numbers, and zero where there are none.
pub open spec fn largest(numbers: Seq<nat>) -> nat
    decreases numbers.len(),
{
    if numbers.len() == 0 {
        0
    } else if numbers.last() > largest(numbers.drop_last()) {
        numbers.last()
    } else {
        largest(numbers.drop_last())
    }
}

/// The largest number up to which a binary floating-point number of 64 bits holds every integer.
pub const LARGEST_EXACT: u64 = 9_007_199_254_740_992;

/// The mean of `count` numbers with the given sum, rounded down, and zero where there are none.
/// Where the sum is too large to be divided exactly in floating point, it is the mean `inexact`
/// that was computed there.
pub open spec fn mean(sum: nat, count: nat, inexact: u64) -> u64 {
    if sum > LARGEST_EXACT || count > LARGEST_EXACT {
        inexact
    } else if count == 0 {
        sum as u64
    } else {
        (sum / count) as u64
    }
}

/// The mean of `count` numbers with the given sum.
fn mean_of(sum: u64, count: usize, inexact: u64) -> (res: u64)
    ensures
        res == mean(sum as nat, count as nat, inexact),
{
    let count: u64 = count as u64;
    if sum > LARGEST_EXACT || count > LARGEST_EXACT {
        inexact
    } else if count == 0 {
        sum
    } else {
        assert(sum as nat / count as nat <= sum) by (nonlinear_arith)
            requires
                count > 0,
        ;
        sum / count
    }
}

/// The mean of `count` fractions: the one that was computed in floating point, and zero where there
/// are none.
pub open spec fn mean_fraction(count: nat, inexact: Hundredths) -> Hundredths {
    if count == 0 {
        Hundredths { count: 0 }
    } else {
        inexact
    }
}

/// The mean of `count` fractions.
fn mean_fraction_of(count: usize, inexact: Hundredths) -> (res: Hundredths)
    ensures
        res == mean_fraction(count as nat, inexact),
{
    if count == 0 {
        Hundredths { count: 0 }
    } else {
        inexact
    }
}

/// The processor loads of measurements, in hundredths of a percent.
pub open spec fn cpu_counts(points: Seq<DataPointView>) -> Seq<nat> {
    points.map_values(|p: DataPointView| p.cpu_percent.count as nat)
}

/// The memory sizes of measurements, in hundredths of a megabyte.
pub open spec fn ram_counts(points: Seq<DataPointView>) -> Seq<nat> {
    points.map_values(|p: DataPointView| p.ram_mb.count as nat)
}

/// The bytes read and written per second of measurements.
pub open spec fn io_rates(points: Seq<DataPointView>) -> Seq<nat> {
    points.map_values(
        |p: DataPointView| (p.io_read_bytes_per_sec + p.io_write_bytes_per_sec) as nat,
    )
}

/// The bytes received and sent per second of measurements.
pub open spec fn net_rates(points: Seq<DataPointView>) -> Seq<nat> {
    points.map_values(
        |p: DataPointView| (p.net_recv_bytes_per_sec + p.net_sent_bytes_per_sec) as nat,
    )
}

/// The first of some numbers do not sum up to more than all of them.
pub proof fn lemma_sum_of_prefix(numbers: Seq<nat>, k: int)
    requires
        0 <= k <= numbers.len(),
    ensures
        sum(numbers.take(k)) <= sum(numbers),
    decreases numbers.len() - k,
{
    if k < numbers.len() {
        lemma_sum_of_prefix(numbers, k + 1);
        assert(numbers.take(k + 1).drop_last() == numbers.take(k));
    } else {
        assert(numbers.take(k) == numbers);
    }
}

/// No number exceeds the largest, and the largest is one of them.
pub proof fn lemma_largest(numbers: Seq<nat>)
    ensures
        forall|i: int| 0 <= i < numbers.len() ==> #[trigger] numbers[i] <= largest(numbers),
        numbers.len() > 0 ==> numbers.contains(largest(numbers)),
        largest(numbers) <= sum(numbers),
    decreases numbers.len(),
{
    if numbers.len() > 0 {
        let rest = numbers.drop_last();
        lemma_largest(rest);
        assert forall|i: int| 0 <= i < numbers.len() implies #[trigger] numbers[i] <= largest(
            numbers,
        ) by {
            if i < rest.len() {
                assert(numbers[i] == rest[i]);
            }
        }
        if numbers.last() > largest(rest) {
            assert(numbers[numbers.len() - 1] == largest(numbers));
        } else if rest.len() > 0 {
            let i = choose|i: int| 0 <= i < rest.len() && rest[i] == largest(rest);
            assert(numbers[i] == largest(numbers));
        } else {
            assert(numbers[0] == largest(numbers));
        }
    }
}

/// The most measurements that a session holds.
pub const MAX_POINTS: usize = 100_000;

/// How many of the oldest measurements go when a session holds too many.
pub const DROPPED_POINTS: usize = 50_000;

/// The start of a retention window of the given length that ends now. A window of no length, and one
/// that starts before the calendar does, has no start.
pub open spec fn window_start(retention_secs: u64, now: Timestamp) -> Option<Timestamp> {
    if retention_secs == 0 || now.secs - retention_secs < time::FIRST_SECOND {
        None
    } else {
        Some(Timestamp { secs: (now.secs - retention_secs) as i64, nanos: now.nanos })
    }
}

/// Whether a measurement lies within the retention window; one without a start holds all.
pub open spec fn is_recent(point: DataPointView, retention_secs: u64, now: Timestamp) -> bool {
    window_start(retention_secs, now) matches Some(start) ==> point.timestamp.not_before(start)
}

/// Whether a measurement is not older than the given time.
pub open spec fn since(start: Timestamp) -> spec_fn(DataPointView) -> bool {
    |p: DataPointView| p.timestamp.not_before(start)
}

/// The measurements within the retention window; one without a start holds all.
pub open spec fn within_window(
    points: Seq<DataPointView>,
    retention_secs: u64,
    now: Timestamp,
) -> Seq<DataPointView> {
    match window_start(retention_secs, now) {
        Some(start) => points.filter(since(start)),
        None => points,
    }
}

/// What remains of measurements: those within the retention window and, if these are too many,
/// without the oldest of them.
pub open spec fn retained(
    points: Seq<DataPointView>,
    retention_secs: u64,
    now: Timestamp,
) -> Seq<DataPointView> {
    let recent = within_window(points, retention_secs, now);
    if recent.len() > MAX_POINTS {
        recent.skip(DROPPED_POINTS as int)
    } else {
        recent
    }
}

/// The identifier of the session with the given number.
pub open spec fn session_id(counter: u64) -> Seq<char> {
    "session-"@ + text::decimal(counter as nat)
}

/// A session that starts at the given time.
pub open spec fn new_session(
    counter: u64,
    label: Seq<char>,
    executable: Seq<char>,
    interval_ms: u64,
    retention_secs: u64,
    network_enabled: bool,
    started_at: LocalTime,
) -> SessionView {
    SessionView {
        id: session_id(counter),
        label,
        executable,
        interval_ms,
        retention_secs,
        active: true,
        network_enabled,
        started_at,
        ended_at: None,
        data_points: Seq::empty(),
    }
}

impl SessionView {
    /// The session with one more measurement.
    pub open spec fn with_point(self, point: DataPointView, now: Timestamp) -> SessionView {
        SessionView {
            data_points: retained(self.data_points.push(point), self.retention_secs, now),
            ..self
        }
    }

    /// The session after it was stopped.
    pub open spec fn stopped(self, ended_at: LocalTime) -> SessionView {
        SessionView { active: false, ended_at: Some(ended_at), ..self }
    }
}

/// The start of a retention window of the given length that ends now.
fn find_window_start(retention_secs: u64, now: Timestamp) -> (res: Option<Timestamp>)
    requires
        now.valid(),
    ensures
        res == window_start(retention_secs, now),
{
    let reach: u64 = (now.secs - time::FIRST_SECOND) as u64;
    if retention_secs == 0 || retention_secs > reach {
        None
    } else {
        Some(time::seconds_before(now, retention_secs as i64))
    }
}

/// The measurements that are not older than the given time.
fn keep_since(points: Vec<DataPoint>, start: Timestamp) -> (res: Vec<DataPoint>)
    ensures
        points_view(res@) == points_view(points@).filter(since(start)),
{
    let mut res: Vec<DataPoint> = Vec::new();
    let ghost all = points_view(points@);
    reveal(Seq::filter);
    for point in it: points
        invariant
            all == points_view(it.seq()),
            points_view(res@) == all.take(it.index()).filter(since(start)),
    {
        reveal(Seq::filter);
        let ghost i = it.index();
        let ghost before = res@;
        assert(all.take(i + 1).drop_last() == all.take(i));
        assert(all.take(i + 1).last() == point@);
        if point.timestamp.is_not_before(&start) {
            res.push(point);
            assert(points_view(res@) =~= points_view(before).push(point@));
        }
    }
    assert(all.take(all.len() as int) == all);
    res
}

/// The titles of the columns of an export.
pub open spec fn column_titles() -> Seq<Seq<char>> {
    seq![
        "Timestamp"@,
        "CPU_%"@,
        "RAM_MB"@,
        "IO_Read_Bps"@,
        "IO_Write_Bps"@,
        "IO_Read_Total"@,
        "IO_Write_Total"@,
        "Net_Recv_Bps"@,
        "Net_Sent_Bps"@,
        "Net_Recv_Total"@,
        "Net_Sent_Total"@,
        "Net_Connections"@,
        "Active_PIDs"@,
    ]
}

/// A measurement as a record of an export.
pub open spec fn point_record(point: DataPointView) -> Seq<Seq<char>> {
    seq![
        time::iso_text(point.timestamp),
        text::two_decimals(point.cpu_percent.count as nat),
        text::two_decimals(point.ram_mb.count as nat),
        text::decimal(point.io_read_bytes_per_sec as nat),
        text::decimal(point.io_write_bytes_per_sec as nat),
        text::decimal(point.io_read_bytes_total as nat),
        text::decimal(point.io_write_bytes_total as nat),
        text::decimal(point.net_recv_bytes_per_sec as nat),
        text::decimal(point.net_sent_bytes_per_sec as nat),
        text::decimal(point.net_recv_bytes_total as nat),
        text::decimal(point.net_sent_bytes_total as nat),
        text::decimal(point.net_connection_count as nat),
        text::numbers_text(point.active_pids),
    ]
}

/// The records of an export: the titles, then one record for each measurement.
pub open spec fn export_records(points: Seq<DataPointView>) -> Seq<Seq<Seq<char>>> {
    seq![column_titles()] + points.map_values(|p: DataPointView| point_record(p))
}

impl SessionView {
    /// The comment lines at the head of an export.
    pub open spec fn export_comments(self) -> Seq<char> {
        "# ProcessObserver Session Export\n# Executable: "@ + self.executable + "\n# Session: "@
            + self.label + "\n# Started: "@ + time::date_and_clock_text(self.started_at)
            + "\n# Interval: "@ + text::decimal(self.interval_ms as nat) + "ms\n# Points: "@
            + text::decimal(self.data_points.len()) + "\n"@
    }

    /// The session as comma-separated text: the comment lines, an empty line, and the table.
    pub open spec fn csv_text(self) -> Seq<char> {
        self.export_comments() + "\n"@ + table::table_text(export_records(self.data_points))
    }

    /// The export of the session in a format.
    pub open spec fn export(self, format: ExportFormat) -> ExportView {
        match format {
            ExportFormat::Csv => ExportView::Csv(self.csv_text()),
            ExportFormat::Json => ExportView::Json {
                metadata: self.info(),
                data: self.data_points,
            },
        }
    }
}

/// The titles of the columns.
fn title_record() -> (res: Vec<String>)
    ensures
        text::texts(res@) == column_titles(),
{
    let res = vec![
        String::from_str("Timestamp"),
        String::from_str("CPU_%"),
        String::from_str("RAM_MB"),
        String::from_str("IO_Read_Bps"),
        String::from_str("IO_Write_Bps"),
        String::from_str("IO_Read_Total"),
        String::from_str("IO_Write_Total"),
        String::from_str("Net_Recv_Bps"),
        String::from_str("Net_Sent_Bps"),
        String::from_str("Net_Recv_Total"),
        String::from_str("Net_Sent_Total"),
        String::from_str("Net_Connections"),
        String::from_str("Active_PIDs"),
    ];
    assert(text::texts(res@) =~= column_titles());
    res
}

impl DataPoint {
    /// The measurement as a record of an export.
    fn record(&self) -> (res: Vec<String>)
        requires
            self.timestamp.valid(),
        ensures
            text::texts(res@) == point_record(self@),
    {
        let universal = LocalTime { at: self.timestamp, offset_secs: 0 };
        let res = vec![
            time::format_time(universal, time::ISO_MILLISECONDS),
            text::two_decimals_string(self.cpu_percent.count),
            text::two_decimals_string(self.ram_mb.count),
            text::decimal_string(self.io_read_bytes_per_sec),
            text::decimal_string(self.io_write_bytes_per_sec),
            text::decimal_string(self.io_read_bytes_total),
            text::decimal_string(self.io_write_bytes_total),
            text::decimal_string(self.net_recv_bytes_per_sec),
            text::decimal_string(self.net_sent_bytes_per_sec),
            text::decimal_string(self.net_recv_bytes_total),
            text::decimal_string(self.net_sent_bytes_total),
            text::decimal_string(self.net_connection_count as u64),
            text::numbers_string(&self.active_pids),
        ];
        assert(text::texts(res@) =~= point_record(self@));
        res
    }
}

impl Session {
    /// A session that starts now.
    pub fn new(
        counter: u64,
        label: String,
        executable: String,
        interval_ms: u64,
        retention_secs: u64,
        network_enabled: bool,
    ) -> (res: Session)
        ensures
            res.valid(),
            res.started_at.at.secs >= 0,
            res@ == new_session(
                counter,
                label@,
                executable@,
                interval_ms,
                retention_secs,
                network_enabled,
                res.started_at,
            ),
    {
        Session::new_at(
            counter,
            label,
            executable,
            interval_ms,
            retention_secs,
            network_enabled,
            time::local_now(),
        )
    }

    /// A session that starts at the given time.
    pub fn new_at(
        counter: u64,
        label: String,
        executable: String,
        interval_ms: u64,
        retention_secs: u64,
        network_enabled: bool,
        started_at: LocalTime,
    ) -> (res: Session)
        ensures
            res@ == new_session(
                counter,
                label@,
                executable@,
                interval_ms,
                retention_secs,
                network_enabled,
                started_at,
            ),
    {
        let res = Session {
            id: String::from_str("session-").concat(text::decimal_string(counter).as_str()),
            label,
            executable,
            interval_ms,
            retention_secs,
            active: true,
            network_enabled,
            started_at,
            ended_at: None,
            data_points: Vec::new(),
        };
        assert(res@.data_points =~= Seq::<DataPointView>::empty());
        res
    }

    /// Appends a measurement, and drops what lies outside the retention window or exceeds the
    /// most measurements that a session holds.
    pub fn push_point_at(&mut self, point: DataPoint, now: Timestamp)
        requires
            now.valid(),
        ensures
            final(self)@ == old(self)@.with_point(point@, now),
    {
        let ghost before = self@;
        let mut points: Vec<DataPoint> = Vec::new();
        std::mem::swap(&mut points, &mut self.data_points);
        points.push(point);
        assert(points_view(points@) =~= before.data_points.push(point@));
        if let Some(start) = find_window_start(self.retention_secs, now) {
            points = keep_since(points, start);
        }
        if points.len() > MAX_POINTS {
            let ghost all = points@;
            points = points.split_off(DROPPED_POINTS);
            assert(points_view(points@) =~= points_view(all).skip(DROPPED_POINTS as int));
        }
        self.data_points = points;
    }

    /// Exports all session data to the requested format.
    pub fn export(&self, format: ExportFormat) -> (res: Result<Export, String>)
        requires
            self.valid(),
        ensures
            res is Ok,
            res->Ok_0@ == self@.export(format),
    {
        match format {
            ExportFormat::Csv => match self.export_csv() {
                Ok(text) => Ok(Export::Csv(text)),
                Err(message) => Err(message),
            },
            ExportFormat::Json => Ok(
                Export::Json { metadata: self.info(), data: copy_points(&self.data_points) },
            ),
        }
    }

    /// The comment lines at the head of an export.
    fn comments(&self) -> (res: String)
        requires
            self.valid(),
        ensures
            res@ == self@.export_comments(),
    {
        let mut res = String::from_str("# ProcessObserver Session Export\n# Executable: ");
        res.append(self.executable.as_str());
        res.append("\n# Session: ");
        res.append(self.label.as_str());
        res.append("\n# Started: ");
        res.append(time::format_time(self.started_at, time::DATE_AND_CLOCK).as_str());
        res.append("\n# Interval: ");
        res.append(text::decimal_string(self.interval_ms).as_str());
        res.append("ms\n# Points: ");
        res.append(text::decimal_string(self.data_points.len() as u64).as_str());
        res.append("\n");
        res
    }

    /// Exports all session data as comma-separated text.
    pub fn export_csv(&self) -> (res: Result<String, String>)
        requires
            self.valid(),
        ensures
            res is Ok,
            res->Ok_0@ == self@.csv_text(),
    {
        let mut table = table::new_table();
        let titles = title_record();
        let ghost points = self@.data_points;
        let ghost records = export_records(points);
        assert(titles@.len() == column_titles().len());
        match table::write_record(&mut table, &titles) {
            Ok(()) => {},
            Err(message) => {
                return Err(String::from_str("CSV write error: ").concat(message.as_str()));
            },
        }
        assert(records.take(1) =~= seq![column_titles()]);
        for i in 0..self.data_points.len()
            invariant
                self.valid(),
                points == self@.data_points,
                records == export_records(points),
                table::records_of(table) == Some(records.take(i + 1)),
        {
            assert(points[i as int] == self.data_points@[i as int]@);
            let record = self.data_points[i].record();
            assert(record@.len() == point_record(points[i as int]).len());
            assert(records.take(i + 1)[0] == column_titles());
            match table::write_record(&mut table, &record) {
                Ok(()) => {},
                Err(message) => {
                    return Err(String::from_str("CSV write error: ").concat(message.as_str()));
                },
            }
            assert(records.take(i + 2) =~= records.take(i + 1).push(point_record(points[i as int])));
        }
        assert(records.take(records.len() as int) =~= records);
        let data = match table::table_bytes(table) {
            Ok(data) => data,
            Err(message) => {
                return Err(String::from_str("CSV finalize error: ").concat(message.as_str()));
            },
        };
        proof {
            encode_utf8_valid_utf8(table::table_text(records));
            encode_utf8_decode_utf8(table::table_text(records));
        }
        let content = match String::from_utf8(data) {
            Ok(content) => content,
            Err(_) => {
                return Err(String::from_str("UTF-8 error"));
            },
        };
        let mut res = self.comments();
        res.append("\n");
        res.append(content.as_str());
        Ok(res)
    }

    /// Whether the calendar can express every time in the session.
    pub open spec fn valid(&self) -> bool {
        self@.valid()
    }

    /// The sums and maxima over the measurements, or `None` where a sum exceeds 64 bits.
    pub fn totals(&self) -> (res: Option<SessionTotals>)
        ensures
            res == (if self@.totals_fit() {
                Some(self@.totals())
            } else {
                None
            }),
    {
        let mut totals = SessionTotals {
            sum_io_bytes: 0,
            sum_net_bytes: 0,
            max_cpu: Hundredths { count: 0 },
            max_ram_mb: Hundredths { count: 0 },
            max_io_bytes: 0,
            max_net_bytes: 0,
        };
        let ghost points = self@.data_points;
        for i in 0..self.data_points.len()
            invariant
                points == self@.data_points,
                totals.sum_io_bytes == sum(io_rates(points).take(i as int)),
                totals.sum_net_bytes == sum(net_rates(points).take(i as int)),
                totals.max_cpu.count == largest(cpu_counts(points).take(i as int)),
                totals.max_ram_mb.count == largest(ram_counts(points).take(i as int)),
                totals.max_io_bytes == largest(io_rates(points).take(i as int)),
                totals.max_net_bytes == largest(net_rates(points).take(i as int)),
        {
            let point = &self.data_points[i];
            proof {
                assert(point@ == points[i as int]);
                assert(io_rates(points).take(i + 1).drop_last() == io_rates(points).take(i as int));
                assert(net_rates(points).take(i + 1).drop_last() == net_rates(points).take(
                    i as int,
                ));
                assert(cpu_counts(points).take(i + 1).drop_last() == cpu_counts(points).take(
                    i as int,
                ));
                assert(ram_counts(points).take(i + 1).drop_last() == ram_counts(points).take(
                    i as int,
                ));
                lemma_sum_of_prefix(io_rates(points), i + 1);
                lemma_sum_of_prefix(net_rates(points), i + 1);
            }
            let io: u64 = match point.io_read_bytes_per_sec.checked_add(
                point.io_write_bytes_per_sec,
            ) {
                Some(io) => io,
                None => {
                    return None;
                },
            };
            let net: u64 = match point.net_recv_bytes_per_sec.checked_add(
                point.net_sent_bytes_per_sec,
            ) {
                Some(net) => net,
                None => {
                    return None;
                },
            };
            totals.sum_io_bytes =
            match totals.sum_io_bytes.checked_add(io) {
                Some(sum) => sum,
                None => {
                    return None;
                },
            };
            totals.sum_net_bytes =
            match totals.sum_net_bytes.checked_add(net) {
                Some(sum) => sum,
                None => {
                    return None;
                },
            };
            if point.cpu_percent.count > totals.max_cpu.count {
                totals.max_cpu = point.cpu_percent;
            }
            if point.ram_mb.count > totals.max_ram_mb.count {
                totals.max_ram_mb = point.ram_mb;
            }
            if io > totals.max_io_bytes {
                totals.max_io_bytes = io;
            }
            if net > totals.max_net_bytes {
                totals.max_net_bytes = net;
            }
        }
        proof {
            let n = points.len() as int;
            assert(io_rates(points).take(n) == io_rates(points));
            assert(net_rates(points).take(n) == net_rates(points));
            assert(cpu_counts(points).take(n) == cpu_counts(points));
            assert(ram_counts(points).take(n) == ram_counts(points));
        }
        Some(totals)
    }

    /// Returns lightweight info for the frontend.
    pub fn info(&self) -> (res: SessionInfo)
        ensures
            res@ == self@.info(),
    {
        SessionInfo {
            id: self.id.clone(),
            label: self.label.clone(),
            executable: self.executable.clone(),
            interval_ms: self.interval_ms,
            retention_secs: self.retention_secs,
            active: self.active,
            network_enabled: self.network_enabled,
            data_point_count: self.data_points.len(),
            started_at: self.started_at,
            ended_at: self.ended_at,
        }
    }

    /// Returns a full snapshot with computed statistics. The means of what is measured in
    /// fractions are given; those of the byte rates only for sums that cannot be divided exactly in
    /// floating point.
    pub fn snapshot(&self, averages: Averages) -> (res: SessionSnapshot)
        requires
            self@.totals_fit(),
        ensures
            res@ == self@.snapshot(averages),
    {
        let totals = self.totals().unwrap();
        SessionSnapshot {
            info: self.info(),
            data_points: copy_points(&self.data_points),
            max_cpu: totals.max_cpu,
            avg_cpu: mean_fraction_of(self.data_points.len(), averages.avg_cpu),
            max_ram_mb: totals.max_ram_mb,
            avg_ram_mb: mean_fraction_of(self.data_points.len(), averages.avg_ram_mb),
            max_io_bytes: totals.max_io_bytes,
            avg_io_bytes: mean_of(
                totals.sum_io_bytes,
                self.data_points.len(),
                averages.avg_io_bytes,
            ),
            max_net_bytes: totals.max_net_bytes,
            avg_net_bytes: mean_of(
                totals.sum_net_bytes,
                self.data_points.len(),
                averages.avg_net_bytes,
            ),
        }
    }
}

/// No measurement that remains is older than the retention window.
pub proof fn law_retained_within_window(
    points: Seq<DataPointView>,
    retention_secs: u64,
    now: Timestamp,
)
    ensures
        forall|i: int|
            0 <= i < retained(points, retention_secs, now).len() ==> is_recent(
                #[trigger] retained(points, retention_secs, now)[i],
                retention_secs,
                now,
            ),
{
    let recent = within_window(points, retention_secs, now);
    let left = retained(points, retention_secs, now);
    if let Some(start) = window_start(retention_secs, now) {
        assert forall|i: int| 0 <= i < left.len() implies is_recent(
            #[trigger] left[i],
            retention_secs,
            now,
        ) by {
            let j = if recent.len() > MAX_POINTS {
                i + DROPPED_POINTS
            } else {
                i
            };
            let source = sequences::lemma_filter_source(points, since(start), j);
            assert(left[i] == points[source]);
        }
    }
}

/// What remains is never more than the most that a session holds, if at most one measurement was
/// added to that.
pub proof fn law_retained_is_bounded(
    points: Seq<DataPointView>,
    retention_secs: u64,
    now: Timestamp,
)
    requires
        points.len() <= MAX_POINTS + 1,
    ensures
        retained(points, retention_secs, now).len() <= MAX_POINTS,
{
    if let Some(start) = window_start(retention_secs, now) {
        points.lemma_filter_len(since(start));
    }
}

/// The newest measurement remains, unless it is itself older than the retention window.
pub proof fn law_newest_point_remains(
    points: Seq<DataPointView>,
    point: DataPointView,
    retention_secs: u64,
    now: Timestamp,
)
    requires
        is_recent(point, retention_secs, now),
    ensures
        retained(points.push(point), retention_secs, now).len() > 0,
        retained(points.push(point), retention_secs, now).last() == point,
{
    reveal(Seq::filter);
    assert(points.push(point).drop_last() == points);
}

/// What remains stands in the order in which it was measured.
pub proof fn law_retained_keeps_order(
    points: Seq<DataPointView>,
    retention_secs: u64,
    now: Timestamp,
    i: int,
    j: int,
)
    requires
        0 <= i < j < retained(points, retention_secs, now).len(),
    ensures
        exists|a: int, b: int|
            0 <= a < b < points.len() && #[trigger] points[a] == retained(
                points,
                retention_secs,
                now,
            )[i] && #[trigger] points[b] == retained(points, retention_secs, now)[j],
{
    let recent = within_window(points, retention_secs, now);
    let left = retained(points, retention_secs, now);
    let skipped: int = if recent.len() > MAX_POINTS {
        DROPPED_POINTS as int
    } else {
        0
    };
    assert(left[i] == recent[i + skipped] && left[j] == recent[j + skipped]);
    let (a, b) = match window_start(retention_secs, now) {
        Some(start) => sequences::lemma_filter_order(points, since(start), i + skipped, j + skipped),
        None => (i + skipped, j + skipped),
    };
    assert(points[a] == left[i] && points[b] == left[j]);
}

/// A measurement within the retention window is lost only to the bound on their number.
pub proof fn law_recent_points_remain(
    points: Seq<DataPointView>,
    retention_secs: u64,
    now: Timestamp,
    i: int,
)
    requires
        0 <= i < points.len() <= MAX_POINTS,
        is_recent(points[i], retention_secs, now),
    ensures
        retained(points, retention_secs, now).contains(points[i]),
{
    let left = retained(points, retention_secs, now);
    let target = match window_start(retention_secs, now) {
        Some(start) => {
            points.lemma_filter_len(since(start));
            sequences::lemma_filter_keeps(points, since(start), i)
        },
        None => i,
    };
    assert(left[target] == points[i]);
}

/// A window that reaches beyond the start of the calendar loses nothing to its length.
pub proof fn law_large_window_keeps_all(
    points: Seq<DataPointView>,
    retention_secs: u64,
    now: Timestamp,
)
    requires
        now.secs - retention_secs < time::FIRST_SECOND,
    ensures
        within_window(points, retention_secs, now) == points,
        points.len() <= MAX_POINTS ==> retained(points, retention_secs, now) == points,
{
}

/// The comma-separated text of a session depends on its executable, its label, its start, its
/// interval and its measurements alone: neither its end nor its other settings change it.
pub proof fn law_csv_depends_on_what_it_shows(a: SessionView, b: SessionView)
    requires
        a.executable == b.executable,
        a.label == b.label,
        a.started_at == b.started_at,
        a.interval_ms == b.interval_ms,
        a.data_points == b.data_points,
    ensures
        a.csv_text() == b.csv_text(),
        a.export(ExportFormat::Csv) == b.export(ExportFormat::Csv),
{
}

proof fn lemma_sum_is_at_most(numbers: Seq<nat>, bound: nat)
    requires
        forall|i: int| 0 <= i < numbers.len() ==> #[trigger] numbers[i] <= bound,
    ensures
        sum(numbers) <= numbers.len() * bound,
    decreases numbers.len(),
{
    if numbers.len() > 0 {
        lemma_sum_is_at_most(numbers.drop_last(), bound);
        assert((numbers.len() - 1) * bound + bound == numbers.len() * bound) by (nonlinear_arith);
    }
}

proof fn lemma_mean_is_at_most_largest(numbers: Seq<nat>, inexact: u64)
    requires
        sum(numbers) <= LARGEST_EXACT,
        numbers.len() <= LARGEST_EXACT,
    ensures
        mean(sum(numbers), numbers.len(), inexact) <= largest(numbers) <= LARGEST_EXACT,
{
    lemma_largest(numbers);
    lemma_sum_is_at_most(numbers, largest(numbers));
    if numbers.len() > 0 {
        let total = sum(numbers);
        let count = numbers.len();
        let most = largest(numbers);
        assert(total / count <= most) by (nonlinear_arith)
            requires
                total <= count * most,
                count > 0,
        ;
    }
}

/// The snapshot of a session without measurements shows zeros.
pub proof fn law_empty_snapshot_is_zero(s: SessionView, averages: Averages)
    requires
        s.data_points.len() == 0,
    ensures
        s.totals_fit(),
        s.snapshot(averages) == (SessionSnapshotView {
            info: s.info(),
            data_points: s.data_points,
            max_cpu: Hundredths { count: 0 },
            avg_cpu: Hundredths { count: 0 },
            max_ram_mb: Hundredths { count: 0 },
            avg_ram_mb: Hundredths { count: 0 },
            max_io_bytes: 0,
            avg_io_bytes: 0,
            max_net_bytes: 0,
            avg_net_bytes: 0,
        }),
{
}

/// An export lists every measurement, in its order, after the titles and nothing else.
pub proof fn law_export_lists_every_measurement(points: Seq<DataPointView>, i: int)
    requires
        0 <= i < points.len(),
    ensures
        export_records(points).len() == points.len() + 1,
        export_records(points)[0] == column_titles(),
        export_records(points)[i + 1] == point_record(points[i]),
{
}

/// The maxima of a snapshot bound what was measured.
pub proof fn law_snapshot_maxima(s: SessionView, averages: Averages, i: int)
    requires
        s.totals_fit(),
        0 <= i < s.data_points.len(),
    ensures
        s.data_points[i].cpu_percent.count <= s.snapshot(averages).max_cpu.count,
        s.data_points[i].ram_mb.count <= s.snapshot(averages).max_ram_mb.count,
        s.data_points[i].io_read_bytes_per_sec + s.data_points[i].io_write_bytes_per_sec
            <= s.snapshot(averages).max_io_bytes,
        s.data_points[i].net_recv_bytes_per_sec + s.data_points[i].net_sent_bytes_per_sec
            <= s.snapshot(averages).max_net_bytes,
{
    let points = s.data_points;
    lemma_largest(cpu_counts(points));
    lemma_largest(ram_counts(points));
    lemma_largest(io_rates(points));
    lemma_largest(net_rates(points));
    assert(cpu_counts(points)[i] == points[i].cpu_percent.count);
    assert(ram_counts(points)[i] == points[i].ram_mb.count);
    assert(io_rates(points)[i] == points[i].io_read_bytes_per_sec
        + points[i].io_write_bytes_per_sec);
    assert(net_rates(points)[i] == points[i].net_recv_bytes_per_sec
        + points[i].net_sent_bytes_per_sec);
    lemma_largest_count(points);
}

proof fn lemma_largest_count(points: Seq<DataPointView>)
    requires
        points.len() > 0,
    ensures
        largest(cpu_counts(points)) <= u64::MAX,
        largest(ram_counts(points)) <= u64::MAX,
{
    lemma_largest(cpu_counts(points));
    lemma_largest(ram_counts(points));
    let a = choose|a: int|
        0 <= a < cpu_counts(points).len() && cpu_counts(points)[a] == largest(cpu_counts(points));
    assert(cpu_counts(points)[a] == points[a].cpu_percent.count);
    let b = choose|b: int|
        0 <= b < ram_counts(points).len() && ram_counts(points)[b] == largest(ram_counts(points));
    assert(ram_counts(points)[b] == points[b].ram_mb.count);
}

/// A mean byte rate that is computed exactly does not exceed the maximum.
pub proof fn law_mean_rates_within_maxima(s: SessionView, averages: Averages)
    requires
        s.data_points.len() <= LARGEST_EXACT,
    ensures
        sum(io_rates(s.data_points)) <= LARGEST_EXACT ==> s.snapshot(averages).avg_io_bytes
            <= s.snapshot(averages).max_io_bytes,
        sum(net_rates(s.data_points)) <= LARGEST_EXACT ==> s.snapshot(averages).avg_net_bytes
            <= s.snapshot(averages).max_net_bytes,
{
    if sum(io_rates(s.data_points)) <= LARGEST_EXACT {
        lemma_mean_is_at_most_largest(io_rates(s.data_points), averages.avg_io_bytes);
    }
    if sum(net_rates(s.data_points)) <= LARGEST_EXACT {
        lemma_mean_is_at_most_largest(net_rates(s.data_points), averages.avg_net_bytes);
    }
}

/// The numbers that items count for sum up to what adding one after the other gives.
pub proof fn law_sum_adds_up<A>(items: Seq<A>, count: spec_fn(A) -> nat)
    ensures
        sum(items.map_values(count)) == items.fold_left(0nat, |total: nat, a: A| total + count(a)),
    decreases items.len(),
{
    if items.len() > 0 {
        law_sum_adds_up(items.drop_last(), count);
        assert(items.map_values(count).drop_last() =~= items.drop_last().map_values(count));
    }
}

/// The bytes read and written per second of measurements, added one after the other.
pub open spec fn added_io(points: Seq<DataPointView>) -> nat {
    points.fold_left(
        0nat,
        |total: nat, p: DataPointView|
            (total + p.io_read_bytes_per_sec + p.io_write_bytes_per_sec) as nat,
    )
}

/// The bytes received and sent per second of measurements, added one after the other.
pub open spec fn added_traffic(points: Seq<DataPointView>) -> nat {
    points.fold_left(
        0nat,
        |total: nat, p: DataPointView|
            (total + p.net_recv_bytes_per_sec + p.net_sent_bytes_per_sec) as nat,
    )
}

proof fn lemma_rates_add_up(points: Seq<DataPointView>)
    ensures
        sum(io_rates(points)) == added_io(points),
        sum(net_rates(points)) == added_traffic(points),
    decreases points.len(),
{
    if points.len() > 0 {
        lemma_rates_add_up(points.drop_last());
        assert(io_rates(points).drop_last() =~= io_rates(points.drop_last()));
        assert(net_rates(points).drop_last() =~= net_rates(points.drop_last()));
    }
}

proof fn lemma_mean_bounds(total: nat, count: nat, inexact: u64)
    requires
        0 < count <= 9_007_199_254_740_992,
        total <= 9_007_199_254_740_992,
    ensures
        count * mean(total, count, inexact) <= total < count * (mean(total, count, inexact) + 1),
{
    let q = total / count;
    assert(q <= total && count * q <= total < count * (q + 1)) by (nonlinear_arith)
        requires
            count > 0,
            q == total / count,
    ;
}

/// The mean byte rates of a snapshot lie within one of the true means, from below: as many times as
/// there are measurements, they do not exceed the rates added up, and one more each would. Only where
/// the sum is too large for floating point to divide it exactly, the given means stand.
pub proof fn law_snapshot_means(s: SessionView, averages: Averages)
    requires
        0 < s.data_points.len() <= 9_007_199_254_740_992,
    ensures
        ({
            let n = s.data_points.len();
            let shown = s.snapshot(averages);
            &&& added_io(s.data_points) <= 9_007_199_254_740_992 ==> n * shown.avg_io_bytes
                <= added_io(s.data_points) < n * (shown.avg_io_bytes + 1)
            &&& added_traffic(s.data_points) <= 9_007_199_254_740_992 ==> n * shown.avg_net_bytes
                <= added_traffic(s.data_points) < n * (shown.avg_net_bytes + 1)
            &&& added_io(s.data_points) > 9_007_199_254_740_992 ==> shown.avg_io_bytes
                == averages.avg_io_bytes
            &&& added_traffic(s.data_points) > 9_007_199_254_740_992 ==> shown.avg_net_bytes
                == averages.avg_net_bytes
            &&& shown.avg_cpu == averages.avg_cpu
            &&& shown.avg_ram_mb == averages.avg_ram_mb
        }),
{
    let n = s.data_points.len();
    lemma_rates_add_up(s.data_points);
    if added_io(s.data_points) <= 9_007_199_254_740_992 {
        lemma_mean_bounds(added_io(s.data_points), n, averages.avg_io_bytes);
    }
    if added_traffic(s.data_points) <= 9_007_199_254_740_992 {
        lemma_mean_bounds(added_traffic(s.data_points), n, averages.avg_net_bytes);
    }
}

/// Every maximum of a snapshot is that of some measurement.
pub proof fn law_snapshot_maxima_are_attained(s: SessionView, averages: Averages)
    requires
        s.totals_fit(),
        s.data_points.len() > 0,
    ensures
        exists|i: int|
            0 <= i < s.data_points.len() && (#[trigger] s.data_points[i]).cpu_percent == s.snapshot(
                averages,
            ).max_cpu,
        exists|i: int|
            0 <= i < s.data_points.len() && (#[trigger] s.data_points[i]).ram_mb == s.snapshot(
                averages,
            ).max_ram_mb,
        exists|i: int|
            0 <= i < s.data_points.len() && (#[trigger] s.data_points[i]).io_read_bytes_per_sec
                + s.data_points[i].io_write_bytes_per_sec == s.snapshot(averages).max_io_bytes,
        exists|i: int|
            0 <= i < s.data_points.len() && (#[trigger] s.data_points[i]).net_recv_bytes_per_sec
                + s.data_points[i].net_sent_bytes_per_sec == s.snapshot(averages).max_net_bytes,
{
    let points = s.data_points;
    lemma_largest(cpu_counts(points));
    lemma_largest(ram_counts(points));
    lemma_largest(io_rates(points));
    lemma_largest(net_rates(points));
    let a = choose|a: int|
        0 <= a < cpu_counts(points).len() && cpu_counts(points)[a] == largest(cpu_counts(points));
    assert(points[a].cpu_percent == s.snapshot(averages).max_cpu);
    let b = choose|b: int|
        0 <= b < ram_counts(points).len() && ram_counts(points)[b] == largest(ram_counts(points));
    assert(points[b].ram_mb == s.snapshot(averages).max_ram_mb);
    let c = choose|c: int|
        0 <= c < io_rates(points).len() && io_rates(points)[c] == largest(io_rates(points));
    assert(points[c].io_read_bytes_per_sec + points[c].io_write_bytes_per_sec == s.snapshot(
        averages,
    ).max_io_bytes);
    let d = choose|d: int|
        0 <= d < net_rates(points).len() && net_rates(points)[d] == largest(net_rates(points));
    assert(points[d].net_recv_bytes_per_sec + points[d].net_sent_bytes_per_sec == s.snapshot(
        averages,
    ).max_net_bytes);
}

/// A snapshot shows every measurement, and the session's settings with the number of measurements.
pub proof fn law_snapshot_shows_the_session(s: SessionView, averages: Averages)
    ensures
        s.snapshot(averages).data_points == s.data_points,
        s.snapshot(averages).info == s.info(),
        s.info().id == s.id,
        s.info().label == s.label,
        s.info().executable == s.executable,
        s.info().interval_ms == s.interval_ms,
        s.info().retention_secs == s.retention_secs,
        s.info().active == s.active,
        s.info().network_enabled == s.network_enabled,
        s.info().started_at == s.started_at,
        s.info().ended_at == s.ended_at,
        s.info().data_point_count == s.data_points.len(),
{
}

/// Sums and maxima are at hand exactly where the byte rates added up stay within 64 bits. The sums
/// are then the rates added up, and the maxima those of the snapshot.
pub proof fn law_totals_are_the_rates_added_up(s: SessionView, averages: Averages)
    ensures
        s.totals_fit() <==> added_io(s.data_points) <= 0xFFFF_FFFF_FFFF_FFFF && added_traffic(
            s.data_points,
        ) <= 0xFFFF_FFFF_FFFF_FFFF,
        s.totals_fit() ==> s.totals().sum_io_bytes == added_io(s.data_points)
            && s.totals().sum_net_bytes == added_traffic(s.data_points),
        s.totals().max_cpu == s.snapshot(averages).max_cpu,
        s.totals().max_ram_mb == s.snapshot(averages).max_ram_mb,
        s.totals().max_io_bytes == s.snapshot(averages).max_io_bytes,
        s.totals().max_net_bytes == s.snapshot(averages).max_net_bytes,
{
    lemma_rates_add_up(s.data_points);
}

/// A JSON export holds the session's settings and every measurement, in its order, and none besides.
pub proof fn law_json_holds_every_measurement(s: SessionView, i: int)
    ensures
        s.export(ExportFormat::Json) is Json,
        s.export(ExportFormat::Json)->data.len() == s.data_points.len(),
        s.export(ExportFormat::Json)->metadata.data_point_count == s.export(
            ExportFormat::Json,
        )->data.len(),
        0 <= i < s.data_points.len() ==> s.export(ExportFormat::Json)->data[i] == s.data_points[i],
        s.export(ExportFormat::Json)->metadata == s.info(),
{
}

/// A CSV export is a head of six comment lines that name the executable, the label, the start, the
/// interval and the number of measurements, an empty line, and a table of the titles and one record
/// for each measurement, in its order.
pub proof fn law_csv_holds_every_measurement(s: SessionView, records: Seq<Seq<Seq<char>>>)
    requires
        records.len() == s.data_points.len() + 1,
        records[0] == seq![
            "Timestamp"@,
            "CPU_%"@,
            "RAM_MB"@,
            "IO_Read_Bps"@,
            "IO_Write_Bps"@,
            "IO_Read_Total"@,
            "IO_Write_Total"@,
            "Net_Recv_Bps"@,
            "Net_Sent_Bps"@,
            "Net_Recv_Total"@,
            "Net_Sent_Total"@,
            "Net_Connections"@,
            "Active_PIDs"@,
        ],
        forall|i: int|
            0 <= i < s.data_points.len() ==> {
                let p = #[trigger] s.data_points[i];
                records[i + 1] == seq![
                    time::iso_text(p.timestamp),
                    text::two_decimals(p.cpu_percent.count as nat),
                    text::two_decimals(p.ram_mb.count as nat),
                    text::decimal(p.io_read_bytes_per_sec as nat),
                    text::decimal(p.io_write_bytes_per_sec as nat),
                    text::decimal(p.io_read_bytes_total as nat),
                    text::decimal(p.io_write_bytes_total as nat),
                    text::decimal(p.net_recv_bytes_per_sec as nat),
                    text::decimal(p.net_sent_bytes_per_sec as nat),
                    text::decimal(p.net_recv_bytes_total as nat),
                    text::decimal(p.net_sent_bytes_total as nat),
                    text::decimal(p.net_connection_count as nat),
                    text::numbers_text(p.active_pids),
                ]
            },
    ensures
        s.export(ExportFormat::Csv) == ExportView::Csv(s.csv_text()),
        s.csv_text() == "# ProcessObserver Session Export\n# Executable: "@ + s.executable
            + "\n# Session: "@ + s.label + "\n# Started: "@ + time::date_and_clock_text(s.started_at)
            + "\n# Interval: "@ + text::decimal(s.interval_ms as nat) + "ms\n# Points: "@
            + text::decimal(s.data_points.len()) + "\n"@ + "\n"@ + table::table_text(records),
{
    assert forall|i: int| 0 <= i < records.len() implies records[i] == export_records(
        s.data_points,
    )[i] by {
        if i > 0 {
            let p = s.data_points[i - 1];
            assert(records[i] == point_record(p));
        }
    }
    assert(records =~= export_records(s.data_points));
}

/// A new session is active, has no end and no measurements, and bears the number and the settings
/// that it was given.
pub proof fn law_new_session(
    counter: u64,
    label: Seq<char>,
    executable: Seq<char>,
    interval_ms: u64,
    retention_secs: u64,
    network_enabled: bool,
    started_at: LocalTime,
)
    ensures
        ({
            let s = new_session(
                counter,
                label,
                executable,
                interval_ms,
                retention_secs,
                network_enabled,
                started_at,
            );
            &&& s.id == "session-"@ + text::decimal(counter as nat)
            &&& s.label == label
            &&& s.executable == executable
            &&& s.interval_ms == interval_ms
            &&& s.retention_secs == retention_secs
            &&& s.network_enabled == network_enabled
            &&& s.started_at == started_at
            &&& s.active
            &&& s.ended_at is None
            &&& s.data_points.len() == 0
        }),
{
}

/// Nanoseconds since the start of 1970.
pub open spec fn in_nanos(at: Timestamp) -> int {
    at.secs * 1_000_000_000 + at.nanos
}

/// A measurement remains exactly if it is at most as old as the retention window is long; a window of
/// no length, or one that reaches beyond the calendar, loses none. Of more than a hundred thousand the
/// fifty thousand oldest go. Those that remain are the same, in the same order, and nothing else in
/// the session changes.
pub proof fn law_retention(s: SessionView, point: DataPointView, now: Timestamp)
    requires
        now.valid(),
        point.timestamp.valid(),
        s.valid(),
    ensures
        ({
            let kept = s.data_points.push(point).filter(
                |p: DataPointView|
                    s.retention_secs == 0 || now.secs - s.retention_secs < -8_334_601_228_800
                        || in_nanos(now) - in_nanos(p.timestamp) <= s.retention_secs * 1_000_000_000,
            );
            s.with_point(point, now) == (SessionView {
                data_points: if kept.len() > 100_000 {
                    kept.skip(50_000)
                } else {
                    kept
                },
                ..s
            })
        }),
{
    let all = s.data_points.push(point);
    let keep = |p: DataPointView|
        s.retention_secs == 0 || now.secs - s.retention_secs < -8_334_601_228_800 || in_nanos(now)
            - in_nanos(p.timestamp) <= s.retention_secs * 1_000_000_000;
    match window_start(s.retention_secs, now) {
        Some(start) => {
            assert forall|i: int| 0 <= i < all.len() implies keep(all[i]) == since(start)(
                #[trigger] all[i],
            ) by {
                let p = all[i];
                assert(p.timestamp.valid());
                assert(start.secs == now.secs - s.retention_secs);
            }
            lemma_same_filter(all, keep, since(start));
        },
        None => {
            lemma_filter_of_all(all, keep);
        },
    }
}

proof fn lemma_same_filter(
    points: Seq<DataPointView>,
    a: spec_fn(DataPointView) -> bool,
    b: spec_fn(DataPointView) -> bool,
)
    requires
        forall|i: int| 0 <= i < points.len() ==> a(points[i]) == b(#[trigger] points[i]),
    ensures
        points.filter(a) == points.filter(b),
    decreases points.len(),
{
    reveal(Seq::filter);
    if points.len() > 0 {
        let rest = points.drop_last();
        assert forall|i: int| 0 <= i < rest.len() implies a(rest[i]) == b(#[trigger] rest[i]) by {
            assert(rest[i] == points[i]);
        }
        lemma_same_filter(rest, a, b);
        assert(points[points.len() - 1] == points.last());
    }
}

proof fn lemma_filter_of_all(points: Seq<DataPointView>, keep: spec_fn(DataPointView) -> bool)
    requires
        forall|i: int| 0 <= i < points.len() ==> keep(#[trigger] points[i]),
    ensures
        points.filter(keep) == points,
    decreases points.len(),
{
    reveal(Seq::filter);
    if points.len() > 0 {
        let rest = points.drop_last();
        assert forall|i: int| 0 <= i < rest.len() implies keep(#[trigger] rest[i]) by {
            assert(rest[i] == points[i]);
        }
        lemma_filter_of_all(rest, keep);
        assert(points[points.len() - 1] == points.last());
        assert(rest.push(points.last()) =~= points);
    } else {
        assert(points.filter(keep) =~= points);
    }
}

/// The measurement that exceeds the hundred thousand costs the fifty thousand oldest of those within
/// the window, and no more.
pub proof fn law_too_many_measurements(s: SessionView, point: DataPointView, now: Timestamp)
    requires
        s.data_points.len() == 100_000,
        forall|i: int|
            0 <= i <= 100_000 ==> is_recent(
                #[trigger] s.data_points.push(point)[i],
                s.retention_secs,
                now,
            ),
    ensures
        s.with_point(point, now).data_points.len() == 50_001,
        s.with_point(point, now).data_points == s.data_points.push(point).skip(50_000),
{
    let all = s.data_points.push(point);
    if let Some(start) = window_start(s.retention_secs, now) {
        assert forall|i: int| 0 <= i < all.len() implies since(start)(#[trigger] all[i]) by {
            assert(is_recent(all[i], s.retention_secs, now));
        }
        lemma_filter_of_all(all, since(start));
    }
}

/// Stopping a session sets its end and nothing else.
pub proof fn law_stop_sets_the_end(s: SessionView, ended_at: LocalTime)
    ensures
        s.stopped(ended_at) == (SessionView { active: false, ended_at: Some(ended_at), ..s }),
{
}

/// The views of a measurement, of a session, of its settings and of its snapshot show their fields.
pub proof fn law_views_show_fields(
    p: DataPoint,
    s: Session,
    info: SessionInfo,
    shown: SessionSnapshot,
    i: int,
)
    ensures
        p@.timestamp == p.timestamp && p@.cpu_percent == p.cpu_percent && p@.ram_mb == p.ram_mb,
        p@.io_read_bytes_per_sec == p.io_read_bytes_per_sec,
        p@.io_write_bytes_per_sec == p.io_write_bytes_per_sec,
        p@.io_read_bytes_total == p.io_read_bytes_total,
        p@.io_write_bytes_total == p.io_write_bytes_total,
        p@.net_recv_bytes_per_sec == p.net_recv_bytes_per_sec,
        p@.net_sent_bytes_per_sec == p.net_sent_bytes_per_sec,
        p@.net_recv_bytes_total == p.net_recv_bytes_total,
        p@.net_sent_bytes_total == p.net_sent_bytes_total,
        p@.net_connection_count == p.net_connection_count,
        p@.active_pids == p.active_pids@,
        s@.id == s.id@ && s@.label == s.label@ && s@.executable == s.executable@,
        s@.interval_ms == s.interval_ms && s@.retention_secs == s.retention_secs,
        s@.active == s.active && s@.network_enabled == s.network_enabled,
        s@.started_at == s.started_at && s@.ended_at == s.ended_at,
        s@.data_points.len() == s.data_points@.len(),
        0 <= i < s.data_points@.len() ==> s@.data_points[i] == s.data_points@[i]@,
        info@.id == info.id@ && info@.label == info.label@,
        info@.executable == info.executable@ && info@.interval_ms == info.interval_ms,
        info@.retention_secs == info.retention_secs && info@.active == info.active,
        info@.network_enabled == info.network_enabled,
        info@.data_point_count == info.data_point_count,
        info@.started_at == info.started_at && info@.ended_at == info.ended_at,
        shown@.info == shown.info@ && shown@.data_points.len() == shown.data_points@.len(),
        0 <= i < shown.data_points@.len() ==> shown@.data_points[i] == shown.data_points@[i]@,
        shown@.max_cpu == shown.max_cpu && shown@.avg_cpu == shown.avg_cpu,
        shown@.max_ram_mb == shown.max_ram_mb && shown@.avg_ram_mb == shown.avg_ram_mb,
        shown@.max_io_bytes == shown.max_io_bytes && shown@.avg_io_bytes == shown.avg_io_bytes,
        shown@.max_net_bytes == shown.max_net_bytes && shown@.avg_net_bytes == shown.avg_net_bytes,
{
}

/// The view of an export shows its text, or its settings and its measurements in their order.
pub proof fn law_export_shows_what_it_holds(export: Export, i: int)
    ensures
        export matches Export::Csv(text) ==> export@ == ExportView::Csv(text@),
        export matches Export::Json { metadata, data } ==> {
            &&& export@ is Json
            &&& export@->metadata == metadata@
            &&& export@->data.len() == data@.len()
            &&& 0 <= i < data@.len() ==> export@->data[i] == data@[i]@
        },
{
}

} // verus!
