//! Process metrics, and the processes of the system by name.

use std::collections::HashMap;
use vstd::prelude::*;
use vstd::std_specs::hash::*;
use vstd::string::*;

use crate::text;
use crate::utf16;

verus! {

broadcast use {vstd::std_specs::hash::group_hash_axioms, vstd::string::group_string_axioms};

/// A duration of the operating system, in units of 100 nanoseconds, in two halves.
#[derive(Debug, Clone, Copy, PartialEq, Eq, Structural)]
pub struct FileTime {
    pub low: u32,
    pub high: u32,
}

impl FileTime {
    /// The number whose halves these are.
    pub open spec fn value(self) -> nat {
        self.high as nat * 0x1_0000_0000 + self.low as nat
    }
}

/// Puts the halves of a duration together.
pub fn filetime_to_u64(ft: &FileTime) -> (res: u64)
    ensures
        res == ft.value(),
{
    let high: u64 = ft.high as u64;
    let low: u64 = ft.low as u64;
    assert((high << 32) | low == high * 0x1_0000_0000 + low) by (bit_vector)
        requires
            high <= 0xFFFF_FFFF,
            low <= 0xFFFF_FFFF,
    ;
    (high << 32) | low
}

/// The processor time that a process has used, and when it was read.
#[derive(Debug, Clone, Copy, PartialEq, Eq, Structural)]
pub struct CpuSample {
    /// Time in the kernel, in units of 100 nanoseconds.
    pub kernel: u64,
    /// Time outside the kernel, in units of 100 nanoseconds.
    pub user: u64,
    /// When it was read, in nanoseconds on a clock that never goes back.
    pub at: u64,
}

/// The processor time that a process has used within an interval, both in units of 100 nanoseconds.
/// The interval has some length.
#[derive(Debug, Clone, Copy, PartialEq, Eq, Structural)]
pub struct CpuUsage {
    pub busy: u64,
    pub elapsed: u64,
}

/// How much a counter has grown; a counter that went back has not.
pub open spec fn growth(before: u64, after: u64) -> nat {
    if after >= before {
        (after - before) as nat
    } else {
        0
    }
}

/// The processor time used since the last sample: nothing is known of it without one, nor before
/// one unit of time has passed. It counts as no more than the interval itself, on however many
/// processors it was used.
pub open spec fn usage_since(last: Option<CpuSample>, sample: CpuSample) -> Option<CpuUsage> {
    match last {
        None => None,
        Some(last) => {
            let elapsed = growth(last.at, sample.at) / 100;
            let busy = growth(last.kernel, sample.kernel) + growth(last.user, sample.user);
            if elapsed > 0 {
                Some(
                    CpuUsage {
                        busy: (if busy > elapsed {
                            elapsed
                        } else {
                            busy
                        }) as u64,
                        elapsed: elapsed as u64,
                    },
                )
            } else {
                None
            }
        },
    }
}

/// Whether the processor time used since the last sample stays within 64 bits.
pub open spec fn usage_fits(last: Option<CpuSample>, sample: CpuSample) -> bool {
    last matches Some(last) ==> growth(last.at, sample.at) / 100 > 0 ==> growth(
        last.kernel,
        sample.kernel,
    ) + growth(last.user, sample.user) <= u64::MAX
}

/// The load of a process is at most full, and its interval has some length.
pub proof fn law_load_is_at_most_full(last: Option<CpuSample>, sample: CpuSample)
    ensures
        usage_since(last, sample) matches Some(usage) ==> usage.busy <= usage.elapsed && 0
            < usage.elapsed,
{
}

/// The value under a key, if any.
pub open spec fn value_at<V>(map: Map<u32, V>, key: u32) -> Option<V> {
    if map.dom().contains(key) {
        Some(map[key])
    } else {
        None
    }
}

/// The last sample of each process, needed for the processor load across intervals.
pub struct CpuCache {
    entries: HashMap<u32, CpuSample>,
}

impl View for CpuCache {
    type V = Map<u32, CpuSample>;

    closed spec fn view(&self) -> Map<u32, CpuSample> {
        self.entries@
    }
}

impl CpuCache {
    /// A cache without samples.
    pub fn new() -> (res: CpuCache)
        ensures
            res@ == Map::<u32, CpuSample>::empty(),
    {
        CpuCache { entries: HashMap::new() }
    }

    /// Whether the processor time used since the last sample stays within 64 bits.
    pub fn accepts(&self, pid: u32, sample: &CpuSample) -> (res: bool)
        ensures
            res == usage_fits(value_at(self@, pid), *sample),
    {
        match self.entries.get(&pid) {
            None => true,
            Some(last) => {
                let elapsed: u64 = sample.at.saturating_sub(last.at) / 100;
                let kernel: u64 = sample.kernel.saturating_sub(last.kernel);
                let user: u64 = sample.user.saturating_sub(last.user);
                elapsed == 0 || kernel.checked_add(user).is_some()
            },
        }
    }

    /// Takes the next sample of a process and gives the processor time used since the last one.
    pub fn observe(&mut self, pid: u32, sample: CpuSample) -> (res: Option<CpuUsage>)
        requires
            usage_fits(value_at(old(self)@, pid), sample),
        ensures
            res == usage_since(value_at(old(self)@, pid), sample),
            final(self)@ == old(self)@.insert(pid, sample),
    {
        let usage = match self.entries.get(&pid) {
            None => None,
            Some(last) => {
                let elapsed: u64 = sample.at.saturating_sub(last.at) / 100;
                if elapsed > 0 {
                    let kernel: u64 = sample.kernel.saturating_sub(last.kernel);
                    let user: u64 = sample.user.saturating_sub(last.user);
                    let busy: u64 = kernel + user;
                    Some(
                        CpuUsage {
                            busy: if busy > elapsed {
                                elapsed
                            } else {
                                busy
                            },
                            elapsed,
                        },
                    )
                } else {
                    None
                }
            },
        };
        self.entries.insert(pid, sample);
        usage
    }
}

/// Aggregated process metrics.
#[derive(Debug, Clone, Copy, PartialEq, Eq, Structural)]
pub struct ProcessMetrics {
    /// The processor time used since the last collection, where something is known of it.
    pub cpu: Option<CpuUsage>,
    pub working_set_bytes: u64,
    pub io_read_bytes: u64,
    pub io_write_bytes: u64,
}

/// The processor times of a process.
#[derive(Debug, Clone, Copy, PartialEq, Eq, Structural)]
pub struct ProcessTimes {
    pub kernel: FileTime,
    pub user: FileTime,
}

/// What the query for the input and output counters of a process answered: zero where it failed,
/// and the counters.
#[derive(Debug, Clone, Copy, PartialEq, Eq, Structural)]
pub struct IoAnswer {
    pub ret: i32,
    pub read_transfer_count: u64,
    pub write_transfer_count: u64,
}

/// What the operating system answered about an open process. Failures are given by their
/// descriptions.
#[derive(Debug)]
pub struct ProcessReading {
    pub times: Result<ProcessTimes, String>,
    pub working_set: Result<u64, String>,
    pub io: IoAnswer,
}

impl IoAnswer {
    /// The bytes read and written: none where the query failed.
    pub open spec fn counters(self) -> (u64, u64) {
        if self.ret == 0 {
            (0, 0)
        } else {
            (self.read_transfer_count, self.write_transfer_count)
        }
    }
}

impl ProcessTimes {
    /// The sample that these times are, read at the given time.
    pub open spec fn sample(self, now: u64) -> CpuSample {
        CpuSample {
            kernel: self.kernel.value() as u64,
            user: self.user.value() as u64,
            at: now,
        }
    }
}

/// The message for a process that cannot be opened.
pub open spec fn open_failure(pid: u32, detail: Seq<char>) -> Seq<char> {
    "OpenProcess failed for PID "@ + text::decimal(pid as nat) + ": "@ + detail
}

/// The message for a process whose times cannot be read.
pub open spec fn times_failure(pid: u32, detail: Seq<char>) -> Seq<char> {
    "GetProcessTimes failed for PID "@ + text::decimal(pid as nat) + ": "@ + detail
}

/// The message for a process whose memory cannot be measured.
pub open spec fn memory_failure(detail: Seq<char>) -> Seq<char> {
    "GetProcessMemoryInfo failed: "@ + detail
}

/// A message about a process.
fn process_failure(call: &str, pid: u32, detail: &str) -> (res: String)
    ensures
        res@ == call@ + text::decimal(pid as nat) + ": "@ + detail@,
{
    let mut res = String::from_str(call);
    res.append(text::decimal_string(pid as u64).as_str());
    res.append(": ");
    res.append(detail);
    res
}

impl ProcessMetrics {
    /// The bytes read and written: none where the query failed.
    fn get_io_counters(io: &IoAnswer) -> (res: (u64, u64))
        ensures
            res == io.counters(),
    {
        if io.ret == 0 {
            (0, 0)
        } else {
            (io.read_transfer_count, io.write_transfer_count)
        }
    }

    /// Collects all metrics for a process from what the operating system answered about it at the
    /// given time, in nanoseconds on a clock that never goes back. Where the process could not be
    /// opened there is no reading but a description of the failure. A failure to measure the memory
    /// comes after the processor times were taken up.
    pub fn collect(
        cache: &mut CpuCache,
        pid: u32,
        reading: Result<ProcessReading, String>,
        now: u64,
    ) -> (res: Result<ProcessMetrics, String>)
        requires
            reading matches Ok(r) ==> r.times matches Ok(times) ==> usage_fits(
                value_at(old(cache)@, pid),
                times.sample(now),
            ),
        ensures
            match reading {
                Err(detail) => {
                    &&& res is Err
                    &&& res->Err_0@ == open_failure(pid, detail@)
                    &&& final(cache)@ == old(cache)@
                },
                Ok(r) => match r.times {
                    Err(detail) => {
                        &&& res is Err
                        &&& res->Err_0@ == times_failure(pid, detail@)
                        &&& final(cache)@ == old(cache)@
                    },
                    Ok(times) => {
                        &&& final(cache)@ == old(cache)@.insert(pid, times.sample(now))
                        &&& match r.working_set {
                            Err(detail) => {
                                &&& res is Err
                                &&& res->Err_0@ == memory_failure(detail@)
                            },
                            Ok(bytes) => {
                                &&& res is Ok
                                &&& res->Ok_0 == (ProcessMetrics {
                                    cpu: usage_since(
                                        value_at(old(cache)@, pid),
                                        times.sample(now),
                                    ),
                                    working_set_bytes: bytes,
                                    io_read_bytes: r.io.counters().0,
                                    io_write_bytes: r.io.counters().1,
                                })
                            },
                        }
                    },
                },
            },
    {
        let r = match reading {
            Ok(r) => r,
            Err(detail) => {
                return Err(process_failure("OpenProcess failed for PID ", pid, detail.as_str()));
            },
        };
        let times = match r.times {
            Ok(times) => times,
            Err(detail) => {
                return Err(
                    process_failure("GetProcessTimes failed for PID ", pid, detail.as_str()),
                );
            },
        };
        let cpu = cache.observe(
            pid,
            CpuSample {
                kernel: filetime_to_u64(&times.kernel),
                user: filetime_to_u64(&times.user),
                at: now,
            },
        );
        match r.working_set {
            Ok(working_set_bytes) => {
                let (io_read_bytes, io_write_bytes) = ProcessMetrics::get_io_counters(&r.io);
                Ok(ProcessMetrics { cpu, working_set_bytes, io_read_bytes, io_write_bytes })
            },
            Err(detail) => Err(
                String::from_str("GetProcessMemoryInfo failed: ").concat(detail.as_str()),
            ),
        }
    }
}

/// An entry of the list of all processes: an identifier, and the buffer that holds the name of the
/// executable file.
#[derive(Debug)]
pub struct ProcessEntry {
    pub pid: u32,
    pub exe_file: Vec<u16>,
}

/// What an entry holds.
pub struct ProcessEntryView {
    pub pid: u32,
    pub exe_file: Seq<u16>,
}

impl View for ProcessEntry {
    type V = ProcessEntryView;

    open spec fn view(&self) -> ProcessEntryView {
        ProcessEntryView { pid: self.pid, exe_file: self.exe_file@ }
    }
}

impl ProcessEntryView {
    /// The name of the executable file.
    pub open spec fn name(self) -> Seq<char> {
        text::without_trailing_zeros(utf16::decode_utf16(self.exe_file))
    }

    /// The name of the executable file in lower case.
    pub open spec fn lower_name(self) -> Seq<char> {
        text::lowered(self.name())
    }
}

/// What is known of the lower-case forms of the names.
pub open spec fn names_lower(entries: Seq<ProcessEntryView>) -> bool {
    forall|i: int| 0 <= i < entries.len() ==> text::lowers(#[trigger] entries[i].name())
}

/// What a list of entries holds.
pub open spec fn entries_view(entries: Seq<ProcessEntry>) -> Seq<ProcessEntryView> {
    entries.map_values(|e: ProcessEntry| e@)
}

/// The names in a list of entries, in lower case.
pub open spec fn lower_names(entries: Seq<ProcessEntryView>) -> Seq<Seq<char>> {
    entries.map_values(|e: ProcessEntryView| e.lower_name())
}

/// The message for a list of processes that cannot be had.
pub open spec fn snapshot_failure(detail: Seq<char>) -> Seq<char> {
    "CreateToolhelp32Snapshot failed: "@ + detail
}

impl ProcessEntry {
    /// The name of the executable file.
    pub fn name(&self) -> (res: String)
        ensures
            res@ == self@.name(),
    {
        let mut chars = utf16::decode_utf16_lossy(&self.exe_file);
        text::trim_zeros(&mut chars);
        text::string_of(&chars)
    }
}

/// Lists the names in a list of entries, in lower case.
fn list_lower_names(entries: &Vec<ProcessEntry>) -> (res: Vec<String>)
    ensures
        text::texts(res@) == lower_names(entries_view(entries@)),
        names_lower(entries_view(entries@)),
{
    let mut names: Vec<String> = Vec::new();
    let ghost all = lower_names(entries_view(entries@));
    let ghost views = entries_view(entries@);
    for i in 0..entries.len()
        invariant
            views == entries_view(entries@),
            all == lower_names(views),
            text::texts(names@) == all.take(i as int),
            forall|j: int| 0 <= j < i ==> text::lowers(#[trigger] views[j].name()),
    {
        let ghost before = names@;
        assert(views[i as int] == entries@[i as int]@);
        let name = entries[i].name().to_lowercase();
        assert(all[i as int] == name@);
        names.push(name);
        assert(text::texts(names@) =~= text::texts(before).push(name@));
        assert(text::texts(names@) =~= all.take(i + 1));
    }
    assert(all.take(all.len() as int) == all);
    names
}

/// Whether texts stand in ascending order, none twice.
pub open spec fn ascending(names: Seq<Seq<char>>) -> bool {
    forall|i: int, j: int|
        0 <= i < j < names.len() ==> text::text_before(#[trigger] names[i], #[trigger] names[j])
}

/// Whether a name is to be listed: it is one of the given ones, and not empty.
pub open spec fn is_listed(names: Seq<Seq<char>>, name: Seq<char>) -> bool {
    names.contains(name) && name.len() > 0
}

/// Whether a list of names is another one without empty names, in ascending order, none twice.
pub open spec fn is_sorted_list(sorted: Seq<Seq<char>>, names: Seq<Seq<char>>) -> bool {
    &&& ascending(sorted)
    &&& forall|n: Seq<char>| #[trigger] sorted.contains(n) <==> is_listed(names, n)
}

/// Puts a name into its place in a list in ascending order, unless it is already there.
fn insert_name(names: &mut Vec<String>, name: String)
    requires
        ascending(text::texts(old(names)@)),
    ensures
        ascending(text::texts(final(names)@)),
        forall|n: Seq<char>| #[trigger]
            text::texts(final(names)@).contains(n) <==> text::texts(old(names)@).contains(n) || n
                == name@,
{
    let ghost before = text::texts(names@);
    let mut i: usize = 0;
    while i < names.len() && text::is_before(names[i].as_str(), name.as_str())
        invariant
            i <= names.len(),
            before == text::texts(names@),
            forall|j: int| 0 <= j < i ==> text::text_before(#[trigger] before[j], name@),
        decreases names.len() - i,
    {
        assert(before[i as int] == names@[i as int]@);
        i = i + 1;
    }
    if i < names.len() && text::same_text(names[i].as_str(), name.as_str()) {
        assert(before[i as int] == name@);
        assert(before.contains(name@));
        return ;
    }
    names.insert(i, name);
    proof {
        let after = text::texts(names@);
        assert(after =~= before.insert(i as int, name@));
        lemma_insert_ascending(before, i as int, name@);
    }
}

proof fn lemma_insert_ascending(before: Seq<Seq<char>>, i: int, name: Seq<char>)
    requires
        ascending(before),
        0 <= i <= before.len(),
        forall|j: int| 0 <= j < i ==> text::text_before(#[trigger] before[j], name),
        i < before.len() ==> !text::text_before(before[i], name) && before[i] != name,
    ensures
        ascending(before.insert(i, name)),
        forall|n: Seq<char>| #[trigger]
            before.insert(i, name).contains(n) <==> before.contains(n) || n == name,
{
    let after = before.insert(i, name);
    assert forall|j: int| i <= j < before.len() implies text::text_before(
        name,
        #[trigger] before[j],
    ) by {
        text::lemma_text_before_is_total(before[i], name);
        if i < j {
            text::lemma_text_before_is_transitive(name, before[i], before[j]);
        }
    }
    assert forall|a: int, b: int| 0 <= a < b < after.len() implies text::text_before(
        #[trigger] after[a],
        #[trigger] after[b],
    ) by {
        if a < i && b > i {
            assert(after[b] == before[b - 1]);
        } else if a > i {
            assert(after[a] == before[a - 1]);
            assert(after[b] == before[b - 1]);
        } else if a == i {
            assert(after[b] == before[b - 1]);
        }
    }
    assert forall|n: Seq<char>| #[trigger] after.contains(n) <==> before.contains(n) || n
        == name by {
        if before.contains(n) {
            let k = choose|k: int| 0 <= k < before.len() && before[k] == n;
            let m = if k < i {
                k
            } else {
                k + 1
            };
            assert(after[m] == n);
        }
        if n == name {
            assert(after[i] == n);
        }
        if after.contains(n) {
            let k = choose|k: int| 0 <= k < after.len() && after[k] == n;
            if k < i {
                assert(before[k] == n);
            } else if k > i {
                assert(before[k - 1] == n);
            }
        }
    }
}

/// Sorts names, without the empty ones and without repetitions.
pub fn sort_names(names: Vec<String>) -> (res: Vec<String>)
    ensures
        is_sorted_list(text::texts(res@), text::texts(names@)),
{
    let mut res: Vec<String> = Vec::new();
    let ghost all = text::texts(names@);
    for name in it: names
        invariant
            all == text::texts(it.seq()),
            is_sorted_list(text::texts(res@), all.take(it.index())),
    {
        let ghost i = it.index();
        let ghost before = text::texts(res@);
        let ghost text = name@;
        assert(all[i] == text);
        if !name.as_str().is_empty() {
            insert_name(&mut res, name);
        }
        assert forall|n: Seq<char>| #[trigger] text::texts(res@).contains(n) <==> all.take(
            i + 1,
        ).contains(n) && n.len() > 0 by {
            let more = all.take(i + 1);
            if all.take(i).contains(n) {
                let k = choose|k: int| 0 <= k < i && all.take(i)[k] == n;
                assert(more[k] == n);
            }
            assert(more[i] == text);
            if more.contains(n) && n != text {
                let k = choose|k: int| 0 <= k < more.len() && more[k] == n;
                assert(all.take(i)[k] == n);
            }
            assert(before.contains(n) <==> all.take(i).contains(n) && n.len() > 0);
        }
    }
    assert(all.take(all.len() as int) == all);
    res
}

/// Enumerates all running process names for autocomplete suggestions, given the list of processes
/// or a description of why it cannot be had.
pub fn enumerate_process_names(snapshot: Result<Vec<ProcessEntry>, String>) -> (res: Result<
    Vec<String>,
    String,
>)
    ensures
        match snapshot {
            Ok(entries) => {
                &&& res is Ok
                &&& is_sorted_list(
                    text::texts(res->Ok_0@),
                    lower_names(entries_view(entries@)),
                )
                &&& names_lower(entries_view(entries@))
            },
            Err(detail) => {
                &&& res is Err
                &&& res->Err_0@ == snapshot_failure(detail@)
            },
        },
{
    match snapshot {
        Ok(entries) => Ok(sort_names(list_lower_names(&entries))),
        Err(detail) => Err(
            String::from_str("CreateToolhelp32Snapshot failed: ").concat(detail.as_str()),
        ),
    }
}

/// The identifiers at the places where a name stands.
pub open spec fn pids_at_name(
    pids: Seq<u32>,
    names: Seq<Seq<char>>,
    name: Seq<char>,
) -> Seq<u32>
    decreases names.len(),
{
    if names.len() == 0 {
        Seq::empty()
    } else {
        let rest = pids_at_name(pids.drop_last(), names.drop_last(), name);
        if names.last() == name {
            rest.push(pids.last())
        } else {
            rest
        }
    }
}

/// Picks the identifiers at the places where a name stands.
pub fn pick_pids(pids: &Vec<u32>, names: &Vec<String>, name: &str) -> (res: Vec<u32>)
    requires
        pids@.len() == names@.len(),
    ensures
        res@ == pids_at_name(pids@, text::texts(names@), name@),
{
    let mut res: Vec<u32> = Vec::new();
    let ghost all = text::texts(names@);
    for i in 0..pids.len()
        invariant
            pids@.len() == names@.len(),
            all == text::texts(names@),
            res@ == pids_at_name(pids@.take(i as int), all.take(i as int), name@),
    {
        assert(pids@.take(i + 1).drop_last() == pids@.take(i as int));
        assert(all.take(i + 1).drop_last() == all.take(i as int));
        assert(all[i as int] == names@[i as int]@);
        if text::same_text(names[i].as_str(), name) {
            res.push(pids[i]);
        }
    }
    assert(pids@.take(pids@.len() as int) == pids@);
    assert(all.take(all.len() as int) == all);
    res
}

/// The identifiers of the processes with the given name, whatever its case.
pub open spec fn pids_with_name(entries: Seq<ProcessEntryView>, name: Seq<char>) -> Seq<u32> {
    pids_at_name(
        entries.map_values(|e: ProcessEntryView| e.pid),
        lower_names(entries),
        text::lowered(name),
    )
}

/// Finds all processes with a given executable name (case-insensitive), given the list of processes
/// or a description of why it cannot be had.
pub fn find_pids_by_name(name: &str, snapshot: Result<Vec<ProcessEntry>, String>) -> (res: Result<
    Vec<u32>,
    String,
>)
    ensures
        match snapshot {
            Ok(entries) => {
                &&& res is Ok
                &&& res->Ok_0@ == pids_with_name(entries_view(entries@), name@)
                &&& name@.len() > 0 ==> (res->Ok_0@.len() > 0 <==> is_listed(
                    lower_names(entries_view(entries@)),
                    text::lowered(name@),
                ))
                &&& names_lower(entries_view(entries@))
                &&& text::lowers(name@)
            },
            Err(detail) => {
                &&& res is Err
                &&& res->Err_0@ == snapshot_failure(detail@)
            },
        },
{
    let lower = name.to_lowercase();
    match snapshot {
        Ok(entries) => {
            let mut pids: Vec<u32> = Vec::new();
            let ghost all = entries_view(entries@).map_values(|e: ProcessEntryView| e.pid);
            for i in 0..entries.len()
                invariant
                    all == entries_view(entries@).map_values(|e: ProcessEntryView| e.pid),
                    pids@ == all.take(i as int),
            {
                pids.push(entries[i].pid);
                assert(pids@ =~= all.take(i + 1));
            }
            assert(all.take(all.len() as int) == all);
            let names = list_lower_names(&entries);
            assert(names@.len() == text::texts(names@).len());
            proof {
                lemma_pids_at_name_exist(all, text::texts(names@), lower@);
            }
            Ok(pick_pids(&pids, &names, lower.as_str()))
        },
        Err(detail) => Err(
            String::from_str("CreateToolhelp32Snapshot failed: ").concat(detail.as_str()),
        ),
    }
}

proof fn lemma_pids_at_name_exist(pids: Seq<u32>, names: Seq<Seq<char>>, name: Seq<char>)
    requires
        pids.len() == names.len(),
    ensures
        pids_at_name(pids, names, name).len() > 0 <==> names.contains(name),
    decreases names.len(),
{
    if names.len() > 0 {
        let rest = names.drop_last();
        lemma_pids_at_name_exist(pids.drop_last(), rest, name);
        if rest.contains(name) {
            let i = choose|i: int| 0 <= i < rest.len() && rest[i] == name;
            assert(names[i] == name);
        }
        if names.last() == name {
            assert(names[names.len() - 1] == name);
        } else if names.contains(name) {
            let i = choose|i: int| 0 <= i < names.len() && names[i] == name;
            assert(rest[i] == name);
        }
    }
}

/// A name finds a process exactly if its lower-case form, which is not empty, is among the
/// suggestions.
pub proof fn law_suggested_names_are_found(
    entries: Seq<ProcessEntryView>,
    suggestions: Seq<Seq<char>>,
    name: Seq<char>,
)
    requires
        is_sorted_list(suggestions, lower_names(entries)),
        text::lowered(name).len() > 0,
    ensures
        pids_with_name(entries, name).len() > 0 <==> suggestions.contains(text::lowered(name)),
{
    lemma_pids_at_name_exist(
        entries.map_values(|e: ProcessEntryView| e.pid),
        lower_names(entries),
        text::lowered(name),
    );
}

/// Names with the same lower-case form find the same processes.
pub proof fn law_find_goes_by_lower_case(
    entries: Seq<ProcessEntryView>,
    a: Seq<char>,
    b: Seq<char>,
)
    requires
        text::lowered(a) == text::lowered(b),
    ensures
        pids_with_name(entries, a) == pids_with_name(entries, b),
{
}

/// Names that differ only in the case of the letters A to Z find the same processes.
pub proof fn law_find_ignores_case(entries: Seq<ProcessEntryView>, a: Seq<char>, b: Seq<char>)
    requires
        text::ascii_lowercase(a) == text::ascii_lowercase(b),
    ensures
        pids_with_name(entries, a) == pids_with_name(entries, b),
{
}

proof fn lemma_pids_at_name(pids: Seq<u32>, names: Seq<Seq<char>>, name: Seq<char>, pid: u32)
    requires
        pids.len() == names.len(),
    ensures
        pids_at_name(pids, names, name).contains(pid) <==> exists|i: int|
            0 <= i < pids.len() && #[trigger] pids[i] == pid && names[i] == name,
    decreases names.len(),
{
    let found = pids_at_name(pids, names, name);
    if names.len() > 0 {
        let pids0 = pids.drop_last();
        let names0 = names.drop_last();
        let rest = pids_at_name(pids0, names0, name);
        lemma_pids_at_name(pids0, names0, name, pid);
        if rest.contains(pid) {
            let i = choose|i: int|
                0 <= i < pids0.len() && #[trigger] pids0[i] == pid && names0[i] == name;
            assert(pids[i] == pid && names[i] == name);
            let k = choose|k: int| 0 <= k < rest.len() && rest[k] == pid;
            assert(found[k] == pid);
        }
        if names.last() == name && pids.last() == pid {
            assert(found[found.len() - 1] == pid);
            assert(pids[pids.len() - 1] == pid);
        }
        if found.contains(pid) && !rest.contains(pid) {
            let k = choose|k: int| 0 <= k < found.len() && found[k] == pid;
            if k < rest.len() {
                assert(rest[k] == pid);
            }
            assert(pids[pids.len() - 1] == pid);
        }
        if exists|i: int| 0 <= i < pids.len() && #[trigger] pids[i] == pid && names[i] == name {
            let i = choose|i: int|
                0 <= i < pids.len() && #[trigger] pids[i] == pid && names[i] == name;
            if i < pids0.len() {
                assert(pids0[i] == pid && names0[i] == name);
            }
        }
    }
}

/// Exactly the processes whose name is the given one, but for its case, are found.
pub proof fn law_find_is_exact(entries: Seq<ProcessEntryView>, name: Seq<char>, pid: u32)
    ensures
        pids_with_name(entries, name).contains(pid) <==> exists|i: int|
            0 <= i < entries.len() && (#[trigger] entries[i]).pid == pid && text::lowered(
                entries[i].name(),
            ) == text::lowered(name),
{
    let pids = entries.map_values(|e: ProcessEntryView| e.pid);
    let names = lower_names(entries);
    let lower = text::lowered(name);
    lemma_pids_at_name(pids, names, lower, pid);
    if pids_with_name(entries, name).contains(pid) {
        let i = choose|i: int| 0 <= i < pids.len() && #[trigger] pids[i] == pid && names[i] == lower;
        assert(entries[i].pid == pid);
    }
    if exists|i: int|
        0 <= i < entries.len() && (#[trigger] entries[i]).pid == pid && text::lowered(
            entries[i].name(),
        ) == lower {
        let i = choose|i: int|
            0 <= i < entries.len() && (#[trigger] entries[i]).pid == pid && text::lowered(
                entries[i].name(),
            ) == lower;
        assert(pids[i] == pid && names[i] == lower);
    }
}

proof fn lemma_last_is_not_before(sorted: Seq<Seq<char>>, n: Seq<char>)
    requires
        ascending(sorted),
        sorted.contains(n),
    ensures
        n == sorted.last() || text::text_before(n, sorted.last()),
{
    let i = choose|i: int| 0 <= i < sorted.len() && sorted[i] == n;
    if i < sorted.len() - 1 {
        assert(text::text_before(sorted[i], sorted[sorted.len() - 1]));
    }
}

proof fn lemma_ascending_is_unique(a: Seq<Seq<char>>, b: Seq<Seq<char>>)
    requires
        ascending(a),
        ascending(b),
        forall|n: Seq<char>| #[trigger] a.contains(n) <==> b.contains(n),
    ensures
        a == b,
    decreases a.len(),
{
    if a.len() == 0 {
        if b.len() > 0 {
            assert(b.contains(b[0]));
            assert(a.contains(b[0]));
        }
        assert(a =~= b);
    } else {
        assert(a.contains(a[a.len() - 1]));
        assert(b.contains(a.last()));
        assert(b.contains(b[b.len() - 1]));
        assert(a.contains(b.last()));
        lemma_last_is_not_before(b, a.last());
        lemma_last_is_not_before(a, b.last());
        if a.last() != b.last() {
            text::lemma_text_before_is_transitive(a.last(), b.last(), a.last());
            text::lemma_text_before_is_total(a.last(), a.last());
        }
        let a0 = a.drop_last();
        let b0 = b.drop_last();
        assert forall|n: Seq<char>| #[trigger] a0.contains(n) <==> b0.contains(n) by {
            lemma_without_last(a, n);
            lemma_without_last(b, n);
            assert(a.contains(n) <==> b.contains(n));
        }
        assert forall|i: int, j: int| 0 <= i < j < a0.len() implies text::text_before(
            #[trigger] a0[i],
            #[trigger] a0[j],
        ) by {
            assert(text::text_before(a[i], a[j]));
        }
        assert forall|i: int, j: int| 0 <= i < j < b0.len() implies text::text_before(
            #[trigger] b0[i],
            #[trigger] b0[j],
        ) by {
            assert(text::text_before(b[i], b[j]));
        }
        lemma_ascending_is_unique(a0, b0);
        assert(a =~= a0.push(a.last()));
        assert(b =~= b0.push(b.last()));
    }
}

proof fn lemma_without_last(s: Seq<Seq<char>>, n: Seq<char>)
    requires
        ascending(s),
        s.len() > 0,
    ensures
        s.drop_last().contains(n) <==> s.contains(n) && n != s.last(),
{
    let rest = s.drop_last();
    if rest.contains(n) {
        let i = choose|i: int| 0 <= i < rest.len() && rest[i] == n;
        assert(s[i] == n);
        assert(text::text_before(s[i], s[s.len() - 1]));
        text::lemma_text_before_is_total(n, n);
    }
    if s.contains(n) && n != s.last() {
        let i = choose|i: int| 0 <= i < s.len() && s[i] == n;
        assert(rest[i] == n);
    }
}

/// There is but one list of the names in ascending order.
pub proof fn law_sorted_list_is_unique(
    a: Seq<Seq<char>>,
    b: Seq<Seq<char>>,
    names: Seq<Seq<char>>,
)
    requires
        is_sorted_list(a, names),
        is_sorted_list(b, names),
    ensures
        a == b,
{
    assert forall|n: Seq<char>| #[trigger] a.contains(n) <==> b.contains(n) by {
        assert(b.contains(n) <==> names.contains(n) && n.len() > 0);
    }
    lemma_ascending_is_unique(a, b);
}

proof fn lemma_zeros_decode(n: nat)
    ensures
        utf16::decode_utf16(Seq::new(n, |i: int| 0u16)) == Seq::new(n, |i: int| '\0'),
    decreases n,
{
    let units = Seq::new(n, |i: int| 0u16);
    if n > 0 {
        let rest = (n - 1) as nat;
        lemma_zeros_decode(rest);
        assert(units.skip(1) =~= Seq::new(rest, |i: int| 0u16));
        assert(seq!['\0'] + Seq::new(rest, |i: int| '\0') =~= Seq::new(n, |i: int| '\0'));
        assert(utf16::decode_utf16(units) =~= Seq::new(n, |i: int| '\0'));
    } else {
        assert(utf16::decode_utf16(units) =~= Seq::new(n, |i: int| '\0'));
    }
}

proof fn lemma_zeros_trimmed(s: Seq<char>, n: nat)
    requires
        s.len() > 0 ==> s.last() != '\0',
    ensures
        text::without_trailing_zeros(s + Seq::new(n, |i: int| '\0')) == s,
    decreases n,
{
    let padded = s + Seq::new(n, |i: int| '\0');
    if n > 0 {
        let rest = (n - 1) as nat;
        lemma_zeros_trimmed(s, rest);
        assert(padded.drop_last() =~= s + Seq::new(rest, |i: int| '\0'));
    } else {
        assert(padded =~= s);
    }
}

/// A name that stands at the start of a buffer otherwise filled with zeros is read back.
pub proof fn law_process_name_is_read_back(name: Seq<char>, pid: u32, padding: nat)
    requires
        name.len() > 0 ==> name.last() != '\0',
    ensures
        (ProcessEntryView {
            pid,
            exe_file: utf16::encode_utf16(name) + Seq::new(padding, |i: int| 0u16),
        }).name() == name,
{
    utf16::lemma_decode_encoded_prefix(name, Seq::new(padding, |i: int| 0u16));
    lemma_zeros_decode(padding);
    lemma_zeros_trimmed(name, padding);
}

/// The processor time used since the last sample, if at least 100 nanoseconds have passed: the
/// interval is rounded down to units of that length, and what was used in the kernel and outside of
/// it, each counter for as much as it has grown, counts together, but for no more than the interval.
pub proof fn law_usage_since_last_sample(last: CpuSample, sample: CpuSample)
    requires
        usage_fits(Some(last), sample),
    ensures
        usage_since(None, sample) is None,
        usage_since(Some(last), sample) is Some <==> sample.at >= last.at + 100,
        usage_since(Some(last), sample) matches Some(usage) ==> {
            let kernel = if sample.kernel > last.kernel {
                sample.kernel - last.kernel
            } else {
                0
            };
            let user = if sample.user > last.user {
                sample.user - last.user
            } else {
                0
            };
            &&& 100 * usage.elapsed <= sample.at - last.at < 100 * (usage.elapsed + 1)
            &&& kernel + user <= usage.elapsed ==> usage.busy == kernel + user
            &&& kernel + user > usage.elapsed ==> usage.busy == usage.elapsed
        },
{
}

/// A sample is taken unless the processor time used since the last one exceeds 64 bits.
pub proof fn law_usage_fits(last: CpuSample, sample: CpuSample)
    ensures
        usage_fits(None, sample),
        sample.at < last.at + 100 ==> usage_fits(Some(last), sample),
        sample.kernel <= last.kernel || sample.user <= last.user ==> usage_fits(
            Some(last),
            sample,
        ),
        sample.kernel > last.kernel && sample.user > last.user && sample.at >= last.at + 100 ==> (
        usage_fits(Some(last), sample) <==> (sample.kernel - last.kernel) + (sample.user
            - last.user) <= 0xFFFF_FFFF_FFFF_FFFF),
{
}

/// What the operating system answers is taken as it is: durations by their halves, the counters
/// unless the query failed.
pub proof fn law_answers_are_taken_as_they_are(
    time: FileTime,
    times: ProcessTimes,
    io: IoAnswer,
    now: u64,
)
    ensures
        time.value() == time.high * 4_294_967_296 + time.low,
        times.sample(now).kernel == times.kernel.high * 4_294_967_296 + times.kernel.low,
        times.sample(now).user == times.user.high * 4_294_967_296 + times.user.low,
        times.sample(now).at == now,
        io.ret == 0 ==> io.counters() == (0u64, 0u64),
        io.ret != 0 ==> io.counters() == (io.read_transfer_count, io.write_transfer_count),
{
}

/// A failure names the call, the process where there is one, and the reason.
pub proof fn law_process_failures(pid: u32, detail: Seq<char>)
    ensures
        open_failure(pid, detail) == "OpenProcess failed for PID "@ + text::decimal(pid as nat)
            + ": "@ + detail,
        times_failure(pid, detail) == "GetProcessTimes failed for PID "@ + text::decimal(
            pid as nat,
        ) + ": "@ + detail,
        memory_failure(detail) == "GetProcessMemoryInfo failed: "@ + detail,
        snapshot_failure(detail) == "CreateToolhelp32Snapshot failed: "@ + detail,
{
}

/// One process more is found, after the others, exactly if its name is the given one but for case;
/// and without processes none is found.
pub proof fn law_find_looks_at_each_process(
    entries: Seq<ProcessEntryView>,
    entry: ProcessEntryView,
    name: Seq<char>,
)
    ensures
        pids_with_name(Seq::empty(), name) == Seq::<u32>::empty(),
        pids_with_name(entries.push(entry), name) == (if text::lowered(entry.name())
            == text::lowered(name) {
            pids_with_name(entries, name).push(entry.pid)
        } else {
            pids_with_name(entries, name)
        }),
{
    let all = entries.push(entry);
    assert(all.map_values(|e: ProcessEntryView| e.pid).drop_last() =~= entries.map_values(
        |e: ProcessEntryView| e.pid,
    ));
    assert(lower_names(all).drop_last() =~= lower_names(entries));
}

/// The suggestions are the lower-case names of all processes whose name is not empty, each once, in
/// the order of strings.
pub proof fn law_suggestions(
    entries: Seq<ProcessEntryView>,
    suggestions: Seq<Seq<char>>,
    i: int,
    j: int,
    name: Seq<char>,
)
    requires
        is_sorted_list(suggestions, lower_names(entries)),
    ensures
        0 <= i < entries.len() && text::lowered(entries[i].name()).len() > 0
            ==> suggestions.contains(text::lowered(entries[i].name())),
        suggestions.contains(name) ==> name.len() > 0 && exists|k: int|
            0 <= k < entries.len() && text::lowered((#[trigger] entries[k]).name()) == name,
        0 <= i < j < suggestions.len() ==> text::text_before(suggestions[i], suggestions[j]),
{
    let names = lower_names(entries);
    if 0 <= i < entries.len() && text::lowered(entries[i].name()).len() > 0 {
        assert(names[i] == text::lowered(entries[i].name()));
        assert(is_listed(names, names[i]));
        assert(suggestions.contains(names[i]));
    }
    if suggestions.contains(name) {
        assert(is_listed(names, name));
        let k = choose|k: int| 0 <= k < names.len() && names[k] == name;
        assert(text::lowered(entries[k].name()) == name);
    }
}

/// The views of entries show their fields, one after the other.
pub proof fn law_entries_show_fields(entries: Seq<ProcessEntry>, i: int)
    requires
        0 <= i < entries.len(),
    ensures
        entries_view(entries).len() == entries.len(),
        entries_view(entries)[i].pid == entries[i].pid,
        entries_view(entries)[i].exe_file == entries[i].exe_file@,
{
}

/// A name at one place more adds the identifier there, after the others, exactly if it is the one
/// looked for.
pub proof fn law_pick_looks_at_each_name(
    pids: Seq<u32>,
    names: Seq<Seq<char>>,
    pid: u32,
    other: Seq<char>,
    name: Seq<char>,
)
    requires
        pids.len() == names.len(),
    ensures
        pids_at_name(Seq::empty(), Seq::empty(), name) == Seq::<u32>::empty(),
        pids_at_name(pids.push(pid), names.push(other), name) == (if other == name {
            pids_at_name(pids, names, name).push(pid)
        } else {
            pids_at_name(pids, names, name)
        }),
{
    assert(pids.push(pid).drop_last() =~= pids);
    assert(names.push(other).drop_last() =~= names);
}

/// A sorted list holds exactly the names that are not empty, and each comes before those after it.
pub proof fn law_sorted_lists(
    sorted: Seq<Seq<char>>,
    names: Seq<Seq<char>>,
    name: Seq<char>,
    i: int,
    j: int,
)
    requires
        is_sorted_list(sorted, names),
    ensures
        sorted.contains(name) <==> names.contains(name) && name.len() > 0,
        0 <= i < j < sorted.len() ==> text::text_before(sorted[i], sorted[j]) && sorted[i]
            != sorted[j],
{
    if 0 <= i < j < sorted.len() {
        assert(text::text_before(sorted[i], sorted[j]));
        text::lemma_text_before_is_total(sorted[i], sorted[j]);
    }
}

/// What was kept under a key last is found there, and nothing under a key that was never used.
pub proof fn law_last_value(map: Map<u32, CpuSample>, key: u32, other: u32, sample: CpuSample)
    ensures
        value_at(Map::<u32, CpuSample>::empty(), key) is None,
        value_at(map.insert(key, sample), key) == Some(sample),
        other != key ==> value_at(map.insert(key, sample), other) == value_at(map, other),
{
}

} // verus!
