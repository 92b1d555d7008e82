use process_observer::monitor::metrics::{
    enumerate_process_names, filetime_to_u64, find_pids_by_name, pick_pids, sort_names, CpuCache,
    CpuSample, CpuUsage, FileTime, IoAnswer, ProcessEntry, ProcessMetrics, ProcessReading,
    ProcessTimes,
};

fn entry(pid: u32, name: &str) -> ProcessEntry {
    let mut exe_file: Vec<u16> = name.encode_utf16().collect();
    exe_file.resize(260, 0);
    ProcessEntry { pid, exe_file }
}

fn sample(kernel: u64, user: u64, at: u64) -> CpuSample {
    CpuSample { kernel, user, at }
}

fn reading(kernel: u32, user: u32, ram: u64, io: IoAnswer) -> ProcessReading {
    ProcessReading {
        times: Ok(ProcessTimes {
            kernel: FileTime { low: kernel, high: 0 },
            user: FileTime { low: user, high: 0 },
        }),
        working_set: Ok(ram),
        io,
    }
}

const IO: IoAnswer = IoAnswer { ret: 1, read_transfer_count: 11, write_transfer_count: 22 };

#[test]
fn halves_make_up_a_duration() {
    assert_eq!(filetime_to_u64(&FileTime { low: 0, high: 0 }), 0);
    assert_eq!(filetime_to_u64(&FileTime { low: 7, high: 1 }), 0x1_0000_0007);
    assert_eq!(filetime_to_u64(&FileTime { low: u32::MAX, high: u32::MAX }), u64::MAX);
}

#[test]
fn the_first_sample_shows_no_load() {
    let mut cache = CpuCache::new();
    assert_eq!(cache.observe(1, sample(500, 500, 1_000_000)), None);
}

#[test]
fn the_load_is_that_since_the_last_sample() {
    let mut cache = CpuCache::new();
    cache.observe(1, sample(500, 500, 1_000_000));
    let usage = cache.observe(1, sample(700, 800, 1_100_099));
    assert_eq!(usage, Some(CpuUsage { busy: 500, elapsed: 1000 }));
    assert_eq!(cache.observe(2, sample(9, 9, 2_000_000)), None);
}

#[test]
fn times_that_go_back_count_as_nothing() {
    let mut cache = CpuCache::new();
    cache.observe(1, sample(500, 500, 1_000_000));
    let usage = cache.observe(1, sample(400, 520, 1_010_000));
    assert_eq!(usage, Some(CpuUsage { busy: 20, elapsed: 100 }));
}

#[test]
fn several_processors_count_as_one() {
    let mut cache = CpuCache::new();
    cache.observe(1, sample(0, 0, 0));
    let usage = cache.observe(1, sample(300, 100, 10_000));
    assert_eq!(usage, Some(CpuUsage { busy: 100, elapsed: 100 }));
    let usage = cache.observe(1, sample(350, 150, 20_000));
    assert_eq!(usage, Some(CpuUsage { busy: 100, elapsed: 100 }));
}

#[test]
fn less_than_a_unit_of_time_shows_no_load() {
    let mut cache = CpuCache::new();
    cache.observe(1, sample(0, 0, 1_000));
    assert_eq!(cache.observe(1, sample(5, 5, 1_099)), None);
    assert_eq!(cache.observe(1, sample(5, 5, 900)), None);
}

#[test]
fn loads_beyond_64_bits_are_not_accepted() {
    let mut cache = CpuCache::new();
    cache.observe(1, sample(0, 0, 0));
    assert!(!cache.accepts(1, &sample(u64::MAX, 1, 100)));
    assert!(cache.accepts(1, &sample(u64::MAX, 0, 100)));
    assert!(cache.accepts(1, &sample(u64::MAX, 1, 99)));
    assert!(cache.accepts(2, &sample(u64::MAX, 1, 100)));
}

#[test]
fn metrics_are_collected() {
    let mut cache = CpuCache::new();
    let first = ProcessMetrics::collect(&mut cache, 4, Ok(reading(10, 20, 4096, IO)), 0).unwrap();
    assert_eq!(first.cpu, None);
    assert_eq!(first.working_set_bytes, 4096);
    assert_eq!(first.io_read_bytes, 11);
    assert_eq!(first.io_write_bytes, 22);
    let next =
        ProcessMetrics::collect(&mut cache, 4, Ok(reading(15, 22, 8192, IO)), 1000).unwrap();
    assert_eq!(next.cpu, Some(CpuUsage { busy: 7, elapsed: 10 }));
}

#[test]
fn counters_that_cannot_be_read_are_zero() {
    let mut cache = CpuCache::new();
    let io = IoAnswer { ret: 0, ..IO };
    let metrics = ProcessMetrics::collect(&mut cache, 4, Ok(reading(1, 2, 3, io)), 0).unwrap();
    assert_eq!(metrics.io_read_bytes, 0);
    assert_eq!(metrics.io_write_bytes, 0);
}

#[test]
fn failures_to_read_a_process_are_errors() {
    let mut cache = CpuCache::new();
    assert_eq!(
        ProcessMetrics::collect(&mut cache, 4, Err("denied".to_string()), 0),
        Err("OpenProcess failed for PID 4: denied".to_string())
    );
    let mut no_times = reading(1, 2, 3, IO);
    no_times.times = Err("denied".to_string());
    assert_eq!(
        ProcessMetrics::collect(&mut cache, 40, Ok(no_times), 0),
        Err("GetProcessTimes failed for PID 40: denied".to_string())
    );
    let mut no_memory = reading(1, 2, 3, IO);
    no_memory.working_set = Err("denied".to_string());
    assert_eq!(
        ProcessMetrics::collect(&mut cache, 4, Ok(no_memory), 0),
        Err("GetProcessMemoryInfo failed: denied".to_string())
    );
}

#[test]
fn times_are_taken_up_before_the_memory_fails() {
    let mut cache = CpuCache::new();
    let mut no_memory = reading(100, 0, 3, IO);
    no_memory.working_set = Err("denied".to_string());
    let _ = ProcessMetrics::collect(&mut cache, 4, Ok(no_memory), 0);
    let next =
        ProcessMetrics::collect(&mut cache, 4, Ok(reading(130, 0, 3, IO)), 10_000).unwrap();
    assert_eq!(next.cpu, Some(CpuUsage { busy: 30, elapsed: 100 }));
}

#[test]
fn the_name_ends_before_the_zeros() {
    assert_eq!(entry(1, "Notepad.exe").name(), "Notepad.exe");
    assert_eq!(entry(1, "").name(), "");
    assert_eq!(entry(1, "a\u{1F600}").name(), "a\u{1F600}");
    assert_eq!(ProcessEntry { pid: 1, exe_file: vec![0x61, 0xD800] }.name(), "a\u{FFFD}");
}

#[test]
fn names_are_sorted_without_repetitions() {
    let names: Vec<String> =
        ["b", "", "a", "b", "\u{e9}", "ab"].iter().map(|s| s.to_string()).collect();
    let mut expected: Vec<String> = names.iter().filter(|s| !s.is_empty()).cloned().collect();
    expected.sort();
    expected.dedup();
    assert_eq!(expected, vec!["a", "ab", "b", "\u{e9}"]);
    assert_eq!(sort_names(names), expected);
}

#[test]
fn running_processes_are_listed_in_lower_case() {
    let list = vec![entry(1, "Explorer.EXE"), entry(2, ""), entry(3, "cmd.exe"), entry(4, "CMD.exe")];
    assert_eq!(
        enumerate_process_names(Ok(list)),
        Ok(vec!["cmd.exe".to_string(), "explorer.exe".to_string()])
    );
}

#[test]
fn processes_are_found_in_any_case() {
    let list = || vec![entry(10, "App.exe"), entry(20, "other.exe"), entry(30, "APP.EXE")];
    assert_eq!(find_pids_by_name("app.EXE", Ok(list())), Ok(vec![10, 30]));
    assert_eq!(find_pids_by_name("APP.exe", Ok(list())), Ok(vec![10, 30]));
    assert_eq!(find_pids_by_name("app", Ok(list())), Ok(vec![]));
    assert_eq!(find_pids_by_name("\u{c9}.exe", Ok(vec![entry(5, "\u{e9}.exe")])), Ok(vec![5]));
}

#[test]
fn of_ascii_only_the_letters_have_a_lower_case() {
    for code in 1..128u8 {
        let c = code as char;
        let lower = c.to_ascii_lowercase();
        assert_eq!(
            enumerate_process_names(Ok(vec![entry(1, &c.to_string())])),
            Ok(vec![lower.to_string()])
        );
        assert_eq!(
            find_pids_by_name(&c.to_string(), Ok(vec![entry(1, &lower.to_string())])),
            Ok(vec![1])
        );
    }
}

#[test]
fn ascii_case_makes_no_difference_in_any_name() {
    let list = || vec![entry(1, "\u{130}\u{3a3}App\u{3a3}.EXE"), entry(2, "x")];
    let a = find_pids_by_name("\u{130}\u{3a3}APP\u{3a3}.exe", Ok(list()));
    let b = find_pids_by_name("\u{130}\u{3a3}app\u{3a3}.EXE", Ok(list()));
    assert_eq!(a, Ok(vec![1]));
    assert_eq!(a, b);
    for s in ["A\u{3a3}", "\u{3a3}A", "A\u{3a3}B", "A'\u{3a3}", "A.\u{3a3}!", "\u{130}", "\u{1c5}Z"] {
        assert_eq!(s.to_lowercase(), s.to_ascii_lowercase().to_lowercase());
        assert!(!s.to_lowercase().is_empty());
    }
}

#[test]
fn exactly_the_suggested_names_find_a_process() {
    let list = || vec![entry(1, "App.exe"), entry(2, ""), entry(3, "\u{c9}t\u{e9}.EXE")];
    let suggestions = enumerate_process_names(Ok(list())).unwrap();
    for name in ["app.exe", "APP.EXE", "\u{e9}T\u{c9}.exe", "app", "other"] {
        let found = find_pids_by_name(name, Ok(list())).unwrap();
        assert_eq!(!found.is_empty(), suggestions.contains(&name.to_lowercase()));
    }
}

#[test]
fn without_a_list_of_processes_none_is_found() {
    let message = Err("CreateToolhelp32Snapshot failed: denied".to_string());
    assert_eq!(find_pids_by_name("a", Err("denied".to_string())), message);
    assert_eq!(
        enumerate_process_names(Err("denied".to_string())),
        Err("CreateToolhelp32Snapshot failed: denied".to_string())
    );
}

#[test]
fn identifiers_are_picked_where_the_name_stands() {
    let names: Vec<String> = ["a", "b", "a"].iter().map(|s| s.to_string()).collect();
    assert_eq!(pick_pids(&vec![7, 8, 9], &names, "a"), vec![7, 9]);
    assert_eq!(pick_pids(&vec![7, 8, 9], &names, "c"), Vec::<u32>::new());
}
