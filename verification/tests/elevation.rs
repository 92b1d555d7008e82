use process_observer::command_line::guard_backslashes;
use process_observer::elevation::{
    check_elevated, check_token_elevation, launch_succeeded, parse_restart_params,
    restart_as_admin, restart_parameters,
};

fn args(list: &[&str]) -> Vec<String> {
    list.iter().map(|s| s.to_string()).collect()
}

fn wide(s: &str) -> Vec<u16> {
    s.encode_utf16().chain(std::iter::once(0)).collect()
}

#[test]
fn test_check_elevated_does_not_crash() {
    let _ = check_elevated(Ok(0));
    let _ = check_elevated(Ok(1));
    let _ = check_elevated(Err("token".to_string()));
}

#[test]
fn elevation_is_a_flag_other_than_zero() {
    assert!(!check_elevated(Ok(0)));
    assert!(check_elevated(Ok(1)));
    assert!(check_elevated(Ok(u32::MAX)));
    assert!(!check_elevated(Err("denied".to_string())));
    assert_eq!(check_token_elevation(Ok(2)), Ok(true));
    assert_eq!(check_token_elevation(Err("denied".to_string())), Err("denied".to_string()));
}

#[test]
fn without_an_executable_there_are_no_restart_parameters() {
    assert!(parse_restart_params(&args(&[])).is_none());
    assert!(parse_restart_params(&args(&["app.exe"])).is_none());
    assert!(parse_restart_params(&args(&["app.exe", "--pending-network"])).is_none());
    assert!(parse_restart_params(&args(&["app.exe", "--pending-exec"])).is_none());
}

#[test]
fn missing_settings_have_defaults() {
    let p = parse_restart_params(&args(&["app.exe", "--pending-exec", "a.exe"])).unwrap();
    assert_eq!(p.executable, "a.exe");
    assert_eq!(format!("{:?}", p.clone()), format!("{:?}", p));
    assert_eq!(p.interval_ms, 1000);
    assert_eq!(p.retention_secs, 300);
    assert!(!p.enable_network);
}

#[test]
fn an_option_takes_whatever_follows_as_its_value() {
    let p = parse_restart_params(&args(&["--pending-exec", "--pending-network"])).unwrap();
    assert_eq!(p.executable, "--pending-network");
    assert!(!p.enable_network);
}

#[test]
fn a_value_that_is_no_number_takes_back_an_earlier_one() {
    let p = parse_restart_params(&args(&[
        "--pending-exec",
        "a",
        "--pending-interval",
        "5",
        "--pending-interval",
        "x",
        "--pending-retention",
        "7",
        "--pending-retention",
    ]))
    .unwrap();
    assert_eq!(p.interval_ms, 1000);
    assert_eq!(p.retention_secs, 7);
}

#[test]
fn restart_parameters_are_one_line() {
    assert_eq!(
        restart_parameters("my \"app\".exe", 500, true, 60),
        "--pending-exec \"my app.exe\" --pending-interval 500 --pending-retention 60 --pending-network"
    );
    assert_eq!(
        restart_parameters("a.exe", 1, false, 0),
        "--pending-exec \"a.exe\" --pending-interval 1 --pending-retention 0 "
    );
}

#[test]
fn backslashes_before_the_closing_quote_are_doubled() {
    let line = |name: &str| restart_parameters(name, 1, false, 2);
    assert_eq!(
        line("C:\\"),
        "--pending-exec \"C:\\\\\" --pending-interval 1 --pending-retention 2 "
    );
    assert_eq!(
        line("a\\b\\\\\""),
        "--pending-exec \"a\\b\\\\\\\\\" --pending-interval 1 --pending-retention 2 "
    );
    assert_eq!(guard_backslashes(""), "");
    assert_eq!(guard_backslashes("\\"), "\\\\");
    assert_eq!(guard_backslashes("\\a"), "\\a");
}

#[test]
fn the_restart_asks_for_the_own_program_as_administrator() {
    let exe = "C:\\apps\\observer.exe".to_string();
    let request = restart_as_admin(Some(exe), "a.exe", 250, true, 30).unwrap();
    assert_eq!(request.verb, wide("runas"));
    assert_eq!(request.file, wide("C:\\apps\\observer.exe"));
    assert_eq!(
        request.parameters,
        wide("--pending-exec \"a.exe\" --pending-interval 250 --pending-retention 30 --pending-network")
    );
    assert!(restart_as_admin(None, "a.exe", 250, true, 30).is_none());
}

#[test]
fn a_configuration_survives_the_restart() {
    for network in [false, true] {
        let mut list = vec!["C:\\apps\\observer.exe", "--pending-exec", "my app.exe"];
        list.extend(["--pending-interval", "1500", "--pending-retention", "900"]);
        if network {
            list.push("--pending-network");
        }
        let p = parse_restart_params(&args(&list)).unwrap();
        assert_eq!(p.executable, "my app.exe");
        assert_eq!(p.interval_ms, 1500);
        assert_eq!(p.retention_secs, 900);
        assert_eq!(p.enable_network, network);
    }
}

#[test]
fn the_shell_answers_more_than_32_for_a_started_program() {
    assert!(!launch_succeeded(0));
    assert!(!launch_succeeded(5));
    assert!(!launch_succeeded(32));
    assert!(launch_succeeded(33));
    assert!(!launch_succeeded(-1));
}
