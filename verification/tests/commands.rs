use process_observer::app_state::AppState;
use process_observer::commands::{
    export_session_data, export_session_to_file, file_name_char, get_session_data,
    lowered_export_format, make_safe_label, parse_export_format, save_result, SaveOutcome,
};
use process_observer::session::{Averages, Export, ExportFormat, Hundredths};
use process_observer::time::{LocalTime, Timestamp};

fn state() -> AppState {
    let start = LocalTime { at: Timestamp { secs: 45_296, nanos: 0 }, offset_secs: 0 };
    let mut state = AppState::new();
    state.create_session_at("a.exe", 1000, false, 60, start, start);
    state
}

const AVERAGES: Averages = Averages {
    avg_cpu: Hundredths { count: 1 },
    avg_ram_mb: Hundredths { count: 2 },
    avg_io_bytes: 3,
    avg_net_bytes: 4,
};

#[test]
fn formats_are_named_in_any_case() {
    assert_eq!(parse_export_format("csv"), Ok(ExportFormat::Csv));
    assert_eq!(parse_export_format("CSV"), Ok(ExportFormat::Csv));
    assert_eq!(parse_export_format("Json"), Ok(ExportFormat::Json));
    assert_eq!(parse_export_format("jSON"), Ok(ExportFormat::Json));
}

#[test]
fn other_formats_are_not_supported() {
    assert_eq!(
        parse_export_format("XML"),
        Err("Unsupported export format: XML".to_string())
    );
    assert_eq!(parse_export_format(""), Err("Unsupported export format: ".to_string()));
    assert_eq!(parse_export_format(" csv"), Err("Unsupported export format:  csv".to_string()));
    assert_eq!(lowered_export_format("csv", "CSV"), Ok(ExportFormat::Csv));
    assert_eq!(
        lowered_export_format("CSV", "CSV"),
        Err("Unsupported export format: CSV".to_string())
    );
}

#[test]
fn session_data_is_exported() {
    match export_session_data(&state(), "session-1", "Csv") {
        Ok(Export::Csv(text)) => assert!(text.contains("# Started: 1970-01-01 12:34:56\n")),
        other => panic!("{:?}", other),
    }
    assert!(matches!(
        export_session_data(&state(), "session-1", "json"),
        Ok(Export::Json { .. })
    ));
}

#[test]
fn the_format_is_judged_before_the_session() {
    match export_session_data(&state(), "session-2", "xml") {
        Err(message) => assert_eq!(message, "Unsupported export format: xml"),
        other => panic!("{:?}", other),
    }
    match export_session_data(&state(), "session-2", "csv") {
        Err(message) => assert_eq!(message, "Session not found: session-2"),
        other => panic!("{:?}", other),
    }
}

#[test]
fn a_save_request_proposes_a_file_name() {
    let request = export_session_to_file(&state(), "session-1", "CSV").ok().unwrap();
    assert_eq!(request.file_name, "Session__1___12_34_56.csv");
    assert_eq!(request.filter_name, "CSV files");
    assert_eq!(request.extension, "csv");
    assert!(matches!(request.content, Export::Csv(_)));
    let request = export_session_to_file(&state(), "session-1", "json").ok().unwrap();
    assert_eq!(request.file_name, "Session__1___12_34_56.json");
    assert_eq!(request.filter_name, "JSON files");
    assert_eq!(request.extension, "json");
    assert!(matches!(request.content, Export::Json { .. }));
}

#[test]
fn a_save_request_needs_a_format_and_a_session() {
    assert_eq!(
        export_session_to_file(&state(), "session-1", "txt").err(),
        Some("Unsupported export format: txt".to_string())
    );
    assert_eq!(
        export_session_to_file(&state(), "nothing", "csv").err(),
        Some("Session not found: nothing".to_string())
    );
}

#[test]
fn labels_become_safe_file_names() {
    assert_eq!(make_safe_label("a-b_c 1/2\\3:4.d"), "a-b_c_1_2_3_4_d");
    assert_eq!(make_safe_label("\u{e9}t\u{e9} \u{2013} \u{0665}"), "\u{e9}t\u{e9}___\u{0665}");
    assert_eq!(make_safe_label(""), "");
    let once = make_safe_label("Session #1 \u{2013} 12:00:00");
    assert_eq!(make_safe_label(&once), once);
}

#[test]
fn of_ascii_only_letters_digits_and_two_marks_stay() {
    for code in 0..128u8 {
        let c = code as char;
        let stays = c.is_ascii_alphanumeric() || c == '-' || c == '_';
        let expected = if stays { c } else { '_' };
        assert_eq!(make_safe_label(&c.to_string()), expected.to_string());
        assert_eq!(c.is_alphanumeric(), c.is_ascii_alphanumeric());
    }
    assert_eq!(file_name_char('x', true), 'x');
    assert_eq!(file_name_char('x', false), '_');
    assert_eq!(file_name_char('-', false), '-');
    assert_eq!(file_name_char('_', false), '_');
}

#[test]
fn a_save_is_answered_by_its_outcome() {
    assert_eq!(save_result(SaveOutcome::Cancelled), Ok(None));
    assert_eq!(
        save_result(SaveOutcome::Written("C:\\x.csv".to_string())),
        Ok(Some("C:\\x.csv".to_string()))
    );
    assert_eq!(
        save_result(SaveOutcome::InvalidPath("no file".to_string())),
        Err("Invalid export path: no file".to_string())
    );
    assert_eq!(
        save_result(SaveOutcome::WriteFailed("disk full".to_string())),
        Err("Failed to write export file: disk full".to_string())
    );
}

#[test]
fn session_data_is_found_by_identifier() {
    let snapshot = get_session_data(&state(), "session-1", AVERAGES).ok().unwrap();
    assert_eq!(snapshot.info.id, "session-1");
    assert_eq!(snapshot.avg_cpu, Hundredths { count: 0 });
    assert_eq!(snapshot.avg_io_bytes, 0);
    assert_eq!(
        get_session_data(&state(), "session-2", AVERAGES).err(),
        Some("Session not found: session-2".to_string())
    );
}
