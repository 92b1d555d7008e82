//! The requests of the user interface.

use vstd::prelude::*;
use vstd::string::*;

use crate::app_state;
use crate::app_state::AppState;
use crate::session::{Averages, Export, ExportFormat, ExportView, SessionSnapshot};
use crate::text;

verus! {

broadcast use vstd::string::group_string_axioms;

/// The export format that a name in lower case stands for.
pub open spec fn export_format(lowered: Seq<char>) -> Option<ExportFormat> {
    if lowered == "csv"@ {
        Some(ExportFormat::Csv)
    } else if lowered == "json"@ {
        Some(ExportFormat::Json)
    } else {
        None
    }
}

/// The message for a name that stands for no export format.
pub open spec fn unsupported_message(format: Seq<char>) -> Seq<char> {
    "Unsupported export format: "@ + format
}

/// The export format of a name, given the name in lower case too.
pub fn lowered_export_format(lowered: &str, format: &str) -> (res: Result<ExportFormat, String>)
    ensures
        match export_format(lowered@) {
            Some(known) => res == Ok::<ExportFormat, String>(known),
            None => res matches Err(message) && message@ == unsupported_message(format@),
        },
{
    if text::same_text(lowered, "csv") {
        Ok(ExportFormat::Csv)
    } else if text::same_text(lowered, "json") {
        Ok(ExportFormat::Json)
    } else {
        Err(String::from_str("Unsupported export format: ").concat(format))
    }
}

/// The export format of a name in any case.
pub fn parse_export_format(format: &str) -> (res: Result<ExportFormat, String>)
    ensures
        match export_format(text::lowered(format@)) {
            Some(known) => res == Ok::<ExportFormat, String>(known),
            None => res matches Err(message) && message@ == unsupported_message(format@),
        },
        text::lowers(format@),
{
    let lowered = format.to_lowercase();
    lowered_export_format(lowered.as_str(), format)
}

/// Exports the data of a session in the format of the given name.
pub fn export_session_data(state: &AppState, session_id: &str, format: &str) -> (res: Result<
    Export,
    String,
>)
    requires
        state@.wf(),
    ensures
        match export_format(text::lowered(format@)) {
            None => res matches Err(message) && message@ == unsupported_message(format@),
            Some(known) => if state@.has(session_id@) {
                res matches Ok(export) && export@ == state@.lookup(session_id@).export(known)
            } else {
                res matches Err(message) && message@ == app_state::not_found_message(session_id@)
            },
        },
        text::lowers(format@),
{
    match parse_export_format(format) {
        Ok(known) => state.export_session(session_id, known),
        Err(message) => Err(message),
    }
}

/// Whether a character is a letter or a number, as `char::is_alphanumeric` decides it after the
/// Unicode tables.
pub uninterp spec fn alphanumeric(c: char) -> bool;

/// A letter of A to Z, small or not, or a decimal digit.
pub open spec fn ascii_alphanumeric(c: char) -> bool {
    'a' <= c <= 'z' || 'A' <= c <= 'Z' || '0' <= c <= '9'
}

/// `char::is_alphanumeric`: whether a character is a letter or a number; of the ASCII characters
/// these are the letters A to Z, small or not, and the decimal digits.
pub assume_specification[ char::is_alphanumeric ](c: char) -> (res: bool)
    ensures
        res == alphanumeric(c),
        c <= '\x7f' ==> res == ascii_alphanumeric(c),
;

/// Of a text's ASCII characters, the letters A to Z, small or not, and the decimal digits are
/// letters or numbers, and no others.
pub open spec fn sorts_ascii(s: Seq<char>) -> bool {
    forall|i: int|
        0 <= i < s.len() && #[trigger] s[i] <= '\x7f' ==> alphanumeric(s[i]) == ascii_alphanumeric(
            s[i],
        )
}

/// What stands for a character in a file name, given whether it is a letter or a number.
pub open spec fn in_file_name(c: char, is_alphanumeric: bool) -> char {
    if is_alphanumeric || c == '-' || c == '_' {
        c
    } else {
        '_'
    }
}

/// What stands for a label in a file name.
pub open spec fn safe_label(label: Seq<char>) -> Seq<char> {
    label.map_values(|c: char| in_file_name(c, alphanumeric(c)))
}

/// The character that stands for another in a file name, given whether that one is a letter or a
/// number.
pub fn file_name_char(c: char, is_alphanumeric: bool) -> (res: char)
    ensures
        res == in_file_name(c, is_alphanumeric),
{
    if is_alphanumeric || c == '-' || c == '_' {
        c
    } else {
        '_'
    }
}

/// Replaces what a file name should not hold by underscores.
pub fn make_safe_label(label: &str) -> (res: String)
    ensures
        res@ == safe_label(label@),
        sorts_ascii(label@),
{
    let mut res = String::new();
    for c in it: label.chars()
        invariant
            it.seq() == label@,
            res@ == safe_label(label@.take(it.index())),
            sorts_ascii(label@.take(it.index())),
    {
        let ghost i = it.index();
        assert(label@.take(i + 1) == label@.take(i).push(c));
        res.push(file_name_char(c, c.is_alphanumeric()));
        assert(res@ =~= safe_label(label@.take(i + 1)));
    }
    assert(label@.take(label@.len() as int) == label@);
    res
}

/// The name under which a save dialog lists the files of a format.
pub open spec fn filter_name(format: ExportFormat) -> Seq<char> {
    match format {
        ExportFormat::Csv => "CSV files"@,
        ExportFormat::Json => "JSON files"@,
    }
}

/// The extension of the files of a format.
pub open spec fn extension(format: ExportFormat) -> Seq<char> {
    match format {
        ExportFormat::Csv => "csv"@,
        ExportFormat::Json => "json"@,
    }
}

/// The name that a save dialog proposes for an export.
pub open spec fn file_name(label: Seq<char>, format: ExportFormat) -> Seq<char> {
    safe_label(label) + "."@ + extension(format)
}

/// What a save dialog offers, and what is written to the file that is chosen.
pub struct SaveRequest {
    pub content: Export,
    pub filter_name: String,
    pub extension: String,
    pub file_name: String,
}

/// What a save request holds.
pub struct SaveRequestView {
    pub content: ExportView,
    pub filter_name: Seq<char>,
    pub extension: Seq<char>,
    pub file_name: Seq<char>,
}

impl View for SaveRequest {
    type V = SaveRequestView;

    open spec fn view(&self) -> SaveRequestView {
        SaveRequestView {
            content: self.content@,
            filter_name: self.filter_name@,
            extension: self.extension@,
            file_name: self.file_name@,
        }
    }
}

/// Prepares the export of a session to a file.
pub fn export_session_to_file(state: &AppState, session_id: &str, format: &str) -> (res: Result<
    SaveRequest,
    String,
>)
    requires
        state@.wf(),
    ensures
        match export_format(text::lowered(format@)) {
            None => res matches Err(message) && message@ == unsupported_message(format@),
            Some(known) => if state@.has(session_id@) {
                res matches Ok(request) && request@ == (SaveRequestView {
                    content: state@.lookup(session_id@).export(known),
                    filter_name: filter_name(known),
                    extension: extension(known),
                    file_name: file_name(state@.lookup(session_id@).label, known),
                }) && sorts_ascii(state@.lookup(session_id@).label)
            } else {
                res matches Err(message) && message@ == app_state::not_found_message(session_id@)
            },
        },
        text::lowers(format@),
{
    let known = match parse_export_format(format) {
        Ok(known) => known,
        Err(message) => {
            return Err(message);
        },
    };
    let content = match state.export_session(session_id, known) {
        Ok(content) => content,
        Err(message) => {
            return Err(message);
        },
    };
    let safe_label = match state.find_session(session_id) {
        Some(session) => make_safe_label(session.label.as_str()),
        None => String::from_str("session"),
    };
    let (filter_name, extension) = match known {
        ExportFormat::Csv => ("CSV files", "csv"),
        ExportFormat::Json => ("JSON files", "json"),
    };
    Ok(
        SaveRequest {
            content,
            filter_name: String::from_str(filter_name),
            extension: String::from_str(extension),
            file_name: safe_label.concat(".").concat(extension),
        },
    )
}

/// What came of a save request.
pub enum SaveOutcome {
    /// The user chose no file.
    Cancelled,
    /// What the user chose is no path; why.
    InvalidPath(String),
    /// The file could not be written; why.
    WriteFailed(String),
    /// The path that was written.
    Written(String),
}

/// What a save request is answered: the written path, or nothing if the user cancelled.
pub fn save_result(outcome: SaveOutcome) -> (res: Result<Option<String>, String>)
    ensures
        match outcome {
            SaveOutcome::Cancelled => res == Ok::<Option<String>, String>(None),
            SaveOutcome::Written(path) => res == Ok::<Option<String>, String>(Some(path)),
            SaveOutcome::InvalidPath(reason) => res matches Err(message) && message@
                == "Invalid export path: "@ + reason@,
            SaveOutcome::WriteFailed(reason) => res matches Err(message) && message@
                == "Failed to write export file: "@ + reason@,
        },
{
    match outcome {
        SaveOutcome::Cancelled => Ok(None),
        SaveOutcome::Written(path) => Ok(Some(path)),
        SaveOutcome::InvalidPath(reason) => Err(
            String::from_str("Invalid export path: ").concat(reason.as_str()),
        ),
        SaveOutcome::WriteFailed(reason) => Err(
            String::from_str("Failed to write export file: ").concat(reason.as_str()),
        ),
    }
}

/// Returns the full data of a session; its means are given.
pub fn get_session_data(state: &AppState, session_id: &str, averages: Averages) -> (res: Result<
    SessionSnapshot,
    String,
>)
    requires
        state@.wf(),
        state@.has(session_id@) ==> state@.lookup(session_id@).totals_fit(),
    ensures
        if state@.has(session_id@) {
            res matches Ok(snapshot) && snapshot@ == state@.lookup(session_id@).snapshot(averages)
        } else {
            res matches Err(message) && message@ == app_state::not_found_message(session_id@)
        },
{
    match state.get_session_snapshot(session_id, averages) {
        Some(snapshot) => Ok(snapshot),
        None => Err(String::from_str("Session not found: ").concat(session_id)),
    }
}

/// A file name made of a label holds letters, numbers, `-` and `_` alone, but for the dot before
/// its extension; the label's own such characters stay where they are.
pub proof fn law_safe_label(label: Seq<char>, i: int)
    requires
        0 <= i < label.len(),
    ensures
        safe_label(label).len() == label.len(),
        ({
            let c = safe_label(label)[i];
            alphanumeric(c) || c == '-' || c == '_'
        }),
        alphanumeric(label[i]) || label[i] == '-' || label[i] == '_' ==> safe_label(label)[i]
            == label[i],
{
}

/// To make a label safe again changes nothing.
pub proof fn law_safe_label_is_stable(label: Seq<char>)
    ensures
        safe_label(safe_label(label)) == safe_label(label),
{
    assert(safe_label(safe_label(label)) =~= safe_label(label));
}

/// Names of formats that differ only in the case of the letters A to Z stand for the same format.
pub proof fn law_format_ignores_case(a: Seq<char>, b: Seq<char>)
    requires
        text::ascii_lowercase(a) == text::ascii_lowercase(b),
    ensures
        export_format(text::lowered(a)) == export_format(text::lowered(b)),
{
}

/// There are two formats, named `csv` and `json`; every other name is refused, and the refusal names
/// it.
pub proof fn law_formats(lowered: Seq<char>, format: Seq<char>)
    ensures
        lowered == "csv"@ ==> export_format(lowered) == Some(ExportFormat::Csv),
        lowered == "json"@ ==> export_format(lowered) == Some(ExportFormat::Json),
        lowered != "csv"@ && lowered != "json"@ ==> export_format(lowered) is None,
        unsupported_message(format) == "Unsupported export format: "@ + format,
{
    reveal_strlit("csv");
    reveal_strlit("json");
    assert("csv"@.len() == 3 && "json"@.len() == 4);
}

/// The file name that is proposed has a character for each of the label's: the same one where it is a
/// letter, a number, `-` or `_`, and an underscore otherwise. The extension of the format follows
/// after a dot.
pub proof fn law_file_names(label: Seq<char>, i: int)
    ensures
        file_name(label, ExportFormat::Csv).len() == label.len() + 4,
        file_name(label, ExportFormat::Csv).skip(label.len() as int) == ".csv"@,
        file_name(label, ExportFormat::Json).len() == label.len() + 5,
        file_name(label, ExportFormat::Json).skip(label.len() as int) == ".json"@,
        0 <= i < label.len() ==> file_name(label, ExportFormat::Csv)[i] == file_name(
            label,
            ExportFormat::Json,
        )[i],
        0 <= i < label.len() && (alphanumeric(label[i]) || label[i] == '-' || label[i] == '_')
            ==> file_name(label, ExportFormat::Csv)[i] == label[i],
        0 <= i < label.len() && !alphanumeric(label[i]) && label[i] != '-' && label[i] != '_'
            ==> file_name(label, ExportFormat::Csv)[i] == '_',
        filter_name(ExportFormat::Csv) == "CSV files"@,
        filter_name(ExportFormat::Json) == "JSON files"@,
        extension(ExportFormat::Csv) == "csv"@,
        extension(ExportFormat::Json) == "json"@,
{
    reveal_strlit(".");
    reveal_strlit("csv");
    reveal_strlit("json");
    reveal_strlit(".csv");
    reveal_strlit(".json");
    assert(file_name(label, ExportFormat::Csv).skip(label.len() as int) =~= ".csv"@);
    assert(file_name(label, ExportFormat::Json).skip(label.len() as int) =~= ".json"@);
}

/// The view of a save request shows its fields.
pub proof fn law_save_request_shows_fields(request: SaveRequest)
    ensures
        request@.content == request.content@,
        request@.filter_name == request.filter_name@,
        request@.extension == request.extension@,
        request@.file_name == request.file_name@,
{
}

} // verus!
