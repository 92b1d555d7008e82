//! Elevation utilities: administrator status, and the restart with elevated privileges that
//! carries the pending monitoring configuration along.

use vstd::prelude::*;
use vstd::string::*;

use crate::command_line;
use crate::text;
use crate::utf16;

verus! {

broadcast use vstd::string::group_string_axioms;

/// Reads the elevation flag of the process token, which is not zero for an elevated process.
pub fn check_token_elevation(token_is_elevated: Result<u32, String>) -> (res: Result<bool, String>)
    ensures
        match token_is_elevated {
            Ok(flag) => res == Ok::<bool, String>(flag != 0),
            Err(message) => res == Err::<bool, String>(message),
        },
{
    match token_is_elevated {
        Ok(flag) => Ok(flag != 0),
        Err(message) => Err(message),
    }
}

/// Checks whether the current process is running with Administrator privileges, given the elevation
/// flag of its token. A process whose token cannot be read is taken not to.
pub fn check_elevated(token_is_elevated: Result<u32, String>) -> (res: bool)
    ensures
        res == (token_is_elevated is Ok && token_is_elevated->Ok_0 != 0),
{
    match check_token_elevation(token_is_elevated) {
        Ok(elevated) => elevated,
        Err(_) => false,
    }
}

/// Parameters carried across an elevation restart so the UI can restore the user's pending
/// monitoring configuration.
#[derive(Debug)]
pub struct RestartParams {
    pub executable: String,
    pub interval_ms: u64,
    pub enable_network: bool,
    pub retention_secs: u64,
}

/// What restart parameters hold.
pub struct RestartParamsView {
    pub executable: Seq<char>,
    pub interval_ms: u64,
    pub enable_network: bool,
    pub retention_secs: u64,
}

impl View for RestartParams {
    type V = RestartParamsView;

    open spec fn view(&self) -> RestartParamsView {
        RestartParamsView {
            executable: self.executable@,
            interval_ms: self.interval_ms,
            enable_network: self.enable_network,
            retention_secs: self.retention_secs,
        }
    }
}

impl Clone for RestartParams {
    fn clone(&self) -> (res: RestartParams)
        ensures
            res@ == self@,
    {
        RestartParams {
            executable: self.executable.clone(),
            interval_ms: self.interval_ms,
            enable_network: self.enable_network,
            retention_secs: self.retention_secs,
        }
    }
}

/// What the arguments of a command line have said so far.
pub struct Pending {
    pub executable: Option<Seq<char>>,
    pub interval_ms: Option<u64>,
    pub retention_secs: Option<u64>,
    pub enable_network: bool,
}

/// What further arguments add. An option without its value, a value that is no number, and any
/// other argument say nothing, but a value that is no number takes back an earlier one.
pub open spec fn with_arguments(pending: Pending, args: Seq<Seq<char>>) -> Pending
    decreases args.len(),
{
    if args.len() == 0 {
        pending
    } else if args[0] == "--pending-exec"@ && args.len() > 1 {
        with_arguments(Pending { executable: Some(args[1]), ..pending }, args.skip(2))
    } else if args[0] == "--pending-interval"@ && args.len() > 1 {
        with_arguments(Pending { interval_ms: text::read_u64(args[1]), ..pending }, args.skip(2))
    } else if args[0] == "--pending-retention"@ && args.len() > 1 {
        with_arguments(Pending { retention_secs: text::read_u64(args[1]), ..pending }, args.skip(2))
    } else if args[0] == "--pending-network"@ {
        with_arguments(Pending { enable_network: true, ..pending }, args.skip(1))
    } else {
        with_arguments(pending, args.skip(1))
    }
}

/// The polling interval where none was carried along, in milliseconds.
pub const DEFAULT_INTERVAL_MS: u64 = 1000;

/// The retention window where none was carried along, in seconds.
pub const DEFAULT_RETENTION_SECS: u64 = 300;

/// The restart parameters in the arguments of a command line; there are none without an executable.
pub open spec fn restart_params(args: Seq<Seq<char>>) -> Option<RestartParamsView> {
    let nothing = Pending {
        executable: None,
        interval_ms: None,
        retention_secs: None,
        enable_network: false,
    };
    let pending = with_arguments(nothing, args);
    match pending.executable {
        None => None,
        Some(executable) => Some(
            RestartParamsView {
                executable,
                interval_ms: match pending.interval_ms {
                    Some(interval_ms) => interval_ms,
                    None => DEFAULT_INTERVAL_MS,
                },
                enable_network: pending.enable_network,
                retention_secs: match pending.retention_secs {
                    Some(retention_secs) => retention_secs,
                    None => DEFAULT_RETENTION_SECS,
                },
            },
        ),
    }
}

spec fn pending_of(
    executable: Option<String>,
    interval_ms: Option<u64>,
    retention_secs: Option<u64>,
    enable_network: bool,
) -> Pending {
    Pending {
        executable: match executable {
            Some(e) => Some(e@),
            None => None,
        },
        interval_ms,
        retention_secs,
        enable_network,
    }
}

/// Parses elevation-restart parameters from the arguments of the process, if any.
pub fn parse_restart_params(args: &Vec<String>) -> (res: Option<RestartParams>)
    ensures
        match res {
            Some(params) => restart_params(text::texts(args@)) == Some(params@),
            None => restart_params(text::texts(args@)) is None,
        },
{
    let mut executable: Option<String> = None;
    let mut interval_ms: Option<u64> = None;
    let mut retention_secs: Option<u64> = None;
    let mut enable_network: bool = false;
    let ghost texts = text::texts(args@);
    let ghost nothing = Pending {
        executable: None,
        interval_ms: None,
        retention_secs: None,
        enable_network: false,
    };
    let mut i: usize = 0;
    assert(texts.skip(0) == texts);
    while i < args.len()
        invariant
            i <= args.len(),
            texts == text::texts(args@),
            with_arguments(
                pending_of(executable, interval_ms, retention_secs, enable_network),
                texts.skip(i as int),
            ) == with_arguments(nothing, texts),
        decreases args.len() - i,
    {
        let ghost rest = texts.skip(i as int);
        assert(rest[0] == args@[i as int]@);
        assert(rest.skip(1) == texts.skip(i + 1));
        let more = args.len() - i > 1;
        if more {
            assert(rest[1] == args@[i + 1]@);
            assert(rest.skip(2) == texts.skip(i + 2));
        }
        let arg = args[i].as_str();
        if more && text::same_text(arg, "--pending-exec") {
            executable = Some(args[i + 1].clone());
            i = i + 2;
        } else if more && text::same_text(arg, "--pending-interval") {
            interval_ms = text::parse_u64(args[i + 1].as_str());
            i = i + 2;
        } else if more && text::same_text(arg, "--pending-retention") {
            retention_secs = text::parse_u64(args[i + 1].as_str());
            i = i + 2;
        } else if text::same_text(arg, "--pending-network") {
            enable_network = true;
            i = i + 1;
        } else {
            i = i + 1;
        }
    }
    assert(texts.skip(texts.len() as int) == Seq::<Seq<char>>::empty());
    match executable {
        Some(executable) => Some(
            RestartParams {
                executable,
                interval_ms: interval_ms.unwrap_or(DEFAULT_INTERVAL_MS),
                enable_network,
                retention_secs: retention_secs.unwrap_or(DEFAULT_RETENTION_SECS),
            },
        ),
        None => None,
    }
}

/// What is not a double quote.
pub open spec fn no_quote() -> spec_fn(char) -> bool {
    |c: char| c != '"'
}

/// A text without its double quotes.
pub open spec fn without_quotes(s: Seq<char>) -> Seq<char> {
    s.filter(no_quote())
}

/// The parameters for the restarted process, as one line.
pub open spec fn restart_line(
    executable: Seq<char>,
    interval_ms: u64,
    enable_network: bool,
    retention_secs: u64,
) -> Seq<char> {
    "--pending-exec \""@ + command_line::between_quotes(without_quotes(executable))
        + "\" --pending-interval "@ + text::decimal(interval_ms as nat) + " --pending-retention "@
        + text::decimal(retention_secs as nat) + " "@ + (
    if enable_network {
        "--pending-network"@
    } else {
        ""@
    })
}

/// A request to start a program: what to do with it, its path and its parameters, as wide strings.
#[derive(Debug)]
pub struct LaunchRequest {
    pub verb: Vec<u16>,
    pub file: Vec<u16>,
    pub parameters: Vec<u16>,
}

/// Removes the double quotes from a text.
fn strip_quotes(s: &str) -> (res: String)
    ensures
        res@ == without_quotes(s@),
{
    let chars = text::chars_of(s);
    let mut res = String::new();
    reveal(Seq::filter);
    for i in 0..chars.len()
        invariant
            res@ == chars@.take(i as int).filter(no_quote()),
    {
        reveal(Seq::filter);
        assert(chars@.take(i + 1).drop_last() == chars@.take(i as int));
        if chars[i] != '"' {
            res.push(chars[i]);
        }
    }
    assert(chars@.take(chars@.len() as int) == chars@);
    res
}

/// The parameters for the restarted process, as one line.
pub fn restart_parameters(
    executable: &str,
    interval_ms: u64,
    enable_network: bool,
    retention_secs: u64,
) -> (res: String)
    ensures
        res@ == restart_line(executable@, interval_ms, enable_network, retention_secs),
{
    let mut res = String::from_str("--pending-exec \"");
    let name = strip_quotes(executable);
    res.append(command_line::guard_backslashes(name.as_str()).as_str());
    res.append("\" --pending-interval ");
    res.append(text::decimal_string(interval_ms).as_str());
    res.append(" --pending-retention ");
    res.append(text::decimal_string(retention_secs).as_str());
    res.append(" ");
    if enable_network {
        res.append("--pending-network");
    } else {
        res.append("");
    }
    res
}

/// The request that restarts the application with Administrator privileges, given the path of its
/// executable; there is none where the path is not known or is not a text.
pub fn restart_as_admin(
    exe_path: Option<String>,
    executable: &str,
    interval_ms: u64,
    enable_network: bool,
    retention_secs: u64,
) -> (res: Option<LaunchRequest>)
    ensures
        res is Some <==> exe_path is Some,
        res matches Some(request) ==> {
            &&& request.verb@ == utf16::wide("runas"@)
            &&& request.file@ == utf16::wide(exe_path->0@)
            &&& request.parameters@ == utf16::wide(
                restart_line(executable@, interval_ms, enable_network, retention_secs),
            )
        },
{
    match exe_path {
        None => None,
        Some(path) => Some(
            LaunchRequest {
                verb: utf16::encode_wide("runas"),
                file: utf16::encode_wide(path.as_str()),
                parameters: utf16::encode_wide(
                    restart_parameters(
                        executable,
                        interval_ms,
                        enable_network,
                        retention_secs,
                    ).as_str(),
                ),
            },
        ),
    }
}

/// Whether the shell started the requested program: its answer is then greater than 32.
pub fn launch_succeeded(code: isize) -> (res: bool)
    ensures
        res == (code > 32),
{
    code > 32
}

/// The arguments that carry a configuration across a restart.
pub open spec fn restart_arguments(
    executable: Seq<char>,
    interval_ms: u64,
    enable_network: bool,
    retention_secs: u64,
) -> Seq<Seq<char>> {
    let settings = seq![
        "--pending-exec"@,
        executable,
        "--pending-interval"@,
        text::decimal(interval_ms as nat),
        "--pending-retention"@,
        text::decimal(retention_secs as nat),
    ];
    if enable_network {
        settings.push("--pending-network"@)
    } else {
        settings
    }
}

/// A configuration that is handed over as arguments, after the program's own path, arrives as it
/// was, whatever the executable is called.
pub proof fn law_restart_arguments_round_trip(
    program: Seq<char>,
    executable: Seq<char>,
    interval_ms: u64,
    enable_network: bool,
    retention_secs: u64,
)
    requires
        program != "--pending-exec"@,
        program != "--pending-interval"@,
        program != "--pending-retention"@,
        program != "--pending-network"@,
    ensures
        restart_params(
            seq![program] + restart_arguments(
                executable,
                interval_ms,
                enable_network,
                retention_secs,
            ),
        ) == Some(RestartParamsView { executable, interval_ms, enable_network, retention_secs }),
{
    lemma_options_differ();
    text::law_number_round_trip(interval_ms);
    text::law_number_round_trip(retention_secs);
    let settings = restart_arguments(executable, interval_ms, enable_network, retention_secs);
    let all = seq![program] + settings;
    let p0 = Pending {
        executable: None,
        interval_ms: None,
        retention_secs: None,
        enable_network: false,
    };
    let p1 = Pending { executable: Some(executable), ..p0 };
    let p2 = Pending { interval_ms: Some(interval_ms), ..p1 };
    let p3 = Pending { retention_secs: Some(retention_secs), ..p2 };
    let after1 = settings.skip(2);
    let after2 = settings.skip(4);
    let after3 = settings.skip(6);
    assert(with_arguments(p0, all) == with_arguments(p0, settings)) by {
        assert(all[0] == program);
        assert(all.skip(1) =~= settings);
    }
    assert(with_arguments(p0, settings) == with_arguments(p1, after1)) by {
        assert(settings[0] == "--pending-exec"@ && settings[1] == executable);
    }
    assert(with_arguments(p1, after1) == with_arguments(p2, after2)) by {
        assert(after1[0] == "--pending-interval"@);
        assert(after1[1] == text::decimal(interval_ms as nat));
        assert(after1.skip(2) =~= after2);
    }
    assert(with_arguments(p2, after2) == with_arguments(p3, after3)) by {
        assert(after2[0] == "--pending-retention"@);
        assert(after2[1] == text::decimal(retention_secs as nat));
        assert(after2.skip(2) =~= after3);
    }
    if enable_network {
        assert(after3[0] == "--pending-network"@);
        assert(after3.skip(1) =~= Seq::<Seq<char>>::empty());
        let p4 = Pending { enable_network: true, ..p3 };
        assert(with_arguments(p4, after3.skip(1)) == p4);
    } else {
        assert(after3 =~= Seq::<Seq<char>>::empty());
    }
    assert(with_arguments(p3, after3) == (Pending { enable_network, ..p3 }));
}

proof fn lemma_options_differ()
    ensures
        "--pending-exec"@ != "--pending-interval"@,
        "--pending-exec"@ != "--pending-retention"@,
        "--pending-exec"@ != "--pending-network"@,
        "--pending-interval"@ != "--pending-retention"@,
        "--pending-interval"@ != "--pending-network"@,
        "--pending-retention"@ != "--pending-network"@,
{
    reveal_strlit("--pending-exec");
    reveal_strlit("--pending-interval");
    reveal_strlit("--pending-retention");
    reveal_strlit("--pending-network");
    assert("--pending-exec"@.len() == 14);
    assert("--pending-interval"@.len() == 18);
    assert("--pending-retention"@.len() == 19);
    assert("--pending-network"@.len() == 17);
}

proof fn lemma_no_quotes(s: Seq<char>)
    ensures
        forall|i: int| 0 <= i < without_quotes(s).len() ==> without_quotes(s)[i] != '"',
    decreases s.len(),
{
    reveal(Seq::filter);
    if s.len() > 0 {
        lemma_no_quotes(s.drop_last());
    }
}

proof fn lemma_decimal_is_plain(n: nat)
    ensures
        command_line::is_plain(text::decimal(n)),
        text::decimal(n).len() > 0,
    decreases n,
{
    if n >= 10 {
        lemma_decimal_is_plain(n / 10);
    }
}

/// The parameters of the restarted process split into the arguments that carry the configuration,
/// with the executable's name freed of quotes.
pub proof fn law_restart_line_splits(
    executable: Seq<char>,
    interval_ms: u64,
    enable_network: bool,
    retention_secs: u64,
)
    ensures
        command_line::split_arguments(
            restart_line(executable, interval_ms, enable_network, retention_secs),
        ) == restart_arguments(
            without_quotes(executable),
            interval_ms,
            enable_network,
            retention_secs,
        ),
{
    reveal_strlit("--pending-exec");
    reveal_strlit("--pending-exec \"");
    reveal_strlit("--pending-interval");
    reveal_strlit("\" --pending-interval ");
    reveal_strlit("--pending-retention");
    reveal_strlit(" --pending-retention ");
    reveal_strlit("--pending-network");
    reveal_strlit(" ");
    reveal_strlit("");
    let name = without_quotes(executable);
    let interval = text::decimal(interval_ms as nat);
    let retention = text::decimal(retention_secs as nat);
    let last = if enable_network {
        "--pending-network"@
    } else {
        ""@
    };
    let line5 = retention + (seq![' '] + last);
    let line4 = "--pending-retention"@ + (seq![' '] + line5);
    let line3 = interval + (seq![' '] + line4);
    let line2 = "--pending-interval"@ + (seq![' '] + line3);
    let line1 = seq!['"'] + (command_line::between_quotes(name) + (seq!['"', ' '] + line2));
    let line = "--pending-exec"@ + (seq![' '] + line1);
    assert(line =~= restart_line(executable, interval_ms, enable_network, retention_secs));
    lemma_no_quotes(executable);
    lemma_decimal_is_plain(interval_ms as nat);
    lemma_decimal_is_plain(retention_secs as nat);
    let none = Seq::<char>::empty();
    assert(command_line::arguments_from(last, none, false) =~= (if enable_network {
        seq![last]
    } else {
        Seq::empty()
    })) by {
        command_line::lemma_plain_text(last, none, none, false);
        assert(last + none =~= last);
        assert(none + last =~= last);
    }
    command_line::lemma_plain_argument(retention, last);
    command_line::lemma_plain_argument("--pending-retention"@, line5);
    command_line::lemma_plain_argument(interval, line4);
    command_line::lemma_plain_argument("--pending-interval"@, line3);
    command_line::lemma_quoted_argument(name, line2);
    command_line::lemma_plain_argument("--pending-exec"@, line1);
    assert(command_line::split_arguments(line) =~= restart_arguments(
        name,
        interval_ms,
        enable_network,
        retention_secs,
    ));
}

/// The pending monitoring configuration is carried across the restart: the restarted process, whose
/// arguments are its path and what its parameters split into, reads the same configuration, with
/// the executable's name freed of quotes.
pub proof fn law_restart_carries_configuration(
    program: Seq<char>,
    executable: Seq<char>,
    interval_ms: u64,
    enable_network: bool,
    retention_secs: u64,
)
    requires
        program != "--pending-exec"@,
        program != "--pending-interval"@,
        program != "--pending-retention"@,
        program != "--pending-network"@,
    ensures
        restart_params(
            seq![program] + command_line::split_arguments(
                restart_line(executable, interval_ms, enable_network, retention_secs),
            ),
        ) == Some(
            RestartParamsView {
                executable: without_quotes(executable),
                interval_ms,
                enable_network,
                retention_secs,
            },
        ),
{
    law_restart_line_splits(executable, interval_ms, enable_network, retention_secs);
    law_restart_arguments_round_trip(
        program,
        without_quotes(executable),
        interval_ms,
        enable_network,
        retention_secs,
    );
}

/// A name without quotes is carried unchanged.
pub proof fn law_name_without_quotes_is_unchanged(s: Seq<char>)
    requires
        forall|i: int| 0 <= i < s.len() ==> s[i] != '"',
    ensures
        without_quotes(s) == s,
    decreases s.len(),
{
    reveal(Seq::filter);
    if s.len() > 0 {
        law_name_without_quotes_is_unchanged(s.drop_last());
        assert(s.drop_last().push(s.last()) == s);
    }
}

/// What the arguments before have said, as restart parameters with their defaults.
pub open spec fn resolved(pending: Pending) -> Option<RestartParamsView> {
    match pending.executable {
        None => None,
        Some(executable) => Some(
            RestartParamsView {
                executable,
                interval_ms: if pending.interval_ms is Some {
                    pending.interval_ms->0
                } else {
                    1000
                },
                enable_network: pending.enable_network,
                retention_secs: if pending.retention_secs is Some {
                    pending.retention_secs->0
                } else {
                    300
                },
            },
        ),
    }
}

/// Without arguments there are no parameters. What an argument says is taken up before those that
/// follow: an option with a value takes the next argument as that, whatever it reads; the option for
/// the network stands alone; everything else, and an option at the end without its value, says
/// nothing. A number that cannot be read leaves the default of 1000 milliseconds or 300 seconds.
pub proof fn law_arguments_one_by_one(pending: Pending, value: Seq<char>, rest: Seq<Seq<char>>)
    ensures
        restart_params(Seq::empty()) is None,
        restart_params(rest) == resolved(
            with_arguments(
                Pending {
                    executable: None,
                    interval_ms: None,
                    retention_secs: None,
                    enable_network: false,
                },
                rest,
            ),
        ),
        with_arguments(pending, Seq::empty()) == pending,
        with_arguments(pending, seq!["--pending-exec"@, value] + rest) == with_arguments(
            Pending { executable: Some(value), ..pending },
            rest,
        ),
        with_arguments(pending, seq!["--pending-interval"@, value] + rest) == with_arguments(
            Pending { interval_ms: text::read_u64(value), ..pending },
            rest,
        ),
        with_arguments(pending, seq!["--pending-retention"@, value] + rest) == with_arguments(
            Pending { retention_secs: text::read_u64(value), ..pending },
            rest,
        ),
        with_arguments(pending, seq!["--pending-network"@] + rest) == with_arguments(
            Pending { enable_network: true, ..pending },
            rest,
        ),
        value != "--pending-exec"@ && value != "--pending-interval"@ && value
            != "--pending-retention"@ && value != "--pending-network"@ ==> with_arguments(
            pending,
            seq![value] + rest,
        ) == with_arguments(pending, rest),
        value != "--pending-network"@ ==> with_arguments(pending, seq![value]) == pending,
{
    lemma_options_differ();
    let exec = seq!["--pending-exec"@, value] + rest;
    let interval = seq!["--pending-interval"@, value] + rest;
    let retention = seq!["--pending-retention"@, value] + rest;
    let network = seq!["--pending-network"@] + rest;
    assert(exec[0] == "--pending-exec"@ && exec[1] == value && exec.skip(2) =~= rest);
    assert(interval[0] == "--pending-interval"@ && interval[1] == value && interval.skip(2)
        =~= rest);
    assert(retention[0] == "--pending-retention"@ && retention[1] == value && retention.skip(2)
        =~= rest);
    assert(network[0] == "--pending-network"@ && network.skip(1) =~= rest);
    assert((seq![value] + rest)[0] == value && (seq![value] + rest).skip(1) =~= rest);
    assert(seq![value].skip(1) =~= Seq::<Seq<char>>::empty());
    assert(with_arguments(pending, Seq::empty()) == pending);
}

/// The line of the restarted process: the option for the executable with its name in quotes, those
/// for the interval and for the retention window with their numbers, and that for the network where
/// it is enabled. The name loses its quotes, and backslashes at its end are doubled.
pub proof fn law_restart_line(
    executable: Seq<char>,
    interval_ms: u64,
    enable_network: bool,
    retention_secs: u64,
    name: Seq<char>,
    n: nat,
)
    requires
        executable.filter(|c: char| c != '"') == name + Seq::new(n, |i: int| '\\'),
        name.len() > 0 ==> name.last() != '\\',
    ensures
        restart_line(executable, interval_ms, enable_network, retention_secs)
            == "--pending-exec \""@ + (name + Seq::new(2 * n, |i: int| '\\'))
            + "\" --pending-interval "@ + text::decimal(interval_ms as nat)
            + " --pending-retention "@ + text::decimal(retention_secs as nat) + " "@ + (
        if enable_network {
            "--pending-network"@
        } else {
            ""@
        }),
{
    lemma_same_without_quotes(executable);
    let bare = without_quotes(executable);
    lemma_trailing(name, n);
    assert(bare =~= name + Seq::new(n, |i: int| '\\'));
    assert(command_line::between_quotes(bare) =~= name + Seq::new(2 * n, |i: int| '\\'));
}

proof fn lemma_same_without_quotes(s: Seq<char>)
    ensures
        without_quotes(s) == s.filter(|c: char| c != '"'),
    decreases s.len(),
{
    reveal(Seq::filter);
    if s.len() > 0 {
        lemma_same_without_quotes(s.drop_last());
    }
}

proof fn lemma_trailing(name: Seq<char>, n: nat)
    requires
        name.len() > 0 ==> name.last() != '\\',
    ensures
        command_line::trailing_backslashes(name + Seq::new(n, |i: int| '\\')) == n,
    decreases n,
{
    let s = name + Seq::new(n, |i: int| '\\');
    if n > 0 {
        let fewer = (n - 1) as nat;
        lemma_trailing(name, fewer);
        assert(s.drop_last() =~= name + Seq::new(fewer, |i: int| '\\'));
    } else {
        assert(s =~= name);
    }
}

/// The view of restart parameters shows their fields.
pub proof fn law_restart_params_show_fields(params: RestartParams)
    ensures
        params@.executable == params.executable@,
        params@.interval_ms == params.interval_ms,
        params@.enable_network == params.enable_network,
        params@.retention_secs == params.retention_secs,
{
}

} // verus!
