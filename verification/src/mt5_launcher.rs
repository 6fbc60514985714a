//! Launching and terminating MT5: which operating-system commands do it
//! on each platform, and how long to keep waiting for MT5 to exit. The
//! commands are run by the caller.

use vstd::prelude::*;

verus! {

/// The platform the helper runs on.
#[derive(Clone, Copy, PartialEq, Eq, Structural, Debug)]
pub enum TargetOs {
    MacOs,
    Windows,
    Linux,
    Other,
}

/// A program and its arguments.
pub struct ProcessCommand {
    pub program: String,
    pub args: Vec<String>,
}

/// The characters of a list of strings.
pub open spec fn string_views(v: Seq<String>) -> Seq<Seq<char>> {
    v.map_values(|s: String| s@)
}

/// The program and arguments of a command, as characters.
pub open spec fn command_view(c: ProcessCommand) -> (Seq<char>, Seq<Seq<char>>) {
    (c.program@, string_views(c.args@))
}

fn command(program: &str, args: &[&str]) -> (r: ProcessCommand)
    ensures
        r.program@ == program@,
        string_views(r.args@) == args@.map_values(|a: &str| a@),
{
    let mut v: Vec<String> = Vec::new();
    let mut i: usize = 0;
    while i < args.len()
        invariant
            i <= args@.len(),
            string_views(v@) == args@.take(i as int).map_values(|a: &str| a@),
        decreases args@.len() - i,
    {
        let ghost prev = v@;
        v.push(String::from_str(args[i]));
        assert(string_views(v@) == string_views(prev).push(args@[i as int]@));
        assert(args@.take(i + 1).map_values(|a: &str| a@) == args@.take(i as int).map_values(
            |a: &str| a@,
        ).push(args@[i as int]@));
        i = i + 1;
    }
    assert(args@.take(args@.len() as int) == args@);
    ProcessCommand { program: String::from_str(program), args: v }
}

/// What opens MT5 on `os`.
pub open spec fn launch_command(os: TargetOs) -> Option<(Seq<char>, Seq<Seq<char>>)> {
    match os {
        TargetOs::MacOs => Some(("open"@, seq!["-a"@, "MetaTrader 5"@])),
        TargetOs::Windows => Some(("cmd"@, seq!["/C"@, "start"@, ""@, "MetaTrader 5"@])),
        _ => None,
    }
}

/// The command that opens MT5 through the operating system's app handler:
/// `open -a "MetaTrader 5"` on macOS, `cmd /C start "" "MetaTrader 5"` on
/// Windows. There is no programmatic launch elsewhere.
pub fn launch(os: TargetOs) -> (r: Result<ProcessCommand, String>)
    ensures
        match r {
            Ok(c) => launch_command(os) == Some(command_view(c)),
            Err(e) => launch_command(os) is None && e@ == "launch_mt5 unsupported on this OS"@,
        },
{
    match os {
        TargetOs::MacOs => {
            let c = command("open", &["-a", "MetaTrader 5"]);
            assert(string_views(c.args@) == seq!["-a"@, "MetaTrader 5"@]);
            Ok(c)
        },
        TargetOs::Windows => {
            let c = command("cmd", &["/C", "start", "", "MetaTrader 5"]);
            assert(string_views(c.args@) == seq!["/C"@, "start"@, ""@, "MetaTrader 5"@]);
            Ok(c)
        },
        _ => Err(String::from_str("launch_mt5 unsupported on this OS")),
    }
}

/// What opens MT5, for every platform: `open -a "MetaTrader 5"` on macOS,
/// `cmd /C start "" "MetaTrader 5"` on Windows, nothing elsewhere; a
/// failed launch is named after `start` on Windows, `open` elsewhere.
pub proof fn lemma_launch_commands_listed(os: TargetOs)
    ensures
        os == TargetOs::MacOs ==> launch_command(os) == Some(("open"@, seq!["-a"@, "MetaTrader 5"@])),
        os == TargetOs::Windows ==> launch_command(os) == Some(
            ("cmd"@, seq!["/C"@, "start"@, ""@, "MetaTrader 5"@]),
        ),
        os != TargetOs::MacOs && os != TargetOs::Windows ==> launch_command(os) is None,
        os == TargetOs::Windows ==> launch_verb(os) == "start"@,
        os != TargetOs::Windows ==> launch_verb(os) == "open"@,
{
}

/// The verb that a launch failure names: `start` on Windows, else `open`.
pub open spec fn launch_verb(os: TargetOs) -> Seq<char> {
    if os == TargetOs::Windows {
        "start"@
    } else {
        "open"@
    }
}

/// What a launch came to, given whether its command ran and exited
/// successfully, and else what went wrong (the spawn error, or the exit
/// status of a command that failed, as `open -a` does when no app of that
/// name is installed): `open MT5 failed: ...` (`start MT5 failed: ...` on
/// Windows), so that the UI can offer to open MT5 by hand.
pub fn launch_result(os: TargetOs, succeeded: bool, failure: &str) -> (r: Result<(), String>)
    ensures
        succeeded ==> r is Ok,
        !succeeded ==> (r matches Err(e) && e@ == launch_verb(os) + " MT5 failed: "@ + failure@),
{
    if succeeded {
        return Ok(());
    }
    let mut e = if os == TargetOs::Windows {
        String::from_str("start")
    } else {
        String::from_str("open")
    };
    e.append(" MT5 failed: ");
    e.append(failure);
    Err(e)
}

/// What force-quits MT5 on `os`, in order.
pub open spec fn terminate_commands(os: TargetOs) -> Option<Seq<(Seq<char>, Seq<Seq<char>>)>> {
    match os {
        TargetOs::MacOs => Some(
            seq![
                ("osascript"@, seq!["-e"@, "tell application \"MetaTrader 5\" to quit"@]),
                ("pkill"@, seq!["-9"@, "-x"@, "MetaTrader 5"@]),
                ("pkill"@, seq!["-9"@, "-x"@, "terminal64"@]),
                ("pkill"@, seq!["-9"@, "-x"@, "terminal"@]),
                ("pkill"@, seq!["-9"@, "-x"@, "MetaTrader5"@]),
            ],
        ),
        TargetOs::Windows => Some(
            seq![
                ("taskkill"@, seq!["/F"@, "/T"@, "/IM"@, "terminal64.exe"@]),
                ("taskkill"@, seq!["/F"@, "/T"@, "/IM"@, "terminal.exe"@]),
                ("taskkill"@, seq!["/F"@, "/T"@, "/IM"@, "MetaTrader 5.exe"@]),
            ],
        ),
        _ => None,
    }
}

/// What quits MT5, for every platform, command by command. On macOS: the
/// AppleScript quit of "MetaTrader 5", then an exact-name `pkill -9 -x` of
/// "MetaTrader 5" (the official app that may have ignored the quit),
/// "terminal64", "terminal" and "MetaTrader5". On Windows: `taskkill /F /T
/// /IM` of "terminal64.exe", "terminal.exe" and "MetaTrader 5.exe".
/// Nothing elsewhere.
pub proof fn lemma_terminate_commands_listed(os: TargetOs)
    ensures
        os == TargetOs::MacOs ==> (terminate_commands(os) matches Some(cs) && {
            &&& cs.len() == 5
            &&& cs[0] == ("osascript"@, seq!["-e"@, "tell application \"MetaTrader 5\" to quit"@])
            &&& cs[1] == ("pkill"@, seq!["-9"@, "-x"@, "MetaTrader 5"@])
            &&& cs[2] == ("pkill"@, seq!["-9"@, "-x"@, "terminal64"@])
            &&& cs[3] == ("pkill"@, seq!["-9"@, "-x"@, "terminal"@])
            &&& cs[4] == ("pkill"@, seq!["-9"@, "-x"@, "MetaTrader5"@])
        }),
        os == TargetOs::Windows ==> (terminate_commands(os) matches Some(cs) && {
            &&& cs.len() == 3
            &&& cs[0] == ("taskkill"@, seq!["/F"@, "/T"@, "/IM"@, "terminal64.exe"@])
            &&& cs[1] == ("taskkill"@, seq!["/F"@, "/T"@, "/IM"@, "terminal.exe"@])
            &&& cs[2] == ("taskkill"@, seq!["/F"@, "/T"@, "/IM"@, "MetaTrader 5.exe"@])
        }),
        os != TargetOs::MacOs && os != TargetOs::Windows ==> terminate_commands(os) is None,
{
}

/// The commands that quit MT5 so its files can be replaced: on macOS a
/// graceful AppleScript quit, then `pkill -9 -x` of each known process
/// name; on Windows `taskkill /F /T /IM` of each known image. Each
/// command's failure (nothing to kill) is to be ignored. Unsupported
/// elsewhere.
pub fn terminate(os: TargetOs) -> (r: Result<Vec<ProcessCommand>, String>)
    ensures
        match r {
            Ok(cs) => terminate_commands(os) == Some(cs@.map_values(|c: ProcessCommand| command_view(c))),
            Err(e) => terminate_commands(os) is None && e@ == "terminate_mt5 unsupported on this OS"@,
        },
{
    match os {
        TargetOs::MacOs => {
            let mut cs: Vec<ProcessCommand> = Vec::new();
            let c0 = command("osascript", &["-e", "tell application \"MetaTrader 5\" to quit"]);
            let c1 = command("pkill", &["-9", "-x", "MetaTrader 5"]);
            let c2 = command("pkill", &["-9", "-x", "terminal64"]);
            let c3 = command("pkill", &["-9", "-x", "terminal"]);
            let c4 = command("pkill", &["-9", "-x", "MetaTrader5"]);
            assert(string_views(c0.args@) == seq!["-e"@, "tell application \"MetaTrader 5\" to quit"@]);
            assert(string_views(c1.args@) == seq!["-9"@, "-x"@, "MetaTrader 5"@]);
            assert(string_views(c2.args@) == seq!["-9"@, "-x"@, "terminal64"@]);
            assert(string_views(c3.args@) == seq!["-9"@, "-x"@, "terminal"@]);
            assert(string_views(c4.args@) == seq!["-9"@, "-x"@, "MetaTrader5"@]);
            cs.push(c0);
            cs.push(c1);
            cs.push(c2);
            cs.push(c3);
            cs.push(c4);
            assert(cs@.map_values(|c: ProcessCommand| command_view(c)) == terminate_commands(os)->0);
            Ok(cs)
        },
        TargetOs::Windows => {
            let mut cs: Vec<ProcessCommand> = Vec::new();
            let c0 = command("taskkill", &["/F", "/T", "/IM", "terminal64.exe"]);
            let c1 = command("taskkill", &["/F", "/T", "/IM", "terminal.exe"]);
            let c2 = command("taskkill", &["/F", "/T", "/IM", "MetaTrader 5.exe"]);
            assert(string_views(c0.args@) == seq!["/F"@, "/T"@, "/IM"@, "terminal64.exe"@]);
            assert(string_views(c1.args@) == seq!["/F"@, "/T"@, "/IM"@, "terminal.exe"@]);
            assert(string_views(c2.args@) == seq!["/F"@, "/T"@, "/IM"@, "MetaTrader 5.exe"@]);
            cs.push(c0);
            cs.push(c1);
            cs.push(c2);
            assert(cs@.map_values(|c: ProcessCommand| command_view(c)) == terminate_commands(os)->0);
            Ok(cs)
        },
        _ => Err(String::from_str("terminate_mt5 unsupported on this OS")),
    }
}

/// The next step while waiting for MT5 to exit.
#[derive(Clone, Copy, PartialEq, Eq, Structural, Debug)]
pub enum WaitStep {
    /// MT5 is gone: the wait succeeded.
    Exited,
    /// The time is up and MT5 still runs: the wait failed.
    TimedOut,
    /// Sleep `POLL_INTERVAL_MS`, then look again.
    PollAgain,
}

/// Milliseconds between two looks at the process list.
pub const POLL_INTERVAL_MS: u64 = 150;

/// The step of `wait_until_exited` after one look at the process list,
/// `elapsed_ms` after the wait began.
pub fn wait_step(mt5_running: bool, elapsed_ms: u64, timeout_ms: u64) -> (r: WaitStep)
    ensures
        r == (if !mt5_running {
            WaitStep::Exited
        } else if elapsed_ms >= timeout_ms {
            WaitStep::TimedOut
        } else {
            WaitStep::PollAgain
        }),
{
    if !mt5_running {
        WaitStep::Exited
    } else if elapsed_ms >= timeout_ms {
        WaitStep::TimedOut
    } else {
        WaitStep::PollAgain
    }
}

} // verus!
