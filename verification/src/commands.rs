//! What the frontend's commands decide: the helper's status, the checks
//! before an install, and the per-terminal report of an install. The
//! commands themselves, their I/O and the events they send are the
//! caller's.

use vstd::prelude::*;
use crate::api::EaSource;
use crate::ini_writer::IniEditResult;
use crate::mt5_discovery::Terminal;
use crate::mt5_launcher::TargetOs;
use crate::profile_writer::ProfileWriteOutcome;
use crate::telemetry::{error_event, events_view, phase_event, FunnelEvent};
use crate::text::{chars_of, string_of};

verus! {

/// Whether the helper is paired, which key, and its version.
#[derive(Clone)]
pub struct HelperStatus {
    pub paired: bool,
    pub api_key_prefix: Option<String>,
    pub version: String,
}

/// The first 11 characters of a key (all of a shorter one).
pub open spec fn key_prefix(k: Seq<char>) -> Seq<char> {
    k.take(if k.len() < 11 { k.len() as int } else { 11 })
}

/// The status for the key in the keychain (`None`: none, or unreadable).
pub fn status_from(loaded: Option<String>, version: &str) -> (r: HelperStatus)
    ensures
        r.paired == loaded is Some,
        match loaded {
            Some(k) => r.api_key_prefix matches Some(p) && p@ == key_prefix(k@),
            None => r.api_key_prefix is None,
        },
        r.version@ == version@,
{
    let prefix = match &loaded {
        Some(k) => {
            let cs = chars_of(k.as_str());
            let n: usize = if cs.len() < 11 { cs.len() } else { 11 };
            let mut p: Vec<char> = Vec::new();
            let mut i: usize = 0;
            while i < n
                invariant
                    n <= cs@.len(),
                    i <= n,
                    p@ == cs@.take(i as int),
                decreases n - i,
            {
                p.push(cs[i]);
                i = i + 1;
                assert(cs@.take(i as int) == cs@.take(i - 1).push(cs@[i - 1]));
            }
            Some(string_of(p.as_slice()))
        },
        None => None,
    };
    HelperStatus { paired: loaded.is_some(), api_key_prefix: prefix, version: String::from_str(version) }
}

/// The refusal of an install while MT5 runs.
pub const MT5_RUNNING_ERROR: &'static str = "MT5 is currently running. Please close MT5 and try again.";

/// The stored key, or the error: the keychain's own, or `not_paired` when
/// there is no key.
pub fn require_paired(loaded: Result<Option<String>, String>, not_paired: &str) -> (r: Result<String, String>)
    ensures
        match loaded {
            Ok(Some(k)) => r == Ok::<String, String>(k),
            Ok(None) => r matches Err(e) && e@ == not_paired@,
            Err(e) => r == Err::<String, String>(e),
        },
{
    match loaded {
        Ok(Some(k)) => Ok(k),
        Ok(None) => Err(String::from_str(not_paired)),
        Err(e) => Err(e),
    }
}

/// The EA source of a fresh fetch; a "not modified" reply is an error
/// there, since no version was sent.
pub fn require_fresh_source(fetched: Option<EaSource>) -> (r: Result<EaSource, String>)
    ensures
        match fetched {
            Some(s) => r == Ok::<EaSource, String>(s),
            None => r matches Err(e) && e@ == "unexpected 304 for fresh ea-source fetch"@,
        },
{
    match fetched {
        Some(s) => Ok(s),
        None => Err(String::from_str("unexpected 304 for fresh ea-source fetch")),
    }
}

/// How whitelisting went for one terminal.
pub struct WhitelistSummary {
    pub terminal: String,
    pub edited: bool,
    pub already_present: bool,
    pub error: Option<String>,
}

/// How the profile went for one terminal.
pub struct ProfileSummary {
    pub terminal: String,
    pub outcome: ProfileWriteOutcome,
}

/// The report of an install over all terminals found.
pub struct InstallEaResult {
    pub written_to: Vec<String>,
    pub whitelist_results: Vec<WhitelistSummary>,
    pub profile_results: Vec<ProfileSummary>,
}

/// The whitelist summary of one terminal.
pub open spec fn whitelist_summary(terminal: Seq<char>, r: Result<IniEditResult, String>) -> (Seq<char>, bool, bool, Option<Seq<char>>) {
    match r {
        Ok(e) => (terminal, e.edited, e.already_present, None),
        Err(e) => (terminal, false, false, Some(e@)),
    }
}

/// A whitelist summary as characters.
pub open spec fn summary_view(s: WhitelistSummary) -> (Seq<char>, bool, bool, Option<Seq<char>>) {
    (s.terminal@, s.edited, s.already_present, match s.error {
        Some(e) => Some(e@),
        None => None,
    })
}

/// The events of one terminal's install steps, in order: the EA write,
/// the whitelist edit, the profile.
pub open spec fn terminal_events(
    ea: Result<String, String>,
    whitelist: Result<IniEditResult, String>,
    profile: Result<ProfileWriteOutcome, String>,
) -> Seq<(Seq<char>, Option<Seq<char>>, Option<Seq<char>>, Option<usize>)> {
    (match ea {
        Ok(_) => seq![("ea-written"@, None::<Seq<char>>, None::<Seq<char>>, None::<usize>)],
        Err(e) => seq![("error"@, None::<Seq<char>>, Some(e@), None::<usize>)],
    }) + (match whitelist {
        Ok(r) => if r.edited {
            seq![("ini-whitelisted"@, None::<Seq<char>>, None::<Seq<char>>, None::<usize>)]
        } else {
            Seq::empty()
        },
        Err(_) => Seq::empty(),
    }) + (match profile {
        Ok(ProfileWriteOutcome::Written) => seq![("profile-written"@, None::<Seq<char>>, None::<Seq<char>>, None::<usize>)],
        Ok(_) => Seq::empty(),
        Err(e) => seq![("error"@, None::<Seq<char>>, Some(e@), None::<usize>)],
    })
}

/// The status shows the key's first 11 characters (all of a shorter
/// key): enough to tell keys apart, never the whole 67-character key.
pub proof fn lemma_key_prefix_is_start(k: Seq<char>)
    ensures
        key_prefix(k).len() == if k.len() < 11 { k.len() } else { 11 },
        forall|i: int| 0 <= i < key_prefix(k).len() ==> #[trigger] key_prefix(k)[i] == k[i],
{
}

/// The events of one terminal's install, in order: first `ea-written`, or
/// an `error` event with the EA's error; then `ini-whitelisted` exactly
/// when the edit changed `terminal.ini` (a failed edit, or a file that
/// lists the origin already, sends nothing); last `profile-written`
/// exactly when the profile was written with the EA attached, or an
/// `error` event with the profile's error, or nothing.
pub proof fn lemma_terminal_events_report(
    ea: Result<String, String>,
    whitelist: Result<IniEditResult, String>,
    profile: Result<ProfileWriteOutcome, String>,
)
    ensures
        ({
            let ev = terminal_events(ea, whitelist, profile);
            let none = None::<Seq<char>>;
            let edited = whitelist matches Ok(w) && w.edited;
            let written = profile == Ok::<ProfileWriteOutcome, String>(ProfileWriteOutcome::Written);
            let last = written || profile is Err;
            &&& ev.len() == 1 + (if edited { 1int } else { 0int }) + (if last { 1int } else { 0int })
            &&& ea is Ok ==> ev[0] == ("ea-written"@, none, none, None::<usize>)
            &&& ea matches Err(e) ==> ev[0] == ("error"@, none, Some(e@), None::<usize>)
            &&& ev.contains(("ini-whitelisted"@, none, none, None::<usize>)) <==> edited
            &&& edited ==> ev[1] == ("ini-whitelisted"@, none, none, None::<usize>)
            &&& ev.contains(("profile-written"@, none, none, None::<usize>)) <==> written
            &&& written ==> ev.last() == ("profile-written"@, none, none, None::<usize>)
            &&& profile matches Err(e) ==> ev.last() == ("error"@, none, Some(e@), None::<usize>)
        }),
{
    reveal_strlit("ea-written");
    reveal_strlit("error");
    reveal_strlit("ini-whitelisted");
    reveal_strlit("profile-written");
    let ev = terminal_events(ea, whitelist, profile);
    let none = None::<Seq<char>>;
    let iw = ("ini-whitelisted"@, none, none, None::<usize>);
    let pw = ("profile-written"@, none, none, None::<usize>);
    assert("ea-written"@[0] != "ini-whitelisted"@[0]);
    assert("error"@[1] != "ini-whitelisted"@[1]);
    assert("profile-written"@[0] != "ini-whitelisted"@[0]);
    assert("ea-written"@[0] != "profile-written"@[0]);
    assert("error"@[0] != "profile-written"@[0]);
    if ev.contains(iw) {
        let j = choose|j: int| 0 <= j < ev.len() && ev[j] == iw;
        assert(ev[j].0 == iw.0);
    }
    if ev.contains(pw) {
        let j = choose|j: int| 0 <= j < ev.len() && ev[j] == pw;
        assert(ev[j].0 == pw.0);
    }
    if whitelist matches Ok(w) && w.edited {
        assert(ev[1] == iw);
    }
    if profile matches Ok(ProfileWriteOutcome::Written) {
        assert(ev[ev.len() - 1] == pw);
    }
}

/// A terminal's whitelist summary passes the edit's result on as it came:
/// a successful edit's `edited` and `already_present` flags, unchanged and
/// with no error (a reinstall over an already whitelisted file reports
/// it present); a failed edit as neither edited nor present, with its
/// error text.
pub proof fn lemma_whitelist_summary_keeps_result(terminal: Seq<char>, r: Result<IniEditResult, String>)
    ensures
        whitelist_summary(terminal, r).0 == terminal,
        r matches Ok(e) ==> whitelist_summary(terminal, r).1 == e.edited
            && whitelist_summary(terminal, r).2 == e.already_present
            && whitelist_summary(terminal, r).3 is None,
        r matches Err(e) ==> !whitelist_summary(terminal, r).1
            && !whitelist_summary(terminal, r).2
            && whitelist_summary(terminal, r).3 == Some(e@),
{
}

impl InstallEaResult {
    /// The report before any terminal.
    pub fn new() -> (r: InstallEaResult)
        ensures
            r.written_to@.len() == 0,
            r.whitelist_results@.len() == 0,
            r.profile_results@.len() == 0,
    {
        InstallEaResult { written_to: Vec::new(), whitelist_results: Vec::new(), profile_results: Vec::new() }
    }

    /// Adds one terminal's results: the path of its written EA, its
    /// whitelist summary (an error included), and its profile outcome
    /// (an error dropped). Returns the events to send for it; the install
    /// goes on with the next terminal whatever failed.
    pub fn record_terminal(
        &mut self,
        terminal: &Terminal,
        ea: Result<String, String>,
        whitelist: Result<IniEditResult, String>,
        profile: Result<ProfileWriteOutcome, String>,
    ) -> (events: Vec<FunnelEvent>)
        ensures
            final(self).written_to@ == old(self).written_to@ + match ea {
                Ok(p) => seq![p],
                Err(_) => Seq::<String>::empty(),
            },
            final(self).whitelist_results@.len() == old(self).whitelist_results@.len() + 1,
            forall|i: int| 0 <= i < old(self).whitelist_results@.len() ==> final(self).whitelist_results@[i] == old(self).whitelist_results@[i],
            summary_view(final(self).whitelist_results@.last()) == whitelist_summary(terminal.data_dir@, whitelist),
            final(self).whitelist_results@.last().terminal@ == terminal.data_dir@,
            whitelist matches Ok(w) ==> {
                let s = final(self).whitelist_results@.last();
                s.edited == w.edited && s.already_present == w.already_present && s.error is None
            },
            whitelist matches Err(e) ==> {
                let s = final(self).whitelist_results@.last();
                !s.edited && !s.already_present && s.error == Some(e)
            },
            final(self).profile_results@.len() == old(self).profile_results@.len() + if profile is Ok { 1int } else { 0int },
            forall|i: int| 0 <= i < old(self).profile_results@.len() ==> final(self).profile_results@[i] == old(self).profile_results@[i],
            profile matches Ok(o) ==> final(self).profile_results@.last().terminal@ == terminal.data_dir@
                && final(self).profile_results@.last().outcome == o,
            events_view(events@) == terminal_events(ea, whitelist, profile),
    {
        let mut events: Vec<FunnelEvent> = Vec::new();
        let ghost ea0 = ea;
        let ghost wl0 = whitelist;
        let ghost pr0 = profile;
        match ea {
            Ok(path) => {
                self.written_to.push(path);
                events.push(phase_event("ea-written"));
            },
            Err(e) => {
                events.push(error_event(e));
            },
        }
        let ghost ev1 = events@;
        match whitelist {
            Ok(r) => {
                let edited = r.edited;
                self.whitelist_results.push(
                    WhitelistSummary {
                        terminal: terminal.data_dir.clone(),
                        edited: r.edited,
                        already_present: r.already_present,
                        error: None,
                    },
                );
                if edited {
                    events.push(phase_event("ini-whitelisted"));
                }
            },
            Err(e) => {
                self.whitelist_results.push(
                    WhitelistSummary {
                        terminal: terminal.data_dir.clone(),
                        edited: false,
                        already_present: false,
                        error: Some(e),
                    },
                );
            },
        }
        let ghost ev2 = events@;
        match profile {
            Ok(outcome) => {
                let written = match &outcome {
                    ProfileWriteOutcome::Written => true,
                    _ => false,
                };
                if written {
                    events.push(phase_event("profile-written"));
                }
                self.profile_results.push(ProfileSummary { terminal: terminal.data_dir.clone(), outcome });
            },
            Err(e) => {
                events.push(error_event(e));
            },
        }
        assert(events_view(events@) == events_view(ev1) + events_view(ev2.skip(ev1.len() as int))
            + events_view(events@.skip(ev2.len() as int)));
        events
    }
}

/// The command that opens a URL in the default browser: `open <url>` on
/// macOS, `cmd /C start "" <url>` on Windows, `xdg-open <url>` on Linux.
pub fn open_url_command(os: TargetOs, url: &str) -> (r: Option<(String, Vec<String>)>)
    ensures
        match os {
            TargetOs::MacOs => r matches Some(c) && c.0@ == "open"@ && c.1@.map_values(|s: String| s@)
                == seq![url@],
            TargetOs::Windows => r matches Some(c) && c.0@ == "cmd"@ && c.1@.map_values(|s: String| s@)
                == seq!["/C"@, "start"@, ""@, url@],
            TargetOs::Linux => r matches Some(c) && c.0@ == "xdg-open"@ && c.1@.map_values(|s: String| s@)
                == seq![url@],
            TargetOs::Other => r is None,
        },
{
    match os {
        TargetOs::MacOs => {
            let mut args: Vec<String> = Vec::new();
            args.push(String::from_str(url));
            assert(args@.map_values(|s: String| s@) == seq![url@]);
            Some((String::from_str("open"), args))
        },
        TargetOs::Windows => {
            let mut args: Vec<String> = Vec::new();
            args.push(String::from_str("/C"));
            args.push(String::from_str("start"));
            args.push(String::from_str(""));
            args.push(String::from_str(url));
            assert(args@.map_values(|s: String| s@) == seq!["/C"@, "start"@, ""@, url@]);
            Some((String::from_str("cmd"), args))
        },
        TargetOs::Linux => {
            let mut args: Vec<String> = Vec::new();
            args.push(String::from_str(url));
            assert(args@.map_values(|s: String| s@) == seq![url@]);
            Some((String::from_str("xdg-open"), args))
        },
        TargetOs::Other => None,
    }
}

/// The website's connect page, where pairing starts: `<base>/broker`.
pub fn broker_page_url(base: &str) -> (r: String)
    ensures
        r@ == base@ + "/broker"@,
{
    let mut r = String::from_str(base);
    r.append("/broker");
    r
}

} // verus!
