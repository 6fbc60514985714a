//! Install-funnel events. They are sent fire-and-forget by the caller; a
//! failure to send never affects the flow.

use vstd::prelude::*;

verus! {

/// One funnel event: its phase (`pair-started`, `pair-exchanged`,
/// `mt5-detected`, `mt5-not-found`, `ea-written`, `ini-whitelisted`,
/// `profile-written`, `mt5-launched`, `error`, ...), the pairing code of
/// the pairing events, the error text of an `error` or `install-error`
/// event, and the terminal count that `mt5-detected` reports.
pub struct FunnelEvent {
    pub phase: String,
    pub pairing_code: Option<String>,
    pub error: Option<String>,
    pub terminal_count: Option<usize>,
}

/// An optional string as characters.
pub open spec fn opt_chars(o: Option<String>) -> Option<Seq<char>> {
    match o {
        Some(s) => Some(s@),
        None => None,
    }
}

/// An event as characters: phase, pairing code, error text, terminal count.
pub open spec fn event_view(e: FunnelEvent) -> (Seq<char>, Option<Seq<char>>, Option<Seq<char>>, Option<usize>) {
    (e.phase@, opt_chars(e.pairing_code), opt_chars(e.error), e.terminal_count)
}

/// The events of a list, as characters.
pub open spec fn events_view(v: Seq<FunnelEvent>) -> Seq<(Seq<char>, Option<Seq<char>>, Option<Seq<char>>, Option<usize>)> {
    v.map_values(|e: FunnelEvent| event_view(e))
}

/// An event with a phase, and possibly a pairing code and an error text.
pub fn funnel_event(phase: &str, pairing_code: Option<String>, error: Option<String>) -> (r: FunnelEvent)
    ensures
        event_view(r) == (phase@, opt_chars(pairing_code), opt_chars(error), None::<usize>),
{
    FunnelEvent { phase: String::from_str(phase), pairing_code, error, terminal_count: None }
}

/// An event with only a phase.
pub fn phase_event(phase: &str) -> (r: FunnelEvent)
    ensures
        event_view(r) == (phase@, None::<Seq<char>>, None::<Seq<char>>, None::<usize>),
{
    funnel_event(phase, None, None)
}

/// An `error` event carrying `error`.
pub fn error_event(error: String) -> (r: FunnelEvent)
    ensures
        event_view(r) == ("error"@, None::<Seq<char>>, Some(error@), None::<usize>),
{
    funnel_event("error", None, Some(error))
}

/// The event that reports a discovery: `mt5-not-found` when no terminal
/// was found, else `mt5-detected` with the terminal count.
pub fn discovery_event(terminal_count: usize) -> (r: FunnelEvent)
    ensures
        event_view(r) == if terminal_count == 0 {
            ("mt5-not-found"@, None::<Seq<char>>, None::<Seq<char>>, None::<usize>)
        } else {
            ("mt5-detected"@, None::<Seq<char>>, None::<Seq<char>>, Some(terminal_count))
        },
{
    if terminal_count == 0 {
        phase_event("mt5-not-found")
    } else {
        FunnelEvent {
            phase: String::from_str("mt5-detected"),
            pairing_code: None,
            error: None,
            terminal_count: Some(terminal_count),
        }
    }
}

} // verus!
