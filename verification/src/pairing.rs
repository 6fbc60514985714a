//! Pairing: the code that a `markitel://pair?code=XXXXXX` link or the
//! user hands over, and the pairing flow as steps from state and outside
//! answer to next state and actions: exchange the code, save the key,
//! tell the UI, then install the EA unless MT5 runs. The caller performs
//! each action and hands back the answer.

use vstd::prelude::*;
use crate::api::PairExchangeResp;
use crate::commands::InstallEaResult;
use crate::telemetry::{event_view, funnel_event, phase_event, FunnelEvent};
use crate::text::{chars_eq, chars_of, trim, trim_str};
use crate::unicode_case::{to_uppercase, uppercase};

verus! {

/// The name/value pairs of a URL's query as `url::Url::parse` followed by
/// `Url::query_pairs` gives them (decoded), or `None` when the text does
/// not parse as a URL.
pub uninterp spec fn url_query_pairs(url: Seq<char>) -> Option<Seq<(Seq<char>, Seq<char>)>>;

/// The characters of a list of string pairs.
pub open spec fn pair_views(v: Seq<(String, String)>) -> Seq<(Seq<char>, Seq<char>)> {
    v.map_values(|p: (String, String)| (p.0@, p.1@))
}

/// Parses `url` with `url::Url::parse` and, when it parses, collects its
/// `Url::query_pairs` (the `form_urlencoded` decoding of the query) as
/// owned strings. Claims only that the result is `url_query_pairs` of the
/// text: `None` exactly when the text does not parse, else the decoded
/// pairs in order, a function of the text alone.
#[verifier::external_body]
fn query_pairs(url: &str) -> (r: Option<Vec<(String, String)>>)
    ensures
        match r {
            Some(v) => url_query_pairs(url@) == Some(pair_views(v@)),
            None => url_query_pairs(url@) is None,
        },
{
    match url::Url::parse(url) {
        Ok(u) => Some(u.query_pairs().into_owned().collect()),
        Err(_) => None,
    }
}

/// A pairing code as the helper uses it: trimmed, then upper-cased.
pub open spec fn cleaned_code(v: Seq<char>) -> Seq<char> {
    uppercase(trim(v))
}

/// The first `code` pair whose cleaned value is not empty, cleaned.
pub open spec fn code_in_pairs(ps: Seq<(Seq<char>, Seq<char>)>) -> Option<Seq<char>>
    decreases ps.len(),
{
    if ps.len() == 0 {
        None
    } else if ps[0].0 == "code"@ && cleaned_code(ps[0].1).len() > 0 {
        Some(cleaned_code(ps[0].1))
    } else {
        code_in_pairs(ps.drop_first())
    }
}

/// The pairing code among a URL's query pairs is the cleaned value of the
/// first pair named exactly `code` whose cleaned value is not empty: pairs
/// with another name (`Code`, `codes`) and blank codes are passed over,
/// and there is none when no pair qualifies.
pub proof fn lemma_code_is_first_nonblank_code(ps: Seq<(Seq<char>, Seq<char>)>)
    ensures
        match code_in_pairs(ps) {
            Some(c) => exists|i: int|
                0 <= i < ps.len() && ps[i].0 == "code"@ && #[trigger] cleaned_code(ps[i].1) == c && c.len() > 0
                    && forall|j: int| 0 <= j < i ==> !(ps[j].0 == "code"@ && #[trigger] cleaned_code(ps[j].1).len() > 0),
            None => forall|i: int| 0 <= i < ps.len() ==> !(ps[i].0 == "code"@ && #[trigger] cleaned_code(ps[i].1).len() > 0),
        },
    decreases ps.len(),
{
    if ps.len() > 0 {
        let rest = ps.drop_first();
        lemma_code_is_first_nonblank_code(rest);
        if ps[0].0 == "code"@ && cleaned_code(ps[0].1).len() > 0 {
            assert(cleaned_code(ps[0].1) == cleaned_code(ps[0].1));
        } else {
            match code_in_pairs(rest) {
                Some(c) => {
                    let i = choose|i: int|
                        0 <= i < rest.len() && rest[i].0 == "code"@ && #[trigger] cleaned_code(rest[i].1) == c
                            && c.len() > 0 && forall|j: int|
                            0 <= j < i ==> !(rest[j].0 == "code"@ && #[trigger] cleaned_code(rest[j].1).len() > 0);
                    assert(ps[i + 1] == rest[i]);
                    assert forall|j: int| 0 <= j < i + 1 implies !(ps[j].0 == "code"@ && #[trigger] cleaned_code(
                        ps[j].1,
                    ).len() > 0) by {
                        if j > 0 {
                            assert(ps[j] == rest[j - 1]);
                        }
                    }
                },
                None => {
                    assert forall|i: int| 0 <= i < ps.len() implies !(ps[i].0 == "code"@ && #[trigger] cleaned_code(
                        ps[i].1,
                    ).len() > 0) by {
                        if i > 0 {
                            assert(ps[i] == rest[i - 1]);
                        }
                    }
                },
            }
        }
    }
}

/// A pairing code, trimmed and upper-cased.
pub fn clean_code(code: &str) -> (r: String)
    ensures
        r@ == cleaned_code(code@),
{
    let t = trim_str(code);
    to_uppercase(t.as_str())
}

/// The pairing code among a URL's query pairs: the first `code` whose
/// cleaned value is not empty, cleaned.
pub fn code_from_pairs(pairs: &Vec<(String, String)>) -> (r: Option<String>)
    ensures
        match r {
            Some(c) => code_in_pairs(pair_views(pairs@)) == Some(c@),
            None => code_in_pairs(pair_views(pairs@)) is None,
        },
{
    let ghost ps = pair_views(pairs@);
    let key = chars_of("code");
    let mut i: usize = 0;
    assert(ps.skip(0) == ps);
    while i < pairs.len()
        invariant
            i <= pairs@.len(),
            ps == pair_views(pairs@),
            key@ == "code"@,
            code_in_pairs(ps) == code_in_pairs(ps.skip(i as int)),
        decreases pairs@.len() - i,
    {
        let ghost rest = ps.skip(i as int);
        assert(rest[0] == (pairs@[i as int].0@, pairs@[i as int].1@));
        assert(rest.drop_first() == ps.skip(i + 1));
        let k = chars_of(pairs[i].0.as_str());
        if chars_eq(k.as_slice(), key.as_slice()) {
            let cleaned = clean_code(pairs[i].1.as_str());
            if !cleaned.as_str().is_empty() {
                return Some(cleaned);
            }
        }
        i = i + 1;
    }
    None
}

/// The pairing code of a `markitel://pair?code=XXXXXX` link: the first
/// non-empty `code` query value, trimmed and upper-cased.
pub fn parse_code(url: &str) -> (r: Option<String>)
    ensures
        match url_query_pairs(url@) {
            Some(ps) => match r {
                Some(c) => code_in_pairs(ps) == Some(c@),
                None => code_in_pairs(ps) is None,
            },
            None => r is None,
        },
{
    match query_pairs(url) {
        Some(pairs) => code_from_pairs(&pairs),
        None => None,
    }
}

/// What the UI is told once pairing succeeds.
#[derive(Clone)]
pub struct PairedEvent {
    pub user_id: String,
    pub user_email: Option<String>,
    pub api_key_prefix: String,
    pub broker_name: String,
}

/// The paired event of an exchange reply: who paired, and which
/// connection's key.
pub open spec fn paired_of(resp: PairExchangeResp) -> PairedEvent {
    PairedEvent {
        user_id: resp.user_id,
        user_email: resp.user_email,
        api_key_prefix: resp.connection.api_key_prefix,
        broker_name: resp.connection.broker_name,
    }
}

/// What the UI is told of a pairing: the reply's user and e-mail, and the
/// connection's key prefix and broker, as the reply gave them; the code it
/// is told of is the typed or linked code with its surrounding white space
/// dropped and upper-cased.
pub proof fn lemma_paired_event_fields(resp: PairExchangeResp, code: Seq<char>)
    ensures
        paired_of(resp).user_id == resp.user_id,
        paired_of(resp).user_email == resp.user_email,
        paired_of(resp).api_key_prefix == resp.connection.api_key_prefix,
        paired_of(resp).broker_name == resp.connection.broker_name,
        cleaned_code(code) == uppercase(trim(code)),
{
}

impl PairedEvent {
    /// A copy of the event.
    pub fn copied(&self) -> (r: PairedEvent)
        ensures
            r == *self,
    {
        PairedEvent {
            user_id: self.user_id.clone(),
            user_email: clone_opt(&self.user_email),
            api_key_prefix: self.api_key_prefix.clone(),
            broker_name: self.broker_name.clone(),
        }
    }
}

fn clone_opt(s: &Option<String>) -> (r: Option<String>)
    ensures
        r == *s,
{
    match s {
        Some(v) => Some(v.clone()),
        None => None,
    }
}

/// The paired event for an exchange reply: who paired, and which
/// connection's key.
pub fn paired_event(resp: &PairExchangeResp) -> (r: PairedEvent)
    ensures
        r == paired_of(*resp),
{
    PairedEvent {
        user_id: resp.user_id.clone(),
        user_email: clone_opt(&resp.user_email),
        api_key_prefix: resp.connection.api_key_prefix.clone(),
        broker_name: resp.connection.broker_name.clone(),
    }
}

/// Where a pairing stands between two outside steps.
pub enum PairState {
    /// The code is being exchanged for a key.
    Exchanging { code: String },
    /// The key is being saved to the keychain.
    Saving { code: String, api_key: String, event: PairedEvent },
    /// The helper asks whether MT5 runs, before installing the EA.
    CheckingMt5 { api_key: String, event: PairedEvent },
    /// The EA is being installed with the new key.
    Installing { event: PairedEvent },
    /// The pairing has ended.
    Done,
}

/// What an outside step of the pairing reported.
pub enum PairEvent {
    /// The exchange's reply, or why it failed.
    Exchanged(Result<PairExchangeResp, String>),
    /// Whether the key was saved.
    Saved(Result<(), String>),
    /// Whether MT5 runs.
    Mt5Checked(bool),
    /// The install's report, or why it failed.
    Installed(Result<InstallEaResult, String>),
}

/// What the pairing asks of its caller, in order.
pub enum PairAction {
    /// Exchange this code with the API; answer with `Exchanged`.
    Exchange(String),
    /// Save this key to the keychain; answer with `Saved`.
    SaveKey(String),
    /// Send this funnel event.
    Fire(FunnelEvent),
    /// Tell the UI that pairing succeeded (`helper://paired`).
    EmitPaired(PairedEvent),
    /// Find out whether MT5 runs; answer with `Mt5Checked`.
    CheckMt5,
    /// Tell the UI that MT5 must be closed first (`helper://needs-mt5-closed`).
    EmitNeedsMt5Closed,
    /// Install the EA with this key; answer with `Installed`.
    Install(String),
    /// Hand the UI the install report (`helper://paired-and-installed`).
    EmitInstalled(InstallEaResult),
    /// Tell the UI that the install failed (`helper://install-error`).
    EmitInstallError(String),
    /// Tell the UI that pairing failed (`helper://pair-error`).
    EmitPairError(String),
    /// The pairing's result.
    Finish(Result<PairedEvent, String>),
}

/// `a` sends an event that reads as `e`.
pub open spec fn fires(a: PairAction, e: (Seq<char>, Option<Seq<char>>, Option<Seq<char>>, Option<usize>)) -> bool {
    a matches PairAction::Fire(f) && event_view(f) == e
}

/// Starts pairing with `code`: send `pair-started` with the code, then
/// exchange the code.
pub fn pair_start(code: String) -> (r: (PairState, Vec<PairAction>))
    ensures
        r.0 == (PairState::Exchanging { code }),
        r.1@.len() == 2,
        fires(r.1@[0], ("pair-started"@, Some(code@), None::<Seq<char>>, None::<usize>)),
        r.1@[1] == PairAction::Exchange(code),
{
    let mut actions: Vec<PairAction> = Vec::new();
    actions.push(PairAction::Fire(funnel_event("pair-started", Some(code.clone()), None)));
    actions.push(PairAction::Exchange(code.clone()));
    (PairState::Exchanging { code }, actions)
}

/// One step of pairing. A failed exchange or key save ends the pairing
/// with that error. Once the key is saved, `pair-exchanged` is sent with
/// the code, the UI is told who paired, and the helper checks for MT5.
/// While MT5 runs the install is deferred (`install-deferred-mt5-running`,
/// and the UI is asked to have MT5 closed); else the EA is installed. The
/// pairing succeeds once the key is saved, whatever the install gave: an
/// install failure is sent as `install-error` and shown to the UI. An
/// event that does not answer the state's step changes nothing.
pub fn pair_step(state: PairState, event: PairEvent) -> (r: (PairState, Vec<PairAction>))
    ensures
        match (state, event) {
            (PairState::Exchanging { code }, PairEvent::Exchanged(Ok(resp))) => {
                &&& r.0 == (PairState::Saving { code, api_key: resp.api_key, event: paired_of(resp) })
                &&& r.1@ == seq![PairAction::SaveKey(resp.api_key)]
            },
            (PairState::Exchanging { .. }, PairEvent::Exchanged(Err(e))) => {
                &&& r.0 is Done
                &&& r.1@ == seq![PairAction::Finish(Err(e))]
            },
            (PairState::Saving { code, api_key, event }, PairEvent::Saved(Ok(()))) => {
                &&& r.0 == (PairState::CheckingMt5 { api_key, event })
                &&& r.1@.len() == 3
                &&& fires(r.1@[0], ("pair-exchanged"@, Some(code@), None::<Seq<char>>, None::<usize>))
                &&& r.1@[1] == PairAction::EmitPaired(event)
                &&& r.1@[2] is CheckMt5
            },
            (PairState::Saving { .. }, PairEvent::Saved(Err(e))) => {
                &&& r.0 is Done
                &&& r.1@ == seq![PairAction::Finish(Err(e))]
            },
            (PairState::CheckingMt5 { event, .. }, PairEvent::Mt5Checked(true)) => {
                &&& r.0 is Done
                &&& r.1@.len() == 3
                &&& fires(r.1@[0], ("install-deferred-mt5-running"@, None::<Seq<char>>, None::<Seq<char>>, None::<usize>))
                &&& r.1@[1] is EmitNeedsMt5Closed
                &&& r.1@[2] == PairAction::Finish(Ok(event))
            },
            (PairState::CheckingMt5 { api_key, event }, PairEvent::Mt5Checked(false)) => {
                &&& r.0 == (PairState::Installing { event })
                &&& r.1@ == seq![PairAction::Install(api_key)]
            },
            (PairState::Installing { event }, PairEvent::Installed(Ok(report))) => {
                &&& r.0 is Done
                &&& r.1@ == seq![PairAction::EmitInstalled(report), PairAction::Finish(Ok(event))]
            },
            (PairState::Installing { event }, PairEvent::Installed(Err(e))) => {
                &&& r.0 is Done
                &&& r.1@.len() == 3
                &&& fires(r.1@[0], ("install-error"@, None::<Seq<char>>, Some(e@), None::<usize>))
                &&& r.1@[1] == PairAction::EmitInstallError(e)
                &&& r.1@[2] == PairAction::Finish(Ok(event))
            },
            (s, _) => r.0 == s && r.1@.len() == 0,
        },
{
    let mut actions: Vec<PairAction> = Vec::new();
    match (state, event) {
        (PairState::Exchanging { code }, PairEvent::Exchanged(Ok(resp))) => {
            let paired = paired_event(&resp);
            actions.push(PairAction::SaveKey(resp.api_key.clone()));
            (PairState::Saving { code, api_key: resp.api_key, event: paired }, actions)
        },
        (PairState::Exchanging { .. }, PairEvent::Exchanged(Err(e))) => {
            actions.push(PairAction::Finish(Err(e)));
            (PairState::Done, actions)
        },
        (PairState::Saving { code, api_key, event }, PairEvent::Saved(Ok(()))) => {
            actions.push(PairAction::Fire(funnel_event("pair-exchanged", Some(code), None)));
            actions.push(PairAction::EmitPaired(event.copied()));
            actions.push(PairAction::CheckMt5);
            (PairState::CheckingMt5 { api_key, event }, actions)
        },
        (PairState::Saving { .. }, PairEvent::Saved(Err(e))) => {
            actions.push(PairAction::Finish(Err(e)));
            (PairState::Done, actions)
        },
        (PairState::CheckingMt5 { api_key, event }, PairEvent::Mt5Checked(running)) => {
            if running {
                actions.push(PairAction::Fire(phase_event("install-deferred-mt5-running")));
                actions.push(PairAction::EmitNeedsMt5Closed);
                actions.push(PairAction::Finish(Ok(event)));
                (PairState::Done, actions)
            } else {
                actions.push(PairAction::Install(api_key));
                (PairState::Installing { event }, actions)
            }
        },
        (PairState::Installing { event }, PairEvent::Installed(Ok(report))) => {
            actions.push(PairAction::EmitInstalled(report));
            actions.push(PairAction::Finish(Ok(event)));
            (PairState::Done, actions)
        },
        (PairState::Installing { event }, PairEvent::Installed(Err(e))) => {
            actions.push(PairAction::Fire(funnel_event("install-error", None, Some(e.clone()))));
            actions.push(PairAction::EmitInstallError(e));
            actions.push(PairAction::Finish(Ok(event)));
            (PairState::Done, actions)
        },
        (s, _) => (s, actions),
    }
}

/// What follows a failed pairing that a deep link started: an `error`
/// event with the code and the error, and the error shown to the UI.
pub fn deep_link_failure(code: &str, error: String) -> (r: Vec<PairAction>)
    ensures
        r@.len() == 2,
        fires(r@[0], ("error"@, Some(code@), Some(error@), None::<usize>)),
        r@[1] == PairAction::EmitPairError(error),
{
    let mut actions: Vec<PairAction> = Vec::new();
    actions.push(PairAction::Fire(funnel_event("error", Some(String::from_str(code)), Some(error.clone()))));
    actions.push(PairAction::EmitPairError(error));
    actions
}

} // verus!
