use markitel_helper::api::{ConnectionSummary, PairExchangeResp};
use markitel_helper::commands::InstallEaResult;
use markitel_helper::pairing::{
    clean_code, code_from_pairs, deep_link_failure, pair_start, pair_step, paired_event, parse_code, PairAction,
    PairEvent, PairState,
};
use markitel_helper::telemetry::FunnelEvent;

#[test]
fn code_from_deep_link() {
    assert_eq!(parse_code("markitel://pair?code=abc123"), Some("ABC123".to_string()));
    assert_eq!(parse_code("markitel://pair?x=1&code=%20q7w8e9+&y=2"), Some("Q7W8E9".to_string()));
}

#[test]
fn first_non_empty_code_wins() {
    assert_eq!(parse_code("markitel://pair?code=&code=%20%20&code=zz&code=yy"), Some("ZZ".to_string()));
}

#[test]
fn missing_code() {
    assert_eq!(parse_code("markitel://pair"), None);
    assert_eq!(parse_code("markitel://pair?codes=abc"), None);
    assert_eq!(parse_code("markitel://pair?code="), None);
    assert_eq!(parse_code("not a url"), None);
}

#[test]
fn manual_code_is_cleaned_like_the_link() {
    assert_eq!(clean_code("  abc123\n"), "ABC123");
    assert_eq!(clean_code("straße"), "STRASSE");
    assert_eq!(clean_code(" \t "), "");
    let link = parse_code("markitel://pair?code=%20abc123%0A").unwrap();
    assert_eq!(link, clean_code("  abc123\n"));
}

#[test]
fn code_from_given_pairs() {
    let pairs = vec![
        ("code".to_string(), " ".to_string()),
        ("Code".to_string(), "no".to_string()),
        ("code".to_string(), "ok1".to_string()),
    ];
    assert_eq!(code_from_pairs(&pairs), Some("OK1".to_string()));
    assert_eq!(code_from_pairs(&Vec::new()), None);
}

#[test]
fn paired_event_copies_fields() {
    let resp = PairExchangeResp {
        api_key: "mk_x".to_string(),
        user_id: "u1".to_string(),
        user_email: Some("a@b.c".to_string()),
        connection: ConnectionSummary {
            id: "c1".to_string(),
            broker_name: "Exness".to_string(),
            platform: "mt5".to_string(),
            api_key_prefix: "mk_12345678".to_string(),
            is_active: Some(true),
            is_live: None,
        },
    };
    let e = paired_event(&resp);
    assert_eq!(e.user_id, "u1");
    assert_eq!(e.user_email, Some("a@b.c".to_string()));
    assert_eq!(e.api_key_prefix, "mk_12345678");
    assert_eq!(e.broker_name, "Exness");
}

fn reply() -> PairExchangeResp {
    PairExchangeResp {
        api_key: "mk_secret".to_string(),
        user_id: "u1".to_string(),
        user_email: None,
        connection: ConnectionSummary {
            id: "c1".to_string(),
            broker_name: "Exness".to_string(),
            platform: "mt5".to_string(),
            api_key_prefix: "mk_12345678".to_string(),
            is_active: None,
            is_live: None,
        },
    }
}

fn fired(a: &PairAction) -> (String, Option<String>, Option<String>) {
    match a {
        PairAction::Fire(FunnelEvent { phase, pairing_code, error, .. }) => {
            (phase.clone(), pairing_code.clone(), error.clone())
        }
        _ => panic!("expected a funnel event"),
    }
}

/// Runs the flow up to the MT5 check, returning the state there.
fn paired_until_mt5_check() -> PairState {
    let (s, a) = pair_start("ABC123".to_string());
    assert_eq!(a.len(), 2);
    assert_eq!(fired(&a[0]), ("pair-started".to_string(), Some("ABC123".to_string()), None));
    assert!(matches!(&a[1], PairAction::Exchange(c) if c == "ABC123"));
    let (s, a) = pair_step(s, PairEvent::Exchanged(Ok(reply())));
    assert_eq!(a.len(), 1);
    assert!(matches!(&a[0], PairAction::SaveKey(k) if k == "mk_secret"));
    let (s, a) = pair_step(s, PairEvent::Saved(Ok(())));
    assert_eq!(a.len(), 3);
    assert_eq!(fired(&a[0]), ("pair-exchanged".to_string(), Some("ABC123".to_string()), None));
    match &a[1] {
        PairAction::EmitPaired(e) => {
            assert_eq!(e.user_id, "u1");
            assert_eq!(e.api_key_prefix, "mk_12345678");
            assert_eq!(e.broker_name, "Exness");
        }
        _ => panic!("expected the paired event"),
    }
    assert!(matches!(&a[2], PairAction::CheckMt5));
    s
}

#[test]
fn pairing_defers_install_while_mt5_runs() {
    let s = paired_until_mt5_check();
    let (s, a) = pair_step(s, PairEvent::Mt5Checked(true));
    assert!(matches!(s, PairState::Done));
    assert_eq!(a.len(), 3);
    assert_eq!(fired(&a[0]), ("install-deferred-mt5-running".to_string(), None, None));
    assert!(matches!(&a[1], PairAction::EmitNeedsMt5Closed));
    assert!(matches!(&a[2], PairAction::Finish(Ok(e)) if e.user_id == "u1"));
}

#[test]
fn pairing_installs_when_mt5_is_closed() {
    let s = paired_until_mt5_check();
    let (s, a) = pair_step(s, PairEvent::Mt5Checked(false));
    assert_eq!(a.len(), 1);
    assert!(matches!(&a[0], PairAction::Install(k) if k == "mk_secret"));
    let (s, a) = pair_step(s, PairEvent::Installed(Ok(InstallEaResult::new())));
    assert!(matches!(s, PairState::Done));
    assert_eq!(a.len(), 2);
    assert!(matches!(&a[0], PairAction::EmitInstalled(r) if r.written_to.is_empty()));
    assert!(matches!(&a[1], PairAction::Finish(Ok(e)) if e.broker_name == "Exness"));
}

#[test]
fn install_failure_still_pairs() {
    let s = paired_until_mt5_check();
    let (s, _) = pair_step(s, PairEvent::Mt5Checked(false));
    let (s, a) = pair_step(s, PairEvent::Installed(Err("no terminals".to_string())));
    assert!(matches!(s, PairState::Done));
    assert_eq!(a.len(), 3);
    assert_eq!(fired(&a[0]), ("install-error".to_string(), None, Some("no terminals".to_string())));
    assert!(matches!(&a[1], PairAction::EmitInstallError(e) if e == "no terminals"));
    assert!(matches!(&a[2], PairAction::Finish(Ok(_))));
}

#[test]
fn failed_exchange_or_save_ends_pairing() {
    let (s, _) = pair_start("ABC123".to_string());
    let (s, a) = pair_step(s, PairEvent::Exchanged(Err("HTTP 404: bad code".to_string())));
    assert!(matches!(s, PairState::Done));
    assert_eq!(a.len(), 1);
    assert!(matches!(&a[0], PairAction::Finish(Err(e)) if e == "HTTP 404: bad code"));

    let (s, _) = pair_start("ABC123".to_string());
    let (s, _) = pair_step(s, PairEvent::Exchanged(Ok(reply())));
    let (s, a) = pair_step(s, PairEvent::Saved(Err("keychain locked".to_string())));
    assert!(matches!(s, PairState::Done));
    assert!(matches!(&a[..], [PairAction::Finish(Err(e))] if e == "keychain locked"));
}

#[test]
fn unexpected_answer_changes_nothing() {
    let (s, _) = pair_start("ABC123".to_string());
    let (s, a) = pair_step(s, PairEvent::Mt5Checked(true));
    assert!(a.is_empty());
    assert!(matches!(s, PairState::Exchanging { code } if code == "ABC123"));
    let (s, a) = pair_step(PairState::Done, PairEvent::Saved(Ok(())));
    assert!(a.is_empty());
    assert!(matches!(s, PairState::Done));
}

#[test]
fn deep_link_failure_reports_code_and_error() {
    let a = deep_link_failure("ABC123", "HTTP 410: expired".to_string());
    assert_eq!(a.len(), 2);
    assert_eq!(
        fired(&a[0]),
        ("error".to_string(), Some("ABC123".to_string()), Some("HTTP 410: expired".to_string()))
    );
    assert!(matches!(&a[1], PairAction::EmitPairError(e) if e == "HTTP 410: expired"));
}
