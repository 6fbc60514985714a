use markitel_helper::api::EaSource;
use markitel_helper::commands::{
    broker_page_url, MT5_RUNNING_ERROR, open_url_command, require_fresh_source, require_paired,
    status_from, InstallEaResult,
};
use markitel_helper::ini_writer::IniEditResult;
use markitel_helper::mt5_discovery::terminal_at;
use markitel_helper::mt5_launcher::TargetOs;
use markitel_helper::profile_writer::ProfileWriteOutcome;

#[test]
fn status_of_paired_helper() {
    let s = status_from(Some(format!("mk_{}", "a".repeat(64))), "0.1.0");
    assert!(s.paired);
    assert_eq!(s.api_key_prefix, Some("mk_aaaaaaaa".to_string()));
    assert_eq!(s.version, "0.1.0");
    let s = status_from(Some("short".to_string()), "0.1.0");
    assert_eq!(s.api_key_prefix, Some("short".to_string()));
}

#[test]
fn status_of_unpaired_helper() {
    let s = status_from(None, "0.1.0");
    assert!(!s.paired);
    assert_eq!(s.api_key_prefix, None);
}

#[test]
fn preflight_errors() {
    assert_eq!(MT5_RUNNING_ERROR, "MT5 is currently running. Please close MT5 and try again.");
    assert_eq!(require_paired(Ok(Some("k".to_string())), "not paired"), Ok("k".to_string()));
    assert_eq!(require_paired(Ok(None), "not paired"), Err("not paired".to_string()));
    assert_eq!(require_paired(Err("keychain load error: x".to_string()), "not paired"), Err("keychain load error: x".to_string()));
    let ok = require_fresh_source(Some(EaSource { source: "s".to_string(), version: "v".to_string() })).unwrap();
    assert_eq!((ok.source.as_str(), ok.version.as_str()), ("s", "v"));
    assert_eq!(require_fresh_source(None).err(), Some("unexpected 304 for fresh ea-source fetch".to_string()));
}

#[test]
fn install_report_accumulates() {
    let a = terminal_at("/a".into(), "e".into(), "i".into(), "c".into(), "p".into());
    let b = terminal_at("/b".into(), "e".into(), "i".into(), "c".into(), "p".into());
    let mut report = InstallEaResult::new();
    let ev = report.record_terminal(
        &a,
        Ok("/a/MQL5/Experts/Markitel_Bridge.mq5".to_string()),
        Ok(IniEditResult { edited: true, already_present: false, backed_up_to: None }),
        Ok(ProfileWriteOutcome::NeedsManualDrag),
    );
    let phases: Vec<&str> = ev.iter().map(|e| e.phase.as_str()).collect();
    assert_eq!(phases, vec!["ea-written", "ini-whitelisted"]);
    let ev = report.record_terminal(
        &b,
        Err("write EA failed: denied".to_string()),
        Err("read terminal.ini failed: x".to_string()),
        Err("mkdir profiles/Markitel failed: y".to_string()),
    );
    let phases: Vec<(&str, Option<&str>)> = ev.iter().map(|e| (e.phase.as_str(), e.error.as_deref())).collect();
    assert_eq!(
        phases,
        vec![("error", Some("write EA failed: denied")), ("error", Some("mkdir profiles/Markitel failed: y"))]
    );
    assert_eq!(report.written_to, vec!["/a/MQL5/Experts/Markitel_Bridge.mq5".to_string()]);
    assert_eq!(report.whitelist_results.len(), 2);
    assert!(report.whitelist_results[0].edited);
    assert_eq!(report.whitelist_results[1].terminal, "/b");
    assert_eq!(report.whitelist_results[1].error, Some("read terminal.ini failed: x".to_string()));
    assert_eq!(report.profile_results.len(), 1);
    assert_eq!(report.profile_results[0].terminal, "/a");
    let ev = report.record_terminal(
        &a,
        Ok("p".to_string()),
        Ok(IniEditResult { edited: false, already_present: true, backed_up_to: None }),
        Ok(ProfileWriteOutcome::Written),
    );
    let phases: Vec<&str> = ev.iter().map(|e| e.phase.as_str()).collect();
    assert_eq!(phases, vec!["ea-written", "profile-written"]);
}

#[test]
fn url_openers() {
    let (p, a) = open_url_command(TargetOs::MacOs, "https://x").unwrap();
    assert_eq!((p.as_str(), a), ("open", vec!["https://x".to_string()]));
    let (p, a) = open_url_command(TargetOs::Windows, "https://x").unwrap();
    assert_eq!(p, "cmd");
    assert_eq!(a, vec!["/C", "start", "", "https://x"]);
    let (p, _) = open_url_command(TargetOs::Linux, "https://x").unwrap();
    assert_eq!(p, "xdg-open");
    assert!(open_url_command(TargetOs::Other, "https://x").is_none());
    assert_eq!(broker_page_url("https://markitel.com"), "https://markitel.com/broker");
}
