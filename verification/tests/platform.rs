use markitel_helper::default_tpl_writer::{templates_dir_problem, TEMPLATE_FILENAME};
use markitel_helper::indicator_writer::{indicators_dir_problem, INDICATOR_FILENAME};
use markitel_helper::mt5_launcher::{launch, launch_result, terminate, wait_step, TargetOs, WaitStep};
use markitel_helper::profile_writer::{profile_plan, ProfilePlan, ProfileWriteOutcome};
use markitel_helper::telemetry::{discovery_event, error_event, phase_event};
use markitel_helper::tray::{tray_action, TrayAction};

#[test]
fn launch_commands() {
    let c = launch(TargetOs::MacOs).unwrap();
    assert_eq!(c.program, "open");
    assert_eq!(c.args, vec!["-a", "MetaTrader 5"]);
    let c = launch(TargetOs::Windows).unwrap();
    assert_eq!(c.program, "cmd");
    assert_eq!(c.args, vec!["/C", "start", "", "MetaTrader 5"]);
    assert_eq!(launch(TargetOs::Linux).err(), Some("launch_mt5 unsupported on this OS".to_string()));
}

#[test]
fn terminate_commands() {
    let cs = terminate(TargetOs::MacOs).unwrap();
    assert_eq!(cs.len(), 5);
    assert_eq!(cs[0].program, "osascript");
    assert_eq!(cs[0].args, vec!["-e", "tell application \"MetaTrader 5\" to quit"]);
    assert_eq!(cs[4].args, vec!["-9", "-x", "MetaTrader5"]);
    let cs = terminate(TargetOs::Windows).unwrap();
    let images: Vec<&str> = cs.iter().map(|c| c.args[3].as_str()).collect();
    assert_eq!(images, vec!["terminal64.exe", "terminal.exe", "MetaTrader 5.exe"]);
    assert!(cs.iter().all(|c| c.program == "taskkill"));
    assert_eq!(terminate(TargetOs::Other).err(), Some("terminate_mt5 unsupported on this OS".to_string()));
}

#[test]
fn waiting_steps() {
    assert_eq!(wait_step(false, 10_000, 100), WaitStep::Exited);
    assert_eq!(wait_step(true, 100, 100), WaitStep::TimedOut);
    assert_eq!(wait_step(true, 99, 100), WaitStep::PollAgain);
}

#[test]
fn profile_plans() {
    match profile_plan(false, false, "/t/profiles") {
        ProfilePlan::Skip(ProfileWriteOutcome::Skipped { reason }) => assert_eq!(reason, "profiles dir missing: /t/profiles"),
        _ => panic!("expected a skip"),
    }
    match profile_plan(true, true, "/t/profiles") {
        ProfilePlan::Skip(ProfileWriteOutcome::Skipped { reason }) => assert_eq!(reason, "profile 'Markitel' already exists"),
        _ => panic!("expected a skip"),
    }
    match profile_plan(true, false, "/t/profiles") {
        ProfilePlan::CreateProfile { chart_file, chart_contents } => {
            assert_eq!(chart_file, "chart01.chr");
            assert_eq!(chart_contents, "<chart>\n</chart>\n");
        }
        _ => panic!("expected the profile to be created"),
    }
}

#[test]
fn directory_problems() {
    assert_eq!(templates_dir_problem(true, "/t"), None);
    assert_eq!(templates_dir_problem(false, "/t"), Some("templates path is not a directory: /t".to_string()));
    assert_eq!(indicators_dir_problem(false, "/i"), Some("indicators path is not a directory: /i".to_string()));
    assert_eq!(indicators_dir_problem(true, "/i"), None);
    assert_eq!(TEMPLATE_FILENAME, "Default.tpl");
    assert_eq!(INDICATOR_FILENAME, "Sentiment-Indicator.ex5");
}

#[test]
fn funnel_events() {
    let e = discovery_event(0);
    assert_eq!((e.phase.as_str(), e.terminal_count), ("mt5-not-found", None));
    let e = discovery_event(3);
    assert_eq!((e.phase.as_str(), e.terminal_count), ("mt5-detected", Some(3)));
    let e = error_event("boom".to_string());
    assert_eq!((e.phase.as_str(), e.error.as_deref()), ("error", Some("boom")));
    assert_eq!(e.pairing_code, None);
    assert_eq!(phase_event("mt5-launched").phase, "mt5-launched");
}

#[test]
fn tray_menu() {
    assert_eq!(tray_action("show"), TrayAction::ShowWindow);
    assert_eq!(tray_action("pair"), TrayAction::ShowPairing);
    assert_eq!(tray_action("rotate"), TrayAction::RotateKey);
    assert_eq!(tray_action("reinstall"), TrayAction::ReinstallEa);
    assert_eq!(tray_action("quit"), TrayAction::Quit);
    assert_eq!(tray_action("sep"), TrayAction::Nothing);
}

#[test]
fn failed_launch_is_reported() {
    assert_eq!(launch_result(TargetOs::MacOs, true, ""), Ok(()));
    assert_eq!(
        launch_result(TargetOs::MacOs, false, "exit status: 1"),
        Err("open MT5 failed: exit status: 1".to_string())
    );
    assert_eq!(
        launch_result(TargetOs::Windows, false, "program not found"),
        Err("start MT5 failed: program not found".to_string())
    );
}
