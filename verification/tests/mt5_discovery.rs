use markitel_helper::mt5_discovery::{
    any_mt5_process, broker_from_lowercase, classify_broker, dedupe, is_mt5_process_name,
    is_terminal_experts_dir, name_matches_any, terminal_at, Terminal,
};

fn t(dir: &str, tag: &str) -> Terminal {
    terminal_at(
        dir.to_string(),
        format!("{dir}/MQL5/Experts"),
        format!("{dir}/MQL5/Indicators"),
        format!("{dir}/config"),
        format!("{dir}/profiles"),
    )
    .with_tag(tag)
}

trait Tag {
    fn with_tag(self, tag: &str) -> Terminal;
}

impl Tag for Terminal {
    fn with_tag(mut self, tag: &str) -> Terminal {
        self.experts_dir.push_str(tag);
        self
    }
}

#[test]
fn classify_known_brokers() {
    assert_eq!(classify_broker("/Users/a/Library/Application Support/MetaQuotes/Terminal/X"), "MetaQuotes");
    assert_eq!(classify_broker("C:\\Program Files\\MTrading MetaQuotes\\"), "MTrading");
    assert_eq!(classify_broker("/wine/AMarkets MT5"), "AMarkets");
    assert_eq!(classify_broker("/EXNESS/terminal"), "Exness");
    assert_eq!(classify_broker("/IC Markets (SC)/"), "IC Markets");
    assert_eq!(classify_broker("/ICMarkets/"), "IC Markets");
    assert_eq!(classify_broker("/opt/other"), "unknown");
}

#[test]
fn classify_after_lowercasing() {
    assert_eq!(broker_from_lowercase("/metaquotes/"), "MetaQuotes");
    assert_eq!(broker_from_lowercase("/MetaQuotes/"), "unknown");
}

#[test]
fn dedupe_sorts_and_keeps_first() {
    let input = vec![t("/c", "1"), t("/a", "1"), t("/b", "1"), t("/a", "2"), t("/c", "2")];
    let out = dedupe(input);
    let dirs: Vec<&str> = out.iter().map(|x| x.data_dir.as_str()).collect();
    assert_eq!(dirs, vec!["/a", "/b", "/c"]);
    assert!(out.iter().all(|x| x.experts_dir.ends_with('1')));
}

#[test]
fn dedupe_is_idempotent_on_example() {
    let once = dedupe(vec![t("/z", "1"), t("/y", "1"), t("/z", "2")]);
    let dirs1: Vec<String> = once.iter().map(|x| x.data_dir.clone()).collect();
    let twice = dedupe(once);
    let dirs2: Vec<String> = twice.iter().map(|x| x.data_dir.clone()).collect();
    assert_eq!(dirs1, dirs2);
    assert!(dedupe(Vec::new()).is_empty());
}

#[test]
fn dedupe_orders_by_code_point() {
    let out = dedupe(vec![t("/é", "1"), t("/z", "1"), t("/Z", "1"), t("/", "1")]);
    let dirs: Vec<&str> = out.iter().map(|x| x.data_dir.as_str()).collect();
    assert_eq!(dirs, vec!["/", "/Z", "/z", "/é"]);
}

#[test]
fn terminal_fields() {
    let x = terminal_at(
        "/d/Exness".to_string(),
        "e".to_string(),
        "i".to_string(),
        "c".to_string(),
        "p".to_string(),
    );
    assert_eq!(x.data_dir, "/d/Exness");
    assert_eq!(x.broker_build, "Exness");
    assert_eq!((x.experts_dir.as_str(), x.indicators_dir.as_str()), ("e", "i"));
    assert_eq!((x.config_dir.as_str(), x.profiles_dir.as_str()), ("c", "p"));
}

#[test]
fn experts_dir_detection() {
    assert!(is_terminal_experts_dir(Some("Experts"), Some("MQL5")));
    assert!(!is_terminal_experts_dir(Some("experts"), Some("MQL5")));
    assert!(!is_terminal_experts_dir(Some("Experts"), Some("MQL4")));
    assert!(!is_terminal_experts_dir(None, Some("MQL5")));
    assert!(!is_terminal_experts_dir(Some("Experts"), None));
}

#[test]
fn mt5_process_names() {
    assert!(is_mt5_process_name("terminal64.exe"));
    assert!(is_mt5_process_name("Terminal.EXE"));
    assert!(is_mt5_process_name("MetaTrader 5"));
    assert!(is_mt5_process_name("MetaTrader5 Helper"));
    assert!(!is_mt5_process_name("finder"));
    assert!(any_mt5_process(&vec!["bash".to_string(), "TERMINAL64.EXE".to_string()]));
    assert!(!any_mt5_process(&vec!["bash".to_string()]));
    assert!(!any_mt5_process(&Vec::new()));
}

#[test]
fn name_matching_takes_lowercased_inputs() {
    let needles = vec!["metatrader 5".to_string()];
    assert!(name_matches_any("x metatrader 5", &needles));
    assert!(!name_matches_any("x MetaTrader 5", &needles));
}
