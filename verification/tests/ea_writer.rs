use markitel_helper::ea_writer::{experts_dir_problem, is_valid_key, render_keyed, EA_FILENAME};

const NEEDLE: &str = r#"input string   ApiKey          = "";"#;

fn key() -> String {
    format!("mk_{}", "0123456789abcdef".repeat(4))
}

#[test]
fn valid_keys() {
    assert!(is_valid_key(&key()));
    assert!(is_valid_key(&format!("mk_{}", "f".repeat(64))));
}

#[test]
fn invalid_keys() {
    assert!(!is_valid_key(""));
    assert!(!is_valid_key("mk_"));
    assert!(!is_valid_key(&format!("mk_{}", "a".repeat(63))));
    assert!(!is_valid_key(&format!("mk_{}", "a".repeat(65))));
    assert!(!is_valid_key(&format!("mk_{}", "A".repeat(64))));
    assert!(!is_valid_key(&format!("mk_{}g", "a".repeat(63))));
    assert!(!is_valid_key(&format!("MK_{}", "a".repeat(64))));
    assert!(!is_valid_key(&format!("mk-{}", "a".repeat(64))));
    assert!(!is_valid_key(&format!("mk_{}é", "a".repeat(63))));
}

#[test]
fn render_embeds_key() {
    let source = format!("// EA\n{NEEDLE}\nvoid OnTick() {{}}\n");
    let out = render_keyed(&source, &key()).unwrap();
    assert_eq!(
        out,
        format!("// EA\ninput string   ApiKey          = \"{}\";\nvoid OnTick() {{}}\n", key())
    );
}

#[test]
fn render_replaces_every_marker() {
    let source = format!("{NEEDLE}{NEEDLE}");
    let out = render_keyed(&source, &key()).unwrap();
    let line = format!("input string   ApiKey          = \"{}\";", key());
    assert_eq!(out, format!("{line}{line}"));
}

#[test]
fn render_rejects_bad_key() {
    assert_eq!(
        render_keyed(NEEDLE, "mk_123"),
        Err("invalid api key format".to_string())
    );
}

#[test]
fn render_rejects_source_without_marker() {
    assert_eq!(
        render_keyed("input string ApiKey = \"\";", &key()),
        Err("EA source missing ApiKey marker".to_string())
    );
}

#[test]
fn experts_dir_checks() {
    assert_eq!(
        experts_dir_problem(false, false, "/x/Experts"),
        Some("experts directory does not exist: /x/Experts".to_string())
    );
    assert_eq!(
        experts_dir_problem(true, false, "/x/Experts"),
        Some("experts path is not a directory: /x/Experts".to_string())
    );
    assert_eq!(experts_dir_problem(true, true, "/x/Experts"), None);
    assert_eq!(EA_FILENAME, "Markitel_Bridge.mq5");
}
