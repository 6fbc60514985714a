use markitel_helper::ini_writer::{
    edit_result, patch_content, url_index_exhausted, url_is_whitelisted, whitelist_plan,
    WhitelistPlan, MARKITEL_URL, MT5_RUNNING_REFUSAL, SECTION, URL_KEY_PREFIX,
};

#[test]
fn no_op_when_already_whitelisted() {
    let content = format!("{SECTION}\n{URL_KEY_PREFIX}0={MARKITEL_URL}\n");
    assert!(url_is_whitelisted(&content));
}

#[test]
fn adds_to_existing_experts_section_with_next_index() {
    let content = format!(
        "{SECTION}\n{URL_KEY_PREFIX}0=https://other.com\n{URL_KEY_PREFIX}1=https://another.com\n"
    );
    let patched = patch_content(&content);
    assert!(patched.contains(&format!("{URL_KEY_PREFIX}2={MARKITEL_URL}")));
}

#[test]
fn creates_experts_section_when_missing() {
    let content = "[Common]\nLanguage=English\n";
    let patched = patch_content(content);
    assert!(patched.contains(SECTION));
    assert!(patched.contains(&format!("{URL_KEY_PREFIX}0={MARKITEL_URL}")));
}

#[test]
fn preserves_trailing_newline_behavior() {
    let content = "[Common]\nLanguage=English";
    let patched = patch_content(content);
    assert!(patched.ends_with('\n'));
}

#[test]
fn patch_exact_output_inserts_before_next_section() {
    let content = "[Common]\nLanguage=English\n[Experts]\nWebRequestURL_4=https://a.com\n[Charts]\nMax=10\n";
    assert_eq!(
        patch_content(content),
        "[Common]\nLanguage=English\n[Experts]\nWebRequestURL_4=https://a.com\nWebRequestURL_5=https://markitel.com\n[Charts]\nMax=10\n"
    );
}

#[test]
fn patch_exact_output_appends_section_to_unterminated_text() {
    assert_eq!(
        patch_content("[Common]\nLanguage=English"),
        "[Common]\nLanguage=English\n[Experts]\nWebRequestURL_0=https://markitel.com\n"
    );
    assert_eq!(patch_content(""), "\n[Experts]\nWebRequestURL_0=https://markitel.com\n");
}

#[test]
fn patch_header_only_section_inserts_after_header() {
    // An [Experts] header with no key lines gets the new line right after it.
    assert_eq!(
        patch_content("[Experts]\n[Common]\nLanguage=English\n"),
        "[Experts]\nWebRequestURL_0=https://markitel.com\n[Common]\nLanguage=English\n"
    );
    assert_eq!(patch_content("[Experts]"), "[Experts]\nWebRequestURL_0=https://markitel.com\n");
}

#[test]
fn patch_ignores_indices_outside_experts_and_bad_indices() {
    let content = "[Common]\nWebRequestURL_9=https://x.com\n[experts]\n  WebRequestURL_+3=https://y.com  \nWebRequestURL_6 =https://v.com\nWebRequestURL_x=https://z.com\nWebRequestURL_-7=https://w.com\n";
    let patched = patch_content(content);
    assert!(patched.contains("WebRequestURL_4=https://markitel.com"));
    assert!(!patched.contains("WebRequestURL_10="));
}

#[test]
fn patch_normalises_crlf_line_endings() {
    assert_eq!(
        patch_content("[Experts]\r\nWebRequestURL_0=https://a.com\r\n"),
        "[Experts]\nWebRequestURL_0=https://a.com\nWebRequestURL_1=https://markitel.com\n"
    );
}

#[test]
fn whitelist_detection_tolerates_spaces_and_slashes() {
    assert!(url_is_whitelisted("[Experts]\n  WebRequestURL_3 =  https://markitel.com///  \n"));
    assert!(url_is_whitelisted("[Other]\nWebRequestURL_0=https://markitel.com\n"));
    assert!(!url_is_whitelisted("[Experts]\nWebRequestURL_0=https://markitel.co\n"));
    assert!(!url_is_whitelisted("[Experts]\nWebRequestURL_0 https://markitel.com\n"));
    assert!(!url_is_whitelisted("[Experts]\nURL_0=https://markitel.com\n"));
    assert!(!url_is_whitelisted(""));
}

#[test]
fn patched_text_is_whitelisted() {
    for content in ["", "[Common]\nA=1", "[Experts]\nWebRequestURL_0=https://a.com\n[X]\n", "[EXPERTS]\n"] {
        assert!(url_is_whitelisted(&patch_content(content)));
    }
}

#[test]
fn plan_fresh_file() {
    match whitelist_plan(false, None).unwrap() {
        WhitelistPlan::WriteFresh(s) => {
            assert_eq!(s, "[Experts]\nWebRequestURL_0=https://markitel.com\n");
            assert!(url_is_whitelisted(&s));
        }
        _ => panic!("expected a fresh file"),
    }
}

#[test]
fn plan_is_idempotent() {
    let first = match whitelist_plan(false, Some("[Common]\nA=1\n")).unwrap() {
        WhitelistPlan::Rewrite(s) => s,
        _ => panic!("expected a rewrite"),
    };
    assert!(matches!(whitelist_plan(false, Some(&first)), Ok(WhitelistPlan::AlreadyPresent)));
}

#[test]
fn edit_results_per_plan() {
    let r = edit_result(&WhitelistPlan::AlreadyPresent, Some("x".to_string()));
    assert!(!r.edited && r.already_present && r.backed_up_to.is_none());
    let r = edit_result(&WhitelistPlan::Rewrite(String::new()), Some("b".to_string()));
    assert!(r.edited && !r.already_present);
    assert_eq!(r.backed_up_to, Some("b".to_string()));
    let r = edit_result(&WhitelistPlan::WriteFresh(String::new()), Some("b".to_string()));
    assert!(r.edited && !r.already_present && r.backed_up_to.is_none());
}

#[test]
fn exhausted_index_is_detected() {
    assert!(url_index_exhausted("[Experts]\nWebRequestURL_2147483647=https://a.com\n"));
    assert!(!url_index_exhausted("[Experts]\nWebRequestURL_2147483646=https://a.com\n"));
    assert!(!url_index_exhausted("[Experts]\nWebRequestURL_2147483648=https://a.com\n"));
}

#[test]
fn plan_refused_while_mt5_runs() {
    assert_eq!(whitelist_plan(true, Some("[Common]\nA=1\n")).err(), Some(MT5_RUNNING_REFUSAL.to_string()));
    assert!(whitelist_plan(true, None).is_err());
    assert!(whitelist_plan(true, Some("[Experts]\nWebRequestURL_0=https://markitel.com\n")).is_err());
}
