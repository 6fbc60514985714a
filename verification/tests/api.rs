use markitel_helper::api::{
    device_info, ea_source_reply, ea_source_url, ea_version, endpoint, failure_message, is_success,
    status_failure_message, user_agent, EaSourceReply,
};
use markitel_helper::config::api_base_from;

#[test]
fn endpoints() {
    assert_eq!(
        endpoint("https://markitel.com", "pair/exchange"),
        "https://markitel.com/api/v1/bridge/pair/exchange"
    );
    assert_eq!(ea_source_url("http://localhost:3000", None), "http://localhost:3000/api/v1/bridge/ea-source");
    assert_eq!(
        ea_source_url("https://markitel.com", Some("1.2.3")),
        "https://markitel.com/api/v1/bridge/ea-source?version=1.2.3"
    );
}

#[test]
fn agent_and_messages() {
    assert_eq!(user_agent("0.0.6"), "MarkitelHelper/0.0.6");
    assert_eq!(failure_message("rotate", "401 Unauthorized", "bad key"), "rotate failed (401 Unauthorized): bad key");
    assert_eq!(status_failure_message("helper-version", "500 Internal Server Error"), "helper-version failed (500 Internal Server Error)");
}

#[test]
fn statuses() {
    assert!(is_success(200) && is_success(204) && is_success(299));
    assert!(!is_success(199) && !is_success(300) && !is_success(304) && !is_success(404));
    assert!(matches!(ea_source_reply(304), EaSourceReply::NotModified));
    assert!(matches!(ea_source_reply(200), EaSourceReply::Fresh));
    assert!(matches!(ea_source_reply(404), EaSourceReply::Failed));
    assert!(matches!(ea_source_reply(301), EaSourceReply::Failed));
}

#[test]
fn version_header() {
    assert_eq!(ea_version(Some("42")), "42");
    assert_eq!(ea_version(None), "unknown");
}

#[test]
fn device() {
    let d = device_info("macos", None, "0.1.0");
    assert_eq!((d.os.as_str(), d.hostname.as_str(), d.helper_version.as_str()), ("macos", "", "0.1.0"));
    let d = device_info("linux", Some("box".to_string()), "0.1.0");
    assert_eq!(d.hostname, "box");
}

#[test]
fn base_url() {
    assert_eq!(api_base_from(None), "https://markitel.com");
    assert_eq!(api_base_from(Some("http://localhost:3000".to_string())), "http://localhost:3000");
}
