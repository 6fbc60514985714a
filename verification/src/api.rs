//! The Markitel backend's bridge API: its request and response shapes,
//! the URLs the helper calls, and how a response's status is read. The
//! HTTP exchange itself is the caller's.

use vstd::prelude::*;

verus! {

/// Body of `POST /pair/exchange`.
pub struct PairExchangeReq<'a> {
    pub code: &'a str,
    pub device: DeviceInfo,
}

/// The device that pairs.
pub struct DeviceInfo {
    pub os: String,
    pub hostname: String,
    pub helper_version: String,
}

/// Reply of `POST /pair/exchange`.
pub struct PairExchangeResp {
    pub api_key: String,
    pub user_id: String,
    pub user_email: Option<String>,
    pub connection: ConnectionSummary,
}

/// The broker connection that a key belongs to.
#[derive(Clone)]
pub struct ConnectionSummary {
    pub id: String,
    pub broker_name: String,
    pub platform: String,
    pub api_key_prefix: String,
    pub is_active: Option<bool>,
    pub is_live: Option<bool>,
}

/// Reply of `POST /rotate`.
pub struct RotateResp {
    pub api_key: String,
    pub connection: ConnectionSummary,
}

/// The unkeyed EA source and its version.
pub struct EaSource {
    pub source: String,
    pub version: String,
}

/// Reply of `GET /helper-version`.
#[derive(Clone)]
pub struct HelperVersionInfo {
    pub latest: String,
    pub min_supported: Option<String>,
    pub download_urls: DownloadUrls,
    pub release_notes: String,
}

/// Where each platform's installer is.
#[derive(Clone)]
pub struct DownloadUrls {
    pub mac: Option<String>,
    pub windows: Option<String>,
}

/// `<base>/api/v1/bridge/<path>`.
pub fn endpoint(base: &str, path: &str) -> (r: String)
    ensures
        r@ == base@ + "/api/v1/bridge/"@ + path@,
{
    let mut r = String::from_str(base);
    r.append("/api/v1/bridge/");
    r.append(path);
    r
}

/// The `ea-source` URL, asking for `?version=<v>` when a cached version is
/// known (the version is put in as it is).
pub fn ea_source_url(base: &str, cached_version: Option<&str>) -> (r: String)
    ensures
        r@ == base@ + "/api/v1/bridge/"@ + "ea-source"@ + match cached_version {
            Some(v) => "?version="@ + v@,
            None => Seq::empty(),
        },
{
    let mut r = endpoint(base, "ea-source");
    match cached_version {
        Some(v) => {
            r.append("?version=");
            r.append(v);
        },
        None => {},
    }
    r
}

/// The HTTP client's `User-Agent`: `MarkitelHelper/<version>`.
pub fn user_agent(helper_version: &str) -> (r: String)
    ensures
        r@ == "MarkitelHelper/"@ + helper_version@,
{
    let mut r = String::from_str("MarkitelHelper/");
    r.append(helper_version);
    r
}

/// A 2xx status: `http::StatusCode::is_success`.
pub fn is_success(status: u16) -> (r: bool)
    ensures
        r == (200 <= status <= 299),
{
    200 <= status && status <= 299
}

/// How an `ea-source` reply is read.
pub enum EaSourceReply {
    /// 304: the cached version is current.
    NotModified,
    /// Any other non-2xx status.
    Failed,
    /// 2xx: the body is the source.
    Fresh,
}

/// How an `ea-source` reply with this status is read.
pub fn ea_source_reply(status: u16) -> (r: EaSourceReply)
    ensures
        status == 304 ==> r is NotModified,
        status != 304 && !(200 <= status <= 299) ==> r is Failed,
        200 <= status <= 299 ==> r is Fresh,
{
    if status == 304 {
        EaSourceReply::NotModified
    } else if !is_success(status) {
        EaSourceReply::Failed
    } else {
        EaSourceReply::Fresh
    }
}

/// `<what> failed (<status>): <body>`.
pub fn failure_message(what: &str, status: &str, body: &str) -> (r: String)
    ensures
        r@ == what@ + " failed ("@ + status@ + "): "@ + body@,
{
    let mut r = String::from_str(what);
    r.append(" failed (");
    r.append(status);
    r.append("): ");
    r.append(body);
    r
}

/// `<what> failed (<status>)`, for replies whose body is not read.
pub fn status_failure_message(what: &str, status: &str) -> (r: String)
    ensures
        r@ == what@ + " failed ("@ + status@ + ")"@,
{
    let mut r = String::from_str(what);
    r.append(" failed (");
    r.append(status);
    r.append(")");
    r
}

/// The EA version from the `x-ea-version` header, `unknown` without one.
pub fn ea_version(header: Option<&str>) -> (r: String)
    ensures
        r@ == match header {
            Some(h) => h@,
            None => "unknown"@,
        },
{
    match header {
        Some(h) => String::from_str(h),
        None => String::from_str("unknown"),
    }
}

/// The device description sent when pairing; an unknown host name is
/// sent as the empty string.
pub fn device_info(os: &str, hostname: Option<String>, helper_version: &str) -> (r: DeviceInfo)
    ensures
        r.os@ == os@,
        r.hostname@ == match hostname {
            Some(h) => h@,
            None => Seq::empty(),
        },
        r.helper_version@ == helper_version@,
{
    DeviceInfo {
        os: String::from_str(os),
        hostname: match hostname {
            Some(h) => h,
            None => String::new(),
        },
        helper_version: String::from_str(helper_version),
    }
}

} // verus!
