//! The documents `pelagian-shellctl status` prints.
//!
//! The caller resolves the configuration, reads the environment and runs
//! `pelagian-layoutd status`; this module decides what of that it reports.

use vstd::prelude::*;

use crate::config::LayoutMode;
use crate::lines::{trim, trim_exec};
use crate::text::{chars_of, concat, concat3, string_of};

verus! {

/// The window chrome policy the environment asks for: `server` only when it says
/// exactly that, else `unset`.
pub open spec fn chrome_policy(value: Option<Seq<char>>) -> Seq<char> {
    if value == Some("server"@) {
        "server"@
    } else {
        "unset"@
    }
}

pub fn window_chrome_policy(value: Option<String>) -> (r: &'static str)
    ensures
        r@ == chrome_policy(match value {
            Some(v) => Some(v@),
            None => None,
        }),
{
    match value {
        Some(v) => if v == "server".to_owned() {
            "server"
        } else {
            "unset"
        },
        None => "unset",
    }
}

/// What `status` reports for a layout daemon whose status it could not read.
pub open spec fn unavailable_runtime() -> Seq<char> {
    "{\"layoutd\":\"unavailable\",\"adapter_connected\":false,\"reconciliation\":\"unknown\"}"@
}

/// The layout daemon's status as `status` embeds it: the trimmed output of a
/// successful `pelagian-layoutd status` when it reads as one JSON object (it starts
/// with `{` and ends with `}`), else the unavailable document.
pub open spec fn runtime_document(output: Option<Seq<char>>) -> Seq<char> {
    match output {
        Some(o) => {
            let t = trim(o);
            if t.len() > 0 && t[0] == '{' && t.last() == '}' {
                t
            } else {
                unavailable_runtime()
            }
        },
        None => unavailable_runtime(),
    }
}

/// The daemon's status document from the output of a successful, UTF-8
/// `pelagian-layoutd status`, if there was one.
pub fn embedded_runtime(output: Option<String>) -> (r: String)
    ensures
        r@ == runtime_document(match output {
            Some(o) => Some(o@),
            None => None,
        }),
{
    let fallback = "{\"layoutd\":\"unavailable\",\"adapter_connected\":false,\"reconciliation\":\"unknown\"}";
    match output {
        None => fallback.to_owned(),
        Some(o) => {
            let t = trim_exec(&chars_of(o.as_str()));
            let n = t.len();
            if n > 0 && t[0] == '{' && t[n - 1] == '}' {
                string_of(t.as_slice())
            } else {
                fallback.to_owned()
            }
        },
    }
}

/// The layout mode as it is written in configuration and status.
pub open spec fn mode_text(mode: LayoutMode) -> Seq<char> {
    match mode {
        LayoutMode::Auto => "auto"@,
        LayoutMode::Float => "float"@,
    }
}

/// The `status` document: the schema, the resolved profile and layout mode, the
/// `wine` capability, the adapter, the chrome policy and the daemon's own status.
pub open spec fn status_document(
    profile: Seq<char>,
    mode: LayoutMode,
    wine: bool,
    chrome: Seq<char>,
    runtime: Seq<char>,
) -> Seq<char> {
    "{\"schema_version\":1,\"profile\":\""@ + profile + "\",\"layout_mode\":\""@ + mode_text(mode)
        + "\",\"capabilities\":{\"wine\":"@ + (if wine {
        "true"@
    } else {
        "false"@
    }) + "},\"compositor_adapter\":\"labwc-ipc\",\"window_chrome_policy\":\""@ + chrome
        + "\",\"runtime\":"@ + runtime + "}"@
}

pub fn shell_status(profile: &str, mode: LayoutMode, wine: bool, chrome: &str, runtime: &str) -> (r:
    String)
    ensures
        r@ == status_document(profile@, mode, wine, chrome@, runtime@),
{
    let head = concat3("{\"schema_version\":1,\"profile\":\"", profile, "\",\"layout_mode\":\"");
    let with_mode = concat3(head.as_str(), mode.as_str(), "\",\"capabilities\":{\"wine\":");
    let with_wine = concat(with_mode.as_str(), if wine { "true" } else { "false" });
    let with_adapter = concat3(
        with_wine.as_str(),
        "},\"compositor_adapter\":\"labwc-ipc\",\"window_chrome_policy\":\"",
        chrome,
    );
    let with_runtime = concat3(with_adapter.as_str(), "\",\"runtime\":", runtime);
    let r = concat(with_runtime.as_str(), "}");
    assert(r@ =~= status_document(profile@, mode, wine, chrome@, runtime@));
    r
}

} // verus!
