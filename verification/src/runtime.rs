//! Daemon settings derived from the resolved configuration, and the runtime
//! status record the daemon publishes and `status` reports.

use vstd::prelude::*;

use crate::config::{join_path, path_join, Config, LayoutMode, WindowDisposition};
use crate::model::{Classification, WindowRule};

verus! {

/// What the layout daemon takes from the resolved configuration.
#[derive(Debug)]
pub struct RuntimeSettings {
    pub automatic: bool,
    pub max_managed_windows: usize,
    pub window_rules: Vec<WindowRule>,
}

/// The classification a configured disposition asks for.
pub open spec fn classification_of_disposition(d: WindowDisposition) -> Classification {
    match d {
        WindowDisposition::Managed => Classification::Managed,
        WindowDisposition::Floating => Classification::Floating,
        WindowDisposition::Ignored => Classification::Ignored,
    }
}

/// `r` is the layout rule for the configured rule `c`.
pub open spec fn is_rule_for(r: WindowRule, c: crate::config::WindowRule) -> bool {
    &&& r.app_id@ == c.app_id@
    &&& match (r.title, c.title) {
        (None, None) => true,
        (Some(a), Some(b)) => a@ == b@,
        _ => false,
    }
    &&& r.disposition == classification_of_disposition(c.disposition)
}

impl RuntimeSettings {
    pub fn from_config(config: &Config) -> (r: Self)
        ensures
            r.automatic == (config.layout.mode == LayoutMode::Auto),
            r.max_managed_windows == config.layout.max_managed_windows as usize,
            r.window_rules@.len() == config.window_rules@.len(),
            forall|i: int|
                0 <= i < r.window_rules@.len() ==> is_rule_for(
                    #[trigger] r.window_rules@[i],
                    config.window_rules@[i],
                ),
    {
        let mut rules: Vec<WindowRule> = Vec::new();
        let mut i: usize = 0;
        while i < config.window_rules.len()
            invariant
                i <= config.window_rules@.len(),
                rules@.len() == i,
                forall|j: int|
                    0 <= j < i ==> is_rule_for(#[trigger] rules@[j], config.window_rules@[j]),
            decreases config.window_rules@.len() - i,
        {
            let rule = &config.window_rules[i];
            let title = match &rule.title {
                Some(t) => Some(t.clone()),
                None => None,
            };
            let disposition = match rule.disposition {
                WindowDisposition::Managed => Classification::Managed,
                WindowDisposition::Floating => Classification::Floating,
                WindowDisposition::Ignored => Classification::Ignored,
            };
            rules.push(WindowRule { app_id: rule.app_id.clone(), title, disposition });
            i += 1;
        }
        RuntimeSettings {
            automatic: match config.layout.mode {
                LayoutMode::Auto => true,
                LayoutMode::Float => false,
            },
            max_managed_windows: config.layout.max_managed_windows as usize,
            window_rules: rules,
        }
    }
}

/// The status record of the layout daemon.
#[derive(Clone, Debug, PartialEq, Eq)]
pub struct RuntimeState {
    pub schema_version: u32,
    pub pid: u32,
    pub layout_mode: String,
    pub layoutd: String,
    pub compositor_adapter: String,
    pub adapter_connected: bool,
    pub reconciliation: String,
    pub managed_windows: usize,
    pub floating_windows: usize,
    pub last_error: Option<String>,
}

/// The optional text as characters.
pub open spec fn text_of(s: Option<String>) -> Option<Seq<char>> {
    match s {
        Some(t) => Some(t@),
        None => None,
    }
}

/// The record the daemon publishes for its own process.
pub fn new_runtime_state(
    pid: u32,
    layout_mode: &str,
    layoutd: &str,
    adapter_connected: bool,
    reconciliation: &str,
    managed_windows: usize,
    floating_windows: usize,
    last_error: Option<&str>,
) -> (r: RuntimeState)
    ensures
        r.schema_version == 1,
        r.pid == pid,
        r.layout_mode@ == layout_mode@,
        r.layoutd@ == layoutd@,
        r.compositor_adapter@ == "labwc-ipc"@,
        r.adapter_connected == adapter_connected,
        r.reconciliation@ == reconciliation@,
        r.managed_windows == managed_windows,
        r.floating_windows == floating_windows,
        text_of(r.last_error) == match last_error {
            Some(e) => Some(e@),
            None => None::<Seq<char>>,
        },
{
    RuntimeState {
        schema_version: 1,
        pid,
        layout_mode: layout_mode.to_owned(),
        layoutd: layoutd.to_owned(),
        compositor_adapter: "labwc-ipc".to_owned(),
        adapter_connected,
        reconciliation: reconciliation.to_owned(),
        managed_windows,
        floating_windows,
        last_error: match last_error {
            Some(e) => Some(e.to_owned()),
            None => None,
        },
    }
}

/// The status `status` reports from the last published record, if one could be
/// read, and whether that record's process is still the layout daemon.  Without a
/// live daemon the health fields read `stopped` and the adapter counts as
/// disconnected; the counts, mode and last error are still those last published.
pub fn runtime_status(state: Option<RuntimeState>, process_alive: bool) -> (r: RuntimeState)
    ensures
        ({
            let running = state is Some && process_alive;
            &&& r.schema_version == 1
            &&& r.pid == (if let Some(s) = state { s.pid } else { 0 })
            &&& r.layout_mode@ == (if let Some(s) = state { s.layout_mode@ } else { "unknown"@ })
            &&& r.layoutd@ == (if running { state->0.layoutd@ } else { "stopped"@ })
            &&& r.compositor_adapter@ == "labwc-ipc"@
            &&& r.adapter_connected == (running && state->0.adapter_connected)
            &&& r.reconciliation@ == (if running {
                state->0.reconciliation@
            } else {
                "stopped"@
            })
            &&& r.managed_windows == (if let Some(s) = state { s.managed_windows } else { 0 })
            &&& r.floating_windows == (if let Some(s) = state { s.floating_windows } else { 0 })
            &&& text_of(r.last_error) == (if let Some(s) = state {
                text_of(s.last_error)
            } else {
                None
            })
        }),
{
    match state {
        None => RuntimeState {
            schema_version: 1,
            pid: 0,
            layout_mode: "unknown".to_owned(),
            layoutd: "stopped".to_owned(),
            compositor_adapter: "labwc-ipc".to_owned(),
            adapter_connected: false,
            reconciliation: "stopped".to_owned(),
            managed_windows: 0,
            floating_windows: 0,
            last_error: None,
        },
        Some(s) => {
            let running = process_alive;
            RuntimeState {
                schema_version: 1,
                pid: s.pid,
                layout_mode: s.layout_mode,
                layoutd: if running { s.layoutd } else { "stopped".to_owned() },
                compositor_adapter: "labwc-ipc".to_owned(),
                adapter_connected: running && s.adapter_connected,
                reconciliation: if running { s.reconciliation } else { "stopped".to_owned() },
                managed_windows: s.managed_windows,
                floating_windows: s.floating_windows,
                last_error: s.last_error,
            }
        },
    }
}

/// The executable a `/proc/<pid>/cmdline` names: the bytes before the first NUL,
/// when there are some.
pub open spec fn cmdline_program(cmdline: Seq<u8>) -> Option<Seq<u8>> {
    if exists|i: int| 0 <= i < cmdline.len() && cmdline[i] == 0 {
        let end = choose|i: int|
            0 <= i < cmdline.len() && cmdline[i] == 0 && forall|j: int|
                0 <= j < i ==> cmdline[j] != 0;
        if end > 0 {
            Some(cmdline.take(end))
        } else {
            None
        }
    } else {
        None
    }
}

pub fn cmdline_executable(cmdline: &[u8]) -> (r: Option<Vec<u8>>)
    ensures
        match r {
            Some(v) => cmdline_program(cmdline@) == Some(v@),
            None => cmdline_program(cmdline@) is None,
        },
{
    let mut end: usize = 0;
    while end < cmdline.len() && cmdline[end] != 0
        invariant
            end <= cmdline@.len(),
            forall|j: int| 0 <= j < end ==> cmdline@[j] != 0,
        decreases cmdline@.len() - end,
    {
        end += 1;
    }
    if end == cmdline.len() {
        return None;
    }
    proof {
        let e = choose|i: int|
            0 <= i < cmdline@.len() && cmdline@[i] == 0 && forall|j: int|
                0 <= j < i ==> cmdline@[j] != 0;
        assert(cmdline@[end as int] == 0);
        if e < end {
            assert(cmdline@[e] != 0);
        }
        if e > end {
            assert(cmdline@[end as int] != 0);
        }
    }
    if end == 0 {
        return None;
    }
    let mut program: Vec<u8> = Vec::new();
    let mut i: usize = 0;
    while i < end
        invariant
            end < cmdline@.len(),
            i <= end,
            program@ == cmdline@.take(i as int),
        decreases end - i,
    {
        program.push(cmdline[i]);
        assert(cmdline@.take(i + 1) =~= cmdline@.take(i as int).push(cmdline@[i as int]));
        i += 1;
    }
    Some(program)
}

} // verus!

verus! {

/// The file the daemon publishes its state to: the `PELAGIAN_LAYOUTD_STATE` override,
/// else `pelagian-shell/layoutd.json` under `XDG_STATE_HOME`, else under
/// `/config/.local/state`.
pub open spec fn runtime_state_file(
    state_override: Option<Seq<char>>,
    state_home: Option<Seq<char>>,
) -> Seq<char> {
    match state_override {
        Some(p) => p,
        None => path_join(
            match state_home {
                Some(h) => h,
                None => "/config/.local/state"@,
            },
            "pelagian-shell/layoutd.json"@,
        ),
    }
}

pub fn state_file(state_override: Option<String>, state_home: Option<String>) -> (r: String)
    ensures
        r@ == runtime_state_file(text_of(state_override), text_of(state_home)),
{
    match state_override {
        Some(p) => p,
        None => {
            let home = match state_home {
                Some(h) => h,
                None => "/config/.local/state".to_owned(),
            };
            join_path(home.as_str(), "pelagian-shell/layoutd.json")
        },
    }
}

} // verus!

verus! {

/// The unsigned `pid` member of a state document, as `serde_json` reads the text.
pub uninterp spec fn state_document_pid(raw: Seq<char>) -> Option<u64>;

/// The string `layout_mode` member of a state document, as `serde_json` reads the text.
pub uninterp spec fn state_document_layout_mode(raw: Seq<char>) -> Option<Seq<char>>;

/// Reads the document with `serde_json::from_str` into a `serde_json::Value`, then its
/// `pid` member with `Value::get` and `Value::as_u64`.  Believed, not proved: the
/// result depends on the text alone, and is named `state_document_pid`; nothing more
/// of JSON is claimed.
#[verifier::external_body]
fn state_pid(raw: &str) -> (r: Option<u64>)
    ensures
        r == state_document_pid(raw@),
{
    serde_json::from_str::<serde_json::Value>(raw).ok().and_then(
        |v| v.get("pid").and_then(serde_json::Value::as_u64),
    )
}

/// Reads the document with `serde_json::from_str` into a `serde_json::Value`, then its
/// `layout_mode` member with `Value::get` and `Value::as_str`.  Believed, not proved:
/// the result depends on the text alone, and is named `state_document_layout_mode`.
#[verifier::external_body]
fn state_layout_mode(raw: &str) -> (r: Option<String>)
    ensures
        text_of(r) == state_document_layout_mode(raw@),
{
    serde_json::from_str::<serde_json::Value>(raw).ok().and_then(
        |v| v.get("layout_mode").and_then(serde_json::Value::as_str).map(str::to_owned),
    )
}

/// The process a layout daemon's state file names: none when the file could not be
/// read, or its document has no unsigned `pid`.
pub fn layoutd_state_pid(state: Option<String>) -> (r: Option<u64>)
    ensures
        r == match state {
            Some(t) => state_document_pid(t@),
            None => None,
        },
{
    match state {
        Some(t) => state_pid(t.as_str()),
        None => None,
    }
}

/// The layout mode a layout daemon's state file records: none when the file could
/// not be read, or its document has no string `layout_mode`.
pub fn layoutd_state_layout_mode(state: Option<String>) -> (r: Option<String>)
    ensures
        text_of(r) == match state {
            Some(t) => state_document_layout_mode(t@),
            None => None,
        },
{
    match state {
        Some(t) => state_layout_mode(t.as_str()),
        None => None,
    }
}

} // verus!
