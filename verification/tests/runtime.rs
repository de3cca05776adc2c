use pelagian_shell::runtime::{
    cmdline_executable, layoutd_state_layout_mode, layoutd_state_pid, new_runtime_state,
    runtime_status, state_file,
};

#[test]
fn the_published_record_names_the_live_adapter() {
    let state = new_runtime_state(42, "auto", "running", true, "healthy", 2, 1, None);
    assert_eq!(state.schema_version, 1);
    assert_eq!(state.compositor_adapter, "labwc-ipc");
    assert_eq!(state.pid, 42);
    assert_eq!(state.managed_windows, 2);
    assert_eq!(state.last_error, None);
}

#[test]
fn status_of_a_live_daemon_repeats_its_record() {
    let state = new_runtime_state(7, "float", "degraded", false, "error", 0, 3, Some("connect"));
    let status = runtime_status(Some(state.clone()), true);
    assert_eq!(status, state);
}

#[test]
fn status_of_a_dead_daemon_is_stopped_and_disconnected() {
    let state = new_runtime_state(7, "auto", "running", true, "healthy", 1, 0, Some("old"));
    let status = runtime_status(Some(state), false);
    assert_eq!(status.layoutd, "stopped");
    assert_eq!(status.reconciliation, "stopped");
    assert!(!status.adapter_connected);
    assert_eq!(status.layout_mode, "auto");
    assert_eq!(status.pid, 7);
    assert_eq!(status.last_error.as_deref(), Some("old"));

    let unknown = runtime_status(None, true);
    assert_eq!(unknown.layout_mode, "unknown");
    assert_eq!(unknown.layoutd, "stopped");
    assert_eq!(unknown.pid, 0);
}

#[test]
fn the_cmdline_program_is_its_first_nul_terminated_argument() {
    assert_eq!(
        cmdline_executable(b"/usr/bin/pelagian-layoutd\0--flag\0"),
        Some(b"/usr/bin/pelagian-layoutd".to_vec())
    );
    assert_eq!(cmdline_executable(b"\0rest\0"), None);
    assert_eq!(cmdline_executable(b"no-terminator"), None);
}

#[test]
fn the_state_file_prefers_the_override_then_the_state_home() {
    assert_eq!(state_file(Some("/tmp/s.json".into()), Some("/home/x/.local/state".into())), "/tmp/s.json");
    assert_eq!(
        state_file(None, Some("/home/x/.local/state".into())),
        "/home/x/.local/state/pelagian-shell/layoutd.json"
    );
    assert_eq!(state_file(None, None), "/config/.local/state/pelagian-shell/layoutd.json");
}

#[test]
fn the_state_document_names_the_daemon_pid_and_layout_mode() {
    let state = Some("{\"schema_version\":1,\"pid\":4242,\"layout_mode\":\"float\"}\n".to_owned());
    assert_eq!(layoutd_state_pid(state.clone()), Some(4242));
    assert_eq!(layoutd_state_layout_mode(state).as_deref(), Some("float"));
    assert_eq!(layoutd_state_pid(None), None);
    assert_eq!(layoutd_state_pid(Some("not-json".to_owned())), None);
    assert_eq!(layoutd_state_pid(Some("{\"pid\":-1}".to_owned())), None);
    assert_eq!(layoutd_state_pid(Some("{\"pid\":\"7\"}".to_owned())), None);
    assert_eq!(layoutd_state_layout_mode(Some("{\"layout_mode\":3}".to_owned())), None);
}
