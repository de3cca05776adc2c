use pelagian_shell::xwayland::{
    command_outcome, inventory_lines, parse_inventory_row, parse_transient, parse_window_kind,
    parse_wm_class, retry_spawn, runtime_state_path, snapshot_of, snapshot_table,
    PreparedCommand, WindowSnapshot, XwaylandEwmhAdapter,
};
use pelagian_shell::config::layoutd_state_path;
use pelagian_shell::{CompositorCommand, DecorationState, Output, Rect, ToplevelEvent, ToplevelKind};

const WINDOW: &str = "0x01200001";

fn properties(state: &str) -> String {
    format!(
        "WM_CLASS(STRING) = \"fixture\", \"Fixture\"\n\
         _NET_WM_WINDOW_TYPE(ATOM) = _NET_WM_WINDOW_TYPE_NORMAL\n\
         WM_TRANSIENT_FOR:  not found.\n\
         _NET_WM_STATE(ATOM) = {state}\n"
    )
}

/// The windows `wmctrl -lpGx` and `xprop` describe, as the runtime reads them.
fn observe(inventory: &str, state: &str) -> Vec<WindowSnapshot> {
    let mut snapshots = Vec::new();
    for line in inventory_lines(inventory) {
        let row = parse_inventory_row(&line).unwrap();
        snapshots.push(snapshot_of(&row, &properties(state)));
    }
    snapshots
}

fn row(geometry: &str) -> String {
    format!("{WINDOW}  0 4242 {geometry} fixture-host fixture.Fixture Fixture Primary\n")
}

/// Runs one command the way the runtime does, with the given inventory after any
/// unmaximize, and returns the `wmctrl` mutations it issued.
fn apply(
    adapter: &mut XwaylandEwmhAdapter,
    command: &CompositorCommand,
    after_unmaximize: &str,
) -> Vec<Vec<String>> {
    let mut mutations = Vec::new();
    let prepared: PreparedCommand = match adapter.prepare_command(command).unwrap() {
        Some(prepared) => prepared,
        None => return mutations,
    };
    if let Some(first) = prepared.first.clone() {
        mutations.push(first);
    }
    if prepared.capture {
        let id = WINDOW.to_owned();
        let mut attempt = 0;
        while !adapter
            .capture_attempt(&id, observe(after_unmaximize, ""), attempt)
            .unwrap()
        {
            attempt += 1;
        }
    }
    if let Some(finish) = adapter.finish_command(command, &prepared) {
        mutations.push(finish);
    }
    mutations
}

fn args(words: &[&str]) -> Vec<String> {
    words.iter().map(|word| word.to_string()).collect()
}

fn snap(region: &str, x: u32, width: u32) -> CompositorCommand {
    CompositorCommand::Snap {
        toplevel_id: WINDOW.into(),
        region: region.into(),
        rect: Rect {
            x,
            y: 0,
            width,
            height: 800,
        },
    }
}

#[test]
fn adapter_observes_generic_xwayland_identity_type_parent_and_output() {
    let mut adapter = XwaylandEwmhAdapter::with_commands("wmctrl".into(), "xprop".into());
    assert_eq!(
        adapter.output("  Width: 1200\n  Height: 800\n").unwrap().width,
        1200
    );
    adapter.refresh(observe(
        &row("0 0 1200 800"),
        "_NET_WM_STATE_MAXIMIZED_VERT, _NET_WM_STATE_MAXIMIZED_HORZ",
    ));
    let event = adapter.next_event().unwrap();
    let ToplevelEvent::Upsert(toplevel) = event else {
        panic!("expected an upsert");
    };
    assert_eq!(toplevel.id, "0x01200001");
    assert_eq!(toplevel.app_id, "fixture.Fixture");
    assert_eq!(toplevel.title, "Fixture Primary");
    assert_eq!(toplevel.parent_id, None);
}

#[test]
fn output_uses_x_root_geometry_without_ewmh_desktops() {
    let adapter = XwaylandEwmhAdapter::with_commands("xwininfo".into(), "xprop".into());
    assert_eq!(
        adapter.output("  Width: 1200\n  Height: 800\n").unwrap(),
        Output {
            width: 1200,
            height: 800,
        }
    );
    assert_eq!(adapter.xwininfo(), "xwininfo");
}

#[test]
fn malformed_nonempty_wmctrl_inventory_fails_closed() {
    let lines = inventory_lines("malformed nonempty inventory row\n");
    assert_eq!(lines.len(), 1);
    assert_eq!(
        parse_inventory_row(&lines[0]).unwrap_err().message(),
        "wmctrl returned a malformed nonempty inventory row; refusing partial observation"
    );
}

#[test]
fn missing_ewmh_client_list_is_an_empty_inventory() {
    let stdout = command_outcome(
        "wmctrl",
        &args(&["-lpGx"]),
        false,
        Ok(String::new()),
        "Cannot get client list properties.\n(_NET_CLIENT_LIST or _WIN_CLIENT_LIST)\n",
    )
    .unwrap();
    assert_eq!(stdout, "");
    let mut adapter = XwaylandEwmhAdapter::with_commands("wmctrl".into(), "xprop".into());
    adapter.refresh(observe(&stdout, ""));
    assert_eq!(adapter.next_event(), None);
}

#[test]
fn snap_is_idempotent_when_geometry_is_already_correct() {
    let mut adapter = XwaylandEwmhAdapter::with_commands("wmctrl".into(), "xprop".into());
    adapter.set_snapshots(observe(&row("0 0 600 800"), ""));
    assert!(apply(&mut adapter, &snap("auto-2-left", 0, 600), "").is_empty());
}

#[test]
fn snap_forces_northwest_gravity_for_absolute_placement() {
    let mut adapter = XwaylandEwmhAdapter::with_commands("wmctrl".into(), "xprop".into());
    adapter.set_snapshots(observe(&row("40 40 320 200"), ""));
    assert_eq!(
        apply(&mut adapter, &snap("auto-2-right", 600, 600), ""),
        vec![args(&["-ir", WINDOW, "-e", "1,600,0,600,800"])]
    );
}

#[test]
fn snap_preserves_the_restore_geometry_of_an_initially_maximized_window() {
    let mut adapter = XwaylandEwmhAdapter::with_commands("wmctrl".into(), "xprop".into());
    adapter.set_snapshots(observe(
        &row("0 0 1200 800"),
        "_NET_WM_STATE_MAXIMIZED_VERT, _NET_WM_STATE_MAXIMIZED_HORZ",
    ));
    assert_eq!(
        apply(&mut adapter, &snap("auto-2-left", 0, 600), &row("100 100 320 200")),
        vec![
            args(&["-ir", WINDOW, "-b", "remove,maximized_vert,maximized_horz"]),
            args(&["-ir", WINDOW, "-e", "1,0,0,600,800"]),
        ]
    );
    adapter.set_snapshots(observe(&row("0 0 600 800"), ""));
    let unsnap = CompositorCommand::Unsnap {
        toplevel_id: WINDOW.into(),
    };
    assert_eq!(
        apply(&mut adapter, &unsnap, ""),
        vec![args(&["-ir", WINDOW, "-e", "1,100,100,320,200"])]
    );
}

#[test]
fn unsnap_restores_the_geometry_captured_before_management() {
    let mut adapter = XwaylandEwmhAdapter::with_commands("wmctrl".into(), "xprop".into());
    adapter.set_snapshots(observe(&row("100 100 320 200"), ""));
    apply(&mut adapter, &snap("auto-2-left", 0, 600), "");
    adapter.set_snapshots(observe(&row("0 0 600 800"), ""));
    let unsnap = CompositorCommand::Unsnap {
        toplevel_id: WINDOW.into(),
    };
    assert_eq!(
        apply(&mut adapter, &unsnap, ""),
        vec![args(&["-ir", WINDOW, "-e", "1,100,100,320,200"])]
    );
    // The restore geometry is forgotten once used.
    assert!(apply(&mut adapter, &unsnap, "").is_empty());
}

#[test]
fn maximize_recovers_a_tiled_xid_and_is_idempotent_once_maximized() {
    let maximize = CompositorCommand::Maximize {
        toplevel_id: WINDOW.into(),
    };
    let mut tiled = XwaylandEwmhAdapter::with_commands("wmctrl".into(), "xprop".into());
    tiled.set_snapshots(observe(&row("0 0 600 800"), ""));
    assert_eq!(
        apply(&mut tiled, &maximize, ""),
        vec![args(&["-ir", WINDOW, "-b", "add,maximized_vert,maximized_horz"])]
    );

    let mut maximized = XwaylandEwmhAdapter::with_commands("wmctrl".into(), "xprop".into());
    maximized.set_snapshots(observe(
        &row("0 0 1200 800"),
        "_NET_WM_STATE_MAXIMIZED_VERT, _NET_WM_STATE_MAXIMIZED_HORZ",
    ));
    assert!(apply(&mut maximized, &maximize, "").is_empty());
}

#[test]
fn unmaximize_waits_for_the_window_to_leave_the_maximized_state() {
    let mut adapter = XwaylandEwmhAdapter::with_commands("wmctrl".into(), "xprop".into());
    let maximized = "_NET_WM_STATE_MAXIMIZED_VERT, _NET_WM_STATE_MAXIMIZED_HORZ";
    adapter.set_snapshots(observe(&row("0 0 1200 800"), maximized));
    let unmaximize = CompositorCommand::Unmaximize {
        toplevel_id: WINDOW.into(),
    };
    let prepared = adapter.prepare_command(&unmaximize).unwrap().unwrap();
    assert!(prepared.capture);
    let id = WINDOW.to_owned();
    assert!(!adapter
        .capture_attempt(&id, observe(&row("0 0 1200 800"), maximized), 0)
        .unwrap());
    assert_eq!(
        adapter
            .capture_attempt(&id, observe(&row("0 0 1200 800"), maximized), 9)
            .unwrap_err()
            .message(),
        "X11 toplevel 0x01200001 did not leave maximized state"
    );
    assert_eq!(
        adapter.capture_attempt(&id, Vec::new(), 3).unwrap_err().message(),
        "X11 toplevel 0x01200001 disappeared while unmaximizing"
    );
    assert!(adapter
        .capture_attempt(&id, observe(&row("10 20 300 200"), ""), 4)
        .unwrap());
    assert_eq!(
        adapter.finish_command(&unmaximize, &prepared),
        Some(args(&["-ir", WINDOW, "-e", "1,10,20,300,200"]))
    );
}

#[test]
fn decorations_are_refused_and_unknown_windows_are_not_guessed() {
    let mut adapter = XwaylandEwmhAdapter::with_commands("wmctrl".into(), "xprop".into());
    adapter.set_snapshots(observe(&row("0 0 600 800"), ""));
    let decoration = adapter
        .prepare_command(&CompositorCommand::SetDecoration {
            toplevel_id: WINDOW.into(),
            decoration: DecorationState::Full,
        })
        .unwrap_err();
    assert_eq!(
        decoration.message(),
        "dynamic decoration mutation is not available through EWMH"
    );
    let unknown = adapter
        .prepare_command(&CompositorCommand::Maximize {
            toplevel_id: "0x99".into(),
        })
        .unwrap_err();
    assert_eq!(
        unknown.message(),
        "X11 toplevel 0x99 is unavailable or unsupported; refusing to guess a replacement"
    );
    assert!(adapter
        .prepare_command(&CompositorCommand::Unmanage {
            toplevel_id: WINDOW.into(),
        })
        .unwrap()
        .is_none());
}

#[test]
fn vanished_windows_are_removed_and_forget_their_restore_geometry() {
    let mut adapter = XwaylandEwmhAdapter::new();
    assert_eq!(adapter.wmctrl(), "wmctrl");
    assert_eq!(adapter.xprop(), "xprop");
    assert_eq!(adapter.xwininfo(), "xwininfo");
    adapter.refresh(observe(&row("100 100 320 200"), ""));
    assert!(adapter.has_pending());
    adapter.next_event();
    apply(&mut adapter, &snap("auto-2-left", 0, 600), "");
    adapter.refresh(Vec::new());
    assert_eq!(
        adapter.next_event(),
        Some(ToplevelEvent::Remove {
            id: WINDOW.to_owned(),
        })
    );
    adapter.refresh(observe(&row("0 0 600 800"), ""));
    adapter.next_event();
    let unsnap = CompositorCommand::Unsnap {
        toplevel_id: WINDOW.into(),
    };
    assert!(apply(&mut adapter, &unsnap, "").is_empty());
    adapter.refresh(observe(&row("0 0 600 800"), ""));
    assert_eq!(adapter.next_event(), None);
}

#[test]
fn window_properties_name_class_kind_and_parent() {
    assert_eq!(
        parse_wm_class("WM_CLASS(STRING) = \"firefox\", \"Firefox\"\n"),
        Some("firefox.Firefox".to_owned())
    );
    assert_eq!(
        parse_wm_class("WM_CLASS(STRING) = \"solo\"\n"),
        Some("solo".to_owned())
    );
    assert_eq!(parse_wm_class("WM_CLASS:  not found.\n"), None);
    assert_eq!(parse_wm_class("_NET_WM_NAME = \"x\"\n"), None);
    assert_eq!(
        parse_window_kind("_NET_WM_WINDOW_TYPE(ATOM) = _NET_WM_WINDOW_TYPE_DIALOG\n"),
        ToplevelKind::Dialog
    );
    assert_eq!(
        parse_window_kind("_NET_WM_WINDOW_TYPE(ATOM) = _NET_WM_WINDOW_TYPE_UTILITY\n"),
        ToplevelKind::Utility
    );
    assert_eq!(
        parse_window_kind("_NET_WM_WINDOW_TYPE(ATOM) = _NET_WM_WINDOW_TYPE_DESKTOP\n"),
        ToplevelKind::Desktop
    );
    assert_eq!(parse_window_kind("nothing here\n"), ToplevelKind::Other);
    assert_eq!(
        parse_transient("WM_TRANSIENT_FOR(WINDOW): window id # 0x01200001,\n"),
        Some("0x01200001".to_owned())
    );
    assert_eq!(parse_transient("WM_TRANSIENT_FOR(WINDOW): window id # 0x0\n"), None);
    assert_eq!(parse_transient("WM_TRANSIENT_FOR:  not found.\n"), None);
}

#[test]
fn inventory_rows_refuse_negative_or_empty_geometry() {
    assert_eq!(
        parse_inventory_row("0x1 0 42 -5 0 100 100 host app.App Title")
            .unwrap_err()
            .message(),
        "wmctrl reported unsupported window geometry; refusing partial observation"
    );
    assert!(parse_inventory_row("0x1 0 42 0 0 0 100 host app.App").is_err());
    let parsed = parse_inventory_row("0x1 -1 42 5 6 100 200 host app.App  Two   words").unwrap();
    assert_eq!(parsed.x, 5);
    assert_eq!(parsed.height, 200);
    assert_eq!(parsed.class, "app.App");
    assert_eq!(parsed.title, "Two words");
    assert_eq!(inventory_lines("a\n  \n\nb\n"), ["a", "b"]);
}

#[test]
fn root_geometry_must_be_positive() {
    let adapter = XwaylandEwmhAdapter::new();
    let error = adapter.output("  Width: 0\n  Height: 800\n").unwrap_err();
    assert_eq!(
        error.message(),
        "xwininfo did not report a positive X root geometry"
    );
    assert!(adapter.output("  Height: 800\n").is_err());
}

#[test]
fn failed_commands_report_their_arguments_and_stderr() {
    let error = command_outcome(
        "wmctrl",
        &args(&["-ir", "0x1", "-b", "add"]),
        false,
        Ok(String::new()),
        "  boom \n",
    )
    .unwrap_err();
    assert_eq!(error.message(), "wmctrl -ir 0x1 -b add failed: boom");
    let non_utf8 = command_outcome("xprop", &Vec::new(), true, Err("bad byte".to_owned()), "")
        .unwrap_err();
    assert_eq!(non_utf8.message(), "xprop returned non-UTF-8 output: bad byte");
    assert_eq!(
        command_outcome("xprop", &Vec::new(), true, Ok("out".to_owned()), "").unwrap(),
        "out"
    );
}

#[test]
fn only_a_busy_executable_is_retried_three_times() {
    assert!(retry_spawn(Some(26), 0));
    assert!(retry_spawn(Some(26), 2));
    assert!(!retry_spawn(Some(26), 3));
    assert!(!retry_spawn(Some(2), 0));
    assert!(!retry_spawn(None, 0));
}

#[test]
fn runtime_and_status_use_the_same_state_path() {
    for (state, runtime) in [
        (Some("/tmp/state.json"), Some("/run/user/1000")),
        (None, Some("/run/user/1000")),
        (None, Some("/run/user/1000/")),
        (None, None),
    ] {
        let state = state.map(str::to_owned);
        let runtime = runtime.map(str::to_owned);
        assert_eq!(
            runtime_state_path(state.clone(), runtime.clone()),
            layoutd_state_path(state, runtime)
        );
    }
}

#[test]
fn the_state_path_prefers_the_override_then_the_runtime_directory() {
    assert_eq!(
        layoutd_state_path(Some("/tmp/s.json".into()), Some("/run".into())),
        Some("/tmp/s.json".to_owned())
    );
    assert_eq!(
        layoutd_state_path(None, Some("/run/user/7".into())),
        Some("/run/user/7/pelagian-layoutd/status.json".to_owned())
    );
    assert_eq!(
        layoutd_state_path(None, Some("/run/".into())),
        Some("/run/pelagian-layoutd/status.json".to_owned())
    );
    assert_eq!(layoutd_state_path(None, None), None);
}

#[test]
fn the_snapshot_table_keeps_the_last_snapshot_of_each_id_in_id_order() {
    let mut windows = observe(
        &format!(
            "{}0x02 0 1 0 0 10 10 host b.B Second\n0x01 0 1 5 5 20 20 host a.A Again\n",
            row("0 0 600 800")
        ),
        "",
    );
    let mut later = windows[0].clone();
    later.rect.width = 1200;
    windows.push(later);
    let table = snapshot_table(windows);
    assert_eq!(
        table.iter().map(|(id, _)| id.as_str()).collect::<Vec<_>>(),
        ["0x01", "0x01200001", "0x02"]
    );
    assert_eq!(table[1].1.rect.width, 1200);
    assert_eq!(table[0].1.toplevel.title, "Again");
}
