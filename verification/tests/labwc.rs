use pelagian_shell::labwc::{
    action_outcome, command_action, ActionResponse, Inventory, IpcOutput, IpcRect, IpcView,
};
use pelagian_shell::{
    CompositorCommand, DecorationState, LabwcIpcAdapter, Rect, Toplevel, ToplevelEvent,
    ToplevelKind, Workspace,
};

fn view(id: u64, title: &str, kind: &str, parent_id: Option<u64>) -> IpcView {
    IpcView {
        id,
        app_id: "org.test.One".to_owned(),
        title: title.to_owned(),
        kind: kind.to_owned(),
        parent_id,
        x: 0,
        y: 0,
        width: 0,
        height: 0,
        minimized: false,
        fullscreen: false,
        maximized: false,
        tiled: false,
        region: String::new(),
        decoration: String::new(),
        titlebar_visible: false,
    }
}

fn inventory(views: Vec<IpcView>, width: u32, height: u32) -> Inventory {
    Inventory {
        views,
        outputs: vec![IpcOutput {
            usable_area: IpcRect {
                x: 0,
                y: 0,
                width,
                height,
            },
        }],
    }
}

/// The events one observation hands out, the way the daemon drains them.
fn drain(adapter: &mut LabwcIpcAdapter, observed: &Inventory) -> Vec<ToplevelEvent> {
    adapter.refresh(observed).unwrap();
    let mut events = Vec::new();
    while let Some(event) = adapter.next_event() {
        events.push(event);
    }
    events
}

#[test]
fn labwc_observes_native_windows_and_builds_layout_actions() {
    let mut adapter = LabwcIpcAdapter::new("labwc.sock".to_owned());
    let events = drain(
        &mut adapter,
        &inventory(
            vec![
                view(1, "One", "normal", None),
                view(2, "Dialog", "dialog", Some(1)),
            ],
            1920,
            1080,
        ),
    );
    assert_eq!(
        events,
        vec![
            ToplevelEvent::Upsert(Toplevel {
                id: "1".to_owned(),
                app_id: "org.test.One".to_owned(),
                title: "One".to_owned(),
                kind: ToplevelKind::Normal,
                parent_id: None,
            }),
            ToplevelEvent::Upsert(Toplevel {
                id: "2".to_owned(),
                app_id: "org.test.One".to_owned(),
                title: "Dialog".to_owned(),
                kind: ToplevelKind::Dialog,
                parent_id: Some("1".to_owned()),
            }),
        ]
    );
    assert_eq!(adapter.output().unwrap().width, 1920);
    assert_eq!(
        adapter
            .command_request(&CompositorCommand::Maximize {
                toplevel_id: "1".to_owned(),
            })
            .unwrap(),
        "ACTION 1 MAXIMIZE\n"
    );
    assert_eq!(
        adapter
            .command_request(&CompositorCommand::Snap {
                toplevel_id: "1".to_owned(),
                region: "auto-2-left".to_owned(),
                rect: Rect {
                    x: 0,
                    y: 0,
                    width: 960,
                    height: 1080,
                },
            })
            .unwrap(),
        "ACTION 1 SNAP auto-2-left\n"
    );
}

#[test]
fn labwc_preserves_numeric_creation_order() {
    let mut adapter = LabwcIpcAdapter::new("labwc.sock".to_owned());
    let events = drain(
        &mut adapter,
        &inventory(
            vec![
                view(10, "Ten", "normal", None),
                view(9, "Nine", "normal", None),
            ],
            1280,
            720,
        ),
    );
    assert_eq!(events.len(), 2);
    assert!(matches!(&events[0], ToplevelEvent::Upsert(view) if view.id == "9"));
    assert!(matches!(&events[1], ToplevelEvent::Upsert(view) if view.id == "10"));
}

#[test]
fn output_and_client_geometry_changes_request_bounded_reconciliation() {
    let state = |x: i32, width: u32, height: u32, maximized: bool| {
        let mut one = view(1, "One", "normal", None);
        one.x = x;
        one.y = x;
        one.width = width;
        one.height = height;
        one.maximized = maximized;
        one
    };
    let mut adapter = LabwcIpcAdapter::new("labwc.sock".to_owned());
    let first = drain(&mut adapter, &inventory(vec![state(0, 1280, 720, true)], 1280, 720));
    assert!(matches!(first.as_slice(), [ToplevelEvent::Upsert(_)]));
    assert_eq!(
        drain(&mut adapter, &inventory(vec![state(0, 1920, 1080, true)], 1920, 1080)),
        vec![ToplevelEvent::Reconcile]
    );
    assert_eq!(
        drain(&mut adapter, &inventory(vec![state(25, 900, 600, false)], 1920, 1080)),
        vec![ToplevelEvent::Reconcile]
    );
    assert!(drain(&mut adapter, &inventory(vec![state(25, 900, 600, false)], 1920, 1080)).is_empty());
    let mut undecorated = state(25, 900, 600, false);
    undecorated.decoration = "border".to_owned();
    assert_eq!(
        drain(&mut adapter, &inventory(vec![undecorated], 1920, 1080)),
        vec![ToplevelEvent::Reconcile]
    );
}

#[test]
fn a_vanished_view_is_removed_and_a_retitled_one_upserted() {
    let mut adapter = LabwcIpcAdapter::new("labwc.sock".to_owned());
    drain(
        &mut adapter,
        &inventory(
            vec![view(1, "One", "normal", None), view(2, "Two", "normal", None)],
            1280,
            720,
        ),
    );
    let events = drain(
        &mut adapter,
        &inventory(vec![view(2, "Renamed", "normal", None)], 1280, 720),
    );
    assert_eq!(events.len(), 2);
    assert!(matches!(&events[0], ToplevelEvent::Upsert(t) if t.id == "2" && t.title == "Renamed"));
    assert_eq!(
        events[1],
        ToplevelEvent::Remove {
            id: "1".to_owned(),
        }
    );
}

#[test]
fn an_inventory_without_a_usable_output_is_refused() {
    let mut adapter = LabwcIpcAdapter::new("labwc.sock".to_owned());
    let error = adapter
        .refresh(&inventory(vec![view(1, "One", "normal", None)], 0, 720))
        .unwrap_err();
    assert_eq!(error.message(), "Labwc IPC did not report a usable output");
    assert!(error.adapter_connected());
    assert!(adapter.output().is_err());
    let empty = Inventory {
        views: Vec::new(),
        outputs: Vec::new(),
    };
    assert!(adapter.refresh(&empty).is_err());
}

#[test]
fn observing_into_a_workspace_applies_every_event() {
    let mut adapter = LabwcIpcAdapter::new("labwc.sock".to_owned());
    let mut workspace = Workspace::default();
    adapter
        .observe_workspace(
            &inventory(
                vec![view(1, "One", "normal", None), view(2, "Two", "normal", None)],
                1200,
                800,
            ),
            &mut workspace,
        )
        .unwrap();
    assert_eq!(workspace.classify(&[]).managed, ["1", "2"]);
    adapter
        .observe_workspace(&inventory(vec![view(2, "Two", "normal", None)], 1200, 800), &mut workspace)
        .unwrap();
    assert_eq!(workspace.classify(&[]).managed, ["2"]);
    assert!(!adapter.has_pending());
}

#[test]
fn requests_for_unknown_or_non_numeric_ids_are_refused() {
    let mut adapter = LabwcIpcAdapter::new("labwc.sock".to_owned());
    drain(&mut adapter, &inventory(vec![view(1, "One", "normal", None)], 1200, 800));
    let gone = adapter
        .command_request(&CompositorCommand::Unsnap {
            toplevel_id: "5".to_owned(),
        })
        .unwrap_err();
    assert_eq!(
        gone.message(),
        "Labwc toplevel 5 disappeared before reconciliation"
    );
    assert!(gone.adapter_connected());
    let invalid = adapter
        .command_request(&CompositorCommand::Maximize {
            toplevel_id: "0x12".to_owned(),
        })
        .unwrap_err();
    assert_eq!(invalid.message(), "invalid Labwc toplevel id: 0x12");
}

#[test]
fn every_command_has_its_labwc_action_word() {
    let id = || "1".to_owned();
    assert_eq!(command_action(&CompositorCommand::Unmaximize { toplevel_id: id() }), "FLOAT");
    assert_eq!(command_action(&CompositorCommand::Unsnap { toplevel_id: id() }), "FLOAT");
    assert_eq!(command_action(&CompositorCommand::Unmanage { toplevel_id: id() }), "UNMANAGE");
    assert_eq!(
        command_action(&CompositorCommand::SetDecoration {
            toplevel_id: id(),
            decoration: DecorationState::Undecorated,
        }),
        "DECORATION none"
    );
    assert_eq!(
        command_action(&CompositorCommand::SetDecoration {
            toplevel_id: id(),
            decoration: DecorationState::Full,
        }),
        "DECORATION full"
    );
}

#[test]
fn a_rejected_action_reports_the_compositor_error() {
    assert!(action_outcome(
        "MAXIMIZE",
        &ActionResponse {
            ok: true,
            error: String::new(),
        }
    )
    .is_ok());
    let error = action_outcome(
        "MAXIMIZE",
        &ActionResponse {
            ok: false,
            error: "view disappeared".to_owned(),
        },
    )
    .unwrap_err();
    assert_eq!(error.message(), "Labwc rejected MAXIMIZE: view disappeared");
    assert!(error.adapter_connected());
}
