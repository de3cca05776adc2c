use pelagian_shell::labwc::{Inventory, IpcOutput, IpcRect, IpcView};
use pelagian_shell::{LabwcIpcAdapter, LayoutRequest, Placement, Rect, Workspace, WorkspacePlan};

fn view(id: u64, kind: &str, parent_id: Option<u64>) -> IpcView {
    IpcView {
        id,
        app_id: "fixture".to_owned(),
        title: "tile".to_owned(),
        kind: kind.to_owned(),
        parent_id,
        x: 0,
        y: 0,
        width: 0,
        height: 0,
        minimized: false,
        fullscreen: false,
        maximized: false,
        tiled: false,
        region: String::new(),
        decoration: "full".to_owned(),
        titlebar_visible: true,
    }
}

fn six_tiles_and_a_dialog() -> Inventory {
    let mut views = Vec::new();
    // Installed 33/34/33 percent regions on an odd-width output.
    for (index, (x, width)) in [
        (20, 450),
        (470, 465),
        (935, 451),
        (20, 450),
        (470, 465),
        (935, 451),
    ]
    .into_iter()
    .enumerate()
    {
        let mut tile = view(index as u64 + 1, "normal", None);
        tile.x = x;
        tile.y = if index < 3 { 30 } else { 414 };
        tile.width = width;
        tile.height = 384;
        tile.tiled = true;
        tile.region = format!("auto-6-r{}-c{}", index / 3, index % 3);
        views.push(tile);
    }
    let mut dialog = view(7, "dialog", Some(1));
    dialog.title = "dialog".to_owned();
    views.push(dialog);
    Inventory {
        views,
        outputs: vec![IpcOutput {
            usable_area: IpcRect {
                x: 20,
                y: 30,
                width: 1366,
                height: 768,
            },
        }],
    }
}

#[test]
fn convergence_checks_geometry_regions_decorations_and_floating_state() {
    let inventory = six_tiles_and_a_dialog();
    let mut adapter = LabwcIpcAdapter::new("labwc.sock".to_owned());
    let mut workspace = Workspace::default();
    adapter.observe_workspace(&inventory, &mut workspace).unwrap();
    let plan = workspace.plan(adapter.output().unwrap(), &[], 6);
    assert_eq!(adapter.convergence_error(&plan), None);

    let alterations: Vec<(usize, &str, Box<dyn Fn(&mut IpcView)>)> = vec![
        (0, "width", Box::new(|v: &mut IpcView| v.width = 449)),
        (0, "region", Box::new(|v: &mut IpcView| v.region = "auto-6-r0-c1".to_owned())),
        (0, "minimized", Box::new(|v: &mut IpcView| v.minimized = true)),
        (0, "fullscreen", Box::new(|v: &mut IpcView| v.fullscreen = true)),
        (0, "decoration", Box::new(|v: &mut IpcView| v.decoration = "border".to_owned())),
        (0, "titlebar_visible", Box::new(|v: &mut IpcView| v.titlebar_visible = false)),
        (6, "tiled", Box::new(|v: &mut IpcView| v.tiled = true)),
        (6, "maximized", Box::new(|v: &mut IpcView| v.maximized = true)),
    ];
    for (index, field, alter) in alterations {
        let mut altered = inventory.clone();
        alter(&mut altered.views[index]);
        adapter.observe_workspace(&altered, &mut workspace).unwrap();
        assert!(adapter.convergence_error(&plan).is_some(), "missed {field}");
    }
}

#[test]
fn an_absent_window_names_itself_in_the_convergence_error() {
    let inventory = six_tiles_and_a_dialog();
    let mut adapter = LabwcIpcAdapter::new("labwc.sock".to_owned());
    let mut workspace = Workspace::default();
    adapter.observe_workspace(&inventory, &mut workspace).unwrap();
    let plan = workspace.plan(adapter.output().unwrap(), &[], 6);

    let mut without_second = inventory.clone();
    without_second.views.remove(1);
    let mut other = Workspace::default();
    adapter.observe_workspace(&without_second, &mut other).unwrap();
    assert_eq!(
        adapter.convergence_error(&plan),
        Some("window 2 is absent".to_owned())
    );
}

#[test]
fn labwc_regions_match_every_region_emitted_by_the_current_planner() {
    let output = pelagian_shell::Output {
        width: 1200,
        height: 800,
    };
    let emitted: std::collections::BTreeSet<String> = (1..=6)
        .flat_map(|count| {
            let windows = (0..count)
                .map(|index: usize| index.to_string())
                .collect::<Vec<_>>();
            pelagian_shell::plan(output, &windows)
        })
        .filter_map(|placement| match placement.request {
            pelagian_shell::LayoutRequest::Maximize => None,
            pelagian_shell::LayoutRequest::Snap { region } => Some(region),
        })
        .collect();
    let configured: std::collections::BTreeSet<String> =
        pelagian_shell::labwc::installed_region_names().into_iter().collect();

    assert_eq!(emitted, configured);
}

#[test]
fn a_snap_to_a_region_labwc_lacks_is_judged_by_the_planned_rectangle() {
    let mut tile = view(1, "normal", None);
    tile.x = 20 + 10;
    tile.y = 30 + 10;
    tile.width = 300;
    tile.height = 200;
    tile.tiled = true;
    tile.region = "custom".to_owned();
    let inventory = Inventory {
        views: vec![tile],
        outputs: vec![IpcOutput {
            usable_area: IpcRect {
                x: 20,
                y: 30,
                width: 1366,
                height: 768,
            },
        }],
    };
    let mut adapter = LabwcIpcAdapter::new("labwc.sock".to_owned());
    let mut workspace = Workspace::default();
    adapter.observe_workspace(&inventory, &mut workspace).unwrap();
    let plan = WorkspacePlan {
        placements: vec![Placement {
            id: "1".to_owned(),
            rect: Rect {
                x: 10,
                y: 10,
                width: 300,
                height: 200,
            },
            request: LayoutRequest::Snap {
                region: "custom".to_owned(),
            },
        }],
        floating: Vec::new(),
        ignored: Vec::new(),
    };
    assert_eq!(adapter.convergence_error(&plan), None);
    assert!(pelagian_shell::labwc::installed_region(&"custom".to_owned()).is_none());
    assert_eq!(
        pelagian_shell::labwc::installed_region(&"auto-6-r0-c1".to_owned()),
        Some((33, 0, 34, 50))
    );
}
