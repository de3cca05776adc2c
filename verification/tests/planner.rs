use pelagian_shell::{
    plan, reconcile_commands, reconcile_workspace_commands, transition_commands,
    CompositorCommand, DecorationState, LayoutRequest, Output, Placement, Rect, WorkspacePlan,
};

fn output() -> Output {
    Output {
        width: 1200,
        height: 800,
    }
}

fn ids(names: &[&str]) -> Vec<String> {
    names.iter().map(|name| name.to_string()).collect()
}

#[test]
fn one_normal_window_maximizes_without_requesting_fullscreen() {
    let placements = plan(output(), &["primary".to_owned()]);

    assert_eq!(placements.len(), 1);
    assert_eq!(placements[0].id, "primary");
    assert_eq!(
        placements[0].rect,
        Rect {
            x: 0,
            y: 0,
            width: 1200,
            height: 800,
        }
    );
    assert_eq!(placements[0].request, LayoutRequest::Maximize);
}

#[test]
fn two_windows_split_the_output_in_equal_halves() {
    let placements = plan(output(), &["left".to_owned(), "right".to_owned()]);

    assert_eq!(
        placements,
        [
            Placement {
                id: "left".to_owned(),
                rect: Rect {
                    x: 0,
                    y: 0,
                    width: 600,
                    height: 800,
                },
                request: LayoutRequest::Snap {
                    region: "auto-2-left".to_owned(),
                },
            },
            Placement {
                id: "right".to_owned(),
                rect: Rect {
                    x: 600,
                    y: 0,
                    width: 600,
                    height: 800,
                },
                request: LayoutRequest::Snap {
                    region: "auto-2-right".to_owned(),
                },
            },
        ]
    );
}

#[test]
fn three_windows_keep_a_primary_left_surface_and_stack_the_right_side() {
    let placements = plan(
        output(),
        &["primary".to_owned(), "top".to_owned(), "bottom".to_owned()],
    );

    assert_eq!(placements.len(), 3);
    assert_eq!(
        placements[0].rect,
        Rect {
            x: 0,
            y: 0,
            width: 600,
            height: 800
        }
    );
    assert_eq!(
        placements[1].rect,
        Rect {
            x: 600,
            y: 0,
            width: 600,
            height: 400
        }
    );
    assert_eq!(
        placements[2].rect,
        Rect {
            x: 600,
            y: 400,
            width: 600,
            height: 400,
        }
    );
    assert_eq!(
        placements[1].request,
        LayoutRequest::Snap {
            region: "auto-3-right-top".to_owned(),
        }
    );
}

#[test]
fn four_windows_use_a_two_by_two_grid() {
    let placements = plan(
        output(),
        &[
            "top-left".to_owned(),
            "top-right".to_owned(),
            "bottom-left".to_owned(),
            "bottom-right".to_owned(),
        ],
    );

    assert_eq!(placements.len(), 4);
    assert_eq!(
        placements[0].rect,
        Rect {
            x: 0,
            y: 0,
            width: 600,
            height: 400,
        }
    );
    assert_eq!(
        placements[1].rect,
        Rect {
            x: 600,
            y: 0,
            width: 600,
            height: 400,
        }
    );
    assert_eq!(
        placements[2].rect,
        Rect {
            x: 0,
            y: 400,
            width: 600,
            height: 400,
        }
    );
    assert_eq!(
        placements[3].request,
        LayoutRequest::Snap {
            region: "auto-4-bottom-right".to_owned(),
        }
    );
}

#[test]
fn five_windows_fill_balanced_rows_without_gaps() {
    let placements = plan(
        output(),
        &[
            "one".to_owned(),
            "two".to_owned(),
            "three".to_owned(),
            "four".to_owned(),
            "five".to_owned(),
        ],
    );

    assert_eq!(placements.len(), 5);
    assert_eq!(
        placements[0].rect,
        Rect {
            x: 0,
            y: 0,
            width: 400,
            height: 400
        }
    );
    assert_eq!(
        placements[2].rect,
        Rect {
            x: 800,
            y: 0,
            width: 400,
            height: 400
        }
    );
    assert_eq!(
        placements[3].rect,
        Rect {
            x: 0,
            y: 400,
            width: 600,
            height: 400
        }
    );
    assert_eq!(
        placements[4].rect,
        Rect {
            x: 600,
            y: 400,
            width: 600,
            height: 400
        }
    );
    assert_eq!(
        placements[4].request,
        LayoutRequest::Snap {
            region: "auto-5-r1-c1".to_owned(),
        }
    );
}

#[test]
fn six_windows_fill_a_three_by_two_grid() {
    let placements = plan(output(), &ids(&["a", "b", "c", "d", "e", "f"]));

    assert_eq!(placements.len(), 6);
    assert_eq!(
        placements[4].rect,
        Rect {
            x: 400,
            y: 400,
            width: 400,
            height: 400
        }
    );
    assert_eq!(
        placements[5].request,
        LayoutRequest::Snap {
            region: "auto-6-r1-c2".to_owned(),
        }
    );
}

#[test]
fn no_window_and_more_than_six_windows_get_no_plan() {
    assert!(plan(output(), &[]).is_empty());
    assert!(plan(output(), &ids(&["1", "2", "3", "4", "5", "6", "7"])).is_empty());
}

#[test]
fn odd_output_sizes_give_the_remainder_to_the_last_column_and_row() {
    let placements = plan(
        Output {
            width: 1001,
            height: 701,
        },
        &ids(&["a", "b", "c"]),
    );

    assert_eq!(
        placements[0].rect,
        Rect {
            x: 0,
            y: 0,
            width: 500,
            height: 701
        }
    );
    assert_eq!(
        placements[1].rect,
        Rect {
            x: 500,
            y: 0,
            width: 501,
            height: 350
        }
    );
    assert_eq!(
        placements[2].rect,
        Rect {
            x: 500,
            y: 350,
            width: 501,
            height: 351
        }
    );
}

#[test]
fn every_planned_pixel_row_is_covered_once() {
    let o = Output {
        width: 1366,
        height: 768,
    };
    for n in 1..=6 {
        let names: Vec<String> = (0..n).map(|i| format!("w{i}")).collect();
        let placements = plan(o, &names);
        let area: u64 = placements
            .iter()
            .map(|p| u64::from(p.rect.width) * u64::from(p.rect.height))
            .sum();
        assert_eq!(area, 1366 * 768, "{n} windows");
        for p in &placements {
            assert!(p.rect.x + p.rect.width <= 1366);
            assert!(p.rect.y + p.rect.height <= 768);
        }
    }
}

#[test]
fn maximize_and_snap_placements_become_explicit_commands() {
    let placements = plan(output(), &ids(&["solo"]));
    assert_eq!(
        reconcile_commands(&placements),
        vec![CompositorCommand::Maximize {
            toplevel_id: "solo".to_owned(),
        }]
    );
}

#[test]
fn windows_leaving_management_are_released_before_the_new_layout() {
    let placements = plan(output(), &ids(&["kept"]));
    let next = WorkspacePlan {
        placements,
        floating: vec!["gone".to_owned()],
        ignored: Vec::new(),
    };
    let commands = transition_commands(&["gone".to_owned(), "kept".to_owned()], &next);

    assert_eq!(
        commands[0],
        CompositorCommand::Unsnap {
            toplevel_id: "gone".to_owned(),
        }
    );
    assert_eq!(commands.len(), 2);
    assert_eq!(
        commands.last(),
        Some(&CompositorCommand::Maximize {
            toplevel_id: "kept".to_owned(),
        })
    );
}

#[test]
fn a_workspace_plan_decorates_places_and_floats_its_windows() {
    let next = WorkspacePlan {
        placements: plan(output(), &ids(&["1"])),
        floating: ids(&["2"]),
        ignored: ids(&["3"]),
    };
    assert_eq!(
        reconcile_workspace_commands(&next),
        vec![
            CompositorCommand::SetDecoration {
                toplevel_id: "1".to_owned(),
                decoration: DecorationState::Full,
            },
            CompositorCommand::Maximize {
                toplevel_id: "1".to_owned(),
            },
            CompositorCommand::SetDecoration {
                toplevel_id: "2".to_owned(),
                decoration: DecorationState::Full,
            },
            CompositorCommand::Unsnap {
                toplevel_id: "2".to_owned(),
            },
        ]
    );
}
