use pelagian_shell::{
    classify_toplevel, Classification, Output, Toplevel, ToplevelEvent, ToplevelKind, WindowRule,
    Workspace,
};

fn toplevel(id: &str, kind: ToplevelKind, parent_id: Option<&str>) -> Toplevel {
    Toplevel {
        id: id.to_owned(),
        app_id: "org.example.App".to_owned(),
        title: id.to_owned(),
        kind,
        parent_id: parent_id.map(str::to_owned),
    }
}

fn output() -> Output {
    Output {
        width: 1200,
        height: 800,
    }
}

#[test]
fn dialogs_float_and_do_not_count_as_managed_windows() {
    let mut workspace = Workspace::default();
    workspace.upsert(toplevel("main", ToplevelKind::Normal, None));
    workspace.upsert(toplevel("dialog", ToplevelKind::Dialog, Some("main")));
    workspace.upsert(toplevel("second", ToplevelKind::Normal, None));
    workspace.upsert(toplevel("desktop", ToplevelKind::Desktop, None));

    let classified = workspace.classify(&[]);

    assert_eq!(
        classified.managed,
        vec!["main".to_owned(), "second".to_owned()]
    );
    assert_eq!(classified.floating, vec!["dialog".to_owned()]);
    assert_eq!(classified.ignored, vec!["desktop".to_owned()]);
    assert_eq!(
        workspace.classification_of("dialog", &[]),
        Some(Classification::Floating)
    );
}

#[test]
fn removal_reflows_remaining_managed_windows_in_insertion_order() {
    let mut workspace = Workspace::default();
    workspace.apply(ToplevelEvent::Upsert(toplevel(
        "first",
        ToplevelKind::Normal,
        None,
    )));
    workspace.apply(ToplevelEvent::Upsert(toplevel(
        "second",
        ToplevelKind::Normal,
        None,
    )));
    workspace.apply(ToplevelEvent::Upsert(toplevel(
        "third",
        ToplevelKind::Normal,
        None,
    )));
    workspace.apply(ToplevelEvent::Remove {
        id: "second".to_owned(),
    });

    let plan = workspace.plan(output(), &[], 6);

    assert_eq!(
        plan.placements
            .iter()
            .map(|placement| placement.id.as_str())
            .collect::<Vec<_>>(),
        ["first", "third"]
    );
    assert_eq!(plan.placements[0].rect.width, 600);
    assert_eq!(plan.placements[1].rect.x, 600);
}

#[test]
fn last_matching_title_rule_can_float_an_installer() {
    let mut workspace = Workspace::default();
    workspace.upsert(Toplevel {
        id: "installer".to_owned(),
        app_id: "wine".to_owned(),
        title: "Example Installer".to_owned(),
        kind: ToplevelKind::Normal,
        parent_id: None,
    });

    assert_eq!(
        workspace.classification_of(
            "installer",
            &[WindowRule {
                app_id: "wine".to_owned(),
                title: Some("*Installer*".to_owned()),
                disposition: Classification::Floating,
            }],
        ),
        Some(Classification::Floating)
    );
}

#[test]
fn six_window_ceiling_keeps_the_planner_in_its_supported_range() {
    let mut workspace = Workspace::default();
    for index in 1..=7 {
        workspace.upsert(toplevel(
            &format!("window-{index}"),
            ToplevelKind::Normal,
            None,
        ));
    }

    let plan = workspace.plan(output(), &[], 6);

    assert_eq!(plan.placements.len(), 6);
    assert_eq!(plan.floating, ["window-7"]);
}

#[test]
fn upserting_a_known_id_replaces_it_in_place() {
    let mut workspace = Workspace::default();
    workspace.upsert(toplevel("a", ToplevelKind::Normal, None));
    workspace.upsert(toplevel("b", ToplevelKind::Normal, None));
    workspace.upsert(toplevel("a", ToplevelKind::Dialog, None));

    let classified = workspace.classify(&[]);
    assert_eq!(classified.managed, ["b"]);
    assert_eq!(classified.floating, ["a"]);

    workspace.upsert(toplevel("a", ToplevelKind::Normal, None));
    let plan = workspace.plan(output(), &[], 6);
    assert_eq!(
        plan.placements
            .iter()
            .map(|placement| placement.id.as_str())
            .collect::<Vec<_>>(),
        ["a", "b"]
    );
}

#[test]
fn removing_an_unknown_id_changes_nothing() {
    let mut workspace = Workspace::default();
    workspace.upsert(toplevel("a", ToplevelKind::Normal, None));
    workspace.remove("missing");
    assert_eq!(workspace.classify(&[]).managed, ["a"]);
    workspace.remove("a");
    assert_eq!(workspace.classification_of("a", &[]), None);
    workspace.apply(ToplevelEvent::Reconcile);
    assert!(workspace.classify(&[]).managed.is_empty());
}

#[test]
fn every_window_lands_in_exactly_one_class() {
    let mut workspace = Workspace::default();
    workspace.upsert(toplevel("n", ToplevelKind::Normal, None));
    workspace.upsert(toplevel("child", ToplevelKind::Normal, Some("n")));
    workspace.upsert(toplevel("u", ToplevelKind::Utility, None));
    workspace.upsert(toplevel("o", ToplevelKind::Other, None));
    let classified = workspace.classify(&[]);
    assert_eq!(classified.managed, ["n"]);
    assert_eq!(classified.floating, ["child", "u"]);
    assert_eq!(classified.ignored, ["o"]);
}

#[test]
fn the_last_matching_rule_wins_and_wildcards_match_any_app() {
    let window = Toplevel {
        id: "1".to_owned(),
        app_id: "org.example.Editor".to_owned(),
        title: "Preferences".to_owned(),
        kind: ToplevelKind::Normal,
        parent_id: None,
    };
    let rules = [
        WindowRule {
            app_id: "*".to_owned(),
            title: None,
            disposition: Classification::Ignored,
        },
        WindowRule {
            app_id: "org.example.Editor".to_owned(),
            title: Some("Pref*".to_owned()),
            disposition: Classification::Floating,
        },
        WindowRule {
            app_id: "org.example.Other".to_owned(),
            title: None,
            disposition: Classification::Managed,
        },
    ];
    assert_eq!(classify_toplevel(&window, &rules), Classification::Floating);
    assert_eq!(classify_toplevel(&window, &rules[..1]), Classification::Ignored);
    assert_eq!(classify_toplevel(&window, &[]), Classification::Managed);
}

#[test]
fn planning_respects_a_lower_ceiling_and_keeps_floating_windows() {
    let mut workspace = Workspace::default();
    for index in 1..=3 {
        workspace.upsert(toplevel(&format!("w{index}"), ToplevelKind::Normal, None));
    }
    workspace.upsert(toplevel("dlg", ToplevelKind::Dialog, Some("w1")));
    workspace.upsert(toplevel("bg", ToplevelKind::Desktop, None));

    let plan = workspace.plan(output(), &[], 2);
    assert_eq!(plan.placements.len(), 2);
    assert_eq!(plan.floating, ["dlg", "w3"]);
    assert_eq!(plan.ignored, ["bg"]);
}

#[test]
fn with_automatic_placement_off_managed_windows_float_after_the_floating_ones() {
    let mut workspace = Workspace::default();
    workspace.upsert(toplevel("main", ToplevelKind::Normal, None));
    workspace.upsert(toplevel("dialog", ToplevelKind::Dialog, Some("main")));
    workspace.upsert(toplevel("second", ToplevelKind::Normal, None));
    workspace.upsert(toplevel("desktop", ToplevelKind::Desktop, None));

    let plan = workspace.float_plan(&[]);
    assert!(plan.placements.is_empty());
    assert_eq!(plan.floating, ["dialog", "main", "second"]);
    assert_eq!(plan.ignored, ["desktop"]);
}
