use pelagian_shell::config::{
    apply_patch, capability_enabled, check_patch, join_path, resolve_layers, select_drop_ins,
    select_profile, ConfigRoots,
    validate_config, validate_profile_name, validate_rule, Capabilities, CapabilitiesPatch,
    Config, ConfigError, ConfigLayer, ConfigPatch, DecorationMode, Decorations, DecorationsPatch,
    DefaultsLayer, DialogMode, Layout, LayoutMode, LayoutPatch, MultipleMode, ResolvedConfig,
    SoloMode, Theme, ThemeVariant, WindowDisposition, WindowRule,
};
use pelagian_shell::{Classification, RuntimeSettings};

fn defaults() -> Config {
    Config {
        schema_version: 1,
        layout: Layout {
            mode: LayoutMode::Auto,
            solo: SoloMode::Maximized,
            multiple: MultipleMode::Automatic,
            dialogs: DialogMode::Floating,
            max_managed_windows: 6,
        },
        decorations: Decorations {
            solo: DecorationMode::Full,
            tiled: DecorationMode::Full,
            floating: DecorationMode::Full,
        },
        theme: Theme {
            variant: ThemeVariant::Dark,
        },
        capabilities: Capabilities { wine: false },
        window_rules: Vec::new(),
    }
}

fn empty_patch() -> ConfigPatch {
    ConfigPatch {
        schema_version: 1,
        layout: None,
        decorations: None,
        theme: None,
        capabilities: None,
        window_rules: Vec::new(),
    }
}

fn layout_patch(mode: Option<LayoutMode>, max: Option<u8>) -> LayoutPatch {
    LayoutPatch {
        mode,
        solo: None,
        multiple: None,
        dialogs: None,
        max_managed_windows: max,
    }
}

fn rule(app_id: &str) -> WindowRule {
    WindowRule {
        app_id: app_id.to_owned(),
        title: None,
        disposition: WindowDisposition::Floating,
    }
}

fn layer(source: &str, patch: ConfigPatch) -> ConfigLayer {
    ConfigLayer {
        source: source.to_owned(),
        patch: Ok(patch),
    }
}

fn base() -> DefaultsLayer {
    DefaultsLayer {
        source: "/usr/share/pelagian-shell/defaults.toml".to_owned(),
        config: Ok(defaults()),
    }
}

fn resolve(
    profile: &str,
    selected: ConfigPatch,
    drop_ins: Vec<ConfigLayer>,
) -> Result<ResolvedConfig, ConfigError> {
    resolve_layers(
        profile,
        base(),
        Ok(layer("/etc/pelagian-shell/profiles/selected.toml", selected)),
        Ok(drop_ins),
    )
}

#[test]
fn resolves_selected_profile_after_builtin_defaults() {
    let mut selected = empty_patch();
    selected.layout = Some(layout_patch(None, Some(4)));
    selected.capabilities = Some(CapabilitiesPatch { wine: Some(true) });
    let resolved = resolve("legacy-apps", selected, Vec::new()).unwrap();

    assert_eq!(resolved.config.layout.max_managed_windows, 4);
    assert!(resolved.config.capabilities.wine);
    assert_eq!(resolved.config.layout.mode.as_str(), "auto");
    assert_eq!(resolved.sources.len(), 2);
    assert_eq!(capability_enabled(&resolved, "wine").unwrap(), true);
}

#[test]
fn applies_drop_ins_in_lexical_order_and_appends_window_rules() {
    let names = vec![
        "80-app.toml".to_owned(),
        "notes.txt".to_owned(),
        "10-consumer.toml".to_owned(),
    ];
    let ordered = select_drop_ins(&names);
    assert_eq!(ordered, ["10-consumer.toml", "80-app.toml"]);

    let mut first = empty_patch();
    first.window_rules.push(rule("org.example.First"));
    first.layout = Some(layout_patch(Some(LayoutMode::Float), None));
    let mut second = empty_patch();
    second.window_rules.push(rule("org.example.Second"));
    second.layout = Some(layout_patch(Some(LayoutMode::Auto), None));
    let resolved = resolve(
        "default",
        empty_patch(),
        vec![
            layer("/etc/pelagian-shell/profile.d/10-consumer.toml", first),
            layer("/etc/pelagian-shell/profile.d/80-app.toml", second),
        ],
    )
    .unwrap();

    assert_eq!(resolved.config.window_rules.len(), 2);
    assert_eq!(resolved.config.window_rules[0].app_id, "org.example.First");
    assert_eq!(resolved.config.window_rules[1].app_id, "org.example.Second");
    assert_eq!(resolved.config.layout.mode, LayoutMode::Auto);
    assert!(resolved.sources[2].ends_with("10-consumer.toml"));
    assert!(resolved.sources[3].ends_with("80-app.toml"));
}

#[test]
fn resolved_float_drop_in_disables_automatic_placement() {
    let mut float = empty_patch();
    float.layout = Some(layout_patch(Some(LayoutMode::Float), None));
    let resolved = resolve(
        "default",
        empty_patch(),
        vec![layer("/etc/pelagian-shell/profile.d/90-float.toml", float)],
    )
    .unwrap();

    assert!(!RuntimeSettings::from_config(&resolved.config).automatic);
}

#[test]
fn runtime_settings_follow_the_resolved_configuration() {
    let mut config = defaults();
    config.window_rules.push(WindowRule {
        app_id: "browser".to_owned(),
        title: Some("*Picture*".to_owned()),
        disposition: WindowDisposition::Ignored,
    });
    let settings = RuntimeSettings::from_config(&config);
    assert!(settings.automatic);
    assert_eq!(settings.max_managed_windows, 6);
    assert_eq!(settings.window_rules.len(), 1);
    assert_eq!(settings.window_rules[0].disposition, Classification::Ignored);
    assert_eq!(settings.window_rules[0].title.as_deref(), Some("*Picture*"));
}

#[test]
fn a_layer_with_the_wrong_schema_is_refused_with_its_source() {
    let mut selected = empty_patch();
    selected.schema_version = 2;
    let error = resolve("default", selected, Vec::new()).unwrap_err();
    assert_eq!(
        error.message(),
        "/etc/pelagian-shell/profiles/selected.toml: unsupported schema_version 2; expected 1"
    );
}

#[test]
fn an_unreadable_layer_stops_resolution_with_its_error() {
    let error = resolve_layers(
        "default",
        base(),
        Ok(layer("profile.toml", empty_patch())),
        Ok(vec![ConfigLayer {
            source: "/etc/pelagian-shell/profile.d/10-bad.toml".to_owned(),
            patch: Err(ConfigError::new(
                "/etc/pelagian-shell/profile.d/10-bad.toml: unknown field `unexpected`".to_owned(),
            )),
        }]),
    )
    .unwrap_err();
    assert!(error.message().contains("unknown field `unexpected`"));
}

#[test]
fn profile_names_are_restricted_to_a_safe_alphabet() {
    assert!(validate_profile_name("legacy-apps_2").is_ok());
    assert_eq!(
        validate_profile_name("../etc").unwrap_err().message(),
        "invalid profile name \"../etc\"; use only ASCII letters, digits, '-' or '_'"
    );
    assert!(validate_profile_name("").is_err());
    assert!(resolve("bad name", empty_patch(), Vec::new()).is_err());
}

#[test]
fn managed_window_ceiling_and_decorations_are_validated() {
    let mut config = defaults();
    config.layout.max_managed_windows = 7;
    assert_eq!(
        validate_config(&config).unwrap_err().message(),
        "layout.max_managed_windows must be between 1 and 6"
    );
    config.layout.max_managed_windows = 0;
    assert!(validate_config(&config).is_err());
    let mut config = defaults();
    config.decorations.tiled = DecorationMode::Border;
    assert_eq!(
        validate_config(&config).unwrap_err().message(),
        "decorations.solo, decorations.tiled and decorations.floating must be full"
    );
    let mut patch = empty_patch();
    patch.decorations = Some(DecorationsPatch {
        solo: None,
        tiled: None,
        floating: Some(DecorationMode::Undecorated),
    });
    assert!(check_patch("x.toml", &patch).is_err());
    assert!(validate_config(&defaults()).is_ok());
}

#[test]
fn window_rules_need_an_app_id_and_a_nonempty_title() {
    assert_eq!(
        validate_rule(&rule("  ")).unwrap_err().message(),
        "window_rules.app_id must not be empty"
    );
    let mut titled = rule("app");
    titled.title = Some(String::new());
    assert_eq!(
        validate_rule(&titled).unwrap_err().message(),
        "window_rules.title must not be empty when provided"
    );
    assert!(validate_rule(&rule("app")).is_ok());
}

#[test]
fn later_settings_replace_earlier_ones_and_rules_append() {
    let mut config = defaults();
    config.window_rules.push(rule("first"));
    let mut patch = empty_patch();
    patch.layout = Some(layout_patch(None, Some(3)));
    patch.theme = Some(pelagian_shell::config::ThemePatch { variant: None });
    patch.window_rules.push(rule("second"));
    apply_patch(&mut config, patch);
    assert_eq!(config.layout.max_managed_windows, 3);
    assert_eq!(config.layout.mode, LayoutMode::Auto);
    assert_eq!(config.theme.variant, ThemeVariant::Dark);
    assert_eq!(
        config
            .window_rules
            .iter()
            .map(|rule| rule.app_id.as_str())
            .collect::<Vec<_>>(),
        ["first", "second"]
    );
}

#[test]
fn unknown_capabilities_are_refused() {
    let resolved = resolve("default", empty_patch(), Vec::new()).unwrap();
    assert_eq!(capability_enabled(&resolved, "wine").unwrap(), false);
    assert_eq!(
        capability_enabled(&resolved, "steam").unwrap_err().message(),
        "unknown capability \"steam\""
    );
}

#[test]
fn the_local_profile_wins_over_the_builtin_one() {
    let roots = ConfigRoots {
        share: "/usr/share/pelagian-shell".to_owned(),
        etc: "/etc/pelagian-shell/".to_owned(),
    };
    assert_eq!(
        select_profile("browser", &roots, true, true).unwrap(),
        "/etc/pelagian-shell/profiles/browser.toml"
    );
    assert_eq!(
        select_profile("browser", &roots, false, true).unwrap(),
        "/usr/share/pelagian-shell/profiles/browser.toml"
    );
    assert_eq!(
        select_profile("browser", &roots, false, false)
            .unwrap_err()
            .message(),
        "selected profile \"browser\" was not found in /etc/pelagian-shell/profiles or /usr/share/pelagian-shell/profiles"
    );
    assert_eq!(join_path("", "defaults.toml"), "defaults.toml");
    assert_eq!(join_path("/usr/share/pelagian-shell", "defaults.toml"), "/usr/share/pelagian-shell/defaults.toml");
}

#[test]
fn drop_ins_need_a_toml_extension_and_sort_by_name() {
    let names: Vec<String> = ["b.toml", ".toml", "a.TOML", "c.toml.bak", "a.toml", "Z.toml"]
        .iter()
        .map(|name| name.to_string())
        .collect();
    assert_eq!(select_drop_ins(&names), ["Z.toml", "a.toml", "b.toml"]);
}

#[test]
fn runtime_uses_shells_resolved_configuration_without_parallel_defaults() {
    // The shipped defaults with the `browser` profile, which overrides nothing the
    // runtime reads.
    let resolved = resolve("browser", empty_patch(), Vec::new()).unwrap();

    let settings = RuntimeSettings::from_config(&resolved.config);
    assert!(settings.automatic);
    assert_eq!(settings.max_managed_windows, 6);
    assert!(settings.window_rules.is_empty());
}
