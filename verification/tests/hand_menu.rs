use cardinal::engine::CatalogEntry;
use cardinal::hand_menu::{clone_modules, clone_plugins, sort_by_name, HandMenuState, MenuLevel, ModuleEntry, PalmLevel};

fn sample_catalog() -> Vec<CatalogEntry> {
    vec![
        CatalogEntry {
            plugin_slug: "Fundamental".into(),
            model_slug: "VCO".into(),
            model_name: "VCO".into(),
        },
        CatalogEntry {
            plugin_slug: "Fundamental".into(),
            model_slug: "VCF".into(),
            model_name: "VCF".into(),
        },
        CatalogEntry {
            plugin_slug: "Befaco".into(),
            model_slug: "Mixer".into(),
            model_name: "Mixer".into(),
        },
    ]
}

/// The menu's view of a palm-up amount against the opening (0.7) and
/// closing (0.5) thresholds.
fn palm(amount: f32) -> PalmLevel {
    if amount >= 0.7 {
        PalmLevel::AboveOpen
    } else if amount < 0.5 {
        PalmLevel::BelowClose
    } else {
        PalmLevel::Between
    }
}

#[test]
fn test_catalog_grouping() {
    let catalog = sample_catalog();
    let state = HandMenuState::from_catalog(&catalog);

    assert_eq!(state.all_plugins.len(), 2, "should have 2 plugin groups");

    // Alphabetical: Befaco before Fundamental
    assert_eq!(state.all_plugins[0].plugin_slug, "Befaco");
    assert_eq!(state.all_plugins[1].plugin_slug, "Fundamental");

    assert_eq!(state.all_plugins[1].modules.len(), 2, "Fundamental has 2 modules");
    assert_eq!(state.filtered_plugins.len(), 2);
    assert!(!state.visible);
}

#[test]
fn test_plugin_selection_populates_modules() {
    let catalog = sample_catalog();
    let mut state = HandMenuState::from_catalog(&catalog);

    // Index 1 is Fundamental
    state.select_plugin(Some(1));

    assert_eq!(state.selected_plugin, Some(1));
    assert_eq!(state.filtered_modules.len(), 2);
    // Sorted alphabetically: VCF before VCO
    assert_eq!(state.filtered_modules[0].model_slug, "VCF");
    assert_eq!(state.filtered_modules[1].model_slug, "VCO");
}

#[test]
fn test_palm_hysteresis() {
    let catalog = sample_catalog();
    let mut state = HandMenuState::from_catalog(&catalog);

    // Below open threshold → stays hidden
    state.update_palm_visibility(palm(0.5));
    assert!(!state.visible);

    // Above open threshold → visible
    state.update_palm_visibility(palm(0.8));
    assert!(state.visible);

    // Between thresholds → stays visible (hysteresis)
    state.update_palm_visibility(palm(0.6));
    assert!(state.visible, "should stay visible between thresholds");

    // Below close threshold → hidden
    state.update_palm_visibility(palm(0.4));
    assert!(!state.visible);
}

#[test]
fn test_close_resets_state() {
    let catalog = sample_catalog();
    let mut state = HandMenuState::from_catalog(&catalog);

    // Set up some state
    state.visible = true;
    state.select_tag(None); // no-op for tags but exercises code path
    state.select_plugin(Some(1));
    state.scroll_offsets.insert(MenuLevel::Module, 3);

    // Close should reset everything
    state.close();

    assert!(!state.visible);
    assert_eq!(state.selected_tag, None);
    assert_eq!(state.selected_plugin, None);
    assert!(state.filtered_modules.is_empty());
    assert!(state.scroll_offsets.is_empty());
    // filtered_plugins should be repopulated
    assert_eq!(state.filtered_plugins.len(), 2);
}

#[test]
fn grouping_lists_every_module_under_its_plugin() {
    let state = HandMenuState::from_catalog(&sample_catalog());
    let befaco = &state.all_plugins[0];
    assert_eq!(befaco.display_name, "Befaco");
    assert_eq!(befaco.modules.len(), 1);
    assert_eq!(befaco.modules[0].model_slug, "Mixer");
    assert_eq!(befaco.modules[0].plugin_slug, "Befaco");
    assert!(befaco.modules[0].tags.is_empty());
    let fundamental = &state.all_plugins[1];
    assert_eq!(fundamental.modules[0].display_name, "VCF");
    assert_eq!(fundamental.modules[1].display_name, "VCO");
}

#[test]
fn empty_catalog_has_no_groups() {
    let state = HandMenuState::from_catalog(&[]);
    assert!(state.all_plugins.is_empty());
    assert!(state.filtered_plugins.is_empty());
    assert!(state.tags.is_empty());
}

#[test]
fn plugin_order_is_by_code_point_and_prefix_first() {
    let mk = |p: &str| CatalogEntry { plugin_slug: p.into(), model_slug: "M".into(), model_name: "M".into() };
    let catalog = vec![mk("b"), mk("B"), mk("ab"), mk("a"), mk("b")];
    let state = HandMenuState::from_catalog(&catalog);
    let slugs: Vec<&str> = state.all_plugins.iter().map(|g| g.plugin_slug.as_str()).collect();
    assert_eq!(slugs, vec!["B", "a", "ab", "b"]);
    assert_eq!(state.all_plugins[3].modules.len(), 2);
}

#[test]
fn equal_names_keep_catalog_order() {
    let mk = |slug: &str, name: &str| ModuleEntry {
        model_slug: slug.into(),
        display_name: name.into(),
        plugin_slug: "P".into(),
        tags: vec![],
    };
    let sorted = sort_by_name(vec![mk("z1", "Z"), mk("a1", "A"), mk("z2", "Z"), mk("a2", "A"), mk("m", "M")]);
    let order: Vec<&str> = sorted.iter().map(|m| m.model_slug.as_str()).collect();
    assert_eq!(order, vec!["a1", "a2", "m", "z1", "z2"]);
}

#[test]
fn selecting_missing_plugin_lists_nothing() {
    let mut state = HandMenuState::from_catalog(&sample_catalog());
    state.select_plugin(Some(1));
    state.select_plugin(Some(7));
    assert_eq!(state.selected_plugin, Some(7));
    assert!(state.filtered_modules.is_empty());
    state.select_plugin(Some(0));
    assert_eq!(state.filtered_modules.len(), 1);
    state.select_plugin(None);
    assert!(state.filtered_modules.is_empty());
}

#[test]
fn selecting_a_tag_resets_plugin_selection() {
    let mut state = HandMenuState::from_catalog(&sample_catalog());
    state.select_plugin(Some(1));
    state.select_tag(Some(2));
    assert_eq!(state.selected_tag, Some(2));
    assert_eq!(state.selected_plugin, None);
    assert!(state.filtered_modules.is_empty());
    assert_eq!(state.filtered_plugins.len(), 2);
}

#[test]
fn hidden_menu_ignores_closing_level_and_visible_menu_ignores_opening_level() {
    let mut state = HandMenuState::from_catalog(&sample_catalog());
    state.update_palm_visibility(PalmLevel::BelowClose);
    assert!(!state.visible);
    state.update_palm_visibility(PalmLevel::AboveOpen);
    state.select_plugin(Some(0));
    state.update_palm_visibility(PalmLevel::AboveOpen);
    assert!(state.visible);
    assert_eq!(state.selected_plugin, Some(0));
    state.update_palm_visibility(PalmLevel::BelowClose);
    assert!(!state.visible);
    assert_eq!(state.selected_plugin, None);
    assert!(state.filtered_modules.is_empty());
}

#[test]
fn copies_keep_every_field() {
    let state = HandMenuState::from_catalog(&sample_catalog());
    let copy = clone_plugins(&state.all_plugins);
    assert_eq!(copy.len(), 2);
    assert_eq!(copy[1].plugin_slug, "Fundamental");
    assert_eq!(copy[1].modules[1].model_slug, "VCO");
    let modules = vec![ModuleEntry {
        model_slug: "s".into(),
        display_name: "d".into(),
        plugin_slug: "p".into(),
        tags: vec!["t1".into(), "t2".into()],
    }];
    let m = clone_modules(&modules);
    assert_eq!(m[0].tags, vec!["t1".to_string(), "t2".to_string()]);
    assert_eq!(m[0].display_name, "d");
}
