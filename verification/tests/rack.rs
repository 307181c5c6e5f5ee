use cardinal::engine::{CatalogEntry, EventResult, ModuleId, PortDragInfo};
use cardinal::rack::{
    browser_shows, cable_endpoints, contains_str, drag_start, egui_mods_to_rack, filter_key,
    module_display_name, DragStart, Modifiers,
};

fn mods(shift: bool, ctrl: bool, alt: bool, mac_cmd: bool, command: bool) -> Modifiers {
    Modifiers { shift, ctrl, alt, mac_cmd, command }
}

#[test]
fn modifier_bits() {
    assert_eq!(egui_mods_to_rack(&mods(false, false, false, false, false)), 0);
    assert_eq!(egui_mods_to_rack(&mods(true, false, false, false, false)), 1);
    assert_eq!(egui_mods_to_rack(&mods(false, true, true, false, false)), 6);
    assert_eq!(egui_mods_to_rack(&mods(false, false, false, true, false)), 8);
    assert_eq!(egui_mods_to_rack(&mods(false, false, false, false, true)), 8);
    assert_eq!(egui_mods_to_rack(&mods(true, true, true, true, true)), 15);
}

#[test]
fn what_a_press_starts() {
    let port = Some(EventResult { consumed: true, port_drag: Some(PortDragInfo { port_id: 2, is_output: true }) });
    assert_eq!(drag_start(port), DragStart::Cable { port_id: 2, is_output: true });
    let widget = Some(EventResult { consumed: true, port_drag: None });
    assert_eq!(drag_start(widget), DragStart::Widget);
    let ignored = Some(EventResult { consumed: false, port_drag: Some(PortDragInfo { port_id: 2, is_output: true }) });
    assert_eq!(drag_start(ignored), DragStart::Module);
    assert_eq!(drag_start(None), DragStart::Module);
}

#[test]
fn cables_run_from_output_to_input() {
    let (a, b) = (ModuleId(1), ModuleId(2));
    assert_eq!(cable_endpoints(a, 0, true, b, 3, false), Some((a, 0, b, 3)));
    assert_eq!(cable_endpoints(a, 0, false, b, 3, true), Some((b, 3, a, 0)));
    assert_eq!(cable_endpoints(a, 0, true, b, 3, true), None);
    assert_eq!(cable_endpoints(a, 0, false, b, 3, false), None);
    assert_eq!(cable_endpoints(a, -1, true, b, 3, false), None);
}

#[test]
fn substring_search() {
    assert!(contains_str("fundamental", "dame"));
    assert!(contains_str("abc", ""));
    assert!(contains_str("abc", "abc"));
    assert!(!contains_str("abc", "abcd"));
    assert!(!contains_str("abc", "bd"));
    assert!(contains_str("aab", "ab"));
}

#[test]
fn filter_matches_lowercased_name_or_slug() {
    let e = CatalogEntry { plugin_slug: "Fundamental".into(), model_slug: "VCO".into(), model_name: "VCO-1".into() };
    assert_eq!(filter_key("VCO"), "vco");
    assert_eq!(filter_key("ÄB"), "äb");
    assert!(browser_shows(&e, &filter_key("")));
    assert!(browser_shows(&e, &filter_key("vco")));
    assert!(browser_shows(&e, &filter_key("FUND")));
    assert!(!browser_shows(&e, &filter_key("vcf")));
    assert!(!browser_shows(&e, "VCO"));
}

#[test]
fn display_names_come_from_the_catalog() {
    let cat = vec![
        CatalogEntry { plugin_slug: "P".into(), model_slug: "M".into(), model_name: "First".into() },
        CatalogEntry { plugin_slug: "P".into(), model_slug: "M".into(), model_name: "Second".into() },
    ];
    assert_eq!(module_display_name(&cat, "P", "M"), "First");
    assert_eq!(module_display_name(&cat, "Q", "M"), "M");
    assert_eq!(module_display_name(&[], "P", "X"), "X");
}
