use cardinal::cable::{Cable, CABLE_COLOR_COUNT};
use cardinal::engine::{CableId, ModuleId};
use cardinal::workspace::{detach_module, reverse_vec, Workspace};

fn ws() -> Workspace<&'static str> {
    Workspace::new(vec![])
}

#[test]
fn cable_new_and_colour_slot() {
    let c = Cable::new(CableId(1), ModuleId(2), 3, ModuleId(4), 5, 13);
    assert_eq!(c.id, CableId(1));
    assert_eq!(c.out_module, ModuleId(2));
    assert_eq!(c.out_port, 3);
    assert_eq!(c.in_module, ModuleId(4));
    assert_eq!(c.in_port, 5);
    assert_eq!(c.color_index(), 1);
    assert!(c.is_connected_to(ModuleId(2)) && c.is_connected_to(ModuleId(4)));
    assert!(!c.is_connected_to(ModuleId(3)));
}

#[test]
fn cables_take_palette_colours_in_turn() {
    let mut w = ws();
    let mut colours = vec![];
    for i in 0..8 {
        let c = w.create_cable(CableId(i), ModuleId(1), 0, ModuleId(2), 0);
        colours.push(c.color_idx);
    }
    assert_eq!(colours, vec![0, 1, 2, 3, 4, 5, 0, 1]);
    assert_eq!(w.next_cable_color_idx(), 2);
    assert_eq!(CABLE_COLOR_COUNT, 6);
}

#[test]
fn destroying_a_module_removes_its_cables() {
    let mut w = ws();
    w.insert_module(ModuleId(1), "a");
    w.insert_module(ModuleId(2), "b");
    w.insert_module(ModuleId(3), "c");
    w.create_cable(CableId(10), ModuleId(1), 0, ModuleId(2), 0);
    w.create_cable(CableId(11), ModuleId(2), 0, ModuleId(3), 1);
    w.create_cable(CableId(12), ModuleId(3), 0, ModuleId(1), 1);
    let removed = w.destroy_module(ModuleId(2));
    assert_eq!(removed, vec![CableId(10), CableId(11)]);
    assert_eq!(w.cables.len(), 1);
    assert_eq!(w.cables[0].id, CableId(12));
    assert_eq!(w.modules.iter().map(|m| m.0).collect::<Vec<_>>(), vec![ModuleId(1), ModuleId(3)]);
    assert_eq!(w.module_index(ModuleId(2)), None);
    assert_eq!(w.module_index(ModuleId(3)), Some(1));
    assert!(w.destroy_module(ModuleId(9)).is_empty());
}

#[test]
fn placing_a_module_twice_replaces_its_panel() {
    let mut w = ws();
    w.insert_module(ModuleId(1), "old");
    w.insert_module(ModuleId(2), "b");
    w.insert_module(ModuleId(1), "new");
    assert_eq!(w.modules, vec![(ModuleId(2), "b"), (ModuleId(1), "new")]);
}

#[test]
fn destroying_a_cable() {
    let mut w = ws();
    w.create_cable(CableId(10), ModuleId(1), 0, ModuleId(2), 0);
    let gone = w.destroy_cable(CableId(10)).unwrap();
    assert_eq!(gone.id, CableId(10));
    assert!(w.cables.is_empty());
    assert!(w.destroy_cable(CableId(10)).is_none());
}

#[test]
fn recreating_a_cable_id_replaces_it() {
    let mut w = ws();
    w.create_cable(CableId(10), ModuleId(1), 0, ModuleId(2), 0);
    w.create_cable(CableId(10), ModuleId(3), 1, ModuleId(4), 2);
    assert_eq!(w.cables.len(), 1);
    assert_eq!(w.cables[0].out_module, ModuleId(3));
    assert_eq!(w.cables[0].color_idx, 1);
}

#[test]
fn dmatex_ids_come_in_fresh_pairs() {
    let mut w = ws();
    assert_eq!(w.next_dmatex_id(), 1);
    assert_eq!(w.allocate_dmatex_ids(), [1, 2]);
    assert_eq!(w.allocate_dmatex_ids(), [3, 4]);
    assert_eq!(w.next_dmatex_id(), 5);
}

#[test]
fn detaching_from_a_plain_cable_list() {
    let mut cables = vec![
        Cable::new(CableId(1), ModuleId(1), 0, ModuleId(2), 0, 0),
        Cable::new(CableId(2), ModuleId(3), 0, ModuleId(4), 0, 0),
    ];
    assert_eq!(detach_module(&mut cables, ModuleId(2)), vec![CableId(1)]);
    assert_eq!(cables.len(), 1);
    assert_eq!(cables[0].id, CableId(2));
}

#[test]
fn reversing() {
    assert_eq!(reverse_vec(vec![1, 2, 3]), vec![3, 2, 1]);
    assert_eq!(reverse_vec(Vec::<u8>::new()), Vec::<u8>::new());
}
