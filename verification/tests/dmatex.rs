use cardinal::dmatex::{
    drm_format, find_memory_type, readback_layout, render_node_candidates, unpad_rows, ModuleTextures,
};

fn textures() -> ModuleTextures<&'static str, i32> {
    ModuleTextures {
        textures: ["tex0", "tex1"],
        write_index: 0,
        dmatex_ids: [11, 12],
        timeline_point: 5,
        syncobj_fd: -1,
        width: 90,
        height: 200,
    }
}

#[test]
fn drm_format_is_abgr8888() {
    assert_eq!(drm_format(), 0x34324241);
    assert_eq!(&drm_format().to_le_bytes(), b"AB24");
}

#[test]
fn swap_publishes_the_written_texture() {
    let mut t = textures();
    assert_eq!(*t.write_texture(), "tex0");
    assert_eq!(t.read_dmatex_id(), 12);
    t.swap();
    assert_eq!(t.write_index, 1);
    assert_eq!(t.timeline_point, 6);
    assert_eq!(*t.write_texture(), "tex1");
    assert_eq!(t.read_dmatex_id(), 11);
    t.swap();
    assert_eq!(t.write_index, 0);
    assert_eq!(t.timeline_point, 7);
    assert_eq!(t.read_dmatex_id(), 12);
}

#[test]
fn first_fitting_memory_type_is_chosen() {
    // flags: 1 = device local, 2 = host visible
    let flags = [2u32, 1, 3, 1];
    assert_eq!(find_memory_type(&flags, 0b1111, 1), Some(1));
    assert_eq!(find_memory_type(&flags, 0b1100, 1), Some(2));
    assert_eq!(find_memory_type(&flags, 0b0001, 1), None);
    assert_eq!(find_memory_type(&flags, 0b1111, 3), Some(2));
    assert_eq!(find_memory_type(&flags, 0, 0), None);
    assert_eq!(find_memory_type(&[], 0xffff_ffff, 0), None);
}

#[test]
fn memory_type_31_is_reachable() {
    let mut flags = [0u32; 32];
    flags[31] = 1;
    assert_eq!(find_memory_type(&flags, 1 << 31, 1), Some(31));
}

#[test]
fn readback_rows_are_padded_to_the_alignment() {
    let l = readback_layout(90, 200, 256);
    assert_eq!(l.unpadded_bytes_per_row, 360);
    assert_eq!(l.padded_bytes_per_row, 512);
    assert_eq!(l.buffer_size, 512 * 200);
    let exact = readback_layout(64, 3, 256);
    assert_eq!(exact.padded_bytes_per_row, 256);
    assert_eq!(exact.buffer_size, 768);
    let empty = readback_layout(0, 5, 256);
    assert_eq!(empty.padded_bytes_per_row, 0);
    assert_eq!(empty.buffer_size, 0);
}

#[test]
fn unpadding_drops_the_row_padding() {
    let mapped = [1u8, 2, 3, 0, 0, 4, 5, 6, 0, 0, 7, 8, 9];
    assert_eq!(unpad_rows(&mapped, 3, 5, 3), vec![1, 2, 3, 4, 5, 6, 7, 8, 9]);
    assert_eq!(unpad_rows(&mapped, 3, 5, 0), Vec::<u8>::new());
    assert_eq!(unpad_rows(&mapped, 2, 5, 2), vec![1, 2, 4, 5]);
}

#[test]
fn render_nodes_are_tried_device_first() {
    let with = render_node_candidates(Some(130));
    assert_eq!(with.len(), 17);
    assert_eq!(with[0], 130);
    assert_eq!(with[1], 128);
    assert_eq!(with[16], 143);
    let without = render_node_candidates(None);
    assert_eq!(without, (128..144).collect::<Vec<u64>>());
}
