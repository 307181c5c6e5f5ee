use cardinal::nanovg::{BlendState, PathData, TextureRegistry};

#[test]
fn textures_get_increasing_ids_and_keep_their_size() {
    let mut r = TextureRegistry::new();
    let a = r.create_texture(2, 64, 32, 0);
    let b = r.create_texture(1, 8, 8, 4);
    assert_eq!((a, b), (1, 2));
    assert_eq!(r.texture_size(a), Some((64, 32)));
    assert_eq!(r.texture_size(b), Some((8, 8)));
    assert_eq!(r.texture_size(3), None);
    assert!(r.delete_texture(a));
    assert!(!r.delete_texture(a));
    assert_eq!(r.texture_size(a), None);
    assert_eq!(r.texture_size(b), Some((8, 8)));
    assert_eq!(r.create_texture(2, 1, 1, 0), 3);
}

#[test]
fn defaults_are_zero() {
    let b = BlendState::default();
    assert_eq!((b.src_rgb, b.dst_rgb, b.src_alpha, b.dst_alpha), (0, 0, 0, 0));
    let p = PathData::default();
    assert_eq!((p.fill_offset, p.fill_count, p.stroke_offset, p.stroke_count), (0, 0, 0, 0));
}
