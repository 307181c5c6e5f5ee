use cardinal::engine::{render_buffer_len, render_result, CableId, ModuleId};

#[test]
fn negative_handles_mean_failure() {
    assert_eq!(ModuleId::from_handle(-1), None);
    assert_eq!(ModuleId::from_handle(0), Some(ModuleId(0)));
    assert_eq!(ModuleId::from_handle(42), Some(ModuleId(42)));
    assert_eq!(CableId::from_handle(i64::MIN), None);
    assert_eq!(CableId::from_handle(7), Some(CableId(7)));
}

#[test]
fn render_buffer_holds_four_bytes_per_pixel() {
    assert_eq!(render_buffer_len(90, 200), 72_000);
    assert_eq!(render_buffer_len(0, 200), 0);
}

#[test]
fn render_result_cuts_the_buffer_to_the_rendered_size() {
    let r = render_result(1, 2, 3, vec![9u8; 100]).unwrap();
    assert_eq!((r.0, r.1, r.2.len()), (2, 3, 24));
    let short = render_result(1, 2, 3, vec![9u8; 10]).unwrap();
    assert_eq!(short.2.len(), 10);
    assert!(render_result(0, 2, 3, vec![0u8; 24]).is_none());
    assert!(render_result(1, 0, 3, vec![0u8; 24]).is_none());
    assert!(render_result(1, 2, -3, vec![0u8; 24]).is_none());
}
