use cardinal::resource::{default_resource_dir, resource_dir_of};

#[test]
fn resource_root_is_three_levels_up() {
    assert_eq!(resource_dir_of("/src/Cardinal/cardinal-rs/crates/cardinal-core"), Some("/src/Cardinal".to_string()));
    assert_eq!(default_resource_dir("/src/Cardinal/cardinal-rs/crates/cardinal-core"), "/src/Cardinal");
    assert_eq!(resource_dir_of("/a/b/c"), Some("/".to_string()));
    assert_eq!(resource_dir_of("/a/b"), None);
    assert_eq!(resource_dir_of("a/b/c"), Some("".to_string()));
}
