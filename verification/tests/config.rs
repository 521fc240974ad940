use niffler::config::data_root_from_env;

#[test]
fn env_root_overrides_default_home_root() {
    let root = data_root_from_env(
        Some("/tmp/custom".to_string()),
        Some("/home/me".to_string()),
    );

    assert_eq!(root, "/tmp/custom");
}

#[test]
fn default_root_is_niffler_directory_under_home() {
    let root = data_root_from_env(None, Some("/home/me".to_string()));

    assert_eq!(root, "/home/me/.niffler");
}
