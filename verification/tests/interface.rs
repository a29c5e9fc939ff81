use hgame_launcher::interface::Config;

#[test]
fn default_config_scans_nothing() {
    assert!(Config::default().scan_dir.is_empty());
}
