use textpod::config::{
    config_or_default, default_save_shortcut, is_readonly_mode, server_address, Config,
    ShortcutsConfig,
};

#[test]
fn the_default_keys_are_control_and_enter() {
    assert_eq!(default_save_shortcut(), "Ctrl+Enter");
    assert_eq!(ShortcutsConfig::default().save, "Ctrl+Enter");
    assert_eq!(Config::default().shortcuts.save, "Ctrl+Enter");
}

#[test]
fn settings_that_can_be_read_are_used() {
    let read = Config { shortcuts: ShortcutsConfig { save: "Ctrl+S".to_string() } };
    assert_eq!(config_or_default(Some(read)).shortcuts.save, "Ctrl+S");
    assert_eq!(config_or_default(None).shortcuts.save, "Ctrl+Enter");
}

#[test]
fn one_word_asks_for_read_only_mode() {
    assert!(is_readonly_mode(Some("readonly")));
    assert!(!is_readonly_mode(Some("Readonly")));
    assert!(!is_readonly_mode(Some("")));
    assert!(!is_readonly_mode(None));
}

#[test]
fn the_address_has_the_port_behind_it() {
    assert_eq!(server_address("127.0.0.1", 3000), "127.0.0.1:3000");
    assert_eq!(server_address("::1", 0), "::1:0");
    assert_eq!(server_address("h", 65535), "h:65535");
}
