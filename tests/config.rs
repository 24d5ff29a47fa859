use wints::config::{add_ignored, WintsConfig};

#[test]
fn no_ignored_urls() {
    let config = WintsConfig::empty_config();
    assert!(config.ignored_urls.is_none());
}

#[test]
fn empty_config_has_version_one() {
    let config = WintsConfig::empty_config();
    assert_eq!(1, config.version);
    assert!(config.ignored_list().is_empty());
}

#[test]
fn add_ignored_creates_then_appends() {
    let first = add_ignored(&None, "https://x".to_string());
    assert_eq!(1, first.version);
    assert_eq!(Some(vec!["https://x".to_string()]), first.ignored_urls.clone());
    let second = add_ignored(&Some(first), "https://y".to_string());
    assert_eq!(
        vec!["https://x".to_string(), "https://y".to_string()],
        second.ignored_list()
    );
}

#[test]
fn add_ignored_keeps_version_of_existing_config() {
    let config = WintsConfig { version: 3, ignored_urls: None };
    let updated = add_ignored(&Some(config), "https://x".to_string());
    assert_eq!(3, updated.version);
    assert_eq!(vec!["https://x".to_string()], updated.ignored_list());
}
