use scribe::config::ScribeConfig;

fn test_config() -> ScribeConfig {
    ScribeConfig::from_pairs(vec![("directory".to_string(), "/notes".to_string())])
}

#[test]
fn test_config_get() {
    let cfg: ScribeConfig = test_config();
    assert!(cfg.get("directory").is_some());
    assert!(cfg.get("asdfasdfasdfasdfasdf").is_none());
}

#[test]
fn test_config_contains_key() {
    let cfg: ScribeConfig = test_config();
    assert!(cfg.contains_key("directory"));
    assert!(!cfg.contains_key("asdfasdfasdf"));
}

#[test]
fn test_config_first_binding_wins() {
    let cfg = ScribeConfig::from_pairs(vec![
        ("directory".to_string(), "/first".to_string()),
        ("directory".to_string(), "/second".to_string()),
    ]);
    assert_eq!(cfg.get("directory").unwrap(), "/first");
}
