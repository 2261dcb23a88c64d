use ccplan::config::{default_lead_str, default_timeout_str, Config, RawConfig};

#[test]
fn raw_config_default_and_helpers() {
    let rc = RawConfig::default();
    assert_eq!(rc.grace, "90s");
    assert_eq!(default_timeout_str(), "5m");
    assert_eq!(default_lead_str(), "5m");
}

#[test]
fn config_from_raw_falls_back_on_bad_durations() {
    let mut rc = RawConfig::default();
    rc.grace = "2m".to_owned();
    rc.automation.timeout = "bogus".to_owned();
    rc.notify.default_lead = "2d".to_owned();
    let config = Config::from_raw(rc);
    assert_eq!(config.grace.as_seconds(), 120);
    assert_eq!(config.automation.timeout.as_seconds(), 300);
    assert_eq!(config.notify.default_lead.as_seconds(), 300);
}

#[test]
fn default_config_values() {
    let config = Config::default();
    assert!(!config.automation.enabled);
    assert_eq!(config.automation.timeout.as_seconds(), 300);
    assert_eq!(config.notify.default_lead.as_seconds(), 300);
    assert_eq!(config.grace.as_seconds(), 90);
}
