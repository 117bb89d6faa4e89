use psybeam::config::{from_script, Anchor, ConfigError, SurfaceConfig, DEFAULT_HEIGHT};

#[test]
fn anchor_top_when_not_bottom() {
    let c = SurfaceConfig { height: 24, exclusive_height: None, bottom: false };
    assert_eq!(c.anchor(), Anchor::Top);
}

#[test]
fn anchor_bottom_when_bottom() {
    let c = SurfaceConfig { height: 24, exclusive_height: None, bottom: true };
    assert_eq!(c.anchor(), Anchor::Bottom);
}

#[test]
fn exclusive_zone_defaults_to_height() {
    let c = SurfaceConfig { height: 24, exclusive_height: None, bottom: false };
    assert_eq!(c.exclusive_zone(), 24);
}

#[test]
fn exclusive_zone_uses_explicit_value() {
    let c = SurfaceConfig { height: 24, exclusive_height: Some(40), bottom: false };
    assert_eq!(c.exclusive_zone(), 40);
}

#[test]
fn exclusive_zone_negative_permits_overlap() {
    let c = SurfaceConfig { height: 24, exclusive_height: Some(-1), bottom: true };
    assert_eq!(c.exclusive_zone(), -1);
}

#[test]
fn from_script_all_defaults() {
    let c = from_script(None, None, None).unwrap();
    assert_eq!(c.height, DEFAULT_HEIGHT);
    assert_eq!(c.height, 32);
    assert_eq!(c.exclusive_height, None);
    assert!(!c.bottom);
}

#[test]
fn from_script_reads_fields() {
    let c = from_script(Some(24), Some(30), Some("bottom")).unwrap();
    assert_eq!(c.height, 24);
    assert_eq!(c.exclusive_height, Some(30));
    assert!(c.bottom);
}

#[test]
fn from_script_anchor_top() {
    let c = from_script(Some(24), None, Some("top")).unwrap();
    assert!(!c.bottom);
}

#[test]
fn from_script_rejects_unknown_anchor() {
    assert_eq!(from_script(Some(24), None, Some("left")), Err(ConfigError::BadAnchor));
    assert_eq!(from_script(None, None, Some("Bottom")), Err(ConfigError::BadAnchor));
    assert_eq!(from_script(None, None, Some("")), Err(ConfigError::BadAnchor));
}

#[test]
fn from_script_rejects_bad_height() {
    assert_eq!(from_script(Some(0), None, None), Err(ConfigError::BadHeight));
    assert_eq!(from_script(Some(-3), None, None), Err(ConfigError::BadHeight));
    assert_eq!(from_script(Some(1 << 40), None, None), Err(ConfigError::BadHeight));
}

#[test]
fn from_script_rejects_bad_exclusive_height() {
    assert_eq!(from_script(Some(24), Some(1 << 40), None), Err(ConfigError::BadExclusiveHeight));
    assert_eq!(from_script(Some(24), Some(-(1 << 40)), None), Err(ConfigError::BadExclusiveHeight));
}

#[test]
fn from_script_checks_height_before_anchor() {
    assert_eq!(from_script(Some(0), None, Some("left")), Err(ConfigError::BadHeight));
}
