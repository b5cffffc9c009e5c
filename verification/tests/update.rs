//! Which version is newer.
use rootmode_desktop::update::{newer, parse, tag_to_version, update_info, VersionBody, CURRENT};

#[test]
fn a_higher_patch_is_newer() {
    assert!(newer("0.1.4", "0.1.5"));
    assert!(!newer("0.1.5", "0.1.5"));
    assert!(!newer("0.1.5", "0.1.4"));
    assert!(newer("0.1.9", "0.2.0"));
    assert!(newer("v0.1.4", "v0.1.10"));
}

fn body(version: &str, tag: &str, tag_name: &str, url: &str) -> VersionBody {
    VersionBody {
        version: version.into(),
        tag: tag.into(),
        tag_name: tag_name.into(),
        url: url.into(),
    }
}

#[test]
fn a_version_is_three_numbers() {
    assert_eq!(parse(" v1.22.333 "), Some((1, 22, 333)));
    assert_eq!(parse("one.two.three"), None);
    assert!(!newer("nonsense", "9.9.9"));
}

#[test]
fn the_version_is_taken_from_whichever_field_names_it() {
    assert_eq!(tag_to_version(&body("1.2.3", "v9.9.9", "", "")).as_deref(), Some("1.2.3"));
    assert_eq!(tag_to_version(&body("", "", "v0.2.0", "")).as_deref(), Some("0.2.0"));
}

#[test]
fn an_update_is_offered_only_when_it_is_newer() {
    assert!(update_info(&body("99.0.0", "", "", "")).available);
    assert!(!update_info(&body(CURRENT, "", "", "")).available);
    assert!(!update_info(&body("", "", "", "")).available);
}

#[test]
fn being_newer_is_an_order() {
    assert!(newer("1.0.0", "1.0.1") && newer("1.0.1", "1.1.0") && newer("1.0.0", "1.1.0"));
    assert!(!(newer("1.0.0", "2.0.0") && newer("2.0.0", "1.0.0")));
}
