use hallway::config;
use hallway::consts;
use hallway::pomerium_routes;
use hallway::strutil;

#[test]
fn time_units_in_seconds() {
    assert_eq!(consts::minutes(1), 60);
    assert_eq!(consts::hours(1), 3_600);
    assert_eq!(consts::days(1), 86_400);
    assert_eq!(consts::weeks(2), 1_209_600);
    assert_eq!(consts::weeks(0), 0);
}

#[test]
fn fixed_locations_and_defaults() {
    assert_eq!(consts::get_conf_dir(), "./");
    assert_eq!(consts::get_html_files_dir(), "./html_files");
    assert_eq!(consts::background(), "background.avif");
    assert_eq!(consts::debug_email(), "testuser@testmail.com");
    assert_eq!(consts::debug_name(), "Test User");
    assert_eq!(config::button_color(), "#FEFFE8");
}

#[test]
fn known_routes_without_a_proxy() {
    let known = pomerium_routes::obtain_known("https://x.com");
    assert_eq!(known.frontchannel_logout_uri, "/test/logout");
    assert_eq!(known.jwks_uri, "/test/jwks.json");
}

#[test]
fn label_escaping() {
    assert_eq!(config::escape_label("My App.Beta"), "My_App_Beta");
    assert_eq!(config::escape_label(""), "");
    assert_eq!(config::escape_label("..."), "___");
    assert_eq!(config::escape_label("plain"), "plain");
}

#[test]
fn string_predicates() {
    assert!(strutil::str_eq("a@x.com", "a@x.com"));
    assert!(!strutil::str_eq("a@x.com", "a@x.co"));
    assert!(strutil::str_starts_with("admin@x.com", "adm"));
    assert!(!strutil::str_starts_with("admin@x.com", "dm"));
    assert!(strutil::str_starts_with("anything", ""));
    assert!(strutil::str_ends_with("admin@x.com", "@x.com"));
    assert!(!strutil::str_ends_with("admin@x.com", "@y.com"));
    assert!(strutil::str_contains("admin@x.com", "min@"));
    assert!(!strutil::str_contains("admin@x.com", "nim"));
    assert!(strutil::str_contains("short", ""));
    assert!(!strutil::str_contains("ab", "abc"));
}
