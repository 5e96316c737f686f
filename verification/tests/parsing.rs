use zilch::package::Package;
use zilch::session::{
    api_level_command, extractor_remote_path, extractor_run_command, list_disabled_command,
    list_packages_command, parse_api_level, session_from_handshake,
};
use zilch::strutil::{parse_u32, str_contains, str_equal, str_has_prefix, trim};
use zilch::sync::parse_extractor_line;

#[test]
fn line_with_path_splits_at_last_equals() {
    let pkgs = Package::many_from("package:/data/app/x.apk=com.foo");
    assert_eq!(pkgs.len(), 1);
    assert_eq!(pkgs[0].id, "com.foo");
    assert_eq!(pkgs[0].path, "/data/app/x.apk");
    assert!(pkgs[0].name.is_none());
}

#[test]
fn line_without_equals_is_all_id() {
    let pkgs = Package::many_from("package:com.bar");
    assert_eq!(pkgs.len(), 1);
    assert_eq!(pkgs[0].id, "com.bar");
    assert_eq!(pkgs[0].path, "");
}

#[test]
fn listing_parses_line_by_line() {
    let out = "package:/a/base.apk=com.a\npackage:com.b\npackage:/p=q.apk=com.c\n";
    let pkgs = Package::many_from(out);
    assert_eq!(pkgs.len(), 3);
    assert_eq!(pkgs[0].id, "com.a");
    assert_eq!(pkgs[0].path, "/a/base.apk");
    assert_eq!(pkgs[1].id, "com.b");
    assert_eq!(pkgs[1].path, "");
    // the split happens at the last `=`
    assert_eq!(pkgs[2].id, "com.c");
    assert_eq!(pkgs[2].path, "/p=q.apk");
}

#[test]
fn listing_handles_crlf_and_unprefixed_lines() {
    let pkgs = Package::many_from("package:/a=com.a\r\n/b=com.b\r");
    assert_eq!(pkgs.len(), 2);
    assert_eq!(pkgs[0].id, "com.a");
    assert_eq!(pkgs[0].path, "/a");
    assert_eq!(pkgs[1].id, "com.b");
    assert_eq!(pkgs[1].path, "/b");
}

#[test]
fn empty_listing_has_no_records() {
    assert_eq!(Package::many_from("").len(), 0);
}

#[test]
fn packages_compare_by_id_alone() {
    let a = Package { id: "com.a".to_string(), path: "/x".to_string(), name: None };
    let b = Package { id: "com.a".to_string(), path: "/y".to_string(), name: Some("A".to_string()) };
    let c = Package { id: "com.b".to_string(), path: "/x".to_string(), name: None };
    assert!(a == b);
    assert!(a != c);
}

#[test]
fn substring_search_finds_markers() {
    assert!(str_contains("operation Success done", "Success"));
    assert!(!str_contains("failure", "Success"));
    assert!(str_contains("abc", ""));
    assert!(!str_contains("ab", "abc"));
}

#[test]
fn prefix_and_equality_checks() {
    assert!(str_has_prefix("package:x", "package:"));
    assert!(!str_has_prefix("pack", "package:"));
    assert!(str_equal("same", "same"));
    assert!(!str_equal("same", "sam"));
}

#[test]
fn decimal_parse_accepts_digits_only() {
    assert_eq!(parse_u32("0"), Some(0));
    assert_eq!(parse_u32("34"), Some(34));
    assert_eq!(parse_u32("4294967295"), Some(u32::MAX));
    assert_eq!(parse_u32("4294967296"), None);
    assert_eq!(parse_u32("99999999999999999999"), None);
    assert_eq!(parse_u32(""), None);
    assert_eq!(parse_u32("12a"), None);
    assert_eq!(parse_u32("-1"), None);
}

#[test]
fn trim_strips_surrounding_whitespace() {
    assert_eq!(trim(" \t33\r\n"), "33");
    assert_eq!(trim("abc"), "abc");
    assert_eq!(trim("  \n "), "");
}

#[test]
fn api_level_parses_from_version_output() {
    assert_eq!(parse_api_level("33\n"), Some(33));
    assert_eq!(parse_api_level(" 19 "), Some(19));
    assert_eq!(parse_api_level("lollipop"), None);
    assert_eq!(parse_api_level(""), None);
}

#[test]
fn handshake_builds_a_session_or_nothing() {
    let s = session_from_handshake("30\n").expect("level should parse");
    assert_eq!(s.api_level, 30);
    assert!(session_from_handshake("?\n").is_none());
}

#[test]
fn extractor_line_yields_id_and_spaced_label() {
    let (id, label) = parse_extractor_line("pkg com.foo My Nice App").expect("three fields");
    assert_eq!(id, "com.foo");
    assert_eq!(label, "My Nice App");
}

#[test]
fn extractor_line_needs_three_fields() {
    assert!(parse_extractor_line("onlyone").is_none());
    assert!(parse_extractor_line("two fields").is_none());
    let (id, label) = parse_extractor_line("a b c\r").expect("three fields");
    assert_eq!(id, "b");
    assert_eq!(label, "c");
}

#[test]
fn fixed_commands_match_the_wire_protocol() {
    assert_eq!(list_packages_command(), "pm list packages -f");
    assert_eq!(list_disabled_command(), "pm list packages -d");
    assert_eq!(api_level_command(), "getprop ro.build.version.sdk");
    assert_eq!(extractor_remote_path(), "/data/local/tmp/extractor.dex");
    assert_eq!(
        extractor_run_command(),
        "CLASSPATH=/data/local/tmp/extractor.dex app_process / Main"
    );
}
