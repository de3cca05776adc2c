use pelagian_shell::glob::glob_matches;
use pelagian_shell::text::{decimal_string, parse_i32, parse_i64, parse_u32, parse_u64};

#[test]
fn decimal_text_round_trips() {
    for n in [0u64, 7, 10, 4242, u64::MAX] {
        assert_eq!(decimal_string(n), n.to_string());
        assert_eq!(parse_u64(&decimal_string(n)), Some(n));
    }
}

#[test]
fn numbers_parse_like_std() {
    assert_eq!(parse_u32("1200"), Some(1200));
    assert_eq!(parse_u32("4294967296"), None);
    assert_eq!(parse_u32("+5"), Some(5));
    assert_eq!(parse_u32(""), None);
    assert_eq!(parse_u32("12a"), None);
    assert_eq!(parse_i64("-40"), Some(-40));
    assert_eq!(parse_i64("-9223372036854775808"), Some(i64::MIN));
    assert_eq!(parse_i64("-"), None);
    assert_eq!(parse_i32("2147483648"), None);
    assert_eq!(parse_i32("-2147483648"), Some(i32::MIN));
}

#[test]
fn glob_stars_match_any_text_and_literals_match_exactly() {
    assert!(glob_matches("*", "anything"));
    assert!(glob_matches("*Installer*", "Example Installer"));
    assert!(glob_matches("Example*", "Example Installer"));
    assert!(!glob_matches("Example*", "An Example"));
    assert!(glob_matches("*Installer", "Example Installer"));
    assert!(!glob_matches("*Installer", "Installer Log"));
    assert!(glob_matches("exact", "exact"));
    assert!(!glob_matches("exact", "exactly"));
    assert!(glob_matches("a*c", "abc"));
}
