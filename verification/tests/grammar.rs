use arduino2nix::sketch_yaml::{ParseError, PlatformName};
use arduino2nix::version::Version;

#[test]
fn parse_platform_name_and_version() {
    let parsed = PlatformName::parse("my_package:my_platform(1.2.3)").unwrap();
    assert_eq!(parsed.package, "my_package");
    assert_eq!(parsed.platform, "my_platform");
    assert_eq!(parsed.version, Version::new(1, 2, 3));
}

#[test]
fn parse_accepts_whitespace_around_version() {
    let parsed = PlatformName::parse("esp32:esp32 \t( 2.0.5 )").unwrap();
    assert_eq!(parsed.package, "esp32");
    assert_eq!(parsed.platform, "esp32");
    assert_eq!(parsed.version, Version::new(2, 0, 5));
}

#[test]
fn format_emits_canonical_single_space_form() {
    let parsed = PlatformName::parse("esp32:esp32(2.0.5)").unwrap();
    assert_eq!(parsed.format(), "esp32:esp32 (2.0.5)");
}

#[test]
fn parse_format_round_trip() {
    let first = PlatformName::parse("My-Vendor:some_platform (10.20.30)").unwrap();
    let text = first.format();
    assert_eq!(text, "My-Vendor:some_platform (10.20.30)");
    let second = PlatformName::parse(&text).unwrap();
    assert!(second == first);
    assert_eq!(second.format(), text);
}

#[test]
fn parse_rejects_non_numeric_version() {
    assert!(matches!(
        PlatformName::parse("esp32:esp32 (2.0.x)"),
        Err(ParseError::Malformed)
    ));
    assert!(matches!(
        PlatformName::parse("esp32:esp32 (2..5)"),
        Err(ParseError::Malformed)
    ));
    assert!(matches!(
        PlatformName::parse("esp32:esp32 (2.0)"),
        Err(ParseError::Malformed)
    ));
}

#[test]
fn parse_rejects_missing_parentheses() {
    assert!(matches!(
        PlatformName::parse("esp32:esp32 2.0.5"),
        Err(ParseError::Malformed)
    ));
    assert!(matches!(
        PlatformName::parse("esp32:esp32 (2.0.5"),
        Err(ParseError::Malformed)
    ));
    assert!(matches!(
        PlatformName::parse("esp32:esp32 2.0.5)"),
        Err(ParseError::Malformed)
    ));
}

#[test]
fn parse_rejects_empty_names() {
    assert!(matches!(
        PlatformName::parse(":esp32 (2.0.5)"),
        Err(ParseError::Malformed)
    ));
    assert!(matches!(
        PlatformName::parse("esp32: (2.0.5)"),
        Err(ParseError::Malformed)
    ));
    assert!(matches!(
        PlatformName::parse(" (2.0.5)"),
        Err(ParseError::Malformed)
    ));
}

#[test]
fn parse_rejects_trailing_text() {
    assert!(matches!(
        PlatformName::parse("esp32:esp32 (2.0.5) extra"),
        Err(ParseError::Malformed)
    ));
}

#[test]
fn version_formats_in_decimal() {
    assert_eq!(Version::new(10, 0, 3).format(), "10.0.3");
    assert_eq!(Version::new(0, 0, 0).format(), "0.0.0");
    assert_eq!(
        Version::new(18446744073709551615, 1, 2).format(),
        "18446744073709551615.1.2"
    );
}

#[test]
fn parse_rejects_version_component_overflow() {
    assert!(matches!(
        PlatformName::parse("a:b (18446744073709551616.0.0)"),
        Err(ParseError::Malformed)
    ));
    let parsed = PlatformName::parse("a:b (18446744073709551615.0.0)").unwrap();
    assert_eq!(parsed.version, Version::new(18446744073709551615, 0, 0));
}
