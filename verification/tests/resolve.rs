use arduino2nix::generate::{resolve_in_index, strip_checksum_prefix, variable_name, ResolveError};
use arduino2nix::index_json::{IndexFile, Package, Platform};
use arduino2nix::sketch_yaml::PlatformName;

fn esp32_index() -> IndexFile {
    IndexFile {
        packages: vec![Package {
            name: "esp32".to_string(),
            platforms: vec![Platform {
                name: "esp32".to_string(),
                version: arduino2nix::version::Version::new(2, 0, 5),
                url: "https://x/pkg.tar.bz2".to_string(),
                archive_file_name: "pkg.tar.bz2".to_string(),
                checksum: "SHA-256:abc123".to_string(),
            }],
            tools: vec![],
        }],
    }
}

#[test]
fn resolves_esp32_reference() {
    let reference = PlatformName::parse("esp32:esp32 (2.0.5)").unwrap();
    let artifact = resolve_in_index(&reference, &esp32_index()).unwrap();
    assert_eq!(artifact.variable_name, "esp32-esp32-v2-0-5");
    assert_eq!(artifact.url, "https://x/pkg.tar.bz2");
    assert_eq!(artifact.checksum, "abc123");
}

#[test]
fn absent_platform_is_not_found() {
    let reference = PlatformName::parse("esp32:esp8266 (2.0.5)").unwrap();
    let result = resolve_in_index(&reference, &esp32_index());
    assert!(matches!(result, Err(ResolveError::NotFound(_))));
}

#[test]
fn absent_package_is_not_found() {
    let reference = PlatformName::parse("rp2040:esp32 (2.0.5)").unwrap();
    let result = resolve_in_index(&reference, &esp32_index());
    assert!(matches!(result, Err(ResolveError::NotFound(_))));
}

#[test]
fn not_found_names_the_reference() {
    let reference = PlatformName::parse("esp32:esp8266 (2.0.5)").unwrap();
    match resolve_in_index(&reference, &esp32_index()) {
        Err(ResolveError::NotFound(message)) => {
            assert_eq!(message, "no platform matching esp32:esp8266 (2.0.5) in the index");
        }
        _ => panic!("expected a not-found error"),
    }
}

#[test]
fn first_name_match_wins_whatever_its_version() {
    let reference = PlatformName::parse("esp32:esp32 (9.9.9)").unwrap();
    let artifact = resolve_in_index(&reference, &esp32_index()).unwrap();
    assert_eq!(artifact.url, "https://x/pkg.tar.bz2");
    assert_eq!(artifact.variable_name, "esp32-esp32-v9-9-9");
}

#[test]
fn variable_name_folds_to_kebab_case() {
    let reference = PlatformName::parse("MyVendor:CamelCase (1.2.3)").unwrap();
    assert_eq!(variable_name(&reference), "my-vendor-camel-case-v1-2-3");
}

#[test]
fn checksum_prefix_is_stripped() {
    assert_eq!(strip_checksum_prefix(&"SHA-256:abc123".to_string()), "abc123");
    assert_eq!(strip_checksum_prefix(&"MD5:abc123".to_string()), "MD5:abc123");
    assert_eq!(strip_checksum_prefix(&"abc123".to_string()), "abc123");
    assert_eq!(strip_checksum_prefix(&"".to_string()), "");
}
