use arduino2nix::generate::{body, generate_profiles, GenerateError, ResolvedArtifact};
use arduino2nix::index_json::{IndexFile, Package, Platform as IndexPlatform};
use arduino2nix::sketch_yaml::{PlatformName, Platform, Profile, Project};
use arduino2nix::version::Version;

fn esp32_index() -> IndexFile {
    IndexFile {
        packages: vec![Package {
            name: "esp32".to_string(),
            platforms: vec![IndexPlatform {
                name: "esp32".to_string(),
                version: Version::new(2, 0, 5),
                url: "https://x/pkg.tar.bz2".to_string(),
                archive_file_name: "pkg.tar.bz2".to_string(),
                checksum: "SHA-256:abc123".to_string(),
            }],
            tools: vec![],
        }],
    }
}

fn esp32_dependency() -> Platform {
    Platform {
        platform: PlatformName::parse("esp32:esp32 (2.0.5)").unwrap(),
        platform_index_url: "https://example.com/index.json".to_string(),
        extra: vec![],
    }
}

fn two_profiles_same_platform() -> Project {
    Project {
        profiles: vec![
            (
                "release".to_string(),
                Profile {
                    fqbn: "esp32:esp32:esp32".to_string(),
                    platforms: vec![esp32_dependency()],
                    libraries: vec![],
                    extra: vec![],
                },
            ),
            (
                "debug".to_string(),
                Profile {
                    fqbn: "esp32:esp32:esp32".to_string(),
                    platforms: vec![esp32_dependency()],
                    libraries: vec![],
                    extra: vec![],
                },
            ),
        ],
    }
}

#[test]
fn identical_references_yield_one_declaration() {
    let indexes = vec![esp32_index()];
    let (rewritten, decls) = generate_profiles(two_profiles_same_platform(), &indexes).unwrap();
    assert_eq!(decls.len(), 1);
    assert_eq!(decls[0].variable_name, "esp32-esp32-v2-0-5");
    assert_eq!(decls[0].url, "https://x/pkg.tar.bz2");
    assert_eq!(decls[0].checksum, "abc123");
    assert_eq!(rewritten.profiles.len(), 2);
    for (_, profile) in &rewritten.profiles {
        assert_eq!(
            profile.platforms[0].platform_index_url,
            "file://${esp32-esp32-v2-0-5}"
        );
    }
}

#[test]
fn empty_manifest_generates_no_declarations() {
    let project = Project { profiles: vec![] };
    let indexes: Vec<IndexFile> = vec![];
    let (rewritten, decls) = generate_profiles(project, &indexes).unwrap();
    assert_eq!(decls.len(), 0);
    assert_eq!(rewritten.profiles.len(), 0);
}

#[test]
fn missing_index_document_aborts_generation() {
    let indexes: Vec<IndexFile> = vec![];
    let result = generate_profiles(two_profiles_same_platform(), &indexes);
    assert!(matches!(result, Err(GenerateError::MissingIndex)));
}

#[test]
fn unresolved_reference_aborts_generation() {
    let empty_index = IndexFile { packages: vec![] };
    let indexes = vec![empty_index];
    let result = generate_profiles(two_profiles_same_platform(), &indexes);
    assert!(matches!(result, Err(GenerateError::Resolve(_))));
}

#[test]
fn unrecognized_fields_survive_generation() {
    let mut project = two_profiles_same_platform();
    project.profiles[0].1.extra.push((
        "port".to_string(),
        serde_yaml_ng::Value::String("/dev/ttyUSB0".to_string()),
    ));
    project.profiles[0].1.platforms[0].extra.push((
        "note".to_string(),
        serde_yaml_ng::Value::Number(serde_yaml_ng::Number::from(7)),
    ));
    project.profiles[0].1.libraries.push("Servo".to_string());
    let indexes = vec![esp32_index()];
    let (rewritten, _) = generate_profiles(project, &indexes).unwrap();
    let profile = &rewritten.profiles[0].1;
    assert_eq!(profile.extra.len(), 1);
    assert_eq!(profile.extra[0].0, "port");
    assert_eq!(
        profile.extra[0].1,
        serde_yaml_ng::Value::String("/dev/ttyUSB0".to_string())
    );
    assert_eq!(profile.platforms[0].extra.len(), 1);
    assert_eq!(profile.platforms[0].extra[0].0, "note");
    assert_eq!(profile.libraries, vec!["Servo".to_string()]);
    assert_eq!(profile.fqbn, "esp32:esp32:esp32");
}

#[test]
fn regeneration_is_byte_identical() {
    let first = {
        let indexes = vec![esp32_index()];
        let (_, decls) = generate_profiles(two_profiles_same_platform(), &indexes).unwrap();
        body(&decls, "profiles: {}")
    };
    let second = {
        let indexes = vec![esp32_index()];
        let (_, decls) = generate_profiles(two_profiles_same_platform(), &indexes).unwrap();
        body(&decls, "profiles: {}")
    };
    assert_eq!(first, second);
}

#[test]
fn body_text_is_exact() {
    let decls = vec![ResolvedArtifact {
        variable_name: "esp32-esp32-v2-0-5".to_string(),
        url: "https://x/pkg.tar.bz2".to_string(),
        checksum: "abc123".to_string(),
    }];
    let text = body(&decls, "profiles: {}");
    let expected = "# Auto-generated with arduino2nix. Do not modify.\n# Edit your sketch.yaml and then run `arduino2nix generate` to update this file.\n{ pkgs ? <nixpkgs> {}, pname, version }:\nlet\nesp32-esp32-v2-0-5 = (pkgs.fetchurl { url = \"https://x/pkg.tar.bz2\"; sha256 = \"abc123\"; });\nsketch_yaml = pkgs.writeText \"sketch.json\" ''\nprofiles: {}\n'';\nin\npkgs.stdenv.mkDerivation {\ninherit pname version;\nsrc = ./.;\nbuildInputs = [ pkgs.arduino-cli ];\npostUnpack = ''\nrm -f $sourceRoot/sketch.yaml\nln -s ${sketch_yaml} $sourceRoot/sketch.yaml\ncat $sourceRoot/sketch.yaml\n'';\nbuildPhase = ''\narduino-cli compile --profile ${pname} --output-dir output\n'';\ninstallPhase = ''\ncp output/${pname}.ino.elf $out/payload.elf\n'';\n}\n";
    assert_eq!(text, expected);
}

#[test]
fn distinct_references_are_each_fetched_in_first_seen_order() {
    let other_index = IndexFile {
        packages: vec![Package {
            name: "rp2040".to_string(),
            platforms: vec![IndexPlatform {
                name: "rp2040".to_string(),
                version: Version::new(3, 1, 0),
                url: "https://y/rp.tar.gz".to_string(),
                archive_file_name: "rp.tar.gz".to_string(),
                checksum: "SHA-256:def456".to_string(),
            }],
            tools: vec![],
        }],
    };
    let project = Project {
        profiles: vec![(
            "all".to_string(),
            Profile {
                fqbn: "x:y:z".to_string(),
                platforms: vec![
                    esp32_dependency(),
                    Platform {
                        platform: PlatformName::parse("rp2040:rp2040 (3.1.0)").unwrap(),
                        platform_index_url: "https://example.com/other.json".to_string(),
                        extra: vec![],
                    },
                ],
                libraries: vec![],
                extra: vec![],
            },
        )],
    };
    let indexes = vec![esp32_index(), other_index];
    let (_, decls) = generate_profiles(project, &indexes).unwrap();
    assert_eq!(decls.len(), 2);
    assert_eq!(decls[0].variable_name, "esp32-esp32-v2-0-5");
    assert_eq!(decls[1].variable_name, "rp2040-rp2040-v3-1-0");
    assert_eq!(decls[1].checksum, "def456");
}
