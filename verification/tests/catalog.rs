use deskmate::catalog::{
    checksum_matches, confirm_package_id, find_catalog_entry, sha256_hex, validate_catalog,
    PetCatalogEntryV1, PetCatalogV1, SemVer,
};

fn entry(id: &str, version: &str, min_app: &str) -> PetCatalogEntryV1 {
    PetCatalogEntryV1 {
        id: id.into(),
        version: version.into(),
        display_name: "Pet".into(),
        description: "A pet".into(),
        author: "DeskMate contributors".into(),
        asset_license: "All rights reserved".into(),
        sprite_version_number: 2,
        min_app_version: min_app.into(),
        preview_url: "https://example.com/preview.png".into(),
        package_url: format!(
            "https://github.com/taoquanooo/DeskMate/releases/download/pets-v1/{id}-{version}.zip"
        ),
        sha256: "a".repeat(64),
        size_bytes: 1024,
    }
}

fn catalog(pets: Vec<PetCatalogEntryV1>) -> PetCatalogV1 {
    PetCatalogV1 { schema_version: 1, generated_at: "2026-07-22T08:00:00Z".into(), pets }
}

fn app() -> SemVer {
    SemVer::parse("0.1.1").unwrap()
}

#[test]
fn accepts_a_well_formed_catalog() {
    let c = catalog(vec![entry("cat", "1.0.0", "0.1.0"), entry("cat", "1.1.0", "0.1.0")]);
    assert_eq!(validate_catalog(&c, &app()), Ok(()));
}

#[test]
fn refuses_catalog_header_problems() {
    let mut c = catalog(vec![]);
    c.schema_version = 2;
    assert_eq!(validate_catalog(&c, &app()).unwrap_err(), "catalog schemaVersion must be 1");
    let mut c = catalog(vec![]);
    c.generated_at = "yesterday".into();
    assert_eq!(validate_catalog(&c, &app()).unwrap_err(), "generatedAt must be RFC 3339");
}

#[test]
fn refuses_entry_problems_with_their_messages() {
    let mut bad_sprite = entry("cat", "1.0.0", "0.1.0");
    bad_sprite.sprite_version_number = 3;
    assert_eq!(
        validate_catalog(&catalog(vec![bad_sprite]), &app()).unwrap_err(),
        "cat must use sprite v1 or v2"
    );
    assert_eq!(
        validate_catalog(
            &catalog(vec![entry("cat", "1.0.0", "0.1.0"), entry("cat", "1.0.0", "0.1.0")]),
            &app()
        )
        .unwrap_err(),
        "duplicate catalog entry"
    );
    assert_eq!(
        validate_catalog(&catalog(vec![entry("cat", "one", "0.1.0")]), &app()).unwrap_err(),
        "invalid pet version"
    );
    assert_eq!(
        validate_catalog(&catalog(vec![entry("cat", "1.0.0", "latest")]), &app()).unwrap_err(),
        "invalid minAppVersion"
    );
    let mut http = entry("cat", "1.0.0", "0.1.0");
    http.preview_url = "http://example.com/p.png".into();
    assert_eq!(
        validate_catalog(&catalog(vec![http]), &app()).unwrap_err(),
        "catalog URLs must use HTTPS"
    );
    let mut junk = entry("cat", "1.0.0", "0.1.0");
    junk.package_url = "::".into();
    assert_eq!(validate_catalog(&catalog(vec![junk]), &app()).unwrap_err(), "invalid catalog URL");
    let mut short = entry("cat", "1.0.0", "0.1.0");
    short.sha256 = "ab".into();
    assert_eq!(validate_catalog(&catalog(vec![short]), &app()).unwrap_err(), "invalid SHA-256");
    let mut not_hex = entry("cat", "1.0.0", "0.1.0");
    not_hex.sha256 = "g".repeat(64);
    assert_eq!(validate_catalog(&catalog(vec![not_hex]), &app()).unwrap_err(), "invalid SHA-256");
    let mut empty = entry("cat", "1.0.0", "0.1.0");
    empty.size_bytes = 0;
    assert_eq!(validate_catalog(&catalog(vec![empty]), &app()).unwrap_err(), "invalid package size");
    let mut huge = entry("cat", "1.0.0", "0.1.0");
    huge.size_bytes = 25 * 1024 * 1024 + 1;
    assert_eq!(validate_catalog(&catalog(vec![huge]), &app()).unwrap_err(), "invalid package size");
}

#[test]
fn entries_for_newer_apps_skip_the_install_checks() {
    let mut future = entry("cat", "2.0.0", "9.0.0");
    future.sha256 = "nope".into();
    future.preview_url = "http://example.com".into();
    assert_eq!(validate_catalog(&catalog(vec![future]), &app()), Ok(()));
}

#[test]
fn sha256_is_lowercase_hex() {
    assert_eq!(
        sha256_hex(b"abc"),
        "ba7816bf8f01cfea414140de5dae2223b00361a396177a9cb410ff61f20015ad"
    );
    assert_eq!(
        sha256_hex(b""),
        "e3b0c44298fc1c149afbf4c8996fb92427ae41e4649b934ca495991b7852b855"
    );
}

#[test]
fn checksums_compare_against_the_lowercased_catalog_value() {
    let actual = sha256_hex(b"abc");
    assert!(checksum_matches(&actual, &actual.to_uppercase()));
    assert!(checksum_matches(&actual, &actual));
    assert!(!checksum_matches(&actual, &sha256_hex(b"abd")));
    assert!(!checksum_matches(&actual, "ba78"));
}

#[test]
fn semantic_versions_keep_their_text() {
    assert!(SemVer::parse("1.2").is_none());
    assert_eq!(SemVer::parse("1.2.3-beta.1").unwrap().as_text(), "1.2.3-beta.1");
}

#[test]
fn installs_look_up_the_official_catalog() {
    let c = catalog(vec![entry("cat", "1.0.0", "0.1.0"), entry("dog", "1.0.0", "0.1.0")]);
    assert_eq!(find_catalog_entry(&c, "dog", "1.0.0").unwrap().id, "dog");
    assert_eq!(
        find_catalog_entry(&c, "dog", "2.0.0").unwrap_err(),
        "dog@2.0.0 is not in the official catalog"
    );
    let dog = entry("dog", "1.0.0", "0.1.0");
    assert!(confirm_package_id("dog", &dog).is_ok());
    assert_eq!(
        confirm_package_id("cat", &dog).unwrap_err(),
        "pet manifest id does not match the catalog"
    );
}
