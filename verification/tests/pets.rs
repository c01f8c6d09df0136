use deskmate::pets::{
    check_local_pet, check_package_bytes, check_package_contents, check_package_entries, package_files, check_regular_file, check_size_limit,
    collect_local_pets, keep_authorized_pets, scan_folders, sort_folders, confirm_local_pet, find_local_pet, load_pet_directory, valid_pet_id,
    validate_manifest, validate_spritesheet, FolderOutcome, FolderScan, LocalPetScanV1,
    PackageEntry, PackageError, PetManifestV2, ValidatedLocalPet,
};
use std::io::{Cursor, Write};
use std::path::PathBuf;

const ATLAS_WIDTH: u32 = 1536;
const V1_ATLAS_HEIGHT: u32 = 1872;
const V2_ATLAS_HEIGHT: u32 = 2288;
const CELL_WIDTH: u32 = 192;
const CELL_HEIGHT: u32 = 208;
const FRAME_COUNTS: [usize; 11] = [6, 8, 8, 4, 5, 8, 6, 6, 6, 8, 8];

fn atlas(version: u8, skip: Option<(usize, usize)>, extra: &[(usize, usize)]) -> Vec<u8> {
    let (height, rows) = match version {
        1 => (V1_ATLAS_HEIGHT, 9),
        _ => (V2_ATLAS_HEIGHT, 11),
    };
    let mut image = image::RgbaImage::new(ATLAS_WIDTH, height);
    for (row, count) in FRAME_COUNTS[..rows].iter().copied().enumerate() {
        for column in 0..count {
            if skip == Some((row, column)) {
                continue;
            }
            image.put_pixel(
                column as u32 * CELL_WIDTH + CELL_WIDTH / 2,
                row as u32 * CELL_HEIGHT + CELL_HEIGHT / 2,
                image::Rgba([255, 255, 255, 255]),
            );
        }
    }
    for &(row, column) in extra {
        image.put_pixel(
            column as u32 * CELL_WIDTH + CELL_WIDTH / 2,
            row as u32 * CELL_HEIGHT + CELL_HEIGHT / 2,
            image::Rgba([255, 255, 255, 255]),
        );
    }
    let mut bytes = Cursor::new(Vec::new());
    image::codecs::webp::WebPEncoder::new_lossless(&mut bytes)
        .encode(image.as_raw(), ATLAS_WIDTH, height, image::ExtendedColorType::Rgba8)
        .unwrap();
    bytes.into_inner()
}

fn manifest(id: &str, version: Option<u8>) -> PetManifestV2 {
    PetManifestV2 {
        id: id.into(),
        display_name: "Online Pet".into(),
        description: "Downloaded test pet".into(),
        sprite_version_number: version,
        spritesheet_path: "spritesheet.webp".into(),
    }
}

fn file(name: &str) -> PackageEntry {
    PackageEntry { enclosed_name: Some(name.into()), component_count: 1, is_dir: false, size: 4 }
}

fn files(names: &[&str]) -> Vec<PackageEntry> {
    names.iter().map(|name| file(name)).collect()
}

fn zip_bytes(files: &[(&str, &[u8])]) -> Vec<u8> {
    let mut zip = zip::ZipWriter::new(Cursor::new(Vec::new()));
    for (name, data) in files {
        zip.start_file(*name, zip::write::SimpleFileOptions::default()).unwrap();
        zip.write_all(data).unwrap();
    }
    zip.finish().unwrap().into_inner()
}

fn manifest_json(declared: Option<u8>) -> String {
    match declared {
        Some(version) => format!(
            r#"{{"id":"online-pet","displayName":"Online Pet","description":"Downloaded test pet","spriteVersionNumber":{version},"spritesheetPath":"spritesheet.webp"}}"#
        ),
        None => r#"{"id":"online-pet","displayName":"Online Pet","description":"Downloaded test pet","spritesheetPath":"spritesheet.webp"}"#.into(),
    }
}

fn pet_package(declared: Option<u8>, atlas_version: u8, extra: &[(&str, &[u8])]) -> Vec<u8> {
    let manifest = manifest_json(declared);
    let sheet = atlas(atlas_version, None, &[]);
    let mut files: Vec<(&str, &[u8])> = vec![("pet.json", manifest.as_bytes()), ("spritesheet.webp", &sheet)];
    files.extend_from_slice(extra);
    zip_bytes(&files)
}

/// Parses `pet.json` the way the application does, field by field.
fn parse_manifest(bytes: &[u8]) -> Option<PetManifestV2> {
    let value: serde_json::Value = serde_json::from_slice(bytes).ok()?;
    let text = |key: &str| value.get(key)?.as_str().map(String::from);
    let sprite_version_number = match value.get("spriteVersionNumber") {
        None => None,
        Some(v) => Some(u8::try_from(v.as_u64()?).ok()?),
    };
    Some(PetManifestV2 {
        id: text("id")?,
        display_name: text("displayName")?,
        description: text("description")?,
        sprite_version_number,
        spritesheet_path: text("spritesheetPath")?,
    })
}

fn validate_package(bytes: &[u8], maximum: u64) -> Result<(), PackageError> {
    let manifest = check_package_bytes(bytes, maximum)?;
    check_package_contents(bytes, maximum, parse_manifest(&manifest)).map(|_| ())
}

#[test]
fn accepts_v1_package_without_license() {
    assert_eq!(validate_package(&pet_package(None, 1, &[]), 25 * 1024 * 1024), Ok(()));
}

#[test]
fn accepts_v2_package_with_license() {
    let package = pet_package(Some(2), 2, &[("ASSET_LICENSE.txt", b"test license")]);
    assert_eq!(validate_package(&package, 25 * 1024 * 1024), Ok(()));
}

#[test]
fn rejects_v2_manifest_with_v1_atlas() {
    assert_eq!(
        validate_package(&pet_package(Some(2), 1, &[]), 25 * 1024 * 1024),
        Err(PackageError::InvalidSpritesheet)
    );
}

#[test]
fn rejects_unexpected_file_from_downloaded_package() {
    let package = pet_package(Some(2), 2, &[("surprise.txt", b"not allowed")]);
    assert_eq!(
        validate_package(&package, 25 * 1024 * 1024),
        Err(PackageError::UnexpectedFile("surprise.txt".into()))
    );
}

#[test]
fn rejects_path_traversal_before_extraction() {
    let package = zip_bytes(&[
        ("../pet.json", b"test"),
        ("spritesheet.webp", b"test"),
        ("ASSET_LICENSE.txt", b"test"),
    ]);
    assert_eq!(validate_package(&package, 1_000_000), Err(PackageError::UnsafePath));
}

#[test]
fn rejects_files_outside_the_allowlist() {
    let package = zip_bytes(&[
        ("pet.json", b"test"),
        ("spritesheet.webp", b"test"),
        ("ASSET_LICENSE.txt", b"test"),
        ("script.exe", b"test"),
    ]);
    assert_eq!(
        validate_package(&package, 1_000_000),
        Err(PackageError::UnexpectedFile("script.exe".into()))
    );
}

#[test]
fn package_bytes_refusals() {
    let package = pet_package(None, 2, &[]);
    assert_eq!(check_package_bytes(&package, 10), Err(PackageError::TooLarge));
    assert!(matches!(check_package_bytes(b"not a zip", 100), Err(PackageError::Io(_))));
    assert_eq!(
        check_package_bytes(&zip_bytes(&[("spritesheet.webp", b"x")]), 10_000),
        Err(PackageError::MissingFile("pet.json".into()))
    );
    let big_manifest = vec![b' '; 70_000];
    assert_eq!(
        check_package_bytes(
            &zip_bytes(&[("pet.json", &big_manifest), ("spritesheet.webp", b"x")]),
            1_000_000
        ),
        Err(PackageError::TooLarge)
    );
    assert_eq!(
        check_package_contents(&package, 25 * 1024 * 1024, None),
        Err(PackageError::InvalidManifest)
    );
    assert_eq!(
        check_package_bytes(&package, 25 * 1024 * 1024).unwrap(),
        manifest_json(None).into_bytes()
    );
}

#[test]
fn extraction_lists_the_required_files_and_an_optional_license() {
    let package = pet_package(Some(2), 2, &[("ASSET_LICENSE.txt", b"license")]);
    let files = package_files(&package).unwrap();
    let names: Vec<&str> = files.iter().map(|(name, _)| name.as_str()).collect();
    assert_eq!(names, vec!["pet.json", "spritesheet.webp", "ASSET_LICENSE.txt"]);
    assert_eq!(files[2].1, b"license".to_vec());
    let without = package_files(&pet_package(None, 1, &[])).unwrap();
    assert_eq!(without.len(), 2);
    assert_eq!(
        package_files(&zip_bytes(&[("pet.json", b"{}")])),
        Err(PackageError::MissingFile("spritesheet.webp".into()))
    );
}

#[test]
fn listing_refuses_entries_outside_the_package() {
    let mut entries = files(&["../pet.json", "spritesheet.webp", "ASSET_LICENSE.txt"]);
    entries[0].enclosed_name = None;
    assert_eq!(check_package_entries(&entries, 1_000_000), Err(PackageError::UnsafePath));
}

#[test]
fn package_listing_refusals_in_order() {
    let mut nested = files(&["pet.json", "spritesheet.webp"]);
    nested[1].component_count = 2;
    assert_eq!(check_package_entries(&nested, 100), Err(PackageError::UnsafePath));
    let mut folder = files(&["pet.json", "spritesheet.webp"]);
    folder[0].is_dir = true;
    assert_eq!(check_package_entries(&folder, 100), Err(PackageError::UnsafePath));
    assert_eq!(
        check_package_entries(&files(&["pet.json", "pet.json", "spritesheet.webp"]), 100),
        Err(PackageError::UnexpectedFile("pet.json".into()))
    );
    assert_eq!(
        check_package_entries(&files(&["pet.json", "spritesheet.webp"]), 7),
        Err(PackageError::TooLarge)
    );
    let mut huge = files(&["pet.json", "spritesheet.webp"]);
    huge[0].size = u64::MAX;
    assert_eq!(check_package_entries(&huge, u64::MAX), Err(PackageError::TooLarge));
    assert_eq!(
        check_package_entries(&files(&["spritesheet.webp"]), 100),
        Err(PackageError::MissingFile("pet.json".into()))
    );
    assert_eq!(
        check_package_entries(&files(&["pet.json", "ASSET_LICENSE.txt"]), 100),
        Err(PackageError::MissingFile("spritesheet.webp".into()))
    );
}

#[test]
fn refusal_messages_read_as_before() {
    assert_eq!(PackageError::UnsafePath.message(), "archive contains an unsafe path");
    assert_eq!(
        PackageError::UnexpectedFile("x".into()).message(),
        "archive contains unexpected file x"
    );
    assert_eq!(PackageError::MissingFile("pet.json".into()).message(), "archive is missing pet.json");
    assert_eq!(PackageError::InvalidManifest.message(), "pet.json is invalid");
    assert_eq!(
        PackageError::InvalidSpritesheet.message(),
        "spritesheet.webp is not a compatible Codex atlas"
    );
    assert_eq!(PackageError::TooLarge.message(), "archive exceeds the allowed size");
    assert_eq!(PackageError::Io("gone".into()).message(), "archive cannot be read: gone");
}

#[test]
fn size_limits_refuse_only_larger_sizes() {
    assert_eq!(check_size_limit(10, 10), Ok(()));
    assert_eq!(check_size_limit(11, 10), Err(PackageError::TooLarge));
}

#[test]
fn manifests_need_a_valid_id_texts_and_the_spritesheet_path() {
    assert!(valid_pet_id("codex-pet-2"));
    assert!(!valid_pet_id(""));
    assert!(!valid_pet_id("Codex"));
    assert!(!valid_pet_id("cat_1"));
    assert_eq!(validate_manifest(&manifest("Bad", None)), Err(PackageError::InvalidManifest));
    assert_eq!(validate_manifest(&manifest("cat", Some(3))), Err(PackageError::InvalidManifest));
    let mut blank = manifest("cat", None);
    blank.description = " \t".into();
    assert_eq!(validate_manifest(&blank), Err(PackageError::InvalidManifest));
    let mut elsewhere = manifest("cat", None);
    elsewhere.spritesheet_path = "art/sheet.webp".into();
    assert_eq!(validate_manifest(&elsewhere), Err(PackageError::InvalidManifest));
}

#[test]
fn spritesheets_need_every_used_frame_drawn() {
    assert_eq!(
        validate_spritesheet(&atlas(2, Some((10, 7)), &[]), None),
        Err(PackageError::InvalidSpritesheet)
    );
    assert_eq!(
        validate_spritesheet(&atlas(1, Some((0, 0)), &[]), Some(1)),
        Err(PackageError::InvalidSpritesheet)
    );
    assert_eq!(validate_spritesheet(b"not webp", None), Err(PackageError::InvalidSpritesheet));
}

#[test]
fn spritesheets_need_an_alpha_channel_and_an_atlas_size() {
    let image = image::RgbImage::new(ATLAS_WIDTH, V1_ATLAS_HEIGHT);
    let mut bytes = Cursor::new(Vec::new());
    image::codecs::webp::WebPEncoder::new_lossless(&mut bytes)
        .encode(image.as_raw(), ATLAS_WIDTH, V1_ATLAS_HEIGHT, image::ExtendedColorType::Rgb8)
        .unwrap();
    assert_eq!(
        validate_spritesheet(&bytes.into_inner(), None),
        Err(PackageError::InvalidSpritesheet)
    );
    let small = image::RgbaImage::new(16, 16);
    let mut bytes = Cursor::new(Vec::new());
    image::codecs::webp::WebPEncoder::new_lossless(&mut bytes)
        .encode(small.as_raw(), 16, 16, image::ExtendedColorType::Rgba8)
        .unwrap();
    assert_eq!(
        validate_spritesheet(&bytes.into_inner(), None),
        Err(PackageError::InvalidSpritesheet)
    );
}

fn valid_folder(name: &str, id: &str, version: u8) -> FolderScan {
    let pet = check_local_pet(Some(manifest(id, Some(version))), &atlas(version, None, &[])).unwrap();
    FolderScan {
        folder_name: name.into(),
        outcome: FolderOutcome::Valid {
            pet,
            spritesheet_path: PathBuf::from(format!("/pets/{name}/spritesheet.webp")),
        },
    }
}

#[test]
fn scans_valid_local_pets_and_reports_invalid_folders() {
    let broken = check_local_pet(None, b"not webp").unwrap_err();
    let scan = collect_local_pets(
        "/pets".into(),
        vec![
            FolderScan { folder_name: "broken-pet".into(), outcome: FolderOutcome::Invalid(broken) },
            valid_folder("studio-cat", "studio-cat", 2),
        ],
    );
    assert_eq!(scan.pets.len(), 1);
    assert_eq!(scan.pets[0].id, "studio-cat");
    assert_eq!(scan.pets[0].version, "local");
    assert_eq!(scan.pets[0].sprite_version_number, 2);
    assert_eq!(scan.pets[0].spritesheet_path, PathBuf::from("/pets/studio-cat/spritesheet.webp"));
    assert!(scan.errors.iter().any(|error| error.contains("broken-pet")));
}

#[test]
fn accepts_codex_v1_pet_without_sprite_version_number() {
    let pet = check_local_pet(Some(manifest("legacy-codex-pet", None)), &atlas(1, None, &[])).unwrap();
    assert_eq!(pet.sprite_version_number, 1);
    let scan = collect_local_pets(
        "/pets".into(),
        vec![FolderScan {
            folder_name: "legacy-codex-pet".into(),
            outcome: FolderOutcome::Valid {
                pet,
                spritesheet_path: PathBuf::from("/pets/legacy-codex-pet/spritesheet.webp"),
            },
        }],
    );
    assert_eq!(scan.errors, Vec::<String>::new());
    assert_eq!(scan.pets.len(), 1);
    assert_eq!(scan.pets[0].id, "legacy-codex-pet");
    assert_eq!(scan.pets[0].sprite_version_number, 1);
}

#[test]
fn accepts_codex_v2_pet_with_extra_frames_in_unused_cells() {
    let pet = check_local_pet(Some(manifest("codex-pet", Some(2))), &atlas(2, None, &[(0, 6)]));
    assert_eq!(pet.unwrap().id, "codex-pet");
}

#[test]
fn scans_take_folders_in_name_order() {
    let scan = scan_folders(
        "/pets".into(),
        vec![
            valid_folder("zebra", "zebra", 2),
            FolderScan { folder_name: "Mouse".into(), outcome: FolderOutcome::Invalid("bad".into()) },
            valid_folder("cat-b", "cat", 1),
            valid_folder("cat-a", "cat", 2),
            valid_folder("ant", "ant", 1),
        ],
    );
    let folders: Vec<&str> = scan.pets.iter().map(|p| p.folder_name.as_str()).collect();
    assert_eq!(folders, vec!["ant", "zebra"]);
    assert_eq!(
        scan.errors,
        vec!["Mouse：bad".to_string(), "cat-b：宠物 id ‘cat’ 已被文件夹 cat-a 使用".to_string()]
    );
}

#[test]
fn refused_spritesheets_leave_the_scan_with_a_message() {
    let scan = collect_local_pets(
        "/pets".into(),
        vec![valid_folder("a", "ant", 1), valid_folder("b", "bee", 2), valid_folder("c", "cat", 2)],
    );
    let scan = keep_authorized_pets(scan, vec![Ok(()), Err("denied".into()), Ok(())]);
    let ids: Vec<&str> = scan.pets.iter().map(|p| p.id.as_str()).collect();
    assert_eq!(ids, vec!["ant", "cat"]);
    assert_eq!(scan.errors, vec!["b：无法授权预览图集（denied）".to_string()]);
    assert_eq!(scan.folder_path, "/pets");
}

#[test]
fn folders_sort_by_their_names() {
    let sorted = sort_folders(vec![
        FolderScan { folder_name: "b".into(), outcome: FolderOutcome::Skipped },
        FolderScan { folder_name: "ab".into(), outcome: FolderOutcome::Skipped },
        FolderScan { folder_name: "a".into(), outcome: FolderOutcome::Skipped },
        FolderScan { folder_name: "B".into(), outcome: FolderOutcome::Skipped },
        FolderScan { folder_name: "宠物".into(), outcome: FolderOutcome::Skipped },
        FolderScan { folder_name: "".into(), outcome: FolderOutcome::Skipped },
    ]);
    let names: Vec<&str> = sorted.iter().map(|f| f.folder_name.as_str()).collect();
    assert_eq!(names, vec!["", "B", "a", "ab", "b", "宠物"]);
}

#[test]
fn scans_drop_reserved_and_shared_ids() {
    let scan = collect_local_pets(
        "/pets".into(),
        vec![
            valid_folder("a", "cat", 2),
            valid_folder("b", "yanghao", 2),
            valid_folder("c", "dog", 1),
            valid_folder("d", "cat", 2),
            FolderScan { folder_name: "e".into(), outcome: FolderOutcome::Skipped },
            FolderScan { folder_name: "f".into(), outcome: FolderOutcome::Unreadable("denied".into()) },
        ],
    );
    let ids: Vec<&str> = scan.pets.iter().map(|p| p.id.as_str()).collect();
    assert_eq!(ids, vec!["dog"]);
    assert_eq!(
        scan.errors,
        vec![
            "b：宠物 id ‘yanghao’ 为内置宠物保留".to_string(),
            "d：宠物 id ‘cat’ 已被文件夹 a 使用".to_string(),
            "f：无法读取（denied）".to_string(),
        ]
    );
    assert_eq!(scan.folder_path, "/pets");
}

#[test]
fn local_files_must_be_regular_and_small_enough() {
    assert_eq!(check_regular_file(false, true, 10, 10), Ok(()));
    assert_eq!(check_regular_file(true, true, 1, 10).unwrap_err(), "必须是普通文件，不能使用链接");
    assert_eq!(check_regular_file(false, false, 1, 10).unwrap_err(), "必须是普通文件，不能使用链接");
    assert_eq!(check_regular_file(false, true, 11, 10).unwrap_err(), "文件过大");
}

#[test]
fn loading_a_pet_folder_names_the_file_that_failed() {
    let path = PathBuf::from("/pets/cat/spritesheet.webp");
    let failed = load_pet_directory(path.clone(), Err("无法读取：gone".into()), Ok(Vec::new()));
    assert_eq!(failed.unwrap_err(), "pet.json 无法读取：gone");
    let failed = load_pet_directory(path.clone(), Ok(None), Err("文件过大".into()));
    assert_eq!(failed.unwrap_err(), "spritesheet.webp 文件过大");
    let failed = load_pet_directory(path.clone(), Ok(None), Ok(Vec::new()));
    assert_eq!(failed.unwrap_err(), "pet.json is invalid");
    let (pet, spritesheet) =
        load_pet_directory(path.clone(), Ok(Some(manifest("cat", None))), Ok(atlas(2, None, &[])))
            .unwrap();
    assert_eq!(pet.id, "cat");
    assert_eq!(pet.sprite_version_number, 2);
    assert_eq!(spritesheet, path);
}

#[test]
fn finding_a_local_pet_uses_the_scan_and_rechecks_the_folder() {
    let scan: LocalPetScanV1 = collect_local_pets(
        "/pets".into(),
        vec![valid_folder("cat-folder", "cat", 2), valid_folder("dog-folder", "dog", 2)],
    );
    assert_eq!(find_local_pet(&scan, "dog").unwrap(), "dog-folder");
    assert_eq!(find_local_pet(&scan, "owl").unwrap_err(), "找不到有效的本地宠物 owl");
    let pet = ValidatedLocalPet {
        id: "cat".into(),
        display_name: "Cat".into(),
        description: "A cat".into(),
        sprite_version_number: 2,
    };
    let path = PathBuf::from("/pets/cat-folder/spritesheet.webp");
    assert!(confirm_local_pet(Ok((pet.clone(), path.clone())), "cat").is_ok());
    assert_eq!(
        confirm_local_pet(Ok((pet, path)), "dog").unwrap_err(),
        "宠物文件在扫描后发生了变化，请重新扫描"
    );
    assert_eq!(confirm_local_pet(Err("gone".into()), "dog").unwrap_err(), "gone");
}

#[test]
fn scan_lookups_never_find_reserved_or_shared_ids() {
    let scan = collect_local_pets(
        "/pets".into(),
        vec![
            valid_folder("a", "cat", 2),
            valid_folder("b", "yanghao", 2),
            valid_folder("c", "cat", 2),
            valid_folder("d", "dog", 2),
        ],
    );
    assert!(find_local_pet(&scan, "yanghao").is_err());
    assert!(find_local_pet(&scan, "cat").is_err());
    assert_eq!(find_local_pet(&scan, "dog").unwrap(), "d");
}
