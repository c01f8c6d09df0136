use deskmate::releases::{
    check_asset_api_url, check_package_url, chunk_fits, github_release_download_parts,
    length_within, package_length_acceptable, repository_slug, Download, MAX_PET_PACKAGE_BYTES,
};
use deskmate::urls::UrlParts;

#[test]
fn parses_github_release_download_urls() {
    let url = UrlParts::parse(
        "https://github.com/taoquanooo/DeskMate/releases/download/pets-v1/lansha-1.0.0.zip",
    )
    .unwrap();
    let (repository, tag, asset) = github_release_download_parts(&url).unwrap();
    assert_eq!(repository, "taoquanooo/DeskMate");
    assert_eq!(tag, "pets-v1");
    assert_eq!(asset, "lansha-1.0.0.zip");
}

#[test]
fn rejects_non_release_download_urls() {
    let url = UrlParts::parse("https://example.com/releases/download/pets-v1/x.zip").unwrap();
    assert!(github_release_download_parts(&url).is_none());
    let url = UrlParts::parse("https://github.com/taoquanooo/DeskMate").unwrap();
    assert!(github_release_download_parts(&url).is_none());
}

#[test]
fn derives_repository_slug_from_project_url() {
    assert_eq!(repository_slug(), "taoquanooo/DeskMate");
}

#[test]
fn release_parts_take_the_last_segment_as_the_asset() {
    let url = UrlParts::parse(
        "https://github.com/owner/repo/releases/download/v2/nested/pet.zip",
    )
    .unwrap();
    let (repository, tag, asset) = github_release_download_parts(&url).unwrap();
    assert_eq!(repository, "owner/repo");
    assert_eq!(tag, "v2");
    assert_eq!(asset, "pet.zip");
}

#[test]
fn release_parts_refuse_plain_http_and_empty_asset_names() {
    let url = UrlParts::parse("http://github.com/o/r/releases/download/t/a.zip").unwrap();
    assert!(github_release_download_parts(&url).is_none());
    let url = UrlParts::parse("https://github.com/o/r/releases/download/t/").unwrap();
    assert!(github_release_download_parts(&url).is_none());
}

#[test]
fn package_urls_must_be_github_release_assets() {
    assert!(check_package_url(
        "https://github.com/taoquanooo/DeskMate/releases/download/pets-v1/cat-1.0.0.zip"
    )
    .is_ok());
    assert_eq!(
        check_package_url("https://example.com/releases/download/pets-v1/x.zip").unwrap_err(),
        "pet packages must be immutable GitHub Release HTTPS assets"
    );
    assert_eq!(
        check_package_url("https://github.com/taoquanooo/DeskMate/archive/main.zip").unwrap_err(),
        "pet packages must be immutable GitHub Release HTTPS assets"
    );
    assert!(check_package_url("not a url").is_err());
}

#[test]
fn asset_api_urls_must_be_on_the_github_api_host() {
    assert!(check_asset_api_url("https://api.github.com/repos/o/r/releases/assets/1").is_ok());
    assert_eq!(
        check_asset_api_url("https://github.com/o/r/releases/assets/1").unwrap_err(),
        "release asset API URL must be api.github.com HTTPS"
    );
    assert_eq!(
        check_asset_api_url("http://api.github.com/repos/o/r/releases/assets/1").unwrap_err(),
        "release asset API URL must be api.github.com HTTPS"
    );
}

#[test]
fn announced_lengths_are_checked_against_the_catalog_and_the_limit() {
    assert!(package_length_acceptable(None, 10));
    assert!(package_length_acceptable(Some(10), 10));
    assert!(!package_length_acceptable(Some(11), 10));
    assert!(!package_length_acceptable(
        Some(MAX_PET_PACKAGE_BYTES + 1),
        MAX_PET_PACKAGE_BYTES + 1
    ));
    assert!(length_within(None, 5));
    assert!(length_within(Some(5), 5));
    assert!(!length_within(Some(6), 5));
    assert!(chunk_fits(3, 2, 5));
    assert!(!chunk_fits(4, 2, 5));
    assert!(!chunk_fits(0, u64::MAX, 5));
}

#[test]
fn limited_download_gathers_chunks_up_to_the_limit() {
    assert_eq!(
        Download::begin_limited(Some(11), 10, "catalog").err().unwrap(),
        "catalog is too large"
    );
    let mut download = Download::begin_limited(None, 10, "catalog").unwrap();
    assert_eq!(download.accept(&[1, 2, 3]).unwrap(), 3);
    assert_eq!(download.accept(&[4, 5, 6, 7]).unwrap(), 7);
    assert_eq!(download.accept(&[0; 4]).unwrap_err(), "catalog is too large");
    assert_eq!(download.accept(&[8, 9, 10]).unwrap(), 10);
    assert_eq!(download.finish(), vec![1, 2, 3, 4, 5, 6, 7, 8, 9, 10]);
}

#[test]
fn package_download_must_match_the_catalog_size() {
    assert_eq!(
        Download::begin_package(Some(5), 4).err().unwrap(),
        "pet download size does not match the catalog"
    );
    let mut download = Download::begin_package(Some(4), 4).unwrap();
    download.accept(&[1, 2, 3]).unwrap();
    assert_eq!(
        download.finish_package(4).unwrap_err(),
        "pet download size does not match the catalog"
    );
    let mut download = Download::begin_package(None, 3).unwrap();
    download.accept(&[1, 2, 3]).unwrap();
    assert_eq!(download.finish_package(3).unwrap(), vec![1, 2, 3]);
}

#[test]
fn package_download_refuses_chunks_beyond_the_package_limit() {
    let mut download = Download::begin_package(None, 1).unwrap();
    let big = vec![0u8; MAX_PET_PACKAGE_BYTES as usize];
    assert_eq!(download.accept(&big).unwrap(), MAX_PET_PACKAGE_BYTES);
    assert_eq!(download.accept(&[1]).unwrap_err(), "pet package is too large");
}
