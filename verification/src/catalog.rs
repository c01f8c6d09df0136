//! The online pet catalog: its entries and the rules a downloaded catalog
//! must meet, and the checksum of a downloaded package.

use vstd::prelude::*;
use crate::text::{contains_text, lemma_push_to_set, same_text};
use crate::urls::{url_parsing, UrlParts};
use sha2::Digest;

verus! {

#[verifier::external_type_specification]
#[verifier::external_body]
pub struct ExVersion(semver::Version);

/// Whether `semver::Version::parse` accepts a text.
pub uninterp spec fn semver_parses(text: Seq<char>) -> bool;

/// Whether the version that text `a` parses to is ordered after the one
/// that text `b` parses to (`semver::Version`'s `>`).
pub uninterp spec fn semver_newer(a: Seq<char>, b: Seq<char>) -> bool;

/// `semver::Version::parse(text).ok()`.
#[verifier::external_body]
fn parse_semver(text: &str) -> (r: Option<semver::Version>)
    ensures
        r is Some <==> semver_parses(text@),
{
    semver::Version::parse(text).ok()
}

/// A semantic version together with the text it was parsed from.
pub struct SemVer {
    text: String,
    version: semver::Version,
}

impl SemVer {
    pub closed spec fn text(&self) -> Seq<char> {
        self.text@
    }

    /// Parses a semantic version.
    pub fn parse(text: &str) -> (r: Option<SemVer>)
        ensures
            r is Some <==> semver_parses(text@),
            r matches Some(v) ==> v.text() == text@,
    {
        match parse_semver(text) {
            Some(version) => Some(SemVer { text: String::from_str(text), version }),
            None => None,
        }
    }

    /// The text this version was parsed from.
    pub fn as_text(&self) -> (r: &String)
        ensures
            r@ == self.text(),
    {
        &self.text
    }
}

/// `semver::Version`'s `>` on two parsed versions; a `SemVer` is only made
/// by `SemVer::parse`, so each holds the version its text parses to, and the
/// answer is `semver_newer` of the two texts.
#[verifier::external_body]
pub(crate) fn newer(a: &SemVer, b: &SemVer) -> (r: bool)
    ensures
        r == semver_newer(a.text(), b.text()),
{
    a.version > b.version
}

pub open spec fn is_hex_digit(c: char) -> bool {
    ('0' <= c && c <= '9') || ('a' <= c && c <= 'f') || ('A' <= c && c <= 'F')
}

/// Whether `hex::decode` accepts a text: an even number of hexadecimal
/// digits of either case. (Its bytes are then ASCII, so characters and bytes
/// agree.)
pub open spec fn hex_decodes(s: Seq<char>) -> bool {
    s.len() % 2 == 0 && forall|i: int| 0 <= i < s.len() ==> is_hex_digit(#[trigger] s[i])
}

/// `hex::decode(text).is_ok()`: true exactly for an even number of
/// hexadecimal digits of either case.
#[verifier::external_body]
fn hex_decode_ok(text: &str) -> (r: bool)
    ensures
        r == hex_decodes(text@),
{
    hex::decode(text).is_ok()
}

/// The lowercase hexadecimal digit of a nibble.
pub open spec fn hex_char(n: int) -> char {
    if n < 10 {
        (n + 48) as char
    } else {
        (n + 87) as char
    }
}

/// `hex::encode`: two lowercase hexadecimal digits per byte, high nibble
/// first.
pub open spec fn hex_lower(bytes: Seq<u8>) -> Seq<char>
    decreases bytes.len(),
{
    if bytes.len() == 0 {
        seq![]
    } else {
        hex_lower(bytes.drop_last()) + seq![hex_char(bytes.last() as int / 16), hex_char(bytes.last() as int % 16)]
    }
}

/// `hex::encode(bytes)`.
#[verifier::external_body]
fn hex_encode(bytes: &[u8]) -> (r: String)
    ensures
        r@ == hex_lower(bytes@),
{
    hex::encode(bytes)
}

/// The SHA-256 digest of a byte string.
pub uninterp spec fn sha256_of(bytes: Seq<u8>) -> Seq<u8>;

/// `sha2::Sha256::digest(bytes)`, as a byte vector; named by `sha256_of`.
#[verifier::external_body]
fn sha256_digest(bytes: &[u8]) -> (r: Vec<u8>)
    ensures
        r@ == sha256_of(bytes@),
{
    sha2::Sha256::digest(bytes).to_vec()
}

/// The lowercase hexadecimal SHA-256 of a package's bytes.
pub fn sha256_hex(bytes: &[u8]) -> (r: String)
    ensures
        r@ == hex_lower(sha256_of(bytes@)),
{
    let digest = sha256_digest(bytes);
    hex_encode(digest.as_slice())
}

pub open spec fn ascii_lower(c: char) -> char {
    if 'A' <= c && c <= 'Z' {
        (c as int + 32) as char
    } else {
        c
    }
}

/// `str::to_ascii_lowercase`.
pub open spec fn to_ascii_lowercase(s: Seq<char>) -> Seq<char> {
    s.map_values(|c: char| ascii_lower(c))
}

/// Whether a package's digest matches the catalog's, which may be written
/// in either case.
pub fn checksum_matches(actual: &str, expected: &str) -> (r: bool)
    ensures
        r == (actual@ == to_ascii_lowercase(expected@)),
{
    let n = expected.unicode_len();
    if actual.unicode_len() != n {
        assert(to_ascii_lowercase(expected@).len() == n);
        return false;
    }
    let mut i: usize = 0;
    while i < n
        invariant
            n == expected@.len(),
            n == actual@.len(),
            i <= n,
            forall|j: int| 0 <= j < i ==> actual@[j] == ascii_lower(#[trigger] expected@[j]),
        decreases n - i,
    {
        let c = expected.get_char(i);
        let lower = if 'A' <= c && c <= 'Z' {
            ((c as u32) + 32) as u8 as char
        } else {
            c
        };
        if actual.get_char(i) != lower {
            assert(to_ascii_lowercase(expected@)[i as int] != actual@[i as int]);
            return false;
        }
        i = i + 1;
    }
    assert(actual@ =~= to_ascii_lowercase(expected@));
    true
}

/// One downloadable pet in the online catalog.
#[derive(Debug)]
pub struct PetCatalogEntryV1 {
    pub id: String,
    pub version: String,
    pub display_name: String,
    pub description: String,
    pub author: String,
    pub asset_license: String,
    pub sprite_version_number: u8,
    pub min_app_version: String,
    pub preview_url: String,
    pub package_url: String,
    pub sha256: String,
    pub size_bytes: u64,
}

impl Clone for PetCatalogEntryV1 {
    fn clone(&self) -> (r: Self)
        ensures
            r == *self,
    {
        PetCatalogEntryV1 {
            id: self.id.clone(),
            version: self.version.clone(),
            display_name: self.display_name.clone(),
            description: self.description.clone(),
            author: self.author.clone(),
            asset_license: self.asset_license.clone(),
            sprite_version_number: self.sprite_version_number,
            min_app_version: self.min_app_version.clone(),
            preview_url: self.preview_url.clone(),
            package_url: self.package_url.clone(),
            sha256: self.sha256.clone(),
            size_bytes: self.size_bytes,
        }
    }
}

/// The online pet catalog.
#[derive(Debug)]
pub struct PetCatalogV1 {
    pub schema_version: u8,
    pub generated_at: String,
    pub pets: Vec<PetCatalogEntryV1>,
}

/// The largest package a catalog may list: 25 MiB.
pub open spec fn max_package_bytes() -> int {
    26_214_400
}

/// The key that makes an entry unique: `id@version`.
pub open spec fn entry_key(e: PetCatalogEntryV1) -> Seq<char> {
    e.id@ + "@"@ + e.version@
}

/// The rule for a catalog URL: it parses and uses HTTPS.
pub open spec fn url_verdict(raw: Seq<char>) -> Option<Seq<char>> {
    match url_parsing(raw) {
        Err(_) => Some("invalid catalog URL"@),
        Ok(parts) => if parts.0 != "https"@ {
            Some("catalog URLs must use HTTPS"@)
        } else {
            None
        },
    }
}

/// The checks on an entry that an app of this version can install: its
/// URLs, its SHA-256 (64 hexadecimal digits), and its size (1 byte to 25
/// MiB). `None` means the entry passes.
pub open spec fn installable_entry_verdict(e: PetCatalogEntryV1) -> Option<Seq<char>> {
    if url_verdict(e.preview_url@) is Some {
        url_verdict(e.preview_url@)
    } else if url_verdict(e.package_url@) is Some {
        url_verdict(e.package_url@)
    } else if !(e.sha256@.len() == 64 && hex_decodes(e.sha256@)) {
        Some("invalid SHA-256"@)
    } else if e.size_bytes == 0 || e.size_bytes > max_package_bytes() {
        Some("invalid package size"@)
    } else {
        None
    }
}

/// Walks the entries in order: each must use sprite v1 or v2, have an
/// `id@version` not seen before, and a parsable version and minimum app
/// version; entries that need a newer app skip the remaining checks. The
/// answer is the keys seen, or the first refusal.
pub open spec fn catalog_walk(entries: Seq<PetCatalogEntryV1>, app: Seq<char>) -> Result<
    Set<Seq<char>>,
    Seq<char>,
>
    decreases entries.len(),
{
    if entries.len() == 0 {
        Ok(Set::empty())
    } else {
        match catalog_walk(entries.drop_last(), app) {
            Err(m) => Err(m),
            Ok(keys) => {
                let e = entries.last();
                if e.sprite_version_number != 1 && e.sprite_version_number != 2 {
                    Err(e.id@ + " must use sprite v1 or v2"@)
                } else if keys.contains(entry_key(e)) {
                    Err("duplicate catalog entry"@)
                } else if !semver_parses(e.version@) {
                    Err("invalid pet version"@)
                } else if !semver_parses(e.min_app_version@) {
                    Err("invalid minAppVersion"@)
                } else if semver_newer(e.min_app_version@, app) {
                    Ok(keys.insert(entry_key(e)))
                } else {
                    match installable_entry_verdict(e) {
                        Some(m) => Err(m),
                        None => Ok(keys.insert(entry_key(e))),
                    }
                }
            },
        }
    }
}

/// The catalog rule: schema version 1, an RFC 3339 generation time, and
/// every entry passing the entry checks.
pub open spec fn catalog_verdict(c: PetCatalogV1, app: Seq<char>) -> Result<(), Seq<char>> {
    if c.schema_version != 1 {
        Err("catalog schemaVersion must be 1"@)
    } else if !crate::calendar::rfc3339_accepts(c.generated_at@) {
        Err("generatedAt must be RFC 3339"@)
    } else {
        match catalog_walk(c.pets@, app) {
            Err(m) => Err(m),
            Ok(_) => Ok(()),
        }
    }
}

fn check_catalog_url(raw: &str) -> (r: Option<String>)
    ensures
        match url_verdict(raw@) {
            None => r is None,
            Some(m) => r matches Some(x) && x@ == m,
        },
{
    match UrlParts::parse(raw) {
        Err(_) => Some(String::from_str("invalid catalog URL")),
        Ok(url) => if !url.is_https() {
            Some(String::from_str("catalog URLs must use HTTPS"))
        } else {
            None
        },
    }
}

fn check_installable_entry(e: &PetCatalogEntryV1) -> (r: Option<String>)
    ensures
        match installable_entry_verdict(*e) {
            None => r is None,
            Some(m) => r matches Some(x) && x@ == m,
        },
{
    if let Some(m) = check_catalog_url(e.preview_url.as_str()) {
        return Some(m);
    }
    if let Some(m) = check_catalog_url(e.package_url.as_str()) {
        return Some(m);
    }
    if e.sha256.as_str().unicode_len() != 64 || !hex_decode_ok(e.sha256.as_str()) {
        return Some(String::from_str("invalid SHA-256"));
    }
    if e.size_bytes == 0 || e.size_bytes > 26_214_400 {
        return Some(String::from_str("invalid package size"));
    }
    None
}

fn entry_key_exec(e: &PetCatalogEntryV1) -> (r: String)
    ensures
        r@ == entry_key(*e),
{
    let mut key = e.id.clone();
    key.append("@");
    key.append(e.version.as_str());
    key
}

proof fn lemma_catalog_error_sticks(entries: Seq<PetCatalogEntryV1>, app: Seq<char>, k: int)
    requires
        0 <= k <= entries.len(),
        catalog_walk(entries.take(k), app) is Err,
    ensures
        catalog_walk(entries, app) == catalog_walk(entries.take(k), app),
    decreases entries.len() - k,
{
    if k < entries.len() {
        assert(entries.take(k + 1).drop_last() =~= entries.take(k));
        lemma_catalog_error_sticks(entries, app, k + 1);
    } else {
        assert(entries.take(k) =~= entries);
    }
}

/// Checks a downloaded catalog against the catalog rule for an app of
/// version `app_version`; the answer names the first problem.
pub fn validate_catalog(catalog: &PetCatalogV1, app_version: &SemVer) -> (r: Result<(), String>)
    ensures
        match catalog_verdict(*catalog, app_version.text()) {
            Ok(()) => r is Ok,
            Err(m) => r matches Err(x) && x@ == m,
        },
{
    if catalog.schema_version != 1 {
        return Err(String::from_str("catalog schemaVersion must be 1"));
    }
    if !crate::calendar::is_rfc3339(catalog.generated_at.as_str()) {
        return Err(String::from_str("generatedAt must be RFC 3339"));
    }
    let ghost app = app_version.text();
    let ghost all = catalog.pets@;
    let mut keys: Vec<String> = Vec::new();
    let n = catalog.pets.len();
    let mut i: usize = 0;
    while i < n
        invariant
            n == all.len(),
            all == catalog.pets@,
            app == app_version.text(),
            catalog.schema_version == 1,
            crate::calendar::rfc3339_accepts(catalog.generated_at@),
            i <= n,
            catalog_walk(all.take(i as int), app) matches Ok(set) && set
                == keys@.map_values(|s: String| s@).to_set(),
        decreases n - i,
    {
        proof {
            assert(all.take(i + 1).drop_last() =~= all.take(i as int));
            assert(all.take(i + 1).last() == all[i as int]);
        }
        let e = &catalog.pets[i];
        if e.sprite_version_number != 1 && e.sprite_version_number != 2 {
            proof {
                lemma_catalog_error_sticks(all, app, i + 1);
            }
            let mut m = e.id.clone();
            m.append(" must use sprite v1 or v2");
            return Err(m);
        }
        let key = entry_key_exec(e);
        if contains_text(&keys, key.as_str()) {
            proof {
                assert(keys@.map_values(|s: String| s@).to_set().contains(key@));
                lemma_catalog_error_sticks(all, app, i + 1);
            }
            return Err(String::from_str("duplicate catalog entry"));
        }
        let ghost before = keys@;
        keys.push(key);
        proof {
            assert(keys@.map_values(|s: String| s@) =~= before.map_values(|s: String| s@).push(
                entry_key(*e),
            ));
            lemma_push_to_set(before.map_values(|s: String| s@), entry_key(*e));
        }
        if SemVer::parse(e.version.as_str()).is_none() {
            proof {
                lemma_catalog_error_sticks(all, app, i + 1);
            }
            return Err(String::from_str("invalid pet version"));
        }
        let minimum = match SemVer::parse(e.min_app_version.as_str()) {
            Some(v) => v,
            None => {
                proof {
                    lemma_catalog_error_sticks(all, app, i + 1);
                }
                return Err(String::from_str("invalid minAppVersion"));
            },
        };
        if !newer(&minimum, app_version) {
            if let Some(m) = check_installable_entry(e) {
                proof {
                    lemma_catalog_error_sticks(all, app, i + 1);
                }
                return Err(m);
            }
        }
        i = i + 1;
    }
    assert(all.take(n as int) =~= all);
    Ok(())
}

/// The first catalog entry for `id@version`.
pub open spec fn entry_for(entries: Seq<PetCatalogEntryV1>, id: Seq<char>, version: Seq<char>) -> Option<
    PetCatalogEntryV1,
>
    decreases entries.len(),
{
    if entries.len() == 0 {
        None
    } else {
        match entry_for(entries.drop_last(), id, version) {
            Some(e) => Some(e),
            None => if entries.last().id@ == id && entries.last().version@ == version {
                Some(entries.last())
            } else {
                None
            },
        }
    }
}

proof fn lemma_entry_for_prefix(
    entries: Seq<PetCatalogEntryV1>,
    id: Seq<char>,
    version: Seq<char>,
    k: int,
)
    requires
        0 <= k <= entries.len(),
        entry_for(entries.take(k), id, version) is Some,
    ensures
        entry_for(entries, id, version) == entry_for(entries.take(k), id, version),
    decreases entries.len() - k,
{
    if k < entries.len() {
        assert(entries.take(k + 1).drop_last() =~= entries.take(k));
        lemma_entry_for_prefix(entries, id, version, k + 1);
    } else {
        assert(entries.take(k) =~= entries);
    }
}

/// The catalog entry to install for `id@version`, or a refusal when the
/// official catalog does not list it.
pub fn find_catalog_entry(catalog: &PetCatalogV1, id: &str, version: &str) -> (r: Result<
    PetCatalogEntryV1,
    String,
>)
    ensures
        match entry_for(catalog.pets@, id@, version@) {
            Some(e) => r == Ok::<PetCatalogEntryV1, String>(e),
            None => r matches Err(m) && m@ == id@ + "@"@ + version@ + " is not in the official catalog"@,
        },
{
    let ghost all = catalog.pets@;
    let n = catalog.pets.len();
    let mut i: usize = 0;
    while i < n
        invariant
            n == all.len(),
            all == catalog.pets@,
            i <= n,
            entry_for(all.take(i as int), id@, version@) is None,
        decreases n - i,
    {
        proof {
            assert(all.take(i + 1).drop_last() =~= all.take(i as int));
            assert(all.take(i + 1).last() == all[i as int]);
        }
        let e = &catalog.pets[i];
        if same_text(e.id.as_str(), id) && same_text(e.version.as_str(), version) {
            proof {
                lemma_entry_for_prefix(all, id@, version@, i + 1);
            }
            return Ok(e.clone());
        }
        i = i + 1;
    }
    assert(all.take(n as int) =~= all);
    let mut m = String::from_str(id);
    m.append("@");
    m.append(version);
    m.append(" is not in the official catalog");
    Err(m)
}

/// An installed package must hold the pet the catalog entry names.
pub fn confirm_package_id(manifest_id: &str, entry: &PetCatalogEntryV1) -> (r: Result<(), String>)
    ensures
        manifest_id@ == entry.id@ ==> r is Ok,
        manifest_id@ != entry.id@ ==> (r matches Err(m) && m@
            == "pet manifest id does not match the catalog"@),
{
    if !same_text(manifest_id, entry.id.as_str()) {
        return Err(String::from_str("pet manifest id does not match the catalog"));
    }
    Ok(())
}

} // verus!
