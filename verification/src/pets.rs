//! Pet packages: the manifest rules, the archive listing rules, and the
//! spritesheet atlas check.

use vstd::prelude::*;
use crate::text::{
    blank, contains_text, is_blank, lemma_push_to_set, lemma_text_less_order, same_text, text_less,
    text_less_exec,
};

verus! {

/// Why a pet package or folder was refused.
#[derive(Debug, PartialEq, Eq)]
pub enum PackageError {
    UnsafePath,
    UnexpectedFile(String),
    MissingFile(String),
    InvalidManifest,
    InvalidSpritesheet,
    TooLarge,
    Io(String),
}

pub enum PackageErrorView {
    UnsafePath,
    UnexpectedFile(Seq<char>),
    MissingFile(Seq<char>),
    InvalidManifest,
    InvalidSpritesheet,
    TooLarge,
    Io(Seq<char>),
}

impl View for PackageError {
    type V = PackageErrorView;

    open spec fn view(&self) -> PackageErrorView {
        match self {
            PackageError::UnsafePath => PackageErrorView::UnsafePath,
            PackageError::UnexpectedFile(n) => PackageErrorView::UnexpectedFile(n@),
            PackageError::MissingFile(n) => PackageErrorView::MissingFile(n@),
            PackageError::InvalidManifest => PackageErrorView::InvalidManifest,
            PackageError::InvalidSpritesheet => PackageErrorView::InvalidSpritesheet,
            PackageError::TooLarge => PackageErrorView::TooLarge,
            PackageError::Io(m) => PackageErrorView::Io(m@),
        }
    }
}

/// The text each refusal is reported with.
pub open spec fn package_error_message(e: PackageErrorView) -> Seq<char> {
    match e {
        PackageErrorView::UnsafePath => "archive contains an unsafe path"@,
        PackageErrorView::UnexpectedFile(n) => "archive contains unexpected file "@ + n,
        PackageErrorView::MissingFile(n) => "archive is missing "@ + n,
        PackageErrorView::InvalidManifest => "pet.json is invalid"@,
        PackageErrorView::InvalidSpritesheet => "spritesheet.webp is not a compatible Codex atlas"@,
        PackageErrorView::TooLarge => "archive exceeds the allowed size"@,
        PackageErrorView::Io(m) => "archive cannot be read: "@ + m,
    }
}

impl PackageError {
    /// The human-readable description of the refusal.
    pub fn message(&self) -> (r: String)
        ensures
            r@ == package_error_message(self@),
    {
        match self {
            PackageError::UnsafePath => String::from_str("archive contains an unsafe path"),
            PackageError::UnexpectedFile(n) => {
                let mut s = String::from_str("archive contains unexpected file ");
                s.append(n.as_str());
                s
            },
            PackageError::MissingFile(n) => {
                let mut s = String::from_str("archive is missing ");
                s.append(n.as_str());
                s
            },
            PackageError::InvalidManifest => String::from_str("pet.json is invalid"),
            PackageError::InvalidSpritesheet => String::from_str(
                "spritesheet.webp is not a compatible Codex atlas",
            ),
            PackageError::TooLarge => String::from_str("archive exceeds the allowed size"),
            PackageError::Io(m) => {
                let mut s = String::from_str("archive cannot be read: ");
                s.append(m.as_str());
                s
            },
        }
    }
}

// ---------------------------------------------------------------------------
// The spritesheet atlas.

/// Frames per animation row, top to bottom; v1 atlases use the first nine
/// rows, v2 atlases all eleven.
pub open spec fn frame_counts() -> Seq<int> {
    seq![6, 8, 8, 4, 5, 8, 6, 6, 6, 8, 8]
}

pub open spec fn cell_width() -> int {
    192
}

pub open spec fn cell_height() -> int {
    208
}

/// Rows used by an atlas version.
pub open spec fn atlas_rows(version: u8) -> int {
    if version == 1 {
        9
    } else {
        11
    }
}

pub open spec fn atlas_height(version: u8) -> int {
    if version == 1 {
        1872
    } else {
        2288
    }
}

/// A decoded image: width, height, whether its colour type has an alpha
/// channel, and its pixels as RGBA bytes, row by row.
pub struct DecodedImage {
    pub width: u32,
    pub height: u32,
    pub has_alpha: bool,
    pub rgba: Vec<u8>,
}

impl View for DecodedImage {
    type V = (u32, u32, bool, Seq<u8>);

    open spec fn view(&self) -> (u32, u32, bool, Seq<u8>) {
        (self.width, self.height, self.has_alpha, self.rgba@)
    }
}

/// What `image::load_from_memory_with_format` with the WebP format makes of
/// a byte string: `None` when it refuses the bytes, otherwise the decoded
/// image as width, height, alpha presence and RGBA bytes.
pub uninterp spec fn webp_decoding(bytes: Seq<u8>) -> Option<(u32, u32, bool, Seq<u8>)>;

/// `image::load_from_memory_with_format(bytes, ImageFormat::WebP)`, the
/// decoded image read out by `width`, `height`, `color().has_alpha()` and
/// `to_rgba8().into_raw()`. The result is named by `webp_decoding`; the RGBA
/// buffer of an `ImageBuffer` holds at least four bytes per pixel.
#[verifier::external_body]
fn decode_webp(bytes: &[u8]) -> (r: Option<DecodedImage>)
    ensures
        match webp_decoding(bytes@) {
            None => r is None,
            Some(v) => r matches Some(d) && d@ == v,
        },
        r matches Some(d) ==> d.rgba@.len() >= 4 * d.width * d.height,
{
    match image::load_from_memory_with_format(bytes, image::ImageFormat::WebP) {
        Ok(img) => Some(
            DecodedImage {
                width: img.width(),
                height: img.height(),
                has_alpha: img.color().has_alpha(),
                rgba: img.to_rgba8().into_raw(),
            },
        ),
        Err(_) => None,
    }
}

/// The alpha byte of pixel (x, y).
pub open spec fn alpha_at(img: (u32, u32, bool, Seq<u8>), x: int, y: int) -> u8 {
    img.3[4 * (y * img.0 + x) + 3]
}

/// Some pixel of the cell at (row, column) is not fully transparent.
pub open spec fn cell_is_drawn(img: (u32, u32, bool, Seq<u8>), row: int, column: int) -> bool {
    exists|x: int, y: int|
        column * cell_width() <= x < (column + 1) * cell_width() && row * cell_height() <= y < (row
            + 1) * cell_height() && #[trigger] alpha_at(img, x, y) != 0
}

/// Every frame cell that the version uses is drawn.
pub open spec fn frames_drawn(img: (u32, u32, bool, Seq<u8>), version: u8) -> bool {
    forall|row: int, column: int|
        0 <= row < atlas_rows(version) && 0 <= column < frame_counts()[row] ==> #[trigger] cell_is_drawn(
            img,
            row,
            column,
        )
}

/// The atlas version its size identifies.
pub open spec fn atlas_version_of(width: u32, height: u32) -> Option<u8> {
    if width == 1536 && height == 1872 {
        Some(1u8)
    } else if width == 1536 && height == 2288 {
        Some(2u8)
    } else {
        None
    }
}

/// The spritesheet rule: the bytes decode as WebP with an alpha channel, the
/// size is a v1 or v2 atlas, a declared version agrees with it, and every
/// used frame cell is drawn. The answer is the atlas version.
pub open spec fn spritesheet_verdict(bytes: Seq<u8>, declared: Option<u8>) -> Option<u8> {
    match webp_decoding(bytes) {
        None => None,
        Some(img) => if !img.2 {
            None
        } else {
            match atlas_version_of(img.0, img.1) {
                None => None,
                Some(v) => if (declared matches Some(d) && d != v) || !frames_drawn(img, v) {
                    None
                } else {
                    Some(v)
                },
            }
        },
    }
}

fn frame_count(row: usize) -> (r: usize)
    requires
        row < 11,
    ensures
        r == frame_counts()[row as int],
{
    if row == 0 {
        6
    } else if row == 1 || row == 2 || row == 5 || row == 9 || row == 10 {
        8
    } else if row == 3 {
        4
    } else if row == 4 {
        5
    } else {
        6
    }
}

fn cell_has_alpha(img: &DecodedImage, row: usize, column: usize) -> (r: bool)
    requires
        img.width == 1536,
        img.rgba@.len() >= 4 * img.width * img.height,
        row < 11,
        column < 8,
        (row + 1) * 208 <= img.height,
    ensures
        r == cell_is_drawn(img@, row as int, column as int),
{
    let limit = img.rgba.len();
    let x0: usize = column * 192;
    let y0: usize = row * 208;
    let mut y: usize = y0;
    while y < y0 + 208
        invariant
            img.width == 1536,
            img.rgba@.len() >= 4 * img.width * img.height,
            limit == img.rgba@.len(),
            x0 == column * 192,
            y0 == row * 208,
            y0 + 208 <= img.height,
            y0 <= y <= y0 + 208,
            column < 8,
            forall|xx: int, yy: int|
                x0 <= xx < x0 + 192 && y0 <= yy < y ==> #[trigger] alpha_at(img@, xx, yy) == 0,
        decreases y0 + 208 - y,
    {
        let mut x: usize = x0;
        while x < x0 + 192
            invariant
                img.width == 1536,
                img.rgba@.len() >= 4 * img.width * img.height,
                limit == img.rgba@.len(),
                x0 == column * 192,
                y0 == row * 208,
                y0 + 208 <= img.height,
                y0 <= y < y0 + 208,
                x0 <= x <= x0 + 192,
                column < 8,
                forall|xx: int, yy: int|
                    x0 <= xx < x0 + 192 && y0 <= yy < y ==> #[trigger] alpha_at(img@, xx, yy) == 0,
                forall|xx: int| x0 <= xx < x ==> #[trigger] alpha_at(img@, xx, y as int) == 0,
            decreases x0 + 192 - x,
        {
            assert(4 * (y * 1536 + x) + 3 < 4 * img.width * img.height) by (nonlinear_arith)
                requires
                    y < img.height,
                    x < 1536,
                    img.width == 1536,
            ;
            let index = 4 * (y * 1536 + x) + 3;
            if img.rgba[index] != 0 {
                assert(alpha_at(img@, x as int, y as int) != 0);
                return true;
            }
            x = x + 1;
        }
        y = y + 1;
    }
    proof {
        assert forall|xx: int, yy: int|
            column * cell_width() <= xx < (column + 1) * cell_width() && row * cell_height() <= yy < (
            row + 1) * cell_height() implies #[trigger] alpha_at(img@, xx, yy) == 0 by {}
    }
    false
}

/// Checks that every frame cell that the atlas version uses is drawn.
fn frames_complete(img: &DecodedImage, version: u8) -> (r: bool)
    requires
        version == 1 || version == 2,
        img.width == 1536,
        img.height == atlas_height(version),
        img.rgba@.len() >= 4 * img.width * img.height,
    ensures
        r == frames_drawn(img@, version),
{
    let rows: usize = if version == 1 {
        9
    } else {
        11
    };
    let mut row: usize = 0;
    while row < rows
        invariant
            rows == atlas_rows(version),
            row <= rows,
            version == 1 || version == 2,
            img.width == 1536,
            img.height == atlas_height(version),
            img.rgba@.len() >= 4 * img.width * img.height,
            forall|r: int, c: int|
                0 <= r < row && 0 <= c < frame_counts()[r] ==> #[trigger] cell_is_drawn(img@, r, c),
        decreases rows - row,
    {
        let used = frame_count(row);
        let mut column: usize = 0;
        while column < used
            invariant
                rows == atlas_rows(version),
                row < rows,
                used == frame_counts()[row as int],
                column <= used,
                version == 1 || version == 2,
                img.width == 1536,
                img.height == atlas_height(version),
                img.rgba@.len() >= 4 * img.width * img.height,
                forall|r: int, c: int|
                    0 <= r < row && 0 <= c < frame_counts()[r] ==> #[trigger] cell_is_drawn(
                        img@,
                        r,
                        c,
                    ),
                forall|c: int| 0 <= c < column ==> #[trigger] cell_is_drawn(img@, row as int, c),
            decreases used - column,
        {
            if !cell_has_alpha(img, row, column) {
                return false;
            }
            column = column + 1;
        }
        row = row + 1;
    }
    true
}

/// Decodes a spritesheet and checks it against the atlas rules, answering
/// the atlas version (1 or 2).
pub fn validate_spritesheet(bytes: &[u8], declared: Option<u8>) -> (r: Result<u8, PackageError>)
    ensures
        match spritesheet_verdict(bytes@, declared) {
            Some(v) => r == Ok::<u8, PackageError>(v),
            None => r matches Err(e) && e@ == PackageErrorView::InvalidSpritesheet,
        },
{
    let image = match decode_webp(bytes) {
        Some(image) => image,
        None => return Err(PackageError::InvalidSpritesheet),
    };
    if !image.has_alpha {
        return Err(PackageError::InvalidSpritesheet);
    }
    let version: u8 = if image.width == 1536 && image.height == 1872 {
        1
    } else if image.width == 1536 && image.height == 2288 {
        2
    } else {
        return Err(PackageError::InvalidSpritesheet);
    };
    if let Some(d) = declared {
        if d != version {
            return Err(PackageError::InvalidSpritesheet);
        }
    }
    if !frames_complete(&image, version) {
        return Err(PackageError::InvalidSpritesheet);
    }
    Ok(version)
}

// ---------------------------------------------------------------------------
// Manifests.

/// The `pet.json` of a package or pet folder.
#[derive(Debug)]
pub struct PetManifestV2 {
    pub id: String,
    pub display_name: String,
    pub description: String,
    pub sprite_version_number: Option<u8>,
    pub spritesheet_path: String,
}

/// A pet folder that passed every check, with its detected atlas version.
#[derive(Debug)]
pub struct ValidatedLocalPet {
    pub id: String,
    pub display_name: String,
    pub description: String,
    pub sprite_version_number: u8,
}

impl Clone for ValidatedLocalPet {
    fn clone(&self) -> (r: Self)
        ensures
            r == *self,
    {
        ValidatedLocalPet {
            id: self.id.clone(),
            display_name: self.display_name.clone(),
            description: self.description.clone(),
            sprite_version_number: self.sprite_version_number,
        }
    }
}

pub open spec fn is_id_char(c: char) -> bool {
    ('a' <= c && c <= 'z') || ('0' <= c && c <= '9') || c == '-'
}

/// A pet id: non-empty, lowercase ASCII letters, digits and `-`.
pub open spec fn is_valid_pet_id(id: Seq<char>) -> bool {
    id.len() > 0 && forall|i: int| 0 <= i < id.len() ==> is_id_char(#[trigger] id[i])
}

/// The manifest rule: a valid id, a non-blank name and description, an
/// absent or v1/v2 sprite version, and the spritesheet at `spritesheet.webp`.
pub open spec fn manifest_is_valid(
    id: Seq<char>,
    display_name: Seq<char>,
    description: Seq<char>,
    sprite_version_number: Option<u8>,
    spritesheet_path: Seq<char>,
) -> bool {
    &&& is_valid_pet_id(id)
    &&& !is_blank(display_name)
    &&& !is_blank(description)
    &&& (sprite_version_number matches Some(v) ==> v == 1 || v == 2)
    &&& spritesheet_path == "spritesheet.webp"@
}

pub open spec fn manifest_ok(m: PetManifestV2) -> bool {
    manifest_is_valid(
        m.id@,
        m.display_name@,
        m.description@,
        m.sprite_version_number,
        m.spritesheet_path@,
    )
}

pub fn valid_pet_id(id: &str) -> (r: bool)
    ensures
        r == is_valid_pet_id(id@),
{
    let n = id.unicode_len();
    if n == 0 {
        return false;
    }
    let mut i: usize = 0;
    while i < n
        invariant
            n == id@.len(),
            i <= n,
            forall|j: int| 0 <= j < i ==> is_id_char(#[trigger] id@[j]),
        decreases n - i,
    {
        let c = id.get_char(i);
        if !(('a' <= c && c <= 'z') || ('0' <= c && c <= '9') || c == '-') {
            assert(!is_id_char(id@[i as int]));
            return false;
        }
        i = i + 1;
    }
    true
}

/// Checks a parsed manifest against the manifest rule.
pub fn validate_manifest(manifest: &PetManifestV2) -> (r: Result<(), PackageError>)
    ensures
        manifest_ok(*manifest) ==> r is Ok,
        !manifest_ok(*manifest) ==> (r matches Err(e) && e@ == PackageErrorView::InvalidManifest),
{
    let version_ok = match manifest.sprite_version_number {
        None => true,
        Some(v) => v == 1 || v == 2,
    };
    if !valid_pet_id(manifest.id.as_str()) || blank(manifest.display_name.as_str()) || blank(
        manifest.description.as_str(),
    ) || !version_ok || !same_text(manifest.spritesheet_path.as_str(), "spritesheet.webp") {
        return Err(PackageError::InvalidManifest);
    }
    Ok(())
}

/// What a pet folder check answers once its two files were read: the
/// manifest as parsed (`None` when it is not valid JSON of the right shape)
/// and the spritesheet bytes. A refused folder is reported with the text of
/// its refusal.
pub open spec fn local_pet_verdict(manifest: Option<PetManifestV2>, spritesheet: Seq<u8>) -> Result<
    u8,
    Seq<char>,
> {
    match manifest {
        None => Err(package_error_message(PackageErrorView::InvalidManifest)),
        Some(m) => if !manifest_ok(m) {
            Err(package_error_message(PackageErrorView::InvalidManifest))
        } else {
            match spritesheet_verdict(spritesheet, m.sprite_version_number) {
                None => Err(package_error_message(PackageErrorView::InvalidSpritesheet)),
                Some(v) => Ok(v),
            }
        },
    }
}

/// Checks a pet folder's parsed manifest and spritesheet bytes; a valid pet
/// keeps the manifest's texts and the detected atlas version.
pub fn check_local_pet(manifest: Option<PetManifestV2>, spritesheet: &[u8]) -> (r: Result<
    ValidatedLocalPet,
    String,
>)
    ensures
        match local_pet_verdict(manifest, spritesheet@) {
            Ok(v) => r matches Ok(p) && manifest matches Some(m) && p.id == m.id && p.display_name
                == m.display_name && p.description == m.description && p.sprite_version_number
                == v,
            Err(msg) => r matches Err(text) && text@ == msg,
        },
{
    let manifest = match manifest {
        None => return Err(PackageError::InvalidManifest.message()),
        Some(m) => m,
    };
    if validate_manifest(&manifest).is_err() {
        return Err(PackageError::InvalidManifest.message());
    }
    match validate_spritesheet(spritesheet, manifest.sprite_version_number) {
        Err(e) => Err(e.message()),
        Ok(version) => Ok(
            ValidatedLocalPet {
                id: manifest.id,
                display_name: manifest.display_name,
                description: manifest.description,
                sprite_version_number: version,
            },
        ),
    }
}

/// The rule for a file of a pet folder before it is read: a regular file,
/// not a link, of at most `maximum` bytes.
pub open spec fn regular_file_verdict(is_link: bool, is_file: bool, size: u64, maximum: u64) -> Option<
    Seq<char>,
> {
    if is_link || !is_file {
        Some("必须是普通文件，不能使用链接"@)
    } else if size > maximum {
        Some("文件过大"@)
    } else {
        None
    }
}

/// Checks what the file system reports of a pet folder file before it is
/// read; `Err` carries the refusal.
pub fn check_regular_file(is_link: bool, is_file: bool, size: u64, maximum: u64) -> (r: Result<
    (),
    String,
>)
    ensures
        match regular_file_verdict(is_link, is_file, size, maximum) {
            None => r is Ok,
            Some(m) => r matches Err(x) && x@ == m,
        },
{
    if is_link || !is_file {
        return Err(String::from_str("必须是普通文件，不能使用链接"));
    }
    if size > maximum {
        return Err(String::from_str("文件过大"));
    }
    Ok(())
}

/// The largest `pet.json` a pet folder may hold: 64 KiB.
pub const MAX_LOCAL_MANIFEST_BYTES: u64 = 65_536;

/// The largest spritesheet a pet folder may hold: 25 MiB.
pub const MAX_LOCAL_SPRITESHEET_BYTES: u64 = 26_214_400;

/// What loading a pet folder answers, given how reading its two files went:
/// a read failure names the file, then the folder check decides.
pub open spec fn pet_directory_verdict(
    manifest_file: Result<Option<PetManifestV2>, String>,
    spritesheet_file: Result<Vec<u8>, String>,
) -> Result<u8, Seq<char>> {
    match manifest_file {
        Err(e) => Err("pet.json "@ + e@),
        Ok(manifest) => match spritesheet_file {
            Err(e) => Err("spritesheet.webp "@ + e@),
            Ok(bytes) => local_pet_verdict(manifest, bytes@),
        },
    }
}

/// Loads a pet folder from how reading its `pet.json` (parsed, `None` when
/// it is not a manifest) and its spritesheet went; a valid pet comes back
/// with the path of its spritesheet.
pub fn load_pet_directory(
    spritesheet_path: std::path::PathBuf,
    manifest_file: Result<Option<PetManifestV2>, String>,
    spritesheet_file: Result<Vec<u8>, String>,
) -> (r: Result<(ValidatedLocalPet, std::path::PathBuf), String>)
    ensures
        match pet_directory_verdict(manifest_file, spritesheet_file) {
            Ok(v) => r matches Ok((p, path)) && manifest_file matches Ok(Some(m)) && p.id == m.id
                && p.display_name == m.display_name && p.description == m.description
                && p.sprite_version_number == v && path == spritesheet_path,
            Err(msg) => r matches Err(text) && text@ == msg,
        },
{
    let manifest = match manifest_file {
        Err(e) => {
            let mut m = String::from_str("pet.json ");
            m.append(e.as_str());
            return Err(m);
        },
        Ok(manifest) => manifest,
    };
    let bytes = match spritesheet_file {
        Err(e) => {
            let mut m = String::from_str("spritesheet.webp ");
            m.append(e.as_str());
            return Err(m);
        },
        Ok(bytes) => bytes,
    };
    let pet = check_local_pet(manifest, bytes.as_slice())?;
    Ok((pet, spritesheet_path))
}

/// The folder of the first scanned pet with this id.
pub open spec fn first_folder_with_id(pets: Seq<LocalPetView>, id: Seq<char>) -> Option<Seq<char>>
    decreases pets.len(),
{
    if pets.len() == 0 {
        None
    } else {
        match first_folder_with_id(pets.drop_last(), id) {
            Some(f) => Some(f),
            None => if pets.last().id == id {
                Some(pets.last().folder_name)
            } else {
                None
            },
        }
    }
}

/// Finds the folder of the custom pet with this id in a scan result.
pub fn find_local_pet(scan: &LocalPetScanV1, id: &str) -> (r: Result<String, String>)
    ensures
        match first_folder_with_id(local_pet_views(scan.pets@), id@) {
            Some(f) => r matches Ok(x) && x@ == f,
            None => r matches Err(m) && m@ == "找不到有效的本地宠物 "@ + id@,
        },
{
    let ghost all = local_pet_views(scan.pets@);
    let n = scan.pets.len();
    let mut i: usize = 0;
    while i < n
        invariant
            n == scan.pets@.len(),
            i <= n,
            all == local_pet_views(scan.pets@),
            first_folder_with_id(all.take(i as int), id@) is None,
        decreases n - i,
    {
        proof {
            assert(all.take(i + 1).drop_last() =~= all.take(i as int));
        }
        if same_text(scan.pets[i].id.as_str(), id) {
            proof {
                lemma_first_folder_prefix(all, id@, i + 1);
            }
            return Ok(scan.pets[i].folder_name.clone());
        }
        i = i + 1;
    }
    assert(all.take(n as int) =~= all);
    let mut m = String::from_str("找不到有效的本地宠物 ");
    m.append(id);
    Err(m)
}

proof fn lemma_first_folder_prefix(pets: Seq<LocalPetView>, id: Seq<char>, k: int)
    requires
        0 <= k <= pets.len(),
        first_folder_with_id(pets.take(k), id) is Some,
    ensures
        first_folder_with_id(pets, id) == first_folder_with_id(pets.take(k), id),
    decreases pets.len() - k,
{
    if k < pets.len() {
        assert(pets.take(k + 1).drop_last() =~= pets.take(k));
        lemma_first_folder_prefix(pets, id, k + 1);
    } else {
        assert(pets.take(k) =~= pets);
    }
}

/// Confirms that a pet folder loaded after a scan still holds the pet with
/// this id; a folder whose pet changed since the scan is refused.
pub fn confirm_local_pet(
    loaded: Result<(ValidatedLocalPet, std::path::PathBuf), String>,
    id: &str,
) -> (r: Result<(ValidatedLocalPet, std::path::PathBuf), String>)
    ensures
        match loaded {
            Err(e) => r == Err::<(ValidatedLocalPet, std::path::PathBuf), String>(e),
            Ok((p, path)) => if p.id@ == id@ {
                r == Ok::<(ValidatedLocalPet, std::path::PathBuf), String>((p, path))
            } else {
                r matches Err(m) && m@ == "宠物文件在扫描后发生了变化，请重新扫描"@
            },
        },
{
    let (pet, path) = loaded?;
    if !same_text(pet.id.as_str(), id) {
        return Err(String::from_str("宠物文件在扫描后发生了变化，请重新扫描"));
    }
    Ok((pet, path))
}

/// A size limit on a package file or one of its entries: anything larger
/// is refused as too large.
pub fn check_size_limit(size: u64, limit: u64) -> (r: Result<(), PackageError>)
    ensures
        size <= limit ==> r is Ok,
        size > limit ==> (r matches Err(e) && e@ == PackageErrorView::TooLarge),
{
    if size > limit {
        return Err(PackageError::TooLarge);
    }
    Ok(())
}

// ---------------------------------------------------------------------------
// Package archive listings.

/// One entry of a package archive as the archive reader reports it: its
/// name when it stays inside the extraction folder (`None` otherwise), the
/// number of path components of that name, whether it is a folder, and its
/// uncompressed size.
#[derive(Debug)]
pub struct PackageEntry {
    pub enclosed_name: Option<String>,
    pub component_count: usize,
    pub is_dir: bool,
    pub size: u64,
}

/// An archive entry as the contracts see it: enclosed name, component
/// count, whether it is a folder, and size.
pub type EntryView = (Option<Seq<char>>, usize, bool, u64);

impl View for PackageEntry {
    type V = EntryView;

    open spec fn view(&self) -> EntryView {
        (
            match self.enclosed_name {
                Some(n) => Some(n@),
                None => None,
            },
            self.component_count,
            self.is_dir,
            self.size,
        )
    }
}

pub open spec fn entry_views(v: Seq<PackageEntry>) -> Seq<EntryView> {
    v.map_values(|e: PackageEntry| e@)
}

pub open spec fn is_allowed_file(name: Seq<char>) -> bool {
    name == "pet.json"@ || name == "spritesheet.webp"@ || name == "ASSET_LICENSE.txt"@
}

/// The names seen so far and their total size, or the first refusal.
pub open spec fn listing_state(entries: Seq<EntryView>, maximum: u64) -> Result<
    (Set<Seq<char>>, int),
    PackageErrorView,
>
    decreases entries.len(),
{
    if entries.len() == 0 {
        Ok((Set::empty(), 0))
    } else {
        match listing_state(entries.drop_last(), maximum) {
            Err(e) => Err(e),
            Ok((seen, total)) => {
                let e = entries.last();
                match e.0 {
                    None => Err(PackageErrorView::UnsafePath),
                    Some(name) => if e.1 != 1 || e.2 {
                        Err(PackageErrorView::UnsafePath)
                    } else if !is_allowed_file(name) {
                        Err(PackageErrorView::UnexpectedFile(name))
                    } else if seen.contains(name) {
                        Err(PackageErrorView::UnexpectedFile(name))
                    } else if total + e.3 > maximum {
                        Err(PackageErrorView::TooLarge)
                    } else {
                        Ok((seen.insert(name), total + e.3))
                    }
                }
            },
        }
    }
}

/// The listing rule: each entry is a single allowed file name inside the
/// package, named once, the sizes add up to at most `maximum`, and
/// `pet.json` and `spritesheet.webp` are both present.
pub open spec fn listing_verdict(entries: Seq<EntryView>, maximum: u64) -> Result<
    (),
    PackageErrorView,
> {
    match listing_state(entries, maximum) {
        Err(e) => Err(e),
        Ok((seen, _)) => if !seen.contains("pet.json"@) {
            Err(PackageErrorView::MissingFile("pet.json"@))
        } else if !seen.contains("spritesheet.webp"@) {
            Err(PackageErrorView::MissingFile("spritesheet.webp"@))
        } else {
            Ok(())
        },
    }
}

proof fn lemma_listing_error_sticks(entries: Seq<EntryView>, maximum: u64, k: int)
    requires
        0 <= k <= entries.len(),
        listing_state(entries.take(k), maximum) is Err,
    ensures
        listing_state(entries, maximum) == listing_state(entries.take(k), maximum),
    decreases entries.len() - k,
{
    if k < entries.len() {
        assert(entries.take(k + 1).drop_last() =~= entries.take(k));
        lemma_listing_error_sticks(entries, maximum, k + 1);
    } else {
        assert(entries.take(k) =~= entries);
    }
}

fn allowed_file(name: &str) -> (r: bool)
    ensures
        r == is_allowed_file(name@),
{
    same_text(name, "pet.json") || same_text(name, "spritesheet.webp") || same_text(
        name,
        "ASSET_LICENSE.txt",
    )
}

/// Checks an archive listing against the listing rule; the first entry that
/// breaks it decides the refusal.
pub fn check_package_entries(entries: &Vec<PackageEntry>, maximum: u64) -> (r: Result<
    (),
    PackageError,
>)
    ensures
        match listing_verdict(entry_views(entries@), maximum) {
            Ok(()) => r is Ok,
            Err(e) => r matches Err(x) && x@ == e,
        },
{
    let ghost views = entry_views(entries@);
    let mut seen: Vec<String> = Vec::new();
    let mut total: u64 = 0;
    let n = entries.len();
    let mut i: usize = 0;
    while i < n
        invariant
            n == entries@.len(),
            i <= n,
            views == entry_views(entries@),
            listing_state(views.take(i as int), maximum) matches Ok((set, t)) && set
                == seen@.map_values(|s: String| s@).to_set() && t == total,
            total <= maximum,
        decreases n - i,
    {
        proof {
            assert(views.take(i + 1).drop_last() =~= views.take(i as int));
            assert(views.take(i + 1).last() == entries@[i as int]@);
        }
        let entry = &entries[i];
        let name = match &entry.enclosed_name {
            None => {
                proof {
                    lemma_listing_error_sticks(views, maximum, i + 1);
                }
                return Err(PackageError::UnsafePath);
            },
            Some(name) => name,
        };
        if entry.component_count != 1 || entry.is_dir {
            proof {
                lemma_listing_error_sticks(views, maximum, i + 1);
            }
            return Err(PackageError::UnsafePath);
        }
        if !allowed_file(name.as_str()) {
            proof {
                lemma_listing_error_sticks(views, maximum, i + 1);
            }
            return Err(PackageError::UnexpectedFile(name.clone()));
        }
        if contains_text(&seen, name.as_str()) {
            proof {
                assert(seen@.map_values(|s: String| s@).to_set().contains(name@));
                lemma_listing_error_sticks(views, maximum, i + 1);
            }
            return Err(PackageError::UnexpectedFile(name.clone()));
        }
        proof {
            assert(!seen@.map_values(|s: String| s@).to_set().contains(name@));
        }
        if entry.size > maximum - total {
            proof {
                lemma_listing_error_sticks(views, maximum, i + 1);
            }
            return Err(PackageError::TooLarge);
        }
        total = total + entry.size;
        let ghost before = seen@;
        seen.push(name.clone());
        proof {
            assert(seen@.map_values(|s: String| s@) =~= before.map_values(|s: String| s@).push(
                name@,
            ));
            lemma_push_to_set(before.map_values(|s: String| s@), name@);
        }
        i = i + 1;
    }
    assert(views.take(n as int) =~= views);
    if !contains_text(&seen, "pet.json") {
        proof {
            assert(!seen@.map_values(|s: String| s@).to_set().contains("pet.json"@));
        }
        return Err(PackageError::MissingFile(String::from_str("pet.json")));
    }
    if !contains_text(&seen, "spritesheet.webp") {
        proof {
            assert(!seen@.map_values(|s: String| s@).to_set().contains("spritesheet.webp"@));
        }
        return Err(PackageError::MissingFile(String::from_str("spritesheet.webp")));
    }
    Ok(())
}

// ---------------------------------------------------------------------------
// Package archives.

/// What `zip::ZipArchive::new` over the bytes, then `by_index` for each
/// index below `len()`, gives: the text of the error when the archive does
/// not open; otherwise, for each entry in order, its `enclosed_name` (as a
/// text), that name's number of path components, `is_dir` and `size`, or
/// the text of the error that reading the entry gave.
pub uninterp spec fn zip_listing(bytes: Seq<u8>) -> Result<Seq<Result<EntryView, Seq<char>>>, Seq<char>>;

/// What `zip::ZipArchive::new` over the bytes, then `by_name(name)`, gives:
/// `None` when either fails; otherwise the entry's `size` and what
/// `read_to_end` read from it, or the text of its error.
pub uninterp spec fn zip_entry(bytes: Seq<u8>, name: Seq<char>) -> Option<(u64, Result<Seq<u8>, Seq<char>>)>;

pub open spec fn listing_views(v: Seq<Result<PackageEntry, String>>) -> Seq<Result<EntryView, Seq<char>>> {
    v.map_values(
        |x: Result<PackageEntry, String>|
            match x {
                Ok(e) => Ok(e@),
                Err(m) => Err(m@),
            },
    )
}

/// `zip::ZipArchive::new(Cursor::new(bytes))`, then `by_index` for every
/// index below `len()`, each entry read out as a `PackageEntry` and each
/// error as its text. The result is named by `zip_listing`.
#[verifier::external_body]
fn read_zip_listing(bytes: &[u8]) -> (r: Result<Vec<Result<PackageEntry, String>>, String>)
    ensures
        match zip_listing(bytes@) {
            Err(m) => r matches Err(x) && x@ == m,
            Ok(s) => r matches Ok(v) && listing_views(v@) == s,
        },
{
    let mut zip = zip::ZipArchive::new(std::io::Cursor::new(bytes)).map_err(|e| e.to_string())?;
    Ok((0..zip.len()).map(|index| match zip.by_index(index) {
        Ok(entry) => {
            let enclosed = entry.enclosed_name();
            Ok(PackageEntry {
                component_count: enclosed.as_ref().map_or(0, |name| name.components().count()),
                enclosed_name: enclosed.map(|name| name.to_string_lossy().into_owned()),
                is_dir: entry.is_dir(),
                size: entry.size(),
            })
        },
        Err(error) => Err(error.to_string()),
    }).collect())
}

/// `zip::ZipArchive::new(Cursor::new(bytes))`, then `by_name(name)`, its
/// `size()` and `read_to_end`. The result is named by `zip_entry`.
#[verifier::external_body]
fn read_zip_entry(bytes: &[u8], name: &str) -> (r: Option<(u64, Result<Vec<u8>, String>)>)
    ensures
        match zip_entry(bytes@, name@) {
            None => r is None,
            Some((size, data)) => r matches Some((n, d)) && n == size && match data {
                Ok(x) => d matches Ok(y) && y@ == x,
                Err(m) => d matches Err(y) && y@ == m,
            },
        },
{
    let mut zip = zip::ZipArchive::new(std::io::Cursor::new(bytes)).ok()?;
    let mut entry = zip.by_name(name).ok()?;
    let size = entry.size();
    let mut data = Vec::new();
    let read = std::io::Read::read_to_end(&mut entry, &mut data);
    Some((size, read.map(|_| data).map_err(|e| e.to_string())))
}

/// The entries read before the first one that could not be read, and that
/// one's error.
pub open spec fn readable_prefix(s: Seq<Result<EntryView, Seq<char>>>) -> (Seq<EntryView>, Option<Seq<char>>)
    decreases s.len(),
{
    if s.len() == 0 {
        (seq![], None)
    } else {
        let (prefix, failure) = readable_prefix(s.drop_last());
        if failure is Some {
            (prefix, failure)
        } else {
            match s.last() {
                Ok(e) => (prefix.push(e), None),
                Err(m) => (prefix, Some(m)),
            }
        }
    }
}

/// Reading one file of a package: it must be there, declare at most
/// `limit` bytes, and read without error.
pub open spec fn entry_verdict(bytes: Seq<u8>, name: Seq<char>, limit: u64) -> Result<Seq<u8>, PackageErrorView> {
    match zip_entry(bytes, name) {
        None => Err(PackageErrorView::MissingFile(name)),
        Some((size, data)) => if size > limit {
            Err(PackageErrorView::TooLarge)
        } else {
            match data {
                Err(m) => Err(PackageErrorView::Io(m)),
                Ok(d) => Ok(d),
            }
        },
    }
}

/// The largest `pet.json` a package may hold: 64 KiB.
pub const MAX_PACKAGE_MANIFEST_BYTES: u64 = 65_536;

/// The first part of the package rule, up to the manifest's bytes: the
/// package is at most `maximum` bytes; it opens as an archive; its entries
/// meet the listing rule, where an entry refused before the first
/// unreadable entry decides over that entry's read error; and `pet.json`
/// reads within its limit.
pub open spec fn package_listing_verdict(bytes: Seq<u8>, maximum: u64) -> Result<Seq<u8>, PackageErrorView> {
    if bytes.len() > maximum {
        Err(PackageErrorView::TooLarge)
    } else {
        match zip_listing(bytes) {
            Err(m) => Err(PackageErrorView::Io(m)),
            Ok(s) => {
                let (prefix, failure) = readable_prefix(s);
                match failure {
                    Some(m) => match listing_state(prefix, maximum) {
                        Err(e) => Err(e),
                        Ok(_) => Err(PackageErrorView::Io(m)),
                    },
                    None => match listing_verdict(prefix, maximum) {
                        Err(e) => Err(e),
                        Ok(()) => entry_verdict(bytes, "pet.json"@, MAX_PACKAGE_MANIFEST_BYTES),
                    },
                }
            },
        }
    }
}

proof fn lemma_listing_refusals(entries: Seq<EntryView>, maximum: u64)
    ensures
        listing_state(entries, maximum) matches Err(e) ==> !(e is MissingFile),
    decreases entries.len(),
{
    if entries.len() > 0 {
        lemma_listing_refusals(entries.drop_last(), maximum);
    }
}

fn read_package_file(bytes: &[u8], name: &str, limit: u64) -> (r: Result<Vec<u8>, PackageError>)
    ensures
        match entry_verdict(bytes@, name@, limit) {
            Ok(d) => r matches Ok(v) && v@ == d,
            Err(e) => r matches Err(x) && x@ == e,
        },
{
    match read_zip_entry(bytes, name) {
        None => Err(PackageError::MissingFile(String::from_str(name))),
        Some((size, data)) => {
            check_size_limit(size, limit)?;
            match data {
                Err(m) => Err(PackageError::Io(m)),
                Ok(d) => Ok(d),
            }
        },
    }
}

/// Checks a downloaded package's bytes up to its manifest, answering the
/// manifest's bytes.
pub fn check_package_bytes(bytes: &[u8], maximum: u64) -> (r: Result<Vec<u8>, PackageError>)
    ensures
        match package_listing_verdict(bytes@, maximum) {
            Ok(m) => r matches Ok(v) && v@ == m,
            Err(e) => r matches Err(x) && x@ == e,
        },
{
    check_size_limit(bytes.len() as u64, maximum)?;
    let listing = match read_zip_listing(bytes) {
        Err(m) => return Err(PackageError::Io(m)),
        Ok(listing) => listing,
    };
    let ghost s = listing_views(listing@);
    let mut entries: Vec<PackageEntry> = Vec::new();
    let n = listing.len();
    let mut i: usize = 0;
    let mut listing = listing;
    let ghost all = listing@;
    let mut failure: Option<String> = None;
    while i < n
        invariant
            n == all.len(),
            i <= n,
            s == listing_views(all),
            listing@ == all.subrange(i as int, n as int),
            readable_prefix(s.take(i as int)) == (entry_views(entries@), match failure {
                Some(m) => Some(m@),
                None => None::<Seq<char>>,
            }),
        decreases n - i,
    {
        proof {
            assert(s.take(i + 1).drop_last() =~= s.take(i as int));
            assert(s.take(i + 1).last() == s[i as int]);
        }
        let item = listing.remove(0);
        assert(item == all[i as int]);
        if failure.is_none() {
            let ghost before = entries@;
            match item {
                Ok(e) => {
                    entries.push(e);
                    assert(entry_views(entries@) =~= entry_views(before).push(all[i as int]->Ok_0@));
                },
                Err(m) => {
                    failure = Some(m);
                },
            }
        }
        i = i + 1;
        assert(listing@ =~= all.subrange(i as int, n as int));
    }
    assert(s.take(n as int) =~= s);
    proof {
        lemma_listing_refusals(entry_views(entries@), maximum);
    }
    match failure {
        Some(m) => {
            match check_package_entries(&entries, maximum) {
                Err(PackageError::MissingFile(_)) => Err(PackageError::Io(m)),
                Ok(()) => Err(PackageError::Io(m)),
                Err(e) => Err(e),
            }
        },
        None => {
            check_package_entries(&entries, maximum)?;
            read_package_file(bytes, "pet.json", MAX_PACKAGE_MANIFEST_BYTES)
        },
    }
}

/// The rest of the package rule, once `pet.json` was parsed (`None` when
/// it is not a manifest): the manifest is valid, `spritesheet.webp` reads
/// within the package limit, and it is a compatible atlas; the answer is
/// the atlas version.
pub open spec fn package_contents_verdict(
    bytes: Seq<u8>,
    maximum: u64,
    manifest: Option<PetManifestV2>,
) -> Result<u8, PackageErrorView> {
    match manifest {
        None => Err(PackageErrorView::InvalidManifest),
        Some(m) => if !manifest_ok(m) {
            Err(PackageErrorView::InvalidManifest)
        } else {
            match entry_verdict(bytes, "spritesheet.webp"@, maximum) {
                Err(e) => Err(e),
                Ok(sheet) => match spritesheet_verdict(sheet, m.sprite_version_number) {
                    None => Err(PackageErrorView::InvalidSpritesheet),
                    Some(v) => Ok(v),
                },
            }
        },
    }
}

/// Finishes checking a package whose bytes passed `check_package_bytes`,
/// given its parsed manifest.
pub fn check_package_contents(bytes: &[u8], maximum: u64, manifest: Option<PetManifestV2>) -> (r:
    Result<u8, PackageError>)
    ensures
        match package_contents_verdict(bytes@, maximum, manifest) {
            Ok(v) => r == Ok::<u8, PackageError>(v),
            Err(e) => r matches Err(x) && x@ == e,
        },
{
    let manifest = match manifest {
        None => return Err(PackageError::InvalidManifest),
        Some(m) => m,
    };
    validate_manifest(&manifest)?;
    let sheet = read_package_file(bytes, "spritesheet.webp", maximum)?;
    validate_spritesheet(sheet.as_slice(), manifest.sprite_version_number)
}

/// What a file of a package extracts to: its bytes, or why it could not be
/// read.
pub open spec fn extracted_file(bytes: Seq<u8>, name: Seq<char>) -> Option<Result<Seq<u8>, PackageErrorView>> {
    match zip_entry(bytes, name) {
        None => None,
        Some((_, Err(m))) => Some(Err(PackageErrorView::Io(m))),
        Some((_, Ok(d))) => Some(Ok(d)),
    }
}

/// The files a package extracts to, in order: `pet.json` and
/// `spritesheet.webp`, which must be there, and `ASSET_LICENSE.txt` when
/// it is; the first file that is missing or unreadable decides the refusal.
pub open spec fn extraction_verdict(bytes: Seq<u8>) -> Result<Seq<(Seq<char>, Seq<u8>)>, PackageErrorView> {
    match extracted_file(bytes, "pet.json"@) {
        None => Err(PackageErrorView::MissingFile("pet.json"@)),
        Some(Err(e)) => Err(e),
        Some(Ok(manifest)) => match extracted_file(bytes, "spritesheet.webp"@) {
            None => Err(PackageErrorView::MissingFile("spritesheet.webp"@)),
            Some(Err(e)) => Err(e),
            Some(Ok(sheet)) => {
                let required = seq![("pet.json"@, manifest), ("spritesheet.webp"@, sheet)];
                match extracted_file(bytes, "ASSET_LICENSE.txt"@) {
                    None => Ok(required),
                    Some(Err(e)) => Err(e),
                    Some(Ok(license)) => Ok(required.push(("ASSET_LICENSE.txt"@, license))),
                }
            },
        },
    }
}

pub open spec fn file_views(v: Seq<(String, Vec<u8>)>) -> Seq<(Seq<char>, Seq<u8>)> {
    v.map_values(|f: (String, Vec<u8>)| (f.0@, f.1@))
}

fn extract_file(bytes: &[u8], name: &str) -> (r: Option<Result<(String, Vec<u8>), PackageError>>)
    ensures
        match extracted_file(bytes@, name@) {
            None => r is None,
            Some(Ok(d)) => r matches Some(Ok(f)) && f.0@ == name@ && f.1@ == d,
            Some(Err(e)) => r matches Some(Err(x)) && x@ == e,
        },
{
    match read_zip_entry(bytes, name) {
        None => None,
        Some((_, Err(m))) => Some(Err(PackageError::Io(m))),
        Some((_, Ok(d))) => Some(Ok((String::from_str(name), d))),
    }
}

/// The files to write when extracting a validated package.
pub fn package_files(bytes: &[u8]) -> (r: Result<Vec<(String, Vec<u8>)>, PackageError>)
    ensures
        match extraction_verdict(bytes@) {
            Ok(files) => r matches Ok(v) && file_views(v@) == files,
            Err(e) => r matches Err(x) && x@ == e,
        },
{
    proof {
        reveal_strlit("pet.json");
        reveal_strlit("spritesheet.webp");
    }
    let manifest = match extract_file(bytes, "pet.json") {
        None => return Err(PackageError::MissingFile(String::from_str("pet.json"))),
        Some(Err(e)) => return Err(e),
        Some(Ok(f)) => f,
    };
    let sheet = match extract_file(bytes, "spritesheet.webp") {
        None => return Err(PackageError::MissingFile(String::from_str("spritesheet.webp"))),
        Some(Err(e)) => return Err(e),
        Some(Ok(f)) => f,
    };
    let mut files: Vec<(String, Vec<u8>)> = Vec::new();
    files.push(manifest);
    files.push(sheet);
    let ghost required = file_views(files@);
    match extract_file(bytes, "ASSET_LICENSE.txt") {
        None => {},
        Some(Err(e)) => return Err(e),
        Some(Ok(f)) => {
            files.push(f);
            assert(file_views(files@) =~= required.push((f.0@, f.1@)));
        },
    }
    Ok(files)
}

// ---------------------------------------------------------------------------
// Scanning the custom pet folder.

/// A pet found in the custom pet folder.
#[derive(Debug)]
pub struct LocalPetV1 {
    pub id: String,
    pub version: String,
    pub display_name: String,
    pub description: String,
    pub folder_name: String,
    pub sprite_version_number: u8,
    pub spritesheet_path: std::path::PathBuf,
}

/// The result of scanning the custom pet folder: the folder, the usable
/// pets, and one message per problem.
#[derive(Debug)]
pub struct LocalPetScanV1 {
    pub folder_path: String,
    pub pets: Vec<LocalPetV1>,
    pub errors: Vec<String>,
}

/// What looking at one entry of the custom pet folder found.
#[derive(Debug)]
pub enum FolderOutcome {
    /// Its file type could not be read; the text says why.
    Unreadable(String),
    /// Not a plain folder (a file or a link); ignored.
    Skipped,
    /// A folder whose pet files were refused; the text says why.
    Invalid(String),
    /// A folder with a valid pet and the path of its spritesheet.
    Valid { pet: ValidatedLocalPet, spritesheet_path: std::path::PathBuf },
}

#[derive(Debug)]
pub struct FolderScan {
    pub folder_name: String,
    pub outcome: FolderOutcome,
}

/// The folder entries are in name order.
pub open spec fn folders_sorted(v: Seq<FolderScan>) -> bool {
    forall|i: int, j: int|
        0 <= i < j < v.len() ==> !text_less((#[trigger] v[j]).folder_name@, (#[trigger] v[i]).folder_name@)
}

/// Puts the folder entries in name order (the order of their names'
/// UTF-8 bytes), keeping every entry.
pub fn sort_folders(folders: Vec<FolderScan>) -> (r: Vec<FolderScan>)
    ensures
        r@.to_multiset() == folders@.to_multiset(),
        folders_sorted(r@),
{
    let ghost all = folders@;
    let mut rest = folders;
    let mut sorted: Vec<FolderScan> = Vec::new();
    let ghost mut i: int = 0;
    assert(all.take(0) =~= Seq::<FolderScan>::empty());
    while rest.len() > 0
        invariant
            0 <= i <= all.len(),
            rest@ == all.subrange(i, all.len() as int),
            sorted@.to_multiset() == all.take(i).to_multiset(),
            folders_sorted(sorted@),
        decreases rest.len(),
    {
        let item = rest.remove(0);
        assert(item == all[i]);
        let n = sorted.len();
        let mut p: usize = 0;
        while p < n
            invariant_except_break
                p <= n,
                forall|k: int| 0 <= k < p ==> !text_less(item.folder_name@, (#[trigger] sorted@[k]).folder_name@),
            invariant
                n == sorted@.len(),
            ensures
                p <= n,
                forall|k: int| 0 <= k < p ==> !text_less(item.folder_name@, (#[trigger] sorted@[k]).folder_name@),
                p < n ==> text_less(item.folder_name@, sorted@[p as int].folder_name@),
            decreases n - p,
        {
            if text_less_exec(item.folder_name.as_str(), sorted[p].folder_name.as_str()) {
                break;
            }
            p = p + 1;
        }
        let ghost before = sorted@;
        sorted.insert(p, item);
        proof {
            assert(sorted@ == before.insert(p as int, item));
            assert(sorted@.remove(p as int) =~= before);
            assert(sorted@[p as int] == item);
            assert(sorted@.contains(item));
            sorted@.to_multiset_ensures();
            assert(sorted@.to_multiset().count(item) > 0);
            assert(sorted@.to_multiset() =~= before.to_multiset().insert(item));
            assert forall|a: int, b: int| 0 <= a < b < sorted@.len() implies !text_less(
                (#[trigger] sorted@[b]).folder_name@,
                (#[trigger] sorted@[a]).folder_name@,
            ) by {
                let x = item.folder_name@;
                if a < p && b == p {
                } else if a == p && b > p {
                    let y = before[b - 1].folder_name@;
                    let z = before[p as int].folder_name@;
                    lemma_text_less_order(x, z, y);
                    lemma_text_less_order(y, z, x);
                    lemma_text_less_order(z, y, x);
                    lemma_text_less_order(x, y, z);
                    if b - 1 > p {
                        assert(!text_less(y, z));
                    }
                } else if b < p {
                    assert(sorted@[a] == before[a] && sorted@[b] == before[b]);
                } else if a < p && b > p {
                    assert(sorted@[a] == before[a] && sorted@[b] == before[b - 1]);
                } else {
                    assert(sorted@[a] == before[a - 1] && sorted@[b] == before[b - 1]);
                }
            }
            assert(all.take(i + 1) =~= all.take(i).push(all[i]));
            all.take(i).to_multiset_ensures();
            i = i + 1;
            assert(rest@ =~= all.subrange(i, all.len() as int));
        }
    }
    assert(all.take(i) =~= all);
    sorted
}

/// A scanned pet as the contracts see it.
pub struct LocalPetView {
    pub id: Seq<char>,
    pub version: Seq<char>,
    pub display_name: Seq<char>,
    pub description: Seq<char>,
    pub folder_name: Seq<char>,
    pub sprite_version_number: u8,
    pub spritesheet_path: std::path::PathBuf,
}

impl View for LocalPetV1 {
    type V = LocalPetView;

    open spec fn view(&self) -> LocalPetView {
        LocalPetView {
            id: self.id@,
            version: self.version@,
            display_name: self.display_name@,
            description: self.description@,
            folder_name: self.folder_name@,
            sprite_version_number: self.sprite_version_number,
            spritesheet_path: self.spritesheet_path,
        }
    }
}

pub open spec fn local_pet_views(v: Seq<LocalPetV1>) -> Seq<LocalPetView> {
    v.map_values(|p: LocalPetV1| p@)
}

pub open spec fn string_views(v: Seq<String>) -> Seq<Seq<char>> {
    v.map_values(|s: String| s@)
}

/// The id of the built-in pet, which custom pets may not use.
pub open spec fn reserved_pet_id() -> Seq<char> {
    "yanghao"@
}

/// The folder of the latest pet in `pets` with this id.
pub open spec fn last_folder_with_id(pets: Seq<LocalPetView>, id: Seq<char>) -> Option<Seq<char>>
    decreases pets.len(),
{
    if pets.len() == 0 {
        None
    } else if pets.last().id == id {
        Some(pets.last().folder_name)
    } else {
        last_folder_with_id(pets.drop_last(), id)
    }
}

pub open spec fn scanned_pet(name: Seq<char>, pet: ValidatedLocalPet, path: std::path::PathBuf) -> LocalPetView {
    LocalPetView {
        id: pet.id@,
        version: "local"@,
        display_name: pet.display_name@,
        description: pet.description@,
        folder_name: name,
        sprite_version_number: pet.sprite_version_number,
        spritesheet_path: path,
    }
}

/// Walks the folder entries in order, collecting every valid pet that does
/// not use the reserved id, and a message for each unreadable folder,
/// refused folder, reserved id, and id already used by an earlier folder.
pub open spec fn scan_walk(folders: Seq<FolderScan>) -> (Seq<LocalPetView>, Seq<Seq<char>>)
    decreases folders.len(),
{
    if folders.len() == 0 {
        (seq![], seq![])
    } else {
        let (pets, errors) = scan_walk(folders.drop_last());
        let f = folders.last();
        let name = f.folder_name@;
        match f.outcome {
            FolderOutcome::Unreadable(why) => (
                pets,
                errors.push(name + "：无法读取（"@ + why@ + "）"@),
            ),
            FolderOutcome::Skipped => (pets, errors),
            FolderOutcome::Invalid(why) => (pets, errors.push(name + "："@ + why@)),
            FolderOutcome::Valid { pet, spritesheet_path } => if pet.id@ == reserved_pet_id() {
                (pets, errors.push(name + "：宠物 id ‘yanghao’ 为内置宠物保留"@))
            } else {
                let errors2 = match last_folder_with_id(pets, pet.id@) {
                    Some(first) => errors.push(
                        name + "：宠物 id ‘"@ + pet.id@ + "’ 已被文件夹 "@ + first + " 使用"@,
                    ),
                    None => errors,
                };
                (pets.push(scanned_pet(name, pet, spritesheet_path)), errors2)
            },
        }
    }
}

pub open spec fn id_count(pets: Seq<LocalPetView>, id: Seq<char>) -> nat
    decreases pets.len(),
{
    if pets.len() == 0 {
        0
    } else {
        id_count(pets.drop_last(), id) + if pets.last().id == id {
            1nat
        } else {
            0nat
        }
    }
}

/// The pets whose id occurs once among `all`, in order.
pub open spec fn unique_pets(pets: Seq<LocalPetView>, all: Seq<LocalPetView>) -> Seq<LocalPetView>
    decreases pets.len(),
{
    if pets.len() == 0 {
        seq![]
    } else {
        let rest = unique_pets(pets.drop_last(), all);
        if id_count(all, pets.last().id) == 1 {
            rest.push(pets.last())
        } else {
            rest
        }
    }
}

fn latest_folder_with_id<'a>(pets: &'a Vec<LocalPetV1>, id: &str) -> (r: Option<&'a String>)
    ensures
        match last_folder_with_id(local_pet_views(pets@), id@) {
            Some(f) => r matches Some(x) && x@ == f,
            None => r is None,
        },
{
    let mut i = pets.len();
    assert(local_pet_views(pets@).take(i as int) =~= local_pet_views(pets@));
    while i > 0
        invariant
            i <= pets@.len(),
            last_folder_with_id(local_pet_views(pets@), id@) == last_folder_with_id(
                local_pet_views(pets@).take(i as int),
                id@,
            ),
        decreases i,
    {
        let ghost v = local_pet_views(pets@).take(i as int);
        assert(v.drop_last() =~= local_pet_views(pets@).take(i - 1));
        if same_text(pets[i - 1].id.as_str(), id) {
            return Some(&pets[i - 1].folder_name);
        }
        i = i - 1;
    }
    None
}

fn count_id(pets: &Vec<LocalPetV1>, id: &str) -> (r: usize)
    ensures
        r == id_count(local_pet_views(pets@), id@),
{
    let n = pets.len();
    let mut count: usize = 0;
    let mut i: usize = 0;
    while i < n
        invariant
            n == pets@.len(),
            i <= n,
            count == id_count(local_pet_views(pets@).take(i as int), id@),
            count <= i,
        decreases n - i,
    {
        proof {
            let v = local_pet_views(pets@);
            assert(v.take(i + 1).drop_last() =~= v.take(i as int));
        }
        if same_text(pets[i].id.as_str(), id) {
            count = count + 1;
        }
        i = i + 1;
    }
    assert(local_pet_views(pets@).take(n as int) =~= local_pet_views(pets@));
    count
}

/// Builds the scan result from the folder entries, given in name order: the
/// pets found, minus every pet whose id more than one folder claims, and the
/// messages for each problem.
pub fn collect_local_pets(folder_path: String, folders: Vec<FolderScan>) -> (r: LocalPetScanV1)
    ensures
        r.folder_path == folder_path,
        local_pet_views(r.pets@) == unique_pets(scan_walk(folders@).0, scan_walk(folders@).0),
        string_views(r.errors@) == scan_walk(folders@).1,
{
    let mut pets: Vec<LocalPetV1> = Vec::new();
    let mut errors: Vec<String> = Vec::new();
    let ghost all = folders@;
    let mut rest = folders;
    let ghost mut i: int = 0;
    while rest.len() > 0
        invariant
            0 <= i <= all.len(),
            rest@ == all.subrange(i, all.len() as int),
            local_pet_views(pets@) == scan_walk(all.take(i)).0,
            string_views(errors@) == scan_walk(all.take(i)).1,
        decreases rest@.len(),
    {
        let f = rest.remove(0);
        proof {
            assert(all.take(i + 1).drop_last() =~= all.take(i));
            assert(all.take(i + 1).last() == f);
        }
        let ghost before_pets = pets@;
        let ghost before_errors = errors@;
        let name = f.folder_name;
        match f.outcome {
            FolderOutcome::Unreadable(why) => {
                let mut m = name.clone();
                m.append("：无法读取（");
                m.append(why.as_str());
                m.append("）");
                errors.push(m);
                assert(string_views(errors@) =~= string_views(before_errors).push(m@));
            },
            FolderOutcome::Skipped => {},
            FolderOutcome::Invalid(why) => {
                let mut m = name.clone();
                m.append("：");
                m.append(why.as_str());
                errors.push(m);
                assert(string_views(errors@) =~= string_views(before_errors).push(m@));
            },
            FolderOutcome::Valid { pet, spritesheet_path } => {
                if same_text(pet.id.as_str(), "yanghao") {
                    let mut m = name.clone();
                    m.append("：宠物 id ‘yanghao’ 为内置宠物保留");
                    errors.push(m);
                    assert(string_views(errors@) =~= string_views(before_errors).push(m@));
                } else {
                    match latest_folder_with_id(&pets, pet.id.as_str()) {
                        Some(first) => {
                            let mut m = name.clone();
                            m.append("：宠物 id ‘");
                            m.append(pet.id.as_str());
                            m.append("’ 已被文件夹 ");
                            m.append(first.as_str());
                            m.append(" 使用");
                            errors.push(m);
                            assert(string_views(errors@) =~= string_views(before_errors).push(m@));
                        },
                        None => {},
                    }
                    let ghost expected = scanned_pet(name@, pet, spritesheet_path);
                    let entry = LocalPetV1 {
                        id: pet.id,
                        version: String::from_str("local"),
                        display_name: pet.display_name,
                        description: pet.description,
                        folder_name: name,
                        sprite_version_number: pet.sprite_version_number,
                        spritesheet_path,
                    };
                    assert(entry@ == expected);
                    pets.push(entry);
                    assert(local_pet_views(pets@) =~= local_pet_views(before_pets).push(expected));
                }
            },
        }
        proof {
            i = i + 1;
            assert(rest@ =~= all.subrange(i, all.len() as int));
        }
    }
    assert(all.take(i) =~= all);
    let ghost walked = local_pet_views(pets@);
    let n = pets.len();
    let mut keep: Vec<bool> = Vec::new();
    let mut k: usize = 0;
    while k < n
        invariant
            n == pets@.len(),
            k <= n,
            keep@.len() == k,
            walked == local_pet_views(pets@),
            forall|j: int| 0 <= j < k ==> keep@[j] == (id_count(walked, walked[j].id) == 1),
        decreases n - k,
    {
        let c = count_id(&pets, pets[k].id.as_str());
        keep.push(c == 1);
        k = k + 1;
    }
    let mut unique: Vec<LocalPetV1> = Vec::new();
    let mut remaining = pets;
    let mut j: usize = 0;
    while remaining.len() > 0
        invariant
            j <= n,
            n == walked.len(),
            keep@.len() == n,
            forall|t: int| 0 <= t < n ==> keep@[t] == (id_count(walked, walked[t].id) == 1),
            local_pet_views(remaining@) == walked.subrange(j as int, n as int),
            local_pet_views(unique@) == unique_pets(walked.take(j as int), walked),
        decreases remaining@.len(),
    {
        let ghost before = unique@;
        let ghost before_remaining = remaining@;
        assert(local_pet_views(before_remaining).len() == before_remaining.len());
        let p = remaining.remove(0);
        proof {
            assert(local_pet_views(before_remaining)[0] == p@);
            assert(local_pet_views(remaining@) =~= local_pet_views(before_remaining).subrange(1, before_remaining.len() as int));
            assert(walked.subrange(j as int, n as int)[0] == p@);
            assert(walked.take(j + 1).drop_last() =~= walked.take(j as int));
            assert(walked.take(j + 1).last() == walked[j as int]);
        }
        if keep[j as usize] {
            unique.push(p);
            assert(local_pet_views(unique@) =~= local_pet_views(before).push(walked[j as int]));
        }
        j = j + 1;
        assert(local_pet_views(remaining@) =~= walked.subrange(j as int, n as int));
    }
    assert(walked.take(j as int) =~= walked);
    LocalPetScanV1 { folder_path, pets: unique, errors }
}

/// Builds the scan result from the folder entries in any order: they are
/// first put in name order, then collected as `collect_local_pets` does.
pub fn scan_folders(folder_path: String, folders: Vec<FolderScan>) -> (r: LocalPetScanV1)
    ensures
        exists|s: Seq<FolderScan>|
            {
                &&& s.to_multiset() == folders@.to_multiset()
                &&& folders_sorted(s)
                &&& r.folder_path == folder_path
                &&& local_pet_views(r.pets@) == unique_pets(scan_walk(s).0, scan_walk(s).0)
                &&& string_views(r.errors@) == scan_walk(s).1
            },
{
    let sorted = sort_folders(folders);
    let ghost s = sorted@;
    let r = collect_local_pets(folder_path, sorted);
    assert(s.to_multiset() == folders@.to_multiset() && folders_sorted(s));
    r
}

/// Keeps the pets whose spritesheet the asset scope allowed, in order, and
/// adds a message for each refused one: `answers[k]` is the scope's answer
/// for `pets[k]`.
pub open spec fn authorization_walk(pets: Seq<LocalPetView>, answers: Seq<Result<(), Seq<char>>>) -> (
    Seq<LocalPetView>,
    Seq<Seq<char>>,
)
    decreases pets.len(),
{
    if pets.len() == 0 || answers.len() != pets.len() {
        (seq![], seq![])
    } else {
        let (kept, errors) = authorization_walk(pets.drop_last(), answers.drop_last());
        match answers.last() {
            Ok(()) => (kept.push(pets.last()), errors),
            Err(why) => (kept, errors.push(pets.last().folder_name + "：无法授权预览图集（"@ + why + "）"@)),
        }
    }
}

pub open spec fn answer_views(v: Seq<Result<(), String>>) -> Seq<Result<(), Seq<char>>> {
    v.map_values(
        |x: Result<(), String>|
            match x {
                Ok(()) => Ok(()),
                Err(m) => Err(m@),
            },
    )
}

/// Applies the asset scope's answers for the scanned pets' spritesheets,
/// one per pet in order: allowed pets stay, each refused pet leaves and its
/// refusal is added to the messages.
pub fn keep_authorized_pets(scan: LocalPetScanV1, answers: Vec<Result<(), String>>) -> (r: LocalPetScanV1)
    requires
        answers@.len() == scan.pets@.len(),
    ensures
        r.folder_path == scan.folder_path,
        local_pet_views(r.pets@) == authorization_walk(local_pet_views(scan.pets@), answer_views(answers@)).0,
        string_views(r.errors@) == string_views(scan.errors@) + authorization_walk(
            local_pet_views(scan.pets@),
            answer_views(answers@),
        ).1,
{
    let LocalPetScanV1 { folder_path, pets, errors } = scan;
    let ghost all = local_pet_views(pets@);
    let ghost said = answer_views(answers@);
    let ghost first_errors = string_views(errors@);
    let mut errors = errors;
    let mut kept: Vec<LocalPetV1> = Vec::new();
    let mut rest = pets;
    let n = answers.len();
    let mut i: usize = 0;
    while i < n
        invariant
            n == answers@.len(),
            n == all.len(),
            i <= n,
            said == answer_views(answers@),
            rest@.len() == n - i,
            local_pet_views(rest@) == all.subrange(i as int, n as int),
            local_pet_views(kept@) == authorization_walk(all.take(i as int), said.take(i as int)).0,
            string_views(errors@) == first_errors + authorization_walk(all.take(i as int), said.take(i as int)).1,
        decreases n - i,
    {
        proof {
            assert(all.take(i + 1).drop_last() =~= all.take(i as int));
            assert(said.take(i + 1).drop_last() =~= said.take(i as int));
            assert(local_pet_views(rest@)[0] == all[i as int]);
        }
        let ghost before_rest = rest@;
        let pet = rest.remove(0);
        assert(pet == before_rest[0]);
        assert(pet@ == all[i as int]);
        let ghost before_kept = kept@;
        let ghost before_errors = errors@;
        match &answers[i] {
            Ok(()) => {
                kept.push(pet);
                assert(local_pet_views(kept@) =~= local_pet_views(before_kept).push(all[i as int]));
            },
            Err(why) => {
                let mut m = pet.folder_name.clone();
                m.append("：无法授权预览图集（");
                m.append(why.as_str());
                m.append("）");
                errors.push(m);
                assert(string_views(errors@) =~= string_views(before_errors).push(m@));
            },
        }
        i = i + 1;
        assert forall|k: int| 0 <= k < rest@.len() implies #[trigger] rest@[k] == before_rest[k + 1] by {}
        assert forall|k: int| 0 <= k < rest@.len() implies #[trigger] local_pet_views(rest@)[k] == local_pet_views(
            before_rest,
        )[k + 1] by {}
        assert(local_pet_views(rest@) =~= all.subrange(i as int, n as int));
    }
    assert(all.take(n as int) =~= all);
    assert(said.take(n as int) =~= said);
    LocalPetScanV1 { folder_path, pets: kept, errors }
}

} // verus!
