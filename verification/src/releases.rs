//! Where pet packages and the catalog come from: the project's GitHub
//! repository, its release assets, and the limits on what is downloaded.

use vstd::prelude::*;
use crate::text::{
    contains_part, contains_part_exec, split_on, split_on_exec, starts_with, strip_prefix_exec,
    trim_start_matches, trim_start_matches_exec, same_text,
};
use crate::urls::{url_parsing, UrlParts};

verus! {

/// The project's home page.
pub const PROJECT_URL: &'static str = "https://github.com/taoquanooo/DeskMate";

/// The repository (`owner/name`) of the project.
pub fn repository_slug() -> (r: String)
    ensures
        r@ == trim_start_matches(PROJECT_URL@, "https://github.com/"@),
{
    trim_start_matches_exec(PROJECT_URL, "https://github.com/")
}

/// The parts of an HTTPS `github.com` release download URL
/// `/owner/repo/releases/download/tag/.../asset`: the repository
/// `owner/repo`, the tag, and the (non-empty) last path segment.
pub open spec fn release_download_parts(url: (Seq<char>, Option<Seq<char>>, Seq<char>)) -> Option<
    (Seq<char>, Seq<char>, Seq<char>),
> {
    if url.0 != "https"@ || url.1 != Some("github.com"@) {
        None
    } else if !starts_with(url.2, "/"@) {
        None
    } else {
        let segments = split_on(url.2.subrange(1, url.2.len() as int), '/');
        if segments.len() >= 6 && segments[2] == "releases"@ && segments[3] == "download"@
            && segments.last().len() > 0 {
            Some((segments[0] + "/"@ + segments[1], segments[4], segments.last()))
        } else {
            None
        }
    }
}

/// Splits a release download URL into repository, tag and asset name, so
/// the same asset can be fetched through the GitHub API.
pub fn github_release_download_parts(url: &UrlParts) -> (r: Option<(String, String, String)>)
    ensures
        match release_download_parts(url@) {
            None => r is None,
            Some((a, b, c)) => r matches Some((x, y, z)) && x@ == a && y@ == b && z@ == c,
        },
{
    if !url.is_https() || !url.host_is("github.com") {
        return None;
    }
    let rest = match strip_prefix_exec(url.path.as_str(), "/") {
        Some(rest) => rest,
        None => return None,
    };
    proof {
        reveal_strlit("/");
        assert(rest@ =~= url@.2.subrange(1, url@.2.len() as int));
    }
    let segments = split_on_exec(rest.as_str(), '/');
    let n = segments.len();
    proof {
        assert(segments@.map_values(|x: String| x@).len() == n);
    }
    if n >= 6 && same_text(segments[2].as_str(), "releases") && same_text(
        segments[3].as_str(),
        "download",
    ) {
        let last = &segments[n - 1];
        assert(segments@.map_values(|x: String| x@).last() == last@);
        if last.as_str().unicode_len() > 0 {
            let mut repository = segments[0].clone();
            repository.append("/");
            repository.append(segments[1].as_str());
            return Some((repository, segments[4].clone(), last.clone()));
        }
    }
    None
}

/// A package URL is accepted only as an HTTPS `github.com` release asset.
pub open spec fn package_url_verdict(raw: Seq<char>) -> Result<(Seq<char>, Option<Seq<char>>, Seq<char>), Seq<char>> {
    match url_parsing(raw) {
        Err(m) => Err(m),
        Ok(u) => if u.0 != "https"@ || u.1 != Some("github.com"@) || !contains_part(
            u.2,
            "/releases/download/"@,
        ) {
            Err("pet packages must be immutable GitHub Release HTTPS assets"@)
        } else {
            Ok(u)
        },
    }
}

/// Checks a catalog entry's package URL before anything is downloaded.
pub fn check_package_url(raw: &str) -> (r: Result<UrlParts, String>)
    ensures
        match package_url_verdict(raw@) {
            Ok(v) => r matches Ok(u) && u@ == v,
            Err(m) => r matches Err(x) && x@ == m,
        },
{
    let url = UrlParts::parse(raw)?;
    if !url.is_https() || !url.host_is("github.com") || !contains_part_exec(
        url.path.as_str(),
        "/releases/download/",
    ) {
        return Err(String::from_str("pet packages must be immutable GitHub Release HTTPS assets"));
    }
    Ok(url)
}

/// The GitHub API's asset URL is accepted only on `api.github.com` over
/// HTTPS.
pub open spec fn asset_api_url_verdict(raw: Seq<char>) -> Result<(Seq<char>, Option<Seq<char>>, Seq<char>), Seq<char>> {
    match url_parsing(raw) {
        Err(m) => Err(m),
        Ok(u) => if u.0 != "https"@ || u.1 != Some("api.github.com"@) {
            Err("release asset API URL must be api.github.com HTTPS"@)
        } else {
            Ok(u)
        },
    }
}

pub fn check_asset_api_url(raw: &str) -> (r: Result<UrlParts, String>)
    ensures
        match asset_api_url_verdict(raw@) {
            Ok(v) => r matches Ok(u) && u@ == v,
            Err(m) => r matches Err(x) && x@ == m,
        },
{
    let url = UrlParts::parse(raw)?;
    if !url.is_https() || !url.host_is("api.github.com") {
        return Err(String::from_str("release asset API URL must be api.github.com HTTPS"));
    }
    Ok(url)
}

/// The largest pet package that is downloaded: 25 MiB.
pub const MAX_PET_PACKAGE_BYTES: u64 = 26_214_400;

/// The largest catalog that is downloaded: 2 MiB.
pub const MAX_CATALOG_BYTES: u64 = 2_097_152;

/// Seconds after start before the catalog is first refreshed.
pub const CATALOG_FIRST_REFRESH_SECONDS: u64 = 20;

/// Seconds between later catalog refreshes: six hours.
pub const CATALOG_REFRESH_SECONDS: u64 = 21_600;

/// A package download is refused up front when the server announces a size
/// other than the catalog's, or one above the package limit.
pub fn package_length_acceptable(announced: Option<u64>, expected: u64) -> (r: bool)
    ensures
        r == !(announced matches Some(n) && (n != expected || n > MAX_PET_PACKAGE_BYTES)),
{
    match announced {
        Some(n) => !(n != expected || n > MAX_PET_PACKAGE_BYTES),
        None => true,
    }
}

/// A limited download is refused up front when the announced size is above
/// the limit.
pub fn length_within(announced: Option<u64>, maximum: u64) -> (r: bool)
    ensures
        r == !(announced matches Some(n) && n > maximum),
{
    match announced {
        Some(n) => n <= maximum,
        None => true,
    }
}

/// A received chunk is accepted while the bytes gathered stay within the
/// limit.
pub fn chunk_fits(received: u64, chunk: u64, maximum: u64) -> (r: bool)
    ensures
        r == (received + chunk <= maximum),
{
    chunk <= maximum && received <= maximum - chunk
}

/// The server announced more than `limit` bytes.
pub open spec fn announces_more(announced: Option<u64>, limit: int) -> bool {
    announced matches Some(n) && n > limit
}

/// The server announced a package size other than the catalog's, or one
/// above the package limit.
pub open spec fn announces_other_package(announced: Option<u64>, expected: u64) -> bool {
    announced matches Some(n) && (n != expected || n > MAX_PET_PACKAGE_BYTES)
}

/// A download in progress: the bytes received so far, the most it may
/// hold, and the message that refuses a chunk that would go past it.
pub struct Download {
    bytes: Vec<u8>,
    limit: u64,
    refusal: String,
}

impl Download {
    pub closed spec fn received(&self) -> Seq<u8> {
        self.bytes@
    }

    pub closed spec fn byte_limit(&self) -> u64 {
        self.limit
    }

    pub closed spec fn refusal_message(&self) -> Seq<char> {
        self.refusal@
    }

    /// Starts a download of at most `limit` bytes; a response announcing
    /// more is refused with "`label` is too large", as is a chunk that
    /// would go past the limit.
    pub fn begin_limited(announced: Option<u64>, limit: u64, label: &str) -> (r: Result<
        Download,
        String,
    >)
        ensures
            match r {
                Err(m) => announces_more(announced, limit as int) && m@ == label@ + " is too large"@,
                Ok(d) => !announces_more(announced, limit as int) && d.received() == Seq::<u8>::empty()
                    && d.byte_limit() == limit && d.refusal_message() == label@ + " is too large"@,
            },
    {
        let mut refusal = String::from_str(label);
        refusal.append(" is too large");
        if length_within(announced, limit) {
            Ok(Download { bytes: Vec::new(), limit, refusal })
        } else {
            Err(refusal)
        }
    }

    /// Starts a pet package download: a response announcing a size other
    /// than the catalog's, or one above the package limit, is refused; a
    /// chunk that would go past the package limit is refused with "pet
    /// package is too large".
    pub fn begin_package(announced: Option<u64>, expected: u64) -> (r: Result<Download, String>)
        ensures
            match r {
                Err(m) => announces_other_package(announced, expected) && m@
                    == "pet download size does not match the catalog"@,
                Ok(d) => !announces_other_package(announced, expected) && d.received() == Seq::<
                    u8,
                >::empty() && d.byte_limit() == MAX_PET_PACKAGE_BYTES && d.refusal_message()
                    == "pet package is too large"@,
            },
    {
        if package_length_acceptable(announced, expected) {
            Ok(
                Download {
                    bytes: Vec::new(),
                    limit: MAX_PET_PACKAGE_BYTES,
                    refusal: String::from_str("pet package is too large"),
                },
            )
        } else {
            Err(String::from_str("pet download size does not match the catalog"))
        }
    }

    /// Adds a received chunk, answering the number of bytes received so far;
    /// a chunk that would take the total past the limit is refused and
    /// nothing changes.
    pub fn accept(&mut self, chunk: &[u8]) -> (r: Result<u64, String>)
        ensures
            final(self).byte_limit() == old(self).byte_limit(),
            final(self).refusal_message() == old(self).refusal_message(),
            match r {
                Ok(total) => old(self).received().len() + chunk@.len() <= old(self).byte_limit()
                    && total == old(self).received().len() + chunk@.len() && final(self).received()
                    == old(self).received() + chunk@,
                Err(m) => old(self).received().len() + chunk@.len() > old(self).byte_limit() && m@
                    == old(self).refusal_message() && final(self).received() == old(self).received(),
            },
    {
        let received = self.bytes.len() as u64;
        let size = chunk.len() as u64;
        if !chunk_fits(received, size, self.limit) {
            return Err(self.refusal.clone());
        }
        self.bytes.extend_from_slice(chunk);
        assert(self.bytes@ =~= old(self).received() + chunk@);
        Ok(received + size)
    }

    /// The bytes received.
    pub fn finish(self) -> (r: Vec<u8>)
        ensures
            r@ == self.received(),
    {
        self.bytes
    }

    /// The package bytes, provided they are exactly the size the catalog
    /// gives.
    pub fn finish_package(self, expected: u64) -> (r: Result<Vec<u8>, String>)
        ensures
            match r {
                Ok(v) => self.received().len() == expected && v@ == self.received(),
                Err(m) => self.received().len() != expected && m@
                    == "pet download size does not match the catalog"@,
            },
    {
        if self.bytes.len() as u64 != expected {
            return Err(String::from_str("pet download size does not match the catalog"));
        }
        Ok(self.bytes)
    }
}

} // verus!
