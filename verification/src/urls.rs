//! URLs as the validators read them: scheme, host and path, as the `url`
//! crate parses them.

use vstd::prelude::*;
use crate::text::same_text;

verus! {

/// The parts of a parsed URL that the validators read.
#[derive(Debug)]
pub struct UrlParts {
    pub scheme: String,
    pub host: Option<String>,
    pub path: String,
}

impl View for UrlParts {
    type V = (Seq<char>, Option<Seq<char>>, Seq<char>);

    open spec fn view(&self) -> (Seq<char>, Option<Seq<char>>, Seq<char>) {
        (
            self.scheme@,
            match self.host {
                Some(h) => Some(h@),
                None => None,
            },
            self.path@,
        )
    }
}

/// What `url::Url::parse` makes of a text: the URL's scheme, host and
/// path, or the text of the parse error.
pub uninterp spec fn url_parsing(raw: Seq<char>) -> Result<(Seq<char>, Option<Seq<char>>, Seq<char>), Seq<char>>;

/// `url::Url::parse`, read out by `scheme`, `host_str` and `path`, or the
/// parse error's `to_string`. Its result is named by `url_parsing`.
#[verifier::external_body]
fn parse_url(raw: &str) -> (r: Result<UrlParts, String>)
    ensures
        match url_parsing(raw@) {
            Ok(v) => r matches Ok(p) && p@ == v,
            Err(m) => r matches Err(x) && x@ == m,
        },
{
    match url::Url::parse(raw) {
        Ok(url) => Ok(
            UrlParts {
                scheme: url.scheme().to_string(),
                host: url.host_str().map(|h| h.to_string()),
                path: url.path().to_string(),
            },
        ),
        Err(error) => Err(error.to_string()),
    }
}

impl UrlParts {
    /// Parses a URL; a refused text is answered with the parser's message.
    pub fn parse(raw: &str) -> (r: Result<UrlParts, String>)
        ensures
            match url_parsing(raw@) {
                Ok(v) => r matches Ok(p) && p@ == v,
                Err(m) => r matches Err(x) && x@ == m,
            },
    {
        parse_url(raw)
    }

    pub fn is_https(&self) -> (r: bool)
        ensures
            r == (self.scheme@ == "https"@),
    {
        same_text(self.scheme.as_str(), "https")
    }

    pub fn host_is(&self, host: &str) -> (r: bool)
        ensures
            r == (self@.1 == Some(host@)),
    {
        match &self.host {
            Some(h) => same_text(h.as_str(), host),
            None => false,
        }
    }
}

} // verus!
