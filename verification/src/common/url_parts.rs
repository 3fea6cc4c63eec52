//! URLs, taken apart.
use vstd::prelude::*;
use vstd::string::*;

use url::Url;

verus! {

/// The parts of a parsed URL that the library reads.
#[derive(Clone, Debug, PartialEq, Eq)]
pub struct UrlParts {
    pub scheme: String,
    pub host: Option<String>,
    /// The port where it is written and not the scheme's own.
    pub port: Option<u16>,
    /// The port, or the scheme's own where it is known.
    pub known_port: Option<u16>,
    pub path: String,
    pub query: Option<String>,
    /// The whole URL in its normal form.
    pub text: String,
}

/// What `UrlParts` stands for.
#[verifier::ext_equal]
pub struct UrlModel {
    pub scheme: Seq<char>,
    pub host: Option<Seq<char>>,
    pub port: Option<u16>,
    pub known_port: Option<u16>,
    pub path: Seq<char>,
    pub query: Option<Seq<char>>,
    pub text: Seq<char>,
}

/// The text of an optional string.
pub open spec fn optional_text(s: Option<String>) -> Option<Seq<char>> {
    match s {
        Some(t) => Some(t@),
        None => None,
    }
}

impl View for UrlParts {
    type V = UrlModel;

    open spec fn view(&self) -> UrlModel {
        UrlModel {
            scheme: self.scheme@,
            host: optional_text(self.host),
            port: self.port,
            known_port: self.known_port,
            path: self.path@,
            query: optional_text(self.query),
            text: self.text@,
        }
    }
}

/// What a parse came to: the parts, or why there are none.
pub open spec fn parse_view(r: Result<UrlParts, String>) -> Result<UrlModel, Seq<char>> {
    match r {
        Ok(p) => Ok(p@),
        Err(e) => Err(e@),
    }
}

/// What `Url::parse` makes of a text: the URL's parts as its accessors give
/// them, or the message of the error.
pub uninterp spec fn url_parse(s: Seq<char>) -> Result<UrlModel, Seq<char>>;

/// `Url::parse`, its result read with `scheme`, `host_str`, `port`,
/// `port_or_known_default`, `path`, `query` and `as_str`. What a given text
/// parses to is left to the name.
#[verifier::external_body]
pub(crate) fn parse_url(s: &str) -> (r: Result<UrlParts, String>)
    ensures
        parse_view(r) == url_parse(s@),
{
    let u = Url::parse(s).map_err(|e| e.to_string())?;
    Ok(
        UrlParts {
            scheme: u.scheme().to_string(),
            host: u.host_str().map(str::to_string),
            port: u.port(),
            known_port: u.port_or_known_default(),
            path: u.path().to_string(),
            query: u.query().map(str::to_string),
            text: u.as_str().to_string(),
        },
    )
}

} // verus!
