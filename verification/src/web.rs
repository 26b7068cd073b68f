//! The parts of a URL that the configuration and network rules read, taken
//! from the `url` crate's parser.
use vstd::prelude::*;

verus! {

/// The scheme and host of a parsed URL.
pub struct UrlParts {
    pub scheme: String,
    pub host: Option<String>,
}

/// What `url::Url::parse` makes of `input`: the URL's scheme and its host
/// (`Url::host_str`), or the text of the parse error.
pub uninterp spec fn url_parse(input: Seq<char>) -> Result<(Seq<char>, Option<Seq<char>>), Seq<char>>;

pub open spec fn opt_view(o: Option<String>) -> Option<Seq<char>> {
    match o {
        Some(s) => Some(s@),
        None => None,
    }
}

pub open spec fn url_parts_view(r: Result<UrlParts, String>) -> Result<
    (Seq<char>, Option<Seq<char>>),
    Seq<char>,
> {
    match r {
        Ok(u) => Ok((u.scheme@, opt_view(u.host))),
        Err(e) => Err(e@),
    }
}

/// Parses `input` with `url::Url::parse` and keeps the scheme, the host
/// (`Url::host_str`) and, on failure, the error's `Display` text. The contract
/// claims only that the outcome is the one `url_parse` names for `input`: the
/// parser is a function of its input alone.
#[verifier::external_body]
pub(crate) fn parse_url(input: &str) -> (r: Result<UrlParts, String>)
    ensures
        url_parts_view(r) == url_parse(input@),
{
    match url::Url::parse(input) {
        Ok(u) => Ok(UrlParts { scheme: u.scheme().to_string(), host: u.host_str().map(String::from) }),
        Err(e) => Err(e.to_string()),
    }
}

} // verus!
