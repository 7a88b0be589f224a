//! The parts of a URL.
use crate::text;
use vstd::prelude::*;

verus! {

/// The parts of a URL that requests and sessions are made from.
#[derive(Debug)]
pub struct UrlParts {
    pub scheme: String,
    pub host: Option<String>,
    /// The port, where it is not the usual one of the scheme.
    pub port: Option<u16>,
    pub path: String,
    pub query: Option<String>,
}

/// The parts of a URL, over characters.
#[verifier::ext_equal]
pub struct UrlText {
    pub scheme: Seq<char>,
    pub host: Option<Seq<char>>,
    pub port: Option<u16>,
    pub path: Seq<char>,
    pub query: Option<Seq<char>>,
}

impl View for UrlParts {
    type V = UrlText;

    open spec fn view(&self) -> UrlText {
        UrlText {
            scheme: self.scheme@,
            host: text::text_in(self.host),
            port: self.port,
            path: self.path@,
            query: text::text_in(self.query),
        }
    }
}

/// What came of reading a URL, over characters.
pub open spec fn read_as(parsed: Result<UrlParts, String>) -> Result<UrlText, Seq<char>> {
    match parsed {
        Ok(parts) => Ok(parts@),
        Err(e) => Err(e@),
    }
}

/// What `url::Url::parse` makes of `text`: the parts of the URL, or the message of the error.
pub uninterp spec fn url_in(text: Seq<char>) -> Result<UrlText, Seq<char>>;

/// Calls `url::Url::parse` and hands out the parts that the URL's own methods give, or the message of
/// the error. Both depend on `text` alone; the grammar of URLs is left unsaid.
#[verifier::external_body]
pub(crate) fn parse_url(text: &str) -> (parsed: Result<UrlParts, String>)
    ensures
        read_as(parsed) == url_in(text@),
{
    let url = url::Url::parse(text).map_err(|e| e.to_string())?;
    Ok(UrlParts {
        scheme: url.scheme().to_string(),
        host: url.host_str().map(|host| host.to_string()),
        port: url.port(),
        path: url.path().to_string(),
        query: url.query().map(|query| query.to_string()),
    })
}

/// The parts of a URL are what its fields hold, each under its own name.
pub proof fn law_parts_hold_what_was_read(parts: UrlParts, e: String)
    ensures
        parts@.scheme == parts.scheme@,
        parts.host matches Some(host) ==> parts@.host == Some(host@),
        parts.host is None ==> parts@.host is None,
        parts@.port == parts.port,
        parts@.path == parts.path@,
        parts.query matches Some(query) ==> parts@.query == Some(query@),
        parts.query is None ==> parts@.query is None,
        read_as(Ok(parts)) == Ok::<_, Seq<char>>(parts@),
        read_as(Err(e)) == Err::<UrlText, _>(e@),
{
}

} // verus!
