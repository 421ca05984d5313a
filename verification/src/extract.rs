use vstd::prelude::*;
use crate::response::BadgeResponse;
use crate::response::compose_error;
use crate::response::compose_success;
use crate::response::static_fields_ok;
use crate::response::status_code;
use crate::response::status_code_spec;

verus! {

/// The internal failure conditions. Every one of them collapses to the same
/// external error response; the variant is kept for server-side diagnostics.
#[derive(Clone, Copy, Debug, PartialEq, Eq, Structural)]
pub enum SaunadgeError {
    /// The outbound fetch failed: network error, non-200 status, or a body
    /// that could not be read.
    FetchFailed,
    /// The fixed selector failed to compile.
    ParseFailed,
    /// No element of the document matched the selector.
    NotFound,
    /// The first matching element has no text fragments.
    EmptyText,
}

impl SaunadgeError {
    /// A short diagnostic text for server-side logging.
    pub fn describe(&self) -> (r: String)
        ensures
            r@ == self.describe_spec(),
    {
        match self {
            SaunadgeError::FetchFailed => String::from_str("failed to get sakatsu by id"),
            SaunadgeError::ParseFailed => String::from_str("selector failed to compile"),
            SaunadgeError::NotFound => String::from_str("no element matched the selector"),
            SaunadgeError::EmptyText => String::from_str("matched element has no text"),
        }
    }

    /// The diagnostic text of each failure condition.
    pub open spec fn describe_spec(self) -> Seq<char> {
        match self {
            SaunadgeError::FetchFailed => "failed to get sakatsu by id"@,
            SaunadgeError::ParseFailed => "selector failed to compile"@,
            SaunadgeError::NotFound => "no element matched the selector"@,
            SaunadgeError::EmptyText => "matched element has no text"@,
        }
    }
}

/// Whether a selector group text compiles; scraper's `Selector::parse`
/// decides, from the text alone.
pub uninterp spec fn selector_ok(sel: Seq<char>) -> bool;

/// The text fragments of the first element of the document that matches the
/// selector, in traversal order, or `None` when no element matches. The
/// document text and the selector text alone decide it.
pub uninterp spec fn selected_texts(sel: Seq<char>, html: Seq<char>) -> Option<Seq<Seq<char>>>;

/// Relies on scraper's `Selector::parse`: whether a selector group compiles
/// depends on the selector text alone.
#[verifier::external_body]
fn selector_compiles(sel: &str) -> (r: bool)
    ensures
        r == selector_ok(sel@),
{
    scraper::Selector::parse(sel).is_ok()
}

/// Relies on scraper's `Html::parse_document`, `Html::select` and
/// `ElementRef::text`: parsing a document is deterministic, `select` yields
/// the matching elements in document order, and `text` yields an element's
/// descendant text fragments in traversal order, all of it a function of the
/// selector text and the document text alone.
#[verifier::external_body]
fn select_first_texts(sel: &str, html: &str) -> (r: Option<Vec<String>>)
    requires
        selector_ok(sel@),
    ensures
        r.deep_view() == selected_texts(sel@, html@),
{
    let selector = scraper::Selector::parse(sel).unwrap();
    let document = scraper::Html::parse_document(html);
    document.select(&selector).next().map(|element| element.text().map(|t| t.to_string()).collect())
}

/// The fixed class selector that locates the statistic on a profile page.
pub open spec fn nav_count_selector_spec() -> Seq<char> {
    ".p-localNav_count"@
}

/// The fixed class selector as text.
pub fn nav_count_selector() -> (r: &'static str)
    ensures
        r@ == nav_count_selector_spec(),
{
    ".p-localNav_count"
}

/// What extraction returns on a fetched page body: the first text fragment
/// of the first element matching the fixed selector, or the failure
/// condition that stops it.
pub open spec fn extract_spec(html: Seq<char>) -> Result<Seq<char>, SaunadgeError> {
    if !selector_ok(nav_count_selector_spec()) {
        Err(SaunadgeError::ParseFailed)
    } else {
        match selected_texts(nav_count_selector_spec(), html) {
            None => Err(SaunadgeError::NotFound),
            Some(texts) => if texts.len() == 0 {
                Err(SaunadgeError::EmptyText)
            } else {
                Ok(texts[0])
            },
        }
    }
}

/// Extracts the statistic from a fetched profile page body: the first text
/// fragment of the first element with class `p-localNav_count`.
pub fn extract_sakatsu(html: &str) -> (r: Result<String, SaunadgeError>)
    ensures
        (match extract_spec(html@) {
            Ok(s) => r matches Ok(m) && m@ == s,
            Err(e) => r matches Err(a) && a == e,
        }),
{
    let sel = nav_count_selector();
    if !selector_compiles(sel) {
        return Err(SaunadgeError::ParseFailed);
    }
    match select_first_texts(sel, html) {
        None => Err(SaunadgeError::NotFound),
        Some(texts) => {
            if texts.len() == 0 {
                Err(SaunadgeError::EmptyText)
            } else {
                Ok(texts[0].clone())
            }
        },
    }
}

/// The profile page URL for one identifier: plain interpolation into the
/// fixed template, with no escaping of the identifier.
pub open spec fn profile_url_spec(id: Seq<char>) -> Seq<char> {
    "https://sauna-ikitai.com/saunners/"@ + id
}

/// Builds the outbound URL for one identifier.
pub fn profile_url(id: &str) -> (r: String)
    ensures
        r@ == profile_url_spec(id@),
{
    let mut s = String::from_str("https://sauna-ikitai.com/saunners/");
    s.append(id);
    s
}

/// What the outbound HTTP GET for a profile page came back with: the status
/// and the decoded body, or a connection or body-read failure.
pub enum FetchOutcome {
    Fetched { status: u16, body: String },
    Failed,
}

/// What the pipeline returns on a fetch outcome: the extracted statistic of
/// a 200 body, or the failure condition that stops it.
pub open spec fn sakatsu_spec(fetch: FetchOutcome) -> Result<Seq<char>, SaunadgeError> {
    match fetch {
        FetchOutcome::Failed => Err(SaunadgeError::FetchFailed),
        FetchOutcome::Fetched { status, body } => {
            if status != 200 {
                Err(SaunadgeError::FetchFailed)
            } else {
                extract_spec(body@)
            }
        },
    }
}

/// The statistic for one profile page fetch: rejects anything but a 200
/// response, then extracts from the body.
pub fn get_sakatsu(fetch: &FetchOutcome) -> (r: Result<String, SaunadgeError>)
    ensures
        (match sakatsu_spec(*fetch) {
            Ok(s) => r matches Ok(m) && m@ == s,
            Err(e) => r matches Err(a) && a == e,
        }),
{
    match fetch {
        FetchOutcome::Failed => Err(SaunadgeError::FetchFailed),
        FetchOutcome::Fetched { status, body } => {
            if *status != 200 {
                Err(SaunadgeError::FetchFailed)
            } else {
                extract_sakatsu(body.as_str())
            }
        },
    }
}

/// The whole handler on one fetch outcome: the badge response and the HTTP
/// status to serve it with. A successful extraction gives the statistic with
/// status 200; every failure gives the fixed error message with status 500.
pub fn badge(fetch: &FetchOutcome) -> (r: (BadgeResponse, u16))
    ensures
        static_fields_ok(r.0),
        r.0.is_error == (sakatsu_spec(*fetch) is Err),
        r.1 == status_code_spec(r.0.is_error),
        sakatsu_spec(*fetch) matches Ok(s) ==> r.0.message@ == s,
        sakatsu_spec(*fetch) is Err ==> r.0.message@ == "error"@,
{
    match get_sakatsu(fetch) {
        Ok(s) => {
            let resp = compose_success(s);
            let code = status_code(&resp);
            (resp, code)
        },
        Err(_) => {
            let resp = compose_error();
            let code = status_code(&resp);
            (resp, code)
        },
    }
}

} // verus!
