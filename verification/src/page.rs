//! Link-preview extraction: given a fetched page's HTML and the link it came
//! from, pick the preview image and title.  The HTML and URL parsing is done
//! by outside crates; the selection rules are verified here.

use vstd::prelude::*;
use vstd::string::StringExecFns;

use crate::choosers::opt_str_view;
use crate::error::Error;
use crate::types::str_is;

verus! {

/// How a URL parse attempt can end, as far as this module's rules care: a
/// relative URL without a base gets a second chance against the page's own
/// host, any other failure does not.
#[derive(Debug, PartialEq, Eq, Clone, Copy, Structural)]
pub enum UrlKind {
    Valid,
    RelativeNoBase,
    OtherError,
}

/// What `url::Url::parse` yields on a given string: the outcome kind, and
/// for a valid URL its canonical serialization, scheme, and host.
pub struct UrlSpec {
    pub kind: UrlKind,
    pub canon: Seq<char>,
    pub scheme: Seq<char>,
    pub host: Option<Seq<char>>,
}

/// Names what `url::Url::parse` yields on a given string.
pub uninterp spec fn url_spec(s: Seq<char>) -> UrlSpec;

/// A parsed URL's pieces, as plain strings.
#[derive(Debug)]
pub struct UrlInfo {
    pub canon: String,
    pub scheme: String,
    pub host: Option<String>,
}

/// A failed URL parse, split the one way the extraction rules care about.
#[derive(Debug, PartialEq, Eq, Clone, Copy, Structural)]
pub enum UrlErr {
    RelativeUrlWithoutBase,
    Other,
}

/// Relies on `url::Url::parse`: parsing depends on the string alone.  Hands
/// back the parsed URL's canonical serialization, scheme, and host, or which
/// kind of error parsing produced.
#[verifier::external_body]
fn parse_url(s: &str) -> (r: Result<UrlInfo, UrlErr>)
    ensures
        match r {
            Ok(info) => {
                &&& url_spec(s@).kind is Valid
                &&& info.canon@ == url_spec(s@).canon
                &&& info.scheme@ == url_spec(s@).scheme
                &&& opt_str_view(info.host) == url_spec(s@).host
            },
            Err(UrlErr::RelativeUrlWithoutBase) => url_spec(s@).kind is RelativeNoBase,
            Err(UrlErr::Other) => url_spec(s@).kind is OtherError,
        },
{
    match url::Url::parse(s) {
        Ok(u) => Ok(UrlInfo {
            canon: u.to_string(),
            scheme: u.scheme().to_string(),
            host: u.host_str().map(|h| h.to_string()),
        }),
        Err(url::ParseError::RelativeUrlWithoutBase) => Err(UrlErr::RelativeUrlWithoutBase),
        Err(_) => Err(UrlErr::Other),
    }
}

/// Names the `content` attribute of the first `meta[property="og:image"]`
/// element of a fragment, which depends on the fragment text alone.
pub uninterp spec fn og_image_content_of(body: Seq<char>) -> Option<Seq<char>>;

/// Relies on scraper's `Html::parse_fragment` and selector matching to read
/// the open-graph image attribute.  The constant selector is valid, so
/// `Selector::parse` cannot fail on it.
#[verifier::external_body]
fn og_image_content(body: &str) -> (r: Option<String>)
    ensures
        match r {
            Some(c) => og_image_content_of(body@) == Some(c@),
            None => og_image_content_of(body@) is None,
        },
{
    let html = scraper::Html::parse_fragment(body);
    let sel = scraper::Selector::parse("meta[property=\"og:image\"]").unwrap();
    html.select(&sel).next().and_then(|el| el.value().attr("content")).map(|c| c.to_string())
}

/// Names the inner HTML of the first `title` element of a fragment, which
/// depends on the fragment text alone.
pub uninterp spec fn title_of(body: Seq<char>) -> Option<Seq<char>>;

/// Relies on scraper's `Html::parse_fragment` and selector matching to read
/// the title element.  The constant selector is valid, so `Selector::parse`
/// cannot fail on it.
#[verifier::external_body]
fn title_inner_html(body: &str) -> (r: Option<String>)
    ensures
        match r {
            Some(t) => title_of(body@) == Some(t@),
            None => title_of(body@) is None,
        },
{
    let html = scraper::Html::parse_fragment(body);
    let sel = scraper::Selector::parse("title").unwrap();
    html.select(&sel).next().map(|el| el.inner_html())
}

/// Preview image for a known logo host, or for an open-graph content
/// attribute: an absolute content URL wins as it stands; a relative one is
/// retried against the page's own scheme and host; anything else yields
/// nothing.
pub open spec fn extract_meta_image_spec(
    scheme: Seq<char>,
    host: Option<Seq<char>>,
    content: Seq<char>,
) -> Option<Seq<char>> {
    if url_spec(content).kind is Valid {
        Some(url_spec(content).canon)
    } else if url_spec(content).kind is RelativeNoBase {
        match host {
            None => None,
            Some(h) => {
                let derived = scheme + "://"@ + h + content;
                if url_spec(derived).kind is Valid {
                    Some(url_spec(derived).canon)
                } else {
                    None
                }
            },
        }
    } else {
        None
    }
}

/// The canonical serialization of a constant logo URL, when it parses.
pub open spec fn logo_spec(logo: Seq<char>) -> Option<Seq<char>> {
    if url_spec(logo).kind is Valid {
        Some(url_spec(logo).canon)
    } else {
        None
    }
}

/// The whole preview-image rule: fixed logos for two known hosts, the
/// open-graph image otherwise.
pub open spec fn meta_image_spec(
    body: Seq<char>,
    scheme: Seq<char>,
    host: Option<Seq<char>>,
) -> Option<Seq<char>> {
    if host == Some("leetcode.com"@) {
        logo_spec(LEETCODE_LOGO@)
    } else if host == Some("www.reddit.com"@) || host == Some("reddit.com"@) {
        logo_spec(REDDIT_LOGO@)
    } else {
        match og_image_content_of(body) {
            None => None,
            Some(content) => extract_meta_image_spec(scheme, host, content),
        }
    }
}

/// The fixed preview logo used for leetcode links.
pub const LEETCODE_LOGO: &'static str =
    "https://assets.leetcode.com/static_assets/public/icons/favicon-96x96.png";

/// The fixed preview logo used for reddit links.
pub const REDDIT_LOGO: &'static str =
    "https://www.redditstatic.com/desktop2x/img/favicon/favicon-96x96.png";

/// A fetched page: its HTML fragment and the pieces of the link it came
/// from that the extraction rules read.
#[derive(Debug)]
pub struct Page {
    pub body: String,
    pub scheme: String,
    pub host: Option<String>,
}

impl Page {
    /// Wraps a fetched body with its parsed link; an unparsable link is
    /// rejected.
    pub fn parse(body: String, link: String) -> (r: Result<Page, Error>)
        ensures
            match r {
                Ok(p) => {
                    &&& url_spec(link@).kind is Valid
                    &&& p.body == body
                    &&& p.scheme@ == url_spec(link@).scheme
                    &&& opt_str_view(p.host) == url_spec(link@).host
                },
                Err(e) => !(url_spec(link@).kind is Valid) && e is ParseUrl,
            },
    {
        match parse_url(link.as_str()) {
            Ok(info) => Ok(Page { body, scheme: info.scheme, host: info.host }),
            Err(_) => Err(Error::ParseUrl),
        }
    }

    /// The canonical URL of the page's preview image, if any.
    pub fn meta_image(&self) -> (r: Option<String>)
        ensures
            match r {
                Some(u) => meta_image_spec(self.body@, self.scheme@, opt_str_view(self.host))
                    == Some(u@),
                None => meta_image_spec(self.body@, self.scheme@, opt_str_view(self.host)) is None,
            },
    {
        let is_leetcode = match &self.host {
            Some(h) => str_is(h, "leetcode.com"),
            None => false,
        };
        let is_reddit = match &self.host {
            Some(h) => str_is(h, "www.reddit.com") || str_is(h, "reddit.com"),
            None => false,
        };
        if is_leetcode {
            match parse_url(LEETCODE_LOGO) {
                Ok(info) => Some(info.canon),
                Err(_) => None,
            }
        } else if is_reddit {
            match parse_url(REDDIT_LOGO) {
                Ok(info) => Some(info.canon),
                Err(_) => None,
            }
        } else {
            match og_image_content(self.body.as_str()) {
                None => None,
                Some(content) => self.extract_meta_image(content.as_str()),
            }
        }
    }

    /// The page's title text, if it has a title element.
    pub fn title(&self) -> (r: Option<String>)
        ensures
            match r {
                Some(t) => title_of(self.body@) == Some(t@),
                None => title_of(self.body@) is None,
            },
    {
        title_inner_html(self.body.as_str())
    }

    /// Resolves an open-graph content attribute to a canonical image URL,
    /// retrying a relative one against the page's own scheme and host.
    fn extract_meta_image(&self, content: &str) -> (r: Option<String>)
        ensures
            match r {
                Some(u) => extract_meta_image_spec(
                    self.scheme@,
                    opt_str_view(self.host),
                    content@,
                ) == Some(u@),
                None => extract_meta_image_spec(
                    self.scheme@,
                    opt_str_view(self.host),
                    content@,
                ) is None,
            },
    {
        match parse_url(content) {
            Ok(info) => Some(info.canon),
            Err(UrlErr::RelativeUrlWithoutBase) => match &self.host {
                None => None,
                Some(h) => {
                    let mut derived = String::new();
                    derived.append(self.scheme.as_str());
                    derived.append("://");
                    derived.append(h.as_str());
                    derived.append(content);
                    match parse_url(derived.as_str()) {
                        Ok(info) => Some(info.canon),
                        Err(_) => None,
                    }
                },
            },
            Err(UrlErr::Other) => None,
        }
    }
}

} // verus!
