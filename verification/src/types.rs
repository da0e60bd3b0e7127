//! Shared value types: instants in time, public identifiers, markdown text,
//! and flash messages.

use vstd::prelude::*;

verus! {

/// Instants are kept as whole seconds relative to the Unix epoch.  The bounds
/// cover every instant the `chrono` crate can represent (roughly +/- 262,000
/// years), so a well-formed instant survives the scheduler's largest
/// stage-times-unit offset without `i64` overflow.
pub const MIN_DATE_SECONDS: i64 = -9_000_000_000_000;

/// Upper bound of [`MIN_DATE_SECONDS`]'s range; see there.
pub const MAX_DATE_SECONDS: i64 = 9_000_000_000_000;

/// An instant in time, in whole seconds since the Unix epoch.
#[derive(Debug, Clone, Copy, PartialEq, Eq, Structural)]
pub struct DateTime {
    pub seconds: i64,
}

/// Names what `chrono::DateTime::parse_from_rfc3339` yields on a given string:
/// the parsed instant's Unix timestamp in seconds, or `None` when the string
/// is not a valid RFC 3339 date-time.
pub uninterp spec fn rfc3339_of(s: Seq<char>) -> Option<i64>;

/// Relies on `chrono::Utc::now`: the current instant's Unix timestamp lies
/// within chrono's representable range.
#[verifier::external_body]
fn now_seconds() -> (r: i64)
    ensures
        MIN_DATE_SECONDS <= r <= MAX_DATE_SECONDS,
{
    chrono::Utc::now().timestamp()
}

/// Relies on `chrono::DateTime::parse_from_rfc3339`: parsing depends on the
/// string alone, and any parsed instant lies within chrono's representable
/// range.
#[verifier::external_body]
fn parse_rfc3339_seconds(s: &str) -> (r: Option<i64>)
    ensures
        r == rfc3339_of(s@),
        match r {
            Some(t) => MIN_DATE_SECONDS <= t <= MAX_DATE_SECONDS,
            None => true,
        },
{
    chrono::DateTime::parse_from_rfc3339(s).ok().map(|dt| dt.timestamp())
}

/// Relies on `chrono_humanize::HumanTime` to render an instant relative to the
/// wall clock ("2 minutes ago"); the wording depends on when it is called, so
/// nothing is promised of it.
#[verifier::external_body]
fn humanize_seconds(seconds: i64) -> String {
    match chrono::DateTime::from_timestamp(seconds, 0) {
        Some(dt) => format!("{}", chrono_humanize::HumanTime::from(dt)),
        None => String::new(),
    }
}

impl DateTime {
    /// A well-formed instant: one within the representable range, far enough
    /// from the `i64` limits for the scheduler's offset arithmetic.
    pub open spec fn wf(self) -> bool {
        MIN_DATE_SECONDS <= self.seconds <= MAX_DATE_SECONDS
    }

    /// The current instant, read from the wall clock.
    pub fn now() -> (r: Self)
        ensures
            r.wf(),
    {
        DateTime { seconds: now_seconds() }
    }

    /// Parses an RFC 3339 date-time; an unparsable string yields the current
    /// instant, as a graceful default.
    pub fn from(string: &str) -> (r: Self)
        ensures
            r.wf(),
            match rfc3339_of(string@) {
                Some(t) => r.seconds == t,
                None => true,
            },
    {
        match parse_rfc3339_seconds(string) {
            Some(t) => DateTime { seconds: t },
            None => DateTime::now(),
        }
    }

    /// This instant shifted by `delta` seconds.
    pub fn plus_seconds(self, delta: i64) -> (r: Self)
        requires
            MIN_DATE_SECONDS * 2 <= self.seconds + delta <= MAX_DATE_SECONDS * 2,
        ensures
            r.seconds == self.seconds + delta,
    {
        DateTime { seconds: self.seconds + delta }
    }

    /// Whether this instant is at or before `other`.
    pub fn le(self, other: Self) -> (r: bool)
        ensures
            r == (self.seconds <= other.seconds),
    {
        self.seconds <= other.seconds
    }

    /// A human-readable phrase for this instant relative to the wall clock.
    pub fn humanize(&self) -> String {
        humanize_seconds(self.seconds)
    }
}

impl Default for DateTime {
    /// Defaults to the current instant.
    fn default() -> (r: Self)
        ensures
            r.wf(),
    {
        DateTime::now()
    }
}

/// Salt fed to the hashid encoder that derives public identifiers.
pub const ID_SALT: &'static str = "
    We can easily forgive a child who is afraid of the dark; the real tragedy of life is when men
    are afraid of the light.";

/// Names what `harsh::Harsh::encode` (default alphabet, the given salt)
/// yields for a single value.
pub uninterp spec fn hashid_of(salt: Seq<char>, value: u64) -> Seq<char>;

/// Relies on `harsh::Harsh::encode` with the builder's default alphabet: the
/// encoding depends only on the salt and the values, and a non-empty value
/// slice encodes to a non-empty string.  `build()` cannot fail when the
/// default alphabet is kept.
#[verifier::external_body]
fn hashid_encode(salt: &str, value: u64) -> (r: String)
    ensures
        r@ == hashid_of(salt@, value),
        r@.len() >= 1,
{
    let ids = harsh::Harsh::builder().salt(salt).build().unwrap();
    ids.encode(&[value])
}

/// A row identifier, convertible to the public identifier that appears in
/// external references.
#[derive(Debug, Clone, Copy, PartialEq, Eq, Structural)]
pub struct Id(pub i64);

impl Id {
    /// The raw row identifier.
    pub fn internal_id(&self) -> (r: i64)
        ensures
            r == self.0,
    {
        self.0
    }

    /// The public identifier: a salted hashid of the row identifier.
    pub fn external_id(&self) -> (r: String)
        requires
            self.0 >= 0,
        ensures
            r@ == hashid_of(ID_SALT@, self.0 as u64),
            r@.len() >= 1,
    {
        hashid_encode(ID_SALT, self.0 as u64)
    }
}

/// Names what `comrak::markdown_to_html` (default options) yields on a given
/// markdown text.
pub uninterp spec fn html_of(markdown: Seq<char>) -> Seq<char>;

/// Relies on `comrak::markdown_to_html` with default options: the rendering
/// depends on the text alone.
#[verifier::external_body]
fn markdown_to_html_string(text: &str) -> (r: String)
    ensures
        r@ == html_of(text@),
{
    comrak::markdown_to_html(text, &comrak::Options::default())
}

/// A piece of markdown text, renderable to HTML.
#[derive(Debug)]
pub struct Markdown {
    pub text: String,
}

impl Clone for Markdown {
    /// A clone carries the same text.
    fn clone(&self) -> (r: Self)
        ensures
            r == *self,
    {
        Markdown { text: self.text.clone() }
    }
}

impl Markdown {
    /// Wraps raw markdown text.
    pub fn from(text: String) -> (r: Self)
        ensures
            r.text == text,
    {
        Markdown { text }
    }

    /// The HTML rendering of the text.
    pub fn markdown(&self) -> (r: String)
        ensures
            r@ == html_of(self.text@),
    {
        markdown_to_html_string(self.text.as_str())
    }
}

/// Whether a string equals a literal, character for character.
pub fn str_is(s: &String, lit: &str) -> (r: bool)
    ensures
        r == (s@ == lit@),
{
    let owned: String = lit.to_owned();
    s.eq(&owned)
}

/// A flash message shown to the user.
#[derive(Debug)]
pub struct Message {
    pub content: String,
    pub level: String,
}

impl Clone for Message {
    /// A clone carries the same content and level.
    fn clone(&self) -> (r: Self)
        ensures
            r == *self,
    {
        Message { content: self.content.clone(), level: self.level.clone() }
    }
}

impl Message {
    /// No messages at all.
    pub fn none() -> (r: Vec<Message>)
        ensures
            r@.len() == 0,
    {
        Vec::new()
    }

    /// A message with the given content and severity level.
    pub fn new(content: &str, level: &str) -> (r: Self)
        ensures
            r.content@ == content@,
            r.level@ == level@,
    {
        Message { content: content.to_owned(), level: level.to_owned() }
    }
}

/// The deployment's configuration values; reading them from the environment
/// belongs to the surrounding application.
#[derive(Debug, Clone)]
pub struct Config {
    pub database_url: String,
    pub session_key: String,
    pub session_domain: String,
    pub rust_log: String,
}

/// Which page is being rendered and for whom; drives navigation highlights.
#[derive(Default)]
pub struct CurrentPage {
    pub path: String,
    pub user: crate::users::User,
}

impl CurrentPage {
    /// A page at `path` viewed by `user`.
    pub fn from(path: &str, user: crate::users::User) -> (r: Self)
        ensures
            r.path@ == path@,
            r.user == user,
    {
        CurrentPage { path: path.to_owned(), user }
    }

    /// Whether this page is the one at `path`.
    pub fn at(&self, path: &str) -> (r: bool)
        ensures
            r == (self.path@ == path@),
    {
        str_is(&self.path, path)
    }

    /// The navigation class for a link to `path`: active exactly on its own
    /// page.
    pub fn active(&self, path: &str) -> (r: &'static str)
        ensures
            self.path@ == path@ ==> r@ == "is-active"@,
            self.path@ != path@ ==> r@ == ""@,
    {
        if self.at(path) {
            "is-active"
        } else {
            ""
        }
    }

    /// Whether a real user is signed in.
    pub fn is_authenticated(&self) -> (r: bool)
        ensures
            r == !self.user.is_anonymous,
    {
        !self.user.is_anonymous
    }

    /// The viewing user's handle.
    pub fn handle(&self) -> (r: String)
        ensures
            r == self.user.handle,
    {
        self.user.handle.clone()
    }
}

} // verus!
