//! Bootstrapping a session: the two page loads, the login-page test, and the
//! scraping of the session tokens and the account email from the app page.
use vstd::prelude::*;
use vstd::string::*;
use crate::endpoints::{GOOGLE, app, app_url};
use crate::error::{Failure, GeminiError};
use crate::request::{HttpRequest, Method, RequestV, opt_view};
use crate::text::{chars_of, contains, contains_exec, ends_with, ends_with_exec};

verus! {

/// `regex::Regex`, a compiled pattern.
#[verifier::external_type_specification]
#[verifier::external_body]
pub struct ExRegex(regex::Regex);

/// Pattern of the access token (`at`) the RPCs carry.
pub const SNLM0E: &'static str = "\"SNlM0e\":\\s*\"([^\"]+)\"";

/// Pattern of the frontend build label (`bl`).
pub const BUILD_LABEL: &'static str = "\"cfb2h\":\\s*\"([^\"]+)\"";

/// Pattern of the frontend session id (`f.sid`).
pub const SESSION_ID: &'static str = "\"FdrFJe\":\\s*\"([^\"]+)\"";

/// Pattern of an email address.
pub const EMAIL: &'static str = "[A-Za-z0-9._%+-]+@[A-Za-z0-9.-]+\\.[A-Za-z]{2,}";

/// The tokens a bootstrapped session carries.
pub struct Session {
    pub access_token: String,
    pub build_label: String,
    pub session_id: String,
    pub email: String,
}

/// The mathematical content of a session.
pub struct SessionV {
    pub access_token: Seq<char>,
    pub build_label: Seq<char>,
    pub session_id: Seq<char>,
    pub email: Seq<char>,
}

impl View for Session {
    type V = SessionV;

    open spec fn view(&self) -> SessionV {
        SessionV {
            access_token: self.access_token@,
            build_label: self.build_label@,
            session_id: self.session_id@,
            email: self.email@,
        }
    }
}

impl Session {
    /// The account email the app page showed.
    pub fn email(&self) -> (r: &str)
        ensures
            r@ == self.email@,
    {
        self.email.as_str()
    }
}

/// A compiled pattern together with the text it was compiled from.
pub struct Pattern {
    re: regex::Regex,
    source: String,
}

impl Pattern {
    /// The text the pattern was compiled from.
    pub closed spec fn source(&self) -> Seq<char> {
        self.source@
    }
}

/// Whether `regex` accepts a pattern text.
pub uninterp spec fn regex_valid(pattern: Seq<char>) -> bool;

/// Capture group 1 of the leftmost match of a pattern, if it matches and the
/// group takes part.
pub uninterp spec fn regex_first_group(pattern: Seq<char>, hay: Seq<char>) -> Option<Seq<char>>;

/// The successive non-overlapping matches of a pattern, leftmost first.
pub uninterp spec fn regex_matches(pattern: Seq<char>, hay: Seq<char>) -> Seq<Seq<char>>;

/// The patterns this library itself compiles.
pub open spec fn is_library_pattern(p: Seq<char>) -> bool {
    p == SNLM0E@ || p == BUILD_LABEL@ || p == SESSION_ID@ || p == EMAIL@
}

/// Compiles a pattern with `regex::Regex::new`. Trusted: it succeeds exactly
/// where `regex_valid` holds of the text, and it succeeds on the library's
/// own patterns, which use only literals, `\s`, classes, groups and bounded
/// or unbounded repetition, all in `regex`'s syntax and far below its size
/// limit. Of other texts nothing more is stated.
#[verifier::external_body]
fn compile(pattern: &str) -> (r: Result<Pattern, regex::Error>)
    ensures
        r is Ok <==> regex_valid(pattern@),
        is_library_pattern(pattern@) ==> r is Ok,
        r matches Ok(p) ==> p.source() == pattern@,
{
    match regex::Regex::new(pattern) {
        Ok(re) => Ok(Pattern { re, source: pattern.to_string() }),
        Err(e) => Err(e),
    }
}

/// Capture group 1 of the leftmost match, by `Regex::captures` and
/// `Captures::get(1)`. Trusted: the result is `regex_first_group` of the
/// pattern's text and the haystack.
#[verifier::external_body]
fn first_group(p: &Pattern, hay: &str) -> (r: Option<String>)
    ensures
        opt_view(r) == regex_first_group(p.source(), hay@),
{
    match p.re.captures(hay) {
        Some(caps) => match caps.get(1) {
            Some(m) => Some(m.as_str().to_string()),
            None => None,
        },
        None => None,
    }
}

/// All matches, by `Regex::find_iter`. Trusted: the result is
/// `regex_matches` of the pattern's text and the haystack.
#[verifier::external_body]
fn all_matches(p: &Pattern, hay: &str) -> (r: Vec<String>)
    ensures
        r@.map_values(|s: String| s@) == regex_matches(p.source(), hay@),
{
    p.re.find_iter(hay).map(|m| m.as_str().to_string()).collect()
}

/// Group 1 of the first match of a pattern that compiled, or `TokenAbsent`.
pub open spec fn group_outcome(html: Seq<char>, pattern: Seq<char>) -> Result<Seq<char>, Failure> {
    match regex_first_group(pattern, html) {
        Some(s) => Ok(s),
        None => Err(Failure::TokenAbsent),
    }
}

/// What scraping group 1 of `pattern` out of `html` gives.
pub open spec fn scrape_spec(html: Seq<char>, pattern: Seq<char>) -> Result<Seq<char>, Failure> {
    if !regex_valid(pattern) {
        Err(Failure::Regex)
    } else {
        group_outcome(html, pattern)
    }
}

/// Capture group 1 of the first match of `pattern` in `html`. The library's
/// own patterns always compile.
pub fn scrape(html: &str, pattern: &str) -> (r: Result<String, GeminiError>)
    ensures
        match r {
            Ok(s) => scrape_spec(html@, pattern@) == Ok::<Seq<char>, Failure>(s@),
            Err(e) => scrape_spec(html@, pattern@) == Err::<Seq<char>, Failure>(e.failure()),
        },
        is_library_pattern(pattern@) ==> match r {
            Ok(s) => group_outcome(html@, pattern@) == Ok::<Seq<char>, Failure>(s@),
            Err(e) => group_outcome(html@, pattern@) == Err::<Seq<char>, Failure>(e.failure()),
        },
{
    let re = match compile(pattern) {
        Ok(re) => re,
        Err(e) => {
            return Err(GeminiError::Regex(e));
        },
    };
    match first_group(&re, html) {
        Some(s) => Ok(s),
        None => Err(GeminiError::TokenAbsent),
    }
}

/// A candidate address that belongs to Google's own assets, not an account.
pub open spec fn is_asset_address(c: Seq<char>) -> bool {
    ends_with(c, "google.com"@) || ends_with(c, "gstatic.com"@) || ends_with(c, "googleapis.com"@)
}

/// The first candidate from position `i` on that is not an asset address.
pub open spec fn email_from(cands: Seq<Seq<char>>, i: int) -> Option<Seq<char>>
    decreases cands.len() - i,
{
    if 0 <= i < cands.len() {
        if is_asset_address(cands[i]) {
            email_from(cands, i + 1)
        } else {
            Some(cands[i])
        }
    } else {
        None
    }
}

/// Email law: the email is the first candidate that ends in none of
/// `google.com`, `gstatic.com`, `googleapis.com`; every candidate before it
/// ends in one of them, and where every candidate does, there is no email.
/// No other address is ever skipped.
pub proof fn law_first_account_address_is_email(cands: Seq<Seq<char>>)
    ensures
        forall|i: int|
            0 <= i < cands.len() && !ends_with(#[trigger] cands[i], "google.com"@) && !ends_with(
                cands[i],
                "gstatic.com"@,
            ) && !ends_with(cands[i], "googleapis.com"@) && (forall|j: int|
                0 <= j < i ==> ends_with(#[trigger] cands[j], "google.com"@) || ends_with(
                    cands[j],
                    "gstatic.com"@,
                ) || ends_with(cands[j], "googleapis.com"@)) ==> email_from(cands, 0) == Some(
                cands[i],
            ),
        (forall|j: int|
            0 <= j < cands.len() ==> ends_with(#[trigger] cands[j], "google.com"@) || ends_with(
                cands[j],
                "gstatic.com"@,
            ) || ends_with(cands[j], "googleapis.com"@)) ==> email_from(cands, 0) is None,
{
    assert forall|i: int|
        0 <= i < cands.len() && !ends_with(#[trigger] cands[i], "google.com"@) && !ends_with(
            cands[i],
            "gstatic.com"@,
        ) && !ends_with(cands[i], "googleapis.com"@) && (forall|j: int|
            0 <= j < i ==> ends_with(#[trigger] cands[j], "google.com"@) || ends_with(
                cands[j],
                "gstatic.com"@,
            ) || ends_with(cands[j], "googleapis.com"@)) implies email_from(cands, 0) == Some(
        cands[i],
    ) by {
        lemma_email_from_skips(cands, 0, i);
    }
    if forall|j: int|
        0 <= j < cands.len() ==> ends_with(#[trigger] cands[j], "google.com"@) || ends_with(
            cands[j],
            "gstatic.com"@,
        ) || ends_with(cands[j], "googleapis.com"@) {
        lemma_email_from_skips(cands, 0, cands.len() as int);
    }
}

proof fn lemma_email_from_skips(cands: Seq<Seq<char>>, m: int, i: int)
    requires
        0 <= m <= i <= cands.len(),
        forall|j: int| m <= j < i ==> is_asset_address(#[trigger] cands[j]),
    ensures
        email_from(cands, m) == email_from(cands, i),
    decreases i - m,
{
    if m < i {
        assert(is_asset_address(cands[m]));
        lemma_email_from_skips(cands, m + 1, i);
    }
}

/// The account email among the email-shaped matches of the app page: the
/// first that is not a google.com, gstatic.com or googleapis.com address.
pub fn pick_email(cands: &Vec<String>) -> (r: Option<String>)
    ensures
        opt_view(r) == email_from(cands@.map_values(|s: String| s@), 0),
{
    let ghost cv = cands@.map_values(|s: String| s@);
    let google = chars_of("google.com");
    let gstatic = chars_of("gstatic.com");
    let googleapis = chars_of("googleapis.com");
    let mut i: usize = 0;
    while i < cands.len()
        invariant
            i <= cands@.len(),
            cv == cands@.map_values(|s: String| s@),
            google@ == "google.com"@,
            gstatic@ == "gstatic.com"@,
            googleapis@ == "googleapis.com"@,
            email_from(cv, i as int) == email_from(cv, 0),
        decreases cands@.len() - i,
    {
        let c = chars_of(cands[i].as_str());
        assert(c@ == cv[i as int]);
        if !ends_with_exec(&c, &google) && !ends_with_exec(&c, &gstatic) && !ends_with_exec(
            &c,
            &googleapis,
        ) {
            return Some(cands[i].clone());
        }
        i = i + 1;
    }
    None
}

/// What scraping the account email out of `html` gives.
/// The email pattern always compiles, so this is never a `Regex` failure.
pub open spec fn email_spec(html: Seq<char>) -> Result<Seq<char>, Failure> {
    match email_from(regex_matches(EMAIL@, html), 0) {
        Some(s) => Ok(s),
        None => Err(Failure::EmailAbsent),
    }
}

/// The account email shown in the app page.
pub fn scrape_email(html: &str) -> (r: Result<String, GeminiError>)
    ensures
        match r {
            Ok(s) => email_spec(html@) == Ok::<Seq<char>, Failure>(s@),
            Err(e) => email_spec(html@) == Err::<Seq<char>, Failure>(e.failure()),
        },
        r matches Err(e) ==> e.failure() != Failure::Regex,
{
    let re = match compile(EMAIL) {
        Ok(re) => re,
        Err(e) => {
            return Err(GeminiError::Regex(e));
        },
    };
    let cands = all_matches(&re, html);
    match pick_email(&cands) {
        Some(s) => Ok(s),
        None => Err(GeminiError::EmailAbsent),
    }
}

/// The app page is the login page: the cookies did not sign in.
pub open spec fn is_login_page(html: Seq<char>) -> bool {
    contains(html, "identifier-shown"@) || contains(html, "SignIn?continue"@)
}

/// The session an app page yields: not from a login page; then the access
/// token, build label, session id and email, scraped in that order. The
/// library's patterns always compile, so no step fails with `Regex`.
pub open spec fn session_spec(html: Seq<char>) -> Result<SessionV, Failure> {
    if is_login_page(html) {
        Err(Failure::NotAuthenticated)
    } else {
        match group_outcome(html, SNLM0E@) {
            Err(f) => Err(f),
            Ok(access_token) => match group_outcome(html, BUILD_LABEL@) {
                Err(f) => Err(f),
                Ok(build_label) => match group_outcome(html, SESSION_ID@) {
                    Err(f) => Err(f),
                    Ok(session_id) => match email_spec(html) {
                        Err(f) => Err(f),
                        Ok(email) => Ok(SessionV { access_token, build_label, session_id, email }),
                    },
                },
            },
        }
    }
}

/// Builds the session from the app page's html.
pub fn session_from_html(html: &str) -> (r: Result<Session, GeminiError>)
    ensures
        match r {
            Ok(s) => session_spec(html@) == Ok::<SessionV, Failure>(s@),
            Err(e) => session_spec(html@) == Err::<SessionV, Failure>(e.failure()),
        },
        r matches Err(e) ==> e.failure() != Failure::Regex,
{
    let page = chars_of(html);
    if contains_exec(&page, &chars_of("identifier-shown")) || contains_exec(
        &page,
        &chars_of("SignIn?continue"),
    ) {
        return Err(GeminiError::NotAuthenticated);
    }
    let access_token = scrape(html, SNLM0E)?;
    let build_label = scrape(html, BUILD_LABEL)?;
    let session_id = scrape(html, SESSION_ID)?;
    let email = scrape_email(html)?;
    Ok(Session { access_token, build_label, session_id, email })
}

/// A plain GET of `url`.
pub open spec fn get_spec(url: Seq<char>) -> RequestV {
    RequestV {
        method: Method::Get,
        url,
        query: Seq::empty(),
        headers: Seq::empty(),
        form: Seq::empty(),
        body: None,
    }
}

fn get(url: String) -> (r: HttpRequest)
    ensures
        r@ == get_spec(url@),
{
    let r = HttpRequest {
        method: Method::Get,
        url,
        query: Vec::new(),
        headers: Vec::new(),
        form: Vec::new(),
        body: None,
    };
    assert(r@.query =~= Seq::<(Seq<char>, Seq<char>)>::empty());
    assert(r@.headers =~= Seq::<(Seq<char>, Seq<char>)>::empty());
    assert(r@.form =~= Seq::<(Seq<char>, Seq<char>)>::empty());
    r
}

/// The preflight load of google.com that precedes the app page.
pub fn preflight_request() -> (r: HttpRequest)
    ensures
        r@ == get_spec(GOOGLE@),
{
    get(String::from_str(GOOGLE))
}

/// The load of account `authuser`'s app page.
pub fn app_request(authuser: u32) -> (r: HttpRequest)
    ensures
        r@ == get_spec(app_url(authuser as nat)),
{
    get(app(authuser))
}

} // verus!
