//! Everything that can go wrong talking to web Gemini, as far as the library
//! decides it.
use vstd::prelude::*;

verus! {

/// `regex::Error`, the error of compiling a pattern.
#[verifier::external_type_specification]
#[verifier::external_body]
pub struct ExRegexError(regex::Error);

/// `serde_json::Error`, the error of encoding or decoding JSON.
#[verifier::external_type_specification]
#[verifier::external_body]
pub struct ExJsonError(serde_json::Error);

/// Failures that the library's own decisions produce.
#[derive(Debug)]
pub enum GeminiError {
    /// A scraping pattern did not compile.
    Regex(regex::Error),
    /// An endpoint answered with a status outside 200..=299.
    BadStatus { status: u16 },
    /// The login page came back: the cookies are invalid or expired.
    NotAuthenticated,
    /// A session token is absent from the app page.
    TokenAbsent,
    /// `__Secure-1PSID` is absent from the cookie file.
    CookieMissing,
    /// No account email in the app page.
    EmailAbsent,
    /// A JSON text did not encode or decode.
    Json(serde_json::Error),
    /// No download url in a batchexecute answer, or the redirect chain broke off.
    DownloadUrlAbsent,
}

/// Which failure an error is, its outside payload left out.
pub enum Failure {
    Regex,
    BadStatus { status: u16 },
    NotAuthenticated,
    TokenAbsent,
    CookieMissing,
    EmailAbsent,
    Json,
    DownloadUrlAbsent,
}

impl GeminiError {
    pub open spec fn failure(self) -> Failure {
        match self {
            GeminiError::Regex(_) => Failure::Regex,
            GeminiError::BadStatus { status } => Failure::BadStatus { status },
            GeminiError::NotAuthenticated => Failure::NotAuthenticated,
            GeminiError::TokenAbsent => Failure::TokenAbsent,
            GeminiError::CookieMissing => Failure::CookieMissing,
            GeminiError::EmailAbsent => Failure::EmailAbsent,
            GeminiError::Json(_) => Failure::Json,
            GeminiError::DownloadUrlAbsent => Failure::DownloadUrlAbsent,
        }
    }
}

} // verus!
