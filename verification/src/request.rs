//! Descriptions of the HTTP exchanges the library asks for, and the decisions
//! it takes on a response's status.
use vstd::prelude::*;
use vstd::string::*;
use crate::error::GeminiError;

verus! {

/// HTTP method of a request.
#[derive(Debug, PartialEq, Eq, Structural, Clone, Copy)]
pub enum Method {
    Get,
    Post,
}

/// A request to be sent as described: `query` pairs are url-encoded onto
/// `url`, `form` pairs (when non-empty) become an url-encoded form body,
/// `body` (when present) is sent verbatim.
pub struct HttpRequest {
    pub method: Method,
    pub url: String,
    pub query: Vec<(String, String)>,
    pub headers: Vec<(String, String)>,
    pub form: Vec<(String, String)>,
    pub body: Option<String>,
}

/// A name/value pair as character sequences.
pub type PairV = (Seq<char>, Seq<char>);

pub open spec fn pairs_view(v: Seq<(String, String)>) -> Seq<PairV> {
    v.map_values(|p: (String, String)| (p.0@, p.1@))
}

pub open spec fn opt_view(o: Option<String>) -> Option<Seq<char>> {
    match o {
        Some(s) => Some(s@),
        None => None,
    }
}

/// The mathematical content of a request.
pub struct RequestV {
    pub method: Method,
    pub url: Seq<char>,
    pub query: Seq<PairV>,
    pub headers: Seq<PairV>,
    pub form: Seq<PairV>,
    pub body: Option<Seq<char>>,
}

impl View for HttpRequest {
    type V = RequestV;

    open spec fn view(&self) -> RequestV {
        RequestV {
            method: self.method,
            url: self.url@,
            query: pairs_view(self.query@),
            headers: pairs_view(self.headers@),
            form: pairs_view(self.form@),
            body: opt_view(self.body),
        }
    }
}

/// An owned name/value pair.
pub fn pair(name: &str, value: &str) -> (p: (String, String))
    ensures
        p.0@ == name@,
        p.1@ == value@,
{
    (String::from_str(name), String::from_str(value))
}

/// `StatusCode::is_success`: the 2xx class.
pub open spec fn is_success(status: u16) -> bool {
    200 <= status <= 299
}

/// What any endpoint's status decides: continue on 2xx, else `BadStatus`.
pub open spec fn status_outcome(status: u16) -> Result<(), GeminiError> {
    if is_success(status) {
        Ok(())
    } else {
        Err(GeminiError::BadStatus { status })
    }
}

/// Continue on a 2xx status, fail with `BadStatus` otherwise.
pub fn check_status(status: u16) -> (r: Result<(), GeminiError>)
    ensures
        r == status_outcome(status),
{
    if 200 <= status && status <= 299 {
        Ok(())
    } else {
        Err(GeminiError::BadStatus { status })
    }
}

} // verus!
