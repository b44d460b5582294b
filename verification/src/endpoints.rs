//! The fixed Google endpoints and the per-account Gemini urls.
use vstd::prelude::*;
use vstd::string::*;
use crate::frames::lemma_decimal_digits;
use crate::text::{decimal, decimal_chars, string_of};

verus! {

/// Preflight page that sets the base Google cookies.
pub const GOOGLE: &'static str = "https://www.google.com";

/// Endpoint that re-mints the short-lived `__Secure-1PSIDTS` cookie.
pub const ROTATE: &'static str = "https://accounts.google.com/RotateCookies";

/// `/u/{authuser}` prefix of every url of one signed-in account.
pub open spec fn account_prefix(authuser: nat) -> Seq<char> {
    "https://gemini.google.com/u/"@ + decimal(authuser)
}

pub open spec fn app_url(authuser: nat) -> Seq<char> {
    account_prefix(authuser) + "/app"@
}

pub open spec fn generate_url(authuser: nat) -> Seq<char> {
    account_prefix(authuser)
        + "/_/BardChatUi/data/assistant.lamda.BardFrontendService/StreamGenerate"@
}

pub open spec fn batchexecute_url(authuser: nat) -> Seq<char> {
    account_prefix(authuser) + "/_/BardChatUi/data/batchexecute"@
}

/// Decimal text of an account index.
pub fn decimal_string(n: u32) -> (r: String)
    ensures
        r@ == decimal(n as nat),
{
    let v = decimal_chars(n as u64);
    string_of(&v)
}

fn with_account(authuser: u32, tail: &str) -> (r: String)
    ensures
        r@ == account_prefix(authuser as nat) + tail@,
{
    let n = decimal_string(authuser);
    let mut r = String::from_str("https://gemini.google.com/u/");
    r.append(n.as_str());
    r.append(tail);
    r
}

/// The Gemini app page of account `authuser`.
pub fn app(authuser: u32) -> (r: String)
    ensures
        r@ == app_url(authuser as nat),
{
    with_account(authuser, "/app")
}

/// The `StreamGenerate` endpoint of account `authuser`.
pub fn generate(authuser: u32) -> (r: String)
    ensures
        r@ == generate_url(authuser as nat),
{
    with_account(authuser, "/_/BardChatUi/data/assistant.lamda.BardFrontendService/StreamGenerate")
}

/// The `batchexecute` endpoint of account `authuser`.
pub fn batchexecute(authuser: u32) -> (r: String)
    ensures
        r@ == batchexecute_url(authuser as nat),
{
    with_account(authuser, "/_/BardChatUi/data/batchexecute")
}

proof fn lemma_tail_cancel(a: Seq<char>, b: Seq<char>, p: Seq<char>, t: Seq<char>)
    requires
        p + a + t == p + b + t,
    ensures
        a == b,
{
    assert((p + a + t).len() == p.len() + a.len() + t.len());
    assert((p + b + t).len() == p.len() + b.len() + t.len());
    assert(a.len() == b.len());
    assert forall|k: int| 0 <= k < a.len() implies a[k] == b[k] by {
        assert((p + a + t)[p.len() + k] == (p + a)[p.len() + k]);
        assert((p + b + t)[p.len() + k] == (p + b)[p.len() + k]);
        assert((p + a)[p.len() + k] == a[k]);
        assert((p + b)[p.len() + k] == b[k]);
    }
    assert(a =~= b);
}

/// Account law: distinct account indices address distinct app pages,
/// generate endpoints and batchexecute endpoints.
pub proof fn law_accounts_distinct(a: nat, b: nat)
    ensures
        app_url(a) == app_url(b) ==> a == b,
        generate_url(a) == generate_url(b) ==> a == b,
        batchexecute_url(a) == batchexecute_url(b) ==> a == b,
{
    lemma_decimal_digits(a);
    lemma_decimal_digits(b);
    let p = "https://gemini.google.com/u/"@;
    if app_url(a) == app_url(b) {
        lemma_tail_cancel(decimal(a), decimal(b), p, "/app"@);
    }
    if generate_url(a) == generate_url(b) {
        lemma_tail_cancel(
            decimal(a),
            decimal(b),
            p,
            "/_/BardChatUi/data/assistant.lamda.BardFrontendService/StreamGenerate"@,
        );
    }
    if batchexecute_url(a) == batchexecute_url(b) {
        lemma_tail_cancel(decimal(a), decimal(b), p, "/_/BardChatUi/data/batchexecute"@);
    }
}

} // verus!
