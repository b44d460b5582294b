//! Re-minting of the short-lived `__Secure-1PSIDTS` cookie: the request, the
//! decision on its status, and how the `Set-Cookie` answers update the jar.
use vstd::prelude::*;
use vstd::string::*;
use crate::cookies::{Cookie, CookieV, cookies_view};
use crate::endpoints::ROTATE;
use crate::error::GeminiError;
use crate::request::{HttpRequest, Method, RequestV, pair, pairs_view, status_outcome};

verus! {

/// Body the rotation endpoint expects.
pub const ROTATE_BODY: &'static str = "[000,\"-0000000000000000000\"]";

/// Position of the first cookie named `name` at or after `i`, or the length.
pub open spec fn first_named(cs: Seq<CookieV>, name: Seq<char>, i: int) -> int
    decreases cs.len() - i,
{
    if 0 <= i < cs.len() && cs[i].name != name {
        first_named(cs, name, i + 1)
    } else {
        i
    }
}

pub proof fn lemma_first_named(cs: Seq<CookieV>, name: Seq<char>, i: int)
    requires
        0 <= i <= cs.len(),
    ensures
        i <= first_named(cs, name, i) <= cs.len(),
        first_named(cs, name, i) < cs.len() ==> cs[first_named(cs, name, i)].name == name,
        forall|k: int| i <= k < first_named(cs, name, i) ==> #[trigger] cs[k].name != name,
    decreases cs.len() - i,
{
    if i < cs.len() && cs[i].name != name {
        lemma_first_named(cs, name, i + 1);
    }
}

/// A rotated cookie `name=value` applied to a jar: the first cookie of that
/// name takes the new value, or a new `.google.com` cookie is appended.
pub open spec fn apply_spec(cs: Seq<CookieV>, name: Seq<char>, value: Seq<char>) -> Seq<CookieV> {
    let k = first_named(cs, name, 0);
    if k < cs.len() {
        cs.update(k, CookieV { domain: cs[k].domain, name: cs[k].name, value })
    } else {
        cs.push(CookieV { domain: ".google.com"@, name, value })
    }
}

/// Applies one rotated cookie to the jar.
pub fn apply(cookies: &mut Vec<Cookie>, name: &str, value: &str)
    ensures
        cookies_view(final(cookies)@) == apply_spec(cookies_view(old(cookies)@), name@, value@),
{
    let ghost cs = cookies_view(cookies@);
    proof {
        lemma_first_named(cs, name@, 0);
    }
    let name_s = String::from_str(name);
    let mut i: usize = 0;
    while i < cookies.len()
        invariant
            i <= cookies@.len(),
            cs == cookies_view(cookies@),
            cs == cookies_view(old(cookies)@),
            name_s@ == name@,
            first_named(cs, name@, i as int) == first_named(cs, name@, 0),
        decreases cookies@.len() - i,
    {
        if cookies[i].name == name_s {
            assert(cs[i as int].name == name@);
            assert(first_named(cs, name@, i as int) == i as int);
            let c = Cookie {
                domain: cookies[i].domain.clone(),
                name: cookies[i].name.clone(),
                value: String::from_str(value),
            };
            cookies.set(i, c);
            assert(cookies_view(cookies@) =~= apply_spec(cs, name@, value@));
            return ;
        }
        i = i + 1;
    }
    let c = Cookie {
        domain: String::from_str(".google.com"),
        name: name_s,
        value: String::from_str(value),
    };
    cookies.push(c);
    assert(cookies_view(cookies@) =~= apply_spec(cs, name@, value@));
}

/// A sequence of rotated cookies applied in order.
pub open spec fn apply_all_spec(cs: Seq<CookieV>, pairs: Seq<(Seq<char>, Seq<char>)>) -> Seq<
    CookieV,
>
    decreases pairs.len(),
{
    if pairs.len() == 0 {
        cs
    } else {
        let before = apply_all_spec(cs, pairs.drop_last());
        apply_spec(before, pairs.last().0, pairs.last().1)
    }
}

/// Applies the `Set-Cookie` name/value pairs of a rotation answer, in order.
pub fn apply_all(cookies: &mut Vec<Cookie>, pairs: &Vec<(String, String)>)
    ensures
        cookies_view(final(cookies)@) == apply_all_spec(
            cookies_view(old(cookies)@),
            pairs_view(pairs@),
        ),
{
    let ghost start = cookies_view(cookies@);
    let ghost pv = pairs_view(pairs@);
    let mut i: usize = 0;
    while i < pairs.len()
        invariant
            i <= pairs@.len(),
            pv == pairs_view(pairs@),
            start == cookies_view(old(cookies)@),
            cookies_view(cookies@) == apply_all_spec(start, pv.take(i as int)),
        decreases pairs@.len() - i,
    {
        assert(pv.take(i + 1).drop_last() =~= pv.take(i as int));
        apply(cookies, pairs[i].0.as_str(), pairs[i].1.as_str());
        i = i + 1;
    }
    assert(pv.take(i as int) =~= pv);
}

/// What the rotation endpoint's status decides: 401 means the session is
/// gone, any other status outside 2xx is `BadStatus`.
pub open spec fn rotation_outcome(status: u16) -> Result<(), GeminiError> {
    if status == 401 {
        Err(GeminiError::NotAuthenticated)
    } else {
        status_outcome(status)
    }
}

/// Decides on the rotation endpoint's status.
pub fn check_rotation(status: u16) -> (r: Result<(), GeminiError>)
    ensures
        r == rotation_outcome(status),
{
    if status == 401 {
        Err(GeminiError::NotAuthenticated)
    } else if 200 <= status && status <= 299 {
        Ok(())
    } else {
        Err(GeminiError::BadStatus { status })
    }
}

/// The rotation request: a JSON POST to `RotateCookies`.
pub open spec fn rotate_request_spec() -> RequestV {
    RequestV {
        method: Method::Post,
        url: ROTATE@,
        query: Seq::empty(),
        headers: seq![
            ("Content-Type"@, "application/json"@),
            ("Origin"@, "https://accounts.google.com"@),
        ],
        form: Seq::empty(),
        body: Some(ROTATE_BODY@),
    }
}

/// The request that re-mints `__Secure-1PSIDTS`.
pub fn rotate_request() -> (r: HttpRequest)
    ensures
        r@ == rotate_request_spec(),
{
    let mut headers: Vec<(String, String)> = Vec::new();
    headers.push(pair("Content-Type", "application/json"));
    headers.push(pair("Origin", "https://accounts.google.com"));
    let r = HttpRequest {
        method: Method::Post,
        url: String::from_str(ROTATE),
        query: Vec::new(),
        headers,
        form: Vec::new(),
        body: Some(String::from_str(ROTATE_BODY)),
    };
    assert(r@.headers =~= rotate_request_spec().headers);
    assert(r@.query =~= Seq::<(Seq<char>, Seq<char>)>::empty());
    assert(r@.form =~= Seq::<(Seq<char>, Seq<char>)>::empty());
    r
}

/// The value of the first cookie named `name`, as a client reads the jar.
pub open spec fn value_of(cs: Seq<CookieV>, name: Seq<char>) -> Option<Seq<char>> {
    let k = first_named(cs, name, 0);
    if k < cs.len() {
        Some(cs[k].value)
    } else {
        None
    }
}

proof fn lemma_first_named_update(cs: Seq<CookieV>, k: int, c: CookieV, other: Seq<char>, i: int)
    requires
        0 <= k < cs.len(),
        c.name == cs[k].name,
        0 <= i <= cs.len(),
    ensures
        first_named(cs.update(k, c), other, i) == first_named(cs, other, i),
    decreases cs.len() - i,
{
    if i < cs.len() && cs[i].name != other {
        lemma_first_named_update(cs, k, c, other, i + 1);
    }
}

proof fn lemma_first_named_push(cs: Seq<CookieV>, c: CookieV, other: Seq<char>, i: int)
    requires
        0 <= i <= cs.len(),
    ensures
        first_named(cs, other, i) < cs.len() ==> first_named(cs.push(c), other, i) == first_named(
            cs,
            other,
            i,
        ),
        first_named(cs, other, i) == cs.len() ==> first_named(cs.push(c), other, i) == if c.name
            == other {
            cs.len() as int
        } else {
            cs.len() + 1int
        },
    decreases cs.len() - i,
{
    if i < cs.len() {
        assert(cs.push(c)[i] == cs[i]);
        if cs[i].name != other {
            lemma_first_named_push(cs, c, other, i + 1);
        }
    } else {
        assert(cs.push(c)[i] == c);
        if c.name != other {
            assert(first_named(cs.push(c), other, i + 1) == i + 1);
        }
    }
}

/// Jar law: after a rotated cookie is applied, reading that name gives the
/// new value; reading any other name gives what it gave before.
pub proof fn law_apply_read_back(cs: Seq<CookieV>, name: Seq<char>, value: Seq<char>, other: Seq<
    char,
>)
    ensures
        value_of(apply_spec(cs, name, value), name) == Some(value),
        other != name ==> value_of(apply_spec(cs, name, value), other) == value_of(cs, other),
{
    lemma_first_named(cs, name, 0);
    lemma_first_named(cs, other, 0);
    let k = first_named(cs, name, 0);
    if k < cs.len() {
        let c = CookieV { domain: cs[k].domain, name: cs[k].name, value };
        lemma_first_named_update(cs, k, c, name, 0);
        lemma_first_named_update(cs, k, c, other, 0);
    } else {
        let c = CookieV { domain: ".google.com"@, name, value };
        lemma_first_named_push(cs, c, other, 0);
        lemma_first_named_push(cs, c, name, 0);
    }
}

/// Jar law: applying the same rotated cookie twice is applying it once.
pub proof fn law_apply_idempotent(cs: Seq<CookieV>, name: Seq<char>, value: Seq<char>)
    ensures
        apply_spec(apply_spec(cs, name, value), name, value) == apply_spec(cs, name, value),
{
    lemma_first_named(cs, name, 0);
    let k = first_named(cs, name, 0);
    let once = apply_spec(cs, name, value);
    if k < cs.len() {
        let c = CookieV { domain: cs[k].domain, name: cs[k].name, value };
        lemma_first_named_update(cs, k, c, name, 0);
        assert(once.update(k, CookieV { domain: once[k].domain, name: once[k].name, value })
            =~= once);
    } else {
        let c = CookieV { domain: ".google.com"@, name, value };
        lemma_first_named_push(cs, c, name, 0);
        assert(once.update(k, CookieV { domain: once[k].domain, name: once[k].name, value })
            =~= once);
    }
}

/// Jar law: a rotation never drops a cookie nor changes a domain or a name;
/// it grows the jar by one exactly when the name is new to it.
pub proof fn law_apply_keeps_cookies(cs: Seq<CookieV>, name: Seq<char>, value: Seq<char>)
    ensures
        apply_spec(cs, name, value).len() == cs.len() + (if has_name(cs, name) {
            0int
        } else {
            1int
        }),
        forall|k: int|
            0 <= k < cs.len() ==> (#[trigger] apply_spec(cs, name, value)[k]).domain
                == cs[k].domain && apply_spec(cs, name, value)[k].name == cs[k].name,
{
    lemma_first_named(cs, name, 0);
    let k = first_named(cs, name, 0);
    if has_name(cs, name) {
        let j = choose|j: int| 0 <= j < cs.len() && cs[j].name == name;
        assert(k <= j);
    }
}

/// Some cookie of the jar has the name `name`.
pub open spec fn has_name(cs: Seq<CookieV>, name: Seq<char>) -> bool {
    exists|j: int| 0 <= j < cs.len() && cs[j].name == name
}

} // verus!
