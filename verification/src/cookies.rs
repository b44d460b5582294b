//! Google cookies: the Netscape `cookies.txt` export format, and the line a
//! cookie jar takes.
use vstd::prelude::*;
use vstd::string::*;
use crate::error::GeminiError;
use crate::text::{
    law_strip_all_removes_prefix, starts_with,
    chars_of, chars_views, ends_with, ends_with_exec, eq_chars, lines, lines_exec, split, split_exec,
    string_of, strip_all, strip_all_exec,
};

verus! {

/// A single Google cookie: its `name`, `value`, and the `domain` it scopes to.
#[derive(Clone)]
pub struct Cookie {
    pub domain: String,
    pub name: String,
    pub value: String,
}

/// The mathematical content of a cookie.
pub struct CookieV {
    pub domain: Seq<char>,
    pub name: Seq<char>,
    pub value: Seq<char>,
}

impl View for Cookie {
    type V = CookieV;

    open spec fn view(&self) -> CookieV {
        CookieV { domain: self.domain@, name: self.name@, value: self.value@ }
    }
}

/// Views of a sequence of cookies.
pub open spec fn cookies_view(v: Seq<Cookie>) -> Seq<CookieV> {
    v.map_values(|c: Cookie| c@)
}

/// The session cookie whose presence a cookie file must show.
pub open spec fn psid() -> Seq<char> {
    "__Secure-1PSID"@
}

/// The cookie one line of a Netscape export stands for, if it stands for a
/// google.com cookie: seven or more tab-separated fields, the domain (field 0,
/// without its `#HttpOnly_` marks) ending in `google.com`, the name in
/// field 5 and the value in field 6.
pub open spec fn line_cookie(line: Seq<char>) -> Option<CookieV> {
    let fields = split(line, '\t');
    if fields.len() < 7 {
        None
    } else {
        let domain = strip_all(fields[0], "#HttpOnly_"@);
        if ends_with(domain, "google.com"@) {
            Some(CookieV { domain, name: fields[5], value: fields[6] })
        } else {
            None
        }
    }
}

/// The google.com cookies of a sequence of export lines, in order.
pub open spec fn cookies_of_lines(ls: Seq<Seq<char>>) -> Seq<CookieV>
    decreases ls.len(),
{
    if ls.len() == 0 {
        Seq::empty()
    } else {
        let before = cookies_of_lines(ls.drop_last());
        match line_cookie(ls.last()) {
            Some(c) => before.push(c),
            None => before,
        }
    }
}

/// The google.com cookies of a Netscape `cookies.txt` export.
pub open spec fn netscape_cookies(raw: Seq<char>) -> Seq<CookieV> {
    cookies_of_lines(lines(raw))
}

/// Some cookie of `cs` has the name `name`.
pub open spec fn has_named(cs: Seq<CookieV>, name: Seq<char>) -> bool {
    exists|k: int| 0 <= k < cs.len() && cs[k].name == name
}

/// What reading a Netscape export gives: its google.com cookies, or
/// `CookieMissing` where none of them is `__Secure-1PSID`.
pub open spec fn netscape_outcome(raw: Seq<char>) -> Result<Seq<CookieV>, ()> {
    if has_named(netscape_cookies(raw), psid()) {
        Ok(netscape_cookies(raw))
    } else {
        Err(())
    }
}

/// Reads all `google.com` cookies from the text of a Netscape `cookies.txt`
/// export, keeping the whole google.com family and stripping the
/// `#HttpOnly_` domain prefix. Fails with `CookieMissing` if
/// `__Secure-1PSID` is absent.
pub fn parse_netscape(raw: &str) -> (r: Result<Vec<Cookie>, GeminiError>)
    ensures
        match r {
            Ok(v) => netscape_outcome(raw@) == Ok::<Seq<CookieV>, ()>(cookies_view(v@)),
            Err(e) => netscape_outcome(raw@) is Err && e is CookieMissing,
        },
{
    let chars = chars_of(raw);
    let ls = lines_exec(&chars);
    let ghost lv = chars_views(ls@);
    let http_only = chars_of("#HttpOnly_");
    let google = chars_of("google.com");
    let psid_chars = chars_of("__Secure-1PSID");
    let mut cookies: Vec<Cookie> = Vec::new();
    let mut has_psid = false;
    let mut i: usize = 0;
    while i < ls.len()
        invariant
            i <= ls@.len(),
            lv == chars_views(ls@),
            lv == lines(raw@),
            http_only@ == "#HttpOnly_"@,
            google@ == "google.com"@,
            psid_chars@ == psid(),
            cookies_view(cookies@) == cookies_of_lines(lv.take(i as int)),
            has_psid == has_named(cookies_view(cookies@), psid()),
        decreases ls@.len() - i,
    {
        let ghost before = cookies_view(cookies@);
        assert(lv.take(i + 1).drop_last() =~= lv.take(i as int));
        assert(lv.take(i + 1).last() == ls@[i as int]@);
        let fields = split_exec(&ls[i], '\t');
        if fields.len() >= 7 {
            let domain = strip_all_exec(&fields[0], &http_only);
            if ends_with_exec(&domain, &google) {
                let is_psid = eq_chars(&fields[5], &psid_chars);
                let c = Cookie {
                    domain: string_of(&domain),
                    name: string_of(&fields[5]),
                    value: string_of(&fields[6]),
                };
                cookies.push(c);
                assert(cookies_view(cookies@) =~= before.push(c@));
                proof {
                    if has_psid || is_psid {
                        if is_psid {
                            assert(cookies_view(cookies@)[before.len() as int].name == psid());
                        } else {
                            let k = choose|k: int| 0 <= k < before.len() && before[k].name == psid();
                            assert(cookies_view(cookies@)[k] == before[k]);
                        }
                    } else {
                        assert forall|k: int|
                            0 <= k < cookies_view(cookies@).len() implies cookies_view(
                            cookies@,
                        )[k].name != psid() by {
                            if k < before.len() {
                                assert(cookies_view(cookies@)[k] == before[k]);
                            }
                        }
                    }
                }
                has_psid = has_psid || is_psid;
            }
        }
        i = i + 1;
    }
    assert(lv.take(i as int) =~= lv);
    if !has_psid {
        return Err(GeminiError::CookieMissing);
    }
    Ok(cookies)
}

/// The cookie-jar line for a cookie: `name=value; Domain=domain; Path=/; Secure`.
pub open spec fn jar_line_spec(c: CookieV) -> Seq<char> {
    c.name + "="@ + c.value + "; Domain="@ + c.domain + "; Path=/; Secure"@
}

/// The line a cookie jar is seeded with for `cookie`, scoped to its domain.
pub fn jar_line(cookie: &Cookie) -> (r: String)
    ensures
        r@ == jar_line_spec(cookie@),
{
    let mut r = cookie.name.clone();
    r.append("=");
    r.append(cookie.value.as_str());
    r.append("; Domain=");
    r.append(cookie.domain.as_str());
    r.append("; Path=/; Secure");
    r
}

/// Cookie-file law: every cookie read from an export belongs to the
/// google.com family (its domain ends in `google.com`) and has its
/// `#HttpOnly_` marks removed from its domain.
pub proof fn law_netscape_google_only(raw: Seq<char>)
    ensures
        forall|k: int|
            0 <= k < netscape_cookies(raw).len() ==> {
                let c = #[trigger] netscape_cookies(raw)[k];
                ends_with(c.domain, "google.com"@) && !starts_with(c.domain, "#HttpOnly_"@)
            },
{
    lemma_lines_google_only(lines(raw));
}

/// A line of a Netscape export that stands for a google.com cookie: seven
/// or more tab-separated fields, the first of which, once its `#HttpOnly_`
/// marks are removed, ends in `google.com`.
pub open spec fn is_google_line(line: Seq<char>) -> bool {
    &&& split(line, '\t').len() >= 7
    &&& ends_with(strip_all(split(line, '\t')[0], "#HttpOnly_"@), "google.com"@)
}

/// Cookie-file law: every google.com line of the export yields a cookie,
/// in order, and no other line does: there are as many cookies as such
/// lines, and the k-th cookie has the k-th such line's unmarked domain,
/// name (field 5) and value (field 6). Nothing is dropped for repeating a
/// name or a domain.
pub proof fn law_every_google_line_yields_a_cookie(raw: Seq<char>)
    ensures
        ({
            let cs = netscape_cookies(raw);
            let gl = lines(raw).filter(|l: Seq<char>| is_google_line(l));
            &&& cs.len() == gl.len()
            &&& forall|k: int|
                0 <= k < gl.len() ==> #[trigger] cs[k] == (CookieV {
                    domain: strip_all(split(gl[k], '\t')[0], "#HttpOnly_"@),
                    name: split(gl[k], '\t')[5],
                    value: split(gl[k], '\t')[6],
                })
        }),
{
    lemma_lines_cookies(lines(raw));
}

proof fn lemma_lines_cookies(ls: Seq<Seq<char>>)
    ensures
        ({
            let cs = cookies_of_lines(ls);
            let gl = ls.filter(|l: Seq<char>| is_google_line(l));
            &&& cs.len() == gl.len()
            &&& forall|k: int|
                0 <= k < gl.len() ==> #[trigger] cs[k] == (CookieV {
                    domain: strip_all(split(gl[k], '\t')[0], "#HttpOnly_"@),
                    name: split(gl[k], '\t')[5],
                    value: split(gl[k], '\t')[6],
                })
        }),
    decreases ls.len(),
{
    reveal(Seq::filter);
    if ls.len() > 0 {
        lemma_lines_cookies(ls.drop_last());
        let cs = cookies_of_lines(ls);
        let cs0 = cookies_of_lines(ls.drop_last());
        let gl = ls.filter(|l: Seq<char>| is_google_line(l));
        let gl0 = ls.drop_last().filter(|l: Seq<char>| is_google_line(l));
        if is_google_line(ls.last()) {
            assert(gl == gl0.push(ls.last()));
            assert(line_cookie(ls.last()) is Some);
            assert forall|k: int| 0 <= k < gl.len() implies #[trigger] cs[k] == (CookieV {
                domain: strip_all(split(gl[k], '\t')[0], "#HttpOnly_"@),
                name: split(gl[k], '\t')[5],
                value: split(gl[k], '\t')[6],
            }) by {
                if k < gl0.len() {
                    assert(cs[k] == cs0[k]);
                    assert(gl[k] == gl0[k]);
                }
            }
        } else {
            assert(gl == gl0);
            assert(line_cookie(ls.last()) is None);
            assert(cs == cs0);
        }
    }
}

proof fn lemma_lines_google_only(ls: Seq<Seq<char>>)
    ensures
        forall|k: int|
            0 <= k < cookies_of_lines(ls).len() ==> {
                let c = #[trigger] cookies_of_lines(ls)[k];
                ends_with(c.domain, "google.com"@) && !starts_with(c.domain, "#HttpOnly_"@)
            },
    decreases ls.len(),
{
    if ls.len() > 0 {
        lemma_lines_google_only(ls.drop_last());
        let before = cookies_of_lines(ls.drop_last());
        let fields = split(ls.last(), '\t');
        if fields.len() >= 7 {
            reveal_strlit("#HttpOnly_");
            law_strip_all_removes_prefix(fields[0], "#HttpOnly_"@);
        }
        match line_cookie(ls.last()) {
            Some(c) => {
                assert forall|k: int| 0 <= k < cookies_of_lines(ls).len() implies {
                    let d = #[trigger] cookies_of_lines(ls)[k];
                    ends_with(d.domain, "google.com"@) && !starts_with(d.domain, "#HttpOnly_"@)
                } by {
                    if k < before.len() {
                        assert(cookies_of_lines(ls)[k] == before[k]);
                    }
                }
            },
            None => {},
        }
    }
}

} // verus!
