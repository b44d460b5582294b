use gemini_web_image::auth::{
    app_request, preflight_request, scrape, scrape_email, session_from_html, BUILD_LABEL, EMAIL,
    SESSION_ID, SNLM0E,
};
use gemini_web_image::request::{check_status, Method};
use gemini_web_image::GeminiError;

const PAGE: &str = r#"<html><script>WIZ_global_data = {"cfb2h": "boq_assistant-bard-web-server_20250101.00_p0","FdrFJe":"-1234567890","SNlM0e":"AKlEn5_token:1700000000000"};</script>
<img src="https://www.gstatic.com/x.png" alt="noreply@gstatic.com"> support@google.com
<div>someone.person+tag@example.co.uk</div> other@example.org</html>"#;

#[test]
fn session_from_app_page() {
    let s = session_from_html(PAGE).expect("tokens present");
    assert_eq!(s.access_token, "AKlEn5_token:1700000000000");
    assert_eq!(s.build_label, "boq_assistant-bard-web-server_20250101.00_p0");
    assert_eq!(s.session_id, "-1234567890");
    assert_eq!(s.email, "someone.person+tag@example.co.uk");
    assert_eq!(s.email(), "someone.person+tag@example.co.uk");
}

#[test]
fn login_page_is_not_authenticated() {
    let page = format!("{} <div id=\"identifier-shown\"></div>", PAGE);
    assert!(matches!(session_from_html(&page), Err(GeminiError::NotAuthenticated)));
    let page = "<a href=\"https://accounts.google.com/ServiceLogin?SignIn?continue=x\">";
    assert!(matches!(session_from_html(page), Err(GeminiError::NotAuthenticated)));
}

#[test]
fn missing_token_is_token_absent() {
    let page = r#"{"cfb2h":"bl","FdrFJe":"sid"} me@example.com"#;
    assert!(matches!(session_from_html(page), Err(GeminiError::TokenAbsent)));
}

#[test]
fn only_google_addresses_is_email_absent() {
    let page = r#"{"SNlM0e":"at","cfb2h":"bl","FdrFJe":"sid"} a@google.com b@fonts.gstatic.com c@x.googleapis.com"#;
    assert!(matches!(session_from_html(page), Err(GeminiError::EmailAbsent)));
    assert!(matches!(scrape_email("no address here"), Err(GeminiError::EmailAbsent)));
}

#[test]
fn scrape_takes_first_match_group() {
    let html = r#""SNlM0e" : "skipped" "SNlM0e":   "first" "SNlM0e":"second""#;
    assert_eq!(scrape(html, SNLM0E).unwrap(), "first");
    assert_eq!(scrape(r#""cfb2h":"x""#, BUILD_LABEL).unwrap(), "x");
    assert!(matches!(scrape("", SESSION_ID), Err(GeminiError::TokenAbsent)));
}

#[test]
fn invalid_pattern_is_regex_error() {
    assert!(matches!(scrape("abc", "(unclosed"), Err(GeminiError::Regex(_))));
}

#[test]
fn email_pattern_and_filter() {
    assert_eq!(EMAIL, r"[A-Za-z0-9._%+-]+@[A-Za-z0-9.-]+\.[A-Za-z]{2,}");
    assert_eq!(scrape_email("x@google.com then y@mail.example.net").unwrap(), "y@mail.example.net");
}

#[test]
fn bootstrap_requests() {
    let p = preflight_request();
    assert_eq!(p.method, Method::Get);
    assert_eq!(p.url, "https://www.google.com");
    assert!(p.headers.is_empty() && p.query.is_empty() && p.form.is_empty() && p.body.is_none());
    let a = app_request(3);
    assert_eq!(a.method, Method::Get);
    assert_eq!(a.url, "https://gemini.google.com/u/3/app");
}

#[test]
fn status_decisions() {
    assert!(check_status(200).is_ok());
    assert!(check_status(299).is_ok());
    assert!(matches!(check_status(199), Err(GeminiError::BadStatus { status: 199 })));
    assert!(matches!(check_status(300), Err(GeminiError::BadStatus { status: 300 })));
    assert!(matches!(check_status(500), Err(GeminiError::BadStatus { status: 500 })));
}

#[test]
fn library_patterns_compile() {
    for p in [SNLM0E, BUILD_LABEL, SESSION_ID] {
        assert!(matches!(scrape("", p), Err(GeminiError::TokenAbsent)));
    }
    assert!(matches!(scrape_email(""), Err(GeminiError::EmailAbsent)));
}
