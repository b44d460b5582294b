use gemini_web_image::cookies::{jar_line, parse_netscape, Cookie};
use gemini_web_image::GeminiError;

const EXPORT: &str = "# Netscape HTTP Cookie File\n\
.google.com\tTRUE\t/\tTRUE\t1799999999\tSID\tsid-value\n\
#HttpOnly_.google.com\tTRUE\t/\tTRUE\t1799999999\t__Secure-1PSID\tpsid-value\r\n\
.youtube.com\tTRUE\t/\tTRUE\t1799999999\tYSC\tyt\n\
accounts.google.com\tFALSE\t/\tTRUE\t1799999999\tLSID\n\
#HttpOnly_#HttpOnly_gemini.google.com\tFALSE\t/\tTRUE\t1799999999\t__Secure-1PSIDTS\tts\textra\n";

#[test]
fn reads_google_cookies_in_order() {
    let cookies = parse_netscape(EXPORT).expect("psid present");
    let seen: Vec<(String, String, String)> = cookies
        .iter()
        .map(|c| (c.domain.clone(), c.name.clone(), c.value.clone()))
        .collect();
    assert_eq!(
        seen,
        vec![
            (".google.com".to_string(), "SID".to_string(), "sid-value".to_string()),
            (".google.com".to_string(), "__Secure-1PSID".to_string(), "psid-value".to_string()),
            ("gemini.google.com".to_string(), "__Secure-1PSIDTS".to_string(), "ts".to_string()),
        ]
    );
}

#[test]
fn every_cookie_is_google_and_unmarked() {
    for c in parse_netscape(EXPORT).unwrap() {
        assert!(c.domain.ends_with("google.com"));
        assert!(!c.domain.starts_with("#HttpOnly_"));
    }
}

#[test]
fn missing_psid_is_cookie_missing() {
    let raw = ".google.com\tTRUE\t/\tTRUE\t0\tSID\tx\n";
    assert!(matches!(parse_netscape(raw), Err(GeminiError::CookieMissing)));
    assert!(matches!(parse_netscape(""), Err(GeminiError::CookieMissing)));
}

#[test]
fn psid_outside_google_does_not_count() {
    let raw = ".example.com\tTRUE\t/\tTRUE\t0\t__Secure-1PSID\tx\n";
    assert!(matches!(parse_netscape(raw), Err(GeminiError::CookieMissing)));
}

#[test]
fn trailing_carriage_return_without_newline_is_kept() {
    let raw = ".google.com\tTRUE\t/\tTRUE\t0\t__Secure-1PSID\tv\r";
    let cookies = parse_netscape(raw).unwrap();
    assert_eq!(cookies[0].value, "v\r");
}

#[test]
fn jar_line_scopes_cookie() {
    let c = Cookie {
        domain: ".google.com".to_string(),
        name: "SID".to_string(),
        value: "abc".to_string(),
    };
    assert_eq!(jar_line(&c), "SID=abc; Domain=.google.com; Path=/; Secure");
}

#[test]
fn lookalike_domains_are_dropped() {
    let raw = "google.com.evil.net\tFALSE\t/\tTRUE\t0\t__Secure-1PSID\tstolen\n\
.google.com.au\tTRUE\t/\tTRUE\t0\tSID\tau\n\
#HttpOnly_.google.com\tTRUE\t/\tTRUE\t0\t__Secure-1PSID\tkept\n";
    let cookies = parse_netscape(raw).unwrap();
    assert_eq!(cookies.len(), 1);
    assert_eq!(cookies[0].domain, ".google.com");
    assert_eq!(cookies[0].value, "kept");
}

#[test]
fn psid_only_on_lookalike_domain_is_cookie_missing() {
    let raw = "google.com.evil.net\tFALSE\t/\tTRUE\t0\t__Secure-1PSID\tstolen\n";
    assert!(matches!(parse_netscape(raw), Err(GeminiError::CookieMissing)));
}
