use gemini_web_image::cookies::Cookie;
use gemini_web_image::request::Method;
use gemini_web_image::rotate::{apply, apply_all, check_rotation, rotate_request, ROTATE_BODY};
use gemini_web_image::GeminiError;

fn cookie(domain: &str, name: &str, value: &str) -> Cookie {
    Cookie { domain: domain.to_string(), name: name.to_string(), value: value.to_string() }
}

fn triples(cs: &[Cookie]) -> Vec<(String, String, String)> {
    cs.iter().map(|c| (c.domain.clone(), c.name.clone(), c.value.clone())).collect()
}

fn value_of<'a>(cs: &'a [Cookie], name: &str) -> Option<&'a str> {
    cs.iter().find(|c| c.name == name).map(|c| c.value.as_str())
}

#[test]
fn apply_updates_first_cookie_of_that_name() {
    let mut cs = vec![
        cookie(".google.com", "SID", "a"),
        cookie("accounts.google.com", "__Secure-1PSIDTS", "old"),
        cookie(".google.com", "__Secure-1PSIDTS", "older"),
    ];
    apply(&mut cs, "__Secure-1PSIDTS", "new");
    assert_eq!(
        triples(&cs),
        vec![
            (".google.com".to_string(), "SID".to_string(), "a".to_string()),
            ("accounts.google.com".to_string(), "__Secure-1PSIDTS".to_string(), "new".to_string()),
            (".google.com".to_string(), "__Secure-1PSIDTS".to_string(), "older".to_string()),
        ]
    );
}

#[test]
fn apply_appends_unknown_name_on_google_com() {
    let mut cs = vec![cookie(".google.com", "SID", "a")];
    apply(&mut cs, "__Secure-1PSIDCC", "cc");
    assert_eq!(cs.len(), 2);
    assert_eq!(
        triples(&cs)[1],
        (".google.com".to_string(), "__Secure-1PSIDCC".to_string(), "cc".to_string())
    );
}

#[test]
fn apply_reads_back_and_leaves_others() {
    let mut cs = vec![cookie(".google.com", "SID", "a"), cookie(".google.com", "HSID", "h")];
    apply(&mut cs, "SID", "b");
    assert_eq!(value_of(&cs, "SID"), Some("b"));
    assert_eq!(value_of(&cs, "HSID"), Some("h"));
    apply(&mut cs, "NEW", "n");
    assert_eq!(value_of(&cs, "NEW"), Some("n"));
    assert_eq!(value_of(&cs, "SID"), Some("b"));
}

#[test]
fn apply_twice_is_apply_once() {
    let mut once = vec![cookie(".google.com", "SID", "a")];
    apply(&mut once, "X", "1");
    let mut twice = vec![cookie(".google.com", "SID", "a")];
    apply(&mut twice, "X", "1");
    apply(&mut twice, "X", "1");
    assert_eq!(triples(&once), triples(&twice));
}

#[test]
fn apply_all_applies_in_order() {
    let mut cs = vec![cookie(".google.com", "SID", "a")];
    let pairs = vec![
        ("SID".to_string(), "b".to_string()),
        ("TS".to_string(), "t1".to_string()),
        ("TS".to_string(), "t2".to_string()),
    ];
    apply_all(&mut cs, &pairs);
    assert_eq!(
        triples(&cs),
        vec![
            (".google.com".to_string(), "SID".to_string(), "b".to_string()),
            (".google.com".to_string(), "TS".to_string(), "t2".to_string()),
        ]
    );
}

#[test]
fn rotation_status_decisions() {
    assert!(check_rotation(200).is_ok());
    assert!(check_rotation(204).is_ok());
    assert!(matches!(check_rotation(401), Err(GeminiError::NotAuthenticated)));
    assert!(matches!(check_rotation(403), Err(GeminiError::BadStatus { status: 403 })));
    assert!(matches!(check_rotation(302), Err(GeminiError::BadStatus { status: 302 })));
}

#[test]
fn rotation_request_shape() {
    let r = rotate_request();
    assert_eq!(r.method, Method::Post);
    assert_eq!(r.url, "https://accounts.google.com/RotateCookies");
    assert!(r.query.is_empty());
    assert!(r.form.is_empty());
    assert_eq!(
        r.headers,
        vec![
            ("Content-Type".to_string(), "application/json".to_string()),
            ("Origin".to_string(), "https://accounts.google.com".to_string()),
        ]
    );
    assert_eq!(r.body.as_deref(), Some(ROTATE_BODY));
    assert_eq!(ROTATE_BODY, "[000,\"-0000000000000000000\"]");
}
