use gemini_web_image::endpoints::{app, batchexecute, generate, GOOGLE, ROTATE};

#[test]
fn app_url_names_the_account() {
    assert_eq!(app(0), "https://gemini.google.com/u/0/app");
    assert_eq!(app(1), "https://gemini.google.com/u/1/app");
    assert_eq!(app(4294967295), "https://gemini.google.com/u/4294967295/app");
}

#[test]
fn generate_url_names_the_account() {
    assert_eq!(
        generate(12),
        "https://gemini.google.com/u/12/_/BardChatUi/data/assistant.lamda.BardFrontendService/StreamGenerate"
    );
}

#[test]
fn batchexecute_url_names_the_account() {
    assert_eq!(
        batchexecute(307),
        "https://gemini.google.com/u/307/_/BardChatUi/data/batchexecute"
    );
}

#[test]
fn distinct_accounts_get_distinct_urls() {
    for a in [0u32, 1, 9, 10, 11, 100, 65535] {
        for b in [0u32, 1, 9, 10, 11, 100, 65535] {
            assert_eq!(app(a) == app(b), a == b);
            assert_eq!(generate(a) == generate(b), a == b);
            assert_eq!(batchexecute(a) == batchexecute(b), a == b);
        }
    }
}

#[test]
fn fixed_endpoints() {
    assert_eq!(GOOGLE, "https://www.google.com");
    assert_eq!(ROTATE, "https://accounts.google.com/RotateCookies");
}
