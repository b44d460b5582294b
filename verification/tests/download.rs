use gemini_web_image::auth::Session;
use gemini_web_image::download::{
    build_request, classify_hop, download_request, envelope, parse_download_url, AlrWalk,
    MAX_HOPS,
};
use gemini_web_image::images::{extract_images, GeneratedImage};
use gemini_web_image::json::{encode, Payload};
use gemini_web_image::request::Method;
use gemini_web_image::GeminiError;

fn frame(content: &str) -> String {
    let carried = format!("\n{}\n", content);
    format!("{}{}", carried.encode_utf16().count(), carried)
}

fn wrb(payload: &str) -> String {
    format!("[\"wrb.fr\",null,{}]", serde_json::to_string(payload).unwrap())
}

fn session() -> Session {
    Session {
        access_token: "AT:1".to_string(),
        build_label: "boq_bl".to_string(),
        session_id: "-42".to_string(),
        email: "me@example.com".to_string(),
    }
}

fn image() -> GeneratedImage {
    let inner = "[null,[\"c_1\",\"r_1\"],null,null,[[\"rc_1\",null,null,null,null,null,null,null,null,null,null,null,[null,null,null,null,null,null,null,[[[[null,null,null,[null,null,null,\"https://img/1\",null,\"BLOB\"]],[\" a \\\"fox\\\" \"]]]]]]]]";
    let body = frame(&format!("[{}]", wrb(inner)));
    let mut images = extract_images(&body).unwrap();
    assert_eq!(images.len(), 1);
    images.remove(0)
}

fn value(text: &str) -> serde_json::Value {
    serde_json::from_str(text).unwrap()
}

const DESCRIPTOR: &str = "[[[null,null,null,[null,null,null,null,null,\"BLOB\"]],[\"a \\\"fox\\\"\",0],null,[20,\"\",null,null,null,null,null,null,null,null,null,null,null,null,null,null,0,null,\"imagen_default.complaintflow.updated_watermark\"],null,null,null,null,null,\"e15ltne15ltne15l\"],[\"r_1\",\"rc_1\",\"c_1\",null,\"e15ltne15ltne15l\"],1,0,1]";

#[test]
fn descriptor_encodes_exactly() {
    let img = image();
    assert_eq!(img.placeholder, "a \"fox\"");
    let text = encode(&build_request(&img)).unwrap();
    assert_eq!(text, DESCRIPTOR);
}

#[test]
fn envelope_wraps_body() {
    let text = encode(&envelope(&"[1]".to_string())).unwrap();
    assert_eq!(text, "[[[\"c8o8Fe\",\"[1]\",null,\"generic\"]]]");
}

#[test]
fn download_request_shape() {
    let img = image();
    let req = download_request(&img, &session(), 2).unwrap();
    assert_eq!(req.method, Method::Post);
    assert_eq!(req.url, "https://gemini.google.com/u/2/_/BardChatUi/data/batchexecute");
    let q: Vec<(&str, &str)> = req.query.iter().map(|(a, b)| (a.as_str(), b.as_str())).collect();
    assert_eq!(
        q,
        vec![
            ("rpcids", "c8o8Fe"),
            ("source-path", "/u/2/app"),
            ("bl", "boq_bl"),
            ("f.sid", "-42"),
            ("hl", "en"),
            ("pageId", "none"),
            ("_reqid", "200000"),
            ("rt", "c"),
        ]
    );
    let h: Vec<(&str, &str)> = req.headers.iter().map(|(a, b)| (a.as_str(), b.as_str())).collect();
    assert_eq!(
        h,
        vec![
            ("Origin", "https://gemini.google.com"),
            ("Referer", "https://gemini.google.com/"),
            ("X-Same-Domain", "1"),
        ]
    );
    assert_eq!(req.form.len(), 2);
    assert_eq!(req.form[0].0, "f.req");
    assert_eq!(req.form[1], ("at".to_string(), "AT:1".to_string()));
    let freq = value(&req.form[0].1);
    let call = &freq[0][0];
    assert_eq!(call[0], value("\"c8o8Fe\""));
    assert_eq!(call[2], serde_json::Value::Null);
    assert_eq!(call[3], value("\"generic\""));
    assert_eq!(call[1].as_str().unwrap(), DESCRIPTOR);
    assert!(req.body.is_none());
}

#[test]
fn download_url_is_first_string_at_zero() {
    let body = format!(
        ")]}}'\n{}{}",
        frame(&format!("[[\"di\",1],{},{}]", wrb("[null]"), wrb("[\"https://lh3/first\"]"))),
        frame(&format!("[{}]", wrb("[\"https://lh3/second\"]")))
    );
    assert_eq!(parse_download_url(&body).unwrap(), "https://lh3/first");
}

#[test]
fn download_url_under_object_key() {
    let body = frame(&format!("[{}]", wrb("{\"0\":\"https://lh3/obj\"}")));
    assert_eq!(parse_download_url(&body).unwrap(), "https://lh3/obj");
}

#[test]
fn no_download_url_is_absent() {
    let body = frame(&format!("[{},[\"wrb.fr\"]]", wrb("[1,2]")));
    assert!(matches!(parse_download_url(&body), Err(GeminiError::DownloadUrlAbsent)));
    assert!(matches!(parse_download_url(""), Err(GeminiError::DownloadUrlAbsent)));
}

#[test]
fn broken_json_before_url_fails() {
    let body = format!("{}{}", frame(&format!("[{}]", wrb(""))), frame(&format!("[{}]", wrb("[\"u\"]"))));
    assert!(matches!(parse_download_url(&body), Err(GeminiError::Json(_))));
    let body = format!("{}{}", frame(&format!("[{}]", wrb("[\"u\"]"))), frame("[broken"));
    assert_eq!(parse_download_url(&body).unwrap(), "u");
}

#[test]
fn walk_starts_at_alr_url() {
    let walk = AlrWalk::start("https://lh3.googleusercontent.com/abc", 4);
    let req = walk.next_request().unwrap();
    assert_eq!(req.method, Method::Get);
    assert_eq!(req.url, "https://lh3.googleusercontent.com/abc=d-I?authuser=4&alr=yes");
    assert_eq!(req.headers, vec![("Referer".to_string(), "https://gemini.google.com/".to_string())]);
}

#[test]
fn walk_follows_trimmed_text() {
    let mut walk = AlrWalk::start("https://x", 0);
    assert!(walk.on_redirect("  \n https://next/page \n").is_ok());
    assert_eq!(walk.next_request().unwrap().url, "https://next/page");
    assert!(matches!(walk.on_redirect("<html>"), Err(GeminiError::DownloadUrlAbsent)));
    assert!(matches!(walk.on_redirect("htt"), Err(GeminiError::DownloadUrlAbsent)));
    assert_eq!(walk.next_request().unwrap().url, "https://next/page");
}

#[test]
fn walk_gives_up_after_max_hops() {
    let mut walk = AlrWalk::start("https://x", 0);
    for k in 0..MAX_HOPS {
        assert!(walk.next_request().is_ok());
        walk.on_redirect(&format!("http://hop/{}", k)).unwrap();
    }
    assert_eq!(MAX_HOPS, 6);
    assert!(matches!(walk.next_request(), Err(GeminiError::DownloadUrlAbsent)));
    assert!(matches!(walk.on_redirect("http://more"), Err(GeminiError::DownloadUrlAbsent)));
}

#[test]
fn hop_classification() {
    assert_eq!(classify_hop(200, Some(b"image/png".as_slice())).unwrap(), true);
    assert_eq!(classify_hop(200, Some(b"image/".as_slice())).unwrap(), true);
    assert_eq!(classify_hop(200, Some(b"text/plain; charset=utf-8".as_slice())).unwrap(), false);
    assert_eq!(classify_hop(200, Some(b"imag".as_slice())).unwrap(), false);
    assert!(matches!(classify_hop(200, None), Err(GeminiError::DownloadUrlAbsent)));
    assert!(matches!(classify_hop(404, Some(b"image/png".as_slice())), Err(GeminiError::BadStatus { status: 404 })));
}

#[test]
fn payload_encoding_escapes_strings() {
    let p = Payload::List(vec![Payload::Null, Payload::Int(-3), Payload::Text("a\"b\\c\n".to_string())]);
    assert_eq!(encode(&p).unwrap(), "[null,-3,\"a\\\"b\\\\c\\n\"]");
}
