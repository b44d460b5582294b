use gemini_web_image::auth::Session;
use gemini_web_image::generate::{
    build_inner, generate_request, generate_request_with, uuid_hyphenated_upper, uuid_simple,
};
use gemini_web_image::json::encode;
use gemini_web_image::request::Method;

fn session() -> Session {
    Session {
        access_token: "AT:1".to_string(),
        build_label: "boq_bl".to_string(),
        session_id: "-42".to_string(),
        email: "me@example.com".to_string(),
    }
}

const TURN: [u8; 16] = [0x12, 0x34, 0x56, 0x78, 0x9a, 0xbc, 0x4d, 0xef, 0x8f, 0xed, 0xcb, 0xa9, 0x87, 0x65, 0x43, 0x21];
const MODEL: [u8; 16] = [0xff, 0, 1, 2, 3, 4, 0x45, 6, 0xb7, 8, 9, 10, 11, 12, 13, 14];
const REQ: [u8; 16] = [0xde, 0xad, 0xbe, 0xef, 0, 0, 0x40, 0, 0x80, 0, 0, 0, 0, 0, 0, 1];

#[test]
fn uuid_text_matches_uuid_crate() {
    for b in [TURN, MODEL, REQ] {
        let u = uuid::Uuid::from_bytes(b);
        assert_eq!(uuid_hyphenated_upper(&b.to_vec()), u.to_string().to_uppercase());
        assert_eq!(uuid_simple(&b.to_vec()), u.simple().to_string());
    }
    assert_eq!(uuid_hyphenated_upper(&TURN.to_vec()), "12345678-9ABC-4DEF-8FED-CBA987654321");
    assert_eq!(uuid_simple(&REQ.to_vec()), "deadbeef000040008000000000000001");
}

#[test]
fn inner_body_slots() {
    let text = encode(&build_inner("a \"red\" fox", "TURN-ID", "reqhex")).unwrap();
    let v: serde_json::Value = serde_json::from_str(&text).unwrap();
    let a = v.as_array().unwrap();
    assert_eq!(a.len(), 92);
    assert_eq!(serde_json::to_string(&a[0]).unwrap(), "[\"a \\\"red\\\" fox\",0,null,null,null,null,0]");
    assert_eq!(serde_json::to_string(&a[1]).unwrap(), "[\"en\"]");
    assert_eq!(serde_json::to_string(&a[2]).unwrap(), "[\"\",\"\",\"\",null,null,null,null,null,null,\"\"]");
    assert_eq!(a[4].as_str(), Some("reqhex"));
    assert_eq!(a[59].as_str(), Some("TURN-ID"));
    let expect: [(usize, &str); 17] = [
        (6, "[1]"), (7, "1"), (10, "1"), (11, "0"), (17, "[[0]]"), (18, "0"), (27, "1"),
        (30, "[4]"), (41, "[1]"), (53, "0"), (61, "[]"), (67, "0"), (68, "2"), (79, "1"),
        (80, "1"), (91, "0"), (3, "null"),
    ];
    for (i, e) in expect {
        assert_eq!(serde_json::to_string(&a[i]).unwrap(), e, "slot {}", i);
    }
    let named = [0usize, 1, 2, 4, 6, 7, 10, 11, 17, 18, 27, 30, 41, 53, 59, 61, 67, 68, 79, 80, 91];
    for i in 0..92 {
        if !named.contains(&i) {
            assert!(a[i].is_null(), "slot {}", i);
        }
    }
}

#[test]
fn generate_request_shape() {
    let req = generate_request_with(&session(), 1, "a fox", &TURN.to_vec(), &MODEL.to_vec(), &REQ.to_vec()).unwrap();
    assert_eq!(req.method, Method::Post);
    assert_eq!(
        req.url,
        "https://gemini.google.com/u/1/_/BardChatUi/data/assistant.lamda.BardFrontendService/StreamGenerate"
    );
    let q: Vec<(&str, &str)> = req.query.iter().map(|(a, b)| (a.as_str(), b.as_str())).collect();
    assert_eq!(
        q,
        vec![("bl", "boq_bl"), ("f.sid", "-42"), ("hl", "en"), ("pageId", "none"), ("_reqid", "100000"), ("rt", "c")]
    );
    let h: Vec<(&str, &str)> = req.headers.iter().map(|(a, b)| (a.as_str(), b.as_str())).collect();
    assert_eq!(
        h,
        vec![
            ("Origin", "https://gemini.google.com"),
            ("Referer", "https://gemini.google.com/"),
            ("X-Same-Domain", "1"),
            (
                "x-goog-ext-525001261-jspb",
                "[1,null,null,null,\"56fdd199312815e2\",null,null,0,[4,5,6,8],null,null,2,null,null,1,1,\"FF000102-0304-4506-B708-090A0B0C0D0E\"]"
            ),
            ("x-goog-ext-525005358-jspb", "[\"12345678-9ABC-4DEF-8FED-CBA987654321\",1]"),
            ("x-goog-ext-73010989-jspb", "[0]"),
            ("x-goog-ext-73010990-jspb", "[0,0,0]"),
        ]
    );
    assert_eq!(req.form[0], ("at".to_string(), "AT:1".to_string()));
    assert_eq!(req.form[1].0, "f.req");
    let freq: serde_json::Value = serde_json::from_str(&req.form[1].1).unwrap();
    assert!(freq[0].is_null());
    let inner: serde_json::Value = serde_json::from_str(freq[1].as_str().unwrap()).unwrap();
    assert_eq!(inner[0][0].as_str(), Some("a fox"));
    assert_eq!(inner[4].as_str(), Some("deadbeef000040008000000000000001"));
    assert_eq!(inner[59].as_str(), Some("12345678-9ABC-4DEF-8FED-CBA987654321"));
}

fn is_v4_text(t: &str) -> bool {
    let c: Vec<char> = t.chars().collect();
    c.len() == 36
        && c[8] == '-' && c[13] == '-' && c[18] == '-' && c[23] == '-'
        && c[14] == '4'
        && "89AB".contains(c[19])
        && c.iter().enumerate().all(|(i, ch)| [8, 13, 18, 23].contains(&i) || "0123456789ABCDEF".contains(*ch))
}

#[test]
fn random_ids_are_v4() {
    let a = generate_request(&session(), 0, "x").unwrap();
    let b = generate_request(&session(), 0, "x").unwrap();
    let turn_a = a.headers[4].1.trim_start_matches("[\"").trim_end_matches("\",1]").to_string();
    let turn_b = b.headers[4].1.trim_start_matches("[\"").trim_end_matches("\",1]").to_string();
    assert!(is_v4_text(&turn_a), "{}", turn_a);
    assert!(is_v4_text(&turn_b));
    assert_ne!(turn_a, turn_b);
    let model = a.headers[3].1.rsplit(",\"").next().unwrap().trim_end_matches("\"]").to_string();
    assert!(is_v4_text(&model), "{}", model);
}
