use gemini_web_image::json::{decode, encode, get_index, get_pointer, get_str_at, Json, Payload};

#[test]
fn decodes_json_tree() {
    let j = decode("[null,true,3.5,\"s\",{\"k\":[1]}]").unwrap();
    match &j {
        Json::Arr(a) => {
            assert_eq!(a.len(), 5);
            assert!(matches!(a[0], Json::Null));
            assert!(matches!(a[1], Json::Bool(true)));
            assert!(matches!(a[2], Json::Num));
            assert!(matches!(&a[3], Json::Str(s) if s == "s"));
            assert!(matches!(&a[4], Json::Obj(m) if m.len() == 1 && m[0].0 == "k"));
        }
        _ => panic!("not an array"),
    }
    assert!(decode("[1,").is_err());
    assert!(decode("").is_err());
}

#[test]
fn pointer_walks_arrays_and_objects() {
    let j = decode("[0,{\"3\":[\"a\",\"b\"]},[\"x\"]]").unwrap();
    assert_eq!(get_str_at(&j, &[1, 3, 1]).map(|s| s.as_str()), Some("b"));
    assert_eq!(get_str_at(&j, &[2, 0]).map(|s| s.as_str()), Some("x"));
    assert!(get_str_at(&j, &[2, 1]).is_none());
    assert!(get_str_at(&j, &[0, 0]).is_none());
    assert!(get_pointer(&j, &[]).is_some());
    // Integer indexing reads arrays only; the pointer also reads objects.
    let o = decode("{\"4\":\"v\"}").unwrap();
    assert!(get_index(&o, 4).is_none());
    assert_eq!(get_str_at(&o, &[4]).map(|s| s.as_str()), Some("v"));
}

#[test]
fn encoding_escapes_control_characters() {
    let p = Payload::Text("\u{1}\u{8}\t\u{c}\r\u{1f}\u{7f}é\u{1F98A}/".to_string());
    assert_eq!(
        encode(&p).unwrap(),
        "\"\\u0001\\b\\t\\f\\r\\u001f\u{7f}é\u{1F98A}/\""
    );
}

#[test]
fn encoding_nests_lists_without_spaces() {
    let p = Payload::List(vec![
        Payload::List(vec![]),
        Payload::List(vec![Payload::Int(i64::MIN), Payload::Int(i64::MAX), Payload::Int(0)]),
        Payload::Null,
    ]);
    assert_eq!(
        encode(&p).unwrap(),
        "[[],[-9223372036854775808,9223372036854775807,0],null]"
    );
}
