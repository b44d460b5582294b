use gemini_web_image::frames::frames_fit_exec;
use gemini_web_image::images::{extract_images, GeneratedImage};
use gemini_web_image::GeminiError;

/// A frame as Gemini writes it: the length covers the newline that follows it.
fn frame(content: &str) -> String {
    let carried = format!("\n{}\n", content);
    format!("{}{}", carried.encode_utf16().count(), carried)
}

/// A `wrb.fr` part carrying `payload` as a JSON string.
fn wrb(payload: &str) -> String {
    format!("[\"wrb.fr\",null,{}]", serde_json::to_string(payload).unwrap())
}

fn entry(url: &str, blob: &str, placeholder: &str) -> String {
    format!(
        "[[null,null,null,[null,null,null,\"{}\",null,\"{}\"]],[\"{}\"]]",
        url, blob, placeholder
    )
}

/// A candidate with its id and image lists at `/12/7/0` and `/12/0/8/0`.
fn candidate(id: &str, first: &[String], second: &[String]) -> String {
    let nulls = "null,".repeat(11);
    format!(
        "[\"{}\",{}[[null,null,null,null,null,null,null,null,[[{}]]],null,null,null,null,null,null,[[{}]]]]",
        id,
        nulls,
        second.join(","),
        first.join(",")
    )
}

fn payload(conv: &str, resp: &str, cands: &[String]) -> String {
    format!("[null,[\"{}\",\"{}\"],null,null,[{}]]", conv, resp, cands.join(","))
}

fn describe(images: &[GeneratedImage]) -> Vec<[String; 6]> {
    images
        .iter()
        .map(|i| {
            [
                i.url.clone(),
                i.blob.clone(),
                i.placeholder.clone(),
                i.candidate_id.clone(),
                i.response_id.clone(),
                i.conversation_id.clone(),
            ]
        })
        .collect()
}

fn strings(v: [&str; 6]) -> [String; 6] {
    v.map(|s| s.to_string())
}

#[test]
fn extracts_images_of_all_candidates() {
    let c1 = candidate(
        "rc_1",
        &[entry("https://img/1", "blob1", "  a fox  ")],
        &[entry("https://img/2", "blob2", "second")],
    );
    let c2 = candidate("rc_2", &[entry("https://img/3", "blob3", "third")], &[]);
    let p = payload("c_9", "r_9", &[c1, c2]);
    let body = format!(")]}}'\n{}{}", frame(&format!("[{}]", wrb(&p))), frame("[[\"di\",42],[\"af.httprm\",7]]"));
    assert!(frames_fit_exec(&body));
    let images = extract_images(&body).expect("well-formed answer");
    assert_eq!(
        describe(&images),
        vec![
            strings(["https://img/1", "blob1", "a fox", "rc_1", "r_9", "c_9"]),
            strings(["https://img/2", "blob2", "second", "rc_1", "r_9", "c_9"]),
            strings(["https://img/3", "blob3", "third", "rc_2", "r_9", "c_9"]),
        ]
    );
}

#[test]
fn repeated_urls_kept_once() {
    let c1 = candidate("a", &[entry("https://img/x", "b1", "p1")], &[entry("https://img/x", "b2", "p2")]);
    let p1 = payload("c", "r", &[c1]);
    let c2 = candidate("b", &[entry("https://img/x", "b3", "p3"), entry("https://img/y", "b4", "p4")], &[]);
    let p2 = payload("c", "r2", &[c2]);
    let body = format!("{}{}", frame(&format!("[{}]", wrb(&p1))), frame(&format!("[{}]", wrb(&p2))));
    let images = extract_images(&body).unwrap();
    let urls: Vec<&str> = images.iter().map(|i| i.url.as_str()).collect();
    assert_eq!(urls, vec!["https://img/x", "https://img/y"]);
    assert_eq!(images[0].blob, "b1");
    for i in 0..images.len() {
        for j in i + 1..images.len() {
            assert_ne!(images[i].url, images[j].url);
        }
    }
}

#[test]
fn parts_without_images_are_skipped() {
    let no_ids = "[null,null,null,null,[]]";
    let entry_missing_blob = "[[null,null,null,[null,null,null,\"https://u\"]],[\"p\"]]";
    let c = candidate("k", &[entry_missing_blob.to_string()], &[]);
    let p = payload("c", "r", &[c, "[7]".to_string()]);
    let body = frame(&format!(
        "[[\"other\",null,\"[]\"],{},{},[\"wrb.fr\",null,\"\"],[\"wrb.fr\"],{}]",
        wrb(no_ids),
        wrb(&p),
        wrb("{\"1\":[\"c\",\"r\"]}")
    ));
    assert_eq!(extract_images(&body).unwrap().len(), 0);
}

#[test]
fn frame_that_is_not_json_fails() {
    let body = format!("{}{}", frame("[1,2]"), frame("[not json"));
    assert!(matches!(extract_images(&body), Err(GeminiError::Json(_))));
}

#[test]
fn payload_that_is_not_json_fails() {
    let body = frame(&format!("[{}]", wrb("{oops")));
    assert!(matches!(extract_images(&body), Err(GeminiError::Json(_))));
}

#[test]
fn empty_body_has_no_images() {
    assert_eq!(extract_images("").unwrap().len(), 0);
    assert_eq!(extract_images(")]}'\n").unwrap().len(), 0);
}
