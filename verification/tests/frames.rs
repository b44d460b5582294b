use gemini_web_image::frames::{frames_fit_exec, split_frames};

/// A frame as Gemini writes it: the length covers the newline that follows it.
fn frame(content: &str) -> String {
    let carried = format!("\n{}\n", content);
    format!("{}{}", carried.encode_utf16().count(), carried)
}

#[test]
fn splits_guarded_stream() {
    let body = format!(")]}}'\n\n{}{}", frame("[1,2]"), frame("[\"a\"]"));
    assert!(frames_fit_exec(&body));
    assert_eq!(split_frames(&body), vec!["[1,2]".to_string(), "[\"a\"]".to_string()]);
}

#[test]
fn length_excluding_the_newline_cuts_the_frame_short() {
    // The announced length starts right after the digits, newline included.
    assert_eq!(split_frames("5\n[1,2]\n"), vec!["[1,2".to_string()]);
}

#[test]
fn length_counts_utf16_units() {
    // U+1F98A takes two UTF-16 units, so a length of 4 covers "[🦊]" exactly.
    let body = "4[\u{1F98A}]3abc";
    assert_eq!(split_frames(body), vec!["[\u{1F98A}]".to_string(), "abc".to_string()]);
}

#[test]
fn frames_are_trimmed_and_blank_ones_dropped() {
    let body = "7  [1]  \n3   2xy";
    assert_eq!(split_frames(body), vec!["[1]".to_string(), "xy".to_string()]);
}

#[test]
fn stops_at_first_non_digit_header() {
    let body = "3abc x 3def";
    assert_eq!(split_frames(body), vec!["abc".to_string()]);
}

#[test]
fn short_content_runs_to_end() {
    assert_eq!(split_frames("10abc"), vec!["abc".to_string()]);
}

#[test]
fn empty_and_guard_only_bodies() {
    assert!(split_frames("").is_empty());
    assert!(split_frames(")]}'").is_empty());
    assert!(split_frames(")]}')]}'   ").is_empty());
}

#[test]
fn guard_removed_repeatedly() {
    assert_eq!(split_frames(")]}')]}'2ab"), vec!["ab".to_string()]);
}

#[test]
fn oversized_length_does_not_fit() {
    assert!(!frames_fit_exec("99999999999999999999999999[1]"));
    assert!(frames_fit_exec("18446744073709551615[1]") || usize::MAX as u64 != u64::MAX);
    assert!(frames_fit_exec("no frames at all"));
}

#[test]
fn splitting_inverts_encoding() {
    let frames = vec!["[[\"wrb.fr\",null,\"x\"]]", "[\"\u{1F98A}\"]", "abc 1"];
    let mut body = String::new();
    for f in &frames {
        body.push_str(&f.encode_utf16().count().to_string());
        body.push_str(f);
    }
    let got = split_frames(&body);
    assert_eq!(got, frames.iter().map(|f| f.to_string()).collect::<Vec<_>>());
    let guarded = format!(")]}}'{}", body);
    assert_eq!(split_frames(&guarded), got);
}

#[test]
fn splitting_inverts_newline_encoding() {
    // Frames that begin with a digit are carried too once a newline
    // separates them from their length header.
    let frames = vec!["123", "[\"\u{1F98A}\"]", "7 days", "[null]"];
    let mut body = String::from(")]}'");
    for f in &frames {
        body.push_str(&(f.encode_utf16().count() + 1).to_string());
        body.push('\n');
        body.push_str(f);
    }
    assert!(frames_fit_exec(&body));
    assert_eq!(split_frames(&body), frames.iter().map(|f| f.to_string()).collect::<Vec<_>>());
    let bare = body.trim_start_matches(")]}'").to_string();
    assert_eq!(split_frames(&bare), frames.iter().map(|f| f.to_string()).collect::<Vec<_>>());
}
