use voice_capture::transcript::{clean_transcription_text, settle_pass};

#[test]
fn tags_are_removed() {
    assert_eq!(clean_transcription_text("<|zh|><|NEUTRAL|><|Speech|>你好世界"), "你好世界");
    assert_eq!(clean_transcription_text("<|en|><|HAPPY|>hello"), "hello");
    assert_eq!(clean_transcription_text("a<|anything at all|>b"), "ab");
}

#[test]
fn a_tag_that_only_forms_after_the_first_pass_is_removed_by_a_later_one() {
    assert_eq!(clean_transcription_text("<|z<|a|>h|>text"), "text");
    assert_eq!(clean_transcription_text("<|S<|x|>AD|>text"), "text");
    // but not one outside the list
    assert_eq!(clean_transcription_text("<|f<|x|>r|>text"), "<|fr|>text");
}

#[test]
fn ends_are_trimmed_and_white_space_runs_collapse() {
    assert_eq!(clean_transcription_text("  hello   world \n"), "hello world");
    assert_eq!(clean_transcription_text("<|zh|>  a \t\n b<|Speech|>  "), "a b");
    assert_eq!(clean_transcription_text("\u{3000}全角\u{3000}\u{3000}空格 "), "全角 空格");
}

#[test]
fn text_without_tags_or_spare_space_is_unchanged() {
    assert_eq!(clean_transcription_text(""), "");
    assert_eq!(clean_transcription_text("plain text"), "plain text");
    assert_eq!(clean_transcription_text("a <| b"), "a <| b");
    assert_eq!(clean_transcription_text("<||>"), "<||>");
}

#[test]
fn a_pass_keeps_the_text_where_the_pattern_did_not_compile() {
    assert_eq!(settle_pass("kept".to_string(), None), "kept");
    assert_eq!(settle_pass("dropped".to_string(), Some("taken".to_string())), "taken");
    assert_eq!(settle_pass("dropped".to_string(), Some(String::new())), "");
}

const WHITE_SPACE: [char; 25] = [
    '\u{9}', '\u{a}', '\u{b}', '\u{c}', '\u{d}', ' ', '\u{85}', '\u{a0}', '\u{1680}', '\u{2000}',
    '\u{2001}', '\u{2002}', '\u{2003}', '\u{2004}', '\u{2005}', '\u{2006}', '\u{2007}',
    '\u{2008}', '\u{2009}', '\u{200a}', '\u{2028}', '\u{2029}', '\u{202f}', '\u{205f}',
    '\u{3000}',
];

#[test]
fn every_white_space_character_is_trimmed_from_both_ends() {
    for c in WHITE_SPACE {
        assert_eq!(clean_transcription_text(&format!("{c}x{c}")), "x", "U+{:04X}", c as u32);
        assert_eq!(clean_transcription_text(&format!("{c}{c}x y{c}")), "x y", "U+{:04X}", c as u32);
    }
    assert_eq!(clean_transcription_text(" \t\u{3000}\n"), "");
}

#[test]
fn characters_that_are_not_white_space_stay_at_the_ends() {
    for c in [
        '\u{8}', '\u{e}', '\u{1f}', '!', '\u{84}', '\u{86}', '\u{9f}', '\u{a1}', '\u{167f}',
        '\u{1681}', '\u{180e}', '\u{1fff}', '\u{200b}', '\u{200c}', '\u{2027}', '\u{202a}',
        '\u{202e}', '\u{2030}', '\u{205e}', '\u{2060}', '\u{2fff}', '\u{3001}', '\u{feff}',
        'x',
    ] {
        let text = format!("{c}a{c}");
        assert_eq!(clean_transcription_text(&text), text, "U+{:04X}", c as u32);
    }
}

#[test]
fn the_standard_library_trims_exactly_the_listed_white_space() {
    for code in 0..=0x10_ffffu32 {
        if let Some(c) = char::from_u32(code) {
            assert_eq!(c.is_whitespace(), WHITE_SPACE.contains(&c), "U+{code:04X}");
        }
    }
}
