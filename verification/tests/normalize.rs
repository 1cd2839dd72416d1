use course_shelf::names::{clean_name, is_video, sort_key};

#[test]
fn strips_extension_and_numeric_prefix() {
    assert_eq!(clean_name("01 - Intro.mp4"), "Intro");
    assert_eq!(clean_name("12. Advanced_Topic.MKV"), "Advanced_Topic");
    assert_eq!(clean_name("01_intro.mp4"), "intro");
    assert_eq!(clean_name("3.14"), "14");
    assert_eq!(clean_name("1-2"), "2");
    assert_eq!(clean_name("1 - 2"), "2");
}

#[test]
fn trims_whitespace() {
    assert_eq!(clean_name("  spaces  "), "spaces");
    assert_eq!(clean_name(" 07 - Loops.webm "), "Loops");
}

#[test]
fn purely_numeric_names_keep_their_number() {
    assert_eq!(clean_name("02"), "02");
    assert_eq!(clean_name("42.mp4"), "42");
}

#[test]
fn already_normal_titles_are_unchanged() {
    let once = clean_name("05 - Getting Started.mp4");
    assert_eq!(once, "Getting Started");
    assert_eq!(clean_name(&once), once);
    assert_eq!(clean_name("Plain Title"), "Plain Title");
}

#[test]
fn nonempty_input_gives_nonempty_title() {
    for name in ["x", "7", "7.mp4", "  a  ", "_ -", "01.", "01 -"] {
        assert!(!clean_name(name).is_empty(), "empty title for {:?}", name);
    }
}

#[test]
fn video_extension_allow_list() {
    assert!(is_video("a.mp4"));
    assert!(is_video("A.MP4"));
    assert!(is_video("clip.mpeg"));
    assert!(is_video("clip.ts"));
    assert!(is_video("clip.3gp"));
    assert!(!is_video("a.txt"));
    assert!(!is_video("mp4"));
    assert!(!is_video(".mp4"));
    assert!(!is_video("archive.mp40"));
}

#[test]
fn sort_key_orders_numeric_prefixes_numerically() {
    assert_eq!(sort_key("9.mp4").0, 9);
    assert_eq!(sort_key("10.mp4").0, 10);
    assert!(sort_key("9.mp4") < sort_key("10.mp4"));
}

#[test]
fn sort_key_groups_numbered_names_first() {
    assert_eq!(sort_key("appendix.mp4").0, u64::MAX);
    assert!(sort_key("12 things.mp4").0 < sort_key("appendix.mp4").0);
}

#[test]
fn sort_key_lowercases_the_tie_break() {
    assert_eq!(sort_key("AbC.Mp4").1, "abc.mp4");
    assert_eq!(sort_key("01 Intro").1, "01 intro");
}

#[test]
fn sort_key_overflowing_prefix_counts_as_unnumbered() {
    assert_eq!(sort_key("99999999999999999999.mp4").0, u64::MAX);
}
