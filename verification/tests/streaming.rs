use course_shelf::range::{parse_range, stream_head, u64_to_string, url_decode, video_mime};

#[test]
fn explicit_ranges_parse_inclusively() {
    assert_eq!(parse_range("bytes=100-199", 1000), Some((100, 199)));
    assert_eq!(parse_range("bytes=0-0", 1000), Some((0, 0)));
}

#[test]
fn suffix_ranges_take_the_last_bytes() {
    assert_eq!(parse_range("bytes=-100", 1000), Some((900, 999)));
    assert_eq!(parse_range("bytes=-5000", 1000), Some((0, 999)));
}

#[test]
fn open_ended_ranges_run_to_the_last_byte() {
    assert_eq!(parse_range("bytes=500-", 1000), Some((500, 999)));
}

#[test]
fn out_of_resource_and_malformed_ranges_are_rejected() {
    assert_eq!(parse_range("bytes=2000-3000", 1000), None);
    assert_eq!(parse_range("bytes=abc", 1000), None);
    assert_eq!(parse_range("bytes=", 1000), None);
    assert_eq!(parse_range("", 1000), None);
    assert_eq!(parse_range("octets=0-1", 1000), None);
    assert_eq!(parse_range("bytes=9-5", 1000), None);
}

#[test]
fn overlong_ends_are_clamped() {
    assert_eq!(parse_range("bytes=0-5000", 1000), Some((0, 999)));
}

#[test]
fn ranged_reply_is_partial_content() {
    let h = stream_head("bytes=0-99", 1000);
    assert_eq!(h.status, 206);
    assert_eq!(h.start, 0);
    assert_eq!(h.length, 100);
    assert_eq!(h.content_length, "100");
    assert_eq!(h.content_range.as_deref(), Some("bytes 0-99/1000"));
}

#[test]
fn rangeless_reply_is_the_whole_file() {
    let h = stream_head("", 1000);
    assert_eq!(h.status, 200);
    assert_eq!(h.start, 0);
    assert_eq!(h.length, 1000);
    assert_eq!(h.content_length, "1000");
    assert!(h.content_range.is_none());
}

#[test]
fn percent_sequences_decode_and_junk_passes_through() {
    assert_eq!(url_decode("%41b%20c"), "Ab c");
    assert_eq!(url_decode("no%zzescape"), "no%zzescape");
    assert_eq!(url_decode("trailing%4"), "trailing%4");
    assert_eq!(url_decode("%2Fhome%2Fme"), "/home/me");
    assert_eq!(url_decode("plain"), "plain");
}

#[test]
fn mime_follows_the_extension_table() {
    assert_eq!(video_mime("/v/a.mp4"), "video/mp4");
    assert_eq!(video_mime("/v/a.m4v"), "video/mp4");
    assert_eq!(video_mime("/v/A.MKV"), "video/x-matroska");
    assert_eq!(video_mime("clip.webm"), "video/webm");
    assert_eq!(video_mime("clip.mpeg"), "video/mpeg");
    assert_eq!(video_mime("clip.mpg"), "video/mpeg");
    assert_eq!(video_mime("clip.ogv"), "video/ogg");
    assert_eq!(video_mime("clip.ts"), "video/mp2t");
    assert_eq!(video_mime("notes.txt"), "application/octet-stream");
    assert_eq!(video_mime("/dir.d/file"), "application/octet-stream");
}

#[test]
fn decimal_rendering_is_plain() {
    assert_eq!(u64_to_string(0), "0");
    assert_eq!(u64_to_string(7), "7");
    assert_eq!(u64_to_string(12345), "12345");
    assert_eq!(u64_to_string(u64::MAX), "18446744073709551615");
}
