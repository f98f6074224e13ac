use music_backend::lyrics::{parse_lrc_lyrics, LyricLine};

fn line(time_ms: u64, text: &str) -> LyricLine {
    LyricLine { time_ms, text: text.to_string() }
}

#[test]
fn two_timestamps_on_one_line() {
    let (plain, synced) = parse_lrc_lyrics("[00:01.00][00:05.50]Hello");
    assert_eq!(plain, "Hello");
    assert_eq!(synced, Some(vec![line(1000, "Hello"), line(5500, "Hello")]));
}

#[test]
fn two_digit_fraction_is_hundredths() {
    let (plain, synced) = parse_lrc_lyrics("[00:12.34]Hello");
    assert_eq!(plain, "Hello");
    assert_eq!(synced, Some(vec![line(12340, "Hello")]));
}

#[test]
fn marker_without_fraction() {
    let (_, synced) = parse_lrc_lyrics("[01:02]Hi");
    assert_eq!(synced, Some(vec![line(62000, "Hi")]));
}

#[test]
fn one_digit_fraction_is_tenths() {
    let (_, synced) = parse_lrc_lyrics("[00:00.5]X");
    assert_eq!(synced, Some(vec![line(500, "X")]));
}

#[test]
fn three_digit_fraction_is_thousandths() {
    let (_, synced) = parse_lrc_lyrics("[00:01.234]A");
    assert_eq!(synced, Some(vec![line(1234, "A")]));
}

#[test]
fn leading_zero_fraction_counts_digits() {
    let (_, synced) = parse_lrc_lyrics("[00:01.05]A");
    assert_eq!(synced, Some(vec![line(1050, "A")]));
}

#[test]
fn plain_block_is_unchanged() {
    let raw = "First line\nSecond line\nThird [line]";
    let (plain, synced) = parse_lrc_lyrics(raw);
    assert_eq!(plain, raw);
    assert_eq!(synced, None);
}

#[test]
fn timeline_sorted_and_stable() {
    let (plain, synced) = parse_lrc_lyrics("[00:10.00]B\n[00:05.00]A\n[00:10.00]C");
    assert_eq!(plain, "B\nA\nC");
    assert_eq!(
        synced,
        Some(vec![line(5000, "A"), line(10000, "B"), line(10000, "C")])
    );
}

#[test]
fn untimed_and_blank_lines() {
    let (plain, synced) = parse_lrc_lyrics("[00:01]A\nplain words\n\n   \n  [00:02]  B  \n");
    assert_eq!(plain, "A\nplain words\nB");
    assert_eq!(synced, Some(vec![line(1000, "A"), line(2000, "B")]));
}

#[test]
fn empty_input() {
    let (plain, synced) = parse_lrc_lyrics("");
    assert_eq!(plain, "");
    assert_eq!(synced, None);
}

#[test]
fn line_of_markers_only_is_dropped() {
    let (plain, synced) = parse_lrc_lyrics("[00:01]\n[00:02]Next");
    assert_eq!(plain, "Next");
    assert_eq!(synced, Some(vec![line(2000, "Next")]));
}

#[test]
fn four_fraction_digits_are_no_marker() {
    let (plain, synced) = parse_lrc_lyrics("[00:01.2345]X");
    assert_eq!(plain, "[00:01.2345]X");
    assert_eq!(synced, None);
}

#[test]
fn crlf_line_endings() {
    let (plain, synced) = parse_lrc_lyrics("[00:01]One\r\n[00:02]Two\r\n");
    assert_eq!(plain, "One\nTwo");
    assert_eq!(synced, Some(vec![line(1000, "One"), line(2000, "Two")]));
}

#[test]
fn marker_inside_text() {
    let (plain, synced) = parse_lrc_lyrics("Hel[00:03]lo");
    assert_eq!(plain, "Hello");
    assert_eq!(synced, Some(vec![line(3000, "Hello")]));
}

#[test]
fn largest_marker_time() {
    let (_, synced) = parse_lrc_lyrics("[99:99.999]End");
    assert_eq!(synced, Some(vec![line(99 * 60000 + 99 * 1000 + 999, "End")]));
}

#[test]
fn unicode_white_space_is_trimmed() {
    let (plain, synced) = parse_lrc_lyrics("\u{3000}[00:01]\u{a0}Wide\u{2003}");
    assert_eq!(plain, "Wide");
    assert_eq!(synced, Some(vec![line(1000, "Wide")]));
}

#[test]
fn malformed_markers_stay_in_text() {
    let (plain, synced) = parse_lrc_lyrics("[0:01]a\n[00:1]b\n[00-01]c\n[00:01.]d");
    assert_eq!(plain, "[0:01]a\n[00:1]b\n[00-01]c\n[00:01.]d");
    assert_eq!(synced, None);
}
