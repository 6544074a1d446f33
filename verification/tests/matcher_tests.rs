use grog::matcher::{contains_query, find_from, find_matches, find_matches_standard, render_display};

fn bytes(s: &str) -> Vec<u8> {
    s.as_bytes().to_vec()
}

#[test]
fn two_matches_in_one_line() {
    let s = bytes("hello world hello");
    let q = bytes("hello");
    let records = find_matches_standard(&s, &q);
    assert_eq!(records.len(), 2);
    assert_eq!(records[0].offset, 6);
    assert_eq!(records[1].offset, 18);
    assert_eq!(records[0].core, bytes("hello"));
    assert_eq!(records[1].core, bytes("hello"));
    assert!(records[0].offset < records[1].offset);
}

#[test]
fn matches_come_left_to_right() {
    let s = bytes("aba aba aba");
    let q = bytes("aba");
    let records = find_matches_standard(&s, &q);
    assert_eq!(records.len(), 3);
    assert_eq!(records[0].offset, 4);
    assert_eq!(records[1].offset, 8);
    assert_eq!(records[2].offset, 12);
}

#[test]
fn no_occurrence_gives_empty() {
    let s = bytes("hello world");
    let q = bytes("xyz");
    assert!(find_matches_standard(&s, &q).is_empty());
    assert!(!contains_query(&s, &q));
}

#[test]
fn query_longer_than_subject_gives_empty() {
    let s = bytes("aa");
    let q = bytes("aaaa");
    assert!(find_matches_standard(&s, &q).is_empty());
    assert!(!contains_query(&s, &q));
}

#[test]
fn empty_subject_gives_empty() {
    let s = bytes("");
    let q = bytes("a");
    assert!(find_matches_standard(&s, &q).is_empty());
}

#[test]
fn overlapping_occurrences_counted_once() {
    let s = bytes("aaa");
    let q = bytes("aa");
    let records = find_matches_standard(&s, &q);
    assert_eq!(records.len(), 1);
    assert_eq!(records[0].offset, 3);
}

#[test]
fn prefix_gets_marker_when_clamped() {
    // The match starts 25 bytes in: five bytes are cut off, so the prefix is
    // the marker plus the twenty bytes just before the match.
    let s = bytes("0123456789012345678901234match");
    let q = bytes("match");
    let records = find_matches_standard(&s, &q);
    assert_eq!(records.len(), 1);
    let prefix = &records[0].prefix;
    assert_eq!(prefix.len(), 23);
    assert_eq!(&prefix[0..3], b"...");
    assert_eq!(&prefix[3..], s[5..25].to_vec().as_slice());
}

#[test]
fn prefix_unmarked_at_exactly_padding() {
    // The match starts exactly 20 bytes in: nothing is cut off and no
    // marker is added.
    let s = bytes("01234567890123456789match");
    let q = bytes("match");
    let records = find_matches_standard(&s, &q);
    assert_eq!(records.len(), 1);
    assert_eq!(records[0].prefix, bytes("01234567890123456789"));
}

#[test]
fn prefix_unmarked_when_match_is_early() {
    let s = bytes("abcdematch tail");
    let q = bytes("match");
    let records = find_matches_standard(&s, &q);
    assert_eq!(records.len(), 1);
    assert_eq!(records[0].prefix, bytes("abcde"));
}

#[test]
fn suffix_gets_marker_when_clamped() {
    // With padding 35 after the match end, a 40-byte tail is cut to 35
    // bytes plus the marker.
    let tail = "0123456789012345678901234567890123456789";
    let s = bytes(&format!("match{}", tail));
    let q = bytes("match");
    let records = find_matches(&s, &q, 20, 35);
    assert_eq!(records.len(), 1);
    let suffix = &records[0].suffix;
    assert_eq!(suffix.len(), 38);
    assert_eq!(&suffix[0..35], &s[5..40]);
    assert_eq!(&suffix[35..], b"...");
}

#[test]
fn suffix_unmarked_when_tail_is_short() {
    let s = bytes("match tail");
    let q = bytes("match");
    let records = find_matches(&s, &q, 20, 35);
    assert_eq!(records.len(), 1);
    assert_eq!(records[0].suffix, bytes(" tail"));
}

#[test]
fn rerunning_gives_identical_output() {
    let s = bytes("one match here, one match there");
    let q = bytes("match");
    let first = find_matches_standard(&s, &q);
    let second = find_matches_standard(&s, &q);
    assert_eq!(first.len(), second.len());
    for (a, b) in first.iter().zip(second.iter()) {
        assert_eq!(a.offset, b.offset);
        assert_eq!(a.prefix, b.prefix);
        assert_eq!(a.core, b.core);
        assert_eq!(a.suffix, b.suffix);
    }
}

#[test]
fn case_folding_finds_mixed_case_matches() {
    let s = "Hello World HELLO";
    let q = "hello";
    // Without folding the mixed-case subject yields nothing.
    let unfolded = find_matches_standard(&bytes(s), &bytes(q));
    assert!(unfolded.is_empty());
    // Folding both sides first finds both occurrences, and the reported
    // match text is the folded one.
    let folded = find_matches_standard(&bytes(&s.to_lowercase()), &bytes(q));
    assert_eq!(folded.len(), 2);
    assert_eq!(folded[0].core, bytes("hello"));
    assert_eq!(folded[0].offset, 6);
    assert_eq!(folded[1].offset, 18);
}

#[test]
fn file_name_search_matches_inside_path() {
    // Name-search mode: the file name decides, the whole path is rendered.
    let name = bytes("report_final.txt");
    let path = bytes("./report_final.txt");
    let q = bytes("final");
    assert!(contains_query(&name, &q));
    let records = find_matches_standard(&path, &q);
    assert_eq!(records.len(), 1);
    assert_eq!(records[0].core, bytes("final"));
    assert_eq!(records[0].offset, 15);
    assert_eq!(records[0].prefix, bytes("./report_"));
    assert_eq!(records[0].suffix, bytes(".txt"));
}

#[test]
fn find_from_returns_leftmost_at_or_after() {
    let s = bytes("abcabc");
    let q = bytes("abc");
    assert_eq!(find_from(&s, &q, 0), Some(0));
    assert_eq!(find_from(&s, &q, 1), Some(3));
    assert_eq!(find_from(&s, &q, 4), None);
}

#[test]
fn display_reconstructs_window_without_colors() {
    let s = bytes("abcdematch tail");
    let q = bytes("match");
    let records = find_matches_standard(&s, &q);
    assert_eq!(records.len(), 1);
    let shown = render_display(&records[0], true);
    assert_eq!(shown, bytes("abcdematch tail"));
}

#[test]
fn display_wraps_match_in_highlight_escapes() {
    let s = bytes("a match b");
    let q = bytes("match");
    let records = find_matches_standard(&s, &q);
    assert_eq!(records.len(), 1);
    let shown = render_display(&records[0], false);
    assert_eq!(shown, bytes("a \x1b[36;1mmatch\x1b[0m b"));
}
