use autosplit_timer::text::{contains_bytes, find_newline, NEWLINE};

#[test]
fn contains_bytes_finds_a_needle_anywhere() {
    assert!(contains_bytes(b"boss defeated", b"boss"));
    assert!(contains_bytes(b"boss defeated", b"defeated"));
    assert!(contains_bytes(b"boss defeated", b"s d"));
    assert!(contains_bytes(b"boss defeated", b"boss defeated"));
    assert!(!contains_bytes(b"boss defeated", b"boss  defeated"));
    assert!(!contains_bytes(b"boss defeated", b"defeated!"));
    assert!(!contains_bytes(b"boss", b"boss defeated"));
}

#[test]
fn contains_bytes_tells_upper_from_lower_case() {
    assert!(!contains_bytes(b"Boss Defeated", b"boss"));
    assert!(contains_bytes(b"Boss Defeated", b"Boss"));
}

#[test]
fn contains_bytes_counts_white_space_as_any_other_byte() {
    assert!(contains_bytes(b"all done ", b"done "));
    assert!(!contains_bytes(b"all done", b"done "));
    assert!(contains_bytes(b" go\r", b" go"));
    assert!(!contains_bytes(b"go", b" go"));
    assert!(contains_bytes(b"a\tb", b"\t"));
}

#[test]
fn contains_bytes_finds_the_empty_needle_everywhere() {
    assert!(contains_bytes(b"anything", b""));
    assert!(contains_bytes(b"", b""));
    assert!(!contains_bytes(b"", b"x"));
}

#[test]
fn contains_bytes_goes_on_after_a_partial_match() {
    assert!(contains_bytes(b"aaab", b"aab"));
    assert!(contains_bytes(b"ababac", b"abac"));
    assert!(!contains_bytes(b"ababab", b"abac"));
}

#[test]
fn contains_bytes_agrees_with_the_search_by_characters() {
    let lines = ["niveau termin\u{e9}", "\u{e9}t\u{e9}", "plain", "\u{1f3c1} finish \u{1f3c1}"];
    let needles = ["\u{e9}", "termin", "\u{1f3c1}", "finish", "\u{e8}", "t\u{e9}"];
    for line in lines {
        for needle in needles {
            assert_eq!(
                contains_bytes(line.as_bytes(), needle.as_bytes()),
                line.contains(needle)
            );
        }
    }
}

#[test]
fn find_newline_gives_the_first_newline_from_an_index() {
    assert_eq!(NEWLINE, b'\n');
    let data = b"ab\ncd\n\nef";
    assert_eq!(find_newline(data, 0), Some(2));
    assert_eq!(find_newline(data, 2), Some(2));
    assert_eq!(find_newline(data, 3), Some(5));
    assert_eq!(find_newline(data, 6), Some(6));
    assert_eq!(find_newline(data, 7), None);
    assert_eq!(find_newline(data, 9), None);
    assert_eq!(find_newline(b"", 0), None);
}
