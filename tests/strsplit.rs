use pointers::strsplit::{until_char, Delimeter, StrSplit};

fn collect<'a>(mut s: StrSplit<'a, &str>) -> Vec<&'a str> {
    let mut out = Vec::new();
    while let Some(piece) = s.next() {
        out.push(piece);
    }
    out
}

#[test]
fn until_char_test() {
    assert_eq!(until_char("hello world", 'o'), "hell");
}

#[test]
fn it_works() {
    let haystack = "a b c d e";
    let letters = collect(StrSplit::new(haystack, " "));
    assert_eq!(letters, vec!["a", "b", "c", "d", "e"]);
}

#[test]
fn it_works2() {
    let haystack = "a b c d ";
    let letters = collect(StrSplit::new(haystack, " "));
    assert_eq!(letters, vec!["a", "b", "c", "d", ""]);
}

#[test]
fn until_char_absent_gives_whole_text() {
    assert_eq!(until_char("hello", 'z'), "hello");
}

#[test]
fn until_char_multibyte() {
    assert_eq!(until_char("naïve café", 'é'), "naïve caf");
}

#[test]
fn multibyte_delimiter_pieces() {
    let letters = collect(StrSplit::new("x→y→→z", "→"));
    assert_eq!(letters, vec!["x", "y", "", "z"]);
}

#[test]
fn find_next_reports_first_range() {
    let d: &str = "ab";
    assert_eq!(d.find_next("xxabyab"), Some((2, 4)));
    assert_eq!(d.find_next("xyz"), None);
}

#[test]
fn split_ends_after_last_piece() {
    let mut s = StrSplit::new("a,b", ",");
    assert_eq!(s.next(), Some("a"));
    assert_eq!(s.next(), Some("b"));
    assert_eq!(s.next(), None);
    assert_eq!(s.next(), None);
}
