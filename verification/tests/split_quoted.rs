use modbusaudio::split_quoted::{is_space_char, split_quoted};

#[test]
fn test_split_quoted() {
    let mut split = split_quoted("  dashk\tjöasjkl \"jh  \thjk\'hjkk\" sd");
    assert_eq!(split.next(), Some("dashk"));
    assert_eq!(split.next(), Some("jöasjkl"));
    assert_eq!(split.next(), Some("jh  \thjk'hjkk"));
    assert_eq!(split.next(), Some("sd"));
    assert_eq!(split.next(), None);

    let mut split = split_quoted("  'dashk\" \"sh ' 12 \"kjsdk ");
    assert_eq!(split.next(), Some("dashk\" \"sh "));
    assert_eq!(split.next(), Some("12"));
    assert_eq!(split.next(), Some("kjsdk "));
    assert_eq!(split.next(), None);

    let mut split = split_quoted("  \t\n");
    assert_eq!(split.next(), None);
}

#[test]
fn split_quoted_stays_done() {
    let mut split = split_quoted("one");
    assert_eq!(split.next(), Some("one"));
    assert_eq!(split.next(), None);
    assert_eq!(split.next(), None);
}

#[test]
fn split_quoted_empty_quoted_token() {
    let mut split = split_quoted("a '' b");
    assert_eq!(split.next(), Some("a"));
    assert_eq!(split.next(), Some(""));
    assert_eq!(split.next(), Some("b"));
    assert_eq!(split.next(), None);
}

#[test]
fn is_space_char_matches_std() {
    for c in [' ', '\t', '\n', '\r', '\u{a0}', '\u{2003}', '\u{3000}', 'x', '0', 'ö', '"'] {
        assert_eq!(is_space_char(c), c.is_whitespace(), "mismatch on {:?}", c);
    }
}
