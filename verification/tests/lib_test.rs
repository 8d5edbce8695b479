use repisode::digits::{push_padded, push_range, significant_len};
use repisode::splice::{check_spans, splice, width_of};
use repisode::text::text_of;
use repisode::{answer, is_glob, read_answer};

fn padded(field: &str, width: usize) -> String {
    let mut out = b"x".to_vec();
    push_padded(&mut out, field.as_bytes(), width);
    String::from_utf8(out).unwrap()
}

#[test]
fn significant_digits() {
    assert_eq!(significant_len(b""), 0);
    assert_eq!(significant_len(b"0"), 1);
    assert_eq!(significant_len(b"000"), 1);
    assert_eq!(significant_len(b"7"), 1);
    assert_eq!(significant_len(b"007"), 1);
    assert_eq!(significant_len(b"0070"), 2);
    assert_eq!(significant_len(b"1200"), 4);
}

#[test]
fn padding() {
    assert_eq!(padded("7", 3), "x007");
    assert_eq!(padded("007", 2), "x07");
    assert_eq!(padded("007", 1), "x7");
    assert_eq!(padded("007", 0), "x7");
    assert_eq!(padded("123", 2), "x123");
    assert_eq!(padded("000", 0), "x0");
    assert_eq!(padded("000", 2), "x00");
    assert_eq!(padded("", 2), "x00");
    assert_eq!(padded("", 0), "x");
}

#[test]
fn ranges_are_appended() {
    let mut out = vec![1u8];
    push_range(&mut out, b"abcdef", 2, 4);
    assert_eq!(out, [1, b'c', b'd']);
    push_range(&mut out, b"abcdef", 6, 6);
    assert_eq!(out, [1, b'c', b'd']);
    push_range(&mut out, b"ab", 0, 2);
    assert_eq!(out, [1, b'c', b'd', b'a', b'b']);
}

#[test]
fn spans_of_bytes() {
    assert!(check_spans(b"a1b22", &vec![(1, 2), (3, 5)]));
    assert!(check_spans(b"", &vec![]));
    assert!(!check_spans(b"a1b22", &vec![(0, 2)]));
    assert!(!check_spans(b"a1b22", &vec![(3, 5), (1, 2)]));
    assert!(!check_spans(b"a1b22", &vec![(3, 6)]));
    assert!(!check_spans(b"a/b:c", &vec![(1, 2)]));
    assert!(!check_spans(b"a/b:c", &vec![(3, 4)]));
    assert_eq!(splice(b"a1b22", &vec![(1, 2), (3, 5)], &[2, 3]), b"a01b022");
    assert_eq!(splice(b"a1b22", &vec![(1, 2), (3, 5)], &[2]), b"a01b22");
    assert_eq!(splice(b"1", &vec![(0, 1)], &[4]), b"0001");
    assert_eq!(splice(b"abc", &vec![], &[4]), b"abc");
    assert_eq!(width_of(&[4, 5], 1), 5);
    assert_eq!(width_of(&[4, 5], 2), 0);
}

#[test]
fn bytes_become_text_when_they_are_utf8() {
    assert_eq!(text_of(vec![]), Some(String::new()));
    assert_eq!(text_of("aé日".as_bytes().to_vec()), Some("aé日".to_string()));
    assert_eq!(text_of(vec![0xC3]), None);
    assert_eq!(text_of(vec![b'a', 0xA9]), None);
    assert_eq!(text_of(vec![0xED, 0xA0, 0x80]), None);
}

#[test]
fn globs() {
    assert!(is_glob("*.mp4"));
    assert!(is_glob("ep ?.mp4"));
    assert!(is_glob("a*?"));
    assert!(!is_glob(""));
    assert!(!is_glob("ep 1.mp4"));
    assert!(!is_glob("[ab]"));
}

#[test]
fn answers() {
    assert_eq!(answer("y"), Some(true));
    assert_eq!(answer("Y"), Some(true));
    assert_eq!(answer("yes"), Some(true));
    assert_eq!(answer("YeS"), Some(true));
    assert_eq!(answer("n"), Some(false));
    assert_eq!(answer("N"), Some(false));
    assert_eq!(answer("no"), Some(false));
    assert_eq!(answer("NO"), Some(false));
    assert_eq!(answer(""), None);
    assert_eq!(answer("yes "), None);
    assert_eq!(answer(" y"), None);
    assert_eq!(answer("maybe"), None);
    assert_eq!(answer("ye"), None);
    assert_eq!(read_answer("y"), Some(true));
    assert_eq!(read_answer("no"), Some(false));
    assert_eq!(read_answer("Y"), None);
    assert_eq!(read_answer("NO"), None);
}
