use sip_front::err::lines::{pointer_line, source_line};

#[test]
fn source_line_by_index() {
    let src: &[u8] = b"first\nsecond\r\nthird";
    assert_eq!(source_line(src, 0), b"first".to_vec());
    assert_eq!(source_line(src, 1), b"second".to_vec());
    assert_eq!(source_line(src, 2), b"third".to_vec());
    assert_eq!(source_line(src, 3), Vec::<u8>::new());
}

#[test]
fn source_line_of_empty_input() {
    assert_eq!(source_line(b"", 0), Vec::<u8>::new());
}

#[test]
fn source_line_with_trailing_newline() {
    let src: &[u8] = b"one\n";
    assert_eq!(source_line(src, 0), b"one".to_vec());
    assert_eq!(source_line(src, 1), Vec::<u8>::new());
}

#[test]
fn pointer_line_underlines_the_span() {
    assert_eq!(pointer_line(8, 3, 6), b"   ^^^  ".to_vec());
    assert_eq!(pointer_line(4, 0, 1), b"^   ".to_vec());
    assert_eq!(pointer_line(3, 5, 9), b"   ".to_vec());
    assert_eq!(pointer_line(0, 0, 1), Vec::<u8>::new());
}
