use pmk_precompute::error::PmkError;
use pmk_precompute::text::{parse_list, render_lines, split_lines};

fn owned(items: &[&[u8]]) -> Vec<Vec<u8>> {
    items.iter().map(|s| s.to_vec()).collect()
}

#[test]
fn split_on_newlines_without_trailing_one() {
    assert_eq!(split_lines(b"a\nbb\nccc"), owned(&[b"a", b"bb", b"ccc"]));
}

#[test]
fn trailing_newline_adds_no_line() {
    assert_eq!(split_lines(b"a\nb\n"), owned(&[b"a", b"b"]));
}

#[test]
fn crlf_endings_are_removed() {
    assert_eq!(split_lines(b"a\r\nb\r\n"), owned(&[b"a", b"b"]));
}

#[test]
fn carriage_return_elsewhere_is_kept() {
    assert_eq!(split_lines(b"a\rb\nc\r"), owned(&[b"a\rb", b"c\r"]));
}

#[test]
fn empty_lines_in_the_middle_are_kept() {
    assert_eq!(split_lines(b"a\n\nb\n"), owned(&[b"a", b"", b"b"]));
}

#[test]
fn empty_text_has_no_lines() {
    assert!(split_lines(b"").is_empty());
}

#[test]
fn parse_list_decodes_each_line() {
    let r = parse_list("HomeWiFi\r\nCafé\n".as_bytes());
    assert_eq!(r, Ok(vec!["HomeWiFi".to_string(), "Café".to_string()]));
}

#[test]
fn parse_list_names_the_first_malformed_line() {
    let r = parse_list(b"ok\n\xff\xfe\n\xc3\n");
    assert_eq!(r, Err(PmkError::MalformedLine(1)));
}

#[test]
fn parse_list_of_nothing_is_empty() {
    assert_eq!(parse_list(b""), Ok(Vec::new()));
}

#[test]
fn render_puts_each_key_on_its_line() {
    let keys = vec!["ab".to_string(), "cd".to_string()];
    assert_eq!(render_lines(&keys), "ab\ncd\n");
    assert_eq!(render_lines(&Vec::new()), "");
}
