use dehtml::capi::{
    dehtml_errstr, parse_html, write_node, write_output, ERR_INSUFFICIENT_BUFFER,
    ERR_INVALID_BAD_DOCUMENT, ERR_INVALID_STRING, ERR_UNSPECIFIED,
};
use dehtml::Node;

#[test]
fn error_codes_are_fixed() {
    assert_eq!(ERR_UNSPECIFIED, -1);
    assert_eq!(ERR_INSUFFICIENT_BUFFER, -2);
    assert_eq!(ERR_INVALID_STRING, -3);
    assert_eq!(ERR_INVALID_BAD_DOCUMENT, -4);
}

#[test]
fn messages_end_in_nul() {
    assert_eq!(dehtml_errstr(-1), Some("unspecified\0"));
    assert_eq!(dehtml_errstr(-2), Some("insufficient buffer\0"));
    assert_eq!(dehtml_errstr(-3), Some("invalid string\0"));
    assert_eq!(dehtml_errstr(-4), Some("invalid document\0"));
}

#[test]
fn other_numbers_have_no_message() {
    assert_eq!(dehtml_errstr(0), None);
    assert_eq!(dehtml_errstr(1), None);
    assert_eq!(dehtml_errstr(-5), None);
    assert_eq!(dehtml_errstr(i32::MIN), None);
    assert_eq!(dehtml_errstr(i32::MAX), None);
}

#[test]
fn output_is_written_to_the_front_and_the_rest_kept() {
    let mut buffer = [0xAAu8; 32];
    let written = parse_html(b"hi", &mut buffer);
    let expected = br#"["text","hi"]"#;
    assert_eq!(written, expected.len() as i32);
    assert_eq!(&buffer[..expected.len()], expected);
    assert!(buffer[expected.len()..].iter().all(|b| *b == 0xAA));
}

#[test]
fn buffer_of_exactly_the_length_is_enough() {
    let expected = br#"["text","hi"]"#;
    let mut buffer = vec![0u8; expected.len()];
    assert_eq!(parse_html(b"hi", &mut buffer), expected.len() as i32);
    assert_eq!(buffer, expected);
}

#[test]
fn buffer_one_byte_short_is_insufficient_and_untouched() {
    let expected = br#"["text","hi"]"#;
    let mut buffer = vec![0x55u8; expected.len() - 1];
    assert_eq!(parse_html(b"hi", &mut buffer), ERR_INSUFFICIENT_BUFFER);
    assert!(buffer.iter().all(|b| *b == 0x55));
    let mut none: [u8; 0] = [];
    assert_eq!(parse_html(b"hi", &mut none), ERR_INSUFFICIENT_BUFFER);
}

#[test]
fn input_that_is_not_utf8_is_an_invalid_string() {
    let mut buffer = [7u8; 64];
    assert_eq!(parse_html(&[b'a', 0xFF, b'b'], &mut buffer), ERR_INVALID_STRING);
    assert_eq!(parse_html(&[0xC3], &mut buffer), ERR_INVALID_STRING);
    assert_eq!(parse_html(&[0xED, 0xA0, 0x80], &mut buffer), ERR_INVALID_STRING);
    assert!(buffer.iter().all(|b| *b == 7));
}

#[test]
fn input_that_is_refused_is_an_invalid_document() {
    let mut buffer = [7u8; 64];
    assert_eq!(parse_html(b"<blink>x</blink>", &mut buffer), ERR_INVALID_BAD_DOCUMENT);
    assert_eq!(parse_html(b"<span class=\"x\">y</span>", &mut buffer), ERR_INVALID_BAD_DOCUMENT);
    assert!(buffer.iter().all(|b| *b == 7));
}

#[test]
fn multibyte_input_is_decoded_before_it_is_parsed() {
    let mut buffer = [0u8; 64];
    let written = parse_html("é".as_bytes(), &mut buffer);
    let expected = "[\"text\",\"é\"]".as_bytes();
    assert_eq!(written, expected.len() as i32);
    assert_eq!(&buffer[..expected.len()], expected);
}

#[test]
fn empty_input_is_an_empty_list() {
    let mut buffer = [0u8; 16];
    let written = parse_html(b"", &mut buffer);
    assert_eq!(&buffer[..written as usize], br#"["list",[]]"#);
}

#[test]
fn write_output_copies_or_refuses() {
    let mut buffer = [1u8, 2, 3, 4];
    assert_eq!(write_output(b"ab", &mut buffer), 2);
    assert_eq!(buffer, [b'a', b'b', 3, 4]);
    assert_eq!(write_output(b"abcde", &mut buffer), ERR_INSUFFICIENT_BUFFER);
    assert_eq!(buffer, [b'a', b'b', 3, 4]);
    assert_eq!(write_output(b"", &mut buffer), 0);
    assert_eq!(buffer, [b'a', b'b', 3, 4]);
}

#[test]
fn write_node_encodes_into_the_buffer() {
    let node = Node::Text("x".to_string());
    let mut buffer = [0u8; 12];
    assert_eq!(write_node(&node, &mut buffer), 12);
    assert_eq!(&buffer, br#"["text","x"]"#);
    let mut short = [9u8; 11];
    assert_eq!(write_node(&node, &mut short), ERR_INSUFFICIENT_BUFFER);
    assert_eq!(short, [9u8; 11]);
}

#[test]
fn input_over_the_bound_is_unspecified_and_not_parsed() {
    let input = vec![b' '; dehtml::markup::MAX_INPUT_LEN + 1];
    let mut buffer = [7u8; 16];
    assert_eq!(parse_html(&input, &mut buffer), ERR_UNSPECIFIED);
    assert!(buffer.iter().all(|b| *b == 7));
}

#[test]
fn bound_keeps_three_bytes_per_byte_below_the_buffer_limit() {
    assert_eq!(dehtml::markup::MAX_INPUT_LEN, 0x1555_5555);
    assert!(3 * (dehtml::markup::MAX_INPUT_LEN as u64) < (1u64 << 30));
}
