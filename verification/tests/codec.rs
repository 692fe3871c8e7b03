use lspgraph::transport::codec::{encode, find_subslice, Decoder};

#[test]
fn encodes_with_content_length() {
    assert_eq!(encode(b"{}"), b"Content-Length: 2\r\n\r\n{}".to_vec());
}

#[test]
fn decodes_a_single_message() {
    let mut d = Decoder::new();
    d.push(&encode(b"{\"a\":1}"));
    assert_eq!(d.next_message().unwrap().unwrap(), b"{\"a\":1}".to_vec());
    assert_eq!(d.next_message().unwrap(), None);
}

#[test]
fn decodes_two_messages_from_one_chunk() {
    let mut d = Decoder::new();
    let mut chunk = encode(b"{\"a\":1}");
    chunk.extend_from_slice(&encode(b"{\"b\":2}"));
    d.push(&chunk);
    assert_eq!(d.next_message().unwrap().unwrap(), b"{\"a\":1}".to_vec());
    assert_eq!(d.next_message().unwrap().unwrap(), b"{\"b\":2}".to_vec());
    assert_eq!(d.next_message().unwrap(), None);
}

#[test]
fn waits_for_a_message_split_mid_header() {
    let mut d = Decoder::new();
    let full = encode(b"{\"a\":1}");
    d.push(&full[..8]);
    assert_eq!(d.next_message().unwrap(), None);
    d.push(&full[8..]);
    assert_eq!(d.next_message().unwrap().unwrap(), b"{\"a\":1}".to_vec());
}

#[test]
fn waits_for_a_message_split_mid_body() {
    let mut d = Decoder::new();
    let full = encode(b"{\"a\":1}");
    let split = full.len() - 3;
    d.push(&full[..split]);
    assert_eq!(d.next_message().unwrap(), None);
    d.push(&full[split..]);
    assert_eq!(d.next_message().unwrap().unwrap(), b"{\"a\":1}".to_vec());
}

#[test]
fn ignores_unknown_headers_and_is_case_insensitive() {
    let mut d = Decoder::new();
    d.push(b"content-type: application/json\r\nCONTENT-LENGTH: 2\r\n\r\n{}");
    assert_eq!(d.next_message().unwrap().unwrap(), b"{}".to_vec());
}

#[test]
fn header_line_without_colon_is_error_and_later_message_recovers() {
    let mut d = Decoder::new();
    d.push(b"invalid line\r\n\r\n");
    let result = d.next_message();
    assert!(result.is_err());
    assert!(result.unwrap_err().to_string().contains("header line without colon"));

    d.push(&encode(b"{\"a\":1}"));
    assert_eq!(d.next_message().unwrap().unwrap(), b"{\"a\":1}".to_vec());
}

#[test]
fn missing_content_length_header_is_error() {
    let mut d = Decoder::new();
    d.push(b"content-type: application/json\r\n\r\n{}");
    let result = d.next_message();
    assert!(result.is_err());
    assert!(result.unwrap_err().to_string().contains("no Content-Length header found"));
}

#[test]
fn invalid_utf8_in_header_is_error() {
    let mut d = Decoder::new();
    let mut invalid = vec![0xFF, 0xFE];
    invalid.extend_from_slice(b"\r\n\r\n{}");
    d.push(&invalid);
    let result = d.next_message();
    assert!(result.is_err());
    assert!(result.unwrap_err().to_string().contains("invalid UTF-8 in header"));
}

#[test]
fn decoding_an_encoded_frame_gives_the_payload_back_and_leaves_the_rest() {
    let mut d = Decoder::new();
    let mut bytes = encode(b"[1,2,3]");
    bytes.extend_from_slice(b"Content-Len");
    d.push(&bytes);
    assert_eq!(d.next_message().unwrap().unwrap(), b"[1,2,3]".to_vec());
    assert_eq!(d.next_message().unwrap(), None);
    d.push(b"gth: 1\r\n\r\n7");
    assert_eq!(d.next_message().unwrap().unwrap(), b"7".to_vec());
}

#[test]
fn a_frame_fed_one_byte_at_a_time_waits_until_complete() {
    let mut d = Decoder::new();
    let full = encode(b"{\"k\":true}");
    for (i, b) in full.iter().enumerate() {
        d.push(&[*b]);
        let got = d.next_message().unwrap();
        if i + 1 < full.len() {
            assert_eq!(got, None);
        } else {
            assert_eq!(got, Some(b"{\"k\":true}".to_vec()));
        }
    }
}

#[test]
fn a_non_numeric_length_is_an_error() {
    let mut d = Decoder::new();
    d.push(b"Content-Length: two\r\n\r\n{}");
    let err = d.next_message().unwrap_err().to_string();
    assert!(err.starts_with("protocol: "), "{err}");
}

#[test]
fn finds_the_first_occurrence_of_a_subslice() {
    assert_eq!(find_subslice(b"ab\r\n\r\ncd\r\n\r\n", b"\r\n\r\n"), Some(2));
    assert_eq!(find_subslice(b"abc", b"\r\n"), None);
    assert_eq!(find_subslice(b"", b"x"), None);
}
