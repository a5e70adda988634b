use bundt::framing::{
    classify_header_line, decode_frame, encode_frame, parse_usize, push_decimal, FrameError, HeaderLine,
    HeaderProgress, HeaderReader,
};

#[test]
fn round_trip_single_frame() {
    let body = b"{\"jsonrpc\":\"2.0\"}";
    let encoded = encode_frame(body);
    let (result, used) = decode_frame(&encoded).unwrap().unwrap();
    assert_eq!(result, body);
    assert_eq!(used, encoded.len());
}

#[test]
fn round_trip_multiple_frames() {
    let frames: &[&[u8]] = &[b"{\"id\":1}", b"{\"id\":2}", b"{\"id\":3}"];
    let mut encoded = Vec::new();
    for body in frames {
        encoded.extend_from_slice(&encode_frame(body));
    }
    let mut pos = 0;
    for expected in frames {
        let (result, used) = decode_frame(&encoded[pos..]).unwrap().unwrap();
        assert_eq!(&result, expected);
        pos += used;
    }
    assert!(decode_frame(&encoded[pos..]).unwrap().is_none());
}

#[test]
fn clean_eof_returns_none() {
    let result = decode_frame(&[]).unwrap();
    assert!(result.is_none());
}

#[test]
fn eof_mid_header_returns_err() {
    let input = b"Content-Length: 5\r\n";
    assert!(decode_frame(input).is_err());
}

#[test]
fn missing_content_length_returns_err() {
    let input = b"Content-Type: application/json\r\n\r\n";
    assert!(decode_frame(input).is_err());
}

#[test]
fn non_numeric_content_length_returns_err() {
    let input = b"Content-Length: abc\r\n\r\n";
    assert!(decode_frame(input).is_err());
}

#[test]
fn body_shorter_than_content_length_returns_err() {
    let input = b"Content-Length: 100\r\n\r\n{}";
    assert!(decode_frame(input).is_err());
}

// ── errors in detail ─────────────────────────────────────────────────────────

#[test]
fn each_frame_error_has_its_input() {
    assert_eq!(decode_frame(b"Content-Length: 5\r\n"), Err(FrameError::UnexpectedEof));
    assert_eq!(decode_frame(b"Content-Length: 2\r\n\xff\r\n\r\n{}"), Err(FrameError::InvalidHeaderEncoding));
    assert_eq!(decode_frame(b"Content-Length: abc\r\n\r\n"), Err(FrameError::InvalidContentLength));
    assert_eq!(decode_frame(b"Content-Type: x\r\n\r\n"), Err(FrameError::MissingContentLength));
    assert_eq!(decode_frame(b"Content-Length: 100\r\n\r\n{}"), Err(FrameError::TruncatedBody));
}

#[test]
fn other_headers_are_ignored_and_last_length_wins() {
    let input = b"Content-Length: 9\r\nContent-Type: application/vscode-jsonrpc\r\nContent-Length: 2\r\n\r\n{}rest";
    assert_eq!(decode_frame(input), Ok(Some((b"{}".to_vec(), input.len() - 4))));
}

#[test]
fn bare_newlines_end_headers_too() {
    assert_eq!(decode_frame(b"Content-Length: 2\n\n{}"), Ok(Some((b"{}".to_vec(), 21))));
}

#[test]
fn header_without_final_newline_then_eof() {
    // The last line has no '\n'; after it the stream ends.
    assert_eq!(decode_frame(b"Content-Length: 2"), Err(FrameError::UnexpectedEof));
}

#[test]
fn encode_frame_exact_bytes() {
    assert_eq!(encode_frame(b"{}"), b"Content-Length: 2\r\n\r\n{}".to_vec());
    assert_eq!(encode_frame(b""), b"Content-Length: 0\r\n\r\n".to_vec());
    let body = vec![b'x'; 1234];
    let mut expected = b"Content-Length: 1234\r\n\r\n".to_vec();
    expected.extend_from_slice(&body);
    assert_eq!(encode_frame(&body), expected);
}

#[test]
fn parse_usize_matches_str_parse() {
    for s in ["0", "7", "+42", "0012", "", "+", "-1", "1 ", " 1", "12a", "18446744073709551615", "18446744073709551616", "99999999999999999999999"] {
        assert_eq!(parse_usize(s.as_bytes()), s.parse::<usize>().ok(), "input {s:?}");
    }
}

#[test]
fn push_decimal_spells_numbers() {
    for n in [0usize, 9, 10, 99, 100, 4096, usize::MAX] {
        let mut out = b"n=".to_vec();
        push_decimal(n, &mut out);
        assert_eq!(out, format!("n={n}").into_bytes());
    }
}

#[test]
fn classify_header_lines() {
    assert_eq!(classify_header_line(b"\r\n"), Ok(HeaderLine::End));
    assert_eq!(classify_header_line(b"\r\r\n\n"), Ok(HeaderLine::End));
    assert_eq!(classify_header_line(b"Content-Length: 12\r\n"), Ok(HeaderLine::ContentLength(12)));
    assert_eq!(classify_header_line(b"Content-Length: +12\r\n"), Ok(HeaderLine::ContentLength(12)));
    assert_eq!(classify_header_line(b"Content-Length:12\r\n"), Ok(HeaderLine::Other));
    assert_eq!(classify_header_line(b"content-length: 12\r\n"), Ok(HeaderLine::Other));
    assert_eq!(classify_header_line(b"Content-Length: 1 2\r\n"), Err(FrameError::InvalidContentLength));
    assert_eq!(classify_header_line(b"X: \xc3\x28\r\n"), Err(FrameError::InvalidHeaderEncoding));
    assert_eq!(classify_header_line("X-Note: ünïcode\r\n".as_bytes()), Ok(HeaderLine::Other));
}

#[test]
fn header_reader_line_by_line() {
    let mut r = HeaderReader::new();
    assert_eq!(r.at_end_of_stream(), Ok(()));
    assert_eq!(r.on_line(b"Content-Length: 3\r\n"), HeaderProgress::NeedLine);
    assert_eq!(r.at_end_of_stream(), Err(FrameError::UnexpectedEof));
    assert_eq!(r.on_line(b"\r\n"), HeaderProgress::ReadBody(3));

    let mut r = HeaderReader::new();
    assert_eq!(r.on_line(b"\r\n"), HeaderProgress::Failed(FrameError::MissingContentLength));
}
