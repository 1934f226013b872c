use lean_helix_view::codec::{
    read_frame, read_header_line, read_length, write_frame, ByteReader, Frame, FrameError,
    HeaderBlock, HeaderLine, HeaderStep, LengthError,
};

fn chars(s: &str) -> Vec<char> {
    s.chars().collect()
}

fn first_error(input: &[u8]) -> FrameError {
    let mut reader = ByteReader::new(input);
    match read_frame(&mut reader) {
        Err(e) => e,
        Ok(frame) => panic!("read {frame:?}"),
    }
}

/// Bytes read, then written back, equal the original stream, including a frame
/// with an extra `Content-Type` header and a frame whose body is not JSON.
#[test]
fn roundtrip_is_byte_exact() {
    let mut input = Vec::new();
    input.extend_from_slice(
        Frame::from_body(br#"{"jsonrpc":"2.0","id":1,"method":"initialize","params":{}}"#)
            .as_bytes(),
    );
    input.extend_from_slice(Frame::from_body(b"this body is not json").as_bytes());
    // Hand-crafted frame with a second header, in non-canonical order.
    input.extend_from_slice(
        b"Content-Type: application/vscode-jsonrpc; charset=utf-8\r\nContent-Length: 2\r\n\r\n{}",
    );

    let mut reader = ByteReader::new(&input[..]);
    let mut out = Vec::new();
    let mut count = 0;
    while let Some(frame) = read_frame(&mut reader).unwrap() {
        out.extend_from_slice(frame.as_bytes()); // forward verbatim
        count += 1;
    }

    assert_eq!(count, 3);
    assert_eq!(out, input, "forwarded bytes must equal received bytes");
}

#[test]
fn body_accessor_excludes_headers() {
    let frame = Frame::from_body(b"{}");
    assert_eq!(frame.body(), b"{}");
    let custom = b"X-Foo: bar\r\nContent-Length: 2\r\n\r\nhi";
    let mut reader = ByteReader::new(&custom[..]);
    let frame = read_frame(&mut reader).unwrap().unwrap();
    assert_eq!(frame.body(), b"hi");
    assert_eq!(frame.as_bytes(), custom);
}

#[test]
fn clean_eof_at_boundary_is_none() {
    let empty: &[u8] = b"";
    let mut reader = ByteReader::new(empty);
    assert!(read_frame(&mut reader).unwrap().is_none());
}

#[test]
fn truncated_frame_is_error() {
    let partial = b"Content-Length: 50\r\n\r\nonly a few bytes";
    let mut reader = ByteReader::new(&partial[..]);
    assert!(read_frame(&mut reader).is_err());
}

#[test]
fn from_body_writes_the_canonical_header() {
    let frame = Frame::from_body(b"{\"id\":1}");
    assert_eq!(frame.as_bytes(), b"Content-Length: 8\r\n\r\n{\"id\":1}");
    assert_eq!(frame.clone(), frame);
    assert_eq!(frame.into_bytes(), b"Content-Length: 8\r\n\r\n{\"id\":1}");
    assert_eq!(Frame::from_body(b"").as_bytes(), b"Content-Length: 0\r\n\r\n");
}

#[test]
fn each_fault_has_its_input() {
    assert!(matches!(first_error(b"Content-Length: 2\r\n"), FrameError::HeaderEof));
    assert!(matches!(first_error(b"Content-Length: 2\r\n\r\n{"), FrameError::BodyEof));
    assert!(matches!(first_error(b"X: \xff\r\n\r\n"), FrameError::InvalidUtf8));
    assert!(matches!(first_error(b"X: y\r\n\r\n{}"), FrameError::MissingContentLength));
    match first_error(b"no colon here\r\n\r\n") {
        FrameError::MalformedHeader(line) => assert_eq!(line, "no colon here"),
        e => panic!("{e:?}"),
    }
    assert!(matches!(
        first_error(b"Content-Length:\r\n\r\n"),
        FrameError::BadContentLength(LengthError::Empty)
    ));
    assert!(matches!(
        first_error(b"Content-Length: 1x\r\n\r\n"),
        FrameError::BadContentLength(LengthError::InvalidDigit)
    ));
    assert!(matches!(
        first_error(b"Content-Length: 99999999999999999999999\r\n\r\n"),
        FrameError::BadContentLength(LengthError::Overflow)
    ));
}

#[test]
fn lengths_are_read_as_decimal() {
    assert_eq!(read_length(&chars("0")), Ok(0));
    assert_eq!(read_length(&chars("+12")), Ok(12));
    assert_eq!(read_length(&chars("007")), Ok(7));
    assert_eq!(read_length(&chars("18446744073709551615")), Ok(usize::MAX));
    assert_eq!(
        read_length(&chars("18446744073709551616")),
        Err(LengthError::Overflow)
    );
    assert_eq!(read_length(&chars("")), Err(LengthError::Empty));
    assert_eq!(read_length(&chars("+")), Err(LengthError::InvalidDigit));
    assert_eq!(read_length(&chars("-1")), Err(LengthError::InvalidDigit));
    for s in ["", "+", "-", "1", "+1", "-1", "1 ", "++1", "99999999999999999999", "99999999999999999999x", "x99999999999999999999"] {
        assert_eq!(read_length(&chars(s)).ok(), s.parse::<usize>().ok(), "{s}");
    }
}

#[test]
fn header_names_ignore_case_and_space() {
    assert_eq!(
        read_header_line(b"  content-LENGTH \t:\t 5 \r\n").unwrap(),
        HeaderLine::Length(5)
    );
    assert_eq!(
        read_header_line("\u{a0}Content-Length\u{2003}: 5\n".as_bytes()).unwrap(),
        HeaderLine::Length(5)
    );
    assert_eq!(read_header_line(b"\r\n").unwrap(), HeaderLine::End);
    assert_eq!(read_header_line(b"\n").unwrap(), HeaderLine::End);
    assert_eq!(read_header_line(b"\r\r\n\r\n").unwrap(), HeaderLine::End);
    assert_eq!(read_header_line(b"Content-Type: a:b\r\n").unwrap(), HeaderLine::Other);
}

#[test]
fn the_last_length_counts() {
    let input = b"Content-Length: 9\r\nContent-Length: 2\r\n\r\nhi";
    let mut reader = ByteReader::new(&input[..]);
    let frame = read_frame(&mut reader).unwrap().unwrap();
    assert_eq!(frame.body(), b"hi");
    assert!(read_frame(&mut reader).unwrap().is_none());
}

#[test]
fn header_block_is_fed_line_by_line() {
    let mut block = HeaderBlock::new();
    assert_eq!(block.push_line(b"X: y\r\n").unwrap(), HeaderStep::More);
    assert_eq!(block.push_line(b"Content-Length: 2\r\n").unwrap(), HeaderStep::More);
    assert_eq!(block.push_line(b"\r\n").unwrap(), HeaderStep::Body(2));
    let frame = block.complete(b"{}");
    assert_eq!(frame.as_bytes(), b"X: y\r\nContent-Length: 2\r\n\r\n{}");
    assert_eq!(frame.body(), b"{}");

    let mut closed = HeaderBlock::new();
    assert_eq!(closed.push_line(b"").unwrap(), HeaderStep::Closed);

    let mut cut = HeaderBlock::new();
    assert_eq!(cut.push_line(b"X: y\r\n").unwrap(), HeaderStep::More);
    assert!(matches!(cut.push_line(b""), Err(FrameError::HeaderEof)));
}

#[test]
fn written_frames_read_back() {
    let frames = [
        Frame::from_body(b"{}"),
        Frame::from_body("⊢ True".as_bytes()),
        Frame::from_body(b""),
        Frame::from_body(b"Content-Length: 3\r\n\r\nabc"),
    ];
    let mut sink = Vec::new();
    for frame in &frames {
        write_frame(&mut sink, frame);
    }
    let mut reader = ByteReader::new(&sink);
    for frame in &frames {
        assert_eq!(read_frame(&mut reader).unwrap().unwrap(), *frame);
    }
    assert!(read_frame(&mut reader).unwrap().is_none());
}

/// A stream that ends inside the separator, or anywhere else in a frame, has
/// not given a frame.
#[test]
fn cut_off_frames_are_errors() {
    assert!(matches!(first_error(b"Content-Length: 0\r\n\r"), FrameError::HeaderEof));
    assert!(matches!(first_error(b"Content-Length: 0\n\r"), FrameError::HeaderEof));
    assert!(matches!(first_error(b"\r"), FrameError::HeaderEof));
    assert!(matches!(first_error(b"Content-Length: 0"), FrameError::HeaderEof));
    // A cut-off line that is already malformed is reported as such.
    assert!(matches!(first_error(b"no colon"), FrameError::MalformedHeader(_)));
    let whole = Frame::from_body(b"{}");
    for cut in 1..whole.as_bytes().len() {
        let mut reader = ByteReader::new(&whole.as_bytes()[..cut]);
        assert!(read_frame(&mut reader).is_err(), "cut at {cut}");
    }
    let mut block = HeaderBlock::new();
    assert_eq!(block.push_line(b"Content-Length: 0\r\n").unwrap(), HeaderStep::More);
    assert!(matches!(block.push_line(b"\r"), Err(FrameError::HeaderEof)));
}

/// A blank line may lack its `\r`.
#[test]
fn bare_newline_ends_the_block() {
    let input = b"Content-Length: 2\n\n{}";
    let mut reader = ByteReader::new(&input[..]);
    let frame = read_frame(&mut reader).unwrap().unwrap();
    assert_eq!(frame.as_bytes(), input);
    assert_eq!(frame.body(), b"{}");
}
