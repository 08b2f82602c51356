use munnel::framing::{read_line_bytes, rm_newline, MAX_LINE_BYTES};

#[test]
fn read_line_takes_up_to_newline() {
    let source: Vec<u8> = b"hello\nworld\n".to_vec();
    let mut line: Vec<u8> = Vec::new();
    let pos = read_line_bytes(&source, 0, &mut line, MAX_LINE_BYTES);
    assert_eq!(line, b"hello\n".to_vec());
    assert_eq!(pos, 6);
}

#[test]
fn read_line_does_not_consume_past_newline() {
    let source: Vec<u8> = b"CONNECT\nraw tunnel payload".to_vec();
    let mut line: Vec<u8> = Vec::new();
    let pos = read_line_bytes(&source, 0, &mut line, MAX_LINE_BYTES);
    assert_eq!(line, b"CONNECT\n".to_vec());
    assert_eq!(&source[pos..], b"raw tunnel payload");
}

#[test]
fn read_line_appends_to_leftover_buffer() {
    let source: Vec<u8> = b"lo\n".to_vec();
    let mut line: Vec<u8> = b"hel".to_vec();
    read_line_bytes(&source, 0, &mut line, MAX_LINE_BYTES);
    assert_eq!(line, b"hello\n".to_vec());
}

#[test]
fn read_line_stops_at_budget() {
    let source: Vec<u8> = b"abcdefgh\n".to_vec();
    let mut line: Vec<u8> = Vec::new();
    let pos = read_line_bytes(&source, 0, &mut line, 4);
    assert_eq!(line, b"abcd".to_vec());
    assert_eq!(pos, 4);
}

#[test]
fn read_line_stops_at_end_of_source() {
    let source: Vec<u8> = b"partial".to_vec();
    let mut line: Vec<u8> = Vec::new();
    let pos = read_line_bytes(&source, 0, &mut line, MAX_LINE_BYTES);
    assert_eq!(line, b"partial".to_vec());
    assert_eq!(pos, 7);
}

#[test]
fn write_then_read_round_trips() {
    // A writer frames the line with '\n'; the reader takes exactly the
    // framed bytes; stripping the terminator gives the line back.
    let line = "status report";
    let wire = format!("{}\n", line);
    let source: Vec<u8> = wire.as_bytes().to_vec();
    let mut taken: Vec<u8> = Vec::new();
    let pos = read_line_bytes(&source, 0, &mut taken, MAX_LINE_BYTES);
    assert_eq!(pos, source.len());
    assert_eq!(taken, source);
    let decoded = String::from_utf8(taken).unwrap();
    assert_eq!(rm_newline(decoded), line.to_string());
}

#[test]
fn rm_newline_strips_one_terminator() {
    assert_eq!(rm_newline("OK\n".to_string()), "OK".to_string());
    assert_eq!(rm_newline("OK".to_string()), "OK".to_string());
    assert_eq!(rm_newline("\n".to_string()), "".to_string());
    assert_eq!(rm_newline("".to_string()), "".to_string());
    assert_eq!(rm_newline("a\n\n".to_string()), "a\n".to_string());
}
