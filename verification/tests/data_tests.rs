use rs_smtp::data::{DataReader, DataStatus, DotState};
use rs_smtp::writer::DotWriter;

#[test]
fn reader_plain_body() {
    let mut r = DataReader::new(0);
    let (out, used, status) = r.feed(b"hi\r\n.\r\n");
    assert_eq!(out, b"hi\r\n");
    assert_eq!(used, 7);
    assert_eq!(status, DataStatus::Done);
}

#[test]
fn reader_strips_leading_dot() {
    let mut r = DataReader::new(0);
    let (out, _, status) = r.feed(b"..hi\r\n.\r\n");
    assert_eq!(out, b".hi\r\n");
    assert_eq!(status, DataStatus::Done);
}

#[test]
fn reader_empty_body() {
    let mut r = DataReader::new(0);
    let (out, used, status) = r.feed(b".\r\n");
    assert_eq!(out, b"");
    assert_eq!(used, 3);
    assert_eq!(status, DataStatus::Done);
}

#[test]
fn reader_leaves_pipelined_bytes() {
    let mut r = DataReader::new(0);
    let (out, used, status) = r.feed(b"a\r\n.\r\nMAIL FROM:<x@y>\r\n");
    assert_eq!(out, b"a\r\n");
    assert_eq!(used, 6);
    assert_eq!(status, DataStatus::Done);
}

#[test]
fn reader_across_chunks() {
    let mut r = DataReader::new(0);
    let (out, used, status) = r.feed(b"ab\r");
    assert_eq!(out, b"ab\r");
    assert_eq!(used, 3);
    assert_eq!(status, DataStatus::More);
    let (out, used, status) = r.feed(b"\n.\r\n");
    assert_eq!(out, b"\n");
    assert_eq!(used, 4);
    assert_eq!(status, DataStatus::Done);
}

#[test]
fn reader_interior_cr_kept() {
    let mut r = DataReader::new(0);
    let (out, _, status) = r.feed(b"a\rb\r\n.\r\n");
    assert_eq!(out, b"a\rb\r\n");
    assert_eq!(status, DataStatus::Done);
}

#[test]
fn reader_cap_stops_early() {
    let mut r = DataReader::new(4);
    assert!(r.limited);
    let (out, used, status) = r.feed(b"abcdefg\r\n.\r\n");
    assert_eq!(status, DataStatus::TooLarge);
    assert_eq!(out, b"abcd");
    assert_eq!(used, 4);
    r.disable_cap();
    let (_, _, status) = r.feed(b"efg\r\n.\r\n");
    assert_eq!(status, DataStatus::Done);
}

#[test]
fn reader_cap_counts_body_bytes_only() {
    // The frame is seven wire bytes, but the body is only four: the
    // terminating dot line spends no budget.
    let mut r = DataReader::new(5);
    let (out, used, status) = r.feed(b"hi\r\n.\r\n");
    assert_eq!(status, DataStatus::Done);
    assert_eq!(out, b"hi\r\n");
    assert_eq!(used, 7);
}

#[test]
fn reader_cap_ignores_stuffed_dots() {
    // The stuffed dot is stripped before the cap is charged.
    let mut r = DataReader::new(6);
    let (out, used, status) = r.feed(b"..abc\r\n.\r\n");
    assert_eq!(status, DataStatus::Done);
    assert_eq!(out, b".abc\r\n");
    assert_eq!(used, 10);
}

#[test]
fn reader_cap_exact_body_fits() {
    let mut r = DataReader::new(4);
    let (out, _, status) = r.feed(b"hi\r\n.\r\n");
    assert_eq!(status, DataStatus::Done);
    assert_eq!(out, b"hi\r\n");
}

#[test]
fn reader_state_starts_at_line() {
    let r = DataReader::new(0);
    assert_eq!(r.state, DotState::BeginLine);
    assert!(!r.limited);
}

#[test]
fn writer_doubles_line_start_dot() {
    let mut w = DotWriter::new();
    let mut out = Vec::new();
    w.write(b".hi\r\n", &mut out);
    assert_eq!(out, b"..hi\r\n");
}

#[test]
fn writer_normalizes_bare_lf() {
    let mut w = DotWriter::new();
    let mut out = Vec::new();
    w.write(b"a\nb\n", &mut out);
    assert_eq!(out, b"a\r\nb\r\n");
}

#[test]
fn writer_interior_dot_untouched() {
    let mut w = DotWriter::new();
    let mut out = Vec::new();
    w.write(b"a.b\r\n.x", &mut out);
    assert_eq!(out, b"a.b\r\n..x");
}

#[test]
fn writer_close_terminates() {
    let mut w = DotWriter::new();
    let mut out = Vec::new();
    w.write(b"body\r\n", &mut out);
    w.close(&mut out);
    assert_eq!(out, b"body\r\n.\r\n");
}

#[test]
fn writer_close_finishes_open_line() {
    let mut w = DotWriter::new();
    let mut out = Vec::new();
    w.write(b"body", &mut out);
    w.close(&mut out);
    assert_eq!(out, b"body\r\n.\r\n");
}

#[test]
fn writer_then_reader_round_trip() {
    let body = b"first line\r\n.starts with dot\r\n..two dots\r\nlast\r\n";
    let mut w = DotWriter::new();
    let mut wire = Vec::new();
    w.write(body, &mut wire);
    w.close(&mut wire);
    let mut r = DataReader::new(0);
    let (out, used, status) = r.feed(&wire);
    assert_eq!(status, DataStatus::Done);
    assert_eq!(used, wire.len());
    assert_eq!(out, body);
}
