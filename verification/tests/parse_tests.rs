use rs_smtp::parse::{parse_args, parse_cmd, validate_line};
use rs_smtp::text::{dec_string, parse_dec, split_ws, to_lower, to_upper, trim, trim_end};
use rs_smtp::xtext::{decode_xtext, encode_xtext};

#[test]
fn parse_cmd_verb_and_arg() {
    let r = parse_cmd("MAIL FROM:<a@b>\r\n").unwrap();
    assert_eq!(r.0, "MAIL");
    assert_eq!(r.1, "FROM:<a@b>");
}

#[test]
fn parse_cmd_lowercase_verb_uppercased() {
    let r = parse_cmd("mail from:<a@b>\r\n").unwrap();
    assert_eq!(r.0, "MAIL");
    assert_eq!(r.1, "from:<a@b>");
}

#[test]
fn parse_cmd_starttls_any_case() {
    let r = parse_cmd("starttls\r\n").unwrap();
    assert_eq!(r.0, "STARTTLS");
    assert_eq!(r.1, "");
}

#[test]
fn parse_cmd_empty_line() {
    let r = parse_cmd("\r\n").unwrap();
    assert_eq!(r.0, "");
    assert_eq!(r.1, "");
}

#[test]
fn parse_cmd_too_short_is_error() {
    assert!(parse_cmd("FOO\r\n").is_none());
}

#[test]
fn parse_cmd_five_chars_is_error() {
    assert!(parse_cmd("HELOX\r\n").is_none());
}

#[test]
fn parse_cmd_bare_verb() {
    let r = parse_cmd("NOOP\r\n").unwrap();
    assert_eq!(r.0, "NOOP");
    assert_eq!(r.1, "");
}

#[test]
fn parse_cmd_missing_space_is_error() {
    assert!(parse_cmd("MAILFROM:<a@b>\r\n").is_none());
}

#[test]
fn parse_cmd_trailing_spaces_trimmed() {
    let r = parse_cmd("HELO x   \r\n").unwrap();
    assert_eq!(r.0, "HELO");
    assert_eq!(r.1, "x");
}

#[test]
fn parse_args_pairs() {
    let args = vec!["SIZE=100".to_string(), "SMTPUTF8".to_string(), "".to_string()];
    let pairs = parse_args(&args);
    assert_eq!(pairs.len(), 2);
    assert_eq!(pairs[0].0, "SIZE");
    assert_eq!(pairs[0].1, "100");
    assert_eq!(pairs[1].0, "SMTPUTF8");
    assert_eq!(pairs[1].1, "");
}

#[test]
fn parse_args_second_equals_dropped() {
    let args = vec!["A=B=C".to_string()];
    let pairs = parse_args(&args);
    assert_eq!(pairs.len(), 1);
    assert_eq!(pairs[0].0, "A");
    assert_eq!(pairs[0].1, "B");
}

#[test]
fn validate_line_rejects_cr_and_lf() {
    assert!(validate_line("250 OK"));
    assert!(validate_line(""));
    assert!(validate_line("250 OK\r\n"));
    assert!(validate_line("\r\n"));
    assert!(!validate_line("a\rb"));
    assert!(!validate_line("a\nb"));
    assert!(!validate_line("ok\r\ninjected"));
    assert!(!validate_line("a\n\rb"));
    assert!(!validate_line("\r"));
}

#[test]
fn xtext_passthrough() {
    assert_eq!(decode_xtext("hello").unwrap(), "hello");
}

#[test]
fn xtext_decodes_escape() {
    assert_eq!(decode_xtext("+2B").unwrap(), "+");
    assert_eq!(decode_xtext("a+3Db").unwrap(), "a=b");
}

#[test]
fn xtext_incomplete_escape_is_error() {
    assert!(decode_xtext("+2").is_none());
    assert!(decode_xtext("+").is_none());
}

#[test]
fn xtext_lowercase_hex_is_error() {
    assert!(decode_xtext("+2b").is_none());
}

#[test]
fn xtext_encode_escapes() {
    assert_eq!(encode_xtext("a=b"), "a+3Db");
    assert_eq!(encode_xtext("+"), "+2B");
    assert_eq!(encode_xtext("plain"), "plain");
    assert_eq!(encode_xtext("a b"), "a+20b");
}

#[test]
fn xtext_round_trip() {
    let original = "user+detail=x@example";
    let encoded = encode_xtext(original);
    assert_eq!(decode_xtext(&encoded).unwrap(), original);
}

#[test]
fn parse_dec_values() {
    assert_eq!(parse_dec("0"), Some(0));
    assert_eq!(parse_dec("123"), Some(123));
    assert_eq!(parse_dec(""), None);
    assert_eq!(parse_dec("12a"), None);
    assert_eq!(parse_dec("-1"), None);
}

#[test]
fn dec_string_renders() {
    assert_eq!(dec_string(0), "0");
    assert_eq!(dec_string(12345), "12345");
}

#[test]
fn case_mapping() {
    assert_eq!(to_upper("mAiL"), "MAIL");
    assert_eq!(to_lower("LaSt"), "last");
}

#[test]
fn trimming() {
    assert_eq!(trim("  a b  "), "a b");
    assert_eq!(trim_end("x \r\n"), "x");
}

#[test]
fn whitespace_split() {
    let parts = split_ws("  PLAIN  AGFiAGNk ");
    assert_eq!(parts, vec!["PLAIN".to_string(), "AGFiAGNk".to_string()]);
}
