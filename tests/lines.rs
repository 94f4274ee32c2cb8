use script_harness::script::{parse_line, Directive};
use script_harness::token::{Profile, ScriptError};

fn send(p: Profile, line: &str) -> Vec<u8> {
    match parse_line(p, line.as_bytes()) {
        Ok(Directive::Send(b)) => b,
        other => panic!("{:?} should be a send, got {:?}", line, other),
    }
}

fn expect(p: Profile, line: &str) -> Vec<Option<u8>> {
    match parse_line(p, line.as_bytes()) {
        Ok(Directive::Expect(m)) => m,
        other => panic!("{:?} should be an expect, got {:?}", line, other),
    }
}

fn bad_token(p: Profile, line: &str) -> Vec<u8> {
    match parse_line(p, line.as_bytes()) {
        Err(ScriptError::InvalidToken(t)) => t,
        other => panic!("{:?} should be refused, got {:?}", line, other),
    }
}

#[test]
fn send_line_one_byte_per_token() {
    assert_eq!(send(Profile::Port, "< ECHO 0x41 0x42"), vec![2, 65, 66]);
    assert_eq!(send(Profile::Port, "<ECHO 7"), vec![2, 7]);
    assert_eq!(send(Profile::Port, "<   NOP   "), vec![0]);
}

#[test]
fn send_wildcard_becomes_zero() {
    assert_eq!(send(Profile::Port, "< _ 5 _"), vec![0, 5, 0]);
}

#[test]
fn expect_line_keeps_wildcards() {
    assert_eq!(expect(Profile::Daemon, "> CMD_OPEN _ _"), vec![Some(1), None, None]);
    assert_eq!(expect(Profile::Port, "> 0x41 0x42"), vec![Some(65), Some(66)]);
}

#[test]
fn other_lines_are_skipped() {
    for line in ["", "# comment", " < NOP", "ECHO", "x > 1", "\r"] {
        assert!(matches!(parse_line(Profile::Port, line.as_bytes()), Ok(Directive::Skip)));
    }
    assert!(matches!(parse_line(Profile::Port, b"# BOGUS 999"), Ok(Directive::Skip)));
}

#[test]
fn invalid_tokens_are_refused() {
    assert_eq!(bad_token(Profile::Port, "< NOP 256"), b"256".to_vec());
    assert_eq!(bad_token(Profile::Port, "> 0x100"), b"0x100".to_vec());
    assert_eq!(bad_token(Profile::Port, "< CMD_OPEN"), b"CMD_OPEN".to_vec());
    assert_eq!(bad_token(Profile::Daemon, "> CMD_OPEN  1"), b"".to_vec());
}

#[test]
fn empty_directive_is_refused() {
    assert_eq!(bad_token(Profile::Port, "<"), Vec::<u8>::new());
    assert_eq!(bad_token(Profile::Port, ">   "), Vec::<u8>::new());
}

#[test]
fn tab_is_not_a_separator() {
    assert_eq!(bad_token(Profile::Port, "< NOP\tNOP"), b"NOP\tNOP".to_vec());
}
