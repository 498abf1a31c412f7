use agentloop::command::{CommandResult, command_envelope};
use agentloop::numfmt::{fmt_i32, fmt_u64, parse_i32};

fn b(s: &str) -> Vec<u8> {
    s.as_bytes().to_vec()
}

#[test]
fn stdout_only_envelope() {
    let res = CommandResult { exit_code: 0, stdout: b("hello"), stderr: Vec::new() };
    assert_eq!(command_envelope(&res), b("EXIT_CODE:0\nstdout:\nhello"));
}

#[test]
fn silent_success_envelope() {
    let res = CommandResult { exit_code: 0, stdout: Vec::new(), stderr: Vec::new() };
    assert_eq!(
        command_envelope(&res),
        b("EXIT_CODE:0\nCommand executed successfully (no output)")
    );
}

#[test]
fn stderr_only_envelope() {
    let res = CommandResult { exit_code: 1, stdout: Vec::new(), stderr: b("oops") };
    assert_eq!(command_envelope(&res), b("EXIT_CODE:1\nstderr:\noops"));
}

#[test]
fn both_streams_are_blank_line_separated() {
    let res = CommandResult { exit_code: 2, stdout: b("out"), stderr: b("err") };
    assert_eq!(command_envelope(&res), b("EXIT_CODE:2\nstdout:\nout\n\nstderr:\nerr"));
}

#[test]
fn signal_exit_renders_minus_one() {
    let res = CommandResult { exit_code: -1, stdout: b("x"), stderr: Vec::new() };
    assert_eq!(command_envelope(&res), b("EXIT_CODE:-1\nstdout:\nx"));
}

#[test]
fn decimal_rendering() {
    assert_eq!(fmt_u64(0), b("0"));
    assert_eq!(fmt_u64(907), b("907"));
    assert_eq!(fmt_i32(-1), b("-1"));
    assert_eq!(fmt_i32(123), b("123"));
    assert_eq!(fmt_i32(i32::MIN), b("-2147483648"));
}

#[test]
fn integer_parsing_follows_the_std_grammar() {
    assert_eq!(parse_i32(b"42"), Some(42));
    assert_eq!(parse_i32(b"-42"), Some(-42));
    assert_eq!(parse_i32(b"+7"), Some(7));
    assert_eq!(parse_i32(b""), None);
    assert_eq!(parse_i32(b"-"), None);
    assert_eq!(parse_i32(b"4x"), None);
    assert_eq!(parse_i32(b" 4"), None);
    assert_eq!(parse_i32(b"2147483647"), Some(i32::MAX));
    assert_eq!(parse_i32(b"2147483648"), None);
    assert_eq!(parse_i32(b"-2147483648"), Some(i32::MIN));
    assert_eq!(parse_i32(b"-2147483649"), None);
    assert_eq!(parse_i32(b"99999999999999999999"), None);
}
