use slideshow::tools::{
    parse_duration_micros, read_encoder_result, read_probe_result, ExternalToolError, ToolOutput,
};

fn output(success: bool, stdout: &str, stderr: &str) -> ToolOutput {
    ToolOutput { success, stdout: stdout.as_bytes().to_vec(), stderr: stderr.as_bytes().to_vec() }
}

#[test]
fn durations_are_read_in_microseconds() {
    assert_eq!(parse_duration_micros(b"10"), Some(10_000_000));
    assert_eq!(parse_duration_micros(b"10.5"), Some(10_500_000));
    assert_eq!(parse_duration_micros(b"215.510204\n"), Some(215_510_204));
    assert_eq!(parse_duration_micros(b"0.000001"), Some(1));
    assert_eq!(parse_duration_micros(b"0"), Some(0));
    assert_eq!(parse_duration_micros(b"0.0"), Some(0));
    assert_eq!(parse_duration_micros(b"007.25"), Some(7_250_000));
    assert_eq!(parse_duration_micros(b"3."), Some(3_000_000));
    assert_eq!(parse_duration_micros(b".5"), Some(500_000));
}

#[test]
fn digits_after_the_sixth_place_are_dropped() {
    assert_eq!(parse_duration_micros(b"1.2345678"), Some(1_234_567));
    assert_eq!(parse_duration_micros(b"1.9999999999"), Some(1_999_999));
    assert_eq!(parse_duration_micros(b"0.0000009"), Some(0));
}

#[test]
fn blanks_around_a_duration_are_passed_over() {
    assert_eq!(parse_duration_micros(b"  12.5\r\n"), Some(12_500_000));
    assert_eq!(parse_duration_micros(b"\t\n 8 \x0b\x0c"), Some(8_000_000));
}

#[test]
fn text_that_is_no_duration_is_not_read() {
    for text in [
        &b""[..],
        b" ",
        b"\n",
        b".",
        b"N/A",
        b"-5",
        b"+5",
        b"1e3",
        b"1.2.3",
        b"1 2",
        b"12,5",
        b"12.5s",
        b"x12.5",
        b"1.5 .",
        b"..5",
        b"inf",
        b"\xc2\xa012",
    ] {
        assert_eq!(parse_duration_micros(text), None, "{:?}", text);
    }
}

#[test]
fn durations_beyond_64_bits_are_not_read() {
    // u64::MAX is 18446744073709551615 microseconds.
    assert_eq!(parse_duration_micros(b"18446744073709.551615"), Some(u64::MAX));
    assert_eq!(parse_duration_micros(b"18446744073709.551616"), None);
    assert_eq!(parse_duration_micros(b"18446744073710"), None);
    assert_eq!(parse_duration_micros(b"99999999999999999999999999999999999999999999"), None);
    assert_eq!(
        parse_duration_micros(b"000000000000000000000000000000000000000018446744073709.5516159"),
        Some(u64::MAX)
    );
}

#[test]
fn probe_success_gives_the_duration() {
    assert_eq!(read_probe_result(output(true, "183.456000\n", "")), Ok(183_456_000));
}

#[test]
fn probe_failure_carries_the_diagnostics() {
    assert_eq!(
        read_probe_result(output(false, "183.456000\n", "no such file")),
        Err(ExternalToolError::ProbeFailed { diagnostic: b"no such file".to_vec() })
    );
}

#[test]
fn probe_output_that_is_no_duration_is_an_error() {
    assert_eq!(
        read_probe_result(output(true, "N/A\n", "")),
        Err(ExternalToolError::UnreadableDuration { output: b"N/A\n".to_vec() })
    );
}

#[test]
fn encoder_failure_carries_the_diagnostics() {
    assert_eq!(read_encoder_result(output(true, "", "warnings")), Ok(()));
    assert_eq!(
        read_encoder_result(output(false, "", "unknown encoder")),
        Err(ExternalToolError::EncoderFailed { diagnostic: b"unknown encoder".to_vec() })
    );
}
