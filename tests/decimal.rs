use ndownloader::decimal::{parse_decimal_micros, parse_probe_output, trim_bounds};

#[test]
fn whole_seconds() {
    assert_eq!(parse_decimal_micros(b"124"), Some(124_000_000));
    assert_eq!(parse_decimal_micros(b"0"), Some(0));
}

#[test]
fn fractional_seconds() {
    assert_eq!(parse_decimal_micros(b"124.9"), Some(124_900_000));
    assert_eq!(parse_decimal_micros(b"3661.0"), Some(3_661_000_000));
    assert_eq!(parse_decimal_micros(b"12."), Some(12_000_000));
    assert_eq!(parse_decimal_micros(b"0.000001"), Some(1));
}

#[test]
fn digits_beyond_microseconds_are_dropped() {
    assert_eq!(parse_decimal_micros(b"1.2345679"), Some(1_234_567));
}

#[test]
fn not_durations() {
    assert_eq!(parse_decimal_micros(b""), None);
    assert_eq!(parse_decimal_micros(b".5"), None);
    assert_eq!(parse_decimal_micros(b"-3"), None);
    assert_eq!(parse_decimal_micros(b"1e5"), None);
    assert_eq!(parse_decimal_micros(b"1.2.3"), None);
    assert_eq!(parse_decimal_micros(b"N/A"), None);
    assert_eq!(parse_decimal_micros(b"\"12\""), None);
}

#[test]
fn largest_duration_fits_and_beyond_does_not() {
    assert_eq!(parse_decimal_micros(b"18446744073709.551615"), Some(u64::MAX));
    assert_eq!(parse_decimal_micros(b"18446744073709.551616"), None);
    assert_eq!(parse_decimal_micros(b"99999999999999999999999"), None);
}

#[test]
fn probe_output_is_trimmed() {
    assert_eq!(parse_probe_output(b"124.900000\n"), Some(124_900_000));
    assert_eq!(parse_probe_output(b"  \t7.5\r\n"), Some(7_500_000));
    assert_eq!(parse_probe_output(b"N/A\n"), None);
    assert_eq!(parse_probe_output(b"\n"), None);
}

#[test]
fn trim_bounds_of_padded_text() {
    assert_eq!(trim_bounds(b"  ab c \n"), (2, 6));
    assert_eq!(trim_bounds(b"   "), (3, 3));
}
