use std::time::Duration;
use torrent_vlc::size::{
    format_bytes, parse_byte_size, parse_duration, QuantityError, TimeSpan,
};

fn span(input: &str) -> Duration {
    let span: TimeSpan = parse_duration(input).unwrap();
    Duration::new(span.secs, span.nanos)
}

#[test]
fn parses_binary_and_decimal_sizes() {
    assert_eq!(parse_byte_size("64M").unwrap(), 64_000_000);
    assert_eq!(parse_byte_size("64MiB").unwrap(), 64 * 1024 * 1024);
    assert_eq!(parse_byte_size("1.5G").unwrap(), 1_500_000_000);
}

#[test]
fn parses_durations() {
    assert_eq!(span("120s"), Duration::from_secs(120));
    assert_eq!(span("1.5m"), Duration::from_secs(90));
    assert_eq!(span("250ms"), Duration::from_millis(250));
}

#[test]
fn every_size_suffix_has_its_multiple() {
    let cases: [(&str, u64); 18] = [
        ("", 1),
        ("b", 1),
        ("k", 1_000),
        ("kb", 1_000),
        ("ki", 1_024),
        ("kib", 1_024),
        ("m", 1_000_000),
        ("mb", 1_000_000),
        ("mi", 1_048_576),
        ("mib", 1_048_576),
        ("g", 1_000_000_000),
        ("gb", 1_000_000_000),
        ("gi", 1_073_741_824),
        ("gib", 1_073_741_824),
        ("t", 1_000_000_000_000),
        ("tb", 1_000_000_000_000),
        ("ti", 1_099_511_627_776),
        ("tib", 1_099_511_627_776),
    ];
    for (suffix, multiple) in cases {
        assert_eq!(parse_byte_size(&format!("3{suffix}")), Ok(3 * multiple));
        let upper = suffix.to_uppercase();
        assert_eq!(parse_byte_size(&format!(" 7 {upper} ")), Ok(7 * multiple));
    }
}

#[test]
fn whole_numbers_of_bytes_are_exact() {
    for n in [0u64, 1, 999, 1 << 20, (1 << 53) - 1, 1 << 53] {
        assert_eq!(parse_byte_size(&format!("{n}")), Ok(n));
    }
    assert_eq!(parse_byte_size("9007199254740993"), Ok(9_007_199_254_740_992));
}

fn multiple(suffix: &str) -> f64 {
    match suffix {
        "" => 1.0,
        "k" => 1_000.0,
        "kib" => 1_024.0,
        "mib" => 1_048_576.0,
        "g" => 1_000_000_000.0,
        "tib" => 1_099_511_627_776.0,
        _ => panic!("unexpected suffix"),
    }
}

#[test]
fn sizes_agree_with_floating_point() {
    let numbers = [
        "0", "0.1", "0.5", ".5", "5.", "1.5", "2.5", "0.49999999999999994", "1.0005", "3.14159",
        "123456789.987654321", "16777216.5", "4503599627370495.5", "4503599627370496.5",
        "9007199254740993", "18446744073709551614", "18446744073709551615",
        "0.000000000000000000000000000000000001", "00012.50", "98765432109876543210",
        "0.30000000000000004",
    ];
    for number in numbers {
        for suffix in ["", "k", "kib", "mib", "g", "tib"] {
            let value: f64 = number.parse().unwrap();
            let bytes = value * multiple(suffix);
            let expected = if bytes > u64::MAX as f64 {
                Err(QuantityError::TooLarge)
            } else {
                Ok(bytes.round() as u64)
            };
            assert_eq!(parse_byte_size(&format!("{number}{suffix}")), expected);
        }
    }
}

#[test]
fn durations_agree_with_floating_point() {
    let numbers = [
        "0", "0.1", "0.3", ".5", "1.", "1.5", "2.675", "0.0000000005", "0.0000000015", "123.456789",
        "0.123456789123", "18446744073709549568", "307445734561825860", "86400",
    ];
    for number in numbers {
        for suffix in ["", "s", "ms", "m", "min", "h"] {
            let value: f64 = number.parse().unwrap();
            let seconds = match suffix {
                "" | "s" => value,
                "ms" => value / 1_000.0,
                "m" | "min" => value * 60.0,
                _ => value * 3_600.0,
            };
            let input = format!("{number}{suffix}");
            if seconds >= Duration::MAX.as_secs_f64() {
                assert_eq!(parse_duration(&input), Err(QuantityError::TooLarge));
            } else {
                assert_eq!(span(&input), Duration::from_secs_f64(seconds), "{input}");
            }
        }
    }
}

#[test]
fn durations_that_do_not_fit_are_too_large() {
    for input in ["18446744073709551616", "18446744073709551615", "36893488147419103232s"] {
        assert_eq!(parse_duration(input), Err(QuantityError::TooLarge), "{input}");
    }
    assert_eq!(span("18446744073709549568"), Duration::from_secs(18_446_744_073_709_549_568));
}

#[test]
fn bad_quantities_are_refused() {
    assert_eq!(parse_byte_size("  "), Err(QuantityError::Empty));
    assert_eq!(parse_byte_size("MiB"), Err(QuantityError::InvalidNumber));
    assert_eq!(parse_byte_size("1.2.3"), Err(QuantityError::InvalidNumber));
    assert_eq!(parse_byte_size("-1"), Err(QuantityError::InvalidNumber));
    assert_eq!(
        parse_byte_size("5 Parsec"),
        Err(QuantityError::UnknownSuffix("parsec".to_owned()))
    );
    let huge = "9".repeat(400);
    assert_eq!(parse_byte_size(&huge), Err(QuantityError::NotFinite));
    assert_eq!(parse_byte_size("20000000TiB"), Err(QuantityError::TooLarge));
    assert_eq!(parse_duration(""), Err(QuantityError::Empty));
    assert_eq!(parse_duration("s"), Err(QuantityError::InvalidNumber));
    assert_eq!(parse_duration(&huge), Err(QuantityError::NotFinite));
    assert_eq!(
        parse_duration("3d"),
        Err(QuantityError::UnknownSuffix("d".to_owned()))
    );
    assert_eq!(
        parse_duration("100000000000000000000"),
        Err(QuantityError::TooLarge)
    );
}

fn float_format(bytes: u64) -> String {
    let units = ["B", "KiB", "MiB", "GiB", "TiB"];
    let mut value = bytes as f64;
    let mut unit: usize = 0;
    while value >= 1024.0 && unit < units.len() - 1 {
        value /= 1024.0;
        unit += 1;
    }
    if unit == 0 {
        format!("{bytes} B")
    } else {
        format!("{value:.2} {}", units[unit])
    }
}

#[test]
fn sizes_are_shown_as_floating_point_shows_them() {
    let mut cases: Vec<u64> = vec![
        0, 1, 1023, 1024, 1025, 1029, 1030, 1536, 1_048_575, 1_048_576, 1_073_741_823,
        1_073_741_824, 1_099_511_627_775, 1_099_511_627_776, u64::MAX, u64::MAX - 1024,
        (1 << 53) + 1, 9_007_199_254_740_993,
    ];
    let mut state: u64 = 1;
    for _ in 0..2_000 {
        state = state.wrapping_mul(6_364_136_223_846_793_005).wrapping_add(1_442_695_040_888_963_407);
        cases.push(state >> (state % 60));
        cases.push((state >> (state % 60)) << 3);
    }
    for bytes in cases {
        assert_eq!(format_bytes(bytes), float_format(bytes), "{bytes}");
    }
    assert_eq!(format_bytes(1_610_612_736), "1.50 GiB");
}
