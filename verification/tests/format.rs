//! Sizes and durations as text.
use reclaim::format::{
    bytes, bytes_padded, duration, ellipsize, parse_bytes, parse_days, percent, relative_time,
    seconds,
};

const DAY: i128 = 86_400 * 1_000_000_000;

#[test]
fn bytes_formats_with_shrinking_precision() {
    let cases: Vec<(u64, &str)> = vec![
        (0, "0 B"),
        (512, "512 B"),
        (1024, "1.00 KB"),
        (1536, "1.50 KB"),
        (10 * 1024, "10.0 KB"),
        (100 * 1024, "100 KB"),
        (1024 * 1024, "1.00 MB"),
        (3 * 1024 * 1024 * 1024, "3.00 GB"),
    ];
    for (input, expected) in cases {
        assert_eq!(bytes(input), expected);
    }
}

#[test]
fn parse_bytes_accepts_common_spellings() {
    let cases: Vec<(&str, u64)> = vec![
        ("1024", 1024),
        ("50MB", 50 * 1024 * 1024),
        ("50 mb", 50 * 1024 * 1024),
        ("1.5GiB", 1_610_612_736),
        ("2g", 2 * 1024 * 1024 * 1024),
        ("100", 100),
    ];
    for (input, expected) in cases {
        assert_eq!(parse_bytes(input).unwrap(), expected);
    }
}

#[test]
fn parse_bytes_rejects_junk() {
    for input in ["", "abc", "10 furlongs", "-5MB"] {
        assert!(parse_bytes(input).is_err(), "`{input}` should not parse");
    }
}

#[test]
fn parse_days_accepts_common_spellings() {
    let cases: Vec<(&str, u32)> =
        vec![("30", 30), ("30d", 30), ("6w", 42), ("3mo", 90), ("1y", 365)];
    for (input, expected) in cases {
        assert_eq!(parse_days(input).unwrap(), expected);
    }
}

#[test]
fn parse_days_rejects_sub_day_units_rather_than_silently_rounding() {
    let err = parse_days("6h").unwrap_err();
    assert!(err.contains("days"), "error should explain the unit: {err}");
}

#[test]
fn roundtrip_of_parse_and_format_is_stable() {
    for raw in ["1KB", "50MB", "2GB"] {
        let parsed = parse_bytes(raw).unwrap();
        let formatted = bytes(parsed);
        assert_eq!(parse_bytes(&formatted).unwrap(), parsed);
    }
}

#[test]
fn ellipsize_keeps_the_identifying_tail() {
    assert_eq!(ellipsize("short", 10), "short");
    let out = ellipsize("/Users/x/projects/my-app/node_modules", 20);
    assert_eq!(out.chars().count(), 20);
    assert!(out.ends_with("node_modules"), "tail is the identifying part: {out}");
}

#[test]
fn duration_scales_units() {
    assert_eq!(duration(1, 400_000_000), "1.4s");
    assert_eq!(duration(125, 0), "2m 05s");
    assert_eq!(duration(3700, 0), "1h 01m");
}

// Everything below goes through floating point in the same way as the formatter of the standard
// library, so the two are held against each other.

#[test]
fn sizes_read_as_floating_point_prints_them() {
    let units = ["B", "KB", "MB", "GB", "TB", "PB", "EB"];
    let mut n: u64 = 1023;
    while n < 1 << 62 {
        let mut value = n as f64;
        let mut unit = 0;
        while value >= 1024.0 && unit < units.len() - 1 {
            value /= 1024.0;
            unit += 1;
        }
        let expected = if unit == 0 {
            format!("{n} B")
        } else if value >= 100.0 {
            format!("{value:.0} {}", units[unit])
        } else if value >= 10.0 {
            format!("{value:.1} {}", units[unit])
        } else {
            format!("{value:.2} {}", units[unit])
        };
        if expected.ends_with(units[unit]) && unit < 5 {
            assert_eq!(bytes(n), expected, "{n}");
        }
        n = n * 3 / 2 + 7;
    }
}

#[test]
fn sizes_parse_as_floating_point_reads_them() {
    for raw in ["0.1", "1.1", "2.675", "1e3", "3.14159", "0.0009765625", ".5", "7."] {
        let expected = raw.parse::<f64>().unwrap() * (1u64 << 20) as f64;
        let text = format!("{raw}MB");
        match parse_bytes(&text) {
            Ok(n) => assert_eq!(n, expected as u64, "{text}"),
            Err(_) => assert!(raw.contains('e'), "{text}"),
        }
    }
}

#[test]
fn seconds_read_as_floating_point_prints_them() {
    for millis in [0u64, 1, 49, 50, 51, 149, 150, 250, 350, 1500, 12_345, 59_950, u64::MAX] {
        assert_eq!(seconds(millis), format!("{:.1}", millis as f64 / 1000.0), "{millis}");
    }
}

#[test]
fn shares_read_as_floating_point_prints_them() {
    let cases: Vec<(u64, u64)> = vec![
        (0, 1),
        (1, 1),
        (1, 3),
        (2, 3),
        (1, 7),
        (1, 1000),
        (12_345, 99_999),
        (u64::MAX - 1, u64::MAX),
        (1, u64::MAX),
    ];
    for (part, whole) in cases {
        assert_eq!(
            percent(part, whole),
            format!("{:.2}", part as f64 / whole as f64 * 100.0),
            "{part} of {whole}",
        );
    }
}

#[test]
fn durations_read_as_floating_point_prints_them() {
    for (secs, nanos) in [(0u64, 0u32), (0, 49_999_999), (0, 50_000_000), (3, 250_000_000), (59, 949_999_999)] {
        let value = std::time::Duration::new(secs, nanos).as_secs_f64();
        assert_eq!(duration(secs, nanos), format!("{value:.1}s"));
    }
}

#[test]
fn padding_goes_to_the_left_of_a_size() {
    assert_eq!(bytes_padded(1024, 9), "  1.00 KB");
    assert_eq!(bytes_padded(1024, 3), "1.00 KB");
}

#[test]
fn a_moment_reads_as_the_days_since() {
    assert_eq!(relative_time(0, 0), "today");
    assert_eq!(relative_time(0, 3 * DAY), "3 days ago");
    assert_eq!(relative_time(5 * DAY, 3 * DAY), "today", "the future is not past");
}

#[test]
fn bare_numbers_round_trip_as_bytes() {
    for n in [0u64, 1, 1023, 4096, 1_000_000] {
        assert_eq!(parse_bytes(&n.to_string()).unwrap(), n);
    }
}

#[test]
fn an_ellipsis_never_makes_a_text_longer() {
    for max in [0usize, 1, 2, 5, 30] {
        let out = ellipsize("abcdefgh", max);
        assert!(out.chars().count() == max || out == "abcdefgh", "{max}: {out}");
    }
    assert_eq!(ellipsize("abcdefgh", 0), "");
    assert_eq!(ellipsize("abcdefgh", 1), "…");
    assert_eq!(ellipsize("", 0), "");
}
