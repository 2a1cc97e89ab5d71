use bbt::pressure::{pressure_from_str, pressure_unreadable};

fn num(t: &str) -> f64 {
    t.parse::<f64>().expect("average reads as a number")
}

#[test]
fn pressure_parses_reference_format_exactly() {
    let content = "some avg10=0.31 avg60=0.25 avg300=0.10 total=1216511894\n\
                   full avg10=0.31 avg60=0.25 avg300=0.10 total=1192581388\n";

    let info = pressure_from_str(content);

    assert!(info.available);
    assert!(info.warnings.is_empty());
    let some = info.some.expect("some line");
    assert_eq!(num(&some.avg10), 0.31);
    assert_eq!(num(&some.avg60), 0.25);
    assert_eq!(num(&some.avg300), 0.10);
    assert_eq!(some.total_stalled_usec, 1216511894);
    let full = info.full.expect("full line");
    assert_eq!(num(&full.avg10), 0.31);
    assert_eq!(num(&full.avg60), 0.25);
    assert_eq!(num(&full.avg300), 0.10);
    assert_eq!(full.total_stalled_usec, 1192581388);
}

#[test]
fn pressure_parses_zero_values() {
    let content = "some avg10=0.00 avg60=0.00 avg300=0.00 total=0\n\
                   full avg10=0.00 avg60=0.00 avg300=0.00 total=0\n";

    let info = pressure_from_str(content);

    assert!(info.available);
    assert_eq!(num(&info.some.expect("some line").avg10), 0.0);
    assert_eq!(info.full.expect("full line").total_stalled_usec, 0);
}

#[test]
fn pressure_reports_malformed_content_as_unavailable_with_warnings() {
    let malformed = [
        "",
        "garbage\n",
        "some avg10=not-a-number avg60=0.25 avg300=0.10 total=1\n",
        "some avg10=0.31 avg60=0.25\n",
        "some avg10 avg60 avg300 total\n",
    ];

    for content in malformed {
        let info = pressure_from_str(content);

        assert!(!info.available, "content {content:?} should be unavailable");
        assert!(info.some.is_none());
        assert!(info.full.is_none());
        assert!(!info.warnings.is_empty());
    }
}

#[test]
fn pressure_keeps_parseable_line_when_other_line_is_malformed() {
    let content = "some avg10=1.50 avg60=0.75 avg300=0.20 total=42\n\
                   full avg10=broken\n";

    let info = pressure_from_str(content);

    assert!(info.available);
    assert_eq!(info.some.expect("some line").total_stalled_usec, 42);
    assert!(info.full.is_none());
    assert_eq!(info.warnings.len(), 1);
}

#[test]
fn pressure_warning_texts() {
    let info = pressure_from_str("odd line\n\nsome avg10=x\n");
    assert_eq!(
        info.warnings,
        vec![
            "unrecognized pressure line: odd line".to_string(),
            "malformed pressure line: some avg10=x".to_string(),
            "no parseable PSI data found".to_string(),
        ]
    );
    let gone = pressure_unreadable("/proc/pressure/io", &"No such file or directory (os error 2)".to_string());
    assert!(!gone.available);
    assert_eq!(
        gone.warnings,
        vec!["/proc/pressure/io unreadable: No such file or directory (os error 2); PSI requires Linux 4.20+ with CONFIG_PSI enabled".to_string()]
    );
}

#[test]
fn float_syntax_follows_std() {
    let texts = [
        "1", "1.", ".5", "1.5e3", "1E-3", "+2", "-2.5", "inf", "-Infinity", "NaN", "nan", "",
        ".", "e5", "1e", "1e+", "1.2.3", "0x10", "1_000", " 1", "infx", "+", "-.5e+10", "5.e2",
    ];
    for t in texts {
        assert_eq!(
            bbt::text::is_float_text(t),
            t.parse::<f64>().is_ok(),
            "text {t:?}"
        );
    }
}

#[test]
fn pressure_missing_file_is_unavailable_without_panic() {
    let info = pressure_unreadable("/tmp/fixture/no-psi-here", &"No such file or directory (os error 2)".to_string());

    assert!(!info.available);
    assert!(info.some.is_none());
    assert!(info.full.is_none());
    assert!(!info.warnings.is_empty());
}
