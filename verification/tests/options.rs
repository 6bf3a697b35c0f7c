use ziplog::interval::IntervalUnit;
use ziplog::options::{is_stdin_path, parse_interval_unit, source_decision, PrefixedFile};

fn s(text: &str) -> Vec<u8> {
    text.as_bytes().to_vec()
}

#[test]
fn prefixed_file_splits_at_first_equals() {
    let p = PrefixedFile::from_str(&s("web=/var/log/web.log"));
    assert_eq!(p.prefix, s("web"));
    assert_eq!(p.path, s("/var/log/web.log"));
    // Only the first equals sign splits.
    let p = PrefixedFile::from_str(&s("a=b=c"));
    assert_eq!(p.prefix, s("a"));
    assert_eq!(p.path, s("b=c"));
    // Without one, the prefix is empty and the whole text is the path.
    let p = PrefixedFile::from_str(&s("/var/log/syslog"));
    assert_eq!(p.prefix, s(""));
    assert_eq!(p.path, s("/var/log/syslog"));
}

#[test]
fn interval_unit_parsing() {
    assert_eq!(parse_interval_unit(&s("s")), Some(IntervalUnit::Seconds));
    assert_eq!(parse_interval_unit(&s("ms")), Some(IntervalUnit::Milliseconds));
    // Anything else is invalid, which the caller turns into a fatal error.
    assert_eq!(parse_interval_unit(&s("us")), None);
    assert_eq!(parse_interval_unit(&s("")), None);
    assert_eq!(parse_interval_unit(&s("S")), None);
}

#[test]
fn stdin_dedup() {
    // Two specifications both resolving to standard input attach once.
    let mut stdin_found = false;
    let mut attached = 0;
    for path in [s("-"), s("a.log"), s("-")] {
        let (attach, found) = source_decision(&path, stdin_found);
        stdin_found = found;
        if attach {
            attached += 1;
        }
    }
    assert_eq!(attached, 2);
    assert!(stdin_found);
    assert!(is_stdin_path(&s("-")));
    assert!(!is_stdin_path(&s("--")));
    assert!(!is_stdin_path(&s("x")));
}
