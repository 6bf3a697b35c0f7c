use ziplog::interval::{IntervalAnnotator, IntervalUnit};
use ziplog::Timestamp;

fn ts(secs: i64) -> Option<Timestamp> {
    Some(Timestamp { micros: secs * 1_000_000 })
}

fn s(text: &str) -> Vec<u8> {
    text.as_bytes().to_vec()
}

#[test]
fn interval_column_sequence() {
    // Timestamps 10:00:00, 10:00:05, none, 10:00:08 with unit seconds give
    // blank, 5, blank, 3: the untimestamped line keeps the memory.
    let mut ann = IntervalAnnotator::new(IntervalUnit::Seconds);
    let base: i64 = 10 * 3600;
    assert_eq!(ann.annotate(ts(base), &s("one")), s("       one"));
    assert_eq!(ann.annotate(ts(base + 5), &s("two")), s("      5two"));
    assert_eq!(ann.annotate(None, &s("bare")), s("       bare"));
    assert_eq!(ann.annotate(ts(base + 8), &s("four")), s("      3four"));
}

#[test]
fn milliseconds_unit() {
    let mut ann = IntervalAnnotator::new(IntervalUnit::Milliseconds);
    assert_eq!(
        ann.annotate(Some(Timestamp { micros: 1_000_000 }), &s("a")),
        s("       a")
    );
    // 1234567 microseconds later: 1234 whole milliseconds.
    assert_eq!(
        ann.annotate(Some(Timestamp { micros: 2_234_567 }), &s("b")),
        s("   1234b")
    );
}

#[test]
fn truncation_is_toward_zero() {
    let mut ann = IntervalAnnotator::new(IntervalUnit::Seconds);
    ann.annotate(ts(100), &s("x"));
    // 2.9 seconds forward: 2 whole seconds.
    assert_eq!(
        ann.annotate(Some(Timestamp { micros: 102_900_000 }), &s("y")),
        s("      2y")
    );
    // 1.5 seconds backward from there: -1, not -2.
    assert_eq!(
        ann.annotate(Some(Timestamp { micros: 101_400_000 }), &s("z")),
        s("     -1z")
    );
    // Half a second backward truncates to zero, with no sign.
    assert_eq!(
        ann.annotate(Some(Timestamp { micros: 100_900_000 }), &s("w")),
        s("      0w")
    );
}

#[test]
fn wide_values_escape_the_column() {
    let mut ann = IntervalAnnotator::new(IntervalUnit::Milliseconds);
    ann.annotate(ts(0), &s("a"));
    // 20 billion milliseconds is wider than seven characters.
    assert_eq!(
        ann.annotate(ts(20_000_000), &s("b")),
        s("20000000000b")
    );
}

#[test]
fn memory_updates_only_on_timestamps() {
    let mut ann = IntervalAnnotator::new(IntervalUnit::Seconds);
    assert_eq!(ann.prev, None);
    ann.annotate(None, &s("a"));
    assert_eq!(ann.prev, None);
    ann.annotate(ts(7), &s("b"));
    assert_eq!(ann.prev, Some(Timestamp { micros: 7_000_000 }));
    ann.annotate(None, &s("c"));
    assert_eq!(ann.prev, Some(Timestamp { micros: 7_000_000 }));
}
