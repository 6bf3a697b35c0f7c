use ziplog::timestamp_kinds::{FormatId, TimestampKind};
use ziplog::timestamp_stream::TimestampedStream;

fn line(s: &str) -> Vec<u8> {
    s.as_bytes().to_vec()
}

fn fixed_kinds(year: i64, month: u64, day: u64) -> Vec<TimestampKind> {
    vec![
        TimestampKind::new(FormatId::MonthNameNoYear, year, month, day),
        TimestampKind::new(FormatId::IsoOffsetBasic, year, month, day),
        TimestampKind::new(FormatId::IsoFracOffset, year, month, day),
        TimestampKind::new(FormatId::DateTimeMillis, year, month, day),
        TimestampKind::new(FormatId::IsoFracZulu, year, month, day),
        TimestampKind::new(FormatId::DateTimeMicros, year, month, day),
        TimestampKind::new(FormatId::TimeOnly, year, month, day),
    ]
}

#[test]
fn lock_is_sticky() {
    let mut stream = TimestampedStream::new(line("> "), fixed_kinds(2018, 4, 6));
    // The first matching line locks the source to IsoOffsetBasic.
    let (ts, rendered) = stream.get_next(&line("2018-12-15T02:11:06+0200 boot"));
    assert_eq!(ts.unwrap().micros, 1_544_832_666_000_000);
    assert_eq!(rendered, line("> 2018-12-15T02:11:06+0200 boot"));
    assert_eq!(stream.kind, Some(1));
    // A later line that only the month-name format would match does not
    // switch formats: under the locked one it is a non-match.
    let (ts, rendered) = stream.get_next(&line("Apr 6 17:13:40 cron"));
    assert!(ts.is_none());
    assert_eq!(rendered, line("  Apr 6 17:13:40 cron"));
    assert_eq!(stream.kind, Some(1));
    // A line the locked format does match still parses.
    let (ts, rendered) = stream.get_next(&line("2018-12-16T00:00:00+0000 next"));
    assert!(ts.is_some());
    assert_eq!(rendered, line("> 2018-12-16T00:00:00+0000 next"));
    assert_eq!(stream.kind, Some(1));
}

#[test]
fn unlocked_lines_keep_trying_the_catalog() {
    let mut stream = TimestampedStream::new(line("web| "), fixed_kinds(2018, 4, 6));
    let (ts, rendered) = stream.get_next(&line("starting up"));
    assert!(ts.is_none());
    assert_eq!(rendered, line("     starting up"));
    assert_eq!(stream.kind, None);
    // Still unlocked, so a later matching line locks and renders prefixed.
    let (ts, rendered) = stream.get_next(&line("2018-04-06 17:13:40,955 ready"));
    assert_eq!(ts.unwrap().micros, 1_523_034_820_955_000);
    assert_eq!(rendered, line("web| 2018-04-06 17:13:40,955 ready"));
    assert_eq!(stream.kind, Some(3));
}

#[test]
fn filler_matches_prefix_width() {
    let stream = TimestampedStream::new(line("abc: "), fixed_kinds(2018, 4, 6));
    assert_eq!(stream.filler, line("     "));
    assert_eq!(stream.prefix, line("abc: "));
}
