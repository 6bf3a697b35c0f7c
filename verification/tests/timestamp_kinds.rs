use ziplog::timestamp_kinds::{get_timestamp_kinds, FormatId, TimestampKind};

fn line(s: &str) -> Vec<u8> {
    s.as_bytes().to_vec()
}

/// A catalog with a fixed date context, for exact expected values.
fn fixed_kinds(year: i64, month: u64, day: u64) -> Vec<TimestampKind> {
    vec![
        TimestampKind::new(FormatId::MonthNameNoYear, year, month, day),
        TimestampKind::new(FormatId::IsoOffsetBasic, year, month, day),
        TimestampKind::new(FormatId::IsoFracOffset, year, month, day),
        TimestampKind::new(FormatId::DateTimeMillis, year, month, day),
        TimestampKind::new(FormatId::IsoFracZulu, year, month, day),
        TimestampKind::new(FormatId::DateTimeMicros, year, month, day),
        TimestampKind::new(FormatId::TimeOnly, year, month, day),
    ]
}

#[test]
fn main() {
    let samples = &[
        "01:21:27",
        "Apr 6 17:13:40",
        "2018-12-15T02:11:06+0200",
        "2018-12-15T02:11:06.123456+02:00",
        "2019-10-09T10:58:45,929228489+03:00",
        "2018-04-06 17:13:40,955",
        "2018-04-23 04:48:11,811|",
        "2018-04-06 17:13:40",
        "1564 2020-01-15 14:54:14.558",
        "2018-04-06 17:13:40.955356",
        "[2018/04/06 17:13:40",
        "[2018/04/06 17:13:40.955356",
        "16255 15:08:52.554223",
    ];

    for sample in samples {
        let string = format!("{}{}", sample, " log line");
        let mut matches = 0;

        for (index, kind) in get_timestamp_kinds().iter().enumerate() {
            match kind.parse(&string.as_bytes().to_vec()) {
                None => {},
                Some(value) => {
                    println!("kind {} matched sample {:?}, got value {:?}", index, sample, value);
                    matches += 1;
                }
            }
        }

        if matches == 0 {
            panic!("sample {:?} did not match any timestamp kind", sample);
        }
    }
}

#[test]
fn iso_offset_basic_exact_value() {
    let k = TimestampKind::new(FormatId::IsoOffsetBasic, 2000, 1, 1);
    // 2018-12-15 02:11:06 UTC is 1544839866; the +0200 offset moves it back.
    let t = k.parse(&line("2018-12-15T02:11:06+0200 log line")).unwrap();
    assert_eq!(t.micros, 1_544_832_666_000_000);
    // Offset minutes above 59 fail, as does a whole day of offset.
    assert!(k.parse(&line("2018-12-15T02:11:06+0260")).is_none());
    assert!(k.parse(&line("2018-12-15T02:11:06+2400")).is_none());
    assert!(k.parse(&line("2018-12-15T02:11:06+2359")).is_some());
}

#[test]
fn iso_frac_offset_exact_value() {
    let k = TimestampKind::new(FormatId::IsoFracOffset, 2000, 1, 1);
    let t = k.parse(&line("2018-12-15T02:11:06.123456+02:00 x")).unwrap();
    assert_eq!(t.micros, 1_544_832_666_123_456);
    // Extra fractional digits beyond six are dropped, comma accepted.
    let t = k.parse(&line("2019-10-09T10:58:45,929228489+03:00")).unwrap();
    // 2019-10-09 10:58:45 UTC is 1570618725.
    assert_eq!(t.micros, 1_570_618_725_929_228 - 3 * 3600 * 1_000_000);
}

#[test]
fn iso_frac_zulu_exact_value() {
    let k = TimestampKind::new(FormatId::IsoFracZulu, 2000, 1, 1);
    let t = k.parse(&line("2025-02-25T00:20:58.907788332Z rest")).unwrap();
    assert_eq!(t.micros, 1_740_442_858_907_788);
    assert!(k.parse(&line("2025-02-25T00:20:58.907788332")).is_none());
}

#[test]
fn date_time_millis_exact_value() {
    let k = TimestampKind::new(FormatId::DateTimeMillis, 2000, 1, 1);
    // 2018-04-06 17:13:40 UTC is 1523034820.
    let t = k.parse(&line("2018-04-06 17:13:40,955 trailing")).unwrap();
    assert_eq!(t.micros, 1_523_034_820_955_000);
    // A six-digit fraction still matches on its first three digits.
    let t = k.parse(&line("2018-04-06 17:13:40.955356")).unwrap();
    assert_eq!(t.micros, 1_523_034_820_955_000);
    // Without a fraction the fraction is zero.
    let t = k.parse(&line("2018-04-06 17:13:40")).unwrap();
    assert_eq!(t.micros, 1_523_034_820_000_000);
    // A leading process id, or a bracket, is skipped.
    let t = k.parse(&line("1564 2020-01-15 14:54:14.558")).unwrap();
    assert_eq!(t.micros, 1_579_100_054_558_000);
    assert!(k.parse(&line("[2018-04-06 17:13:40")).is_some());
    // Slash separators match the pattern but fail the parse.
    assert!(k.parse(&line("[2018/04/06 17:13:40")).is_none());
    // A T separator likewise.
    assert!(k.parse(&line("2018-12-15T02:11:06")).is_none());
}

#[test]
fn date_time_micros_exact_value() {
    let k = TimestampKind::new(FormatId::DateTimeMicros, 2000, 1, 1);
    let t = k.parse(&line("2018-04-06 17:13:40.955356 x")).unwrap();
    assert_eq!(t.micros, 1_523_034_820_955_356);
    // Exactly six fractional digits are needed for the fraction to count.
    let t = k.parse(&line("2018-04-06 17:13:40.955")).unwrap();
    assert_eq!(t.micros, 1_523_034_820_000_000);
}

#[test]
fn month_name_exact_value() {
    let k = TimestampKind::new(FormatId::MonthNameNoYear, 2018, 12, 31);
    let t = k.parse(&line("Apr 6 17:13:40 host daemon: msg")).unwrap();
    assert_eq!(t.micros, 1_523_034_820_000_000);
    // Multiple spaces and case-insensitive month names are accepted.
    let t = k.parse(&line("APR  6 17:13:40")).unwrap();
    assert_eq!(t.micros, 1_523_034_820_000_000);
    // Not a month name.
    assert!(k.parse(&line("Foo 6 17:13:40")).is_none());
    // A day outside the month fails.
    assert!(k.parse(&line("Apr 31 17:13:40")).is_none());
    // Three-digit fields fail, as the numeric fields hold two digits at most.
    assert!(k.parse(&line("Apr 006 17:13:40")).is_none());
}

#[test]
fn time_only_exact_value() {
    let k = TimestampKind::new(FormatId::TimeOnly, 2018, 4, 6);
    // 2018-04-06 00:00:00 UTC is 1522972800.
    let t = k.parse(&line("16255 15:08:52.554223 trace")).unwrap();
    assert_eq!(t.micros, 1_522_972_800_000_000 + (15 * 3600 + 8 * 60 + 52) * 1_000_000 + 554_223);
    let t = k.parse(&line("01:21:27")).unwrap();
    assert_eq!(t.micros, 1_522_972_800_000_000 + (3600 + 21 * 60 + 27) * 1_000_000);
    // Only the leftmost candidate counts: if its fields are out of range,
    // the whole pattern fails even when a valid time follows.
    assert!(k.parse(&line("99:99:99 but 12:13:14")).is_none());
    // No word boundary before the digits.
    assert!(k.parse(&line("a12:13:14")).is_none());
    // A five-digit fraction does not count.
    let t = k.parse(&line("01:21:27.55422")).unwrap();
    assert_eq!(t.micros, 1_522_972_800_000_000 + (3600 + 21 * 60 + 27) * 1_000_000);
}

#[test]
fn leap_year_validation() {
    let k = TimestampKind::new(FormatId::DateTimeMicros, 2000, 1, 1);
    // 2020-02-29 00:00:00 UTC is 1582934400.
    let t = k.parse(&line("2020-02-29 00:00:00")).unwrap();
    assert_eq!(t.micros, 1_582_934_400_000_000);
    assert!(k.parse(&line("2019-02-29 00:00:00")).is_none());
    // 2000 is a leap year, 1900 is not.
    assert!(k.parse(&line("2000-02-29 00:00:00")).is_some());
    assert!(k.parse(&line("1900-02-29 00:00:00")).is_none());
}

#[test]
fn catalog_order_prefers_specific_formats() {
    let kinds = fixed_kinds(2018, 4, 6);
    // The millisecond pattern stands before the microsecond one, so a
    // six-digit fraction is read through it, keeping three digits.
    let mut hit = None;
    for (i, k) in kinds.iter().enumerate() {
        if let Some(t) = k.parse(&line("2018-04-06 17:13:40.955356")) {
            hit = Some((i, t));
            break;
        }
    }
    let (i, t) = hit.unwrap();
    assert_eq!(i, 3);
    assert_eq!(t.micros, 1_523_034_820_955_000);
    // The offset form is caught before the plain date-time form sees it.
    let mut hit = None;
    for (i, k) in kinds.iter().enumerate() {
        if let Some(t) = k.parse(&line("2018-12-15T02:11:06+0200")) {
            hit = Some((i, t));
            break;
        }
    }
    let (i, t) = hit.unwrap();
    assert_eq!(i, 1);
    assert_eq!(t.micros, 1_544_832_666_000_000);
}

#[test]
fn agrees_with_chrono_on_the_offset_form() {
    let dt = chrono::DateTime::parse_from_str("2018-12-15T02:11:06+0200", "%Y-%m-%dT%H:%M:%S%:z")
        .unwrap();
    let k = TimestampKind::new(FormatId::IsoOffsetBasic, 2000, 1, 1);
    let t = k.parse(&line("2018-12-15T02:11:06+0200")).unwrap();
    assert_eq!(t.micros, dt.timestamp_micros());
}

#[test]
fn agrees_with_chrono_on_the_date_time_form() {
    let dt = chrono::NaiveDateTime::parse_from_str("2020-01-15 14:54:14", "%Y-%m-%d %H:%M:%S")
        .unwrap()
        .and_utc();
    let k = TimestampKind::new(FormatId::DateTimeMillis, 2000, 1, 1);
    let t = k.parse(&line("1564 2020-01-15 14:54:14.558")).unwrap();
    assert_eq!(t.micros, dt.timestamp_micros() + 558_000);
}

#[test]
fn get_timestamp_kinds_shares_context() {
    let kinds = get_timestamp_kinds();
    assert_eq!(kinds.len(), 7);
    for k in kinds.iter() {
        assert_eq!(k.year, kinds[0].year);
        assert_eq!(k.month, kinds[0].month);
        assert_eq!(k.day, kinds[0].day);
        assert!((1..=12).contains(&k.month));
        assert!((1..=31).contains(&k.day));
    }
}
