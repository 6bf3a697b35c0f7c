use ziplog::merge::{merge_streams, MergeItem};
use ziplog::Timestamp;

fn item(ts: Option<i64>, text: &str) -> MergeItem {
    MergeItem { ts: ts.map(|micros| Timestamp { micros }), line: text.as_bytes().to_vec() }
}

fn texts(items: &[MergeItem]) -> Vec<String> {
    items.iter().map(|it| String::from_utf8(it.line.clone()).unwrap()).collect()
}

#[test]
fn merge_totality() {
    // Three sources: [T1, T3], [T2], and one untimestamped item, T1 < T2 < T3.
    // The untimestamped item sorts before every timestamped one.
    let sources = vec![
        vec![item(Some(100), "a t1"), item(Some(300), "a t3")],
        vec![item(Some(200), "b t2")],
        vec![item(None, "c bare")],
    ];
    let merged = merge_streams(&sources);
    assert_eq!(texts(&merged), vec!["c bare", "a t1", "b t2", "a t3"]);
    assert_eq!(merged[0].ts, None);
    assert_eq!(merged[1].ts, Some(Timestamp { micros: 100 }));
    assert_eq!(merged[2].ts, Some(Timestamp { micros: 200 }));
    assert_eq!(merged[3].ts, Some(Timestamp { micros: 300 }));
}

#[test]
fn ties_break_on_line_text() {
    // Equal timestamps, and two untimestamped lines, order by their text,
    // not by source position.
    let sources = vec![
        vec![item(None, "zz late text"), item(Some(500), "bbb")],
        vec![item(None, "aa early text"), item(Some(500), "aaa")],
    ];
    let merged = merge_streams(&sources);
    assert_eq!(texts(&merged), vec!["aa early text", "zz late text", "aaa", "bbb"]);
}

#[test]
fn merge_is_lazy_by_heads_not_a_global_sort() {
    // Within one source, out-of-order timestamps are not corrected: only
    // heads compete, so a late small timestamp waits behind its predecessor.
    let sources = vec![vec![item(Some(300), "x"), item(Some(100), "y")], vec![item(
        Some(200),
        "z",
    )]];
    let merged = merge_streams(&sources);
    assert_eq!(texts(&merged), vec!["z", "x", "y"]);
}

#[test]
fn rerun_is_byte_identical() {
    let sources = vec![
        vec![item(Some(10), "one"), item(None, "gap"), item(Some(30), "three")],
        vec![item(Some(20), "two"), item(Some(20), "two again")],
        vec![],
    ];
    let first = merge_streams(&sources);
    let second = merge_streams(&sources);
    assert_eq!(first.len(), second.len());
    for (a, b) in first.iter().zip(second.iter()) {
        assert_eq!(a.ts, b.ts);
        assert_eq!(a.line, b.line);
    }
}

#[test]
fn empty_sources_yield_nothing() {
    let sources: Vec<Vec<MergeItem>> = vec![vec![], vec![]];
    assert_eq!(merge_streams(&sources).len(), 0);
    let none: Vec<Vec<MergeItem>> = vec![];
    assert_eq!(merge_streams(&none).len(), 0);
}
