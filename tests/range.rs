use adedge::range::{content_range, decide_range, RangeDecision};

#[test]
fn first_hundred_bytes() {
    let l = 1000u64;
    let d = decide_range(Some("bytes=0-99"), l);
    assert_eq!(d, RangeDecision::Partial { start: 0, end: 99, total: l });
    assert_eq!(d.status(), 206);
    assert_eq!(d.body_len(), 100);
    assert_eq!(content_range(0, 99, l), "bytes 0-99/1000");
}

#[test]
fn start_past_clamped_end_is_not_satisfiable() {
    let l = 1000u64;
    let h = format!("bytes={}-{}", l, l + 1);
    let d = decide_range(Some(&h), l);
    assert_eq!(d, RangeDecision::NotSatisfiable { total: l });
    assert_eq!(d.status(), 416);
}

#[test]
fn last_byte_to_past_end_is_clamped() {
    let l = 1000u64;
    let h = format!("bytes={}-{}", l - 1, l);
    assert_eq!(decide_range(Some(&h), l), RangeDecision::Partial { start: l - 1, end: l - 1, total: l });
}

#[test]
fn no_range_is_full() {
    let d = decide_range(None, 1234);
    assert_eq!(d, RangeDecision::Full { total: 1234 });
    assert_eq!(d.status(), 200);
    assert_eq!(d.body_len(), 1234);
    assert_eq!(decide_range(Some("items=0-1"), 10), RangeDecision::Full { total: 10 });
}

#[test]
fn open_ended_ranges() {
    assert_eq!(decide_range(Some("bytes=10-"), 100), RangeDecision::Partial { start: 10, end: 99, total: 100 });
    assert_eq!(decide_range(Some("bytes=-5"), 100), RangeDecision::Partial { start: 0, end: 5, total: 100 });
    assert_eq!(decide_range(Some("bytes=abc-"), 100), RangeDecision::Partial { start: 0, end: 99, total: 100 });
    assert_eq!(decide_range(Some("bytes="), 100), RangeDecision::Partial { start: 0, end: 99, total: 100 });
    assert_eq!(decide_range(Some("bytes=0-1,5-6"), 100), RangeDecision::Partial { start: 0, end: 99, total: 100 });
}

#[test]
fn empty_object_range_not_satisfiable() {
    assert_eq!(decide_range(Some("bytes=0-0"), 0), RangeDecision::NotSatisfiable { total: 0 });
}
