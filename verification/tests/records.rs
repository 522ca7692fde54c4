use s2_input::admission::{scan_records, Scanned};
use s2_input::batch::{S2Cursor, S2ReadBatch, S2Record};

fn record(seq_num: Option<u64>, body: &str) -> S2Record {
    S2Record {
        body: body.to_string(),
        seq_num,
    }
}

fn numbered(records: &[(u64, &str)]) -> Vec<(u64, String)> {
    records
        .iter()
        .map(|(seq_num, body)| (*seq_num, body.to_string()))
        .collect()
}

fn scanned(bodies: &[&str], gap: Option<(u64, u64)>) -> Scanned {
    Scanned {
        bodies: bodies.iter().map(|body| body.to_string()).collect(),
        gap,
    }
}

#[test]
fn records_keep_their_own_numbers() {
    let batch = S2ReadBatch {
        start: Some(S2Cursor { seq_num: 10 }),
        records: vec![record(Some(4), "a"), record(None, "b"), record(Some(2), "c")],
    };
    assert_eq!(batch.into_records(100), numbered(&[(4, "a"), (11, "b"), (2, "c")]));
}

#[test]
fn records_are_counted_from_the_start() {
    let batch = S2ReadBatch {
        start: Some(S2Cursor { seq_num: 7 }),
        records: vec![record(None, "a"), record(None, "b")],
    };
    assert!(batch.is_countable(100));
    assert_eq!(batch.into_records(100), numbered(&[(7, "a"), (8, "b")]));
}

#[test]
fn records_are_counted_from_the_default() {
    let batch = S2ReadBatch {
        start: None,
        records: vec![record(None, "a"), record(None, "b")],
    };
    assert_eq!(batch.into_records(100), numbered(&[(100, "a"), (101, "b")]));
}

#[test]
fn a_batch_may_be_empty() {
    let batch = S2ReadBatch {
        start: None,
        records: Vec::new(),
    };
    assert!(batch.is_countable(u64::MAX));
    assert_eq!(batch.into_records(u64::MAX), Vec::new());
}

#[test]
fn counting_stops_at_the_last_number() {
    let mut batch = S2ReadBatch {
        start: Some(S2Cursor { seq_num: u64::MAX - 1 }),
        records: vec![record(None, "a"), record(None, "b")],
    };
    assert!(batch.is_countable(0));
    batch.records.push(record(Some(0), "c"));
    assert!(!batch.is_countable(0));
    batch.records.pop();
    assert_eq!(
        batch.into_records(0),
        numbered(&[(u64::MAX - 1, "a"), (u64::MAX, "b")])
    );
}

#[test]
fn a_complete_run_is_taken() {
    let records = numbered(&[(5, "a"), (6, "b"), (7, "c")]);
    assert_eq!(scan_records(records, 5, None), scanned(&["a", "b", "c"], None));
}

#[test]
fn old_records_are_skipped() {
    let records = numbered(&[(3, "x"), (5, "a"), (5, "y"), (4, "z"), (6, "b")]);
    assert_eq!(scan_records(records, 5, None), scanned(&["a", "b"], None));
}

#[test]
fn a_gap_ends_the_scan() {
    let records = numbered(&[(5, "a"), (7, "c"), (6, "b")]);
    assert_eq!(scan_records(records, 5, None), scanned(&["a"], Some((6, 7))));
}

#[test]
fn redelivery_adds_nothing() {
    let records = numbered(&[(5, "a"), (6, "b")]);
    assert_eq!(scan_records(records, 7, None), scanned(&[], None));
}

#[test]
fn batching_makes_no_difference() {
    let first = scan_records(numbered(&[(0, "a"), (1, "b")]), 0, None);
    let second = scan_records(numbered(&[(1, "b"), (2, "c"), (4, "e")]), 2, None);
    let both = scan_records(
        numbered(&[(0, "a"), (1, "b"), (1, "b"), (2, "c"), (4, "e")]),
        0,
        None,
    );
    assert_eq!(first, scanned(&["a", "b"], None));
    assert_eq!(second, scanned(&["c"], Some((3, 4))));
    assert_eq!(both, scanned(&["a", "b", "c"], Some((3, 4))));
}

#[test]
fn the_end_cuts_off() {
    let records = numbered(&[(0, "a"), (1, "b"), (2, "c"), (9, "x")]);
    assert_eq!(scan_records(records, 0, Some(2)), scanned(&["a", "b"], None));
}

#[test]
fn a_gap_at_the_end_is_a_gap() {
    let records = numbered(&[(0, "a"), (2, "c")]);
    assert_eq!(scan_records(records, 0, Some(1)), scanned(&["a"], Some((1, 2))));
}

#[test]
fn the_last_number_is_taken_once() {
    let records = numbered(&[(u64::MAX, "a"), (u64::MAX, "b"), (0, "c")]);
    assert_eq!(scan_records(records, u64::MAX, None), scanned(&["a"], None));
}

#[test]
fn reading_again_takes_the_same() {
    let first = scan_records(numbered(&[(0, "a"), (1, "b")]), 0, None);
    let second = scan_records(numbered(&[(1, "b"), (2, "c"), (3, "d")]), 2, None);
    let again = scan_records(numbered(&[(0, "a")]), 0, Some(3));
    let more = scan_records(numbered(&[(1, "b"), (1, "b"), (2, "c"), (3, "d")]), 1, Some(3));
    let mut taken = first.bodies;
    taken.extend(second.bodies);
    let mut retaken = again.bodies;
    retaken.extend(more.bodies);
    assert_eq!(retaken, taken[..3]);
    assert_eq!(more.gap, None);
}
