use hub_diff::differ::{diff, TimeWindow};
use hub_diff::histogram::{
    histogram_by_record_type, histogram_by_time_bucket, type_bucket_label, TypeBucket,
};
use hub_diff::sync_id::DecodeError;

/// An identifier whose delta places it `delta` seconds after the network
/// epoch (absolute time 1609459200 + delta).
fn id_at(delta: u32, record_type: u8, fid: u8, tag: u8) -> Vec<u8> {
    let mut bytes = format!("{:010}", delta).into_bytes();
    bytes.push(record_type);
    bytes.extend_from_slice(&[0, 0, 0, fid]);
    bytes.push(tag);
    bytes
}

/// A window covering the first day after the network epoch.
fn first_day_window() -> TimeWindow {
    TimeWindow { start: 1609459200, end: 1609459200 + 86400 }
}

#[test]
fn end_to_end_scenario() {
    // Source holds {A, B, C}, target holds {B, C, D}, all within the window.
    let a = id_at(100, 1, 1, 0xa);
    let b = id_at(200, 1, 2, 0xb);
    let c = id_at(300, 9, 3, 0xc);
    let d = id_at(400, 7, 4, 0xd);
    let source = vec![a.clone(), b.clone(), c.clone()];
    let target = vec![b.clone(), c.clone(), d.clone()];
    let report = diff(&source, &target, &first_day_window()).unwrap();
    assert_eq!(report.only_in_source, vec![a.clone()]);
    assert_eq!(report.only_in_target, vec![d.clone()]);

    // A's type byte maps to "user message": the histogram is that one row.
    let hist = histogram_by_record_type(&report.only_in_source);
    assert_eq!(hist.total, 1);
    assert_eq!(hist.entries.len(), 1);
    assert_eq!(hist.entries[0].bucket, TypeBucket::Message);
    assert_eq!(hist.entries[0].count, 1);
    assert_eq!(type_bucket_label(hist.entries[0].bucket), "user message");
}

#[test]
fn diff_is_symmetric() {
    let a = id_at(100, 1, 1, 0xa);
    let b = id_at(200, 1, 2, 0xb);
    let c = id_at(300, 9, 3, 0xc);
    let w = first_day_window();
    let r1 = diff(&vec![a.clone(), b.clone()], &vec![b.clone(), c.clone()], &w).unwrap();
    let r2 = diff(&vec![b.clone(), c.clone()], &vec![a.clone(), b.clone()], &w).unwrap();
    assert_eq!(r1.only_in_source, r2.only_in_target);
    assert_eq!(r1.only_in_target, r2.only_in_source);
}

#[test]
fn out_of_window_identifiers_appear_on_neither_side() {
    // In both inputs but out of window: excluded. Only in source but out of
    // window: excluded too.
    let late = id_at(90000, 1, 1, 0xe);
    let lone_late = id_at(90001, 1, 2, 0xf);
    let in_win = id_at(100, 1, 3, 0x1);
    let source = vec![late.clone(), lone_late.clone(), in_win.clone()];
    let target = vec![late.clone()];
    let report = diff(&source, &target, &first_day_window()).unwrap();
    assert_eq!(report.only_in_source, vec![in_win.clone()]);
    assert!(report.only_in_target.is_empty());
}

#[test]
fn common_identifiers_appear_on_neither_side() {
    let shared = id_at(100, 1, 1, 0x1);
    let report =
        diff(&vec![shared.clone()], &vec![shared.clone()], &first_day_window()).unwrap();
    assert!(report.only_in_source.is_empty());
    assert!(report.only_in_target.is_empty());
}

#[test]
fn undecodable_identifier_fails_the_whole_diff() {
    let good = id_at(100, 1, 1, 0x1);
    let short = vec![1, 2, 3];
    let r = diff(&vec![good.clone(), short.clone()], &vec![good.clone()], &first_day_window());
    assert_eq!(r.err(), Some(DecodeError::TooShort));
    // A bad timestamp in the target fails it too.
    let mut bad_ts = id_at(100, 1, 2, 0x2);
    bad_ts[0] = b'x';
    let r = diff(&vec![good.clone()], &vec![bad_ts], &first_day_window());
    assert_eq!(r.err(), Some(DecodeError::InvalidTimestamp));
}

#[test]
fn record_type_histogram_orders_by_count_then_label() {
    // Two messages, one on-chain event, one unknown, one malformed: counts
    // 2,1,1,1; ties are laid out in label order: "malformed" <
    // "on-chain event" < "unknown".
    let ids = vec![
        id_at(1, 1, 1, 0x1),
        id_at(2, 1, 2, 0x2),
        id_at(3, 9, 3, 0x3),
        id_at(4, 250, 4, 0x4),
        vec![9, 9, 9],
    ];
    let hist = histogram_by_record_type(&ids);
    assert_eq!(hist.total, 5);
    let rows: Vec<(TypeBucket, u64)> =
        hist.entries.iter().map(|e| (e.bucket, e.count)).collect();
    assert_eq!(
        rows,
        vec![
            (TypeBucket::Message, 2),
            (TypeBucket::Malformed, 1),
            (TypeBucket::OnChainEvent, 1),
            (TypeBucket::Unknown, 1),
        ]
    );
    let total: u64 = hist.entries.iter().map(|e| e.count).sum();
    assert_eq!(total, ids.len() as u64);
}

#[test]
fn record_type_histogram_counts_sum_to_input_size() {
    let ids = vec![
        id_at(1, 1, 1, 0x1),
        id_at(2, 7, 2, 0x2),
        id_at(3, 7, 3, 0x3),
        vec![],
        vec![48; 14],
    ];
    let hist = histogram_by_record_type(&ids);
    assert_eq!(hist.total, 5);
    let sum: u64 = hist.entries.iter().map(|e| e.count).sum();
    assert_eq!(sum, 5);
}

#[test]
fn empty_set_yields_empty_histogram() {
    let hist = histogram_by_record_type(&vec![]);
    assert_eq!(hist.total, 0);
    assert!(hist.entries.is_empty());
}

#[test]
fn time_histogram_is_chronological() {
    // Epoch is 1609459200, a multiple of 3600: deltas 0 and 100 share the
    // first hour bucket, 3700 is in the next, 7300 in the one after. Input
    // order is deliberately scrambled.
    let ids = vec![
        id_at(7300, 1, 1, 0x1),
        id_at(0, 1, 2, 0x2),
        id_at(3700, 9, 3, 0x3),
        id_at(100, 7, 4, 0x4),
        vec![1, 2],
    ];
    let hist = histogram_by_time_bucket(&ids, 3600);
    assert_eq!(hist.total, 5);
    assert_eq!(hist.malformed, 1);
    let rows: Vec<(i64, u64)> =
        hist.entries.iter().map(|e| (e.bucket_start, e.count)).collect();
    assert_eq!(
        rows,
        vec![(1609459200, 2), (1609459200 + 3600, 1), (1609459200 + 7200, 1)]
    );
}

#[test]
fn time_histogram_day_granularity() {
    let ids = vec![id_at(0, 1, 1, 0x1), id_at(86399, 1, 2, 0x2), id_at(86400, 1, 3, 0x3)];
    let hist = histogram_by_time_bucket(&ids, 86400);
    assert_eq!(hist.malformed, 0);
    let rows: Vec<(i64, u64)> =
        hist.entries.iter().map(|e| (e.bucket_start, e.count)).collect();
    assert_eq!(rows, vec![(1609459200, 2), (1609459200 + 86400, 1)]);
}
