//! End-to-end scenarios: building, inserting and scanning a small index
//! under each storage variant the small sizes allow.

use timescale_vector::build_index::{build_empty, build_index, insert_row};
use timescale_vector::options::TSVIndexOptions;
use timescale_vector::page::Relation;
use timescale_vector::scan::TSVScanState;
use timescale_vector::stats::InterruptFlag;
use timescale_vector::util::{HeapPointer, IndexError, ItemPointer};

fn flag() -> InterruptFlag {
    InterruptFlag::new(u64::MAX)
}

fn ctid(n: u16) -> HeapPointer {
    ItemPointer::new(1, n)
}

fn rows(vecs: &[Vec<i32>]) -> Vec<(HeapPointer, Option<Vec<i32>>)> {
    vecs.iter().enumerate().map(|(i, v)| (ctid(i as u16 + 1), Some(v.clone()))).collect()
}

fn scan_with(rel: &mut Relation, query: &Vec<i32>, search_list_size: usize) -> Vec<HeapPointer> {
    let mut state = TSVScanState::new();
    state.initialize(rel, query, search_list_size, &mut flag()).expect("scan init");
    let mut out = Vec::new();
    loop {
        match state.get_tuple(rel, &mut flag()).expect("get_tuple") {
            Some(h) => out.push(h),
            None => break,
        }
    }
    state.end_scan();
    out
}

fn scan_all(rel: &mut Relation, query: &Vec<i32>) -> Vec<HeapPointer> {
    scan_with(rel, query, 100)
}

#[test]
fn three_vectors_scan_in_distance_order() {
    let mut rel = Relation::new();
    let data = [vec![1, 2, 3], vec![4, 5, 6], vec![7, 8, 10]];
    let n = build_index(&mut rel, &rows(&data), 3, &TSVIndexOptions::defaults(), &mut flag())
        .expect("build");
    assert_eq!(n, 3);
    let got = scan_all(&mut rel, &vec![0, 0, 0]);
    assert_eq!(got, vec![ctid(1), ctid(2), ctid(3)]);
}

#[test]
fn insert_after_build_grows_the_scan() {
    let mut rel = Relation::new();
    let data = [vec![1, 2, 3], vec![4, 5, 6], vec![7, 8, 10]];
    build_index(&mut rel, &rows(&data), 3, &TSVIndexOptions::defaults(), &mut flag())
        .expect("build");
    assert!(insert_row(&mut rel, &Some(vec![11, 12, 13]), ctid(4), &mut flag()).expect("insert"));
    assert_eq!(scan_all(&mut rel, &vec![0, 0, 0]).len(), 4);
    assert!(insert_row(&mut rel, &Some(vec![11, 12, 13]), ctid(5), &mut flag()).expect("insert"));
    assert!(insert_row(&mut rel, &Some(vec![14, 15, 16]), ctid(6), &mut flag()).expect("insert"));
    assert_eq!(scan_all(&mut rel, &vec![0, 0, 0]).len(), 6);
}

#[test]
fn empty_build_then_inserts() {
    let mut rel = Relation::new();
    let n = build_index(&mut rel, &rows(&[]), 3, &TSVIndexOptions::defaults(), &mut flag())
        .expect("empty build");
    assert_eq!(n, 0);
    assert!(insert_row(&mut rel, &Some(vec![1, 2, 3]), ctid(1), &mut flag()).expect("insert"));
    assert!(insert_row(&mut rel, &Some(vec![4, 5, 6]), ctid(2), &mut flag()).expect("insert"));
    assert!(insert_row(&mut rel, &Some(vec![7, 8, 10]), ctid(3), &mut flag()).expect("insert"));
    assert_eq!(scan_all(&mut rel, &vec![0, 0, 0]).len(), 3);
}

#[test]
fn null_rows_are_skipped_silently() {
    let mut rel = Relation::new();
    let mut rs = rows(&[vec![1, 2, 3], vec![4, 5, 6]]);
    rs.insert(1, (ctid(9), None));
    let n = build_index(&mut rel, &rs, 3, &TSVIndexOptions::defaults(), &mut flag())
        .expect("build");
    assert_eq!(n, 2);
    assert!(!insert_row(&mut rel, &None, ctid(10), &mut flag()).expect("null insert"));
    assert_eq!(scan_all(&mut rel, &vec![0, 0, 0]).len(), 2);
}

#[test]
fn tombstoned_rows_are_never_returned() {
    let mut rel = Relation::new();
    // The second row's heap pointer carries the invalid offset: a
    // tombstone.  The scan must silently pass over it.
    let rs = vec![
        (ctid(1), Some(vec![1, 2, 3])),
        (ItemPointer::new(1, 0), Some(vec![4, 5, 6])),
        (ctid(3), Some(vec![7, 8, 10])),
    ];
    build_index(&mut rel, &rs, 3, &TSVIndexOptions::defaults(), &mut flag()).expect("build");
    let got = scan_all(&mut rel, &vec![0, 0, 0]);
    assert_eq!(got, vec![ctid(1), ctid(3)]);
    for h in got {
        assert_ne!(h.offset, 0);
    }
}

#[test]
fn indivisible_pq_segment_length_fails_before_any_page() {
    let mut rel = Relation::new();
    let mut opt = TSVIndexOptions::defaults();
    opt.use_pq = true;
    opt.pq_vector_length = 64;
    let data: Vec<Vec<i32>> = (0..4).map(|i| vec![i; 1500]).collect();
    let r = build_index(&mut rel, &rows(&data), 1500, &opt, &mut flag());
    assert_eq!(r, Err(IndexError::Config));
    assert_eq!(rel.page_count(), 0);
}

#[test]
fn build_empty_shell_is_not_supported() {
    let rel = Relation::new();
    assert_eq!(build_empty(&rel), Err(IndexError::Config));
}

#[test]
fn interrupted_build_reports_cancellation() {
    let mut rel = Relation::new();
    let data = [vec![1, 2, 3]];
    let r = build_index(
        &mut rel,
        &rows(&data),
        3,
        &TSVIndexOptions::defaults(),
        &mut InterruptFlag::new(0),
    );
    assert_eq!(r, Err(IndexError::Interrupted));
}

#[test]
fn wrong_dimension_insert_is_a_schema_error() {
    let mut rel = Relation::new();
    build_index(&mut rel, &rows(&[vec![1, 2, 3]]), 3, &TSVIndexOptions::defaults(), &mut flag())
        .expect("build");
    let r = insert_row(&mut rel, &Some(vec![1, 2]), ctid(9), &mut flag());
    assert_eq!(r, Err(IndexError::Schema));
}

#[test]
fn bq_small_index_scans_fully() {
    let mut rel = Relation::new();
    let mut opt = TSVIndexOptions::defaults();
    opt.use_bq = true;
    opt.num_neighbors = 8;
    opt.search_list_size = 16;
    let data: Vec<Vec<i32>> = (0..12).map(|i| vec![i * 10, 100 - i * 10, i]).collect();
    let n = build_index(&mut rel, &rows(&data), 3, &opt, &mut flag()).expect("bq build");
    assert_eq!(n, 12);
    assert_eq!(scan_all(&mut rel, &vec![0, 100, 0]).len(), 12);
}

#[test]
fn plain_full_traversal_of_three_hundred_rows() {
    let mut rel = Relation::new();
    let mut opt = TSVIndexOptions::defaults();
    opt.num_neighbors = 8;
    opt.search_list_size = 32;
    let data: Vec<Vec<i32>> = (0..300).map(|i| vec![i * 3, 900 - i * 3]).collect();
    let n = build_index(&mut rel, &rows(&data), 2, &opt, &mut flag()).expect("build");
    assert_eq!(n, 300);
    // A full scan under the index returns every row once.
    let got = scan_with(&mut rel, &vec![0, 0], 400);
    assert_eq!(got.len(), 300);
    let mut keys: Vec<(u32, u16)> = got.iter().map(|h| (h.block_number, h.offset)).collect();
    keys.sort();
    keys.dedup();
    assert_eq!(keys.len(), 300);
}

#[test]
fn pq_index_builds_and_scans() {
    let mut rel = Relation::new();
    let mut opt = TSVIndexOptions::defaults();
    opt.use_pq = true;
    opt.pq_vector_length = 1;
    opt.num_neighbors = 8;
    opt.search_list_size = 32;
    let data: Vec<Vec<i32>> = (0..300).map(|i| vec![i * 5, 1500 - i * 5]).collect();
    let n = build_index(&mut rel, &rows(&data), 2, &opt, &mut flag()).expect("pq build");
    assert_eq!(n, 300);
    let got = scan_with(&mut rel, &vec![0, 1500], 400);
    assert_eq!(got.len(), 300);
    // The nearest row by the true distance leads the result.
    assert_eq!(got[0], ctid(1));
}

#[test]
fn rerank_orders_by_exact_distance() {
    // Proxy order gave 3, 1, 2; the exact distances to the query reverse it.
    let query = vec![0, 0];
    let rows = vec![
        (ctid(3), vec![30, 0]),
        (ctid(1), vec![1, 1]),
        (ctid(2), vec![10, 0]),
    ];
    let ranked = timescale_vector::scan::rerank_results(&query, &rows);
    let order: Vec<_> = ranked.iter().map(|c| c.index_pointer).collect();
    assert_eq!(order, vec![ctid(1), ctid(2), ctid(3)]);
    assert_eq!(ranked[0].distance, 2);
    assert_eq!(ranked[1].distance, 100);
    assert_eq!(ranked[2].distance, 900);
}

#[test]
fn bq_scan_rerank_pairs() {
    // A BQ index ranks by the Hamming proxy; re-ranking the returned rows
    // against their full vectors restores the exact order.
    let mut rel = Relation::new();
    let mut opt = TSVIndexOptions::defaults();
    opt.use_bq = true;
    opt.num_neighbors = 8;
    opt.search_list_size = 16;
    let data: Vec<Vec<i32>> = (0..10).map(|i| vec![i * 7, 70 - i * 7, i]).collect();
    build_index(&mut rel, &rows(&data), 3, &opt, &mut flag()).expect("bq build");
    let got = scan_all(&mut rel, &vec![0, 70, 0]);
    assert_eq!(got.len(), 10);
    let pairs: Vec<_> = got
        .iter()
        .map(|h| (*h, data[(h.offset - 1) as usize].clone()))
        .collect();
    let ranked = timescale_vector::scan::rerank_results(&vec![0, 70, 0], &pairs);
    assert_eq!(ranked.len(), 10);
    // Exact order starts at the true nearest row.
    assert_eq!(ranked[0].index_pointer, ctid(1));
    for w in ranked.windows(2) {
        assert!(w[0].distance <= w[1].distance);
    }
}
