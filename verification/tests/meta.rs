//! Metadata page behaviour: creation, canonical write-back, and the
//! one-shot migration of the old layout.

use timescale_vector::meta_page::MetaPage;
use timescale_vector::options::TSVIndexOptions;
use timescale_vector::page::{PageType, Relation};
use timescale_vector::util::{IndexError, ItemPointer};

fn item(rel: &Relation, block: u32, offset: u16) -> Vec<u8> {
    rel.get_item(ItemPointer::new(block, offset)).expect("item should exist")
}

#[test]
fn create_then_fetch_returns_same_meta() {
    let mut rel = Relation::new();
    let opt = TSVIndexOptions::defaults();
    let created = MetaPage::create(&mut rel, 3, &opt);
    let fetched = MetaPage::fetch(&mut rel).expect("fetch after create");
    assert_eq!(created, fetched);
    assert_eq!(fetched.get_num_dimensions(), 3);
    assert_eq!(fetched.get_num_neighbors(), 50);
    assert_eq!(fetched.get_search_list_size_for_build(), 100);
    assert_eq!(fetched.get_max_alpha(), 100);
    assert!(fetched.get_init_ids().is_none());
    assert!(fetched.get_pq_pointer().is_none());
}

#[test]
fn fetch_then_write_back_is_byte_equal() {
    let mut rel = Relation::new();
    let opt = TSVIndexOptions::defaults();
    MetaPage::create(&mut rel, 3, &opt);
    let header_before = item(&rel, 0, 1);
    let body_before = item(&rel, 0, 2);
    // Rewrite the body with unchanged field values: page 0 must not
    // change by a single byte.
    let m = MetaPage::fetch(&mut rel).expect("fetch");
    let ids = vec![ItemPointer::new(m.init_ids_block_number, m.init_ids_offset)];
    MetaPage::update_init_ids(&mut rel, &ids).expect("write back");
    assert_eq!(item(&rel, 0, 1), header_before);
    assert_eq!(item(&rel, 0, 2), body_before);
}

fn old_layout_bytes() -> Vec<u8> {
    // The single-struct layout: magic, version 1, dims, neighbours, list
    // size, alpha (hundredths), init ids, use_pq, segment length, blob
    // pointer.
    let mut v = Vec::new();
    v.extend_from_slice(&768756476u32.to_le_bytes());
    v.extend_from_slice(&1u32.to_le_bytes());
    v.extend_from_slice(&3u32.to_le_bytes());
    v.extend_from_slice(&30u32.to_le_bytes());
    v.extend_from_slice(&100u32.to_le_bytes());
    v.extend_from_slice(&100u32.to_le_bytes());
    v.extend_from_slice(&0u32.to_le_bytes());
    v.extend_from_slice(&0u16.to_le_bytes());
    v.push(0u8);
    v.extend_from_slice(&64u32.to_le_bytes());
    v.extend_from_slice(&0u32.to_le_bytes());
    v.extend_from_slice(&0u16.to_le_bytes());
    assert_eq!(v.len(), 41);
    v
}

#[test]
fn old_meta_page_migrates_exactly_once() {
    let mut rel = Relation::new();
    let block = rel.new_page(PageType::MetaV1);
    assert_eq!(block, 0);
    let off = rel.add_item(0, &old_layout_bytes()).expect("old layout fits");
    assert_eq!(off, 1);
    // First fetch migrates the page in place.
    let m = MetaPage::fetch(&mut rel).expect("migrating fetch");
    assert_eq!(m.version, 2);
    assert_eq!(m.get_num_dimensions(), 3);
    assert_eq!(m.get_num_neighbors(), 30);
    assert!(!m.use_bq);
    assert_eq!(rel.page_type(0), Some(PageType::Meta));
    // Later fetches take the read-only path and change nothing.
    let header = item(&rel, 0, 1);
    let body = item(&rel, 0, 2);
    let m2 = MetaPage::fetch(&mut rel).expect("post-migration fetch");
    assert_eq!(m, m2);
    assert_eq!(item(&rel, 0, 1), header);
    assert_eq!(item(&rel, 0, 2), body);
}

#[test]
fn fetch_on_empty_relation_is_a_storage_error() {
    let mut rel = Relation::new();
    assert_eq!(MetaPage::fetch(&mut rel), Err(IndexError::Storage));
}

#[test]
fn update_pq_pointer_is_read_back() {
    let mut rel = Relation::new();
    let mut opt = TSVIndexOptions::defaults();
    opt.use_bq = true;
    MetaPage::create(&mut rel, 4, &opt);
    MetaPage::update_pq_pointer(&mut rel, ItemPointer::new(7, 2)).expect("update");
    let m = MetaPage::fetch(&mut rel).expect("fetch");
    assert_eq!(m.get_pq_pointer(), Some(ItemPointer::new(7, 2)));
}
