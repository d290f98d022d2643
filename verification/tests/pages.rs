//! The page substrate and the tape: item addressing, in-place overwrite,
//! page overflow onto a fresh page, and blob chains.

use timescale_vector::blob::{read_blob, write_blob};
use timescale_vector::meta_page::MetaPage;
use timescale_vector::node::{Node, Payload};
use timescale_vector::options::TSVIndexOptions;
use timescale_vector::page::{PageType, Relation};
use timescale_vector::tape::Tape;
use timescale_vector::util::ItemPointer;

#[test]
fn add_and_get_items() {
    let mut rel = Relation::new();
    let b = rel.new_page(PageType::Node);
    let o1 = rel.add_item(b, &vec![1u8, 2, 3]).expect("fits");
    let o2 = rel.add_item(b, &vec![9u8]).expect("fits");
    assert_eq!((o1, o2), (1, 2));
    assert_eq!(rel.get_item(ItemPointer::new(b, 1)), Some(vec![1u8, 2, 3]));
    assert_eq!(rel.get_item(ItemPointer::new(b, 2)), Some(vec![9u8]));
    assert_eq!(rel.get_item(ItemPointer::new(b, 3)), None);
}

#[test]
fn replace_item_needs_exact_length() {
    let mut rel = Relation::new();
    let b = rel.new_page(PageType::Node);
    rel.add_item(b, &vec![1u8, 2, 3]).expect("fits");
    assert!(!rel.replace_item(ItemPointer::new(b, 1), &vec![7u8]));
    assert!(rel.replace_item(ItemPointer::new(b, 1), &vec![7u8, 8, 9]));
    assert_eq!(rel.get_item(ItemPointer::new(b, 1)), Some(vec![7u8, 8, 9]));
}

#[test]
fn tape_rolls_to_a_new_page_when_full() {
    let mut rel = Relation::new();
    let mut tape = Tape::new(&mut rel, PageType::Node);
    let a = tape.write(&mut rel, &vec![0u8; 5000]);
    let b = tape.write(&mut rel, &vec![1u8; 5000]);
    assert_ne!(a.block_number, b.block_number);
    assert_eq!(rel.page_type(a.block_number), Some(PageType::Node));
    assert_eq!(rel.page_type(b.block_number), Some(PageType::Node));
    assert_eq!(rel.get_item(a).unwrap().len(), 5000);
    assert_eq!(rel.get_item(b).unwrap(), vec![1u8; 5000]);
}

#[test]
fn blob_chain_round_trips() {
    let mut rel = Relation::new();
    let mut tape = Tape::new(&mut rel, PageType::PqBlob);
    let data: Vec<u8> = (0..20000u32).map(|i| (i % 251) as u8).collect();
    let head = write_blob(&mut tape, &mut rel, &data);
    let back = read_blob(&rel, head, PageType::PqBlob, data.len()).expect("chain reads");
    assert_eq!(back, data);
    // A chain read under the wrong page type is refused.
    assert!(read_blob(&rel, head, PageType::BqBlob, data.len()).is_err());
}

#[test]
fn mark_deleted_sets_only_the_tombstone_bit() {
    let mut rel = Relation::new();
    let meta = MetaPage::create(&mut rel, 3, &TSVIndexOptions::defaults());
    let mut tape = Tape::new(&mut rel, PageType::Node);
    let node = Node {
        heap_pointer: ItemPointer::new(7, 4),
        deleted: false,
        payload: Payload::Plain(vec![1, 2, 3]),
        neighbors: Vec::new(),
    };
    let ip = node.write(&mut tape, &mut rel, &meta);
    Node::mark_deleted(&mut rel, ip, &meta).expect("tombstone");
    let back = Node::read(&rel, ip, &meta).expect("read back");
    assert!(back.deleted);
    assert_eq!(back.heap_pointer, ItemPointer::new(7, 4));
    match back.payload {
        Payload::Plain(v) => assert_eq!(v, vec![1, 2, 3]),
        _ => panic!("wrong payload kind"),
    }
    // A second tombstone is a no-op and the pointer stays readable.
    Node::mark_deleted(&mut rel, ip, &meta).expect("idempotent");
    assert!(Node::read(&rel, ip, &meta).expect("still there").deleted);
}
