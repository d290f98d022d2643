//! The quantizers on concrete values: binary codes against the mean,
//! product-quantization training bounds, codes that truly pick the
//! nearest centroid, and codebook persistence.

use timescale_vector::bq::{hamming_distance, BqQuantizer};
use timescale_vector::meta_page::MetaPage;
use timescale_vector::options::TSVIndexOptions;
use timescale_vector::page::Relation;
use timescale_vector::pq_quantizer::{PqQuantizer, PqSearchDistanceMeasure};
use timescale_vector::util::IndexError;

fn meta_for(dims: u32, opt: &TSVIndexOptions) -> MetaPage {
    let mut rel = Relation::new();
    MetaPage::create(&mut rel, dims, opt)
}

#[test]
fn bq_mean_and_code_bits() {
    let mut opt = TSVIndexOptions::defaults();
    opt.use_bq = true;
    let meta = meta_for(2, &opt);
    let mut bq = BqQuantizer::new();
    bq.start_training(&meta);
    bq.add_sample(&vec![1, 0]);
    bq.add_sample(&vec![3, 0]);
    bq.finish_training();
    assert_eq!(bq.means, vec![2, 0]);
    // Above the mean on the first dimension only: just bit 0 is set.
    let c = bq.quantize(&vec![5, 0]);
    assert_eq!(c, vec![1u64]);
    // At or below the mean everywhere: no bit set.
    let z = bq.quantize(&vec![2, -1]);
    assert_eq!(z, vec![0u64]);
    assert_eq!(hamming_distance(&c, &z, 2), 1);
    assert_eq!(hamming_distance(&c, &c, 2), 0);
}

#[test]
fn bq_means_survive_persistence() {
    let mut opt = TSVIndexOptions::defaults();
    opt.use_bq = true;
    let mut rel = Relation::new();
    let meta = MetaPage::create(&mut rel, 2, &opt);
    let mut bq = BqQuantizer::new();
    bq.start_training(&meta);
    bq.add_sample(&vec![10, -6]);
    bq.add_sample(&vec![20, -8]);
    bq.finish_training();
    bq.write_metadata(&mut rel).expect("persist");
    let meta2 = MetaPage::fetch(&mut rel).expect("fetch");
    let loaded = BqQuantizer::load(&rel, &meta2).expect("load");
    assert_eq!(loaded.means, bq.means);
}

#[test]
fn pq_needs_enough_samples() {
    let mut opt = TSVIndexOptions::defaults();
    opt.use_pq = true;
    opt.pq_vector_length = 1;
    let meta = meta_for(2, &opt);
    let mut pq = PqQuantizer::new();
    pq.start_training(&meta);
    for i in 0..299 {
        pq.add_sample(&vec![i, -i]);
    }
    assert_eq!(pq.finish_training(), Err(IndexError::Training));
    pq.add_sample(&vec![7, -7]);
    assert_eq!(pq.finish_training(), Ok(()));
}

#[test]
fn pq_code_names_the_nearest_centroid() {
    let mut opt = TSVIndexOptions::defaults();
    opt.use_pq = true;
    opt.pq_vector_length = 1;
    let meta = meta_for(2, &opt);
    let mut pq = PqQuantizer::new();
    pq.start_training(&meta);
    for i in 0..300 {
        pq.add_sample(&vec![(i % 10) * 100, -(i % 7) * 50]);
    }
    pq.finish_training().expect("train");
    let v = vec![420, -160];
    let codes = pq.quantize(&v);
    assert_eq!(codes.len(), 2);
    // No centroid of segment 0 may be closer than the one the code names.
    let chosen = &pq.codebook[codes[0] as usize];
    let chosen_d = (v[0] as i64 - chosen[0] as i64).pow(2);
    for c in 0..256 {
        let cent = &pq.codebook[c];
        let d = (v[0] as i64 - cent[0] as i64).pow(2);
        assert!(chosen_d <= d);
    }
}

#[test]
fn pq_codebook_survives_persistence() {
    let mut opt = TSVIndexOptions::defaults();
    opt.use_pq = true;
    opt.pq_vector_length = 1;
    let mut rel = Relation::new();
    let meta = MetaPage::create(&mut rel, 2, &opt);
    let mut pq = PqQuantizer::new();
    pq.start_training(&meta);
    for i in 0..300 {
        pq.add_sample(&vec![i, 600 - i]);
    }
    pq.finish_training().expect("train");
    pq.write_metadata(&mut rel).expect("persist");
    let meta2 = MetaPage::fetch(&mut rel).expect("fetch");
    let loaded = PqQuantizer::load(&rel, &meta2).expect("load");
    assert_eq!(loaded.codebook, pq.codebook);
    // The reloaded quantizer ranks codes exactly as the trained one.
    let q = vec![250, 350];
    let t1 = PqSearchDistanceMeasure::new(&pq, &q);
    let t2 = PqSearchDistanceMeasure::new(&loaded, &q);
    let codes = pq.quantize(&vec![100, 500]);
    assert_eq!(t1.distance(&pq, &codes), t2.distance(&loaded, &codes));
}
