//! The metadata page: page 0 of the index.  It holds a small header item
//! (offset 1) with the magic and version, and a body item (offset 2) with
//! the index parameters, the init ids and the quantizer blob pointer.  A
//! page still in the old single-struct layout is migrated in place on first
//! read.

use vstd::prelude::*;
use vstd::bytes::{
    spec_u16_to_le_bytes, spec_u16_from_le_bytes, spec_u32_to_le_bytes, spec_u32_from_le_bytes,
};
use crate::codec::{
    lemma_le_bytes_autos, put_bool, put_u16, put_u32, read_u16, read_u32, spec_bool_byte,
};
use crate::options::TSVIndexOptions;
use crate::page::{used_bytes, PageType, Relation};
use crate::storage::StorageType;
use crate::util::{HeapPointer, IndexError, IndexPointer, ItemPointer};

verus! {

/// Random magic number identifying the index.
pub const TSV_MAGIC_NUMBER: u32 = 768756476;

/// Current metadata layout version.
pub const TSV_VERSION: u32 = 2;

/// Numerator of the slack applied to the neighbour cap during build.
pub const GRAPH_SLACK_NUM: u32 = 13;

/// Denominator of the slack applied to the neighbour cap during build.
pub const GRAPH_SLACK_DEN: u32 = 10;

/// Block holding the metadata.
pub const META_BLOCK_NUMBER: u32 = 0;

/// Offset of the header item on the metadata page.
pub const META_HEADER_OFFSET: u16 = 1;

/// Offset of the body item on the metadata page.
pub const META_OFFSET: u16 = 2;

/// Encoded length of the header item.
pub const META_HEADER_LEN: usize = 8;

/// Encoded length of the body item.
pub const META_LEN: usize = 42;

/// Encoded length of the old single-struct layout.
pub const META_V1_LEN: usize = 41;

/// The old metadata layout, readable but no longer written.  Alpha is in
/// hundredths, as everywhere in this crate.
#[derive(Clone, Copy, PartialEq, Eq, Structural, Debug)]
pub struct MetaPageV1 {
    pub magic_number: u32,
    pub version: u32,
    pub num_dimensions: u32,
    pub num_neighbors: u32,
    pub search_list_size: u32,
    pub max_alpha: u32,
    pub init_ids_block_number: u32,
    pub init_ids_offset: u16,
    pub use_pq: bool,
    pub pq_vector_length: u32,
    pub pq_block_number: u32,
    pub pq_block_offset: u16,
}

/// The metadata header: magic and version alone, kept as a separate item so
/// that future layouts can still be recognized.
#[derive(Clone, Copy, PartialEq, Eq, Structural, Debug)]
pub struct MetaPageHeader {
    pub magic_number: u32,
    pub version: u32,
}

/// The metadata body: everything the index needs to interpret its pages.
/// Alpha is in hundredths (130 means a slack factor of 1.30).
#[derive(Clone, Copy, PartialEq, Eq, Structural, Debug)]
pub struct MetaPage {
    pub magic_number: u32,
    pub version: u32,
    pub num_dimensions: u32,
    pub num_neighbors: u32,
    pub search_list_size: u32,
    pub max_alpha: u32,
    pub init_ids_block_number: u32,
    pub init_ids_offset: u16,
    pub use_pq: bool,
    pub pq_vector_length: u32,
    pub pq_block_number: u32,
    pub pq_block_offset: u16,
    pub use_bq: bool,
}

// ---------------------------------------------------------------------
// Byte layout
// ---------------------------------------------------------------------

/// Bytes of an encoded header.
pub open spec fn spec_encode_header(h: MetaPageHeader) -> Seq<u8> {
    spec_u32_to_le_bytes(h.magic_number) + spec_u32_to_le_bytes(h.version)
}

/// Whether `s` has the shape of an encoded header.
pub open spec fn spec_header_decodable(s: Seq<u8>) -> bool {
    s.len() == META_HEADER_LEN
}

/// The header `s` decodes to.
pub open spec fn spec_decode_header(s: Seq<u8>) -> MetaPageHeader {
    MetaPageHeader {
        magic_number: spec_u32_from_le_bytes(s.subrange(0, 4)),
        version: spec_u32_from_le_bytes(s.subrange(4, 8)),
    }
}

/// Bytes of an encoded body.
pub open spec fn spec_encode_meta(m: MetaPage) -> Seq<u8> {
    spec_u32_to_le_bytes(m.magic_number) + spec_u32_to_le_bytes(m.version) + spec_u32_to_le_bytes(
        m.num_dimensions,
    ) + spec_u32_to_le_bytes(m.num_neighbors) + spec_u32_to_le_bytes(m.search_list_size)
        + spec_u32_to_le_bytes(m.max_alpha) + spec_u32_to_le_bytes(m.init_ids_block_number)
        + spec_u16_to_le_bytes(m.init_ids_offset) + seq![spec_bool_byte(m.use_pq)]
        + spec_u32_to_le_bytes(m.pq_vector_length) + spec_u32_to_le_bytes(m.pq_block_number)
        + spec_u16_to_le_bytes(m.pq_block_offset) + seq![spec_bool_byte(m.use_bq)]
}

/// Whether `s` has the shape of an encoded body.
pub open spec fn spec_meta_decodable(s: Seq<u8>) -> bool {
    &&& s.len() == META_LEN
    &&& (s[30] == 0 || s[30] == 1)
    &&& (s[41] == 0 || s[41] == 1)
}

/// The body `s` decodes to.
pub open spec fn spec_decode_meta(s: Seq<u8>) -> MetaPage {
    MetaPage {
        magic_number: spec_u32_from_le_bytes(s.subrange(0, 4)),
        version: spec_u32_from_le_bytes(s.subrange(4, 8)),
        num_dimensions: spec_u32_from_le_bytes(s.subrange(8, 12)),
        num_neighbors: spec_u32_from_le_bytes(s.subrange(12, 16)),
        search_list_size: spec_u32_from_le_bytes(s.subrange(16, 20)),
        max_alpha: spec_u32_from_le_bytes(s.subrange(20, 24)),
        init_ids_block_number: spec_u32_from_le_bytes(s.subrange(24, 28)),
        init_ids_offset: spec_u16_from_le_bytes(s.subrange(28, 30)),
        use_pq: s[30] == 1,
        pq_vector_length: spec_u32_from_le_bytes(s.subrange(31, 35)),
        pq_block_number: spec_u32_from_le_bytes(s.subrange(35, 39)),
        pq_block_offset: spec_u16_from_le_bytes(s.subrange(39, 41)),
        use_bq: s[41] == 1,
    }
}

/// Whether `s` has the shape of the old layout.
pub open spec fn spec_meta_v1_decodable(s: Seq<u8>) -> bool {
    &&& s.len() == META_V1_LEN
    &&& (s[30] == 0 || s[30] == 1)
}

/// The old-layout struct `s` decodes to.
pub open spec fn spec_decode_meta_v1(s: Seq<u8>) -> MetaPageV1 {
    MetaPageV1 {
        magic_number: spec_u32_from_le_bytes(s.subrange(0, 4)),
        version: spec_u32_from_le_bytes(s.subrange(4, 8)),
        num_dimensions: spec_u32_from_le_bytes(s.subrange(8, 12)),
        num_neighbors: spec_u32_from_le_bytes(s.subrange(12, 16)),
        search_list_size: spec_u32_from_le_bytes(s.subrange(16, 20)),
        max_alpha: spec_u32_from_le_bytes(s.subrange(20, 24)),
        init_ids_block_number: spec_u32_from_le_bytes(s.subrange(24, 28)),
        init_ids_offset: spec_u16_from_le_bytes(s.subrange(28, 30)),
        use_pq: s[30] == 1,
        pq_vector_length: spec_u32_from_le_bytes(s.subrange(31, 35)),
        pq_block_number: spec_u32_from_le_bytes(s.subrange(35, 39)),
        pq_block_offset: spec_u16_from_le_bytes(s.subrange(39, 41)),
    }
}

/// Encoding then decoding a header gives it back.
pub proof fn lemma_header_roundtrip(h: MetaPageHeader)
    ensures
        spec_header_decodable(spec_encode_header(h)),
        spec_decode_header(spec_encode_header(h)) == h,
{
    lemma_le_bytes_autos();
    let e = spec_encode_header(h);
    assert(e.subrange(0, 4) =~= spec_u32_to_le_bytes(h.magic_number));
    assert(e.subrange(4, 8) =~= spec_u32_to_le_bytes(h.version));
}

/// A decodable header re-encodes to the same bytes: the layout is
/// canonical, so a read-then-write-back never changes the page.
pub proof fn lemma_header_canonical(s: Seq<u8>)
    requires
        spec_header_decodable(s),
    ensures
        spec_encode_header(spec_decode_header(s)) == s,
{
    lemma_le_bytes_autos();
    let e = spec_encode_header(spec_decode_header(s));
    assert(s.subrange(0, 4).len() == 4 && s.subrange(4, 8).len() == 4);
    assert(e =~= s);
}

/// Fetch-then-write-back is a no-op: when page 0 holds exactly the two
/// current-layout metadata items, rewriting the fetched metadata
/// reproduces the page byte for byte.
pub proof fn lemma_fetch_write_back_identity(rel: Relation)
    requires
        spec_meta_ok(rel),
        rel.items(0).len() == 2,
    ensures
        rel.items(0) =~= seq![
            spec_encode_header(spec_meta_of(rel).spec_header()),
            spec_encode_meta(spec_meta_of(rel)),
        ],
{
    lemma_header_canonical(rel.items(0)[0]);
    lemma_meta_canonical(rel.items(0)[1]);
    assert(spec_decode_header(rel.items(0)[0]) == spec_meta_of(rel).spec_header());
}

/// Encoding then decoding a body gives it back.
pub proof fn lemma_meta_roundtrip(m: MetaPage)
    ensures
        spec_encode_meta(m).len() == META_LEN,
        spec_meta_decodable(spec_encode_meta(m)),
        spec_decode_meta(spec_encode_meta(m)) == m,
{
    lemma_le_bytes_autos();
    let e = spec_encode_meta(m);
    assert(e.len() == META_LEN);
    assert(e.subrange(0, 4) =~= spec_u32_to_le_bytes(m.magic_number));
    assert(e.subrange(4, 8) =~= spec_u32_to_le_bytes(m.version));
    assert(e.subrange(8, 12) =~= spec_u32_to_le_bytes(m.num_dimensions));
    assert(e.subrange(12, 16) =~= spec_u32_to_le_bytes(m.num_neighbors));
    assert(e.subrange(16, 20) =~= spec_u32_to_le_bytes(m.search_list_size));
    assert(e.subrange(20, 24) =~= spec_u32_to_le_bytes(m.max_alpha));
    assert(e.subrange(24, 28) =~= spec_u32_to_le_bytes(m.init_ids_block_number));
    assert(e.subrange(28, 30) =~= spec_u16_to_le_bytes(m.init_ids_offset));
    assert(e[30] == spec_bool_byte(m.use_pq));
    assert(e.subrange(31, 35) =~= spec_u32_to_le_bytes(m.pq_vector_length));
    assert(e.subrange(35, 39) =~= spec_u32_to_le_bytes(m.pq_block_number));
    assert(e.subrange(39, 41) =~= spec_u16_to_le_bytes(m.pq_block_offset));
    assert(e[41] == spec_bool_byte(m.use_bq));
}

/// A decodable body re-encodes to the same bytes: fetch-then-write-back of
/// an unchanged metadata page leaves page 0 byte-equal.
pub proof fn lemma_meta_canonical(s: Seq<u8>)
    requires
        spec_meta_decodable(s),
    ensures
        spec_encode_meta(spec_decode_meta(s)) == s,
{
    lemma_le_bytes_autos();
    let m = spec_decode_meta(s);
    let e = spec_encode_meta(m);
    assert(spec_u32_to_le_bytes(m.magic_number) == s.subrange(0, 4)) by {
        assert(s.subrange(0, 4).len() == 4);
    }
    assert(spec_u32_to_le_bytes(m.version) == s.subrange(4, 8)) by {
        assert(s.subrange(4, 8).len() == 4);
    }
    assert(spec_u32_to_le_bytes(m.num_dimensions) == s.subrange(8, 12)) by {
        assert(s.subrange(8, 12).len() == 4);
    }
    assert(spec_u32_to_le_bytes(m.num_neighbors) == s.subrange(12, 16)) by {
        assert(s.subrange(12, 16).len() == 4);
    }
    assert(spec_u32_to_le_bytes(m.search_list_size) == s.subrange(16, 20)) by {
        assert(s.subrange(16, 20).len() == 4);
    }
    assert(spec_u32_to_le_bytes(m.max_alpha) == s.subrange(20, 24)) by {
        assert(s.subrange(20, 24).len() == 4);
    }
    assert(spec_u32_to_le_bytes(m.init_ids_block_number) == s.subrange(24, 28)) by {
        assert(s.subrange(24, 28).len() == 4);
    }
    assert(spec_u16_to_le_bytes(m.init_ids_offset) == s.subrange(28, 30)) by {
        assert(s.subrange(28, 30).len() == 2);
    }
    assert(spec_bool_byte(m.use_pq) == s[30]);
    assert(spec_u32_to_le_bytes(m.pq_vector_length) == s.subrange(31, 35)) by {
        assert(s.subrange(31, 35).len() == 4);
    }
    assert(spec_u32_to_le_bytes(m.pq_block_number) == s.subrange(35, 39)) by {
        assert(s.subrange(35, 39).len() == 4);
    }
    assert(spec_u16_to_le_bytes(m.pq_block_offset) == s.subrange(39, 41)) by {
        assert(s.subrange(39, 41).len() == 2);
    }
    assert(spec_bool_byte(m.use_bq) == s[41]);
    assert(e =~= s);
}

/// Encode the header item.
fn encode_header(h: &MetaPageHeader) -> (r: Vec<u8>)
    ensures
        r@ == spec_encode_header(*h),
{
    let mut out: Vec<u8> = Vec::new();
    put_u32(&mut out, h.magic_number);
    put_u32(&mut out, h.version);
    proof {
        assert(out@ =~= spec_encode_header(*h));
    }
    out
}

/// Decode the header item; `None` exactly when the bytes do not have the
/// header's shape.
fn decode_header(bytes: &Vec<u8>) -> (r: Option<MetaPageHeader>)
    ensures
        r is Some <==> spec_header_decodable(bytes@),
        r is Some ==> r == Some(spec_decode_header(bytes@)),
{
    if bytes.len() != META_HEADER_LEN {
        return None;
    }
    let magic_number = read_u32(bytes.as_slice(), 0);
    let version = read_u32(bytes.as_slice(), 4);
    Some(MetaPageHeader { magic_number, version })
}

/// Encode the body item.
fn encode_meta(m: &MetaPage) -> (r: Vec<u8>)
    ensures
        r@ == spec_encode_meta(*m),
{
    let mut out: Vec<u8> = Vec::new();
    put_u32(&mut out, m.magic_number);
    put_u32(&mut out, m.version);
    put_u32(&mut out, m.num_dimensions);
    put_u32(&mut out, m.num_neighbors);
    put_u32(&mut out, m.search_list_size);
    put_u32(&mut out, m.max_alpha);
    put_u32(&mut out, m.init_ids_block_number);
    put_u16(&mut out, m.init_ids_offset);
    put_bool(&mut out, m.use_pq);
    put_u32(&mut out, m.pq_vector_length);
    put_u32(&mut out, m.pq_block_number);
    put_u16(&mut out, m.pq_block_offset);
    put_bool(&mut out, m.use_bq);
    proof {
        assert(out@ =~= spec_encode_meta(*m));
    }
    out
}

/// Decode the body item; `None` exactly when the bytes do not have the
/// body's shape.
fn decode_meta(bytes: &Vec<u8>) -> (r: Option<MetaPage>)
    ensures
        r is Some <==> spec_meta_decodable(bytes@),
        r is Some ==> r == Some(spec_decode_meta(bytes@)),
{
    if bytes.len() != META_LEN {
        return None;
    }
    let pq_byte = bytes[30];
    let bq_byte = bytes[41];
    if !(pq_byte == 0 || pq_byte == 1) || !(bq_byte == 0 || bq_byte == 1) {
        return None;
    }
    let s = bytes.as_slice();
    Some(
        MetaPage {
            magic_number: read_u32(s, 0),
            version: read_u32(s, 4),
            num_dimensions: read_u32(s, 8),
            num_neighbors: read_u32(s, 12),
            search_list_size: read_u32(s, 16),
            max_alpha: read_u32(s, 20),
            init_ids_block_number: read_u32(s, 24),
            init_ids_offset: read_u16(s, 28),
            use_pq: pq_byte == 1,
            pq_vector_length: read_u32(s, 31),
            pq_block_number: read_u32(s, 35),
            pq_block_offset: read_u16(s, 39),
            use_bq: bq_byte == 1,
        },
    )
}

/// Decode the old-layout struct; `None` exactly when the bytes do not have
/// its shape.
fn decode_meta_v1(bytes: &Vec<u8>) -> (r: Option<MetaPageV1>)
    ensures
        r is Some <==> spec_meta_v1_decodable(bytes@),
        r is Some ==> r == Some(spec_decode_meta_v1(bytes@)),
{
    if bytes.len() != META_V1_LEN {
        return None;
    }
    let pq_byte = bytes[30];
    if !(pq_byte == 0 || pq_byte == 1) {
        return None;
    }
    let s = bytes.as_slice();
    Some(
        MetaPageV1 {
            magic_number: read_u32(s, 0),
            version: read_u32(s, 4),
            num_dimensions: read_u32(s, 8),
            num_neighbors: read_u32(s, 12),
            search_list_size: read_u32(s, 16),
            max_alpha: read_u32(s, 20),
            init_ids_block_number: read_u32(s, 24),
            init_ids_offset: read_u16(s, 28),
            use_pq: pq_byte == 1,
            pq_vector_length: read_u32(s, 31),
            pq_block_number: read_u32(s, 35),
            pq_block_offset: read_u16(s, 39),
        },
    )
}

impl MetaPageV1 {
    /// The same index described in the current layout: fields carry over,
    /// the version advances, and the speedup flag starts cleared.
    pub fn get_new_meta(&self) -> (r: MetaPage)
        ensures
            r == self.spec_new_meta(),
    {
        MetaPage {
            magic_number: TSV_MAGIC_NUMBER,
            version: TSV_VERSION,
            num_dimensions: self.num_dimensions,
            num_neighbors: self.num_neighbors,
            search_list_size: self.search_list_size,
            max_alpha: self.max_alpha,
            init_ids_block_number: self.init_ids_block_number,
            init_ids_offset: self.init_ids_offset,
            use_pq: self.use_pq,
            pq_vector_length: self.pq_vector_length,
            pq_block_number: self.pq_block_number,
            pq_block_offset: self.pq_block_offset,
            use_bq: false,
        }
    }

    /// What migration produces from an old-layout page.
    pub open spec fn spec_new_meta(self) -> MetaPage {
        MetaPage {
            magic_number: TSV_MAGIC_NUMBER,
            version: TSV_VERSION,
            num_dimensions: self.num_dimensions,
            num_neighbors: self.num_neighbors,
            search_list_size: self.search_list_size,
            max_alpha: self.max_alpha,
            init_ids_block_number: self.init_ids_block_number,
            init_ids_offset: self.init_ids_offset,
            use_pq: self.use_pq,
            pq_vector_length: self.pq_vector_length,
            pq_block_number: self.pq_block_number,
            pq_block_offset: self.pq_block_offset,
            use_bq: false,
        }
    }
}

// ---------------------------------------------------------------------
// The metadata page in a relation
// ---------------------------------------------------------------------

/// Page 0 holds a well-formed, current-version metadata page.
pub open spec fn spec_meta_ok(rel: Relation) -> bool {
    &&& rel.num_pages() > 0
    &&& rel.page_ty(0) == PageType::Meta
    &&& rel.items(0).len() >= 2
    &&& spec_header_decodable(rel.items(0)[0])
    &&& spec_decode_header(rel.items(0)[0]) == (MetaPageHeader {
        magic_number: TSV_MAGIC_NUMBER,
        version: TSV_VERSION,
    })
    &&& spec_meta_decodable(rel.items(0)[1])
    &&& spec_decode_meta(rel.items(0)[1]).wf()
}

/// The metadata page 0 holds.
pub open spec fn spec_meta_of(rel: Relation) -> MetaPage {
    spec_decode_meta(rel.items(0)[1])
}

/// Page 0 holds a readable old-layout metadata page whose migrated form is
/// well formed.
pub open spec fn spec_meta_v1_ok(rel: Relation) -> bool {
    &&& rel.num_pages() > 0
    &&& rel.page_ty(0) == PageType::MetaV1
    &&& rel.items(0).len() >= 1
    &&& spec_meta_v1_decodable(rel.items(0)[0])
    &&& spec_decode_meta_v1(rel.items(0)[0]).magic_number == TSV_MAGIC_NUMBER
    &&& spec_decode_meta_v1(rel.items(0)[0]).version == 1
    &&& spec_decode_meta_v1(rel.items(0)[0]).spec_new_meta().wf()
}

impl MetaPage {
    /// The ranges every stored metadata page satisfies: magic and version
    /// are current, and every parameter is inside the limits the option
    /// checks enforce.
    pub open spec fn wf(self) -> bool {
        &&& self.magic_number == TSV_MAGIC_NUMBER
        &&& self.version == TSV_VERSION
        &&& (TSVIndexOptions {
            num_neighbors: self.num_neighbors,
            search_list_size: self.search_list_size,
            max_alpha: self.max_alpha,
            use_pq: self.use_pq,
            pq_vector_length: self.pq_vector_length,
            use_bq: self.use_bq,
        }).spec_valid(self.num_dimensions)
    }

    /// Number of dimensions in the vectors being stored.  The same for all
    /// vectors in the graph; cannot change.
    pub fn get_num_dimensions(&self) -> (r: u32)
        ensures
            r == self.num_dimensions,
    {
        self.num_dimensions
    }

    /// Maximum number of neighbours per node.  Slots are pre-allocated, so
    /// this cannot change after the graph is built.
    pub fn get_num_neighbors(&self) -> (r: u32)
        ensures
            r == self.num_neighbors,
    {
        self.num_neighbors
    }

    pub fn get_pq_vector_length(&self) -> (r: usize)
        ensures
            r == self.pq_vector_length,
    {
        self.pq_vector_length as usize
    }

    pub fn get_search_list_size_for_build(&self) -> (r: u32)
        ensures
            r == self.search_list_size,
    {
        self.search_list_size
    }

    /// The robust-prune slack factor, in hundredths.
    pub fn get_max_alpha(&self) -> (r: u32)
        ensures
            r == self.max_alpha,
    {
        self.max_alpha
    }

    fn get_use_pq(&self) -> (r: bool)
        ensures
            r == self.use_pq,
    {
        self.use_pq
    }

    /// Which storage variant the index uses.
    pub open spec fn spec_storage_type(self) -> StorageType {
        if self.use_pq {
            StorageType::PqCompression
        } else if self.use_bq {
            StorageType::BqSpeedup
        } else {
            StorageType::Plain
        }
    }

    pub fn get_storage_type(&self) -> (r: StorageType)
        ensures
            r == self.spec_storage_type(),
    {
        if self.get_use_pq() {
            StorageType::PqCompression
        } else if self.use_bq {
            StorageType::BqSpeedup
        } else {
            StorageType::Plain
        }
    }

    /// The neighbour cap while building: the stored cap with slack,
    /// rounded up.
    pub open spec fn spec_max_neighbors_during_build(self) -> int {
        (self.num_neighbors * GRAPH_SLACK_NUM + GRAPH_SLACK_DEN - 1) as int
            / GRAPH_SLACK_DEN as int
    }

    pub fn get_max_neighbors_during_build(&self) -> (r: usize)
        requires
            self.wf(),
        ensures
            r as int == self.spec_max_neighbors_during_build(),
            self.num_neighbors <= r <= 1300,
    {
        ((self.num_neighbors * GRAPH_SLACK_NUM + (GRAPH_SLACK_DEN - 1)) / GRAPH_SLACK_DEN) as usize
    }

    /// The starting nodes for greedy search; `None` until the first node
    /// has been inserted.
    pub fn get_init_ids(&self) -> (r: Option<Vec<IndexPointer>>)
        ensures
            match r {
                Some(v) => {
                    &&& !(self.init_ids_block_number == 0 && self.init_ids_offset == 0)
                    &&& v@ == seq![
                        (ItemPointer {
                            block_number: self.init_ids_block_number,
                            offset: self.init_ids_offset,
                        }),
                    ]
                },
                None => self.init_ids_block_number == 0 && self.init_ids_offset == 0,
            },
    {
        if self.init_ids_block_number == 0 && self.init_ids_offset == 0 {
            return None;
        }
        let ptr = HeapPointer::new(self.init_ids_block_number, self.init_ids_offset);
        let mut v: Vec<IndexPointer> = Vec::new();
        v.push(ptr);
        proof {
            assert(v@ =~= seq![
                (ItemPointer {
                    block_number: self.init_ids_block_number,
                    offset: self.init_ids_offset,
                }),
            ]);
        }
        Some(v)
    }

    /// The quantizer blob pointer; `None` for plain storage or before
    /// training has been persisted.
    pub fn get_pq_pointer(&self) -> (r: Option<IndexPointer>)
        ensures
            match r {
                Some(ip) => {
                    &&& (self.use_pq || self.use_bq)
                    &&& !(self.pq_block_number == 0 && self.pq_block_offset == 0)
                    &&& ip == (ItemPointer {
                        block_number: self.pq_block_number,
                        offset: self.pq_block_offset,
                    })
                },
                None => (!self.use_pq && !self.use_bq) || (self.pq_block_number == 0
                    && self.pq_block_offset == 0),
            },
    {
        if (!self.use_pq && !self.use_bq) || (self.pq_block_number == 0 && self.pq_block_offset
            == 0) {
            return None;
        }
        Some(IndexPointer::new(self.pq_block_number, self.pq_block_offset))
    }

    /// Check the stored ranges at run time.
    fn is_wf(&self) -> (r: bool)
        ensures
            r == self.wf(),
    {
        let opt = TSVIndexOptions {
            num_neighbors: self.num_neighbors,
            search_list_size: self.search_list_size,
            max_alpha: self.max_alpha,
            use_pq: self.use_pq,
            pq_vector_length: self.pq_vector_length,
            use_bq: self.use_bq,
        };
        self.magic_number == TSV_MAGIC_NUMBER && self.version == TSV_VERSION && opt.validate(
            self.num_dimensions,
        ).is_ok()
    }

    /// Write this metadata onto the empty page 0: the header item lands at
    /// offset 1 and the body item at offset 2.
    fn write_to_page(&self, rel: &mut Relation)
        requires
            old(rel).num_pages() > 0,
            old(rel).page_ty(0) == PageType::Meta,
            old(rel).items(0).len() == 0,
            self.wf(),
        ensures
            final(rel).same_except(*old(rel), 0),
            final(rel).page_ty(0) == PageType::Meta,
            final(rel).items(0) =~= seq![spec_encode_header(self.spec_header()), spec_encode_meta(*self)],
            spec_meta_ok(*final(rel)),
            spec_meta_of(*final(rel)) == *self,
    {
        let header = MetaPageHeader { magic_number: self.magic_number, version: self.version };
        let header_bytes = encode_header(&header);
        let off = rel.add_item(META_BLOCK_NUMBER, &header_bytes);
        proof {
            lemma_header_roundtrip(header);
            assert(off == Some(META_HEADER_OFFSET));
        }
        let body_bytes = encode_meta(self);
        proof {
            let s1 = rel.items(0);
            assert(s1.len() == 1);
            assert(s1.drop_last().len() == 0);
            assert(used_bytes(s1.drop_last()) == 0);
            assert(s1.last() == header_bytes@);
            assert(s1.last().len() == META_HEADER_LEN);
            assert(used_bytes(s1) == used_bytes(s1.drop_last()) + s1.last().len()
                + crate::page::ITEM_OVERHEAD);
        }
        let off2 = rel.add_item(META_BLOCK_NUMBER, &body_bytes);
        proof {
            lemma_meta_roundtrip(*self);
            assert(off2 == Some(META_OFFSET));
        }
    }

    /// The header this metadata repeats.
    pub open spec fn spec_header(self) -> MetaPageHeader {
        MetaPageHeader { magic_number: self.magic_number, version: self.version }
    }

    /// Write out a new metadata page.  Must be the first write to a new
    /// relation.
    pub fn create(rel: &mut Relation, num_dimensions: u32, opt: &TSVIndexOptions) -> (r: MetaPage)
        requires
            old(rel).num_pages() == 0,
            opt.spec_valid(num_dimensions),
        ensures
            r == (MetaPage {
                magic_number: TSV_MAGIC_NUMBER,
                version: TSV_VERSION,
                num_dimensions,
                num_neighbors: opt.num_neighbors,
                search_list_size: opt.search_list_size,
                max_alpha: opt.max_alpha,
                init_ids_block_number: 0,
                init_ids_offset: 0,
                use_pq: opt.use_pq,
                pq_vector_length: opt.pq_vector_length,
                pq_block_number: 0,
                pq_block_offset: 0,
                use_bq: opt.use_bq,
            }),
            r.wf(),
            final(rel).num_pages() == 1,
            spec_meta_ok(*final(rel)),
            spec_meta_of(*final(rel)) == r,
    {
        let meta = MetaPage {
            magic_number: TSV_MAGIC_NUMBER,
            version: TSV_VERSION,
            num_dimensions,
            num_neighbors: opt.num_neighbors,
            search_list_size: opt.search_list_size,
            max_alpha: opt.max_alpha,
            init_ids_block_number: 0,
            init_ids_offset: 0,
            use_pq: opt.use_pq,
            pq_vector_length: opt.pq_vector_length,
            pq_block_number: 0,
            pq_block_offset: 0,
            use_bq: opt.use_bq,
        };
        rel.new_page(PageType::Meta);
        meta.write_to_page(rel);
        meta
    }

    /// Rewrite page 0 with this metadata in the current layout.
    fn overwrite(rel: &mut Relation, new_meta: &MetaPage)
        requires
            old(rel).num_pages() > 0,
            new_meta.wf(),
        ensures
            final(rel).same_except(*old(rel), 0),
            final(rel).page_ty(0) == PageType::Meta,
            final(rel).items(0) =~= seq![
                spec_encode_header(new_meta.spec_header()),
                spec_encode_meta(*new_meta),
            ],
            spec_meta_ok(*final(rel)),
            spec_meta_of(*final(rel)) == *new_meta,
    {
        rel.reinit_page(META_BLOCK_NUMBER, PageType::Meta);
        new_meta.write_to_page(rel);
    }

    /// Read page 0 and return its metadata.  A page still in the old layout
    /// is migrated: page 0 is rewritten in the current layout and every
    /// later fetch takes the read-only path.  Fails with `Storage` when
    /// page 0 is missing, has the wrong type, or holds bytes that do not
    /// decode to well-formed current-version metadata.
    pub fn fetch(rel: &mut Relation) -> (r: Result<MetaPage, IndexError>)
        ensures
            r is Ok <==> (spec_meta_ok(*old(rel)) || spec_meta_v1_ok(*old(rel))),
            match r {
                Ok(m) => {
                    &&& m.wf()
                    &&& spec_meta_ok(*final(rel))
                    &&& spec_meta_of(*final(rel)) == m
                    &&& if spec_meta_ok(*old(rel)) {
                        &&& *final(rel) == *old(rel)
                        &&& m == spec_meta_of(*old(rel))
                    } else {
                        &&& final(rel).same_except(*old(rel), 0)
                        &&& m == spec_decode_meta_v1(old(rel).items(0)[0]).spec_new_meta()
                    }
                },
                Err(e) => {
                    &&& e == IndexError::Storage
                    &&& *final(rel) == *old(rel)
                },
            },
    {
        let ty = rel.page_type(META_BLOCK_NUMBER);
        match ty {
            Some(PageType::MetaV1) => {
                let bytes = match rel.get_item(
                    ItemPointer::new(META_BLOCK_NUMBER, META_HEADER_OFFSET),
                ) {
                    Some(b) => b,
                    None => {
                        return Err(IndexError::Storage);
                    },
                };
                let old_meta = match decode_meta_v1(&bytes) {
                    Some(v) => v,
                    None => {
                        return Err(IndexError::Storage);
                    },
                };
                if old_meta.magic_number != TSV_MAGIC_NUMBER || old_meta.version != 1 {
                    return Err(IndexError::Storage);
                }
                let new_meta = old_meta.get_new_meta();
                if !new_meta.is_wf() {
                    return Err(IndexError::Storage);
                }
                Self::overwrite(rel, &new_meta);
                Ok(new_meta)
            },
            Some(PageType::Meta) => {
                match Self::get_meta_from_page(rel) {
                    Some(m) => Ok(m),
                    None => Err(IndexError::Storage),
                }
            },
            _ => Err(IndexError::Storage),
        }
    }

    /// Read the header and body items from a current-layout page 0; `None`
    /// exactly when they are missing, malformed or out of range.
    fn get_meta_from_page(rel: &Relation) -> (r: Option<MetaPage>)
        requires
            rel.num_pages() > 0,
            rel.page_ty(0) == PageType::Meta,
        ensures
            r is Some <==> spec_meta_ok(*rel),
            r is Some ==> r == Some(spec_meta_of(*rel)),
    {
        let header_bytes = match rel.get_item(
            ItemPointer::new(META_BLOCK_NUMBER, META_HEADER_OFFSET),
        ) {
            Some(b) => b,
            None => {
                return None;
            },
        };
        let header = match decode_header(&header_bytes) {
            Some(h) => h,
            None => {
                return None;
            },
        };
        if header.magic_number != TSV_MAGIC_NUMBER || header.version != TSV_VERSION {
            return None;
        }
        let body_bytes = match rel.get_item(ItemPointer::new(META_BLOCK_NUMBER, META_OFFSET)) {
            Some(b) => b,
            None => {
                return None;
            },
        };
        let meta = match decode_meta(&body_bytes) {
            Some(m) => m,
            None => {
                return None;
            },
        };
        if !meta.is_wf() {
            return None;
        }
        Some(meta)
    }

    /// Change the init ids for an index.  The body item is rewritten in
    /// place; nothing else moves.
    pub fn update_init_ids(rel: &mut Relation, init_ids: &Vec<IndexPointer>) -> (r: Result<
        (),
        IndexError,
    >)
        requires
            init_ids@.len() == 1,
        ensures
            r is Ok <==> spec_meta_ok(*old(rel)),
            match r {
                Ok(()) => {
                    &&& final(rel).same_except(*old(rel), 0)
                    &&& final(rel).page_ty(0) == PageType::Meta
                    &&& spec_meta_ok(*final(rel))
                    &&& spec_meta_of(*final(rel)) == (MetaPage {
                        init_ids_block_number: init_ids@[0].block_number,
                        init_ids_offset: init_ids@[0].offset,
                        ..spec_meta_of(*old(rel))
                    })
                    &&& final(rel).items(0) == old(rel).items(0).update(
                        1,
                        spec_encode_meta(spec_meta_of(*final(rel))),
                    )
                    &&& final(rel).items(0).len() == old(rel).items(0).len()
                    &&& final(rel).items(0)[0] == old(rel).items(0)[0]
                },
                Err(e) => {
                    &&& e == IndexError::Storage
                    &&& *final(rel) == *old(rel)
                },
            },
    {
        let id = init_ids[0];
        let ty = rel.page_type(META_BLOCK_NUMBER);
        if !(matches!(ty, Some(PageType::Meta))) {
            return Err(IndexError::Storage);
        }
        let m = match Self::get_meta_from_page(rel) {
            Some(m) => m,
            None => {
                return Err(IndexError::Storage);
            },
        };
        let m2 = MetaPage {
            init_ids_block_number: id.block_number,
            init_ids_offset: id.offset,
            ..m
        };
        let bytes = encode_meta(&m2);
        proof {
            lemma_meta_roundtrip(m2);
            lemma_meta_canonical(old(rel).items(0)[1]);
            assert(spec_encode_meta(m).len() == META_LEN) by {
                lemma_meta_roundtrip(m);
            }
        }
        let ok = rel.replace_item(ItemPointer::new(META_BLOCK_NUMBER, META_OFFSET), &bytes);
        proof {
            assert(ok);
            assert(rel.items(0)[1] == spec_encode_meta(m2));
        }
        Ok(())
    }

    /// Change the quantizer blob pointer for an index.  The body item is
    /// rewritten in place; nothing else moves.
    pub fn update_pq_pointer(rel: &mut Relation, pq_pointer: IndexPointer) -> (r: Result<
        (),
        IndexError,
    >)
        ensures
            r is Ok <==> spec_meta_ok(*old(rel)),
            match r {
                Ok(()) => {
                    &&& final(rel).same_except(*old(rel), 0)
                    &&& final(rel).page_ty(0) == PageType::Meta
                    &&& spec_meta_ok(*final(rel))
                    &&& spec_meta_of(*final(rel)) == (MetaPage {
                        pq_block_number: pq_pointer.block_number,
                        pq_block_offset: pq_pointer.offset,
                        ..spec_meta_of(*old(rel))
                    })
                    &&& final(rel).items(0) == old(rel).items(0).update(
                        1,
                        spec_encode_meta(spec_meta_of(*final(rel))),
                    )
                    &&& final(rel).items(0).len() == old(rel).items(0).len()
                    &&& final(rel).items(0)[0] == old(rel).items(0)[0]
                },
                Err(e) => {
                    &&& e == IndexError::Storage
                    &&& *final(rel) == *old(rel)
                },
            },
    {
        let ty = rel.page_type(META_BLOCK_NUMBER);
        if !(matches!(ty, Some(PageType::Meta))) {
            return Err(IndexError::Storage);
        }
        let m = match Self::get_meta_from_page(rel) {
            Some(m) => m,
            None => {
                return Err(IndexError::Storage);
            },
        };
        let m2 = MetaPage {
            pq_block_number: pq_pointer.block_number,
            pq_block_offset: pq_pointer.offset,
            ..m
        };
        let bytes = encode_meta(&m2);
        proof {
            lemma_meta_roundtrip(m2);
            lemma_meta_canonical(old(rel).items(0)[1]);
            assert(spec_encode_meta(m).len() == META_LEN) by {
                lemma_meta_roundtrip(m);
            }
        }
        let ok = rel.replace_item(ItemPointer::new(META_BLOCK_NUMBER, META_OFFSET), &bytes);
        proof {
            assert(ok);
            assert(rel.items(0)[1] == spec_encode_meta(m2));
        }
        Ok(())
    }
}

} // verus!
