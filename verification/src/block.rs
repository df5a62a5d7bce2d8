//! Content-addressed blocks: data, the identifier computed from it, and links to other blocks.

use vstd::prelude::*;

use crate::content_id::{id_of, verify_codec, ContentId, DAG_CBOR_CODEC, RAW_CODEC};
use crate::error::BlockStoreError;

verus! {

/// The identifier views of a sequence of identifiers.
pub open spec fn ids_view(s: Seq<ContentId>) -> Seq<(u64, u64, u64, Seq<u8>)> {
    s.map_values(|c: ContentId| c@)
}

/// Copies a list of identifiers.
pub fn copy_ids(ids: &[ContentId]) -> (r: Vec<ContentId>)
    ensures
        ids_view(r@) == ids_view(ids@),
{
    let mut out: Vec<ContentId> = Vec::new();
    let mut i: usize = 0;
    while i < ids.len()
        invariant
            i <= ids@.len(),
            ids_view(out@) == ids_view(ids@.subrange(0, i as int)),
        decreases ids@.len() - i,
    {
        let c = ids[i].copy();
        proof {
            lemma_ids_view_push(out@, c);
            lemma_ids_view_push(ids@.subrange(0, i as int), ids@[i as int]);
            assert(ids@.subrange(0, i + 1) =~= ids@.subrange(0, i as int).push(ids@[i as int]));
        }
        out.push(c);
        i = i + 1;
    }
    assert(ids@.subrange(0, ids@.len() as int) =~= ids@);
    out
}

proof fn lemma_ids_view_push(s: Seq<ContentId>, c: ContentId)
    ensures
        ids_view(s.push(c)) == ids_view(s).push(c@),
{
    assert(ids_view(s.push(c)) =~= ids_view(s).push(c@));
}

proof fn lemma_bytes_view_push(s: Seq<Vec<u8>>, b: Vec<u8>)
    ensures
        bytes_view(s.push(b)) == bytes_view(s).push(b@),
{
    assert(bytes_view(s.push(b)) =~= bytes_view(s).push(b@));
}

/// The DAG-CBOR encoding of `(data, links)` that blocks are stored as (computed by
/// `serde_ipld_dagcbor`).
pub uninterp spec fn stored_block_bytes(data: Seq<u8>, links: Seq<Seq<u8>>) -> Seq<u8>;

/// What `serde_ipld_dagcbor` reads back as a `(data, links)` pair from stored bytes, if anything.
pub uninterp spec fn stored_block_parts(bytes: Seq<u8>) -> Option<(Seq<u8>, Seq<Seq<u8>>)>;

/// The byte-sequence views of a list of byte vectors.
pub open spec fn bytes_view(s: Seq<Vec<u8>>) -> Seq<Seq<u8>> {
    s.map_values(|b: Vec<u8>| b@)
}

/// Encodes `(data, links)` by `serde_ipld_dagcbor::to_vec`.
/// Trusted: the encoding succeeds, is what `stored_block_bytes` names, and decoding it with
/// `serde_ipld_dagcbor::from_slice` into `(Vec<u8>, Vec<Vec<u8>>)` gives the same pair back.
/// `to_vec` writes into a `Vec` and fails only when reserving memory fails; a pair of byte
/// vectors serializes without other errors. Allocation is taken to succeed here, as it is
/// for every `Vec` this library grows.
#[verifier::external_body]
fn encode_stored_block(data: &Vec<u8>, links: &Vec<Vec<u8>>) -> (r: Result<Vec<u8>, String>)
    ensures
        r is Ok,
        r matches Ok(b) ==> b@ == stored_block_bytes(data@, bytes_view(links@)) && stored_block_parts(b@) == Some(
            (data@, bytes_view(links@)),
        ),
{
    serde_ipld_dagcbor::to_vec(&(data, links)).map_err(|e| e.to_string())
}

/// Decodes stored bytes into `(data, links)` by `serde_ipld_dagcbor::from_slice`.
/// Trusted: the outcome is what `stored_block_parts` names (`None` on an error).
#[verifier::external_body]
fn decode_stored_block(bytes: &[u8]) -> (r: Result<(Vec<u8>, Vec<Vec<u8>>), String>)
    ensures
        match r {
            Ok(p) => stored_block_parts(bytes@) == Some((p.0@, bytes_view(p.1@))),
            Err(_) => stored_block_parts(bytes@) is None,
        },
{
    serde_ipld_dagcbor::from_slice::<(Vec<u8>, Vec<Vec<u8>>)>(bytes).map_err(|e| e.to_string())
}

/// A content-addressed block with optional DAG links.
///
/// Blocks are immutable: the identifier is computed from the data on construction and always
/// matches it (as a RAW or a DAG-CBOR identifier).
#[derive(Debug)]
pub struct Block {
    cid: ContentId,
    data: Vec<u8>,
    links: Vec<ContentId>,
}

impl View for Block {
    type V = ((u64, u64, u64, Seq<u8>), Seq<u8>, Seq<(u64, u64, u64, Seq<u8>)>);

    closed spec fn view(&self) -> Self::V {
        (self.cid@, self.data@, ids_view(self.links@))
    }
}

/// Whether an identifier is the RAW or the DAG-CBOR identifier of the data.
pub open spec fn matches_data(cid: (u64, u64, u64, Seq<u8>), data: Seq<u8>) -> bool {
    cid == id_of(RAW_CODEC, data) || cid == id_of(DAG_CBOR_CODEC, data)
}

impl Block {
    #[verifier::type_invariant]
    spec fn inv(self) -> bool {
        matches_data(self.cid@, self.data@)
    }

    /// Creates a block from raw bytes; the identifier is the RAW SHA2-256 identifier of the data.
    pub fn new(data: Vec<u8>) -> (r: Self)
        ensures
            r@ == (id_of(RAW_CODEC, data@), data@, Seq::<(u64, u64, u64, Seq<u8>)>::empty()),
    {
        let cid = ContentId::from_bytes(data.as_slice());
        let b = Block { cid, data, links: Vec::new() };
        assert(ids_view(b.links@) =~= Seq::<(u64, u64, u64, Seq<u8>)>::empty());
        b
    }

    /// Creates a block with links to other blocks; the identifier is computed from the data
    /// alone, not from the links.
    pub fn with_links(data: Vec<u8>, links: Vec<ContentId>) -> (r: Self)
        ensures
            r@ == (id_of(RAW_CODEC, data@), data@, ids_view(links@)),
    {
        let cid = ContentId::from_bytes(data.as_slice());
        Block { cid, data, links }
    }

    /// Creates a block of DAG-CBOR encoded bytes; the identifier uses the DAG-CBOR codec.
    pub fn from_dag_cbor(data: Vec<u8>, links: Vec<ContentId>) -> (r: Self)
        ensures
            r@ == (id_of(DAG_CBOR_CODEC, data@), data@, ids_view(links@)),
    {
        let cid = ContentId::from_dag_cbor(data.as_slice());
        Block { cid, data, links }
    }

    /// Rebuilds a block from stored parts, checking that the data matches the expected
    /// identifier as `ContentId::verify` checks it: hashed under the identifier's codec when
    /// that is DAG-CBOR, and as RAW data otherwise.
    pub fn from_parts(expected_cid: ContentId, data: Vec<u8>, links: Vec<ContentId>) -> (r: Result<Self, BlockStoreError>)
        ensures
            expected_cid@ == id_of(verify_codec(expected_cid@.1), data@) ==> (r matches Ok(b) && b@ == (
                expected_cid@,
                data@,
                ids_view(links@),
            )),
            expected_cid@ != id_of(verify_codec(expected_cid@.1), data@) ==> (r matches Err(
                BlockStoreError::IntegrityError { expected, actual },
            ) && expected@ == expected_cid@ && actual@ == id_of(verify_codec(expected_cid@.1), data@)),
    {
        let computed = if expected_cid.is_dag_cbor() {
            ContentId::from_dag_cbor(data.as_slice())
        } else {
            ContentId::from_bytes(data.as_slice())
        };
        if !computed.same_as(&expected_cid) {
            return Err(BlockStoreError::IntegrityError { expected: expected_cid, actual: computed });
        }
        Ok(Block { cid: expected_cid, data, links })
    }

    /// The content identifier.
    pub fn cid(&self) -> (r: &ContentId)
        ensures
            r@ == self@.0,
    {
        &self.cid
    }

    /// The raw data.
    pub fn data(&self) -> (r: &[u8])
        ensures
            r@ == self@.1,
    {
        self.data.as_slice()
    }

    /// The size of the data in bytes.
    pub fn size(&self) -> (r: usize)
        ensures
            r == self@.1.len(),
    {
        self.data.len()
    }

    /// The links to other blocks.
    pub fn links(&self) -> (r: &[ContentId])
        ensures
            ids_view(r@) == self@.2,
    {
        self.links.as_slice()
    }

    /// Whether this block has any links.
    pub fn has_links(&self) -> (r: bool)
        ensures
            r == (self@.2.len() > 0),
    {
        self.links.len() > 0
    }

    /// Checks the block's integrity by recomputing the identifier from the data.
    pub fn verify(&self) -> (r: bool)
        ensures
            r == (self@.0 == id_of(if self@.0.1 == DAG_CBOR_CODEC { DAG_CBOR_CODEC } else { RAW_CODEC }, self@.1)),
            r,
    {
        proof { use_type_invariant(self); }
        self.cid.verify(self.data.as_slice())
    }

    /// Serializes the block for storage: its data and the binary form of each link.
    pub fn to_stored_bytes(&self) -> (r: Result<Vec<u8>, BlockStoreError>)
        ensures
            r matches Ok(b) && b@ == stored_block_bytes(self@.1, link_bytes(self@.2))
                && stored_block_parts(b@) == Some((self@.1, link_bytes(self@.2))),
            parse_links(link_bytes(self@.2)) == Some(self@.2),
    {
        let mut lb: Vec<Vec<u8>> = Vec::new();
        let mut i: usize = 0;
        while i < self.links.len()
            invariant
                i <= self.links@.len(),
                bytes_view(lb@) == link_bytes(ids_view(self.links@.subrange(0, i as int))),
                parse_links(bytes_view(lb@)) == Some(ids_view(self.links@.subrange(0, i as int))),
            decreases self.links@.len() - i,
        {
            let b = self.links[i].to_bytes();
            proof {
                let pre = ids_view(self.links@.subrange(0, i as int));
                let x = self.links@[i as int]@;
                lemma_parse_links_push(bytes_view(lb@), b@);
                lemma_bytes_view_push(lb@, b);
                lemma_ids_view_push(self.links@.subrange(0, i as int), self.links@[i as int]);
                assert(self.links@.subrange(0, i + 1) =~= self.links@.subrange(0, i as int).push(self.links@[i as int]));
                assert(link_bytes(pre.push(x)) =~= link_bytes(pre).push(b@));
            }
            lb.push(b);
            i = i + 1;
        }
        assert(self.links@.subrange(0, self.links@.len() as int) =~= self.links@);
        match encode_stored_block(&self.data, &lb) {
            Ok(b) => Ok(b),
            Err(e) => Err(BlockStoreError::Serialization(e)),
        }
    }

    /// Restores a block from stored bytes under the expected identifier.
    pub fn from_stored_bytes(cid: ContentId, bytes: &[u8]) -> (r: Result<Self, BlockStoreError>)
        ensures
            match restored_view(cid@, bytes@) {
                Some(v) => r matches Ok(b) && b@ == v,
                None => r is Err,
            },
            match stored_block_parts(bytes@) {
                None => r matches Err(e) && e is Serialization,
                Some(p) => match parse_links(p.1) {
                    None => r matches Err(e) && e is InvalidCid,
                    Some(links) => cid@ != id_of(verify_codec(cid@.1), p.0) ==> (r matches Err(e) && e is IntegrityError),
                },
            },
    {
        let parts = match decode_stored_block(bytes) {
            Ok(p) => p,
            Err(e) => return Err(BlockStoreError::Serialization(e)),
        };
        let (data, lb) = parts;
        let mut links: Vec<ContentId> = Vec::new();
        let mut i: usize = 0;
        while i < lb.len()
            invariant
                i <= lb@.len(),
                stored_block_parts(bytes@) == Some((data@, bytes_view(lb@))),
                parse_links(bytes_view(lb@).subrange(0, i as int)) == Some(ids_view(links@)),
            decreases lb@.len() - i,
        {
            proof {
                lemma_parse_links_push(bytes_view(lb@).subrange(0, i as int), lb@[i as int]@);
                assert(bytes_view(lb@).subrange(0, i + 1) =~= bytes_view(lb@).subrange(0, i as int).push(lb@[i as int]@));
            }
            let item = &lb[i];
            assert(item@ == bytes_view(lb@)[i as int]);
            match ContentId::from_raw_bytes(item.as_slice()) {
                Ok(c) => {
                    proof { lemma_ids_view_push(links@, c); }
                    links.push(c);
                },
                Err(e) => {
                    proof { lemma_parse_links_fail_prefix(bytes_view(lb@), i as int + 1); }
                    return Err(e);
                },
            }
            i = i + 1;
        }
        assert(bytes_view(lb@).subrange(0, lb@.len() as int) =~= bytes_view(lb@));
        Self::from_parts(cid, data, links)
    }
}

/// The block (as a view) that `from_stored_bytes` restores from stored bytes under an
/// identifier: the stored data and links, when they decode and the identifier is the data's
/// RAW identifier.
pub open spec fn restored_view(cid: (u64, u64, u64, Seq<u8>), bytes: Seq<u8>) -> Option<((u64, u64, u64, Seq<u8>), Seq<u8>, Seq<(u64, u64, u64, Seq<u8>)>)> {
    match stored_block_parts(bytes) {
        None => None,
        Some(p) => match parse_links(p.1) {
            None => None,
            Some(links) => if cid == id_of(verify_codec(cid.1), p.0) { Some((cid, p.0, links)) } else { None },
        },
    }
}

/// The binary CID forms of a list of identifiers.
pub open spec fn link_bytes(ids: Seq<(u64, u64, u64, Seq<u8>)>) -> Seq<Seq<u8>> {
    ids.map_values(|p: (u64, u64, u64, Seq<u8>)| crate::content_id::cid_binary(p.0, p.1, p.2, p.3))
}

/// Reads each binary CID of a list; `None` as soon as one is not a CID.
pub open spec fn parse_links(bs: Seq<Seq<u8>>) -> Option<Seq<(u64, u64, u64, Seq<u8>)>>
    decreases bs.len(),
{
    if bs.len() == 0 {
        Some(Seq::empty())
    } else {
        match parse_links(bs.drop_last()) {
            None => None,
            Some(prefix) => match crate::content_id::cid_from_binary(bs.last()) {
                Ok(p) => Some(prefix.push(p)),
                Err(_) => None,
            },
        }
    }
}

proof fn lemma_parse_links_push(bs: Seq<Seq<u8>>, b: Seq<u8>)
    ensures
        parse_links(bs.push(b)) == match parse_links(bs) {
            None => None,
            Some(prefix) => match crate::content_id::cid_from_binary(b) {
                Ok(p) => Some(prefix.push(p)),
                Err(_) => None,
            },
        },
{
    assert(bs.push(b).drop_last() =~= bs);
}

proof fn lemma_parse_links_fail_prefix(bs: Seq<Seq<u8>>, k: int)
    requires
        0 <= k <= bs.len(),
        parse_links(bs.subrange(0, k)) is None,
    ensures
        parse_links(bs) is None,
    decreases bs.len() - k,
{
    if k < bs.len() {
        assert(bs.subrange(0, k + 1).drop_last() =~= bs.subrange(0, k));
        lemma_parse_links_fail_prefix(bs, k + 1);
    } else {
        assert(bs.subrange(0, k) =~= bs);
    }
}

impl Clone for Block {
    fn clone(&self) -> (r: Self)
        ensures
            r@ == self@,
    {
        proof { use_type_invariant(self); }
        Block { cid: self.cid.copy(), data: crate::content_id::copy_bytes(&self.data), links: copy_ids(self.links.as_slice()) }
    }
}

impl PartialEq for Block {
    fn eq(&self, other: &Self) -> (r: bool) {
        self.cid.same_as(&other.cid)
    }
}

impl vstd::std_specs::cmp::PartialEqSpecImpl for Block {
    open spec fn obeys_eq_spec() -> bool {
        true
    }

    open spec fn eq_spec(&self, other: &Self) -> bool {
        self@.0 == other@.0
    }
}

impl Eq for Block {

}

/// Reading back what was stored gives the block back: restoring the stored bytes of a block
/// (RAW or DAG-CBOR) under its own identifier yields the same identifier, data and links.
pub proof fn law_stored_bytes_round_trip(
    block: ((u64, u64, u64, Seq<u8>), Seq<u8>, Seq<(u64, u64, u64, Seq<u8>)>),
    bytes: Seq<u8>,
)
    requires
        matches_data(block.0, block.1),
        stored_block_parts(bytes) == Some((block.1, link_bytes(block.2))),
        parse_links(link_bytes(block.2)) == Some(block.2),
    ensures
        restored_view(block.0, bytes) == Some(block),
{
}

} // verus!
