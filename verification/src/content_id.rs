//! Content identifiers: CIDv1 (or CIDv0) values with a multihash digest.

use vstd::prelude::*;

use crate::error::BlockStoreError;

verus! {

/// Multihash code of SHA2-256.
pub const SHA2_256_CODE: u64 = 0x12;

/// Codec of DAG-CBOR encoded blocks.
pub const DAG_CBOR_CODEC: u64 = 0x71;

/// Codec of raw binary blocks.
pub const RAW_CODEC: u64 = 0x55;

/// Codec that every CIDv0 carries (DAG-PB).
pub const DAG_PB_CODEC: u64 = 0x70;

/// The SHA2-256 digest of the given bytes (computed by the `sha2` crate).
pub uninterp spec fn sha256_digest(data: Seq<u8>) -> Seq<u8>;

/// The binary CID encoding of the given parts (computed by the `cid` crate).
pub uninterp spec fn cid_binary(version: u64, codec: u64, hash_code: u64, digest: Seq<u8>) -> Seq<u8>;

/// The canonical text form of the CID with the given parts (computed by the `cid` crate):
/// multibase base32 for version 1, base58btc for version 0.
pub uninterp spec fn cid_text(version: u64, codec: u64, hash_code: u64, digest: Seq<u8>) -> Seq<char>;

/// What the `cid` crate parses out of a CID text: the parts, or the error message.
pub uninterp spec fn cid_from_text(text: Seq<char>) -> Result<(u64, u64, u64, Seq<u8>), Seq<char>>;

/// What the `cid` crate reads out of binary CID bytes: the parts, or the error message.
pub uninterp spec fn cid_from_binary(bytes: Seq<u8>) -> Result<(u64, u64, u64, Seq<u8>), Seq<char>>;

/// The parts of a CID that the `cid` crate can represent: a multihash digest of at most
/// 64 bytes, and for version 0 the fixed DAG-PB codec with a 32-byte SHA2-256 digest.
pub open spec fn parts_wf(version: u64, codec: u64, hash_code: u64, digest: Seq<u8>) -> bool {
    &&& digest.len() <= 64
    &&& (version == 1 || (version == 0 && codec == DAG_PB_CODEC && hash_code == SHA2_256_CODE
        && digest.len() == 32))
}

/// A successful parse that yields the given parts.
pub open spec fn parsed_ok(version: u64, codec: u64, hash_code: u64, digest: Seq<u8>) -> Result<(u64, u64, u64, Seq<u8>), Seq<char>> {
    Ok((version, codec, hash_code, digest))
}

/// A failed parse with the given message.
pub open spec fn parsed_err(msg: Seq<char>) -> Result<(u64, u64, u64, Seq<u8>), Seq<char>> {
    Err(msg)
}

/// The identifier (as parts) of data hashed with SHA2-256 under the given codec.
pub open spec fn id_of(codec: u64, data: Seq<u8>) -> (u64, u64, u64, Seq<u8>) {
    (1u64, codec, SHA2_256_CODE, sha256_digest(data))
}

/// SHA2-256 of the given bytes, by `sha2::Sha256::digest`.
/// Trusted: the digest is what `sha256_digest` names, and it is 32 bytes long (the output
/// type of `Sha256` is a 32-byte array).
#[verifier::external_body]
pub(crate) fn sha256(data: &[u8]) -> (r: Vec<u8>)
    ensures
        r@ == sha256_digest(data@),
        r@.len() == 32,
{
    <sha2::Sha256 as sha2::Digest>::digest(data).to_vec()
}

/// Binary form of a CID, by `cid::Cid::to_bytes` on the CID built from the parts
/// (`multihash::Multihash::wrap` and `cid::Cid::new`, which accept every well formed part set).
/// Trusted: the bytes are what `cid_binary` names, and reading them back with
/// `Cid::try_from(&[u8])` gives the same parts (the writer and the reader of the `cid`
/// crate use the same varint layout).
#[verifier::external_body]
fn encode_cid_binary(version: u64, codec: u64, hash_code: u64, digest: &[u8]) -> (r: Vec<u8>)
    requires
        parts_wf(version, codec, hash_code, digest@),
    ensures
        r@ == cid_binary(version, codec, hash_code, digest@),
        cid_from_binary(r@) == parsed_ok(version, codec, hash_code, digest@),
{
    let mh = multihash::Multihash::<64>::wrap(hash_code, digest).unwrap();
    let v = ::cid::Version::try_from(version).unwrap();
    ::cid::Cid::new(v, codec, mh).unwrap().to_bytes()
}

/// Text form of a CID, by the `Display` impl of `cid::Cid` on the CID built from the parts.
/// Trusted: the text is what `cid_text` names, it is not empty (it starts with a multibase
/// prefix or with "Qm"), and parsing it back with `Cid::from_str` gives the same parts.
#[verifier::external_body]
fn encode_cid_text(version: u64, codec: u64, hash_code: u64, digest: &[u8]) -> (r: String)
    requires
        parts_wf(version, codec, hash_code, digest@),
    ensures
        r@ == cid_text(version, codec, hash_code, digest@),
        r@.len() > 0,
        cid_from_text(r@) == parsed_ok(version, codec, hash_code, digest@),
{
    let mh = multihash::Multihash::<64>::wrap(hash_code, digest).unwrap();
    let v = ::cid::Version::try_from(version).unwrap();
    ::cid::Cid::new(v, codec, mh).unwrap().to_string()
}

/// Parses CID text, by `cid::Cid::from_str`, and takes the parts out of the result.
/// Trusted: the outcome is what `cid_from_text` names; the parts of a parsed CID are well
/// formed (a `Multihash<64>` holds at most 64 digest bytes, and `Cid::new_v0` only accepts
/// a 32-byte SHA2-256 digest under DAG-PB).
#[verifier::external_body]
fn decode_cid_text(text: &str) -> (r: Result<(u64, u64, u64, Vec<u8>), String>)
    ensures
        match r {
            Ok(p) => cid_from_text(text@) == parsed_ok(p.0, p.1, p.2, p.3@) && parts_wf(p.0, p.1, p.2, p.3@),
            Err(e) => cid_from_text(text@) == parsed_err(e@),
        },
{
    match <::cid::Cid as std::str::FromStr>::from_str(text) {
        Ok(c) => Ok((u64::from(c.version()), c.codec(), c.hash().code(), c.hash().digest().to_vec())),
        Err(e) => Err(e.to_string()),
    }
}

/// Reads binary CID bytes, by `cid::Cid::try_from(&[u8])`, and takes the parts out of the result.
/// Trusted: the outcome is what `cid_from_binary` names; parsed parts are well formed (as for
/// `decode_cid_text`).
#[verifier::external_body]
fn decode_cid_binary(bytes: &[u8]) -> (r: Result<(u64, u64, u64, Vec<u8>), String>)
    ensures
        match r {
            Ok(p) => cid_from_binary(bytes@) == parsed_ok(p.0, p.1, p.2, p.3@) && parts_wf(p.0, p.1, p.2, p.3@),
            Err(e) => cid_from_binary(bytes@) == parsed_err(e@),
        },
{
    match ::cid::Cid::try_from(bytes) {
        Ok(c) => Ok((u64::from(c.version()), c.codec(), c.hash().code(), c.hash().digest().to_vec())),
        Err(e) => Err(e.to_string()),
    }
}

/// Compares two byte sequences.
pub(crate) fn bytes_equal(a: &Vec<u8>, b: &Vec<u8>) -> (r: bool)
    ensures
        r == (a@ == b@),
{
    if a.len() != b.len() {
        return false;
    }
    let mut i: usize = 0;
    while i < a.len()
        invariant
            a@.len() == b@.len(),
            i <= a@.len(),
            forall|j: int| 0 <= j < i ==> a@[j] == b@[j],
        decreases a@.len() - i,
    {
        if a[i] != b[i] {
            return false;
        }
        i = i + 1;
    }
    assert(a@ =~= b@);
    true
}

/// Copies a byte vector.
pub fn copy_bytes(a: &Vec<u8>) -> (r: Vec<u8>)
    ensures
        r@ == a@,
{
    let mut out: Vec<u8> = Vec::new();
    let mut i: usize = 0;
    while i < a.len()
        invariant
            i <= a@.len(),
            out@ == a@.subrange(0, i as int),
        decreases a@.len() - i,
    {
        out.push(a[i]);
        i = i + 1;
        assert(out@ =~= a@.subrange(0, i as int));
    }
    assert(a@.subrange(0, a@.len() as int) =~= a@);
    out
}

/// Content identifier: a CID with a multihash digest, held as plain parts.
///
/// Two identical pieces of data always produce the same `ContentId`.
#[derive(Debug, Hash)]
pub struct ContentId {
    version: u64,
    codec: u64,
    hash_code: u64,
    digest: Vec<u8>,
}

impl View for ContentId {
    type V = (u64, u64, u64, Seq<u8>);

    closed spec fn view(&self) -> (u64, u64, u64, Seq<u8>) {
        (self.version, self.codec, self.hash_code, self.digest@)
    }
}

impl ContentId {
    #[verifier::type_invariant]
    spec fn inv(self) -> bool {
        parts_wf(self.version, self.codec, self.hash_code, self.digest@)
    }

    /// Identifier of raw bytes: CIDv1, RAW codec, SHA2-256.
    pub fn from_bytes(data: &[u8]) -> (r: Self)
        ensures
            r@ == id_of(RAW_CODEC, data@),
            r@.3.len() == 32,
    {
        let digest = sha256(data);
        ContentId { version: 1, codec: RAW_CODEC, hash_code: SHA2_256_CODE, digest }
    }

    /// Identifier of DAG-CBOR encoded bytes: CIDv1, DAG-CBOR codec, SHA2-256.
    pub fn from_dag_cbor(data: &[u8]) -> (r: Self)
        ensures
            r@ == id_of(DAG_CBOR_CODEC, data@),
            r@.3.len() == 32,
    {
        let digest = sha256(data);
        ContentId { version: 1, codec: DAG_CBOR_CODEC, hash_code: SHA2_256_CODE, digest }
    }

    /// Parses a CID from its text form (base32 multibase, or base58btc for CIDv0).
    pub fn parse(s: &str) -> (r: Result<Self, BlockStoreError>)
        ensures
            match cid_from_text(s@) {
                Ok(p) => r matches Ok(id) && id@ == p,
                Err(msg) => r matches Err(BlockStoreError::InvalidCid(m)) && m@ == msg,
            },
    {
        match decode_cid_text(s) {
            Ok(p) => Ok(ContentId { version: p.0, codec: p.1, hash_code: p.2, digest: p.3 }),
            Err(e) => Err(BlockStoreError::InvalidCid(e)),
        }
    }

    /// The binary CID encoding.
    pub fn to_bytes(&self) -> (r: Vec<u8>)
        ensures
            r@ == cid_binary(self@.0, self@.1, self@.2, self@.3),
            cid_from_binary(r@) == parsed_ok(self@.0, self@.1, self@.2, self@.3),
    {
        proof { use_type_invariant(self); }
        encode_cid_binary(self.version, self.codec, self.hash_code, self.digest.as_slice())
    }

    /// Reads a CID from its binary encoding.
    pub fn from_raw_bytes(bytes: &[u8]) -> (r: Result<Self, BlockStoreError>)
        ensures
            match cid_from_binary(bytes@) {
                Ok(p) => r matches Ok(id) && id@ == p,
                Err(msg) => r matches Err(BlockStoreError::InvalidCid(m)) && m@ == msg,
            },
    {
        match decode_cid_binary(bytes) {
            Ok(p) => Ok(ContentId { version: p.0, codec: p.1, hash_code: p.2, digest: p.3 }),
            Err(e) => Err(BlockStoreError::InvalidCid(e)),
        }
    }

    /// The canonical text form of this CID (what `Display` shows in the `cid` crate).
    pub fn to_cid_string(&self) -> (r: String)
        ensures
            r@ == cid_text(self@.0, self@.1, self@.2, self@.3),
            r@.len() > 0,
            cid_from_text(r@) == parsed_ok(self@.0, self@.1, self@.2, self@.3),
    {
        proof { use_type_invariant(self); }
        encode_cid_text(self.version, self.codec, self.hash_code, self.digest.as_slice())
    }

    /// The CID version (0 or 1).
    pub fn version(&self) -> (r: u64)
        ensures
            r == self@.0,
    {
        self.version
    }

    /// The codec (e.g. RAW or DAG-CBOR).
    pub fn codec(&self) -> (r: u64)
        ensures
            r == self@.1,
    {
        self.codec
    }

    /// The multihash code of the digest.
    pub fn hash_code(&self) -> (r: u64)
        ensures
            r == self@.2,
    {
        self.hash_code
    }

    /// Whether this is a RAW codec CID.
    pub fn is_raw(&self) -> (r: bool)
        ensures
            r == (self@.1 == RAW_CODEC),
    {
        self.codec == RAW_CODEC
    }

    /// Whether this is a DAG-CBOR codec CID.
    pub fn is_dag_cbor(&self) -> (r: bool)
        ensures
            r == (self@.1 == DAG_CBOR_CODEC),
    {
        self.codec == DAG_CBOR_CODEC
    }

    /// The digest bytes (without codec, version or multihash prefix).
    pub fn hash_bytes(&self) -> (r: &[u8])
        ensures
            r@ == self@.3,
    {
        self.digest.as_slice()
    }

    /// Whether `data` hashes to this identifier, under this identifier's codec when it is
    /// DAG-CBOR and under RAW otherwise.
    pub fn verify(&self, data: &[u8]) -> (r: bool)
        ensures
            r == (self@ == id_of(verify_codec(self@.1), data@)),
    {
        let expected = if self.is_dag_cbor() {
            Self::from_dag_cbor(data)
        } else {
            Self::from_bytes(data)
        };
        self.same_as(&expected)
    }

    /// An exact copy of this identifier.
    pub fn copy(&self) -> (r: Self)
        ensures
            r@ == self@,
    {
        proof { use_type_invariant(self); }
        ContentId {
            version: self.version,
            codec: self.codec,
            hash_code: self.hash_code,
            digest: copy_bytes(&self.digest),
        }
    }

    /// Whether two identifiers are the same CID.
    pub fn same_as(&self, other: &Self) -> (r: bool)
        ensures
            r == (self@ == other@),
    {
        self.version == other.version && self.codec == other.codec && self.hash_code
            == other.hash_code && bytes_equal(&self.digest, &other.digest)
    }
}

impl Clone for ContentId {
    fn clone(&self) -> (r: Self)
        ensures
            r@ == self@,
    {
        self.copy()
    }
}

impl PartialEq for ContentId {
    fn eq(&self, other: &Self) -> (r: bool) {
        self.same_as(other)
    }
}

impl vstd::std_specs::cmp::PartialEqSpecImpl for ContentId {
    open spec fn obeys_eq_spec() -> bool {
        true
    }

    open spec fn eq_spec(&self, other: &Self) -> bool {
        self@ == other@
    }
}

impl Eq for ContentId {

}

/// The codec under which `verify` rehashes data for an identifier of the given codec.
pub open spec fn verify_codec(codec: u64) -> u64 {
    if codec == DAG_CBOR_CODEC { DAG_CBOR_CODEC } else { RAW_CODEC }
}

/// An identifier computed from data (RAW or DAG-CBOR) always verifies that data: the
/// identifier that `verify` recomputes is the identifier itself.
pub proof fn law_identifier_verifies_own_data(codec: u64, data: Seq<u8>)
    requires
        codec == RAW_CODEC || codec == DAG_CBOR_CODEC,
    ensures
        id_of(verify_codec(id_of(codec, data).1), data) == id_of(codec, data),
{
}

} // verus!
