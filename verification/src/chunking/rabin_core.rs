//! Rabin fingerprint rolling hash and boundary search.
//!
//! The same hash and boundary rule drive the in-memory `RabinChunker` and the streaming
//! `RabinStreamingIter`, so both cut identical chunks.

use vstd::prelude::*;

use super::config::ChunkingConfig;

verus! {

/// Standard Rabin polynomial used by IPFS.
pub const IPFS_POLYNOMIAL: u64 = 0x3DA3358B4DC173;

/// Window size of the rolling hash.
pub const WINDOW_SIZE: usize = 64;

/// Top bit of a 64-bit hash.
pub const TOP_BIT: u64 = 0x8000_0000_0000_0000;

/// One step of polynomial reduction: shift left, folding the polynomial in when the top bit
/// falls out.
pub open spec fn shift_step(h: u64, poly: u64) -> u64 {
    if h & TOP_BIT != 0 { (h << 1u64) ^ poly } else { h << 1u64 }
}

/// `k` reduction steps.
pub open spec fn shift_steps(h: u64, poly: u64, k: nat) -> u64
    decreases k,
{
    if k == 0 { h } else { shift_steps(shift_step(h, poly), poly, (k - 1) as nat) }
}

/// Entry `i` of the modular reduction table.
pub open spec fn mod_entry(poly: u64, i: u64) -> u64 {
    shift_steps(i << 55u64, poly, 8)
}

/// Feeds the bits `k-1` down to `0` of `byte` into the hash (bit-by-bit, without tables).
pub open spec fn raw_bits(h: u64, byte: u8, poly: u64, k: u32) -> u64
    decreases k,
{
    if k == 0 {
        h
    } else {
        let h1 = shift_step(h, poly);
        let bit = (k - 1) as u32;
        let h2 = if byte & (1u8 << bit) != 0 { h1 ^ poly } else { h1 };
        raw_bits(h2, byte, poly, bit)
    }
}

/// Feeds a whole byte into the hash bit by bit.
pub open spec fn raw_update(h: u64, byte: u8, poly: u64) -> u64 {
    raw_bits(h, byte, poly, 8)
}

/// Feeds `k` zero bytes into the hash.
pub open spec fn raw_zeros(h: u64, poly: u64, k: nat) -> u64
    decreases k,
{
    if k == 0 { h } else { raw_zeros(raw_update(h, 0, poly), poly, (k - 1) as nat) }
}

/// Entry `i` of the window-removal table: the contribution of byte `i` after a full window.
pub open spec fn out_entry(poly: u64, i: u8) -> u64 {
    raw_zeros(raw_update(0, i, poly), poly, (WINDOW_SIZE - 1) as nat)
}

/// Table-driven update of the rolling hash with a new byte.
pub open spec fn update_spec(poly: u64, h: u64, byte: u8) -> u64 {
    (h << 8u64) ^ mod_entry(poly, h >> 56u64) ^ (byte as u64)
}

/// Slides the window: removes `out_byte`, adds `in_byte`.
pub open spec fn slide_spec(poly: u64, h: u64, out_byte: u8, in_byte: u8) -> u64 {
    update_spec(poly, h ^ out_entry(poly, out_byte), in_byte)
}

/// The rolling hash after the first `n` bytes of `data` from `start` (the window holds the
/// last 64 bytes).
pub open spec fn seg_hash(poly: u64, data: Seq<u8>, start: int, n: nat) -> u64
    decreases n,
{
    if n == 0 {
        0
    } else {
        let prev = seg_hash(poly, data, start, (n - 1) as nat);
        let b = data[start + n - 1];
        if n <= WINDOW_SIZE {
            update_spec(poly, prev, b)
        } else {
            slide_spec(poly, prev, data[start + n - 1 - WINDOW_SIZE], b)
        }
    }
}

/// Whether a hash marks a boundary under the mask.
pub open spec fn boundary_spec(mask: u64, h: u64) -> bool {
    h & mask == 0
}

/// Whether a chunk from `start` stops after `n` bytes: a boundary hash at or past the
/// minimum size, or the maximum size reached.
pub open spec fn stops_at(poly: u64, mask: u64, data: Seq<u8>, start: int, n: nat, min_size: usize, max_size: usize) -> bool {
    (boundary_spec(mask, seg_hash(poly, data, start, n)) && n >= min_size) || n >= max_size
}

/// Searches, from length `n` on, for the length of the chunk that starts at `start`: the first
/// length at which it stops, or all the remaining data.
pub open spec fn cut_search(poly: u64, mask: u64, data: Seq<u8>, start: int, min_size: usize, max_size: usize, n: nat) -> nat
    decreases data.len() - start - n,
{
    if start + n >= data.len() {
        if data.len() - start >= 0 { (data.len() - start) as nat } else { 0 }
    } else if stops_at(poly, mask, data, start, n, min_size, max_size) {
        n
    } else {
        cut_search(poly, mask, data, start, min_size, max_size, n + 1)
    }
}

/// Length of the chunk that starts at `start`: 0 when no data remains.
pub open spec fn rabin_cut(poly: u64, mask: u64, data: Seq<u8>, start: int, min_size: usize, max_size: usize) -> nat {
    if start >= data.len() { 0 } else { cut_search(poly, mask, data, start, min_size, max_size, 1) }
}

/// The rolling hash over bytes from `start` is the hash over the rest of the data from 0.
proof fn lemma_seg_hash_rest(poly: u64, data: Seq<u8>, start: int, n: nat)
    requires
        0 <= start,
        start + n <= data.len(),
    ensures
        seg_hash(poly, data, start, n) == seg_hash(poly, data.skip(start), 0, n),
    decreases n,
{
    if n > 0 {
        lemma_seg_hash_rest(poly, data, start, (n - 1) as nat);
        assert(data.skip(start)[n - 1] == data[start + n - 1]);
        if n > WINDOW_SIZE {
            assert(data.skip(start)[n - 1 - WINDOW_SIZE] == data[start + n - 1 - WINDOW_SIZE]);
        }
    }
}

/// Searching for the chunk from `start` is searching for the first chunk of the rest of the
/// data.
proof fn lemma_cut_search_rest(poly: u64, mask: u64, data: Seq<u8>, start: int, min_size: usize, max_size: usize, n: nat)
    requires
        0 <= start <= data.len(),
    ensures
        cut_search(poly, mask, data, start, min_size, max_size, n) == cut_search(
            poly,
            mask,
            data.skip(start),
            0,
            min_size,
            max_size,
            n,
        ),
    decreases data.len() - start - n,
{
    if start + n < data.len() {
        lemma_seg_hash_rest(poly, data, start, n);
        lemma_cut_search_rest(poly, mask, data, start, min_size, max_size, n + 1);
    }
}

/// The chunk a Rabin chunker cuts at any position of the input is the boundary that
/// `find_boundary` finds in the rest of the input: chunking the whole input and searching each
/// remainder agree.
pub proof fn law_cut_is_boundary_of_rest(poly: u64, mask: u64, data: Seq<u8>, start: int, min_size: usize, max_size: usize)
    requires
        0 <= start <= data.len(),
    ensures
        rabin_cut(poly, mask, data, start, min_size, max_size) == rabin_cut(poly, mask, data.skip(start), 0, min_size, max_size),
{
    if start < data.len() {
        lemma_cut_search_rest(poly, mask, data, start, min_size, max_size, 1);
    }
}

/// The rolling hash over the first `n` bytes is the same in any data that starts with them.
proof fn lemma_seg_hash_prefix(poly: u64, w: Seq<u8>, r: Seq<u8>, n: nat)
    requires
        w.is_prefix_of(r),
        n <= w.len(),
    ensures
        seg_hash(poly, w, 0, n) == seg_hash(poly, r, 0, n),
    decreases n,
{
    if n > 0 {
        lemma_seg_hash_prefix(poly, w, r, (n - 1) as nat);
        assert(w[n - 1] == r[n - 1]);
        if n > WINDOW_SIZE {
            assert(w[n - 1 - WINDOW_SIZE] == r[n - 1 - WINDOW_SIZE]);
        }
    }
}

/// The search over a window that starts the rest of the data, and reaches the maximum size
/// or the end of the data, finds what the search over the rest finds.
proof fn lemma_cut_search_window(poly: u64, mask: u64, w: Seq<u8>, r: Seq<u8>, min_size: usize, max_size: usize, n: nat)
    requires
        w.is_prefix_of(r),
        w.len() >= max_size || w.len() == r.len(),
        1 <= n,
        n <= w.len(),
    ensures
        cut_search(poly, mask, w, 0, min_size, max_size, n) == cut_search(poly, mask, r, 0, min_size, max_size, n),
    decreases w.len() - n,
{
    if w.len() == r.len() {
        assert(w =~= r);
    } else if n >= w.len() {
        assert(n == w.len());
        assert(n >= max_size);
    } else {
        lemma_seg_hash_prefix(poly, w, r, n);
        lemma_cut_search_window(poly, mask, w, r, min_size, max_size, n + 1);
    }
}

/// A chunk cut from a window of buffered bytes is the chunk cut from all the data the window
/// starts, once the window holds at least the maximum size or all the data: a streaming
/// chunker that cuts from such windows cuts where chunking the whole input cuts.
pub proof fn law_window_cut_is_cut_of_rest(poly: u64, mask: u64, w: Seq<u8>, r: Seq<u8>, min_size: usize, max_size: usize)
    requires
        w.is_prefix_of(r),
        w.len() >= max_size || w.len() == r.len(),
        w.len() > 0,
    ensures
        rabin_cut(poly, mask, w, 0, min_size, max_size) == rabin_cut(poly, mask, r, 0, min_size, max_size),
{
    lemma_cut_search_window(poly, mask, w, r, min_size, max_size, 1);
}

/// A found cut is between the starting length and the remaining data.
pub proof fn lemma_cut_search_bounds(poly: u64, mask: u64, data: Seq<u8>, start: int, min_size: usize, max_size: usize, n: nat)
    requires
        0 <= start < data.len(),
        1 <= n,
    ensures
        1 <= cut_search(poly, mask, data, start, min_size, max_size, n) <= data.len() - start,
        n <= data.len() - start ==> n <= cut_search(poly, mask, data, start, min_size, max_size, n),
    decreases data.len() - start - n,
{
    if start + n >= data.len() {
    } else if stops_at(poly, mask, data, start, n, min_size, max_size) {
    } else {
        lemma_cut_search_bounds(poly, mask, data, start, min_size, max_size, n + 1);
    }
}

/// The boundary mask for a target size: `2^floor(log2(target)) - 1` (0 for targets below 2).
pub open spec fn mask_spec(n: nat) -> nat
    decreases n,
{
    if n < 2 { 0 } else { 2 * mask_spec(n / 2) + 1 }
}

/// How many low bits the mask of a target size covers: floor(log2 target) (0 below 2).
pub open spec fn mask_bits(n: nat) -> nat
    decreases n,
{
    if n < 2 { 0 } else { 1 + mask_bits(n / 2) }
}

/// The mask of a target size is the largest power of two not above it, less one.
proof fn lemma_mask_is_power_of_two_less_one(n: nat)
    ensures
        mask_spec(n) + 1 == vstd::arithmetic::power2::pow2(mask_bits(n)),
        n >= 1 ==> vstd::arithmetic::power2::pow2(mask_bits(n)) <= n < 2 * vstd::arithmetic::power2::pow2(mask_bits(n)),
    decreases n,
{
    if n < 2 {
        vstd::arithmetic::power2::lemma2_to64();
    } else {
        lemma_mask_is_power_of_two_less_one(n / 2);
        vstd::arithmetic::power2::lemma_pow2_unfold(mask_bits(n));
        assert(mask_bits(n) - 1 == mask_bits(n / 2));
    }
}

/// A hash marks a boundary exactly when its bits under the mask are all zero: the hash 0
/// always does, and any hash with a set bit under the mask never does.
pub proof fn law_boundary_is_zero_under_mask(mask: u64, h: u64)
    ensures
        boundary_spec(mask, 0),
        boundary_spec(mask, h) <==> h & mask == 0,
        h & mask != 0 ==> !boundary_spec(mask, h),
{
    assert(0u64 & mask == 0) by (bit_vector);
}

/// Under the mask of a target size, a hash marks a boundary exactly when it is a multiple of
/// the largest power of two not above the target, 2^floor(log2 target): about one hash in
/// that many cuts, so chunks average about the target size.
pub proof fn law_boundary_is_multiple_of_period(target: usize, h: u64)
    ensures
        boundary_spec(mask_spec(target as nat) as u64, h) <==> h as nat % vstd::arithmetic::power2::pow2(mask_bits(target as nat)) == 0,
        target >= 1 ==> vstd::arithmetic::power2::pow2(mask_bits(target as nat)) <= target < 2 * vstd::arithmetic::power2::pow2(
            mask_bits(target as nat),
        ),
{
    let k = mask_bits(target as nat);
    lemma_mask_is_power_of_two_less_one(target as nat);
    vstd::arithmetic::power2::lemma2_to64();
    vstd::arithmetic::power2::lemma2_to64_rest();
    if k >= 64 {
        if k > 64 {
            vstd::arithmetic::power2::lemma_pow2_strictly_increases(64, k);
        }
        assert(vstd::arithmetic::power2::pow2(k) >= 0x10000000000000000);
        if target >= 1 {
            assert(false);
        } else {
            vstd::arithmetic::power2::lemma_pow2_strictly_increases(0, k);
        }
    }
    assert(k < 64);
    assert(vstd::bits::low_bits_mask(k) == mask_spec(target as nat));
    vstd::bits::lemma_u64_low_bits_mask_is_mod(h, k);
    vstd::arithmetic::power2::lemma_pow2_pos(k);
    vstd::arithmetic::power2::lemma_pow2_strictly_increases(k, 64);
}

/// Computes the boundary mask for a target size.
fn mask_for(n: usize) -> (r: u64)
    ensures
        r == mask_spec(n as nat),
        n >= 1 ==> r < n,
    decreases n,
{
    if n < 2 {
        0
    } else {
        let h = mask_for(n / 2);
        2 * h + 1
    }
}

/// One reduction step, computed.
fn shift_step_exec(h: u64, poly: u64) -> (r: u64)
    ensures
        r == shift_step(h, poly),
{
    if h & TOP_BIT != 0 { (h << 1u64) ^ poly } else { h << 1u64 }
}

/// Feeds a byte into the hash bit by bit.
fn update_hash_raw(hash: u64, byte: u8, polynomial: u64) -> (r: u64)
    ensures
        r == raw_update(hash, byte, polynomial),
{
    let mut h = hash;
    let mut k: u32 = 8;
    while k > 0
        invariant
            k <= 8,
            raw_bits(h, byte, polynomial, k) == raw_update(hash, byte, polynomial),
        decreases k,
    {
        let bit: u32 = k - 1;
        h = shift_step_exec(h, polynomial);
        if byte & (1u8 << bit) != 0 {
            h = h ^ polynomial;
        }
        k = bit;
    }
    h
}

/// The modular reduction table.
fn compute_mod_table(polynomial: u64) -> (r: Vec<u64>)
    ensures
        r@.len() == 256,
        forall|j: int| 0 <= j < 256 ==> #[trigger] r@[j] == mod_entry(polynomial, j as u64),
{
    let mut table: Vec<u64> = Vec::new();
    let mut i: u64 = 0;
    while i < 256
        invariant
            i <= 256,
            table@.len() == i,
            forall|j: int| 0 <= j < i ==> #[trigger] table@[j] == mod_entry(polynomial, j as u64),
        decreases 256 - i,
    {
        let mut hash: u64 = i << 55u64;
        let mut k: u32 = 0;
        while k < 8
            invariant
                k <= 8,
                shift_steps(hash, polynomial, (8 - k) as nat) == mod_entry(polynomial, i),
            decreases 8 - k,
        {
            hash = shift_step_exec(hash, polynomial);
            k = k + 1;
        }
        table.push(hash);
        i = i + 1;
    }
    table
}

/// The window-removal table.
fn compute_out_table(polynomial: u64) -> (r: Vec<u64>)
    ensures
        r@.len() == 256,
        forall|j: int| 0 <= j < 256 ==> #[trigger] r@[j] == out_entry(polynomial, j as u8),
{
    let mut table: Vec<u64> = Vec::new();
    let mut i: u64 = 0;
    while i < 256
        invariant
            i <= 256,
            table@.len() == i,
            forall|j: int| 0 <= j < i ==> #[trigger] table@[j] == out_entry(polynomial, j as u8),
        decreases 256 - i,
    {
        let mut hash: u64 = update_hash_raw(0, i as u8, polynomial);
        let mut k: usize = 1;
        while k < WINDOW_SIZE
            invariant
                1 <= k <= WINDOW_SIZE,
                raw_zeros(hash, polynomial, (WINDOW_SIZE - k) as nat) == out_entry(polynomial, i as u8),
            decreases WINDOW_SIZE - k,
        {
            hash = update_hash_raw(hash, 0, polynomial);
            k = k + 1;
        }
        table.push(hash);
        i = i + 1;
    }
    table
}

/// Rabin fingerprint state: the polynomial, the boundary mask and the two lookup tables.
#[derive(Debug)]
pub struct RabinCore {
    polynomial: u64,
    mask: u64,
    mod_table: Vec<u64>,
    out_table: Vec<u64>,
}

impl View for RabinCore {
    type V = (u64, u64);

    /// The polynomial and the boundary mask; the tables are determined by the polynomial.
    closed spec fn view(&self) -> (u64, u64) {
        (self.polynomial, self.mask)
    }
}

impl RabinCore {
    #[verifier::type_invariant]
    spec fn tables_match(self) -> bool {
        &&& self.mod_table@.len() == 256
        &&& self.out_table@.len() == 256
        &&& forall|j: int| 0 <= j < 256 ==> #[trigger] self.mod_table@[j] == mod_entry(self.polynomial, j as u64)
        &&& forall|j: int| 0 <= j < 256 ==> #[trigger] self.out_table@[j] == out_entry(self.polynomial, j as u8)
    }

    /// A core with the IPFS polynomial.
    pub fn new(config: &ChunkingConfig) -> (r: Self)
        ensures
            r@ == (IPFS_POLYNOMIAL, mask_spec(config.target_size as nat) as u64),
    {
        Self::with_polynomial(config, IPFS_POLYNOMIAL)
    }

    /// A core with a custom polynomial; the mask is `2^floor(log2(target_size)) - 1`.
    pub fn with_polynomial(config: &ChunkingConfig, polynomial: u64) -> (r: Self)
        ensures
            r@ == (polynomial, mask_spec(config.target_size as nat) as u64),
    {
        let mask = mask_for(config.target_size);
        RabinCore {
            polynomial,
            mask,
            mod_table: compute_mod_table(polynomial),
            out_table: compute_out_table(polynomial),
        }
    }

    /// The polynomial used by this core.
    pub fn polynomial(&self) -> (r: u64)
        ensures
            r == self@.0,
    {
        self.polynomial
    }

    /// The boundary detection mask.
    pub fn mask(&self) -> (r: u64)
        ensures
            r == self@.1,
    {
        self.mask
    }

    /// Updates the rolling hash with a new byte (table-driven).
    pub fn update_hash(&self, hash: u64, byte: u8) -> (r: u64)
        ensures
            r == update_spec(self@.0, hash, byte),
    {
        proof { use_type_invariant(self); }
        assert(hash >> 56u64 < 256) by (bit_vector);
        let top = (hash >> 56u64) as usize;
        assert(self.mod_table@[top as int] == mod_entry(self.polynomial, hash >> 56u64));
        (hash << 8u64) ^ self.mod_table[top] ^ (byte as u64)
    }

    /// Slides the window: removes `out_byte`, adds `in_byte`.
    pub fn slide_hash(&self, hash: u64, out_byte: u8, in_byte: u8) -> (r: u64)
        ensures
            r == slide_spec(self@.0, hash, out_byte, in_byte),
    {
        proof { use_type_invariant(self); }
        let o = out_byte as usize;
        assert(self.out_table@[o as int] == out_entry(self.polynomial, out_byte));
        let h = hash ^ self.out_table[o];
        self.update_hash(h, in_byte)
    }

    /// Whether the hash marks a chunk boundary.
    pub fn is_boundary(&self, hash: u64) -> (r: bool)
        ensures
            r == boundary_spec(self@.1, hash),
            r <==> hash & self@.1 == 0,
    {
        (hash & self.mask) == 0
    }

    /// The size of the next chunk of `data`: the first length at which the hash marks a
    /// boundary at or past `min_size`, or `max_size`, or all of `data` (0 for empty data).
    pub fn find_boundary(&self, data: &[u8], min_size: usize, max_size: usize) -> (r: usize)
        ensures
            r == rabin_cut(self@.0, self@.1, data@, 0, min_size, max_size),
    {
        if data.len() == 0 {
            return 0;
        }
        let ghost poly = self@.0;
        let ghost mask = self@.1;
        let mut hash: u64 = 0;
        let mut i: usize = 0;
        while i < data.len()
            invariant
                0 < data@.len(),
                i <= data@.len(),
                poly == self@.0,
                mask == self@.1,
                hash == seg_hash(poly, data@, 0, i as nat),
                rabin_cut(poly, mask, data@, 0, min_size, max_size)
                    == cut_search(poly, mask, data@, 0, min_size, max_size, (i + 1) as nat),
            decreases data@.len() - i,
        {
            let byte = data[i];
            let chunk_len = i + 1;
            if i < WINDOW_SIZE {
                hash = self.update_hash(hash, byte);
            } else {
                hash = self.slide_hash(hash, data[i - WINDOW_SIZE], byte);
            }
            assert(hash == seg_hash(poly, data@, 0, chunk_len as nat));
            if self.is_boundary(hash) && chunk_len >= min_size {
                return chunk_len;
            }
            if chunk_len >= max_size {
                return chunk_len;
            }
            i = i + 1;
        }
        data.len()
    }
}

impl Clone for RabinCore {
    fn clone(&self) -> (r: Self)
        ensures
            r@ == self@,
    {
        proof { use_type_invariant(self); }
        let mut mod_table: Vec<u64> = Vec::new();
        let mut out_table: Vec<u64> = Vec::new();
        let mut i: usize = 0;
        while i < 256
            invariant
                i <= 256,
                self.mod_table@.len() == 256,
                self.out_table@.len() == 256,
                mod_table@ == self.mod_table@.subrange(0, i as int),
                out_table@ == self.out_table@.subrange(0, i as int),
            decreases 256 - i,
        {
            mod_table.push(self.mod_table[i]);
            out_table.push(self.out_table[i]);
            i = i + 1;
            assert(mod_table@ =~= self.mod_table@.subrange(0, i as int));
            assert(out_table@ =~= self.out_table@.subrange(0, i as int));
        }
        assert(mod_table@ =~= self.mod_table@);
        assert(out_table@ =~= self.out_table@);
        RabinCore { polynomial: self.polynomial, mask: self.mask, mod_table, out_table }
    }
}

} // verus!
