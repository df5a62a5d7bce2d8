//! The DAG-CBOR encoding of the values that manifests are made of: unsigned integers,
//! byte strings, text strings, booleans, and the heads of arrays and maps.

use vstd::prelude::*;
use vstd::string::*;

verus! {

/// The `w` low bytes of `n`, most significant first.
pub open spec fn be_bytes(n: nat, w: nat) -> Seq<u8>
    decreases w,
{
    if w == 0 {
        Seq::empty()
    } else {
        be_bytes(n / 256, (w - 1) as nat).push((n % 256) as u8)
    }
}

/// The head of a CBOR data item: the major type and its argument, in the shortest form.
pub open spec fn cbor_head(major: u8, n: nat) -> Seq<u8> {
    if n < 24 {
        seq![(major * 32 + n) as u8]
    } else if n < 0x100 {
        seq![(major * 32 + 24) as u8, n as u8]
    } else if n < 0x1_0000 {
        seq![(major * 32 + 25) as u8] + be_bytes(n, 2)
    } else if n < 0x1_0000_0000 {
        seq![(major * 32 + 26) as u8] + be_bytes(n, 4)
    } else {
        seq![(major * 32 + 27) as u8] + be_bytes(n, 8)
    }
}

/// An unsigned integer.
pub open spec fn cbor_uint(n: nat) -> Seq<u8> {
    cbor_head(0, n)
}

/// A byte string.
pub open spec fn cbor_bytes(b: Seq<u8>) -> Seq<u8> {
    cbor_head(2, b.len()) + b
}

/// A text string, as its UTF-8 bytes.
pub open spec fn cbor_text(s: Seq<char>) -> Seq<u8> {
    cbor_head(3, vstd::utf8::encode_utf8(s).len()) + vstd::utf8::encode_utf8(s)
}

/// The head of an array of `n` items.
pub open spec fn cbor_array_head(n: nat) -> Seq<u8> {
    cbor_head(4, n)
}

/// The head of a map of `n` entries.
pub open spec fn cbor_map_head(n: nat) -> Seq<u8> {
    cbor_head(5, n)
}

/// A boolean.
pub open spec fn cbor_bool(b: bool) -> Seq<u8> {
    if b { seq![0xf5u8] } else { seq![0xf4u8] }
}

/// Byte strings one after the other.
pub open spec fn cbor_byte_items(items: Seq<Seq<u8>>) -> Seq<u8>
    decreases items.len(),
{
    if items.len() == 0 {
        Seq::empty()
    } else {
        cbor_byte_items(items.drop_last()) + cbor_bytes(items.last())
    }
}

/// Appends the `w` low bytes of `n`, most significant first.
pub fn push_be(out: &mut Vec<u8>, n: u64, w: usize)
    requires
        w <= 8,
    ensures
        final(out)@ == old(out)@ + be_bytes(n as nat, w as nat),
    decreases w,
{
    if w > 0 {
        push_be(out, n / 256, w - 1);
        out.push((n % 256) as u8);
    }
}

/// Appends the head of a data item.
pub fn push_head(out: &mut Vec<u8>, major: u8, n: u64)
    requires
        major < 8,
    ensures
        final(out)@ == old(out)@ + cbor_head(major, n as nat),
{
    let base: u8 = major * 32;
    if n < 24 {
        out.push(base + n as u8);
    } else if n < 0x100 {
        out.push(base + 24);
        out.push(n as u8);
    } else if n < 0x1_0000 {
        out.push(base + 25);
        push_be(out, n, 2);
    } else if n < 0x1_0000_0000 {
        out.push(base + 26);
        push_be(out, n, 4);
    } else {
        out.push(base + 27);
        push_be(out, n, 8);
    }
    assert(final(out)@ =~= old(out)@ + cbor_head(major, n as nat)) by {
        reveal_with_fuel(be_bytes, 9);
    }
}

/// Appends raw bytes.
pub fn push_raw(out: &mut Vec<u8>, b: &[u8])
    ensures
        final(out)@ == old(out)@ + b@,
{
    let mut i: usize = 0;
    while i < b.len()
        invariant
            i <= b@.len(),
            out@ == old(out)@ + b@.subrange(0, i as int),
        decreases b@.len() - i,
    {
        out.push(b[i]);
        i = i + 1;
        assert(out@ =~= old(out)@ + b@.subrange(0, i as int));
    }
    assert(b@.subrange(0, b@.len() as int) =~= b@);
}

/// Appends a byte string.
pub fn push_bytes(out: &mut Vec<u8>, b: &[u8])
    ensures
        final(out)@ == old(out)@ + cbor_bytes(b@),
{
    push_head(out, 2, b.len() as u64);
    push_raw(out, b);
    assert(final(out)@ =~= old(out)@ + cbor_bytes(b@));
}

/// Appends a text string.
pub fn push_text(out: &mut Vec<u8>, s: &str)
    ensures
        final(out)@ == old(out)@ + cbor_text(s@),
{
    let b = s.as_bytes();
    push_head(out, 3, b.len() as u64);
    push_raw(out, b);
    assert(final(out)@ =~= old(out)@ + cbor_text(s@));
}

/// Appends an unsigned integer.
pub fn push_uint(out: &mut Vec<u8>, n: u64)
    ensures
        final(out)@ == old(out)@ + cbor_uint(n as nat),
{
    push_head(out, 0, n);
}

/// Appends a boolean.
pub fn push_bool(out: &mut Vec<u8>, b: bool)
    ensures
        final(out)@ == old(out)@ + cbor_bool(b),
{
    if b {
        out.push(0xf5);
    } else {
        out.push(0xf4);
    }
    assert(final(out)@ =~= old(out)@ + cbor_bool(b));
}

/// Lexicographic order on byte strings: `a` comes strictly before `b`.
pub open spec fn bytes_before(a: Seq<u8>, b: Seq<u8>) -> bool
    decreases a.len(),
{
    if a.len() == 0 {
        b.len() > 0
    } else if b.len() == 0 {
        false
    } else if a[0] != b[0] {
        a[0] < b[0]
    } else {
        bytes_before(a.drop_first(), b.drop_first())
    }
}

proof fn lemma_same_head_tail(a: Seq<u8>, b: Seq<u8>)
    requires
        a.len() > 0,
        b.len() > 0,
        a[0] == b[0],
        a.drop_first() == b.drop_first(),
    ensures
        a == b,
{
    assert(a.drop_first().len() == a.len() - 1);
    assert(b.drop_first().len() == b.len() - 1);
    assert(a.len() == b.len());
    assert forall|i: int| 0 <= i < a.len() implies a[i] == b[i] by {
        if i > 0 {
            assert(a[i] == a.drop_first()[i - 1]);
            assert(b[i] == b.drop_first()[i - 1]);
        }
    }
    assert(a =~= b);
}

/// `bytes_before` is a strict total order.
pub proof fn lemma_bytes_before_order(a: Seq<u8>, b: Seq<u8>, c: Seq<u8>)
    ensures
        !bytes_before(a, a),
        a != b ==> (bytes_before(a, b) || bytes_before(b, a)),
        bytes_before(a, b) ==> !bytes_before(b, a),
        bytes_before(a, b) && bytes_before(b, c) ==> bytes_before(a, c),
    decreases a.len(),
{
    if a.len() > 0 {
        let t = if b.len() > 0 { b.drop_first() } else { b };
        let u = if c.len() > 0 { c.drop_first() } else { c };
        lemma_bytes_before_order(a.drop_first(), t, u);
        if b.len() > 0 && a[0] == b[0] && a.drop_first() == b.drop_first() {
            lemma_same_head_tail(a, b);
        }
    } else if b.len() == 0 {
        assert(a =~= b);
    }
}

/// Compares two byte strings lexicographically.
pub fn bytes_less(a: &[u8], b: &[u8]) -> (r: bool)
    ensures
        r == bytes_before(a@, b@),
{
    let mut i: usize = 0;
    assert(a@.skip(0) =~= a@);
    assert(b@.skip(0) =~= b@);
    while i < a.len() && i < b.len()
        invariant
            i <= a@.len(),
            i <= b@.len(),
            bytes_before(a@, b@) == bytes_before(a@.skip(i as int), b@.skip(i as int)),
        decreases a@.len() - i,
    {
        if a[i] != b[i] {
            assert(a@.skip(i as int)[0] == a@[i as int]);
            assert(b@.skip(i as int)[0] == b@[i as int]);
            return a[i] < b[i];
        }
        assert(a@.skip(i as int).drop_first() =~= a@.skip(i + 1));
        assert(b@.skip(i as int).drop_first() =~= b@.skip(i + 1));
        i = i + 1;
    }
    assert(a@.skip(i as int).len() == a@.len() - i);
    i < b.len()
}

} // verus!
