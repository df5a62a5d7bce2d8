//! Reading the DAG-CBOR items that manifests and tree nodes are made of. Only the canonical
//! form is accepted (shortest argument encodings), so an item read back is exactly the
//! encoding of what was read.

use vstd::prelude::*;
use vstd::string::*;

use crate::chunking::rabin::slice_to_vec;
use crate::dag_cbor::{be_bytes, cbor_bool, cbor_bytes, cbor_head, cbor_text, cbor_uint};
use crate::store::pow256;
use crate::text::str_equals;

verus! {

/// The value of big-endian bytes.
pub open spec fn be_value(b: Seq<u8>) -> nat
    decreases b.len(),
{
    if b.len() == 0 {
        0
    } else {
        be_value(b.drop_last()) * 256 + b.last() as nat
    }
}

/// The big-endian bytes of a value that fits read back as the value.
pub proof fn lemma_be_value_of_bytes(n: nat, w: nat)
    requires
        n < pow256(w),
    ensures
        be_bytes(n, w).len() == w,
        be_value(be_bytes(n, w)) == n,
    decreases w,
{
    if w > 0 {
        let q = n / 256;
        let r = n % 256;
        assert(n == 256 * q + r && r < 256) by (nonlinear_arith)
            requires q == n / 256, r == n % 256;
        assert(q < pow256((w - 1) as nat)) by (nonlinear_arith)
            requires n == 256 * q + r, r >= 0, n < 256 * pow256((w - 1) as nat);
        lemma_be_value_of_bytes(q, (w - 1) as nat);
        let b = be_bytes(n, w);
        assert(b.drop_last() == be_bytes(q, (w - 1) as nat));
        assert(b.last() == r as u8);
    } else {
        assert(n == 0);
    }
}

/// Bytes are the big-endian bytes of their value, which fits in them.
pub proof fn lemma_bytes_of_be_value(b: Seq<u8>)
    ensures
        be_value(b) < pow256(b.len()),
        be_bytes(be_value(b), b.len()) == b,
    decreases b.len(),
{
    if b.len() > 0 {
        let p = b.drop_last();
        lemma_bytes_of_be_value(p);
        let v = be_value(b);
        let x = be_value(p);
        let y = b.last() as nat;
        assert(v == x * 256 + y);
        assert(v / 256 == x && v % 256 == y) by (nonlinear_arith)
            requires v == x * 256 + y, y < 256;
        assert(v < pow256(b.len())) by (nonlinear_arith)
            requires v == x * 256 + y, y < 256, x < pow256(p.len()), pow256(b.len()) == 256 * pow256(p.len());
        assert(be_bytes(v, b.len()) =~= be_bytes(x, p.len()).push(y as u8));
        assert(b =~= p.push(b.last()));
    }
}

/// Reads `w` bytes at `start` as a big-endian value.
fn read_be(b: &[u8], start: usize, w: usize) -> (r: u64)
    requires
        w <= 8,
        start + w <= b@.len(),
    ensures
        r as nat == be_value(b@.subrange(start as int, start + w)),
{
    let len = b.len();
    let mut v: u64 = 0;
    let mut i: usize = 0;
    proof {
        assert(b@.subrange(start as int, start as int) =~= Seq::<u8>::empty());
        reveal_with_fuel(pow256, 9);
    }
    while i < w
        invariant
            w <= 8,
            len == b@.len(),
            start + w <= b@.len(),
            i <= w,
            v as nat == be_value(b@.subrange(start as int, start + i)),
            v < pow256(i as nat),
            pow256(8) == 0x1_0000_0000_0000_0000,
        decreases w - i,
    {
        let byte = b[start + i];
        proof {
            let s = b@.subrange(start as int, start + i + 1);
            assert(s.drop_last() =~= b@.subrange(start as int, start + i));
            assert(s.last() == byte);
            lemma_pow_monotone((i + 1) as nat, 8);
            assert(v * 256 + byte < pow256((i + 1) as nat)) by (nonlinear_arith)
                requires v < pow256(i as nat), byte < 256, pow256((i + 1) as nat) == 256 * pow256(i as nat);
        }
        v = v * 256 + byte as u64;
        i = i + 1;
    }
    v
}

/// Powers of 256 grow with the exponent.
proof fn lemma_pow_monotone(a: nat, b: nat)
    requires
        a <= b,
    ensures
        pow256(a) <= pow256(b),
    decreases b - a,
{
    if a < b {
        lemma_pow_monotone(a, (b - 1) as nat);
        assert(pow256(b) == 256 * pow256((b - 1) as nat));
    }
}

/// The low five bits of a head's first byte for argument `n`.
pub open spec fn head_info(n: nat) -> nat {
    if n < 24 {
        n
    } else if n < 0x100 {
        24
    } else if n < 0x1_0000 {
        25
    } else if n < 0x1_0000_0000 {
        26
    } else {
        27
    }
}

/// How many bytes follow a head's first byte for argument `n`.
pub open spec fn head_width(n: nat) -> nat {
    if n < 24 {
        0
    } else if n < 0x100 {
        1
    } else if n < 0x1_0000 {
        2
    } else if n < 0x1_0000_0000 {
        4
    } else {
        8
    }
}

/// A head is its first byte followed by the argument's big-endian bytes, which hold it.
proof fn lemma_head_shape(m: u8, n: nat)
    requires
        m < 8,
        n < 0x1_0000_0000_0000_0000,
    ensures
        cbor_head(m, n) == seq![(m * 32 + head_info(n)) as u8] + be_bytes(n, head_width(n)),
        be_bytes(n, head_width(n)).len() == head_width(n),
        head_width(n) > 0 ==> n < pow256(head_width(n)),
        head_info(n) < 28,
{
    reveal_with_fuel(pow256, 9);
    if n < 24 {
        assert(be_bytes(n, 0) =~= Seq::<u8>::empty());
        assert(cbor_head(m, n) =~= seq![(m * 32 + head_info(n)) as u8] + be_bytes(n, head_width(n)));
    } else if n < 0x100 {
        assert(be_bytes(n, 1) =~= seq![n as u8]) by {
            reveal_with_fuel(be_bytes, 2);
        }
        assert(cbor_head(m, n) =~= seq![(m * 32 + head_info(n)) as u8] + be_bytes(n, head_width(n)));
    } else {
        lemma_be_value_of_bytes(n, head_width(n));
    }
}

/// Whether the item at `pos` of `s` starts with exactly the head `(major, n)`.
pub open spec fn head_at(s: Seq<u8>, pos: int, major: u8, n: nat) -> bool {
    &&& 0 <= pos
    &&& pos + cbor_head(major, n).len() <= s.len()
    &&& s.subrange(pos, pos + cbor_head(major, n).len()) == cbor_head(major, n)
}

/// A head found at `pos` has the first byte and the argument bytes there.
proof fn lemma_head_at_parts(s: Seq<u8>, pos: int, m: u8, n: nat)
    requires
        m < 8,
        n < 0x1_0000_0000_0000_0000,
        head_at(s, pos, m, n),
    ensures
        s[pos] == (m * 32 + head_info(n)) as u8,
        pos + 1 + head_width(n) <= s.len(),
        s.subrange(pos + 1, pos + 1 + head_width(n)) == be_bytes(n, head_width(n)),
        cbor_head(m, n).len() == 1 + head_width(n),
{
    lemma_head_shape(m, n);
    let h = cbor_head(m, n);
    assert(s.subrange(pos, pos + h.len())[0] == h[0]);
    assert(s.subrange(pos + 1, pos + 1 + head_width(n)) =~= s.subrange(pos, pos + h.len()).subrange(1, h.len() as int));
    assert(h.subrange(1, h.len() as int) =~= be_bytes(n, head_width(n)));
}

/// The head at `pos`: major type, argument, and where the item's content starts. Only the
/// shortest form of the argument is accepted.
pub fn read_head(b: &[u8], pos: usize) -> (r: Option<(u8, u64, usize)>)
    ensures
        r matches Some((m, n, p)) ==> m < 8 && p == pos + cbor_head(m, n as nat).len() && head_at(b@, pos as int, m, n as nat),
        forall|m: u8, n: u64| m < 8 && #[trigger] head_at(b@, pos as int, m, n as nat) ==> r == Some((m, n, (pos + cbor_head(m, n as nat).len()) as usize)),
{
    let len = b.len();
    if pos >= len {
        proof {
            assert forall|m: u8, n: u64| m < 8 && #[trigger] head_at(b@, pos as int, m, n as nat) implies false by {
                lemma_head_at_parts(b@, pos as int, m, n as nat);
            }
        }
        return None;
    }
    let b0 = b[pos];
    let m = b0 / 32;
    let info = b0 % 32;
    proof {
        assert(b0 == m * 32 + info);
        assert forall|mm: u8, n: u64| mm < 8 && #[trigger] head_at(b@, pos as int, mm, n as nat) implies mm == m && info == head_info(n as nat) by {
            lemma_head_at_parts(b@, pos as int, mm, n as nat);
        }
    }
    if info < 24 {
        let n = info as u64;
        proof {
            lemma_head_shape(m, n as nat);
            assert(b@.subrange(pos as int, pos + 1) =~= seq![b0]);
            assert(cbor_head(m, n as nat) =~= seq![b0]);
            assert forall|mm: u8, nn: u64| mm < 8 && #[trigger] head_at(b@, pos as int, mm, nn as nat) implies mm == m && nn == n by {
                lemma_head_at_parts(b@, pos as int, mm, nn as nat);
            }
        }
        return Some((m, n, pos + 1));
    }
    if info > 27 {
        return None;
    }
    let w: usize = if info == 24 { 1 } else if info == 25 { 2 } else if info == 26 { 4 } else { 8 };
    if w > len - pos - 1 {
        proof {
            assert forall|mm: u8, n: u64| mm < 8 && #[trigger] head_at(b@, pos as int, mm, n as nat) implies false by {
                lemma_head_at_parts(b@, pos as int, mm, n as nat);
            }
        }
        return None;
    }
    let v = read_be(b, pos + 1, w);
    let least: u64 = if w == 1 { 24 } else if w == 2 { 0x100 } else if w == 4 { 0x1_0000 } else { 0x1_0000_0000 };
    let ghost body = b@.subrange(pos + 1, pos + 1 + w);
    proof {
        lemma_bytes_of_be_value(body);
        reveal_with_fuel(pow256, 9);
        assert forall|mm: u8, n: u64| mm < 8 && #[trigger] head_at(b@, pos as int, mm, n as nat) implies n == v by {
            lemma_head_at_parts(b@, pos as int, mm, n as nat);
            lemma_head_shape(mm, n as nat);
            lemma_be_value_of_bytes(n as nat, w as nat);
        }
    }
    if v < least {
        return None;
    }
    proof {
        lemma_head_shape(m, v as nat);
        assert(head_width(v as nat) == w);
        assert(cbor_head(m, v as nat) =~= seq![b0] + body);
        assert(b@.subrange(pos as int, pos + 1 + w) =~= seq![b0] + body);
    }
    Some((m, v, pos + 1 + w))
}

/// Whether the bytes of `s` from `pos` on start with `e`.
pub open spec fn item_at(s: Seq<u8>, pos: int, e: Seq<u8>) -> bool {
    &&& 0 <= pos
    &&& pos + e.len() <= s.len()
    &&& s.subrange(pos, pos + e.len()) == e
}

/// An item found at `pos` starts with its head, and its content follows.
pub proof fn lemma_item_split(s: Seq<u8>, pos: int, h: Seq<u8>, c: Seq<u8>)
    requires
        item_at(s, pos, h + c),
    ensures
        item_at(s, pos, h),
        item_at(s, pos + h.len(), c),
{
    let w = s.subrange(pos, pos + (h + c).len());
    assert(w == h + c);
    assert forall|k: int| 0 <= k < h.len() implies #[trigger] s.subrange(pos, pos + h.len())[k] == h[k] by {
        assert(w[k] == s[pos + k]);
        assert((h + c)[k] == h[k]);
    }
    assert(s.subrange(pos, pos + h.len()) =~= h);
    assert forall|k: int| 0 <= k < c.len() implies #[trigger] s.subrange(pos + h.len(), pos + h.len() + c.len())[k] == c[k] by {
        assert(w[h.len() + k] == s[pos + h.len() + k]);
        assert((h + c)[h.len() + k] == c[k]);
    }
    assert(s.subrange(pos + h.len(), pos + h.len() + c.len()) =~= c);
}

/// Two consecutive items form one.
pub proof fn lemma_item_join(s: Seq<u8>, pos: int, h: Seq<u8>, c: Seq<u8>)
    requires
        item_at(s, pos, h),
        item_at(s, pos + h.len(), c),
    ensures
        item_at(s, pos, h + c),
{
    assert(s.subrange(pos, pos + h.len() + c.len()) =~= s.subrange(pos, pos + h.len()) + s.subrange(pos + h.len(), pos + h.len() + c.len()));
}

/// Checks and converts UTF-8 bytes, by `std::str::from_utf8` and `ToString::to_string`.
/// Claimed: the bytes are accepted exactly when they are valid UTF-8 (the condition the
/// documentation gives, as `vstd::utf8::valid_utf8` states it), and the text is what they
/// decode to.
#[verifier::external_body]
fn utf8_text(bytes: &[u8]) -> (r: Option<String>)
    ensures
        r is Some <==> vstd::utf8::valid_utf8(bytes@),
        r matches Some(t) ==> t@ == vstd::utf8::decode_utf8(bytes@),
{
    match std::str::from_utf8(bytes) {
        Ok(t) => Some(t.to_string()),
        Err(_) => None,
    }
}

/// The unsigned integer at `pos`, and where the next item starts.
pub fn read_uint(b: &[u8], pos: usize) -> (r: Option<(u64, usize)>)
    ensures
        r matches Some((n, p)) ==> item_at(b@, pos as int, cbor_uint(n as nat)) && p == pos + cbor_uint(n as nat).len(),
        forall|n: u64| #[trigger] item_at(b@, pos as int, cbor_uint(n as nat)) ==> r == Some((n, (pos + cbor_uint(n as nat).len()) as usize)),
{
    proof {
        assert forall|n: u64| #[trigger] item_at(b@, pos as int, cbor_uint(n as nat)) implies head_at(b@, pos as int, 0, n as nat) by {}
    }
    match read_head(b, pos) {
        Some((m, n, p)) => {
            if m == 0 {
                Some((n, p))
            } else {
                None
            }
        },
        None => None,
    }
}

/// The content of `len` bytes that follows a head ending at `start`, if there are that many.
fn read_content(b: &[u8], start: usize, len: u64) -> (r: Option<Vec<u8>>)
    requires
        start <= b@.len(),
    ensures
        r matches Some(v) ==> v@.len() == len && item_at(b@, start as int, v@),
        r is None ==> start + len > b@.len(),
{
    if len > (b.len() - start) as u64 {
        return None;
    }
    let v = slice_to_vec(b, start, start + len as usize);
    Some(v)
}

/// The byte string at `pos`, and where the next item starts.
pub fn read_bytes(b: &[u8], pos: usize) -> (r: Option<(Vec<u8>, usize)>)
    ensures
        r matches Some((v, p)) ==> item_at(b@, pos as int, cbor_bytes(v@)) && p == pos + cbor_bytes(v@).len(),
        forall|x: Seq<u8>| #[trigger] item_at(b@, pos as int, cbor_bytes(x)) ==> (r matches Some((v, p)) && v@ == x && p == pos
            + cbor_bytes(x).len()),
{
    let len = b.len();
    proof {
        assert forall|x: Seq<u8>| #[trigger] item_at(b@, pos as int, cbor_bytes(x)) implies head_at(b@, pos as int, 2, x.len()) && item_at(
            b@,
            pos + cbor_head(2, x.len()).len(),
            x,
        ) by {
            lemma_item_split(b@, pos as int, cbor_head(2, x.len()), x);
        }
    }
    match read_head(b, pos) {
        Some((m, n, p)) => {
            if m != 2 {
                return None;
            }
            match read_content(b, p, n) {
                Some(v) => {
                    proof {
                        lemma_item_join(b@, pos as int, cbor_head(2, n as nat), v@);
                        assert forall|x: Seq<u8>| #[trigger] item_at(b@, pos as int, cbor_bytes(x)) implies v@ == x by {
                            assert(x.len() == n);
                            assert(b@.subrange(p as int, p + x.len()) == x);
                        }
                    }
                    Some((v, p + n as usize))
                },
                None => None,
            }
        },
        None => None,
    }
}

/// The text string at `pos`, and where the next item starts.
pub fn read_text(b: &[u8], pos: usize) -> (r: Option<(String, usize)>)
    ensures
        r matches Some((t, p)) ==> item_at(b@, pos as int, cbor_text(t@)) && p == pos + cbor_text(t@).len(),
        forall|x: Seq<char>| #[trigger] item_at(b@, pos as int, cbor_text(x)) ==> (r matches Some((t, p)) && t@ == x && p == pos
            + cbor_text(x).len()),
{
    let len = b.len();
    proof {
        assert forall|x: Seq<char>| #[trigger] item_at(b@, pos as int, cbor_text(x)) implies head_at(
            b@,
            pos as int,
            3,
            vstd::utf8::encode_utf8(x).len(),
        ) && item_at(b@, pos + cbor_head(3, vstd::utf8::encode_utf8(x).len()).len(), vstd::utf8::encode_utf8(x)) by {
            lemma_item_split(b@, pos as int, cbor_head(3, vstd::utf8::encode_utf8(x).len()), vstd::utf8::encode_utf8(x));
        }
    }
    match read_head(b, pos) {
        Some((m, n, p)) => {
            if m != 3 {
                return None;
            }
            match read_content(b, p, n) {
                Some(v) => {
                    match utf8_text(v.as_slice()) {
                        Some(t) => {
                            proof {
                                vstd::utf8::decode_utf8_encode_utf8(v@);
                                lemma_item_join(b@, pos as int, cbor_head(3, n as nat), v@);
                                assert forall|x: Seq<char>| #[trigger] item_at(b@, pos as int, cbor_text(x)) implies t@ == x by {
                                    let e = vstd::utf8::encode_utf8(x);
                                    assert(e.len() == n);
                                    assert(b@.subrange(p as int, p + e.len()) == e);
                                    assert(v@ == e);
                                    vstd::utf8::encode_utf8_decode_utf8(x);
                                }
                            }
                            Some((t, p + n as usize))
                        },
                        None => {
                            proof {
                                assert forall|x: Seq<char>| #[trigger] item_at(b@, pos as int, cbor_text(x)) implies false by {
                                    let e = vstd::utf8::encode_utf8(x);
                                    assert(b@.subrange(p as int, p + e.len()) == e);
                                    assert(v@ == e);
                                    vstd::utf8::encode_utf8_valid_utf8(x);
                                }
                            }
                            None
                        },
                    }
                },
                None => None,
            }
        },
        None => None,
    }
}

/// The boolean at `pos`, and where the next item starts.
pub fn read_bool(b: &[u8], pos: usize) -> (r: Option<(bool, usize)>)
    ensures
        r matches Some((v, p)) ==> item_at(b@, pos as int, cbor_bool(v)) && p == pos + 1,
        forall|v: bool| #[trigger] item_at(b@, pos as int, cbor_bool(v)) ==> r == Some((v, (pos + 1) as usize)),
{
    if pos >= b.len() {
        return None;
    }
    let x = b[pos];
    proof {
        assert(b@.subrange(pos as int, pos + 1) =~= seq![x]);
        assert forall|v: bool| #[trigger] item_at(b@, pos as int, cbor_bool(v)) implies x == (if v { 0xf5u8 } else { 0xf4u8 }) by {
            assert(b@.subrange(pos as int, pos + 1)[0] == cbor_bool(v)[0]);
        }
    }
    if x == 0xf5 {
        Some((true, pos + 1))
    } else if x == 0xf4 {
        Some((false, pos + 1))
    } else {
        None
    }
}

/// Where the next item starts when the item at `pos` is the text `key`; `None` otherwise.
pub fn expect_text(b: &[u8], pos: usize, key: &str) -> (r: Option<usize>)
    ensures
        r matches Some(p) ==> item_at(b@, pos as int, cbor_text(key@)) && p == pos + cbor_text(key@).len(),
        item_at(b@, pos as int, cbor_text(key@)) ==> r == Some((pos + cbor_text(key@).len()) as usize),
        forall|x: Seq<char>| x != key@ && #[trigger] item_at(b@, pos as int, cbor_text(x)) ==> r is None,
{
    match read_text(b, pos) {
        Some((t, p)) => {
            if str_equals(t.as_str(), key) {
                Some(p)
            } else {
                None
            }
        },
        None => None,
    }
}

/// Where the item's content starts when the head at `pos` is exactly `(major, n)`; `None`
/// otherwise.
pub fn expect_head(b: &[u8], pos: usize, major: u8, n: u64) -> (r: Option<usize>)
    requires
        major < 8,
    ensures
        r matches Some(p) ==> head_at(b@, pos as int, major, n as nat) && p == pos + cbor_head(major, n as nat).len(),
        head_at(b@, pos as int, major, n as nat) ==> r == Some((pos + cbor_head(major, n as nat).len()) as usize),
{
    match read_head(b, pos) {
        Some((m, v, p)) => {
            if m == major && v == n {
                Some(p)
            } else {
                None
            }
        },
        None => None,
    }
}

/// The whole input is an item at its start.
pub proof fn lemma_whole(s: Seq<u8>, e: Seq<u8>)
    ensures
        item_at(s, 0, e) && e.len() == s.len() <==> s == e,
{
    if s == e {
        assert(s.subrange(0, s.len() as int) =~= s);
    }
    if item_at(s, 0, e) && e.len() == s.len() {
        assert(s.subrange(0, s.len() as int) =~= s);
    }
}

} // verus!
