//! Key-value metadata of a manifest, kept in the canonical DAG-CBOR key order.

use vstd::prelude::*;

use crate::dag_cbor::{bytes_before, bytes_less, cbor_text, lemma_bytes_before_order, push_text};

verus! {

/// The text views of key-value pairs.
pub open spec fn pairs_view(s: Seq<(String, String)>) -> Seq<(Seq<char>, Seq<char>)> {
    s.map_values(|p: (String, String)| (p.0@, p.1@))
}

/// Keys in strictly increasing canonical order: by the bytes of their CBOR encoding (length
/// first, then byte by byte), so that no key occurs twice.
pub open spec fn keys_ordered(s: Seq<(Seq<char>, Seq<char>)>) -> bool {
    forall|i: int, j: int| 0 <= i < j < s.len() ==> bytes_before(#[trigger] cbor_text(s[i].0), #[trigger] cbor_text(s[j].0))
}

/// Whether `key` occurs among the pairs.
pub open spec fn has_key(s: Seq<(Seq<char>, Seq<char>)>, key: Seq<char>) -> bool {
    exists|i: int| 0 <= i < s.len() && #[trigger] s[i].0 == key
}

/// The value stored under `key`, if any, in ordered pairs (where each key occurs at most once).
pub open spec fn value_of(s: Seq<(Seq<char>, Seq<char>)>, key: Seq<char>) -> Option<Seq<char>>
    decreases s.len(),
{
    if s.len() == 0 {
        None
    } else if s[0].0 == key {
        Some(s[0].1)
    } else {
        value_of(s.drop_first(), key)
    }
}

/// Extensible key-value metadata (text keys and values).
#[derive(Debug, PartialEq, Eq)]
pub struct Metadata {
    entries: Vec<(String, String)>,
}

impl View for Metadata {
    type V = Seq<(Seq<char>, Seq<char>)>;

    closed spec fn view(&self) -> Seq<(Seq<char>, Seq<char>)> {
        pairs_view(self.entries@)
    }
}

proof fn lemma_pairs_view_insert(s: Seq<(String, String)>, i: int, p: (String, String))
    requires
        0 <= i <= s.len(),
    ensures
        pairs_view(s.insert(i, p)) == pairs_view(s).insert(i, (p.0@, p.1@)),
{
    assert(pairs_view(s.insert(i, p)) =~= pairs_view(s).insert(i, (p.0@, p.1@)));
}

proof fn lemma_pairs_view_update(s: Seq<(String, String)>, i: int, p: (String, String))
    requires
        0 <= i < s.len(),
    ensures
        pairs_view(s.update(i, p)) == pairs_view(s).update(i, (p.0@, p.1@)),
{
    assert(pairs_view(s.update(i, p)) =~= pairs_view(s).update(i, (p.0@, p.1@)));
}

/// In ordered pairs, the value of a key found at index `i` is the value there.
pub proof fn lemma_value_at(s: Seq<(Seq<char>, Seq<char>)>, i: int)
    requires
        keys_ordered(s),
        0 <= i < s.len(),
    ensures
        value_of(s, s[i].0) == Some(s[i].1),
    decreases s.len(),
{
    if i > 0 {
        let t = s.drop_first();
        assert(keys_ordered(t)) by {
            assert forall|a: int, b: int| 0 <= a < b < t.len() implies bytes_before(#[trigger] cbor_text(t[a].0), #[trigger] cbor_text(t[b].0)) by {
                assert(t[a] == s[a + 1] && t[b] == s[b + 1]);
            }
        }
        assert(s[0].0 != s[i].0) by {
            assert(bytes_before(cbor_text(s[0].0), cbor_text(s[i].0)));
            lemma_bytes_before_order(cbor_text(s[0].0), cbor_text(s[0].0), cbor_text(s[0].0));
        }
        lemma_value_at(t, i - 1);
    }
}

/// Appending a pair with another key leaves the value of `k` as it was.
pub proof fn lemma_value_push_other(s: Seq<(Seq<char>, Seq<char>)>, x: (Seq<char>, Seq<char>), k: Seq<char>)
    requires
        x.0 != k,
    ensures
        value_of(s.push(x), k) == value_of(s, k),
    decreases s.len(),
{
    let t = s.push(x);
    if s.len() > 0 {
        assert(t[0] == s[0]);
        assert(t.drop_first() =~= s.drop_first().push(x));
        lemma_value_push_other(s.drop_first(), x, k);
        if s[0].0 != k {
            assert(value_of(t, k) == value_of(t.drop_first(), k));
            assert(value_of(s, k) == value_of(s.drop_first(), k));
        }
    } else {
        assert(t.drop_first() =~= s);
        assert(t[0] == x);
        assert(value_of(t, k) == value_of(t.drop_first(), k));
    }
}

/// A key that does not occur has no value.
pub proof fn lemma_value_absent(s: Seq<(Seq<char>, Seq<char>)>, key: Seq<char>)
    requires
        !has_key(s, key),
    ensures
        value_of(s, key) is None,
    decreases s.len(),
{
    if s.len() > 0 {
        assert(s[0].0 != key);
        let t = s.drop_first();
        assert(!has_key(t, key)) by {
            if has_key(t, key) {
                let j = choose|j: int| 0 <= j < t.len() && #[trigger] t[j].0 == key;
                assert(s[j + 1].0 == key);
            }
        }
        lemma_value_absent(t, key);
    }
}

impl Metadata {
    #[verifier::type_invariant]
    spec fn inv(self) -> bool {
        keys_ordered(pairs_view(self.entries@))
    }

    /// Empty metadata.
    pub fn new() -> (r: Self)
        ensures
            r@ == Seq::<(Seq<char>, Seq<char>)>::empty(),
    {
        let m = Metadata { entries: Vec::new() };
        assert(pairs_view(m.entries@) =~= Seq::<(Seq<char>, Seq<char>)>::empty());
        m
    }

    /// Metadata holding entries already in canonical key order.
    pub(crate) fn from_ordered(entries: Vec<(String, String)>) -> (r: Self)
        requires
            keys_ordered(pairs_view(entries@)),
        ensures
            r@ == pairs_view(entries@),
    {
        Metadata { entries }
    }

    /// The number of entries.
    pub fn len(&self) -> (r: usize)
        ensures
            r == self@.len(),
    {
        self.entries.len()
    }

    /// Whether there are no entries.
    pub fn is_empty(&self) -> (r: bool)
        ensures
            r == (self@.len() == 0),
    {
        self.entries.len() == 0
    }

    /// The entries are in canonical key order, each key once.
    pub fn entries(&self) -> (r: &Vec<(String, String)>)
        ensures
            pairs_view(r@) == self@,
            keys_ordered(self@),
    {
        proof { use_type_invariant(self); }
        &self.entries
    }

    /// The value stored under `key`.
    pub fn get(&self, key: &str) -> (r: Option<&str>)
        ensures
            keys_ordered(self@),
            match value_of(self@, key@) {
                Some(v) => r matches Some(x) && x@ == v,
                None => r is None,
            },
    {
        proof { use_type_invariant(self); }
        let wanted: String = key.to_owned();
        let mut i: usize = 0;
        while i < self.entries.len()
            invariant
                i <= self.entries@.len(),
                keys_ordered(self@),
                self@ == pairs_view(self.entries@),
                wanted@ == key@,
                forall|j: int| 0 <= j < i ==> self@[j].0 != key@,
            decreases self.entries@.len() - i,
        {
            if self.entries[i].0 == wanted {
                proof { lemma_value_at(self@, i as int); }
                return Some(self.entries[i].1.as_str());
            }
            i = i + 1;
        }
        proof { lemma_value_absent(self@, key@); }
        None
    }

    /// Sets the value of `key`, replacing an earlier value; the entries stay in canonical
    /// key order.
    pub fn insert(&mut self, key: String, value: String)
        ensures
            keys_ordered(final(self)@),
            value_of(final(self)@, key@) == Some(value@),
            forall|k: Seq<char>| k != key@ ==> #[trigger] value_of(final(self)@, k) == value_of(old(self)@, k),
            has_key(old(self)@, key@) ==> final(self)@.len() == old(self)@.len(),
            !has_key(old(self)@, key@) ==> final(self)@.len() == old(self)@.len() + 1,
            (forall|j: int| 0 <= j < old(self)@.len() ==> bytes_before(#[trigger] cbor_text(old(self)@[j].0), cbor_text(key@)))
                ==> final(self)@ == old(self)@.push((key@, value@)),
    {
        proof { use_type_invariant(&*self); }
        let ghost old_v = self@;
        let mut entries: Vec<(String, String)> = Vec::new();
        std::mem::swap(&mut entries, &mut self.entries);
        let mut ek: Vec<u8> = Vec::new();
        push_text(&mut ek, key.as_str());
        assert(ek@ =~= cbor_text(key@));
        let mut i: usize = 0;
        while i < entries.len()
            invariant
                i <= entries@.len(),
                keys_ordered(old_v),
                old_v == pairs_view(entries@),
                ek@ == cbor_text(key@),
                forall|j: int| 0 <= j < i ==> bytes_before(#[trigger] cbor_text(old_v[j].0), cbor_text(key@)),
            ensures
                i <= entries@.len(),
                keys_ordered(old_v),
                old_v == pairs_view(entries@),
                forall|j: int| 0 <= j < i ==> bytes_before(#[trigger] cbor_text(old_v[j].0), cbor_text(key@)),
                i < entries@.len() ==> !bytes_before(cbor_text(old_v[i as int].0), cbor_text(key@)),
            decreases entries@.len() - i,
        {
            let mut ei: Vec<u8> = Vec::new();
            push_text(&mut ei, entries[i].0.as_str());
            assert(ei@ =~= cbor_text(old_v[i as int].0));
            if !bytes_less(ei.as_slice(), ek.as_slice()) {
                break;
            }
            i = i + 1;
        }
        let ghost pos = i as int;
        proof {
            assert forall|j: int| 0 <= j < pos implies #[trigger] old_v[j].0 != key@ by {
                assert(bytes_before(cbor_text(old_v[j].0), cbor_text(key@)));
                lemma_bytes_before_order(cbor_text(key@), cbor_text(key@), cbor_text(key@));
            }
        }
        if i < entries.len() && entries[i].0 == key {
            let ghost old_e = entries@;
            proof {
                lemma_pairs_view_update(old_e, pos, (key, value));
                if forall|j: int| 0 <= j < old_v.len() ==> bytes_before(#[trigger] cbor_text(old_v[j].0), cbor_text(key@)) {
                    assert(bytes_before(cbor_text(old_v[pos].0), cbor_text(key@)));
                    assert(false);
                }
            }
            entries.set(i, (key, value));
            proof {
                let nv = pairs_view(entries@);
                assert(nv == old_v.update(pos, (key@, value@)));
                assert(keys_ordered(nv)) by {
                    assert forall|a: int, b: int| 0 <= a < b < nv.len() implies bytes_before(#[trigger] cbor_text(nv[a].0), #[trigger] cbor_text(nv[b].0)) by {
                        assert(nv[a].0 == old_v[a].0 && nv[b].0 == old_v[b].0);
                    }
                }
                lemma_value_at(nv, pos);
                assert forall|k: Seq<char>| k != key@ implies #[trigger] value_of(nv, k) == value_of(old_v, k) by {
                    lemma_value_other_update(old_v, pos, value@, k);
                }
                assert(has_key(old_v, key@)) by { assert(old_v[pos].0 == key@); }
            }
        } else {
            proof {
                if pos < old_v.len() {
                    lemma_bytes_before_order(cbor_text(old_v[pos].0), cbor_text(key@), cbor_text(key@));
                    assert(cbor_text(old_v[pos].0) != cbor_text(key@)) by {
                        if cbor_text(old_v[pos].0) == cbor_text(key@) {
                            lemma_text_injective(old_v[pos].0, key@);
                        }
                    }
                    assert(bytes_before(cbor_text(key@), cbor_text(old_v[pos].0)));
                }
            }
            let ghost old_e = entries@;
            proof { lemma_pairs_view_insert(old_e, pos, (key, value)); }
            entries.insert(i, (key, value));
            proof {
                let nv = pairs_view(entries@);
                let kv = (key@, value@);
                assert(nv == old_v.insert(pos, kv));
                if forall|j: int| 0 <= j < old_v.len() ==> bytes_before(#[trigger] cbor_text(old_v[j].0), cbor_text(key@)) {
                    if pos < old_v.len() {
                        assert(bytes_before(cbor_text(old_v[pos].0), cbor_text(key@)));
                    }
                    assert(old_v.insert(pos, kv) =~= old_v.push(kv));
                }
                assert(keys_ordered(nv)) by {
                    assert forall|a: int, b: int| 0 <= a < b < nv.len() implies bytes_before(#[trigger] cbor_text(nv[a].0), #[trigger] cbor_text(nv[b].0)) by {
                        if b < pos {
                            assert(nv[a] == old_v[a] && nv[b] == old_v[b]);
                        } else if b == pos {
                            assert(nv[a] == old_v[a]);
                        } else if a == pos {
                            assert(nv[b] == old_v[b - 1]);
                            if b - 1 > pos {
                                lemma_bytes_before_order(cbor_text(key@), cbor_text(old_v[pos].0), cbor_text(old_v[b - 1].0));
                            }
                        } else if a < pos {
                            assert(nv[a] == old_v[a] && nv[b] == old_v[b - 1]);
                        } else {
                            assert(nv[a] == old_v[a - 1] && nv[b] == old_v[b - 1]);
                        }
                    }
                }
                lemma_value_at(nv, pos);
                assert(!has_key(old_v, key@)) by {
                    if has_key(old_v, key@) {
                        let j = choose|j: int| 0 <= j < old_v.len() && #[trigger] old_v[j].0 == key@;
                        if j > pos {
                            lemma_bytes_before_order(cbor_text(key@), cbor_text(old_v[pos].0), cbor_text(old_v[j].0));
                            lemma_bytes_before_order(cbor_text(key@), cbor_text(key@), cbor_text(key@));
                        } else if j == pos {
                            lemma_bytes_before_order(cbor_text(key@), cbor_text(key@), cbor_text(key@));
                        }
                    }
                }
                assert forall|k: Seq<char>| k != key@ implies #[trigger] value_of(nv, k) == value_of(old_v, k) by {
                    lemma_value_other_insert(old_v, pos, kv, k);
                }
            }
        }
        self.entries = entries;
    }
}

/// Equal CBOR text encodings come from equal texts.
pub proof fn lemma_text_injective(a: Seq<char>, b: Seq<char>)
    requires
        cbor_text(a) == cbor_text(b),
    ensures
        a == b,
{
    vstd::utf8::encode_utf8_decode_utf8(a);
    vstd::utf8::encode_utf8_decode_utf8(b);
    let ea = vstd::utf8::encode_utf8(a);
    let eb = vstd::utf8::encode_utf8(b);
    assert(ea == eb) by {
        let ha = crate::dag_cbor::cbor_head(3, ea.len());
        let hb = crate::dag_cbor::cbor_head(3, eb.len());
        assert(ha.len() == hb.len()) by {
            reveal_with_fuel(crate::dag_cbor::be_bytes, 9);
        }
        assert(ea =~= cbor_text(a).subrange(ha.len() as int, cbor_text(a).len() as int));
        assert(eb =~= cbor_text(b).subrange(hb.len() as int, cbor_text(b).len() as int));
    }
}

proof fn lemma_value_other_update(s: Seq<(Seq<char>, Seq<char>)>, i: int, v: Seq<char>, k: Seq<char>)
    requires
        0 <= i < s.len(),
        s[i].0 != k,
    ensures
        value_of(s.update(i, (s[i].0, v)), k) == value_of(s, k),
    decreases s.len(),
{
    if i > 0 {
        assert(s.update(i, (s[i].0, v)).drop_first() =~= s.drop_first().update(i - 1, (s[i].0, v)));
        lemma_value_other_update(s.drop_first(), i - 1, v, k);
    } else {
        assert(s.update(i, (s[i].0, v)).drop_first() =~= s.drop_first());
    }
}

proof fn lemma_value_other_insert(s: Seq<(Seq<char>, Seq<char>)>, i: int, kv: (Seq<char>, Seq<char>), k: Seq<char>)
    requires
        0 <= i <= s.len(),
        kv.0 != k,
    ensures
        value_of(s.insert(i, kv), k) == value_of(s, k),
    decreases s.len(),
{
    if i > 0 {
        assert(s.insert(i, kv).drop_first() =~= s.drop_first().insert(i - 1, kv));
        lemma_value_other_insert(s.drop_first(), i - 1, kv, k);
    } else {
        assert(s.insert(i, kv).drop_first() =~= s);
    }
}

} // verus!
