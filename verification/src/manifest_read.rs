//! Reading manifests and tree nodes back from their DAG-CBOR encoding. The canonical
//! encodings are accepted, so that what is read, written again, gives the same bytes; a
//! manifest may also leave out its structure entry, and then reads as flat.

use vstd::prelude::*;

use crate::block::{ids_view, link_bytes, parse_links};
use crate::cbor_read::{
    expect_head, expect_text, item_at, lemma_item_join, lemma_item_split, lemma_whole, read_bool, read_bytes, read_head, read_text,
    read_uint,
};
use crate::content_id::{bytes_equal, id_of, ContentId, DAG_CBOR_CODEC};
use crate::dag_cbor::{
    bytes_before, bytes_less, cbor_array_head, cbor_bool, cbor_byte_items, cbor_bytes, cbor_map_head, cbor_text, cbor_uint,
    lemma_bytes_before_order, push_text,
};
use crate::metadata::{keys_ordered, pairs_view, Metadata};
use crate::chunking::ChunkingAlgorithm;
use crate::error::BlockStoreError;
use crate::manifest::{
    algorithm_text, children_cbor, decodable, manifest_cbor, manifest_field_count, manifest_leading, manifest_middle, manifest_trailing,
    metadata_cbor, optional_text, pair_items, structure_cbor, tree_node_cbor, DocumentManifest, IdView, ManifestStructure, TreeNode,
};
use crate::text::str_equals;

verus! {

/// Parsing a list of binary CIDs that succeeds gives one identifier per item, each the parse
/// of its item.
proof fn lemma_parse_links_items(bs: Seq<Seq<u8>>, ids: Seq<IdView>)
    requires
        parse_links(bs) == Some(ids),
    ensures
        ids.len() == bs.len(),
        forall|k: int| 0 <= k < bs.len() ==> #[trigger] crate::content_id::cid_from_binary(bs[k]) == Ok::<IdView, Seq<char>>(ids[k]),
    decreases bs.len(),
{
    if bs.len() > 0 {
        let prefix = parse_links(bs.drop_last())->0;
        lemma_parse_links_items(bs.drop_last(), prefix);
        assert forall|k: int| 0 <= k < bs.len() implies #[trigger] crate::content_id::cid_from_binary(bs[k]) == Ok::<IdView, Seq<char>>(ids[k]) by {
            if k < bs.len() - 1 {
                assert(bs.drop_last()[k] == bs[k]);
            }
        }
    }
}

/// The byte-string items of a prefix one longer.
proof fn lemma_byte_items_take(items: Seq<Seq<u8>>, k: int)
    requires
        0 <= k < items.len(),
    ensures
        cbor_byte_items(items.take(k + 1)) == cbor_byte_items(items.take(k)) + cbor_bytes(items[k]),
{
    assert(items.take(k + 1).drop_last() =~= items.take(k));
}

/// The list of identifiers at `pos` (an array of binary CIDs), and where the next item starts.
/// A binary CID is accepted only as the identifier it reads as is written.
#[verifier::spinoff_prover]
pub fn read_children(b: &[u8], pos: usize) -> (r: Option<(Vec<ContentId>, usize)>)
    ensures
        r matches Some((v, p)) ==> item_at(b@, pos as int, children_cbor(ids_view(v@))) && p == pos + children_cbor(
            ids_view(v@),
        ).len(),
        r matches Some((v, p)) ==> parse_links(link_bytes(ids_view(v@))) == Some(ids_view(v@)),
        forall|ids: Seq<IdView>|
            parse_links(link_bytes(ids)) == Some(ids) && #[trigger] item_at(b@, pos as int, children_cbor(ids)) ==> (r matches Some(
                (v, p),
            ) && ids_view(v@) == ids && p == pos + children_cbor(ids).len()),
{
    let ghost s = b@;
    let len = b.len();
    proof {
        assert forall|ids: Seq<IdView>| #[trigger] item_at(s, pos as int, children_cbor(ids)) implies ids.len() < 0x1_0000_0000_0000_0000
            && crate::cbor_read::head_at(s, pos as int, 4, (ids.len() as u64) as nat) && item_at(
            s,
            pos + cbor_array_head(ids.len()).len(),
            cbor_byte_items(link_bytes(ids)),
        ) by {
            crate::cbor_read::lemma_item_split(s, pos as int, cbor_array_head(ids.len()), cbor_byte_items(link_bytes(ids)));
            lemma_byte_items_len(link_bytes(ids));
        }
    }
    let (m, n, p0) = match read_head(b, pos) {
        Some(h) => h,
        None => {
            proof {
                assert forall|ids: Seq<IdView>|
                    parse_links(link_bytes(ids)) == Some(ids) && #[trigger] item_at(s, pos as int, children_cbor(ids)) implies false by {
                    assert(crate::cbor_read::head_at(s, pos as int, 4, (ids.len() as u64) as nat));
                }
            }
            return None;
        },
    };
    proof {
        assert forall|ids: Seq<IdView>|
            parse_links(link_bytes(ids)) == Some(ids) && #[trigger] item_at(s, pos as int, children_cbor(ids)) implies m == 4 && ids.len() == n by {
            assert(crate::cbor_read::head_at(s, pos as int, 4, (ids.len() as u64) as nat));
        }
    }
    if m != 4 {
        return None;
    }
    let mut out: Vec<ContentId> = Vec::new();
    let mut cur: usize = p0;
    let mut k: u64 = 0;
    proof {
        assert(ids_view(out@) =~= Seq::<IdView>::empty());
        assert(cbor_byte_items(link_bytes(ids_view(out@))) =~= Seq::<u8>::empty()) by {
            assert(link_bytes(ids_view(out@)) =~= Seq::<Seq<u8>>::empty());
        }
        assert(s.subrange(p0 as int, p0 as int) =~= Seq::<u8>::empty());
        assert forall|ids: Seq<IdView>|
            parse_links(link_bytes(ids)) == Some(ids) && #[trigger] item_at(s, pos as int, children_cbor(ids)) implies ids_view(out@) == ids.take(0) by {
            assert(ids.take(0) =~= Seq::<IdView>::empty());
            assert(ids_view(out@) =~= Seq::<IdView>::empty());
        }
    }
    while k < n
        invariant
            s == b@,
            m == 4,
            p0 == pos + cbor_array_head(n as nat).len(),
            crate::cbor_read::head_at(s, pos as int, 4, n as nat),
            out@.len() == k,
            k <= n,
            item_at(s, p0 as int, cbor_byte_items(link_bytes(ids_view(out@)))),
            cur == p0 + cbor_byte_items(link_bytes(ids_view(out@))).len(),
            parse_links(link_bytes(ids_view(out@))) == Some(ids_view(out@)),
            forall|ids: Seq<IdView>|
                parse_links(link_bytes(ids)) == Some(ids) && #[trigger] item_at(s, pos as int, children_cbor(ids)) ==> ids.len() == n
                    && ids_view(out@) == ids.take(k as int),
        decreases n - k,
    {
        let ghost before = out@;
        let (x, next) = match read_bytes(b, cur) {
            Some(e) => e,
            None => {
                proof {
                    assert forall|ids: Seq<IdView>|
                        parse_links(link_bytes(ids)) == Some(ids) && #[trigger] item_at(s, pos as int, children_cbor(ids)) implies false by {
                        lemma_children_item(s, pos as int, ids, k as int);
                    }
                }
                return None;
            },
        };
        let id = match ContentId::from_raw_bytes(x.as_slice()) {
            Ok(id) => id,
            Err(_) => {
                proof {
                    assert forall|ids: Seq<IdView>|
                        parse_links(link_bytes(ids)) == Some(ids) && #[trigger] item_at(s, pos as int, children_cbor(ids)) implies false by {
                        lemma_children_item(s, pos as int, ids, k as int);
                        lemma_parse_links_items(link_bytes(ids), ids);
                    }
                }
                return None;
            },
        };
        let written = id.to_bytes();
        if !bytes_equal(&written, &x) {
            proof {
                assert forall|ids: Seq<IdView>|
                    parse_links(link_bytes(ids)) == Some(ids) && #[trigger] item_at(s, pos as int, children_cbor(ids)) implies false by {
                    lemma_children_item(s, pos as int, ids, k as int);
                    lemma_parse_links_items(link_bytes(ids), ids);
                }
            }
            return None;
        }
        proof {
            let lb = link_bytes(ids_view(before.push(id)));
            assert(ids_view(before.push(id)) =~= ids_view(before).push(id@));
            assert(lb =~= link_bytes(ids_view(before)).push(x@));
            assert(lb.drop_last() =~= link_bytes(ids_view(before)));
            assert(lb.last() == x@);
            assert(parse_links(lb) == Some(ids_view(before.push(id))));
            crate::cbor_read::lemma_item_join(s, p0 as int, cbor_byte_items(link_bytes(ids_view(before))), cbor_bytes(x@));
            assert forall|ids: Seq<IdView>|
                parse_links(link_bytes(ids)) == Some(ids) && #[trigger] item_at(s, pos as int, children_cbor(ids)) implies ids_view(
                before.push(id),
            ) == ids.take(k + 1) by {
                lemma_children_item(s, pos as int, ids, k as int);
                lemma_parse_links_items(link_bytes(ids), ids);
                assert(ids.take(k + 1) =~= ids.take(k as int).push(ids[k as int]));
            }
        }
        out.push(id);
        cur = next;
        k = k + 1;
    }
    proof {
        let items = cbor_byte_items(link_bytes(ids_view(out@)));
        crate::cbor_read::lemma_item_join(s, pos as int, cbor_array_head(n as nat), items);
        assert(ids_view(out@).len() == n);
        assert(children_cbor(ids_view(out@)) == cbor_array_head(n as nat) + items);
        assert forall|ids: Seq<IdView>|
            parse_links(link_bytes(ids)) == Some(ids) && #[trigger] item_at(s, pos as int, children_cbor(ids)) implies ids_view(out@) == ids by {
            assert(ids.take(n as int) =~= ids);
        }
    }
    Some((out, cur))
}

/// In the list of identifiers at `pos`, the `k`-th byte string sits right after the first `k`.
proof fn lemma_children_item(s: Seq<u8>, pos: int, ids: Seq<IdView>, k: int)
    requires
        item_at(s, pos, children_cbor(ids)),
        0 <= k < ids.len(),
    ensures
        item_at(
            s,
            pos + cbor_array_head(ids.len()).len() + cbor_byte_items(link_bytes(ids).take(k)).len(),
            cbor_bytes(link_bytes(ids)[k]),
        ),
        link_bytes(ids).take(k) == link_bytes(ids.take(k)),
{
    let lb = link_bytes(ids);
    let h = cbor_array_head(ids.len());
    crate::cbor_read::lemma_item_split(s, pos, h, cbor_byte_items(lb));
    lemma_byte_items_split(lb, k);
    crate::cbor_read::lemma_item_split(s, pos + h.len(), cbor_byte_items(lb.take(k)), cbor_byte_items(lb.skip(k)));
    assert(lb.skip(k).take(1) =~= seq![lb[k]]);
    lemma_byte_items_split(lb.skip(k), 1);
    assert(cbor_byte_items(seq![lb[k]]) =~= cbor_bytes(lb[k])) by {
        assert(seq![lb[k]].drop_last() =~= Seq::<Seq<u8>>::empty());
        assert(cbor_byte_items(Seq::<Seq<u8>>::empty()) =~= Seq::<u8>::empty());
        assert(seq![lb[k]].last() == lb[k]);
    }
    crate::cbor_read::lemma_item_split(
        s,
        pos + h.len() + cbor_byte_items(lb.take(k)).len(),
        cbor_byte_items(lb.skip(k).take(1)),
        cbor_byte_items(lb.skip(k).skip(1)),
    );
    assert(lb.take(k) =~= link_bytes(ids.take(k)));
}

/// The byte-string items of a list split where the list does.
proof fn lemma_byte_items_split(items: Seq<Seq<u8>>, k: int)
    requires
        0 <= k <= items.len(),
    ensures
        cbor_byte_items(items) == cbor_byte_items(items.take(k)) + cbor_byte_items(items.skip(k)),
    decreases items.len() - k,
{
    if k == items.len() {
        assert(items.take(k) =~= items);
        assert(items.skip(k) =~= Seq::<Seq<u8>>::empty());
        assert(cbor_byte_items(items.skip(k)) =~= Seq::<u8>::empty());
    } else {
        lemma_byte_items_split(items, k + 1);
        lemma_byte_items_take(items, k);
        let rest = items.skip(k);
        lemma_byte_items_split_first(rest);
        assert(rest.skip(1) =~= items.skip(k + 1));
        assert(rest[0] == items[k]);
    }
}

/// The byte-string items of a non-empty list: the first, then the rest.
proof fn lemma_byte_items_split_first(items: Seq<Seq<u8>>)
    requires
        items.len() > 0,
    ensures
        cbor_byte_items(items) == cbor_bytes(items[0]) + cbor_byte_items(items.skip(1)),
    decreases items.len(),
{
    if items.len() == 1 {
        assert(items.drop_last() =~= Seq::<Seq<u8>>::empty());
        assert(items.skip(1) =~= Seq::<Seq<u8>>::empty());
        assert(cbor_byte_items(items.skip(1)) =~= Seq::<u8>::empty());
    } else {
        lemma_byte_items_split_first(items.drop_last());
        assert(items.drop_last().skip(1) =~= items.skip(1).drop_last());
        assert(items.skip(1).last() == items.last());
        assert(items.drop_last()[0] == items[0]);
    }
}

/// Byte-string items are at least one byte per item.
proof fn lemma_byte_items_len(items: Seq<Seq<u8>>)
    ensures
        cbor_byte_items(items).len() >= items.len(),
    decreases items.len(),
{
    if items.len() > 0 {
        lemma_byte_items_len(items.drop_last());
    }
}

/// Reads a tree node: its children and whether they are chunks. Only its canonical encoding
/// is accepted, and each canonical encoding whose children read back is.
#[verifier::spinoff_prover]
pub fn read_tree_node(b: &[u8]) -> (r: Option<(Vec<ContentId>, bool)>)
    ensures
        r matches Some((v, leaf)) ==> b@ == tree_node_cbor(ids_view(v@), leaf),
        r matches Some((v, leaf)) ==> parse_links(link_bytes(ids_view(v@))) == Some(ids_view(v@)),
        forall|ids: Seq<IdView>, leaf: bool|
            parse_links(link_bytes(ids)) == Some(ids) && b@ == #[trigger] tree_node_cbor(ids, leaf) ==> (r matches Some((v, l))
                && ids_view(v@) == ids && l == leaf),
{
    let ghost s = b@;
    let len = b.len();
    let ghost k1 = cbor_text("children"@);
    let ghost k2 = cbor_text("is_leaf_level"@);
    proof {
        assert forall|ids: Seq<IdView>, leaf: bool| s == #[trigger] tree_node_cbor(ids, leaf) implies {
            let h = cbor_map_head(2);
            let c = children_cbor(ids);
            &&& item_at(s, 0, h)
            &&& item_at(s, h.len() as int, k1)
            &&& item_at(s, (h.len() + k1.len()) as int, c)
            &&& item_at(s, (h.len() + k1.len() + c.len()) as int, k2)
            &&& item_at(s, (h.len() + k1.len() + c.len() + k2.len()) as int, cbor_bool(leaf))
            &&& h.len() + k1.len() + c.len() + k2.len() + 1 == s.len()
        } by {
            let h = cbor_map_head(2);
            let c = children_cbor(ids);
            let e = tree_node_cbor(ids, leaf);
            lemma_whole(s, e);
            assert(e == h + (k1 + (c + (k2 + cbor_bool(leaf))))) by {
                assert(e =~= h + (k1 + (c + (k2 + cbor_bool(leaf)))));
            }
            lemma_item_split(s, 0, h, k1 + (c + (k2 + cbor_bool(leaf))));
            lemma_item_split(s, h.len() as int, k1, c + (k2 + cbor_bool(leaf)));
            lemma_item_split(s, (h.len() + k1.len()) as int, c, k2 + cbor_bool(leaf));
            lemma_item_split(s, (h.len() + k1.len() + c.len()) as int, k2, cbor_bool(leaf));
        }
    }
    let p1 = match expect_head(b, 0, 5, 2) {
        Some(p) => p,
        None => return None,
    };
    let p2 = match expect_text(b, p1, "children") {
        Some(p) => p,
        None => return None,
    };
    let (children, p3) = match read_children(b, p2) {
        Some(x) => x,
        None => return None,
    };
    let p4 = match expect_text(b, p3, "is_leaf_level") {
        Some(p) => p,
        None => return None,
    };
    let (leaf, p5) = match read_bool(b, p4) {
        Some(x) => x,
        None => return None,
    };
    if p5 != len {
        return None;
    }
    proof {
        let h = cbor_map_head(2);
        let c = children_cbor(ids_view(children@));
        lemma_item_join(s, (h.len() + k1.len() + c.len()) as int, k2, cbor_bool(leaf));
        lemma_item_join(s, (h.len() + k1.len()) as int, c, k2 + cbor_bool(leaf));
        lemma_item_join(s, h.len() as int, k1, c + (k2 + cbor_bool(leaf)));
        lemma_item_join(s, 0, h, k1 + (c + (k2 + cbor_bool(leaf))));
        let e = tree_node_cbor(ids_view(children@), leaf);
        assert(e =~= h + (k1 + (c + (k2 + cbor_bool(leaf)))));
        lemma_whole(s, e);
    }
    Some((children, leaf))
}

/// Key-value pairs split where their list does.
proof fn lemma_pair_items_split(md: Seq<(Seq<char>, Seq<char>)>, k: int)
    requires
        0 <= k <= md.len(),
    ensures
        pair_items(md) == pair_items(md.take(k)) + pair_items(md.skip(k)),
    decreases md.len() - k,
{
    if k == md.len() {
        assert(md.take(k) =~= md);
        assert(md.skip(k) =~= Seq::<(Seq<char>, Seq<char>)>::empty());
        assert(pair_items(md.skip(k)) =~= Seq::<u8>::empty());
    } else {
        lemma_pair_items_split(md, k + 1);
        assert(md.take(k + 1).drop_last() =~= md.take(k));
        let rest = md.skip(k);
        lemma_pair_items_first(rest);
        assert(rest.skip(1) =~= md.skip(k + 1));
        assert(rest[0] == md[k]);
    }
}

/// The key-value pairs of a non-empty list: the first pair, then the rest.
proof fn lemma_pair_items_first(md: Seq<(Seq<char>, Seq<char>)>)
    requires
        md.len() > 0,
    ensures
        pair_items(md) == cbor_text(md[0].0) + cbor_text(md[0].1) + pair_items(md.skip(1)),
    decreases md.len(),
{
    if md.len() == 1 {
        assert(md.drop_last() =~= Seq::<(Seq<char>, Seq<char>)>::empty());
        assert(md.skip(1) =~= Seq::<(Seq<char>, Seq<char>)>::empty());
        assert(pair_items(md.skip(1)) =~= Seq::<u8>::empty());
        assert(pair_items(md) =~= cbor_text(md[0].0) + cbor_text(md[0].1) + pair_items(md.skip(1)));
    } else {
        lemma_pair_items_first(md.drop_last());
        assert(md.drop_last().skip(1) =~= md.skip(1).drop_last());
        assert(md.skip(1).last() == md.last());
        assert(md.drop_last()[0] == md[0]);
        assert(pair_items(md) =~= cbor_text(md[0].0) + cbor_text(md[0].1) + pair_items(md.skip(1)));
    }
}

/// In the metadata at `pos`, the `k`-th pair sits right after the first `k`.
proof fn lemma_metadata_item(s: Seq<u8>, pos: int, md: Seq<(Seq<char>, Seq<char>)>, k: int)
    requires
        item_at(s, pos, metadata_cbor(md)),
        0 <= k < md.len(),
    ensures
        item_at(s, pos + cbor_map_head(md.len()).len() + pair_items(md.take(k)).len(), cbor_text(md[k].0)),
        item_at(
            s,
            pos + cbor_map_head(md.len()).len() + pair_items(md.take(k)).len() + cbor_text(md[k].0).len(),
            cbor_text(md[k].1),
        ),
{
    let h = cbor_map_head(md.len());
    lemma_item_split(s, pos, h, pair_items(md));
    lemma_pair_items_split(md, k);
    lemma_item_split(s, pos + h.len(), pair_items(md.take(k)), pair_items(md.skip(k)));
    lemma_pair_items_first(md.skip(k));
    let at = pos + h.len() + pair_items(md.take(k)).len();
    let kt = cbor_text(md[k].0);
    let vt = cbor_text(md[k].1);
    assert(md.skip(k)[0] == md[k]);
    assert(pair_items(md.skip(k)) == kt + (vt + pair_items(md.skip(k).skip(1)))) by {
        assert(kt + vt + pair_items(md.skip(k).skip(1)) =~= kt + (vt + pair_items(md.skip(k).skip(1))));
    }
    lemma_item_split(s, at, kt, vt + pair_items(md.skip(k).skip(1)));
    lemma_item_split(s, at + kt.len(), vt, pair_items(md.skip(k).skip(1)));
}

/// The metadata at `pos` (a non-empty map of text to text, in canonical key order), and where
/// the next item starts.
#[verifier::spinoff_prover]
pub fn read_metadata(b: &[u8], pos: usize) -> (r: Option<(Metadata, usize)>)
    ensures
        r matches Some((md, p)) ==> md@.len() > 0 && item_at(b@, pos as int, metadata_cbor(md@)) && p == pos + metadata_cbor(
            md@,
        ).len(),
        r matches Some((md, p)) ==> keys_ordered(md@),
        forall|md: Seq<(Seq<char>, Seq<char>)>|
            keys_ordered(md) && md.len() > 0 && #[trigger] item_at(b@, pos as int, metadata_cbor(md)) ==> (r matches Some((x, p))
                && x@ == md && p == pos + metadata_cbor(md).len()),
{
    let ghost s = b@;
    let len = b.len();
    proof {
        assert forall|md: Seq<(Seq<char>, Seq<char>)>| #[trigger] item_at(s, pos as int, metadata_cbor(md)) implies md.len()
            < 0x1_0000_0000_0000_0000 && crate::cbor_read::head_at(s, pos as int, 5, (md.len() as u64) as nat) by {
            lemma_item_split(s, pos as int, cbor_map_head(md.len()), pair_items(md));
            lemma_pair_items_len(md);
        }
    }
    let (m, n, p0) = match read_head(b, pos) {
        Some(h) => h,
        None => {
            proof {
                assert forall|md: Seq<(Seq<char>, Seq<char>)>|
                    keys_ordered(md) && md.len() > 0 && #[trigger] item_at(s, pos as int, metadata_cbor(md)) implies false by {
                    assert(crate::cbor_read::head_at(s, pos as int, 5, (md.len() as u64) as nat));
                }
            }
            return None;
        },
    };
    proof {
        assert forall|md: Seq<(Seq<char>, Seq<char>)>|
            keys_ordered(md) && md.len() > 0 && #[trigger] item_at(s, pos as int, metadata_cbor(md)) implies m == 5 && md.len() == n by {
            assert(crate::cbor_read::head_at(s, pos as int, 5, (md.len() as u64) as nat));
        }
    }
    if m != 5 || n == 0 {
        return None;
    }
    let mut out: Vec<(String, String)> = Vec::new();
    let mut prev: Vec<u8> = Vec::new();
    let mut cur: usize = p0;
    let mut k: u64 = 0;
    proof {
        assert(pairs_view(out@) =~= Seq::<(Seq<char>, Seq<char>)>::empty());
        assert(pair_items(pairs_view(out@)) =~= Seq::<u8>::empty());
        assert(s.subrange(p0 as int, p0 as int) =~= Seq::<u8>::empty());
        assert forall|md: Seq<(Seq<char>, Seq<char>)>|
            keys_ordered(md) && md.len() > 0 && #[trigger] item_at(s, pos as int, metadata_cbor(md)) implies pairs_view(out@) == md.take(0) by {
            assert(md.take(0) =~= Seq::<(Seq<char>, Seq<char>)>::empty());
        }
    }
    while k < n
        invariant
            s == b@,
            len == b@.len(),
            m == 5,
            p0 == pos + cbor_map_head(n as nat).len(),
            crate::cbor_read::head_at(s, pos as int, 5, n as nat),
            out@.len() == k,
            k <= n,
            keys_ordered(pairs_view(out@)),
            k > 0 ==> prev@ == cbor_text(pairs_view(out@).last().0),
            item_at(s, p0 as int, pair_items(pairs_view(out@))),
            cur == p0 + pair_items(pairs_view(out@)).len(),
            forall|md: Seq<(Seq<char>, Seq<char>)>|
                keys_ordered(md) && md.len() > 0 && #[trigger] item_at(s, pos as int, metadata_cbor(md)) ==> md.len() == n
                    && pairs_view(out@) == md.take(k as int),
        decreases n - k,
    {
        let ghost before = pairs_view(out@);
        let (key, q1) = match read_text(b, cur) {
            Some(x) => x,
            None => {
                proof {
                    assert forall|md: Seq<(Seq<char>, Seq<char>)>|
                        keys_ordered(md) && md.len() > 0 && #[trigger] item_at(s, pos as int, metadata_cbor(md)) implies false by {
                        lemma_metadata_item(s, pos as int, md, k as int);
                    }
                }
                return None;
            },
        };
        let (value, q2) = match read_text(b, q1) {
            Some(x) => x,
            None => {
                proof {
                    assert forall|md: Seq<(Seq<char>, Seq<char>)>|
                        keys_ordered(md) && md.len() > 0 && #[trigger] item_at(s, pos as int, metadata_cbor(md)) implies false by {
                        lemma_metadata_item(s, pos as int, md, k as int);
                    }
                }
                return None;
            },
        };
        let mut enc: Vec<u8> = Vec::new();
        push_text(&mut enc, key.as_str());
        proof {
            assert(enc@ =~= cbor_text(key@));
        }
        if k > 0 && !bytes_less(prev.as_slice(), enc.as_slice()) {
            proof {
                assert forall|md: Seq<(Seq<char>, Seq<char>)>|
                    keys_ordered(md) && md.len() > 0 && #[trigger] item_at(s, pos as int, metadata_cbor(md)) implies false by {
                    lemma_metadata_item(s, pos as int, md, k as int);
                    assert(md.take(k as int).last() == md[k - 1]);
                    assert(bytes_before(cbor_text(md[k - 1].0), cbor_text(md[k as int].0)));
                }
            }
            return None;
        }
        proof {
            let after = before.push((key@, value@));
            assert(pairs_view(out@.push((key, value))) =~= after);
            assert(after.drop_last() =~= before);
            assert(pair_items(after) == pair_items(before) + cbor_text(key@) + cbor_text(value@));
            lemma_item_join(s, p0 as int, pair_items(before), cbor_text(key@));
            lemma_item_join(s, p0 as int, pair_items(before) + cbor_text(key@), cbor_text(value@));
            assert forall|i: int, j: int| 0 <= i < j < after.len() implies bytes_before(
                #[trigger] cbor_text(after[i].0),
                #[trigger] cbor_text(after[j].0),
            ) by {
                if j == after.len() - 1 {
                    if i < j - 1 {
                        assert(bytes_before(cbor_text(before[i].0), cbor_text(before[j - 1].0)));
                        lemma_bytes_before_order(cbor_text(before[i].0), cbor_text(before[j - 1].0), cbor_text(key@));
                    }
                } else {
                    assert(after[i] == before[i] && after[j] == before[j]);
                }
            }
            assert forall|md: Seq<(Seq<char>, Seq<char>)>|
                keys_ordered(md) && md.len() > 0 && #[trigger] item_at(s, pos as int, metadata_cbor(md)) implies after == md.take(k + 1) by {
                lemma_metadata_item(s, pos as int, md, k as int);
                assert(md.take(k + 1) =~= md.take(k as int).push(md[k as int]));
            }
        }
        out.push((key, value));
        prev = enc;
        cur = q2;
        k = k + 1;
    }
    proof {
        let pv = pairs_view(out@);
        lemma_item_join(s, pos as int, cbor_map_head(n as nat), pair_items(pv));
        assert(metadata_cbor(pv) == cbor_map_head(n as nat) + pair_items(pv));
        assert forall|md: Seq<(Seq<char>, Seq<char>)>|
            keys_ordered(md) && md.len() > 0 && #[trigger] item_at(s, pos as int, metadata_cbor(md)) implies pv == md by {
            assert(md.take(n as int) =~= md);
        }
    }
    Some((Metadata::from_ordered(out), cur))
}

/// Key-value pairs take at least two bytes each.
proof fn lemma_pair_items_len(md: Seq<(Seq<char>, Seq<char>)>)
    ensures
        pair_items(md).len() >= md.len(),
    decreases md.len(),
{
    if md.len() > 0 {
        lemma_pair_items_len(md.drop_last());
    }
}

/// The chunking algorithm named by the text at `pos`, and where the next item starts.
pub fn read_algorithm(b: &[u8], pos: usize) -> (r: Option<(ChunkingAlgorithm, usize)>)
    ensures
        r matches Some((a, p)) ==> item_at(b@, pos as int, cbor_text(algorithm_text(a))) && p == pos + cbor_text(
            algorithm_text(a),
        ).len(),
        forall|a: ChunkingAlgorithm| #[trigger] item_at(b@, pos as int, cbor_text(algorithm_text(a))) ==> r == Some(
            (a, (pos + cbor_text(algorithm_text(a)).len()) as usize),
        ),
{
    proof {
        reveal_strlit("fixed");
        reveal_strlit("fastcdc");
        reveal_strlit("rabin");
    }
    let (t, p) = match read_text(b, pos) {
        Some(x) => x,
        None => return None,
    };
    if str_equals(t.as_str(), "fixed") {
        Some((ChunkingAlgorithm::Fixed, p))
    } else if str_equals(t.as_str(), "fastcdc") {
        Some((ChunkingAlgorithm::FastCdc, p))
    } else if str_equals(t.as_str(), "rabin") {
        Some((ChunkingAlgorithm::Rabin, p))
    } else {
        None
    }
}

/// The unsigned integer at `pos` when it fits in `max`, and where the next item starts.
fn read_uint_upto(b: &[u8], pos: usize, max: u64) -> (r: Option<(u64, usize)>)
    ensures
        r matches Some((n, p)) ==> n <= max && item_at(b@, pos as int, cbor_uint(n as nat)) && p == pos + cbor_uint(n as nat).len(),
        forall|n: u64| n <= max && #[trigger] item_at(b@, pos as int, cbor_uint(n as nat)) ==> r == Some((n, (pos + cbor_uint(n as nat).len()) as usize)),
{
    match read_uint(b, pos) {
        Some((n, p)) => {
            if n <= max {
                Some((n, p))
            } else {
                None
            }
        },
        None => None,
    }
}

/// The tree parameters of a structure, as its map holds them after the type.
pub open spec fn tree_fields_cbor(depth: u8, fanout: u16, chunk_count: u64) -> Seq<u8> {
    cbor_text("depth"@) + cbor_uint(depth as nat) + cbor_text("fanout"@) + cbor_uint(fanout as nat) + cbor_text(
        "chunk_count"@,
    ) + cbor_uint(chunk_count as nat)
}

/// The tree parameters at `pos`, and where the next item starts.
#[verifier::rlimit(80)]
#[verifier::spinoff_prover]
fn read_tree_fields(b: &[u8], pos: usize) -> (r: Option<(u8, u16, u64, usize)>)
    ensures
        r matches Some((d, f, c, p)) ==> item_at(b@, pos as int, tree_fields_cbor(d, f, c)) && p == pos + tree_fields_cbor(
            d,
            f,
            c,
        ).len(),
        forall|d: u8, f: u16, c: u64| #[trigger] item_at(b@, pos as int, tree_fields_cbor(d, f, c)) ==> r == Some(
            (d, f, c, (pos + tree_fields_cbor(d, f, c).len()) as usize),
        ),
{
    let ghost s = b@;
    let ghost kd = cbor_text("depth"@);
    let ghost kf = cbor_text("fanout"@);
    let ghost kc = cbor_text("chunk_count"@);
    proof {
        assert forall|d: u8, f: u16, c: u64| #[trigger] item_at(s, pos as int, tree_fields_cbor(d, f, c)) implies {
            let ed = cbor_uint(d as nat);
            let ef = cbor_uint(f as nat);
            &&& item_at(s, pos as int, kd)
            &&& item_at(s, pos + kd.len(), cbor_uint(((d as u64) as nat)))
            &&& item_at(s, pos + kd.len() + ed.len(), kf)
            &&& item_at(s, pos + kd.len() + ed.len() + kf.len(), cbor_uint(((f as u64) as nat)))
            &&& item_at(s, pos + kd.len() + ed.len() + kf.len() + ef.len(), kc)
            &&& item_at(s, pos + kd.len() + ed.len() + kf.len() + ef.len() + kc.len(), cbor_uint(c as nat))
        } by {
            let ed = cbor_uint(d as nat);
            let ef = cbor_uint(f as nat);
            let ec = cbor_uint(c as nat);
            assert(tree_fields_cbor(d, f, c) =~= kd + (ed + (kf + (ef + (kc + ec)))));
            lemma_item_split(s, pos as int, kd, ed + (kf + (ef + (kc + ec))));
            lemma_item_split(s, pos + kd.len(), ed, kf + (ef + (kc + ec)));
            lemma_item_split(s, pos + kd.len() + ed.len(), kf, ef + (kc + ec));
            lemma_item_split(s, pos + kd.len() + ed.len() + kf.len(), ef, kc + ec);
            lemma_item_split(s, pos + kd.len() + ed.len() + kf.len() + ef.len(), kc, ec);
        }
    }
    let p1 = match expect_text(b, pos, "depth") {
        Some(p) => p,
        None => return None,
    };
    let (depth, p2) = match read_uint_upto(b, p1, 255) {
        Some(x) => x,
        None => return None,
    };
    let p3 = match expect_text(b, p2, "fanout") {
        Some(p) => p,
        None => return None,
    };
    let (fanout, p4) = match read_uint_upto(b, p3, 65535) {
        Some(x) => x,
        None => return None,
    };
    let p5 = match expect_text(b, p4, "chunk_count") {
        Some(p) => p,
        None => return None,
    };
    let (chunk_count, p6) = match read_uint(b, p5) {
        Some(x) => x,
        None => return None,
    };
    let d = depth as u8;
    let f = fanout as u16;
    proof {
        let ed = cbor_uint(d as nat);
        let ef = cbor_uint(f as nat);
        let ec = cbor_uint(chunk_count as nat);
        lemma_item_join(s, pos + kd.len() + ed.len() + kf.len() + ef.len(), kc, ec);
        lemma_item_join(s, pos + kd.len() + ed.len() + kf.len(), ef, kc + ec);
        lemma_item_join(s, pos + kd.len() + ed.len(), kf, ef + (kc + ec));
        lemma_item_join(s, pos + kd.len(), ed, kf + (ef + (kc + ec)));
        lemma_item_join(s, pos as int, kd, ed + (kf + (ef + (kc + ec))));
        assert(tree_fields_cbor(d, f, chunk_count) =~= kd + (ed + (kf + (ef + (kc + ec)))));
    }
    Some((d, f, chunk_count, p6))
}

/// The structure of a flat manifest is its map head, the type key, and "flat".
#[verifier::spinoff_prover]
#[verifier::rlimit(40)]
proof fn lemma_flat_parts(s: Seq<u8>, pos: int)
    ensures
        structure_cbor(ManifestStructure::Flat) == cbor_map_head(1) + (cbor_text("type"@) + cbor_text("flat"@)),
        item_at(s, pos, structure_cbor(ManifestStructure::Flat)) <==> (item_at(s, pos, cbor_map_head(1)) && item_at(
            s,
            pos + cbor_map_head(1).len(),
            cbor_text("type"@),
        ) && item_at(s, pos + cbor_map_head(1).len() + cbor_text("type"@).len(), cbor_text("flat"@))),
{
    let h = cbor_map_head(1);
    let kt = cbor_text("type"@);
    let vf = cbor_text("flat"@);
    assert(structure_cbor(ManifestStructure::Flat) =~= h + (kt + vf));
    if item_at(s, pos, h + (kt + vf)) {
        lemma_item_split(s, pos, h, kt + vf);
        lemma_item_split(s, pos + h.len(), kt, vf);
    }
    if item_at(s, pos, h) && item_at(s, pos + h.len(), kt) && item_at(s, pos + h.len() + kt.len(), vf) {
        lemma_item_join(s, pos + h.len(), kt, vf);
        lemma_item_join(s, pos, h, kt + vf);
    }
}

/// The structure of a tree manifest is its map head, the type key, "tree", and the tree
/// parameters.
#[verifier::spinoff_prover]
#[verifier::rlimit(40)]
proof fn lemma_tree_parts(s: Seq<u8>, pos: int, d: u8, f: u16, c: u64)
    ensures
        item_at(s, pos, structure_cbor(ManifestStructure::Tree { depth: d, fanout: f, chunk_count: c })) <==> (item_at(
            s,
            pos,
            cbor_map_head(4),
        ) && item_at(s, pos + cbor_map_head(4).len(), cbor_text("type"@)) && item_at(
            s,
            pos + cbor_map_head(4).len() + cbor_text("type"@).len(),
            cbor_text("tree"@),
        ) && item_at(
            s,
            pos + cbor_map_head(4).len() + cbor_text("type"@).len() + cbor_text("tree"@).len(),
            tree_fields_cbor(d, f, c),
        )),
        structure_cbor(ManifestStructure::Tree { depth: d, fanout: f, chunk_count: c }).len() == cbor_map_head(4).len()
            + cbor_text("type"@).len() + cbor_text("tree"@).len() + tree_fields_cbor(d, f, c).len(),
{
    let h = cbor_map_head(4);
    let kt = cbor_text("type"@);
    let vt = cbor_text("tree"@);
    let tf = tree_fields_cbor(d, f, c);
    assert(structure_cbor(ManifestStructure::Tree { depth: d, fanout: f, chunk_count: c }) =~= h + (kt + (vt + tf)));
    if item_at(s, pos, h + (kt + (vt + tf))) {
        lemma_item_split(s, pos, h, kt + (vt + tf));
        lemma_item_split(s, pos + h.len(), kt, vt + tf);
        lemma_item_split(s, pos + h.len() + kt.len(), vt, tf);
    }
    if item_at(s, pos, h) && item_at(s, pos + h.len(), kt) && item_at(s, pos + h.len() + kt.len(), vt) && item_at(
        s,
        pos + h.len() + kt.len() + vt.len(),
        tf,
    ) {
        lemma_item_join(s, pos + h.len() + kt.len(), vt, tf);
        lemma_item_join(s, pos + h.len(), kt, vt + tf);
        lemma_item_join(s, pos, h, kt + (vt + tf));
    }
}

/// The structure at `pos` (flat, or a tree with its depth, fanout and chunk count), and where
/// the next item starts.
#[verifier::rlimit(60)]
#[verifier::spinoff_prover]
pub fn read_structure(b: &[u8], pos: usize) -> (r: Option<(ManifestStructure, usize)>)
    ensures
        r matches Some((st, p)) ==> item_at(b@, pos as int, structure_cbor(st)) && p == pos + structure_cbor(st).len(),
        item_at(b@, pos as int, structure_cbor(ManifestStructure::Flat)) ==> r == Some(
            (ManifestStructure::Flat, (pos + structure_cbor(ManifestStructure::Flat).len()) as usize),
        ),
        forall|d: u8, f: u16, c: u64| #[trigger]
            item_at(b@, pos as int, structure_cbor(ManifestStructure::Tree { depth: d, fanout: f, chunk_count: c })) ==> r
                == Some(
                (
                    ManifestStructure::Tree { depth: d, fanout: f, chunk_count: c },
                    (pos + structure_cbor(ManifestStructure::Tree { depth: d, fanout: f, chunk_count: c }).len()) as usize,
                ),
            ),
{
    let ghost s = b@;
    proof {
        reveal_strlit("flat");
        reveal_strlit("tree");
        lemma_flat_parts(s, pos as int);
        assert(crate::cbor_read::head_at(s, pos as int, 5, (1u64) as nat) == item_at(s, pos as int, cbor_map_head(1)));
        assert(crate::cbor_read::head_at(s, pos as int, 5, (4u64) as nat) == item_at(s, pos as int, cbor_map_head(4)));
        assert forall|d: u8, f: u16, c: u64| #[trigger]
            item_at(s, pos as int, structure_cbor(ManifestStructure::Tree { depth: d, fanout: f, chunk_count: c })) implies item_at(
            s,
            pos as int,
            cbor_map_head(4),
        ) && item_at(s, pos + cbor_map_head(4).len(), cbor_text("type"@)) && item_at(
            s,
            pos + cbor_map_head(4).len() + cbor_text("type"@).len(),
            cbor_text("tree"@),
        ) && item_at(
            s,
            pos + cbor_map_head(4).len() + cbor_text("type"@).len() + cbor_text("tree"@).len(),
            tree_fields_cbor(d, f, c),
        ) by {
            lemma_tree_parts(s, pos as int, d, f, c);
        }
    }
    let (m, n, p0) = match read_head(b, pos) {
        Some(h) => h,
        None => return None,
    };
    let p1 = match expect_text(b, p0, "type") {
        Some(p) => p,
        None => return None,
    };
    let (kind, p2) = match read_text(b, p1) {
        Some(x) => x,
        None => return None,
    };
    if m == 5 && n == 1 && str_equals(kind.as_str(), "flat") {
        proof {
            lemma_flat_parts(s, pos as int);
        }
        return Some((ManifestStructure::Flat, p2));
    }
    if !(m == 5 && n == 4 && str_equals(kind.as_str(), "tree")) {
        return None;
    }
    let (depth, fanout, chunk_count, p3) = match read_tree_fields(b, p2) {
        Some(x) => x,
        None => return None,
    };
    proof {
        lemma_tree_parts(s, pos as int, depth, fanout, chunk_count);
    }
    Some((ManifestStructure::Tree { depth, fanout, chunk_count }, p3))
}


/// The view of an optional text.
pub open spec fn text_view(o: Option<String>) -> Option<Seq<char>> {
    match o {
        Some(t) => Some(t@),
        None => None,
    }
}

/// An optional text field: its key and value, or nothing.
pub open spec fn opt_field(key: Seq<char>, v: Option<Seq<char>>) -> Seq<u8> {
    match v {
        Some(t) => cbor_text(key) + cbor_text(t),
        None => Seq::empty(),
    }
}

/// The optional text field `key` at `pos`: its value when the item there is that key, and
/// nothing (with nothing read) when the item there is another text.
#[verifier::spinoff_prover]
fn read_opt_text(b: &[u8], pos: usize, key: &str) -> (r: Option<(Option<String>, usize)>)
    ensures
        r matches Some((o, p)) ==> item_at(b@, pos as int, opt_field(key@, text_view(o))) && p == pos + opt_field(
            key@,
            text_view(o),
        ).len(),
        forall|o: Option<Seq<char>>| o is Some && #[trigger] item_at(b@, pos as int, opt_field(key@, o)) ==> (r matches Some(
            (o2, p),
        ) && text_view(o2) == o && p == pos + opt_field(key@, o).len()),
        forall|x: Seq<char>| x != key@ && #[trigger] item_at(b@, pos as int, cbor_text(x)) ==> (r matches Some((o, p)) && o is None
            && p == pos),
{
    let ghost s = b@;
    if pos > b.len() {
        return None;
    }
    match expect_text(b, pos, key) {
        Some(q) => {
            match read_text(b, q) {
                Some((t, p)) => {
                    proof {
                        lemma_item_join(s, pos as int, cbor_text(key@), cbor_text(t@));
                        assert forall|o: Option<Seq<char>>| o is Some && #[trigger] item_at(s, pos as int, opt_field(key@, o)) implies o
                            == Some(t@) by {
                            lemma_item_split(s, pos as int, cbor_text(key@), cbor_text(o->0));
                        }
                    }
                    Some((Some(t), p))
                },
                None => {
                    proof {
                        assert forall|o: Option<Seq<char>>| o is Some && #[trigger] item_at(s, pos as int, opt_field(key@, o)) implies false by {
                            lemma_item_split(s, pos as int, cbor_text(key@), cbor_text(o->0));
                        }
                    }
                    None
                },
            }
        },
        None => {
            proof {
                assert(s.subrange(pos as int, pos as int) =~= Seq::<u8>::empty());
                assert(opt_field(key@, None) =~= Seq::<u8>::empty());
                assert forall|o: Option<Seq<char>>| o is Some && #[trigger] item_at(s, pos as int, opt_field(key@, o)) implies false by {
                    lemma_item_split(s, pos as int, cbor_text(key@), cbor_text(o->0));
                }
            }
            Some((None, pos))
        },
    }
}

/// The metadata entry of a manifest: left out when the metadata is empty.
pub open spec fn metadata_field(md: Seq<(Seq<char>, Seq<char>)>) -> Seq<u8> {
    if md.len() > 0 {
        cbor_text("metadata"@) + metadata_cbor(md)
    } else {
        Seq::empty()
    }
}

/// The metadata entry at `pos`, or empty metadata (with nothing read) when the item there is
/// another text.
#[verifier::spinoff_prover]
fn read_opt_metadata(b: &[u8], pos: usize) -> (r: Option<(Metadata, usize)>)
    ensures
        r matches Some((md, p)) ==> item_at(b@, pos as int, metadata_field(md@)) && p == pos + metadata_field(md@).len(),
        r matches Some((md, p)) ==> keys_ordered(md@),
        forall|md: Seq<(Seq<char>, Seq<char>)>|
            keys_ordered(md) && md.len() > 0 && #[trigger] item_at(b@, pos as int, metadata_field(md)) ==> (r matches Some((x, p))
                && x@ == md && p == pos + metadata_field(md).len()),
        forall|x: Seq<char>| x != "metadata"@ && #[trigger] item_at(b@, pos as int, cbor_text(x)) ==> (r matches Some((md, p))
            && md@.len() == 0 && p == pos),
{
    let ghost s = b@;
    let ghost km = cbor_text("metadata"@);
    if pos > b.len() {
        return None;
    }
    match expect_text(b, pos, "metadata") {
        Some(q) => {
            match read_metadata(b, q) {
                Some((md, p)) => {
                    proof {
                        lemma_item_join(s, pos as int, km, metadata_cbor(md@));
                        assert forall|x: Seq<(Seq<char>, Seq<char>)>|
                            keys_ordered(x) && x.len() > 0 && #[trigger] item_at(s, pos as int, metadata_field(x)) implies md@ == x by {
                            lemma_item_split(s, pos as int, km, metadata_cbor(x));
                        }
                    }
                    Some((md, p))
                },
                None => {
                    proof {
                        assert forall|x: Seq<(Seq<char>, Seq<char>)>|
                            keys_ordered(x) && x.len() > 0 && #[trigger] item_at(s, pos as int, metadata_field(x)) implies false by {
                            lemma_item_split(s, pos as int, km, metadata_cbor(x));
                        }
                    }
                    None
                },
            }
        },
        None => {
            let md = Metadata::new();
            proof {
                assert(s.subrange(pos as int, pos as int) =~= Seq::<u8>::empty());
                assert(metadata_field(md@) =~= Seq::<u8>::empty());
                assert forall|x: Seq<(Seq<char>, Seq<char>)>|
                    keys_ordered(x) && x.len() > 0 && #[trigger] item_at(s, pos as int, metadata_field(x)) implies false by {
                    lemma_item_split(s, pos as int, km, metadata_cbor(x));
                }
            }
            Some((md, pos))
        },
    }
}


/// The map head of a manifest and its entries up to the children: the optional name, the
/// version and the children.
pub open spec fn leading_cbor(count: nat, name: Option<Seq<char>>, version: u32, ids: Seq<IdView>) -> Seq<u8> {
    cbor_map_head(count) + opt_field("name"@, name) + cbor_text("version"@) + cbor_uint(version as nat) + cbor_text(
        "children"@,
    ) + children_cbor(ids)
}

/// The map head of a manifest at the start and its entries up to the children: the entry
/// count, the name, the version, the children, and where the next entry starts.
#[verifier::rlimit(60)]
#[verifier::spinoff_prover]
fn read_leading(b: &[u8]) -> (r: Option<(u64, Option<String>, u32, Vec<ContentId>, usize)>)
    ensures
        r matches Some((n, name, v, c, p)) ==> item_at(b@, 0, leading_cbor(n as nat, text_view(name), v, ids_view(c@))) && p
            == leading_cbor(n as nat, text_view(name), v, ids_view(c@)).len(),
        r matches Some((n, name, v, c, p)) ==> parse_links(link_bytes(ids_view(c@))) == Some(ids_view(c@)),
        forall|n: u64, name: Option<Seq<char>>, v: u32, ids: Seq<IdView>|
            parse_links(link_bytes(ids)) == Some(ids) && #[trigger] item_at(b@, 0, leading_cbor(n as nat, name, v, ids)) ==> (r matches Some(
                (n2, name2, v2, c2, p),
            ) && n2 == n && text_view(name2) == name && v2 == v && ids_view(c2@) == ids && p == leading_cbor(
                n as nat,
                name,
                v,
                ids,
            ).len()),
{
    let ghost s = b@;
    let ghost kv = cbor_text("version"@);
    let ghost kc = cbor_text("children"@);
    proof {
        reveal_strlit("name");
        reveal_strlit("version");
        assert forall|n: u64, name: Option<Seq<char>>, v: u32, ids: Seq<IdView>| #[trigger]
            item_at(s, 0, leading_cbor(n as nat, name, v, ids)) implies {
            let h = cbor_map_head(n as nat);
            let o = opt_field("name"@, name);
            let ev = cbor_uint(v as nat);
            &&& crate::cbor_read::head_at(s, 0, 5, n as nat)
            &&& item_at(s, h.len() as int, o)
            &&& (name is None ==> item_at(s, h.len() as int, kv))
            &&& item_at(s, (h.len() + o.len()) as int, kv)
            &&& item_at(s, (h.len() + o.len() + kv.len()) as int, cbor_uint(((v as u64) as nat)))
            &&& item_at(s, (h.len() + o.len() + kv.len() + ev.len()) as int, kc)
            &&& item_at(s, (h.len() + o.len() + kv.len() + ev.len() + kc.len()) as int, children_cbor(ids))
        } by {
            let h = cbor_map_head(n as nat);
            let o = opt_field("name"@, name);
            let ev = cbor_uint(v as nat);
            let c = children_cbor(ids);
            assert(leading_cbor(n as nat, name, v, ids) =~= h + (o + (kv + (ev + (kc + c)))));
            lemma_item_split(s, 0, h, o + (kv + (ev + (kc + c))));
            lemma_item_split(s, h.len() as int, o, kv + (ev + (kc + c)));
            lemma_item_split(s, (h.len() + o.len()) as int, kv, ev + (kc + c));
            lemma_item_split(s, (h.len() + o.len() + kv.len()) as int, ev, kc + c);
            lemma_item_split(s, (h.len() + o.len() + kv.len() + ev.len()) as int, kc, c);
            if name is None {
                assert(o =~= Seq::<u8>::empty());
            }
        }
    }
    let (m, n, p0) = match read_head(b, 0) {
        Some(h) => h,
        None => return None,
    };
    if m != 5 {
        return None;
    }
    let (name, p1) = match read_opt_text(b, p0, "name") {
        Some(x) => x,
        None => return None,
    };
    let p2 = match expect_text(b, p1, "version") {
        Some(p) => p,
        None => return None,
    };
    let (version, p3) = match read_uint_upto(b, p2, 0xffff_ffff) {
        Some(x) => x,
        None => return None,
    };
    let p4 = match expect_text(b, p3, "children") {
        Some(p) => p,
        None => return None,
    };
    let (children, p5) = match read_children(b, p4) {
        Some(x) => x,
        None => return None,
    };
    let v = version as u32;
    proof {
        let h = cbor_map_head(n as nat);
        let o = opt_field("name"@, text_view(name));
        let ev = cbor_uint(v as nat);
        let c = children_cbor(ids_view(children@));
        lemma_item_join(s, (h.len() + o.len() + kv.len() + ev.len()) as int, kc, c);
        lemma_item_join(s, (h.len() + o.len() + kv.len()) as int, ev, kc + c);
        lemma_item_join(s, (h.len() + o.len()) as int, kv, ev + (kc + c));
        lemma_item_join(s, h.len() as int, o, kv + (ev + (kc + c)));
        lemma_item_join(s, 0, h, o + (kv + (ev + (kc + c))));
        assert(leading_cbor(n as nat, text_view(name), v, ids_view(children@)) =~= h + (o + (kv + (ev + (kc + c)))));
    }
    Some((n, name, v, children, p5))
}


/// The structure entry of a manifest, when it has one (a manifest without one reads as flat).
pub open spec fn structure_field(st: Option<ManifestStructure>) -> Seq<u8> {
    match st {
        Some(x) => cbor_text("structure"@) + structure_cbor(x),
        None => Seq::empty(),
    }
}

/// The structure entry at `pos`, or none (with nothing read) when the item there is another
/// text.
#[verifier::spinoff_prover]
fn read_opt_structure(b: &[u8], pos: usize) -> (r: Option<(Option<ManifestStructure>, usize)>)
    ensures
        r matches Some((o, p)) ==> item_at(b@, pos as int, structure_field(o)) && p == pos + structure_field(o).len(),
        forall|o: Option<ManifestStructure>| o is Some && #[trigger] item_at(b@, pos as int, structure_field(o)) ==> r == Some(
            (o, (pos + structure_field(o).len()) as usize),
        ),
        forall|x: Seq<char>| x != "structure"@ && #[trigger] item_at(b@, pos as int, cbor_text(x)) ==> r == Some(
            (None::<ManifestStructure>, pos),
        ),
{
    let ghost s = b@;
    let ghost ks = cbor_text("structure"@);
    if pos > b.len() {
        return None;
    }
    match expect_text(b, pos, "structure") {
        Some(q) => {
            let rs = read_structure(b, q);
            proof {
                assert forall|st: ManifestStructure| #[trigger] item_at(s, q as int, structure_cbor(st)) implies rs == Some(
                    (st, (q + structure_cbor(st).len()) as usize),
                ) by {
                    match st {
                        ManifestStructure::Flat => {},
                        ManifestStructure::Tree { depth, fanout, chunk_count } => {
                            assert(item_at(s, q as int, structure_cbor(ManifestStructure::Tree { depth, fanout, chunk_count })));
                        },
                    }
                }
                assert forall|o: Option<ManifestStructure>| o is Some && #[trigger] item_at(s, pos as int, structure_field(o)) implies item_at(
                    s,
                    q as int,
                    structure_cbor(o->0),
                ) by {
                    lemma_item_split(s, pos as int, ks, structure_cbor(o->0));
                }
            }
            match rs {
                Some((st, p)) => {
                    proof {
                        lemma_item_join(s, pos as int, ks, structure_cbor(st));
                    }
                    Some((Some(st), p))
                },
                None => None,
            }
        },
        None => {
            proof {
                assert(s.subrange(pos as int, pos as int) =~= Seq::<u8>::empty());
                assert(structure_field(None) =~= Seq::<u8>::empty());
                assert forall|o: Option<ManifestStructure>| o is Some && #[trigger] item_at(s, pos as int, structure_field(o)) implies false by {
                    lemma_item_split(s, pos as int, ks, structure_cbor(o->0));
                }
            }
            Some((None, pos))
        },
    }
}

/// The creation time and total size entries of a manifest.
pub open spec fn times_cbor(created_at: u64, total_size: u64) -> Seq<u8> {
    cbor_text("created_at"@) + cbor_uint(created_at as nat) + cbor_text("total_size"@) + cbor_uint(total_size as nat)
}

/// The creation time and total size entries at `pos`, and where the next entry starts.
#[verifier::spinoff_prover]
fn read_times(b: &[u8], pos: usize) -> (r: Option<(u64, u64, usize)>)
    ensures
        r matches Some((c, t, p)) ==> item_at(b@, pos as int, times_cbor(c, t)) && p == pos + times_cbor(c, t).len(),
        forall|c: u64, t: u64| #[trigger] item_at(b@, pos as int, times_cbor(c, t)) ==> r == Some(
            (c, t, (pos + times_cbor(c, t).len()) as usize),
        ),
{
    let ghost s = b@;
    let ghost kr = cbor_text("created_at"@);
    let ghost kt = cbor_text("total_size"@);
    proof {
        assert forall|c: u64, t: u64| #[trigger] item_at(s, pos as int, times_cbor(c, t)) implies {
            let ec = cbor_uint(c as nat);
            &&& item_at(s, pos as int, kr)
            &&& item_at(s, pos + kr.len(), ec)
            &&& item_at(s, pos + kr.len() + ec.len(), kt)
            &&& item_at(s, pos + kr.len() + ec.len() + kt.len(), cbor_uint(t as nat))
        } by {
            let ec = cbor_uint(c as nat);
            let et = cbor_uint(t as nat);
            assert(times_cbor(c, t) =~= kr + (ec + (kt + et)));
            lemma_item_split(s, pos as int, kr, ec + (kt + et));
            lemma_item_split(s, pos + kr.len(), ec, kt + et);
            lemma_item_split(s, pos + kr.len() + ec.len(), kt, et);
        }
    }
    let p1 = match expect_text(b, pos, "created_at") {
        Some(p) => p,
        None => return None,
    };
    let (created_at, p2) = match read_uint(b, p1) {
        Some(x) => x,
        None => return None,
    };
    let p3 = match expect_text(b, p2, "total_size") {
        Some(p) => p,
        None => return None,
    };
    let (total_size, p4) = match read_uint(b, p3) {
        Some(x) => x,
        None => return None,
    };
    proof {
        let ec = cbor_uint(created_at as nat);
        let et = cbor_uint(total_size as nat);
        lemma_item_join(s, pos + kr.len() + ec.len(), kt, et);
        lemma_item_join(s, pos + kr.len(), ec, kt + et);
        lemma_item_join(s, pos as int, kr, ec + (kt + et));
        assert(times_cbor(created_at, total_size) =~= kr + (ec + (kt + et)));
    }
    Some((created_at, total_size, p4))
}

/// The entries of a manifest from the metadata to the total size.
pub open spec fn middle_cbor(
    md: Seq<(Seq<char>, Seq<char>)>,
    st: Option<ManifestStructure>,
    created_at: u64,
    total_size: u64,
) -> Seq<u8> {
    metadata_field(md) + structure_field(st) + times_cbor(created_at, total_size)
}

/// An item that starts with the text `key` has that text at its start.
proof fn lemma_starts_with(s: Seq<u8>, pos: int, key: Seq<char>, e: Seq<u8>)
    requires
        item_at(s, pos, e),
        cbor_text(key).len() <= e.len(),
        e.subrange(0, cbor_text(key).len() as int) == cbor_text(key),
    ensures
        item_at(s, pos, cbor_text(key)),
{
    let k = cbor_text(key);
    assert(e =~= k + e.skip(k.len() as int));
    lemma_item_split(s, pos, k, e.skip(k.len() as int));
}

/// The entries of a manifest at `pos` from the metadata to the total size, and where the next
/// entry starts.
#[verifier::rlimit(60)]
#[verifier::spinoff_prover]
fn read_middle(b: &[u8], pos: usize) -> (r: Option<(Metadata, Option<ManifestStructure>, u64, u64, usize)>)
    ensures
        r matches Some((md, st, c, t, p)) ==> item_at(b@, pos as int, middle_cbor(md@, st, c, t)) && p == pos + middle_cbor(
            md@,
            st,
            c,
            t,
        ).len(),
        r matches Some((md, st, c, t, p)) ==> keys_ordered(md@),
        forall|md: Seq<(Seq<char>, Seq<char>)>, st: Option<ManifestStructure>, c: u64, t: u64|
            keys_ordered(md) && #[trigger] item_at(b@, pos as int, middle_cbor(md, st, c, t)) ==> (r matches Some(
                (md2, st2, c2, t2, p),
            ) && md2@ == md && st2 == st && c2 == c && t2 == t && p == pos + middle_cbor(md, st, c, t).len()),
{
    let ghost s = b@;
    let ghost ks = cbor_text("structure"@);
    let ghost kr = cbor_text("created_at"@);
    proof {
        reveal_strlit("structure");
        reveal_strlit("metadata");
        reveal_strlit("created_at");
        assert forall|md: Seq<(Seq<char>, Seq<char>)>, st: Option<ManifestStructure>, c: u64, t: u64| #[trigger]
            item_at(s, pos as int, middle_cbor(md, st, c, t)) implies {
            let f = metadata_field(md);
            let sf = structure_field(st);
            &&& item_at(s, pos as int, f)
            &&& item_at(s, pos + f.len(), sf)
            &&& item_at(s, pos + f.len() + sf.len(), times_cbor(c, t))
            &&& (st is Some ==> item_at(s, pos + f.len(), ks))
            &&& (st is None ==> item_at(s, pos + f.len(), kr))
            &&& (md.len() == 0 ==> f.len() == 0)
        } by {
            let f = metadata_field(md);
            let sf = structure_field(st);
            let tc = times_cbor(c, t);
            assert(middle_cbor(md, st, c, t) =~= f + (sf + tc));
            lemma_item_split(s, pos as int, f, sf + tc);
            lemma_item_split(s, pos + f.len(), sf, tc);
            if st is Some {
                assert(sf.subrange(0, ks.len() as int) =~= ks);
                lemma_starts_with(s, pos + f.len(), "structure"@, sf);
            } else {
                assert(sf =~= Seq::<u8>::empty());
                assert(tc.subrange(0, kr.len() as int) =~= kr);
                lemma_starts_with(s, pos + f.len(), "created_at"@, tc);
            }
        }
    }
    let (md, p1) = match read_opt_metadata(b, pos) {
        Some(x) => x,
        None => return None,
    };
    let (st, p2) = match read_opt_structure(b, p1) {
        Some(x) => x,
        None => return None,
    };
    let (created_at, total_size, p3) = match read_times(b, p2) {
        Some(x) => x,
        None => return None,
    };
    proof {
        let f = metadata_field(md@);
        let sf = structure_field(st);
        let tc = times_cbor(created_at, total_size);
        lemma_item_join(s, pos + f.len(), sf, tc);
        lemma_item_join(s, pos as int, f, sf + tc);
        assert(middle_cbor(md@, st, created_at, total_size) =~= f + (sf + tc));
    }
    Some((md, st, created_at, total_size, p3))
}

/// The entries of a manifest from the content type to the chunking algorithm.
pub open spec fn trailing_cbor(ct: Option<Seq<char>>, did: Seq<char>, alg: ChunkingAlgorithm) -> Seq<u8> {
    opt_field("content_type"@, ct) + cbor_text("publisher_did"@) + cbor_text(did) + cbor_text("chunking_algorithm"@)
        + cbor_text(algorithm_text(alg))
}

/// The entries of a manifest at `pos` from the content type to the chunking algorithm, and
/// where the encoding ends.
#[verifier::rlimit(80)]
#[verifier::spinoff_prover]
fn read_trailing(b: &[u8], pos: usize) -> (r: Option<(Option<String>, String, ChunkingAlgorithm, usize)>)
    ensures
        r matches Some((ct, did, a, p)) ==> item_at(b@, pos as int, trailing_cbor(text_view(ct), did@, a)) && p == pos
            + trailing_cbor(text_view(ct), did@, a).len(),
        forall|ct: Option<Seq<char>>, did: Seq<char>, a: ChunkingAlgorithm| #[trigger]
            item_at(b@, pos as int, trailing_cbor(ct, did, a)) ==> (r matches Some((ct2, did2, a2, p)) && text_view(ct2) == ct
                && did2@ == did && a2 == a && p == pos + trailing_cbor(ct, did, a).len()),
{
    let ghost s = b@;
    let ghost kp = cbor_text("publisher_did"@);
    let ghost ka = cbor_text("chunking_algorithm"@);
    proof {
        reveal_strlit("content_type");
        reveal_strlit("publisher_did");
        assert forall|ct: Option<Seq<char>>, did: Seq<char>, a: ChunkingAlgorithm| #[trigger]
            item_at(s, pos as int, trailing_cbor(ct, did, a)) implies {
            let o = opt_field("content_type"@, ct);
            let ed = cbor_text(did);
            &&& item_at(s, pos as int, o)
            &&& (ct is None ==> item_at(s, pos as int, kp))
            &&& item_at(s, pos + o.len(), kp)
            &&& item_at(s, pos + o.len() + kp.len(), ed)
            &&& item_at(s, pos + o.len() + kp.len() + ed.len(), ka)
            &&& item_at(s, pos + o.len() + kp.len() + ed.len() + ka.len(), cbor_text(algorithm_text(a)))
        } by {
            let o = opt_field("content_type"@, ct);
            let ed = cbor_text(did);
            let ea = cbor_text(algorithm_text(a));
            assert(trailing_cbor(ct, did, a) =~= o + (kp + (ed + (ka + ea))));
            lemma_item_split(s, pos as int, o, kp + (ed + (ka + ea)));
            lemma_item_split(s, pos + o.len(), kp, ed + (ka + ea));
            lemma_item_split(s, pos + o.len() + kp.len(), ed, ka + ea);
            lemma_item_split(s, pos + o.len() + kp.len() + ed.len(), ka, ea);
            if ct is None {
                assert(o =~= Seq::<u8>::empty());
            }
        }
    }
    let (ct, p1) = match read_opt_text(b, pos, "content_type") {
        Some(x) => x,
        None => return None,
    };
    let p2 = match expect_text(b, p1, "publisher_did") {
        Some(p) => p,
        None => return None,
    };
    let (did, p3) = match read_text(b, p2) {
        Some(x) => x,
        None => return None,
    };
    let p4 = match expect_text(b, p3, "chunking_algorithm") {
        Some(p) => p,
        None => return None,
    };
    let (a, p5) = match read_algorithm(b, p4) {
        Some(x) => x,
        None => return None,
    };
    proof {
        let o = opt_field("content_type"@, text_view(ct));
        let ed = cbor_text(did@);
        let ea = cbor_text(algorithm_text(a));
        lemma_item_join(s, pos + o.len() + kp.len() + ed.len(), ka, ea);
        lemma_item_join(s, pos + o.len() + kp.len(), ed, ka + ea);
        lemma_item_join(s, pos + o.len(), kp, ed + (ka + ea));
        lemma_item_join(s, pos as int, o, kp + (ed + (ka + ea)));
        assert(trailing_cbor(text_view(ct), did@, a) =~= o + (kp + (ed + (ka + ea))));
    }
    Some((ct, did, a, p5))
}


/// Two manifests holding the same values, each field taken by its view.
pub open spec fn same_manifest(a: DocumentManifest, b: DocumentManifest) -> bool {
    &&& a.version == b.version
    &&& text_view(a.name) == text_view(b.name)
    &&& text_view(a.content_type) == text_view(b.content_type)
    &&& a.total_size == b.total_size
    &&& a.structure == b.structure
    &&& ids_view(a.children@) == ids_view(b.children@)
    &&& a.chunking_algorithm == b.chunking_algorithm
    &&& a.publisher_did@ == b.publisher_did@
    &&& a.created_at == b.created_at
    &&& a.metadata@ == b.metadata@
}

/// The encoding of a manifest without its structure entry, as manifests carried before they
/// had one: one entry fewer in the map head, and no structure between the metadata and the
/// creation time. Such an encoding reads as a flat manifest.
pub open spec fn unstructured_manifest_cbor(m: DocumentManifest) -> Seq<u8> {
    leading_cbor(
        ((manifest_field_count(m) - 1) as u64) as nat,
        text_view(m.name),
        m.version,
        ids_view(m.children@),
    ) + middle_cbor(m.metadata@, None, m.created_at, m.total_size) + trailing_cbor(
        text_view(m.content_type),
        m.publisher_did@,
        m.chunking_algorithm,
    )
}

/// The encoding of a manifest in three parts: the head with the entries up to the children,
/// the entries up to the total size, and the rest.
pub proof fn lemma_manifest_segments(m: DocumentManifest)
    ensures
        7 <= manifest_field_count(m) <= 10,
        manifest_cbor(m) == leading_cbor(
            (manifest_field_count(m) as u64) as nat,
            text_view(m.name),
            m.version,
            ids_view(m.children@),
        ) + middle_cbor(m.metadata@, Some(m.structure), m.created_at, m.total_size) + trailing_cbor(
            text_view(m.content_type),
            m.publisher_did@,
            m.chunking_algorithm,
        ),
{
    assert(optional_text("name"@, m.name) == opt_field("name"@, text_view(m.name)));
    assert(optional_text("content_type"@, m.content_type) == opt_field("content_type"@, text_view(m.content_type)));
    assert(manifest_leading(m) =~= leading_cbor(
        (manifest_field_count(m) as u64) as nat,
        text_view(m.name),
        m.version,
        ids_view(m.children@),
    ));
    assert(manifest_middle(m) =~= middle_cbor(m.metadata@, Some(m.structure), m.created_at, m.total_size));
    assert(manifest_trailing(m) =~= trailing_cbor(text_view(m.content_type), m.publisher_did@, m.chunking_algorithm));
}

/// Canonical encoding: manifests holding the same values have the same encoding, and so the
/// same root identifier.
pub proof fn law_same_manifest_same_encoding(a: DocumentManifest, b: DocumentManifest)
    requires
        same_manifest(a, b),
    ensures
        manifest_cbor(a) == manifest_cbor(b),
        id_of(DAG_CBOR_CODEC, manifest_cbor(a)) == id_of(DAG_CBOR_CODEC, manifest_cbor(b)),
{
    lemma_manifest_segments(a);
    lemma_manifest_segments(b);
}

/// The three parts of an encoding found in `s`, each where the one before ends, up to its end.
pub open spec fn segments_at(s: Seq<u8>, l: Seq<u8>, mid: Seq<u8>, t: Seq<u8>) -> bool {
    &&& item_at(s, 0, l)
    &&& item_at(s, l.len() as int, mid)
    &&& item_at(s, (l.len() + mid.len()) as int, t)
    &&& l.len() + mid.len() + t.len() == s.len()
}

/// Bytes made of three parts hold each part where the one before ends, and back.
proof fn lemma_segments(s: Seq<u8>, l: Seq<u8>, mid: Seq<u8>, t: Seq<u8>)
    ensures
        s == l + mid + t <==> segments_at(s, l, mid, t),
{
    if s == l + mid + t {
        lemma_whole(s, l + mid + t);
        assert(l + mid + t =~= l + (mid + t));
        lemma_item_split(s, 0, l, mid + t);
        lemma_item_split(s, l.len() as int, mid, t);
    }
    if segments_at(s, l, mid, t) {
        lemma_item_join(s, l.len() as int, mid, t);
        lemma_item_join(s, 0, l, mid + t);
        assert(l + mid + t =~= l + (mid + t));
        lemma_whole(s, l + mid + t);
    }
}

impl DocumentManifest {
    /// Reads a manifest back from its DAG-CBOR encoding. The canonical encodings of manifests
    /// are accepted, and so are encodings that leave out the structure entry, which read as
    /// flat manifests; each manifest whose encoding can give it back is read from its
    /// encoding. Anything else is a serialization error.
    #[verifier::rlimit(60)]
    #[verifier::spinoff_prover]
    pub fn from_dag_cbor(bytes: &[u8]) -> (r: Result<DocumentManifest, BlockStoreError>)
        ensures
            r matches Ok(m) ==> decodable(m) && (manifest_cbor(m) == bytes@ || (m.structure is Flat
                && unstructured_manifest_cbor(m) == bytes@)),
            r matches Err(e) ==> e is Serialization,
            forall|m: DocumentManifest| decodable(m) && #[trigger] manifest_cbor(m) == bytes@ ==> (r matches Ok(x)
                && same_manifest(x, m)),
            forall|m: DocumentManifest|
                decodable(m) && m.structure is Flat && #[trigger] unstructured_manifest_cbor(m) == bytes@ ==> (r matches Ok(x)
                    && same_manifest(x, m)),
    {
        let ghost s = bytes@;
        let len = bytes.len();
        proof {
            assert forall|m: DocumentManifest| decodable(m) && #[trigger] manifest_cbor(m) == s implies segments_at(
                s,
                leading_cbor((manifest_field_count(m) as u64) as nat, text_view(m.name), m.version, ids_view(m.children@)),
                middle_cbor(m.metadata@, Some(m.structure), m.created_at, m.total_size),
                trailing_cbor(text_view(m.content_type), m.publisher_did@, m.chunking_algorithm),
            ) by {
                lemma_manifest_segments(m);
                lemma_segments(
                    s,
                    leading_cbor((manifest_field_count(m) as u64) as nat, text_view(m.name), m.version, ids_view(m.children@)),
                    middle_cbor(m.metadata@, Some(m.structure), m.created_at, m.total_size),
                    trailing_cbor(text_view(m.content_type), m.publisher_did@, m.chunking_algorithm),
                );
            }
            assert forall|m: DocumentManifest|
                decodable(m) && m.structure is Flat && #[trigger] unstructured_manifest_cbor(m) == s implies segments_at(
                s,
                leading_cbor(
                    ((manifest_field_count(m) - 1) as u64) as nat,
                    text_view(m.name),
                    m.version,
                    ids_view(m.children@),
                ),
                middle_cbor(m.metadata@, None, m.created_at, m.total_size),
                trailing_cbor(text_view(m.content_type), m.publisher_did@, m.chunking_algorithm),
            ) by {
                lemma_segments(
                    s,
                    leading_cbor(
                        ((manifest_field_count(m) - 1) as u64) as nat,
                        text_view(m.name),
                        m.version,
                        ids_view(m.children@),
                    ),
                    middle_cbor(m.metadata@, None, m.created_at, m.total_size),
                    trailing_cbor(text_view(m.content_type), m.publisher_did@, m.chunking_algorithm),
                );
            }
        }
        let (count, name, version, children, p1) = match read_leading(bytes) {
            Some(x) => x,
            None => return Err(deserialize_error()),
        };
        let (metadata, structure, created_at, total_size, p2) = match read_middle(bytes, p1) {
            Some(x) => x,
            None => return Err(deserialize_error()),
        };
        let (content_type, publisher_did, chunking_algorithm, p3) = match read_trailing(bytes, p2) {
            Some(x) => x,
            None => return Err(deserialize_error()),
        };
        let expected: u64 = 6 + (if name.is_some() { 1u64 } else { 0 }) + (if content_type.is_some() { 1u64 } else { 0 }) + (
        if metadata.is_empty() { 0u64 } else { 1 }) + (if structure.is_some() { 1u64 } else { 0 });
        if p3 != len || count != expected {
            return Err(deserialize_error());
        }
        let m = DocumentManifest {
            version,
            name,
            content_type,
            total_size,
            structure: match structure {
                Some(st) => st,
                None => ManifestStructure::Flat,
            },
            children,
            chunking_algorithm,
            publisher_did,
            created_at,
            metadata,
        };
        proof {
            lemma_manifest_segments(m);
            lemma_segments(
                s,
                leading_cbor(count as nat, text_view(m.name), m.version, ids_view(m.children@)),
                middle_cbor(m.metadata@, structure, m.created_at, m.total_size),
                trailing_cbor(text_view(m.content_type), m.publisher_did@, m.chunking_algorithm),
            );
        }
        Ok(m)
    }
}

/// The error of an input that is not a canonical encoding.
fn deserialize_error() -> (e: BlockStoreError)
    ensures
        e is Serialization,
{
    BlockStoreError::Serialization(String::from_str("Failed to deserialize: not a canonical DAG-CBOR encoding"))
}


impl TreeNode {
    /// Reads a tree node back from its DAG-CBOR encoding. Exactly the canonical encodings of
    /// tree nodes are accepted, and each node whose children read back from their binary
    /// forms is read from its encoding; anything else is a serialization error.
    pub fn from_dag_cbor(bytes: &[u8]) -> (r: Result<TreeNode, BlockStoreError>)
        ensures
            r matches Ok(n) ==> tree_node_cbor(ids_view(n.children@), n.is_leaf_level) == bytes@ && parse_links(
                link_bytes(ids_view(n.children@)),
            ) == Some(ids_view(n.children@)),
            r matches Err(e) ==> e is Serialization,
            forall|ids: Seq<IdView>, leaf: bool|
                parse_links(link_bytes(ids)) == Some(ids) && #[trigger] tree_node_cbor(ids, leaf) == bytes@ ==> (r matches Ok(n)
                    && ids_view(n.children@) == ids && n.is_leaf_level == leaf),
    {
        match read_tree_node(bytes) {
            Some((children, is_leaf_level)) => Ok(TreeNode { children, is_leaf_level }),
            None => Err(deserialize_error()),
        }
    }
}

} // verus!
