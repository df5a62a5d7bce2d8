//! Federated search across local space collections and the remote content collection: scopes,
//! result sources, and the bookkeeping of local collections.

use vstd::prelude::*;

use vstd::string::*;

use crate::text::{decimal, decimal_string, str_equals};

verus! {

/// Errors of federated search.
#[derive(Debug)]
pub enum FederatedSearchError {
    /// Embedding the query failed.
    Embedding(String),
    /// Vector database error.
    Qdrant(String),
    /// No collection to search.
    NoCollections,
}

/// Which collections a federated search covers.
#[derive(Debug, Clone, Copy, PartialEq, Eq, Structural)]
pub enum SearchScope {
    /// Only local space collections.
    Local,
    /// Only the remote content collection.
    Remote,
    /// Both (the default).
    All,
}

impl Default for SearchScope {
    fn default() -> (r: Self)
        ensures
            r == SearchScope::All,
    {
        SearchScope::All
    }
}

impl SearchScope {
    /// Whether local space collections are searched.
    pub fn searches_local(&self) -> (r: bool)
        ensures
            r == (*self == SearchScope::Local || *self == SearchScope::All),
    {
        *self == SearchScope::Local || *self == SearchScope::All
    }

    /// Whether the remote content collection is searched.
    pub fn searches_remote(&self) -> (r: bool)
        ensures
            r == (*self == SearchScope::Remote || *self == SearchScope::All),
    {
        *self == SearchScope::Remote || *self == SearchScope::All
    }
}

/// Where a federated result came from.
#[derive(Debug, Clone, Copy, PartialEq, Eq, Structural)]
pub enum ResultSource {
    /// A local space collection.
    Local,
    /// The remote content collection.
    Remote,
}

/// The name of the collection that holds indexed remote content.
pub const REMOTE_CONTENT_COLLECTION: &'static str = "remote-content-idx";

/// The collections a search in `scope` covers, in order, each with the source of its results:
/// the local collections first (when the scope covers them), then the remote content
/// collection (when it does).
pub open spec fn search_plan_view(scope: SearchScope, local: Seq<Seq<char>>) -> Seq<(Seq<char>, ResultSource)> {
    (if scope == SearchScope::Local || scope == SearchScope::All {
        local.map_values(|n: Seq<char>| (n, ResultSource::Local))
    } else {
        Seq::empty()
    }) + (if scope == SearchScope::Remote || scope == SearchScope::All {
        seq![("remote-content-idx"@, ResultSource::Remote)]
    } else {
        Seq::empty()
    })
}

/// The collections to search for `scope`, given the registered local collections.
pub fn search_plan(scope: SearchScope, local: &Vec<String>) -> (r: Vec<(String, ResultSource)>)
    ensures
        r@.map_values(|e: (String, ResultSource)| (e.0@, e.1)) == search_plan_view(scope, names_view(local@)),
{
    let mut out: Vec<(String, ResultSource)> = Vec::new();
    if scope.searches_local() {
        let mut i: usize = 0;
        while i < local.len()
            invariant
                i <= local@.len(),
                out@.map_values(|e: (String, ResultSource)| (e.0@, e.1)) == names_view(local@).subrange(0, i as int).map_values(
                    |n: Seq<char>| (n, ResultSource::Local),
                ),
            decreases local@.len() - i,
        {
            let name = local[i].clone();
            assert(name@ == local@[i as int]@);
            let ghost before = out@;
            out.push((name, ResultSource::Local));
            assert(out@.map_values(|e: (String, ResultSource)| (e.0@, e.1)) =~= before.map_values(
                |e: (String, ResultSource)| (e.0@, e.1),
            ).push((local@[i as int]@, ResultSource::Local)));
            assert(names_view(local@).subrange(0, i + 1) =~= names_view(local@).subrange(0, i as int).push(local@[i as int]@));
            i = i + 1;
            assert(out@.map_values(|e: (String, ResultSource)| (e.0@, e.1)) =~= names_view(local@).subrange(0, i as int).map_values(
                |n: Seq<char>| (n, ResultSource::Local),
            ));
        }
        assert(names_view(local@).subrange(0, local@.len() as int) =~= names_view(local@));
    }
    let ghost mid = out@;
    if scope.searches_remote() {
        proof {
            reveal_strlit("remote-content-idx");
        }
        out.push((REMOTE_CONTENT_COLLECTION.to_owned(), ResultSource::Remote));
    }
    assert(out@.map_values(|e: (String, ResultSource)| (e.0@, e.1)) =~= search_plan_view(scope, names_view(local@)));
    out
}

/// Whether a search must first discover the local collections: it covers them and none is
/// registered.
pub fn needs_discovery(scope: SearchScope, registered: usize) -> (r: bool)
    ensures
        r == ((scope == SearchScope::Local || scope == SearchScope::All) && registered == 0),
{
    scope.searches_local() && registered == 0
}

/// Whether a collection name is that of a local space collection: `space-…-idx`.
pub open spec fn is_space_collection_name(name: Seq<char>) -> bool {
    &&& name.len() >= 6
    &&& name.subrange(0, 6) == "space-"@
    &&& name.len() >= 4
    &&& name.subrange(name.len() - 4, name.len() as int) == "-idx"@
}

/// Whether a collection name is that of a local space collection (it starts with `space-` and
/// ends with `-idx`).
pub fn is_space_collection(name: &str) -> (r: bool)
    ensures
        r == is_space_collection_name(name@),
{
    proof {
        reveal_strlit("space-");
        reveal_strlit("-idx");
    }
    let n = name.unicode_len();
    if n < 6 {
        return false;
    }
    let prefix = "space-";
    let mut i: usize = 0;
    while i < 6
        invariant
            n == name@.len(),
            n >= 6,
            prefix@ == "space-"@,
            prefix@.len() == 6,
            i <= 6,
            forall|j: int| 0 <= j < i ==> name@[j] == prefix@[j],
        decreases 6 - i,
    {
        if name.get_char(i) != prefix.get_char(i) {
            assert(name@.subrange(0, 6)[i as int] != "space-"@[i as int]);
            return false;
        }
        i = i + 1;
    }
    assert(name@.subrange(0, 6) =~= "space-"@);
    let suffix = "-idx";
    let mut k: usize = 0;
    while k < 4
        invariant
            n == name@.len(),
            n >= 6,
            suffix@ == "-idx"@,
            suffix@.len() == 4,
            k <= 4,
            forall|j: int| 0 <= j < k ==> name@[n - 4 + j] == suffix@[j],
        decreases 4 - k,
    {
        if name.get_char(n - 4 + k) != suffix.get_char(k) {
            assert(name@.subrange(n - 4, n as int)[k as int] != "-idx"@[k as int]);
            return false;
        }
        k = k + 1;
    }
    assert(name@.subrange(n - 4, n as int) =~= "-idx"@);
    true
}

/// Filtering a sequence with one more item at the end.
pub proof fn lemma_filter_push<A>(s: Seq<A>, p: spec_fn(A) -> bool, x: A)
    ensures
        s.push(x).filter(p) == (if p(x) { s.filter(p).push(x) } else { s.filter(p) }),
{
    reveal(Seq::filter);
    assert(s.push(x).drop_last() =~= s);
}

/// The text views of a list of names.
pub open spec fn names_view(s: Seq<String>) -> Seq<Seq<char>> {
    s.map_values(|x: String| x@)
}

/// The local space collections among listed collection names, in order.
pub fn space_collections(names: &Vec<String>) -> (r: Vec<String>)
    ensures
        names_view(r@) == names_view(names@).filter(|n: Seq<char>| is_space_collection_name(n)),
{
    let mut out: Vec<String> = Vec::new();
    let mut i: usize = 0;
    while i < names.len()
        invariant
            i <= names@.len(),
            names_view(out@) == names_view(names@.subrange(0, i as int)).filter(|n: Seq<char>| is_space_collection_name(n)),
        decreases names@.len() - i,
    {
        let keep = is_space_collection(names[i].as_str());
        proof {
            let pre = names_view(names@.subrange(0, i as int));
            let next = names_view(names@.subrange(0, i + 1));
            assert(next =~= pre.push(names@[i as int]@));
            assert(next.drop_last() =~= pre);
            lemma_filter_push(pre, |n: Seq<char>| is_space_collection_name(n), names@[i as int]@);
        }
        if keep {
            let c = names[i].clone();
            proof {
                assert(names_view(out@.push(c)) =~= names_view(out@).push(c@));
            }
            out.push(c);
        }
        i = i + 1;
    }
    assert(names@.subrange(0, names@.len() as int) =~= names@);
    out
}

/// Whether `name` is among the names.
pub fn contains_name(names: &Vec<String>, name: &str) -> (r: bool)
    ensures
        r == names_view(names@).contains(name@),
{
    let mut i: usize = 0;
    while i < names.len()
        invariant
            i <= names@.len(),
            forall|j: int| 0 <= j < i ==> names@[j]@ != name@,
        decreases names@.len() - i,
    {
        if str_equals(names[i].as_str(), name) {
            assert(names_view(names@)[i as int] == name@);
            return true;
        }
        i = i + 1;
    }
    proof {
        if names_view(names@).contains(name@) {
            let j = choose|j: int| 0 <= j < names_view(names@).len() && names_view(names@)[j] == name@;
            assert(names@[j]@ == name@);
        }
    }
    false
}

/// Registers a local collection unless it is already registered.
pub fn register_collection(collections: &mut Vec<String>, name: String)
    ensures
        names_view(old(collections)@).contains(name@) ==> names_view(final(collections)@) == names_view(old(collections)@),
        !names_view(old(collections)@).contains(name@) ==> names_view(final(collections)@) == names_view(old(collections)@).push(name@),
{
    if !contains_name(collections, name.as_str()) {
        proof {
            assert(names_view(collections@.push(name)) =~= names_view(collections@).push(name@));
        }
        collections.push(name);
    }
}

/// Removes every registration of a collection.
pub fn remove_collection(collections: &mut Vec<String>, name: &str)
    ensures
        names_view(final(collections)@) == names_view(old(collections)@).filter(|n: Seq<char>| n != name@),
{
    let ghost start = names_view(collections@);
    let mut kept: Vec<String> = Vec::new();
    let mut i: usize = 0;
    while i < collections.len()
        invariant
            i <= collections@.len(),
            start == names_view(collections@),
            names_view(kept@) == start.subrange(0, i as int).filter(|n: Seq<char>| n != name@),
        decreases collections@.len() - i,
    {
        let same = str_equals(collections[i].as_str(), name);
        proof {
            let pre = start.subrange(0, i as int);
            assert(start.subrange(0, i + 1) =~= pre.push(start[i as int]));
            lemma_filter_push(pre, |n: Seq<char>| n != name@, start[i as int]);
        }
        if !same {
            let c = collections[i].clone();
            proof {
                assert(names_view(kept@.push(c)) =~= names_view(kept@).push(c@));
            }
            kept.push(c);
        }
        i = i + 1;
    }
    assert(start.subrange(0, start.len() as int) =~= start);
    *collections = kept;
}

/// The number of local and of remote results among result sources.
pub fn count_sources(sources: &[ResultSource]) -> (r: (usize, usize))
    ensures
        r.0 == sources@.filter(|s: ResultSource| s == ResultSource::Local).len(),
        r.1 == sources@.filter(|s: ResultSource| s == ResultSource::Remote).len(),
{
    let mut local: usize = 0;
    let mut remote: usize = 0;
    let mut i: usize = 0;
    while i < sources.len()
        invariant
            i <= sources@.len(),
            local == sources@.subrange(0, i as int).filter(|s: ResultSource| s == ResultSource::Local).len(),
            remote == sources@.subrange(0, i as int).filter(|s: ResultSource| s == ResultSource::Remote).len(),
            local + remote == i,
        decreases sources@.len() - i,
    {
        let pre = Ghost(sources@.subrange(0, i as int));
        proof {
            assert(sources@.subrange(0, i + 1) =~= pre@.push(sources@[i as int]));
            lemma_filter_push(pre@, |s: ResultSource| s == ResultSource::Local, sources@[i as int]);
            lemma_filter_push(pre@, |s: ResultSource| s == ResultSource::Remote, sources@[i as int]);
        }
        match sources[i] {
            ResultSource::Local => {
                local = local + 1;
            },
            ResultSource::Remote => {
                remote = remote + 1;
            },
        }
        i = i + 1;
    }
    assert(sources@.subrange(0, sources@.len() as int) =~= sources@);
    (local, remote)
}

/// Registering a collection twice registers it once: registration keeps the list free of
/// duplicates.
pub proof fn law_register_no_duplicates(names: Seq<Seq<char>>, name: Seq<char>)
    requires
        names.no_duplicates(),
    ensures
        (if names.contains(name) { names } else { names.push(name) }).no_duplicates(),
{
    if !names.contains(name) {
        assert forall|i: int, j: int| 0 <= i < j < names.push(name).len() implies names.push(name)[i] != names.push(name)[j] by {
            if j == names.len() {
                assert(names[i] == names.push(name)[i]);
            }
        }
    }
}

/// After a collection is removed, it is no longer listed, whatever was registered before.
pub proof fn law_removed_collection_is_gone(names: Seq<Seq<char>>, name: Seq<char>)
    ensures
        !names.filter(|n: Seq<char>| n != name).contains(name),
{
    let p = |n: Seq<char>| n != name;
    if names.filter(p).contains(name) {
        let i = choose|i: int| 0 <= i < names.filter(p).len() && names.filter(p)[i] == name;
        names.lemma_filter_pred(p, i);
    }
}


/// The content identifier of a vector point: the `path` its payload holds (where the indexer
/// stores the CID), else `point-` followed by the point's number.
pub open spec fn point_cid_text(id: u64, path: Option<Seq<char>>) -> Seq<char> {
    match path {
        Some(p) => p,
        None => "point-"@ + decimal(id as nat),
    }
}

/// The content identifier of a vector point with number `id` and, when its payload holds one,
/// the `path` text.
pub fn point_cid(id: u64, path: Option<&str>) -> (r: String)
    ensures
        r@ == point_cid_text(id, match path { Some(p) => Some(p@), None => None }),
{
    match path {
        Some(p) => p.to_owned(),
        None => {
            proof {
                reveal_strlit("point-");
            }
            let digits = decimal_string(id);
            String::from_str("point-").concat(digits.as_str())
        },
    }
}

} // verus!
