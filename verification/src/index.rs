//! The content index: a multimap from fingerprint to the paths that
//! produced it, held in `multimap::MultiMap` behind a small trusted layer.
//!
//! The abstract contents of a map are named by `index_view`; every wrapper
//! states its effect over that name, following what the multimap crate's
//! source does: `insert` pushes onto an existing key's vector or starts a
//! new one-element vector, `keys` visits each key once in arbitrary order.

use vstd::prelude::*;

verus! {

/// The abstract contents of an index: each fingerprint maps to the ordered
/// list of paths inserted under it (string views on both sides).
pub type IndexView = Map<Seq<char>, Seq<Seq<char>>>;

/// A content index: fingerprint to the ordered list of paths that hashed
/// to it.
pub type ContentIndex = multimap::MultiMap<String, String>;

#[verifier::external_type_specification]
#[verifier::external_body]
#[verifier::reject_recursive_types(K)]
#[verifier::reject_recursive_types(V)]
#[verifier::reject_recursive_types(S)]
pub struct ExMultiMap<K, V, S>(multimap::MultiMap<K, V, S>);

/// The contents of a fingerprint index; named here, pinned down only by
/// the wrappers below.
pub uninterp spec fn index_view(m: ContentIndex) -> IndexView;

/// An index with no keys at all.
pub open spec fn empty_index() -> IndexView {
    Map::empty()
}

/// What inserting one fingerprint/path pair does to an index's contents:
/// the path is appended to the fingerprint's list, which is created with
/// just that path if the fingerprint is new.
pub open spec fn insert_path(v: IndexView, k: Seq<char>, p: Seq<char>) -> IndexView {
    if v.contains_key(k) {
        v.insert(k, v[k].push(p))
    } else {
        v.insert(k, seq![p])
    }
}

/// Relies on `MultiMap::new`: the new map has no keys.
#[verifier::external_body]
pub(crate) fn index_new() -> (m: ContentIndex)
    ensures
        index_view(m) == empty_index(),
{
    multimap::MultiMap::new()
}

/// Relies on `MultiMap::insert`: the value is pushed onto the key's vector,
/// or a new one-element vector is created for a key not yet present.
#[verifier::external_body]
pub(crate) fn index_insert(m: &mut ContentIndex, k: String, v: String)
    ensures
        index_view(*final(m)) == insert_path(index_view(*old(m)), k@, v@),
{
    m.insert(k, v);
}

/// Relies on `MultiMap::contains_key`, which asks the inner `HashMap`.
#[verifier::external_body]
pub(crate) fn index_contains_key(m: &ContentIndex, k: &String) -> (r: bool)
    ensures
        r == index_view(*m).contains_key(k@),
{
    m.contains_key(k.as_str())
}

/// Relies on `MultiMap::get_vec`, which looks the key up in the inner
/// `HashMap`: the key's full vector of values, if the key is present.
#[verifier::external_body]
pub(crate) fn index_get_vec<'a>(m: &'a ContentIndex, k: &String) -> (r: Option<&'a Vec<String>>)
    ensures
        (r is Some) <==> index_view(*m).contains_key(k@),
        r matches Some(v) ==> v.deep_view() == index_view(*m)[k@],
{
    m.get_vec(k.as_str())
}

/// Relies on `MultiMap::keys`: every key exactly once, in an order the
/// inner `HashMap` leaves unspecified.
#[verifier::external_body]
pub(crate) fn index_keys(m: &ContentIndex) -> (r: Vec<String>)
    ensures
        r.deep_view().no_duplicates(),
        r.deep_view().to_set() == index_view(*m).dom(),
{
    m.keys().cloned().collect()
}

} // verus!
