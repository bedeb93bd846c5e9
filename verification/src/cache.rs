//! The cache of recent bindings, kept in an `lru::LruCache`.
//!
//! Everything in this module is taken on trust: Verus does not read the
//! cache's code. Each contract below states what the named method of the
//! `lru` crate does to the entries that the cache holds.
use crate::ast::{Expr, ExprView};
use lru::LruCache;
use std::num::NonZeroUsize;
use vstd::prelude::*;

verus! {

/// `lru::LruCache`, a bounded map that evicts the entry used least
/// recently. Nothing is known of a value of this type but what the
/// contracts below state.
#[verifier::external_type_specification]
#[verifier::external_body]
#[verifier::reject_recursive_types(K)]
#[verifier::reject_recursive_types(V)]
#[verifier::reject_recursive_types(S)]
pub struct ExLruCache<K, V, S>(LruCache<K, V, S>);

/// `lru::DefaultHasher`, the hasher that `LruCache::new` gives a cache. It
/// is only carried along: no contract speaks of it.
#[verifier::external_type_specification]
#[verifier::external_body]
pub struct ExDefaultHasher(lru::DefaultHasher);

/// The entries that a cache holds: each name with the value stored under
/// it. The order in which entries would be evicted is no part of it.
pub uninterp spec fn cache_entries(cache: LruCache<String, Expr>) -> Map<Seq<char>, ExprView>;

/// `LruCache::new`: a cache that holds nothing. The capacity must not be
/// zero.
#[verifier::external_body]
pub(crate) fn cache_new(capacity: usize) -> (r: LruCache<String, Expr>)
    requires
        capacity > 0,
    ensures
        cache_entries(r).dom() == Set::<Seq<char>>::empty(),
{
    LruCache::new(NonZeroUsize::new(capacity).unwrap())
}

/// `LruCache::put`: afterwards the cache holds `value` under `name`. Every
/// other entry that it holds it held before, with the same value; an entry
/// that it held before may have been evicted to make room.
#[verifier::external_body]
pub(crate) fn cache_put(cache: &mut LruCache<String, Expr>, name: String, value: Expr)
    ensures
        cache_entries(*final(cache)).dom().contains(name@),
        cache_entries(*final(cache))[name@] == value@,
        forall|other: Seq<char>|
            other != name@ && #[trigger] cache_entries(*final(cache)).dom().contains(other)
                ==> cache_entries(*old(cache)).dom().contains(other) && cache_entries(
                *final(cache),
            )[other] == cache_entries(*old(cache))[other],
{
    cache.put(name, value);
}

/// `LruCache::get`: a copy of the value held under `name`, if one is held.
/// The entries stay as they are; only their order of eviction changes.
#[verifier::external_body]
pub(crate) fn cache_get(cache: &mut LruCache<String, Expr>, name: &String) -> (r: Option<Expr>)
    ensures
        cache_entries(*final(cache)) == cache_entries(*old(cache)),
        match r {
            Some(e) => cache_entries(*old(cache)).dom().contains(name@) && e@ == cache_entries(
                *old(cache),
            )[name@],
            None => !cache_entries(*old(cache)).dom().contains(name@),
        },
{
    cache.get(name).cloned()
}

/// `LruCache::pop`: afterwards the cache holds nothing under `name`, and
/// every other entry as before.
#[verifier::external_body]
pub(crate) fn cache_pop(cache: &mut LruCache<String, Expr>, name: &String)
    ensures
        cache_entries(*final(cache)) == cache_entries(*old(cache)).remove(name@),
{
    cache.pop(name);
}

} // verus!
