//! The assumptions this library makes about code it does not verify: the
//! random number generator, the Fx hash collections, and the few functions of
//! the standard library on strings and paths that have no specification of
//! their own. Every contract in this file is believed, not proved.

use rand::RngExt;
use rustc_hash::FxBuildHasher;
use std::collections::HashMap;
use std::collections::HashSet;
use vstd::prelude::*;

verus! {

/// The hasher factory of `rustc_hash`, known to the verifier by name only.
#[verifier::external_type_specification]
#[verifier::external_body]
pub struct ExFxBuildHasher(FxBuildHasher);

/// `str == str` from the standard library: two string slices are equal
/// exactly when they hold the same characters.
pub assume_specification[ <str as PartialEq>::eq ](a: &str, b: &str) -> (r: bool)
    ensures
        r == (a@ == b@),
;

/// `rand::rng().random_range(0..bound)`: some number below `bound`. Which one
/// is left open, and two calls may differ. The call panics on an empty
/// range, so `bound` must be positive; it also panics where the system
/// cannot seed the thread's generator, which nothing here can rule out.
#[verifier::external_body]
pub(crate) fn draw_below(bound: u64) -> (r: u64)
    requires
        bound > 0,
    ensures
        r < bound,
{
    rand::rng().random_range(0..bound)
}

/// `FxHashMap::default()`: a map without entries.
#[verifier::external_body]
pub(crate) fn fx_map_new<V>() -> (table: HashMap<u64, V, FxBuildHasher>)
    ensures
        table@ =~= Map::empty(),
{
    HashMap::default()
}

/// `HashMap::insert` on an Fx map keyed by `u64`: the key now maps to the
/// value, every other key is as before.
#[verifier::external_body]
pub(crate) fn fx_map_insert<V>(table: &mut HashMap<u64, V, FxBuildHasher>, key: u64, value: V)
    ensures
        final(table)@ == old(table)@.insert(key, value),
{
    table.insert(key, value);
}

/// `HashMap::remove` on an Fx map keyed by `u64`: the key leaves the map, and
/// the value it had, if any, is handed out.
#[verifier::external_body]
pub(crate) fn fx_map_remove<V>(table: &mut HashMap<u64, V, FxBuildHasher>, key: u64) -> (value:
    Option<V>)
    ensures
        final(table)@ == old(table)@.remove(key),
        old(table)@.contains_key(key) ==> value == Some(old(table)@[key]),
        !old(table)@.contains_key(key) ==> value.is_none(),
{
    table.remove(&key)
}

/// `HashMap::get` on an Fx map keyed by `u64`: the value under the key, if the
/// key is present.
#[verifier::external_body]
pub(crate) fn fx_map_get<V>(table: &HashMap<u64, V, FxBuildHasher>, key: u64) -> (value: Option<&V>)
    ensures
        table@.contains_key(key) ==> value == Some(&table@[key]),
        !table@.contains_key(key) ==> value.is_none(),
{
    table.get(&key)
}

/// What an Fx set of paths holds, each path taken as its characters.
pub uninterp spec fn path_set(set: HashSet<String, FxBuildHasher>) -> Set<Seq<char>>;

/// `FxHashSet::default()`: a set without members.
#[verifier::external_body]
pub(crate) fn fx_set_new() -> (set: HashSet<String, FxBuildHasher>)
    ensures
        path_set(set) == Set::<Seq<char>>::empty(),
{
    HashSet::default()
}

/// `HashSet::clone` on an Fx set of strings: a set with the same members.
#[verifier::external_body]
pub(crate) fn fx_set_clone(set: &HashSet<String, FxBuildHasher>) -> (copy: HashSet<
    String,
    FxBuildHasher,
>)
    ensures
        path_set(copy) == path_set(*set),
{
    set.clone()
}

/// `HashSet::contains` on an Fx set of strings: whether a string with these
/// characters is a member.
#[verifier::external_body]
pub(crate) fn fx_set_contains(set: &HashSet<String, FxBuildHasher>, path: &str) -> (r: bool)
    ensures
        r == path_set(*set).contains(path@),
{
    set.contains(path)
}

/// `HashSet::insert` on an Fx set of strings: the string is a member
/// afterwards; the result says whether it was new.
#[verifier::external_body]
pub(crate) fn fx_set_insert(set: &mut HashSet<String, FxBuildHasher>, path: String) -> (r: bool)
    ensures
        path_set(*final(set)) == path_set(*old(set)).insert(path@),
        r == !path_set(*old(set)).contains(path@),
{
    set.insert(path)
}

/// `HashSet::remove` on an Fx set of strings: the string is no member
/// afterwards; the result says whether it was one.
#[verifier::external_body]
pub(crate) fn fx_set_remove(set: &mut HashSet<String, FxBuildHasher>, path: &str) -> (r: bool)
    ensures
        path_set(*final(set)) == path_set(*old(set)).remove(path@),
        r == path_set(*old(set)).contains(path@),
{
    set.remove(path)
}

/// Whether `base` is a prefix of `path` by whole path components, as
/// `std::path::Path::starts_with` decides it.
pub uninterp spec fn path_starts_with(path: Seq<char>, base: Seq<char>) -> bool;

/// `Path::starts_with` from the standard library, on paths given as text.
#[verifier::external_body]
pub(crate) fn starts_with(path: &str, base: &str) -> (r: bool)
    ensures
        r == path_starts_with(path@, base@),
{
    std::path::Path::new(path).starts_with(base)
}

/// The extension of a path's file name, as `std::path::Path::extension`
/// finds it: the part after the last dot of the last component, if there is
/// one.
pub uninterp spec fn path_extension(path: Seq<char>) -> Option<Seq<char>>;

/// `Path::extension` from the standard library, on a path given as text.
#[verifier::external_body]
pub(crate) fn extension(path: &str) -> (r: Option<String>)
    ensures
        r.is_some() == path_extension(path@).is_some(),
        r.is_some() ==> r.unwrap()@ == path_extension(path@).unwrap(),
{
    std::path::Path::new(path).extension().and_then(|ext| ext.to_str()).map(|ext| ext.to_string())
}

/// The lowercase form of a string by the Unicode rules, as `str::to_lowercase`
/// computes it.
pub uninterp spec fn lowercase(text: Seq<char>) -> Seq<char>;

/// `str::to_lowercase` from the standard library.
#[verifier::external_body]
pub(crate) fn to_lowercase(text: &str) -> (r: String)
    ensures
        r@ == lowercase(text@),
{
    text.to_lowercase()
}

/// What a percent-encoded string decodes to, as `urlencoding::decode` reads
/// it: the decoded text, or nothing where the decoded bytes are no UTF-8.
pub uninterp spec fn percent_decoded(raw: Seq<char>) -> Option<Seq<char>>;

/// `urlencoding::decode`, with its error turned into `None`.
#[verifier::external_body]
pub(crate) fn decode(raw: &str) -> (r: Option<String>)
    ensures
        r.is_some() == percent_decoded(raw@).is_some(),
        r.is_some() ==> r.unwrap()@ == percent_decoded(raw@).unwrap(),
{
    urlencoding::decode(raw).ok().map(|text| text.into_owned())
}

} // verus!
