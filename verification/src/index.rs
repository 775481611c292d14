//! The key index: an ordered map from keys to log positions, kept in a
//! `crossbeam_skiplist::SkipMap`.
//!
//! The skip list itself is not verified. The functions of this module that
//! are marked `external_body` state what its methods do to the map it
//! holds; everything else in the crate is proved against those statements.

use crate::command::Pos;
use crossbeam_skiplist::SkipMap;
use vstd::prelude::*;

verus! {

/// `crossbeam_skiplist::SkipMap`, taken as an opaque type: nothing is
/// known of a value of it but what the functions below state.
#[verifier::external_type_specification]
#[verifier::external_body]
#[verifier::reject_recursive_types(K)]
#[verifier::reject_recursive_types(V)]
pub struct ExSkipMap<K, V>(SkipMap<K, V>);

/// The entries that a skip map holds, as a map from the text of each key to
/// its position.
pub uninterp spec fn skipmap_entries(m: SkipMap<String, Pos>) -> Map<Seq<char>, Pos>;

/// The entries of a skip map in the order in which its iterator yields
/// them.
pub uninterp spec fn skipmap_order(m: SkipMap<String, Pos>) -> Seq<(Seq<char>, Pos)>;

/// `SkipMap::new`: the new map holds no entry.
#[verifier::external_body]
fn skipmap_new() -> (fresh: SkipMap<String, Pos>)
    ensures
        skipmap_entries(fresh) == no_entries(),
{
    SkipMap::new()
}

/// `SkipMap::get`, with the position copied out of the entry: the position
/// stored under `key`, or `None` where the map has no such key.
#[verifier::external_body]
fn skipmap_get(m: &SkipMap<String, Pos>, key: &str) -> (found: Option<Pos>)
    ensures
        found == (if skipmap_entries(*m).contains_key(key@) {
            Some(skipmap_entries(*m)[key@])
        } else {
            None
        }),
{
    m.get(key).map(|entry| *entry.value())
}

/// `SkipMap::insert`: afterwards `key` is bound to `pos`, whether or not it
/// was bound before, and every other key is as it was.
#[verifier::external_body]
fn skipmap_insert(m: &mut SkipMap<String, Pos>, key: String, pos: Pos)
    ensures
        skipmap_entries(*final(m)) == skipmap_entries(*old(m)).insert(key@, pos),
{
    m.insert(key, pos);
}

/// `SkipMap::remove`, with the position copied out of the removed entry:
/// afterwards `key` is unbound and every other key is as it was. The result
/// is the position that `key` had, or `None` where it had none.
#[verifier::external_body]
fn skipmap_remove(m: &mut SkipMap<String, Pos>, key: &str) -> (removed: Option<Pos>)
    ensures
        skipmap_entries(*final(m)) == skipmap_entries(*old(m)).remove(key@),
        removed == (if skipmap_entries(*old(m)).contains_key(key@) {
            Some(skipmap_entries(*old(m))[key@])
        } else {
            None
        }),
{
    m.remove(key).map(|entry| *entry.value())
}

/// `SkipMap::iter`, with each entry copied out as a pair. The iterator
/// walks the map in the order of its keys, so the pairs come in an order
/// that the map alone decides; every pair is an entry of the map, every key
/// of the map occurs, and no key occurs twice.
#[verifier::external_body]
fn skipmap_iter(m: &SkipMap<String, Pos>) -> (pairs: Vec<(String, Pos)>)
    ensures
        pairs.deep_view() == skipmap_order(*m),
        enumerates(pairs.deep_view(), skipmap_entries(*m)),
{
    m.iter().map(|entry| (entry.key().clone(), *entry.value())).collect()
}

/// The map without entries.
pub open spec fn no_entries() -> Map<Seq<char>, Pos> {
    Map::empty()
}

/// `pairs` lists the entries of `m`, each exactly once, in some order.
pub open spec fn enumerates(pairs: Seq<(Seq<char>, Pos)>, m: Map<Seq<char>, Pos>) -> bool {
    &&& forall|i: int|
        0 <= i < pairs.len() ==> m.contains_key(#[trigger] pairs[i].0) && m[pairs[i].0]
            == pairs[i].1
    &&& forall|k: Seq<char>| #[trigger]
        m.contains_key(k) ==> exists|i: int| 0 <= i < pairs.len() && #[trigger] pairs[i].0 == k
    &&& forall|i: int, j: int|
        0 <= i < j < pairs.len() ==> #[trigger] pairs[i].0 != #[trigger] pairs[j].0
}

/// The key index of the store.
pub struct KeyIndex {
    map: SkipMap<String, Pos>,
}

impl View for KeyIndex {
    type V = Map<Seq<char>, Pos>;

    closed spec fn view(&self) -> Map<Seq<char>, Pos> {
        skipmap_entries(self.map)
    }
}

impl KeyIndex {
    /// The entries in the order in which `entries` lists them.
    pub closed spec fn order(&self) -> Seq<(Seq<char>, Pos)> {
        skipmap_order(self.map)
    }

    /// An index without entries.
    pub fn new() -> (index: KeyIndex)
        ensures
            index@ == no_entries(),
    {
        KeyIndex { map: skipmap_new() }
    }

    /// The position stored under `key`, if any.
    pub fn get(&self, key: &str) -> (found: Option<Pos>)
        ensures
            found == (if self@.contains_key(key@) {
                Some(self@[key@])
            } else {
                None
            }),
    {
        skipmap_get(&self.map, key)
    }

    /// Whether `key` has a position.
    pub fn contains_key(&self, key: &str) -> (present: bool)
        ensures
            present == self@.contains_key(key@),
    {
        skipmap_get(&self.map, key).is_some()
    }

    /// Binds `key` to `pos` and returns the position that it displaced.
    pub fn insert(&mut self, key: String, pos: Pos) -> (displaced: Option<Pos>)
        ensures
            final(self)@ == old(self)@.insert(key@, pos),
            displaced == (if old(self)@.contains_key(key@) {
                Some(old(self)@[key@])
            } else {
                None
            }),
    {
        let displaced = skipmap_get(&self.map, key.as_str());
        skipmap_insert(&mut self.map, key, pos);
        displaced
    }

    /// Unbinds `key` and returns the position that it had.
    pub fn remove(&mut self, key: &str) -> (removed: Option<Pos>)
        ensures
            final(self)@ == old(self)@.remove(key@),
            removed == (if old(self)@.contains_key(key@) {
                Some(old(self)@[key@])
            } else {
                None
            }),
    {
        skipmap_remove(&mut self.map, key)
    }

    /// All entries, each exactly once.
    pub fn entries(&self) -> (pairs: Vec<(String, Pos)>)
        ensures
            pairs.deep_view() == self.order(),
            enumerates(self.order(), self@),
    {
        skipmap_iter(&self.map)
    }
}

} // verus!
