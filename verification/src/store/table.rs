//! The concurrent hash map (`dashmap::DashMap`) that holds the items, seen
//! as a map from key characters to item views.
use vstd::prelude::*;

use dashmap::DashMap;

use crate::store::item::{is_expired, item_expired, Item, ItemView};

verus! {

#[verifier::external_type_specification]
#[verifier::external_body]
#[verifier::reject_recursive_types(K)]
#[verifier::reject_recursive_types(V)]
#[verifier::reject_recursive_types(S)]
pub struct ExDashMap<K, V, S>(DashMap<K, V, S>);

/// The entries of the table: each key, by its characters, to the view of
/// its item.
pub uninterp spec fn table_entries(m: DashMap<String, Item>) -> Map<Seq<char>, ItemView>;

/// The entries of an empty table.
pub open spec fn no_entries() -> Map<Seq<char>, ItemView> {
    Map::empty()
}

/// `DashMap::new`: an empty table.
#[verifier::external_body]
pub(crate) fn table_new() -> (res: DashMap<String, Item>)
    ensures
        table_entries(res) == no_entries(),
{
    DashMap::new()
}

/// `DashMap::insert`: maps `key` to `item`, replacing what it mapped to.
#[verifier::external_body]
pub(crate) fn table_insert(m: &mut DashMap<String, Item>, key: String, item: Item)
    ensures
        table_entries(*final(m)) == table_entries(*old(m)).insert(key@, item@),
{
    m.insert(key, item);
}

/// `DashMap::get`, cloning the item found: the item that `key` maps to.
#[verifier::external_body]
pub(crate) fn table_get(m: &DashMap<String, Item>, key: &str) -> (res: Option<Item>)
    ensures
        match res {
            Some(item) => table_entries(*m).contains_key(key@) && item@ == table_entries(
                *m,
            )[key@],
            None => !table_entries(*m).contains_key(key@),
        },
{
    m.get(key).map(|entry| entry.value().clone())
}

/// `DashMap::remove`: removes `key`, handing back the item it mapped to.
#[verifier::external_body]
pub(crate) fn table_remove(m: &mut DashMap<String, Item>, key: &str) -> (res: Option<Item>)
    ensures
        table_entries(*final(m)) == table_entries(*old(m)).remove(key@),
        match res {
            Some(item) => table_entries(*old(m)).contains_key(key@) && item@ == table_entries(
                *old(m),
            )[key@],
            None => !table_entries(*old(m)).contains_key(key@),
        },
{
    m.remove(key).map(|(_, item)| item)
}

/// `DashMap::remove_if` with the test `item_expired(item, now)`: removes
/// `key` where its item is expired at `now`, handing that item back.
#[verifier::external_body]
pub(crate) fn table_remove_if_expired(m: &mut DashMap<String, Item>, key: &str, now: u128) -> (res:
    Option<Item>)
    ensures
        ({
            let old_entries = table_entries(*old(m));
            if old_entries.contains_key(key@) && is_expired(old_entries[key@], now) {
                &&& table_entries(*final(m)) == old_entries.remove(key@)
                &&& res matches Some(item) && item@ == old_entries[key@]
            } else {
                &&& table_entries(*final(m)) == old_entries
                &&& res is None
            }
        }),
{
    m.remove_if(key, |_, item| item_expired(item, now)).map(|(_, item)| item)
}

} // verus!
