//! The item store: keys to items, with lazy expiry and CAS numbers.
use vstd::prelude::*;

use dashmap::DashMap;
use tokio::time::Instant;

pub mod clock;
pub mod item;
pub mod table;

pub use item::Item;

use crate::store::clock::{clock_nanos_since, clock_start};
use crate::store::item::{is_expired, ItemView};
use crate::store::table::{
    no_entries, table_entries, table_get, table_insert, table_new, table_remove, table_remove_if_expired,
};

verus! {

/// Nanoseconds in a second.
pub const NANOS_PER_SEC: u128 = 1_000_000_000;

/// The keyed items of a cache and the CAS number that the next stored
/// item gets. Times are nanoseconds since the store was made.
pub struct Store {
    items: DashMap<String, Item>,
    next_cas: u64,
    epoch: Instant,
}

pub struct StoreView {
    pub items: Map<Seq<char>, ItemView>,
    pub next_cas: u64,
}

impl View for Store {
    type V = StoreView;

    closed spec fn view(&self) -> StoreView {
        StoreView { items: table_entries(self.items), next_cas: self.next_cas }
    }
}

/// The deadline of an item stored at `now` with a time to live of `ttl`
/// seconds: none for `ttl == 0`, else `ttl` seconds later (held at the
/// largest time the clock can show).
pub open spec fn deadline(now: u128, ttl: u64) -> Option<u128> {
    if ttl == 0 {
        None
    } else if now + ttl * NANOS_PER_SEC > u128::MAX {
        Some(u128::MAX)
    } else {
        Some((now + ttl * NANOS_PER_SEC) as u128)
    }
}

/// The store after `set(key, flags, ttl, value)` at time `now`.
pub open spec fn spec_set(
    s: StoreView,
    key: Seq<char>,
    flags: u32,
    ttl: u64,
    value: Seq<u8>,
    now: u128,
) -> StoreView {
    StoreView {
        items: s.items.insert(
            key,
            ItemView { value, flags, expires_at: deadline(now, ttl), cas: s.next_cas },
        ),
        next_cas: if s.next_cas == u64::MAX {
            0
        } else {
            (s.next_cas + 1) as u64
        },
    }
}

/// The store after `get(key)` at time `now`, and the item found: an
/// expired item is removed and not returned.
pub open spec fn spec_get(s: StoreView, key: Seq<char>, now: u128) -> (StoreView, Option<ItemView>) {
    if !s.items.contains_key(key) {
        (s, None)
    } else if is_expired(s.items[key], now) {
        (StoreView { items: s.items.remove(key), ..s }, None)
    } else {
        (s, Some(s.items[key]))
    }
}

/// The store after `delete(key)`, and whether the key was there.
pub open spec fn spec_delete(s: StoreView, key: Seq<char>) -> (StoreView, bool) {
    (StoreView { items: s.items.remove(key), ..s }, s.items.contains_key(key))
}

/// The view of an optional item.
pub open spec fn item_view(o: Option<Item>) -> Option<ItemView> {
    match o {
        Some(i) => Some(i@),
        None => None,
    }
}

/// A read gives back what the last write to that key wrote, for as long as
/// the write's deadline has not passed, and leaves the store as it was.
pub proof fn law_get_after_set(
    s: StoreView,
    key: Seq<char>,
    flags: u32,
    ttl: u64,
    value: Seq<u8>,
    t_set: u128,
    t_get: u128,
)
    requires
        deadline(t_set, ttl) matches Some(e) ==> t_get < e,
    ensures
        ({
            let s1 = spec_set(s, key, flags, ttl, value, t_set);
            spec_get(s1, key, t_get) == (
                s1,
                Some(ItemView { value, flags, expires_at: deadline(t_set, ttl), cas: s.next_cas }),
            )
        }),
{
}

/// An item stored with a time to live of 0 never expires: every later read
/// finds it.
pub proof fn law_no_ttl_never_expires(
    s: StoreView,
    key: Seq<char>,
    flags: u32,
    value: Seq<u8>,
    t_set: u128,
    t_get: u128,
)
    ensures
        spec_get(spec_set(s, key, flags, 0, value, t_set), key, t_get).1 == Some(
            ItemView { value, flags, expires_at: None, cas: s.next_cas },
        ),
{
}

/// Once the deadline of a write has passed, a read of its key finds
/// nothing and removes the item.
pub proof fn law_get_after_deadline(
    s: StoreView,
    key: Seq<char>,
    flags: u32,
    ttl: u64,
    value: Seq<u8>,
    t_set: u128,
    t_get: u128,
)
    requires
        deadline(t_set, ttl) matches Some(e) && t_get >= e,
    ensures
        ({
            let s1 = spec_set(s, key, flags, ttl, value, t_set);
            &&& spec_get(s1, key, t_get).1 is None
            &&& !spec_get(s1, key, t_get).0.items.contains_key(key)
            &&& spec_get(s1, key, t_get).0.items == s.items.remove(key)
        }),
{
    let s1 = spec_set(s, key, flags, ttl, value, t_set);
    assert(s1.items.remove(key) =~= s.items.remove(key));
}

/// A write to one key changes no read of another key.
pub proof fn law_set_keeps_other_keys(
    s: StoreView,
    key: Seq<char>,
    other: Seq<char>,
    flags: u32,
    ttl: u64,
    value: Seq<u8>,
    t_set: u128,
    t_get: u128,
)
    requires
        key != other,
    ensures
        spec_get(spec_set(s, key, flags, ttl, value, t_set), other, t_get).1 == spec_get(
            s,
            other,
            t_get,
        ).1,
{
}

/// A delete reports whether the key was there; afterwards no read finds the
/// key and a second delete reports it missing.
pub proof fn law_delete(s: StoreView, key: Seq<char>, t: u128)
    ensures
        spec_delete(s, key).1 == s.items.contains_key(key),
        spec_get(spec_delete(s, key).0, key, t).1 is None,
        !spec_delete(spec_delete(s, key).0, key).1,
{
}

/// A delete of one key changes no read of another key, and leaves the CAS
/// counter as it was.
pub proof fn law_delete_keeps_other_keys(s: StoreView, key: Seq<char>, other: Seq<char>, t: u128)
    requires
        key != other,
    ensures
        spec_get(spec_delete(s, key).0, other, t).1 == spec_get(s, other, t).1,
        spec_delete(s, key).0.items.contains_key(other) == s.items.contains_key(other),
        spec_delete(s, key).0.next_cas == s.next_cas,
{
}

/// Successive writes get successive CAS numbers, while the counter has not
/// reached its largest value.
pub proof fn law_cas_increases(
    s: StoreView,
    k1: Seq<char>,
    f1: u32,
    ttl1: u64,
    v1: Seq<u8>,
    t1: u128,
    k2: Seq<char>,
    f2: u32,
    ttl2: u64,
    v2: Seq<u8>,
    t2: u128,
)
    requires
        s.next_cas < u64::MAX,
    ensures
        ({
            let s1 = spec_set(s, k1, f1, ttl1, v1, t1);
            let s2 = spec_set(s1, k2, f2, ttl2, v2, t2);
            &&& s1.items[k1].cas == s.next_cas
            &&& s2.items[k2].cas == s1.items[k1].cas + 1
        }),
{
}

impl Store {
    /// An empty store whose first CAS number is 1.
    pub fn new() -> (res: Self)
        ensures
            res@.items == no_entries(),
            res@.next_cas == 1,
    {
        Self { items: table_new(), next_cas: 1, epoch: clock_start() }
    }

    /// The time on the store's clock, in nanoseconds since it was made.
    pub fn now(&self) -> u128 {
        clock_nanos_since(&self.epoch)
    }

    /// Stores `value` under `key` with `flags` and a time to live of `ttl`
    /// seconds (0: forever), as at time `now`.
    pub fn set_at(&mut self, key: String, flags: u32, ttl: u64, value: Vec<u8>, now: u128)
        ensures
            final(self)@ == spec_set(old(self)@, key@, flags, ttl, value@, now),
    {
        let expires_at = if ttl == 0 {
            None
        } else {
            Some(now.saturating_add(ttl as u128 * NANOS_PER_SEC))
        };
        let cas = self.next_cas;
        self.next_cas = self.next_cas.wrapping_add(1);
        let item = Item::new(value, flags, expires_at, cas);
        table_insert(&mut self.items, key, item);
    }

    /// Stores `value` under `key` with `flags` and a time to live of `ttl`
    /// seconds (0: forever), as at the current time.
    pub fn set(&mut self, key: String, flags: u32, ttl: u64, value: Vec<u8>)
        ensures
            exists|now: u128|
                final(self)@ == #[trigger] spec_set(old(self)@, key@, flags, ttl, value@, now),
    {
        let now = self.now();
        let ghost k = key@;
        let ghost v = value@;
        self.set_at(key, flags, ttl, value, now);
        assert(final(self)@ == spec_set(old(self)@, k, flags, ttl, v, now));
    }

    /// The item under `key` at time `now`; an expired item is removed.
    pub fn get_at(&mut self, key: &str, now: u128) -> (res: Option<Item>)
        ensures
            (final(self)@, item_view(res)) == spec_get(old(self)@, key@, now),
    {
        if table_remove_if_expired(&mut self.items, key, now).is_some() {
            return None;
        }
        table_get(&self.items, key)
    }

    /// The item under `key` at the current time; an expired item is removed.
    pub fn get(&mut self, key: &str) -> (res: Option<Item>)
        ensures
            exists|now: u128|
                (final(self)@, item_view(res)) == #[trigger] spec_get(old(self)@, key@, now),
    {
        let now = self.now();
        let res = self.get_at(key, now);
        assert((final(self)@, item_view(res)) == spec_get(old(self)@, key@, now));
        res
    }

    /// Removes `key`; whether it was there.
    pub fn delete(&mut self, key: &str) -> (res: bool)
        ensures
            (final(self)@, res) == spec_delete(old(self)@, key@),
    {
        table_remove(&mut self.items, key).is_some()
    }
}

impl Default for Store {
    /// An empty store whose first CAS number is 0.
    fn default() -> (res: Self)
        ensures
            res@.items == no_entries(),
            res@.next_cas == 0,
    {
        Self { items: table_new(), next_cas: 0, epoch: clock_start() }
    }
}

} // verus!
