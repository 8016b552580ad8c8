//! A stored item.
use vstd::prelude::*;

verus! {

/// A value with its client flags, its expiry deadline and its CAS number.
/// The deadline counts nanoseconds on the clock of the store that holds
/// the item; `None` means that the item never expires.
#[derive(Clone, Debug)]
pub struct Item {
    pub value: Vec<u8>,
    pub flags: u32,
    pub expires_at: Option<u128>,
    pub cas: u64,
}

pub struct ItemView {
    pub value: Seq<u8>,
    pub flags: u32,
    pub expires_at: Option<u128>,
    pub cas: u64,
}

impl View for Item {
    type V = ItemView;

    open spec fn view(&self) -> ItemView {
        ItemView {
            value: self.value@,
            flags: self.flags,
            expires_at: self.expires_at,
            cas: self.cas,
        }
    }
}

impl Item {
    pub fn new(value: Vec<u8>, flags: u32, expires_at: Option<u128>, cas: u64) -> (res: Self)
        ensures
            res@ == (ItemView { value: value@, flags, expires_at, cas }),
    {
        Self { value, flags, expires_at, cas }
    }
}

/// Whether an item with this view is expired at time `now`.
pub open spec fn is_expired(item: ItemView, now: u128) -> bool {
    match item.expires_at {
        Some(e) => now >= e,
        None => false,
    }
}

/// Whether `item` is expired at time `now`.
pub fn item_expired(item: &Item, now: u128) -> (res: bool)
    ensures
        res == is_expired(item@, now),
{
    match item.expires_at {
        Some(e) => now >= e,
        None => false,
    }
}

} // verus!
