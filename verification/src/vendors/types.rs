//! Vendor-neutral carrier types for freshly queried, natively numeric
//! metrics, before they are folded into the unit-aware value model.

use vstd::prelude::*;

verus! {

/// A raw reading with an optional unit tag.
#[derive(Debug)]
pub struct Value<T> {
    pub val: T,
    pub unit: Option<String>,
}

impl<T> Value<T> {
    pub fn from(val: T) -> (r: Self)
        ensures
            r.val == val,
            r.unit is None,
    {
        Self { val, unit: None }
    }

    pub fn set_unit(self, unit: &str) -> (r: Self)
        ensures
            r.val == self.val,
            r.unit matches Some(u) && u@ == unit@,
    {
        Value { val: self.val, unit: Some(unit.to_owned()) }
    }
}

#[derive(Debug)]
pub struct MemoryInfo {
    pub total: Value<u64>,
    pub used: Value<u64>,
}

#[derive(Debug)]
pub struct PowerInfo {
    pub read: Value<u32>,
    pub limit: Value<u32>,
    pub limit_default: Value<u32>,
}

} // verus!
