//! Response caching. The cache itself is the users' own: this trait is what
//! the client asks of it.
use vstd::prelude::*;

verus! {

/// A key-value store for cached responses.
pub trait DeboaCache {
    /// The value stored under `key`, if any.
    fn get(&self, key: &str) -> Option<String>;

    /// Stores `value` under `key`.
    fn set(&self, key: &str, value: &str);

    /// Removes what is stored under `key`.
    fn delete(&self, key: &str);
}

} // verus!
