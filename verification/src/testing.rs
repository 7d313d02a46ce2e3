//! Building stores for compatibility testing.

use vstd::prelude::*;

use crate::store::LogStore;

verus! {

/// Builds a `LogStore` for a compatibility or integration test.
pub trait StoreBuilder {
    /// The store type built.
    type S;

    /// Builds a fresh store.
    fn build(&self) -> Self::S;

    /// Builds application data for testing. It has to always produce
    /// the same data.
    fn sample_app_data(&self) -> u64;
}

/// Builds the in-memory store model of this crate.
pub struct MemStoreBuilder {
    /// The application datum `sample_app_data` hands out, every time.
    pub sample: u64,
}

impl StoreBuilder for MemStoreBuilder {
    type S = LogStore;

    fn build(&self) -> LogStore {
        LogStore::new()
    }

    fn sample_app_data(&self) -> u64 {
        self.sample
    }
}

} // verus!
