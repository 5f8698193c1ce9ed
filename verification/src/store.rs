//! The store: the one mutable holder of the currently published catalog.
//!
//! The store owns exactly one catalog at a time. Readers borrow a snapshot of
//! the whole published catalog; a replace swaps in a wholly new catalog in a
//! single ownership move, so a reader holds either the fully old or the fully
//! new catalog and never a mixture. A failed reload cycle leaves the store
//! untouched, so queries keep answering from the last good catalog.

use vstd::prelude::*;
use crate::data::{Catalog, CatalogV};

verus! {

/// A whole reload cycle failed before producing a catalog: the root of the
/// data directory could not be read. Per-file failures are not scan errors;
/// they only drop the single file.
pub enum ScanError {
    RootUnreadable,
}

impl ScanError {
    /// A short description of the error.
    pub fn message(&self) -> (r: &'static str)
        ensures
            r@ == "data root unreadable"@,
    {
        "data root unreadable"
    }
}

/// The mutable holder of the currently published [`Catalog`].
pub struct Store {
    catalog: Catalog,
}

impl View for Store {
    type V = CatalogV;

    /// A store is abstractly the catalog it currently publishes.
    closed spec fn view(&self) -> CatalogV {
        self.catalog@
    }
}

impl Store {
    /// A store holding an empty catalog, the state before the first load.
    pub fn new() -> (s: Store)
        ensures
            s@.languages.len() == 0,
    {
        Store { catalog: Catalog { languages: Vec::new() } }
    }

    /// A store synchronously populated with an initial catalog, so that it is
    /// never queried while empty.
    pub fn with_catalog(catalog: Catalog) -> (s: Store)
        ensures
            s@ == catalog@,
    {
        Store { catalog }
    }

    /// Borrow the currently published catalog for the duration of one query.
    /// The borrow always sees a fully built catalog: the store never holds
    /// one under construction.
    pub fn snapshot(&self) -> (r: &Catalog)
        ensures
            r@ == self@,
    {
        &self.catalog
    }

    /// Atomically swap in a wholly new catalog. The old catalog is dropped;
    /// no partial merge of the two ever exists.
    pub fn replace(&mut self, catalog: Catalog)
        ensures
            final(self)@ == catalog@,
    {
        self.catalog = catalog;
    }

    /// Apply the outcome of one reload cycle: publish the new catalog on
    /// success, and on a scan failure keep the previous catalog unchanged,
    /// favouring availability over freshness.
    pub fn apply_reload(&mut self, loaded: Result<Catalog, ScanError>)
        ensures
            match loaded {
                Ok(c) => final(self)@ == c@,
                Err(_) => final(self)@ == old(self)@,
            },
    {
        match loaded {
            Ok(c) => {
                self.catalog = c;
            },
            Err(_) => {},
        }
    }
}

} // verus!
