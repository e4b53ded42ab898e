//! The connection manager: the write-once shared handle with an
//! explicit not-ready state.

use vstd::prelude::*;
use crate::codec::{spec_joined, views_of};
use crate::errors::KvError;
use crate::sanitize::spec_sanitized;
use crate::store::{
    get_post, list_post, m_delete, m_ensure, m_set, search_post, tables_post, KvStore, SearchEntry,
};

verus! {

/// The shared-handle slot of the storage layer: published once by
/// `initialize`, read by everything else. Before initialization completes,
/// every operation fails cleanly with `NotInitialized` instead of blocking;
/// callers retry or queue during the startup window. The surrounding
/// application keeps one value of this type behind its process-wide guard.
pub struct StoreManager {
    pub slot: Option<KvStore>,
}

impl StoreManager {
    /// Whether the handle has been published.
    pub open spec fn is_ready(self) -> bool {
        self.slot is Some
    }

    /// The store behind the handle.
    pub open spec fn store_of(self) -> KvStore {
        self.slot->Some_0
    }

    /// A ready manager holds a well-formed store.
    pub open spec fn inv(self) -> bool {
        self.is_ready() ==> self.store_of().wf()
    }

    /// A manager whose store is not yet ready.
    pub fn new() -> (r: StoreManager)
        ensures
            !r.is_ready(),
            r.inv(),
    {
        StoreManager { slot: None }
    }

    /// Publishes the handle over an empty store; the one initialization this
    /// manager ever has.
    pub fn initialize(&mut self)
        requires
            !old(self).is_ready(),
        ensures
            final(self).is_ready(),
            final(self).inv(),
            final(self).store_of().model() == Map::<Seq<char>, Map<Seq<char>, Seq<char>>>::empty(),
    {
        self.slot = Some(KvStore::new());
    }

    /// Whether initialization has completed.
    pub fn is_initialized(&self) -> (r: bool)
        ensures
            r == self.is_ready(),
    {
        self.slot.is_some()
    }

    /// The published store, or `NotInitialized` before startup completes.
    pub fn handle(&self) -> (r: Result<&KvStore, KvError>)
        ensures
            self.is_ready() <==> r is Ok,
            r matches Ok(h) ==> *h == self.store_of(),
            r matches Err(e) ==> e == KvError::NotInitialized,
    {
        match &self.slot {
            Some(s) => Ok(s),
            None => Err(KvError::NotInitialized),
        }
    }

    /// Provisions a collection (idempotently), or fails with
    /// `NotInitialized`.
    pub fn ensure_collection(&mut self, name: &str) -> (r: Result<(), KvError>)
        requires
            old(self).inv(),
        ensures
            final(self).inv(),
            !old(self).is_ready() ==> r == Err::<(), KvError>(KvError::NotInitialized) && *final(self) == *old(self),
            old(self).is_ready() ==> r is Ok && final(self).is_ready() && final(self).store_of().model() == m_ensure(old(self).store_of().model(), spec_sanitized(name@)),
    {
        match self.slot.take() {
            Some(mut st) => {
                st.ensure_collection(name);
                self.slot = Some(st);
                Ok(())
            },
            None => Err(KvError::NotInitialized),
        }
    }

    /// Stores a value, or fails with `NotInitialized`.
    pub fn set(&mut self, table: &str, key: &[String], value: &str) -> (r: Result<(), KvError>)
        requires
            old(self).inv(),
        ensures
            final(self).inv(),
            !old(self).is_ready() ==> r == Err::<(), KvError>(KvError::NotInitialized) && *final(self) == *old(self),
            old(self).is_ready() ==> r is Ok && final(self).is_ready() && final(self).store_of().model() == m_set(
                old(self).store_of().model(),
                spec_sanitized(table@),
                spec_joined(views_of(key@)),
                value@,
            ),
    {
        match self.slot.take() {
            Some(mut st) => {
                st.set(table, key, value);
                self.slot = Some(st);
                Ok(())
            },
            None => Err(KvError::NotInitialized),
        }
    }

    /// Deletes a key (idempotently), or fails with `NotInitialized`.
    pub fn delete(&mut self, table: &str, key: &[String]) -> (r: Result<(), KvError>)
        requires
            old(self).inv(),
        ensures
            final(self).inv(),
            !old(self).is_ready() ==> r == Err::<(), KvError>(KvError::NotInitialized) && *final(self) == *old(self),
            old(self).is_ready() ==> r is Ok && final(self).is_ready() && final(self).store_of().model() == m_delete(
                old(self).store_of().model(),
                spec_sanitized(table@),
                spec_joined(views_of(key@)),
            ),
    {
        match self.slot.take() {
            Some(mut st) => {
                st.delete(table, key);
                self.slot = Some(st);
                Ok(())
            },
            None => Err(KvError::NotInitialized),
        }
    }

    /// Reads a value: `NotFound` on a miss, `NotInitialized` before startup.
    pub fn get(&self, table: &str, key: &[String]) -> (r: Result<String, KvError>)
        requires
            self.inv(),
        ensures
            !self.is_ready() ==> r == Err::<String, KvError>(KvError::NotInitialized),
            self.is_ready() ==> get_post(
                self.store_of(),
                spec_sanitized(table@),
                spec_joined(views_of(key@)),
                r,
            ),
    {
        match &self.slot {
            Some(st) => st.get(table, key),
            None => Err(KvError::NotInitialized),
        }
    }

    /// Lists a collection's (key, value) pairs, or fails with
    /// `NotInitialized`.
    pub fn list(&self, table: &str) -> (r: Result<Vec<(String, String)>, KvError>)
        requires
            self.inv(),
        ensures
            self.is_ready() <==> r is Ok,
            r matches Err(e) ==> e == KvError::NotInitialized,
            r matches Ok(pairs) ==> list_post(self.store_of(), spec_sanitized(table@), pairs@),
    {
        match &self.slot {
            Some(st) => Ok(st.list(table)),
            None => Err(KvError::NotInitialized),
        }
    }

    /// Lists the registered collection names, or fails with
    /// `NotInitialized`.
    pub fn tables(&self) -> (r: Result<Vec<String>, KvError>)
        requires
            self.inv(),
        ensures
            self.is_ready() <==> r is Ok,
            r matches Err(e) ==> e == KvError::NotInitialized,
            r matches Ok(names) ==> tables_post(self.store_of(), names@),
    {
        match &self.slot {
            Some(st) => Ok(st.tables()),
            None => Err(KvError::NotInitialized),
        }
    }

    /// Searches all collections, or fails with `NotInitialized`.
    pub fn search(&self, query: &str) -> (r: Result<Vec<SearchEntry>, KvError>)
        requires
            self.inv(),
        ensures
            !self.is_ready() ==> r == Err::<Vec<SearchEntry>, KvError>(KvError::NotInitialized),
            self.is_ready() ==> search_post(self.store_of(), query@, r),
    {
        match &self.slot {
            Some(st) => st.search(query),
            None => Err(KvError::NotInitialized),
        }
    }
}

} // verus!
