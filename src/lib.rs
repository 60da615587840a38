//! An in-memory store of contact records: create, read and delete by id, with
//! ids assigned by the store.

pub mod contact;
pub mod laws;
pub mod store;

pub use contact::{Contact, ContactView, StoreError};
pub use store::ContactsStore;
