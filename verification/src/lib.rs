//! The decision-making core of a mail server, with machine-checked
//! contracts.
//!
//! The larger part is the outbound queue: the record model of queued
//! messages ([`queue`], [`status`]), the administrative edits with their
//! status aggregation ([`admin`]), the scheduling decisions
//! ([`scheduler`]), the persisted key encoding ([`codec`]), the report
//! header registry ([`report`], [`registry`]) and what the management
//! surface shows ([`management`], [`paging`]).
//!
//! Beside it stand the settings listings ([`settings`]), the validation of
//! identities ([`identity`]), the narrowing of principal queries
//! ([`principal`]), two IMAP argument parsers ([`imap`]) and the training
//! of the Bayes classifier ([`bayes`]).
//!
//! Nothing here does I/O or reads the clock: callers hand in what they
//! read and carry out what they are told.

use vstd::prelude::*;

pub mod admin;
pub mod bayes;
pub mod codec;
pub mod datetime;
pub mod decimal;
pub mod error;
pub mod identity;
pub mod imap;
pub mod management;
pub mod paging;
pub mod principal;
pub mod queue;
pub mod registry;
pub mod report;
pub mod scheduler;
pub mod settings;
pub mod status;
pub mod text;

verus! {

/// A value that can be read back from its stored bytes.
pub trait Deserialize: Sized + Sync + Send {
    fn deserialize(bytes: &[u8]) -> core::result::Result<Self, Error>;
}

/// A value that can be turned into the bytes under which it is stored.
pub trait Serialize {
    fn serialize(self) -> Vec<u8>;
}

/// Key of a bitmap: the documents of an account and collection that have
/// `key` in `field`.
#[derive(Debug, Clone, Copy, PartialEq, Eq, Hash)]
pub struct BitmapKey<T> {
    pub account_id: u32,
    pub collection: u8,
    pub family: u8,
    pub field: u8,
    pub key: T,
}

/// Key of an index entry: the value `key` of `field` in one document.
#[derive(Debug, Clone, Copy, PartialEq, Eq, Hash)]
pub struct IndexKey<T> {
    pub account_id: u32,
    pub collection: u8,
    pub document_id: u32,
    pub field: u8,
    pub key: T,
}

/// What the index keys of one field of a collection start with.
#[derive(Debug, Clone, Copy, PartialEq, Eq, Hash)]
pub struct IndexKeyPrefix {
    pub account_id: u32,
    pub collection: u8,
    pub field: u8,
}

/// Key of a stored value: one field of one document.
#[derive(Debug, Clone, Copy, PartialEq, Eq, Hash)]
pub struct ValueKey {
    pub account_id: u32,
    pub collection: u8,
    pub document_id: u32,
    pub family: u8,
    pub field: u8,
}

/// Key of a blob that a document refers to, by the blob's hash.
#[derive(Debug, Clone, Copy, PartialEq, Eq, Hash)]
pub struct BlobKey<T> {
    pub account_id: u32,
    pub collection: u8,
    pub document_id: u32,
    pub hash: T,
}

/// Key of an access grant: what `grant_account_id` may do with a
/// document of another account.
#[derive(Debug, Clone, Copy, PartialEq, Eq, Hash)]
pub struct AclKey {
    pub grant_account_id: u32,
    pub to_account_id: u32,
    pub to_collection: u8,
    pub to_document_id: u32,
}

/// Key of a change-log entry.
#[derive(Debug, Clone, Copy, PartialEq, Eq, Hash)]
pub struct LogKey {
    pub account_id: u32,
    pub collection: u8,
    pub change_id: u64,
}

/// Failure of a store operation.
#[derive(Debug)]
pub enum Error {
    NotFound,
    InternalError(String),
}

/// Bitmap family: the identifiers of the documents of a collection.
pub const BM_DOCUMENT_IDS: u8 = 0;

/// Bitmap family: keywords.
pub const BM_KEYWORD: u8 = 1 << 5;

/// Bitmap family: tags.
pub const BM_TAG: u8 = 1 << 6;

/// Bitmap family: hashed terms.
pub const BM_HASH: u8 = 1 << 7;

/// Hashed term as it was written.
pub const HASH_EXACT: u8 = 0;

/// Hashed term reduced to its stem.
pub const HASH_STEMMED: u8 = 1 << 6;

/// Bloom filter over pairs of terms.
pub const BLOOM_BIGRAM: u8 = 1 << 0;

/// Bloom filter over triples of terms.
pub const BLOOM_TRIGRAM: u8 = 1 << 1;

/// Tag given as an identifier.
pub const TAG_ID: u8 = 0;

/// Tag given as text.
pub const TAG_TEXT: u8 = 1 << 0;

/// Tag with a fixed meaning.
pub const TAG_STATIC: u8 = 1 << 1;

} // verus!
