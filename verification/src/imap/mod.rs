//! Argument parsers for the access-control and rename commands of IMAP.

pub mod acl;
pub mod receiver;
pub mod rename;
