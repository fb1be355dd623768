//! Core of a reader and writer for KDBX password-database payloads: the
//! cipher and key-derivation contracts shared by the outer envelope, the
//! in-memory tree of groups and entries, and the XML codec that maps the
//! tree to its document form while protected values pass through the
//! inner stream cipher.

pub mod errors;
pub mod timestamp;
pub mod b64;
pub mod ciphers;
pub mod kdf;
pub mod model;
pub mod xmlrep;
pub mod xml_write;
pub mod xml_read;
pub mod laws;
pub mod secure;
