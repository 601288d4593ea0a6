//! An encrypted credential vault: key derivation from a master secret, three
//! interchangeable cipher backends, the canonical text encoding of the record
//! list, and the in-memory vault whose operations an interactive shell drives.

pub mod cipher;
pub mod codec;
pub mod crypto;
pub mod escape;
pub mod keys;
pub mod listing;
pub mod record;
pub mod session;
pub mod text;
pub mod vault;
