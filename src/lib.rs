//! A personal credential vault: account/password pairs kept in a flat text
//! file, with every password sealed under a key derived from a passphrase.

pub mod codec;
pub mod crypto;
pub mod store;
pub mod text;
pub mod vault;
