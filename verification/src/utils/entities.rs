//! The credentials that installation generates.

use vstd::prelude::*;

verus! {

/// The server credentials kept in the `.keys` file.
#[derive(Debug)]
pub struct Keys {
    /// The main user's UUID.
    pub uuid: String,
    /// The x25519 private key of the server.
    pub private_key: String,
    /// The x25519 public key (`Password` in recent `xray x25519` output).
    pub public_key: String,
    /// The Reality short ID.
    pub short_id: String,
}

/// One of the fields of [`Keys`].
#[derive(Debug, Clone, Copy, PartialEq, Eq, Structural)]
pub enum KeyField {
    Uuid,
    PrivateKey,
    PublicKey,
    ShortId,
}

} // verus!
