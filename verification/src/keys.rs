//! The agent's Ed25519 key pair and its text form.

use vstd::prelude::*;
use base64::Engine;

verus! {

/// The standard base64 encoding (RFC 4648 alphabet, with `=` padding) of a
/// byte sequence.
pub uninterp spec fn base64_standard(bytes: Seq<u8>) -> Seq<char>;

/// The Ed25519 public key (compressed point) that belongs to a 32-byte
/// secret key.
pub uninterp spec fn ed25519_public_key(secret: Seq<u8>) -> Seq<u8>;

/// `base64::engine::general_purpose::STANDARD.encode`: the standard padded
/// base64 text of the bytes. Its length is four characters per started
/// group of three bytes, as `base64::encoded_len` computes it; the crate
/// panics only when that length overflows, which the bound rules out.
#[verifier::external_body]
fn base64_encode(bytes: &[u8]) -> (r: String)
    requires
        bytes@.len() <= usize::MAX / 2,
    ensures
        r@ == base64_standard(bytes@),
        r@.len() == 4 * ((bytes@.len() + 2) / 3),
{
    base64::engine::general_purpose::STANDARD.encode(bytes)
}

/// `ed25519_dalek::SigningKey::from_bytes(secret).verifying_key().to_bytes()`:
/// the public key of the secret key, 32 bytes.
#[verifier::external_body]
fn derive_public_key(secret: &[u8; 32]) -> (r: [u8; 32])
    ensures
        r@ == ed25519_public_key(secret@),
{
    ed25519_dalek::SigningKey::from_bytes(secret).verifying_key().to_bytes()
}

/// The agent's key pair in the text form it stores and sends.
pub struct AgentKeys {
    /// The secret key, base64.
    pub private_key: String,
    /// The public key, base64.
    pub public_key: String,
}

/// The key pair of a 32-byte Ed25519 secret key, both halves in standard
/// base64.
pub fn agent_keys(secret: &[u8; 32]) -> (r: AgentKeys)
    ensures
        r.private_key@ == base64_standard(secret@),
        r.public_key@ == base64_standard(ed25519_public_key(secret@)),
{
    let public = derive_public_key(secret);
    let private_key = base64_encode(secret.as_slice());
    let public_key = base64_encode(public.as_slice());
    AgentKeys { private_key, public_key }
}

} // verus!
