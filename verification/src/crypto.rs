//! The cryptographic primitives the vault is built on: operating-system
//! randomness, Argon2id key stretching, AES-256-GCM sealing and wiping of
//! key material. Each outside function is reached through one trusted
//! wrapper.

use vstd::prelude::*;
use aes_gcm::aead::{Aead, AeadCore, KeyInit, Payload};
use rand::RngCore;
use zeroize::Zeroize;

verus! {

/// `n` bytes from the operating system's random source. Calls
/// `rand::rngs::OsRng::fill_bytes`; only the length is claimed.
#[verifier::external_body]
pub fn os_random_bytes(n: usize) -> (res: Vec<u8>)
    ensures
        res@.len() == n,
{
    let mut buf = vec![0u8; n];
    rand::rngs::OsRng.fill_bytes(&mut buf);
    buf
}

/// A fresh random 96-bit AES-GCM nonce. Calls
/// `aes_gcm::Aes256Gcm::generate_nonce` with the operating system's random
/// source; only the length is claimed.
#[verifier::external_body]
pub fn aes_gcm_random_nonce() -> (res: Vec<u8>)
    ensures
        res@.len() == 12,
{
    aes_gcm::Aes256Gcm::generate_nonce(&mut rand::rngs::OsRng).to_vec()
}

/// The 32-byte Argon2id (version 0x13) output for a password and salt under
/// the given memory, time and parallelism costs (named: the hash itself is
/// left to the crate).
pub uninterp spec fn argon2id_key(m_cost: u32, t_cost: u32, p_cost: u32, pwd: Seq<u8>, salt: Seq<u8>) -> Seq<u8>;

/// Whether the `argon2` crate accepts these costs (`Params::new`).
pub open spec fn argon2_params_ok(m_cost: u32, t_cost: u32, p_cost: u32) -> bool {
    &&& m_cost >= 8
    &&& m_cost >= 8 * p_cost
    &&& t_cost >= 1
    &&& 1 <= p_cost <= 0xFF_FFFF
}

/// Stretches a password into a 32-byte key with Argon2id. Calls
/// `argon2::Params::new`, `argon2::Argon2::new` and
/// `Argon2::hash_password_into` (one hash computation). The contract claims
/// the named output, and that the crate refuses exactly bad costs, a salt
/// shorter than 8 or longer than 2^32-1 bytes, or a password longer than
/// 2^32-1 bytes, with the error's display text. The memory cost is bounded
/// here so that the allocation the hash makes stays at 64 MiB or less, and
/// the parallelism to the crate's own limit, 2^24-1, since `Params::new`
/// multiplies it by 8 in `u32` before checking that limit.
#[verifier::external_body]
pub fn argon2id_derive(m_cost: u32, t_cost: u32, p_cost: u32, pwd: &[u8], salt: &[u8]) -> (res: Result<Vec<u8>, String>)
    requires
        m_cost <= 65536,
        p_cost <= 0xFF_FFFF,
    ensures
        res is Ok <==> (argon2_params_ok(m_cost, t_cost, p_cost) && 8 <= salt@.len() <= 0xFFFF_FFFF
            && pwd@.len() <= 0xFFFF_FFFF),
        res matches Ok(k) ==> k@ == argon2id_key(m_cost, t_cost, p_cost, pwd@, salt@)
            && k@.len() == 32,
{
    let params = match argon2::Params::new(m_cost, t_cost, p_cost, Some(32)) {
        Ok(p) => p,
        Err(e) => return Err(e.to_string()),
    };
    let argon = argon2::Argon2::new(argon2::Algorithm::Argon2id, argon2::Version::V0x13, params);
    let mut out = vec![0u8; 32];
    match argon.hash_password_into(pwd, salt, &mut out) {
        Ok(()) => Ok(out),
        Err(e) => Err(e.to_string()),
    }
}

/// AES-256-GCM ciphertext-with-tag of a message (named: the cipher itself
/// is left to the crate).
pub uninterp spec fn aes_gcm_sealed(key: Seq<u8>, nonce: Seq<u8>, msg: Seq<u8>, aad: Seq<u8>) -> Seq<u8>;

/// What AES-256-GCM decryption yields for a ciphertext-with-tag, if the
/// tag verifies.
pub uninterp spec fn aes_gcm_opened(key: Seq<u8>, nonce: Seq<u8>, ct: Seq<u8>, aad: Seq<u8>) -> Option<Seq<u8>>;

/// Encrypts with AES-256-GCM. Calls `Aes256Gcm::new_from_slice` and
/// `Aead::encrypt` with the associated data. The contract claims the named
/// ciphertext (message length plus a 16-byte tag), that decrypting it with
/// the same key, nonce and associated data gives the message back, and that
/// the crate refuses exactly messages or associated data over 2^36 bytes,
/// with the error's display text (`aead::Error`).
#[verifier::external_body]
pub fn aes_gcm_seal(key: &[u8], nonce: &[u8], msg: &[u8], aad: &[u8]) -> (res: Result<Vec<u8>, String>)
    requires
        key@.len() == 32,
        nonce@.len() == 12,
    ensures
        res is Ok <==> (msg@.len() <= 0x10_0000_0000 && aad@.len() <= 0x10_0000_0000),
        res matches Err(e) ==> e@ == "aead::Error"@,
        res matches Ok(ct) ==> {
            &&& ct@ == aes_gcm_sealed(key@, nonce@, msg@, aad@)
            &&& ct@.len() == msg@.len() + 16
            &&& aes_gcm_opened(key@, nonce@, ct@, aad@) == Some(msg@)
        },
{
    let cipher = match aes_gcm::Aes256Gcm::new_from_slice(key) {
        Ok(c) => c,
        Err(e) => return Err(e.to_string()),
    };
    match cipher.encrypt(aes_gcm::Nonce::from_slice(nonce), Payload { msg, aad }) {
        Ok(ct) => Ok(ct),
        Err(e) => Err(e.to_string()),
    }
}

/// Decrypts with AES-256-GCM. Calls `Aes256Gcm::new_from_slice` and
/// `Aead::decrypt` with the associated data; the contract claims the named
/// outcome.
#[verifier::external_body]
pub fn aes_gcm_open(key: &[u8], nonce: &[u8], ct: &[u8], aad: &[u8]) -> (res: Option<Vec<u8>>)
    requires
        key@.len() == 32,
        nonce@.len() == 12,
    ensures
        match res {
            Some(pt) => aes_gcm_opened(key@, nonce@, ct@, aad@) == Some(pt@),
            None => aes_gcm_opened(key@, nonce@, ct@, aad@) is None,
        },
{
    let cipher = match aes_gcm::Aes256Gcm::new_from_slice(key) {
        Ok(c) => c,
        Err(_) => return None,
    };
    cipher.decrypt(aes_gcm::Nonce::from_slice(nonce), Payload { msg: ct, aad }).ok()
}

/// Overwrites key material with zeros and empties the buffer. Calls
/// `zeroize::Zeroize::zeroize` on the vector, which the crate documents as
/// zeroing the elements and spare capacity, then clearing.
#[verifier::external_body]
pub fn wipe(buf: &mut Vec<u8>)
    ensures
        final(buf)@.len() == 0,
{
    buf.zeroize();
}

} // verus!
