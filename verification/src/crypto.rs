//! Key derivation and authenticated encryption.
//!
//! The scrypt KDF and the AES-256-GCM AEAD are outside collaborators;
//! what they compute is named by uninterpreted functions
//! ([`scrypt_key`], [`aead_seal`], [`aead_open`]) and every statement
//! about those names lives in the contracts of the wrappers here.
use vstd::prelude::*;

use aes_gcm::aead::Aead;
use aes_gcm::KeyInit;

use vstd::string::StringSliceAdditionalSpecFns;

use crate::params::Password;
use crate::Error;

verus! {

/// The 32-byte key that scrypt derives from a password, a salt and the
/// cost parameters `(log2 n, r, p)`.
pub uninterp spec fn scrypt_key(password: Seq<u8>, salt: Seq<u8>, n: u8, r: u32, p: u32) -> Seq<u8>;

/// The ciphertext-and-tag that AES-256-GCM (empty AAD) produces for a
/// key, a nonce and a plaintext.
pub uninterp spec fn aead_seal(key: Seq<u8>, nonce: Seq<u8>, plaintext: Seq<u8>) -> Seq<u8>;

/// What AES-256-GCM decryption (empty AAD) makes of a key, a nonce and
/// a ciphertext-and-tag: the plaintext, or `None` when the tag does
/// not verify.
pub uninterp spec fn aead_open(key: Seq<u8>, nonce: Seq<u8>, ciphertext: Seq<u8>) -> Option<
    Seq<u8>,
>;

/// The scrypt domain, as the KDF checks it: `r` and `p` positive,
/// `r * p < 2^30`, and working buffers of `128 * r * 2^n` and
/// `128 * r * p` bytes that fit the address space.
pub open spec fn scrypt_params_valid(n: u8, r: u32, p: u32) -> bool {
    &&& 0 < r
    &&& 0 < p
    &&& n < 64
    &&& (r as int) * (p as int) < 0x4000_0000
    &&& 128 * (r as int) * vstd::arithmetic::power2::pow2(n as nat) <= usize::MAX as int
    &&& 128 * (r as int) * (p as int) <= usize::MAX as int
}

/// An AES-256-GCM key, derived from a password.
///
/// The field is private: the only constructor is [`derive_cipher`], so
/// a `Cipher`'s key is always an output of [`scrypt_key`].
pub struct Cipher {
    key: [u8; 32],
}

impl Cipher {
    /// The derived key bytes.
    pub closed spec fn key(&self) -> Seq<u8> {
        self.key@
    }
}

/// Relies on `scrypt::Params::new` and `scrypt::scrypt`: the
/// parameter check accepts exactly the domain that
/// [`scrypt_params_valid`] describes (the `requires` rules out the
/// part of the check that could overflow), and the derived 32-byte key
/// is a function of the password, the salt and the parameters alone.
#[verifier::external_body]
fn scrypt_derive(password: &[u8], salt: &[u8; 16], n: u8, r: u32, p: u32) -> (res: Result<
    [u8; 32],
    Error,
>)
    requires
        0 < r,
        0 < p,
        n < 64,
        (r as int) * (p as int) < 0x4000_0000,
    ensures
        res is Ok <==> scrypt_params_valid(n, r, p),
        res matches Ok(key) ==> key@ == scrypt_key(password@, salt@, n, r, p),
        res matches Err(e) ==> e == Error::InvalidScryptParams,
{
    let params = match scrypt::Params::new(n, r, p) {
        Ok(params) => params,
        Err(_) => return Err(Error::InvalidScryptParams),
    };
    let mut key = [0u8; 32];
    match scrypt::scrypt(password, salt, &params, &mut key) {
        Ok(()) => Ok(key),
        Err(_) => Err(Error::InvalidScryptParams),
    }
}

/// Stretch a password into an AES-256-GCM cipher, or reject parameters
/// outside the scrypt domain.
pub fn derive_cipher(pw: &Password<'_>) -> (res: Result<Cipher, Error>)
    ensures
        res is Ok <==> scrypt_params_valid(pw.params.n, pw.params.r, pw.params.p),
        res matches Ok(c) ==> c.key() == scrypt_key(
            pw.key.spec_bytes(),
            pw.params.salt@,
            pw.params.n,
            pw.params.r,
            pw.params.p,
        ),
        res matches Err(e) ==> e == Error::InvalidScryptParams,
{
    let n = pw.params.n;
    let r = pw.params.r;
    let p = pw.params.p;
    if r == 0 || p == 0 || n >= 64 {
        return Err(Error::InvalidScryptParams);
    }
    proof {
        assert((r as int) * (p as int) <= 0xFFFF_FFFFu64 * 0xFFFF_FFFFu64) by (nonlinear_arith)
            requires
                r <= 0xFFFF_FFFFu64,
                p <= 0xFFFF_FFFFu64,
        ;
    }
    if (r as u64) * (p as u64) >= 0x4000_0000u64 {
        return Err(Error::InvalidScryptParams);
    }
    match scrypt_derive(pw.key.as_bytes(), &pw.params.salt, n, r, p) {
        Ok(key) => Ok(Cipher { key }),
        Err(e) => Err(e),
    }
}

/// Relies on `Aes256Gcm::encrypt` (via `Aes256Gcm::new`): sealing is a
/// function of key, nonce and plaintext; the output is the ciphertext
/// followed by the 16-byte tag; decrypting it with the same key and
/// nonce gives the plaintext back; and any plaintext that fits in a
/// chunk is accepted.
#[verifier::external_body]
pub(crate) fn aead_encrypt(cipher: &Cipher, nonce: &[u8; 12], plaintext: &[u8]) -> (res: Result<
    Vec<u8>,
    Error,
>)
    ensures
        plaintext@.len() <= 0xFFFF ==> res is Ok,
        res matches Ok(ct) ==> {
            &&& ct@ == aead_seal(cipher.key(), nonce@, plaintext@)
            &&& ct@.len() == plaintext@.len() + 16
            &&& aead_open(cipher.key(), nonce@, ct@) == Some(plaintext@)
        },
        res matches Err(e) ==> e == Error::EncryptionFailed,
{
    let key = aes_gcm::Key::<aes_gcm::Aes256Gcm>::from(cipher.key);
    let aead = aes_gcm::Aes256Gcm::new(&key);
    let nonce = aes_gcm::aead::Nonce::<aes_gcm::Aes256Gcm>::from(*nonce);
    match aead.encrypt(&nonce, plaintext) {
        Ok(ct) => Ok(ct),
        Err(_) => Err(Error::EncryptionFailed),
    }
}

/// Relies on `Aes256Gcm::decrypt` (via `Aes256Gcm::new`): decryption
/// inverts [`aead_seal`], succeeds exactly when the tag verifies, and
/// a forged or altered ciphertext is rejected (a cryptographic
/// guarantee, overwhelming rather than absolute).
#[verifier::external_body]
pub(crate) fn aead_decrypt(cipher: &Cipher, nonce: &[u8; 12], ciphertext: &[u8]) -> (res: Result<
    Vec<u8>,
    Error,
>)
    ensures
        res is Ok <==> aead_open(cipher.key(), nonce@, ciphertext@) is Some,
        res matches Ok(pt) ==> aead_open(cipher.key(), nonce@, ciphertext@) == Some(pt@),
        res matches Err(e) ==> e == Error::DecryptionFailed,
{
    let key = aes_gcm::Key::<aes_gcm::Aes256Gcm>::from(cipher.key);
    let aead = aes_gcm::Aes256Gcm::new(&key);
    let nonce = aes_gcm::aead::Nonce::<aes_gcm::Aes256Gcm>::from(*nonce);
    match aead.decrypt(&nonce, ciphertext) {
        Ok(pt) => Ok(pt),
        Err(_) => Err(Error::DecryptionFailed),
    }
}

/// Relies on `rand::random`: a fresh 16-byte salt from the process
/// RNG. Nothing is promised of the value.
#[verifier::external_body]
pub fn random_salt() -> (res: [u8; 16]) {
    rand::random()
}

/// Relies on `rand::random`: a fresh 12-byte nonce from the process
/// RNG. Nothing is promised of the value.
#[verifier::external_body]
pub(crate) fn random_nonce() -> (res: [u8; 12]) {
    rand::random()
}

} // verus!
