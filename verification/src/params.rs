//! Compression parameters, scrypt parameters and the password that
//! binds them together.
use vstd::prelude::*;

use crate::crypto::random_salt;

verus! {

/// Default size of one compressed data chunk on the wire.
pub const DEFAULT_BUF_SIZE: usize = 1024 * 8;

/// Default brotli quality.
pub const DEFAULT_COMPRESS_QUALITY: u32 = 4;

/// Default brotli window size (log2).
pub const DEFAULT_COMPRESS_WINDOW_SIZE: u32 = 20;

/// Default scrypt log2 cost.
pub const DEFAULT_SCRYPT_N: u8 = 15;

/// Default scrypt block size.
pub const DEFAULT_SCRYPT_R: u32 = 8;

/// Default scrypt parallelization.
pub const DEFAULT_SCRYPT_P: u32 = 1;

/// How a file's bytes are compressed: chunk size, brotli quality and
/// window size.
#[derive(Debug, Clone, Copy)]
pub struct CompressParams {
    buf_size: usize,
    quality: u32,
    window_size: u32,
}

impl CompressParams {
    /// Quality stays in brotli's `1..=11`, the window in its `10..=24`.
    #[verifier::type_invariant]
    pub open spec fn inv(self) -> bool {
        &&& 1 <= self.spec_quality() <= 11
        &&& 10 <= self.spec_window_size() <= 24
    }

    /// The size of one compressed chunk on the wire.
    pub closed spec fn spec_buf_size(self) -> usize {
        self.buf_size
    }

    /// The brotli quality.
    pub closed spec fn spec_quality(self) -> u32 {
        self.quality
    }

    /// The brotli window size.
    pub closed spec fn spec_window_size(self) -> u32 {
        self.window_size
    }

    /// Read the chunk size.
    pub(crate) fn exec_buf_size(&self) -> (n: usize)
        ensures
            n == self.spec_buf_size(),
    {
        self.buf_size
    }

    /// Read the quality.
    pub(crate) fn exec_quality(&self) -> (n: u32)
        ensures
            n == self.spec_quality(),
    {
        self.quality
    }

    /// Read the window size.
    pub(crate) fn exec_window_size(&self) -> (n: u32)
        ensures
            n == self.spec_window_size(),
    {
        self.window_size
    }

    /// The default parameters.
    pub fn new() -> (res: Self)
        ensures
            res.spec_buf_size() == DEFAULT_BUF_SIZE,
            res.spec_quality() == DEFAULT_COMPRESS_QUALITY,
            res.spec_window_size() == DEFAULT_COMPRESS_WINDOW_SIZE,
    {
        CompressParams {
            buf_size: DEFAULT_BUF_SIZE,
            quality: DEFAULT_COMPRESS_QUALITY,
            window_size: DEFAULT_COMPRESS_WINDOW_SIZE,
        }
    }

    /// Set the chunk size.
    pub fn buf_size(self, n: usize) -> (res: Self)
        ensures
            res.spec_buf_size() == n,
            res.spec_quality() == self.spec_quality(),
            res.spec_window_size() == self.spec_window_size(),
    {
        proof {
            use_type_invariant(&self);
        }
        CompressParams { buf_size: n, ..self }
    }

    /// Set the brotli quality.
    pub fn quality(self, n: u32) -> (res: Self)
        requires
            1 <= n <= 11,
        ensures
            res.spec_buf_size() == self.spec_buf_size(),
            res.spec_quality() == n,
            res.spec_window_size() == self.spec_window_size(),
    {
        proof {
            use_type_invariant(&self);
        }
        CompressParams { quality: n, ..self }
    }

    /// Set the brotli window size.
    pub fn window_size(self, n: u32) -> (res: Self)
        requires
            10 <= n <= 24,
        ensures
            res.spec_buf_size() == self.spec_buf_size(),
            res.spec_quality() == self.spec_quality(),
            res.spec_window_size() == n,
    {
        proof {
            use_type_invariant(&self);
        }
        CompressParams { window_size: n, ..self }
    }
}

impl Default for CompressParams {
    /// Same parameters as `CompressParams::new`.
    fn default() -> (res: Self)
        ensures
            res.spec_buf_size() == DEFAULT_BUF_SIZE,
            res.spec_quality() == DEFAULT_COMPRESS_QUALITY,
            res.spec_window_size() == DEFAULT_COMPRESS_WINDOW_SIZE,
    {
        CompressParams::new()
    }
}

/// The key-derivation parameters stored in an encrypted archive's
/// header: a 16-byte salt, the log2 cost `n`, block size `r` and
/// parallelization `p`.
#[derive(Debug, PartialEq, Eq)]
pub struct ScryptParams {
    pub salt: [u8; 16],
    pub n: u8,
    pub r: u32,
    pub p: u32,
}

/// The mathematical content of `ScryptParams`: the salt as a byte
/// sequence beside the three cost numbers.
pub struct ScryptParamsV {
    pub salt: Seq<u8>,
    pub n: u8,
    pub r: u32,
    pub p: u32,
}

impl View for ScryptParams {
    type V = ScryptParamsV;

    open spec fn view(&self) -> ScryptParamsV {
        ScryptParamsV { salt: self.salt@, n: self.n, r: self.r, p: self.p }
    }
}

impl Default for ScryptParams {
    /// The default cost parameters with a salt drawn fresh from the
    /// process RNG.
    fn default() -> (res: Self)
        ensures
            res.n == DEFAULT_SCRYPT_N,
            res.r == DEFAULT_SCRYPT_R,
            res.p == DEFAULT_SCRYPT_P,
    {
        ScryptParams {
            salt: random_salt(),
            n: DEFAULT_SCRYPT_N,
            r: DEFAULT_SCRYPT_R,
            p: DEFAULT_SCRYPT_P,
        }
    }
}

/// A password together with the scrypt parameters that will stretch it
/// into a key.
#[derive(Debug)]
pub struct Password<'a> {
    pub key: &'a str,
    pub params: ScryptParams,
}

impl<'a> Password<'a> {
    /// Pair a password with its key-derivation parameters.
    pub fn new(key: &'a str, params: ScryptParams) -> (res: Self)
        ensures
            res.key@ == key@,
            res.params == params,
    {
        Self { key, params }
    }
}

} // verus!
