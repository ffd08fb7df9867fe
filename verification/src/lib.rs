//! Streaming codec for the `mei` archive container.
//!
//! An archive is a byte stream: a fixed preamble (magic, version, info
//! string, encryption header) followed by entries. Each entry is a type
//! tag, a length-prefixed path, and — for files — a brotli-compressed
//! body cut into length-prefixed chunks, terminated by an empty chunk.
//! With a password, the key is derived by scrypt and every non-empty
//! chunk is sealed with AES-256-GCM under a fresh random nonce.
use vstd::prelude::*;

pub mod compress;
pub mod crypto;
pub mod decode;
pub mod encode;
pub mod encrypt;
pub mod framing;
pub mod laws;
pub mod model;
pub mod params;
pub mod source;

verus! {

/// Everything that can go wrong while encoding or decoding an archive.
#[derive(Debug, PartialEq, Eq)]
pub enum Error {
    /// The magic bytes are not `mei`.
    InvalidHead,
    /// The version byte is not the one this codec implements.
    InvalidVersion,
    /// The encryption tag is neither "none" nor "AES-256-GCM".
    InvalidEncryptMethod,
    /// The scrypt parameters are outside the KDF's accepted domain.
    InvalidScryptParams,
    /// The AEAD refused to encrypt.
    EncryptionFailed,
    /// AEAD tag verification failed: wrong key or tampering.
    DecryptionFailed,
    /// Unknown entry type tag.
    FileType(u8),
    /// An encrypted path chunk was a terminator.
    FilePath,
    /// The archive is encrypted but no password was supplied.
    PasswordRequired,
    /// The archive is plain but a password was supplied.
    NoPasswordRequired,
    /// The info string or a path is not valid UTF-8. The offending
    /// bytes are not carried along.
    Utf8,
    /// A chunk longer than 65535 bytes was about to be written.
    ChunkTooLong,
    /// The byte source ended too early, or a body failed to
    /// decompress. No underlying error value is carried along.
    IO,
}

/// The kind of an archive entry: a directory (path only) or a file
/// (path plus a chunk sequence).
#[derive(Debug, PartialEq, Eq, Structural, Clone, Copy)]
pub enum FileType {
    File,
    Directory,
}

/// The wire tag of an entry type.
pub open spec fn type_tag(t: FileType) -> u8 {
    match t {
        FileType::Directory => 0u8,
        FileType::File => 1u8,
    }
}

impl FileType {
    /// Turn a wire tag back into an entry type.
    pub fn parse(byte: u8) -> (res: Result<Self, Error>)
        ensures
            byte == 0u8 ==> res == Ok::<FileType, Error>(FileType::Directory),
            byte == 1u8 ==> res == Ok::<FileType, Error>(FileType::File),
            byte != 0u8 && byte != 1u8 ==> res == Err::<FileType, Error>(Error::FileType(byte)),
    {
        if byte == 1u8 {
            return Ok(Self::File);
        }
        if byte == 0u8 {
            return Ok(Self::Directory);
        }
        Err(Error::FileType(byte))
    }

    /// Append this entry type's wire tag to the sink.
    pub fn write(self, w: &mut Vec<u8>)
        ensures
            final(w)@ == old(w)@.push(type_tag(self)),
    {
        match self {
            FileType::Directory => w.push(0u8),
            FileType::File => w.push(1u8),
        }
    }
}

} // verus!
