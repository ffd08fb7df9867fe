//! The wire format, stated mathematically.
//!
//! Builders (`*_bytes`) say what the encoder puts on the wire;
//! parsers (`spec_*`) say what the decoder makes of arbitrary bytes.
//! The codec's contracts are stated over these functions, and the
//! round-trip laws in [`crate::laws`] connect the two directions.
use vstd::prelude::*;

use vstd::utf8::{decode_utf8, valid_utf8};

use crate::crypto::{aead_open, aead_seal};
use crate::params::ScryptParamsV;
use crate::{type_tag, Error, FileType};

verus! {

/// A length as two big-endian bytes. Meaningful for `0..=65535`.
pub open spec fn be16(n: int) -> Seq<u8> {
    seq![((n / 256) % 256) as u8, (n % 256) as u8]
}

/// A number as four big-endian bytes. Meaningful for `0..=2^32 - 1`.
pub open spec fn be32(n: int) -> Seq<u8> {
    seq![
        ((n / 0x1000000) % 256) as u8,
        ((n / 0x10000) % 256) as u8,
        ((n / 256) % 256) as u8,
        (n % 256) as u8,
    ]
}

/// The number held by four big-endian bytes at `pos`.
pub open spec fn be32_at(bytes: Seq<u8>, pos: int) -> u32 {
    (bytes[pos] * 0x1000000 + bytes[pos + 1] * 0x10000 + bytes[pos + 2] * 256 + bytes[pos
        + 3]) as u32
}

/// A chunk on the wire: two big-endian length bytes, then the data.
pub open spec fn frame(data: Seq<u8>) -> Seq<u8> {
    be16(data.len() as int) + data
}

/// The 3-byte magic `mei`.
pub open spec fn head_bytes() -> Seq<u8> {
    seq![109u8, 101u8, 105u8]
}

/// The 1-byte version this codec implements.
pub open spec fn version_byte() -> u8 {
    1u8
}

/// The encryption header: a zero tag, or a one tag followed by the
/// salt, the log2 cost, and the big-endian `r` and `p`.
pub open spec fn enc_header_bytes(op: Option<ScryptParamsV>) -> Seq<u8> {
    match op {
        Option::None => seq![0u8],
        Option::Some(sp) => seq![1u8] + sp.salt + seq![sp.n] + be32(sp.r as int) + be32(
            sp.p as int,
        ),
    }
}

/// The archive preamble: magic, version, info chunk, encryption
/// header.
pub open spec fn preamble_bytes(info: Seq<u8>, op: Option<ScryptParamsV>) -> Seq<u8> {
    head_bytes() + seq![version_byte()] + frame(info) + enc_header_bytes(op)
}

/// An encrypted chunk on the wire: the framed ciphertext-and-tag
/// followed by the raw 12-byte nonce — except that empty plaintext is
/// a bare terminator frame with no nonce.
pub open spec fn enc_chunk_bytes(key: Seq<u8>, nonce: Seq<u8>, pt: Seq<u8>) -> Seq<u8> {
    if pt.len() == 0 {
        frame(Seq::empty())
    } else {
        frame(aead_seal(key, nonce, pt)) + nonce
    }
}

/// An entry's head in a plain archive: the type tag and the framed
/// path bytes.
pub open spec fn entry_head_plain(t: FileType, path: Seq<u8>) -> Seq<u8> {
    seq![type_tag(t)] + frame(path)
}

/// An entry's head in an encrypted archive: the type tag and the
/// sealed path chunk.
pub open spec fn entry_head_enc(t: FileType, key: Seq<u8>, nonce: Seq<u8>, path: Seq<u8>) -> Seq<
    u8,
> {
    seq![type_tag(t)] + enc_chunk_bytes(key, nonce, path)
}

/// A plain file body: the stream `c` cut into chunks of at most `buf`
/// bytes, each framed, closed by a terminator frame.
pub open spec fn plain_body_bytes(c: Seq<u8>, buf: int) -> Seq<u8>
    decreases c.len(),
{
    if buf <= 0 || c.len() == 0 {
        frame(Seq::empty())
    } else if c.len() <= buf {
        frame(c) + frame(Seq::empty())
    } else {
        frame(c.take(buf)) + plain_body_bytes(c.skip(buf), buf)
    }
}

/// An encrypted file body: the stream `c` cut into chunks of at most
/// `buf` bytes, each sealed under its own nonce, closed by a bare
/// terminator frame.
pub open spec fn enc_body_bytes(key: Seq<u8>, nonces: Seq<Seq<u8>>, c: Seq<u8>, buf: int) -> Seq<
    u8,
>
    decreases c.len(),
{
    if buf <= 0 || c.len() == 0 {
        frame(Seq::empty())
    } else if c.len() <= buf {
        enc_chunk_bytes(key, nonces[0], c) + frame(Seq::empty())
    } else {
        enc_chunk_bytes(key, nonces[0], c.take(buf)) + enc_body_bytes(
            key,
            nonces.skip(1),
            c.skip(buf),
            buf,
        )
    }
}

/// What the AEAD wrapper guarantees of one sealed chunk: a 12-byte
/// nonce, the tag's 16 bytes of overhead, and that opening the seal
/// gives the plaintext back.
pub open spec fn chunk_seal_ok(key: Seq<u8>, nonce: Seq<u8>, pt: Seq<u8>) -> bool {
    &&& nonce.len() == 12
    &&& aead_seal(key, nonce, pt).len() == pt.len() + 16
    &&& aead_open(key, nonce, aead_seal(key, nonce, pt)) == Some(pt)
}

/// [`chunk_seal_ok`] for every chunk of a body.
pub open spec fn body_seals_ok(key: Seq<u8>, nonces: Seq<Seq<u8>>, c: Seq<u8>, buf: int) -> bool
    decreases c.len(),
{
    if buf <= 0 || c.len() == 0 {
        true
    } else if c.len() <= buf {
        nonces.len() >= 1 && chunk_seal_ok(key, nonces[0], c)
    } else {
        nonces.len() >= 1 && chunk_seal_ok(key, nonces[0], c.take(buf)) && body_seals_ok(
            key,
            nonces.skip(1),
            c.skip(buf),
            buf,
        )
    }
}

/// Every plain chunk of the stream `c` fits a 16-bit length frame.
pub open spec fn plain_chunks_fit(c: Seq<u8>, buf: int) -> bool {
    if c.len() <= buf {
        c.len() <= 65535
    } else {
        buf <= 65535
    }
}

/// Every sealed chunk of the stream `c` (16 bytes larger than its
/// plaintext) fits a 16-bit length frame.
pub open spec fn enc_chunks_fit(c: Seq<u8>, buf: int) -> bool {
    if c.len() <= buf {
        c.len() + 16 <= 65535
    } else {
        buf + 16 <= 65535
    }
}

/// The bytes at `pos`, when `n` of them are there.
pub open spec fn spec_take(bytes: Seq<u8>, pos: int, n: int) -> Option<Seq<u8>> {
    if 0 <= pos && 0 <= n && pos + n <= bytes.len() {
        Some(bytes.subrange(pos, pos + n))
    } else {
        None
    }
}

/// A chunk parsed at `pos`: its data and the position after it, or
/// `None` when the buffer ends inside the frame.
pub open spec fn spec_chunk_at(bytes: Seq<u8>, pos: int) -> Option<(Seq<u8>, int)> {
    match spec_take(bytes, pos, 2) {
        Option::None => None,
        Option::Some(lenb) => {
            let n = lenb[0] * 256 + lenb[1];
            match spec_take(bytes, pos + 2, n as int) {
                Option::None => None,
                Option::Some(data) => Some((data, pos + 2 + n)),
            }
        },
    }
}

/// The encryption header parsed at `pos`.
pub open spec fn spec_enc_header_at(bytes: Seq<u8>, pos: int) -> Result<
    (Option<ScryptParamsV>, int),
    Error,
> {
    if !(0 <= pos && pos < bytes.len()) {
        Err(Error::IO)
    } else if bytes[pos] == 0u8 {
        Ok((None, pos + 1))
    } else if bytes[pos] == 1u8 {
        if pos + 26 <= bytes.len() {
            Ok(
                (
                    Some(
                        ScryptParamsV {
                            salt: bytes.subrange(pos + 1, pos + 17),
                            n: bytes[pos + 17],
                            r: be32_at(bytes, pos + 18),
                            p: be32_at(bytes, pos + 22),
                        },
                    ),
                    pos + 26,
                ),
            )
        } else {
            Err(Error::IO)
        }
    } else {
        Err(Error::InvalidEncryptMethod)
    }
}

/// The whole preamble parsed from the front of the buffer: the info
/// string, the encryption header, and the position after them — or
/// the error the decoder reports.
pub open spec fn spec_parse_preamble(bytes: Seq<u8>) -> Result<
    (Seq<char>, Option<ScryptParamsV>, int),
    Error,
> {
    if bytes.len() < 3 {
        Err(Error::IO)
    } else if bytes.subrange(0, 3) != head_bytes() {
        Err(Error::InvalidHead)
    } else if bytes.len() < 4 {
        Err(Error::IO)
    } else if bytes[3] != version_byte() {
        Err(Error::InvalidVersion)
    } else {
        match spec_chunk_at(bytes, 4) {
            Option::None => Err(Error::IO),
            Option::Some((info, p)) => {
                if !valid_utf8(info) {
                    Err(Error::Utf8)
                } else {
                    match spec_enc_header_at(bytes, p) {
                        Err(e) => Err(e),
                        Ok((op, end)) => Ok((decode_utf8(info), op, end)),
                    }
                }
            },
        }
    }
}

/// One encrypted chunk parsed at `pos`: a terminator (an empty
/// frame, or the buffer's end before any chunk byte), a decrypted
/// chunk, or a fatal error. The buffer ending inside the frame — in
/// the length prefix, the ciphertext, or the nonce — is fatal.
pub enum EncChunk {
    Term(int),
    Data(Seq<u8>, int),
    Fail(Error),
}

/// Parse one encrypted chunk at `pos` with the given key.
pub open spec fn spec_enc_chunk_at(bytes: Seq<u8>, pos: int, key: Seq<u8>) -> EncChunk {
    if !(0 <= pos < bytes.len()) {
        EncChunk::Term(pos)
    } else {
        match spec_chunk_at(bytes, pos) {
            Option::None => EncChunk::Fail(Error::IO),
            Option::Some((ct, end)) => {
                if ct.len() == 0 {
                    EncChunk::Term(end)
                } else {
                    match spec_take(bytes, end, 12) {
                        Option::None => EncChunk::Fail(Error::IO),
                        Option::Some(nonce) => match aead_open(key, nonce, ct) {
                            Option::None => EncChunk::Fail(Error::DecryptionFailed),
                            Option::Some(pt) => EncChunk::Data(pt, end + 12),
                        },
                    }
                }
            },
        }
    }
}

/// An entry head parsed at `pos`: `Ok(None)` at the archive's end,
/// otherwise the entry type, its path and the position after — or the
/// error the decoder reports.
pub open spec fn spec_read_entry(bytes: Seq<u8>, pos: int, key: Option<Seq<u8>>) -> Result<
    Option<(FileType, Seq<char>, int)>,
    Error,
> {
    if !(0 <= pos < bytes.len()) {
        Ok(None)
    } else {
        let tag = bytes[pos];
        if tag != 0u8 && tag != 1u8 {
            Err(Error::FileType(tag))
        } else {
            let t = if tag == 1u8 {
                FileType::File
            } else {
                FileType::Directory
            };
            match key {
                Option::None => match spec_chunk_at(bytes, pos + 1) {
                    Option::None => Err(Error::IO),
                    Option::Some((pb, end)) => {
                        if valid_utf8(pb) {
                            Ok(Some((t, decode_utf8(pb), end)))
                        } else {
                            Err(Error::Utf8)
                        }
                    },
                },
                Option::Some(k) => match spec_enc_chunk_at(bytes, pos + 1, k) {
                    EncChunk::Fail(e) => Err(e),
                    EncChunk::Term(_) => Err(Error::FilePath),
                    EncChunk::Data(pb, end) => {
                        if valid_utf8(pb) {
                            Ok(Some((t, decode_utf8(pb), end)))
                        } else {
                            Err(Error::Utf8)
                        }
                    },
                },
            }
        }
    }
}

/// A plain file body parsed at `pos`: the concatenation of the chunk
/// data up to the terminator, and the position after it. The buffer
/// ending inside a frame is fatal.
pub open spec fn spec_read_body_plain(bytes: Seq<u8>, pos: int) -> Result<(Seq<u8>, int), Error>
    decreases bytes.len() - pos,
{
    match spec_chunk_at(bytes, pos) {
        Option::None => Err(Error::IO),
        Option::Some((data, end)) => {
            if data.len() == 0 {
                Ok((Seq::empty(), end))
            } else {
                match spec_read_body_plain(bytes, end) {
                    Err(e) => Err(e),
                    Ok((rest, fin)) => Ok((data + rest, fin)),
                }
            }
        },
    }
}

/// An encrypted file body parsed at `pos`: the concatenation of the
/// decrypted chunk data up to the terminator (the buffer's clean end
/// before any chunk byte counts as one; its end inside a frame is
/// fatal), and the position after it.
pub open spec fn spec_read_body_enc(bytes: Seq<u8>, pos: int, key: Seq<u8>) -> Result<
    (Seq<u8>, int),
    Error,
>
    decreases bytes.len() - pos,
{
    match spec_enc_chunk_at(bytes, pos, key) {
        EncChunk::Fail(e) => Err(e),
        EncChunk::Term(end) => Ok((Seq::empty(), end)),
        EncChunk::Data(pt, end) => match spec_read_body_enc(bytes, end, key) {
            Err(e) => Err(e),
            Ok((rest, fin)) => Ok((pt + rest, fin)),
        },
    }
}

/// A file body parsed at `pos`, in whichever mode the archive is in.
pub open spec fn spec_read_body(bytes: Seq<u8>, pos: int, key: Option<Seq<u8>>) -> Result<
    (Seq<u8>, int),
    Error,
> {
    match key {
        Option::None => spec_read_body_plain(bytes, pos),
        Option::Some(k) => spec_read_body_enc(bytes, pos, k),
    }
}

/// One archive entry, mathematically: its type, its path, and — for
/// files — the compressed stream its body carries.
pub struct EntryV {
    pub t: FileType,
    pub path: Seq<char>,
    pub c: Seq<u8>,
}

/// The wire bytes of one plain entry.
pub open spec fn plain_entry_bytes(e: EntryV, buf: int) -> Seq<u8> {
    if e.t is File {
        entry_head_plain(e.t, vstd::utf8::encode_utf8(e.path)) + plain_body_bytes(e.c, buf)
    } else {
        entry_head_plain(e.t, vstd::utf8::encode_utf8(e.path))
    }
}

/// The wire bytes of a sequence of plain entries, in order.
pub open spec fn plain_entries_bytes(es: Seq<EntryV>, buf: int) -> Seq<u8>
    decreases es.len(),
{
    if es.len() == 0 {
        Seq::empty()
    } else {
        plain_entry_bytes(es[0], buf) + plain_entries_bytes(es.skip(1), buf)
    }
}

/// An entry the encoder accepts whole: the path fits a frame, and a
/// file's chunks fit theirs.
pub open spec fn plain_entry_fits(e: EntryV, buf: int) -> bool {
    &&& vstd::utf8::encode_utf8(e.path).len() <= 65535
    &&& (e.t is File ==> 0 < buf && plain_chunks_fit(e.c, buf))
}

/// Every entry of a plain archive's tail, parsed in stream order:
/// the `(type, path)` pairs the decoder hands out, file bodies
/// skipped as `read_file` skips them. (The position guard only rules
/// out parses that would not advance; every well-formed parse does.)
pub open spec fn spec_read_entries_plain(bytes: Seq<u8>, pos: int) -> Result<
    Seq<(FileType, Seq<char>)>,
    Error,
>
    decreases bytes.len() - pos,
{
    match spec_read_entry(bytes, pos, None) {
        Err(e) => Err(e),
        Ok(Option::None) => Ok(Seq::empty()),
        Ok(Option::Some((t, path, end))) => {
            let next = if t is File {
                match spec_read_body_plain(bytes, end) {
                    Err(_) => -1,
                    Ok((c, end2)) => end2,
                }
            } else {
                end
            };
            if next < 0 {
                match spec_read_body_plain(bytes, end) {
                    Err(e) => Err(e),
                    Ok(_) => Err(Error::IO),
                }
            } else if pos < next <= bytes.len() {
                match spec_read_entries_plain(bytes, next) {
                    Err(e) => Err(e),
                    Ok(rest) => Ok(seq![(t, path)] + rest),
                }
            } else {
                Err(Error::IO)
            }
        },
    }
}

/// The `(type, path)` pairs of a sequence of entries.
pub open spec fn entry_names(es: Seq<EntryV>) -> Seq<(FileType, Seq<char>)> {
    Seq::new(es.len(), |i: int| (es[i].t, es[i].path))
}

/// One encrypted archive entry, mathematically: beside its type,
/// path and compressed stream, the nonce its path was sealed under
/// and the nonces of its body chunks.
pub struct EncEntryV {
    pub t: FileType,
    pub path: Seq<char>,
    pub c: Seq<u8>,
    pub pn: Seq<u8>,
    pub ns: Seq<Seq<u8>>,
}

/// The wire bytes of one encrypted entry.
pub open spec fn enc_entry_bytes(key: Seq<u8>, e: EncEntryV, buf: int) -> Seq<u8> {
    if e.t is File {
        entry_head_enc(e.t, key, e.pn, vstd::utf8::encode_utf8(e.path)) + enc_body_bytes(
            key,
            e.ns,
            e.c,
            buf,
        )
    } else {
        entry_head_enc(e.t, key, e.pn, vstd::utf8::encode_utf8(e.path))
    }
}

/// The wire bytes of a sequence of encrypted entries, in order.
pub open spec fn enc_entries_bytes(key: Seq<u8>, es: Seq<EncEntryV>, buf: int) -> Seq<u8>
    decreases es.len(),
{
    if es.len() == 0 {
        Seq::empty()
    } else {
        enc_entry_bytes(key, es[0], buf) + enc_entries_bytes(key, es.skip(1), buf)
    }
}

/// An encrypted entry the encoder accepts whole, with the seals that
/// its own contract establishes.
pub open spec fn enc_entry_fits(key: Seq<u8>, e: EncEntryV, buf: int) -> bool {
    &&& 0 < vstd::utf8::encode_utf8(e.path).len()
    &&& vstd::utf8::encode_utf8(e.path).len() + 16 <= 65535
    &&& chunk_seal_ok(key, e.pn, vstd::utf8::encode_utf8(e.path))
    &&& (e.t is File ==> 0 < buf && enc_chunks_fit(e.c, buf) && body_seals_ok(key, e.ns, e.c, buf))
}

/// Every entry of an encrypted archive's tail, parsed in stream
/// order, as [`spec_read_entries_plain`] does for plain archives.
pub open spec fn spec_read_entries_enc(bytes: Seq<u8>, pos: int, key: Seq<u8>) -> Result<
    Seq<(FileType, Seq<char>)>,
    Error,
>
    decreases bytes.len() - pos,
{
    match spec_read_entry(bytes, pos, Some(key)) {
        Err(e) => Err(e),
        Ok(Option::None) => Ok(Seq::empty()),
        Ok(Option::Some((t, path, end))) => {
            let next = if t is File {
                match spec_read_body_enc(bytes, end, key) {
                    Err(_) => -1,
                    Ok((c, end2)) => end2,
                }
            } else {
                end
            };
            if next < 0 {
                match spec_read_body_enc(bytes, end, key) {
                    Err(e) => Err(e),
                    Ok(_) => Err(Error::IO),
                }
            } else if pos < next <= bytes.len() {
                match spec_read_entries_enc(bytes, next, key) {
                    Err(e) => Err(e),
                    Ok(rest) => Ok(seq![(t, path)] + rest),
                }
            } else {
                Err(Error::IO)
            }
        },
    }
}

/// The `(type, path)` pairs of a sequence of encrypted entries.
pub open spec fn enc_entry_names(es: Seq<EncEntryV>) -> Seq<(FileType, Seq<char>)> {
    Seq::new(es.len(), |i: int| (es[i].t, es[i].path))
}

} // verus!
