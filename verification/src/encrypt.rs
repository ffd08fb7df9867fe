//! The AEAD chunk layer: one sealed chunk on the wire at a time.
use vstd::prelude::*;

use crate::crypto::{aead_decrypt, aead_encrypt, random_nonce, Cipher};
use crate::framing::{read_chunk, read_nonce, write_chunk};
use crate::model::{chunk_seal_ok, enc_chunk_bytes, spec_enc_chunk_at, EncChunk};
use crate::source::Source;
use crate::Error;

verus! {

/// Seal a chunk under a fresh random nonce and emit it: the framed
/// ciphertext-and-tag, then the 12 raw nonce bytes. Empty plaintext
/// is emitted as a bare terminator frame. The nonce that was used
/// comes back as ghost data.
pub(crate) fn write_encrypt_chunk(w: &mut Vec<u8>, cipher: &Cipher, buf: &[u8]) -> (res: (
    Result<(), Error>,
    Ghost<Seq<u8>>,
))
    ensures
        buf@.len() == 0 ==> res.0 is Ok && final(w)@ == old(w)@ + enc_chunk_bytes(
            cipher.key(),
            res.1@,
            buf@,
        ),
        0 < buf@.len() && buf@.len() + 16 <= 65535 ==> res.0 is Ok && chunk_seal_ok(
            cipher.key(),
            res.1@,
            buf@,
        ) && final(w)@ == old(w)@ + enc_chunk_bytes(cipher.key(), res.1@, buf@),
        buf@.len() + 16 > 65535 ==> res.0 == Err::<(), Error>(Error::ChunkTooLong) && final(w)@
            == old(w)@,
{
    if buf.len() == 0 {
        let r = write_chunk(w, buf);
        proof {
            assert(r is Ok);
        }
        return (r, Ghost(Seq::empty()));
    }
    if buf.len() > 65535 - 16 {
        return (Err(Error::ChunkTooLong), Ghost(Seq::empty()));
    }
    let nonce = random_nonce();
    let ct = match aead_encrypt(cipher, &nonce, buf) {
        Ok(ct) => ct,
        Err(e) => {
            return (Err(e), Ghost(Seq::empty()));
        },
    };
    let r = write_chunk(w, ct.as_slice());
    proof {
        assert(r is Ok);
    }
    match r {
        Ok(()) => (),
        Err(e) => {
            return (Err(e), Ghost(Seq::empty()));
        },
    }
    crate::framing::push_bytes(w, nonce.as_slice());
    proof {
        assert(w@ == old(w)@ + enc_chunk_bytes(cipher.key(), nonce@, buf@));
        assert(chunk_seal_ok(cipher.key(), nonce@, buf@));
    }
    (Ok(()), Ghost(nonce@))
}

/// Read one encrypted chunk at the cursor: `None` for a terminator
/// (an empty frame, or the buffer's end before any chunk byte), the
/// decrypted bytes otherwise. The buffer ending inside the frame is
/// fatal: a mid-chunk truncation must not pass for a clean end.
pub fn read_encrypt_chunk(r: &mut Source, cipher: &Cipher) -> (res: Result<Option<Vec<u8>>, Error>)
    ensures
        final(r).bytes() == old(r).bytes(),
        match spec_enc_chunk_at(old(r).bytes(), old(r).pos(), cipher.key()) {
            EncChunk::Term(end) => res == Ok::<Option<Vec<u8>>, Error>(None) && final(r).pos()
                == end,
            EncChunk::Data(pt, end) => res matches Ok(Some(v)) && v@ == pt && final(r).pos() == end,
            EncChunk::Fail(e) => res == Err::<Option<Vec<u8>>, Error>(e),
        },
{
    if r.remaining() == 0 {
        return Ok(None);
    }
    let ct = match read_chunk(r) {
        Ok(buf) => {
            if buf.len() == 0 {
                return Ok(None);
            }
            buf
        },
        Err(e) => {
            return Err(e);
        },
    };
    let nonce = match read_nonce(r) {
        Ok(n) => n,
        Err(e) => {
            return Err(e);
        },
    };
    match aead_decrypt(cipher, &nonce, ct.as_slice()) {
        Ok(pt) => Ok(Some(pt)),
        Err(e) => Err(e),
    }
}

} // verus!
