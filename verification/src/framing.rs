//! Framing primitives: the magic, the version, length-prefixed
//! chunks, and the encryption header.
use vstd::prelude::*;

use vstd::utf8::{decode_utf8, valid_utf8};

use crate::model::{
    be32_at, enc_header_bytes, frame, head_bytes, spec_chunk_at, spec_enc_header_at, spec_take,
    version_byte,
};
use crate::params::{ScryptParams, ScryptParamsV};
use crate::source::Source;
use crate::Error;

verus! {

/// The encryption header that an optional set of scrypt parameters
/// stands for.
pub open spec fn opt_params_view(params: Option<&ScryptParams>) -> Option<ScryptParamsV> {
    match params {
        Option::None => None,
        Option::Some(p) => Some(p@),
    }
}

/// Append a slice to the sink.
pub(crate) fn push_bytes(w: &mut Vec<u8>, data: &[u8])
    ensures
        final(w)@ == old(w)@ + data@,
{
    let mut i: usize = 0;
    while i < data.len()
        invariant
            i <= data@.len(),
            w@ == old(w)@ + data@.subrange(0, i as int),
        decreases data@.len() - i,
    {
        w.push(data[i]);
        proof {
            assert(w@ == old(w)@ + data@.subrange(0, i + 1));
        }
        i = i + 1;
    }
    proof {
        assert(data@.subrange(0, data@.len() as int) == data@);
    }
}

/// Append a length as two big-endian bytes.
fn push_be16(w: &mut Vec<u8>, n: usize)
    requires
        n <= 65535,
    ensures
        final(w)@ == old(w)@ + crate::model::be16(n as int),
{
    w.push((n / 256) as u8);
    w.push((n % 256) as u8);
    proof {
        assert(w@ == old(w)@ + crate::model::be16(n as int));
    }
}

/// Append a number as four big-endian bytes.
fn push_be32(w: &mut Vec<u8>, n: u32)
    ensures
        final(w)@ == old(w)@ + crate::model::be32(n as int),
{
    w.push((n / 0x1000000) as u8);
    w.push(((n / 0x10000) % 256) as u8);
    w.push(((n / 256) % 256) as u8);
    w.push((n % 256) as u8);
    proof {
        assert(w@ == old(w)@ + crate::model::be32(n as int));
    }
}

/// Emit the 3-byte magic.
pub fn write_head(w: &mut Vec<u8>)
    ensures
        final(w)@ == old(w)@ + head_bytes(),
{
    w.push(109u8);
    w.push(101u8);
    w.push(105u8);
    proof {
        assert(w@ == old(w)@ + head_bytes());
    }
}

/// Check the 3-byte magic at the cursor.
pub fn read_head(r: &mut Source) -> (res: Result<(), Error>)
    ensures
        final(r).bytes() == old(r).bytes(),
        old(r).pos() + 3 > old(r).bytes().len() ==> res == Err::<(), Error>(Error::IO) && final(r).pos() == old(r).pos(),
        old(r).pos() + 3 <= old(r).bytes().len() ==> {
            let magic = old(r).bytes().subrange(old(r).pos(), old(r).pos() + 3);
            &&& final(r).pos() == old(r).pos() + 3
            &&& magic == head_bytes() ==> res is Ok
            &&& magic != head_bytes() ==> res == Err::<(), Error>(Error::InvalidHead)
        },
{
    let buf = r.read_exact(3)?;
    if buf[0] == 109u8 && buf[1] == 101u8 && buf[2] == 105u8 {
        proof {
            assert(buf@ =~= head_bytes());
        }
        Ok(())
    } else {
        proof {
            assert(buf@ != head_bytes());
        }
        Err(Error::InvalidHead)
    }
}

/// Emit the 1-byte version.
pub fn write_version(w: &mut Vec<u8>)
    ensures
        final(w)@ == old(w)@.push(version_byte()),
{
    w.push(1u8);
}

/// Check the 1-byte version at the cursor.
pub fn read_version(r: &mut Source) -> (res: Result<(), Error>)
    ensures
        final(r).bytes() == old(r).bytes(),
        old(r).pos() >= old(r).bytes().len() ==> res == Err::<(), Error>(Error::IO) && final(r).pos() == old(r).pos(),
        old(r).pos() < old(r).bytes().len() ==> {
            let b = old(r).bytes()[old(r).pos()];
            &&& final(r).pos() == old(r).pos() + 1
            &&& b == version_byte() ==> res is Ok
            &&& b != version_byte() ==> res == Err::<(), Error>(Error::InvalidVersion)
        },
{
    let b = r.read_byte()?;
    if b == 1u8 {
        Ok(())
    } else {
        Err(Error::InvalidVersion)
    }
}

/// Emit a length-prefixed chunk, refusing data longer than a 16-bit
/// length can frame.
pub fn write_chunk(w: &mut Vec<u8>, buf: &[u8]) -> (res: Result<(), Error>)
    ensures
        buf@.len() > 65535 ==> res == Err::<(), Error>(Error::ChunkTooLong) && final(w)@ == old(w)@,
        buf@.len() <= 65535 ==> res is Ok && final(w)@ == old(w)@ + frame(buf@),
{
    if buf.len() > 65535 {
        return Err(Error::ChunkTooLong);
    }
    push_be16(w, buf.len());
    push_bytes(w, buf);
    Ok(())
}

/// Read a length-prefixed chunk at the cursor; a buffer that ends
/// inside the frame fails without moving the cursor.
pub fn read_chunk(r: &mut Source) -> (res: Result<Vec<u8>, Error>)
    ensures
        final(r).bytes() == old(r).bytes(),
        match spec_chunk_at(old(r).bytes(), old(r).pos()) {
            Option::Some((data, end)) => res matches Ok(v) && v@ == data && final(r).pos() == end,
            Option::None => res == Err::<Vec<u8>, Error>(Error::IO) && final(r).pos() == old(r).pos(),
        },
{
    let lenb = r.read_exact(2)?;
    let n: usize = (lenb[0] as usize) * 256 + (lenb[1] as usize);
    match r.read_exact(n) {
        Ok(v) => Ok(v),
        Err(e) => {
            r.rewind(2);
            Err(e)
        },
    }
}

/// Relies on `String::from_utf8`: it succeeds exactly on valid UTF-8
/// and decodes the bytes.
#[verifier::external_body]
pub(crate) fn string_from_utf8(bytes: Vec<u8>) -> (res: Result<String, Error>)
    ensures
        res is Ok <==> valid_utf8(bytes@),
        res matches Ok(s) ==> s@ == decode_utf8(bytes@),
        res matches Err(e) ==> e == Error::Utf8,
{
    match String::from_utf8(bytes) {
        Ok(s) => Ok(s),
        Err(_) => Err(Error::Utf8),
    }
}

/// Read a chunk and decode it as UTF-8.
pub fn read_chunk_to_string(r: &mut Source) -> (res: Result<String, Error>)
    ensures
        final(r).bytes() == old(r).bytes(),
        match spec_chunk_at(old(r).bytes(), old(r).pos()) {
            Option::Some((data, end)) => {
                &&& final(r).pos() == end
                &&& valid_utf8(data) ==> (res matches Ok(s) && s@ == decode_utf8(data))
                &&& !valid_utf8(data) ==> res == Err::<String, Error>(Error::Utf8)
            },
            Option::None => res == Err::<String, Error>(Error::IO) && final(r).pos() == old(r).pos(),
        },
{
    let buf = read_chunk(r)?;
    string_from_utf8(buf)
}

/// Read the 12-byte nonce that follows an encrypted chunk.
pub fn read_nonce(r: &mut Source) -> (res: Result<[u8; 12], Error>)
    ensures
        final(r).bytes() == old(r).bytes(),
        match spec_take(old(r).bytes(), old(r).pos(), 12) {
            Option::Some(nn) => res matches Ok(a) && a@ == nn && final(r).pos() == old(r).pos()
                + 12,
            Option::None => res == Err::<[u8; 12], Error>(Error::IO) && final(r).pos() == old(r).pos(),
        },
{
    let v = r.read_exact(12)?;
    let mut a = [0u8; 12];
    let mut i: usize = 0;
    while i < 12
        invariant
            i <= 12,
            v@.len() == 12,
            a@.len() == 12,
            forall|j: int| 0 <= j < i ==> a@[j] == v@[j],
        decreases 12 - i,
    {
        a[i] = v[i];
        i = i + 1;
    }
    proof {
        assert(a@ =~= v@);
    }
    Ok(a)
}

/// Emit the encryption header: the tag alone for a plain archive, or
/// the tag, salt and cost parameters for an encrypted one.
pub fn write_scrypt_params(w: &mut Vec<u8>, params: Option<&ScryptParams>)
    ensures
        final(w)@ == old(w)@ + enc_header_bytes(opt_params_view(params)),
{
    match params {
        Some(p) => {
            w.push(1u8);
            push_bytes(w, p.salt.as_slice());
            w.push(p.n);
            push_be32(w, p.r);
            push_be32(w, p.p);
            proof {
                assert(w@ =~= old(w)@ + enc_header_bytes(opt_params_view(params)));
            }
        },
        None => {
            w.push(0u8);
            proof {
                assert(w@ =~= old(w)@ + enc_header_bytes(opt_params_view(params)));
            }
        },
    }
}

/// Read the encryption header at the cursor.
pub fn read_scrypt_option(r: &mut Source) -> (res: Result<Option<ScryptParams>, Error>)
    ensures
        final(r).bytes() == old(r).bytes(),
        match spec_enc_header_at(old(r).bytes(), old(r).pos()) {
            Ok((op, end)) => res matches Ok(rp) && opt_params_view_owned(rp) == op && final(r).pos() == end,
            Err(e) => res == Err::<Option<ScryptParams>, Error>(e),
        },
{
    let tag = r.read_byte()?;
    if tag == 0u8 {
        return Ok(None);
    }
    if tag != 1u8 {
        return Err(Error::InvalidEncryptMethod);
    }
    let salt_v = r.read_exact(16)?;
    let mut salt = [0u8; 16];
    let mut i: usize = 0;
    while i < 16
        invariant
            i <= 16,
            salt_v@.len() == 16,
            salt@.len() == 16,
            forall|j: int| 0 <= j < i ==> salt@[j] == salt_v@[j],
        decreases 16 - i,
    {
        salt[i] = salt_v[i];
        i = i + 1;
    }
    proof {
        assert(salt@ =~= salt_v@);
    }
    let n = r.read_byte()?;
    let rv = r.read_exact(4)?;
    let rr: u32 = (rv[0] as u32) * 0x1000000 + (rv[1] as u32) * 0x10000 + (rv[2] as u32) * 256 + (
    rv[3] as u32);
    let pv = r.read_exact(4)?;
    let pp: u32 = (pv[0] as u32) * 0x1000000 + (pv[1] as u32) * 0x10000 + (pv[2] as u32) * 256 + (
    pv[3] as u32);
    let out = ScryptParams { salt, n, r: rr, p: pp };
    proof {
        assert(be32_at(old(r).bytes(), old(r).pos() + 18) == rr);
        assert(be32_at(old(r).bytes(), old(r).pos() + 22) == pp);
        assert(out@.salt =~= old(r).bytes().subrange(old(r).pos() + 1, old(r).pos() + 17));
    }
    Ok(Some(out))
}

/// The scrypt parameters an owned optional stands for.
pub open spec fn opt_params_view_owned(params: Option<ScryptParams>) -> Option<ScryptParamsV> {
    match params {
        Option::None => None,
        Option::Some(p) => Some(p@),
    }
}

} // verus!
