//! The archive encoder: it writes the preamble on construction, then
//! one entry per `write_*` call, into an owned byte sink.
//!
//! Alongside the sink the encoder keeps a ghost log of every nonce it
//! has drawn, in wire order, so its contracts can name the exact
//! bytes an encrypted archive carries.
use vstd::prelude::*;

use vstd::slice::slice_subrange;
use vstd::string::StringSliceAdditionalSpecFns;

use crate::compress::{brotli_compress, spec_compressed, spec_decompressed};
use crate::crypto::{derive_cipher, scrypt_key, scrypt_params_valid, Cipher};
use crate::encrypt::write_encrypt_chunk;
use crate::framing::{write_chunk, write_head, write_scrypt_params, write_version};
use crate::model::{
    body_seals_ok, chunk_seal_ok, enc_body_bytes, enc_chunk_bytes, enc_chunks_fit,
    entry_head_enc, entry_head_plain, frame, plain_body_bytes, plain_chunks_fit, preamble_bytes,
};
use crate::params::{CompressParams, Password};
use crate::{Error, FileType};

verus! {

/// A streaming archive encoder over an owned byte sink.
pub struct Encode {
    sink: Vec<u8>,
    cipher: Option<Cipher>,
    params: CompressParams,
    nonce_log: Ghost<Seq<Seq<u8>>>,
}

/// Write the chunks of `c[i..]`, each framed, then the terminator
/// frame. Fails only when a chunk cannot fit a 16-bit length frame,
/// and then before anything of the body is written.
fn write_body_plain(w: &mut Vec<u8>, c: &[u8], i: usize, buf: usize) -> (res: Result<(), Error>)
    requires
        0 < buf,
        i <= c@.len(),
    ensures
        plain_chunks_fit(c@.skip(i as int), buf as int) ==> res is Ok && final(w)@ == old(w)@
            + plain_body_bytes(c@.skip(i as int), buf as int),
        !plain_chunks_fit(c@.skip(i as int), buf as int) ==> res == Err::<(), Error>(
            Error::ChunkTooLong,
        ) && final(w)@ == old(w)@,
    decreases c@.len() - i,
{
    let rem = c.len() - i;
    if rem == 0 {
        let empty: Vec<u8> = Vec::new();
        let r = write_chunk(w, empty.as_slice());
        proof {
            assert(c@.skip(i as int) =~= Seq::<u8>::empty());
            assert(r is Ok);
            assert(final(w)@ == old(w)@ + plain_body_bytes(c@.skip(i as int), buf as int));
        }
        return r;
    }
    let m = if rem < buf {
        rem
    } else {
        buf
    };
    if m > 65535 {
        return Err(Error::ChunkTooLong);
    }
    let chunk = slice_subrange(c, i, i + m);
    let ghost w0 = w@;
    let r = write_chunk(w, chunk);
    proof {
        assert(r is Ok);
    }
    match r {
        Ok(()) => (),
        Err(e) => {
            return Err(e);
        },
    }
    let ghost s = c@.skip(i as int);
    proof {
        if rem <= buf {
            assert(chunk@ =~= s);
        } else {
            assert(chunk@ =~= s.take(buf as int));
            assert(c@.skip(i + m) =~= s.skip(buf as int));
        }
        assert(plain_chunks_fit(c@.skip(i + m), buf as int));
    }
    let r2 = write_body_plain(w, c, i + m, buf);
    proof {
        assert(r2 is Ok);
        if rem <= buf {
            assert(c@.skip(i + m) =~= Seq::<u8>::empty());
            assert(plain_body_bytes(c@.skip(i + m), buf as int) == frame(Seq::<u8>::empty()));
            assert(plain_body_bytes(s, buf as int) == frame(s) + frame(Seq::<u8>::empty()));
        }
        assert(w@ =~= w0 + plain_body_bytes(s, buf as int));
    }
    r2
}

/// Write the chunks of `c[i..]`, each sealed under a fresh nonce,
/// then the terminator frame; the nonces drawn come back as ghost
/// data. Fails only when a sealed chunk cannot fit a 16-bit length
/// frame, and then before anything of the body is written.
fn write_body_enc(w: &mut Vec<u8>, cipher: &Cipher, c: &[u8], i: usize, buf: usize) -> (res: (
    Result<(), Error>,
    Ghost<Seq<Seq<u8>>>,
))
    requires
        0 < buf,
        i <= c@.len(),
    ensures
        enc_chunks_fit(c@.skip(i as int), buf as int) ==> res.0 is Ok && body_seals_ok(
            cipher.key(),
            res.1@,
            c@.skip(i as int),
            buf as int,
        ) && final(w)@ == old(w)@ + enc_body_bytes(
            cipher.key(),
            res.1@,
            c@.skip(i as int),
            buf as int,
        ),
        !enc_chunks_fit(c@.skip(i as int), buf as int) ==> res.0 == Err::<(), Error>(
            Error::ChunkTooLong,
        ) && final(w)@ == old(w)@,
    decreases c@.len() - i,
{
    let ghost k = cipher.key();
    let rem = c.len() - i;
    if rem == 0 {
        let empty: Vec<u8> = Vec::new();
        let r = write_chunk(w, empty.as_slice());
        proof {
            assert(c@.skip(i as int) =~= Seq::<u8>::empty());
            assert(r is Ok);
        }
        return (r, Ghost(Seq::empty()));
    }
    let m = if rem < buf {
        rem
    } else {
        buf
    };
    if m > 65535 - 16 {
        return (Err(Error::ChunkTooLong), Ghost(Seq::empty()));
    }
    let chunk = slice_subrange(c, i, i + m);
    let ghost w0 = w@;
    let (r, nn) = write_encrypt_chunk(w, cipher, chunk);
    proof {
        assert(r is Ok);
    }
    match r {
        Ok(()) => (),
        Err(e) => {
            return (Err(e), Ghost(Seq::empty()));
        },
    }
    let ghost s = c@.skip(i as int);
    proof {
        assert(chunk_seal_ok(k, nn@, chunk@) && w@ == w0 + enc_chunk_bytes(k, nn@, chunk@));
        if rem <= buf {
            assert(chunk@ =~= s);
        } else {
            assert(chunk@ =~= s.take(buf as int));
            assert(c@.skip(i + m) =~= s.skip(buf as int));
        }
        assert(enc_chunks_fit(c@.skip(i + m), buf as int));
    }
    let (r2, tail) = write_body_enc(w, cipher, c, i + m, buf);
    let ghost ns = seq![nn@] + tail@;
    proof {
        assert(r2 is Ok);
        assert(ns[0] == nn@);
        assert(ns.skip(1) =~= tail@);
        if rem <= buf {
            assert(c@.skip(i + m) =~= Seq::<u8>::empty());
            assert(enc_body_bytes(k, tail@, c@.skip(i + m), buf as int) == frame(
                Seq::<u8>::empty(),
            ));
            assert(enc_body_bytes(k, ns, s, buf as int) == enc_chunk_bytes(k, nn@, s) + frame(
                Seq::<u8>::empty(),
            ));
        }
        assert(body_seals_ok(k, ns, s, buf as int));
        assert(w@ =~= w0 + enc_body_bytes(k, ns, s, buf as int));
    }
    (r2, Ghost(ns))
}

/// What `Encode::write_directory` guarantees, over the old and new
/// sink contents, the archive key, the path bytes, and the nonces the
/// call drew.
pub open spec fn write_directory_post(
    key: Option<Seq<u8>>,
    out0: Seq<u8>,
    out1: Seq<u8>,
    pb: Seq<u8>,
    ns_new: Seq<Seq<u8>>,
    res: Result<(), Error>,
) -> bool {
    match key {
        Option::None => {
            &&& (pb.len() <= 65535 ==> res is Ok && out1 == out0 + entry_head_plain(
                FileType::Directory,
                pb,
            ))
            &&& (pb.len() > 65535 ==> res == Err::<(), Error>(Error::ChunkTooLong) && out1
                == out0.push(0u8))
        },
        Option::Some(k) => {
            &&& (pb.len() == 0 ==> res is Ok && out1 == out0.push(0u8) + frame(Seq::<u8>::empty()))
            &&& (0 < pb.len() && pb.len() + 16 <= 65535 ==> res is Ok && ns_new.len() == 1
                && chunk_seal_ok(k, ns_new[0], pb) && out1 == out0 + entry_head_enc(
                FileType::Directory,
                k,
                ns_new[0],
                pb,
            ))
            &&& (pb.len() + 16 > 65535 ==> res == Err::<(), Error>(Error::ChunkTooLong) && out1
                == out0.push(0u8))
        },
    }
}

/// What `Encode::write_file` guarantees: `c` is the compressed body,
/// `buf` the chunk size, `ns_new` the nonces the call drew (the
/// path's first, then one per body chunk); content is consumed
/// entirely, or not at all with a chunk size of zero.
pub open spec fn write_file_post(
    key: Option<Seq<u8>>,
    out0: Seq<u8>,
    out1: Seq<u8>,
    pb: Seq<u8>,
    buf: int,
    c: Seq<u8>,
    content: Seq<u8>,
    ns_new: Seq<Seq<u8>>,
    res: Result<usize, Error>,
) -> bool {
    match key {
        Option::None => {
            &&& (pb.len() > 65535 ==> res == Err::<usize, Error>(Error::ChunkTooLong) && out1
                == out0.push(1u8))
            &&& (pb.len() <= 65535 && buf == 0 ==> res == Ok::<usize, Error>(0) && out1 == out0
                + entry_head_plain(FileType::File, pb) + frame(Seq::<u8>::empty()))
            &&& (pb.len() <= 65535 && buf > 0 && !plain_chunks_fit(c, buf) ==> res == Err::<
                usize,
                Error,
            >(Error::ChunkTooLong) && out1 == out0 + entry_head_plain(FileType::File, pb))
            &&& (pb.len() <= 65535 && buf > 0 && plain_chunks_fit(c, buf) ==> res == Ok::<
                usize,
                Error,
            >(content.len() as usize) && out1 == out0 + entry_head_plain(FileType::File, pb)
                + plain_body_bytes(c, buf) && spec_decompressed(c) == Some(content))
        },
        Option::Some(k) => {
            &&& (pb.len() + 16 > 65535 ==> res == Err::<usize, Error>(Error::ChunkTooLong) && out1
                == out0.push(1u8))
            &&& (pb.len() + 16 <= 65535 && buf == 0 ==> res == Ok::<usize, Error>(0) && ns_new.len()
                == 1 && (pb.len() > 0 ==> chunk_seal_ok(k, ns_new[0], pb)) && out1 == out0.push(
                1u8,
            ) + enc_chunk_bytes(k, ns_new[0], pb) + frame(Seq::<u8>::empty()))
            &&& (pb.len() + 16 <= 65535 && buf > 0 && !enc_chunks_fit(c, buf) ==> res == Err::<
                usize,
                Error,
            >(Error::ChunkTooLong) && ns_new.len() == 1 && (pb.len() > 0 ==> chunk_seal_ok(
                k,
                ns_new[0],
                pb,
            )) && out1 == out0.push(1u8) + enc_chunk_bytes(k, ns_new[0], pb))
            &&& (0 < pb.len() && pb.len() + 16 <= 65535 && buf > 0 && enc_chunks_fit(c, buf)
                ==> res == Ok::<usize, Error>(content.len() as usize) && ns_new.len() >= 1
                && chunk_seal_ok(k, ns_new[0], pb) && body_seals_ok(k, ns_new.skip(1), c, buf)
                && out1 == out0 + entry_head_enc(FileType::File, k, ns_new[0], pb)
                + enc_body_bytes(k, ns_new.skip(1), c, buf) && spec_decompressed(c) == Some(
                content,
            ))
        },
    }
}

impl Encode {
    /// Everything written to the sink so far, what came before the
    /// encoder included.
    pub closed spec fn out(&self) -> Seq<u8> {
        self.sink@
    }

    /// The derived AEAD key, when the archive is encrypted.
    pub closed spec fn key(&self) -> Option<Seq<u8>> {
        match self.cipher {
            Option::None => None,
            Option::Some(c) => Some(c.key()),
        }
    }

    /// The compression parameters the encoder was built with.
    pub closed spec fn spec_params(&self) -> CompressParams {
        self.params
    }

    /// Every nonce drawn so far, in wire order.
    pub closed spec fn nonces(&self) -> Seq<Seq<u8>> {
        self.nonce_log@
    }

    /// Write the preamble into the sink and, with a password, derive
    /// the archive's cipher.
    pub fn new(sink: Vec<u8>, info: &str, password: Option<Password<'_>>, params: CompressParams)
        -> (res: Result<Encode, Error>)
        ensures
            info.spec_bytes().len() > 65535 ==> res == Err::<Encode, Error>(Error::ChunkTooLong),
            info.spec_bytes().len() <= 65535 ==> match password {
                Option::None => res matches Ok(e) && e.out() == sink@ + preamble_bytes(
                    info.spec_bytes(),
                    None,
                ) && e.key() is None && e.spec_params() == params && e.nonces() == Seq::<
                    Seq<u8>,
                >::empty(),
                Option::Some(pw) => {
                    if scrypt_params_valid(pw.params.n, pw.params.r, pw.params.p) {
                        res matches Ok(e) && e.out() == sink@ + preamble_bytes(
                            info.spec_bytes(),
                            Some(pw.params@),
                        ) && e.key() == Some(
                            scrypt_key(
                                pw.key.spec_bytes(),
                                pw.params.salt@,
                                pw.params.n,
                                pw.params.r,
                                pw.params.p,
                            ),
                        ) && e.spec_params() == params && e.nonces() == Seq::<Seq<u8>>::empty()
                    } else {
                        res == Err::<Encode, Error>(Error::InvalidScryptParams)
                    }
                },
            },
    {
        let mut w = sink;
        let ghost base = w@;
        write_head(&mut w);
        write_version(&mut w);
        let r = write_chunk(&mut w, info.as_bytes());
        match r {
            Ok(()) => (),
            Err(e) => {
                return Err(e);
            },
        }
        let cipher: Option<Cipher> = match &password {
            Some(pw) => {
                write_scrypt_params(&mut w, Some(&pw.params));
                match derive_cipher(pw) {
                    Ok(c) => Some(c),
                    Err(e) => {
                        return Err(e);
                    },
                }
            },
            None => {
                write_scrypt_params(&mut w, None);
                None
            },
        };
        proof {
            match password {
                Option::None => {
                    assert(w@ =~= base + preamble_bytes(info.spec_bytes(), None));
                },
                Option::Some(pw) => {
                    assert(w@ =~= base + preamble_bytes(info.spec_bytes(), Some(pw.params@)));
                },
            }
        }
        Ok(Encode { sink: w, cipher, params, nonce_log: Ghost(Seq::empty()) })
    }

    /// Take the encoded archive out of the encoder.
    pub fn into_inner(self) -> (res: Vec<u8>)
        ensures
            res@ == self.out(),
    {
        self.sink
    }

    /// Add a directory entry: the type tag, then the path chunk.
    pub fn write_directory(&mut self, p: &str) -> (res: Result<(), Error>)
        ensures
            final(self).key() == old(self).key(),
            final(self).spec_params() == old(self).spec_params(),
            old(self).nonces().is_prefix_of(final(self).nonces()),
            write_directory_post(
                old(self).key(),
                old(self).out(),
                final(self).out(),
                p.spec_bytes(),
                final(self).nonces().skip(old(self).nonces().len() as int),
                res,
            ),
    {
        let ghost base = self.sink@;
        let ghost ns0 = self.nonce_log@;
        FileType::Directory.write(&mut self.sink);
        match &self.cipher {
            Some(c) => {
                let ghost w0 = self.sink@;
                let (r, nn) = write_encrypt_chunk(&mut self.sink, c, p.as_bytes());
                match r {
                    Ok(()) => (),
                    Err(e) => {
                        proof {
                            assert(ns0.skip(ns0.len() as int) =~= Seq::<Seq<u8>>::empty());
                        }
                        return Err(e);
                    },
                }
                let ghost pb = p.spec_bytes();
                if p.as_bytes().len() > 0 {
                    self.nonce_log = Ghost(ns0.push(nn@));
                    proof {
                        assert(ns0.is_prefix_of(self.nonce_log@));
                        assert(self.nonce_log@.skip(ns0.len() as int) =~= seq![nn@]);
                        assert(self.sink@ =~= base + entry_head_enc(
                            FileType::Directory,
                            c.key(),
                            nn@,
                            pb,
                        ));
                    }
                } else {
                    proof {
                        assert(ns0.skip(ns0.len() as int) =~= Seq::<Seq<u8>>::empty());
                        assert(self.sink@ =~= base.push(0u8) + frame(Seq::<u8>::empty()));
                    }
                }
                Ok(())
            },
            None => {
                let r = write_chunk(&mut self.sink, p.as_bytes());
                proof {
                    assert(ns0.skip(ns0.len() as int) =~= Seq::<Seq<u8>>::empty());
                }
                match r {
                    Ok(()) => (),
                    Err(e) => {
                        return Err(e);
                    },
                }
                proof {
                    assert(self.sink@ =~= base + entry_head_plain(
                        FileType::Directory,
                        p.spec_bytes(),
                    ));
                }
                Ok(())
            },
        }
    }

    /// Add a file entry: the type tag, the path chunk, the compressed
    /// body in chunks, and the terminator. Returns how many bytes of
    /// the file were consumed: all of them, or none with a chunk size
    /// of zero.
    #[verifier::rlimit(60)]
    pub fn write_file(&mut self, p: &str, content: &[u8]) -> (res: Result<usize, Error>)
        ensures
            final(self).key() == old(self).key(),
            final(self).spec_params() == old(self).spec_params(),
            old(self).nonces().is_prefix_of(final(self).nonces()),
            write_file_post(
                old(self).key(),
                old(self).out(),
                final(self).out(),
                p.spec_bytes(),
                old(self).spec_params().spec_buf_size() as int,
                spec_compressed(
                    content@,
                    old(self).spec_params().spec_quality(),
                    old(self).spec_params().spec_window_size(),
                ),
                content@,
                final(self).nonces().skip(old(self).nonces().len() as int),
                res,
            ),
    {
        proof {
            use_type_invariant(&self.params);
        }
        let quality = self.params.exec_quality();
        let window = self.params.exec_window_size();
        let buf = self.params.exec_buf_size();
        let ghost c_spec = spec_compressed(content@, quality, window);
        let ghost base = self.sink@;
        let ghost ns0 = self.nonce_log@;
        let ghost pb = p.spec_bytes();
        proof {
            assert(ns0.skip(ns0.len() as int) =~= Seq::<Seq<u8>>::empty());
        }
        FileType::File.write(&mut self.sink);
        let pbytes = p.as_bytes();
        match &self.cipher {
            Some(cipher) => {
                let ghost k = cipher.key();
                if pbytes.len() > 65535 - 16 {
                    return Err(Error::ChunkTooLong);
                }
                let ghost w0 = self.sink@;
                let (r, pn) = write_encrypt_chunk(&mut self.sink, cipher, pbytes);
                proof {
                    assert(r is Ok);
                }
                match r {
                    Ok(()) => (),
                    Err(e) => {
                        return Err(e);
                    },
                }
                if buf == 0 {
                    let empty: Vec<u8> = Vec::new();
                    let rt = write_chunk(&mut self.sink, empty.as_slice());
                    self.nonce_log = Ghost(ns0.push(pn@));
                    proof {
                        assert(rt is Ok);
                        assert(ns0.is_prefix_of(self.nonce_log@));
                        assert(self.nonce_log@.skip(ns0.len() as int) =~= seq![pn@]);
                        assert(self.sink@ =~= base.push(1u8) + enc_chunk_bytes(k, pn@, pb) + frame(
                            Seq::<u8>::empty(),
                        ));
                    }
                    return Ok(0);
                }
                let c: Vec<u8> = if content.len() == 0 {
                    Vec::new()
                } else {
                    brotli_compress(content, quality, window)
                };
                proof {
                    assert(c@ == c_spec);
                    assert(spec_decompressed(c_spec) == Some(content@));
                    assert(c@.skip(0) =~= c@);
                }
                let (r2, ns) = write_body_enc(&mut self.sink, cipher, c.as_slice(), 0, buf);
                match r2 {
                    Ok(()) => (),
                    Err(e) => {
                        self.nonce_log = Ghost(ns0.push(pn@));
                        proof {
                            assert(ns0.is_prefix_of(self.nonce_log@));
                            assert(self.nonce_log@.skip(ns0.len() as int) =~= seq![pn@]);
                            assert(self.sink@ =~= base.push(1u8) + enc_chunk_bytes(k, pn@, pb));
                        }
                        return Err(e);
                    },
                }
                self.nonce_log = Ghost(ns0 + seq![pn@] + ns@);
                proof {
                    let ns_new = self.nonce_log@.skip(ns0.len() as int);
                    assert(ns_new =~= seq![pn@] + ns@);
                    assert(ns0.is_prefix_of(self.nonce_log@));
                    assert(ns_new[0] == pn@);
                    assert(ns_new.skip(1) =~= ns@);
                    assert(self.sink@ =~= base + entry_head_enc(FileType::File, k, pn@, pb)
                        + enc_body_bytes(k, ns@, c_spec, buf as int));
                }
                Ok(content.len())
            },
            None => {
                let r = write_chunk(&mut self.sink, pbytes);
                match r {
                    Ok(()) => (),
                    Err(e) => {
                        return Err(e);
                    },
                }
                if buf == 0 {
                    let empty: Vec<u8> = Vec::new();
                    let rt = write_chunk(&mut self.sink, empty.as_slice());
                    proof {
                        assert(rt is Ok);
                        assert(self.sink@ =~= base + entry_head_plain(FileType::File, pb) + frame(
                            Seq::<u8>::empty(),
                        ));
                    }
                    return Ok(0);
                }
                let c: Vec<u8> = if content.len() == 0 {
                    Vec::new()
                } else {
                    brotli_compress(content, quality, window)
                };
                proof {
                    assert(c@ == c_spec);
                    assert(spec_decompressed(c_spec) == Some(content@));
                    assert(c@.skip(0) =~= c@);
                }
                let r2 = write_body_plain(&mut self.sink, c.as_slice(), 0, buf);
                match r2 {
                    Ok(()) => (),
                    Err(e) => {
                        proof {
                            assert(self.sink@ =~= base + entry_head_plain(FileType::File, pb));
                        }
                        return Err(e);
                    },
                }
                proof {
                    assert(self.sink@ =~= base + entry_head_plain(FileType::File, pb)
                        + plain_body_bytes(c_spec, buf as int));
                }
                Ok(content.len())
            },
        }
    }
}

} // verus!
