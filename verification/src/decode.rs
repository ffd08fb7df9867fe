//! The archive decoder: it parses the preamble on construction and
//! then hands out entries one at a time, in stream order.
use vstd::prelude::*;

use vstd::string::StringSliceAdditionalSpecFns;

use crate::compress::{brotli_decompress, spec_decompressed};
use crate::crypto::{derive_cipher, scrypt_key, scrypt_params_valid, Cipher};
use crate::encrypt::read_encrypt_chunk;
use crate::framing::{
    read_chunk, read_chunk_to_string, read_head, read_scrypt_option, read_version,
    string_from_utf8,
};
use crate::model::{
    spec_parse_preamble, spec_read_body, spec_read_body_enc, spec_read_body_plain, spec_read_entry,
};
use crate::params::Password;
use crate::source::Source;
use crate::{Error, FileType};

verus! {

/// A streaming archive decoder over an owned byte source.
pub struct Decode {
    src: Source,
    cipher: Option<Cipher>,
    info: String,
    buf_size: usize,
}

impl Decode {
    /// The whole underlying buffer.
    pub closed spec fn bytes(&self) -> Seq<u8> {
        self.src.bytes()
    }

    /// The cursor: how many bytes have been consumed.
    pub closed spec fn pos(&self) -> int {
        self.src.pos()
    }

    /// The derived AEAD key, when the archive is encrypted.
    pub closed spec fn key(&self) -> Option<Seq<u8>> {
        match self.cipher {
            Option::None => None,
            Option::Some(c) => Some(c.key()),
        }
    }

    /// The info string read from the preamble.
    pub closed spec fn spec_info(&self) -> Seq<char> {
        self.info@
    }

    /// The decompression buffer size the decoder was built with.
    pub closed spec fn spec_buf_size(&self) -> usize {
        self.buf_size
    }

    /// Parse the preamble and check the password against the
    /// encryption header, per the validation matrix: a password is
    /// required exactly when the archive is encrypted.
    pub fn new(source: Vec<u8>, password: Option<&str>, buf_size: usize) -> (res: Result<
        Decode,
        Error,
    >)
        ensures
            match spec_parse_preamble(source@) {
                Err(e) => res == Err::<Decode, Error>(e),
                Ok((info, op, end)) => match (op, password) {
                    (Option::Some(_), Option::None) => res == Err::<Decode, Error>(
                        Error::PasswordRequired,
                    ),
                    (Option::None, Option::Some(_)) => res == Err::<Decode, Error>(
                        Error::NoPasswordRequired,
                    ),
                    (Option::None, Option::None) => res matches Ok(d) && d.bytes() == source@
                        && d.pos() == end && d.spec_info() == info && d.key() is None
                        && d.spec_buf_size() == buf_size,
                    (Option::Some(sp), Option::Some(pw)) => {
                        if scrypt_params_valid(sp.n, sp.r, sp.p) {
                            res matches Ok(d) && d.bytes() == source@ && d.pos() == end
                                && d.spec_info() == info && d.key() == Some(
                                scrypt_key(pw.spec_bytes(), sp.salt, sp.n, sp.r, sp.p),
                            ) && d.spec_buf_size() == buf_size
                        } else {
                            res == Err::<Decode, Error>(Error::InvalidScryptParams)
                        }
                    },
                },
            },
    {
        let mut src = Source::new(source);
        match read_head(&mut src) {
            Ok(()) => (),
            Err(e) => {
                return Err(e);
            },
        }
        match read_version(&mut src) {
            Ok(()) => (),
            Err(e) => {
                return Err(e);
            },
        }
        let info = match read_chunk_to_string(&mut src) {
            Ok(s) => s,
            Err(e) => {
                return Err(e);
            },
        };
        let params = match read_scrypt_option(&mut src) {
            Ok(p) => p,
            Err(e) => {
                return Err(e);
            },
        };
        let cipher: Option<Cipher> = match (params, password) {
            (Some(_), None) => {
                return Err(Error::PasswordRequired);
            },
            (None, Some(_)) => {
                return Err(Error::NoPasswordRequired);
            },
            (Some(sp), Some(key)) => {
                let pw = Password::new(key, sp);
                match derive_cipher(&pw) {
                    Ok(c) => Some(c),
                    Err(e) => {
                        return Err(e);
                    },
                }
            },
            (None, None) => None,
        };
        Ok(Decode { src, cipher, info, buf_size })
    }

    /// The archive's info string.
    pub fn info(&self) -> (res: &str)
        ensures
            res@ == self.spec_info(),
    {
        self.info.as_str()
    }

    /// Read the next entry's head: its type and path, or `None` at
    /// the archive's end.
    pub fn read_path(&mut self) -> (res: Result<Option<(FileType, String)>, Error>)
        ensures
            final(self).bytes() == old(self).bytes(),
            final(self).key() == old(self).key(),
            final(self).spec_info() == old(self).spec_info(),
            final(self).spec_buf_size() == old(self).spec_buf_size(),
            match spec_read_entry(old(self).bytes(), old(self).pos(), old(self).key()) {
                Ok(Option::None) => res == Ok::<Option<(FileType, String)>, Error>(None) && final(self).pos() == old(self).pos(),
                Ok(Option::Some((t, path, end))) => res matches Ok(Some(pr)) && pr.0 == t && pr.1@
                    == path && final(self).pos() == end,
                Err(e) => res == Err::<Option<(FileType, String)>, Error>(e),
            },
    {
        let b = match self.src.read_byte() {
            Ok(b) => b,
            Err(_) => {
                return Ok(None);
            },
        };
        let ft = match FileType::parse(b) {
            Ok(t) => t,
            Err(e) => {
                return Err(e);
            },
        };
        let path = match &self.cipher {
            Some(c) => {
                match read_encrypt_chunk(&mut self.src, c) {
                    Ok(Some(buf)) => {
                        match string_from_utf8(buf) {
                            Ok(s) => s,
                            Err(e) => {
                                return Err(e);
                            },
                        }
                    },
                    Ok(None) => {
                        return Err(Error::FilePath);
                    },
                    Err(e) => {
                        return Err(e);
                    },
                }
            },
            None => {
                match read_chunk_to_string(&mut self.src) {
                    Ok(s) => s,
                    Err(e) => {
                        return Err(e);
                    },
                }
            },
        };
        Ok(Some((ft, path)))
    }

    /// Read one file body: data chunks up to the terminator,
    /// decompressed into the sink. Must follow a `read_path` that
    /// returned a file entry.
    pub fn read_file(&mut self, sink: &mut Vec<u8>) -> (res: Result<(), Error>)
        ensures
            final(self).bytes() == old(self).bytes(),
            final(self).key() == old(self).key(),
            final(self).spec_info() == old(self).spec_info(),
            final(self).spec_buf_size() == old(self).spec_buf_size(),
            match spec_read_body(old(self).bytes(), old(self).pos(), old(self).key()) {
                Err(e) => res == Err::<(), Error>(e) && final(sink)@ == old(sink)@,
                Ok((c, end)) => match spec_decompressed(c) {
                    Option::Some(pt) => res is Ok && final(sink)@ == old(sink)@ + pt
                        && final(self).pos() == end,
                    Option::None => res == Err::<(), Error>(Error::IO) && final(sink)@
                        == old(sink)@,
                },
            },
    {
        let mut data: Vec<u8> = Vec::new();
        let r = match &self.cipher {
            Some(c) => read_body_enc(&mut self.src, c, &mut data),
            None => read_body_plain(&mut self.src, &mut data),
        };
        match r {
            Ok(()) => (),
            Err(e) => {
                return Err(e);
            },
        }
        if data.len() == 0 {
            proof {
                assert(old(sink)@ + Seq::<u8>::empty() =~= old(sink)@);
            }
            return Ok(());
        }
        let mut out = match brotli_decompress(data.as_slice()) {
            Ok(out) => out,
            Err(e) => {
                return Err(e);
            },
        };
        sink.append(&mut out);
        Ok(())
    }
}

/// Read plain chunks up to the terminator, appending their data.
fn read_body_plain(r: &mut Source, data: &mut Vec<u8>) -> (res: Result<(), Error>)
    ensures
        final(r).bytes() == old(r).bytes(),
        match spec_read_body_plain(old(r).bytes(), old(r).pos()) {
            Ok((c, end)) => res is Ok && final(data)@ == old(data)@ + c && final(r).pos() == end,
            Err(e) => res == Err::<(), Error>(e),
        },
    decreases old(r).bytes().len() - old(r).pos(),
{
    let d = match read_chunk(r) {
        Ok(d) => d,
        Err(e) => {
            return Err(e);
        },
    };
    if d.len() == 0 {
        proof {
            assert(old(data)@ + Seq::<u8>::empty() =~= old(data)@);
        }
        return Ok(());
    }
    let mut dd = d;
    data.append(&mut dd);
    let r2 = read_body_plain(r, data);
    proof {
        match spec_read_body_plain(old(r).bytes(), old(r).pos()) {
            Ok((c, end)) => {
                assert(data@ =~= old(data)@ + c);
            },
            Err(_) => {},
        }
    }
    r2
}

/// Read sealed chunks up to the terminator, appending their
/// decrypted data.
fn read_body_enc(r: &mut Source, cipher: &Cipher, data: &mut Vec<u8>) -> (res: Result<(), Error>)
    ensures
        final(r).bytes() == old(r).bytes(),
        match spec_read_body_enc(old(r).bytes(), old(r).pos(), cipher.key()) {
            Ok((c, end)) => res is Ok && final(data)@ == old(data)@ + c && final(r).pos() == end,
            Err(e) => res == Err::<(), Error>(e),
        },
    decreases old(r).bytes().len() - old(r).pos(),
{
    let d = match read_encrypt_chunk(r, cipher) {
        Ok(Some(d)) => d,
        Ok(None) => {
            proof {
                assert(old(data)@ + Seq::<u8>::empty() =~= old(data)@);
            }
            return Ok(());
        },
        Err(e) => {
            return Err(e);
        },
    };
    let mut dd = d;
    data.append(&mut dd);
    let r2 = read_body_enc(r, cipher, data);
    proof {
        match spec_read_body_enc(old(r).bytes(), old(r).pos(), cipher.key()) {
            Ok((c, end)) => {
                assert(data@ =~= old(data)@ + c);
            },
            Err(_) => {},
        }
    }
    r2
}

} // verus!
