//! Round-trip laws: what the encoder puts on the wire, the decoder's
//! parser reads back unchanged. Together with the contracts of
//! [`crate::encode::Encode`] and [`crate::decode::Decode`] these tie
//! the two directions of the codec to each other.
use vstd::prelude::*;

use vstd::utf8::{encode_utf8, encode_utf8_decode_utf8, encode_utf8_valid_utf8};

use crate::compress::spec_decompressed;
use crate::crypto::aead_seal;
use crate::model::{
    be16, be32, be32_at, body_seals_ok, chunk_seal_ok, enc_body_bytes, enc_chunk_bytes,
    enc_chunks_fit, enc_header_bytes, entry_head_enc, entry_head_plain, entry_names, frame,
    head_bytes,
    plain_body_bytes, plain_chunks_fit, plain_entries_bytes, plain_entry_bytes, plain_entry_fits,
    preamble_bytes, spec_chunk_at, spec_enc_chunk_at, spec_enc_header_at, spec_parse_preamble,
    enc_entries_bytes, enc_entry_bytes, enc_entry_fits, enc_entry_names, spec_read_body_enc,
    spec_read_body_plain, spec_read_entries_enc, spec_read_entries_plain, spec_read_entry,
    spec_take, EncChunk, EncEntryV, EntryV,
};
use crate::params::ScryptParamsV;
use crate::{type_tag, Error, FileType};

verus! {

/// Two big-endian bytes hold their length back.
proof fn lemma_be16_round_trip(n: int)
    requires
        0 <= n <= 65535,
    ensures
        be16(n).len() == 2,
        be16(n)[0] * 256 + be16(n)[1] == n,
{
}

/// Four big-endian bytes hold their number back.
proof fn lemma_be32_round_trip(n: int)
    requires
        0 <= n <= 0xFFFF_FFFF,
    ensures
        be32(n).len() == 4,
        be32(n)[0] * 0x1000000 + be32(n)[1] * 0x10000 + be32(n)[2] * 256 + be32(n)[3] == n,
{
}

/// A framed chunk parses back to its data: the frame written at `pos`
/// is read as the data and the position after it.
proof fn lemma_frame_round_trip(bytes: Seq<u8>, pos: int, data: Seq<u8>, rest: Seq<u8>)
    requires
        data.len() <= 65535,
        0 <= pos <= bytes.len(),
        bytes.skip(pos) == frame(data) + rest,
    ensures
        spec_chunk_at(bytes, pos) == Some((data, pos + 2 + data.len())),
{
    lemma_be16_round_trip(data.len() as int);
    assert(bytes.skip(pos).len() == frame(data).len() + rest.len());
    assert(spec_take(bytes, pos, 2) == Some(bytes.subrange(pos, pos + 2)));
    assert(bytes.subrange(pos, pos + 2) =~= be16(data.len() as int)) by {
        assert forall|i: int| 0 <= i < 2 implies bytes.subrange(pos, pos + 2)[i] == be16(
            data.len() as int,
        )[i] by {
            assert(bytes[pos + i] == bytes.skip(pos)[i]);
        }
    }
    assert(bytes.subrange(pos + 2, pos + 2 + data.len()) =~= data) by {
        assert forall|i: int| 0 <= i < data.len() implies bytes.subrange(
            pos + 2,
            pos + 2 + data.len(),
        )[i] == data[i] by {
            assert(bytes[pos + 2 + i] == bytes.skip(pos)[2 + i]);
            assert((frame(data) + rest)[2 + i] == data[i]);
        }
    }
}

/// The preamble round trip: the bytes the encoder writes for an info
/// string and an encryption header parse back to exactly that info
/// string and header, whatever follows them.
#[verifier::rlimit(100)]
#[verifier::spinoff_prover]
pub proof fn lemma_preamble_round_trip(info: Seq<char>, op: Option<ScryptParamsV>, rest: Seq<u8>)
    requires
        encode_utf8(info).len() <= 65535,
        op matches Some(sp) ==> sp.salt.len() == 16,
    ensures
        spec_parse_preamble(preamble_bytes(encode_utf8(info), op) + rest) == Ok::<
            (Seq<char>, Option<ScryptParamsV>, int),
            Error,
        >((info, op, preamble_bytes(encode_utf8(info), op).len() as int)),
{
    broadcast use encode_utf8_valid_utf8, encode_utf8_decode_utf8;

    let ib = encode_utf8(info);
    let pre = preamble_bytes(ib, op);
    let bytes = pre + rest;
    assert(bytes.subrange(0, 3) =~= head_bytes());
    assert(bytes[3] == 1u8);
    assert(bytes.skip(4) =~= frame(ib) + (enc_header_bytes(op) + rest)) by {
        assert(frame(ib) + (enc_header_bytes(op) + rest) =~= (frame(ib) + enc_header_bytes(op))
            + rest);
    }
    lemma_frame_round_trip(bytes, 4, ib, enc_header_bytes(op) + rest);
    let p = 4 + 2 + ib.len() as int;
    assert(spec_chunk_at(bytes, 4) == Some((ib, p)));
    match op {
        Option::None => {
            assert(bytes[p] == 0u8) by {
                assert(bytes.skip(4)[2 + ib.len() as int] == (frame(ib) + (enc_header_bytes(op) + rest))[2
                    + ib.len() as int]);
            }
            assert(spec_enc_header_at(bytes, p) == Ok::<(Option<ScryptParamsV>, int), Error>(
                (None, p + 1),
            ));
            assert(pre.len() == p + 1);
        },
        Option::Some(sp) => {
            let hdr = enc_header_bytes(op);
            assert(hdr == seq![1u8] + sp.salt + seq![sp.n] + be32(sp.r as int) + be32(sp.p as int));
            assert(hdr.len() == 26);
            assert forall|i: int| 0 <= i < 26 implies bytes[p + i] == hdr[i] by {
                assert(bytes.skip(4)[2 + ib.len() + i] == (frame(ib) + (hdr + rest))[2 + ib.len()
                    + i]);
            }
            lemma_be32_round_trip(sp.r as int);
            lemma_be32_round_trip(sp.p as int);
            assert(bytes[p] == 1u8);
            assert(p + 26 <= bytes.len());
            assert(bytes.subrange(p + 1, p + 17) =~= sp.salt);
            assert(bytes[p + 17] == sp.n);
            assert(be32_at(bytes, p + 18) == sp.r) by {
                assert(bytes[p + 18] == be32(sp.r as int)[0]);
                assert(bytes[p + 19] == be32(sp.r as int)[1]);
                assert(bytes[p + 20] == be32(sp.r as int)[2]);
                assert(bytes[p + 21] == be32(sp.r as int)[3]);
            }
            assert(be32_at(bytes, p + 22) == sp.p) by {
                assert(bytes[p + 22] == be32(sp.p as int)[0]);
                assert(bytes[p + 23] == be32(sp.p as int)[1]);
                assert(bytes[p + 24] == be32(sp.p as int)[2]);
                assert(bytes[p + 25] == be32(sp.p as int)[3]);
            }
            assert(spec_enc_header_at(bytes, p) matches Ok((osp, end)) && osp == Some(sp) && end
                == p + 26);
            assert(pre.len() == p + 26);
        },
    }
}

/// A prefix too short to hold even the empty preamble fails to parse.
pub proof fn lemma_preamble_needs_seven_bytes(bytes: Seq<u8>)
    requires
        bytes.len() < 7,
    ensures
        spec_parse_preamble(bytes) is Err,
{
}

/// A flipped magic byte fails with `InvalidHead`.
pub proof fn lemma_bad_magic(bytes: Seq<u8>)
    requires
        bytes.len() >= 3,
        bytes.subrange(0, 3) != head_bytes(),
    ensures
        spec_parse_preamble(bytes) == Err::<(Seq<char>, Option<ScryptParamsV>, int), Error>(
            Error::InvalidHead,
        ),
{
}

/// A bumped version byte fails with `InvalidVersion`.
pub proof fn lemma_bad_version(bytes: Seq<u8>)
    requires
        bytes.len() >= 4,
        bytes.subrange(0, 3) == head_bytes(),
        bytes[3] != 1u8,
    ensures
        spec_parse_preamble(bytes) == Err::<(Seq<char>, Option<ScryptParamsV>, int), Error>(
            Error::InvalidVersion,
        ),
{
}

/// The plain entry-head round trip: the bytes the encoder writes for
/// an entry's type and path parse back to that type and path, at
/// whatever position in the archive the entry sits.
pub proof fn lemma_entry_round_trip_plain(
    t: FileType,
    path: Seq<char>,
    pre: Seq<u8>,
    rest: Seq<u8>,
)
    requires
        encode_utf8(path).len() <= 65535,
    ensures
        spec_read_entry(pre + entry_head_plain(t, encode_utf8(path)) + rest, pre.len() as int, None)
            == Ok::<Option<(FileType, Seq<char>, int)>, Error>(
            Some((t, path, pre.len() + 3 + encode_utf8(path).len() as int)),
        ),
{
    broadcast use encode_utf8_valid_utf8, encode_utf8_decode_utf8;

    let pb = encode_utf8(path);
    let bytes = pre + entry_head_plain(t, pb) + rest;
    let pos = pre.len() as int;
    assert(bytes == (pre + entry_head_plain(t, pb)) + rest);
    assert(bytes[pos] == type_tag(t)) by {
        assert((pre + entry_head_plain(t, pb))[pos] == entry_head_plain(t, pb)[0]);
    }
    assert(bytes.skip(pos + 1) =~= frame(pb) + rest) by {
        assert forall|i: int| 0 <= i < bytes.len() - pos - 1 implies bytes.skip(pos + 1)[i] == (
        frame(pb) + rest)[i] by {
            if i < frame(pb).len() {
                assert((pre + entry_head_plain(t, pb))[pos + 1 + i] == entry_head_plain(t, pb)[1
                    + i]);
                assert(entry_head_plain(t, pb)[1 + i] == frame(pb)[i]);
            }
        }
    }
    lemma_frame_round_trip(bytes, pos + 1, pb, rest);
    assert(type_tag(t) == 0u8 || type_tag(t) == 1u8);
}

/// The encrypted entry-head round trip: with the archive's key, the
/// sealed path chunk decrypts back to the path that was sealed.
pub proof fn lemma_entry_round_trip_enc(
    t: FileType,
    path: Seq<char>,
    key: Seq<u8>,
    nonce: Seq<u8>,
    pre: Seq<u8>,
    rest: Seq<u8>,
)
    requires
        0 < encode_utf8(path).len(),
        encode_utf8(path).len() + 16 <= 65535,
        chunk_seal_ok(key, nonce, encode_utf8(path)),
    ensures
        spec_read_entry(
            pre + entry_head_enc(t, key, nonce, encode_utf8(path)) + rest,
            pre.len() as int,
            Some(key),
        ) == Ok::<Option<(FileType, Seq<char>, int)>, Error>(
            Some((t, path, pre.len() + 3 + 16 + encode_utf8(path).len() + 12 as int)),
        ),
{
    broadcast use encode_utf8_valid_utf8, encode_utf8_decode_utf8;

    let pb = encode_utf8(path);
    let ct = aead_seal(key, nonce, pb);
    let head = entry_head_enc(t, key, nonce, pb);
    let bytes = pre + head + rest;
    let pos = pre.len() as int;
    assert(bytes == (pre + head) + rest);
    assert(head == seq![type_tag(t)] + (frame(ct) + nonce));
    assert(bytes[pos] == type_tag(t)) by {
        assert((pre + head)[pos] == head[0]);
    }
    assert(bytes.skip(pos + 1) =~= frame(ct) + (nonce + rest)) by {
        assert forall|i: int| 0 <= i < bytes.len() - pos - 1 implies bytes.skip(pos + 1)[i] == (
        frame(ct) + (nonce + rest))[i] by {
            if i < frame(ct).len() + nonce.len() {
                assert((pre + head)[pos + 1 + i] == head[1 + i]);
                assert(head[1 + i] == (frame(ct) + nonce)[i]);
            }
        }
    }
    lemma_frame_round_trip(bytes, pos + 1, ct, nonce + rest);
    let after_ct = pos + 3 + ct.len();
    assert(spec_take(bytes, after_ct, 12) == Some(bytes.subrange(after_ct, after_ct + 12)));
    assert(bytes.subrange(after_ct, after_ct + 12) =~= nonce) by {
        assert forall|i: int| 0 <= i < 12 implies bytes.subrange(after_ct, after_ct + 12)[i]
            == nonce[i] by {
            assert(bytes[after_ct + i] == bytes.skip(pos + 1)[2 + ct.len() + i]);
            assert((frame(ct) + (nonce + rest))[2 + ct.len() + i] == nonce[i]);
        }
    }
    assert(spec_enc_chunk_at(bytes, pos + 1, key) == EncChunk::Data(pb, after_ct + 12));
    assert(type_tag(t) == 0u8 || type_tag(t) == 1u8);
}

/// The plain body round trip: the framed chunks the encoder cuts a
/// compressed stream into are read back and concatenated to exactly
/// that stream.
#[verifier::rlimit(100)]
#[verifier::spinoff_prover]
pub proof fn lemma_body_round_trip_plain(c: Seq<u8>, buf: int, pre: Seq<u8>, rest: Seq<u8>)
    requires
        0 < buf,
        plain_chunks_fit(c, buf),
    ensures
        spec_read_body_plain(pre + plain_body_bytes(c, buf) + rest, pre.len() as int) == Ok::<
            (Seq<u8>, int),
            Error,
        >((c, pre.len() + plain_body_bytes(c, buf).len() as int)),
    decreases c.len(),
{
    let body = plain_body_bytes(c, buf);
    let bytes = pre + body + rest;
    let pos = pre.len() as int;
    assert(bytes == (pre + body) + rest);
    if c.len() == 0 {
        assert(body == frame(Seq::<u8>::empty()));
        assert(bytes.skip(pos) =~= frame(Seq::<u8>::empty()) + rest);
        lemma_frame_round_trip(bytes, pos, Seq::<u8>::empty(), rest);
        assert(spec_read_body_plain(bytes, pos) == Ok::<(Seq<u8>, int), Error>(
            (Seq::<u8>::empty(), pos + 2),
        ));
        assert(c =~= Seq::<u8>::empty());
    } else if c.len() <= buf {
        assert(body == frame(c) + frame(Seq::<u8>::empty()));
        assert(bytes.skip(pos) =~= frame(c) + (frame(Seq::<u8>::empty()) + rest)) by {
            assert(frame(c) + (frame(Seq::<u8>::empty()) + rest) =~= (frame(c) + frame(
                Seq::<u8>::empty(),
            )) + rest);
        }
        lemma_frame_round_trip(bytes, pos, c, frame(Seq::<u8>::empty()) + rest);
        let p2 = pos + 2 + c.len() as int;
        assert(bytes.skip(p2) =~= frame(Seq::<u8>::empty()) + rest) by {
            assert forall|i: int| 0 <= i < bytes.len() - p2 implies bytes.skip(p2)[i] == (frame(
                Seq::<u8>::empty(),
            ) + rest)[i] by {
                assert(bytes.skip(pos)[2 + c.len() + i] == (frame(c) + (frame(Seq::<u8>::empty())
                    + rest))[2 + c.len() + i]);
            }
        }
        lemma_frame_round_trip(bytes, p2, Seq::<u8>::empty(), rest);
        assert(spec_read_body_plain(bytes, p2) == Ok::<(Seq<u8>, int), Error>(
            (Seq::<u8>::empty(), p2 + 2),
        ));
        assert(spec_read_body_plain(bytes, pos) == Ok::<(Seq<u8>, int), Error>(
            (c + Seq::<u8>::empty(), p2 + 2),
        ));
        assert(c + Seq::<u8>::empty() =~= c);
        assert(pos + plain_body_bytes(c, buf).len() == p2 + 2);
    } else {
        let c0 = c.take(buf);
        let ctail = c.skip(buf);
        assert(body == frame(c0) + plain_body_bytes(ctail, buf));
        assert(bytes.skip(pos) =~= frame(c0) + (plain_body_bytes(ctail, buf) + rest)) by {
            assert(frame(c0) + (plain_body_bytes(ctail, buf) + rest) =~= (frame(c0)
                + plain_body_bytes(ctail, buf)) + rest);
        }
        lemma_frame_round_trip(bytes, pos, c0, plain_body_bytes(ctail, buf) + rest);
        let p2 = pos + 2 + buf;
        assert((pre + body).take(p2) + plain_body_bytes(ctail, buf) + rest =~= bytes) by {
            assert forall|i: int| 0 <= i < bytes.len() implies ((pre + body).take(p2)
                + plain_body_bytes(ctail, buf) + rest)[i] == bytes[i] by {
                if p2 <= i < p2 + plain_body_bytes(ctail, buf).len() {
                    assert(body[i - pre.len()] == (frame(c0) + plain_body_bytes(ctail, buf))[i
                        - pre.len()]);
                }
            }
        }
        lemma_body_round_trip_plain(ctail, buf, (pre + body).take(p2), rest);
        assert(spec_read_body_plain(bytes, p2) == Ok::<(Seq<u8>, int), Error>(
            (ctail, p2 + plain_body_bytes(ctail, buf).len()),
        ));
        assert(c0 + ctail =~= c);
        assert(plain_chunks_fit(ctail, buf));
    }
}

/// The encrypted body round trip: with the archive's key and the
/// nonces the encoder drew, the sealed chunks decrypt and concatenate
/// to exactly the compressed stream that was sealed.
#[verifier::rlimit(100)]
#[verifier::spinoff_prover]
pub proof fn lemma_body_round_trip_enc(
    key: Seq<u8>,
    ns: Seq<Seq<u8>>,
    c: Seq<u8>,
    buf: int,
    pre: Seq<u8>,
    rest: Seq<u8>,
)
    requires
        0 < buf,
        enc_chunks_fit(c, buf),
        body_seals_ok(key, ns, c, buf),
    ensures
        spec_read_body_enc(pre + enc_body_bytes(key, ns, c, buf) + rest, pre.len() as int, key)
            == Ok::<(Seq<u8>, int), Error>(
            (c, pre.len() + enc_body_bytes(key, ns, c, buf).len() as int),
        ),
    decreases c.len(),
{
    let body = enc_body_bytes(key, ns, c, buf);
    let bytes = pre + body + rest;
    let pos = pre.len() as int;
    assert(bytes == (pre + body) + rest);
    if c.len() == 0 {
        assert(body == frame(Seq::<u8>::empty()));
        assert(bytes.skip(pos) =~= frame(Seq::<u8>::empty()) + rest);
        lemma_frame_round_trip(bytes, pos, Seq::<u8>::empty(), rest);
        assert(spec_enc_chunk_at(bytes, pos, key) == EncChunk::Term(pos + 2));
        assert(spec_read_body_enc(bytes, pos, key) == Ok::<(Seq<u8>, int), Error>(
            (Seq::<u8>::empty(), pos + 2),
        ));
        assert(c =~= Seq::<u8>::empty());
    } else {
        let m = if c.len() <= buf {
            c.len() as int
        } else {
            buf
        };
        let c0 = if c.len() <= buf {
            c
        } else {
            c.take(buf)
        };
        let nonce = ns[0];
        let ct = aead_seal(key, nonce, c0);
        assert(chunk_seal_ok(key, nonce, c0));
        assert(ct.len() == c0.len() + 16);
        let echunk = enc_chunk_bytes(key, nonce, c0);
        assert(echunk == frame(ct) + nonce);
        let tail_body = if c.len() <= buf {
            frame(Seq::<u8>::empty())
        } else {
            enc_body_bytes(key, ns.skip(1), c.skip(buf), buf)
        };
        assert(body == echunk + tail_body);
        assert(bytes.skip(pos) =~= frame(ct) + (nonce + (tail_body + rest))) by {
            assert(frame(ct) + (nonce + (tail_body + rest)) =~= ((frame(ct) + nonce) + tail_body)
                + rest);
        }
        lemma_frame_round_trip(bytes, pos, ct, nonce + (tail_body + rest));
        let after_ct = pos + 2 + ct.len();
        assert(spec_take(bytes, after_ct, 12) == Some(bytes.subrange(after_ct, after_ct + 12)));
        assert(bytes.subrange(after_ct, after_ct + 12) =~= nonce) by {
            assert forall|i: int| 0 <= i < 12 implies bytes.subrange(after_ct, after_ct + 12)[i]
                == nonce[i] by {
                assert(bytes[after_ct + i] == bytes.skip(pos)[2 + ct.len() + i]);
                assert((frame(ct) + (nonce + (tail_body + rest)))[2 + ct.len() + i] == nonce[i]);
            }
        }
        let p2 = after_ct + 12;
        assert(spec_enc_chunk_at(bytes, pos, key) == EncChunk::Data(c0, p2));
        if c.len() <= buf {
            assert(bytes.skip(p2) =~= frame(Seq::<u8>::empty()) + rest) by {
                assert forall|i: int| 0 <= i < bytes.len() - p2 implies bytes.skip(p2)[i] == (
                frame(Seq::<u8>::empty()) + rest)[i] by {
                    assert(bytes.skip(pos)[2 + ct.len() + 12 + i] == (frame(ct) + (nonce + (
                    tail_body + rest)))[2 + ct.len() + 12 + i]);
                }
            }
            lemma_frame_round_trip(bytes, p2, Seq::<u8>::empty(), rest);
            assert(spec_enc_chunk_at(bytes, p2, key) == EncChunk::Term(p2 + 2));
            assert(spec_read_body_enc(bytes, p2, key) == Ok::<(Seq<u8>, int), Error>(
                (Seq::<u8>::empty(), p2 + 2),
            ));
            assert(spec_read_body_enc(bytes, pos, key) == Ok::<(Seq<u8>, int), Error>(
                (c0 + Seq::<u8>::empty(), p2 + 2),
            ));
            assert(c0 + Seq::<u8>::empty() =~= c);
            assert(pos + body.len() == p2 + 2);
        } else {
            let ctail = c.skip(buf);
            assert((pre + body).take(p2) + tail_body + rest =~= bytes) by {
                assert forall|i: int| 0 <= i < bytes.len() implies ((pre + body).take(p2)
                    + tail_body + rest)[i] == bytes[i] by {
                    if p2 <= i < p2 + tail_body.len() {
                        assert(body[i - pre.len()] == (echunk + tail_body)[i - pre.len()]);
                    }
                }
            }
            lemma_body_round_trip_enc(key, ns.skip(1), ctail, buf, (pre + body).take(p2), rest);
            assert(spec_read_body_enc(bytes, p2, key) == Ok::<(Seq<u8>, int), Error>(
                (ctail, p2 + tail_body.len()),
            ));
            assert(c0 + ctail =~= c);
            assert(enc_chunks_fit(ctail, buf));
            assert(pos + body.len() == p2 + tail_body.len());
        }
    }
}

/// The file round trip: a body the encoder wrote for a file's bytes
/// is read back and decompressed to those bytes, provided the
/// compressor's stream decodes to what it encoded — which the
/// encoder's own contract establishes for every stream it writes.
pub proof fn lemma_file_round_trip_plain(
    content: Seq<u8>,
    c: Seq<u8>,
    buf: int,
    pre: Seq<u8>,
    rest: Seq<u8>,
)
    requires
        0 < buf,
        plain_chunks_fit(c, buf),
        spec_decompressed(c) == Some(content),
    ensures
        spec_read_body_plain(pre + plain_body_bytes(c, buf) + rest, pre.len() as int) matches Ok(
            (c2, end),
        ) && spec_decompressed(c2) == Some(content),
{
    lemma_body_round_trip_plain(c, buf, pre, rest);
}

/// The encrypted file round trip: a sealed body the encoder wrote
/// for a file's bytes decrypts, reassembles and decompresses to
/// those bytes, under the same proviso on the compressor's stream.
pub proof fn lemma_file_round_trip_enc(
    content: Seq<u8>,
    c: Seq<u8>,
    key: Seq<u8>,
    ns: Seq<Seq<u8>>,
    buf: int,
    pre: Seq<u8>,
    rest: Seq<u8>,
)
    requires
        0 < buf,
        enc_chunks_fit(c, buf),
        body_seals_ok(key, ns, c, buf),
        spec_decompressed(c) == Some(content),
    ensures
        spec_read_body_enc(
            pre + enc_body_bytes(key, ns, c, buf) + rest,
            pre.len() as int,
            key,
        ) matches Ok((c2, end)) && spec_decompressed(c2) == Some(content),
{
    lemma_body_round_trip_enc(key, ns, c, buf, pre, rest);
}

/// One step of the whole-archive parse: the first entry's head (and
/// a file's body) parse back, and the wire splits after them into
/// what the remaining entries contribute.
#[verifier::rlimit(100)]
#[verifier::spinoff_prover]
proof fn lemma_entries_step_plain(es: Seq<EntryV>, buf: int, pre: Seq<u8>) -> (next: int)
    requires
        es.len() > 0,
        plain_entry_fits(es[0], buf),
    ensures
        ({
            let bytes = pre + plain_entries_bytes(es, buf);
            let pos = pre.len() as int;
            &&& spec_read_entry(bytes, pos, None) == Ok::<Option<(FileType, Seq<char>, int)>,
                Error,
            >(Some((es[0].t, es[0].path, pos + 3 + encode_utf8(es[0].path).len() as int)))
            &&& (es[0].t is File ==> spec_read_body_plain(
                bytes,
                pos + 3 + encode_utf8(es[0].path).len() as int,
            ) == Ok::<(Seq<u8>, int), Error>((es[0].c, next)))
            &&& (!(es[0].t is File) ==> next == pos + 3 + encode_utf8(es[0].path).len() as int)
            &&& pos < next <= bytes.len()
            &&& bytes.take(next) + plain_entries_bytes(es.skip(1), buf) == bytes
        }),
{
    let bytes = pre + plain_entries_bytes(es, buf);
    let pos = pre.len() as int;
    let e0 = es[0];
    let pb = encode_utf8(e0.path);
    let head = entry_head_plain(e0.t, pb);
    let tailb = plain_entries_bytes(es.skip(1), buf);
    let end = pos + 3 + pb.len() as int;
    assert(head.len() == 3 + pb.len());
    if e0.t is File {
        let bodyb = plain_body_bytes(e0.c, buf);
        assert(plain_entry_bytes(e0, buf) == head + bodyb);
        assert(bytes =~= pre + head + (bodyb + tailb));
        lemma_entry_round_trip_plain(e0.t, e0.path, pre, bodyb + tailb);
        assert((pre + head) + bodyb + tailb =~= bytes);
        lemma_body_round_trip_plain(e0.c, buf, pre + head, tailb);
        let next = end + bodyb.len() as int;
        assert(spec_read_body_plain(bytes, end) == Ok::<(Seq<u8>, int), Error>((e0.c, next)));
        assert(bytes.take(next) =~= (pre + head) + bodyb);
        assert(bytes.take(next) + tailb =~= bytes);
        next
    } else {
        assert(plain_entry_bytes(e0, buf) == head);
        assert(bytes =~= pre + head + tailb);
        lemma_entry_round_trip_plain(e0.t, e0.path, pre, tailb);
        assert(bytes.take(end) =~= pre + head);
        assert(bytes.take(end) + tailb =~= bytes);
        end
    }
}

/// One unfolding of the whole-archive parser: an entry at `pos`, its
/// skipped body, and the already-parsed tail compose to a cons.
proof fn lemma_entries_cons_plain(
    bytes: Seq<u8>,
    pos: int,
    t: FileType,
    path: Seq<char>,
    end: int,
    c: Seq<u8>,
    next: int,
    rest_names: Seq<(FileType, Seq<char>)>,
)
    requires
        spec_read_entry(bytes, pos, None) == Ok::<Option<(FileType, Seq<char>, int)>, Error>(
            Some((t, path, end)),
        ),
        t is File ==> spec_read_body_plain(bytes, end) == Ok::<(Seq<u8>, int), Error>((c, next)),
        !(t is File) ==> next == end,
        pos < next <= bytes.len(),
        spec_read_entries_plain(bytes, next) == Ok::<Seq<(FileType, Seq<char>)>, Error>(
            rest_names,
        ),
    ensures
        spec_read_entries_plain(bytes, pos) == Ok::<Seq<(FileType, Seq<char>)>, Error>(
            seq![(t, path)] + rest_names,
        ),
{
}

/// The whole-archive entry round trip, plain mode: the entries an
/// encoder writes after the preamble are handed back by the decoder
/// as the same `(type, path)` pairs, in the same order, with each
/// file's body skipped the way `read_file` consumes it.
#[verifier::rlimit(100)]
#[verifier::spinoff_prover]
pub proof fn lemma_entries_round_trip_plain(es: Seq<EntryV>, buf: int, pre: Seq<u8>)
    requires
        forall|i: int| 0 <= i < es.len() ==> plain_entry_fits(#[trigger] es[i], buf),
    ensures
        spec_read_entries_plain(pre + plain_entries_bytes(es, buf), pre.len() as int) == Ok::<
            Seq<(FileType, Seq<char>)>,
            Error,
        >(entry_names(es)),
    decreases es.len(),
{
    let bytes = pre + plain_entries_bytes(es, buf);
    let pos = pre.len() as int;
    if es.len() == 0 {
        assert(plain_entries_bytes(es, buf) =~= Seq::<u8>::empty());
        assert(bytes =~= pre);
        assert(spec_read_entry(bytes, pos, None) == Ok::<Option<(FileType, Seq<char>, int)>,
            Error,
        >(None));
        assert(entry_names(es) =~= Seq::<(FileType, Seq<char>)>::empty());
    } else {
        let e0 = es[0];
        assert(plain_entry_fits(e0, buf));
        let next = lemma_entries_step_plain(es, buf, pre);
        assert(forall|i: int|
            0 <= i < es.skip(1).len() ==> plain_entry_fits(#[trigger] es.skip(1)[i], buf));
        lemma_entries_round_trip_plain(es.skip(1), buf, bytes.take(next));
        assert(bytes.take(next) + plain_entries_bytes(es.skip(1), buf) == bytes);
        assert(bytes.take(next).len() == next);
        assert(spec_read_entries_plain(bytes, next) == Ok::<Seq<(FileType, Seq<char>)>, Error>(
            entry_names(es.skip(1)),
        ));
        lemma_entries_cons_plain(
            bytes,
            pos,
            e0.t,
            e0.path,
            pos + 3 + encode_utf8(e0.path).len() as int,
            e0.c,
            next,
            entry_names(es.skip(1)),
        );
        assert(seq![(e0.t, e0.path)] + entry_names(es.skip(1)) =~= entry_names(es));
    }
}

/// One step of the whole-archive parse, encrypted mode.
#[verifier::rlimit(100)]
#[verifier::spinoff_prover]
proof fn lemma_entries_step_enc(key: Seq<u8>, es: Seq<EncEntryV>, buf: int, pre: Seq<u8>) -> (next:
    int)
    requires
        es.len() > 0,
        enc_entry_fits(key, es[0], buf),
    ensures
        ({
            let bytes = pre + enc_entries_bytes(key, es, buf);
            let pos = pre.len() as int;
            let end = pos + 3 + 16 + encode_utf8(es[0].path).len() + 12 as int;
            &&& spec_read_entry(bytes, pos, Some(key)) == Ok::<Option<(FileType, Seq<char>, int)>,
                Error,
            >(Some((es[0].t, es[0].path, end)))
            &&& (es[0].t is File ==> spec_read_body_enc(bytes, end, key) == Ok::<
                (Seq<u8>, int),
                Error,
            >((es[0].c, next)))
            &&& (!(es[0].t is File) ==> next == end)
            &&& pos < next <= bytes.len()
            &&& bytes.take(next) + enc_entries_bytes(key, es.skip(1), buf) == bytes
        }),
{
    let bytes = pre + enc_entries_bytes(key, es, buf);
    let pos = pre.len() as int;
    let e0 = es[0];
    let pb = encode_utf8(e0.path);
    let head = entry_head_enc(e0.t, key, e0.pn, pb);
    let tailb = enc_entries_bytes(key, es.skip(1), buf);
    let end = pos + 3 + 16 + pb.len() + 12 as int;
    assert(head.len() == 3 + 16 + pb.len() + 12);
    if e0.t is File {
        let bodyb = enc_body_bytes(key, e0.ns, e0.c, buf);
        assert(enc_entry_bytes(key, e0, buf) == head + bodyb);
        assert(bytes =~= pre + head + (bodyb + tailb));
        lemma_entry_round_trip_enc(e0.t, e0.path, key, e0.pn, pre, bodyb + tailb);
        assert((pre + head) + bodyb + tailb =~= bytes);
        lemma_body_round_trip_enc(key, e0.ns, e0.c, buf, pre + head, tailb);
        let next = end + bodyb.len() as int;
        assert(spec_read_body_enc(bytes, end, key) == Ok::<(Seq<u8>, int), Error>((e0.c, next)));
        assert(bytes.take(next) =~= (pre + head) + bodyb);
        assert(bytes.take(next) + tailb =~= bytes);
        next
    } else {
        assert(enc_entry_bytes(key, e0, buf) == head);
        assert(bytes =~= pre + head + tailb);
        lemma_entry_round_trip_enc(e0.t, e0.path, key, e0.pn, pre, tailb);
        assert(bytes.take(end) =~= pre + head);
        assert(bytes.take(end) + tailb =~= bytes);
        end
    }
}

/// The whole-archive entry round trip, encrypted mode: with the
/// archive's key and the nonces the encoder drew, the entries written
/// after the preamble decrypt back to the same `(type, path)` pairs,
/// in the same order.
#[verifier::rlimit(100)]
#[verifier::spinoff_prover]
pub proof fn lemma_entries_round_trip_enc(key: Seq<u8>, es: Seq<EncEntryV>, buf: int, pre: Seq<u8>)
    requires
        forall|i: int| 0 <= i < es.len() ==> enc_entry_fits(key, #[trigger] es[i], buf),
    ensures
        spec_read_entries_enc(pre + enc_entries_bytes(key, es, buf), pre.len() as int, key)
            == Ok::<Seq<(FileType, Seq<char>)>, Error>(enc_entry_names(es)),
    decreases es.len(),
{
    let bytes = pre + enc_entries_bytes(key, es, buf);
    let pos = pre.len() as int;
    if es.len() == 0 {
        assert(enc_entries_bytes(key, es, buf) =~= Seq::<u8>::empty());
        assert(bytes =~= pre);
        assert(spec_read_entry(bytes, pos, Some(key)) == Ok::<Option<(FileType, Seq<char>, int)>,
            Error,
        >(None));
        assert(enc_entry_names(es) =~= Seq::<(FileType, Seq<char>)>::empty());
    } else {
        let e0 = es[0];
        assert(enc_entry_fits(key, e0, buf));
        let next = lemma_entries_step_enc(key, es, buf, pre);
        assert(forall|i: int|
            0 <= i < es.skip(1).len() ==> enc_entry_fits(key, #[trigger] es.skip(1)[i], buf));
        lemma_entries_round_trip_enc(key, es.skip(1), buf, bytes.take(next));
        assert(bytes.take(next) + enc_entries_bytes(key, es.skip(1), buf) == bytes);
        assert(bytes.take(next).len() == next);
        assert(spec_read_entries_enc(bytes, next, key) == Ok::<Seq<(FileType, Seq<char>)>, Error>(
            enc_entry_names(es.skip(1)),
        ));
        assert(seq![(e0.t, e0.path)] + enc_entry_names(es.skip(1)) =~= enc_entry_names(es));
        assert(spec_read_entries_enc(bytes, pos, key) == Ok::<Seq<(FileType, Seq<char>)>, Error>(
            seq![(e0.t, e0.path)] + enc_entry_names(es.skip(1)),
        ));
    }
}

} // verus!
