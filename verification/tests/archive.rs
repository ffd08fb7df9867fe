//! End-to-end tests of the archive codec over in-memory buffers.
use mei::decode::Decode;
use mei::encode::Encode;
use mei::framing::{
    read_chunk, read_chunk_to_string, read_head, read_nonce, read_scrypt_option, read_version,
    write_chunk, write_head, write_scrypt_params, write_version,
};
use mei::params::{CompressParams, Password, ScryptParams, DEFAULT_BUF_SIZE};
use mei::source::Source;
use mei::{Error, FileType};


fn expect_encode_err(r: Result<Encode, Error>) -> Error {
    match r {
        Err(e) => e,
        Ok(_) => panic!("expected an error"),
    }
}

fn expect_decode_err(r: Result<Decode, Error>) -> Error {
    match r {
        Err(e) => e,
        Ok(_) => panic!("expected an error"),
    }
}

fn plain_encoder(info: &str) -> Encode {
    Encode::new(Vec::new(), info, None, CompressParams::new()).unwrap()
}

fn encrypted_encoder(info: &str, password: &str) -> Encode {
    let pw = Password::new(password, ScryptParams::default());
    Encode::new(Vec::new(), info, Some(pw), CompressParams::new()).unwrap()
}

#[test]
fn test_head() {
    let mut w: Vec<u8> = Vec::new();
    write_head(&mut w);
    let mut r = Source::new(w);
    read_head(&mut r).unwrap();
}

#[test]
fn test_version() {
    let mut w: Vec<u8> = Vec::new();
    write_version(&mut w);
    let mut r = Source::new(w);
    read_version(&mut r).unwrap();
}

#[test]
fn test_scrypt_params() {
    let mut w: Vec<u8> = Vec::new();
    write_scrypt_params(&mut w, None);
    let mut r = Source::new(w);
    assert!(read_scrypt_option(&mut r).unwrap().is_none());

    let opt = ScryptParams::default();
    let mut w: Vec<u8> = Vec::new();
    write_scrypt_params(&mut w, Some(&opt));
    let mut r = Source::new(w);
    let params = read_scrypt_option(&mut r).unwrap().unwrap();
    assert_eq!(params.n, opt.n);
    assert_eq!(params.r, opt.r);
    assert_eq!(params.p, opt.p);
    assert_eq!(params.salt, opt.salt);
}

#[test]
fn test_archive() {
    let mut encode = plain_encoder("info");
    encode.write_directory("directory").unwrap();
    encode.write_file("file", &[]).unwrap();
    let bytes = encode.into_inner();

    let mut decode = Decode::new(bytes, None, DEFAULT_BUF_SIZE).unwrap();
    assert_eq!(decode.info(), "info");

    assert_eq!(
        decode.read_path().unwrap().unwrap(),
        (FileType::Directory, "directory".to_string())
    );
    assert_eq!(
        decode.read_path().unwrap().unwrap(),
        (FileType::File, "file".to_string())
    );

    let mut body: Vec<u8> = Vec::new();
    decode.read_file(&mut body).unwrap();
    assert!(body.is_empty());
    assert!(decode.read_path().unwrap().is_none());
}

#[test]
fn empty_archive_bytes() {
    let encode = plain_encoder("");
    let bytes = encode.into_inner();
    assert_eq!(bytes, vec![0x6D, 0x65, 0x69, 0x01, 0x00, 0x00, 0x00]);

    let mut decode = Decode::new(bytes, None, DEFAULT_BUF_SIZE).unwrap();
    assert_eq!(decode.info(), "");
    assert!(decode.read_path().unwrap().is_none());
}

#[test]
fn single_directory_bytes() {
    let mut encode = plain_encoder("");
    encode.write_directory("d").unwrap();
    let bytes = encode.into_inner();
    assert_eq!(
        bytes,
        vec![0x6D, 0x65, 0x69, 0x01, 0x00, 0x00, 0x00, 0x00, 0x00, 0x01, 0x64]
    );

    let mut decode = Decode::new(bytes, None, DEFAULT_BUF_SIZE).unwrap();
    assert_eq!(
        decode.read_path().unwrap().unwrap(),
        (FileType::Directory, "d".to_string())
    );
    assert!(decode.read_path().unwrap().is_none());
}

#[test]
fn single_empty_file_bytes() {
    let mut encode = plain_encoder("");
    encode.write_file("f", &[]).unwrap();
    let bytes = encode.into_inner();
    assert_eq!(
        bytes,
        vec![0x6D, 0x65, 0x69, 0x01, 0x00, 0x00, 0x00, 0x01, 0x00, 0x01, 0x66, 0x00, 0x00]
    );

    let mut decode = Decode::new(bytes, None, DEFAULT_BUF_SIZE).unwrap();
    assert_eq!(
        decode.read_path().unwrap().unwrap(),
        (FileType::File, "f".to_string())
    );
    let mut body: Vec<u8> = Vec::new();
    decode.read_file(&mut body).unwrap();
    assert!(body.is_empty());
}

#[test]
fn encrypted_header_bytes() {
    let encode = encrypted_encoder("x", "hunter2");
    let bytes = encode.into_inner();
    assert_eq!(&bytes[..8], &[0x6D, 0x65, 0x69, 0x01, 0x00, 0x01, 0x78, 0x01]);
    // 16 bytes of random salt, then n = 15, r = 8, p = 1 big-endian.
    assert_eq!(
        &bytes[24..],
        &[0x0F, 0x00, 0x00, 0x00, 0x08, 0x00, 0x00, 0x00, 0x01]
    );

    let err = expect_decode_err(Decode::new(bytes, None, DEFAULT_BUF_SIZE));
    assert_eq!(err, Error::PasswordRequired);
}

#[test]
fn large_file_round_trip() {
    let content = vec![0u8; 100_000];
    let mut encode = Encode::new(
        Vec::new(),
        "",
        None,
        CompressParams::new().quality(4),
    )
    .unwrap();
    let written = encode.write_file("zeros", &content).unwrap();
    assert_eq!(written, 100_000);
    let bytes = encode.into_inner();
    assert!(bytes.len() < 10_000);

    let mut decode = Decode::new(bytes, None, DEFAULT_BUF_SIZE).unwrap();
    assert_eq!(
        decode.read_path().unwrap().unwrap(),
        (FileType::File, "zeros".to_string())
    );
    let mut body: Vec<u8> = Vec::new();
    decode.read_file(&mut body).unwrap();
    assert_eq!(body, content);
}

#[test]
fn encrypted_round_trip() {
    let content: Vec<u8> = (0u32..50_000).map(|i| (i % 251) as u8).collect();
    let mut encode = encrypted_encoder("meta \u{1F512}", "correct horse");
    encode.write_directory("a/b").unwrap();
    let written = encode.write_file("a/b/c.txt", &content).unwrap();
    assert_eq!(written, content.len());
    let bytes = encode.into_inner();

    let mut decode = Decode::new(bytes, Some("correct horse"), DEFAULT_BUF_SIZE).unwrap();
    assert_eq!(decode.info(), "meta \u{1F512}");
    assert_eq!(
        decode.read_path().unwrap().unwrap(),
        (FileType::Directory, "a/b".to_string())
    );
    assert_eq!(
        decode.read_path().unwrap().unwrap(),
        (FileType::File, "a/b/c.txt".to_string())
    );
    let mut body: Vec<u8> = Vec::new();
    decode.read_file(&mut body).unwrap();
    assert_eq!(body, content);
    assert!(decode.read_path().unwrap().is_none());
}

#[test]
fn unicode_info_round_trip() {
    let info = "caf\u{e9} \u{1F980} \u{4F60}\u{597D}";
    let encode = plain_encoder(info);
    let bytes = encode.into_inner();
    let decode = Decode::new(bytes, None, DEFAULT_BUF_SIZE).unwrap();
    assert_eq!(decode.info(), info);
}

#[test]
fn wrong_password_fails() {
    let mut encode = encrypted_encoder("", "hunter2");
    encode.write_directory("d").unwrap();
    let bytes = encode.into_inner();

    let mut decode = Decode::new(bytes, Some("hunter3"), DEFAULT_BUF_SIZE).unwrap();
    assert_eq!(decode.read_path().unwrap_err(), Error::DecryptionFailed);
}

#[test]
fn password_on_plain_archive_fails() {
    let encode = plain_encoder("");
    let bytes = encode.into_inner();
    let err = expect_decode_err(Decode::new(bytes, Some("pw"), DEFAULT_BUF_SIZE));
    assert_eq!(err, Error::NoPasswordRequired);
}

#[test]
fn encrypted_archives_differ() {
    let mut one = encrypted_encoder("", "pw");
    one.write_file("f", b"same content").unwrap();
    let mut two = encrypted_encoder("", "pw");
    two.write_file("f", b"same content").unwrap();
    assert_ne!(one.into_inner(), two.into_inner());
}

#[test]
fn nonces_are_distinct() {
    let mut encode = encrypted_encoder("", "pw");
    encode.write_directory("d").unwrap();
    encode.write_directory("d").unwrap();
    let bytes = encode.into_inner();
    // Preamble: 3 + 1 + 2 + 26 = 32 bytes. Each entry: type tag, then
    // a 2-byte length, a 17-byte ciphertext for the 1-byte path, then
    // a 12-byte nonce.
    let entry: usize = 1 + 2 + 17 + 12;
    let first = &bytes[32 + 20..32 + 32];
    let second = &bytes[32 + entry + 20..32 + entry + 32];
    assert_ne!(first, second);
}

#[test]
fn truncated_preamble_fails() {
    for n in 0..7usize {
        let bytes = vec![0x6D, 0x65, 0x69, 0x01, 0x00, 0x00, 0x00][..n].to_vec();
        assert!(Decode::new(bytes, None, DEFAULT_BUF_SIZE).is_err());
    }
}

#[test]
fn flipped_magic_fails() {
    let mut bytes = plain_encoder("").into_inner();
    bytes[1] ^= 0x01;
    let err = expect_decode_err(Decode::new(bytes, None, DEFAULT_BUF_SIZE));
    assert_eq!(err, Error::InvalidHead);
}

#[test]
fn bumped_version_fails() {
    let mut bytes = plain_encoder("").into_inner();
    bytes[3] = 0x02;
    let err = expect_decode_err(Decode::new(bytes, None, DEFAULT_BUF_SIZE));
    assert_eq!(err, Error::InvalidVersion);
}

#[test]
fn unknown_encryption_tag_fails() {
    let mut bytes = plain_encoder("").into_inner();
    bytes[6] = 0x07;
    let err = expect_decode_err(Decode::new(bytes, None, DEFAULT_BUF_SIZE));
    assert_eq!(err, Error::InvalidEncryptMethod);
}

#[test]
fn invalid_scrypt_params_rejected() {
    let mut params = ScryptParams::default();
    params.r = 0;
    let pw = Password::new("pw", params);
    let err = expect_encode_err(Encode::new(Vec::new(), "", Some(pw), CompressParams::new()));
    assert_eq!(err, Error::InvalidScryptParams);

    let mut params = ScryptParams::default();
    params.n = 200;
    let pw = Password::new("pw", params);
    let err = expect_encode_err(Encode::new(Vec::new(), "", Some(pw), CompressParams::new()));
    assert_eq!(err, Error::InvalidScryptParams);
}

#[test]
fn unknown_file_type_fails() {
    let mut bytes = plain_encoder("").into_inner();
    bytes.extend_from_slice(&[0x07, 0x00, 0x01, 0x64]);
    let mut decode = Decode::new(bytes, None, DEFAULT_BUF_SIZE).unwrap();
    assert_eq!(decode.read_path().unwrap_err(), Error::FileType(0x07));
}

#[test]
fn empty_encrypted_path_reports_file_path() {
    let mut encode = encrypted_encoder("", "pw");
    encode.write_directory("").unwrap();
    let bytes = encode.into_inner();
    let mut decode = Decode::new(bytes, Some("pw"), DEFAULT_BUF_SIZE).unwrap();
    assert_eq!(decode.read_path().unwrap_err(), Error::FilePath);
}

#[test]
fn invalid_utf8_info_fails() {
    let mut bytes = vec![0x6D, 0x65, 0x69, 0x01];
    bytes.extend_from_slice(&[0x00, 0x02, 0xFF, 0xFE, 0x00]);
    let err = expect_decode_err(Decode::new(bytes, None, DEFAULT_BUF_SIZE));
    assert_eq!(err, Error::Utf8);
}

#[test]
fn oversized_path_rejected() {
    let path = "p".repeat(70_000);
    let mut encode = plain_encoder("");
    assert_eq!(encode.write_directory(&path).unwrap_err(), Error::ChunkTooLong);

    let info = "i".repeat(70_000);
    let err = expect_encode_err(Encode::new(Vec::new(), &info, None, CompressParams::new()));
    assert_eq!(err, Error::ChunkTooLong);
}

#[test]
fn truncated_entry_fails_with_io() {
    let mut bytes = plain_encoder("").into_inner();
    bytes.extend_from_slice(&[0x00, 0x00, 0x05, 0x61]);
    let mut decode = Decode::new(bytes, None, DEFAULT_BUF_SIZE).unwrap();
    assert_eq!(decode.read_path().unwrap_err(), Error::IO);
}

#[test]
fn tampered_data_chunk_fails() {
    let content: Vec<u8> = (0u32..10_000).map(|i| (i * 7 % 256) as u8).collect();
    let mut encode = encrypted_encoder("", "pw");
    encode.write_file("f", &content).unwrap();
    let mut bytes = encode.into_inner();
    // The archive ends with: ...ciphertext, a 12-byte nonce, and the
    // 2-byte terminator. Flip one bit inside the last ciphertext.
    let idx = bytes.len() - 20;
    bytes[idx] ^= 0x01;

    let mut decode = Decode::new(bytes, Some("pw"), DEFAULT_BUF_SIZE).unwrap();
    assert_eq!(
        decode.read_path().unwrap().unwrap(),
        (FileType::File, "f".to_string())
    );
    let mut body: Vec<u8> = Vec::new();
    assert_eq!(decode.read_file(&mut body).unwrap_err(), Error::DecryptionFailed);
}

#[test]
fn chunk_framing_round_trip() {
    let mut w: Vec<u8> = Vec::new();
    write_chunk(&mut w, b"hello").unwrap();
    assert_eq!(w, vec![0x00, 0x05, 0x68, 0x65, 0x6C, 0x6C, 0x6F]);
    let mut r = Source::new(w);
    assert_eq!(read_chunk(&mut r).unwrap(), b"hello".to_vec());

    let mut w: Vec<u8> = Vec::new();
    write_chunk(&mut w, b"caf\xC3\xA9").unwrap();
    let mut r = Source::new(w);
    assert_eq!(read_chunk_to_string(&mut r).unwrap(), "caf\u{e9}");

    let oversized = vec![0u8; 70_000];
    let mut w: Vec<u8> = Vec::new();
    assert_eq!(write_chunk(&mut w, &oversized).unwrap_err(), Error::ChunkTooLong);
    assert!(w.is_empty());
}

#[test]
fn nonce_reader_reads_twelve_bytes() {
    let data: Vec<u8> = (0u8..14).collect();
    let mut r = Source::new(data);
    let nonce = read_nonce(&mut r).unwrap();
    assert_eq!(nonce, [0, 1, 2, 3, 4, 5, 6, 7, 8, 9, 10, 11]);
    assert_eq!(r.remaining(), 2);

    let mut r = Source::new(vec![0u8; 5]);
    assert_eq!(read_nonce(&mut r).unwrap_err(), Error::IO);
    assert_eq!(r.remaining(), 5);
}

#[test]
fn compress_params_builder() {
    let p = CompressParams::new().buf_size(1024).quality(9).window_size(22);
    let mut encode = Encode::new(Vec::new(), "", None, p).unwrap();
    let content = vec![7u8; 30_000];
    encode.write_file("f", &content).unwrap();
    let bytes = encode.into_inner();
    let mut decode = Decode::new(bytes, None, 1024).unwrap();
    decode.read_path().unwrap().unwrap();
    let mut body: Vec<u8> = Vec::new();
    decode.read_file(&mut body).unwrap();
    assert_eq!(body, content);
}

#[test]
fn truncated_encrypted_path_fails_with_io() {
    let mut encode = encrypted_encoder("", "pw");
    encode.write_directory("d").unwrap();
    let mut bytes = encode.into_inner();
    // Preamble (32 bytes), type tag, 2-byte length, then a 17-byte
    // ciphertext: cut inside the ciphertext.
    bytes.truncate(32 + 1 + 2 + 5);
    let mut decode = Decode::new(bytes, Some("pw"), DEFAULT_BUF_SIZE).unwrap();
    assert_eq!(decode.read_path().unwrap_err(), Error::IO);
}

#[test]
fn truncated_encrypted_body_fails_with_io() {
    let content: Vec<u8> = (0u32..10_000).map(|i| (i * 3 % 256) as u8).collect();
    let mut encode = encrypted_encoder("", "pw");
    encode.write_file("f", &content).unwrap();
    let mut bytes = encode.into_inner();
    // The archive ends with: ...ciphertext, a 12-byte nonce, and the
    // 2-byte terminator. Cut inside the last ciphertext.
    let cut = bytes.len() - 20;
    bytes.truncate(cut);
    let mut decode = Decode::new(bytes, Some("pw"), DEFAULT_BUF_SIZE).unwrap();
    decode.read_path().unwrap().unwrap();
    let mut body: Vec<u8> = Vec::new();
    assert_eq!(decode.read_file(&mut body).unwrap_err(), Error::IO);
    assert!(body.is_empty());
}

#[test]
fn truncated_nonce_fails_with_io() {
    let content = vec![5u8; 4_000];
    let mut encode = encrypted_encoder("", "pw");
    encode.write_file("f", &content).unwrap();
    let mut bytes = encode.into_inner();
    // Cut inside the last nonce (it sits just before the terminator).
    let cut = bytes.len() - 2 - 5;
    bytes.truncate(cut);
    let mut decode = Decode::new(bytes, Some("pw"), DEFAULT_BUF_SIZE).unwrap();
    decode.read_path().unwrap().unwrap();
    let mut body: Vec<u8> = Vec::new();
    assert_eq!(decode.read_file(&mut body).unwrap_err(), Error::IO);
}

#[test]
fn missing_terminator_at_end_reads_as_clean_end() {
    let content = vec![9u8; 4_000];
    let mut encode = encrypted_encoder("", "pw");
    encode.write_file("f", &content).unwrap();
    let mut bytes = encode.into_inner();
    // Drop only the 2-byte terminator: the body now ends exactly at
    // the buffer's end, before any byte of a further chunk.
    let cut = bytes.len() - 2;
    bytes.truncate(cut);
    let mut decode = Decode::new(bytes, Some("pw"), DEFAULT_BUF_SIZE).unwrap();
    decode.read_path().unwrap().unwrap();
    let mut body: Vec<u8> = Vec::new();
    decode.read_file(&mut body).unwrap();
    assert_eq!(body, content);
}
