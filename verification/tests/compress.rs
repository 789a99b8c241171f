use base64::Engine;
use vaultkey::compress::{compress, compress_string, decompress, decompress_string};
use vaultkey::error::VaultError;

#[test]
fn compress_roundtrip_bytes() {
    let data = b"hello hello hello hello".to_vec();
    let c = compress(&data).unwrap();
    assert_ne!(c, data);
    assert_eq!(&c[0..2], &[0x1f, 0x8b]);
    assert_eq!(decompress(&c).unwrap(), data);
}

#[test]
fn compress_string_roundtrip() {
    let s = "secret: ünïcode ✓";
    let c = compress_string(s).unwrap();
    assert_ne!(c, s);
    assert_eq!(decompress_string(&c).unwrap(), s);
    assert_eq!(decompress_string(&compress_string("").unwrap()).unwrap(), "");
}

#[test]
fn decompress_errors() {
    assert!(matches!(decompress(b"not gzip"), Err(VaultError::Io(_))));
    match decompress_string("!!!") {
        Err(VaultError::Generic(m)) => assert!(m.starts_with("base64 decode error: ")),
        other => panic!("unexpected {:?}", other),
    }
    assert!(matches!(decompress_string("aGVsbG8="), Err(VaultError::Io(_))));
    let bad_utf8 = {
        let gz = compress(&[0xff, 0xfe]).unwrap();
        base64::engine::general_purpose::STANDARD.encode(gz)
    };
    match decompress_string(&bad_utf8) {
        Err(VaultError::Generic(m)) => assert!(m.starts_with("utf8 decode error: ")),
        other => panic!("unexpected {:?}", other),
    }
}
