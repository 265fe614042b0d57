use vac_integrity::buffer::{DataBuffer, DATA_BUFFER_DWORDS};
use vac_integrity::crc32::{crc32, crc32_bytes};
use vac_integrity::hash::{vac_hash, vac_hash_str};
use vac_integrity::ice::IceKey;
use vac_integrity::md5::md5;
use vac_integrity::module::{ScanError, ScanReport};
use vac_integrity::xstring::XorString;

fn hex(bytes: &[u8]) -> String {
    let mut s = String::new();
    for b in bytes {
        s.push_str(&format!("{:02x}", b));
    }
    s
}

#[test]
fn test_crc32() {
    let hash = crc32_bytes(b"hello world");
    assert_ne!(hash, 0, "CRC32 should not be zero");
    assert_eq!(hash, 0x2a98_fac9);
}

#[test]
fn crc32_exact_values() {
    assert_eq!(crc32(b"a", 0), 0x3367_2d19);
    assert_eq!(crc32(b"hello world", 0x45D7_1892), 0x6166_3589);
    // No data leaves the register unchanged.
    assert_eq!(crc32(b"", 7), 7);
}

#[test]
fn crc32_streams_over_concatenation() {
    let whole = crc32(b"hello world", 0);
    let first = crc32(b"hello ", 0);
    assert_eq!(crc32(b"world", first), whole);
}

#[test]
fn test_md5() {
    let hash = md5(b"hello world");
    assert_eq!(hash.len(), 16, "MD5 must be 16 bytes");
    assert_eq!(hex(&hash), "5eb63bbbe01eeed093cb22bb8f5acdc3");
}

#[test]
fn md5_known_vectors() {
    assert_eq!(hex(&md5(b"")), "d41d8cd98f00b204e9800998ecf8427e");
    assert_eq!(hex(&md5(b"abc")), "900150983cd24fb0d6963f7d28e17f72");
    // A full 64-byte block forces a second padding block.
    assert_eq!(hex(&md5(&[b'a'; 64])), "014842d480b571495a4a0363793f7367");
}

#[test]
fn test_vac_hash() {
    let h1 = vac_hash(b"test");
    let h2 = vac_hash(b"test");
    assert_eq!(h1, h2, "vac_hash must be deterministic");
    assert_ne!(h1, 0, "vac_hash should not be zero");
    assert_eq!(h1, 0x1636_6a72);
}

#[test]
fn vac_hash_folds_case_and_starts_from_seed() {
    assert_eq!(vac_hash(b"TEST"), vac_hash(b"test"));
    assert_eq!(vac_hash(b""), 0x45D7_1892);
    assert_eq!(vac_hash_str("hello"), 0xdc2a_7446);
    assert_eq!(vac_hash_str("Foo.DLL"), vac_hash_str("foo.dll"));
}

#[test]
fn test_ice() {
    let key = [0xDEu8; 16];
    let ice = IceKey::new(&key);

    let pt = b"HelloVAC";
    let ct = ice.encrypt(pt);
    assert_ne!(&ct[..], &pt[..], "ICE must change data");

    let decrypted = ice.decrypt(&ct);
    assert_eq!(&decrypted[..], &pt[..], "ICE round-trip must restore plaintext");
}

#[test]
fn ice_leaves_partial_block_and_round_trips_longer_data() {
    let ice = IceKey::new(&[0x01u8, 0x23, 0x45, 0x67, 0x89, 0xab, 0xcd, 0xef]);
    let pt: Vec<u8> = (0u8..21).collect();
    let ct = ice.encrypt(&pt);
    assert_eq!(ct.len(), pt.len());
    // The trailing 5 bytes (21 = 2 * 8 + 5) are copied unchanged.
    assert_eq!(&ct[16..], &pt[16..]);
    assert_ne!(&ct[..16], &pt[..16]);
    assert_eq!(ice.decrypt(&ct), pt);
    assert_eq!(ice.encrypt(&ice.decrypt(&pt)), pt);
}

#[test]
fn ice_blocks_are_enciphered_independently() {
    let ice = IceKey::new(&[0x5Au8; 16]);
    let a: Vec<u8> = (0u8..16).collect();
    let b: Vec<u8> = (100u8..111).collect();
    let ab = [a.clone(), b.clone()].concat();
    assert_eq!(ice.encrypt(&ab), [ice.encrypt(&a), ice.encrypt(&b)].concat());
    assert_eq!(ice.decrypt(&ab), [ice.decrypt(&a), ice.decrypt(&b)].concat());
}

#[test]
fn test_databuffer() {
    let mut buf = DataBuffer::new();
    assert_eq!(buf.cursor(), 0, "fresh buffer cursor at 0");

    buf.write_u32(42);
    assert_eq!(buf.cursor(), 1, "after one write, cursor at 1");

    buf.reset();
    assert_eq!(buf.cursor(), 0, "reset sets cursor to 0");

    for i in 0..2048 {
        buf.write_u32(i);
    }
    assert_eq!(buf.cursor(), 2048, "2048 writes fills buffer");
    buf.write_u32(9999);
    assert_eq!(buf.cursor(), 2048, "extra writes silently dropped");
    assert_eq!(buf.word(2047), 2047);
}

#[test]
fn databuffer_bytes_slices_and_cursor() {
    let mut buf = DataBuffer::new();
    assert_eq!(buf.size_in_bytes(), DATA_BUFFER_DWORDS * 4);
    buf.write_bytes(&[1, 2, 3, 4, 5]);
    assert_eq!(buf.cursor(), 2);
    assert_eq!(buf.word(0), 0x0403_0201);
    assert_eq!(buf.word(1), 0x0000_0005);
    let bytes = buf.as_bytes();
    assert_eq!(bytes.len(), 8192);
    assert_eq!(&bytes[..8], &[1, 2, 3, 4, 5, 0, 0, 0]);

    buf.set_cursor(5000);
    assert_eq!(buf.cursor(), 2048);
    buf.set_cursor(2046);
    buf.write_slice(&[7, 8, 9, 10]);
    assert_eq!(buf.cursor(), 2048);
    assert_eq!(buf.word(2046), 7);
    assert_eq!(buf.word(2047), 8);

    buf.reset();
    assert_eq!(buf.word(0), 0);
}

#[test]
fn databuffer_xor_twice_restores() {
    let mut buf = DataBuffer::new();
    buf.write_u32(0x1234_5678);
    buf.encrypt_xor(0xFFFF_0000);
    assert_eq!(buf.word(0), 0xEDCB_5678);
    assert_eq!(buf.word(1), 0xFFFF_0000);
    buf.encrypt_xor(0xFFFF_0000);
    assert_eq!(buf.word(0), 0x1234_5678);
    assert_eq!(buf.word(1), 0);
}

#[test]
fn xor_string_decodes_up_to_terminator() {
    let key = 0x5Au8;
    let enc = [b'v' ^ key, b'a' ^ key, b'c' ^ key, 0 ^ key];
    let s = XorString::new(enc, key);
    assert_eq!(s.as_str(), "vac");
    assert_eq!(s.as_bytes(), b"vac");
    let bad = XorString::new([0xFF ^ key, 0 ^ key], key);
    assert_eq!(bad.as_bytes(), &[0xFF]);
    assert_eq!(bad.as_str(), "");
}

#[test]
fn test_module() {
    let report = ScanReport::new(3);
    assert_eq!(report.module_id, 3);
    assert_eq!(report.error, ScanError::NoError);
    assert_eq!(report.data.cursor(), 0);
}
