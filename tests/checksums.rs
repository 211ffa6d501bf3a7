use bbcpr::checksum::{Adler32Checksum, CRC32Checksum, MD5Checksum};
use bbcpr::{create_checksum, Checksum, ChecksumType};

#[test]
fn crc32_of_check_string() {
    let mut c = CRC32Checksum::new();
    c.update(b"1234");
    c.update(b"56789");
    assert_eq!(c.name(), "CRC32");
    assert_eq!(c.finalize(), vec![0x26, 0x39, 0xf4, 0xcb]);
}

#[test]
fn adler32_of_wikipedia() {
    let mut c = Adler32Checksum::new();
    c.update(b"Wiki");
    c.update(b"pedia");
    assert_eq!(c.name(), "Adler32");
    assert_eq!(c.finalize(), vec![0x98, 0x03, 0xe6, 0x11, 0, 0, 0, 0]);
}

#[test]
fn md5_digests() {
    let c = MD5Checksum::new();
    assert_eq!(c.name(), "MD5");
    assert_eq!(
        c.finalize(),
        vec![0xd4, 0x1d, 0x8c, 0xd9, 0x8f, 0x00, 0xb2, 0x04, 0xe9, 0x80, 0x09, 0x98, 0xec, 0xf8, 0x42, 0x7e]
    );
    let mut c = MD5Checksum::new();
    c.update(b"a");
    c.update(b"bc");
    assert_eq!(
        c.finalize(),
        vec![0x90, 0x01, 0x50, 0x98, 0x3c, 0xd2, 0x4f, 0xb0, 0xd6, 0x96, 0x3f, 0x7d, 0x28, 0xe1, 0x7f, 0x72]
    );
}

#[test]
fn chosen_algorithm_is_used() {
    let mut c = create_checksum(ChecksumType::CRC32);
    c.update(b"123456789");
    assert_eq!(c.name(), "CRC32");
    assert_eq!(c.finalize(), vec![0x26, 0x39, 0xf4, 0xcb]);
    assert_eq!(create_checksum(ChecksumType::MD5).name(), "MD5");
    assert_eq!(create_checksum(ChecksumType::Adler32).finalize(), vec![1, 0, 0, 0, 0, 0, 0, 0]);
}

#[test]
fn chosen_algorithm_survives_updates() {
    let mut c = create_checksum(ChecksumType::MD5);
    c.update(b"ab");
    c.update(b"c");
    assert_eq!(c.name(), "MD5");
    assert_eq!(
        c.finalize(),
        vec![0x90, 0x01, 0x50, 0x98, 0x3c, 0xd2, 0x4f, 0xb0, 0xd6, 0x96, 0x3f, 0x7d, 0x28, 0xe1, 0x7f, 0x72]
    );
}
