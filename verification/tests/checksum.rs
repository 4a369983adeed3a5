//! The running 16-bit checksum: known values, incrementality, and
//! sensitivity to single-byte corruption under any seed.

use uboot_shell::crc::crc16_ccitt;

#[test]
fn known_check_value() {
    // the classic check value of this checksum over the nine digits
    assert_eq!(crc16_ccitt(0, b"123456789"), 0x31c3);
}

#[test]
fn empty_buffer_keeps_the_seed() {
    assert_eq!(crc16_ccitt(0, b""), 0);
    assert_eq!(crc16_ccitt(0xbeef, b""), 0xbeef);
}

#[test]
fn computable_incrementally() {
    let whole = crc16_ccitt(0, b"hello world");
    let part = crc16_ccitt(crc16_ccitt(0, b"hello "), b"world");
    assert_eq!(whole, part);
}

#[test]
fn flipping_one_byte_changes_the_checksum() {
    let seeds = [0u16, 1, 0x1d0f, 0xffff];
    let data = b"block payload under test".to_vec();
    for &seed in &seeds {
        let base = crc16_ccitt(seed, data.as_slice());
        for i in 0..data.len() {
            let mut corrupted = data.clone();
            corrupted[i] ^= 0x20;
            assert_ne!(
                base,
                crc16_ccitt(seed, corrupted.as_slice()),
                "corruption at {} under seed {} must show",
                i,
                seed
            );
        }
    }
}

#[test]
fn deterministic_pure_function() {
    let a = crc16_ccitt(7, b"same input");
    let b = crc16_ccitt(7, b"same input");
    assert_eq!(a, b);
}
