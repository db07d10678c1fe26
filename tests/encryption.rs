use nanomites::jump_data::{JumpData, JumpType};
use nanomites::jump_data_table::{EncryptedJumpData, JDTErrorKind, RekkEncKey};

fn key(seed: u8) -> RekkEncKey {
    let mut k = [0u8; 32];
    for (i, b) in k.iter_mut().enumerate() {
        *b = seed.wrapping_mul(31).wrapping_add(i as u8);
    }
    RekkEncKey(k)
}

const IV: [u8; 16] = [9, 8, 7, 6, 5, 4, 3, 2, 1, 0, 11, 12, 13, 14, 15, 16];

#[test]
fn binary_form_is_fixed_width_little_endian() {
    let d = JumpData::new(JumpType::JumpEqual, 5, 2);
    assert_eq!(
        d.to_bytes(),
        vec![5, 0, 0, 0, 5, 0, 0, 0, 0, 0, 0, 0, 2, 0, 0, 0, 0, 0, 0, 0]
    );
    let n = JumpData::new(JumpType::JumpGreater, -3, 0x0102);
    assert_eq!(
        n.to_bytes(),
        vec![16, 0, 0, 0, 0xfd, 0xff, 0xff, 0xff, 0xff, 0xff, 0xff, 0xff, 2, 1, 0, 0, 0, 0, 0, 0]
    );
}

#[test]
fn binary_form_reads_back() {
    for d in [
        JumpData::new(JumpType::JumpEqual, 5, 2),
        JumpData::new(JumpType::JumpLess, -129, 6),
        JumpData::new(JumpType::NoCondition, isize::MIN, usize::MAX),
        JumpData::new(JumpType::JumpParity, isize::MAX, 0),
    ] {
        assert_eq!(JumpData::from_bytes(&d.to_bytes()), Some(d));
    }
    let mut long = JumpData::new(JumpType::JumpAbove, 7, 3).to_bytes();
    long.extend_from_slice(&[1, 2, 3]);
    assert_eq!(JumpData::from_bytes(&long), Some(JumpData::new(JumpType::JumpAbove, 7, 3)));
}

#[test]
fn binary_form_rejects_short_input_and_unknown_kinds() {
    let bytes = JumpData::new(JumpType::JumpEqual, 5, 2).to_bytes();
    assert_eq!(JumpData::from_bytes(&bytes[..19]), None);
    assert_eq!(JumpData::from_bytes(&[]), None);
    let mut bad = bytes.clone();
    bad[0] = 17;
    assert_eq!(JumpData::from_bytes(&bad), None);
}

#[test]
fn decrypt_inverts_encrypt() {
    for (i, d) in [
        JumpData::new(JumpType::JumpEqual, 5, 2),
        JumpData::new(JumpType::JumpNotOverflow, -1000, 6),
        JumpData::new(JumpType::JumpGreaterEqual, 1 << 40, 15),
    ]
    .iter()
    .enumerate()
    {
        let enc = d.encrypt(key(i as u8), &IV);
        assert_eq!(enc.data.len(), 32);
        assert_ne!(&enc.data[..20], &d.to_bytes()[..]);
        assert_eq!(enc.decrypt(&IV), Ok(*d));
    }
}

#[test]
fn encryption_is_deterministic_for_one_key() {
    let d = JumpData::new(JumpType::JumpBelow, 77, 2);
    assert_eq!(d.encrypt(key(1), &IV).data, d.encrypt(key(1), &IV).data);
}

#[test]
fn different_keys_give_different_ciphertexts() {
    let d = JumpData::new(JumpType::JumpEqual, 5, 2);
    let a = d.encrypt(key(1), &IV);
    let b = d.encrypt(key(2), &IV);
    assert_ne!(a.data, b.data);
}

#[test]
fn decrypt_with_wrong_key_or_damaged_data_is_corrupt() {
    let d = JumpData::new(JumpType::JumpEqual, 5, 2);
    let enc = d.encrypt(key(1), &IV);
    let wrong = EncryptedJumpData { key: key(2), data: enc.data.clone() };
    assert_eq!(wrong.decrypt(&IV).unwrap_err().kind, JDTErrorKind::DataCorrupt);
    let cut = EncryptedJumpData { key: key(1), data: enc.data[..31].to_vec() };
    assert_eq!(cut.decrypt(&IV).unwrap_err().kind, JDTErrorKind::DataCorrupt);
    let empty = EncryptedJumpData { key: key(1), data: Vec::new() };
    assert_eq!(empty.decrypt(&IV).unwrap_err().kind, JDTErrorKind::DataCorrupt);
}
