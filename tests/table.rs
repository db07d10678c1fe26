use nanomites::jump_data::{JumpData, JumpType};
use nanomites::jump_data_table::{JDTErrorKind, JumpDataTable, RekkEncKey};

fn sample_table() -> JumpDataTable {
    let mut t = JumpDataTable::new();
    t.iv = [3u8; 16];
    let a = JumpData::new(JumpType::JumpEqual, 5, 2);
    let b = JumpData::new(JumpType::JumpLess, -20, 6);
    t.table.insert(0x1000, a.encrypt(RekkEncKey([1u8; 32]), &t.iv));
    t.table.insert(0x2040, b.encrypt(RekkEncKey([2u8; 32]), &t.iv));
    t
}

#[test]
fn new_table_is_empty_with_zero_iv() {
    let t = JumpDataTable::new();
    assert!(t.table.is_empty());
    assert_eq!(t.iv, [0u8; 16]);
}

#[test]
fn lookup_of_unpatched_address_is_not_found() {
    let t = sample_table();
    assert_eq!(t.get_jump_data(0x1001).unwrap_err().kind, JDTErrorKind::NotFound);
    assert_eq!(JumpDataTable::new().get_jump_data(0).unwrap_err().kind, JDTErrorKind::NotFound);
}

#[test]
fn lookup_decrypts_the_entry() {
    let t = sample_table();
    assert_eq!(t.get_jump_data(0x1000), Ok(JumpData::new(JumpType::JumpEqual, 5, 2)));
    assert_eq!(t.get_jump_data(0x2040), Ok(JumpData::new(JumpType::JumpLess, -20, 6)));
}

#[test]
fn lookup_of_damaged_entry_is_corrupt() {
    let mut t = sample_table();
    t.table.get_mut(&0x1000).unwrap().data[31] ^= 0x5a;
    assert_eq!(t.get_jump_data(0x1000).unwrap_err().kind, JDTErrorKind::DataCorrupt);
    let mut t = sample_table();
    t.iv = [4u8; 16];
    assert_eq!(t.get_jump_data(0x2040).unwrap_err().kind, JDTErrorKind::DataCorrupt);
}

#[test]
fn empty_table_bytes_are_count_then_iv() {
    let mut t = JumpDataTable::new();
    t.iv = [7u8; 16];
    let mut want = vec![0u8; 8];
    want.extend_from_slice(&[7u8; 16]);
    assert_eq!(t.to_bytes(), want);
}

#[test]
fn single_entry_table_bytes_layout() {
    let mut t = JumpDataTable::new();
    let e = JumpData::new(JumpType::JumpEqual, 5, 2).encrypt(RekkEncKey([1u8; 32]), &t.iv);
    let data = e.data.clone();
    t.table.insert(0x0102, e);
    let bytes = t.to_bytes();
    let mut want = vec![1u8, 0, 0, 0, 0, 0, 0, 0];
    want.extend_from_slice(&[2, 1, 0, 0, 0, 0, 0, 0]);
    want.extend_from_slice(&[1u8; 32]);
    want.extend_from_slice(&[32, 0, 0, 0, 0, 0, 0, 0]);
    want.extend_from_slice(&data);
    want.extend_from_slice(&[0u8; 16]);
    assert_eq!(bytes, want);
}

#[test]
fn table_bytes_read_back() {
    let t = sample_table();
    let back = JumpDataTable::from_bytes(&t.to_bytes()).unwrap();
    assert_eq!(back.iv, t.iv);
    assert_eq!(back.table.len(), 2);
    assert_eq!(back.get_jump_data(0x1000), Ok(JumpData::new(JumpType::JumpEqual, 5, 2)));
    assert_eq!(back.get_jump_data(0x2040), Ok(JumpData::new(JumpType::JumpLess, -20, 6)));
}

#[test]
fn truncated_table_bytes_are_corrupt() {
    let bytes = sample_table().to_bytes();
    let r = JumpDataTable::from_bytes(&bytes[..bytes.len() - 1]);
    assert_eq!(r.err().unwrap().kind, JDTErrorKind::DataCorrupt);
    assert_eq!(JumpDataTable::from_bytes(&[]).err().unwrap().kind, JDTErrorKind::DataCorrupt);
}

#[test]
fn compressed_table_reads_back() {
    let t = sample_table();
    let blob = t.to_compressed().unwrap();
    assert_ne!(blob, t.to_bytes());
    let back = JumpDataTable::from_compressed(&blob).unwrap();
    assert_eq!(back.get_jump_data(0x2040), Ok(JumpData::new(JumpType::JumpLess, -20, 6)));
}

#[test]
fn damaged_compressed_table_is_corrupt() {
    let r = JumpDataTable::from_compressed(&[0xff, 0xff, 0xff, 0xff, 0xff, 0x01]);
    assert_eq!(r.err().unwrap().kind, JDTErrorKind::DataCorrupt);
}

#[test]
fn table_bytes_with_trailing_bytes_read_back() {
    let t = sample_table();
    let mut bytes = t.to_bytes();
    bytes.extend_from_slice(&[0xAA; 5]);
    let back = JumpDataTable::from_bytes(&bytes).unwrap();
    assert_eq!(back.iv, t.iv);
    assert_eq!(back.get_jump_data(0x1000), Ok(JumpData::new(JumpType::JumpEqual, 5, 2)));
}
