use nanomites::code_section::CodeSection;
use nanomites::infestor::{infest, BuildError};
use nanomites::jump_data::{JumpData, JumpType};

fn section(vaddr: u64, base: u64, bytes: &[u8]) -> CodeSection {
    CodeSection::new(0x400, vaddr, base, bytes.to_vec(), ".text".to_string())
}

#[test]
fn jz_becomes_trap_with_branch_data() {
    // jz +3; five nops
    let code = [0x74, 0x03, 0x90, 0x90, 0x90, 0x90, 0x90];
    let mut s = section(0x1000, 0, &code);
    let table = infest(&mut s, 64).unwrap();
    assert_eq!(table.len(), 1);
    assert_eq!(table[&0x1000], JumpData::new(JumpType::JumpEqual, 5, 2));
    let out = s.data_ref();
    assert_eq!(out.len(), code.len());
    assert_eq!(out[0], 0xCC);
    assert_eq!(&out[2..], &code[2..]);
    let d = table[&0x1000];
    assert_eq!(d.get_ip_offset(0x40), 5);
    assert_eq!(d.get_ip_offset(0), 2);
}

#[test]
fn other_instructions_are_left_byte_for_byte() {
    // mov eax,1; jmp +0; call +0; ret; nop
    let code = [
        0xb8, 0x01, 0x00, 0x00, 0x00, 0xeb, 0x00, 0xe8, 0x00, 0x00, 0x00, 0x00, 0xc3, 0x90,
    ];
    let mut s = section(0x2000, 0, &code);
    let table = infest(&mut s, 64).unwrap();
    assert!(table.is_empty());
    assert_eq!(s.data_ref(), &code[..]);
}

#[test]
fn mixed_section_keeps_its_length() {
    // nop; jne rel32 +0x10; mov eax,2; jl -4; ret
    let code = [
        0x90, 0x0f, 0x85, 0x10, 0x00, 0x00, 0x00, 0xb8, 0x02, 0x00, 0x00, 0x00, 0x7c, 0xfc, 0xc3,
    ];
    let mut s = section(0x3000, 0, &code);
    let table = infest(&mut s, 64).unwrap();
    let out = s.data_ref();
    assert_eq!(out.len(), code.len());
    assert_eq!(out[0], 0x90);
    assert_eq!(out[1], 0xCC);
    assert_eq!(&out[7..12], &code[7..12]);
    assert_eq!(out[12], 0xCC);
    assert_eq!(out[14], 0xc3);
    assert_eq!(table.len(), 2);
    assert_eq!(table[&0x3001], JumpData::new(JumpType::JumpNotEqual, 0x16, 6));
    assert_eq!(table[&0x300c], JumpData::new(JumpType::JumpLess, -2, 2));
}

#[test]
fn trapped_entries_fall_through_by_length_and_jump_by_nonzero() {
    let code = [0x0f, 0x8e, 0x00, 0x01, 0x00, 0x00, 0x73, 0x7f, 0x78, 0x80];
    let mut s = section(0x5000, 0, &code);
    let table = infest(&mut s, 64).unwrap();
    assert_eq!(table.len(), 3);
    for (addr, len) in [(0x5000u64, 6usize), (0x5006, 2), (0x5008, 2)] {
        let d = table[&addr];
        assert_eq!(d.j_false, len);
        assert_ne!(d.j_true, 0);
    }
    assert_eq!(table[&0x5000], JumpData::new(JumpType::JumpLessEqual, 0x106, 6));
    assert_eq!(table[&0x5006], JumpData::new(JumpType::JumpAboveEqual, 0x81, 2));
    assert_eq!(table[&0x5008], JumpData::new(JumpType::JumpSigned, -126, 2));
}

#[test]
fn keys_are_relative_to_the_image_base() {
    let code = [0x90, 0x74, 0x10];
    let mut s = section(0x1_4000_1000, 0x1_4000_0000, &code);
    let table = infest(&mut s, 64).unwrap();
    assert_eq!(table.len(), 1);
    assert_eq!(table[&0x1001], JumpData::new(JumpType::JumpEqual, 0x12, 2));
}

#[test]
fn existing_trap_bytes_get_placeholder_entries() {
    // int3; mov eax,0xcc; nop
    let code = [0xcc, 0xb8, 0xcc, 0x00, 0x00, 0x00, 0x90];
    let mut s = section(0x6000, 0, &code);
    let table = infest(&mut s, 64).unwrap();
    assert_eq!(s.data_ref(), &code[..]);
    assert_eq!(table.len(), 2);
    assert_eq!(table[&0x6000], JumpData::new(JumpType::JumpParity, 100, 1000));
    assert_eq!(table[&0x6001], JumpData::new(JumpType::JumpParity, 100, 1000));
}

#[test]
fn thirty_two_bit_mode_patches_too() {
    let code = [0x72, 0x02, 0x90, 0x90];
    let mut s = section(0x401000, 0x400000, &code);
    let table = infest(&mut s, 32).unwrap();
    assert_eq!(table[&0x1000], JumpData::new(JumpType::JumpBelow, 4, 2));
    assert_eq!(s.data_ref()[0], 0xCC);
}

#[test]
fn truncated_instruction_fails_and_leaves_section() {
    let code = [0x90, 0x0f, 0x84, 0x00];
    let mut s = section(0x1000, 0, &code);
    assert_eq!(infest(&mut s, 64), Err(BuildError::Decode));
    assert_eq!(s.data_ref(), &code[..]);
}

#[test]
fn zero_displacement_fails_the_build() {
    // jz -2: the target is the branch itself
    let code = [0x74, 0xfe];
    let mut s = section(0x1000, 0, &code);
    assert_eq!(infest(&mut s, 64), Err(BuildError::Decode));
}

#[test]
fn branch_without_condition_code_fails_the_build() {
    // jrcxz +0 is a conditional branch without a condition code
    let code = [0xe3, 0x00];
    let mut s = section(0x1000, 0, &code);
    assert_eq!(infest(&mut s, 64), Err(BuildError::Decode));
}

#[test]
fn empty_section_gives_empty_table() {
    let mut s = section(0x1000, 0, &[]);
    assert!(infest(&mut s, 64).unwrap().is_empty());
    assert!(s.data_ref().is_empty());
}

#[test]
fn section_accessors_and_write_data() {
    let mut s = CodeSection::new(0x200, 0x1000, 0x10, vec![1, 2, 3, 4], "code".to_string());
    assert_eq!(s.file_offset(), 0x200);
    assert_eq!(s.vaddr(), 0x1000);
    assert_eq!(s.base(), 0x10);
    assert_eq!(s.name(), "code");
    s.write_data(&[9, 8]);
    assert_eq!(s.data_ref(), &[9, 8, 3, 4]);
    assert_eq!(s.into_data(), vec![9, 8, 3, 4]);
}

use nanomites::binary_parser::{compress_image, patch_sections, SectionHeader};

fn header(file_offset: u64, size: u64, vaddr: u64, executable: bool) -> SectionHeader {
    SectionHeader { file_offset, size, vaddr, base: 0, executable, name: "s".to_string() }
}

#[test]
fn image_patches_only_executable_sections() {
    // header bytes, a code section with jz, a data section holding 0x74 0x03
    let mut image = vec![0x7f, 0x45, 0x4c, 0x46, 0x74, 0x03, 0x90, 0x90, 0x90, 0x90, 0x90, 0x74, 0x03];
    let unpatched = image.clone();
    let headers = vec![header(4, 7, 0x1000, true), header(11, 2, 0x2000, false)];
    let tables = patch_sections(&mut image, &headers, 64).unwrap();
    assert_eq!(tables.len(), 2);
    assert_eq!(tables[0][&0x1000], JumpData::new(JumpType::JumpEqual, 5, 2));
    assert!(tables[1].is_empty());
    assert_eq!(image.len(), unpatched.len());
    assert_eq!(&image[..4], &unpatched[..4]);
    assert_eq!(image[4], 0xCC);
    assert_eq!(&image[6..], &unpatched[6..]);
}

#[test]
fn image_with_section_outside_file_is_rejected() {
    let mut image = vec![0x90; 8];
    let headers = vec![header(4, 8, 0x1000, true)];
    assert_eq!(patch_sections(&mut image, &headers, 64), Err(BuildError::Format));
    assert_eq!(image, vec![0x90; 8]);
    // a section outside the file that is not executable is ignored
    let headers = vec![header(4, 8, 0x1000, false)];
    assert_eq!(patch_sections(&mut image, &headers, 64).unwrap().len(), 1);
}

#[test]
fn image_with_overlapping_code_sections_is_rejected() {
    let mut image = vec![0x90; 8];
    let headers = vec![header(0, 4, 0x1000, true), header(3, 4, 0x2000, true)];
    assert_eq!(patch_sections(&mut image, &headers, 64), Err(BuildError::Format));
    let headers = vec![header(0, 4, 0x1000, true), header(4, 4, 0x2000, true)];
    assert_eq!(patch_sections(&mut image, &headers, 64).unwrap().len(), 2);
}

#[test]
fn image_with_undecodable_code_is_rejected() {
    let mut image = vec![0x90, 0x90, 0x0f, 0x84];
    let headers = vec![header(0, 4, 0x1000, true)];
    assert_eq!(patch_sections(&mut image, &headers, 64), Err(BuildError::Decode));
}

#[test]
fn compressed_image_decompresses_to_the_image() {
    let image: Vec<u8> = (0..200u32).map(|i| (i % 7) as u8).collect();
    let c = compress_image(&image).unwrap();
    assert_ne!(c, image);
    assert_eq!(snap::raw::Decoder::new().decompress_vec(&c).unwrap(), image);
}

#[test]
fn loop_without_condition_code_fails_the_build() {
    // loop +0
    let mut s = section(0x1000, 0, &[0xe2, 0x00]);
    assert_eq!(infest(&mut s, 64), Err(BuildError::Decode));
}
