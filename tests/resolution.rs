use nanomites::flags::Flags;
use nanomites::jump_data::{JumpData, JumpType};

const CF: u64 = 0x1;
const PF: u64 = 0x4;
const ZF: u64 = 0x40;
const SF: u64 = 0x80;
const OF: u64 = 0x800;

const ALL_KINDS: [JumpType; 16] = [
    JumpType::JumpOverflow,
    JumpType::JumpNotOverflow,
    JumpType::JumpBelow,
    JumpType::JumpAboveEqual,
    JumpType::JumpEqual,
    JumpType::JumpNotEqual,
    JumpType::JumpBelowEqual,
    JumpType::JumpAbove,
    JumpType::JumpSigned,
    JumpType::JumpNotSigned,
    JumpType::JumpParity,
    JumpType::JumpNotParity,
    JumpType::JumpLess,
    JumpType::JumpGreaterEqual,
    JumpType::JumpLessEqual,
    JumpType::JumpGreater,
];

fn expected_taken(kind: JumpType, cf: bool, pf: bool, zf: bool, sf: bool, of: bool) -> bool {
    match kind {
        JumpType::JumpOverflow => of,
        JumpType::JumpNotOverflow => !of,
        JumpType::JumpBelow => cf,
        JumpType::JumpAboveEqual => !cf,
        JumpType::JumpEqual => zf,
        JumpType::JumpNotEqual => !zf,
        JumpType::JumpBelowEqual => cf || zf,
        JumpType::JumpAbove => !cf && !zf,
        JumpType::JumpSigned => sf,
        JumpType::JumpNotSigned => !sf,
        JumpType::JumpParity => pf,
        JumpType::JumpNotParity => !pf,
        JumpType::JumpLess => sf != of,
        JumpType::JumpGreaterEqual => sf == of,
        JumpType::JumpLessEqual => zf || sf != of,
        JumpType::JumpGreater => !zf && sf == of,
        JumpType::NoCondition => unreachable!(),
    }
}

#[test]
fn get_flag_reads_each_bit() {
    let flags = [
        (Flags::CarryFlag, 0x1u64),
        (Flags::ParityFlag, 0x4),
        (Flags::AdjustFlag, 0x10),
        (Flags::ZeroFlag, 0x40),
        (Flags::SignFlag, 0x80),
        (Flags::TrapFlag, 0x100),
        (Flags::InterruptEnableFlag, 0x200),
        (Flags::DirectionFlag, 0x400),
        (Flags::OverflowFlag, 0x800),
    ];
    for (flag, bit) in flags.iter() {
        assert!(flag.get_flag(*bit));
        assert!(flag.get_flag(u64::MAX));
        assert!(!flag.get_flag(0));
        assert!(!flag.get_flag(!*bit));
        assert_eq!(flag.bit(), *bit);
    }
}

#[test]
fn resolve_matches_condition_table_for_every_flag_combination() {
    for kind in ALL_KINDS.iter() {
        let data = JumpData::new(*kind, -40, 6);
        for bits in 0u32..32 {
            let cf = bits & 1 != 0;
            let pf = bits & 2 != 0;
            let zf = bits & 4 != 0;
            let sf = bits & 8 != 0;
            let of = bits & 16 != 0;
            let mut eflags = 0x202u64;
            if cf {
                eflags |= CF;
            }
            if pf {
                eflags |= PF;
            }
            if zf {
                eflags |= ZF;
            }
            if sf {
                eflags |= SF;
            }
            if of {
                eflags |= OF;
            }
            let want = if expected_taken(*kind, cf, pf, zf, sf, of) { -40 } else { 6 };
            assert_eq!(data.get_ip_offset(eflags), want, "{:?} with flags {:#x}", kind, eflags);
        }
    }
}

#[test]
fn jz_scenario_resolves_on_zero_flag() {
    let data = JumpData::new(JumpType::JumpEqual, 5, 2);
    assert_eq!(data.get_ip_offset(ZF), 5);
    assert_eq!(data.get_ip_offset(0), 2);
    assert_eq!(data.get_ip_offset(CF | SF | OF | PF), 2);
}

#[test]
fn condition_codes_follow_the_hardware_encoding() {
    for c in 0u32..=16 {
        let kind = JumpType::from_code(c).unwrap();
        assert_eq!(kind.code() as u32, c);
    }
    assert_eq!(JumpType::from_code(0), Some(JumpType::NoCondition));
    assert_eq!(JumpType::from_code(5), Some(JumpType::JumpEqual));
    assert_eq!(JumpType::from_code(16), Some(JumpType::JumpGreater));
    assert_eq!(JumpType::from_code(17), None);
    assert_eq!(JumpType::from_code(u32::MAX), None);
}

#[test]
fn fall_through_length_is_returned_as_a_signed_displacement() {
    let data = JumpData::new(JumpType::JumpEqual, 5, usize::MAX);
    assert_eq!(data.get_ip_offset(0), -1);
    assert_eq!(data.get_ip_offset(ZF), 5);
}
