use vstd::prelude::*;

use crate::codec::{deserialize_triple, serialize_triple, triple_bytes, triple_of};
use crate::crypto::{aes256_cbc_encrypt, cbc_encrypt};
use crate::flags::Flags;
use crate::jump_data_table::{EncryptedJumpData, RekkEncKey};

verus! {

/// The condition under which a trapped branch is taken, in the order of the
/// x86 condition-code encoding (`NoCondition` is code 0, `JumpGreater` code 16).
#[derive(Copy, Clone, Debug, PartialEq, Eq, Structural)]
pub enum JumpType {
    /// The instruction doesn't have a condition code
    NoCondition,
    /// Overflow (`OF=1`)
    JumpOverflow,
    /// Not overflow (`OF=0`)
    JumpNotOverflow,
    /// Below (unsigned) (`CF=1`)
    JumpBelow,
    /// Above or equal (unsigned) (`CF=0`)
    JumpAboveEqual,
    /// Equal / zero (`ZF=1`)
    JumpEqual,
    /// Not equal / zero (`ZF=0`)
    JumpNotEqual,
    /// Below or equal (unsigned) (`CF=1 or ZF=1`)
    JumpBelowEqual,
    /// Above (unsigned) (`CF=0 and ZF=0`)
    JumpAbove,
    /// Signed (`SF=1`)
    JumpSigned,
    /// Not signed (`SF=0`)
    JumpNotSigned,
    /// Parity (`PF=1`)
    JumpParity,
    /// Not parity (`PF=0`)
    JumpNotParity,
    /// Less (signed) (`SF!=OF`)
    JumpLess,
    /// Greater than or equal (signed) (`SF=OF`)
    JumpGreaterEqual,
    /// Less than or equal (signed) (`ZF=1 or SF!=OF`)
    JumpLessEqual,
    /// Greater (signed) (`ZF=0 and SF=OF`)
    JumpGreater,
}

impl JumpType {
    /// The hardware condition code of this kind.
    pub open spec fn code_of(self) -> u8 {
        match self {
            JumpType::NoCondition => 0,
            JumpType::JumpOverflow => 1,
            JumpType::JumpNotOverflow => 2,
            JumpType::JumpBelow => 3,
            JumpType::JumpAboveEqual => 4,
            JumpType::JumpEqual => 5,
            JumpType::JumpNotEqual => 6,
            JumpType::JumpBelowEqual => 7,
            JumpType::JumpAbove => 8,
            JumpType::JumpSigned => 9,
            JumpType::JumpNotSigned => 10,
            JumpType::JumpParity => 11,
            JumpType::JumpNotParity => 12,
            JumpType::JumpLess => 13,
            JumpType::JumpGreaterEqual => 14,
            JumpType::JumpLessEqual => 15,
            JumpType::JumpGreater => 16,
        }
    }

    /// The kind whose condition code is `c`, if there is one.
    pub open spec fn of_code(c: u32) -> Option<JumpType> {
        if c == 0 {
            Some(JumpType::NoCondition)
        } else if c == 1 {
            Some(JumpType::JumpOverflow)
        } else if c == 2 {
            Some(JumpType::JumpNotOverflow)
        } else if c == 3 {
            Some(JumpType::JumpBelow)
        } else if c == 4 {
            Some(JumpType::JumpAboveEqual)
        } else if c == 5 {
            Some(JumpType::JumpEqual)
        } else if c == 6 {
            Some(JumpType::JumpNotEqual)
        } else if c == 7 {
            Some(JumpType::JumpBelowEqual)
        } else if c == 8 {
            Some(JumpType::JumpAbove)
        } else if c == 9 {
            Some(JumpType::JumpSigned)
        } else if c == 10 {
            Some(JumpType::JumpNotSigned)
        } else if c == 11 {
            Some(JumpType::JumpParity)
        } else if c == 12 {
            Some(JumpType::JumpNotParity)
        } else if c == 13 {
            Some(JumpType::JumpLess)
        } else if c == 14 {
            Some(JumpType::JumpGreaterEqual)
        } else if c == 15 {
            Some(JumpType::JumpLessEqual)
        } else if c == 16 {
            Some(JumpType::JumpGreater)
        } else {
            Option::None
        }
    }

    pub fn code(&self) -> (r: u8)
        ensures
            r == self.code_of(),
    {
        match self {
            JumpType::NoCondition => 0,
            JumpType::JumpOverflow => 1,
            JumpType::JumpNotOverflow => 2,
            JumpType::JumpBelow => 3,
            JumpType::JumpAboveEqual => 4,
            JumpType::JumpEqual => 5,
            JumpType::JumpNotEqual => 6,
            JumpType::JumpBelowEqual => 7,
            JumpType::JumpAbove => 8,
            JumpType::JumpSigned => 9,
            JumpType::JumpNotSigned => 10,
            JumpType::JumpParity => 11,
            JumpType::JumpNotParity => 12,
            JumpType::JumpLess => 13,
            JumpType::JumpGreaterEqual => 14,
            JumpType::JumpLessEqual => 15,
            JumpType::JumpGreater => 16,
        }
    }

    /// The kind with condition code `c`; `None` where no kind has that code.
    pub fn from_code(c: u32) -> (r: Option<JumpType>)
        ensures
            r == JumpType::of_code(c),
    {
        match c {
            0 => Some(JumpType::NoCondition),
            1 => Some(JumpType::JumpOverflow),
            2 => Some(JumpType::JumpNotOverflow),
            3 => Some(JumpType::JumpBelow),
            4 => Some(JumpType::JumpAboveEqual),
            5 => Some(JumpType::JumpEqual),
            6 => Some(JumpType::JumpNotEqual),
            7 => Some(JumpType::JumpBelowEqual),
            8 => Some(JumpType::JumpAbove),
            9 => Some(JumpType::JumpSigned),
            10 => Some(JumpType::JumpNotSigned),
            11 => Some(JumpType::JumpParity),
            12 => Some(JumpType::JumpNotParity),
            13 => Some(JumpType::JumpLess),
            14 => Some(JumpType::JumpGreaterEqual),
            15 => Some(JumpType::JumpLessEqual),
            16 => Some(JumpType::JumpGreater),
            _ => Option::None,
        }
    }
}

/// Whether a branch of kind `kind` is taken when the flags word is `eflags`.
pub open spec fn branch_taken(kind: JumpType, eflags: u64) -> bool {
    let cf = Flags::CarryFlag.is_set(eflags);
    let pf = Flags::ParityFlag.is_set(eflags);
    let zf = Flags::ZeroFlag.is_set(eflags);
    let sf = Flags::SignFlag.is_set(eflags);
    let of = Flags::OverflowFlag.is_set(eflags);
    match kind {
        JumpType::NoCondition => false,
        JumpType::JumpOverflow => of,
        JumpType::JumpNotOverflow => !of,
        JumpType::JumpBelow => cf,
        JumpType::JumpAboveEqual => !cf,
        JumpType::JumpEqual => zf,
        JumpType::JumpNotEqual => !zf,
        JumpType::JumpBelowEqual => cf || zf,
        JumpType::JumpAbove => !cf && !zf,
        JumpType::JumpSigned => sf,
        JumpType::JumpNotSigned => !sf,
        JumpType::JumpParity => pf,
        JumpType::JumpNotParity => !pf,
        JumpType::JumpLess => sf != of,
        JumpType::JumpGreaterEqual => sf == of,
        JumpType::JumpLessEqual => zf || sf != of,
        JumpType::JumpGreater => !zf && sf == of,
    }
}

/// Contains the necessary information to emulate the jump.
#[derive(Copy, Clone, Debug, PartialEq, Eq, Structural)]
pub struct JumpData {
    /// The type of jump.
    pub jump_type: JumpType,
    /// The displacement to jump to if the jump is true.
    pub j_true: isize,
    /// The displacement to jump to if the jump is false.
    pub j_false: usize,
}

impl JumpData {
    /// The displacement that resolving this branch under `eflags` yields.
    pub open spec fn ip_offset(self, eflags: u64) -> isize {
        if branch_taken(self.jump_type, eflags) {
            self.j_true
        } else {
            self.j_false as isize
        }
    }

    pub fn new(jump_type: JumpType, j_true: isize, j_false: usize) -> (r: JumpData)
        ensures
            r == (JumpData { jump_type, j_true, j_false }),
    {
        JumpData { jump_type, j_true, j_false }
    }

    /// The compact binary form: the kind's code as `u32`, then both
    /// displacements as 64-bit integers, little endian.
    pub open spec fn bytes(self) -> Seq<u8> {
        triple_bytes(self.jump_type.code_of() as u32, self.j_true as i64, self.j_false as u64)
    }

    /// The branch data that the binary form `s` holds, if any.
    pub open spec fn decoded(s: Seq<u8>) -> Option<JumpData> {
        match triple_of(s) {
            Some((c, t, f)) => match JumpType::of_code(c) {
                Some(k) => if isize::MIN <= t <= isize::MAX && f <= usize::MAX {
                    Some(JumpData { jump_type: k, j_true: t as isize, j_false: f as usize })
                } else {
                    Option::None
                },
                Option::None => Option::None,
            },
            Option::None => Option::None,
        }
    }

    /// Reading back the binary form of branch data gives the same data.
    pub proof fn lemma_bytes_round_trip(self)
        ensures
            JumpData::decoded(self.bytes()) == Some(self),
    {
        crate::codec::lemma_triple_round_trip(
            self.jump_type.code_of() as u32,
            self.j_true as i64,
            self.j_false as u64,
        );
    }

    pub fn to_bytes(&self) -> (r: Vec<u8>)
        ensures
            r@ == self.bytes(),
    {
        serialize_triple(self.jump_type.code() as u32, self.j_true as i64, self.j_false as u64)
    }

    pub fn from_bytes(bytes: &[u8]) -> (r: Option<JumpData>)
        ensures
            r == JumpData::decoded(bytes@),
    {
        match deserialize_triple(bytes) {
            Some((c, t, f)) => match JumpType::from_code(c) {
                Some(k) => if isize::MIN as i64 <= t && t <= isize::MAX as i64 && f <= usize::MAX as u64 {
                    Some(JumpData { jump_type: k, j_true: t as isize, j_false: f as usize })
                } else {
                    Option::None
                },
                Option::None => Option::None,
            },
            Option::None => Option::None,
        }
    }

    /// Encrypts the binary form with AES-256-CBC under `key` and `iv`.
    pub fn encrypt(&self, key: RekkEncKey, iv: &[u8; 16]) -> (r: EncryptedJumpData)
        ensures
            r.key == key,
            r.data@ == aes256_cbc_encrypt(key.0@, iv@, self.bytes()),
            r.data@.len() == 32,
    {
        proof {
            crate::codec::lemma_triple_round_trip(
                self.jump_type.code_of() as u32,
                self.j_true as i64,
                self.j_false as u64,
            );
        }
        let plain = self.to_bytes();
        let data = cbc_encrypt(&key.0, iv, plain.as_slice());
        EncryptedJumpData { key, data }
    }

    pub fn get_ip_offset(&self, eflags: u64) -> (r: isize)
        requires
            self.jump_type != JumpType::NoCondition,
        ensures
            r == self.ip_offset(eflags),
    {
        let flag_to_check: (Flags, bool) = match self.jump_type {
            JumpType::JumpOverflow => (Flags::OverflowFlag, true),
            JumpType::JumpNotOverflow => (Flags::OverflowFlag, false),
            JumpType::JumpBelow => (Flags::CarryFlag, true),
            JumpType::JumpAboveEqual => (Flags::CarryFlag, false),
            JumpType::JumpEqual => (Flags::ZeroFlag, true),
            JumpType::JumpNotEqual => (Flags::ZeroFlag, false),
            JumpType::JumpSigned => (Flags::SignFlag, true),
            JumpType::JumpNotSigned => (Flags::SignFlag, false),
            JumpType::JumpParity => (Flags::ParityFlag, true),
            JumpType::JumpNotParity => (Flags::ParityFlag, false),
            _ => {
                let cf = Flags::CarryFlag.get_flag(eflags);
                let zf = Flags::ZeroFlag.get_flag(eflags);
                let sf = Flags::SignFlag.get_flag(eflags);
                let of = Flags::OverflowFlag.get_flag(eflags);
                let taken = match self.jump_type {
                    JumpType::JumpBelowEqual => cf || zf,
                    JumpType::JumpAbove => !cf && !zf,
                    JumpType::JumpLess => sf != of,
                    JumpType::JumpGreaterEqual => sf == of,
                    JumpType::JumpLessEqual => zf || sf != of,
                    _ => !zf && sf == of,
                };
                return if taken {
                    self.j_true
                } else {
                    self.j_false as isize
                };
            },
        };
        if flag_to_check.0.get_flag(eflags) == flag_to_check.1 {
            self.j_true
        } else {
            self.j_false as isize
        }
    }
}

} // verus!
