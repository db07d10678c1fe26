use vstd::prelude::*;

verus! {

/// The bits of the x86 EFLAGS/RFLAGS register that branch conditions read.
#[derive(Copy, Clone, Debug, PartialEq, Eq, Structural)]
pub enum Flags {
    CarryFlag,
    ParityFlag,
    AdjustFlag,
    ZeroFlag,
    SignFlag,
    TrapFlag,
    InterruptEnableFlag,
    DirectionFlag,
    OverflowFlag,
}

impl Flags {
    /// The mask of this flag within the flags word.
    pub open spec fn mask(self) -> u64 {
        match self {
            Flags::CarryFlag => 0x0001,
            Flags::ParityFlag => 0x0004,
            Flags::AdjustFlag => 0x0010,
            Flags::ZeroFlag => 0x0040,
            Flags::SignFlag => 0x0080,
            Flags::TrapFlag => 0x0100,
            Flags::InterruptEnableFlag => 0x0200,
            Flags::DirectionFlag => 0x0400,
            Flags::OverflowFlag => 0x0800,
        }
    }

    /// Whether this flag is set in `eflags`.
    pub open spec fn is_set(self, eflags: u64) -> bool {
        eflags & self.mask() != 0
    }

    pub fn bit(&self) -> (r: u64)
        ensures
            r == self.mask(),
    {
        match self {
            Flags::CarryFlag => 0x0001,
            Flags::ParityFlag => 0x0004,
            Flags::AdjustFlag => 0x0010,
            Flags::ZeroFlag => 0x0040,
            Flags::SignFlag => 0x0080,
            Flags::TrapFlag => 0x0100,
            Flags::InterruptEnableFlag => 0x0200,
            Flags::DirectionFlag => 0x0400,
            Flags::OverflowFlag => 0x0800,
        }
    }

    pub fn get_flag(&self, eflags: u64) -> (r: bool)
        ensures
            r == self.is_set(eflags),
    {
        eflags & self.bit() != 0
    }
}

} // verus!
