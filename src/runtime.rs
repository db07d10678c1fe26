//! The decisions of the debug loop that drives a patched program: what to do
//! with each event the traced process raises. Launching the process, waiting
//! for events and reading or writing its registers are the caller's part.
use vstd::prelude::*;

use crate::jump_data::JumpType;
use crate::jump_data_table::{lookup, EncryptedJumpData, JumpDataTable};

verus! {

/// What the traced process did.
#[derive(Copy, Clone, Debug, PartialEq, Eq, Structural)]
pub enum DebugEvent {
    /// The process has exited.
    Exited,
    /// A trap opcode was executed; `ip` is the instruction pointer after it
    /// and `flags` the flags register.
    Breakpoint { ip: u64, flags: u64 },
    /// An illegal instruction at `ip`.
    IllegalInstruction { ip: u64 },
    /// An access violation at `ip`.
    AccessViolation { ip: u64 },
    /// Any other event.
    Other,
}

/// What the debug loop must do next.
#[derive(Copy, Clone, Debug, PartialEq, Eq, Structural)]
pub enum DebugAction {
    /// Resume the process as it is.
    Continue,
    /// Write `ip` to the instruction pointer, then resume.
    SetIpAndContinue { ip: u64 },
    /// Find the image base of the process, hand it to the session, and
    /// deliver the same event again.
    QueryImageBase,
    /// The process faulted at `ip`: report it and stop servicing the process.
    Fatal { ip: u64 },
    /// The process is gone: leave the loop.
    Stop,
}

/// Where the session stands.
#[derive(Copy, Clone, Debug, PartialEq, Eq, Structural)]
pub enum SessionState {
    /// The first stop, raised by process creation, has not come yet.
    AwaitingInitialStop,
    /// Traps are being serviced.
    Running,
    /// The loop is over.
    Exited,
}

/// One traced process: its branch table, and the image base once known.
pub struct DebugSession {
    pub state: SessionState,
    pub image_base: Option<u64>,
    pub table: JumpDataTable,
}

/// `x` reduced to 64 bits.
pub open spec fn wrap64(x: int) -> u64 {
    (x % 0x1_0000_0000_0000_0000) as u64
}

/// Where execution continues after the trap whose instruction pointer is
/// `ip`: the trap stands at `ip - 1`, its table key is that address less the
/// image base. A branch found in the table is resolved under `flags`; where
/// no usable entry exists the process goes on one byte past the trap.
pub open spec fn trap_target(
    entries: Map<u64, EncryptedJumpData>,
    iv: Seq<u8>,
    base: u64,
    ip: u64,
    flags: u64,
) -> u64 {
    let trap = ip - 1;
    match lookup(entries, iv, wrap64(trap - base)) {
        Ok(d) => if d.jump_type != JumpType::NoCondition {
            wrap64(trap + d.ip_offset(flags))
        } else {
            wrap64(trap + 1)
        },
        Err(_) => wrap64(trap + 1),
    }
}

/// The next state and the action for `ev`.
pub open spec fn step(
    state: SessionState,
    image_base: Option<u64>,
    entries: Map<u64, EncryptedJumpData>,
    iv: Seq<u8>,
    ev: DebugEvent,
) -> (SessionState, DebugAction) {
    match state {
        SessionState::Exited => (SessionState::Exited, DebugAction::Stop),
        _ => match ev {
            DebugEvent::Exited => (SessionState::Exited, DebugAction::Stop),
            DebugEvent::IllegalInstruction { ip } => (SessionState::Exited, DebugAction::Fatal { ip }),
            DebugEvent::AccessViolation { ip } => (SessionState::Exited, DebugAction::Fatal { ip }),
            DebugEvent::Other => (state, DebugAction::Continue),
            DebugEvent::Breakpoint { ip, flags } => if state == SessionState::AwaitingInitialStop {
                (SessionState::Running, DebugAction::Continue)
            } else {
                match image_base {
                    None => (state, DebugAction::QueryImageBase),
                    Some(base) => (
                        state,
                        DebugAction::SetIpAndContinue { ip: trap_target(entries, iv, base, ip, flags) },
                    ),
                }
            },
        },
    }
}

/// `a + b` reduced to 64 bits, for `b` of either sign.
fn add_wrapping(a: u64, b: i128) -> (r: u64)
    requires
        -0x1_0000_0000_0000_0000 < b < 0x1_0000_0000_0000_0000,
    ensures
        r == wrap64(a + b),
{
    let t: i128 = a as i128 + b;
    if t < 0 {
        (t + 0x1_0000_0000_0000_0000) as u64
    } else if t >= 0x1_0000_0000_0000_0000 {
        (t - 0x1_0000_0000_0000_0000) as u64
    } else {
        t as u64
    }
}

impl DebugSession {
    pub fn new(table: JumpDataTable) -> (r: DebugSession)
        ensures
            r.state == SessionState::AwaitingInitialStop,
            r.image_base is None,
            r.table.table@ == table.table@,
            r.table.iv == table.iv,
    {
        DebugSession { state: SessionState::AwaitingInitialStop, image_base: None, table }
    }

    /// Records the image base of the traced process; it is kept for the
    /// rest of the session.
    pub fn set_image_base(&mut self, base: u64)
        ensures
            final(self).image_base == Some(base),
            final(self).state == old(self).state,
            final(self).table.table@ == old(self).table.table@,
            final(self).table.iv == old(self).table.iv,
    {
        self.image_base = Some(base);
    }

    /// Where execution continues after the trap at `ip - 1`.
    pub fn resolve_trap(&self, base: u64, ip: u64, flags: u64) -> (r: u64)
        ensures
            r == trap_target(self.table.table@, self.table.iv@, base, ip, flags),
    {
        let trap = add_wrapping(ip, -1);
        let key = add_wrapping(trap, -(base as i128));
        match self.table.get_jump_data(key) {
            Ok(d) => if d.jump_type != JumpType::NoCondition {
                let offset = d.get_ip_offset(flags);
                add_wrapping(trap, offset as i128)
            } else {
                add_wrapping(trap, 1)
            },
            Err(_) => add_wrapping(trap, 1),
        }
    }

    /// Handles one event of the traced process.
    pub fn on_event(&mut self, ev: DebugEvent) -> (r: DebugAction)
        ensures
            (final(self).state, r) == step(
                old(self).state,
                old(self).image_base,
                old(self).table.table@,
                old(self).table.iv@,
                ev,
            ),
            final(self).image_base == old(self).image_base,
            final(self).table.table@ == old(self).table.table@,
            final(self).table.iv == old(self).table.iv,
    {
        if self.state == SessionState::Exited {
            return DebugAction::Stop;
        }
        match ev {
            DebugEvent::Exited => {
                self.state = SessionState::Exited;
                DebugAction::Stop
            },
            DebugEvent::IllegalInstruction { ip } => {
                self.state = SessionState::Exited;
                DebugAction::Fatal { ip }
            },
            DebugEvent::AccessViolation { ip } => {
                self.state = SessionState::Exited;
                DebugAction::Fatal { ip }
            },
            DebugEvent::Other => DebugAction::Continue,
            DebugEvent::Breakpoint { ip, flags } => {
                if self.state == SessionState::AwaitingInitialStop {
                    self.state = SessionState::Running;
                    return DebugAction::Continue;
                }
                match self.image_base {
                    None => DebugAction::QueryImageBase,
                    Some(base) => DebugAction::SetIpAndContinue {
                        ip: self.resolve_trap(base, ip, flags),
                    },
                }
            },
        }
    }
}

} // verus!
