use nanomites::jump_data::{JumpData, JumpType};
use nanomites::jump_data_table::{JumpDataTable, RekkEncKey};
use nanomites::runtime::{DebugAction, DebugEvent, DebugSession, SessionState};

const BASE: u64 = 0x5555_0000_0000;

fn running_session() -> DebugSession {
    let mut t = JumpDataTable::new();
    t.iv = [6u8; 16];
    let jz = JumpData::new(JumpType::JumpEqual, 5, 2);
    let jl = JumpData::new(JumpType::JumpLess, -0x20, 6);
    t.table.insert(0x1000, jz.encrypt(RekkEncKey([1u8; 32]), &t.iv));
    t.table.insert(0x2000, jl.encrypt(RekkEncKey([2u8; 32]), &t.iv));
    let mut s = DebugSession::new(t);
    assert_eq!(s.on_event(DebugEvent::Breakpoint { ip: 1, flags: 0 }), DebugAction::Continue);
    s.set_image_base(BASE);
    s
}

#[test]
fn first_stop_is_swallowed() {
    let mut s = DebugSession::new(JumpDataTable::new());
    assert_eq!(s.state, SessionState::AwaitingInitialStop);
    assert_eq!(s.on_event(DebugEvent::Other), DebugAction::Continue);
    assert_eq!(s.state, SessionState::AwaitingInitialStop);
    assert_eq!(s.on_event(DebugEvent::Breakpoint { ip: 0x77, flags: 0 }), DebugAction::Continue);
    assert_eq!(s.state, SessionState::Running);
}

#[test]
fn image_base_is_asked_for_once() {
    let mut s = DebugSession::new(JumpDataTable::new());
    s.on_event(DebugEvent::Breakpoint { ip: 0x77, flags: 0 });
    let ev = DebugEvent::Breakpoint { ip: BASE + 0x1001, flags: 0 };
    assert_eq!(s.on_event(ev), DebugAction::QueryImageBase);
    s.set_image_base(BASE);
    assert_eq!(s.image_base, Some(BASE));
    assert_eq!(s.on_event(ev), DebugAction::SetIpAndContinue { ip: BASE + 0x1001 });
}

#[test]
fn unknown_trap_moves_one_byte_past_it() {
    let mut s = running_session();
    let trap = BASE + 0x1800;
    let ev = DebugEvent::Breakpoint { ip: trap + 1, flags: 0x40 };
    assert_eq!(s.on_event(ev), DebugAction::SetIpAndContinue { ip: trap + 1 });
    assert_eq!(s.state, SessionState::Running);
}

#[test]
fn known_trap_follows_the_flags() {
    let mut s = running_session();
    let trap = BASE + 0x1000;
    assert_eq!(
        s.on_event(DebugEvent::Breakpoint { ip: trap + 1, flags: 0x40 }),
        DebugAction::SetIpAndContinue { ip: trap + 5 }
    );
    assert_eq!(
        s.on_event(DebugEvent::Breakpoint { ip: trap + 1, flags: 0 }),
        DebugAction::SetIpAndContinue { ip: trap + 2 }
    );
    let trap = BASE + 0x2000;
    assert_eq!(
        s.on_event(DebugEvent::Breakpoint { ip: trap + 1, flags: 0x80 }),
        DebugAction::SetIpAndContinue { ip: trap - 0x20 }
    );
    assert_eq!(s.resolve_trap(BASE, trap + 1, 0x880), trap + 6);
}

#[test]
fn faults_end_the_session() {
    let mut s = running_session();
    assert_eq!(s.on_event(DebugEvent::IllegalInstruction { ip: 0x42 }), DebugAction::Fatal { ip: 0x42 });
    assert_eq!(s.state, SessionState::Exited);
    assert_eq!(s.on_event(DebugEvent::Other), DebugAction::Stop);
    let mut s = running_session();
    assert_eq!(s.on_event(DebugEvent::AccessViolation { ip: 0x43 }), DebugAction::Fatal { ip: 0x43 });
}

#[test]
fn exit_ends_the_session() {
    let mut s = running_session();
    assert_eq!(s.on_event(DebugEvent::Other), DebugAction::Continue);
    assert_eq!(s.on_event(DebugEvent::Exited), DebugAction::Stop);
    assert_eq!(s.state, SessionState::Exited);
    assert_eq!(s.on_event(DebugEvent::Breakpoint { ip: 5, flags: 0 }), DebugAction::Stop);
}

#[test]
fn damaged_entry_is_skipped_like_an_unknown_one() {
    let mut s = running_session();
    s.table.table.get_mut(&0x1000).unwrap().data.truncate(16);
    let trap = BASE + 0x1000;
    assert_eq!(
        s.on_event(DebugEvent::Breakpoint { ip: trap + 1, flags: 0x40 }),
        DebugAction::SetIpAndContinue { ip: trap + 1 }
    );
}
