//! The code-section patcher: every conditional branch becomes a trap opcode
//! followed by random filler of the same length, and its semantics go to a
//! side table keyed by the branch's address relative to the image base.
use vstd::prelude::*;

use std::collections::HashMap;

use iced_x86::{Decoder, DecoderError, DecoderOptions};

use crate::code_section::CodeSection;
use crate::crypto::random_bytes;
use crate::jump_data::{JumpData, JumpType};

verus! {

broadcast use vstd::std_specs::hash::group_hash_axioms;

/// The one-byte trap (`int3`) opcode.
pub const TRAP_OPCODE: u8 = 0xCC;

/// The decoder's flow-control class of a conditional branch.
pub const FLOW_CONDITIONAL_BRANCH: u32 = 3;

/// What the patcher needs of one decoded instruction.
#[derive(Copy, Clone, Debug, PartialEq, Eq, Structural)]
pub struct Decoded {
    /// Its length in bytes.
    pub len: usize,
    /// Its flow-control class, as the decoder numbers them.
    pub flow: u32,
    /// Its condition code (0 where it has none).
    pub condition: u32,
    /// The target of a near branch (0 for other instructions).
    pub target: u64,
}

/// Errors that stop a build: the artifact could not be made correctly.
#[derive(Copy, Clone, Debug, PartialEq, Eq, Structural)]
pub enum BuildError {
    /// An instruction did not decode, or a branch's condition data is unusable.
    Decode,
    /// Two sections claimed the same trap address.
    DuplicateAddress,
    /// The compressor refused its input.
    Compress,
    /// A section header points outside the file or the address space, or
    /// two executable sections share bytes of the file.
    Format,
}

/// What the x86 decoder makes of the front of `code`, in `bitness`-bit mode,
/// at address `ip`; `None` where it reports an error.
pub uninterp spec fn x86_decode(bitness: u32, code: Seq<u8>, ip: u64) -> Option<Decoded>;

/// Relies on iced_x86's `Decoder::with_ip` and `Decoder::decode`: one
/// instruction is decoded from the front of `code` at `ip`, and the result
/// depends on these and the mode alone. `with_ip` panics only for a bitness
/// other than 16, 32 or 64, or for a slice that ends in the last bytes of the
/// address space, where no allocation lies.
#[verifier::external_body]
fn decode_one(bitness: u32, code: &[u8], ip: u64) -> (r: Option<Decoded>)
    requires
        bitness == 32 || bitness == 64,
    ensures
        r == x86_decode(bitness, code@, ip),
{
    let mut decoder = Decoder::with_ip(bitness, code, ip, DecoderOptions::NONE);
    let instr = decoder.decode();
    match decoder.last_error() {
        DecoderError::None => Some(Decoded {
            len: instr.len(),
            flow: instr.flow_control() as u32,
            condition: instr.condition_code() as u32,
            target: instr.near_branch_target(),
        }),
        _ => None,
    }
}

/// The instruction that starts at offset `pos` of a section loaded at `vaddr`.
pub open spec fn decode_at(bitness: u32, code: Seq<u8>, vaddr: u64, pos: int) -> Option<Decoded> {
    x86_decode(bitness, code.subrange(pos, code.len() as int), (vaddr + pos) as u64)
}

pub open spec fn is_branch(d: Decoded) -> bool {
    d.flow == FLOW_CONDITIONAL_BRANCH
}

/// The branch data of conditional branch `d` at address `ip`: its kind from
/// the condition code, the distance from `ip` to the target, and its length.
/// `None` where the code names no condition or the distance is zero or does
/// not fit.
pub open spec fn branch_data_of(d: Decoded, ip: int) -> Option<JumpData> {
    let disp = d.target - ip;
    match JumpType::of_code(d.condition) {
        Some(k) => if k != JumpType::NoCondition && disp != 0 && isize::MIN <= disp <= isize::MAX {
            Some(JumpData { jump_type: k, j_true: disp as isize, j_false: d.len })
        } else {
            None
        },
        None => None,
    }
}

/// Whether the instruction at `pos` decodes, lies within the section and,
/// if it is a conditional branch, has usable branch data.
pub open spec fn ok_at(bitness: u32, code: Seq<u8>, vaddr: u64, pos: int) -> bool {
    match decode_at(bitness, code, vaddr, pos) {
        Some(d) => 1 <= d.len <= code.len() - pos && (is_branch(d) ==> branch_data_of(
            d,
            vaddr + pos,
        ) is Some),
        None => false,
    }
}

pub open spec fn len_at(bitness: u32, code: Seq<u8>, vaddr: u64, pos: int) -> int {
    decode_at(bitness, code, vaddr, pos).unwrap().len as int
}

/// The offsets at which instructions start, decoding from `pos` on, up to
/// the end of the section or the first instruction that is not [`ok_at`].
pub open spec fn starts(bitness: u32, code: Seq<u8>, vaddr: u64, pos: int) -> Seq<int>
    decreases code.len() - pos,
{
    if pos < 0 || pos >= code.len() || !ok_at(bitness, code, vaddr, pos) {
        Seq::empty()
    } else {
        seq![pos] + starts(bitness, code, vaddr, pos + len_at(bitness, code, vaddr, pos))
    }
}

/// Whether the section decodes from `pos` to its end with every instruction
/// [`ok_at`].
pub open spec fn decodes(bitness: u32, code: Seq<u8>, vaddr: u64, pos: int) -> bool
    decreases code.len() - pos,
{
    if pos < 0 || pos > code.len() {
        false
    } else if pos == code.len() {
        true
    } else {
        ok_at(bitness, code, vaddr, pos) && decodes(
            bitness,
            code,
            vaddr,
            pos + len_at(bitness, code, vaddr, pos),
        )
    }
}

/// The table key of the instruction at offset `pos`.
pub open spec fn key_of(vaddr: u64, base: u64, pos: int) -> u64 {
    (vaddr + pos - base) as u64
}

/// The placeholder entry recorded for a trap opcode that was already there.
pub open spec fn decoy() -> JumpData {
    JumpData { jump_type: JumpType::JumpParity, j_true: 100, j_false: 1000 }
}

/// Whether the instruction at `pos` gets a table entry: it is a conditional
/// branch, or its bytes already hold a trap opcode.
pub open spec fn marked(bitness: u32, code: Seq<u8>, vaddr: u64, pos: int) -> bool {
    is_branch(decode_at(bitness, code, vaddr, pos).unwrap()) || code.subrange(
        pos,
        pos + len_at(bitness, code, vaddr, pos),
    ).contains(TRAP_OPCODE)
}

/// How the instruction at `pos` stands in the output `out` and the table
/// `entries`: a conditional branch starts with the trap opcode and is
/// recorded with its branch data; any other instruction is copied unchanged
/// and, where its bytes hold a trap opcode, recorded with the placeholder.
pub open spec fn instr_patched(
    bitness: u32,
    code: Seq<u8>,
    vaddr: u64,
    base: u64,
    out: Seq<u8>,
    entries: Map<u64, JumpData>,
    pos: int,
) -> bool {
    let d = decode_at(bitness, code, vaddr, pos).unwrap();
    let end = pos + d.len;
    let key = key_of(vaddr, base, pos);
    if is_branch(d) {
        &&& out[pos] == TRAP_OPCODE
        &&& entries.contains_key(key)
        &&& entries[key] == branch_data_of(d, vaddr + pos).unwrap()
    } else {
        &&& out.subrange(pos, end) == code.subrange(pos, end)
        &&& code.subrange(pos, end).contains(TRAP_OPCODE) ==> entries.contains_key(key)
            && entries[key] == decoy()
    }
}

/// The outcome of patching `code`: `out` has the same length, every
/// instruction stands as [`instr_patched`] says, and `entries` holds the
/// keys of marked instructions and no others.
pub open spec fn patched(
    bitness: u32,
    code: Seq<u8>,
    vaddr: u64,
    base: u64,
    out: Seq<u8>,
    entries: Map<u64, JumpData>,
) -> bool {
    let s = starts(bitness, code, vaddr, 0);
    &&& out.len() == code.len()
    &&& forall|i: int|
        0 <= i < s.len() ==> instr_patched(bitness, code, vaddr, base, out, entries, #[trigger] s[i])
    &&& forall|k: u64| #[trigger]
        entries.contains_key(k) ==> exists|i: int|
            0 <= i < s.len() && marked(bitness, code, vaddr, #[trigger] s[i]) && key_of(
                vaddr,
                base,
                s[i],
            ) == k
}

/// The conditions under which a section can be patched.
pub open spec fn section_ok(bitness: u32, vaddr: u64, base: u64, len: nat) -> bool {
    &&& bitness == 32 || bitness == 64
    &&& base <= vaddr
    &&& vaddr + len <= u64::MAX
}

fn branch_data(d: &Decoded, ip: u64) -> (r: Option<JumpData>)
    ensures
        r == branch_data_of(*d, ip as int),
{
    let disp: i128 = d.target as i128 - ip as i128;
    match JumpType::from_code(d.condition) {
        Some(k) => if k != JumpType::NoCondition && disp != 0 && isize::MIN as i128 <= disp && disp
            <= isize::MAX as i128 {
            Some(JumpData { jump_type: k, j_true: disp as isize, j_false: d.len })
        } else {
            None
        },
        None => None,
    }
}

fn contains_trap(code: &[u8], start: usize, end: usize) -> (r: bool)
    requires
        start <= end <= code@.len(),
    ensures
        r == code@.subrange(start as int, end as int).contains(TRAP_OPCODE),
{
    let ghost s = code@.subrange(start as int, end as int);
    let mut i = start;
    while i < end
        invariant
            start <= i <= end <= code@.len(),
            s == code@.subrange(start as int, end as int),
            forall|j: int| start <= j < i ==> code@[j] != TRAP_OPCODE,
        decreases end - i,
    {
        if code[i] == TRAP_OPCODE {
            assert(s[i - start] == TRAP_OPCODE);
            return true;
        }
        i = i + 1;
    }
    assert(!s.contains(TRAP_OPCODE)) by {
        assert forall|j: int| 0 <= j < s.len() implies s[j] != TRAP_OPCODE by {
            assert(s[j] == code@[start + j]);
        }
    }
    false
}

fn append_range(out: &mut Vec<u8>, code: &[u8], start: usize, end: usize)
    requires
        start <= end <= code@.len(),
    ensures
        final(out)@ == old(out)@ + code@.subrange(start as int, end as int),
{
    let mut i = start;
    while i < end
        invariant
            start <= i <= end <= code@.len(),
            out@ == old(out)@ + code@.subrange(start as int, i as int),
        decreases end - i,
    {
        out.push(code[i]);
        i = i + 1;
        assert(out@ =~= old(out)@ + code@.subrange(start as int, i as int));
    }
}

/// Every instruction listed by [`starts`] is [`ok_at`] and lies at or after
/// `pos`.
pub proof fn lemma_starts_ok(bitness: u32, code: Seq<u8>, vaddr: u64, pos: int)
    ensures
        forall|i: int|
            0 <= i < starts(bitness, code, vaddr, pos).len() ==> ok_at(
                bitness,
                code,
                vaddr,
                #[trigger] starts(bitness, code, vaddr, pos)[i],
            ) && pos <= starts(bitness, code, vaddr, pos)[i],
    decreases code.len() - pos,
{
    if 0 <= pos < code.len() && ok_at(bitness, code, vaddr, pos) {
        let next = pos + len_at(bitness, code, vaddr, pos);
        lemma_starts_ok(bitness, code, vaddr, next);
        let s = starts(bitness, code, vaddr, pos);
        assert forall|i: int| 0 <= i < s.len() implies ok_at(bitness, code, vaddr, #[trigger] s[i])
            && pos <= s[i] by {
            if i > 0 {
                assert(s[i] == starts(bitness, code, vaddr, next)[i - 1]);
            }
        }
    }
}

/// In a patched section every trapped instruction begins with the trap
/// opcode, and its entry falls through by the instruction's length and
/// jumps by a displacement that is not zero.
pub proof fn lemma_trapped_entries(
    bitness: u32,
    code: Seq<u8>,
    vaddr: u64,
    base: u64,
    out: Seq<u8>,
    entries: Map<u64, JumpData>,
)
    requires
        patched(bitness, code, vaddr, base, out, entries),
    ensures
        forall|i: int|
            0 <= i < starts(bitness, code, vaddr, 0).len() && is_branch(
                decode_at(bitness, code, vaddr, #[trigger] starts(bitness, code, vaddr, 0)[i]).unwrap(),
            ) ==> {
                let p = starts(bitness, code, vaddr, 0)[i];
                let e = entries[key_of(vaddr, base, p)];
                &&& out[p] == TRAP_OPCODE
                &&& entries.contains_key(key_of(vaddr, base, p))
                &&& e.j_false == len_at(bitness, code, vaddr, p)
                &&& e.j_true != 0
            },
{
    lemma_starts_ok(bitness, code, vaddr, 0);
}

/// Appending to the output or recording other keys keeps what was shown of
/// an instruction that lies before the end of the output.
proof fn lemma_instr_patched_stable(
    bitness: u32,
    code: Seq<u8>,
    vaddr: u64,
    base: u64,
    out: Seq<u8>,
    more: Seq<u8>,
    entries: Map<u64, JumpData>,
    key: u64,
    value: JumpData,
    pos: int,
)
    requires
        0 <= pos,
        pos + len_at(bitness, code, vaddr, pos) <= out.len(),
        1 <= len_at(bitness, code, vaddr, pos),
        instr_patched(bitness, code, vaddr, base, out, entries, pos),
        key != key_of(vaddr, base, pos),
    ensures
        instr_patched(bitness, code, vaddr, base, out + more, entries.insert(key, value), pos),
        instr_patched(bitness, code, vaddr, base, out + more, entries, pos),
{
    let end = pos + len_at(bitness, code, vaddr, pos);
    assert((out + more).subrange(pos, end) =~= out.subrange(pos, end));
    assert((out + more)[pos] == out[pos]);
}

fn create_nanomites(section: &CodeSection, bitness: u32) -> (r: Result<
    (Vec<u8>, HashMap<u64, JumpData>),
    BuildError,
>)
    requires
        section_ok(bitness, section@.vaddr, section@.base, section@.data.len()),
    ensures
        match r {
            Ok((out, entries)) => decodes(bitness, section@.data, section@.vaddr, 0) && patched(
                bitness,
                section@.data,
                section@.vaddr,
                section@.base,
                out@,
                entries@,
            ),
            Err(e) => !decodes(bitness, section@.data, section@.vaddr, 0) && e
                == BuildError::Decode,
        },
{
    let code = section.data_ref();
    let vaddr = section.vaddr();
    let base = section.base();
    let ghost c = code@;
    let mut out: Vec<u8> = Vec::new();
    let mut entries: HashMap<u64, JumpData> = HashMap::new();
    let mut pos: usize = 0;
    let ghost mut seen: Seq<int> = Seq::empty();
    while pos < code.len()
        invariant
            c == code@,
            c == section@.data,
            vaddr == section@.vaddr,
            base == section@.base,
            section_ok(bitness, vaddr, base, c.len()),
            0 <= pos <= c.len(),
            out@.len() == pos,
            starts(bitness, c, vaddr, 0) == seen + starts(bitness, c, vaddr, pos as int),
            decodes(bitness, c, vaddr, 0) == decodes(bitness, c, vaddr, pos as int),
            forall|i: int|
                0 <= i < seen.len() ==> 0 <= #[trigger] seen[i] && seen[i] + len_at(
                    bitness,
                    c,
                    vaddr,
                    seen[i],
                ) <= pos && 1 <= len_at(bitness, c, vaddr, seen[i]),
            forall|i: int|
                0 <= i < seen.len() ==> instr_patched(
                    bitness,
                    c,
                    vaddr,
                    base,
                    out@,
                    entries@,
                    #[trigger] seen[i],
                ),
            forall|k: u64| #[trigger]
                entries@.contains_key(k) ==> exists|i: int|
                    0 <= i < seen.len() && marked(bitness, c, vaddr, #[trigger] seen[i])
                        && key_of(vaddr, base, seen[i]) == k,
        decreases c.len() - pos,
    {
        let ip = vaddr + pos as u64;
        let rest = vstd::slice::slice_subrange(code, pos, code.len());
        assert(rest@ == c.subrange(pos as int, c.len() as int));
        let d = match decode_one(bitness, rest, ip) {
            Some(d) => d,
            None => {
                assert(!ok_at(bitness, c, vaddr, pos as int));
                assert(!decodes(bitness, c, vaddr, pos as int));
                return Err(BuildError::Decode);
            },
        };
        assert(decode_at(bitness, c, vaddr, pos as int) == Some(d));
        if d.len == 0 || d.len > code.len() - pos {
            assert(!ok_at(bitness, c, vaddr, pos as int));
            assert(!decodes(bitness, c, vaddr, pos as int));
            return Err(BuildError::Decode);
        }
        let end = pos + d.len;
        let has_trap = contains_trap(code, pos, end);
        let key = ip - base;
        let ghost old_out = out@;
        let ghost old_entries = entries@;
        if d.flow == FLOW_CONDITIONAL_BRANCH {
            let jd = match branch_data(&d, ip) {
                Some(j) => j,
                None => {
                    assert(!ok_at(bitness, c, vaddr, pos as int));
                    assert(!decodes(bitness, c, vaddr, pos as int));
                    return Err(BuildError::Decode);
                },
            };
            out.push(TRAP_OPCODE);
            let mut filler = random_bytes(d.len - 1);
            out.append(&mut filler);
            entries.insert(key, jd);
        } else {
            append_range(&mut out, code, pos, end);
            if has_trap {
                entries.insert(key, JumpData::new(JumpType::JumpParity, 100, 1000));
            }
        }
        proof {
            let jd_value = if entries@.contains_key(key) {
                entries@[key]
            } else {
                decoy()
            };
            assert(ok_at(bitness, c, vaddr, pos as int));
            assert(starts(bitness, c, vaddr, pos as int) == seq![pos as int] + starts(
                bitness,
                c,
                vaddr,
                end as int,
            ));
            assert(seen.push(pos as int) + starts(bitness, c, vaddr, end as int) =~= seen + (
            seq![pos as int] + starts(bitness, c, vaddr, end as int)));
            let more = out@.subrange(pos as int, out@.len() as int);
            assert(out@ =~= old_out + more);
            assert forall|i: int| 0 <= i < seen.len() implies instr_patched(
                bitness,
                c,
                vaddr,
                base,
                out@,
                entries@,
                #[trigger] seen[i],
            ) by {
                lemma_instr_patched_stable(
                    bitness,
                    c,
                    vaddr,
                    base,
                    old_out,
                    more,
                    old_entries,
                    key,
                    jd_value,
                    seen[i],
                );
            }
            assert(instr_patched(bitness, c, vaddr, base, out@, entries@, pos as int)) by {
                if !is_branch(d) {
                    assert(out@.subrange(pos as int, end as int) =~= c.subrange(pos as int, end as int));
                }
            }
            let ghost old_seen = seen;
            seen = seen.push(pos as int);
            assert forall|k: u64| #[trigger] entries@.contains_key(k) implies exists|i: int|
                0 <= i < seen.len() && marked(bitness, c, vaddr, #[trigger] seen[i]) && key_of(
                    vaddr,
                    base,
                    seen[i],
                ) == k by {
                if k == key {
                    assert(seen[seen.len() - 1] == pos);
                } else {
                    assert(old_entries.contains_key(k));
                    let i = choose|i: int|
                        0 <= i < old_seen.len() && marked(bitness, c, vaddr, #[trigger] old_seen[i])
                            && key_of(vaddr, base, old_seen[i]) == k;
                    assert(seen[i] == old_seen[i]);
                }
            }
        }
        pos = end;
    }
    proof {
        assert(seen + starts(bitness, c, vaddr, pos as int) =~= seen);
    }
    Ok((out, entries))
}

/// Patches `section` in place and returns its table: every conditional
/// branch becomes a trap opcode and filler of the same length, everything
/// else is left as it was. Fails with `Decode`, and leaves the section as it
/// was, exactly where the section does not decode to its end (see
/// [`ok_at`]): an instruction fails to decode, or a conditional branch has
/// no condition code (`loop`, `jrcxz`), or jumps to itself, or jumps further
/// than an `isize` reaches.
pub fn infest(section: &mut CodeSection, bitness: u32) -> (r: Result<
    HashMap<u64, JumpData>,
    BuildError,
>)
    requires
        section_ok(bitness, old(section)@.vaddr, old(section)@.base, old(section)@.data.len()),
    ensures
        final(section)@.vaddr == old(section)@.vaddr,
        final(section)@.base == old(section)@.base,
        final(section)@.file_offset == old(section)@.file_offset,
        final(section)@.name == old(section)@.name,
        match r {
            Ok(entries) => decodes(bitness, old(section)@.data, old(section)@.vaddr, 0) && patched(
                bitness,
                old(section)@.data,
                old(section)@.vaddr,
                old(section)@.base,
                final(section)@.data,
                entries@,
            ),
            Err(e) => !decodes(bitness, old(section)@.data, old(section)@.vaddr, 0) && e
                == BuildError::Decode && final(section)@.data == old(section)@.data,
        },
{
    match create_nanomites(section, bitness) {
        Ok((out, entries)) => {
            section.write_data(out.as_slice());
            proof {
                assert(final(section)@.data =~= out@);
            }
            Ok(entries)
        },
        Err(e) => Err(e),
    }
}

} // verus!
