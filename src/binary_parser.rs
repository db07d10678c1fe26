//! Patching every executable section of a binary image in place.
use vstd::prelude::*;

use std::collections::HashMap;

use crate::code_section::CodeSection;
use crate::codec::{compress, compressible, snappy_compress};
use crate::infestor::{decodes, infest, patched, section_ok, BuildError};
use crate::jump_data::JumpData;

verus! {

broadcast use vstd::std_specs::hash::group_hash_axioms;

/// What the patcher needs of one section header of a binary.
#[derive(Clone, Debug)]
pub struct SectionHeader {
    /// Where the section's bytes start in the file.
    pub file_offset: u64,
    /// How many bytes of the file it holds.
    pub size: u64,
    /// The address of its first byte once loaded.
    pub vaddr: u64,
    /// The preferred image base that trap keys are relative to.
    pub base: u64,
    /// Whether it holds executable code.
    pub executable: bool,
    pub name: String,
}

/// The file range of section `h`.
pub open spec fn range_of(data: Seq<u8>, h: SectionHeader) -> Seq<u8> {
    data.subrange(h.file_offset as int, h.file_offset + h.size)
}

/// Whether executable section `h` lies within a file of `len` bytes and
/// within the address space.
pub open spec fn fits(h: SectionHeader, len: nat) -> bool {
    h.file_offset + h.size <= len && h.base <= h.vaddr && h.vaddr + h.size <= u64::MAX
}

pub open spec fn apart(a: SectionHeader, b: SectionHeader) -> bool {
    a.file_offset + a.size <= b.file_offset || b.file_offset + b.size <= a.file_offset
}

/// Whether every executable section fits and no two of them share bytes.
pub open spec fn headers_ok(hs: Seq<SectionHeader>, len: nat) -> bool {
    &&& forall|i: int| 0 <= i < hs.len() && (#[trigger] hs[i]).executable ==> fits(hs[i], len)
    &&& forall|i: int, j: int|
        0 <= i < j < hs.len() && (#[trigger] hs[i]).executable && (#[trigger] hs[j]).executable
            ==> apart(hs[i], hs[j])
}

/// Whether offset `p` of the file lies in an executable section.
pub open spec fn in_code(hs: Seq<SectionHeader>, p: int) -> bool {
    exists|i: int|
        0 <= i < hs.len() && (#[trigger] hs[i]).executable && hs[i].file_offset <= p
            < hs[i].file_offset + hs[i].size
}

fn check_headers(headers: &Vec<SectionHeader>, len: usize) -> (r: bool)
    ensures
        r == headers_ok(headers@, len as nat),
{
    let n = headers.len();
    let mut i: usize = 0;
    while i < n
        invariant
            n == headers@.len(),
            0 <= i <= n,
            forall|a: int| 0 <= a < i && (#[trigger] headers@[a]).executable ==> fits(headers@[a], len as nat),
            forall|a: int, b: int|
                0 <= a < b < n && a < i && (#[trigger] headers@[a]).executable
                    && (#[trigger] headers@[b]).executable ==> apart(headers@[a], headers@[b]),
        decreases n - i,
    {
        let h = &headers[i];
        if h.executable {
            if h.file_offset > len as u64 || h.size > len as u64 - h.file_offset || h.base > h.vaddr
                || h.size > u64::MAX - h.vaddr {
                return false;
            }
            let h_end = h.file_offset + h.size;
            let mut j: usize = i + 1;
            while j < n
                invariant
                    n == headers@.len(),
                    0 <= i < j <= n,
                    h == headers@[i as int],
                    h.executable,
                    h_end == h.file_offset + h.size,
                    forall|b: int|
                        i < b < j && (#[trigger] headers@[b]).executable ==> apart(*h, headers@[b]),
                decreases n - j,
            {
                let g = &headers[j];
                let g_before_h = g.file_offset <= h.file_offset && g.size <= h.file_offset
                    - g.file_offset;
                if g.executable && h_end > g.file_offset && !g_before_h {
                    assert(!apart(headers@[i as int], headers@[j as int]));
                    return false;
                }
                j = j + 1;
            }
        }
        i = i + 1;
    }
    true
}

fn copy_range(data: &Vec<u8>, start: usize, end: usize) -> (r: Vec<u8>)
    requires
        start <= end <= data@.len(),
    ensures
        r@ == data@.subrange(start as int, end as int),
{
    let mut r: Vec<u8> = Vec::new();
    let mut i = start;
    while i < end
        invariant
            start <= i <= end <= data@.len(),
            r@ == data@.subrange(start as int, i as int),
        decreases end - i,
    {
        r.push(data[i]);
        i = i + 1;
        assert(r@ =~= data@.subrange(start as int, i as int));
    }
    r
}

fn write_range(data: &mut Vec<u8>, start: usize, bytes: &[u8])
    requires
        start + bytes@.len() <= old(data)@.len(),
    ensures
        final(data)@.len() == old(data)@.len(),
        final(data)@.subrange(start as int, start + bytes@.len()) == bytes@,
        forall|p: int|
            0 <= p < old(data)@.len() && !(start <= p < start + bytes@.len()) ==> final(data)@[p]
                == old(data)@[p],
{
    let n = bytes.len();
    let total = data.len();
    for k in 0..n
        invariant
            n == bytes@.len(),
            total == old(data)@.len(),
            start + n <= old(data)@.len(),
            data@.len() == old(data)@.len(),
            forall|q: int| 0 <= q < k ==> data@[start + q] == bytes@[q],
            forall|p: int|
                0 <= p < old(data)@.len() && !(start <= p < start + k) ==> data@[p] == old(data)@[p],
    {
        data.set(start + k, bytes[k]);
    }
    assert(data@.subrange(start as int, start + n) =~= bytes@);
}

/// Patches every executable section of the image `data` in place (see
/// [`infest`]) and returns one table per header, empty for sections that
/// are not executable. Fails with `Format` where the headers do not fit the
/// file or overlap, and with `Decode` where a section does not decode.
pub fn patch_sections(data: &mut Vec<u8>, headers: &Vec<SectionHeader>, bitness: u32) -> (r: Result<
    Vec<HashMap<u64, JumpData>>,
    BuildError,
>)
    requires
        bitness == 32 || bitness == 64,
    ensures
        final(data)@.len() == old(data)@.len(),
        match r {
            Ok(tables) => {
                &&& headers_ok(headers@, old(data)@.len())
                &&& tables@.len() == headers@.len()
                &&& forall|i: int|
                    0 <= i < headers@.len() ==> if (#[trigger] headers@[i]).executable {
                        let h = headers@[i];
                        decodes(bitness, range_of(old(data)@, h), h.vaddr, 0) && patched(
                            bitness,
                            range_of(old(data)@, h),
                            h.vaddr,
                            h.base,
                            range_of(final(data)@, h),
                            tables@[i]@,
                        )
                    } else {
                        tables@[i]@ == Map::<u64, JumpData>::empty()
                    }
                &&& forall|p: int|
                    0 <= p < old(data)@.len() && !in_code(headers@, p) ==> final(data)@[p]
                        == old(data)@[p]
            },
            Err(e) => e == BuildError::Format && !headers_ok(headers@, old(data)@.len()) || e
                == BuildError::Decode && headers_ok(headers@, old(data)@.len()) && exists|i: int|
                0 <= i < headers@.len() && (#[trigger] headers@[i]).executable && !decodes(
                    bitness,
                    range_of(old(data)@, headers@[i]),
                    headers@[i].vaddr,
                    0,
                ),
        },
{
    if !check_headers(headers, data.len()) {
        return Err(BuildError::Format);
    }
    let ghost orig = data@;
    let len = data.len();
    let n = headers.len();
    let mut tables: Vec<HashMap<u64, JumpData>> = Vec::new();
    let mut i: usize = 0;
    while i < n
        invariant
            n == headers@.len(),
            0 <= i <= n,
            orig == old(data)@,
            data@.len() == orig.len(),
            len == orig.len(),
            bitness == 32 || bitness == 64,
            headers_ok(headers@, orig.len()),
            tables@.len() == i,
            forall|a: int|
                0 <= a < i ==> if (#[trigger] headers@[a]).executable {
                    let h = headers@[a];
                    decodes(bitness, range_of(orig, h), h.vaddr, 0) && patched(
                        bitness,
                        range_of(orig, h),
                        h.vaddr,
                        h.base,
                        range_of(data@, h),
                        tables@[a]@,
                    )
                } else {
                    tables@[a]@ == Map::<u64, JumpData>::empty()
                },
            forall|p: int|
                0 <= p < orig.len() && !(exists|a: int|
                    0 <= a < i && (#[trigger] headers@[a]).executable && headers@[a].file_offset <= p
                        < headers@[a].file_offset + headers@[a].size) ==> data@[p] == orig[p],
        decreases n - i,
    {
        let h = &headers[i];
        if !h.executable {
            tables.push(HashMap::new());
        } else {
            assert(fits(headers@[i as int], orig.len()));
            let start = h.file_offset as usize;
            let end = start + h.size as usize;
            proof {
                assert forall|p: int| start <= p < end implies data@[p] == orig[p] by {
                    assert forall|a: int|
                        0 <= a < i && (#[trigger] headers@[a]).executable implies !(
                    headers@[a].file_offset <= p < headers@[a].file_offset + headers@[a].size) by {
                        assert(apart(headers@[a], headers@[i as int]));
                    }
                }
            }
            let bytes = copy_range(data, start, end);
            assert(bytes@ =~= range_of(orig, headers@[i as int]));
            let mut section = CodeSection::new(h.file_offset, h.vaddr, h.base, bytes, h.name.clone());
            let table = match infest(&mut section, bitness) {
                Ok(t) => t,
                Err(e) => {
                    return Err(e);
                },
            };
            let ghost before = data@;
            write_range(data, start, section.data_ref());
            tables.push(table);
            proof {
                assert forall|a: int| 0 <= a < i && (#[trigger] headers@[a]).executable implies range_of(
                    data@,
                    headers@[a],
                ) == range_of(before, headers@[a]) by {
                    assert(apart(headers@[a], headers@[i as int]));
                    assert(range_of(data@, headers@[a]) =~= range_of(before, headers@[a]));
                }
                assert forall|a: int| 0 <= a < i + 1 implies #[trigger] tables@[a] == if a < i {
                    tables@.drop_last()[a]
                } else {
                    tables@.last()
                } by {}
            }
        }
        i = i + 1;
    }
    Ok(tables)
}

/// The compressed bytes of a patched image; `Compress` exactly where the
/// image is too large for the compressor.
pub fn compress_image(data: &[u8]) -> (r: Result<Vec<u8>, BuildError>)
    ensures
        r is Ok <==> compressible(data@.len()),
        r matches Ok(c) ==> c@ == snappy_compress(data@),
        r matches Err(e) ==> e == BuildError::Compress,
{
    match compress(data) {
        Some(c) => Ok(c),
        None => Err(BuildError::Compress),
    }
}

} // verus!
