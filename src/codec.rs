//! The compact binary form of branch data: bincode's fixed-width
//! little-endian encoding, applied to plain tuples.
use vstd::prelude::*;

verus! {

/// `256` to the power `n`.
pub open spec fn pow256(n: nat) -> nat
    decreases n,
{
    if n == 0 {
        1
    } else {
        256 * pow256((n - 1) as nat)
    }
}

/// The `n` low-order bytes of `v`, least significant first.
pub open spec fn le_bytes(v: nat, n: nat) -> Seq<u8>
    decreases n,
{
    if n == 0 {
        Seq::empty()
    } else {
        seq![(v % 256) as u8] + le_bytes(v / 256, (n - 1) as nat)
    }
}

/// The number whose little-endian bytes are `s`.
pub open spec fn le_value(s: Seq<u8>) -> nat
    decreases s.len(),
{
    if s.len() == 0 {
        0
    } else {
        s[0] as nat + 256 * le_value(s.drop_first())
    }
}

/// The 64-bit two's-complement pattern of `x`.
pub open spec fn twos64(x: int) -> nat {
    if x >= 0 {
        x as nat
    } else {
        (x + 0x1_0000_0000_0000_0000) as nat
    }
}

/// The signed value of the 64-bit pattern `v`.
pub open spec fn signed64(v: nat) -> int {
    if v < 0x8000_0000_0000_0000 {
        v as int
    } else {
        v - 0x1_0000_0000_0000_0000
    }
}

/// The bytes of the triple `(a, b, c)` as `u32`, `i64`, `u64`.
pub open spec fn triple_bytes(a: u32, b: i64, c: u64) -> Seq<u8> {
    le_bytes(a as nat, 4) + le_bytes(twos64(b as int), 8) + le_bytes(c as nat, 8)
}

/// What the first twenty bytes of `s` hold as `u32`, `i64`, `u64`.
pub open spec fn triple_of(s: Seq<u8>) -> Option<(u32, i64, u64)> {
    if s.len() >= 20 {
        Some(
            (
                le_value(s.subrange(0, 4)) as u32,
                signed64(le_value(s.subrange(4, 12))) as i64,
                le_value(s.subrange(12, 20)) as u64,
            ),
        )
    } else {
        None
    }
}

pub proof fn lemma_pow256_facts()
    ensures
        pow256(4) == 0x1_0000_0000,
        pow256(8) == 0x1_0000_0000_0000_0000,
{
    reveal_with_fuel(pow256, 9);
}

pub proof fn lemma_le_value_bound(s: Seq<u8>)
    ensures
        le_value(s) < pow256(s.len()),
    decreases s.len(),
{
    if s.len() > 0 {
        lemma_le_value_bound(s.drop_first());
        let r = le_value(s.drop_first());
        let p = pow256((s.len() - 1) as nat);
        assert(s[0] as nat + 256 * r < 256 * p) by (nonlinear_arith)
            requires
                r < p,
                s[0] < 256,
        ;
    }
}

/// Reading back `n` little-endian bytes gives the number written.
pub proof fn lemma_le_round_trip(v: nat, n: nat)
    requires
        v < pow256(n),
    ensures
        le_bytes(v, n).len() == n,
        le_value(le_bytes(v, n)) == v,
    decreases n,
{
    if n > 0 {
        let m = (n - 1) as nat;
        let p = pow256(m);
        assert(v / 256 < p) by (nonlinear_arith)
            requires
                v < 256 * p,
        ;
        lemma_le_round_trip(v / 256, m);
        let s = le_bytes(v, n);
        assert(s.drop_first() =~= le_bytes(v / 256, m));
    }
}

/// Decoding the bytes of a triple gives the triple back.
pub proof fn lemma_triple_round_trip(a: u32, b: i64, c: u64)
    ensures
        triple_bytes(a, b, c).len() == 20,
        triple_of(triple_bytes(a, b, c)) == Some((a, b, c)),
{
    lemma_pow256_facts();
    let ta = twos64(b as int);
    lemma_le_round_trip(a as nat, 4);
    lemma_le_round_trip(ta, 8);
    lemma_le_round_trip(c as nat, 8);
    let s = triple_bytes(a, b, c);
    assert(s.subrange(0, 4) =~= le_bytes(a as nat, 4));
    assert(s.subrange(4, 12) =~= le_bytes(ta, 8));
    assert(s.subrange(12, 20) =~= le_bytes(c as nat, 8));
}

/// Relies on bincode::serialize (fixed-width integers, little endian): a
/// tuple is its fields in order, a `u32` four bytes, an `i64` and a `u64`
/// eight; writing integers into a vector cannot fail.
#[verifier::external_body]
pub(crate) fn serialize_triple(a: u32, b: i64, c: u64) -> (r: Vec<u8>)
    ensures
        r@ == triple_bytes(a, b, c),
{
    bincode::serialize(&(a, b, c)).unwrap_or_default()
}

/// Relies on bincode::deserialize: it reads the fields of the tuple in order
/// from the front of `bytes`, fails when fewer than twenty bytes are there,
/// and ignores trailing bytes.
#[verifier::external_body]
pub(crate) fn deserialize_triple(bytes: &[u8]) -> (r: Option<(u32, i64, u64)>)
    ensures
        r == triple_of(bytes@),
{
    bincode::deserialize::<(u32, i64, u64)>(bytes).ok()
}

/// One table entry: its address, its key and its ciphertext, the last
/// preceded by its length.
pub open spec fn entry_bytes(e: (u64, Seq<u8>, Seq<u8>)) -> Seq<u8> {
    le_bytes(e.0 as nat, 8) + e.1 + le_bytes(e.2.len(), 8) + e.2
}

pub open spec fn entries_bytes(es: Seq<(u64, Seq<u8>, Seq<u8>)>) -> Seq<u8>
    decreases es.len(),
{
    if es.len() == 0 {
        Seq::empty()
    } else {
        entry_bytes(es[0]) + entries_bytes(es.drop_first())
    }
}

/// A whole table: the number of entries, the entries, then the IV.
pub open spec fn table_bytes(es: Seq<(u64, Seq<u8>, Seq<u8>)>, iv: Seq<u8>) -> Seq<u8> {
    le_bytes(es.len(), 8) + entries_bytes(es) + iv
}

/// The plain values of a list of entries.
pub open spec fn entry_views(es: Seq<(u64, [u8; 32], Vec<u8>)>) -> Seq<(u64, Seq<u8>, Seq<u8>)> {
    es.map_values(|e: (u64, [u8; 32], Vec<u8>)| (e.0, e.1@, e.2@))
}

/// Whether `es` and `iv` have the shapes of keys and IV that a table holds.
pub open spec fn table_shaped(es: Seq<(u64, Seq<u8>, Seq<u8>)>, iv: Seq<u8>) -> bool {
    &&& iv.len() == 16
    &&& es.len() <= u64::MAX
    &&& forall|i: int| 0 <= i < es.len() ==> (#[trigger] es[i]).1.len() == 32 && es[i].2.len() <= u64::MAX
}

/// Relies on bincode::serialize: a vector is its length as `u64` and then its
/// items, a tuple its fields in order, an array its items with no length,
/// integers fixed-width little endian; writing into a vector cannot fail.
#[verifier::external_body]
pub(crate) fn serialize_table(entries: &Vec<(u64, [u8; 32], Vec<u8>)>, iv: &[u8; 16]) -> (r: Vec<u8>)
    ensures
        r@ == table_bytes(entry_views(entries@), iv@),
{
    bincode::serialize(&(entries, iv)).unwrap_or_default()
}

/// Whether `bytes` starts with the bytes of the table `es`, `iv`.
pub open spec fn starts_with_table(bytes: Seq<u8>, es: Seq<(u64, Seq<u8>, Seq<u8>)>, iv: Seq<u8>) -> bool {
    let t = table_bytes(es, iv);
    t.len() <= bytes.len() && bytes.take(t.len() as int) == t
}

/// The table that bincode reads from the front of `bytes`, if any.
pub uninterp spec fn table_of(bytes: Seq<u8>) -> Option<(Seq<(u64, Seq<u8>, Seq<u8>)>, Seq<u8>)>;

/// Relies on bincode::deserialize, reading what `serialize_table` writes: it
/// succeeds exactly where `bytes` starts with the bytes of some table, and
/// then returns that table, whose keys are 32-byte arrays, whose IV is a
/// 16-byte array and whose lengths fit in a `usize`.
#[verifier::external_body]
pub(crate) fn deserialize_table(bytes: &[u8]) -> (r: Option<(Vec<(u64, [u8; 32], Vec<u8>)>, [u8; 16])>)
    ensures
        match r {
            Some((es, iv)) => table_of(bytes@) == Some((entry_views(es@), iv@))
                && starts_with_table(bytes@, entry_views(es@), iv@) && table_shaped(
                entry_views(es@),
                iv@,
            ),
            None => table_of(bytes@) is None && forall|es: Seq<(u64, Seq<u8>, Seq<u8>)>, iv: Seq<u8>|
                table_shaped(es, iv) ==> !#[trigger] starts_with_table(bytes@, es, iv),
        },
{
    bincode::deserialize::<(Vec<(u64, [u8; 32], Vec<u8>)>, [u8; 16])>(bytes).ok()
}

/// The bytes of one entry determine it, and where it ends.
proof fn lemma_entry_unique(
    e1: (u64, Seq<u8>, Seq<u8>),
    e2: (u64, Seq<u8>, Seq<u8>),
    t1: Seq<u8>,
    t2: Seq<u8>,
)
    requires
        e1.1.len() == 32,
        e2.1.len() == 32,
        e1.2.len() <= u64::MAX,
        e2.2.len() <= u64::MAX,
        entry_bytes(e1) + t1 == entry_bytes(e2) + t2,
    ensures
        e1 == e2,
        t1 == t2,
{
    lemma_pow256_facts();
    lemma_le_round_trip(e1.0 as nat, 8);
    lemma_le_round_trip(e2.0 as nat, 8);
    lemma_le_round_trip(e1.2.len(), 8);
    lemma_le_round_trip(e2.2.len(), 8);
    let a = entry_bytes(e1) + t1;
    let b = entry_bytes(e2) + t2;
    assert(a.subrange(0, 8) =~= le_bytes(e1.0 as nat, 8));
    assert(b.subrange(0, 8) =~= le_bytes(e2.0 as nat, 8));
    assert(e1.0 == e2.0);
    assert(a.subrange(8, 40) =~= e1.1);
    assert(b.subrange(8, 40) =~= e2.1);
    assert(a.subrange(40, 48) =~= le_bytes(e1.2.len(), 8));
    assert(b.subrange(40, 48) =~= le_bytes(e2.2.len(), 8));
    assert(e1.2.len() == e2.2.len());
    let n = 48 + e1.2.len();
    assert(a.subrange(48, n as int) =~= e1.2);
    assert(b.subrange(48, n as int) =~= e2.2);
    assert(a.subrange(n as int, a.len() as int) =~= t1);
    assert(b.subrange(n as int, b.len() as int) =~= t2);
}

/// The bytes of equally many entries determine them, and where they end.
proof fn lemma_entries_unique(
    es1: Seq<(u64, Seq<u8>, Seq<u8>)>,
    es2: Seq<(u64, Seq<u8>, Seq<u8>)>,
    t1: Seq<u8>,
    t2: Seq<u8>,
)
    requires
        es1.len() == es2.len(),
        forall|i: int| 0 <= i < es1.len() ==> (#[trigger] es1[i]).1.len() == 32 && es1[i].2.len() <= u64::MAX,
        forall|i: int| 0 <= i < es2.len() ==> (#[trigger] es2[i]).1.len() == 32 && es2[i].2.len() <= u64::MAX,
        entries_bytes(es1) + t1 == entries_bytes(es2) + t2,
    ensures
        es1 == es2,
        t1 == t2,
    decreases es1.len(),
{
    if es1.len() > 0 {
        let r1 = entries_bytes(es1.drop_first()) + t1;
        let r2 = entries_bytes(es2.drop_first()) + t2;
        assert(entries_bytes(es1) + t1 =~= entry_bytes(es1[0]) + r1);
        assert(entries_bytes(es2) + t2 =~= entry_bytes(es2[0]) + r2);
        lemma_entry_unique(es1[0], es2[0], r1, r2);
        assert forall|i: int| 0 <= i < es1.drop_first().len() implies (#[trigger] es1.drop_first()[i]).1.len()
            == 32 && es1.drop_first()[i].2.len() <= u64::MAX by {
            assert(es1.drop_first()[i] == es1[i + 1]);
        }
        assert forall|i: int| 0 <= i < es2.drop_first().len() implies (#[trigger] es2.drop_first()[i]).1.len()
            == 32 && es2.drop_first()[i].2.len() <= u64::MAX by {
            assert(es2.drop_first()[i] == es2[i + 1]);
        }
        lemma_entries_unique(es1.drop_first(), es2.drop_first(), t1, t2);
        assert(es1 =~= seq![es1[0]] + es1.drop_first());
        assert(es2 =~= seq![es2[0]] + es2.drop_first());
    } else {
        assert(entries_bytes(es1) + t1 =~= t1);
        assert(entries_bytes(es2) + t2 =~= t2);
    }
}

/// The bytes of a table parse one way only: a table whose bytes start
/// the bytes of another table is that table.
pub proof fn lemma_table_bytes_unique(
    es1: Seq<(u64, Seq<u8>, Seq<u8>)>,
    iv1: Seq<u8>,
    es2: Seq<(u64, Seq<u8>, Seq<u8>)>,
    iv2: Seq<u8>,
)
    requires
        table_shaped(es1, iv1),
        table_shaped(es2, iv2),
        starts_with_table(table_bytes(es2, iv2), es1, iv1),
    ensures
        es1 == es2,
        iv1 == iv2,
{
    lemma_pow256_facts();
    lemma_le_round_trip(es1.len(), 8);
    lemma_le_round_trip(es2.len(), 8);
    let b = table_bytes(es2, iv2);
    let a = table_bytes(es1, iv1);
    let rest = b.subrange(a.len() as int, b.len() as int);
    assert(b =~= a + rest);
    assert((a + rest).subrange(0, 8) =~= le_bytes(es1.len(), 8));
    assert(b.subrange(0, 8) =~= le_bytes(es2.len(), 8));
    assert(es1.len() == es2.len());
    let s1 = iv1 + rest;
    let s2 = iv2;
    assert((a + rest).subrange(8, (a + rest).len() as int) =~= entries_bytes(es1) + s1);
    assert(b.subrange(8, b.len() as int) =~= entries_bytes(es2) + s2);
    lemma_entries_unique(es1, es2, s1, s2);
    assert(s1.subrange(0, 16) =~= iv1);
    assert(s2.subrange(0, 16) =~= iv2);
}

/// What the Snappy raw format makes of `s`.
pub uninterp spec fn snappy_compress(s: Seq<u8>) -> Seq<u8>;

/// What the Snappy raw decoder recovers from `s`; `None` where `s` is no
/// valid compressed block.
pub uninterp spec fn snappy_decompress(s: Seq<u8>) -> Option<Seq<u8>>;

/// Whether snap can compress `len` bytes: its worst-case output,
/// `32 + len + len / 6` bytes, must not exceed `u32::MAX`.
pub open spec fn compressible(len: nat) -> bool {
    32 + len + len / 6 <= u32::MAX
}

/// Relies on snap's `raw::Encoder::compress_vec`: the output depends on the
/// input alone; it fails exactly where `max_compress_len` is 0, that is where
/// the worst-case output would exceed `u32::MAX` bytes.
#[verifier::external_body]
pub(crate) fn compress(input: &[u8]) -> (r: Option<Vec<u8>>)
    ensures
        r is Some <==> compressible(input@.len()),
        r matches Some(v) ==> v@ == snappy_compress(input@),
{
    snap::raw::Encoder::new().compress_vec(input).ok()
}

/// Relies on snap's `raw::Decoder::decompress_vec`: the output depends on the
/// input alone, and it recovers what `compress_vec` compressed (which
/// compresses only inputs that are [`compressible`]).
#[verifier::external_body]
pub(crate) fn decompress(input: &[u8]) -> (r: Option<Vec<u8>>)
    ensures
        match r {
            Some(v) => snappy_decompress(input@) == Some(v@),
            None => snappy_decompress(input@) is None,
        },
        forall|x: Seq<u8>|
            compressible(x.len()) && input@ == #[trigger] snappy_compress(x) ==> r is Some
                && r.unwrap()@ == x,
{
    snap::raw::Decoder::new().decompress_vec(input).ok()
}

} // verus!
