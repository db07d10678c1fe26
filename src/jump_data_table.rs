use vstd::prelude::*;

use std::collections::HashMap;

use vstd::std_specs::iter::IteratorSpec;

use crate::codec::{
    compress, compressible, decompress, deserialize_table, entry_views, serialize_table, snappy_compress,
    snappy_decompress, lemma_table_bytes_unique, starts_with_table, table_bytes, table_of, table_shaped,
};
use crate::crypto::{aes256_cbc_decrypt, aes256_cbc_encrypt, cbc_decrypt};
use crate::jump_data::JumpData;

verus! {

broadcast use vstd::std_specs::hash::group_hash_axioms;

/// A 32 byte encryption key.
#[derive(Copy, Clone, Debug)]
pub struct RekkEncKey(pub [u8; 32]);

/// An encrypted jump data struct.
#[derive(Clone, Debug)]
pub struct EncryptedJumpData {
    pub key: RekkEncKey,
    pub data: Vec<u8>,
}

/// Why a lookup in the table gave no branch data.
#[derive(Copy, Clone, Debug, PartialEq, Eq, Structural)]
pub enum JDTErrorKind {
    /// No entry is recorded for the address.
    NotFound,
    /// The entry does not decrypt, or its plaintext is no branch data.
    DataCorrupt,
}

#[derive(Copy, Clone, Debug, PartialEq, Eq, Structural)]
pub struct JDTError {
    pub kind: JDTErrorKind,
}

/// What decrypting `data` with `key` and `iv` yields.
pub open spec fn decrypted(key: Seq<u8>, iv: Seq<u8>, data: Seq<u8>) -> Result<JumpData, JDTError> {
    match aes256_cbc_decrypt(key, iv, data) {
        Some(plain) => match JumpData::decoded(plain) {
            Some(d) => Ok(d),
            None => Err(JDTError { kind: JDTErrorKind::DataCorrupt }),
        },
        None => Err(JDTError { kind: JDTErrorKind::DataCorrupt }),
    }
}

/// What looking up `addr` in `entries`, under the shared `iv`, yields.
pub open spec fn lookup(entries: Map<u64, EncryptedJumpData>, iv: Seq<u8>, addr: u64) -> Result<
    JumpData,
    JDTError,
> {
    if entries.contains_key(addr) {
        decrypted(entries[addr].key.0@, iv, entries[addr].data@)
    } else {
        Err(JDTError { kind: JDTErrorKind::NotFound })
    }
}

impl EncryptedJumpData {
    /// Decrypts this entry with its own key and the table's `iv`.
    pub fn decrypt(&self, iv: &[u8; 16]) -> (r: Result<JumpData, JDTError>)
        ensures
            r == decrypted(self.key.0@, iv@, self.data@),
            forall|d: JumpData|
                self.data@ == #[trigger] aes256_cbc_encrypt(self.key.0@, iv@, d.bytes()) ==> r
                    == Ok::<JumpData, JDTError>(d),
    {
        proof {
            assert forall|d: JumpData|
                self.data@ == #[trigger] aes256_cbc_encrypt(
                    self.key.0@,
                    iv@,
                    d.bytes(),
                ) implies JumpData::decoded(d.bytes()) == Some(d) by {
                d.lemma_bytes_round_trip();
            }
        }
        match cbc_decrypt(&self.key.0, iv, self.data.as_slice()) {
            Some(plain) => match JumpData::from_bytes(plain.as_slice()) {
                Some(d) => Ok(d),
                None => Err(JDTError { kind: JDTErrorKind::DataCorrupt }),
            },
            None => Err(JDTError { kind: JDTErrorKind::DataCorrupt }),
        }
    }
}

/// Whether `r` is what reading a table from `bytes` gives: the table that
/// bincode finds at the front of `bytes`, or `DataCorrupt` where there is
/// none.
pub open spec fn read_from(bytes: Seq<u8>, r: Result<JumpDataTable, JDTError>) -> bool {
    match table_of(bytes) {
        Some((es, iv)) => starts_with_table(bytes, es, iv) && table_shaped(es, iv) && r is Ok
            && r->Ok_0.iv@ == iv && holds_last(r->Ok_0.table@, es),
        None => r == Err::<JumpDataTable, JDTError>(JDTError { kind: JDTErrorKind::DataCorrupt })
            && forall|es: Seq<(u64, Seq<u8>, Seq<u8>)>, iv: Seq<u8>|
            table_shaped(es, iv) ==> !#[trigger] starts_with_table(bytes, es, iv),
    }
}

/// Reading the bytes of a table gives that table back.
pub proof fn lemma_read_back(
    bytes: Seq<u8>,
    r: Result<JumpDataTable, JDTError>,
    es: Seq<(u64, Seq<u8>, Seq<u8>)>,
    iv: Seq<u8>,
)
    requires
        read_from(bytes, r),
        table_shaped(es, iv),
        bytes == table_bytes(es, iv),
    ensures
        r is Ok,
        r->Ok_0.iv@ == iv,
        holds_last(r->Ok_0.table@, es),
{
    assert(bytes.take(bytes.len() as int) =~= bytes);
    assert(starts_with_table(bytes, es, iv));
    match table_of(bytes) {
        Some((es2, iv2)) => {
            lemma_table_bytes_unique(es2, iv2, es, iv);
        },
        None => {},
    }
}

/// Whether `es` lists the entries of `m`, each address once.
pub open spec fn lists(es: Seq<(u64, Seq<u8>, Seq<u8>)>, m: Map<u64, EncryptedJumpData>) -> bool {
    &&& forall|i: int|
        0 <= i < es.len() ==> m.contains_key((#[trigger] es[i]).0) && es[i].1 == m[es[i].0].key.0@
            && es[i].2 == m[es[i].0].data@
    &&& forall|k: u64| #[trigger]
        m.contains_key(k) ==> exists|i: int| 0 <= i < es.len() && (#[trigger] es[i]).0 == k
    &&& forall|i: int, j: int| 0 <= i < j < es.len() ==> (#[trigger] es[i]).0 != (#[trigger] es[j]).0
}

/// Whether `m` holds, for each address listed in `es`, its last entry there,
/// and nothing else.
pub open spec fn holds_last(m: Map<u64, EncryptedJumpData>, es: Seq<(u64, Seq<u8>, Seq<u8>)>) -> bool {
    &&& forall|k: u64| #[trigger]
        m.contains_key(k) ==> exists|i: int| 0 <= i < es.len() && (#[trigger] es[i]).0 == k
    &&& forall|i: int|
        0 <= i < es.len() && (forall|j: int| i < j < es.len() ==> (#[trigger] es[j]).0 != es[i].0)
            ==> m.contains_key((#[trigger] es[i]).0) && m[es[i].0].key.0@ == es[i].1 && m[es[i].0].data@
            == es[i].2
}

proof fn lemma_holds_last_push(
    m: Map<u64, EncryptedJumpData>,
    es: Seq<(u64, Seq<u8>, Seq<u8>)>,
    e: (u64, Seq<u8>, Seq<u8>),
    v: EncryptedJumpData,
)
    requires
        holds_last(m, es),
        v.key.0@ == e.1,
        v.data@ == e.2,
    ensures
        holds_last(m.insert(e.0, v), es.push(e)),
{
    let m2 = m.insert(e.0, v);
    let es2 = es.push(e);
    assert forall|k: u64| #[trigger] m2.contains_key(k) implies exists|i: int|
        0 <= i < es2.len() && (#[trigger] es2[i]).0 == k by {
        if k == e.0 {
            assert(es2[es.len() as int].0 == k);
        } else {
            let i = choose|i: int| 0 <= i < es.len() && (#[trigger] es[i]).0 == k;
            assert(es2[i] == es[i]);
        }
    }
    assert forall|i: int|
        0 <= i < es2.len() && (forall|j: int| i < j < es2.len() ==> (#[trigger] es2[j]).0 != es2[i].0)
        implies m2.contains_key((#[trigger] es2[i]).0) && m2[es2[i].0].key.0@ == es2[i].1
        && m2[es2[i].0].data@ == es2[i].2 by {
        if i < es.len() {
            assert(es2[es.len() as int] == e);
            assert(es2[i] == es[i]);
            assert forall|j: int| i < j < es.len() implies (#[trigger] es[j]).0 != es[i].0 by {
                assert(es2[j] == es[j]);
            }
        }
    }
}

fn copy_bytes(v: &Vec<u8>) -> (r: Vec<u8>)
    ensures
        r@ == v@,
{
    let mut r: Vec<u8> = Vec::new();
    let mut i: usize = 0;
    while i < v.len()
        invariant
            0 <= i <= v@.len(),
            r@ == v@.take(i as int),
        decreases v@.len() - i,
    {
        r.push(v[i]);
        i = i + 1;
        assert(r@ =~= v@.take(i as int));
    }
    assert(v@.take(i as int) =~= v@);
    r
}

pub struct JumpDataTable {
    pub table: HashMap<u64, EncryptedJumpData>,
    pub iv: [u8; 16],
}

impl JumpDataTable {
    pub fn new() -> (r: JumpDataTable)
        ensures
            r.table@ == Map::<u64, EncryptedJumpData>::empty(),
            r.iv@ == Seq::new(16, |i: int| 0u8),
    {
        let r = JumpDataTable { table: HashMap::new(), iv: [0u8; 16] };
        assert(r.iv@ =~= Seq::new(16, |i: int| 0u8));
        r
    }

    /// The bytes of this table, with its entries in some order.
    pub fn to_bytes(&self) -> (r: Vec<u8>)
        ensures
            exists|es: Seq<(u64, Seq<u8>, Seq<u8>)>|
                lists(es, self.table@) && table_shaped(es, self.iv@) && r@ == table_bytes(
                    es,
                    self.iv@,
                ),
    {
        let mut entries: Vec<(u64, [u8; 32], Vec<u8>)> = Vec::new();
        let iter = self.table.iter();
        let ghost s = iter.remaining();
        proof {
            broadcast use vstd::std_specs::hash::axiom_spec_hash_map_iter;
        }
        for kv in it: iter
            invariant
                it.seq() == s,
                s.no_duplicates(),
                forall|i: int|
                    0 <= i < s.len() ==> self.table@.contains_key(*(#[trigger] s[i]).0)
                        && self.table@[*s[i].0] == *s[i].1,
                forall|k: u64| #[trigger]
                    self.table@.contains_key(k) ==> s.contains((&k, &self.table@[k])),
                entries@.len() == it.index(),
                forall|i: int| 0 <= i < it.index() ==> (#[trigger] entries@[i]).2@.len() <= u64::MAX,
                forall|i: int|
                    0 <= i < it.index() ==> (#[trigger] entry_views(entries@)[i]) == (
                        *s[i].0,
                        s[i].1.key.0@,
                        s[i].1.data@,
                    ),
        {
            let (k, e) = kv;
            let ghost idx = it.index();
            assert(kv == s[idx]);
            let data = copy_bytes(&e.data);
            let data_len = data.len();
            let ghost before = entries@;
            entries.push((*k, e.key.0, data));
            proof {
                assert forall|i: int| 0 <= i < idx + 1 implies (#[trigger] entry_views(entries@)[i]) == (
                    *s[i].0,
                    s[i].1.key.0@,
                    s[i].1.data@,
                ) by {
                    if i < idx {
                        assert(entries@[i] == before[i]);
                        assert(entry_views(before)[i] == entry_views(entries@)[i]);
                    }
                }
                assert forall|i: int| 0 <= i < idx + 1 implies (#[trigger] entries@[i]).2@.len()
                    <= u64::MAX by {
                    if i < idx {
                        assert(entries@[i] == before[i]);
                    }
                }
            }
        }
        let count = entries.len();
        let ghost es = entry_views(entries@);
        proof {
            assert forall|i: int| 0 <= i < es.len() implies (#[trigger] es[i]).1.len() == 32
                && es[i].2.len() <= u64::MAX by {
                assert(es[i] == (entries@[i].0, entries@[i].1@, entries@[i].2@));
            }
            assert(es.len() == count);
            assert(table_shaped(es, self.iv@));
            assert forall|k: u64| #[trigger] self.table@.contains_key(k) implies exists|i: int|
                0 <= i < es.len() && (#[trigger] es[i]).0 == k by {
                assert(s.contains((&k, &self.table@[k])));
                let i = choose|i: int| 0 <= i < s.len() && s[i] == (&k, &self.table@[k]);
                assert(es[i].0 == k);
            }
            assert forall|i: int, j: int| 0 <= i < j < es.len() implies (#[trigger] es[i]).0 != (
            #[trigger] es[j]).0 by {
                if es[i].0 == es[j].0 {
                    assert(s[i] == s[j]);
                }
            }
        }
        serialize_table(&entries, &self.iv)
    }

    /// A table holding, for each address in `entries`, its last entry there.
    pub fn from_entries(entries: &Vec<(u64, [u8; 32], Vec<u8>)>, iv: [u8; 16]) -> (t: JumpDataTable)
        ensures
            t.iv == iv,
            holds_last(t.table@, entry_views(entries@)),
    {
        let ghost es = entry_views(entries@);
        let mut table: HashMap<u64, EncryptedJumpData> = HashMap::new();
        let n = entries.len();
        let mut i: usize = 0;
        while i < n
            invariant
                n == entries@.len(),
                es == entry_views(entries@),
                0 <= i <= n,
                holds_last(table@, es.take(i as int)),
            decreases n - i,
        {
            let (addr, key, data) = &entries[i];
            let copy = copy_bytes(data);
            let ghost old_table = table@;
            table.insert(*addr, EncryptedJumpData { key: RekkEncKey(*key), data: copy });
            proof {
                let pre = es.take(i as int);
                assert(es.take(i as int + 1) =~= pre.push(es[i as int]));
                lemma_holds_last_push(
                    old_table,
                    pre,
                    es[i as int],
                    EncryptedJumpData { key: RekkEncKey(*key), data: copy },
                );
            }
            i = i + 1;
        }
        assert(es.take(n as int) =~= es);
        JumpDataTable { table, iv }
    }

    /// Reads a table back from its bytes; `DataCorrupt` where `bytes` does
    /// not start with the bytes of a table. Where an address comes twice,
    /// the later entry stands.
    pub fn from_bytes(bytes: &[u8]) -> (r: Result<JumpDataTable, JDTError>)
        ensures
            read_from(bytes@, r),
            forall|es: Seq<(u64, Seq<u8>, Seq<u8>)>, iv: Seq<u8>|
                table_shaped(es, iv) && bytes@ == #[trigger] table_bytes(es, iv) ==> r is Ok
                    && r->Ok_0.iv@ == iv && holds_last(r->Ok_0.table@, es),
    {
        let r = match deserialize_table(bytes) {
            Some((entries, iv)) => Ok(JumpDataTable::from_entries(&entries, iv)),
            None => Err(JDTError { kind: JDTErrorKind::DataCorrupt }),
        };
        proof {
            assert forall|es: Seq<(u64, Seq<u8>, Seq<u8>)>, iv: Seq<u8>|
                table_shaped(es, iv) && bytes@ == #[trigger] table_bytes(es, iv) implies r is Ok
                && r->Ok_0.iv@ == iv && holds_last(r->Ok_0.table@, es) by {
                lemma_read_back(bytes@, r, es, iv);
            }
        }
        r
    }

    /// Reads a table back from its compressed bytes; `DataCorrupt` where
    /// they do not decompress, or not to the bytes of a table.
    pub fn from_compressed(blob: &[u8]) -> (r: Result<JumpDataTable, JDTError>)
        ensures
            match snappy_decompress(blob@) {
                Some(raw) => read_from(raw, r),
                None => r == Err::<JumpDataTable, JDTError>(
                    JDTError { kind: JDTErrorKind::DataCorrupt },
                ),
            },
            forall|raw: Seq<u8>|
                compressible(raw.len()) && blob@ == #[trigger] snappy_compress(raw) ==> read_from(
                    raw,
                    r,
                ),
    {
        match decompress(blob) {
            Some(raw) => JumpDataTable::from_bytes(raw.as_slice()),
            None => Err(JDTError { kind: JDTErrorKind::DataCorrupt }),
        }
    }

    /// The compressed bytes of this table; `None` where they are too many
    /// for the compressor.
    pub fn to_compressed(&self) -> (r: Option<Vec<u8>>)
        ensures
            r matches Some(c) ==> exists|es: Seq<(u64, Seq<u8>, Seq<u8>)>|
                lists(es, self.table@) && c@ == snappy_compress(#[trigger] table_bytes(es, self.iv@)),
            r is None ==> exists|es: Seq<(u64, Seq<u8>, Seq<u8>)>|
                lists(es, self.table@) && !compressible(#[trigger] table_bytes(es, self.iv@).len()),
    {
        let bytes = self.to_bytes();
        let ghost es = choose|es: Seq<(u64, Seq<u8>, Seq<u8>)>|
            lists(es, self.table@) && bytes@ == table_bytes(es, self.iv@);
        let r = compress(bytes.as_slice());
        assert(lists(es, self.table@) && bytes@ == table_bytes(es, self.iv@));
        r
    }

    /// The branch data recorded for `addr`: `NotFound` where there is no
    /// entry, `DataCorrupt` where the entry does not decrypt to branch data.
    pub fn get_jump_data(&self, addr: u64) -> (r: Result<JumpData, JDTError>)
        ensures
            r == lookup(self.table@, self.iv@, addr),
            self.table@.contains_key(addr) ==> forall|d: JumpData|
                self.table@[addr].data@ == #[trigger] aes256_cbc_encrypt(
                    self.table@[addr].key.0@,
                    self.iv@,
                    d.bytes(),
                ) ==> r == Ok::<JumpData, JDTError>(d),
    {
        match self.table.get(&addr) {
            Some(entry) => entry.decrypt(&self.iv),
            None => Err(JDTError { kind: JDTErrorKind::NotFound }),
        }
    }
}

} // verus!
