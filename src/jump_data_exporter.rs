use vstd::prelude::*;

use std::collections::HashMap;

use vstd::std_specs::iter::IteratorSpec;

use crate::codec::{compress, compressible, snappy_compress, table_bytes, table_shaped};
use crate::crypto::{aes256_cbc_encrypt, random_array};
use crate::infestor::BuildError;
use crate::jump_data::JumpData;
use crate::jump_data_table::{
    lemma_read_back, lists, read_from, EncryptedJumpData, JDTError, JumpDataTable, RekkEncKey,
};

verus! {

broadcast use vstd::std_specs::hash::group_hash_axioms;

fn insert_all(dst: &mut HashMap<u64, JumpData>, src: &HashMap<u64, JumpData>) -> (r: bool)
    ensures
        r == old(dst)@.dom().disjoint(src@.dom()),
        r ==> final(dst)@ == old(dst)@.union_prefer_right(src@),
{
    let ghost start = old(dst)@;
    let iter = src.iter();
    let ghost s = iter.remaining();
    proof {
        broadcast use vstd::std_specs::hash::axiom_spec_hash_map_iter;
        assert(s.len() == src@.dom().len());
    }
    for kv in it: iter
        invariant
            it.seq() == s,
            start == old(dst)@,
            s.no_duplicates(),
            forall|i: int|
                0 <= i < s.len() ==> src@.contains_key(*s[i].0) && src@[*s[i].0] == *s[i].1,
            forall|k: u64| #[trigger] src@.contains_key(k) ==> s.contains((&k, &src@[k])),
            forall|i: int| 0 <= i < it.index() ==> !start.contains_key(*s[i].0),
            forall|i: int|
                0 <= i < it.index() ==> dst@.contains_key(*s[i].0) && dst@[*s[i].0] == *s[i].1,
            forall|k: u64|
                #[trigger] start.contains_key(k) ==> dst@.contains_key(k) && dst@[k] == start[k],
            forall|k: u64|
                #[trigger] dst@.contains_key(k) ==> start.contains_key(k) || exists|i: int|
                    0 <= i < it.index() && *s[i].0 == k,
    {
        let (k, v) = kv;
        let ghost idx = it.index();
        assert(kv == s[idx]);
        if dst.contains_key(k) {
            proof {
                assert(src@.contains_key(*k));
                if !start.contains_key(*k) {
                    let i = choose|i: int| 0 <= i < idx && *s[i].0 == *k;
                    assert(s[i] == s[idx]);
                    assert(false);
                }
                assert(start.dom().contains(*k) && src@.dom().contains(*k));
                assert(!old(dst)@.dom().disjoint(src@.dom()));
            }
            return false;
        }
        assert(!start.contains_key(*k));
        dst.insert(*k, *v);
        assert(*s[idx].0 == *k);
    }
    proof {
        assert forall|k: u64| src@.contains_key(k) implies !start.contains_key(k) && dst@.contains_key(k)
            && dst@[k] == src@[k] by {
            assert(s.contains((&k, &src@[k])));
            let i = choose|i: int| 0 <= i < s.len() && s[i] == (&k, &src@[k]);
            assert(*s[i].0 == k);
        }
        assert forall|k: u64| dst@.contains_key(k) implies start.contains_key(k)
            || src@.contains_key(k) by {
            if !start.contains_key(k) {
                let i = choose|i: int| 0 <= i < s.len() && *s[i].0 == k;
            }
        }
        assert(dst@ =~= start.union_prefer_right(src@));
    }
    true
}

/// The views of a list of tables.
pub open spec fn views(tables: Seq<HashMap<u64, JumpData>>) -> Seq<Map<u64, JumpData>> {
    tables.map_values(|t: HashMap<u64, JumpData>| t@)
}

/// Whether no address is recorded in two of the maps.
pub open spec fn pairwise_disjoint(ms: Seq<Map<u64, JumpData>>) -> bool {
    forall|i: int, j: int| 0 <= i < j < ms.len() ==> #[trigger] ms[i].dom().disjoint(#[trigger] ms[j].dom())
}

/// All entries of the maps together.
pub open spec fn union_all(ms: Seq<Map<u64, JumpData>>) -> Map<u64, JumpData>
    decreases ms.len(),
{
    if ms.len() == 0 {
        Map::empty()
    } else {
        union_all(ms.drop_last()).union_prefer_right(ms.last())
    }
}

proof fn lemma_union_all_dom(ms: Seq<Map<u64, JumpData>>, k: u64)
    ensures
        union_all(ms).contains_key(k) <==> exists|j: int| 0 <= j < ms.len() && #[trigger] ms[j].contains_key(k),
    decreases ms.len(),
{
    if ms.len() > 0 {
        lemma_union_all_dom(ms.drop_last(), k);
        if union_all(ms.drop_last()).contains_key(k) {
            let j = choose|j: int| 0 <= j < ms.drop_last().len() && #[trigger] ms.drop_last()[j].contains_key(k);
            assert(ms[j] == ms.drop_last()[j]);
        }
        if exists|j: int| 0 <= j < ms.len() && #[trigger] ms[j].contains_key(k) {
            let j = choose|j: int| 0 <= j < ms.len() && #[trigger] ms[j].contains_key(k);
            if j < ms.len() - 1 {
                assert(ms.drop_last()[j] == ms[j]);
            }
        }
    }
}

/// Merging two section maps succeeds exactly when no address is in both,
/// and then holds the entries of both.
pub proof fn lemma_merge_two(a: Map<u64, JumpData>, b: Map<u64, JumpData>)
    ensures
        pairwise_disjoint(seq![a, b]) <==> a.dom().disjoint(b.dom()),
        pairwise_disjoint(seq![a, b]) ==> union_all(seq![a, b]) == a.union_prefer_right(b),
{
    let ms = seq![a, b];
    assert(ms.drop_last() =~= seq![a]);
    assert(seq![a].drop_last() =~= Seq::<Map<u64, JumpData>>::empty());
    assert(union_all(seq![a].drop_last()) == Map::<u64, JumpData>::empty());
    assert(union_all(seq![a]) == Map::<u64, JumpData>::empty().union_prefer_right(a));
    assert(union_all(seq![a]) =~= a);
    assert(union_all(ms) == union_all(seq![a]).union_prefer_right(b));
    if a.dom().disjoint(b.dom()) {
        assert forall|i: int, j: int| 0 <= i < j < ms.len() implies #[trigger] ms[i].dom().disjoint(
            #[trigger] ms[j].dom(),
        ) by {
            assert(i == 0 && j == 1);
        }
    } else {
        assert(ms[0].dom().disjoint(ms[1].dom()) == false);
    }
}

/// Merges the per-section maps into one; fails with `DuplicateAddress`
/// exactly when two of them record the same address.
pub fn merge_jdts(tables: &Vec<HashMap<u64, JumpData>>) -> (r: Result<
    HashMap<u64, JumpData>,
    BuildError,
>)
    ensures
        match r {
            Ok(m) => pairwise_disjoint(views(tables@)) && m@ == union_all(views(tables@)),
            Err(e) => !pairwise_disjoint(views(tables@)) && e == BuildError::DuplicateAddress,
        },
{
    let ghost vs = views(tables@);
    let mut master: HashMap<u64, JumpData> = HashMap::new();
    let mut i: usize = 0;
    assert(vs.take(0) =~= Seq::<Map<u64, JumpData>>::empty());
    while i < tables.len()
        invariant
            vs == views(tables@),
            0 <= i <= tables@.len(),
            master@ == union_all(vs.take(i as int)),
            pairwise_disjoint(vs.take(i as int)),
        decreases tables@.len() - i,
    {
        let ghost before = vs.take(i as int);
        let ghost after = vs.take(i as int + 1);
        assert(after.drop_last() =~= before);
        assert(after.last() == tables@[i as int]@);
        let fits = insert_all(&mut master, &tables[i]);
        if !fits {
            proof {
                let k = choose|k: u64| union_all(before).dom().contains(k) && tables@[i as int]@.dom().contains(k);
                lemma_union_all_dom(before, k);
                let j = choose|j: int| 0 <= j < before.len() && #[trigger] before[j].contains_key(k);
                assert(vs[j] == before[j]);
                assert(!vs[j].dom().disjoint(vs[i as int].dom()));
            }
            return Err(BuildError::DuplicateAddress);
        }
        proof {
            assert forall|a: int, b: int| 0 <= a < b < after.len() implies #[trigger] after[a].dom().disjoint(
                #[trigger] after[b].dom(),
            ) by {
                if b == i {
                    assert forall|k: u64| after[a].dom().contains(k) implies !after[b].dom().contains(k) by {
                        lemma_union_all_dom(before, k);
                        assert(before[a] == after[a]);
                    }
                } else {
                    assert(before[a] == after[a] && before[b] == after[b]);
                }
            }
        }
        i = i + 1;
    }
    assert(vs.take(i as int) =~= vs);
    Ok(master)
}

/// Whether `t` holds, for each address of `m`, the encryption of its branch
/// data under the entry's own key and the shared IV, and nothing else.
pub open spec fn encrypts(t: Map<u64, EncryptedJumpData>, iv: Seq<u8>, m: Map<u64, JumpData>) -> bool {
    &&& t.dom() == m.dom()
    &&& forall|k: u64| #[trigger]
        t.contains_key(k) ==> t[k].data@ == aes256_cbc_encrypt(t[k].key.0@, iv, m[k].bytes())
}

/// Encrypts every entry of `master` under its key in `keys` and the shared
/// `iv`.
pub fn encrypt_jdt(
    master: &HashMap<u64, JumpData>,
    keys: &HashMap<u64, [u8; 32]>,
    iv: [u8; 16],
) -> (t: JumpDataTable)
    requires
        forall|k: u64| #[trigger] master@.contains_key(k) ==> keys@.contains_key(k),
    ensures
        t.iv == iv,
        encrypts(t.table@, iv@, master@),
        forall|k: u64| #[trigger] t.table@.contains_key(k) ==> t.table@[k].key.0 == keys@[k],
{
    let mut table: HashMap<u64, EncryptedJumpData> = HashMap::new();
    let iter = master.iter();
    let ghost s = iter.remaining();
    proof {
        broadcast use vstd::std_specs::hash::axiom_spec_hash_map_iter;
    }
    for kv in it: iter
        invariant
            it.seq() == s,
            forall|k: u64| #[trigger] master@.contains_key(k) ==> keys@.contains_key(k),
            forall|i: int|
                0 <= i < s.len() ==> master@.contains_key(*(#[trigger] s[i]).0) && master@[*s[i].0]
                    == *s[i].1,
            forall|k: u64| #[trigger] master@.contains_key(k) ==> s.contains((&k, &master@[k])),
            forall|i: int| 0 <= i < it.index() ==> table@.contains_key(*(#[trigger] s[i]).0),
            forall|k: u64| #[trigger]
                table@.contains_key(k) ==> master@.contains_key(k) && table@[k].data@
                    == aes256_cbc_encrypt(table@[k].key.0@, iv@, master@[k].bytes())
                    && table@[k].key.0 == keys@[k],
    {
        let (k, v) = kv;
        let ghost idx = it.index();
        assert(kv == s[idx]);
        assert(master@.contains_key(*k));
        let key = *keys.get(k).unwrap();
        let entry = v.encrypt(RekkEncKey(key), &iv);
        table.insert(*k, entry);
    }
    proof {
        assert forall|k: u64| #[trigger] master@.contains_key(k) implies table@.contains_key(k) by {
            assert(s.contains((&k, &master@[k])));
            let i = choose|i: int| 0 <= i < s.len() && s[i] == (&k, &master@[k]);
            assert(table@.contains_key(*s[i].0));
        }
        assert(table@.dom() =~= master@.dom());
    }
    JumpDataTable { table, iv }
}

/// Whether `es`, `iv` is an export of `m`: `es` lists the addresses of `m`,
/// each once, with a 32-byte key and the encryption of its branch data under
/// that key and `iv`.
pub open spec fn exported(es: Seq<(u64, Seq<u8>, Seq<u8>)>, iv: Seq<u8>, m: Map<u64, JumpData>) -> bool {
    &&& iv.len() == 16
    &&& forall|i: int|
        0 <= i < es.len() ==> m.contains_key((#[trigger] es[i]).0) && es[i].1.len() == 32 && es[i].2
            == aes256_cbc_encrypt(es[i].1, iv, m[es[i].0].bytes())
    &&& forall|k: u64| #[trigger]
        m.contains_key(k) ==> exists|i: int| 0 <= i < es.len() && (#[trigger] es[i]).0 == k
    &&& forall|i: int, j: int| 0 <= i < j < es.len() ==> (#[trigger] es[i]).0 != (#[trigger] es[j]).0
}

/// A table read back from the bytes of an export of `m` holds the export's
/// IV and, for each address of `m`, the encryption of its branch data under
/// the entry's own key, and nothing else.
pub proof fn lemma_export_reads_back(
    es: Seq<(u64, Seq<u8>, Seq<u8>)>,
    iv: Seq<u8>,
    m: Map<u64, JumpData>,
    r: Result<JumpDataTable, JDTError>,
)
    requires
        exported(es, iv, m),
        table_shaped(es, iv),
        read_from(table_bytes(es, iv), r),
    ensures
        r is Ok,
        r->Ok_0.iv@ == iv,
        encrypts(r->Ok_0.table@, iv, m),
{
    lemma_read_back(table_bytes(es, iv), r, es, iv);
    let t = r->Ok_0.table@;
    assert forall|k: u64| #[trigger] m.contains_key(k) implies t.contains_key(k) && t[k].data@
        == aes256_cbc_encrypt(t[k].key.0@, iv, m[k].bytes()) by {
        let i = choose|i: int| 0 <= i < es.len() && (#[trigger] es[i]).0 == k;
        assert forall|j: int| i < j < es.len() implies (#[trigger] es[j]).0 != es[i].0 by {}
    }
    assert forall|k: u64| #[trigger] t.contains_key(k) implies m.contains_key(k) by {
        let i = choose|i: int| 0 <= i < es.len() && (#[trigger] es[i]).0 == k;
    }
    assert(t.dom() =~= m.dom());
}

/// Whether each entry of `es` carries the key that `keys` gives its address.
pub open spec fn keyed(es: Seq<(u64, Seq<u8>, Seq<u8>)>, keys: Map<u64, [u8; 32]>) -> bool {
    forall|i: int| 0 <= i < es.len() ==> (#[trigger] es[i]).1 == keys[es[i].0]@
}

/// Encrypts every entry of `master` under its key in `keys` and the shared
/// `iv`, and returns the compressed bytes of the table; `Compress` exactly
/// where those bytes are too many for the compressor.
pub fn export_table(
    master: &HashMap<u64, JumpData>,
    keys: &HashMap<u64, [u8; 32]>,
    iv: [u8; 16],
) -> (r: Result<Vec<u8>, BuildError>)
    requires
        forall|k: u64| #[trigger] master@.contains_key(k) ==> keys@.contains_key(k),
    ensures
        r is Err ==> r == Err::<Vec<u8>, BuildError>(BuildError::Compress),
        r matches Ok(b) ==> exists|es: Seq<(u64, Seq<u8>, Seq<u8>)>|
            #[trigger] exported(es, iv@, master@) && keyed(es, keys@) && table_shaped(es, iv@)
                && compressible(table_bytes(es, iv@).len()) && b@ == snappy_compress(
                table_bytes(es, iv@),
            ),
        r is Err ==> exists|es: Seq<(u64, Seq<u8>, Seq<u8>)>|
            #[trigger] exported(es, iv@, master@) && keyed(es, keys@) && !compressible(
                table_bytes(es, iv@).len(),
            ),
{
    let jdt = encrypt_jdt(master, keys, iv);
    let bytes = jdt.to_bytes();
    let ghost es = choose|es: Seq<(u64, Seq<u8>, Seq<u8>)>|
        lists(es, jdt.table@) && table_shaped(es, jdt.iv@) && bytes@ == table_bytes(es, jdt.iv@);
    proof {
        assert forall|i: int| 0 <= i < es.len() implies master@.contains_key((#[trigger] es[i]).0)
            && es[i].1.len() == 32 && es[i].2 == aes256_cbc_encrypt(
            es[i].1,
            iv@,
            master@[es[i].0].bytes(),
        ) && es[i].1 == keys@[es[i].0]@ by {
            assert(jdt.table@.contains_key(es[i].0));
        }
        assert forall|k: u64| #[trigger] master@.contains_key(k) implies exists|i: int|
            0 <= i < es.len() && (#[trigger] es[i]).0 == k by {
            assert(jdt.table@.contains_key(k));
        }
        assert(exported(es, iv@, master@));
        assert(keyed(es, keys@));
    }
    match compress(bytes.as_slice()) {
        Some(c) => Ok(c),
        None => Err(BuildError::Compress),
    }
}

/// One fresh random key for each address of `master`.
fn draw_keys(master: &HashMap<u64, JumpData>) -> (keys: HashMap<u64, [u8; 32]>)
    ensures
        forall|k: u64| #[trigger] master@.contains_key(k) ==> keys@.contains_key(k),
{
    let mut keys: HashMap<u64, [u8; 32]> = HashMap::new();
    let iter = master.iter();
    let ghost s = iter.remaining();
    proof {
        broadcast use vstd::std_specs::hash::axiom_spec_hash_map_iter;
    }
    for kv in it: iter
        invariant
            it.seq() == s,
            forall|k: u64| #[trigger] master@.contains_key(k) ==> s.contains((&k, &master@[k])),
            forall|i: int| 0 <= i < it.index() ==> keys@.contains_key(*(#[trigger] s[i]).0),
    {
        let (k, _) = kv;
        let ghost idx = it.index();
        assert(kv == s[idx]);
        keys.insert(*k, random_array::<32>());
    }
    proof {
        assert forall|k: u64| #[trigger] master@.contains_key(k) implies keys@.contains_key(k) by {
            assert(s.contains((&k, &master@[k])));
            let i = choose|i: int| 0 <= i < s.len() && s[i] == (&k, &master@[k]);
            assert(keys@.contains_key(*s[i].0));
        }
    }
    keys
}

/// Merges the section maps, encrypts every entry under its own random key
/// and one random IV, and returns the compressed bytes of the table. Fails
/// with `DuplicateAddress` exactly where two maps share an address, and
/// otherwise with `Compress` exactly where the table's bytes are too many
/// for the compressor.
pub fn export_jdt(table: Vec<HashMap<u64, JumpData>>) -> (r: Result<Vec<u8>, BuildError>)
    ensures
        r == Err::<Vec<u8>, BuildError>(BuildError::DuplicateAddress) <==> !pairwise_disjoint(
            views(table@),
        ),
        r is Err ==> r == Err::<Vec<u8>, BuildError>(BuildError::DuplicateAddress) || r == Err::<
            Vec<u8>,
            BuildError,
        >(BuildError::Compress),
        r is Ok ==> exists|es: Seq<(u64, Seq<u8>, Seq<u8>)>, iv: Seq<u8>|
            #[trigger] exported(es, iv, union_all(views(table@))) && table_shaped(es, iv)
                && compressible(table_bytes(es, iv).len()) && r->Ok_0@ == snappy_compress(
                table_bytes(es, iv),
            ),
        r == Err::<Vec<u8>, BuildError>(BuildError::Compress) ==> exists|
            es: Seq<(u64, Seq<u8>, Seq<u8>)>,
            iv: Seq<u8>,
        |
            #[trigger] exported(es, iv, union_all(views(table@))) && !compressible(
                table_bytes(es, iv).len(),
            ),
{
    let master = match merge_jdts(&table) {
        Ok(m) => m,
        Err(e) => {
            return Err(e);
        },
    };
    let iv = random_array::<16>();
    let keys = draw_keys(&master);
    export_table(&master, &keys, iv)
}

} // verus!
