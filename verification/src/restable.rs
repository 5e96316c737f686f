//! The compiled resource table, decoded by the library itself: a
//! chunked binary layout whose parts the label lookup reads are a
//! global string pool and, in the first package, the configuration
//! blocks of each type. Decoding is defensive throughout: a chunk
//! that does not fit, a string that does not decode, or a type id
//! out of range yields no table at all, never a fault.
//!
//! A table holds packages in order; each package holds types indexed
//! by `type id - 1`; each type holds configuration blocks; each block
//! holds entries keyed by a within-type index. A value is either a
//! plain string-pool index or a bag of indices, of which resolution
//! takes the first.

use vstd::prelude::*;

use crate::pool::{le16, le32, parse_pool, read_le16, read_le32, spec_pool};

verus! {

/// A resolved value: a pool index, or an ordered bag of pool indices.
pub enum ResValue {
    Plain(usize),
    Bag(Vec<usize>),
}

/// One entry of a configuration block, keyed by its within-type index.
pub struct ResEntry {
    pub key: usize,
    pub value: ResValue,
}

/// One configuration block of a type.
pub struct ResConfig {
    pub entries: Vec<ResEntry>,
}

/// One resource type of a package.
pub struct ResType {
    pub configs: Vec<ResConfig>,
}

/// One package of the table.
pub struct ResPackage {
    pub types: Vec<ResType>,
}

/// The table: its packages and the global string pool they share.
pub struct ResTable {
    pub packages: Vec<ResPackage>,
    pub pool: Vec<String>,
}

/// The mathematical value of a `ResValue`.
#[verifier::ext_equal]
pub enum ValueTV {
    Plain(int),
    Bag(Seq<int>),
}

/// The mathematical value of a `ResEntry`.
#[verifier::ext_equal]
pub struct EntryTV {
    pub key: int,
    pub value: ValueTV,
}

/// The mathematical value of a `ResConfig`.
#[verifier::ext_equal]
pub struct ConfigTV {
    pub entries: Seq<EntryTV>,
}

/// The mathematical value of a `ResType`.
#[verifier::ext_equal]
pub struct TypeTV {
    pub configs: Seq<ConfigTV>,
}

/// The mathematical value of a `ResPackage`.
#[verifier::ext_equal]
pub struct PackageTV {
    pub types: Seq<TypeTV>,
}

/// The mathematical value of a `ResTable`.
#[verifier::ext_equal]
pub struct TableV {
    pub packages: Seq<PackageTV>,
    pub pool: Seq<Seq<char>>,
}

impl View for ResValue {
    type V = ValueTV;

    open spec fn view(&self) -> ValueTV {
        match self {
            ResValue::Plain(i) => ValueTV::Plain(*i as int),
            ResValue::Bag(v) => ValueTV::Bag(v@.map_values(|x: usize| x as int)),
        }
    }
}

impl View for ResEntry {
    type V = EntryTV;

    open spec fn view(&self) -> EntryTV {
        EntryTV { key: self.key as int, value: self.value@ }
    }
}

impl View for ResConfig {
    type V = ConfigTV;

    open spec fn view(&self) -> ConfigTV {
        ConfigTV { entries: self.entries@.map_values(|e: ResEntry| e@) }
    }
}

impl View for ResType {
    type V = TypeTV;

    open spec fn view(&self) -> TypeTV {
        TypeTV { configs: self.configs@.map_values(|c: ResConfig| c@) }
    }
}

impl View for ResPackage {
    type V = PackageTV;

    open spec fn view(&self) -> PackageTV {
        PackageTV { types: self.types@.map_values(|t: ResType| t@) }
    }
}

impl View for ResTable {
    type V = TableV;

    open spec fn view(&self) -> TableV {
        TableV {
            packages: self.packages@.map_values(|p: ResPackage| p@),
            pool: self.pool@.map_values(|s: String| s@),
        }
    }
}

/// The value of the first entry with the given key, scanning a
/// block's entries in order.
pub open spec fn first_entry_value(entries: Seq<EntryTV>, index: int) -> Option<ValueTV>
    decreases entries.len(),
{
    if entries.len() == 0 {
        None
    } else if entries[0].key == index {
        Some(entries[0].value)
    } else {
        first_entry_value(entries.drop_first(), index)
    }
}

/// The value found in the first configuration block that holds an
/// entry with the given key; blocks are scanned in order and the
/// first hit wins.
pub open spec fn first_config_value(configs: Seq<ConfigTV>, index: int) -> Option<ValueTV>
    decreases configs.len(),
{
    if configs.len() == 0 {
        None
    } else {
        match first_entry_value(configs[0].entries, index) {
            Some(v) => Some(v),
            None => first_config_value(configs.drop_first(), index),
        }
    }
}

/// The pool index a value yields: a plain value's own index, or the
/// first index of a non-empty bag.
pub open spec fn value_pool_index(v: ValueTV) -> Option<int> {
    match v {
        ValueTV::Plain(i) => Some(i),
        ValueTV::Bag(s) => if s.len() > 0 {
            Some(s[0])
        } else {
            None
        },
    }
}

/// Resolution of a 1-based type id and a within-type entry index
/// against the table's first package; any miss along the way, and a
/// pool index out of range, yield nothing.
pub open spec fn spec_resolve(t: TableV, type_id: int, index: int) -> Option<Seq<char>> {
    if t.packages.len() == 0 {
        None
    } else if type_id < 1 || type_id > t.packages[0].types.len() {
        None
    } else {
        match first_config_value(t.packages[0].types[type_id - 1].configs, index) {
            None => None,
            Some(v) => match value_pool_index(v) {
                None => None,
                Some(di) => if 0 <= di < t.pool.len() {
                    Some(t.pool[di])
                } else {
                    None
                },
            },
        }
    }
}

/// A packed 32-bit resource identifier: bits 23 to 16 hold the
/// 1-based type id, bits 15 to 0 the entry index; the source package
/// bits are ignored. A packed type id of zero resolves nothing.
pub open spec fn spec_resolve_id(t: TableV, id: u32) -> Option<Seq<char>> {
    let tid = ((id >> 16) & 0xff) as int;
    let index = (id & 0xffff) as int;
    if tid == 0 {
        None
    } else {
        spec_resolve(t, tid, index)
    }
}

/// The value of an optional owned string.
pub open spec fn opt_str_view(o: Option<String>) -> Option<Seq<char>> {
    match o {
        Some(s) => Some(s@),
        None => None,
    }
}

/// A scan that saw no hit before `k`, and a hit at `k` if `k` is in
/// range, has found the first entry.
proof fn lemma_first_entry_at(entries: Seq<EntryTV>, index: int, k: int)
    requires
        0 <= k <= entries.len(),
        forall|j: int| 0 <= j < k ==> (#[trigger] entries[j]).key != index,
        k < entries.len() ==> entries[k].key == index,
    ensures
        first_entry_value(entries, index) == if k < entries.len() {
            Some(entries[k].value)
        } else {
            None::<ValueTV>
        },
    decreases entries.len(),
{
    if entries.len() == 0 {
    } else if entries[0].key == index {
        assert(k == 0);
    } else {
        assert(k >= 1);
        let t = entries.drop_first();
        assert forall|j: int| 0 <= j < k - 1 implies (#[trigger] t[j]).key != index by {
            assert(t[j] == entries[j + 1]);
        }
        assert(k - 1 < t.len() ==> t[k - 1].key == index);
        lemma_first_entry_at(t, index, k - 1);
        if k < entries.len() {
            assert(t[k - 1] == entries[k]);
        }
    }
}

/// The block-level counterpart: no block before `k` held the key, so
/// the value comes from block `k`, or from nowhere.
proof fn lemma_first_config_at(configs: Seq<ConfigTV>, index: int, k: int)
    requires
        0 <= k <= configs.len(),
        forall|j: int|
            0 <= j < k ==> first_entry_value((#[trigger] configs[j]).entries, index) is None,
        k < configs.len() ==> first_entry_value(configs[k].entries, index) is Some,
    ensures
        first_config_value(configs, index) == if k < configs.len() {
            first_entry_value(configs[k].entries, index)
        } else {
            None::<ValueTV>
        },
    decreases configs.len(),
{
    if configs.len() == 0 {
    } else if k == 0 {
        // the hit, if any, is in the very first block
    } else {
        assert(first_entry_value(configs[0].entries, index) is None);
        let t = configs.drop_first();
        assert forall|j: int|
            0 <= j < k - 1 implies first_entry_value(
            (#[trigger] t[j]).entries,
            index,
        ) is None by {
            assert(t[j] == configs[j + 1]);
        }
        assert(k - 1 < t.len() ==> t[k - 1] == configs[k]);
        lemma_first_config_at(t, index, k - 1);
        if k < configs.len() {
            assert(t[k - 1] == configs[k]);
        }
    }
}

/// The pool index an entry's value yields.
fn value_pool_idx(v: &ResValue) -> (r: Option<usize>)
    ensures
        match r {
            Some(i) => value_pool_index(v@) == Some(i as int),
            None => value_pool_index(v@) is None,
        },
{
    match v {
        ResValue::Plain(i) => Some(*i),
        ResValue::Bag(s) => {
            if s.len() > 0 {
                assert(s@.map_values(|x: usize| x as int)[0] == s@[0] as int);
                Some(s[0])
            } else {
                None
            }
        },
    }
}

/// Look a resolved type id and entry index up in the table.
#[verifier::loop_isolation(false)]
pub fn resolve_in_table(t: &ResTable, type_id: usize, index: usize) -> (r: Option<String>)
    ensures
        opt_str_view(r) == spec_resolve(t@, type_id as int, index as int),
{
    if t.packages.len() == 0 {
        return None;
    }
    let pkg = &t.packages[0];
    proof {
        assert(t@.packages[0] == pkg@);
    }
    if type_id < 1 || type_id > pkg.types.len() {
        return None;
    }
    let ty = &pkg.types[type_id - 1];
    let ghost configs_tv = t@.packages[0].types[type_id - 1].configs;
    proof {
        assert(t@.packages[0].types[type_id - 1] == ty@);
    }
    let mut ci: usize = 0;
    while ci < ty.configs.len()
        invariant
            configs_tv == ty@.configs,
            ty@.configs.len() == ty.configs@.len(),
            0 <= ci <= ty.configs@.len(),
            forall|j: int|
                0 <= j < ci ==> first_entry_value(
                    (#[trigger] configs_tv[j]).entries,
                    index as int,
                ) is None,
        decreases ty.configs@.len() - ci,
    {
        let c = &ty.configs[ci];
        let ghost entries_tv = configs_tv[ci as int].entries;
        proof {
            assert(configs_tv[ci as int] == c@);
        }
        let mut ei: usize = 0;
        while ei < c.entries.len()
            invariant
                entries_tv == c@.entries,
                c@.entries.len() == c.entries@.len(),
                0 <= ei <= c.entries@.len(),
                forall|j: int| 0 <= j < ei ==> (#[trigger] entries_tv[j]).key != index as int,
            decreases c.entries@.len() - ei,
        {
            if c.entries[ei].key == index {
                proof {
                    assert(entries_tv[ei as int] == c.entries@[ei as int]@);
                    lemma_first_entry_at(entries_tv, index as int, ei as int);
                    lemma_first_config_at(configs_tv, index as int, ci as int);
                }
                let vi = value_pool_idx(&c.entries[ei].value);
                proof {
                    assert(entries_tv[ei as int].value == c.entries@[ei as int].value@);
                }
                match vi {
                    Some(di) => {
                        if di < t.pool.len() {
                            proof {
                                assert(t@.pool[di as int] == t.pool@[di as int]@);
                            }
                            return Some(t.pool[di].clone());
                        } else {
                            return None;
                        }
                    },
                    None => {
                        return None;
                    },
                }
            }
            proof {
                assert(entries_tv[ei as int] == c.entries@[ei as int]@);
            }
            ei += 1;
        }
        proof {
            lemma_first_entry_at(entries_tv, index as int, ei as int);
        }
        ci += 1;
    }
    proof {
        lemma_first_config_at(configs_tv, index as int, ci as int);
    }
    None
}

/// Resolve a packed 32-bit resource identifier against the table.
pub fn resolve_reference(t: &ResTable, id: u32) -> (r: Option<String>)
    ensures
        opt_str_view(r) == spec_resolve_id(t@, id),
{
    let tid = ((id >> 16) & 0xff) as usize;
    let index = (id & 0xffff) as usize;
    if tid == 0 {
        None
    } else {
        resolve_in_table(t, tid, index)
    }
}


/// One resource entry at `off`, keyed by the offsets-table position
/// `key`: either a plain 8-byte value, or a bag whose values follow
/// it; the bag's pool indices are kept in order.
pub open spec fn spec_entry(b: Seq<u8>, off: int, key: int) -> Option<(EntryTV, int)> {
    if !(0 <= off && off + 16 <= b.len()) {
        None
    } else {
        let flags = le16(b, off + 2);
        if flags % 2 == 1 {
            let cnt = le32(b, off + 12);
            if off + 16 + 12 * cnt <= b.len() {
                Some(
                    (
                        EntryTV {
                            key,
                            value: ValueTV::Bag(
                                Seq::new(cnt as nat, |k: int| le32(b, off + 16 + 12 * k + 8)),
                            ),
                        },
                        off + 16 + 12 * cnt,
                    ),
                )
            } else {
                None
            }
        } else {
            Some((EntryTV { key, value: ValueTV::Plain(le32(b, off + 12)) }, off + 16))
        }
    }
}

/// The entries a block's offsets table announces, decoded back to
/// back; a slot of all one bits announces no entry for that key.
pub open spec fn spec_block_entries(b: Seq<u8>, otab: int, n: int, k: int, cur: int) -> Option<
    (Seq<EntryTV>, int),
>
    decreases n - k,
{
    if k >= n {
        Some((Seq::empty(), cur))
    } else if !(0 <= otab && otab + 4 * n <= b.len()) {
        None
    } else if le32(b, otab + 4 * k) == 0xFFFFFFFF {
        spec_block_entries(b, otab, n, k + 1, cur)
    } else {
        match spec_entry(b, cur, k) {
            None => None,
            Some(e) => match spec_block_entries(b, otab, n, k + 1, e.1) {
                None => None,
                Some(rest) => Some((seq![e.0] + rest.0, rest.1)),
            },
        }
    }
}

/// One configuration-block chunk: its type id and its entries.
pub open spec fn spec_config_chunk(b: Seq<u8>, off: int) -> Option<(int, ConfigTV)> {
    if !(0 <= off && off + 24 <= b.len()) {
        None
    } else {
        let type_id = b[off + 8] as int;
        let entry_count = le32(b, off + 12);
        let cid_size = le32(b, off + 20);
        if cid_size < 4 {
            None
        } else {
            let otab = off + 20 + cid_size;
            if !(otab + 4 * entry_count <= b.len()) {
                None
            } else {
                match spec_block_entries(b, otab, entry_count, 0, otab + 4 * entry_count) {
                    None => None,
                    Some(es) => Some((type_id, ConfigTV { entries: es.0 })),
                }
            }
        }
    }
}

/// The configuration-block chunks of a package, with their type ids,
/// in chunk order; type-spec chunks are skipped, and the scan stops
/// at the data's end or at any chunk of another kind.
pub open spec fn spec_chunk_list(b: Seq<u8>, off: int) -> Option<Seq<(int, ConfigTV)>>
    decreases b.len() - off,
{
    if !(0 <= off && off + 8 <= b.len()) {
        Some(Seq::empty())
    } else {
        let ctype = le16(b, off);
        let csize = le32(b, off + 4);
        if csize < 8 || off + csize > b.len() {
            Some(Seq::empty())
        } else if ctype == 0x0202 {
            spec_chunk_list(b, off + csize)
        } else if ctype == 0x0201 {
            match spec_config_chunk(b, off) {
                None => None,
                Some(tc) => match spec_chunk_list(b, off + csize) {
                    None => None,
                    Some(rest) => Some(seq![tc] + rest),
                },
            }
        } else {
            Some(Seq::empty())
        }
    }
}

/// The blocks of one type: the listed chunks carrying its id, in
/// chunk order.
pub open spec fn configs_for(list: Seq<(int, ConfigTV)>, tid: int) -> Seq<ConfigTV>
    decreases list.len(),
{
    if list.len() == 0 {
        Seq::empty()
    } else {
        let rest = configs_for(list.drop_first(), tid);
        if list[0].0 == tid {
            seq![list[0].1] + rest
        } else {
            rest
        }
    }
}

/// The first package chunk: its type count is the type-name pool's
/// string count, and every configuration block must name a type in
/// range.
pub open spec fn spec_package(b: Seq<u8>, base: int) -> Option<PackageTV> {
    if !(0 <= base && base + 288 <= b.len()) {
        None
    } else if le16(b, base) != 0x0200 {
        None
    } else {
        match spec_pool(b, base + 288) {
            None => None,
            Some(tn) => match spec_pool(b, tn.end) {
                None => None,
                Some(kn) => match spec_chunk_list(b, kn.end) {
                    None => None,
                    Some(list) => if forall|j: int|
                        0 <= j < list.len() ==> 1 <= (#[trigger] list[j]).0 <= tn.strings.len() {
                        Some(
                            PackageTV {
                                types: Seq::new(
                                    tn.strings.len(),
                                    |i: int| TypeTV { configs: configs_for(list, i + 1) },
                                ),
                            },
                        )
                    } else {
                        None
                    },
                },
            },
        }
    }
}

/// A whole table: the global string pool, then the packages, of
/// which only the first is decoded — resolution consults no other.
pub open spec fn spec_parse_table(b: Seq<u8>) -> Option<TableV> {
    if b.len() < 12 {
        None
    } else if le16(b, 0) != 0x0002 {
        None
    } else {
        let package_count = le32(b, 8);
        match spec_pool(b, 12) {
            None => None,
            Some(pool) => if package_count == 0 {
                Some(TableV { packages: Seq::empty(), pool: pool.strings })
            } else {
                match spec_package(b, pool.end) {
                    None => None,
                    Some(p) => Some(TableV { packages: seq![p], pool: pool.strings }),
                }
            },
        }
    }
}

/// Decode one resource entry.
#[verifier::loop_isolation(false)]
fn parse_entry(b: &[u8], off: usize, key: usize) -> (r: Option<(ResEntry, usize)>)
    ensures
        match r {
            Some(p) => spec_entry(b@, off as int, key as int) == Some((p.0@, p.1 as int)),
            None => spec_entry(b@, off as int, key as int) is None,
        },
{
    let len = b.len();
    if off > len || len - off < 16 {
        return None;
    }
    let flags = read_le16(b, off + 2);
    if flags % 2 == 1 {
        let cnt = read_le32(b, off + 12) as usize;
        if (cnt as u128) * 12 > (len - off - 16) as u128 {
            return None;
        }
        let mut idxs: Vec<usize> = Vec::new();
        let mut k: usize = 0;
        while k < cnt
            invariant
                off + 16 + 12 * cnt <= b@.len(),
                0 <= k <= cnt,
                idxs@.len() == k,
                forall|i: int|
                    0 <= i < k ==> #[trigger] idxs@[i] as int == le32(
                        b@,
                        off + 16 + 12 * i + 8,
                    ),
            decreases cnt - k,
        {
            let di = read_le32(b, off + 16 + 12 * k + 8) as usize;
            idxs.push(di);
            k += 1;
        }
        let e = ResEntry { key, value: ResValue::Bag(idxs) };
        proof {
            assert(e@ =~~= spec_entry(b@, off as int, key as int)->Some_0.0);
        }
        Some((e, off + 16 + 12 * cnt))
    } else {
        let di = read_le32(b, off + 12) as usize;
        let e = ResEntry { key, value: ResValue::Plain(di) };
        proof {
            assert(e@ =~~= spec_entry(b@, off as int, key as int)->Some_0.0);
        }
        Some((e, off + 16))
    }
}

/// The value sequence of decoded entries.
pub open spec fn entries_view(v: Seq<ResEntry>) -> Seq<EntryTV> {
    v.map_values(|e: ResEntry| e@)
}

/// Decode the entries a block's offsets table announces.
#[verifier::loop_isolation(false)]
fn parse_block_entries(b: &[u8], otab: usize, n: usize, cur0: usize) -> (r: Option<
    (Vec<ResEntry>, usize),
>)
    requires
        otab + 4 * n <= b@.len(),
    ensures
        match r {
            Some(p) => spec_block_entries(b@, otab as int, n as int, 0, cur0 as int) == Some(
                (entries_view(p.0@), p.1 as int),
            ),
            None => spec_block_entries(b@, otab as int, n as int, 0, cur0 as int) is None,
        },
{
    let len = b.len();
    let mut out: Vec<ResEntry> = Vec::new();
    let mut k: usize = 0;
    let mut cur: usize = cur0;
    proof {
        assert(spec_block_entries(b@, otab as int, n as int, 0, cur0 as int) == (
        match spec_block_entries(b@, otab as int, n as int, k as int, cur as int) {
            None => None::<(Seq<EntryTV>, int)>,
            Some(rest) => Some((entries_view(out@) + rest.0, rest.1)),
        })) by {
            if spec_block_entries(b@, otab as int, n as int, 0, cur0 as int) is Some {
                let full = spec_block_entries(
                    b@,
                    otab as int,
                    n as int,
                    0,
                    cur0 as int,
                )->Some_0;
                assert(entries_view(out@) + full.0 =~= full.0);
            }
        }
    }
    while k < n
        invariant
            0 <= k <= n,
            spec_block_entries(b@, otab as int, n as int, 0, cur0 as int) == (
            match spec_block_entries(b@, otab as int, n as int, k as int, cur as int) {
                None => None::<(Seq<EntryTV>, int)>,
                Some(rest) => Some((entries_view(out@) + rest.0, rest.1)),
            }),
        decreases n - k,
    {
        let slot = read_le32(b, otab + 4 * k);
        if slot == 0xFFFFFFFF {
            k += 1;
        } else {
            match parse_entry(b, cur, k) {
                None => {
                    return None;
                },
                Some(p) => {
                    let ghost prev_out = out@;
                    out.push(p.0);
                    cur = p.1;
                    k += 1;
                    proof {
                        assert(entries_view(out@) =~= entries_view(prev_out).push(
                            out@[out@.len() - 1]@,
                        ));
                        if spec_block_entries(
                            b@,
                            otab as int,
                            n as int,
                            k as int,
                            cur as int,
                        ) is Some {
                            let rest = spec_block_entries(
                                b@,
                                otab as int,
                                n as int,
                                k as int,
                                cur as int,
                            )->Some_0;
                            assert(entries_view(prev_out) + (seq![out@[out@.len() - 1]@]
                                + rest.0) =~= entries_view(out@) + rest.0);
                        }
                    }
                },
            }
        }
    }
    proof {
        assert(entries_view(out@) + Seq::<EntryTV>::empty() =~= entries_view(out@));
    }
    Some((out, cur))
}

/// Decode one configuration-block chunk.
#[verifier::loop_isolation(false)]
fn parse_config_chunk(b: &[u8], off: usize) -> (r: Option<(usize, ResConfig)>)
    ensures
        match r {
            Some(p) => spec_config_chunk(b@, off as int) matches Some(tc) && tc.0 == p.0 as int
                && tc.1 == p.1@,
            None => spec_config_chunk(b@, off as int) is None,
        },
{
    let len = b.len();
    if off > len || len - off < 24 {
        return None;
    }
    let type_id = b[off + 8] as usize;
    let entry_count = read_le32(b, off + 12) as usize;
    let cid_size = read_le32(b, off + 20) as usize;
    if cid_size < 4 {
        return None;
    }
    if (cid_size as u128) + 4 * (entry_count as u128) > (len - off - 20) as u128 {
        return None;
    }
    let otab = off + 20 + cid_size;
    let ecur = otab + 4 * entry_count;
    match parse_block_entries(b, otab, entry_count, ecur) {
        None => None,
        Some(p) => {
            let rc = ResConfig { entries: p.0 };
            proof {
                assert(rc@ =~~= spec_config_chunk(b@, off as int)->Some_0.1);
            }
            Some((type_id, rc))
        },
    }
}

/// The value sequence of a decoded chunk list.
pub open spec fn chunk_list_view(v: Seq<(usize, ResConfig)>) -> Seq<(int, ConfigTV)> {
    v.map_values(|p: (usize, ResConfig)| (p.0 as int, p.1@))
}

/// Decode the configuration-block chunks of a package.
#[verifier::loop_isolation(false)]
fn parse_chunk_list(b: &[u8], start: usize) -> (r: Option<Vec<(usize, ResConfig)>>)
    requires
        start <= b@.len(),
    ensures
        match r {
            Some(v) => spec_chunk_list(b@, start as int) == Some(chunk_list_view(v@)),
            None => spec_chunk_list(b@, start as int) is None,
        },
{
    let len = b.len();
    let mut out: Vec<(usize, ResConfig)> = Vec::new();
    let mut off: usize = start;
    proof {
        assert(spec_chunk_list(b@, start as int) == (
        match spec_chunk_list(b@, off as int) {
            None => None::<Seq<(int, ConfigTV)>>,
            Some(rest) => Some(chunk_list_view(out@) + rest),
        })) by {
            if spec_chunk_list(b@, start as int) is Some {
                let full = spec_chunk_list(b@, start as int)->Some_0;
                assert(chunk_list_view(out@) + full =~= full);
            }
        }
    }
    loop
        invariant
            start <= off <= b@.len(),
            spec_chunk_list(b@, start as int) == (
            match spec_chunk_list(b@, off as int) {
                None => None::<Seq<(int, ConfigTV)>>,
                Some(rest) => Some(chunk_list_view(out@) + rest),
            }),
        decreases b@.len() - off,
    {
        if len - off < 8 {
            proof {
                assert(chunk_list_view(out@) + Seq::<(int, ConfigTV)>::empty()
                    =~= chunk_list_view(out@));
            }
            return Some(out);
        }
        let ctype = read_le16(b, off);
        let csize = read_le32(b, off + 4) as usize;
        if csize < 8 || csize > len - off {
            proof {
                assert(chunk_list_view(out@) + Seq::<(int, ConfigTV)>::empty()
                    =~= chunk_list_view(out@));
            }
            return Some(out);
        }
        if ctype == 0x0202 {
            off = off + csize;
        } else if ctype == 0x0201 {
            match parse_config_chunk(b, off) {
                None => {
                    return None;
                },
                Some(p) => {
                    let ghost prev_out = out@;
                    out.push(p);
                    off = off + csize;
                    proof {
                        assert(chunk_list_view(out@) =~= chunk_list_view(prev_out).push(
                            (out@[out@.len() - 1].0 as int, out@[out@.len() - 1].1@),
                        ));
                        if spec_chunk_list(b@, off as int) is Some {
                            let rest = spec_chunk_list(b@, off as int)->Some_0;
                            assert(chunk_list_view(prev_out) + (seq![
                                (out@[out@.len() - 1].0 as int, out@[out@.len() - 1].1@),
                            ] + rest) =~= chunk_list_view(out@) + rest);
                        }
                    }
                },
            }
        } else {
            proof {
                assert(chunk_list_view(out@) + Seq::<(int, ConfigTV)>::empty()
                    =~= chunk_list_view(out@));
            }
            return Some(out);
        }
    }
}

/// Decode the first package chunk.
#[verifier::loop_isolation(false)]
fn parse_package(b: &[u8], base: usize) -> (r: Option<ResPackage>)
    ensures
        match r {
            Some(p) => spec_package(b@, base as int) == Some(p@),
            None => spec_package(b@, base as int) is None,
        },
{
    let len = b.len();
    if base > len || len - base < 288 {
        return None;
    }
    if read_le16(b, base) != 0x0200 {
        return None;
    }
    let tn = match parse_pool(b, base + 288) {
        None => {
            return None;
        },
        Some(p) => p,
    };
    let kn = match parse_pool(b, tn.1) {
        None => {
            return None;
        },
        Some(p) => p,
    };
    let list = match parse_chunk_list(b, kn.1) {
        None => {
            return None;
        },
        Some(v) => v,
    };
    let type_count = tn.0.len();
    let ghost list_v = chunk_list_view(list@);
    // every block must name a type in range
    let mut j: usize = 0;
    while j < list.len()
        invariant
            list_v == chunk_list_view(list@),
            0 <= j <= list@.len(),
            forall|i: int| 0 <= i < j ==> 1 <= (#[trigger] list_v[i]).0 <= type_count,
        decreases list@.len() - j,
    {
        let tid = list[j].0;
        if tid < 1 || tid > type_count {
            proof {
                assert(!(1 <= list_v[j as int].0 <= type_count));
            }
            return None;
        }
        proof {
            assert(list_v[j as int].0 == list@[j as int].0 as int);
        }
        j += 1;
    }
    // distribute the blocks over the types they name
    let mut types: Vec<ResType> = Vec::new();
    let mut i: usize = 0;
    while i < type_count
        invariant
            list_v == chunk_list_view(list@),
            0 <= i <= type_count,
            types@.len() == i,
            forall|t: int|
                0 <= t < i ==> (#[trigger] types@[t])@ == (TypeTV {
                    configs: configs_for(list_v, t + 1),
                }),
        decreases type_count - i,
    {
        let mut configs: Vec<ResConfig> = Vec::new();
        let mut j2: usize = 0;
        proof {
            assert(list_v.skip(0) =~= list_v);
            assert(configs@.map_values(|c: ResConfig| c@) + configs_for(list_v, i + 1)
                =~= configs_for(list_v, i + 1));
        }
        while j2 < list.len()
            invariant
                list_v == chunk_list_view(list@),
                0 <= j2 <= list@.len(),
                configs_for(list_v, i + 1) == configs@.map_values(|c: ResConfig| c@)
                    + configs_for(list_v.skip(j2 as int), i + 1),
            decreases list@.len() - j2,
        {
            let ghost restj = list_v.skip(j2 as int);
            proof {
                assert(restj[0] == list_v[j2 as int]);
                assert(restj.drop_first() =~= list_v.skip(j2 + 1));
                assert(list_v[j2 as int] == (list@[j2 as int].0 as int, list@[j2 as int].1@));
            }
            if list[j2].0 == i + 1 {
                let ghost prev = configs@;
                let c = clone_config(&list[j2].1);
                configs.push(c);
                proof {
                    assert(configs@.map_values(|c2: ResConfig| c2@) =~= prev.map_values(
                        |c2: ResConfig| c2@,
                    ).push(list_v[j2 as int].1));
                    assert(prev.map_values(|c2: ResConfig| c2@) + (seq![list_v[j2 as int].1]
                        + configs_for(list_v.skip(j2 + 1), i + 1)) =~= configs@.map_values(
                        |c2: ResConfig| c2@,
                    ) + configs_for(list_v.skip(j2 + 1), i + 1));
                }
            }
            j2 += 1;
        }
        proof {
            assert(list_v.skip(list_v.len() as int) =~= Seq::<(int, ConfigTV)>::empty());
            assert(configs@.map_values(|c: ResConfig| c@) + configs_for(
                Seq::<(int, ConfigTV)>::empty(),
                i + 1,
            ) =~= configs@.map_values(|c: ResConfig| c@));
        }
        let t = ResType { configs };
        proof {
            assert(t@ =~~= (TypeTV { configs: configs_for(list_v, i + 1) }));
        }
        types.push(t);
        i += 1;
    }
    let p = ResPackage { types };
    proof {
        assert(p@ =~~= spec_package(b@, base as int)->Some_0);
    }
    Some(p)
}

/// A copy of one decoded block.
fn clone_config(c: &ResConfig) -> (r: ResConfig)
    ensures
        r@ == c@,
{
    let mut entries: Vec<ResEntry> = Vec::new();
    let mut i: usize = 0;
    while i < c.entries.len()
        invariant
            0 <= i <= c.entries@.len(),
            entries@.len() == i,
            forall|k: int| 0 <= k < i ==> (#[trigger] entries@[k])@ == c.entries@[k]@,
        decreases c.entries@.len() - i,
    {
        let e = &c.entries[i];
        let value = match &e.value {
            ResValue::Plain(d) => ResValue::Plain(*d),
            ResValue::Bag(v) => {
                let mut idxs: Vec<usize> = Vec::new();
                let mut k: usize = 0;
                while k < v.len()
                    invariant
                        0 <= k <= v@.len(),
                        idxs@.len() == k,
                        forall|m: int| 0 <= m < k ==> #[trigger] idxs@[m] == v@[m],
                    decreases v@.len() - k,
                {
                    idxs.push(v[k]);
                    k += 1;
                }
                proof {
                    assert(idxs@ =~= v@);
                }
                ResValue::Bag(idxs)
            },
        };
        let copy = ResEntry { key: e.key, value };
        proof {
            assert(copy@ =~~= c.entries@[i as int]@);
        }
        entries.push(copy);
        i += 1;
    }
    let r = ResConfig { entries };
    proof {
        assert(r@ =~~= c@);
    }
    r
}

/// Decode a whole resource table.
pub fn parse_resource_table(b: &[u8]) -> (r: Option<ResTable>)
    ensures
        match r {
            Some(t) => spec_parse_table(b@) == Some(t@),
            None => spec_parse_table(b@) is None,
        },
{
    let len = b.len();
    if len < 12 {
        return None;
    }
    if read_le16(b, 0) != 0x0002 {
        return None;
    }
    let package_count = read_le32(b, 8);
    let pool = match parse_pool(b, 12) {
        None => {
            return None;
        },
        Some(p) => p,
    };
    if package_count == 0 {
        let t = ResTable { packages: Vec::new(), pool: pool.0 };
        proof {
            assert(t@ =~~= spec_parse_table(b@)->Some_0);
        }
        return Some(t);
    }
    let pkg = match parse_package(b, pool.1) {
        None => {
            return None;
        },
        Some(p) => p,
    };
    let mut packages: Vec<ResPackage> = Vec::new();
    packages.push(pkg);
    let t = ResTable { packages, pool: pool.0 };
    proof {
        assert(t@ =~~= spec_parse_table(b@)->Some_0);
    }
    Some(t)
}

} // verus!
