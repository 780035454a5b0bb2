pub mod records;

use vstd::prelude::*;
use vstd::string::StringSliceAdditionalSpecFns;
use crate::buf_config::{NODE_PTR_SIZE, KEY_SIZE};
use crate::repository::index::model::{
    Cell, BTreeNode, BTreeNodeView, CellChangeLogItem, CellChangeLogView, NodeChangeStateView, fresh_state, cell_views,
};
use self::records::{
    CellRecord, BNodeRecord, IS_ACTIVE_CELL_FLAG, IS_LIST_PTR_CELL_FLAG, IS_LEAF_NODE_FLAG, IS_ROOT_NODE_FLAG,
    HAS_NEXT_NODE_FLAG, IS_OVERFLOW_NODE_FLAG, has_flag, string_from_utf8,
};
use vstd::utf8::{valid_utf8, decode_utf8};
use std::collections::HashMap;
use crate::buf_config::NB_CELL;
use crate::byte_utils::{
    spec_u16_to_be, spec_u16_from_be, spec_u64_to_be, spec_u64_from_be, u16_to_bytes, u16_from_bytes, u64_to_bytes,
    u64_from_bytes_at, write_at_slice,
};

verus! {

/// Position of the first zero byte of `b`, or its length when it has none.
pub open spec fn key_end(b: Seq<u8>) -> int
    decreases b.len(),
{
    if b.len() == 0 {
        0
    } else if b[0] == 0u8 {
        0
    } else {
        1 + key_end(b.drop_first())
    }
}

proof fn lemma_key_end(b: Seq<u8>, i: int)
    requires
        0 <= i <= b.len(),
        forall|j: int| 0 <= j < i ==> b[j] != 0u8,
    ensures
        i < b.len() && b[i] == 0u8 ==> key_end(b) == i,
        i == b.len() ==> key_end(b) == b.len(),
        key_end(b) >= i,
        key_end(b) <= b.len(),
    decreases i,
{
    if i > 0 {
        assert forall|j: int| 0 <= j < i - 1 implies b.drop_first()[j] != 0u8 by {
            assert(b.drop_first()[j] == b[j + 1]);
        }
        lemma_key_end(b.drop_first(), i - 1);
    } else {
        lemma_key_end_bound(b);
    }
}

proof fn lemma_key_end_bound(b: Seq<u8>)
    ensures
        0 <= key_end(b) <= b.len(),
    decreases b.len(),
{
    if b.len() > 0 {
        lemma_key_end_bound(b.drop_first());
    }
}

/// Appends to `vkey` the bytes of the key chunk `key_buf` up to its first
/// zero byte.
pub fn append_key(vkey: &mut Vec<u8>, key_buf: &[u8])
    ensures
        final(vkey)@ == old(vkey)@ + key_buf@.subrange(0, key_end(key_buf@)),
{
    let n = key_buf.len();
    let mut str_end: usize = 0;
    while str_end < n && key_buf[str_end] != 0u8
        invariant
            n == key_buf@.len(),
            str_end <= n,
            forall|j: int| 0 <= j < str_end ==> key_buf@[j] != 0u8,
        decreases n - str_end,
    {
        str_end = str_end + 1;
    }
    proof {
        lemma_key_end(key_buf@, str_end as int);
    }
    let ghost before = vkey@;
    let mut i: usize = 0;
    while i < str_end
        invariant
            str_end <= n,
            n == key_buf@.len(),
            i <= str_end,
            vkey@ == before + key_buf@.subrange(0, i as int),
        decreases str_end - i,
    {
        vkey.push(key_buf[i]);
        assert(key_buf@.subrange(0, i + 1) =~= key_buf@.subrange(0, i as int).push(key_buf@[i as int]));
        i = i + 1;
    }
}

/// The `count` data pointers stored after the two-byte counter of `buf`.
pub open spec fn list_ptrs(buf: Seq<u8>, count: int) -> Seq<u64> {
    Seq::new(count as nat, |k: int| spec_u64_from_be(buf.subrange(2 + 8 * k, 2 + 8 * k + 8)))
}

/// Appends to `ptrs` the data pointers listed in `buf`: a big-endian
/// two-byte counter followed by that many big-endian pointers.
pub fn append_list_ptr(ptrs: &mut Vec<u64>, buf: &[u8])
    requires
        buf@.len() >= 2,
        2 + 8 * spec_u16_from_be(buf@) <= buf@.len(),
    ensures
        final(ptrs)@ == old(ptrs)@ + list_ptrs(buf@, spec_u16_from_be(buf@) as int),
{
    let counter = read_counter(buf);
    let ghost before = ptrs@;
    let mut ptr_index: u16 = 0;
    while ptr_index < counter
        invariant
            counter == spec_u16_from_be(buf@),
            2 + 8 * counter <= buf@.len(),
            ptr_index <= counter,
            ptrs@ == before + list_ptrs(buf@, ptr_index as int),
        decreases counter - ptr_index,
    {
        let offset = 2 + ptr_index as usize * 8;
        ptrs.push(u64_from_bytes_at(buf, offset));
        assert(list_ptrs(buf@, ptr_index + 1) =~= list_ptrs(buf@, ptr_index as int).push(
            spec_u64_from_be(buf@.subrange(offset as int, offset + 8)),
        ));
        ptr_index = ptr_index + 1;
    }
}

/// Writes the data pointer big-endian at `offset` of `payload`; answers the
/// number of bytes written.
pub fn insert_data_ptr(payload: &mut [u8], offset: usize, data_ptr: &u64) -> (r: usize)
    requires
        offset + NODE_PTR_SIZE <= old(payload)@.len(),
    ensures
        r == NODE_PTR_SIZE,
        final(payload)@ == old(payload)@.subrange(0, offset as int) + spec_u64_to_be(*data_ptr) + old(payload)@.subrange(
            offset + 8,
            old(payload)@.len() as int,
        ),
{
    write_at_slice(payload, offset, &u64_to_bytes(*data_ptr));
    NODE_PTR_SIZE
}

/// Writes the counter big-endian in the first two bytes of `payload`;
/// answers the number of bytes written.
pub fn update_counter(payload: &mut [u8], count: u16) -> (r: usize)
    requires
        old(payload)@.len() >= 2,
    ensures
        r == 2,
        final(payload)@ == spec_u16_to_be(count) + old(payload)@.subrange(2, old(payload)@.len() as int),
{
    write_at_slice(payload, 0, &u16_to_bytes(count));
    assert(old(payload)@.subrange(0, 0) + spec_u16_to_be(count) =~= spec_u16_to_be(count));
    2
}

/// The big-endian counter held by the first two bytes of `payload`.
pub fn read_counter(payload: &[u8]) -> (r: u16)
    requires
        payload@.len() >= 2,
    ensures
        r == spec_u16_from_be(payload@),
{
    u16_from_bytes(payload)
}

/// What loading a cell gives: an interior cell's child node, or a leaf
/// cell's data pointers.
pub enum CellLoadRes {
    InteriorCell(u64),
    LeafCell(Vec<u64>),
}

/// Whether the record lists data pointers.
pub open spec fn is_list_record(r: CellRecord) -> bool {
    has_flag(r.header, IS_LIST_PTR_CELL_FLAG)
}

/// The key bytes a key record holds: those before its first zero byte.
pub open spec fn key_piece(r: CellRecord) -> Seq<u8> {
    r.key@.subrange(0, key_end(r.key@))
}

/// The data pointers a list record holds.
pub open spec fn record_ptrs(r: CellRecord) -> Seq<u64> {
    list_ptrs(r.key@, spec_u16_from_be(r.key@) as int)
}

/// The key bytes of the key records of `s`, from its last record to its
/// first.
pub open spec fn overflow_key_bytes(s: Seq<CellRecord>) -> Seq<u8>
    decreases s.len(),
{
    if s.len() == 0 {
        seq![]
    } else {
        overflow_key_bytes(s.drop_first()) + if is_list_record(s[0]) {
            Seq::<u8>::empty()
        } else {
            key_piece(s[0])
        }
    }
}

/// The data pointers of the list records of `s`, from its last record to
/// its first.
pub open spec fn overflow_data_ptrs(s: Seq<CellRecord>) -> Seq<u64>
    decreases s.len(),
{
    if s.len() == 0 {
        seq![]
    } else {
        overflow_data_ptrs(s.drop_first()) + if is_list_record(s[0]) {
            record_ptrs(s[0])
        } else {
            Seq::<u64>::empty()
        }
    }
}

/// Some record of `s` lists data pointers.
pub open spec fn has_list_record(s: Seq<CellRecord>) -> bool {
    exists|i: int| 0 <= i < s.len() && is_list_record(#[trigger] s[i])
}

/// Every list record of `s` counts at most the seven pointers a record
/// has room for.
pub open spec fn list_counts_fit(s: Seq<CellRecord>) -> bool {
    forall|i: int| 0 <= i < s.len() && is_list_record(#[trigger] s[i]) ==> spec_u16_from_be(s[i].key@) <= 7
}

/// Reads the overflow records of a cell, given in the order of their chain
/// from the cell's main record: appends to `vkey` the bytes of their key
/// records, last record first, and answers the data pointers of their list
/// records in that order when there is one, else the node pointer of the
/// first record of the chain (of the main record when the chain is empty).
pub fn read_overflow_cells(root: &CellRecord, overflow: &Vec<CellRecord>, vkey: &mut Vec<u8>) -> (r: CellLoadRes)
    requires
        list_counts_fit(overflow@),
    ensures
        final(vkey)@ == old(vkey)@ + overflow_key_bytes(overflow@),
        has_list_record(overflow@) ==> (r matches CellLoadRes::LeafCell(ptrs) && ptrs@ == overflow_data_ptrs(overflow@)),
        !has_list_record(overflow@) ==> r == CellLoadRes::InteriorCell(
            if overflow@.len() > 0 {
                overflow@.last().node_ptr
            } else {
                root.node_ptr
            },
        ),
{
    let n = overflow.len();
    let ghost s = overflow@;
    let ghost before = vkey@;
    let mut is_leaf_cell = false;
    let mut ptrs: Vec<u64> = Vec::new();
    let mut i: usize = n;
    assert(s.subrange(n as int, n as int) =~= Seq::<CellRecord>::empty());
    while i > 0
        invariant
            n == s.len(),
            s == overflow@,
            list_counts_fit(s),
            i <= n,
            vkey@ == before + overflow_key_bytes(s.subrange(i as int, n as int)),
            ptrs@ == overflow_data_ptrs(s.subrange(i as int, n as int)),
            is_leaf_cell == has_list_record(s.subrange(i as int, n as int)),
        decreases i,
    {
        i = i - 1;
        let ghost sub = s.subrange(i as int, n as int);
        assert(sub.drop_first() =~= s.subrange(i + 1, n as int));
        assert(sub[0] == s[i as int]);
        let cell = &overflow[i];
        if cell.is_list_ptr() {
            is_leaf_cell = true;
            assert(is_list_record(sub[0]));
            assert(spec_u16_from_be(cell.key@) <= 7);
            append_list_ptr(&mut ptrs, &cell.key);
        } else {
            append_key(vkey, &cell.key);
            assert(has_list_record(sub) == has_list_record(sub.drop_first())) by {
                if has_list_record(sub) {
                    let j = choose|j: int| 0 <= j < sub.len() && is_list_record(#[trigger] sub[j]);
                    assert(j != 0);
                    assert(sub.drop_first()[j - 1] == sub[j]);
                }
                if has_list_record(sub.drop_first()) {
                    let j = choose|j: int| 0 <= j < sub.drop_first().len() && is_list_record(#[trigger] sub.drop_first()[j]);
                    assert(sub[j + 1] == sub.drop_first()[j]);
                }
            }
        }
        proof {
            if is_list_record(sub[0]) {
                assert(is_list_record(sub[0]) && 0 <= 0 < sub.len());
            }
        }
    }
    assert(s.subrange(0, n as int) =~= s);
    if is_leaf_cell {
        CellLoadRes::LeafCell(ptrs)
    } else if n > 0 {
        CellLoadRes::InteriorCell(overflow[n - 1].node_ptr)
    } else {
        CellLoadRes::InteriorCell(root.node_ptr)
    }
}

/// The key bytes of a cell stored in the main record `root` followed by the
/// chain `overflow`.
pub open spec fn stored_key_bytes(root: CellRecord, overflow: Seq<CellRecord>) -> Seq<u8> {
    key_piece(root) + overflow_key_bytes(overflow)
}

/// Rebuilds the cell stored in the main record `root` and its chain of
/// overflow records: its key is the UTF-8 text of the key bytes, it is
/// active as the main record is, and it is a leaf cell with the listed data
/// pointers when the chain lists some, else an interior cell pointing to
/// the node that `read_overflow_cells` answers.
pub fn cell_from_records(root: &CellRecord, overflow: &Vec<CellRecord>) -> (r: Cell)
    requires
        list_counts_fit(overflow@),
        valid_utf8(stored_key_bytes(*root, overflow@)),
    ensures
        r@.key == decode_utf8(stored_key_bytes(*root, overflow@)),
        r@.is_active == has_flag(root.header, IS_ACTIVE_CELL_FLAG),
        r@.change_state == fresh_state(false),
        has_list_record(overflow@) ==> r@.node_ptr is None && r@.data_ptrs == overflow_data_ptrs(overflow@),
        !has_list_record(overflow@) ==> r@.data_ptrs == Seq::<u64>::empty() && r@.node_ptr == Some(
            if overflow@.len() > 0 {
                overflow@.last().node_ptr
            } else {
                root.node_ptr
            },
        ),
{
    let mut vkey: Vec<u8> = Vec::new();
    append_key(&mut vkey, &root.key);
    let res = read_overflow_cells(root, overflow, &mut vkey);
    assert(vkey@ =~= stored_key_bytes(*root, overflow@));
    let key = string_from_utf8(vkey).unwrap();
    match res {
        CellLoadRes::InteriorCell(id) => {
            let no_ptrs: Vec<u64> = Vec::new();
            Cell::new(key.as_str(), Some(id), no_ptrs, root.is_active())
        },
        CellLoadRes::LeafCell(ptrs) => Cell::new(key.as_str(), None, ptrs, root.is_active()),
    }
}


/// `n` zero bytes.
pub open spec fn zeros(n: int) -> Seq<u8> {
    Seq::new(n as nat, |i: int| 0u8)
}

/// The big-endian bytes of each pointer, one after the other.
pub open spec fn be64s(s: Seq<u64>) -> Seq<u8>
    decreases s.len(),
{
    if s.len() == 0 {
        seq![]
    } else {
        be64s(s.drop_last()) + spec_u64_to_be(s.last())
    }
}

proof fn lemma_be64s_len(s: Seq<u64>)
    ensures
        be64s(s).len() == 8 * s.len(),
    decreases s.len(),
{
    if s.len() > 0 {
        lemma_be64s_len(s.drop_last());
    }
}

/// The key chunk of the `i`-th key record of a key of bytes `k`: its 64
/// bytes from position `64 * i`, completed with zeros past the key's end.
pub open spec fn key_chunk(k: Seq<u8>, i: int) -> Seq<u8> {
    if 64 * i + 64 <= k.len() {
        k.subrange(64 * i, 64 * i + 64)
    } else {
        k.subrange(64 * i, k.len() as int) + zeros(64 * i + 64 - k.len())
    }
}

/// The number of records holding a key of `n` bytes.
pub open spec fn nb_key_records(n: int) -> int {
    (n + 63) / 64
}

/// The number of records listing `n` data pointers, seven to a record.
pub open spec fn nb_ptr_records(n: int) -> int {
    (n + 6) / 7
}

/// The pointers listed by the `j`-th pointer record.
pub open spec fn ptr_chunk(ptrs: Seq<u64>, j: int) -> Seq<u64> {
    if 7 * j + 7 <= ptrs.len() {
        ptrs.subrange(7 * j, 7 * j + 7)
    } else {
        ptrs.subrange(7 * j, ptrs.len() as int)
    }
}

/// The key bytes of a pointer record: the count, the pointers, then zeros.
pub open spec fn ptr_record_key(chunk: Seq<u64>) -> Seq<u8> {
    spec_u16_to_be(chunk.len() as u16) + be64s(chunk) + zeros(62 - 8 * chunk.len())
}

/// The record is a fresh record with the given header and key bytes.
pub open spec fn is_record(r: CellRecord, header: u8, key: Seq<u8>) -> bool {
    &&& r.header == header
    &&& r.node_ptr == 0
    &&& r.overflow_cell_ptr == 0
    &&& r.key@ == key
}

/// The records of a key of bytes `k` and of the data pointers `ptrs`: the
/// key cut into 64-byte chunks, each in an active record, then the pointers
/// seven to an active list record.
pub open spec fn split_shape(recs: Seq<CellRecord>, k: Seq<u8>, ptrs: Seq<u64>) -> bool {
    let nk = nb_key_records(k.len() as int);
    &&& recs.len() == nk + nb_ptr_records(ptrs.len() as int)
    &&& forall|i: int| 0 <= i < nk ==> is_record(#[trigger] recs[i], IS_ACTIVE_CELL_FLAG, key_chunk(k, i))
    &&& forall|j: int|
        0 <= j < nb_ptr_records(ptrs.len() as int) ==> is_record(
            #[trigger] recs[nk + j],
            IS_ACTIVE_CELL_FLAG | IS_LIST_PTR_CELL_FLAG,
            ptr_record_key(ptr_chunk(ptrs, j)),
        )
}

/// Splits a cell into the records that store it, before they are chained:
/// its key cut into 64-byte chunks, each in an active record, then, when
/// it has data pointers, those pointers seven to an active list record,
/// each record's key bytes holding the count and the pointers big-endian.
pub fn split_cell(cell: &Cell) -> (r: Vec<CellRecord>)
    requires
        vstd::utf8::encode_utf8(cell@.key).len() + KEY_SIZE <= usize::MAX,
    ensures
        split_shape(r@, vstd::utf8::encode_utf8(cell@.key), cell@.data_ptrs),
{
    let mut cell_records: Vec<CellRecord> = Vec::new();
    let key_vec = cell.get_key().as_str().as_bytes();
    let ghost k = key_vec@;
    let n = key_vec.len();
    let mut offset: usize = 0;
    while offset < n
        invariant
            n == k.len(),
            k == key_vec@,
            n + KEY_SIZE <= usize::MAX,
            offset % 64 == 0,
            offset <= n + 63,
            cell_records@.len() == offset / 64,
            forall|i: int| 0 <= i < offset / 64 ==> is_record(#[trigger] cell_records@[i], IS_ACTIVE_CELL_FLAG, key_chunk(k, i)),
        decreases n + 64 - offset,
    {
        let mut cell_record = CellRecord::new();
        cell_record.set_is_active();
        if offset + KEY_SIZE > n {
            let len = n - offset;
            let part = vstd::slice::slice_subrange(key_vec, offset, n);
            crate::byte_utils::write_at(&mut cell_record.key, 0, part);
            cell_record.key[len] = 0u8;
        } else {
            let part = vstd::slice::slice_subrange(key_vec, offset, offset + KEY_SIZE);
            crate::byte_utils::write_at(&mut cell_record.key, 0, part);
        }
        proof {
            let i = offset / 64;
            assert(i * 64 == offset);
            assert(cell_record.key@ =~= key_chunk(k, i as int));
            assert(0u8 | 0x40u8 == 0x40u8) by (bit_vector);
        }
        let ghost before = cell_records@;
        offset += KEY_SIZE;
        cell_records.push(cell_record);
        proof {
            assert forall|i: int| 0 <= i < offset / 64 implies is_record(#[trigger] cell_records@[i], IS_ACTIVE_CELL_FLAG, key_chunk(k, i)) by {
                if i < before.len() {
                    assert(cell_records@[i] == before[i]);
                }
            }
        }
    }
    let ghost nk = cell_records@.len() as int;
    assert(nk == nb_key_records(k.len() as int));
    let data_ptrs = cell.get_data_ptrs_ref();
    let ghost ptrs = data_ptrs@;
    let np = data_ptrs.len();
    proof {
        assert(0u8 | 0x40u8 | 0x20u8 == 0x40u8 | 0x20u8) by (bit_vector);
    }
    if np > 0 {
        let mut data_ptr_offset: usize = 2;
        let mut cell_record = CellRecord::new();
        cell_record.set_is_active();
        cell_record.set_is_list_ptr();
        let mut data_ptr_count: u16 = 0;
        let mut whole_data_ptr_count: usize = 0;
        proof {
            assert(cell_record.key@ =~= seq![0u8, 0u8] + be64s(ptrs.subrange(0, 0)) + zeros(62));
        }
        while whole_data_ptr_count < np
            invariant_except_break
                whole_data_ptr_count <= np,
                whole_data_ptr_count == np ==> data_ptr_count == 0,
                data_ptr_count as int == whole_data_ptr_count % 7,
                data_ptr_offset == 2 + 8 * data_ptr_count,
                cell_records@.len() == nk + whole_data_ptr_count / 7,
                is_record(
                    cell_record,
                    IS_ACTIVE_CELL_FLAG | IS_LIST_PTR_CELL_FLAG,
                    seq![0u8, 0u8] + be64s(ptrs.subrange(whole_data_ptr_count - data_ptr_count, whole_data_ptr_count as int))
                        + zeros(62 - 8 * data_ptr_count),
                ),
                forall|j: int|
                    0 <= j < whole_data_ptr_count / 7 ==> is_record(
                        #[trigger] cell_records@[nk + j],
                        IS_ACTIVE_CELL_FLAG | IS_LIST_PTR_CELL_FLAG,
                        ptr_record_key(ptr_chunk(ptrs, j)),
                    ),
            invariant
                0 <= nk,
                np == ptrs.len(),
                ptrs == data_ptrs@,
                forall|i: int| 0 <= i < nk ==> is_record(#[trigger] cell_records@[i], IS_ACTIVE_CELL_FLAG, key_chunk(k, i)),
            ensures
                cell_records@.len() == nk + nb_ptr_records(np as int),
                forall|j: int|
                    0 <= j < nb_ptr_records(np as int) ==> is_record(
                        #[trigger] cell_records@[nk + j],
                        IS_ACTIVE_CELL_FLAG | IS_LIST_PTR_CELL_FLAG,
                        ptr_record_key(ptr_chunk(ptrs, j)),
                    ),
            decreases np - whole_data_ptr_count,
        {
            let data_ptr = &data_ptrs[whole_data_ptr_count];
            let ghost c = data_ptr_count as int;
            let ghost w = whole_data_ptr_count as int;
            let ghost key_before = cell_record.key@;
            data_ptr_offset += insert_data_ptr(&mut cell_record.key, data_ptr_offset, data_ptr);
            proof {
                lemma_be64s_len(ptrs.subrange(w - c, w));
                assert(ptrs.subrange(w - c, w + 1).drop_last() =~= ptrs.subrange(w - c, w));
                assert(ptrs.subrange(w - c, w + 1).last() == *data_ptr);
                assert(cell_record.key@ =~= seq![0u8, 0u8] + be64s(ptrs.subrange(w - c, w + 1)) + zeros(62 - 8 * (c + 1)));
            }
            data_ptr_count += 1;
            whole_data_ptr_count += 1;
            if data_ptr_offset + NODE_PTR_SIZE >= KEY_SIZE {
                let ghost key_full = cell_record.key@;
                update_counter(&mut cell_record.key, data_ptr_count);
                proof {
                    let j = (w + 1) / 7 - 1;
                    assert(c == 6);
                    assert(7 * j + 7 == w + 1);
                    assert(ptr_chunk(ptrs, j) =~= ptrs.subrange(w - c, w + 1));
                    assert(cell_record.key@ =~= ptr_record_key(ptr_chunk(ptrs, j)));
                }
                let ghost before = cell_records@;
                cell_records.push(cell_record);
                cell_record = CellRecord::new();
                cell_record.set_is_active();
                cell_record.set_is_list_ptr();
                data_ptr_offset = 2;
                data_ptr_count = 0;
                proof {
                    assert(0u8 | 0x40u8 | 0x20u8 == 0x40u8 | 0x20u8) by (bit_vector);
                    assert(before.len() == nk + w / 7);
                    assert(w / 7 == (w + 1) / 7 - 1);
                    assert(cell_record.key@ =~= seq![0u8, 0u8] + be64s(ptrs.subrange(w + 1, w + 1)) + zeros(62));
                    assert forall|i: int| 0 <= i < nk implies is_record(#[trigger] cell_records@[i], IS_ACTIVE_CELL_FLAG, key_chunk(k, i)) by {
                        assert(cell_records@[i] == before[i]);
                    }
                    assert forall|jj: int| 0 <= jj < (w + 1) / 7 implies is_record(
                        #[trigger] cell_records@[nk + jj],
                        IS_ACTIVE_CELL_FLAG | IS_LIST_PTR_CELL_FLAG,
                        ptr_record_key(ptr_chunk(ptrs, jj)),
                    ) by {
                        if jj < (w + 1) / 7 - 1 {
                            assert(cell_records@[nk + jj] == before[nk + jj]);
                        }
                    }
                    if w + 1 == np {
                        assert(nb_ptr_records(np as int) == (w + 1) / 7);
                    }
                }
            } else if whole_data_ptr_count == np {
                update_counter(&mut cell_record.key, data_ptr_count);
                proof {
                    let j = w / 7;
                    assert(7 * j == w - c);
                    assert(7 * j + 7 > np);
                    assert(ptr_chunk(ptrs, j) =~= ptrs.subrange(w - c, w + 1));
                    assert(cell_record.key@ =~= ptr_record_key(ptr_chunk(ptrs, j)));
                    assert(nb_ptr_records(np as int) == j + 1);
                }
                let ghost before = cell_records@;
                assert(before.len() == nk + w / 7);
                cell_records.push(cell_record);
                proof {
                    assert forall|i: int| 0 <= i < nk implies is_record(#[trigger] cell_records@[i], IS_ACTIVE_CELL_FLAG, key_chunk(k, i)) by {
                        assert(cell_records@[i] == before[i]);
                    }
                    assert forall|jj: int| 0 <= jj < nb_ptr_records(np as int) implies is_record(
                        #[trigger] cell_records@[nk + jj],
                        IS_ACTIVE_CELL_FLAG | IS_LIST_PTR_CELL_FLAG,
                        ptr_record_key(ptr_chunk(ptrs, jj)),
                    ) by {
                        if jj < w / 7 {
                            assert(cell_records@[nk + jj] == before[nk + jj]);
                        }
                    }
                }
                break;
            }
        }
    }
    cell_records
}


broadcast use vstd::std_specs::hash::group_hash_axioms;

/// Where a cell of a node being saved comes from: a cell already stored at
/// `old_cell_id`, or a cell added since the node was loaded.
#[derive(Copy, Clone)]
pub struct CellChangeContext {
    pub old_cell_id: usize,
    pub is_added: bool,
}

impl CellChangeContext {
    pub fn added() -> (r: Self)
        ensures
            r == (CellChangeContext { old_cell_id: 0, is_added: true }),
    {
        CellChangeContext { old_cell_id: 0, is_added: true }
    }

    pub fn old_cell(index: usize) -> (r: Self)
        ensures
            r == (CellChangeContext { old_cell_id: index, is_added: false }),
    {
        CellChangeContext { old_cell_id: index, is_added: false }
    }
}

/// The cells of a node as stored, before any change: the first `n` slots.
pub open spec fn initial_contexts(n: int) -> Seq<CellChangeContext> {
    Seq::new(n as nat, |i: int| CellChangeContext { old_cell_id: i as usize, is_added: false })
}

/// One change of the log applies to the cells' origins and to the stored
/// slots to free: a removal drops the cell at its position, and frees its
/// slot when it was stored; an addition inserts an added cell.
pub open spec fn replay_step(
    state: (Seq<CellChangeContext>, Seq<usize>),
    item: CellChangeLogView,
) -> (Seq<CellChangeContext>, Seq<usize>) {
    let (ctxs, deleted) = state;
    if item.is_remove {
        let c = ctxs[item.index as int];
        (ctxs.remove(item.index as int), if !c.is_added { deleted.push(c.old_cell_id) } else { deleted })
    } else if item.is_add {
        (ctxs.insert(item.index as int, CellChangeContext { old_cell_id: 0, is_added: true }), deleted)
    } else {
        state
    }
}

/// The state after replaying the first `k` changes of the log.
pub open spec fn replay_upto(n: int, log: Seq<CellChangeLogView>, k: int) -> (Seq<CellChangeContext>, Seq<usize>)
    decreases k,
{
    if k <= 0 {
        (initial_contexts(n), seq![])
    } else {
        replay_step(replay_upto(n, log, k - 1), log[k - 1])
    }
}

/// Every change of the log names a position that exists when it is replayed.
pub open spec fn log_replayable(n: int, log: Seq<CellChangeLogView>) -> bool {
    forall|k: int|
        0 <= k < log.len() ==> {
            let ctxs = (#[trigger] replay_upto(n, log, k)).0;
            &&& log[k].is_remove ==> log[k].index < ctxs.len()
            &&& !log[k].is_remove && log[k].is_add ==> log[k].index <= ctxs.len()
        }
}

/// Some cell of `ctxs` is the stored cell of slot `s`.
pub open spec fn keeps_slot(ctxs: Seq<CellChangeContext>, s: int) -> bool {
    exists|j: int| 0 <= j < ctxs.len() && !ctxs[j].is_added && ctxs[j].old_cell_id == s
}

/// The stored slots `0..n` are split between the cells kept, each slot kept
/// by one cell at most, and the slots freed, each freed once: a slot is
/// freed exactly when no cell keeps it, and nothing outside `0..n` is kept
/// or freed.
pub open spec fn slots_partition(n: int, ctxs: Seq<CellChangeContext>, freed: Seq<usize>) -> bool {
    &&& forall|s: int| 0 <= s < n ==> (freed.contains(s as usize) <==> !keeps_slot(ctxs, s))
    &&& forall|j: int| 0 <= j < freed.len() ==> (#[trigger] freed[j]) < n
    &&& forall|j: int| 0 <= j < ctxs.len() && !(#[trigger] ctxs[j]).is_added ==> ctxs[j].old_cell_id < n
    &&& forall|a: int, b: int|
        0 <= a < b < ctxs.len() && !(#[trigger] ctxs[a]).is_added && !(#[trigger] ctxs[b]).is_added ==> ctxs[a].old_cell_id
            != ctxs[b].old_cell_id
    &&& freed.no_duplicates()
}

proof fn lemma_partition_step(n: int, ctxs: Seq<CellChangeContext>, freed: Seq<usize>, item: CellChangeLogView)
    requires
        0 <= n <= usize::MAX,
        slots_partition(n, ctxs, freed),
        item.is_remove ==> item.index < ctxs.len(),
        !item.is_remove && item.is_add ==> item.index <= ctxs.len(),
    ensures
        slots_partition(n, replay_step((ctxs, freed), item).0, replay_step((ctxs, freed), item).1),
{
    let (c2, f2) = replay_step((ctxs, freed), item);
    if item.is_remove {
        let x = item.index as int;
        let c = ctxs[x];
        assert forall|j: int| 0 <= j < c2.len() implies #[trigger] c2[j] == (if j < x { ctxs[j] } else { ctxs[j + 1] }) by {}
        // Which slots the remaining cells keep.
        assert forall|s: int| #[trigger] keeps_slot(c2, s) <==> keeps_slot(ctxs, s) && !(!c.is_added && c.old_cell_id == s) by {
            if keeps_slot(c2, s) {
                let j = choose|j: int| 0 <= j < c2.len() && !c2[j].is_added && c2[j].old_cell_id == s;
                let jj = if j < x { j } else { j + 1 };
                assert(ctxs[jj] == c2[j]);
                if !c.is_added && c.old_cell_id == s {
                    if jj < x {
                        assert(ctxs[jj].old_cell_id != ctxs[x].old_cell_id);
                    } else {
                        assert(ctxs[x].old_cell_id != ctxs[jj].old_cell_id);
                    }
                }
            }
            if keeps_slot(ctxs, s) && !(!c.is_added && c.old_cell_id == s) {
                let j = choose|j: int| 0 <= j < ctxs.len() && !ctxs[j].is_added && ctxs[j].old_cell_id == s;
                assert(j != x);
                let jj = if j < x { j } else { j - 1 };
                assert(c2[jj] == ctxs[j]);
            }
        }
        if !c.is_added {
            assert(keeps_slot(ctxs, c.old_cell_id as int));
            assert(!freed.contains(c.old_cell_id));
            assert forall|s: int| 0 <= s < n implies (f2.contains(s as usize) <==> !keeps_slot(c2, s)) by {
                if s == c.old_cell_id as int {
                    assert(f2[freed.len() as int] == c.old_cell_id);
                } else {
                    if f2.contains(s as usize) {
                        let j = choose|j: int| 0 <= j < f2.len() && f2[j] == s as usize;
                        if j < freed.len() {
                            assert(freed[j] == s as usize);
                        }
                    }
                    if freed.contains(s as usize) {
                        let j = choose|j: int| 0 <= j < freed.len() && freed[j] == s as usize;
                        assert(f2[j] == s as usize);
                    }
                }
            }
            assert forall|j: int| 0 <= j < f2.len() implies (#[trigger] f2[j]) < n by {
                if j < freed.len() {
                    assert(f2[j] == freed[j]);
                }
            }
            assert(f2.no_duplicates()) by {
                assert forall|a: int, b: int| 0 <= a < f2.len() && 0 <= b < f2.len() && a != b implies f2[a] != f2[b] by {
                    if a < freed.len() && b < freed.len() {
                        assert(f2[a] == freed[a] && f2[b] == freed[b]);
                    } else if a < freed.len() {
                        assert(f2[a] == freed[a]);
                        assert(freed.contains(freed[a]));
                    } else if b < freed.len() {
                        assert(f2[b] == freed[b]);
                        assert(freed.contains(freed[b]));
                    }
                }
            }
        } else {
            assert(f2 == freed);
        }
        assert forall|a: int, b: int|
            0 <= a < b < c2.len() && !(#[trigger] c2[a]).is_added && !(#[trigger] c2[b]).is_added implies c2[a].old_cell_id
                != c2[b].old_cell_id by {
            let aa = if a < x { a } else { a + 1 };
            let bb = if b < x { b } else { b + 1 };
            assert(c2[a] == ctxs[aa] && c2[b] == ctxs[bb]);
        }
        assert forall|j: int| 0 <= j < c2.len() && !(#[trigger] c2[j]).is_added implies c2[j].old_cell_id < n by {
            let jj = if j < x { j } else { j + 1 };
            assert(c2[j] == ctxs[jj]);
        }
    } else if item.is_add {
        let x = item.index as int;
        let added = CellChangeContext { old_cell_id: 0, is_added: true };
        assert(c2 == ctxs.insert(x, added));
        assert forall|s: int| #[trigger] keeps_slot(c2, s) <==> keeps_slot(ctxs, s) by {
            if keeps_slot(c2, s) {
                let j = choose|j: int| 0 <= j < c2.len() && !c2[j].is_added && c2[j].old_cell_id == s;
                assert(j != x);
                let jj = if j < x { j } else { j - 1 };
                assert(ctxs[jj] == c2[j]);
            }
            if keeps_slot(ctxs, s) {
                let j = choose|j: int| 0 <= j < ctxs.len() && !ctxs[j].is_added && ctxs[j].old_cell_id == s;
                let jj = if j < x { j } else { j + 1 };
                assert(c2[jj] == ctxs[j]);
            }
        }
        assert forall|a: int, b: int|
            0 <= a < b < c2.len() && !(#[trigger] c2[a]).is_added && !(#[trigger] c2[b]).is_added implies c2[a].old_cell_id
                != c2[b].old_cell_id by {
            let aa = if a < x { a } else { a - 1 };
            let bb = if b < x { b } else { b - 1 };
            assert(a != x && b != x);
            assert(c2[a] == ctxs[aa] && c2[b] == ctxs[bb]);
        }
        assert forall|j: int| 0 <= j < c2.len() && !(#[trigger] c2[j]).is_added implies c2[j].old_cell_id < n by {
            let jj = if j < x { j } else { j - 1 };
            assert(j != x);
            assert(c2[j] == ctxs[jj]);
        }
    }
}

proof fn lemma_partition_upto(n: int, log: Seq<CellChangeLogView>, k: int)
    requires
        0 <= n <= usize::MAX,
        0 <= k <= log.len(),
        log_replayable(n, log),
    ensures
        slots_partition(n, replay_upto(n, log, k).0, replay_upto(n, log, k).1),
    decreases k,
{
    if k == 0 {
        let c0 = initial_contexts(n);
        assert forall|s: int| 0 <= s < n implies keeps_slot(c0, s) by {
            assert(c0[s].old_cell_id == s as usize);
        }
        assert(Seq::<usize>::empty().no_duplicates());
    } else {
        lemma_partition_upto(n, log, k - 1);
        let st = replay_upto(n, log, k - 1);
        lemma_partition_step(n, st.0, st.1, log[k - 1]);
    }
}

/// Replaying a node's change log frees a stored slot exactly when no cell
/// of the node keeps it: every slot of the `nb_old` stored cells is either
/// kept by one cell or freed once, never both, and a cell added since the
/// node was loaded frees nothing when it is removed again.
pub proof fn lemma_replay_frees_exactly_dropped_slots(nb_old: int, log: Seq<CellChangeLogView>)
    requires
        0 <= nb_old <= usize::MAX,
        log_replayable(nb_old, log),
    ensures
        slots_partition(nb_old, replay_upto(nb_old, log, log.len() as int).0, replay_upto(nb_old, log, log.len() as int).1),
{
    lemma_partition_upto(nb_old, log, log.len() as int);
}

/// Replays a node's change log over the `nb_old` cells it had when stored:
/// answers where each cell of the node now comes from, and which stored
/// slots the removals freed, in the order they were freed.
pub fn replay_change_log(nb_old: usize, log: &Vec<CellChangeLogItem>) -> (r: (Vec<CellChangeContext>, Vec<usize>))
    requires
        log_replayable(nb_old as int, log@.map_values(|c: CellChangeLogItem| c@)),
    ensures
        (r.0@, r.1@) == replay_upto(nb_old as int, log@.map_values(|c: CellChangeLogItem| c@), log@.len() as int),
{
    let ghost l = log@.map_values(|c: CellChangeLogItem| c@);
    let mut cells_context: Vec<CellChangeContext> = Vec::new();
    let mut index: usize = 0;
    while index < nb_old
        invariant
            index <= nb_old,
            cells_context@ == initial_contexts(index as int),
        decreases nb_old - index,
    {
        cells_context.push(CellChangeContext::old_cell(index));
        assert(cells_context@ =~= initial_contexts(index + 1));
        index = index + 1;
    }
    let mut list_old_ids_to_delete: Vec<usize> = Vec::new();
    let mut k: usize = 0;
    while k < log.len()
        invariant
            l == log@.map_values(|c: CellChangeLogItem| c@),
            log_replayable(nb_old as int, l),
            k <= log@.len(),
            (cells_context@, list_old_ids_to_delete@) == replay_upto(nb_old as int, l, k as int),
        decreases log@.len() - k,
    {
        let cell_change_log = &log[k];
        assert(l[k as int] == cell_change_log@);
        if cell_change_log.is_remove() {
            let index = cell_change_log.index();
            let ctx = cells_context[index];
            if !ctx.is_added {
                list_old_ids_to_delete.push(ctx.old_cell_id);
            }
            cells_context.remove(index);
        } else if cell_change_log.is_add() {
            let index = cell_change_log.index();
            cells_context.insert(index, CellChangeContext::added());
        }
        k = k + 1;
    }
    (cells_context, list_old_ids_to_delete)
}

/// The number of leading active cells of a node record.
pub fn active_prefix_len(record: &BNodeRecord) -> (r: usize)
    ensures
        r <= NB_CELL,
        forall|i: int| 0 <= i < r ==> has_flag(#[trigger] record.cells[i].header, IS_ACTIVE_CELL_FLAG),
        r < NB_CELL ==> !has_flag(record.cells[r as int].header, IS_ACTIVE_CELL_FLAG),
{
    let mut index: usize = 0;
    while index < NB_CELL && record.cells[index].is_active()
        invariant
            index <= NB_CELL,
            forall|i: int| 0 <= i < index ==> has_flag(#[trigger] record.cells[i].header, IS_ACTIVE_CELL_FLAG),
        decreases NB_CELL - index,
    {
        index = index + 1;
    }
    index
}

/// Marks as inactive the cells of the record at the slots `ids`.
pub fn deactivate_cells(record: &mut BNodeRecord, ids: &Vec<usize>)
    requires
        forall|i: int| 0 <= i < ids@.len() ==> #[trigger] ids@[i] < NB_CELL,
    ensures
        final(record).header == old(record).header,
        final(record).ptr == old(record).ptr,
        final(record).next_free_cells_node_ptr == old(record).next_free_cells_node_ptr,
        forall|c: int|
            0 <= c < NB_CELL ==> (#[trigger] final(record).cells[c]) == if ids@.contains(c as usize) {
                CellRecord { header: old(record).cells[c].header & !IS_ACTIVE_CELL_FLAG, ..old(record).cells[c] }
            } else {
                old(record).cells[c]
            },
{
    let mut k: usize = 0;
    while k < ids.len()
        invariant
            k <= ids@.len(),
            forall|i: int| 0 <= i < ids@.len() ==> #[trigger] ids@[i] < NB_CELL,
            record.header == old(record).header,
            record.ptr == old(record).ptr,
            record.next_free_cells_node_ptr == old(record).next_free_cells_node_ptr,
            forall|c: int|
                0 <= c < NB_CELL ==> (#[trigger] record.cells[c]) == if ids@.take(k as int).contains(c as usize) {
                    CellRecord { header: old(record).cells[c].header & !IS_ACTIVE_CELL_FLAG, ..old(record).cells[c] }
                } else {
                    old(record).cells[c]
                },
        decreases ids@.len() - k,
    {
        let cell_id = ids[k];
        let ghost before = record.cells;
        record.cells[cell_id].set_inactive();
        proof {
            assert forall|c: int| 0 <= c < NB_CELL implies (#[trigger] record.cells[c]) == if ids@.take(k + 1).contains(
                c as usize,
            ) {
                CellRecord { header: old(record).cells[c].header & !IS_ACTIVE_CELL_FLAG, ..old(record).cells[c] }
            } else {
                old(record).cells[c]
            } by {
                let t = ids@.take(k as int);
                assert(ids@.take(k + 1) =~= t.push(cell_id));
                assert(t.push(cell_id).contains(c as usize) <==> (t.contains(c as usize) || cell_id == c as usize)) by {
                    if t.contains(c as usize) {
                        let j = choose|j: int| 0 <= j < t.len() && t[j] == c as usize;
                        assert(t.push(cell_id)[j] == c as usize);
                    }
                    if cell_id == c as usize {
                        assert(t.push(cell_id)[t.len() as int] == c as usize);
                    }
                }
                let h = old(record).cells[c].header;
                assert((h & !0x40u8) & !0x40u8 == h & !0x40u8) by (bit_vector);
                assert(before[c] == if t.contains(c as usize) {
                    CellRecord { header: old(record).cells[c].header & !IS_ACTIVE_CELL_FLAG, ..old(record).cells[c] }
                } else {
                    old(record).cells[c]
                });
            }
        }
        k = k + 1;
    }
    assert(ids@.take(ids@.len() as int) =~= ids@);
}

/// Moves the stored cells to their new slots: each cell that was stored
/// takes, at its new position, the record it had at its old slot.
pub fn move_old_cells(record: &mut BNodeRecord, cells_context: &[CellChangeContext])
    requires
        cells_context@.len() <= NB_CELL,
        forall|i: int| 0 <= i < cells_context@.len() ==> #[trigger] cells_context@[i].old_cell_id < NB_CELL,
    ensures
        final(record).header == old(record).header,
        final(record).ptr == old(record).ptr,
        final(record).next_free_cells_node_ptr == old(record).next_free_cells_node_ptr,
        forall|c: int|
            0 <= c < NB_CELL ==> (#[trigger] final(record).cells[c]) == if c < cells_context@.len()
                && !cells_context@[c].is_added {
                old(record).cells[cells_context@[c].old_cell_id as int]
            } else {
                old(record).cells[c]
            },
{
    let old_cell_records = record.cells;
    let mut new_cell_id: usize = 0;
    while new_cell_id < cells_context.len()
        invariant
            cells_context@.len() <= NB_CELL,
            forall|i: int| 0 <= i < cells_context@.len() ==> #[trigger] cells_context@[i].old_cell_id < NB_CELL,
            old_cell_records == old(record).cells,
            new_cell_id <= cells_context@.len(),
            record.header == old(record).header,
            record.ptr == old(record).ptr,
            record.next_free_cells_node_ptr == old(record).next_free_cells_node_ptr,
            forall|c: int|
                0 <= c < NB_CELL ==> (#[trigger] record.cells[c]) == if c < new_cell_id && !cells_context@[c].is_added {
                    old(record).cells[cells_context@[c].old_cell_id as int]
                } else {
                    old(record).cells[c]
                },
        decreases cells_context@.len() - new_cell_id,
    {
        let ctx = cells_context[new_cell_id];
        if !ctx.is_added && new_cell_id != ctx.old_cell_id {
            record.cells[new_cell_id] = old_cell_records[ctx.old_cell_id];
        }
        new_cell_id = new_cell_id + 1;
    }
}

/// The nodes of a B-tree kept in memory, each found by its id.
pub struct BTreeNodePool {
    nodes_map: HashMap<u64, usize>,
    nodes: Vec<BTreeNode>,
}

impl BTreeNodePool {
    pub closed spec fn spec_map(&self) -> Map<u64, usize> {
        self.nodes_map@
    }

    pub closed spec fn spec_nodes(&self) -> Seq<BTreeNode> {
        self.nodes@
    }

    /// Every node id stands at a node with that id.
    pub open spec fn wf(&self) -> bool {
        forall|k: u64| #[trigger] self.spec_map().contains_key(k) ==> {
            &&& self.spec_map()[k] < self.spec_nodes().len()
            &&& self.spec_nodes()[self.spec_map()[k] as int]@.id == Some(k)
        }
    }

    pub fn new() -> (r: Self)
        ensures
            r.wf(),
            r.spec_map() == Map::<u64, usize>::empty(),
            r.spec_nodes().len() == 0,
    {
        BTreeNodePool { nodes_map: HashMap::new(), nodes: Vec::new() }
    }

    /// Keeps `node` under its id; `None`, keeping nothing, when it has none.
    pub fn put(&mut self, node: BTreeNode) -> (r: Option<u64>)
        requires
            old(self).wf(),
        ensures
            final(self).wf(),
            r == node@.id,
            node@.id matches Some(id) ==> {
                &&& final(self).spec_nodes() == old(self).spec_nodes().push(node)
                &&& final(self).spec_map() == old(self).spec_map().insert(id, old(self).spec_nodes().len() as usize)
                &&& final(self).spec_map()[id] as int == old(self).spec_nodes().len()
            },
            node@.id is None ==> final(self).spec_nodes() == old(self).spec_nodes() && final(self).spec_map()
                == old(self).spec_map(),
    {
        let pos = self.nodes.len();
        if let Some(id) = node.get_id() {
            self.nodes_map.insert(id, pos);
            self.nodes.push(node);
            proof {
                assert forall|k: u64| #[trigger] self.spec_map().contains_key(k) implies {
                    &&& self.spec_map()[k] < self.spec_nodes().len()
                    &&& self.spec_nodes()[self.spec_map()[k] as int]@.id == Some(k)
                } by {
                    if k != id {
                        assert(old(self).spec_map().contains_key(k));
                        assert(old(self).spec_map()[k] < old(self).spec_nodes().len());
                        assert(old(self).spec_nodes()[old(self).spec_map()[k] as int]@.id == Some(k));
                    }
                }
            }
            Some(id)
        } else {
            None
        }
    }

    pub fn get_ref(&self, id: &u64) -> (r: Option<&BTreeNode>)
        requires
            self.wf(),
        ensures
            r == if self.spec_map().contains_key(*id) {
                Some(&self.spec_nodes()[self.spec_map()[*id] as int])
            } else {
                None
            },
    {
        match self.nodes_map.get(id) {
            Some(pos) => Some(&self.nodes[*pos]),
            None => None,
        }
    }

    pub fn get_mut(&mut self, id: &u64) -> (r: Option<&mut BTreeNode>)
        requires
            old(self).wf(),
        ensures
            final(self).spec_map() == old(self).spec_map(),
            old(self).spec_map().contains_key(*id) ==> {
                &&& r is Some
                &&& *r->0 == old(self).spec_nodes()[old(self).spec_map()[*id] as int]
                &&& final(self).spec_nodes() == old(self).spec_nodes().update(
                    old(self).spec_map()[*id] as int,
                    *final(r->0),
                )
            },
            !old(self).spec_map().contains_key(*id) ==> r is None && final(self).spec_nodes() == old(self).spec_nodes(),
    {
        match self.nodes_map.get(id) {
            Some(pos) => {
                let p = *pos;
                Some(&mut self.nodes[p])
            },
            None => None,
        }
    }

    pub fn contains(&self, id: &u64) -> (r: bool)
        ensures
            r == self.spec_map().contains_key(*id),
    {
        self.nodes_map.contains_key(id)
    }

    pub fn clear(&mut self)
        ensures
            final(self).wf(),
            final(self).spec_map() == Map::<u64, usize>::empty(),
            final(self).spec_nodes().len() == 0,
    {
        self.nodes_map.clear();
        self.nodes.clear();
    }
}


proof fn lemma_be64s_index(s: Seq<u64>, k: int)
    requires
        0 <= k < s.len(),
    ensures
        be64s(s).subrange(8 * k, 8 * k + 8) == spec_u64_to_be(s[k]),
    decreases s.len(),
{
    lemma_be64s_len(s.drop_last());
    if k < s.len() - 1 {
        lemma_be64s_index(s.drop_last(), k);
        assert(be64s(s).subrange(8 * k, 8 * k + 8) =~= be64s(s.drop_last()).subrange(8 * k, 8 * k + 8));
    } else {
        assert(be64s(s).subrange(8 * k, 8 * k + 8) =~= spec_u64_to_be(s.last()));
    }
}

/// A pointer record reads back as the pointers it was made of: its counter
/// is their number and the pointers it lists are them, in order.
pub proof fn lemma_ptr_record_roundtrip(chunk: Seq<u64>)
    requires
        chunk.len() <= 7,
    ensures
        spec_u16_from_be(ptr_record_key(chunk)) == chunk.len(),
        list_ptrs(ptr_record_key(chunk), chunk.len() as int) == chunk,
{
    let key = ptr_record_key(chunk);
    lemma_be64s_len(chunk);
    crate::byte_utils::lemma_u16_be_value_roundtrip(chunk.len() as u16);
    assert(key.subrange(0, 2) =~= spec_u16_to_be(chunk.len() as u16));
    assert(spec_u16_from_be(key) == spec_u16_from_be(key.subrange(0, 2)));
    assert forall|k: int| 0 <= k < chunk.len() implies #[trigger] list_ptrs(key, chunk.len() as int)[k] == chunk[k] by {
        lemma_be64s_index(chunk, k);
        assert(key.subrange(2 + 8 * k, 2 + 8 * k + 8) =~= be64s(chunk).subrange(8 * k, 8 * k + 8));
        crate::byte_utils::lemma_u64_be_value_roundtrip(chunk[k]);
    }
    assert(list_ptrs(key, chunk.len() as int) =~= chunk);
}

/// A key record of a key without zero bytes reads back, up to its first
/// zero byte, as its part of the key.
pub proof fn lemma_key_record_roundtrip(k: Seq<u8>, i: int)
    requires
        0 <= i < nb_key_records(k.len() as int),
        forall|j: int| 0 <= j < k.len() ==> k[j] != 0u8,
    ensures
        ({
            let c = key_chunk(k, i);
            c.subrange(0, key_end(c)) == k.subrange(64 * i, if 64 * i + 64 <= k.len() { 64 * i + 64 } else { k.len() as int })
        }),
{
    let c = key_chunk(k, i);
    let end = if 64 * i + 64 <= k.len() { 64 * i + 64 } else { k.len() as int };
    assert(64 * i < k.len());
    assert forall|j: int| 0 <= j < end - 64 * i implies c[j] != 0u8 by {
        assert(c[j] == k[64 * i + j]);
    }
    lemma_key_end(c, end - 64 * i);
    assert(c.subrange(0, end - 64 * i) =~= k.subrange(64 * i, end));
}


/// The order in which the overflow records of a cell split into `recs` are
/// read back: chained from the main record, the last one made comes first.
pub open spec fn read_order(recs: Seq<CellRecord>) -> Seq<CellRecord> {
    recs.subrange(1, recs.len() as int).reverse()
}

/// `min(a, b)`.
pub open spec fn min_int(a: int, b: int) -> int {
    if a <= b { a } else { b }
}

proof fn lemma_read_prefix(recs: Seq<CellRecord>, k: Seq<u8>, ptrs: Seq<u64>, m: int)
    requires
        split_shape(recs, k, ptrs),
        k.len() > 0,
        forall|j: int| 0 <= j < k.len() ==> k[j] != 0u8,
        1 <= m <= recs.len(),
    ensures
        ({
            let nk = nb_key_records(k.len() as int);
            let t = recs.subrange(1, m).reverse();
            &&& overflow_key_bytes(t) == k.subrange(min_int(64, k.len() as int), min_int(64 * m, k.len() as int))
            &&& overflow_data_ptrs(t) == ptrs.subrange(0, if m <= nk { 0 } else { min_int(7 * (m - nk), ptrs.len() as int) })
            &&& list_counts_fit(t)
        }),
    decreases m,
{
    let nk = nb_key_records(k.len() as int);
    let t = recs.subrange(1, m).reverse();
    if m == 1 {
        assert(t =~= Seq::<CellRecord>::empty());
        assert(k.subrange(min_int(64, k.len() as int), min_int(64, k.len() as int)) =~= Seq::<u8>::empty());
        assert(ptrs.subrange(0, 0) =~= Seq::<u64>::empty());
    } else {
        lemma_read_prefix(recs, k, ptrs, m - 1);
        let p = recs.subrange(1, m - 1).reverse();
        assert(t.drop_first() =~= p);
        assert(t[0] == recs[m - 1]);
        let r = recs[m - 1];
        if m - 1 < nk {
            assert(is_record(r, IS_ACTIVE_CELL_FLAG, key_chunk(k, m - 1)));
            assert(!has_flag(0x40u8, 0x20u8)) by (bit_vector);
            lemma_key_record_roundtrip(k, m - 1);
            assert(64 * (m - 1) < k.len());
            assert(k.subrange(min_int(64, k.len() as int), 64 * (m - 1)) + k.subrange(
                64 * (m - 1),
                min_int(64 * m, k.len() as int),
            ) =~= k.subrange(min_int(64, k.len() as int), min_int(64 * m, k.len() as int)));
        } else {
            let j = m - 1 - nk;
            assert(0 <= j < nb_ptr_records(ptrs.len() as int));
            assert(is_record(recs[nk + j], IS_ACTIVE_CELL_FLAG | IS_LIST_PTR_CELL_FLAG, ptr_record_key(ptr_chunk(ptrs, j))));
            assert(recs[nk + j] == r);
            assert(has_flag(0x40u8 | 0x20u8, 0x20u8)) by (bit_vector);
            assert(7 * j < ptrs.len());
            lemma_ptr_record_roundtrip(ptr_chunk(ptrs, j));
            assert(64 * (m - 1) >= k.len());
            let lo = if m - 1 <= nk { 0 } else { min_int(7 * (m - 1 - nk), ptrs.len() as int) };
            assert(lo == 7 * j);
            assert(ptrs.subrange(0, lo) + ptr_chunk(ptrs, j) =~= ptrs.subrange(0, min_int(7 * (m - nk), ptrs.len() as int)));
            assert(k.subrange(min_int(64, k.len() as int), min_int(64 * (m - 1), k.len() as int)) + Seq::<u8>::empty()
                =~= k.subrange(min_int(64, k.len() as int), min_int(64 * m, k.len() as int)));
        }
        assert forall|i: int| 0 <= i < t.len() && is_list_record(#[trigger] t[i]) implies spec_u16_from_be(t[i].key@) <= 7 by {
            if i > 0 {
                assert(t[i] == p[i - 1]);
            }
        }
    }
}

/// Reading back the records a cell is split into, its overflow records
/// walked from the main one, gives the bytes of its key (when the key is
/// not empty and holds no zero byte) and its data pointers; a cell without
/// data pointers reads back as an interior cell.
pub proof fn lemma_split_cell_read_back(recs: Seq<CellRecord>, k: Seq<u8>, ptrs: Seq<u64>)
    requires
        split_shape(recs, k, ptrs),
        k.len() > 0,
        forall|j: int| 0 <= j < k.len() ==> k[j] != 0u8,
    ensures
        list_counts_fit(read_order(recs)),
        stored_key_bytes(recs[0], read_order(recs)) == k,
        ptrs.len() > 0 ==> has_list_record(read_order(recs)) && overflow_data_ptrs(read_order(recs)) == ptrs,
        ptrs.len() == 0 ==> !has_list_record(read_order(recs)),
{
    let nk = nb_key_records(k.len() as int);
    let n = recs.len() as int;
    lemma_read_prefix(recs, k, ptrs, n);
    lemma_key_record_roundtrip(k, 0);
    assert(key_chunk(k, 0) == recs[0].key@);
    assert(k.subrange(0, min_int(64, k.len() as int)) + k.subrange(min_int(64, k.len() as int), k.len() as int) =~= k);
    assert(min_int(64 * n, k.len() as int) == k.len());
    let t = read_order(recs);
    if ptrs.len() > 0 {
        assert(n > nk);
        assert(min_int(7 * (n - nk), ptrs.len() as int) == ptrs.len());
        assert(ptrs.subrange(0, ptrs.len() as int) =~= ptrs);
        let i = n - 1 - nk;
        assert(t[i] == recs[nk]);
        assert(has_flag(0x40u8 | 0x20u8, 0x20u8)) by (bit_vector);
        assert(is_record(recs[nk + 0], IS_ACTIVE_CELL_FLAG | IS_LIST_PTR_CELL_FLAG, ptr_record_key(ptr_chunk(ptrs, 0))));
        assert(is_list_record(t[i]));
    } else {
        assert(n == nk);
        assert forall|i: int| 0 <= i < t.len() implies !is_list_record(#[trigger] t[i]) by {
            assert(t[i] == recs[n - 1 - i]);
            assert(is_record(recs[n - 1 - i], IS_ACTIVE_CELL_FLAG, key_chunk(k, n - 1 - i)));
            assert(!has_flag(0x40u8, 0x20u8)) by (bit_vector);
        }
    }
}


/// The pointers of `data_ptrs` from the `start_index`-th on, counted from
/// one.
pub open spec fn ptrs_from(data_ptrs: Seq<u64>, start_index: int) -> Seq<u64> {
    data_ptrs.subrange(min_int(start_index - 1, data_ptrs.len() as int), data_ptrs.len() as int)
}

/// How many of `n` pointers go in a list record that already counts `c0`:
/// none when it is full, else as many as fit in its seven slots.
pub open spec fn first_fill(c0: int, n: int) -> int {
    if c0 >= 7 {
        0
    } else {
        min_int(7 - c0, n)
    }
}

/// The `j`-th run of seven pointers of `p` (the last one may be shorter)
/// after its first `f0`.
pub open spec fn next_chunk(p: Seq<u64>, f0: int, j: int) -> Seq<u64> {
    p.subrange(f0 + 7 * j, min_int(f0 + 7 * j + 7, p.len() as int))
}

/// The key bytes of the list record key `orig` once `chunk` is written from
/// its `at`-th pointer slot on and its counter set to `at + chunk.len()`.
pub open spec fn filled_key(orig: Seq<u8>, at: int, chunk: Seq<u64>) -> Seq<u8> {
    spec_u16_to_be((at + chunk.len()) as u16) + orig.subrange(2, 2 + 8 * at) + be64s(chunk) + orig.subrange(
        2 + 8 * (at + chunk.len()),
        64,
    )
}

/// `r` is the list record `orig` with `chunk` written from its `at`-th
/// pointer slot on and its counter set accordingly.
pub open spec fn filled(r: CellRecord, orig: CellRecord, at: int, chunk: Seq<u64>) -> bool {
    &&& r.header == orig.header
    &&& r.node_ptr == orig.node_ptr
    &&& r.overflow_cell_ptr == orig.overflow_cell_ptr
    &&& r.key@ == filled_key(orig.key@, at, chunk)
}

/// `r` is `orig` after writing `chunk` from slot `at`: `orig` itself while
/// nothing was written.
pub open spec fn holds_chunk(r: CellRecord, orig: CellRecord, at: int, chunk: Seq<u64>) -> bool {
    if chunk.len() == 0 {
        r == orig
    } else {
        filled(r, orig, at, chunk)
    }
}

/// What writing the pointers `p` into the chain of list records `orig`
/// gives: the last record of the chain takes pointers in its free slots,
/// then the pointers go seven to a record, first into the chain's other
/// records from its end (those are `updated`, after the last one), then
/// into new active list records (`created`); `unused` are the records left.
pub open spec fn fill_result(
    orig: Seq<CellRecord>,
    p: Seq<u64>,
    updated: Seq<CellRecord>,
    created: Seq<CellRecord>,
    unused: Seq<CellRecord>,
) -> bool {
    let l = orig.len() as int;
    let first = orig[l - 1];
    let c0 = spec_u16_from_be(first.key@) as int;
    let f0 = first_fill(c0, p.len() as int);
    let nc = nb_ptr_records(p.len() - f0);
    let reuse = min_int(nc, l - 1);
    &&& updated.len() == 1 + reuse
    &&& created.len() == nc - reuse
    &&& unused == orig.subrange(0, l - 1 - reuse)
    &&& if c0 < 7 && p.len() > 0 {
        filled(updated[0], first, c0, p.subrange(0, f0))
    } else {
        updated[0] == first
    }
    &&& forall|j: int| 0 <= j < reuse ==> filled(#[trigger] updated[1 + j], orig[l - 2 - j], 0, next_chunk(p, f0, j))
    &&& forall|j: int|
        0 <= j < nc - reuse ==> is_record(
            #[trigger] created[j],
            IS_ACTIVE_CELL_FLAG | IS_LIST_PTR_CELL_FLAG,
            ptr_record_key(next_chunk(p, f0, reuse + j)),
        )
}

proof fn lemma_fill_step(cur: CellRecord, base: CellRecord, at: int, q: Seq<u64>, ptr: u64, key1: Seq<u8>, key2: Seq<u8>)
    requires
        holds_chunk(cur, base, at, q),
        0 <= at,
        at + q.len() < 7,
        key1 == cur.key@.subrange(0, 2 + 8 * (at + q.len())) + spec_u64_to_be(ptr) + cur.key@.subrange(
            2 + 8 * (at + q.len()) + 8,
            64,
        ),
        key2 == spec_u16_to_be((at + q.len() + 1) as u16) + key1.subrange(2, 64),
    ensures
        key2 == filled_key(base.key@, at, q.push(ptr)),
{
    let o = base.key@;
    lemma_be64s_len(q);
    lemma_be64s_len(q.push(ptr));
    assert(q.push(ptr).drop_last() =~= q);
    assert(be64s(q.push(ptr)) == be64s(q) + spec_u64_to_be(ptr));
    if q.len() == 0 {
        assert(be64s(q) =~= Seq::<u8>::empty());
        assert(key2 =~= filled_key(o, at, q.push(ptr)));
    } else {
        assert(key2 =~= filled_key(o, at, q.push(ptr)));
    }
}

proof fn lemma_filled_blank(r: CellRecord, blank: CellRecord, chunk: Seq<u64>)
    requires
        filled(r, blank, 0, chunk),
        chunk.len() <= 7,
        blank.key@ == zeros(64),
        blank.header == IS_ACTIVE_CELL_FLAG | IS_LIST_PTR_CELL_FLAG,
        blank.node_ptr == 0,
        blank.overflow_cell_ptr == 0,
    ensures
        is_record(r, IS_ACTIVE_CELL_FLAG | IS_LIST_PTR_CELL_FLAG, ptr_record_key(chunk)),
{
    lemma_be64s_len(chunk);
    assert(r.key@ =~= ptr_record_key(chunk));
}

/// Writes the data pointers of `data_ptrs` from the `start_index`-th on
/// (counted from one) into the chain of list records `list_ptr_cells`, as
/// `fill_result` says; answers the records updated, the records created and
/// the records left unused, or `None` when the chain is empty.
pub fn fill_list_ptr_cells(list_ptr_cells: Vec<CellRecord>, data_ptrs: &Vec<u64>, start_index: usize) -> (r: Option<
    (Vec<CellRecord>, Vec<CellRecord>, Vec<CellRecord>),
>)
    requires
        start_index >= 1,
    ensures
        list_ptr_cells@.len() == 0 <==> r is None,
        r matches Some((updated, created, unused)) ==> fill_result(
            list_ptr_cells@,
            ptrs_from(data_ptrs@, start_index as int),
            updated@,
            created@,
            unused@,
        ),
{
    let ghost orig = list_ptr_cells@;
    let ghost l = orig.len() as int;
    let n = data_ptrs.len();
    let s0: usize = if start_index - 1 < n { start_index - 1 } else { n };
    let ghost p = ptrs_from(data_ptrs@, start_index as int);
    assert(p == data_ptrs@.subrange(s0 as int, n as int));
    let mut list = list_ptr_cells;
    let mut cur = match list.pop() {
        Some(c) => c,
        None => {
            return None;
        },
    };
    let ghost first = cur;
    assert(first == orig[l - 1]);
    let ghost c0 = spec_u16_from_be(first.key@) as int;
    let ghost f0 = first_fill(c0, p.len() as int);
    let mut updated: Vec<CellRecord> = Vec::new();
    let mut created: Vec<CellRecord> = Vec::new();
    let mut cur_is_new = false;
    let ghost mut blank = cur;
    let mut data_ptr_count: u16 = read_counter(&cur.key);
    let mut data_ptr_offset: usize = 2 + NODE_PTR_SIZE * data_ptr_count as usize;
    let mut i: usize = s0;
    while i < n
        invariant
            n == data_ptrs@.len(),
            s0 <= i <= n,
            p == data_ptrs@.subrange(s0 as int, n as int),
            orig.len() == l,
            l >= 1,
            first == orig[l - 1],
            c0 == spec_u16_from_be(first.key@) as int,
            f0 == first_fill(c0, p.len() as int),
            data_ptr_offset == 2 + 8 * data_ptr_count,
            updated@.len() + created@.len() == 0 ==> {
                &&& !cur_is_new
                &&& list@ == orig.subrange(0, l - 1)
                &&& i - s0 <= f0
                &&& (i == s0 ==> cur == first && data_ptr_count == c0)
                &&& (i > s0 ==> c0 < 7 && data_ptr_count == c0 + (i - s0) && filled(
                    cur,
                    first,
                    c0,
                    p.subrange(0, i - s0),
                ))
            },
            updated@.len() + created@.len() >= 1 ==> {
                let j = updated@.len() + created@.len() - 1;
                let m = min_int(j, l - 1);
                &&& 1 <= data_ptr_count <= 7
                &&& i - s0 == f0 + 7 * j + data_ptr_count
                &&& (c0 >= 7 ==> f0 == 0)
                &&& (c0 < 7 ==> f0 == 7 - c0)
                &&& updated@.len() == 1 + m
                &&& created@.len() == j - m
                &&& list@ == orig.subrange(0, l - 1 - min_int(j + 1, l - 1))
                &&& (j < l - 1) == !cur_is_new
                &&& (!cur_is_new ==> filled(cur, orig[l - 2 - j], 0, p.subrange(f0 + 7 * j, i - s0)))
                &&& (cur_is_new ==> {
                    &&& filled(cur, blank, 0, p.subrange(f0 + 7 * j, i - s0))
                    &&& blank.header == IS_ACTIVE_CELL_FLAG | IS_LIST_PTR_CELL_FLAG
                    &&& blank.node_ptr == 0
                    &&& blank.overflow_cell_ptr == 0
                    &&& blank.key@ == zeros(64)
                })
                &&& if c0 < 7 {
                    filled(updated@[0], first, c0, p.subrange(0, f0))
                } else {
                    updated@[0] == first
                }
                &&& forall|jj: int| 0 <= jj < m ==> filled(#[trigger] updated@[1 + jj], orig[l - 2 - jj], 0, next_chunk(p, f0, jj))
                &&& forall|jj: int|
                    0 <= jj < j - m ==> is_record(
                        #[trigger] created@[jj],
                        IS_ACTIVE_CELL_FLAG | IS_LIST_PTR_CELL_FLAG,
                        ptr_record_key(next_chunk(p, f0, m + jj)),
                    )
            },
        decreases n - i,
    {
        let ghost w = i - s0;
        let ghost t: int = (updated@.len() + created@.len()) as int;
        let ghost mut base = cur;
        let ghost mut at: int = 0;
        let ghost mut qs: int = 0;
        if data_ptr_count >= 7 {
            let ghost j: int = t;
            let ghost old_updated = updated@;
            let ghost old_created = created@;
            let ghost old_list = list@;
            proof {
                if t >= 1 {
                    let jp = t - 1;
                    assert(w == f0 + 7 * jp + 7);
                    assert(next_chunk(p, f0, jp) == p.subrange(f0 + 7 * jp, w));
                    if cur_is_new {
                        lemma_be64s_len(p.subrange(f0 + 7 * jp, w));
                        lemma_filled_blank(cur, blank, p.subrange(f0 + 7 * jp, w));
                    }
                } else {
                    if w > 0 {
                        assert(f0 == 7 - c0);
                    } else {
                        assert(c0 >= 7);
                    }
                }
            }
            if cur_is_new {
                created.push(cur);
            } else {
                updated.push(cur);
            }
            data_ptr_offset = 2;
            data_ptr_count = 0;
            match list.pop() {
                Some(c) => {
                    cur = c;
                    cur_is_new = false;
                },
                None => {
                    let mut fresh = CellRecord::new();
                    fresh.set_is_active();
                    fresh.set_is_list_ptr();
                    proof {
                        blank = fresh;
                        assert(fresh.key@ =~= zeros(64));
                        assert(0u8 | 0x40u8 | 0x20u8 == 0x40u8 | 0x20u8) by (bit_vector);
                    }
                    cur = fresh;
                    cur_is_new = true;
                },
            }
            proof {
                base = cur;
                at = 0;
                qs = f0 + 7 * j;
                let m = min_int(j, l - 1);
                let mp = if j >= 1 { min_int(j - 1, l - 1) } else { 0 };
                if j >= 1 {
                    assert forall|jj: int| 0 <= jj < m implies filled(#[trigger] updated@[1 + jj], orig[l - 2 - jj], 0, next_chunk(p, f0, jj)) by {
                        if jj < mp {
                            assert(updated@[1 + jj] == old_updated[1 + jj]);
                        }
                    }
                    assert forall|jj: int|
                        0 <= jj < j - m implies is_record(
                        #[trigger] created@[jj],
                        IS_ACTIVE_CELL_FLAG | IS_LIST_PTR_CELL_FLAG,
                        ptr_record_key(next_chunk(p, f0, m + jj)),
                    ) by {
                        if jj < j - 1 - mp {
                            assert(created@[jj] == old_created[jj]);
                        }
                    }
                    assert(updated@[0] == old_updated[0]);
                }
                assert(old_list.len() == l - 1 - m);
                assert(list@ =~= orig.subrange(0, l - 1 - min_int(j + 1, l - 1)));
                if !cur_is_new {
                    assert(cur == orig[l - 2 - j]);
                }
            }
        } else {
            proof {
                if t == 0 {
                    base = first;
                    at = c0;
                    qs = 0;
                } else {
                    let j = t - 1;
                    at = 0;
                    qs = f0 + 7 * j;
                    if cur_is_new {
                        base = blank;
                    } else {
                        base = orig[l - 2 - j];
                    }
                }
            }
        }
        proof {
            assert(holds_chunk(cur, base, at, p.subrange(qs, w)));
            assert(at + (w - qs) == data_ptr_count);
            assert(data_ptr_count < 7);
        }
        let ghost key0 = cur.key@;
        let ghost pre = cur;
        data_ptr_offset += insert_data_ptr(&mut cur.key, data_ptr_offset, &data_ptrs[i]);
        let ghost key1 = cur.key@;
        data_ptr_count += 1;
        update_counter(&mut cur.key, data_ptr_count);
        proof {
            assert(data_ptrs@[i as int] == p[w]);
            assert(key0.len() == 64);
            lemma_fill_step(
                pre,
                base,
                at,
                p.subrange(qs, w),
                p[w],
                key1,
                cur.key@,
            );
            assert(p.subrange(qs, w).push(p[w]) =~= p.subrange(qs, w + 1));
        }
        i += 1;
    }
    let ghost t: int = (updated@.len() + created@.len()) as int;
    let ghost old_updated = updated@;
    let ghost old_created = created@;
    proof {
        if t >= 1 {
            let j = t - 1;
            assert(next_chunk(p, f0, j) == p.subrange(f0 + 7 * j, p.len() as int));
            assert(nb_ptr_records(p.len() - f0) == j + 1);
            if cur_is_new {
                lemma_be64s_len(p.subrange(f0 + 7 * j, p.len() as int));
                lemma_filled_blank(cur, blank, p.subrange(f0 + 7 * j, p.len() as int));
            }
        } else {
            assert(nb_ptr_records(p.len() - f0) == 0);
            if p.len() > 0 {
                assert(f0 == p.len());
                assert(p.subrange(0, f0) == p.subrange(0, (i - s0) as int));
            }
        }
    }
    if cur_is_new {
        created.push(cur);
    } else {
        updated.push(cur);
    }
    proof {
        let nc = nb_ptr_records(p.len() - f0);
        let reuse = min_int(nc, l - 1);
        if t >= 1 {
            let j = t - 1;
            let m = min_int(j, l - 1);
            assert forall|jj: int| 0 <= jj < reuse implies filled(#[trigger] updated@[1 + jj], orig[l - 2 - jj], 0, next_chunk(p, f0, jj)) by {
                if jj < m {
                    assert(updated@[1 + jj] == old_updated[1 + jj]);
                }
            }
            assert forall|jj: int|
                0 <= jj < nc - reuse implies is_record(
                #[trigger] created@[jj],
                IS_ACTIVE_CELL_FLAG | IS_LIST_PTR_CELL_FLAG,
                ptr_record_key(next_chunk(p, f0, reuse + jj)),
            ) by {
                if jj < j - m {
                    assert(created@[jj] == old_created[jj]);
                }
            }
            assert(updated@[0] == old_updated[0]);
        }
    }
    Some((updated, created, list))
}


/// The list records of `s`, in order.
pub open spec fn list_records_of(s: Seq<CellRecord>) -> Seq<CellRecord> {
    s.filter(|r: CellRecord| is_list_record(r))
}

/// Plans the update of the data pointers of a cell whose chain of overflow
/// records is `overflow_cell_records`: keeps its list records, in order,
/// and writes into them the pointers of `data_ptrs` from the
/// `start_index`-th on (counted from one) as `fill_list_ptr_cells` does;
/// `None` when the chain holds no list record.
pub fn plan_cell_data_ptrs(overflow_cell_records: &Vec<CellRecord>, data_ptrs: &Vec<u64>, start_index: usize) -> (r:
    Option<(Vec<CellRecord>, Vec<CellRecord>, Vec<CellRecord>)>)
    requires
        start_index >= 1,
    ensures
        list_records_of(overflow_cell_records@).len() == 0 <==> r is None,
        r matches Some((updated, created, unused)) ==> fill_result(
            list_records_of(overflow_cell_records@),
            ptrs_from(data_ptrs@, start_index as int),
            updated@,
            created@,
            unused@,
        ),
{
    let ghost s = overflow_cell_records@;
    let mut list_ptr_cells: Vec<CellRecord> = Vec::new();
    let n = overflow_cell_records.len();
    let mut i: usize = 0;
    while i < n
        invariant
            n == s.len(),
            s == overflow_cell_records@,
            i <= n,
            list_ptr_cells@ == list_records_of(s.subrange(0, i as int)),
        decreases n - i,
    {
        let cell_record = &overflow_cell_records[i];
        proof {
            assert(s.subrange(0, i + 1).drop_last() =~= s.subrange(0, i as int));
            assert(s.subrange(0, i + 1).last() == s[i as int]);
            reveal_with_fuel(Seq::filter, 1);
        }
        if cell_record.is_list_ptr() {
            list_ptr_cells.push(*cell_record);
        }
        i = i + 1;
    }
    assert(s.subrange(0, n as int) =~= s);
    fill_list_ptr_cells(list_ptr_cells, data_ptrs, start_index)
}


/// The data pointers listed by the records of `s`, first record first.
pub open spec fn records_ptrs(s: Seq<CellRecord>) -> Seq<u64>
    decreases s.len(),
{
    if s.len() == 0 {
        seq![]
    } else {
        records_ptrs(s.drop_last()) + record_ptrs(s.last())
    }
}

proof fn lemma_filled_ptrs(r: CellRecord, orig: CellRecord, at: int, chunk: Seq<u64>)
    requires
        filled(r, orig, at, chunk),
        0 <= at,
        at + chunk.len() <= 7,
    ensures
        record_ptrs(r) == list_ptrs(orig.key@, at) + chunk,
{
    let key = r.key@;
    let c = at + chunk.len();
    lemma_be64s_len(chunk);
    crate::byte_utils::lemma_u16_be_value_roundtrip(c as u16);
    assert(key.subrange(0, 2) =~= spec_u16_to_be(c as u16));
    assert(spec_u16_from_be(key) == spec_u16_from_be(key.subrange(0, 2)));
    let lhs = record_ptrs(r);
    let rhs = list_ptrs(orig.key@, at) + chunk;
    assert forall|k: int| 0 <= k < c implies #[trigger] lhs[k] == rhs[k] by {
        if k < at {
            assert(key.subrange(2 + 8 * k, 2 + 8 * k + 8) =~= orig.key@.subrange(2 + 8 * k, 2 + 8 * k + 8));
        } else {
            lemma_be64s_index(chunk, k - at);
            assert(key.subrange(2 + 8 * k, 2 + 8 * k + 8) =~= be64s(chunk).subrange(8 * (k - at), 8 * (k - at) + 8));
            crate::byte_utils::lemma_u64_be_value_roundtrip(chunk[k - at]);
        }
    }
    assert(lhs =~= rhs);
}

/// After pointers are written into a chain of list records, the written
/// records, those updated then those created, list the pointers that the
/// chain's last record listed followed by the new ones.
pub proof fn lemma_fill_read_back(
    orig: Seq<CellRecord>,
    p: Seq<u64>,
    updated: Seq<CellRecord>,
    created: Seq<CellRecord>,
    unused: Seq<CellRecord>,
)
    requires
        orig.len() >= 1,
        spec_u16_from_be(orig.last().key@) <= 7,
        fill_result(orig, p, updated, created, unused),
    ensures
        records_ptrs(updated + created) == record_ptrs(orig.last()) + p,
{
    let l = orig.len() as int;
    let first = orig[l - 1];
    let c0 = spec_u16_from_be(first.key@) as int;
    let f0 = first_fill(c0, p.len() as int);
    let nc = nb_ptr_records(p.len() - f0);
    let reuse = min_int(nc, l - 1);
    let all = updated + created;
    // The record of rank `j` after the first holds the `j`-th run of seven.
    assert forall|j: int| 0 <= j < nc implies #[trigger] record_ptrs(all[1 + j]) == next_chunk(p, f0, j) by {
        assert(next_chunk(p, f0, j).len() <= 7);
        if j < reuse {
            assert(all[1 + j] == updated[1 + j]);
            lemma_filled_ptrs(all[1 + j], orig[l - 2 - j], 0, next_chunk(p, f0, j));
            assert(list_ptrs(orig[l - 2 - j].key@, 0) =~= Seq::<u64>::empty());
            assert(Seq::<u64>::empty() + next_chunk(p, f0, j) =~= next_chunk(p, f0, j));
        } else {
            assert(all[1 + j] == created[j - reuse]);
            assert(reuse + (j - reuse) == j);
            lemma_ptr_record_roundtrip(next_chunk(p, f0, j));
        }
    }
    // The first record holds its old pointers then the first `f0` new ones.
    if c0 < 7 && p.len() > 0 {
        lemma_filled_ptrs(updated[0], first, c0, p.subrange(0, f0));
        assert(record_ptrs(first) == list_ptrs(first.key@, c0));
    } else {
        assert(p.subrange(0, f0) =~= Seq::<u64>::empty());
    }
    assert(record_ptrs(all[0]) == record_ptrs(first) + p.subrange(0, f0));
    lemma_fill_prefix(all, first, p, f0, nc, nc);
    assert(all.subrange(0, 1 + nc) =~= all);
    assert(min_int(f0 + 7 * nc, p.len() as int) == p.len());
    assert(p.subrange(0, p.len() as int) =~= p);
}

proof fn lemma_fill_prefix(all: Seq<CellRecord>, first: CellRecord, p: Seq<u64>, f0: int, nc: int, k: int)
    requires
        0 <= k <= nc,
        all.len() == 1 + nc,
        forall|j: int| 0 <= j < nc ==> #[trigger] record_ptrs(all[1 + j]) == next_chunk(p, f0, j),
        record_ptrs(all[0]) == record_ptrs(first) + p.subrange(0, f0),
        0 <= f0 <= p.len(),
        nc == nb_ptr_records(p.len() - f0),
    ensures
        records_ptrs(all.subrange(0, 1 + k)) == record_ptrs(first) + p.subrange(0, min_int(f0 + 7 * k, p.len() as int)),
    decreases k,
{
    if k == 0 {
        assert(all.subrange(0, 1).drop_last() =~= Seq::<CellRecord>::empty());
        assert(all.subrange(0, 1).last() == all[0]);
        assert(records_ptrs(all.subrange(0, 1).drop_last()) == Seq::<u64>::empty());
        assert(records_ptrs(all.subrange(0, 1)) == records_ptrs(all.subrange(0, 1).drop_last()) + record_ptrs(all[0]));
        assert(Seq::<u64>::empty() + record_ptrs(all[0]) =~= record_ptrs(all[0]));
        assert(min_int(f0, p.len() as int) == f0);
    } else {
        lemma_fill_prefix(all, first, p, f0, nc, k - 1);
        assert(all.subrange(0, 1 + k).drop_last() =~= all.subrange(0, k));
        assert(all.subrange(0, 1 + k).last() == all[1 + (k - 1)]);
        assert(f0 + 7 * (k - 1) < p.len());
        assert(p.subrange(0, f0 + 7 * (k - 1)) + next_chunk(p, f0, k - 1) =~= p.subrange(0, min_int(f0 + 7 * k, p.len() as int)));
    }
}

/// The header byte of the record of a node: its leaf, root and next-node
/// flags.
pub open spec fn node_header(is_leaf: bool, is_root: bool, has_next: bool) -> u8 {
    (if is_leaf { IS_LEAF_NODE_FLAG } else { 0u8 }) | (if is_root { IS_ROOT_NODE_FLAG } else { 0u8 }) | (if has_next {
        HAS_NEXT_NODE_FLAG
    } else {
        0u8
    })
}

/// A node header reads back the flags it was made of, and never marks an
/// overflow node.
pub proof fn lemma_node_header_flags(is_leaf: bool, is_root: bool, has_next: bool)
    ensures
        has_flag(node_header(is_leaf, is_root, has_next), IS_LEAF_NODE_FLAG) == is_leaf,
        has_flag(node_header(is_leaf, is_root, has_next), IS_ROOT_NODE_FLAG) == is_root,
        has_flag(node_header(is_leaf, is_root, has_next), HAS_NEXT_NODE_FLAG) == has_next,
        !has_flag(node_header(is_leaf, is_root, has_next), IS_OVERFLOW_NODE_FLAG),
{
    let l: u8 = if is_leaf { 0x80u8 } else { 0u8 };
    let r: u8 = if is_root { 0x10u8 } else { 0u8 };
    let n: u8 = if has_next { 0x40u8 } else { 0u8 };
    assert(((l | r | n) & 0x80u8 > 0) == (l == 0x80u8) && ((l | r | n) & 0x10u8 > 0) == (r == 0x10u8) && ((l | r | n)
        & 0x40u8 > 0) == (n == 0x40u8) && !((l | r | n) & 0x20u8 > 0)) by (bit_vector)
        requires
            l == 0x80u8 || l == 0u8,
            r == 0x10u8 || r == 0u8,
            n == 0x40u8 || n == 0u8,
    ;
}

/// The record of a node whose cells are stored from the main records
/// `main_records`: the node's flags in its header, its next node as its
/// pointer (zero when it has none), the main record of its `i`-th cell as
/// its `i`-th cell, and fresh cells after them.
pub fn node_record_of(node: &BTreeNode, main_records: &Vec<CellRecord>) -> (r: BNodeRecord)
    requires
        main_records@.len() == node@.cells.len(),
        node@.cells.len() <= NB_CELL,
    ensures
        r.header == node_header(node@.is_leaf, node@.is_root, node@.node_ptr is Some),
        r.ptr == (match node@.node_ptr {
            Some(p) => p,
            None => 0,
        }),
        r.next_free_cells_node_ptr == 0,
        forall|i: int| 0 <= i < main_records@.len() ==> r.cells[i] == main_records@[i],
        forall|i: int|
            main_records@.len() <= i < NB_CELL ==> (#[trigger] r.cells[i]).header == 0 && r.cells[i].node_ptr == 0
                && r.cells[i].overflow_cell_ptr == 0,
{
    let mut node_record = BNodeRecord::new();
    let ghost l: u8 = if node@.is_leaf { IS_LEAF_NODE_FLAG } else { 0u8 };
    let ghost rt: u8 = if node@.is_root { IS_ROOT_NODE_FLAG } else { 0u8 };
    if node.is_leaf() {
        node_record.set_leaf();
    }
    assert(node_record.header == l) by {
        assert(0u8 | 0x80u8 == 0x80u8) by (bit_vector);
    }
    if node.is_root() {
        node_record.set_root();
    }
    assert(node_record.header == l | rt) by {
        assert(forall|x: u8| #![auto] x | 0u8 == x) by (bit_vector);
    }
    if let Some(next_id) = node.get_node_ptr() {
        node_record.set_has_next_node();
        node_record.ptr = next_id;
    }
    assert(node_record.header == node_header(node@.is_leaf, node@.is_root, node@.node_ptr is Some)) by {
        assert(forall|x: u8| #![auto] x | 0u8 == x) by (bit_vector);
    }
    let n = main_records.len();
    let mut cell_id: usize = 0;
    while cell_id < n
        invariant
            n == main_records@.len(),
            n <= NB_CELL,
            cell_id <= n,
            node_record.header == node_header(node@.is_leaf, node@.is_root, node@.node_ptr is Some),
            node_record.ptr == (match node@.node_ptr {
                Some(p) => p,
                None => 0,
            }),
            node_record.next_free_cells_node_ptr == 0,
            forall|i: int| 0 <= i < cell_id ==> node_record.cells[i] == main_records@[i],
            forall|i: int|
                cell_id <= i < NB_CELL ==> (#[trigger] node_record.cells[i]).header == 0 && node_record.cells[i].node_ptr
                    == 0 && node_record.cells[i].overflow_cell_ptr == 0,
        decreases n - cell_id,
    {
        node_record.cells[cell_id] = main_records[cell_id];
        cell_id += 1;
    }
    node_record
}

/// The node read from the record `record` of id `nid`, with the cells
/// `cells` loaded from its active cells: its flags are those of the header,
/// and its next node the record's pointer when the header says it has one.
pub fn node_from_record(nid: u64, record: &BNodeRecord, cells: Vec<Cell>) -> (r: BTreeNode)
    ensures
        r@ == (BTreeNodeView {
            id: Some(nid),
            cells: cell_views(cells@),
            node_ptr: if has_flag(record.header, HAS_NEXT_NODE_FLAG) {
                Some(record.ptr)
            } else {
                None
            },
            is_leaf: has_flag(record.header, IS_LEAF_NODE_FLAG),
            is_root: has_flag(record.header, IS_ROOT_NODE_FLAG),
            change_state: NodeChangeStateView { node_ptr_changed: false, is_new_instance: false, log: seq![] },
        }),
{
    let next_node_ptr = if record.has_next_node() {
        Some(record.ptr)
    } else {
        None
    };
    BTreeNode::new_with_id(Some(nid), next_node_ptr, record.is_leaf(), record.is_root(), cells)
}

/// A node written to its record (`node_record_of`) and read back from it
/// (`node_from_record`) keeps whether it is a leaf, whether it is the root,
/// and its next node.
pub proof fn lemma_node_record_read_back(node: BTreeNodeView, record: BNodeRecord)
    requires
        record.header == node_header(node.is_leaf, node.is_root, node.node_ptr is Some),
        record.ptr == (match node.node_ptr {
            Some(p) => p,
            None => 0,
        }),
    ensures
        has_flag(record.header, IS_LEAF_NODE_FLAG) == node.is_leaf,
        has_flag(record.header, IS_ROOT_NODE_FLAG) == node.is_root,
        (if has_flag(record.header, HAS_NEXT_NODE_FLAG) {
            Some(record.ptr)
        } else {
            None
        }) == node.node_ptr,
{
    lemma_node_header_flags(node.is_leaf, node.is_root, node.node_ptr is Some);
}

} // verus!
