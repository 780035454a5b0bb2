use vstd::prelude::*;
use vstd::utf8::{valid_utf8, decode_utf8};
use crate::buf_config::{
    KEY_SIZE, CELL_SIZE, CELL_HEADER_SIZE, NODE_PTR_SIZE, OVERFLOW_CELL_PTR_SIZE, NB_CELL,
    BTREE_NODE_RECORD_SIZE, BTREE_NODE_HEADER_SIZE, FREE_CELLS_NEXT_NODE_PTR_SIZE,
};
use crate::byte_utils::{
    spec_u64_to_be, spec_u64_from_be, spec_u32_to_be, spec_u32_from_be, lemma_u64_be_value_roundtrip,
    lemma_u64_be_bytes_roundtrip, lemma_u32_be_value_roundtrip, lemma_u32_be_bytes_roundtrip, u64_to_bytes,
    u32_to_bytes, u64_from_bytes_at, u32_from_bytes_at, write_at, read_array,
};

verus! {

pub const HAS_OVERFLOW_CELL_FLAG: u8 = 0b1000_0000;
pub const IS_ACTIVE_CELL_FLAG: u8 = 0b0100_0000;
pub const IS_LIST_PTR_CELL_FLAG: u8 = 0b0010_0000;

pub const IS_LEAF_NODE_FLAG: u8 = 0b1000_0000;
pub const HAS_NEXT_NODE_FLAG: u8 = 0b0100_0000;
pub const IS_OVERFLOW_NODE_FLAG: u8 = 0b0010_0000;
pub const IS_ROOT_NODE_FLAG: u8 = 0b0001_0000;

/// Whether the flag bits `f` are set in the header byte `h`.
pub open spec fn has_flag(h: u8, f: u8) -> bool {
    h & f > 0
}

/// A flag made of one bit.
pub open spec fn single_bit(f: u8) -> bool {
    f == 1u8 || f == 2u8 || f == 4u8 || f == 8u8 || f == 16u8 || f == 32u8 || f == 64u8 || f == 128u8
}

/// Setting a one-bit flag makes it read as set, clearing it makes it read
/// as unset, and neither changes how any other one-bit flag reads.
pub proof fn lemma_flags(h: u8, f: u8, g: u8)
    requires
        single_bit(f),
        single_bit(g),
    ensures
        has_flag(h | f, f),
        !has_flag(h & !f, f),
        f != g ==> has_flag(h | f, g) == has_flag(h, g),
        f != g ==> has_flag(h & !f, g) == has_flag(h, g),
{
    assert(((h | f) & f > 0) && !((h & !f) & f > 0) && (f != g ==> (((h | f) & g > 0) == (h & g > 0)))
        && (f != g ==> (((h & !f) & g > 0) == (h & g > 0)))) by (bit_vector)
        requires
            f == 1u8 || f == 2u8 || f == 4u8 || f == 8u8 || f == 16u8 || f == 32u8 || f == 64u8 || f == 128u8,
            g == 1u8 || g == 2u8 || g == 4u8 || g == 8u8 || g == 16u8 || g == 32u8 || g == 64u8 || g == 128u8,
    ;
}

/// One cell of a B-tree node record: a header of flags, a pointer to a node
/// (a child, a data record, or the next overflow cell's node), the id of
/// the next overflow cell, and a chunk of the key.
#[derive(Debug, Copy, Clone)]
pub struct CellRecord {
    pub header: u8,
    pub node_ptr: u64,
    pub overflow_cell_ptr: u32,
    pub key: [u8; KEY_SIZE],
}

/// The bytes of a cell record: header, node pointer big-endian, overflow cell
/// id big-endian, then the key chunk.
pub open spec fn cell_bytes(c: CellRecord) -> Seq<u8> {
    seq![c.header] + spec_u64_to_be(c.node_ptr) + spec_u32_to_be(c.overflow_cell_ptr) + c.key@
}

/// `c` holds the fields encoded by the first 77 bytes of `b`.
pub open spec fn cell_read_from(c: CellRecord, b: Seq<u8>) -> bool {
    &&& c.header == b[0]
    &&& c.node_ptr == spec_u64_from_be(b.subrange(1, 9))
    &&& c.overflow_cell_ptr == spec_u32_from_be(b.subrange(9, 13))
    &&& c.key@ == b.subrange(13, 77)
}

/// A cell read back from the bytes of a cell is that cell; the bytes of a
/// cell read from 77 bytes are those bytes.
pub proof fn lemma_cell_roundtrip(c: CellRecord, back: CellRecord, b: Seq<u8>)
    ensures
        cell_bytes(c).len() == CELL_SIZE,
        cell_read_from(back, cell_bytes(c)) ==> back == c,
        b.len() == CELL_SIZE && cell_read_from(c, b) ==> cell_bytes(c) == b,
{
    let e = cell_bytes(c);
    assert(e.subrange(1, 9) =~= spec_u64_to_be(c.node_ptr));
    assert(e.subrange(9, 13) =~= spec_u32_to_be(c.overflow_cell_ptr));
    assert(e.subrange(13, 77) =~= c.key@);
    lemma_u64_be_value_roundtrip(c.node_ptr);
    lemma_u32_be_value_roundtrip(c.overflow_cell_ptr);
    if cell_read_from(back, e) {
        assert(back.key =~= c.key);
    }
    if b.len() == CELL_SIZE && cell_read_from(c, b) {
        lemma_u64_be_bytes_roundtrip(b.subrange(1, 9));
        lemma_u32_be_bytes_roundtrip(b.subrange(9, 13));
        assert(cell_bytes(c) =~= b);
    }
}

impl CellRecord {
    pub fn new() -> (r: Self)
        ensures
            r.header == 0,
            r.node_ptr == 0,
            r.overflow_cell_ptr == 0,
            forall|i: int| 0 <= i < KEY_SIZE ==> r.key[i] == 0,
    {
        CellRecord { header: 0, key: [0u8; KEY_SIZE], node_ptr: 0, overflow_cell_ptr: 0 }
    }

    pub fn has_overflow(&self) -> (r: bool)
        ensures
            r == has_flag(self.header, HAS_OVERFLOW_CELL_FLAG),
    {
        self.header & HAS_OVERFLOW_CELL_FLAG > 0
    }

    pub fn set_has_overflow(&mut self)
        ensures
            *final(self) == (CellRecord { header: old(self).header | HAS_OVERFLOW_CELL_FLAG, ..*old(self) }),
    {
        self.header |= HAS_OVERFLOW_CELL_FLAG;
    }

    pub fn is_active(&self) -> (r: bool)
        ensures
            r == has_flag(self.header, IS_ACTIVE_CELL_FLAG),
    {
        self.header & IS_ACTIVE_CELL_FLAG > 0
    }

    pub fn set_is_active(&mut self)
        ensures
            *final(self) == (CellRecord { header: old(self).header | IS_ACTIVE_CELL_FLAG, ..*old(self) }),
    {
        self.header |= IS_ACTIVE_CELL_FLAG;
    }

    pub fn set_inactive(&mut self)
        ensures
            *final(self) == (CellRecord { header: old(self).header & !IS_ACTIVE_CELL_FLAG, ..*old(self) }),
    {
        self.header &= !IS_ACTIVE_CELL_FLAG;
    }

    pub fn is_list_ptr(&self) -> (r: bool)
        ensures
            r == has_flag(self.header, IS_LIST_PTR_CELL_FLAG),
    {
        self.header & IS_LIST_PTR_CELL_FLAG > 0
    }

    pub fn set_is_list_ptr(&mut self)
        ensures
            *final(self) == (CellRecord { header: old(self).header | IS_LIST_PTR_CELL_FLAG, ..*old(self) }),
    {
        self.header |= IS_LIST_PTR_CELL_FLAG;
    }

    pub fn to_bytes(self) -> (r: [u8; CELL_SIZE])
        ensures
            r@ == cell_bytes(self),
    {
        let mut bytes = [0u8; CELL_SIZE];
        let mut offset: usize = 0;
        bytes[offset] = self.header;
        offset += CELL_HEADER_SIZE;
        write_at(&mut bytes, offset, &u64_to_bytes(self.node_ptr));
        offset += NODE_PTR_SIZE;
        write_at(&mut bytes, offset, &u32_to_bytes(self.overflow_cell_ptr));
        offset += OVERFLOW_CELL_PTR_SIZE;
        write_at(&mut bytes, offset, &self.key);
        assert(bytes@ =~= cell_bytes(self));
        bytes
    }

    pub fn from_bytes(bytes: &[u8]) -> (r: Self)
        requires
            bytes@.len() >= CELL_SIZE,
        ensures
            cell_read_from(r, bytes@),
    {
        let mut offset: usize = 0;
        let header = bytes[offset];
        offset += CELL_HEADER_SIZE;
        let ptr = u64_from_bytes_at(bytes, offset);
        offset += NODE_PTR_SIZE;
        let overflow_cell_ptr = u32_from_bytes_at(bytes, offset);
        offset += OVERFLOW_CELL_PTR_SIZE;
        let key: [u8; KEY_SIZE] = read_array(bytes, offset);
        CellRecord { header, node_ptr: ptr, overflow_cell_ptr, key }
    }

    pub fn chain_with_cell_location(&mut self, location: (u64, u32))
        ensures
            *final(self) == (CellRecord { node_ptr: location.0, overflow_cell_ptr: location.1, ..*old(self) }),
    {
        self.node_ptr = location.0;
        self.overflow_cell_ptr = location.1;
    }

    pub fn get_next_cell_location(&self) -> (r: (u64, u32))
        ensures
            r == (self.node_ptr, self.overflow_cell_ptr),
    {
        (self.node_ptr, self.overflow_cell_ptr)
    }
}


/// The bytes of a run of cells, one after the other.
pub open spec fn cells_bytes(s: Seq<CellRecord>) -> Seq<u8>
    decreases s.len(),
{
    if s.len() == 0 {
        seq![]
    } else {
        cells_bytes(s.drop_last()) + cell_bytes(s.last())
    }
}

/// The bytes of each cell of a run stand at the cell's place.
pub proof fn lemma_cells_bytes(s: Seq<CellRecord>)
    ensures
        cells_bytes(s).len() == 77 * s.len(),
        forall|i: int|
            0 <= i < s.len() ==> cells_bytes(s).subrange(77 * i, 77 * i + 77) == cell_bytes(
                #[trigger] s[i],
            ),
    decreases s.len(),
{
    if s.len() > 0 {
        let p = s.drop_last();
        lemma_cells_bytes(p);
        lemma_cell_roundtrip(s.last(), s.last(), seq![]);
        let all = cells_bytes(s);
        assert forall|i: int| 0 <= i < s.len() implies all.subrange(77 * i, 77 * i + 77)
            == cell_bytes(#[trigger] s[i]) by {
            if i < s.len() - 1 {
                assert(s[i] == p[i]);
                assert(all.subrange(77 * i, 77 * i + 77) =~= cells_bytes(p).subrange(
                    77 * i,
                    77 * i + 77,
                ));
            } else {
                assert(all.subrange(77 * i, 77 * i + 77) =~= cell_bytes(s.last()));
            }
        }
    }
}

/// Bytes that hold, at each cell's place, that cell's bytes are the bytes
/// of the run.
pub proof fn lemma_cells_bytes_from_parts(s: Seq<CellRecord>, b: Seq<u8>)
    requires
        b.len() == 77 * s.len(),
        forall|i: int|
            0 <= i < s.len() ==> b.subrange(77 * i, 77 * i + 77) == cell_bytes(#[trigger] s[i]),
    ensures
        cells_bytes(s) == b,
    decreases s.len(),
{
    if s.len() > 0 {
        let n = s.len() - 1;
        let p = s.drop_last();
        let pb = b.subrange(0, 77 * n);
        assert forall|i: int| 0 <= i < p.len() implies pb.subrange(77 * i, 77 * i + 77)
            == cell_bytes(#[trigger] p[i]) by {
            assert(p[i] == s[i]);
            assert(pb.subrange(77 * i, 77 * i + 77) =~= b.subrange(
                77 * i,
                77 * i + 77,
            ));
        }
        lemma_cells_bytes_from_parts(p, pb);
        assert(s[n] == s.last());
        assert(b =~= pb + b.subrange(77 * n, 77 * n + 77));
    } else {
        assert(b =~= seq![]);
    }
}

/// A node of the B-tree as stored in an index file: a header of flags, a
/// pointer to the next node of an overflow chain, the id of the next node
/// holding free cells, and its cells.
#[derive(Debug, Clone, Copy)]
pub struct BNodeRecord {
    pub header: u8,
    pub next_free_cells_node_ptr: u64,
    pub cells: [CellRecord; NB_CELL],
    pub ptr: u64,
}

/// Position of the first cell in the bytes of a node record.
pub open spec fn cells_offset() -> int {
    (BTREE_NODE_HEADER_SIZE + NODE_PTR_SIZE + FREE_CELLS_NEXT_NODE_PTR_SIZE) as int
}

/// The bytes of a node record: header, pointer big-endian, next free cells
/// node id big-endian, then the cells.
pub open spec fn bnode_bytes(n: BNodeRecord) -> Seq<u8> {
    seq![n.header] + spec_u64_to_be(n.ptr) + spec_u64_to_be(n.next_free_cells_node_ptr) + cells_bytes(n.cells@)
}

/// `n` holds the fields encoded by the 787 bytes `b`.
pub open spec fn bnode_read_from(n: BNodeRecord, b: Seq<u8>) -> bool {
    &&& n.header == b[0]
    &&& n.ptr == spec_u64_from_be(b.subrange(1, 9))
    &&& n.next_free_cells_node_ptr == spec_u64_from_be(b.subrange(9, 17))
    &&& forall|i: int|
        0 <= i < NB_CELL ==> cell_read_from(
            #[trigger] n.cells[i],
            b.subrange(cells_offset() + 77 * i, cells_offset() + 77 * i + 77),
        )
}

/// A node record read back from the bytes of a node record is that record;
/// the bytes of a node record read from 787 bytes are those bytes.
pub proof fn lemma_bnode_roundtrip(n: BNodeRecord, back: BNodeRecord, b: Seq<u8>)
    ensures
        bnode_bytes(n).len() == BTREE_NODE_RECORD_SIZE,
        bnode_read_from(back, bnode_bytes(n)) ==> back == n,
        b.len() == BTREE_NODE_RECORD_SIZE && bnode_read_from(n, b) ==> bnode_bytes(n) == b,
{
    let e = bnode_bytes(n);
    lemma_cells_bytes(n.cells@);
    let cb = cells_bytes(n.cells@);
    assert(e.subrange(1, 9) =~= spec_u64_to_be(n.ptr));
    assert(e.subrange(9, 17) =~= spec_u64_to_be(n.next_free_cells_node_ptr));
    assert(e.subrange(17, BTREE_NODE_RECORD_SIZE as int) =~= cb);
    lemma_u64_be_value_roundtrip(n.ptr);
    lemma_u64_be_value_roundtrip(n.next_free_cells_node_ptr);
    if bnode_read_from(back, e) {
        assert forall|i: int| 0 <= i < NB_CELL implies back.cells[i] == n.cells[i] by {
            assert(e.subrange(17 + 77 * i, 17 + 77 * i + 77) =~= cb.subrange(
                77 * i,
                77 * i + 77,
            ));
            assert(n.cells@[i] == n.cells[i]);
            lemma_cell_roundtrip(n.cells[i], back.cells[i], seq![]);
        }
        assert(back.cells =~= n.cells);
    }
    if b.len() == BTREE_NODE_RECORD_SIZE && bnode_read_from(n, b) {
        lemma_u64_be_bytes_roundtrip(b.subrange(1, 9));
        lemma_u64_be_bytes_roundtrip(b.subrange(9, 17));
        let bc = b.subrange(17, BTREE_NODE_RECORD_SIZE as int);
        assert forall|i: int| 0 <= i < n.cells@.len() implies bc.subrange(77 * i, 77 * i + 77)
            == cell_bytes(#[trigger] n.cells@[i]) by {
            assert(bc.subrange(77 * i, 77 * i + 77) =~= b.subrange(
                17 + 77 * i,
                17 + 77 * i + 77,
            ));
            lemma_cell_roundtrip(n.cells[i], n.cells[i], bc.subrange(77 * i, 77 * i + 77));
        }
        lemma_cells_bytes_from_parts(n.cells@, bc);
        assert(bnode_bytes(n) =~= b);
    }
}

#[verifier::external_type_specification]
#[verifier::external_body]
pub struct ExFromUtf8Error(std::string::FromUtf8Error);

/// Calls `String::from_utf8`: the bytes give a string exactly when they are
/// valid UTF-8, and the string holds the characters they encode.
#[verifier::external_body]
pub(crate) fn string_from_utf8(bytes: Vec<u8>) -> (r: Result<String, std::string::FromUtf8Error>)
    ensures
        r is Ok <==> valid_utf8(bytes@),
        r matches Ok(s) ==> s@ == decode_utf8(bytes@),
{
    String::from_utf8(bytes)
}

impl BNodeRecord {
    /// The key chunk of the cell `n`, read as UTF-8 text.
    pub fn get_key_value(&self, n: usize) -> (r: String)
        requires
            n < NB_CELL,
            valid_utf8(self.cells[n as int].key@),
        ensures
            r@ == decode_utf8(self.cells[n as int].key@),
    {
        let bytes = vstd::slice::slice_to_vec(self.cells[n].key.as_slice());
        string_from_utf8(bytes).unwrap()
    }

    pub fn get_ptr_value(&self, n: usize) -> (r: u64)
        requires
            n < NB_CELL,
        ensures
            r == self.cells[n as int].node_ptr,
    {
        self.cells[n].node_ptr
    }

    pub fn to_bytes(self) -> (r: [u8; BTREE_NODE_RECORD_SIZE])
        ensures
            r@ == bnode_bytes(self),
    {
        let mut bytes = [0u8; BTREE_NODE_RECORD_SIZE];
        let mut index: usize = 0;
        bytes[index] = self.header;
        index += BTREE_NODE_HEADER_SIZE;
        write_at(&mut bytes, index, &u64_to_bytes(self.ptr));
        index += NODE_PTR_SIZE;
        write_at(&mut bytes, index, &u64_to_bytes(self.next_free_cells_node_ptr));
        index += FREE_CELLS_NEXT_NODE_PTR_SIZE;
        let ghost head = seq![self.header] + spec_u64_to_be(self.ptr) + spec_u64_to_be(self.next_free_cells_node_ptr);
        assert(bytes@.subrange(0, 17) =~= head);
        let mut cell_id: usize = 0;
        while cell_id < NB_CELL
            invariant
                cell_id <= NB_CELL,
                index == 17 + 77 * cell_id,
                bytes@.len() == BTREE_NODE_RECORD_SIZE,
                bytes@.subrange(0, 17) == head,
                bytes@.subrange(17, index as int) == cells_bytes(self.cells@.subrange(0, cell_id as int)),
            decreases NB_CELL - cell_id,
        {
            let ghost before = bytes@;
            let cb = self.cells[cell_id].to_bytes();
            write_at(&mut bytes, index, &cb);
            proof {
                let s = self.cells@.subrange(0, cell_id + 1);
                assert(s.drop_last() =~= self.cells@.subrange(0, cell_id as int));
                assert(s.last() == self.cells[cell_id as int]);
                assert(bytes@.subrange(0, 17) =~= before.subrange(0, 17));
                assert(bytes@.subrange(17, index + CELL_SIZE) =~= before.subrange(17, index as int) + cb@);
            }
            index += CELL_SIZE;
            cell_id += 1;
        }
        proof {
            assert(self.cells@.subrange(0, NB_CELL as int) =~= self.cells@);
            assert(bytes@ =~= bytes@.subrange(0, 17) + bytes@.subrange(17, index as int));
        }
        bytes
    }

    pub fn from_bytes(bytes: &[u8; BTREE_NODE_RECORD_SIZE]) -> (r: Self)
        ensures
            bnode_read_from(r, bytes@),
    {
        let mut index: usize = 0;
        let header = bytes[index];
        index += BTREE_NODE_HEADER_SIZE;
        let ptr = u64_from_bytes_at(bytes, index);
        index += NODE_PTR_SIZE;
        let next_free_cells_node_ptr = u64_from_bytes_at(bytes, index);
        index += FREE_CELLS_NEXT_NODE_PTR_SIZE;
        let mut cells = [CellRecord::new(); NB_CELL];
        let mut cell_id: usize = 0;
        while cell_id < NB_CELL
            invariant
                cell_id <= NB_CELL,
                index == 17,
                forall|i: int|
                    0 <= i < cell_id ==> cell_read_from(
                        #[trigger] cells[i],
                        bytes@.subrange(cells_offset() + 77 * i, cells_offset() + 77 * i + 77),
                    ),
            decreases NB_CELL - cell_id,
        {
            assert(cell_id * CELL_SIZE <= 9 * 77) by (nonlinear_arith)
                requires
                    cell_id < 10,
                    CELL_SIZE == 77,
            ;
            let offset = index + cell_id * CELL_SIZE;
            let part = vstd::slice::slice_subrange(bytes.as_slice(), offset, offset + CELL_SIZE);
            cells[cell_id] = CellRecord::from_bytes(part);
            cell_id += 1;
        }
        BNodeRecord { header, next_free_cells_node_ptr, cells, ptr }
    }

    pub fn is_leaf(&self) -> (r: bool)
        ensures
            r == has_flag(self.header, IS_LEAF_NODE_FLAG),
    {
        (self.header & IS_LEAF_NODE_FLAG) > 0
    }

    pub fn set_leaf(&mut self)
        ensures
            *final(self) == (BNodeRecord { header: old(self).header | IS_LEAF_NODE_FLAG, ..*old(self) }),
    {
        self.header |= IS_LEAF_NODE_FLAG;
    }

    pub fn is_root(&self) -> (r: bool)
        ensures
            r == has_flag(self.header, IS_ROOT_NODE_FLAG),
    {
        (self.header & IS_ROOT_NODE_FLAG) > 0
    }

    pub fn set_root(&mut self)
        ensures
            *final(self) == (BNodeRecord { header: old(self).header | IS_ROOT_NODE_FLAG, ..*old(self) }),
    {
        self.header |= IS_ROOT_NODE_FLAG;
    }

    pub fn set_is_not_root(&mut self)
        ensures
            *final(self) == (BNodeRecord { header: old(self).header & !IS_ROOT_NODE_FLAG, ..*old(self) }),
    {
        self.header &= !IS_ROOT_NODE_FLAG;
    }

    pub fn is_overflow_node(&self) -> (r: bool)
        ensures
            r == has_flag(self.header, IS_OVERFLOW_NODE_FLAG),
    {
        (self.header & IS_OVERFLOW_NODE_FLAG) > 0
    }

    pub fn set_overflow_node(&mut self)
        ensures
            *final(self) == (BNodeRecord { header: old(self).header | IS_OVERFLOW_NODE_FLAG, ..*old(self) }),
    {
        self.header |= IS_OVERFLOW_NODE_FLAG;
    }

    pub fn has_next_node(&self) -> (r: bool)
        ensures
            r == has_flag(self.header, HAS_NEXT_NODE_FLAG),
    {
        (self.header & HAS_NEXT_NODE_FLAG) > 0
    }

    pub fn set_has_next_node(&mut self)
        ensures
            *final(self) == (BNodeRecord { header: old(self).header | HAS_NEXT_NODE_FLAG, ..*old(self) }),
    {
        self.header |= HAS_NEXT_NODE_FLAG;
    }

    pub fn new() -> (r: Self)
        ensures
            r.header == 0,
            r.next_free_cells_node_ptr == 0,
            r.ptr == 0,
            forall|i: int|
                0 <= i < NB_CELL ==> (#[trigger] r.cells[i]).header == 0 && r.cells[i].node_ptr == 0
                    && r.cells[i].overflow_cell_ptr == 0,
    {
        BNodeRecord { header: 0, next_free_cells_node_ptr: 0, cells: [CellRecord::new(); NB_CELL], ptr: 0 }
    }

    /// Whether every cell of the node is active.
    pub fn is_full(&self) -> (r: bool)
        ensures
            r == forall|i: int| 0 <= i < NB_CELL ==> has_flag(#[trigger] self.cells[i].header, IS_ACTIVE_CELL_FLAG),
    {
        let mut is_full = true;
        let mut cell_id: usize = 0;
        while cell_id < NB_CELL
            invariant_except_break
                is_full,
                forall|i: int| 0 <= i < cell_id ==> has_flag(#[trigger] self.cells[i].header, IS_ACTIVE_CELL_FLAG),
            invariant
                cell_id <= NB_CELL,
            ensures
                is_full == forall|i: int| 0 <= i < NB_CELL ==> has_flag(#[trigger] self.cells[i].header, IS_ACTIVE_CELL_FLAG),
            decreases NB_CELL - cell_id,
        {
            if !self.cells[cell_id].is_active() {
                is_full = false;
                break;
            }
            cell_id += 1;
        }
        is_full
    }
}

} // verus!
