use vstd::prelude::*;
use vstd::utf8::{encode_utf8, encode_utf8_decode_utf8};
use crate::repository::index::model::{
    BTreeNode, BTreeNodeView, Cell, CellView, CellChangeStateView, CellChangeLogView, NodeChangeStateView, active_keys,
    cell_views, fresh_state,
};
use crate::buf_config::NB_CELL;
use crate::repository::index::store::BTreeNodePool;

verus! {

/// `a` comes strictly before `b` in byte-wise lexicographic order.
pub open spec fn bytes_lt(a: Seq<u8>, b: Seq<u8>) -> bool
    decreases a.len(),
{
    if a.len() == 0 {
        b.len() > 0
    } else if b.len() == 0 {
        false
    } else if a[0] != b[0] {
        a[0] < b[0]
    } else {
        bytes_lt(a.drop_first(), b.drop_first())
    }
}

/// The order of keys: that of `str`, byte-wise on their UTF-8 encodings.
pub open spec fn key_lt(a: Seq<char>, b: Seq<char>) -> bool {
    bytes_lt(encode_utf8(a), encode_utf8(b))
}

/// The keys are in strictly increasing order.
pub open spec fn keys_sorted(keys: Seq<Seq<char>>) -> bool {
    forall|i: int, j: int| 0 <= i < j < keys.len() ==> key_lt(#[trigger] keys[i], #[trigger] keys[j])
}

/// `i` is where `value` goes among `keys`: after the keys before it, before
/// the others.
pub open spec fn insertion_point(keys: Seq<Seq<char>>, value: Seq<char>, i: int) -> bool {
    &&& 0 <= i <= keys.len()
    &&& forall|j: int| 0 <= j < i ==> key_lt(#[trigger] keys[j], value)
    &&& forall|j: int| i <= j < keys.len() ==> key_lt(value, #[trigger] keys[j])
}

proof fn lemma_bytes_lt_trans(a: Seq<u8>, b: Seq<u8>, c: Seq<u8>)
    requires
        bytes_lt(a, b),
        bytes_lt(b, c),
    ensures
        bytes_lt(a, c),
    decreases a.len(),
{
    if a.len() > 0 && b.len() > 0 && c.len() > 0 && a[0] == b[0] && b[0] == c[0] {
        lemma_bytes_lt_trans(a.drop_first(), b.drop_first(), c.drop_first());
    }
}

proof fn lemma_bytes_lt_asym(a: Seq<u8>, b: Seq<u8>)
    ensures
        !(bytes_lt(a, b) && bytes_lt(b, a)),
        !bytes_lt(a, a),
    decreases a.len(),
{
    if a.len() > 0 && b.len() > 0 && a[0] == b[0] {
        lemma_bytes_lt_asym(a.drop_first(), b.drop_first());
    }
    if a.len() > 0 {
        lemma_bytes_lt_asym(a.drop_first(), a.drop_first());
    }
}

proof fn lemma_keys_lt_trans(a: Seq<char>, b: Seq<char>, c: Seq<char>)
    requires
        key_lt(a, b),
        key_lt(b, c),
    ensures
        key_lt(a, c),
{
    lemma_bytes_lt_trans(encode_utf8(a), encode_utf8(b), encode_utf8(c));
}

/// Compares two byte strings in lexicographic order: negative when `a`
/// comes first, zero when they are equal, positive when `b` comes first.
pub fn compare_bytes(a: &[u8], b: &[u8]) -> (r: i8)
    ensures
        r < 0 <==> bytes_lt(a@, b@),
        r == 0 <==> a@ == b@,
        r > 0 <==> bytes_lt(b@, a@),
{
    let n = a.len();
    let m = b.len();
    let mut i: usize = 0;
    assert(a@.subrange(0, n as int) =~= a@);
    assert(b@.subrange(0, m as int) =~= b@);
    while i < n && i < m && a[i] == b[i]
        invariant
            n == a@.len(),
            m == b@.len(),
            i <= n,
            i <= m,
            a@.subrange(0, i as int) == b@.subrange(0, i as int),
            bytes_lt(a@, b@) == bytes_lt(a@.subrange(i as int, n as int), b@.subrange(i as int, m as int)),
            bytes_lt(b@, a@) == bytes_lt(b@.subrange(i as int, m as int), a@.subrange(i as int, n as int)),
        decreases n - i,
    {
        assert(a@.subrange(i as int, n as int).drop_first() =~= a@.subrange(i + 1, n as int));
        assert(b@.subrange(i as int, m as int).drop_first() =~= b@.subrange(i + 1, m as int));
        assert(a@.subrange(0, i + 1) =~= a@.subrange(0, i as int).push(a@[i as int]));
        assert(b@.subrange(0, i + 1) =~= b@.subrange(0, i as int).push(b@[i as int]));
        i = i + 1;
    }
    proof {
        lemma_bytes_lt_asym(a@, b@);
        if i == n && i == m {
            assert(a@ =~= a@.subrange(0, i as int));
            assert(b@ =~= b@.subrange(0, i as int));
        }
        if i < n && i < m {
            assert(a@.subrange(i as int, n as int)[0] == a@[i as int]);
            assert(b@.subrange(i as int, m as int)[0] == b@[i as int]);
            assert(a@[i as int] != b@[i as int]);
            assert(a@ != b@);
        }
        if i == n && i < m {
            assert(a@.len() != b@.len());
        }
        if i < n && i == m {
            assert(a@.len() != b@.len());
        }
    }
    if i < n && i < m {
        if a[i] < b[i] {
            -1
        } else {
            1
        }
    } else if i < m {
        -1
    } else if i < n {
        1
    } else {
        0
    }
}

/// Looks `value` up among `keys` by halving: `Ok` with the index of a key
/// equal to it, else `Err` with where it goes; on keys in increasing order
/// the answer is exact.
pub fn binary_search_keys(keys: &[&str], value: &str) -> (r: Result<usize, usize>)
    ensures
        r matches Ok(i) ==> i < keys@.len() && keys@[i as int]@ == value@,
        r matches Err(i) ==> i <= keys@.len(),
        keys_sorted(keys@.map_values(|k: &str| k@)) ==> (r matches Err(i) ==> insertion_point(
            keys@.map_values(|k: &str| k@),
            value@,
            i as int,
        )),
{
    let ghost ks = keys@.map_values(|k: &str| k@);
    let mut lo: usize = 0;
    let mut hi: usize = keys.len();
    while lo < hi
        invariant
            ks == keys@.map_values(|k: &str| k@),
            lo <= hi <= keys@.len(),
            keys_sorted(ks) ==> forall|j: int| 0 <= j < lo ==> key_lt(#[trigger] ks[j], value@),
            keys_sorted(ks) ==> forall|j: int| hi <= j < ks.len() ==> key_lt(value@, #[trigger] ks[j]),
        decreases hi - lo,
    {
        let mid = lo + (hi - lo) / 2;
        let c = compare_bytes(keys[mid].as_bytes(), value.as_bytes());
        proof {
            assert(ks[mid as int] == keys@[mid as int]@);
        }
        if c == 0 {
            proof {
                encode_utf8_decode_utf8(keys@[mid as int]@);
                encode_utf8_decode_utf8(value@);
            }
            return Ok(mid);
        } else if c < 0 {
            proof {
                if keys_sorted(ks) {
                    assert forall|j: int| 0 <= j < mid + 1 implies key_lt(#[trigger] ks[j], value@) by {
                        if j < mid {
                            assert(key_lt(ks[j], ks[mid as int]));
                            lemma_keys_lt_trans(ks[j], ks[mid as int], value@);
                        }
                    }
                }
            }
            lo = mid + 1;
        } else {
            proof {
                if keys_sorted(ks) {
                    assert forall|j: int| mid <= j < ks.len() implies key_lt(value@, #[trigger] ks[j]) by {
                        if j > mid {
                            assert(key_lt(ks[mid as int], ks[j]));
                            lemma_keys_lt_trans(value@, ks[mid as int], ks[j]);
                        }
                    }
                }
            }
            hi = mid;
        }
    }
    Err(lo)
}

/// The child to follow for a key that goes at `i` among a node's cells:
/// the node's own pointer before the first cell, else the pointer of the
/// cell just before.
pub open spec fn child_before(node: BTreeNodeView, i: int) -> Option<u64> {
    if i == 0 {
        node.node_ptr
    } else {
        node.cells[i - 1].node_ptr
    }
}

/// The child to follow for a key that goes at `not_found_index` among the
/// cells of `node`.
pub fn get_node_ptr(not_found_index: usize, node: &BTreeNode) -> (r: Option<u64>)
    requires
        not_found_index <= node@.cells.len(),
    ensures
        r == child_before(node@, not_found_index as int),
{
    let mut node_ptr = node.get_node_ptr();
    if not_found_index != 0 {
        node_ptr = match node.get_cell_ref(not_found_index - 1).get_node_ptr() {
            Some(p) => Some(p),
            None => {
                return None;
            },
        };
    }
    node_ptr
}

/// What looking a key up in one node of the tree gives: the data pointers
/// of the leaf cell holding it, the child node to look in next, or nothing.
pub enum SearchStep {
    Found(Vec<u64>),
    Descend(u64),
    Missing,
}

/// Going on to the child `ptr` when there is one, else stopping.
pub open spec fn step_to(ptr: Option<u64>) -> SearchStep {
    match ptr {
        Some(c) => SearchStep::Descend(c),
        None => SearchStep::Missing,
    }
}

proof fn lemma_active_keys_len(cells: Seq<crate::repository::index::model::CellView>)
    ensures
        active_keys(cells).len() <= cells.len(),
    decreases cells.len(),
{
    if cells.len() > 0 {
        lemma_active_keys_len(cells.drop_last());
    }
}

proof fn lemma_sorted_positions(keys: Seq<Seq<char>>, value: Seq<char>)
    requires
        keys_sorted(keys),
    ensures
        forall|i: int, j: int|
            0 <= i < keys.len() && 0 <= j < keys.len() && keys[i] == value && keys[j] == value ==> i == j,
        forall|i: int, j: int| insertion_point(keys, value, i) && insertion_point(keys, value, j) ==> i == j,
        forall|i: int, j: int| insertion_point(keys, value, i) && 0 <= j < keys.len() ==> keys[j] != value,
{
    assert forall|i: int, j: int|
        0 <= i < keys.len() && 0 <= j < keys.len() && keys[i] == value && keys[j] == value implies i == j by {
        lemma_bytes_lt_asym(encode_utf8(value), encode_utf8(value));
        if i < j {
            assert(key_lt(keys[i], keys[j]));
        }
        if j < i {
            assert(key_lt(keys[j], keys[i]));
        }
    }
    assert forall|i: int, j: int| insertion_point(keys, value, i) && insertion_point(keys, value, j) implies i == j by {
        if i < j {
            assert(key_lt(keys[i], value));
            assert(key_lt(value, keys[i]));
            lemma_bytes_lt_asym(encode_utf8(keys[i]), encode_utf8(value));
        }
        if j < i {
            assert(key_lt(keys[j], value));
            assert(key_lt(value, keys[j]));
            lemma_bytes_lt_asym(encode_utf8(keys[j]), encode_utf8(value));
        }
    }
    assert forall|i: int, j: int| insertion_point(keys, value, i) && 0 <= j < keys.len() implies keys[j] != value by {
        lemma_bytes_lt_asym(encode_utf8(value), encode_utf8(value));
        if j < i {
            assert(key_lt(keys[j], value));
        } else {
            assert(key_lt(value, keys[j]));
        }
    }
}

/// One step of a lookup of `value` in a node: in a leaf, the data pointers
/// of the cell holding the key, or nothing; in an interior node, the child
/// to look in next: the pointer of the cell holding the key, else the child
/// before where the key goes. Exact on nodes whose keys are in increasing
/// order.
pub fn search_step(node: &BTreeNode, value: &str) -> (r: SearchStep)
    ensures
        ({
            let keys = active_keys(node@.cells);
            keys_sorted(keys) ==> {
                &&& forall|i: int|
                    0 <= i < keys.len() && #[trigger] keys[i] == value@ ==> {
                        &&& node@.is_leaf ==> (r matches SearchStep::Found(p) && p@ == node@.cells[i].data_ptrs)
                        &&& !node@.is_leaf ==> r == step_to(node@.cells[i].node_ptr)
                    }
                &&& forall|i: int|
                    #[trigger] insertion_point(keys, value@, i) ==> {
                        &&& node@.is_leaf ==> r is Missing
                        &&& !node@.is_leaf ==> r == step_to(child_before(node@, i))
                    }
            }
        }),
{
    let keys = node.get_keys();
    let ghost ks = active_keys(node@.cells);
    proof {
        lemma_active_keys_len(node@.cells);
        assert(keys@.map_values(|k: &str| k@).len() == keys@.len());
        if keys_sorted(ks) {
            lemma_sorted_positions(ks, value@);
        }
    }
    let res = binary_search_keys(keys.as_slice(), value);
    match res {
        Ok(found) => {
            proof {
                assert(ks[found as int] == keys@[found as int]@);
                if keys_sorted(ks) {
                    assert forall|i: int| #[trigger] insertion_point(ks, value@, i) implies false by {
                        assert(ks[found as int] != value@);
                    }
                }
            }
            let cell = node.get_cell_ref(found);
            if node.is_leaf() {
                SearchStep::Found(cell.get_data_ptrs_ref().clone())
            } else {
                match cell.get_node_ptr() {
                    Some(child) => SearchStep::Descend(child),
                    None => SearchStep::Missing,
                }
            }
        },
        Err(not_found) => {
            if node.is_leaf() {
                SearchStep::Missing
            } else {
                match get_node_ptr(not_found, node) {
                    Some(child) => SearchStep::Descend(child),
                    None => SearchStep::Missing,
                }
            }
        },
    }
}

/// The cell as a node holds it once inserted: marked as added.
pub open spec fn marked_added(c: CellView) -> CellView {
    CellView { change_state: CellChangeStateView { is_added: true, ..c.change_state }, ..c }
}

/// The cell as taken off a node: marked as removed.
pub open spec fn marked_removed(c: CellView) -> CellView {
    CellView { change_state: CellChangeStateView { is_removed: true, ..c.change_state }, ..c }
}

/// The cells, each marked as removed.
pub open spec fn removed_cells(s: Seq<CellView>) -> Seq<CellView> {
    s.map_values(|c: CellView| marked_removed(c))
}

/// The removals a node logs when its cells from `split` on are taken off
/// its end one by one, the last one first, `len` being its number of cells.
pub open spec fn pop_log(len: int, split: int) -> Seq<CellChangeLogView> {
    Seq::new((len - split) as nat, |k: int| CellChangeLogView { is_add: false, is_remove: true, index: (len - 1 - k) as usize })
}

/// The cells of `node` once `cell` is inserted at `index`.
pub open spec fn cells_with(node: BTreeNodeView, index: int, cell: CellView) -> Seq<CellView> {
    node.cells.insert(index, marked_added(cell))
}

/// Inserts `cell` at `index` in `node`, then takes off the node its upper
/// half (the cells from half its new number of cells on, rounded down) and
/// answers them in order, each marked as removed; the node logs the
/// insertion then each removal.
pub fn split_node_cells(node: &mut BTreeNode, index: usize, cell: Cell) -> (r: Vec<Cell>)
    requires
        index <= old(node)@.cells.len(),
    ensures
        ({
            let cells = cells_with(old(node)@, index as int, cell@);
            let split = cells.len() / 2;
            &&& final(node)@ == (BTreeNodeView {
                cells: cells.take(split as int),
                change_state: NodeChangeStateView {
                    log: old(node)@.change_state.log.push(CellChangeLogView { is_add: true, is_remove: false, index })
                        + pop_log(cells.len() as int, split as int),
                    ..old(node)@.change_state
                },
                ..old(node)@
            })
            &&& cell_views(r@) == removed_cells(cells.skip(split as int))
        }),
{
    let ghost cv = cell@;
    node.insert_cell(index, cell);
    let ghost after = node@;
    let ghost cells = after.cells;
    let ghost len = cells.len() as int;
    assert(cells == cells_with(old(node)@, index as int, cv));
    let split = node.get_cells_ref().len() / 2;
    let mut popped: Vec<Cell> = Vec::new();
    assert(after.change_state.log + pop_log(len, len) =~= after.change_state.log);
    assert(cells.take(len) =~= cells);
    assert(cell_views(popped@) =~= Seq::new(0, |k: int| marked_removed(cells[len - 1 - k])));
    while node.get_cells_ref().len() > split
        invariant
            cells == after.cells,
            len == cells.len(),
            split == len / 2,
            split <= node@.cells.len() <= len,
            node@ == (BTreeNodeView {
                cells: cells.take(node@.cells.len() as int),
                change_state: NodeChangeStateView {
                    log: after.change_state.log + pop_log(len, node@.cells.len() as int),
                    ..after.change_state
                },
                ..after
            }),
            cell_views(popped@) == Seq::new(
                (len - node@.cells.len()) as nat,
                |k: int| marked_removed(cells[len - 1 - k]),
            ),
        decreases node@.cells.len(),
    {
        let ghost cur = node@.cells.len() as int;
        let ghost before = popped@;
        let c = node.pop_cell().unwrap();
        popped.push(c);
        proof {
            assert(cells.take(cur).drop_last() =~= cells.take(cur - 1));
            assert(cells.take(cur).last() == cells[cur - 1]);
            assert(pop_log(len, cur - 1) =~= pop_log(len, cur).push(
                CellChangeLogView { is_add: false, is_remove: true, index: (cur - 1) as usize },
            ));
            assert(after.change_state.log + pop_log(len, cur - 1) =~= (after.change_state.log + pop_log(len, cur)).push(
                CellChangeLogView { is_add: false, is_remove: true, index: (cur - 1) as usize },
            ));
            assert(cell_views(popped@) =~= cell_views(before).push(c@));
            assert(cell_views(popped@) =~= Seq::new((len - (cur - 1)) as nat, |k: int| marked_removed(cells[len - 1 - k])));
        }
    }
    let ghost m = popped@.len() as int;
    let ghost all_popped = cell_views(popped@);
    assert(m == len - split);
    let mut new_node_cells: Vec<Cell> = Vec::new();
    while popped.len() > 0
        invariant
            m == len - split,
            popped@.len() <= m,
            cell_views(popped@) == all_popped.take(popped@.len() as int),
            all_popped == Seq::new(m as nat, |k: int| marked_removed(cells[len - 1 - k])),
            cell_views(new_node_cells@) == Seq::new(
                (m - popped@.len()) as nat,
                |k: int| marked_removed(cells[split + k]),
            ),
        decreases popped@.len(),
    {
        let ghost t = popped@.len() as int;
        let ghost before = new_node_cells@;
        let ghost pv = popped@;
        let c = popped.pop().unwrap();
        new_node_cells.push(c);
        proof {
            assert(cell_views(pv).last() == c@);
            assert(all_popped.take(t).last() == all_popped[t - 1]);
            assert(cell_views(popped@) =~= cell_views(pv).drop_last());
            assert(cell_views(popped@) =~= all_popped.take(t - 1));
            assert(cell_views(new_node_cells@) =~= cell_views(before).push(c@));
            assert(len - 1 - (t - 1) == split + (m - t));
            assert(cell_views(new_node_cells@) =~= Seq::new((m - (t - 1)) as nat, |k: int| marked_removed(cells[split + k])));
        }
    }
    proof {
        assert(cell_views(new_node_cells@) =~= removed_cells(cells.skip(split as int)));
    }
    new_node_cells
}

/// The cell with `p` added at the end of its data pointers, marked as
/// having its list of pointers changed.
pub open spec fn with_data_ptr(c: CellView, p: u64) -> CellView {
    CellView {
        data_ptrs: c.data_ptrs.push(p),
        change_state: CellChangeStateView { list_data_pointer_changed: true, ..c.change_state },
        ..c
    }
}

/// The node once `c` is inserted at `i`, marked as added, with the
/// insertion logged.
pub open spec fn inserted(node: BTreeNodeView, i: int, c: CellView) -> BTreeNodeView {
    BTreeNodeView {
        cells: node.cells.insert(i, marked_added(c)),
        change_state: NodeChangeStateView {
            log: node.change_state.log.push(CellChangeLogView { is_add: true, is_remove: false, index: i as usize }),
            ..node.change_state
        },
        ..node
    }
}

/// A new leaf cell of key `key` holding the one data pointer `p`.
pub open spec fn new_leaf_view(key: Seq<char>, p: u64) -> CellView {
    CellView { key, node_ptr: None, is_active: true, data_ptrs: seq![p], change_state: fresh_state(true) }
}

/// A new interior cell of key `key` pointing to `ptr`.
pub open spec fn new_ptr_view(key: Seq<char>, ptr: Option<u64>) -> CellView {
    CellView { key, node_ptr: ptr, is_active: true, data_ptrs: seq![], change_state: fresh_state(true) }
}

/// What inserting a key in one node of the tree gives: the node took it,
/// the node is a full leaf to split with the key going at the given place,
/// the child node to insert in next, or nothing.
pub enum InsertStep {
    Done,
    SplitLeaf(usize),
    Descend(u64),
    Missing,
}

/// Going on to the child `ptr` when there is one, else stopping.
pub open spec fn insert_to(ptr: Option<u64>) -> InsertStep {
    match ptr {
        Some(c) => InsertStep::Descend(c),
        None => InsertStep::Missing,
    }
}

/// One step of the insertion of `value` pointing to the record
/// `data_ptr`: in a leaf holding the key, the pointer is added to its cell;
/// in a leaf without it, a new leaf cell is inserted where the key goes, or,
/// when the leaf is full, the leaf is to be split; in an interior node, the
/// child to insert in next, as in `search_step`. Exact on nodes whose keys
/// are in increasing order.
pub fn insert_step(node: &mut BTreeNode, value: &str, data_ptr: u64) -> (r: InsertStep)
    ensures
        ({
            let keys = active_keys(old(node)@.cells);
            let n = old(node)@;
            keys_sorted(keys) ==> {
                &&& forall|i: int|
                    0 <= i < keys.len() && #[trigger] keys[i] == value@ ==> {
                        &&& n.is_leaf ==> r is Done && final(node)@ == (BTreeNodeView {
                            cells: n.cells.update(i, with_data_ptr(n.cells[i], data_ptr)),
                            ..n
                        })
                        &&& !n.is_leaf ==> r == insert_to(n.cells[i].node_ptr) && final(node)@ == n
                    }
                &&& forall|i: int|
                    #[trigger] insertion_point(keys, value@, i) ==> {
                        &&& n.is_leaf && n.cells.len() == NB_CELL ==> r == InsertStep::SplitLeaf(i as usize) && final(node)@ == n
                        &&& n.is_leaf && n.cells.len() != NB_CELL ==> r is Done && final(node)@ == inserted(
                            n,
                            i,
                            new_leaf_view(value@, data_ptr),
                        )
                        &&& !n.is_leaf ==> r == insert_to(child_before(n, i)) && final(node)@ == n
                    }
            }
        }),
{
    let ghost ks = active_keys(node@.cells);
    let res = {
        let keys = node.get_keys();
        proof {
            lemma_active_keys_len(node@.cells);
            assert(keys@.map_values(|k: &str| k@).len() == keys@.len());
            if keys_sorted(ks) {
                lemma_sorted_positions(ks, value@);
            }
        }
        let res = binary_search_keys(keys.as_slice(), value);
        proof {
            match res {
                Ok(found) => {
                    assert(ks[found as int] == keys@[found as int]@);
                },
                Err(_) => {},
            }
        }
        res
    };
    match res {
        Ok(found) => {
            proof {
                if keys_sorted(ks) {
                    assert forall|i: int| #[trigger] insertion_point(ks, value@, i) implies false by {
                        assert(ks[found as int] != value@);
                    }
                }
            }
            if node.is_leaf() {
                node.get_cell_mut(found).append_data_ptr(data_ptr);
                InsertStep::Done
            } else {
                match node.get_cell_ref(found).get_node_ptr() {
                    Some(child) => InsertStep::Descend(child),
                    None => InsertStep::Missing,
                }
            }
        },
        Err(not_found) => {
            if node.is_leaf() {
                if node.is_full() {
                    InsertStep::SplitLeaf(not_found)
                } else {
                    node.insert_cell(not_found, Cell::new_leaf(value, data_ptr));
                    InsertStep::Done
                }
            } else {
                match get_node_ptr(not_found, node) {
                    Some(child) => InsertStep::Descend(child),
                    None => InsertStep::Missing,
                }
            }
        },
    }
}

/// Hooks the node `split_id`, split off a child, into `node`, its parent,
/// under the key `split_key` (the first key of the split-off node): the cell
/// of that key points to it when the node has the key; otherwise a new
/// interior cell is inserted where the key goes, or, when the node is full,
/// `Some` tells where it goes in the node that is to be split. Exact on
/// nodes whose keys are in increasing order.
pub fn attach_split(node: &mut BTreeNode, split_key: &str, split_id: Option<u64>) -> (r: Option<usize>)
    ensures
        ({
            let keys = active_keys(old(node)@.cells);
            let n = old(node)@;
            keys_sorted(keys) ==> {
                &&& forall|i: int|
                    0 <= i < keys.len() && #[trigger] keys[i] == split_key@ ==> r is None && final(node)@ == (BTreeNodeView {
                        cells: n.cells.update(i, CellView { node_ptr: split_id, ..n.cells[i] }),
                        ..n
                    })
                &&& forall|i: int|
                    #[trigger] insertion_point(keys, split_key@, i) ==> {
                        &&& n.cells.len() == NB_CELL ==> r == Some(i as usize) && final(node)@ == n
                        &&& n.cells.len() != NB_CELL ==> r is None && final(node)@ == inserted(
                            n,
                            i,
                            new_ptr_view(split_key@, split_id),
                        )
                    }
            }
        }),
{
    let ghost ks = active_keys(node@.cells);
    let search = {
        let keys = node.get_keys();
        proof {
            lemma_active_keys_len(node@.cells);
            assert(keys@.map_values(|k: &str| k@).len() == keys@.len());
            if keys_sorted(ks) {
                lemma_sorted_positions(ks, split_key@);
            }
        }
        let search = binary_search_keys(keys.as_slice(), split_key);
        proof {
            match search {
                Ok(found) => {
                    assert(ks[found as int] == keys@[found as int]@);
                },
                Err(_) => {},
            }
        }
        search
    };
    match search {
        Ok(found_split) => {
            proof {
                if keys_sorted(ks) {
                    assert forall|i: int| #[trigger] insertion_point(ks, split_key@, i) implies false by {
                        assert(ks[found_split as int] != split_key@);
                    }
                }
            }
            node.get_cell_mut(found_split).set_node_ptr(split_id);
            None
        },
        Err(not_found_split) => {
            if node.is_full() {
                Some(not_found_split)
            } else {
                node.insert_cell(not_found_split, Cell::new_ptr(split_key, split_id));
                None
            }
        },
    }
}

/// Every cell is active.
pub open spec fn all_active(cells: Seq<CellView>) -> bool {
    forall|i: int| 0 <= i < cells.len() ==> (#[trigger] cells[i]).is_active
}

proof fn lemma_active_keys_all(cells: Seq<CellView>)
    requires
        all_active(cells),
    ensures
        active_keys(cells) == cells.map_values(|c: CellView| c.key),
    decreases cells.len(),
{
    if cells.len() > 0 {
        let d = cells.drop_last();
        assert forall|i: int| 0 <= i < d.len() implies (#[trigger] d[i]).is_active by {
            assert(d[i] == cells[i]);
        }
        lemma_active_keys_all(d);
        assert(cells.last() == cells[cells.len() - 1]);
        assert(cells.map_values(|c: CellView| c.key) =~= d.map_values(|c: CellView| c.key).push(cells.last().key));
    } else {
        assert(cells.map_values(|c: CellView| c.key) =~= Seq::<Seq<char>>::empty());
    }
}

/// Inserting a leaf cell in a node whose cells are all active and whose keys
/// are in increasing order, where its key goes, keeps the keys in
/// increasing order, and the key is then at that place, with its pointer;
/// adding a pointer to the cell of a key keeps the keys and gives the cell
/// its old pointers followed by the new one. So a lookup after an insertion
/// into a leaf finds the pointer inserted.
pub proof fn lemma_leaf_insert_then_search(n: BTreeNodeView, v: Seq<char>, p: u64, i: int)
    requires
        all_active(n.cells),
        keys_sorted(active_keys(n.cells)),
    ensures
        insertion_point(active_keys(n.cells), v, i) ==> {
            let n2 = inserted(n, i, new_leaf_view(v, p));
            &&& all_active(n2.cells)
            &&& keys_sorted(active_keys(n2.cells))
            &&& active_keys(n2.cells) == active_keys(n.cells).insert(i, v)
            &&& active_keys(n2.cells)[i] == v
            &&& n2.cells[i].data_ptrs == seq![p]
        },
        0 <= i < active_keys(n.cells).len() && active_keys(n.cells)[i] == v ==> {
            let n2 = BTreeNodeView { cells: n.cells.update(i, with_data_ptr(n.cells[i], p)), ..n };
            &&& all_active(n2.cells)
            &&& active_keys(n2.cells) == active_keys(n.cells)
            &&& n2.cells[i].data_ptrs == n.cells[i].data_ptrs.push(p)
        },
{
    let keys = active_keys(n.cells);
    lemma_active_keys_all(n.cells);
    if insertion_point(keys, v, i) {
        let n2 = inserted(n, i, new_leaf_view(v, p));
        let c2 = n2.cells;
        assert forall|j: int| 0 <= j < c2.len() implies (#[trigger] c2[j]).is_active by {
            if j < i {
                assert(c2[j] == n.cells[j]);
            } else if j > i {
                assert(c2[j] == n.cells[j - 1]);
            }
        }
        lemma_active_keys_all(c2);
        let k2 = active_keys(c2);
        assert(k2 =~= keys.insert(i, v));
        assert forall|a: int, b: int| 0 <= a < b < k2.len() implies key_lt(#[trigger] k2[a], #[trigger] k2[b]) by {
            if b < i {
                assert(k2[a] == keys[a] && k2[b] == keys[b]);
            } else if b == i {
                assert(k2[a] == keys[a]);
            } else if a < i {
                assert(k2[a] == keys[a] && k2[b] == keys[b - 1]);
                lemma_keys_lt_trans(keys[a], v, keys[b - 1]);
            } else if a == i {
                assert(k2[b] == keys[b - 1]);
            } else {
                assert(k2[a] == keys[a - 1] && k2[b] == keys[b - 1]);
            }
        }
    }
    if 0 <= i < keys.len() && keys[i] == v {
        let c2 = n.cells.update(i, with_data_ptr(n.cells[i], p));
        assert forall|j: int| 0 <= j < c2.len() implies (#[trigger] c2[j]).is_active by {
            if j != i {
                assert(c2[j] == n.cells[j]);
            }
        }
        lemma_active_keys_all(c2);
        assert(c2.map_values(|c: CellView| c.key) =~= n.cells.map_values(|c: CellView| c.key));
    }
}

/// What dropping a key from one node of the tree gives: the key's leaf
/// cell was marked removed, the key is not in the leaf, or the child to drop
/// it from next, with the place of the key in the node (held there when
/// `found`, else where it would go) and the child's pointer.
pub enum DropStep {
    Removed,
    Absent,
    Descend { index: usize, found: bool, child: Option<u64> },
}

/// One step of dropping `value`: in a leaf holding the key, its cell is
/// marked removed and the removal logged; in a leaf without it, nothing
/// changes; in an interior node, the child to drop it from next: the
/// pointer of the cell holding the key, else the child before where the key
/// goes. Exact on nodes whose keys are in increasing order.
pub fn drop_step(node: &mut BTreeNode, value: &str) -> (r: DropStep)
    ensures
        ({
            let keys = active_keys(old(node)@.cells);
            let n = old(node)@;
            keys_sorted(keys) ==> {
                &&& forall|i: int|
                    0 <= i < keys.len() && #[trigger] keys[i] == value@ ==> {
                        &&& n.is_leaf ==> r is Removed && final(node)@ == (BTreeNodeView {
                            cells: n.cells.update(i, marked_removed(n.cells[i])),
                            change_state: NodeChangeStateView {
                                log: n.change_state.log.push(CellChangeLogView { is_add: false, is_remove: true, index: i as usize }),
                                ..n.change_state
                            },
                            ..n
                        })
                        &&& !n.is_leaf ==> r == (DropStep::Descend { index: i as usize, found: true, child: n.cells[i].node_ptr })
                            && final(node)@ == n
                    }
                &&& forall|i: int|
                    #[trigger] insertion_point(keys, value@, i) ==> final(node)@ == n && (n.is_leaf ==> r is Absent) && (
                    !n.is_leaf ==> r == (DropStep::Descend { index: i as usize, found: false, child: child_before(n, i) }))
            }
        }),
{
    let ghost ks = active_keys(node@.cells);
    let search = {
        let keys = node.get_keys();
        proof {
            lemma_active_keys_len(node@.cells);
            assert(keys@.map_values(|k: &str| k@).len() == keys@.len());
            if keys_sorted(ks) {
                lemma_sorted_positions(ks, value@);
            }
        }
        let search = binary_search_keys(keys.as_slice(), value);
        proof {
            match search {
                Ok(found) => {
                    assert(ks[found as int] == keys@[found as int]@);
                },
                Err(_) => {},
            }
        }
        search
    };
    match search {
        Ok(found) => {
            proof {
                if keys_sorted(ks) {
                    assert forall|i: int| #[trigger] insertion_point(ks, value@, i) implies false by {
                        assert(ks[found as int] != value@);
                    }
                }
            }
            if node.is_leaf() {
                node.remove_cell(found);
                DropStep::Removed
            } else {
                DropStep::Descend { index: found, found: true, child: node.get_cell_ref(found).get_node_ptr() }
            }
        },
        Err(not_found) => {
            if node.is_leaf() {
                DropStep::Absent
            } else {
                DropStep::Descend { index: not_found, found: false, child: get_node_ptr(not_found, node) }
            }
        },
    }
}

/// The sibling to merge a child into once a key is dropped from it: for a
/// key held at `index`, the child before that place; for a key that would
/// go at `index`, the child before the one followed, if there is one.
pub fn merge_sibling(node: &BTreeNode, index: usize, found: bool) -> (r: Option<u64>)
    requires
        found ==> index < node@.cells.len(),
        !found ==> index <= node@.cells.len(),
    ensures
        r == if found {
            child_before(node@, index as int)
        } else if index >= 1 {
            child_before(node@, index - 1)
        } else {
            None
        },
{
    if found {
        if index > 0 {
            node.get_cell_ref(index - 1).get_node_ptr()
        } else {
            node.get_node_ptr()
        }
    } else if index > 1 {
        node.get_cell_ref(index - 2).get_node_ptr()
    } else if index == 1 {
        node.get_node_ptr()
    } else {
        None
    }
}

proof fn lemma_bytes_lt_total(a: Seq<u8>, b: Seq<u8>)
    requires
        a != b,
    ensures
        bytes_lt(a, b) || bytes_lt(b, a),
    decreases a.len(),
{
    if a.len() > 0 && b.len() > 0 && a[0] == b[0] {
        if a.drop_first() == b.drop_first() {
            assert(a =~= seq![a[0]] + a.drop_first());
            assert(b =~= seq![b[0]] + b.drop_first());
        }
        lemma_bytes_lt_total(a.drop_first(), b.drop_first());
    } else if a.len() == 0 && b.len() == 0 {
        assert(a =~= b);
    }
}

/// The keys hold `value`.
pub open spec fn has_key(keys: Seq<Seq<char>>, value: Seq<char>) -> bool {
    exists|i: int| 0 <= i < keys.len() && keys[i] == value
}

/// Keys in increasing order that do not hold `value` have a place for it.
proof fn lemma_insertion_exists(keys: Seq<Seq<char>>, value: Seq<char>)
    requires
        keys_sorted(keys),
        !has_key(keys, value),
    ensures
        exists|i: int| insertion_point(keys, value, i),
    decreases keys.len(),
{
    if keys.len() == 0 {
        assert(insertion_point(keys, value, 0));
    } else {
        let ks = keys.drop_last();
        let k = keys.last();
        assert forall|i: int, j: int| 0 <= i < j < ks.len() implies key_lt(#[trigger] ks[i], #[trigger] ks[j]) by {
            assert(key_lt(keys[i], keys[j]));
        }
        assert(!has_key(ks, value)) by {
            if has_key(ks, value) {
                let i = choose|i: int| 0 <= i < ks.len() && ks[i] == value;
                assert(keys[i] == value);
            }
        }
        lemma_insertion_exists(ks, value);
        let i0 = choose|i: int| insertion_point(ks, value, i);
        assert(keys[keys.len() - 1] == k);
        assert(k != value);
        encode_utf8_decode_utf8(k);
        encode_utf8_decode_utf8(value);
        lemma_bytes_lt_total(encode_utf8(k), encode_utf8(value));
        assert(encode_utf8(k) != encode_utf8(value));
        if key_lt(k, value) {
            if i0 < ks.len() {
                assert(key_lt(value, ks[i0]));
                assert(key_lt(keys[i0], keys[keys.len() - 1]));
                lemma_keys_lt_trans(value, ks[i0], k);
                lemma_bytes_lt_asym(encode_utf8(k), encode_utf8(value));
            }
            assert forall|j: int| 0 <= j < keys.len() implies key_lt(#[trigger] keys[j], value) by {
                if j < ks.len() {
                    assert(keys[j] == ks[j]);
                }
            }
            assert(insertion_point(keys, value, keys.len() as int));
        } else {
            assert(key_lt(value, k));
            assert forall|j: int| 0 <= j < i0 implies key_lt(#[trigger] keys[j], value) by {
                assert(keys[j] == ks[j]);
            }
            assert forall|j: int| i0 <= j < keys.len() implies key_lt(value, #[trigger] keys[j]) by {
                if j < ks.len() {
                    assert(keys[j] == ks[j]);
                }
            }
            assert(insertion_point(keys, value, i0));
        }
    }
}

/// What looking a key up in one node gives, as `search_step` answers it on a
/// node whose keys are in increasing order: the data pointers of the leaf
/// cell holding the key, the child to look in next, or nothing.
pub enum StepView {
    Found(Seq<u64>),
    Descend(u64),
    Missing,
}

/// Going on to the child `ptr` when there is one, else stopping.
pub open spec fn view_to(ptr: Option<u64>) -> StepView {
    match ptr {
        Some(c) => StepView::Descend(c),
        None => StepView::Missing,
    }
}

/// Where `value` stands among `keys`, when they hold it.
pub open spec fn key_index(keys: Seq<Seq<char>>, value: Seq<char>) -> int {
    choose|i: int| 0 <= i < keys.len() && keys[i] == value
}

/// Where `value` goes among `keys`, when they do not hold it.
pub open spec fn insertion_index(keys: Seq<Seq<char>>, value: Seq<char>) -> int {
    choose|i: int| insertion_point(keys, value, i)
}

/// The step of a lookup of `value` in the node `n`.
pub open spec fn spec_step(n: BTreeNodeView, value: Seq<char>) -> StepView {
    let keys = active_keys(n.cells);
    if has_key(keys, value) {
        if n.is_leaf {
            StepView::Found(n.cells[key_index(keys, value)].data_ptrs)
        } else {
            view_to(n.cells[key_index(keys, value)].node_ptr)
        }
    } else {
        if n.is_leaf {
            StepView::Missing
        } else {
            view_to(child_before(n, insertion_index(keys, value)))
        }
    }
}

/// The node `n` points to `c`, by its own pointer or by one of its cells.
pub open spec fn points_to(n: BTreeNodeView, c: u64) -> bool {
    n.node_ptr == Some(c) || exists|i: int| 0 <= i < n.cells.len() && n.cells[i].node_ptr == Some(c)
}

/// The node the pool keeps under `id`.
pub open spec fn pool_node(pool: BTreeNodePool, id: u64) -> BTreeNodeView {
    pool.spec_nodes()[pool.spec_map()[id] as int]@
}

/// `rank` decreases from every node of the pool to every node of the pool
/// it points to: the pointers between kept nodes form no cycle.
pub open spec fn ranked(pool: BTreeNodePool, rank: spec_fn(u64) -> nat) -> bool {
    forall|id: u64, c: u64|
        pool.spec_map().contains_key(id) && pool.spec_map().contains_key(c) && #[trigger] points_to(pool_node(pool, id), c)
            ==> rank(c) < rank(id)
}

/// The pool is consistent, the keys of each of its nodes are in increasing
/// order, and the pointers between its nodes form no cycle.
pub open spec fn tree_wf(pool: BTreeNodePool) -> bool {
    &&& pool.wf()
    &&& forall|id: u64| #[trigger] pool.spec_map().contains_key(id) ==> keys_sorted(active_keys(pool_node(pool, id).cells))
    &&& exists|rank: spec_fn(u64) -> nat| ranked(pool, rank)
}

/// The data pointers found by looking `value` up from the node `id`,
/// following the steps down the nodes of the pool: `None` when a leaf does
/// not hold the key or a node to visit is not in the pool.
pub open spec fn lookup(pool: BTreeNodePool, rank: spec_fn(u64) -> nat, id: u64, value: Seq<char>) -> Option<Seq<u64>>
    decreases rank(id),
{
    if !pool.spec_map().contains_key(id) {
        None
    } else {
        match spec_step(pool_node(pool, id), value) {
            StepView::Found(p) => Some(p),
            StepView::Missing => None,
            StepView::Descend(c) => if pool.spec_map().contains_key(c) && rank(c) < rank(id) {
                lookup(pool, rank, c, value)
            } else {
                None
            },
        }
    }
}

/// The lookup of `value` from the node `root`, over a ranking of the pool.
pub open spec fn tree_lookup(pool: BTreeNodePool, root: u64, value: Seq<char>) -> Option<Seq<u64>> {
    lookup(pool, choose|rank: spec_fn(u64) -> nat| ranked(pool, rank), root, value)
}

/// Looks `value` up in the tree of root `root` whose nodes the pool keeps:
/// the data pointers of the leaf cell holding the key, or `None` when the
/// key is not in the leaf it leads to or a node on the way is not kept.
pub fn tree_search(pool: &BTreeNodePool, value: &str, root: u64) -> (r: Option<Vec<u64>>)
    requires
        tree_wf(*pool),
    ensures
        match r {
            Some(p) => tree_lookup(*pool, root, value@) == Some(p@),
            None => tree_lookup(*pool, root, value@) is None,
        },
{
    let ghost rank = choose|rank: spec_fn(u64) -> nat| ranked(*pool, rank);
    let ghost v = value@;
    assert(tree_lookup(*pool, root, v) == lookup(*pool, rank, root, v));
    let mut id = root;
    loop
        invariant
            tree_wf(*pool),
            ranked(*pool, rank),
            v == value@,
            lookup(*pool, rank, id, v) == lookup(*pool, rank, root, v),
            tree_lookup(*pool, root, v) == lookup(*pool, rank, root, v),
        decreases rank(id),
    {
        let node = match pool.get_ref(&id) {
            Some(n) => n,
            None => {
                assert(lookup(*pool, rank, id, v) is None);
                return None;
            },
        };
        let ghost n = node@;
        let ghost keys = active_keys(n.cells);
        proof {
            assert(pool.spec_map().contains_key(id));
            assert(n == pool_node(*pool, id));
            assert(keys_sorted(keys));
            lemma_active_keys_len(n.cells);
            if !has_key(keys, v) {
                lemma_insertion_exists(keys, v);
            }
        }
        let step = search_step(node, value);
        proof {
            if has_key(keys, v) {
                let i = key_index(keys, v);
                assert(keys[i] == v);
            } else {
                let i = insertion_index(keys, v);
                assert(insertion_point(keys, v, i));
            }
        }
        match step {
            SearchStep::Found(p) => {
                assert(spec_step(n, v) == StepView::Found(p@));
                return Some(p);
            },
            SearchStep::Missing => {
                assert(spec_step(n, v) == StepView::Missing);
                return None;
            },
            SearchStep::Descend(c) => {
                assert(spec_step(n, v) == StepView::Descend(c));
                if !pool.contains(&c) {
                    return None;
                }
                proof {
                    if has_key(keys, v) {
                        let i = key_index(keys, v);
                        assert(n.cells[i].node_ptr == Some(c));
                    } else {
                        let i = insertion_index(keys, v);
                        if i > 0 {
                            assert(n.cells[i - 1].node_ptr == Some(c));
                        }
                    }
                    assert(points_to(pool_node(*pool, id), c));
                }
                id = c;
            },
        }
    }
}

/// The leaf where a lookup of `value` from the node `id` ends, following the
/// steps down the nodes of the pool; `None` when the way breaks off before a
/// leaf.
pub open spec fn reach(pool: BTreeNodePool, rank: spec_fn(u64) -> nat, id: u64, value: Seq<char>) -> Option<u64>
    decreases rank(id),
{
    if !pool.spec_map().contains_key(id) {
        None
    } else if pool_node(pool, id).is_leaf {
        Some(id)
    } else {
        match spec_step(pool_node(pool, id), value) {
            StepView::Descend(c) => if pool.spec_map().contains_key(c) && rank(c) < rank(id) {
                reach(pool, rank, c, value)
            } else {
                None
            },
            _ => None,
        }
    }
}

/// The leaf where a lookup of `value` from `root` ends, over a ranking of
/// the pool.
pub open spec fn tree_reach(pool: BTreeNodePool, root: u64, value: Seq<char>) -> Option<u64> {
    reach(pool, choose|rank: spec_fn(u64) -> nat| ranked(pool, rank), root, value)
}

/// What a lookup ends with in a leaf.
pub open spec fn leaf_result(n: BTreeNodeView, value: Seq<char>) -> Option<Seq<u64>> {
    match spec_step(n, value) {
        StepView::Found(p) => Some(p),
        _ => None,
    }
}

/// Every cell of every node of the pool is active.
pub open spec fn pool_all_active(pool: BTreeNodePool) -> bool {
    forall|id: u64| #[trigger] pool.spec_map().contains_key(id) ==> all_active(pool_node(pool, id).cells)
}

/// `pool2` is `pool` with only the node `leaf` changed, into a leaf of the
/// same id that points nowhere `leaf` did not.
pub open spec fn changes_one_leaf(pool: BTreeNodePool, pool2: BTreeNodePool, leaf: u64) -> bool {
    &&& pool.wf()
    &&& pool2.wf()
    &&& pool2.spec_map() == pool.spec_map()
    &&& pool.spec_map().contains_key(leaf)
    &&& pool2.spec_nodes().len() == pool.spec_nodes().len()
    &&& forall|k: int|
        0 <= k < pool.spec_nodes().len() && k != pool.spec_map()[leaf] ==> #[trigger] pool2.spec_nodes()[k] == pool.spec_nodes()[k]
    &&& pool_node(pool2, leaf).is_leaf
    &&& forall|c: u64| #[trigger] points_to(pool_node(pool2, leaf), c) ==> points_to(pool_node(pool, leaf), c)
}

proof fn lemma_other_nodes_kept(pool: BTreeNodePool, pool2: BTreeNodePool, leaf: u64, id: u64)
    requires
        changes_one_leaf(pool, pool2, leaf),
        pool.spec_map().contains_key(id),
        id != leaf,
    ensures
        pool_node(pool2, id) == pool_node(pool, id),
{
    assert(pool.spec_map()[id] != pool.spec_map()[leaf]) by {
        if pool.spec_map()[id] == pool.spec_map()[leaf] {
            assert(pool.spec_nodes()[pool.spec_map()[id] as int]@.id == Some(id));
            assert(pool.spec_nodes()[pool.spec_map()[leaf] as int]@.id == Some(leaf));
        }
    }
    assert(pool2.spec_nodes()[pool.spec_map()[id] as int] == pool.spec_nodes()[pool.spec_map()[id] as int]);
}

proof fn lemma_lookup_after_leaf_change(
    pool: BTreeNodePool,
    pool2: BTreeNodePool,
    rank: spec_fn(u64) -> nat,
    leaf: u64,
    id: u64,
    value: Seq<char>,
)
    requires
        changes_one_leaf(pool, pool2, leaf),
        reach(pool, rank, id, value) == Some(leaf),
    ensures
        lookup(pool2, rank, id, value) == leaf_result(pool_node(pool2, leaf), value),
        reach(pool2, rank, id, value) == Some(leaf),
    decreases rank(id),
{
    if id == leaf {
        let n2 = pool_node(pool2, leaf);
        let keys = active_keys(n2.cells);
        if has_key(keys, value) {
        } else {
        }
    } else {
        lemma_other_nodes_kept(pool, pool2, leaf, id);
        match spec_step(pool_node(pool, id), value) {
            StepView::Descend(c) => {
                lemma_lookup_after_leaf_change(pool, pool2, rank, leaf, c, value);
            },
            _ => {},
        }
    }
}

proof fn lemma_lookup_same_leaf_result(
    pool: BTreeNodePool,
    pool2: BTreeNodePool,
    rank: spec_fn(u64) -> nat,
    leaf: u64,
    id: u64,
    w: Seq<char>,
)
    requires
        changes_one_leaf(pool, pool2, leaf),
        pool_node(pool, leaf).is_leaf,
        leaf_result(pool_node(pool2, leaf), w) == leaf_result(pool_node(pool, leaf), w),
    ensures
        lookup(pool2, rank, id, w) == lookup(pool, rank, id, w),
    decreases rank(id),
{
    if pool.spec_map().contains_key(id) && id != leaf {
        lemma_other_nodes_kept(pool, pool2, leaf, id);
        match spec_step(pool_node(pool, id), w) {
            StepView::Descend(c) => {
                if pool.spec_map().contains_key(c) && rank(c) < rank(id) {
                    lemma_lookup_same_leaf_result(pool, pool2, rank, leaf, c, w);
                }
            },
            _ => {},
        }
    }
}

proof fn lemma_leaf_other_keys(n: BTreeNodeView, v: Seq<char>, p: u64, i: int, w: Seq<char>)
    requires
        n.is_leaf,
        all_active(n.cells),
        keys_sorted(active_keys(n.cells)),
        w != v,
    ensures
        insertion_point(active_keys(n.cells), v, i) ==> leaf_result(inserted(n, i, new_leaf_view(v, p)), w)
            == leaf_result(n, w),
        0 <= i < active_keys(n.cells).len() && active_keys(n.cells)[i] == v ==> leaf_result(
            BTreeNodeView { cells: n.cells.update(i, with_data_ptr(n.cells[i], p)), ..n },
            w,
        ) == leaf_result(n, w),
{
    let keys = active_keys(n.cells);
    lemma_active_keys_all(n.cells);
    lemma_leaf_insert_then_search(n, v, p, i);
    lemma_sorted_positions(keys, w);
    if insertion_point(keys, v, i) {
        let n2 = inserted(n, i, new_leaf_view(v, p));
        let keys2 = active_keys(n2.cells);
        lemma_sorted_positions(keys2, w);
        if has_key(keys, w) {
            let j = key_index(keys, w);
            let j2 = if j < i { j } else { j + 1 };
            assert(keys2[j2] == w);
            assert(has_key(keys2, w));
            assert(key_index(keys2, w) == j2);
            assert(n2.cells[j2] == n.cells[j]);
        } else {
            assert(!has_key(keys2, w)) by {
                if has_key(keys2, w) {
                    let j2 = key_index(keys2, w);
                    if j2 < i {
                        assert(keys[j2] == w);
                    } else if j2 > i {
                        assert(keys[j2 - 1] == w);
                    }
                }
            }
        }
    }
    if 0 <= i < keys.len() && keys[i] == v {
        let n2 = BTreeNodeView { cells: n.cells.update(i, with_data_ptr(n.cells[i], p)), ..n };
        assert(active_keys(n2.cells) == keys);
        if has_key(keys, w) {
            let j = key_index(keys, w);
            assert(j != i);
            assert(n2.cells[j] == n.cells[j]);
        }
    }
}

proof fn lemma_lookup_rank_free(pool: BTreeNodePool, r1: spec_fn(u64) -> nat, r2: spec_fn(u64) -> nat, id: u64, value: Seq<char>)
    requires
        tree_wf(pool),
        ranked(pool, r1),
        ranked(pool, r2),
    ensures
        lookup(pool, r1, id, value) == lookup(pool, r2, id, value),
        reach(pool, r1, id, value) == reach(pool, r2, id, value),
    decreases r1(id),
{
    if pool.spec_map().contains_key(id) {
        match spec_step(pool_node(pool, id), value) {
            StepView::Descend(c) => {
                if pool.spec_map().contains_key(c) {
                    lemma_step_points(pool_node(pool, id), value, c);
                    assert(points_to(pool_node(pool, id), c));
                    lemma_lookup_rank_free(pool, r1, r2, c, value);
                }
            },
            _ => {},
        }
    }
}

proof fn lemma_step_points(n: BTreeNodeView, value: Seq<char>, c: u64)
    requires
        spec_step(n, value) == StepView::Descend(c),
        keys_sorted(active_keys(n.cells)),
    ensures
        points_to(n, c),
{
    let keys = active_keys(n.cells);
    lemma_active_keys_len(n.cells);
    if has_key(keys, value) {
        let i = key_index(keys, value);
        assert(n.cells[i].node_ptr == Some(c));
    } else {
        lemma_insertion_exists(keys, value);
        let i = insertion_index(keys, value);
        if i > 0 {
            assert(n.cells[i - 1].node_ptr == Some(c));
        }
    }
}

/// What inserting a key in the tree gives: the key's leaf took it, the leaf
/// `leaf` is full and is to be split with the key going at the given
/// place, or the way to a leaf broke off.
pub enum TreeInsert {
    Done,
    SplitLeaf(u64, usize),
    Missing,
}

/// The two pools keep the same nodes under the same ids.
pub open spec fn same_nodes(p: BTreeNodePool, q: BTreeNodePool) -> bool {
    &&& p.spec_map() == q.spec_map()
    &&& p.spec_nodes().len() == q.spec_nodes().len()
    &&& forall|k: int| 0 <= k < p.spec_nodes().len() ==> (#[trigger] p.spec_nodes()[k])@ == q.spec_nodes()[k]@
}

/// The data pointers of a key once `p` is added to those it had.
pub open spec fn with_ptr(before: Option<Seq<u64>>, p: u64) -> Seq<u64> {
    match before {
        Some(ps) => ps.push(p),
        None => seq![p],
    }
}

proof fn lemma_wf_after_node_update(pool: BTreeNodePool, pool2: BTreeNodePool, id: u64)
    requires
        pool.wf(),
        pool.spec_map().contains_key(id),
        pool2.spec_map() == pool.spec_map(),
        pool2.spec_nodes().len() == pool.spec_nodes().len(),
        forall|k: int|
            0 <= k < pool.spec_nodes().len() && k != pool.spec_map()[id] ==> #[trigger] pool2.spec_nodes()[k] == pool.spec_nodes()[k],
        pool_node(pool2, id).id == pool_node(pool, id).id,
    ensures
        pool2.wf(),
{
    assert forall|k: u64| #[trigger] pool2.spec_map().contains_key(k) implies {
        &&& pool2.spec_map()[k] < pool2.spec_nodes().len()
        &&& pool2.spec_nodes()[pool2.spec_map()[k] as int]@.id == Some(k)
    } by {
        assert(pool.spec_map().contains_key(k));
        if pool.spec_map()[k] != pool.spec_map()[id] {
            assert(pool2.spec_nodes()[pool.spec_map()[k] as int] == pool.spec_nodes()[pool.spec_map()[k] as int]);
        }
    }
}

/// Inserts `value`, pointing to the record `data_ptr`, in the tree of root
/// `root` whose nodes the pool keeps: the lookup goes down to a leaf; there
/// the pointer is added to the cell of the key, or a new leaf cell is
/// inserted where the key goes, and the key's pointers are then its old ones
/// followed by `data_ptr`; a full leaf without the key is left to be split.
pub fn tree_insert(pool: &mut BTreeNodePool, value: &str, data_ptr: u64, root: u64) -> (r: TreeInsert)
    requires
        tree_wf(*old(pool)),
        pool_all_active(*old(pool)),
    ensures
        final(pool).spec_map() == old(pool).spec_map(),
        r is Missing ==> same_nodes(*final(pool), *old(pool)) && tree_reach(*old(pool), root, value@) is None,
        r matches TreeInsert::SplitLeaf(leaf, i) ==> {
            let keys = active_keys(pool_node(*old(pool), leaf).cells);
            &&& same_nodes(*final(pool), *old(pool))
            &&& tree_reach(*old(pool), root, value@) == Some(leaf)
            &&& pool_node(*old(pool), leaf).cells.len() == NB_CELL
            &&& insertion_point(keys, value@, i as int)
        },
        r is Done ==> {
            &&& tree_wf(*final(pool))
            &&& pool_all_active(*final(pool))
            &&& tree_lookup(*final(pool), root, value@) == Some(with_ptr(tree_lookup(*old(pool), root, value@), data_ptr))
            &&& forall|w: Seq<char>| w != value@ ==> #[trigger] tree_lookup(*final(pool), root, w) == tree_lookup(*old(pool), root, w)
        },
{
    let ghost rank = choose|rank: spec_fn(u64) -> nat| ranked(*pool, rank);
    let ghost v = value@;
    let ghost p0 = *pool;
    assert(tree_lookup(p0, root, v) == lookup(p0, rank, root, v));
    assert(tree_reach(p0, root, v) == reach(p0, rank, root, v));
    let mut id = root;
    loop
        invariant
            *pool == p0,
            p0 == *old(pool),
            tree_wf(p0),
            pool_all_active(p0),
            ranked(p0, rank),
            v == value@,
            reach(p0, rank, id, v) == reach(p0, rank, root, v),
            tree_lookup(p0, root, v) == lookup(p0, rank, root, v),
            tree_reach(p0, root, v) == reach(p0, rank, root, v),
        decreases rank(id),
    {
        let node = match pool.get_ref(&id) {
            Some(n) => n,
            None => {
                return TreeInsert::Missing;
            },
        };
        let ghost n = node@;
        let ghost keys = active_keys(n.cells);
        proof {
            assert(p0.spec_map().contains_key(id));
            assert(n == pool_node(p0, id));
            assert(keys_sorted(keys));
            lemma_active_keys_len(n.cells);
            if !has_key(keys, v) {
                lemma_insertion_exists(keys, v);
            }
            lemma_sorted_positions(keys, v);
        }
        if node.is_leaf() {
            let ghost pos = p0.spec_map()[id];
            proof {
                assert(reach(p0, rank, root, v) == Some(id));
                assert(all_active(n.cells));
                lemma_leaf_insert_then_search(n, v, data_ptr, key_index(keys, v));
                lemma_leaf_insert_then_search(n, v, data_ptr, insertion_index(keys, v));
                assert(changes_one_leaf(p0, p0, id));
                lemma_lookup_after_leaf_change(p0, p0, rank, id, root, v);
                if has_key(keys, v) {
                    assert(keys[key_index(keys, v)] == v);
                } else {
                    assert(insertion_point(keys, v, insertion_index(keys, v)));
                }
            }
            let node_mut = match pool.get_mut(&id) {
                Some(m) => m,
                None => {
                    return TreeInsert::Missing;
                },
            };
            let res = insert_step(node_mut, value, data_ptr);
            match res {
                InsertStep::Done => {
                    proof {
                        let p2 = *pool;
                        let n2 = pool_node(p2, id);
                        let keys2 = active_keys(n2.cells);
                        assert(n2 == p2.spec_nodes()[pos as int]@);
                        lemma_wf_after_node_update(p0, p2, id);
                        assert forall|c: u64| #[trigger] points_to(n2, c) implies points_to(n, c) by {
                            if n2.node_ptr != Some(c) {
                                let j = choose|j: int| 0 <= j < n2.cells.len() && n2.cells[j].node_ptr == Some(c);
                                if has_key(keys, v) {
                                    assert(n.cells[j].node_ptr == Some(c));
                                } else {
                                    let ii = insertion_index(keys, v);
                                    if j < ii {
                                        assert(n.cells[j].node_ptr == Some(c));
                                    } else if j > ii {
                                        assert(n.cells[j - 1].node_ptr == Some(c));
                                    }
                                }
                            }
                        }
                        assert(changes_one_leaf(p0, p2, id));
                        lemma_lookup_after_leaf_change(p0, p2, rank, id, root, v);
                        assert forall|a: u64, c: u64|
                            p2.spec_map().contains_key(a) && p2.spec_map().contains_key(c) && #[trigger] points_to(
                                pool_node(p2, a),
                                c,
                            ) implies rank(c) < rank(a) by {
                            if a != id {
                                lemma_other_nodes_kept(p0, p2, id, a);
                            } else {
                                assert(points_to(pool_node(p0, a), c));
                            }
                        }
                        assert(ranked(p2, rank));
                        assert forall|a: u64| #[trigger] p2.spec_map().contains_key(a) implies keys_sorted(
                            active_keys(pool_node(p2, a).cells),
                        ) && all_active(pool_node(p2, a).cells) by {
                            if a != id {
                                lemma_other_nodes_kept(p0, p2, id, a);
                            }
                        }
                        assert(tree_wf(p2));
                        lemma_lookup_rank_free(p2, choose|r: spec_fn(u64) -> nat| ranked(p2, r), rank, root, v);
                        assert forall|w: Seq<char>| w != v implies #[trigger] tree_lookup(p2, root, w) == tree_lookup(
                            p0,
                            root,
                            w,
                        ) by {
                            lemma_leaf_other_keys(n, v, data_ptr, key_index(keys, v), w);
                            lemma_leaf_other_keys(n, v, data_ptr, insertion_index(keys, v), w);
                            if has_key(keys, v) {
                                assert(n2 == (BTreeNodeView {
                                    cells: n.cells.update(key_index(keys, v), with_data_ptr(n.cells[key_index(keys, v)], data_ptr)),
                                    ..n
                                }));
                            } else {
                                assert(n2 == inserted(n, insertion_index(keys, v), new_leaf_view(v, data_ptr)));
                            }
                            lemma_lookup_same_leaf_result(p0, p2, rank, id, root, w);
                            lemma_lookup_rank_free(p2, choose|r: spec_fn(u64) -> nat| ranked(p2, r), rank, root, w);
                            lemma_lookup_rank_free(p0, choose|r: spec_fn(u64) -> nat| ranked(p0, r), rank, root, w);
                        }
                        lemma_sorted_positions(keys2, v);
                        if has_key(keys, v) {
                            let i = key_index(keys, v);
                            assert(keys2 == keys);
                            assert(keys2[i] == v);
                        } else {
                            let i = insertion_index(keys, v);
                            assert(n.cells.len() != NB_CELL);
                            assert(n2 == inserted(n, i, new_leaf_view(v, data_ptr)));
                            assert(keys2[i] == v);
                            assert(has_key(keys2, v));
                        }
                    }
                    return TreeInsert::Done;
                },
                InsertStep::SplitLeaf(i) => {
                    proof {
                        let p2 = *pool;
                        assert forall|k: int| 0 <= k < p2.spec_nodes().len() implies (#[trigger] p2.spec_nodes()[k])@
                            == p0.spec_nodes()[k]@ by {
                            if k == pos {
                                assert(p2.spec_nodes()[k]@ == n);
                            }
                        }
                    }
                    return TreeInsert::SplitLeaf(id, i);
                },
                _ => {
                    return TreeInsert::Missing;
                },
            }
        }
        let step = search_step(node, value);
        proof {
            if has_key(keys, v) {
                assert(keys[key_index(keys, v)] == v);
            } else {
                assert(insertion_point(keys, v, insertion_index(keys, v)));
            }
        }
        match step {
            SearchStep::Descend(c) => {
                assert(spec_step(n, v) == StepView::Descend(c));
                if !pool.contains(&c) {
                    return TreeInsert::Missing;
                }
                proof {
                    lemma_step_points(n, v, c);
                }
                id = c;
            },
            _ => {
                return TreeInsert::Missing;
            },
        }
    }
}

/// The keys gathered from the node `id` of the pool: a leaf gives the keys
/// of all its cells, in order; an interior node gives those gathered from
/// the children its cells point to, in the order of its cells (its own
/// pointer, to the child before its first key, is not followed). `None`
/// when a node to visit is not in the pool.
pub open spec fn subtree_keys(pool: BTreeNodePool, rank: spec_fn(u64) -> nat, id: u64) -> Option<Seq<Seq<char>>>
    decreases rank(id), pool_node(pool, id).cells.len() + 1,
{
    if !pool.spec_map().contains_key(id) {
        None
    } else if pool_node(pool, id).is_leaf {
        Some(pool_node(pool, id).cells.map_values(|c: CellView| c.key))
    } else {
        children_keys(pool, rank, id, pool_node(pool, id).cells.len() as int)
    }
}

/// The keys gathered from the children that the first `j` cells of the
/// interior node `id` point to.
pub open spec fn children_keys(pool: BTreeNodePool, rank: spec_fn(u64) -> nat, id: u64, j: int) -> Option<
    Seq<Seq<char>>,
>
    decreases rank(id), if j <= 0 { 0 } else { j as nat },
{
    if j <= 0 || j > pool_node(pool, id).cells.len() {
        Some(seq![])
    } else {
        match children_keys(pool, rank, id, j - 1) {
            None => None,
            Some(ks) => match pool_node(pool, id).cells[j - 1].node_ptr {
                None => Some(ks),
                Some(c) => if pool.spec_map().contains_key(c) && rank(c) < rank(id) {
                    match subtree_keys(pool, rank, c) {
                        None => None,
                        Some(more) => Some(ks + more),
                    }
                } else {
                    None
                },
            },
        }
    }
}

/// The keys gathered from the root `root`, over a ranking of the pool.
pub open spec fn tree_keys_spec(pool: BTreeNodePool, root: u64) -> Option<Seq<Seq<char>>> {
    subtree_keys(pool, choose|rank: spec_fn(u64) -> nat| ranked(pool, rank), root)
}

fn gather_keys(pool: &BTreeNodePool, id: u64, keys: &mut Vec<String>, Ghost(rank): Ghost<spec_fn(u64) -> nat>) -> (r:
    Option<()>)
    requires
        tree_wf(*pool),
        ranked(*pool, rank),
    ensures
        match subtree_keys(*pool, rank, id) {
            Some(ks) => r is Some && final(keys)@.map_values(|s: String| s@) == old(keys)@.map_values(|s: String| s@) + ks,
            None => r is None,
        },
    decreases rank(id),
{
    let node = match pool.get_ref(&id) {
        Some(n) => n,
        None => {
            return None;
        },
    };
    let ghost n = node@;
    let ghost before = keys@.map_values(|s: String| s@);
    assert(n == pool_node(*pool, id));
    let is_leaf = node.is_leaf();
    let cells = node.get_cells_ref();
    let len = cells.len();
    let mut j: usize = 0;
    if is_leaf {
        while j < len
            invariant
                len == n.cells.len(),
                cell_views(cells@) == n.cells,
                j <= len,
                keys@.map_values(|s: String| s@) == before + n.cells.take(j as int).map_values(|c: CellView| c.key),
            decreases len - j,
        {
            let ghost prev = keys@;
            keys.push(cells[j].get_key().clone());
            proof {
                assert(cells@[j as int]@ == n.cells[j as int]);
                assert(keys@.map_values(|s: String| s@) =~= prev.map_values(|s: String| s@).push(n.cells[j as int].key));
                assert(n.cells.take(j + 1).map_values(|c: CellView| c.key) =~= n.cells.take(j as int).map_values(
                    |c: CellView| c.key,
                ).push(n.cells[j as int].key));
            }
            j = j + 1;
        }
        assert(n.cells.take(len as int) =~= n.cells);
        return Some(());
    }
    assert(children_keys(*pool, rank, id, 0) == Some(Seq::<Seq<char>>::empty()));
    assert(before + Seq::<Seq<char>>::empty() =~= before);
    while j < len
        invariant
            tree_wf(*pool),
            ranked(*pool, rank),
            pool.spec_map().contains_key(id),
            n == pool_node(*pool, id),
            !n.is_leaf,
            len == n.cells.len(),
            cell_views(cells@) == n.cells,
            j <= len,
            children_keys(*pool, rank, id, j as int) matches Some(ks) && keys@.map_values(|s: String| s@) == before
                + ks,
        decreases len - j,
    {
        let ghost ks = children_keys(*pool, rank, id, j as int)->0;
        proof {
            assert(cells@[j as int]@ == n.cells[j as int]);
        }
        match cells[j].get_node_ptr() {
            Some(child) => {
                if !pool.contains(&child) {
                    proof {
                        assert(children_keys(*pool, rank, id, j + 1) is None);
                        lemma_children_keys_none(*pool, rank, id, j + 1, len as int);
                    }
                    return None;
                }
                proof {
                    assert(points_to(n, child));
                }
                let ghost mid = keys@.map_values(|s: String| s@);
                let res = gather_keys(pool, child, keys, Ghost(rank));
                if res.is_none() {
                    proof {
                        assert(children_keys(*pool, rank, id, j + 1) is None);
                        lemma_children_keys_none(*pool, rank, id, j + 1, len as int);
                    }
                    return None;
                }
                proof {
                    let more = subtree_keys(*pool, rank, child)->0;
                    assert(before + ks + more =~= before + (ks + more));
                }
            },
            None => {},
        }
        j = j + 1;
    }
    Some(())
}

proof fn lemma_children_keys_none(pool: BTreeNodePool, rank: spec_fn(u64) -> nat, id: u64, j: int, k: int)
    requires
        1 <= j <= k <= pool_node(pool, id).cells.len(),
        children_keys(pool, rank, id, j) is None,
    ensures
        children_keys(pool, rank, id, k) is None,
    decreases k - j,
{
    if j < k {
        lemma_children_keys_none(pool, rank, id, j + 1, k);
    }
}

/// The keys of the tree of root `root` whose nodes the pool keeps, as
/// `subtree_keys` gathers them; `None` when a node to visit is not kept.
pub fn tree_keys(pool: &BTreeNodePool, root: u64) -> (r: Option<Vec<String>>)
    requires
        tree_wf(*pool),
    ensures
        match tree_keys_spec(*pool, root) {
            Some(ks) => r matches Some(v) && v@.map_values(|s: String| s@) == ks,
            None => r is None,
        },
{
    let ghost rank = choose|rank: spec_fn(u64) -> nat| ranked(*pool, rank);
    let mut keys: Vec<String> = Vec::new();
    let res = gather_keys(pool, root, &mut keys, Ghost(rank));
    proof {
        assert(Seq::<String>::empty().map_values(|s: String| s@) =~= Seq::<Seq<char>>::empty());
    }
    match res {
        Some(()) => {
            proof {
                if let Some(ks) = subtree_keys(*pool, rank, root) {
                    assert(Seq::<Seq<char>>::empty() + ks =~= ks);
                }
            }
            Some(keys)
        },
        None => None,
    }
}

/// What splitting the leaf `leaf` of `p0` at `i` for the key `v` pointing to
/// `p` makes of the pool, as `split_leaf` states it, giving `p1`.
pub open spec fn leaf_split_effect(
    p0: BTreeNodePool,
    p1: BTreeNodePool,
    leaf: u64,
    i: int,
    v: Seq<char>,
    p: u64,
    new_id: u64,
    new_root_id: u64,
) -> bool {
    let n = pool_node(p0, leaf);
    let cells = cells_with(n, i, new_leaf_view(v, p));
    let split = cells.len() / 2;
    &&& pool_node(p1, leaf).cells == cells.take(split as int)
    &&& pool_node(p1, leaf).node_ptr == Some(new_id)
    &&& pool_node(p1, leaf).is_leaf == n.is_leaf
    &&& pool_node(p1, leaf).is_root == false
    &&& pool_node(p1, leaf).id == n.id
    &&& p1.spec_map().contains_key(new_id)
    &&& pool_node(p1, new_id).id == Some(new_id)
    &&& pool_node(p1, new_id).cells == removed_cells(cells.skip(split as int))
    &&& pool_node(p1, new_id).node_ptr == n.node_ptr
    &&& pool_node(p1, new_id).is_leaf
    &&& !pool_node(p1, new_id).is_root
    &&& n.is_root ==> {
        &&& p1.spec_map().contains_key(new_root_id)
        &&& pool_node(p1, new_root_id).id == Some(new_root_id)
        &&& pool_node(p1, new_root_id).cells == seq![
            new_ptr_view(cells[split as int].key, Some(new_id)),
        ]
        &&& pool_node(p1, new_root_id).node_ptr == Some(leaf)
        &&& !pool_node(p1, new_root_id).is_leaf
        &&& pool_node(p1, new_root_id).is_root
        &&& p1.spec_map().dom() == p0.spec_map().dom().insert(new_id).insert(new_root_id)
    }
    &&& !n.is_root ==> p1.spec_map().dom() == p0.spec_map().dom().insert(new_id)
    &&& forall|k: u64| p0.spec_map().contains_key(k) && k != leaf ==> #[trigger] pool_node(p1, k) == pool_node(p0, k)
}

/// Splits the full leaf `leaf` of the pool to make room for `value`,
/// pointing to `data_ptr`, at its place `i`: the new leaf cell is inserted,
/// the upper half of the cells (from half their number on, rounded down)
/// moves to a new leaf of id `new_id`, which takes over the leaf's next
/// pointer while the leaf points next to it. When the leaf was the root, it
/// stops being one and a new root of id `new_root_id` is made, holding one
/// interior cell with the first key of the new leaf and pointing to it, and
/// pointing first to the old leaf; the answer is then `None`. Otherwise the
/// new leaf's id is answered, for its parent to hook it in.
pub fn split_leaf(
    pool: &mut BTreeNodePool,
    leaf: u64,
    i: usize,
    value: &str,
    data_ptr: u64,
    new_id: u64,
    new_root_id: u64,
) -> (r: Option<u64>)
    requires
        old(pool).wf(),
        old(pool).spec_map().contains_key(leaf),
        !old(pool).spec_map().contains_key(new_id),
        !old(pool).spec_map().contains_key(new_root_id),
        new_id != new_root_id,
        i <= pool_node(*old(pool), leaf).cells.len(),
    ensures
        final(pool).wf(),
        leaf_split_effect(*old(pool), *final(pool), leaf, i as int, value@, data_ptr, new_id, new_root_id),
        pool_node(*old(pool), leaf).is_root ==> r is None,
        !pool_node(*old(pool), leaf).is_root ==> r == Some(new_id),
{
    let ghost p0 = *pool;
    let ghost n = pool_node(p0, leaf);
    let ghost pos = p0.spec_map()[leaf];
    let node = pool.get_mut(&leaf).unwrap();
    let upper = split_node_cells(node, i, Cell::new_leaf(value, data_ptr));
    let ghost up = cell_views(upper@);
    let next_ptr = node.get_node_ptr();
    let was_root = node.is_root();
    node.set_node_ptr(Some(new_id));
    node.set_is_root(false);
    let ghost p1 = *pool;
    let ghost cells = cells_with(n, i as int, new_leaf_view(value@, data_ptr));
    let ghost split = cells.len() / 2;
    proof {
        assert(p1.spec_nodes()[pos as int]@.id == n.id);
        assert forall|k: u64| #[trigger] p1.spec_map().contains_key(k) implies {
            &&& p1.spec_map()[k] < p1.spec_nodes().len()
            &&& p1.spec_nodes()[p1.spec_map()[k] as int]@.id == Some(k)
        } by {
            if p1.spec_map()[k] != pos {
                assert(p1.spec_nodes()[p0.spec_map()[k] as int] == p0.spec_nodes()[p0.spec_map()[k] as int]);
            }
        }
        assert(cell_views(upper@).len() == upper@.len());
        assert(cells.skip(split as int).len() >= 1);
    }
    let first_key = upper[0].get_key().clone();
    proof {
        assert(cell_views(upper@)[0] == upper@[0]@);
        assert(first_key@ == cells[split as int].key);
    }
    let mut new_leaf = BTreeNode::new(true, false, upper);
    if next_ptr.is_some() {
        new_leaf.set_node_ptr(next_ptr);
    }
    new_leaf.set_id(new_id);
    let ghost nl = new_leaf;
    assert(*pool == p1);
    assert(nl@.id == Some(new_id));
    assert(nl@.cells == up);
    assert(up == removed_cells(cells.skip(split as int)));
    pool.put(new_leaf);
    let ghost p2 = *pool;
    proof {
        assert(p2.spec_map()[new_id] as int == p1.spec_nodes().len());
        assert(p2.spec_nodes()[p1.spec_nodes().len() as int] == nl);
        assert(pool_node(p2, new_id) == nl@);
        assert forall|k: u64| p1.spec_map().contains_key(k) implies #[trigger] p2.spec_map()[k] == p1.spec_map()[k]
            && p2.spec_nodes()[p1.spec_map()[k] as int] == p1.spec_nodes()[p1.spec_map()[k] as int] by {}
    }
    if was_root {
        let mut new_root = BTreeNode::new(false, true, vec![Cell::new_ptr(first_key.as_str(), Some(new_id))]);
        new_root.set_node_ptr(Some(leaf));
        new_root.set_id(new_root_id);
        pool.put(new_root);
        proof {
            let p3 = *pool;
            assert forall|k: u64| p2.spec_map().contains_key(k) implies #[trigger] p3.spec_map()[k] == p2.spec_map()[k]
                && p3.spec_nodes()[p2.spec_map()[k] as int] == p2.spec_nodes()[p2.spec_map()[k] as int] by {}
            assert(p3.spec_map().dom() =~= p0.spec_map().dom().insert(new_id).insert(new_root_id));
            assert(pool_node(p3, new_root_id).cells =~= seq![new_ptr_view(cells[split as int].key, Some(new_id))]);
            assert forall|k: u64| p0.spec_map().contains_key(k) && k != leaf implies #[trigger] pool_node(p3, k)
                == pool_node(p0, k) by {
                assert(p0.spec_map()[k] != pos) by {
                    if p0.spec_map()[k] == pos {
                        assert(p0.spec_nodes()[pos as int]@.id == Some(k));
                    }
                }
            }
        }
        None
    } else {
        proof {
            assert(p2.spec_map().dom() =~= p0.spec_map().dom().insert(new_id));
            assert forall|k: u64| p0.spec_map().contains_key(k) && k != leaf implies #[trigger] pool_node(p2, k)
                == pool_node(p0, k) by {
                assert(p0.spec_map()[k] != pos) by {
                    if p0.spec_map()[k] == pos {
                        assert(p0.spec_nodes()[pos as int]@.id == Some(k));
                    }
                }
            }
        }
        Some(new_id)
    }
}

/// What splitting the interior node `node_id` of `p0` at `i` for the key
/// `v` pointing to `split_ptr` makes of the pool, as `split_interior` states
/// it, giving `p1`.
pub open spec fn interior_split_effect(
    p0: BTreeNodePool,
    p1: BTreeNodePool,
    node_id: u64,
    i: int,
    v: Seq<char>,
    child_id: Option<u64>,
    split_ptr: Option<u64>,
    new_id: u64,
    new_root_id: u64,
) -> bool {
    let n = pool_node(p0, node_id);
    let cells = cells_with(n, i, new_ptr_view(v, split_ptr));
    let split = cells.len() / 2;
    &&& pool_node(p1, node_id).cells == cells.take(split as int)
    &&& pool_node(p1, node_id).node_ptr == n.node_ptr
    &&& pool_node(p1, node_id).is_leaf == n.is_leaf
    &&& pool_node(p1, node_id).is_root == false
    &&& pool_node(p1, node_id).id == n.id
    &&& p1.spec_map().contains_key(new_id)
    &&& pool_node(p1, new_id).id == Some(new_id)
    &&& pool_node(p1, new_id).cells == removed_cells(cells.skip(split as int))
    &&& pool_node(p1, new_id).node_ptr == child_id
    &&& !pool_node(p1, new_id).is_leaf
    &&& !pool_node(p1, new_id).is_root
    &&& n.is_root ==> {
        &&& p1.spec_map().contains_key(new_root_id)
        &&& pool_node(p1, new_root_id).id == Some(new_root_id)
        &&& pool_node(p1, new_root_id).cells == seq![
            new_ptr_view(cells[split as int].key, Some(new_id)),
        ]
        &&& pool_node(p1, new_root_id).node_ptr == Some(node_id)
        &&& !pool_node(p1, new_root_id).is_leaf
        &&& pool_node(p1, new_root_id).is_root
        &&& p1.spec_map().dom() == p0.spec_map().dom().insert(new_id).insert(new_root_id)
    }
    &&& !n.is_root ==> p1.spec_map().dom() == p0.spec_map().dom().insert(new_id)
    &&& forall|k: u64| p0.spec_map().contains_key(k) && k != node_id ==> #[trigger] pool_node(p1, k) == pool_node(p0, k)
}

/// Splits the full interior node `node_id` of the pool to hook in the node
/// `split_ptr` under the key `key` at its place `i`: the new interior cell
/// is inserted, the upper half of the cells (from half their number on,
/// rounded down) moves to a new interior node of id `new_id`, whose own
/// pointer is `child_id`. When the node was the root, it stops being one and
/// a new root of id `new_root_id` is made, holding one interior cell with
/// the first key of the new node and pointing to it, and pointing first to
/// the old node; the answer is then `None`. Otherwise the new node's id is
/// answered, for its parent to hook it in.
pub fn split_interior(
    pool: &mut BTreeNodePool,
    node_id: u64,
    i: usize,
    key: &str,
    child_id: Option<u64>,
    split_ptr: Option<u64>,
    new_id: u64,
    new_root_id: u64,
) -> (r: Option<u64>)
    requires
        old(pool).wf(),
        old(pool).spec_map().contains_key(node_id),
        !old(pool).spec_map().contains_key(new_id),
        !old(pool).spec_map().contains_key(new_root_id),
        new_id != new_root_id,
        i <= pool_node(*old(pool), node_id).cells.len(),
    ensures
        final(pool).wf(),
        interior_split_effect(*old(pool), *final(pool), node_id, i as int, key@, child_id, split_ptr, new_id, new_root_id),
        pool_node(*old(pool), node_id).is_root ==> r is None,
        !pool_node(*old(pool), node_id).is_root ==> r == Some(new_id),
{
    let ghost p0 = *pool;
    let ghost n = pool_node(p0, node_id);
    let ghost pos = p0.spec_map()[node_id];
    let node = pool.get_mut(&node_id).unwrap();
    let upper = split_node_cells(node, i, Cell::new_ptr(key, split_ptr));
    let ghost up = cell_views(upper@);
    let was_root = node.is_root();
    node.set_is_root(false);
    let ghost p1 = *pool;
    let ghost cells = cells_with(n, i as int, new_ptr_view(key@, split_ptr));
    let ghost split = cells.len() / 2;
    proof {
        assert(p1.spec_nodes()[pos as int]@.id == n.id);
        assert forall|k: u64| #[trigger] p1.spec_map().contains_key(k) implies {
            &&& p1.spec_map()[k] < p1.spec_nodes().len()
            &&& p1.spec_nodes()[p1.spec_map()[k] as int]@.id == Some(k)
        } by {
            if p1.spec_map()[k] != pos {
                assert(p1.spec_nodes()[p0.spec_map()[k] as int] == p0.spec_nodes()[p0.spec_map()[k] as int]);
            }
        }
        assert(cell_views(upper@).len() == upper@.len());
        assert(cells.skip(split as int).len() >= 1);
    }
    let first_key = upper[0].get_key().clone();
    proof {
        assert(cell_views(upper@)[0] == upper@[0]@);
        assert(first_key@ == cells[split as int].key);
    }
    let mut new_node = BTreeNode::new(false, false, upper);
    new_node.set_node_ptr(child_id);
    new_node.set_id(new_id);
    let ghost nl = new_node;
    assert(*pool == p1);
    assert(nl@.id == Some(new_id));
    assert(nl@.cells == up);
    assert(up == removed_cells(cells.skip(split as int)));
    pool.put(new_node);
    let ghost p2 = *pool;
    proof {
        assert(p2.spec_map()[new_id] as int == p1.spec_nodes().len());
        assert(p2.spec_nodes()[p1.spec_nodes().len() as int] == nl);
        assert(pool_node(p2, new_id) == nl@);
        assert forall|k: u64| p1.spec_map().contains_key(k) implies #[trigger] p2.spec_map()[k] == p1.spec_map()[k]
            && p2.spec_nodes()[p1.spec_map()[k] as int] == p1.spec_nodes()[p1.spec_map()[k] as int] by {}
    }
    if was_root {
        let mut new_root = BTreeNode::new(false, true, vec![Cell::new_ptr(first_key.as_str(), Some(new_id))]);
        new_root.set_node_ptr(Some(node_id));
        new_root.set_id(new_root_id);
        pool.put(new_root);
        proof {
            let p3 = *pool;
            assert forall|k: u64| p2.spec_map().contains_key(k) implies #[trigger] p3.spec_map()[k] == p2.spec_map()[k]
                && p3.spec_nodes()[p2.spec_map()[k] as int] == p2.spec_nodes()[p2.spec_map()[k] as int] by {}
            assert(p3.spec_map().dom() =~= p0.spec_map().dom().insert(new_id).insert(new_root_id));
            assert(pool_node(p3, new_root_id).cells =~= seq![new_ptr_view(cells[split as int].key, Some(new_id))]);
            assert forall|k: u64| p0.spec_map().contains_key(k) && k != node_id implies #[trigger] pool_node(p3, k)
                == pool_node(p0, k) by {
                assert(p0.spec_map()[k] != pos) by {
                    if p0.spec_map()[k] == pos {
                        assert(p0.spec_nodes()[pos as int]@.id == Some(k));
                    }
                }
            }
        }
        None
    } else {
        proof {
            assert(p2.spec_map().dom() =~= p0.spec_map().dom().insert(new_id));
            assert forall|k: u64| p0.spec_map().contains_key(k) && k != node_id implies #[trigger] pool_node(p2, k)
                == pool_node(p0, k) by {
                assert(p0.spec_map()[k] != pos) by {
                    if p0.spec_map()[k] == pos {
                        assert(p0.spec_nodes()[pos as int]@.id == Some(k));
                    }
                }
            }
        }
        Some(new_id)
    }
}

proof fn lemma_split_leaf_results(n1: BTreeNodeView, lower: BTreeNodeView, upper: BTreeNodeView, s: int, w: Seq<char>)
    requires
        n1.is_leaf,
        lower.is_leaf,
        upper.is_leaf,
        all_active(n1.cells),
        keys_sorted(active_keys(n1.cells)),
        0 < s < n1.cells.len(),
        lower.cells == n1.cells.take(s),
        upper.cells == removed_cells(n1.cells.skip(s)),
    ensures
        all_active(lower.cells),
        all_active(upper.cells),
        keys_sorted(active_keys(lower.cells)),
        keys_sorted(active_keys(upper.cells)),
        active_keys(upper.cells)[0] == n1.cells[s].key,
        key_lt(w, n1.cells[s].key) ==> leaf_result(lower, w) == leaf_result(n1, w),
        !key_lt(w, n1.cells[s].key) ==> leaf_result(upper, w) == leaf_result(n1, w),
{
    let keys = active_keys(n1.cells);
    let k = n1.cells[s].key;
    lemma_active_keys_all(n1.cells);
    assert forall|j: int| 0 <= j < lower.cells.len() implies (#[trigger] lower.cells[j]).is_active by {
        assert(lower.cells[j] == n1.cells[j]);
    }
    assert forall|j: int| 0 <= j < upper.cells.len() implies (#[trigger] upper.cells[j]).is_active by {
        assert(upper.cells[j] == marked_removed(n1.cells[s + j]));
    }
    lemma_active_keys_all(lower.cells);
    lemma_active_keys_all(upper.cells);
    let lk = active_keys(lower.cells);
    let uk = active_keys(upper.cells);
    assert(lk =~= keys.take(s));
    assert(uk =~= keys.skip(s));
    assert forall|a: int, b: int| 0 <= a < b < lk.len() implies key_lt(#[trigger] lk[a], #[trigger] lk[b]) by {
        assert(key_lt(keys[a], keys[b]));
    }
    assert forall|a: int, b: int| 0 <= a < b < uk.len() implies key_lt(#[trigger] uk[a], #[trigger] uk[b]) by {
        assert(key_lt(keys[a + s], keys[b + s]));
    }
    lemma_sorted_positions(keys, w);
    lemma_sorted_positions(lk, w);
    lemma_sorted_positions(uk, w);
    lemma_bytes_lt_asym(encode_utf8(w), encode_utf8(k));
    if key_lt(w, k) {
        if has_key(keys, w) {
            let j = key_index(keys, w);
            if j >= s {
                if j > s {
                    assert(key_lt(keys[s], keys[j]));
                }
                assert(false);
            }
            assert(lk[j] == w);
            assert(has_key(lk, w));
            assert(key_index(lk, w) == j);
            assert(lower.cells[j] == n1.cells[j]);
        } else {
            assert(!has_key(lk, w)) by {
                if has_key(lk, w) {
                    let j = key_index(lk, w);
                    assert(keys[j] == w);
                }
            }
        }
    } else {
        if has_key(keys, w) {
            let j = key_index(keys, w);
            if j < s {
                assert(key_lt(keys[j], keys[s]));
                assert(false);
            }
            assert(uk[j - s] == w);
            assert(has_key(uk, w));
            assert(key_index(uk, w) == j - s);
            assert(upper.cells[j - s] == marked_removed(n1.cells[j]));
        } else {
            assert(!has_key(uk, w)) by {
                if has_key(uk, w) {
                    let j = key_index(uk, w);
                    assert(keys[j + s] == w);
                }
            }
        }
    }
}

proof fn lemma_root_step(r: BTreeNodeView, k: Seq<char>, left: u64, right: u64, w: Seq<char>)
    requires
        !r.is_leaf,
        r.cells == seq![new_ptr_view(k, Some(right))],
        r.node_ptr == Some(left),
    ensures
        keys_sorted(active_keys(r.cells)),
        all_active(r.cells),
        spec_step(r, w) == StepView::Descend(if key_lt(w, k) { left } else { right }),
{
    let keys = active_keys(r.cells);
    lemma_active_keys_all(r.cells);
    assert(keys =~= seq![k]);
    lemma_bytes_lt_asym(encode_utf8(w), encode_utf8(k));
    if w == k {
        assert(keys[0] == w);
        assert(has_key(keys, w));
        assert(key_index(keys, w) == 0);
    } else {
        assert(!has_key(keys, w));
        encode_utf8_decode_utf8(w);
        encode_utf8_decode_utf8(k);
        lemma_bytes_lt_total(encode_utf8(w), encode_utf8(k));
        let ip = if key_lt(w, k) { 0int } else { 1int };
        assert(insertion_point(keys, w, ip));
        lemma_sorted_positions(keys, w);
        assert(insertion_index(keys, w) == ip);
    }
}

proof fn lemma_inserted_points(n: BTreeNodeView, i: int, v: Seq<char>, p: u64, j: int, c: u64)
    requires
        0 <= i <= n.cells.len(),
        0 <= j < n.cells.len() + 1,
        n.cells.insert(i, marked_added(new_leaf_view(v, p)))[j].node_ptr == Some(c),
    ensures
        points_to(n, c),
{
    if j < i {
        assert(n.cells[j].node_ptr == Some(c));
    } else if j > i {
        assert(n.cells[j - 1].node_ptr == Some(c));
    }
}

proof fn lemma_leaf_lookup(pool: BTreeNodePool, rank: spec_fn(u64) -> nat, id: u64, w: Seq<char>)
    requires
        pool.spec_map().contains_key(id),
        pool_node(pool, id).is_leaf,
    ensures
        lookup(pool, rank, id, w) == leaf_result(pool_node(pool, id), w),
{
}

/// Splitting a full root leaf to insert `v`, pointing to `p`, where it
/// goes (with fresh ids for the new leaf and the new root, which no node
/// points to) keeps the pool well formed, and from the new root every key
/// but `v` looks up as it did from the old root, while `v` gives `p` alone.
pub proof fn lemma_root_leaf_split(
    p0: BTreeNodePool,
    p1: BTreeNodePool,
    leaf: u64,
    i: int,
    v: Seq<char>,
    p: u64,
    new_id: u64,
    new_root_id: u64,
)
    requires
        tree_wf(p0),
        pool_all_active(p0),
        p1.wf(),
        p0.spec_map().contains_key(leaf),
        pool_node(p0, leaf).is_leaf,
        pool_node(p0, leaf).is_root,
        pool_node(p0, leaf).cells.len() >= 1,
        insertion_point(active_keys(pool_node(p0, leaf).cells), v, i),
        !p0.spec_map().contains_key(new_id),
        !p0.spec_map().contains_key(new_root_id),
        new_id != new_root_id,
        forall|k: u64|
            #[trigger] p0.spec_map().contains_key(k) ==> !points_to(pool_node(p0, k), new_id) && !points_to(
                pool_node(p0, k),
                new_root_id,
            ),
        leaf_split_effect(p0, p1, leaf, i, v, p, new_id, new_root_id),
    ensures
        tree_wf(p1),
        pool_all_active(p1),
        forall|w: Seq<char>| #[trigger] tree_lookup(p1, new_root_id, w) == if w == v {
            Some(seq![p])
        } else {
            tree_lookup(p0, leaf, w)
        },
{
    let n = pool_node(p0, leaf);
    let keys = active_keys(n.cells);
    let n1 = inserted(n, i, new_leaf_view(v, p));
    assert(all_active(n.cells));
    assert(keys_sorted(keys));
    lemma_active_keys_all(n.cells);
    assert(keys.len() == n.cells.len());
    lemma_leaf_insert_then_search(n, v, p, i);
    let s = n1.cells.len() / 2;
    let lower = pool_node(p1, leaf);
    let upper = pool_node(p1, new_id);
    let root = pool_node(p1, new_root_id);
    let k = n1.cells[s as int].key;
    assert(lower.cells == n1.cells.take(s as int));
    assert(upper.cells == removed_cells(n1.cells.skip(s as int)));
    assert(root.cells == seq![new_ptr_view(k, Some(new_id))]);
    let r0 = choose|r: spec_fn(u64) -> nat| ranked(p0, r);
    let r1 = |x: u64|
        if x == new_root_id {
            2 * r0(leaf) + 2
        } else if x == leaf {
            2 * r0(leaf) + 1
        } else if x == new_id {
            2 * r0(leaf)
        } else {
            2 * r0(x)
        };
    // The new pool's nodes.
    assert forall|x: u64| #[trigger] p1.spec_map().contains_key(x) implies x == new_id || x == new_root_id || (
    p0.spec_map().contains_key(x)) by {
        assert(p1.spec_map().dom().contains(x));
    }
    // Pointers in the new pool go down the ranking `r1`.
    assert forall|a: u64, c: u64|
        p1.spec_map().contains_key(a) && p1.spec_map().contains_key(c) && #[trigger] points_to(pool_node(p1, a), c)
            implies r1(c) < r1(a) by {
        if a == new_root_id {
            if root.node_ptr != Some(c) {
                let j = choose|j: int| 0 <= j < root.cells.len() && root.cells[j].node_ptr == Some(c);
                assert(root.cells[0].node_ptr == Some(new_id));
            }
        } else if a == leaf {
            if lower.node_ptr != Some(c) {
                let j = choose|j: int| 0 <= j < lower.cells.len() && lower.cells[j].node_ptr == Some(c);
                assert(n1.cells[j].node_ptr == Some(c));
                lemma_inserted_points(n, i, v, p, j, c);
                assert(p0.spec_map().contains_key(c));
                assert(r0(c) < r0(leaf));
            }
        } else if a == new_id {
            if upper.node_ptr == Some(c) {
                assert(points_to(n, c));
            } else {
                let j = choose|j: int| 0 <= j < upper.cells.len() && upper.cells[j].node_ptr == Some(c);
                assert(upper.cells[j] == marked_removed(n1.cells[s + j]));
                lemma_inserted_points(n, i, v, p, s + j, c);
            }
            assert(p0.spec_map().contains_key(c));
            assert(r0(c) < r0(leaf));
        } else {
            assert(p0.spec_map().contains_key(a));
            assert(pool_node(p1, a) == pool_node(p0, a));
            assert(p0.spec_map().contains_key(c));
            assert(r0(c) < r0(a));
        }
    }
    assert(ranked(p1, r1));
    // Keys in order and cells active in every node of the new pool.
    lemma_split_leaf_results(n1, lower, upper, s as int, v);
    lemma_root_step(root, k, leaf, new_id, v);
    assert forall|x: u64| #[trigger] p1.spec_map().contains_key(x) implies keys_sorted(
        active_keys(pool_node(p1, x).cells),
    ) && all_active(pool_node(p1, x).cells) by {
        if x != leaf && x != new_id && x != new_root_id {
            assert(pool_node(p1, x) == pool_node(p0, x));
        }
    }
    assert(tree_wf(p1));
    // Lookups.
    assert forall|w: Seq<char>| #[trigger] tree_lookup(p1, new_root_id, w) == if w == v {
        Some(seq![p])
    } else {
        tree_lookup(p0, leaf, w)
    } by {
        lemma_split_leaf_results(n1, lower, upper, s as int, w);
        lemma_root_step(root, k, leaf, new_id, w);
        lemma_lookup_rank_free(p1, choose|r: spec_fn(u64) -> nat| ranked(p1, r), r1, new_root_id, w);
        lemma_leaf_lookup(p1, r1, leaf, w);
        lemma_leaf_lookup(p1, r1, new_id, w);
        lemma_leaf_lookup(p0, r0, leaf, w);
        if w != v {
            lemma_leaf_other_keys(n, v, p, i, w);
        }
        if w == v {
            let keys1 = active_keys(n1.cells);
            lemma_sorted_positions(keys1, v);
            assert(keys1[i] == v);
            assert(has_key(keys1, v));
            assert(key_index(keys1, v) == i);
        }
    }
}

/// No node of the pool points to `id`.
pub open spec fn unreferenced(pool: BTreeNodePool, id: u64) -> bool {
    forall|k: u64| #[trigger] pool.spec_map().contains_key(k) ==> !points_to(pool_node(pool, k), id)
}

/// Inserts `value`, pointing to `data_ptr`, into the tree whose root `root`
/// is a leaf: as `tree_insert` does, and when the leaf is full by splitting
/// it with `split_leaf`, the new leaf and the new root taking the fresh ids
/// `new_id` and `new_root_id`. Answers the root of the tree afterwards; from
/// it, `value` gives its old pointers followed by `data_ptr`, and every other
/// key what it gave before.
pub fn insert_into_leaf_root(pool: &mut BTreeNodePool, value: &str, data_ptr: u64, root: u64, new_id: u64, new_root_id: u64) -> (r: u64)
    requires
        tree_wf(*old(pool)),
        pool_all_active(*old(pool)),
        old(pool).spec_map().contains_key(root),
        pool_node(*old(pool), root).is_leaf,
        pool_node(*old(pool), root).is_root,
        !old(pool).spec_map().contains_key(new_id),
        !old(pool).spec_map().contains_key(new_root_id),
        new_id != new_root_id,
        unreferenced(*old(pool), new_id),
        unreferenced(*old(pool), new_root_id),
    ensures
        tree_wf(*final(pool)),
        pool_all_active(*final(pool)),
        tree_lookup(*final(pool), r, value@) == Some(with_ptr(tree_lookup(*old(pool), root, value@), data_ptr)),
        forall|w: Seq<char>| w != value@ ==> #[trigger] tree_lookup(*final(pool), r, w) == tree_lookup(*old(pool), root, w),
{
    let ghost p0 = *pool;
    let ghost v = value@;
    let ghost n = pool_node(p0, root);
    let ghost keys = active_keys(n.cells);
    proof {
        let rank = choose|rank: spec_fn(u64) -> nat| ranked(p0, rank);
        assert(reach(p0, rank, root, v) == Some(root));
        assert(keys_sorted(keys));
        lemma_sorted_positions(keys, v);
        lemma_active_keys_len(n.cells);
    }
    let (full, res) = {
        let node = pool.get_ref(&root).unwrap();
        let keys_vec = node.get_keys();
        assert(keys_vec@.map_values(|k: &str| k@).len() == keys_vec@.len());
        let res = binary_search_keys(keys_vec.as_slice(), value);
        proof {
            match res {
                Ok(found) => {
                    assert(keys[found as int] == keys_vec@[found as int]@);
                },
                Err(_) => {},
            }
        }
        (node.is_full(), res)
    };
    match res {
        Err(i) => {
            if full {
                split_leaf(pool, root, i, value, data_ptr, new_id, new_root_id);
                proof {
                    let p1 = *pool;
                    assert(insertion_point(keys, v, i as int));
                    lemma_root_leaf_split(p0, p1, root, i as int, v, data_ptr, new_id, new_root_id);
                    lemma_leaf_lookup(p0, choose|r: spec_fn(u64) -> nat| ranked(p0, r), root, v);
                    assert(!has_key(keys, v));
                    assert(tree_lookup(p1, new_root_id, v) == Some(seq![data_ptr]));
                }
                return new_root_id;
            }
        },
        Ok(_) => {},
    }
    let step = tree_insert(pool, value, data_ptr, root);
    proof {
        match step {
            TreeInsert::SplitLeaf(leaf, j) => {
                assert(leaf == root);
                assert(insertion_point(keys, v, j as int));
                match res {
                    Ok(found) => {
                        assert(keys[found as int] == v);
                    },
                    Err(_) => {},
                }
            },
            _ => {},
        }
    }
    root
}

proof fn lemma_children_keys_cover(pool: BTreeNodePool, rank: spec_fn(u64) -> nat, id: u64, m: int, j: int, c: u64)
    requires
        0 <= j < m <= pool_node(pool, id).cells.len(),
        pool_node(pool, id).cells[j].node_ptr == Some(c),
        children_keys(pool, rank, id, m) is Some,
    ensures
        subtree_keys(pool, rank, c) is Some,
        forall|k: Seq<char>|
            #[trigger] subtree_keys(pool, rank, c)->0.contains(k) ==> children_keys(pool, rank, id, m)->0.contains(k),
    decreases m,
{
    let prev = children_keys(pool, rank, id, m - 1);
    assert(prev is Some);
    let ks = prev->0;
    if j < m - 1 {
        lemma_children_keys_cover(pool, rank, id, m - 1, j, c);
        assert forall|k: Seq<char>| #[trigger] subtree_keys(pool, rank, c)->0.contains(k) implies children_keys(
            pool,
            rank,
            id,
            m,
        )->0.contains(k) by {
            assert(ks.contains(k));
            let idx = choose|idx: int| 0 <= idx < ks.len() && ks[idx] == k;
            match pool_node(pool, id).cells[m - 1].node_ptr {
                Some(c2) => {
                    let more = subtree_keys(pool, rank, c2)->0;
                    assert((ks + more)[idx] == k);
                },
                None => {},
            }
        }
    } else {
        let more = subtree_keys(pool, rank, c)->0;
        assert forall|k: Seq<char>| #[trigger] more.contains(k) implies children_keys(pool, rank, id, m)->0.contains(k) by {
            let idx = choose|idx: int| 0 <= idx < more.len() && more[idx] == k;
            assert((ks + more)[ks.len() + idx] == k);
        }
    }
}

/// The keys gathered from a node (`subtree_keys`, what `tree_keys` answers
/// for a root) are, for a leaf, the keys of its cells in their order; for
/// an interior node they hold every key gathered under the child that each
/// of its cells points to, whichever cell it is.
pub proof fn lemma_tree_keys_cover(pool: BTreeNodePool, rank: spec_fn(u64) -> nat, id: u64)
    requires
        subtree_keys(pool, rank, id) is Some,
    ensures
        pool_node(pool, id).is_leaf ==> subtree_keys(pool, rank, id)->0.len() == pool_node(pool, id).cells.len(),
        pool_node(pool, id).is_leaf ==> forall|j: int|
            0 <= j < pool_node(pool, id).cells.len() ==> subtree_keys(pool, rank, id)->0[j] == #[trigger] pool_node(
                pool,
                id,
            ).cells[j].key,
        !pool_node(pool, id).is_leaf ==> forall|j: int|
            #![trigger pool_node(pool, id).cells[j]]
            0 <= j < pool_node(pool, id).cells.len() && pool_node(pool, id).cells[j].node_ptr is Some ==> {
                let c = pool_node(pool, id).cells[j].node_ptr->0;
                &&& subtree_keys(pool, rank, c) is Some
                &&& forall|k: Seq<char>|
                    #[trigger] subtree_keys(pool, rank, c)->0.contains(k) ==> subtree_keys(pool, rank, id)->0.contains(k)
            },
{
    let n = pool_node(pool, id);
    if n.is_leaf {
        let ks = n.cells.map_values(|c: CellView| c.key);
        assert(subtree_keys(pool, rank, id)->0 == ks);
        assert forall|j: int| 0 <= j < n.cells.len() implies ks[j] == #[trigger] n.cells[j].key by {}
    } else {
        assert forall|j: int|
            #![trigger n.cells[j]]
            0 <= j < n.cells.len() && n.cells[j].node_ptr is Some implies {
                let c = n.cells[j].node_ptr->0;
                &&& subtree_keys(pool, rank, c) is Some
                &&& forall|k: Seq<char>|
                    #[trigger] subtree_keys(pool, rank, c)->0.contains(k) ==> subtree_keys(pool, rank, id)->0.contains(k)
            } by {
            lemma_children_keys_cover(pool, rank, id, n.cells.len() as int, j, n.cells[j].node_ptr->0);
        }
    }
}

} // verus!
