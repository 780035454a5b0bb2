use vstd::prelude::*;
use crate::buf_config::NB_CELL;

verus! {

/// What happened to a cell since it was loaded: whether it is new, was
/// added to or removed from its node, and whether its list of data pointers
/// changed.
#[derive(Clone)]
pub struct CellChangeState {
    is_new_instance: bool,
    is_added: bool,
    is_removed: bool,
    list_data_pointer_changed: bool,
}

/// The flags of a cell change state.
pub struct CellChangeStateView {
    pub is_new_instance: bool,
    pub is_added: bool,
    pub is_removed: bool,
    pub list_data_pointer_changed: bool,
}

impl View for CellChangeState {
    type V = CellChangeStateView;

    closed spec fn view(&self) -> CellChangeStateView {
        CellChangeStateView {
            is_new_instance: self.is_new_instance,
            is_added: self.is_added,
            is_removed: self.is_removed,
            list_data_pointer_changed: self.list_data_pointer_changed,
        }
    }
}

impl CellChangeState {
    fn new(new: bool) -> (r: Self)
        ensures
            r@ == (CellChangeStateView {
                is_new_instance: new,
                is_added: false,
                is_removed: false,
                list_data_pointer_changed: false,
            }),
    {
        CellChangeState { is_new_instance: new, is_added: false, is_removed: false, list_data_pointer_changed: false }
    }

    fn set_is_removed(&mut self)
        ensures
            final(self)@ == (CellChangeStateView { is_removed: true, ..old(self)@ }),
    {
        self.is_removed = true;
    }

    fn set_is_added(&mut self)
        ensures
            final(self)@ == (CellChangeStateView { is_added: true, ..old(self)@ }),
    {
        self.is_added = true;
    }

    pub fn is_removed(&self) -> (r: bool)
        ensures
            r == self@.is_removed,
    {
        self.is_removed
    }

    pub fn is_added(&self) -> (r: bool)
        ensures
            r == self@.is_added,
    {
        self.is_added
    }

    pub fn did_list_data_ptr_changed(&self) -> (r: bool)
        ensures
            r == self@.list_data_pointer_changed,
    {
        self.list_data_pointer_changed
    }
}

/// A cell of a B-tree node: a key, a pointer to a child node, the ids of the
/// records the key points to, and how the cell changed.
pub struct Cell {
    key: String,
    node_ptr: Option<u64>,
    is_active: bool,
    data_ptrs: Vec<u64>,
    cell_change_state: CellChangeState,
}

/// The contents of a cell.
pub struct CellView {
    pub key: Seq<char>,
    pub node_ptr: Option<u64>,
    pub is_active: bool,
    pub data_ptrs: Seq<u64>,
    pub change_state: CellChangeStateView,
}

impl View for Cell {
    type V = CellView;

    closed spec fn view(&self) -> CellView {
        CellView {
            key: self.key@,
            node_ptr: self.node_ptr,
            is_active: self.is_active,
            data_ptrs: self.data_ptrs@,
            change_state: self.cell_change_state@,
        }
    }
}

/// The state of a cell just made for insertion into a node.
pub open spec fn fresh_state(new: bool) -> CellChangeStateView {
    CellChangeStateView { is_new_instance: new, is_added: false, is_removed: false, list_data_pointer_changed: false }
}

impl Cell {
    /// A new active cell pointing to a child node.
    pub fn new_ptr(key: &str, ptr: Option<u64>) -> (r: Self)
        ensures
            r@ == (CellView { key: key@, node_ptr: ptr, is_active: true, data_ptrs: seq![], change_state: fresh_state(true) }),
    {
        let data_ptrs: Vec<u64> = Vec::new();
        let r = Cell {
            key: key.to_owned(),
            node_ptr: ptr,
            is_active: true,
            data_ptrs,
            cell_change_state: CellChangeState::new(true),
        };
        assert(r@.data_ptrs =~= seq![]);
        r
    }

    /// A new active leaf cell pointing to one record.
    pub fn new_leaf(key: &str, data_ptr: u64) -> (r: Self)
        ensures
            r@ == (CellView {
                key: key@,
                node_ptr: None,
                is_active: true,
                data_ptrs: seq![data_ptr],
                change_state: fresh_state(true),
            }),
    {
        let r = Cell {
            key: key.to_owned(),
            node_ptr: None,
            is_active: true,
            data_ptrs: vec![data_ptr],
            cell_change_state: CellChangeState::new(true),
        };
        assert(r@.data_ptrs =~= seq![data_ptr]);
        r
    }

    /// A cell loaded from storage.
    pub fn new(key: &str, ptr: Option<u64>, data_ptrs: Vec<u64>, is_active: bool) -> (r: Self)
        ensures
            r@ == (CellView { key: key@, node_ptr: ptr, is_active, data_ptrs: data_ptrs@, change_state: fresh_state(false) }),
    {
        Cell {
            key: key.to_owned(),
            node_ptr: ptr,
            is_active: is_active,
            data_ptrs: data_ptrs,
            cell_change_state: CellChangeState::new(false),
        }
    }

    pub fn append_data_ptr(&mut self, data_ptr: u64)
        ensures
            final(self)@ == (CellView {
                data_ptrs: old(self)@.data_ptrs.push(data_ptr),
                change_state: CellChangeStateView { list_data_pointer_changed: true, ..old(self)@.change_state },
                ..old(self)@
            }),
    {
        self.cell_change_state.list_data_pointer_changed = true;
        self.data_ptrs.push(data_ptr);
    }

    /// Removes every occurrence of `data_ptr` from the cell's data pointers,
    /// keeping the order of the others.
    pub fn delete_data_ptr(&mut self, data_ptr: u64)
        ensures
            final(self)@ == (CellView {
                data_ptrs: old(self)@.data_ptrs.filter(|p: u64| p != data_ptr),
                change_state: CellChangeStateView { list_data_pointer_changed: true, ..old(self)@.change_state },
                ..old(self)@
            }),
    {
        self.cell_change_state.list_data_pointer_changed = true;
        let ghost s = self.data_ptrs@;
        let mut kept: Vec<u64> = Vec::new();
        let mut i: usize = 0;
        while i < self.data_ptrs.len()
            invariant
                s == self.data_ptrs@,
                i <= s.len(),
                kept@ == s.take(i as int).filter(|p: u64| p != data_ptr),
            decreases s.len() - i,
        {
            let curr = self.data_ptrs[i];
            proof {
                reveal(Seq::filter);
                assert(s.take(i + 1).drop_last() =~= s.take(i as int));
            }
            if curr != data_ptr {
                kept.push(curr);
            }
            i = i + 1;
        }
        proof {
            assert(s.take(s.len() as int) =~= s);
        }
        self.data_ptrs = kept;
    }

    pub fn get_data_ptrs_ref(&self) -> (r: &Vec<u64>)
        ensures
            r@ == self@.data_ptrs,
    {
        &self.data_ptrs
    }

    pub fn get_node_ptr(&self) -> (r: Option<u64>)
        ensures
            r == self@.node_ptr,
    {
        self.node_ptr
    }

    pub fn get_key(&self) -> (r: &String)
        ensures
            r@ == self@.key,
    {
        &self.key
    }

    pub fn get_change_state(&self) -> (r: &CellChangeState)
        ensures
            r@ == self@.change_state,
    {
        &self.cell_change_state
    }

    pub fn set_node_ptr(&mut self, id: Option<u64>)
        ensures
            final(self)@ == (CellView { node_ptr: id, ..old(self)@ }),
    {
        self.node_ptr = id;
    }
}

/// One change made to the list of cells of a node: a cell added or removed
/// at a position.
pub struct CellChangeLogItem {
    is_add: bool,
    is_remove: bool,
    index: usize,
}

/// A change of the cells of a node.
pub struct CellChangeLogView {
    pub is_add: bool,
    pub is_remove: bool,
    pub index: usize,
}

impl View for CellChangeLogItem {
    type V = CellChangeLogView;

    closed spec fn view(&self) -> CellChangeLogView {
        CellChangeLogView { is_add: self.is_add, is_remove: self.is_remove, index: self.index }
    }
}

impl CellChangeLogItem {
    fn new(index: usize, is_added: bool, is_removed: bool) -> (r: Self)
        ensures
            r@ == (CellChangeLogView { is_add: is_added, is_remove: is_removed, index }),
    {
        CellChangeLogItem { is_add: is_added, is_remove: is_removed, index: index }
    }

    pub fn is_remove(&self) -> (r: bool)
        ensures
            r == self@.is_remove,
    {
        self.is_remove
    }

    pub fn is_add(&self) -> (r: bool)
        ensures
            r == self@.is_add,
    {
        self.is_add
    }

    pub fn index(&self) -> (r: usize)
        ensures
            r == self@.index,
    {
        self.index
    }
}

/// What happened to a node since it was loaded: whether its pointer
/// changed, whether it is new, and the changes made to its cells, oldest
/// first.
pub struct NodeChangeState {
    node_ptr_changed: bool,
    is_new_instance: bool,
    list_cell_change_log_items: Vec<CellChangeLogItem>,
}

/// The changes of a node.
pub struct NodeChangeStateView {
    pub node_ptr_changed: bool,
    pub is_new_instance: bool,
    pub log: Seq<CellChangeLogView>,
}

impl View for NodeChangeState {
    type V = NodeChangeStateView;

    closed spec fn view(&self) -> NodeChangeStateView {
        NodeChangeStateView {
            node_ptr_changed: self.node_ptr_changed,
            is_new_instance: self.is_new_instance,
            log: self.list_cell_change_log_items@.map_values(|c: CellChangeLogItem| c@),
        }
    }
}

impl NodeChangeState {
    fn new(is_new_instance: bool) -> (r: Self)
        ensures
            r@ == (NodeChangeStateView { node_ptr_changed: false, is_new_instance, log: seq![] }),
    {
        let r = NodeChangeState {
            node_ptr_changed: false,
            is_new_instance: is_new_instance,
            list_cell_change_log_items: Vec::new(),
        };
        assert(r@.log =~= seq![]);
        r
    }

    pub fn did_node_ptr_changed(&self) -> (r: bool)
        ensures
            r == self@.node_ptr_changed,
    {
        self.node_ptr_changed
    }

    pub fn is_new_instance(&self) -> (r: bool)
        ensures
            r == self@.is_new_instance,
    {
        self.is_new_instance
    }

    pub fn get_list_change_log(&self) -> (r: &Vec<CellChangeLogItem>)
        ensures
            r@.map_values(|c: CellChangeLogItem| c@) == self@.log,
    {
        &self.list_cell_change_log_items
    }

    fn push_log(&mut self, item: CellChangeLogItem)
        ensures
            final(self)@ == (NodeChangeStateView { log: old(self)@.log.push(item@), ..old(self)@ }),
    {
        let ghost before = self.list_cell_change_log_items@;
        self.list_cell_change_log_items.push(item);
        assert(self.list_cell_change_log_items@.map_values(|c: CellChangeLogItem| c@) =~= before.map_values(
            |c: CellChangeLogItem| c@,
        ).push(item@));
    }
}

/// A node of the B-tree index in memory.
pub struct BTreeNode {
    id: Option<u64>,
    cells: Vec<Cell>,
    node_ptr: Option<u64>,
    is_leaf: bool,
    is_root: bool,
    node_change_state: NodeChangeState,
}

/// The contents of a B-tree node.
pub struct BTreeNodeView {
    pub id: Option<u64>,
    pub cells: Seq<CellView>,
    pub node_ptr: Option<u64>,
    pub is_leaf: bool,
    pub is_root: bool,
    pub change_state: NodeChangeStateView,
}

impl View for BTreeNode {
    type V = BTreeNodeView;

    closed spec fn view(&self) -> BTreeNodeView {
        BTreeNodeView {
            id: self.id,
            cells: cell_views(self.cells@),
            node_ptr: self.node_ptr,
            is_leaf: self.is_leaf,
            is_root: self.is_root,
            change_state: self.node_change_state@,
        }
    }
}

/// The contents of each cell of a sequence.
pub open spec fn cell_views(s: Seq<Cell>) -> Seq<CellView> {
    s.map_values(|c: Cell| c@)
}

/// The keys of the active cells among `cells`, in order.
pub open spec fn active_keys(cells: Seq<CellView>) -> Seq<Seq<char>>
    decreases cells.len(),
{
    if cells.len() == 0 {
        seq![]
    } else if cells.last().is_active {
        active_keys(cells.drop_last()).push(cells.last().key)
    } else {
        active_keys(cells.drop_last())
    }
}

impl BTreeNode {
    /// A node made in memory, not loaded from storage.
    pub fn new(is_leaf: bool, is_root: bool, cells: Vec<Cell>) -> (r: Self)
        ensures
            r@ == (BTreeNodeView {
                id: None,
                cells: cell_views(cells@),
                node_ptr: None,
                is_leaf,
                is_root,
                change_state: NodeChangeStateView { node_ptr_changed: false, is_new_instance: true, log: seq![] },
            }),
    {
        let state = NodeChangeState::new(true);
        BTreeNode { id: None, cells: cells, node_ptr: None, is_leaf: is_leaf, is_root: is_root, node_change_state: state }
    }

    /// A node loaded from storage.
    pub fn new_with_id(id: Option<u64>, node_ptr: Option<u64>, is_leaf: bool, is_root: bool, cells: Vec<Cell>) -> (r: Self)
        ensures
            r@ == (BTreeNodeView {
                id,
                cells: cell_views(cells@),
                node_ptr,
                is_leaf,
                is_root,
                change_state: NodeChangeStateView { node_ptr_changed: false, is_new_instance: false, log: seq![] },
            }),
    {
        let state = NodeChangeState::new(false);
        BTreeNode { id: id, cells: cells, node_ptr: node_ptr, is_leaf: is_leaf, is_root: is_root, node_change_state: state }
    }

    pub fn is_full(&self) -> (r: bool)
        ensures
            r == (self@.cells.len() == NB_CELL),
    {
        self.cells.len() == NB_CELL
    }

    /// The keys of the active cells, in order.
    pub fn get_keys(&self) -> (r: Vec<&str>)
        ensures
            r@.map_values(|k: &str| k@) == active_keys(self@.cells),
    {
        let mut res: Vec<&str> = Vec::new();
        let mut i: usize = 0;
        while i < self.cells.len()
            invariant
                i <= self.cells@.len(),
                res@.map_values(|k: &str| k@) == active_keys(self@.cells.take(i as int)),
            decreases self.cells@.len() - i,
        {
            let cell = &self.cells[i];
            let ghost before = res@;
            proof {
                assert(self@.cells.take(i + 1).drop_last() =~= self@.cells.take(i as int));
            }
            if cell.is_active {
                res.push(cell.key.as_str());
                assert(res@.map_values(|k: &str| k@) =~= before.map_values(|k: &str| k@).push(cell.key@));
            }
            i = i + 1;
        }
        proof {
            assert(self@.cells.take(self@.cells.len() as int) =~= self@.cells);
        }
        res
    }

    pub fn get_cells_ref(&self) -> (r: &Vec<Cell>)
        ensures
            cell_views(r@) == self@.cells,
    {
        &self.cells
    }

    pub fn get_cell_ref(&self, index: usize) -> (r: &Cell)
        requires
            index < self@.cells.len(),
        ensures
            r@ == self@.cells[index as int],
    {
        &self.cells[index]
    }

    /// Inserts `cell` at `index`, marked as added, and logs the insertion.
    pub fn insert_cell(&mut self, index: usize, cell: Cell)
        requires
            index <= old(self)@.cells.len(),
        ensures
            final(self)@ == (BTreeNodeView {
                cells: old(self)@.cells.insert(
                    index as int,
                    CellView { change_state: CellChangeStateView { is_added: true, ..cell@.change_state }, ..cell@ },
                ),
                change_state: NodeChangeStateView {
                    log: old(self)@.change_state.log.push(CellChangeLogView { is_add: true, is_remove: false, index }),
                    ..old(self)@.change_state
                },
                ..old(self)@
            }),
    {
        let mut cell = cell;
        cell.cell_change_state.set_is_added();
        let cell_change_log = CellChangeLogItem::new(index, true, false);
        self.node_change_state.push_log(cell_change_log);
        let ghost before = self.cells@;
        self.cells.insert(index, cell);
        assert(cell_views(self.cells@) =~= cell_views(before).insert(index as int, cell@));
    }

    /// Marks the cell at `index` as removed, and logs the removal; the cell
    /// stays in the node.
    pub fn remove_cell(&mut self, index: usize)
        requires
            index < old(self)@.cells.len(),
        ensures
            final(self)@ == (BTreeNodeView {
                cells: old(self)@.cells.update(
                    index as int,
                    CellView {
                        change_state: CellChangeStateView { is_removed: true, ..old(self)@.cells[index as int].change_state },
                        ..old(self)@.cells[index as int]
                    },
                ),
                change_state: NodeChangeStateView {
                    log: old(self)@.change_state.log.push(CellChangeLogView { is_add: false, is_remove: true, index }),
                    ..old(self)@.change_state
                },
                ..old(self)@
            }),
    {
        let ghost before = self.cells@;
        let to_remove = &mut self.cells[index];
        to_remove.cell_change_state.set_is_removed();
        let cell_change_log = CellChangeLogItem::new(index, false, true);
        self.node_change_state.push_log(cell_change_log);
        assert(cell_views(self.cells@) =~= cell_views(before).update(
            index as int,
            self.cells@[index as int]@,
        ));
    }

    /// Takes the last cell out of the node, marked as removed, and logs the
    /// removal; `None` when the node has no cell.
    pub fn pop_cell(&mut self) -> (r: Option<Cell>)
        ensures
            old(self)@.cells.len() == 0 ==> r is None && final(self)@ == old(self)@,
            old(self)@.cells.len() > 0 ==> {
                &&& r is Some
                &&& r->0@ == CellView {
                    change_state: CellChangeStateView { is_removed: true, ..old(self)@.cells.last().change_state },
                    ..old(self)@.cells.last()
                }
                &&& final(self)@ == BTreeNodeView {
                    cells: old(self)@.cells.drop_last(),
                    change_state: NodeChangeStateView {
                        log: old(self)@.change_state.log.push(
                            CellChangeLogView { is_add: false, is_remove: true, index: (old(self)@.cells.len() - 1) as usize },
                        ),
                        ..old(self)@.change_state
                    },
                    ..old(self)@
                }
            },
    {
        let ghost before = self.cells@;
        let mut cell = match self.cells.pop() {
            Some(c) => c,
            None => {
                return None;
            },
        };
        assert(cell_views(self.cells@) =~= cell_views(before).drop_last());
        let cell_change_log = CellChangeLogItem::new(self.cells.len(), false, true);
        self.node_change_state.push_log(cell_change_log);
        cell.cell_change_state.set_is_removed();
        Some(cell)
    }

    pub fn get_cell_mut(&mut self, index: usize) -> (r: &mut Cell)
        requires
            index < old(self)@.cells.len(),
        ensures
            r@ == old(self)@.cells[index as int],
            final(self)@ == (BTreeNodeView { cells: old(self)@.cells.update(index as int, final(r)@), ..old(self)@ }),
    {
        let ghost before = self.cells@;
        let r = &mut self.cells[index];
        proof {
            assert forall|c: Cell| #[trigger] cell_views(before.update(index as int, c)) =~= cell_views(before).update(index as int, c@) by {}
        }
        r
    }

    pub fn is_leaf(&self) -> (r: bool)
        ensures
            r == self@.is_leaf,
    {
        self.is_leaf
    }

    pub fn set_is_root(&mut self, is_root: bool)
        ensures
            final(self)@ == (BTreeNodeView { is_root, ..old(self)@ }),
    {
        self.is_root = is_root;
    }

    pub fn is_root(&self) -> (r: bool)
        ensures
            r == self@.is_root,
    {
        self.is_root
    }

    pub fn get_id(&self) -> (r: Option<u64>)
        ensures
            r == self@.id,
    {
        self.id
    }

    pub fn set_id(&mut self, id: u64)
        ensures
            final(self)@ == (BTreeNodeView { id: Some(id), ..old(self)@ }),
    {
        self.id = Some(id);
    }

    pub fn get_node_ptr(&self) -> (r: Option<u64>)
        ensures
            r == self@.node_ptr,
    {
        self.node_ptr
    }

    /// Sets the node's pointer and records that it changed.
    pub fn set_node_ptr(&mut self, id: Option<u64>)
        ensures
            final(self)@ == (BTreeNodeView {
                node_ptr: id,
                change_state: NodeChangeStateView { node_ptr_changed: true, ..old(self)@.change_state },
                ..old(self)@
            }),
    {
        self.node_change_state.node_ptr_changed = true;
        self.node_ptr = id;
    }

    pub fn get_node_changes_state(&self) -> (r: &NodeChangeState)
        ensures
            r@ == self@.change_state,
    {
        &self.node_change_state
    }
}

} // verus!
