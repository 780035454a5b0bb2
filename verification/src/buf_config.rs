use vstd::prelude::*;

verus! {

/// Size in bytes of a page of a records file.
pub const PAGE_SIZE: usize = 4096;

/// Size of the page counter stored at the start of the header page.
pub const PAGE_COUNTER_SIZE: usize = 8;
/// Size of the pointer to the first page holding a free record slot.
pub const FIRST_FREE_PAGE_PTR: usize = 8;
/// Size of each records counter of the header page.
pub const RECORDS_COUNTER_SIZE: usize = 8;

/// Size of the flags byte at the start of each records page.
pub const HEADER_FLAGS: usize = 1;
/// Size of the next-free-page pointer of a records page.
pub const NEXT_FREE_PAGE_PTR: usize = 8;
/// Size of a page pointer.
pub const NEXT_PAGE_PTR: usize = 8;
/// Size of the counter of free record slots of a records page.
pub const FREE_LIST_ITEM_COUNTER_SIZE: usize = 4;
/// Size of one entry of the free record slots list.
pub const FREE_LIST_PTR_SIZE: usize = 4;
/// Size of the fixed part of a records page header.
pub const HEADER_SIZE: usize = HEADER_FLAGS + NEXT_FREE_PAGE_PTR + FREE_LIST_ITEM_COUNTER_SIZE;
/// Flag of the first header byte telling that the page is in use.
pub const IS_PAGE_IN_USE_FLAG: u8 = 0b0100_0000;

/// Size of a node id.
pub const NODE_ID_SIZE: usize = 8;
/// Size of a relationship id.
pub const RELATIONSHIP_ID_SIZE: usize = 8;
/// Size of a property id.
pub const PROPERTY_ID_SIZE: usize = 8;
/// Size of a node type (label set id).
pub const NODE_TYPE_SIZE: usize = 8;
/// Size of a relationship type (label set id).
pub const RELATIONSHIP_TYPE_SIZE: usize = 8;

/// Size of an encoded node record.
pub const NODE_RECORD_SIZE: usize = RELATIONSHIP_ID_SIZE + RELATIONSHIP_ID_SIZE + PROPERTY_ID_SIZE + NODE_TYPE_SIZE;
/// Size of an encoded relationship record.
pub const RELATIONSHIP_RECORD_SIZE: usize = NODE_ID_SIZE + NODE_ID_SIZE + RELATIONSHIP_TYPE_SIZE + RELATIONSHIP_ID_SIZE + RELATIONSHIP_ID_SIZE + PROPERTY_ID_SIZE;
/// Size of an encoded property record.
pub const PROPERTY_RECORD_SIZE: usize = 42;
/// Size of the value block of a property record.
pub const PROPERTY_BLOCK_SIZE: usize = 24;
/// Size of an encoded dynamic store record.
pub const DYN_RECORD_SIZE: usize = 129;
/// Size of the payload of a dynamic store record.
pub const DYN_PAYLOAD_SIZE: usize = 120;

/// Number of node records per page.
pub const NODE_NB_RECORDS_PER_PAGE: usize = (PAGE_SIZE - HEADER_SIZE) / (NODE_RECORD_SIZE + FREE_LIST_PTR_SIZE);
/// Number of pages per node record (records spanning several pages).
pub const NODE_NB_PAGES_PER_RECORD: usize = 0;
/// Number of relationship records per page.
pub const RELATIONSHIP_NB_RECORDS_PER_PAGE: usize = (PAGE_SIZE - HEADER_SIZE) / (RELATIONSHIP_RECORD_SIZE + FREE_LIST_PTR_SIZE);
/// Number of pages per relationship record.
pub const RELATIONSHIP_NB_PAGES_PER_RECORD: usize = 0;
/// Number of property records per page.
pub const PROPERTY_NB_RECORDS_PER_PAGE: usize = (PAGE_SIZE - HEADER_SIZE) / (PROPERTY_RECORD_SIZE + FREE_LIST_PTR_SIZE);
/// Number of pages per property record.
pub const PROPERTY_NB_PAGES_PER_RECORD: usize = 0;

/// Size of the header byte of a B-tree cell record.
pub const CELL_HEADER_SIZE: usize = 1;
/// Size of a B-tree node pointer.
pub const NODE_PTR_SIZE: usize = 8;
/// Size of the overflow cell pointer of a cell record.
pub const OVERFLOW_CELL_PTR_SIZE: usize = 4;
/// Size of the key chunk stored in one cell record.
pub const KEY_SIZE: usize = 64;
/// Size of an encoded cell record.
pub const CELL_SIZE: usize = CELL_HEADER_SIZE + NODE_PTR_SIZE + OVERFLOW_CELL_PTR_SIZE + KEY_SIZE;
/// Number of cells of a B-tree node.
pub const NB_CELL: usize = 10;
/// Size of the header byte of a B-tree node record.
pub const BTREE_NODE_HEADER_SIZE: usize = 1;
/// Size of the pointer to the next node holding free cells.
pub const FREE_CELLS_NEXT_NODE_PTR_SIZE: usize = 8;
/// Size of an encoded B-tree node record.
pub const BTREE_NODE_RECORD_SIZE: usize = BTREE_NODE_HEADER_SIZE + NODE_PTR_SIZE + FREE_CELLS_NEXT_NODE_PTR_SIZE + NB_CELL * CELL_SIZE;
/// Number of B-tree node records per page.
pub const BTREE_NB_RECORDS_PER_PAGE: usize = (PAGE_SIZE - HEADER_SIZE) / (BTREE_NODE_RECORD_SIZE + FREE_LIST_PTR_SIZE);
/// Number of pages per B-tree node record.
pub const BTREE_NB_PAGES_PER_RECORD: usize = 0;

} // verus!
