use vstd::prelude::*;
use crate::buf_config::{
    PAGE_SIZE, HEADER_SIZE, HEADER_FLAGS, NEXT_FREE_PAGE_PTR, FREE_LIST_ITEM_COUNTER_SIZE, FREE_LIST_PTR_SIZE,
    NEXT_PAGE_PTR, IS_PAGE_IN_USE_FLAG,
};
use crate::byte_utils::{
    spec_u64_to_be, spec_u64_from_be, spec_u32_to_be, spec_u32_from_be, u64_to_bytes, u64_from_bytes,
    u32_to_bytes, u32_from_bytes_at, write_at, read_into,
};
use crate::repository::pager::{Bounds, with_bytes};

verus! {

/// Error of a records manager.
#[derive(Debug, Clone)]
pub enum RecordsManagerError {
    NotFound,
}

/// Flag of the first byte of a page telling that a record continues on
/// the next page.
pub const MULTI_PAGE_RECORD_FLAG: u8 = 0b1000_0000;

/// Where the parts of a records page stand: the flags byte, the pointer to
/// the next page with free slots, the length and the entries of the list of
/// free record slots, and the payload.
#[derive(Debug, Copy, Clone)]
pub struct PageMap {
    pub header_flags: Bounds,
    pub next_free_page_ptr: Bounds,
    pub free_list_len: Bounds,
    pub free_list_capacity: usize,
    pub free_list: Bounds,
    pub payload: Bounds,
    pub nb_pages_per_record: usize,
    pub nb_records_per_page: usize,
    pub is_multi_page_record: bool,
}

/// Position of the first free list entry in a records page.
pub open spec fn free_list_begin() -> int {
    (HEADER_FLAGS + NEXT_FREE_PAGE_PTR + FREE_LIST_ITEM_COUNTER_SIZE) as int
}

/// The layout of a page holding `n` records, each spanning `m` pages.
pub open spec fn spec_page_map(n: usize, m: usize) -> PageMap {
    PageMap {
        header_flags: Bounds { begin: 0, end: HEADER_FLAGS },
        next_free_page_ptr: Bounds { begin: HEADER_FLAGS, end: (HEADER_FLAGS + NEXT_FREE_PAGE_PTR) as usize },
        free_list_len: Bounds { begin: (HEADER_FLAGS + NEXT_FREE_PAGE_PTR) as usize, end: free_list_begin() as usize },
        free_list: Bounds { begin: free_list_begin() as usize, end: (free_list_begin() + 4 * n) as usize },
        free_list_capacity: n,
        nb_pages_per_record: m,
        nb_records_per_page: n,
        is_multi_page_record: m != 0,
        payload: Bounds { begin: (free_list_begin() + 4 * n) as usize, end: PAGE_SIZE },
    }
}

/// The number of records of `record_size` bytes that fit in a page.
pub fn max_nb_records(record_size: usize) -> (r: usize)
    requires
        record_size > 0,
    ensures
        r == (PAGE_SIZE - HEADER_SIZE) / (record_size as int),
{
    (PAGE_SIZE - HEADER_SIZE) / record_size
}

/// The bytes of a page left over by records of `record_size` bytes.
pub fn compute_unused_page_size(record_size: usize) -> (r: usize)
    requires
        record_size > 0,
    ensures
        r == (PAGE_SIZE - HEADER_SIZE) % (record_size as int),
{
    (PAGE_SIZE - HEADER_SIZE) % record_size
}

/// The size of a free list of `free_list_capacity` entries.
pub fn compute_freelist_size(free_list_capacity: usize) -> (r: usize)
    requires
        FREE_LIST_PTR_SIZE * free_list_capacity <= usize::MAX,
    ensures
        r == FREE_LIST_PTR_SIZE * free_list_capacity,
{
    FREE_LIST_PTR_SIZE * free_list_capacity
}

/// The number of whole page payloads a record of `record_size` bytes fills.
pub fn compute_nb_pages_per_record(record_size: usize, page_payload_size: usize) -> (r: usize)
    requires
        page_payload_size > 0,
    ensures
        r == record_size / page_payload_size,
{
    record_size / page_payload_size
}

/// The layout of a page holding `nb_records_per_page` records, each spanning
/// `nb_pages_per_record` pages.
pub fn compute_page_map(nb_records_per_page: usize, nb_pages_per_record: usize) -> (r: PageMap)
    requires
        free_list_begin() + 4 * nb_records_per_page <= usize::MAX,
    ensures
        r == spec_page_map(nb_records_per_page, nb_pages_per_record),
{
    let free_list_size = compute_freelist_size(nb_records_per_page);
    let header_flags_bounds = Bounds::new(0, HEADER_FLAGS);
    let next_free_page_ptr_bounds = header_flags_bounds.shift(NEXT_FREE_PAGE_PTR);
    let free_list_len = next_free_page_ptr_bounds.shift(FREE_LIST_ITEM_COUNTER_SIZE);
    let free_list_bounds = free_list_len.shift(free_list_size);
    let payload_bounds = Bounds::new(free_list_bounds.end, PAGE_SIZE);
    PageMap {
        header_flags: header_flags_bounds,
        next_free_page_ptr: next_free_page_ptr_bounds,
        free_list_len,
        free_list: free_list_bounds,
        free_list_capacity: nb_records_per_page,
        nb_pages_per_record,
        nb_records_per_page,
        is_multi_page_record: nb_pages_per_record != 0,
        payload: payload_bounds,
    }
}

/// Where a record stands: its page, its slot in the page, its position in
/// the page and in the page's payload, and over how many pages it spans.
pub struct RecordLocation {
    pub page_id: u64,
    pub record_id_in_page: usize,
    pub page_record_address: usize,
    pub payload_record_address: usize,
    pub nb_pages_per_record: usize,
    pub is_multi_pages_record: bool,
}

/// Where the record `record_id` (counted from 1) of `record_size` bytes
/// stands in a file whose pages have the layout `page_map`: a record that
/// spans pages starts a run of pages of its own; other records are packed
/// in page order, as many per page as the payload holds.
pub fn compute_location(page_map: &PageMap, record_size: usize, record_id: u64) -> (r: RecordLocation)
    requires
        record_id >= 1,
        record_size > 0,
        page_map.payload.begin <= page_map.payload.end,
        page_map.is_multi_page_record ==> page_map.payload.end - page_map.payload.begin > 0 && ((record_size as int) / (
        page_map.payload.end - page_map.payload.begin)) * (record_id - 1) + 1 <= u64::MAX,
        !page_map.is_multi_page_record ==> (page_map.payload.end - page_map.payload.begin) / (record_size as int) > 0
            && page_map.payload.begin + record_size * ((record_id - 1) % ((page_map.payload.end
            - page_map.payload.begin) / (record_size as int))) <= usize::MAX,
    ensures
        ({
            let payload_size = page_map.payload.end - page_map.payload.begin;
            let per_page = payload_size / (record_size as int);
            let ptr = record_id - 1;
            if page_map.is_multi_page_record {
                let pages = (record_size as int) / payload_size;
                r == RecordLocation {
                    page_id: (1 + pages * ptr) as u64,
                    record_id_in_page: 0,
                    page_record_address: page_map.payload.begin,
                    payload_record_address: 0,
                    nb_pages_per_record: pages as usize,
                    is_multi_pages_record: true,
                }
            } else {
                let slot = ptr % per_page;
                r == RecordLocation {
                    page_id: (1 + ptr / per_page) as u64,
                    record_id_in_page: slot as usize,
                    page_record_address: (page_map.payload.begin + record_size * slot) as usize,
                    payload_record_address: (record_size * slot) as usize,
                    nb_pages_per_record: 0,
                    is_multi_pages_record: false,
                }
            }
        }),
{
    let record_ptr = record_id - 1;
    let page_payload_size = page_map.payload.len();
    let nb_records_per_page = page_payload_size / record_size;
    if page_map.is_multi_page_record {
        let nb_pages_per_record = record_size / page_payload_size;
        assert(nb_pages_per_record as u64 * record_ptr <= u64::MAX) by (nonlinear_arith)
            requires
                (nb_pages_per_record as int) * (record_ptr as int) + 1 <= u64::MAX,
        ;
        RecordLocation {
            page_id: 1 + (nb_pages_per_record as u64 * record_ptr),
            record_id_in_page: 0,
            page_record_address: page_map.payload.begin,
            payload_record_address: 0,
            nb_pages_per_record,
            is_multi_pages_record: true,
        }
    } else {
        let page_record_id = (record_ptr % nb_records_per_page as u64) as usize;
        assert(record_size * page_record_id <= usize::MAX) by (nonlinear_arith)
            requires
                page_map.payload.begin + record_size * page_record_id <= usize::MAX,
        ;
        assert(record_ptr / (nb_records_per_page as u64) < u64::MAX) by (nonlinear_arith)
            requires
                nb_records_per_page > 0,
                record_ptr < u64::MAX,
        ;
        RecordLocation {
            page_id: 1 + (record_ptr / nb_records_per_page as u64),
            record_id_in_page: page_record_id,
            page_record_address: page_map.payload.begin + record_size * page_record_id,
            payload_record_address: record_size * page_record_id,
            nb_pages_per_record: 0,
            is_multi_pages_record: false,
        }
    }
}


/// A page layout of the shape `compute_page_map` builds, whose free list
/// fits in the page.
pub open spec fn page_map_wf(m: PageMap) -> bool {
    &&& m == spec_page_map(m.nb_records_per_page, m.nb_pages_per_record)
    &&& free_list_begin() + 4 * m.nb_records_per_page <= PAGE_SIZE
}

/// The free list length recorded in a page.
pub open spec fn spec_free_list_len(p: Seq<u8>) -> usize {
    spec_u32_from_be(p.subrange(9, 13)) as usize
}

/// The `k`-th entry of the free list of a page.
pub open spec fn spec_free_list_entry(p: Seq<u8>, k: int) -> usize {
    spec_u32_from_be(p.subrange(free_list_begin() + 4 * k, free_list_begin() + 4 * k + 4)) as usize
}

/// The first `len` entries of the free list of a page.
pub open spec fn spec_free_list(p: Seq<u8>, len: int) -> Seq<usize> {
    Seq::new(len as nat, |k: int| spec_free_list_entry(p, k))
}

/// The four big-endian bytes of each id, one after the other, each id cut
/// to 32 bits.
pub open spec fn ids_bytes(s: Seq<usize>) -> Seq<u8>
    decreases s.len(),
{
    if s.len() == 0 {
        seq![]
    } else {
        ids_bytes(s.drop_last()) + spec_u32_to_be(s.last() as u32)
    }
}

/// A sequence in increasing order.
pub open spec fn sorted(s: Seq<usize>) -> bool {
    forall|i: int, j: int| 0 <= i < j < s.len() ==> s[i] <= s[j]
}

/// Calls `slice::sort` on the ids: afterwards they are in increasing order
/// and are the same ids, each as often as before.
#[verifier::external_body]
fn sort_ids(v: &mut Vec<usize>)
    ensures
        sorted(final(v)@),
        final(v)@.to_multiset() == old(v)@.to_multiset(),
{
    v.sort();
}

proof fn lemma_ids_bytes_len(s: Seq<usize>)
    ensures
        ids_bytes(s).len() == 4 * s.len(),
    decreases s.len(),
{
    if s.len() > 0 {
        lemma_ids_bytes_len(s.drop_last());
    }
}

/// Writing two runs of bytes one after the other writes their concatenation.
proof fn lemma_with_bytes_twice(d: Seq<u8>, b: int, x: Seq<u8>, y: Seq<u8>)
    requires
        0 <= b,
        b + x.len() + y.len() <= d.len(),
    ensures
        with_bytes(with_bytes(d, b, x), b + x.len(), y) == with_bytes(d, b, x + y),
{
    assert(with_bytes(with_bytes(d, b, x), b + x.len(), y) =~= with_bytes(d, b, x + y));
}

/// A records page together with its id and its layout.
pub struct RecordPageWrapper {
    page: [u8; PAGE_SIZE],
    page_map: PageMap,
    page_id: u64,
}

impl RecordPageWrapper {
    pub closed spec fn spec_page(&self) -> Seq<u8> {
        self.page@
    }

    pub closed spec fn spec_page_map(&self) -> PageMap {
        self.page_map
    }

    pub closed spec fn spec_id(&self) -> u64 {
        self.page_id
    }

    /// The page's layout is a well-formed one.
    pub open spec fn wf(&self) -> bool {
        page_map_wf(self.spec_page_map())
    }

    /// The wrapper keeps its id and layout, and its page has the given bytes.
    pub open spec fn same_but_page(&self, other: &Self, page: Seq<u8>) -> bool {
        &&& self.spec_id() == other.spec_id()
        &&& self.spec_page_map() == other.spec_page_map()
        &&& self.spec_page() == page
    }

    pub fn new(page_id: u64, page: [u8; PAGE_SIZE], page_map: PageMap) -> (r: Self)
        ensures
            r.spec_id() == page_id,
            r.spec_page() == page@,
            r.spec_page_map() == page_map,
    {
        RecordPageWrapper { page, page_map, page_id }
    }

    /// The bytes of the page.
    pub fn into_page(self) -> (r: [u8; PAGE_SIZE])
        ensures
            r@ == self.spec_page(),
    {
        self.page
    }

    pub fn get_id(&self) -> (r: u64)
        ensures
            r == self.spec_id(),
    {
        self.page_id
    }

    /// Whether the record of this page continues on the next page.
    pub fn has_next_page_record(&self) -> (r: bool)
        ensures
            r == (self.spec_page()[0] & MULTI_PAGE_RECORD_FLAG > 0),
    {
        (self.page[0] & MULTI_PAGE_RECORD_FLAG) > 0
    }

    pub fn set_page_in_use(&mut self)
        ensures
            final(self).same_but_page(old(self), old(self).spec_page().update(0, old(self).spec_page()[0] | IS_PAGE_IN_USE_FLAG)),
    {
        self.page[0] |= IS_PAGE_IN_USE_FLAG;
    }

    pub fn is_page_in_use(&self) -> (r: bool)
        ensures
            r == (self.spec_page()[0] & IS_PAGE_IN_USE_FLAG > 0),
    {
        (self.page[0] & IS_PAGE_IN_USE_FLAG) > 0
    }

    /// The next page holding free record slots, zero when there is none.
    pub fn get_free_next_page_ptr(&self) -> (r: u64)
        requires
            self.wf(),
        ensures
            r == spec_u64_from_be(self.spec_page().subrange(1, 9)),
    {
        let mut bytes = [0u8; NEXT_PAGE_PTR];
        self.read_from_bounds(self.page_map.next_free_page_ptr, &mut bytes);
        u64_from_bytes(&bytes)
    }

    pub fn set_free_next_page_ptr(&mut self, id: u64)
        requires
            old(self).wf(),
        ensures
            final(self).same_but_page(old(self), with_bytes(old(self).spec_page(), 1, spec_u64_to_be(id))),
    {
        let bounds = self.page_map.next_free_page_ptr;
        self.write_to_bounds(bounds, &u64_to_bytes(id));
    }

    pub fn read_from_bounds(&self, bounds: Bounds, bytes: &mut [u8])
        requires
            bounds.begin <= bounds.end <= PAGE_SIZE,
            old(bytes)@.len() == bounds.end - bounds.begin,
        ensures
            final(bytes)@ == self.spec_page().subrange(bounds.begin as int, bounds.end as int),
    {
        read_into(&self.page, bounds.begin, bytes);
    }

    pub fn write_to_bounds(&mut self, bounds: Bounds, bytes: &[u8])
        requires
            bounds.begin <= bounds.end <= PAGE_SIZE,
            bytes@.len() == bounds.end - bounds.begin,
        ensures
            final(self).same_but_page(old(self), with_bytes(old(self).spec_page(), bounds.begin as int, bytes@)),
    {
        write_at(&mut self.page, bounds.begin, bytes);
    }

    /// The number of entries of the page's free list.
    pub fn get_free_list_len(&self) -> (r: usize)
        requires
            self.wf(),
        ensures
            r == spec_free_list_len(self.spec_page()),
    {
        let mut bytes = [0u8; FREE_LIST_ITEM_COUNTER_SIZE];
        self.read_from_bounds(self.page_map.free_list_len, &mut bytes);
        u32_from_bytes_at(&bytes, 0) as usize
    }

    /// Records `len`, cut to 32 bits, as the number of free list entries.
    pub fn set_free_list_len(&mut self, len: usize)
        requires
            old(self).wf(),
        ensures
            final(self).same_but_page(old(self), with_bytes(old(self).spec_page(), 9, spec_u32_to_be(len as u32))),
    {
        let bounds = self.page_map.free_list_len;
        self.write_to_bounds(bounds, &u32_to_bytes(#[verifier::truncate] (len as u32)));
    }

    /// The entries of the page's free list, in order.
    pub fn get_page_free_list(&self) -> (r: Vec<usize>)
        requires
            self.wf(),
            spec_free_list_len(self.spec_page()) <= self.spec_page_map().free_list_capacity,
        ensures
            r@ == spec_free_list(self.spec_page(), spec_free_list_len(self.spec_page()) as int),
    {
        let mut res: Vec<usize> = Vec::new();
        let free_list_len = self.get_free_list_len();
        let begin = self.page_map.free_list.begin;
        let mut count: usize = 0;
        while count < free_list_len
            invariant
                self.wf(),
                begin == free_list_begin(),
                free_list_len == spec_free_list_len(self.spec_page()),
                free_list_len <= self.spec_page_map().free_list_capacity,
                count <= free_list_len,
                res@ == spec_free_list(self.spec_page(), count as int),
            decreases free_list_len - count,
        {
            let offset = count * FREE_LIST_PTR_SIZE;
            let v = u32_from_bytes_at(&self.page, begin + offset);
            res.push(v as usize);
            assert(res@ =~= spec_free_list(self.spec_page(), count + 1));
            count = count + 1;
        }
        res
    }

    /// Makes every record slot of the page free: the free list becomes the
    /// slots `0, 1, ..` in order, one per record the page holds.
    pub fn init_page_free_list(&mut self)
        requires
            old(self).wf(),
        ensures
            final(self).spec_id() == old(self).spec_id(),
            final(self).spec_page_map() == old(self).spec_page_map(),
            final(self).spec_page().len() == PAGE_SIZE,
            spec_free_list_len(final(self).spec_page()) == old(self).spec_page_map().nb_records_per_page,
            forall|k: int|
                0 <= k < old(self).spec_page_map().nb_records_per_page ==> #[trigger] spec_free_list_entry(
                    final(self).spec_page(),
                    k,
                ) == k,
            forall|i: int|
                0 <= i < PAGE_SIZE && !(9 <= i < free_list_begin() + 4 * old(self).spec_page_map().nb_records_per_page)
                    ==> final(self).spec_page()[i] == old(self).spec_page()[i],
    {
        let free_list_len = self.page_map.nb_records_per_page;
        self.set_free_list_len(free_list_len);
        let free_list_bounds = self.page_map.free_list;
        proof {
            crate::byte_utils::lemma_u32_be_value_roundtrip(free_list_len as u32);
            assert(self.spec_page().subrange(9, 13) =~= spec_u32_to_be(free_list_len as u32));
        }
        let ghost p1 = self.spec_page();
        let mut count: usize = 0;
        while count < free_list_len
            invariant
                self.wf(),
                free_list_bounds == self.spec_page_map().free_list,
                free_list_len == self.spec_page_map().nb_records_per_page,
                self.spec_id() == old(self).spec_id(),
                self.spec_page_map() == old(self).spec_page_map(),
                count <= free_list_len,
                self.spec_page().len() == PAGE_SIZE,
                spec_free_list_len(self.spec_page()) == free_list_len,
                forall|k: int| 0 <= k < count ==> #[trigger] spec_free_list_entry(self.spec_page(), k) == k,
                forall|i: int|
                    0 <= i < PAGE_SIZE && (i < 9 || free_list_begin() + 4 * free_list_len <= i) ==> self.spec_page()[i] == old(self).spec_page()[i],
            decreases free_list_len - count,
        {
            let offset = count * FREE_LIST_PTR_SIZE;
            let free_list_ptr = count as u32;
            let ghost before = self.spec_page();
            assert(count < 4096);
            self.write_to_bounds(free_list_bounds.sub(offset, FREE_LIST_PTR_SIZE), &u32_to_bytes(free_list_ptr));
            proof {
                let after = self.spec_page();
                assert(after.subrange(9, 13) =~= before.subrange(9, 13));
                assert forall|k: int| 0 <= k < count + 1 implies #[trigger] spec_free_list_entry(after, k) == k by {
                    if k < count {
                        assert(spec_free_list_entry(before, k) == k);
                        assert(after.subrange(free_list_begin() + 4 * k, free_list_begin() + 4 * k + 4)
                            =~= before.subrange(free_list_begin() + 4 * k, free_list_begin() + 4 * k + 4));
                    } else {
                        assert(after.subrange(free_list_begin() + 4 * k, free_list_begin() + 4 * k + 4)
                            =~= spec_u32_to_be(free_list_ptr));
                        crate::byte_utils::lemma_u32_be_value_roundtrip(free_list_ptr);
                    }
                }
            }
            count = count + 1;
        }
    }

    /// Takes the last entry off the page's free list; `None` when the list
    /// is empty.
    pub fn pop_free_list_item(&mut self) -> (r: Option<usize>)
        requires
            old(self).wf(),
            spec_free_list_len(old(self).spec_page()) <= old(self).spec_page_map().free_list_capacity,
        ensures
            ({
                let len = spec_free_list_len(old(self).spec_page());
                if len > 0 {
                    &&& r == Some(spec_free_list_entry(old(self).spec_page(), len - 1))
                    &&& final(self).same_but_page(
                        old(self),
                        with_bytes(old(self).spec_page(), 9, spec_u32_to_be((len - 1) as u32)),
                    )
                } else {
                    &&& r is None
                    &&& final(self).same_but_page(old(self), old(self).spec_page())
                }
            }),
    {
        let free_list_len = self.get_free_list_len();
        if free_list_len > 0 {
            let mut list = self.get_page_free_list();
            let res = list.pop();
            self.set_free_list_len(free_list_len - 1);
            res
        } else {
            None
        }
    }

    /// Adds `page_record_id` to the page's free list: the list with the new
    /// entry is sorted, its length recorded, and its entries written from
    /// the end of the free list area on.
    pub fn append_free_list_item(&mut self, page_record_id: usize)
        requires
            old(self).wf(),
            spec_free_list_len(old(self).spec_page()) <= old(self).spec_page_map().free_list_capacity,
            old(self).spec_page_map().free_list.end + 4 * (spec_free_list_len(old(self).spec_page()) + 1) <= PAGE_SIZE,
        ensures
            exists|s: Seq<usize>|
                {
                    &&& sorted(s)
                    &&& s.to_multiset() == spec_free_list(
                        old(self).spec_page(),
                        spec_free_list_len(old(self).spec_page()) as int,
                    ).push(page_record_id).to_multiset()
                    &&& final(self).same_but_page(
                        old(self),
                        with_bytes(
                            with_bytes(old(self).spec_page(), 9, spec_u32_to_be(s.len() as u32)),
                            old(self).spec_page_map().free_list.end as int,
                            ids_bytes(s),
                        ),
                    )
                },
    {
        let mut free_records = self.get_page_free_list();
        free_records.push(page_record_id);
        let ghost unsorted = free_records@;
        sort_ids(&mut free_records);
        proof {
            assert(free_records@.len() == unsorted.len()) by {
                free_records@.to_multiset_ensures();
                unsorted.to_multiset_ensures();
            }
        }
        self.set_free_list_len(free_records.len());
        let ghost p1 = self.spec_page();
        let ghost s = free_records@;
        let mut bounds = self.page_map.free_list.shift(FREE_LIST_PTR_SIZE);
        let ghost start = bounds.begin as int;
        let mut i: usize = 0;
        while i < free_records.len()
            invariant
                self.wf(),
                s == free_records@,
                i <= s.len(),
                0 <= start,
                start + 4 * s.len() <= PAGE_SIZE,
                bounds.begin == start + 4 * i,
                bounds.end == bounds.begin + 4,
                self.spec_id() == old(self).spec_id(),
                self.spec_page_map() == old(self).spec_page_map(),
                p1.len() == PAGE_SIZE,
                self.spec_page() == with_bytes(p1, start, ids_bytes(s.take(i as int))),
            decreases s.len() - i,
        {
            let free_rec_id = free_records[i];
            proof {
                lemma_ids_bytes_len(s.take(i as int));
                lemma_with_bytes_twice(p1, start, ids_bytes(s.take(i as int)), spec_u32_to_be(free_rec_id as u32));
                assert(s.take(i + 1).drop_last() =~= s.take(i as int));
            }
            self.write_to_bounds(bounds, &u32_to_bytes(#[verifier::truncate] (free_rec_id as u32)));
            bounds = bounds.shift(FREE_LIST_PTR_SIZE);
            i = i + 1;
        }
        proof {
            assert(s.take(s.len() as int) =~= s);
        }
    }

    pub fn is_page_free_list_empty(&self) -> (r: bool)
        requires
            self.wf(),
        ensures
            r == (spec_free_list_len(self.spec_page()) == 0),
    {
        self.get_free_list_len() == 0
    }
}

/// Copies into `data` as much of `payload` as fits, from the start of both.
pub fn copy_payload_to_buffer(data: &mut [u8], payload: &[u8])
    ensures
        payload@.len() > old(data)@.len() ==> final(data)@ == payload@.subrange(0, old(data)@.len() as int),
        payload@.len() <= old(data)@.len() ==> final(data)@ == payload@ + old(data)@.subrange(
            payload@.len() as int,
            old(data)@.len() as int,
        ),
{
    if payload.len() > data.len() {
        read_into(payload, 0, data);
    } else {
        let n = payload.len();
        let mut i: usize = 0;
        let ghost d0 = data@;
        while i < n
            invariant
                n == payload@.len(),
                n <= d0.len(),
                data@.len() == d0.len(),
                i <= n,
                forall|j: int| 0 <= j < i ==> data@[j] == payload@[j],
                forall|j: int| n <= j < d0.len() ==> data@[j] == d0[j],
            decreases n - i,
        {
            data[i] = payload[i];
            i = i + 1;
        }
        assert(data@ =~= payload@ + d0.subrange(n as int, d0.len() as int));
    }
}


/// Two records packed `per_page` to a page never share both page and slot:
/// the records `id1` and `id2`, counted from 1, stand at different places.
pub proof fn lemma_locations_distinct(id1: u64, id2: u64, per_page: int)
    requires
        id1 >= 1,
        id2 >= 1,
        id1 != id2,
        per_page > 0,
    ensures
        (1 + (id1 - 1) / per_page, (id1 - 1) % per_page) != (1 + (id2 - 1) / per_page, (id2 - 1) % per_page),
{
    let a = id1 - 1;
    let b = id2 - 1;
    vstd::arithmetic::div_mod::lemma_fundamental_div_mod(a, per_page);
    vstd::arithmetic::div_mod::lemma_fundamental_div_mod(b, per_page);
    if a / per_page == b / per_page && a % per_page == b % per_page {
        assert(per_page * (a / per_page) == per_page * (b / per_page));
        assert(a == b);
    }
}

} // verus!
