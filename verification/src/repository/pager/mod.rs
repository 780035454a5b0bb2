pub mod page_cache;

use vstd::prelude::*;
use std::collections::HashMap;
use vstd::std_specs::iter::IteratorSpec;
use crate::buf_config::{PAGE_SIZE, PAGE_COUNTER_SIZE, FIRST_FREE_PAGE_PTR, RECORDS_COUNTER_SIZE};
use crate::byte_utils::{
    spec_u64_to_be, spec_u64_from_be, lemma_u64_be_value_roundtrip, u64_to_bytes, u64_from_bytes,
    u64_from_bytes_at, write_at, read_into,
};

verus! {

/// Error of a pager.
#[derive(Debug, Clone)]
pub enum PagerError {
    FileOverflow,
}

/// A page of a records file: its id and its bytes.
pub struct Page {
    pub id: u64,
    pub data: [u8; PAGE_SIZE],
}

impl Page {
    pub fn new(id: u64, data: [u8; PAGE_SIZE]) -> (r: Self)
        ensures
            r.id == id,
            r.data == data,
    {
        Page { id, data }
    }
}

/// A page holding `data`.
pub fn make_heap_page(id: u64, data: [u8; PAGE_SIZE]) -> (r: Page)
    ensures
        r.id == id,
        r.data == data,
{
    let page = Page::new(id, data);
    page
}

/// A page of zero bytes.
pub fn make_empty_heap_page(id: u64) -> (r: Page)
    ensures
        r.id == id,
        forall|i: int| 0 <= i < PAGE_SIZE ==> r.data@[i] == 0,
{
    let page = Page::new(id, [0u8; PAGE_SIZE]);
    page
}

/// A range of byte positions, from `begin` included to `end` excluded.
#[derive(Debug, Copy, Clone)]
pub struct Bounds {
    pub begin: usize,
    pub end: usize,
}

impl Bounds {
    pub fn new(b: usize, e: usize) -> (r: Self)
        ensures
            r == (Bounds { begin: b, end: e }),
    {
        Bounds { begin: b, end: e }
    }

    pub fn from_offset_and_len(offset: usize, len: usize) -> (r: Self)
        requires
            offset + len <= usize::MAX,
        ensures
            r == (Bounds { begin: offset, end: (offset + len) as usize }),
    {
        Bounds { begin: offset, end: offset + len }
    }

    pub fn len(&self) -> (r: usize)
        requires
            self.begin <= self.end,
        ensures
            r == self.end - self.begin,
    {
        self.end - self.begin
    }

    /// The `size` positions that follow these bounds.
    pub fn shift(&self, size: usize) -> (r: Self)
        requires
            self.end + size <= usize::MAX,
        ensures
            r == (Bounds { begin: self.end, end: (self.end + size) as usize }),
    {
        Bounds { begin: self.end, end: self.end + size }
    }

    /// The `len` positions from `offset` on, counted from `begin`.
    pub fn sub(&self, offset: usize, len: usize) -> (r: Self)
        requires
            offset + self.begin + len <= usize::MAX,
        ensures
            r == (Bounds { begin: (offset + self.begin) as usize, end: (offset + self.begin + len) as usize }),
    {
        Bounds { begin: offset + self.begin, end: offset + self.begin + len }
    }
}

/// Where the fields of a header page stand.
pub struct HeaderPageMap {
    header_page_free_list_ptr: Bounds,
    header_page_records_counter: Bounds,
    header_page_records_version_counter: Bounds,
    header_page_payload: Bounds,
}

/// Position of the first free page pointer in a header page.
pub open spec fn free_list_ptr_begin() -> int {
    PAGE_COUNTER_SIZE as int
}

/// Position of the records counter in a header page.
pub open spec fn records_counter_begin() -> int {
    (PAGE_COUNTER_SIZE + FIRST_FREE_PAGE_PTR) as int
}

/// Position of the records version counter in a header page.
pub open spec fn records_version_counter_begin() -> int {
    (PAGE_COUNTER_SIZE + FIRST_FREE_PAGE_PTR + RECORDS_COUNTER_SIZE) as int
}

/// Position of the payload in a header page: it starts where the records
/// counter ends.
pub open spec fn payload_begin() -> int {
    (PAGE_COUNTER_SIZE + FIRST_FREE_PAGE_PTR + RECORDS_COUNTER_SIZE) as int
}

impl HeaderPageMap {
    /// The map is the one every header page uses.
    pub closed spec fn is_standard(&self) -> bool {
        &&& self.header_page_free_list_ptr == Bounds {
            begin: PAGE_COUNTER_SIZE,
            end: (PAGE_COUNTER_SIZE + FIRST_FREE_PAGE_PTR) as usize,
        }
        &&& self.header_page_records_counter == Bounds {
            begin: (PAGE_COUNTER_SIZE + FIRST_FREE_PAGE_PTR) as usize,
            end: (PAGE_COUNTER_SIZE + FIRST_FREE_PAGE_PTR + RECORDS_COUNTER_SIZE) as usize,
        }
        &&& self.header_page_records_version_counter == Bounds {
            begin: (PAGE_COUNTER_SIZE + FIRST_FREE_PAGE_PTR + RECORDS_COUNTER_SIZE) as usize,
            end: (PAGE_COUNTER_SIZE + FIRST_FREE_PAGE_PTR + RECORDS_COUNTER_SIZE + RECORDS_COUNTER_SIZE) as usize,
        }
        &&& self.header_page_payload == Bounds {
            begin: (PAGE_COUNTER_SIZE + FIRST_FREE_PAGE_PTR + RECORDS_COUNTER_SIZE) as usize,
            end: PAGE_SIZE,
        }
    }

    /// Where the first free page pointer stands.
    pub closed spec fn free_list_ptr_bounds(&self) -> Bounds {
        self.header_page_free_list_ptr
    }

    /// Where the records counter stands.
    pub closed spec fn records_counter_bounds(&self) -> Bounds {
        self.header_page_records_counter
    }

    /// Where the records version counter stands.
    pub closed spec fn records_version_counter_bounds(&self) -> Bounds {
        self.header_page_records_version_counter
    }

    /// Where the payload stands.
    pub closed spec fn payload_bounds(&self) -> Bounds {
        self.header_page_payload
    }

    /// In the map every header page uses, the first free page pointer
    /// follows the page counter, the records counter follows it, the version
    /// counter follows the records counter, and the payload starts where the
    /// records counter ends and runs to the end of the page.
    pub proof fn lemma_standard_bounds(&self)
        requires
            self.is_standard(),
        ensures
            self.free_list_ptr_bounds() == (Bounds {
                begin: PAGE_COUNTER_SIZE,
                end: (PAGE_COUNTER_SIZE + FIRST_FREE_PAGE_PTR) as usize,
            }),
            self.records_counter_bounds() == (Bounds {
                begin: (PAGE_COUNTER_SIZE + FIRST_FREE_PAGE_PTR) as usize,
                end: (PAGE_COUNTER_SIZE + FIRST_FREE_PAGE_PTR + RECORDS_COUNTER_SIZE) as usize,
            }),
            self.records_version_counter_bounds() == (Bounds {
                begin: (PAGE_COUNTER_SIZE + FIRST_FREE_PAGE_PTR + RECORDS_COUNTER_SIZE) as usize,
                end: (PAGE_COUNTER_SIZE + FIRST_FREE_PAGE_PTR + RECORDS_COUNTER_SIZE + RECORDS_COUNTER_SIZE) as usize,
            }),
            self.payload_bounds() == (Bounds {
                begin: (PAGE_COUNTER_SIZE + FIRST_FREE_PAGE_PTR + RECORDS_COUNTER_SIZE) as usize,
                end: PAGE_SIZE,
            }),
    {
    }

    pub fn new() -> (r: Self)
        ensures
            r.is_standard(),
    {
        let header_page_free_list_ptr_bounds = Bounds::new(PAGE_COUNTER_SIZE, PAGE_COUNTER_SIZE + FIRST_FREE_PAGE_PTR);
        let header_page_records_counter_bounds = header_page_free_list_ptr_bounds.shift(RECORDS_COUNTER_SIZE);
        let header_page_records_version_counter_bounds = header_page_records_counter_bounds.shift(
            RECORDS_COUNTER_SIZE,
        );
        let header_page_payload_bounds = Bounds::new(header_page_records_counter_bounds.end, PAGE_SIZE);
        HeaderPageMap {
            header_page_free_list_ptr: header_page_free_list_ptr_bounds,
            header_page_records_counter: header_page_records_counter_bounds,
            header_page_records_version_counter: header_page_records_version_counter_bounds,
            header_page_payload: header_page_payload_bounds,
        }
    }
}

/// The eight bytes at `begin` of a page, read as a big-endian counter.
pub open spec fn header_field(d: Seq<u8>, begin: int) -> u64 {
    spec_u64_from_be(d.subrange(begin, begin + 8))
}

/// The bytes of a page with `bytes` written from `begin` on.
pub open spec fn with_bytes(d: Seq<u8>, begin: int, bytes: Seq<u8>) -> Seq<u8> {
    d.subrange(0, begin) + bytes + d.subrange(begin + bytes.len(), d.len() as int)
}

/// A counter of a header page reads back what was last written to it, and
/// writing a counter leaves the counters that do not overlap it as they were.
pub proof fn lemma_header_field_write(d: Seq<u8>, begin: int, v: u64, other: int)
    requires
        0 <= begin,
        begin + 8 <= d.len(),
        0 <= other,
        other + 8 <= d.len(),
        other + 8 <= begin || begin + 8 <= other,
    ensures
        header_field(with_bytes(d, begin, spec_u64_to_be(v)), begin) == v,
        header_field(with_bytes(d, begin, spec_u64_to_be(v)), other) == header_field(d, other),
        with_bytes(d, begin, spec_u64_to_be(v)).len() == d.len(),
{
    let w = with_bytes(d, begin, spec_u64_to_be(v));
    assert(w.subrange(begin, begin + 8) =~= spec_u64_to_be(v));
    lemma_u64_be_value_roundtrip(v);
    assert(w.subrange(other, other + 8) =~= d.subrange(other, other + 8));
}

/// The header page of a records file: the number of pages, the first page
/// with free record slots, two records counters, and a payload.
pub struct HeaderPage {
    pub page: Page,
    header_page_map: HeaderPageMap,
}

impl View for HeaderPage {
    type V = Page;

    closed spec fn view(&self) -> Page {
        self.page
    }
}

impl HeaderPage {
    /// The header page's map is the standard one.
    pub closed spec fn wf(&self) -> bool {
        self.header_page_map.is_standard()
    }

    /// The map of the page's fields.
    pub closed spec fn map(&self) -> HeaderPageMap {
        self.header_page_map
    }

    /// A well-formed header page lays its fields out as every header page
    /// does.
    pub proof fn lemma_wf_map(&self)
        ensures
            self.wf() == self.map().is_standard(),
    {
    }

    pub fn new(data: Page) -> (r: Self)
        ensures
            r.wf(),
            r@ == data,
    {
        HeaderPage { page: data, header_page_map: HeaderPageMap::new() }
    }

    pub fn get_page_count(&self) -> (r: u64)
        ensures
            r == header_field(self@.data@, 0),
    {
        let mut bytes = [0u8; PAGE_COUNTER_SIZE];
        read_into(&self.page.data, 0, &mut bytes);
        u64_from_bytes(&bytes)
    }

    pub fn set_page_count(&mut self, count: u64)
        ensures
            final(self)@.id == old(self)@.id,
            final(self)@.data@ == with_bytes(old(self)@.data@, 0, spec_u64_to_be(count)),
            final(self).wf() == old(self).wf(),
    {
        write_at(&mut self.page.data, 0, &u64_to_bytes(count));
    }

    pub fn get_header_first_free_page_ptr(&self) -> (r: u64)
        requires
            self.wf(),
        ensures
            r == header_field(self@.data@, free_list_ptr_begin()),
    {
        let mut bytes = [0u8; FIRST_FREE_PAGE_PTR];
        self.read_header_from_bounds(self.header_page_map.header_page_free_list_ptr, &mut bytes);
        u64_from_bytes(&bytes)
    }

    pub fn set_header_first_free_page_ptr(&mut self, id: u64)
        requires
            old(self).wf(),
        ensures
            final(self).wf(),
            final(self)@.id == old(self)@.id,
            final(self)@.data@ == with_bytes(old(self)@.data@, free_list_ptr_begin(), spec_u64_to_be(id)),
    {
        let bounds = self.header_page_map.header_page_free_list_ptr;
        self.write_header_to_bounds(bounds, &u64_to_bytes(id));
    }

    pub fn get_header_records_counter(&self) -> (r: u64)
        requires
            self.wf(),
        ensures
            r == header_field(self@.data@, records_counter_begin()),
    {
        let mut bytes = [0u8; RECORDS_COUNTER_SIZE];
        self.read_header_from_bounds(self.header_page_map.header_page_records_counter, &mut bytes);
        u64_from_bytes(&bytes)
    }

    pub fn set_header_records_counter(&mut self, id: u64)
        requires
            old(self).wf(),
        ensures
            final(self).wf(),
            final(self)@.id == old(self)@.id,
            final(self)@.data@ == with_bytes(old(self)@.data@, records_counter_begin(), spec_u64_to_be(id)),
    {
        let bounds = self.header_page_map.header_page_records_counter;
        self.write_header_to_bounds(bounds, &u64_to_bytes(id));
    }

    pub fn get_header_records_version_counter(&self) -> (r: u64)
        requires
            self.wf(),
        ensures
            r == header_field(self@.data@, records_version_counter_begin()),
    {
        let mut bytes = [0u8; RECORDS_COUNTER_SIZE];
        self.read_header_from_bounds(self.header_page_map.header_page_records_version_counter, &mut bytes);
        u64_from_bytes(&bytes)
    }

    pub fn set_header_records_version_counter(&mut self, id: u64)
        requires
            old(self).wf(),
        ensures
            final(self).wf(),
            final(self)@.id == old(self)@.id,
            final(self)@.data@ == with_bytes(
                old(self)@.data@,
                records_version_counter_begin(),
                spec_u64_to_be(id),
            ),
    {
        let bounds = self.header_page_map.header_page_records_version_counter;
        self.write_header_to_bounds(bounds, &u64_to_bytes(id));
    }

    /// Whether the file holds no page but the header page.
    pub fn is_empty(&self) -> (r: bool)
        ensures
            r == (header_field(self@.data@, 0) == 0),
    {
        self.get_page_count() == 0
    }

    pub fn read_header_from_bounds(&self, bounds: Bounds, bytes: &mut [u8])
        requires
            bounds.begin <= bounds.end <= PAGE_SIZE,
            old(bytes)@.len() == bounds.end - bounds.begin,
        ensures
            final(bytes)@ == self@.data@.subrange(bounds.begin as int, bounds.end as int),
    {
        read_into(&self.page.data, bounds.begin, bytes);
    }

    pub fn write_header_to_bounds(&mut self, bounds: Bounds, bytes: &[u8])
        requires
            bounds.begin <= bounds.end <= PAGE_SIZE,
            bytes@.len() == bounds.end - bounds.begin,
        ensures
            final(self).wf() == old(self).wf(),
            final(self)@.id == old(self)@.id,
            final(self)@.data@ == with_bytes(old(self)@.data@, bounds.begin as int, bytes@),
    {
        write_at(&mut self.page.data, bounds.begin, bytes);
    }

    pub fn read_header_payload_from_bounds(&self, bounds: Bounds, bytes: &mut [u8])
        requires
            self.wf(),
            bounds.begin <= bounds.end,
            payload_begin() + bounds.end <= PAGE_SIZE,
            old(bytes)@.len() == bounds.end - bounds.begin,
        ensures
            final(bytes)@ == self@.data@.subrange(payload_begin() + bounds.begin, payload_begin() + bounds.end),
    {
        let payload_bounds = self.header_page_map.header_page_payload.sub(bounds.begin, bounds.len());
        read_into(&self.page.data, payload_bounds.begin, bytes);
    }

    pub fn write_header_payload_to_bounds(&mut self, bounds: Bounds, bytes: &[u8])
        requires
            old(self).wf(),
            bounds.begin <= bounds.end,
            payload_begin() + bounds.end <= PAGE_SIZE,
            bytes@.len() == bounds.end - bounds.begin,
        ensures
            final(self).wf(),
            final(self)@.id == old(self)@.id,
            final(self)@.data@ == with_bytes(old(self)@.data@, payload_begin() + bounds.begin, bytes@),
    {
        let payload_bounds = self.header_page_map.header_page_payload.sub(bounds.begin, bounds.len());
        write_at(&mut self.page.data, payload_bounds.begin, bytes);
    }
}


broadcast use vstd::std_specs::hash::group_hash_axioms;

/// Whether the page `pid` lies within a file that holds `nb_pages` pages
/// after its header page.
pub fn page_in_file(nb_pages: u64, pid: u64) -> (r: bool)
    ensures
        r == (pid <= nb_pages),
{
    nb_pages >= pid
}

/// The pages a pager holds in memory, each found by its page id.
pub struct PagerCache {
    page_cache: HashMap<u64, usize>,
    pages: Vec<Page>,
}

impl PagerCache {
    /// Where each cached page id stands.
    pub closed spec fn spec_map(&self) -> Map<u64, usize> {
        self.page_cache@
    }

    /// The cached pages, in the order they were loaded.
    pub closed spec fn spec_pages(&self) -> Seq<Page> {
        self.pages@
    }

    /// Every cached page id stands at a page that has that id.
    pub open spec fn wf(&self) -> bool {
        forall|k: u64| #[trigger] self.spec_map().contains_key(k) ==> {
            &&& self.spec_map()[k] < self.spec_pages().len()
            &&& self.spec_pages()[self.spec_map()[k] as int].id == k
        }
    }

    pub fn new() -> (r: Self)
        ensures
            r.wf(),
            r.spec_map() == Map::<u64, usize>::empty(),
            r.spec_pages().len() == 0,
    {
        PagerCache { page_cache: HashMap::new(), pages: Vec::new() }
    }

    /// Where the page `pid` stands, if it is cached.
    pub fn position(&self, pid: u64) -> (r: Option<usize>)
        ensures
            r == if self.spec_map().contains_key(pid) {
                Some(self.spec_map()[pid])
            } else {
                None
            },
    {
        match self.page_cache.get(&pid) {
            Some(pos) => Some(*pos),
            None => None,
        }
    }

    /// Caches `page` after the others, under its id; answers its position.
    pub fn insert(&mut self, page: Page) -> (r: usize)
        requires
            old(self).wf(),
        ensures
            final(self).wf(),
            r == old(self).spec_pages().len(),
            final(self).spec_pages() == old(self).spec_pages().push(page),
            final(self).spec_map() == old(self).spec_map().insert(page.id, r),
    {
        let pos = self.pages.len();
        let id = page.id;
        self.pages.push(page);
        self.page_cache.insert(id, pos);
        proof {
            assert forall|k: u64| #[trigger] self.spec_map().contains_key(k) implies {
                &&& self.spec_map()[k] < self.spec_pages().len()
                &&& self.spec_pages()[self.spec_map()[k] as int].id == k
            } by {
                if k != id {
                    assert(old(self).spec_map().contains_key(k));
                    assert(old(self).spec_map()[k] < old(self).spec_pages().len());
                    assert(old(self).spec_pages()[old(self).spec_map()[k] as int].id == k);
                }
            }
        }
        pos
    }

    pub fn page_ref(&self, pos: usize) -> (r: &Page)
        requires
            pos < self.spec_pages().len(),
        ensures
            *r == self.spec_pages()[pos as int],
    {
        &self.pages[pos]
    }

    /// The page at `pos`, for update; its id is kept.
    pub fn page_data_mut(&mut self, pos: usize) -> (r: &mut [u8; PAGE_SIZE])
        requires
            pos < old(self).spec_pages().len(),
        ensures
            *r == old(self).spec_pages()[pos as int].data,
            final(self).spec_map() == old(self).spec_map(),
            final(self).spec_pages() == old(self).spec_pages().update(
                pos as int,
                Page { id: old(self).spec_pages()[pos as int].id, data: *final(r) },
            ),
    {
        &mut self.pages[pos].data
    }

    /// Changing the bytes of cached pages, and nothing else, keeps every
    /// page id at a page with that id.
    pub proof fn lemma_same_ids_keep_wf(a: &PagerCache, b: &PagerCache)
        requires
            a.wf(),
            b.spec_map() == a.spec_map(),
            b.spec_pages().len() == a.spec_pages().len(),
            forall|i: int| 0 <= i < a.spec_pages().len() ==> (#[trigger] b.spec_pages()[i]).id == a.spec_pages()[i].id,
        ensures
            b.wf(),
    {
        assert forall|k: u64| #[trigger] b.spec_map().contains_key(k) implies {
            &&& b.spec_map()[k] < b.spec_pages().len()
            &&& b.spec_pages()[b.spec_map()[k] as int].id == k
        } by {
            assert(a.spec_map().contains_key(k));
            assert(a.spec_pages()[a.spec_map()[k] as int].id == k);
            assert(b.spec_pages()[b.spec_map()[k] as int].id == a.spec_pages()[a.spec_map()[k] as int].id);
        }
    }

    /// The cached page ids, in no particular order, each once.
    pub fn page_ids(&self) -> (r: Vec<u64>)
        ensures
            r@.to_set() == self.spec_map().dom(),
            r@.no_duplicates(),
    {
        let mut ids: Vec<u64> = Vec::new();
        let ghost keys = vstd::std_specs::hash::spec_keys_iter(&self.page_cache).remaining();
        for k in it: self.page_cache.keys()
            invariant
                it.seq() == keys,
                ids@ == it.seq().take(it.index() as int).map_values(|p: &u64| *p),
        {
            proof {
                assert(it.seq().take(it.index() + 1).map_values(|p: &u64| *p) =~= it.seq().take(it.index() as int).map_values(|p: &u64| *p).push(*k));
            }
            ids.push(*k);
        }
        proof {
            assert(keys.take(keys.len() as int) =~= keys);
            assert(keys.map_values(|p: &u64| *p) =~= keys.unref());
        }
        ids
    }
}

} // verus!
