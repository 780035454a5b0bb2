use vstd::prelude::*;
use std::collections::HashMap;
use crate::buf_config::PAGE_SIZE;
use vstd::std_specs::iter::IteratorSpec;

verus! {

broadcast use vstd::std_specs::hash::group_hash_axioms;

/// Where a cached page stands and how often it was asked for.
#[derive(Debug, Clone, Copy)]
pub struct PageHits {
    pub hits: u64,
    pub page_id: u64,
    pub pos: usize,
    pub was_mut: bool,
}

impl PageHits {
    pub fn new(page_id: u64, pos: usize) -> (r: Self)
        ensures
            r == (PageHits { page_id, hits: 0, pos, was_mut: false }),
    {
        PageHits { page_id, hits: 0, pos, was_mut: false }
    }
}

/// Pages kept in memory, each found by its page id.
pub struct PageCache {
    pages: Vec<[u8; PAGE_SIZE]>,
    pages_map: HashMap<u64, PageHits>,
    capacity: usize,
    dropped_pages: Vec<usize>,
}

impl PageCache {
    /// The stored pages, by position.
    pub closed spec fn spec_pages(&self) -> Seq<[u8; PAGE_SIZE]> {
        self.pages@
    }

    /// The cached page ids, with where each page stands.
    pub closed spec fn spec_map(&self) -> Map<u64, PageHits> {
        self.pages_map@
    }

    /// The positions freed by dropped pages, the most recent last.
    pub closed spec fn spec_dropped(&self) -> Seq<usize> {
        self.dropped_pages@
    }

    pub closed spec fn spec_capacity(&self) -> usize {
        self.capacity
    }

    /// Every recorded position holds a stored page.
    pub open spec fn wf(&self) -> bool {
        &&& forall|k: u64| #[trigger] self.spec_map().contains_key(k) ==> self.spec_map()[k].pos < self.spec_pages().len()
        &&& forall|i: int| 0 <= i < self.spec_dropped().len() ==> #[trigger] self.spec_dropped()[i] < self.spec_pages().len()
    }

    /// The page cached under `page_id`.
    pub open spec fn page_of(&self, page_id: u64) -> [u8; PAGE_SIZE] {
        self.spec_pages()[self.spec_map()[page_id].pos as int]
    }

    pub fn new(capacity: usize) -> (r: Self)
        ensures
            r.wf(),
            r.spec_pages().len() == 0,
            r.spec_map() == Map::<u64, PageHits>::empty(),
            r.spec_dropped().len() == 0,
            r.spec_capacity() == capacity,
    {
        PageCache { capacity, pages: Vec::with_capacity(capacity), pages_map: HashMap::new(), dropped_pages: Vec::new() }
    }

    /// Stores `data` as the page `page_id`: at the position most recently
    /// freed if there is one, else at the position the page id already has,
    /// else at the end. The page is inserted at that position, the pages from
    /// there on moving up by one.
    pub fn put(&mut self, data: [u8; PAGE_SIZE], page_id: u64) -> (r: Option<&mut [u8; PAGE_SIZE]>)
        requires
            old(self).wf(),
        ensures
            r is Some,
            *r->0 == data,
            ({
                let pos: usize = if old(self).spec_dropped().len() > 0 {
                    old(self).spec_dropped().last()
                } else if old(self).spec_map().contains_key(page_id) {
                    old(self).spec_map()[page_id].pos
                } else {
                    old(self).spec_pages().len() as usize
                };
                &&& final(self).spec_pages() == old(self).spec_pages().insert(pos as int, *final(r->0))
                &&& final(self).spec_map() == old(self).spec_map().insert(page_id, PageHits::new_spec(page_id, pos))
                &&& final(self).spec_dropped() == if old(self).spec_dropped().len() > 0 {
                    old(self).spec_dropped().drop_last()
                } else {
                    old(self).spec_dropped()
                }
            }),
            final(self).spec_capacity() == old(self).spec_capacity(),
            final(self).wf(),
    {
        if self.dropped_pages.len() > 0 {
            let ghost before = self.dropped_pages@;
            let dp = self.dropped_pages.pop().unwrap();
            proof {
                assert(dp == before[before.len() - 1]);
                assert forall|i: int| 0 <= i < self.dropped_pages@.len() implies #[trigger] self.dropped_pages@[i] < self.pages@.len() by {
                    assert(self.dropped_pages@[i] == before[i]);
                }
                assert(self.spec_map() == old(self).spec_map());
                assert(self.spec_pages() == old(self).spec_pages());
                assert(forall|k: u64| #[trigger] self.spec_map().contains_key(k) ==> self.spec_map()[k].pos < self.spec_pages().len());
            }
            let page_hit = PageHits::new(page_id, dp);
            self.insert_page(data, page_hit)
        } else if self.pages_map.contains_key(&page_id) {
            let ph = *self.pages_map.get(&page_id).unwrap();
            assert(self.spec_map().contains_key(page_id) && ph == self.spec_map()[page_id]);
            self.insert_page(data, PageHits::new(page_id, ph.pos))
        } else {
            let n = self.pages.len();
            proof {
                let ps = self.spec_pages();
                assert(ps.len() == n);
                assert forall|x: [u8; PAGE_SIZE]| ps.push(x) == #[trigger] ps.insert(ps.len() as int, x) by {
                    assert(ps.push(x) =~= ps.insert(ps.len() as int, x));
                }
            }
            self.append_page(data, page_id)
        }
    }

    fn insert_page(&mut self, data: [u8; PAGE_SIZE], page_hit: PageHits) -> (r: Option<&mut [u8; PAGE_SIZE]>)
        requires
            page_hit.pos <= old(self).spec_pages().len(),
            forall|k: u64| #[trigger] old(self).spec_map().contains_key(k) ==> old(self).spec_map()[k].pos < old(self).spec_pages().len(),
            forall|i: int| 0 <= i < old(self).spec_dropped().len() ==> #[trigger] old(self).spec_dropped()[i] < old(self).spec_pages().len(),
        ensures
            r is Some,
            *r->0 == data,
            final(self).spec_pages() == old(self).spec_pages().insert(page_hit.pos as int, *final(r->0)),
            final(self).spec_map() == old(self).spec_map().insert(page_hit.page_id, page_hit),
            final(self).spec_dropped() == old(self).spec_dropped(),
            final(self).spec_capacity() == old(self).spec_capacity(),
            final(self).wf(),
    {
        self.pages_map.insert(page_hit.page_id, page_hit);
        self.pages.insert(page_hit.pos, data);
        proof {
            assert forall|k: u64| #[trigger] self.spec_map().contains_key(k) implies self.spec_map()[k].pos < self.spec_pages().len() by {
                if k != page_hit.page_id {
                    assert(old(self).spec_map().contains_key(k));
                    assert(old(self).spec_map()[k].pos < old(self).spec_pages().len());
                }
            }
            assert forall|i: int| 0 <= i < self.spec_dropped().len() implies #[trigger] self.spec_dropped()[i] < self.spec_pages().len() by {
                assert(self.spec_dropped()[i] == old(self).spec_dropped()[i]);
                assert(old(self).spec_dropped()[i] < old(self).spec_pages().len());
            }
        }
        Some(&mut self.pages[page_hit.pos])
    }

    fn append_page(&mut self, data: [u8; PAGE_SIZE], page_id: u64) -> (r: Option<&mut [u8; PAGE_SIZE]>)
        requires
            old(self).wf(),
        ensures
            r is Some,
            *r->0 == data,
            final(self).spec_pages() == old(self).spec_pages().push(*final(r->0)),
            final(self).spec_map() == old(self).spec_map().insert(page_id, PageHits::new_spec(page_id, old(self).spec_pages().len() as usize)),
            final(self).spec_dropped() == old(self).spec_dropped(),
            final(self).spec_capacity() == old(self).spec_capacity(),
            final(self).wf(),
    {
        let pos = self.pages.len();
        self.pages.push(data);
        self.pages_map.insert(page_id, PageHits::new(page_id, pos));
        proof {
            assert forall|k: u64| #[trigger] self.spec_map().contains_key(k) implies self.spec_map()[k].pos < self.spec_pages().len() by {
                if k != page_id {
                    assert(old(self).spec_map().contains_key(k));
                    assert(old(self).spec_map()[k].pos < old(self).spec_pages().len());
                }
            }
            assert forall|i: int| 0 <= i < self.spec_dropped().len() implies #[trigger] self.spec_dropped()[i] < self.spec_pages().len() by {
                assert(self.spec_dropped()[i] == old(self).spec_dropped()[i]);
                assert(old(self).spec_dropped()[i] < old(self).spec_pages().len());
            }
        }
        Some(&mut self.pages[pos])
    }

    /// The page cached under `page_id`, if any; its hit count grows by one.
    pub fn get_ref(&mut self, page_id: &u64) -> (r: Option<&[u8; PAGE_SIZE]>)
        requires
            old(self).wf(),
        ensures
            final(self).wf(),
            final(self).spec_pages() == old(self).spec_pages(),
            final(self).spec_dropped() == old(self).spec_dropped(),
            final(self).spec_capacity() == old(self).spec_capacity(),
            final(self).spec_map().dom() == old(self).spec_map().dom(),
            forall|k: u64| #[trigger] final(self).spec_map().contains_key(k) ==> final(self).spec_map()[k].pos == old(self).spec_map()[k].pos,
            old(self).spec_map().contains_key(*page_id) ==> r == Some(&old(self).page_of(*page_id)),
            !old(self).spec_map().contains_key(*page_id) ==> r is None,
    {
        self.inc_page_hits(page_id);
        match self.pages_map.get(page_id) {
            Some(ph) => Some(&self.pages[ph.pos]),
            None => None,
        }
    }

    fn inc_page_hits(&mut self, page_id: &u64)
        requires
            old(self).wf(),
        ensures
            final(self).wf(),
            final(self).spec_pages() == old(self).spec_pages(),
            final(self).spec_dropped() == old(self).spec_dropped(),
            final(self).spec_capacity() == old(self).spec_capacity(),
            old(self).spec_map().contains_key(*page_id) ==> final(self).spec_map() == old(self).spec_map().insert(
                *page_id,
                PageHits {
                    hits: next_hits(old(self).spec_map()[*page_id].hits),
                    ..old(self).spec_map()[*page_id]
                },
            ),
            !old(self).spec_map().contains_key(*page_id) ==> final(self).spec_map() == old(self).spec_map(),
    {
        match self.pages_map.get(page_id) {
            Some(ph) => {
                let mut ph = *ph;
                ph.hits = ph.hits.wrapping_add(1);
                self.pages_map.insert(*page_id, ph);
                proof {
                    assert forall|k: u64| #[trigger] self.spec_map().contains_key(k) implies self.spec_map()[k].pos < self.spec_pages().len() by {
                        assert(old(self).spec_map().contains_key(k));
                        assert(old(self).spec_map()[k].pos < old(self).spec_pages().len());
                    }
                }
            },
            None => {},
        }
        proof {
            assert forall|i: int| 0 <= i < self.spec_dropped().len() implies #[trigger] self.spec_dropped()[i] < self.spec_pages().len() by {
                assert(old(self).spec_dropped()[i] < old(self).spec_pages().len());
            }
        }
    }

    fn inc_mut_page_hits(&mut self, page_id: &u64)
        requires
            old(self).wf(),
        ensures
            final(self).wf(),
            final(self).spec_pages() == old(self).spec_pages(),
            final(self).spec_dropped() == old(self).spec_dropped(),
            final(self).spec_capacity() == old(self).spec_capacity(),
            old(self).spec_map().contains_key(*page_id) ==> final(self).spec_map() == old(self).spec_map().insert(
                *page_id,
                PageHits {
                    hits: next_hits(old(self).spec_map()[*page_id].hits),
                    was_mut: true,
                    ..old(self).spec_map()[*page_id]
                },
            ),
            !old(self).spec_map().contains_key(*page_id) ==> final(self).spec_map() == old(self).spec_map(),
    {
        match self.pages_map.get(page_id) {
            Some(ph) => {
                let mut ph = *ph;
                ph.hits = ph.hits.wrapping_add(1);
                ph.was_mut = true;
                self.pages_map.insert(*page_id, ph);
                proof {
                    assert forall|k: u64| #[trigger] self.spec_map().contains_key(k) implies self.spec_map()[k].pos < self.spec_pages().len() by {
                        assert(old(self).spec_map().contains_key(k));
                        assert(old(self).spec_map()[k].pos < old(self).spec_pages().len());
                    }
                }
            },
            None => {},
        }
        proof {
            assert forall|i: int| 0 <= i < self.spec_dropped().len() implies #[trigger] self.spec_dropped()[i] < self.spec_pages().len() by {
                assert(old(self).spec_dropped()[i] < old(self).spec_pages().len());
            }
        }
    }

    pub fn contains_page_id(&self, pid: &u64) -> (r: bool)
        ensures
            r == self.spec_map().contains_key(*pid),
    {
        self.pages_map.contains_key(pid)
    }

    /// The page cached under `page_id`, if any, for update; its hit count
    /// grows by one and it is marked as changed.
    pub fn get_mut(&mut self, page_id: &u64) -> (r: Option<&mut [u8; PAGE_SIZE]>)
        requires
            old(self).wf(),
        ensures
            final(self).wf(),
            final(self).spec_dropped() == old(self).spec_dropped(),
            final(self).spec_capacity() == old(self).spec_capacity(),
            final(self).spec_map().dom() == old(self).spec_map().dom(),
            forall|k: u64| #[trigger] final(self).spec_map().contains_key(k) ==> final(self).spec_map()[k].pos == old(self).spec_map()[k].pos,
            old(self).spec_map().contains_key(*page_id) ==> {
                &&& r is Some
                &&& *r->0 == old(self).page_of(*page_id)
                &&& final(self).spec_pages() == old(self).spec_pages().update(
                    old(self).spec_map()[*page_id].pos as int,
                    *final(r->0),
                )
            },
            !old(self).spec_map().contains_key(*page_id) ==> r is None && final(self).spec_pages() == old(self).spec_pages(),
    {
        self.inc_mut_page_hits(page_id);
        match self.pages_map.get(page_id) {
            Some(ph) => {
                let pos = ph.pos;
                Some(&mut self.pages[pos])
            },
            None => None,
        }
    }

    /// The cached page ids, in no particular order, each once.
    pub fn get_page_ids(&self) -> (r: Vec<u64>)
        ensures
            r@.to_set() == self.spec_map().dom(),
            r@.no_duplicates(),
            r@.len() == self.spec_map().dom().len(),
    {
        let mut ids: Vec<u64> = Vec::new();
        let ghost keys = vstd::std_specs::hash::spec_keys_iter(&self.pages_map).remaining();
        for k in it: self.pages_map.keys()
            invariant
                it.seq() == keys,
                ids@ == it.seq().take(it.index() as int).map_values(|p: &u64| *p),
        {
            proof {
                assert(it.seq().take(it.index() + 1).map_values(|p: &u64| *p) =~= it.seq().take(it.index() as int).map_values(|p: &u64| *p).push(*k));
            }
            ids.push(*k);
        }
        proof {
            assert(keys.take(keys.len() as int) =~= keys);
            assert(keys.map_values(|p: &u64| *p) =~= keys.unref());
        }
        ids
    }

    /// Forgets the page `pid`, keeping its position for the next page put.
    pub fn drop_page(&mut self, pid: &u64)
        requires
            old(self).wf(),
        ensures
            final(self).wf(),
            final(self).spec_pages() == old(self).spec_pages(),
            final(self).spec_capacity() == old(self).spec_capacity(),
            old(self).spec_map().contains_key(*pid) ==> {
                &&& final(self).spec_dropped() == old(self).spec_dropped().push(old(self).spec_map()[*pid].pos)
                &&& final(self).spec_map() == old(self).spec_map().remove(*pid)
            },
            !old(self).spec_map().contains_key(*pid) ==> final(self).spec_dropped() == old(self).spec_dropped()
                && final(self).spec_map() == old(self).spec_map(),
    {
        let ph = self.pages_map.get(pid);
        if let Some(page_hit) = ph {
            let pos = page_hit.pos;
            self.dropped_pages.push(pos);
            self.pages_map.remove(pid);
            proof {
                assert forall|k: u64| #[trigger] self.spec_map().contains_key(k) implies self.spec_map()[k].pos < self.spec_pages().len() by {
                    assert(old(self).spec_map().contains_key(k));
                    assert(old(self).spec_map()[k].pos < old(self).spec_pages().len());
                }
                assert forall|i: int| 0 <= i < self.spec_dropped().len() implies #[trigger] self.spec_dropped()[i] < self.spec_pages().len() by {
                    if i < old(self).spec_dropped().len() {
                        assert(old(self).spec_dropped()[i] < old(self).spec_pages().len());
                    }
                }
            }
        }
    }
}

/// A hit count after one more hit, wrapping to zero past the largest count.
pub open spec fn next_hits(h: u64) -> u64 {
    if h == u64::MAX {
        0
    } else {
        (h + 1) as u64
    }
}

impl PageHits {
    /// The hits of a page just cached at `pos`.
    pub open spec fn new_spec(page_id: u64, pos: usize) -> PageHits {
        PageHits { page_id, hits: 0, pos, was_mut: false }
    }
}


/// A page put in the cache is what the cache then holds under its id: the
/// page written through the reference `put` returns is found at the page
/// id's position.
pub proof fn lemma_put_then_get(before: PageCache, after: PageCache, page_id: u64, pos: usize, stored: [u8; PAGE_SIZE])
    requires
        pos <= before.spec_pages().len(),
        after.spec_pages() == before.spec_pages().insert(pos as int, stored),
        after.spec_map() == before.spec_map().insert(page_id, PageHits::new_spec(page_id, pos)),
    ensures
        after.spec_map().contains_key(page_id),
        after.page_of(page_id) == stored,
{
}

} // verus!
