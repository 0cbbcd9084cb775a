//! The write buffer in front of a page store: it remembers which pages
//! were written since the last flush, so that a flush persists exactly
//! those.

use vstd::prelude::*;
use crate::page::{Page, PageView, PageError, page_image, parse_page, empty_page};
use crate::store::{PageStore, StoreError};

verus! {

/// A page store together with one dirty flag per page.
#[derive(Debug, Clone, PartialEq, Eq)]
pub struct PageBuffer {
    pub store: PageStore,
    pub dirty: Vec<bool>,
}

/// The ids, ascending, of the pages whose flag is set.
pub open spec fn flagged_ids(flags: Seq<bool>) -> Seq<u64>
    decreases flags.len(),
{
    if flags.len() == 0 {
        Seq::empty()
    } else {
        let before = flagged_ids(flags.drop_last());
        if flags.last() {
            before.push((flags.len() - 1) as u64)
        } else {
            before
        }
    }
}

/// `n` flags, none of them set.
pub open spec fn all_clean(n: nat) -> Seq<bool> {
    Seq::new(n, |i: int| false)
}

/// Without a set flag no page is listed.
pub proof fn lemma_clean_has_no_ids(n: nat)
    ensures
        flagged_ids(all_clean(n)) == Seq::<u64>::empty(),
    decreases n,
{
    if n > 0 {
        assert(all_clean(n).drop_last() =~= all_clean((n - 1) as nat));
        lemma_clean_has_no_ids((n - 1) as nat);
    }
}

/// A page is listed exactly when its flag is set.
pub proof fn lemma_flagged_ids_contains(flags: Seq<bool>, id: u64)
    requires
        flags.len() <= u64::MAX,
    ensures
        flagged_ids(flags).contains(id) <==> (id < flags.len() && flags[id as int]),
    decreases flags.len(),
{
    if flags.len() > 0 {
        let front = flags.drop_last();
        let before = flagged_ids(front);
        lemma_flagged_ids_contains(front, id);
        let last_id = (flags.len() - 1) as u64;
        if flags.last() {
            let all = before.push(last_id);
            if all.contains(id) {
                let k = choose|k: int| 0 <= k < all.len() && all[k] == id;
                if k < before.len() {
                    assert(before[k] == id);
                }
            }
            if id == last_id {
                assert(all[before.len() as int] == id);
            }
            if before.contains(id) {
                let k = choose|k: int| 0 <= k < before.len() && before[k] == id;
                assert(all[k] == id);
            }
        }
        if id < front.len() {
            assert(front[id as int] == flags[id as int]);
        }
    }
}

impl PageBuffer {
    /// The store is well formed and every page has its flag.
    pub open spec fn wf(&self) -> bool {
        self.store.wf() && self.dirty@.len() == self.store@.len()
    }

    /// Puts a buffer in front of a store whose pages are all persisted.
    pub fn open(store: PageStore) -> (b: PageBuffer)
        requires
            store.wf(),
        ensures
            b.wf(),
            b.store == store,
            b.dirty@ == all_clean(store@.len()),
    {
        let n: u64 = store.page_count();
        let mut dirty: Vec<bool> = Vec::new();
        let mut i: u64 = 0;
        while i < n
            invariant
                i <= n,
                dirty@ == all_clean(i as nat),
            decreases n - i,
        {
            dirty.push(false);
            i = i + 1;
            assert(dirty@ =~= all_clean(i as nat));
        }
        PageBuffer { store, dirty }
    }

    /// Allocates the next free page id; the new page awaits its flush.
    pub fn allocate_page(&mut self) -> (id: u64)
        requires
            old(self).wf(),
        ensures
            final(self).wf(),
            id == old(self).store@.len(),
            final(self).store@ == old(self).store@.push(page_image(empty_page())),
            final(self).dirty@ == old(self).dirty@.push(true),
    {
        let id: u64 = self.store.allocate_page();
        self.dirty.push(true);
        id
    }

    /// Writes a page into the buffer and marks it for the next flush.
    pub fn write_page(&mut self, id: u64, page: &Page) -> (res: Result<(), StoreError>)
        requires
            old(self).wf(),
            page.wf(),
        ensures
            final(self).wf(),
            id < old(self).store@.len() ==> res is Ok && final(self).store@ == old(
                self,
            ).store@.update(id as int, page_image(page@)) && final(self).dirty@ == old(
                self,
            ).dirty@.update(id as int, true),
            id >= old(self).store@.len() ==> res == Err::<(), StoreError>(StoreError::NoSuchPage)
                && *final(self) == *old(self),
    {
        match self.store.write_page(id, page) {
            Ok(_) => {
                let flags: usize = self.dirty.len();
                assert(id < flags);
                self.dirty[id as usize] = true;
                assert(self.dirty@ =~= old(self).dirty@.update(id as int, true));
                Ok(())
            },
            Err(e) => Err(e),
        }
    }

    /// Reads a page as the buffer holds it, verifying its checksum.
    pub fn read_page(&self, id: u64) -> (res: Result<Page, StoreError>)
        requires
            self.wf(),
        ensures
            match res {
                Ok(p) => id < self.store@.len() && p.wf() && parse_page(self.store@[id as int])
                    == Ok::<PageView, PageError>(p@),
                Err(StoreError::NoSuchPage) => id >= self.store@.len(),
                Err(StoreError::Checksum) => id < self.store@.len() && parse_page(
                    self.store@[id as int],
                ) == Err::<PageView, PageError>(PageError::Checksum),
            },
    {
        self.store.read_page(id)
    }

    /// Starts a flush: returns the ids of the pages written since the last
    /// flush, ascending, and marks every page as clean. The caller
    /// persists the listed pages; that is the durability barrier.
    pub fn flush(&mut self) -> (ids: Vec<u64>)
        requires
            old(self).wf(),
        ensures
            final(self).wf(),
            final(self).store == old(self).store,
            ids@ == flagged_ids(old(self).dirty@),
            final(self).dirty@ == all_clean(old(self).dirty@.len()),
    {
        let n: usize = self.dirty.len();
        let ghost flags = self.dirty@;
        let mut ids: Vec<u64> = Vec::new();
        let mut i: usize = 0;
        assert(flags.take(0) =~= Seq::<bool>::empty());
        assert(self.dirty@ =~= all_clean(0) + flags.skip(0));
        while i < n
            invariant
                i <= n,
                n == flags.len(),
                self.store == old(self).store,
                self.dirty@.len() == n,
                self.dirty@ == all_clean(i as nat) + flags.skip(i as int),
                ids@ == flagged_ids(flags.take(i as int)),
            decreases n - i,
        {
            proof {
                assert(flags.take(i + 1).drop_last() =~= flags.take(i as int));
                assert(flags.take(i + 1).last() == flags[i as int]);
                assert(self.dirty@[i as int] == flags.skip(i as int)[0]);
            }
            if self.dirty[i] {
                ids.push(i as u64);
                self.dirty[i] = false;
            }
            i = i + 1;
            assert(self.dirty@ =~= all_clean(i as nat) + flags.skip(i as int));
        }
        assert(flags.take(n as int) =~= flags);
        assert(self.dirty@ =~= all_clean(n as nat));
        ids
    }
}

} // verus!
