//! The page store: the pages of one data file, addressed by page id.
//!
//! The store keeps the raw image of every page exactly as it is persisted,
//! so a damaged page stays visible as damaged until it is overwritten.

use vstd::prelude::*;
use crate::page::{Page, PageView, PageError, PAGE_SIZE, page_image, parse_page, empty_page,
    encode_page, decode_page, lemma_page_round_trip};
use crate::encoding::{get_bytes, put_bytes};

verus! {

/// The pages of one data file. Page `i` is `slots[i]`.
#[derive(Debug, Clone, PartialEq, Eq)]
pub struct PageStore {
    pub slots: Vec<Vec<u8>>,
}

/// Why a page store operation failed.
#[derive(Debug, PartialEq, Eq, Structural, Clone, Copy)]
pub enum StoreError {
    /// The page id is not allocated.
    NoSuchPage,
    /// The page is corrupt: its checksum does not match its bytes.
    Checksum,
}

/// The byte sequences that a list of page buffers holds.
pub open spec fn images_of(slots: Seq<Vec<u8>>) -> Seq<Seq<u8>> {
    slots.map_values(|v: Vec<u8>| v@)
}

impl View for PageStore {
    type V = Seq<Seq<u8>>;

    open spec fn view(&self) -> Seq<Seq<u8>> {
        images_of(self.slots@)
    }
}

/// Copies a list of page buffers.
pub fn copy_images(src: &Vec<Vec<u8>>) -> (out: Vec<Vec<u8>>)
    ensures
        images_of(out@) == images_of(src@),
{
    let mut out: Vec<Vec<u8>> = Vec::new();
    let mut i: usize = 0;
    while i < src.len()
        invariant
            i <= src.len(),
            images_of(out@) == images_of(src@).take(i as int),
        decreases src.len() - i,
    {
        let image: Vec<u8> = get_bytes(src[i].as_slice(), 0, src[i].len());
        assert(image@ =~= src@[i as int]@);
        proof {
            let all = images_of(src@);
            assert(all[i as int] == src@[i as int]@);
            assert(images_of(out@.push(image)) =~= images_of(out@).push(image@));
            assert(all.take(i as int).push(all[i as int]) =~= all.take(i + 1));
        }
        out.push(image);
        i = i + 1;
    }
    assert(images_of(src@).take(i as int) =~= images_of(src@));
    out
}

/// Every image in `images` has the size of a page.
pub open spec fn all_page_sized(images: Seq<Seq<u8>>) -> bool {
    forall|i: int| 0 <= i < images.len() ==> (#[trigger] images[i]).len() == PAGE_SIZE
}

/// The image of the data file that holds `pages`: the page images one
/// after the other.
pub open spec fn file_image(pages: Seq<Seq<u8>>) -> Seq<u8>
    decreases pages.len(),
{
    if pages.len() == 0 {
        Seq::empty()
    } else {
        file_image(pages.drop_last()) + pages.last()
    }
}

/// In the image of a data file every page lies at its own offset, so that
/// splitting the image into pages yields the pages it was made of.
pub proof fn lemma_file_image_layout(pages: Seq<Seq<u8>>)
    requires
        all_page_sized(pages),
    ensures
        file_image(pages).len() == pages.len() * PAGE_SIZE,
        file_image(pages).len() / (PAGE_SIZE as nat) == pages.len(),
        forall|i: int|
            0 <= i < pages.len() ==> #[trigger] pages[i] == file_image(pages).subrange(
                i * PAGE_SIZE,
                (i + 1) * PAGE_SIZE,
            ),
    decreases pages.len(),
{
    if pages.len() > 0 {
        let front = pages.drop_last();
        lemma_file_image_layout(front);
        let whole = file_image(pages);
        assert forall|i: int| 0 <= i < pages.len() implies #[trigger] pages[i] == whole.subrange(
            i * PAGE_SIZE,
            (i + 1) * PAGE_SIZE,
        ) by {
            if i < front.len() {
                assert(front[i] == pages[i]);
                assert(whole.subrange(i * PAGE_SIZE, (i + 1) * PAGE_SIZE) =~= file_image(
                    front,
                ).subrange(i * PAGE_SIZE, (i + 1) * PAGE_SIZE));
            } else {
                assert(whole.subrange(i * PAGE_SIZE, (i + 1) * PAGE_SIZE) =~= pages.last());
            }
        }
    }
}

/// Appends the page images, one after the other, to `out`.
pub fn append_images(out: &mut Vec<u8>, slots: &Vec<Vec<u8>>)
    ensures
        final(out)@ == old(out)@ + file_image(images_of(slots@)),
{
    let ghost pages = images_of(slots@);
    let mut k: usize = 0;
    assert(pages.take(0) =~= Seq::<Seq<u8>>::empty());
    assert(out@ =~= old(out)@ + file_image(pages.take(0)));
    while k < slots.len()
        invariant
            k <= slots@.len(),
            pages == images_of(slots@),
            out@ == old(out)@ + file_image(pages.take(k as int)),
        decreases slots@.len() - k,
    {
        proof {
            assert(pages.take(k + 1).drop_last() =~= pages.take(k as int));
            assert(pages.take(k + 1).last() == slots@[k as int]@);
        }
        put_bytes(out, slots[k].as_slice());
        k = k + 1;
        assert(out@ =~= old(out)@ + file_image(pages.take(k as int)));
    }
    assert(pages.take(k as int) =~= pages);
}

impl PageStore {
    /// A store is well formed when every slot holds exactly one page image.
    pub open spec fn wf(&self) -> bool {
        all_page_sized(self@)
    }

    /// A store with no pages.
    pub fn new() -> (s: PageStore)
        ensures
            s@ == Seq::<Seq<u8>>::empty(),
            s.wf(),
    {
        let s = PageStore { slots: Vec::new() };
        assert(s@ =~= Seq::<Seq<u8>>::empty());
        s
    }

    /// Splits the image of a data file into pages. Bytes after the last
    /// complete page are ignored.
    pub fn from_bytes(file: &[u8]) -> (s: PageStore)
        ensures
            s.wf(),
            s@.len() == file@.len() / (PAGE_SIZE as nat),
            forall|i: int|
                0 <= i < s@.len() ==> #[trigger] s@[i] == file@.subrange(
                    i * PAGE_SIZE,
                    (i + 1) * PAGE_SIZE,
                ),
    {
        let n: usize = file.len() / PAGE_SIZE;
        let mut slots: Vec<Vec<u8>> = Vec::new();
        let mut k: usize = 0;
        while k < n
            invariant
                k <= n,
                n == file@.len() / (PAGE_SIZE as nat),
                n * PAGE_SIZE <= file@.len() <= usize::MAX,
                slots@.len() == k,
                forall|i: int|
                    0 <= i < k ==> (#[trigger] slots@[i])@ == file@.subrange(
                        i * PAGE_SIZE,
                        (i + 1) * PAGE_SIZE,
                    ),
            decreases n - k,
        {
            let image: Vec<u8> = get_bytes(file, k * PAGE_SIZE, PAGE_SIZE);
            slots.push(image);
            k = k + 1;
        }
        PageStore { slots }
    }

    /// The image of the data file that holds the pages of this store.
    pub fn to_bytes(&self) -> (file: Vec<u8>)
        ensures
            file@ == file_image(self@),
    {
        let mut file: Vec<u8> = Vec::new();
        append_images(&mut file, &self.slots);
        assert(file@ =~= file_image(self@));
        file
    }

    /// The number of allocated pages, which is also the next free page id.
    pub fn page_count(&self) -> (n: u64)
        ensures
            n == self@.len(),
    {
        self.slots.len() as u64
    }

    /// The persisted image of page `id`, unvalidated.
    pub fn raw_page(&self, id: u64) -> (image: &Vec<u8>)
        requires
            id < self@.len(),
        ensures
            image@ == self@[id as int],
    {
        let count: usize = self.slots.len();
        assert(id < count);
        &self.slots[id as usize]
    }

    /// Allocates the next free page id and persists a free page under it.
    /// Ids are handed out in increasing order and never reused.
    pub fn allocate_page(&mut self) -> (id: u64)
        requires
            old(self).wf(),
        ensures
            id == old(self)@.len(),
            final(self)@ == old(self)@.push(page_image(empty_page())),
            parse_page(final(self)@[id as int]) == Ok::<PageView, PageError>(empty_page()),
            final(self).wf(),
    {
        let id: u64 = self.slots.len() as u64;
        let page = Page::empty();
        let image: Vec<u8> = encode_page(&page);
        self.slots.push(image);
        proof {
            assert(self@ =~= old(self)@.push(page_image(empty_page())));
            lemma_page_round_trip(empty_page());
        }
        id
    }

    /// Persists `page` under `id`, with a freshly computed checksum.
    pub fn write_page(&mut self, id: u64, page: &Page) -> (res: Result<(), StoreError>)
        requires
            old(self).wf(),
            page.wf(),
        ensures
            final(self).wf(),
            id < old(self)@.len() ==> res is Ok && final(self)@ == old(self)@.update(
                id as int,
                page_image(page@),
            ) && parse_page(final(self)@[id as int]) == Ok::<PageView, PageError>(page@),
            id >= old(self)@.len() ==> res == Err::<(), StoreError>(StoreError::NoSuchPage)
                && *final(self) == *old(self),
    {
        if id >= self.slots.len() as u64 {
            return Err(StoreError::NoSuchPage);
        }
        let image: Vec<u8> = encode_page(page);
        self.slots[id as usize] = image;
        proof {
            assert(self@ =~= old(self)@.update(id as int, page_image(page@)));
            lemma_page_round_trip(page@);
        }
        Ok(())
    }

    /// Reads page `id`, verifying its checksum before returning it.
    pub fn read_page(&self, id: u64) -> (res: Result<Page, StoreError>)
        requires
            self.wf(),
        ensures
            match res {
                Ok(p) => id < self@.len() && p.wf() && parse_page(self@[id as int]) == Ok::<
                    PageView,
                    PageError,
                >(p@),
                Err(StoreError::NoSuchPage) => id >= self@.len(),
                Err(StoreError::Checksum) => id < self@.len() && parse_page(self@[id as int])
                    == Err::<PageView, PageError>(PageError::Checksum),
            },
    {
        if id >= self.slots.len() as u64 {
            return Err(StoreError::NoSuchPage);
        }
        assert(self@[id as int].len() == PAGE_SIZE);
        match decode_page(self.slots[id as usize].as_slice()) {
            Ok(p) => Ok(p),
            Err(_) => Err(StoreError::Checksum),
        }
    }
}

} // verus!
