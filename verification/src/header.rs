//! The header page of a data file and the checkpoint that updates it.
//!
//! Page 0 of a data file is its header: page size, schema version and the
//! LSN of the last checkpoint. Rescue reads the checkpoint LSN from it and,
//! when the header itself is damaged, falls back to replaying the whole
//! log.

use vstd::prelude::*;
use crate::encoding::{le32, le64, from_le32, from_le64, lemma_le32_inverse, lemma_le64_inverse,
    put_u32, put_u64, get_u32, get_u64};
use crate::page::{Page, PageView, PageError, PAYLOAD_SIZE, page_image, parse_page,
    decode_page, lemma_page_round_trip};
use crate::store::PageStore;
use crate::wal::{valid_prefix, valid_len, from_lsn, Wal};
use crate::rescue::{RescueReport, rescue, apply_log, ids_where, last_good};

verus! {

/// Page type of the header page.
pub const PAGE_TYPE_HEADER: u8 = 2;

/// Bytes of the header payload that carry data.
pub const HEADER_FIELDS_SIZE: usize = 16;

/// What the header page of a data file records.
#[derive(Debug, PartialEq, Eq, Structural, Clone, Copy)]
pub struct FileHeader {
    pub page_size: u32,
    pub schema_version: u32,
    pub checkpoint_lsn: u64,
}

/// The payload of the header page: page size, schema version, checkpoint
/// LSN, then zeros.
pub open spec fn header_payload(h: FileHeader) -> Seq<u8> {
    le32(h.page_size) + le32(h.schema_version) + le64(h.checkpoint_lsn) + Seq::new(
        (PAYLOAD_SIZE - HEADER_FIELDS_SIZE) as nat,
        |k: int| 0u8,
    )
}

/// The header page.
pub open spec fn header_page(h: FileHeader) -> PageView {
    PageView { page_type: PAGE_TYPE_HEADER, lsn: h.checkpoint_lsn, payload: header_payload(h) }
}

/// The header that a page holds, if it is a header page.
pub open spec fn header_of_page(p: PageView) -> Option<FileHeader> {
    if p.page_type != PAGE_TYPE_HEADER || p.payload.len() < HEADER_FIELDS_SIZE {
        None
    } else {
        Some(
            FileHeader {
                page_size: from_le32(p.payload.subrange(0, 4)),
                schema_version: from_le32(p.payload.subrange(4, 8)),
                checkpoint_lsn: from_le64(p.payload.subrange(8, 16)),
            },
        )
    }
}

/// The header of a data file that was just created: no checkpoint yet.
pub open spec fn fresh_header() -> FileHeader {
    FileHeader { page_size: 4096, schema_version: 0, checkpoint_lsn: 0 }
}

/// The pages with page 0 set aside for the header: an empty file gets a
/// fresh header page, any other file is left as it is.
pub open spec fn reserved(pages: Seq<Seq<u8>>) -> Seq<Seq<u8>> {
    if pages.len() == 0 {
        seq![page_image(header_page(fresh_header()))]
    } else {
        pages
    }
}

/// The header of a data file: `None` when the file has no page 0, when
/// page 0 fails validation, or when it is not a header page.
pub open spec fn header_of(pages: Seq<Seq<u8>>) -> Option<FileHeader> {
    if pages.len() == 0 {
        None
    } else {
        match parse_page(pages[0]) {
            Ok(p) => header_of_page(p),
            Err(_) => None,
        }
    }
}

/// The LSN from which rescue replays the log: that of the last checkpoint,
/// or 0, the whole log, when the header cannot be read.
pub open spec fn replay_start(pages: Seq<Seq<u8>>) -> u64 {
    match header_of(pages) {
        Some(h) => h.checkpoint_lsn,
        None => 0,
    }
}

/// A header written to its page is read back from it.
pub proof fn lemma_header_round_trip(h: FileHeader)
    ensures
        header_page(h).wf(),
        header_of_page(header_page(h)) == Some(h),
        parse_page(page_image(header_page(h))) == Ok::<PageView, PageError>(header_page(h)),
{
    lemma_le32_inverse(h.page_size, Seq::empty());
    lemma_le32_inverse(h.schema_version, Seq::empty());
    lemma_le64_inverse(h.checkpoint_lsn, Seq::empty());
    let payload = header_payload(h);
    assert(payload.subrange(0, 4) =~= le32(h.page_size));
    assert(payload.subrange(4, 8) =~= le32(h.schema_version));
    assert(payload.subrange(8, 16) =~= le64(h.checkpoint_lsn));
    lemma_page_round_trip(header_page(h));
}

/// Builds the header page.
pub fn make_header_page(h: FileHeader) -> (page: Page)
    ensures
        page@ == header_page(h),
        page.wf(),
{
    let mut payload: Vec<u8> = Vec::new();
    put_u32(&mut payload, h.page_size);
    put_u32(&mut payload, h.schema_version);
    put_u64(&mut payload, h.checkpoint_lsn);
    let ghost head = payload@;
    let fill: usize = PAYLOAD_SIZE - HEADER_FIELDS_SIZE;
    let mut i: usize = 0;
    assert(payload@ =~= head + Seq::new(0nat, |k: int| 0u8));
    while i < fill
        invariant
            i <= fill,
            payload@ == head + Seq::new(i as nat, |k: int| 0u8),
        decreases fill - i,
    {
        payload.push(0u8);
        i = i + 1;
        assert(payload@ =~= head + Seq::new(i as nat, |k: int| 0u8));
    }
    proof {
        lemma_header_round_trip(h);
    }
    Page { page_type: PAGE_TYPE_HEADER, lsn: h.checkpoint_lsn, payload }
}

/// Reads the header of a data file.
pub fn read_header(store: &PageStore) -> (res: Option<FileHeader>)
    requires
        store.wf(),
    ensures
        res == header_of(store@),
{
    if store.page_count() == 0 {
        return None;
    }
    match decode_page(store.raw_page(0).as_slice()) {
        Ok(p) => {
            if p.page_type != PAGE_TYPE_HEADER {
                return None;
            }
            let bytes = p.payload.as_slice();
            Some(
                FileHeader {
                    page_size: get_u32(bytes, 0),
                    schema_version: get_u32(bytes, 4),
                    checkpoint_lsn: get_u64(bytes, 8),
                },
            )
        },
        Err(_) => None,
    }
}

/// Writes the header into page 0, allocating the page in an empty store.
pub fn write_header(store: &mut PageStore, h: FileHeader)
    requires
        old(store).wf(),
    ensures
        final(store).wf(),
        header_of(final(store)@) == Some(h),
        old(store)@.len() == 0 ==> final(store)@ == seq![page_image(header_page(h))],
        old(store)@.len() > 0 ==> final(store)@ == old(store)@.update(
            0,
            page_image(header_page(h)),
        ),
{
    let page = make_header_page(h);
    if store.page_count() == 0 {
        let _id: u64 = store.allocate_page();
    }
    let _written = store.write_page(0, &page);
    proof {
        lemma_header_round_trip(h);
        if old(store)@.len() == 0 {
            assert(store@ =~= seq![page_image(header_page(h))]);
        }
    }
}

/// Completes a checkpoint: makes the log durable and records the LSN of
/// its last record, the checkpoint boundary, in the header. Returns the
/// boundary. The pages themselves are persisted by the caller before this.
pub fn checkpoint(store: &mut PageStore, wal: &mut Wal, schema_version: u32) -> (lsn: u64)
    requires
        old(store).wf(),
        old(wal).wf(),
    ensures
        final(store).wf(),
        final(wal).wf(),
        final(wal).bytes == old(wal).bytes,
        final(wal).next_lsn == old(wal).next_lsn,
        final(wal).synced_len == old(wal).bytes@.len(),
        lsn == checkpoint_boundary(old(wal).next_lsn),
        header_of(final(store)@) == Some(
            FileHeader { page_size: 4096, schema_version, checkpoint_lsn: lsn },
        ),
        old(store)@.len() == 0 ==> final(store)@ == seq![
            page_image(
                header_page(FileHeader { page_size: 4096, schema_version, checkpoint_lsn: lsn }),
            ),
        ],
        old(store)@.len() > 0 ==> final(store)@ == old(store)@.update(
            0,
            page_image(
                header_page(FileHeader { page_size: 4096, schema_version, checkpoint_lsn: lsn }),
            ),
        ),
{
    wal.sync();
    let lsn: u64 = if wal.next_lsn == 0 {
        0
    } else {
        wal.next_lsn - 1
    };
    write_header(store, FileHeader { page_size: 4096, schema_version, checkpoint_lsn: lsn });
    lsn
}

/// The checkpoint boundary of a log whose next record gets `next_lsn`: the
/// LSN handed out last.
pub open spec fn checkpoint_boundary(next_lsn: u64) -> u64 {
    if next_lsn == 0 {
        0
    } else {
        (next_lsn - 1) as u64
    }
}

/// Recovers a data file from its log, starting at the checkpoint that the
/// file's header records, or at the start of the log when the header is
/// damaged.
pub fn rescue_store(store: &mut PageStore, wal_file: &[u8]) -> (report: RescueReport)
    requires
        old(store).wf(),
    ensures
        final(store).wf(),
        ({
            let start = replay_start(old(store)@);
            let replayed = from_lsn(valid_prefix(wal_file@, None), start);
            &&& final(store)@ == apply_log(old(store)@, replayed)
            &&& report.last_good_lsn == last_good(replayed, start)
            &&& report.pages_scanned == final(store)@.len()
            &&& report.recovered@ == ids_where(final(store)@, true)
            &&& report.irrecoverable@ == ids_where(final(store)@, false)
            &&& report.truncation_point == valid_len(wal_file@, None)
        }),
{
    let start: u64 = match read_header(store) {
        Some(h) => h.checkpoint_lsn,
        None => 0,
    };
    rescue(store, wal_file, start)
}

} // verus!
