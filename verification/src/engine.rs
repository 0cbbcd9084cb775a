//! Row operations: the path of a row from the codec through the
//! write-ahead log into the page store, and back.
//!
//! Page 0 is the header page; every later page holds one row. Every
//! change is logged before the page is written, and the page is written
//! exactly as a replay of the logged record would write it.

use vstd::prelude::*;
use crate::buffer::PageBuffer;
use crate::page::{Page, PAGE_TYPE_DATA, PAYLOAD_SIZE, MAX_PAYLOAD_DATA, page_image, parse_page,
    payload_image, payload_data, pack_payload, unpack_payload, lemma_page_round_trip,
    lemma_payload_round_trip, lemma_empty_payload_is_blank};
use crate::header::{FileHeader, header_page, header_of, reserved, replay_start,
    checkpoint_boundary, make_header_page, lemma_header_round_trip};
use crate::record::{RecordView, KIND_PAGE_WRITE, record_image};
use crate::rescue::{apply_record, apply_log, last_good, page_of_record};
use crate::row::{Row, ValueView, row_wf, row_image, parse_row, encode, decode,
    lemma_row_round_trip};
use crate::store::StoreError;
use crate::wal::{Wal, chained, follows, last_lsn, from_lsn, valid_prefix, valid_len, log_image,
    lemma_chained_push, lemma_from_last_lsn, lemma_torn_tail_is_dropped};
use crate::encoding::lemma_le32_inverse;

verus! {

/// Why a row was not written.
#[derive(Debug, PartialEq, Eq, Structural, Clone, Copy)]
pub enum WriteError {
    /// The row is not valid.
    InvalidRow,
    /// The encoded row does not fit into one page.
    RowTooLarge,
    /// The page is page 0, which holds the header and never a row.
    HeaderPage,
    /// The page is not allocated.
    NoSuchPage,
    /// Every LSN has been handed out.
    LsnExhausted,
}

/// Why a row was not read.
#[derive(Debug, PartialEq, Eq, Structural, Clone, Copy)]
pub enum ReadError {
    /// The page is page 0, which holds the header and never a row.
    HeaderPage,
    /// The page is not allocated.
    NoSuchPage,
    /// The page is corrupt.
    Checksum,
    /// The page does not hold the encoding of a row.
    Decode,
}

/// A valid row whose encoding fits into one page.
pub open spec fn row_fits(cols: Seq<Option<ValueView>>) -> bool {
    row_wf(cols) && row_image(cols).len() <= MAX_PAYLOAD_DATA
}

/// The record that logs writing `data` into page `page_id`.
pub open spec fn data_record(lsn: u64, page_id: u64, data: Seq<u8>) -> RecordView {
    payload_record(lsn, page_id, payload_image(data))
}

/// The row that a page image holds: `Ok(None)` for a page without a row.
pub open spec fn stored_row(image: Seq<u8>) -> Result<Option<Seq<Option<ValueView>>>, ReadError> {
    match parse_page(image) {
        Err(_) => Err(ReadError::Checksum),
        Ok(p) => match payload_data(p.payload) {
            None => Err(ReadError::Decode),
            Some(data) => if data.len() == 0 {
                Ok(None)
            } else {
                match parse_row(data) {
                    Some(cols) => Ok(Some(cols)),
                    None => Err(ReadError::Decode),
                }
            },
        },
    }
}

/// A row that was written is the row that is read: the page that a
/// logged row write produces holds that row.
pub proof fn lemma_written_row_is_stored(lsn: u64, page_id: u64, cols: Seq<Option<ValueView>>)
    requires
        row_fits(cols),
    ensures
        stored_row(page_image(page_of_record(data_record(lsn, page_id, row_image(cols))))) == Ok::<
            Option<Seq<Option<ValueView>>>,
            ReadError,
        >(Some(cols)),
{
    let data = row_image(cols);
    lemma_payload_round_trip(data);
    lemma_page_round_trip(page_of_record(data_record(lsn, page_id, data)));
    lemma_row_round_trip(cols);
    lemma_le32_inverse(cols.len() as u32, Seq::empty());
}

/// The dirty flags with the flag of page `id` set; the flag of a page
/// that is allocated by the write is added.
pub open spec fn marked(flags: Seq<bool>, id: u64) -> Seq<bool> {
    if id < flags.len() {
        flags.update(id as int, true)
    } else {
        flags.push(true)
    }
}

/// The dirty flags after page 0 was set aside for the header.
pub open spec fn reserved_flags(flags: Seq<bool>) -> Seq<bool> {
    if flags.len() == 0 {
        seq![true]
    } else {
        flags
    }
}

/// The record that logs writing `payload` into page `page_id`.
pub open spec fn payload_record(lsn: u64, page_id: u64, payload: Seq<u8>) -> RecordView {
    RecordView { lsn, page_id, kind: KIND_PAGE_WRITE, payload }
}

/// What a logged page write leaves behind: the log has grown by the
/// record `r` and by nothing else, nothing more is durable than before,
/// the store is what a replay of `r` makes of it, and the written page is
/// marked for the next flush while every other flag is as it was.
pub open spec fn logged_write(
    before: PageBuffer,
    log_before: Wal,
    after: PageBuffer,
    log_after: Wal,
    r: RecordView,
) -> bool {
    &&& r.lsn == log_before.next_lsn
    &&& r.lsn < u64::MAX
    &&& log_after.next_lsn == r.lsn + 1
    &&& log_after.bytes@ == log_before.bytes@ + record_image(r)
    &&& log_after.records() == log_before.records().push(r)
    &&& log_after.synced_len == log_before.synced_len
    &&& after.store@ == apply_record(before.store@, r)
    &&& after.dirty@ == marked(before.dirty@, r.page_id)
}

/// The page image that writing the row `cols` under `lsn` leaves in page
/// `page_id`.
pub open spec fn row_page(lsn: u64, page_id: u64, cols: Seq<Option<ValueView>>) -> Seq<u8> {
    page_image(page_of_record(data_record(lsn, page_id, row_image(cols))))
}

/// A crash in the middle of the write after a checkpoint loses that write
/// and nothing else.
///
/// Three rows are inserted under the LSNs `first`, `first + 1` and
/// `first + 2` into a store that has its header page; a checkpoint records
/// `first + 2` in the header and the store is flushed; a fourth row is
/// inserted without a sync, and the crash leaves only the first `k` bytes
/// of its record in the log. Rescue then starts at the checkpoint, reports
/// `first + 2` as the last good LSN, leaves the flushed store as it is,
/// with the three rows in their pages, and the fourth row has no page.
pub proof fn lemma_crash_after_checkpoint(
    pages: Seq<Seq<u8>>,
    log: Seq<RecordView>,
    first: u64,
    a: Seq<Option<ValueView>>,
    b: Seq<Option<ValueView>>,
    c: Seq<Option<ValueView>>,
    d: Seq<Option<ValueView>>,
    schema_version: u32,
    k: int,
)
    requires
        pages.len() >= 1,
        pages.len() + 4 <= u64::MAX,
        chained(log, None),
        follows(last_lsn(log, None), first),
        first + 3 < u64::MAX,
        row_fits(a),
        row_fits(b),
        row_fits(c),
        row_fits(d),
        0 <= k < record_image(
            data_record((first + 3) as u64, (pages.len() + 3) as u64, row_image(d)),
        ).len(),
    ensures
        ({
            let n = pages.len() as u64;
            let boundary = (first + 2) as u64;
            let h = FileHeader { page_size: 4096, schema_version, checkpoint_lsn: boundary };
            let written = pages.push(row_page(first, n, a)).push(
                row_page((first + 1) as u64, (n + 1) as u64, b),
            ).push(row_page(boundary, (n + 2) as u64, c));
            let flushed = written.update(0, page_image(header_page(h)));
            let synced = log.push(data_record(first, n, row_image(a))).push(
                data_record((first + 1) as u64, (n + 1) as u64, row_image(b)),
            ).push(data_record(boundary, (n + 2) as u64, row_image(c)));
            let torn = record_image(
                data_record((first + 3) as u64, (n + 3) as u64, row_image(d)),
            ).take(k);
            let wal_file = log_image(synced) + torn;
            let replayed = from_lsn(valid_prefix(wal_file, None), replay_start(flushed));
            let rescued = apply_log(flushed, replayed);
            &&& replay_start(flushed) == boundary
            &&& valid_len(wal_file, None) == log_image(synced).len()
            &&& last_good(replayed, replay_start(flushed)) == boundary
            &&& rescued == flushed
            &&& rescued.len() == n + 3
            &&& stored_row(rescued[n as int]) == Ok::<Option<Seq<Option<ValueView>>>, ReadError>(
                Some(a),
            )
            &&& stored_row(rescued[n + 1]) == Ok::<Option<Seq<Option<ValueView>>>, ReadError>(
                Some(b),
            )
            &&& stored_row(rescued[n + 2]) == Ok::<Option<Seq<Option<ValueView>>>, ReadError>(
                Some(c),
            )
        }),
{
    let n = pages.len() as u64;
    let boundary = (first + 2) as u64;
    let h = FileHeader { page_size: 4096, schema_version, checkpoint_lsn: boundary };
    let r1 = data_record(first, n, row_image(a));
    let r2 = data_record((first + 1) as u64, (n + 1) as u64, row_image(b));
    let r3 = data_record(boundary, (n + 2) as u64, row_image(c));
    let r4 = data_record((first + 3) as u64, (n + 3) as u64, row_image(d));
    lemma_payload_round_trip(row_image(a));
    lemma_payload_round_trip(row_image(b));
    lemma_payload_round_trip(row_image(c));
    lemma_payload_round_trip(row_image(d));
    let l1 = log.push(r1);
    let l2 = l1.push(r2);
    let synced = l2.push(r3);
    lemma_chained_push(log, r1, None);
    assert(l1.last() == r1);
    lemma_chained_push(l1, r2, None);
    assert(l2.last() == r2);
    lemma_chained_push(l2, r3, None);
    assert(synced.last() == r3);
    lemma_torn_tail_is_dropped(synced, r4, k);
    let written = pages.push(row_page(first, n, a)).push(
        row_page((first + 1) as u64, (n + 1) as u64, b),
    ).push(row_page(boundary, (n + 2) as u64, c));
    let flushed = written.update(0, page_image(header_page(h)));
    lemma_header_round_trip(h);
    assert(replay_start(flushed) == boundary);
    lemma_from_last_lsn(synced, None);
    let replayed = seq![r3];
    assert(replayed.drop_last() =~= Seq::<RecordView>::empty());
    assert(apply_log(flushed, replayed.drop_last()) == flushed);
    assert(replayed.last() == r3);
    assert(apply_record(flushed, r3) =~= flushed);
    assert(apply_log(flushed, replayed) == flushed);
    lemma_written_row_is_stored(first, n, a);
    lemma_written_row_is_stored((first + 1) as u64, (n + 1) as u64, b);
    lemma_written_row_is_stored(boundary, (n + 2) as u64, c);
}

/// Sets page 0 aside for the header: in an empty store the header page is
/// allocated and written, any other store is left as it is. Rows live in
/// the pages after it.
pub fn reserve_header(buffer: &mut PageBuffer)
    requires
        old(buffer).wf(),
    ensures
        final(buffer).wf(),
        final(buffer).store@ == reserved(old(buffer).store@),
        final(buffer).dirty@ == reserved_flags(old(buffer).dirty@),
        old(buffer).store@.len() > 0 ==> *final(buffer) == *old(buffer),
{
    if buffer.store.page_count() == 0 {
        let page = make_header_page(
            FileHeader { page_size: 4096, schema_version: 0, checkpoint_lsn: 0 },
        );
        let first: u64 = buffer.allocate_page();
        let written = buffer.write_page(first, &page);
        assert(written is Ok);
        assert(buffer.store@ =~= reserved(old(buffer).store@));
        assert(buffer.dirty@ =~= reserved_flags(old(buffer).dirty@));
    }
}

/// Logs and writes `payload` as the payload of page `page_id`, which is an
/// allocated page or the next page to allocate, and never page 0, the
/// header page. The record is appended to the log first; the page store
/// then changes exactly as a replay of that record changes it.
pub fn write_payload(buffer: &mut PageBuffer, wal: &mut Wal, page_id: u64, payload: Vec<u8>) -> (res:
    Result<u64, WriteError>)
    requires
        old(buffer).wf(),
        old(wal).wf(),
        payload@.len() == PAYLOAD_SIZE,
    ensures
        final(buffer).wf(),
        final(wal).wf(),
        match res {
            Ok(lsn) => 0 < page_id <= old(buffer).store@.len() && logged_write(
                *old(buffer),
                *old(wal),
                *final(buffer),
                *final(wal),
                payload_record(lsn, page_id, payload@),
            ),
            Err(WriteError::HeaderPage) => page_id == 0 && *final(buffer) == *old(buffer)
                && *final(wal) == *old(wal),
            Err(WriteError::NoSuchPage) => page_id > 0 && page_id > old(buffer).store@.len()
                && *final(buffer) == *old(buffer) && *final(wal) == *old(wal),
            Err(WriteError::LsnExhausted) => 0 < page_id <= old(buffer).store@.len() && old(
                wal,
            ).next_lsn == u64::MAX && *final(buffer) == *old(buffer) && *final(wal) == *old(wal),
            Err(_) => false,
        },
{
    if page_id == 0 {
        return Err(WriteError::HeaderPage);
    }
    let count: u64 = buffer.store.page_count();
    if page_id > count {
        return Err(WriteError::NoSuchPage);
    }
    let lsn: u64 = match wal.append(page_id, KIND_PAGE_WRITE, payload.as_slice()) {
        Ok(lsn) => lsn,
        Err(_) => {
            return Err(WriteError::LsnExhausted);
        },
    };
    let ghost r = payload_record(lsn, page_id, payload@);
    let page = Page { page_type: PAGE_TYPE_DATA, lsn, payload };
    if page_id == count {
        let fresh: u64 = buffer.allocate_page();
        assert(fresh == page_id);
    }
    let written = buffer.write_page(page_id, &page);
    assert(written is Ok);
    assert(buffer.store@ =~= apply_record(old(buffer).store@, r));
    assert(buffer.dirty@ =~= marked(old(buffer).dirty@, page_id));
    Ok(lsn)
}

/// Encodes a row and lays it out as a page payload.
pub fn payload_for_row(row: &Row) -> (res: Result<Vec<u8>, WriteError>)
    ensures
        match res {
            Ok(payload) => row_fits(row@) && payload@ == payload_image(row_image(row@))
                && payload@.len() == PAYLOAD_SIZE,
            Err(WriteError::InvalidRow) => !row_wf(row@),
            Err(WriteError::RowTooLarge) => row_wf(row@) && !row_fits(row@),
            Err(_) => false,
        },
{
    if !row.is_valid() {
        return Err(WriteError::InvalidRow);
    }
    let data: Vec<u8> = encode(row);
    match pack_payload(data.as_slice()) {
        Some(payload) => Ok(payload),
        None => Err(WriteError::RowTooLarge),
    }
}

/// Inserts a row into a new page. Page 0 is the header page: in an empty
/// store it is set aside first, so the first row gets page 1. Returns the
/// id of the page and the LSN of the record that logs the insert.
pub fn insert(buffer: &mut PageBuffer, wal: &mut Wal, row: &Row) -> (res: Result<
    (u64, u64),
    WriteError,
>)
    requires
        old(buffer).wf(),
        old(wal).wf(),
    ensures
        final(buffer).wf(),
        final(wal).wf(),
        match res {
            Ok((page_id, lsn)) => {
                let r = data_record(lsn, page_id, row_image(row@));
                &&& row_fits(row@)
                &&& page_id == reserved(old(buffer).store@).len()
                &&& page_id > 0
                &&& r.lsn == old(wal).next_lsn
                &&& r.lsn < u64::MAX
                &&& final(wal).next_lsn == lsn + 1
                &&& final(wal).bytes@ == old(wal).bytes@ + record_image(r)
                &&& final(wal).records() == old(wal).records().push(r)
                &&& final(wal).synced_len == old(wal).synced_len
                &&& final(buffer).store@ == reserved(old(buffer).store@).push(
                    page_image(page_of_record(r)),
                )
                &&& final(buffer).dirty@ == reserved_flags(old(buffer).dirty@).push(true)
            },
            Err(WriteError::InvalidRow) => !row_wf(row@) && *final(buffer) == *old(buffer)
                && *final(wal) == *old(wal),
            Err(WriteError::RowTooLarge) => row_wf(row@) && !row_fits(row@) && *final(buffer)
                == *old(buffer) && *final(wal) == *old(wal),
            Err(WriteError::LsnExhausted) => row_fits(row@) && old(wal).next_lsn == u64::MAX
                && *final(buffer) == *old(buffer) && *final(wal) == *old(wal),
            Err(_) => false,
        },
{
    let payload: Vec<u8> = match payload_for_row(row) {
        Ok(payload) => payload,
        Err(e) => {
            return Err(e);
        },
    };
    if wal.next_lsn == u64::MAX {
        return Err(WriteError::LsnExhausted);
    }
    reserve_header(buffer);
    let page_id: u64 = buffer.store.page_count();
    match write_payload(buffer, wal, page_id, payload) {
        Ok(lsn) => Ok((page_id, lsn)),
        Err(e) => Err(e),
    }
}

/// Replaces the row in an allocated page other than the header page.
/// Returns the LSN of the record that logs the update.
pub fn update(buffer: &mut PageBuffer, wal: &mut Wal, page_id: u64, row: &Row) -> (res: Result<
    u64,
    WriteError,
>)
    requires
        old(buffer).wf(),
        old(wal).wf(),
    ensures
        final(buffer).wf(),
        final(wal).wf(),
        match res {
            Ok(lsn) => row_fits(row@) && 0 < page_id < old(buffer).store@.len() && logged_write(
                *old(buffer),
                *old(wal),
                *final(buffer),
                *final(wal),
                data_record(lsn, page_id, row_image(row@)),
            ),
            Err(WriteError::InvalidRow) => !row_wf(row@) && *final(buffer) == *old(buffer)
                && *final(wal) == *old(wal),
            Err(WriteError::RowTooLarge) => row_wf(row@) && !row_fits(row@) && *final(buffer)
                == *old(buffer) && *final(wal) == *old(wal),
            Err(WriteError::HeaderPage) => row_fits(row@) && page_id == 0 && *final(buffer)
                == *old(buffer) && *final(wal) == *old(wal),
            Err(WriteError::NoSuchPage) => row_fits(row@) && page_id > 0 && page_id >= old(
                buffer,
            ).store@.len() && *final(buffer) == *old(buffer) && *final(wal) == *old(wal),
            Err(WriteError::LsnExhausted) => row_fits(row@) && 0 < page_id < old(
                buffer,
            ).store@.len() && old(wal).next_lsn == u64::MAX && *final(buffer) == *old(buffer)
                && *final(wal) == *old(wal),
        },
{
    let payload: Vec<u8> = match payload_for_row(row) {
        Ok(payload) => payload,
        Err(e) => {
            return Err(e);
        },
    };
    if page_id == 0 {
        return Err(WriteError::HeaderPage);
    }
    if page_id >= buffer.store.page_count() {
        return Err(WriteError::NoSuchPage);
    }
    write_payload(buffer, wal, page_id, payload)
}

/// Deletes the row in an allocated page other than the header page: the
/// page is kept and holds no row afterwards. Returns the LSN of the record
/// that logs the delete.
pub fn delete(buffer: &mut PageBuffer, wal: &mut Wal, page_id: u64) -> (res: Result<
    u64,
    WriteError,
>)
    requires
        old(buffer).wf(),
        old(wal).wf(),
    ensures
        final(buffer).wf(),
        final(wal).wf(),
        match res {
            Ok(lsn) => 0 < page_id < old(buffer).store@.len() && logged_write(
                *old(buffer),
                *old(wal),
                *final(buffer),
                *final(wal),
                data_record(lsn, page_id, Seq::empty()),
            ),
            Err(WriteError::HeaderPage) => page_id == 0 && *final(buffer) == *old(buffer)
                && *final(wal) == *old(wal),
            Err(WriteError::NoSuchPage) => page_id > 0 && page_id >= old(buffer).store@.len()
                && *final(buffer) == *old(buffer) && *final(wal) == *old(wal),
            Err(WriteError::LsnExhausted) => 0 < page_id < old(buffer).store@.len() && old(
                wal,
            ).next_lsn == u64::MAX && *final(buffer) == *old(buffer) && *final(wal) == *old(wal),
            Err(_) => false,
        },
{
    if page_id == 0 {
        return Err(WriteError::HeaderPage);
    }
    if page_id >= buffer.store.page_count() {
        return Err(WriteError::NoSuchPage);
    }
    let blank = Page::empty();
    proof {
        lemma_empty_payload_is_blank();
    }
    write_payload(buffer, wal, page_id, blank.payload)
}

/// Reads the row in a page other than the header page: `Ok(None)` when
/// the page holds no row.
pub fn fetch(buffer: &PageBuffer, page_id: u64) -> (res: Result<Option<Row>, ReadError>)
    requires
        buffer.wf(),
    ensures
        match res {
            Ok(Some(row)) => 0 < page_id < buffer.store@.len() && stored_row(
                buffer.store@[page_id as int],
            ) == Ok::<Option<Seq<Option<ValueView>>>, ReadError>(Some(row@)),
            Ok(None) => 0 < page_id < buffer.store@.len() && stored_row(
                buffer.store@[page_id as int],
            ) == Ok::<Option<Seq<Option<ValueView>>>, ReadError>(None),
            Err(ReadError::HeaderPage) => page_id == 0,
            Err(ReadError::NoSuchPage) => page_id > 0 && page_id >= buffer.store@.len(),
            Err(e) => 0 < page_id < buffer.store@.len() && stored_row(
                buffer.store@[page_id as int],
            ) == Err::<Option<Seq<Option<ValueView>>>, ReadError>(e),
        },
{
    if page_id == 0 {
        return Err(ReadError::HeaderPage);
    }
    let page: Page = match buffer.read_page(page_id) {
        Ok(p) => p,
        Err(StoreError::NoSuchPage) => {
            return Err(ReadError::NoSuchPage);
        },
        Err(StoreError::Checksum) => {
            return Err(ReadError::Checksum);
        },
    };
    let data: Vec<u8> = match unpack_payload(page.payload.as_slice()) {
        Some(d) => d,
        None => {
            return Err(ReadError::Decode);
        },
    };
    if data.len() == 0 {
        return Ok(None);
    }
    match decode(data.as_slice()) {
        Ok(row) => Ok(Some(row)),
        Err(_) => Err(ReadError::Decode),
    }
}

/// Completes a checkpoint: makes the log durable and records the LSN of
/// its last record, the checkpoint boundary, in the header page, which is
/// marked for the flush that follows. No page but page 0 changes. Returns
/// the boundary.
pub fn checkpoint(buffer: &mut PageBuffer, wal: &mut Wal, schema_version: u32) -> (lsn: u64)
    requires
        old(buffer).wf(),
        old(wal).wf(),
    ensures
        final(buffer).wf(),
        final(wal).wf(),
        final(wal).bytes == old(wal).bytes,
        final(wal).next_lsn == old(wal).next_lsn,
        final(wal).synced_len == old(wal).bytes@.len(),
        lsn == checkpoint_boundary(old(wal).next_lsn),
        final(buffer).store@ == reserved(old(buffer).store@).update(
            0,
            page_image(
                header_page(FileHeader { page_size: 4096, schema_version, checkpoint_lsn: lsn }),
            ),
        ),
        final(buffer).dirty@ == reserved_flags(old(buffer).dirty@).update(0, true),
        header_of(final(buffer).store@) == Some(
            FileHeader { page_size: 4096, schema_version, checkpoint_lsn: lsn },
        ),
{
    wal.sync();
    let lsn: u64 = if wal.next_lsn == 0 {
        0
    } else {
        wal.next_lsn - 1
    };
    reserve_header(buffer);
    let h = FileHeader { page_size: 4096, schema_version, checkpoint_lsn: lsn };
    let page = make_header_page(h);
    let written = buffer.write_page(0, &page);
    assert(written is Ok);
    proof {
        lemma_header_round_trip(h);
    }
    lsn
}

} // verus!
