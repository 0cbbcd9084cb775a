//! The rescue engine: best-effort recovery of a page store from its
//! write-ahead log.
//!
//! Rescue never gives up on the whole store because of one bad page. It
//! replays every record of the log's valid prefix from the last checkpoint
//! onward, which rewrites the pages those records describe, and then sorts
//! every page into recovered or irrecoverable by its checksum.

use vstd::prelude::*;
use crate::page::{Page, PageView, PageError, PAYLOAD_SIZE, PAGE_TYPE_DATA, page_image, page_ok,
    parse_page, decode_page, lemma_page_round_trip, lemma_page_image_layout};
use crate::store::{PageStore, all_page_sized};
use crate::record::{LogRecord, RecordView, views, record_image, KIND_PAGE_WRITE};
use crate::wal::{valid_prefix, valid_len, from_lsn, log_image, chained, scan, records_from,
    lemma_torn_tail_is_dropped, lemma_from_lsn_tail};
use crate::encoding::get_bytes;

verus! {

/// What a rescue pass found.
#[derive(Debug, Clone, PartialEq, Eq)]
pub struct RescueReport {
    /// LSN of the last record that was replayed, or the checkpoint LSN
    /// when there was nothing to replay.
    pub last_good_lsn: u64,
    /// Ids of the pages that pass validation after replay, ascending.
    pub recovered: Vec<u64>,
    /// Ids of the pages that are still damaged after replay, ascending.
    pub irrecoverable: Vec<u64>,
    /// Offset in the log file at which the valid log ends.
    pub truncation_point: usize,
    /// How many pages were examined before the scan ended: all of them,
    /// unless the scan was cut short.
    pub pages_scanned: u64,
}

/// The page that a page-write record describes.
pub open spec fn page_of_record(r: RecordView) -> PageView {
    PageView { page_type: PAGE_TYPE_DATA, lsn: r.lsn, payload: r.payload }
}

/// Whether replaying `r` writes a page of a store that has `count` pages:
/// it is a page write with a full payload for an existing page or for the
/// next page to allocate.
pub open spec fn writes_page(r: RecordView, count: nat) -> bool {
    r.kind == KIND_PAGE_WRITE && r.payload.len() == PAYLOAD_SIZE && r.page_id <= count
}

/// The store after replaying one record.
pub open spec fn apply_record(pages: Seq<Seq<u8>>, r: RecordView) -> Seq<Seq<u8>> {
    if !writes_page(r, pages.len()) {
        pages
    } else if r.page_id < pages.len() {
        pages.update(r.page_id as int, page_image(page_of_record(r)))
    } else {
        pages.push(page_image(page_of_record(r)))
    }
}

/// The store after replaying records in order.
pub open spec fn apply_log(pages: Seq<Seq<u8>>, rs: Seq<RecordView>) -> Seq<Seq<u8>>
    decreases rs.len(),
{
    if rs.len() == 0 {
        pages
    } else {
        apply_record(apply_log(pages, rs.drop_last()), rs.last())
    }
}

/// The ids, ascending, of the pages whose validity is `ok`.
pub open spec fn ids_where(pages: Seq<Seq<u8>>, ok: bool) -> Seq<u64>
    decreases pages.len(),
{
    if pages.len() == 0 {
        Seq::empty()
    } else {
        let before = ids_where(pages.drop_last(), ok);
        if page_ok(pages.last()) == ok {
            before.push((pages.len() - 1) as u64)
        } else {
            before
        }
    }
}

/// The LSN up to which the store is known to be consistent.
pub open spec fn last_good(replayed: Seq<RecordView>, checkpoint_lsn: u64) -> u64 {
    if replayed.len() > 0 {
        replayed.last().lsn
    } else {
        checkpoint_lsn
    }
}

/// Replay keeps every page at page size and never removes a page.
pub proof fn lemma_apply_log_shape(pages: Seq<Seq<u8>>, rs: Seq<RecordView>)
    requires
        all_page_sized(pages),
    ensures
        all_page_sized(apply_log(pages, rs)),
        apply_log(pages, rs).len() >= pages.len(),
    decreases rs.len(),
{
    if rs.len() > 0 {
        lemma_apply_log_shape(pages, rs.drop_last());
        let r = rs.last();
        if writes_page(r, apply_log(pages, rs.drop_last()).len()) {
            lemma_page_image_layout(page_of_record(r));
        }
    }
}

/// A page that no replayed record addresses comes out of replay exactly as
/// it went in, damaged or not.
pub proof fn lemma_untouched_page_kept(pages: Seq<Seq<u8>>, rs: Seq<RecordView>, id: int)
    requires
        0 <= id < pages.len(),
        forall|k: int| 0 <= k < rs.len() ==> (#[trigger] rs[k]).page_id != id,
    ensures
        apply_log(pages, rs).len() >= pages.len(),
        apply_log(pages, rs)[id] == pages[id],
    decreases rs.len(),
{
    if rs.len() > 0 {
        let front = rs.drop_last();
        assert forall|k: int| 0 <= k < front.len() implies (#[trigger] front[k]).page_id != id by {
            assert(front[k] == rs[k]);
        }
        lemma_untouched_page_kept(pages, front, id);
        assert(rs.last() == rs[rs.len() - 1]);
    }
}

/// A page that the last replayed record rewrites passes validation
/// afterwards and holds that record's payload, whatever it held before.
pub proof fn lemma_rewritten_page_recovered(pages: Seq<Seq<u8>>, rs: Seq<RecordView>)
    requires
        rs.len() > 0,
        writes_page(rs.last(), apply_log(pages, rs.drop_last()).len()),
    ensures
        rs.last().page_id < apply_log(pages, rs).len(),
        parse_page(apply_log(pages, rs)[rs.last().page_id as int]) == Ok::<PageView, PageError>(
            page_of_record(rs.last()),
        ),
{
    lemma_page_round_trip(page_of_record(rs.last()));
}

/// Every page is listed exactly where its validity puts it: an id is among
/// `ids_where(pages, ok)` just when it names a page whose validity is `ok`.
pub proof fn lemma_ids_where_contains(pages: Seq<Seq<u8>>, ok: bool, id: u64)
    requires
        pages.len() <= u64::MAX,
    ensures
        ids_where(pages, ok).contains(id) <==> (id < pages.len() && page_ok(pages[id as int])
            == ok),
    decreases pages.len(),
{
    if pages.len() > 0 {
        let front = pages.drop_last();
        let before = ids_where(front, ok);
        lemma_ids_where_contains(front, ok, id);
        let last_id = (pages.len() - 1) as u64;
        if page_ok(pages.last()) == ok {
            let all = before.push(last_id);
            if all.contains(id) {
                let k = choose|k: int| 0 <= k < all.len() && all[k] == id;
                if k < before.len() {
                    assert(before[k] == id);
                }
            }
            if id == last_id {
                assert(all[before.len() as int] == id);
            }
            if before.contains(id) {
                let k = choose|k: int| 0 <= k < before.len() && before[k] == id;
                assert(all[k] == id);
            }
        }
        if id < front.len() {
            assert(front[id as int] == pages[id as int]);
        }
    }
}

/// Replay never damages a page: a page that passes validation before
/// replay passes it afterwards.
pub proof fn lemma_valid_pages_stay_valid(pages: Seq<Seq<u8>>, rs: Seq<RecordView>, id: int)
    requires
        0 <= id < pages.len(),
        page_ok(pages[id]),
    ensures
        id < apply_log(pages, rs).len(),
        page_ok(apply_log(pages, rs)[id]),
    decreases rs.len(),
{
    if rs.len() > 0 {
        lemma_valid_pages_stay_valid(pages, rs.drop_last(), id);
        let r = rs.last();
        if writes_page(r, apply_log(pages, rs.drop_last()).len()) {
            lemma_page_round_trip(page_of_record(r));
        }
    }
}

/// A damaged page that no replayed record addresses is reported as
/// irrecoverable, and every page that was valid before the rescue is
/// reported as recovered.
pub proof fn lemma_report_of_untouched_damage(
    pages: Seq<Seq<u8>>,
    rs: Seq<RecordView>,
    damaged: u64,
    other: u64,
)
    requires
        apply_log(pages, rs).len() <= u64::MAX,
        damaged < pages.len(),
        !page_ok(pages[damaged as int]),
        forall|k: int| 0 <= k < rs.len() ==> (#[trigger] rs[k]).page_id != damaged,
        other < pages.len(),
        page_ok(pages[other as int]),
    ensures
        ids_where(apply_log(pages, rs), false).contains(damaged),
        !ids_where(apply_log(pages, rs), true).contains(damaged),
        ids_where(apply_log(pages, rs), true).contains(other),
        !ids_where(apply_log(pages, rs), false).contains(other),
{
    let after = apply_log(pages, rs);
    lemma_untouched_page_kept(pages, rs, damaged as int);
    lemma_valid_pages_stay_valid(pages, rs, other as int);
    lemma_ids_where_contains(after, false, damaged);
    lemma_ids_where_contains(after, true, damaged);
    lemma_ids_where_contains(after, true, other);
    lemma_ids_where_contains(after, false, other);
}

/// A torn record at the end of the log changes nothing about a rescue:
/// the store comes out as if the log ended with its last complete record,
/// and that record's LSN is the last good one.
pub proof fn lemma_rescue_ignores_torn_tail(
    pages: Seq<Seq<u8>>,
    rs: Seq<RecordView>,
    r: RecordView,
    k: int,
    checkpoint_lsn: u64,
)
    requires
        chained(rs, None),
        r.wf(),
        0 <= k < record_image(r).len(),
    ensures
        ({
            let torn_file = log_image(rs) + record_image(r).take(k);
            let replayed = from_lsn(valid_prefix(torn_file, None), checkpoint_lsn);
            &&& replayed == from_lsn(rs, checkpoint_lsn)
            &&& apply_log(pages, replayed) == apply_log(pages, from_lsn(rs, checkpoint_lsn))
            &&& valid_len(torn_file, None) == log_image(rs).len()
            &&& replayed.len() > 0 ==> rs.len() > 0 && last_good(replayed, checkpoint_lsn)
                == rs.last().lsn
        }),
{
    lemma_torn_tail_is_dropped(rs, r, k);
    lemma_from_lsn_tail(rs, None, checkpoint_lsn);
}

/// Replays one record onto the store.
pub fn apply_one(store: &mut PageStore, r: &LogRecord)
    requires
        old(store).wf(),
    ensures
        final(store).wf(),
        final(store)@ == apply_record(old(store)@, r@),
{
    let count: u64 = store.page_count();
    if r.kind != KIND_PAGE_WRITE || r.payload.len() != PAYLOAD_SIZE || r.page_id > count {
        return ;
    }
    let payload: Vec<u8> = get_bytes(r.payload.as_slice(), 0, PAYLOAD_SIZE);
    assert(payload@ =~= r.payload@);
    let page = Page { page_type: PAGE_TYPE_DATA, lsn: r.lsn, payload };
    if r.page_id == count {
        let _id: u64 = store.allocate_page();
    }
    let _written = store.write_page(r.page_id, &page);
    assert(store@ =~= apply_record(old(store)@, r@));
}

/// How many pages a scan examines that may not go beyond `limit` pages.
pub open spec fn scanned(count: nat, limit: u64) -> int {
    if limit < count {
        limit as int
    } else {
        count as int
    }
}

/// Sorts the first `limit` pages of a store by validity: first the ids of
/// the pages that pass validation, then the ids of those that do not, both
/// ascending. Pages beyond the limit are not examined.
pub fn classify_prefix(store: &PageStore, limit: u64) -> (res: (Vec<u64>, Vec<u64>))
    requires
        store.wf(),
    ensures
        res.0@ == ids_where(store@.take(scanned(store@.len(), limit)), true),
        res.1@ == ids_where(store@.take(scanned(store@.len(), limit)), false),
{
    let mut good: Vec<u64> = Vec::new();
    let mut bad: Vec<u64> = Vec::new();
    let count: u64 = store.page_count();
    let end: u64 = if limit < count {
        limit
    } else {
        count
    };
    let mut id: u64 = 0;
    assert(store@.take(0) =~= Seq::<Seq<u8>>::empty());
    while id < end
        invariant
            id <= end <= count,
            count == store@.len(),
            store.wf(),
            good@ == ids_where(store@.take(id as int), true),
            bad@ == ids_where(store@.take(id as int), false),
        decreases end - id,
    {
        proof {
            assert(store@.take(id + 1).drop_last() =~= store@.take(id as int));
            assert(store@.take(id + 1).last() == store@[id as int]);
        }
        match decode_page(store.raw_page(id).as_slice()) {
            Ok(_) => {
                good.push(id);
            },
            Err(_) => {
                bad.push(id);
            },
        }
        id = id + 1;
    }
    (good, bad)
}

/// Sorts the pages of a store by validity: first the ids of the pages that
/// pass validation, then the ids of those that do not, both ascending.
pub fn classify(store: &PageStore) -> (res: (Vec<u64>, Vec<u64>))
    requires
        store.wf(),
    ensures
        res.0@ == ids_where(store@, true),
        res.1@ == ids_where(store@, false),
{
    assert(store@.take(store@.len() as int) =~= store@);
    classify_prefix(store, store.page_count())
}

/// Recovers a store from its write-ahead log, examining no more than
/// `page_budget` pages.
///
/// Replays the records of the log's valid prefix, from the first one whose
/// LSN is at least `checkpoint_lsn`, onto `store`, then sorts the pages by
/// validity until the budget is spent. A scan that is cut short still
/// reports what it found among the pages it examined.
pub fn rescue_within(
    store: &mut PageStore,
    wal_file: &[u8],
    checkpoint_lsn: u64,
    page_budget: u64,
) -> (report: RescueReport)
    requires
        old(store).wf(),
    ensures
        final(store).wf(),
        ({
            let replayed = from_lsn(valid_prefix(wal_file@, None), checkpoint_lsn);
            let examined = scanned(final(store)@.len(), page_budget);
            &&& final(store)@ == apply_log(old(store)@, replayed)
            &&& report.last_good_lsn == last_good(replayed, checkpoint_lsn)
            &&& report.pages_scanned == examined
            &&& report.recovered@ == ids_where(final(store)@.take(examined), true)
            &&& report.irrecoverable@ == ids_where(final(store)@.take(examined), false)
            &&& report.truncation_point == valid_len(wal_file@, None)
        }),
{
    let (recs, end) = scan(wal_file);
    let replayed: Vec<LogRecord> = records_from(&recs, checkpoint_lsn);
    let ghost vs = views(replayed@);
    let mut k: usize = 0;
    assert(vs.take(0) =~= Seq::<RecordView>::empty());
    while k < replayed.len()
        invariant
            k <= replayed.len(),
            vs == views(replayed@),
            store.wf(),
            store@ == apply_log(old(store)@, vs.take(k as int)),
        decreases replayed.len() - k,
    {
        proof {
            assert(vs.take(k + 1).drop_last() =~= vs.take(k as int));
            assert(vs.take(k + 1).last() == replayed@[k as int]@);
        }
        apply_one(store, &replayed[k]);
        k = k + 1;
    }
    assert(vs.take(k as int) =~= vs);
    let last_good_lsn: u64 = if replayed.len() > 0 {
        replayed[replayed.len() - 1].lsn
    } else {
        checkpoint_lsn
    };
    assert(replayed@.len() > 0 ==> vs.last() == replayed@[replayed@.len() - 1]@);
    let count: u64 = store.page_count();
    let pages_scanned: u64 = if page_budget < count {
        page_budget
    } else {
        count
    };
    let (recovered, irrecoverable) = classify_prefix(store, page_budget);
    RescueReport { last_good_lsn, recovered, irrecoverable, truncation_point: end, pages_scanned }
}

/// Recovers a store from its write-ahead log.
///
/// Replays the records of the log's valid prefix, from the first one whose
/// LSN is at least `checkpoint_lsn`, onto `store`, then reports which pages
/// are usable. Damaged pages and a torn log tail are tolerated: a store of
/// which nothing can be read yields a report with an empty recovered set.
pub fn rescue(store: &mut PageStore, wal_file: &[u8], checkpoint_lsn: u64) -> (report:
    RescueReport)
    requires
        old(store).wf(),
    ensures
        final(store).wf(),
        ({
            let replayed = from_lsn(valid_prefix(wal_file@, None), checkpoint_lsn);
            &&& final(store)@ == apply_log(old(store)@, replayed)
            &&& report.last_good_lsn == last_good(replayed, checkpoint_lsn)
            &&& report.pages_scanned == final(store)@.len()
            &&& report.recovered@ == ids_where(final(store)@, true)
            &&& report.irrecoverable@ == ids_where(final(store)@, false)
            &&& report.truncation_point == valid_len(wal_file@, None)
        }),
{
    let report = rescue_within(store, wal_file, checkpoint_lsn, u64::MAX);
    let count: u64 = store.page_count();
    assert(report.pages_scanned == count);
    assert(store@.take(count as int) =~= store@);
    report
}

} // verus!
