//! The write-ahead log: an append-only file of checksummed records with
//! gapless, strictly increasing LSNs.
//!
//! The log is handled as the byte image of its file. Reading it yields the
//! longest prefix of complete, valid, correctly numbered records; whatever
//! follows that prefix is the remains of a torn write and is ignored.

use vstd::prelude::*;
use crate::record::{LogRecord, RecordView, views, record_image, parse_record, encode_record,
    decode_record, lemma_parse_record_image, lemma_parse_torn_record, lemma_parsed_is_image,
    MAX_RECORD_PAYLOAD};
use crate::encoding::{get_bytes, put_bytes};

verus! {

/// Whether a record with this LSN may follow a record with LSN `after`
/// (`None`: it is the first record of the file, and any LSN will do).
pub open spec fn follows(after: Option<u64>, lsn: u64) -> bool {
    after is Some ==> lsn == after.unwrap() + 1
}

/// The records of the longest valid prefix of a log file.
pub open spec fn valid_prefix(bytes: Seq<u8>, after: Option<u64>) -> Seq<RecordView>
    decreases bytes.len(),
{
    match parse_record(bytes) {
        Some((r, n)) => if follows(after, r.lsn) {
            seq![r] + valid_prefix(bytes.skip(n), Some(r.lsn))
        } else {
            Seq::empty()
        },
        None => Seq::empty(),
    }
}

/// The length in bytes of the longest valid prefix of a log file: the
/// point at which the file is to be cut.
pub open spec fn valid_len(bytes: Seq<u8>, after: Option<u64>) -> int
    decreases bytes.len(),
{
    match parse_record(bytes) {
        Some((r, n)) => if follows(after, r.lsn) {
            n + valid_len(bytes.skip(n), Some(r.lsn))
        } else {
            0
        },
        None => 0,
    }
}

/// The file image of a sequence of records.
pub open spec fn log_image(rs: Seq<RecordView>) -> Seq<u8>
    decreases rs.len(),
{
    if rs.len() == 0 {
        Seq::empty()
    } else {
        record_image(rs[0]) + log_image(rs.skip(1))
    }
}

/// The records are well formed and numbered without gaps, the first one
/// following `after`.
pub open spec fn chained(rs: Seq<RecordView>, after: Option<u64>) -> bool
    decreases rs.len(),
{
    if rs.len() == 0 {
        true
    } else {
        rs[0].wf() && follows(after, rs[0].lsn) && chained(rs.skip(1), Some(rs[0].lsn))
    }
}

/// The LSN that the next record has to follow.
pub open spec fn last_lsn(rs: Seq<RecordView>, after: Option<u64>) -> Option<u64> {
    if rs.len() == 0 {
        after
    } else {
        Some(rs.last().lsn)
    }
}

/// The records from the first one whose LSN is at least `from` onward.
pub open spec fn from_lsn(rs: Seq<RecordView>, from: u64) -> Seq<RecordView>
    decreases rs.len(),
{
    if rs.len() == 0 || rs[0].lsn >= from {
        rs
    } else {
        from_lsn(rs.skip(1), from)
    }
}

/// The LSN after `lsn`, saturating at the largest one.
pub open spec fn lsn_after(lsn: u64) -> u64 {
    if lsn == u64::MAX {
        lsn
    } else {
        (lsn + 1) as u64
    }
}

/// Reading the image of a well-numbered log, followed by anything, yields
/// all of its records and then whatever the rest yields.
pub proof fn lemma_scan_log(rs: Seq<RecordView>, tail: Seq<u8>, after: Option<u64>)
    requires
        chained(rs, after),
    ensures
        valid_prefix(log_image(rs) + tail, after) == rs + valid_prefix(
            tail,
            last_lsn(rs, after),
        ),
        valid_len(log_image(rs) + tail, after) == log_image(rs).len() + valid_len(
            tail,
            last_lsn(rs, after),
        ),
    decreases rs.len(),
{
    if rs.len() == 0 {
        assert(log_image(rs) + tail =~= tail);
        assert(rs + valid_prefix(tail, after) =~= valid_prefix(tail, after));
    } else {
        let r = rs[0];
        let rest = rs.skip(1);
        let bytes = log_image(rs) + tail;
        let n = record_image(r).len() as int;
        assert(bytes =~= record_image(r) + (log_image(rest) + tail));
        lemma_parse_record_image(r, log_image(rest) + tail);
        assert(bytes.skip(n) =~= log_image(rest) + tail);
        lemma_scan_log(rest, tail, Some(r.lsn));
        if rest.len() > 0 {
            assert(rest.last() == rs.last());
        }
        let more = valid_prefix(tail, last_lsn(rs, after));
        assert(seq![r] + (rest + more) =~= rs + more);
    }
}

/// The valid prefix of any file is a well-numbered log, and its image is
/// exactly the bytes up to the cut.
pub proof fn lemma_valid_prefix_image(bytes: Seq<u8>, after: Option<u64>)
    ensures
        chained(valid_prefix(bytes, after), after),
        0 <= valid_len(bytes, after) <= bytes.len(),
        log_image(valid_prefix(bytes, after)) == bytes.take(valid_len(bytes, after)),
    decreases bytes.len(),
{
    let vp = valid_prefix(bytes, after);
    match parse_record(bytes) {
        Some((r, n)) => {
            if follows(after, r.lsn) {
                lemma_parsed_is_image(bytes);
                let rest = bytes.skip(n);
                lemma_valid_prefix_image(rest, Some(r.lsn));
                let more = valid_prefix(rest, Some(r.lsn));
                assert(vp[0] == r);
                assert(vp.skip(1) =~= more);
                let m = valid_len(rest, Some(r.lsn));
                assert(bytes.take(n) + rest.take(m) =~= bytes.take(n + m));
            } else {
                assert(bytes.take(0) =~= Seq::<u8>::empty());
            }
        },
        None => {
            assert(bytes.take(0) =~= Seq::<u8>::empty());
        },
    }
}

/// The image of a log grows by the image of each appended record.
pub proof fn lemma_log_image_push(rs: Seq<RecordView>, r: RecordView)
    ensures
        log_image(rs.push(r)) == log_image(rs) + record_image(r),
    decreases rs.len(),
{
    let all = rs.push(r);
    if rs.len() == 0 {
        assert(all.skip(1) =~= Seq::<RecordView>::empty());
        assert(log_image(all.skip(1)) =~= Seq::<u8>::empty());
        assert(log_image(all) =~= log_image(rs) + record_image(r));
    } else {
        assert(all.skip(1) =~= rs.skip(1).push(r));
        lemma_log_image_push(rs.skip(1), r);
        assert(log_image(all) =~= log_image(rs) + record_image(r));
    }
}

/// The records from a given LSN onward are a tail of the log: still well
/// numbered, and ending where the log ends.
pub proof fn lemma_from_lsn_tail(rs: Seq<RecordView>, after: Option<u64>, from: u64)
    requires
        chained(rs, after),
    ensures
        chained(from_lsn(rs, from), None),
        from_lsn(rs, from).len() > 0 ==> rs.len() > 0 && from_lsn(rs, from).last() == rs.last(),
    decreases rs.len(),
{
    if rs.len() == 0 || rs[0].lsn >= from {
    } else {
        lemma_from_lsn_tail(rs.skip(1), Some(rs[0].lsn), from);
    }
}

/// A well-numbered log stays well numbered when the record with the next
/// LSN is added at its end.
pub proof fn lemma_chained_push(rs: Seq<RecordView>, r: RecordView, after: Option<u64>)
    requires
        chained(rs, after),
        r.wf(),
        follows(last_lsn(rs, after), r.lsn),
    ensures
        chained(rs.push(r), after),
    decreases rs.len(),
{
    let all = rs.push(r);
    if rs.len() == 0 {
        assert(all[0] == r);
        assert(all.skip(1) =~= Seq::<RecordView>::empty());
        assert(chained(all.skip(1), Some(r.lsn)));
    } else {
        assert(all.skip(1) =~= rs.skip(1).push(r));
        assert(all[0] == rs[0]);
        if rs.len() > 1 {
            assert(rs.skip(1).last() == rs.last());
        }
        lemma_chained_push(rs.skip(1), r, Some(rs[0].lsn));
        assert(chained(all.skip(1), Some(all[0].lsn)));
    }
}

/// In a well-numbered log the LSNs count up by one from the first record.
pub proof fn lemma_chained_lsn(rs: Seq<RecordView>, after: Option<u64>, i: int)
    requires
        chained(rs, after),
        0 <= i < rs.len(),
    ensures
        rs[i].lsn == rs[0].lsn + i,
    decreases rs.len(),
{
    if i > 0 {
        lemma_chained_lsn(rs.skip(1), Some(rs[0].lsn), i - 1);
    }
}

/// Replaying a well-numbered log from the LSN of its last record yields
/// that record alone.
pub proof fn lemma_from_last_lsn(rs: Seq<RecordView>, after: Option<u64>)
    requires
        chained(rs, after),
        rs.len() > 0,
    ensures
        from_lsn(rs, rs.last().lsn) == seq![rs.last()],
    decreases rs.len(),
{
    if rs.len() == 1 {
        assert(rs =~= seq![rs.last()]);
    } else {
        lemma_chained_lsn(rs, after, rs.len() - 1);
        assert(rs.skip(1).last() == rs.last());
        lemma_from_last_lsn(rs.skip(1), Some(rs[0].lsn));
    }
}

/// Every record of a well-numbered log is well formed.
pub proof fn lemma_chained_wf(rs: Seq<RecordView>, after: Option<u64>, i: int)
    requires
        chained(rs, after),
        0 <= i < rs.len(),
    ensures
        rs[i].wf(),
    decreases rs.len(),
{
    if i > 0 {
        lemma_chained_wf(rs.skip(1), Some(rs[0].lsn), i - 1);
    }
}

/// Durability of what was appended: a file that holds a well-numbered log
/// followed by the complete image of the next record reads back as the log
/// with that record at its end.
pub proof fn lemma_appended_record_is_replayed(rs: Seq<RecordView>, r: RecordView)
    requires
        chained(rs, None),
        r.wf(),
        follows(last_lsn(rs, None), r.lsn),
    ensures
        valid_prefix(log_image(rs) + record_image(r), None) == rs.push(r),
        valid_len(log_image(rs) + record_image(r), None) == log_image(rs).len() + record_image(
            r,
        ).len(),
        from_lsn(rs.push(r), 0) == rs.push(r),
{
    lemma_scan_log(rs, record_image(r), None);
    let after = last_lsn(rs, None);
    let img = record_image(r);
    lemma_parse_record_image(r, Seq::empty());
    assert(img + Seq::<u8>::empty() =~= img);
    assert(img.skip(img.len() as int) =~= Seq::<u8>::empty());
    assert(parse_record(Seq::<u8>::empty()) is None);
    assert(valid_prefix(Seq::<u8>::empty(), Some(r.lsn)) =~= Seq::<RecordView>::empty());
    assert(valid_len(Seq::<u8>::empty(), Some(r.lsn)) == 0);
    assert(valid_prefix(img, after) =~= seq![r]);
    assert(valid_len(img, after) == img.len());
    assert(rs + seq![r] =~= rs.push(r));
}

/// Once a log is synced, its durable part is the whole file: a reopen
/// after a crash finds every record that was appended before the sync.
pub proof fn lemma_synced_log_is_durable(w: Wal)
    requires
        w.wf(),
        w.synced_len == w.bytes@.len(),
    ensures
        valid_prefix(w.durable_image(), None) == w.records(),
        from_lsn(w.records(), 0) == w.records(),
{
    assert(w.durable_image() =~= w.bytes@);
}

/// What a crash leaves of a log is a log: the durable part of the file
/// consists of whole records, and they are the first records of the log,
/// in order. Appends that no sync covered are all that is lost.
pub proof fn lemma_durable_part_is_a_prefix(w: Wal)
    requires
        w.wf(),
    ensures
        valid_len(w.durable_image(), None) == w.durable_image().len(),
        valid_prefix(w.durable_image(), None).len() <= w.records().len(),
        valid_prefix(w.durable_image(), None) == w.records().take(
            valid_prefix(w.durable_image(), None).len() as int,
        ),
{
    let d = w.durable_image();
    let kept = valid_prefix(d, None);
    let tail = w.bytes@.skip(w.synced_len as int);
    lemma_valid_prefix_image(d, None);
    assert(d.take(d.len() as int) =~= d);
    assert(d + tail =~= w.bytes@);
    lemma_scan_log(kept, tail, None);
    let more = valid_prefix(tail, last_lsn(kept, None));
    assert((kept + more).take(kept.len() as int) =~= kept);
}

/// Torn-write tolerance: a file that holds a well-numbered log followed by
/// a record image cut short at any byte reads back as exactly that log,
/// and the cut is found at the end of the last complete record.
pub proof fn lemma_torn_tail_is_dropped(rs: Seq<RecordView>, r: RecordView, k: int)
    requires
        chained(rs, None),
        r.wf(),
        0 <= k < record_image(r).len(),
    ensures
        valid_prefix(log_image(rs) + record_image(r).take(k), None) == rs,
        valid_len(log_image(rs) + record_image(r).take(k), None) == log_image(rs).len(),
{
    let torn = record_image(r).take(k);
    lemma_scan_log(rs, torn, None);
    lemma_parse_torn_record(r, k);
    assert(rs + Seq::<RecordView>::empty() =~= rs);
}

/// Reads a log file: the records of its longest valid prefix, and the
/// offset at which that prefix ends.
pub fn scan(bytes: &[u8]) -> (res: (Vec<LogRecord>, usize))
    ensures
        views(res.0@) == valid_prefix(bytes@, None),
        res.1 == valid_len(bytes@, None),
        res.1 <= bytes@.len(),
{
    let mut out: Vec<LogRecord> = Vec::new();
    let mut pos: usize = 0;
    let mut prev: Option<u64> = None;
    let mut done: bool = false;
    let size: usize = bytes.len();
    assert(bytes@.skip(0) =~= bytes@);
    assert(views(out@) + valid_prefix(bytes@, None) =~= valid_prefix(bytes@, None));
    while !done
        invariant
            pos <= bytes@.len() == size,
            valid_prefix(bytes@, None) == views(out@) + valid_prefix(bytes@.skip(pos as int), prev),
            valid_len(bytes@, None) == pos + valid_len(bytes@.skip(pos as int), prev),
            done ==> valid_prefix(bytes@.skip(pos as int), prev) == Seq::<RecordView>::empty()
                && valid_len(bytes@.skip(pos as int), prev) == 0,
        decreases bytes@.len() - pos + (if done { 0int } else { 1int }),
    {
        let ghost tail = bytes@.skip(pos as int);
        match decode_record(bytes, pos) {
            None => {
                done = true;
            },
            Some((r, n)) => {
                let in_order: bool = match prev {
                    Some(p) => p < u64::MAX && r.lsn == p + 1,
                    None => true,
                };
                if in_order {
                    proof {
                        lemma_parsed_is_image(tail);
                        assert(tail.skip(n as int) =~= bytes@.skip(pos + n));
                        let more = valid_prefix(tail.skip(n as int), Some(r.lsn));
                        assert(views(out@.push(r)) =~= views(out@) + seq![r@]);
                        assert(views(out@) + (seq![r@] + more) =~= (views(out@) + seq![r@]) + more);
                    }
                    prev = Some(r.lsn);
                    out.push(r);
                    pos = pos + n;
                } else {
                    done = true;
                }
            },
        }
    }
    assert(views(out@) + Seq::<RecordView>::empty() =~= views(out@));
    (out, pos)
}

/// Copies the records from the first one whose LSN is at least `from`.
pub fn records_from(recs: &Vec<LogRecord>, from: u64) -> (out: Vec<LogRecord>)
    ensures
        views(out@) == from_lsn(views(recs@), from),
{
    let ghost vs = views(recs@);
    let mut j: usize = 0;
    assert(vs.skip(0) =~= vs);
    while j < recs.len() && recs[j].lsn < from
        invariant
            j <= recs.len(),
            vs == views(recs@),
            from_lsn(vs, from) == from_lsn(vs.skip(j as int), from),
        decreases recs.len() - j,
    {
        assert(vs.skip(j as int).skip(1) =~= vs.skip(j + 1));
        j = j + 1;
    }
    let mut out: Vec<LogRecord> = Vec::new();
    let mut k: usize = j;
    assert(views(out@) =~= vs.subrange(j as int, k as int));
    while k < recs.len()
        invariant
            j <= k <= recs.len(),
            vs == views(recs@),
            views(out@) == vs.subrange(j as int, k as int),
        decreases recs.len() - k,
    {
        let r = recs[k].duplicate();
        proof {
            assert(vs[k as int] == recs@[k as int]@);
            assert(views(out@.push(r)) =~= views(out@).push(r@));
            assert(vs.subrange(j as int, k as int).push(vs[k as int]) =~= vs.subrange(
                j as int,
                k + 1,
            ));
        }
        out.push(r);
        k = k + 1;
    }
    assert(vs.subrange(j as int, k as int) =~= vs.skip(j as int));
    out
}

/// Replays a log file: the records of its valid prefix in ascending LSN
/// order, starting at the first one whose LSN is at least `from`. Every
/// call reads the file image afresh.
pub fn replay(bytes: &[u8], from: u64) -> (out: Vec<LogRecord>)
    ensures
        views(out@) == from_lsn(valid_prefix(bytes@, None), from),
{
    let (recs, _end) = scan(bytes);
    records_from(&recs, from)
}

/// Serialises a sequence of records into the image of a log file.
pub fn encode_log(recs: &Vec<LogRecord>) -> (out: Vec<u8>)
    requires
        forall|i: int| 0 <= i < recs@.len() ==> (#[trigger] recs@[i]).wf(),
    ensures
        out@ == log_image(views(recs@)),
{
    let ghost vs = views(recs@);
    let mut out: Vec<u8> = Vec::new();
    let mut k: usize = 0;
    assert(vs.take(0) =~= Seq::<RecordView>::empty());
    while k < recs.len()
        invariant
            k <= recs.len(),
            vs == views(recs@),
            forall|i: int| 0 <= i < recs@.len() ==> (#[trigger] recs@[i]).wf(),
            out@ == log_image(vs.take(k as int)),
        decreases recs.len() - k,
    {
        let image: Vec<u8> = encode_record(&recs[k]);
        proof {
            lemma_log_image_push(vs.take(k as int), vs[k as int]);
            assert(vs.take(k + 1) =~= vs.take(k as int).push(vs[k as int]));
        }
        put_bytes(&mut out, image.as_slice());
        k = k + 1;
    }
    assert(vs.take(k as int) =~= vs);
    out
}

/// Why an append to the log was refused.
#[derive(Debug, PartialEq, Eq, Structural, Clone, Copy)]
pub enum WalError {
    /// The payload is larger than `MAX_RECORD_PAYLOAD`.
    PayloadTooLarge,
    /// Every LSN has been handed out.
    LsnExhausted,
}

/// A write-ahead log in memory: the image of its file, the LSN that the
/// next append will get, and how much of the image is known to be durable.
#[derive(Debug, Clone, PartialEq, Eq)]
pub struct Wal {
    pub bytes: Vec<u8>,
    pub next_lsn: u64,
    pub synced_len: usize,
}

impl Wal {
    /// The records that the log holds.
    pub open spec fn records(&self) -> Seq<RecordView> {
        valid_prefix(self.bytes@, None)
    }

    /// The log holds nothing but complete, valid, well-numbered records,
    /// the next LSN follows the last record, and the durable part is a
    /// part of the file that ends where a record ends.
    pub open spec fn wf(&self) -> bool {
        &&& valid_len(self.bytes@, None) == self.bytes@.len()
        &&& self.records().len() > 0 ==> self.next_lsn == lsn_after(self.records().last().lsn)
        &&& self.synced_len <= self.bytes@.len()
        &&& valid_len(self.durable_image(), None) == self.synced_len
    }

    /// The part of the file that is known to be durable.
    pub open spec fn durable_image(&self) -> Seq<u8> {
        self.bytes@.take(self.synced_len as int)
    }

    /// An empty log whose first record will get LSN 1.
    pub fn new() -> (w: Wal)
        ensures
            w.wf(),
            w.bytes@ == Seq::<u8>::empty(),
            w.records() == Seq::<RecordView>::empty(),
            w.next_lsn == 1,
            w.synced_len == 0,
    {
        let w = Wal { bytes: Vec::new(), next_lsn: 1, synced_len: 0 };
        assert(w.durable_image() =~= w.bytes@);
        w
    }

    /// Opens a log from the image of its file, cutting off a torn tail.
    /// With no valid record in the file, numbering resumes after the LSN
    /// of the last checkpoint.
    pub fn open(file: &[u8], checkpoint_lsn: u64) -> (w: Wal)
        ensures
            w.wf(),
            w.bytes@ == file@.take(valid_len(file@, None)),
            w.records() == valid_prefix(file@, None),
            w.synced_len == w.bytes@.len(),
            w.next_lsn == lsn_after(
                if w.records().len() > 0 {
                    w.records().last().lsn
                } else {
                    checkpoint_lsn
                },
            ),
    {
        let (recs, end) = scan(file);
        let bytes: Vec<u8> = get_bytes(file, 0, end);
        let last: u64 = if recs.len() > 0 {
            recs[recs.len() - 1].lsn
        } else {
            checkpoint_lsn
        };
        let next_lsn: u64 = if last == u64::MAX {
            last
        } else {
            last + 1
        };
        proof {
            let vp = valid_prefix(file@, None);
            lemma_valid_prefix_image(file@, None);
            lemma_scan_log(vp, Seq::empty(), None);
            assert(log_image(vp) + Seq::<u8>::empty() =~= log_image(vp));
            assert(vp + Seq::<RecordView>::empty() =~= vp);
            assert(bytes@ =~= file@.take(end as int));
            assert(bytes@.take(end as int) =~= bytes@);
        }
        Wal { bytes, next_lsn, synced_len: end }
    }

    /// Appends a record under the next LSN and returns that LSN. The record
    /// is not durable until `sync` is called.
    pub fn append(&mut self, page_id: u64, kind: u8, payload: &[u8]) -> (res: Result<u64, WalError>)
        requires
            old(self).wf(),
        ensures
            final(self).wf(),
            match res {
                Ok(lsn) => {
                    let r = (RecordView { lsn, page_id, kind, payload: payload@ });
                    &&& payload@.len() <= MAX_RECORD_PAYLOAD
                    &&& old(self).next_lsn < u64::MAX
                    &&& lsn == old(self).next_lsn
                    &&& final(self).next_lsn == lsn + 1
                    &&& final(self).bytes@ == old(self).bytes@ + record_image(r)
                    &&& final(self).records() == old(self).records().push(r)
                    &&& final(self).synced_len == old(self).synced_len
                },
                Err(WalError::PayloadTooLarge) => payload@.len() > MAX_RECORD_PAYLOAD
                    && *final(self) == *old(self),
                Err(WalError::LsnExhausted) => payload@.len() <= MAX_RECORD_PAYLOAD && old(
                    self,
                ).next_lsn == u64::MAX && *final(self) == *old(self),
            },
    {
        if payload.len() > MAX_RECORD_PAYLOAD {
            return Err(WalError::PayloadTooLarge);
        }
        if self.next_lsn == u64::MAX {
            return Err(WalError::LsnExhausted);
        }
        let lsn: u64 = self.next_lsn;
        let body: Vec<u8> = get_bytes(payload, 0, payload.len());
        assert(body@ =~= payload@);
        let record = LogRecord { lsn, page_id, kind, payload: body };
        let image: Vec<u8> = encode_record(&record);
        proof {
            let rs = old(self).records();
            lemma_valid_prefix_image(old(self).bytes@, None);
            assert(old(self).bytes@.take(old(self).bytes@.len() as int) =~= old(self).bytes@);
            lemma_appended_record_is_replayed(rs, record@);
            assert(rs.push(record@).last() == record@);
            assert((old(self).bytes@ + image@).take(old(self).synced_len as int) =~= old(
                self,
            ).durable_image());
        }
        put_bytes(&mut self.bytes, image.as_slice());
        self.next_lsn = lsn + 1;
        Ok(lsn)
    }

    /// Marks everything appended so far as durable. This is the commit
    /// boundary: a record counts as committed once a `sync` covers it.
    pub fn sync(&mut self)
        requires
            old(self).wf(),
        ensures
            final(self).wf(),
            final(self).bytes == old(self).bytes,
            final(self).next_lsn == old(self).next_lsn,
            final(self).synced_len == old(self).bytes@.len(),
    {
        self.synced_len = self.bytes.len();
        assert(self.durable_image() =~= self.bytes@);
    }

    /// The part of the file that survives a crash: everything up to the
    /// last `sync`.
    pub fn durable(&self) -> (out: Vec<u8>)
        requires
            self.wf(),
        ensures
            out@ == self.durable_image(),
    {
        get_bytes(self.bytes.as_slice(), 0, self.synced_len)
    }

    /// The records of the log from the first one whose LSN is at least
    /// `from`, in ascending LSN order.
    pub fn replay(&self, from: u64) -> (out: Vec<LogRecord>)
        ensures
            views(out@) == from_lsn(self.records(), from),
    {
        replay(self.bytes.as_slice(), from)
    }

    /// Discards the records before the first one whose LSN is at least
    /// `before`: those that a completed checkpoint already reflects. The
    /// compacted file replaces the old one and counts as durable.
    pub fn truncate(&mut self, before: u64)
        requires
            old(self).wf(),
        ensures
            final(self).wf(),
            final(self).records() == from_lsn(old(self).records(), before),
            final(self).bytes@ == log_image(from_lsn(old(self).records(), before)),
            final(self).next_lsn == old(self).next_lsn,
            final(self).synced_len == final(self).bytes@.len(),
    {
        let (recs, _end) = scan(self.bytes.as_slice());
        let kept: Vec<LogRecord> = records_from(&recs, before);
        proof {
            let rs = old(self).records();
            let ks = from_lsn(rs, before);
            lemma_valid_prefix_image(old(self).bytes@, None);
            lemma_from_lsn_tail(rs, None, before);
            assert forall|i: int| 0 <= i < kept@.len() implies (#[trigger] kept@[i]).wf() by {
                lemma_chained_wf(ks, None, i);
                assert(views(kept@)[i] == kept@[i]@);
            }
            lemma_scan_log(ks, Seq::empty(), None);
            assert(log_image(ks) + Seq::<u8>::empty() =~= log_image(ks));
            assert(ks + Seq::<RecordView>::empty() =~= ks);
        }
        let bytes: Vec<u8> = encode_log(&kept);
        self.synced_len = bytes.len();
        self.bytes = bytes;
        assert(self.durable_image() =~= self.bytes@);
    }
}

} // verus!
