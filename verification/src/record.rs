//! Log records and their self-describing, checksummed wire format.
//!
//! A record on disk is: payload length (4 bytes), LSN (8), page id (8),
//! kind (1), the payload, and a 4-byte checksum over everything before it.
//! Because a record carries its own length and checksum, a record that was
//! only partly written can be told from a complete one.

use vstd::prelude::*;
use crate::encoding::{le32, le64, from_le32, from_le64, lemma_le32_inverse, lemma_le64_inverse,
    put_u32, put_u64, put_bytes, get_u32, get_u64, get_bytes};
use crate::checksum::{checksum_of, checksum};

verus! {

/// Bytes of a record before its payload.
pub const RECORD_HEADER_SIZE: usize = 21;

/// Bytes of a record that are not payload: header and trailing checksum.
pub const RECORD_OVERHEAD: usize = 25;

/// Largest payload a record can carry.
pub const MAX_RECORD_PAYLOAD: usize = 0x0100_0000;

/// Kind of a record whose payload is the new payload of its page.
pub const KIND_PAGE_WRITE: u8 = 1;

/// Kind of a record that marks a commit and touches no page.
pub const KIND_COMMIT: u8 = 2;

/// One entry of the write-ahead log.
#[derive(Debug, Clone, PartialEq, Eq)]
pub struct LogRecord {
    pub lsn: u64,
    pub page_id: u64,
    pub kind: u8,
    pub payload: Vec<u8>,
}

/// The mathematical value of a log record.
pub ghost struct RecordView {
    pub lsn: u64,
    pub page_id: u64,
    pub kind: u8,
    pub payload: Seq<u8>,
}

impl View for LogRecord {
    type V = RecordView;

    open spec fn view(&self) -> RecordView {
        RecordView { lsn: self.lsn, page_id: self.page_id, kind: self.kind, payload: self.payload@ }
    }
}

impl RecordView {
    /// A record is well formed when its payload is within the size limit.
    pub open spec fn wf(self) -> bool {
        self.payload.len() <= MAX_RECORD_PAYLOAD
    }
}

impl LogRecord {
    /// A record is well formed when its payload is within the size limit.
    pub open spec fn wf(&self) -> bool {
        self@.wf()
    }

    /// An independent copy of this record.
    pub fn duplicate(&self) -> (r: LogRecord)
        ensures
            r@ == self@,
    {
        let payload: Vec<u8> = get_bytes(self.payload.as_slice(), 0, self.payload.len());
        assert(payload@ =~= self.payload@);
        LogRecord { lsn: self.lsn, page_id: self.page_id, kind: self.kind, payload }
    }
}

/// The values of a sequence of records.
pub open spec fn views(rs: Seq<LogRecord>) -> Seq<RecordView> {
    rs.map_values(|r: LogRecord| r@)
}

/// The part of a record that its checksum covers.
pub open spec fn record_body(r: RecordView) -> Seq<u8> {
    le32(r.payload.len() as u32) + le64(r.lsn) + le64(r.page_id) + seq![r.kind] + r.payload
}

/// The on-disk image of a record.
pub open spec fn record_image(r: RecordView) -> Seq<u8> {
    record_body(r) + le32(checksum_of(record_body(r)))
}

/// Reads one record from the front of `bytes`. Yields the record and the
/// number of bytes it occupies, or `None` when the bytes do not start with
/// a complete record whose checksum matches.
pub open spec fn parse_record(bytes: Seq<u8>) -> Option<(RecordView, int)> {
    if bytes.len() < RECORD_OVERHEAD {
        None
    } else {
        let len = from_le32(bytes.subrange(0, 4)) as int;
        let total = RECORD_OVERHEAD + len;
        if len > MAX_RECORD_PAYLOAD || bytes.len() < total {
            None
        } else if from_le32(bytes.subrange(total - 4, total)) != checksum_of(
            bytes.subrange(0, total - 4),
        ) {
            None
        } else {
            Some(
                (
                    RecordView {
                        lsn: from_le64(bytes.subrange(4, 12)),
                        page_id: from_le64(bytes.subrange(12, 20)),
                        kind: bytes[20],
                        payload: bytes.subrange(21, 21 + len),
                    },
                    total,
                ),
            )
        }
    }
}

/// The shape of a record body.
pub proof fn lemma_record_body_layout(r: RecordView)
    requires
        r.wf(),
    ensures
        record_body(r).len() == RECORD_HEADER_SIZE + r.payload.len(),
        record_image(r).len() == RECORD_OVERHEAD + r.payload.len(),
        record_body(r).subrange(0, 4) == le32(r.payload.len() as u32),
        record_body(r).subrange(4, 12) == le64(r.lsn),
        record_body(r).subrange(12, 20) == le64(r.page_id),
        record_body(r)[20] == r.kind,
        record_body(r).subrange(21, (21 + r.payload.len()) as int) == r.payload,
        from_le32(record_body(r).subrange(0, 4)) == r.payload.len(),
{
    lemma_le32_inverse(r.payload.len() as u32, Seq::empty());
    lemma_le32_inverse(checksum_of(record_body(r)), Seq::empty());
    lemma_le64_inverse(r.lsn, Seq::empty());
    lemma_le64_inverse(r.page_id, Seq::empty());
    let b = record_body(r);
    assert(b.subrange(0, 4) =~= le32(r.payload.len() as u32));
    assert(b.subrange(4, 12) =~= le64(r.lsn));
    assert(b.subrange(12, 20) =~= le64(r.page_id));
    assert(b.subrange(21, (21 + r.payload.len()) as int) =~= r.payload);
}

/// A complete record image, whatever follows it, reads back as the record.
pub proof fn lemma_parse_record_image(r: RecordView, rest: Seq<u8>)
    requires
        r.wf(),
    ensures
        parse_record(record_image(r) + rest) == Some((r, record_image(r).len() as int)),
{
    lemma_record_body_layout(r);
    let body = record_body(r);
    let sum = checksum_of(body);
    lemma_le32_inverse(sum, Seq::empty());
    lemma_le64_inverse(r.lsn, Seq::empty());
    lemma_le64_inverse(r.page_id, Seq::empty());
    let all = record_image(r) + rest;
    let total = RECORD_OVERHEAD + r.payload.len();
    assert(all.subrange(0, 4) =~= body.subrange(0, 4));
    assert(all.subrange(4, 12) =~= body.subrange(4, 12));
    assert(all.subrange(12, 20) =~= body.subrange(12, 20));
    assert(all[20] == body[20]);
    assert(all.subrange(21, (21 + r.payload.len()) as int) =~= body.subrange(21, (21 + r.payload.len()) as int));
    assert(all.subrange(0, total - 4) =~= body);
    assert(all.subrange(total - 4, total) =~= le32(sum));
}

/// A record image cut short at any point does not read as a record.
pub proof fn lemma_parse_torn_record(r: RecordView, k: int)
    requires
        r.wf(),
        0 <= k < record_image(r).len(),
    ensures
        parse_record(record_image(r).take(k)) is None,
{
    lemma_record_body_layout(r);
    let torn = record_image(r).take(k);
    if k >= RECORD_OVERHEAD {
        assert(torn.subrange(0, 4) =~= record_body(r).subrange(0, 4));
    }
}

/// Whatever reads as a record is the image of that record.
pub proof fn lemma_parsed_is_image(bytes: Seq<u8>)
    requires
        parse_record(bytes) is Some,
    ensures
        ({
            let (r, n) = parse_record(bytes).unwrap();
            &&& r.wf()
            &&& RECORD_OVERHEAD <= n <= bytes.len()
            &&& n == record_image(r).len()
            &&& bytes.take(n) == record_image(r)
        }),
{
    let (r, n) = parse_record(bytes).unwrap();
    let len = from_le32(bytes.subrange(0, 4)) as int;
    lemma_le32_inverse(0, bytes.subrange(0, 4));
    lemma_le32_inverse(0, bytes.subrange(n - 4, n));
    lemma_le64_inverse(0, bytes.subrange(4, 12));
    lemma_le64_inverse(0, bytes.subrange(12, 20));
    lemma_record_body_layout(r);
    let body = record_body(r);
    assert(r.payload.len() as u32 == from_le32(bytes.subrange(0, 4)));
    assert(body =~= bytes.subrange(0, n - 4)) by {
        assert forall|i: int| 0 <= i < n - 4 implies body[i] == bytes[i] by {
            if i < 4 {
                assert(body[i] == body.subrange(0, 4)[i]);
                assert(bytes[i] == bytes.subrange(0, 4)[i]);
            } else if i < 12 {
                assert(body[i] == body.subrange(4, 12)[i - 4]);
                assert(bytes[i] == bytes.subrange(4, 12)[i - 4]);
            } else if i < 20 {
                assert(body[i] == body.subrange(12, 20)[i - 12]);
                assert(bytes[i] == bytes.subrange(12, 20)[i - 12]);
            } else if i == 20 {
            } else {
                assert(body[i] == body.subrange(21, 21 + len)[i - 21]);
            }
        }
    }
    assert(bytes.take(n) =~= bytes.subrange(0, n - 4) + bytes.subrange(n - 4, n));
}

/// Serialises a record, computing and appending its checksum.
pub fn encode_record(r: &LogRecord) -> (out: Vec<u8>)
    requires
        r.wf(),
    ensures
        out@ == record_image(r@),
{
    let mut out: Vec<u8> = Vec::new();
    put_u32(&mut out, r.payload.len() as u32);
    put_u64(&mut out, r.lsn);
    put_u64(&mut out, r.page_id);
    out.push(r.kind);
    put_bytes(&mut out, r.payload.as_slice());
    assert(out@ =~= record_body(r@));
    let sum: u32 = checksum(out.as_slice());
    put_u32(&mut out, sum);
    out
}

/// Reads the record that starts at offset `at` of `bytes`, if a complete
/// record with a matching checksum starts there. Returns the record and
/// the number of bytes it occupies.
pub fn decode_record(bytes: &[u8], at: usize) -> (res: Option<(LogRecord, usize)>)
    requires
        at <= bytes@.len(),
    ensures
        match res {
            Some((r, n)) => parse_record(bytes@.skip(at as int)) == Some((r@, n as int)),
            None => parse_record(bytes@.skip(at as int)) is None,
        },
{
    let ghost tail = bytes@.skip(at as int);
    let avail: usize = bytes.len() - at;
    if avail < RECORD_OVERHEAD {
        return None;
    }
    assert(tail.subrange(0, 4) =~= bytes@.subrange(at as int, at + 4));
    let len32: u32 = get_u32(bytes, at);
    if len32 > 0x0100_0000u32 {
        return None;
    }
    let len: usize = len32 as usize;
    if avail - RECORD_OVERHEAD < len {
        return None;
    }
    let total: usize = RECORD_OVERHEAD + len;
    let covered: Vec<u8> = get_bytes(bytes, at, total - 4);
    let stored: u32 = get_u32(bytes, at + total - 4);
    proof {
        assert(tail.subrange(0, total - 4) =~= bytes@.subrange(at as int, at + total - 4));
        assert(tail.subrange(total - 4, total as int) =~= bytes@.subrange(
            at + total - 4,
            at + total,
        ));
        assert(tail.subrange(4, 12) =~= bytes@.subrange(at + 4, at + 12));
        assert(tail.subrange(12, 20) =~= bytes@.subrange(at + 12, at + 20));
        assert(tail.subrange(21, 21 + len) =~= bytes@.subrange(at + 21, at + 21 + len));
    }
    if stored != checksum(covered.as_slice()) {
        return None;
    }
    let lsn: u64 = get_u64(bytes, at + 4);
    let page_id: u64 = get_u64(bytes, at + 12);
    let kind: u8 = bytes[at + 20];
    let payload: Vec<u8> = get_bytes(bytes, at + RECORD_HEADER_SIZE, len);
    Some((LogRecord { lsn, page_id, kind, payload }, total))
}

} // verus!
