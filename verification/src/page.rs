//! Fixed-size checksummed pages and the page store that holds them.
//!
//! On disk a page is `PAGE_SIZE` bytes: a 4-byte checksum, one byte of page
//! type, the 8-byte LSN of the last writer, then the payload. The checksum
//! covers everything that follows it.

use vstd::prelude::*;
use crate::encoding::{le32, le64, from_le32, from_le64, lemma_le32_inverse, lemma_le64_inverse,
    lemma_from_le32_update, put_u32, put_u64, put_bytes, get_u32, get_u64, get_bytes};
use crate::checksum::{checksum_of, checksum, lemma_checksum_detects_byte_change};

verus! {

/// Size of a page on disk, header included.
pub const PAGE_SIZE: usize = 4096;

/// Size of the page header: checksum, type and LSN.
pub const PAGE_HEADER_SIZE: usize = 13;

/// Number of payload bytes in every page.
pub const PAYLOAD_SIZE: usize = 4083;

/// Page type of a page that was allocated and never written.
pub const PAGE_TYPE_FREE: u8 = 0;

/// Page type of a page that holds row data.
pub const PAGE_TYPE_DATA: u8 = 1;

/// A page in memory.
#[derive(Debug, Clone, PartialEq, Eq)]
pub struct Page {
    pub page_type: u8,
    pub lsn: u64,
    pub payload: Vec<u8>,
}

/// The mathematical value of a page.
pub ghost struct PageView {
    pub page_type: u8,
    pub lsn: u64,
    pub payload: Seq<u8>,
}

impl View for Page {
    type V = PageView;

    open spec fn view(&self) -> PageView {
        PageView { page_type: self.page_type, lsn: self.lsn, payload: self.payload@ }
    }
}

/// Why a page image was refused.
#[derive(Debug, PartialEq, Eq, Structural, Clone, Copy)]
pub enum PageError {
    /// The image does not have exactly `PAGE_SIZE` bytes.
    BadLength,
    /// The stored checksum does not match the bytes it covers.
    Checksum,
}

impl PageView {
    /// A page is well formed when its payload fills the page exactly.
    pub open spec fn wf(self) -> bool {
        self.payload.len() == PAYLOAD_SIZE
    }
}

impl Page {
    /// A page is well formed when its payload fills the page exactly.
    pub open spec fn wf(&self) -> bool {
        self@.wf()
    }

    /// A free page: type `PAGE_TYPE_FREE`, LSN 0, payload all zero.
    pub fn empty() -> (p: Page)
        ensures
            p@ == empty_page(),
            p.wf(),
    {
        let mut payload: Vec<u8> = Vec::new();
        let mut i: usize = 0;
        while i < PAYLOAD_SIZE
            invariant
                i <= PAYLOAD_SIZE,
                payload@ == Seq::new(i as nat, |k: int| 0u8),
            decreases PAYLOAD_SIZE - i,
        {
            payload.push(0u8);
            i = i + 1;
            assert(payload@ =~= Seq::new(i as nat, |k: int| 0u8));
        }
        Page { page_type: PAGE_TYPE_FREE, lsn: 0, payload }
    }
}

/// The value of a free page.
pub open spec fn empty_page() -> PageView {
    PageView { page_type: PAGE_TYPE_FREE, lsn: 0, payload: Seq::new(PAYLOAD_SIZE as nat, |k: int| 0u8) }
}

/// The bytes that the checksum of a page covers: type, LSN, payload.
pub open spec fn page_body(p: PageView) -> Seq<u8> {
    seq![p.page_type] + le64(p.lsn) + p.payload
}

/// The on-disk image of a page.
pub open spec fn page_image(p: PageView) -> Seq<u8> {
    le32(checksum_of(page_body(p))) + page_body(p)
}

/// What reading a page image yields: the page, or the reason for refusing it.
pub open spec fn parse_page(bytes: Seq<u8>) -> Result<PageView, PageError> {
    if bytes.len() != PAGE_SIZE {
        Err(PageError::BadLength)
    } else if from_le32(bytes.subrange(0, 4)) != checksum_of(bytes.subrange(4, PAGE_SIZE as int)) {
        Err(PageError::Checksum)
    } else {
        Ok(
            PageView {
                page_type: bytes[4],
                lsn: from_le64(bytes.subrange(5, 13)),
                payload: bytes.subrange(13, PAGE_SIZE as int),
            },
        )
    }
}

/// Whether a page image passes validation.
pub open spec fn page_ok(bytes: Seq<u8>) -> bool {
    parse_page(bytes) is Ok
}

/// The shape of a page image: four checksum bytes, then the body.
pub proof fn lemma_page_image_layout(p: PageView)
    requires
        p.wf(),
    ensures
        page_image(p).len() == PAGE_SIZE,
        page_body(p).len() == PAGE_SIZE - 4,
        page_image(p).subrange(0, 4) == le32(checksum_of(page_body(p))),
        page_image(p).subrange(4, PAGE_SIZE as int) == page_body(p),
        page_image(p)[4] == p.page_type,
        page_image(p).subrange(5, 13) == le64(p.lsn),
        page_image(p).subrange(13, PAGE_SIZE as int) == p.payload,
{
    lemma_le32_inverse(checksum_of(page_body(p)), Seq::empty());
    lemma_le64_inverse(p.lsn, Seq::empty());
    let img = page_image(p);
    assert(img.subrange(0, 4) =~= le32(checksum_of(page_body(p))));
    assert(img.subrange(4, PAGE_SIZE as int) =~= page_body(p));
    assert(img.subrange(5, 13) =~= le64(p.lsn));
    assert(img.subrange(13, PAGE_SIZE as int) =~= p.payload);
}

/// Reading back what was written yields the page that was written.
pub proof fn lemma_page_round_trip(p: PageView)
    requires
        p.wf(),
    ensures
        parse_page(page_image(p)) == Ok::<PageView, PageError>(p),
{
    lemma_page_image_layout(p);
    lemma_le32_inverse(checksum_of(page_body(p)), Seq::empty());
    lemma_le64_inverse(p.lsn, Seq::empty());
}

/// Changing any single byte of a persisted page makes validation fail with
/// a checksum error.
pub proof fn lemma_page_flip_detected(p: PageView, i: int, b: u8)
    requires
        p.wf(),
        0 <= i < PAGE_SIZE,
        b != page_image(p)[i],
    ensures
        parse_page(page_image(p).update(i, b)) == Err::<PageView, PageError>(PageError::Checksum),
{
    lemma_page_image_layout(p);
    let img = page_image(p);
    let bad = img.update(i, b);
    let sum = checksum_of(page_body(p));
    lemma_le32_inverse(sum, Seq::empty());
    if i < 4 {
        assert(bad.subrange(4, PAGE_SIZE as int) =~= page_body(p));
        assert(bad.subrange(0, 4) =~= le32(sum).update(i, b));
        lemma_from_le32_update(le32(sum), i, b);
    } else {
        assert(bad.subrange(0, 4) =~= le32(sum));
        assert(bad.subrange(4, PAGE_SIZE as int) =~= page_body(p).update(i - 4, b));
        lemma_checksum_detects_byte_change(page_body(p), i - 4, b);
    }
}

/// Serialises a page, computing and embedding its checksum.
pub fn encode_page(page: &Page) -> (out: Vec<u8>)
    requires
        page.wf(),
    ensures
        out@ == page_image(page@),
        out@.len() == PAGE_SIZE,
{
    let mut body: Vec<u8> = Vec::new();
    body.push(page.page_type);
    put_u64(&mut body, page.lsn);
    put_bytes(&mut body, page.payload.as_slice());
    assert(body@ =~= page_body(page@));
    let sum: u32 = checksum(body.as_slice());
    let mut out: Vec<u8> = Vec::new();
    put_u32(&mut out, sum);
    put_bytes(&mut out, body.as_slice());
    proof {
        lemma_page_image_layout(page@);
        assert(out@ =~= page_image(page@));
    }
    out
}

/// Validates a page image and, if its checksum matches, returns the page.
pub fn decode_page(bytes: &[u8]) -> (res: Result<Page, PageError>)
    ensures
        match res {
            Ok(p) => parse_page(bytes@) == Ok::<PageView, PageError>(p@) && p.wf(),
            Err(e) => parse_page(bytes@) == Err::<PageView, PageError>(e),
        },
{
    if bytes.len() != PAGE_SIZE {
        return Err(PageError::BadLength);
    }
    let stored: u32 = get_u32(bytes, 0);
    let covered: Vec<u8> = get_bytes(bytes, 4, PAGE_SIZE - 4);
    let actual: u32 = checksum(covered.as_slice());
    if stored != actual {
        return Err(PageError::Checksum);
    }
    let page_type: u8 = bytes[4];
    let lsn: u64 = get_u64(bytes, 5);
    let payload: Vec<u8> = get_bytes(bytes, PAGE_HEADER_SIZE, PAYLOAD_SIZE);
    Ok(Page { page_type, lsn, payload })
}

/// Largest block of data that fits into one payload.
pub const MAX_PAYLOAD_DATA: usize = 4079;

/// The payload that holds `data`: its length, the data, then zeros up to
/// the payload size.
pub open spec fn payload_image(data: Seq<u8>) -> Seq<u8> {
    le32(data.len() as u32) + data + Seq::new(
        (MAX_PAYLOAD_DATA - data.len()) as nat,
        |k: int| 0u8,
    )
}

/// The data that a payload holds, if its length field is within bounds.
pub open spec fn payload_data(payload: Seq<u8>) -> Option<Seq<u8>> {
    let len = from_le32(payload.subrange(0, 4)) as int;
    if payload.len() != PAYLOAD_SIZE || len > MAX_PAYLOAD_DATA {
        None
    } else {
        Some(payload.subrange(4, 4 + len))
    }
}

/// Data put into a payload is found there again.
pub proof fn lemma_payload_round_trip(data: Seq<u8>)
    requires
        data.len() <= MAX_PAYLOAD_DATA,
    ensures
        payload_image(data).len() == PAYLOAD_SIZE,
        payload_data(payload_image(data)) == Some(data),
{
    lemma_le32_inverse(data.len() as u32, Seq::empty());
    let img = payload_image(data);
    assert(img.subrange(0, 4) =~= le32(data.len() as u32));
    assert(img.subrange(4, (4 + data.len()) as int) =~= data);
}

/// The payload that holds no data is the payload of a free page: all
/// zeros.
pub proof fn lemma_empty_payload_is_blank()
    ensures
        payload_image(Seq::empty()) == empty_page().payload,
{
    reveal(le32);
    assert(payload_image(Seq::empty()) =~= empty_page().payload);
}

/// Lays out `data` as a page payload. Data longer than `MAX_PAYLOAD_DATA`
/// does not fit and yields `None`.
pub fn pack_payload(data: &[u8]) -> (res: Option<Vec<u8>>)
    ensures
        res is Some <==> data@.len() <= MAX_PAYLOAD_DATA,
        res matches Some(p) ==> p@ == payload_image(data@) && p@.len() == PAYLOAD_SIZE,
{
    if data.len() > MAX_PAYLOAD_DATA {
        return None;
    }
    let mut out: Vec<u8> = Vec::new();
    put_u32(&mut out, data.len() as u32);
    put_bytes(&mut out, data);
    let ghost head = out@;
    let fill: usize = MAX_PAYLOAD_DATA - data.len();
    let mut i: usize = 0;
    assert(out@ =~= head + Seq::new(0nat, |k: int| 0u8));
    while i < fill
        invariant
            i <= fill,
            out@ == head + Seq::new(i as nat, |k: int| 0u8),
        decreases fill - i,
    {
        out.push(0u8);
        i = i + 1;
        assert(out@ =~= head + Seq::new(i as nat, |k: int| 0u8));
    }
    proof {
        lemma_payload_round_trip(data@);
    }
    Some(out)
}

/// Takes the data out of a page payload, if its length field is within
/// bounds.
pub fn unpack_payload(payload: &[u8]) -> (res: Option<Vec<u8>>)
    ensures
        match res {
            Some(d) => payload_data(payload@) == Some(d@),
            None => payload_data(payload@) is None,
        },
{
    if payload.len() != PAYLOAD_SIZE {
        return None;
    }
    let len32: u32 = get_u32(payload, 0);
    if len32 > 4079u32 {
        return None;
    }
    let len: usize = len32 as usize;
    Some(get_bytes(payload, 4, len))
}

} // verus!
