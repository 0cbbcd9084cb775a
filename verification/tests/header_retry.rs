use roverdb::header::{checkpoint, make_header_page, read_header, rescue_store, write_header, FileHeader, PAGE_TYPE_HEADER};
use roverdb::page::{encode_page, pack_payload, Page, PAGE_TYPE_DATA, PAYLOAD_SIZE};
use roverdb::record::KIND_PAGE_WRITE;
use roverdb::retry::{after_failure, ReadFailure, RetryDecision, MAX_READ_ATTEMPTS};
use roverdb::store::PageStore;
use roverdb::wal::Wal;

#[test]
fn header_page_layout() {
    let h = FileHeader { page_size: 4096, schema_version: 3, checkpoint_lsn: 0x0102 };
    let page = make_header_page(h);
    assert_eq!(page.page_type, PAGE_TYPE_HEADER);
    assert_eq!(page.lsn, 0x0102);
    assert_eq!(page.payload.len(), PAYLOAD_SIZE);
    assert_eq!(&page.payload[..16], &[0, 0x10, 0, 0, 3, 0, 0, 0, 2, 1, 0, 0, 0, 0, 0, 0]);
    assert!(page.payload[16..].iter().all(|b| *b == 0));
}

#[test]
fn header_round_trips_through_the_store() {
    let h = FileHeader { page_size: 4096, schema_version: 7, checkpoint_lsn: u64::MAX };
    let mut store = PageStore::new();
    assert_eq!(read_header(&store), None);
    write_header(&mut store, h);
    assert_eq!(store.page_count(), 1);
    assert_eq!(read_header(&store), Some(h));
    let other = FileHeader { page_size: 4096, schema_version: 8, checkpoint_lsn: 5 };
    store.allocate_page();
    write_header(&mut store, other);
    assert_eq!(store.page_count(), 2);
    assert_eq!(read_header(&store), Some(other));
}

#[test]
fn damaged_or_foreign_page_zero_has_no_header() {
    let mut store = PageStore::new();
    store.allocate_page();
    assert_eq!(read_header(&store), None);
    write_header(&mut store, FileHeader { page_size: 4096, schema_version: 1, checkpoint_lsn: 1 });
    store.slots[0][50] ^= 1;
    assert_eq!(read_header(&store), None);
}

#[test]
fn checkpoint_records_the_last_lsn() {
    let mut store = PageStore::new();
    store.allocate_page();
    store.allocate_page();
    let mut wal = Wal::new();
    assert_eq!(checkpoint(&mut store, &mut wal, 1), 0);
    let payload = pack_payload(&[1, 2, 3]).unwrap();
    wal.append(1, KIND_PAGE_WRITE, &payload).unwrap();
    wal.append(1, KIND_PAGE_WRITE, &payload).unwrap();
    assert_eq!(wal.synced_len, 0);
    assert_eq!(checkpoint(&mut store, &mut wal, 1), 2);
    assert_eq!(wal.synced_len, wal.bytes.len());
    assert_eq!(read_header(&store), Some(FileHeader { page_size: 4096, schema_version: 1, checkpoint_lsn: 2 }));
    assert_eq!(store.read_page(1), Ok(Page::empty()));
}

#[test]
fn rescue_starts_at_the_checkpoint_in_the_header() {
    let mut wal = Wal::new();
    let first = pack_payload(&[1]).unwrap();
    let second = pack_payload(&[2]).unwrap();
    wal.append(1, KIND_PAGE_WRITE, &first).unwrap();
    wal.append(2, KIND_PAGE_WRITE, &second).unwrap();
    let mut store = PageStore::new();
    for _ in 0..3 {
        store.allocate_page();
    }
    write_header(&mut store, FileHeader { page_size: 4096, schema_version: 1, checkpoint_lsn: 2 });
    let report = rescue_store(&mut store, &wal.bytes);
    assert_eq!(report.last_good_lsn, 2);
    assert_eq!(report.recovered, vec![0, 1, 2]);
    assert_eq!(store.read_page(1), Ok(Page::empty()));
    assert_eq!(store.read_page(2), Ok(Page { page_type: PAGE_TYPE_DATA, lsn: 2, payload: second }));
}

#[test]
fn rescue_replays_the_whole_log_when_the_header_is_damaged() {
    let mut wal = Wal::new();
    let first = pack_payload(&[1]).unwrap();
    let second = pack_payload(&[2]).unwrap();
    wal.append(1, KIND_PAGE_WRITE, &first).unwrap();
    wal.append(2, KIND_PAGE_WRITE, &second).unwrap();
    let mut store = PageStore::new();
    for _ in 0..3 {
        store.allocate_page();
    }
    write_header(&mut store, FileHeader { page_size: 4096, schema_version: 1, checkpoint_lsn: 2 });
    store.slots[0][9] ^= 0x04;
    let report = rescue_store(&mut store, &wal.bytes);
    assert_eq!(report.last_good_lsn, 2);
    assert_eq!(report.recovered, vec![1, 2]);
    assert_eq!(report.irrecoverable, vec![0]);
    assert_eq!(store.read_page(1), Ok(Page { page_type: PAGE_TYPE_DATA, lsn: 1, payload: first.clone() }));
    assert_eq!(store.raw_page(1), &encode_page(&Page { page_type: PAGE_TYPE_DATA, lsn: 1, payload: first }));
}

#[test]
fn io_errors_are_retried_a_bounded_number_of_times() {
    assert_eq!(MAX_READ_ATTEMPTS, 3);
    assert_eq!(after_failure(ReadFailure::Io, 1), RetryDecision::Retry);
    assert_eq!(after_failure(ReadFailure::Io, 2), RetryDecision::Retry);
    assert_eq!(after_failure(ReadFailure::Io, 3), RetryDecision::Surface);
    assert_eq!(after_failure(ReadFailure::Io, u32::MAX), RetryDecision::Surface);
}

#[test]
fn checksum_errors_are_never_retried() {
    assert_eq!(after_failure(ReadFailure::Checksum, 0), RetryDecision::Surface);
    assert_eq!(after_failure(ReadFailure::Checksum, 1), RetryDecision::Surface);
}
