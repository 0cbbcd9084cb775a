use roverdb::page::{encode_page, pack_payload, unpack_payload, Page, PAGE_SIZE, PAGE_TYPE_DATA, PAYLOAD_SIZE};
use roverdb::record::{encode_record, LogRecord, KIND_COMMIT, KIND_PAGE_WRITE};
use roverdb::rescue::{apply_one, classify, classify_prefix, rescue, rescue_within};
use roverdb::row::{decode, encode, Row, Value};
use roverdb::snapshot::{
    check_page, create_snapshot, restore_snapshot, step, validate_snapshot, SnapshotAction,
    SnapshotError, SnapshotEvent, SnapshotState,
};
use roverdb::store::{PageStore, StoreError};
use roverdb::wal::Wal;

fn row(tag: &str, n: i64) -> Row {
    Row { columns: vec![Some(Value::Bytes(tag.as_bytes().to_vec())), Some(Value::Int(n)), None] }
}

fn row_payload(r: &Row) -> Vec<u8> {
    pack_payload(&encode(r)).unwrap()
}

fn row_in(store: &PageStore, id: u64) -> Option<Row> {
    let page = store.read_page(id).ok()?;
    decode(&unpack_payload(&page.payload)?).ok()
}

fn write_row(store: &mut PageStore, wal: &mut Wal, id: u64, r: &Row) -> u64 {
    let payload = row_payload(r);
    let lsn = wal.append(id, KIND_PAGE_WRITE, &payload).unwrap();
    store.write_page(id, &Page { page_type: PAGE_TYPE_DATA, lsn, payload }).unwrap();
    lsn
}

#[test]
fn crash_in_the_middle_of_a_write_loses_only_that_write() {
    let (a, b, c, d) = (row("A", 1), row("B", 2), row("C", 3), row("D", 4));
    let mut store = PageStore::new();
    let mut wal = Wal::new();
    for _ in 0..4 {
        store.allocate_page();
    }
    assert_eq!(write_row(&mut store, &mut wal, 0, &a), 1);
    assert_eq!(write_row(&mut store, &mut wal, 1, &b), 2);
    assert_eq!(write_row(&mut store, &mut wal, 2, &c), 3);
    wal.sync();
    let checkpoint_lsn = 3;
    let flushed = store.clone();
    let synced = wal.durable();

    let payload_d = row_payload(&d);
    assert_eq!(wal.append(3, KIND_PAGE_WRITE, &payload_d), Ok(4));
    let mut torn = wal.bytes.clone();
    torn.truncate(synced.len() + 1000);

    let mut recovered = flushed.clone();
    let report = rescue(&mut recovered, &torn, checkpoint_lsn);
    assert_eq!(report.last_good_lsn, 3);
    assert_eq!(report.truncation_point, synced.len());
    assert_eq!(report.recovered, vec![0, 1, 2, 3]);
    assert_eq!(report.irrecoverable, Vec::<u64>::new());
    assert_eq!(row_in(&recovered, 0), Some(a));
    assert_eq!(row_in(&recovered, 1), Some(b));
    assert_eq!(row_in(&recovered, 2), Some(c));
    assert_ne!(row_in(&recovered, 3), Some(d));
    assert_eq!(recovered.read_page(3), Ok(Page::empty()));
}

#[test]
fn a_corrupt_page_without_a_log_record_is_irrecoverable() {
    let mut store = PageStore::new();
    let mut wal = Wal::new();
    for i in 0..4u64 {
        store.allocate_page();
        write_row(&mut store, &mut wal, i, &row("r", i as i64));
    }
    wal.sync();
    let checkpoint_lsn = 4;
    wal.truncate(checkpoint_lsn + 1);
    let mut file = encode_page(&store.read_page(0).unwrap());
    for i in 1..4u64 {
        file.extend(encode_page(&store.read_page(i).unwrap()));
    }
    file[2 * PAGE_SIZE + 1] ^= 0x10;
    let mut damaged = PageStore::from_bytes(&file);
    assert_eq!(damaged.read_page(2), Err(StoreError::Checksum));
    let report = rescue(&mut damaged, &wal.durable(), checkpoint_lsn);
    assert_eq!(report.irrecoverable, vec![2]);
    assert_eq!(report.recovered, vec![0, 1, 3]);
    assert_eq!(report.last_good_lsn, 4);
    assert_eq!(report.truncation_point, 0);
    assert_eq!(row_in(&damaged, 3), Some(row("r", 3)));
}

#[test]
fn a_corrupt_page_with_a_log_record_is_rebuilt() {
    let mut store = PageStore::new();
    let mut wal = Wal::new();
    store.allocate_page();
    store.allocate_page();
    write_row(&mut store, &mut wal, 0, &row("x", 1));
    write_row(&mut store, &mut wal, 1, &row("y", 2));
    wal.append(0, KIND_COMMIT, &[]).unwrap();
    wal.sync();
    let mut file = encode_page(&store.read_page(0).unwrap());
    file.extend(encode_page(&store.read_page(1).unwrap()));
    file[PAGE_SIZE + 500] ^= 0xFF;
    file[7] ^= 0xFF;
    let mut damaged = PageStore::from_bytes(&file);
    assert_eq!(classify(&damaged), (vec![], vec![0, 1]));
    let report = rescue(&mut damaged, &wal.durable(), 0);
    assert_eq!(report.recovered, vec![0, 1]);
    assert_eq!(report.irrecoverable, Vec::<u64>::new());
    assert_eq!(report.last_good_lsn, 3);
    assert_eq!(damaged, store);
}

#[test]
fn an_unreadable_store_yields_a_report_with_nothing_recovered() {
    let mut store = PageStore::from_bytes(&vec![0xABu8; 3 * PAGE_SIZE + 17]);
    let report = rescue(&mut store, &[0xCD; 99], 12);
    assert_eq!(report.recovered, Vec::<u64>::new());
    assert_eq!(report.irrecoverable, vec![0, 1, 2]);
    assert_eq!(report.last_good_lsn, 12);
    assert_eq!(report.truncation_point, 0);
    let mut nothing = PageStore::new();
    let report = rescue(&mut nothing, &[], 0);
    assert_eq!(report.recovered, Vec::<u64>::new());
    assert_eq!(report.irrecoverable, Vec::<u64>::new());
    assert_eq!(report.last_good_lsn, 0);
}

#[test]
fn replay_skips_records_before_the_checkpoint_and_extends_the_store() {
    let mut wal = Wal::new();
    let old = pack_payload(&[1]).unwrap();
    let new = pack_payload(&[2]).unwrap();
    wal.append(0, KIND_PAGE_WRITE, &old).unwrap();
    wal.append(1, KIND_PAGE_WRITE, &new).unwrap();
    wal.append(9, KIND_PAGE_WRITE, &new).unwrap();
    wal.append(0, KIND_PAGE_WRITE, &[1, 2, 3]).unwrap();
    let mut store = PageStore::new();
    store.allocate_page();
    let report = rescue(&mut store, &wal.bytes, 2);
    assert_eq!(store.page_count(), 2);
    assert_eq!(store.read_page(0), Ok(Page::empty()));
    assert_eq!(store.read_page(1), Ok(Page { page_type: PAGE_TYPE_DATA, lsn: 2, payload: new }));
    assert_eq!(report.last_good_lsn, 4);
    assert_eq!(report.recovered, vec![0, 1]);
}

#[test]
fn apply_one_ignores_what_is_not_a_full_page_write() {
    let mut store = PageStore::new();
    store.allocate_page();
    let before = store.clone();
    let full = vec![3u8; PAYLOAD_SIZE];
    apply_one(&mut store, &LogRecord { lsn: 1, page_id: 0, kind: KIND_COMMIT, payload: full.clone() });
    apply_one(&mut store, &LogRecord { lsn: 1, page_id: 0, kind: KIND_PAGE_WRITE, payload: vec![1] });
    apply_one(&mut store, &LogRecord { lsn: 1, page_id: 2, kind: KIND_PAGE_WRITE, payload: full.clone() });
    assert_eq!(store, before);
    apply_one(&mut store, &LogRecord { lsn: 8, page_id: 0, kind: KIND_PAGE_WRITE, payload: full.clone() });
    assert_eq!(store.read_page(0), Ok(Page { page_type: PAGE_TYPE_DATA, lsn: 8, payload: full }));
    let _ = encode_record;
}

fn store_of(n: u64) -> PageStore {
    let mut store = PageStore::new();
    for i in 0..n {
        store.allocate_page();
        let payload = pack_payload(&[i as u8; 10]).unwrap();
        store.write_page(i, &Page { page_type: PAGE_TYPE_DATA, lsn: i + 1, payload }).unwrap();
    }
    store
}

#[test]
fn restore_brings_back_the_pages_of_the_snapshot() {
    let mut store = store_of(3);
    let snap = create_snapshot(&store, 3, 1_700_000_000).unwrap();
    assert_eq!(snap.lsn, 3);
    assert_eq!(snap.created_at, 1_700_000_000);
    assert_eq!(snap.manifest.len(), 3);
    assert!(validate_snapshot(&snap));
    let at_checkpoint = store.clone();
    let later = pack_payload(&[0xEE; 5]).unwrap();
    store.write_page(1, &Page { page_type: PAGE_TYPE_DATA, lsn: 4, payload: later }).unwrap();
    store.allocate_page();
    assert_ne!(store, at_checkpoint);
    assert_eq!(restore_snapshot(&mut store, &snap), Ok(()));
    assert_eq!(store, at_checkpoint);
    for (i, entry) in snap.manifest.iter().enumerate() {
        assert_eq!(entry.page_id, i as u64);
        let raw = store.raw_page(i as u64);
        assert_eq!(entry.checksum, u32::from_le_bytes([raw[0], raw[1], raw[2], raw[3]]));
    }
}

#[test]
fn manifest_holds_each_page_checksum() {
    let mut store = PageStore::new();
    store.allocate_page();
    let mut payload = vec![0u8; PAYLOAD_SIZE];
    payload[5] = 40;
    store.write_page(0, &Page { page_type: 1, lsn: 2, payload }).unwrap();
    let snap = create_snapshot(&store, 2, 0).unwrap();
    assert_eq!(snap.manifest[0].page_id, 0);
    assert_eq!(snap.manifest[0].checksum, 43);
}

#[test]
fn snapshot_is_refused_for_a_damaged_or_newer_page() {
    let store = store_of(3);
    assert_eq!(create_snapshot(&store, 2, 0), Err(SnapshotError::Validation));
    let mut damaged = store.clone();
    damaged.slots[1][20] ^= 1;
    assert_eq!(create_snapshot(&damaged, 3, 0), Err(SnapshotError::Validation));
    assert!(create_snapshot(&PageStore::new(), 0, 0).is_ok());
    assert!(check_page(store.raw_page(0), 1));
    assert!(!check_page(store.raw_page(1), 1));
    assert!(!check_page(&[], 1));
}

#[test]
fn failed_restore_leaves_the_store_untouched() {
    let source = store_of(3);
    let good = create_snapshot(&source, 3, 0).unwrap();
    let mut store = store_of(2);
    let before = store.clone();

    let mut bad_page = good.clone();
    bad_page.pages[2][100] ^= 0x80;
    assert_eq!(restore_snapshot(&mut store, &bad_page), Err(SnapshotError::Validation));
    assert_eq!(store, before);

    let mut bad_sum = good.clone();
    bad_sum.manifest[0].checksum ^= 1;
    assert_eq!(restore_snapshot(&mut store, &bad_sum), Err(SnapshotError::Validation));

    let mut bad_id = good.clone();
    bad_id.manifest[1].page_id = 7;
    assert_eq!(restore_snapshot(&mut store, &bad_id), Err(SnapshotError::Validation));

    let mut bad_lsn = good.clone();
    bad_lsn.lsn = 2;
    assert_eq!(restore_snapshot(&mut store, &bad_lsn), Err(SnapshotError::Validation));

    let mut short = good.clone();
    short.manifest.pop();
    assert_eq!(restore_snapshot(&mut store, &short), Err(SnapshotError::Validation));
    assert_eq!(store, before);

    assert_eq!(restore_snapshot(&mut store, &good), Ok(()));
    assert_eq!(store, source);
}

#[test]
fn snapshot_creation_goes_idle_checkpointing_materializing_idle() {
    let s0 = SnapshotState::Idle;
    let (s1, a1) = step(s0, SnapshotEvent::Requested);
    assert_eq!((s1, a1), (SnapshotState::Checkpointing, SnapshotAction::RequestBarrier));
    let (s2, a2) = step(s1, SnapshotEvent::BarrierReached { lsn: 9 });
    assert_eq!(s2, SnapshotState::Materializing { lsn: 9 });
    assert_eq!(a2, SnapshotAction::Materialize { lsn: 9 });
    assert_eq!(step(s2, SnapshotEvent::Materialized), (SnapshotState::Idle, SnapshotAction::Publish));
}

#[test]
fn snapshot_creation_reports_failures_and_ignores_stray_events() {
    let idle = SnapshotState::Idle;
    let checkpointing = SnapshotState::Checkpointing;
    let copying = SnapshotState::Materializing { lsn: 1 };
    assert_eq!(step(checkpointing, SnapshotEvent::BarrierFailed), (idle, SnapshotAction::ReportFailure));
    assert_eq!(step(copying, SnapshotEvent::MaterializeFailed), (idle, SnapshotAction::ReportFailure));
    assert_eq!(step(idle, SnapshotEvent::Materialized), (idle, SnapshotAction::Nothing));
    assert_eq!(step(idle, SnapshotEvent::BarrierReached { lsn: 3 }), (idle, SnapshotAction::Nothing));
    assert_eq!(step(checkpointing, SnapshotEvent::Requested), (checkpointing, SnapshotAction::Nothing));
    assert_eq!(step(copying, SnapshotEvent::Requested), (copying, SnapshotAction::Nothing));
    assert_eq!(step(copying, SnapshotEvent::BarrierReached { lsn: 5 }), (copying, SnapshotAction::Nothing));
}

#[test]
fn a_scan_cut_short_reports_what_it_found() {
    let mut store = store_of(5);
    store.slots[1][30] ^= 1;
    store.slots[4][30] ^= 1;
    assert_eq!(classify_prefix(&store, 0), (vec![], vec![]));
    assert_eq!(classify_prefix(&store, 2), (vec![0], vec![1]));
    assert_eq!(classify_prefix(&store, 5), (vec![0, 2, 3], vec![1, 4]));
    assert_eq!(classify_prefix(&store, 99), classify(&store));
    let mut wal = Wal::new();
    let payload = pack_payload(&[5]).unwrap();
    wal.append(1, KIND_PAGE_WRITE, &payload).unwrap();
    let report = rescue_within(&mut store, &wal.bytes, 0, 3);
    assert_eq!(report.pages_scanned, 3);
    assert_eq!(report.recovered, vec![0, 1, 2]);
    assert_eq!(report.irrecoverable, Vec::<u64>::new());
    assert_eq!(report.last_good_lsn, 1);
    let full = rescue(&mut store, &wal.bytes, 0);
    assert_eq!(full.pages_scanned, 5);
    assert_eq!(full.recovered, vec![0, 1, 2, 3]);
    assert_eq!(full.irrecoverable, vec![4]);
}
