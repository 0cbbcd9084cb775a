use roverdb::buffer::PageBuffer;
use roverdb::engine::{
    checkpoint, delete, fetch, insert, payload_for_row, reserve_header, update, write_payload,
    ReadError, WriteError,
};
use roverdb::header::{read_header, rescue_store, FileHeader};
use roverdb::page::{pack_payload, Page, MAX_PAYLOAD_DATA, PAGE_TYPE_DATA, PAYLOAD_SIZE};
use roverdb::record::{LogRecord, KIND_PAGE_WRITE};
use roverdb::rescue::rescue;
use roverdb::row::{encode, Row, Value, MAX_COLUMNS};
use roverdb::store::PageStore;
use roverdb::wal::Wal;

fn row(name: &str, n: i64) -> Row {
    Row { columns: vec![Some(Value::Bytes(name.as_bytes().to_vec())), None, Some(Value::Int(n))] }
}

fn fresh() -> (PageBuffer, Wal) {
    (PageBuffer::open(PageStore::new()), Wal::new())
}

#[test]
fn inserted_rows_are_fetched() {
    let (mut buffer, mut wal) = fresh();
    assert_eq!(insert(&mut buffer, &mut wal, &row("a", 1)), Ok((1, 1)));
    assert_eq!(insert(&mut buffer, &mut wal, &row("b", 2)), Ok((2, 2)));
    assert_eq!(fetch(&buffer, 1), Ok(Some(row("a", 1))));
    assert_eq!(fetch(&buffer, 2), Ok(Some(row("b", 2))));
    assert_eq!(fetch(&buffer, 3), Err(ReadError::NoSuchPage));
    assert_eq!(fetch(&buffer, 0), Err(ReadError::HeaderPage));
    assert_eq!(buffer.flush(), vec![0, 1, 2]);
}

#[test]
fn every_write_is_logged_before_it_is_made() {
    let (mut buffer, mut wal) = fresh();
    insert(&mut buffer, &mut wal, &row("a", 1)).unwrap();
    let lsn = update(&mut buffer, &mut wal, 1, &row("a", 2)).unwrap();
    assert_eq!(lsn, 2);
    let log = wal.replay(0);
    assert_eq!(log.len(), 2);
    let payload = pack_payload(&encode(&row("a", 2))).unwrap();
    assert_eq!(log[1], LogRecord { lsn: 2, page_id: 1, kind: KIND_PAGE_WRITE, payload: payload.clone() });
    assert_eq!(buffer.store.read_page(1), Ok(Page { page_type: PAGE_TYPE_DATA, lsn: 2, payload }));
    assert_eq!(wal.synced_len, 0);
    assert_eq!(wal.durable(), Vec::<u8>::new());
}

#[test]
fn replaying_the_log_rebuilds_the_store() {
    let (mut buffer, mut wal) = fresh();
    insert(&mut buffer, &mut wal, &row("a", 1)).unwrap();
    insert(&mut buffer, &mut wal, &row("b", 2)).unwrap();
    update(&mut buffer, &mut wal, 1, &row("c", 3)).unwrap();
    delete(&mut buffer, &mut wal, 2).unwrap();
    let mut empty = PageBuffer::open(PageStore::new());
    reserve_header(&mut empty);
    let mut rebuilt = empty.store;
    let report = rescue(&mut rebuilt, &wal.bytes, 0);
    assert_eq!(rebuilt, buffer.store);
    assert_eq!(report.last_good_lsn, 4);
    assert_eq!(report.recovered, vec![0, 1, 2]);
}

#[test]
fn deleted_row_is_gone_and_its_page_stays() {
    let (mut buffer, mut wal) = fresh();
    insert(&mut buffer, &mut wal, &row("a", 1)).unwrap();
    assert_eq!(delete(&mut buffer, &mut wal, 1), Ok(2));
    assert_eq!(fetch(&buffer, 1), Ok(None));
    assert_eq!(buffer.store.page_count(), 2);
    assert_eq!(buffer.store.read_page(1), Ok(Page { page_type: PAGE_TYPE_DATA, lsn: 2, payload: vec![0; PAYLOAD_SIZE] }));
    assert_eq!(delete(&mut buffer, &mut wal, 2), Err(WriteError::NoSuchPage));
}

#[test]
fn refused_writes_change_nothing() {
    let (mut buffer, mut wal) = fresh();
    insert(&mut buffer, &mut wal, &row("a", 1)).unwrap();
    let before = (buffer.clone(), wal.clone());
    let wide = Row { columns: vec![None; MAX_COLUMNS + 1] };
    let long = Row { columns: vec![Some(Value::Bytes(vec![1; MAX_PAYLOAD_DATA]))] };
    assert_eq!(insert(&mut buffer, &mut wal, &wide), Err(WriteError::InvalidRow));
    assert_eq!(insert(&mut buffer, &mut wal, &long), Err(WriteError::RowTooLarge));
    assert_eq!(update(&mut buffer, &mut wal, 1, &long), Err(WriteError::RowTooLarge));
    assert_eq!(update(&mut buffer, &mut wal, 2, &row("b", 2)), Err(WriteError::NoSuchPage));
    assert_eq!(write_payload(&mut buffer, &mut wal, 3, vec![0; PAYLOAD_SIZE]), Err(WriteError::NoSuchPage));
    assert_eq!(update(&mut buffer, &mut wal, 0, &row("b", 2)), Err(WriteError::HeaderPage));
    assert_eq!(delete(&mut buffer, &mut wal, 0), Err(WriteError::HeaderPage));
    assert_eq!(write_payload(&mut buffer, &mut wal, 0, vec![0; PAYLOAD_SIZE]), Err(WriteError::HeaderPage));
    assert_eq!((buffer.clone(), wal.clone()), before);
    let mut last = Wal::open(&[], u64::MAX - 1);
    let untouched = last.clone();
    assert_eq!(insert(&mut buffer, &mut last, &row("b", 2)), Err(WriteError::LsnExhausted));
    assert_eq!(update(&mut buffer, &mut last, 1, &row("b", 2)), Err(WriteError::LsnExhausted));
    assert_eq!(delete(&mut buffer, &mut last, 1), Err(WriteError::LsnExhausted));
    assert_eq!(last, untouched);
    assert_eq!(buffer, before.0);
}

#[test]
fn largest_row_that_fits_is_written() {
    let (mut buffer, mut wal) = fresh();
    let big = Row { columns: vec![Some(Value::Bytes(vec![7; MAX_PAYLOAD_DATA - 10]))] };
    assert_eq!(encode(&big).len(), MAX_PAYLOAD_DATA);
    assert_eq!(payload_for_row(&big).map(|p| p.len()), Ok(PAYLOAD_SIZE));
    assert_eq!(insert(&mut buffer, &mut wal, &big), Ok((1, 1)));
    assert_eq!(fetch(&buffer, 1), Ok(Some(big)));
    let over = Row { columns: vec![Some(Value::Bytes(vec![7; MAX_PAYLOAD_DATA - 9]))] };
    assert_eq!(payload_for_row(&over), Err(WriteError::RowTooLarge));
}

#[test]
fn unreadable_pages_are_told_apart() {
    let (mut buffer, mut wal) = fresh();
    insert(&mut buffer, &mut wal, &row("a", 1)).unwrap();
    buffer.allocate_page();
    buffer.allocate_page();
    assert_eq!(fetch(&buffer, 2), Ok(None));
    let junk = pack_payload(&[9, 9, 9]).unwrap();
    write_payload(&mut buffer, &mut wal, 3, junk).unwrap();
    assert_eq!(fetch(&buffer, 3), Err(ReadError::Decode));
    let mut bad_length = vec![0u8; PAYLOAD_SIZE];
    bad_length[0] = 0xFF;
    bad_length[1] = 0xFF;
    write_payload(&mut buffer, &mut wal, 2, bad_length).unwrap();
    assert_eq!(fetch(&buffer, 2), Err(ReadError::Decode));
    buffer.store.slots[1][40] ^= 2;
    assert_eq!(fetch(&buffer, 1), Err(ReadError::Checksum));
}

#[test]
fn the_first_row_goes_to_page_one() {
    let (mut buffer, mut wal) = fresh();
    assert_eq!(insert(&mut buffer, &mut wal, &row("a", 1)), Ok((1, 1)));
    assert_eq!(read_header(&buffer.store), Some(FileHeader { page_size: 4096, schema_version: 0, checkpoint_lsn: 0 }));
    assert_eq!(buffer.dirty, vec![true, true]);
    let mut other = PageBuffer::open(PageStore::new());
    reserve_header(&mut other);
    assert_eq!(other.store.page_count(), 1);
    let again = other.clone();
    reserve_header(&mut other);
    assert_eq!(other, again);
}

#[test]
fn a_write_marks_its_page_and_no_other() {
    let (mut buffer, mut wal) = fresh();
    for i in 0..3 {
        insert(&mut buffer, &mut wal, &row("r", i)).unwrap();
    }
    buffer.flush();
    update(&mut buffer, &mut wal, 2, &row("x", 9)).unwrap();
    assert_eq!(buffer.dirty, vec![false, false, true, false]);
    delete(&mut buffer, &mut wal, 3).unwrap();
    assert_eq!(buffer.dirty, vec![false, false, true, true]);
    insert(&mut buffer, &mut wal, &row("y", 1)).unwrap();
    assert_eq!(buffer.dirty, vec![false, false, true, true, true]);
    assert_eq!(buffer.flush(), vec![2, 3, 4]);
}

#[test]
fn checkpoint_touches_only_the_header_page() {
    let (mut buffer, mut wal) = fresh();
    insert(&mut buffer, &mut wal, &row("a", 1)).unwrap();
    insert(&mut buffer, &mut wal, &row("b", 2)).unwrap();
    buffer.flush();
    let rows = buffer.store.clone();
    assert_eq!(checkpoint(&mut buffer, &mut wal, 5), 2);
    assert_eq!(read_header(&buffer.store), Some(FileHeader { page_size: 4096, schema_version: 5, checkpoint_lsn: 2 }));
    assert_eq!(buffer.store.slots[1..], rows.slots[1..]);
    assert_eq!(buffer.dirty, vec![true, false, false]);
    assert_eq!(wal.synced_len, wal.bytes.len());
    assert_eq!(fetch(&buffer, 1), Ok(Some(row("a", 1))));
    let (mut empty, mut log) = fresh();
    assert_eq!(checkpoint(&mut empty, &mut log, 1), 0);
    assert_eq!(empty.store.page_count(), 1);
    assert_eq!(insert(&mut empty, &mut log, &row("a", 1)), Ok((1, 1)));
}

#[test]
fn rows_written_before_a_checkpoint_survive_a_crash_in_the_next_write() {
    let (a, b, c, d) = (row("A", 1), row("B", 2), row("C", 3), row("D", 4));
    let (mut buffer, mut wal) = fresh();
    assert_eq!(insert(&mut buffer, &mut wal, &a), Ok((1, 1)));
    assert_eq!(insert(&mut buffer, &mut wal, &b), Ok((2, 2)));
    assert_eq!(insert(&mut buffer, &mut wal, &c), Ok((3, 3)));
    assert_eq!(checkpoint(&mut buffer, &mut wal, 1), 3);
    assert_eq!(buffer.flush(), vec![0, 1, 2, 3]);
    let data_file = buffer.store.to_bytes();
    let synced = wal.durable();

    assert_eq!(insert(&mut buffer, &mut wal, &d), Ok((4, 4)));
    assert_eq!(fetch(&buffer, 4), Ok(Some(d.clone())));
    for cut in [0, 1, 24, 25, 2000, wal.bytes.len() - synced.len() - 1] {
        let torn = wal.bytes[..synced.len() + cut].to_vec();
        let mut store = PageStore::from_bytes(&data_file);
        let report = rescue_store(&mut store, &torn);
        assert_eq!(report.last_good_lsn, 3);
        assert_eq!(report.truncation_point, synced.len());
        assert_eq!(report.recovered, vec![0, 1, 2, 3]);
        assert_eq!(report.irrecoverable, Vec::<u64>::new());
        let rescued = PageBuffer::open(store);
        assert_eq!(fetch(&rescued, 1), Ok(Some(a.clone())));
        assert_eq!(fetch(&rescued, 2), Ok(Some(b.clone())));
        assert_eq!(fetch(&rescued, 3), Ok(Some(c.clone())));
        assert_eq!(fetch(&rescued, 4), Err(ReadError::NoSuchPage));
        assert_eq!(rescued.store.to_bytes(), data_file);
    }
}
