use roverdb::record::{
    decode_record, encode_record, LogRecord, KIND_COMMIT, KIND_PAGE_WRITE, MAX_RECORD_PAYLOAD,
    RECORD_OVERHEAD,
};
use roverdb::wal::{encode_log, records_from, replay, scan, Wal, WalError};

fn rec(lsn: u64, page_id: u64, payload: &[u8]) -> LogRecord {
    LogRecord { lsn, page_id, kind: KIND_PAGE_WRITE, payload: payload.to_vec() }
}

#[test]
fn record_layout_is_length_lsn_page_kind_payload_checksum() {
    let image = encode_record(&rec(2, 3, &[10, 20]));
    assert_eq!(image.len(), RECORD_OVERHEAD + 2);
    assert_eq!(
        image,
        vec![
            2, 0, 0, 0, // payload length
            2, 0, 0, 0, 0, 0, 0, 0, // lsn
            3, 0, 0, 0, 0, 0, 0, 0, // page id
            1, // kind
            10, 20, // payload
            38, 0, 0, 0, // checksum: 2 + 2 + 3 + 1 + 10 + 20
        ]
    );
}

#[test]
fn record_round_trips_at_an_offset() {
    let r = rec(9, 4, &[1, 2, 3, 4, 5]);
    let mut bytes = vec![0xEE, 0xEE];
    bytes.extend(encode_record(&r));
    bytes.extend([0xDD, 0xDD, 0xDD]);
    assert_eq!(decode_record(&bytes, 2), Some((r, RECORD_OVERHEAD + 5)));
}

#[test]
fn torn_or_damaged_record_is_no_record() {
    let image = encode_record(&rec(1, 0, &[1, 2, 3]));
    for k in 0..image.len() {
        assert_eq!(decode_record(&image[..k], 0), None, "cut at {}", k);
    }
    for i in 0..image.len() {
        let mut bad = image.clone();
        bad[i] ^= 0x01;
        assert_eq!(decode_record(&bad, 0), None, "flip at {}", i);
    }
    assert_eq!(decode_record(&image, image.len()), None);
}

#[test]
fn append_assigns_consecutive_lsns() {
    let mut wal = Wal::new();
    assert_eq!(wal.append(7, KIND_PAGE_WRITE, &[1]), Ok(1));
    assert_eq!(wal.append(8, KIND_PAGE_WRITE, &[2]), Ok(2));
    assert_eq!(wal.append(0, KIND_COMMIT, &[]), Ok(3));
    assert_eq!(wal.next_lsn, 4);
    let all = wal.replay(0);
    assert_eq!(all.len(), 3);
    assert_eq!(all[0], rec(1, 7, &[1]));
    assert_eq!(all[1], rec(2, 8, &[2]));
    assert_eq!(all[2], LogRecord { lsn: 3, page_id: 0, kind: KIND_COMMIT, payload: vec![] });
}

#[test]
fn append_refuses_an_oversized_payload() {
    let mut wal = Wal::new();
    let before = wal.clone();
    let big = vec![0u8; MAX_RECORD_PAYLOAD + 1];
    assert_eq!(wal.append(0, KIND_PAGE_WRITE, &big), Err(WalError::PayloadTooLarge));
    assert_eq!(wal, before);
}

#[test]
fn append_refuses_when_lsns_are_exhausted() {
    let mut wal = Wal::open(&[], u64::MAX - 2);
    assert_eq!(wal.append(0, KIND_COMMIT, &[]), Ok(u64::MAX - 1));
    let before = wal.clone();
    assert_eq!(wal.append(0, KIND_COMMIT, &[]), Err(WalError::LsnExhausted));
    assert_eq!(wal, before);
}

#[test]
fn synced_record_survives_reopen() {
    let mut wal = Wal::new();
    wal.append(1, KIND_PAGE_WRITE, &[1, 1]).unwrap();
    wal.sync();
    let lsn = wal.append(2, KIND_PAGE_WRITE, &[2, 2]).unwrap();
    wal.sync();
    let on_disk = wal.durable();
    let reopened = Wal::open(&on_disk, 0);
    let all = reopened.replay(0);
    assert!(all.contains(&rec(lsn, 2, &[2, 2])));
    assert_eq!(all.len(), 2);
    assert_eq!(reopened.next_lsn, 3);
    assert_eq!(replay(&on_disk, 0), all);
}

#[test]
fn unsynced_record_is_not_durable() {
    let mut wal = Wal::new();
    wal.append(1, KIND_PAGE_WRITE, &[1]).unwrap();
    wal.sync();
    wal.append(2, KIND_PAGE_WRITE, &[2]).unwrap();
    let on_disk = wal.durable();
    assert_eq!(replay(&on_disk, 0), vec![rec(1, 1, &[1])]);
    assert_eq!(Wal::new().durable(), Vec::<u8>::new());
}

#[test]
fn truncating_the_file_anywhere_yields_the_complete_records_before_the_cut() {
    let records = vec![rec(1, 0, &[1, 2, 3]), rec(2, 1, &[]), rec(3, 0, &[9; 40])];
    let file = encode_log(&records);
    let mut ends = Vec::new();
    let mut end = 0;
    for r in &records {
        end += RECORD_OVERHEAD + r.payload.len();
        ends.push(end);
    }
    assert_eq!(end, file.len());
    for cut in 0..=file.len() {
        let whole = ends.iter().filter(|e| **e <= cut).count();
        let (found, stop) = scan(&file[..cut]);
        assert_eq!(found, records[..whole].to_vec(), "cut at {}", cut);
        assert_eq!(stop, if whole == 0 { 0 } else { ends[whole - 1] });
        assert_eq!(replay(&file[..cut], 0), records[..whole].to_vec());
    }
}

#[test]
fn garbage_after_the_log_is_ignored() {
    let records = vec![rec(5, 0, &[1]), rec(6, 0, &[2])];
    let mut file = encode_log(&records);
    let valid = file.len();
    file.extend([0xFFu8; 60]);
    let (found, stop) = scan(&file);
    assert_eq!(found, records);
    assert_eq!(stop, valid);
    let wal = Wal::open(&file, 0);
    assert_eq!(wal.bytes.len(), valid);
    assert_eq!(wal.next_lsn, 7);
}

#[test]
fn a_gap_in_the_lsns_ends_the_valid_log() {
    let mut file = encode_log(&vec![rec(1, 0, &[1]), rec(2, 0, &[2])]);
    let valid = file.len();
    file.extend(encode_record(&rec(4, 0, &[4])));
    let (found, stop) = scan(&file);
    assert_eq!(found.len(), 2);
    assert_eq!(stop, valid);
    let mut repeated = encode_record(&rec(3, 0, &[1]));
    repeated.extend(encode_record(&rec(3, 0, &[1])));
    assert_eq!(scan(&repeated).0.len(), 1);
}

#[test]
fn replay_starts_at_the_requested_lsn() {
    let records = vec![rec(10, 0, &[1]), rec(11, 0, &[2]), rec(12, 0, &[3])];
    let file = encode_log(&records);
    assert_eq!(replay(&file, 0), records);
    assert_eq!(replay(&file, 10), records);
    assert_eq!(replay(&file, 11), records[1..].to_vec());
    assert_eq!(replay(&file, 12), records[2..].to_vec());
    assert_eq!(replay(&file, 13), vec![]);
    assert_eq!(records_from(&records, 12), records[2..].to_vec());
    assert_eq!(replay(&[], 0), vec![]);
}

#[test]
fn truncate_discards_the_records_before_an_lsn() {
    let mut wal = Wal::new();
    for i in 0..5u8 {
        wal.append(i as u64, KIND_PAGE_WRITE, &[i]).unwrap();
    }
    wal.truncate(4);
    assert_eq!(wal.replay(0), vec![rec(4, 3, &[3]), rec(5, 4, &[4])]);
    assert_eq!(wal.next_lsn, 6);
    assert_eq!(wal.synced_len, wal.bytes.len());
    assert_eq!(wal.append(9, KIND_PAGE_WRITE, &[9]), Ok(6));
    wal.truncate(100);
    assert_eq!(wal.replay(0), vec![]);
    assert_eq!(wal.bytes, Vec::<u8>::new());
    assert_eq!(wal.append(9, KIND_PAGE_WRITE, &[9]), Ok(7));
}

#[test]
fn open_resumes_after_the_checkpoint_when_the_log_is_empty() {
    let wal = Wal::open(&[], 41);
    assert_eq!(wal.next_lsn, 42);
    assert_eq!(Wal::open(&[1, 2, 3], u64::MAX).next_lsn, u64::MAX);
    assert_eq!(Wal::new().next_lsn, 1);
}

#[test]
fn duplicate_is_an_equal_record() {
    let r = rec(3, 9, &[1, 2, 3]);
    assert_eq!(r.duplicate(), r);
    let empty = LogRecord { lsn: 0, page_id: 0, kind: KIND_COMMIT, payload: vec![] };
    assert_eq!(empty.duplicate(), empty);
}

#[test]
fn a_crash_keeps_the_synced_records_in_order() {
    let mut wal = Wal::new();
    let mut survivors = Vec::new();
    for round in 0..4u8 {
        for i in 0..3u8 {
            wal.append(i as u64, KIND_PAGE_WRITE, &[round, i]).unwrap();
        }
        let on_disk = wal.durable();
        assert_eq!(replay(&on_disk, 0), survivors);
        let (found, stop) = scan(&on_disk);
        assert_eq!(stop, on_disk.len());
        assert_eq!(found, wal.replay(0)[..survivors.len()].to_vec());
        wal.sync();
        survivors = wal.replay(0);
        assert_eq!(replay(&wal.durable(), 0), survivors);
    }
    assert_eq!(survivors.len(), 12);
}
