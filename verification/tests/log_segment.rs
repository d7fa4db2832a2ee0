use std::collections::HashMap;

use otk::codec::DecodeFault;
use otk::log::config::SegmentLogConfig;
use otk::log::entry::{LogEntry, Offset, RetentionPolicy};
use otk::log::error::{Corruption, Misuse, StorageError};
use otk::log::mem::MemLog;
use otk::log::names::{index_file_name, segment_base, segment_bases, segment_file_name};
use otk::log::segment::{
    check_index_size, read_index, read_record, read_watermark, record_span_of, recover_active,
    write_end_mark, write_index, write_record, write_watermark, SegmentHeader, HEADER_LEN,
    MAX_EVENT_CBOR, MAX_INDEX_BYTES,
};
use otk::log::state::appending::{AppendAction, AppendOutcome, IoEvent};
use otk::log::state::opening::{OpenAction, SegmentInput};
use otk::log::state::reading::read_slot;
use otk::log::state::SegmentLog;
use otk::log::subscription::{
    scan_segments, SegmentLogSubscription, SubscriptionAction, SubscriptionEvent,
};
use otk::model::detection::{Detection, SensorData};
use otk::model::event::OtkEvent;
use otk::model::ids::{DetectionId, DetectorId, TimebaseId, TimingPointId};
use otk::model::timestamp::{SourceAttestation, TimestampingMethod};

fn make_event() -> OtkEvent {
    OtkEvent::Detection(Detection {
        detection_id: DetectionId::new("d1"),
        detector_id: DetectorId::new("loop-a"),
        timing_point_id: TimingPointId::new("tp-1"),
        subject_id: None,
        detected_at_ns: 1_700_000_000_000_000_000,
        detected_at_uncertainty_ns: None,
        received_at_ns: None,
        timestamping_method: TimestampingMethod::HardwareEventCapture,
        timebase_id: TimebaseId::new("gps-1"),
        source_attestation: SourceAttestation::RuntimeDiscovered,
        sequence_number: 1,
        sensor: SensorData::BeamBreak,
    })
}

fn make_entry(offset: u64) -> LogEntry {
    LogEntry {
        offset: Offset::new(offset),
        appended_at_ns: 1_700_000_000_000_000_000 + offset,
        producer_id: "test-producer".to_string(),
        event: make_event(),
    }
}

// The files of a segment

#[test]
fn round_trip_single_record() {
    let header = SegmentHeader {
        base_offset: 0,
        created_at_ns: 42,
    };
    let mut file = header.write();

    let entry = make_entry(0);
    let record_pos = file.len();
    file.extend(write_record(&entry).unwrap());
    assert_eq!(record_pos as u64, HEADER_LEN);

    let (read_back, len) = read_record(&file[record_pos..]).unwrap();
    assert_eq!(len as usize, file.len() - record_pos);
    assert_eq!(read_back.offset, entry.offset);
    assert_eq!(read_back.appended_at_ns, entry.appended_at_ns);
    assert_eq!(read_back.producer_id, entry.producer_id);
    assert_eq!(
        format!("{:?}", read_back.event),
        format!("{:?}", entry.event)
    );
}

#[test]
fn crc_mismatch_detected() {
    let header = SegmentHeader {
        base_offset: 0,
        created_at_ns: 0,
    };
    let mut file = header.write();
    file.extend(write_record(&make_entry(0)).unwrap());

    // flip a byte in the CBOR payload (at HEADER_LEN + 4 + 8 + 8 + 4 = HEADER_LEN + 24)
    let corrupt_pos = HEADER_LEN as usize + 24;
    file[corrupt_pos] = 0xFF;

    let result = read_record(&file[HEADER_LEN as usize..]);
    assert!(
        matches!(result, Err(StorageError::Corrupted(_))),
        "expected Corrupted, got: {result:?}"
    );
}

#[test]
fn index_write_read_roundtrip() {
    let positions: Vec<u64> = vec![24, 128, 256, 512];
    let bytes = write_index(&positions);
    let read_back = read_index(&bytes).unwrap();
    assert_eq!(read_back, positions);
}

#[test]
fn recover_detects_torn_write() {
    let header = SegmentHeader {
        base_offset: 0,
        created_at_ns: 0,
    };
    let mut file = header.write();
    file.extend(write_record(&make_entry(0)).unwrap());
    let second_pos = file.len();
    file.extend(write_record(&make_entry(1)).unwrap());
    let full_len = file.len();

    // Truncate 5 bytes into the second record (well past the boundary)
    let torn_pos = second_pos + 5;
    assert!(
        torn_pos < full_len,
        "torn_pos must be inside the second record"
    );
    file.truncate(torn_pos);

    let (positions, next_file_pos, record_count) = recover_active(&file, 0).unwrap();

    assert_eq!(
        record_count, 1,
        "should have recovered only the first record"
    );
    assert_eq!(positions.len(), 1);
    assert_eq!(positions[0], HEADER_LEN);

    file.truncate(next_file_pos as usize);
    let file_len = file.len();
    assert_eq!(file_len as u64, next_file_pos);
    assert!(
        file_len < torn_pos,
        "file should be truncated back past the torn point"
    );
}

#[test]
fn recover_removes_sentinel() {
    let header = SegmentHeader {
        base_offset: 0,
        created_at_ns: 0,
    };
    let mut file = header.write();
    let record_pos = file.len() as u64;
    file.extend(write_record(&make_entry(0)).unwrap());
    let after_record = file.len() as u64;

    // Zero sentinel (as if a roll was interrupted before the index was written)
    file.extend(write_end_mark());

    let (positions, next_file_pos, record_count) = recover_active(&file, 0).unwrap();

    assert_eq!(record_count, 1);
    assert_eq!(positions[0], record_pos);
    // Sentinel must be removed
    assert_eq!(next_file_pos, after_record);
}

#[test]
fn header_has_its_bytes() {
    let header = SegmentHeader { base_offset: 0x0102, created_at_ns: 0x0304 };
    let bytes = header.write();
    assert_eq!(
        bytes,
        vec![
            b'O', b'T', b'K', b'S', 1, 0, 0, 0, 2, 1, 0, 0, 0, 0, 0, 0, 4, 3, 0, 0, 0, 0, 0, 0
        ]
    );
    assert_eq!(SegmentHeader::read(&bytes).unwrap(), header);
}

#[test]
fn damaged_headers_are_refused() {
    let good = SegmentHeader { base_offset: 7, created_at_ns: 9 }.write();
    assert_eq!(SegmentHeader::read(&good[..23]), Err(StorageError::UnexpectedEof));
    let mut bad = good.clone();
    bad[0] = b'X';
    assert_eq!(
        SegmentHeader::read(&bad),
        Err(StorageError::Corrupted(Corruption::BadMagic(b'X', b'T', b'K', b'S')))
    );
    let mut old = good.clone();
    old[4] = 9;
    assert_eq!(
        SegmentHeader::read(&old),
        Err(StorageError::Corrupted(Corruption::UnknownVersion(9)))
    );
}

#[test]
fn record_has_its_bytes() {
    let entry = make_entry(3);
    let event = otk::wire::to_vec(&entry.event);
    let mut payload = Vec::new();
    payload.extend_from_slice(&3u64.to_le_bytes());
    payload.extend_from_slice(&(1_700_000_000_000_000_003u64).to_le_bytes());
    payload.extend_from_slice(&(event.len() as u32).to_le_bytes());
    payload.extend_from_slice(&event);
    payload.extend_from_slice(b"test-producer");
    let mut expected = (payload.len() as u32).to_le_bytes().to_vec();
    expected.extend_from_slice(&payload);
    expected.extend_from_slice(&crc32fast::hash(&payload).to_le_bytes());
    assert_eq!(write_record(&entry).unwrap(), expected);
    assert_eq!(record_span_of(&expected[..4]), expected.len() as u64);
    assert_eq!(record_span_of(&[0xff; 4]), u64::from(u32::MAX) + 8);
}

#[test]
fn checksum_is_the_usual_one() {
    assert_eq!(crc32fast::hash(b"123456789"), 0xCBF4_3926);
}

#[test]
fn damaged_records_are_refused() {
    let good = write_record(&make_entry(0)).unwrap();
    assert!(matches!(
        read_record(&[0, 0, 0, 0]),
        Err(StorageError::Corrupted(Corruption::Sentinel))
    ));
    assert!(matches!(
        read_record(&[19, 0, 0, 0]),
        Err(StorageError::Corrupted(Corruption::PayloadTooSmall(19)))
    ));
    assert!(matches!(read_record(&[20, 0, 0, 0]), Err(StorageError::UnexpectedEof)));
    assert!(matches!(read_record(&[0xff; 4]), Err(StorageError::UnexpectedEof)));
    assert!(matches!(
        read_record(&[0xff; 24]),
        Err(StorageError::Corrupted(Corruption::EventTooLarge(u32::MAX)))
    ));
    for k in 0..good.len() {
        assert!(matches!(read_record(&good[..k]), Err(StorageError::UnexpectedEof)));
    }
    // The event's length says more than the payload holds.
    let mut long = good.clone();
    long[20] = 0xff;
    long[21] = 0xff;
    match read_record(&long) {
        Err(StorageError::Corrupted(Corruption::LengthMismatch { implied, stored })) => {
            assert_eq!(implied as usize, good.len() - 28);
            assert_eq!(stored, 0xffff);
        }
        other => panic!("expected a mismatch, got {other:?}"),
    }
    // The checksum itself is damaged.
    let mut crc = good.clone();
    let last = crc.len() - 1;
    crc[last] ^= 1;
    assert!(matches!(
        read_record(&crc),
        Err(StorageError::Corrupted(Corruption::CrcMismatch { .. }))
    ));
    // What follows a record does not matter.
    let mut more = good.clone();
    more.extend_from_slice(&[1, 2, 3]);
    assert_eq!(read_record(&more).unwrap().1 as usize, good.len());
}

/// A record with these parts, and the right checksum.
fn record_of(event: &[u8], producer: &[u8]) -> Vec<u8> {
    let mut payload = vec![0u8; 16];
    payload.extend_from_slice(&(event.len() as u32).to_le_bytes());
    payload.extend_from_slice(event);
    payload.extend_from_slice(producer);
    let mut record = (payload.len() as u32).to_le_bytes().to_vec();
    record.extend_from_slice(&payload);
    record.extend_from_slice(&crc32fast::hash(&payload).to_le_bytes());
    record
}

#[test]
fn records_with_damaged_contents_are_refused() {
    let event = otk::wire::to_vec(&make_event());
    assert!(read_record(&record_of(&event, b"p")).is_ok());
    assert!(matches!(
        read_record(&record_of(&[0xff], b"p")),
        Err(StorageError::Corrupted(Corruption::Event(_)))
    ));
    assert!(matches!(
        read_record(&record_of(&event, &[0xff, 0xfe])),
        Err(StorageError::Corrupted(Corruption::ProducerId))
    ));
}

#[test]
fn records_without_a_producer_id_are_read() {
    let event = otk::wire::to_vec(&make_event());
    let record = record_of(&event, b"");
    assert_eq!(record.len(), event.len() + 28);
    let (entry, span) = read_record(&record).unwrap();
    assert_eq!(entry.producer_id, "");
    assert_eq!(otk::wire::to_vec(&entry.event), event);
    assert_eq!(span as usize, record.len());
}

#[test]
fn long_producer_ids_are_kept() {
    for len in [65_535, 65_536, 5_000_000] {
        let mut entry = make_entry(0);
        entry.producer_id = "p".repeat(len);
        let record = write_record(&entry).unwrap();
        assert_eq!(read_record(&record).unwrap().0.producer_id, entry.producer_id);
    }
    let id = "\u{e9}".repeat(40_000);
    let mut log = open_log();
    log.append(&id, &[make_event()]).unwrap();
    assert_eq!(log.read_range(Offset::new(0), None).unwrap()[0].producer_id, id);
    let again = log.reopen(SegmentLogConfig::default());
    assert_eq!(again.read_range(Offset::new(0), None).unwrap()[0].producer_id, id);
}

#[test]
fn entries_that_are_too_large_are_refused() {
    let mut entry = make_entry(0);
    if let OtkEvent::Detection(d) = &mut entry.event {
        d.detection_id = DetectionId::new(&"d".repeat(MAX_EVENT_CBOR));
    }
    assert!(matches!(
        write_record(&entry),
        Err(StorageError::InvalidInput(Misuse::EventTooLarge(n))) if n > MAX_EVENT_CBOR
    ));
}

#[test]
fn damaged_indexes_are_refused() {
    assert_eq!(
        read_index(&[0u8; 9]),
        Err(StorageError::Corrupted(Corruption::IndexLength(9)))
    );
    assert_eq!(read_index(&[]), Ok(vec![]));
    assert_eq!(
        check_index_size(MAX_INDEX_BYTES + 1),
        Err(StorageError::Corrupted(Corruption::IndexTooLarge(MAX_INDEX_BYTES + 1)))
    );
    assert_eq!(check_index_size(MAX_INDEX_BYTES), Ok(()));
}

#[test]
fn watermark_reads_back() {
    assert_eq!(write_watermark(258), vec![2, 1, 0, 0, 0, 0, 0, 0]);
    assert_eq!(read_watermark(&write_watermark(u64::MAX)), Some(u64::MAX));
    assert_eq!(read_watermark(&[1, 2, 3]), None);
}

#[test]
fn recovery_stops_at_the_wrong_offset() {
    let mut file = SegmentHeader { base_offset: 5, created_at_ns: 0 }.write();
    file.extend(write_record(&make_entry(5)).unwrap());
    let good = file.len() as u64;
    file.extend(write_record(&make_entry(7)).unwrap());
    let (positions, end, count) = recover_active(&file, 5).unwrap();
    assert_eq!((positions.len(), end, count), (1, good, 1));
    // Recovering what is left finds the same.
    file.truncate(end as usize);
    assert_eq!(recover_active(&file, 5).unwrap(), (positions, end, count));
}

#[test]
fn names_carry_their_offsets() {
    assert_eq!(segment_file_name(42), "00000000000000000042.seg");
    assert_eq!(index_file_name(42), "00000000000000000042.idx");
    assert_eq!(segment_file_name(u64::MAX), "18446744073709551615.seg");
    assert_eq!(segment_base("00000000000000000042.seg"), Some(42));
    assert_eq!(segment_base("18446744073709551615.seg"), Some(u64::MAX));
    for other in [
        "42.seg",
        "+0000000000000000042.seg",
        "00000000000000000042.idx",
        "18446744073709551616.seg",
        "0000000000000000004x.seg",
        "000000000000000000042.seg",
        "WATERMARK",
        "",
    ] {
        assert_eq!(segment_base(other), None, "{other}");
    }
    let names: Vec<String> = ["WATERMARK", "00000000000000000007.seg", "x.seg", "00000000000000000003.seg"]
        .iter()
        .map(|s| s.to_string())
        .collect();
    assert_eq!(segment_bases(&names), vec![3, 7]);
    assert_eq!(scan_segments(&names, 6), (Some(3), Some(3)));
    assert_eq!(scan_segments(&names, 7), (Some(7), Some(3)));
    assert_eq!(scan_segments(&names, 2), (None, Some(3)));
    assert_eq!(scan_segments(&vec![], 2), (None, None));
}

// A log on files that are kept in memory

#[derive(Clone, Default)]
struct Files {
    data: HashMap<u64, Vec<u8>>,
    index: HashMap<u64, Vec<u8>>,
    watermark: Option<Vec<u8>>,
}

impl Files {
    fn names(&self) -> Vec<String> {
        let mut names: Vec<String> = self.data.keys().map(|b| segment_file_name(*b)).collect();
        names.extend(self.index.keys().map(|b| index_file_name(*b)));
        if self.watermark.is_some() {
            names.push("WATERMARK".to_string());
        }
        names
    }
}

struct Disk {
    log: SegmentLog,
    files: Files,
    now: u64,
    /// Fail the action with this number.
    fail_at: Option<usize>,
}

fn try_open(config: SegmentLogConfig, files: Files, now: u64) -> Result<Disk, StorageError> {
    let mut files = files;
    let mut inputs = Vec::new();
    for base in segment_bases(&files.names()) {
        let data = files.data[&base].clone();
        match files.index.get(&base) {
            Some(index) => {
                let last = match read_index(index) {
                    Ok(p) if !p.is_empty() => data[p[p.len() - 1] as usize..].to_vec(),
                    _ => vec![],
                };
                inputs.push(SegmentInput::Closed {
                    base,
                    index: index.clone(),
                    head: data[..24].to_vec(),
                    last,
                    size: data.len() as u64,
                });
            }
            None => inputs.push(SegmentInput::Unindexed { base, data }),
        }
    }
    let opened = SegmentLog::open(config, inputs, files.watermark.clone(), now);
    for action in opened.actions {
        match action {
            OpenAction::RemoveOrphan { base } => {
                files.data.remove(&base);
            }
            OpenAction::ResetHeader { base, header } => {
                files.data.insert(base, header);
            }
            OpenAction::Truncate { base, len } => {
                files.data.get_mut(&base).unwrap().truncate(len as usize);
            }
        }
    }
    Ok(Disk { log: opened.log?, files, now, fail_at: None })
}

fn open(config: SegmentLogConfig) -> Disk {
    try_open(config, Files::default(), 1_700_000_000_000_000_000).unwrap()
}

fn open_log() -> Disk {
    open(SegmentLogConfig::default())
}

impl Disk {
    fn reopen(self, config: SegmentLogConfig) -> Disk {
        try_open(config, self.files, self.now).unwrap()
    }

    /// Does what the log asks for.
    fn perform(&mut self, action: &AppendAction) -> IoEvent {
        match action {
            AppendAction::Begin { base, header } => {
                self.files.data.insert(*base, header.clone());
            }
            AppendAction::Write { base, pos, bytes, .. }
            | AppendAction::Mark { base, pos, bytes } => {
                let file = self.files.data.get_mut(base).unwrap();
                file.truncate(*pos as usize);
                assert_eq!(file.len() as u64, *pos);
                file.extend_from_slice(bytes);
            }
            AppendAction::Locate { base } | AppendAction::Measure { base } => {
                return IoEvent::At(self.files.data[base].len() as u64);
            }
            AppendAction::WriteIndex { base, bytes } => {
                self.files.index.insert(*base, bytes.clone());
            }
            AppendAction::WriteWatermark { bytes } => {
                self.files.watermark = Some(bytes.clone());
            }
            AppendAction::DeleteSegment { base } => {
                self.files.data.remove(base);
                self.files.index.remove(base);
            }
            AppendAction::CutBack { base, len } => {
                self.files.data.get_mut(base).unwrap().truncate(*len as usize);
            }
            _ => {}
        }
        IoEvent::Done
    }

    fn run(&mut self, producer_id: &str, events: &[OtkEvent]) -> AppendOutcome {
        let mut action = self.log.append(producer_id, events, self.now);
        let mut step = 0;
        loop {
            if let AppendAction::Finish(outcome) = action {
                return outcome;
            }
            let event = if self.fail_at == Some(step) {
                IoEvent::Failed
            } else {
                self.perform(&action)
            };
            action = self.log.resume(event, self.now);
            step += 1;
        }
    }

    fn append(&mut self, producer_id: &str, events: &[OtkEvent]) -> Result<Offset, StorageError> {
        match self.run(producer_id, events) {
            AppendOutcome::Appended(offset) => Ok(offset),
            AppendOutcome::Refused(e) => Err(e),
            AppendOutcome::Failed => panic!("nothing can fail here"),
        }
    }

    fn read_range(&self, from: Offset, to: Option<Offset>) -> Result<Vec<LogEntry>, StorageError> {
        let mut entries = Vec::new();
        for slot in self.log.read_range(from, to)? {
            let file = &self.files.data[&slot.base];
            entries.push(read_slot(slot, &file[slot.position as usize..])?);
        }
        Ok(entries)
    }

    fn subscribe(&self, from: Offset) -> Result<SegmentLogSubscription, StorageError> {
        self.log.subscribe(from)?;
        Ok(SegmentLogSubscription::new(from.as_u64()))
    }
}

#[derive(Debug)]
enum Next {
    Entry(LogEntry),
    Wait,
    Failed(StorageError),
    End,
}

fn next(sub: &mut SegmentLogSubscription, files: &Files) -> Next {
    let mut action = sub.next_entry();
    loop {
        let event = match action {
            SubscriptionAction::Deliver(entry) => return Next::Entry(entry),
            SubscriptionAction::Wait => return Next::Wait,
            SubscriptionAction::Fail(e) => return Next::Failed(e),
            SubscriptionAction::FailIo => panic!("nothing can fail here"),
            SubscriptionAction::End => return Next::End,
            SubscriptionAction::Scan => SubscriptionEvent::Names(files.names()),
            SubscriptionAction::ReadWatermark => match &files.watermark {
                Some(w) => SubscriptionEvent::Bytes(w.clone()),
                None => SubscriptionEvent::Missing,
            },
            SubscriptionAction::Open { base } => match files.data.contains_key(&base) {
                true => SubscriptionEvent::Done,
                false => SubscriptionEvent::Missing,
            },
            SubscriptionAction::FindIndex { base } => match files.index.contains_key(&base) {
                true => SubscriptionEvent::Done,
                false => SubscriptionEvent::Missing,
            },
            SubscriptionAction::ReadIndex { base } => match files.index.get(&base) {
                Some(index) => SubscriptionEvent::Bytes(index.clone()),
                None => SubscriptionEvent::Missing,
            },
            SubscriptionAction::Read { base, pos } => {
                let file = &files.data[&base];
                let from = file.len().min(pos as usize);
                SubscriptionEvent::Bytes(file[from..].to_vec())
            }
        };
        action = sub.resume(event);
    }
}

fn next_offset(sub: &mut SegmentLogSubscription, files: &Files) -> u64 {
    match next(sub, files) {
        Next::Entry(entry) => entry.offset.as_u64(),
        other => panic!("expected an entry, got {other:?}"),
    }
}

#[test]
fn append_and_read_single() {
    let mut log = open_log();

    let last = log.append("test-producer", &[make_event()]).unwrap();
    assert_eq!(last, Offset::new(0));

    let entries = log.read_range(Offset::new(0), None).unwrap();
    assert_eq!(entries.len(), 1);
    assert_eq!(entries[0].offset, Offset::new(0));
    assert_eq!(entries[0].producer_id, "test-producer");
}

#[test]
fn producer_id_round_trips_per_batch() {
    let mut log = open_log();

    log.append("loop-1", &[make_event(), make_event()]).unwrap();
    log.append("loop-2", &[make_event()]).unwrap();
    log.append("loop-1", &[make_event()]).unwrap();

    let entries = log.read_range(Offset::new(0), None).unwrap();
    assert_eq!(entries.len(), 4);
    assert_eq!(entries[0].producer_id, "loop-1");
    assert_eq!(entries[1].producer_id, "loop-1");
    assert_eq!(entries[2].producer_id, "loop-2");
    assert_eq!(entries[3].producer_id, "loop-1");
}

#[test]
fn log_append_rejects_empty_producer_id() {
    let mut log = open_log();
    let err = log.append("", &[make_event()]).unwrap_err();
    assert!(
        matches!(err, StorageError::InvalidInput(ref m) if m.message().contains("producer_id")),
        "expected InvalidInput about producer_id, got {err:?}"
    );
}

#[test]
fn producer_id_survives_reopen() {
    let mut log = open_log();
    log.append("p-a", &[make_event()]).unwrap();
    log.append("p-b", &[make_event()]).unwrap();
    let log = log.reopen(SegmentLogConfig::default());
    let entries = log.read_range(Offset::new(0), None).unwrap();
    assert_eq!(entries.len(), 2);
    assert_eq!(entries[0].producer_id, "p-a");
    assert_eq!(entries[1].producer_id, "p-b");
}

#[test]
fn append_multiple_read_range() {
    let mut log = open_log();

    log.append("test-producer", &[make_event(), make_event(), make_event()])
        .unwrap();

    let entries = log
        .read_range(Offset::new(1), Some(Offset::new(3)))
        .unwrap();
    assert_eq!(entries.len(), 2);
    assert_eq!(entries[0].offset, Offset::new(1));
    assert_eq!(entries[1].offset, Offset::new(2));
}

#[test]
fn read_range_empty_log_never_populated() {
    let log = open_log();
    let entries = log.read_range(Offset::new(0), None).unwrap();
    assert!(entries.is_empty());
}

#[test]
fn latest_and_earliest_offset_empty() {
    let log = open_log();
    assert!(log.log.latest_offset().is_none());
    assert!(log.log.earliest_offset().is_none());
}

#[test]
fn latest_and_earliest_after_append() {
    let mut log = open_log();
    log.append("test-producer", &[make_event(), make_event()]).unwrap();
    assert_eq!(log.log.latest_offset(), Some(Offset::new(1)));
    assert_eq!(log.log.earliest_offset(), Some(Offset::new(0)));
}

#[test]
fn read_range_from_beyond_tail() {
    let mut log = open_log();
    log.append("test-producer", &[make_event(), make_event(), make_event()])
        .unwrap();
    let entries = log.read_range(Offset::new(5), None).unwrap();
    assert!(entries.is_empty());
}

#[test]
fn subscribe_live_delivery() {
    let mut log = open_log();
    let mut sub = log.subscribe(Offset::new(0)).unwrap();
    assert!(matches!(next(&mut sub, &log.files), Next::Wait));

    log.append("test-producer", &[make_event()]).unwrap();

    assert_eq!(next_offset(&mut sub, &log.files), 0);
    sub.close();
    assert!(matches!(next(&mut sub, &log.files), Next::End));
}

#[test]
fn subscribe_backfill_then_wait() {
    let mut log = open_log();
    log.append("test-producer", &[make_event(), make_event(), make_event()])
        .unwrap();

    let mut sub = log.subscribe(Offset::new(0)).unwrap();

    // Consume backfill.
    for i in 0u64..3 {
        assert_eq!(next_offset(&mut sub, &log.files), i);
    }
    assert!(matches!(next(&mut sub, &log.files), Next::Wait));

    // A fourth event: the subscription must deliver it rather than hang at the live tail.
    log.append("test-producer", &[make_event()]).unwrap();
    assert_eq!(next_offset(&mut sub, &log.files), 3);

    sub.close();
}

#[test]
fn subscribe_returns_error_if_retention_expired() {
    let mut log = open(SegmentLogConfig {
        max_segment_bytes: 1,
        retention: RetentionPolicy::SizeBased { max_bytes: 0 },
        ..Default::default()
    });

    // Two appends: each rolls immediately and the closed segment is
    // evicted, so offset 0 is no longer available.
    log.append("test-producer", &[make_event()]).unwrap();
    log.append("test-producer", &[make_event()]).unwrap();

    let result = log.subscribe(Offset::new(0));
    assert!(
        matches!(result, Err(StorageError::RetentionExpired { .. })),
        "expected RetentionExpired, got Ok"
    );
}

#[test]
fn segment_roll_on_size() {
    let mut log = open(SegmentLogConfig { max_segment_bytes: 1, ..Default::default() });

    log.append("test-producer", &[make_event()]).unwrap();
    log.append("test-producer", &[make_event()]).unwrap();

    assert!(
        log.log.closed_len() > 0,
        "expected at least one closed segment after size-triggered rolls"
    );
}

#[test]
fn retention_size_based() {
    let mut log = open(SegmentLogConfig {
        max_segment_bytes: 1,
        retention: RetentionPolicy::SizeBased { max_bytes: 0 },
        ..Default::default()
    });

    log.append("test-producer", &[make_event()]).unwrap();
    log.append("test-producer", &[make_event()]).unwrap();
    log.append("test-producer", &[make_event()]).unwrap();

    // With max_bytes=0 every closed segment is deleted immediately after
    // each roll, so nothing survives in the closed list.
    assert_eq!(log.log.next_offset(), 3, "three events were appended");
    assert_eq!(
        log.log.closed_len(),
        0,
        "all closed segments should be evicted with max_bytes=0"
    );
}

#[test]
fn reopen_recovers_state() {
    let mut log = open_log();
    log.append("test-producer", &[make_event(), make_event()]).unwrap();

    let log2 = log.reopen(SegmentLogConfig::default());
    let entries = log2.read_range(Offset::new(0), None).unwrap();
    assert_eq!(entries.len(), 2);
    assert_eq!(entries[0].offset, Offset::new(0));
    assert_eq!(entries[1].offset, Offset::new(1));
}

#[test]
fn reopen_recovers_torn_write() {
    let mut log = open_log();
    log.append("test-producer", &[make_event(), make_event()]).unwrap();

    // Read the first record's payload_len so we can compute exactly where
    // the second record starts, then tear it 5 bytes in.
    let file = log.files.data.get_mut(&0).unwrap();
    let start = HEADER_LEN as usize;
    let payload_len =
        u32::from_le_bytes([file[start], file[start + 1], file[start + 2], file[start + 3]]);
    let second_record_start = start + 4 + payload_len as usize + 4;
    let torn_pos = second_record_start + 5;
    file.truncate(torn_pos);

    let log2 = log.reopen(SegmentLogConfig::default());
    let entries = log2.read_range(Offset::new(0), None).unwrap();
    assert_eq!(entries.len(), 1, "torn second record must be discarded");
    assert_eq!(entries[0].offset, Offset::new(0));
    assert_eq!(log2.files.data[&0].len(), second_record_start);
}

#[test]
fn append_empty_slice_returns_invalid_input() {
    let mut log = open_log();
    let result = log.append("test-producer", &[]);
    assert!(matches!(result, Err(StorageError::InvalidInput(_))));
}

#[test]
fn retention_time_based() {
    let mut log = open(SegmentLogConfig {
        max_segment_bytes: 1,
        retention: RetentionPolicy::TimeBased { max_age_secs: 0 },
        ..Default::default()
    });

    log.append("test-producer", &[make_event()]).unwrap();
    // The first segment's timestamp falls strictly before the cutoff.
    log.now += 50_000_000;
    log.append("test-producer", &[make_event()]).unwrap();

    assert_eq!(log.log.next_offset(), 2, "two events were appended");
    let result = log.read_range(Offset::new(0), None);
    assert!(
        matches!(result, Err(StorageError::RetentionExpired { .. })),
        "expected RetentionExpired for evicted offset 0"
    );
}

#[test]
fn retention_hybrid() {
    // max_bytes: u64::MAX disables size-based eviction so only the age
    // branch of the hybrid policy runs.
    let mut log = open(SegmentLogConfig {
        max_segment_bytes: 1,
        retention: RetentionPolicy::Hybrid {
            max_age_secs: 0,
            max_bytes: u64::MAX,
        },
        ..Default::default()
    });

    log.append("test-producer", &[make_event()]).unwrap();
    log.now += 50_000_000;
    log.append("test-producer", &[make_event()]).unwrap();

    assert_eq!(log.log.next_offset(), 2);
    let result = log.read_range(Offset::new(0), None);
    assert!(matches!(result, Err(StorageError::RetentionExpired { .. })));
}

#[test]
fn retention_hybrid_size_based() {
    // max_age_secs: u64::MAX disables age-based eviction; only the size
    // branch of the hybrid policy runs.
    let mut log = open(SegmentLogConfig {
        max_segment_bytes: 1,
        retention: RetentionPolicy::Hybrid {
            max_age_secs: u64::MAX,
            max_bytes: 1,
        },
        ..Default::default()
    });

    log.append("test-producer", &[make_event()]).unwrap();
    log.append("test-producer", &[make_event()]).unwrap();

    // With max_bytes=1 every closed segment exceeds the limit immediately.
    assert_eq!(log.log.next_offset(), 2);
    let result = log.read_range(Offset::new(0), None);
    assert!(matches!(result, Err(StorageError::RetentionExpired { .. })));
}

#[test]
fn read_range_across_rolled_segments() {
    let mut log = open(SegmentLogConfig { max_segment_bytes: 1, ..Default::default() });

    log.append("test-producer", &[make_event()]).unwrap();
    log.append("test-producer", &[make_event()]).unwrap();
    log.append("test-producer", &[make_event()]).unwrap();

    let entries = log.read_range(Offset::new(0), None).unwrap();
    assert_eq!(entries.len(), 3, "all three events should be readable");
    assert_eq!(entries[0].offset, Offset::new(0));
    assert_eq!(entries[1].offset, Offset::new(1));
    assert_eq!(entries[2].offset, Offset::new(2));
}

#[test]
fn reopen_reads_closed_segment_via_index() {
    let mut log = open(SegmentLogConfig { max_segment_bytes: 1, ..Default::default() });
    // Each append forces a roll, so both events end up in closed segments.
    log.append("test-producer", &[make_event()]).unwrap();
    log.append("test-producer", &[make_event()]).unwrap();
    assert!(
        log.log.closed_len() > 0,
        "should have at least one closed segment"
    );

    let log2 = log.reopen(SegmentLogConfig { max_segment_bytes: 1, ..Default::default() });
    let entries = log2.read_range(Offset::new(0), None).unwrap();
    assert_eq!(entries.len(), 2, "both events should survive reopen");
    assert_eq!(entries[0].offset, Offset::new(0));
    assert_eq!(entries[1].offset, Offset::new(1));
}

fn evicting_config() -> SegmentLogConfig {
    SegmentLogConfig {
        max_segment_bytes: 1,
        retention: RetentionPolicy::SizeBased { max_bytes: 0 },
        ..Default::default()
    }
}

#[test]
fn fully_evicted_log_watermark_survives_reopen() {
    let mut log = open(evicting_config());

    log.append("test-producer", &[make_event()]).unwrap();
    log.append("test-producer", &[make_event()]).unwrap();

    assert_eq!(log.log.closed_len(), 0, "all segments should be evicted");
    assert_eq!(log.log.next_offset(), 2);

    // No segment files are left. The watermark must tell that next_offset is 2,
    // so read_range returns RetentionExpired, not Ok([]).
    let log2 = log.reopen(evicting_config());

    assert_eq!(log2.log.next_offset(), 2, "watermark must survive reopen");
    let result = log2.read_range(Offset::new(0), None);
    assert!(
        matches!(result, Err(StorageError::RetentionExpired { .. })),
        "expected RetentionExpired after reopen of fully-evicted log, got: {result:?}"
    );
}

#[test]
fn segment_roll_on_age() {
    // max_segment_age_secs=0 means that every append triggers a roll.
    let mut log = open(SegmentLogConfig { max_segment_age_secs: 0, ..Default::default() });

    log.append("test-producer", &[make_event()]).unwrap();
    assert!(
        log.log.closed_len() > 0,
        "segment should roll after first append with age=0"
    );

    log.append("test-producer", &[make_event()]).unwrap();
    assert_eq!(
        log.log.closed_len(),
        2,
        "second append should roll into a second closed segment"
    );

    let entries = log.read_range(Offset::new(0), None).unwrap();
    assert_eq!(
        entries.len(),
        2,
        "both events readable after age-based rolls"
    );
    assert_eq!(entries[0].offset, Offset::new(0));
    assert_eq!(entries[1].offset, Offset::new(1));
}

#[test]
fn subscribe_ahead_of_tail_skips_to_requested_offset() {
    let mut log = open_log();

    // Subscribe at offset 3 before any events exist.
    let mut sub = log.subscribe(Offset::new(3)).unwrap();
    assert!(matches!(next(&mut sub, &log.files), Next::Wait));

    // Offsets 0-3 in one batch; the subscription should skip 0-2 and deliver only offset 3.
    log.append(
        "test-producer",
        &[make_event(), make_event(), make_event(), make_event()],
    )
    .unwrap();

    assert_eq!(
        next_offset(&mut sub, &log.files),
        3,
        "subscription must skip intermediate offsets and deliver the requested one"
    );

    sub.close();
}

#[test]
fn subscribe_across_rolled_segment() {
    let mut log = open(SegmentLogConfig { max_segment_bytes: 1, ..Default::default() });

    // Append two events, each in its own rolled segment.
    log.append("test-producer", &[make_event()]).unwrap();
    log.append("test-producer", &[make_event()]).unwrap();

    let mut sub = log.subscribe(Offset::new(0)).unwrap();

    // Both events should be delivered in order, crossing the segment boundary.
    for i in 0u64..2 {
        assert_eq!(next_offset(&mut sub, &log.files), i, "offset mismatch at i={i}");
    }

    sub.close();
}

#[test]
fn subscription_waits_in_the_middle_of_the_tail() {
    let mut log = open_log();
    log.append("p", &[make_event()]).unwrap();
    // Ahead of the tail of a segment that has records.
    let mut sub = log.subscribe(Offset::new(2)).unwrap();
    assert!(matches!(next(&mut sub, &log.files), Next::Wait));
    log.append("p", &[make_event()]).unwrap();
    assert!(matches!(next(&mut sub, &log.files), Next::Wait));
    log.append("p", &[make_event()]).unwrap();
    assert_eq!(next_offset(&mut sub, &log.files), 2);
}

#[test]
fn subscription_follows_a_roll() {
    let mut log = open(SegmentLogConfig { max_segment_bytes: 200, ..Default::default() });
    let mut sub = log.subscribe(Offset::new(0)).unwrap();
    for i in 0..12 {
        log.append("p", &[make_event()]).unwrap();
        assert_eq!(next_offset(&mut sub, &log.files), i);
        assert!(matches!(next(&mut sub, &log.files), Next::Wait));
    }
    assert!(log.log.closed_len() > 1);
}

#[test]
fn subscription_notices_eviction() {
    let mut log = open(SegmentLogConfig {
        max_segment_bytes: 1,
        retention: RetentionPolicy::TimeBased { max_age_secs: 1 },
        ..Default::default()
    });
    log.append("p", &[make_event()]).unwrap();
    let mut sub = log.subscribe(Offset::new(0)).unwrap();
    log.now += 2_000_000_000;
    log.append("p", &[make_event()]).unwrap();
    match next(&mut sub, &log.files) {
        Next::Failed(StorageError::RetentionExpired { requested, earliest_available }) => {
            assert_eq!(requested, Offset::new(0));
            assert_eq!(earliest_available, Some(Offset::new(1)));
        }
        other => panic!("expected RetentionExpired, got {other:?}"),
    }
    assert!(matches!(next(&mut sub, &log.files), Next::End));
}

#[test]
fn subscription_notices_that_everything_was_evicted() {
    let mut log = open(evicting_config());
    log.append("p", &[make_event()]).unwrap();
    let mut sub = SegmentLogSubscription::new(0);
    match next(&mut sub, &log.files) {
        Next::Failed(StorageError::RetentionExpired { earliest_available, .. }) => {
            assert_eq!(earliest_available, None);
        }
        other => panic!("expected RetentionExpired, got {other:?}"),
    }
    // From the watermark on there is nothing yet.
    let mut later = SegmentLogSubscription::new(1);
    assert!(matches!(next(&mut later, &log.files), Next::Wait));
}

#[test]
fn subscription_refuses_damaged_segments() {
    let mut log = open(SegmentLogConfig { max_segment_bytes: 1, ..Default::default() });
    log.append("p", &[make_event()]).unwrap();
    let mut files = log.files.clone();
    let file = files.data.get_mut(&0).unwrap();
    let len = file.len();
    file.truncate(len - 10);
    let mut sub = SegmentLogSubscription::new(0);
    assert!(matches!(
        next(&mut sub, &files),
        Next::Failed(StorageError::Corrupted(Corruption::ClosedSegmentEnds { position: 24 }))
    ));

    // An index that points to another record.
    let mut log = open(SegmentLogConfig { max_segment_bytes: 1, ..Default::default() });
    log.append("p", &[make_event(), make_event()]).unwrap();
    let mut files = log.files.clone();
    files.index.insert(0, write_index(&[24, 24]));
    let mut sub = SegmentLogSubscription::new(1);
    assert!(matches!(
        next(&mut sub, &files),
        Next::Failed(StorageError::Corrupted(Corruption::SubscriptionOffset { expected: 1, found: 0 }))
    ));
    let mut sub = SegmentLogSubscription::new(1);
    files.index.insert(0, vec![1, 2, 3]);
    assert!(matches!(
        next(&mut sub, &files),
        Next::Failed(StorageError::Corrupted(Corruption::IndexLength(3)))
    ));
}

#[test]
fn subscription_gives_up_when_files_cannot_be_read() {
    let mut sub = SegmentLogSubscription::new(0);
    assert!(matches!(sub.next_entry(), SubscriptionAction::Scan));
    assert!(matches!(sub.resume(SubscriptionEvent::Failed), SubscriptionAction::FailIo));
    assert!(matches!(sub.next_entry(), SubscriptionAction::End));
}

#[test]
fn subscription_looks_again_when_a_segment_disappears() {
    let names = vec![segment_file_name(0)];
    let mut sub = SegmentLogSubscription::new(0);
    assert!(matches!(sub.next_entry(), SubscriptionAction::Scan));
    assert!(matches!(
        sub.resume(SubscriptionEvent::Names(names)),
        SubscriptionAction::Open { base: 0 }
    ));
    assert!(matches!(sub.resume(SubscriptionEvent::Missing), SubscriptionAction::Scan));
    match sub.resume(SubscriptionEvent::Names(vec![segment_file_name(4)])) {
        SubscriptionAction::Fail(StorageError::RetentionExpired { earliest_available, .. }) => {
            assert_eq!(earliest_available, Some(Offset::new(4)));
        }
        other => panic!("expected RetentionExpired, got {other:?}"),
    }
}

#[test]
fn failed_writes_leave_the_log_as_it_was() {
    // The actions of an append that rolls and evicts nothing.
    for step in 0..10 {
        let mut log = open(SegmentLogConfig { max_segment_bytes: 1, ..Default::default() });
        log.append("p", &[make_event()]).unwrap();
        let before = log.read_range(Offset::new(0), None).unwrap().len();
        log.fail_at = Some(step);
        let outcome = log.run("p", &[make_event()]);
        let after = log.read_range(Offset::new(0), None).unwrap().len();
        match step {
            // Begin, Write: nothing was appended.
            0 | 1 => {
                assert_eq!(outcome, AppendOutcome::Failed);
                assert_eq!(after, before);
            }
            // Locate: nothing more is taken in until the log is opened again.
            2 => {
                assert_eq!(outcome, AppendOutcome::Failed);
                assert_eq!(after, before);
                log.fail_at = None;
                assert_eq!(
                    log.append("p", &[make_event()]),
                    Err(StorageError::Corrupted(Corruption::Poisoned))
                );
                let again = log.reopen(SegmentLogConfig::default());
                assert_eq!(again.read_range(Offset::new(0), None).unwrap().len(), before + 1);
                continue;
            }
            // Wake and Measure cannot spoil anything.
            3 | 8 => {
                assert_eq!(outcome, AppendOutcome::Appended(Offset::new(1)));
                assert_eq!(after, before + 1);
            }
            // The roll failed, but the event is there.
            _ => {
                assert_eq!(outcome, AppendOutcome::Failed);
                assert_eq!(after, before + 1);
            }
        }
        // Whatever failed, the log goes on, and nothing is lost when it is opened again.
        log.fail_at = None;
        let last = log.append("p", &[make_event()]).unwrap();
        let entries = log.read_range(Offset::new(0), None).unwrap();
        assert_eq!(entries.len() as u64, last.as_u64() + 1);
        let again = log.reopen(SegmentLogConfig::default());
        assert_eq!(again.log.next_offset(), last.as_u64() + 1);
        assert_eq!(
            format!("{:?}", again.read_range(Offset::new(0), None).unwrap()),
            format!("{entries:?}")
        );
    }
}

#[test]
fn refused_batches_are_refused_as_a_whole() {
    let mut log = open_log();
    log.append("p", &[make_event()]).unwrap();
    let mut huge = make_event();
    if let OtkEvent::Detection(d) = &mut huge {
        d.detection_id = DetectionId::new(&"d".repeat(MAX_EVENT_CBOR));
    }
    let result = log.append("p", &[make_event(), huge, make_event()]);
    assert!(matches!(
        result,
        Err(StorageError::InvalidInput(Misuse::EventTooLarge(_)))
    ));
    assert_eq!(log.read_range(Offset::new(0), None).unwrap().len(), 1);
    assert_eq!(log.log.next_offset(), 1);
}

#[test]
fn retention_keeps_just_enough() {
    let mut log = open(SegmentLogConfig { max_segment_bytes: 1, ..Default::default() });
    log.append("p", &[make_event()]).unwrap();
    let size = log.files.data[&0].len() as u64;

    let mut log = open(SegmentLogConfig {
        max_segment_bytes: 1,
        retention: RetentionPolicy::SizeBased { max_bytes: 3 * size },
        ..Default::default()
    });
    for _ in 0..10 {
        log.append("p", &[make_event()]).unwrap();
    }
    assert_eq!(log.log.closed_len(), 3);
    assert_eq!(log.log.earliest_offset(), Some(Offset::new(7)));
    assert_eq!(log.log.latest_offset(), Some(Offset::new(9)));
    assert_eq!(log.files.data.len(), 3);
    let entries = log.read_range(Offset::new(7), None).unwrap();
    assert_eq!(entries.len(), 3);
    // A range that begins with what is gone is refused, even if it is empty.
    for to in [Offset::new(0), Offset::new(2), Offset::new(9)] {
        assert!(matches!(
            log.read_range(Offset::new(2), Some(to)),
            Err(StorageError::RetentionExpired { requested, earliest_available })
                if requested == Offset::new(2) && earliest_available == Some(Offset::new(7))
        ));
    }
    assert!(log.read_range(Offset::new(7), Some(Offset::new(7))).unwrap().is_empty());
    assert!(log.read_range(Offset::new(8), Some(Offset::new(3))).unwrap().is_empty());
    assert!(log.read_range(Offset::new(10), Some(Offset::new(10))).unwrap().is_empty());
}

#[test]
fn fully_evicted_log_has_no_offsets() {
    let mut log = open(evicting_config());
    log.append("p", &[make_event()]).unwrap();
    log.append("p", &[make_event()]).unwrap();
    assert!(log.log.is_fully_evicted());
    assert_eq!(log.log.earliest_offset(), None);
    assert_eq!(log.log.latest_offset(), None);
    assert!(matches!(
        log.read_range(Offset::new(1), Some(Offset::new(1))),
        Err(StorageError::RetentionExpired { .. })
    ));
    assert!(log.read_range(Offset::new(2), None).unwrap().is_empty());
    assert!(log.read_range(Offset::new(2), Some(Offset::new(2))).unwrap().is_empty());
    assert!(log.subscribe(Offset::new(2)).is_ok());
}

#[test]
fn offsets_go_on_after_reopening() {
    let mut log = open(SegmentLogConfig { max_segment_bytes: 300, ..Default::default() });
    for i in 0..20 {
        assert_eq!(log.append("p", &[make_event()]).unwrap(), Offset::new(i));
        log = log.reopen(SegmentLogConfig { max_segment_bytes: 300, ..Default::default() });
    }
    let entries = log.read_range(Offset::new(0), None).unwrap();
    let offsets: Vec<u64> = entries.iter().map(|e| e.offset.as_u64()).collect();
    assert_eq!(offsets, (0..20).collect::<Vec<u64>>());
}

#[test]
fn interrupted_roll_is_undone_on_opening() {
    let mut log = open_log();
    log.append("p", &[make_event()]).unwrap();
    let len = log.files.data[&0].len();
    // The end mark is there, the index is not.
    log.files.data.get_mut(&0).unwrap().extend(write_end_mark());
    let mut again = log.reopen(SegmentLogConfig::default());
    assert_eq!(again.files.data[&0].len(), len);
    assert_eq!(again.append("p", &[make_event()]).unwrap(), Offset::new(1));
}

#[test]
fn orphans_are_cleared_away_on_opening() {
    let mut log = open_log();
    log.append("p", &[make_event()]).unwrap();
    let mut files = log.files.clone();
    // A segment that was begun and never written to, before the one in use.
    let used = files.data.remove(&0).unwrap();
    files.data.insert(0, SegmentHeader { base_offset: 0, created_at_ns: 1 }.write());
    let mut moved = SegmentHeader { base_offset: 5, created_at_ns: 1 }.write();
    moved.extend(write_record(&make_entry(5)).unwrap());
    files.data.insert(5, moved);
    let opened = try_open(SegmentLogConfig::default(), files, 9).unwrap();
    assert!(!opened.files.data.contains_key(&0));
    assert_eq!(opened.log.next_offset(), 6);

    // But not if it holds records.
    let mut files = log.files.clone();
    files.data.insert(0, used);
    files.data.insert(5, SegmentHeader { base_offset: 5, created_at_ns: 1 }.write());
    assert!(matches!(
        try_open(SegmentLogConfig::default(), files, 9).map(|_| ()),
        Err(StorageError::Corrupted(Corruption::UnindexedSegment { base: 0, records: 1 }))
    ));
}

#[test]
fn short_segment_gets_a_fresh_header_on_opening() {
    let mut files = Files::default();
    files.data.insert(3, vec![1, 2, 3]);
    let opened = try_open(SegmentLogConfig::default(), files, 77).unwrap();
    assert_eq!(
        opened.files.data[&3],
        SegmentHeader { base_offset: 3, created_at_ns: 77 }.write()
    );
    assert_eq!(opened.log.next_offset(), 3);
}

#[test]
fn damaged_logs_are_refused_on_opening() {
    let mut log = open(SegmentLogConfig { max_segment_bytes: 1, ..Default::default() });
    log.append("p", &[make_event()]).unwrap();
    log.append("p", &[make_event()]).unwrap();
    let good = log.files.clone();

    // A file under another name.
    let mut files = good.clone();
    let data = files.data.remove(&1).unwrap();
    let index = files.index.remove(&1).unwrap();
    files.data.insert(8, data);
    files.index.insert(8, index);
    assert!(matches!(
        try_open(SegmentLogConfig::default(), files, 9).map(|_| ()),
        Err(StorageError::Corrupted(Corruption::HeaderBase { closed: true, base: 8, found: 1 }))
    ));

    // An index that promises too much.
    let mut files = good.clone();
    files.index.insert(1, write_index(&[24, 24]));
    assert!(matches!(
        try_open(SegmentLogConfig::default(), files, 9).map(|_| ()),
        Err(StorageError::Corrupted(Corruption::LastOffset { base: 1, expected: 2, found: 1 }))
    ));

    // An index that is cut short.
    let mut files = good.clone();
    files.index.insert(1, vec![0; 5]);
    assert!(matches!(
        try_open(SegmentLogConfig::default(), files, 9).map(|_| ()),
        Err(StorageError::Corrupted(Corruption::IndexLength(5)))
    ));
}

#[test]
fn slots_with_the_wrong_record_are_refused() {
    let mut log = open_log();
    log.append("p", &[make_event(), make_event()]).unwrap();
    let slots = log.log.read_range(Offset::new(1), None).unwrap();
    assert_eq!(slots.len(), 1);
    // The bytes of the other record.
    let file = &log.files.data[&0];
    assert!(matches!(
        read_slot(slots[0], &file[24..]),
        Err(StorageError::Corrupted(Corruption::WrongRecord { position, expected: 1, found: 0 }))
            if position == slots[0].position
    ));
}

#[test]
fn config_has_its_defaults() {
    let config = SegmentLogConfig::default();
    assert_eq!(config.dir, "otk-log");
    assert_eq!(config.max_segment_bytes, 64 * 1024 * 1024);
    assert_eq!(config.max_segment_age_secs, 3600);
    assert_eq!(config.flush_interval_ms, 0);
    assert_eq!(config.retention, RetentionPolicy::Indefinite);
}

#[test]
fn batches_are_synced_unless_told_otherwise() {
    for (interval, expected) in [(0, true), (5, false)] {
        let mut log = open(SegmentLogConfig { flush_interval_ms: interval, ..Default::default() });
        let action = log.log.append("p", &[make_event()], 1);
        let event = log.perform(&action);
        match log.log.resume(event, 1) {
            AppendAction::Write { sync, pos, .. } => {
                assert_eq!(sync, expected);
                assert_eq!(pos, HEADER_LEN);
            }
            other => panic!("expected Write, got {other:?}"),
        }
    }
}

#[test]
fn corruptions_have_their_sentences() {
    for (corruption, at, sentence) in [
        (Corruption::BadMagic(88, 84, 75, 83), None, "bad magic: [88, 84, 75, 83]"),
        (Corruption::UnknownVersion(9), None, "unknown segment version 9"),
        (Corruption::PayloadTooSmall(7), Some(24), "payload_len 7 too small at pos 24 (minimum 20)"),
        (Corruption::PayloadTooSmall(7), None, "payload_len 7 too small (minimum 20)"),
        (
            Corruption::EventTooLarge(4_194_305),
            Some(24),
            "event CBOR length 4194305 at pos 24 exceeds maximum 4194304",
        ),
        (
            Corruption::LengthMismatch { implied: 10, stored: 12 },
            Some(24),
            "event_len mismatch at pos 24: payload_len implies at most 10, stored 12",
        ),
        (
            Corruption::CrcMismatch { computed: 0x1234, stored: 0xdead_beef },
            Some(0),
            "CRC mismatch at pos 0: expected 0x00001234, got 0xdeadbeef",
        ),
        (
            Corruption::Event(DecodeFault::UnknownVariant(-7, 1)),
            Some(24),
            "CBOR decode at pos 24: unknown enum variant -7 at position 1",
        ),
        (
            Corruption::Event(DecodeFault::UnknownVariant(i64::MIN, 1)),
            None,
            "CBOR decode: unknown enum variant -9223372036854775808 at position 1",
        ),
        (
            Corruption::Event(DecodeFault::MissingValue(3)),
            None,
            "CBOR decode: missing value at index 3",
        ),
        (Corruption::IndexTooLarge(268_435_457), None, "index file is 268435457 bytes, exceeding the 268435456-byte limit"),
        (Corruption::IndexLength(9), None, "index file has length 9 which is not a multiple of 8"),
        (
            Corruption::OffsetOverflow { base: 5 },
            None,
            "segment 00000000000000000005: base + record count overflows u64",
        ),
        (
            Corruption::HeaderBase { closed: true, base: 8, found: 1 },
            None,
            "closed segment 00000000000000000008: header base_offset 1 does not match filename",
        ),
        (
            Corruption::HeaderBase { closed: false, base: 8, found: 1 },
            None,
            "active segment 00000000000000000008: header base_offset 1 does not match filename",
        ),
        (
            Corruption::LastOffset { base: 1, expected: 2, found: 1 },
            None,
            "closed segment 00000000000000000001: index claims last offset 2 but record contains 1",
        ),
        (
            Corruption::UnindexedSegment { base: 3, records: 4 },
            None,
            "segment 00000000000000000003 has no index but is not the highest unindexed segment; 4 record(s) would be lost",
        ),
        (
            Corruption::WrongRecord { position: 24, expected: 1, found: 0 },
            None,
            "index points to wrong record at position 24: expected offset 1, got 0",
        ),
        (
            Corruption::SubscriptionOffset { expected: 6, found: 5 },
            None,
            "subscription offset mismatch: expected 6, got 5",
        ),
        (
            Corruption::ClosedSegmentEnds { position: 99 },
            None,
            "unexpected EOF on closed segment at byte position 99",
        ),
        (
            Corruption::Poisoned,
            None,
            "log is poisoned: position query failed after a durable write; reopen the log to recover",
        ),
    ] {
        assert_eq!(corruption.message(at), sentence);
    }
}

#[test]
fn misuses_have_their_sentences() {
    assert_eq!(Misuse::NoEvents.message(), "events slice must not be empty");
    assert_eq!(
        Misuse::EventTooLarge(5_000_000).message(),
        "event CBOR (5000000 bytes) exceeds maximum record size (4194304 bytes)"
    );
    assert_eq!(Misuse::OffsetsExhausted.message(), "offset space exhausted");
    assert_eq!(Misuse::ProducerIdTooLong.message(), "producer_id is too long");
}

#[test]
fn torn_appends_keep_whole_records() {
    let mut log = open_log();
    log.append("p", &[make_event()]).unwrap();
    let before = log.files.data[&0].len();
    log.append("p", &[make_event(), make_event(), make_event()]).unwrap();
    let after = log.files.data[&0].len();
    let record = (after - before) / 3;
    for len in before..=after {
        let mut files = log.files.clone();
        files.data.get_mut(&0).unwrap().truncate(len);
        let mut opened = try_open(SegmentLogConfig::default(), files, 9).unwrap();
        let whole = (len - before) / record;
        assert_eq!(opened.files.data[&0].len(), before + whole * record);
        let entries = opened.read_range(Offset::new(0), None).unwrap();
        assert_eq!(entries.len(), 1 + whole);
        assert_eq!(opened.append("q", &[make_event()]).unwrap(), Offset::new(1 + whole as u64));
    }
}

#[test]
fn segments_behave_as_the_log_in_memory() {
    let mut log = open(SegmentLogConfig { max_segment_bytes: 1, ..Default::default() });
    log.append("p", &[make_event()]).unwrap();
    let size = log.files.data[&0].len() as u64;
    let mut log = open(SegmentLogConfig {
        max_segment_bytes: 1,
        retention: RetentionPolicy::SizeBased { max_bytes: 2 * size },
        ..Default::default()
    });
    let mut memory = MemLog::new();
    let mut answers = 0;
    for round in 0..4u64 {
        for from in 0..7 {
            for to in [None, Some(0), Some(2), Some(3), Some(9)] {
                let (from, to) = (Offset::new(from), to.map(Offset::new));
                match (log.read_range(from, to), memory.read_range(from, to)) {
                    (Ok(a), Ok(b)) => {
                        let offsets = |entries: Vec<LogEntry>| -> Vec<Offset> {
                            entries.iter().map(|e| e.offset).collect()
                        };
                        assert_eq!(offsets(a), offsets(b));
                        answers += 1;
                    }
                    (Err(a), Err(b)) => assert_eq!(a, b),
                    (a, b) => panic!("{a:?} and {b:?}"),
                }
            }
            assert_eq!(
                log.subscribe(Offset::new(from)).is_ok(),
                memory.subscribe(Offset::new(from)).is_ok()
            );
        }
        assert_eq!(log.log.earliest_offset(), memory.earliest_offset());
        assert_eq!(log.log.latest_offset(), memory.latest_offset());
        let offset = log.append("p", &[make_event()]).unwrap();
        assert_eq!(memory.append("p", &[make_event()], round).unwrap(), offset);
        if let Some(first) = log.log.earliest_offset() {
            memory.evict_below(first);
        }
    }
    assert!(answers > 100);
}

#[test]
fn subscription_delivers_every_offset_once_until_it_ends() {
    let mut log = open(SegmentLogConfig { max_segment_bytes: 200, ..Default::default() });
    let mut sub = log.subscribe(Offset::new(3)).unwrap();
    let mut seen = Vec::new();
    for _ in 0..12 {
        log.append("p", &[make_event()]).unwrap();
        // A call that was given up in the middle changes nothing.
        let _ = sub.next_entry();
        while let Next::Entry(entry) = next(&mut sub, &log.files) {
            seen.push(entry.offset.as_u64());
        }
    }
    assert!(log.log.closed_len() > 1);
    assert_eq!(seen, (3..12).collect::<Vec<u64>>());
    sub.close();
    log.append("p", &[make_event()]).unwrap();
    for _ in 0..3 {
        assert!(matches!(next(&mut sub, &log.files), Next::End));
    }
}
