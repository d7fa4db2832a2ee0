use otk::log::entry::{LogEntry, Offset};
use otk::log::error::{Misuse, StorageError};
use otk::log::mem::{MemLog, MemNext, MemSubscription};
use otk::model::detection::{Detection, SensorData};
use otk::model::event::OtkEvent;
use otk::model::ids::{DetectionId, DetectorId, TimebaseId, TimingPointId};
use otk::model::timestamp::{SourceAttestation, TimestampingMethod};

const NOW: u64 = 1_700_000_000_000_000_000;

fn det(seq: u64) -> OtkEvent {
    OtkEvent::Detection(Detection {
        detection_id: DetectionId::new(&format!("det-{seq}")),
        detector_id: DetectorId::new("loop-1"),
        timing_point_id: TimingPointId::new("tp-start"),
        subject_id: None,
        detected_at_ns: 1_700_000_000_000_000_000 + seq * 1_000_000_000,
        detected_at_uncertainty_ns: None,
        received_at_ns: None,
        timestamping_method: TimestampingMethod::HardwareEventCapture,
        timebase_id: TimebaseId::new("gps-1"),
        source_attestation: SourceAttestation::RuntimeDiscovered,
        sequence_number: seq,
        sensor: SensorData::BeamBreak,
    })
}

fn next(sub: &mut MemSubscription, log: &MemLog) -> LogEntry {
    match sub.next_entry(log) {
        MemNext::Entry(entry) => entry,
        other => panic!("expected an entry, got {other:?}"),
    }
}

#[test]
fn append_single_returns_offset_zero() {
    let mut log = MemLog::new();
    let offset = log.append("test-producer", &[det(0)], NOW).expect("append");
    assert_eq!(offset, Offset::new(0));
}

#[test]
fn append_batch_returns_last_offset() {
    let mut log = MemLog::new();
    let offset = log
        .append("test-producer", &[det(0), det(1), det(2)], NOW)
        .expect("append");
    assert_eq!(offset, Offset::new(2));
}

#[test]
fn append_empty_rejected_as_invalid_input() {
    let mut log = MemLog::new();
    let err = log
        .append("test-producer", &[], NOW)
        .expect_err("empty append must error");
    assert!(matches!(err, StorageError::InvalidInput(_)));
}

#[test]
fn read_range_returns_entries_in_order() {
    let mut log = MemLog::new();
    log.append("test-producer", &[det(0), det(1), det(2)], NOW)
        .unwrap();
    let entries = log
        .read_range(Offset::new(0), Some(Offset::new(3)))
        .unwrap();
    assert_eq!(entries.len(), 3);
    for (i, e) in entries.iter().enumerate() {
        assert_eq!(e.offset.as_u64(), i as u64);
        assert_eq!(
            e.producer_id, "test-producer",
            "producer_id must be carried through to read_range"
        );
    }
}

#[test]
fn event_log_contract_append_rejects_empty_producer_id() {
    let mut log = MemLog::new();
    let err = log
        .append("", &[det(0)], NOW)
        .expect_err("empty producer_id must error");
    assert!(matches!(err, StorageError::InvalidInput(_)));
}

#[test]
fn latest_and_earliest_offsets_reflect_state() {
    let mut log = MemLog::new();
    assert!(log.latest_offset().is_none());
    assert!(log.earliest_offset().is_none());
    log.append("test-producer", &[det(0), det(1)], NOW).unwrap();
    assert_eq!(log.latest_offset(), Some(Offset::new(1)));
    assert_eq!(log.earliest_offset(), Some(Offset::new(0)));
}

#[test]
fn subscribe_delivers_backfill_and_live() {
    let mut log = MemLog::new();
    log.append("test-producer", &[det(0)], NOW).unwrap();
    let mut sub = log.subscribe(Offset::new(0)).unwrap();

    // Backfill: the first entry is already there.
    let first = next(&mut sub, &log);
    assert_eq!(first.offset, Offset::new(0));
    assert!(matches!(sub.next_entry(&log), MemNext::Wait));

    // Live: what is appended after subscribing must surface.
    log.append("test-producer", &[det(1)], NOW).unwrap();
    let second = next(&mut sub, &log);
    assert_eq!(second.offset, Offset::new(1));

    sub.close();
    assert!(matches!(sub.next_entry(&log), MemNext::End));
}

#[test]
fn distinct_producer_ids_are_preserved_per_batch() {
    let mut log = MemLog::new();
    log.append("alpha", &[det(0)], NOW).unwrap();
    log.append("beta", &[det(1), det(2)], NOW).unwrap();
    log.append("alpha", &[det(3)], NOW).unwrap();

    let entries = log.read_range(Offset::new(0), None).unwrap();
    assert_eq!(entries.len(), 4);
    assert_eq!(entries[0].producer_id, "alpha", "offset 0 was alpha's");
    assert_eq!(
        entries[1].producer_id, "beta",
        "offset 1 was beta's first event"
    );
    assert_eq!(
        entries[2].producer_id, "beta",
        "offset 2 was beta's second event in the same batch"
    );
    assert_eq!(
        entries[3].producer_id, "alpha",
        "offset 3 was alpha's second batch"
    );
}

#[test]
fn subscribe_carries_producer_id_in_backfill_and_live() {
    let mut log = MemLog::new();
    log.append("alpha", &[det(0)], NOW).unwrap();

    let mut sub = log.subscribe(Offset::new(0)).unwrap();

    let backfilled = next(&mut sub, &log);
    assert_eq!(backfilled.offset, Offset::new(0));
    assert_eq!(
        backfilled.producer_id, "alpha",
        "backfill must carry producer_id"
    );

    log.append("beta", &[det(1)], NOW).unwrap();
    let live = next(&mut sub, &log);
    assert_eq!(live.offset, Offset::new(1));
    assert_eq!(
        live.producer_id, "beta",
        "live delivery must carry producer_id"
    );

    sub.close();
}

fn populated_log(n: u64) -> MemLog {
    let mut log = MemLog::new();
    for i in 0..n {
        log.append("test-producer", &[det(i)], NOW).unwrap();
    }
    log
}

#[test]
fn read_range_below_earliest_returns_retention_expired() {
    let mut log = populated_log(10);
    log.evict_below(Offset::new(5));

    let err = log
        .read_range(Offset::new(2), None)
        .expect_err("must error");
    match err {
        StorageError::RetentionExpired { requested, earliest_available } => {
            assert_eq!(requested, Offset::new(2));
            assert_eq!(earliest_available, Some(Offset::new(5)));
        }
        other => panic!("expected RetentionExpired, got {other:?}"),
    }
}

#[test]
fn read_range_above_earliest_succeeds_after_eviction() {
    let mut log = populated_log(10);
    log.evict_below(Offset::new(5));
    let entries = log
        .read_range(Offset::new(5), Some(Offset::new(8)))
        .expect("ok");
    assert_eq!(entries.len(), 3);
    assert_eq!(entries[0].offset, Offset::new(5));
}

#[test]
fn fully_evicted_log_reports_earliest_available_none() {
    let mut log = populated_log(10);
    log.evict_all();

    let err = log
        .read_range(Offset::new(0), None)
        .expect_err("must error");
    match err {
        StorageError::RetentionExpired { earliest_available, .. } => {
            assert_eq!(earliest_available, None, "fully-evicted log must report None");
        }
        other => panic!("expected RetentionExpired, got {other:?}"),
    }

    assert_eq!(log.latest_offset(), None);
    assert_eq!(log.earliest_offset(), None);
}

#[test]
fn subscribe_below_earliest_returns_retention_expired() {
    let mut log = populated_log(10);
    log.evict_below(Offset::new(5));

    let result = log.subscribe(Offset::new(0));
    assert!(
        matches!(&result, Err(StorageError::RetentionExpired { .. })),
        "expected RetentionExpired error"
    );
}

#[test]
fn earliest_offset_advances_with_eviction() {
    let mut log = populated_log(10);
    assert_eq!(log.earliest_offset(), Some(Offset::new(0)));
    log.evict_below(Offset::new(3));
    assert_eq!(log.earliest_offset(), Some(Offset::new(3)));
}

#[test]
fn read_range_inside_retained_window_unaffected() {
    let mut log = populated_log(10);
    log.evict_below(Offset::new(2));
    let entries = log
        .read_range(Offset::new(2), Some(Offset::new(5)))
        .expect("ok");
    assert_eq!(entries.len(), 3);
}

#[test]
fn in_flight_subscription_surfaces_retention_expired_when_evicted_past_cursor() {
    let mut log = populated_log(10);
    let mut sub = log.subscribe(Offset::new(0)).expect("subscribe");

    // Consume the first entry so cursor is now 1.
    let first = next(&mut sub, &log);
    assert_eq!(first.offset, Offset::new(0));

    // Evict past the subscription's cursor.
    log.evict_below(Offset::new(5));

    match sub.next_entry(&log) {
        MemNext::Expired(StorageError::RetentionExpired { requested, earliest_available }) => {
            assert_eq!(requested, Offset::new(1));
            assert_eq!(earliest_available, Some(Offset::new(5)));
        }
        other => panic!("expected RetentionExpired for evicted in-flight cursor, got {other:?}"),
    }

    sub.close();
}

#[test]
fn subscription_ahead_of_eviction_boundary_continues_normally() {
    let mut log = populated_log(10);
    let mut sub = log.subscribe(Offset::new(7)).expect("subscribe");

    // Evict everything below 5; the cursor is at 7, still inside the retained window.
    log.evict_below(Offset::new(5));

    let entry = next(&mut sub, &log);
    assert_eq!(entry.offset, Offset::new(7));

    sub.close();
}

#[test]
fn evict_below_clamps_boundary_past_log_end() {
    let mut log = populated_log(10);
    log.evict_below(Offset::new(999));

    // earliest_offset reports the clamped boundary, not the original 999.
    assert_eq!(
        log.earliest_offset(),
        None,
        "all 10 entries are at offsets 0..10, clamped boundary is 10, so nothing retained"
    );

    // A new append succeeds and is readable, not immediately evicted.
    log.append("test-producer", &[det(10)], NOW).unwrap();
    let entries = log
        .read_range(Offset::new(10), Some(Offset::new(11)))
        .unwrap();
    assert_eq!(entries.len(), 1, "post-clamp append must be readable, not soft-evicted");
    assert_eq!(entries[0].offset, Offset::new(10));
}

#[test]
fn retention_is_looked_at_before_the_range() {
    let mut log = populated_log(4);
    log.evict_below(Offset::new(2));
    assert!(matches!(
        log.read_range(Offset::new(1), Some(Offset::new(1))),
        Err(StorageError::RetentionExpired { .. })
    ));
    assert!(log.read_range(Offset::new(3), Some(Offset::new(3))).unwrap().is_empty());
    assert!(log.read_range(Offset::new(9), None).unwrap().is_empty());
    assert_eq!(log.read_range(Offset::new(2), Some(Offset::new(99))).unwrap().len(), 2);
}

#[test]
fn refused_appends_change_nothing() {
    let mut log = MemLog::default();
    assert_eq!(
        log.append("p", &[], NOW),
        Err(StorageError::InvalidInput(Misuse::NoEvents))
    );
    assert_eq!(
        log.append("", &[det(0)], NOW),
        Err(StorageError::InvalidInput(Misuse::NoProducerId))
    );
    assert_eq!(log.latest_offset(), None);
}

#[test]
fn subscription_beyond_the_end_waits() {
    let mut log = populated_log(1);
    let mut sub = log.subscribe(Offset::new(2)).unwrap();
    assert!(matches!(sub.next_entry(&log), MemNext::Wait));
    log.append("test-producer", &[det(1)], NOW).unwrap();
    assert!(matches!(sub.next_entry(&log), MemNext::Wait));
    log.append("test-producer", &[det(2)], NOW + 5).unwrap();
    let entry = next(&mut sub, &log);
    assert_eq!(entry.offset, Offset::new(2));
    assert_eq!(entry.appended_at_ns, NOW + 5);
}
