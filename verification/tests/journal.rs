use crowdcontrol::completion::Committed;
use crowdcontrol::completion::FailableFuture;
use crowdcontrol::completion::Future;
use crowdcontrol::journal::Journal;
use crowdcontrol::journal::JournalError;
use crowdcontrol::journal::Position;

#[test]
fn test_ord() {
    let mut journal = Journal::new();
    let (p0, _s0) = journal.append(vec![0u8]).unwrap();
    let (p1, _s1) = journal.append(vec![1u8]).unwrap();
    assert_eq!(p0, p0);
    assert!(p0 < p1);
    assert!(p1 > p0);
}

#[test]
fn round_trip_single_record() {
    let mut journal = Journal::new();
    let payload = vec![1u8, 2, 3, 4, 5];
    let (pos, signal) = journal.append(payload.clone()).unwrap();
    journal.sync();
    let records = journal.read_from(pos);
    assert_eq!(records.len(), 1);
    assert_eq!(*records[0].payload(), payload);
    assert_eq!(records[0].position(), pos);
    assert_eq!(signal.fawait_forever(), Ok(Committed));
}

#[test]
fn appended_positions_are_strictly_increasing_and_gapless() {
    let mut journal = Journal::new();
    let mut positions: Vec<Position> = Vec::new();
    for i in 0..5u8 {
        let (pos, _signal) = journal.append(vec![i]).unwrap();
        positions.push(pos);
    }
    for pair in positions.windows(2) {
        assert!(pair[0] < pair[1]);
    }
    journal.sync();
    let records = journal.read_from(positions[0]);
    assert_eq!(records.len(), 5);
    for (record, pos) in records.iter().zip(positions.iter()) {
        assert_eq!(record.position(), *pos);
    }
}

#[test]
fn later_success_implies_earlier_success_and_visibility() {
    let mut journal = Journal::new();
    let (pa, sa) = journal.append(vec![10u8]).unwrap();
    let (pb, sb) = journal.append(vec![20u8]).unwrap();
    assert!(pa < pb);
    journal.sync();
    assert_eq!(sb.fget(), Some(Ok(Committed)));
    assert_eq!(sa.fget(), Some(Ok(Committed)));
    let records = journal.read_from(pa);
    assert_eq!(records[0].position(), pa);
    assert!(records.iter().any(|r| r.position() == pb));
}

#[test]
fn torn_tail_is_discarded_and_position_reused() {
    let mut journal = Journal::new();
    let mut positions: Vec<Position> = Vec::new();
    for i in 0..3u8 {
        let (pos, _signal) = journal.append(vec![i; 4]).unwrap();
        positions.push(pos);
    }
    journal.sync();
    let image = journal.staged_image();
    let mut stored = image.clone();
    stored.truncate(image.len() - 1);
    let mut reopened = Journal::open(&stored).unwrap();
    let recovered = reopened.read_from(reopened.origin());
    assert_eq!(recovered.len(), 2);
    assert_eq!(*recovered[0].payload(), vec![0u8; 4]);
    assert_eq!(*recovered[1].payload(), vec![1u8; 4]);
    assert_eq!(reopened.durable_frontier(), Some(positions[1]));
    let (reused, _signal) = reopened.append(vec![9u8]).unwrap();
    assert_eq!(reused, positions[2]);
}

#[test]
fn read_twice_yields_identical_sequences() {
    let mut journal = Journal::new();
    for i in 0..4u8 {
        journal.append(vec![i, i + 1]).unwrap();
    }
    journal.sync();
    let first = journal.read_from(journal.origin());
    let second = journal.read_from(journal.origin());
    assert_eq!(first.len(), second.len());
    for (a, b) in first.iter().zip(second.iter()) {
        assert_eq!(a.position(), b.position());
        assert_eq!(a.payload(), b.payload());
    }
}

#[test]
fn many_appends_yield_distinct_contiguous_positions() {
    let writers = 4u8;
    let per_writer = 8u8;
    let mut journal = Journal::new();
    let mut positions: Vec<Position> = Vec::new();
    let mut signals = Vec::new();
    for round in 0..per_writer {
        for writer in 0..writers {
            let (pos, signal) = journal.append(vec![writer, round]).unwrap();
            positions.push(pos);
            signals.push(signal);
        }
    }
    assert_eq!(positions.len(), (writers as usize) * (per_writer as usize));
    for pair in positions.windows(2) {
        assert!(pair[0] < pair[1]);
    }
    journal.sync();
    for signal in &signals {
        assert_eq!(signal.fget(), Some(Ok(Committed)));
    }
    let records = journal.read_from(journal.origin());
    assert_eq!(records.len(), positions.len());
    for (record, pos) in records.iter().zip(positions.iter()) {
        assert_eq!(record.position(), *pos);
    }
}

#[test]
fn timeout_is_indeterminate_and_loses_no_state() {
    let mut journal = Journal::new();
    let (_pos, signal) = journal.append(vec![7u8]).unwrap();
    assert_eq!(signal.fawait_until(1), None);
    assert_eq!(signal.fget(), None);
    journal.sync();
    assert_eq!(signal.fawait_forever(), Ok(Committed));
    assert_eq!(signal.fawait_until(1), Some(Ok(Committed)));
}

#[test]
fn the_plain_future_view_agrees_with_the_failable_view() {
    let mut journal = Journal::new();
    let (_pos, signal) = journal.append(vec![3u8]).unwrap();
    assert_eq!(Future::get(&signal), None);
    assert_eq!(signal.fget(), None);
    journal.sync();
    assert_eq!(Future::get(&signal), Some(Ok(Committed)));
    assert_eq!(Future::await_until(&signal, 5), Some(Ok(Committed)));
    assert_eq!(Future::await_forever(&signal), Ok(Committed));
}

#[test]
fn fresh_journal_has_no_frontiers() {
    let journal = Journal::new();
    assert_eq!(journal.durable_frontier(), None);
    assert_eq!(journal.readable_frontier(), None);
}

#[test]
fn storage_full_fails_the_append_and_seals_the_journal() {
    let mut journal = Journal::with_capacity(40);
    let (p0, s0) = journal.append(vec![0u8; 8]).unwrap();
    let (_p1, s1) = journal.append(vec![1u8; 8]).unwrap();
    journal.sync();
    assert_eq!(s0.fget(), Some(Ok(Committed)));
    assert_eq!(s1.fget(), Some(Err(JournalError::StorageFull)));
    match journal.append(vec![2u8]) {
        Err(JournalError::Sealed) => {}
        _ => panic!("a sealed journal must reject appends"),
    }
    let records = journal.read_from(journal.origin());
    assert_eq!(records.len(), 1);
    assert_eq!(records[0].position(), p0);
}

#[test]
fn corrupt_store_fails_to_open() {
    let mut journal = Journal::new();
    journal.append(vec![1u8, 2, 3, 4]).unwrap();
    journal.append(vec![5u8, 6, 7, 8]).unwrap();
    journal.sync();
    let mut stored = journal.close();
    stored[17] ^= 0xff;
    match Journal::open(&stored) {
        Err(JournalError::Corrupt) => {}
        _ => panic!("a corrupt record inside the store must fail the open"),
    }
}

#[test]
fn reads_at_or_beyond_the_readable_frontier_are_empty() {
    let mut journal = Journal::new();
    assert_eq!(journal.read_from(journal.origin()).len(), 0);
    let (pos, _signal) = journal.append(vec![1u8]).unwrap();
    assert_eq!(journal.read_from(pos).len(), 0);
    journal.sync();
    assert_eq!(journal.read_from(pos).len(), 1);
}

#[test]
fn close_and_reopen_preserves_order_and_frontiers() {
    let mut journal = Journal::new();
    let mut positions: Vec<Position> = Vec::new();
    for i in 0..3u8 {
        let (pos, _signal) = journal.append(vec![i, i]).unwrap();
        positions.push(pos);
    }
    journal.sync();
    let stored = journal.close();
    let mut reopened = Journal::open(&stored).unwrap();
    assert_eq!(reopened.durable_frontier(), Some(positions[2]));
    assert_eq!(reopened.readable_frontier(), Some(positions[2]));
    let records = reopened.read_from(reopened.origin());
    assert_eq!(records.len(), 3);
    for (i, record) in records.iter().enumerate() {
        assert_eq!(*record.payload(), vec![i as u8, i as u8]);
        assert_eq!(record.position(), positions[i]);
    }
    let (next, _signal) = reopened.append(vec![9u8]).unwrap();
    assert!(next > positions[2]);
}

#[test]
fn unsynced_records_are_durable_only_after_sync() {
    let mut journal = Journal::new();
    journal.append(vec![1u8]).unwrap();
    journal.sync();
    journal.append(vec![2u8]).unwrap();
    let durable = journal.durable_image();
    let staged = journal.staged_image();
    assert!(durable.len() < staged.len());
    let reopened = Journal::open(&durable).unwrap();
    let records = reopened.read_from(reopened.origin());
    assert_eq!(records.len(), 1);
    assert_eq!(*records[0].payload(), vec![1u8]);
}
