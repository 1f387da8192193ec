use crowdcontrol::codec::checksum;
use crowdcontrol::journal::Journal;

#[test]
fn checksum_has_exact_polynomial_value() {
    assert_eq!(checksum(&[]), 0);
    assert_eq!(checksum(&[1u8, 2]), 33);
    assert_eq!(checksum(&[2u8, 1]), 63);
}

#[test]
fn frame_layout_is_length_then_checksum_then_payload() {
    let mut journal = Journal::new();
    journal.append(vec![1u8, 2]).unwrap();
    let image = journal.staged_image();
    let expected = vec![
        2u8, 0, 0, 0, 0, 0, 0, 0, // payload length, little endian
        33, 0, 0, 0, 0, 0, 0, 0, // payload checksum, little endian
        1, 2, // payload
    ];
    assert_eq!(image, expected);
}

#[test]
fn empty_payloads_are_stored_and_recovered() {
    let mut journal = Journal::new();
    let (pos, _signal) = journal.append(Vec::new()).unwrap();
    journal.sync();
    let records = journal.read_from(pos);
    assert_eq!(records.len(), 1);
    assert!(records[0].payload().is_empty());
    let reopened = Journal::open(&journal.close()).unwrap();
    let recovered = reopened.read_from(reopened.origin());
    assert_eq!(recovered.len(), 1);
    assert!(recovered[0].payload().is_empty());
}
