use ffone::packet::{read_step, NetworkPacket, ReadOutcome, ReadStep};

#[test]
fn packet_framing_round_trip() {
    let packet = NetworkPacket::from_bytes(vec![7, 8, 9]);
    assert_eq!(packet.len(), 16);
    let raw = packet.as_raw().to_vec();
    assert_eq!(&raw[..5], &[0xF, 0xF, 0x0, 0x12, 0xE]);
    assert_eq!(&raw[5..13], &3u64.to_be_bytes());
    assert!(NetworkPacket::is_header_correct(&raw[..13]));
    assert_eq!(NetworkPacket::read_size_from_header(&raw[..13]), 3);
    assert_eq!(packet.into_bytes(), vec![7, 8, 9]);
}

#[test]
fn wrong_header_is_refused() {
    assert!(!NetworkPacket::is_header_correct(&[0xF, 0xF, 0x0, 0x12]));
    assert!(!NetworkPacket::is_header_correct(&[0xF, 0xF, 0x1, 0x12, 0xE]));
    assert_eq!(NetworkPacket::from_raw(vec![1, 2]).into_raw(), vec![1, 2]);
}

#[test]
fn read_steps() {
    assert_eq!(read_step(0, 10, ReadOutcome::Data(4), false), ReadStep::Continue(4));
    assert_eq!(read_step(4, 10, ReadOutcome::Data(6), false), ReadStep::Done);
    assert_eq!(read_step(4, 10, ReadOutcome::Data(0), false), ReadStep::Unlinked);
    assert_eq!(read_step(0, 10, ReadOutcome::WouldBlock, false), ReadStep::Fail);
    assert_eq!(read_step(0, 10, ReadOutcome::WouldBlock, true), ReadStep::Continue(0));
    assert_eq!(read_step(3, 10, ReadOutcome::WouldBlock, false), ReadStep::Continue(3));
    assert_eq!(read_step(3, 10, ReadOutcome::Interrupted, false), ReadStep::Continue(3));
    assert_eq!(read_step(3, 10, ReadOutcome::Critical, false), ReadStep::Unlinked);
    assert_eq!(read_step(3, 10, ReadOutcome::Failed, true), ReadStep::Fail);
}
