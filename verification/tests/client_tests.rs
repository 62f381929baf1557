use atomic_counter::AtomicCounter;
use naia_socket::client::{read_step, ReadStep, MESSAGE_SIZE};
use naia_socket::counter::PacketCounter;
use naia_socket::demo::{decimal_text, format_ping, OwnedEntity};

#[test]
fn read_step_forwards_what_was_read() {
    let mut buffer = vec![0u8; MESSAGE_SIZE];
    buffer[0] = 7;
    buffer[1] = 8;
    buffer[2] = 9;
    match read_step(Some(2), &buffer) {
        ReadStep::Forward(message) => assert_eq!(message, vec![7, 8]),
        ReadStep::Finish => panic!("expected a message"),
    }
    assert!(matches!(read_step(Some(0), &buffer), ReadStep::Forward(m) if m.is_empty()));
    assert!(matches!(read_step(None, &buffer), ReadStep::Finish));
}

#[test]
fn packet_counter_counts() {
    let counter = PacketCounter::new("client".to_string());
    assert_eq!(counter.context(), "client");
    assert_eq!(counter.sent.get(), 0);
    counter.inc_sent();
    counter.inc_sent();
    counter.inc_recv();
    assert_eq!(counter.sent.get(), 2);
    assert_eq!(counter.recv.get(), 1);
}

#[test]
fn ping_text_shows_rtt_and_jitter() {
    assert_eq!(format_ping(20, 3), "ping: 20 +/- 3");
    assert_eq!(format_ping(0, 0), "ping: 0 +/- 0");
}

#[test]
fn decimal_text_matches_display() {
    for n in [0u32, 5, 10, 99, 100, 12345, u32::MAX] {
        assert_eq!(decimal_text(n), n.to_string());
    }
}

#[test]
fn owned_entity_keeps_both_entities() {
    let owned = OwnedEntity::new(3u64, 4u64);
    assert_eq!(owned.confirmed, 3);
    assert_eq!(owned.predicted, 4);
}
