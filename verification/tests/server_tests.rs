use naia_socket::packet::{PeerAddr, RtcPacket};
use naia_socket::server::{
    after_forward, receive_step, settle_answer, ReceiveAction, ReceiveEvent, RtcPeer, SendRoute,
    ServerAction, ServerEvent, ServerSocketError, SessionTable,
};

fn v4(last: u8, port: u16) -> PeerAddr {
    PeerAddr::V4 { ip: u32::from_be_bytes([10, 0, 0, last]), port }
}

#[test]
fn copy_data_copies_the_payload() {
    let packet = RtcPacket { is_string: false, data: vec![1, 2, 3], remote_addr: v4(1, 9) };
    assert_eq!(packet.copy_data(), vec![1, 2, 3]);
}

#[test]
fn table_insert_then_get() {
    let mut table: SessionTable<&str, String> = SessionTable::new();
    assert!(table.get(v4(1, 1)).is_none());
    assert!(table.insert(v4(1, 1), Ok("peer-a")).is_none());
    assert!(table.insert(v4(2, 1), Err("broken".to_string())).is_none());
    assert!(matches!(table.get(v4(1, 1)), Some(Ok("peer-a"))));
    assert!(matches!(table.get(v4(2, 1)), Some(Err(e)) if e == "broken"));
    let previous = table.insert(v4(1, 1), Ok("peer-b"));
    assert!(matches!(previous, Some(Ok("peer-a"))));
    assert!(matches!(table.get(v4(1, 1)), Some(Ok("peer-b"))));
    assert!(matches!(table.get(v4(2, 1)), Some(Err(_))));
    assert!(table.get(v4(1, 2)).is_none());
}

#[test]
fn route_send_follows_the_session() {
    let mut table: SessionTable<u32, String> = SessionTable::new();
    table.insert(v4(1, 1), Ok(7));
    table.insert(v4(2, 1), Err("failed".to_string()));
    assert!(matches!(table.route_send(v4(1, 1), false), SendRoute::Binary(&7)));
    assert!(matches!(table.route_send(v4(1, 1), true), SendRoute::Text(&7)));
    assert!(matches!(table.route_send(v4(2, 1), false), SendRoute::Failed(e) if e == "failed"));
    assert!(matches!(table.route_send(v4(3, 1), false), SendRoute::Missing(a) if a == v4(3, 1)));
}

fn peer(addr: PeerAddr, id: u32) -> RtcPeer<u32, &'static str> {
    RtcPeer { remote_addr: addr, connection: id, channel: "data" }
}

#[test]
fn established_peer_receives_packets() {
    let mut table: SessionTable<RtcPeer<u32, &str>, String> = SessionTable::new();
    let addr = PeerAddr::V6 { ip: 1, port: 5000, flowinfo: 0, scope_id: 0 };
    let action = table.process_event::<()>(ServerEvent::NewlyEstablished(Ok(peer(addr, 11))));
    assert!(matches!(action, ServerAction::Registered { addr: a, replaced: false } if a == addr));
    assert!(matches!(table.route_send(addr, false), SendRoute::Binary(p) if p.connection == 11));
    let again = table.process_event::<()>(ServerEvent::NewlyEstablished(Ok(peer(addr, 12))));
    assert!(matches!(again, ServerAction::Registered { replaced: true, .. }));
    assert!(matches!(table.route_send(addr, false), SendRoute::Binary(p) if p.connection == 12));
    let other = PeerAddr::V6 { ip: 1, port: 5000, flowinfo: 0, scope_id: 1 };
    assert!(matches!(table.route_send(other, false), SendRoute::Missing(_)));
}

#[test]
fn other_events_leave_sessions_alone() {
    let mut table: SessionTable<RtcPeer<u32, &str>, String> = SessionTable::new();
    let offer = table.process_event(ServerEvent::IncomingOffer("offer"));
    assert!(matches!(offer, ServerAction::AnswerOffer("offer")));
    let failed = table.process_event::<&str>(ServerEvent::NewlyEstablished(Err("gone".to_string())));
    assert!(matches!(failed, ServerAction::EstablishFailed(e) if e == "gone"));
    assert!(matches!(table.process_event::<&str>(ServerEvent::IncomingPacket), ServerAction::Idle));
    assert!(matches!(table.process_event::<&str>(ServerEvent::PeriodicTimer), ServerAction::Idle));
    assert!(matches!(table.route_send(v4(1, 1), false), SendRoute::Missing(_)));
}

#[test]
fn settle_answer_prefers_join_errors() {
    assert_eq!(settle_answer::<u8, &str>(Ok(()), Ok(3)), Ok(3));
    assert_eq!(settle_answer::<u8, &str>(Err("join"), Err("answer")), Err("join"));
    assert_eq!(settle_answer::<u8, &str>(Err("join"), Ok(3)), Err("join"));
    assert_eq!(settle_answer::<u8, &str>(Ok(()), Err("answer")), Err("answer"));
}

#[test]
fn receive_step_delivers_client_packets() {
    let packet = RtcPacket { is_string: true, data: vec![4, 5], remote_addr: v4(4, 44) };
    match receive_step::<String>(ReceiveEvent::FromClient(Ok(packet))) {
        ReceiveAction::Deliver(addr, payload) => {
            assert_eq!(addr, v4(4, 44));
            assert_eq!(payload, vec![4, 5]);
        }
        other => panic!("unexpected {:?}", other),
    }
}

#[test]
fn receive_step_wraps_errors() {
    let action = receive_step::<String>(ReceiveEvent::FromClient(Err("closed".to_string())));
    assert!(matches!(action, ReceiveAction::Fail(ServerSocketError::Wrapped(e)) if e == "closed"));
}

#[test]
fn receive_step_forwards_queued_payloads_as_binary() {
    match receive_step::<String>(ReceiveEvent::ToClient(v4(5, 55), vec![9])) {
        ReceiveAction::Forward(packet) => {
            assert!(!packet.is_string);
            assert_eq!(packet.remote_addr, v4(5, 55));
            assert_eq!(packet.data, vec![9]);
        }
        other => panic!("unexpected {:?}", other),
    }
}

#[test]
fn after_forward_reports_failed_sends() {
    assert!(after_forward::<String, ()>(v4(6, 1), Ok(())).is_none());
    assert!(matches!(
        after_forward::<String, &str>(v4(6, 1), Err("x")),
        Some(ServerSocketError::SendError(a)) if a == v4(6, 1)
    ));
}
