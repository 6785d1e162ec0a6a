use rsdbus::connection::{
    ConState, DBusConnection, DBusDispatchStatus, DBusPendingCall, MatchFilter, PollResult,
};
use rsdbus::error::{ConnError, DBusError};
use rsdbus::message::set_error_from_message;
use rsdbus::framing::marshal;
use rsdbus::message::{DBusMessage, MessageKind};
use rsdbus::value::Value;

fn call_msg() -> DBusMessage {
    DBusMessage::new_method_call(
        b"org.example.Dest".to_vec(),
        b"/org/example/Obj".to_vec(),
        b"org.example.Iface".to_vec(),
        b"Ping".to_vec(),
    )
}

#[test]
fn serials_start_at_one_and_increase() {
    let mut con: DBusConnection<MatchFilter> = DBusConnection::new();
    let s1 = con.send(call_msg()).unwrap();
    let s2 = con.send(call_msg()).unwrap();
    let s3 = con.send(call_msg()).unwrap();
    assert_eq!((s1, s2, s3), (1, 2, 3));
    assert!(s1 < s2 && s2 < s3);
    assert_ne!(s1, s2);
    assert_ne!(s2, s3);
    assert_ne!(s1, s3);
    assert_eq!(con.out_queue.len(), 3);
    assert_eq!(con.out_queue[0].serial, Some(1));
    assert!(con.out_queue[0].locked);
}

#[test]
fn send_fails_fast_when_disconnected() {
    let mut con: DBusConnection<MatchFilter> = DBusConnection::new();
    con.mark_disconnected();
    assert_eq!(con.state, ConState::Disconnected);
    assert_eq!(con.send(call_msg()).unwrap_err(), ConnError::Disconnected);
}

#[test]
fn outbound_frames_leave_in_send_order() {
    let mut con: DBusConnection<MatchFilter> = DBusConnection::new();
    let mut m1 = call_msg();
    m1.member = Some(b"First".to_vec());
    let mut m2 = call_msg();
    m2.member = Some(b"Second".to_vec());
    con.send(m1).unwrap();
    con.send(m2).unwrap();
    let f1 = con.take_outbound_frame().unwrap().unwrap();
    let f2 = con.take_outbound_frame().unwrap().unwrap();
    assert_eq!(con.take_outbound_frame().unwrap(), None);
    let (d1, _) = rsdbus::framing::unmarshal_message(&f1).unwrap();
    let (d2, _) = rsdbus::framing::unmarshal_message(&f2).unwrap();
    assert_eq!(d1.member.as_deref(), Some(b"First".as_slice()));
    assert_eq!(d2.member.as_deref(), Some(b"Second".as_slice()));
}

#[test]
fn reply_correlation_fills_the_matching_call_once() {
    let mut con: DBusConnection<MatchFilter> = DBusConnection::new();
    let serial = con.send_with_reply(call_msg(), Some(1000), 0).unwrap();
    assert_eq!(serial, 1);

    let mut reply = DBusMessage::new(MessageKind::MethodReturn);
    reply.serial = Some(99);
    reply.reply_serial = Some(serial);
    reply.body.push(Value::Str(b"pong".to_vec()));
    con.dispatch_message(reply).unwrap();

    assert_eq!(con.in_queue.len(), 0);
    match con.poll_reply(serial, 5) {
        PollResult::Ready(m) => {
            assert_eq!(m.kind, MessageKind::MethodReturn);
            assert_eq!(m.reply_serial, Some(serial));
            assert_eq!(m.body, vec![Value::Str(b"pong".to_vec())]);
        },
        _ => panic!("expected the filled reply"),
    }
    // the call is retired once its reply is consumed
    match con.poll_reply(serial, 5) {
        PollResult::Unknown => {},
        _ => panic!("expected the call to be gone"),
    }
}

#[test]
fn unmatched_replies_vanish_without_queueing() {
    let mut con: DBusConnection<MatchFilter> = DBusConnection::new();
    let serial = con.send_with_reply(call_msg(), Some(1000), 0).unwrap();
    let mut stray = DBusMessage::new(MessageKind::MethodReturn);
    stray.serial = Some(50);
    stray.reply_serial = Some(serial + 17);
    con.dispatch_message(stray).unwrap();
    assert_eq!(con.in_queue.len(), 0);
    assert_eq!(con.pending.len(), 1);
    assert!(con.pending[0].reply.is_none());
}

#[test]
fn filters_short_circuit_in_registration_order() {
    let mut con: DBusConnection<MatchFilter> = DBusConnection::new();
    con.add_filter(MatchFilter { member: b"Nope".to_vec() });
    con.add_filter(MatchFilter { member: b"Ping".to_vec() });

    // the second filter handles this one: it never reaches the queue
    let mut sig = DBusMessage::new(MessageKind::Signal);
    sig.member = Some(b"Ping".to_vec());
    con.dispatch_message(sig).unwrap();
    assert_eq!(con.in_queue.len(), 0);

    // every filter declines this one: it lands in the queue
    let mut other = DBusMessage::new(MessageKind::Signal);
    other.member = Some(b"Other".to_vec());
    con.dispatch_message(other).unwrap();
    assert_eq!(con.in_queue.len(), 1);
    let got = con.pop_inbound().unwrap();
    assert_eq!(got.member.as_deref(), Some(b"Other".as_slice()));
    assert_eq!(con.pop_inbound(), None);
}

#[test]
fn full_call_and_reply_scenario() {
    let mut con: DBusConnection<MatchFilter> = DBusConnection::new();
    let msg = call_msg();
    let serial = con.send(msg).unwrap();
    assert_eq!(serial, 1);
    let pc = DBusPendingCall::new(serial, Some(1000), 0);
    con.pending.push(pc);

    // the peer's reply arrives on the wire
    let mut reply = DBusMessage::new(MessageKind::MethodReturn);
    reply.serial = Some(4242);
    reply.reply_serial = Some(1);
    reply.body.push(Value::Str(b"pong".to_vec()));
    let wire = marshal(&reply).unwrap();
    con.feed_inbound(&wire);
    let status = con.dispatch().unwrap();
    assert_eq!(status, DBusDispatchStatus::Complete);

    match con.poll_reply(1, 1) {
        PollResult::Ready(m) => {
            assert_eq!(m.kind, MessageKind::MethodReturn);
            assert_eq!(m.serial, Some(4242));
            assert_eq!(m.reply_serial, Some(1));
            assert_eq!(m.body, vec![Value::Str(b"pong".to_vec())]);
        },
        _ => panic!("expected the reply to be routed to the pending call"),
    }
}

#[test]
fn dispatch_reports_a_second_buffered_frame() {
    let mut con: DBusConnection<MatchFilter> = DBusConnection::new();
    let mut sig = DBusMessage::new_signal(
        b"/o".to_vec(),
        b"i.f".to_vec(),
        b"M".to_vec(),
    );
    sig.serial = Some(8);
    let wire = marshal(&sig).unwrap();
    let mut both = wire.clone();
    both.extend_from_slice(&wire);
    con.feed_inbound(&both);
    assert_eq!(con.dispatch().unwrap(), DBusDispatchStatus::DataRemaining);
    assert_eq!(con.dispatch().unwrap(), DBusDispatchStatus::Complete);
    assert_eq!(con.in_queue.len(), 2);
}

#[test]
fn malformed_inbound_frame_is_discarded_not_fatal() {
    let mut con: DBusConnection<MatchFilter> = DBusConnection::new();
    let junk = [0xDEu8, 0xAD, 0xBE, 0xEF, 0, 0, 0, 0, 0, 0, 0, 0, 0, 0, 0, 0];
    con.feed_inbound(&junk);
    assert_eq!(con.dispatch().unwrap(), DBusDispatchStatus::Complete);
    assert_eq!(con.recv_buf.len(), 0);
    assert_eq!(con.state, ConState::Ready);
}

#[test]
fn timeout_scenario_reports_once_deadline_passes() {
    let mut con: DBusConnection<MatchFilter> = DBusConnection::new();
    // a ten-millisecond deadline measured from time zero, never answered
    let serial = con.send_with_reply(call_msg(), Some(10), 0).unwrap();
    let mut now: u64 = 0;
    loop {
        con.dispatch().unwrap();
        match con.poll_reply(serial, now) {
            PollResult::Waiting => {
                now += 3;
            },
            PollResult::TimedOut => {
                assert!(now > 10);
                break;
            },
            _ => panic!("nothing was ever replied"),
        }
    }
    // after the timeout the call is retired: no reply can ever be reported
    let mut late = DBusMessage::new(MessageKind::MethodReturn);
    late.serial = Some(77);
    late.reply_serial = Some(serial);
    con.dispatch_message(late).unwrap();
    match con.poll_reply(serial, 100) {
        PollResult::Unknown => {},
        _ => panic!("a retired call must stay retired"),
    }
}

#[test]
fn pending_call_deadline_arithmetic() {
    let pc = DBusPendingCall::new(5, Some(10), 100);
    assert_eq!(pc.deadline, Some(110));
    assert!(!pc.timed_out(110));
    assert!(pc.timed_out(111));
    let open_ended = DBusPendingCall::new(6, None, 100);
    assert!(!open_ended.timed_out(u64::MAX));
}

#[test]
fn error_records_fill_from_error_messages() {
    let call = {
        let mut c = call_msg();
        c.serial = Some(3);
        c.sender = Some(b"org.example.Caller".to_vec());
        c
    };
    let err_msg = DBusMessage::new_error(
        &call,
        b"org.example.Failed".to_vec(),
        b"it broke".to_vec(),
    );
    assert_eq!(err_msg.kind, MessageKind::Error);
    assert_eq!(err_msg.reply_serial, Some(3));
    assert_eq!(err_msg.destination.as_deref(), Some(b"org.example.Caller".as_slice()));
    let mut rec = DBusError::new();
    assert!(set_error_from_message(&mut rec, &err_msg));
    assert!(rec.error_is_set());
    assert!(rec.has_name(b"org.example.Failed"));
    assert!(!rec.has_name(b"org.example.Other"));
    assert_eq!(rec.error, b"it broke".to_vec());

    let mut rec2 = DBusError::new();
    assert!(!set_error_from_message(&mut rec2, &call_msg()));
    assert!(!rec2.error_is_set());
    rec.clear();
    assert!(!rec.error_is_set());
}

#[test]
fn setters_stamp_header_fields() {
    let mut m = DBusMessage::new(MessageKind::MethodCall);
    m.set_path(b"/p".to_vec());
    m.set_interface(b"i.f".to_vec());
    m.set_member(b"M".to_vec());
    m.set_destination(b"d.e".to_vec());
    m.set_sender(b"s.e".to_vec());
    m.set_reply_serial(11);
    m.set_serial(12);
    assert_eq!(m.path.as_deref(), Some(b"/p".as_slice()));
    assert_eq!(m.member.as_deref(), Some(b"M".as_slice()));
    assert_eq!(m.serial, Some(12));
    assert_eq!(m.reply_serial, Some(11));
}
