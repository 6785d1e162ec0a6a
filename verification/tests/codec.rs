use rsdbus::error::CodecError;
use rsdbus::framing::{bytes_needed, marshal, unmarshal_header, unmarshal_message};
use rsdbus::message::{DBusMessage, MessageKind};
use rsdbus::value::{TypeSig, Value};
use rsdbus::wire::{ByteOrder, push_u16, push_u32, push_u64, read_u32};

fn call_msg() -> DBusMessage {
    let mut m = DBusMessage::new_method_call(
        b"org.example.Dest".to_vec(),
        b"/org/example/Obj".to_vec(),
        b"org.example.Iface".to_vec(),
        b"Ping".to_vec(),
    );
    m.serial = Some(7);
    m
}

#[test]
fn little_endian_integers_hit_exact_bytes() {
    let mut buf: Vec<u8> = Vec::new();
    push_u16(&mut buf, 0xABCD);
    assert_eq!(buf, vec![0xCD, 0xAB]);
    push_u32(&mut buf, 0x01020304);
    assert_eq!(&buf[2..], &[0x04, 0x03, 0x02, 0x01]);
    push_u64(&mut buf, 0x1122334455667788);
    assert_eq!(&buf[6..], &[0x88, 0x77, 0x66, 0x55, 0x44, 0x33, 0x22, 0x11]);
    assert_eq!(read_u32(&buf, 2, ByteOrder::Little), 0x01020304);
    assert_eq!(read_u32(&[0x01, 0x02, 0x03, 0x04], 0, ByteOrder::Big), 0x01020304);
}

#[test]
fn fixed_header_layout_is_exact() {
    let mut m = DBusMessage::new_signal(
        b"/org/example/Obj".to_vec(),
        b"org.example.Iface".to_vec(),
        b"Ping".to_vec(),
    );
    m.serial = Some(1);
    let bytes = marshal(&m).unwrap();
    // byte-order marker 'l', kind tag 4 for a signal, no flags, version 1
    assert_eq!(&bytes[0..4], &[108, 4, 0, 1]);
    // empty body
    assert_eq!(&bytes[4..8], &[0, 0, 0, 0]);
    // serial 1
    assert_eq!(&bytes[8..12], &[1, 0, 0, 0]);
    assert_eq!(bytes_needed(&bytes), Ok(bytes.len()));
}

#[test]
fn empty_body_round_trip() {
    let m = call_msg();
    let bytes = marshal(&m).unwrap();
    let (back, used) = unmarshal_message(&bytes).unwrap();
    assert_eq!(used, bytes.len());
    assert_eq!(back.kind, MessageKind::MethodCall);
    assert_eq!(back.serial, Some(7));
    assert_eq!(back.destination.as_deref(), Some(b"org.example.Dest".as_slice()));
    assert_eq!(back.path.as_deref(), Some(b"/org/example/Obj".as_slice()));
    assert_eq!(back.interface.as_deref(), Some(b"org.example.Iface".as_slice()));
    assert_eq!(back.member.as_deref(), Some(b"Ping".as_slice()));
    assert_eq!(back.body.len(), 0);
}

#[test]
fn scalar_body_round_trip() {
    let mut m = call_msg();
    m.body.push(Value::Byte(0x7F));
    m.body.push(Value::Boolean(true));
    m.body.push(Value::Int16(-2));
    m.body.push(Value::Uint16(40000));
    m.body.push(Value::Int32(-70000));
    m.body.push(Value::Uint32(3_000_000_000));
    m.body.push(Value::Int64(-5_000_000_000));
    m.body.push(Value::Uint64(18_000_000_000_000_000_000));
    m.body.push(Value::Double(0x3FF0000000000000));
    m.body.push(Value::UnixFd(4));
    m.body.push(Value::Str(b"hello".to_vec()));
    m.body.push(Value::ObjectPath(b"/a/b".to_vec()));
    m.body.push(Value::Signature(b"ii".to_vec()));
    let bytes = marshal(&m).unwrap();
    let (back, used) = unmarshal_message(&bytes).unwrap();
    assert_eq!(used, bytes.len());
    assert_eq!(back.body, m.body);
    assert_eq!(back.serial, m.serial);
}

#[test]
fn nested_containers_round_trip() {
    let mut m = call_msg();
    m.body.push(Value::Array(
        TypeSig::Int32,
        vec![Value::Int32(1), Value::Int32(-1), Value::Int32(5)],
    ));
    m.body.push(Value::Struct(vec![
        Value::Byte(9),
        Value::Str(b"inner".to_vec()),
        Value::Array(TypeSig::Uint64, vec![]),
    ]));
    m.body.push(Value::Variant(TypeSig::Str, Box::new(Value::Str(b"boxed".to_vec()))));
    m.body.push(Value::Array(
        TypeSig::Array(Box::new(TypeSig::Byte)),
        vec![
            Value::Array(TypeSig::Byte, vec![Value::Byte(1), Value::Byte(2)]),
            Value::Array(TypeSig::Byte, vec![]),
        ],
    ));
    m.body.push(Value::Dict(
        TypeSig::Str,
        TypeSig::Uint32,
        vec![
            (Value::Str(b"a".to_vec()), Value::Uint32(1)),
            (Value::Str(b"bb".to_vec()), Value::Uint32(2)),
        ],
    ));
    let bytes = marshal(&m).unwrap();
    let (back, used) = unmarshal_message(&bytes).unwrap();
    assert_eq!(used, bytes.len());
    assert_eq!(back.body, m.body);
    assert_eq!(back.member, m.member);
}

#[test]
fn incomplete_prefixes_are_detected() {
    let mut m = call_msg();
    m.body.push(Value::Uint32(5));
    let bytes = marshal(&m).unwrap();
    let total = bytes.len();
    for k in 0..16 {
        assert_eq!(bytes_needed(&bytes[..k]), Err(CodecError::Incomplete));
        assert!(unmarshal_header(&bytes[..k]).is_err());
    }
    for k in 16..total {
        // with the fixed header in hand the exact frame length is known,
        // and it exceeds every proper prefix
        assert_eq!(bytes_needed(&bytes[..k]), Ok(total));
        assert!(total > k);
        assert_eq!(unmarshal_message(&bytes[..k]).unwrap_err(), CodecError::Incomplete);
    }
    assert!(unmarshal_message(&bytes).is_ok());
}

#[test]
fn bad_marker_version_and_size_are_malformed() {
    let m = call_msg();
    let bytes = marshal(&m).unwrap();
    let mut bad = bytes.clone();
    bad[0] = 0x58;
    assert_eq!(bytes_needed(&bad), Err(CodecError::Malformed));
    assert_eq!(unmarshal_message(&bad).unwrap_err(), CodecError::Malformed);
    let mut bad_version = bytes.clone();
    bad_version[3] = 2;
    assert_eq!(bytes_needed(&bad_version), Err(CodecError::Malformed));
    let mut bad_kind = bytes.clone();
    bad_kind[1] = 0;
    assert_eq!(bytes_needed(&bad_kind), Err(CodecError::Malformed));
    let mut oversized = bytes.clone();
    oversized[4..8].copy_from_slice(&0xFFFF_FFF0u32.to_le_bytes());
    assert_eq!(bytes_needed(&oversized), Err(CodecError::Malformed));
}

#[test]
fn truncated_string_in_body_is_malformed() {
    let mut m = call_msg();
    m.body.push(Value::Str(b"hello".to_vec()));
    let mut bytes = marshal(&m).unwrap();
    // declare one more body byte than the frame carries and extend the
    // buffer so the length checks pass while the string overruns its region
    let total = bytes.len();
    let blen = u32::from_le_bytes([bytes[4], bytes[5], bytes[6], bytes[7]]);
    bytes[4..8].copy_from_slice(&(blen + 8).to_le_bytes());
    bytes.resize(total + 8, 0xEE);
    assert_eq!(unmarshal_message(&bytes).unwrap_err(), CodecError::Malformed);
}

#[test]
fn invalid_utf8_in_string_is_malformed() {
    let mut m = call_msg();
    m.body.push(Value::Str(b"abcd".to_vec()));
    let mut bytes = marshal(&m).unwrap();
    let n = bytes.len();
    // the body is the last region of the frame: corrupt one string byte
    // (the nul terminator sits last)
    bytes[n - 3] = 0xFF;
    assert_eq!(unmarshal_message(&bytes).unwrap_err(), CodecError::Malformed);
}

#[test]
fn serial_zero_decodes_as_unassigned() {
    let mut m = call_msg();
    m.serial = None;
    let bytes = marshal(&m).unwrap();
    assert_eq!(&bytes[8..12], &[0, 0, 0, 0]);
    let (back, _) = unmarshal_message(&bytes).unwrap();
    assert_eq!(back.serial, None);
}

#[test]
fn signature_render_and_parse_are_inverse() {
    let t = TypeSig::Array(Box::new(TypeSig::Dict(
        Box::new(TypeSig::Str),
        Box::new(TypeSig::Struct(vec![TypeSig::Int32, TypeSig::Variant])),
    )));
    let mut sig: Vec<u8> = Vec::new();
    t.render_sig(&mut sig);
    assert_eq!(sig, b"aa{s(iv)}".to_vec());
    let (back, used) = rsdbus::sig::parse_type_at(&sig, 0).unwrap();
    assert_eq!(used, sig.len());
    assert!(back.ty_eq(&t));
    assert!(rsdbus::sig::parse_type_at(b"a", 0).is_none());
    assert!(rsdbus::sig::parse_type_at(b"()", 0).is_none());
    assert!(rsdbus::sig::parse_type_at(b"a{vu}", 0).is_none());
}

#[test]
fn body_signature_concatenates_value_signatures() {
    let mut m = call_msg();
    assert_eq!(m.signature_bytes(), b"".to_vec());
    m.body.push(Value::Int32(1));
    m.body.push(Value::Array(TypeSig::Str, vec![]));
    m.body.push(Value::Struct(vec![Value::Byte(0), Value::Variant(
        TypeSig::Byte,
        Box::new(Value::Byte(1)),
    )]));
    assert_eq!(m.signature_bytes(), b"ias(yv)".to_vec());
}

#[test]
fn big_endian_frames_decode() {
    // a minimal big-endian frame: marker 'B', a signal, version 1, an empty
    // body, serial 9, and an empty header-fields array
    let frame: [u8; 16] = [66, 4, 0, 1, 0, 0, 0, 0, 0, 0, 0, 9, 0, 0, 0, 0];
    assert_eq!(bytes_needed(&frame), Ok(16));
    let (back, used) = unmarshal_message(&frame).unwrap();
    assert_eq!(used, 16);
    assert_eq!(back.kind, MessageKind::Signal);
    assert_eq!(back.serial, Some(9));
    assert_eq!(back.body.len(), 0);
    assert_eq!(back.path, None);
}

#[test]
fn well_formedness_check_judges_messages() {
    let mut m = call_msg();
    assert!(m.wf_msg_check());
    m.body.push(Value::Array(TypeSig::Int32, vec![Value::Int32(1)]));
    assert!(m.wf_msg_check());
    // a zero serial is not expressible on the wire
    m.serial = Some(0);
    assert!(!m.wf_msg_check());
    m.serial = Some(7);
    // an array element off the declared type is malformed
    m.body.push(Value::Array(TypeSig::Int32, vec![Value::Byte(1)]));
    assert!(!m.wf_msg_check());
    m.body.pop();
    // invalid UTF-8 in a header string is malformed
    m.member = Some(vec![0xFF, 0xFE]);
    assert!(!m.wf_msg_check());
}
