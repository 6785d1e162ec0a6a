use rsdbus::error::IterError;
use rsdbus::iter::{AppendCursor, ContainerKind, ReadCursor};
use rsdbus::message::{DBusMessage, MessageKind};
use rsdbus::value::{TypeSig, Value};

#[test]
fn append_then_read_yields_same_values_in_order() {
    let msg = DBusMessage::new(MessageKind::Signal);
    let mut c = AppendCursor::init_append(msg);
    c.append_basic(Value::Int32(5)).unwrap();
    c.append_basic(Value::Str(b"x".to_vec())).unwrap();
    let msg = c.finish();
    assert_eq!(msg.body, vec![Value::Int32(5), Value::Str(b"x".to_vec())]);

    let mut r = ReadCursor::init_read(&msg);
    assert_eq!(r.read_basic().unwrap(), Value::Int32(5));
    assert!(r.has_next());
    assert!(r.advance());
    assert_eq!(r.read_basic().unwrap(), Value::Str(b"x".to_vec()));
    assert!(!r.has_next());
    assert!(!r.advance());
    assert!(r.finished());
    assert_eq!(r.read_basic().unwrap_err(), IterError::TypeMismatch);
}

#[test]
fn array_close_carries_the_declared_element_type() {
    let msg = DBusMessage::new(MessageKind::Signal);
    let mut c = AppendCursor::init_append(msg);
    c.open_container(ContainerKind::Array, Some(TypeSig::Int32)).unwrap();
    c.append_basic(Value::Int32(1)).unwrap();
    c.append_basic(Value::Int32(2)).unwrap();
    c.close_container().unwrap();
    let msg = c.finish();
    assert_eq!(msg.body.len(), 1);
    let sig = msg.body[0].signature_of();
    assert!(sig.ty_eq(&TypeSig::Array(Box::new(TypeSig::Int32))));
}

#[test]
fn array_close_rejects_mixed_element_types() {
    let msg = DBusMessage::new(MessageKind::Signal);
    let mut c = AppendCursor::init_append(msg);
    c.open_container(ContainerKind::Array, Some(TypeSig::Int32)).unwrap();
    c.append_basic(Value::Int32(1)).unwrap();
    c.append_basic(Value::Str(b"oops".to_vec())).unwrap();
    assert_eq!(c.close_container().unwrap_err(), IterError::TypeMismatch);
}

#[test]
fn empty_array_keeps_its_type() {
    let msg = DBusMessage::new(MessageKind::Signal);
    let mut c = AppendCursor::init_append(msg);
    c.open_container(ContainerKind::Array, Some(TypeSig::Uint64)).unwrap();
    c.close_container().unwrap();
    let msg = c.finish();
    let sig = msg.body[0].signature_of();
    assert!(sig.ty_eq(&TypeSig::Array(Box::new(TypeSig::Uint64))));
}

#[test]
fn variant_close_requires_exactly_one_value() {
    let msg = DBusMessage::new(MessageKind::Signal);
    let mut c = AppendCursor::init_append(msg);
    c.open_container(ContainerKind::Variant, None).unwrap();
    assert_eq!(c.close_container().unwrap_err(), IterError::TypeMismatch);
    c.append_basic(Value::Uint32(9)).unwrap();
    c.close_container().unwrap();
    let msg = c.finish();
    assert_eq!(
        msg.body[0],
        Value::Variant(TypeSig::Uint32, Box::new(Value::Uint32(9)))
    );
}

#[test]
fn nested_struct_builds_bottom_up() {
    let msg = DBusMessage::new(MessageKind::Signal);
    let mut c = AppendCursor::init_append(msg);
    c.open_container(ContainerKind::Struct, None).unwrap();
    c.append_basic(Value::Byte(1)).unwrap();
    c.open_container(ContainerKind::Array, Some(TypeSig::Str)).unwrap();
    c.append_basic(Value::Str(b"in".to_vec())).unwrap();
    c.close_container().unwrap();
    c.close_container().unwrap();
    let msg = c.finish();
    assert_eq!(
        msg.body[0],
        Value::Struct(vec![
            Value::Byte(1),
            Value::Array(TypeSig::Str, vec![Value::Str(b"in".to_vec())]),
        ])
    );
}

#[test]
fn dict_containers_cannot_be_built() {
    let msg = DBusMessage::new(MessageKind::Signal);
    let mut c = AppendCursor::init_append(msg);
    assert_eq!(
        c.open_container(ContainerKind::Dict, None).unwrap_err(),
        IterError::Unsupported
    );
}

#[test]
fn close_without_open_is_an_error() {
    let msg = DBusMessage::new(MessageKind::Signal);
    let mut c = AppendCursor::init_append(msg);
    assert_eq!(c.close_container().unwrap_err(), IterError::Closed);
}

#[test]
fn append_basic_refuses_containers() {
    let msg = DBusMessage::new(MessageKind::Signal);
    let mut c = AppendCursor::init_append(msg);
    assert_eq!(
        c.append_basic(Value::Struct(vec![Value::Byte(1)])).unwrap_err(),
        IterError::TypeMismatch
    );
}

#[test]
fn read_cursor_recurses_into_containers() {
    let mut msg = DBusMessage::new(MessageKind::Signal);
    msg.body.push(Value::Array(
        TypeSig::Int32,
        vec![Value::Int32(10), Value::Int32(20)],
    ));
    msg.body.push(Value::Variant(
        TypeSig::Str,
        Box::new(Value::Str(b"v".to_vec())),
    ));
    let mut r = ReadCursor::init_read(&msg);
    let mut sub = r.recurse().unwrap();
    assert_eq!(sub.read_basic().unwrap(), Value::Int32(10));
    assert!(sub.advance());
    assert_eq!(sub.read_basic().unwrap(), Value::Int32(20));
    assert!(!sub.advance());
    assert!(r.advance());
    let sub2 = r.recurse().unwrap();
    assert_eq!(sub2.read_basic().unwrap(), Value::Str(b"v".to_vec()));
}

#[test]
fn dict_entries_read_as_pseudo_containers() {
    let mut msg = DBusMessage::new(MessageKind::Signal);
    msg.body.push(Value::Dict(
        TypeSig::Str,
        TypeSig::Uint32,
        vec![
            (Value::Str(b"k1".to_vec()), Value::Uint32(1)),
            (Value::Str(b"k2".to_vec()), Value::Uint32(2)),
        ],
    ));
    let r = ReadCursor::init_read(&msg);
    let mut entries = r.recurse().unwrap();
    let mut first = entries.recurse().unwrap();
    assert_eq!(first.read_basic().unwrap(), Value::Str(b"k1".to_vec()));
    assert!(first.advance());
    assert_eq!(first.read_basic().unwrap(), Value::Uint32(1));
    assert!(entries.advance());
    let mut second = entries.recurse().unwrap();
    assert_eq!(second.read_basic().unwrap(), Value::Str(b"k2".to_vec()));
    assert!(second.advance());
    assert_eq!(second.read_basic().unwrap(), Value::Uint32(2));
    assert!(!entries.advance());
}

#[test]
fn recurse_on_a_basic_value_is_an_error() {
    let mut msg = DBusMessage::new(MessageKind::Signal);
    msg.body.push(Value::Byte(1));
    let r = ReadCursor::init_read(&msg);
    match r.recurse() {
        Err(e) => assert_eq!(e, IterError::TypeMismatch),
        Ok(_) => panic!("recursing into a byte must fail"),
    }
}

#[test]
fn current_types_report_the_walk() {
    let mut msg = DBusMessage::new(MessageKind::Signal);
    msg.body.push(Value::Array(TypeSig::Byte, vec![]));
    msg.body.push(Value::Int16(3));
    let mut r = ReadCursor::init_read(&msg);
    assert!(r.current_type().unwrap().ty_eq(&TypeSig::Array(Box::new(TypeSig::Byte))));
    assert!(r.current_element_type().unwrap().ty_eq(&TypeSig::Byte));
    assert!(r.advance());
    assert!(r.current_type().unwrap().ty_eq(&TypeSig::Int16));
    assert!(r.current_element_type().is_none());
    assert!(!r.advance());
    assert!(r.current_type().is_none());
}
