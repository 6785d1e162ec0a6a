use crate::sig::{sig_of_list};
use crate::value::{TyV, ValV, Value, string_bytes_ok, type_of, types_of, vals_view, wf_val};
use vstd::prelude::*;

verus! {

/// The kind of a bus frame. `Invalid` never appears on the wire: marshalling
/// is defined for the four real kinds only.
#[derive(Clone, Copy, Debug, PartialEq, Eq, Structural)]
pub enum MessageKind {
    MethodCall,
    MethodReturn,
    Error,
    Signal,
    Invalid,
}

/// One bus frame: its kind, header fields, and body. String-valued header
/// fields hold their UTF-8 bytes. A message is mutable until it is locked,
/// which happens when it is sent.
#[derive(Debug, PartialEq, Eq)]
pub struct DBusMessage {
    pub kind: MessageKind,
    pub flags: u8,
    pub serial: Option<u32>,
    pub reply_serial: Option<u32>,
    pub path: Option<Vec<u8>>,
    pub interface: Option<Vec<u8>>,
    pub member: Option<Vec<u8>>,
    pub error_name: Option<Vec<u8>>,
    pub destination: Option<Vec<u8>>,
    pub sender: Option<Vec<u8>>,
    pub body: Vec<Value>,
    pub locked: bool,
}

/// Mathematical model of a message.
pub struct MsgV {
    pub kind: MessageKind,
    pub flags: u8,
    pub serial: Option<u32>,
    pub reply_serial: Option<u32>,
    pub path: Option<Seq<u8>>,
    pub interface: Option<Seq<u8>>,
    pub member: Option<Seq<u8>>,
    pub error_name: Option<Seq<u8>>,
    pub destination: Option<Seq<u8>>,
    pub sender: Option<Seq<u8>>,
    pub body: Seq<ValV>,
}

pub open spec fn obv(o: Option<Vec<u8>>) -> Option<Seq<u8>> {
    match o {
        Some(v) => Some(v@),
        None => None,
    }
}

impl View for DBusMessage {
    type V = MsgV;

    open spec fn view(&self) -> MsgV {
        MsgV {
            kind: self.kind,
            flags: self.flags,
            serial: self.serial,
            reply_serial: self.reply_serial,
            path: obv(self.path),
            interface: obv(self.interface),
            member: obv(self.member),
            error_name: obv(self.error_name),
            destination: obv(self.destination),
            sender: obv(self.sender),
            body: vals_view(self.body@),
        }
    }
}

/// The signature bytes of a message body: the concatenated signatures of its
/// top-level values.
pub open spec fn body_sig(m: MsgV) -> Seq<u8> {
    sig_of_list(types_of(m.body))
}

pub open spec fn str_field_ok(o: Option<Seq<u8>>) -> bool {
    match o {
        Some(bs) => string_bytes_ok(bs),
        None => true,
    }
}

/// A well-formed message: one of the four real kinds, a nonzero serial if
/// one is assigned, well-formed header strings, a well-formed body whose
/// signature fits the signature header field.
pub open spec fn wf_msg(m: MsgV) -> bool {
    &&& m.kind != MessageKind::Invalid
    &&& m.serial != Some(0u32)
    &&& str_field_ok(m.path)
    &&& str_field_ok(m.interface)
    &&& str_field_ok(m.member)
    &&& str_field_ok(m.error_name)
    &&& str_field_ok(m.destination)
    &&& str_field_ok(m.sender)
    &&& (forall|i: int| 0 <= i < m.body.len() ==> wf_val(#[trigger] m.body[i]))
    &&& body_sig(m).len() <= 255
}

// ---------------------------------------------------------------------------
// The header-fields array: code/variant entries in a fixed emission order
// ---------------------------------------------------------------------------

pub const FIELD_PATH: u8 = 1;

pub const FIELD_INTERFACE: u8 = 2;

pub const FIELD_MEMBER: u8 = 3;

pub const FIELD_ERROR_NAME: u8 = 4;

pub const FIELD_REPLY_SERIAL: u8 = 5;

pub const FIELD_DESTINATION: u8 = 6;

pub const FIELD_SENDER: u8 = 7;

pub const FIELD_SIGNATURE: u8 = 8;

/// One entry of the header-fields array: a struct of the field code and a
/// variant holding the field value.
pub open spec fn field_entry(code: u8, v: ValV) -> ValV {
    ValV::Struct(seq![ValV::Byte(code), ValV::Variant(type_of(v), Box::new(v))])
}

/// The element type of the header-fields array.
pub open spec fn field_entry_ty() -> TyV {
    TyV::Struct(seq![TyV::Byte, TyV::Variant])
}

/// The header fields a message emits, in the fixed order: path, interface,
/// member, error name, reply serial, destination, sender, and — for a
/// non-empty body — the body signature.
pub open spec fn header_fields(m: MsgV) -> Seq<ValV> {
    let l0 = Seq::<ValV>::empty();
    let l1 = if m.path is Some {
        l0.push(field_entry(FIELD_PATH, ValV::ObjectPath(m.path->0)))
    } else {
        l0
    };
    let l2 = if m.interface is Some {
        l1.push(field_entry(FIELD_INTERFACE, ValV::Str(m.interface->0)))
    } else {
        l1
    };
    let l3 = if m.member is Some {
        l2.push(field_entry(FIELD_MEMBER, ValV::Str(m.member->0)))
    } else {
        l2
    };
    let l4 = if m.error_name is Some {
        l3.push(field_entry(FIELD_ERROR_NAME, ValV::Str(m.error_name->0)))
    } else {
        l3
    };
    let l5 = if m.reply_serial is Some {
        l4.push(field_entry(FIELD_REPLY_SERIAL, ValV::Uint32(m.reply_serial->0)))
    } else {
        l4
    };
    let l6 = if m.destination is Some {
        l5.push(field_entry(FIELD_DESTINATION, ValV::Str(m.destination->0)))
    } else {
        l5
    };
    let l7 = if m.sender is Some {
        l6.push(field_entry(FIELD_SENDER, ValV::Str(m.sender->0)))
    } else {
        l6
    };
    let l8 = if m.body.len() > 0 {
        l7.push(field_entry(FIELD_SIGNATURE, ValV::Signature(body_sig(m))))
    } else {
        l7
    };
    l8
}

/// The whole header-fields array as one wire value.
pub open spec fn fields_value(m: MsgV) -> ValV {
    ValV::Array(field_entry_ty(), header_fields(m))
}

// ---------------------------------------------------------------------------
// Interpreting a decoded header-fields array
// ---------------------------------------------------------------------------

/// The header fields collected while walking a decoded fields array.
pub struct HdrV {
    pub path: Option<Seq<u8>>,
    pub interface: Option<Seq<u8>>,
    pub member: Option<Seq<u8>>,
    pub error_name: Option<Seq<u8>>,
    pub reply_serial: Option<u32>,
    pub destination: Option<Seq<u8>>,
    pub sender: Option<Seq<u8>>,
    pub sig: Seq<u8>,
}

pub open spec fn hdr_empty() -> HdrV {
    HdrV {
        path: None,
        interface: None,
        member: None,
        error_name: None,
        reply_serial: None,
        destination: None,
        sender: None,
        sig: Seq::empty(),
    }
}

/// The shape of one fields-array entry: its code and the value inside its
/// variant.
pub open spec fn entry_shape(e: ValV) -> Option<(u8, ValV)> {
    match e {
        ValV::Struct(ms) => if ms.len() == 2 {
            match (ms[0], ms[1]) {
                (ValV::Byte(c), ValV::Variant(t, b)) => Some((c, *b)),
                _ => None,
            }
        } else {
            None
        },
        _ => None,
    }
}

/// Records one header field. A known code with a value of the wrong type is
/// a protocol violation; an unknown code is ignored; a repeated code keeps
/// the later occurrence.
pub open spec fn hdr_apply(acc: HdrV, code: u8, v: ValV) -> Option<HdrV> {
    if code == FIELD_PATH {
        match v {
            ValV::ObjectPath(bs) => Some(HdrV { path: Some(bs), ..acc }),
            _ => None,
        }
    } else if code == FIELD_INTERFACE {
        match v {
            ValV::Str(bs) => Some(HdrV { interface: Some(bs), ..acc }),
            _ => None,
        }
    } else if code == FIELD_MEMBER {
        match v {
            ValV::Str(bs) => Some(HdrV { member: Some(bs), ..acc }),
            _ => None,
        }
    } else if code == FIELD_ERROR_NAME {
        match v {
            ValV::Str(bs) => Some(HdrV { error_name: Some(bs), ..acc }),
            _ => None,
        }
    } else if code == FIELD_REPLY_SERIAL {
        match v {
            ValV::Uint32(x) => Some(HdrV { reply_serial: Some(x), ..acc }),
            _ => None,
        }
    } else if code == FIELD_DESTINATION {
        match v {
            ValV::Str(bs) => Some(HdrV { destination: Some(bs), ..acc }),
            _ => None,
        }
    } else if code == FIELD_SENDER {
        match v {
            ValV::Str(bs) => Some(HdrV { sender: Some(bs), ..acc }),
            _ => None,
        }
    } else if code == FIELD_SIGNATURE {
        match v {
            ValV::Signature(bs) => Some(HdrV { sig: bs, ..acc }),
            _ => None,
        }
    } else {
        Some(acc)
    }
}

/// Walks the entries of a decoded fields array front to back, collecting the
/// header fields.
pub open spec fn interp_entries(es: Seq<ValV>, acc: HdrV) -> Option<HdrV>
    decreases es.len(),
{
    if es.len() == 0 {
        Some(acc)
    } else {
        match entry_shape(es.first()) {
            Some((code, v)) => match hdr_apply(acc, code, v) {
                Some(a2) => interp_entries(es.drop_first(), a2),
                None => None,
            },
            None => None,
        }
    }
}

/// Appending one entry to the walked list applies it last.
pub proof fn lemma_interp_push(es: Seq<ValV>, e: ValV, acc: HdrV)
    ensures
        interp_entries(es.push(e), acc) == (match interp_entries(es, acc) {
            Some(a) => match entry_shape(e) {
                Some((code, v)) => hdr_apply(a, code, v),
                None => None,
            },
            None => None,
        }),
    decreases es.len(),
{
    if es.len() == 0 {
        assert(es.push(e).first() == e);
        assert(es.push(e).drop_first() =~= Seq::<ValV>::empty());
        if entry_shape(e) is Some {
            let (code, v) = entry_shape(e)->0;
            if hdr_apply(acc, code, v) is Some {
                assert(interp_entries(Seq::<ValV>::empty(), hdr_apply(acc, code, v)->0)
                    == Some(hdr_apply(acc, code, v)->0));
            }
        }
    } else {
        assert(es.push(e).first() == es.first());
        assert(es.push(e).drop_first() =~= es.drop_first().push(e));
        match entry_shape(es.first()) {
            Some((code, v)) => {
                match hdr_apply(acc, code, v) {
                    Some(a2) => {
                        lemma_interp_push(es.drop_first(), e, a2);
                    },
                    None => {},
                }
            },
            None => {},
        }
    }
}

/// Interpreting the fields a well-formed message emits recovers exactly the
/// message's header fields.
pub proof fn lemma_interp_header_fields(m: MsgV)
    ensures
        interp_entries(header_fields(m), hdr_empty()) == Some(
            HdrV {
                path: m.path,
                interface: m.interface,
                member: m.member,
                error_name: m.error_name,
                reply_serial: m.reply_serial,
                destination: m.destination,
                sender: m.sender,
                sig: if m.body.len() > 0 {
                    body_sig(m)
                } else {
                    Seq::empty()
                },
            },
        ),
{
    let l0 = Seq::<ValV>::empty();
    let l1 = if m.path is Some {
        l0.push(field_entry(FIELD_PATH, ValV::ObjectPath(m.path->0)))
    } else {
        l0
    };
    let l2 = if m.interface is Some {
        l1.push(field_entry(FIELD_INTERFACE, ValV::Str(m.interface->0)))
    } else {
        l1
    };
    let l3 = if m.member is Some {
        l2.push(field_entry(FIELD_MEMBER, ValV::Str(m.member->0)))
    } else {
        l2
    };
    let l4 = if m.error_name is Some {
        l3.push(field_entry(FIELD_ERROR_NAME, ValV::Str(m.error_name->0)))
    } else {
        l3
    };
    let l5 = if m.reply_serial is Some {
        l4.push(field_entry(FIELD_REPLY_SERIAL, ValV::Uint32(m.reply_serial->0)))
    } else {
        l4
    };
    let l6 = if m.destination is Some {
        l5.push(field_entry(FIELD_DESTINATION, ValV::Str(m.destination->0)))
    } else {
        l5
    };
    let l7 = if m.sender is Some {
        l6.push(field_entry(FIELD_SENDER, ValV::Str(m.sender->0)))
    } else {
        l6
    };
    if m.path is Some {
        lemma_interp_push(l0, field_entry(FIELD_PATH, ValV::ObjectPath(m.path->0)), hdr_empty());
    }
    let a1 = interp_entries(l1, hdr_empty());
    if m.interface is Some {
        lemma_interp_push(l1, field_entry(FIELD_INTERFACE, ValV::Str(m.interface->0)), hdr_empty());
    }
    let a2 = interp_entries(l2, hdr_empty());
    if m.member is Some {
        lemma_interp_push(l2, field_entry(FIELD_MEMBER, ValV::Str(m.member->0)), hdr_empty());
    }
    let a3 = interp_entries(l3, hdr_empty());
    if m.error_name is Some {
        lemma_interp_push(l3, field_entry(FIELD_ERROR_NAME, ValV::Str(m.error_name->0)), hdr_empty());
    }
    let a4 = interp_entries(l4, hdr_empty());
    if m.reply_serial is Some {
        lemma_interp_push(
            l4,
            field_entry(FIELD_REPLY_SERIAL, ValV::Uint32(m.reply_serial->0)),
            hdr_empty(),
        );
    }
    let a5 = interp_entries(l5, hdr_empty());
    if m.destination is Some {
        lemma_interp_push(
            l5,
            field_entry(FIELD_DESTINATION, ValV::Str(m.destination->0)),
            hdr_empty(),
        );
    }
    let a6 = interp_entries(l6, hdr_empty());
    if m.sender is Some {
        lemma_interp_push(l6, field_entry(FIELD_SENDER, ValV::Str(m.sender->0)), hdr_empty());
    }
    let a7 = interp_entries(l7, hdr_empty());
    if m.body.len() > 0 {
        lemma_interp_push(l7, field_entry(FIELD_SIGNATURE, ValV::Signature(body_sig(m))), hdr_empty());
    }
}

// ---------------------------------------------------------------------------
// Construction
// ---------------------------------------------------------------------------

impl DBusMessage {
    /// A fresh, unlocked message of the given kind with no headers and no
    /// body.
    pub fn new(kind: MessageKind) -> (r: DBusMessage)
        ensures
            r@.kind == kind,
            r@.serial is None,
            r@.reply_serial is None,
            r@.path is None,
            r@.interface is None,
            r@.member is None,
            r@.error_name is None,
            r@.destination is None,
            r@.sender is None,
            r@.body.len() == 0,
            !r.locked,
            r@.flags == 0u8,
    {
        let r = DBusMessage {
            kind,
            flags: 0,
            serial: None,
            reply_serial: None,
            path: None,
            interface: None,
            member: None,
            error_name: None,
            destination: None,
            sender: None,
            body: Vec::new(),
            locked: false,
        };
        proof {
            assert(vals_view(Seq::<Value>::empty()) =~= Seq::<ValV>::empty());
        }
        r
    }

    /// A method call addressed at `destination`, on object `path`, interface
    /// `interface`, member `member`, with an empty body.
    pub fn new_method_call(
        destination: Vec<u8>,
        path: Vec<u8>,
        interface: Vec<u8>,
        member: Vec<u8>,
    ) -> (r: DBusMessage)
        ensures
            r@.kind == MessageKind::MethodCall,
            r@.destination == Some(destination@),
            r@.path == Some(path@),
            r@.interface == Some(interface@),
            r@.member == Some(member@),
            r@.serial is None,
            r@.reply_serial is None,
            r@.error_name is None,
            r@.sender is None,
            r@.body.len() == 0,
            !r.locked,
            r@.flags == 0u8,
    {
        let mut r = DBusMessage::new(MessageKind::MethodCall);
        r.destination = Some(destination);
        r.path = Some(path);
        r.interface = Some(interface);
        r.member = Some(member);
        r
    }

    /// A signal on object `path`, interface `interface`, member `member`.
    pub fn new_signal(path: Vec<u8>, interface: Vec<u8>, member: Vec<u8>) -> (r: DBusMessage)
        ensures
            r@.kind == MessageKind::Signal,
            r@.path == Some(path@),
            r@.interface == Some(interface@),
            r@.member == Some(member@),
            r@.serial is None,
            r@.reply_serial is None,
            r@.destination is None,
            r@.error_name is None,
            r@.sender is None,
            r@.body.len() == 0,
            !r.locked,
    {
        let mut r = DBusMessage::new(MessageKind::Signal);
        r.path = Some(path);
        r.interface = Some(interface);
        r.member = Some(member);
        r
    }

    /// The reply to a method call: a method return whose reply serial is the
    /// call's serial and whose destination is the call's sender.
    pub fn new_method_return(call: &DBusMessage) -> (r: DBusMessage)
        ensures
            r@.kind == MessageKind::MethodReturn,
            r@.reply_serial == call@.serial,
            r@.destination == call@.sender,
            r@.serial is None,
            r@.body.len() == 0,
            !r.locked,
    {
        let mut r = DBusMessage::new(MessageKind::MethodReturn);
        r.reply_serial = match &call.serial {
            Some(x) => Some(*x),
            None => None,
        };
        r.destination = match &call.sender {
            Some(v) => Some(crate::unmarshal::copy_range(v.as_slice(), 0, v.len())),
            None => None,
        };
        proof {
            if call.sender is Some {
                assert(obv(r.destination)->0 =~= obv(call.sender)->0);
            }
        }
        r
    }

    /// The error reply to a method call, named `error_name`, carrying
    /// `error_text` as its single string body value.
    pub fn new_error(call: &DBusMessage, error_name: Vec<u8>, error_text: Vec<u8>) -> (r:
        DBusMessage)
        ensures
            r@.kind == MessageKind::Error,
            r@.reply_serial == call@.serial,
            r@.destination == call@.sender,
            r@.error_name == Some(error_name@),
            r@.body == seq![ValV::Str(error_text@)],
            r@.serial is None,
            !r.locked,
    {
        let mut r = DBusMessage::new_method_return(call);
        r.kind = MessageKind::Error;
        r.error_name = Some(error_name);
        let ghost empty_body = r.body@;
        r.body.push(Value::Str(error_text));
        proof {
            crate::value::lemma_vals_view(r.body@);
            assert(vals_view(r.body@) =~= seq![ValV::Str(error_text@)]);
        }
        r
    }

    /// Stamps the serial. The message must not be locked: once sent, a
    /// message is immutable.
    pub fn set_serial(&mut self, serial: u32)
        requires
            !old(self).locked,
        ensures
            *final(self) == (DBusMessage { serial: Some(serial), ..*old(self) }),
    {
        self.serial = Some(serial);
    }

    /// Sets the reply serial used for correlation. The message must not be
    /// locked.
    pub fn set_reply_serial(&mut self, reply_serial: u32)
        requires
            !old(self).locked,
        ensures
            *final(self) == (DBusMessage { reply_serial: Some(reply_serial), ..*old(self) }),
    {
        self.reply_serial = Some(reply_serial);
    }

    /// Sets the object path. The message must not be locked.
    pub fn set_path(&mut self, path: Vec<u8>)
        requires
            !old(self).locked,
        ensures
            final(self)@ == (MsgV { path: Some(path@), ..old(self)@ }),
            !final(self).locked,
    {
        self.path = Some(path);
    }

    /// Sets the interface name. The message must not be locked.
    pub fn set_interface(&mut self, interface: Vec<u8>)
        requires
            !old(self).locked,
        ensures
            final(self)@ == (MsgV { interface: Some(interface@), ..old(self)@ }),
            !final(self).locked,
    {
        self.interface = Some(interface);
    }

    /// Sets the member name. The message must not be locked.
    pub fn set_member(&mut self, member: Vec<u8>)
        requires
            !old(self).locked,
        ensures
            final(self)@ == (MsgV { member: Some(member@), ..old(self)@ }),
            !final(self).locked,
    {
        self.member = Some(member);
    }

    /// Sets the error name. The message must not be locked.
    pub fn set_error_name(&mut self, error_name: Vec<u8>)
        requires
            !old(self).locked,
        ensures
            final(self)@ == (MsgV { error_name: Some(error_name@), ..old(self)@ }),
            !final(self).locked,
    {
        self.error_name = Some(error_name);
    }

    /// Sets the destination bus name. The message must not be locked.
    pub fn set_destination(&mut self, destination: Vec<u8>)
        requires
            !old(self).locked,
        ensures
            final(self)@ == (MsgV { destination: Some(destination@), ..old(self)@ }),
            !final(self).locked,
    {
        self.destination = Some(destination);
    }

    /// Sets the sender bus name. The message must not be locked.
    pub fn set_sender(&mut self, sender: Vec<u8>)
        requires
            !old(self).locked,
        ensures
            final(self)@ == (MsgV { sender: Some(sender@), ..old(self)@ }),
            !final(self).locked,
    {
        self.sender = Some(sender);
    }

    /// Marks the message immutable: a sent or frozen message must not change.
    pub fn lock(&mut self)
        ensures
            *final(self) == (DBusMessage { locked: true, ..*old(self) }),
    {
        self.locked = true;
    }

    /// Appends one value to the body. The message must not be locked.
    pub fn push_value(&mut self, v: Value)
        requires
            !old(self).locked,
        ensures
            final(self)@ == (MsgV { body: old(self)@.body.push(v@), ..old(self)@ }),
            *final(self) == (DBusMessage { body: final(self).body, ..*old(self) }),
            final(self).body@ == old(self).body@.push(v),
    {
        proof {
            crate::value::lemma_vals_view(self.body@);
            crate::value::lemma_vals_view(self.body@.push(v));
            assert(vals_view(self.body@.push(v)) =~= vals_view(self.body@).push(crate::value::val_view(v)));
        }
        self.body.push(v);
    }
}

/// Fills an error record from an error message: the record takes the
/// message's error name (or stays nameless) and, when the first body value
/// is a string, that string as its text. A message of any other kind leaves
/// the record untouched.
pub fn set_error_from_message(err: &mut crate::error::DBusError, msg: &DBusMessage) -> (r: bool)
    ensures
        r == (msg@.kind == MessageKind::Error),
        !r ==> *final(err) == *old(err),
        r ==> final(err).is_set && final(err).name@ == (match msg@.error_name {
            Some(n) => n,
            None => Seq::<u8>::empty(),
        }) && final(err).error@ == (if msg@.body.len() > 0 && msg@.body[0] is Str {
            msg@.body[0]->Str_0
        } else {
            old(err).error@
        }),
{
    match msg.kind {
        MessageKind::Error => {},
        _ => {
            return false;
        },
    }
    err.is_set = true;
    err.name = match &msg.error_name {
        Some(n) => crate::value::copy_bytes(n),
        None => Vec::new(),
    };
    proof {
        if msg.error_name is None {
            assert(err.name@ =~= Seq::<u8>::empty());
        }
        crate::value::lemma_vals_view(msg.body@);
    }
    if msg.body.len() > 0 {
        match &msg.body[0] {
            Value::Str(text) => {
                err.error = crate::value::copy_bytes(text);
            },
            _ => {},
        }
    }
    true
}

} // verus!
