use crate::error::{CodecError, MarshalError};
use crate::marshal::{marshal_vals, sm_fits, sm_val, sm_vals, sm_vals_fit};
use crate::message::{DBusMessage, FIELD_DESTINATION, FIELD_ERROR_NAME, FIELD_INTERFACE,
    FIELD_MEMBER, FIELD_PATH, FIELD_REPLY_SERIAL, FIELD_SENDER, FIELD_SIGNATURE, HdrV, MessageKind,
    MsgV, body_sig, entry_shape, field_entry, field_entry_ty, fields_value, hdr_apply, hdr_empty,
    header_fields, interp_entries, lemma_interp_header_fields, obv, wf_msg};
use crate::roundtrip::{lemma_rt_fields, lemma_rt_val, lemma_wf_ty_of};
use crate::sig::{lemma_sig_all_roundtrip, lemma_sig_of_list_push, parse_sig_all, parse_sig_list,
    sig_of, sig_of_list};
use crate::unmarshal::{copy_range, parse_fields_rec, parse_value, pv_fields, pv_val};
use crate::value::{TypeSig, TyV, ValV, Value, lemma_types_of, lemma_tys_view, lemma_vals_view,
    nul_free, type_of, types_of, ty_view, tys_view, val_view, vals_view, wf_ty, wf_val};
use crate::wire::{ByteOrder, le32, lemma_pad_len, lemma_rd_le32, pad_len, pad_seq, push_pad,
    push_u32, rd32, read_u32, write_u32_at};
use vstd::prelude::*;

verus! {

/// The largest frame this engine accepts or produces, guarding against
/// unbounded allocation from hostile declared lengths.
pub const MAX_MESSAGE_LEN: usize = 0x0800_0000;

/// The byte-order markers and protocol version of the fixed header.
pub const ENDIAN_LITTLE: u8 = 108;

pub const ENDIAN_BIG: u8 = 66;

pub const PROTOCOL_VERSION: u8 = 1;

/// The small integer tag of a message kind on the wire.
pub open spec fn kind_code(k: MessageKind) -> u8 {
    match k {
        MessageKind::MethodCall => 1,
        MessageKind::MethodReturn => 2,
        MessageKind::Error => 3,
        MessageKind::Signal => 4,
        MessageKind::Invalid => 0,
    }
}

pub open spec fn code_kind(c: u8) -> Option<MessageKind> {
    if c == 1 {
        Some(MessageKind::MethodCall)
    } else if c == 2 {
        Some(MessageKind::MethodReturn)
    } else if c == 3 {
        Some(MessageKind::Error)
    } else if c == 4 {
        Some(MessageKind::Signal)
    } else {
        None
    }
}

pub open spec fn serial_word(m: MsgV) -> u32 {
    match m.serial {
        Some(x) => x,
        None => 0,
    }
}

// ---------------------------------------------------------------------------
// The frame serialization model
// ---------------------------------------------------------------------------

/// One whole little-endian frame: the sixteen-byte fixed header (byte-order
/// marker, kind, flags, protocol version, body length, serial, and the
/// length field of the header-fields array), the header-fields array, padding
/// to eight bytes, and the body.
pub open spec fn sm_msg(m: MsgV) -> Seq<u8> {
    let fb = sm_val(fields_value(m), 12);
    let fe = 12 + fb.len() as int;
    let bstart = fe + pad_len(fe, 8);
    let bb = sm_vals(m.body, bstart);
    seq![ENDIAN_LITTLE, kind_code(m.kind), m.flags, PROTOCOL_VERSION] + le32(bb.len() as u32)
        + le32(serial_word(m)) + fb + pad_seq(fe, 8) + bb
}

/// The offset where the body of `m`'s frame starts.
pub open spec fn body_start(m: MsgV) -> int {
    let fe = 12 + sm_val(fields_value(m), 12).len() as int;
    fe + pad_len(fe, 8)
}

/// Whether `m`'s frame is expressible: the header-fields array and every
/// bounded length field inside fit, the body length fits its field, and the
/// whole frame respects the maximum message size.
pub open spec fn frame_fits(m: MsgV) -> bool {
    &&& sm_fits(fields_value(m), 12)
    &&& sm_vals_fit(m.body, body_start(m))
    &&& sm_vals(m.body, body_start(m)).len() <= 0xFFFF_FFFF
    &&& sm_msg(m).len() <= MAX_MESSAGE_LEN
}

// ---------------------------------------------------------------------------
// The frame parsing model
// ---------------------------------------------------------------------------

/// How many bytes the frame starting at the front of `s` occupies, judged
/// from its fixed header alone: more input is needed below sixteen bytes, a
/// bad marker, version, kind tag or oversized declared length is a protocol
/// violation, and otherwise the total frame length is known.
pub open spec fn bn_msg(s: Seq<u8>) -> Result<int, CodecError> {
    if s.len() < 16 {
        Err(CodecError::Incomplete)
    } else if s[0] != ENDIAN_LITTLE && s[0] != ENDIAN_BIG {
        Err(CodecError::Malformed)
    } else {
        let bo = if s[0] == ENDIAN_LITTLE {
            ByteOrder::Little
        } else {
            ByteOrder::Big
        };
        if code_kind(s[1]) is None || s[3] != PROTOCOL_VERSION {
            Err(CodecError::Malformed)
        } else {
            let blen = rd32(s.subrange(4, 8), bo) as int;
            let flen = rd32(s.subrange(12, 16), bo) as int;
            if blen > MAX_MESSAGE_LEN || flen > MAX_MESSAGE_LEN {
                Err(CodecError::Malformed)
            } else {
                let fe = 16 + flen;
                Ok(fe + pad_len(fe, 8) + blen)
            }
        }
    }
}

/// Parses one whole frame at the front of `s`: on success yields the message
/// and the frame's length. `Incomplete` asks the caller to wait for more
/// bytes; `Malformed` condemns the frame.
pub open spec fn pm_msg(s: Seq<u8>) -> Result<(MsgV, int), CodecError> {
    match bn_msg(s) {
        Err(e) => Err(e),
        Ok(total) => if s.len() < total {
            Err(CodecError::Incomplete)
        } else {
            let bo = if s[0] == ENDIAN_LITTLE {
                ByteOrder::Little
            } else {
                ByteOrder::Big
            };
            let blen = rd32(s.subrange(4, 8), bo) as int;
            let serw = rd32(s.subrange(8, 12), bo);
            let flen = rd32(s.subrange(12, 16), bo) as int;
            let fe = 16 + flen;
            let bstart = fe + pad_len(fe, 8);
            match pv_val(TyV::Array(Box::new(field_entry_ty())), s, bo, 12, fe) {
                Some((fv, fpos)) => if fpos == fe {
                    match fv {
                        ValV::Array(t, entries) => match interp_entries(entries, hdr_empty()) {
                            Some(h) => match parse_sig_all(h.sig, 0) {
                                Some(ts) => match pv_fields(ts, s, bo, bstart, total, Seq::empty()) {
                                    Some((body, bend)) => if bend == total {
                                        Ok(
                                            (
                                                MsgV {
                                                    kind: code_kind(s[1])->0,
                                                    flags: s[2],
                                                    serial: if serw == 0 {
                                                        None
                                                    } else {
                                                        Some(serw)
                                                    },
                                                    reply_serial: h.reply_serial,
                                                    path: h.path,
                                                    interface: h.interface,
                                                    member: h.member,
                                                    error_name: h.error_name,
                                                    destination: h.destination,
                                                    sender: h.sender,
                                                    body: body,
                                                },
                                                total,
                                            ),
                                        )
                                    } else {
                                        Err(CodecError::Malformed)
                                    },
                                    None => Err(CodecError::Malformed),
                                },
                                None => Err(CodecError::Malformed),
                            },
                            None => Err(CodecError::Malformed),
                        },
                        _ => Err(CodecError::Malformed),
                    }
                } else {
                    Err(CodecError::Malformed)
                },
                None => Err(CodecError::Malformed),
            }
        },
    }
}

// ---------------------------------------------------------------------------
// Well-formedness of the emitted header fields
// ---------------------------------------------------------------------------

/// The signature alphabet holds no nul byte.
pub proof fn lemma_sig_nul_free(t: TyV)
    ensures
        nul_free(sig_of(t)),
    decreases t, 0nat,
{
    match t {
        TyV::Array(e) => {
            lemma_sig_nul_free(*e);
            assert forall|i: int| 0 <= i < sig_of(t).len() implies sig_of(t)[i] != 0u8 by {
                if i >= 1 {
                    assert(sig_of(t)[i] == sig_of(*e)[i - 1]);
                }
            }
        },
        TyV::Dict(k, v) => {
            lemma_sig_nul_free(*k);
            lemma_sig_nul_free(*v);
            let kn = sig_of(*k).len() as int;
            let vn = sig_of(*v).len() as int;
            assert forall|i: int| 0 <= i < sig_of(t).len() implies sig_of(t)[i] != 0u8 by {
                if 2 <= i < 2 + kn {
                    assert(sig_of(t)[i] == sig_of(*k)[i - 2]);
                } else if 2 + kn <= i < 2 + kn + vn {
                    assert(sig_of(t)[i] == sig_of(*v)[i - 2 - kn]);
                }
            }
        },
        TyV::Struct(ms) => {
            lemma_sig_list_nul_free(ms);
            let ln = sig_of_list(ms).len() as int;
            assert forall|i: int| 0 <= i < sig_of(t).len() implies sig_of(t)[i] != 0u8 by {
                if 1 <= i < 1 + ln {
                    assert(sig_of(t)[i] == sig_of_list(ms)[i - 1]);
                }
            }
        },
        _ => {},
    }
}

pub proof fn lemma_sig_list_nul_free(ms: Seq<TyV>)
    ensures
        nul_free(sig_of_list(ms)),
    decreases ms, 1nat,
{
    if ms.len() > 0 {
        lemma_sig_nul_free(ms.first());
        lemma_sig_list_nul_free(ms.drop_first());
        let hn = sig_of(ms.first()).len() as int;
        assert forall|i: int| 0 <= i < sig_of_list(ms).len() implies sig_of_list(ms)[i] != 0u8 by {
            if i >= hn {
                assert(sig_of_list(ms)[i] == sig_of_list(ms.drop_first())[i - hn]);
            } else {
                assert(sig_of_list(ms)[i] == sig_of(ms.first())[i]);
            }
        }
    }
}

/// One emitted header-field entry is well formed and has the entry type.
proof fn lemma_field_entry_ok(code: u8, v: ValV)
    requires
        wf_val(v),
    ensures
        type_of(field_entry(code, v)) == field_entry_ty(),
        wf_val(field_entry(code, v)),
{
    let ms = seq![ValV::Byte(code), ValV::Variant(type_of(v), Box::new(v))];
    assert(ms[0] == ValV::Byte(code) && ms[1] == ValV::Variant(type_of(v), Box::new(v)));
    lemma_types_of(ms);
    assert(types_of(ms) =~= seq![TyV::Byte, TyV::Variant]);
    assert forall|i: int| 0 <= i < ms.len() implies wf_val(#[trigger] ms[i]) by {
        if i == 0 {
            assert(ms[i] == ValV::Byte(code));
        } else {
            assert(ms[i] == ValV::Variant(type_of(v), Box::new(v)));
        }
    }
}

/// Every element of an entry list stays well formed when one more
/// well-formed entry is appended.
proof fn lemma_entries_push(l: Seq<ValV>, e: ValV)
    requires
        forall|i: int|
            0 <= i < l.len() ==> type_of(#[trigger] l[i]) == field_entry_ty() && wf_val(l[i]),
        type_of(e) == field_entry_ty(),
        wf_val(e),
    ensures
        forall|i: int|
            0 <= i < l.push(e).len() ==> type_of(#[trigger] l.push(e)[i]) == field_entry_ty()
                && wf_val(l.push(e)[i]),
{
    assert forall|i: int| 0 <= i < l.push(e).len() implies type_of(#[trigger] l.push(e)[i])
        == field_entry_ty() && wf_val(l.push(e)[i]) by {
        if i < l.len() {
            assert(l.push(e)[i] == l[i]);
        } else {
            assert(l.push(e)[i] == e);
        }
    }
}

/// The header fields a well-formed message emits form a well-formed
/// header-fields array value.
pub proof fn lemma_fields_wf(m: MsgV)
    requires
        wf_msg(m),
    ensures
        wf_val(fields_value(m)),
{
    let ety = field_entry_ty();
    let mts = seq![TyV::Byte, TyV::Variant];
    assert(mts[0] == TyV::Byte && mts[1] == TyV::Variant);
    assert forall|i: int| 0 <= i < mts.len() implies wf_ty(#[trigger] mts[i]) by {}
    assert(wf_ty(ety));
    lemma_sig_list_nul_free(types_of(m.body));
    let l0 = Seq::<ValV>::empty();
    let l1 = if m.path is Some {
        l0.push(field_entry(FIELD_PATH, ValV::ObjectPath(m.path->0)))
    } else {
        l0
    };
    let l2 = if m.interface is Some {
        l1.push(field_entry(FIELD_INTERFACE, ValV::Str(m.interface->0)))
    } else {
        l1
    };
    let l3 = if m.member is Some {
        l2.push(field_entry(FIELD_MEMBER, ValV::Str(m.member->0)))
    } else {
        l2
    };
    let l4 = if m.error_name is Some {
        l3.push(field_entry(FIELD_ERROR_NAME, ValV::Str(m.error_name->0)))
    } else {
        l3
    };
    let l5 = if m.reply_serial is Some {
        l4.push(field_entry(FIELD_REPLY_SERIAL, ValV::Uint32(m.reply_serial->0)))
    } else {
        l4
    };
    let l6 = if m.destination is Some {
        l5.push(field_entry(FIELD_DESTINATION, ValV::Str(m.destination->0)))
    } else {
        l5
    };
    let l7 = if m.sender is Some {
        l6.push(field_entry(FIELD_SENDER, ValV::Str(m.sender->0)))
    } else {
        l6
    };
    if m.path is Some {
        lemma_field_entry_ok(FIELD_PATH, ValV::ObjectPath(m.path->0));
        lemma_entries_push(l0, field_entry(FIELD_PATH, ValV::ObjectPath(m.path->0)));
    }
    if m.interface is Some {
        lemma_field_entry_ok(FIELD_INTERFACE, ValV::Str(m.interface->0));
        lemma_entries_push(l1, field_entry(FIELD_INTERFACE, ValV::Str(m.interface->0)));
    }
    if m.member is Some {
        lemma_field_entry_ok(FIELD_MEMBER, ValV::Str(m.member->0));
        lemma_entries_push(l2, field_entry(FIELD_MEMBER, ValV::Str(m.member->0)));
    }
    if m.error_name is Some {
        lemma_field_entry_ok(FIELD_ERROR_NAME, ValV::Str(m.error_name->0));
        lemma_entries_push(l3, field_entry(FIELD_ERROR_NAME, ValV::Str(m.error_name->0)));
    }
    if m.reply_serial is Some {
        lemma_field_entry_ok(FIELD_REPLY_SERIAL, ValV::Uint32(m.reply_serial->0));
        lemma_entries_push(l4, field_entry(FIELD_REPLY_SERIAL, ValV::Uint32(m.reply_serial->0)));
    }
    if m.destination is Some {
        lemma_field_entry_ok(FIELD_DESTINATION, ValV::Str(m.destination->0));
        lemma_entries_push(l5, field_entry(FIELD_DESTINATION, ValV::Str(m.destination->0)));
    }
    if m.sender is Some {
        lemma_field_entry_ok(FIELD_SENDER, ValV::Str(m.sender->0));
        lemma_entries_push(l6, field_entry(FIELD_SENDER, ValV::Str(m.sender->0)));
    }
    if m.body.len() > 0 {
        lemma_field_entry_ok(FIELD_SIGNATURE, ValV::Signature(body_sig(m)));
        lemma_entries_push(l7, field_entry(FIELD_SIGNATURE, ValV::Signature(body_sig(m))));
    }
    assert(header_fields(m) == (if m.body.len() > 0 {
        l7.push(field_entry(FIELD_SIGNATURE, ValV::Signature(body_sig(m))))
    } else {
        l7
    }));
}

// ---------------------------------------------------------------------------
// The frame round trip and the incomplete-prefix guarantees
// ---------------------------------------------------------------------------

/// The layout facts of a marshalled frame: where each region of the frame
/// lies and what its fixed header words decode to.
#[verifier::spinoff_prover]
#[verifier::rlimit(100)]
proof fn lemma_frame_layout(m: MsgV)
    requires
        wf_msg(m),
        frame_fits(m),
    ensures
        ({
            let s = sm_msg(m);
            let fv = fields_value(m);
            let fb = sm_val(fv, 12);
            let fe = 12 + fb.len() as int;
            let bstart = fe + pad_len(fe, 8);
            let bb = sm_vals(m.body, bstart);
            let cnt = sm_vals(header_fields(m), 16).len() as int;
            &&& s.len() == bstart + bb.len()
            &&& s.len() >= 16
            &&& s[0] == ENDIAN_LITTLE
            &&& s[1] == kind_code(m.kind)
            &&& s[2] == m.flags
            &&& s[3] == PROTOCOL_VERSION
            &&& rd32(s.subrange(4, 8), ByteOrder::Little) as int == bb.len() as int
            &&& rd32(s.subrange(8, 12), ByteOrder::Little) == serial_word(m)
            &&& rd32(s.subrange(12, 16), ByteOrder::Little) as int == cnt
            &&& fe == 16 + cnt
            &&& bb.len() <= 0xFFFF_FFFF
            &&& cnt <= 0xFFFF_FFFF
            &&& s.subrange(12, fe) == fb
            &&& s.subrange(bstart, s.len() as int) == bb
        }),
{
    let s = sm_msg(m);
    let fv = fields_value(m);
    let fb = sm_val(fv, 12);
    let fe = 12 + fb.len() as int;
    let bstart = fe + pad_len(fe, 8);
    let bb = sm_vals(m.body, bstart);
    let pre = seq![ENDIAN_LITTLE, kind_code(m.kind), m.flags, PROTOCOL_VERSION] + le32(
        bb.len() as u32,
    ) + le32(serial_word(m));
    assert(s =~= pre + fb + pad_seq(fe, 8) + bb);
    lemma_pad_len(fe, 8);
    let cnt = sm_vals(header_fields(m), 16).len() as int;
    assert(pad_seq(12, 4) =~= Seq::<u8>::empty());
    assert(fb =~= le32(cnt as u32) + sm_vals(header_fields(m), 16)) by {
        assert(fb == pad_seq(12, 4) + le32(
            sm_vals(header_fields(m), 16 + pad_len(16, 8)).len() as u32,
        ) + pad_seq(16, crate::value::align_of(field_entry_ty())) + sm_vals(
            header_fields(m),
            16 + pad_len(16, 8),
        ));
        assert(pad_len(16, 8) == 0);
        assert(pad_seq(16, crate::value::align_of(field_entry_ty())) =~= Seq::<u8>::empty());
    }
    assert(cnt <= 0xFFFF_FFFF);
    assert(s.subrange(4, 8) =~= le32(bb.len() as u32));
    assert(s.subrange(8, 12) =~= le32(serial_word(m)));
    assert(s.subrange(12, 16) =~= le32(cnt as u32));
    lemma_rd_le32(bb.len() as u32);
    lemma_rd_le32(serial_word(m));
    lemma_rd_le32(cnt as u32);
    assert(s.subrange(12, fe) =~= fb);
    assert(s.subrange(bstart, s.len() as int) =~= bb);
}

/// The fixed header of a marshalled frame names the frame's exact length.
#[verifier::spinoff_prover]
#[verifier::rlimit(100)]
proof fn lemma_bn_of_frame(m: MsgV)
    requires
        wf_msg(m),
        frame_fits(m),
    ensures
        bn_msg(sm_msg(m)) == Ok::<int, CodecError>(sm_msg(m).len() as int),
{
    lemma_frame_layout(m);
    let s = sm_msg(m);
    let fb = sm_val(fields_value(m), 12);
    let fe = 12 + fb.len() as int;
    let bstart = fe + pad_len(fe, 8);
    let bb = sm_vals(m.body, bstart);
    let cnt = sm_vals(header_fields(m), 16).len() as int;
    assert(code_kind(kind_code(m.kind)) == Some(m.kind));
    assert(bb.len() <= s.len());
    assert(cnt <= s.len());
    lemma_pad_len(fe, 8);
}

/// Unmarshalling the marshalled frame of any well-formed, representable
/// message yields a structurally equal message — kind, flags, every header
/// field, serial, and body — and consumes exactly the frame.
#[verifier::spinoff_prover]
#[verifier::rlimit(100)]
pub proof fn lemma_msg_roundtrip(m: MsgV)
    requires
        wf_msg(m),
        frame_fits(m),
    ensures
        pm_msg(sm_msg(m)) == Ok::<(MsgV, int), CodecError>((m, sm_msg(m).len() as int)),
{
    lemma_frame_layout(m);
    lemma_bn_of_frame(m);
    let s = sm_msg(m);
    let fv = fields_value(m);
    let fb = sm_val(fv, 12);
    let fe = 12 + fb.len() as int;
    let bstart = fe + pad_len(fe, 8);
    let bb = sm_vals(m.body, bstart);
    let blen = bb.len() as int;
    let bo = ByteOrder::Little;
    // the header-fields array round trip
    lemma_fields_wf(m);
    lemma_rt_val(fv, s, 12, fe);
    assert(type_of(fv) == TyV::Array(Box::new(field_entry_ty())));
    lemma_interp_header_fields(m);
    let h = interp_entries(header_fields(m), hdr_empty())->0;
    // the body signature round trip
    lemma_types_of(m.body);
    assert forall|i: int| 0 <= i < types_of(m.body).len() implies wf_ty(
        #[trigger] types_of(m.body)[i],
    ) by {
        assert(wf_val(m.body[i]));
        lemma_wf_ty_of(m.body[i]);
    }
    let ts = types_of(m.body);
    if m.body.len() > 0 {
        assert(h.sig == body_sig(m));
        assert(body_sig(m).subrange(0, body_sig(m).len() as int) =~= body_sig(m));
        lemma_sig_all_roundtrip(ts, body_sig(m), 0);
        assert(parse_sig_all(h.sig, 0) == Some(ts));
    } else {
        assert(h.sig == Seq::<u8>::empty());
        assert(ts =~= Seq::<TyV>::empty());
        assert(parse_sig_all(h.sig, 0) == Some(Seq::<TyV>::empty()));
    }
    // the body round trip
    lemma_rt_fields(m.body, s, bstart, bstart + blen, Seq::empty());
    assert(Seq::<ValV>::empty() + m.body =~= m.body);
    // reassembly
    if m.serial is Some {
        assert(serial_word(m) != 0);
    }
    let out = pm_msg(s);
    assert(out is Ok);
    assert(out->Ok_0.1 == s.len());
    assert(out->Ok_0.0 == m);
}

/// Any prefix of a valid frame shorter than the fixed header asks for more
/// input, and any longer proper prefix names the frame's full length, which
/// exceeds the prefix.
#[verifier::spinoff_prover]
#[verifier::rlimit(100)]
pub proof fn lemma_incomplete_prefix(m: MsgV, k: int)
    requires
        wf_msg(m),
        frame_fits(m),
        0 <= k < sm_msg(m).len(),
    ensures
        k < 16 ==> bn_msg(sm_msg(m).take(k)) == Err::<int, CodecError>(CodecError::Incomplete),
        k >= 16 ==> bn_msg(sm_msg(m).take(k)) == Ok::<int, CodecError>(sm_msg(m).len() as int),
        pm_msg(sm_msg(m).take(k)) == Err::<(MsgV, int), CodecError>(CodecError::Incomplete),
{
    let s = sm_msg(m);
    let p = s.take(k);
    if k < 16 {
    } else {
        lemma_frame_layout(m);
        lemma_bn_of_frame(m);
        assert(p[0] == s[0] && p[1] == s[1] && p[2] == s[2] && p[3] == s[3]);
        assert(p.subrange(4, 8) =~= s.subrange(4, 8));
        assert(p.subrange(12, 16) =~= s.subrange(12, 16));
        assert(bn_msg(p) == bn_msg(s));
    }
}

// ---------------------------------------------------------------------------
// Executable framing
// ---------------------------------------------------------------------------

/// A copy of a byte vector.
fn dup(v: &Vec<u8>) -> (r: Vec<u8>)
    ensures
        r@ == v@,
{
    copy_range(v.as_slice(), 0, v.len())
}

/// The wire tag of a message kind.
fn kind_byte(k: MessageKind) -> (r: u8)
    ensures
        r == kind_code(k),
{
    match k {
        MessageKind::MethodCall => 1,
        MessageKind::MethodReturn => 2,
        MessageKind::Error => 3,
        MessageKind::Signal => 4,
        MessageKind::Invalid => 0,
    }
}

/// One header-field entry as a wire value.
fn mk_entry(code: u8, v: Value) -> (r: Value)
    ensures
        r@ == field_entry(code, v@),
{
    let ghost v0 = v@;
    let t = v.signature_of();
    let mut ms: Vec<Value> = Vec::new();
    ms.push(Value::Byte(code));
    ms.push(Value::Variant(t, Box::new(v)));
    proof {
        lemma_vals_view(ms@);
        assert(vals_view(ms@) =~= seq![ValV::Byte(code), ValV::Variant(type_of(v0), Box::new(v0))]);
    }
    Value::Struct(ms)
}

/// The signature bytes of a message body.
fn render_body_sig(m: &DBusMessage) -> (r: Vec<u8>)
    ensures
        r@ == body_sig(m@),
{
    let mut out: Vec<u8> = Vec::new();
    let mut i: usize = 0;
    proof {
        lemma_vals_view(m.body@);
        lemma_types_of(vals_view(m.body@));
        assert(sig_of_list(types_of(vals_view(m.body@)).take(0)) =~= Seq::<u8>::empty());
        assert(types_of(vals_view(m.body@)).take(0) =~= Seq::<TyV>::empty());
    }
    while i < m.body.len()
        invariant
            i <= m.body@.len(),
            out@ == sig_of_list(types_of(vals_view(m.body@)).take(i as int)),
        decreases m.body@.len() - i,
    {
        let ts = m.body[i].signature_of();
        ts.render_sig(&mut out);
        proof {
            lemma_vals_view(m.body@);
            lemma_types_of(vals_view(m.body@));
            let tys = types_of(vals_view(m.body@));
            lemma_sig_of_list_push(tys.take(i as int), tys[i as int]);
            assert(tys.take(i as int).push(tys[i as int]) =~= tys.take(i + 1));
            assert(ty_view(ts) == tys[i as int]);
        }
        i = i + 1;
    }
    proof {
        lemma_vals_view(m.body@);
        lemma_types_of(vals_view(m.body@));
        assert(types_of(vals_view(m.body@)).take(m.body@.len() as int) =~= types_of(
            vals_view(m.body@),
        ));
    }
    out
}

impl DBusMessage {
    /// The signature string of this message's body.
    pub fn signature_bytes(&self) -> (r: Vec<u8>)
        ensures
            r@ == body_sig(self@),
    {
        render_body_sig(self)
    }

    /// Whether this message is well formed, so that marshalling it is
    /// defined: one of the four real kinds, no zero serial, nul-free UTF-8
    /// header strings, well-formed body values, and a body signature that
    /// fits its length field.
    #[verifier::loop_isolation(false)]
    pub fn wf_msg_check(&self) -> (r: bool)
        ensures
            r == wf_msg(self@),
    {
        match self.kind {
            MessageKind::Invalid => {
                return false;
            },
            _ => {},
        }
        match &self.serial {
            Some(x) => {
                if *x == 0 {
                    return false;
                }
            },
            None => {},
        }
        if !str_field_check(&self.path) || !str_field_check(&self.interface) || !str_field_check(
            &self.member,
        ) || !str_field_check(&self.error_name) || !str_field_check(&self.destination)
            || !str_field_check(&self.sender) {
            return false;
        }
        proof {
            lemma_vals_view(self.body@);
        }
        let mut i: usize = 0;
        while i < self.body.len()
            invariant
                i <= self.body@.len(),
                forall|j: int| 0 <= j < i ==> wf_val(#[trigger] val_view(self.body@[j])),
            decreases self.body@.len() - i,
        {
            if !self.body[i].wf_check() {
                proof {
                    assert(vals_view(self.body@)[i as int] == val_view(self.body@[i as int]));
                }
                return false;
            }
            i = i + 1;
        }
        proof {
            assert forall|j: int| 0 <= j < self@.body.len() implies wf_val(
                #[trigger] self@.body[j],
            ) by {
                assert(vals_view(self.body@)[j] == val_view(self.body@[j]));
            }
        }
        let sig = render_body_sig(self);
        sig.len() <= 255
    }
}

/// Whether an optional header string is absent or holds acceptable bytes.
fn str_field_check(f: &Option<Vec<u8>>) -> (r: bool)
    ensures
        r == crate::message::str_field_ok(obv(*f)),
{
    match f {
        Some(bs) => {
            let no_nul = crate::value::check_nul_free(bs);
            let valid = crate::unmarshal::validate_utf8_range(bs.as_slice(), 0, bs.len());
            proof {
                assert(bs@.subrange(0, bs@.len() as int) =~= bs@);
            }
            no_nul && valid && (bs.len() as u64) < 0x1_0000_0000u64
        },
        None => true,
    }
}

/// The header-fields array of a message as a wire value.
#[verifier::spinoff_prover]
#[verifier::rlimit(100)]
fn build_fields(m: &DBusMessage) -> (r: Value)
    ensures
        r@ == fields_value(m@),
{
    let mut entries: Vec<Value> = Vec::new();
    let ghost mv = m@;
    let ghost l0 = Seq::<ValV>::empty();
    proof {
        assert(vals_view(entries@) =~= l0);
    }
    let ghost l1 = if mv.path is Some {
        l0.push(field_entry(FIELD_PATH, ValV::ObjectPath(mv.path->0)))
    } else {
        l0
    };
    match &m.path {
        Some(p) => {
            let e = mk_entry(FIELD_PATH, Value::ObjectPath(dup(p)));
            proof {
                lemma_vals_view(entries@);
                assert(entries@.push(e).drop_last() =~= entries@);
            }
            entries.push(e);
            proof {
                assert(vals_view(entries@) =~= l1);
            }
        },
        None => {},
    }
    let ghost l2 = if mv.interface is Some {
        l1.push(field_entry(FIELD_INTERFACE, ValV::Str(mv.interface->0)))
    } else {
        l1
    };
    match &m.interface {
        Some(p) => {
            let e = mk_entry(FIELD_INTERFACE, Value::Str(dup(p)));
            proof {
                lemma_vals_view(entries@);
                assert(entries@.push(e).drop_last() =~= entries@);
            }
            entries.push(e);
            proof {
                assert(vals_view(entries@) =~= l2);
            }
        },
        None => {},
    }
    let ghost l3 = if mv.member is Some {
        l2.push(field_entry(FIELD_MEMBER, ValV::Str(mv.member->0)))
    } else {
        l2
    };
    match &m.member {
        Some(p) => {
            let e = mk_entry(FIELD_MEMBER, Value::Str(dup(p)));
            proof {
                lemma_vals_view(entries@);
                assert(entries@.push(e).drop_last() =~= entries@);
            }
            entries.push(e);
            proof {
                assert(vals_view(entries@) =~= l3);
            }
        },
        None => {},
    }
    let ghost l4 = if mv.error_name is Some {
        l3.push(field_entry(FIELD_ERROR_NAME, ValV::Str(mv.error_name->0)))
    } else {
        l3
    };
    match &m.error_name {
        Some(p) => {
            let e = mk_entry(FIELD_ERROR_NAME, Value::Str(dup(p)));
            proof {
                lemma_vals_view(entries@);
                assert(entries@.push(e).drop_last() =~= entries@);
            }
            entries.push(e);
            proof {
                assert(vals_view(entries@) =~= l4);
            }
        },
        None => {},
    }
    let ghost l5 = if mv.reply_serial is Some {
        l4.push(field_entry(FIELD_REPLY_SERIAL, ValV::Uint32(mv.reply_serial->0)))
    } else {
        l4
    };
    match &m.reply_serial {
        Some(x) => {
            let e = mk_entry(FIELD_REPLY_SERIAL, Value::Uint32(*x));
            proof {
                lemma_vals_view(entries@);
                assert(entries@.push(e).drop_last() =~= entries@);
            }
            entries.push(e);
            proof {
                assert(vals_view(entries@) =~= l5);
            }
        },
        None => {},
    }
    let ghost l6 = if mv.destination is Some {
        l5.push(field_entry(FIELD_DESTINATION, ValV::Str(mv.destination->0)))
    } else {
        l5
    };
    match &m.destination {
        Some(p) => {
            let e = mk_entry(FIELD_DESTINATION, Value::Str(dup(p)));
            proof {
                lemma_vals_view(entries@);
                assert(entries@.push(e).drop_last() =~= entries@);
            }
            entries.push(e);
            proof {
                assert(vals_view(entries@) =~= l6);
            }
        },
        None => {},
    }
    let ghost l7 = if mv.sender is Some {
        l6.push(field_entry(FIELD_SENDER, ValV::Str(mv.sender->0)))
    } else {
        l6
    };
    match &m.sender {
        Some(p) => {
            let e = mk_entry(FIELD_SENDER, Value::Str(dup(p)));
            proof {
                lemma_vals_view(entries@);
                assert(entries@.push(e).drop_last() =~= entries@);
            }
            entries.push(e);
            proof {
                assert(vals_view(entries@) =~= l7);
            }
        },
        None => {},
    }
    let ghost l8 = if mv.body.len() > 0 {
        l7.push(field_entry(FIELD_SIGNATURE, ValV::Signature(body_sig(mv))))
    } else {
        l7
    };
    if m.body.len() > 0 {
        let sig = render_body_sig(m);
        let e = mk_entry(FIELD_SIGNATURE, Value::Signature(sig));
        proof {
            lemma_vals_view(entries@);
            assert(entries@.push(e).drop_last() =~= entries@);
        }
        entries.push(e);
        proof {
            assert(vals_view(entries@) =~= l8);
        }
    }
    let mut mts: Vec<TypeSig> = Vec::new();
    mts.push(TypeSig::Byte);
    mts.push(TypeSig::Variant);
    let ety = TypeSig::Struct(mts);
    proof {
        lemma_tys_view(ety->Struct_0@);
        assert(tys_view(ety->Struct_0@) =~= seq![TyV::Byte, TyV::Variant]);
        assert(ety@ == field_entry_ty());
        lemma_vals_view(entries@);
        assert(vals_view(entries@) == header_fields(mv));
    }
    Value::Array(ety, entries)
}

/// Marshals one message as a little-endian frame. Total for any well-formed
/// message; fails exactly when a bounded length field of the wire format
/// cannot hold its value.
#[verifier::spinoff_prover]
#[verifier::rlimit(100)]
pub fn marshal(m: &DBusMessage) -> (r: Result<Vec<u8>, MarshalError>)
    requires
        wf_msg(m@),
    ensures
        r is Ok ==> frame_fits(m@) && r->Ok_0@ == sm_msg(m@),
        r is Err ==> !frame_fits(m@),
{
    let mut buf: Vec<u8> = Vec::new();
    buf.push(ENDIAN_LITTLE);
    buf.push(kind_byte(m.kind));
    buf.push(m.flags);
    buf.push(PROTOCOL_VERSION);
    push_u32(&mut buf, 0);
    push_u32(
        &mut buf,
        match &m.serial {
            Some(x) => *x,
            None => 0,
        },
    );
    let ghost pre0 = seq![
        ENDIAN_LITTLE,
        kind_code(m@.kind),
        m@.flags,
        PROTOCOL_VERSION,
    ] + le32(0u32) + le32(serial_word(m@));
    proof {
        assert(buf@ =~= pre0);
    }
    let fv = build_fields(m);
    proof {
        lemma_fields_wf(m@);
    }
    match fv.marshal_value(&mut buf) {
        Ok(_) => {},
        Err(e) => {
            return Err(e);
        },
    }
    push_pad(&mut buf, 8);
    let bstart = buf.len();
    let ghost fb = sm_val(fields_value(m@), 12);
    let ghost fe = 12 + fb.len() as int;
    proof {
        assert(buf@ =~= pre0 + fb + pad_seq(fe, 8));
        assert(bstart as int == body_start(m@));
    }
    proof {
        lemma_vals_view(m.body@);
        assert forall|j: int| 0 <= j < m.body@.len() implies wf_val(
            val_view(#[trigger] m.body@[j]),
        ) by {
            assert(wf_val(vals_view(m.body@)[j]));
        }
    }
    match marshal_vals(&m.body, &mut buf) {
        Ok(_) => {},
        Err(e) => {
            return Err(e);
        },
    }
    let ghost bb = sm_vals(m@.body, bstart as int);
    let blen = buf.len() - bstart;
    if blen > 0xFFFF_FFFFusize {
        return Err(MarshalError::TooLarge);
    }
    if buf.len() > MAX_MESSAGE_LEN {
        proof {
            assert(buf@.len() == sm_msg(m@).len());
        }
        return Err(MarshalError::TooLarge);
    }
    write_u32_at(&mut buf, 4, blen as u32);
    proof {
        let whole = pre0 + fb + pad_seq(fe, 8) + bb;
        assert(whole.subrange(0, 4) =~= seq![
            ENDIAN_LITTLE,
            kind_code(m@.kind),
            m@.flags,
            PROTOCOL_VERSION,
        ]);
        assert(whole.subrange(8, whole.len() as int) =~= le32(serial_word(m@)) + fb + pad_seq(
            fe,
            8,
        ) + bb);
        assert(buf@ =~= sm_msg(m@));
    }
    Ok(buf)
}

/// The decoded fixed header of a frame.
#[derive(Clone, Copy, Debug, PartialEq, Eq, Structural)]
pub struct FrameHeader {
    pub byteorder: ByteOrder,
    pub kind: MessageKind,
    pub flags: u8,
    pub body_len: u32,
    pub serial_word: u32,
    pub fields_len: u32,
}

/// Decodes the sixteen-byte fixed header. `Incomplete` exactly when fewer
/// than sixteen bytes are available; `Malformed` on a bad byte-order marker,
/// kind tag, protocol version, or an oversized declared length.
pub fn unmarshal_header(s: &[u8]) -> (r: Result<(FrameHeader, usize), CodecError>)
    ensures
        (r == Err::<(FrameHeader, usize), CodecError>(CodecError::Incomplete)) <==> s@.len() < 16,
        match r {
            Ok((h, n)) => bn_msg(s@) is Ok && n == 16 && h.byteorder == (if s@[0] == ENDIAN_LITTLE {
                ByteOrder::Little
            } else {
                ByteOrder::Big
            }) && Some(h.kind) == code_kind(s@[1]) && h.flags == s@[2] && h.body_len == rd32(
                s@.subrange(4, 8),
                h.byteorder,
            ) && h.serial_word == rd32(s@.subrange(8, 12), h.byteorder) && h.fields_len == rd32(
                s@.subrange(12, 16),
                h.byteorder,
            ) && h.body_len <= MAX_MESSAGE_LEN as u32 && h.fields_len <= MAX_MESSAGE_LEN as u32
                && bn_msg(s@) == Ok::<int, CodecError>(
                16 + h.fields_len + pad_len(16 + h.fields_len as int, 8) + h.body_len,
            ),
            Err(e) => bn_msg(s@) == Err::<int, CodecError>(e),
        },
{
    if s.len() < 16 {
        return Err(CodecError::Incomplete);
    }
    let b0 = s[0];
    if b0 != ENDIAN_LITTLE && b0 != ENDIAN_BIG {
        return Err(CodecError::Malformed);
    }
    let bo = if b0 == ENDIAN_LITTLE {
        ByteOrder::Little
    } else {
        ByteOrder::Big
    };
    let kb = s[1];
    let kind = if kb == 1 {
        MessageKind::MethodCall
    } else if kb == 2 {
        MessageKind::MethodReturn
    } else if kb == 3 {
        MessageKind::Error
    } else if kb == 4 {
        MessageKind::Signal
    } else {
        return Err(CodecError::Malformed);
    };
    if s[3] != PROTOCOL_VERSION {
        return Err(CodecError::Malformed);
    }
    let body_len = read_u32(s, 4, bo);
    let serial_word = read_u32(s, 8, bo);
    let fields_len = read_u32(s, 12, bo);
    if body_len as usize > MAX_MESSAGE_LEN || fields_len as usize > MAX_MESSAGE_LEN {
        return Err(CodecError::Malformed);
    }
    Ok(
        (
            FrameHeader { byteorder: bo, kind, flags: s[2], body_len, serial_word, fields_len },
            16,
        ),
    )
}

/// How many bytes the frame at the front of `s` occupies in total, or
/// `Incomplete` while even its fixed header has not fully arrived.
pub fn bytes_needed(s: &[u8]) -> (r: Result<usize, CodecError>)
    ensures
        match r {
            Ok(n) => bn_msg(s@) == Ok::<int, CodecError>(n as int),
            Err(e) => bn_msg(s@) == Err::<int, CodecError>(e),
        },
{
    match unmarshal_header(s) {
        Err(e) => Err(e),
        Ok((h, _)) => {
            let fe: usize = 16 + h.fields_len as usize;
            let rem = fe % 8;
            let bstart = if rem == 0 {
                fe
            } else {
                fe + (8 - rem)
            };
            Ok(bstart + h.body_len as usize)
        },
    }
}

/// The header fields collected from a decoded fields array, as owned data.
pub struct HdrAcc {
    pub path: Option<Vec<u8>>,
    pub interface: Option<Vec<u8>>,
    pub member: Option<Vec<u8>>,
    pub error_name: Option<Vec<u8>>,
    pub reply_serial: Option<u32>,
    pub destination: Option<Vec<u8>>,
    pub sender: Option<Vec<u8>>,
    pub sig: Vec<u8>,
}

pub open spec fn hdr_acc_view(a: HdrAcc) -> HdrV {
    HdrV {
        path: obv(a.path),
        interface: obv(a.interface),
        member: obv(a.member),
        error_name: obv(a.error_name),
        reply_serial: a.reply_serial,
        destination: obv(a.destination),
        sender: obv(a.sender),
        sig: a.sig@,
    }
}

/// Walks a decoded fields array, collecting the header fields; reports a
/// protocol violation on a malformed entry.
#[verifier::loop_isolation(false)]
#[verifier::rlimit(100)]
fn interp_exec(entries: &Vec<Value>) -> (r: Option<HdrAcc>)
    ensures
        match r {
            Some(a) => interp_entries(vals_view(entries@), hdr_empty()) == Some(hdr_acc_view(a)),
            None => interp_entries(vals_view(entries@), hdr_empty()) is None,
        },
{
    let mut acc = HdrAcc {
        path: None,
        interface: None,
        member: None,
        error_name: None,
        reply_serial: None,
        destination: None,
        sender: None,
        sig: Vec::new(),
    };
    proof {
        assert(acc.sig@ =~= Seq::<u8>::empty());
        assert(hdr_acc_view(acc) == hdr_empty());
        lemma_vals_view(entries@);
        assert(vals_view(entries@).skip(0) =~= vals_view(entries@));
    }
    let mut i: usize = 0;
    while i < entries.len()
        invariant
            i <= entries@.len(),
            interp_entries(vals_view(entries@), hdr_empty()) == interp_entries(
                vals_view(entries@).skip(i as int),
                hdr_acc_view(acc),
            ),
        decreases entries@.len() - i,
    {
        let ghost suffix = vals_view(entries@).skip(i as int);
        proof {
            lemma_vals_view(entries@);
            assert(suffix.first() == val_view(entries@[i as int]));
            assert(suffix.drop_first() =~= vals_view(entries@).skip(i + 1));
        }
        match &entries[i] {
            Value::Struct(ms) => {
                if ms.len() != 2 {
                    proof {
                        lemma_vals_view(ms@);
                        assert(entry_shape(suffix.first()) is None);
                    }
                    return None;
                }
                proof {
                    lemma_vals_view(ms@);
                    assert(vals_view(ms@)[0] == val_view(ms@[0]));
                    assert(vals_view(ms@)[1] == val_view(ms@[1]));
                }
                match (&ms[0], &ms[1]) {
                    (Value::Byte(c), Value::Variant(_vt, b)) => {
                        let code = *c;
                        let inner: &Value = b;
                        let ghost iv = val_view(**b);
                        let ghost old_acc = acc;
                        proof {
                            assert(entry_shape(suffix.first()) == Some((code, iv)));
                        }
                                                if code == FIELD_PATH {
                            match inner {
                                Value::ObjectPath(bs) => {
                                    acc.path = Some(dup(bs));
                                    proof {
                                        assert(hdr_apply(hdr_acc_view(old_acc), code, iv) == Some(
                                            hdr_acc_view(acc),
                                        ));
                                    }
                                },
                                _ => {
                                    return None;
                                },
                            }
                        } else                         if code == FIELD_INTERFACE {
                            match inner {
                                Value::Str(bs) => {
                                    acc.interface = Some(dup(bs));
                                    proof {
                                        assert(hdr_apply(hdr_acc_view(old_acc), code, iv) == Some(
                                            hdr_acc_view(acc),
                                        ));
                                    }
                                },
                                _ => {
                                    return None;
                                },
                            }
                        } else                         if code == FIELD_MEMBER {
                            match inner {
                                Value::Str(bs) => {
                                    acc.member = Some(dup(bs));
                                    proof {
                                        assert(hdr_apply(hdr_acc_view(old_acc), code, iv) == Some(
                                            hdr_acc_view(acc),
                                        ));
                                    }
                                },
                                _ => {
                                    return None;
                                },
                            }
                        } else                         if code == FIELD_ERROR_NAME {
                            match inner {
                                Value::Str(bs) => {
                                    acc.error_name = Some(dup(bs));
                                    proof {
                                        assert(hdr_apply(hdr_acc_view(old_acc), code, iv) == Some(
                                            hdr_acc_view(acc),
                                        ));
                                    }
                                },
                                _ => {
                                    return None;
                                },
                            }
                        } else if code == FIELD_REPLY_SERIAL {
                            match inner {
                                Value::Uint32(x) => {
                                    acc.reply_serial = Some(*x);
                                    proof {
                                        assert(hdr_apply(hdr_acc_view(old_acc), code, iv) == Some(
                                            hdr_acc_view(acc),
                                        ));
                                    }
                                },
                                _ => {
                                    return None;
                                },
                            }
                        } else                         if code == FIELD_DESTINATION {
                            match inner {
                                Value::Str(bs) => {
                                    acc.destination = Some(dup(bs));
                                    proof {
                                        assert(hdr_apply(hdr_acc_view(old_acc), code, iv) == Some(
                                            hdr_acc_view(acc),
                                        ));
                                    }
                                },
                                _ => {
                                    return None;
                                },
                            }
                        } else                         if code == FIELD_SENDER {
                            match inner {
                                Value::Str(bs) => {
                                    acc.sender = Some(dup(bs));
                                    proof {
                                        assert(hdr_apply(hdr_acc_view(old_acc), code, iv) == Some(
                                            hdr_acc_view(acc),
                                        ));
                                    }
                                },
                                _ => {
                                    return None;
                                },
                            }
                        } else                         if code == FIELD_SIGNATURE {
                            match inner {
                                Value::Signature(bs) => {
                                    acc.sig = dup(bs);
                                    proof {
                                        assert(hdr_apply(hdr_acc_view(old_acc), code, iv) == Some(
                                            hdr_acc_view(acc),
                                        ));
                                    }
                                },
                                _ => {
                                    return None;
                                },
                            }
                        } else {
                            proof {
                                assert(hdr_apply(hdr_acc_view(old_acc), code, iv) == Some(
                                    hdr_acc_view(acc),
                                ));
                            }
                        }
                    },
                    _ => {
                        proof {
                            assert(entry_shape(suffix.first()) is None);
                        }
                        return None;
                    },
                }
            },
            _ => {
                proof {
                    assert(entry_shape(suffix.first()) is None);
                }
                return None;
            },
        }
        i = i + 1;
    }
    proof {
        assert(vals_view(entries@).skip(entries@.len() as int) =~= Seq::<ValV>::empty());
    }
    Some(acc)
}

/// Decodes one whole frame at the front of `s`, consuming exactly the frame.
#[verifier::spinoff_prover]
#[verifier::rlimit(100)]
pub fn unmarshal_message(s: &[u8]) -> (r: Result<(DBusMessage, usize), CodecError>)
    ensures
        match r {
            Ok((m, n)) => pm_msg(s@) == Ok::<(MsgV, int), CodecError>((m@, n as int)) && !m.locked,
            Err(e) => pm_msg(s@) == Err::<(MsgV, int), CodecError>(e),
        },
{
    let h = match unmarshal_header(s) {
        Ok((h, _)) => h,
        Err(e) => {
            return Err(e);
        },
    };
    let fe: usize = 16 + h.fields_len as usize;
    let rem = fe % 8;
    let bstart = if rem == 0 {
        fe
    } else {
        fe + (8 - rem)
    };
    let total = bstart + h.body_len as usize;
    proof {
        assert(bn_msg(s@) == Ok::<int, CodecError>(total as int));
    }
    if s.len() < total {
        return Err(CodecError::Incomplete);
    }
    let bo = h.byteorder;
    let mut mts: Vec<TypeSig> = Vec::new();
    mts.push(TypeSig::Byte);
    mts.push(TypeSig::Variant);
    let ghost mtsv = mts@;
    let inner = TypeSig::Struct(mts);
    let ghost innerv = inner;
    proof {
        lemma_tys_view(mtsv);
        assert(tys_view(mtsv) =~= seq![TyV::Byte, TyV::Variant]);
        assert(ty_view(innerv) == field_entry_ty());
    }
    let fty = TypeSig::Array(Box::new(inner));
    proof {
        assert(fty == TypeSig::Array(Box::new(innerv)));
        assert(fty@ == TyV::Array(Box::new(field_entry_ty())));
    }
    match parse_value(&fty, s, bo, 12, fe) {
        None => Err(CodecError::Malformed),
        Some((fv, fpos)) => {
            if fpos != fe {
                return Err(CodecError::Malformed);
            }
            match fv {
                Value::Array(_t, entries) => {
                    match interp_exec(&entries) {
                        None => Err(CodecError::Malformed),
                        Some(acc) => {
                            match parse_sig_list(acc.sig.as_slice(), 0) {
                                None => Err(CodecError::Malformed),
                                Some(ts) => {
                                    proof {
                                        lemma_tys_view(ts@);
                                        assert(tys_view(ts@).skip(0) =~= tys_view(ts@));
                                        assert(vals_view(Seq::<Value>::empty()) =~= Seq::<
                                            ValV,
                                        >::empty());
                                    }
                                    match parse_fields_rec(&ts, 0, s, bo, bstart, total, Vec::new()) {
                                        None => Err(CodecError::Malformed),
                                        Some((body, bend)) => {
                                            if bend != total {
                                                return Err(CodecError::Malformed);
                                            }
                                            let m = DBusMessage {
                                                kind: h.kind,
                                                flags: h.flags,
                                                serial: if h.serial_word == 0 {
                                                    None
                                                } else {
                                                    Some(h.serial_word)
                                                },
                                                reply_serial: acc.reply_serial,
                                                path: acc.path,
                                                interface: acc.interface,
                                                member: acc.member,
                                                error_name: acc.error_name,
                                                destination: acc.destination,
                                                sender: acc.sender,
                                                body,
                                                locked: false,
                                            };
                                            proof {
                                                assert(pm_msg(s@) == Ok::<(MsgV, int), CodecError>(
                                                    (m@, total as int),
                                                ));
                                            }
                                            Ok((m, total))
                                        },
                                    }
                                },
                            }
                        },
                    }
                },
                _ => Err(CodecError::Malformed),
            }
        },
    }
}

} // verus!
