use crate::marshal::{sm_entries, sm_entries_fit, sm_fits, sm_val, sm_vals, sm_vals_fit};
use crate::sig::{lemma_sig_all_roundtrip, lemma_sig_of_len, parse_sig_all, sig_of, sig_of_list};
use crate::unmarshal::{pv_elems, pv_entries, pv_fields, pv_string, pv_val};
use crate::value::{TyV, ValV, align_of, is_basic_ty, lemma_types_of, type_of, types_of, wf_ty,
    wf_val};
use crate::wire::{ByteOrder, lemma_i16_bits, lemma_i32_bits, lemma_i64_bits, lemma_pad_len,
    lemma_rd_le16, lemma_rd_le32, lemma_rd_le64, le16, le32, le64, pad_len, pad_seq, u16_of_i16,
    u32_of_i32, u64_of_i64};
use vstd::prelude::*;

verus! {

/// The type of a well-formed value is a well-formed type descriptor.
pub proof fn lemma_wf_ty_of(v: ValV)
    requires
        wf_val(v),
    ensures
        wf_ty(type_of(v)),
    decreases v, 0nat,
{
    match v {
        ValV::Struct(ms) => {
            lemma_types_of(ms);
            assert forall|i: int| 0 <= i < types_of(ms).len() implies wf_ty(
                #[trigger] types_of(ms)[i],
            ) by {
                assert(wf_val(ms[i]));
                lemma_wf_ty_of(ms[i]);
            }
        },
        _ => {},
    }
}

/// A well-formed value occupies at least one byte past its padding.
pub proof fn lemma_sm_min_len(v: ValV, pos: int)
    requires
        wf_val(v),
    ensures
        sm_val(v, pos).len() >= pad_len(pos, align_of(type_of(v))) + 1,
    decreases v, 0nat,
{
    let a = align_of(type_of(v));
    let p = pos + pad_len(pos, a);
    match v {
        ValV::Struct(ms) => {
            assert(wf_val(ms.first()));
            lemma_sm_min_len(ms.first(), p);
            assert(sm_vals(ms, p) == sm_val(ms.first(), p) + sm_vals(
                ms.drop_first(),
                p + sm_val(ms.first(), p).len(),
            ));
        },
        _ => {},
    }
}

/// Parsing the marshalled bytes of a well-formed, representable value,
/// embedded at `pos` in a larger little-endian frame, yields that value back
/// and stops right past its encoding.
/// Parsing the marshalled bytes of a well-formed, representable value,
/// embedded at `pos` in a larger little-endian frame, yields that value back
/// and stops right past its encoding.
pub proof fn lemma_rt_val(v: ValV, s: Seq<u8>, pos: int, end: int)
    requires
        wf_val(v),
        sm_fits(v, pos),
        0 <= pos,
        pos + sm_val(v, pos).len() <= end,
        end <= s.len(),
        s.subrange(pos, pos + sm_val(v, pos).len()) == sm_val(v, pos),
    ensures
        pv_val(type_of(v), s, ByteOrder::Little, pos, end) == Some(
            (v, pos + sm_val(v, pos).len()),
        ),
    decreases v, 1nat,
{
    match v {
        ValV::Variant(vt, b) => {
            lemma_rt_variant(v, s, pos, end);
        },
        ValV::Array(et, es) => {
            lemma_rt_array(v, s, pos, end);
        },
        ValV::Dict(kt, vt, es) => {
            lemma_rt_dict(v, s, pos, end);
        },
        ValV::Struct(ms) => {
            lemma_rt_struct(v, s, pos, end);
        },
        _ => {
            lemma_rt_basic(v, s, pos, end);
        },
    }
}

/// The round trip of the basic (non-container) values.
proof fn lemma_rt_basic(v: ValV, s: Seq<u8>, pos: int, end: int)
    requires
        wf_val(v),
        sm_fits(v, pos),
        0 <= pos,
        pos + sm_val(v, pos).len() <= end,
        end <= s.len(),
        s.subrange(pos, pos + sm_val(v, pos).len()) == sm_val(v, pos),
        is_basic_ty(type_of(v)),
    ensures
        pv_val(type_of(v), s, ByteOrder::Little, pos, end) == Some(
            (v, pos + sm_val(v, pos).len()),
        ),
{
    if v is Str || v is ObjectPath || v is Signature {
        lemma_rt_stringlike(v, s, pos, end);
    } else {
        lemma_rt_fixed(v, s, pos, end);
    }
}

/// The round trip of the fixed-size scalar values.
proof fn lemma_rt_fixed(v: ValV, s: Seq<u8>, pos: int, end: int)
    requires
        wf_val(v),
        sm_fits(v, pos),
        0 <= pos,
        pos + sm_val(v, pos).len() <= end,
        end <= s.len(),
        s.subrange(pos, pos + sm_val(v, pos).len()) == sm_val(v, pos),
        is_basic_ty(type_of(v)),
        !(v is Str || v is ObjectPath || v is Signature),
    ensures
        pv_val(type_of(v), s, ByteOrder::Little, pos, end) == Some(
            (v, pos + sm_val(v, pos).len()),
        ),
{
    if v is Byte || v is Boolean {
        lemma_rt_small(v, s, pos, end);
    } else if v is Int64 || v is Uint64 || v is Double {
        lemma_rt_wide(v, s, pos, end);
    } else {
        lemma_rt_word(v, s, pos, end);
    }
}

/// One size class of the scalar round trip.
#[verifier::spinoff_prover]
#[verifier::rlimit(100)]
proof fn lemma_rt_small(v: ValV, s: Seq<u8>, pos: int, end: int)
    requires
        wf_val(v),
        sm_fits(v, pos),
        0 <= pos,
        pos + sm_val(v, pos).len() <= end,
        end <= s.len(),
        s.subrange(pos, pos + sm_val(v, pos).len()) == sm_val(v, pos),
        v is Byte || v is Boolean,
    ensures
        pv_val(type_of(v), s, ByteOrder::Little, pos, end) == Some(
            (v, pos + sm_val(v, pos).len()),
        ),
{
    let bo = ByteOrder::Little;
    let t = type_of(v);
    let a = align_of(t);
    lemma_pad_len(pos, a);
    let pad = pad_seq(pos, a);
    let p = pos + pad.len();
    let n = sm_val(v, pos).len() as int;
    let sub = s.subrange(pos, pos + n);
    match v {
ValV::Byte(x) => {
            assert(s[p] == sub[pad.len() as int]);
            assert(sub[pad.len() as int] == x);
        },
ValV::Boolean(b) => {
            let bit: u32 = if b {
                1
            } else {
                0
            };
            assert(s.subrange(p, p + 4) =~= sub.subrange(pad.len() as int, pad.len() as int + 4));
            assert(sub.subrange(pad.len() as int, pad.len() as int + 4) =~= le32(bit));
            lemma_rd_le32(bit);
        },
        _ => {},
    }
}

/// One size class of the scalar round trip.
#[verifier::spinoff_prover]
#[verifier::rlimit(100)]
proof fn lemma_rt_word(v: ValV, s: Seq<u8>, pos: int, end: int)
    requires
        wf_val(v),
        sm_fits(v, pos),
        0 <= pos,
        pos + sm_val(v, pos).len() <= end,
        end <= s.len(),
        s.subrange(pos, pos + sm_val(v, pos).len()) == sm_val(v, pos),
        v is Int16 || v is Uint16 || v is Int32 || v is Uint32 || v is UnixFd,
    ensures
        pv_val(type_of(v), s, ByteOrder::Little, pos, end) == Some(
            (v, pos + sm_val(v, pos).len()),
        ),
{
    let bo = ByteOrder::Little;
    let t = type_of(v);
    let a = align_of(t);
    lemma_pad_len(pos, a);
    let pad = pad_seq(pos, a);
    let p = pos + pad.len();
    let n = sm_val(v, pos).len() as int;
    let sub = s.subrange(pos, pos + n);
    match v {
ValV::Int16(x) => {
            assert(s.subrange(p, p + 2) =~= sub.subrange(pad.len() as int, pad.len() as int + 2));
            assert(sub.subrange(pad.len() as int, pad.len() as int + 2) =~= le16(u16_of_i16(x)));
            lemma_rd_le16(u16_of_i16(x));
            lemma_i16_bits(x);
        },
ValV::Uint16(x) => {
            assert(s.subrange(p, p + 2) =~= sub.subrange(pad.len() as int, pad.len() as int + 2));
            assert(sub.subrange(pad.len() as int, pad.len() as int + 2) =~= le16(x));
            lemma_rd_le16(x);
        },
ValV::Int32(x) => {
            assert(s.subrange(p, p + 4) =~= sub.subrange(pad.len() as int, pad.len() as int + 4));
            assert(sub.subrange(pad.len() as int, pad.len() as int + 4) =~= le32(u32_of_i32(x)));
            lemma_rd_le32(u32_of_i32(x));
            lemma_i32_bits(x);
        },
ValV::Uint32(x) => {
            assert(s.subrange(p, p + 4) =~= sub.subrange(pad.len() as int, pad.len() as int + 4));
            assert(sub.subrange(pad.len() as int, pad.len() as int + 4) =~= le32(x));
            lemma_rd_le32(x);
        },
ValV::UnixFd(x) => {
            assert(s.subrange(p, p + 4) =~= sub.subrange(pad.len() as int, pad.len() as int + 4));
            assert(sub.subrange(pad.len() as int, pad.len() as int + 4) =~= le32(x));
            lemma_rd_le32(x);
        },
        _ => {},
    }
}

/// One size class of the scalar round trip.
#[verifier::spinoff_prover]
#[verifier::rlimit(100)]
proof fn lemma_rt_wide(v: ValV, s: Seq<u8>, pos: int, end: int)
    requires
        wf_val(v),
        sm_fits(v, pos),
        0 <= pos,
        pos + sm_val(v, pos).len() <= end,
        end <= s.len(),
        s.subrange(pos, pos + sm_val(v, pos).len()) == sm_val(v, pos),
        v is Int64 || v is Uint64 || v is Double,
    ensures
        pv_val(type_of(v), s, ByteOrder::Little, pos, end) == Some(
            (v, pos + sm_val(v, pos).len()),
        ),
{
    let bo = ByteOrder::Little;
    let t = type_of(v);
    let a = align_of(t);
    lemma_pad_len(pos, a);
    let pad = pad_seq(pos, a);
    let p = pos + pad.len();
    let n = sm_val(v, pos).len() as int;
    let sub = s.subrange(pos, pos + n);
    match v {
ValV::Int64(x) => {
            assert(s.subrange(p, p + 8) =~= sub.subrange(pad.len() as int, pad.len() as int + 8));
            assert(sub.subrange(pad.len() as int, pad.len() as int + 8) =~= le64(u64_of_i64(x)));
            lemma_rd_le64(u64_of_i64(x));
            lemma_i64_bits(x);
        },
ValV::Uint64(x) => {
            assert(s.subrange(p, p + 8) =~= sub.subrange(pad.len() as int, pad.len() as int + 8));
            assert(sub.subrange(pad.len() as int, pad.len() as int + 8) =~= le64(x));
            lemma_rd_le64(x);
        },
ValV::Double(x) => {
            assert(s.subrange(p, p + 8) =~= sub.subrange(pad.len() as int, pad.len() as int + 8));
            assert(sub.subrange(pad.len() as int, pad.len() as int + 8) =~= le64(x));
            lemma_rd_le64(x);
        },
        _ => {},
    }
}

/// The round trip of the length-prefixed string-like values.
#[verifier::spinoff_prover]
#[verifier::rlimit(100)]
proof fn lemma_rt_stringlike(v: ValV, s: Seq<u8>, pos: int, end: int)
    requires
        wf_val(v),
        sm_fits(v, pos),
        0 <= pos,
        pos + sm_val(v, pos).len() <= end,
        end <= s.len(),
        s.subrange(pos, pos + sm_val(v, pos).len()) == sm_val(v, pos),
        v is Str || v is ObjectPath || v is Signature,
    ensures
        pv_val(type_of(v), s, ByteOrder::Little, pos, end) == Some(
            (v, pos + sm_val(v, pos).len()),
        ),
{
    let bo = ByteOrder::Little;
    let t = type_of(v);
    let a = align_of(t);
    lemma_pad_len(pos, a);
    let pad = pad_seq(pos, a);
    let p = pos + pad.len();
    let n = sm_val(v, pos).len() as int;
    let sub = s.subrange(pos, pos + n);
    match v {
ValV::Str(bs) => {
            lemma_rt_string(bs, s, pos, end, pad.len() as int, a);
        },
ValV::ObjectPath(bs) => {
            lemma_rt_string(bs, s, pos, end, pad.len() as int, a);
        },
ValV::Signature(bs) => {
            let m = bs.len() as int;
            assert(s[p] == sub[pad.len() as int]);
            assert(sub[pad.len() as int] == m as u8);
            assert(s.subrange(p + 1, p + 1 + m) =~= sub.subrange(pad.len() as int + 1, pad.len() as int + 1 + m));
            assert(sub.subrange(pad.len() as int + 1, pad.len() as int + 1 + m) =~= bs);
            assert(s[p + 1 + m] == sub[pad.len() as int + 1 + m]);
            assert(sub[pad.len() as int + 1 + m] == 0u8);
        },
        _ => {},
    }
}

/// The round trip of a variant value.
#[verifier::spinoff_prover]
#[verifier::rlimit(100)]
proof fn lemma_rt_variant(v: ValV, s: Seq<u8>, pos: int, end: int)
    requires
        wf_val(v),
        sm_fits(v, pos),
        0 <= pos,
        pos + sm_val(v, pos).len() <= end,
        end <= s.len(),
        s.subrange(pos, pos + sm_val(v, pos).len()) == sm_val(v, pos),
        v is Variant,
    ensures
        pv_val(type_of(v), s, ByteOrder::Little, pos, end) == Some(
            (v, pos + sm_val(v, pos).len()),
        ),
    decreases v, 0nat,
{
    let bo = ByteOrder::Little;
    let t = type_of(v);
    let a = align_of(t);
    lemma_pad_len(pos, a);
    let pad = pad_seq(pos, a);
    let p = pos + pad.len();
    let n = sm_val(v, pos).len() as int;
    let sub = s.subrange(pos, pos + n);
    match v {
ValV::Variant(vt, b) => {
            let sg = sig_of(vt);
            let m = sg.len() as int;
            lemma_sig_of_len(vt);
            assert(s[p] == sub[pad.len() as int]);
            assert(sub[pad.len() as int] == m as u8);
            let sigbytes = s.subrange(p + 1, p + 1 + m);
            assert(sigbytes =~= sub.subrange(pad.len() as int + 1, pad.len() as int + 1 + m));
            assert(sub.subrange(pad.len() as int + 1, pad.len() as int + 1 + m) =~= sg);
            assert(s[p + 1 + m] == sub[pad.len() as int + 1 + m]);
            assert(sub[pad.len() as int + 1 + m] == 0u8);
            lemma_wf_ty_of(*b);
            assert(seq![vt].first() == vt);
            assert(seq![vt].drop_first() =~= Seq::<TyV>::empty());
            assert(sig_of_list(seq![vt]) == sig_of(seq![vt].first()) + sig_of_list(
                seq![vt].drop_first(),
            ));
            assert(sig_of_list(seq![vt]) =~= sig_of(vt) + sig_of_list(Seq::<TyV>::empty()));
            assert(sig_of(vt) + Seq::<u8>::empty() =~= sig_of(vt));
            assert(sigbytes.subrange(0, sigbytes.len() as int) =~= sigbytes);
            lemma_sig_all_roundtrip(seq![vt], sigbytes, 0);
            assert(parse_sig_all(sigbytes, 0) == Some(seq![vt]));
            let p2 = p + 1 + m + 1;
            let ib = sm_val(*b, p2);
            assert(s.subrange(p2, p2 + ib.len()) =~= sub.subrange(
                pad.len() as int + 1 + m + 1,
                pad.len() as int + 1 + m + 1 + ib.len(),
            ));
            assert(sub.subrange(pad.len() as int + 1 + m + 1, pad.len() as int + 1 + m + 1 + ib.len()) =~= ib);
            lemma_rt_val(*b, s, p2, end);
        },
        _ => {},
    }
}

/// The round trip of an array value.
#[verifier::spinoff_prover]
#[verifier::rlimit(100)]
proof fn lemma_rt_array(v: ValV, s: Seq<u8>, pos: int, end: int)
    requires
        wf_val(v),
        sm_fits(v, pos),
        0 <= pos,
        pos + sm_val(v, pos).len() <= end,
        end <= s.len(),
        s.subrange(pos, pos + sm_val(v, pos).len()) == sm_val(v, pos),
        v is Array,
    ensures
        pv_val(type_of(v), s, ByteOrder::Little, pos, end) == Some(
            (v, pos + sm_val(v, pos).len()),
        ),
    decreases v, 0nat,
{
    let bo = ByteOrder::Little;
    let t = type_of(v);
    let a = align_of(t);
    lemma_pad_len(pos, a);
    let pad = pad_seq(pos, a);
    let p = pos + pad.len();
    let n = sm_val(v, pos).len() as int;
    let sub = s.subrange(pos, pos + n);
    match v {
ValV::Array(et, es) => {
            let p1 = p + 4;
            lemma_pad_len(p1, align_of(et));
            let pe = pad_seq(p1, align_of(et));
            let p2 = p1 + pe.len();
            let eb = sm_vals(es, p2);
            let cnt = eb.len() as int;
            assert(s.subrange(p, p + 4) =~= sub.subrange(pad.len() as int, pad.len() as int + 4));
            assert(sub.subrange(pad.len() as int, pad.len() as int + 4) =~= le32(cnt as u32));
            lemma_rd_le32(cnt as u32);
            assert(s.subrange(p2, p2 + cnt) =~= sub.subrange(
                pad.len() as int + 4 + pe.len(),
                pad.len() as int + 4 + pe.len() as int + cnt,
            ));
            assert(sub.subrange(pad.len() as int + 4 + pe.len(), pad.len() as int + 4 + pe.len() as int + cnt) =~= eb);
            assert forall|i: int| 0 <= i < es.len() implies wf_val(#[trigger] es[i]) && type_of(
                es[i],
            ) == et by {
                assert(type_of(es[i]) == et && wf_val(es[i]));
            }
            lemma_rt_elems(et, es, s, p2, p2 + cnt, Seq::empty());
            assert(Seq::<ValV>::empty() + es =~= es);
        },
        _ => {},
    }
}

/// The round trip of a dictionary value.
#[verifier::spinoff_prover]
#[verifier::rlimit(100)]
proof fn lemma_rt_dict(v: ValV, s: Seq<u8>, pos: int, end: int)
    requires
        wf_val(v),
        sm_fits(v, pos),
        0 <= pos,
        pos + sm_val(v, pos).len() <= end,
        end <= s.len(),
        s.subrange(pos, pos + sm_val(v, pos).len()) == sm_val(v, pos),
        v is Dict,
    ensures
        pv_val(type_of(v), s, ByteOrder::Little, pos, end) == Some(
            (v, pos + sm_val(v, pos).len()),
        ),
    decreases v, 0nat,
{
    let bo = ByteOrder::Little;
    let t = type_of(v);
    let a = align_of(t);
    lemma_pad_len(pos, a);
    let pad = pad_seq(pos, a);
    let p = pos + pad.len();
    let n = sm_val(v, pos).len() as int;
    let sub = s.subrange(pos, pos + n);
    match v {
ValV::Dict(kt, vt, es) => {
            let p1 = p + 4;
            lemma_pad_len(p1, 8);
            let pe = pad_seq(p1, 8);
            let p2 = p1 + pe.len();
            let eb = sm_entries(es, p2);
            let cnt = eb.len() as int;
            assert(s.subrange(p, p + 4) =~= sub.subrange(pad.len() as int, pad.len() as int + 4));
            assert(sub.subrange(pad.len() as int, pad.len() as int + 4) =~= le32(cnt as u32));
            lemma_rd_le32(cnt as u32);
            assert(s.subrange(p2, p2 + cnt) =~= sub.subrange(
                pad.len() as int + 4 + pe.len(),
                pad.len() as int + 4 + pe.len() as int + cnt,
            ));
            assert(sub.subrange(pad.len() as int + 4 + pe.len(), pad.len() as int + 4 + pe.len() as int + cnt) =~= eb);
            lemma_rt_entries(t, kt, vt, es, s, p2, p2 + cnt, Seq::empty());
            assert(Seq::<(ValV, ValV)>::empty() + es =~= es);
        },
        _ => {},
    }
}

/// The round trip of a struct value.
#[verifier::spinoff_prover]
#[verifier::rlimit(100)]
proof fn lemma_rt_struct(v: ValV, s: Seq<u8>, pos: int, end: int)
    requires
        wf_val(v),
        sm_fits(v, pos),
        0 <= pos,
        pos + sm_val(v, pos).len() <= end,
        end <= s.len(),
        s.subrange(pos, pos + sm_val(v, pos).len()) == sm_val(v, pos),
        v is Struct,
    ensures
        pv_val(type_of(v), s, ByteOrder::Little, pos, end) == Some(
            (v, pos + sm_val(v, pos).len()),
        ),
    decreases v, 0nat,
{
    let bo = ByteOrder::Little;
    let t = type_of(v);
    let a = align_of(t);
    lemma_pad_len(pos, a);
    let pad = pad_seq(pos, a);
    let p = pos + pad.len();
    let n = sm_val(v, pos).len() as int;
    let sub = s.subrange(pos, pos + n);
    match v {
ValV::Struct(ms) => {
            let mb = sm_vals(ms, p);
            assert(s.subrange(p, p + mb.len()) =~= sub.subrange(
                pad.len() as int,
                pad.len() as int + mb.len(),
            ));
            assert(sub.subrange(pad.len() as int, pad.len() as int + mb.len()) =~= mb);
            lemma_types_of(ms);
            lemma_rt_fields(ms, s, p, end, Seq::empty());
            assert(Seq::<ValV>::empty() + ms =~= ms);
        },
        _ => {},
    }
}

/// The string payload round trip shared by strings and object paths.
proof fn lemma_rt_string(bs: Seq<u8>, s: Seq<u8>, pos: int, end: int, padn: int, a: int)
    requires
        crate::value::string_bytes_ok(bs),
        a == 4,
        padn == pad_len(pos, a),
        0 <= pos,
        pos + padn + 4 + bs.len() + 1 <= end,
        end <= s.len(),
        s.subrange(pos, pos + padn + 4 + bs.len() + 1) == pad_seq(pos, a) + le32(bs.len() as u32)
            + bs + seq![0u8],
    ensures
        pv_string(s, ByteOrder::Little, pos + padn, end) == Some(
            (bs, pos + padn + 4 + bs.len() + 1),
        ),
{
    let p = pos + padn;
    let m = bs.len() as int;
    let sub = s.subrange(pos, pos + padn + 4 + m + 1);
    assert(s.subrange(p, p + 4) =~= sub.subrange(padn, padn + 4));
    assert(sub.subrange(padn, padn + 4) =~= le32(m as u32));
    lemma_rd_le32(m as u32);
    assert(s.subrange(p + 4, p + 4 + m) =~= sub.subrange(padn + 4, padn + 4 + m));
    assert(sub.subrange(padn + 4, padn + 4 + m) =~= bs);
    assert(s[p + 4 + m] == sub[padn + 4 + m]);
    assert(sub[padn + 4 + m] == 0u8);
}

/// Parsing the marshalled element region of an array yields the elements,
/// appended to whatever was already accumulated.
#[verifier::spinoff_prover]
#[verifier::rlimit(100)]
pub proof fn lemma_rt_elems(
    et: TyV,
    es: Seq<ValV>,
    s: Seq<u8>,
    pos: int,
    end: int,
    acc: Seq<ValV>,
)
    requires
        forall|i: int| 0 <= i < es.len() ==> wf_val(#[trigger] es[i]) && type_of(es[i]) == et,
        sm_vals_fit(es, pos),
        0 <= pos,
        pos + sm_vals(es, pos).len() == end,
        end <= s.len(),
        s.subrange(pos, end) == sm_vals(es, pos),
    ensures
        pv_elems(et, s, ByteOrder::Little, pos, end, acc) == Some(acc + es),
    decreases es, 1nat,
{
    if es.len() == 0 {
        assert(acc + es =~= acc);
    } else {
        let e = es.first();
        let rest = es.drop_first();
        let b0 = sm_val(e, pos);
        let p = pos + b0.len();
        let region = s.subrange(pos, end);
        assert(s.subrange(pos, p) =~= region.subrange(0, b0.len() as int));
        assert(region.subrange(0, b0.len() as int) =~= b0);
        lemma_rt_val(e, s, pos, end);
        lemma_sm_min_len(e, pos);
        assert(s.subrange(p, end) =~= region.subrange(b0.len() as int, region.len() as int));
        assert(region.subrange(b0.len() as int, region.len() as int) =~= sm_vals(rest, p));
        lemma_rt_elems(et, rest, s, p, end, acc.push(e));
        assert(acc.push(e) + rest =~= acc + es);
    }
}

/// Parsing the marshalled members of a struct, or of a message body, yields
/// them back together with the offset just past the last one.
#[verifier::spinoff_prover]
#[verifier::rlimit(100)]
pub proof fn lemma_rt_fields(vs: Seq<ValV>, s: Seq<u8>, pos: int, end: int, acc: Seq<ValV>)
    requires
        forall|i: int| 0 <= i < vs.len() ==> wf_val(#[trigger] vs[i]),
        sm_vals_fit(vs, pos),
        0 <= pos,
        pos + sm_vals(vs, pos).len() <= end,
        end <= s.len(),
        s.subrange(pos, pos + sm_vals(vs, pos).len()) == sm_vals(vs, pos),
    ensures
        pv_fields(types_of(vs), s, ByteOrder::Little, pos, end, acc) == Some(
            (acc + vs, pos + sm_vals(vs, pos).len()),
        ),
    decreases vs, 1nat,
{
    lemma_types_of(vs);
    if vs.len() == 0 {
        assert(acc + vs =~= acc);
    } else {
        let e = vs.first();
        let rest = vs.drop_first();
        let b0 = sm_val(e, pos);
        let p = pos + b0.len();
        let region = s.subrange(pos, pos + sm_vals(vs, pos).len());
        assert(s.subrange(pos, p) =~= region.subrange(0, b0.len() as int));
        assert(region.subrange(0, b0.len() as int) =~= b0);
        lemma_rt_val(e, s, pos, end);
        assert(types_of(vs).first() == type_of(e));
        assert(types_of(vs).drop_first() =~= types_of(rest)) by {
            lemma_types_of(rest);
            assert forall|i: int| 0 <= i < rest.len() implies types_of(vs).drop_first()[i]
                == types_of(rest)[i] by {
                assert(types_of(vs)[i + 1] == type_of(vs[i + 1]));
            }
        }
        assert(s.subrange(p, p + sm_vals(rest, p).len()) =~= region.subrange(
            b0.len() as int,
            region.len() as int,
        ));
        assert(region.subrange(b0.len() as int, region.len() as int) =~= sm_vals(rest, p));
        lemma_rt_fields(rest, s, p, end, acc.push(e));
        assert(acc.push(e) + rest =~= acc + vs);
    }
}

/// Parsing the marshalled entry region of a dictionary yields the entries,
/// appended to whatever was already accumulated.
#[verifier::spinoff_prover]
#[verifier::rlimit(100)]
pub proof fn lemma_rt_entries(
    dt: TyV,
    kt: TyV,
    vt: TyV,
    es: Seq<(ValV, ValV)>,
    s: Seq<u8>,
    pos: int,
    end: int,
    acc: Seq<(ValV, ValV)>,
)
    requires
        dt == TyV::Dict(Box::new(kt), Box::new(vt)),
        forall|i: int|
            0 <= i < es.len() ==> wf_val((#[trigger] es[i]).0) && wf_val(es[i].1) && type_of(
                es[i].0,
            ) == kt && type_of(es[i].1) == vt,
        sm_entries_fit(es, pos),
        0 <= pos,
        pos + sm_entries(es, pos).len() == end,
        end <= s.len(),
        s.subrange(pos, end) == sm_entries(es, pos),
    ensures
        pv_entries(dt, s, ByteOrder::Little, pos, end, acc) == Some(acc + es),
    decreases es, 1nat,
{
    if es.len() == 0 {
        assert(acc + es =~= acc);
    } else {
        let e = es.first();
        let rest = es.drop_first();
        lemma_pad_len(pos, 8);
        let pad = pad_seq(pos, 8);
        let p = pos + pad.len();
        let kb = sm_val(e.0, p);
        let p1 = p + kb.len();
        let vb = sm_val(e.1, p1);
        let p2 = p1 + vb.len();
        let region = s.subrange(pos, end);
        assert(s.subrange(p, p1) =~= region.subrange(pad.len() as int, pad.len() as int + kb.len()));
        assert(region.subrange(pad.len() as int, pad.len() as int + kb.len()) =~= kb);
        lemma_rt_val(e.0, s, p, end);
        assert(s.subrange(p1, p2) =~= region.subrange(
            pad.len() as int + kb.len(),
            pad.len() as int + kb.len() as int + vb.len(),
        ));
        assert(region.subrange(pad.len() as int + kb.len(), pad.len() as int + kb.len() as int + vb.len()) =~= vb);
        lemma_rt_val(e.1, s, p1, end);
        lemma_sm_min_len(e.0, p);
        assert(s.subrange(p2, end) =~= region.subrange(
            pad.len() as int + kb.len() as int + vb.len(),
            region.len() as int,
        ));
        assert(region.subrange(pad.len() as int + kb.len() as int + vb.len(), region.len() as int) =~= sm_entries(
            rest,
            p2,
        ));
        lemma_rt_entries(dt, kt, vt, rest, s, p2, end, acc.push(e));
        assert(acc.push(e) + rest =~= acc + es);
    }
}

} // verus!
