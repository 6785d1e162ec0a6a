use crate::error::MarshalError;
use crate::sig::sig_of;
use crate::value::{TypeSig, ValV, Value, align_of, lemma_pairs_view, lemma_vals_view, pairs_view, type_of,
    vals_view, val_view, wf_val};
use crate::wire::{bits_of_i16, bits_of_i32, bits_of_i64, le16, le32, le64, pad_len, pad_seq,
    push_bytes, push_pad, push_u16, push_u32, push_u64, u16_of_i16, u32_of_i32, u64_of_i64,
    write_u32_at};
use vstd::prelude::*;

verus! {

// ---------------------------------------------------------------------------
// The serialization model: the exact bytes of a value at a frame offset
// ---------------------------------------------------------------------------

/// The bytes of one value marshalled at absolute frame offset `pos`,
/// including the padding that brings `pos` to the value's natural alignment.
/// Every length field is little-endian: this is the order the engine writes;
/// the decoder additionally accepts big-endian frames.
pub open spec fn sm_val(v: ValV, pos: int) -> Seq<u8>
    decreases v, 0nat,
{
    let a = align_of(type_of(v));
    let pad = pad_seq(pos, a);
    let p = pos + pad.len();
    match v {
        ValV::Byte(x) => pad + seq![x],
        ValV::Boolean(b) => pad + le32(
            if b {
                1
            } else {
                0
            },
        ),
        ValV::Int16(x) => pad + le16(u16_of_i16(x)),
        ValV::Uint16(x) => pad + le16(x),
        ValV::Int32(x) => pad + le32(u32_of_i32(x)),
        ValV::Uint32(x) => pad + le32(x),
        ValV::Int64(x) => pad + le64(u64_of_i64(x)),
        ValV::Uint64(x) => pad + le64(x),
        ValV::Double(x) => pad + le64(x),
        ValV::UnixFd(x) => pad + le32(x),
        ValV::Str(bs) => pad + le32(bs.len() as u32) + bs + seq![0u8],
        ValV::ObjectPath(bs) => pad + le32(bs.len() as u32) + bs + seq![0u8],
        ValV::Signature(bs) => pad + seq![bs.len() as u8] + bs + seq![0u8],
        ValV::Variant(t, b) => {
            let sg = sig_of(t);
            let hdr = seq![sg.len() as u8] + sg + seq![0u8];
            pad + hdr + sm_val(*b, p + hdr.len())
        },
        ValV::Array(t, es) => {
            let p1 = p + 4;
            let pe = pad_seq(p1, align_of(t));
            let p2 = p1 + pe.len();
            let eb = sm_vals(es, p2);
            pad + le32(eb.len() as u32) + pe + eb
        },
        ValV::Struct(ms) => pad + sm_vals(ms, p),
        ValV::Dict(k, vt, es) => {
            let p1 = p + 4;
            let pe = pad_seq(p1, 8);
            let p2 = p1 + pe.len();
            let eb = sm_entries(es, p2);
            pad + le32(eb.len() as u32) + pe + eb
        },
    }
}

/// The bytes of a sequence of values laid out one after the other starting
/// at `pos`.
pub open spec fn sm_vals(vs: Seq<ValV>, pos: int) -> Seq<u8>
    decreases vs, 1nat,
{
    if vs.len() == 0 {
        Seq::empty()
    } else {
        let b0 = sm_val(vs.first(), pos);
        b0 + sm_vals(vs.drop_first(), pos + b0.len())
    }
}

/// The bytes of a sequence of dictionary entries starting at `pos`: each
/// entry is aligned to eight bytes, key first, value second.
pub open spec fn sm_entries(es: Seq<(ValV, ValV)>, pos: int) -> Seq<u8>
    decreases es, 1nat,
{
    if es.len() == 0 {
        Seq::empty()
    } else {
        let pad = pad_seq(pos, 8);
        let p = pos + pad.len();
        let kb = sm_val(es.first().0, p);
        let vb = sm_val(es.first().1, p + kb.len());
        pad + kb + vb + sm_entries(es.drop_first(), p + kb.len() + vb.len())
    }
}

// ---------------------------------------------------------------------------
// Representability: every bounded length field of the encoding fits
// ---------------------------------------------------------------------------

/// Whether the encoding of `v` at `pos` is expressible: the byte count of
/// every array and dictionary fits its unsigned 32-bit length field. A
/// marshal call fails exactly when this is violated.
pub open spec fn sm_fits(v: ValV, pos: int) -> bool
    decreases v, 0nat,
{
    let a = align_of(type_of(v));
    let p = pos + pad_len(pos, a);
    match v {
        ValV::Variant(t, b) => sig_of(t).len() <= 255 && sm_fits(*b, p + 1 + sig_of(t).len() + 1),
        ValV::Array(t, es) => {
            let p1 = p + 4;
            let p2 = p1 + pad_len(p1, align_of(t));
            sm_vals(es, p2).len() <= 0xFFFF_FFFF && sm_vals_fit(es, p2)
        },
        ValV::Struct(ms) => sm_vals_fit(ms, p),
        ValV::Dict(k, vt, es) => {
            let p1 = p + 4;
            let p2 = p1 + pad_len(p1, 8);
            sm_entries(es, p2).len() <= 0xFFFF_FFFF && sm_entries_fit(es, p2)
        },
        _ => true,
    }
}

pub open spec fn sm_vals_fit(vs: Seq<ValV>, pos: int) -> bool
    decreases vs, 1nat,
{
    if vs.len() == 0 {
        true
    } else {
        sm_fits(vs.first(), pos) && sm_vals_fit(
            vs.drop_first(),
            pos + sm_val(vs.first(), pos).len(),
        )
    }
}

pub open spec fn sm_entries_fit(es: Seq<(ValV, ValV)>, pos: int) -> bool
    decreases es, 1nat,
{
    if es.len() == 0 {
        true
    } else {
        let p = pos + pad_len(pos, 8);
        let kb = sm_val(es.first().0, p);
        sm_fits(es.first().0, p) && sm_fits(es.first().1, p + kb.len()) && sm_entries_fit(
            es.drop_first(),
            p + kb.len() + sm_val(es.first().1, p + kb.len()).len(),
        )
    }
}

// ---------------------------------------------------------------------------
// Decomposition lemmas used by the loop proofs
// ---------------------------------------------------------------------------

/// Splitting a value sequence at `i` splits its bytes and its
/// representability at the corresponding offset.
pub proof fn lemma_sm_vals_split(vs: Seq<ValV>, i: int, pos: int)
    requires
        0 <= i <= vs.len(),
    ensures
        sm_vals(vs, pos) == sm_vals(vs.take(i), pos) + sm_vals(
            vs.skip(i),
            pos + sm_vals(vs.take(i), pos).len(),
        ),
        sm_vals_fit(vs, pos) == (sm_vals_fit(vs.take(i), pos) && sm_vals_fit(
            vs.skip(i),
            pos + sm_vals(vs.take(i), pos).len(),
        )),
    decreases i,
{
    if i == 0 {
        assert(vs.take(0) =~= Seq::<ValV>::empty());
        assert(vs.skip(0) =~= vs);
        assert(sm_vals(vs.take(0), pos) =~= Seq::<u8>::empty());
        assert(Seq::<u8>::empty() + sm_vals(vs, pos) =~= sm_vals(vs, pos));
    } else {
        let t = vs.take(i);
        assert(t.len() == i && vs.len() > 0);
        assert(t.first() == vs.first());
        lemma_sm_vals_split(vs.drop_first(), i - 1, pos + sm_val(vs.first(), pos).len());
        assert(vs.drop_first().take(i - 1) =~= t.drop_first());
        assert(vs.drop_first().skip(i - 1) =~= vs.skip(i));
        let b0 = sm_val(vs.first(), pos);
        let rest = vs.drop_first();
        let p1 = pos + b0.len();
        // bytes of the prefix
        assert(sm_vals(t, pos) == b0 + sm_vals(t.drop_first(), p1));
        assert(b0 + (sm_vals(rest.take(i - 1), p1) + sm_vals(
            rest.skip(i - 1),
            p1 + sm_vals(rest.take(i - 1), p1).len(),
        )) =~= (b0 + sm_vals(rest.take(i - 1), p1)) + sm_vals(
            rest.skip(i - 1),
            p1 + sm_vals(rest.take(i - 1), p1).len(),
        ));
    }
}

/// Splitting an entry sequence at `i` splits its bytes and its
/// representability at the corresponding offset.
pub proof fn lemma_sm_entries_split(es: Seq<(ValV, ValV)>, i: int, pos: int)
    requires
        0 <= i <= es.len(),
    ensures
        sm_entries(es, pos) == sm_entries(es.take(i), pos) + sm_entries(
            es.skip(i),
            pos + sm_entries(es.take(i), pos).len(),
        ),
        sm_entries_fit(es, pos) == (sm_entries_fit(es.take(i), pos) && sm_entries_fit(
            es.skip(i),
            pos + sm_entries(es.take(i), pos).len(),
        )),
    decreases i,
{
    if i == 0 {
        assert(es.take(0) =~= Seq::<(ValV, ValV)>::empty());
        assert(es.skip(0) =~= es);
        assert(sm_entries(es.take(0), pos) =~= Seq::<u8>::empty());
        assert(Seq::<u8>::empty() + sm_entries(es, pos) =~= sm_entries(es, pos));
    } else {
        let t = es.take(i);
        assert(t.first() == es.first());
        let pad = pad_seq(pos, 8);
        let p = pos + pad.len();
        let kb = sm_val(es.first().0, p);
        let vb = sm_val(es.first().1, p + kb.len());
        let p1 = p + kb.len() + vb.len();
        let rest = es.drop_first();
        lemma_sm_entries_split(rest, i - 1, p1);
        assert(rest.take(i - 1) =~= t.drop_first());
        assert(rest.skip(i - 1) =~= es.skip(i));
        assert(sm_entries(t, pos) == pad + kb + vb + sm_entries(t.drop_first(), p1));
        assert((pad + kb + vb) + (sm_entries(rest.take(i - 1), p1) + sm_entries(
            rest.skip(i - 1),
            p1 + sm_entries(rest.take(i - 1), p1).len(),
        )) =~= ((pad + kb + vb) + sm_entries(rest.take(i - 1), p1)) + sm_entries(
            rest.skip(i - 1),
            p1 + sm_entries(rest.take(i - 1), p1).len(),
        ));
        assert(sm_entries(es, pos) =~= (pad + kb + vb) + sm_entries(rest, p1));
    }
}

/// Appending one value to a sequence appends its bytes at the accumulated
/// offset.
pub proof fn lemma_sm_vals_snoc(vs: Seq<ValV>, v: ValV, pos: int)
    ensures
        sm_vals(vs.push(v), pos) == sm_vals(vs, pos) + sm_val(v, pos + sm_vals(vs, pos).len()),
        sm_vals_fit(vs.push(v), pos) == (sm_vals_fit(vs, pos) && sm_fits(
            v,
            pos + sm_vals(vs, pos).len(),
        )),
{
    let w = vs.push(v);
    lemma_sm_vals_split(w, vs.len() as int, pos);
    assert(w.take(vs.len() as int) =~= vs);
    assert(w.skip(vs.len() as int) =~= seq![v]);
    let p = pos + sm_vals(vs, pos).len();
    assert(seq![v].drop_first() =~= Seq::<ValV>::empty());
    assert(sm_vals_fit(Seq::<ValV>::empty(), p + sm_val(v, p).len()));
    assert(sm_vals_fit(seq![v], p) == (sm_fits(v, p) && sm_vals_fit(
        Seq::<ValV>::empty(),
        p + sm_val(v, p).len(),
    )));
    assert(sm_vals(seq![v], p) == sm_val(v, p) + sm_vals(Seq::<ValV>::empty(), p + sm_val(
        v,
        p,
    ).len()));
    assert(sm_val(v, p) + Seq::<u8>::empty() =~= sm_val(v, p));
    assert(sm_vals(vs, pos) + sm_vals(seq![v], p) =~= sm_vals(vs, pos) + sm_val(v, p));
}

/// Appending one entry to an entry sequence appends its bytes at the
/// accumulated offset.
pub proof fn lemma_sm_entries_snoc(es: Seq<(ValV, ValV)>, e: (ValV, ValV), pos: int)
    ensures
        sm_entries(es.push(e), pos) == sm_entries(es, pos) + sm_entries(
            seq![e],
            pos + sm_entries(es, pos).len(),
        ),
        sm_entries_fit(es.push(e), pos) == (sm_entries_fit(es, pos) && sm_entries_fit(
            seq![e],
            pos + sm_entries(es, pos).len(),
        )),
{
    let w = es.push(e);
    lemma_sm_entries_split(w, es.len() as int, pos);
    assert(w.take(es.len() as int) =~= es);
    assert(w.skip(es.len() as int) =~= seq![e]);
}

// ---------------------------------------------------------------------------
// Executable marshalling
// ---------------------------------------------------------------------------

/// Marshals a sequence of values one after the other at the current end of
/// `buf`. Succeeds exactly when every bounded length field inside fits.
#[verifier::loop_isolation(false)]
pub(crate) fn marshal_vals(vs: &Vec<Value>, buf: &mut Vec<u8>) -> (r: Result<(), MarshalError>)
    requires
        forall|j: int| 0 <= j < vs@.len() ==> wf_val(val_view(#[trigger] vs@[j])),
    ensures
        r is Ok ==> sm_vals_fit(vals_view(vs@), old(buf)@.len() as int) && final(buf)@ == old(buf)@
            + sm_vals(vals_view(vs@), old(buf)@.len() as int),
        r is Err ==> !sm_vals_fit(vals_view(vs@), old(buf)@.len() as int),
    decreases *vs, 1nat,
{
    let ghost pos0 = buf@.len() as int;
    let ghost ev = vals_view(vs@);
    proof {
        lemma_vals_view(vs@);
    }
    let mut i: usize = 0;
    while i < vs.len()
        invariant
            i <= vs@.len(),
            buf@ == old(buf)@ + sm_vals(ev.take(i as int), pos0),
            sm_vals_fit(ev.take(i as int), pos0),
        decreases vs@.len() - i,
    {
        proof {
            assert(decreases_to!(*vs => vs@[i as int]));
            assert(val_view(vs@[i as int]) == ev[i as int]);
        }
        let ghost cur = buf@.len() as int;
        proof {
            assert(cur == pos0 + sm_vals(ev.take(i as int), pos0).len());
        }
        match vs[i].marshal_value(buf) {
            Ok(_) => {
                proof {
                    lemma_sm_vals_snoc(ev.take(i as int), ev[i as int], pos0);
                    assert(ev.take(i as int).push(ev[i as int]) =~= ev.take(i + 1));
                    assert(buf@ =~= old(buf)@ + sm_vals(ev.take(i + 1), pos0));
                }
            },
            Err(e) => {
                proof {
                    lemma_sm_vals_split(ev, i as int, pos0);
                    assert(ev.skip(i as int).first() == ev[i as int]);
                    assert(!sm_vals_fit(ev.skip(i as int), cur));
                    assert(!sm_vals_fit(ev, pos0));
                }
                return Err(e);
            },
        }
        i = i + 1;
    }
    proof {
        assert(ev.take(vs@.len() as int) =~= ev);
    }
    Ok(())
}

/// Marshals a sequence of dictionary entries, each aligned to eight bytes, at
/// the current end of `buf`.
#[verifier::loop_isolation(false)]
#[verifier::rlimit(60)]
fn marshal_entries(es: &Vec<(Value, Value)>, buf: &mut Vec<u8>) -> (r: Result<(), MarshalError>)
    requires
        forall|j: int|
            0 <= j < es@.len() ==> wf_val(val_view((#[trigger] es@[j]).0)) && wf_val(
                val_view(es@[j].1),
            ),
    ensures
        r is Ok ==> sm_entries_fit(pairs_view(es@), old(buf)@.len() as int) && final(buf)@ == old(
            buf,
        )@ + sm_entries(pairs_view(es@), old(buf)@.len() as int),
        r is Err ==> !sm_entries_fit(pairs_view(es@), old(buf)@.len() as int),
    decreases *es, 1nat,
{
    let ghost pos0 = buf@.len() as int;
    let ghost ev = pairs_view(es@);
    proof {
        lemma_pairs_view(es@);
    }
    let mut i: usize = 0;
    while i < es.len()
        invariant
            i <= es@.len(),
            buf@ == old(buf)@ + sm_entries(ev.take(i as int), pos0),
            sm_entries_fit(ev.take(i as int), pos0),
        decreases es@.len() - i,
    {
        proof {
            assert(decreases_to!(*es => es@[i as int]));
            assert(decreases_to!(es@[i as int] => es@[i as int].0));
            assert(decreases_to!(es@[i as int] => es@[i as int].1));
            assert(ev[i as int] == (val_view(es@[i as int].0), val_view(es@[i as int].1)));
        }
        let ghost cur = buf@.len() as int;
        proof {
            assert(cur == pos0 + sm_entries(ev.take(i as int), pos0).len());
        }
        push_pad(buf, 8);
        let ghost kcur = buf@.len() as int;
        match es[i].0.marshal_value(buf) {
            Ok(_) => {},
            Err(e) => {
                proof {
                    lemma_sm_entries_split(ev, i as int, pos0);
                    assert(ev.skip(i as int).first() == ev[i as int]);
                    assert(!sm_entries_fit(ev.skip(i as int), cur));
                    assert(!sm_entries_fit(ev, pos0));
                }
                return Err(e);
            },
        }
        let ghost vcur = buf@.len() as int;
        match es[i].1.marshal_value(buf) {
            Ok(_) => {
                proof {
                    lemma_sm_entries_snoc(ev.take(i as int), ev[i as int], pos0);
                    assert(ev.take(i as int).push(ev[i as int]) =~= ev.take(i + 1));
                    assert(seq![ev[i as int]].drop_first() =~= Seq::<(ValV, ValV)>::empty());
                    let vb = sm_val(ev[i as int].1, vcur);
                    assert(sm_entries_fit(Seq::<(ValV, ValV)>::empty(), vcur + vb.len()));
                    assert(sm_entries_fit(seq![ev[i as int]], cur) == (sm_fits(ev[i as int].0, kcur)
                        && sm_fits(ev[i as int].1, vcur) && sm_entries_fit(
                        Seq::<(ValV, ValV)>::empty(),
                        vcur + vb.len(),
                    )));
                    let tail = sm_entries(seq![ev[i as int]], cur);
                    assert(tail == pad_seq(cur, 8) + sm_val(ev[i as int].0, kcur) + vb + sm_entries(
                        Seq::<(ValV, ValV)>::empty(),
                        vcur + vb.len(),
                    ));
                    assert(buf@ =~= old(buf)@ + sm_entries(ev.take(i + 1), pos0));
                }
            },
            Err(e) => {
                proof {
                    lemma_sm_entries_split(ev, i as int, pos0);
                    assert(ev.skip(i as int).first() == ev[i as int]);
                    assert(!sm_entries_fit(ev.skip(i as int), cur));
                    assert(!sm_entries_fit(ev, pos0));
                }
                return Err(e);
            },
        }
        i = i + 1;
    }
    proof {
        assert(ev.take(es@.len() as int) =~= ev);
    }
    Ok(())
}

/// Marshals the length-prefixed, element-aligned payload of an array: the
/// byte count, the padding to the element alignment, and the elements. The
/// caller has already aligned the buffer to four bytes.
#[verifier::rlimit(60)]
fn marshal_array_body(t: &TypeSig, es: &Vec<Value>, buf: &mut Vec<u8>) -> (r: Result<
    (),
    MarshalError,
>)
    requires
        forall|j: int| 0 <= j < es@.len() ==> wf_val(val_view(#[trigger] es@[j])),
    ensures
        ({
            let start = old(buf)@.len() as int;
            let ae = align_of(ty_view_of(*t));
            let p2 = start + 4 + pad_len(start + 4, ae);
            let eb = sm_vals(vals_view(es@), p2);
            &&& (r is Ok ==> eb.len() <= 0xFFFF_FFFF && sm_vals_fit(vals_view(es@), p2) && final(buf)@ == old(buf)@ + le32(eb.len() as u32) + pad_seq(start + 4, ae) + eb)
            &&& (r is Err ==> !(eb.len() <= 0xFFFF_FFFF && sm_vals_fit(vals_view(es@), p2)))
        }),
    decreases *es, 2nat,
{
    let cpos = buf.len();
    push_u32(buf, 0);
    push_pad(buf, t.align());
    let estart = buf.len();
    let ghost epos = estart as int;
    let ghost ev = vals_view(es@);
    match marshal_vals(es, buf) {
        Ok(_) => {},
        Err(e) => {
            return Err(e);
        },
    }
    let elen = buf.len() - estart;
    if elen > 0xFFFF_FFFFusize {
        return Err(MarshalError::TooLarge);
    }
    write_u32_at(buf, cpos, elen as u32);
    proof {
        let ae = align_of(ty_view_of(*t));
        let pe = pad_seq(cpos as int + 4, ae);
        let eb = sm_vals(ev, epos);
        let whole = old(buf)@ + le32(0) + pe + eb;
        assert(whole.subrange(0, cpos as int) =~= old(buf)@);
        assert(whole.subrange(cpos as int + 4, whole.len() as int) =~= pe + eb);
        assert(buf@ =~= old(buf)@ + le32(elen as u32) + pad_seq(cpos as int + 4, ae) + eb);
    }
    Ok(())
}

/// Marshals the length-prefixed payload of a dictionary: the byte count, the
/// padding to the eight-byte entry alignment, and the entries. The caller has
/// already aligned the buffer to four bytes.
#[verifier::rlimit(60)]
fn marshal_dict_body(es: &Vec<(Value, Value)>, buf: &mut Vec<u8>) -> (r: Result<(), MarshalError>)
    requires
        forall|j: int|
            0 <= j < es@.len() ==> wf_val(val_view((#[trigger] es@[j]).0)) && wf_val(
                val_view(es@[j].1),
            ),
    ensures
        ({
            let start = old(buf)@.len() as int;
            let p2 = start + 4 + pad_len(start + 4, 8);
            let eb = sm_entries(pairs_view(es@), p2);
            &&& (r is Ok ==> eb.len() <= 0xFFFF_FFFF && sm_entries_fit(pairs_view(es@), p2)
                && final(buf)@ == old(buf)@ + le32(eb.len() as u32) + pad_seq(start + 4, 8) + eb)
            &&& (r is Err ==> !(eb.len() <= 0xFFFF_FFFF && sm_entries_fit(pairs_view(es@), p2)))
        }),
    decreases *es, 2nat,
{
    let cpos = buf.len();
    push_u32(buf, 0);
    push_pad(buf, 8);
    let estart = buf.len();
    let ghost epos = estart as int;
    let ghost ev = pairs_view(es@);
    match marshal_entries(es, buf) {
        Ok(_) => {},
        Err(e) => {
            return Err(e);
        },
    }
    let elen = buf.len() - estart;
    if elen > 0xFFFF_FFFFusize {
        return Err(MarshalError::TooLarge);
    }
    write_u32_at(buf, cpos, elen as u32);
    proof {
        let pe = pad_seq(cpos as int + 4, 8);
        let eb = sm_entries(ev, epos);
        let whole = old(buf)@ + le32(0) + pe + eb;
        assert(whole.subrange(0, cpos as int) =~= old(buf)@);
        assert(whole.subrange(cpos as int + 4, whole.len() as int) =~= pe + eb);
        assert(buf@ =~= old(buf)@ + le32(elen as u32) + pad_seq(cpos as int + 4, 8) + eb);
    }
    Ok(())
}

impl Value {
    /// Marshals this value at the current end of `buf`, which is also its
    /// absolute frame offset. Succeeds exactly when every bounded length
    /// field of the encoding fits, and then appends exactly the bytes of the
    /// serialization model.
    #[verifier::rlimit(60)]
    pub fn marshal_value(&self, buf: &mut Vec<u8>) -> (r: Result<(), MarshalError>)
        requires
            wf_val(self@),
        ensures
            r is Ok ==> sm_fits(self@, old(buf)@.len() as int) && final(buf)@ == old(buf)@ + sm_val(
                self@,
                old(buf)@.len() as int,
            ),
            r is Err ==> !sm_fits(self@, old(buf)@.len() as int),
        decreases *self, 0nat,
    {
        let ghost pos0 = buf@.len() as int;
        let a = self.wire_align();
        push_pad(buf, a);
        match self {
            Value::Byte(x) => {
                buf.push(*x);
                proof {
                    assert(buf@ =~= old(buf)@ + sm_val(self@, pos0));
                }
                Ok(())
            },
            Value::Boolean(b) => {
                push_u32(
                    buf,
                    if *b {
                        1
                    } else {
                        0
                    },
                );
                proof {
                    assert(buf@ =~= old(buf)@ + sm_val(self@, pos0));
                }
                Ok(())
            },
            Value::Int16(x) => {
                push_u16(buf, bits_of_i16(*x));
                proof {
                    assert(buf@ =~= old(buf)@ + sm_val(self@, pos0));
                }
                Ok(())
            },
            Value::Uint16(x) => {
                push_u16(buf, *x);
                proof {
                    assert(buf@ =~= old(buf)@ + sm_val(self@, pos0));
                }
                Ok(())
            },
            Value::Int32(x) => {
                push_u32(buf, bits_of_i32(*x));
                proof {
                    assert(buf@ =~= old(buf)@ + sm_val(self@, pos0));
                }
                Ok(())
            },
            Value::Uint32(x) => {
                push_u32(buf, *x);
                proof {
                    assert(buf@ =~= old(buf)@ + sm_val(self@, pos0));
                }
                Ok(())
            },
            Value::Int64(x) => {
                push_u64(buf, bits_of_i64(*x));
                proof {
                    assert(buf@ =~= old(buf)@ + sm_val(self@, pos0));
                }
                Ok(())
            },
            Value::Uint64(x) => {
                push_u64(buf, *x);
                proof {
                    assert(buf@ =~= old(buf)@ + sm_val(self@, pos0));
                }
                Ok(())
            },
            Value::Double(x) => {
                push_u64(buf, *x);
                proof {
                    assert(buf@ =~= old(buf)@ + sm_val(self@, pos0));
                }
                Ok(())
            },
            Value::UnixFd(x) => {
                push_u32(buf, *x);
                proof {
                    assert(buf@ =~= old(buf)@ + sm_val(self@, pos0));
                }
                Ok(())
            },
            Value::Str(bs) => {
                push_u32(buf, bs.len() as u32);
                push_bytes(buf, bs.as_slice());
                buf.push(0);
                proof {
                    assert(buf@ =~= old(buf)@ + sm_val(self@, pos0));
                }
                Ok(())
            },
            Value::ObjectPath(bs) => {
                push_u32(buf, bs.len() as u32);
                push_bytes(buf, bs.as_slice());
                buf.push(0);
                proof {
                    assert(buf@ =~= old(buf)@ + sm_val(self@, pos0));
                }
                Ok(())
            },
            Value::Signature(bs) => {
                buf.push(bs.len() as u8);
                push_bytes(buf, bs.as_slice());
                buf.push(0);
                proof {
                    assert(buf@ =~= old(buf)@ + sm_val(self@, pos0));
                }
                Ok(())
            },
            Value::Variant(t, b) => {
                let mut sg: Vec<u8> = Vec::new();
                t.render_sig(&mut sg);
                if sg.len() > 255 {
                    return Err(MarshalError::TooLarge);
                }
                buf.push(sg.len() as u8);
                push_bytes(buf, sg.as_slice());
                buf.push(0);
                match b.marshal_value(buf) {
                    Ok(_) => {
                        proof {
                            assert(buf@ =~= old(buf)@ + sm_val(self@, pos0));
                        }
                        Ok(())
                    },
                    Err(e) => Err(e),
                }
            },
            Value::Array(t, es) => {
                proof {
                    assert(decreases_to!(*self => self->Array_1));
                    lemma_vals_view(es@);
                    assert forall|j: int| 0 <= j < es@.len() implies wf_val(
                        val_view(#[trigger] es@[j]),
                    ) by {
                        assert(type_of(vals_view(es@)[j]) == ty_view_of(*t) && wf_val(
                            vals_view(es@)[j],
                        ));
                    }
                }
                match marshal_array_body(t, es, buf) {
                    Ok(_) => {
                        proof {
                            assert(buf@ =~= old(buf)@ + sm_val(self@, pos0));
                        }
                        Ok(())
                    },
                    Err(e) => Err(e),
                }
            },
            Value::Struct(ms) => {
                proof {
                    assert(decreases_to!(*self => self->Struct_0));
                    lemma_vals_view(ms@);
                    assert forall|j: int| 0 <= j < ms@.len() implies wf_val(
                        val_view(#[trigger] ms@[j]),
                    ) by {
                        assert(wf_val(vals_view(ms@)[j]));
                    }
                }
                match marshal_vals(ms, buf) {
                    Ok(_) => {
                        proof {
                            assert(buf@ =~= old(buf)@ + sm_val(self@, pos0));
                        }
                        Ok(())
                    },
                    Err(e) => Err(e),
                }
            },
            Value::Dict(kt, vt, es) => {
                proof {
                    assert(decreases_to!(*self => self->Dict_2));
                    lemma_pairs_view(es@);
                    assert forall|j: int| 0 <= j < es@.len() implies wf_val(
                        val_view((#[trigger] es@[j]).0),
                    ) && wf_val(val_view(es@[j].1)) by {
                        assert(type_of((pairs_view(es@)[j]).0) == ty_view_of(*kt) && wf_val(
                            pairs_view(es@)[j].0,
                        ) && wf_val(pairs_view(es@)[j].1));
                    }
                }
                match marshal_dict_body(es, buf) {
                    Ok(_) => {
                        proof {
                            assert(buf@ =~= old(buf)@ + sm_val(self@, pos0));
                        }
                        Ok(())
                    },
                    Err(e) => Err(e),
                }
            },
        }
    }
}

/// The view of a type descriptor, as a free function for use in loop
/// invariants.
pub open spec fn ty_view_of(t: crate::value::TypeSig) -> crate::value::TyV {
    crate::value::ty_view(t)
}

} // verus!
