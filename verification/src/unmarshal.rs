use crate::sig::{parse_sig_all, parse_sig_list};
use crate::value::{TypeSig, TyV, ValV, Value, align_of, is_cont_byte, lemma_tys_view,
    lemma_vals_view, ty_view, tys_view, utf8_ok, val_view, vals_view};
use crate::wire::{ByteOrder, i16_of_bits, i16_of_u16, i32_of_bits, i32_of_u32, i64_of_bits,
    i64_of_u64, pad_len, rd16, rd32, rd64, read_u16, read_u32, read_u64};
use vstd::prelude::*;

verus! {

// ---------------------------------------------------------------------------
// The parsing model: one value of a known type at a frame offset
// ---------------------------------------------------------------------------

/// Parses one value of type `t` at offset `pos`, reading no byte at or past
/// `end`; on success yields the value and the offset just past it. Padding
/// is consumed according to the type's natural alignment; length fields are
/// read in the frame's byte order `bo`.
pub open spec fn pv_val(t: TyV, s: Seq<u8>, bo: ByteOrder, pos: int, end: int) -> Option<
    (ValV, int),
>
    decreases end - pos, t, 0nat,
{
    if pos < 0 || pos > end || end > s.len() {
        None
    } else {
        let a = align_of(t);
        let p = pos + pad_len(pos, a);
        if p > end {
            None
        } else {
            match t {
                TyV::Byte => if p + 1 <= end {
                    Some((ValV::Byte(s[p]), p + 1))
                } else {
                    None
                },
                TyV::Boolean => if p + 4 <= end {
                    let x = rd32(s.subrange(p, p + 4), bo);
                    if x == 0 {
                        Some((ValV::Boolean(false), p + 4))
                    } else if x == 1 {
                        Some((ValV::Boolean(true), p + 4))
                    } else {
                        None
                    }
                } else {
                    None
                },
                TyV::Int16 => if p + 2 <= end {
                    Some((ValV::Int16(i16_of_u16(rd16(s.subrange(p, p + 2), bo))), p + 2))
                } else {
                    None
                },
                TyV::Uint16 => if p + 2 <= end {
                    Some((ValV::Uint16(rd16(s.subrange(p, p + 2), bo)), p + 2))
                } else {
                    None
                },
                TyV::Int32 => if p + 4 <= end {
                    Some((ValV::Int32(i32_of_u32(rd32(s.subrange(p, p + 4), bo))), p + 4))
                } else {
                    None
                },
                TyV::Uint32 => if p + 4 <= end {
                    Some((ValV::Uint32(rd32(s.subrange(p, p + 4), bo)), p + 4))
                } else {
                    None
                },
                TyV::Int64 => if p + 8 <= end {
                    Some((ValV::Int64(i64_of_u64(rd64(s.subrange(p, p + 8), bo))), p + 8))
                } else {
                    None
                },
                TyV::Uint64 => if p + 8 <= end {
                    Some((ValV::Uint64(rd64(s.subrange(p, p + 8), bo)), p + 8))
                } else {
                    None
                },
                TyV::Double => if p + 8 <= end {
                    Some((ValV::Double(rd64(s.subrange(p, p + 8), bo)), p + 8))
                } else {
                    None
                },
                TyV::UnixFd => if p + 4 <= end {
                    Some((ValV::UnixFd(rd32(s.subrange(p, p + 4), bo)), p + 4))
                } else {
                    None
                },
                TyV::Str => match pv_string(s, bo, p, end) {
                    Some((bs, p2)) => Some((ValV::Str(bs), p2)),
                    None => None,
                },
                TyV::ObjectPath => match pv_string(s, bo, p, end) {
                    Some((bs, p2)) => Some((ValV::ObjectPath(bs), p2)),
                    None => None,
                },
                TyV::Signature => if p + 1 <= end {
                    let n = s[p] as int;
                    if p + 1 + n + 1 <= end && s[p + 1 + n] == 0 {
                        Some((ValV::Signature(s.subrange(p + 1, p + 1 + n)), p + 1 + n + 1))
                    } else {
                        None
                    }
                } else {
                    None
                },
                TyV::Variant => if p + 1 <= end {
                    let n = s[p] as int;
                    if p + 1 + n + 1 <= end && s[p + 1 + n] == 0 {
                        match parse_sig_all(s.subrange(p + 1, p + 1 + n), 0) {
                            Some(ts) => if ts.len() == 1 {
                                let vt = ts[0];
                                match pv_val(vt, s, bo, p + 1 + n + 1, end) {
                                    Some((v, p3)) => Some(
                                        (ValV::Variant(vt, Box::new(v)), p3),
                                    ),
                                    None => None,
                                }
                            } else {
                                None
                            },
                            None => None,
                        }
                    } else {
                        None
                    }
                } else {
                    None
                },
                TyV::Array(et) => if p + 4 <= end {
                    let cnt = rd32(s.subrange(p, p + 4), bo) as int;
                    let p2 = p + 4 + pad_len(p + 4, align_of(*et));
                    if p2 + cnt <= end {
                        match pv_elems(*et, s, bo, p2, p2 + cnt, Seq::empty()) {
                            Some(es) => Some((ValV::Array(*et, es), p2 + cnt)),
                            None => None,
                        }
                    } else {
                        None
                    }
                } else {
                    None
                },
                TyV::Dict(kt, vt) => if p + 4 <= end {
                    let cnt = rd32(s.subrange(p, p + 4), bo) as int;
                    let p2 = p + 4 + pad_len(p + 4, 8);
                    if p2 + cnt <= end {
                        match pv_entries(t, s, bo, p2, p2 + cnt, Seq::empty()) {
                            Some(es) => Some((ValV::Dict(*kt, *vt, es), p2 + cnt)),
                            None => None,
                        }
                    } else {
                        None
                    }
                } else {
                    None
                },
                TyV::Struct(ms) => if ms.len() == 0 {
                    None
                } else {
                    match pv_fields(ms, s, bo, p, end, Seq::empty()) {
                        Some((vs, p2)) => Some((ValV::Struct(vs), p2)),
                        None => None,
                    }
                },
            }
        }
    }
}

/// The length-prefixed, nul-terminated payload shared by strings and object
/// paths, starting at the already aligned offset `p`.
pub open spec fn pv_string(s: Seq<u8>, bo: ByteOrder, p: int, end: int) -> Option<(Seq<u8>, int)> {
    if p + 4 <= end {
        let n = rd32(s.subrange(p, p + 4), bo) as int;
        if p + 4 + n + 1 <= end && s[p + 4 + n] == 0 && utf8_ok(s.subrange(p + 4, p + 4 + n)) {
            Some((s.subrange(p + 4, p + 4 + n), p + 4 + n + 1))
        } else {
            None
        }
    } else {
        None
    }
}

/// Parses array elements of type `et` until exactly `end` is reached,
/// accumulating in front-to-back order.
pub open spec fn pv_elems(
    et: TyV,
    s: Seq<u8>,
    bo: ByteOrder,
    pos: int,
    end: int,
    acc: Seq<ValV>,
) -> Option<Seq<ValV>>
    decreases end - pos, et, 1nat,
{
    if pos < 0 || pos > end {
        None
    } else if pos == end {
        Some(acc)
    } else {
        match pv_val(et, s, bo, pos, end) {
            None => None,
            Some((v, p)) => if p <= pos || p > end {
                None
            } else {
                pv_elems(et, s, bo, p, end, acc.push(v))
            },
        }
    }
}

/// Parses the members of a struct, or the top-level values of a message body,
/// in the order of their types.
pub open spec fn pv_fields(
    ms: Seq<TyV>,
    s: Seq<u8>,
    bo: ByteOrder,
    pos: int,
    end: int,
    acc: Seq<ValV>,
) -> Option<(Seq<ValV>, int)>
    decreases end - pos, ms, 1nat,
{
    if pos < 0 || pos > end {
        None
    } else if ms.len() == 0 {
        Some((acc, pos))
    } else {
        match pv_val(ms.first(), s, bo, pos, end) {
            None => None,
            Some((v, p)) => if p < pos || p > end {
                None
            } else {
                pv_fields(ms.drop_first(), s, bo, p, end, acc.push(v))
            },
        }
    }
}

/// Parses dictionary entries of the dictionary type `dt` until exactly `end`
/// is reached: each entry is aligned to eight bytes, key first.
pub open spec fn pv_entries(
    dt: TyV,
    s: Seq<u8>,
    bo: ByteOrder,
    pos: int,
    end: int,
    acc: Seq<(ValV, ValV)>,
) -> Option<Seq<(ValV, ValV)>>
    decreases end - pos, dt, 1nat,
{
    if pos < 0 || pos > end {
        None
    } else if pos == end {
        Some(acc)
    } else {
        match dt {
            TyV::Dict(kt, vt) => {
                let p = pos + pad_len(pos, 8);
                if p > end {
                    None
                } else {
                    match pv_val(*kt, s, bo, p, end) {
                        None => None,
                        Some((k, p1)) => if p1 < pos || p1 > end {
                            None
                        } else {
                            match pv_val(*vt, s, bo, p1, end) {
                                None => None,
                                Some((v, p2)) => if p2 <= pos || p2 > end {
                                    None
                                } else {
                                    pv_entries(dt, s, bo, p2, end, acc.push((k, v)))
                                },
                            }
                        },
                    }
                }
            },
            _ => None,
        }
    }
}

// ---------------------------------------------------------------------------
// Executable parsing
// ---------------------------------------------------------------------------

/// A copy of the bytes in `[from, to)`.
pub fn copy_range(s: &[u8], from: usize, to: usize) -> (r: Vec<u8>)
    requires
        from <= to <= s@.len(),
    ensures
        r@ == s@.subrange(from as int, to as int),
{
    let mut out: Vec<u8> = Vec::new();
    let mut i: usize = from;
    while i < to
        invariant
            from <= i <= to <= s@.len(),
            out@ == s@.subrange(from as int, i as int),
        decreases to - i,
    {
        out.push(s[i]);
        proof {
            assert(s@.subrange(from as int, i as int).push(s@[i as int]) =~= s@.subrange(
                from as int,
                i + 1,
            ));
        }
        i = i + 1;
    }
    out
}

/// Checks that the bytes in `[from, to)` are valid UTF-8.
pub fn validate_utf8_range(s: &[u8], from: usize, to: usize) -> (r: bool)
    requires
        from <= to <= s@.len(),
    ensures
        r == utf8_ok(s@.subrange(from as int, to as int)),
{
    let mut i: usize = from;
    while i < to
        invariant
            from <= i <= to <= s@.len(),
            utf8_ok(s@.subrange(from as int, to as int)) == utf8_ok(
                s@.subrange(i as int, to as int),
            ),
        decreases to - i,
    {
        let ghost sub = s@.subrange(i as int, to as int);
        proof {
            assert(sub[0] == s@[i as int]);
        }
        let b0 = s[i];
        let w: usize = if b0 < 0x80 {
            1
        } else if 0xC2 <= b0 && b0 <= 0xDF {
            if to - i < 2 || !cont_byte(s[i + 1]) {
                proof {
                    if sub.len() >= 2 {
                        assert(sub[1] == s@[i + 1]);
                    }
                }
                return false;
            }
            2
        } else if b0 == 0xE0 {
            if to - i < 3 || !(0xA0 <= s[i + 1] && s[i + 1] <= 0xBF) || !cont_byte(s[i + 2]) {
                proof {
                    if sub.len() >= 2 {
                        assert(sub[1] == s@[i + 1]);
                    }
                    if sub.len() >= 3 {
                        assert(sub[2] == s@[i + 2]);
                    }
                }
                return false;
            }
            3
        } else if (0xE1 <= b0 && b0 <= 0xEC) || b0 == 0xEE || b0 == 0xEF {
            if to - i < 3 || !cont_byte(s[i + 1]) || !cont_byte(s[i + 2]) {
                proof {
                    if sub.len() >= 2 {
                        assert(sub[1] == s@[i + 1]);
                    }
                    if sub.len() >= 3 {
                        assert(sub[2] == s@[i + 2]);
                    }
                }
                return false;
            }
            3
        } else if b0 == 0xED {
            if to - i < 3 || !(0x80 <= s[i + 1] && s[i + 1] <= 0x9F) || !cont_byte(s[i + 2]) {
                proof {
                    if sub.len() >= 2 {
                        assert(sub[1] == s@[i + 1]);
                    }
                    if sub.len() >= 3 {
                        assert(sub[2] == s@[i + 2]);
                    }
                }
                return false;
            }
            3
        } else if b0 == 0xF0 {
            if to - i < 4 || !(0x90 <= s[i + 1] && s[i + 1] <= 0xBF) || !cont_byte(s[i + 2])
                || !cont_byte(s[i + 3]) {
                proof {
                    if sub.len() >= 2 {
                        assert(sub[1] == s@[i + 1]);
                    }
                    if sub.len() >= 3 {
                        assert(sub[2] == s@[i + 2]);
                    }
                    if sub.len() >= 4 {
                        assert(sub[3] == s@[i + 3]);
                    }
                }
                return false;
            }
            4
        } else if 0xF1 <= b0 && b0 <= 0xF3 {
            if to - i < 4 || !cont_byte(s[i + 1]) || !cont_byte(s[i + 2]) || !cont_byte(s[i + 3]) {
                proof {
                    if sub.len() >= 2 {
                        assert(sub[1] == s@[i + 1]);
                    }
                    if sub.len() >= 3 {
                        assert(sub[2] == s@[i + 2]);
                    }
                    if sub.len() >= 4 {
                        assert(sub[3] == s@[i + 3]);
                    }
                }
                return false;
            }
            4
        } else if b0 == 0xF4 {
            if to - i < 4 || !(0x80 <= s[i + 1] && s[i + 1] <= 0x8F) || !cont_byte(s[i + 2])
                || !cont_byte(s[i + 3]) {
                proof {
                    if sub.len() >= 2 {
                        assert(sub[1] == s@[i + 1]);
                    }
                    if sub.len() >= 3 {
                        assert(sub[2] == s@[i + 2]);
                    }
                    if sub.len() >= 4 {
                        assert(sub[3] == s@[i + 3]);
                    }
                }
                return false;
            }
            4
        } else {
            return false;
        };
        proof {
            if sub.len() >= 2 {
                assert(sub[1] == s@[i + 1]);
            }
            if sub.len() >= 3 {
                assert(sub[2] == s@[i + 2]);
            }
            if sub.len() >= 4 {
                assert(sub[3] == s@[i + 3]);
            }
            assert(sub.skip(w as int) =~= s@.subrange(i + w, to as int));
        }
        i = i + w;
    }
    proof {
        assert(s@.subrange(to as int, to as int) =~= Seq::<u8>::empty());
    }
    true
}

/// Whether a byte is a UTF-8 continuation byte.
fn cont_byte(b: u8) -> (r: bool)
    ensures
        r == is_cont_byte(b),
{
    0x80 <= b && b <= 0xBF
}

/// The aligned position `pos` rounded up to alignment `a`, or nothing when
/// that position lies past `end`.
fn align_pos(pos: usize, a: usize, end: usize) -> (r: Option<usize>)
    requires
        1 <= a <= 8,
        pos <= end,
    ensures
        match r {
            Some(p) => p as int == pos + pad_len(pos as int, a as int) && pos <= p <= end,
            None => pos + pad_len(pos as int, a as int) > end,
        },
{
    let rem = pos % a;
    if rem == 0 {
        Some(pos)
    } else {
        let need = a - rem;
        if need > end - pos {
            None
        } else {
            Some(pos + need)
        }
    }
}

/// Parses one value of type `t` at `pos`, mirroring `pv_val`.
pub fn parse_value(t: &TypeSig, s: &[u8], bo: ByteOrder, pos: usize, end: usize) -> (r: Option<
    (Value, usize),
>)
    requires
        pos <= end <= s@.len(),
    ensures
        match r {
            Some((v, p)) => pv_val(t@, s@, bo, pos as int, end as int) == Some((v@, p as int))
                && pos < p <= end,
            None => pv_val(t@, s@, bo, pos as int, end as int) is None,
        },
    decreases end - pos, *t, 0nat,
{
    let a = t.align();
    let p = match align_pos(pos, a, end) {
        Some(p) => p,
        None => {
            return None;
        },
    };
    match t {
        TypeSig::Byte => {
            if end - p >= 1 {
                Some((Value::Byte(s[p]), p + 1))
            } else {
                None
            }
        },
        TypeSig::Boolean => {
            if end - p >= 4 {
                let x = read_u32(s, p, bo);
                if x == 0 {
                    Some((Value::Boolean(false), p + 4))
                } else if x == 1 {
                    Some((Value::Boolean(true), p + 4))
                } else {
                    None
                }
            } else {
                None
            }
        },
        TypeSig::Int16 => {
            if end - p >= 2 {
                Some((Value::Int16(i16_of_bits(read_u16(s, p, bo))), p + 2))
            } else {
                None
            }
        },
        TypeSig::Uint16 => {
            if end - p >= 2 {
                Some((Value::Uint16(read_u16(s, p, bo)), p + 2))
            } else {
                None
            }
        },
        TypeSig::Int32 => {
            if end - p >= 4 {
                Some((Value::Int32(i32_of_bits(read_u32(s, p, bo))), p + 4))
            } else {
                None
            }
        },
        TypeSig::Uint32 => {
            if end - p >= 4 {
                Some((Value::Uint32(read_u32(s, p, bo)), p + 4))
            } else {
                None
            }
        },
        TypeSig::Int64 => {
            if end - p >= 8 {
                Some((Value::Int64(i64_of_bits(read_u64(s, p, bo))), p + 8))
            } else {
                None
            }
        },
        TypeSig::Uint64 => {
            if end - p >= 8 {
                Some((Value::Uint64(read_u64(s, p, bo)), p + 8))
            } else {
                None
            }
        },
        TypeSig::Double => {
            if end - p >= 8 {
                Some((Value::Double(read_u64(s, p, bo)), p + 8))
            } else {
                None
            }
        },
        TypeSig::UnixFd => {
            if end - p >= 4 {
                Some((Value::UnixFd(read_u32(s, p, bo)), p + 4))
            } else {
                None
            }
        },
        TypeSig::Str => {
            match parse_string_payload(s, bo, p, end) {
                Some((bs, p2)) => Some((Value::Str(bs), p2)),
                None => None,
            }
        },
        TypeSig::ObjectPath => {
            match parse_string_payload(s, bo, p, end) {
                Some((bs, p2)) => Some((Value::ObjectPath(bs), p2)),
                None => None,
            }
        },
        TypeSig::Signature => {
            if end - p >= 1 {
                let n = s[p] as usize;
                if end - (p + 1) >= 1 && n <= end - (p + 1) - 1 {
                    if s[p + 1 + n] == 0 {
                        let bs = copy_range(s, p + 1, p + 1 + n);
                        Some((Value::Signature(bs), p + 1 + n + 1))
                    } else {
                        None
                    }
                } else {
                    None
                }
            } else {
                None
            }
        },
        TypeSig::Variant => {
            if end - p >= 1 {
                let n = s[p] as usize;
                if end - (p + 1) >= 1 && n <= end - (p + 1) - 1 {
                    if s[p + 1 + n] == 0 {
                        let sg = copy_range(s, p + 1, p + 1 + n);
                        match parse_sig_list(sg.as_slice(), 0) {
                            Some(ts) => {
                                if ts.len() == 1 {
                                    proof {
                                        lemma_tys_view(ts@);
                                    }
                                    let vt = &ts[0];
                                    let p2 = p + 1 + n + 1;
                                    match parse_value(vt, s, bo, p2, end) {
                                        Some((v, p3)) => Some(
                                            (Value::Variant(vt.clone_sig(), Box::new(v)), p3),
                                        ),
                                        None => None,
                                    }
                                } else {
                                    proof {
                                        lemma_tys_view(ts@);
                                    }
                                    None
                                }
                            },
                            None => None,
                        }
                    } else {
                        None
                    }
                } else {
                    None
                }
            } else {
                None
            }
        },
        TypeSig::Array(et) => {
            if end - p >= 4 {
                let cnt = read_u32(s, p, bo) as usize;
                let ae = et.align();
                match align_pos(p + 4, ae, end) {
                    Some(p2) => {
                        if cnt <= end - p2 {
                            proof {
                                assert(decreases_to!(*t => t->Array_0));
                            }
                            match parse_elems(et, s, bo, p2, p2 + cnt) {
                                Some(es) => Some((Value::Array(et.clone_sig(), es), p2 + cnt)),
                                None => None,
                            }
                        } else {
                            None
                        }
                    },
                    None => {
                        proof {
                            let sp2 = p + 4 + pad_len(p as int + 4, align_of(ty_view(**et)));
                            assert(sp2 > end);
                        }
                        None
                    },
                }
            } else {
                None
            }
        },
        TypeSig::Dict(kt, vt) => {
            if end - p >= 4 {
                let cnt = read_u32(s, p, bo) as usize;
                match align_pos(p + 4, 8, end) {
                    Some(p2) => {
                        if cnt <= end - p2 {
                            match parse_entries(t, s, bo, p2, p2 + cnt) {
                                Some(es) => Some(
                                    (Value::Dict(kt.clone_sig(), vt.clone_sig(), es), p2 + cnt),
                                ),
                                None => None,
                            }
                        } else {
                            None
                        }
                    },
                    None => {
                        proof {
                            let sp2 = p + 4 + pad_len(p as int + 4, 8);
                            assert(sp2 > end);
                        }
                        None
                    },
                }
            } else {
                None
            }
        },
        TypeSig::Struct(ms) => {
            if ms.len() == 0 {
                proof {
                    lemma_tys_view(ms@);
                }
                None
            } else {
                proof {
                    lemma_tys_view(ms@);
                    assert(decreases_to!(*t => t->Struct_0));
                }
                match parse_fields_rec(ms, 0, s, bo, p, end, Vec::new()) {
                    Some((vs, p2)) => {
                        proof {
                            assert(tys_view(ms@).skip(0) =~= tys_view(ms@));
                            assert(vals_view(Seq::<Value>::empty()) =~= Seq::<ValV>::empty());
                        }
                        Some((Value::Struct(vs), p2))
                    },
                    None => {
                        proof {
                            assert(tys_view(ms@).skip(0) =~= tys_view(ms@));
                            assert(vals_view(Seq::<Value>::empty()) =~= Seq::<ValV>::empty());
                        }
                        None
                    },
                }
            }
        },
    }
}

/// The length-prefixed, nul-terminated string payload at aligned offset `p`.
fn parse_string_payload(s: &[u8], bo: ByteOrder, p: usize, end: usize) -> (r: Option<
    (Vec<u8>, usize),
>)
    requires
        p <= end <= s@.len(),
    ensures
        match r {
            Some((bs, p2)) => pv_string(s@, bo, p as int, end as int) == Some((bs@, p2 as int)) && p
                < p2 <= end,
            None => pv_string(s@, bo, p as int, end as int) is None,
        },
{
    if end - p >= 4 {
        let n32 = read_u32(s, p, bo);
        let n = n32 as usize;
        if end - (p + 4) >= 1 && n <= end - (p + 4) - 1 {
            if s[p + 4 + n] == 0 && validate_utf8_range(s, p + 4, p + 4 + n) {
                let bs = copy_range(s, p + 4, p + 4 + n);
                Some((bs, p + 4 + n + 1))
            } else {
                None
            }
        } else {
            None
        }
    } else {
        None
    }
}

/// Parses array elements until exactly `end`, mirroring `pv_elems`.
#[verifier::loop_isolation(false)]
fn parse_elems(et: &TypeSig, s: &[u8], bo: ByteOrder, pos: usize, end: usize) -> (r: Option<
    Vec<Value>,
>)
    requires
        pos <= end <= s@.len(),
    ensures
        match r {
            Some(es) => pv_elems(et@, s@, bo, pos as int, end as int, Seq::empty()) == Some(
                vals_view(es@),
            ),
            None => pv_elems(et@, s@, bo, pos as int, end as int, Seq::empty()) is None,
        },
    decreases end - pos, *et, 1nat,
{
    let mut out: Vec<Value> = Vec::new();
    let mut cur = pos;
    proof {
        assert(vals_view(Seq::<Value>::empty()) =~= Seq::<ValV>::empty());
    }
    while cur < end
        invariant
            pos <= cur <= end,
            pv_elems(et@, s@, bo, pos as int, end as int, Seq::empty()) == pv_elems(
                et@,
                s@,
                bo,
                cur as int,
                end as int,
                vals_view(out@),
            ),
        decreases end - cur,
    {
        match parse_value(et, s, bo, cur, end) {
            Some((v, p)) => {
                proof {
                    lemma_vals_view(out@);
                    assert(out@.push(v).drop_last() =~= out@);
                    assert(vals_view(out@.push(v)) == vals_view(out@).push(val_view(v)));
                }
                out.push(v);
                cur = p;
            },
            None => {
                return None;
            },
        }
    }
    Some(out)
}

/// Parses the member values named by `ms[idx..]`, mirroring `pv_fields`.
pub(crate) fn parse_fields_rec(
    ms: &Vec<TypeSig>,
    idx: usize,
    s: &[u8],
    bo: ByteOrder,
    pos: usize,
    end: usize,
    acc: Vec<Value>,
) -> (r: Option<(Vec<Value>, usize)>)
    requires
        idx <= ms@.len(),
        pos <= end <= s@.len(),
    ensures
        match r {
            Some((vs, p)) => pv_fields(
                tys_view(ms@).skip(idx as int),
                s@,
                bo,
                pos as int,
                end as int,
                vals_view(acc@),
            ) == Some((vals_view(vs@), p as int)) && pos <= p <= end && (idx < ms@.len() ==> pos
                < p),
            None => pv_fields(
                tys_view(ms@).skip(idx as int),
                s@,
                bo,
                pos as int,
                end as int,
                vals_view(acc@),
            ) is None,
        },
    decreases end - pos, *ms, 1nat,
{
    proof {
        lemma_tys_view(ms@);
    }
    if idx == ms.len() {
        proof {
            assert(tys_view(ms@).skip(idx as int) =~= Seq::<TyV>::empty());
        }
        return Some((acc, pos));
    }
    let ghost suffix = tys_view(ms@).skip(idx as int);
    proof {
        assert(suffix[0] == tys_view(ms@)[idx as int]);
        assert(suffix.first() == ty_view(ms@[idx as int]));
        assert(decreases_to!(*ms => ms@[idx as int]));
    }
    match parse_value(&ms[idx], s, bo, pos, end) {
        None => None,
        Some((v, p)) => {
            let mut acc = acc;
            let ghost acc0 = acc@;
            proof {
                lemma_vals_view(acc0);
                assert(acc0.push(v).drop_last() =~= acc0);
                assert(vals_view(acc0.push(v)) == vals_view(acc0).push(val_view(v)));
                assert(suffix.drop_first() =~= tys_view(ms@).skip(idx + 1));
            }
            acc.push(v);
            parse_fields_rec(ms, idx + 1, s, bo, p, end, acc)
        },
    }
}

/// Parses dictionary entries until exactly `end`, mirroring `pv_entries`.
#[verifier::loop_isolation(false)]
fn parse_entries(dt: &TypeSig, s: &[u8], bo: ByteOrder, pos: usize, end: usize) -> (r: Option<
    Vec<(Value, Value)>,
>)
    requires
        dt@ is Dict,
        pos <= end <= s@.len(),
    ensures
        match r {
            Some(es) => pv_entries(dt@, s@, bo, pos as int, end as int, Seq::empty()) == Some(
                crate::value::pairs_view(es@),
            ),
            None => pv_entries(dt@, s@, bo, pos as int, end as int, Seq::empty()) is None,
        },
    decreases end - pos, *dt, 1nat,
{
    let mut out: Vec<(Value, Value)> = Vec::new();
    let mut cur = pos;
    proof {
        assert(crate::value::pairs_view(Seq::<(Value, Value)>::empty()) =~= Seq::<(
            ValV,
            ValV,
        )>::empty());
    }
    while cur < end
        invariant
            pos <= cur <= end,
            pv_entries(dt@, s@, bo, pos as int, end as int, Seq::empty()) == pv_entries(
                dt@,
                s@,
                bo,
                cur as int,
                end as int,
                crate::value::pairs_view(out@),
            ),
        decreases end - cur,
    {
        let p = match align_pos(cur, 8, end) {
            Some(p) => p,
            None => {
                return None;
            },
        };
        match dt {
            TypeSig::Dict(kt, vt) => {
                proof {
                    assert(decreases_to!(*dt => dt->Dict_0));
                    assert(decreases_to!(*dt => dt->Dict_1));
                }
                match parse_value(kt, s, bo, p, end) {
                    None => {
                        return None;
                    },
                    Some((k, p1)) => {
                        match parse_value(vt, s, bo, p1, end) {
                            None => {
                                return None;
                            },
                            Some((v, p2)) => {
                                proof {
                                    crate::value::lemma_pairs_view(out@);
                                    assert(out@.push((k, v)).drop_last() =~= out@);
                                    assert(crate::value::pairs_view(out@.push((k, v)))
                                        == crate::value::pairs_view(out@).push(
                                        (val_view(k), val_view(v)),
                                    ));
                                }
                                out.push((k, v));
                                cur = p2;
                            },
                        }
                    },
                }
            },
            _ => {
                return None;
            },
        }
    }
    Some(out)
}

} // verus!
