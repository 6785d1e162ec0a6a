use crate::value::{TypeSig, TyV, is_basic_ty, ty_view, tys_view, lemma_tys_view, wf_ty};
use vstd::prelude::*;

verus! {

/// ASCII tag bytes of the signature alphabet.
pub const TAG_BYTE: u8 = 121;
pub const TAG_BOOLEAN: u8 = 98;
pub const TAG_INT16: u8 = 110;
pub const TAG_UINT16: u8 = 113;
pub const TAG_INT32: u8 = 105;
pub const TAG_UINT32: u8 = 117;
pub const TAG_INT64: u8 = 120;
pub const TAG_UINT64: u8 = 116;
pub const TAG_DOUBLE: u8 = 100;
pub const TAG_UNIXFD: u8 = 104;
pub const TAG_STRING: u8 = 115;
pub const TAG_OBJECTPATH: u8 = 111;
pub const TAG_SIGNATURE: u8 = 103;
pub const TAG_VARIANT: u8 = 118;
pub const TAG_ARRAY: u8 = 97;
pub const TAG_STRUCT_OPEN: u8 = 40;
pub const TAG_STRUCT_CLOSE: u8 = 41;
pub const TAG_DICT_OPEN: u8 = 123;
pub const TAG_DICT_CLOSE: u8 = 125;

// ---------------------------------------------------------------------------
// Rendering type descriptors as signature strings
// ---------------------------------------------------------------------------

/// The signature bytes of one type: single ASCII tags for basic types,
/// `a` prefixing an element type, struct members wrapped in parentheses and
/// dictionary entries in braces.
pub open spec fn sig_of(t: TyV) -> Seq<u8>
    decreases t, 0nat,
{
    match t {
        TyV::Byte => seq![TAG_BYTE],
        TyV::Boolean => seq![TAG_BOOLEAN],
        TyV::Int16 => seq![TAG_INT16],
        TyV::Uint16 => seq![TAG_UINT16],
        TyV::Int32 => seq![TAG_INT32],
        TyV::Uint32 => seq![TAG_UINT32],
        TyV::Int64 => seq![TAG_INT64],
        TyV::Uint64 => seq![TAG_UINT64],
        TyV::Double => seq![TAG_DOUBLE],
        TyV::UnixFd => seq![TAG_UNIXFD],
        TyV::Str => seq![TAG_STRING],
        TyV::ObjectPath => seq![TAG_OBJECTPATH],
        TyV::Signature => seq![TAG_SIGNATURE],
        TyV::Variant => seq![TAG_VARIANT],
        TyV::Array(e) => seq![TAG_ARRAY] + sig_of(*e),
        TyV::Dict(k, v) => seq![TAG_ARRAY, TAG_DICT_OPEN] + sig_of(*k) + sig_of(*v) + seq![TAG_DICT_CLOSE],
        TyV::Struct(ms) => seq![TAG_STRUCT_OPEN] + sig_of_list(ms) + seq![TAG_STRUCT_CLOSE],
    }
}

/// The concatenated signature bytes of a list of types.
pub open spec fn sig_of_list(ms: Seq<TyV>) -> Seq<u8>
    decreases ms, 1nat,
{
    if ms.len() == 0 {
        Seq::empty()
    } else {
        sig_of(ms.first()) + sig_of_list(ms.drop_first())
    }
}

pub proof fn lemma_sig_of_len(t: TyV)
    ensures
        sig_of(t).len() >= 1,
        sig_of(t).first() != TAG_DICT_CLOSE,
        sig_of(t).first() != TAG_STRUCT_CLOSE,
        sig_of(t).first() != TAG_DICT_OPEN,
    decreases t,
{
}

pub proof fn lemma_sig_of_list_push(ms: Seq<TyV>, t: TyV)
    ensures
        sig_of_list(ms.push(t)) == sig_of_list(ms) + sig_of(t),
    decreases ms.len(),
{
    if ms.len() == 0 {
        assert(ms.push(t).first() == t);
        assert(ms.push(t).drop_first() =~= Seq::<TyV>::empty());
        assert(sig_of_list(ms.push(t)) == sig_of(t) + sig_of_list(Seq::<TyV>::empty()));
        assert(sig_of(t) + Seq::<u8>::empty() =~= sig_of(t));
        assert(sig_of_list(ms) + sig_of(t) =~= sig_of(t));
    } else {
        assert(ms.push(t).drop_first() =~= ms.drop_first().push(t));
        lemma_sig_of_list_push(ms.drop_first(), t);
        assert(sig_of(ms.first()) + (sig_of_list(ms.drop_first()) + sig_of(t)) =~= (sig_of(
            ms.first(),
        ) + sig_of_list(ms.drop_first())) + sig_of(t));
    }
}

// ---------------------------------------------------------------------------
// Parsing signature strings
// ---------------------------------------------------------------------------

/// Parses one complete type starting at `pos`; on success returns the type
/// and the position just past it.
pub open spec fn parse_one_ty(s: Seq<u8>, pos: int) -> Option<(TyV, int)>
    decreases s.len() - pos, 0nat, 0nat,
{
    if pos < 0 || pos >= s.len() {
        None
    } else {
        let c = s[pos];
        if c == TAG_BYTE {
            Some((TyV::Byte, pos + 1))
        } else if c == TAG_BOOLEAN {
            Some((TyV::Boolean, pos + 1))
        } else if c == TAG_INT16 {
            Some((TyV::Int16, pos + 1))
        } else if c == TAG_UINT16 {
            Some((TyV::Uint16, pos + 1))
        } else if c == TAG_INT32 {
            Some((TyV::Int32, pos + 1))
        } else if c == TAG_UINT32 {
            Some((TyV::Uint32, pos + 1))
        } else if c == TAG_INT64 {
            Some((TyV::Int64, pos + 1))
        } else if c == TAG_UINT64 {
            Some((TyV::Uint64, pos + 1))
        } else if c == TAG_DOUBLE {
            Some((TyV::Double, pos + 1))
        } else if c == TAG_UNIXFD {
            Some((TyV::UnixFd, pos + 1))
        } else if c == TAG_STRING {
            Some((TyV::Str, pos + 1))
        } else if c == TAG_OBJECTPATH {
            Some((TyV::ObjectPath, pos + 1))
        } else if c == TAG_SIGNATURE {
            Some((TyV::Signature, pos + 1))
        } else if c == TAG_VARIANT {
            Some((TyV::Variant, pos + 1))
        } else if c == TAG_ARRAY {
            if pos + 1 < s.len() && s[pos + 1] == TAG_DICT_OPEN {
                match parse_one_ty(s, pos + 2) {
                    None => None,
                    Some((k, p1)) => if !is_basic_ty(k) || p1 <= pos + 2 || p1 > s.len() {
                        None
                    } else {
                        match parse_one_ty(s, p1) {
                            None => None,
                            Some((v, p2)) => if p2 < s.len() && s[p2] == TAG_DICT_CLOSE {
                                Some((TyV::Dict(Box::new(k), Box::new(v)), p2 + 1))
                            } else {
                                None
                            },
                        }
                    },
                }
            } else {
                match parse_one_ty(s, pos + 1) {
                    None => None,
                    Some((e, p)) => Some((TyV::Array(Box::new(e)), p)),
                }
            }
        } else if c == TAG_STRUCT_OPEN {
            match parse_members(s, pos + 1) {
                None => None,
                Some((ms, p)) => if ms.len() == 0 {
                    None
                } else {
                    Some((TyV::Struct(ms), p))
                },
            }
        } else {
            None
        }
    }
}

/// Parses struct member types until the closing parenthesis, which is
/// consumed.
pub open spec fn parse_members(s: Seq<u8>, pos: int) -> Option<(Seq<TyV>, int)>
    decreases s.len() - pos, 1nat, 0nat,
{
    if pos < 0 || pos >= s.len() {
        None
    } else if s[pos] == TAG_STRUCT_CLOSE {
        Some((Seq::empty(), pos + 1))
    } else {
        match parse_one_ty(s, pos) {
            None => None,
            Some((t, p)) => if p <= pos || p > s.len() {
                None
            } else {
                match parse_members(s, p) {
                    None => None,
                    Some((rest, p2)) => Some((seq![t] + rest, p2)),
                }
            },
        }
    }
}

/// Parses a whole signature string as the list of types it concatenates.
pub open spec fn parse_sig_all(s: Seq<u8>, pos: int) -> Option<Seq<TyV>>
    decreases s.len() - pos,
{
    if pos < 0 || pos > s.len() {
        None
    } else if pos == s.len() {
        Some(Seq::empty())
    } else {
        match parse_one_ty(s, pos) {
            None => None,
            Some((t, p)) => if p <= pos || p > s.len() {
                None
            } else {
                match parse_sig_all(s, p) {
                    None => None,
                    Some(rest) => Some(seq![t] + rest),
                }
            },
        }
    }
}

// ---------------------------------------------------------------------------
// Round trip: parsing a rendered signature yields the types
// ---------------------------------------------------------------------------

/// Parsing the rendered signature of a well-formed type, embedded at `pos`
/// in a larger string, yields that type back and stops right past it.
pub proof fn lemma_sig_roundtrip(t: TyV, s: Seq<u8>, pos: int)
    requires
        wf_ty(t),
        0 <= pos,
        pos + sig_of(t).len() <= s.len(),
        s.subrange(pos, pos + sig_of(t).len()) == sig_of(t),
    ensures
        parse_one_ty(s, pos) == Some((t, pos + sig_of(t).len())),
    decreases t, 0nat,
{
    lemma_sig_of_len(t);
    let n = sig_of(t).len() as int;
    let sub = s.subrange(pos, pos + n);
    assert(s[pos] == sub[0]);
    match t {
        TyV::Array(e) => {
            lemma_sig_of_len(*e);
            assert(s[pos + 1] == sub[1]);
            assert(sub[1] == sig_of(*e).first());
            assert(s.subrange(pos + 1, pos + 1 + sig_of(*e).len()) =~= sub.subrange(1, n as int));
            assert(sub.subrange(1, n as int) =~= sig_of(*e));
            lemma_sig_roundtrip(*e, s, pos + 1);
        },
        TyV::Dict(k, v) => {
            let kn = sig_of(*k).len() as int;
            let vn = sig_of(*v).len() as int;
            assert(s[pos + 1] == sub[1]);
            assert(s.subrange(pos + 2, pos + 2 + kn) =~= sub.subrange(2, 2 + kn));
            assert(sub.subrange(2, 2 + kn) =~= sig_of(*k));
            lemma_sig_roundtrip(*k, s, pos + 2);
            assert(s.subrange(pos + 2 + kn, pos + 2 + kn + vn) =~= sub.subrange(2 + kn, 2 + kn + vn));
            assert(sub.subrange(2 + kn, 2 + kn + vn) =~= sig_of(*v));
            lemma_sig_roundtrip(*v, s, pos + 2 + kn);
            assert(s[pos + 2 + kn + vn] == sub[2 + kn + vn]);
            assert(sub[2 + kn + vn] == TAG_DICT_CLOSE);
        },
        TyV::Struct(ms) => {
            let ln = sig_of_list(ms).len() as int;
            assert(s.subrange(pos + 1, pos + 1 + ln) =~= sub.subrange(1, 1 + ln));
            assert(sub.subrange(1, 1 + ln) =~= sig_of_list(ms));
            assert(s[pos + 1 + ln] == sub[1 + ln]);
            assert(sub[1 + ln] == TAG_STRUCT_CLOSE);
            lemma_members_roundtrip(ms, s, pos + 1);
        },
        _ => {},
    }
}

/// Parsing the rendered member list of a struct, followed by the closing
/// parenthesis, yields the members back.
pub proof fn lemma_members_roundtrip(ms: Seq<TyV>, s: Seq<u8>, pos: int)
    requires
        forall|i: int| 0 <= i < ms.len() ==> wf_ty(#[trigger] ms[i]),
        0 <= pos,
        pos + sig_of_list(ms).len() + 1 <= s.len(),
        s.subrange(pos, pos + sig_of_list(ms).len()) == sig_of_list(ms),
        s[pos + sig_of_list(ms).len()] == TAG_STRUCT_CLOSE,
    ensures
        parse_members(s, pos) == Some((ms, pos + sig_of_list(ms).len() + 1)),
    decreases ms, 1nat,
{
    if ms.len() == 0 {
        assert(s[pos] == TAG_STRUCT_CLOSE);
    } else {
        let t = ms.first();
        let rest = ms.drop_first();
        lemma_sig_of_len(t);
        let tn = sig_of(t).len() as int;
        let ln = sig_of_list(ms).len() as int;
        assert(sig_of_list(ms) == sig_of(t) + sig_of_list(rest));
        let sub = s.subrange(pos, pos + ln);
        assert(s[pos] == sub[0]);
        assert(sub[0] == sig_of(t).first());
        assert(s.subrange(pos, pos + tn) =~= sub.subrange(0, tn as int));
        assert(sub.subrange(0, tn as int) =~= sig_of(t));
        lemma_sig_roundtrip(t, s, pos);
        assert(s.subrange(pos + tn, pos + ln) =~= sub.subrange(tn as int, ln as int));
        assert(sub.subrange(tn as int, ln as int) =~= sig_of_list(rest));
        lemma_members_roundtrip(rest, s, pos + tn);
        assert(seq![t] + rest =~= ms);
    }
}

/// Parsing the rendered signature of a list of well-formed types, as a whole
/// string, yields exactly that list.
pub proof fn lemma_sig_all_roundtrip(ts: Seq<TyV>, s: Seq<u8>, pos: int)
    requires
        forall|i: int| 0 <= i < ts.len() ==> wf_ty(#[trigger] ts[i]),
        0 <= pos,
        pos + sig_of_list(ts).len() == s.len(),
        s.subrange(pos, s.len() as int) == sig_of_list(ts),
    ensures
        parse_sig_all(s, pos) == Some(ts),
    decreases ts.len(),
{
    if ts.len() == 0 {
    } else {
        let t = ts.first();
        let rest = ts.drop_first();
        lemma_sig_of_len(t);
        let tn = sig_of(t).len() as int;
        let ln = sig_of_list(ts).len() as int;
        assert(sig_of_list(ts) == sig_of(t) + sig_of_list(rest));
        let sub = s.subrange(pos, s.len() as int);
        assert(s.subrange(pos, pos + tn) =~= sub.subrange(0, tn as int));
        assert(sub.subrange(0, tn as int) =~= sig_of(t));
        lemma_sig_roundtrip(t, s, pos);
        assert(s.subrange(pos + tn, s.len() as int) =~= sub.subrange(tn as int, ln as int));
        assert(sub.subrange(tn as int, ln as int) =~= sig_of_list(rest));
        lemma_sig_all_roundtrip(rest, s, pos + tn);
        assert(seq![t] + rest =~= ts);
    }
}

// ---------------------------------------------------------------------------
// Executable rendering
// ---------------------------------------------------------------------------

impl TypeSig {
    /// Appends the signature bytes of this type to `out`.
    pub fn render_sig(&self, out: &mut Vec<u8>)
        ensures
            final(out)@ == old(out)@ + sig_of(self@),
        decreases *self,
    {
        match self {
            TypeSig::Byte => out.push(TAG_BYTE),
            TypeSig::Boolean => out.push(TAG_BOOLEAN),
            TypeSig::Int16 => out.push(TAG_INT16),
            TypeSig::Uint16 => out.push(TAG_UINT16),
            TypeSig::Int32 => out.push(TAG_INT32),
            TypeSig::Uint32 => out.push(TAG_UINT32),
            TypeSig::Int64 => out.push(TAG_INT64),
            TypeSig::Uint64 => out.push(TAG_UINT64),
            TypeSig::Double => out.push(TAG_DOUBLE),
            TypeSig::UnixFd => out.push(TAG_UNIXFD),
            TypeSig::Str => out.push(TAG_STRING),
            TypeSig::ObjectPath => out.push(TAG_OBJECTPATH),
            TypeSig::Signature => out.push(TAG_SIGNATURE),
            TypeSig::Variant => out.push(TAG_VARIANT),
            TypeSig::Array(e) => {
                out.push(TAG_ARRAY);
                e.render_sig(out);
                proof {
                    assert(out@ =~= old(out)@ + sig_of(self@));
                }
            },
            TypeSig::Dict(k, v) => {
                out.push(TAG_ARRAY);
                out.push(TAG_DICT_OPEN);
                k.render_sig(out);
                v.render_sig(out);
                out.push(TAG_DICT_CLOSE);
                proof {
                    assert(out@ =~= old(out)@ + sig_of(self@));
                }
            },
            TypeSig::Struct(ms) => {
                out.push(TAG_STRUCT_OPEN);
                let mut i: usize = 0;
                while i < ms.len()
                    invariant
                        i <= ms@.len(),
                        out@ == old(out)@ + seq![TAG_STRUCT_OPEN] + sig_of_list(tys_view(ms@).take(i as int)),
                        *self == TypeSig::Struct(*ms),
                    decreases ms@.len() - i,
                {
                    proof {
                        assert(decreases_to!(*self => self->Struct_0));
                        assert(decreases_to!(*ms => ms@[i as int]));
                    }
                    ms[i].render_sig(out);
                    proof {
                        lemma_tys_view(ms@);
                        lemma_sig_of_list_push(tys_view(ms@).take(i as int), ty_view(ms@[i as int]));
                        assert(tys_view(ms@).take(i as int).push(ty_view(ms@[i as int])) =~= tys_view(
                            ms@,
                        ).take(i + 1));
                        assert(out@ =~= old(out)@ + seq![TAG_STRUCT_OPEN] + sig_of_list(
                            tys_view(ms@).take(i + 1),
                        ));
                    }
                    i = i + 1;
                }
                out.push(TAG_STRUCT_CLOSE);
                proof {
                    lemma_tys_view(ms@);
                    assert(tys_view(ms@).take(ms@.len() as int) =~= tys_view(ms@));
                    assert(out@ =~= old(out)@ + sig_of(self@));
                }
            },
        }
        proof {
            if !(self is Array || self is Dict || self is Struct) {
                assert(out@ =~= old(out)@ + sig_of(self@));
            }
        }
    }
}

// ---------------------------------------------------------------------------
// Executable parsing
// ---------------------------------------------------------------------------

/// Parses one complete type at `pos`, mirroring `parse_one_ty`.
pub fn parse_type_at(s: &[u8], pos: usize) -> (r: Option<(TypeSig, usize)>)
    requires
        pos <= s@.len(),
    ensures
        match r {
            Some((t, p)) => parse_one_ty(s@, pos as int) == Some((t@, p as int)) && pos < p
                && p <= s@.len(),
            None => parse_one_ty(s@, pos as int) is None,
        },
    decreases s@.len() - pos, 0nat,
{
    if pos >= s.len() {
        return None;
    }
    let c = s[pos];
    if c == TAG_BYTE {
        Some((TypeSig::Byte, pos + 1))
    } else if c == TAG_BOOLEAN {
        Some((TypeSig::Boolean, pos + 1))
    } else if c == TAG_INT16 {
        Some((TypeSig::Int16, pos + 1))
    } else if c == TAG_UINT16 {
        Some((TypeSig::Uint16, pos + 1))
    } else if c == TAG_INT32 {
        Some((TypeSig::Int32, pos + 1))
    } else if c == TAG_UINT32 {
        Some((TypeSig::Uint32, pos + 1))
    } else if c == TAG_INT64 {
        Some((TypeSig::Int64, pos + 1))
    } else if c == TAG_UINT64 {
        Some((TypeSig::Uint64, pos + 1))
    } else if c == TAG_DOUBLE {
        Some((TypeSig::Double, pos + 1))
    } else if c == TAG_UNIXFD {
        Some((TypeSig::UnixFd, pos + 1))
    } else if c == TAG_STRING {
        Some((TypeSig::Str, pos + 1))
    } else if c == TAG_OBJECTPATH {
        Some((TypeSig::ObjectPath, pos + 1))
    } else if c == TAG_SIGNATURE {
        Some((TypeSig::Signature, pos + 1))
    } else if c == TAG_VARIANT {
        Some((TypeSig::Variant, pos + 1))
    } else if c == TAG_ARRAY {
        if pos + 1 < s.len() && s[pos + 1] == TAG_DICT_OPEN {
            match parse_type_at(s, pos + 2) {
                None => None,
                Some((k, p1)) => {
                    if !k.basic() {
                        None
                    } else {
                        match parse_type_at(s, p1) {
                            None => None,
                            Some((v, p2)) => {
                                if p2 < s.len() && s[p2] == TAG_DICT_CLOSE {
                                    Some((TypeSig::Dict(Box::new(k), Box::new(v)), p2 + 1))
                                } else {
                                    None
                                }
                            },
                        }
                    }
                },
            }
        } else {
            match parse_type_at(s, pos + 1) {
                None => None,
                Some((e, p)) => Some((TypeSig::Array(Box::new(e)), p)),
            }
        }
    } else if c == TAG_STRUCT_OPEN {
        match parse_members_at(s, pos + 1) {
            None => None,
            Some((ms, p)) => {
                if ms.len() == 0 {
                    None
                } else {
                    proof {
                        lemma_tys_view(ms@);
                    }
                    Some((TypeSig::Struct(ms), p))
                }
            },
        }
    } else {
        None
    }
}

/// Parses struct member types up to and including the closing parenthesis,
/// mirroring `parse_members`.
pub fn parse_members_at(s: &[u8], pos: usize) -> (r: Option<(Vec<TypeSig>, usize)>)
    requires
        pos <= s@.len(),
    ensures
        match r {
            Some((ms, p)) => parse_members(s@, pos as int) == Some((tys_view(ms@), p as int)) && pos
                < p && p <= s@.len(),
            None => parse_members(s@, pos as int) is None,
        },
    decreases s@.len() - pos, 1nat,
{
    if pos >= s.len() {
        return None;
    }
    if s[pos] == TAG_STRUCT_CLOSE {
        proof {
            assert(tys_view(Seq::<TypeSig>::empty()) =~= Seq::<TyV>::empty());
        }
        return Some((Vec::new(), pos + 1));
    }
    match parse_type_at(s, pos) {
        None => None,
        Some((t, p)) => {
            match parse_members_at(s, p) {
                None => None,
                Some((rest, p2)) => {
                    let mut out = rest;
                    let ghost rest0 = out@;
                    out.insert(0, t);
                    proof {
                        lemma_tys_view(rest0);
                        lemma_tys_view(out@);
                        assert(tys_view(out@) =~= seq![ty_view(t)] + tys_view(rest0));
                    }
                    Some((out, p2))
                },
            }
        },
    }
}

/// Parses a whole signature, mirroring `parse_sig_all`.
pub fn parse_sig_list(s: &[u8], pos: usize) -> (r: Option<Vec<TypeSig>>)
    requires
        pos <= s@.len(),
    ensures
        match r {
            Some(ts) => parse_sig_all(s@, pos as int) == Some(tys_view(ts@)),
            None => parse_sig_all(s@, pos as int) is None,
        },
    decreases s@.len() - pos,
{
    if pos == s.len() {
        proof {
            assert(tys_view(Seq::<TypeSig>::empty()) =~= Seq::<TyV>::empty());
        }
        return Some(Vec::new());
    }
    match parse_type_at(s, pos) {
        None => None,
        Some((t, p)) => {
            match parse_sig_list(s, p) {
                None => None,
                Some(rest) => {
                    let mut out = rest;
                    let ghost rest0 = out@;
                    out.insert(0, t);
                    proof {
                        lemma_tys_view(rest0);
                        lemma_tys_view(out@);
                        assert(tys_view(out@) =~= seq![ty_view(t)] + tys_view(rest0));
                    }
                    Some(out)
                },
            }
        },
    }
}

} // verus!
