use vstd::prelude::*;

verus! {

// ---------------------------------------------------------------------------
// Type descriptors
// ---------------------------------------------------------------------------

/// Executable type descriptor for a wire value. Containers carry explicit
/// element / member / key / value type annotations; they are never inferred
/// from the contents, so an empty array still has a fully determined type.
#[derive(Debug, PartialEq, Eq)]
pub enum TypeSig {
    Byte,
    Boolean,
    Int16,
    Uint16,
    Int32,
    Uint32,
    Int64,
    Uint64,
    Double,
    UnixFd,
    Str,
    ObjectPath,
    Signature,
    Array(Box<TypeSig>),
    Struct(Vec<TypeSig>),
    Dict(Box<TypeSig>, Box<TypeSig>),
    Variant,
}

/// Mathematical model of a type descriptor.
pub enum TyV {
    Byte,
    Boolean,
    Int16,
    Uint16,
    Int32,
    Uint32,
    Int64,
    Uint64,
    Double,
    UnixFd,
    Str,
    ObjectPath,
    Signature,
    Array(Box<TyV>),
    Struct(Seq<TyV>),
    Dict(Box<TyV>, Box<TyV>),
    Variant,
}

pub open spec fn ty_view(t: TypeSig) -> TyV
    decreases t,
{
    match t {
        TypeSig::Byte => TyV::Byte,
        TypeSig::Boolean => TyV::Boolean,
        TypeSig::Int16 => TyV::Int16,
        TypeSig::Uint16 => TyV::Uint16,
        TypeSig::Int32 => TyV::Int32,
        TypeSig::Uint32 => TyV::Uint32,
        TypeSig::Int64 => TyV::Int64,
        TypeSig::Uint64 => TyV::Uint64,
        TypeSig::Double => TyV::Double,
        TypeSig::UnixFd => TyV::UnixFd,
        TypeSig::Str => TyV::Str,
        TypeSig::ObjectPath => TyV::ObjectPath,
        TypeSig::Signature => TyV::Signature,
        TypeSig::Array(e) => TyV::Array(Box::new(ty_view(*e))),
        TypeSig::Struct(ms) => TyV::Struct(tys_view(ms@)),
        TypeSig::Dict(k, v) => TyV::Dict(Box::new(ty_view(*k)), Box::new(ty_view(*v))),
        TypeSig::Variant => TyV::Variant,
    }
}

pub open spec fn tys_view(ms: Seq<TypeSig>) -> Seq<TyV>
    decreases ms,
{
    if ms.len() == 0 {
        Seq::empty()
    } else {
        tys_view(ms.drop_last()).push(ty_view(ms.last()))
    }
}

pub broadcast proof fn lemma_tys_view(ms: Seq<TypeSig>)
    ensures
        (#[trigger] tys_view(ms)).len() == ms.len(),
        forall|i: int| 0 <= i < ms.len() ==> tys_view(ms)[i] == ty_view(ms[i]),
    decreases ms.len(),
{
    if ms.len() > 0 {
        lemma_tys_view(ms.drop_last());
    }
}

impl View for TypeSig {
    type V = TyV;

    open spec fn view(&self) -> TyV {
        ty_view(*self)
    }
}

// ---------------------------------------------------------------------------
// Values
// ---------------------------------------------------------------------------

/// Executable wire value: the recursive tagged union of every type that can
/// appear in a message body. String-like values hold their UTF-8 bytes.
/// `Double` holds the raw 8-byte bit pattern of the number, which is all the
/// wire format ever looks at.
#[derive(Debug, PartialEq, Eq)]
pub enum Value {
    Byte(u8),
    Boolean(bool),
    Int16(i16),
    Uint16(u16),
    Int32(i32),
    Uint32(u32),
    Int64(i64),
    Uint64(u64),
    Double(u64),
    UnixFd(u32),
    Str(Vec<u8>),
    ObjectPath(Vec<u8>),
    Signature(Vec<u8>),
    Array(TypeSig, Vec<Value>),
    Struct(Vec<Value>),
    Dict(TypeSig, TypeSig, Vec<(Value, Value)>),
    Variant(TypeSig, Box<Value>),
}

/// Mathematical model of a wire value.
pub enum ValV {
    Byte(u8),
    Boolean(bool),
    Int16(i16),
    Uint16(u16),
    Int32(i32),
    Uint32(u32),
    Int64(i64),
    Uint64(u64),
    Double(u64),
    UnixFd(u32),
    Str(Seq<u8>),
    ObjectPath(Seq<u8>),
    Signature(Seq<u8>),
    Array(TyV, Seq<ValV>),
    Struct(Seq<ValV>),
    Dict(TyV, TyV, Seq<(ValV, ValV)>),
    Variant(TyV, Box<ValV>),
}

pub open spec fn val_view(v: Value) -> ValV
    decreases v,
{
    match v {
        Value::Byte(x) => ValV::Byte(x),
        Value::Boolean(x) => ValV::Boolean(x),
        Value::Int16(x) => ValV::Int16(x),
        Value::Uint16(x) => ValV::Uint16(x),
        Value::Int32(x) => ValV::Int32(x),
        Value::Uint32(x) => ValV::Uint32(x),
        Value::Int64(x) => ValV::Int64(x),
        Value::Uint64(x) => ValV::Uint64(x),
        Value::Double(x) => ValV::Double(x),
        Value::UnixFd(x) => ValV::UnixFd(x),
        Value::Str(b) => ValV::Str(b@),
        Value::ObjectPath(b) => ValV::ObjectPath(b@),
        Value::Signature(b) => ValV::Signature(b@),
        Value::Array(t, es) => ValV::Array(ty_view(t), vals_view(es@)),
        Value::Struct(ms) => ValV::Struct(vals_view(ms@)),
        Value::Dict(k, v, es) => ValV::Dict(ty_view(k), ty_view(v), pairs_view(es@)),
        Value::Variant(t, b) => ValV::Variant(ty_view(t), Box::new(val_view(*b))),
    }
}

pub open spec fn vals_view(vs: Seq<Value>) -> Seq<ValV>
    decreases vs,
{
    if vs.len() == 0 {
        Seq::empty()
    } else {
        vals_view(vs.drop_last()).push(val_view(vs.last()))
    }
}

pub open spec fn pairs_view(es: Seq<(Value, Value)>) -> Seq<(ValV, ValV)>
    decreases es,
{
    if es.len() == 0 {
        Seq::empty()
    } else {
        pairs_view(es.drop_last()).push((val_view(es.last().0), val_view(es.last().1)))
    }
}

pub broadcast proof fn lemma_vals_view(vs: Seq<Value>)
    ensures
        (#[trigger] vals_view(vs)).len() == vs.len(),
        forall|i: int| 0 <= i < vs.len() ==> vals_view(vs)[i] == val_view(vs[i]),
    decreases vs.len(),
{
    if vs.len() > 0 {
        lemma_vals_view(vs.drop_last());
    }
}

pub broadcast proof fn lemma_pairs_view(es: Seq<(Value, Value)>)
    ensures
        (#[trigger] pairs_view(es)).len() == es.len(),
        forall|i: int|
            0 <= i < es.len() ==> pairs_view(es)[i] == (val_view(es[i].0), val_view(es[i].1)),
    decreases es.len(),
{
    if es.len() > 0 {
        lemma_pairs_view(es.drop_last());
    }
}

impl View for Value {
    type V = ValV;

    open spec fn view(&self) -> ValV {
        val_view(*self)
    }
}

// ---------------------------------------------------------------------------
// Typing
// ---------------------------------------------------------------------------

/// The type of a value. Structural for scalars; containers report their
/// declared annotation, which takes precedence over the contents.
pub open spec fn type_of(v: ValV) -> TyV
    decreases v,
{
    match v {
        ValV::Byte(_) => TyV::Byte,
        ValV::Boolean(_) => TyV::Boolean,
        ValV::Int16(_) => TyV::Int16,
        ValV::Uint16(_) => TyV::Uint16,
        ValV::Int32(_) => TyV::Int32,
        ValV::Uint32(_) => TyV::Uint32,
        ValV::Int64(_) => TyV::Int64,
        ValV::Uint64(_) => TyV::Uint64,
        ValV::Double(_) => TyV::Double,
        ValV::UnixFd(_) => TyV::UnixFd,
        ValV::Str(_) => TyV::Str,
        ValV::ObjectPath(_) => TyV::ObjectPath,
        ValV::Signature(_) => TyV::Signature,
        ValV::Array(t, _) => TyV::Array(Box::new(t)),
        ValV::Struct(ms) => TyV::Struct(types_of(ms)),
        ValV::Dict(k, v, _) => TyV::Dict(Box::new(k), Box::new(v)),
        ValV::Variant(_, _) => TyV::Variant,
    }
}

pub open spec fn types_of(vs: Seq<ValV>) -> Seq<TyV>
    decreases vs,
{
    if vs.len() == 0 {
        Seq::empty()
    } else {
        types_of(vs.drop_last()).push(type_of(vs.last()))
    }
}

pub broadcast proof fn lemma_types_of(vs: Seq<ValV>)
    ensures
        (#[trigger] types_of(vs)).len() == vs.len(),
        forall|i: int| 0 <= i < vs.len() ==> types_of(vs)[i] == type_of(vs[i]),
    decreases vs.len(),
{
    if vs.len() > 0 {
        lemma_types_of(vs.drop_last());
    }
}

pub open spec fn is_basic_ty(t: TyV) -> bool {
    match t {
        TyV::Array(_) => false,
        TyV::Struct(_) => false,
        TyV::Dict(_, _) => false,
        TyV::Variant => false,
        _ => true,
    }
}

pub open spec fn is_basic_val(v: ValV) -> bool {
    is_basic_ty(type_of(v))
}

/// Natural alignment of a type on the wire, in bytes.
pub open spec fn align_of(t: TyV) -> int {
    match t {
        TyV::Byte => 1,
        TyV::Boolean => 4,
        TyV::Int16 => 2,
        TyV::Uint16 => 2,
        TyV::Int32 => 4,
        TyV::Uint32 => 4,
        TyV::Int64 => 8,
        TyV::Uint64 => 8,
        TyV::Double => 8,
        TyV::UnixFd => 4,
        TyV::Str => 4,
        TyV::ObjectPath => 4,
        TyV::Signature => 1,
        TyV::Array(_) => 4,
        TyV::Struct(_) => 8,
        TyV::Dict(_, _) => 4,
        TyV::Variant => 1,
    }
}

// ---------------------------------------------------------------------------
// Well-formedness
// ---------------------------------------------------------------------------

/// A type descriptor the wire format can express: arrays and dictionaries
/// carry well-formed component types, dictionary keys are basic, and structs
/// have at least one member.
pub open spec fn wf_ty(t: TyV) -> bool
    decreases t,
{
    match t {
        TyV::Array(e) => wf_ty(*e),
        TyV::Struct(ms) => ms.len() >= 1 && (forall|i: int|
            0 <= i < ms.len() ==> wf_ty(#[trigger] ms[i])),
        TyV::Dict(k, v) => is_basic_ty(*k) && wf_ty(*k) && wf_ty(*v),
        _ => true,
    }
}

/// Bytes that may stand in a string-like value: interior nul is excluded.
pub open spec fn nul_free(s: Seq<u8>) -> bool {
    forall|i: int| 0 <= i < s.len() ==> s[i] != 0u8
}

pub open spec fn is_cont_byte(b: u8) -> bool {
    0x80 <= b && b <= 0xBF
}

/// Validity of a byte sequence as UTF-8, stated over the shortest-form
/// encoding rules: each code point uses the minimal number of bytes and
/// surrogate halves are excluded.
pub open spec fn utf8_ok(s: Seq<u8>) -> bool
    decreases s.len(),
{
    if s.len() == 0 {
        true
    } else {
        let b0 = s[0];
        if b0 < 0x80 {
            utf8_ok(s.skip(1))
        } else if 0xC2 <= b0 && b0 <= 0xDF {
            s.len() >= 2 && is_cont_byte(s[1]) && utf8_ok(s.skip(2))
        } else if b0 == 0xE0 {
            s.len() >= 3 && 0xA0 <= s[1] && s[1] <= 0xBF && is_cont_byte(s[2]) && utf8_ok(s.skip(3))
        } else if (0xE1 <= b0 && b0 <= 0xEC) || b0 == 0xEE || b0 == 0xEF {
            s.len() >= 3 && is_cont_byte(s[1]) && is_cont_byte(s[2]) && utf8_ok(s.skip(3))
        } else if b0 == 0xED {
            s.len() >= 3 && 0x80 <= s[1] && s[1] <= 0x9F && is_cont_byte(s[2]) && utf8_ok(s.skip(3))
        } else if b0 == 0xF0 {
            s.len() >= 4 && 0x90 <= s[1] && s[1] <= 0xBF && is_cont_byte(s[2]) && is_cont_byte(s[3])
                && utf8_ok(s.skip(4))
        } else if 0xF1 <= b0 && b0 <= 0xF3 {
            s.len() >= 4 && is_cont_byte(s[1]) && is_cont_byte(s[2]) && is_cont_byte(s[3])
                && utf8_ok(s.skip(4))
        } else if b0 == 0xF4 {
            s.len() >= 4 && 0x80 <= s[1] && s[1] <= 0x8F && is_cont_byte(s[2]) && is_cont_byte(s[3])
                && utf8_ok(s.skip(4))
        } else {
            false
        }
    }
}

/// Bytes acceptable as the payload of a string or object-path value.
pub open spec fn string_bytes_ok(s: Seq<u8>) -> bool {
    nul_free(s) && utf8_ok(s) && s.len() < 0x1_0000_0000
}

/// A well-formed value: every array element has exactly the declared element
/// type, every dictionary entry has the declared basic key type and value
/// type with pairwise-distinct keys, and a variant's declared type equals the
/// runtime type of its boxed value.
pub open spec fn wf_val(v: ValV) -> bool
    decreases v,
{
    match v {
        ValV::Str(s) => string_bytes_ok(s),
        ValV::ObjectPath(s) => string_bytes_ok(s),
        ValV::Signature(s) => nul_free(s) && s.len() <= 255,
        ValV::Array(t, es) => wf_ty(t) && (forall|i: int|
            0 <= i < es.len() ==> type_of(#[trigger] es[i]) == t && wf_val(es[i])),
        ValV::Struct(ms) => ms.len() >= 1 && (forall|i: int|
            0 <= i < ms.len() ==> wf_val(#[trigger] ms[i])),
        ValV::Dict(k, vt, es) => is_basic_ty(k) && wf_ty(k) && wf_ty(vt) && (forall|i: int|
            0 <= i < es.len() ==> type_of((#[trigger] es[i]).0) == k && wf_val(es[i].0) && type_of(
                es[i].1,
            ) == vt && wf_val(es[i].1)) && (forall|i: int, j: int|
            0 <= i < j < es.len() ==> (#[trigger] es[i]).0 != (#[trigger] es[j]).0),
        ValV::Variant(t, b) => type_of(*b) == t && wf_val(*b),
        _ => true,
    }
}

// ---------------------------------------------------------------------------
// Executable helpers
// ---------------------------------------------------------------------------

/// Byte-wise equality of two byte vectors.
pub fn bytes_equal(a: &Vec<u8>, b: &Vec<u8>) -> (r: bool)
    ensures
        r == (a@ == b@),
{
    if a.len() != b.len() {
        return false;
    }
    let mut i: usize = 0;
    while i < a.len()
        invariant
            a@.len() == b@.len(),
            i <= a@.len(),
            forall|j: int| 0 <= j < i ==> a@[j] == b@[j],
        decreases a@.len() - i,
    {
        if a[i] != b[i] {
            return false;
        }
        i = i + 1;
    }
    proof {
        assert(a@ =~= b@);
    }
    true
}

/// Whether no byte of the vector is nul.
pub fn check_nul_free(s: &Vec<u8>) -> (r: bool)
    ensures
        r == nul_free(s@),
{
    let mut i: usize = 0;
    while i < s.len()
        invariant
            i <= s@.len(),
            forall|j: int| 0 <= j < i ==> s@[j] != 0u8,
        decreases s@.len() - i,
    {
        if s[i] == 0 {
            return false;
        }
        i = i + 1;
    }
    true
}

/// Equality of two basic values.
pub fn basic_val_eq(a: &Value, b: &Value) -> (r: bool)
    requires
        is_basic_val(a@),
        is_basic_val(b@),
    ensures
        r == (a@ == b@),
{
    match (a, b) {
        (Value::Byte(x), Value::Byte(y)) => x == y,
        (Value::Boolean(x), Value::Boolean(y)) => x == y,
        (Value::Int16(x), Value::Int16(y)) => x == y,
        (Value::Uint16(x), Value::Uint16(y)) => x == y,
        (Value::Int32(x), Value::Int32(y)) => x == y,
        (Value::Uint32(x), Value::Uint32(y)) => x == y,
        (Value::Int64(x), Value::Int64(y)) => x == y,
        (Value::Uint64(x), Value::Uint64(y)) => x == y,
        (Value::Double(x), Value::Double(y)) => x == y,
        (Value::UnixFd(x), Value::UnixFd(y)) => x == y,
        (Value::Str(x), Value::Str(y)) => bytes_equal(x, y),
        (Value::ObjectPath(x), Value::ObjectPath(y)) => bytes_equal(x, y),
        (Value::Signature(x), Value::Signature(y)) => bytes_equal(x, y),
        _ => {
            proof {
                assert(a@ != b@);
            }
            false
        },
    }
}

/// A copy of a byte vector, element for element.
pub fn copy_bytes(src: &Vec<u8>) -> (r: Vec<u8>)
    ensures
        r@ == src@,
{
    let mut out: Vec<u8> = Vec::new();
    let mut i: usize = 0;
    while i < src.len()
        invariant
            i <= src@.len(),
            out@ == src@.subrange(0, i as int),
        decreases src@.len() - i,
    {
        out.push(src[i]);
        proof {
            assert(src@.subrange(0, i as int).push(src@[i as int]) =~= src@.subrange(0, i + 1));
        }
        i = i + 1;
    }
    proof {
        assert(src@.subrange(0, src@.len() as int) =~= src@);
    }
    out
}

impl TypeSig {
    /// Structural equality of two type descriptors, reflected into the model.
    pub fn ty_eq(&self, other: &TypeSig) -> (r: bool)
        ensures
            r == (self@ == other@),
        decreases *self,
    {
        match (self, other) {
            (TypeSig::Byte, TypeSig::Byte) => true,
            (TypeSig::Boolean, TypeSig::Boolean) => true,
            (TypeSig::Int16, TypeSig::Int16) => true,
            (TypeSig::Uint16, TypeSig::Uint16) => true,
            (TypeSig::Int32, TypeSig::Int32) => true,
            (TypeSig::Uint32, TypeSig::Uint32) => true,
            (TypeSig::Int64, TypeSig::Int64) => true,
            (TypeSig::Uint64, TypeSig::Uint64) => true,
            (TypeSig::Double, TypeSig::Double) => true,
            (TypeSig::UnixFd, TypeSig::UnixFd) => true,
            (TypeSig::Str, TypeSig::Str) => true,
            (TypeSig::ObjectPath, TypeSig::ObjectPath) => true,
            (TypeSig::Signature, TypeSig::Signature) => true,
            (TypeSig::Variant, TypeSig::Variant) => true,
            (TypeSig::Array(a), TypeSig::Array(b)) => a.ty_eq(b),
            (TypeSig::Dict(ka, va), TypeSig::Dict(kb, vb)) => ka.ty_eq(kb) && va.ty_eq(vb),
            (TypeSig::Struct(xs), TypeSig::Struct(ys)) => {
                proof {
                    lemma_tys_view(xs@);
                    lemma_tys_view(ys@);
                }
                if xs.len() != ys.len() {
                    false
                } else {
                    let mut i: usize = 0;
                    let mut same = true;
                    while i < xs.len()
                        invariant
                            xs@.len() == ys@.len(),
                            i <= xs@.len(),
                            same == (forall|j: int|
                                0 <= j < i ==> ty_view(xs@[j]) == ty_view(ys@[j])),
                            *self == TypeSig::Struct(*xs),
                        decreases xs@.len() - i,
                    {
                        proof {
                            assert(decreases_to!(*self => self->Struct_0));
                            assert(decreases_to!(*xs => xs@[i as int]));
                        }
                        let e = xs[i].ty_eq(&ys[i]);
                        same = same && e;
                        i = i + 1;
                    }
                    proof {
                        lemma_tys_view(xs@);
                        lemma_tys_view(ys@);
                        if same {
                            assert(tys_view(xs@) =~= tys_view(ys@));
                        } else {
                            let j = choose|j: int|
                                0 <= j < xs@.len() && ty_view(xs@[j]) != ty_view(ys@[j]);
                            assert(tys_view(xs@)[j] != tys_view(ys@)[j]);
                        }
                    }
                    same
                }
            },
            _ => {
                assert(self@ != other@);
                false
            },
        }
    }

    pub open spec fn is_basic(&self) -> bool {
        is_basic_ty(self@)
    }

    /// Whether this descriptor names a basic (non-container) type.
    pub fn basic(&self) -> (r: bool)
        ensures
            r == is_basic_ty(self@),
    {
        match self {
            TypeSig::Array(_) => false,
            TypeSig::Struct(_) => false,
            TypeSig::Dict(_, _) => false,
            TypeSig::Variant => false,
            _ => true,
        }
    }

    /// The natural wire alignment of the type this descriptor names.
    pub fn align(&self) -> (r: usize)
        ensures
            r as int == align_of(self@),
            1 <= r <= 8,
    {
        match self {
            TypeSig::Byte => 1,
            TypeSig::Boolean => 4,
            TypeSig::Int16 => 2,
            TypeSig::Uint16 => 2,
            TypeSig::Int32 => 4,
            TypeSig::Uint32 => 4,
            TypeSig::Int64 => 8,
            TypeSig::Uint64 => 8,
            TypeSig::Double => 8,
            TypeSig::UnixFd => 4,
            TypeSig::Str => 4,
            TypeSig::ObjectPath => 4,
            TypeSig::Signature => 1,
            TypeSig::Array(_) => 4,
            TypeSig::Struct(_) => 8,
            TypeSig::Dict(_, _) => 4,
            TypeSig::Variant => 1,
        }
    }

    /// A copy of this descriptor whose model is identical to the original's.
    pub fn clone_sig(&self) -> (r: TypeSig)
        ensures
            r@ == self@,
        decreases *self,
    {
        match self {
            TypeSig::Byte => TypeSig::Byte,
            TypeSig::Boolean => TypeSig::Boolean,
            TypeSig::Int16 => TypeSig::Int16,
            TypeSig::Uint16 => TypeSig::Uint16,
            TypeSig::Int32 => TypeSig::Int32,
            TypeSig::Uint32 => TypeSig::Uint32,
            TypeSig::Int64 => TypeSig::Int64,
            TypeSig::Uint64 => TypeSig::Uint64,
            TypeSig::Double => TypeSig::Double,
            TypeSig::UnixFd => TypeSig::UnixFd,
            TypeSig::Str => TypeSig::Str,
            TypeSig::ObjectPath => TypeSig::ObjectPath,
            TypeSig::Signature => TypeSig::Signature,
            TypeSig::Variant => TypeSig::Variant,
            TypeSig::Array(e) => TypeSig::Array(Box::new(e.clone_sig())),
            TypeSig::Dict(k, v) => TypeSig::Dict(Box::new(k.clone_sig()), Box::new(v.clone_sig())),
            TypeSig::Struct(ms) => {
                let mut out: Vec<TypeSig> = Vec::new();
                let mut i: usize = 0;
                while i < ms.len()
                    invariant
                        i <= ms@.len(),
                        out@.len() == i as int,
                        forall|j: int| 0 <= j < i ==> ty_view(out@[j]) == ty_view(ms@[j]),
                        *self == TypeSig::Struct(*ms),
                    decreases ms@.len() - i,
                {
                    proof {
                        assert(decreases_to!(*self => self->Struct_0));
                        assert(decreases_to!(*ms => ms@[i as int]));
                    }
                    let s = ms[i].clone_sig();
                    out.push(s);
                    i = i + 1;
                }
                proof {
                    lemma_tys_view(ms@);
                    lemma_tys_view(out@);
                    assert(tys_view(out@) =~= tys_view(ms@));
                }
                TypeSig::Struct(out)
            },
        }
    }
}

impl TypeSig {
    /// Whether this descriptor names a type the wire format can express.
    pub fn wf_ty_check(&self) -> (r: bool)
        ensures
            r == wf_ty(self@),
        decreases *self,
    {
        match self {
            TypeSig::Array(e) => e.wf_ty_check(),
            TypeSig::Dict(k, v) => k.basic() && k.wf_ty_check() && v.wf_ty_check(),
            TypeSig::Struct(ms) => {
                proof {
                    lemma_tys_view(ms@);
                }
                if ms.len() == 0 {
                    return false;
                }
                let mut i: usize = 0;
                let mut ok = true;
                while i < ms.len()
                    invariant
                        i <= ms@.len(),
                        ok == (forall|j: int| 0 <= j < i ==> wf_ty(#[trigger] ty_view(ms@[j]))),
                        *self == TypeSig::Struct(*ms),
                    decreases ms@.len() - i,
                {
                    proof {
                        assert(decreases_to!(*self => self->Struct_0));
                        assert(decreases_to!(*ms => ms@[i as int]));
                    }
                    let w = ms[i].wf_ty_check();
                    ok = ok && w;
                    i = i + 1;
                }
                proof {
                    lemma_tys_view(ms@);
                    if !ok {
                        let j = choose|j: int| 0 <= j < ms@.len() && !wf_ty(ty_view(ms@[j]));
                        assert(!wf_ty(tys_view(ms@)[j]));
                    }
                }
                ok
            },
            _ => true,
        }
    }
}

impl Value {
    /// Whether this value is well formed: every array element has the
    /// declared element type, dictionary keys are basic, typed, and pairwise
    /// distinct, a variant's declared type matches its boxed value, and
    /// string-like payloads are acceptable.
    #[verifier::loop_isolation(false)]
    #[verifier::rlimit(100)]
    pub fn wf_check(&self) -> (r: bool)
        ensures
            r == wf_val(self@),
        decreases *self,
    {
        match self {
            Value::Str(bs) => {
                let no_nul = check_nul_free(bs);
                let valid = crate::unmarshal::validate_utf8_range(bs.as_slice(), 0, bs.len());
                proof {
                    assert(bs@.subrange(0, bs@.len() as int) =~= bs@);
                }
                no_nul && valid && (bs.len() as u64) < 0x1_0000_0000u64
            },
            Value::ObjectPath(bs) => {
                let no_nul = check_nul_free(bs);
                let valid = crate::unmarshal::validate_utf8_range(bs.as_slice(), 0, bs.len());
                proof {
                    assert(bs@.subrange(0, bs@.len() as int) =~= bs@);
                }
                no_nul && valid && (bs.len() as u64) < 0x1_0000_0000u64
            },
            Value::Signature(bs) => check_nul_free(bs) && bs.len() <= 255,
            Value::Variant(t, b) => {
                let inner_ok = b.wf_check();
                let ts = b.signature_of();
                inner_ok && ts.ty_eq(t)
            },
            Value::Array(t, es) => {
                if !t.wf_ty_check() {
                    return false;
                }
                proof {
                    lemma_vals_view(es@);
                }
                let mut i: usize = 0;
                while i < es.len()
                    invariant
                        i <= es@.len(),
                        forall|j: int|
                            0 <= j < i ==> type_of(#[trigger] val_view(es@[j])) == ty_view(*t)
                                && wf_val(val_view(es@[j])),
                    decreases es@.len() - i,
                {
                    proof {
                        assert(decreases_to!(*self => self->Array_1));
                        assert(decreases_to!(*es => es@[i as int]));
                    }
                    let w = es[i].wf_check();
                    let ts = es[i].signature_of();
                    if !w || !ts.ty_eq(t) {
                        proof {
                            assert(vals_view(es@)[i as int] == val_view(es@[i as int]));
                        }
                        return false;
                    }
                    i = i + 1;
                }
                proof {
                    assert forall|j: int| 0 <= j < vals_view(es@).len() implies type_of(
                        #[trigger] vals_view(es@)[j],
                    ) == ty_view(*t) && wf_val(vals_view(es@)[j]) by {
                        assert(vals_view(es@)[j] == val_view(es@[j]));
                    }
                }
                true
            },
            Value::Struct(ms) => {
                if ms.len() == 0 {
                    proof {
                        lemma_vals_view(ms@);
                    }
                    return false;
                }
                proof {
                    lemma_vals_view(ms@);
                }
                let mut i: usize = 0;
                while i < ms.len()
                    invariant
                        i <= ms@.len(),
                        forall|j: int| 0 <= j < i ==> wf_val(#[trigger] val_view(ms@[j])),
                    decreases ms@.len() - i,
                {
                    proof {
                        assert(decreases_to!(*self => self->Struct_0));
                        assert(decreases_to!(*ms => ms@[i as int]));
                    }
                    if !ms[i].wf_check() {
                        proof {
                            assert(vals_view(ms@)[i as int] == val_view(ms@[i as int]));
                        }
                        return false;
                    }
                    i = i + 1;
                }
                proof {
                    assert forall|j: int| 0 <= j < vals_view(ms@).len() implies wf_val(
                        #[trigger] vals_view(ms@)[j],
                    ) by {
                        assert(vals_view(ms@)[j] == val_view(ms@[j]));
                    }
                }
                true
            },
            Value::Dict(kt, vt, es) => {
                if !kt.basic() || !kt.wf_ty_check() || !vt.wf_ty_check() {
                    return false;
                }
                proof {
                    lemma_pairs_view(es@);
                }
                let mut i: usize = 0;
                while i < es.len()
                    invariant
                        i <= es@.len(),
                        forall|j: int|
                            0 <= j < i ==> type_of(#[trigger] val_view(es@[j].0)) == ty_view(*kt)
                                && wf_val(val_view(es@[j].0)) && type_of(val_view(es@[j].1))
                                == ty_view(*vt) && wf_val(val_view(es@[j].1)),
                    decreases es@.len() - i,
                {
                    proof {
                        assert(decreases_to!(*self => self->Dict_2));
                        assert(decreases_to!(*es => es@[i as int]));
                        assert(decreases_to!(es@[i as int] => es@[i as int].0));
                        assert(decreases_to!(es@[i as int] => es@[i as int].1));
                    }
                    let kw = es[i].0.wf_check();
                    let kt2 = es[i].0.signature_of();
                    let vw = es[i].1.wf_check();
                    let vt2 = es[i].1.signature_of();
                    if !kw || !kt2.ty_eq(kt) || !vw || !vt2.ty_eq(vt) {
                        proof {
                            assert(pairs_view(es@)[i as int] == (val_view(es@[i as int].0),
                            val_view(es@[i as int].1)));
                        }
                        return false;
                    }
                    i = i + 1;
                }
                // pairwise distinct keys; all keys are basic here, so a
                // shallow comparison decides equality
                let mut a: usize = 0;
                while a < es.len()
                    invariant
                        a <= es@.len(),
                        forall|x: int, y: int|
                            0 <= x < y < es@.len() && x < a ==> val_view((#[trigger] es@[x]).0)
                                != val_view((#[trigger] es@[y]).0),
                        forall|j: int|
                            0 <= j < es@.len() ==> type_of(#[trigger] val_view(es@[j].0))
                                == ty_view(*kt) && wf_val(val_view(es@[j].0)) && type_of(
                                val_view(es@[j].1),
                            ) == ty_view(*vt) && wf_val(val_view(es@[j].1)),
                    decreases es@.len() - a,
                {
                    let mut b: usize = a + 1;
                    while b < es.len()
                        invariant
                            a < b || b == a + 1,
                            a < es@.len(),
                            b <= es@.len(),
                            forall|y: int|
                                a < y < b ==> val_view(es@[a as int].0) != val_view(
                                    (#[trigger] es@[y]).0,
                                ),
                            forall|j: int|
                                0 <= j < es@.len() ==> type_of(#[trigger] val_view(es@[j].0))
                                    == ty_view(*kt) && wf_val(val_view(es@[j].0)),
                        decreases es@.len() - b,
                    {
                        let same = basic_val_eq(&es[a].0, &es[b].0);
                        if same {
                            proof {
                                assert(pairs_view(es@)[a as int].0 == val_view(es@[a as int].0));
                                assert(pairs_view(es@)[b as int].0 == val_view(es@[b as int].0));
                            }
                            return false;
                        }
                        b = b + 1;
                    }
                    a = a + 1;
                }
                proof {
                    assert forall|j: int| 0 <= j < pairs_view(es@).len() implies type_of(
                        (#[trigger] pairs_view(es@)[j]).0,
                    ) == ty_view(*kt) && wf_val(pairs_view(es@)[j].0) && type_of(
                        pairs_view(es@)[j].1,
                    ) == ty_view(*vt) && wf_val(pairs_view(es@)[j].1) by {
                        assert(pairs_view(es@)[j] == (val_view(es@[j].0), val_view(es@[j].1)));
                    }
                    assert forall|x: int, y: int|
                        0 <= x < y < pairs_view(es@).len() implies (
                    #[trigger] pairs_view(es@)[x]).0 != (#[trigger] pairs_view(es@)[y]).0 by {
                        assert(pairs_view(es@)[x] == (val_view(es@[x].0), val_view(es@[x].1)));
                        assert(pairs_view(es@)[y] == (val_view(es@[y].0), val_view(es@[y].1)));
                    }
                }
                true
            },
            _ => true,
        }
    }

    /// The type descriptor of this value; pure and structural, with container
    /// annotations taking precedence over contents.
    pub fn signature_of(&self) -> (r: TypeSig)
        ensures
            r@ == type_of(self@),
        decreases *self,
    {
        match self {
            Value::Byte(_) => TypeSig::Byte,
            Value::Boolean(_) => TypeSig::Boolean,
            Value::Int16(_) => TypeSig::Int16,
            Value::Uint16(_) => TypeSig::Uint16,
            Value::Int32(_) => TypeSig::Int32,
            Value::Uint32(_) => TypeSig::Uint32,
            Value::Int64(_) => TypeSig::Int64,
            Value::Uint64(_) => TypeSig::Uint64,
            Value::Double(_) => TypeSig::Double,
            Value::UnixFd(_) => TypeSig::UnixFd,
            Value::Str(_) => TypeSig::Str,
            Value::ObjectPath(_) => TypeSig::ObjectPath,
            Value::Signature(_) => TypeSig::Signature,
            Value::Array(t, _) => TypeSig::Array(Box::new(t.clone_sig())),
            Value::Struct(ms) => {
                let mut sigs: Vec<TypeSig> = Vec::new();
                let mut i: usize = 0;
                while i < ms.len()
                    invariant
                        i <= ms@.len(),
                        sigs@.len() == i as int,
                        forall|j: int| 0 <= j < i ==> ty_view(sigs@[j]) == type_of(val_view(ms@[j])),
                        *self == Value::Struct(*ms),
                    decreases ms@.len() - i,
                {
                    proof {
                        assert(decreases_to!(*self => self->Struct_0));
                        assert(decreases_to!(*ms => ms@[i as int]));
                    }
                    let s = ms[i].signature_of();
                    sigs.push(s);
                    i = i + 1;
                }
                proof {
                    lemma_tys_view(sigs@);
                    lemma_vals_view(ms@);
                    lemma_types_of(vals_view(ms@));
                    assert(tys_view(sigs@) =~= types_of(vals_view(ms@)));
                }
                TypeSig::Struct(sigs)
            },
            Value::Dict(k, v, _) => TypeSig::Dict(Box::new(k.clone_sig()), Box::new(v.clone_sig())),
            Value::Variant(_, _) => TypeSig::Variant,
        }
    }

    /// The natural wire alignment of this value's type.
    pub fn wire_align(&self) -> (r: usize)
        ensures
            r as int == align_of(type_of(self@)),
            1 <= r <= 8,
    {
        match self {
            Value::Byte(_) => 1,
            Value::Boolean(_) => 4,
            Value::Int16(_) => 2,
            Value::Uint16(_) => 2,
            Value::Int32(_) => 4,
            Value::Uint32(_) => 4,
            Value::Int64(_) => 8,
            Value::Uint64(_) => 8,
            Value::Double(_) => 8,
            Value::UnixFd(_) => 4,
            Value::Str(_) => 4,
            Value::ObjectPath(_) => 4,
            Value::Signature(_) => 1,
            Value::Array(_, _) => 4,
            Value::Struct(_) => 8,
            Value::Dict(_, _, _) => 4,
            Value::Variant(_, _) => 1,
        }
    }

    /// A deep copy of this value whose model is identical to the original's.
    pub fn deep_clone(&self) -> (r: Value)
        ensures
            r@ == self@,
        decreases *self,
    {
        match self {
            Value::Byte(x) => Value::Byte(*x),
            Value::Boolean(x) => Value::Boolean(*x),
            Value::Int16(x) => Value::Int16(*x),
            Value::Uint16(x) => Value::Uint16(*x),
            Value::Int32(x) => Value::Int32(*x),
            Value::Uint32(x) => Value::Uint32(*x),
            Value::Int64(x) => Value::Int64(*x),
            Value::Uint64(x) => Value::Uint64(*x),
            Value::Double(x) => Value::Double(*x),
            Value::UnixFd(x) => Value::UnixFd(*x),
            Value::Str(b) => Value::Str(copy_bytes(b)),
            Value::ObjectPath(b) => Value::ObjectPath(copy_bytes(b)),
            Value::Signature(b) => Value::Signature(copy_bytes(b)),
            Value::Variant(t, b) => Value::Variant(t.clone_sig(), Box::new(b.deep_clone())),
            Value::Array(t, es) => {
                let mut out: Vec<Value> = Vec::new();
                let mut i: usize = 0;
                while i < es.len()
                    invariant
                        i <= es@.len(),
                        out@.len() == i as int,
                        forall|j: int| 0 <= j < i ==> val_view(out@[j]) == val_view(es@[j]),
                        *self == Value::Array(*t, *es),
                    decreases es@.len() - i,
                {
                    proof {
                        assert(decreases_to!(*self => self->Array_1));
                        assert(decreases_to!(*es => es@[i as int]));
                    }
                    let e = es[i].deep_clone();
                    out.push(e);
                    i = i + 1;
                }
                proof {
                    lemma_vals_view(out@);
                    lemma_vals_view(es@);
                    assert(vals_view(out@) =~= vals_view(es@));
                }
                Value::Array(t.clone_sig(), out)
            },
            Value::Struct(ms) => {
                let mut out: Vec<Value> = Vec::new();
                let mut i: usize = 0;
                while i < ms.len()
                    invariant
                        i <= ms@.len(),
                        out@.len() == i as int,
                        forall|j: int| 0 <= j < i ==> val_view(out@[j]) == val_view(ms@[j]),
                        *self == Value::Struct(*ms),
                    decreases ms@.len() - i,
                {
                    proof {
                        assert(decreases_to!(*self => self->Struct_0));
                        assert(decreases_to!(*ms => ms@[i as int]));
                    }
                    let e = ms[i].deep_clone();
                    out.push(e);
                    i = i + 1;
                }
                proof {
                    lemma_vals_view(out@);
                    lemma_vals_view(ms@);
                    assert(vals_view(out@) =~= vals_view(ms@));
                }
                Value::Struct(out)
            },
            Value::Dict(kt, vt, es) => {
                let mut out: Vec<(Value, Value)> = Vec::new();
                let mut i: usize = 0;
                while i < es.len()
                    invariant
                        i <= es@.len(),
                        out@.len() == i as int,
                        forall|j: int|
                            0 <= j < i ==> val_view((#[trigger] out@[j]).0) == val_view(es@[j].0)
                                && val_view(out@[j].1) == val_view(es@[j].1),
                        *self == Value::Dict(*kt, *vt, *es),
                    decreases es@.len() - i,
                {
                    proof {
                        assert(decreases_to!(*self => self->Dict_2));
                        assert(decreases_to!(*es => es@[i as int]));
                        assert(decreases_to!(es@[i as int] => es@[i as int].0));
                        assert(decreases_to!(es@[i as int] => es@[i as int].1));
                    }
                    let k = es[i].0.deep_clone();
                    let v = es[i].1.deep_clone();
                    out.push((k, v));
                    i = i + 1;
                }
                proof {
                    lemma_pairs_view(out@);
                    lemma_pairs_view(es@);
                    assert(pairs_view(out@) =~= pairs_view(es@));
                }
                Value::Dict(kt.clone_sig(), vt.clone_sig(), out)
            },
        }
    }

    /// Whether this value is of a basic (non-container) type.
    pub fn is_basic_value(&self) -> (r: bool)
        ensures
            r == is_basic_val(self@),
    {
        match self {
            Value::Array(_, _) => false,
            Value::Struct(_) => false,
            Value::Dict(_, _, _) => false,
            Value::Variant(_, _) => false,
            _ => true,
        }
    }
}

} // verus!
