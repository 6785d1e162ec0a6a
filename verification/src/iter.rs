use crate::error::IterError;
use crate::message::{DBusMessage, MsgV};
use crate::value::{TypeSig, TyV, ValV, Value, is_basic_val, lemma_vals_view, ty_view,
    type_of, val_view, vals_view};
use vstd::prelude::*;

verus! {

// ---------------------------------------------------------------------------
// Append mode
// ---------------------------------------------------------------------------

/// The container kinds an append-mode cursor can open. Dictionaries cannot be
/// built through the cursor and are refused loudly at `open_container`.
#[derive(Clone, Copy, Debug, PartialEq, Eq, Structural)]
pub enum ContainerKind {
    Array,
    Struct,
    Variant,
    Dict,
}

/// One open container: its kind, the declared element type of an array, and
/// the values staged so far.
pub struct OpenContainer {
    pub kind: ContainerKind,
    pub elem: Option<TypeSig>,
    pub staged: Vec<Value>,
}

/// Model of one open container.
pub struct OpenV {
    pub kind: ContainerKind,
    pub elem: Option<TyV>,
    pub staged: Seq<ValV>,
}

impl View for OpenContainer {
    type V = OpenV;

    open spec fn view(&self) -> OpenV {
        OpenV {
            kind: self.kind,
            elem: match self.elem {
                Some(t) => Some(ty_view(t)),
                None => None,
            },
            staged: vals_view(self.staged@),
        }
    }
}

pub open spec fn opens_view(s: Seq<OpenContainer>) -> Seq<OpenV>
    decreases s,
{
    if s.len() == 0 {
        Seq::empty()
    } else {
        opens_view(s.drop_last()).push(s.last()@)
    }
}

pub broadcast proof fn lemma_opens_view(s: Seq<OpenContainer>)
    ensures
        (#[trigger] opens_view(s)).len() == s.len(),
        forall|i: int| 0 <= i < s.len() ==> opens_view(s)[i] == s[i]@,
    decreases s.len(),
{
    if s.len() > 0 {
        lemma_opens_view(s.drop_last());
    }
}

/// An append-mode cursor over one message: values append to the innermost
/// open container, or to the message body when no container is open.
/// A container closed with `close_container` turns into one finished value
/// appended to its parent. The cursor owns the message until `finish`.
pub struct AppendCursor {
    pub msg: DBusMessage,
    pub stack: Vec<OpenContainer>,
}

impl AppendCursor {
    pub open spec fn stack_view(&self) -> Seq<OpenV> {
        opens_view(self.stack@)
    }

    /// Begins appending to an unlocked message.
    pub fn init_append(msg: DBusMessage) -> (c: AppendCursor)
        requires
            !msg.locked,
        ensures
            c.msg == msg,
            c.stack_view().len() == 0,
            !c.msg.locked,
    {
        let c = AppendCursor { msg, stack: Vec::new() };
        proof {
            lemma_opens_view(c.stack@);
        }
        c
    }

    /// Appends one basic value to the current target: the innermost open
    /// container, or the message body at top level. A container value is
    /// refused.
    pub fn append_basic(&mut self, v: Value) -> (r: Result<(), IterError>)
        requires
            !old(self).msg.locked,
        ensures
            !final(self).msg.locked,
            ({
                if !is_basic_val(v@) {
                    r == Err::<(), IterError>(IterError::TypeMismatch) && *final(self) == *old(self)
                } else {
                    r is Ok && (if old(self).stack_view().len() == 0 {
                        final(self).msg@ == (MsgV {
                            body: old(self).msg@.body.push(v@),
                            ..old(self).msg@
                        }) && final(self).stack_view() == old(self).stack_view()
                    } else {
                        final(self).msg == old(self).msg && final(self).stack_view()
                            == old(self).stack_view().update(
                            old(self).stack_view().len() - 1,
                            OpenV {
                                staged: old(self).stack_view().last().staged.push(v@),
                                ..old(self).stack_view().last()
                            },
                        )
                    })
                }
            }),
    {
        if !v.is_basic_value() {
            return Err(IterError::TypeMismatch);
        }
        let n = self.stack.len();
        if n == 0 {
            self.msg.push_value(v);
            proof {
                lemma_opens_view(self.stack@);
            }
            Ok(())
        } else {
            let ghost st0 = self.stack@;
            let ghost v0 = v@;
            let last = self.stack.len() - 1;
            let top = &mut self.stack[last];
            proof {
                lemma_vals_view(top.staged@);
                lemma_vals_view(top.staged@.push(v));
                assert(vals_view(top.staged@.push(v)) =~= vals_view(top.staged@).push(v0));
            }
            top.staged.push(v);
            proof {
                lemma_opens_view(old(self).stack@);
                lemma_opens_view(self.stack@);
                assert(opens_view(self.stack@) =~= opens_view(old(self).stack@).update(
                    old(self).stack@.len() - 1,
                    OpenV {
                        staged: opens_view(old(self).stack@).last().staged.push(v0),
                        ..opens_view(old(self).stack@).last()
                    },
                ));
            }
            Ok(())
        }
    }

    /// Opens a new container whose contents accumulate until it is closed.
    /// An array must declare its single element type up front; a dictionary
    /// is not supported and fails loudly.
    pub fn open_container(&mut self, kind: ContainerKind, elem: Option<TypeSig>) -> (r: Result<
        (),
        IterError,
    >)
        requires
            !old(self).msg.locked,
        ensures
            !final(self).msg.locked,
            kind == ContainerKind::Dict ==> r == Err::<(), IterError>(IterError::Unsupported)
                && *final(self) == *old(self),
            kind == ContainerKind::Array && elem is None ==> r == Err::<(), IterError>(
                IterError::TypeMismatch,
            ) && *final(self) == *old(self),
            r is Ok ==> final(self).msg == old(self).msg && final(self).stack_view() == old(
                self,
            ).stack_view().push(
                OpenV {
                    kind,
                    elem: match elem {
                        Some(t) => Some(t@),
                        None => None,
                    },
                    staged: Seq::empty(),
                },
            ),
            r is Ok <==> !(kind == ContainerKind::Dict || (kind == ContainerKind::Array
                && elem is None)),
    {
        match kind {
            ContainerKind::Dict => {
                return Err(IterError::Unsupported);
            },
            ContainerKind::Array => {
                if elem.is_none() {
                    return Err(IterError::TypeMismatch);
                }
            },
            _ => {},
        }
        let oc = OpenContainer { kind, elem, staged: Vec::new() };
        proof {
            lemma_vals_view(oc.staged@);
            assert(vals_view(oc.staged@) =~= Seq::<ValV>::empty());
            lemma_opens_view(self.stack@);
            lemma_opens_view(self.stack@.push(oc));
            assert(opens_view(self.stack@.push(oc)) =~= opens_view(self.stack@).push(oc@));
        }
        self.stack.push(oc);
        Ok(())
    }

    /// Closes the innermost open container, finalizing its staged values
    /// into one finished value appended to the parent target. An array whose
    /// staged values do not all have the declared element type is rejected,
    /// as are a variant without exactly one staged value, an empty struct,
    /// and a close with no container open.
    pub fn close_container(&mut self) -> (r: Result<(), IterError>)
        requires
            !old(self).msg.locked,
        ensures
            !final(self).msg.locked,
            old(self).stack_view().len() == 0 ==> r == Err::<(), IterError>(IterError::Closed)
                && *final(self) == *old(self),
            r is Ok ==> old(self).stack_view().len() > 0 && ({
                let top = old(self).stack_view().last();
                let finished = close_result(top);
                finished is Some && ({
                    let fv = finished->0;
                    if old(self).stack_view().len() == 1 {
                        final(self).msg@ == (MsgV {
                            body: old(self).msg@.body.push(fv),
                            ..old(self).msg@
                        }) && final(self).stack_view() =~= Seq::<OpenV>::empty()
                    } else {
                        final(self).msg == old(self).msg && final(self).stack_view() == old(
                            self,
                        ).stack_view().drop_last().update(
                            old(self).stack_view().len() - 2,
                            OpenV {
                                staged: old(self).stack_view()[old(self).stack_view().len()
                                    - 2].staged.push(fv),
                                ..old(self).stack_view()[old(self).stack_view().len() - 2]
                            },
                        )
                    }
                })
            }),
            old(self).stack_view().len() > 0 && close_result(old(self).stack_view().last())
                is None ==> r == Err::<(), IterError>(IterError::TypeMismatch) && final(self).msg
                == old(self).msg,
            r is Ok <==> (old(self).stack_view().len() > 0 && close_result(
                old(self).stack_view().last(),
            ) is Some),
    {
        let n = self.stack.len();
        if n == 0 {
            proof {
                lemma_opens_view(self.stack@);
            }
            return Err(IterError::Closed);
        }
        let ghost st0 = self.stack@;
        proof {
            lemma_opens_view(st0);
        }
        let top = self.stack.pop().unwrap();
        proof {
            assert(st0.drop_last() =~= self.stack@);
            assert(top@ == opens_view(st0).last());
        }
        let finished: Value = match top.kind {
            ContainerKind::Array => {
                let elem = match top.elem {
                    Some(t) => t,
                    None => {
                        self.stack.push(top_rebuild(ContainerKind::Array, None, top.staged));
                        return Err(IterError::TypeMismatch);
                    },
                };
                let mut i: usize = 0;
                let mut ok = true;
                while i < top.staged.len()
                    invariant
                        i <= top.staged@.len(),
                        ok == (forall|j: int|
                            0 <= j < i ==> type_of(val_view(top.staged@[j])) == ty_view(elem)),
                    decreases top.staged@.len() - i,
                {
                    let s = top.staged[i].signature_of();
                    let e = s.ty_eq(&elem);
                    ok = ok && e;
                    i = i + 1;
                }
                if !ok {
                    proof {
                        lemma_vals_view(top.staged@);
                        let j = choose|j: int|
                            0 <= j < top.staged@.len() && type_of(val_view(top.staged@[j]))
                                != ty_view(elem);
                        assert(vals_view(top.staged@)[j] == val_view(top.staged@[j]));
                    }
                    self.stack.push(top_rebuild(ContainerKind::Array, Some(elem), top.staged));
                    return Err(IterError::TypeMismatch);
                }
                proof {
                    lemma_vals_view(top.staged@);
                    assert(forall|j: int|
                        0 <= j < vals_view(top.staged@).len() ==> type_of(
                            #[trigger] vals_view(top.staged@)[j],
                        ) == ty_view(elem));
                }
                Value::Array(elem, top.staged)
            },
            ContainerKind::Variant => {
                if top.staged.len() != 1 {
                    proof {
                        lemma_vals_view(top.staged@);
                    }
                    self.stack.push(top_rebuild(ContainerKind::Variant, top.elem, top.staged));
                    return Err(IterError::TypeMismatch);
                }
                let mut staged = top.staged;
                let inner = staged.pop().unwrap();
                proof {
                    lemma_vals_view(old(self).stack@.last().staged@);
                    assert(val_view(inner) == opens_view(st0).last().staged[0]);
                }
                let t = inner.signature_of();
                Value::Variant(t, Box::new(inner))
            },
            ContainerKind::Struct => {
                if top.staged.len() == 0 {
                    proof {
                        lemma_vals_view(top.staged@);
                    }
                    self.stack.push(top_rebuild(ContainerKind::Struct, top.elem, top.staged));
                    return Err(IterError::TypeMismatch);
                }
                proof {
                    lemma_vals_view(top.staged@);
                }
                Value::Struct(top.staged)
            },
            ContainerKind::Dict => {
                self.stack.push(top_rebuild(ContainerKind::Dict, top.elem, top.staged));
                return Err(IterError::TypeMismatch);
            },
        };
        let ghost fv = finished@;
        proof {
            assert(close_result(opens_view(st0).last()) == Some(fv));
        }
        let m = self.stack.len();
        if m == 0 {
            self.msg.push_value(finished);
            proof {
                lemma_opens_view(self.stack@);
                assert(opens_view(self.stack@) =~= Seq::<OpenV>::empty());
            }
            Ok(())
        } else {
            let last = m - 1;
            let parent = &mut self.stack[last];
            proof {
                lemma_vals_view(parent.staged@);
                lemma_vals_view(parent.staged@.push(finished));
                assert(vals_view(parent.staged@.push(finished)) =~= vals_view(
                    parent.staged@,
                ).push(fv));
            }
            parent.staged.push(finished);
            proof {
                lemma_opens_view(st0);
                lemma_opens_view(self.stack@);
                assert(opens_view(self.stack@) =~= opens_view(st0).drop_last().update(
                    opens_view(st0).len() - 2,
                    OpenV {
                        staged: opens_view(st0)[opens_view(st0).len() - 2].staged.push(fv),
                        ..opens_view(st0)[opens_view(st0).len() - 2]
                    },
                ));
            }
            Ok(())
        }
    }

    /// Hands the message back. Every opened container must have been closed.
    pub fn finish(self) -> (r: DBusMessage)
        requires
            self.stack_view().len() == 0,
        ensures
            r == self.msg,
    {
        self.msg
    }
}

/// The finished value a closing container yields, when its staged contents
/// are acceptable: an array requires every staged value to have the declared
/// element type, a variant exactly one staged value, a struct at least one.
pub open spec fn close_result(top: OpenV) -> Option<ValV> {
    match top.kind {
        ContainerKind::Array => match top.elem {
            Some(t) => if forall|j: int|
                0 <= j < top.staged.len() ==> type_of(#[trigger] top.staged[j]) == t {
                Some(ValV::Array(t, top.staged))
            } else {
                None
            },
            None => None,
        },
        ContainerKind::Variant => if top.staged.len() == 1 {
            Some(ValV::Variant(type_of(top.staged[0]), Box::new(top.staged[0])))
        } else {
            None
        },
        ContainerKind::Struct => if top.staged.len() >= 1 {
            Some(ValV::Struct(top.staged))
        } else {
            None
        },
        ContainerKind::Dict => None,
    }
}

/// Rebuilds a popped container unchanged, for the failing paths that leave
/// the cursor as it was.
fn top_rebuild(kind: ContainerKind, elem: Option<TypeSig>, staged: Vec<Value>) -> (r:
    OpenContainer)
    ensures
        r == (OpenContainer { kind, elem, staged }),
{
    OpenContainer { kind, elem, staged }
}

// ---------------------------------------------------------------------------
// Read mode
// ---------------------------------------------------------------------------

/// One position of a read-mode cursor: a plain value, or the synthetic
/// key/value pseudo-container a dictionary exposes for each entry.
pub enum ReadItem {
    Single(Value),
    Entry(Value, Value),
}

/// Model of one read-mode position.
pub enum ItemV {
    Single(ValV),
    Entry(ValV, ValV),
}

impl View for ReadItem {
    type V = ItemV;

    open spec fn view(&self) -> ItemV {
        match self {
            ReadItem::Single(v) => ItemV::Single(val_view(*v)),
            ReadItem::Entry(k, v) => ItemV::Entry(val_view(*k), val_view(*v)),
        }
    }
}

pub open spec fn items_view(s: Seq<ReadItem>) -> Seq<ItemV>
    decreases s,
{
    if s.len() == 0 {
        Seq::empty()
    } else {
        items_view(s.drop_last()).push(s.last()@)
    }
}

pub broadcast proof fn lemma_items_view(s: Seq<ReadItem>)
    ensures
        (#[trigger] items_view(s)).len() == s.len(),
        forall|i: int| 0 <= i < s.len() ==> items_view(s)[i] == s[i]@,
    decreases s.len(),
{
    if s.len() > 0 {
        lemma_items_view(s.drop_last());
    }
}

/// The sequence of positions a read cursor walks over a sequence of values.
pub open spec fn singles_of(vs: Seq<ValV>) -> Seq<ItemV> {
    Seq::new(vs.len(), |i: int| ItemV::Single(vs[i]))
}

/// A read-mode cursor: a positional walk over one message's top-level values
/// or over one container's children. `recurse` opens a fresh cursor over the
/// current element's children.
pub struct ReadCursor {
    pub items: Vec<ReadItem>,
    pub pos: usize,
}

impl ReadCursor {
    pub open spec fn view_items(&self) -> Seq<ItemV> {
        items_view(self.items@)
    }

    pub open spec fn view_pos(&self) -> int {
        self.pos as int
    }

    /// A cursor over the top-level values of a message's body.
    pub fn init_read(msg: &DBusMessage) -> (c: ReadCursor)
        ensures
            c.view_items() == singles_of(msg@.body),
            c.view_pos() == 0,
    {
        let mut items: Vec<ReadItem> = Vec::new();
        let mut i: usize = 0;
        proof {
            lemma_vals_view(msg.body@);
        }
        while i < msg.body.len()
            invariant
                i <= msg.body@.len(),
                items@.len() == i as int,
                forall|j: int|
                    0 <= j < i ==> items@[j]@ == ItemV::Single(val_view(msg.body@[j])),
            decreases msg.body@.len() - i,
        {
            let v = msg.body[i].deep_clone();
            items.push(ReadItem::Single(v));
            i = i + 1;
        }
        proof {
            lemma_items_view(items@);
            lemma_vals_view(msg.body@);
            assert(items_view(items@) =~= singles_of(vals_view(msg.body@)));
        }
        ReadCursor { items, pos: 0 }
    }

    /// Whether a further element follows the current one.
    pub fn has_next(&self) -> (r: bool)
        ensures
            r == (self.view_pos() + 1 < self.view_items().len()),
    {
        proof {
            lemma_items_view(self.items@);
        }
        if self.pos >= self.items.len() {
            false
        } else {
            self.pos + 1 < self.items.len()
        }
    }

    /// Whether the cursor has walked past the last element.
    pub fn finished(&self) -> (r: bool)
        ensures
            r == (self.view_pos() >= self.view_items().len()),
    {
        proof {
            lemma_items_view(self.items@);
        }
        self.pos >= self.items.len()
    }

    /// Steps to the next element; reports whether one exists. Once the walk
    /// is past the last element it stays there.
    pub fn advance(&mut self) -> (r: bool)
        ensures
            final(self).view_items() == old(self).view_items(),
            old(self).view_pos() < old(self).view_items().len() ==> final(self).view_pos() == old(
                self,
            ).view_pos() + 1,
            old(self).view_pos() >= old(self).view_items().len() ==> final(self).view_pos() == old(
                self,
            ).view_pos(),
            r == (final(self).view_pos() < final(self).view_items().len()),
    {
        proof {
            lemma_items_view(self.items@);
        }
        if self.pos < self.items.len() {
            self.pos = self.pos + 1;
        }
        self.pos < self.items.len()
    }

    /// The type of the current element, or nothing when the walk is past the
    /// end. A dictionary entry has no single type and reports nothing.
    pub fn current_type(&self) -> (r: Option<TypeSig>)
        ensures
            self.view_pos() >= self.view_items().len() ==> r is None,
            self.view_pos() < self.view_items().len() ==> (match self.view_items()[self.view_pos()] {
                ItemV::Single(v) => r is Some && r->0@ == type_of(v),
                ItemV::Entry(_, _) => r is None,
            }),
    {
        proof {
            lemma_items_view(self.items@);
        }
        if self.pos >= self.items.len() {
            return None;
        }
        match &self.items[self.pos] {
            ReadItem::Single(v) => Some(v.signature_of()),
            ReadItem::Entry(_, _) => None,
        }
    }

    /// The declared element type of the current array, or nothing when the
    /// current element is not an array.
    pub fn current_element_type(&self) -> (r: Option<TypeSig>)
        ensures
            self.view_pos() < self.view_items().len() ==> (match self.view_items()[self.view_pos()] {
                ItemV::Single(v) => match v {
                    ValV::Array(t, _) => r is Some && r->0@ == t,
                    _ => r is None,
                },
                ItemV::Entry(_, _) => r is None,
            }),
            self.view_pos() >= self.view_items().len() ==> r is None,
    {
        proof {
            lemma_items_view(self.items@);
        }
        if self.pos >= self.items.len() {
            return None;
        }
        match &self.items[self.pos] {
            ReadItem::Single(v) => match v {
                Value::Array(t, _) => Some(t.clone_sig()),
                _ => None,
            },
            ReadItem::Entry(_, _) => None,
        }
    }

    /// A copy of the current basic value. Reading a container, an entry, or
    /// past the end is a shape error.
    pub fn read_basic(&self) -> (r: Result<Value, IterError>)
        ensures
            self.view_pos() < self.view_items().len() && (match self.view_items()[self.view_pos()] {
                ItemV::Single(v) => is_basic_val(v),
                ItemV::Entry(_, _) => false,
            }) ==> r is Ok && self.view_items()[self.view_pos()] == ItemV::Single(r->Ok_0@),
            !(self.view_pos() < self.view_items().len() && (match self.view_items()[self.view_pos()] {
                ItemV::Single(v) => is_basic_val(v),
                ItemV::Entry(_, _) => false,
            })) ==> r == Err::<Value, IterError>(IterError::TypeMismatch),
    {
        proof {
            lemma_items_view(self.items@);
        }
        if self.pos >= self.items.len() {
            return Err(IterError::TypeMismatch);
        }
        match &self.items[self.pos] {
            ReadItem::Single(v) => {
                if v.is_basic_value() {
                    Ok(v.deep_clone())
                } else {
                    Err(IterError::TypeMismatch)
                }
            },
            ReadItem::Entry(_, _) => Err(IterError::TypeMismatch),
        }
    }

    /// A fresh cursor over the current element's children: the elements of an
    /// array, the members of a struct, the single value of a variant, the
    /// key/value pseudo-containers of a dictionary, or the key and value of
    /// one such pseudo-container. Recursing into a basic value is a shape
    /// error.
    pub fn recurse(&self) -> (r: Result<ReadCursor, IterError>)
        ensures
            self.view_pos() < self.view_items().len() ==> (match self.view_items()[self.view_pos()] {
                ItemV::Single(v) => match v {
                    ValV::Array(_, es) => r is Ok && r->Ok_0.view_items() == singles_of(es)
                        && r->Ok_0.view_pos() == 0,
                    ValV::Struct(ms) => r is Ok && r->Ok_0.view_items() == singles_of(ms)
                        && r->Ok_0.view_pos() == 0,
                    ValV::Variant(_, b) => r is Ok && r->Ok_0.view_items() == singles_of(
                        seq![*b],
                    ) && r->Ok_0.view_pos() == 0,
                    ValV::Dict(_, _, es) => r is Ok && r->Ok_0.view_items() == Seq::new(
                        es.len(),
                        |i: int| ItemV::Entry(es[i].0, es[i].1),
                    ) && r->Ok_0.view_pos() == 0,
                    _ => r == Err::<ReadCursor, IterError>(IterError::TypeMismatch),
                },
                ItemV::Entry(k, v) => r is Ok && r->Ok_0.view_items() == singles_of(seq![k, v])
                    && r->Ok_0.view_pos() == 0,
            }),
            self.view_pos() >= self.view_items().len() ==> r == Err::<ReadCursor, IterError>(
                IterError::TypeMismatch,
            ),
    {
        proof {
            lemma_items_view(self.items@);
        }
        if self.pos >= self.items.len() {
            return Err(IterError::TypeMismatch);
        }
        match &self.items[self.pos] {
            ReadItem::Single(v) => match v {
                Value::Array(_, es) => Ok(cursor_over(es)),
                Value::Struct(ms) => Ok(cursor_over(ms)),
                Value::Variant(_, b) => {
                    let mut items: Vec<ReadItem> = Vec::new();
                    items.push(ReadItem::Single(b.deep_clone()));
                    proof {
                        lemma_items_view(items@);
                        assert(items_view(items@) =~= singles_of(seq![val_view(**b)]));
                    }
                    Ok(ReadCursor { items, pos: 0 })
                },
                Value::Dict(_, _, es) => {
                    let mut items: Vec<ReadItem> = Vec::new();
                    let mut i: usize = 0;
                    proof {
                        crate::value::lemma_pairs_view(es@);
                    }
                    while i < es.len()
                        invariant
                            i <= es@.len(),
                            items@.len() == i as int,
                            forall|j: int|
                                0 <= j < i ==> items@[j]@ == ItemV::Entry(
                                    val_view(es@[j].0),
                                    val_view(es@[j].1),
                                ),
                        decreases es@.len() - i,
                    {
                        let k = es[i].0.deep_clone();
                        let w = es[i].1.deep_clone();
                        items.push(ReadItem::Entry(k, w));
                        i = i + 1;
                    }
                    proof {
                        lemma_items_view(items@);
                        crate::value::lemma_pairs_view(es@);
                        let ev = crate::value::pairs_view(es@);
                        assert(items_view(items@) =~= Seq::new(
                            ev.len(),
                            |i: int| ItemV::Entry(ev[i].0, ev[i].1),
                        ));
                    }
                    Ok(ReadCursor { items, pos: 0 })
                },
                _ => Err(IterError::TypeMismatch),
            },
            ReadItem::Entry(k, v) => {
                let mut items: Vec<ReadItem> = Vec::new();
                items.push(ReadItem::Single(k.deep_clone()));
                items.push(ReadItem::Single(v.deep_clone()));
                proof {
                    lemma_items_view(items@);
                    assert(items_view(items@) =~= singles_of(seq![val_view(*k), val_view(*v)]));
                }
                Ok(ReadCursor { items, pos: 0 })
            },
        }
    }
}

/// A cursor positioned at the start of copies of the given values.
fn cursor_over(vs: &Vec<Value>) -> (c: ReadCursor)
    ensures
        c.view_items() == singles_of(vals_view(vs@)),
        c.view_pos() == 0,
{
    let mut items: Vec<ReadItem> = Vec::new();
    let mut i: usize = 0;
    proof {
        lemma_vals_view(vs@);
    }
    while i < vs.len()
        invariant
            i <= vs@.len(),
            items@.len() == i as int,
            forall|j: int| 0 <= j < i ==> items@[j]@ == ItemV::Single(val_view(vs@[j])),
        decreases vs@.len() - i,
    {
        let v = vs[i].deep_clone();
        items.push(ReadItem::Single(v));
        i = i + 1;
    }
    proof {
        lemma_items_view(items@);
        lemma_vals_view(vs@);
        assert(items_view(items@) =~= singles_of(vals_view(vs@)));
    }
    ReadCursor { items, pos: 0 }
}

/// The body after appending each value of `vs` in turn, one `append_basic`
/// at a time, to a body that starts as `base`.
pub open spec fn pushed_all(base: Seq<ValV>, vs: Seq<ValV>) -> Seq<ValV>
    decreases vs.len(),
{
    if vs.len() == 0 {
        base
    } else {
        pushed_all(base.push(vs.first()), vs.drop_first())
    }
}

/// Appending values at the top level of an append cursor and then walking a
/// read cursor over the resulting body yields exactly the appended values in
/// order: the body after the appends is the old body followed by the values,
/// and each read position over that body exposes the value appended there.
pub proof fn lemma_append_read_symmetry(base: Seq<ValV>, vs: Seq<ValV>)
    ensures
        pushed_all(base, vs) == base + vs,
        forall|i: int|
            0 <= i < vs.len() ==> singles_of(pushed_all(base, vs))[base.len() + i]
                == ItemV::Single(vs[i]),
        singles_of(pushed_all(base, vs)).len() == base.len() + vs.len(),
    decreases vs.len(),
{
    if vs.len() == 0 {
        assert(base + vs =~= base);
    } else {
        lemma_append_read_symmetry(base.push(vs.first()), vs.drop_first());
        assert(base.push(vs.first()) + vs.drop_first() =~= base + vs);
    }
}

} // verus!
