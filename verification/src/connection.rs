use crate::error::{CodecError, ConnError, MarshalError};
use crate::framing::{bn_msg, marshal, pm_msg, sm_msg, unmarshal_message};
use crate::message::{DBusMessage, MessageKind, MsgV, wf_msg};
use crate::wire::push_bytes;
use vstd::prelude::*;

verus! {

/// The lifecycle state of a connection. A read or write failure moves it to
/// `Disconnected`, after which every operation fails fast.
#[derive(Clone, Copy, Debug, PartialEq, Eq, Structural)]
pub enum ConState {
    NewCreated,
    NotAuthenticated,
    Ready,
    Disconnected,
}

/// A reserved outbound slot. Kept for interface compatibility; reservation
/// is not needed when the queue grows on demand.
pub struct DBusPreallocatedSend {}

/// What `dispatch` reports about the inbound buffer: whether a further
/// complete frame is already buffered. `NeedMemory` is unused: allocation
/// failure is not locally recoverable.
#[derive(Clone, Copy, Debug, PartialEq, Eq, Structural)]
pub enum DBusDispatchStatus {
    Complete,
    DataRemaining,
    NeedMemory,
}

/// A filter's verdict on one inbound message.
#[derive(Clone, Copy, Debug, PartialEq, Eq, Structural)]
pub enum DBusHandlerResult {
    Handled,
    NotYetHandled,
    NeedMemory,
}

/// A caller-registered handler that sees every non-reply inbound message, in
/// registration order, before it reaches the inbound queue. `handles` is the
/// handler's decision as a predicate; `handle_message` must report `Handled`
/// exactly on the messages the predicate accepts.
pub trait MessageFilter {
    spec fn handles(&self, m: MsgV) -> bool;

    fn handle_message(&self, m: &DBusMessage) -> (r: DBusHandlerResult)
        ensures
            (r == DBusHandlerResult::Handled) == self.handles(m@),
    ;
}

/// Byte-wise equality of two byte vectors.
fn bytes_eq(a: &Vec<u8>, b: &Vec<u8>) -> (r: bool)
    ensures
        r == (a@ == b@),
{
    if a.len() != b.len() {
        return false;
    }
    let mut i: usize = 0;
    while i < a.len()
        invariant
            a@.len() == b@.len(),
            i <= a@.len(),
            forall|j: int| 0 <= j < i ==> a@[j] == b@[j],
        decreases a@.len() - i,
    {
        if a[i] != b[i] {
            return false;
        }
        i = i + 1;
    }
    proof {
        assert(a@ =~= b@);
    }
    true
}

/// A filter that handles exactly the messages whose member name equals a
/// fixed name.
pub struct MatchFilter {
    pub member: Vec<u8>,
}

impl MessageFilter for MatchFilter {
    open spec fn handles(&self, m: MsgV) -> bool {
        m.member == Some(self.member@)
    }

    fn handle_message(&self, m: &DBusMessage) -> (r: DBusHandlerResult) {
        match &m.member {
            Some(name) => {
                if bytes_eq(name, &self.member) {
                    DBusHandlerResult::Handled
                } else {
                    DBusHandlerResult::NotYetHandled
                }
            },
            None => DBusHandlerResult::NotYetHandled,
        }
    }
}

/// An outstanding method call awaiting its correlated reply: the call's
/// serial, an absolute deadline in milliseconds (none for no deadline), and
/// the reply slot, filled at most once.
pub struct DBusPendingCall {
    pub serial: u32,
    pub deadline: Option<u64>,
    pub reply: Option<DBusMessage>,
}

impl DBusPendingCall {
    /// A fresh pending call for `serial`, with an absolute deadline computed
    /// from a relative timeout at creation time; the deadline saturates
    /// rather than wrapping.
    pub fn new(serial: u32, timeout_ms: Option<u64>, now: u64) -> (r: DBusPendingCall)
        ensures
            r.serial == serial,
            r.reply is None,
            timeout_ms is None ==> r.deadline is None,
            timeout_ms is Some ==> r.deadline == Some(
                if now + timeout_ms->0 <= u64::MAX {
                    (now + timeout_ms->0) as u64
                } else {
                    u64::MAX
                },
            ),
    {
        let deadline = match timeout_ms {
            Some(t) => Some(
                if t <= u64::MAX - now {
                    now + t
                } else {
                    u64::MAX
                },
            ),
            None => None,
        };
        DBusPendingCall { serial, deadline, reply: None }
    }

    /// Whether the wall clock has passed the deadline.
    pub fn timed_out(&self, now: u64) -> (r: bool)
        ensures
            r == (match self.deadline {
                Some(d) => now > d,
                None => false,
            }),
    {
        match &self.deadline {
            Some(d) => now > *d,
            None => false,
        }
    }
}

/// What polling a pending call reports.
pub enum PollResult {
    Ready(DBusMessage),
    TimedOut,
    Waiting,
    Unknown,
}

/// The connection engine: the serial counter, the outbound and inbound
/// message queues, the pending-call table, the filter chain, and the buffer
/// of received bytes. The transport itself lives outside: a driver feeds
/// received bytes in and writes popped outbound frames to the wire.
pub struct DBusConnection<F: MessageFilter> {
    pub state: ConState,
    pub serial_counter: u32,
    pub out_queue: Vec<DBusMessage>,
    pub in_queue: Vec<DBusMessage>,
    pub pending: Vec<DBusPendingCall>,
    pub filters: Vec<F>,
    pub recv_buf: Vec<u8>,
    pub issued: Ghost<Seq<u32>>,
}

impl<F: MessageFilter> DBusConnection<F> {
    /// The connection invariant: serials issued so far are strictly
    /// increasing and below the counter, pending calls carry pairwise
    /// distinct issued serials, and every queued outbound message is well
    /// formed and locked.
    pub open spec fn wf_conn(&self) -> bool {
        &&& self.serial_counter >= 1
        &&& (forall|i: int, j: int|
            0 <= i < j < self.issued@.len() ==> self.issued@[i] < self.issued@[j])
        &&& (forall|i: int|
            0 <= i < self.issued@.len() ==> 1 <= #[trigger] self.issued@[i]
                < self.serial_counter)
        &&& (forall|i: int|
            0 <= i < self.pending@.len() ==> 1 <= (#[trigger] self.pending@[i]).serial
                < self.serial_counter)
        &&& (forall|i: int, j: int|
            0 <= i < j < self.pending@.len() ==> (#[trigger] self.pending@[i]).serial != (
            #[trigger] self.pending@[j]).serial)
        &&& (forall|i: int|
            0 <= i < self.out_queue@.len() ==> wf_msg((#[trigger] self.out_queue@[i])@)
                && self.out_queue@[i].locked)
    }

    /// A fresh, ready connection.
    pub fn new() -> (r: DBusConnection<F>)
        ensures
            r.wf_conn(),
            r.state == ConState::Ready,
            r.serial_counter == 1u32,
            r.out_queue@.len() == 0,
            r.in_queue@.len() == 0,
            r.pending@.len() == 0,
            r.filters@.len() == 0,
            r.recv_buf@.len() == 0,
            r.issued@.len() == 0,
    {
        DBusConnection {
            state: ConState::Ready,
            serial_counter: 1,
            out_queue: Vec::new(),
            in_queue: Vec::new(),
            pending: Vec::new(),
            filters: Vec::new(),
            recv_buf: Vec::new(),
            issued: Ghost(Seq::empty()),
        }
    }

    /// Registers a filter at the end of the chain.
    pub fn add_filter(&mut self, f: F)
        ensures
            final(self).filters@ == old(self).filters@.push(f),
            final(self).wf_conn() == old(self).wf_conn(),
            *final(self) == (DBusConnection { filters: final(self).filters, ..*old(self) }),
    {
        self.filters.push(f);
        proof {
            assert(final(self).issued == old(self).issued);
            assert(final(self).pending == old(self).pending);
            assert(final(self).out_queue == old(self).out_queue);
            assert(final(self).serial_counter == old(self).serial_counter);
        }
    }

    /// Allocates the next serial, stamps and locks the message, and places
    /// it at the back of the outbound queue. Never blocks. Fails fast on a
    /// disconnected connection and when the serial space is spent.
    pub fn send(&mut self, msg: DBusMessage) -> (r: Result<u32, ConnError>)
        requires
            old(self).wf_conn(),
            wf_msg(msg@),
            !msg.locked,
            msg@.serial is None,
        ensures
            final(self).wf_conn(),
            old(self).state == ConState::Disconnected ==> r == Err::<u32, ConnError>(
                ConnError::Disconnected,
            ) && *final(self) == *old(self),
            old(self).state != ConState::Disconnected && old(self).serial_counter == u32::MAX
                ==> r == Err::<u32, ConnError>(ConnError::SerialSpaceExhausted) && *final(self)
                == *old(self),
            r is Ok <==> old(self).state != ConState::Disconnected && old(self).serial_counter
                != u32::MAX,
            r is Ok ==> ({
                &&& r->Ok_0 == old(self).serial_counter
                &&& final(self).serial_counter == old(self).serial_counter + 1
                &&& final(self).out_queue@.len() == old(self).out_queue@.len() + 1
                &&& (forall|i: int|
                    0 <= i < old(self).out_queue@.len() ==> final(self).out_queue@[i] == old(self).out_queue@[i])
                &&& final(self).out_queue@.last()@ == (MsgV { serial: Some(r->Ok_0), ..msg@ })
                &&& final(self).out_queue@.last().locked
                &&& final(self).issued@ == old(self).issued@.push(r->Ok_0)
                &&& final(self).in_queue == old(self).in_queue
                &&& final(self).pending == old(self).pending
                &&& final(self).filters == old(self).filters
                &&& final(self).state == old(self).state
                &&& final(self).recv_buf == old(self).recv_buf
            }),
    {
        match self.state {
            ConState::Disconnected => {
                return Err(ConnError::Disconnected);
            },
            _ => {},
        }
        if self.serial_counter == u32::MAX {
            return Err(ConnError::SerialSpaceExhausted);
        }
        let serial = self.serial_counter;
        self.serial_counter = self.serial_counter + 1;
        let mut msg = msg;
        msg.serial = Some(serial);
        msg.lock();
        self.out_queue.push(msg);
        proof {
            self.issued@ = self.issued@.push(serial);
        }
        Ok(serial)
    }

    /// Sends the message and registers a pending call for its serial with
    /// the given relative timeout, measured from `now`.
    pub fn send_with_reply(&mut self, msg: DBusMessage, timeout_ms: Option<u64>, now: u64) -> (r:
        Result<u32, ConnError>)
        requires
            old(self).wf_conn(),
            wf_msg(msg@),
            !msg.locked,
            msg@.serial is None,
        ensures
            final(self).wf_conn(),
            r is Err ==> *final(self) == *old(self),
            r is Ok <==> old(self).state != ConState::Disconnected && old(self).serial_counter
                != u32::MAX,
            r is Ok ==> ({
                &&& r->Ok_0 == old(self).serial_counter
                &&& final(self).serial_counter == old(self).serial_counter + 1
                &&& final(self).out_queue@.len() == old(self).out_queue@.len() + 1
                &&& final(self).out_queue@.last()@ == (MsgV { serial: Some(r->Ok_0), ..msg@ })
                &&& final(self).pending@.len() == old(self).pending@.len() + 1
                &&& (forall|i: int|
                    0 <= i < old(self).pending@.len() ==> final(self).pending@[i] == old(self).pending@[i])
                &&& final(self).pending@.last().serial == r->Ok_0
                &&& final(self).pending@.last().reply is None
                &&& final(self).issued@ == old(self).issued@.push(r->Ok_0)
                &&& final(self).in_queue == old(self).in_queue
                &&& final(self).filters == old(self).filters
                &&& final(self).state == old(self).state
            }),
    {
        let serial = match self.send(msg) {
            Ok(s) => s,
            Err(e) => {
                return Err(e);
            },
        };
        let pc = DBusPendingCall::new(serial, timeout_ms, now);
        self.pending.push(pc);
        Ok(serial)
    }

    /// Pops the oldest queued outbound message and marshals it, preserving
    /// the first-in-first-out send order.
    pub fn take_outbound_frame(&mut self) -> (r: Result<Option<Vec<u8>>, MarshalError>)
        requires
            old(self).wf_conn(),
        ensures
            final(self).wf_conn(),
            old(self).out_queue@.len() == 0 ==> r == Ok::<Option<Vec<u8>>, MarshalError>(None)
                && *final(self) == *old(self),
            old(self).out_queue@.len() > 0 ==> final(self).out_queue@ == old(self).out_queue@.drop_first() && final(self).in_queue == old(self).in_queue && final(self).pending == old(self).pending && final(self).state == old(self).state && final(self).issued == old(self).issued && final(self).serial_counter == old(self).serial_counter,
            r is Ok && old(self).out_queue@.len() > 0 ==> r->Ok_0 is Some && r->Ok_0->0@ == sm_msg(
                old(self).out_queue@.first()@,
            ),
            r is Err ==> !crate::framing::frame_fits(old(self).out_queue@.first()@),
    {
        if self.out_queue.len() == 0 {
            return Ok(None);
        }
        let msg = self.out_queue.remove(0);
        proof {
            assert(old(self).out_queue@.drop_first() =~= old(self).out_queue@.remove(0));
        }
        match marshal(&msg) {
            Ok(bytes) => Ok(Some(bytes)),
            Err(e) => Err(e),
        }
    }

    /// Appends bytes received from the transport to the inbound buffer.
    pub fn feed_inbound(&mut self, bytes: &[u8])
        requires
            old(self).wf_conn(),
        ensures
            final(self).wf_conn(),
            final(self).recv_buf@ == old(self).recv_buf@ + bytes@,
            *final(self) == (DBusConnection { recv_buf: final(self).recv_buf, ..*old(self) }),
    {
        push_bytes(&mut self.recv_buf, bytes);
    }

    /// Records a transport failure: the connection is terminal and every
    /// further operation fails fast.
    pub fn mark_disconnected(&mut self)
        ensures
            final(self).state == ConState::Disconnected,
            *final(self) == (DBusConnection { state: ConState::Disconnected, ..*old(self) }),
            final(self).wf_conn() == old(self).wf_conn(),
    {
        self.state = ConState::Disconnected;
        proof {
            assert(final(self).issued == old(self).issued);
            assert(final(self).pending == old(self).pending);
            assert(final(self).out_queue == old(self).out_queue);
            assert(final(self).serial_counter == old(self).serial_counter);
        }
    }

    /// Routes one decoded message: a method return carrying a reply serial
    /// fills the matching pending call's reply slot exactly once and is
    /// dropped if no unfilled match exists; every other message runs the
    /// filter chain in registration order, stopping at the first handler,
    /// and reaches the inbound queue only when every filter declines. A
    /// filter reporting resource exhaustion is fatal.
    #[verifier::loop_isolation(false)]
    pub fn dispatch_message(&mut self, msg: DBusMessage) -> (r: Result<(), ConnError>)
        requires
            old(self).wf_conn(),
        ensures
            final(self).wf_conn(),
            final(self).out_queue == old(self).out_queue,
            final(self).filters == old(self).filters,
            final(self).state == old(self).state,
            final(self).serial_counter == old(self).serial_counter,
            final(self).issued == old(self).issued,
            final(self).recv_buf == old(self).recv_buf,
            is_reply(msg@) ==> r is Ok && final(self).in_queue == old(self).in_queue && ({
                let s = msg@.reply_serial->0;
                if exists|j: int| 0 <= j < old(self).pending@.len() && unfilled_match(
                    #[trigger] old(self).pending@[j],
                    s,
                ) {
                    let j = first_match(old(self).pending@, s);
                    &&& 0 <= j < old(self).pending@.len()
                    &&& unfilled_match(old(self).pending@[j], s)
                    &&& final(self).pending@ == old(self).pending@.update(
                        j,
                        DBusPendingCall {
                            reply: Some(msg),
                            ..old(self).pending@[j as int]
                        },
                    )
                } else {
                    final(self).pending == old(self).pending
                }
            }),
            !is_reply(msg@) ==> final(self).pending == old(self).pending && ({
                if exists|i: int|
                    0 <= i < old(self).filters@.len() && (#[trigger] old(self).filters@[i]).handles(msg@) {
                    r is Ok ==> final(self).in_queue == old(self).in_queue
                } else {
                    r is Ok ==> final(self).in_queue@ == old(self).in_queue@.push(msg)
                }
            }),
            r is Err ==> r == Err::<(), ConnError>(ConnError::Fatal) && final(self).in_queue
                == old(self).in_queue && final(self).pending == old(self).pending,
    {
        let is_rep = match (&msg.kind, &msg.reply_serial) {
            (MessageKind::MethodReturn, Some(_)) => true,
            _ => false,
        };
        if is_rep {
            let s = match &msg.reply_serial {
                Some(x) => *x,
                None => 0,
            };
            let mut j: usize = 0;
            while j < self.pending.len()
                invariant
                    j <= self.pending@.len(),
                    forall|k: int| 0 <= k < j ==> !unfilled_match(#[trigger] self.pending@[k], s),
                    *self == *old(self),
                decreases self.pending@.len() - j,
            {
                let hit = self.pending[j].serial == s && self.pending[j].reply.is_none();
                if hit {
                    proof {
                        lemma_first_match(self.pending@, s, j as int);
                    }
                    let pj = &mut self.pending[j];
                    pj.reply = Some(msg);
                    proof {
                        assert(self.pending@ =~= old(self).pending@.update(
                            j as int,
                            DBusPendingCall { reply: self.pending@[j as int].reply, ..old(self).pending@[j as int] },
                        ));
                    }
                    return Ok(());
                }
                j = j + 1;
            }
            return Ok(());
        }
        let mut i: usize = 0;
        while i < self.filters.len()
            invariant
                i <= self.filters@.len(),
                forall|k: int| 0 <= k < i ==> !(#[trigger] self.filters@[k]).handles(msg@),
                *self == *old(self),
            decreases self.filters@.len() - i,
        {
            match self.filters[i].handle_message(&msg) {
                DBusHandlerResult::Handled => {
                    return Ok(());
                },
                DBusHandlerResult::NeedMemory => {
                    return Err(ConnError::Fatal);
                },
                DBusHandlerResult::NotYetHandled => {},
            }
            i = i + 1;
        }
        self.in_queue.push(msg);
        Ok(())
    }

    /// Decodes at most one complete frame from the inbound buffer and routes
    /// it: a correlated reply fills its pending call, any other message runs
    /// the filter chain and, if every filter declines, joins the inbound
    /// queue. A frame with a malformed header discards the buffer; a frame
    /// malformed past its header is discarded alone. Reports whether another
    /// complete frame is already buffered.
    #[verifier::loop_isolation(false)]
    #[verifier::rlimit(60)]
    pub fn dispatch(&mut self) -> (r: Result<DBusDispatchStatus, ConnError>)
        requires
            old(self).wf_conn(),
        ensures
            final(self).wf_conn(),
            final(self).out_queue == old(self).out_queue,
            final(self).filters == old(self).filters,
            final(self).state == old(self).state,
            final(self).serial_counter == old(self).serial_counter,
            final(self).issued == old(self).issued,
            r is Ok ==> ((r->Ok_0 == DBusDispatchStatus::DataRemaining) <==> has_full_frame(
                final(self).recv_buf@,
            )),
            pm_msg(old(self).recv_buf@) == Err::<(MsgV, int), CodecError>(CodecError::Incomplete)
                ==> r is Ok && *final(self) == *old(self),
            bn_msg(old(self).recv_buf@) == Err::<int, CodecError>(CodecError::Malformed) ==> r
                is Ok && final(self).recv_buf@ == Seq::<u8>::empty() && final(self).in_queue == old(self).in_queue && final(self).pending == old(self).pending,
            (bn_msg(old(self).recv_buf@) is Ok && old(self).recv_buf@.len() >= bn_msg(
                old(self).recv_buf@,
            )->Ok_0 && pm_msg(old(self).recv_buf@) is Err) ==> r is Ok && final(self).recv_buf@
                == old(self).recv_buf@.skip(bn_msg(old(self).recv_buf@)->Ok_0) && final(self).in_queue == old(self).in_queue && final(self).pending == old(self).pending,
            pm_msg(old(self).recv_buf@) is Ok ==> ({
                let mv = pm_msg(old(self).recv_buf@)->Ok_0.0;
                let total = pm_msg(old(self).recv_buf@)->Ok_0.1;
                &&& final(self).recv_buf@ == old(self).recv_buf@.skip(total)
                &&& (r is Err ==> r == Err::<DBusDispatchStatus, ConnError>(ConnError::Fatal)
                    && final(self).in_queue == old(self).in_queue && final(self).pending == old(self).pending)
                &&& (is_reply(mv) ==> r is Ok && final(self).in_queue == old(self).in_queue && ({
                    let s = mv.reply_serial->0;
                    if exists|j: int|
                        0 <= j < old(self).pending@.len() && unfilled_match(
                            #[trigger] old(self).pending@[j],
                            s,
                        ) {
                        let j = first_match(old(self).pending@, s);
                        &&& final(self).pending@.len() == old(self).pending@.len()
                        &&& (forall|k: int|
                            0 <= k < old(self).pending@.len() && k != j ==> final(self).pending@[k] == old(self).pending@[k])
                        &&& final(self).pending@[j].serial == old(self).pending@[j].serial
                        &&& final(self).pending@[j].deadline == old(self).pending@[j].deadline
                        &&& final(self).pending@[j].reply is Some
                        &&& final(self).pending@[j].reply->0@ == mv
                    } else {
                        final(self).pending == old(self).pending
                    }
                }))
                &&& (!is_reply(mv) ==> final(self).pending == old(self).pending && (if exists|
                    i: int,
                |
                    0 <= i < old(self).filters@.len() && (#[trigger] old(self).filters@[i]).handles(mv) {
                    r is Ok ==> final(self).in_queue == old(self).in_queue
                } else {
                    r is Ok ==> final(self).in_queue@.len() == old(self).in_queue@.len() + 1 && (
                    forall|k: int|
                        0 <= k < old(self).in_queue@.len() ==> final(self).in_queue@[k] == old(self).in_queue@[k]) && final(self).in_queue@.last()@ == mv
                }))
            }),
    {
        let need = crate::framing::bytes_needed(self.recv_buf.as_slice());
        let total = match need {
            Err(CodecError::Incomplete) => {
                return Ok(DBusDispatchStatus::Complete);
            },
            Err(CodecError::Malformed) => {
                self.recv_buf = Vec::new();
                proof {
                    assert(self.recv_buf@ =~= Seq::<u8>::empty());
                }
                return Ok(DBusDispatchStatus::Complete);
            },
            Ok(t) => t,
        };
        if self.recv_buf.len() < total {
            return Ok(DBusDispatchStatus::Complete);
        }
        let res = unmarshal_message(self.recv_buf.as_slice());
        let tail = self.recv_buf.split_off(total);
        self.recv_buf = tail;
        match res {
            Err(_) => {
                let st = self.buffered_status();
                Ok(st)
            },
            Ok((m, _n)) => {
                match self.dispatch_message(m) {
                    Ok(_) => {
                        let st = self.buffered_status();
                        Ok(st)
                    },
                    Err(e) => Err(e),
                }
            },
        }
    }

    /// Whether a further complete frame is already buffered.
    fn buffered_status(&self) -> (r: DBusDispatchStatus)
        ensures
            (r == DBusDispatchStatus::DataRemaining) <==> has_full_frame(self.recv_buf@),
            r == DBusDispatchStatus::DataRemaining || r == DBusDispatchStatus::Complete,
    {
        match crate::framing::bytes_needed(self.recv_buf.as_slice()) {
            Ok(t2) => {
                if self.recv_buf.len() >= t2 {
                    DBusDispatchStatus::DataRemaining
                } else {
                    DBusDispatchStatus::Complete
                }
            },
            Err(_) => DBusDispatchStatus::Complete,
        }
    }

    /// Takes the oldest dispatched-but-unconsumed inbound message.
    pub fn pop_inbound(&mut self) -> (r: Option<DBusMessage>)
        requires
            old(self).wf_conn(),
        ensures
            final(self).wf_conn(),
            old(self).in_queue@.len() == 0 ==> r is None && *final(self) == *old(self),
            old(self).in_queue@.len() > 0 ==> r == Some(old(self).in_queue@.first()) && final(self).in_queue@ == old(self).in_queue@.drop_first() && *final(self) == (DBusConnection {
                in_queue: final(self).in_queue,
                ..*old(self)
            }),
    {
        if self.in_queue.len() == 0 {
            return None;
        }
        let m = self.in_queue.remove(0);
        proof {
            assert(old(self).in_queue@.drop_first() =~= old(self).in_queue@.remove(0));
        }
        Some(m)
    }

    /// Polls the pending call registered for `serial`: a filled reply is
    /// handed out and the call retired; an expired deadline retires the call
    /// with a timeout, after which no reply can ever be reported for it.
    #[verifier::loop_isolation(false)]
    pub fn poll_reply(&mut self, serial: u32, now: u64) -> (r: PollResult)
        requires
            old(self).wf_conn(),
        ensures
            final(self).wf_conn(),
            final(self).out_queue == old(self).out_queue,
            final(self).in_queue == old(self).in_queue,
            final(self).state == old(self).state,
            final(self).issued == old(self).issued,
            final(self).serial_counter == old(self).serial_counter,
            final(self).filters == old(self).filters,
            !(exists|j: int|
                0 <= j < old(self).pending@.len() && (#[trigger] old(self).pending@[j]).serial
                    == serial) ==> r is Unknown && final(self).pending == old(self).pending,
            (exists|j: int|
                0 <= j < old(self).pending@.len() && (#[trigger] old(self).pending@[j]).serial
                    == serial) ==> ({
                let j = first_serial(old(self).pending@, serial);
                let pc = old(self).pending@[j];
                &&& 0 <= j < old(self).pending@.len()
                &&& pc.serial == serial
                &&& (match pc.reply {
                    Some(m) => r == PollResult::Ready(m) && final(self).pending@ == old(self).pending@.remove(j),
                    None => if (match pc.deadline {
                        Some(d) => now > d,
                        None => false,
                    }) {
                        r is TimedOut && final(self).pending@ == old(self).pending@.remove(j)
                    } else {
                        r is Waiting && final(self).pending == old(self).pending
                    },
                })
            }),
    {
        let mut j: usize = 0;
        while j < self.pending.len()
            invariant
                j <= self.pending@.len(),
                forall|k: int| 0 <= k < j ==> (#[trigger] self.pending@[k]).serial != serial,
                *self == *old(self),
            decreases self.pending@.len() - j,
        {
            if self.pending[j].serial == serial {
                proof {
                    lemma_first_serial(self.pending@, serial, j as int);
                }
                let filled = self.pending[j].reply.is_some();
                if filled {
                    proof {
                        lemma_pending_remove(self.pending@, self.serial_counter, j as int);
                    }
                    let pc = self.pending.remove(j);
                    match pc.reply {
                        Some(m) => {
                            return PollResult::Ready(m);
                        },
                        None => {
                            return PollResult::Unknown;
                        },
                    }
                }
                let expired = self.pending[j].timed_out(now);
                if expired {
                    proof {
                        lemma_pending_remove(self.pending@, self.serial_counter, j as int);
                    }
                    let _pc = self.pending.remove(j);
                    return PollResult::TimedOut;
                }
                return PollResult::Waiting;
            }
            j = j + 1;
        }
        PollResult::Unknown
    }
}

/// Removing a pending call preserves the pending-table invariants.
proof fn lemma_pending_remove(ps: Seq<DBusPendingCall>, counter: u32, j: int)
    requires
        0 <= j < ps.len(),
        forall|i: int| 0 <= i < ps.len() ==> 1 <= (#[trigger] ps[i]).serial < counter,
        forall|a: int, b: int|
            0 <= a < b < ps.len() ==> (#[trigger] ps[a]).serial != (#[trigger] ps[b]).serial,
    ensures
        forall|i: int|
            0 <= i < ps.remove(j).len() ==> 1 <= (#[trigger] ps.remove(j)[i]).serial < counter,
        forall|a: int, b: int|
            0 <= a < b < ps.remove(j).len() ==> (#[trigger] ps.remove(j)[a]).serial != (
            #[trigger] ps.remove(j)[b]).serial,
{
    let q = ps.remove(j);
    assert forall|i: int| 0 <= i < q.len() implies 1 <= (#[trigger] q[i]).serial < counter by {
        if i < j {
            assert(q[i] == ps[i]);
        } else {
            assert(q[i] == ps[i + 1]);
        }
    }
    assert forall|a: int, b: int| 0 <= a < b < q.len() implies (#[trigger] q[a]).serial != (
    #[trigger] q[b]).serial by {
        let a2: int = if a < j {
            a
        } else {
            a + 1
        };
        let b2: int = if b < j {
            b
        } else {
            b + 1
        };
        assert(q[a] == ps[a2] && q[b] == ps[b2]);
        assert(ps[a2].serial != ps[b2].serial);
    }
}

/// Whether the front of a received-byte buffer holds one complete frame.
pub open spec fn has_full_frame(s: Seq<u8>) -> bool {
    bn_msg(s) is Ok && bn_msg(s)->Ok_0 <= s.len()
}

/// Whether a message is a correlatable reply: a method return carrying a
/// reply serial.
pub open spec fn is_reply(m: MsgV) -> bool {
    m.kind == MessageKind::MethodReturn && m.reply_serial is Some
}

/// Whether a pending call is the unfilled registration for serial `s`.
pub open spec fn unfilled_match(pc: DBusPendingCall, s: u32) -> bool {
    pc.serial == s && pc.reply is None
}

/// The least index of an unfilled pending call registered for `s`.
pub open spec fn first_match(ps: Seq<DBusPendingCall>, s: u32) -> int {
    choose|j: int|
        0 <= j < ps.len() && unfilled_match(ps[j], s) && (forall|k: int|
            0 <= k < j ==> !unfilled_match(#[trigger] ps[k], s))
}

proof fn lemma_first_match(ps: Seq<DBusPendingCall>, s: u32, j: int)
    requires
        0 <= j < ps.len(),
        unfilled_match(ps[j], s),
        forall|k: int| 0 <= k < j ==> !unfilled_match(#[trigger] ps[k], s),
    ensures
        first_match(ps, s) == j,
{
    let w = first_match(ps, s);
    assert(0 <= w < ps.len() && unfilled_match(ps[w], s) && (forall|k: int|
        0 <= k < w ==> !unfilled_match(#[trigger] ps[k], s)));
    if w < j {
        assert(!unfilled_match(ps[w], s));
    }
    if j < w {
        assert(!unfilled_match(ps[j], s));
    }
}

/// The least index of a pending call registered for `serial`.
pub open spec fn first_serial(ps: Seq<DBusPendingCall>, serial: u32) -> int {
    choose|j: int|
        0 <= j < ps.len() && (#[trigger] ps[j]).serial == serial && (forall|k: int|
            0 <= k < j ==> (#[trigger] ps[k]).serial != serial)
}

proof fn lemma_first_serial(ps: Seq<DBusPendingCall>, serial: u32, j: int)
    requires
        0 <= j < ps.len(),
        ps[j].serial == serial,
        forall|k: int| 0 <= k < j ==> (#[trigger] ps[k]).serial != serial,
    ensures
        first_serial(ps, serial) == j,
{
    let w = first_serial(ps, serial);
    assert(0 <= w < ps.len() && ps[w].serial == serial && (forall|k: int|
        0 <= k < w ==> (#[trigger] ps[k]).serial != serial));
    if w < j {
        assert(ps[w].serial != serial);
    }
    if j < w {
        assert(ps[j].serial != serial);
    }
}

/// The remaining share of a relative timeout after time has passed: the
/// whole timeout budget minus the time elapsed since `start`, or an error
/// once the budget is spent. No timeout means no budget to spend.
pub fn calc_remaining_time(start: u64, now: u64, timeout: Option<u64>) -> (r: Result<
    Option<u64>,
    (),
>)
    requires
        start <= now,
    ensures
        timeout is None ==> r == Ok::<Option<u64>, ()>(None),
        timeout is Some ==> ({
            let d = timeout->0;
            if now - start >= d {
                r == Err::<Option<u64>, ()>(())
            } else {
                r == Ok::<Option<u64>, ()>(Some((d - (now - start)) as u64))
            }
        }),
{
    match timeout {
        None => Ok(None),
        Some(d) => {
            let elapsed = now - start;
            if elapsed >= d {
                Err(())
            } else {
                Ok(Some(d - elapsed))
            }
        },
    }
}

/// Every serial a connection has issued is distinct from every other, and
/// they increase strictly in the order of the `send` calls that returned
/// them.
pub proof fn lemma_serial_uniqueness<F: MessageFilter>(c: DBusConnection<F>)
    requires
        c.wf_conn(),
    ensures
        forall|i: int, j: int| 0 <= i < j < c.issued@.len() ==> c.issued@[i] < c.issued@[j],
        forall|i: int, j: int|
            0 <= i < c.issued@.len() && 0 <= j < c.issued@.len() && i != j ==> c.issued@[i]
                != c.issued@[j],
{
    assert forall|i: int, j: int|
        0 <= i < c.issued@.len() && 0 <= j < c.issued@.len() && i != j implies c.issued@[i]
        != c.issued@[j] by {
        if i < j {
            assert(c.issued@[i] < c.issued@[j]);
        } else {
            assert(c.issued@[j] < c.issued@[i]);
        }
    }
}

} // verus!
