//! The outbound dispatcher: the one place that decides which connections a
//! message is written to, and with which bytes.
//!
//! The dispatcher keeps the table of connections whose socket is open. A
//! message addressed to a connection that is not in the table is dropped.

use vstd::prelude::*;
use crate::codec::{encoding, Codec};
use crate::message::{Message, MessageView};
use crate::wire::copy_range;

verus! {

/// To whom a message goes.
#[derive(Clone, Copy, Debug, PartialEq, Eq, Structural)]
pub enum Target {
    /// One connection.
    One(u64),
    /// Every open connection.
    All,
    /// Every open connection but one.
    AllExcept(u64),
}

impl Target {
    /// Whether the target means the connection `conn`.
    pub open spec fn admits(self, conn: u64) -> bool {
        match self {
            Target::One(c) => conn == c,
            Target::All => true,
            Target::AllExcept(c) => conn != c,
        }
    }

    /// Whether the target means the connection `conn`.
    pub fn includes(&self, conn: u64) -> (yes: bool)
        ensures
            yes == self.admits(conn),
    {
        match self {
            Target::One(c) => conn == *c,
            Target::All => true,
            Target::AllExcept(c) => conn != *c,
        }
    }
}

/// A message on its way out, with its target.
#[derive(Clone, Debug, PartialEq, Eq)]
pub struct Outbound {
    pub message: Message,
    pub target: Target,
}

pub struct OutboundView {
    pub message: MessageView,
    pub target: Target,
}

impl View for Outbound {
    type V = OutboundView;

    open spec fn view(&self) -> OutboundView {
        OutboundView { message: self.message@, target: self.target }
    }
}

/// The views of a sequence of outbound messages.
pub open spec fn outbound_views(s: Seq<Outbound>) -> Seq<OutboundView> {
    Seq::new(s.len(), |i: int| s[i]@)
}

/// Bytes to write to the socket of one connection.
#[derive(Clone, Debug, PartialEq, Eq)]
pub struct Delivery {
    pub conn: u64,
    pub bytes: Vec<u8>,
}

pub struct DeliveryView {
    pub conn: u64,
    pub bytes: Seq<u8>,
}

impl View for Delivery {
    type V = DeliveryView;

    open spec fn view(&self) -> DeliveryView {
        DeliveryView { conn: self.conn, bytes: self.bytes@ }
    }
}

/// The open connections that the target means, in the order of the table.
pub open spec fn selected(open: Seq<u64>, target: Target) -> Seq<u64>
    decreases open.len(),
{
    if open.len() == 0 {
        open
    } else if target.admits(open.last()) {
        selected(open.drop_last(), target).push(open.last())
    } else {
        selected(open.drop_last(), target)
    }
}

/// The writes that sending `m` to `target` causes: the frame of `m` to each
/// connection selected, and nothing where no frame can carry `m`.
pub open spec fn deliveries(open: Seq<u64>, m: MessageView, target: Target, max: u16) -> Seq<
    DeliveryView,
> {
    if m.payload().len() <= max {
        Seq::new(
            selected(open, target).len(),
            |i: int| DeliveryView { conn: selected(open, target)[i], bytes: encoding(m) },
        )
    } else {
        Seq::empty()
    }
}

/// A connection is selected exactly when it is open and the target means it.
pub proof fn lemma_selected_members(open: Seq<u64>, target: Target, conn: u64)
    ensures
        selected(open, target).contains(conn) <==> open.contains(conn) && target.admits(conn),
    decreases open.len(),
{
    let sel = selected(open, target);
    if open.len() > 0 {
        let init = open.drop_last();
        let last = open.last();
        lemma_selected_members(init, target, conn);
        let sel_init = selected(init, target);
        if open.contains(conn) && target.admits(conn) {
            let i = choose|i: int| 0 <= i < open.len() && open[i] == conn;
            if i == open.len() - 1 {
                assert(sel[sel.len() - 1] == conn);
            } else {
                assert(init[i] == conn);
                assert(sel_init.contains(conn));
                let j = choose|j: int| 0 <= j < sel_init.len() && sel_init[j] == conn;
                assert(sel[j] == conn);
            }
        }
        if sel.contains(conn) {
            let j = choose|j: int| 0 <= j < sel.len() && sel[j] == conn;
            if j < sel_init.len() {
                assert(sel_init[j] == conn);
                assert(sel_init.contains(conn));
                let i = choose|i: int| 0 <= i < init.len() && init[i] == conn;
                assert(open[i] == conn);
            } else {
                assert(open[open.len() - 1] == conn);
            }
        }
    }
}

/// Where no connection stands twice in the table, none is selected twice.
pub proof fn lemma_selected_once(open: Seq<u64>, target: Target)
    requires
        open.no_duplicates(),
    ensures
        selected(open, target).no_duplicates(),
    decreases open.len(),
{
    if open.len() > 0 {
        let init = open.drop_last();
        let last = open.last();
        lemma_selected_once(init, target);
        lemma_selected_members(init, target, last);
        if init.contains(last) {
            let i = choose|i: int| 0 <= i < init.len() && init[i] == last;
            assert(open[i] == open[open.len() - 1]);
        }
    }
}

/// The outbound dispatcher.
pub struct Dispatcher {
    codec: Codec,
    open: Vec<u64>,
}

impl View for Dispatcher {
    type V = Seq<u64>;

    /// The table of open connections.
    closed spec fn view(&self) -> Seq<u64> {
        self.open@
    }
}

impl Dispatcher {
    /// The longest byte string a frame of this dispatcher carries.
    pub closed spec fn max_payload(&self) -> u16 {
        self.codec.max_payload
    }

    /// The invariant of the dispatcher: no connection stands twice in the
    /// table.
    pub open spec fn wf(&self) -> bool {
        self@.no_duplicates()
    }

    /// A dispatcher without open connections.
    pub fn new(codec: Codec) -> (d: Dispatcher)
        ensures
            d@ == Seq::<u64>::empty(),
            d.max_payload() == codec.max_payload,
            d.wf(),
    {
        Dispatcher { codec, open: Vec::new() }
    }

    /// Whether the connection is in the table.
    pub fn is_open(&self, conn: u64) -> (yes: bool)
        ensures
            yes == self@.contains(conn),
    {
        let mut i: usize = 0;
        while i < self.open.len()
            invariant
                i <= self.open@.len(),
                forall|k: int| 0 <= k < i ==> self.open@[k] != conn,
            decreases self.open@.len() - i,
        {
            if self.open[i] == conn {
                return true;
            }
            i += 1;
        }
        false
    }

    /// Enters a connection whose socket was opened. Returns whether it was
    /// new; one that is in the table already is not entered twice.
    pub fn attach(&mut self, conn: u64) -> (added: bool)
        requires
            old(self).wf(),
        ensures
            final(self).wf(),
            final(self).max_payload() == old(self).max_payload(),
            added == !old(self)@.contains(conn),
            final(self)@ == if added {
                old(self)@.push(conn)
            } else {
                old(self)@
            },
    {
        if self.is_open(conn) {
            false
        } else {
            self.open.push(conn);
            true
        }
    }

    /// Strikes a connection whose socket was closed. Returns whether it was
    /// in the table.
    pub fn detach(&mut self, conn: u64) -> (removed: bool)
        requires
            old(self).wf(),
        ensures
            final(self).wf(),
            final(self).max_payload() == old(self).max_payload(),
            removed == old(self)@.contains(conn),
            final(self)@ == selected(old(self)@, Target::AllExcept(conn)),
            !final(self)@.contains(conn),
    {
        let mut kept: Vec<u64> = Vec::new();
        let mut removed = false;
        let mut i: usize = 0;
        while i < self.open.len()
            invariant
                i <= self.open@.len(),
                kept@ == selected(self.open@.take(i as int), Target::AllExcept(conn)),
                removed == self.open@.take(i as int).contains(conn),
            decreases self.open@.len() - i,
        {
            let c = self.open[i];
            proof {
                let now = self.open@.take(i + 1);
                assert(now.drop_last() =~= self.open@.take(i as int));
                assert(now.last() == c);
                if self.open@.take(i as int).contains(conn) {
                    let k = choose|k: int| 0 <= k < i && self.open@.take(i as int)[k] == conn;
                    assert(now[k] == conn);
                }
                if c == conn {
                    assert(now[i as int] == conn);
                }
                if now.contains(conn) && c != conn {
                    let k = choose|k: int| 0 <= k < now.len() && now[k] == conn;
                    assert(self.open@.take(i as int)[k] == conn);
                }
            }
            if c == conn {
                removed = true;
            } else {
                kept.push(c);
            }
            i += 1;
        }
        proof {
            assert(self.open@.take(i as int) =~= self.open@);
            lemma_selected_once(self.open@, Target::AllExcept(conn));
            lemma_selected_members(self.open@, Target::AllExcept(conn), conn);
        }
        self.open = kept;
        removed
    }

    /// The open connections that the target means.
    pub fn recipients(&self, target: Target) -> (out: Vec<u64>)
        ensures
            out@ == selected(self@, target),
    {
        let mut out: Vec<u64> = Vec::new();
        let mut i: usize = 0;
        while i < self.open.len()
            invariant
                i <= self.open@.len(),
                out@ == selected(self.open@.take(i as int), target),
            decreases self.open@.len() - i,
        {
            let c = self.open[i];
            proof {
                let now = self.open@.take(i + 1);
                assert(now.drop_last() =~= self.open@.take(i as int));
                assert(now.last() == c);
            }
            if target.includes(c) {
                out.push(c);
            }
            i += 1;
        }
        assert(self.open@.take(i as int) =~= self.open@);
        out
    }

    /// Turns a message and its target into the writes to perform: the
    /// frame of the message, once for each open connection that the target
    /// means. A target that is not open gets nothing, and a message that no
    /// frame can carry goes to nobody.
    pub fn send(&self, message: &Message, target: Target) -> (out: Vec<Delivery>)
        ensures
            out@.len() == deliveries(self@, message@, target, self.max_payload()).len(),
            forall|i: int|
                0 <= i < out@.len() ==> #[trigger] out@[i]@ == deliveries(
                    self@,
                    message@,
                    target,
                    self.max_payload(),
                )[i],
    {
        let mut out: Vec<Delivery> = Vec::new();
        if !self.codec.fits(message) {
            return out;
        }
        let frame = self.codec.encode(message);
        let to = self.recipients(target);
        let mut i: usize = 0;
        while i < to.len()
            invariant
                i <= to@.len(),
                to@ == selected(self@, target),
                frame@ == encoding(message@),
                out@.len() == i,
                forall|k: int|
                    0 <= k < i ==> #[trigger] out@[k]@ == (DeliveryView {
                        conn: to@[k],
                        bytes: frame@,
                    }),
            decreases to@.len() - i,
        {
            let bytes = copy_range(frame.as_slice(), 0, frame.len());
            assert(frame@.subrange(0, frame@.len() as int) =~= frame@);
            out.push(Delivery { conn: to[i], bytes });
            i += 1;
        }
        out
    }
}

} // verus!
