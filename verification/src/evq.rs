use vstd::prelude::*;
use vstd::string::*;
use vstd::utf8::*;

use crate::cli;
use crate::rv::Rv;
use crate::words::{append, decimal, push_decimal};

verus! {

/// The type of events a handler takes.
#[derive(Debug, PartialEq, Eq, Structural, Clone, Copy)]
pub enum EvType {
    Any,
    Tick1Hz,
    Uart,
}

/// The code of an event type: 0 for any event, 1 for ticks, 2 for serial
/// data.
pub open spec fn evtype_code(t: EvType) -> u8 {
    match t {
        EvType::Any => 0,
        EvType::Tick1Hz => 1,
        EvType::Uart => 2,
    }
}

impl EvType {
    /// The type's code.
    pub fn code(&self) -> (r: u8)
        ensures
            r == evtype_code(*self),
    {
        match self {
            EvType::Any => 0,
            EvType::Tick1Hz => 1,
            EvType::Uart => 2,
        }
    }
}

/// An event of the system.
#[derive(Debug, Clone, Copy)]
pub enum Event {
    /// The once-a-second tick.
    Tick1Hz,
    /// Bytes that serial port number `dev` (a device index) received: the
    /// first `len` of `data`.
    Uart { dev: usize, data: [u8; 8], len: u8 },
}

/// The type code of an event: 1 for a tick, 2 for serial data.
pub open spec fn event_code(ev: Event) -> u8 {
    match ev {
        Event::Tick1Hz => 1,
        Event::Uart { .. } => 2,
    }
}

impl Event {
    /// The event's type code.
    pub fn evtype(&self) -> (r: u8)
        ensures
            r == event_code(*self),
    {
        match self {
            Event::Tick1Hz => 1,
            Event::Uart { .. } => 2,
        }
    }
}

/// What an event handler does with the events it is handed.
#[derive(Debug, PartialEq, Eq, Structural, Clone, Copy)]
pub enum EvAction {
    /// Hands the bytes that the console's serial port received to the
    /// console.
    Console,
    /// Nothing.
    Idle,
}

/// What the event queue keeps of a handler: the type code it takes, its
/// name, what it does, its result code and how many events it was handed.
pub struct Handler {
    evtype: u8,
    id: String,
    action: EvAction,
    rv: Rv,
    count: u32,
}

/// The event queue's registry of handlers, in the order they were
/// registered, and whether the queue runs.
pub struct Evq {
    handlers: Vec<Handler>,
    running: bool,
}

/// A handler that takes type code `t` is handed an event of type code `e`.
pub open spec fn takes(t: u8, e: u8) -> bool {
    t == 0 || t == e
}

/// The indices of the handlers of `hs` that an event of type code `e` is
/// handed to, in order.
pub open spec fn receivers(hs: Seq<(u8, Seq<char>, u32)>, e: u8) -> Seq<usize>
    decreases hs.len(),
{
    if hs.len() == 0 {
        Seq::<usize>::empty()
    } else if takes(hs.last().0, e) {
        receivers(hs.drop_last(), e).push((hs.len() - 1) as usize)
    } else {
        receivers(hs.drop_last(), e)
    }
}

/// The handlers after an event of type code `e`: each one that takes it
/// has its count one higher.
pub open spec fn counted(hs: Seq<(u8, Seq<char>, u32)>, e: u8) -> Seq<(u8, Seq<char>, u32)> {
    hs.map_values(
        |h: (u8, Seq<char>, u32)|
            if takes(h.0, e) {
                (h.0, h.1, (h.2 + 1) as u32)
            } else {
                h
            },
    )
}

/// What the "evq" command shows: for each handler, in order, its type
/// code, its name and its count, separated by ' ', on a line of its own.
pub open spec fn evq_listing(hs: Seq<(u8, Seq<char>, u32)>) -> Seq<u8>
    decreases hs.len(),
{
    if hs.len() == 0 {
        Seq::<u8>::empty()
    } else {
        let h = hs.last();
        evq_listing(hs.drop_last()) + decimal(h.0 as nat) + seq![32u8] + encode_utf8(h.1) + seq![32u8]
            + decimal(h.2 as nat) + seq![10u8]
    }
}

/// The handlers an event goes to are, in increasing order, exactly those
/// that take every event or its type: a handler of every event gets every
/// event, and a handler of another type never gets it.
pub proof fn law_receivers(hs: Seq<(u8, Seq<char>, u32)>, e: u8)
    requires
        hs.len() <= usize::MAX,
    ensures
        forall|k: int|
            0 <= k < receivers(hs, e).len() ==> #[trigger] receivers(hs, e)[k] < hs.len(),
        forall|k: int, l: int|
            0 <= k < l < receivers(hs, e).len() ==> #[trigger] receivers(hs, e)[k]
                < #[trigger] receivers(hs, e)[l],
        forall|j: int|
            0 <= j < hs.len() ==> (receivers(hs, e).contains(j as usize) <==> takes(
                #[trigger] hs[j].0,
                e,
            )),
    decreases hs.len(),
{
    if hs.len() > 0 {
        let p = hs.drop_last();
        law_receivers(p, e);
        let rp = receivers(p, e);
        let n = hs.len() - 1;
        if takes(hs.last().0, e) {
            let r = rp.push(n as usize);
            assert(receivers(hs, e) == r);
            assert forall|k: int| 0 <= k < r.len() implies #[trigger] r[k] < hs.len() by {
                if k < rp.len() {
                    assert(r[k] == rp[k]);
                }
            }
            assert forall|k: int, l: int| 0 <= k < l < r.len() implies #[trigger] r[k] < #[trigger] r[l] by {
                assert(r[k] == rp[k]);
                if l < rp.len() {
                    assert(r[l] == rp[l]);
                }
            }
        }
        assert forall|j: int| 0 <= j < hs.len() implies (receivers(hs, e).contains(j as usize)
            <==> takes(#[trigger] hs[j].0, e)) by {
            if j < n {
                assert(hs[j] == p[j]);
                if takes(hs.last().0, e) {
                    let r = rp.push(n as usize);
                    if r.contains(j as usize) {
                        let k = choose|k: int| 0 <= k < r.len() && r[k] == j as usize;
                        if k < rp.len() {
                            assert(rp[k] == r[k]);
                        }
                    }
                    if rp.contains(j as usize) {
                        let k = choose|k: int| 0 <= k < rp.len() && rp[k] == j as usize;
                        assert(r[k] == rp[k]);
                    }
                }
            } else {
                if takes(hs.last().0, e) {
                    let r = rp.push(n as usize);
                    assert(r[r.len() - 1] == n as usize);
                } else {
                    if rp.contains(j as usize) {
                        let k = choose|k: int| 0 <= k < rp.len() && rp[k] == j as usize;
                        assert(rp[k] < p.len());
                    }
                }
            }
        }
    }
}

/// Handing out an event adds one to the count of each handler it goes to
/// and changes nothing else of the handlers.
pub proof fn law_counts(hs: Seq<(u8, Seq<char>, u32)>, e: u8)
    requires
        hs.len() <= usize::MAX,
        forall|j: int| 0 <= j < hs.len() && takes(#[trigger] hs[j].0, e) ==> hs[j].2 < u32::MAX,
    ensures
        counted(hs, e).len() == hs.len(),
        forall|j: int|
            0 <= j < hs.len() ==> (#[trigger] counted(hs, e)[j]).0 == hs[j].0 && counted(hs, e)[j].1
                == hs[j].1 && counted(hs, e)[j].2 == hs[j].2 + if receivers(hs, e).contains(
                j as usize,
            ) {
                1int
            } else {
                0int
            },
{
    law_receivers(hs, e);
    assert forall|j: int| 0 <= j < hs.len() implies (#[trigger] counted(hs, e)[j]).0 == hs[j].0
        && counted(hs, e)[j].1 == hs[j].1 && counted(hs, e)[j].2 == hs[j].2 + if receivers(
        hs,
        e,
    ).contains(j as usize) {
        1int
    } else {
        0int
    } by {
        assert(takes(hs[j].0, e) == receivers(hs, e).contains(j as usize));
    }
}

/// `b` is queue `a` after `stop`: the same handlers, not running.
pub open spec fn after_stop(a: Evq, b: Evq) -> bool {
    b@ == a@ && b.actions() == a.actions() && !b.runs()
}

/// `b` is queue `a` after handing out an event of type code `e`: the
/// counts of the handlers that take it are one higher, and whether it
/// runs is unchanged.
pub open spec fn after_dispatch(a: Evq, e: u8, b: Evq) -> bool {
    b@ == counted(a@, e) && b.actions() == a.actions() && b.runs() == a.runs()
}

/// Once a queue is stopped it stays stopped while it hands out events, so
/// a loop that hands out an event and then asks `is_running` ends right
/// after the next event; stopping a stopped queue changes nothing.
pub proof fn law_stop_ends_run(a: Evq, b: Evq, c: Evq, d: Evq, e: u8)
    requires
        after_stop(a, b),
    ensures
        after_dispatch(b, e, c) ==> !c.runs(),
        after_stop(b, d) ==> d@ == b@ && d.runs() == b.runs(),
{
}

impl View for Evq {
    type V = Seq<(u8, Seq<char>, u32)>;

    /// Each handler's type code, name and count, in registration order.
    closed spec fn view(&self) -> Seq<(u8, Seq<char>, u32)> {
        self.handlers@.map_values(|h: Handler| (h.evtype, h.id@, h.count))
    }
}

impl Evq {
    /// Whether the queue runs.
    pub closed spec fn runs(&self) -> bool {
        self.running
    }

    /// What each handler does, in registration order.
    pub closed spec fn actions(&self) -> Seq<EvAction> {
        self.handlers@.map_values(|h: Handler| h.action)
    }

    /// A running queue with no handlers; registers the console command
    /// "evq" that lists the handlers.
    pub fn new(climgr: &mut cli::Mgr) -> (q: Evq)
        ensures
            q@ == Seq::<(u8, Seq<char>, u32)>::empty(),
            q.runs(),
            q.actions() == Seq::<EvAction>::empty(),
            final(climgr)@ == old(climgr)@.push(("evq"@, "show event queue"@, cli::Action::ShowEvq)),
    {
        let q = Evq { handlers: Vec::new(), running: true };
        climgr.reg("evq", "show event queue", cli::Action::ShowEvq);
        assert(q@ =~= Seq::<(u8, Seq<char>, u32)>::empty());
        assert(q.actions() =~= Seq::<EvAction>::empty());
        q
    }

    /// Registers a handler of every event that does `action`; returns its
    /// index.
    pub fn reg(&mut self, id: &str, action: EvAction) -> (i: usize)
        ensures
            final(self)@ == old(self)@.push((0u8, id@, 0u32)),
            final(self).actions() == old(self).actions().push(action),
            final(self).runs() == old(self).runs(),
            i == old(self)@.len(),
    {
        self.reg_filter(id, EvType::Any, action)
    }

    /// Registers a handler of the events of type `evtype` that does
    /// `action`; returns its index.
    pub fn reg_filter(&mut self, id: &str, evtype: EvType, action: EvAction) -> (i: usize)
        ensures
            final(self)@ == old(self)@.push((evtype_code(evtype), id@, 0u32)),
            final(self).actions() == old(self).actions().push(action),
            final(self).runs() == old(self).runs(),
            i == old(self)@.len(),
    {
        let i = self.handlers.len();
        self.handlers.push(
            Handler {
                evtype: evtype.code(),
                id: String::from_str(id),
                action,
                rv: Rv::Success,
                count: 0,
            },
        );
        assert(self@ =~= old(self)@.push((evtype_code(evtype), id@, 0u32)));
        assert(self.actions() =~= old(self).actions().push(action));
        i
    }

    /// Whether `dispatch` can hand out `ev`: no handler that takes it has
    /// a count at the largest value a count can hold.
    pub fn can_dispatch(&self, ev: &Event) -> (r: bool)
        ensures
            r == forall|j: int|
                0 <= j < self@.len() && takes(#[trigger] self@[j].0, event_code(*ev)) ==> self@[j].2
                    < u32::MAX,
    {
        let e = ev.evtype();
        let mut i: usize = 0;
        while i < self.handlers.len()
            invariant
                e == event_code(*ev),
                i <= self@.len(),
                self@.len() == self.handlers@.len(),
                forall|j: int| 0 <= j < i && takes(#[trigger] self@[j].0, e) ==> self@[j].2 < u32::MAX,
            decreases self.handlers@.len() - i,
        {
            let h = &self.handlers[i];
            assert(self@[i as int] == (h.evtype, h.id@, h.count));
            if (h.evtype == 0 || h.evtype == e) && h.count == u32::MAX {
                assert(takes(self@[i as int].0, e));
                return false;
            }
            i = i + 1;
        }
        true
    }

    /// The handlers that `ev` goes to, in registration order: those that
    /// take every event and those that take its type. Each one's count
    /// goes up by one.
    pub fn dispatch(&mut self, ev: &Event) -> (r: Vec<usize>)
        requires
            forall|j: int|
                0 <= j < old(self)@.len() && takes(#[trigger] old(self)@[j].0, event_code(*ev))
                    ==> old(self)@[j].2 < u32::MAX,
        ensures
            r@ == receivers(old(self)@, event_code(*ev)),
            after_dispatch(*old(self), event_code(*ev), *final(self)),
    {
        let e = ev.evtype();
        let ghost hs = self@;
        let mut r: Vec<usize> = Vec::new();
        let mut i: usize = 0;
        while i < self.handlers.len()
            invariant
                hs == old(self)@,
                e == event_code(*ev),
                self.running == old(self).running,
                self.handlers@.len() == hs.len(),
                i <= hs.len(),
                forall|j: int|
                    0 <= j < hs.len() && takes(#[trigger] hs[j].0, e) ==> hs[j].2 < u32::MAX,
                r@ == receivers(hs.take(i as int), e),
                forall|j: int| 0 <= j < i ==> #[trigger] self@[j] == counted(hs, e)[j],
                forall|j: int| i <= j < hs.len() ==> #[trigger] self@[j] == hs[j],
                self.actions() == old(self).actions(),
            decreases hs.len() - i,
        {
            assert(hs.take(i + 1).drop_last() =~= hs.take(i as int));
            assert(self@[i as int] == hs[i as int]);
            let ghost before = self.handlers@;
            let h = &self.handlers[i];
            assert((h.evtype, h.id@, h.count) == hs[i as int]);
            if h.evtype == 0 || h.evtype == e {
                assert(takes(hs[i as int].0, e));
                let nh = Handler {
                    evtype: h.evtype,
                    id: h.id.clone(),
                    action: h.action,
                    rv: h.rv,
                    count: h.count + 1,
                };
                self.handlers.set(i, nh);
                assert(self.handlers@ == before.update(i as int, nh));
                assert(self.actions() =~= old(self).actions());
                assert forall|j: int| 0 <= j < hs.len() && j != i implies #[trigger] self@[j]
                    == before.map_values(|h: Handler| (h.evtype, h.id@, h.count))[j] by {}
                r.push(i);
            }
            i = i + 1;
        }
        assert(hs.take(i as int) =~= hs);
        assert(self@ =~= counted(hs, e));
        r
    }

    /// Stops the queue: it ends after the event it is handing out.
    pub fn stop(&mut self)
        ensures
            after_stop(*old(self), *final(self)),
    {
        self.running = false;
    }

    /// Whether the queue runs.
    pub fn is_running(&self) -> (r: bool)
        ensures
            r == self.runs(),
    {
        self.running
    }

    /// The text of the "evq" command (see `evq_listing`).
    pub fn listing(&self) -> (r: Vec<u8>)
        ensures
            r@ == evq_listing(self@),
    {
        let mut r: Vec<u8> = Vec::new();
        let mut i: usize = 0;
        while i < self.handlers.len()
            invariant
                i <= self@.len(),
                self@.len() == self.handlers@.len(),
                r@ == evq_listing(self@.take(i as int)),
            decreases self.handlers@.len() - i,
        {
            let h = &self.handlers[i];
            assert(self@[i as int] == (h.evtype, h.id@, h.count));
            push_decimal(&mut r, h.evtype as u64);
            r.push(32);
            append(&mut r, h.id.as_str().as_bytes());
            r.push(32);
            push_decimal(&mut r, h.count as u64);
            r.push(10);
            i = i + 1;
            assert(self@.take(i as int).drop_last() =~= self@.take(i - 1));
            assert(r@ =~= evq_listing(self@.take(i as int)));
        }
        assert(self@.take(i as int) =~= self@);
        r
    }

    /// The number of handlers.
    pub fn len(&self) -> (n: usize)
        ensures
            n == self@.len(),
            n == self.actions().len(),
    {
        self.handlers.len()
    }

    /// What handler `i` does.
    pub fn action(&self, i: usize) -> (r: EvAction)
        requires
            i < self@.len(),
        ensures
            r == self.actions()[i as int],
    {
        self.handlers[i].action
    }

    /// The type code, name and count of handler `i`.
    pub fn handler(&self, i: usize) -> (r: (u8, &str, u32))
        requires
            i < self@.len(),
        ensures
            (r.0, r.1@, r.2) == self@[i as int],
    {
        let h = &self.handlers[i];
        (h.evtype, h.id.as_str(), h.count)
    }
}

} // verus!
