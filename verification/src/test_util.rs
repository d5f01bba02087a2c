//! Verified in-memory doubles for driving a session in tests: a recording
//! sink, an application that keeps its requests, a loop-back transport, a
//! peer that frames messages, and a mock clock for timers.

use vstd::prelude::*;

use std::collections::HashMap;

use crate::fix::FixApplication;
use crate::fix::FixEvent;
use crate::fix::FixMsgType;
use crate::fix::FixStream;
use crate::fix::FixStreamException;
use crate::fix::FixTagHandler;
use crate::fix::FixTransport;
use crate::fix::SessionRequest;
use crate::util::FixMessageWriter;
use crate::util::encode_msg;

verus! {

/// A sink that keeps the last message it observed: its type, its fields,
/// and whether it finished cleanly.
pub struct TestFixMessage {
    /// The wire bytes of tag 35 of the last message started, if any.
    pub msg_type: Option<Vec<u8>>,
    /// The replayability flag of the last message started.
    pub is_replayable: bool,
    /// Whether the last message ran to its done callback.
    pub done: bool,
    /// Whether the last done callback reported a clean message.
    pub last_ok: bool,
    /// Every tag observed, in order.
    pub tag_ids: Vec<u32>,
    /// The last value observed for each tag.
    pub tag_values: HashMap<u32, Vec<u8>>,
    /// The whole callback history, as ghost state.
    pub history: Ghost<Seq<FixEvent>>,
}

impl TestFixMessage {
    /// A sink that has observed nothing.
    pub fn new() -> (r: TestFixMessage)
        ensures
            r.events() == Seq::<FixEvent>::empty(),
            r.msg_type is None,
            !r.is_replayable,
            !r.done,
            !r.last_ok,
            r.tag_ids@ == Seq::<u32>::empty(),
    {
        TestFixMessage {
            msg_type: None,
            is_replayable: false,
            done: false,
            last_ok: false,
            tag_ids: Vec::new(),
            tag_values: HashMap::new(),
            history: Ghost(Seq::empty()),
        }
    }
}

impl FixTagHandler for TestFixMessage {
    open spec fn events(&self) -> Seq<FixEvent> {
        self.history@
    }

    fn tag_value(&mut self, t: u32, v: &[u8]) {
        self.tag_ids.push(t);
        self.tag_values.insert(t, vstd::slice::slice_to_vec(v));
        self.history = Ghost(self.history@.push(FixEvent::Tag(t, v@)));
    }
}

impl FixStream for TestFixMessage {
    fn fix_message_start(&mut self, msg_type: FixMsgType, is_replayable: bool) {
        self.is_replayable = is_replayable;
        self.done = false;
        let ghost mtv = msg_type@;
        self.msg_type = Some(msg_type.as_bytes());
        self.history = Ghost(self.history@.push(FixEvent::Start(mtv, is_replayable)));
    }

    fn fix_message_done(&mut self, res: Result<(), FixStreamException>) {
        self.done = true;
        self.last_ok = match res {
            Ok(_) => true,
            Err(_) => false,
        };
        self.history = Ghost(self.history@.push(FixEvent::Done(res is Ok)));
    }
}

/// An application that records what the engine hands it: its incoming
/// stream is a `TestFixMessage`, and every surfaced request is kept.
pub struct TestFixApplication {
    /// The application's incoming stream.
    pub message: TestFixMessage,
    /// Every surfaced request, oldest first.
    pub requests: Vec<SessionRequest>,
    /// Every surfaced fatal error, oldest first.
    pub errors: Vec<FixStreamException>,
}

impl TestFixApplication {
    /// An application that has seen nothing.
    pub fn new() -> (r: TestFixApplication)
        ensures
            r.events() == Seq::<FixEvent>::empty(),
            r.requests() == Seq::<SessionRequest>::empty(),
            r.errors() == Seq::<FixStreamException>::empty(),
    {
        TestFixApplication {
            message: TestFixMessage::new(),
            requests: Vec::new(),
            errors: Vec::new(),
        }
    }
}

impl FixApplication for TestFixApplication {
    open spec fn events(&self) -> Seq<FixEvent> {
        self.message.events()
    }

    open spec fn requests(&self) -> Seq<SessionRequest> {
        self.requests@
    }

    open spec fn errors(&self) -> Seq<FixStreamException> {
        self.errors@
    }

    fn on_request(&mut self, request: SessionRequest) {
        self.requests.push(request);
    }

    fn error(&mut self, e: FixStreamException) {
        self.errors.push(e);
    }

    fn fix_message_start(&mut self, msg_type: FixMsgType, is_replayable: bool) {
        self.message.fix_message_start(msg_type, is_replayable);
    }

    fn tag_value(&mut self, t: u32, v: &[u8]) {
        self.message.tag_value(t, v);
    }

    fn fix_message_done(&mut self, res: Result<(), FixStreamException>) {
        self.message.fix_message_done(res);
    }
}

/// An in-memory transport: bytes fed to it are its incoming stream, and it
/// accepts every write whole.
pub struct TestFixTransport {
    /// Bytes received and not yet consumed.
    pub data: Vec<u8>,
    /// Every byte accepted for sending.
    pub written: Vec<u8>,
}

impl TestFixTransport {
    /// A transport with nothing buffered.
    pub fn new() -> (r: TestFixTransport)
        ensures
            r.inbound() == Seq::<u8>::empty(),
            r.outbound() == Seq::<u8>::empty(),
    {
        TestFixTransport { data: Vec::new(), written: Vec::new() }
    }

    /// Deliver bytes from the peer into the incoming buffer.
    pub fn feed(&mut self, bytes: &[u8])
        ensures
            final(self).inbound() == old(self).inbound() + bytes@,
            final(self).outbound() == old(self).outbound(),
    {
        self.data.extend_from_slice(bytes);
    }
}

impl FixTransport for TestFixTransport {
    open spec fn inbound(&self) -> Seq<u8> {
        self.data@
    }

    open spec fn outbound(&self) -> Seq<u8> {
        self.written@
    }

    fn view(&self) -> (r: &[u8]) {
        self.data.as_slice()
    }

    fn consume(&mut self, len: usize) {
        let mut rest: Vec<u8> = Vec::new();
        let mut i: usize = len;
        while i < self.data.len()
            invariant
                len <= i <= self.data@.len(),
                rest@ == self.data@.subrange(len as int, i as int),
            decreases self.data@.len() - i,
        {
            rest.push(*vstd::std_specs::vec::vec_index(&self.data, i));
            i = i + 1;
            proof {
                assert(rest@ =~= self.data@.subrange(len as int, i as int));
            }
        }
        proof {
            assert(rest@ =~= self.data@.skip(len as int));
        }
        self.data = rest;
    }

    fn write(&mut self, buf: &[u8]) -> (n: usize) {
        self.written.extend_from_slice(buf);
        proof {
            assert(buf@.take(buf@.len() as int) =~= buf@);
        }
        buf.len()
    }
}

/// The remote peer's side of a test session: it frames messages exactly as
/// the writer does and queues their bytes for delivery.
pub struct TestFixRemote {
    /// Frames the peer's messages.
    pub writer: FixMessageWriter,
}

impl TestFixRemote {
    /// The frames built and not yet delivered.
    pub open spec fn pending(&self) -> Seq<u8> {
        self.writer.pending()
    }

    /// Whether a message is open.
    pub open spec fn is_building(&self) -> bool {
        self.writer.is_building()
    }

    /// The remote's writer buffer is consistent.
    pub open spec fn wf(&self) -> bool {
        self.writer.wf()
    }

    /// A peer with nothing queued.
    pub fn new() -> (r: TestFixRemote)
        ensures
            r.wf(),
            !r.is_building(),
            r.pending() == Seq::<u8>::empty(),
    {
        TestFixRemote { writer: FixMessageWriter::new() }
    }

    /// Open a message of the given type.
    pub fn fix_message_start(&mut self, msg_type: FixMsgType, is_replayable: bool)
        requires
            old(self).wf(),
            crate::fix::spec_msg_type_bytes(msg_type@).len() < crate::util::SUM_LEN_LIMIT,
        ensures
            final(self).wf(),
            final(self).is_building(),
            final(self).writer.cur_msg_type() == crate::fix::spec_msg_type_bytes(msg_type@),
            final(self).writer.cur_field_list() == Seq::<(u32, Seq<u8>)>::empty(),
            final(self).pending() == old(self).pending(),
    {
        self.writer.fix_message_start(msg_type, is_replayable);
    }

    /// Append one body field to the open message.
    pub fn tag_value(&mut self, tag: u32, value: &[u8])
        requires
            old(self).wf(),
            old(self).is_building(),
            value@.len() < crate::util::SUM_LEN_LIMIT,
        ensures
            final(self).wf(),
            final(self).is_building(),
            final(self).writer.cur_msg_type() == old(self).writer.cur_msg_type(),
            final(self).writer.cur_field_list() == old(self).writer.cur_field_list().push(
                (tag, value@),
            ),
            final(self).pending() == old(self).pending(),
    {
        self.writer.tag_value(tag, value);
    }

    /// Close the open message and queue its frame.
    pub fn fix_message_done(&mut self, res: Result<(), FixStreamException>)
        requires
            old(self).wf(),
            old(self).is_building(),
        ensures
            final(self).wf(),
            !final(self).is_building(),
            final(self).pending() == old(self).pending() + encode_msg(
                old(self).writer.cur_msg_type(),
                old(self).writer.cur_field_list(),
            ),
    {
        self.writer.fix_message_done(res);
    }

    /// Hand over everything queued, as the connection being accepted and
    /// the bytes arriving.
    pub fn accept(&mut self) -> (r: Vec<u8>)
        requires
            old(self).wf(),
        ensures
            final(self).wf(),
            r@ == old(self).pending(),
            final(self).pending() == Seq::<u8>::empty(),
            final(self).is_building() == old(self).is_building(),
            final(self).writer.cur_msg_type() == old(self).writer.cur_msg_type(),
            final(self).writer.cur_field_list() == old(self).writer.cur_field_list(),
    {
        let out = vstd::slice::slice_to_vec(self.writer.get_bytes());
        let n = out.len();
        self.writer.drain_head(n);
        proof {
            assert(old(self).pending().skip(old(self).pending().len() as int) =~= Seq::<
                u8,
            >::empty());
        }
        out
    }
}

/// One mock timer: its period and whether it still fires.
pub struct TestFixTimerDesc {
    /// The period, in nanoseconds; always positive.
    pub interval_ns: u64,
    /// Whether the timer is armed; a cancelled timer never fires again.
    pub live: bool,
}

/// A mock clock with periodic timers: advancing it by a span reports how
/// often each armed timer fired in that span.
pub struct TestFixEnvironment {
    /// The mock time, in nanoseconds since the clock was made.
    pub now_ns: u64,
    /// Every timer ever set, by its id.
    pub timers: Vec<TestFixTimerDesc>,
}

impl TestFixEnvironment {
    /// All timers have positive periods.
    pub open spec fn wf(&self) -> bool {
        forall|i: int|
            0 <= i < self.timers@.len() ==> (#[trigger] self.timers@[i]).interval_ns > 0
    }

    /// A clock at zero with no timers.
    pub fn new() -> (r: TestFixEnvironment)
        ensures
            r.wf(),
            r.now_ns == 0,
            r.timers@ == Seq::<TestFixTimerDesc>::empty(),
    {
        TestFixEnvironment { now_ns: 0, timers: Vec::new() }
    }

    /// Arm a periodic timer; the returned id names it until cancelled. Once
    /// set, a timer keeps firing until cancelled.
    pub fn set_timeout(&mut self, interval_ns: u64) -> (id: usize)
        requires
            old(self).wf(),
            interval_ns > 0,
        ensures
            final(self).wf(),
            final(self).now_ns == old(self).now_ns,
            id == old(self).timers@.len(),
            final(self).timers@ == old(self).timers@.push(
                TestFixTimerDesc { interval_ns, live: true },
            ),
    {
        let id = self.timers.len();
        self.timers.push(TestFixTimerDesc { interval_ns, live: true });
        id
    }

    /// Disarm a timer: it never fires again.
    pub fn cancel(&mut self, id: usize)
        requires
            old(self).wf(),
            id < old(self).timers@.len(),
        ensures
            final(self).wf(),
            final(self).now_ns == old(self).now_ns,
            final(self).timers@ == old(self).timers@.update(
                id as int,
                TestFixTimerDesc {
                    interval_ns: old(self).timers@[id as int].interval_ns,
                    live: false,
                },
            ),
    {
        let interval_ns = vstd::std_specs::vec::vec_index(&self.timers, id).interval_ns;
        self.timers.set(id, TestFixTimerDesc { interval_ns, live: false });
        proof {
            assert forall|i: int|
                0 <= i < self.timers@.len() implies (#[trigger] self.timers@[i]).interval_ns
                > 0 by {
                assert(old(self).timers@[i].interval_ns > 0);
            }
        }
    }

    /// Advance the clock by a span: each armed timer fires once per full
    /// period inside the span, and the report lists every timer with how
    /// often it fired; a cancelled timer fires zero times.
    pub fn run_for(&mut self, d_ns: u64) -> (fires: Vec<(usize, u64)>)
        requires
            old(self).wf(),
            old(self).now_ns + d_ns <= u64::MAX,
        ensures
            final(self).wf(),
            final(self).now_ns == old(self).now_ns + d_ns,
            final(self).timers@ == old(self).timers@,
            fires@.len() == old(self).timers@.len(),
            forall|i: int|
                0 <= i < fires@.len() ==> #[trigger] fires@[i] == (
                    i as usize,
                    if old(self).timers@[i].live {
                        d_ns as u64 / old(self).timers@[i].interval_ns
                    } else {
                        0u64
                    },
                ),
    {
        self.now_ns = self.now_ns + d_ns;
        let mut fires: Vec<(usize, u64)> = Vec::new();
        let mut i: usize = 0;
        while i < self.timers.len()
            invariant
                self.wf(),
                i <= self.timers@.len(),
                fires@.len() == i,
                forall|q: int|
                    0 <= q < i ==> #[trigger] fires@[q] == (
                        q as usize,
                        if self.timers@[q].live {
                            d_ns as u64 / self.timers@[q].interval_ns
                        } else {
                            0u64
                        },
                    ),
            decreases self.timers@.len() - i,
        {
            let t = vstd::std_specs::vec::vec_index(&self.timers, i);
            let count: u64 = if t.live {
                d_ns / t.interval_ns
            } else {
                0
            };
            fires.push((i, count));
            i = i + 1;
        }
        fires
    }
}

} // verus!
