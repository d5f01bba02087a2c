//! Core FIX types: message-type classification, session states, and the
//! stream-sink traits shared by the parser and the writer.

use vstd::prelude::*;

verus! {

/// A permanent parse failure is reported as a plain text message.
pub type FixStreamException = String;

/// What a single tag scan yields: tag id, bytes consumed (including `=`),
/// and the arithmetic sum of every byte read.
pub type FixParseIdLenSum = (u32, usize, u32);

/// Application-level message types: the embedder supplies the classifier
/// that recognizes its own message-type byte strings.
pub trait FixAppMsgType {
    fn lookup(btype: &[u8]) -> Option<Self> where Self: Sized;
}

/// Session-level message types, plus two application-level catches:
/// `AppCustom` carries the raw bytes of a type the embedder's classifier
/// recognized, `Unknown` those of every other type. Both are opaque to the
/// session layer; the application decodes them downstream.
#[derive(Debug, PartialEq, Eq)]
pub enum FixMsgType {
    Logon,
    Logout,
    SeqReset,
    Heartbeat,
    TestRequest,
    ResendRequest,
    AppCustom(Vec<u8>),
    Unknown(Vec<u8>),
}

/// The mathematical value of a `FixMsgType`: the `Unknown` payload is a
/// byte sequence rather than a vector.
pub enum MsgTypeV {
    Logon,
    Logout,
    SeqReset,
    Heartbeat,
    TestRequest,
    ResendRequest,
    AppCustom(Seq<u8>),
    Unknown(Seq<u8>),
}

impl View for FixMsgType {
    type V = MsgTypeV;

    open spec fn view(&self) -> MsgTypeV {
        match self {
            FixMsgType::Logon => MsgTypeV::Logon,
            FixMsgType::Logout => MsgTypeV::Logout,
            FixMsgType::SeqReset => MsgTypeV::SeqReset,
            FixMsgType::Heartbeat => MsgTypeV::Heartbeat,
            FixMsgType::TestRequest => MsgTypeV::TestRequest,
            FixMsgType::ResendRequest => MsgTypeV::ResendRequest,
            FixMsgType::AppCustom(t) => MsgTypeV::AppCustom(t@),
            FixMsgType::Unknown(t) => MsgTypeV::Unknown(t@),
        }
    }
}

/// "Outgoing" direction state of a session.
#[derive(Debug, Clone, Copy, PartialEq, Eq, Structural)]
pub enum FixOutState {
    Disconnected,
    Logon,
    Logout,
    Connected,
    Resending,
    Lagging,
}

/// "Incoming" direction state of a session.
#[derive(Debug, Clone, Copy, PartialEq, Eq, Structural)]
pub enum FixInState {
    Disconnected,
    Logon,
    Logout,
    Connected,
}

/// To control the parsing of FIX messages so that a sink could stop or
/// error out early. Kept as part of the public surface; the parser in this
/// crate always runs a message to completion.
#[derive(Debug)]
pub enum ParseControl {
    Error(FixStreamException),
    Stop,
    Continue,
    Skip,
}

impl FixMsgType {
    /// The wire bytes of tag 35 for this message type.
    pub fn as_bytes(&self) -> (r: Vec<u8>)
        ensures
            r@ == spec_msg_type_bytes(self@),
    {
        match self {
            FixMsgType::Logon => {
                let mut r: Vec<u8> = Vec::new();
                r.push(65u8);
                r
            }
            FixMsgType::Logout => {
                let mut r: Vec<u8> = Vec::new();
                r.push(53u8);
                r
            }
            FixMsgType::SeqReset => {
                let mut r: Vec<u8> = Vec::new();
                r.push(52u8);
                r
            }
            FixMsgType::Heartbeat => {
                let mut r: Vec<u8> = Vec::new();
                r.push(48u8);
                r
            }
            FixMsgType::TestRequest => {
                let mut r: Vec<u8> = Vec::new();
                r.push(49u8);
                r
            }
            FixMsgType::ResendRequest => {
                let mut r: Vec<u8> = Vec::new();
                r.push(50u8);
                r
            }
            FixMsgType::AppCustom(t) => vstd::slice::slice_to_vec(t.as_slice()),
            FixMsgType::Unknown(t) => vstd::slice::slice_to_vec(t.as_slice()),
        }
    }

    /// Classify the raw bytes of tag 35.
    pub fn from_bytes(btype: &[u8]) -> (r: FixMsgType)
        ensures
            r@ == spec_msg_type_of(btype@),
    {
        if btype.len() == 1 {
            let b = *vstd::slice::slice_index_get(btype, 0);
            if b == 65u8 {
                proof {
                    assert(btype@ =~= seq![65u8]);
                }
                return FixMsgType::Logon;
            } else if b == 53u8 {
                proof {
                    assert(btype@ =~= seq![53u8]);
                }
                return FixMsgType::Logout;
            } else if b == 52u8 {
                proof {
                    assert(btype@ =~= seq![52u8]);
                }
                return FixMsgType::SeqReset;
            } else if b == 48u8 {
                proof {
                    assert(btype@ =~= seq![48u8]);
                }
                return FixMsgType::Heartbeat;
            } else if b == 49u8 {
                proof {
                    assert(btype@ =~= seq![49u8]);
                }
                return FixMsgType::TestRequest;
            } else if b == 50u8 {
                proof {
                    assert(btype@ =~= seq![50u8]);
                }
                return FixMsgType::ResendRequest;
            }
        }
        proof {
            lemma_unlike_named_type_bytes(btype@);
        }
        FixMsgType::Unknown(vstd::slice::slice_to_vec(btype))
    }

    /// Whether this message type is handled by the session layer rather
    /// than forwarded to the application.
    pub fn is_session_level(msg_type: &FixMsgType) -> (r: bool)
        ensures
            r == spec_is_session_level(msg_type@),
    {
        match msg_type {
            FixMsgType::Logon => true,
            FixMsgType::Logout => true,
            FixMsgType::SeqReset => true,
            FixMsgType::Heartbeat => true,
            FixMsgType::TestRequest => true,
            FixMsgType::ResendRequest => true,
            FixMsgType::AppCustom(_) => false,
            FixMsgType::Unknown(_) => false,
        }
    }

    /// Refine an unrecognized message type through the embedder's
    /// classifier: bytes that `T::lookup` recognizes become `AppCustom`,
    /// carrying the same bytes; everything else is returned unchanged.
    /// Either way the type stays application-level.
    pub fn classify_app<T: FixAppMsgType>(msg_type: FixMsgType) -> (r: FixMsgType)
        ensures
            spec_msg_type_bytes(r@) == spec_msg_type_bytes(msg_type@),
            spec_is_session_level(r@) == spec_is_session_level(msg_type@),
            !(msg_type@ is Unknown) ==> r@ == msg_type@,
            (msg_type@ is Unknown) ==> (r@ is Unknown || r@ is AppCustom),
    {
        match msg_type {
            FixMsgType::Unknown(t) => {
                match T::lookup(t.as_slice()) {
                    Some(_) => FixMsgType::AppCustom(t),
                    None => FixMsgType::Unknown(t),
                }
            },
            other => other,
        }
    }
}

/// The wire bytes of tag 35 for a message type.
pub open spec fn spec_msg_type_bytes(t: MsgTypeV) -> Seq<u8> {
    match t {
        MsgTypeV::Logon => seq![65u8],
        MsgTypeV::Logout => seq![53u8],
        MsgTypeV::SeqReset => seq![52u8],
        MsgTypeV::Heartbeat => seq![48u8],
        MsgTypeV::TestRequest => seq![49u8],
        MsgTypeV::ResendRequest => seq![50u8],
        MsgTypeV::AppCustom(t) => t,
        MsgTypeV::Unknown(t) => t,
    }
}

/// Classification of the raw bytes of tag 35.
pub open spec fn spec_msg_type_of(b: Seq<u8>) -> MsgTypeV {
    if b == seq![65u8] {
        MsgTypeV::Logon
    } else if b == seq![53u8] {
        MsgTypeV::Logout
    } else if b == seq![52u8] {
        MsgTypeV::SeqReset
    } else if b == seq![48u8] {
        MsgTypeV::Heartbeat
    } else if b == seq![49u8] {
        MsgTypeV::TestRequest
    } else if b == seq![50u8] {
        MsgTypeV::ResendRequest
    } else {
        MsgTypeV::Unknown(b)
    }
}

/// Which message types the session layer consumes: everything but the two
/// application-level catches.
pub open spec fn spec_is_session_level(t: MsgTypeV) -> bool {
    !(t is Unknown) && !(t is AppCustom)
}

/// A byte sequence that is none of the named variants' wire bytes
/// classifies to `Unknown`.
proof fn lemma_unlike_named_type_bytes(b: Seq<u8>)
    requires
        b.len() == 1 ==> !(b[0] == 65 || b[0] == 53 || b[0] == 52 || b[0] == 48 || b[0] == 49
            || b[0] == 50),
    ensures
        spec_msg_type_of(b) == MsgTypeV::Unknown(b),
{
    assert(b.len() == 1 ==> b =~= seq![b[0]]);
    assert(seq![65u8].len() == 1);
    if b.len() != 1 {
        assert(b != seq![65u8] && b != seq![53u8] && b != seq![52u8] && b != seq![48u8] && b
            != seq![49u8] && b != seq![50u8]);
    }
}

/// One callback observed by a stream sink, as a mathematical value.
pub enum FixEvent {
    /// A message began, with its classified type and replayability flag.
    Start(MsgTypeV, bool),
    /// One body field.
    Tag(u32, Seq<u8>),
    /// The message ended; `true` means its checksum was right.
    Done(bool),
}

/// Tag-value processor, required to parse a tag-value stream. A sink's
/// `events` view is the whole history of callbacks it has observed.
pub trait FixTagHandler {
    spec fn events(&self) -> Seq<FixEvent>;

    fn tag_value(&mut self, t: u32, v: &[u8])
        ensures
            final(self).events() == old(self).events().push(FixEvent::Tag(t, v@)),
    ;
}

/// A stream of tag-value pairs with message boundaries: one
/// `fix_message_start`, any number of `tag_value` calls, then one
/// `fix_message_done`.
pub trait FixStream: FixTagHandler {
    fn fix_message_start(&mut self, msg_type: FixMsgType, is_replayable: bool)
        ensures
            final(self).events() == old(self).events().push(
                FixEvent::Start(msg_type@, is_replayable),
            ),
    ;

    fn fix_message_done(&mut self, res: Result<(), FixStreamException>)
        ensures
            final(self).events() == old(self).events().push(FixEvent::Done(res is Ok)),
    ;
}

/// What the session engine asks the application to act on: a session-level
/// message to populate or answer, with any payload that came with it.
#[derive(Debug, Clone, PartialEq, Eq)]
pub enum SessionRequestType {
    /// A logon to populate (outgoing) or one received (incoming).
    Logon(Option<Vec<u8>>),
    /// A logout to populate or one received.
    Logout(Option<Vec<u8>>),
    SeqReset,
    Heartbeat,
    /// A test request; the payload is the TestReqID (tag 112) to echo.
    TestRequest(Option<Vec<u8>>),
    ResendRequest,
}

/// The direction a session request belongs to: `In` for one triggered by
/// the peer, `Out` for one this side initiates.
#[derive(Debug, Clone, PartialEq, Eq)]
pub enum SessionRequest {
    In(SessionRequestType),
    Out(SessionRequestType),
}

/// The byte-stream transport a connection drives: a buffered incoming view
/// that the connection consumes from, and an outgoing stream it writes to.
pub trait FixTransport {
    /// The bytes received and not yet consumed.
    spec fn inbound(&self) -> Seq<u8>;

    /// Every byte ever accepted for sending, oldest first.
    spec fn outbound(&self) -> Seq<u8>;

    /// A read-only view of the buffered incoming bytes; may be empty.
    fn view(&self) -> (r: &[u8])
        ensures
            r@ == self.inbound(),
    ;

    /// Drop `len` bytes from the head of the incoming buffer.
    fn consume(&mut self, len: usize)
        requires
            len <= old(self).inbound().len(),
        ensures
            final(self).inbound() == old(self).inbound().skip(len as int),
            final(self).outbound() == old(self).outbound(),
    ;

    /// Try to send; the transport accepts some prefix of `buf` and reports
    /// how much, and the rest is retried later.
    fn write(&mut self, buf: &[u8]) -> (n: usize)
        ensures
            n <= buf@.len(),
            final(self).outbound() == old(self).outbound() + buf@.take(n as int),
            final(self).inbound() == old(self).inbound(),
    ;
}

/// What the embedding application implements: the sink its incoming
/// application messages stream into, and the channel on which the engine
/// asks it to populate or act on session messages. Both histories are
/// observable, and each call extends exactly one of them.
pub trait FixApplication {
    /// The callbacks the application's incoming stream has observed.
    spec fn events(&self) -> Seq<FixEvent>;

    /// The session requests surfaced to the application, oldest first.
    spec fn requests(&self) -> Seq<SessionRequest>;

    /// The fatal session errors surfaced to the application, oldest first.
    spec fn errors(&self) -> Seq<FixStreamException>;

    /// The engine needs the application to act on a session message.
    fn on_request(&mut self, request: SessionRequest)
        ensures
            final(self).requests() == old(self).requests().push(request),
            final(self).events() == old(self).events(),
            final(self).errors() == old(self).errors(),
    ;

    /// The session hit an unrecoverable error and is over.
    fn error(&mut self, e: FixStreamException)
        ensures
            final(self).errors() == old(self).errors().push(e),
            final(self).events() == old(self).events(),
            final(self).requests() == old(self).requests(),
    ;

    /// An application message began.
    fn fix_message_start(&mut self, msg_type: FixMsgType, is_replayable: bool)
        ensures
            final(self).events() == old(self).events().push(
                FixEvent::Start(msg_type@, is_replayable),
            ),
            final(self).requests() == old(self).requests(),
            final(self).errors() == old(self).errors(),
    ;

    /// One field of an application message.
    fn tag_value(&mut self, t: u32, v: &[u8])
        ensures
            final(self).events() == old(self).events().push(FixEvent::Tag(t, v@)),
            final(self).requests() == old(self).requests(),
            final(self).errors() == old(self).errors(),
    ;

    /// An application message ended.
    fn fix_message_done(&mut self, res: Result<(), FixStreamException>)
        ensures
            final(self).events() == old(self).events().push(FixEvent::Done(res is Ok)),
            final(self).requests() == old(self).requests(),
            final(self).errors() == old(self).errors(),
    ;
}

/// Classification then encoding round-trips: every named variant's wire
/// bytes classify back to the same variant.
pub proof fn lemma_msg_type_round_trip(t: MsgTypeV)
    requires
        !(t is Unknown),
        !(t is AppCustom),
    ensures
        spec_msg_type_of(spec_msg_type_bytes(t)) == t,
{
    assert(seq![65u8][0] == 65 && seq![53u8][0] == 53 && seq![52u8][0] == 52 && seq![48u8][0]
        == 48 && seq![49u8][0] == 49 && seq![50u8][0] == 50);
}

/// Encoding then classification round-trips: bytes that classify to a
/// session-level variant are exactly that variant's wire bytes, and all
/// other bytes are kept verbatim by `Unknown`.
pub proof fn lemma_msg_type_bytes_round_trip(b: Seq<u8>)
    ensures
        spec_msg_type_bytes(spec_msg_type_of(b)) == b,
{
}

} // verus!
