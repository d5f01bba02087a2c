//! The session engine: a connection owning a transport and a message
//! writer, driving the incoming and outgoing state machines, classifying
//! session-level against application-level messages, and surfacing session
//! requests to the application.

use vstd::prelude::*;

use crate::fix::FixApplication;
use crate::fix::FixEvent;
use crate::fix::FixInState;
use crate::fix::FixMsgType;
use crate::fix::FixOutState;
use crate::fix::FixStream;
use crate::fix::FixStreamException;
use crate::fix::FixTagHandler;
use crate::fix::FixTransport;
use crate::fix::MsgTypeV;
use crate::fix::SessionRequest;
use crate::fix::SessionRequestType;
use crate::fix::spec_is_session_level;
use crate::fix::spec_msg_type_bytes;
use crate::fix::spec_msg_type_of;
use crate::util::FixFrame;
use crate::util::FixMessageWriter;
use crate::util::FrameV;
use crate::util::dec_value;
use crate::util::encode_msg;
use crate::util::events_of_frame;
use crate::util::message_events;
use crate::util::fields_view;
use crate::util::find_tag_value;
use crate::util::is_u32_digits;
use crate::util::lemma_parse_frame_consumed_bounds;
use crate::util::parse_fix_frame;
use crate::util::parse_u32_digits;
use crate::util::spec_parse_frame;
use crate::util::bytes_eq;
use crate::util::get_tag_value_of;

verus! {

/// Which side of the session this connection plays.
#[derive(Debug, Clone, Copy, PartialEq, Eq, Structural)]
pub enum ConnectionType {
    /// Opens the transport and sends the first Logon.
    Initiator,
    /// Waits for the peer to open the transport and log on.
    Acceptor,
}

/// The successor of a sequence number, wrapping at the 32-bit boundary.
pub open spec fn wrap_inc(n: u32) -> u32 {
    if n == u32::MAX {
        0u32
    } else {
        (n + 1) as u32
    }
}

/// Where a SeqReset moves the expected incoming sequence number: to the
/// value of tag 36, when that is a plain 32-bit decimal; otherwise it is
/// left alone.
pub open spec fn seq_reset_target(fields: Seq<(u32, Seq<u8>)>, cur: u32) -> u32 {
    match find_tag_value(fields, 36) {
        Option::None => cur,
        Option::Some(v) => if is_u32_digits(v) {
            dec_value(v) as u32
        } else {
            cur
        },
    }
}

/// The heartbeat interval after a Logon: the value of tag 108 when it is a
/// plain 32-bit decimal, and the old one otherwise.
pub open spec fn heartbeat_after(fields: Seq<(u32, Seq<u8>)>, cur: Option<u32>) -> Option<u32> {
    match find_tag_value(fields, 108) {
        Option::None => cur,
        Option::Some(v) => if is_u32_digits(v) {
            Some(dec_value(v) as u32)
        } else {
            cur
        },
    }
}

/// Whether a session-level message surfaces a request to the application,
/// and which: Logon and Logout surface themselves; a TestRequest surfaces
/// the TestReqID (tag 112) for the application to echo; the rest are
/// handled wholly inside the engine.
pub open spec fn surfaced_request_matches(
    r: Option<SessionRequest>,
    mt: MsgTypeV,
    fields: Seq<(u32, Seq<u8>)>,
) -> bool {
    match mt {
        MsgTypeV::Logon => r == Some(SessionRequest::In(SessionRequestType::Logon(None))),
        MsgTypeV::Logout => r == Some(SessionRequest::In(SessionRequestType::Logout(None))),
        MsgTypeV::TestRequest => match find_tag_value(fields, 112) {
            Option::None => r == Some(
                SessionRequest::In(SessionRequestType::TestRequest(None)),
            ),
            Option::Some(v) => {
                &&& r is Some
                &&& r->0 is In
                &&& r->0->In_0 is TestRequest
                &&& r->0->In_0->TestRequest_0 is Some
                &&& (r->0->In_0->TestRequest_0->0)@ == v
            },
        },
        _ => r is None,
    }
}

/// How the request history of the application grows when one session
/// message is read: by the surfaced request, if the message surfaces one.
pub open spec fn requests_after(
    old_rs: Seq<SessionRequest>,
    new_rs: Seq<SessionRequest>,
    mt: MsgTypeV,
    fields: Seq<(u32, Seq<u8>)>,
) -> bool {
    if mt is Logon || mt is Logout || mt is TestRequest {
        &&& new_rs.len() == old_rs.len() + 1
        &&& new_rs.drop_last() == old_rs
        &&& surfaced_request_matches(Some(new_rs.last()), mt, fields)
    } else {
        new_rs == old_rs
    }
}

/// A FIX session over a byte transport: the connection owns the transport
/// and the writer outright; the driver calls its methods.
pub struct FixConnection<T: FixTransport> {
    /// The byte stream to the peer.
    pub transport: T,
    /// Incoming direction of the session.
    pub in_state: FixInState,
    /// Outgoing direction of the session.
    pub out_state: FixOutState,
    /// Which side this connection plays.
    pub conn_type: ConnectionType,
    /// The next incoming message number to accept.
    pub next_in_seq: u32,
    /// The next outgoing message number to emit.
    pub next_out_seq: u32,
    /// Builds outgoing frames.
    pub fix_writer: FixMessageWriter,
    /// The BeginString this session requires of the peer's Logon.
    pub begin_string: Vec<u8>,
    /// The heartbeat interval negotiated at Logon (tag 108, in seconds).
    pub heartbeat_interval: Option<u32>,
}

impl<T: FixTransport> FixConnection<T> {
    /// The connection's invariant: its writer buffer is consistent.
    pub open spec fn wf(&self) -> bool {
        self.fix_writer.wf()
    }

    /// Everything the writer and transport have emitted, in order: what the
    /// transport accepted followed by what still waits in the writer.
    pub open spec fn out_total(&self) -> Seq<u8> {
        self.transport.outbound() + self.fix_writer.pending()
    }

    /// A connection on a fresh transport: both directions disconnected,
    /// sequence numbers at zero, nothing pending.
    pub fn new(version: Vec<u8>, transport: T, conn_type: ConnectionType) -> (r:
        FixConnection<T>)
        ensures
            r.wf(),
            r.in_state == FixInState::Disconnected,
            r.out_state == FixOutState::Disconnected,
            r.conn_type == conn_type,
            r.next_in_seq == 0,
            r.next_out_seq == 0,
            r.begin_string@ == version@,
            r.heartbeat_interval is None,
            r.transport == transport,
            !r.fix_writer.is_building(),
            r.fix_writer.pending() == Seq::<u8>::empty(),
    {
        FixConnection {
            transport,
            in_state: FixInState::Disconnected,
            out_state: FixOutState::Disconnected,
            conn_type,
            next_in_seq: 0,
            next_out_seq: 0,
            fix_writer: FixMessageWriter::new(),
            begin_string: version,
            heartbeat_interval: None,
        }
    }

    /// Start the session for this side's role. The initiator moves its
    /// outgoing direction to Logon and asks the application to populate the
    /// Logon message; the acceptor starts waiting for the peer's Logon. The
    /// driver opens the transport itself.
    pub fn connect<L: FixApplication>(&mut self, app: &mut L)
        requires
            old(self).wf(),
        ensures
            final(self).wf(),
            final(self).transport == old(self).transport,
            final(self).fix_writer == old(self).fix_writer,
            final(self).conn_type == old(self).conn_type,
            final(self).next_in_seq == old(self).next_in_seq,
            final(self).next_out_seq == old(self).next_out_seq,
            final(self).begin_string@ == old(self).begin_string@,
            final(self).heartbeat_interval == old(self).heartbeat_interval,
            final(app).events() == old(app).events(),
            final(app).errors() == old(app).errors(),
            match old(self).conn_type {
                ConnectionType::Initiator => {
                    &&& final(self).in_state == FixInState::Disconnected
                    &&& final(self).out_state == FixOutState::Logon
                    &&& final(app).requests() == old(app).requests().push(
                        SessionRequest::Out(SessionRequestType::Logon(None)),
                    )
                },
                ConnectionType::Acceptor => {
                    &&& final(self).in_state == FixInState::Logon
                    &&& final(self).out_state == FixOutState::Disconnected
                    &&& final(app).requests() == old(app).requests()
                },
            },
    {
        match self.conn_type {
            ConnectionType::Initiator => {
                self.in_state = FixInState::Disconnected;
                self.out_state = FixOutState::Logon;
                app.on_request(SessionRequest::Out(SessionRequestType::Logon(None)));
            },
            ConnectionType::Acceptor => {
                self.in_state = FixInState::Logon;
                self.out_state = FixOutState::Disconnected;
            },
        }
    }

    /// Wind the session down: if the incoming direction is still alive,
    /// disconnect it, move the outgoing direction to Logout, and ask the
    /// application to populate the Logout message.
    pub fn end_session<L: FixApplication>(&mut self, app: &mut L)
        requires
            old(self).wf(),
        ensures
            final(self).wf(),
            final(self).transport == old(self).transport,
            final(self).fix_writer == old(self).fix_writer,
            final(self).conn_type == old(self).conn_type,
            final(self).next_in_seq == old(self).next_in_seq,
            final(self).next_out_seq == old(self).next_out_seq,
            final(self).begin_string@ == old(self).begin_string@,
            final(self).heartbeat_interval == old(self).heartbeat_interval,
            final(app).events() == old(app).events(),
            final(app).errors() == old(app).errors(),
            if old(self).in_state == FixInState::Disconnected {
                &&& final(self).in_state == old(self).in_state
                &&& final(self).out_state == old(self).out_state
                &&& final(app).requests() == old(app).requests()
            } else {
                &&& final(self).in_state == FixInState::Disconnected
                &&& final(self).out_state == FixOutState::Logout
                &&& final(app).requests() == old(app).requests().push(
                    SessionRequest::In(SessionRequestType::Logout(None)),
                )
            },
    {
        match self.in_state {
            FixInState::Disconnected => {},
            _ => {
                self.in_state = FixInState::Disconnected;
                self.out_state = FixOutState::Logout;
                app.on_request(SessionRequest::In(SessionRequestType::Logout(None)));
            },
        }
    }

    /// Administrative override of the expected incoming sequence number.
    pub fn force_expected_incoming_seq(&mut self, seq: u32)
        ensures
            final(self).next_in_seq == seq,
            final(self).in_state == old(self).in_state,
            final(self).out_state == old(self).out_state,
            final(self).transport == old(self).transport,
            final(self).fix_writer == old(self).fix_writer,
            final(self).conn_type == old(self).conn_type,
            final(self).next_out_seq == old(self).next_out_seq,
            final(self).begin_string@ == old(self).begin_string@,
            final(self).heartbeat_interval == old(self).heartbeat_interval,
    {
        self.next_in_seq = seq;
    }

    /// The expected incoming sequence number.
    pub fn get_expected_incoming_seq(&mut self) -> (r: u32)
        ensures
            r == old(self).next_in_seq,
            *final(self) == *old(self),
    {
        self.next_in_seq
    }
}

/// Replay a parsed message to the application's incoming stream: start,
/// each body field in order, then done with the checksum verdict.
fn replay_to_app<L: FixApplication>(frame: &FixFrame, app: &mut L)
    ensures
        final(app).events() == old(app).events() + events_of_frame(*frame),
        final(app).requests() == old(app).requests(),
        final(app).errors() == old(app).errors(),
{
    let ghost base = app.events();
    let mt = FixMsgType::from_bytes(frame.msg_type.as_slice());
    app.fix_message_start(mt, true);
    let mut i: usize = 0;
    proof {
        assert(crate::util::tag_events(fields_view(frame.fields@).take(0)) =~= Seq::<
            FixEvent,
        >::empty());
        assert(app.events() =~= base + seq![
            FixEvent::Start(spec_msg_type_of(frame.msg_type@), true),
        ] + crate::util::tag_events(fields_view(frame.fields@).take(0)));
    }
    while i < frame.fields.len()
        invariant
            i <= frame.fields.len(),
            app.events() == base + seq![
                FixEvent::Start(spec_msg_type_of(frame.msg_type@), true),
            ] + crate::util::tag_events(fields_view(frame.fields@).take(i as int)),
            app.requests() == old(app).requests(),
            app.errors() == old(app).errors(),
        decreases frame.fields.len() - i,
    {
        let p = vstd::std_specs::vec::vec_index(&frame.fields, i);
        app.tag_value(p.0, p.1.as_slice());
        i = i + 1;
        proof {
            assert(crate::util::tag_events(fields_view(frame.fields@).take(i as int))
                =~= crate::util::tag_events(fields_view(frame.fields@).take(i - 1)).push(
                FixEvent::Tag(frame.fields@[i - 1].0, frame.fields@[i - 1].1@),
            ));
        }
    }
    if frame.checksum_ok {
        app.fix_message_done(Ok(()));
    } else {
        app.fix_message_done(Err("checksum mismatch".to_owned()));
    }
    proof {
        assert(fields_view(frame.fields@).take(frame.fields@.len() as int) =~= fields_view(
            frame.fields@,
        ));
        assert(app.events() =~= base + events_of_frame(*frame));
    }
}

impl<T: FixTransport> FixConnection<T> {
    /// Parse at most one message out of the transport's view without
    /// consuming it: route an application-level message to the
    /// application's stream and count it; handle a session-level message in
    /// the engine, returning the request it surfaces. A parse failure, a
    /// wrong checksum, or a Logon whose BeginString is not the configured
    /// one is fatal: both directions disconnect.
    pub fn _read_message<L: FixApplication>(&mut self, app: &mut L) -> (r: Result<
        Option<(usize, Option<SessionRequest>)>,
        FixStreamException,
    >)
        requires
            old(self).wf(),
            old(self).transport.inbound().len() <= crate::util::SUM_LEN_LIMIT,
        ensures
            final(self).wf(),
            final(self).transport == old(self).transport,
            final(self).fix_writer == old(self).fix_writer,
            final(self).conn_type == old(self).conn_type,
            final(self).next_out_seq == old(self).next_out_seq,
            final(self).begin_string@ == old(self).begin_string@,
            final(self).heartbeat_interval == (match spec_parse_frame(
                old(self).transport.inbound(),
            ) {
                FrameV::Complete { begin, msg_type, fields, ok, .. } => {
                    if ok && spec_msg_type_of(msg_type) is Logon && begin == old(
                        self,
                    ).begin_string@ {
                        heartbeat_after(fields, old(self).heartbeat_interval)
                    } else {
                        old(self).heartbeat_interval
                    }
                },
                _ => old(self).heartbeat_interval,
            }),
            final(app).errors() == old(app).errors(),
            match spec_parse_frame(old(self).transport.inbound()) {
                FrameV::Incomplete => {
                    &&& r is Ok
                    &&& r->Ok_0 is None
                    &&& *final(self) == *old(self)
                    &&& final(app).events() == old(app).events()
                    &&& final(app).requests() == old(app).requests()
                },
                FrameV::Misplaced => {
                    &&& r is Err
                    &&& final(self).in_state == FixInState::Disconnected
                    &&& final(self).out_state == FixOutState::Disconnected
                    &&& final(self).next_in_seq == old(self).next_in_seq
                    &&& final(app).events() == old(app).events()
                    &&& final(app).requests() == old(app).requests()
                },
                FrameV::BadTag => {
                    &&& r is Err
                    &&& final(self).in_state == FixInState::Disconnected
                    &&& final(self).out_state == FixOutState::Disconnected
                    &&& final(self).next_in_seq == old(self).next_in_seq
                    &&& final(app).events() == old(app).events()
                    &&& final(app).requests() == old(app).requests()
                },
                FrameV::Complete { consumed, begin, msg_type, fields, ok, .. } => {
                    let mt = spec_msg_type_of(msg_type);
                    &&& final(app).requests() == old(app).requests()
                    &&& if !ok {
                        &&& r is Err
                        &&& final(self).in_state == FixInState::Disconnected
                        &&& final(self).out_state == FixOutState::Disconnected
                        &&& final(self).next_in_seq == old(self).next_in_seq
                        &&& final(app).events() == (if spec_is_session_level(mt) {
                            old(app).events()
                        } else {
                            old(app).events() + message_events(msg_type, fields, false)
                        })
                    } else if spec_is_session_level(mt) {
                        &&& final(app).events() == old(app).events()
                        &&& if mt is Logon && begin != old(self).begin_string@ {
                            &&& r is Err
                            &&& final(self).in_state == FixInState::Disconnected
                            &&& final(self).out_state == FixOutState::Disconnected
                            &&& final(self).next_in_seq == old(self).next_in_seq
                        } else {
                            &&& r is Ok
                            &&& r->Ok_0 is Some
                            &&& (r->Ok_0->0).0 == consumed
                            &&& surfaced_request_matches((r->Ok_0->0).1, mt, fields)
                            &&& match mt {
                                MsgTypeV::Logon => final(self).in_state
                                    == FixInState::Connected && final(self).out_state
                                    == FixOutState::Connected,
                                MsgTypeV::Logout => final(self).in_state
                                    == FixInState::Disconnected && final(self).out_state
                                    == FixOutState::Disconnected,
                                _ => final(self).in_state == old(self).in_state
                                    && final(self).out_state == old(self).out_state,
                            }
                            &&& final(self).next_in_seq == (if mt is SeqReset {
                                seq_reset_target(fields, old(self).next_in_seq)
                            } else {
                                old(self).next_in_seq
                            })
                        }
                    } else {
                        &&& r is Ok
                        &&& r->Ok_0 is Some
                        &&& (r->Ok_0->0).0 == consumed
                        &&& (r->Ok_0->0).1 is None
                        &&& final(app).events() == old(app).events() + message_events(
                            msg_type,
                            fields,
                            true,
                        )
                        &&& final(self).next_in_seq == wrap_inc(old(self).next_in_seq)
                        &&& final(self).in_state == old(self).in_state
                        &&& final(self).out_state == old(self).out_state
                    }
                },
            },
    {
        let frame = match parse_fix_frame(self.transport.view()) {
            Err(e) => {
                self.in_state = FixInState::Disconnected;
                self.out_state = FixOutState::Disconnected;
                return Err(e);
            },
            Ok(None) => {
                return Ok(None);
            },
            Ok(Some(f)) => f,
        };
        let mt = FixMsgType::from_bytes(frame.msg_type.as_slice());
        if !frame.checksum_ok {
            if !FixMsgType::is_session_level(&mt) {
                replay_to_app(&frame, app);
            }
            self.in_state = FixInState::Disconnected;
            self.out_state = FixOutState::Disconnected;
            return Err("checksum mismatch".to_owned());
        }
        if FixMsgType::is_session_level(&mt) {
            let req: Option<SessionRequest> = match mt {
                FixMsgType::Logon => {
                    if !bytes_eq(frame.begin_string.as_slice(), self.begin_string.as_slice()) {
                        self.in_state = FixInState::Disconnected;
                        self.out_state = FixOutState::Disconnected;
                        return Err("logon with wrong BeginString".to_owned());
                    }
                    self.in_state = FixInState::Connected;
                    self.out_state = FixOutState::Connected;
                    match get_tag_value_of(&frame.fields, 108) {
                        Some(v) => {
                            match parse_u32_digits(v.as_slice()) {
                                Some(n) => {
                                    self.heartbeat_interval = Some(n);
                                },
                                None => {},
                            }
                        },
                        None => {},
                    }
                    Some(SessionRequest::In(SessionRequestType::Logon(None)))
                },
                FixMsgType::Logout => {
                    self.in_state = FixInState::Disconnected;
                    self.out_state = FixOutState::Disconnected;
                    Some(SessionRequest::In(SessionRequestType::Logout(None)))
                },
                FixMsgType::SeqReset => {
                    match get_tag_value_of(&frame.fields, 36) {
                        Some(v) => {
                            match parse_u32_digits(v.as_slice()) {
                                Some(n) => {
                                    self.next_in_seq = n;
                                },
                                None => {},
                            }
                        },
                        None => {},
                    }
                    None
                },
                FixMsgType::Heartbeat => None,
                FixMsgType::TestRequest => {
                    let id = get_tag_value_of(&frame.fields, 112);
                    Some(SessionRequest::In(SessionRequestType::TestRequest(id)))
                },
                FixMsgType::ResendRequest => None,
                FixMsgType::AppCustom(_) => None,
                FixMsgType::Unknown(_) => None,
            };
            Ok(Some((frame.consumed, req)))
        } else {
            replay_to_app(&frame, app);
            if self.next_in_seq == u32::MAX {
                self.next_in_seq = 0;
            } else {
                self.next_in_seq = self.next_in_seq + 1;
            }
            Ok(Some((frame.consumed, None)))
        }
    }
}

/// What one call of `read_message` leaves behind, as a relation between the
/// connection and application before and after the call. One complete,
/// checksum-correct message is consumed from the transport; a session-level
/// message is handled in the engine and surfaces at most one request, while
/// an application-level message streams whole to the application's sink and
/// advances the expected incoming sequence number by exactly one.
pub open spec fn read_post<T: FixTransport>(
    pre: FixConnection<T>,
    post: FixConnection<T>,
    pre_ev: Seq<FixEvent>,
    post_ev: Seq<FixEvent>,
    pre_rq: Seq<SessionRequest>,
    post_rq: Seq<SessionRequest>,
    pre_er: Seq<FixStreamException>,
    post_er: Seq<FixStreamException>,
) -> bool {
    &&& post.fix_writer == pre.fix_writer
    &&& post.conn_type == pre.conn_type
    &&& post.next_out_seq == pre.next_out_seq
    &&& post.begin_string@ == pre.begin_string@
    &&& post.transport.outbound() == pre.transport.outbound()
    &&& post.heartbeat_interval == (match spec_parse_frame(pre.transport.inbound()) {
        FrameV::Complete { begin, msg_type, fields, ok, .. } => {
            if ok && spec_msg_type_of(msg_type) is Logon && begin == pre.begin_string@ {
                heartbeat_after(fields, pre.heartbeat_interval)
            } else {
                pre.heartbeat_interval
            }
        },
        _ => pre.heartbeat_interval,
    })
    &&& match spec_parse_frame(pre.transport.inbound()) {
        FrameV::Incomplete => {
            &&& post == pre
            &&& post_ev == pre_ev
            &&& post_rq == pre_rq
            &&& post_er == pre_er
        },
        FrameV::Misplaced => {
            &&& post.in_state == FixInState::Disconnected
            &&& post.out_state == FixOutState::Disconnected
            &&& post.next_in_seq == pre.next_in_seq
            &&& post.transport.inbound() == pre.transport.inbound()
            &&& post_ev == pre_ev
            &&& post_rq == pre_rq
            &&& post_er.len() == pre_er.len() + 1
            &&& post_er.drop_last() == pre_er
        },
        FrameV::BadTag => {
            &&& post.in_state == FixInState::Disconnected
            &&& post.out_state == FixOutState::Disconnected
            &&& post.next_in_seq == pre.next_in_seq
            &&& post.transport.inbound() == pre.transport.inbound()
            &&& post_ev == pre_ev
            &&& post_rq == pre_rq
            &&& post_er.len() == pre_er.len() + 1
            &&& post_er.drop_last() == pre_er
        },
        FrameV::Complete { consumed, begin, msg_type, fields, ok, .. } => {
            let mt = spec_msg_type_of(msg_type);
            if !ok {
                &&& post.in_state == FixInState::Disconnected
                &&& post.out_state == FixOutState::Disconnected
                &&& post.next_in_seq == pre.next_in_seq
                &&& post.transport.inbound() == pre.transport.inbound()
                &&& post_ev == (if spec_is_session_level(mt) {
                    pre_ev
                } else {
                    pre_ev + message_events(msg_type, fields, false)
                })
                &&& post_rq == pre_rq
                &&& post_er.len() == pre_er.len() + 1
                &&& post_er.drop_last() == pre_er
            } else if spec_is_session_level(mt) {
                &&& post_ev == pre_ev
                &&& if mt is Logon && begin != pre.begin_string@ {
                    &&& post.in_state == FixInState::Disconnected
                    &&& post.out_state == FixOutState::Disconnected
                    &&& post.next_in_seq == pre.next_in_seq
                    &&& post.transport.inbound() == pre.transport.inbound()
                    &&& post_rq == pre_rq
                    &&& post_er.len() == pre_er.len() + 1
                    &&& post_er.drop_last() == pre_er
                } else {
                    &&& post.transport.inbound() == pre.transport.inbound().skip(consumed)
                    &&& requests_after(pre_rq, post_rq, mt, fields)
                    &&& post_er == pre_er
                    &&& match mt {
                        MsgTypeV::Logon => post.in_state == FixInState::Connected
                            && post.out_state == FixOutState::Connected,
                        MsgTypeV::Logout => post.in_state == FixInState::Disconnected
                            && post.out_state == FixOutState::Disconnected,
                        _ => post.in_state == pre.in_state && post.out_state
                            == pre.out_state,
                    }
                    &&& post.next_in_seq == (if mt is SeqReset {
                        seq_reset_target(fields, pre.next_in_seq)
                    } else {
                        pre.next_in_seq
                    })
                }
            } else {
                &&& post.transport.inbound() == pre.transport.inbound().skip(consumed)
                &&& post_ev == pre_ev + message_events(msg_type, fields, true)
                &&& post_rq == pre_rq
                &&& post_er == pre_er
                &&& post.next_in_seq == wrap_inc(pre.next_in_seq)
                &&& post.in_state == pre.in_state
                &&& post.out_state == pre.out_state
            }
        },
    }
}

impl<T: FixTransport> FixConnection<T> {
    /// Read at most one message out of the transport: parse it, consume its
    /// bytes, route it, and surface any session request to the application.
    /// An incomplete buffer leaves everything untouched for a retry once
    /// more bytes arrive.
    pub fn read_message<L: FixApplication>(&mut self, app: &mut L)
        requires
            old(self).wf(),
            old(self).transport.inbound().len() <= crate::util::SUM_LEN_LIMIT,
        ensures
            final(self).wf(),
            read_post(
                *old(self),
                *final(self),
                old(app).events(),
                final(app).events(),
                old(app).requests(),
                final(app).requests(),
                old(app).errors(),
                final(app).errors(),
            ),
    {
        let ghost pre_inbound = self.transport.inbound();
        match self._read_message(app) {
            Ok(Some((n, req))) => {
                proof {
                    lemma_parse_frame_consumed_bounds(pre_inbound);
                }
                self.transport.consume(n);
                match req {
                    Some(rq) => {
                        let ghost pre_rq = app.requests();
                        app.on_request(rq);
                        proof {
                            assert(app.requests().drop_last() =~= pre_rq);
                        }
                    },
                    None => {},
                }
            },
            Ok(None) => {},
            Err(e) => {
                let ghost pre_er = app.errors();
                app.error(e);
                proof {
                    assert(app.errors().drop_last() =~= pre_er);
                }
            },
        }
    }

    /// Read one message, as `read_message`; the name the input-channel side
    /// of the connection is known by.
    pub fn read_fix_message<L: FixApplication>(&mut self, app: &mut L)
        requires
            old(self).wf(),
            old(self).transport.inbound().len() <= crate::util::SUM_LEN_LIMIT,
        ensures
            final(self).wf(),
            read_post(
                *old(self),
                *final(self),
                old(app).events(),
                final(app).events(),
                old(app).requests(),
                final(app).requests(),
                old(app).errors(),
                final(app).errors(),
            ),
    {
        self.read_message(app)
    }

    /// Push as much of the writer's pending bytes as the transport accepts.
    fn flush_out(&mut self)
        requires
            old(self).wf(),
        ensures
            final(self).wf(),
            final(self).out_total() == old(self).out_total(),
            final(self).transport.inbound() == old(self).transport.inbound(),
            final(self).in_state == old(self).in_state,
            final(self).out_state == old(self).out_state,
            final(self).conn_type == old(self).conn_type,
            final(self).next_in_seq == old(self).next_in_seq,
            final(self).next_out_seq == old(self).next_out_seq,
            final(self).begin_string@ == old(self).begin_string@,
            final(self).heartbeat_interval == old(self).heartbeat_interval,
            final(self).fix_writer.is_building() == old(self).fix_writer.is_building(),
            final(self).fix_writer.cur_msg_type() == old(self).fix_writer.cur_msg_type(),
            final(self).fix_writer.cur_field_list() == old(self).fix_writer.cur_field_list(),
    {
        let b = self.fix_writer.get_bytes();
        let n = self.transport.write(b);
        let ghost pending = self.fix_writer.pending();
        self.fix_writer.drain_head(n);
        proof {
            assert(pending.take(n as int) + pending.skip(n as int) =~= pending);
            assert(final(self).out_total() =~= old(self).out_total());
        }
    }

    /// Open an outgoing message of the given type in the writer.
    pub fn fix_message_start(&mut self, msg_type: FixMsgType, is_replayable: bool)
        requires
            old(self).wf(),
            spec_msg_type_bytes(msg_type@).len() < crate::util::SUM_LEN_LIMIT,
        ensures
            final(self).wf(),
            final(self).fix_writer.is_building(),
            final(self).fix_writer.cur_msg_type() == spec_msg_type_bytes(msg_type@),
            final(self).fix_writer.cur_field_list() == Seq::<(u32, Seq<u8>)>::empty(),
            final(self).fix_writer.pending() == old(self).fix_writer.pending(),
            final(self).transport == old(self).transport,
            final(self).in_state == old(self).in_state,
            final(self).out_state == old(self).out_state,
            final(self).conn_type == old(self).conn_type,
            final(self).next_in_seq == old(self).next_in_seq,
            final(self).next_out_seq == old(self).next_out_seq,
            final(self).begin_string@ == old(self).begin_string@,
            final(self).heartbeat_interval == old(self).heartbeat_interval,
    {
        self.fix_writer.fix_message_start(msg_type, is_replayable);
    }

    /// Append one body field to the open outgoing message.
    pub fn tag_value(&mut self, t: u32, v: &[u8])
        requires
            old(self).wf(),
            old(self).fix_writer.is_building(),
            v@.len() < crate::util::SUM_LEN_LIMIT,
        ensures
            final(self).wf(),
            final(self).fix_writer.is_building(),
            final(self).fix_writer.cur_msg_type() == old(self).fix_writer.cur_msg_type(),
            final(self).fix_writer.cur_field_list() == old(
                self,
            ).fix_writer.cur_field_list().push((t, v@)),
            final(self).fix_writer.pending() == old(self).fix_writer.pending(),
            final(self).transport == old(self).transport,
            final(self).in_state == old(self).in_state,
            final(self).out_state == old(self).out_state,
            final(self).conn_type == old(self).conn_type,
            final(self).next_in_seq == old(self).next_in_seq,
            final(self).next_out_seq == old(self).next_out_seq,
            final(self).begin_string@ == old(self).begin_string@,
            final(self).heartbeat_interval == old(self).heartbeat_interval,
    {
        self.fix_writer.tag_value(t, v);
    }

    /// Close the open outgoing message: frame it with BodyLength and
    /// CheckSum, flush what the transport accepts, and count it against the
    /// outgoing sequence.
    pub fn fix_message_done(&mut self, res: Result<(), FixStreamException>)
        requires
            old(self).wf(),
            old(self).fix_writer.is_building(),
        ensures
            final(self).wf(),
            !final(self).fix_writer.is_building(),
            final(self).out_total() == old(self).out_total() + encode_msg(
                old(self).fix_writer.cur_msg_type(),
                old(self).fix_writer.cur_field_list(),
            ),
            final(self).next_out_seq == wrap_inc(old(self).next_out_seq),
            final(self).transport.inbound() == old(self).transport.inbound(),
            final(self).in_state == old(self).in_state,
            final(self).out_state == old(self).out_state,
            final(self).conn_type == old(self).conn_type,
            final(self).next_in_seq == old(self).next_in_seq,
            final(self).begin_string@ == old(self).begin_string@,
            final(self).heartbeat_interval == old(self).heartbeat_interval,
    {
        self.fix_writer.fix_message_done(res);
        self.flush_out();
        if self.next_out_seq == u32::MAX {
            self.next_out_seq = 0;
        } else {
            self.next_out_seq = self.next_out_seq + 1;
        }
    }

    /// The application finished populating a requested session message:
    /// flush the writer and advance the outgoing state machine for the
    /// request that completed.
    pub fn request_done(&mut self, r: SessionRequest)
        requires
            old(self).wf(),
        ensures
            final(self).wf(),
            final(self).out_total() == old(self).out_total(),
            final(self).transport.inbound() == old(self).transport.inbound(),
            final(self).in_state == old(self).in_state,
            final(self).conn_type == old(self).conn_type,
            final(self).next_in_seq == old(self).next_in_seq,
            final(self).next_out_seq == old(self).next_out_seq,
            final(self).begin_string@ == old(self).begin_string@,
            final(self).heartbeat_interval == old(self).heartbeat_interval,
            final(self).out_state == (match r {
                SessionRequest::In(SessionRequestType::Logon(_)) => FixOutState::Connected,
                SessionRequest::Out(SessionRequestType::Logon(_)) => FixOutState::Connected,
                SessionRequest::In(SessionRequestType::Logout(_)) => FixOutState::Disconnected,
                SessionRequest::Out(
                    SessionRequestType::Logout(_),
                ) => FixOutState::Disconnected,
                _ => old(self).out_state,
            }),
    {
        self.flush_out();
        match r {
            SessionRequest::In(SessionRequestType::Logon(_)) => {
                self.out_state = FixOutState::Connected;
            },
            SessionRequest::Out(SessionRequestType::Logon(_)) => {
                self.out_state = FixOutState::Connected;
            },
            SessionRequest::In(SessionRequestType::Logout(_)) => {
                self.out_state = FixOutState::Disconnected;
            },
            SessionRequest::Out(SessionRequestType::Logout(_)) => {
                self.out_state = FixOutState::Disconnected;
            },
            _ => {},
        }
    }

    /// The writer that builds this connection's outgoing messages.
    pub fn get_out_stream(&mut self) -> (r: &mut FixMessageWriter)
        ensures
            *r == old(self).fix_writer,
            final(self).fix_writer == *final(r),
            final(self).transport == old(self).transport,
            final(self).in_state == old(self).in_state,
            final(self).out_state == old(self).out_state,
            final(self).conn_type == old(self).conn_type,
            final(self).next_in_seq == old(self).next_in_seq,
            final(self).next_out_seq == old(self).next_out_seq,
            final(self).begin_string@ == old(self).begin_string@,
            final(self).heartbeat_interval == old(self).heartbeat_interval,
    {
        &mut self.fix_writer
    }

    /// Emit one TestRequest message carrying the given TestReqID (tag 112),
    /// and flush it.
    pub fn send_test_request(&mut self, test_req_id: Vec<u8>)
        requires
            old(self).wf(),
            test_req_id@.len() < crate::util::SUM_LEN_LIMIT,
        ensures
            final(self).wf(),
            !final(self).fix_writer.is_building(),
            final(self).out_total() == old(self).out_total() + encode_msg(
                seq![49u8],
                seq![(112u32, test_req_id@)],
            ),
            final(self).next_out_seq == wrap_inc(old(self).next_out_seq),
            final(self).transport.inbound() == old(self).transport.inbound(),
            final(self).in_state == old(self).in_state,
            final(self).out_state == old(self).out_state,
            final(self).conn_type == old(self).conn_type,
            final(self).next_in_seq == old(self).next_in_seq,
            final(self).begin_string@ == old(self).begin_string@,
            final(self).heartbeat_interval == old(self).heartbeat_interval,
    {
        self.fix_message_start(FixMsgType::TestRequest, false);
        self.tag_value(112, test_req_id.as_slice());
        proof {
            assert(Seq::<(u32, Seq<u8>)>::empty().push((112u32, test_req_id@)) =~= seq![
                (112u32, test_req_id@),
            ]);
        }
        self.fix_message_done(Ok(()));
    }

    /// One heartbeat-interval tick: if nothing was read from the peer for
    /// two whole intervals, probe it with a TestRequest carrying the given
    /// id; otherwise, if nothing was written since the last tick, keep the
    /// session alive with a Heartbeat; otherwise do nothing.
    pub fn on_timer_tick(
        &mut self,
        wrote_since_last_tick: bool,
        quiet_for_two_intervals: bool,
        test_req_id: Vec<u8>,
    )
        requires
            old(self).wf(),
            test_req_id@.len() < crate::util::SUM_LEN_LIMIT,
        ensures
            final(self).wf(),
            final(self).out_total() == old(self).out_total() + (if quiet_for_two_intervals {
                encode_msg(seq![49u8], seq![(112u32, test_req_id@)])
            } else if !wrote_since_last_tick {
                encode_msg(seq![48u8], Seq::<(u32, Seq<u8>)>::empty())
            } else {
                Seq::<u8>::empty()
            }),
            final(self).next_out_seq == (if quiet_for_two_intervals || !wrote_since_last_tick {
                wrap_inc(old(self).next_out_seq)
            } else {
                old(self).next_out_seq
            }),
            final(self).transport.inbound() == old(self).transport.inbound(),
            final(self).in_state == old(self).in_state,
            final(self).out_state == old(self).out_state,
            final(self).conn_type == old(self).conn_type,
            final(self).next_in_seq == old(self).next_in_seq,
            final(self).begin_string@ == old(self).begin_string@,
            final(self).heartbeat_interval == old(self).heartbeat_interval,
    {
        if quiet_for_two_intervals {
            self.send_test_request(test_req_id);
        } else if !wrote_since_last_tick {
            self.send_heartbeat(None);
        } else {
            proof {
                assert(old(self).out_total() + Seq::<u8>::empty() =~= old(self).out_total());
            }
        }
    }

    /// Emit one Heartbeat message, echoing a TestReqID (tag 112) when one
    /// is given, and flush it.
    pub fn send_heartbeat(&mut self, test_req_id: Option<Vec<u8>>)
        requires
            old(self).wf(),
            (test_req_id matches Some(v) ==> v@.len() < crate::util::SUM_LEN_LIMIT),
        ensures
            final(self).wf(),
            !final(self).fix_writer.is_building(),
            final(self).out_total() == old(self).out_total() + encode_msg(
                seq![48u8],
                match test_req_id {
                    Option::None => Seq::<(u32, Seq<u8>)>::empty(),
                    Option::Some(v) => seq![(112u32, v@)],
                },
            ),
            final(self).next_out_seq == wrap_inc(old(self).next_out_seq),
            final(self).transport.inbound() == old(self).transport.inbound(),
            final(self).in_state == old(self).in_state,
            final(self).out_state == old(self).out_state,
            final(self).conn_type == old(self).conn_type,
            final(self).next_in_seq == old(self).next_in_seq,
            final(self).begin_string@ == old(self).begin_string@,
            final(self).heartbeat_interval == old(self).heartbeat_interval,
    {
        self.fix_message_start(FixMsgType::Heartbeat, false);
        match &test_req_id {
            Some(v) => {
                self.tag_value(112, v.as_slice());
                proof {
                    assert(Seq::<(u32, Seq<u8>)>::empty().push((112u32, v@)) =~= seq![
                        (112u32, v@),
                    ]);
                }
            },
            None => {},
        }
        self.fix_message_done(Ok(()));
    }
}

/// A sink that records nothing and drops every callback; its ghost history
/// still observes them, so it satisfies the stream contract.
pub struct NullFixMessage {
    /// The callbacks observed, as ghost history only.
    pub history: Ghost<Seq<FixEvent>>,
}

impl NullFixMessage {
    /// A fresh sink with an empty history.
    pub fn new() -> (r: NullFixMessage)
        ensures
            r.events() == Seq::<FixEvent>::empty(),
    {
        NullFixMessage { history: Ghost(Seq::empty()) }
    }
}

impl FixTagHandler for NullFixMessage {
    open spec fn events(&self) -> Seq<FixEvent> {
        self.history@
    }

    fn tag_value(&mut self, t: u32, v: &[u8]) {
        self.history = Ghost(self.history@.push(FixEvent::Tag(t, v@)));
    }
}

impl FixStream for NullFixMessage {
    fn fix_message_start(&mut self, msg_type: FixMsgType, is_replayable: bool) {
        self.history = Ghost(self.history@.push(FixEvent::Start(msg_type@, is_replayable)));
    }

    fn fix_message_done(&mut self, res: Result<(), FixStreamException>) {
        self.history = Ghost(self.history@.push(FixEvent::Done(res is Ok)));
    }
}

/// Session/application routing: across one read of a complete message, a
/// message-start callback reaches the application's sink exactly when the
/// message's type is not session-level.
pub proof fn lemma_session_routing<T: FixTransport>(
    pre: FixConnection<T>,
    post: FixConnection<T>,
    pre_ev: Seq<FixEvent>,
    post_ev: Seq<FixEvent>,
    pre_rq: Seq<SessionRequest>,
    post_rq: Seq<SessionRequest>,
    pre_er: Seq<FixStreamException>,
    post_er: Seq<FixStreamException>,
)
    requires
        read_post(pre, post, pre_ev, post_ev, pre_rq, post_rq, pre_er, post_er),
        spec_parse_frame(pre.transport.inbound()) is Complete,
    ensures
        ({
            let mt = spec_msg_type_of(
                spec_parse_frame(pre.transport.inbound())->Complete_msg_type,
            );
            (exists|i: int|
                pre_ev.len() <= i < post_ev.len() && (#[trigger] post_ev[i]) is Start)
                <==> !spec_is_session_level(mt)
        }),
{
    let frame = spec_parse_frame(pre.transport.inbound());
    let msg_type = frame->Complete_msg_type;
    let fields = frame->Complete_fields;
    let ok = frame->Complete_ok;
    let mt = spec_msg_type_of(msg_type);
    if spec_is_session_level(mt) {
        assert(post_ev == pre_ev);
    } else {
        let evs = message_events(msg_type, fields, ok);
        assert(post_ev == pre_ev + evs);
        assert(evs[0] is Start);
        assert(post_ev[pre_ev.len() as int] == evs[0]);
    }
}

/// Incoming sequence monotonicity: across one read, the expected incoming
/// sequence number advances by exactly one for an accepted application
/// message, and not at all for any session-level message other than a
/// SeqReset.
pub proof fn lemma_in_seq_monotone<T: FixTransport>(
    pre: FixConnection<T>,
    post: FixConnection<T>,
    pre_ev: Seq<FixEvent>,
    post_ev: Seq<FixEvent>,
    pre_rq: Seq<SessionRequest>,
    post_rq: Seq<SessionRequest>,
    pre_er: Seq<FixStreamException>,
    post_er: Seq<FixStreamException>,
)
    requires
        read_post(pre, post, pre_ev, post_ev, pre_rq, post_rq, pre_er, post_er),
        pre.next_in_seq < u32::MAX,
    ensures
        ({
            let frame = spec_parse_frame(pre.transport.inbound());
            if frame is Complete && frame->Complete_ok && !spec_is_session_level(
                spec_msg_type_of(frame->Complete_msg_type),
            ) {
                post.next_in_seq == pre.next_in_seq + 1
            } else if frame is Complete && frame->Complete_ok && !(spec_msg_type_of(
                frame->Complete_msg_type,
            ) is SeqReset) {
                post.next_in_seq == pre.next_in_seq
            } else if !(frame is Complete) || !frame->Complete_ok {
                post.next_in_seq == pre.next_in_seq
            } else {
                true
            }
        }),
{
}

/// The trivial application-level classifier: it recognizes nothing, so
/// every non-session message type stays `Unknown`.
impl crate::fix::FixAppMsgType for () {
    fn lookup(btype: &[u8]) -> Option<Self> {
        None
    }
}

} // verus!
