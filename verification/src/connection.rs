//! The per-connection state machine: routes readable and writable events to
//! the handshake processor or the frame codec, queues replies, and keeps the
//! readiness interest set in step with every transition.

use crate::frame::{
    Decoded, DecodedModel, Frame, FrameModel, OpCode, built_frame, decode_bytes, encode_bytes,
    wf_frame,
};
use crate::handshake::{
    HeaderMap, accept_token, build_response, compute_accept, header_lookup, response_chars,
};
use vstd::prelude::*;
use vstd::string::StrSliceExecFns;
use vstd::utf8::encode_utf8;

verus! {

/// Where a connection stands in its life.
#[derive(Clone, Copy, PartialEq, Eq, Structural, Debug)]
pub enum ClientState {
    /// Reading and tokenizing the upgrade request.
    AwaitingHandshake,
    /// The upgrade is complete; the 101 response is owed.
    HandshakeResponsePending,
    /// Frames flow.
    Connected,
    /// A Close frame was flushed; teardown is requested.
    Closing,
}

/// The readiness subscription the dispatch loop keeps for a socket.
#[derive(Clone, Copy, PartialEq, Eq, Structural, Debug)]
pub struct Interest {
    pub readable: bool,
    pub writable: bool,
    pub hup: bool,
}

/// Interest in read readiness alone.
pub open spec fn read_interest() -> Interest {
    Interest { readable: true, writable: false, hup: false }
}

/// Interest in write readiness alone.
pub open spec fn write_interest() -> Interest {
    Interest { readable: false, writable: true, hup: false }
}

/// A request to tear the connection down.
pub open spec fn hup_interest() -> Interest {
    Interest { readable: false, writable: false, hup: true }
}

/// The models of a row of frames.
pub open spec fn models(s: Seq<Frame>) -> Seq<FrameModel> {
    s.map_values(|f: Frame| f@)
}

/// The wire bytes of a row of frames, each encoded for the server-to-client
/// direction, in order.
pub open spec fn encode_all(s: Seq<FrameModel>) -> Seq<u8>
    decreases s.len(),
{
    if s.len() == 0 {
        Seq::empty()
    } else {
        encode_all(s.drop_last()) + encode_bytes(s.last())
    }
}

/// Whether a row of frames holds a Close frame.
pub open spec fn any_close(s: Seq<FrameModel>) -> bool
    decreases s.len(),
{
    if s.len() == 0 {
        false
    } else {
        s.last().opcode == OpCode::Close || any_close(s.drop_last())
    }
}

/// What the connection queues in reply to one decoded frame: a fixed
/// acknowledgement for Text, an echoing Pong for Ping, an echoing Close for
/// Close, nothing otherwise.
pub open spec fn reply_frames(f: FrameModel) -> Seq<FrameModel> {
    if f.opcode == OpCode::Text {
        seq![built_frame(OpCode::Text, encode_utf8("Hi there!!"@))]
    } else if f.opcode == OpCode::Ping {
        seq![built_frame(OpCode::Pong, f.payload)]
    } else if f.opcode == OpCode::Close {
        seq![built_frame(OpCode::Close, f.payload)]
    } else {
        Seq::empty()
    }
}

/// One accepted socket's session: its header mapping, its state, its
/// readiness interest and its queue of outgoing frames. The socket itself
/// stays with the caller; this type decides, the caller performs the I/O.
pub struct WebSocketClient {
    pub headers: HeaderMap,
    pub state: ClientState,
    pub interest: Interest,
    pub outgoing: Vec<Frame>,
}

/// Every queued outgoing frame can be put on the wire.
pub open spec fn wf_client(c: WebSocketClient) -> bool {
    forall|i: int| 0 <= i < c.outgoing@.len() ==> wf_frame(#[trigger] c.outgoing@[i]@)
}

/// What a readable event asks of the caller.
#[derive(Clone, Copy, PartialEq, Eq, Structural, Debug)]
pub enum ReadAction {
    /// Push the freshly read bytes through the header tokenizer, report each
    /// field and value back, and signal when the tokenizer sees the upgrade.
    ParseHandshake,
    /// Nothing further; the bytes were consumed here (or the state wants no
    /// reading).
    Done,
}

/// What a writable event asks of the caller.
pub enum WriteAction {
    /// Put these bytes on the socket.
    Send(Vec<u8>),
    /// The handshake cannot be answered (the key header is missing): the
    /// connection is aborted.
    Abort,
    /// Nothing to write in the current state.
    Idle,
}

impl WebSocketClient {
    /// A freshly accepted connection: awaiting its handshake, subscribed to
    /// read readiness, with nothing queued and no headers yet.
    pub fn new() -> (c: WebSocketClient)
        ensures
            c.state == ClientState::AwaitingHandshake,
            c.interest == read_interest(),
            c.outgoing@.len() == 0,
            c.headers.entries@.len() == 0,
            c.headers.pending is None,
            wf_client(c),
    {
        WebSocketClient {
            headers: HeaderMap::new(),
            state: ClientState::AwaitingHandshake,
            interest: Interest { readable: true, writable: false, hup: false },
            outgoing: Vec::new(),
        }
    }

    /// The tokenizer saw a complete upgrade request: the response is now
    /// owed, so interest switches from Readable to Writable.
    pub fn handshake_upgraded(&mut self)
        requires
            old(self).state == ClientState::AwaitingHandshake,
        ensures
            final(self).state == ClientState::HandshakeResponsePending,
            final(self).interest == write_interest(),
            final(self).headers == old(self).headers,
            final(self).outgoing == old(self).outgoing,
    {
        self.state = ClientState::HandshakeResponsePending;
        self.interest = Interest { readable: false, writable: true, hup: false };
    }

    /// Routes a readable event by state: during the handshake the caller
    /// must drive the external tokenizer over the bytes it read; once
    /// connected, the bytes are decoded as one frame here; a connection
    /// owing its response reads nothing.
    pub fn read(&mut self, buf: &Vec<u8>) -> (r: ReadAction)
        requires
            wf_client(*old(self)),
        ensures
            wf_client(*final(self)),
            old(self).state == ClientState::AwaitingHandshake ==> r == ReadAction::ParseHandshake
                && *final(self) == *old(self),
            old(self).state == ClientState::Connected ==> r == ReadAction::Done
                && frame_read_post(*old(self), *final(self), buf@),
            old(self).state == ClientState::HandshakeResponsePending || old(self).state
                == ClientState::Closing ==> r == ReadAction::Done && *final(self) == *old(self),
    {
        match self.state {
            ClientState::AwaitingHandshake => ReadAction::ParseHandshake,
            ClientState::Connected => {
                self.read_frame(buf);
                ReadAction::Done
            },
            ClientState::HandshakeResponsePending => ReadAction::Done,
            ClientState::Closing => ReadAction::Done,
        }
    }

    /// Decodes one frame out of the bytes a readable event produced and
    /// queues the reply it calls for. A frame still missing bytes changes
    /// nothing (more will arrive); a malformed frame requests teardown —
    /// the codec error is treated as fatal to this connection rather than
    /// swallowed, so a peer that breaks the protocol cannot leave a stalled
    /// entry behind.
    pub fn read_frame(&mut self, buf: &Vec<u8>)
        requires
            old(self).state == ClientState::Connected,
            wf_client(*old(self)),
        ensures
            wf_client(*final(self)),
            final(self).state == old(self).state,
            final(self).headers == old(self).headers,
            frame_read_post(*old(self), *final(self), buf@),
    {
        match Frame::decode(buf) {
            Decoded::Complete(f, _used) => {
                proof {
                    crate::frame::lemma_decode_control_limit(buf@);
                }
                let queued: bool = match f.opcode {
                    OpCode::Text => {
                        self.outgoing.push(Frame::text("Hi there!!"));
                        true
                    },
                    OpCode::Ping => {
                        match Frame::pong(&f) {
                            Some(p) => {
                                self.outgoing.push(p);
                            },
                            None => {
                                proof {
                                    assert(false);
                                }
                            },
                        }
                        true
                    },
                    OpCode::Close => {
                        match Frame::close_echo(&f) {
                            Some(p) => {
                                self.outgoing.push(p);
                            },
                            None => {
                                proof {
                                    assert(false);
                                }
                            },
                        }
                        true
                    },
                    _ => false,
                };
                if queued {
                    self.interest = Interest { readable: false, writable: true, hup: false };
                }
                proof {
                    match decode_bytes(buf@) {
                        DecodedModel::Complete { frame: fm, used: _u } => {
                            assert(models(self.outgoing@) =~= models(old(self).outgoing@)
                                + reply_frames(fm));
                        },
                        _ => {},
                    }
                }
            },
            Decoded::NeedMoreData => {},
            Decoded::Invalid(_e) => {
                self.interest = Interest { readable: false, writable: false, hup: true };
            },
        }
    }

    /// Routes a writable event by state: a connection owing its handshake
    /// response sends it and connects; a connected one flushes its queue; the
    /// others have nothing to write.
    pub fn write(&mut self) -> (r: WriteAction)
        requires
            wf_client(*old(self)),
        ensures
            wf_client(*final(self)),
            final(self).headers == old(self).headers,
            old(self).state == ClientState::AwaitingHandshake || old(self).state
                == ClientState::Closing ==> *final(self) == *old(self) && r is Idle,
            old(self).state == ClientState::HandshakeResponsePending ==> handshake_write_post(
                *old(self),
                *final(self),
                r,
            ),
            old(self).state == ClientState::Connected ==> flush_post(*old(self), *final(self), r),
    {
        match self.state {
            ClientState::HandshakeResponsePending => self.write_handshake(),
            ClientState::Connected => self.flush_frames(),
            ClientState::AwaitingHandshake => WriteAction::Idle,
            ClientState::Closing => WriteAction::Idle,
        }
    }

    /// Computes the accept token from the stored key header, sends the
    /// literal response, and connects; a request that never carried the key
    /// header cannot be answered, and the connection is aborted.
    fn write_handshake(&mut self) -> (r: WriteAction)
        requires
            old(self).state == ClientState::HandshakeResponsePending,
            wf_client(*old(self)),
        ensures
            wf_client(*final(self)),
            final(self).headers == old(self).headers,
            handshake_write_post(*old(self), *final(self), r),
    {
        match self.headers.get("Sec-WebSocket-Key") {
            Some(key) => {
                let token = compute_accept(&key);
                let response = build_response(&token);
                let bytes = response.as_str().as_bytes_vec();
                self.state = ClientState::Connected;
                self.interest = Interest { readable: true, writable: false, hup: false };
                WriteAction::Send(bytes)
            },
            None => {
                self.interest = Interest { readable: false, writable: false, hup: true };
                WriteAction::Abort
            },
        }
    }

    /// Writes every queued frame in order, clears the queue, and re-arms:
    /// back to reading, unless a Close frame went out, in which case teardown
    /// is requested.
    fn flush_frames(&mut self) -> (r: WriteAction)
        requires
            old(self).state == ClientState::Connected,
            wf_client(*old(self)),
        ensures
            wf_client(*final(self)),
            final(self).headers == old(self).headers,
            flush_post(*old(self), *final(self), r),
    {
        let mut out: Vec<u8> = Vec::new();
        let mut close_seen = false;
        let mut i: usize = 0;
        proof {
            assert(models(self.outgoing@).take(0) =~= Seq::<FrameModel>::empty());
        }
        while i < self.outgoing.len()
            invariant
                i <= self.outgoing@.len(),
                *self == *old(self),
                wf_client(*self),
                out@ == encode_all(models(self.outgoing@).take(i as int)),
                close_seen == any_close(models(self.outgoing@).take(i as int)),
            decreases self.outgoing@.len() - i,
        {
            let fr = &self.outgoing[i];
            let mut bts = fr.encode();
            out.append(&mut bts);
            if fr.is_close() {
                close_seen = true;
            }
            i += 1;
            proof {
                let ms = models(self.outgoing@);
                assert(ms.take(i as int).drop_last() =~= ms.take(i - 1));
                assert(ms.take(i as int).last() == self.outgoing@[i - 1]@);
            }
        }
        proof {
            assert(models(self.outgoing@).take(self.outgoing@.len() as int) =~= models(
                self.outgoing@,
            ));
        }
        self.outgoing.clear();
        if close_seen {
            self.interest = Interest { readable: false, writable: false, hup: true };
            self.state = ClientState::Closing;
        } else {
            self.interest = Interest { readable: true, writable: false, hup: false };
        }
        WriteAction::Send(out)
    }
}

/// How a readable event leaves a connected connection, given the bytes that
/// arrived: a complete frame queues its reply and switches interest to
/// Writable exactly when something was queued; missing bytes change nothing;
/// a malformed frame requests teardown.
pub open spec fn frame_read_post(
    before: WebSocketClient,
    after: WebSocketClient,
    bytes: Seq<u8>,
) -> bool {
    &&& after.state == before.state
    &&& after.headers == before.headers
    &&& match decode_bytes(bytes) {
        DecodedModel::Complete { frame, used } => {
            &&& models(after.outgoing@) == models(before.outgoing@) + reply_frames(frame)
            &&& after.interest == if reply_frames(frame).len() > 0 {
                write_interest()
            } else {
                before.interest
            }
        },
        DecodedModel::NeedMoreData => after.outgoing == before.outgoing && after.interest
            == before.interest,
        DecodedModel::Invalid { err } => after.outgoing == before.outgoing && after.interest
            == hup_interest(),
    }
}

/// How a writable event leaves a connection owing its handshake response: if
/// the key header is there, the exact response bytes go out and the
/// connection is Connected reading again; if not, the connection is aborted.
pub open spec fn handshake_write_post(
    before: WebSocketClient,
    after: WebSocketClient,
    r: WriteAction,
) -> bool {
    &&& after.headers == before.headers
    &&& after.outgoing == before.outgoing
    &&& match header_lookup(before.headers.entries@, "Sec-WebSocket-Key"@) {
        Some(key) => {
            &&& r matches WriteAction::Send(b) && b@ == encode_utf8(
                response_chars(accept_token(key)),
            )
            &&& after.state == ClientState::Connected
            &&& after.interest == read_interest()
        },
        None => {
            &&& r is Abort
            &&& after.state == before.state
            &&& after.interest == hup_interest()
        },
    }
}

/// How a writable event leaves a connected connection: every queued frame's
/// wire bytes go out in order, the queue empties, and interest returns to
/// Readable — unless a Close frame went out, which requests teardown.
pub open spec fn flush_post(
    before: WebSocketClient,
    after: WebSocketClient,
    r: WriteAction,
) -> bool {
    &&& after.headers == before.headers
    &&& r matches WriteAction::Send(b) && b@ == encode_all(models(before.outgoing@))
    &&& after.outgoing@.len() == 0
    &&& if any_close(models(before.outgoing@)) {
        after.interest == hup_interest() && after.state == ClientState::Closing
    } else {
        after.interest == read_interest() && after.state == ClientState::Connected
    }
}

} // verus!
