//! Channel multiplexer: many logical channels over one post-handshake
//! transport.
//!
//! The client allocates channel ids, monotonically increasing from 1;
//! exhausting the 16-bit space terminates the session.  Any unrecognized
//! frame type, malformed CONNECT, empty host, or DATA on an unknown channel
//! terminates the whole session, and termination releases every channel.

use vstd::prelude::*;

verus! {

use vstd::string::StringSliceAdditionalSpecFns;
use vstd::utf8::encode_utf8;
use crate::frames::{Frame, FrameView, FrameType, FrameCodec, FrameError, spec_connect_payload,
    spec_parse_connect, spec_serialize, decode_stream, decode_ready, decode_bad, decode_frame,
    decode_rest, stream_rest, stream_error, lemma_encode_decode_roundtrip,
    lemma_decode_ready_extend, MAX_PAYLOAD_SIZE};
use crate::Error;

/// The lifecycle state of one channel.
#[derive(Debug, Clone, Copy, PartialEq, Eq, Structural)]
pub enum ChannelState {
    /// CONNECT sent, no answer yet.
    Opening,
    /// CONNECT_OK seen; data flows.
    Open,
}

/// What one inbound frame means to the session.
#[derive(Debug)]
pub enum MuxEvent {
    /// Nothing to do.
    Ignored,
    /// A channel the client opened is now open.
    Opened(u16),
    /// A channel the client opened failed, with the peer's reason bytes.
    OpenFailed(u16, Vec<u8>),
    /// Payload bytes for a live channel, in order.
    Data(u16, Vec<u8>),
    /// The peer closed a channel.
    ChannelClosed(u16),
    /// The peer asks to open a channel to a destination; answer with
    /// [`ChannelMux::peer_dial_result`].
    PeerConnect(u16, String, u16),
    /// A keepalive probe; answer with a KEEPALIVE_ACK frame.
    KeepaliveProbe,
    /// The peer acknowledged a keepalive.
    KeepaliveAcked,
    /// A protocol violation; the session is terminated and every channel
    /// released.
    Fatal,
}

/// What [`ChannelMux::accept_frame`] promises of one frame: the event it
/// returns and the channel-state change, per frame type, against the
/// multiplexer before (`pre`) and after (`post`) the call.
pub open spec fn accept_frame_rel(pre: ChannelMux, post: ChannelMux, f: FrameView, r: MuxEvent) -> bool {
    &&& post.spec_buf() == pre.spec_buf()
    &&& (match r {
        MuxEvent::Fatal => post.spec_closed() && post.entries().len() == 0,
        _ => !post.spec_closed(),
    })
    &&& (f.frame_type == FrameType::Data ==> match r {
        MuxEvent::Data(cid, data) => {
            &&& cid == f.channel_id
            &&& data@ == f.payload
            &&& pre.channel_state(f.channel_id) is Some
            &&& post == pre
        },
        MuxEvent::Fatal => pre.channel_state(f.channel_id) is None,
        _ => false,
    })
    &&& (f.frame_type == FrameType::ConnectOk ==> match r {
        MuxEvent::Opened(cid) => {
            &&& cid == f.channel_id
            &&& pre.channel_state(cid) == Some(ChannelState::Opening)
            &&& post.channel_state(cid) == Some(ChannelState::Open)
            &&& forall|c: u16|
                c != cid ==> #[trigger] post.channel_state(c) == pre.channel_state(c)
        },
        MuxEvent::Ignored => {
            &&& pre.channel_state(f.channel_id) != Some(ChannelState::Opening)
            &&& post == pre
        },
        _ => false,
    })
    &&& (f.frame_type == FrameType::ConnectFail ==> match r {
        MuxEvent::OpenFailed(cid, reason) => {
            &&& cid == f.channel_id
            &&& reason@ == f.payload
            &&& pre.channel_state(cid) is Some
            &&& post.channel_state(cid) is None
            &&& forall|c: u16|
                c != cid ==> #[trigger] post.channel_state(c) == pre.channel_state(c)
        },
        MuxEvent::Ignored => {
            &&& pre.channel_state(f.channel_id) is None
            &&& post == pre
        },
        _ => false,
    })
    &&& (f.frame_type == FrameType::Close ==> match r {
        MuxEvent::ChannelClosed(cid) => {
            &&& cid == f.channel_id
            &&& pre.channel_state(cid) is Some
            &&& post.channel_state(cid) is None
            &&& forall|c: u16|
                c != cid ==> #[trigger] post.channel_state(c) == pre.channel_state(c)
        },
        MuxEvent::Ignored => {
            &&& pre.channel_state(f.channel_id) is None
            &&& post == pre
        },
        _ => false,
    })
    &&& (f.frame_type == FrameType::Connect ==> match r {
        MuxEvent::PeerConnect(cid, host, port) => {
            &&& cid == f.channel_id
            &&& spec_parse_connect(f) == Some((host@, port))
            &&& f.payload[0] != 0
            &&& pre.channel_state(cid) is None
            &&& post == pre
        },
        MuxEvent::Fatal => {
            ||| spec_parse_connect(f) is None
            ||| f.payload[0] == 0
            ||| pre.channel_state(f.channel_id) is Some
        },
        _ => false,
    })
    &&& (f.frame_type == FrameType::Keepalive ==> (r matches MuxEvent::KeepaliveProbe && post
        == pre))
    &&& (f.frame_type == FrameType::KeepaliveAck ==> (r matches MuxEvent::KeepaliveAcked && post
        == pre))
}

/// The channel a table holds under an id: the first entry decides.
pub open spec fn spec_chan_lookup(entries: Seq<(u16, ChannelState)>, cid: u16) -> Option<
    ChannelState,
>
    decreases entries.len(),
{
    if entries.len() == 0 {
        None
    } else if entries[0].0 == cid {
        Some(entries[0].1)
    } else {
        spec_chan_lookup(entries.drop_first(), cid)
    }
}

/// Channel ids are unique in the table.
pub open spec fn spec_chans_unique(entries: Seq<(u16, ChannelState)>) -> bool {
    forall|i: int, j: int|
        0 <= i < j < entries.len() ==> (#[trigger] entries[i]).0 != (#[trigger] entries[j]).0
}

proof fn lemma_chan_absent(entries: Seq<(u16, ChannelState)>, cid: u16)
    requires
        forall|i: int| 0 <= i < entries.len() ==> (#[trigger] entries[i]).0 != cid,
    ensures
        spec_chan_lookup(entries, cid) is None,
    decreases entries.len(),
{
    if entries.len() > 0 {
        assert forall|i: int| 0 <= i < entries.drop_first().len() implies (
        #[trigger] entries.drop_first()[i]).0 != cid by {
            assert(entries.drop_first()[i] == entries[i + 1]);
        }
        lemma_chan_absent(entries.drop_first(), cid);
    }
}

proof fn lemma_chan_found(entries: Seq<(u16, ChannelState)>, i: int)
    requires
        spec_chans_unique(entries),
        0 <= i < entries.len(),
    ensures
        spec_chan_lookup(entries, entries[i].0) == Some(entries[i].1),
    decreases i,
{
    if i > 0 {
        assert(entries.drop_first()[i - 1] == entries[i]);
        lemma_chan_found(entries.drop_first(), i - 1);
    }
}

proof fn lemma_chan_remove(entries: Seq<(u16, ChannelState)>, i: int, cid: u16)
    requires
        spec_chans_unique(entries),
        0 <= i < entries.len(),
    ensures
        spec_chan_lookup(entries.remove(i), cid) == if cid == entries[i].0 {
            None
        } else {
            spec_chan_lookup(entries, cid)
        },
        spec_chans_unique(entries.remove(i)),
    decreases i,
{
    let r = entries.remove(i);
    assert forall|a: int, b: int| 0 <= a < b < r.len() implies (#[trigger] r[a]).0 != (
    #[trigger] r[b]).0 by {
        let a2 = if a < i {
            a
        } else {
            a + 1
        };
        let b2 = if b < i {
            b
        } else {
            b + 1
        };
        assert(r[a] == entries[a2]);
        assert(r[b] == entries[b2]);
    }
    if i == 0 {
        assert(r =~= entries.drop_first());
        if cid == entries[0].0 {
            assert forall|k: int| 0 <= k < r.len() implies (#[trigger] r[k]).0 != cid by {
                assert(r[k] == entries[k + 1]);
            }
            lemma_chan_absent(r, cid);
        }
    } else {
        assert(r[0] == entries[0]);
        if entries[0].0 != cid {
            assert(r.drop_first() =~= entries.drop_first().remove(i - 1));
            assert(entries.drop_first()[i - 1] == entries[i]);
            lemma_chan_remove(entries.drop_first(), i - 1, cid);
        }
    }
}

/// One session's multiplexer state: the live channels, the id allocator,
/// and the inbound byte buffer.
pub struct ChannelMux {
    channels: Vec<(u16, ChannelState)>,
    next_id: u16,
    closed: bool,
    buf: Vec<u8>,
}

impl ChannelMux {
    /// The live channel table.
    pub closed spec fn entries(self) -> Seq<(u16, ChannelState)> {
        self.channels@
    }

    /// The state of one channel.
    pub open spec fn channel_state(self, cid: u16) -> Option<ChannelState> {
        spec_chan_lookup(self.entries(), cid)
    }

    /// Whether the session is terminated.
    pub closed spec fn spec_closed(self) -> bool {
        self.closed
    }

    /// The id the next open will take; 0 means the space is exhausted.
    pub closed spec fn spec_next_id(self) -> u16 {
        self.next_id
    }

    /// The inbound bytes buffered and not yet decoded.
    pub closed spec fn spec_buf(self) -> Seq<u8> {
        self.buf@
    }

    /// The live channels as a map from id to state.
    pub open spec fn channels_map(self) -> Map<u16, ChannelState> {
        Map::new(|c: u16| self.channel_state(c) is Some, |c: u16| self.channel_state(c)->Some_0)
    }

    /// Well-formedness: ids unique and nonzero, and below the allocator
    /// mark while ids remain.
    pub open spec fn wf(self) -> bool {
        &&& spec_chans_unique(self.entries())
        &&& forall|i: int| 0 <= i < self.entries().len() ==> (#[trigger] self.entries()[i]).0 != 0
        &&& self.spec_next_id() != 0 ==> forall|i: int|
            0 <= i < self.entries().len() ==> (#[trigger] self.entries()[i]).0
                < self.spec_next_id()
    }

    /// Create a fresh multiplexer: no channels, ids start at 1.
    pub fn new() -> (r: Self)
        ensures
            r.wf(),
            !r.spec_closed(),
            r.spec_next_id() == 1,
            r.entries().len() == 0,
            forall|c: u16| #[trigger] r.channel_state(c) is None,
    {
        ChannelMux { channels: Vec::new(), next_id: 1, closed: false, buf: Vec::new() }
    }

    /// How many channels are live.
    pub fn channel_count(&self) -> (r: usize)
        ensures
            r == self.entries().len(),
    {
        self.channels.len()
    }

    /// Whether the session is terminated.
    pub fn is_closed(&self) -> (r: bool)
        ensures
            r == self.spec_closed(),
    {
        self.closed
    }

    /// The state of one channel.
    pub fn get_channel_state(&self, cid: u16) -> (r: Option<ChannelState>)
        requires
            self.wf(),
        ensures
            r == self.channel_state(cid),
    {
        match self.find_channel(cid) {
            Some(i) => {
                proof {
                    lemma_chan_found(self.channels@, i as int);
                }
                Some(self.channels[i].1)
            },
            None => {
                proof {
                    lemma_chan_absent(self.channels@, cid);
                }
                None
            },
        }
    }

    /// Terminate the session and release every channel.
    pub fn terminate(&mut self)
        ensures
            final (self).wf(),
            final (self).spec_closed(),
            final (self).entries().len() == 0,
            final (self).spec_buf() == old(self).spec_buf(),
    {
        self.closed = true;
        self.channels.clear();
    }

    /// Find the index of a channel id.
    fn find_channel(&self, cid: u16) -> (r: Option<usize>)
        ensures
            match r {
                Some(i) => i < self.entries().len() && self.entries()[i as int].0 == cid,
                None => forall|i: int|
                    0 <= i < self.entries().len() ==> (#[trigger] self.entries()[i]).0 != cid,
            },
    {
        let mut i: usize = 0;
        let n: usize = self.channels.len();
        while i < n
            invariant
                0 <= i <= n,
                n == self.channels@.len(),
                forall|j: int| 0 <= j < i ==> (#[trigger] self.channels@[j]).0 != cid,
            decreases n - i,
        {
            if self.channels[i].0 == cid {
                return Some(i);
            }
            i = i + 1;
        }
        None
    }

    /// Allocate the next channel id and build its CONNECT frame.
    ///
    /// Fails, terminating the session, when the 16-bit id space is
    /// exhausted: a wrapped id could collide with a live channel.
    pub fn open_channel(&mut self, host: &str, port: u16) -> (r: Result<(u16, Frame), Error>)
        requires
            old(self).wf(),
            !old(self).spec_closed(),
            host.spec_bytes().len() <= 255,
        ensures
            final (self).wf(),
            match r {
                Ok((cid, f)) => {
                    &&& cid == old(self).spec_next_id()
                    &&& cid != 0
                    &&& old(self).channel_state(cid) is None
                    &&& final (self).channel_state(cid) == Some(ChannelState::Opening)
                    &&& forall|c: u16|
                        c != cid ==> #[trigger] final (self).channel_state(c) == old(
                            self,
                        ).channel_state(c)
                    &&& !final (self).spec_closed()
                    &&& f@.frame_type == FrameType::Connect
                    &&& f@.channel_id == cid
                    &&& f@.payload == spec_connect_payload(host.spec_bytes(), port)
                },
                Err(e) => {
                    &&& old(self).spec_next_id() == 0
                    &&& final (self).spec_closed()
                    &&& final (self).entries().len() == 0
                    &&& e matches Error::Protocol(_)
                },
            },
    {
        if self.next_id == 0 {
            self.terminate();
            let reason: String = <String as vstd::string::StringExecFns>::from_str(
                "channel ids exhausted",
            );
            return Err(Error::Protocol(reason));
        }
        let cid: u16 = self.next_id;
        proof {
            lemma_chan_absent(self.channels@, cid);
        }
        let ghost mid = self.channels@;
        self.channels.insert(0, (cid, ChannelState::Opening));
        if cid == 0xFFFF {
            self.next_id = 0;
        } else {
            self.next_id = cid + 1;
        }
        let frame: Frame = Frame::connect(cid, host, port);
        proof {
            assert(self.channels@.drop_first() =~= mid);
            assert forall|a: int, b: int| 0 <= a < b < self.channels@.len() implies (
            #[trigger] self.channels@[a]).0 != (#[trigger] self.channels@[b]).0 by {
                if a > 0 {
                    assert(self.channels@[a] == mid[a - 1]);
                    assert(self.channels@[b] == mid[b - 1]);
                } else {
                    assert(self.channels@[b] == mid[b - 1]);
                }
            }
            assert forall|c: u16| c != cid implies #[trigger] spec_chan_lookup(self.channels@, c)
                == spec_chan_lookup(mid, c) by {
                assert(spec_chan_lookup(self.channels@, c) == spec_chan_lookup(
                    self.channels@.drop_first(),
                    c,
                ));
            }
        }
        Ok((cid, frame))
    }

    /// Set the state of a present channel.
    fn set_channel(&mut self, i: usize, st: ChannelState)
        requires
            old(self).wf(),
            i < old(self).entries().len(),
        ensures
            final (self).wf(),
            final (self).spec_closed() == old(self).spec_closed(),
            final (self).spec_next_id() == old(self).spec_next_id(),
            final (self).spec_buf() == old(self).spec_buf(),
            final (self).channel_state(old(self).entries()[i as int].0) == Some(st),
            forall|c: u16|
                c != old(self).entries()[i as int].0 ==> #[trigger] final (self).channel_state(c)
                    == old(self).channel_state(c),
    {
        let cid: u16 = self.channels[i].0;
        proof {
            lemma_chan_found(self.channels@, i as int);
            lemma_chan_remove(self.channels@, i as int, cid);
            assert forall|c: u16| c != cid implies #[trigger] spec_chan_lookup(
                self.channels@.remove(i as int),
                c,
            ) == spec_chan_lookup(self.channels@, c) by {
                lemma_chan_remove(old(self).entries(), i as int, c);
            }
        }
        let ghost mid = self.channels@.remove(i as int);
        self.channels.remove(i);
        self.channels.insert(0, (cid, st));
        proof {
            assert(self.channels@.drop_first() =~= mid);
            assert forall|a: int, b: int| 0 <= a < b < self.channels@.len() implies (
            #[trigger] self.channels@[a]).0 != (#[trigger] self.channels@[b]).0 by {
                if a > 0 {
                    assert(self.channels@[a] == mid[a - 1]);
                    assert(self.channels@[b] == mid[b - 1]);
                } else {
                    assert(self.channels@[b] == mid[b - 1]);
                    lemma_chan_found(mid, b - 1);
                }
            }
            assert forall|c: u16| c != cid implies #[trigger] spec_chan_lookup(self.channels@, c)
                == spec_chan_lookup(mid, c) by {
                assert(spec_chan_lookup(self.channels@, c) == spec_chan_lookup(
                    self.channels@.drop_first(),
                    c,
                ));
            }
        }
    }

    /// Remove a present channel.
    fn remove_channel(&mut self, i: usize)
        requires
            old(self).wf(),
            i < old(self).entries().len(),
        ensures
            final (self).wf(),
            final (self).spec_closed() == old(self).spec_closed(),
            final (self).spec_next_id() == old(self).spec_next_id(),
            final (self).spec_buf() == old(self).spec_buf(),
            final (self).channel_state(old(self).entries()[i as int].0) is None,
            forall|c: u16|
                c != old(self).entries()[i as int].0 ==> #[trigger] final (self).channel_state(c)
                    == old(self).channel_state(c),
    {
        proof {
            lemma_chan_remove(self.channels@, i as int, self.channels@[i as int].0);
            assert forall|c: u16| c != old(self).entries()[i as int].0 implies
                #[trigger] spec_chan_lookup(self.channels@.remove(i as int), c) == spec_chan_lookup(
                self.channels@,
                c,
            ) by {
                lemma_chan_remove(old(self).entries(), i as int, c);
            }
        }
        self.channels.remove(i);
    }

    /// Interpret one inbound frame.
    ///
    /// A DATA frame for an unknown channel, a malformed CONNECT, a CONNECT
    /// with an empty host, and a CONNECT for a live channel id are protocol
    /// violations: the session terminates and every channel is released.
    pub fn accept_frame(&mut self, f: &Frame) -> (r: MuxEvent)
        requires
            old(self).wf(),
            !old(self).spec_closed(),
        ensures
            final (self).wf(),
            accept_frame_rel(*old(self), *final (self), f@, r),
    {
        match f.frame_type {
            FrameType::Data => {
                match self.find_channel(f.channel_id) {
                    Some(i) => {
                        proof {
                            lemma_chan_found(self.channels@, i as int);
                        }
                        let mut data: Vec<u8> = Vec::new();
                        let mut k: usize = 0;
                        let n: usize = f.payload.len();
                        while k < n
                            invariant
                                0 <= k <= n,
                                n == f.payload@.len(),
                                data@ == f.payload@.take(k as int),
                            decreases n - k,
                        {
                            data.push(f.payload[k]);
                            proof {
                                assert(data@ =~= f.payload@.take(k as int + 1));
                            }
                            k = k + 1;
                        }
                        proof {
                            assert(data@ =~= f.payload@);
                        }
                        MuxEvent::Data(f.channel_id, data)
                    },
                    None => {
                        proof {
                            lemma_chan_absent(self.channels@, f.channel_id);
                        }
                        self.terminate();
                        MuxEvent::Fatal
                    },
                }
            },
            FrameType::ConnectOk => {
                match self.find_channel(f.channel_id) {
                    Some(i) => {
                        proof {
                            lemma_chan_found(self.channels@, i as int);
                        }
                        if self.channels[i].1 == ChannelState::Opening {
                            self.set_channel(i, ChannelState::Open);
                            MuxEvent::Opened(f.channel_id)
                        } else {
                            MuxEvent::Ignored
                        }
                    },
                    None => {
                        proof {
                            lemma_chan_absent(self.channels@, f.channel_id);
                        }
                        MuxEvent::Ignored
                    },
                }
            },
            FrameType::ConnectFail => {
                match self.find_channel(f.channel_id) {
                    Some(i) => {
                        proof {
                            lemma_chan_found(self.channels@, i as int);
                        }
                        self.remove_channel(i);
                        let mut reason: Vec<u8> = Vec::new();
                        let mut k: usize = 0;
                        let n: usize = f.payload.len();
                        while k < n
                            invariant
                                0 <= k <= n,
                                n == f.payload@.len(),
                                reason@ == f.payload@.take(k as int),
                            decreases n - k,
                        {
                            reason.push(f.payload[k]);
                            proof {
                                assert(reason@ =~= f.payload@.take(k as int + 1));
                            }
                            k = k + 1;
                        }
                        proof {
                            assert(reason@ =~= f.payload@);
                        }
                        MuxEvent::OpenFailed(f.channel_id, reason)
                    },
                    None => {
                        proof {
                            lemma_chan_absent(self.channels@, f.channel_id);
                        }
                        MuxEvent::Ignored
                    },
                }
            },
            FrameType::Close => {
                match self.find_channel(f.channel_id) {
                    Some(i) => {
                        proof {
                            lemma_chan_found(self.channels@, i as int);
                        }
                        self.remove_channel(i);
                        MuxEvent::ChannelClosed(f.channel_id)
                    },
                    None => {
                        proof {
                            lemma_chan_absent(self.channels@, f.channel_id);
                        }
                        MuxEvent::Ignored
                    },
                }
            },
            FrameType::Connect => {
                let parsed: Option<(String, u16)> = f.parse_connect();
                match parsed {
                    Some((host, port)) => {
                        if f.payload[0] == 0 {
                            self.terminate();
                            return MuxEvent::Fatal;
                        }
                        match self.find_channel(f.channel_id) {
                            Some(i) => {
                                proof {
                                    lemma_chan_found(self.channels@, i as int);
                                }
                                self.terminate();
                                MuxEvent::Fatal
                            },
                            None => {
                                proof {
                                    lemma_chan_absent(self.channels@, f.channel_id);
                                }
                                MuxEvent::PeerConnect(f.channel_id, host, port)
                            },
                        }
                    },
                    None => {
                        self.terminate();
                        MuxEvent::Fatal
                    },
                }
            },
            FrameType::Keepalive => MuxEvent::KeepaliveProbe,
            FrameType::KeepaliveAck => MuxEvent::KeepaliveAcked,
        }
    }

    /// Record the outcome of the dial a PEER_CONNECT asked for, and build
    /// the answer frame: CONNECT_OK opens the channel, CONNECT_FAIL
    /// allocates nothing.
    pub fn peer_dial_result(&mut self, cid: u16, ok: bool, reason: &str) -> (r: Frame)
        requires
            old(self).wf(),
            !old(self).spec_closed(),
            old(self).channel_state(cid) is None,
            cid != 0,
            reason.spec_bytes().len() <= MAX_PAYLOAD_SIZE,
        ensures
            final (self).wf(),
            !final (self).spec_closed(),
            ok ==> {
                &&& final (self).channel_state(cid) == Some(ChannelState::Open)
                &&& forall|c: u16|
                    c != cid ==> #[trigger] final (self).channel_state(c) == old(
                        self,
                    ).channel_state(c)
                &&& r@ == (FrameView {
                    frame_type: FrameType::ConnectOk,
                    channel_id: cid,
                    payload: Seq::empty(),
                })
            },
            !ok ==> {
                &&& *final (self) == *old(self)
                &&& r@ == (FrameView {
                    frame_type: FrameType::ConnectFail,
                    channel_id: cid,
                    payload: reason.spec_bytes(),
                })
            },
    {
        if ok {
            if self.next_id != 0 && cid >= self.next_id {
                if cid == 0xFFFF {
                    self.next_id = 0;
                } else {
                    self.next_id = cid + 1;
                }
            }
            let ghost mid = self.channels@;
            self.channels.insert(0, (cid, ChannelState::Open));
            proof {
                assert(self.channels@.drop_first() =~= mid);
                assert forall|a: int, b: int| 0 <= a < b < self.channels@.len() implies (
                #[trigger] self.channels@[a]).0 != (#[trigger] self.channels@[b]).0 by {
                    if a > 0 {
                        assert(self.channels@[a] == mid[a - 1]);
                        assert(self.channels@[b] == mid[b - 1]);
                    } else {
                        assert(self.channels@[b] == mid[b - 1]);
                        lemma_chan_found(mid, b - 1);
                    }
                }
                assert forall|c: u16| c != cid implies #[trigger] spec_chan_lookup(
                    self.channels@,
                    c,
                ) == spec_chan_lookup(mid, c) by {
                    assert(spec_chan_lookup(self.channels@, c) == spec_chan_lookup(
                        self.channels@.drop_first(),
                        c,
                    ));
                }
            }
            Frame::connect_ok(cid)
        } else {
            Frame::connect_fail(cid, reason)
        }
    }

    /// Close a channel from this side and build its CLOSE frame.
    pub fn close_channel(&mut self, cid: u16) -> (r: Frame)
        requires
            old(self).wf(),
        ensures
            final (self).wf(),
            final (self).spec_closed() == old(self).spec_closed(),
            final (self).channel_state(cid) is None,
            forall|c: u16|
                c != cid ==> #[trigger] final (self).channel_state(c) == old(self).channel_state(
                    c,
                ),
            r@ == (FrameView {
                frame_type: FrameType::Close,
                channel_id: cid,
                payload: Seq::empty(),
            }),
    {
        match self.find_channel(cid) {
            Some(i) => {
                proof {
                    lemma_chan_found(self.channels@, i as int);
                }
                self.remove_channel(i);
            },
            None => {
                proof {
                    lemma_chan_absent(self.channels@, cid);
                }
            },
        }
        Frame::close(cid)
    }

    /// Feed inbound transport bytes and interpret every complete frame.
    ///
    /// The returned events are, in order, the interpretations — per
    /// [`ChannelMux::accept_frame`]'s table — of the complete frames of the
    /// buffered bytes, stopping after the first fatal one; the channel
    /// table ends as their fold, and the buffer keeps the bytes no complete
    /// frame covers.  An unrecognized frame type terminates the session:
    /// the error is returned, every channel is released, and the events of
    /// the frames before it die with the session.
    pub fn receive(&mut self, chunk: &[u8]) -> (r: Result<Vec<MuxEvent>, FrameError>)
        requires
            old(self).wf(),
            !old(self).spec_closed(),
        ensures
            final (self).wf(),
            ({
                let fed = old(self).spec_buf() + chunk@;
                match r {
                    Ok(events) => {
                        &&& spec_receive_ok(
                            old(self).channels_map(),
                            fed,
                            events@,
                            final (self).channels_map(),
                            final (self).spec_buf(),
                            final (self).spec_closed(),
                        )
                        &&& final (self).spec_closed() ==> final (self).entries().len() == 0
                        &&& !final (self).spec_closed() ==> (final (self).spec_buf()
                            == stream_rest(fed) && !stream_error(fed))
                    },
                    Err(e) => {
                        &&& spec_receive_err(old(self).channels_map(), fed, e)
                        &&& stream_error(fed)
                        &&& e == FrameError::InvalidType(stream_rest(fed)[0])
                        &&& final (self).spec_closed()
                        &&& final (self).entries().len() == 0
                        &&& final (self).spec_buf() == stream_rest(fed)
                    },
                }
            }),
    {
        let ghost fed = self.buf@ + chunk@;
        let ghost m0 = self.channels_map();
        self.buf.extend_from_slice(chunk);
        let mut events: Vec<MuxEvent> = Vec::new();
        proof {
            assert(self.channels_map() =~= m0);
            assert(self.spec_buf() =~= fed);
        }
        let mut codec = FrameCodec;
        loop
            invariant
                self.wf(),
                !self.spec_closed(),
                m0 == old(self).channels_map(),
                fed == old(self).spec_buf() + chunk@,
                forall|evs2: Seq<MuxEvent>, fc: Map<u16, ChannelState>, fb: Seq<u8>, flag: bool|
                    #[trigger] spec_receive_ok(
                        self.channels_map(),
                        self.spec_buf(),
                        evs2,
                        fc,
                        fb,
                        flag,
                    ) ==> spec_receive_ok(m0, fed, events@ + evs2, fc, fb, flag),
                forall|e: FrameError|
                    #[trigger] spec_receive_err(self.channels_map(), self.spec_buf(), e)
                        ==> spec_receive_err(m0, fed, e),
                stream_rest(fed) == stream_rest(self.spec_buf()),
                stream_error(fed) == stream_error(self.spec_buf()),
            ensures
                self.wf(),
                !self.spec_closed(),
                !decode_ready(self.spec_buf()),
                !decode_bad(self.spec_buf()),
                forall|evs2: Seq<MuxEvent>, fc: Map<u16, ChannelState>, fb: Seq<u8>, flag: bool|
                    #[trigger] spec_receive_ok(
                        self.channels_map(),
                        self.spec_buf(),
                        evs2,
                        fc,
                        fb,
                        flag,
                    ) ==> spec_receive_ok(m0, fed, events@ + evs2, fc, fb, flag),
                stream_rest(fed) == stream_rest(self.spec_buf()),
                stream_error(fed) == stream_error(self.spec_buf()),
            decreases self.buf@.len(),
        {
            let ghost b0 = self.buf@;
            let ghost c0 = self.channels_map();
            let ghost events0 = events@;
            let decoded = codec.decode(&mut self.buf);
            match decoded {
                Ok(Some(frame)) => {
                    let ghost f = frame@;
                    let ghost pre_self = *self;
                    proof {
                        assert(pre_self.channels_map() =~= c0);
                    }
                    let ev = self.accept_frame(&frame);
                    let ghost gev = ev;
                    proof {
                        lemma_accept_matches_step(pre_self, *self, f, gev);
                    }
                    let fatal: bool = match ev {
                        MuxEvent::Fatal => true,
                        _ => false,
                    };
                    events.push(ev);
                    if fatal {
                        proof {
                            assert(self.channels_map() =~= Map::<u16, ChannelState>::empty());
                            assert(spec_receive_ok(
                                c0,
                                b0,
                                seq![gev],
                                Map::<u16, ChannelState>::empty(),
                                self.spec_buf(),
                                true,
                            )) by {
                                assert(seq![gev][0] == gev);
                                assert(seq![gev].len() == 1);
                            }
                            assert(spec_receive_ok(
                                m0,
                                fed,
                                events0 + seq![gev],
                                Map::<u16, ChannelState>::empty(),
                                self.spec_buf(),
                                true,
                            ));
                            assert(events0 + seq![gev] =~= events@);
                            assert(spec_receive_ok(
                                m0,
                                fed,
                                events@,
                                self.channels_map(),
                                self.spec_buf(),
                                self.spec_closed(),
                            ));
                        }
                        return Ok(events);
                    }
                    proof {
                        let c1 = self.channels_map();
                        let b1 = self.spec_buf();
                        assert(b1 == decode_rest(b0));
                        assert forall|
                            evs2: Seq<MuxEvent>,
                            fc: Map<u16, ChannelState>,
                            fb: Seq<u8>,
                            flag: bool,
                        |
                            #[trigger] spec_receive_ok(c1, b1, evs2, fc, fb, flag) implies
                            spec_receive_ok(m0, fed, events@ + evs2, fc, fb, flag) by {
                            assert((seq![gev] + evs2).drop_first() =~= evs2);
                            assert((seq![gev] + evs2)[0] == gev);
                            assert(spec_receive_ok(c0, b0, seq![gev] + evs2, fc, fb, flag));
                            assert(spec_receive_ok(
                                m0,
                                fed,
                                events0 + (seq![gev] + evs2),
                                fc,
                                fb,
                                flag,
                            ));
                            assert(events0 + (seq![gev] + evs2) =~= events@ + evs2);
                        }
                        assert forall|e: FrameError|
                            #[trigger] spec_receive_err(c1, b1, e) implies spec_receive_err(
                            m0,
                            fed,
                            e,
                        ) by {
                            assert(spec_receive_err(c0, b0, e));
                        }
                        assert(decode_ready(b0));
                        assert(stream_rest(b0) == stream_rest(b1));
                        assert(stream_error(b0) == stream_error(b1));
                    }
                },
                Ok(None) => {
                    proof {
                        assert(self.channels_map() =~= c0);
                        assert(self.spec_buf() == b0);
                    }
                    break ;
                },
                Err(e) => {
                    proof {
                        assert(!decode_ready(b0));
                        assert(stream_rest(b0) == b0);
                        assert(stream_error(b0) == decode_bad(b0));
                        assert(spec_receive_err(c0, b0, e));
                        assert(spec_receive_err(m0, fed, e));
                        assert(stream_error(fed));
                        assert(stream_rest(fed) == b0);
                        assert(e == FrameError::InvalidType(stream_rest(fed)[0]));
                    }
                    self.terminate();
                    proof {
                        assert(self.spec_buf() == stream_rest(fed));
                    }
                    return Err(e);
                },
            }
        }
        proof {
            assert(stream_rest(self.spec_buf()) == self.spec_buf());
            assert(spec_receive_ok(
                self.channels_map(),
                self.spec_buf(),
                Seq::<MuxEvent>::empty(),
                self.channels_map(),
                self.spec_buf(),
                false,
            ));
            assert(events@ + Seq::<MuxEvent>::empty() =~= events@);
        }
        Ok(events)
    }
}

/// How one frame steps the abstract channel table: the table afterwards,
/// and whether the frame is fatal to the session.
pub open spec fn spec_mux_step(chans: Map<u16, ChannelState>, f: FrameView) -> (
    Map<u16, ChannelState>,
    bool,
) {
    match f.frame_type {
        FrameType::Data => if chans.dom().contains(f.channel_id) {
            (chans, false)
        } else {
            (Map::<u16, ChannelState>::empty(), true)
        },
        FrameType::Connect => if spec_parse_connect(f) is None || f.payload[0] == 0
            || chans.dom().contains(f.channel_id) {
            (Map::<u16, ChannelState>::empty(), true)
        } else {
            (chans, false)
        },
        FrameType::ConnectOk => if chans.dom().contains(f.channel_id) && chans[f.channel_id]
            == ChannelState::Opening {
            (chans.insert(f.channel_id, ChannelState::Open), false)
        } else {
            (chans, false)
        },
        FrameType::ConnectFail => (chans.remove(f.channel_id), false),
        FrameType::Close => (chans.remove(f.channel_id), false),
        FrameType::Keepalive => (chans, false),
        FrameType::KeepaliveAck => (chans, false),
    }
}

/// The event [`ChannelMux::accept_frame`]'s table assigns to one frame
/// against a channel table.
pub open spec fn spec_event_ok(chans: Map<u16, ChannelState>, f: FrameView, ev: MuxEvent) -> bool {
    match f.frame_type {
        FrameType::Data => if chans.dom().contains(f.channel_id) {
            (ev matches MuxEvent::Data(c, d) && c == f.channel_id && d@ == f.payload)
        } else {
            ev is Fatal
        },
        FrameType::Connect => if spec_parse_connect(f) is None || f.payload[0] == 0
            || chans.dom().contains(f.channel_id) {
            ev is Fatal
        } else {
            (ev matches MuxEvent::PeerConnect(c, h, p) && c == f.channel_id && spec_parse_connect(
                f,
            ) == Some((h@, p)))
        },
        FrameType::ConnectOk => if chans.dom().contains(f.channel_id) && chans[f.channel_id]
            == ChannelState::Opening {
            (ev matches MuxEvent::Opened(c) && c == f.channel_id)
        } else {
            ev is Ignored
        },
        FrameType::ConnectFail => if chans.dom().contains(f.channel_id) {
            (ev matches MuxEvent::OpenFailed(c, reason) && c == f.channel_id && reason@
                == f.payload)
        } else {
            ev is Ignored
        },
        FrameType::Close => if chans.dom().contains(f.channel_id) {
            (ev matches MuxEvent::ChannelClosed(c) && c == f.channel_id)
        } else {
            ev is Ignored
        },
        FrameType::Keepalive => ev is KeepaliveProbe,
        FrameType::KeepaliveAck => ev is KeepaliveAcked,
    }
}

/// What [`ChannelMux::receive`] owes for buffered bytes, relationally:
/// each complete frame, in order, yields the event of
/// [`spec_event_ok`] and steps the table by [`spec_mux_step`]; a fatal
/// frame ends interpretation with the table released and the remaining
/// bytes kept; with no complete frame left and no unrecognized tag,
/// interpretation stops with the table and the bytes as they stand.
pub open spec fn spec_receive_ok(
    chans: Map<u16, ChannelState>,
    b: Seq<u8>,
    events: Seq<MuxEvent>,
    final_chans: Map<u16, ChannelState>,
    final_buf: Seq<u8>,
    fatal: bool,
) -> bool
    decreases b.len(),
{
    if !decode_ready(b) {
        &&& !decode_bad(b)
        &&& events.len() == 0
        &&& final_chans == chans
        &&& final_buf == b
        &&& !fatal
    } else {
        let f = decode_frame(b);
        &&& events.len() >= 1
        &&& spec_event_ok(chans, f, events[0])
        &&& if spec_mux_step(chans, f).1 {
            &&& events.len() == 1
            &&& final_chans == Map::<u16, ChannelState>::empty()
            &&& final_buf == decode_rest(b)
            &&& fatal
        } else {
            spec_receive_ok(
                spec_mux_step(chans, f).0,
                decode_rest(b),
                events.drop_first(),
                final_chans,
                final_buf,
                fatal,
            )
        }
    }
}

/// The error [`ChannelMux::receive`] owes for buffered bytes: every
/// complete frame before the error is non-fatal, and draining then runs
/// into this unrecognized tag.
pub open spec fn spec_receive_err(
    chans: Map<u16, ChannelState>,
    b: Seq<u8>,
    e: FrameError,
) -> bool
    decreases b.len(),
{
    if decode_bad(b) {
        e == FrameError::InvalidType(b[0])
    } else if decode_ready(b) {
        &&& !spec_mux_step(chans, decode_frame(b)).1
        &&& spec_receive_err(spec_mux_step(chans, decode_frame(b)).0, decode_rest(b), e)
    } else {
        false
    }
}

/// One accepted frame leaves the multiplexer exactly where
/// [`spec_mux_step`] puts the channel table, with the event of
/// [`spec_event_ok`].
proof fn lemma_accept_matches_step(pre: ChannelMux, post: ChannelMux, f: FrameView, ev: MuxEvent)
    requires
        accept_frame_rel(pre, post, f, ev),
    ensures
        spec_event_ok(pre.channels_map(), f, ev),
        ev is Fatal ==> spec_mux_step(pre.channels_map(), f).1 && post.channels_map() == Map::<
            u16,
            ChannelState,
        >::empty(),
        !(ev is Fatal) ==> !spec_mux_step(pre.channels_map(), f).1 && post.channels_map()
            == spec_mux_step(pre.channels_map(), f).0,
{
    let c0 = pre.channels_map();
    let cid = f.channel_id;
    if ev is Fatal {
        assert forall|k: u16| !(#[trigger] post.channels_map().dom().contains(k)) by {
            assert(post.channel_state(k) is None);
        }
        assert(post.channels_map() =~= Map::<u16, ChannelState>::empty());
    }
    if f.frame_type == FrameType::Data {
        match ev {
            MuxEvent::Data(_, _) => {
                assert(c0.dom().contains(cid));
            },
            MuxEvent::Fatal => {
                assert(!c0.dom().contains(cid));
            },
            _ => {
                assert(false);
            },
        }
    } else if f.frame_type == FrameType::ConnectOk {
        match ev {
            MuxEvent::Opened(_) => {
                assert(c0.dom().contains(cid) && c0[cid] == ChannelState::Opening);
                let st = c0.insert(cid, ChannelState::Open);
                assert forall|k: u16|
                    #![trigger post.channels_map().dom().contains(k)]
                    #![trigger st.dom().contains(k)]
                    post.channels_map().dom().contains(k) <==> st.dom().contains(k) by {
                    if k != cid {
                        assert(post.channel_state(k) == pre.channel_state(k));
                    }
                }
                assert forall|k: u16| st.dom().contains(k) implies #[trigger] post.channels_map()[k]
                    == st[k] by {
                    if k != cid {
                        assert(post.channel_state(k) == pre.channel_state(k));
                    }
                }
                assert(post.channels_map() =~= st);
            },
            MuxEvent::Ignored => {
                assert(!(c0.dom().contains(cid) && c0[cid] == ChannelState::Opening));
            },
            _ => {
                assert(false);
            },
        }
    } else if f.frame_type == FrameType::ConnectFail || f.frame_type == FrameType::Close {
        let st = c0.remove(cid);
        match ev {
            MuxEvent::OpenFailed(_, _) | MuxEvent::ChannelClosed(_) => {
                assert(c0.dom().contains(cid));
                assert forall|k: u16|
                    #![trigger post.channels_map().dom().contains(k)]
                    #![trigger st.dom().contains(k)]
                    post.channels_map().dom().contains(k) <==> st.dom().contains(k) by {
                    if k != cid {
                        assert(post.channel_state(k) == pre.channel_state(k));
                    } else {
                        assert(post.channel_state(cid) is None);
                    }
                }
                assert forall|k: u16| st.dom().contains(k) implies #[trigger] post.channels_map()[k]
                    == st[k] by {
                    assert(post.channel_state(k) == pre.channel_state(k));
                }
                assert(post.channels_map() =~= st);
            },
            MuxEvent::Ignored => {
                assert(!c0.dom().contains(cid));
                assert(st =~= c0);
            },
            _ => {
                assert(false);
            },
        }
    } else if f.frame_type == FrameType::Connect {
        match ev {
            MuxEvent::PeerConnect(_, _, _) => {
                assert(!c0.dom().contains(cid));
            },
            MuxEvent::Fatal => {
                assert(spec_parse_connect(f) is None || f.payload[0] == 0 || c0.dom().contains(
                    cid,
                ));
            },
            _ => {
                assert(false);
            },
        }
    }
}

/// What the keepalive policy asks for at a point in time.
#[derive(Debug, Clone, Copy, PartialEq, Eq, Structural)]
pub enum KeepaliveAction {
    /// Traffic is recent enough; do nothing.
    Nothing,
    /// The link has been quiet for the probe interval: send a KEEPALIVE.
    SendProbe,
    /// Nothing, not even an acknowledgment, was seen for the idle timeout:
    /// close the session.
    CloseSession,
}

/// Keepalive policy: probe after a quiet interval, close after an idle
/// timeout.  Any frame in either direction counts as traffic.
pub struct KeepalivePolicy {
    /// Seconds of quiet before a probe is sent.
    pub interval: u64,
    /// Seconds of quiet before the session is closed.
    pub idle_timeout: u64,
    /// When traffic was last seen.
    pub last_traffic: u64,
    /// Whether a probe is outstanding since the last traffic.
    pub probe_sent: bool,
}

impl KeepalivePolicy {
    /// When traffic was last seen.
    pub open spec fn spec_last_traffic(self) -> u64 {
        self.last_traffic
    }

    /// Whether a probe is outstanding since the last traffic.
    pub open spec fn spec_probe_sent(self) -> bool {
        self.probe_sent
    }

    /// Start the clocks at `now`.
    pub fn new(interval: u64, idle_timeout: u64, now: u64) -> (r: Self)
        ensures
            r.interval == interval,
            r.idle_timeout == idle_timeout,
            r.spec_last_traffic() == now,
            !r.spec_probe_sent(),
    {
        KeepalivePolicy { interval, idle_timeout, last_traffic: now, probe_sent: false }
    }

    /// A frame was seen: the quiet clocks restart.
    pub fn on_traffic(&mut self, now: u64)
        ensures
            final (self).interval == old(self).interval,
            final (self).idle_timeout == old(self).idle_timeout,
            final (self).spec_last_traffic() == now,
            !final (self).spec_probe_sent(),
    {
        self.last_traffic = now;
        self.probe_sent = false;
    }

    /// What to do at `now`: close once the idle timeout has passed without
    /// traffic, probe once per quiet interval, otherwise nothing.
    pub fn decide(&mut self, now: u64) -> (r: KeepaliveAction)
        ensures
            final (self).interval == old(self).interval,
            final (self).idle_timeout == old(self).idle_timeout,
            final (self).spec_last_traffic() == old(self).spec_last_traffic(),
            r == (if now >= old(self).spec_last_traffic() && now - old(self).spec_last_traffic()
                >= old(self).idle_timeout {
                KeepaliveAction::CloseSession
            } else if now >= old(self).spec_last_traffic() && now - old(
                self,
            ).spec_last_traffic() >= old(self).interval && !old(self).spec_probe_sent() {
                KeepaliveAction::SendProbe
            } else {
                KeepaliveAction::Nothing
            }),
            final (self).spec_probe_sent() == (old(self).spec_probe_sent() || r
                == KeepaliveAction::SendProbe),
    {
        if now >= self.last_traffic && now - self.last_traffic >= self.idle_timeout {
            KeepaliveAction::CloseSession
        } else if now >= self.last_traffic && now - self.last_traffic >= self.interval
            && !self.probe_sent {
            self.probe_sent = true;
            KeepaliveAction::SendProbe
        } else {
            KeepaliveAction::Nothing
        }
    }
}

/// The at-most-65535-byte chunks a byte sequence is sliced into, in order.
pub open spec fn spec_chunks(b: Seq<u8>) -> Seq<Seq<u8>>
    decreases b.len(),
{
    if b.len() == 0 {
        Seq::empty()
    } else if b.len() <= MAX_PAYLOAD_SIZE {
        seq![b]
    } else {
        seq![b.take(MAX_PAYLOAD_SIZE as int)] + spec_chunks(b.skip(MAX_PAYLOAD_SIZE as int))
    }
}

/// The concatenation of byte chunks.
pub open spec fn spec_concat(cs: Seq<Seq<u8>>) -> Seq<u8>
    decreases cs.len(),
{
    if cs.len() == 0 {
        Seq::empty()
    } else {
        cs[0] + spec_concat(cs.drop_first())
    }
}

/// Slicing preserves the bytes: the chunks concatenate back to the input,
/// and each fits one frame.
pub proof fn lemma_chunks_concat(b: Seq<u8>)
    ensures
        spec_concat(spec_chunks(b)) =~= b,
        forall|i: int|
            0 <= i < spec_chunks(b).len() ==> #[trigger] spec_chunks(b)[i].len()
                <= MAX_PAYLOAD_SIZE,
    decreases b.len(),
{
    if b.len() > MAX_PAYLOAD_SIZE {
        lemma_chunks_concat(b.skip(MAX_PAYLOAD_SIZE as int));
        assert(spec_chunks(b.skip(MAX_PAYLOAD_SIZE as int)) =~= spec_chunks(b).drop_first());
    } else if b.len() > 0 {
        assert(spec_chunks(b) =~= seq![b]);
        assert(seq![b].drop_first() =~= Seq::<Seq<u8>>::empty());
        assert(spec_concat(Seq::<Seq<u8>>::empty()) == Seq::<u8>::empty());
        assert(spec_concat(seq![b]) =~= b + Seq::<u8>::empty());
    }
}

/// Slice outbound bytes into DATA frames of at most 65535 bytes each.
pub fn split_data_frames(channel_id: u16, data: &[u8]) -> (r: Vec<Frame>)
    ensures
        r@.len() == spec_chunks(data@).len(),
        forall|i: int|
            0 <= i < r@.len() ==> #[trigger] r@[i]@ == (FrameView {
                frame_type: FrameType::Data,
                channel_id,
                payload: spec_chunks(data@)[i],
            }),
    decreases data@.len(),
{
    let n: usize = data.len();
    if n == 0 {
        return Vec::new();
    }
    if n <= MAX_PAYLOAD_SIZE {
        let payload: Vec<u8> = vstd::slice::slice_to_vec(data);
        let f = Frame::data(channel_id, payload);
        let mut r: Vec<Frame> = Vec::new();
        r.push(f);
        proof {
            assert(spec_chunks(data@) =~= seq![data@]);
        }
        return r;
    }
    let head: &[u8] = vstd::slice::slice_subrange(data, 0, MAX_PAYLOAD_SIZE);
    let tail: &[u8] = vstd::slice::slice_subrange(data, MAX_PAYLOAD_SIZE, n);
    proof {
        assert(head@ =~= data@.take(MAX_PAYLOAD_SIZE as int));
        assert(tail@ =~= data@.skip(MAX_PAYLOAD_SIZE as int));
    }
    let payload: Vec<u8> = vstd::slice::slice_to_vec(head);
    let f = Frame::data(channel_id, payload);
    let mut r: Vec<Frame> = split_data_frames(channel_id, tail);
    r.insert(0, f);
    r
}

/// One side's outbound operation on the multiplexed transport.
pub enum ChannelOp {
    /// Open a channel to `host:port`.
    Connect(u16, String, u16),
    /// Send bytes on a channel.
    Data(u16, Vec<u8>),
    /// Close a channel.
    Close(u16),
}

impl ChannelOp {
    /// An operation is well formed when a CONNECT host's UTF-8 encoding
    /// fits its length byte.
    pub open spec fn wf(self) -> bool {
        match self {
            ChannelOp::Connect(_, host, _) => encode_utf8(host@).len() <= 255,
            _ => true,
        }
    }

    /// The frames one operation puts on the wire.
    pub open spec fn spec_frames(self) -> Seq<FrameView> {
        match self {
            ChannelOp::Connect(cid, host, port) => seq![
                FrameView {
                    frame_type: FrameType::Connect,
                    channel_id: cid,
                    payload: spec_connect_payload(encode_utf8(host@), port),
                },
            ],
            ChannelOp::Data(cid, data) => Seq::new(
                spec_chunks(data@).len(),
                |i: int| FrameView {
                    frame_type: FrameType::Data,
                    channel_id: cid,
                    payload: spec_chunks(data@)[i],
                },
            ),
            ChannelOp::Close(cid) => seq![
                FrameView { frame_type: FrameType::Close, channel_id: cid, payload: Seq::empty() },
            ],
        }
    }
}

/// The frames a sequence of operations puts on the wire, in order.
pub open spec fn spec_ops_frames(ops: Seq<ChannelOp>) -> Seq<FrameView>
    decreases ops.len(),
{
    if ops.len() == 0 {
        Seq::empty()
    } else {
        ops[0].spec_frames() + spec_ops_frames(ops.drop_first())
    }
}

/// The wire bytes of a sequence of frames.
pub open spec fn spec_frames_wire(fs: Seq<FrameView>) -> Seq<u8>
    decreases fs.len(),
{
    if fs.len() == 0 {
        Seq::empty()
    } else {
        spec_serialize(fs[0]) + spec_frames_wire(fs.drop_first())
    }
}

/// The bytes a sequence of operations sends on one channel, in order.
pub open spec fn spec_sent_bytes(ops: Seq<ChannelOp>, cid: u16) -> Seq<u8>
    decreases ops.len(),
{
    if ops.len() == 0 {
        Seq::empty()
    } else {
        (match ops[0] {
            ChannelOp::Data(c, data) => if c == cid {
                data@
            } else {
                Seq::empty()
            },
            _ => Seq::empty(),
        }) + spec_sent_bytes(ops.drop_first(), cid)
    }
}

/// The bytes a sequence of frames delivers on one channel, in order: the
/// payloads of its DATA frames.
pub open spec fn spec_delivered_bytes(fs: Seq<FrameView>, cid: u16) -> Seq<u8>
    decreases fs.len(),
{
    if fs.len() == 0 {
        Seq::empty()
    } else {
        (if fs[0].frame_type == FrameType::Data && fs[0].channel_id == cid {
            fs[0].payload
        } else {
            Seq::empty()
        }) + spec_delivered_bytes(fs.drop_first(), cid)
    }
}

/// A well-formed frame followed by more wire bytes decodes to the frame and
/// the rest.
proof fn lemma_decode_one(f: FrameView, rest: Seq<u8>)
    requires
        f.wf(),
    ensures
        decode_stream(spec_serialize(f) + rest) =~= seq![f] + decode_stream(rest),
{
    lemma_encode_decode_roundtrip(f);
    lemma_decode_ready_extend(spec_serialize(f), rest);
    assert(decode_rest(spec_serialize(f) + rest) =~= rest);
}

/// Every frame an operation emits is well formed.
proof fn lemma_op_frames_wf(op: ChannelOp)
    requires
        op.wf(),
    ensures
        forall|i: int| 0 <= i < op.spec_frames().len() ==> (#[trigger] op.spec_frames()[i]).wf(),
{
    match op {
        ChannelOp::Connect(_, _, _) => {
        },
        ChannelOp::Data(_, data) => {
            lemma_chunks_concat(data@);
        },
        ChannelOp::Close(_) => {
        },
    }
}

/// The wire of a frame sequence decodes back to the frames.
proof fn lemma_wire_decodes(fs: Seq<FrameView>)
    requires
        forall|i: int| 0 <= i < fs.len() ==> (#[trigger] fs[i]).wf(),
    ensures
        decode_stream(spec_frames_wire(fs)) =~= fs,
    decreases fs.len(),
{
    if fs.len() > 0 {
        assert forall|i: int| 0 <= i < fs.drop_first().len() implies (
        #[trigger] fs.drop_first()[i]).wf() by {
            assert(fs.drop_first()[i] == fs[i + 1]);
        }
        lemma_wire_decodes(fs.drop_first());
        lemma_decode_one(fs[0], spec_frames_wire(fs.drop_first()));
    }
}

/// Delivery distributes over concatenation of frame sequences.
proof fn lemma_delivered_append(fs1: Seq<FrameView>, fs2: Seq<FrameView>, cid: u16)
    ensures
        spec_delivered_bytes(fs1 + fs2, cid) =~= spec_delivered_bytes(fs1, cid)
            + spec_delivered_bytes(fs2, cid),
    decreases fs1.len(),
{
    if fs1.len() == 0 {
        assert(fs1 + fs2 =~= fs2);
    } else {
        assert((fs1 + fs2).drop_first() =~= fs1.drop_first() + fs2);
        lemma_delivered_append(fs1.drop_first(), fs2, cid);
    }
}

/// The chunk frames of one data payload deliver exactly that payload.
proof fn lemma_chunk_frames_deliver(data: Seq<u8>, c: u16, cid: u16)
    ensures
        spec_delivered_bytes(
            Seq::new(
                spec_chunks(data).len(),
                |i: int| FrameView {
                    frame_type: FrameType::Data,
                    channel_id: c,
                    payload: spec_chunks(data)[i],
                },
            ),
            cid,
        ) =~= if c == cid {
            data
        } else {
            Seq::empty()
        },
{
    lemma_chunks_concat(data);
    lemma_chunk_seq_deliver(spec_chunks(data), c, cid);
}

proof fn lemma_chunk_seq_deliver(cs: Seq<Seq<u8>>, c: u16, cid: u16)
    ensures
        spec_delivered_bytes(
            Seq::new(
                cs.len(),
                |i: int| FrameView { frame_type: FrameType::Data, channel_id: c, payload: cs[i] },
            ),
            cid,
        ) =~= if c == cid {
            spec_concat(cs)
        } else {
            Seq::empty()
        },
    decreases cs.len(),
{
    let fs = Seq::new(
        cs.len(),
        |i: int| FrameView { frame_type: FrameType::Data, channel_id: c, payload: cs[i] },
    );
    if cs.len() > 0 {
        lemma_chunk_seq_deliver(cs.drop_first(), c, cid);
        assert(fs.drop_first() =~= Seq::new(
            cs.drop_first().len(),
            |i: int| FrameView {
                frame_type: FrameType::Data,
                channel_id: c,
                payload: cs.drop_first()[i],
            },
        ));
    }
}

/// Law: over any interleaved operation sequence, the bytes the decoded wire
/// delivers on each channel equal the bytes sent on that channel, in the
/// same order.
pub proof fn lemma_mux_order(ops: Seq<ChannelOp>, cid: u16)
    requires
        forall|i: int| 0 <= i < ops.len() ==> (#[trigger] ops[i]).wf(),
    ensures
        spec_delivered_bytes(decode_stream(spec_frames_wire(spec_ops_frames(ops))), cid)
            =~= spec_sent_bytes(ops, cid),
{
    lemma_ops_frames_wf(ops);
    lemma_wire_decodes(spec_ops_frames(ops));
    lemma_ops_deliver(ops, cid);
}

proof fn lemma_ops_frames_wf(ops: Seq<ChannelOp>)
    requires
        forall|i: int| 0 <= i < ops.len() ==> (#[trigger] ops[i]).wf(),
    ensures
        forall|i: int|
            0 <= i < spec_ops_frames(ops).len() ==> (#[trigger] spec_ops_frames(ops)[i]).wf(),
    decreases ops.len(),
{
    if ops.len() > 0 {
        lemma_op_frames_wf(ops[0]);
        assert forall|i: int| 0 <= i < ops.drop_first().len() implies (
        #[trigger] ops.drop_first()[i]).wf() by {
            assert(ops.drop_first()[i] == ops[i + 1]);
        }
        lemma_ops_frames_wf(ops.drop_first());
        assert forall|i: int| 0 <= i < spec_ops_frames(ops).len() implies (
        #[trigger] spec_ops_frames(ops)[i]).wf() by {
            let head = ops[0].spec_frames();
            if i >= head.len() {
                assert(spec_ops_frames(ops)[i] == spec_ops_frames(ops.drop_first())[i
                    - head.len()]);
            }
        }
    }
}

proof fn lemma_ops_deliver(ops: Seq<ChannelOp>, cid: u16)
    ensures
        spec_delivered_bytes(spec_ops_frames(ops), cid) =~= spec_sent_bytes(ops, cid),
    decreases ops.len(),
{
    if ops.len() > 0 {
        lemma_delivered_append(ops[0].spec_frames(), spec_ops_frames(ops.drop_first()), cid);
        lemma_ops_deliver(ops.drop_first(), cid);
        let head = ops[0].spec_frames();
        match ops[0] {
            ChannelOp::Connect(_, _, _) => {
                assert(head.drop_first() =~= Seq::<FrameView>::empty());
                assert(spec_delivered_bytes(Seq::<FrameView>::empty(), cid) == Seq::<u8>::empty());
                assert(spec_delivered_bytes(head, cid) =~= Seq::<u8>::empty());
            },
            ChannelOp::Data(c, data) => {
                lemma_chunk_frames_deliver(data@, c, cid);
            },
            ChannelOp::Close(_) => {
                assert(head.drop_first() =~= Seq::<FrameView>::empty());
                assert(spec_delivered_bytes(Seq::<FrameView>::empty(), cid) == Seq::<u8>::empty());
                assert(spec_delivered_bytes(head, cid) =~= Seq::<u8>::empty());
            },
        }
    }
}

} // verus!
