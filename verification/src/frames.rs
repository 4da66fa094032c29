//! Binary multiplexing frame protocol.
//!
//! Wire layout of one frame: `type:u8 | channel_id:u16be | length:u16be |
//! payload[length]`.  The decoder is a stream decoder: it accepts arbitrary
//! chunks of bytes and yields complete frames as they arrive, keeping
//! trailing bytes for the next call.

use vstd::prelude::*;

verus! {

use vstd::string::StringSliceAdditionalSpecFns;
use vstd::string::StrSliceExecFns;

/// Protocol version.
pub const PROTOCOL_VERSION: u8 = 1;

/// Maximum payload size carried by one frame (the length field is 16 bits).
pub const MAX_PAYLOAD_SIZE: usize = 65535;

/// Frame header size: type (1) + channel id (2) + length (2).
pub const FRAME_HEADER_SIZE: usize = 5;

/// Frame types of the binary protocol, encoded as 1-byte tags 0x01..=0x07.
#[derive(Clone, Copy, Debug, PartialEq, Eq, Structural)]
pub enum FrameType {
    /// Tunnel data.
    Data,
    /// Open a new channel.
    Connect,
    /// Connection succeeded.
    ConnectOk,
    /// Connection failed.
    ConnectFail,
    /// Close a channel.
    Close,
    /// Keepalive probe.
    Keepalive,
    /// Keepalive acknowledgment.
    KeepaliveAck,
}

impl FrameType {
    /// The 1-byte wire tag of this frame type.
    pub open spec fn spec_tag(self) -> u8 {
        match self {
            FrameType::Data => 0x01,
            FrameType::Connect => 0x02,
            FrameType::ConnectOk => 0x03,
            FrameType::ConnectFail => 0x04,
            FrameType::Close => 0x05,
            FrameType::Keepalive => 0x06,
            FrameType::KeepaliveAck => 0x07,
        }
    }

    /// The frame type a wire tag stands for, if any.
    pub open spec fn spec_from_u8(value: u8) -> Option<FrameType> {
        if value == 0x01 {
            Some(FrameType::Data)
        } else if value == 0x02 {
            Some(FrameType::Connect)
        } else if value == 0x03 {
            Some(FrameType::ConnectOk)
        } else if value == 0x04 {
            Some(FrameType::ConnectFail)
        } else if value == 0x05 {
            Some(FrameType::Close)
        } else if value == 0x06 {
            Some(FrameType::Keepalive)
        } else if value == 0x07 {
            Some(FrameType::KeepaliveAck)
        } else {
            None
        }
    }

    /// Executable tag of this frame type.
    pub fn tag(&self) -> (r: u8)
        ensures
            r == self.spec_tag(),
    {
        match self {
            FrameType::Data => 0x01,
            FrameType::Connect => 0x02,
            FrameType::ConnectOk => 0x03,
            FrameType::ConnectFail => 0x04,
            FrameType::Close => 0x05,
            FrameType::Keepalive => 0x06,
            FrameType::KeepaliveAck => 0x07,
        }
    }

    /// Parse a wire tag.
    pub fn from_u8(value: u8) -> (r: Option<FrameType>)
        ensures
            r == FrameType::spec_from_u8(value),
    {
        match value {
            0x01 => Some(FrameType::Data),
            0x02 => Some(FrameType::Connect),
            0x03 => Some(FrameType::ConnectOk),
            0x04 => Some(FrameType::ConnectFail),
            0x05 => Some(FrameType::Close),
            0x06 => Some(FrameType::Keepalive),
            0x07 => Some(FrameType::KeepaliveAck),
            _ => None,
        }
    }
}

/// Tags and frame types correspond one to one.
pub proof fn lemma_tag_roundtrip(t: FrameType)
    ensures
        FrameType::spec_from_u8(t.spec_tag()) == Some(t),
{
}

/// Mathematical model of a frame.
#[verifier::ext_equal]
pub ghost struct FrameView {
    pub frame_type: FrameType,
    pub channel_id: u16,
    pub payload: Seq<u8>,
}

impl FrameView {
    /// A frame is well formed when its payload fits the 16-bit length field.
    pub open spec fn wf(self) -> bool {
        self.payload.len() <= MAX_PAYLOAD_SIZE
    }
}

/// High byte of a 16-bit value in big-endian order.
pub open spec fn u16_hi(x: u16) -> u8 {
    (x / 256) as u8
}

/// Low byte of a 16-bit value in big-endian order.
pub open spec fn u16_lo(x: u16) -> u8 {
    (x % 256) as u8
}

/// The 16-bit value of two big-endian bytes.
pub open spec fn u16_of(hi: u8, lo: u8) -> u16 {
    (hi * 256 + lo) as u16
}

/// The wire bytes of a frame.
pub open spec fn spec_serialize(f: FrameView) -> Seq<u8> {
    seq![
        f.frame_type.spec_tag(),
        u16_hi(f.channel_id),
        u16_lo(f.channel_id),
        u16_hi(f.payload.len() as u16),
        u16_lo(f.payload.len() as u16),
    ] + f.payload
}

/// Declared payload length of a buffered header.
pub open spec fn decode_len(b: Seq<u8>) -> int
    recommends
        b.len() >= FRAME_HEADER_SIZE,
{
    b[3] * 256 + b[4]
}

/// The buffer starts with a full header whose type tag is not recognized.
pub open spec fn decode_bad(b: Seq<u8>) -> bool {
    b.len() >= FRAME_HEADER_SIZE && FrameType::spec_from_u8(b[0]) is None
}

/// The buffer holds one complete, recognized frame at its front.
pub open spec fn decode_ready(b: Seq<u8>) -> bool {
    &&& b.len() >= FRAME_HEADER_SIZE
    &&& FrameType::spec_from_u8(b[0]) is Some
    &&& b.len() >= FRAME_HEADER_SIZE + decode_len(b)
}

/// The frame at the front of the buffer.
pub open spec fn decode_frame(b: Seq<u8>) -> FrameView
    recommends
        decode_ready(b),
{
    FrameView {
        frame_type: FrameType::spec_from_u8(b[0])->Some_0,
        channel_id: u16_of(b[1], b[2]),
        payload: b.subrange(FRAME_HEADER_SIZE as int, FRAME_HEADER_SIZE + decode_len(b)),
    }
}

/// What remains of the buffer once the frame at its front is split off.
pub open spec fn decode_rest(b: Seq<u8>) -> Seq<u8>
    recommends
        decode_ready(b),
{
    b.subrange(FRAME_HEADER_SIZE + decode_len(b), b.len() as int)
}

/// All complete frames at the front of the buffer, in order.
pub open spec fn decode_stream(b: Seq<u8>) -> Seq<FrameView>
    decreases b.len(),
{
    if decode_ready(b) {
        seq![decode_frame(b)] + decode_stream(decode_rest(b))
    } else {
        Seq::empty()
    }
}

/// The bytes left over once every complete frame has been split off.
pub open spec fn stream_rest(b: Seq<u8>) -> Seq<u8>
    decreases b.len(),
{
    if decode_ready(b) {
        stream_rest(decode_rest(b))
    } else {
        b
    }
}

/// Whether draining the buffer runs into an unrecognized type tag.
pub open spec fn stream_error(b: Seq<u8>) -> bool
    decreases b.len(),
{
    if decode_ready(b) {
        stream_error(decode_rest(b))
    } else {
        decode_bad(b)
    }
}

/// Binary protocol frame.
#[derive(Debug, Clone)]
pub struct Frame {
    pub frame_type: FrameType,
    pub channel_id: u16,
    pub payload: Vec<u8>,
}

impl View for Frame {
    type V = FrameView;

    open spec fn view(&self) -> FrameView {
        FrameView { frame_type: self.frame_type, channel_id: self.channel_id, payload: self.payload@ }
    }
}

/// The payload of a CONNECT frame: `host_len:u8 | host_bytes | port:u16be`.
pub open spec fn spec_connect_payload(host: Seq<u8>, port: u16) -> Seq<u8>
    recommends
        host.len() <= 255,
{
    seq![host.len() as u8] + host + seq![u16_hi(port), u16_lo(port)]
}

/// A CONNECT frame built from a host and port parses back into them, for
/// any UTF-8 host of at most 255 encoded bytes.
pub proof fn lemma_connect_roundtrip(channel_id: u16, host: Seq<char>, port: u16)
    requires
        vstd::utf8::encode_utf8(host).len() <= 255,
    ensures
        spec_parse_connect(
            FrameView {
                frame_type: FrameType::Connect,
                channel_id,
                payload: spec_connect_payload(vstd::utf8::encode_utf8(host), port),
            },
        ) == Some((host, port)),
{
    let hb = vstd::utf8::encode_utf8(host);
    let p = spec_connect_payload(hb, port);
    let f = FrameView { frame_type: FrameType::Connect, channel_id, payload: p };
    assert(p[0] == hb.len() as u8);
    assert(p.subrange(1, 1 + p[0]) =~= hb);
    vstd::utf8::encode_utf8_valid_utf8(host);
    vstd::utf8::encode_utf8_decode_utf8(host);
    lemma_u16_bytes_roundtrip(port);
    assert(p[1 + p[0]] == u16_hi(port));
    assert(p[2 + p[0]] == u16_lo(port));
}

/// The destination a CONNECT payload names: the decoded host and the port,
/// when the frame is a CONNECT whose payload holds `host_len`, that many
/// valid UTF-8 host bytes, and a port.
pub open spec fn spec_parse_connect(f: FrameView) -> Option<(Seq<char>, u16)> {
    if f.frame_type != FrameType::Connect {
        None
    } else if f.payload.len() < 1 {
        None
    } else if f.payload.len() < 3 + f.payload[0] {
        None
    } else if !vstd::utf8::valid_utf8(f.payload.subrange(1, 1 + f.payload[0])) {
        None
    } else {
        Some(
            (
                vstd::utf8::decode_utf8(f.payload.subrange(1, 1 + f.payload[0])),
                u16_of(f.payload[1 + f.payload[0]], f.payload[2 + f.payload[0]]),
            ),
        )
    }
}

impl Frame {
    /// Create a new frame.
    pub fn new(frame_type: FrameType, channel_id: u16, payload: Vec<u8>) -> (r: Frame)
        requires
            payload@.len() <= MAX_PAYLOAD_SIZE,
        ensures
            r@ == (FrameView { frame_type, channel_id, payload: payload@ }),
    {
        Frame { frame_type, channel_id, payload }
    }

    /// Create a DATA frame.
    pub fn data(channel_id: u16, data: Vec<u8>) -> (r: Frame)
        requires
            data@.len() <= MAX_PAYLOAD_SIZE,
        ensures
            r@ == (FrameView { frame_type: FrameType::Data, channel_id, payload: data@ }),
    {
        Frame::new(FrameType::Data, channel_id, data)
    }

    /// Create a CONNECT frame addressed to `host:port`.  The host may be
    /// any UTF-8 text whose encoding fits the one-byte length field.
    pub fn connect(channel_id: u16, host: &str, port: u16) -> (r: Frame)
        requires
            host.spec_bytes().len() <= 255,
        ensures
            r@.frame_type == FrameType::Connect,
            r@.channel_id == channel_id,
            r@.payload == spec_connect_payload(host.spec_bytes(), port),
    {
        let host_bytes: Vec<u8> = host.as_bytes_vec();
        let hlen: u8 = host_bytes.len() as u8;
        let mut payload: Vec<u8> = Vec::new();
        payload.push(hlen);
        let mut i: usize = 0;
        while i < host_bytes.len()
            invariant
                i <= host_bytes.len(),
                host_bytes@.len() <= 255,
                payload@ == seq![host_bytes@.len() as u8] + host_bytes@.subrange(0, i as int),
            decreases host_bytes.len() - i,
        {
            payload.push(host_bytes[i]);
            i = i + 1;
        }
        payload.push(u16_hi_exec(port));
        payload.push(u16_lo_exec(port));
        proof {
            assert(host_bytes@.subrange(0, host_bytes@.len() as int) =~= host_bytes@);
            assert(payload@ =~= spec_connect_payload(host.spec_bytes(), port));
        }
        Frame::new(FrameType::Connect, channel_id, payload)
    }

    /// Create a CONNECT_OK frame.
    pub fn connect_ok(channel_id: u16) -> (r: Frame)
        ensures
            r@ == (FrameView {
                frame_type: FrameType::ConnectOk,
                channel_id,
                payload: Seq::empty(),
            }),
    {
        Frame::new(FrameType::ConnectOk, channel_id, Vec::new())
    }

    /// Create a CONNECT_FAIL frame carrying a UTF-8 reason.
    pub fn connect_fail(channel_id: u16, reason: &str) -> (r: Frame)
        requires
            reason.spec_bytes().len() <= MAX_PAYLOAD_SIZE,
        ensures
            r@ == (FrameView {
                frame_type: FrameType::ConnectFail,
                channel_id,
                payload: reason.spec_bytes(),
            }),
    {
        let payload: Vec<u8> = reason.as_bytes_vec();
        Frame::new(FrameType::ConnectFail, channel_id, payload)
    }

    /// Create a CLOSE frame.
    pub fn close(channel_id: u16) -> (r: Frame)
        ensures
            r@ == (FrameView {
                frame_type: FrameType::Close,
                channel_id,
                payload: Seq::empty(),
            }),
    {
        Frame::new(FrameType::Close, channel_id, Vec::new())
    }

    /// Read the destination out of a CONNECT payload.
    ///
    /// Bytes after the port are ignored; a host that is not valid UTF-8 is
    /// rejected.
    pub fn parse_connect(&self) -> (r: Option<(String, u16)>)
        ensures
            r is Some <==> spec_parse_connect(self@) is Some,
            r matches Some((host, port)) ==> {
                &&& host@ == spec_parse_connect(self@)->Some_0.0
                &&& port == spec_parse_connect(self@)->Some_0.1
            },
    {
        if !(self.frame_type == FrameType::Connect) {
            return None;
        }
        if self.payload.len() < 1 {
            return None;
        }
        let hl: usize = self.payload[0] as usize;
        if self.payload.len() < 3 + hl {
            return None;
        }
        let hb: &[u8] = vstd::slice::slice_subrange(self.payload.as_slice(), 1, 1 + hl);
        let hv: Vec<u8> = vstd::slice::slice_to_vec(hb);
        proof {
            assert(hv@ =~= self@.payload.subrange(1, 1 + self@.payload[0]));
        }
        let host: String = match crate::text::string_from_utf8(hv) {
            Some(h) => h,
            None => {
                return None;
            },
        };
        let port: u16 = (self.payload[1 + hl] as u16) * 256 + (self.payload[2 + hl] as u16);
        Some((host, port))
    }

    /// Serialize the frame to its wire bytes.
    pub fn serialize(&self) -> (r: Vec<u8>)
        requires
            self@.wf(),
        ensures
            r@ == spec_serialize(self@),
    {
        let plen: u16 = self.payload.len() as u16;
        let mut buf: Vec<u8> = Vec::new();
        buf.push(self.frame_type.tag());
        buf.push(u16_hi_exec(self.channel_id));
        buf.push(u16_lo_exec(self.channel_id));
        buf.push(u16_hi_exec(plen));
        buf.push(u16_lo_exec(plen));
        let mut i: usize = 0;
        while i < self.payload.len()
            invariant
                i <= self.payload@.len(),
                self.payload@.len() <= MAX_PAYLOAD_SIZE,
                plen == self.payload@.len(),
                buf@ == seq![
                    self.frame_type.spec_tag(),
                    u16_hi(self.channel_id),
                    u16_lo(self.channel_id),
                    u16_hi(plen),
                    u16_lo(plen),
                ] + self.payload@.subrange(0, i as int),
            decreases self.payload@.len() - i,
        {
            buf.push(self.payload[i]);
            i = i + 1;
        }
        proof {
            assert(self.payload@.subrange(0, self.payload@.len() as int) =~= self.payload@);
            assert(buf@ =~= spec_serialize(self@));
        }
        buf
    }
}

/// Executable high byte of a 16-bit big-endian value.
pub fn u16_hi_exec(x: u16) -> (r: u8)
    ensures
        r == u16_hi(x),
{
    (x / 256) as u8
}

/// Executable low byte of a 16-bit big-endian value.
pub fn u16_lo_exec(x: u16) -> (r: u8)
    ensures
        r == u16_lo(x),
{
    (x % 256) as u8
}

/// Recomposing the two big-endian bytes of a 16-bit value gives it back.
pub proof fn lemma_u16_bytes_roundtrip(x: u16)
    ensures
        u16_of(u16_hi(x), u16_lo(x)) == x,
{
}

/// Frame parsing error.
///
/// `Io` stands for a transport failure observed by the caller, which keeps
/// the underlying error itself.
#[derive(Clone, Copy, Debug, PartialEq, Eq, Structural)]
pub enum FrameError {
    Io,
    InvalidType(u8),
    PayloadTooLarge(usize),
    Incomplete,
}

/// Stream codec for encoding and decoding frames.
pub struct FrameCodec;

impl FrameCodec {
    /// Append the wire bytes of a frame to an output buffer.
    pub fn encode(&mut self, item: &Frame, dst: &mut Vec<u8>) -> (r: Result<(), FrameError>)
        requires
            item@.wf(),
        ensures
            r is Ok,
            final(dst)@ == old(dst)@ + spec_serialize(item@),
    {
        let bytes: Vec<u8> = item.serialize();
        let mut i: usize = 0;
        while i < bytes.len()
            invariant
                i <= bytes@.len(),
                dst@ == old(dst)@ + bytes@.subrange(0, i as int),
            decreases bytes@.len() - i,
        {
            dst.push(bytes[i]);
            i = i + 1;
        }
        proof {
            assert(bytes@.subrange(0, bytes@.len() as int) =~= bytes@);
        }
        Ok(())
    }

    /// Try to split one complete frame off the front of the buffer.
    ///
    /// Returns `Ok(None)` when fewer bytes than one complete frame are
    /// buffered, leaving the buffer unchanged.  The declared length can never
    /// exceed [`MAX_PAYLOAD_SIZE`], because the length field is 16 bits wide;
    /// the `PayloadTooLarge` error is therefore never produced here and is
    /// kept for callers that size payloads themselves.
    pub fn decode(&mut self, src: &mut Vec<u8>) -> (r: Result<Option<Frame>, FrameError>)
        ensures
            match r {
                Ok(Some(f)) => {
                    &&& decode_ready(old(src)@)
                    &&& f@ == decode_frame(old(src)@)
                    &&& f@.wf()
                    &&& final(src)@ == decode_rest(old(src)@)
                },
                Ok(None) => {
                    &&& !decode_ready(old(src)@)
                    &&& !decode_bad(old(src)@)
                    &&& final(src)@ == old(src)@
                },
                Err(e) => {
                    &&& decode_bad(old(src)@)
                    &&& e == FrameError::InvalidType(old(src)@[0])
                    &&& final(src)@ == old(src)@
                },
            },
    {
        if src.len() < FRAME_HEADER_SIZE {
            return Ok(None);
        }
        let tag: u8 = src[0];
        let frame_type: FrameType = match FrameType::from_u8(tag) {
            Some(t) => t,
            None => {
                return Err(FrameError::InvalidType(tag));
            },
        };
        let payload_len: usize = (src[3] as usize) * 256 + (src[4] as usize);
        let total: usize = FRAME_HEADER_SIZE + payload_len;
        if src.len() < total {
            return Ok(None);
        }
        let tail: Vec<u8> = src.split_off(total);
        let channel_id: u16 = (src[1] as u16) * 256 + (src[2] as u16);
        let mut payload: Vec<u8> = Vec::new();
        let mut i: usize = FRAME_HEADER_SIZE;
        while i < total
            invariant
                FRAME_HEADER_SIZE <= i <= total,
                total == src@.len(),
                total == FRAME_HEADER_SIZE + payload_len,
                payload@ == src@.subrange(FRAME_HEADER_SIZE as int, i as int),
            decreases total - i,
        {
            payload.push(src[i]);
            i = i + 1;
        }
        let frame = Frame { frame_type, channel_id, payload };
        proof {
            assert(old(src)@.subrange(0, total as int) =~= src@);
            assert(frame@.payload =~= old(src)@.subrange(
                FRAME_HEADER_SIZE as int,
                FRAME_HEADER_SIZE + decode_len(old(src)@),
            ));
            assert(tail@ =~= decode_rest(old(src)@));
        }
        *src = tail;
        Ok(Some(frame))
    }
}

/// Encoding a well-formed frame and decoding the result gives the frame
/// back, with nothing left over.
pub proof fn lemma_encode_decode_roundtrip(f: FrameView)
    requires
        f.wf(),
    ensures
        decode_ready(spec_serialize(f)),
        decode_frame(spec_serialize(f)) == f,
        decode_rest(spec_serialize(f)) =~= Seq::<u8>::empty(),
{
    let b = spec_serialize(f);
    lemma_tag_roundtrip(f.frame_type);
    lemma_u16_bytes_roundtrip(f.channel_id);
    lemma_u16_bytes_roundtrip(f.payload.len() as u16);
    assert(decode_len(b) == f.payload.len());
    assert(decode_ready(b));
    assert(b.subrange(FRAME_HEADER_SIZE as int, FRAME_HEADER_SIZE + decode_len(b)) =~= f.payload);
    assert(decode_frame(b) =~= f);
}

/// A complete frame at the front of a buffer stays the same frame when more
/// bytes arrive behind it.
pub proof fn lemma_decode_ready_extend(b: Seq<u8>, c: Seq<u8>)
    requires
        decode_ready(b),
    ensures
        decode_ready(b + c),
        decode_frame(b + c) == decode_frame(b),
        decode_rest(b + c) =~= decode_rest(b) + c,
{
    let bc = b + c;
    assert(bc[0] == b[0]);
    assert(bc[1] == b[1]);
    assert(bc[2] == b[2]);
    assert(bc[3] == b[3]);
    assert(bc[4] == b[4]);
    assert(decode_len(bc) == decode_len(b));
    assert(bc.subrange(FRAME_HEADER_SIZE as int, FRAME_HEADER_SIZE + decode_len(bc)) =~= b.subrange(
        FRAME_HEADER_SIZE as int,
        FRAME_HEADER_SIZE + decode_len(b),
    ));
    assert(decode_frame(bc) =~= decode_frame(b));
}

/// Nothing complete can be drained out of a fully drained buffer.
pub proof fn lemma_stream_rest_not_ready(b: Seq<u8>)
    ensures
        !decode_ready(stream_rest(b)),
        decode_stream(stream_rest(b)) =~= Seq::<FrameView>::empty(),
        stream_rest(stream_rest(b)) =~= stream_rest(b),
        stream_error(stream_rest(b)) == stream_error(b),
    decreases b.len(),
{
    if decode_ready(b) {
        lemma_stream_rest_not_ready(decode_rest(b));
    }
}

/// Draining a buffer and then feeding more bytes yields the same frames as
/// draining the concatenation: the decoded frame sequence is a pure function
/// of the accumulated bytes, however they were chunked.
pub proof fn lemma_decode_stream_extend(b: Seq<u8>, c: Seq<u8>)
    ensures
        decode_stream(b + c) =~= decode_stream(b) + decode_stream(stream_rest(b) + c),
        stream_rest(b + c) =~= stream_rest(stream_rest(b) + c),
        stream_error(b + c) == stream_error(stream_rest(b) + c),
    decreases b.len(),
{
    if decode_ready(b) {
        lemma_decode_ready_extend(b, c);
        lemma_decode_stream_extend(decode_rest(b), c);
        assert(decode_stream(b + c) =~= decode_stream(b) + decode_stream(
            stream_rest(b) + c,
        ));
    } else {
        assert(stream_rest(b) =~= b);
    }
}

/// The concatenation of a sequence of chunks.
pub open spec fn concat_chunks(cs: Seq<Seq<u8>>) -> Seq<u8>
    decreases cs.len(),
{
    if cs.len() == 0 {
        Seq::empty()
    } else {
        cs[0] + concat_chunks(cs.drop_first())
    }
}

/// The frames an incremental decoder emits when fed the chunks one by one,
/// starting from a drained carry-over buffer.
pub open spec fn stream_feed(carry: Seq<u8>, cs: Seq<Seq<u8>>) -> Seq<FrameView>
    decreases cs.len(),
{
    if cs.len() == 0 {
        Seq::empty()
    } else {
        decode_stream(carry + cs[0]) + stream_feed(stream_rest(carry + cs[0]), cs.drop_first())
    }
}

/// Feeding chunks one by one from a drained buffer emits exactly the frames
/// of the concatenation.
pub proof fn lemma_stream_feed_concat(carry: Seq<u8>, cs: Seq<Seq<u8>>)
    requires
        !decode_ready(carry),
    ensures
        stream_feed(carry, cs) =~= decode_stream(carry + concat_chunks(cs)),
    decreases cs.len(),
{
    if cs.len() == 0 {
        assert((carry + Seq::<u8>::empty()) =~= carry);
    } else {
        let first = carry + cs[0];
        let rest = concat_chunks(cs.drop_first());
        lemma_stream_rest_not_ready(first);
        lemma_stream_feed_concat(stream_rest(first), cs.drop_first());
        lemma_decode_stream_extend(first, rest);
        assert((carry + concat_chunks(cs)) =~= first + rest);
    }
}

/// Law: streaming decode is a pure function of the accumulated buffer.
/// Feeding the same concatenation of bytes in any chunking yields the same
/// frame sequence.
pub proof fn lemma_decode_chunking(cs1: Seq<Seq<u8>>, cs2: Seq<Seq<u8>>)
    requires
        concat_chunks(cs1) == concat_chunks(cs2),
    ensures
        stream_feed(Seq::empty(), cs1) =~= stream_feed(Seq::empty(), cs2),
{
    lemma_stream_feed_concat(Seq::empty(), cs1);
    lemma_stream_feed_concat(Seq::empty(), cs2);
    assert((Seq::<u8>::empty() + concat_chunks(cs1)) =~= concat_chunks(cs1));
    assert((Seq::<u8>::empty() + concat_chunks(cs2)) =~= concat_chunks(cs2));
}

} // verus!
