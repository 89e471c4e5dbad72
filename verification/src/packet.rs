//! Packets of the Java edition's status exchange. Every packet travels in a
//! frame: the length of what follows as a variable-length integer, then the
//! packet id as a variable-length integer, then the packet's payload.

use vstd::prelude::*;
use vstd::slice::*;
use vstd::utf8::*;

use crate::error::QueryError;
use crate::varint::{
    lemma_read_groups_bound, lemma_varint_round_trip, parse_varint, read_varint, varint_bytes,
    varint_len, write_varint, VarInt,
};
use crate::wire::{
    be_bytes, be_value, lemma_be_round_trip, lemma_pow256_values, lemma_string_round_trip,
    parse_string, push_all, push_be, push_string, read_be, read_string, string_bytes,
};

verus! {

/// The id of the handshake, the only packet of the opening phase.
pub const HANDSHAKE_ID: u32 = 0;

/// The id of the status request, sent by the client.
pub const STATUS_REQUEST_ID: u32 = 0;

/// The id of the status response, sent by the server.
pub const STATUS_RESPONSE_ID: u32 = 0;

/// The id of the ping, sent by the client.
pub const PING_ID: u32 = 1;

/// The id of the pong, sent by the server.
pub const PONG_ID: u32 = 1;

/// The handshake's value for "status comes next".
pub const NEXT_STATE_STATUS: u32 = 1;

/// The number of bytes in a ping's or pong's payload.
pub const PING_PAYLOAD_LEN: usize = 8;

/// The frame that carries a packet.
pub open spec fn frame_bytes(id: u32, payload: Seq<u8>) -> Seq<u8> {
    varint_bytes(varint_bytes(id as nat).len() + payload.len()) + varint_bytes(id as nat) + payload
}

/// A packet's id and payload fit in a frame: their length can be written
/// in 32 bits.
pub open spec fn frame_fits(id: u32, payload: Seq<u8>) -> bool {
    varint_bytes(id as nat).len() + payload.len() <= u32::MAX
}

/// What stands at the front of a buffer where a frame is expected.
#[derive(Clone, Copy, Debug, PartialEq, Eq, Structural)]
pub enum FrameRead {
    /// A complete frame with packet id `id`. Its payload is the bytes from
    /// `start` up to `end`; the frame ends at `end`.
    Frame { id: u32, start: usize, end: usize },
    /// The buffer ends before the frame does.
    Incomplete,
    /// The length or the id is not a well-formed integer, or the frame is too
    /// short to hold its id.
    Malformed,
}

/// The result of reading a frame, as mathematical values.
pub ghost enum FrameView {
    Frame { id: u32, start: int, end: int },
    Incomplete,
    Malformed,
}

impl View for FrameRead {
    type V = FrameView;

    open spec fn view(&self) -> FrameView {
        match self {
            FrameRead::Frame { id, start, end } => FrameView::Frame {
                id: *id,
                start: *start as int,
                end: *end as int,
            },
            FrameRead::Incomplete => FrameView::Incomplete,
            FrameRead::Malformed => FrameView::Malformed,
        }
    }
}

/// Reads a frame from the front of `buf`.
pub open spec fn parse_frame(buf: Seq<u8>) -> FrameView {
    match parse_varint(buf) {
        VarInt::Value { value: length, len: n } => if buf.len() - n < length {
            FrameView::Incomplete
        } else {
            match parse_varint(buf.subrange(n as int, n + length)) {
                VarInt::Value { value: id, len: m } => FrameView::Frame {
                    id: id as u32,
                    start: n + m,
                    end: n + length,
                },
                _ => FrameView::Malformed,
            }
        },
        VarInt::Incomplete => FrameView::Incomplete,
        VarInt::Malformed => FrameView::Malformed,
    }
}

/// A frame read from a buffer lies within it, and its id takes at least
/// one byte behind at least one byte of length.
pub proof fn lemma_frame_bounds(buf: Seq<u8>)
    ensures
        parse_frame(buf) matches FrameView::Frame { id, start, end } ==> 2 <= start <= end
            <= buf.len(),
{
    lemma_read_groups_bound(buf, 5);
    match parse_varint(buf) {
        VarInt::Value { value: length, len: n } => {
            if buf.len() - n >= length {
                lemma_read_groups_bound(buf.subrange(n as int, n + length), 5);
            }
        },
        _ => {},
    }
}

/// Reading a frame gives the packet that was framed and stops where the
/// frame ends, whatever follows it.
pub proof fn lemma_frame_round_trip(id: u32, payload: Seq<u8>, rest: Seq<u8>)
    requires
        frame_fits(id, payload),
    ensures
        parse_frame(frame_bytes(id, payload) + rest) matches FrameView::Frame {
            id: got,
            start,
            end,
        } && got == id && end == frame_bytes(id, payload).len() && start <= end && (frame_bytes(
            id,
            payload,
        ) + rest).subrange(start, end) == payload,
{
    let body = varint_bytes(id as nat) + payload;
    let head = varint_bytes(body.len());
    let buf = frame_bytes(id, payload) + rest;
    assert(buf =~= head + (body + rest));
    lemma_varint_round_trip(body.len() as u32, body + rest);
    let n = head.len() as int;
    assert(buf.subrange(n, n + body.len()) =~= body);
    lemma_varint_round_trip(id, payload);
    let m = varint_bytes(id as nat).len() as int;
    assert(buf.subrange(n + m, n + body.len()) =~= payload);
    assert(frame_bytes(id, payload).len() == n + body.len());
}

/// Frames a packet; `None` if and only if it does not fit in a frame.
pub fn encode_frame(id: u32, payload: &[u8]) -> (r: Option<Vec<u8>>)
    ensures
        match r {
            Some(frame) => frame_fits(id, payload@) && frame@ == frame_bytes(id, payload@),
            None => !frame_fits(id, payload@),
        },
{
    let id_len = varint_len(id);
    if payload.len() > 0xffff_ffff - id_len {
        return None;
    }
    let mut out: Vec<u8> = Vec::new();
    write_varint((payload.len() + id_len) as u32, &mut out);
    write_varint(id, &mut out);
    push_all(&mut out, payload);
    proof {
        assert(out@ =~= frame_bytes(id, payload@));
    }
    Some(out)
}

/// Reads a frame from the front of `buf`.
pub fn read_frame(buf: &[u8]) -> (r: FrameRead)
    ensures
        r@ == parse_frame(buf@),
        r matches FrameRead::Frame { id, start, end } ==> 2 <= start <= end <= buf@.len(),
{
    proof {
        assert(buf@.skip(0) =~= buf@);
        lemma_frame_bounds(buf@);
    }
    match read_varint(buf, 0) {
        VarInt::Value { value: length, len: n } => {
            if ((buf.len() - n) as u64) < length {
                return FrameRead::Incomplete;
            }
            let end: usize = n + length as usize;
            let body = slice_subrange(buf, n, end);
            proof {
                assert(body@.skip(0) =~= body@);
            }
            match read_varint(body, 0) {
                VarInt::Value { value: id, len: m } => FrameRead::Frame {
                    id: id as u32,
                    start: n + m,
                    end,
                },
                _ => FrameRead::Malformed,
            }
        },
        VarInt::Incomplete => FrameRead::Incomplete,
        VarInt::Malformed => FrameRead::Malformed,
    }
}

/// The first packet of a connection: it names the server as the client
/// knows it and announces that a status request follows.
#[derive(Debug, PartialEq, Eq)]
pub struct JavaHandshake {
    /// The protocol version the client claims; 0 leaves the choice to the
    /// server.
    pub protocol_version: i32,
    /// The host name as the user gave it, not the address it resolved to.
    pub server_address: String,
    /// The port the connection was made to.
    pub server_port: u16,
}

/// The 32 bits of `v` read as an unsigned number.
pub open spec fn wire_version(v: i32) -> u32 {
    if v >= 0 {
        v as u32
    } else {
        (v + 0x1_0000_0000) as u32
    }
}

/// The signed number with the 32 bits of `wire`.
pub open spec fn signed_version(wire: u32) -> i32 {
    if wire <= i32::MAX {
        wire as i32
    } else {
        (wire - 0x1_0000_0000) as i32
    }
}

/// The version a handshake claims for a caller's hint: the hint, or 0
/// where there is none.
pub open spec fn version_for(hint: Option<u32>) -> i32 {
    match hint {
        Some(v) => signed_version(v),
        None => 0,
    }
}

/// The payload of a handshake: the version as a variable-length integer,
/// the address as a string, the port in two bytes, and the next state.
pub open spec fn handshake_payload(version: i32, address: Seq<char>, port: u16) -> Seq<u8> {
    varint_bytes(wire_version(version) as nat) + string_bytes(address) + be_bytes(port as nat, 2)
        + varint_bytes(NEXT_STATE_STATUS as nat)
}

impl JavaHandshake {
    /// The handshake for a query of `hostname`, connected on `port`, with
    /// the caller's protocol version if there is one.
    pub fn new(version: Option<u32>, hostname: &str, port: u16) -> (r: JavaHandshake)
        ensures
            r.protocol_version == version_for(version),
            wire_version(r.protocol_version) == match version {
                Some(v) => v,
                None => 0,
            },
            r.server_address@ == hostname@,
            r.server_port == port,
    {
        let wire: u32 = match version {
            Some(v) => v,
            None => 0,
        };
        let protocol_version: i32 = if wire <= 0x7fff_ffff {
            wire as i32
        } else {
            (wire as i64 - 0x1_0000_0000) as i32
        };
        JavaHandshake { protocol_version, server_address: hostname.to_owned(), server_port: port }
    }

    /// The payload of this handshake.
    pub open spec fn payload(&self) -> Seq<u8> {
        handshake_payload(self.protocol_version, self.server_address@, self.server_port)
    }

    /// The frame of this handshake; `None` if and only if the address is
    /// too long for a frame.
    pub fn encode(&self) -> (r: Option<Vec<u8>>)
        ensures
            match r {
                Some(frame) => frame_fits(HANDSHAKE_ID, self.payload()) && frame@ == frame_bytes(
                    HANDSHAKE_ID,
                    self.payload(),
                ),
                None => !frame_fits(HANDSHAKE_ID, self.payload()),
            },
    {
        let wire: u32 = if self.protocol_version >= 0 {
            self.protocol_version as u32
        } else {
            (self.protocol_version as i64 + 0x1_0000_0000) as u32
        };
        let mut payload: Vec<u8> = Vec::new();
        write_varint(wire, &mut payload);
        if !push_string(self.server_address.as_str(), &mut payload) {
            return None;
        }
        push_be(self.server_port as u64, 2, &mut payload);
        write_varint(NEXT_STATE_STATUS, &mut payload);
        proof {
            assert(payload@ =~= self.payload());
        }
        encode_frame(HANDSHAKE_ID, payload.as_slice())
    }
}

/// The frame of a status request, which has no payload.
pub fn encode_status_request() -> (r: Vec<u8>)
    ensures
        r@ == frame_bytes(STATUS_REQUEST_ID, Seq::<u8>::empty()),
{
    let payload: Vec<u8> = Vec::new();
    proof {
        lemma_varint_round_trip(STATUS_REQUEST_ID, Seq::<u8>::empty());
    }
    encode_frame(STATUS_REQUEST_ID, payload.as_slice()).unwrap()
}

/// The payload of a ping or pong: eight bytes that the sender chooses and
/// the receiver returns.
pub open spec fn ping_payload(time: u64) -> Seq<u8> {
    be_bytes(time as nat, PING_PAYLOAD_LEN as nat)
}

/// The frame of a ping that carries `time`.
pub fn encode_ping(time: u64) -> (r: Vec<u8>)
    ensures
        r@ == frame_bytes(PING_ID, ping_payload(time)),
{
    let mut payload: Vec<u8> = Vec::new();
    push_be(time, PING_PAYLOAD_LEN, &mut payload);
    proof {
        lemma_varint_round_trip(PING_ID, Seq::<u8>::empty());
        lemma_pow256_values();
        lemma_be_round_trip(time as nat, 8);
        assert(payload@ =~= ping_payload(time));
    }
    encode_frame(PING_ID, payload.as_slice()).unwrap()
}

/// A packet that the server sends in the status phase.
#[derive(Debug, PartialEq, Eq)]
pub enum CbStatus {
    /// The status response: the server's description of itself, as text.
    Response { data: String },
    /// The pong: the eight bytes of the ping it answers.
    Pong { time: u64 },
}

/// A status-phase packet as mathematical values.
pub ghost enum StatusPacket {
    Response { data: Seq<char> },
    Pong { time: u64 },
}

impl View for CbStatus {
    type V = StatusPacket;

    open spec fn view(&self) -> StatusPacket {
        match self {
            CbStatus::Response { data } => StatusPacket::Response { data: data@ },
            CbStatus::Pong { time } => StatusPacket::Pong { time: *time },
        }
    }
}

/// The packet that an id and a payload make in the status phase. A status
/// response is one string and nothing else, a pong exactly eight bytes; no
/// other id belongs to the phase.
pub open spec fn status_packet(id: u32, data: Seq<u8>) -> Result<StatusPacket, QueryError> {
    if id == STATUS_RESPONSE_ID {
        match parse_string(data) {
            Some(text) => Ok(StatusPacket::Response { data: text }),
            None => Err(QueryError::DecodeError),
        }
    } else if id == PONG_ID {
        if data.len() == PING_PAYLOAD_LEN {
            Ok(StatusPacket::Pong { time: be_value(data) as u64 })
        } else {
            Err(QueryError::DecodeError)
        }
    } else {
        Err(QueryError::ProtocolMismatchError)
    }
}

/// Decodes a packet of the status phase by its id.
pub fn status_cb(id: u32, data: &[u8]) -> (r: Result<CbStatus, QueryError>)
    ensures
        match status_packet(id, data@) {
            Ok(packet) => r matches Ok(got) && got@ == packet,
            Err(e) => r matches Err(got) && got == e,
        },
{
    if id == STATUS_RESPONSE_ID {
        match read_string(data) {
            Some(text) => Ok(CbStatus::Response { data: text }),
            None => Err(QueryError::DecodeError),
        }
    } else if id == PONG_ID {
        if data.len() == PING_PAYLOAD_LEN {
            Ok(CbStatus::Pong { time: read_be(data) })
        } else {
            Err(QueryError::DecodeError)
        }
    } else {
        Err(QueryError::ProtocolMismatchError)
    }
}

/// Decoding what was encoded gives it back: a status response its text, a
/// pong the eight bytes of its ping.
pub proof fn lemma_status_packet_round_trip(text: Seq<char>, time: u64)
    requires
        encode_utf8(text).len() <= u32::MAX,
    ensures
        status_packet(STATUS_RESPONSE_ID, string_bytes(text)) == Ok::<StatusPacket, QueryError>(
            StatusPacket::Response { data: text },
        ),
        status_packet(PONG_ID, ping_payload(time)) == Ok::<StatusPacket, QueryError>(
            StatusPacket::Pong { time },
        ),
{
    lemma_string_round_trip(text);
    lemma_pow256_values();
    lemma_be_round_trip(time as nat, 8);
}

} // verus!
