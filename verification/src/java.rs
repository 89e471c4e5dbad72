//! The status exchange of the Java edition: connect, handshake, status
//! request, status response, ping, pong. The exchange is a state machine.
//! Its caller owns the connection and the clock: it opens the connection,
//! reports `Connected` or `Failed`, and from then on carries out each action
//! and reports what came of it as the next event. Clock readings are
//! nanoseconds on a clock that does not run backwards.

use vstd::prelude::*;
use vstd::slice::*;

use crate::error::QueryError;
use crate::packet::{
    encode_ping, encode_status_request, frame_bytes, frame_fits, handshake_payload,
    lemma_frame_round_trip, lemma_status_packet_round_trip, parse_frame, ping_payload, read_frame,
    status_cb, status_packet, version_for, CbStatus, FrameRead, FrameView, JavaHandshake,
    StatusPacket, HANDSHAKE_ID, PING_ID, PONG_ID, STATUS_REQUEST_ID, STATUS_RESPONSE_ID,
};
use crate::ping::{elapsed, PingMeasurement};
use crate::status::{
    frames_bytes, lemma_scan_finds_after_others, lemma_scan_skips, other_packets,
    read_status_response_loop, scan_status, StatusScan, StatusScanView,
};
use crate::varint::lemma_varint_round_trip;
use crate::wire::{lemma_be_round_trip, lemma_pow256_values, string_bytes};

verus! {

/// How long the status response may take, and the pong after it: five
/// seconds, in nanoseconds.
pub const STATUS_TIMEOUT: u64 = 5_000_000_000;

/// The eight bytes that the ping carries.
pub const PING_TOKEN: u64 = 0;

/// What a Java query returns: the status text as the server sent it, and
/// the time the pong took if one came.
#[derive(Debug, PartialEq, Eq)]
pub struct JavaResult {
    /// The status response, passed on unread.
    pub resp: String,
    /// The round-trip time of the ping; `None` where no pong was read.
    pub ping: Option<PingMeasurement>,
}

/// A result as mathematical values.
pub ghost struct JavaResultView {
    pub resp: Seq<char>,
    pub ping: Option<PingMeasurement>,
}

impl View for JavaResult {
    type V = JavaResultView;

    open spec fn view(&self) -> JavaResultView {
        JavaResultView { resp: self.resp@, ping: self.ping }
    }
}

/// Where the exchange stands. Each phase is named after the last thing
/// done; capturing the status and handing out the ping are one step, so
/// the phase after `AwaitingStatus` is `PingSent`.
#[derive(Debug, PartialEq, Eq)]
pub enum JavaPhase {
    /// The connection is being opened.
    Connecting,
    /// The handshake was handed out.
    HandshakeSent,
    /// The status request was handed out.
    StatusRequested,
    /// The status response is awaited until `deadline`.
    AwaitingStatus { deadline: u64 },
    /// The status `resp` is captured and the ping was handed out.
    PingSent { resp: String },
    /// The ping left at `sent_at`; the pong is awaited until `deadline`.
    AwaitingPong { resp: String, sent_at: u64, deadline: u64 },
    /// The exchange is over.
    Done,
}

/// A phase as mathematical values.
pub ghost enum JavaPhaseView {
    Connecting,
    HandshakeSent,
    StatusRequested,
    AwaitingStatus { deadline: u64 },
    PingSent { resp: Seq<char> },
    AwaitingPong { resp: Seq<char>, sent_at: u64, deadline: u64 },
    Done,
}

impl View for JavaPhase {
    type V = JavaPhaseView;

    open spec fn view(&self) -> JavaPhaseView {
        match self {
            JavaPhase::Connecting => JavaPhaseView::Connecting,
            JavaPhase::HandshakeSent => JavaPhaseView::HandshakeSent,
            JavaPhase::StatusRequested => JavaPhaseView::StatusRequested,
            JavaPhase::AwaitingStatus { deadline } => JavaPhaseView::AwaitingStatus {
                deadline: *deadline,
            },
            JavaPhase::PingSent { resp } => JavaPhaseView::PingSent { resp: resp@ },
            JavaPhase::AwaitingPong { resp, sent_at, deadline } => JavaPhaseView::AwaitingPong {
                resp: resp@,
                sent_at: *sent_at,
                deadline: *deadline,
            },
            JavaPhase::Done => JavaPhaseView::Done,
        }
    }
}

/// What the caller reports.
#[derive(Debug, PartialEq, Eq)]
pub enum JavaEvent {
    /// The connection is open.
    Connected,
    /// The bytes last handed out are written and flushed; the clock read
    /// `at` when they were.
    Sent { at: u64 },
    /// These bytes arrived; the clock read `at` when they did.
    Received { bytes: Vec<u8>, at: u64 },
    /// The deadline passed and nothing arrived.
    TimedOut,
    /// Connecting, sending or receiving failed.
    Failed,
}

/// An event as mathematical values.
pub ghost enum JavaEventView {
    Connected,
    Sent { at: u64 },
    Received { bytes: Seq<u8>, at: u64 },
    TimedOut,
    Failed,
}

impl View for JavaEvent {
    type V = JavaEventView;

    open spec fn view(&self) -> JavaEventView {
        match self {
            JavaEvent::Connected => JavaEventView::Connected,
            JavaEvent::Sent { at } => JavaEventView::Sent { at: *at },
            JavaEvent::Received { bytes, at } => JavaEventView::Received { bytes: bytes@, at: *at },
            JavaEvent::TimedOut => JavaEventView::TimedOut,
            JavaEvent::Failed => JavaEventView::Failed,
        }
    }
}

/// What the caller is to do next.
#[derive(Debug, PartialEq, Eq)]
pub enum JavaAction {
    /// Write and flush these bytes, then report `Sent` or `Failed`.
    Send { bytes: Vec<u8> },
    /// Wait for bytes until the clock reads `deadline`, then report
    /// `Received`, `TimedOut` or `Failed`.
    Receive { deadline: u64 },
    /// Close the connection: the query has ended with `result`.
    Finish { result: Result<JavaResult, QueryError> },
}

/// An action as mathematical values.
pub ghost enum JavaActionView {
    Send { bytes: Seq<u8> },
    Receive { deadline: u64 },
    Finish { result: Result<JavaResultView, QueryError> },
}

impl View for JavaAction {
    type V = JavaActionView;

    open spec fn view(&self) -> JavaActionView {
        match self {
            JavaAction::Send { bytes } => JavaActionView::Send { bytes: bytes@ },
            JavaAction::Receive { deadline } => JavaActionView::Receive { deadline: *deadline },
            JavaAction::Finish { result } => JavaActionView::Finish {
                result: match result {
                    Ok(r) => Ok(r@),
                    Err(e) => Err(*e),
                },
            },
        }
    }
}

/// One query in progress.
#[derive(Debug, PartialEq, Eq)]
pub struct JavaQuery {
    /// The handshake this query opens with.
    pub handshake: JavaHandshake,
    /// Bytes that arrived and belong to no frame read so far.
    pub buffer: Vec<u8>,
    /// Where the exchange stands.
    pub phase: JavaPhase,
}

/// A query as mathematical values.
pub ghost struct JavaQueryView {
    pub version: i32,
    pub address: Seq<char>,
    pub port: u16,
    pub buffer: Seq<u8>,
    pub phase: JavaPhaseView,
}

impl View for JavaQuery {
    type V = JavaQueryView;

    open spec fn view(&self) -> JavaQueryView {
        JavaQueryView {
            version: self.handshake.protocol_version,
            address: self.handshake.server_address@,
            port: self.handshake.server_port,
            buffer: self.buffer@,
            phase: self.phase@,
        }
    }
}

/// The deadline for what is awaited from `at` on; the end of the clock
/// where that lies closer.
pub open spec fn deadline_after(at: u64) -> u64 {
    if at <= u64::MAX - STATUS_TIMEOUT {
        (at + STATUS_TIMEOUT) as u64
    } else {
        u64::MAX
    }
}

/// The error for an event that ends the query before a status is there:
/// a failure of the transport, a timeout, or an event that the phase has
/// no use for.
pub open spec fn error_before_status(e: JavaEventView) -> QueryError {
    match e {
        JavaEventView::Failed => QueryError::TransportError,
        JavaEventView::TimedOut => QueryError::TimeoutError,
        _ => QueryError::ProtocolMismatchError,
    }
}

/// The query ends without a result.
pub open spec fn fail(q: JavaQueryView, error: QueryError) -> (JavaQueryView, JavaActionView) {
    (
        JavaQueryView { phase: JavaPhaseView::Done, ..q },
        JavaActionView::Finish { result: Err(error) },
    )
}

/// The query ends with the status and what is known of the ping.
pub open spec fn finish(q: JavaQueryView, resp: Seq<char>, ping: Option<PingMeasurement>) -> (
    JavaQueryView,
    JavaActionView,
) {
    (
        JavaQueryView { phase: JavaPhaseView::Done, ..q },
        JavaActionView::Finish { result: Ok(JavaResultView { resp, ping }) },
    )
}

/// The connection is open: the handshake goes out, unless the host name is
/// too long to be sent.
pub open spec fn send_handshake(q: JavaQueryView) -> (JavaQueryView, JavaActionView) {
    let payload = handshake_payload(q.version, q.address, q.port);
    if frame_fits(HANDSHAKE_ID, payload) {
        (
            JavaQueryView { phase: JavaPhaseView::HandshakeSent, ..q },
            JavaActionView::Send { bytes: frame_bytes(HANDSHAKE_ID, payload) },
        )
    } else {
        fail(q, QueryError::TransportError)
    }
}

/// The search for the status response in what has arrived, `buf`. Found,
/// the status is captured and the ping goes out at once; what follows the
/// response stays buffered. Packets passed over leave the buffer.
pub open spec fn await_status(q: JavaQueryView, deadline: u64, buf: Seq<u8>) -> (
    JavaQueryView,
    JavaActionView,
) {
    match scan_status(buf) {
        StatusScanView::Found { data, end } => (
            JavaQueryView {
                buffer: buf.skip(end),
                phase: JavaPhaseView::PingSent { resp: data },
                ..q
            },
            JavaActionView::Send { bytes: frame_bytes(PING_ID, ping_payload(PING_TOKEN)) },
        ),
        StatusScanView::Incomplete { consumed } => (
            JavaQueryView {
                buffer: buf.skip(consumed),
                phase: JavaPhaseView::AwaitingStatus { deadline },
                ..q
            },
            JavaActionView::Receive { deadline },
        ),
        StatusScanView::Failed => fail(JavaQueryView { buffer: buf, ..q }, QueryError::DecodeError),
    }
}

/// The packet `id` with payload `data` is a well-formed pong.
pub open spec fn is_pong(id: u32, data: Seq<u8>) -> bool {
    status_packet(id, data) matches Ok(StatusPacket::Pong { .. })
}

/// The one packet awaited after the ping, in what has arrived, `buf`, by
/// the time `at`. A well-formed pong gives the ping its time; anything else
/// leaves the ping unknown. Either way the status is returned.
pub open spec fn await_pong(
    q: JavaQueryView,
    resp: Seq<char>,
    sent_at: u64,
    deadline: u64,
    buf: Seq<u8>,
    at: u64,
) -> (JavaQueryView, JavaActionView) {
    let held = JavaQueryView { buffer: buf, ..q };
    match parse_frame(buf) {
        FrameView::Incomplete => (
            JavaQueryView {
                phase: JavaPhaseView::AwaitingPong { resp, sent_at, deadline },
                ..held
            },
            JavaActionView::Receive { deadline },
        ),
        FrameView::Frame { id, start, end } => finish(
            held,
            resp,
            if is_pong(id, buf.subrange(start, end)) {
                Some(elapsed(sent_at, at))
            } else {
                None
            },
        ),
        FrameView::Malformed => finish(held, resp, None),
    }
}

/// The step that the query takes on an event: its next state and what the
/// caller is to do.
pub open spec fn java_step(q: JavaQueryView, e: JavaEventView) -> (JavaQueryView, JavaActionView) {
    match q.phase {
        JavaPhaseView::Connecting => match e {
            JavaEventView::Connected => send_handshake(q),
            _ => fail(q, error_before_status(e)),
        },
        JavaPhaseView::HandshakeSent => match e {
            JavaEventView::Sent { at } => (
                JavaQueryView { phase: JavaPhaseView::StatusRequested, ..q },
                JavaActionView::Send { bytes: frame_bytes(STATUS_REQUEST_ID, Seq::<u8>::empty()) },
            ),
            _ => fail(q, error_before_status(e)),
        },
        JavaPhaseView::StatusRequested => match e {
            JavaEventView::Sent { at } => (
                JavaQueryView {
                    phase: JavaPhaseView::AwaitingStatus { deadline: deadline_after(at) },
                    ..q
                },
                JavaActionView::Receive { deadline: deadline_after(at) },
            ),
            _ => fail(q, error_before_status(e)),
        },
        JavaPhaseView::AwaitingStatus { deadline } => match e {
            JavaEventView::Received { bytes, at } => if at > deadline {
                fail(q, QueryError::TimeoutError)
            } else {
                await_status(q, deadline, q.buffer + bytes)
            },
            _ => fail(q, error_before_status(e)),
        },
        JavaPhaseView::PingSent { resp } => match e {
            JavaEventView::Sent { at } => await_pong(q, resp, at, deadline_after(at), q.buffer, at),
            _ => finish(q, resp, None),
        },
        JavaPhaseView::AwaitingPong { resp, sent_at, deadline } => match e {
            JavaEventView::Received { bytes, at } => if at > deadline {
                finish(q, resp, None)
            } else {
                await_pong(q, resp, sent_at, deadline, q.buffer + bytes, at)
            },
            _ => finish(q, resp, None),
        },
        JavaPhaseView::Done => fail(q, QueryError::ProtocolMismatchError),
    }
}

/// The deadline for what is awaited from `at` on.
fn deadline_from(at: u64) -> (r: u64)
    ensures
        r == deadline_after(at),
{
    if at <= u64::MAX - STATUS_TIMEOUT {
        at + STATUS_TIMEOUT
    } else {
        u64::MAX
    }
}

/// The error for an event that ends the query before a status is there.
fn error_for(event: &JavaEvent) -> (r: QueryError)
    ensures
        r == error_before_status(event@),
{
    match event {
        JavaEvent::Failed => QueryError::TransportError,
        JavaEvent::TimedOut => QueryError::TimeoutError,
        _ => QueryError::ProtocolMismatchError,
    }
}

/// Ends the query without a result.
fn fail_with(handshake: JavaHandshake, buffer: Vec<u8>, error: QueryError) -> (r: (
    JavaQuery,
    JavaAction,
))
    ensures
        r.0.handshake == handshake,
        r.0.buffer == buffer,
        r.0.phase == JavaPhase::Done,
        r.1 == (JavaAction::Finish { result: Err(error) }),
{
    (
        JavaQuery { handshake, buffer, phase: JavaPhase::Done },
        JavaAction::Finish { result: Err(error) },
    )
}

/// Ends the query with the status and what is known of the ping.
fn finish_with(
    handshake: JavaHandshake,
    buffer: Vec<u8>,
    resp: String,
    ping: Option<PingMeasurement>,
) -> (r: (JavaQuery, JavaAction))
    ensures
        r.0.handshake == handshake,
        r.0.buffer == buffer,
        r.0.phase == JavaPhase::Done,
        r.1 == (JavaAction::Finish { result: Ok(JavaResult { resp, ping }) }),
{
    (
        JavaQuery { handshake, buffer, phase: JavaPhase::Done },
        JavaAction::Finish { result: Ok(JavaResult { resp, ping }) },
    )
}

/// Searches the buffer for the status response.
fn on_status_bytes(handshake: JavaHandshake, buffer: Vec<u8>, deadline: u64) -> (r: (
    JavaQuery,
    JavaAction,
))
    ensures
        (r.0@, r.1@) == await_status(
            (JavaQuery { handshake, buffer, phase: JavaPhase::Done })@,
            deadline,
            buffer@,
        ),
{
    let mut buffer = buffer;
    let ghost buf = buffer@;
    match read_status_response_loop(buffer.as_slice()) {
        StatusScan::Found { data, end } => {
            let rest = buffer.split_off(end);
            proof {
                assert(rest@ =~= buf.skip(end as int));
            }
            (
                JavaQuery { handshake, buffer: rest, phase: JavaPhase::PingSent { resp: data } },
                JavaAction::Send { bytes: encode_ping(PING_TOKEN) },
            )
        },
        StatusScan::Incomplete { consumed } => {
            let rest = buffer.split_off(consumed);
            proof {
                assert(rest@ =~= buf.skip(consumed as int));
            }
            (
                JavaQuery {
                    handshake,
                    buffer: rest,
                    phase: JavaPhase::AwaitingStatus { deadline },
                },
                JavaAction::Receive { deadline },
            )
        },
        StatusScan::Failed => fail_with(handshake, buffer, QueryError::DecodeError),
    }
}

/// Reads the one packet awaited after the ping.
fn on_pong_bytes(
    handshake: JavaHandshake,
    buffer: Vec<u8>,
    resp: String,
    sent_at: u64,
    deadline: u64,
    at: u64,
) -> (r: (JavaQuery, JavaAction))
    ensures
        (r.0@, r.1@) == await_pong(
            (JavaQuery { handshake, buffer, phase: JavaPhase::Done })@,
            resp@,
            sent_at,
            deadline,
            buffer@,
            at,
        ),
{
    match read_frame(buffer.as_slice()) {
        FrameRead::Incomplete => (
            JavaQuery {
                handshake,
                buffer,
                phase: JavaPhase::AwaitingPong { resp, sent_at, deadline },
            },
            JavaAction::Receive { deadline },
        ),
        FrameRead::Frame { id, start, end } => {
            let ping = match status_cb(id, slice_subrange(buffer.as_slice(), start, end)) {
                Ok(CbStatus::Pong { time }) => Some(PingMeasurement::between(sent_at, at)),
                _ => None,
            };
            finish_with(handshake, buffer, resp, ping)
        },
        FrameRead::Malformed => finish_with(handshake, buffer, resp, None),
    }
}

impl JavaQuery {
    /// A query of the server known as `hostname`, to be connected on
    /// `port`, with the caller's protocol version if there is one. The
    /// handshake will name `hostname` as it is given here, not the address
    /// it resolved to.
    pub fn new(hostname: &str, port: u16, version: Option<u32>) -> (r: JavaQuery)
        ensures
            r@ == (JavaQueryView {
                version: version_for(version),
                address: hostname@,
                port,
                buffer: Seq::<u8>::empty(),
                phase: JavaPhaseView::Connecting,
            }),
    {
        JavaQuery {
            handshake: JavaHandshake::new(version, hostname, port),
            buffer: Vec::new(),
            phase: JavaPhase::Connecting,
        }
    }

    /// True once the exchange is over.
    pub fn is_done(&self) -> (r: bool)
        ensures
            r == (self@.phase == JavaPhaseView::Done),
    {
        match self.phase {
            JavaPhase::Done => true,
            _ => false,
        }
    }
}

/// Takes the query one step on: given what the caller reports, the next
/// state and what the caller is to do. Every failure before the status is
/// captured ends the query with an error; every failure after it ends the
/// query with the status and no ping.
pub fn java(query: JavaQuery, event: JavaEvent) -> (r: (JavaQuery, JavaAction))
    ensures
        (r.0@, r.1@) == java_step(query@, event@),
{
    let ghost q = query@;
    let JavaQuery { handshake, buffer, phase } = query;
    match phase {
        JavaPhase::Connecting => match event {
            JavaEvent::Connected => match handshake.encode() {
                Some(bytes) => (
                    JavaQuery { handshake, buffer, phase: JavaPhase::HandshakeSent },
                    JavaAction::Send { bytes },
                ),
                None => fail_with(handshake, buffer, QueryError::TransportError),
            },
            other => {
                let error = error_for(&other);
                fail_with(handshake, buffer, error)
            },
        },
        JavaPhase::HandshakeSent => match event {
            JavaEvent::Sent { at } => (
                JavaQuery { handshake, buffer, phase: JavaPhase::StatusRequested },
                JavaAction::Send { bytes: encode_status_request() },
            ),
            other => {
                let error = error_for(&other);
                fail_with(handshake, buffer, error)
            },
        },
        JavaPhase::StatusRequested => match event {
            JavaEvent::Sent { at } => {
                let deadline = deadline_from(at);
                (
                    JavaQuery { handshake, buffer, phase: JavaPhase::AwaitingStatus { deadline } },
                    JavaAction::Receive { deadline },
                )
            },
            other => {
                let error = error_for(&other);
                fail_with(handshake, buffer, error)
            },
        },
        JavaPhase::AwaitingStatus { deadline } => match event {
            JavaEvent::Received { bytes, at } => {
                if at > deadline {
                    fail_with(handshake, buffer, QueryError::TimeoutError)
                } else {
                    let mut buffer = buffer;
                    let mut bytes = bytes;
                    buffer.append(&mut bytes);
                    on_status_bytes(handshake, buffer, deadline)
                }
            },
            other => {
                let error = error_for(&other);
                fail_with(handshake, buffer, error)
            },
        },
        JavaPhase::PingSent { resp } => match event {
            JavaEvent::Sent { at } => {
                let deadline = deadline_from(at);
                on_pong_bytes(handshake, buffer, resp, at, deadline, at)
            },
            _ => finish_with(handshake, buffer, resp, None),
        },
        JavaPhase::AwaitingPong { resp, sent_at, deadline } => match event {
            JavaEvent::Received { bytes, at } => {
                if at > deadline {
                    finish_with(handshake, buffer, resp, None)
                } else {
                    let mut buffer = buffer;
                    let mut bytes = bytes;
                    buffer.append(&mut bytes);
                    on_pong_bytes(handshake, buffer, resp, sent_at, deadline, at)
                }
            },
            _ => finish_with(handshake, buffer, resp, None),
        },
        JavaPhase::Done => fail_with(handshake, buffer, QueryError::ProtocolMismatchError),
    }
}

/// The status is captured and has not been returned yet.
pub open spec fn status_held(q: JavaQueryView) -> Option<Seq<char>> {
    match q.phase {
        JavaPhaseView::PingSent { resp } => Some(resp),
        JavaPhaseView::AwaitingPong { resp, .. } => Some(resp),
        _ => None,
    }
}

/// While the status response is awaited, a timeout ends the query with a
/// timeout error, and so do bytes that arrive after the deadline: no
/// status is returned, not even a partial one.
pub proof fn lemma_status_timeout(q: JavaQueryView, e: JavaEventView)
    requires
        q.phase matches JavaPhaseView::AwaitingStatus { deadline } && (e is TimedOut || (
        e matches JavaEventView::Received { bytes, at } && at > deadline)),
    ensures
        java_step(q, e).1 == (JavaActionView::Finish {
            result: Err::<JavaResultView, QueryError>(QueryError::TimeoutError),
        }),
        java_step(q, e).0.phase == JavaPhaseView::Done,
{
}

/// A result is returned only by a query that holds a status, and it is
/// that status. Before the status is captured, every end is an error.
pub proof fn lemma_result_is_held_status(q: JavaQueryView, e: JavaEventView)
    ensures
        java_step(q, e).1 matches JavaActionView::Finish { result: Ok(r) } ==> status_held(q)
            == Some(r.resp),
{
}

/// Once the status is captured, nothing fails the query: each step either
/// goes on waiting for the pong with the status kept, or ends the query with
/// the status. A timeout, a failure of the transport, or bytes after the
/// deadline end it with the status and no ping.
pub proof fn lemma_ping_degrades(q: JavaQueryView, e: JavaEventView)
    requires
        status_held(q) is Some,
    ensures
        match java_step(q, e).1 {
            JavaActionView::Finish { result } => result matches Ok(r) && Some(r.resp)
                == status_held(q),
            JavaActionView::Receive { .. } => status_held(java_step(q, e).0) == status_held(q),
            _ => false,
        },
        (e is TimedOut || e is Failed) ==> java_step(q, e).1 == (JavaActionView::Finish {
            result: Ok::<JavaResultView, QueryError>(
                JavaResultView { resp: status_held(q).unwrap(), ping: None },
            ),
        }),
{
}

/// While the status response is awaited, packets with other ids do not
/// end the query: when bytes arrive in time that hold any number of such
/// packets and then a status response, the status is captured with the
/// text of that response, and the ping goes out.
pub proof fn lemma_status_after_other_packets(
    q: JavaQueryView,
    packets: Seq<(u32, Seq<u8>)>,
    text: Seq<char>,
    at: u64,
)
    requires
        q.phase matches JavaPhaseView::AwaitingStatus { deadline } && at <= deadline,
        q.buffer.len() == 0,
        other_packets(packets),
        frame_fits(STATUS_RESPONSE_ID, string_bytes(text)),
    ensures
        ({
            let bytes = frames_bytes(packets) + frame_bytes(
                STATUS_RESPONSE_ID,
                string_bytes(text),
            );
            let next = java_step(q, JavaEventView::Received { bytes, at });
            &&& next.0.phase == JavaPhaseView::PingSent { resp: text }
            &&& next.1 == JavaActionView::Send {
                bytes: frame_bytes(PING_ID, ping_payload(PING_TOKEN)),
            }
        }),
{
    let response = frame_bytes(STATUS_RESPONSE_ID, string_bytes(text));
    let bytes = frames_bytes(packets) + response;
    lemma_scan_finds_after_others(packets, text, Seq::<u8>::empty());
    assert(bytes + Seq::<u8>::empty() =~= bytes);
    assert(q.buffer + bytes =~= bytes);
}

/// While the status response is awaited, a packet with another id
/// changes nothing: the query goes on waiting, until the same deadline.
pub proof fn lemma_other_packet_keeps_waiting(
    q: JavaQueryView,
    id: u32,
    payload: Seq<u8>,
    at: u64,
)
    requires
        q.phase matches JavaPhaseView::AwaitingStatus { deadline } && at <= deadline,
        q.buffer.len() == 0,
        id != STATUS_RESPONSE_ID,
        frame_fits(id, payload),
    ensures
        java_step(q, JavaEventView::Received { bytes: frame_bytes(id, payload), at }).0 == q,
        java_step(q, JavaEventView::Received { bytes: frame_bytes(id, payload), at }).1
            == (JavaActionView::Receive { deadline: q.phase->AwaitingStatus_deadline }),
{
    let bytes = frame_bytes(id, payload);
    lemma_scan_skips(id, payload, Seq::<u8>::empty());
    assert(bytes + Seq::<u8>::empty() =~= bytes);
    assert(q.buffer + bytes =~= bytes);
    assert(bytes.skip(bytes.len() as int) =~= q.buffer);
}

/// A pong that arrives in time gives the ping the time from the moment
/// the ping was sent to the moment the pong arrived.
pub proof fn lemma_pong_measures(q: JavaQueryView, time: u64, at: u64)
    requires
        q.phase matches JavaPhaseView::AwaitingPong { resp, sent_at, deadline } && at <= deadline,
        q.buffer.len() == 0,
    ensures
        ({
            let bytes = frame_bytes(PONG_ID, ping_payload(time));
            java_step(q, JavaEventView::Received { bytes, at }).1 == JavaActionView::Finish {
                result: Ok::<JavaResultView, QueryError>(
                    JavaResultView {
                        resp: status_held(q).unwrap(),
                        ping: Some(elapsed(q.phase->AwaitingPong_sent_at, at)),
                    },
                ),
            }
        }),
{
    let bytes = frame_bytes(PONG_ID, ping_payload(time));
    lemma_varint_round_trip(PONG_ID, ping_payload(time));
    lemma_pow256_values();
    lemma_be_round_trip(time as nat, 8);
    lemma_frame_round_trip(PONG_ID, ping_payload(time), Seq::<u8>::empty());
    assert(bytes + Seq::<u8>::empty() =~= bytes);
    assert(q.buffer + bytes =~= bytes);
    lemma_status_packet_round_trip(Seq::<char>::empty(), time);
}

/// An exchange in which nothing goes wrong returns the status and the
/// ping: the handshake goes out on `Connected`, the status request when the
/// handshake is sent, the ping when the status response has arrived, and the
/// pong ends the query with the text of the response and the time from the
/// moment the ping was sent to the moment the pong arrived.
pub proof fn lemma_exchange_succeeds(
    q: JavaQueryView,
    text: Seq<char>,
    time: u64,
    handshake_at: u64,
    request_at: u64,
    status_at: u64,
    ping_at: u64,
    pong_at: u64,
)
    requires
        q.phase == JavaPhaseView::Connecting,
        q.buffer.len() == 0,
        frame_fits(HANDSHAKE_ID, handshake_payload(q.version, q.address, q.port)),
        frame_fits(STATUS_RESPONSE_ID, string_bytes(text)),
        status_at <= deadline_after(request_at),
        pong_at <= deadline_after(ping_at),
    ensures
        ({
            let connected = java_step(q, JavaEventView::Connected);
            let greeted = java_step(connected.0, JavaEventView::Sent { at: handshake_at });
            let requested = java_step(greeted.0, JavaEventView::Sent { at: request_at });
            let answered = java_step(
                requested.0,
                JavaEventView::Received {
                    bytes: frame_bytes(STATUS_RESPONSE_ID, string_bytes(text)),
                    at: status_at,
                },
            );
            let pinged = java_step(answered.0, JavaEventView::Sent { at: ping_at });
            let ponged = java_step(
                pinged.0,
                JavaEventView::Received {
                    bytes: frame_bytes(PONG_ID, ping_payload(time)),
                    at: pong_at,
                },
            );
            &&& connected.1 == JavaActionView::Send {
                bytes: frame_bytes(HANDSHAKE_ID, handshake_payload(q.version, q.address, q.port)),
            }
            &&& greeted.1 == JavaActionView::Send {
                bytes: frame_bytes(STATUS_REQUEST_ID, Seq::<u8>::empty()),
            }
            &&& requested.1 == JavaActionView::Receive { deadline: deadline_after(request_at) }
            &&& answered.1 == JavaActionView::Send {
                bytes: frame_bytes(PING_ID, ping_payload(PING_TOKEN)),
            }
            &&& pinged.1 == JavaActionView::Receive { deadline: deadline_after(ping_at) }
            &&& ponged.1 == JavaActionView::Finish {
                result: Ok::<JavaResultView, QueryError>(
                    JavaResultView { resp: text, ping: Some(elapsed(ping_at, pong_at)) },
                ),
            }
            &&& ponged.0.phase == JavaPhaseView::Done
        }),
{
    let none = Seq::<(u32, Seq<u8>)>::empty();
    let response = frame_bytes(STATUS_RESPONSE_ID, string_bytes(text));
    let connected = java_step(q, JavaEventView::Connected);
    let greeted = java_step(connected.0, JavaEventView::Sent { at: handshake_at });
    let requested = java_step(greeted.0, JavaEventView::Sent { at: request_at });
    lemma_scan_finds_after_others(none, text, Seq::<u8>::empty());
    assert(frames_bytes(none) + response + Seq::<u8>::empty() =~= requested.0.buffer + response);
    let answered = java_step(
        requested.0,
        JavaEventView::Received { bytes: response, at: status_at },
    );
    assert(answered.0.buffer =~= Seq::<u8>::empty());
    let pinged = java_step(answered.0, JavaEventView::Sent { at: ping_at });
    lemma_pong_measures(pinged.0, time, pong_at);
}

} // verus!
