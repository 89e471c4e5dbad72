//! Finding the status response among the packets that a server sends. Some
//! servers send other packets first; those are passed over, not treated as
//! failures.

use vstd::prelude::*;
use vstd::slice::*;

use crate::packet::{
    frame_bytes, frame_fits, lemma_frame_bounds, lemma_frame_round_trip, parse_frame, read_frame,
    status_cb, status_packet, CbStatus, FrameRead, FrameView, StatusPacket, STATUS_RESPONSE_ID,
};
use crate::wire::{lemma_string_round_trip, string_bytes};

verus! {

/// What reading one packet in search of the status response gave.
#[derive(Debug, PartialEq, Eq)]
pub enum StatusRead {
    /// A status response with text `data`, in a frame that ends at `end`.
    Response { data: String, end: usize },
    /// A packet with another id, in a frame that ends at `end`.
    Skipped { end: usize },
    /// The buffer ends before the frame does.
    Incomplete,
    /// The frame is malformed, or it is a status response whose payload is
    /// not one well-formed string.
    Failed,
}

/// The result of reading one packet, as mathematical values.
pub ghost enum StatusReadView {
    Response { data: Seq<char>, end: int },
    Skipped { end: int },
    Incomplete,
    Failed,
}

impl View for StatusRead {
    type V = StatusReadView;

    open spec fn view(&self) -> StatusReadView {
        match self {
            StatusRead::Response { data, end } => StatusReadView::Response {
                data: data@,
                end: *end as int,
            },
            StatusRead::Skipped { end } => StatusReadView::Skipped { end: *end as int },
            StatusRead::Incomplete => StatusReadView::Incomplete,
            StatusRead::Failed => StatusReadView::Failed,
        }
    }
}

/// What searching a buffer for the status response gave.
#[derive(Debug, PartialEq, Eq)]
pub enum StatusScan {
    /// The first status response has text `data`; its frame ends at `end`.
    Found { data: String, end: usize },
    /// No status response yet: the first `consumed` bytes are whole frames
    /// of other packets, and what follows is the beginning of a frame.
    Incomplete { consumed: usize },
    /// A frame is malformed, or the status response is.
    Failed,
}

/// The result of a search, as mathematical values.
pub ghost enum StatusScanView {
    Found { data: Seq<char>, end: int },
    Incomplete { consumed: int },
    Failed,
}

impl View for StatusScan {
    type V = StatusScanView;

    open spec fn view(&self) -> StatusScanView {
        match self {
            StatusScan::Found { data, end } => StatusScanView::Found {
                data: data@,
                end: *end as int,
            },
            StatusScan::Incomplete { consumed } => StatusScanView::Incomplete {
                consumed: *consumed as int,
            },
            StatusScan::Failed => StatusScanView::Failed,
        }
    }
}

/// Reads the packet at the front of `buf`: a status response is decoded, a
/// packet with any other id is passed over whatever its payload.
pub open spec fn read_status(buf: Seq<u8>) -> StatusReadView {
    match parse_frame(buf) {
        FrameView::Frame { id, start, end } => if id == STATUS_RESPONSE_ID {
            match status_packet(id, buf.subrange(start, end)) {
                Ok(StatusPacket::Response { data }) => StatusReadView::Response { data, end },
                _ => StatusReadView::Failed,
            }
        } else {
            StatusReadView::Skipped { end }
        },
        FrameView::Incomplete => StatusReadView::Incomplete,
        FrameView::Malformed => StatusReadView::Failed,
    }
}

/// The result `scan`, found in a buffer that lies `by` bytes into another,
/// in the positions of that other buffer.
pub open spec fn shift_scan(scan: StatusScanView, by: int) -> StatusScanView {
    match scan {
        StatusScanView::Found { data, end } => StatusScanView::Found { data, end: end + by },
        StatusScanView::Incomplete { consumed } => StatusScanView::Incomplete {
            consumed: consumed + by,
        },
        StatusScanView::Failed => StatusScanView::Failed,
    }
}

/// Searches `buf` for the first status response, packet by packet.
pub open spec fn scan_status(buf: Seq<u8>) -> StatusScanView
    decreases buf.len(),
    via scan_status_decreases
{
    match read_status(buf) {
        StatusReadView::Response { data, end } => StatusScanView::Found { data, end },
        StatusReadView::Skipped { end } => shift_scan(scan_status(buf.skip(end)), end),
        StatusReadView::Incomplete => StatusScanView::Incomplete { consumed: 0 },
        StatusReadView::Failed => StatusScanView::Failed,
    }
}

/// The search ends: each packet passed over takes at least two bytes off
/// the buffer.
#[via_fn]
proof fn scan_status_decreases(buf: Seq<u8>) {
    lemma_frame_bounds(buf);
}

/// A packet with another id in front is passed over: the search goes on
/// behind its frame.
pub proof fn lemma_scan_skips(id: u32, payload: Seq<u8>, rest: Seq<u8>)
    requires
        id != STATUS_RESPONSE_ID,
        frame_fits(id, payload),
    ensures
        scan_status(frame_bytes(id, payload) + rest) == shift_scan(
            scan_status(rest),
            frame_bytes(id, payload).len() as int,
        ),
{
    lemma_frame_round_trip(id, payload, rest);
    let frame = frame_bytes(id, payload);
    assert((frame + rest).skip(frame.len() as int) =~= rest);
}

/// A status response in front is found, whatever follows it.
pub proof fn lemma_scan_finds(text: Seq<char>, rest: Seq<u8>)
    requires
        frame_fits(STATUS_RESPONSE_ID, string_bytes(text)),
    ensures
        scan_status(frame_bytes(STATUS_RESPONSE_ID, string_bytes(text)) + rest) == (
        StatusScanView::Found {
            data: text,
            end: frame_bytes(STATUS_RESPONSE_ID, string_bytes(text)).len() as int,
        }),
{
    lemma_frame_round_trip(STATUS_RESPONSE_ID, string_bytes(text), rest);
    lemma_string_round_trip(text);
}

/// The frames of `packets`, each an id and a payload, one after another.
pub open spec fn frames_bytes(packets: Seq<(u32, Seq<u8>)>) -> Seq<u8>
    decreases packets.len(),
{
    if packets.len() == 0 {
        Seq::<u8>::empty()
    } else {
        frame_bytes(packets[0].0, packets[0].1) + frames_bytes(packets.skip(1))
    }
}

/// Each packet has another id than the status response and fits a frame.
pub open spec fn other_packets(packets: Seq<(u32, Seq<u8>)>) -> bool {
    forall|k: int|
        0 <= k < packets.len() ==> (#[trigger] packets[k]).0 != STATUS_RESPONSE_ID && frame_fits(
            packets[k].0,
            packets[k].1,
        )
}

/// However many packets with other ids come first, the status response
/// behind them is found, and with its own text.
pub proof fn lemma_scan_finds_after_others(
    packets: Seq<(u32, Seq<u8>)>,
    text: Seq<char>,
    rest: Seq<u8>,
)
    requires
        other_packets(packets),
        frame_fits(STATUS_RESPONSE_ID, string_bytes(text)),
    ensures
        scan_status(
            frames_bytes(packets) + frame_bytes(STATUS_RESPONSE_ID, string_bytes(text)) + rest,
        ) == (StatusScanView::Found {
            data: text,
            end: (frames_bytes(packets).len() + frame_bytes(
                STATUS_RESPONSE_ID,
                string_bytes(text),
            ).len()) as int,
        }),
    decreases packets.len(),
{
    let response = frame_bytes(STATUS_RESPONSE_ID, string_bytes(text));
    if packets.len() == 0 {
        assert(frames_bytes(packets) + response + rest =~= response + rest);
        lemma_scan_finds(text, rest);
    } else {
        let first = frame_bytes(packets[0].0, packets[0].1);
        let tail = packets.skip(1);
        assert forall|k: int| 0 <= k < tail.len() implies (#[trigger] tail[k]).0
            != STATUS_RESPONSE_ID && frame_fits(tail[k].0, tail[k].1) by {
            assert(tail[k] == packets[k + 1]);
        }
        lemma_scan_finds_after_others(tail, text, rest);
        let behind = frames_bytes(tail) + response + rest;
        assert(frames_bytes(packets) + response + rest =~= first + behind);
        lemma_scan_skips(packets[0].0, packets[0].1, behind);
    }
}

/// Reads the packet at the front of `buf` in search of the status response.
pub fn read_status_response(buf: &[u8]) -> (r: StatusRead)
    ensures
        r@ == read_status(buf@),
        r matches StatusRead::Response { data, end } ==> 2 <= end <= buf@.len(),
        r matches StatusRead::Skipped { end } ==> 2 <= end <= buf@.len(),
{
    match read_frame(buf) {
        FrameRead::Frame { id, start, end } => {
            if id == STATUS_RESPONSE_ID {
                match status_cb(id, slice_subrange(buf, start, end)) {
                    Ok(CbStatus::Response { data }) => StatusRead::Response { data, end },
                    _ => StatusRead::Failed,
                }
            } else {
                StatusRead::Skipped { end }
            }
        },
        FrameRead::Incomplete => StatusRead::Incomplete,
        FrameRead::Malformed => StatusRead::Failed,
    }
}

/// Searches `buf` for the first status response, passing over every packet
/// with another id, until it finds one, runs out of complete frames, or
/// meets something malformed.
pub fn read_status_response_loop(buf: &[u8]) -> (r: StatusScan)
    ensures
        r@ == scan_status(buf@),
        r matches StatusScan::Found { data, end } ==> end <= buf@.len(),
        r matches StatusScan::Incomplete { consumed } ==> consumed <= buf@.len(),
{
    let mut pos: usize = 0;
    proof {
        assert(buf@.skip(0) =~= buf@);
    }
    loop
        invariant
            pos <= buf@.len(),
            scan_status(buf@) == shift_scan(scan_status(buf@.skip(pos as int)), pos as int),
        decreases buf@.len() - pos,
    {
        let tail = slice_subrange(buf, pos, buf.len());
        proof {
            assert(tail@ =~= buf@.skip(pos as int));
        }
        match read_status_response(tail) {
            StatusRead::Response { data, end } => {
                return StatusScan::Found { data, end: pos + end };
            },
            StatusRead::Skipped { end } => {
                proof {
                    assert(buf@.skip(pos as int).skip(end as int) =~= buf@.skip(pos + end));
                }
                pos = pos + end;
            },
            StatusRead::Incomplete => {
                return StatusScan::Incomplete { consumed: pos };
            },
            StatusRead::Failed => {
                return StatusScan::Failed;
            },
        }
    }
}

} // verus!
