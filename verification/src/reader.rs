//! The per-connection reader task, as a state machine: await a 4-byte
//! header, await exactly the announced number of body bytes, deliver, and
//! await the next header. The blocking reads, the payload decoding and the
//! forwarding stay with the caller, which feeds what it observed into
//! `reader_step` and performs the action handed back. End of stream, a read
//! error, a malformed frame, a payload that fails to decode, or a receive
//! side hung up by the caller all stop this one task; every other
//! connection's reader keeps its own state and goes on untouched.

use vstd::prelude::*;
use crate::frame;

verus! {

/// Where one connection's reader stands.
#[derive(PartialEq, Eq, Structural, Clone, Copy, Debug)]
pub enum ReaderState {
    /// Waiting for the four header bytes of the next frame.
    AwaitingHeader,
    /// Header seen; waiting for exactly `need` body bytes.
    AwaitingBody { need: u32 },
    /// Terminated; no further frame is delivered from this connection.
    Stopped,
}

/// What the surrounding task observed on its connection.
pub enum ReaderEvent {
    /// The bytes the last action asked for, exactly as read.
    Bytes(Vec<u8>),
    /// End of stream or a read error.
    Closed,
    /// The delivered payload failed to decode.
    DecodeFailed,
    /// The receive side was closed by the caller; stop gracefully.
    ForwardFailed,
}

/// What the surrounding task must do next.
pub enum ReaderAction {
    /// Read exactly four header bytes.
    ReadHeader,
    /// Read exactly this many body bytes, accumulating partial reads.
    ReadBody(u32),
    /// Decode these payload bytes and forward the result, then read the
    /// next header.
    Deliver(Vec<u8>),
    /// Terminate this reader; other connections are unaffected.
    Stop,
}

/// A reader event with its bytes as a sequence, for specifications.
pub enum ReaderEventModel {
    Bytes(Seq<u8>),
    Closed,
    DecodeFailed,
    ForwardFailed,
}

/// A reader action with its bytes as a sequence, for specifications.
pub enum ReaderActionModel {
    ReadHeader,
    ReadBody(u32),
    Deliver(Seq<u8>),
    Stop,
}

/// The event as the specification sees it.
pub open spec fn event_model(e: ReaderEvent) -> ReaderEventModel {
    match e {
        ReaderEvent::Bytes(v) => ReaderEventModel::Bytes(v@),
        ReaderEvent::Closed => ReaderEventModel::Closed,
        ReaderEvent::DecodeFailed => ReaderEventModel::DecodeFailed,
        ReaderEvent::ForwardFailed => ReaderEventModel::ForwardFailed,
    }
}

/// The action as the specification sees it.
pub open spec fn action_model(a: ReaderAction) -> ReaderActionModel {
    match a {
        ReaderAction::ReadHeader => ReaderActionModel::ReadHeader,
        ReaderAction::ReadBody(n) => ReaderActionModel::ReadBody(n),
        ReaderAction::Deliver(v) => ReaderActionModel::Deliver(v@),
        ReaderAction::Stop => ReaderActionModel::Stop,
    }
}

/// One step of the reader machine. A 4-byte header moves to awaiting its
/// announced body length; a body of exactly the awaited length is delivered
/// and the machine awaits the next header; anything else — short bytes, a
/// mismatched body, a closed stream, a decode or forward failure — stops
/// this machine.
pub open spec fn reader_step_spec(state: ReaderState, ev: ReaderEventModel) -> (ReaderState,
    ReaderActionModel) {
    match state {
        ReaderState::Stopped => (ReaderState::Stopped, ReaderActionModel::Stop),
        ReaderState::AwaitingHeader => match ev {
            ReaderEventModel::Bytes(h) => if h.len() == 4 {
                (
                    ReaderState::AwaitingBody { need: frame::word_of(h[0], h[1], h[2], h[3]) },
                    ReaderActionModel::ReadBody(frame::word_of(h[0], h[1], h[2], h[3])),
                )
            } else {
                (ReaderState::Stopped, ReaderActionModel::Stop)
            },
            _ => (ReaderState::Stopped, ReaderActionModel::Stop),
        },
        ReaderState::AwaitingBody { need } => match ev {
            ReaderEventModel::Bytes(b) => if b.len() == need {
                (ReaderState::AwaitingHeader, ReaderActionModel::Deliver(b))
            } else {
                (ReaderState::Stopped, ReaderActionModel::Stop)
            },
            _ => (ReaderState::Stopped, ReaderActionModel::Stop),
        },
    }
}

/// A fresh reader: it awaits the first frame's header.
pub fn reader_start() -> (r: (ReaderState, ReaderAction))
    ensures
        r.0 == ReaderState::AwaitingHeader,
        action_model(r.1) == ReaderActionModel::ReadHeader,
{
    (ReaderState::AwaitingHeader, ReaderAction::ReadHeader)
}

/// Runs one step of the reader machine, exactly as `reader_step_spec` says.
pub fn reader_step(state: ReaderState, event: ReaderEvent) -> (r: (ReaderState, ReaderAction))
    ensures
        (r.0, action_model(r.1)) == reader_step_spec(state, event_model(event)),
{
    match state {
        ReaderState::Stopped => (ReaderState::Stopped, ReaderAction::Stop),
        ReaderState::AwaitingHeader => match event {
            ReaderEvent::Bytes(h) => if h.len() == 4 {
                let need = frame::decode_len(&h);
                (ReaderState::AwaitingBody { need }, ReaderAction::ReadBody(need))
            } else {
                (ReaderState::Stopped, ReaderAction::Stop)
            },
            _ => (ReaderState::Stopped, ReaderAction::Stop),
        },
        ReaderState::AwaitingBody { need } => match event {
            ReaderEvent::Bytes(b) => if b.len() == need as usize {
                (ReaderState::AwaitingHeader, ReaderAction::Deliver(b))
            } else {
                (ReaderState::Stopped, ReaderAction::Stop)
            },
            _ => (ReaderState::Stopped, ReaderAction::Stop),
        },
    }
}

/// How far a reader still has to go before it next awaits a header; only
/// used to show that running the machine over a finite stream ends.
pub open spec fn reader_rank(state: ReaderState) -> int {
    match state {
        ReaderState::Stopped => 0,
        ReaderState::AwaitingHeader => 1,
        ReaderState::AwaitingBody { .. } => 2,
    }
}

/// Everything the reader machine delivers when a well-behaved driver feeds
/// it `bytes`: the driver reads exactly what the machine asks for and stops
/// when too few bytes remain.
pub open spec fn run_reader_spec(state: ReaderState, bytes: Seq<u8>) -> Seq<Seq<u8>>
    decreases bytes.len(), reader_rank(state),
{
    match state {
        ReaderState::Stopped => seq![],
        ReaderState::AwaitingHeader => if bytes.len() >= 4 {
            let next = reader_step_spec(state, ReaderEventModel::Bytes(bytes.take(4)));
            run_reader_spec(next.0, bytes.skip(4))
        } else {
            seq![]
        },
        ReaderState::AwaitingBody { need } => if bytes.len() >= need {
            let next = reader_step_spec(state, ReaderEventModel::Bytes(bytes.take(need as int)));
            match next.1 {
                ReaderActionModel::Deliver(p) => seq![p] + run_reader_spec(
                    next.0,
                    bytes.skip(need as int),
                ),
                _ => seq![],
            }
        } else {
            seq![]
        },
    }
}

/// The machine run over a byte stream takes off exactly the payloads the
/// framing layer says the stream holds.
pub proof fn lemma_run_reader_deliveries(bytes: Seq<u8>)
    ensures
        run_reader_spec(ReaderState::AwaitingHeader, bytes) == frame::deliveries(bytes),
    decreases bytes.len(),
{
    if bytes.len() >= 4 {
        let h = bytes.take(4);
        assert(h[0] == bytes[0] && h[1] == bytes[1] && h[2] == bytes[2] && h[3] == bytes[3]);
        let n = frame::word_of(bytes[0], bytes[1], bytes[2], bytes[3]);
        let rest = bytes.skip(4);
        assert(reader_step_spec(ReaderState::AwaitingHeader, ReaderEventModel::Bytes(h)).0 == (
        ReaderState::AwaitingBody { need: n }));
        assert(run_reader_spec(ReaderState::AwaitingHeader, bytes) == run_reader_spec(
            (ReaderState::AwaitingBody { need: n }),
            rest,
        ));
        if rest.len() >= n {
            assert(rest.take(n as int) =~= bytes.subrange(4, 4 + n as int));
            assert(rest.skip(n as int) =~= bytes.skip(4 + n as int));
            assert(run_reader_spec((ReaderState::AwaitingBody { need: n }), rest) == seq![
                rest.take(n as int),
            ] + run_reader_spec(ReaderState::AwaitingHeader, rest.skip(n as int)));
            lemma_run_reader_deliveries(bytes.skip(4 + n as int));
            assert(frame::deliveries(bytes) == seq![bytes.subrange(4, 4 + n as int)]
                + frame::deliveries(bytes.skip(4 + n as int)));
        } else {
            assert(run_reader_spec((ReaderState::AwaitingBody { need: n }), rest) == Seq::<
                Seq<u8>,
            >::empty());
            assert(frame::deliveries(bytes) == Seq::<Seq<u8>>::empty());
        }
    }
}

/// Exactly-once delivery over one connection: a reader started on a fresh
/// connection and fed the stream that carries any sequence of payloads
/// delivers exactly those payloads, in order, each exactly once.
pub proof fn lemma_reader_stream_delivery(payloads: Seq<Seq<u8>>)
    requires
        forall|i: int| 0 <= i < payloads.len() ==> #[trigger] payloads[i].len() <= u32::MAX,
    ensures
        run_reader_spec(ReaderState::AwaitingHeader, frame::stream_of(payloads)) == payloads,
{
    lemma_run_reader_deliveries(frame::stream_of(payloads));
    frame::lemma_stream_delivery(payloads);
}

/// Delivery through the framing layer: a reader awaiting a header, fed the
/// header and then the body of the frame that carries `p`, delivers exactly
/// `p` exactly once and returns to awaiting the next header.
pub proof fn lemma_frame_delivery(p: Seq<u8>)
    requires
        p.len() <= u32::MAX,
    ensures
        ({
            let header = frame::frame_of(p).take(4);
            let first = reader_step_spec(
                ReaderState::AwaitingHeader,
                ReaderEventModel::Bytes(header),
            );
            &&& first == (
                (ReaderState::AwaitingBody { need: p.len() as u32 }),
                ReaderActionModel::ReadBody(p.len() as u32),
            )
            &&& reader_step_spec(first.0, ReaderEventModel::Bytes(p)) == (
                ReaderState::AwaitingHeader,
                ReaderActionModel::Deliver(p),
            )
        }),
{
    let n = p.len() as u32;
    frame::lemma_word_of_len_bytes(n);
    let header = frame::frame_of(p).take(4);
    assert(header.len() == 4);
    assert(header[0] == (n & 0xff) as u8);
    assert(header[1] == ((n >> 8) & 0xff) as u8);
    assert(header[2] == ((n >> 16) & 0xff) as u8);
    assert(header[3] == ((n >> 24) & 0xff) as u8);
}

/// Fault containment at the frame level: a body that does not match the
/// announced length stops the one reader that saw it, and a stopped reader
/// stays stopped whatever arrives later.
pub proof fn lemma_malformed_frame_stops(need: u32, body: Seq<u8>, later: ReaderEventModel)
    requires
        body.len() != need,
    ensures
        reader_step_spec(
            (ReaderState::AwaitingBody { need }),
            ReaderEventModel::Bytes(body),
        ) == ((ReaderState::Stopped, ReaderActionModel::Stop)),
        reader_step_spec(ReaderState::Stopped, later) == ((
            ReaderState::Stopped,
            ReaderActionModel::Stop,
        )),
{
}

} // verus!
