//! The collector's end of the link: what it does with each thing that
//! happens on its one connection. The loop that reads and writes is not here;
//! it reports what happened and carries out what it is told.

use crate::entry::{copy_entries, entries_of, Data, Entry};
use crate::frame::{closing_frame, end_frame, frame_payload, framed, lz4_compress, packs};
use crate::store::{Recorder, RecorderState};
use vstd::prelude::*;

verus! {

/// Where the collector stands between two steps.
#[derive(Debug, Clone, Copy, PartialEq, Eq)]
pub enum ServerState {
    /// It waits for the next read.
    Polling,
    /// It has handed out the oldest entries of the queue, this many, to be
    /// made into bytes.
    Encoding(usize),
    /// It has handed out the frame that carries that many entries.
    Sending(usize),
    /// The session is over.
    Stopped,
}

/// What happened on the connection.
#[derive(Debug, Clone, PartialEq, Eq)]
pub enum ServerEvent {
    /// The read gave these bytes, at least one.
    Received(Vec<u8>),
    /// The read gave nothing: the peer has closed.
    Closed,
    /// The read gave up: nothing came in time.
    Idle,
    /// The entries that were handed out, as bytes.
    Encoded(Vec<u8>),
    /// The entries that were handed out could not be made into bytes.
    EncodeFailed,
    /// The frame was written.
    Sent,
    /// The frame could not be written.
    SendFailed,
}

/// What the loop is to do next.
#[derive(Debug, Clone, PartialEq)]
pub enum ServerAction {
    /// Read again.
    Poll,
    /// Write these bytes, then read again.
    Reply(Vec<u8>),
    /// Make these entries into bytes and report them.
    Encode(Vec<Data>),
    /// Write this frame and report whether that was done.
    Send(Vec<u8>),
    /// Write these bytes, shut the connection down and leave.
    Finish(Vec<u8>),
    /// Leave.
    Stop,
}

/// What an action holds.
#[verifier::ext_equal]
pub enum ServerOrder {
    Poll,
    Reply(Seq<u8>),
    Encode(Seq<Entry>),
    Send(Seq<u8>),
    Finish(Seq<u8>),
    Stop,
}

impl View for ServerAction {
    type V = ServerOrder;

    open spec fn view(&self) -> ServerOrder {
        match self {
            ServerAction::Poll => ServerOrder::Poll,
            ServerAction::Reply(b) => ServerOrder::Reply(b@),
            ServerAction::Encode(d) => ServerOrder::Encode(entries_of(d@)),
            ServerAction::Send(b) => ServerOrder::Send(b@),
            ServerAction::Finish(b) => ServerOrder::Finish(b@),
            ServerAction::Stop => ServerOrder::Stop,
        }
    }
}

/// What the listener does after an attempt to accept a connection.
#[derive(Debug, Clone, Copy, PartialEq, Eq)]
pub enum AcceptAction {
    /// Serve the connection that was accepted.
    Serve,
    /// Nothing was accepted: wait for the next attempt.
    Retry,
}

/// The step of the listener on an attempt to accept a connection, and
/// whether it goes on listening. The link is between one collector and one
/// producer: the first connection that is accepted is served, and no other is
/// accepted after it. An attempt that fails is tried again.
pub open spec fn accepted(ok: bool) -> (AcceptAction, bool) {
    if ok {
        (AcceptAction::Serve, false)
    } else {
        (AcceptAction::Retry, true)
    }
}

/// The five bytes `hello`, with which each side greets the other.
pub open spec fn greeting() -> Seq<u8> {
    seq![104u8, 101u8, 108u8, 108u8, 111u8]
}

/// Whether the five bytes `close` begin at index `i` of `bytes`.
pub open spec fn close_at(bytes: Seq<u8>, i: int) -> bool {
    &&& 0 <= i
    &&& i + 5 <= bytes.len()
    &&& bytes[i] == 99
    &&& bytes[i + 1] == 108
    &&& bytes[i + 2] == 111
    &&& bytes[i + 3] == 115
    &&& bytes[i + 4] == 101
}

/// Whether `bytes` hold `close` somewhere: the request to end the session.
pub open spec fn asks_to_close(bytes: Seq<u8>) -> bool {
    exists|i: int| close_at(bytes, i)
}

/// The step of the collector on everything but entries that come back as
/// bytes: the recorder and the state after it, and what the loop is to do.
///
/// Once stopped it stays stopped. A greeting is answered with a greeting. A
/// request to close, or a stop that was asked for and is seen when nothing
/// came in, ends the session with the frame that ends the stream, and the
/// recorder no longer serves. When nothing came in and entries wait, they
/// are all handed out; when their frame was written, they leave the queue,
/// and not before.
pub open spec fn served(s: RecorderState, state: ServerState, event: ServerEvent) -> (
    RecorderState,
    ServerState,
    ServerOrder,
) {
    if state is Stopped {
        (s, ServerState::Stopped, ServerOrder::Stop)
    } else {
        match event {
            ServerEvent::Received(bytes) => if bytes@ == greeting() {
                (s, state, ServerOrder::Reply(greeting()))
            } else if asks_to_close(bytes@) {
                (
                    RecorderState { server: false, ..s },
                    ServerState::Stopped,
                    ServerOrder::Finish(end_frame()),
                )
            } else {
                (s, state, ServerOrder::Poll)
            },
            ServerEvent::Closed | ServerEvent::SendFailed => (
                s,
                ServerState::Stopped,
                ServerOrder::Stop,
            ),
            ServerEvent::Idle => if s.stop_server {
                (
                    RecorderState { server: false, ..s },
                    ServerState::Stopped,
                    ServerOrder::Finish(end_frame()),
                )
            } else if s.queue.len() == 0 {
                (s, ServerState::Polling, ServerOrder::Poll)
            } else {
                (s, ServerState::Encoding(s.queue.len() as usize), ServerOrder::Encode(s.queue))
            },
            ServerEvent::Sent => match state {
                ServerState::Sending(n) => if n <= s.queue.len() {
                    (
                        RecorderState { queue: s.queue.skip(n as int), ..s },
                        ServerState::Polling,
                        ServerOrder::Poll,
                    )
                } else {
                    (s, ServerState::Polling, ServerOrder::Poll)
                },
                _ => (s, ServerState::Polling, ServerOrder::Poll),
            },
            ServerEvent::EncodeFailed | ServerEvent::Encoded(_) => (
                s,
                ServerState::Polling,
                ServerOrder::Poll,
            ),
        }
    }
}

/// The step of the collector on the packed form of the entries that it
/// handed out, `n` of them: the frame that carries the packed form is handed
/// out to be written; where the packed form may not be sent, the collector
/// reads again.
pub open spec fn packed_step(n: usize, packed: Seq<u8>) -> (ServerState, ServerOrder) {
    match framed(packed) {
        Ok(frame) => (ServerState::Sending(n), ServerOrder::Send(frame)),
        Err(_) => (ServerState::Polling, ServerOrder::Poll),
    }
}

/// Whether the step is one on entries that came back as bytes while the
/// collector waited for them.
pub open spec fn is_encoded_batch(state: ServerState, event: ServerEvent) -> bool {
    state is Encoding && event is Encoded
}

/// The five bytes `hello`.
pub fn greeting_bytes() -> (b: Vec<u8>)
    ensures
        b@ == greeting(),
{
    let mut b: Vec<u8> = Vec::new();
    b.push(104);
    b.push(101);
    b.push(108);
    b.push(108);
    b.push(111);
    assert(b@ =~= greeting());
    b
}

/// Whether the bytes are the greeting.
pub fn is_greeting(bytes: &Vec<u8>) -> (b: bool)
    ensures
        b == (bytes@ == greeting()),
{
    let b = bytes.len() == 5 && bytes[0] == 104 && bytes[1] == 101 && bytes[2] == 108 && bytes[3]
        == 108 && bytes[4] == 111;
    if b {
        assert(bytes@ =~= greeting());
    } else if bytes.len() == 5 {
        assert(greeting()[0] == 104 && greeting()[1] == 101 && greeting()[2] == 108 && greeting()[3]
            == 108 && greeting()[4] == 111);
    }
    b
}

/// Whether the bytes hold `close` somewhere.
pub fn holds_close(bytes: &Vec<u8>) -> (b: bool)
    ensures
        b == asks_to_close(bytes@),
{
    if bytes.len() < 5 {
        return false;
    }
    let mut i: usize = 0;
    while i <= bytes.len() - 5
        invariant
            5 <= bytes.len(),
            forall|k: int| 0 <= k < i ==> !close_at(bytes@, k),
        decreases bytes.len() - i,
    {
        if bytes[i] == 99 && bytes[i + 1] == 108 && bytes[i + 2] == 111 && bytes[i + 3] == 115
            && bytes[i + 4] == 101 {
            assert(close_at(bytes@, i as int));
            return true;
        }
        i = i + 1;
    }
    false
}

/// One step of the listener: what it does after an attempt to accept a
/// connection, which went well or not, and whether it goes on listening.
pub fn accept_step(ok: bool) -> (r: (AcceptAction, bool))
    ensures
        r == accepted(ok),
{
    if ok {
        (AcceptAction::Serve, false)
    } else {
        (AcceptAction::Retry, true)
    }
}

/// Whether the recorder may begin to serve a link. It may unless it already
/// serves one; it then serves, and a stop that was asked for is forgotten.
pub fn create_server(recorder: &mut Recorder) -> (started: bool)
    ensures
        started == !old(recorder)@.server,
        final(recorder)@ == if started {
            RecorderState { server: true, stop_server: false, ..old(recorder)@ }
        } else {
            old(recorder)@
        },
{
    if recorder.server {
        false
    } else {
        recorder.server = true;
        recorder.stop_server = false;
        true
    }
}

/// Puts an entry at the end of the queue of the link.
pub fn add_data(recorder: &mut Recorder, data: Data)
    ensures
        final(recorder)@ == (RecorderState {
            queue: old(recorder)@.queue.push(data@),
            ..old(recorder)@
        }),
{
    recorder.queue.push(data);
    assert(recorder@.queue =~= old(recorder)@.queue.push(data@));
}

/// Asks the collector to stop. The recorder no longer serves; the collector
/// ends the session when it next finds that nothing came in.
pub fn stop_server(recorder: &mut Recorder)
    ensures
        final(recorder)@ == (RecorderState { server: false, stop_server: true, ..old(recorder)@ }),
{
    recorder.server = false;
    recorder.stop_server = true;
}

/// Puts the packed form of the entries that were handed out, `n` of them,
/// into a frame and hands it out; where it cannot be put into a frame, the
/// collector reads again and the entries wait for the next attempt.
pub fn send_packed(n: usize, packed: Vec<u8>) -> (r: (ServerState, ServerAction))
    ensures
        (r.0, r.1@) == packed_step(n, packed@),
{
    match frame_payload(packed) {
        Ok(frame) => (ServerState::Sending(n), ServerAction::Send(frame)),
        Err(_) => (ServerState::Polling, ServerAction::Poll),
    }
}

/// One step of the collector on its connection.
///
/// On entries that come back as bytes while it waits for them, it packs
/// them and the queue stays as it is: there is a packed form of exactly
/// these bytes of which the step is the one that `packed_step` gives. On
/// everything else the step is the one that `served` gives.
pub fn handle_client(recorder: &mut Recorder, state: ServerState, event: ServerEvent) -> (r: (
    ServerState,
    ServerAction,
))
    ensures
        !is_encoded_batch(state, event) ==> (final(recorder)@, r.0, r.1@) == served(
            old(recorder)@,
            state,
            event,
        ),
        is_encoded_batch(state, event) ==> final(recorder)@ == old(recorder)@ && exists|
            packed: Seq<u8>,
        |
            #[trigger] packs(packed, event->Encoded_0@) && (r.0, r.1@) == packed_step(
                state->Encoding_0,
                packed,
            ),
{
    if let ServerState::Stopped = state {
        return (ServerState::Stopped, ServerAction::Stop);
    }
    match event {
        ServerEvent::Received(bytes) => {
            if is_greeting(&bytes) {
                (state, ServerAction::Reply(greeting_bytes()))
            } else if holds_close(&bytes) {
                recorder.server = false;
                (ServerState::Stopped, ServerAction::Finish(closing_frame()))
            } else {
                (state, ServerAction::Poll)
            }
        },
        ServerEvent::Closed => (ServerState::Stopped, ServerAction::Stop),
        ServerEvent::SendFailed => (ServerState::Stopped, ServerAction::Stop),
        ServerEvent::Idle => {
            if recorder.stop_server {
                recorder.server = false;
                (ServerState::Stopped, ServerAction::Finish(closing_frame()))
            } else if recorder.queue.len() == 0 {
                (ServerState::Polling, ServerAction::Poll)
            } else {
                let batch = copy_entries(&recorder.queue);
                (ServerState::Encoding(recorder.queue.len()), ServerAction::Encode(batch))
            }
        },
        ServerEvent::Encoded(bytes) => {
            match state {
                ServerState::Encoding(n) => {
                    let packed = lz4_compress(&bytes);
                    assert(packs(packed@, bytes@));
                    send_packed(n, packed)
                },
                _ => (ServerState::Polling, ServerAction::Poll),
            }
        },
        ServerEvent::EncodeFailed => (ServerState::Polling, ServerAction::Poll),
        ServerEvent::Sent => {
            match state {
                ServerState::Sending(n) => {
                    if n <= recorder.queue.len() {
                        let rest = recorder.queue.split_off(n);
                        recorder.queue = rest;
                        assert(recorder@.queue =~= old(recorder)@.queue.skip(n as int));
                    }
                    (ServerState::Polling, ServerAction::Poll)
                },
                _ => (ServerState::Polling, ServerAction::Poll),
            }
        },
    }
}

} // verus!
