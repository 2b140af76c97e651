//! The producer's end of the link: what it does with each thing that happens
//! on its connection. The loop that connects, reads and writes is not here;
//! it reports what happened and carries out what it is told.

use crate::entry::{copy_data, entries_of, Data, Entry};
use crate::error::RecError;
use crate::frame::{batch_of, end_frame, header_of, open_payload, read_header, Header, PREFIX_LEN};
use crate::server::{greeting, greeting_bytes, is_greeting};
use crate::store::{admissible, is_admissible, Recorder, RecorderState, StoreState};
use vstd::prelude::*;

verus! {

/// The port of the link.
pub const PORT: u16 = 3333;

/// Where the producer stands between two steps.
#[derive(Debug, Clone, Copy, PartialEq, Eq)]
pub enum ClientState {
    /// The connection is being opened.
    Connecting,
    /// The greeting is being written.
    Greeting,
    /// The reply to the greeting is being read.
    AwaitReply,
    /// The length prefix of a frame is being read.
    AwaitHeader,
    /// A payload of this many bytes is being read.
    AwaitPayload(usize),
    /// A batch is being made into entries.
    AwaitEntries,
    /// The request to close is being written.
    Closing,
    /// The session is over.
    Finished,
}

/// What happened on the connection.
#[derive(Debug, Clone, PartialEq)]
pub enum ClientEvent {
    /// The connection is open.
    Connected,
    /// The bytes that were handed out are written.
    Sent,
    /// The read gave these bytes: as many as were asked for, or fewer where
    /// the stream ended before.
    Received(Vec<u8>),
    /// The batch that was handed out, as entries; and whether the owner of
    /// the session has asked for its end in the meantime.
    Decoded(Vec<Data>, bool),
    /// The batch that was handed out holds no entries that can be read.
    DecodeFailed,
    /// The connection could not be opened, read or written.
    Failed,
}

/// What the loop is to do next.
#[derive(Debug, Clone, PartialEq, Eq)]
pub enum ClientAction {
    /// Write these bytes and report whether that was done.
    Send(Vec<u8>),
    /// Read this many bytes and report them; where the stream ends before,
    /// report what came.
    Read(usize),
    /// Tell the operator that the reply to the greeting was not the
    /// greeting; then read this many bytes and report them.
    WarnAndRead(usize),
    /// Make these bytes into entries and report them.
    Decode(Vec<u8>),
    /// Leave: the session has ended as it should.
    Finish,
    /// Leave: the session has failed, for this reason.
    Fail(RecError),
}

/// What an action holds.
#[verifier::ext_equal]
pub enum ClientOrder {
    Send(Seq<u8>),
    Read(usize),
    WarnAndRead(usize),
    Decode(Seq<u8>),
    Finish,
    Fail(RecError),
}

impl View for ClientAction {
    type V = ClientOrder;

    open spec fn view(&self) -> ClientOrder {
        match self {
            ClientAction::Send(b) => ClientOrder::Send(b@),
            ClientAction::Read(n) => ClientOrder::Read(*n),
            ClientAction::WarnAndRead(n) => ClientOrder::WarnAndRead(*n),
            ClientAction::Decode(b) => ClientOrder::Decode(b@),
            ClientAction::Finish => ClientOrder::Finish,
            ClientAction::Fail(e) => ClientOrder::Fail(*e),
        }
    }
}

/// The five bytes `close`, with which the producer asks for the end.
pub open spec fn close_token() -> Seq<u8> {
    seq![99u8, 108u8, 111u8, 115u8, 101u8]
}

/// The entries of a store after a batch was replayed into it, and whether
/// the whole batch went in. The entries go in as they are, in their order,
/// up to the first one that may not be put into a store.
pub open spec fn replayed(entries: Seq<Entry>, batch: Seq<Entry>) -> (Seq<Entry>, bool)
    decreases batch.len(),
{
    if batch.len() == 0 {
        (entries, true)
    } else {
        let (before, whole) = replayed(entries, batch.drop_last());
        if whole && admissible(batch.last()) {
            (before.push(batch.last()), true)
        } else {
            (before, false)
        }
    }
}

/// The recorder after the session has ended.
pub open spec fn ended(s: RecorderState) -> RecorderState {
    RecorderState { client: false, ..s }
}

/// The step that ends the session as it should end.
pub open spec fn finish(s: RecorderState) -> (RecorderState, ClientState, ClientOrder) {
    (ended(s), ClientState::Finished, ClientOrder::Finish)
}

/// The step that ends the session for the reason `e`.
pub open spec fn fail(s: RecorderState, e: RecError) -> (RecorderState, ClientState, ClientOrder) {
    (ended(s), ClientState::Finished, ClientOrder::Fail(e))
}

/// The step of the producer: the recorder and the state after it, and what
/// the loop is to do.
///
/// It greets, reads the reply and goes on to the frames whatever the reply
/// is. A length of zero ends the session without error and without a read of
/// a payload. A payload is expanded and handed out to be made into entries,
/// which are replayed into the store as they are. When the owner has asked
/// for the end, the producer asks the collector to close and leaves. Any
/// failure of the connection ends the session with `TransportError`;
/// anything that does not belong where it comes ends it with
/// `ProtocolViolation`.
pub open spec fn produced(s: RecorderState, state: ClientState, event: ClientEvent) -> (
    RecorderState,
    ClientState,
    ClientOrder,
) {
    match (state, event) {
        (ClientState::Connecting, ClientEvent::Connected) => (
            s,
            ClientState::Greeting,
            ClientOrder::Send(greeting()),
        ),
        (ClientState::Greeting, ClientEvent::Sent) => (
            s,
            ClientState::AwaitReply,
            ClientOrder::Read(5),
        ),
        (ClientState::AwaitReply, ClientEvent::Received(bytes)) => if bytes@ == greeting() {
            (s, ClientState::AwaitHeader, ClientOrder::Read(PREFIX_LEN))
        } else {
            (s, ClientState::AwaitHeader, ClientOrder::WarnAndRead(PREFIX_LEN))
        },
        (ClientState::AwaitHeader, ClientEvent::Received(bytes)) => match header_of(bytes@) {
            Ok(Header::End) => finish(s),
            Ok(Header::Payload(n)) => (s, ClientState::AwaitPayload(n), ClientOrder::Read(n)),
            Err(e) => fail(s, e),
        },
        (ClientState::AwaitPayload(n), ClientEvent::Received(bytes)) => match batch_of(n, bytes@) {
            Ok(plain) => (s, ClientState::AwaitEntries, ClientOrder::Decode(plain)),
            Err(e) => fail(s, e),
        },
        (ClientState::AwaitEntries, ClientEvent::Decoded(batch, exit)) => {
            let (entries, whole) = replayed(s.rec.entries, entries_of(batch@));
            let after = RecorderState { rec: StoreState { entries, ..s.rec }, ..s };
            if !whole {
                fail(after, RecError::DuplicateField)
            } else if exit {
                (after, ClientState::Closing, ClientOrder::Send(close_token()))
            } else {
                (after, ClientState::AwaitHeader, ClientOrder::Read(PREFIX_LEN))
            }
        },
        (ClientState::Closing, ClientEvent::Sent) => finish(s),
        (ClientState::Closing, ClientEvent::Failed) => finish(s),
        (_, ClientEvent::Failed) => fail(s, RecError::TransportError),
        _ => fail(s, RecError::ProtocolViolation),
    }
}

/// A reply to the greeting, whatever it holds, is followed by the read of a
/// length prefix: the session goes on.
pub proof fn lemma_any_reply_goes_on(s: RecorderState, reply: Vec<u8>)
    ensures
        produced(s, ClientState::AwaitReply, ClientEvent::Received(reply)).0 == s,
        produced(s, ClientState::AwaitReply, ClientEvent::Received(reply)).1
            == ClientState::AwaitHeader,
        produced(s, ClientState::AwaitReply, ClientEvent::Received(reply)).2 == (if reply@
            == greeting() {
            ClientOrder::Read(PREFIX_LEN)
        } else {
            ClientOrder::WarnAndRead(PREFIX_LEN)
        }),
{
}

/// A length prefix of zero ends the session without error, and no read of a
/// payload is asked for.
pub proof fn lemma_zero_length_ends(s: RecorderState, prefix: Vec<u8>)
    requires
        prefix@ == end_frame(),
    ensures
        produced(s, ClientState::AwaitHeader, ClientEvent::Received(prefix)) == (
            ended(s),
            ClientState::Finished,
            ClientOrder::Finish,
        ),
{
}

/// The five bytes `close`.
pub fn close_bytes() -> (b: Vec<u8>)
    ensures
        b@ == close_token(),
{
    let mut b: Vec<u8> = Vec::new();
    b.push(99);
    b.push(108);
    b.push(111);
    b.push(115);
    b.push(101);
    assert(b@ =~= close_token());
    b
}

/// Whether a producer session is under way.
pub fn client_alive(recorder: &Recorder) -> (b: bool)
    ensures
        b == recorder@.client,
{
    recorder.client
}

/// Begins a producer session, unless one is under way. Where it begins, the
/// recorder has a session under way, and the state is the one in which the
/// connection is being opened.
pub fn create_client(recorder: &mut Recorder) -> (state: Option<ClientState>)
    ensures
        state == if old(recorder)@.client {
            None
        } else {
            Some(ClientState::Connecting)
        },
        final(recorder)@ == (RecorderState { client: true, ..old(recorder)@ }),
{
    if recorder.client {
        None
    } else {
        recorder.client = true;
        Some(ClientState::Connecting)
    }
}

/// Replays a batch into the store: the entries go in as they are, in their
/// order, up to the first one that may not be put into a store. The result
/// says whether the whole batch went in.
pub fn replay(recorder: &mut Recorder, batch: &Vec<Data>) -> (whole: bool)
    ensures
        (final(recorder)@.rec.entries, whole) == replayed(
            old(recorder)@.rec.entries,
            entries_of(batch@),
        ),
        final(recorder)@ == (RecorderState {
            rec: StoreState { entries: final(recorder)@.rec.entries, ..old(recorder)@.rec },
            ..old(recorder)@
        }),
{
    let ghost all = entries_of(batch@);
    let mut i: usize = 0;
    assert(all.take(0) =~= Seq::<Entry>::empty());
    while i < batch.len()
        invariant
            i <= batch.len(),
            all == entries_of(batch@),
            (recorder@.rec.entries, true) == replayed(old(recorder)@.rec.entries, all.take(i as int)),
            recorder@ == (RecorderState {
                rec: StoreState { entries: recorder@.rec.entries, ..old(recorder)@.rec },
                ..old(recorder)@
            }),
        decreases batch.len() - i,
    {
        proof {
            assert(all.take(i + 1).drop_last() =~= all.take(i as int));
            assert(all.take(i + 1).last() == batch@[i as int]@);
        }
        if !is_admissible(&batch[i]) {
            proof {
                lemma_replay_stops(old(recorder)@.rec.entries, all, i + 1);
            }
            return false;
        }
        let ghost before = recorder@.rec.entries;
        recorder.rec.data.push(copy_data(&batch[i]));
        assert(recorder@.rec.entries =~= before.push(batch@[i as int]@));
        i = i + 1;
    }
    assert(all.take(batch.len() as int) =~= all);
    true
}

/// Once an entry was refused, nothing behind it goes in.
pub proof fn lemma_replay_stops(entries: Seq<Entry>, batch: Seq<Entry>, k: int)
    requires
        0 <= k <= batch.len(),
        !replayed(entries, batch.take(k)).1,
    ensures
        replayed(entries, batch) == replayed(entries, batch.take(k)),
    decreases batch.len() - k,
{
    if k < batch.len() {
        assert(batch.take(k + 1).drop_last() =~= batch.take(k));
        lemma_replay_stops(entries, batch, k + 1);
    } else {
        assert(batch.take(k) =~= batch);
    }
}

/// One step of the producer on its connection: the step that `produced`
/// gives.
pub fn client_step(recorder: &mut Recorder, state: ClientState, event: ClientEvent) -> (r: (
    ClientState,
    ClientAction,
))
    ensures
        (final(recorder)@, r.0, r.1@) == produced(old(recorder)@, state, event),
{
    match (state, event) {
        (ClientState::Connecting, ClientEvent::Connected) => (
            ClientState::Greeting,
            ClientAction::Send(greeting_bytes()),
        ),
        (ClientState::Greeting, ClientEvent::Sent) => (ClientState::AwaitReply, ClientAction::Read(5)),
        (ClientState::AwaitReply, ClientEvent::Received(bytes)) => {
            if is_greeting(&bytes) {
                (ClientState::AwaitHeader, ClientAction::Read(PREFIX_LEN))
            } else {
                (ClientState::AwaitHeader, ClientAction::WarnAndRead(PREFIX_LEN))
            }
        },
        (ClientState::AwaitHeader, ClientEvent::Received(bytes)) => {
            match read_header(&bytes) {
                Ok(Header::End) => leave(recorder),
                Ok(Header::Payload(n)) => (ClientState::AwaitPayload(n), ClientAction::Read(n)),
                Err(e) => abandon(recorder, e),
            }
        },
        (ClientState::AwaitPayload(n), ClientEvent::Received(bytes)) => {
            match open_payload(n, &bytes) {
                Ok(plain) => (ClientState::AwaitEntries, ClientAction::Decode(plain)),
                Err(e) => abandon(recorder, e),
            }
        },
        (ClientState::AwaitEntries, ClientEvent::Decoded(batch, exit)) => {
            if !replay(recorder, &batch) {
                abandon(recorder, RecError::DuplicateField)
            } else if exit {
                (ClientState::Closing, ClientAction::Send(close_bytes()))
            } else {
                (ClientState::AwaitHeader, ClientAction::Read(PREFIX_LEN))
            }
        },
        (ClientState::Closing, ClientEvent::Sent) => leave(recorder),
        (ClientState::Closing, ClientEvent::Failed) => leave(recorder),
        (_, ClientEvent::Failed) => abandon(recorder, RecError::TransportError),
        _ => abandon(recorder, RecError::ProtocolViolation),
    }
}

/// Ends the session as it should end.
pub fn leave(recorder: &mut Recorder) -> (r: (ClientState, ClientAction))
    ensures
        (final(recorder)@, r.0, r.1@) == finish(old(recorder)@),
{
    recorder.client = false;
    (ClientState::Finished, ClientAction::Finish)
}

/// Ends the session for the reason `e`.
pub fn abandon(recorder: &mut Recorder, e: RecError) -> (r: (ClientState, ClientAction))
    ensures
        (final(recorder)@, r.0, r.1@) == fail(old(recorder)@, e),
{
    recorder.client = false;
    (ClientState::Finished, ClientAction::Fail(e))
}

} // verus!
