//! A TCP stream carried by a session.
use crate::anytls_proto::Command;
use crate::frame::{
    append_bytes, frame_of, law_frame_round_trip, Outgoing, OutgoingView,
};
use crate::outside::{from_utf8_lossy, utf8_lossy};
use crate::session::{FrameAction, SessionView, StreamEvent, StreamEventView};
use vstd::prelude::*;

verus! {

/// What a stream got when it asked the session for an event.
#[derive(Debug)]
pub enum Received {
    Event(StreamEvent),
    /// There is none yet.
    Empty,
    /// There will be none.
    Disconnected,
}

/// What a stream got when it asked the session for an event, as the contracts see it.
pub enum ReceivedView {
    Event(StreamEventView),
    Empty,
    Disconnected,
}

impl View for Received {
    type V = ReceivedView;

    open spec fn view(&self) -> ReceivedView {
        match self {
            Received::Event(event) => ReceivedView::Event(event@),
            Received::Empty => ReceivedView::Empty,
            Received::Disconnected => ReceivedView::Disconnected,
        }
    }
}

/// How an attempt to read ends.
#[derive(Debug)]
pub enum ReadOutcome {
    /// With these bytes; with none at the end of the stream.
    Ready(Vec<u8>),
    /// The server refused the stream.
    Refused(String),
    /// There is nothing to read yet.
    Pending,
}

/// How an attempt to read ends, as the contracts see it.
#[verifier::ext_equal]
pub enum ReadOutcomeView {
    Ready(Seq<u8>),
    Refused(Seq<char>),
    Pending,
}

impl View for ReadOutcome {
    type V = ReadOutcomeView;

    open spec fn view(&self) -> ReadOutcomeView {
        match self {
            ReadOutcome::Ready(data) => ReadOutcomeView::Ready(data@),
            ReadOutcome::Refused(message) => ReadOutcomeView::Refused(message@),
            ReadOutcome::Pending => ReadOutcomeView::Pending,
        }
    }
}

/// Why a stream cannot be written to.
#[derive(Debug, Clone, Copy, PartialEq, Eq, Structural)]
pub enum WriteError {
    /// The stream was shut down.
    AlreadyClosed,
    /// The session is gone.
    SessionClosed,
}

impl WriteError {
    pub open spec fn text(self) -> Seq<char> {
        match self {
            WriteError::AlreadyClosed => "stream already closed"@,
            WriteError::SessionClosed => "session closed"@,
        }
    }

    pub fn message(self) -> (text: &'static str)
        ensures
            text@ == self.text(),
    {
        match self {
            WriteError::AlreadyClosed => "stream already closed",
            WriteError::SessionClosed => "session closed",
        }
    }
}

/// A stream as the contracts see it.
#[verifier::ext_equal]
pub struct ProxyStreamView {
    pub stream_id: u32,
    /// What has come in and was not read yet.
    pub read_buffer: Seq<u8>,
    pub fin_received: bool,
    pub fin_sent: bool,
}

/// A TCP stream carried by a session.
pub struct AnytlsProxyStream {
    stream_id: u32,
    read_buffer: Vec<u8>,
    fin_received: bool,
    fin_sent: bool,
}

impl View for AnytlsProxyStream {
    type V = ProxyStreamView;

    closed spec fn view(&self) -> ProxyStreamView {
        ProxyStreamView {
            stream_id: self.stream_id,
            read_buffer: self.read_buffer@,
            fin_received: self.fin_received,
            fin_sent: self.fin_sent,
        }
    }
}

/// The part of `data` that fits into `room` bytes.
pub open spec fn fitting(data: Seq<u8>, room: nat) -> Seq<u8> {
    if data.len() <= room {
        data
    } else {
        data.take(room as int)
    }
}

/// The part of `data` that does not.
pub open spec fn left_over(data: Seq<u8>, room: nat) -> Seq<u8> {
    if data.len() <= room {
        Seq::empty()
    } else {
        data.skip(room as int)
    }
}

impl ProxyStreamView {
    /// A stream on which nothing has happened yet.
    pub open spec fn fresh(stream_id: u32) -> ProxyStreamView {
        ProxyStreamView {
            stream_id,
            read_buffer: Seq::empty(),
            fin_received: false,
            fin_sent: false,
        }
    }

    /// Reading has to wait for an event: nothing is buffered and the end has not come.
    pub open spec fn needs_event(self) -> bool {
        self.read_buffer.len() == 0 && !self.fin_received
    }

    /// What a read of up to `room` bytes takes from the buffer, and the stream after it.
    pub open spec fn read_buffered(self, room: nat) -> (ReadOutcomeView, ProxyStreamView) {
        (
            ReadOutcomeView::Ready(fitting(self.read_buffer, room)),
            ProxyStreamView { read_buffer: left_over(self.read_buffer, room), ..self },
        )
    }

    /// What a read of up to `room` bytes makes of an event, and the stream after it.
    pub open spec fn read_event(self, received: ReceivedView, room: nat) -> (
        ReadOutcomeView,
        ProxyStreamView,
    ) {
        let ended = ProxyStreamView { fin_received: true, ..self };
        match received {
            ReceivedView::Event(StreamEventView::Data(data)) => (
                ReadOutcomeView::Ready(fitting(data, room)),
                ProxyStreamView { read_buffer: left_over(data, room), ..self },
            ),
            ReceivedView::Event(StreamEventView::Fin) => (
                ReadOutcomeView::Ready(Seq::empty()),
                ended,
            ),
            ReceivedView::Event(StreamEventView::SynAckError(data)) => (
                ReadOutcomeView::Refused(utf8_lossy(data)),
                self,
            ),
            ReceivedView::Empty => (ReadOutcomeView::Pending, self),
            ReceivedView::Disconnected => (ReadOutcomeView::Ready(Seq::empty()), ended),
        }
    }

    /// One attempt to read: from the buffer, or else from the next event.
    pub open spec fn read(self, received: ReceivedView, room: nat) -> (
        ReadOutcomeView,
        ProxyStreamView,
    ) {
        if self.needs_event() {
            self.read_event(received, room)
        } else {
            self.read_buffered(room)
        }
    }

    /// The frame that carries what is written.
    pub open spec fn write(self, data: Seq<u8>) -> Result<OutgoingView, WriteError> {
        if self.fin_sent {
            Err(WriteError::AlreadyClosed)
        } else {
            Ok(OutgoingView { stream_id: self.stream_id, cmd: Command::Psh, data })
        }
    }

    /// The frame that ends the stream, where it was not sent yet.
    pub open spec fn fin(self) -> Option<OutgoingView> {
        if self.fin_sent {
            None
        } else {
            Some(OutgoingView { stream_id: self.stream_id, cmd: Command::Fin, data: Seq::empty() })
        }
    }

    pub open spec fn shut_down(self) -> ProxyStreamView {
        ProxyStreamView { fin_sent: true, ..self }
    }
}

/// Takes up to `room` bytes off the front of `data` and leaves the rest in it.
fn take_front(data: &mut Vec<u8>, room: usize) -> (front: Vec<u8>)
    ensures
        front@ == fitting(old(data)@, room as nat),
        final(data)@ == left_over(old(data)@, room as nat),
{
    let len: usize = data.len();
    let count: usize = if len <= room {
        len
    } else {
        room
    };
    let mut rest: Vec<u8> = data.split_off(count);
    let mut front: Vec<u8> = Vec::new();
    front.append(data);
    data.append(&mut rest);
    assert(front@ =~= fitting(old(data)@, room as nat));
    assert(data@ =~= left_over(old(data)@, room as nat));
    front
}

impl AnytlsProxyStream {
    /// A stream on which nothing has happened yet.
    pub fn new(stream_id: u32) -> (stream: AnytlsProxyStream)
        ensures
            stream@ == ProxyStreamView::fresh(stream_id),
    {
        AnytlsProxyStream {
            stream_id,
            read_buffer: Vec::new(),
            fin_received: false,
            fin_sent: false,
        }
    }

    pub fn stream_id(&self) -> (id: u32)
        ensures
            id == self@.stream_id,
    {
        self.stream_id
    }

    /// Reads up to `room` bytes, unless that has to wait for an event.
    pub fn poll_buffered(&mut self, room: usize) -> (r: Option<ReadOutcome>)
        ensures
            match r {
                Some(outcome) => !old(self)@.needs_event() && (outcome@, final(self)@) == old(
                    self,
                )@.read_buffered(room as nat),
                None => old(self)@.needs_event() && final(self)@ == old(self)@,
            },
    {
        if self.read_buffer.len() > 0 {
            let data: Vec<u8> = take_front(&mut self.read_buffer, room);
            Some(ReadOutcome::Ready(data))
        } else if self.fin_received {
            proof {
                assert(fitting(self@.read_buffer, room as nat) =~= Seq::empty());
                assert(left_over(self@.read_buffer, room as nat) =~= self@.read_buffer);
            }
            Some(ReadOutcome::Ready(Vec::new()))
        } else {
            None
        }
    }

    /// Reads up to `room` bytes of what the session had for the stream.
    pub fn poll_event(&mut self, received: Received, room: usize) -> (outcome: ReadOutcome)
        requires
            old(self)@.needs_event(),
        ensures
            (outcome@, final(self)@) == old(self)@.read_event(received@, room as nat),
            received matches Received::Event(StreamEvent::SynAckError(reason)) ==> (
            vstd::utf8::valid_utf8(reason@) ==> outcome@ == ReadOutcomeView::Refused(
                vstd::utf8::decode_utf8(reason@),
            )),
    {
        match received {
            Received::Event(StreamEvent::Data(data)) => {
                let mut rest: Vec<u8> = data;
                let front: Vec<u8> = take_front(&mut rest, room);
                let ghost before = self.read_buffer@;
                append_bytes(&mut self.read_buffer, &rest);
                assert(before + rest@ =~= rest@);
                ReadOutcome::Ready(front)
            },
            Received::Event(StreamEvent::Fin) => {
                self.fin_received = true;
                ReadOutcome::Ready(Vec::new())
            },
            Received::Event(StreamEvent::SynAckError(data)) => ReadOutcome::Refused(
                from_utf8_lossy(&data),
            ),
            Received::Empty => ReadOutcome::Pending,
            Received::Disconnected => {
                self.fin_received = true;
                ReadOutcome::Ready(Vec::new())
            },
        }
    }

    /// The frame that carries `data`.
    pub fn poll_write(&self, data: &[u8]) -> (r: Result<Outgoing, WriteError>)
        ensures
            match r {
                Ok(frame) => self@.write(data@) == Ok::<_, WriteError>(frame@),
                Err(e) => self@.write(data@) == Err::<OutgoingView, _>(e),
            },
    {
        if self.fin_sent {
            return Err(WriteError::AlreadyClosed);
        }
        Ok(
            Outgoing {
                stream_id: self.stream_id,
                cmd: Command::Psh,
                data: vstd::slice::slice_to_vec(data),
            },
        )
    }

    /// What the writer of `len` bytes is told, once their frame was handed to
    /// the session or the session turned out to be gone.
    pub fn write_outcome(len: usize, handed_over: bool) -> (r: Result<usize, WriteError>)
        ensures
            r == (if handed_over {
                Ok::<usize, WriteError>(len)
            } else {
                Err(WriteError::SessionClosed)
            }),
    {
        if handed_over {
            Ok(len)
        } else {
            Err(WriteError::SessionClosed)
        }
    }

    /// Ends the stream on this side; a second time nothing is sent.
    pub fn poll_shutdown(&mut self) -> (fin: Option<Outgoing>)
        ensures
            match fin {
                Some(frame) => old(self)@.fin() == Some(frame@),
                None => old(self)@.fin() is None,
            },
            final(self)@ == old(self)@.shut_down(),
    {
        let fin: Option<Outgoing> = self.close();
        self.fin_sent = true;
        fin
    }

    /// The frame that is still to be sent when the stream goes away.
    pub fn close(&self) -> (fin: Option<Outgoing>)
        ensures
            match fin {
                Some(frame) => self@.fin() == Some(frame@),
                None => self@.fin() is None,
            },
    {
        if self.fin_sent {
            return None;
        }
        let frame = Outgoing { stream_id: self.stream_id, cmd: Command::Fin, data: Vec::new() };
        assert(frame@.data =~= Seq::empty());
        Some(frame)
    }
}

/// The bytes that an attempt to read gave.
pub open spec fn bytes_of(outcome: ReadOutcomeView) -> Seq<u8> {
    match outcome {
        ReadOutcomeView::Ready(data) => data,
        _ => Seq::empty(),
    }
}

impl ProxyStreamView {
    /// The stream after a row of attempts to read, each with what the session
    /// had for it and the room there was.
    pub open spec fn after_reads(self, attempts: Seq<(ReceivedView, nat)>) -> ProxyStreamView
        decreases attempts.len(),
    {
        if attempts.len() == 0 {
            self
        } else {
            self.read(attempts[0].0, attempts[0].1).1.after_reads(attempts.drop_first())
        }
    }

    /// All that a row of attempts to read gave.
    pub open spec fn delivered(self, attempts: Seq<(ReceivedView, nat)>) -> Seq<u8>
        decreases attempts.len(),
    {
        if attempts.len() == 0 {
            Seq::empty()
        } else {
            let (outcome, next) = self.read(attempts[0].0, attempts[0].1);
            bytes_of(outcome) + next.delivered(attempts.drop_first())
        }
    }

    /// All the data that came in while a row of attempts to read was made.
    pub open spec fn taken_in(self, attempts: Seq<(ReceivedView, nat)>) -> Seq<u8>
        decreases attempts.len(),
    {
        if attempts.len() == 0 {
            Seq::empty()
        } else {
            let next = self.read(attempts[0].0, attempts[0].1).1;
            let data = match attempts[0].0 {
                ReceivedView::Event(StreamEventView::Data(data)) => if self.needs_event() {
                    data
                } else {
                    Seq::empty()
                },
                _ => Seq::empty(),
            };
            data + next.taken_in(attempts.drop_first())
        }
    }

    /// The stream after `n` requests to shut it down.
    pub open spec fn after_shutdowns(self, n: nat) -> ProxyStreamView
        decreases n,
    {
        if n == 0 {
            self
        } else {
            self.after_shutdowns((n - 1) as nat).shut_down()
        }
    }

    /// How many frames end the stream while it is shut down `n` times.
    pub open spec fn fins_sent(self, n: nat) -> nat
        decreases n,
    {
        if n == 0 {
            0
        } else {
            self.fins_sent((n - 1) as nat) + if self.after_shutdowns((n - 1) as nat).fin() is Some {
                1nat
            } else {
                0nat
            }
        }
    }
}

/// No byte is lost, repeated or moved: what was read and what is still buffered
/// is what was buffered before and what came in, in that order.
pub proof fn law_reads_keep_bytes(stream: ProxyStreamView, attempts: Seq<(ReceivedView, nat)>)
    ensures
        stream.delivered(attempts) + stream.after_reads(attempts).read_buffer
            == stream.read_buffer + stream.taken_in(attempts),
    decreases attempts.len(),
{
    if attempts.len() == 0 {
        assert(Seq::<u8>::empty() + stream.read_buffer =~= stream.read_buffer + Seq::empty());
    } else {
        let (received, room) = attempts[0];
        let rest = attempts.drop_first();
        let (outcome, next) = stream.read(received, room);
        law_reads_keep_bytes(next, rest);
        let first = bytes_of(outcome);
        let end = next.after_reads(rest).read_buffer;
        assert((first + next.delivered(rest)) + end =~= first + (next.delivered(rest) + end));
        assert(first + (next.read_buffer + next.taken_in(rest)) =~= (first + next.read_buffer)
            + next.taken_in(rest));
        if stream.needs_event() {
            match received {
                ReceivedView::Event(StreamEventView::Data(data)) => {
                    assert(first + next.read_buffer =~= data);
                    assert(stream.read_buffer + (data + next.taken_in(rest)) =~= data
                        + next.taken_in(rest));
                },
                _ => {
                    assert(first + next.read_buffer =~= stream.read_buffer);
                    assert(Seq::<u8>::empty() + next.taken_in(rest) =~= next.taken_in(rest));
                },
            }
        } else {
            assert(first + next.read_buffer =~= stream.read_buffer);
            assert(Seq::<u8>::empty() + next.taken_in(rest) =~= next.taken_in(rest));
        }
    }
}

/// Once the end of the stream has been read and nothing is buffered, every
/// further read gives nothing, whatever the session still has for it.
pub proof fn law_end_is_final(stream: ProxyStreamView, received: ReceivedView, room: nat)
    requires
        stream.fin_received,
        stream.read_buffer.len() == 0,
    ensures
        stream.read(received, room) == (ReadOutcomeView::Ready(Seq::empty()), stream),
{
    assert(fitting(stream.read_buffer, room) =~= Seq::empty());
    assert(left_over(stream.read_buffer, room) =~= stream.read_buffer);
}

/// However often a stream is shut down before it goes away, one frame ends it.
pub proof fn law_one_fin(stream: ProxyStreamView, shutdowns: nat)
    requires
        !stream.fin_sent,
    ensures
        stream.fins_sent(shutdowns) + (if stream.after_shutdowns(shutdowns).fin() is Some {
            1nat
        } else {
            0nat
        }) == 1,
        stream.after_shutdowns(shutdowns).fin_sent == (shutdowns > 0),
    decreases shutdowns,
{
    if shutdowns > 0 {
        law_one_fin(stream, (shutdowns - 1) as nat);
    }
}

/// A stream that was shut down takes no more data.
pub proof fn law_no_write_after_shutdown(stream: ProxyStreamView, data: Seq<u8>)
    ensures
        stream.shut_down().write(data) == Err::<OutgoingView, _>(WriteError::AlreadyClosed),
{
}

/// What is written, up to 65535 bytes at a time, and sent back by the server in
/// a frame of the same kind, is handed to the stream: a read takes what there is
/// room for and the rest waits.
pub proof fn law_echo(
    session: SessionView,
    stream: ProxyStreamView,
    sender: u64,
    data: Seq<u8>,
    room: nat,
    action: FrameAction,
)
    requires
        session.sender(stream.stream_id) == Some(sender),
        !stream.fin_sent,
        stream.needs_event(),
        data.len() <= 65535,
        session.asks(Command::Psh, stream.stream_id, data, action),
    ensures
        stream.write(data) matches Ok(frame) && frame_of(frame.bytes()) == Some(
            (frame.received(), Seq::<u8>::empty()),
        ) && Command::decode(frame.received().cmd) == Command::Psh && frame.received().stream_id
            == stream.stream_id && frame.received().data == data,
        action matches FrameAction::Deliver { sender: whose, event } && whose == sender
            && stream.read(ReceivedView::Event(event@), room) == (
            ReadOutcomeView::Ready(fitting(data, room)),
            ProxyStreamView { read_buffer: left_over(data, room), ..stream },
        ),
{
    let frame = stream.write(data).unwrap();
    law_frame_round_trip(frame.cmd, frame.stream_id, frame.data, Seq::empty());
    assert(frame.bytes() + Seq::<u8>::empty() =~= frame.bytes());
}

/// A stream that the server refused cannot be read: the reader is given the
/// reason of the server.
pub proof fn law_refusal(
    session: SessionView,
    stream: ProxyStreamView,
    sender: u64,
    reason: Seq<u8>,
    room: nat,
    action: FrameAction,
)
    requires
        session.sender(stream.stream_id) == Some(sender),
        stream.needs_event(),
        reason.len() > 0,
        session.asks(Command::SynAck, stream.stream_id, reason, action),
    ensures
        action matches FrameAction::Deliver { sender: whose, event } && whose == sender
            && stream.read(ReceivedView::Event(event@), room) == (
            ReadOutcomeView::Refused(utf8_lossy(reason)),
            stream,
        ),
{
}

/// A stream that the server accepted is told nothing.
pub proof fn law_acceptance(session: SessionView, stream_id: u32, action: FrameAction)
    requires
        session.asks(Command::SynAck, stream_id, Seq::empty(), action),
    ensures
        action is Continue,
{
}

/// What there is for a read and how much of it a read takes: from the buffer
/// where that holds anything, and from the front, as many bytes as there are and
/// as there is room for; the rest stays.
pub proof fn law_buffered_read(stream: ProxyStreamView, room: nat)
    ensures
        ({
            let (outcome, after) = stream.read_buffered(room);
            &&& outcome matches ReadOutcomeView::Ready(data) && data + after.read_buffer
                == stream.read_buffer && data.len() == (if stream.read_buffer.len() <= room {
                stream.read_buffer.len()
            } else {
                room
            })
            &&& after.stream_id == stream.stream_id
            &&& after.fin_received == stream.fin_received
            &&& after.fin_sent == stream.fin_sent
        }),
{
    let (outcome, after) = stream.read_buffered(room);
    if let ReadOutcomeView::Ready(data) = outcome {
        assert(data + after.read_buffer =~= stream.read_buffer);
    }
}

/// A read waits for an event exactly when nothing is buffered and the end has not
/// come from the other side.
pub proof fn law_waiting_for_events(stream: ProxyStreamView)
    ensures
        stream.needs_event() <==> stream.read_buffer.len() == 0 && !stream.fin_received,
{
}

/// What a read that waited makes of each event: of data as many bytes as there is
/// room for, with the rest kept; the end of the stream at its end or when the
/// session is gone; the reason where the server refused the stream.
pub proof fn law_event_read(stream: ProxyStreamView, received: ReceivedView, room: nat)
    ensures
        ({
            let (outcome, after) = stream.read_event(received, room);
            &&& after.stream_id == stream.stream_id
            &&& after.fin_sent == stream.fin_sent
            &&& match received {
                ReceivedView::Event(StreamEventView::Data(data)) => {
                    &&& outcome matches ReadOutcomeView::Ready(front) && front + after.read_buffer
                        == data && front.len() == (if data.len() <= room {
                        data.len()
                    } else {
                        room
                    })
                    &&& after.fin_received == stream.fin_received
                },
                ReceivedView::Event(StreamEventView::Fin) | ReceivedView::Disconnected => {
                    &&& outcome == ReadOutcomeView::Ready(Seq::empty())
                    &&& after.fin_received
                    &&& after.read_buffer == stream.read_buffer
                },
                ReceivedView::Event(StreamEventView::SynAckError(reason)) => {
                    &&& outcome == ReadOutcomeView::Refused(utf8_lossy(reason))
                    &&& after == stream
                },
                ReceivedView::Empty => outcome is Pending && after == stream,
            }
        }),
{
    let (outcome, after) = stream.read_event(received, room);
    if let ReceivedView::Event(StreamEventView::Data(data)) = received {
        if let ReadOutcomeView::Ready(front) = outcome {
            assert(front + after.read_buffer =~= data);
        }
    }
}

/// Closing the write half leaves the read half open: a stream that was shut down
/// reads what the same stream would read that was not, and keeps as much.
pub proof fn law_shutdown_leaves_reads(
    stream: ProxyStreamView,
    other: ProxyStreamView,
    received: ReceivedView,
    room: nat,
)
    requires
        other.stream_id == stream.stream_id,
        other.read_buffer == stream.read_buffer,
        other.fin_received == stream.fin_received,
        other.fin_sent != stream.fin_sent,
    ensures
        other.needs_event() == stream.needs_event(),
        other.read_buffered(room).0 == stream.read_buffered(room).0,
        other.read_event(received, room).0 == stream.read_event(received, room).0,
        other.read(received, room).0 == stream.read(received, room).0,
        other.read(received, room).1.read_buffer == stream.read(received, room).1.read_buffer,
        other.read(received, room).1.fin_received == stream.read(received, room).1.fin_received,
{
}

/// A stream that is shut down still gives the data that comes in: as many of its
/// bytes as there is room for.
pub proof fn law_read_after_shutdown(stream: ProxyStreamView, data: Seq<u8>, room: nat)
    requires
        stream.read_buffer.len() == 0,
        !stream.fin_received,
    ensures
        stream.shut_down().needs_event(),
        stream.shut_down().read(
            ReceivedView::Event(StreamEventView::Data(data)),
            room,
        ).0 matches ReadOutcomeView::Ready(front) && front.is_prefix_of(data) && front.len() == (
        if data.len() <= room {
            data.len()
        } else {
            room
        }),
{
}

/// Shutting a stream down notes that and nothing else.
pub proof fn law_shut_down(stream: ProxyStreamView)
    ensures
        stream.shut_down().fin_sent,
        stream.shut_down().stream_id == stream.stream_id,
        stream.shut_down().read_buffer == stream.read_buffer,
        stream.shut_down().fin_received == stream.fin_received,
{
}

/// What is written goes out whole, under the id of the stream, until the stream is
/// shut down; whether the other side has ended makes no difference.
pub proof fn law_write(stream: ProxyStreamView, data: Seq<u8>)
    ensures
        stream.fin_sent ==> stream.write(data) == Err::<OutgoingView, _>(
            WriteError::AlreadyClosed,
        ),
        !stream.fin_sent ==> (stream.write(data) matches Ok(frame) && frame.cmd == Command::Psh
            && frame.stream_id == stream.stream_id && frame.data == data),
{
}

/// The frame that ends a stream is still due exactly until it was sent.
pub proof fn law_fin_is_due(stream: ProxyStreamView)
    ensures
        stream.fin() is Some <==> !stream.fin_sent,
        stream.fin() matches Some(frame) ==> frame.cmd == Command::Fin && frame.stream_id
            == stream.stream_id && frame.data.len() == 0,
{
}

/// A new stream holds nothing and is open on both sides.
pub proof fn law_fresh_stream(stream_id: u32)
    ensures
        ProxyStreamView::fresh(stream_id).stream_id == stream_id,
        ProxyStreamView::fresh(stream_id).read_buffer.len() == 0,
        !ProxyStreamView::fresh(stream_id).fin_received,
        !ProxyStreamView::fresh(stream_id).fin_sent,
{
}

/// What was received and how a read ended are what they hold.
pub proof fn law_read_fields(received: Received, outcome: ReadOutcome)
    ensures
        received matches Received::Event(event) ==> received@ == ReceivedView::Event(event@),
        received is Empty ==> received@ is Empty,
        received is Disconnected ==> received@ is Disconnected,
        outcome matches ReadOutcome::Ready(data) ==> outcome@ == ReadOutcomeView::Ready(data@),
        outcome matches ReadOutcome::Refused(text) ==> outcome@ == ReadOutcomeView::Refused(text@),
        outcome is Pending ==> outcome@ is Pending,
        WriteError::AlreadyClosed.text() == "stream already closed"@,
        WriteError::SessionClosed.text() == "session closed"@,
{
}

} // verus!
