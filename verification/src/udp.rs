//! UDP over a session: messages with their length in front, one behind the
//! other on a stream.
use crate::anytls_proto::{Command, UDP_OVER_TCP_TARGET};
use crate::frame::{
    append_be16, append_bytes, be16, frame_of, law_frame_round_trip, lemma_be16, lemma_low16, read16,
    Outgoing, OutgoingView,
};
use crate::outside::{from_utf8_lossy, utf8_lossy};
use crate::session::{FrameAction, SessionView, StreamEvent, StreamEventView};
use vstd::prelude::*;

verus! {

/// Why no more messages come or go.
#[derive(Debug)]
pub enum UdpError {
    /// The server ended the stream.
    Closed,
    /// The server refused the stream.
    Refused(String),
    /// The session is gone.
    ChannelClosed,
    /// The session is gone, and a message cannot be sent.
    WriteClosed,
}

/// Why no more messages come or go, as the contracts see it.
#[verifier::ext_equal]
pub enum UdpErrorView {
    Closed,
    Refused(Seq<char>),
    ChannelClosed,
    WriteClosed,
}

impl View for UdpError {
    type V = UdpErrorView;

    open spec fn view(&self) -> UdpErrorView {
        match self {
            UdpError::Closed => UdpErrorView::Closed,
            UdpError::Refused(reason) => UdpErrorView::Refused(reason@),
            UdpError::ChannelClosed => UdpErrorView::ChannelClosed,
            UdpError::WriteClosed => UdpErrorView::WriteClosed,
        }
    }
}

impl UdpErrorView {
    pub open spec fn text(self) -> Seq<char> {
        match self {
            UdpErrorView::Closed => "UDP stream closed by remote"@,
            UdpErrorView::Refused(reason) => "UDP stream error: "@ + reason,
            UdpErrorView::ChannelClosed => "UDP stream channel closed"@,
            UdpErrorView::WriteClosed => "UDP write channel closed"@,
        }
    }
}

impl UdpError {
    pub fn message(&self) -> (text: String)
        ensures
            text@ == self@.text(),
    {
        let mut text: String = String::new();
        match self {
            UdpError::Closed => {
                text.append("UDP stream closed by remote");
            },
            UdpError::Refused(reason) => {
                text.append("UDP stream error: ");
                text.append(reason.as_str());
            },
            UdpError::ChannelClosed => {
                text.append("UDP stream channel closed");
            },
            UdpError::WriteClosed => {
                text.append("UDP write channel closed");
            },
        }
        assert(text@ =~= self@.text());
        text
    }
}

/// A message with its length in front; the length field holds the low sixteen bits.
pub open spec fn packet_bytes(message: Seq<u8>) -> Seq<u8> {
    be16(message.len()) + message
}

/// The message that `buffer` begins with and what stands behind it; nothing
/// where the buffer ends before the message does.
pub open spec fn next_message(buffer: Seq<u8>) -> Option<(Seq<u8>, Seq<u8>)> {
    if buffer.len() < 2 {
        None
    } else {
        let end = 2 + read16(buffer[0], buffer[1]);
        if buffer.len() < end {
            None
        } else {
            Some((buffer.subrange(2, end as int), buffer.skip(end as int)))
        }
    }
}

/// A socket as the contracts see it.
#[verifier::ext_equal]
pub struct UdpSocketView {
    pub stream_id: u32,
    /// What has come in and is not part of a message that was handed out.
    pub read_buffer: Seq<u8>,
}

/// A UDP socket carried by a session.
pub struct AnytlsUdpSocket {
    stream_id: u32,
    read_buffer: Vec<u8>,
}

impl View for AnytlsUdpSocket {
    type V = UdpSocketView;

    closed spec fn view(&self) -> UdpSocketView {
        UdpSocketView { stream_id: self.stream_id, read_buffer: self.read_buffer@ }
    }
}

impl UdpSocketView {
    /// What an event changes, or why it is the last. No event means that the session is gone.
    pub open spec fn after_event(self, event: Option<StreamEventView>) -> Result<
        UdpSocketView,
        UdpErrorView,
    > {
        match event {
            Some(StreamEventView::Data(data)) => Ok(
                UdpSocketView { read_buffer: self.read_buffer + data, ..self },
            ),
            Some(StreamEventView::Fin) => Err(UdpErrorView::Closed),
            Some(StreamEventView::SynAckError(data)) => Err(
                UdpErrorView::Refused(utf8_lossy(data)),
            ),
            None => Err(UdpErrorView::ChannelClosed),
        }
    }

    pub open spec fn fin(self) -> OutgoingView {
        OutgoingView { stream_id: self.stream_id, cmd: Command::Fin, data: Seq::empty() }
    }

    /// The frame that carries a message.
    pub open spec fn send(self, message: Seq<u8>) -> OutgoingView {
        OutgoingView {
            stream_id: self.stream_id,
            cmd: Command::Psh,
            data: packet_bytes(message),
        }
    }
}

impl AnytlsUdpSocket {
    /// A socket to which nothing has come yet.
    pub fn new(stream_id: u32) -> (socket: AnytlsUdpSocket)
        ensures
            socket@ == (UdpSocketView { stream_id, read_buffer: Seq::empty() }),
    {
        AnytlsUdpSocket { stream_id, read_buffer: Vec::new() }
    }

    /// The name and port that a stream is opened to in order to carry UDP to `port`.
    pub fn target(port: u16) -> (target: (String, u16))
        ensures
            target.0@ == UDP_OVER_TCP_TARGET@,
            target.1 == port,
    {
        (UDP_OVER_TCP_TARGET.to_owned(), port)
    }

    pub fn stream_id(&self) -> (id: u32)
        ensures
            id == self@.stream_id,
    {
        self.stream_id
    }

    /// Hands out the next message, where all of it has come in.
    pub fn next_msg(&mut self) -> (message: Option<Vec<u8>>)
        ensures
            match message {
                Some(data) => next_message(old(self)@.read_buffer) == Some(
                    (data@, final(self)@.read_buffer),
                ) && final(self)@.stream_id == old(self)@.stream_id,
                None => next_message(old(self)@.read_buffer) is None && final(self)@ == old(self)@,
            },
    {
        if self.read_buffer.len() < 2 {
            return None;
        }
        let len: usize = self.read_buffer[0] as usize * 256 + self.read_buffer[1] as usize;
        let total: usize = 2 + len;
        if self.read_buffer.len() < total {
            return None;
        }
        let data: Vec<u8> = vstd::slice::slice_to_vec(
            vstd::slice::slice_subrange(&self.read_buffer, 2, total),
        );
        let rest: Vec<u8> = self.read_buffer.split_off(total);
        assert(rest@ =~= old(self)@.read_buffer.skip(total as int));
        self.read_buffer = rest;
        Some(data)
    }

    /// Takes in what the session had for the socket; `None` when it will have
    /// nothing more.
    pub fn take_event(&mut self, event: Option<StreamEvent>) -> (r: Result<(), UdpError>)
        ensures
            ({
                let seen = match event {
                    Some(e) => Some(e@),
                    None => None,
                };
                match r {
                    Ok(_) => old(self)@.after_event(seen) == Ok::<_, UdpErrorView>(final(self)@),
                    Err(e) => old(self)@.after_event(seen) == Err::<UdpSocketView, _>(e@)
                        && final(self)@ == old(self)@,
                }
            }),
            event matches Some(StreamEvent::SynAckError(reason)) ==> (vstd::utf8::valid_utf8(
                reason@,
            ) ==> (r matches Err(e) && e@ == UdpErrorView::Refused(
                vstd::utf8::decode_utf8(reason@),
            ))),
    {
        match event {
            Some(StreamEvent::Data(data)) => {
                append_bytes(&mut self.read_buffer, &data);
                Ok(())
            },
            Some(StreamEvent::Fin) => Err(UdpError::Closed),
            Some(StreamEvent::SynAckError(data)) => Err(UdpError::Refused(from_utf8_lossy(&data))),
            None => Err(UdpError::ChannelClosed),
        }
    }

    /// The frame that carries a message.
    pub fn send_to(&self, message: &[u8]) -> (frame: Outgoing)
        ensures
            frame@ == self@.send(message@),
    {
        let mut data: Vec<u8> = Vec::new();
        append_be16(&mut data, message.len());
        append_bytes(&mut data, message);
        assert(data@ =~= packet_bytes(message@));
        Outgoing { stream_id: self.stream_id, cmd: Command::Psh, data }
    }

    /// What the sender of `len` bytes is told, once their frame was handed to the
    /// session or the session turned out to be gone.
    pub fn send_outcome(len: usize, handed_over: bool) -> (r: Result<usize, UdpError>)
        ensures
            match r {
                Ok(n) => handed_over && n == len,
                Err(e) => !handed_over && e@ == UdpErrorView::WriteClosed,
            },
    {
        if handed_over {
            Ok(len)
        } else {
            Err(UdpError::WriteClosed)
        }
    }

    /// The frame that ends the stream when the socket goes away.
    pub fn close(&self) -> (fin: Outgoing)
        ensures
            fin@ == self@.fin(),
    {
        let fin = Outgoing { stream_id: self.stream_id, cmd: Command::Fin, data: Vec::new() };
        assert(fin@.data =~= Seq::empty());
        fin
    }
}

/// The messages that `buffer` holds from its front on.
pub open spec fn messages(buffer: Seq<u8>) -> Seq<Seq<u8>>
    decreases buffer.len(),
{
    match next_message(buffer) {
        None => Seq::empty(),
        Some((message, rest)) => seq![message] + messages(rest),
    }
}

/// What stands behind the messages that `buffer` holds.
pub open spec fn unfinished(buffer: Seq<u8>) -> Seq<u8>
    decreases buffer.len(),
{
    match next_message(buffer) {
        None => buffer,
        Some((_, rest)) => unfinished(rest),
    }
}

/// Packets one behind the other.
pub open spec fn packets_bytes(sent: Seq<Seq<u8>>) -> Seq<u8>
    decreases sent.len(),
{
    if sent.len() == 0 {
        Seq::empty()
    } else {
        packet_bytes(sent[0]) + packets_bytes(sent.drop_first())
    }
}

/// A message is read back from behind a head that gives its length.
proof fn lemma_next_message(head: Seq<u8>, message: Seq<u8>, rest: Seq<u8>)
    requires
        head.len() == 2,
        read16(head[0], head[1]) == message.len(),
    ensures
        next_message(head + message + rest) == Some((message, rest)),
{
    let bytes = head + message + rest;
    assert(bytes[0] == head[0] && bytes[1] == head[1]);
    assert(bytes.subrange(2, 2int + message.len()) =~= message);
    assert(bytes.skip(2int + message.len()) =~= rest);
}

/// A message of up to 65535 bytes is read back from its packet.
pub proof fn law_packet_round_trip(message: Seq<u8>, rest: Seq<u8>)
    requires
        message.len() <= 65535,
    ensures
        next_message(packet_bytes(message) + rest) == Some((message, rest)),
{
    lemma_be16(message.len());
    lemma_next_message(be16(message.len()), message, rest);
}

/// The first of the messages in a buffer, and the others.
proof fn lemma_messages_step(buffer: Seq<u8>, message: Seq<u8>, rest: Seq<u8>)
    requires
        next_message(buffer) == Some((message, rest)),
    ensures
        messages(buffer) == seq![message] + messages(rest),
        unfinished(buffer) == unfinished(rest),
{
}

/// The messages that come out are those that were sent, in the same order, each
/// of up to 65535 bytes.
pub proof fn law_messages_round_trip(sent: Seq<Seq<u8>>)
    requires
        forall|i: int| 0 <= i < sent.len() ==> (#[trigger] sent[i]).len() <= 65535,
    ensures
        messages(packets_bytes(sent)) == sent,
        unfinished(packets_bytes(sent)).len() == 0,
    decreases sent.len(),
{
    if sent.len() == 0 {
        assert(sent =~= Seq::empty());
    } else {
        let rest = sent.drop_first();
        assert forall|i: int| 0 <= i < rest.len() implies (#[trigger] rest[i]).len() <= 65535 by {
            assert(rest[i] == sent[i + 1]);
        }
        law_messages_round_trip(rest);
        law_packet_round_trip(sent[0], packets_bytes(rest));
        lemma_messages_step(packets_bytes(sent), sent[0], packets_bytes(rest));
        assert(seq![sent[0]] + rest =~= sent);
    }
}

/// How the bytes are cut into events makes no difference: the messages of all
/// of them are those of the first part, then those that the second part completes.
pub proof fn law_cutting_is_immaterial(first: Seq<u8>, second: Seq<u8>)
    ensures
        messages(first + second) == messages(first) + messages(unfinished(first) + second),
        unfinished(first + second) == unfinished(unfinished(first) + second),
    decreases first.len(),
{
    match next_message(first) {
        None => {
            assert(Seq::<Seq<u8>>::empty() + messages(first + second) =~= messages(first + second));
        },
        Some((message, rest)) => {
            let whole = first + second;
            let end = 2 + read16(first[0], first[1]) as int;
            assert(whole[0] == first[0] && whole[1] == first[1]);
            assert(whole.subrange(2, end) =~= first.subrange(2, end));
            assert(whole.skip(end) =~= rest + second);
            law_cutting_is_immaterial(rest, second);
            assert(seq![message] + (messages(rest) + messages(unfinished(rest) + second)) =~= (
            seq![message] + messages(rest)) + messages(unfinished(rest) + second));
        },
    }
}

/// A message of up to 65533 bytes that the server sends back in a frame of the
/// same kind is handed to the socket and comes out of it, behind those that were
/// not taken out yet.
pub proof fn law_udp_echo(
    session: SessionView,
    socket: UdpSocketView,
    sender: u64,
    message: Seq<u8>,
    action: FrameAction,
)
    requires
        session.sender(socket.stream_id) == Some(sender),
        unfinished(socket.read_buffer).len() == 0,
        message.len() <= 65533,
        session.asks(Command::Psh, socket.stream_id, packet_bytes(message), action),
    ensures
        frame_of(socket.send(message).bytes()) == Some(
            (socket.send(message).received(), Seq::<u8>::empty()),
        ),
        action matches FrameAction::Deliver { sender: whose, event } && whose == sender
            && (socket.after_event(Some(event@)) matches Ok(next) && messages(next.read_buffer)
            == messages(socket.read_buffer).push(message) && unfinished(next.read_buffer).len()
            == 0),
{
    let frame = socket.send(message);
    let packet = packet_bytes(message);
    law_frame_round_trip(frame.cmd, frame.stream_id, frame.data, Seq::empty());
    assert(frame.bytes() + Seq::<u8>::empty() =~= frame.bytes());
    law_cutting_is_immaterial(socket.read_buffer, packet);
    assert(unfinished(socket.read_buffer) + packet =~= packet);
    let sent = seq![message];
    law_messages_round_trip(sent);
    assert(sent.drop_first() =~= Seq::empty());
    assert(packets_bytes(sent.drop_first()) =~= Seq::empty());
    assert(packets_bytes(sent) =~= packet);
    assert(messages(socket.read_buffer) + sent =~= messages(socket.read_buffer).push(message));
}

/// A socket whose stream the server refused ends with the reason that it gave.
pub proof fn law_udp_refusal(
    session: SessionView,
    socket: UdpSocketView,
    sender: u64,
    reason: Seq<u8>,
    action: FrameAction,
)
    requires
        session.sender(socket.stream_id) == Some(sender),
        reason.len() > 0,
        session.asks(Command::SynAck, socket.stream_id, reason, action),
    ensures
        action matches FrameAction::Deliver { sender: whose, event } && whose == sender
            && socket.after_event(Some(event@)) == Err::<UdpSocketView, _>(
            UdpErrorView::Refused(utf8_lossy(reason)),
        ),
{
}

/// A packet is two bytes of length, the high one first, then the message. Of a
/// length that does not fit, the low sixteen bits are written.
pub proof fn law_packet_layout(message: Seq<u8>)
    ensures
        ({
            let p = packet_bytes(message);
            &&& p.len() == 2 + message.len()
            &&& p[0] * 256 + p[1] == message.len() % 65536
            &&& p.skip(2) == message
        }),
{
    lemma_low16(message.len());
    assert(packet_bytes(message).skip(2) =~= message);
}

/// A message comes out exactly when as many bytes as its length says have come
/// in: those bytes, and what stands behind them stays.
pub proof fn law_message_reading(buffer: Seq<u8>)
    ensures
        next_message(buffer) is Some <==> buffer.len() >= 2 && buffer.len() >= 2 + buffer[0] * 256
            + buffer[1],
        next_message(buffer) matches Some((message, rest)) ==> {
            &&& message == buffer.subrange(2, 2 + buffer[0] * 256 + buffer[1])
            &&& rest == buffer.skip(2 + buffer[0] * 256 + buffer[1])
        },
{
}

/// Data is kept behind what came in before; any other event ends the socket, and
/// says why.
pub proof fn law_socket_events(socket: UdpSocketView, data: Seq<u8>)
    ensures
        socket.after_event(Some(StreamEventView::Data(data))) matches Ok(after)
            && after.read_buffer == socket.read_buffer + data && after.stream_id
            == socket.stream_id,
        socket.after_event(Some(StreamEventView::Fin)) == Err::<UdpSocketView, _>(
            UdpErrorView::Closed,
        ),
        socket.after_event(Some(StreamEventView::SynAckError(data))) == Err::<UdpSocketView, _>(
            UdpErrorView::Refused(utf8_lossy(data)),
        ),
        socket.after_event(None) == Err::<UdpSocketView, _>(UdpErrorView::ChannelClosed),
{
}

/// What a socket sends goes out under the id of its stream: a message as one
/// packet, and at the end a frame without data.
pub proof fn law_socket_frames(socket: UdpSocketView, message: Seq<u8>)
    ensures
        socket.send(message).cmd == Command::Psh,
        socket.send(message).stream_id == socket.stream_id,
        socket.send(message).data == packet_bytes(message),
        socket.fin().cmd == Command::Fin,
        socket.fin().stream_id == socket.stream_id,
        socket.fin().data.len() == 0,
{
}

/// What is said of each way to end.
pub proof fn law_socket_messages(error: UdpError)
    ensures
        error is Closed ==> error@.text() == "UDP stream closed by remote"@,
        error matches UdpError::Refused(reason) ==> error@ == UdpErrorView::Refused(reason@)
            && error@.text() == "UDP stream error: "@ + reason@,
        error is ChannelClosed ==> error@.text() == "UDP stream channel closed"@,
        error is WriteClosed ==> error@.text() == "UDP write channel closed"@,
        error is Closed <==> error@ is Closed,
        error is ChannelClosed <==> error@ is ChannelClosed,
        error is WriteClosed <==> error@ is WriteClosed,
{
}

} // verus!
