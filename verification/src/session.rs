//! A session: one TLS connection to the server, shared by many streams.
//!
//! The connection is read and written elsewhere. This module holds what a
//! session knows and says what each frame that comes in changes and asks for.
use crate::anytls_proto::{
    Command, AGENT_NAME, AUTH_HASH_SIZE, AUTH_LENGTH_FIELD_SIZE, PROTOCOL_VERSION,
};
use crate::frame::{
    append_be16, append_bytes, be16, frame_bytes, frame_of, law_frame_round_trip, lemma_be16,
    lemma_low16, read16, FrameView, Outgoing, OutgoingView,
};
use crate::outside::{
    draw, from_utf8_lossy, hex_digit, hex_lower, lists_entries, sha256_digest, table_contents,
    table_entries, table_get, table_insert, table_new, table_remove, utf8_lossy,
};
use crate::padding::{
    default_scheme, scheme_of, PaddingPolicy, PaddingScheme, PaddingSchemeView,
    DEFAULT_PADDING_SCHEME,
};
use crate::text::{
    append_decimal, chars_of, decimal, is_digit, is_word, law_cut_at_separator,
    law_decimal_round_trip, lemma_decimal,
    lemma_split_first, lemma_split_once, lemma_trimmed, parse_number, parse_unsigned, split,
    split_chars, split_once, split_once_chars, trim, trim_chars, views,
};
use dashmap::DashMap;
use vstd::prelude::*;

verus! {

/// What the session tells one of its streams.
#[derive(Debug)]
pub enum StreamEvent {
    Data(Vec<u8>),
    Fin,
    SynAckError(Vec<u8>),
}

/// What the session tells one of its streams, as the contracts see it.
#[verifier::ext_equal]
pub enum StreamEventView {
    Data(Seq<u8>),
    Fin,
    SynAckError(Seq<u8>),
}

impl View for StreamEvent {
    type V = StreamEventView;

    open spec fn view(&self) -> StreamEventView {
        match self {
            StreamEvent::Data(data) => StreamEventView::Data(data@),
            StreamEvent::Fin => StreamEventView::Fin,
            StreamEvent::SynAckError(data) => StreamEventView::SynAckError(data@),
        }
    }
}

impl StreamEvent {
    pub fn copy(&self) -> (event: StreamEvent)
        ensures
            event@ == self@,
    {
        match self {
            StreamEvent::Data(data) => StreamEvent::Data(vstd::slice::slice_to_vec(data)),
            StreamEvent::Fin => StreamEvent::Fin,
            StreamEvent::SynAckError(data) => StreamEvent::SynAckError(
                vstd::slice::slice_to_vec(data),
            ),
        }
    }
}

/// What a frame from the server asks for.
#[derive(Debug)]
pub enum FrameAction {
    /// Nothing, beyond what has changed in the session.
    Continue,
    /// Hand an event to the stream with this event sender.
    Deliver { sender: u64, event: StreamEvent },
    /// Send a frame back.
    Reply(Outgoing),
    /// The server gave up: hand each of the streams (id and event sender) the
    /// refusal, then end the session with the message.
    Abort { recipients: Vec<(u32, u64)>, refusal: StreamEvent, message: String },
}

/// A session as the contracts see it.
#[verifier::ext_equal]
pub struct SessionView {
    pub session_seq: u64,
    /// Stream id to the number of the stream's event sender.
    pub streams: Map<u32, u64>,
    pub next_stream_id: u32,
    pub server_version: u8,
    pub is_dead: bool,
    pub packet_count: u64,
    pub padding_scheme: PaddingSchemeView,
}

/// One TLS connection to the server that carries many streams.
pub struct Session {
    session_seq: u64,
    streams: DashMap<u32, u64>,
    next_stream_id: u32,
    server_version: u8,
    is_dead: bool,
    packet_count: u64,
    padding_scheme: PaddingScheme,
}

impl View for Session {
    type V = SessionView;

    closed spec fn view(&self) -> SessionView {
        SessionView {
            session_seq: self.session_seq,
            streams: table_contents(self.streams),
            next_stream_id: self.next_stream_id,
            server_version: self.server_version,
            is_dead: self.is_dead,
            packet_count: self.packet_count,
            padding_scheme: self.padding_scheme@,
        }
    }
}

/// The bounds of the padding behind the password hash: those of the first chunk
/// of packet 0, or thirty bytes where the scheme says nothing of it.
pub open spec fn auth_range(policies: Map<u8, Seq<(usize, usize, bool)>>) -> (usize, usize) {
    if policies.dom().contains(0) && policies[0].len() > 0 {
        (policies[0][0].0, policies[0][0].1)
    } else {
        (30, 30)
    }
}

/// The first packet: the password hash, the length of the padding, and so many zeros.
pub open spec fn auth_bytes(password_hash: Seq<u8>, padding: nat) -> Seq<u8> {
    password_hash + be16(padding) + Seq::new(padding, |i: int| 0u8)
}

/// What the client says of itself.
pub open spec fn settings_text(hash: Seq<char>) -> Seq<char> {
    "v="@ + decimal(PROTOCOL_VERSION as nat) + "\nclient="@ + AGENT_NAME@ + "\npadding-md5="@ + hash
        + "\n"@
}

/// The frame that says it.
pub open spec fn settings_frame() -> OutgoingView {
    OutgoingView {
        stream_id: 0,
        cmd: Command::Settings,
        data: vstd::utf8::encode_utf8(settings_text(default_scheme().hash)),
    }
}

/// What the client sends first.
pub open spec fn greeting_bytes(password_hash: Seq<u8>, padding: nat) -> Seq<u8> {
    auth_bytes(password_hash, padding) + settings_frame().bytes()
}

/// How the other side reads the first packet: a hash, a length, and so many
/// bytes to skip; then what stands behind it.
pub open spec fn auth_of(bytes: Seq<u8>) -> Option<(Seq<u8>, Seq<u8>)> {
    let head = AUTH_HASH_SIZE + AUTH_LENGTH_FIELD_SIZE;
    if bytes.len() < head {
        None
    } else {
        let end = head + read16(
            bytes[AUTH_HASH_SIZE as int],
            bytes[AUTH_HASH_SIZE + 1],
        );
        if bytes.len() < end {
            None
        } else {
            Some((bytes.take(AUTH_HASH_SIZE as int), bytes.skip(end)))
        }
    }
}

/// The version that the first line with the key `v` gives.
pub open spec fn version_of_lines(lines: Seq<Seq<char>>) -> Option<u8>
    decreases lines.len(),
{
    if lines.len() == 0 {
        None
    } else {
        match split_once(lines[0], '=') {
            Some((key, value)) => if trim(key) == "v"@ {
                match parse_unsigned(trim(value), 255) {
                    Some(n) => Some(n as u8),
                    None => None,
                }
            } else {
                version_of_lines(lines.drop_first())
            },
            None => version_of_lines(lines.drop_first()),
        }
    }
}

/// The version that a settings text gives.
pub open spec fn version_of(settings: Seq<char>) -> Option<u8> {
    version_of_lines(split(settings, '\n'))
}

/// `n + 1`, starting over behind the largest.
pub open spec fn next_u32(n: u32) -> u32 {
    if n == u32::MAX {
        0
    } else {
        (n + 1) as u32
    }
}

/// `n + 1`, starting over behind the largest.
pub open spec fn next_u64(n: u64) -> u64 {
    if n == u64::MAX {
        0
    } else {
        (n + 1) as u64
    }
}

/// Whether the data of a frame is text.
pub open spec fn carries_text(cmd: Command) -> bool {
    cmd is Alert || cmd is UpdatePaddingScheme || cmd is ServerSettings
}

/// What an alert comes down to.
pub open spec fn alert_message(data: Seq<u8>) -> Seq<char> {
    "server alert: "@ + utf8_lossy(data)
}

impl SessionView {
    /// A session whose connection has just been made.
    pub open spec fn fresh(session_seq: u64, padding_scheme: PaddingSchemeView) -> SessionView {
        SessionView {
            session_seq,
            streams: Map::empty(),
            next_stream_id: 1,
            server_version: 1,
            is_dead: false,
            packet_count: 0,
            padding_scheme,
        }
    }

    /// The event sender of a stream.
    pub open spec fn sender(self, stream_id: u32) -> Option<u64> {
        if self.streams.dom().contains(stream_id) {
            Some(self.streams[stream_id])
        } else {
            None
        }
    }

    /// The session with one more stream.
    pub open spec fn with_stream(self, sender: u64) -> SessionView {
        SessionView {
            next_stream_id: next_u32(self.next_stream_id),
            streams: self.streams.insert(self.next_stream_id, sender),
            ..self
        }
    }

    /// The session after a frame. Only an alert is not counted: it ends the session.
    pub open spec fn after_frame(self, cmd: Command, data: Seq<u8>) -> SessionView {
        let counted = SessionView { packet_count: next_u64(self.packet_count), ..self };
        match cmd {
            Command::Alert => self,
            Command::UpdatePaddingScheme => match scheme_of(utf8_lossy(data)) {
                Ok(padding_scheme) => SessionView { padding_scheme, ..counted },
                Err(_) => counted,
            },
            Command::ServerSettings => match version_of(utf8_lossy(data)) {
                Some(server_version) => SessionView { server_version, ..counted },
                None => counted,
            },
            _ => counted,
        }
    }

    /// The event that a frame brings for its stream.
    pub open spec fn frame_event(cmd: Command, data: Seq<u8>) -> Option<StreamEventView> {
        match cmd {
            Command::Psh => Some(StreamEventView::Data(data)),
            Command::Fin => Some(StreamEventView::Fin),
            Command::SynAck => if data.len() > 0 {
                Some(StreamEventView::SynAckError(data))
            } else {
                None
            },
            _ => None,
        }
    }

    /// Whether `action` is what a frame asks for.
    pub open spec fn asks(
        self,
        cmd: Command,
        stream_id: u32,
        data: Seq<u8>,
        action: FrameAction,
    ) -> bool {
        match cmd {
            Command::Psh | Command::Fin | Command::SynAck => match (
                SessionView::frame_event(cmd, data),
                self.sender(stream_id),
            ) {
                (Some(what), Some(whose)) => action matches FrameAction::Deliver { sender, event }
                    && sender == whose && event@ == what,
                _ => action is Continue,
            },
            Command::HeartRequest => action matches FrameAction::Reply(reply) && reply@
                == (OutgoingView { stream_id: 0, cmd: Command::HeartResponse, data: Seq::empty() }),
            Command::Alert => action matches FrameAction::Abort { recipients, refusal, message }
                && lists_entries(recipients@, self.streams) && message@ == alert_message(data)
                && refusal@ == StreamEventView::SynAckError(
                vstd::utf8::encode_utf8(alert_message(data)),
            ),
            _ => action is Continue,
        }
    }
}

impl Session {
    /// A session whose connection has just been made.
    pub fn new(session_seq: u64, padding_scheme: PaddingScheme) -> (session: Session)
        ensures
            session@ == SessionView::fresh(session_seq, padding_scheme@),
    {
        let session = Session {
            session_seq,
            streams: table_new(),
            next_stream_id: 1,
            server_version: 1,
            is_dead: false,
            packet_count: 0,
            padding_scheme,
        };
        assert(session@.streams =~= Map::empty());
        session
    }

    /// The bounds of the padding behind the password hash.
    pub fn auth_bounds(scheme: &PaddingScheme) -> (r: (usize, usize))
        ensures
            r == auth_range(scheme@.policies),
    {
        broadcast use vstd::std_specs::hash::group_hash_axioms;

        match scheme.policies.get(&0) {
            Some(policy) => {
                let PaddingPolicy::Chunks(chunks) = policy;
                if chunks.len() > 0 {
                    (chunks[0].0, chunks[0].1)
                } else {
                    (30, 30)
                }
            },
            None => (30, 30),
        }
    }

    /// The first packet, with `padding` zeros. The length field holds the low
    /// sixteen bits of their number.
    pub fn auth_packet(password_hash: &[u8; 32], padding: usize) -> (packet: Vec<u8>)
        requires
            AUTH_HASH_SIZE + AUTH_LENGTH_FIELD_SIZE + padding <= usize::MAX,
        ensures
            packet@ == auth_bytes(password_hash@, padding as nat),
    {
        let mut packet: Vec<u8> = Vec::new();
        append_bytes(&mut packet, password_hash.as_slice());
        append_be16(&mut packet, padding);
        let head: usize = packet.len();
        packet.resize(head + padding, 0);
        assert(packet@ =~= auth_bytes(password_hash@, padding as nat)) by {
            let start = password_hash@ + be16(padding as nat);
            assert(packet@.subrange(0, start.len() as int) =~= start);
        }
        packet
    }

    /// The frame in which the client says what it is.
    pub fn settings() -> (frame: Outgoing)
        ensures
            frame@ == settings_frame(),
            frame@.data.len() == 104,
    {
        let scheme: PaddingScheme = PaddingScheme::get_default();
        let mut text: String = String::new();
        text.append("v=");
        append_decimal(&mut text, PROTOCOL_VERSION as u32);
        text.append("\nclient=");
        text.append(AGENT_NAME);
        text.append("\npadding-md5=");
        text.append(scheme.hash.as_str());
        text.append("\n");
        assert(text@ =~= settings_text(scheme.hash@));
        proof {
            lemma_hex_ascii(sha256_digest(vstd::utf8::encode_utf8(DEFAULT_PADDING_SCHEME@)));
            lemma_settings_ascii(scheme.hash@);
            vstd::utf8::is_ascii_chars_encode_utf8(text@);
        }
        let data: Vec<u8> = text.as_str().as_bytes_vec();
        Outgoing { stream_id: 0, cmd: Command::Settings, data }
    }

    /// What the client sends first: the password hash behind which `padding`
    /// zeros stand, then what it is.
    pub fn greeting(password_hash: &[u8; 32], padding: usize) -> (bytes: Vec<u8>)
        requires
            AUTH_HASH_SIZE + AUTH_LENGTH_FIELD_SIZE + padding <= usize::MAX,
        ensures
            bytes@ == greeting_bytes(password_hash@, padding as nat),
    {
        let mut bytes: Vec<u8> = Session::auth_packet(password_hash, padding);
        let frame: Vec<u8> = Session::settings().to_bytes();
        append_bytes(&mut bytes, &frame);
        bytes
    }

    /// How much padding to send behind the password hash: some number within
    /// the bounds of the session's scheme.
    pub fn draw_auth_padding(&self) -> (n: usize)
        requires
            auth_range(self@.padding_scheme.policies).0 <= auth_range(
                self@.padding_scheme.policies,
            ).1,
        ensures
            auth_range(self@.padding_scheme.policies).0 <= n <= auth_range(
                self@.padding_scheme.policies,
            ).1,
    {
        let (low, high) = Session::auth_bounds(&self.padding_scheme);
        if low == high {
            low
        } else {
            draw(low, high)
        }
    }

    /// What the client sends first, with some amount of padding within the bounds
    /// of the session's scheme.
    pub fn drawn_greeting(&self, password_hash: &[u8; 32]) -> (bytes: Vec<u8>)
        requires
            auth_range(self@.padding_scheme.policies).0 <= auth_range(
                self@.padding_scheme.policies,
            ).1,
            AUTH_HASH_SIZE + AUTH_LENGTH_FIELD_SIZE + auth_range(
                self@.padding_scheme.policies,
            ).1 <= usize::MAX,
        ensures
            exists|n: nat|
                auth_range(self@.padding_scheme.policies).0 <= n <= auth_range(
                    self@.padding_scheme.policies,
                ).1 && bytes@ == #[trigger] greeting_bytes(password_hash@, n),
    {
        let padding: usize = self.draw_auth_padding();
        Session::greeting(password_hash, padding)
    }

    /// The version that the server's settings give.
    pub fn parse_server_version(settings: &str) -> (version: Option<u8>)
        ensures
            version == version_of(settings@),
    {
        let chars: Vec<char> = chars_of(settings);
        let lines: Vec<Vec<char>> = split_chars(&chars, '\n');
        let ghost all = views(lines@);
        let mut i: usize = 0;
        assert(all.skip(0) =~= all);
        while i < lines.len()
            invariant
                i <= lines@.len(),
                all == views(lines@),
                all == split(settings@, '\n'),
                version_of(settings@) == version_of_lines(all.skip(i as int)),
            decreases lines@.len() - i,
        {
            let ghost here = all.skip(i as int);
            assert(here[0] == all[i as int]);
            assert(here.drop_first() =~= all.skip(i + 1));
            if let Some((key, value)) = split_once_chars(&lines[i], '=') {
                let key: Vec<char> = trim_chars(&key);
                if is_word(&key, "v") {
                    let value: Vec<char> = trim_chars(&value);
                    return match parse_number(&value, 255) {
                        Some(n) => Some(n as u8),
                        None => None,
                    };
                }
            }
            i = i + 1;
        }
        None
    }

    /// Takes in a frame from the server.
    pub fn handle_frame(&mut self, cmd: Command, stream_id: u32, data: Vec<u8>) -> (action:
        FrameAction)
        ensures
            final(self)@ == old(self)@.after_frame(cmd, data@),
            old(self)@.asks(cmd, stream_id, data@, action),
            carries_text(cmd) && vstd::utf8::valid_utf8(data@) ==> utf8_lossy(data@)
                == vstd::utf8::decode_utf8(data@),
    {
        let mut action: FrameAction = FrameAction::Continue;
        match cmd {
            Command::Psh => {
                if let Some(sender) = table_get(&self.streams, stream_id) {
                    action = FrameAction::Deliver { sender, event: StreamEvent::Data(data) };
                }
            },
            Command::Fin => {
                if let Some(sender) = table_get(&self.streams, stream_id) {
                    action = FrameAction::Deliver { sender, event: StreamEvent::Fin };
                }
            },
            Command::SynAck => {
                if data.len() > 0 {
                    if let Some(sender) = table_get(&self.streams, stream_id) {
                        action =
                        FrameAction::Deliver { sender, event: StreamEvent::SynAckError(data) };
                    }
                }
            },
            Command::Alert => {
                let text: String = from_utf8_lossy(&data);
                let mut message: String = String::new();
                message.append("server alert: ");
                message.append(text.as_str());
                assert(message@ =~= alert_message(data@));
                let recipients: Vec<(u32, u64)> = table_entries(&self.streams);
                let refusal = StreamEvent::SynAckError(message.as_str().as_bytes_vec());
                return FrameAction::Abort { recipients, refusal, message };
            },
            Command::UpdatePaddingScheme => {
                let text: String = from_utf8_lossy(&data);
                if let Ok(scheme) = PaddingScheme::parse(text.as_str()) {
                    self.padding_scheme = scheme;
                }
            },
            Command::HeartRequest => {
                let reply = Outgoing {
                    stream_id: 0,
                    cmd: Command::HeartResponse,
                    data: Vec::new(),
                };
                action = FrameAction::Reply(reply);
            },
            Command::ServerSettings => {
                let text: String = from_utf8_lossy(&data);
                if let Some(version) = Session::parse_server_version(text.as_str()) {
                    self.server_version = version;
                }
            },
            _ => {},
        }
        self.packet_count = self.packet_count.wrapping_add(1);
        action
    }

    /// The number of the session among those of its client.
    pub fn session_seq(&self) -> (n: u64)
        ensures
            n == self@.session_seq,
    {
        self.session_seq
    }

    pub fn is_dead(&self) -> (dead: bool)
        ensures
            dead == self@.is_dead,
    {
        self.is_dead
    }

    /// Notes that the connection is gone.
    pub fn mark_dead(&mut self)
        ensures
            final(self)@ == (SessionView { is_dead: true, ..old(self)@ }),
    {
        self.is_dead = true;
    }

    /// The version that the server gave; 1 until it does.
    pub fn server_version(&self) -> (version: u8)
        ensures
            version == self@.server_version,
    {
        self.server_version
    }

    /// How many frames were taken in.
    pub fn packet_count(&self) -> (count: u64)
        ensures
            count == self@.packet_count,
    {
        self.packet_count
    }

    /// The scheme that the session pads by.
    pub fn padding_scheme(&self) -> (scheme: &PaddingScheme)
        ensures
            scheme@ == self@.padding_scheme,
    {
        &self.padding_scheme
    }

    /// Hands out a stream id.
    pub fn next_stream_id(&mut self) -> (id: u32)
        ensures
            id == old(self)@.next_stream_id,
            final(self)@ == (SessionView { next_stream_id: next_u32(id), ..old(self)@ }),
    {
        let id: u32 = self.next_stream_id;
        self.next_stream_id = id.wrapping_add(1);
        id
    }

    /// From now on the events of the stream go to this sender. The sender that
    /// they went to before is returned.
    pub fn register_stream(&mut self, stream_id: u32, sender: u64) -> (previous: Option<u64>)
        ensures
            previous == old(self)@.sender(stream_id),
            final(self)@ == old(self)@.registered(stream_id, sender),
    {
        table_insert(&mut self.streams, stream_id, sender)
    }

    /// From now on the events of the stream go nowhere. The sender that they
    /// went to is returned.
    pub fn unregister_stream(&mut self, stream_id: u32) -> (previous: Option<u64>)
        ensures
            previous == old(self)@.sender(stream_id),
            final(self)@ == old(self)@.unregistered(stream_id),
    {
        table_remove(&mut self.streams, stream_id)
    }

    /// Opens a stream to `target`, an address as the server reads it: takes an
    /// id, sends the events of the stream to `sender` and asks the server for it.
    /// The sender that the events of that id went to before is returned too.
    pub fn open_stream(&mut self, sender: u64, target: Vec<u8>) -> (r: (Outgoing, Option<u64>))
        ensures
            r.0@ == (OutgoingView {
                stream_id: old(self)@.next_stream_id,
                cmd: Command::Syn,
                data: target@,
            }),
            r.1 == old(self)@.sender(old(self)@.next_stream_id),
            final(self)@ == old(self)@.with_stream(sender),
    {
        let stream_id: u32 = self.next_stream_id();
        let previous: Option<u64> = self.register_stream(stream_id, sender);
        (Outgoing { stream_id, cmd: Command::Syn, data: target }, previous)
    }

    /// What the opener of a stream is told, once its frame was handed to the
    /// session or the session turned out to be gone.
    pub fn open_outcome(handed_over: bool) -> (r: Result<(), &'static str>)
        ensures
            match r {
                Ok(_) => handed_over,
                Err(text) => !handed_over && text@ == "session write channel closed"@,
            },
    {
        if handed_over {
            Ok(())
        } else {
            Err("session write channel closed")
        }
    }
}

/// A hash of 32 bytes and what stands behind the first packet are read back
/// from it, where the padding is at most 65535 bytes long.
pub proof fn law_auth_round_trip(password_hash: Seq<u8>, padding: nat, rest: Seq<u8>)
    requires
        password_hash.len() == AUTH_HASH_SIZE,
        padding <= 65535,
    ensures
        auth_of(auth_bytes(password_hash, padding) + rest) == Some((password_hash, rest)),
{
    let bytes = auth_bytes(password_hash, padding) + rest;
    let length = be16(padding);
    assert(bytes[32] == length[0] && bytes[33] == length[1]);
    lemma_be16(padding);
    assert(bytes.take(32) =~= password_hash);
    assert(bytes.skip(34 + padding as int) =~= rest);
}

/// The server reads the password hash, then the settings of the client, then
/// what comes behind them.
pub proof fn law_greeting_round_trip(
    password_hash: Seq<u8>,
    padding: nat,
    settings: Seq<u8>,
    rest: Seq<u8>,
)
    requires
        password_hash.len() == AUTH_HASH_SIZE,
        padding <= 65535,
        settings.len() <= 65535,
    ensures
        ({
            let bytes = auth_bytes(password_hash, padding) + frame_bytes(
                Command::Settings,
                0,
                settings,
            ) + rest;
            auth_of(bytes) matches Some((hash, behind)) && hash == password_hash && frame_of(behind)
                == Some(
                (
                    FrameView { cmd: Command::Settings.code(), stream_id: 0, data: settings },
                    rest,
                ),
            )
        }),
{
    let auth = auth_bytes(password_hash, padding);
    let frame = frame_bytes(Command::Settings, 0, settings);
    law_auth_round_trip(password_hash, padding, frame + rest);
    assert(auth + frame + rest =~= auth + (frame + rest));
    law_frame_round_trip(Command::Settings, 0, settings, rest);
}

proof fn lemma_hex_ascii(data: Seq<u8>)
    ensures
        vstd::utf8::is_ascii_chars(hex_lower(data)),
{
    assert forall|i: int| 0 <= i < hex_lower(data).len() implies '\0' <= #[trigger] hex_lower(
        data,
    )[i] <= '\u{7f}' by {
        let d = if i % 2 == 0 {
            data[i / 2] / 16
        } else {
            data[i / 2] % 16
        };
        assert(hex_lower(data)[i] == hex_digit(d));
    }
}

proof fn lemma_settings_ascii(hash: Seq<char>)
    requires
        vstd::utf8::is_ascii_chars(hash),
    ensures
        vstd::utf8::is_ascii_chars(settings_text(hash)),
        settings_text(hash).len() == 40 + hash.len(),
{
    reveal_strlit("v=");
    reveal_strlit("\nclient=");
    reveal_strlit("quicproxy/0.1.0");
    reveal_strlit("\npadding-md5=");
    reveal_strlit("\n");
    assert(decimal(2) =~= seq!['2']);
    let head = "v="@ + decimal(2) + "\nclient="@ + AGENT_NAME@ + "\npadding-md5="@;
    assert(head =~= seq![
        'v', '=', '2', '\n', 'c', 'l', 'i', 'e', 'n', 't', '=', 'q', 'u', 'i', 'c', 'p', 'r', 'o',
        'x', 'y', '/', '0', '.', '1', '.', '0', '\n', 'p', 'a', 'd', 'd', 'i', 'n', 'g', '-', 'm',
        'd', '5', '=',
    ]);
    assert(settings_text(hash) =~= head + hash + seq!['\n']);
}

/// A settings text that begins with a line `v=` and a number gives that version.
pub proof fn law_version_line(version: u8, rest: Seq<char>)
    ensures
        version_of("v="@ + decimal(version as nat) + "\n"@ + rest) == Some(version),
{
    let value = decimal(version as nat);
    let line = "v="@ + value;
    reveal_strlit("v=");
    reveal_strlit("v");
    reveal_strlit("\n");
    lemma_decimal(version as nat);
    assert("v"@ =~= seq!['v']);
    assert("\n"@ =~= seq!['\n']);
    assert(line =~= "v"@ + seq!['='] + value);
    assert forall|i: int| 0 <= i < line.len() implies line[i] != '\n' by {
        if i >= 2 {
            assert(is_digit(value[i - 2]));
        }
    }
    lemma_split_first(line, '\n', rest);
    lemma_split_once("v"@, '=', value);
    assert(is_digit(value[0]) && is_digit(value.last()));
    lemma_trimmed("v"@);
    lemma_trimmed(value);
    law_decimal_round_trip(version as nat, 255);
}

/// What the client says of itself gives the version of the protocol.
pub proof fn law_settings_version(hash: Seq<char>)
    ensures
        version_of(settings_text(hash)) == Some(PROTOCOL_VERSION),
{
    reveal_strlit("\nclient=");
    reveal_strlit("\n");
    let rest = seq!['c', 'l', 'i', 'e', 'n', 't', '='] + AGENT_NAME@ + "\npadding-md5="@ + hash
        + "\n"@;
    law_version_line(PROTOCOL_VERSION, rest);
    assert(settings_text(hash) =~= "v="@ + decimal(PROTOCOL_VERSION as nat) + "\n"@ + rest);
}

/// A frame leaves the number of the session, its streams, the next stream id and
/// whether the session is dead as they were.
pub proof fn law_frame_keeps_streams(session: SessionView, cmd: Command, data: Seq<u8>)
    ensures
        ({
            let after = session.after_frame(cmd, data);
            &&& after.session_seq == session.session_seq
            &&& after.streams == session.streams
            &&& after.next_stream_id == session.next_stream_id
            &&& after.is_dead == session.is_dead
        }),
{
}

/// Only the settings of the server change its version, and only a padding scheme
/// changes the padding scheme.
pub proof fn law_frame_keeps_the_rest(session: SessionView, cmd: Command, data: Seq<u8>)
    ensures
        ({
            let after = session.after_frame(cmd, data);
            &&& cmd != Command::ServerSettings ==> after.server_version == session.server_version
            &&& cmd != Command::UpdatePaddingScheme ==> after.padding_scheme
                == session.padding_scheme
        }),
{
}

/// A scheme that cannot be read leaves the one that the session has.
pub proof fn law_bad_scheme_is_ignored(session: SessionView, data: Seq<u8>)
    ensures
        scheme_of(utf8_lossy(data)) is Err ==> session.after_frame(
            Command::UpdatePaddingScheme,
            data,
        ).padding_scheme == session.padding_scheme,
{
}

/// The stream id after `n` more have been handed out.
pub open spec fn id_after(id: u32, n: nat) -> u32
    decreases n,
{
    if n == 0 {
        id
    } else {
        next_u32(id_after(id, (n - 1) as nat))
    }
}

proof fn lemma_id_after(id: u32, n: nat)
    ensures
        id_after(id, n) as int == (id + n) % 0x1_0000_0000,
    decreases n,
{
    if n > 0 {
        lemma_id_after(id, (n - 1) as nat);
    }
}

/// A stream id comes up again only after all the others.
pub proof fn law_stream_ids_differ(id: u32, m: nat, n: nat)
    requires
        m < n < m + 0x1_0000_0000,
    ensures
        id_after(id, m) != id_after(id, n),
{
    lemma_id_after(id, m);
    lemma_id_after(id, n);
}

/// A new stream is told of its own frames, and every other stream is told of
/// what it was told of before.
pub proof fn law_streams_are_apart(session: SessionView, sender: u64, other: u32)
    ensures
        ({
            let id = session.next_stream_id;
            let opened = session.with_stream(sender);
            &&& opened.sender(id) == Some(sender)
            &&& other != id ==> opened.sender(other) == session.sender(other)
        }),
{
}

impl SessionView {
    /// No two streams have the same event sender.
    pub open spec fn senders_differ(self) -> bool {
        forall|a: u32, b: u32|
            a != b && self.streams.dom().contains(a) && self.streams.dom().contains(b)
                ==> #[trigger] self.streams[a] != #[trigger] self.streams[b]
    }

    /// No stream has this event sender.
    pub open spec fn unused(self, sender: u64) -> bool {
        forall|id: u32| #[trigger] self.sender(id) != Some(sender)
    }

    /// The events of the stream go to this sender.
    pub open spec fn registered(self, stream_id: u32, sender: u64) -> SessionView {
        SessionView { streams: self.streams.insert(stream_id, sender), ..self }
    }

    /// The events of the stream go nowhere.
    pub open spec fn unregistered(self, stream_id: u32) -> SessionView {
        SessionView { streams: self.streams.remove(stream_id), ..self }
    }
}

/// A session without streams has no two with the same event sender.
pub proof fn law_fresh_senders_differ(session_seq: u64, scheme: PaddingSchemeView)
    ensures
        SessionView::fresh(session_seq, scheme).senders_differ(),
{
}

/// The event senders keep apart: when a stream is opened or registered with a
/// sender that no stream has, when one goes, and when a frame comes in.
pub proof fn law_senders_stay_different(
    session: SessionView,
    stream_id: u32,
    sender: u64,
    cmd: Command,
    data: Seq<u8>,
)
    requires
        session.senders_differ(),
    ensures
        session.unused(sender) ==> session.with_stream(sender).senders_differ(),
        session.unused(sender) ==> session.registered(stream_id, sender).senders_differ(),
        session.unregistered(stream_id).senders_differ(),
        session.after_frame(cmd, data).senders_differ(),
{
    if session.unused(sender) {
        assert forall|id: u32| session.streams.dom().contains(id) implies #[trigger] session.streams[id]
            != sender by {
            assert(session.sender(id) != Some(sender));
        }
    }
}

/// Where no two streams have the same event sender, each has one of its own.
pub proof fn law_own_sender(session: SessionView, stream_id: u32, other: u32)
    requires
        session.senders_differ(),
        session.sender(stream_id) is Some,
        other != stream_id,
    ensures
        session.sender(other) != session.sender(stream_id),
{
}

/// A stream that was opened and is gone leaves the streams as they were, where
/// its id was free.
pub proof fn law_closing_undoes_opening(session: SessionView, sender: u64)
    requires
        session.sender(session.next_stream_id) is None,
    ensures
        session.with_stream(sender).streams.remove(session.next_stream_id) == session.streams,
{
    assert(session.with_stream(sender).streams.remove(session.next_stream_id)
        =~= session.streams);
}

/// A frame with data goes to the stream that it names, whole, and to no other.
pub proof fn law_data_reaches_its_stream(
    session: SessionView,
    stream_id: u32,
    data: Seq<u8>,
    action: FrameAction,
)
    requires
        session.asks(Command::Psh, stream_id, data, action),
    ensures
        match session.sender(stream_id) {
            Some(whose) => action matches FrameAction::Deliver { sender, event } && sender == whose
                && event@ == StreamEventView::Data(data),
            None => action is Continue,
        },
{
}

/// An alert reaches every stream of the session once, and what a stream is told
/// is the text of the alert.
pub proof fn law_alert_reaches_all(
    session: SessionView,
    stream_id: u32,
    data: Seq<u8>,
    action: FrameAction,
    id: u32,
)
    requires
        session.asks(Command::Alert, stream_id, data, action),
        session.sender(id) is Some,
    ensures
        action matches FrameAction::Abort { recipients, refusal, .. }
            && recipients@.contains((id, session.streams[id]))
            && (refusal@ matches StreamEventView::SynAckError(text) && vstd::utf8::valid_utf8(text)
            && vstd::utf8::decode_utf8(text) == alert_message(data)),
{
    vstd::utf8::encode_utf8_valid_utf8(alert_message(data));
    vstd::utf8::encode_utf8_decode_utf8(alert_message(data));
    if let FrameAction::Abort { recipients, .. } = action {
        let i = choose|i: int| 0 <= i < recipients@.len() && (#[trigger] recipients@[i]).0 == id;
        assert(recipients@[i] == (id, session.streams[id]));
    }
}

/// A frame that comes in, as the contracts see it.
#[verifier::ext_equal]
pub struct Incoming {
    pub cmd: Command,
    pub stream_id: u32,
    pub data: Seq<u8>,
}

impl SessionView {
    /// The event sender that a frame is for, and the event that it brings.
    pub open spec fn delivery(self, frame: Incoming) -> Option<(u64, StreamEventView)> {
        match (SessionView::frame_event(frame.cmd, frame.data), self.sender(frame.stream_id)) {
            (Some(event), Some(sender)) => Some((sender, event)),
            _ => None,
        }
    }

    /// All that a row of frames hands to an event sender, up to the first alert.
    pub open spec fn told(self, frames: Seq<Incoming>, sender: u64) -> Seq<StreamEventView>
        decreases frames.len(),
    {
        if frames.len() == 0 || frames[0].cmd is Alert {
            Seq::empty()
        } else {
            let rest = self.after_frame(frames[0].cmd, frames[0].data).told(
                frames.drop_first(),
                sender,
            );
            match self.delivery(frames[0]) {
                Some((whose, event)) => if whose == sender {
                    seq![event] + rest
                } else {
                    rest
                },
                None => rest,
            }
        }
    }
}

/// The events that a row of frames brings for a stream, up to the first alert.
pub open spec fn events_for(frames: Seq<Incoming>, stream_id: u32) -> Seq<StreamEventView>
    decreases frames.len(),
{
    if frames.len() == 0 || frames[0].cmd is Alert {
        Seq::empty()
    } else {
        let rest = events_for(frames.drop_first(), stream_id);
        match SessionView::frame_event(frames[0].cmd, frames[0].data) {
            Some(event) => if frames[0].stream_id == stream_id {
                seq![event] + rest
            } else {
                rest
            },
            None => rest,
        }
    }
}

/// What a frame asks for is to hand over the event that it brings, where its
/// stream is open, and otherwise nothing is handed over.
pub proof fn law_action_is_delivery(session: SessionView, frame: Incoming, action: FrameAction)
    requires
        session.asks(frame.cmd, frame.stream_id, frame.data, action),
    ensures
        match session.delivery(frame) {
            Some((whose, what)) => action matches FrameAction::Deliver { sender, event } && sender
                == whose && event@ == what,
            None => !(action is Deliver),
        },
{
}

/// Streams do not mix: whatever frames come in, a stream with an event sender of
/// its own is told of the frames that name it, of all of them, in their order,
/// and of no others.
pub proof fn law_streams_do_not_mix(
    session: SessionView,
    frames: Seq<Incoming>,
    stream_id: u32,
    sender: u64,
)
    requires
        session.sender(stream_id) == Some(sender),
        forall|other: u32| other != stream_id ==> #[trigger] session.sender(other) != Some(sender),
    ensures
        session.told(frames, sender) == events_for(frames, stream_id),
    decreases frames.len(),
{
    if frames.len() > 0 && !(frames[0].cmd is Alert) {
        let next = session.after_frame(frames[0].cmd, frames[0].data);
        law_frame_keeps_streams(session, frames[0].cmd, frames[0].data);
        assert forall|other: u32| other != stream_id implies #[trigger] next.sender(other) != Some(
            sender,
        ) by {
            assert(session.sender(other) != Some(sender));
        }
        law_streams_do_not_mix(next, frames.drop_first(), stream_id, sender);
        if frames[0].stream_id != stream_id {
            assert(session.sender(frames[0].stream_id) != Some(sender));
        }
    }
}

/// A stream id, and a count, go up by one and start over behind the largest.
pub proof fn law_counting(id: u32, count: u64)
    ensures
        next_u32(id) == (id + 1) % 0x1_0000_0000,
        next_u64(count) == (count + 1) % 0x1_0000_0000_0000_0000,
{
}

/// A new session has no streams; the first stream will be number 1, and the
/// server is taken to speak version 1.
pub proof fn law_fresh_session(session_seq: u64, scheme: PaddingSchemeView, id: u32)
    ensures
        ({
            let session = SessionView::fresh(session_seq, scheme);
            &&& session.session_seq == session_seq
            &&& !session.streams.dom().contains(id)
            &&& session.next_stream_id == 1
            &&& session.server_version == 1
            &&& !session.is_dead
            &&& session.packet_count == 0
            &&& session.padding_scheme == scheme
        }),
{
}

/// A stream that is opened takes the next id and its events go to its sender; a
/// stream that is registered or gone changes its own entry alone; nothing else of
/// the session changes.
pub proof fn law_stream_table(session: SessionView, stream_id: u32, sender: u64, other: u32)
    ensures
        ({
            let id = session.next_stream_id;
            let opened = session.with_stream(sender);
            &&& opened.streams.dom().contains(id) && opened.streams[id] == sender
            &&& other != id ==> (opened.streams.dom().contains(other)
                <==> session.streams.dom().contains(other)) && (session.streams.dom().contains(
                other,
            ) ==> opened.streams[other] == session.streams[other])
            &&& opened.next_stream_id == (id + 1) % 0x1_0000_0000
            &&& opened.session_seq == session.session_seq
            &&& opened.server_version == session.server_version
            &&& opened.is_dead == session.is_dead
            &&& opened.packet_count == session.packet_count
            &&& opened.padding_scheme == session.padding_scheme
        }),
        ({
            let after = session.registered(stream_id, sender);
            &&& after.streams.dom().contains(stream_id) && after.streams[stream_id] == sender
            &&& other != stream_id ==> (after.streams.dom().contains(other)
                <==> session.streams.dom().contains(other)) && (session.streams.dom().contains(
                other,
            ) ==> after.streams[other] == session.streams[other])
            &&& after == (SessionView { streams: after.streams, ..session })
        }),
        ({
            let after = session.unregistered(stream_id);
            &&& !after.streams.dom().contains(stream_id)
            &&& other != stream_id ==> (after.streams.dom().contains(other)
                <==> session.streams.dom().contains(other)) && (session.streams.dom().contains(
                other,
            ) ==> after.streams[other] == session.streams[other])
            &&& after == (SessionView { streams: after.streams, ..session })
        }),
        session.sender(stream_id) is Some <==> session.streams.dom().contains(stream_id),
        session.streams.dom().contains(stream_id) ==> session.sender(stream_id) == Some(
            session.streams[stream_id],
        ),
{
}

/// Data, the end and a refusal go to the stream that the frame names, whole,
/// where it is open; an acceptance, and a frame for a stream that is not open, ask
/// for nothing.
pub proof fn law_routing(session: SessionView, stream_id: u32, data: Seq<u8>, action: FrameAction)
    ensures
        session.asks(Command::Psh, stream_id, data, action) ==> if session.streams.dom().contains(
            stream_id,
        ) {
            action matches FrameAction::Deliver { sender, event } && sender
                == session.streams[stream_id] && (event matches StreamEvent::Data(bytes) && bytes@
                == data)
        } else {
            action is Continue
        },
        session.asks(Command::Fin, stream_id, data, action) ==> if session.streams.dom().contains(
            stream_id,
        ) {
            action matches FrameAction::Deliver { sender, event } && sender
                == session.streams[stream_id] && event is Fin
        } else {
            action is Continue
        },
        session.asks(Command::SynAck, stream_id, data, action) ==> if data.len() > 0
            && session.streams.dom().contains(stream_id) {
            action matches FrameAction::Deliver { sender, event } && sender
                == session.streams[stream_id] && (event matches StreamEvent::SynAckError(reason)
                && reason@ == data)
        } else {
            action is Continue
        },
{
}

/// Every heartbeat is answered, whatever stream it names and whatever data it
/// brings: by a response on stream 0 without data.
pub proof fn law_heartbeat(session: SessionView, stream_id: u32, data: Seq<u8>, action: FrameAction)
    requires
        session.asks(Command::HeartRequest, stream_id, data, action),
    ensures
        action matches FrameAction::Reply(reply) && reply.stream_id == 0 && reply.cmd
            == Command::HeartResponse && reply.data@.len() == 0,
{
}

/// Frames of all other kinds but alerts ask for nothing.
pub proof fn law_silent_frames(
    session: SessionView,
    cmd: Command,
    stream_id: u32,
    data: Seq<u8>,
    action: FrameAction,
)
    requires
        cmd is Waste || cmd is Syn || cmd is Settings || cmd is UpdatePaddingScheme || cmd
            is HeartResponse || cmd is ServerSettings,
        session.asks(cmd, stream_id, data, action),
    ensures
        action is Continue,
{
}

/// An alert, whatever stream it names, ends the session with its text and is told
/// to every open stream once, and to nobody else.
pub proof fn law_alert(
    session: SessionView,
    stream_id: u32,
    data: Seq<u8>,
    action: FrameAction,
    id: u32,
    sender: u64,
)
    requires
        session.asks(Command::Alert, stream_id, data, action),
    ensures
        action matches FrameAction::Abort { recipients, refusal, message } && {
            &&& recipients@.contains((id, sender)) <==> session.streams.dom().contains(id)
                && session.streams[id] == sender
            &&& recipients@.no_duplicates()
            &&& message@ == "server alert: "@ + utf8_lossy(data)
            &&& refusal matches StreamEvent::SynAckError(text) && text@
                == vstd::utf8::encode_utf8("server alert: "@ + utf8_lossy(data))
        },
{
    if let FrameAction::Abort { recipients, .. } = action {
        let list = recipients@;
        if session.streams.dom().contains(id) && session.streams[id] == sender {
            let i = choose|i: int| 0 <= i < list.len() && (#[trigger] list[i]).0 == id;
            assert(list[i] == (id, sender));
        }
        if list.contains((id, sender)) {
            let i = choose|i: int| 0 <= i < list.len() && list[i] == (id, sender);
            assert(session.streams.dom().contains(list[i].0));
        }
        assert forall|i: int, j: int| 0 <= i < list.len() && 0 <= j < list.len() && i
            != j implies list[i] != list[j] by {
            assert(list[i].0 != list[j].0);
        }
    }
}

/// Every frame is counted but an alert, and changes nothing else but what it is
/// for: the settings of the server its version, where they give one, and a
/// padding scheme the scheme, where it can be read.
pub proof fn law_frame_effects(session: SessionView, cmd: Command, data: Seq<u8>)
    ensures
        ({
            let after = session.after_frame(cmd, data);
            &&& after.packet_count == (if cmd is Alert {
                session.packet_count as int
            } else {
                (session.packet_count + 1) % 0x1_0000_0000_0000_0000
            })
            &&& after.session_seq == session.session_seq
            &&& after.streams == session.streams
            &&& after.next_stream_id == session.next_stream_id
            &&& after.is_dead == session.is_dead
            &&& after.server_version == match version_of(utf8_lossy(data)) {
                Some(version) => if cmd is ServerSettings {
                    version
                } else {
                    session.server_version
                },
                None => session.server_version,
            }
            &&& after.padding_scheme == match scheme_of(utf8_lossy(data)) {
                Ok(scheme) => if cmd is UpdatePaddingScheme {
                    scheme
                } else {
                    session.padding_scheme
                },
                Err(_) => session.padding_scheme,
            }
        }),
{
}

/// The padding behind the hash is bounded by the first chunk of packet 0, whatever
/// it is; without one it is thirty bytes.
pub proof fn law_auth_bounds(policies: Map<u8, Seq<(usize, usize, bool)>>)
    ensures
        policies.dom().contains(0) && policies[0].len() > 0 ==> auth_range(policies).0
            == policies[0][0].0 && auth_range(policies).1 == policies[0][0].1,
        !policies.dom().contains(0) || policies[0].len() == 0 ==> auth_range(policies) == (
            30usize,
            30usize,
        ),
{
}

/// The first packet: the hash, two bytes of length, and so many zeros.
pub proof fn law_auth_layout(password_hash: Seq<u8>, padding: nat, i: int)
    requires
        password_hash.len() == 32,
    ensures
        ({
            let b = auth_bytes(password_hash, padding);
            &&& b.len() == 34 + padding
            &&& b.take(32) == password_hash
            &&& b[32] * 256 + b[33] == padding % 65536
            &&& 34 <= i < b.len() ==> b[i] == 0
        }),
{
    lemma_low16(padding);
    assert(auth_bytes(password_hash, padding).take(32) =~= password_hash);
}

/// What the client sends first is the first packet and a frame on stream 0 that
/// says the version, the name and the hash of the default scheme.
pub proof fn law_greeting_layout(password_hash: Seq<u8>, padding: nat)
    ensures
        greeting_bytes(password_hash, padding) == auth_bytes(password_hash, padding) + frame_bytes(
            Command::Settings,
            0,
            vstd::utf8::encode_utf8(
                "v="@ + decimal(2) + "\nclient="@ + "quicproxy/0.1.0"@ + "\npadding-md5="@
                    + default_scheme().hash + "\n"@,
            ),
        ),
        settings_frame().stream_id == 0,
        settings_frame().cmd == Command::Settings,
{
}

/// The version is given by the first line whose key is `v`: by the number behind
/// the `=`, where there is one up to 255. Lines without `=`, and those with
/// another key, are passed over.
pub proof fn law_version_reading(
    line: Seq<char>,
    key: Seq<char>,
    value: Seq<char>,
    rest: Option<Seq<char>>,
)
    requires
        forall|i: int| 0 <= i < line.len() ==> line[i] != '\n',
        forall|i: int| 0 <= i < key.len() ==> key[i] != '=',
    ensures
        ({
            let text = match rest {
                Some(more) => line + seq!['\n'] + more,
                None => line,
            };
            let below = match rest {
                Some(more) => version_of(more),
                None => None,
            };
            &&& line == key + seq!['='] + value && trim(key) == "v"@ ==> version_of(text)
                == match parse_unsigned(trim(value), 255) {
                Some(n) => Some(n as u8),
                None => None,
            }
            &&& line == key + seq!['='] + value && trim(key) != "v"@ ==> version_of(text) == below
            &&& (forall|i: int| 0 <= i < line.len() ==> line[i] != '=') ==> version_of(text)
                == below
        }),
{
    reveal_with_fuel(version_of_lines, 2);
    law_cut_at_separator(key, '=', value);
    match rest {
        Some(more) => {
            law_cut_at_separator(line, '\n', more);
            let lines = seq![line] + split(more, '\n');
            assert(lines[0] == line);
            assert(lines.drop_first() =~= split(more, '\n'));
        },
        None => {
            law_cut_at_separator(line, '\n', Seq::empty());
            assert(seq![line].drop_first() =~= Seq::empty());
        },
    }
    if forall|i: int| 0 <= i < line.len() ==> line[i] != '=' {
        law_cut_at_separator(line, '=', Seq::empty());
    }
}

/// An event is what it holds.
pub proof fn law_event_fields(event: StreamEvent)
    ensures
        event matches StreamEvent::Data(data) ==> event@ == StreamEventView::Data(data@),
        event is Fin ==> event@ is Fin,
        event matches StreamEvent::SynAckError(data) ==> event@ == StreamEventView::SynAckError(
            data@,
        ),
{
}

} // verus!
