//! The constants and the frame commands of the AnyTLS protocol.
use vstd::prelude::*;

verus! {

/// Protocol version supported by this implementation.
pub const PROTOCOL_VERSION: u8 = 2;

/// Agent name used in the settings handshake.
pub const AGENT_NAME: &'static str = "quicproxy/0.1.0";

/// cmd(1) + streamId(4) + dataLen(2)
pub const FRAME_HEADER_SIZE: usize = 7;

/// SHA-256 output.
pub const AUTH_HASH_SIZE: usize = 32;

/// A big-endian `u16`.
pub const AUTH_LENGTH_FIELD_SIZE: usize = 2;

/// UDP-over-TCP target domain.
pub const UDP_OVER_TCP_TARGET: &'static str = "sp.v2.udp-over-tcp.arpa";

/// What a frame asks of its receiver.
#[derive(Debug, Clone, Copy, PartialEq, Eq, Structural)]
pub enum Command {
    Waste,
    Syn,
    Psh,
    Fin,
    Settings,
    Alert,
    UpdatePaddingScheme,
    SynAck,
    HeartRequest,
    HeartResponse,
    ServerSettings,
}

impl Command {
    /// The byte that stands for the command on the wire.
    pub open spec fn code(self) -> u8 {
        match self {
            Command::Waste => 0,
            Command::Syn => 1,
            Command::Psh => 2,
            Command::Fin => 3,
            Command::Settings => 4,
            Command::Alert => 5,
            Command::UpdatePaddingScheme => 6,
            Command::SynAck => 7,
            Command::HeartRequest => 8,
            Command::HeartResponse => 9,
            Command::ServerSettings => 10,
        }
    }

    /// Whether a byte stands for a command.
    pub open spec fn known(v: u8) -> bool {
        v <= 10
    }

    /// The command that a byte stands for.
    pub open spec fn decode(v: u8) -> Command
        recommends
            Command::known(v),
    {
        match v {
            0 => Command::Waste,
            1 => Command::Syn,
            2 => Command::Psh,
            3 => Command::Fin,
            4 => Command::Settings,
            5 => Command::Alert,
            6 => Command::UpdatePaddingScheme,
            7 => Command::SynAck,
            8 => Command::HeartRequest,
            9 => Command::HeartResponse,
            _ => Command::ServerSettings,
        }
    }

    /// Whether a byte stands for a command.
    pub fn is_known(v: u8) -> (b: bool)
        ensures
            b == Command::known(v),
    {
        v <= 10
    }

    /// The command that a byte stands for. A byte above 10 stands for none.
    pub fn from(v: u8) -> (c: Command)
        requires
            Command::known(v),
        ensures
            c == Command::decode(v),
            c.code() == v,
    {
        match v {
            0 => Command::Waste,
            1 => Command::Syn,
            2 => Command::Psh,
            3 => Command::Fin,
            4 => Command::Settings,
            5 => Command::Alert,
            6 => Command::UpdatePaddingScheme,
            7 => Command::SynAck,
            8 => Command::HeartRequest,
            9 => Command::HeartResponse,
            _ => Command::ServerSettings,
        }
    }
}

impl vstd::std_specs::convert::FromSpecImpl<Command> for u8 {
    open spec fn obeys_from_spec() -> bool {
        true
    }

    open spec fn from_spec(cmd: Command) -> u8 {
        cmd.code()
    }
}

impl From<Command> for u8 {
    fn from(cmd: Command) -> (v: u8) {
        match cmd {
            Command::Waste => 0,
            Command::Syn => 1,
            Command::Psh => 2,
            Command::Fin => 3,
            Command::Settings => 4,
            Command::Alert => 5,
            Command::UpdatePaddingScheme => 6,
            Command::SynAck => 7,
            Command::HeartRequest => 8,
            Command::HeartResponse => 9,
            Command::ServerSettings => 10,
        }
    }
}

/// A command comes back from its byte.
pub proof fn law_command_round_trip(cmd: Command)
    ensures
        Command::known(cmd.code()),
        Command::decode(cmd.code()) == cmd,
{
}

/// A byte that stands for a command comes back from the command.
pub proof fn law_code_round_trip(v: u8)
    requires
        Command::known(v),
    ensures
        Command::decode(v).code() == v,
{
}

/// The commands are numbered from 0 to 10, and no other byte stands for one.
pub proof fn law_command_numbers(v: u8)
    ensures
        Command::Waste.code() == 0,
        Command::Syn.code() == 1,
        Command::Psh.code() == 2,
        Command::Fin.code() == 3,
        Command::Settings.code() == 4,
        Command::Alert.code() == 5,
        Command::UpdatePaddingScheme.code() == 6,
        Command::SynAck.code() == 7,
        Command::HeartRequest.code() == 8,
        Command::HeartResponse.code() == 9,
        Command::ServerSettings.code() == 10,
        Command::known(v) <==> v <= 10,
{
}

} // verus!
