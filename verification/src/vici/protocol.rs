//! vici packet framing, and the exchanges that a client holds over it.
//!
//! Each packet is a 4-byte big-endian length prefix followed by that many bytes: a one-byte
//! packet type and a payload.
//!
//! | type | packet           | payload          |
//! |------|------------------|------------------|
//! | 0    | CMD_REQUEST      | name and message |
//! | 1    | CMD_RESPONSE     | message          |
//! | 2    | CMD_UNKNOWN      |                  |
//! | 3    | EVENT_REGISTER   | name             |
//! | 4    | EVENT_UNREGISTER | name             |
//! | 5    | EVENT_CONFIRM    |                  |
//! | 6    | EVENT_UNKNOWN    |                  |
//! | 7    | EVENT            | name and message |
//!
//! A [`Client`] does no input or output itself. It says which bytes to send, takes the packets
//! that arrive, and says when the exchange is over.

use crate::text::{debug_quoted, decimal, format_u64, lossy, lossy_text, quote_debug, same};
use crate::vici::message::{
    append_bytes, decoded, encoded, law_decode_inverts_encode, CodecError, Message, MessageView,
};
use vstd::prelude::*;
use vstd::slice::slice_subrange;
use vstd::utf8::{encode_utf8, encode_utf8_decode_utf8, encode_utf8_valid_utf8};

verus! {

pub const CMD_REQUEST: u8 = 0;

pub const CMD_RESPONSE: u8 = 1;

pub const CMD_UNKNOWN: u8 = 2;

pub const EVENT_REGISTER: u8 = 3;

pub const EVENT_UNREGISTER: u8 = 4;

pub const EVENT_CONFIRM: u8 = 5;

pub const EVENT_UNKNOWN: u8 = 6;

pub const EVENT: u8 = 7;

/// The largest packet that is read: absurd sizes are rejected rather than allocated.
pub const MAX_PACKET_LEN: usize = 16_777_216;

/// Why an exchange failed.
#[derive(Debug)]
pub enum Error {
    Io(String),
    Codec(CodecError),
    UnknownCommand(String),
    UnknownEvent(String),
    PacketTooLarge(usize),
    EmptyPacket,
    NameTooLong,
}

/// The content of an [`Error`].
pub enum ErrorView {
    Io(Seq<char>),
    Codec(CodecError),
    UnknownCommand(Seq<char>),
    UnknownEvent(Seq<char>),
    PacketTooLarge(int),
    EmptyPacket,
    NameTooLong,
}

impl View for Error {
    type V = ErrorView;

    open spec fn view(&self) -> ErrorView {
        match self {
            Error::Io(s) => ErrorView::Io(s@),
            Error::Codec(e) => ErrorView::Codec(*e),
            Error::UnknownCommand(s) => ErrorView::UnknownCommand(s@),
            Error::UnknownEvent(s) => ErrorView::UnknownEvent(s@),
            Error::PacketTooLarge(n) => ErrorView::PacketTooLarge(*n as int),
            Error::EmptyPacket => ErrorView::EmptyPacket,
            Error::NameTooLong => ErrorView::NameTooLong,
        }
    }
}

impl ErrorView {
    /// The text of the error.
    pub open spec fn text(self) -> Seq<char> {
        match self {
            ErrorView::Io(s) => "vici I/O error: "@ + s,
            ErrorView::Codec(e) => e.text(),
            ErrorView::UnknownCommand(s) => "charon does not know command "@ + debug_quoted(s),
            ErrorView::UnknownEvent(s) => "charon does not know event "@ + debug_quoted(s),
            ErrorView::PacketTooLarge(n) => "vici packet of "@ + decimal(n as nat)
                + " bytes exceeds the sanity limit"@,
            ErrorView::EmptyPacket => "received an empty vici packet"@,
            ErrorView::NameTooLong => "element name exceeds 255 bytes"@,
        }
    }
}

impl Error {
    /// What to tell the user.
    pub fn message(&self) -> (r: String)
        ensures
            r@ == self@.text(),
    {
        match self {
            Error::Io(e) => {
                let mut s = "vici I/O error: ".to_owned();
                s.append(e.as_str());
                s
            },
            Error::Codec(e) => e.message(),
            Error::UnknownCommand(c) => {
                let mut s = "charon does not know command ".to_owned();
                s.append(quote_debug(c.as_str()).as_str());
                s
            },
            Error::UnknownEvent(c) => {
                let mut s = "charon does not know event ".to_owned();
                s.append(quote_debug(c.as_str()).as_str());
                s
            },
            Error::PacketTooLarge(n) => {
                let mut s = "vici packet of ".to_owned();
                s.append(format_u64(*n as u64).as_str());
                s.append(" bytes exceeds the sanity limit");
                s
            },
            Error::EmptyPacket => "received an empty vici packet".to_owned(),
            Error::NameTooLong => "element name exceeds 255 bytes".to_owned(),
        }
    }
}

/// The 4 bytes of a length, most significant first; what does not fit 32 bits is cut off.
pub open spec fn length_bytes(n: nat) -> Seq<u8> {
    seq![
        (n / 0x100_0000 % 256) as u8,
        (n / 0x1_0000 % 256) as u8,
        (n / 0x100 % 256) as u8,
        (n % 256) as u8,
    ]
}

/// The type, the name and the message of a packet, without its length.
pub open spec fn payload_of(
    ptype: u8,
    name: Seq<char>,
    message: Option<MessageView>,
) -> Result<Seq<u8>, ErrorView> {
    let head = seq![ptype, encode_utf8(name).len() as u8] + encode_utf8(name);
    if encode_utf8(name).len() > 255 {
        Err(ErrorView::NameTooLong)
    } else {
        match message {
            None => Ok(head),
            Some(m) => match encoded(m) {
                Err(e) => Err(ErrorView::Codec(e)),
                Ok(b) => Ok(head + b),
            },
        }
    }
}

/// The bytes of a packet.
pub open spec fn packet_of(
    ptype: u8,
    name: Seq<char>,
    message: Option<MessageView>,
) -> Result<Seq<u8>, ErrorView> {
    match payload_of(ptype, name, message) {
        Err(e) => Err(e),
        Ok(p) => Ok(length_bytes(p.len()) + p),
    }
}

/// The bytes of a packet with a name and, where there is one, a message.
pub fn write_packet(ptype: u8, name: &str, message: Option<&Message>) -> (r: Result<Vec<u8>, Error>)
    ensures
        ({
            let m = match message {
                Some(m) => Some(m@),
                None => None,
            };
            match r {
                Ok(b) => packet_of(ptype, name@, m) == Ok::<Seq<u8>, ErrorView>(b@),
                Err(e) => packet_of(ptype, name@, m) == Err::<Seq<u8>, ErrorView>(e@),
            }
        }),
{
    let b = name.as_bytes();
    if b.len() > 255 {
        return Err(Error::NameTooLong);
    }
    let mut payload: Vec<u8> = Vec::new();
    payload.push(ptype);
    payload.push(b.len() as u8);
    append_bytes(&mut payload, b);
    assert(payload@ =~= seq![ptype, encode_utf8(name@).len() as u8] + encode_utf8(name@));
    if let Some(m) = message {
        match m.encode() {
            Ok(bytes) => append_bytes(&mut payload, bytes.as_slice()),
            Err(e) => {
                return Err(Error::Codec(e));
            },
        }
    }
    let n: usize = payload.len();
    let mut out: Vec<u8> = Vec::new();
    out.push((n / 0x100_0000 % 256) as u8);
    out.push((n / 0x1_0000 % 256) as u8);
    out.push((n / 0x100 % 256) as u8);
    out.push((n % 256) as u8);
    append_bytes(&mut out, payload.as_slice());
    assert(out@ =~= length_bytes(payload@.len()) + payload@);
    Ok(out)
}

/// The length that the 4 bytes before a packet state.
pub open spec fn stated_length(header: Seq<u8>) -> int {
    ((header[0] * 256 + header[1]) * 256 + header[2]) * 256 + header[3]
}

/// How many bytes to read after the 4 bytes of a length.
pub fn packet_len(header: [u8; 4]) -> (r: Result<usize, Error>)
    ensures
        match r {
            Ok(n) => n == stated_length(header@) && n <= MAX_PACKET_LEN,
            Err(e) => stated_length(header@) > MAX_PACKET_LEN && e@ == ErrorView::PacketTooLarge(
                stated_length(header@),
            ),
        },
{
    let n: u32 = ((header[0] as u32 * 256 + header[1] as u32) * 256 + header[2] as u32) * 256
        + header[3] as u32;
    if n as usize > MAX_PACKET_LEN {
        return Err(Error::PacketTooLarge(n as usize));
    }
    Ok(n as usize)
}

/// The message of an event packet, when the event has the wanted name.
pub open spec fn event_of(body: Seq<u8>, want: Seq<char>) -> Result<Option<MessageView>, ErrorView> {
    if body.len() == 0 {
        Err(ErrorView::EmptyPacket)
    } else if body.len() - 1 < body[0] {
        Err(ErrorView::Codec(CodecError::Malformed("event name")))
    } else if lossy(body.subrange(1, 1 + body[0])) != want {
        Ok(None)
    } else {
        match decoded(body.skip(1 + body[0] as int)) {
            Ok(m) => Ok(Some(m)),
            Err(e) => Err(ErrorView::Codec(e)),
        }
    }
}

/// Splits an event packet into its name and its message, and decodes the message when the name
/// is the wanted one.
pub fn parse_event(body: &[u8], want: &str) -> (r: Result<Option<Message>, Error>)
    ensures
        match r {
            Ok(Some(m)) => event_of(body@, want@) == Ok::<Option<MessageView>, ErrorView>(
                Some(m@),
            ),
            Ok(None) => event_of(body@, want@) == Ok::<Option<MessageView>, ErrorView>(None),
            Err(e) => event_of(body@, want@) == Err::<Option<MessageView>, ErrorView>(e@),
        },
{
    let n: usize = body.len();
    if n == 0 {
        return Err(Error::EmptyPacket);
    }
    let len: usize = body[0] as usize;
    if n - 1 < len {
        return Err(Error::Codec(CodecError::Malformed("event name")));
    }
    let name = lossy_text(slice_subrange(body, 1, 1 + len));
    if !same(name.as_str(), want) {
        return Ok(None);
    }
    let rest = slice_subrange(body, 1 + len, n);
    assert(rest@ =~= body@.skip(1 + body@[0] as int));
    match Message::decode(rest) {
        Ok(m) => Ok(Some(m)),
        Err(e) => Err(Error::Codec(e)),
    }
}

/// Where a client stands in an exchange.
#[allow(inconsistent_fields)]
pub enum Phase {
    /// No exchange.
    Idle,
    /// The response to a command is awaited.
    Requesting { command: String },
    /// The confirmation of an event registration is awaited; the command follows.
    Registering { command: String, event: String, message: Message },
    /// Events are collected until the response to the command.
    Streaming { command: String, event: String, events: Vec<Message> },
    /// The end of the registration is awaited; then the exchange succeeds.
    Closing { events: Vec<Message>, response: Message },
    /// The end of the registration is awaited; then the exchange fails.
    Refused { command: String },
}

/// The contents of a list of messages.
pub open spec fn message_views(v: Seq<Message>) -> Seq<MessageView> {
    Seq::new(v.len(), |i: int| v[i]@)
}

/// The content of a [`Phase`].
#[allow(inconsistent_fields)]
pub enum PhaseView {
    Idle,
    Requesting { command: Seq<char> },
    Registering { command: Seq<char>, event: Seq<char>, message: MessageView },
    Streaming { command: Seq<char>, event: Seq<char>, events: Seq<MessageView> },
    Closing { events: Seq<MessageView>, response: MessageView },
    Refused { command: Seq<char> },
}

impl View for Phase {
    type V = PhaseView;

    open spec fn view(&self) -> PhaseView {
        match self {
            Phase::Idle => PhaseView::Idle,
            Phase::Requesting { command } => PhaseView::Requesting { command: command@ },
            Phase::Registering { command, event, message } => PhaseView::Registering {
                command: command@,
                event: event@,
                message: message@,
            },
            Phase::Streaming { command, event, events } => PhaseView::Streaming {
                command: command@,
                event: event@,
                events: message_views(events@),
            },
            Phase::Closing { events, response } => PhaseView::Closing {
                events: message_views(events@),
                response: response@,
            },
            Phase::Refused { command } => PhaseView::Refused { command: command@ },
        }
    }
}

/// What to do next in an exchange.
pub enum Action {
    /// Read one more packet.
    Read,
    /// Send these bytes, then read one more packet.
    Send(Vec<u8>),
    /// The exchange is over: the events that came, and the response.
    Done(Vec<Message>, Message),
    /// The exchange is over without a response.
    Failed(Error),
}

/// The content of an [`Action`].
pub enum ActionView {
    Read,
    Send(Seq<u8>),
    Done(Seq<MessageView>, MessageView),
    Failed(ErrorView),
}

impl View for Action {
    type V = ActionView;

    open spec fn view(&self) -> ActionView {
        match self {
            Action::Read => ActionView::Read,
            Action::Send(b) => ActionView::Send(b@),
            Action::Done(events, response) => ActionView::Done(message_views(events@), response@),
            Action::Failed(e) => ActionView::Failed(e@),
        }
    }
}

/// The end of an exchange without a response.
pub open spec fn failing(e: ErrorView) -> (PhaseView, ActionView) {
    (PhaseView::Idle, ActionView::Failed(e))
}

/// Why an exchange fails that cannot go on for the reason `why`: one whose command was refused
/// already fails for that.
pub open spec fn failure(phase: PhaseView, why: ErrorView) -> ErrorView {
    match phase {
        PhaseView::Refused { command } => ErrorView::UnknownCommand(command),
        _ => why,
    }
}

/// What a packet does in each phase.
pub open spec fn transition(phase: PhaseView, packet: Seq<u8>) -> (PhaseView, ActionView) {
    if packet.len() == 0 {
        failing(failure(phase, ErrorView::EmptyPacket))
    } else {
        let ptype = packet[0];
        let body = packet.skip(1);
        match phase {
            PhaseView::Idle => (phase, ActionView::Read),
            PhaseView::Requesting { command } => if ptype == CMD_RESPONSE {
                match decoded(body) {
                    Ok(m) => (PhaseView::Idle, ActionView::Done(Seq::empty(), m)),
                    Err(e) => failing(ErrorView::Codec(e)),
                }
            } else if ptype == CMD_UNKNOWN {
                failing(ErrorView::UnknownCommand(command))
            } else {
                (phase, ActionView::Read)
            },
            PhaseView::Registering { command, event, message } => if ptype == EVENT_CONFIRM {
                match packet_of(CMD_REQUEST, command, Some(message)) {
                    Ok(b) => (
                        PhaseView::Streaming { command, event, events: Seq::empty() },
                        ActionView::Send(b),
                    ),
                    Err(e) => failing(e),
                }
            } else if ptype == EVENT_UNKNOWN {
                failing(ErrorView::UnknownEvent(event))
            } else {
                (phase, ActionView::Read)
            },
            PhaseView::Streaming { command, event, events } => if ptype == EVENT {
                match event_of(body, event) {
                    Err(e) => failing(e),
                    Ok(None) => (phase, ActionView::Read),
                    Ok(Some(m)) => (
                        PhaseView::Streaming { command, event, events: events.push(m) },
                        ActionView::Read,
                    ),
                }
            } else if ptype == CMD_RESPONSE {
                match decoded(body) {
                    Err(e) => failing(ErrorView::Codec(e)),
                    Ok(response) => match packet_of(EVENT_UNREGISTER, event, None) {
                        Ok(b) => (
                            PhaseView::Closing { events, response },
                            ActionView::Send(b),
                        ),
                        Err(e) => failing(e),
                    },
                }
            } else if ptype == CMD_UNKNOWN {
                match packet_of(EVENT_UNREGISTER, event, None) {
                    Ok(b) => (PhaseView::Refused { command }, ActionView::Send(b)),
                    Err(_) => failing(ErrorView::UnknownCommand(command)),
                }
            } else {
                (phase, ActionView::Read)
            },
            PhaseView::Closing { events, response } => if ptype == EVENT_CONFIRM {
                (PhaseView::Idle, ActionView::Done(events, response))
            } else {
                (phase, ActionView::Read)
            },
            PhaseView::Refused { command } => if ptype == EVENT_CONFIRM {
                failing(ErrorView::UnknownCommand(command))
            } else {
                (phase, ActionView::Read)
            },
        }
    }
}

/// The vici side of a connection to charon.
pub struct Client {
    pub phase: Phase,
}

impl Client {
    /// A client without an exchange.
    pub fn new() -> (r: Client)
        ensures
            r.phase@ == PhaseView::Idle,
    {
        Client { phase: Phase::Idle }
    }

    /// Begins a simple command: the bytes to send. Its response ends the exchange; stray events
    /// are ignored.
    pub fn request(&mut self, command: &str, message: &Message) -> (r: Result<Vec<u8>, Error>)
        ensures
            match r {
                Ok(b) => {
                    &&& packet_of(CMD_REQUEST, command@, Some(message@)) == Ok::<
                        Seq<u8>,
                        ErrorView,
                    >(b@)
                    &&& final(self).phase@ == PhaseView::Requesting { command: command@ }
                },
                Err(e) => {
                    &&& packet_of(CMD_REQUEST, command@, Some(message@)) == Err::<
                        Seq<u8>,
                        ErrorView,
                    >(e@)
                    &&& final(self).phase@ == PhaseView::Idle
                },
            },
    {
        self.phase = Phase::Idle;
        let b = write_packet(CMD_REQUEST, command, Some(message))?;
        self.phase = Phase::Requesting { command: command.to_owned() };
        Ok(b)
    }

    /// Begins a command whose answer comes as events: registers for the event first, collects
    /// every matching event until the response, then ends the registration.
    pub fn stream_request(&mut self, command: &str, event: &str, message: Message) -> (r: Result<
        Vec<u8>,
        Error,
    >)
        ensures
            match r {
                Ok(b) => {
                    &&& packet_of(EVENT_REGISTER, event@, None) == Ok::<Seq<u8>, ErrorView>(b@)
                    &&& final(self).phase@ == PhaseView::Registering {
                        command: command@,
                        event: event@,
                        message: message@,
                    }
                },
                Err(e) => {
                    &&& packet_of(EVENT_REGISTER, event@, None) == Err::<Seq<u8>, ErrorView>(e@)
                    &&& final(self).phase@ == PhaseView::Idle
                },
            },
    {
        self.phase = Phase::Idle;
        let b = write_packet(EVENT_REGISTER, event, None)?;
        self.phase = Phase::Registering {
            command: command.to_owned(),
            event: event.to_owned(),
            message,
        };
        Ok(b)
    }

    /// Takes the packet that arrived (without its length) and says what to do next.
    pub fn receive(&mut self, packet: &[u8]) -> (r: Action)
        ensures
            (final(self).phase@, r@) == transition(old(self).phase@, packet@),
    {
        let mut phase = Phase::Idle;
        std::mem::swap(&mut phase, &mut self.phase);
        let n: usize = packet.len();
        if n == 0 {
            return match phase {
                Phase::Refused { command } => Action::Failed(Error::UnknownCommand(command)),
                _ => Action::Failed(Error::EmptyPacket),
            };
        }
        let ptype: u8 = packet[0];
        let body = slice_subrange(packet, 1, n);
        assert(body@ =~= packet@.skip(1));
        match phase {
            Phase::Idle => Action::Read,
            Phase::Requesting { command } => {
                if ptype == CMD_RESPONSE {
                    match Message::decode(body) {
                        Ok(m) => {
                            let events: Vec<Message> = Vec::new();
                            assert(message_views(events@) =~= Seq::empty());
                            Action::Done(events, m)
                        },
                        Err(e) => Action::Failed(Error::Codec(e)),
                    }
                } else if ptype == CMD_UNKNOWN {
                    Action::Failed(Error::UnknownCommand(command))
                } else {
                    self.phase = Phase::Requesting { command };
                    Action::Read
                }
            },
            Phase::Registering { command, event, message } => {
                if ptype == EVENT_CONFIRM {
                    match write_packet(CMD_REQUEST, command.as_str(), Some(&message)) {
                        Ok(b) => {
                            let events: Vec<Message> = Vec::new();
                            assert(message_views(events@) =~= Seq::empty());
                            self.phase = Phase::Streaming { command, event, events };
                            Action::Send(b)
                        },
                        Err(e) => Action::Failed(e),
                    }
                } else if ptype == EVENT_UNKNOWN {
                    Action::Failed(Error::UnknownEvent(event))
                } else {
                    self.phase = Phase::Registering { command, event, message };
                    Action::Read
                }
            },
            Phase::Streaming { command, event, events } => {
                if ptype == EVENT {
                    match parse_event(body, event.as_str()) {
                        Err(e) => Action::Failed(e),
                        Ok(None) => {
                            self.phase = Phase::Streaming { command, event, events };
                            Action::Read
                        },
                        Ok(Some(m)) => {
                            let mut events = events;
                            let ghost before = events@;
                            let ghost seen = m@;
                            events.push(m);
                            assert(message_views(events@) =~= message_views(before).push(seen));
                            self.phase = Phase::Streaming { command, event, events };
                            Action::Read
                        },
                    }
                } else if ptype == CMD_RESPONSE {
                    match Message::decode(body) {
                        Err(e) => Action::Failed(Error::Codec(e)),
                        Ok(response) => match write_packet(
                            EVENT_UNREGISTER,
                            event.as_str(),
                            None,
                        ) {
                            Ok(b) => {
                                self.phase = Phase::Closing { events, response };
                                Action::Send(b)
                            },
                            Err(e) => Action::Failed(e),
                        },
                    }
                } else if ptype == CMD_UNKNOWN {
                    match write_packet(EVENT_UNREGISTER, event.as_str(), None) {
                        Ok(b) => {
                            self.phase = Phase::Refused { command };
                            Action::Send(b)
                        },
                        Err(_) => Action::Failed(Error::UnknownCommand(command)),
                    }
                } else {
                    self.phase = Phase::Streaming { command, event, events };
                    Action::Read
                }
            },
            Phase::Closing { events, response } => {
                if ptype == EVENT_CONFIRM {
                    Action::Done(events, response)
                } else {
                    self.phase = Phase::Closing { events, response };
                    Action::Read
                }
            },
            Phase::Refused { command } => {
                if ptype == EVENT_CONFIRM {
                    Action::Failed(Error::UnknownCommand(command))
                } else {
                    self.phase = Phase::Refused { command };
                    Action::Read
                }
            },
        }
    }

    /// The exchange cannot go on, for the reason `why`: the stream broke, or what came on it is no
    /// packet. An exchange whose command was refused already fails for that; any other fails for
    /// this reason.
    pub fn interrupted(self, why: Error) -> (r: Error)
        ensures
            r@ == failure(self.phase@, why@),
    {
        match self.phase {
            Phase::Refused { command } => Error::UnknownCommand(command),
            _ => why,
        }
    }
}

/// The length before a packet states the length of what follows it, as long as that fits 32 bits.
pub proof fn law_length_reads_back(n: nat)
    requires
        n < 0x1_0000_0000,
    ensures
        stated_length(length_bytes(n)) == n,
{
    assert(n == n / 256 * 256 + n % 256);
    assert(n / 256 == n / 0x1_0000 * 256 + n / 256 % 256);
    assert(n / 0x1_0000 == n / 0x100_0000 * 256 + n / 0x1_0000 % 256);
}

/// The response to a command comes out as the message that charon encoded, and ends the exchange.
pub proof fn law_response_answers_the_request(command: Seq<char>, m: MessageView)
    requires
        encoded(m) is Ok,
    ensures
        transition(
            PhaseView::Requesting { command },
            seq![CMD_RESPONSE] + encoded(m)->Ok_0,
        ) == (PhaseView::Idle, ActionView::Done(Seq::empty(), m)),
{
    law_decode_inverts_encode(m);
    let packet = seq![CMD_RESPONSE] + encoded(m)->Ok_0;
    assert(packet.skip(1) =~= encoded(m)->Ok_0);
}

/// A streaming command that charon does not know ends as the unknown command and in no other way,
/// whatever comes while the event is unregistered.
pub proof fn law_refused_command_stays_refused(command: Seq<char>, packet: Seq<u8>)
    ensures
        ({
            let phase = PhaseView::Refused { command };
            let next = transition(phase, packet);
            next == (phase, ActionView::Read) || next == failing(ErrorView::UnknownCommand(command))
        }),
        forall|why: ErrorView|
            #[trigger] failure(PhaseView::Refused { command }, why) == ErrorView::UnknownCommand(
                command,
            ),
{
}

/// A packet of another kind neither ends nor disturbs a command: it is skipped.
pub proof fn law_stray_packets_are_skipped(command: Seq<char>, packet: Seq<u8>)
    requires
        packet.len() > 0,
        packet[0] != CMD_RESPONSE,
        packet[0] != CMD_UNKNOWN,
    ensures
        transition(PhaseView::Requesting { command }, packet) == (
            PhaseView::Requesting { command },
            ActionView::Read,
        ),
{
}

/// What charon sends as an event.
pub open spec fn event_packet(name: Seq<char>, m: MessageView) -> Seq<u8> {
    seq![EVENT, encode_utf8(name).len() as u8] + encode_utf8(name) + encoded(m)->Ok_0
}

/// The events of a stream come out as the messages that charon encoded, in the order in which they
/// were sent; those of another name are skipped.
pub proof fn law_events_are_collected_in_order(
    command: Seq<char>,
    event: Seq<char>,
    events: Seq<MessageView>,
    name: Seq<char>,
    m: MessageView,
)
    requires
        encode_utf8(name).len() <= 255,
        encoded(m) is Ok,
    ensures
        transition(PhaseView::Streaming { command, event, events }, event_packet(name, m)) == (
            if name == event {
                (
                    PhaseView::Streaming { command, event, events: events.push(m) },
                    ActionView::Read,
                )
            } else {
                (PhaseView::Streaming { command, event, events }, ActionView::Read)
            }
        ),
{
    law_decode_inverts_encode(m);
    let packet = event_packet(name, m);
    let body = packet.skip(1);
    let n = encode_utf8(name).len() as int;
    assert(body[0] == n);
    assert(body.subrange(1, 1 + n) =~= encode_utf8(name));
    assert(body.skip(1 + n) =~= encoded(m)->Ok_0);
    encode_utf8_valid_utf8(name);
    encode_utf8_decode_utf8(name);
}

/// The response to a streaming command is held until the event is unregistered, and then handed
/// over with every event that came before it.
pub proof fn law_stream_ends_with_its_events(
    command: Seq<char>,
    event: Seq<char>,
    events: Seq<MessageView>,
    m: MessageView,
    confirm: Seq<u8>,
)
    requires
        encode_utf8(event).len() <= 255,
        encoded(m) is Ok,
        confirm.len() > 0,
        confirm[0] == EVENT_CONFIRM,
    ensures
        transition(
            PhaseView::Streaming { command, event, events },
            seq![CMD_RESPONSE] + encoded(m)->Ok_0,
        ).0 == (PhaseView::Closing { events, response: m }),
        transition(PhaseView::Closing { events, response: m }, confirm) == (
            PhaseView::Idle,
            ActionView::Done(events, m),
        ),
{
    law_decode_inverts_encode(m);
    let packet = seq![CMD_RESPONSE] + encoded(m)->Ok_0;
    assert(packet.skip(1) =~= encoded(m)->Ok_0);
}

/// What is sent is its length in four bytes, the kind of packet, the length of the name in one
/// byte, the name, and the message when there is one. A name of more than 255 bytes cannot be
/// sent, nor a message that cannot be encoded.
pub proof fn law_packet_is_framed(ptype: u8, name: Seq<char>, m: MessageView)
    ensures
        ({
            let n = encode_utf8(name).len() as int;
            let plain = packet_of(ptype, name, None);
            let full = packet_of(ptype, name, Some(m));
            &&& n > 255 ==> plain == Err::<Seq<u8>, ErrorView>(ErrorView::NameTooLong) && full
                == Err::<Seq<u8>, ErrorView>(ErrorView::NameTooLong)
            &&& n <= 255 ==> plain is Ok && is_frame(
                plain->Ok_0,
                ptype,
                encode_utf8(name),
                Seq::empty(),
            )
            &&& n <= 255 && encoded(m) is Err ==> full == Err::<Seq<u8>, ErrorView>(
                ErrorView::Codec(encoded(m)->Err_0),
            )
            &&& n <= 255 && encoded(m) is Ok && encoded(m)->Ok_0.len() < 0x1000_0000 ==> full is Ok
                && is_frame(full->Ok_0, ptype, encode_utf8(name), encoded(m)->Ok_0)
        }),
{
    let b = encode_utf8(name);
    let n = b.len() as int;
    if n <= 255 {
        let p = packet_of(ptype, name, None)->Ok_0;
        law_length_reads_back((2 + n) as nat);
        lemma_frame(p, ptype, b, Seq::empty());
        if encoded(m) is Ok && encoded(m)->Ok_0.len() < 0x1000_0000 {
            let e = encoded(m)->Ok_0;
            law_length_reads_back((2 + n + e.len()) as nat);
            lemma_frame(packet_of(ptype, name, Some(m))->Ok_0, ptype, b, e);
        }
    }
}

/// Whether the bytes are a packet of the kind, with the name and what follows it, behind a length
/// that states the rest.
pub open spec fn is_frame(p: Seq<u8>, ptype: u8, name: Seq<u8>, rest: Seq<u8>) -> bool {
    &&& p.len() == 6 + name.len() + rest.len()
    &&& stated_length(p.take(4)) == p.len() - 4
    &&& p[4] == ptype
    &&& p[5] == name.len()
    &&& p.subrange(6, 6 + name.len() as int) == name
    &&& p.skip(6 + name.len() as int) == rest
}

proof fn lemma_frame(p: Seq<u8>, ptype: u8, name: Seq<u8>, rest: Seq<u8>)
    requires
        name.len() <= 255,
        rest.len() < 0x1000_0000,
        p =~= length_bytes(2 + name.len() + rest.len()) + (seq![ptype, name.len() as u8] + name
            + rest),
        stated_length(length_bytes(2 + name.len() + rest.len())) == 2 + name.len() + rest.len(),
    ensures
        is_frame(p, ptype, name, rest),
{
    assert(p.take(4) =~= length_bytes(2 + name.len() + rest.len()));
    assert(p.subrange(6, 6 + name.len() as int) =~= name);
    assert(p.skip(6 + name.len() as int) =~= rest);
}

/// A command is answered by a packet of type 1 and refused by one of type 2; everything else is
/// read past. An answer that cannot be decoded fails as such, and so does an empty packet.
pub proof fn law_command_ends_by_its_answer(command: Seq<char>, packet: Seq<u8>)
    ensures
        ({
            let phase = PhaseView::Requesting { command };
            let next = transition(phase, packet);
            &&& packet.len() == 0 ==> next == failing(ErrorView::EmptyPacket)
            &&& packet.len() > 0 && packet[0] == 1 && decoded(packet.skip(1)) is Ok ==> next == (
                PhaseView::Idle,
                ActionView::Done(Seq::empty(), decoded(packet.skip(1))->Ok_0),
            )
            &&& packet.len() > 0 && packet[0] == 1 && decoded(packet.skip(1)) is Err ==> next
                == failing(ErrorView::Codec(decoded(packet.skip(1))->Err_0))
            &&& packet.len() > 0 && packet[0] == 2 ==> next == failing(
                ErrorView::UnknownCommand(command),
            )
            &&& packet.len() > 0 && packet[0] != 1 && packet[0] != 2 ==> next == (
                phase,
                ActionView::Read,
            )
        }),
{
}

/// A streaming command is sent once its event is confirmed, by a packet of type 5, and not when it
/// is refused, by one of type 6. The stream starts without events.
pub proof fn law_stream_starts_once_registered(
    command: Seq<char>,
    event: Seq<char>,
    message: MessageView,
    packet: Seq<u8>,
)
    requires
        packet.len() > 0,
    ensures
        ({
            let phase = PhaseView::Registering { command, event, message };
            let next = transition(phase, packet);
            let request = packet_of(0, command, Some(message));
            &&& packet[0] == 5 && request is Ok ==> next == (
                PhaseView::Streaming { command, event, events: Seq::empty() },
                ActionView::Send(request->Ok_0),
            )
            &&& packet[0] == 5 && request is Err ==> next == failing(request->Err_0)
            &&& packet[0] == 6 ==> next == failing(ErrorView::UnknownEvent(event))
            &&& packet[0] != 5 && packet[0] != 6 ==> next == (phase, ActionView::Read)
        }),
{
}

/// Whatever ends a stream, its event is unregistered first, by a packet of type 4 with its name:
/// after the answer the events are kept, after a refusal the command is.
pub proof fn law_stream_is_unregistered(
    command: Seq<char>,
    event: Seq<char>,
    events: Seq<MessageView>,
    packet: Seq<u8>,
)
    requires
        packet.len() > 0,
        encode_utf8(event).len() <= 255,
    ensures
        ({
            let phase = PhaseView::Streaming { command, event, events };
            let next = transition(phase, packet);
            let farewell = packet_of(4, event, None);
            let answer = decoded(packet.skip(1));
            &&& farewell is Ok
            &&& packet[0] == 1 && answer is Ok ==> next == (
                PhaseView::Closing { events, response: answer->Ok_0 },
                ActionView::Send(farewell->Ok_0),
            )
            &&& packet[0] == 1 && answer is Err ==> next == failing(
                ErrorView::Codec(answer->Err_0),
            )
            &&& packet[0] == 2 ==> next == (
                PhaseView::Refused { command },
                ActionView::Send(farewell->Ok_0),
            )
            &&& packet[0] != 1 && packet[0] != 2 && packet[0] != 7 ==> next == (
                phase,
                ActionView::Read,
            )
        }),
{
}

/// While an event is unregistered everything but the confirmation, a packet of type 5, is read
/// past; the confirmation ends the stream.
pub proof fn law_confirmation_ends_the_stream(
    command: Seq<char>,
    events: Seq<MessageView>,
    response: MessageView,
    packet: Seq<u8>,
)
    requires
        packet.len() > 0,
    ensures
        packet[0] == 5 ==> transition(PhaseView::Closing { events, response }, packet) == (
            PhaseView::Idle,
            ActionView::Done(events, response),
        ),
        packet[0] != 5 ==> transition(PhaseView::Closing { events, response }, packet) == (
            PhaseView::Closing { events, response },
            ActionView::Read,
        ),
        packet[0] == 5 ==> transition(PhaseView::Refused { command }, packet) == failing(
            ErrorView::UnknownCommand(command),
        ),
        packet[0] != 5 ==> transition(PhaseView::Refused { command }, packet) == (
            PhaseView::Refused { command },
            ActionView::Read,
        ),
{
}

/// Every error is told in its own words, with the command, the event or the length that it is
/// about.
pub proof fn law_error_says_what_it_is_about(s: Seq<char>)
    ensures
        ErrorView::Io(s).text() == "vici I/O error: "@ + s,
        ErrorView::UnknownCommand(s).text() == "charon does not know command "@ + debug_quoted(s),
        ErrorView::UnknownEvent(s).text() == "charon does not know event "@ + debug_quoted(s),
        ErrorView::EmptyPacket.text() == "received an empty vici packet"@,
        ErrorView::NameTooLong.text() == "element name exceeds 255 bytes"@,
{
}

} // verus!
