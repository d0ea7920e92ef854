//! The greeter control protocol: what a greeter may send, what the daemon
//! answers, and the state of one connection.

use crate::login_controller::Credentials;
use crate::power_actions::{PowerAction, StartUnit, START_MODE};
use crate::secret::Secret;
use crate::utf16::encode_payload;
use crate::wire::{
    be32, from_be32, lemma_string_frame_roundtrip, parse_string, put_u32, recv_msg, recv_string,
    send_string, string_frame, ProtocolError,
};
use vstd::prelude::*;

verus! {

/// What the control server asks of the controller behind it.
pub trait GreeterController {
    /// Whether the controller can carry the action out.
    spec fn power_capable(&self, act: PowerAction) -> bool;

    /// Whether the controller can carry the action out.
    fn can_perform_power_action(&self, act: PowerAction) -> (able: bool)
        ensures
            able == self.power_capable(act),
    ;

    /// The request that carries the action out, or `None` where the
    /// controller has no one to send it to.
    fn perform_power_action(&self, act: PowerAction) -> (request: Option<StartUnit>)
        ensures
            request matches Some(r) ==> r.unit@ == act.target_name() && r.mode@ == START_MODE@,
    ;
}

/// A message from the greeter to the daemon.
#[derive(Debug, Clone, Copy, PartialEq, Eq, Structural)]
pub enum GreeterMessage {
    Connect,
    Login,
    PowerOff,
    Reboot,
    Suspend,
    Hibernate,
    HybridSleep,
}

/// A message from the daemon to the greeter.
#[derive(Debug, Clone, Copy, PartialEq, Eq, Structural)]
pub enum DaemonMessage {
    HostName,
    Capabilities,
    LoginSucceeded,
    LoginFailed,
    InformationMessage,
}

/// A bit of the capabilities mask.
#[derive(Debug, Clone, Copy, PartialEq, Eq, Structural)]
pub enum Capability {
    PowerOff,
    Reboot,
    Suspend,
    Hibernate,
    HybridSleep,
}

impl GreeterMessage {
    /// The message's code on the wire.
    pub open spec fn spec_code(self) -> u32 {
        match self {
            GreeterMessage::Connect => 0,
            GreeterMessage::Login => 1,
            GreeterMessage::PowerOff => 2,
            GreeterMessage::Reboot => 3,
            GreeterMessage::Suspend => 4,
            GreeterMessage::Hibernate => 5,
            GreeterMessage::HybridSleep => 6,
        }
    }

    /// The message with the given code, if there is one.
    pub open spec fn spec_from_code(code: u32) -> Option<GreeterMessage> {
        if code == 0 {
            Some(GreeterMessage::Connect)
        } else if code == 1 {
            Some(GreeterMessage::Login)
        } else if code == 2 {
            Some(GreeterMessage::PowerOff)
        } else if code == 3 {
            Some(GreeterMessage::Reboot)
        } else if code == 4 {
            Some(GreeterMessage::Suspend)
        } else if code == 5 {
            Some(GreeterMessage::Hibernate)
        } else if code == 6 {
            Some(GreeterMessage::HybridSleep)
        } else {
            None
        }
    }

    /// The message that asks for a power action.
    pub open spec fn spec_from(act: PowerAction) -> GreeterMessage {
        match act {
            PowerAction::PowerOff => GreeterMessage::PowerOff,
            PowerAction::Reboot => GreeterMessage::Reboot,
            PowerAction::Suspend => GreeterMessage::Suspend,
            PowerAction::Hibernate => GreeterMessage::Hibernate,
            PowerAction::HybridSleep => GreeterMessage::HybridSleep,
        }
    }

    /// The power action that the message asks for, if it asks for one.
    pub open spec fn spec_power_action(self) -> Option<PowerAction> {
        match self {
            GreeterMessage::PowerOff => Some(PowerAction::PowerOff),
            GreeterMessage::Reboot => Some(PowerAction::Reboot),
            GreeterMessage::Suspend => Some(PowerAction::Suspend),
            GreeterMessage::Hibernate => Some(PowerAction::Hibernate),
            GreeterMessage::HybridSleep => Some(PowerAction::HybridSleep),
            _ => None,
        }
    }

    /// The message's code on the wire.
    #[verifier::when_used_as_spec(spec_code)]
    pub fn code(self) -> (code: u32)
        ensures
            code == self.spec_code(),
    {
        match self {
            GreeterMessage::Connect => 0,
            GreeterMessage::Login => 1,
            GreeterMessage::PowerOff => 2,
            GreeterMessage::Reboot => 3,
            GreeterMessage::Suspend => 4,
            GreeterMessage::Hibernate => 5,
            GreeterMessage::HybridSleep => 6,
        }
    }

    /// The message with the given code, if there is one.
    #[verifier::when_used_as_spec(spec_from_code)]
    pub fn from_code(code: u32) -> (message: Option<GreeterMessage>)
        ensures
            message == Self::spec_from_code(code),
            message matches Some(m) ==> m.spec_code() == code,
    {
        match code {
            0 => Some(GreeterMessage::Connect),
            1 => Some(GreeterMessage::Login),
            2 => Some(GreeterMessage::PowerOff),
            3 => Some(GreeterMessage::Reboot),
            4 => Some(GreeterMessage::Suspend),
            5 => Some(GreeterMessage::Hibernate),
            6 => Some(GreeterMessage::HybridSleep),
            _ => None,
        }
    }

    /// The message that asks for a power action.
    #[verifier::when_used_as_spec(spec_from)]
    pub fn from(act: PowerAction) -> (message: GreeterMessage)
        ensures
            message == Self::spec_from(act),
            message.spec_power_action() == Some(act),
    {
        match act {
            PowerAction::PowerOff => GreeterMessage::PowerOff,
            PowerAction::Reboot => GreeterMessage::Reboot,
            PowerAction::Suspend => GreeterMessage::Suspend,
            PowerAction::Hibernate => GreeterMessage::Hibernate,
            PowerAction::HybridSleep => GreeterMessage::HybridSleep,
        }
    }

    /// The power action that the message asks for, if it asks for one.
    #[verifier::when_used_as_spec(spec_power_action)]
    pub fn power_action(self) -> (act: Option<PowerAction>)
        ensures
            act == self.spec_power_action(),
    {
        match self {
            GreeterMessage::PowerOff => Some(PowerAction::PowerOff),
            GreeterMessage::Reboot => Some(PowerAction::Reboot),
            GreeterMessage::Suspend => Some(PowerAction::Suspend),
            GreeterMessage::Hibernate => Some(PowerAction::Hibernate),
            GreeterMessage::HybridSleep => Some(PowerAction::HybridSleep),
            _ => None,
        }
    }
}

impl DaemonMessage {
    /// The message's code on the wire.
    pub open spec fn spec_code(self) -> u32 {
        match self {
            DaemonMessage::HostName => 0,
            DaemonMessage::Capabilities => 1,
            DaemonMessage::LoginSucceeded => 2,
            DaemonMessage::LoginFailed => 3,
            DaemonMessage::InformationMessage => 4,
        }
    }

    /// The message's code on the wire.
    #[verifier::when_used_as_spec(spec_code)]
    pub fn code(self) -> (code: u32)
        ensures
            code == self.spec_code(),
    {
        match self {
            DaemonMessage::HostName => 0,
            DaemonMessage::Capabilities => 1,
            DaemonMessage::LoginSucceeded => 2,
            DaemonMessage::LoginFailed => 3,
            DaemonMessage::InformationMessage => 4,
        }
    }
}

impl Capability {
    /// The capability's bit in the mask.
    pub open spec fn spec_bit(self) -> u32 {
        match self {
            Capability::PowerOff => 0b00001,
            Capability::Reboot => 0b00010,
            Capability::Suspend => 0b00100,
            Capability::Hibernate => 0b01000,
            Capability::HybridSleep => 0b10000,
        }
    }

    /// The capability to carry out a power action.
    pub open spec fn spec_from(act: PowerAction) -> Capability {
        match act {
            PowerAction::PowerOff => Capability::PowerOff,
            PowerAction::Reboot => Capability::Reboot,
            PowerAction::Suspend => Capability::Suspend,
            PowerAction::Hibernate => Capability::Hibernate,
            PowerAction::HybridSleep => Capability::HybridSleep,
        }
    }

    /// The capability's bit in the mask.
    #[verifier::when_used_as_spec(spec_bit)]
    pub fn bit(self) -> (bit: u32)
        ensures
            bit == self.spec_bit(),
    {
        match self {
            Capability::PowerOff => 0b00001,
            Capability::Reboot => 0b00010,
            Capability::Suspend => 0b00100,
            Capability::Hibernate => 0b01000,
            Capability::HybridSleep => 0b10000,
        }
    }

    /// The capability to carry out a power action.
    #[verifier::when_used_as_spec(spec_from)]
    pub fn from(act: PowerAction) -> (capability: Capability)
        ensures
            capability == Self::spec_from(act),
    {
        match act {
            PowerAction::PowerOff => Capability::PowerOff,
            PowerAction::Reboot => Capability::Reboot,
            PowerAction::Suspend => Capability::Suspend,
            PowerAction::Hibernate => Capability::Hibernate,
            PowerAction::HybridSleep => Capability::HybridSleep,
        }
    }
}

/// The bit that an action adds to the mask where it can be carried out.
pub open spec fn capability_bit(able: bool, act: PowerAction) -> u32 {
    if able {
        Capability::spec_from(act).spec_bit()
    } else {
        0
    }
}

/// The capabilities mask of a controller: the bits of the actions that it
/// can carry out.
pub open spec fn capability_mask<C: GreeterController>(controller: &C) -> u32 {
    (capability_bit(controller.power_capable(PowerAction::PowerOff), PowerAction::PowerOff)
        + capability_bit(controller.power_capable(PowerAction::Reboot), PowerAction::Reboot)
        + capability_bit(controller.power_capable(PowerAction::Suspend), PowerAction::Suspend)
        + capability_bit(controller.power_capable(PowerAction::Hibernate), PowerAction::Hibernate)
        + capability_bit(
        controller.power_capable(PowerAction::HybridSleep),
        PowerAction::HybridSleep,
    )) as u32
}

/// The mask of the first `n` actions of the fixed order.
spec fn mask_below<C: GreeterController>(controller: &C, n: int) -> int
    decreases n,
{
    if n <= 0 {
        0
    } else {
        mask_below(controller, n - 1) + capability_bit(
            controller.power_capable(PowerAction::at(n - 1)),
            PowerAction::at(n - 1),
        )
    }
}

/// The daemon's answer to `Connect`: the capabilities, then the host name
/// where there is one to tell.
pub open spec fn handshake_frames(capabilities: u32, hostname: Option<Seq<char>>) -> Seq<u8> {
    be32(DaemonMessage::Capabilities.spec_code()) + be32(capabilities) + (match hostname {
        Some(name) => be32(DaemonMessage::HostName.spec_code()) + string_frame(name),
        None => Seq::empty(),
    })
}

/// An information message for the greeter.
pub open spec fn information_frame(message: Seq<char>) -> Seq<u8> {
    be32(DaemonMessage::InformationMessage.spec_code()) + string_frame(message)
}

/// The information messages of an attempt, one frame after the other.
pub open spec fn information_frames(messages: Seq<Seq<char>>) -> Seq<u8>
    decreases messages.len(),
{
    if messages.len() == 0 {
        Seq::empty()
    } else {
        information_frames(messages.drop_last()) + information_frame(messages.last())
    }
}

/// The frame that ends an attempt.
pub open spec fn result_frame(login_ok: bool) -> Seq<u8> {
    be32(
        if login_ok {
            DaemonMessage::LoginSucceeded.spec_code()
        } else {
            DaemonMessage::LoginFailed.spec_code()
        },
    )
}

/// What a finished attempt sends: its information messages in their order,
/// and after all of them the one result.
pub open spec fn login_frames(messages: Seq<Seq<char>>, login_ok: bool) -> Seq<u8> {
    information_frames(messages) + result_frame(login_ok)
}

/// Reading the body of a `Login` message from the front of `buf`: the user,
/// the password, four bytes that are passed over, and the session.
pub open spec fn parse_login(buf: Seq<u8>) -> Result<Option<(Credentials, int)>, ProtocolError> {
    match parse_string(buf) {
        Err(e) => Err(e),
        Ok(None) => Ok(None),
        Ok(Some((user, a))) => match parse_string(buf.skip(a)) {
            Err(e) => Err(e),
            Ok(None) => Ok(None),
            Ok(Some((password, b))) => if buf.len() < a + b + 4 {
                Ok(None)
            } else {
                match parse_string(buf.skip(a + b + 4)) {
                    Err(e) => Err(e),
                    Ok(None) => Ok(None),
                    Ok(Some((session, c))) => Ok(
                        Some((Credentials { user, password, session }, a + b + 4 + c)),
                    ),
                }
            },
        },
    }
}

/// The body of a `Login` message as the greeter writes it; `session_type`
/// stands for the four bytes that the daemon passes over.
pub open spec fn login_body(creds: Credentials, session_type: Seq<u8>) -> Seq<u8> {
    string_frame(creds.user) + string_frame(creds.password) + session_type + string_frame(
        creds.session,
    )
}

/// Three strings that are each read back from their bytes, with four bytes
/// between the second and the third, are read back together as a `Login`
/// body.
proof fn lemma_three_strings(
    user: Seq<u8>,
    password: Seq<u8>,
    session_type: Seq<u8>,
    session: Seq<u8>,
    tail: Seq<u8>,
    creds: Credentials,
)
    requires
        session_type.len() == 4,
        parse_string(user + (password + session_type + session + tail)) == Ok::<
            Option<(Seq<char>, int)>,
            ProtocolError,
        >(Some((creds.user, user.len() as int))),
        parse_string(password + (session_type + session + tail)) == Ok::<
            Option<(Seq<char>, int)>,
            ProtocolError,
        >(Some((creds.password, password.len() as int))),
        parse_string(session + tail) == Ok::<Option<(Seq<char>, int)>, ProtocolError>(
            Some((creds.session, session.len() as int)),
        ),
    ensures
        parse_login(user + password + session_type + session + tail) == Ok::<
            Option<(Credentials, int)>,
            ProtocolError,
        >(Some((creds, (user.len() + password.len() + 4 + session.len()) as int))),
{
    let buf = user + password + session_type + session + tail;
    let a = user.len() as int;
    let b = password.len() as int;
    assert(buf =~= user + (password + session_type + session + tail));
    assert(buf.skip(a) =~= password + (session_type + session + tail));
    assert(buf.skip(a + b + 4) =~= session + tail);
}

/// The body of a `Login` message, whatever follows it and whatever its
/// four passed-over bytes hold, is read back as the credentials it was made
/// from, and reading stops at its end.
pub proof fn lemma_login_body_roundtrip(creds: Credentials, session_type: Seq<u8>, tail: Seq<u8>)
    requires
        session_type.len() == 4,
        encode_payload(creds.user).len() <= u64::MAX,
        encode_payload(creds.password).len() <= u64::MAX,
        encode_payload(creds.session).len() <= u64::MAX,
    ensures
        parse_login(login_body(creds, session_type) + tail) == Ok::<
            Option<(Credentials, int)>,
            ProtocolError,
        >(Some((creds, login_body(creds, session_type).len() as int))),
{
    let user = string_frame(creds.user);
    let password = string_frame(creds.password);
    let session = string_frame(creds.session);
    lemma_string_frame_roundtrip(creds.user, password + session_type + session + tail);
    lemma_string_frame_roundtrip(creds.password, session_type + session + tail);
    lemma_string_frame_roundtrip(creds.session, tail);
    lemma_three_strings(user, password, session_type, session, tail, creds);
}

/// The body of a `Login` message.
#[derive(Debug)]
pub struct LoginFrame {
    pub user: String,
    pub password: Secret,
    pub session: String,
}

impl DeepView for LoginFrame {
    type V = Credentials;

    open spec fn deep_view(&self) -> Credentials {
        Credentials { user: self.user@, password: self.password@, session: self.session@ }
    }
}

impl View for LoginFrame {
    type V = Credentials;

    open spec fn view(&self) -> Credentials {
        self.deep_view()
    }
}

/// What a result of reading a `Login` body says, by its characters.
pub open spec fn login_outcome(r: Result<Option<(LoginFrame, usize)>, ProtocolError>) -> Result<
    Option<(Credentials, int)>,
    ProtocolError,
> {
    match r {
        Ok(Some((frame, used))) => Ok(Some((frame@, used as int))),
        Ok(None) => Ok(None),
        Err(e) => Err(e),
    }
}

/// What the daemon does about a message.
#[derive(Debug)]
pub enum Reaction {
    /// Send these bytes: the answer to `Connect`.
    Handshake(Vec<u8>),
    /// Start a login attempt with these credentials.
    BeginLogin(LoginFrame),
    /// Drop this login: another one is under way on the connection. The
    /// user is kept for the log.
    IgnoreLogin(String),
    /// Carry the power action out; nothing is sent back.
    Power(PowerAction),
}

/// A reaction, by its characters.
pub enum ReactionView {
    Handshake(Seq<u8>),
    BeginLogin(Credentials),
    IgnoreLogin(Seq<char>),
    Power(PowerAction),
}

impl View for Reaction {
    type V = ReactionView;

    open spec fn view(&self) -> ReactionView {
        match self {
            Reaction::Handshake(bytes) => ReactionView::Handshake(bytes@),
            Reaction::BeginLogin(frame) => ReactionView::BeginLogin(frame@),
            Reaction::IgnoreLogin(user) => ReactionView::IgnoreLogin(user@),
            Reaction::Power(act) => ReactionView::Power(*act),
        }
    }
}

/// The state of one greeter connection.
#[derive(Debug, Clone, Copy, PartialEq, Eq, Structural)]
pub struct GreeterConnection {
    /// Whether the greeter has sent `Connect`.
    pub connected: bool,
    /// The capabilities that were sent in answer to `Connect`; none before.
    pub capabilities: u32,
    /// Whether a login attempt of this connection is under way.
    pub login_in_flight: bool,
}

/// What the front of `buf` means on a connection in the given state: the
/// reaction, the number of bytes that the message took and the state after
/// it; `Ok(None)` where the message is not all there yet; the error that
/// ends the connection.
pub open spec fn react(
    state: GreeterConnection,
    buf: Seq<u8>,
    capabilities: u32,
    hostname: Option<Seq<char>>,
) -> Result<Option<(ReactionView, int, GreeterConnection)>, ProtocolError> {
    if buf.len() < 4 {
        Ok(None)
    } else {
        let code = from_be32(buf, 0);
        if !state.connected {
            if code == GreeterMessage::Connect.spec_code() {
                Ok(
                    Some(
                        (
                            ReactionView::Handshake(handshake_frames(capabilities, hostname)),
                            4,
                            GreeterConnection { connected: true, capabilities, ..state },
                        ),
                    ),
                )
            } else {
                Err(ProtocolError::UnexpectedFirstMessage(code))
            }
        } else if code == GreeterMessage::Login.spec_code() {
            match parse_login(buf.skip(4)) {
                Err(e) => Err(e),
                Ok(None) => Ok(None),
                Ok(Some((creds, used))) => if state.login_in_flight {
                    Ok(Some((ReactionView::IgnoreLogin(creds.user), 4 + used, state)))
                } else {
                    Ok(
                        Some(
                            (
                                ReactionView::BeginLogin(creds),
                                4 + used,
                                GreeterConnection { login_in_flight: true, ..state },
                            ),
                        ),
                    )
                },
            }
        } else {
            match GreeterMessage::spec_from_code(code) {
                Some(message) => match message.spec_power_action() {
                    Some(act) => Ok(Some((ReactionView::Power(act), 4, state))),
                    None => Err(ProtocolError::UnknownMessage(code)),
                },
                None => Err(ProtocolError::UnknownMessage(code)),
            }
        }
    }
}

/// What a result of `receive` says, by its characters, with the state that
/// the connection is left in.
pub open spec fn reaction_outcome(
    r: Result<Option<(Reaction, usize)>, ProtocolError>,
    state: GreeterConnection,
) -> Result<Option<(ReactionView, int, GreeterConnection)>, ProtocolError> {
    match r {
        Ok(Some((reaction, used))) => Ok(Some((reaction@, used as int, state))),
        Ok(None) => Ok(None),
        Err(e) => Err(e),
    }
}

/// The capabilities mask of a controller.
pub fn capabilities<C: GreeterController>(controller: &C) -> (mask: u32)
    ensures
        mask == capability_mask(controller),
        mask < 32,
{
    let all = PowerAction::all_actions();
    let mut mask: u32 = 0;
    let mut i: usize = 0;
    while i < 5
        invariant
            i <= 5,
            forall|j: int| 0 <= j < 5 ==> #[trigger] all[j] == PowerAction::at(j),
            mask == mask_below(controller, i as int),
            i == 0 ==> mask == 0,
            i == 1 ==> mask < 2,
            i == 2 ==> mask < 4,
            i == 3 ==> mask < 8,
            i == 4 ==> mask < 16,
            i == 5 ==> mask < 32,
        decreases 5 - i,
    {
        let act = all[i];
        assert(act == PowerAction::at(i as int));
        if controller.can_perform_power_action(act) {
            let bit = Capability::from(act).bit();
            assert(mask | bit == mask + bit) by (bit_vector)
                requires
                    (bit == 1 && mask < 1) || (bit == 2 && mask < 2) || (bit == 4 && mask < 4) || (
                    bit == 8 && mask < 8) || (bit == 16 && mask < 16),
            ;
            mask = mask | bit;
        }
        i = i + 1;
    }
    proof {
        reveal_with_fuel(mask_below, 6);
    }
    mask
}

/// The daemon's answer to `Connect`.
pub fn handshake(capabilities: u32, hostname: Option<&str>) -> (bytes: Vec<u8>)
    ensures
        bytes@ == handshake_frames(capabilities, hostname.deep_view()),
{
    let mut bytes: Vec<u8> = Vec::new();
    put_u32(&mut bytes, DaemonMessage::Capabilities.code());
    put_u32(&mut bytes, capabilities);
    match hostname {
        Some(name) => {
            put_u32(&mut bytes, DaemonMessage::HostName.code());
            send_string(&mut bytes, name);
            proof {
                assert(bytes@ =~= handshake_frames(capabilities, hostname.deep_view()));
            }
        },
        None => {
            proof {
                assert(bytes@ =~= handshake_frames(capabilities, hostname.deep_view()));
            }
        },
    }
    bytes
}

/// An information message for the greeter.
pub fn information_message(message: &str) -> (bytes: Vec<u8>)
    ensures
        bytes@ == information_frame(message@),
{
    let mut bytes: Vec<u8> = Vec::new();
    put_u32(&mut bytes, DaemonMessage::InformationMessage.code());
    send_string(&mut bytes, message);
    proof {
        assert(bytes@ =~= information_frame(message@));
    }
    bytes
}

/// Reads the body of a `Login` message from the front of `buf[start..]`.
pub fn recv_login(buf: &[u8], start: usize) -> (r: Result<
    Option<(LoginFrame, usize)>,
    ProtocolError,
>)
    requires
        start <= buf@.len(),
    ensures
        login_outcome(r) == parse_login(buf@.skip(start as int)),
        r matches Ok(Some((_, used))) ==> start + used <= buf@.len(),
{
    proof {
        assert(buf@.len() == buf.len());
    }
    let ghost rest = buf@.skip(start as int);
    let (user, a) = match recv_string(buf, start) {
        Err(e) => {
            return Err(e);
        },
        Ok(None) => {
            return Ok(None);
        },
        Ok(Some(found)) => found,
    };
    proof {
        assert(rest.skip(a as int) =~= buf@.skip(start + a));
    }
    let (password, b) = match recv_string(buf, start + a) {
        Err(e) => {
            return Err(e);
        },
        Ok(None) => {
            return Ok(None);
        },
        Ok(Some((text, used))) => (Secret::new(text), used),
    };
    if buf.len() - (start + a + b) < 4 {
        return Ok(None);
    }
    proof {
        assert(rest.skip(a + b + 4) =~= buf@.skip(start + a + b + 4));
    }
    let (session, c) = match recv_string(buf, start + a + b + 4) {
        Err(e) => {
            return Err(e);
        },
        Ok(None) => {
            return Ok(None);
        },
        Ok(Some(found)) => found,
    };
    Ok(Some((LoginFrame { user, password, session }, a + b + 4 + c)))
}

impl GreeterConnection {
    /// The state of a connection that was just accepted.
    pub fn new() -> (state: GreeterConnection)
        ensures
            state == (GreeterConnection {
                connected: false,
                capabilities: 0,
                login_in_flight: false,
            }),
    {
        GreeterConnection { connected: false, capabilities: 0, login_in_flight: false }
    }

    /// Reads the next message from the front of `buf` and says what to do
    /// about it and how many bytes it took. The first message must be
    /// `Connect`. A `Login` while another is under way is dropped. A code
    /// that the protocol does not know ends the connection.
    pub fn receive<C: GreeterController>(
        &mut self,
        buf: &[u8],
        controller: &C,
        hostname: Option<&str>,
    ) -> (r: Result<Option<(Reaction, usize)>, ProtocolError>)
        ensures
            reaction_outcome(r, *final(self)) == react(
                *old(self),
                buf@,
                capability_mask(controller),
                hostname.deep_view(),
            ),
            !(r matches Ok(Some(_))) ==> *final(self) == *old(self),
            r matches Ok(Some((_, used))) ==> used <= buf@.len(),
    {
        proof {
            assert(buf@.len() == buf.len());
        }
        let code = match recv_msg(buf) {
            Some(code) => code,
            None => {
                return Ok(None);
            },
        };
        if !self.connected {
            if code == GreeterMessage::Connect.code() {
                let mask = capabilities(controller);
                let bytes = handshake(mask, hostname);
                self.connected = true;
                self.capabilities = mask;
                return Ok(Some((Reaction::Handshake(bytes), 4)));
            } else {
                return Err(ProtocolError::UnexpectedFirstMessage(code));
            }
        }
        if code == GreeterMessage::Login.code() {
            return match recv_login(buf, 4) {
                Err(e) => Err(e),
                Ok(None) => Ok(None),
                Ok(Some((frame, used))) => {
                    if self.login_in_flight {
                        Ok(Some((Reaction::IgnoreLogin(frame.user), 4 + used)))
                    } else {
                        self.login_in_flight = true;
                        Ok(Some((Reaction::BeginLogin(frame), 4 + used)))
                    }
                },
            };
        }
        match GreeterMessage::from_code(code) {
            Some(message) => match message.power_action() {
                Some(act) => Ok(Some((Reaction::Power(act), 4))),
                None => Err(ProtocolError::UnknownMessage(code)),
            },
            None => Err(ProtocolError::UnknownMessage(code)),
        }
    }

    /// What a finished login attempt sends on the connection: the
    /// information messages that the attempt produced, in their order, and
    /// after all of them the one result frame. The connection is then free
    /// for the next login. Without a login under way there is nothing to
    /// send, so that every login that was begun gets one result and no
    /// more.
    pub fn handle_login_request(&mut self, messages: &Vec<String>, login_ok: bool) -> (bytes:
        Option<Vec<u8>>)
        ensures
            bytes.deep_view() == (if old(self).login_in_flight {
                Some(login_frames(messages.deep_view(), login_ok))
            } else {
                None
            }),
            *final(self) == (GreeterConnection { login_in_flight: false, ..*old(self) }),
    {
        if !self.login_in_flight {
            return None;
        }
        let mut bytes: Vec<u8> = Vec::new();
        let mut i: usize = 0;
        proof {
            assert(messages.deep_view().take(0) =~= Seq::<Seq<char>>::empty());
        }
        while i < messages.len()
            invariant
                i <= messages.len(),
                bytes@ == information_frames(messages.deep_view().take(i as int)),
            decreases messages.len() - i,
        {
            put_u32(&mut bytes, DaemonMessage::InformationMessage.code());
            send_string(&mut bytes, messages[i].as_str());
            proof {
                let upto = messages.deep_view().take(i + 1);
                assert(upto.drop_last() =~= messages.deep_view().take(i as int));
                assert(upto.last() == messages[i as int]@);
                assert(bytes@ =~= information_frames(upto));
            }
            i = i + 1;
        }
        proof {
            assert(messages.deep_view().take(messages.len() as int) =~= messages.deep_view());
        }
        put_u32(
            &mut bytes,
            if login_ok {
                DaemonMessage::LoginSucceeded.code()
            } else {
                DaemonMessage::LoginFailed.code()
            },
        );
        self.login_in_flight = false;
        Some(bytes)
    }

    /// Judges the end of the stream: it is clean where no message had
    /// begun, that is, with fewer than four bytes left over.
    pub fn end_of_stream(leftover: usize) -> (r: Result<(), ProtocolError>)
        ensures
            r == (if leftover < 4 {
                Ok::<(), ProtocolError>(())
            } else {
                Err::<(), ProtocolError>(ProtocolError::Truncated)
            }),
    {
        if leftover < 4 {
            Ok(())
        } else {
            Err(ProtocolError::Truncated)
        }
    }
}

} // verus!
