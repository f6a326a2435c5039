//! Sessions as whole: opening one, holding it, and replacing it when it breaks.
//!
//! Whoever drives a session sends and receives; each step here takes what came
//! of that and says what to do next.

use crate::client::{
    check_written, encode_traditional_data, ensure_same_tun_assignment, observe_echo, parse_open_ack,
    parse_rejection, random_nonzero_u32, receive_gate, sr_echo_round_trip, validate_inner_packet,
    AttemptEnd, Client, HeartbeatTracker, OutboundPacket, PacketEffect, ReconnectAction,
    ReconnectState, SessionEnd, SessionInfo, StandardReceiver, WorkerFailure,
    AUTH_ATTEMPT_TIMEOUT_NS, AUTH_OVERALL_TIMEOUT_NS, AUTH_RETRY_DELAY_NS,
};
use crate::client::{
    ack_address, ack_encryption, ack_error, ack_mtu, at_most_one, drawn, fresh_reconnect,
    heartbeat_lost, inner_packet, not_drawn, observed, open_budget_spent, reconnect_step, rejection_meaning, requested, round_trip,
    same_assignment,
    shown_assignment, standard_effect,
};
use crate::config::{ReconnectPolicy, SegmentRoutingConfig};
use crate::crypto::{DataCipher, SessionCipher};
use crate::crypto::given_back;
use crate::error::Error;
use crate::error::is_invalid_config;
use crate::fragment::{Fragment, TraditionalPending};
use crate::net::SocketAddr;
use crate::protocol::{
    DecodedPacket, EchoBody, EchoDelayStats, EncryptionMethod, PacketHeader, PacketType, Tlv,
    TlvType,
};
use vstd::prelude::*;
use vstd::slice::slice_to_vec;

verus! {

/// How long to wait before a device that had nothing is read again.
pub const READ_PAUSE_MS: u64 = 5;

/// What a request to open a session carries.
#[derive(Debug)]
pub struct OpenRequest {
    pub username: String,
    pub password: String,
    pub mtu: u16,
    pub encryption: EncryptionMethod,
    /// The first link of a segment-routing path.
    pub first_hop: Option<u32>,
    pub nonce: u32,
}

/// The request that a client opens a session with.
pub open spec fn opens_with(request: OpenRequest, client: Client, nonce: u32) -> bool {
    &&& request.username@ == client.login().user()
    &&& request.password@ == client.login().secret()
    &&& request.mtu == client.settings().mtu
    &&& request.encryption == client.settings().encryption
    &&& request.first_hop == match client.settings().segment_routing {
        Some(sr) => if sr.links@.len() > 0 {
            Some(sr.links@[0])
        } else {
            None
        },
        None => None,
    }
    &&& request.nonce == nonce
}

/// An attempt to open a session in some time, of which each try takes a part.
#[derive(Debug)]
pub struct OpenAttempt {
    pub overall: u64,
    pub request: OpenRequest,
}

/// What came back on a request to open a session.
pub enum OpenReply {
    /// A packet. For an acknowledgement its attributes were read; for a
    /// rejection, the attributes that fill the body from each of its bytes on.
    Packet {
        packet: DecodedPacket,
        attributes: Result<Vec<Tlv>, Error>,
        tails: Vec<Option<Vec<Tlv>>>,
    },
    /// Nothing, in time.
    TimedOut,
    /// A datagram that is no packet, or a failure of the socket.
    Failed(Error),
}

impl OpenReply {
    /// Attributes of a rejection were looked for from each byte on.
    pub open spec fn wf(self) -> bool {
        match self {
            OpenReply::Packet { packet, tails, .. } => packet.header.packet_type
                == PacketType::OpenReject ==> tails@.len() == packet.body@.len(),
            _ => true,
        }
    }
}

/// How far opening a session has come.
pub enum OpenProgress {
    Opened(ConnectedSession),
    /// The request is sent again after the pause.
    Retry,
}

/// Another try while the time allows it, else a timeout.
pub open spec fn tries_again(
    elapsed: u64,
    overall: u64,
    result: Result<OpenProgress, Error>,
) -> bool {
    if open_budget_spent(elapsed, overall) {
        result matches Err(error) && error == Error::Timeout("authentication")
    } else {
        result matches Ok(OpenProgress::Retry)
    }
}

/// Whether a session is what an acknowledgement gave to a client.
pub open spec fn acknowledged(
    session: ConnectedSession,
    client: Client,
    header: PacketHeader,
    attributes: Seq<Tlv>,
    peer: SocketAddr,
) -> bool {
    &&& session.info.peer == peer
    &&& session.info.session_id == header.session_id
    &&& session.info.token == header.token
    &&& session.info.encryption == ack_encryption(attributes, header.encryption)
    &&& session.info.mtu == ack_mtu(attributes, client.settings().mtu)
    &&& session.info.address == ack_address(attributes, TlvType::Ip)
    &&& session.info.gateway == ack_address(attributes, TlvType::Gateway)
    &&& session.info.dns_servers@ == at_most_one(ack_address(attributes, TlvType::Dns))
    &&& session.info.segment_routing == (client.settings().segment_routing is Some)
    &&& session.cipher.seals(
        session.info.encryption,
        client.login().user(),
        client.login().secret(),
    )
    &&& match client.settings().segment_routing {
        Some(config) => session.sr matches Some(runtime) && runtime.runs(config)
            && runtime.fragment_id != 0 && drawn(Some(runtime.fragment_id)),
        None => session.sr is None,
    }
    &&& session.running
    &&& !session.close_sent
}

/// Why a segment-routing path cannot be put to use: its cipher cannot be made, or
/// there is no randomness.
pub open spec fn path_refused(cipher: Result<(), Error>, error: Error) -> bool {
    match cipher {
        Err(reason) => error == reason,
        Ok(_) => not_drawn(error),
    }
}

/// What a reply to a request to open a session leads to, given what became of
/// making the outer cipher of the segment-routing path, where there is one.
pub open spec fn opening(
    client: Client,
    attempt: OpenAttempt,
    reply: OpenReply,
    peer: SocketAddr,
    elapsed: u64,
    cipher: Result<(), Error>,
    result: Result<OpenProgress, Error>,
) -> bool {
    match reply {
        OpenReply::TimedOut => tries_again(elapsed, attempt.overall, result),
        OpenReply::Failed(error) => result matches Err(actual) && actual == error,
        OpenReply::Packet { packet, attributes, tails } => match packet.header.packet_type {
            PacketType::OpenReject => exists|verdict: Result<Error, Error>|
                {
                    &&& #[trigger] rejection_meaning(
                        packet.body@,
                        tails@,
                        attempt.request.nonce,
                        verdict,
                    )
                    &&& result matches Err(actual)
                    &&& match verdict {
                        Ok(rejection) => actual == rejection,
                        Err(error) => actual == error,
                    }
                },
            PacketType::OpenAck => match attributes {
                Err(error) => result matches Err(actual) && actual == error,
                Ok(list) => match ack_error(list@, attempt.request.nonce) {
                    Some(error) => result matches Err(actual) && actual == error,
                    None => match result {
                        Ok(OpenProgress::Opened(session)) => acknowledged(
                            session,
                            client,
                            packet.header,
                            list@,
                            peer,
                        ) && (client.settings().segment_routing is Some ==> cipher is Ok),
                        Ok(OpenProgress::Retry) => false,
                        Err(error) => client.settings().segment_routing is Some && path_refused(
                            cipher,
                            error,
                        ),
                    },
                },
            },
            _ => tries_again(elapsed, attempt.overall, result),
        },
    }
}

impl Client {
    /// Begins to open a session, with tries for as long as opening may take.
    pub fn authenticate(&self) -> (result: Result<OpenAttempt, Error>)
        ensures
            match result {
                Ok(attempt) => attempt.overall == AUTH_OVERALL_TIMEOUT_NS && attempt.request.nonce
                    != 0 && drawn(Some(attempt.request.nonce)) && opens_with(
                    attempt.request,
                    *self,
                    attempt.request.nonce,
                ),
                Err(error) => not_drawn(error),
            },
    {
        self.authenticate_with_budget(AUTH_OVERALL_TIMEOUT_NS)
    }

    /// Begins to open a session with a single try.
    pub fn authenticate_once(&self) -> (result: Result<OpenAttempt, Error>)
        ensures
            match result {
                Ok(attempt) => attempt.overall == AUTH_ATTEMPT_TIMEOUT_NS && attempt.request.nonce
                    != 0 && drawn(Some(attempt.request.nonce)) && opens_with(
                    attempt.request,
                    *self,
                    attempt.request.nonce,
                ),
                Err(error) => not_drawn(error),
            },
    {
        self.authenticate_with_budget(AUTH_ATTEMPT_TIMEOUT_NS)
    }

    fn authenticate_with_budget(&self, overall: u64) -> (result: Result<OpenAttempt, Error>)
        ensures
            match result {
                Ok(attempt) => attempt.overall == overall && attempt.request.nonce != 0 && drawn(
                    Some(attempt.request.nonce),
                ) && opens_with(attempt.request, *self, attempt.request.nonce),
                Err(error) => not_drawn(error),
            },
    {
        match random_nonzero_u32() {
            Ok(nonce) => Ok(OpenAttempt { overall, request: self.open_request(nonce) }),
            Err(error) => Err(error),
        }
    }

    /// The request to open a session, with a nonce.
    pub fn open_request(&self, nonce: u32) -> (request: OpenRequest)
        ensures
            opens_with(request, *self, nonce),
    {
        let config = self.config();
        let first_hop = match &config.segment_routing {
            Some(sr) => if sr.links.len() > 0 {
                Some(sr.links[0])
            } else {
                None
            },
            None => None,
        };
        let credentials = self.credentials();
        OpenRequest {
            username: credentials.username().to_owned(),
            password: credentials.password().to_owned(),
            mtu: config.mtu,
            encryption: config.encryption,
            first_hop,
            nonce,
        }
    }

    /// Decides on a reply to a request to open a session, some time after the
    /// first try. `cipher` is what became of making the outer cipher of the
    /// segment-routing path, where there is one.
    pub fn open_reply(
        &self,
        attempt: &OpenAttempt,
        reply: OpenReply,
        peer: SocketAddr,
        elapsed: u64,
        cipher: Result<(), Error>,
    ) -> (result: Result<OpenProgress, Error>)
        requires
            reply.wf(),
        ensures
            opening(*self, *attempt, reply, peer, elapsed, cipher, result),
    {
        match reply {
            OpenReply::TimedOut => retry_open(elapsed, attempt.overall),
            OpenReply::Failed(error) => Err(error),
            OpenReply::Packet { packet, attributes, tails } => match packet.header.packet_type {
                PacketType::OpenReject => {
                    let verdict = parse_rejection(
                        packet.body.as_slice(),
                        &tails,
                        attempt.request.nonce,
                    );
                    let ghost meant = verdict;
                    assert(rejection_meaning(
                        packet.body@,
                        tails@,
                        attempt.request.nonce,
                        meant,
                    ));
                    match verdict {
                        Ok(rejection) => Err(rejection),
                        Err(error) => Err(error),
                    }
                },
                PacketType::OpenAck => match attributes {
                    Err(error) => Err(error),
                    Ok(list) => self.accept_acknowledgement(
                        &packet.header,
                        &list,
                        peer,
                        attempt.request.nonce,
                        cipher,
                    ),
                },
                _ => retry_open(elapsed, attempt.overall),
            },
        }
    }

    fn accept_acknowledgement(
        &self,
        header: &PacketHeader,
        attributes: &Vec<Tlv>,
        peer: SocketAddr,
        nonce: u32,
        cipher: Result<(), Error>,
    ) -> (result: Result<OpenProgress, Error>)
        ensures
            match ack_error(attributes@, nonce) {
                Some(error) => result matches Err(actual) && actual == error,
                None => match result {
                    Ok(OpenProgress::Opened(session)) => acknowledged(
                        session,
                        *self,
                        *header,
                        attributes@,
                        peer,
                    ) && (self.settings().segment_routing is Some ==> cipher is Ok),
                    Ok(OpenProgress::Retry) => false,
                    Err(error) => self.settings().segment_routing is Some && path_refused(
                        cipher,
                        error,
                    ),
                },
            },
    {
        let config = self.config();
        let mut info = match parse_open_ack(header, attributes, peer, nonce, config.mtu) {
            Ok(info) => info,
            Err(error) => {
                return Err(error);
            },
        };
        info.segment_routing = config.segment_routing.is_some();
        let credentials = self.credentials();
        let session_cipher = SessionCipher::new(
            info.encryption,
            credentials.username(),
            credentials.password(),
        );
        let sr = match &config.segment_routing {
            Some(routing) => match SrRuntime::new(routing, cipher) {
                Ok(runtime) => Some(runtime),
                Err(error) => {
                    return Err(error);
                },
            },
            None => None,
        };
        Ok(
            OpenProgress::Opened(
                ConnectedSession {
                    info,
                    cipher: session_cipher,
                    sr,
                    running: true,
                    close_sent: false,
                },
            ),
        )
    }

    /// Begins to hold sessions for as long as they can be replaced.
    pub fn run_reconnecting(&self) -> (holder: Reconnector)
        ensures
            holder.policy == self.settings().reconnect,
            holder.state == fresh_reconnect(self.settings().reconnect),
            holder.expected is None,
    {
        let policy = self.config().reconnect;
        Reconnector { policy, state: ReconnectState::new(&policy), expected: None }
    }

    /// Begins to hold sessions with one that is open already. Every session that
    /// replaces it must be assigned the same tunnel.
    pub fn run_reconnecting_from(&self, initial_session: &ConnectedSession) -> (holder: Reconnector)
        ensures
            holder.policy == self.settings().reconnect,
            holder.state == fresh_reconnect(self.settings().reconnect),
            holder.expected matches Some(info) && info.same_as(initial_session.info),
    {
        let policy = self.config().reconnect;
        Reconnector {
            policy,
            state: ReconnectState::new(&policy),
            expected: Some(initial_session.info.copy()),
        }
    }
}

fn retry_open(elapsed: u64, overall: u64) -> (result: Result<OpenProgress, Error>)
    ensures
        tries_again(elapsed, overall, result),
{
    if overall <= AUTH_ATTEMPT_TIMEOUT_NS || elapsed >= overall || overall - elapsed
        <= AUTH_RETRY_DELAY_NS {
        Err(Error::Timeout("authentication"))
    } else {
        Ok(OpenProgress::Retry)
    }
}

/// A session that is opened with a single try is never tried again.
pub proof fn law_single_try(
    client: Client,
    attempt: OpenAttempt,
    reply: OpenReply,
    peer: SocketAddr,
    elapsed: u64,
    cipher: Result<(), Error>,
    result: Result<OpenProgress, Error>,
)
    requires
        attempt.overall == AUTH_ATTEMPT_TIMEOUT_NS,
        opening(client, attempt, reply, peer, elapsed, cipher, result),
    ensures
        !(result matches Ok(OpenProgress::Retry)),
{
}

impl SessionInfo {
    pub open spec fn same_as(self, other: SessionInfo) -> bool {
        &&& self.peer == other.peer
        &&& self.session_id == other.session_id
        &&& self.token == other.token
        &&& self.encryption == other.encryption
        &&& self.mtu == other.mtu
        &&& self.address == other.address
        &&& self.gateway == other.gateway
        &&& self.dns_servers@ == other.dns_servers@
        &&& self.segment_routing == other.segment_routing
    }

    pub fn copy(&self) -> (info: Self)
        ensures
            info.same_as(*self),
    {
        SessionInfo {
            peer: self.peer,
            session_id: self.session_id,
            token: self.token,
            encryption: self.encryption,
            mtu: self.mtu,
            address: self.address,
            gateway: self.gateway,
            dns_servers: slice_to_vec(self.dns_servers.as_slice()),
            segment_routing: self.segment_routing,
        }
    }
}

/// A segment-routing path in use.
#[derive(Debug)]
pub struct SrRuntime {
    pub links: Vec<u32>,
    pub monitor_sr_id: u32,
    pub keepalive: bool,
    pub fragment_id: u32,
}

impl SrRuntime {
    /// Whether this is the path of a configuration.
    pub open spec fn runs(self, config: SegmentRoutingConfig) -> bool {
        &&& self.links@ == config.links@
        &&& self.monitor_sr_id == (match config.local_sr_id {
            Some(value) => if value != 0 {
                value
            } else {
                config.id
            },
            None => config.id,
        })
        &&& self.keepalive == config.keepalive
    }

    /// Puts a path to use, with fragments numbered from a random number on.
    /// `cipher` is what became of making its outer cipher.
    pub fn new(config: &SegmentRoutingConfig, cipher: Result<(), Error>) -> (result: Result<
        Self,
        Error,
    >)
        ensures
            match result {
                Ok(runtime) => cipher is Ok && runtime.runs(*config) && runtime.fragment_id != 0
                    && drawn(Some(runtime.fragment_id)),
                Err(error) => path_refused(cipher, error),
            },
    {
        match cipher {
            Ok(_) => {},
            Err(error) => {
                return Err(error);
            },
        }
        match random_nonzero_u32() {
            Ok(fragment_id) => Ok(
                SrRuntime {
                    links: slice_to_vec(config.links.as_slice()),
                    monitor_sr_id: config.monitor_sr_id(),
                    keepalive: config.keepalive,
                    fragment_id,
                },
            ),
            Err(error) => Err(error),
        }
    }

    /// The number of the next fragmented packet. Numbers start over behind the last.
    pub fn next_fragment_id(&mut self) -> (id: u32)
        ensures
            id == old(self).fragment_id,
            final(self).fragment_id == if old(self).fragment_id == u32::MAX {
                0
            } else {
                old(self).fragment_id + 1
            },
            final(self).links == old(self).links,
            final(self).monitor_sr_id == old(self).monitor_sr_id,
            final(self).keepalive == old(self).keepalive,
    {
        let id: u32 = self.fragment_id;
        self.fragment_id = id.wrapping_add(1);
        id
    }
}

/// Holds a session, and its replacements.
#[derive(Debug)]
pub struct Reconnector {
    pub policy: ReconnectPolicy,
    pub state: ReconnectState,
    /// The session whose tunnel every other one must be assigned.
    pub expected: Option<SessionInfo>,
}

impl Reconnector {
    /// Whether it is over before another session is opened.
    pub fn before_session(&self, shutdown: bool) -> (end: Option<SessionEnd>)
        ensures
            end == if shutdown {
                Some(SessionEnd::LocalShutdown)
            } else {
                None::<SessionEnd>
            },
    {
        if shutdown {
            Some(SessionEnd::LocalShutdown)
        } else {
            None
        }
    }

    /// Whether a session may be run: it must not change the tunnel.
    pub fn allow(&self, info: &SessionInfo) -> (result: Result<(), Error>)
        ensures
            match self.expected {
                None => result is Ok,
                Some(first) => match result {
                    Ok(_) => same_assignment(first, *info),
                    Err(error) => !same_assignment(first, *info) && is_invalid_config(
                        error,
                        "server changed the tunnel assignment during reconnection: expected"@
                            + shown_assignment(first) + "; received"@ + shown_assignment(*info),
                    ),
                },
            },
    {
        match &self.expected {
            None => Ok(()),
            Some(first) => ensure_same_tun_assignment(first, info),
        }
    }

    /// What follows a session, or an attempt to open one: it is over, or another
    /// session is opened after so many milliseconds.
    pub fn after_session(&mut self, end: AttemptEnd) -> (result: Result<ReconnectAction, Error>)
        ensures
            final(self).policy == old(self).policy,
            final(self).expected == old(self).expected,
            final(self).state == reconnect_step(old(self).state, old(self).policy, end).0,
            match reconnect_step(old(self).state, old(self).policy, end).1 {
                ReconnectAction::GiveUp => result == Err::<ReconnectAction, Error>(
                    Error::Timeout("reconnection budget exhausted"),
                ),
                action => result == Ok::<ReconnectAction, Error>(action),
            },
    {
        let policy = self.policy;
        match self.state.after_attempt(&policy, end) {
            ReconnectAction::GiveUp => Err(Error::Timeout("reconnection budget exhausted")),
            action => Ok(action),
        }
    }
}

/// How a session learns whether the other side is alive.
#[derive(Debug, Clone, Copy, PartialEq, Eq, Structural)]
pub enum Heartbeat {
    /// By echoes to the server.
    Echo,
    /// By echoes along a segment-routing path.
    Monitor,
    /// Not at all.
    Silent,
}

/// An open session.
pub struct ConnectedSession {
    pub info: SessionInfo,
    pub cipher: SessionCipher,
    pub sr: Option<SrRuntime>,
    pub running: bool,
    pub close_sent: bool,
}

impl ConnectedSession {
    pub fn info(&self) -> (info: &SessionInfo)
        ensures
            *info == self.info,
    {
        &self.info
    }

    /// Makes the session end when it next looks.
    pub fn shutdown(&mut self)
        ensures
            *final(self) == (ConnectedSession { running: false, ..*old(self) }),
    {
        self.running = false;
    }

    /// Ends the session. Gives the header of the packet that tells the server,
    /// unless it was told already.
    pub fn close(&mut self) -> (packet: Option<PacketHeader>)
        ensures
            *final(self) == (ConnectedSession { running: false, close_sent: true, ..*old(self) }),
            packet == closing(*old(self)),
    {
        self.running = false;
        self.send_close_once()
    }

    fn send_close_once(&mut self) -> (packet: Option<PacketHeader>)
        ensures
            *final(self) == (ConnectedSession { close_sent: true, ..*old(self) }),
            packet == closing(*old(self)),
    {
        if self.close_sent {
            return None;
        }
        self.close_sent = true;
        Some(self.info.header(PacketType::Close))
    }

    /// How this session learns whether the other side is alive.
    pub fn heartbeat(&self) -> (kind: Heartbeat)
        ensures
            kind == match self.sr {
                Some(runtime) => if runtime.keepalive {
                    Heartbeat::Monitor
                } else {
                    Heartbeat::Silent
                },
                None => Heartbeat::Echo,
            },
    {
        match &self.sr {
            Some(runtime) => if runtime.keepalive {
                Heartbeat::Monitor
            } else {
                Heartbeat::Silent
            },
            None => Heartbeat::Echo,
        }
    }

    /// How many bytes a packet of the device may take.
    pub fn read_buffer_size(&self) -> (size: usize)
        ensures
            size == 2 * (if self.info.mtu > 2_048 {
                self.info.mtu as int
            } else {
                2_048
            }) + 64,
    {
        let mtu: usize = self.info.mtu as usize;
        if mtu > 2_048 {
            mtu * 2 + 64
        } else {
            4_160
        }
    }
}

/// The packet that tells the server that a session ends.
pub open spec fn closing(session: ConnectedSession) -> Option<PacketHeader> {
    if session.close_sent {
        None
    } else {
        Some(
            PacketHeader {
                packet_type: PacketType::Close,
                encryption: session.info.encryption,
                session_id: session.info.session_id,
                token: session.info.token,
            },
        )
    }
}

/// The server is told once that a session ends.
pub proof fn law_closes_once(session: ConnectedSession)
    ensures
        closing(ConnectedSession { running: false, close_sent: true, ..session }) is None,
{
}

/// What a read of the device gave.
#[derive(Debug, Clone, Copy)]
pub enum DeviceInput<'a> {
    Packet(&'a [u8]),
    /// Nothing yet.
    Idle,
    /// A signal came in between.
    Interrupted,
    Failed,
}

/// What becomes of what the device gave.
#[derive(Debug)]
pub enum SendStep {
    /// Read again at once.
    Continue,
    /// Read again after a pause.
    Pause,
    /// Send a packet to the server.
    Send(OutboundPacket),
    /// Send a packet along the segment-routing path, numbered for its fragments.
    SendAlongPath { packet: Vec<u8>, fragment_id: u32 },
    /// The session is over.
    Fail(WorkerFailure),
}

impl ConnectedSession {
    /// Decides on what the device gave. Packets that are empty, malformed or too
    /// large are dropped.
    pub fn send_step(&mut self, input: DeviceInput<'_>) -> (step: SendStep)
        ensures
            match input {
                DeviceInput::Idle => step == SendStep::Pause && *final(self) == *old(self),
                DeviceInput::Interrupted => step == SendStep::Continue && *final(self)
                    == *old(self),
                DeviceInput::Failed => step == SendStep::Fail(WorkerFailure::Transport)
                    && *final(self) == *old(self),
                DeviceInput::Packet(bytes) => if bytes@.len() == 0 {
                    step == SendStep::Continue && *final(self) == *old(self)
                } else {
                    match inner_packet(bytes@, None) {
                        Err(_) => step == SendStep::Continue && *final(self) == *old(self),
                        Ok(inner) => match old(self).sr {
                            Some(runtime) => {
                                &&& step matches SendStep::SendAlongPath { packet, fragment_id }
                                &&& packet@ == inner
                                &&& fragment_id == runtime.fragment_id
                                &&& final(self).info == old(self).info
                                &&& final(self).cipher == old(self).cipher
                                &&& final(self).running == old(self).running
                                &&& final(self).close_sent == old(self).close_sent
                                &&& final(self).sr matches Some(after)
                                &&& after.links == runtime.links
                                &&& after.monitor_sr_id == runtime.monitor_sr_id
                                &&& after.keepalive == runtime.keepalive
                                &&& after.fragment_id == if runtime.fragment_id == u32::MAX {
                                    0
                                } else {
                                    runtime.fragment_id + 1
                                }
                            },
                            None => *final(self) == *old(self) && sends(
                                *old(self),
                                inner,
                                step,
                            ),
                        },
                    }
                },
            },
    {
        let bytes = match input {
            DeviceInput::Packet(bytes) => bytes,
            DeviceInput::Idle => {
                return SendStep::Pause;
            },
            DeviceInput::Interrupted => {
                return SendStep::Continue;
            },
            DeviceInput::Failed => {
                return SendStep::Fail(WorkerFailure::Transport);
            },
        };
        if bytes.len() == 0 {
            return SendStep::Continue;
        }
        let inner = match validate_inner_packet(bytes, None) {
            Ok(inner) => inner,
            Err(_) => {
                return SendStep::Continue;
            },
        };
        match &mut self.sr {
            Some(runtime) => {
                let fragment_id: u32 = runtime.next_fragment_id();
                return SendStep::SendAlongPath { packet: slice_to_vec(inner), fragment_id };
            },
            None => {},
        }
        match encode_traditional_data(inner, &self.info, &self.cipher) {
            Ok(outbound) => SendStep::Send(outbound),
            Err(_) => SendStep::Continue,
        }
    }
}

/// How a session without a segment-routing path sends an inner packet: sealed
/// by its method, or not at all where it is larger than the MTU.
pub open spec fn sends(session: ConnectedSession, inner: Seq<u8>, step: SendStep) -> bool {
    if inner.len() > session.info.mtu {
        step == SendStep::Continue
    } else {
        let clear = session.info.encryption == EncryptionMethod::Clear;
        &&& step matches SendStep::Send(outbound)
        &&& outbound.header == (PacketHeader {
            packet_type: if clear {
                PacketType::Data
            } else {
                PacketType::DataEncrypted
            },
            encryption: session.info.encryption,
            session_id: session.info.session_id,
            token: session.info.token,
        })
        &&& outbound.payload@ == if clear {
            inner
        } else {
            session.cipher.encrypted(inner)
        }
        &&& !clear ==> session.cipher.decrypted(outbound.payload@) == Ok::<Seq<u8>, Error>(
            session.cipher.restored(inner),
        )
    }
}

/// A packet that a device gives to one side of a session, cut to the length that
/// it declares, is what the other side hands to its device. Left out are IPv4
/// packets that declare less than a header and arrive as less than one.
pub proof fn law_packet_arrives(
    session: ConnectedSession,
    username: Seq<char>,
    password: Seq<char>,
    bytes: Seq<u8>,
    inner: Seq<u8>,
    step: SendStep,
    packet: DecodedPacket,
    before: StandardReceiver,
    after: StandardReceiver,
    now: u64,
    result: Result<PacketEffect, Error>,
)
    requires
        session.cipher.seals(session.info.encryption, username, password),
        inner_packet(bytes, None) == Ok::<Seq<u8>, Error>(inner),
        given_back(session.info.encryption, inner).len() >= 20,
        sends(session, inner, step),
        step matches SendStep::Send(outbound) && packet.header == outbound.header
            && packet.body@ == outbound.payload@,
        standard_effect(
            before,
            after,
            packet,
            session.cipher.kind(),
            session.cipher.decrypted(packet.body@),
            now,
            result,
        ),
    ensures
        result matches Ok(PacketEffect::Deliver(delivered)) && delivered@ == inner,
{
    let method = session.info.encryption;
    let restored = given_back(method, inner);
    assert(session.cipher.restored(inner) == restored);
    assert(inner == bytes.take(inner.len() as int));
    assert(inner.len() >= 17);
    assert(restored.take(inner.len() as int) =~= inner);
    assert(restored[0] == inner[0] && inner[0] == bytes[0]);
    assert(restored[2] == bytes[2] && restored[3] == bytes[3]);
    assert(restored[4] == bytes[4] && restored[5] == bytes[5]);
    assert(inner_packet(restored, None) == Ok::<Seq<u8>, Error>(inner));
    assert(method == EncryptionMethod::Clear ==> restored == inner);
}

/// What became of waiting for a datagram.
pub enum Datagram {
    /// Nothing yet.
    Idle,
    /// The socket failed.
    Failed,
    /// It is no packet.
    Malformed,
    /// A packet, with its echo where it has one.
    Packet { packet: DecodedPacket, echo: Result<EchoBody, Error> },
    /// A packet on a segment-routing path.
    Segment(Result<SrDecoded, Error>),
}

/// A packet on a segment-routing path, taken apart.
pub enum SrDecoded {
    Data(Vec<u8>),
    Fragment { packet_type: PacketType, fragment: Fragment },
    EchoRequest { sr_id: u32 },
    EchoResponse { tick_micros: u64 },
}

/// What to do about a datagram.
#[derive(Debug)]
pub enum ReceiveStep {
    /// Receive again.
    Continue,
    /// Hand a packet to the device, and then receive again.
    Deliver(Vec<u8>),
    /// Answer an echo under a header, with the body that came, and then receive again.
    AnswerEcho { header: PacketHeader, body: Vec<u8> },
    /// Put a fragment of a segment-routing path to the others.
    Reassemble { packet_type: PacketType, fragment: Fragment },
    /// Answer an echo along the segment-routing path.
    AnswerMonitor,
    /// Take an echo along the segment-routing path into account.
    ObserveMonitor { rtt: u32 },
    End(SessionEnd),
}

/// What a session keeps while it receives.
pub struct Receiver {
    pub packets: StandardReceiver,
    pub heartbeat: HeartbeatTracker,
}

/// What a packet on a segment-routing path asks for.
pub open spec fn sr_step(
    sr: Option<SrRuntime>,
    decoded: Result<SrDecoded, Error>,
    monitored: bool,
    now_micros: u64,
) -> Result<ReceiveStep, Error> {
    match sr {
        None => Err(Error::InvalidSegmentRouting("received SR packet in traditional mode")),
        Some(runtime) => match decoded {
            Err(error) => Err(error),
            Ok(SrDecoded::Data(packet)) => Ok(ReceiveStep::Deliver(packet)),
            Ok(SrDecoded::Fragment { packet_type, fragment }) => Ok(
                ReceiveStep::Reassemble { packet_type, fragment },
            ),
            Ok(SrDecoded::EchoRequest { sr_id }) => if sr_id != runtime.monitor_sr_id {
                Err(Error::InvalidSegmentRouting("SR monitor request has the wrong SR ID"))
            } else {
                Ok(ReceiveStep::AnswerMonitor)
            },
            Ok(SrDecoded::EchoResponse { tick_micros }) => if !monitored {
                Err(
                    Error::InvalidSegmentRouting(
                        "received SR monitor response while monitoring is disabled",
                    ),
                )
            } else {
                match round_trip(tick_micros, now_micros) {
                    None => Err(Error::InvalidSegmentRouting("SR response echoed a future tick")),
                    Some(rtt) => Ok(ReceiveStep::ObserveMonitor { rtt }),
                }
            },
        },
    }
}

impl ConnectedSession {
    /// Decides on a packet on a segment-routing path.
    pub fn process_sr_packet(
        &self,
        decoded: Result<SrDecoded, Error>,
        monitored: bool,
        now_micros: u64,
    ) -> (result: Result<ReceiveStep, Error>)
        ensures
            result == sr_step(self.sr, decoded, monitored, now_micros),
    {
        let runtime = match &self.sr {
            Some(runtime) => runtime,
            None => {
                return Err(
                    Error::InvalidSegmentRouting("received SR packet in traditional mode"),
                );
            },
        };
        match decoded {
            Err(error) => Err(error),
            Ok(SrDecoded::Data(packet)) => Ok(ReceiveStep::Deliver(packet)),
            Ok(SrDecoded::Fragment { packet_type, fragment }) => Ok(
                ReceiveStep::Reassemble { packet_type, fragment },
            ),
            Ok(SrDecoded::EchoRequest { sr_id }) => {
                match crate::client::check_sr_echo_request(sr_id, runtime.monitor_sr_id) {
                    Ok(_) => Ok(ReceiveStep::AnswerMonitor),
                    Err(error) => Err(error),
                }
            },
            Ok(SrDecoded::EchoResponse { tick_micros }) => {
                if !monitored {
                    return Err(
                        Error::InvalidSegmentRouting(
                            "received SR monitor response while monitoring is disabled",
                        ),
                    );
                }
                match sr_echo_round_trip(tick_micros, now_micros) {
                    Ok(rtt) => Ok(ReceiveStep::ObserveMonitor { rtt }),
                    Err(error) => Err(error),
                }
            },
        }
    }
}

/// The step after which a packet that was refused leaves the session: only
/// failures of input and output end it.
pub open spec fn after_refusal(error: Error) -> ReceiveStep {
    match error {
        Error::Io(_) => ReceiveStep::End(SessionEnd::TransportFailure),
        _ => ReceiveStep::Continue,
    }
}

fn refuse(error: Error) -> (step: ReceiveStep)
    ensures
        step == after_refusal(error),
{
    match error {
        Error::Io(_) => ReceiveStep::End(SessionEnd::TransportFailure),
        _ => ReceiveStep::Continue,
    }
}

/// Whether a step is what the effect of a packet of the session calls for.
pub open spec fn packet_step(
    before: HeartbeatTracker,
    after: HeartbeatTracker,
    packet: DecodedPacket,
    echo: Result<EchoBody, Error>,
    effect: Result<PacketEffect, Error>,
    now_micros: u64,
    now: u64,
    step: ReceiveStep,
) -> bool {
    match effect {
        Err(error) => step == after_refusal(error) && after == before,
        Ok(PacketEffect::Deliver(inner)) => after == before && (step matches ReceiveStep::Deliver(
            bytes,
        ) && bytes@ == inner@),
        Ok(PacketEffect::EchoReceived) => match echo {
            Err(error) => step == after_refusal(error) && after == before,
            Ok(body) => step == ReceiveStep::Continue && match round_trip(
                body.tick_micros,
                now_micros,
            ) {
                Some(rtt) => after == observed(before, rtt, now),
                None => after == before,
            },
        },
        Ok(PacketEffect::EchoRequested) => after == before && (step matches ReceiveStep::AnswerEcho {
            header,
            body,
        } && header == packet.header && body@ == packet.body@),
        Ok(PacketEffect::Closed) => after == before && step == ReceiveStep::End(
            SessionEnd::ServerClose,
        ),
        Ok(PacketEffect::Held) | Ok(PacketEffect::Ignored) => after == before && step
            == ReceiveStep::Continue,
    }
}

impl Receiver {
    pub open spec fn wf(&self) -> bool {
        self.packets.wf()
    }

    pub fn new(now: u64) -> (receiver: Self)
        ensures
            receiver.wf(),
            receiver.packets.halves4() == Map::<u32, TraditionalPending>::empty(),
            receiver.packets.halves6() == Map::<u32, TraditionalPending>::empty(),
            receiver.heartbeat == (HeartbeatTracker {
                last_response: now,
                missed: 0,
                current: 0,
                minimum: 0,
                maximum: 0,
            }),
    {
        Receiver { packets: StandardReceiver::new(), heartbeat: HeartbeatTracker::new(now) }
    }

    /// Whether a session is over before it receives again.
    pub fn before_datagram(
        &self,
        session: &ConnectedSession,
        shutdown: bool,
        failure: Option<WorkerFailure>,
    ) -> (end: Option<SessionEnd>)
        ensures
            end == if shutdown || !session.running {
                Some(SessionEnd::LocalShutdown)
            } else {
                match failure {
                    Some(WorkerFailure::HeartbeatTimeout) => Some(SessionEnd::HeartbeatTimeout),
                    Some(WorkerFailure::Transport) => Some(SessionEnd::TransportFailure),
                    None => None,
                }
            },
    {
        receive_gate(shutdown, session.running, failure)
    }

    /// Decides on what became of waiting for a datagram. Packets of other
    /// sessions, malformed ones and ones that are refused are dropped.
    pub fn receive_step(
        &mut self,
        session: &ConnectedSession,
        datagram: Datagram,
        monitored: bool,
        now_micros: u64,
        now: u64,
    ) -> (step: ReceiveStep)
        requires
            old(self).wf(),
        ensures
            final(self).wf(),
            match datagram {
                Datagram::Idle | Datagram::Malformed => step == ReceiveStep::Continue
                    && *final(self) == *old(self),
                Datagram::Failed => step == ReceiveStep::End(SessionEnd::TransportFailure)
                    && *final(self) == *old(self),
                Datagram::Segment(decoded) => *final(self) == *old(self) && step == (
                match sr_step(session.sr, decoded, monitored, now_micros) {
                    Ok(step) => step,
                    Err(error) => after_refusal(error),
                }),
                Datagram::Packet { packet, echo } => if packet.header.session_id
                    != session.info.session_id || packet.header.token != session.info.token {
                    step == ReceiveStep::Continue && *final(self) == *old(self)
                } else {
                    exists|effect: Result<PacketEffect, Error>|
                        {
                            &&& #[trigger] standard_effect(
                                old(self).packets,
                                final(self).packets,
                                packet,
                                session.cipher.kind(),
                                session.cipher.decrypted(packet.body@),
                                now,
                                effect,
                            )
                            &&& packet_step(
                                old(self).heartbeat,
                                final(self).heartbeat,
                                packet,
                                echo,
                                effect,
                                now_micros,
                                now,
                                step,
                            )
                        }
                },
            },
    {
        match datagram {
            Datagram::Idle => ReceiveStep::Continue,
            Datagram::Malformed => ReceiveStep::Continue,
            Datagram::Failed => ReceiveStep::End(SessionEnd::TransportFailure),
            Datagram::Segment(decoded) => match session.process_sr_packet(
                decoded,
                monitored,
                now_micros,
            ) {
                Ok(step) => step,
                Err(error) => refuse(error),
            },
            Datagram::Packet { packet, echo } => {
                if !session.info.owns(&packet.header) {
                    return ReceiveStep::Continue;
                }
                let effect = self.packets.process_standard_packet(&packet, &session.cipher, now);
                let ghost meant = effect;
                assert(standard_effect(
                    old(self).packets,
                    self.packets,
                    packet,
                    session.cipher.kind(),
                    session.cipher.decrypted(packet.body@),
                    now,
                    meant,
                ));
                match effect {
                    Err(error) => refuse(error),
                    Ok(PacketEffect::Deliver(inner)) => ReceiveStep::Deliver(inner),
                    Ok(PacketEffect::EchoReceived) => match echo {
                        Err(error) => refuse(error),
                        Ok(body) => {
                            let _ = observe_echo(
                                &mut self.heartbeat,
                                body.tick_micros,
                                now_micros,
                                now,
                            );
                            ReceiveStep::Continue
                        },
                    },
                    Ok(PacketEffect::EchoRequested) => ReceiveStep::AnswerEcho {
                        header: packet.header,
                        body: packet.body,
                    },
                    Ok(PacketEffect::Closed) => ReceiveStep::End(SessionEnd::ServerClose),
                    Ok(PacketEffect::Held) => ReceiveStep::Continue,
                    Ok(PacketEffect::Ignored) => ReceiveStep::Continue,
                }
            },
        }
    }
}

/// Whether a session is over after a device was given a packet: where it failed,
/// or took only a part.
pub fn after_delivery(written: Result<usize, Error>, length: usize) -> (end: Option<SessionEnd>)
    ensures
        end == match written {
            Ok(count) => if count == length {
                None::<SessionEnd>
            } else {
                Some(SessionEnd::TransportFailure)
            },
            Err(Error::Io(_)) => Some(SessionEnd::TransportFailure),
            Err(_) => None,
        },
{
    let outcome = match written {
        Ok(count) => check_written(count, length),
        Err(error) => Err(error),
    };
    match outcome {
        Ok(_) => None,
        Err(Error::Io(_)) => Some(SessionEnd::TransportFailure),
        Err(_) => None,
    }
}

/// What the heartbeat of a session does when its turn comes.
#[derive(Debug, Clone, Copy, PartialEq, Eq, Structural)]
pub enum HeartbeatStep {
    /// The session ended.
    Stop,
    /// The other side is gone, and the session ends.
    Lost,
    /// Send an echo under a header.
    Send { header: PacketHeader, body: EchoBody },
}

impl Receiver {
    /// Decides on the next heartbeat.
    pub fn heartbeat_step(
        &mut self,
        session: &mut ConnectedSession,
        tick_micros: u64,
        now: u64,
    ) -> (step: HeartbeatStep)
        ensures
            final(self).packets == old(self).packets,
            if !old(session).running {
                step == HeartbeatStep::Stop && *final(session) == *old(session)
                    && final(self).heartbeat == old(self).heartbeat
            } else if heartbeat_lost(old(self).heartbeat, now) {
                step == HeartbeatStep::Lost && *final(session) == (ConnectedSession {
                    running: false,
                    ..*old(session)
                }) && final(self).heartbeat == old(self).heartbeat
            } else {
                &&& *final(session) == *old(session)
                &&& final(self).heartbeat == requested(old(self).heartbeat)
                &&& step == (HeartbeatStep::Send {
                    header: PacketHeader {
                        packet_type: PacketType::EchoRequest,
                        encryption: old(session).info.encryption,
                        session_id: old(session).info.session_id,
                        token: old(session).info.token,
                    },
                    body: EchoBody {
                        tick_micros,
                        stats: EchoDelayStats {
                            current_micros: old(self).heartbeat.current,
                            minimum_micros: old(self).heartbeat.minimum,
                            maximum_micros: old(self).heartbeat.maximum,
                        },
                    },
                })
            },
    {
        if !session.running {
            return HeartbeatStep::Stop;
        }
        if self.heartbeat.timed_out(now) {
            session.shutdown();
            return HeartbeatStep::Lost;
        }
        HeartbeatStep::Send {
            header: session.info.header(PacketType::EchoRequest),
            body: self.heartbeat.request_body(tick_micros),
        }
    }
}

/// Whether the other end of a segment-routing path is gone: it was seen to be
/// down, or was never seen for too long.
pub fn monitor_lost(peer_down: bool, probing: bool, elapsed: u64, limit: u64) -> (answer: bool)
    ensures
        answer == (peer_down || (probing && elapsed > limit)),
{
    peer_down || (probing && elapsed > limit)
}

/// An opening asks for what the settings say, under the number that was drawn, and
/// names the first link of the path, if there is one.
pub proof fn law_open_request(client: Client, nonce: u32, request: OpenRequest)
    requires
        call_ensures(Client::open_request, (&client, nonce), request),
    ensures
        request.nonce == nonce,
        request.username@ == client.login().user() && request.password@ == client.login().secret(),
        request.mtu == client.settings().mtu,
        request.encryption == client.settings().encryption,
        client.settings().segment_routing is None ==> request.first_hop is None,
        client.settings().segment_routing matches Some(path) ==> {
            &&& path.links@.len() == 0 ==> request.first_hop is None
            &&& path.links@.len() > 0 ==> request.first_hop == Some(path.links@[0])
        },
{
}

/// An opening is given thirteen seconds, and a single try three.
pub proof fn law_opening_time(
    client: Client,
    patient: Result<OpenAttempt, Error>,
    single: Result<OpenAttempt, Error>,
)
    requires
        call_ensures(Client::authenticate, (&client,), patient),
        call_ensures(Client::authenticate_once, (&client,), single),
    ensures
        patient matches Ok(attempt) ==> attempt.overall == 13_000_000_000 && attempt.request.nonce
            != 0,
        single matches Ok(attempt) ==> attempt.overall == 3_000_000_000 && attempt.request.nonce
            != 0,
{
}

/// Without a reply that settles it an opening is tried again after a second, as
/// long as its time is not over by then; one that has time for a single try is not.
pub proof fn law_opening_is_tried_again(
    client: Client,
    attempt: OpenAttempt,
    reply: OpenReply,
    peer: SocketAddr,
    elapsed: u64,
    cipher: Result<(), Error>,
    result: Result<OpenProgress, Error>,
)
    requires
        reply.wf(),
        call_ensures(
            Client::open_reply,
            (&client, &attempt, reply, peer, elapsed, cipher),
            result,
        ),
    ensures
        (match reply {
            OpenReply::TimedOut => true,
            OpenReply::Packet { packet, .. } => !(packet.header.packet_type is OpenAck) && !(
            packet.header.packet_type is OpenReject),
            OpenReply::Failed(_) => false,
        }) ==> (if attempt.overall <= 3_000_000_000 || elapsed + 1_000_000_000 >= attempt.overall {
            result == Err::<OpenProgress, Error>(Error::Timeout("authentication"))
        } else {
            result == Ok::<OpenProgress, Error>(OpenProgress::Retry)
        }),
        reply matches OpenReply::Failed(error) ==> result == Err::<OpenProgress, Error>(error),
        (reply matches OpenReply::Packet { packet, .. } && packet.header.packet_type is OpenReject)
            ==> result is Err,
{
}

/// A session that was opened belongs to the acknowledgement: it bears its
/// identifier and token, is with its sender, runs, and seals under the method that
/// was assigned with the key of the login. It follows a path where the settings
/// name one.
pub proof fn law_opened_session(
    client: Client,
    attempt: OpenAttempt,
    packet: DecodedPacket,
    attributes: Vec<Tlv>,
    tails: Vec<Option<Vec<Tlv>>>,
    peer: SocketAddr,
    elapsed: u64,
    cipher: Result<(), Error>,
    session: ConnectedSession,
)
    requires
        packet.header.packet_type is OpenAck,
        call_ensures(
            Client::open_reply,
            (
                &client,
                &attempt,
                OpenReply::Packet { packet, attributes: Ok(attributes), tails },
                peer,
                elapsed,
                cipher,
            ),
            Ok::<OpenProgress, Error>(OpenProgress::Opened(session)),
        ),
    ensures
        session.info.session_id == packet.header.session_id,
        session.info.token == packet.header.token,
        session.info.peer == peer,
        session.running && !session.close_sent,
        session.cipher.kind() == session.info.encryption,
        session.cipher.seals(
            session.info.encryption,
            client.login().user(),
            client.login().secret(),
        ),
        session.sr is Some <==> client.settings().segment_routing is Some,
        session.info.segment_routing <==> client.settings().segment_routing is Some,
        client.settings().segment_routing matches Some(path) ==> {
            let runtime = session.sr->Some_0;
            &&& cipher is Ok
            &&& runtime.links@ == path.links@
            &&& runtime.keepalive == path.keepalive
            &&& runtime.fragment_id != 0
            &&& path.local_sr_id is None || path.local_sr_id == Some(0u32) ==> runtime.monitor_sr_id
                == path.id
            &&& path.local_sr_id is Some && path.local_sr_id != Some(0u32) ==> path.local_sr_id
                == Some(runtime.monitor_sr_id)
        },
{
}

/// The parts of a path are numbered on from each other, and from the highest number
/// back to zero.
pub proof fn law_fragment_numbers(id: u32)
    ensures
        forall|runtime: &mut SrRuntime| #[trigger]
            call_ensures(SrRuntime::next_fragment_id, (runtime,), id) ==> {
                &&& id == (*runtime).fragment_id
                &&& id < 0xffff_ffff ==> (*final(runtime)).fragment_id == id + 1
                &&& id == 0xffff_ffff ==> (*final(runtime)).fragment_id == 0
                &&& (*final(runtime)).links == (*runtime).links
                &&& (*final(runtime)).monitor_sr_id == (*runtime).monitor_sr_id
                &&& (*final(runtime)).keepalive == (*runtime).keepalive
            },
{
}

/// Reconnecting starts with the policy of the settings, no attempt behind it, and
/// the first delay; and it holds to the assignment of a session that is handed over.
pub proof fn law_reconnecting_starts(
    client: Client,
    session: ConnectedSession,
    fresh: Reconnector,
    taken: Reconnector,
)
    requires
        call_ensures(Client::run_reconnecting, (&client,), fresh),
        call_ensures(Client::run_reconnecting_from, (&client, &session), taken),
    ensures
        fresh.policy == client.settings().reconnect && taken.policy == client.settings().reconnect,
        fresh.state.retry == 0 && taken.state.retry == 0,
        fresh.state.delay_ms == client.settings().reconnect.initial_delay_ms,
        taken.state.delay_ms == client.settings().reconnect.initial_delay_ms,
        fresh.expected is None,
        taken.expected matches Some(info) && info.address == session.info.address && info.gateway
            == session.info.gateway && info.mtu == session.info.mtu && info.segment_routing
            == session.info.segment_routing,
{
}

/// A session is taken over where nothing is expected, or the same assignment; and
/// none is opened any more once the program is to end.
pub proof fn law_session_is_allowed(
    holder: Reconnector,
    info: &SessionInfo,
    result: Result<(), Error>,
    shutdown: bool,
    end: Option<SessionEnd>,
)
    requires
        call_ensures(Reconnector::allow, (&holder, info), result),
        call_ensures(Reconnector::before_session, (&holder, shutdown), end),
    ensures
        holder.expected is None ==> result is Ok,
        holder.expected matches Some(first) ==> (result is Ok <==> first.address == info.address
            && first.gateway == info.gateway && first.mtu == info.mtu && first.segment_routing
            == info.segment_routing),
        shutdown ==> end == Some(SessionEnd::LocalShutdown),
        !shutdown ==> end is None,
{
}

/// After a session the holder waits and tries again, ends, or gives up, and counts
/// on.
pub proof fn law_after_session(end: AttemptEnd, result: Result<ReconnectAction, Error>)
    ensures
        forall|holder: &mut Reconnector| #[trigger]
            call_ensures(Reconnector::after_session, (holder, end), result) ==> {
                let held = end matches AttemptEnd::Ended(_, lasted) && lasted >= 20_000_000_000;
                let over = end matches AttemptEnd::Ended(why, _) && (why is LocalShutdown
                    || why is ServerClose);
                let retry = if held {
                    0
                } else {
                    (*holder).state.retry
                };
                let delay = if held {
                    (*holder).policy.initial_delay_ms
                } else {
                    (*holder).state.delay_ms
                };
                &&& over ==> result == Ok::<ReconnectAction, Error>(
                    ReconnectAction::Return(end->Ended_0),
                )
                &&& !over && retry >= (*holder).policy.attempts ==> result == Err::<
                    ReconnectAction,
                    Error,
                >(Error::Timeout("reconnection budget exhausted"))
                &&& !over && retry < (*holder).policy.attempts ==> result == Ok::<
                    ReconnectAction,
                    Error,
                >(ReconnectAction::WaitMillis(delay)) && (*final(holder)).state.retry == retry + 1
                &&& (*final(holder)).policy == (*holder).policy
                &&& (*final(holder)).expected == (*holder).expected
            },
{
}

/// A session says farewell once, when it is closed first, with its identifier and
/// token, and does not run any more.
pub proof fn law_farewell(packet: Option<PacketHeader>)
    ensures
        forall|session: &mut ConnectedSession| #[trigger]
            call_ensures(ConnectedSession::close, (session,), packet) ==> {
                &&& !(*final(session)).running && (*final(session)).close_sent
                &&& packet is Some <==> !(*session).close_sent
                &&& packet matches Some(header) ==> header.packet_type is Close
                    && header.session_id == (*session).info.session_id && header.token
                    == (*session).info.token && header.encryption == (*session).info.encryption
            },
        forall|session: &mut ConnectedSession| #[trigger]
            call_ensures(ConnectedSession::shutdown, (session,), ()) ==> !(*final(session)).running
                && (*final(session)).close_sent == (*session).close_sent,
{
}

/// What keeps a session alive: echoes without a path, and on a path its monitor
/// where that is wanted.
pub proof fn law_kind_of_heartbeat(session: ConnectedSession, kind: Heartbeat, size: usize)
    requires
        call_ensures(ConnectedSession::heartbeat, (&session,), kind),
        call_ensures(ConnectedSession::read_buffer_size, (&session,), size),
    ensures
        kind is Echo <==> session.sr is None,
        kind is Monitor <==> (session.sr matches Some(runtime) && runtime.keepalive),
        session.info.mtu <= 2048 ==> size == 4160,
        session.info.mtu >= 2048 ==> size == 2 * session.info.mtu + 64,
{
}

/// What is read from the device: a packet of a session without a path goes out,
/// clear or sealed as the session is, cut to its declared length; what is no packet,
/// and what is longer than the MTU, is passed over.
pub proof fn law_sent_packets(bytes: &[u8], step: SendStep, length: int)
    ensures
        forall|session: &mut ConnectedSession| #[trigger]
            call_ensures(ConnectedSession::send_step, (session, DeviceInput::Packet(bytes)), step)
                && (*session).sr is None ==> {
                let b = bytes@;
                let four = b.len() >= 20 && 0x40 <= b[0] <= 0x4f && length == b[2] * 256 + b[3];
                let six = b.len() >= 40 && 0x60 <= b[0] <= 0x6f && length == 40 + b[4] * 256
                    + b[5];
                let whole = (four || six) && 0 < length <= b.len();
                &&& whole && length <= (*session).info.mtu ==> {
                    &&& step matches SendStep::Send(outbound)
                    &&& outbound.header.session_id == (*session).info.session_id
                    &&& outbound.header.token == (*session).info.token
                    &&& outbound.header.encryption == (*session).info.encryption
                    &&& (*session).info.encryption is Clear ==> outbound.header.packet_type is Data
                        && outbound.payload@ == b.take(length)
                    &&& !((*session).info.encryption is Clear)
                        ==> outbound.header.packet_type is DataEncrypted && outbound.payload@
                        == (*session).cipher.encrypted(b.take(length))
                }
                &&& whole && length > (*session).info.mtu ==> step is Continue
                &&& b.len() == 0 || b[0] < 0x40 || 0x4f < b[0] < 0x60 || b[0] > 0x6f
                    ==> step is Continue
                &&& *final(session) == *session
            },
{
}

/// On a path a packet goes along it whatever its length, under the next number; and
/// the device's other signs neither send nor change anything.
pub proof fn law_sent_along_path(bytes: &[u8], step: SendStep, length: int)
    ensures
        forall|session: &mut ConnectedSession| #[trigger]
            call_ensures(ConnectedSession::send_step, (session, DeviceInput::Packet(bytes)), step)
                && (*session).sr is Some && bytes@.len() >= 20 && 0x40 <= bytes@[0] <= 0x4f
                && length == bytes@[2] * 256 + bytes@[3] && 0 < length <= bytes@.len() ==> {
                &&& step matches SendStep::SendAlongPath { packet, fragment_id }
                &&& packet@ == bytes@.take(length)
                &&& fragment_id == (*session).sr->Some_0.fragment_id
            },
        forall|session: &mut ConnectedSession| #[trigger]
            call_ensures(ConnectedSession::send_step, (session, DeviceInput::Idle), step)
                ==> step is Pause && *final(session) == *session,
        forall|session: &mut ConnectedSession| #[trigger]
            call_ensures(ConnectedSession::send_step, (session, DeviceInput::Interrupted), step)
                ==> step is Continue && *final(session) == *session,
        forall|session: &mut ConnectedSession| #[trigger]
            call_ensures(ConnectedSession::send_step, (session, DeviceInput::Failed), step)
                ==> step == SendStep::Fail(WorkerFailure::Transport),
{
}

/// What comes along a path: nothing is taken in a session without one; a packet is
/// delivered, a part kept, a request of the path's monitor answered, and a response
/// noted where the path is watched and the request lies in the past.
pub proof fn law_path_packets(
    session: ConnectedSession,
    decoded: Result<SrDecoded, Error>,
    monitored: bool,
    now_micros: u64,
    result: Result<ReceiveStep, Error>,
)
    requires
        call_ensures(
            ConnectedSession::process_sr_packet,
            (&session, decoded, monitored, now_micros),
            result,
        ),
    ensures
        session.sr is None ==> result matches Err(Error::InvalidSegmentRouting(_)),
        session.sr matches Some(runtime) ==> match decoded {
            Err(error) => result == Err::<ReceiveStep, Error>(error),
            Ok(SrDecoded::Data(packet)) => result == Ok::<ReceiveStep, Error>(
                ReceiveStep::Deliver(packet),
            ),
            Ok(SrDecoded::Fragment { packet_type, fragment }) => result == Ok::<
                ReceiveStep,
                Error,
            >(ReceiveStep::Reassemble { packet_type, fragment }),
            Ok(SrDecoded::EchoRequest { sr_id }) => {
                &&& sr_id == runtime.monitor_sr_id ==> result == Ok::<ReceiveStep, Error>(
                    ReceiveStep::AnswerMonitor,
                )
                &&& sr_id != runtime.monitor_sr_id ==> result is Err
            },
            Ok(SrDecoded::EchoResponse { tick_micros }) => {
                &&& result is Ok <==> monitored && tick_micros <= now_micros
                &&& monitored && tick_micros <= now_micros && now_micros - tick_micros
                    <= 0xffff_ffff ==> result == Ok::<ReceiveStep, Error>(
                    ReceiveStep::ObserveMonitor { rtt: (now_micros - tick_micros) as u32 },
                )
            },
        },
{
}

/// A packet of another session is passed over; a broken connection ends the
/// session, and silence or what cannot be read does not.
pub proof fn law_received_datagrams(
    session: ConnectedSession,
    datagram: Datagram,
    monitored: bool,
    now_micros: u64,
    now: u64,
    step: ReceiveStep,
)
    ensures
        forall|receiver: &mut Receiver|
            (*receiver).wf() && #[trigger] call_ensures(
                Receiver::receive_step,
                (receiver, &session, datagram, monitored, now_micros, now),
                step,
            ) ==> {
                &&& datagram is Idle || datagram is Malformed ==> step is Continue
                    && *final(receiver) == *receiver
                &&& datagram is Failed ==> step == ReceiveStep::End(SessionEnd::TransportFailure)
                &&& datagram matches Datagram::Packet { packet, .. } ==> {
                    &&& packet.header.session_id != session.info.session_id
                        || packet.header.token != session.info.token ==> step is Continue
                        && *final(receiver) == *receiver
                    &&& packet.header.session_id == session.info.session_id && packet.header.token
                        == session.info.token ==> {
                        &&& packet.header.packet_type is Close ==> step == ReceiveStep::End(
                            SessionEnd::ServerClose,
                        )
                        &&& packet.header.packet_type is EchoRequest ==> (
                        step matches ReceiveStep::AnswerEcho { header, body } && header
                            == packet.header && body@ == packet.body@)
                        &&& packet.header.packet_type is OpenAck ==> step is Continue
                    }
                }
            },
{
}

/// An echo that comes back is noted with the time that it took: the shortest and the
/// longest time are kept, and the requests without an answer counted anew.
pub proof fn law_received_echo(
    session: ConnectedSession,
    packet: DecodedPacket,
    body: EchoBody,
    monitored: bool,
    now_micros: u64,
    now: u64,
    step: ReceiveStep,
)
    requires
        packet.header.packet_type is EchoResponse,
        packet.header.session_id == session.info.session_id,
        packet.header.token == session.info.token,
        body.tick_micros <= now_micros,
        now_micros - body.tick_micros <= 0xffff_ffff,
    ensures
        forall|receiver: &mut Receiver|
            (*receiver).wf() && #[trigger] call_ensures(
                Receiver::receive_step,
                (
                    receiver,
                    &session,
                    Datagram::Packet { packet, echo: Ok(body) },
                    monitored,
                    now_micros,
                    now,
                ),
                step,
            ) ==> {
                &&& step is Continue
                &&& (*final(receiver)).heartbeat.missed == 0
                &&& (*final(receiver)).heartbeat.last_response == now
                &&& (*final(receiver)).heartbeat.current == now_micros - body.tick_micros
            },
{
}

/// Writing a packet to the device ends the session where it fails or falls short,
/// and only there.
pub proof fn law_delivery(written: Result<usize, Error>, length: usize, end: Option<SessionEnd>)
    requires
        call_ensures(after_delivery, (written, length), end),
    ensures
        written == Ok::<usize, Error>(length) ==> end is None,
        (written matches Ok(count) && count != length) ==> end == Some(
            SessionEnd::TransportFailure,
        ),
        (written matches Err(Error::Io(_))) ==> end == Some(SessionEnd::TransportFailure),
        written is Err && !(written matches Err(Error::Io(_))) ==> end is None,
{
}

/// A session that runs sends an echo, with the delays that it knows, and counts it;
/// after ten without an answer, or twenty seconds without one, it is lost and stops.
pub proof fn law_heartbeat_step(tick_micros: u64, now: u64, step: HeartbeatStep)
    ensures
        forall|receiver: &mut Receiver, session: &mut ConnectedSession| #[trigger]
            call_ensures(Receiver::heartbeat_step, (receiver, session, tick_micros, now), step)
                ==> {
                let lost = (*receiver).heartbeat.missed >= 10 || now
                    > (*receiver).heartbeat.last_response + 20_000_000_000;
                &&& step is Stop <==> !(*session).running
                &&& step is Lost <==> (*session).running && lost
                &&& step is Lost ==> !(*final(session)).running
                &&& !(step is Lost) ==> (*final(session)).running == (*session).running
                &&& step matches HeartbeatStep::Send { header, body } ==> {
                    &&& header.packet_type is EchoRequest
                    &&& header.session_id == (*session).info.session_id
                    &&& header.token == (*session).info.token
                    &&& body.tick_micros == tick_micros
                    &&& body.stats.current_micros == (*receiver).heartbeat.current
                    &&& body.stats.minimum_micros == (*receiver).heartbeat.minimum
                    &&& body.stats.maximum_micros == (*receiver).heartbeat.maximum
                    &&& (*final(receiver)).heartbeat.missed == (*receiver).heartbeat.missed + 1
                }
            },
{
}

/// A path is lost where its peer says so, or a probe has waited too long.
pub proof fn law_path_is_lost(
    peer_down: bool,
    probing: bool,
    elapsed: u64,
    limit: u64,
    answer: bool,
)
    requires
        call_ensures(monitor_lost, (peer_down, probing, elapsed, limit), answer),
    ensures
        peer_down ==> answer,
        !peer_down && !probing ==> !answer,
        !peer_down && probing ==> (answer <==> elapsed > limit),
{
}

/// What a session receives in the clear goes to the device, cut to the length that
/// it declares: IPv6 that comes as such, and either version otherwise. IPv4 that
/// comes as IPv6 does not.
pub proof fn law_received_packets(
    session: ConnectedSession,
    packet: DecodedPacket,
    echo: Result<EchoBody, Error>,
    monitored: bool,
    now_micros: u64,
    now: u64,
    step: ReceiveStep,
    length: int,
)
    requires
        packet.header.session_id == session.info.session_id,
        packet.header.token == session.info.token,
        packet.header.encryption is Clear,
    ensures
        forall|receiver: &mut Receiver|
            (*receiver).wf() && #[trigger] call_ensures(
                Receiver::receive_step,
                (
                    receiver,
                    &session,
                    Datagram::Packet { packet, echo },
                    monitored,
                    now_micros,
                    now,
                ),
                step,
            ) ==> {
                let b = packet.body@;
                let four = b.len() >= 20 && 0x40 <= b[0] <= 0x4f && length == b[2] * 256 + b[3] && 0
                    < length <= b.len();
                let six = b.len() >= 40 && 0x60 <= b[0] <= 0x6f && length == 40 + b[4] * 256 + b[5]
                    && length <= b.len();
                &&& packet.header.packet_type is DataIpv6 && six ==> (
                step matches ReceiveStep::Deliver(inner) && inner@ == b.take(length))
                &&& packet.header.packet_type is DataIpv6 && four ==> step is Continue
                &&& (packet.header.packet_type is Data || packet.header.packet_type is DataDup) && (
                four || six) ==> (step matches ReceiveStep::Deliver(inner) && inner@ == b.take(
                    length,
                ))
                &&& (packet.header.packet_type is DataEncrypted
                    || packet.header.packet_type is DataEncryptedDup) && !(
                session.cipher.kind() is Clear) ==> !(step is Deliver)
            },
{
}

/// A session ends before the next datagram where it was told to, where it does not
/// run any more, or where a worker failed.
pub proof fn law_before_datagram(
    receiver: Receiver,
    session: &ConnectedSession,
    shutdown: bool,
    failure: Option<WorkerFailure>,
    end: Option<SessionEnd>,
)
    requires
        call_ensures(Receiver::before_datagram, (&receiver, session, shutdown, failure), end),
    ensures
        shutdown || !session.running ==> end == Some(SessionEnd::LocalShutdown),
        !shutdown && session.running && failure is None ==> end is None,
        !shutdown && session.running && failure == Some(WorkerFailure::HeartbeatTimeout) ==> end
            == Some(SessionEnd::HeartbeatTimeout),
        !shutdown && session.running && failure == Some(WorkerFailure::Transport) ==> end == Some(
            SessionEnd::TransportFailure,
        ),
{
}

/// An acknowledgement that proves its origin, or does not speak of it, opens the
/// session, unless a path cannot be set up.
pub proof fn law_acknowledgement_opens(
    client: Client,
    attempt: OpenAttempt,
    packet: DecodedPacket,
    attributes: Vec<Tlv>,
    tails: Vec<Option<Vec<Tlv>>>,
    peer: SocketAddr,
    elapsed: u64,
    cipher: Result<(), Error>,
    result: Result<OpenProgress, Error>,
)
    requires
        packet.header.packet_type is OpenAck,
        client.settings().segment_routing is None,
        call_ensures(
            Client::open_reply,
            (
                &client,
                &attempt,
                OpenReply::Packet { packet, attributes: Ok(attributes), tails },
                peer,
                elapsed,
                cipher,
            ),
            result,
        ),
    ensures
        result is Ok <==> ack_error(attributes@, attempt.request.nonce) is None,
        result is Ok ==> result->Ok_0 is Opened,
{
}

/// A path runs with the links and the monitor of its settings, once its cipher can be
/// made.
pub proof fn law_path_runs(
    config: &SegmentRoutingConfig,
    cipher: Result<(), Error>,
    result: Result<SrRuntime, Error>,
)
    requires
        call_ensures(SrRuntime::new, (config, cipher), result),
    ensures
        cipher matches Err(reason) ==> result == Err::<SrRuntime, Error>(reason),
        result matches Ok(runtime) ==> {
            &&& cipher is Ok
            &&& runtime.links@ == config.links@ && runtime.keepalive == config.keepalive
            &&& runtime.fragment_id != 0
            &&& config.local_sr_id is None ==> runtime.monitor_sr_id == config.id
        },
{
}

} // verus!
