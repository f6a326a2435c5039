//! Sessions: opening, keeping alive, receiving and reconnecting.
//!
//! Sockets and threads belong to whoever drives a session; here stand the
//! decisions. Points in time are nanoseconds on a monotonic clock.

use crate::config::{ClientConfig, ReconnectPolicy, MAX_MTU, MIN_MTU};
use crate::config::is_validation;
use crate::crypto::DataCipher;
use crate::error::{invalid_config, Error};
use crate::error::is_invalid_config;
use crate::fragment::{trim_ip_packet, Fragment, TraditionalFragmentReassembler};
use crate::fragment::{
    packet_view, parse_error, parsed, traditional_step, trimmed, FragmentIdEndian,
    TraditionalPending,
};
use crate::net::{ip_text, IpAddr, SocketAddr};
use crate::net::ip_chars;
use crate::protocol::{
    find_tlv, DecodedPacket, EchoBody, EchoDelayStats, EncryptionMethod, PacketHeader, PacketType,
    Tlv, TlvType,
};
use crate::protocol::first_of_kind;
use crate::text::{chars_of, contains, join3, push_decimal, push_text, trim_text};
use crate::text::{contains_text, decimal};
use vstd::prelude::*;
use vstd::slice::{slice_subrange, slice_to_vec};
use vstd::utf8::{decode_utf8, valid_utf8};

verus! {

pub const AUTH_ATTEMPT_TIMEOUT_NS: u64 = 3_000_000_000;

pub const AUTH_OVERALL_TIMEOUT_NS: u64 = 13_000_000_000;

pub const AUTH_RETRY_DELAY_NS: u64 = 1_000_000_000;

pub const HEARTBEAT_INTERVAL_NS: u64 = 2_000_000_000;

pub const HEARTBEAT_TIMEOUT_NS: u64 = 20_000_000_000;

pub const HEARTBEAT_MAX_MISSES: u32 = 10;

pub const MAX_NAP_NS: u64 = 100_000_000;

/// Where packets of the tunnel come from and go to.
pub trait PacketDevice {
    fn name(&self) -> &str;

    /// Prepares the device for a session. A device that needs no preparation
    /// keeps this.
    fn activate_session(&self, session: &SessionInfo) -> Result<(), Error> {
        Ok(())
    }

    /// Undoes what was prepared for a session.
    fn deactivate_session(&self) -> Result<(), Error> {
        Ok(())
    }

    fn read_packet(&self, buffer: &mut [u8]) -> Result<usize, Error>;

    fn write_packet(&self, packet: &[u8]) -> Result<usize, Error>;
}

/// What a session was assigned.
#[derive(Debug, Clone)]
pub struct SessionInfo {
    pub peer: SocketAddr,
    pub session_id: u16,
    pub token: u32,
    pub encryption: EncryptionMethod,
    pub mtu: u16,
    pub address: Option<IpAddr>,
    pub gateway: Option<IpAddr>,
    pub dns_servers: Vec<IpAddr>,
    pub segment_routing: bool,
}

impl SessionInfo {
    pub fn header(&self, packet_type: PacketType) -> (header: PacketHeader)
        ensures
            header == (PacketHeader {
                packet_type,
                encryption: self.encryption,
                session_id: self.session_id,
                token: self.token,
            }),
    {
        PacketHeader::new(packet_type, self.encryption, self.session_id, self.token)
    }

    /// Whether a packet belongs to this session.
    pub fn owns(&self, header: &PacketHeader) -> (answer: bool)
        ensures
            answer == (header.session_id == self.session_id && header.token == self.token),
    {
        header.session_id == self.session_id && header.token == self.token
    }
}

/// How a session ended.
#[derive(Debug, Clone, Copy, PartialEq, Eq, Structural)]
pub enum SessionEnd {
    LocalShutdown,
    ServerClose,
    HeartbeatTimeout,
    TransportFailure,
}

/// Who logs in.
pub struct Credentials {
    username: String,
    password: String,
}

impl Credentials {
    pub closed spec fn user(&self) -> Seq<char> {
        self.username@
    }

    pub closed spec fn secret(&self) -> Seq<char> {
        self.password@
    }

    pub fn username(&self) -> (name: &str)
        ensures
            name@ == self.user(),
    {
        self.username.as_str()
    }

    pub fn password(&self) -> (secret: &str)
        ensures
            secret@ == self.secret(),
    {
        self.password.as_str()
    }

    /// What a description shows: the user name, and a placeholder for the password.
    pub open spec fn shown(&self) -> Seq<char> {
        "Credentials { username: "@ + crate::text::quoted_text(self.user())
            + ", password: \"[REDACTED]\" }"@
    }

    /// A description that leaves the password out.
    pub fn debug_string(&self) -> (text: String)
        ensures
            text@ == self.shown(),
    {
        let shown = crate::text::quoted(&self.username);
        join3("Credentials { username: ", &shown, ", password: \"[REDACTED]\" }")
    }
}

/// Settings and credentials that were found to fit together.
pub struct Client {
    config: ClientConfig,
    credentials: Credentials,
}

impl Client {
    pub closed spec fn settings(&self) -> ClientConfig {
        self.config
    }

    pub closed spec fn login(&self) -> Credentials {
        self.credentials
    }

    /// Takes settings that can be used. `cipher` is what became of making the
    /// outer cipher of the segment-routing path, where there is one, and `found`
    /// what became of looking the server up.
    pub fn new(
        config: ClientConfig,
        username: &str,
        password: &str,
        cipher: Result<(), Error>,
        found: Result<Vec<SocketAddr>, Error>,
    ) -> (result: Result<Self, Error>)
        ensures
            match result {
                Ok(client) => {
                    &&& is_validation(config, cipher, found, Ok::<(), Error>(()))
                    &&& client.settings() == config
                    &&& client.login().user() == username@
                    &&& client.login().secret() == password@
                },
                Err(error) => is_validation(config, cipher, found, Err::<(), Error>(error)),
            },
    {
        let credentials = Credentials {
            username: username.to_owned(),
            password: password.to_owned(),
        };
        match config.validate(cipher, found) {
            Ok(_) => Ok(Client { config, credentials }),
            Err(error) => Err(error),
        }
    }

    pub fn config(&self) -> (config: &ClientConfig)
        ensures
            *config == self.settings(),
    {
        &self.config
    }

    pub fn credentials(&self) -> (credentials: &Credentials)
        ensures
            *credentials == self.login(),
    {
        &self.credentials
    }

    /// A description that leaves the password and the key of a path out.
    pub fn debug_string(&self) -> (text: String)
        ensures
            text@ == "Client { config: "@ + self.settings().shown() + ", credentials: "@
                + self.login().shown() + " }"@,
    {
        let config = self.config.debug_string();
        let login = self.credentials.debug_string();
        let start = join3("Client { config: ", &config, ", credentials: ");
        join3(&start, &login, " }")
    }
}

/// Whether no further attempt fits in the time for opening a session.
pub open spec fn open_budget_spent(elapsed: u64, overall: u64) -> bool {
    overall <= AUTH_ATTEMPT_TIMEOUT_NS || elapsed + AUTH_RETRY_DELAY_NS >= overall
}

/// How one attempt to hold a session ended.
#[derive(Debug, Clone, Copy, PartialEq, Eq, Structural)]
pub enum AttemptEnd {
    /// The session ran for some nanoseconds and ended.
    Ended(SessionEnd, u64),
    /// No session came about, or it failed.
    Failed,
}

/// What to do after an attempt.
#[derive(Debug, Clone, Copy, PartialEq, Eq, Structural)]
pub enum ReconnectAction {
    Return(SessionEnd),
    GiveUp,
    WaitMillis(u64),
}

/// How many attempts failed in a row and how long the next wait is.
#[derive(Debug, Clone, Copy, PartialEq, Eq, Structural)]
pub struct ReconnectState {
    pub retry: u32,
    pub delay_ms: u64,
}

/// The state of a client that has not failed yet.
pub open spec fn fresh_reconnect(policy: ReconnectPolicy) -> ReconnectState {
    ReconnectState { retry: 0, delay_ms: policy.initial_delay_ms }
}

/// Twice a delay, but no more than the longest one.
pub open spec fn doubled(delay_ms: u64, policy: ReconnectPolicy) -> u64 {
    if 2 * delay_ms <= policy.max_delay_ms {
        (2 * delay_ms) as u64
    } else {
        policy.max_delay_ms
    }
}

/// The state from which an attempt's end is judged: a session that lasted
/// starts the count over.
pub open spec fn settled(
    state: ReconnectState,
    policy: ReconnectPolicy,
    end: AttemptEnd,
) -> ReconnectState {
    match end {
        AttemptEnd::Ended(_, lasted) => if lasted >= HEARTBEAT_TIMEOUT_NS {
            fresh_reconnect(policy)
        } else {
            state
        },
        AttemptEnd::Failed => state,
    }
}

/// What follows an attempt: shutdowns and closings end it all, and other ends
/// are tried again while attempts are left.
pub open spec fn reconnect_step(
    state: ReconnectState,
    policy: ReconnectPolicy,
    end: AttemptEnd,
) -> (ReconnectState, ReconnectAction) {
    let base = settled(state, policy, end);
    match end {
        AttemptEnd::Ended(SessionEnd::LocalShutdown, _) => (
            state,
            ReconnectAction::Return(SessionEnd::LocalShutdown),
        ),
        AttemptEnd::Ended(SessionEnd::ServerClose, _) => (
            state,
            ReconnectAction::Return(SessionEnd::ServerClose),
        ),
        _ => if base.retry >= policy.attempts {
            (base, ReconnectAction::GiveUp)
        } else {
            (
                ReconnectState {
                    retry: (base.retry + 1) as u32,
                    delay_ms: doubled(base.delay_ms, policy),
                },
                ReconnectAction::WaitMillis(base.delay_ms),
            )
        },
    }
}

impl ReconnectState {
    pub fn new(policy: &ReconnectPolicy) -> (state: Self)
        ensures
            state == fresh_reconnect(*policy),
    {
        ReconnectState { retry: 0, delay_ms: policy.initial_delay_ms }
    }

    pub fn after_attempt(&mut self, policy: &ReconnectPolicy, end: AttemptEnd) -> (action:
        ReconnectAction)
        ensures
            (*final(self), action) == reconnect_step(*old(self), *policy, end),
    {
        match end {
            AttemptEnd::Ended(SessionEnd::LocalShutdown, _) => {
                return ReconnectAction::Return(SessionEnd::LocalShutdown);
            },
            AttemptEnd::Ended(SessionEnd::ServerClose, _) => {
                return ReconnectAction::Return(SessionEnd::ServerClose);
            },
            AttemptEnd::Ended(_, lasted) => {
                if lasted >= HEARTBEAT_TIMEOUT_NS {
                    self.retry = 0;
                    self.delay_ms = policy.initial_delay_ms;
                }
            },
            AttemptEnd::Failed => {},
        }
        if self.retry >= policy.attempts {
            return ReconnectAction::GiveUp;
        }
        let wait: u64 = self.delay_ms;
        self.retry = self.retry + 1;
        self.delay_ms = if wait <= policy.max_delay_ms / 2 {
            wait * 2
        } else {
            policy.max_delay_ms
        };
        ReconnectAction::WaitMillis(wait)
    }
}

/// The state after failing a number of times in a row.
pub open spec fn after_failures(policy: ReconnectPolicy, count: nat) -> ReconnectState
    decreases count,
{
    if count == 0 {
        fresh_reconnect(policy)
    } else {
        reconnect_step(
            after_failures(policy, (count - 1) as nat),
            policy,
            AttemptEnd::Failed,
        ).0
    }
}

/// With a valid policy no wait is longer than the longest one, and none is
/// shorter than the one before it.
pub proof fn law_delays_grow_to_a_limit(policy: ReconnectPolicy, state: ReconnectState)
    requires
        policy.initial_delay_ms <= policy.max_delay_ms,
        state.delay_ms <= policy.max_delay_ms,
    ensures
        forall|end: AttemptEnd|
            (#[trigger] reconnect_step(state, policy, end)).0.delay_ms <= policy.max_delay_ms
                && (reconnect_step(state, policy, end).1 matches ReconnectAction::WaitMillis(wait)
                ==> wait <= policy.max_delay_ms && wait <= reconnect_step(
                state,
                policy,
                end,
            ).0.delay_ms),
{
}

/// A client that only fails waits exactly as often as the policy allows attempts, then gives up.
pub proof fn law_attempts_are_bounded(policy: ReconnectPolicy, count: nat)
    requires
        count <= policy.attempts,
    ensures
        after_failures(policy, count).retry == count,
        count < policy.attempts ==> reconnect_step(
            after_failures(policy, count),
            policy,
            AttemptEnd::Failed,
        ).1 is WaitMillis,
        count == policy.attempts ==> reconnect_step(
            after_failures(policy, count),
            policy,
            AttemptEnd::Failed,
        ).1 == ReconnectAction::GiveUp,
    decreases count,
{
    if count > 0 {
        law_attempts_are_bounded(policy, (count - 1) as nat);
    }
}

/// Whether two sessions were assigned the same tunnel.
pub open spec fn same_assignment(expected: SessionInfo, actual: SessionInfo) -> bool {
    expected.address == actual.address && expected.gateway == actual.gateway && expected.mtu
        == actual.mtu && expected.segment_routing == actual.segment_routing
}

/// An optional address as it is shown in messages.
pub open spec fn shown_address(address: Option<IpAddr>) -> Seq<char> {
    match address {
        Some(ip) => "Some("@ + ip_chars(ip) + ")"@,
        None => "None"@,
    }
}

/// A truth value as it is shown in messages.
pub open spec fn shown_bool(value: bool) -> Seq<char> {
    if value {
        "true"@
    } else {
        "false"@
    }
}

/// An assignment as it is shown in messages.
pub open spec fn shown_assignment(info: SessionInfo) -> Seq<char> {
    " address="@ + shown_address(info.address) + ", gateway="@ + shown_address(info.gateway)
        + ", mtu="@ + decimal(info.mtu as nat) + ", sr="@ + shown_bool(info.segment_routing)
}

fn push_address(out: &mut String, address: Option<IpAddr>)
    ensures
        final(out)@ == old(out)@ + shown_address(address),
{
    match address {
        Some(ip) => {
            push_text(out, "Some(");
            let text = ip_text(ip);
            push_text(out, &text);
            push_text(out, ")");
            assert(out@ =~= old(out)@ + shown_address(address));
        },
        None => push_text(out, "None"),
    }
}

fn push_assignment(out: &mut String, info: &SessionInfo)
    ensures
        final(out)@ == old(out)@ + shown_assignment(*info),
{
    push_text(out, " address=");
    push_address(out, info.address);
    push_text(out, ", gateway=");
    push_address(out, info.gateway);
    push_text(out, ", mtu=");
    push_decimal(out, info.mtu as u64);
    push_text(out, ", sr=");
    if info.segment_routing {
        push_text(out, "true");
    } else {
        push_text(out, "false");
    }
    assert(out@ =~= old(out)@ + shown_assignment(*info));
}

fn same_ip(left: Option<IpAddr>, right: Option<IpAddr>) -> (same: bool)
    ensures
        same == (left == right),
{
    match (left, right) {
        (Some(a), Some(b)) => a == b,
        (None, None) => true,
        _ => false,
    }
}

/// Refuses a session whose tunnel differs from the first one's.
pub fn ensure_same_tun_assignment(expected: &SessionInfo, actual: &SessionInfo) -> (result: Result<
    (),
    Error,
>)
    ensures
        match result {
            Ok(_) => same_assignment(*expected, *actual),
            Err(error) => !same_assignment(*expected, *actual) && is_invalid_config(
                error,
                "server changed the tunnel assignment during reconnection: expected"@
                    + shown_assignment(*expected) + "; received"@ + shown_assignment(*actual),
            ),
        },
{
    if same_ip(expected.address, actual.address) && same_ip(expected.gateway, actual.gateway)
        && expected.mtu == actual.mtu && expected.segment_routing == actual.segment_routing {
        return Ok(());
    }
    let mut message = String::new();
    push_text(&mut message, "server changed the tunnel assignment during reconnection: expected");
    push_assignment(&mut message, expected);
    push_text(&mut message, "; received");
    push_assignment(&mut message, actual);
    assert(message@ =~= "server changed the tunnel assignment during reconnection: expected"@
        + shown_assignment(*expected) + "; received"@ + shown_assignment(*actual));
    Err(Error::InvalidConfig(message))
}

/// How the other side answers echoes.
#[derive(Debug, Clone, Copy, PartialEq, Eq, Structural)]
pub struct HeartbeatTracker {
    pub last_response: u64,
    pub missed: u32,
    pub current: u32,
    pub minimum: u32,
    pub maximum: u32,
}

pub open spec fn heartbeat_lost(tracker: HeartbeatTracker, now: u64) -> bool {
    tracker.missed >= HEARTBEAT_MAX_MISSES || now - tracker.last_response > HEARTBEAT_TIMEOUT_NS
}

/// The tracker after a response with some round-trip time. A minimum of zero counts as unset.
pub open spec fn observed(tracker: HeartbeatTracker, rtt: u32, now: u64) -> HeartbeatTracker {
    HeartbeatTracker {
        last_response: now,
        missed: 0,
        current: rtt,
        minimum: if tracker.minimum == 0 || rtt < tracker.minimum {
            rtt
        } else {
            tracker.minimum
        },
        maximum: if rtt > tracker.maximum {
            rtt
        } else {
            tracker.maximum
        },
    }
}

/// The tracker after a request.
pub open spec fn requested(tracker: HeartbeatTracker) -> HeartbeatTracker {
    HeartbeatTracker {
        missed: if tracker.missed == u32::MAX {
            u32::MAX
        } else {
            (tracker.missed + 1) as u32
        },
        ..tracker
    }
}

impl HeartbeatTracker {
    pub fn new(now: u64) -> (tracker: Self)
        ensures
            tracker == (HeartbeatTracker {
                last_response: now,
                missed: 0,
                current: 0,
                minimum: 0,
                maximum: 0,
            }),
    {
        HeartbeatTracker { last_response: now, missed: 0, current: 0, minimum: 0, maximum: 0 }
    }

    pub fn request_body(&mut self, tick_micros: u64) -> (body: EchoBody)
        ensures
            *final(self) == requested(*old(self)),
            body == (EchoBody {
                tick_micros,
                stats: EchoDelayStats {
                    current_micros: old(self).current,
                    minimum_micros: old(self).minimum,
                    maximum_micros: old(self).maximum,
                },
            }),
    {
        self.missed = self.missed.saturating_add(1);
        EchoBody {
            tick_micros,
            stats: EchoDelayStats {
                current_micros: self.current,
                minimum_micros: self.minimum,
                maximum_micros: self.maximum,
            },
        }
    }

    pub fn observe(&mut self, rtt: u32, now: u64)
        ensures
            *final(self) == observed(*old(self), rtt, now),
    {
        self.last_response = now;
        self.missed = 0;
        self.current = rtt;
        if self.minimum == 0 || rtt < self.minimum {
            self.minimum = rtt;
        }
        if rtt > self.maximum {
            self.maximum = rtt;
        }
    }

    pub fn timed_out(&self, now: u64) -> (answer: bool)
        ensures
            answer == heartbeat_lost(*self, now),
    {
        self.missed >= HEARTBEAT_MAX_MISSES || (now >= self.last_response && now
            - self.last_response > HEARTBEAT_TIMEOUT_NS)
    }
}

/// The tracker after a number of requests without a response.
pub open spec fn unanswered(tracker: HeartbeatTracker, count: nat) -> HeartbeatTracker
    decreases count,
{
    if count == 0 {
        tracker
    } else {
        requested(unanswered(tracker, (count - 1) as nat))
    }
}

/// A response revives a session, and ten requests without one end it.
pub proof fn law_heartbeat(tracker: HeartbeatTracker, rtt: u32, now: u64)
    ensures
        !heartbeat_lost(observed(tracker, rtt, now), now),
        heartbeat_lost(unanswered(observed(tracker, rtt, now), 10), now),
        !heartbeat_lost(unanswered(observed(tracker, rtt, now), 9), now),
{
    reveal_with_fuel(unanswered, 11);
}

/// The extremes of delays stay in order.
pub proof fn law_heartbeat_extremes(tracker: HeartbeatTracker, rtt: u32, now: u64)
    requires
        tracker.minimum <= tracker.maximum,
    ensures
        observed(tracker, rtt, now).minimum <= observed(tracker, rtt, now).current
            <= observed(tracker, rtt, now).maximum,
{
}

/// The round-trip time of an echo, or `None` where it came from the future.
pub open spec fn round_trip(tick_micros: u64, now_micros: u64) -> Option<u32> {
    if tick_micros > now_micros {
        None
    } else if now_micros - tick_micros > u32::MAX {
        Some(u32::MAX)
    } else {
        Some((now_micros - tick_micros) as u32)
    }
}

fn echo_round_trip(tick_micros: u64, now_micros: u64) -> (rtt: Option<u32>)
    ensures
        rtt == round_trip(tick_micros, now_micros),
{
    if tick_micros > now_micros {
        None
    } else if now_micros - tick_micros > 0xffff_ffff {
        Some(0xffff_ffff)
    } else {
        Some((now_micros - tick_micros) as u32)
    }
}

/// Takes the response to an echo into account.
pub fn observe_echo(tracker: &mut HeartbeatTracker, tick_micros: u64, now_micros: u64, now: u64)
    -> (result: Result<(), Error>)
    ensures
        match round_trip(tick_micros, now_micros) {
            Some(rtt) => result is Ok && *final(tracker) == observed(*old(tracker), rtt, now),
            None => *final(tracker) == *old(tracker) && (result matches Err(error)
                && is_invalid_config(error, "heartbeat echoed a future monotonic tick"@)),
        },
{
    match echo_round_trip(tick_micros, now_micros) {
        Some(rtt) => {
            tracker.observe(rtt, now);
            Ok(())
        },
        None => Err(invalid_config("heartbeat echoed a future monotonic tick")),
    }
}

/// The round-trip time of a segment-routing echo.
pub fn sr_echo_round_trip(tick_micros: u64, now_micros: u64) -> (result: Result<u32, Error>)
    ensures
        match round_trip(tick_micros, now_micros) {
            Some(rtt) => result == Ok::<u32, Error>(rtt),
            None => result == Err::<u32, Error>(
                Error::InvalidSegmentRouting("SR response echoed a future tick"),
            ),
        },
{
    match echo_round_trip(tick_micros, now_micros) {
        Some(rtt) => Ok(rtt),
        None => Err(Error::InvalidSegmentRouting("SR response echoed a future tick")),
    }
}

/// Whether a segment-routing echo request is meant for this path.
pub fn check_sr_echo_request(sr_id: u32, monitor_sr_id: u32) -> (result: Result<(), Error>)
    ensures
        result == if sr_id == monitor_sr_id {
            Ok::<(), Error>(())
        } else {
            Err::<(), Error>(
                Error::InvalidSegmentRouting("SR monitor request has the wrong SR ID"),
            )
        },
{
    if sr_id == monitor_sr_id {
        Ok(())
    } else {
        Err(Error::InvalidSegmentRouting("SR monitor request has the wrong SR ID"))
    }
}

/// A failure that a worker of a session reports.
#[derive(Debug, Clone, Copy, PartialEq, Eq, Structural)]
pub enum WorkerFailure {
    HeartbeatTimeout,
    Transport,
}

/// Whether a session ends before it receives again.
pub fn receive_gate(shutdown: bool, running: bool, failure: Option<WorkerFailure>) -> (end: Option<
    SessionEnd,
>)
    ensures
        end == if shutdown || !running {
            Some(SessionEnd::LocalShutdown)
        } else {
            match failure {
                Some(WorkerFailure::HeartbeatTimeout) => Some(SessionEnd::HeartbeatTimeout),
                Some(WorkerFailure::Transport) => Some(SessionEnd::TransportFailure),
                None => None,
            }
        },
{
    if shutdown || !running {
        return Some(SessionEnd::LocalShutdown);
    }
    match failure {
        Some(WorkerFailure::HeartbeatTimeout) => Some(SessionEnd::HeartbeatTimeout),
        Some(WorkerFailure::Transport) => Some(SessionEnd::TransportFailure),
        None => None,
    }
}

/// What a received packet asks for.
#[derive(Debug)]
pub enum PacketEffect {
    /// Hand a packet to the device.
    Deliver(Vec<u8>),
    /// A part of a packet waits for the rest.
    Held,
    /// Decode the echo and take it into account.
    EchoReceived,
    /// Answer the echo.
    EchoRequested,
    /// The server closed the session.
    Closed,
    Ignored,
}

/// The inner packet of a payload, cut to its length and of the expected version.
pub open spec fn inner_packet(packet: Seq<u8>, expected_version: Option<u8>) -> Result<
    Seq<u8>,
    Error,
> {
    match trimmed(packet) {
        Err(error) => Err(error),
        Ok(inner) => if expected_version matches Some(version) && inner[0] / 16 != version {
            Err(Error::InvalidFragment("inner IP version does not match packet type"))
        } else {
            Ok(inner)
        },
    }
}

pub fn validate_inner_packet(packet: &[u8], expected_version: Option<u8>) -> (result: Result<
    &[u8],
    Error,
>)
    ensures
        match result {
            Ok(inner) => inner_packet(packet@, expected_version) == Ok::<Seq<u8>, Error>(inner@),
            Err(error) => inner_packet(packet@, expected_version) == Err::<Seq<u8>, Error>(error),
        },
{
    match trim_ip_packet(packet) {
        Err(error) => Err(error),
        Ok(inner) => {
            match expected_version {
                Some(version) => {
                    if inner[0] / 16 != version {
                        return Err(
                            Error::InvalidFragment("inner IP version does not match packet type"),
                        );
                    }
                },
                None => {},
            }
            Ok(inner)
        },
    }
}

/// The message on a packet whose encryption is not the expected one.
pub open spec fn encryption_message(
    actual: EncryptionMethod,
    expected: EncryptionMethod,
) -> Seq<char> {
    "packet encryption "@ + actual.name() + " does not match expected "@ + expected.name()
}

pub fn require_encryption(header: &PacketHeader, expected: EncryptionMethod) -> (result: Result<
    (),
    Error,
>)
    ensures
        match result {
            Ok(_) => header.encryption == expected,
            Err(error) => header.encryption != expected && is_invalid_config(
                error,
                encryption_message(header.encryption, expected),
            ),
        },
{
    if header.encryption == expected {
        return Ok(());
    }
    let mut message = join3("packet encryption ", header.encryption.label(), " does not match expected ");
    push_text(&mut message, expected.label());
    assert(message@ =~= encryption_message(header.encryption, expected));
    Err(Error::InvalidConfig(message))
}

/// Waiting halves of fragmented packets, for each version of IP.
pub struct StandardReceiver {
    v4: TraditionalFragmentReassembler,
    v6: TraditionalFragmentReassembler,
}

/// The expected encryption and version of a packet type that carries data whole.
pub open spec fn whole_packet(packet_type: PacketType, session: EncryptionMethod) -> Option<
    (EncryptionMethod, Option<u8>),
> {
    match packet_type {
        PacketType::Data | PacketType::DataDup => Some((EncryptionMethod::Clear, None)),
        PacketType::DataIpv6 => Some((EncryptionMethod::Clear, Some(6u8))),
        PacketType::DataEncrypted | PacketType::DataEncryptedDup => Some((session, None)),
        _ => None,
    }
}

/// Whether a result is what a decided inner packet calls for.
pub open spec fn delivers(
    inner: Result<Seq<u8>, Error>,
    result: Result<PacketEffect, Error>,
) -> bool {
    match inner {
        Ok(packet) => result matches Ok(PacketEffect::Deliver(bytes)) && bytes@ == packet,
        Err(error) => result matches Err(actual) && actual == error,
    }
}

/// Whether a result is what a fragment calls for.
pub open spec fn fragment_delivers(
    reassembled: Result<Option<Seq<u8>>, Error>,
    version: u8,
    result: Result<PacketEffect, Error>,
) -> bool {
    match reassembled {
        Ok(Some(packet)) => delivers(inner_packet(packet, Some(version)), result),
        Ok(None) => result matches Ok(PacketEffect::Held),
        Err(error) => result matches Err(actual) && actual == error,
    }
}

fn deliver(packet: &[u8], expected_version: Option<u8>) -> (result: Result<PacketEffect, Error>)
    ensures
        delivers(inner_packet(packet@, expected_version), result),
{
    match validate_inner_packet(packet, expected_version) {
        Ok(inner) => Ok(PacketEffect::Deliver(slice_to_vec(inner))),
        Err(error) => Err(error),
    }
}

fn take_fragment(
    reassembler: &mut TraditionalFragmentReassembler,
    body: &[u8],
    version: u8,
    now: u64,
) -> (result: Result<PacketEffect, Error>)
    requires
        old(reassembler).wf(),
    ensures
        final(reassembler).wf(),
        fragment_step(old(reassembler)@, final(reassembler)@, body@, version, now, result),
{
    match Fragment::parse_traditional(body) {
        Err(error) => Err(error),
        Ok(fragment) => {
            let ghost part = fragment;
            let outcome = reassembler.insert(fragment, now);
            assert(part@ == parsed(body@, FragmentIdEndian::Big));
            assert(traditional_step(
                old(reassembler)@,
                part,
                now,
                reassembler@,
                packet_view(outcome),
            ));
            match outcome {
                Err(error) => Err(error),
                Ok(None) => Ok(PacketEffect::Held),
                Ok(Some(packet)) => deliver(packet.as_slice(), Some(version)),
            }
        },
    }
}

/// What a fragment does to the waiting halves and calls for.
pub open spec fn fragment_step(
    before: Map<u32, TraditionalPending>,
    after: Map<u32, TraditionalPending>,
    body: Seq<u8>,
    version: u8,
    now: u64,
    result: Result<PacketEffect, Error>,
) -> bool {
    match parse_error(body) {
        Some(error) => after == before && (result matches Err(actual) && actual == error),
        None => exists|fragment: Fragment, reassembled: Result<Option<Seq<u8>>, Error>|
            fragment@ == parsed(body, FragmentIdEndian::Big) && #[trigger] traditional_step(
                before,
                fragment,
                now,
                after,
                reassembled,
            ) && fragment_delivers(reassembled, version, result),
    }
}

/// What a packet of the session does to the waiting halves, and what it asks
/// for, given the session's method and what decryption makes of the body.
pub open spec fn standard_effect(
    before: StandardReceiver,
    after: StandardReceiver,
    packet: DecodedPacket,
    method: EncryptionMethod,
    decrypted: Result<Seq<u8>, Error>,
    now: u64,
    result: Result<PacketEffect, Error>,
) -> bool {
    let kind = packet.header.packet_type;
    let body = packet.body@;
    match whole_packet(kind, method) {
        Some((expected, version)) => {
            &&& after.halves4() == before.halves4()
            &&& after.halves6() == before.halves6()
            &&& if packet.header.encryption != expected {
                result matches Err(error) && is_invalid_config(
                    error,
                    encryption_message(packet.header.encryption, expected),
                )
            } else if kind == PacketType::DataEncrypted || kind
                == PacketType::DataEncryptedDup {
                match decrypted {
                    Ok(plain) => delivers(inner_packet(plain, version), result),
                    Err(error) => result matches Err(actual) && actual == error,
                }
            } else {
                delivers(inner_packet(body, version), result)
            }
        },
        None => if kind == PacketType::IpFragment || kind
            == PacketType::IpFragmentIpv6 {
            if packet.header.encryption != EncryptionMethod::Clear {
                &&& after.halves4() == before.halves4()
                &&& after.halves6() == before.halves6()
                &&& result matches Err(error) && is_invalid_config(
                    error,
                    encryption_message(
                        packet.header.encryption,
                        EncryptionMethod::Clear,
                    ),
                )
            } else if kind == PacketType::IpFragment {
                &&& after.halves6() == before.halves6()
                &&& fragment_step(
                    before.halves4(),
                    after.halves4(),
                    body,
                    4,
                    now,
                    result,
                )
            } else {
                &&& after.halves4() == before.halves4()
                &&& fragment_step(
                    before.halves6(),
                    after.halves6(),
                    body,
                    6,
                    now,
                    result,
                )
            }
        } else {
            &&& after.halves4() == before.halves4()
            &&& after.halves6() == before.halves6()
            &&& match kind {
                PacketType::EchoResponse => result matches Ok(
                    PacketEffect::EchoReceived,
                ),
                PacketType::EchoRequest => result matches Ok(
                    PacketEffect::EchoRequested,
                ),
                PacketType::Close => result matches Ok(PacketEffect::Closed),
                _ => result matches Ok(PacketEffect::Ignored),
            }
        },
    }
}

impl StandardReceiver {
    pub closed spec fn wf(&self) -> bool {
        self.v4.wf() && self.v6.wf()
    }

    /// The waiting halves of IPv4 packets.
    pub closed spec fn halves4(&self) -> Map<u32, TraditionalPending> {
        self.v4@
    }

    /// The waiting halves of IPv6 packets.
    pub closed spec fn halves6(&self) -> Map<u32, TraditionalPending> {
        self.v6@
    }

    pub fn new() -> (receiver: Self)
        ensures
            receiver.wf(),
            receiver.halves4() == Map::<u32, TraditionalPending>::empty(),
            receiver.halves6() == Map::<u32, TraditionalPending>::empty(),
    {
        StandardReceiver {
            v4: TraditionalFragmentReassembler::default(),
            v6: TraditionalFragmentReassembler::default(),
        }
    }

    /// Takes a packet of the session. Whole packets are decrypted where their
    /// type says so, and checked; fragments wait for their other half; echoes and
    /// closings are reported; anything else is ignored.
    pub fn process_standard_packet(
        &mut self,
        packet: &DecodedPacket,
        cipher: &dyn DataCipher,
        now: u64,
    ) -> (result: Result<PacketEffect, Error>)
        requires
            old(self).wf(),
        ensures
            final(self).wf(),
            standard_effect(
                *old(self),
                *final(self),
                *packet,
                cipher.kind(),
                cipher.decrypted(packet.body@),
                now,
                result,
            ),
    {
        let body = packet.body.as_slice();
        match packet.header.packet_type {
            PacketType::Data | PacketType::DataDup => {
                match require_encryption(&packet.header, EncryptionMethod::Clear) {
                    Err(error) => Err(error),
                    Ok(_) => deliver(body, None),
                }
            },
            PacketType::DataIpv6 => {
                match require_encryption(&packet.header, EncryptionMethod::Clear) {
                    Err(error) => Err(error),
                    Ok(_) => deliver(body, Some(6)),
                }
            },
            PacketType::DataEncrypted | PacketType::DataEncryptedDup => {
                match require_encryption(&packet.header, cipher.method()) {
                    Err(error) => Err(error),
                    Ok(_) => match cipher.decrypt(body) {
                        Err(error) => Err(error),
                        Ok(plain) => deliver(plain.as_slice(), None),
                    },
                }
            },
            PacketType::IpFragment => {
                match require_encryption(&packet.header, EncryptionMethod::Clear) {
                    Err(error) => Err(error),
                    Ok(_) => take_fragment(&mut self.v4, body, 4, now),
                }
            },
            PacketType::IpFragmentIpv6 => {
                match require_encryption(&packet.header, EncryptionMethod::Clear) {
                    Err(error) => Err(error),
                    Ok(_) => take_fragment(&mut self.v6, body, 6, now),
                }
            },
            PacketType::EchoResponse => Ok(PacketEffect::EchoReceived),
            PacketType::EchoRequest => Ok(PacketEffect::EchoRequested),
            PacketType::Close => Ok(PacketEffect::Closed),
            _ => Ok(PacketEffect::Ignored),
        }
    }
}

/// A packet that is ready to be framed and sent.
#[derive(Debug)]
pub struct OutboundPacket {
    pub header: PacketHeader,
    pub payload: Vec<u8>,
}

/// Seals an inner packet for a session, which carries it whole or not at all.
pub fn encode_traditional_data(packet: &[u8], info: &SessionInfo, cipher: &dyn DataCipher) -> (result:
    Result<OutboundPacket, Error>)
    ensures
        if packet@.len() > info.mtu {
            result matches Err(error) && error == Error::FragmentTooLarge
        } else {
            &&& result matches Ok(outbound)
            &&& outbound.header == (PacketHeader {
                packet_type: if info.encryption == EncryptionMethod::Clear {
                    PacketType::Data
                } else {
                    PacketType::DataEncrypted
                },
                encryption: info.encryption,
                session_id: info.session_id,
                token: info.token,
            })
            &&& info.encryption == EncryptionMethod::Clear ==> outbound.payload@ == packet@
            &&& info.encryption != EncryptionMethod::Clear ==> outbound.payload@
                == cipher.encrypted(packet@) && cipher.decrypted(outbound.payload@) == Ok::<
                Seq<u8>,
                Error,
            >(cipher.restored(packet@))
        },
{
    if packet.len() > info.mtu as usize {
        return Err(Error::FragmentTooLarge);
    }
    match info.encryption {
        EncryptionMethod::Clear => Ok(
            OutboundPacket {
                header: info.header(PacketType::Data),
                payload: slice_to_vec(packet),
            },
        ),
        _ => match cipher.encrypt(packet) {
            Ok(payload) => Ok(
                OutboundPacket { header: info.header(PacketType::DataEncrypted), payload },
            ),
            Err(error) => Err(error),
        },
    }
}

/// Checks that a device took a whole packet.
pub fn check_written(written: usize, length: usize) -> (result: Result<(), Error>)
    ensures
        match result {
            Ok(_) => written == length,
            Err(error) => written != length && (error matches Error::Io(message) && message@
                == "short TUN write: "@ + decimal(written as nat) + "/"@ + decimal(length as nat)),
        },
{
    if written == length {
        return Ok(());
    }
    let mut message = String::new();
    push_text(&mut message, "short TUN write: ");
    push_decimal(&mut message, written as u64);
    push_text(&mut message, "/");
    push_decimal(&mut message, length as u64);
    assert(message@ =~= "short TUN write: "@ + decimal(written as nat) + "/"@ + decimal(
        length as nat,
    ));
    Err(Error::Io(message))
}

/// The MTU that an acknowledgement sets: the last one named, if it is in
/// range, else the one that was asked for.
pub open spec fn ack_mtu(attributes: Seq<Tlv>, requested: u16) -> u16
    decreases attributes.len(),
{
    if attributes.len() == 0 {
        requested
    } else if attributes.last().kind == TlvType::Mtu {
        match attributes.last().integer {
            Some(value) => if MIN_MTU <= value <= MAX_MTU {
                value as u16
            } else {
                requested
            },
            None => requested,
        }
    } else {
        ack_mtu(attributes.drop_last(), requested)
    }
}

/// The last valid address of a kind that an acknowledgement names.
pub open spec fn ack_address(attributes: Seq<Tlv>, kind: TlvType) -> Option<IpAddr>
    decreases attributes.len(),
{
    if attributes.len() == 0 {
        None
    } else if attributes.last().kind == kind && attributes.last().first_ipv4 is Some {
        Some(IpAddr::V4(attributes.last().first_ipv4->Some_0))
    } else {
        ack_address(attributes.drop_last(), kind)
    }
}

/// The encryption that an acknowledgement sets: the last one named, where an
/// unknown one means none, else that of the packet itself.
pub open spec fn ack_encryption(attributes: Seq<Tlv>, packet: EncryptionMethod) -> EncryptionMethod
    decreases attributes.len(),
{
    if attributes.len() == 0 {
        packet
    } else if attributes.last().kind == TlvType::Encrypt {
        match attributes.last().integer {
            Some(1) => EncryptionMethod::Xor,
            Some(2) => EncryptionMethod::Aes,
            _ => EncryptionMethod::Clear,
        }
    } else {
        ack_encryption(attributes.drop_last(), packet)
    }
}

/// Why an acknowledgement is refused.
pub open spec fn ack_error(attributes: Seq<Tlv>, expected_nonce: u32) -> Option<Error> {
    match first_of_kind(attributes, TlvType::AuthVerify) {
        None => None,
        Some(i) => match attributes[i].first_u32 {
            None => Some(Error::InvalidTlvValue("AuthVerify")),
            Some(nonce) => if nonce != expected_nonce {
                Some(Error::AuthenticationVerifyMismatch)
            } else {
                None
            },
        },
    }
}

/// The servers that an optional address makes.
pub open spec fn at_most_one(address: Option<IpAddr>) -> Seq<IpAddr> {
    match address {
        Some(ip) => seq![ip],
        None => Seq::empty(),
    }
}

/// Reads the acknowledgement of a session. A nonce that is sent back must be the
/// one that was sent; of repeated attributes the last valid one counts.
pub fn parse_open_ack(
    header: &PacketHeader,
    attributes: &Vec<Tlv>,
    peer: SocketAddr,
    expected_nonce: u32,
    requested_mtu: u16,
) -> (result: Result<SessionInfo, Error>)
    ensures
        match result {
            Ok(info) => {
                &&& ack_error(attributes@, expected_nonce) is None
                &&& info.peer == peer
                &&& info.session_id == header.session_id
                &&& info.token == header.token
                &&& info.encryption == ack_encryption(attributes@, header.encryption)
                &&& info.mtu == ack_mtu(attributes@, requested_mtu)
                &&& info.address == ack_address(attributes@, TlvType::Ip)
                &&& info.gateway == ack_address(attributes@, TlvType::Gateway)
                &&& info.dns_servers@ == at_most_one(ack_address(attributes@, TlvType::Dns))
                &&& !info.segment_routing
            },
            Err(error) => ack_error(attributes@, expected_nonce) == Some(error),
        },
{
    match find_tlv(attributes, TlvType::AuthVerify) {
        None => {},
        Some(i) => match attributes[i].first_u32 {
            None => {
                return Err(Error::InvalidTlvValue("AuthVerify"));
            },
            Some(nonce) => {
                if nonce != expected_nonce {
                    return Err(Error::AuthenticationVerifyMismatch);
                }
            },
        },
    }
    let mut encryption = header.encryption;
    let mut mtu: u16 = requested_mtu;
    let mut address: Option<IpAddr> = None;
    let mut gateway: Option<IpAddr> = None;
    let mut dns: Option<IpAddr> = None;
    let mut i: usize = 0;
    assert(attributes@.take(0) =~= Seq::<Tlv>::empty());
    while i < attributes.len()
        invariant
            i <= attributes@.len(),
            encryption == ack_encryption(attributes@.take(i as int), header.encryption),
            mtu == ack_mtu(attributes@.take(i as int), requested_mtu),
            address == ack_address(attributes@.take(i as int), TlvType::Ip),
            gateway == ack_address(attributes@.take(i as int), TlvType::Gateway),
            dns == ack_address(attributes@.take(i as int), TlvType::Dns),
        decreases attributes@.len() - i,
    {
        let attribute = &attributes[i];
        assert(attributes@.take(i + 1).drop_last() =~= attributes@.take(i as int));
        assert(attributes@.take(i + 1).last() == *attribute);
        match attribute.kind {
            TlvType::Mtu => {
                mtu = match attribute.integer {
                    Some(value) => if MIN_MTU as u64 <= value && value <= MAX_MTU as u64 {
                        value as u16
                    } else {
                        requested_mtu
                    },
                    None => requested_mtu,
                };
            },
            TlvType::Ip => {
                if let Some(ip) = attribute.first_ipv4 {
                    address = Some(IpAddr::V4(ip));
                }
            },
            TlvType::Dns => {
                if let Some(ip) = attribute.first_ipv4 {
                    dns = Some(IpAddr::V4(ip));
                }
            },
            TlvType::Gateway => {
                if let Some(ip) = attribute.first_ipv4 {
                    gateway = Some(IpAddr::V4(ip));
                }
            },
            TlvType::Encrypt => {
                encryption = match attribute.integer {
                    Some(1) => EncryptionMethod::Xor,
                    Some(2) => EncryptionMethod::Aes,
                    _ => EncryptionMethod::Clear,
                };
            },
            _ => {},
        }
        i += 1;
    }
    assert(attributes@.take(i as int) =~= attributes@);
    let mut dns_servers: Vec<IpAddr> = Vec::new();
    if let Some(ip) = dns {
        dns_servers.push(ip);
    }
    assert(dns_servers@ =~= at_most_one(dns));
    Ok(
        SessionInfo {
            peer,
            session_id: header.session_id,
            token: header.token,
            encryption,
            mtu,
            address,
            gateway,
            dns_servers,
            segment_routing: false,
        },
    )
}

/// The upper-case form of a text.
pub uninterp spec fn uppercase_text(text: Seq<char>) -> Seq<char>;

/// `str::to_uppercase` gives the upper-case form of a text.
#[verifier::external_body]
fn uppercase(text: &str) -> (upper: String)
    ensures
        upper@ == uppercase_text(text@),
{
    text.to_uppercase()
}

/// The text of bytes, with a replacement for what is not UTF-8.
pub uninterp spec fn lossy_text(bytes: Seq<u8>) -> Seq<char>;

/// `String::from_utf8_lossy` decodes UTF-8 and replaces what is none; valid
/// UTF-8 is decoded as it is.
#[verifier::external_body]
pub(crate) fn decode_lossy(bytes: &[u8]) -> (text: String)
    ensures
        text@ == lossy_text(bytes@),
        valid_utf8(bytes@) ==> text@ == decode_utf8(bytes@),
{
    String::from_utf8_lossy(bytes).into_owned()
}

/// The code of a rejection by the first keyword in an upper-case message.
pub open spec fn keyword_code(upper: Seq<char>) -> u16 {
    if contains_text(upper, "TOOLONG"@) {
        2100
    } else if contains_text(upper, "FREEIP"@) {
        2111
    } else if contains_text(upper, "PPPOECLNT"@) {
        2108
    } else if contains_text(upper, "PPOECLNT"@) {
        2108
    } else if contains_text(upper, "CLNT"@) {
        2108
    } else if contains_text(upper, "PPPOE_INSTAL"@) {
        2112
    } else if contains_text(upper, "PPOE_INSTAL"@) {
        2112
    } else if contains_text(upper, "PPPOEINSTALL"@) {
        2112
    } else if contains_text(upper, "PPOEINSTALL"@) {
        2112
    } else if contains_text(upper, "PPPOE"@) {
        2112
    } else if contains_text(upper, "PPOE"@) {
        2112
    } else if contains_text(upper, "FAIL"@) {
        2116
    } else if contains_text(upper, "NAME"@) {
        2102
    } else if contains_text(upper, "PASS"@) {
        2105
    } else if contains_text(upper, "ABLED"@) {
        2103
    } else if contains_text(upper, "PIRED"@) {
        2104
    } else if contains_text(upper, "FULL"@) {
        2115
    } else if contains_text(upper, "EMPTY"@) {
        2115
    } else if contains_text(upper, "POOL"@) {
        2106
    } else if contains_text(upper, "NO_ENTRY"@) {
        2107
    } else if contains_text(upper, "ENTRY"@) {
        2107
    } else if contains_text(upper, "BIND"@) {
        2109
    } else if contains_text(upper, "NULL"@) {
        2110
    } else if contains_text(upper, "POLL"@) {
        2101
    } else {
        2999
    }
}

/// The code of a rejection whose message is in upper case already.
pub fn code_of_keyword(upper: &str) -> (code: u16)
    ensures
        code == keyword_code(upper@),
{
    let chars = chars_of(upper);
    let text = chars.as_slice();
    if contains(text, "TOOLONG") {
        2100
    } else if contains(text, "FREEIP") {
        2111
    } else if contains(text, "PPPOECLNT") {
        2108
    } else if contains(text, "PPOECLNT") {
        2108
    } else if contains(text, "CLNT") {
        2108
    } else if contains(text, "PPPOE_INSTAL") {
        2112
    } else if contains(text, "PPOE_INSTAL") {
        2112
    } else if contains(text, "PPPOEINSTALL") {
        2112
    } else if contains(text, "PPOEINSTALL") {
        2112
    } else if contains(text, "PPPOE") {
        2112
    } else if contains(text, "PPOE") {
        2112
    } else if contains(text, "FAIL") {
        2116
    } else if contains(text, "NAME") {
        2102
    } else if contains(text, "PASS") {
        2105
    } else if contains(text, "ABLED") {
        2103
    } else if contains(text, "PIRED") {
        2104
    } else if contains(text, "FULL") {
        2115
    } else if contains(text, "EMPTY") {
        2115
    } else if contains(text, "POOL") {
        2106
    } else if contains(text, "NO_ENTRY") {
        2107
    } else if contains(text, "ENTRY") {
        2107
    } else if contains(text, "BIND") {
        2109
    } else if contains(text, "NULL") {
        2110
    } else if contains(text, "POLL") {
        2101
    } else {
        2999
    }
}

pub fn rejection_code(message: &str) -> (code: u16)
    ensures
        code == keyword_code(uppercase_text(crate::text::trimmed(message@))),
{
    let bare = trim_text(message);
    let upper = uppercase(&bare);
    code_of_keyword(&upper)
}

/// Whether attributes are those of a structured rejection.
pub open spec fn is_structured(attributes: Seq<Tlv>) -> bool {
    &&& first_of_kind(attributes, TlvType::Username) is Some
    &&& first_of_kind(attributes, TlvType::AuthVerify) matches Some(i) && attributes[i].value@.len()
        == 4
}

/// Whether the rest of a rejection from an offset on is structured.
pub open spec fn structured_at(parsed: Seq<Option<Vec<Tlv>>>, offset: int) -> bool {
    parsed[offset] matches Some(attributes) && is_structured(attributes@)
}

/// Whether an offset is the first from which a rejection is structured.
pub open spec fn first_structured(parsed: Seq<Option<Vec<Tlv>>>, offset: int) -> bool {
    &&& 0 <= offset < parsed.len()
    &&& structured_at(parsed, offset)
    &&& forall|earlier: int| 0 <= earlier < offset ==> !#[trigger] structured_at(parsed, earlier)
}

/// The bytes of the message of a structured rejection: those of its message
/// attribute, else those before the structure.
pub open spec fn structured_message(body: Seq<u8>, attributes: Seq<Tlv>, offset: int) -> Seq<u8> {
    match first_of_kind(attributes, TlvType::ErrorMessage) {
        Some(i) => attributes[i].value@,
        None => body.take(offset),
    }
}

/// Whether a result reports a rejection with the message of some bytes.
pub open spec fn rejects_with(bytes: Seq<u8>, result: Result<Error, Error>) -> bool {
    let message = crate::text::trimmed(lossy_text(bytes));
    result matches Ok(Error::AuthenticationRejected { code, message: text }) && text@ == message
        && code == keyword_code(uppercase_text(crate::text::trimmed(message)))
}

/// What a rejection says. `parsed` holds, for every offset of the body, the
/// attributes that the rest of the body is made of, where it is made of some.
pub open spec fn rejection_meaning(
    body: Seq<u8>,
    parsed: Seq<Option<Vec<Tlv>>>,
    expected_nonce: u32,
    result: Result<Error, Error>,
) -> bool {
    if exists|offset: int| first_structured(parsed, offset) {
        let offset = choose|offset: int| first_structured(parsed, offset);
        let attributes = parsed[offset]->Some_0@;
        let verify = attributes[first_of_kind(attributes, TlvType::AuthVerify)->Some_0];
        match verify.first_u32 {
            None => result == Err::<Error, Error>(Error::InvalidTlvValue("AuthVerify")),
            Some(nonce) => if nonce != expected_nonce {
                result == Err::<Error, Error>(Error::AuthenticationVerifyMismatch)
            } else {
                rejects_with(structured_message(body, attributes, offset), result)
            },
        }
    } else {
        rejects_with(body, result)
    }
}

fn rejection_of(bytes: &[u8]) -> (result: Result<Error, Error>)
    ensures
        rejects_with(bytes@, result),
{
    let decoded = decode_lossy(bytes);
    let message = trim_text(&decoded);
    let code: u16 = rejection_code(&message);
    Ok(Error::AuthenticationRejected { code, message })
}

/// Reads the rejection of a session.
pub fn parse_rejection(body: &[u8], parsed: &Vec<Option<Vec<Tlv>>>, expected_nonce: u32) -> (result:
    Result<Error, Error>)
    requires
        parsed@.len() == body@.len(),
    ensures
        rejection_meaning(body@, parsed@, expected_nonce, result),
{
    let mut offset: usize = 0;
    while offset < parsed.len()
        invariant
            parsed@.len() == body@.len(),
            offset <= parsed@.len(),
            forall|earlier: int|
                0 <= earlier < offset ==> !#[trigger] structured_at(parsed@, earlier),
        decreases parsed@.len() - offset,
    {
        match &parsed[offset] {
            None => {},
            Some(attributes) => {
                let named = find_tlv(attributes, TlvType::Username).is_some();
                if let Some(i) = find_tlv(attributes, TlvType::AuthVerify) {
                    if named && attributes[i].value.len() == 4 {
                        proof {
                            assert(first_structured(parsed@, offset as int));
                            assert forall|other: int| first_structured(parsed@, other) implies other
                                == offset by {
                                if other < offset {
                                    assert(structured_at(parsed@, other));
                                } else if other > offset {
                                    assert(structured_at(parsed@, offset as int));
                                }
                            }
                        }
                        return match attributes[i].first_u32 {
                            None => Err(Error::InvalidTlvValue("AuthVerify")),
                            Some(nonce) => {
                                if nonce != expected_nonce {
                                    Err(Error::AuthenticationVerifyMismatch)
                                } else {
                                    match find_tlv(attributes, TlvType::ErrorMessage) {
                                        Some(m) => rejection_of(attributes[m].value.as_slice()),
                                        None => {
                                            let head = slice_subrange(body, 0, offset);
                                            assert(head@ =~= body@.take(offset as int));
                                            rejection_of(head)
                                        },
                                    }
                                }
                            },
                        };
                    }
                }
            },
        }
        assert(!structured_at(parsed@, offset as int));
        offset += 1;
    }
    rejection_of(body)
}

/// Checks the response to a stateless ping.
pub fn check_ping_response(response: &DecodedPacket, session_id: u16, token: u32) -> (result: Result<
    (),
    Error,
>)
    ensures
        result == if response.header == (PacketHeader {
            packet_type: PacketType::PingResponse,
            encryption: EncryptionMethod::Clear,
            session_id,
            token,
        }) && response.body@.len() == 0 {
            Ok::<(), Error>(())
        } else {
            Err::<(), Error>(Error::InvalidPingResponse)
        },
{
    if response.header.packet_type != PacketType::PingResponse || response.header.encryption
        != EncryptionMethod::Clear || response.header.session_id != session_id
        || response.header.token != token || response.body.len() != 0 {
        Err(Error::InvalidPingResponse)
    } else {
        Ok(())
    }
}

/// `getrandom::u32` gives a number from the system's randomness, if there is any.
#[verifier::external_body]
fn random_u32() -> (value: Option<u32>) {
    getrandom::u32().ok()
}

/// Whether the system's randomness, when it was asked, gave this: a number, or none.
pub closed spec fn drawn(value: Option<u32>) -> bool {
    call_ensures(random_u32, (), value)
}

/// Whether an error is that of a number that could not be drawn: the system had
/// none to give, or only zeros.
pub open spec fn not_drawn(error: Error) -> bool {
    error == Error::Crypto("system randomness is unavailable") && (drawn(None) || drawn(
        Some(0u32),
    ))
}

/// A random number that is not zero: the system's, or an error where the system
/// has none to give.
pub fn random_nonzero_u32() -> (result: Result<u32, Error>)
    ensures
        match result {
            Ok(value) => value != 0 && drawn(Some(value)),
            Err(error) => not_drawn(error),
        },
{
    let mut left: u64 = u64::MAX;
    while left > 0
        invariant
            left < u64::MAX ==> drawn(Some(0u32)),
        decreases left,
    {
        match random_u32() {
            Some(value) => {
                if value != 0 {
                    return Ok(value);
                }
            },
            None => {
                return Err(Error::Crypto("system randomness is unavailable"));
            },
        }
        left -= 1;
    }
    Err(Error::Crypto("system randomness is unavailable"))
}

/// Nanoseconds as microseconds, as far as they fit.
pub fn monotonic_micros(elapsed_ns: u128) -> (micros: u64)
    ensures
        micros == if elapsed_ns / 1000 > u64::MAX {
            u64::MAX as int
        } else {
            (elapsed_ns / 1000) as int
        },
{
    let micros: u128 = elapsed_ns / 1000;
    if micros > 0xffff_ffff_ffff_ffff {
        u64::MAX
    } else {
        micros as u64
    }
}

/// How long to sleep before looking again whether a wait is over; `None` when it is.
pub fn next_nap(elapsed: u64, duration: u64) -> (nap: Option<u64>)
    ensures
        nap == if elapsed >= duration {
            None::<u64>
        } else if duration - elapsed <= MAX_NAP_NS {
            Some((duration - elapsed) as u64)
        } else {
            Some(MAX_NAP_NS)
        },
{
    if elapsed >= duration {
        None
    } else if duration - elapsed <= MAX_NAP_NS {
        Some(duration - elapsed)
    } else {
        Some(MAX_NAP_NS)
    }
}

/// Whether an attribute is the last of its kind.
pub open spec fn is_last_of_kind(attributes: Seq<Tlv>, i: int) -> bool {
    &&& 0 <= i < attributes.len()
    &&& forall|k: int| i < k < attributes.len() ==> (#[trigger] attributes[k]).kind
        != attributes[i].kind
}

/// Whether there is no attribute of a kind.
pub open spec fn has_no(attributes: Seq<Tlv>, kind: TlvType) -> bool {
    forall|k: int| 0 <= k < attributes.len() ==> (#[trigger] attributes[k]).kind != kind
}

proof fn lemma_ack_encryption(attributes: Seq<Tlv>, packet: EncryptionMethod, i: int)
    ensures
        has_no(attributes, TlvType::Encrypt) ==> ack_encryption(attributes, packet) == packet,
        is_last_of_kind(attributes, i) && attributes[i].kind == TlvType::Encrypt ==> {
            let method = ack_encryption(attributes, packet);
            &&& attributes[i].integer == Some(1u64) ==> method is Xor
            &&& attributes[i].integer == Some(2u64) ==> method is Aes
            &&& attributes[i].integer != Some(1u64) && attributes[i].integer != Some(2u64)
                ==> method is Clear
        },
    decreases attributes.len(),
{
    if attributes.len() > 0 {
        let head = attributes.drop_last();
        lemma_ack_encryption(head, packet, i);
        if has_no(attributes, TlvType::Encrypt) {
            assert(attributes[attributes.len() - 1].kind != TlvType::Encrypt);
            assert forall|k: int| 0 <= k < head.len() implies (#[trigger] head[k]).kind
                != TlvType::Encrypt by {
                assert(head[k] == attributes[k]);
            }
        }
        if is_last_of_kind(attributes, i) && attributes[i].kind == TlvType::Encrypt && i
            < attributes.len() - 1 {
            assert(attributes[attributes.len() - 1].kind != TlvType::Encrypt);
            assert(head[i] == attributes[i]);
            assert forall|k: int| i < k < head.len() implies (#[trigger] head[k]).kind
                != head[i].kind by {
                assert(head[k] == attributes[k]);
            }
        }
    }
}

proof fn lemma_ack_mtu(attributes: Seq<Tlv>, requested: u16, i: int)
    ensures
        has_no(attributes, TlvType::Mtu) ==> ack_mtu(attributes, requested) == requested,
        is_last_of_kind(attributes, i) && attributes[i].kind == TlvType::Mtu ==> {
            let mtu = ack_mtu(attributes, requested);
            if attributes[i].integer matches Some(value) && 576 <= value <= 9000 {
                Some(mtu as u64) == attributes[i].integer
            } else {
                mtu == requested
            }
        },
    decreases attributes.len(),
{
    if attributes.len() > 0 {
        let head = attributes.drop_last();
        lemma_ack_mtu(head, requested, i);
        if has_no(attributes, TlvType::Mtu) {
            assert(attributes[attributes.len() - 1].kind != TlvType::Mtu);
            assert forall|k: int| 0 <= k < head.len() implies (#[trigger] head[k]).kind
                != TlvType::Mtu by {
                assert(head[k] == attributes[k]);
            }
        }
        if is_last_of_kind(attributes, i) && attributes[i].kind == TlvType::Mtu && i
            < attributes.len() - 1 {
            assert(attributes[attributes.len() - 1].kind != TlvType::Mtu);
            assert(head[i] == attributes[i]);
            assert forall|k: int| i < k < head.len() implies (#[trigger] head[k]).kind
                != head[i].kind by {
                assert(head[k] == attributes[k]);
            }
        }
    }
}

/// Whether an attribute holds an address and no later one of its kind does.
pub open spec fn is_last_address(attributes: Seq<Tlv>, i: int) -> bool {
    &&& 0 <= i < attributes.len()
    &&& attributes[i].first_ipv4 is Some
    &&& forall|k: int|
        i < k < attributes.len() && (#[trigger] attributes[k]).kind == attributes[i].kind
            ==> attributes[k].first_ipv4 is None
}

proof fn lemma_ack_address(attributes: Seq<Tlv>, kind: TlvType, i: int)
    ensures
        has_no(attributes, kind) ==> ack_address(attributes, kind) is None,
        is_last_address(attributes, i) && attributes[i].kind == kind ==> ack_address(
            attributes,
            kind,
        ) == Some(IpAddr::V4(attributes[i].first_ipv4->Some_0)),
    decreases attributes.len(),
{
    if attributes.len() > 0 {
        let head = attributes.drop_last();
        lemma_ack_address(head, kind, i);
        if has_no(attributes, kind) {
            assert(attributes[attributes.len() - 1].kind != kind);
            assert forall|k: int| 0 <= k < head.len() implies (#[trigger] head[k]).kind != kind by {
                assert(head[k] == attributes[k]);
            }
        }
        if is_last_address(attributes, i) && attributes[i].kind == kind && i < attributes.len()
            - 1 {
            assert(attributes[attributes.len() - 1].kind == kind
                ==> attributes[attributes.len() - 1].first_ipv4 is None);
            assert(head[i] == attributes[i]);
            assert forall|k: int|
                i < k < head.len() && (#[trigger] head[k]).kind == head[i].kind implies head[k].first_ipv4 is None by {
                assert(head[k] == attributes[k]);
            }
        }
    }
}

/// The session takes over what the acknowledgement of an open request assigns. The
/// last attribute on encryption counts: 1 stands for XOR, 2 for AES and anything
/// else for none, and without one the packet's own method stays. The last one on
/// the MTU counts where it is between 576 and 9000, and else what was asked for.
pub proof fn law_assignment(
    header: &PacketHeader,
    attributes: &Vec<Tlv>,
    peer: SocketAddr,
    nonce: u32,
    requested: u16,
    info: SessionInfo,
    i: int,
)
    requires
        call_ensures(
            parse_open_ack,
            (header, attributes, peer, nonce, requested),
            Ok::<SessionInfo, Error>(info),
        ),
    ensures
        has_no(attributes@, TlvType::Encrypt) ==> info.encryption == header.encryption,
        is_last_of_kind(attributes@, i) && attributes@[i].kind is Encrypt ==> {
            &&& attributes@[i].integer == Some(1u64) ==> info.encryption is Xor
            &&& attributes@[i].integer == Some(2u64) ==> info.encryption is Aes
            &&& attributes@[i].integer != Some(1u64) && attributes@[i].integer != Some(2u64)
                ==> info.encryption is Clear
        },
        has_no(attributes@, TlvType::Mtu) ==> info.mtu == requested,
        is_last_of_kind(attributes@, i) && attributes@[i].kind is Mtu ==> {
            &&& (attributes@[i].integer matches Some(value) && 576 <= value <= 9000) ==> Some(
                info.mtu as u64,
            ) == attributes@[i].integer
            &&& !(attributes@[i].integer matches Some(value) && 576 <= value <= 9000) ==> info.mtu
                == requested
        },
        has_no(attributes@, TlvType::Ip) ==> info.address is None,
        has_no(attributes@, TlvType::Gateway) ==> info.gateway is None,
        has_no(attributes@, TlvType::Dns) ==> info.dns_servers@.len() == 0,
        is_last_address(attributes@, i) && attributes@[i].kind is Ip ==> info.address == Some(
            IpAddr::V4(attributes@[i].first_ipv4->Some_0),
        ),
        is_last_address(attributes@, i) && attributes@[i].kind is Gateway ==> info.gateway == Some(
            IpAddr::V4(attributes@[i].first_ipv4->Some_0),
        ),
        is_last_address(attributes@, i) && attributes@[i].kind is Dns ==> info.dns_servers@ == seq![
            IpAddr::V4(attributes@[i].first_ipv4->Some_0),
        ],
        info.session_id == header.session_id && info.token == header.token && info.peer == peer,
        !info.segment_routing,
{
    lemma_ack_encryption(attributes@, header.encryption, i);
    lemma_ack_mtu(attributes@, requested, i);
    lemma_ack_address(attributes@, TlvType::Ip, i);
    lemma_ack_address(attributes@, TlvType::Gateway, i);
    lemma_ack_address(attributes@, TlvType::Dns, i);
}

proof fn lemma_first_of_kind(attributes: Seq<Tlv>, kind: TlvType, i: int)
    requires
        0 <= i < attributes.len(),
        attributes[i].kind == kind,
        forall|k: int| 0 <= k < i ==> (#[trigger] attributes[k]).kind != kind,
    ensures
        first_of_kind(attributes, kind) == Some(i),
    decreases attributes.len(),
{
    let head = attributes.drop_last();
    if i < attributes.len() - 1 {
        assert(head[i] == attributes[i]);
        assert forall|k: int| 0 <= k < i implies (#[trigger] head[k]).kind != kind by {
            assert(head[k] == attributes[k]);
        }
        lemma_first_of_kind(head, kind, i);
    } else {
        assert forall|k: int| 0 <= k < head.len() implies (#[trigger] head[k]).kind != kind by {
            assert(head[k] == attributes[k]);
        }
        lemma_none_of_kind(head, kind);
    }
}

proof fn lemma_none_of_kind(attributes: Seq<Tlv>, kind: TlvType)
    requires
        has_no(attributes, kind),
    ensures
        first_of_kind(attributes, kind) is None,
    decreases attributes.len(),
{
    if attributes.len() > 0 {
        let head = attributes.drop_last();
        assert(attributes[attributes.len() - 1].kind != kind);
        assert forall|k: int| 0 <= k < head.len() implies (#[trigger] head[k]).kind != kind by {
            assert(head[k] == attributes[k]);
        }
        lemma_none_of_kind(head, kind);
    }
}

/// An acknowledgement counts where it carries no proof of its origin, or the
/// number that was sent; with another number, or with none in the proof, it is
/// refused.
pub proof fn law_acknowledgement_is_verified(
    header: &PacketHeader,
    attributes: &Vec<Tlv>,
    peer: SocketAddr,
    nonce: u32,
    requested: u16,
    result: Result<SessionInfo, Error>,
    i: int,
)
    requires
        call_ensures(parse_open_ack, (header, attributes, peer, nonce, requested), result),
    ensures
        has_no(attributes@, TlvType::AuthVerify) ==> result is Ok,
        0 <= i < attributes@.len() && attributes@[i].kind is AuthVerify && (forall|k: int|
            0 <= k < i ==> !((#[trigger] attributes@[k]).kind is AuthVerify)) ==> {
            &&& result is Ok <==> attributes@[i].first_u32 == Some(nonce)
            &&& attributes@[i].first_u32 is None ==> result == Err::<SessionInfo, Error>(
                Error::InvalidTlvValue("AuthVerify"),
            )
            &&& attributes@[i].first_u32 is Some && attributes@[i].first_u32 != Some(nonce)
                ==> result == Err::<SessionInfo, Error>(Error::AuthenticationVerifyMismatch)
        },
{
    if has_no(attributes@, TlvType::AuthVerify) {
        lemma_none_of_kind(attributes@, TlvType::AuthVerify);
    }
    if 0 <= i < attributes@.len() && attributes@[i].kind is AuthVerify && (forall|k: int|
        0 <= k < i ==> !((#[trigger] attributes@[k]).kind is AuthVerify)) {
        lemma_first_of_kind(attributes@, TlvType::AuthVerify, i);
    }
}

/// Whether a packet is well-formed IPv4 of a length: at least a header, and as long
/// as it declares or longer.
pub open spec fn is_ipv4_of(packet: Seq<u8>, length: int) -> bool {
    packet.len() >= 20 && 0x40 <= packet[0] <= 0x4f && length == packet[2] * 256 + packet[3] && 0
        < length <= packet.len()
}

/// Whether a packet is well-formed IPv6 of a length.
pub open spec fn is_ipv6_of(packet: Seq<u8>, length: int) -> bool {
    packet.len() >= 40 && 0x60 <= packet[0] <= 0x6f && length == 40 + packet[4] * 256 + packet[5]
        && length <= packet.len()
}

/// Clear packets of a session are handed to the device, cut to the length that
/// they declare: those sent as IPv6 where they are, and the others whatever their
/// version. What is no packet is refused, and so is IPv4 that comes as IPv6.
pub proof fn law_clear_packets_arrive(
    before: StandardReceiver,
    after: StandardReceiver,
    packet: DecodedPacket,
    method: EncryptionMethod,
    decrypted: Result<Seq<u8>, Error>,
    now: u64,
    result: Result<PacketEffect, Error>,
    length: int,
)
    requires
        standard_effect(before, after, packet, method, decrypted, now, result),
        packet.header.encryption is Clear,
        packet.header.packet_type is Data || packet.header.packet_type is DataDup
            || packet.header.packet_type is DataIpv6,
    ensures
        is_ipv6_of(packet.body@, length) ==> (result matches Ok(PacketEffect::Deliver(bytes))
            && bytes@ == packet.body@.take(length)),
        is_ipv4_of(packet.body@, length) && !(packet.header.packet_type is DataIpv6) ==> (
        result matches Ok(PacketEffect::Deliver(bytes)) && bytes@ == packet.body@.take(length)),
        packet.body@.len() > 0 && !(0x60 <= packet.body@[0] <= 0x6f)
            && packet.header.packet_type is DataIpv6 ==> result is Err,
        packet.body@.len() == 0 || packet.body@[0] < 0x40 || 0x4f < packet.body@[0] < 0x60
            || packet.body@[0] > 0x6f ==> result is Err,
        after.halves4() == before.halves4() && after.halves6() == before.halves6(),
{
}

/// Encrypted packets are handed to the device once they are decrypted, where they
/// come under the session's method; under another one, or where decrypting fails,
/// they are refused. Packets that should come clear and do not are refused too.
pub proof fn law_encrypted_packets_arrive(
    before: StandardReceiver,
    after: StandardReceiver,
    packet: DecodedPacket,
    method: EncryptionMethod,
    decrypted: Result<Seq<u8>, Error>,
    now: u64,
    result: Result<PacketEffect, Error>,
    length: int,
)
    requires
        standard_effect(before, after, packet, method, decrypted, now, result),
    ensures
        (packet.header.packet_type is DataEncrypted || packet.header.packet_type is DataEncryptedDup)
            ==> {
            &&& packet.header.encryption != method ==> result is Err
            &&& decrypted is Err ==> result is Err
            &&& packet.header.encryption == method && (decrypted matches Ok(plain) && (is_ipv4_of(
                plain,
                length,
            ) || is_ipv6_of(plain, length))) ==> (result matches Ok(PacketEffect::Deliver(bytes))
                && bytes@ == decrypted->Ok_0.take(length))
        },
        !(packet.header.encryption is Clear) && (packet.header.packet_type is Data
            || packet.header.packet_type is DataDup || packet.header.packet_type is DataIpv6
            || packet.header.packet_type is IpFragment
            || packet.header.packet_type is IpFragmentIpv6) ==> result is Err,
{
}

/// Packets that carry no data: an echo is noted or answered, a farewell ends the
/// session, and control packets of an opening are passed over.
pub proof fn law_control_packets(
    before: StandardReceiver,
    after: StandardReceiver,
    packet: DecodedPacket,
    method: EncryptionMethod,
    decrypted: Result<Seq<u8>, Error>,
    now: u64,
    result: Result<PacketEffect, Error>,
)
    requires
        standard_effect(before, after, packet, method, decrypted, now, result),
    ensures
        packet.header.packet_type is EchoRequest ==> result matches Ok(PacketEffect::EchoRequested),
        packet.header.packet_type is EchoResponse ==> result matches Ok(PacketEffect::EchoReceived),
        packet.header.packet_type is Close ==> result matches Ok(PacketEffect::Closed),
        packet.header.packet_type is Open || packet.header.packet_type is OpenAck
            || packet.header.packet_type is OpenReject || packet.header.packet_type is PingRequest
            || packet.header.packet_type is PingResponse
            || packet.header.packet_type is SegmentRouting ==> result matches Ok(
            PacketEffect::Ignored,
        ),
        result matches Ok(PacketEffect::Closed) ==> packet.header.packet_type is Close,
{
}

/// Both halves of an IPv4 packet, in either order, give the packet; IPv4 halves
/// wait apart from IPv6 halves.
pub proof fn law_fragments_arrive(
    before: StandardReceiver,
    after: StandardReceiver,
    packet: DecodedPacket,
    method: EncryptionMethod,
    decrypted: Result<Seq<u8>, Error>,
    now: u64,
    result: Result<PacketEffect, Error>,
    length: int,
)
    requires
        standard_effect(before, after, packet, method, decrypted, now, result),
        packet.header.encryption is Clear,
        parse_error(packet.body@) is None,
    ensures
        packet.header.packet_type is IpFragment ==> {
            let fragment = parsed(packet.body@, FragmentIdEndian::Big);
            &&& after.halves6() == before.halves6()
            &&& before.halves4().contains_key(fragment.id) && now
                - before.halves4()[fragment.id].created <= 100_000_000
                && before.halves4()[fragment.id].fragment.end_of_packet != fragment.end_of_packet
                ==> {
                let other = before.halves4()[fragment.id].fragment.data@;
                let whole = if fragment.end_of_packet {
                    other + fragment.data
                } else {
                    fragment.data + other
                };
                whole.len() <= 8192 && is_ipv4_of(whole, length) ==> (result matches Ok(
                    PacketEffect::Deliver(bytes),
                ) && bytes@ == whole.take(length))
            }
            &&& !before.halves4().contains_key(fragment.id) ==> result matches Ok(
                PacketEffect::Held,
            )
        },
        packet.header.packet_type is IpFragmentIpv6 ==> {
            let fragment = parsed(packet.body@, FragmentIdEndian::Big);
            &&& after.halves4() == before.halves4()
            &&& before.halves6().contains_key(fragment.id) && now
                - before.halves6()[fragment.id].created <= 100_000_000
                && before.halves6()[fragment.id].fragment.end_of_packet != fragment.end_of_packet
                ==> {
                let other = before.halves6()[fragment.id].fragment.data@;
                let whole = if fragment.end_of_packet {
                    other + fragment.data
                } else {
                    fragment.data + other
                };
                whole.len() <= 8192 && is_ipv6_of(whole, length) ==> (result matches Ok(
                    PacketEffect::Deliver(bytes),
                ) && bytes@ == whole.take(length))
            }
            &&& !before.halves6().contains_key(fragment.id) ==> result matches Ok(
                PacketEffect::Held,
            )
        },
{
}

/// The packets of a session bear its identifier, token and method, and are known
/// by the first two.
pub proof fn law_session_header(
    info: &SessionInfo,
    packet_type: PacketType,
    header: PacketHeader,
    other: &PacketHeader,
    answer: bool,
)
    requires
        call_ensures(SessionInfo::header, (info, packet_type), header),
        call_ensures(SessionInfo::owns, (info, other), answer),
    ensures
        header.packet_type == packet_type && header.encryption == info.encryption,
        header.session_id == info.session_id && header.token == info.token,
        answer <==> other.session_id == info.session_id && other.token == info.token,
{
}

/// A connection that ends by itself is not opened again; one that breaks is, after
/// the delay that is due, until the attempts are used up; and one that held for
/// twenty seconds starts over with both.
pub proof fn law_reconnecting(state: ReconnectState, policy: ReconnectPolicy, end: AttemptEnd)
    ensures
        ({
            let (after, action) = reconnect_step(state, policy, end);
            let held = end matches AttemptEnd::Ended(_, lasted) && lasted >= 20_000_000_000;
            let retry = if held {
                0
            } else {
                state.retry
            };
            let delay = if held {
                policy.initial_delay_ms
            } else {
                state.delay_ms
            };
            let over = end matches AttemptEnd::Ended(why, _) && (why is LocalShutdown
                || why is ServerClose);
            &&& over ==> (end matches AttemptEnd::Ended(why, _) && action
                == ReconnectAction::Return(why))
            &&& !over && retry >= policy.attempts ==> action is GiveUp
            &&& !over && retry < policy.attempts ==> action == ReconnectAction::WaitMillis(delay)
                && after.retry == retry + 1 && (after.delay_ms == if 2 * delay
                > policy.max_delay_ms {
                policy.max_delay_ms as int
            } else {
                2 * delay
            })
        }),
{
}

/// A new start has no attempts behind it, and waits for as long as the policy says.
pub proof fn law_fresh_reconnect(policy: &ReconnectPolicy, state: ReconnectState)
    requires
        call_ensures(ReconnectState::new, (policy,), state),
    ensures
        state.retry == 0,
        state.delay_ms == policy.initial_delay_ms,
{
}

/// The tunnel keeps its assignment through a reconnection where the address, the
/// gateway, the MTU and the way of routing stay as they are.
pub proof fn law_same_assignment(
    expected: &SessionInfo,
    actual: &SessionInfo,
    result: Result<(), Error>,
)
    requires
        call_ensures(ensure_same_tun_assignment, (expected, actual), result),
    ensures
        result is Ok <==> expected.address == actual.address && expected.gateway == actual.gateway
            && expected.mtu == actual.mtu && expected.segment_routing == actual.segment_routing,
        result is Err ==> result->Err_0 is InvalidConfig,
{
}

/// A heartbeat is lost after ten requests without an answer, or more than twenty
/// seconds after the last one.
pub proof fn law_heartbeat_limits(tracker: HeartbeatTracker, now: u64, answer: bool)
    requires
        call_ensures(HeartbeatTracker::timed_out, (&tracker, now), answer),
    ensures
        answer <==> tracker.missed >= 10 || now > tracker.last_response + 20_000_000_000,
{
}

/// An answer sets the count of unanswered requests back, notes when it came and how
/// long it took, and keeps the shortest and the longest time.
pub proof fn law_answer_is_noted(tracker: HeartbeatTracker, rtt: u32, now: u64)
    ensures
        ({
            let after = observed(tracker, rtt, now);
            &&& after.missed == 0 && after.last_response == now && after.current == rtt
            &&& after.maximum >= rtt && after.maximum >= tracker.maximum && (after.maximum == rtt
                || after.maximum == tracker.maximum)
            &&& tracker.minimum == 0 ==> after.minimum == rtt
            &&& tracker.minimum != 0 ==> after.minimum <= rtt && after.minimum <= tracker.minimum && (
            after.minimum == rtt || after.minimum == tracker.minimum)
            &&& requested(tracker).missed >= tracker.missed && (tracker.missed < u32::MAX
                ==> requested(tracker).missed == tracker.missed + 1)
            &&& requested(tracker).last_response == tracker.last_response
                && requested(tracker).current == tracker.current
        }),
{
}

/// How long an echo took: the time since it was sent, as far as it can be shown;
/// one from the future is refused.
pub proof fn law_round_trip(
    tick: u64,
    now: u64,
    result: Result<u32, Error>,
)
    requires
        call_ensures(sr_echo_round_trip, (tick, now), result),
    ensures
        result is Ok <==> tick <= now,
        tick <= now && now - tick <= 0xffff_ffff ==> result->Ok_0 == now - tick,
        tick <= now && now - tick > 0xffff_ffff ==> result->Ok_0 == 0xffff_ffff,
        round_trip(tick, now) == if result is Ok {
            Some(result->Ok_0)
        } else {
            None
        },
{
}

/// Why a session ends before it waits for the next datagram: it was told to, or a
/// worker failed.
pub proof fn law_receive_gate(
    shutdown: bool,
    running: bool,
    failure: Option<WorkerFailure>,
    end: Option<SessionEnd>,
)
    requires
        call_ensures(receive_gate, (shutdown, running, failure), end),
    ensures
        shutdown || !running ==> end == Some(SessionEnd::LocalShutdown),
        !shutdown && running && failure is None ==> end is None,
        !shutdown && running && failure == Some(WorkerFailure::HeartbeatTimeout) ==> end == Some(
            SessionEnd::HeartbeatTimeout,
        ),
        !shutdown && running && failure == Some(WorkerFailure::Transport) ==> end == Some(
            SessionEnd::TransportFailure,
        ),
{
}

/// A packet must come under the encryption that is due, and a monitor request
/// under the identifier of the path.
pub proof fn law_expected_encryption(
    header: &PacketHeader,
    expected: EncryptionMethod,
    result: Result<(), Error>,
    sr_id: u32,
    monitor_id: u32,
    checked: Result<(), Error>,
)
    requires
        call_ensures(require_encryption, (header, expected), result),
        call_ensures(check_sr_echo_request, (sr_id, monitor_id), checked),
    ensures
        result is Ok <==> header.encryption == expected,
        checked is Ok <==> sr_id == monitor_id,
{
}

/// A ping is answered by an empty packet that bears its identifier and token.
pub proof fn law_ping_answer(
    response: &DecodedPacket,
    session_id: u16,
    token: u32,
    result: Result<(), Error>,
)
    requires
        call_ensures(check_ping_response, (response, session_id, token), result),
    ensures
        result is Ok <==> response.header.packet_type is PingResponse
            && response.header.encryption is Clear && response.header.session_id == session_id
            && response.header.token == token && response.body@.len() == 0,
{
}

/// Waiting goes in naps of at most a tenth of a second, and ends when the time is
/// over.
pub proof fn law_naps(elapsed: u64, duration: u64, nap: Option<u64>)
    requires
        call_ensures(next_nap, (elapsed, duration), nap),
    ensures
        nap is None <==> elapsed >= duration,
        nap matches Some(time) ==> 0 < time <= 100_000_000 && elapsed + time <= duration && (time
            == 100_000_000 || elapsed + time == duration),
{
}

/// What a refusal of the server means: the code that stands for the first keyword
/// in it.
pub proof fn law_rejection_codes(upper: &str, code: u16)
    requires
        call_ensures(code_of_keyword, (upper,), code),
    ensures
        ({
            let holds = |word: Seq<char>| contains_text(upper@, word);
            let lengthy = holds("TOOLONG"@);
            let free = holds("FREEIP"@);
            let client = holds("CLNT"@) || holds("PPPOECLNT"@) || holds("PPOECLNT"@);
            let ppp = holds("PPPOE"@) || holds("PPOE"@) || holds("PPPOE_INSTAL"@) || holds("PPOE_INSTAL"@)
                || holds("PPPOEINSTALL"@) || holds("PPOEINSTALL"@);
            let early = lengthy || free || client || ppp;
            let fail = holds("FAIL"@);
            let login = holds("NAME"@) || holds("PASS"@);
            let account = holds("ABLED"@) || holds("PIRED"@);
            let pool = holds("FULL"@) || holds("EMPTY"@) || holds("POOL"@);
            let entry = holds("ENTRY"@) || holds("NO_ENTRY"@);
            let before_pool = early || fail || login || account;
            &&& lengthy ==> code == 2100
            &&& free && !lengthy ==> code == 2111
            &&& client && !lengthy && !free ==> code == 2108
            &&& ppp && !lengthy && !free && !client ==> code == 2112
            &&& fail && !early ==> code == 2116
            &&& holds("NAME"@) && !early && !fail ==> code == 2102
            &&& holds("PASS"@) && !early && !fail && !holds("NAME"@) ==> code == 2105
            &&& holds("ABLED"@) && !early && !fail && !login ==> code == 2103
            &&& holds("PIRED"@) && !early && !fail && !login && !holds("ABLED"@) ==> code == 2104
            &&& (holds("FULL"@) || holds("EMPTY"@)) && !before_pool ==> code == 2115
            &&& holds("POOL"@) && !before_pool && !holds("FULL"@) && !holds("EMPTY"@) ==> code == 2106
            &&& entry && !before_pool && !pool ==> code == 2107
            &&& holds("BIND"@) && !before_pool && !pool && !entry ==> code == 2109
            &&& holds("NULL"@) && !before_pool && !pool && !entry && !holds("BIND"@) ==> code == 2110
            &&& holds("POLL"@) && !before_pool && !pool && !entry && !holds("BIND"@) && !holds("NULL"@)
                ==> code == 2101
            &&& !before_pool && !pool && !entry && !holds("BIND"@) && !holds("NULL"@) && !holds("POLL"@)
                ==> code == 2999
        }),
{
}

/// A refusal is shown as its trimmed message; where the server signed it, only
/// under the number that was sent.
pub proof fn law_rejection_message(
    body: &[u8],
    parsed_at: &Vec<Option<Vec<Tlv>>>,
    nonce: u32,
    result: Result<Error, Error>,
    offset: int,
)
    requires
        call_ensures(parse_rejection, (body, parsed_at, nonce), result),
        parsed_at@.len() == body@.len(),
    ensures
        (forall|i: int| 0 <= i < parsed_at@.len() ==> #[trigger] parsed_at@[i] is None) ==> (
        result matches Ok(Error::AuthenticationRejected { code, message }) && message@
            == crate::text::trimmed(lossy_text(body@))),
        first_structured(parsed_at@, offset) ==> {
            let attributes = parsed_at@[offset]->Some_0@;
            let verify = first_of_kind(attributes, TlvType::AuthVerify);
            &&& verify is Some
            &&& attributes[verify->Some_0].first_u32 is Some
                && attributes[verify->Some_0].first_u32 != Some(nonce) ==> result == Err::<
                Error,
                Error,
            >(Error::AuthenticationVerifyMismatch)
            &&& attributes[verify->Some_0].first_u32 == Some(nonce) && has_no(
                attributes,
                TlvType::ErrorMessage,
            ) ==> (result matches Ok(Error::AuthenticationRejected { code, message }) && message@
                == crate::text::trimmed(lossy_text(body@.take(offset))))
            &&& attributes[verify->Some_0].first_u32 == Some(nonce) && (first_of_kind(
                attributes,
                TlvType::ErrorMessage,
            ) matches Some(k) && 0 <= k < attributes.len()) ==> (result matches Ok(
                Error::AuthenticationRejected { code, message },
            ) && message@ == crate::text::trimmed(
                lossy_text(
                    attributes[first_of_kind(attributes, TlvType::ErrorMessage)->Some_0].value@,
                ),
            ))
        },
{
    if forall|i: int| 0 <= i < parsed_at@.len() ==> #[trigger] parsed_at@[i] is None {
        assert forall|i: int| !first_structured(parsed_at@, i) by {
            if 0 <= i < parsed_at@.len() {
                assert(parsed_at@[i] is None);
            }
        }
    }
    if first_structured(parsed_at@, offset) {
        let chosen = choose|k: int| first_structured(parsed_at@, k);
        assert(first_structured(parsed_at@, chosen));
        assert(structured_at(parsed_at@, chosen) && structured_at(parsed_at@, offset));
        assert(chosen == offset);
        let attributes = parsed_at@[offset]->Some_0@;
        if has_no(attributes, TlvType::ErrorMessage) {
            lemma_none_of_kind(attributes, TlvType::ErrorMessage);
        }
    }
}

/// A packet that must be of a version is refused where it is of the other one; what
/// is accepted is cut to the length that it declares.
pub proof fn law_inner_packet(
    packet: &[u8],
    expected_version: Option<u8>,
    result: Result<&[u8], Error>,
    length: int,
)
    requires
        call_ensures(validate_inner_packet, (packet, expected_version), result),
    ensures
        is_ipv4_of(packet@, length) ==> {
            &&& result is Ok <==> expected_version is None || expected_version == Some(4u8)
            &&& result matches Ok(inner) ==> inner@ == packet@.take(length)
        },
        is_ipv6_of(packet@, length) ==> {
            &&& result is Ok <==> expected_version is None || expected_version == Some(6u8)
            &&& result matches Ok(inner) ==> inner@ == packet@.take(length)
        },
        result is Ok ==> packet@.len() >= 20 && (0x40 <= packet@[0] <= 0x4f || 0x60 <= packet@[0]
            <= 0x6f),
{
}

/// Requests are counted until an answer comes, and bear the delays that are known; an
/// answer from the future is refused and counts for nothing.
pub proof fn law_heartbeat_calls(
    tick_micros: u64,
    now_micros: u64,
    now: u64,
    body: EchoBody,
    result: Result<(), Error>,
    fresh: HeartbeatTracker,
)
    requires
        call_ensures(HeartbeatTracker::new, (now,), fresh),
    ensures
        fresh.last_response == now && fresh.missed == 0 && fresh.current == 0 && fresh.minimum == 0
            && fresh.maximum == 0,
        forall|tracker: &mut HeartbeatTracker| #[trigger]
            call_ensures(HeartbeatTracker::request_body, (tracker, tick_micros), body) ==> {
                &&& body.tick_micros == tick_micros
                &&& body.stats.current_micros == (*tracker).current
                &&& body.stats.minimum_micros == (*tracker).minimum
                &&& body.stats.maximum_micros == (*tracker).maximum
                &&& (*tracker).missed < u32::MAX ==> (*final(tracker)).missed == (*tracker).missed
                    + 1
                &&& (*final(tracker)).last_response == (*tracker).last_response
            },
        forall|tracker: &mut HeartbeatTracker| #[trigger]
            call_ensures(observe_echo, (tracker, tick_micros, now_micros, now), result) ==> {
                &&& result is Ok <==> tick_micros <= now_micros
                &&& result is Err ==> *final(tracker) == *tracker
                &&& result is Ok ==> (*final(tracker)).missed == 0 && (*final(tracker)).last_response == now
                &&& result is Ok && now_micros - tick_micros <= 0xffff_ffff ==> (*final(tracker)).current == now_micros - tick_micros
                &&& result is Ok ==> (*final(tracker)).maximum >= (*final(tracker)).current
                &&& result is Ok && (*tracker).minimum > 0 ==> (*final(tracker)).minimum
                    <= (*tracker).minimum
            },
{
}

/// The same holds of each call that follows an attempt.
pub proof fn law_after_attempt(policy: &ReconnectPolicy, end: AttemptEnd, action: ReconnectAction)
    ensures
        forall|state: &mut ReconnectState| #[trigger]
            call_ensures(ReconnectState::after_attempt, (state, policy, end), action) ==> {
                let held = end matches AttemptEnd::Ended(_, lasted) && lasted >= 20_000_000_000;
                let over = end matches AttemptEnd::Ended(why, _) && (why is LocalShutdown
                    || why is ServerClose);
                &&& over ==> action == ReconnectAction::Return(end->Ended_0)
                &&& !over && held && policy.attempts > 0 ==> action == ReconnectAction::WaitMillis(
                    policy.initial_delay_ms,
                ) && (*final(state)).retry == 1
                &&& !over && !held && (*state).retry >= policy.attempts ==> action is GiveUp
                &&& !over && !held && (*state).retry < policy.attempts ==> action
                    == ReconnectAction::WaitMillis((*state).delay_ms) && (*final(state)).retry
                    == (*state).retry + 1
            },
{
}

/// A packet is written whole or not at all; a clock counts in microseconds.
pub proof fn law_written_and_counted(
    written: usize,
    length: usize,
    result: Result<(), Error>,
    elapsed_ns: u128,
    micros: u64,
)
    requires
        call_ensures(check_written, (written, length), result),
        call_ensures(monotonic_micros, (elapsed_ns,), micros),
    ensures
        result is Ok <==> written == length,
        result is Err ==> result->Err_0 is Io,
        micros <= elapsed_ns / 1_000,
        elapsed_ns < 0x1_0000_0000_0000_0000 ==> micros == elapsed_ns / 1_000,
{
}

/// A client has the settings and the login that it was given, once they are valid;
/// and does not show its password.
pub proof fn law_client(
    config: ClientConfig,
    username: &str,
    password: &str,
    cipher: Result<(), Error>,
    found: Result<Vec<SocketAddr>, Error>,
    result: Result<Client, Error>,
    credentials: Credentials,
    shown: String,
)
    requires
        call_ensures(Client::new, (config, username, password, cipher, found), result),
        call_ensures(Credentials::debug_string, (&credentials,), shown),
    ensures
        result matches Ok(client) ==> {
            &&& client.settings() == config
            &&& client.login().user() == username@ && client.login().secret() == password@
            &&& 576 <= config.mtu <= 9000
            &&& found is Ok && found->Ok_0@.len() > 0
        },
        found is Err ==> result is Err,
        shown@ == "Credentials { username: "@ + crate::text::quoted_text(credentials.user())
            + ", password: \"[REDACTED]\" }"@,
{
}

/// A refusal is signed where attributes at its end name a user and hold a proof of
/// four bytes, and the first place at which they do counts.
pub proof fn law_signed_refusal(
    body: &[u8],
    parsed_at: &Vec<Option<Vec<Tlv>>>,
    nonce: u32,
    result: Result<Error, Error>,
    offset: int,
    user: int,
    proof_at: int,
)
    requires
        call_ensures(parse_rejection, (body, parsed_at, nonce), result),
        parsed_at@.len() == body@.len(),
        0 <= offset < parsed_at@.len(),
        forall|k: int| 0 <= k < offset ==> #[trigger] parsed_at@[k] is None,
        parsed_at@[offset] is Some,
        ({
            let attributes = parsed_at@[offset]->Some_0@;
            &&& 0 <= user < attributes.len() && attributes[user].kind is Username
            &&& 0 <= proof_at < attributes.len() && attributes[proof_at].kind is AuthVerify
            &&& forall|k: int| 0 <= k < proof_at ==> !((#[trigger] attributes[k]).kind is AuthVerify)
            &&& attributes[proof_at].value@.len() == 4
        }),
    ensures
        ({
            let verify = parsed_at@[offset]->Some_0@[proof_at];
            &&& verify.first_u32 is Some && verify.first_u32 != Some(nonce) ==> result == Err::<
                Error,
                Error,
            >(Error::AuthenticationVerifyMismatch)
            &&& verify.first_u32 == Some(nonce) ==> (result matches Ok(
                Error::AuthenticationRejected { code, message },
            ))
            &&& verify.first_u32 is None ==> result == Err::<Error, Error>(
                Error::InvalidTlvValue("AuthVerify"),
            )
        }),
{
    let attributes = parsed_at@[offset]->Some_0@;
    lemma_first_of_kind(attributes, TlvType::AuthVerify, proof_at);
    if first_of_kind(attributes, TlvType::Username) is None {
        lemma_some_of_kind(attributes, TlvType::Username, user);
    }
    assert(structured_at(parsed_at@, offset));
    assert forall|k: int| 0 <= k < offset implies !#[trigger] structured_at(parsed_at@, k) by {
        assert(parsed_at@[k] is None);
    }
    assert(first_structured(parsed_at@, offset));
    let chosen = choose|k: int| first_structured(parsed_at@, k);
    assert(structured_at(parsed_at@, chosen));
    assert(chosen == offset);
}

proof fn lemma_some_of_kind(attributes: Seq<Tlv>, kind: TlvType, i: int)
    requires
        0 <= i < attributes.len(),
        attributes[i].kind == kind,
    ensures
        first_of_kind(attributes, kind) is Some,
    decreases attributes.len(),
{
    if i < attributes.len() - 1 {
        assert(attributes.drop_last()[i] == attributes[i]);
        lemma_some_of_kind(attributes.drop_last(), kind, i);
    }
}

} // verus!
