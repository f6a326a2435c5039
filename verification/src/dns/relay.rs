//! Handing DNS questions to resolvers outside the tunnel.
//!
//! The relay decides; whoever drives it exchanges the datagrams.

use super::message::{
    decode_message, message_with_id, payload_limit, same_questions, DnsMessage,
};
use super::message::{
    all_match, dns_decoded, dns_payload_limit, dns_with_id, wire_id, DnsMessageView,
};
use super::platform::PhysicalResolver;
use crate::bytes::{push_all, push_be16};
use crate::bytes::{be16_bytes, be16_value};
use vstd::prelude::*;
use vstd::slice::slice_to_vec;

verus! {

pub const MAX_UDP_DNS_MESSAGE: usize = 65_507;

pub const DEFAULT_RELAY_TIMEOUT_MS: u64 = 3_000;

pub const DEFAULT_MAX_CONCURRENT: usize = 64;

/// Limits of a relay.
#[derive(Debug, Clone, Copy, PartialEq, Eq, Structural)]
pub struct RelayConfig {
    pub timeout_ms: u64,
    pub max_concurrent: usize,
}

impl Default for RelayConfig {
    fn default() -> (config: Self)
        ensures
            config.timeout_ms == DEFAULT_RELAY_TIMEOUT_MS,
            config.max_concurrent == DEFAULT_MAX_CONCURRENT,
    {
        RelayConfig {
            timeout_ms: DEFAULT_RELAY_TIMEOUT_MS,
            max_concurrent: DEFAULT_MAX_CONCURRENT,
        }
    }
}

/// The kind of a relay failure.
#[derive(Debug, Clone, Copy, PartialEq, Eq, Structural)]
pub enum RelayErrorKind {
    WouldBlock,
    Interrupted,
    InvalidInput,
    NotFound,
    InvalidData,
    TimedOut,
    Other,
}

/// Why a question was not answered.
#[derive(Debug, Clone)]
pub struct RelayError {
    pub kind: RelayErrorKind,
    pub message: String,
}

/// A failure with its message as a sequence.
#[verifier::ext_equal]
pub struct RelayErrorView {
    pub kind: RelayErrorKind,
    pub message: Seq<char>,
}

impl View for RelayError {
    type V = RelayErrorView;

    open spec fn view(&self) -> RelayErrorView {
        RelayErrorView { kind: self.kind, message: self.message@ }
    }
}

fn failure(kind: RelayErrorKind, message: &str) -> (error: RelayError)
    ensures
        error@ == (RelayErrorView { kind, message: message@ }),
{
    RelayError { kind, message: message.to_owned() }
}

pub open spec fn limit_reached() -> RelayErrorView {
    RelayErrorView {
        kind: RelayErrorKind::WouldBlock,
        message: "DNS relay concurrency limit reached"@,
    }
}

pub open spec fn generation_changed() -> RelayErrorView {
    RelayErrorView { kind: RelayErrorKind::Interrupted, message: "DNS relay generation changed"@ }
}

/// A question on its way through the resolvers.
#[derive(Debug)]
pub struct RelayJob {
    pub request: Vec<u8>,
    /// The question as it was last sent, with the identifier that the relay gave it.
    pub message: DnsMessage,
    pub original_id: u16,
    pub generation: u64,
    pub resolvers: Vec<PhysicalResolver>,
    pub next: usize,
}

/// One question to send to one resolver.
#[derive(Debug)]
pub struct RelayAttempt {
    pub resolver: PhysicalResolver,
    pub relay_id: u16,
    pub request: Vec<u8>,
}

/// What became of one attempt.
#[derive(Debug)]
pub enum AttemptOutcome {
    Answered(Vec<u8>),
    Failed(RelayError),
}

/// Resolvers outside the tunnel, how many questions are on their way, and the
/// generation that in-flight work belongs to.
#[derive(Debug)]
pub struct DnsRelay {
    config: RelayConfig,
    resolvers: Vec<PhysicalResolver>,
    generation: u64,
    active: usize,
    next_id: u16,
}

#[verifier::ext_equal]
pub struct RelayView {
    pub config: RelayConfig,
    pub resolvers: Seq<PhysicalResolver>,
    pub generation: u64,
    pub active: usize,
    pub next_id: u16,
}

impl View for DnsRelay {
    type V = RelayView;

    closed spec fn view(&self) -> RelayView {
        RelayView {
            config: self.config,
            resolvers: self.resolvers@,
            generation: self.generation,
            active: self.active,
            next_id: self.next_id,
        }
    }
}

impl RelayView {
    /// No more questions are on their way than the limit allows.
    pub open spec fn wf(self) -> bool {
        self.active <= self.config.max_concurrent
    }
}

/// Copies a list of resolvers.
pub fn copy_resolvers(list: &Vec<PhysicalResolver>) -> (copy: Vec<PhysicalResolver>)
    ensures
        copy@ == list@,
{
    let mut copy: Vec<PhysicalResolver> = Vec::new();
    let mut i: usize = 0;
    while i < list.len()
        invariant
            i <= list@.len(),
            copy@ =~= list@.take(i as int),
        decreases list@.len() - i,
    {
        copy.push(list[i].copy());
        i += 1;
    }
    assert(list@.take(i as int) =~= list@);
    copy
}

/// Why a decoded request cannot be relayed.
pub open spec fn request_error(
    relay: RelayView,
    generation: u64,
    message: Result<DnsMessageView, Seq<char>>,
) -> Option<RelayErrorView> {
    if relay.active >= relay.config.max_concurrent {
        Some(limit_reached())
    } else if generation != relay.generation {
        Some(generation_changed())
    } else {
        match message {
            Err(reason) => Some(
                RelayErrorView { kind: RelayErrorKind::InvalidInput, message: reason },
            ),
            Ok(message) => if message.response || message.questions.len() != 1 {
                Some(
                    RelayErrorView {
                        kind: RelayErrorKind::InvalidInput,
                        message: "DNS relay requires one query"@,
                    },
                )
            } else if relay.resolvers.len() == 0 {
                Some(
                    RelayErrorView {
                        kind: RelayErrorKind::NotFound,
                        message: "no physical DNS resolver is available"@,
                    },
                )
            } else {
                None
            },
        }
    }
}

/// The view of a message, or of the words why there is none.
pub open spec fn message_view(message: Result<DnsMessage, String>) -> Result<
    DnsMessageView,
    Seq<char>,
> {
    match message {
        Ok(message) => Ok(message@),
        Err(reason) => Err(reason@),
    }
}

/// Whether a message answers a question as it was sent.
pub open spec fn answers_question(request: DnsMessageView, response: DnsMessageView) -> bool {
    response.response && response.id == request.id && response.op_code == request.op_code
        && all_match(response.questions, request.questions)
}

/// A message with another identifier.
pub open spec fn with_id(message: DnsMessageView, id: u16) -> DnsMessageView {
    DnsMessageView { id, ..message }
}

pub fn validate_response(request: &DnsMessage, response: &DnsMessage) -> (result: Result<
    (),
    RelayError,
>)
    ensures
        match result {
            Ok(_) => answers_question(request@, response@),
            Err(error) => !answers_question(request@, response@) && error@ == (RelayErrorView {
                kind: RelayErrorKind::InvalidData,
                message: "physical DNS response does not match the query"@,
            }),
        },
{
    if !response.response || response.id != request.id || response.op_code != request.op_code
        || !same_questions(&response.questions, &request.questions) {
        return Err(
            failure(RelayErrorKind::InvalidData, "physical DNS response does not match the query"),
        );
    }
    Ok(())
}

/// The bytes that answer the original question, or why there are none: the
/// response under the original identifier, no longer than a UDP packet carries.
pub open spec fn restored(response: Seq<u8>, original_id: u16) -> Result<
    Seq<u8>,
    RelayErrorView,
> {
    match dns_with_id(response, original_id) {
        Err(reason) => Err(
            RelayErrorView { kind: RelayErrorKind::InvalidData, message: reason },
        ),
        Ok(bytes) => if bytes.len() > MAX_UDP_DNS_MESSAGE {
            Err(
                RelayErrorView {
                    kind: RelayErrorKind::InvalidData,
                    message: "DNS response is too large for an IPv4 UDP packet"@,
                },
            )
        } else {
            Ok(bytes)
        },
    }
}

/// A relay once it gave out an identifier. Identifiers start over behind the last.
pub open spec fn one_id_later(relay: RelayView) -> RelayView {
    RelayView {
        next_id: if relay.next_id == u16::MAX {
            0
        } else {
            (relay.next_id + 1) as u16
        },
        ..relay
    }
}

impl DnsRelay {
    pub fn new(config: RelayConfig, resolvers: Vec<PhysicalResolver>, first_id: u16) -> (relay:
        Self)
        ensures
            relay@ == (RelayView {
                config,
                resolvers: resolvers@,
                generation: 1,
                active: 0,
                next_id: first_id,
            }),
            relay@.wf(),
    {
        DnsRelay { config, resolvers, generation: 1, active: 0, next_id: first_id }
    }

    pub fn generation(&self) -> (generation: u64)
        ensures
            generation == self@.generation,
    {
        self.generation
    }

    /// Replaces the resolvers; work that was begun before is of an older generation.
    pub fn update_resolvers(&mut self, resolvers: Vec<PhysicalResolver>) -> (generation: u64)
        requires
            old(self)@.generation < u64::MAX,
        ensures
            generation == old(self)@.generation + 1,
            final(self)@ == (RelayView {
                resolvers: resolvers@,
                generation,
                ..old(self)@
            }),
    {
        self.resolvers = resolvers;
        self.generation = self.generation + 1;
        self.generation
    }

    pub fn reset_generation(&mut self) -> (generation: u64)
        requires
            old(self)@.generation < u64::MAX,
        ensures
            generation == old(self)@.generation + 1,
            final(self)@ == (RelayView { generation, ..old(self)@ }),
    {
        self.generation = self.generation + 1;
        self.generation
    }

    pub fn has_resolvers(&self) -> (answer: bool)
        ensures
            answer == (self@.resolvers.len() > 0),
    {
        self.resolvers.len() > 0
    }

    /// Takes one of the places for questions on their way.
    pub fn acquire(&mut self) -> (result: Result<(), RelayError>)
        ensures
            match result {
                Ok(_) => old(self)@.active < old(self)@.config.max_concurrent && final(self)@ == (
                RelayView { active: (old(self)@.active + 1) as usize, ..old(self)@ }),
                Err(error) => old(self)@.active >= old(self)@.config.max_concurrent && final(self)@
                    == old(self)@ && error@ == limit_reached(),
            },
            old(self)@.wf() ==> final(self)@.wf(),
    {
        if self.active >= self.config.max_concurrent {
            return Err(
                failure(RelayErrorKind::WouldBlock, "DNS relay concurrency limit reached"),
            );
        }
        self.active = self.active + 1;
        Ok(())
    }

    /// Gives a place back.
    pub fn release(&mut self)
        requires
            old(self)@.active > 0,
        ensures
            final(self)@ == (RelayView { active: (old(self)@.active - 1) as usize, ..old(self)@ }),
            old(self)@.wf() ==> final(self)@.wf(),
    {
        self.active = self.active - 1;
    }

    /// Begins to relay a question. A place is taken where this succeeds.
    pub fn begin(&mut self, request: &[u8], generation: u64) -> (result: Result<
        RelayJob,
        RelayError,
    >)
        ensures
            old(self)@.wf() ==> final(self)@.wf(),
            match result {
                Ok(job) => request_error(old(self)@, generation, dns_decoded(request@)) is None
                    && job.request@ == request@ && dns_decoded(request@) == Ok::<
                    DnsMessageView,
                    Seq<char>,
                >(job.message@)
                    && job.original_id == job.message.id && job.original_id == wire_id(request@)
                    && job.generation == generation && job.resolvers@ == old(self)@.resolvers
                    && job.next == 0 && final(self)@ == (RelayView {
                    active: (old(self)@.active + 1) as usize,
                    ..old(self)@
                }),
                Err(error) => request_error(old(self)@, generation, dns_decoded(request@)) == Some(
                    error@,
                ) && final(self)@ == old(self)@,
            },
    {
        let message = decode_message(request);
        self.begin_decoded(request, message, generation)
    }

    /// Begins to relay a question that is decoded already.
    pub fn begin_decoded(
        &mut self,
        request: &[u8],
        message: Result<DnsMessage, String>,
        generation: u64,
    ) -> (result: Result<RelayJob, RelayError>)
        ensures
            old(self)@.wf() ==> final(self)@.wf(),
            match result {
                Ok(job) => request_error(old(self)@, generation, message_view(message)) is None
                    && job.request@ == request@ && message == Ok::<DnsMessage, String>(
                    job.message,
                ) && job.original_id
                    == job.message.id && job.generation == generation && job.resolvers@ == old(
                    self,
                )@.resolvers && job.next == 0 && final(self)@ == (RelayView {
                    active: (old(self)@.active + 1) as usize,
                    ..old(self)@
                }),
                Err(error) => request_error(old(self)@, generation, message_view(message)) == Some(
                    error@,
                ) && final(self)@ == old(self)@,
            },
    {
        if self.active >= self.config.max_concurrent {
            return Err(
                failure(RelayErrorKind::WouldBlock, "DNS relay concurrency limit reached"),
            );
        }
        if generation != self.generation {
            return Err(
                failure(RelayErrorKind::Interrupted, "DNS relay generation changed"),
            );
        }
        match message {
            Err(reason) => Err(
                RelayError { kind: RelayErrorKind::InvalidInput, message: reason },
            ),
            Ok(message) => {
                if message.response || message.questions.len() != 1 {
                    return Err(
                        failure(RelayErrorKind::InvalidInput, "DNS relay requires one query"),
                    );
                }
                if self.resolvers.len() == 0 {
                    return Err(
                        failure(RelayErrorKind::NotFound, "no physical DNS resolver is available"),
                    );
                }
                let original_id: u16 = message.id;
                let resolvers = copy_resolvers(&self.resolvers);
                self.active = self.active + 1;
                Ok(
                    RelayJob {
                        request: slice_to_vec(request),
                        message,
                        original_id,
                        generation,
                        resolvers,
                        next: 0,
                    },
                )
            },
        }
    }

    /// The next resolver to ask, with the question under a fresh identifier;
    /// `None` when every resolver was asked.
    pub fn next_attempt(&mut self, job: &mut RelayJob) -> (result: Result<
        Option<RelayAttempt>,
        RelayError,
    >)
        requires
            old(job).next <= old(job).resolvers@.len(),
        ensures
            final(job).next <= final(job).resolvers@.len(),
            final(job).request == old(job).request,
            final(job).original_id == old(job).original_id,
            final(job).generation == old(job).generation,
            final(job).resolvers == old(job).resolvers,
            match result {
                Ok(None) => old(job).next == old(job).resolvers@.len() && final(self)@ == old(
                    self,
                )@ && *final(job) == *old(job),
                Ok(Some(attempt)) => {
                    &&& old(job).next < old(job).resolvers@.len()
                    &&& old(self)@.generation == old(job).generation
                    &&& attempt.resolver == old(job).resolvers@[old(job).next as int]
                    &&& attempt.relay_id == old(self)@.next_id
                    &&& dns_with_id(old(job).request@, attempt.relay_id) == Ok::<
                        Seq<u8>,
                        Seq<char>,
                    >(attempt.request@)
                    &&& wire_id(attempt.request@) == attempt.relay_id
                    &&& final(job).next == old(job).next + 1
                    &&& final(job).message@ == with_id(old(job).message@, attempt.relay_id)
                    &&& final(self)@ == one_id_later(old(self)@)
                },
                Err(error) => old(job).next < old(job).resolvers@.len() && *final(job) == *old(job)
                    && if old(self)@.generation != old(job).generation {
                    error@ == generation_changed() && final(self)@ == old(self)@
                } else {
                    (dns_with_id(old(job).request@, old(self)@.next_id) matches Err(reason)
                        && error@ == (RelayErrorView {
                        kind: RelayErrorKind::InvalidData,
                        message: reason,
                    })) && final(self)@ == one_id_later(old(self)@)
                },
            },
    {
        if job.next >= job.resolvers.len() {
            return Ok(None);
        }
        if job.generation != self.generation {
            return Err(
                failure(RelayErrorKind::Interrupted, "DNS relay generation changed"),
            );
        }
        let relay_id: u16 = self.next_id;
        self.next_id = if relay_id == u16::MAX {
            0
        } else {
            relay_id + 1
        };
        match message_with_id(job.request.as_slice(), relay_id) {
            Err(reason) => Err(
                RelayError { kind: RelayErrorKind::InvalidData, message: reason },
            ),
            Ok(request) => {
                let resolver = job.resolvers[job.next].copy();
                job.next = job.next + 1;
                job.message.id = relay_id;
                assert(job.message@ =~= with_id(old(job).message@, relay_id));
                Ok(Some(RelayAttempt { resolver, relay_id, request }))
            },
        }
    }

    /// Takes the bytes that a resolver sent back. An answer carries the
    /// identifier of the question that was relayed.
    pub fn accept(&self, job: &RelayJob, response: &[u8]) -> (result: Result<
        AttemptOutcome,
        RelayError,
    >)
        ensures
            accepts(self@.generation, *job, response@, dns_decoded(response@), result),
            result matches Ok(AttemptOutcome::Answered(answer)) ==> wire_id(answer@)
                == job.original_id,
    {
        let message = decode_message(response);
        self.accept_decoded(job, response, message)
    }

    /// Takes the bytes that a resolver sent back, decoded already.
    pub fn accept_decoded(&self, job: &RelayJob, response: &[u8], message: Result<DnsMessage, String>)
        -> (result: Result<AttemptOutcome, RelayError>)
        ensures
            accepts(self@.generation, *job, response@, message_view(message), result),
            result matches Ok(AttemptOutcome::Answered(answer)) ==> wire_id(answer@)
                == job.original_id,
    {
        let message = match message {
            Err(reason) => {
                return Ok(
                    AttemptOutcome::Failed(
                        RelayError { kind: RelayErrorKind::InvalidData, message: reason },
                    ),
                );
            },
            Ok(message) => message,
        };
        match validate_response(&job.message, &message) {
            Ok(_) => {},
            Err(error) => {
                return Ok(AttemptOutcome::Failed(error));
            },
        }
        if job.generation != self.generation {
            return Err(
                failure(RelayErrorKind::Interrupted, "DNS relay generation changed"),
            );
        }
        match message_with_id(response, job.original_id) {
            Err(reason) => Err(
                RelayError { kind: RelayErrorKind::InvalidData, message: reason },
            ),
            Ok(bytes) => {
                if bytes.len() > MAX_UDP_DNS_MESSAGE {
                    Err(
                        failure(
                            RelayErrorKind::InvalidData,
                            "DNS response is too large for an IPv4 UDP packet",
                        ),
                    )
                } else {
                    Ok(AttemptOutcome::Answered(bytes))
                }
            },
        }
    }
}

/// What taking a response comes to: a response that is malformed or answers
/// another question leaves the next resolver to ask, and one that fits is given
/// back under the original identifier unless the generation changed.
pub open spec fn accepts(
    generation: u64,
    job: RelayJob,
    response: Seq<u8>,
    message: Result<DnsMessageView, Seq<char>>,
    result: Result<AttemptOutcome, RelayError>,
) -> bool {
    match message {
        Err(reason) => result matches Ok(AttemptOutcome::Failed(error)) && error@ == (
        RelayErrorView { kind: RelayErrorKind::InvalidData, message: reason }),
        Ok(message) => if !answers_question(job.message@, message) {
            result matches Ok(AttemptOutcome::Failed(error)) && error@ == (RelayErrorView {
                kind: RelayErrorKind::InvalidData,
                message: "physical DNS response does not match the query"@,
            })
        } else if generation != job.generation {
            result matches Err(error) && error@ == generation_changed()
        } else {
            match restored(response, job.original_id) {
                Ok(bytes) => result matches Ok(AttemptOutcome::Answered(answer)) && answer@
                    == bytes,
                Err(reason) => result matches Err(error) && error@ == reason,
            }
        },
    }
}

/// What an exchange over UDP came to.
#[derive(Debug, Clone, Copy)]
pub enum UdpOutcome {
    Response { truncated: bool },
    Failed(RelayErrorKind),
}

/// What a datagram that a resolver sent comes to.
pub fn udp_outcome(response: &[u8]) -> (outcome: UdpOutcome)
    ensures
        outcome == match dns_decoded(response@) {
            Ok(message) => UdpOutcome::Response { truncated: message.truncated },
            Err(_) => UdpOutcome::Failed(RelayErrorKind::InvalidData),
        },
{
    match decode_message(response) {
        Ok(message) => UdpOutcome::Response { truncated: message.truncated },
        Err(_) => UdpOutcome::Failed(RelayErrorKind::InvalidData),
    }
}

/// How many bytes of a datagram are taken as the response to a request.
pub fn receive_size(request: &[u8]) -> (size: usize)
    ensures
        size == match dns_payload_limit(request@) {
            Some(limit) => if limit > MAX_UDP_DNS_MESSAGE {
                MAX_UDP_DNS_MESSAGE as int
            } else {
                limit as int
            },
            None => 512,
        },
{
    match payload_limit(request) {
        Some(limit) => {
            let limit: usize = limit as usize;
            if limit > MAX_UDP_DNS_MESSAGE {
                MAX_UDP_DNS_MESSAGE
            } else {
                limit
            }
        },
        None => 512,
    }
}

/// Whether an exchange is tried again over TCP: after a truncated response or a timeout.
pub fn retry_over_tcp(outcome: UdpOutcome) -> (answer: bool)
    ensures
        answer == match outcome {
            UdpOutcome::Response { truncated } => truncated,
            UdpOutcome::Failed(kind) => kind == RelayErrorKind::TimedOut || kind
                == RelayErrorKind::WouldBlock,
        },
{
    match outcome {
        UdpOutcome::Response { truncated } => truncated,
        UdpOutcome::Failed(kind) => kind == RelayErrorKind::TimedOut || kind
            == RelayErrorKind::WouldBlock,
    }
}

/// A message as it goes over TCP: behind its length.
pub fn tcp_frame(request: &[u8]) -> (result: Result<Vec<u8>, RelayError>)
    ensures
        match result {
            Ok(frame) => request@.len() <= 0xffff && frame@ == be16_bytes(request@.len() as u16)
                + request@,
            Err(error) => request@.len() > 0xffff && error@ == (RelayErrorView {
                kind: RelayErrorKind::InvalidInput,
                message: "DNS query is too large"@,
            }),
        },
{
    if request.len() > 0xffff {
        return Err(
            failure(RelayErrorKind::InvalidInput, "DNS query is too large"),
        );
    }
    let mut frame: Vec<u8> = Vec::new();
    push_be16(&mut frame, request.len() as u16);
    push_all(&mut frame, request);
    assert(frame@ =~= be16_bytes(request@.len() as u16) + request@);
    Ok(frame)
}

/// The length of a response that comes over TCP.
pub fn tcp_response_length(hi: u8, lo: u8) -> (result: Result<usize, RelayError>)
    ensures
        match result {
            Ok(length) => length == be16_value(hi, lo) && length > 0,
            Err(error) => be16_value(hi, lo) == 0 && error@ == (RelayErrorView {
                kind: RelayErrorKind::InvalidData,
                message: "empty DNS-over-TCP response"@,
            }),
        },
{
    let length: usize = crate::bytes::be16(hi, lo) as usize;
    if length == 0 {
        Err(
            failure(RelayErrorKind::InvalidData, "empty DNS-over-TCP response"),
        )
    } else {
        Ok(length)
    }
}

/// The error of a relay whose resolvers all failed.
pub fn all_failed(last: Option<RelayError>) -> (error: RelayError)
    ensures
        match last {
            Some(given) => error == given,
            None => error@ == (RelayErrorView {
                kind: RelayErrorKind::TimedOut,
                message: "all physical DNS resolvers failed"@,
            }),
        },
{
    match last {
        Some(error) => error,
        None => failure(RelayErrorKind::TimedOut, "all physical DNS resolvers failed"),
    }
}

/// Work of an older generation is not begun: once the resolvers were replaced or
/// the relay was reset, a request under the earlier generation is refused.
pub proof fn law_older_generation_is_refused(
    relay: RelayView,
    generation: u64,
    message: Result<DnsMessageView, Seq<char>>,
)
    requires
        generation < relay.generation,
    ensures
        request_error(relay, generation, message) == Some(
            if relay.active >= relay.config.max_concurrent {
                limit_reached()
            } else {
                generation_changed()
            },
        ),
{
}

/// A relay starts with its first generation and no question in hand; by default it
/// waits three seconds and has 64 questions in hand at most.
pub proof fn law_new_relay(
    config: RelayConfig,
    resolvers: Vec<PhysicalResolver>,
    first_id: u16,
    relay: DnsRelay,
    usual: RelayConfig,
)
    requires
        call_ensures(DnsRelay::new, (config, resolvers, first_id), relay),
        call_ensures(RelayConfig::default, (), usual),
    ensures
        relay@.generation == 1 && relay@.active == 0 && relay@.next_id == first_id,
        relay@.resolvers == resolvers@ && relay@.config == config,
        usual.timeout_ms == 3_000 && usual.max_concurrent == 64,
{
}

/// Each change of the resolvers, and each reset, begins a new generation; questions
/// in hand stay counted.
pub proof fn law_generations(resolvers: Vec<PhysicalResolver>, generation: u64)
    ensures
        forall|relay: &mut DnsRelay|
            (*relay)@.generation < u64::MAX && #[trigger] call_ensures(
                DnsRelay::update_resolvers,
                (relay, resolvers),
                generation,
            ) ==> generation == (*relay)@.generation + 1 && (*final(relay))@.generation == generation
                && (*final(relay))@.resolvers == resolvers@ && (*final(relay))@.active
                == (*relay)@.active,
        forall|relay: &mut DnsRelay|
            (*relay)@.generation < u64::MAX && #[trigger] call_ensures(
                DnsRelay::reset_generation,
                (relay,),
                generation,
            ) ==> generation == (*relay)@.generation + 1 && (*final(relay))@.generation == generation
                && (*final(relay))@.resolvers == (*relay)@.resolvers && (*final(relay))@.active
                == (*relay)@.active,
{
}

/// Questions are taken in hand one by one up to the limit, and each that is done
/// makes room for another.
pub proof fn law_questions_in_hand(result: Result<(), RelayError>)
    ensures
        forall|relay: &mut DnsRelay| #[trigger]
            call_ensures(DnsRelay::acquire, (relay,), result) ==> {
                &&& result is Ok <==> (*relay)@.active < (*relay)@.config.max_concurrent
                &&& result is Ok ==> (*final(relay))@.active == (*relay)@.active + 1
                &&& result is Err ==> (*final(relay))@.active == (*relay)@.active
                    && result->Err_0.kind is WouldBlock
            },
        forall|relay: &mut DnsRelay|
            (*relay)@.active > 0 && #[trigger] call_ensures(DnsRelay::release, (relay,), ())
                ==> (*final(relay))@.active == (*relay)@.active - 1,
{
}

/// A question is relayed where there is room, its generation is the current one, it
/// asks one thing, and there is a resolver; its first resolver is asked first.
pub proof fn law_relayed_question(
    request: &[u8],
    message: DnsMessage,
    generation: u64,
    result: Result<RelayJob, RelayError>,
)
    ensures
        forall|relay: &mut DnsRelay| #[trigger]
            call_ensures(
                DnsRelay::begin_decoded,
                (relay, request, Ok::<DnsMessage, String>(message), generation),
                result,
            ) ==> {
                let before = (*relay)@;
                &&& result is Ok <==> before.active < before.config.max_concurrent && generation
                    == before.generation && !message.response && message.questions@.len() == 1
                    && before.resolvers.len() > 0
                &&& result matches Ok(job) ==> {
                    &&& job.request@ == request@ && job.message == message
                    &&& job.original_id == message.id && job.generation == generation
                    &&& job.resolvers@ == before.resolvers && job.next == 0
                    &&& (*final(relay))@.active == before.active + 1
                }
                &&& result is Err ==> (*final(relay))@ == before
                &&& before.active >= before.config.max_concurrent ==> result is Err
                    && result->Err_0.kind is WouldBlock
                &&& before.active < before.config.max_concurrent && generation != before.generation
                    ==> result is Err && result->Err_0.kind is Interrupted
            },
{
    assert(crate::dns::message::question_views(message.questions@).len()
        == message.questions@.len());
}

/// An attempt asks the next resolver, under a number of its own that counts on; when
/// all were asked there is none, and none when the generation has changed.
pub proof fn law_next_resolver(result: Result<Option<RelayAttempt>, RelayError>)
    ensures
        forall|relay: &mut DnsRelay, job: &mut RelayJob|
            (*job).next <= (*job).resolvers@.len() && #[trigger] call_ensures(
                DnsRelay::next_attempt,
                (relay, job),
                result,
            ) ==> {
                let before = (*relay)@;
                &&& (*job).next == (*job).resolvers@.len() ==> result == Ok::<
                    Option<RelayAttempt>,
                    RelayError,
                >(None)
                &&& (*job).next < (*job).resolvers@.len() && before.generation != (*job).generation
                    ==> result is Err
                &&& result matches Ok(Some(attempt)) ==> {
                    &&& attempt.resolver == (*job).resolvers@[(*job).next as int]
                    &&& attempt.relay_id == before.next_id
                    &&& attempt.request@[0] * 256 + attempt.request@[1] == before.next_id
                    &&& (*final(job)).next == (*job).next + 1
                    &&& (*final(job)).message.id == before.next_id
                    &&& (*final(job)).original_id == (*job).original_id
                    &&& before.next_id < 0xffff ==> (*final(relay))@.next_id == before.next_id + 1
                    &&& before.next_id == 0xffff ==> (*final(relay))@.next_id == 0
                }
            },
{
}

/// A response counts where it is an answer to what was asked: under the same number
/// and operation, to the same questions. It is handed back under the number of
/// whoever asked, and only within its generation.
pub proof fn law_accepted_response(
    relay: DnsRelay,
    job: &RelayJob,
    response: &[u8],
    message: DnsMessage,
    result: Result<AttemptOutcome, RelayError>,
)
    requires
        call_ensures(
            DnsRelay::accept_decoded,
            (&relay, job, response, Ok::<DnsMessage, String>(message)),
            result,
        ),
    ensures
        !message.response || message.id != job.message.id || message.op_code != job.message.op_code
            ==> (result matches Ok(AttemptOutcome::Failed(error)) && error.kind is InvalidData),
        message.questions@.len() != job.message.questions@.len() ==> result matches Ok(
            AttemptOutcome::Failed(_),
        ),
        result matches Ok(AttemptOutcome::Answered(answer)) ==> {
            &&& relay@.generation == job.generation
            &&& answer@.len() <= 65_507
            &&& answer@[0] * 256 + answer@[1] == job.original_id
        },
{
    let left = crate::dns::message::question_views(message.questions@);
    let right = crate::dns::message::question_views(job.message.questions@);
    assert(left.len() == message.questions@.len());
    assert(right.len() == job.message.questions@.len());
}

/// A question goes over TCP where its answer was cut off or did not come in time.
pub proof fn law_retry_over_tcp(outcome: UdpOutcome, answer: bool)
    requires
        call_ensures(retry_over_tcp, (outcome,), answer),
    ensures
        outcome matches UdpOutcome::Response { truncated } ==> (answer <==> truncated),
        outcome matches UdpOutcome::Failed(kind) ==> (answer <==> kind is TimedOut
            || kind is WouldBlock),
{
}

/// Over TCP a message has its length in front, in two bytes, and is not empty.
pub proof fn law_tcp_frames(
    request: &[u8],
    frame: Result<Vec<u8>, RelayError>,
    hi: u8,
    lo: u8,
    length: Result<usize, RelayError>,
)
    requires
        call_ensures(tcp_frame, (request,), frame),
        call_ensures(tcp_response_length, (hi, lo), length),
    ensures
        frame is Ok <==> request@.len() <= 65_535,
        frame matches Ok(bytes) ==> {
            &&& bytes@.len() == request@.len() + 2
            &&& bytes@[0] * 256 + bytes@[1] == request@.len()
            &&& bytes@.skip(2) == request@
        },
        length is Ok <==> hi != 0 || lo != 0,
        length matches Ok(count) ==> count == hi * 256 + lo,
{
    if frame is Ok {
        crate::bytes::law_half_word_round_trip(request@.len() as u16);
        assert(frame->Ok_0@.skip(2) =~= request@);
    }
}

/// The error of the last resolver is the relay's; without one the time is over.
pub proof fn law_all_failed(last: Option<RelayError>, error: RelayError)
    requires
        call_ensures(all_failed, (last,), error),
    ensures
        last matches Some(given) ==> error == given,
        last is None ==> error.kind is TimedOut,
{
}

/// An answer over UDP is read up to the size that the question allows: 512 bytes
/// where it says nothing, and never more than a datagram holds.
pub proof fn law_receive_size(request: &[u8], size: usize, relay: DnsRelay, answer: bool)
    requires
        call_ensures(receive_size, (request,), size),
        call_ensures(DnsRelay::has_resolvers, (&relay,), answer),
    ensures
        dns_payload_limit(request@) is None ==> size == 512,
        dns_payload_limit(request@) matches Some(limit) ==> {
            &&& limit <= 65_507 ==> size == limit
            &&& limit > 65_507 ==> size == 65_507
        },
        answer <==> relay@.resolvers.len() > 0,
{
}

/// What came over UDP: an answer, cut off or not, where it can be read.
pub proof fn law_udp_outcome(response: &[u8], outcome: UdpOutcome)
    requires
        call_ensures(udp_outcome, (response,), outcome),
    ensures
        dns_decoded(response@) matches Ok(message) ==> outcome == (UdpOutcome::Response {
            truncated: message.truncated,
        }),
        dns_decoded(response@) is Err ==> outcome == UdpOutcome::Failed(RelayErrorKind::InvalidData),
{
}

/// A question in its bytes is relayed under the same conditions, with the number that
/// its first two bytes hold.
pub proof fn law_relayed_bytes(
    request: &[u8],
    generation: u64,
    result: Result<RelayJob, RelayError>,
)
    ensures
        forall|relay: &mut DnsRelay| #[trigger]
            call_ensures(DnsRelay::begin, (relay, request, generation), result) ==> {
                let before = (*relay)@;
                &&& dns_decoded(request@) is Err ==> result is Err
                &&& dns_decoded(request@) matches Ok(message) ==> (result is Ok <==> before.active
                    < before.config.max_concurrent && generation == before.generation
                    && !message.response && message.questions.len() == 1 && before.resolvers.len()
                    > 0)
                &&& result matches Ok(job) ==> job.original_id == request@[0] * 256 + request@[1]
                    && job.request@ == request@ && job.resolvers@ == before.resolvers
            },
{
}

} // verus!
