//! DNS handling of one interface while sessions come and go.
//!
//! Applying servers to the host and relaying questions belong to whoever drives
//! this; here stands the state and what happens to it.

use super::packet::{DnsActionView, DnsPacketAction, DnsPacketEngine, DnsRelayRequest};
use super::packet::{failure_packet, packet_action, RelayRequestView};
use super::platform::{DnsPlatformTarget, PhysicalResolver};
use super::platform::valid_interface;
use super::policy::{DnsDefaults, DnsOverrides, DnsPolicyResolver, EffectiveDnsPolicy};
use super::policy::{overrides_error, resolved_policy, DnsDefaultsView, DnsOverridesView, DnsPolicyView};
use super::relay::{DnsRelay, RelayConfig, RelayError, RelayErrorKind};
use super::relay::{copy_resolvers, RelayView};
use crate::client::{PacketDevice, SessionInfo};
use crate::error::Error;
use crate::error::is_invalid_config;
use crate::net::{IpAddr, Ipv4Addr};
use crate::text::{decimal_text, join3, push_text};
use crate::text::decimal;
use std::sync::Arc;
use vstd::prelude::*;
use vstd::slice::slice_subrange;

verus! {

/// DNS policy, resolvers and relay of one interface.
pub struct DnsRuntime {
    target: DnsPlatformTarget,
    defaults: DnsDefaults,
    overrides: DnsOverrides,
    policy: Arc<EffectiveDnsPolicy>,
    physical: Vec<PhysicalResolver>,
    relay: DnsRelay,
    leased: bool,
    active: bool,
    workers: usize,
    max_workers: usize,
}

#[verifier::ext_equal]
pub struct RuntimeView {
    pub interface: Seq<char>,
    /// The number by which the host knows the interface, where it uses one.
    pub platform_id: Option<u64>,
    pub defaults: DnsDefaultsView,
    pub overrides: DnsOverridesView,
    pub policy: DnsPolicyView,
    pub physical: Seq<PhysicalResolver>,
    pub relay: RelayView,
    /// Whether the host uses servers that a policy gave it.
    pub leased: bool,
    pub active: bool,
    pub workers: usize,
    pub max_workers: usize,
}

impl View for DnsRuntime {
    type V = RuntimeView;

    closed spec fn view(&self) -> RuntimeView {
        RuntimeView {
            interface: self.target.interface_name@,
            platform_id: self.target.platform_id,
            defaults: self.defaults@,
            overrides: self.overrides@,
            policy: self.policy@,
            physical: self.physical@,
            relay: self.relay@,
            leased: self.leased,
            active: self.active,
            workers: self.workers,
            max_workers: self.max_workers,
        }
    }
}

impl RuntimeView {
    /// No more workers run than the limit allows.
    pub open spec fn wf(self) -> bool {
        self.workers <= self.max_workers
    }
}

/// Whether a resolver is one of the servers in the tunnel.
pub open spec fn in_tunnel(resolver: PhysicalResolver, servers: Seq<Ipv4Addr>) -> bool {
    resolver.address.ip matches IpAddr::V4(address) && servers.contains(address)
}

/// The resolvers that are not servers in the tunnel.
pub open spec fn outside_tunnel(
    physical: Seq<PhysicalResolver>,
    servers: Seq<Ipv4Addr>,
) -> Seq<PhysicalResolver> {
    physical.filter(|resolver: PhysicalResolver| !in_tunnel(resolver, servers))
}

fn is_tunnel_server(address: IpAddr, servers: &Vec<Ipv4Addr>) -> (answer: bool)
    ensures
        answer == (address matches IpAddr::V4(v4) && servers@.contains(v4)),
{
    match address {
        IpAddr::V4(v4) => {
            let mut i: usize = 0;
            while i < servers.len()
                invariant
                    i <= servers@.len(),
                    address == IpAddr::V4(v4),
                    forall|k: int| 0 <= k < i ==> servers@[k] != v4,
                decreases servers@.len() - i,
            {
                if servers[i] == v4 {
                    assert(servers@[i as int] == v4);
                    return true;
                }
                i += 1;
            }
            false
        },
        IpAddr::V6(_) => false,
    }
}

fn keep_outside(physical: &Vec<PhysicalResolver>, servers: &Vec<Ipv4Addr>) -> (kept: Vec<
    PhysicalResolver,
>)
    ensures
        kept@ == outside_tunnel(physical@, servers@),
{
    let ghost wanted = |resolver: PhysicalResolver| !in_tunnel(resolver, servers@);
    let mut kept: Vec<PhysicalResolver> = Vec::new();
    let mut i: usize = 0;
    proof {
        reveal(Seq::filter);
        assert(kept@ =~= physical@.take(0).filter(wanted));
    }
    while i < physical.len()
        invariant
            i <= physical@.len(),
            wanted == (|resolver: PhysicalResolver| !in_tunnel(resolver, servers@)),
            kept@ == physical@.take(i as int).filter(wanted),
        decreases physical@.len() - i,
    {
        proof {
            assert(physical@.take(i + 1).drop_last() =~= physical@.take(i as int));
            assert(physical@.take(i + 1).last() == physical@[i as int]);
            reveal(Seq::filter);
        }
        if !is_tunnel_server(physical[i].address.ip, servers) {
            kept.push(physical[i].copy());
        }
        i += 1;
    }
    assert(physical@.take(i as int) =~= physical@);
    kept
}

/// A runtime once a policy is in force: questions are relayed to resolvers
/// outside the tunnel, in a new generation.
pub open spec fn in_force(runtime: RuntimeView, policy: DnsPolicyView) -> RuntimeView {
    RuntimeView {
        policy,
        relay: RelayView {
            resolvers: outside_tunnel(runtime.physical, policy.servers),
            generation: (runtime.relay.generation + 1) as u64,
            ..runtime.relay
        },
        leased: true,
        active: true,
        ..runtime
    }
}

/// A runtime once a session ended.
pub open spec fn ended(runtime: RuntimeView) -> RuntimeView {
    RuntimeView {
        relay: RelayView {
            generation: (runtime.relay.generation + 1) as u64,
            ..runtime.relay
        },
        leased: false,
        active: false,
        ..runtime
    }
}

/// How the beginning of a session changes a runtime, and what it answers.
pub open spec fn session_begun(
    before: RuntimeView,
    after: RuntimeView,
    session_dns: Seq<IpAddr>,
    discovered: Option<Vec<PhysicalResolver>>,
    applied: Result<(), Error>,
    restored: bool,
    result: Result<(), Error>,
) -> bool {
    let refreshed = RuntimeView {
        physical: match discovered {
            Some(list) => list@,
            None => before.physical,
        },
        ..before
    };
    match resolved_policy(before.defaults, before.overrides, session_dns) {
        Ok(policy) => match applied {
            Ok(_) => result is Ok && after == in_force(refreshed, policy),
            Err(error) => result == Err::<(), Error>(error) && after == (RuntimeView {
                leased: restored,
                ..refreshed
            }),
        },
        Err(message) => after == refreshed && (result matches Err(error) && is_invalid_config(
            error,
            message,
        )),
    }
}

/// What happens to a packet that a device gave.
pub enum DeviceStep {
    /// It goes on into the tunnel.
    Deliver,
    /// It goes nowhere.
    Discard,
    /// It goes nowhere, and the device gets a packet.
    Write(Vec<u8>),
    /// It goes nowhere, and its question is relayed.
    Relay(DnsRelayRequest),
}

pub enum DeviceStepView {
    Deliver,
    Discard,
    Write(Seq<u8>),
    Relay(RelayRequestView),
}

impl View for DeviceStep {
    type V = DeviceStepView;

    open spec fn view(&self) -> DeviceStepView {
        match self {
            DeviceStep::Deliver => DeviceStepView::Deliver,
            DeviceStep::Discard => DeviceStepView::Discard,
            DeviceStep::Write(packet) => DeviceStepView::Write(packet@),
            DeviceStep::Relay(request) => DeviceStepView::Relay(request@),
        }
    }
}

/// What a runtime does with a packet: nothing while it is inactive, and a
/// question that nobody outside the tunnel can answer goes into the tunnel.
pub open spec fn device_step(runtime: RuntimeView, packet: Seq<u8>) -> DeviceStepView {
    if !runtime.active {
        DeviceStepView::Deliver
    } else {
        match packet_action(runtime.policy, packet) {
            DnsActionView::Pass => DeviceStepView::Deliver,
            DnsActionView::Drop => DeviceStepView::Discard,
            DnsActionView::Inject(response) => DeviceStepView::Write(response),
            DnsActionView::Relay(request) => if runtime.relay.resolvers.len() > 0 {
                DeviceStepView::Relay(request)
            } else {
                DeviceStepView::Deliver
            },
        }
    }
}

/// Whether a relayed question gets a worker.
pub enum RelayAdmission {
    /// The limit is reached: who asked gets a packet, where one can be made.
    Refused(Option<Vec<u8>>),
    /// There is nobody to ask.
    Ignored,
    /// A worker starts, in a generation of the relay.
    Started { generation: u64 },
}

impl DnsRuntime {
    pub fn new(
        target: DnsPlatformTarget,
        defaults: DnsDefaults,
        overrides: DnsOverrides,
        physical: Vec<PhysicalResolver>,
        relay_config: RelayConfig,
        first_id: u16,
    ) -> (result: Result<Self, Error>)
        ensures
            match result {
                Ok(runtime) => {
                    &&& valid_interface(target.interface_name@)
                    &&& runtime@.wf()
                    &&& runtime@.interface == target.interface_name@
                    &&& runtime@.platform_id == target.platform_id
                    &&& runtime@.defaults == defaults@
                    &&& runtime@.overrides == overrides@
                    &&& resolved_policy(defaults@, overrides@, Seq::empty()) == Ok::<
                        DnsPolicyView,
                        Seq<char>,
                    >(runtime@.policy)
                    &&& runtime@.physical == physical@
                    &&& runtime@.relay == (RelayView {
                        config: relay_config,
                        resolvers: physical@,
                        generation: 1,
                        active: 0,
                        next_id: first_id,
                    })
                    &&& !runtime@.leased
                    &&& !runtime@.active
                    &&& runtime@.workers == 0
                    &&& runtime@.max_workers == relay_config.max_concurrent
                },
                Err(error) => if !valid_interface(target.interface_name@) {
                    is_invalid_config(
                        error,
                        "DNS interface name contains unsupported characters"@,
                    )
                } else {
                    resolved_policy(defaults@, overrides@, Seq::empty()) matches Err(message)
                        && is_invalid_config(error, message)
                },
            },
    {
        match target.validate() {
            Ok(_) => {},
            Err(error) => {
                return Err(error);
            },
        }
        let none: Vec<IpAddr> = Vec::new();
        assert(none@ =~= Seq::<IpAddr>::empty());
        let policy = match DnsPolicyResolver::resolve(&defaults, &overrides, none.as_slice()) {
            Ok(policy) => policy,
            Err(error) => {
                return Err(error);
            },
        };
        let known = copy_resolvers(&physical);
        Ok(
            DnsRuntime {
                target,
                defaults,
                overrides,
                policy: Arc::new(policy),
                physical,
                relay: DnsRelay::new(relay_config, known, first_id),
                leased: false,
                active: false,
                workers: 0,
                max_workers: relay_config.max_concurrent,
            },
        )
    }

    /// The interface whose DNS settings sessions change.
    pub fn target(&self) -> (target: &DnsPlatformTarget)
        ensures
            target.interface_name@ == self@.interface,
            target.platform_id == self@.platform_id,
    {
        &self.target
    }

    pub fn policy(&self) -> (policy: Arc<EffectiveDnsPolicy>)
        ensures
            policy@ == self@.policy,
    {
        Arc::clone(&self.policy)
    }

    /// Changes what the next session's policy is made from.
    pub fn update_inputs(&mut self, defaults: DnsDefaults, overrides: DnsOverrides) -> (result:
        Result<(), Error>)
        ensures
            match result {
                Ok(_) => overrides_error(overrides@) is None && final(self)@ == (RuntimeView {
                    defaults: defaults@,
                    overrides: overrides@,
                    ..old(self)@
                }),
                Err(error) => final(self)@ == old(self)@ && (overrides_error(
                    overrides@,
                ) matches Some(message) && is_invalid_config(error, message)),
            },
    {
        match overrides.validate() {
            Ok(_) => {},
            Err(error) => {
                return Err(error);
            },
        }
        self.defaults = defaults;
        self.overrides = overrides;
        Ok(())
    }

    /// The policy that a session gets.
    pub fn session_policy(&self, session_dns: &[IpAddr]) -> (result: Result<
        EffectiveDnsPolicy,
        Error,
    >)
        ensures
            match result {
                Ok(policy) => resolved_policy(
                    self@.defaults,
                    self@.overrides,
                    session_dns@,
                ) == Ok::<DnsPolicyView, Seq<char>>(policy@),
                Err(error) => resolved_policy(
                    self@.defaults,
                    self@.overrides,
                    session_dns@,
                ) matches Err(message) && is_invalid_config(error, message),
            },
    {
        DnsPolicyResolver::resolve(&self.defaults, &self.overrides, session_dns)
    }

    /// Puts the policy that new inputs make for a session in force, given what
    /// became of giving its servers to the host. The inputs stay as they were
    /// unless that succeeds.
    pub fn update_policy(
        &mut self,
        defaults: DnsDefaults,
        overrides: DnsOverrides,
        session_dns: &[IpAddr],
        applied: Result<(), Error>,
        restored: bool,
    ) -> (result: Result<(), Error>)
        requires
            old(self)@.relay.generation < u64::MAX,
        ensures
            match resolved_policy(defaults@, overrides@, session_dns@) {
                Ok(policy) => match applied {
                    Ok(_) => result is Ok && final(self)@ == (RuntimeView {
                        defaults: defaults@,
                        overrides: overrides@,
                        ..in_force(old(self)@, policy)
                    }),
                    Err(error) => result == Err::<(), Error>(error) && final(self)@ == (
                    RuntimeView { leased: restored, ..old(self)@ }),
                },
                Err(message) => final(self)@ == old(self)@ && (result matches Err(error)
                    && is_invalid_config(error, message)),
            },
    {
        let policy = match DnsPolicyResolver::resolve(&defaults, &overrides, session_dns) {
            Ok(policy) => policy,
            Err(error) => {
                return Err(error);
            },
        };
        match self.activate_policy(policy, applied, restored) {
            Ok(_) => {},
            Err(error) => {
                return Err(error);
            },
        }
        self.defaults = defaults;
        self.overrides = overrides;
        Ok(())
    }

    /// Begins a session: takes in which resolvers the host has now, unless they
    /// could not be found out, and puts the session's policy in force, given
    /// what became of giving its servers to the host.
    pub fn activate(
        &mut self,
        session_dns: &[IpAddr],
        discovered: Option<Vec<PhysicalResolver>>,
        applied: Result<(), Error>,
        restored: bool,
    ) -> (result: Result<(), Error>)
        requires
            old(self)@.relay.generation < u64::MAX,
        ensures
            session_begun(
                old(self)@,
                final(self)@,
                session_dns@,
                discovered,
                applied,
                restored,
                result,
            ),
    {
        if let Some(list) = discovered {
            self.physical = list;
        }
        let policy = match self.session_policy(session_dns) {
            Ok(policy) => policy,
            Err(error) => {
                return Err(error);
            },
        };
        self.activate_policy(policy, applied, restored)
    }

    /// Puts a policy in force, once its servers were given to the host. Where
    /// that failed, everything stays but the servers of the host: `restored`
    /// tells whether it has those of the policy so far again.
    pub fn activate_policy(
        &mut self,
        policy: EffectiveDnsPolicy,
        applied: Result<(), Error>,
        restored: bool,
    ) -> (result: Result<(), Error>)
        requires
            old(self)@.relay.generation < u64::MAX,
        ensures
            match applied {
                Ok(_) => result is Ok && final(self)@ == in_force(old(self)@, policy@),
                Err(error) => result == Err::<(), Error>(error) && final(self)@ == (RuntimeView {
                    leased: restored,
                    ..old(self)@
                }),
            },
    {
        match applied {
            Ok(_) => {
                let outside = keep_outside(&self.physical, &policy.servers);
                self.policy = Arc::new(policy);
                let _ = self.relay.update_resolvers(outside);
                self.leased = true;
                self.active = true;
                Ok(())
            },
            Err(error) => {
                self.leased = restored;
                Err(error)
            },
        }
    }

    /// Ends a session: packets are left alone from now on, what workers find is
    /// of an older generation, and the host gets its own servers back. Workers
    /// that still run are waited for by whoever started them.
    pub fn deactivate(&mut self)
        requires
            old(self)@.relay.generation < u64::MAX,
        ensures
            final(self)@ == ended(old(self)@),
    {
        self.active = false;
        let _ = self.relay.reset_generation();
        self.leased = false;
    }

    fn process(&self, packet: &[u8]) -> (action: DnsPacketAction)
        ensures
            action@ == if self@.active {
                packet_action(self@.policy, packet@)
            } else {
                DnsActionView::Pass
            },
    {
        if !self.active {
            return DnsPacketAction::Pass;
        }
        DnsPacketEngine::from_shared(self.policy()).process(packet)
    }

    /// Decides on a packet that the device gave.
    pub fn read_step(&self, packet: &[u8]) -> (step: DeviceStep)
        ensures
            step@ == device_step(self@, packet@),
    {
        match self.process(packet) {
            DnsPacketAction::Pass => DeviceStep::Deliver,
            DnsPacketAction::Drop => DeviceStep::Discard,
            DnsPacketAction::Inject(response) => DeviceStep::Write(response),
            DnsPacketAction::Relay(request) => if self.relay.has_resolvers() {
                DeviceStep::Relay(request)
            } else {
                DeviceStep::Deliver
            },
        }
    }

    fn try_acquire_worker(&mut self) -> (acquired: bool)
        ensures
            acquired == (old(self)@.workers < old(self)@.max_workers),
            final(self)@ == (RuntimeView {
                workers: if acquired {
                    (old(self)@.workers + 1) as usize
                } else {
                    old(self)@.workers
                },
                ..old(self)@
            }),
    {
        if self.workers >= self.max_workers {
            return false;
        }
        self.workers = self.workers + 1;
        true
    }

    /// Decides whether a relayed question gets a worker.
    pub fn admit_relay(&mut self, request: &DnsRelayRequest) -> (admission: RelayAdmission)
        requires
            old(self)@.wf(),
        ensures
            final(self)@.wf(),
            if old(self)@.workers >= old(self)@.max_workers {
                (admission matches RelayAdmission::Refused(packet) && match packet {
                    Some(bytes) => failure_packet(request@) == Some(bytes@),
                    None => failure_packet(request@) is None,
                }) && final(self)@ == old(self)@
            } else if old(self)@.relay.resolvers.len() == 0 {
                admission is Ignored && final(self)@ == old(self)@
            } else {
                admission == (RelayAdmission::Started { generation: old(self)@.relay.generation })
                    && final(self)@ == (RuntimeView {
                    workers: (old(self)@.workers + 1) as usize,
                    ..old(self)@
                })
            },
    {
        if !self.try_acquire_worker() {
            return RelayAdmission::Refused(request.servfail_packet());
        }
        if !self.relay.has_resolvers() {
            self.workers = self.workers - 1;
            return RelayAdmission::Ignored;
        }
        RelayAdmission::Started { generation: self.relay.generation() }
    }

    /// Whether a worker runs.
    pub fn has_workers(&self) -> (answer: bool)
        ensures
            answer == (self@.workers > 0),
    {
        self.workers > 0
    }

    /// A worker ended.
    pub fn release_worker(&mut self)
        requires
            old(self)@.workers > 0,
        ensures
            final(self)@ == (RuntimeView {
                workers: (old(self)@.workers - 1) as usize,
                ..old(self)@
            }),
    {
        self.workers = self.workers - 1;
    }

    /// The relay that workers ask through.
    pub fn relay(&mut self) -> (relay: &mut DnsRelay)
        ensures
            relay@ == old(self)@.relay,
            final(self)@ == (RuntimeView { relay: final(relay)@, ..old(self)@ }),
    {
        &mut self.relay
    }
}

/// A runtime that is inactive lets every packet through.
pub proof fn law_inactive_runtime_passes(runtime: RuntimeView, packet: Seq<u8>)
    requires
        !runtime.active,
    ensures
        device_step(runtime, packet) == DeviceStepView::Deliver,
{
}

/// No resolver that a policy's questions are relayed to is one of its servers.
pub proof fn law_relay_stays_outside(
    physical: Seq<PhysicalResolver>,
    servers: Seq<Ipv4Addr>,
    i: int,
)
    requires
        0 <= i < outside_tunnel(physical, servers).len(),
    ensures
        !in_tunnel(outside_tunnel(physical, servers)[i], servers),
{
    physical.lemma_filter_pred(
        |resolver: PhysicalResolver| !in_tunnel(resolver, servers),
        i,
    );
}

/// The packet that answers a relayed question: the response, nothing where the
/// question is of an older generation, or a failure.
pub open spec fn relay_answer(
    request: RelayRequestView,
    result: Result<Seq<u8>, RelayError>,
) -> Option<Seq<u8>> {
    match result {
        Ok(response) => request.answer(response),
        Err(error) => if error.kind == RelayErrorKind::Interrupted {
            None
        } else {
            failure_packet(request)
        },
    }
}

pub fn answer_relay(request: &DnsRelayRequest, result: Result<Vec<u8>, RelayError>) -> (packet:
    Option<Vec<u8>>)
    ensures
        ({
            let outcome: Result<Seq<u8>, RelayError> = match result {
                Ok(response) => Ok(response@),
                Err(error) => Err(error),
            };
            match packet {
                Some(bytes) => relay_answer(request@, outcome) == Some(bytes@),
                None => relay_answer(request@, outcome) is None,
            }
        }),
{
    match result {
        Ok(response) => request.response_packet(response.as_slice()),
        Err(error) => match error.kind {
            RelayErrorKind::Interrupted => None,
            _ => request.servfail_packet(),
        },
    }
}

/// Why a device that took a part of a response failed.
pub open spec fn short_write(written: usize, length: nat) -> Seq<char> {
    "packet device accepted "@ + decimal(written as nat) + " of "@ + decimal(length)
        + " DNS response bytes"@
}

/// Whether an error is that of a device that did not take a response whole.
pub open spec fn not_written(outcome: Result<usize, Error>, length: nat, error: Error) -> bool {
    match outcome {
        Ok(written) => written != length && (error matches Error::Io(text) && text@ == short_write(
            written,
            length,
        )),
        Err(refusal) => error == refusal,
    }
}

fn write_complete<D: PacketDevice>(device: &D, packet: &[u8]) -> (result: Result<(), Error>)
    ensures
        exists|outcome: Result<usize, Error>|
            {
                &&& #[trigger] call_ensures(D::write_packet, (device, packet), outcome)
                &&& match result {
                    Ok(_) => outcome matches Ok(written) && written == packet@.len(),
                    Err(error) => not_written(outcome, packet@.len(), error),
                }
            },
{
    let outcome = device.write_packet(packet);
    let ghost given = outcome;
    assert(call_ensures(D::write_packet, (device, packet), given));
    let written: usize = match outcome {
        Ok(written) => written,
        Err(error) => {
            return Err(error);
        },
    };
    if written == packet.len() {
        return Ok(());
    }
    let shown = decimal_text(written as u64);
    let total = decimal_text(packet.len() as u64);
    let mut text = join3("packet device accepted ", &shown, " of ");
    push_text(&mut text, &total);
    push_text(&mut text, " DNS response bytes");
    Err(Error::Io(text))
}

/// What a device gave.
pub enum DeviceRead {
    /// A packet for the tunnel, of a length.
    Packet(usize),
    /// A question to relay, after which reading goes on.
    Relay(DnsRelayRequest),
}

/// A device whose DNS packets are handled by a runtime.
pub struct DnsPacketDevice<D: PacketDevice> {
    inner: Arc<D>,
    runtime: DnsRuntime,
}

impl<D: PacketDevice> DnsPacketDevice<D> {
    pub closed spec fn device(&self) -> D {
        *self.inner
    }

    pub closed spec fn state(&self) -> RuntimeView {
        self.runtime@
    }

    pub fn new(inner: Arc<D>, runtime: DnsRuntime) -> (device: Self)
        ensures
            device.device() == *inner,
            device.state() == runtime@,
    {
        DnsPacketDevice { inner, runtime }
    }

    pub fn runtime(&mut self) -> (runtime: &mut DnsRuntime)
        ensures
            runtime@ == old(self).state(),
            final(self).state() == final(runtime)@,
            final(self).device() == old(self).device(),
    {
        &mut self.runtime
    }

    pub fn inner(&self) -> (inner: &Arc<D>)
        ensures
            **inner == self.device(),
    {
        &self.inner
    }

    pub fn name(&self) -> (name: &str)
        ensures
            call_ensures(D::name, (&self.device(),), name),
    {
        self.inner.name()
    }

    /// Begins a session on the device and then in the runtime. Where the runtime
    /// cannot, the device's session ends again.
    pub fn activate_session(
        &mut self,
        session: &SessionInfo,
        discovered: Option<Vec<PhysicalResolver>>,
        applied: Result<(), Error>,
        restored: bool,
    ) -> (result: Result<(), Error>)
        requires
            old(self).state().relay.generation < u64::MAX,
        ensures
            final(self).device() == old(self).device(),
            exists|outcome: Result<(), Error>|
                {
                    &&& #[trigger] call_ensures(
                        D::activate_session,
                        (&old(self).device(), session),
                        outcome,
                    )
                    &&& match outcome {
                        Ok(_) => session_begun(
                            old(self).state(),
                            final(self).state(),
                            session.dns_servers@,
                            discovered,
                            applied,
                            restored,
                            result,
                        ) && (result is Err ==> exists|ended: Result<(), Error>| #[trigger]
                            call_ensures(D::deactivate_session, (&old(self).device(),), ended)),
                        Err(error) => result == Err::<(), Error>(error) && final(self).state()
                            == old(self).state(),
                    }
                },
    {
        let outcome = self.inner.activate_session(session);
        let ghost given = outcome;
        assert(call_ensures(D::activate_session, (&old(self).device(), session), given));
        match outcome {
            Ok(_) => {},
            Err(error) => {
                return Err(error);
            },
        }
        let begun = self.runtime.activate(
            session.dns_servers.as_slice(),
            discovered,
            applied,
            restored,
        );
        match begun {
            Ok(_) => Ok(()),
            Err(error) => {
                let ended = self.inner.deactivate_session();
                assert(call_ensures(D::deactivate_session, (&old(self).device(),), ended));
                Err(error)
            },
        }
    }

    /// Ends a session in the runtime and then on the device.
    pub fn deactivate_session(&mut self) -> (result: Result<(), Error>)
        requires
            old(self).state().relay.generation < u64::MAX,
        ensures
            final(self).device() == old(self).device(),
            final(self).state() == ended(old(self).state()),
            call_ensures(D::deactivate_session, (&old(self).device(),), result),
    {
        self.runtime.deactivate();
        self.inner.deactivate_session()
    }

    /// Whether a step was done on the device, with a given result.
    pub open spec fn performed(
        &self,
        step: DeviceStepView,
        length: nat,
        result: Result<Option<DeviceRead>, Error>,
    ) -> bool {
        match step {
            DeviceStepView::Deliver => result == Ok::<Option<DeviceRead>, Error>(
                Some(DeviceRead::Packet(length as usize)),
            ),
            DeviceStepView::Discard => result == Ok::<Option<DeviceRead>, Error>(None),
            DeviceStepView::Relay(request) => result matches Ok(Some(DeviceRead::Relay(given)))
                && given@ == request,
            DeviceStepView::Write(response) => exists|
                written: &[u8],
                outcome: Result<usize, Error>,
            |
                {
                    &&& #[trigger] call_ensures(D::write_packet, (&self.device(), written), outcome)
                    &&& written@ == response
                    &&& match result {
                        Ok(None) => outcome matches Ok(count) && count == response.len(),
                        Ok(Some(_)) => false,
                        Err(error) => not_written(outcome, response.len(), error),
                    }
                },
        }
    }

    fn perform(&self, step: DeviceStep, length: usize) -> (result: Result<
        Option<DeviceRead>,
        Error,
    >)
        ensures
            self.performed(step@, length as nat, result),
    {
        match step {
            DeviceStep::Deliver => Ok(Some(DeviceRead::Packet(length))),
            DeviceStep::Discard => Ok(None),
            DeviceStep::Write(response) => {
                let answer = response.as_slice();
                let written = write_complete(&*self.inner, answer);
                assert(self.device() == *self.inner);
                assert(step@ == DeviceStepView::Write(answer@));
                match written {
                    Ok(_) => Ok(None),
                    Err(error) => Err(error),
                }
            },
            DeviceStep::Relay(request) => Ok(Some(DeviceRead::Relay(request))),
        }
    }

    /// Handles one packet that the device gave. It is handed out, or its question
    /// is, or nothing is: it was dropped, or its answer was written back.
    pub fn take_packet(&self, packet: &[u8]) -> (result: Result<Option<DeviceRead>, Error>)
        ensures
            self.performed(device_step(self.state(), packet@), packet@.len(), result),
    {
        let step = self.runtime.read_step(packet);
        self.perform(step, packet.len())
    }

    /// Reads until there is a packet for the tunnel or a question to relay.
    /// Packets to be dropped are dropped, and answers that need nobody else are
    /// written back.
    pub fn read_packet(&self, buffer: &mut [u8]) -> (result: Result<DeviceRead, Error>)
        ensures
            match result {
                Ok(DeviceRead::Packet(length)) => {
                    &&& length <= final(buffer)@.len()
                    &&& device_step(self.state(), final(buffer)@.take(length as int))
                        == DeviceStepView::Deliver
                    &&& exists|read: &mut [u8]| #[trigger]
                        call_ensures(
                            D::read_packet,
                            (&self.device(), read),
                            Ok::<usize, Error>(length),
                        ) && final(read)@ == final(buffer)@
                },
                Ok(DeviceRead::Relay(request)) => exists|length: usize, read: &mut [u8]|
                    {
                        &&& #[trigger] call_ensures(
                            D::read_packet,
                            (&self.device(), read),
                            Ok::<usize, Error>(length),
                        )
                        &&& final(read)@ == final(buffer)@
                        &&& length <= final(buffer)@.len()
                        &&& device_step(self.state(), final(buffer)@.take(length as int))
                            == DeviceStepView::Relay(request@)
                    },
                Err(error) => {
                    ||| exists|read: &mut [u8]| #[trigger]
                        call_ensures(
                            D::read_packet,
                            (&self.device(), read),
                            Err::<usize, Error>(error),
                        )
                    ||| exists|
                        length: usize,
                        read: &mut [u8],
                        response: &[u8],
                        outcome: Result<usize, Error>,
                    |
                        {
                            &&& #[trigger] call_ensures(
                                D::read_packet,
                                (&self.device(), read),
                                Ok::<usize, Error>(length),
                            )
                            &&& length <= final(read)@.len()
                            &&& device_step(self.state(), final(read)@.take(length as int))
                                == DeviceStepView::Write(response@)
                            &&& #[trigger] call_ensures(
                                D::write_packet,
                                (&self.device(), response),
                                outcome,
                            )
                            &&& not_written(outcome, response@.len(), error)
                        }
                    ||| (error matches Error::Io(text) && text@
                        == "packet device filled more than the buffer"@) && exists|
                        length: usize,
                        read: &mut [u8],
                    |
                        #[trigger] call_ensures(
                            D::read_packet,
                            (&self.device(), read),
                            Ok::<usize, Error>(length),
                        ) && length > final(read)@.len()
                    ||| (error matches Error::Io(text) && text@
                        == "packet device gave handled packets only"@) && exists|
                        length: usize,
                        read: &mut [u8],
                    |
                        #[trigger] call_ensures(
                            D::read_packet,
                            (&self.device(), read),
                            Ok::<usize, Error>(length),
                        ) && length <= final(read)@.len() && (device_step(
                            self.state(),
                            final(read)@.take(length as int),
                        ) is Discard || device_step(
                            self.state(),
                            final(read)@.take(length as int),
                        ) is Write)
                },
            },
    {
        let mut handled: u64 = 0;
        while handled < u64::MAX
            invariant
                handled > 0 ==> exists|length: usize, read: &mut [u8]|
                    #[trigger] call_ensures(
                        D::read_packet,
                        (&self.device(), read),
                        Ok::<usize, Error>(length),
                    ) && length <= final(read)@.len() && (device_step(
                        self.state(),
                        final(read)@.take(length as int),
                    ) is Discard || device_step(self.state(), final(read)@.take(length as int))
                        is Write),
            decreases u64::MAX - handled,
        {
            assert(self.device() == *self.inner);
            let outcome = self.inner.read_packet(buffer);
            let length: usize = match outcome {
                Ok(length) => length,
                Err(error) => {
                    return Err(error);
                },
            };
            if length > buffer.len() {
                return Err(Error::Io("packet device filled more than the buffer".to_owned()));
            }
            let packet = slice_subrange(buffer, 0, length);
            assert(packet@ =~= buffer@.take(length as int));
            match self.take_packet(packet) {
                Ok(Some(given)) => {
                    return Ok(given);
                },
                Ok(None) => {},
                Err(error) => {
                    return Err(error);
                },
            }
            handled += 1;
        }
        Err(Error::Io("packet device gave handled packets only".to_owned()))
    }

    pub fn write_packet(&self, packet: &[u8]) -> (result: Result<usize, Error>)
        ensures
            call_ensures(D::write_packet, (&self.device(), packet), result),
    {
        self.inner.write_packet(packet)
    }
}

/// A runtime begins without a session: nothing is leased, no question is in hand, and
/// its relay asks the resolvers that were found.
pub proof fn law_new_runtime(
    target: DnsPlatformTarget,
    defaults: DnsDefaults,
    overrides: DnsOverrides,
    physical: Vec<PhysicalResolver>,
    relay_config: RelayConfig,
    first_id: u16,
    result: Result<DnsRuntime, Error>,
)
    requires
        call_ensures(
            DnsRuntime::new,
            (target, defaults, overrides, physical, relay_config, first_id),
            result,
        ),
    ensures
        result matches Ok(runtime) ==> {
            &&& !runtime@.active && !runtime@.leased && runtime@.workers == 0
            &&& runtime@.max_workers == relay_config.max_concurrent
            &&& runtime@.physical == physical@ && runtime@.relay.resolvers == physical@
            &&& runtime@.relay.generation == 1 && runtime@.relay.active == 0
            &&& runtime@.interface == target.interface_name@
        },
{
}

proof fn lemma_outside(
    physical: Seq<PhysicalResolver>,
    servers: Seq<Ipv4Addr>,
    resolver: PhysicalResolver,
)
    ensures
        outside_tunnel(physical, servers).contains(resolver) <==> physical.contains(resolver) && !(
        resolver.address.ip matches IpAddr::V4(address) && servers.contains(address)),
{
    let wanted = |resolver: PhysicalResolver| !in_tunnel(resolver, servers);
    crate::text::lemma_filter_contains(physical, wanted, resolver);
}

/// Once its servers are applied a policy is in force: the runtime is active and has
/// leased them, a new generation begins, and the relay asks those of the host's
/// resolvers that are not the tunnel's. Where applying fails nothing is in force
/// that was not before.
pub proof fn law_policy_in_force(
    policy: EffectiveDnsPolicy,
    applied: Result<(), Error>,
    restored: bool,
    result: Result<(), Error>,
    resolver: PhysicalResolver,
)
    ensures
        forall|runtime: &mut DnsRuntime|
            (*runtime)@.relay.generation < u64::MAX && #[trigger] call_ensures(
                DnsRuntime::activate_policy,
                (runtime, policy, applied, restored),
                result,
            ) ==> {
                let before = (*runtime)@;
                let after = (*final(runtime))@;
                &&& result is Ok <==> applied is Ok
                &&& result is Ok ==> {
                    &&& after.policy == policy@ && after.active && after.leased
                    &&& after.relay.generation == before.relay.generation + 1
                    &&& after.relay.resolvers.contains(resolver) <==> before.physical.contains(
                        resolver,
                    ) && !(resolver.address.ip matches IpAddr::V4(address)
                        && policy@.servers.contains(address))
                }
                &&& result is Err ==> result == applied && after.policy == before.policy
                    && after.active == before.active && after.leased == restored
                    && after.relay == before.relay
                &&& after.workers == before.workers
            },
{
    assert forall|physical: Seq<PhysicalResolver>| (
    #[trigger] outside_tunnel(physical, policy@.servers)).contains(resolver)
        <==> physical.contains(resolver) && !(resolver.address.ip matches IpAddr::V4(address)
        && policy@.servers.contains(address)) by {
        lemma_outside(physical, policy@.servers, resolver);
    }
}

/// The end of a session gives up the lease, stops the engine and begins a new
/// generation; the policy and what is in hand stay.
pub proof fn law_session_ends()
    ensures
        forall|runtime: &mut DnsRuntime|
            (*runtime)@.relay.generation < u64::MAX && #[trigger] call_ensures(
                DnsRuntime::deactivate,
                (runtime,),
                (),
            ) ==> {
                let before = (*runtime)@;
                let after = (*final(runtime))@;
                &&& !after.active && !after.leased
                &&& after.relay.generation == before.relay.generation + 1
                &&& after.policy == before.policy && after.workers == before.workers
                &&& after.relay.resolvers == before.relay.resolvers && after.physical
                    == before.physical
            },
{
}

/// A session begins with the resolvers that were discovered, or else those that are
/// known; without a valid policy, or where applying fails, it is not active because
/// of it.
pub proof fn law_session_begins(
    session_dns: &[IpAddr],
    discovered: Option<Vec<PhysicalResolver>>,
    applied: Result<(), Error>,
    restored: bool,
    result: Result<(), Error>,
)
    ensures
        forall|runtime: &mut DnsRuntime|
            (*runtime)@.relay.generation < u64::MAX && #[trigger] call_ensures(
                DnsRuntime::activate,
                (runtime, session_dns, discovered, applied, restored),
                result,
            ) ==> {
                let before = (*runtime)@;
                let after = (*final(runtime))@;
                &&& discovered is Some ==> after.physical == discovered->Some_0@
                &&& discovered is None ==> after.physical == before.physical
                &&& result is Ok ==> applied is Ok && after.active && after.leased
                    && after.relay.generation == before.relay.generation + 1
                &&& result is Err ==> after.active == before.active && after.policy
                    == before.policy && after.relay == before.relay
            },
{
}

/// What is read from the device goes on without a session, and else as the engine
/// says; a question for outside is relayed where there is a resolver, and goes on
/// where there is none.
pub proof fn law_read_steps(runtime: DnsRuntime, packet: &[u8], step: DeviceStep)
    requires
        call_ensures(DnsRuntime::read_step, (&runtime, packet), step),
    ensures
        !runtime@.active ==> step is Deliver,
        runtime@.active ==> match packet_action(runtime@.policy, packet@) {
            DnsActionView::Pass => step is Deliver,
            DnsActionView::Drop => step is Discard,
            DnsActionView::Inject(response) => step matches DeviceStep::Write(bytes) && bytes@
                == response,
            DnsActionView::Relay(request) => {
                &&& runtime@.relay.resolvers.len() == 0 ==> step is Deliver
                &&& runtime@.relay.resolvers.len() > 0 ==> (step matches DeviceStep::Relay(given)
                    && given@ == request)
            },
        },
{
}

/// A question is taken in hand while there is room: beyond that it is answered with a
/// failure, and without a resolver left alone. Each that is done makes room.
pub proof fn law_admitted_questions(request: &DnsRelayRequest, admission: RelayAdmission)
    ensures
        forall|runtime: &mut DnsRuntime|
            (*runtime)@.wf() && #[trigger] call_ensures(
                DnsRuntime::admit_relay,
                (runtime, request),
                admission,
            ) ==> {
                let before = (*runtime)@;
                let after = (*final(runtime))@;
                &&& admission is Refused <==> before.workers >= before.max_workers
                &&& admission is Ignored <==> before.workers < before.max_workers
                    && before.relay.resolvers.len() == 0
                &&& admission matches RelayAdmission::Started { generation } ==> generation
                    == before.relay.generation && after.workers == before.workers + 1
                &&& !(admission is Started) ==> after == before
            },
        forall|runtime: &mut DnsRuntime|
            (*runtime)@.workers > 0 && #[trigger] call_ensures(
                DnsRuntime::release_worker,
                (runtime,),
                (),
            ) ==> (*final(runtime))@.workers == (*runtime)@.workers - 1,
{
}

/// An answer goes back to who asked; where the relay failed they are told, unless its
/// generation has passed.
pub proof fn law_relay_answers(
    request: &DnsRelayRequest,
    result: Result<Vec<u8>, RelayError>,
    packet: Option<Vec<u8>>,
)
    requires
        call_ensures(answer_relay, (request, result), packet),
    ensures
        (result matches Err(error) && error.kind is Interrupted) ==> packet is None,
        result matches Ok(response) ==> {
            &&& packet is Some <==> request@.answer(response@) is Some
            &&& packet matches Some(bytes) ==> request@.answer(response@) == Some(bytes@)
        },
        (result matches Err(error) && !(error.kind is Interrupted)) ==> {
            &&& packet is Some <==> failure_packet(request@) is Some
            &&& packet matches Some(bytes) ==> failure_packet(request@) == Some(bytes@)
        },
{
}

/// New settings count from the next session on, where they are valid.
pub proof fn law_new_inputs(
    defaults: DnsDefaults,
    overrides: DnsOverrides,
    result: Result<(), Error>,
)
    ensures
        forall|runtime: &mut DnsRuntime| #[trigger]
            call_ensures(DnsRuntime::update_inputs, (runtime, defaults, overrides), result) ==> {
                let before = (*runtime)@;
                let after = (*final(runtime))@;
                &&& result is Ok ==> after.defaults == defaults@ && after.overrides == overrides@
                &&& result is Err ==> after == before
                &&& after.policy == before.policy && after.active == before.active && after.relay
                    == before.relay
            },
{
}

} // verus!
