//! Commands on profiles.

use crate::cli::dns::DnsOverrideArgs;
use crate::cli::dns::profile_overrides;
use crate::cli::routing::{RoutingOverrideArgs, RoutingOverrides};
use crate::cli::routing::{no_routing, RoutingView};
use crate::cli::state::{
    copy_maybe, validate_profile_name, CliState, ManagedProfile, ProfileView, StateView,
};
use crate::cli::state::{
    fresh_profile, maybe, profile_error, profile_name_message, valid_profile_name,
};
use crate::dns::policy::{DnsOverrides, DnsOverridesView};
use crate::dns::policy::no_overrides;
use crate::error::{invalid_config, Error};
use crate::error::is_invalid_config;
use crate::text::{chars_of, join2, push_text, same_text, trim_text};
use crate::text::{texts, trimmed};
use vstd::prelude::*;

verus! {

/// The lists of DNS settings that a profile can lose.
#[derive(Debug, Clone, Copy, PartialEq, Eq, Structural)]
pub enum ProfileDnsListArg {
    Servers,
    SplitDomains,
    DohHosts,
}

/// Routing options for a profile.
pub struct ProfileRoutingArgs {
    pub overrides: RoutingOverrideArgs,
    pub unset_routing_mode: bool,
    pub routes: Vec<String>,
    pub unset_routes: bool,
}

/// Options that create or change a profile.
pub struct ProfileSetArgs {
    pub name: String,
    pub domain: Option<String>,
    pub device_id: Option<String>,
    pub username: Option<String>,
    pub unset_username: bool,
    pub line: Option<String>,
    pub routing: ProfileRoutingArgs,
    pub dns: DnsOverrideArgs,
    pub reset_dns: bool,
    pub unset_dns: Vec<ProfileDnsListArg>,
}

pub open spec fn not_found_message(name: Seq<char>) -> Seq<char> {
    "profile not found: "@ + name
}

pub fn profile_not_found(name: &str) -> (error: Error)
    ensures
        is_invalid_config(error, not_found_message(name@)),
{
    Error::InvalidConfig(join2("profile not found: ", name))
}

/// A new value where an option gives one.
pub open spec fn replaced_by(before: Seq<char>, option: Option<String>) -> Seq<char> {
    match option {
        Some(text) => text@,
        None => before,
    }
}

/// Whether options change who logs in where: then saved credentials no longer fit.
pub open spec fn changes_authentication(before: ProfileView, args: ProfileSetArgs) -> bool {
    ||| args.domain matches Some(domain) && domain@ != before.domain
    ||| args.device_id matches Some(device_id) && device_id@ != before.device_id
    ||| args.username matches Some(username) && Some(username@) != before.username
    ||| args.unset_username && before.username is Some
}

fn differs(option: &Option<String>, current: &str) -> (answer: bool)
    ensures
        answer == (*option matches Some(text) && text@ != current@),
{
    match option {
        Some(text) => !same_text(text, current),
        None => false,
    }
}

pub fn authentication_changed(profile: &ManagedProfile, args: &ProfileSetArgs) -> (answer: bool)
    ensures
        answer == changes_authentication(profile@, *args),
{
    if differs(&args.domain, &profile.domain) {
        return true;
    }
    if differs(&args.device_id, &profile.device_id) {
        return true;
    }
    if let Some(username) = &args.username {
        match &profile.username {
            Some(current) => {
                if !same_text(username, current) {
                    return true;
                }
            },
            None => {
                return true;
            },
        }
    }
    args.unset_username && profile.username.is_some()
}

/// Routing settings of a profile after options. `routes` are the networks that
/// the options name.
pub open spec fn patched_routing(
    before: RoutingView,
    args: ProfileRoutingArgs,
    routes: Seq<Seq<char>>,
) -> RoutingView {
    RoutingView {
        mode: if args.unset_routing_mode {
            None
        } else {
            match args.overrides.routing_mode {
                Some(mode) => Some(mode),
                None => before.mode,
            }
        },
        routes: if args.unset_routes {
            Seq::empty()
        } else if args.routes@.len() > 0 {
            routes
        } else {
            before.routes
        },
        block_ipv6: match args.overrides.ipv6() {
            Some(block) => block,
            None => before.block_ipv6,
        },
    }
}

/// Changes routing settings of a profile.
pub fn patch_profile_routing(
    target: &mut RoutingOverrides,
    args: &ProfileRoutingArgs,
    routes: Vec<String>,
)
    ensures
        final(target)@ == patched_routing(old(target)@, *args, texts(routes@)),
{
    if args.unset_routing_mode {
        target.mode = None;
    } else if let Some(mode) = args.overrides.routing_mode {
        target.mode = Some(mode);
    }
    if args.unset_routes {
        target.routes = Vec::new();
        assert(texts(target.routes@) =~= Seq::empty());
    } else if args.routes.len() > 0 {
        target.routes = routes;
    }
    if let Some(block) = args.overrides.ipv6_override() {
        target.block_ipv6 = block;
    }
    assert(target@ =~= patched_routing(old(target)@, *args, texts(routes@)));
}

/// DNS settings of a profile without the lists that options take away.
pub open spec fn without_lists(
    dns: DnsOverridesView,
    unset: Seq<ProfileDnsListArg>,
) -> DnsOverridesView {
    DnsOverridesView {
        servers: if unset.contains(ProfileDnsListArg::Servers) {
            None
        } else {
            dns.servers
        },
        split_domains: if unset.contains(ProfileDnsListArg::SplitDomains) {
            None
        } else {
            dns.split_domains
        },
        doh_hosts: if unset.contains(ProfileDnsListArg::DohHosts) {
            None
        } else {
            dns.doh_hosts
        },
        ..dns
    }
}

fn holds(list: &Vec<ProfileDnsListArg>, wanted: ProfileDnsListArg) -> (answer: bool)
    ensures
        answer == list@.contains(wanted),
{
    let mut i: usize = 0;
    while i < list.len()
        invariant
            i <= list@.len(),
            forall|k: int| 0 <= k < i ==> list@[k] != wanted,
        decreases list@.len() - i,
    {
        if list[i] == wanted {
            assert(list@.contains(list@[i as int]));
            return true;
        }
        i += 1;
    }
    false
}

/// A profile after options.
pub open spec fn changed_profile(
    before: ProfileView,
    args: ProfileSetArgs,
    routes: Seq<Seq<char>>,
    forget: bool,
) -> ProfileView {
    ProfileView {
        domain: replaced_by(before.domain, args.domain),
        device_id: replaced_by(before.device_id, args.device_id),
        username: match args.username {
            Some(name) => Some(name@),
            None => if args.unset_username {
                None
            } else {
                before.username
            },
        },
        line: replaced_by(before.line, args.line),
        credential_id: if forget {
            Seq::empty()
        } else {
            before.credential_id
        },
        dns: without_lists(
            profile_overrides(
                args.dns@,
                if args.reset_dns {
                    no_overrides()
                } else {
                    before.dns
                },
            ),
            args.unset_dns@,
        ),
        routing: patched_routing(before.routing, args.routing, routes),
    }
}

/// Credentials that stay saved still fit: domain, device and user are the same.
pub proof fn law_kept_credentials_fit(
    before: ProfileView,
    args: ProfileSetArgs,
    routes: Seq<Seq<char>>,
    forget: bool,
)
    requires
        !changes_authentication(before, args),
    ensures
        ({
            let after = changed_profile(before, args, routes, forget);
            &&& after.domain == before.domain
            &&& after.device_id == before.device_id
            &&& after.username == before.username
        }),
{
}

/// Changes a profile.
fn change_profile(
    profile: &mut ManagedProfile,
    args: &ProfileSetArgs,
    routes: Vec<String>,
    forget: bool,
)
    ensures
        final(profile)@ == changed_profile(old(profile)@, *args, texts(routes@), forget),
{
    if let Some(domain) = &args.domain {
        profile.domain = domain.clone();
    }
    if let Some(device_id) = &args.device_id {
        profile.device_id = device_id.clone();
    }
    if let Some(username) = &args.username {
        profile.username = Some(username.clone());
    } else if args.unset_username {
        profile.username = None;
    }
    if let Some(line) = &args.line {
        profile.line = line.clone();
    }
    patch_profile_routing(&mut profile.routing, &args.routing, routes);
    if args.reset_dns {
        profile.dns = DnsOverrides::default();
    }
    args.dns.patch_profile(&mut profile.dns);
    if holds(&args.unset_dns, ProfileDnsListArg::Servers) {
        profile.dns.servers = None;
    }
    if holds(&args.unset_dns, ProfileDnsListArg::SplitDomains) {
        profile.dns.split_domains = None;
    }
    if holds(&args.unset_dns, ProfileDnsListArg::DohHosts) {
        profile.dns.doh_hosts = None;
    }
    if forget {
        profile.credential_id = String::new();
        assert(profile.credential_id@ =~= Seq::empty());
    }
    assert(profile@ =~= changed_profile(old(profile)@, *args, texts(routes@), forget));
}

/// What has to happen before a profile is saved.
pub struct SetPreparation {
    /// The credentials to delete, as they no longer fit.
    pub obsolete_credentials: Option<String>,
    /// Whether domain, device or user change.
    pub authentication_changed: bool,
    /// Whether the profile needs the identifier of this installation.
    pub needs_device_id: bool,
}

/// The identifier of the installation is asked for where a profile is created
/// without a device.
pub open spec fn needs_installation(state: StateView, args: ProfileSetArgs) -> bool {
    !state.profiles.dom().contains(args.name@) && args.device_id is None
}

/// The device of a profile that is created.
pub open spec fn initial_device(args: ProfileSetArgs, installation: Option<&str>) -> Seq<char> {
    match args.device_id {
        Some(device_id) => device_id@,
        None => installation->Some_0@,
    }
}

/// The profile that options change: the saved one, or a new one.
pub open spec fn profile_to_change(
    state: StateView,
    args: ProfileSetArgs,
    installation: Option<&str>,
) -> ProfileView {
    if state.profiles.dom().contains(args.name@) {
        state.profiles[args.name@]
    } else {
        fresh_profile(args.domain->Some_0@, initial_device(args, installation))
    }
}

/// The message on why a profile cannot be created at all.
pub open spec fn creation_error(
    state: StateView,
    args: ProfileSetArgs,
    installation: Option<&str>,
) -> Option<Seq<char>> {
    if state.profiles.dom().contains(args.name@) {
        None
    } else if args.domain is None {
        Some("--domain is required to create a profile"@)
    } else {
        profile_error(profile_to_change(state, args, installation))
    }
}

/// The state after a profile was saved: the first profile becomes the default.
pub open spec fn state_with_profile(
    state: StateView,
    name: Seq<char>,
    profile: ProfileView,
) -> StateView {
    StateView {
        default_profile: if state.profiles == Map::<Seq<char>, ProfileView>::empty()
            && state.default_profile is None {
            Some(name)
        } else {
            state.default_profile
        },
        profiles: state.profiles.insert(name, profile),
        ..state
    }
}

/// The networks that options name, where they are needed and were found.
pub open spec fn routes_named(routes: Result<Vec<String>, Error>) -> Seq<Seq<char>> {
    match routes {
        Ok(list) => texts(list@),
        Err(_) => Seq::empty(),
    }
}

pub open spec fn routes_needed(args: ProfileRoutingArgs) -> bool {
    !args.unset_routes && args.routes@.len() > 0
}

impl CliState {
    /// Finds out what has to happen before options are applied to a profile.
    pub fn prepare_set(&self, args: &ProfileSetArgs) -> (result: Result<SetPreparation, Error>)
        requires
            self.profiles.wf(),
        ensures
            match result {
                Ok(preparation) => {
                    let known = self@.profiles.dom().contains(args.name@);
                    let profile = self@.profiles[args.name@];
                    let changed = known && changes_authentication(profile, *args);
                    &&& valid_profile_name(args.name@)
                    &&& preparation.authentication_changed == changed
                    &&& preparation.needs_device_id == needs_installation(self@, *args)
                    &&& maybe(preparation.obsolete_credentials) == if changed
                        && profile.credential_id.len() > 0 {
                        Some(profile.credential_id)
                    } else {
                        None
                    }
                },
                Err(error) => !valid_profile_name(args.name@) && is_invalid_config(
                    error,
                    profile_name_message(),
                ),
            },
    {
        match validate_profile_name(&args.name) {
            Ok(_) => {},
            Err(error) => {
                return Err(error);
            },
        }
        match self.profiles.get(&args.name) {
            Some(profile) => {
                let changed = authentication_changed(profile, args);
                let identifier = chars_of(&profile.credential_id);
                let obsolete_credentials = if changed && identifier.len() > 0 {
                    Some(profile.credential_id.clone())
                } else {
                    None
                };
                Ok(
                    SetPreparation {
                        obsolete_credentials,
                        authentication_changed: changed,
                        needs_device_id: false,
                    },
                )
            },
            None => Ok(
                SetPreparation {
                    obsolete_credentials: None,
                    authentication_changed: false,
                    needs_device_id: args.device_id.is_none(),
                },
            ),
        }
    }

    /// Creates or changes a profile. `routes` are the networks that the options
    /// name, or why they could not be found.
    pub fn set_profile(
        &mut self,
        args: &ProfileSetArgs,
        installation: Option<&str>,
        routes: Result<Vec<String>, Error>,
        forget: bool,
    ) -> (result: Result<(), Error>)
        requires
            old(self).profiles.wf(),
            needs_installation(old(self)@, *args) && args.domain is Some ==> installation is Some,
        ensures
            final(self).profiles.wf(),
            match result {
                Ok(_) => {
                    let before = profile_to_change(old(self)@, *args, installation);
                    let after = changed_profile(before, *args, routes_named(routes), forget);
                    &&& creation_error(old(self)@, *args, installation) is None
                    &&& routes_needed(args.routing) ==> routes is Ok
                    &&& profile_error(after) is None
                    &&& final(self)@ == state_with_profile(old(self)@, args.name@, after)
                },
                Err(error) => {
                    let before = profile_to_change(old(self)@, *args, installation);
                    let after = changed_profile(before, *args, routes_named(routes), forget);
                    &&& final(self)@ == old(self)@
                    &&& match creation_error(old(self)@, *args, installation) {
                        Some(message) => is_invalid_config(error, message),
                        None => if routes_needed(args.routing) && routes is Err {
                            error == routes->Err_0
                        } else {
                            profile_error(after) matches Some(message) && is_invalid_config(
                                error,
                                message,
                            )
                        },
                    }
                },
            },
    {
        proof {
            self.profiles.lemma_order();
            if self.profiles.order().len() > 0 {
                assert(self.profiles.order().contains(self.profiles.order()[0]));
                assert(self@.profiles.dom().contains(self.profiles.order()[0]));
            } else {
                assert(self@.profiles =~= Map::<Seq<char>, ProfileView>::empty());
            }
        }
        let was_empty = self.profiles.len() == 0;
        let found = match self.profiles.get(&args.name) {
            Some(profile) => Some(profile.copy()),
            None => None,
        };
        let mut profile = match found {
            Some(profile) => profile,
            None => {
                let domain = match &args.domain {
                    Some(domain) => domain.clone(),
                    None => {
                        return Err(invalid_config("--domain is required to create a profile"));
                    },
                };
                let device_id = match &args.device_id {
                    Some(device_id) => device_id.clone(),
                    None => match installation {
                        Some(device_id) => device_id.to_owned(),
                        None => vstd::pervasive::unreached(),
                    },
                };
                match ManagedProfile::new(domain, device_id) {
                    Ok(profile) => profile,
                    Err(error) => {
                        return Err(error);
                    },
                }
            },
        };
        assert(profile@ == profile_to_change(old(self)@, *args, installation));
        let ghost named = routes_named(routes);
        let networks: Vec<String> = match routes {
            Ok(list) => list,
            Err(error) => {
                if !args.routing.unset_routes && args.routing.routes.len() > 0 {
                    return Err(error);
                }
                Vec::new()
            },
        };
        assert(texts(networks@) =~= named);
        change_profile(&mut profile, args, networks, forget);
        match profile.validate() {
            Ok(_) => {},
            Err(error) => {
                return Err(error);
            },
        }
        self.profiles.insert(&args.name, profile);
        if was_empty && self.default_profile.is_none() {
            self.default_profile = Some(args.name.clone());
        }
        Ok(())
    }

    /// Makes a profile the default.
    pub fn use_profile(&mut self, name: &str) -> (result: Result<(), Error>)
        requires
            old(self).profiles.wf(),
        ensures
            final(self).profiles == old(self).profiles,
            match result {
                Ok(_) => valid_profile_name(name@) && old(self)@.profiles.dom().contains(name@)
                    && final(self)@ == (StateView { default_profile: Some(name@), ..old(self)@ }),
                Err(error) => final(self)@ == old(self)@ && if !valid_profile_name(name@) {
                    is_invalid_config(error, profile_name_message())
                } else {
                    !old(self)@.profiles.dom().contains(name@) && is_invalid_config(
                        error,
                        not_found_message(name@),
                    )
                },
            },
    {
        match validate_profile_name(name) {
            Ok(_) => {},
            Err(error) => {
                return Err(error);
            },
        }
        if self.profiles.get(name).is_none() {
            return Err(profile_not_found(name));
        }
        self.default_profile = Some(name.to_owned());
        Ok(())
    }

    /// The credentials that go when a profile is removed.
    pub fn prepare_removal(&self, name: &str) -> (result: Result<Option<String>, Error>)
        requires
            self.profiles.wf(),
        ensures
            match result {
                Ok(credentials) => valid_profile_name(name@) && self@.profiles.dom().contains(name@)
                    && maybe(credentials) == saved_credentials(self@.profiles[name@]),
                Err(error) => if !valid_profile_name(name@) {
                    is_invalid_config(error, profile_name_message())
                } else {
                    !self@.profiles.dom().contains(name@) && is_invalid_config(
                        error,
                        not_found_message(name@),
                    )
                },
            },
    {
        match validate_profile_name(name) {
            Ok(_) => {},
            Err(error) => {
                return Err(error);
            },
        }
        match self.profiles.get(name) {
            Some(profile) => Ok(saved_credentials_of(profile)),
            None => Err(profile_not_found(name)),
        }
    }

    /// Removes a profile. The default goes with it.
    pub fn remove_profile(&mut self, name: &str) -> (result: Result<(), Error>)
        requires
            old(self).profiles.wf(),
        ensures
            final(self).profiles.wf(),
            match result {
                Ok(_) => old(self)@.profiles.dom().contains(name@) && final(self)@ == (StateView {
                    default_profile: if old(self)@.default_profile == Some(name@) {
                        None
                    } else {
                        old(self)@.default_profile
                    },
                    profiles: old(self)@.profiles.remove(name@),
                    ..old(self)@
                }),
                Err(error) => !old(self)@.profiles.dom().contains(name@) && final(self)@
                    == old(self)@ && is_invalid_config(error, not_found_message(name@)),
            },
    {
        if !self.profiles.remove(name) {
            assert(old(self)@.profiles.remove(name@) =~= old(self)@.profiles);
            assert(self@ =~= old(self)@);
            return Err(profile_not_found(name));
        }
        let was_default = match &self.default_profile {
            Some(current) => same_text(current, name),
            None => false,
        };
        if was_default {
            self.default_profile = None;
        }
        Ok(())
    }

    /// The name of the profile that a command speaks of: the one it names, else
    /// the default.
    pub fn named_or_default(&self, name: Option<&str>) -> (result: Result<String, Error>)
        ensures
            match result {
                Ok(chosen) => Some(chosen@) == name_or_default(self@, name),
                Err(error) => name_or_default(self@, name) is None && is_invalid_config(
                    error,
                    "no profile specified and no default profile is set"@,
                ),
            },
    {
        match name {
            Some(text) => Ok(text.to_owned()),
            None => match &self.default_profile {
                Some(text) => Ok(text.clone()),
                None => Err(invalid_config("no profile specified and no default profile is set")),
            },
        }
    }

    /// Forgets the credentials of a profile.
    pub fn clear_credentials(&mut self, name: &str) -> (result: Result<(), Error>)
        requires
            old(self).profiles.wf(),
        ensures
            final(self).profiles.wf(),
            match result {
                Ok(_) => old(self)@.profiles.dom().contains(name@) && final(self)@ == (StateView {
                    profiles: old(self)@.profiles.insert(
                        name@,
                        ProfileView {
                            credential_id: Seq::empty(),
                            ..old(self)@.profiles[name@]
                        },
                    ),
                    ..old(self)@
                }),
                Err(error) => !old(self)@.profiles.dom().contains(name@) && final(self)@
                    == old(self)@ && is_invalid_config(error, not_found_message(name@)),
            },
    {
        let mut profile = match self.profiles.get(name) {
            Some(profile) => profile.copy(),
            None => {
                return Err(profile_not_found(name));
            },
        };
        profile.credential_id = String::new();
        assert(profile.credential_id@ =~= Seq::empty());
        assert(profile@ =~= (ProfileView {
            credential_id: Seq::empty(),
            ..old(self)@.profiles[name@]
        }));
        self.profiles.insert(name, profile);
        Ok(())
    }

    /// Sets the user of a profile to the one who logged in.
    pub fn set_username(&mut self, name: &str, username: &str) -> (result: Result<(), Error>)
        requires
            old(self).profiles.wf(),
        ensures
            final(self).profiles.wf(),
            match result {
                Ok(_) => old(self)@.profiles.dom().contains(name@) && final(self)@ == (StateView {
                    profiles: old(self)@.profiles.insert(
                        name@,
                        ProfileView {
                            username: Some(username@),
                            ..old(self)@.profiles[name@]
                        },
                    ),
                    ..old(self)@
                }),
                Err(error) => !old(self)@.profiles.dom().contains(name@) && final(self)@
                    == old(self)@ && is_invalid_config(error, not_found_message(name@)),
            },
    {
        let mut profile = match self.profiles.get(name) {
            Some(profile) => profile.copy(),
            None => {
                return Err(profile_not_found(name));
            },
        };
        profile.username = Some(username.to_owned());
        assert(profile@ =~= (ProfileView {
            username: Some(username@),
            ..old(self)@.profiles[name@]
        }));
        self.profiles.insert(name, profile);
        Ok(())
    }
}

/// The identifier of saved credentials, where a profile has any.
pub open spec fn saved_credentials(profile: ProfileView) -> Option<Seq<char>> {
    if profile.credential_id.len() > 0 {
        Some(profile.credential_id)
    } else {
        None
    }
}

pub fn saved_credentials_of(profile: &ManagedProfile) -> (credentials: Option<String>)
    ensures
        maybe(credentials) == saved_credentials(profile@),
{
    let identifier = chars_of(&profile.credential_id);
    if identifier.len() > 0 {
        Some(profile.credential_id.clone())
    } else {
        None
    }
}

pub open spec fn name_or_default(state: StateView, name: Option<&str>) -> Option<Seq<char>> {
    match name {
        Some(text) => Some(text@),
        None => state.default_profile,
    }
}

/// What a managed command works with.
pub struct ManagedContext {
    pub profile_name: Option<String>,
    pub domain: String,
    pub device_id: String,
    pub username: Option<String>,
    pub line: String,
    pub credential_id: Option<String>,
    pub dns: DnsOverrides,
    pub routing: RoutingOverrides,
}

/// The context with texts as sequences.
#[verifier::ext_equal]
pub struct ContextView {
    pub profile_name: Option<Seq<char>>,
    pub domain: Seq<char>,
    pub device_id: Seq<char>,
    pub username: Option<Seq<char>>,
    pub line: Seq<char>,
    pub credential_id: Option<Seq<char>>,
    pub dns: DnsOverridesView,
    pub routing: RoutingView,
}

impl View for ManagedContext {
    type V = ContextView;

    open spec fn view(&self) -> ContextView {
        ContextView {
            profile_name: maybe(self.profile_name),
            domain: self.domain@,
            device_id: self.device_id@,
            username: maybe(self.username),
            line: self.line@,
            credential_id: maybe(self.credential_id),
            dns: self.dns@,
            routing: self.routing@,
        }
    }
}

/// The profile that a command works with: the one it names, else the default
/// where it names no domain.
pub open spec fn context_profile(
    state: StateView,
    profile: Option<&str>,
    domain: Option<&str>,
) -> Option<Seq<char>> {
    match profile {
        Some(name) => Some(name@),
        None => if domain is Some {
            None
        } else {
            state.default_profile
        },
    }
}

/// What a command works with, or the message on why it cannot.
pub open spec fn context_of(
    state: StateView,
    profile: Option<&str>,
    domain: Option<&str>,
    profile_required: bool,
    installation: Seq<char>,
) -> Result<ContextView, Seq<char>> {
    let name = context_profile(state, profile, domain);
    if profile matches Some(text) && !valid_profile_name(text@) {
        Err(profile_name_message())
    } else if name matches Some(text) && !state.profiles.dom().contains(text) {
        Err(not_found_message(name->Some_0))
    } else if profile_required && name is None {
        Err("no profile specified and no default profile is set"@)
    } else if domain is None && name is None {
        Err("no domain specified and no default profile is set"@)
    } else {
        let found = state.profiles[name->Some_0];
        let device_id = if name is Some {
            found.device_id
        } else {
            installation
        };
        if trimmed(device_id).len() == 0 {
            Err("device ID is empty"@)
        } else {
            Ok(
                ContextView {
                    profile_name: name,
                    domain: match domain {
                        Some(text) => text@,
                        None => found.domain,
                    },
                    device_id,
                    username: if name is Some {
                        found.username
                    } else {
                        None
                    },
                    line: if name is Some {
                        found.line
                    } else {
                        "auto"@
                    },
                    credential_id: if name is Some {
                        saved_credentials(found)
                    } else {
                        None
                    },
                    dns: if name is Some {
                        found.dns
                    } else {
                        no_overrides()
                    },
                    routing: if name is Some {
                        found.routing
                    } else {
                        no_routing()
                    },
                },
            )
        }
    }
}

fn context_with_profile(
    name: String,
    profile: &ManagedProfile,
    domain: Option<&str>,
) -> (result: Result<ManagedContext, Error>)
    ensures
        match result {
            Ok(context) => trimmed(profile@.device_id).len() > 0 && context@ == (ContextView {
                profile_name: Some(name@),
                domain: match domain {
                    Some(text) => text@,
                    None => profile@.domain,
                },
                device_id: profile@.device_id,
                username: profile@.username,
                line: profile@.line,
                credential_id: saved_credentials(profile@),
                dns: profile@.dns,
                routing: profile@.routing,
            }),
            Err(error) => trimmed(profile@.device_id).len() == 0 && is_invalid_config(
                error,
                "device ID is empty"@,
            ),
        },
{
    let kept = trim_text(&profile.device_id);
    let chars = chars_of(&kept);
    if chars.len() == 0 {
        return Err(invalid_config("device ID is empty"));
    }
    let copied = profile.copy();
    Ok(
        ManagedContext {
            profile_name: Some(name),
            domain: match domain {
                Some(text) => text.to_owned(),
                None => copied.domain,
            },
            device_id: copied.device_id,
            username: copied.username,
            line: copied.line,
            credential_id: saved_credentials_of(profile),
            dns: copied.dns,
            routing: copied.routing,
        },
    )
}

impl CliState {
    /// Finds out what a managed command works with. `installation` is the
    /// identifier of this installation, which is used without a profile. The
    /// domain is checked where it is looked up.
    pub fn resolve_managed_context(
        &self,
        profile: Option<&str>,
        domain: Option<&str>,
        profile_required: bool,
        installation: &str,
    ) -> (result: Result<ManagedContext, Error>)
        requires
            self.profiles.wf(),
        ensures
            match result {
                Ok(context) => context_of(
                    self@,
                    profile,
                    domain,
                    profile_required,
                    installation@,
                ) == Ok::<ContextView, Seq<char>>(context@),
                Err(error) => context_of(
                    self@,
                    profile,
                    domain,
                    profile_required,
                    installation@,
                ) matches Err(message) && is_invalid_config(error, message),
            },
    {
        let name: Option<String> = match profile {
            Some(text) => {
                match validate_profile_name(text) {
                    Ok(_) => {},
                    Err(error) => {
                        return Err(error);
                    },
                }
                Some(text.to_owned())
            },
            None => if domain.is_some() {
                None
            } else {
                copy_maybe(&self.default_profile)
            },
        };
        match name {
            Some(text) => match self.profiles.get(&text) {
                Some(found) => context_with_profile(text, found, domain),
                None => Err(profile_not_found(&text)),
            },
            None => {
                if profile_required {
                    return Err(
                        invalid_config("no profile specified and no default profile is set"),
                    );
                }
                let domain = match domain {
                    Some(text) => text.to_owned(),
                    None => {
                        return Err(
                            invalid_config("no domain specified and no default profile is set"),
                        );
                    },
                };
                let kept = trim_text(installation);
                let chars = chars_of(&kept);
                if chars.len() == 0 {
                    return Err(invalid_config("device ID is empty"));
                }
                Ok(
                    ManagedContext {
                        profile_name: None,
                        domain,
                        device_id: installation.to_owned(),
                        username: None,
                        line: "auto".to_owned(),
                        credential_id: None,
                        dns: DnsOverrides::default(),
                        routing: RoutingOverrides::default(),
                    },
                )
            },
        }
    }
}

/// A command that names a domain and no profile never touches a profile.
pub proof fn law_domain_keeps_default_out(
    state: StateView,
    domain: Option<&str>,
    profile_required: bool,
    installation: Seq<char>,
)
    requires
        domain is Some,
    ensures
        context_of(state, None, domain, profile_required, installation) matches Ok(context)
            ==> context.profile_name is None && context.credential_id is None
            && context.device_id == installation && context.dns == no_overrides()
            && context.routing == no_routing(),
{
}

/// One line on a profile in a list.
pub open spec fn list_line(
    name: Seq<char>,
    profile: ProfileView,
    default_profile: Option<Seq<char>>,
) -> Seq<char> {
    (if default_profile == Some(name) {
        "* "@
    } else {
        "  "@
    }) + name + ": domain="@ + profile.domain + " user="@ + (match profile.username {
        Some(user) => user,
        None => "-"@,
    }) + " line="@ + profile.line
}

/// Describes a profile in one line; the default one is marked.
pub fn profile_line(
    name: &str,
    profile: &ManagedProfile,
    default_profile: &Option<String>,
) -> (line: String)
    ensures
        line@ == list_line(name@, profile@, maybe(*default_profile)),
{
    let is_default = match default_profile {
        Some(current) => same_text(current, name),
        None => false,
    };
    let mut line = if is_default {
        "* ".to_owned()
    } else {
        "  ".to_owned()
    };
    push_text(&mut line, name);
    push_text(&mut line, ": domain=");
    push_text(&mut line, &profile.domain);
    push_text(&mut line, " user=");
    match &profile.username {
        Some(user) => push_text(&mut line, user),
        None => push_text(&mut line, "-"),
    }
    push_text(&mut line, " line=");
    push_text(&mut line, &profile.line);
    line
}

/// A change counts for authentication where it names another domain, device or
/// user, or takes a user away.
pub proof fn law_authentication_changes(
    profile: &ManagedProfile,
    args: &ProfileSetArgs,
    answer: bool,
)
    requires
        call_ensures(authentication_changed, (profile, args), answer),
    ensures
        args.domain is None && args.device_id is None && args.username is None
            && !args.unset_username ==> !answer,
        args.domain is Some && args.domain->Some_0@ != profile@.domain ==> answer,
        args.device_id is Some && args.device_id->Some_0@ != profile@.device_id ==> answer,
        args.username is Some && profile@.username != Some(args.username->Some_0@) ==> answer,
        args.unset_username && profile@.username is Some ==> answer,
        (args.domain is None || args.domain->Some_0@ == profile@.domain) && (args.device_id is None
            || args.device_id->Some_0@ == profile@.device_id) && (args.username is None
            || profile@.username == Some(args.username->Some_0@)) && (!args.unset_username
            || profile@.username is None) ==> !answer,
{
}

/// The routing settings of a profile change where an option says so and stay where
/// none does; taking a setting away counts more than setting it.
pub proof fn law_patched_routing(args: &ProfileRoutingArgs, routes: Vec<String>)
    ensures
        forall|target: &mut RoutingOverrides| #[trigger]
            call_ensures(patch_profile_routing, (target, args, routes), ()) ==> {
                let before = (*target)@;
                let after = (*final(target))@;
                &&& args.unset_routing_mode ==> after.mode is None
                &&& !args.unset_routing_mode && args.overrides.routing_mode is Some ==> after.mode
                    == args.overrides.routing_mode
                &&& !args.unset_routing_mode && args.overrides.routing_mode is None ==> after.mode
                    == before.mode
                &&& args.unset_routes ==> after.routes.len() == 0
                &&& !args.unset_routes && args.routes@.len() > 0 ==> after.routes == texts(routes@)
                &&& !args.unset_routes && args.routes@.len() == 0 ==> after.routes == before.routes
                &&& args.overrides.block_ipv6 ==> after.block_ipv6
                &&& !args.overrides.block_ipv6 && args.overrides.allow_ipv6 ==> !after.block_ipv6
                &&& !args.overrides.block_ipv6 && !args.overrides.allow_ipv6 ==> after.block_ipv6
                    == before.block_ipv6
            },
{
}

/// A profile is prepared to be set under a proper name. Where that changes how it
/// logs in, what it has saved is of no use any more; and a new profile needs a
/// device identifier where none is named.
pub proof fn law_prepared_change(
    state: CliState,
    args: &ProfileSetArgs,
    result: Result<SetPreparation, Error>,
)
    requires
        state.profiles.wf(),
        call_ensures(CliState::prepare_set, (&state, args), result),
    ensures
        result matches Ok(preparation) ==> {
            let known = state@.profiles.dom().contains(args.name@);
            let saved = state@.profiles[args.name@].credential_id;
            &&& preparation.needs_device_id <==> !known && args.device_id is None
            &&& !known ==> !preparation.authentication_changed
            &&& preparation.obsolete_credentials is Some <==> preparation.authentication_changed
                && saved.len() > 0
            &&& preparation.obsolete_credentials matches Some(found) ==> found@ == saved
            &&& known && args.domain is Some && args.domain->Some_0@
                != state@.profiles[args.name@].domain ==> preparation.authentication_changed
        },
{
}

/// Setting a profile changes what is named and leaves the rest of it, and the other
/// profiles, as they are. The first profile becomes the default, where there is
/// none. Where it fails nothing changes.
pub proof fn law_set_profile(
    args: &ProfileSetArgs,
    installation: Option<&str>,
    routes: Result<Vec<String>, Error>,
    forget: bool,
    result: Result<(), Error>,
    other: Seq<char>,
)
    ensures
        forall|state: &mut CliState|
            (*state).profiles.wf() && ((!(*state)@.profiles.dom().contains(args.name@)
                && args.device_id is None && args.domain is Some) ==> installation is Some)
                && #[trigger] call_ensures(
                CliState::set_profile,
                (state, args, installation, routes, forget),
                result,
            ) ==> {
                let old_profiles = (*state)@.profiles;
                let new_profiles = (*final(state))@.profiles;
                let known = old_profiles.dom().contains(args.name@);
                let before = old_profiles[args.name@];
                let after = new_profiles[args.name@];
                &&& result is Err ==> (*final(state))@ == (*state)@
                &&& !known && args.domain is None ==> result is Err
                &&& !args.routing.unset_routes && args.routing.routes@.len() > 0 && routes is Err
                    ==> result is Err
                &&& result is Ok ==> {
                    &&& new_profiles.dom().contains(args.name@)
                    &&& args.domain is Some ==> after.domain == args.domain->Some_0@
                    &&& args.domain is None ==> after.domain == before.domain
                    &&& args.device_id is Some ==> after.device_id == args.device_id->Some_0@
                    &&& args.device_id is None && known ==> after.device_id == before.device_id
                    &&& args.device_id is None && !known ==> after.device_id
                        == installation->Some_0@
                    &&& args.username is Some ==> after.username == Some(args.username->Some_0@)
                    &&& args.username is None && args.unset_username ==> after.username is None
                    &&& args.username is None && !args.unset_username && known ==> after.username
                        == before.username
                    &&& args.line is Some ==> after.line == args.line->Some_0@
                    &&& args.line is None && known ==> after.line == before.line
                    &&& forget ==> after.credential_id.len() == 0
                    &&& !forget && known ==> after.credential_id == before.credential_id
                    &&& args.reset_dns && args.dns@.dns_servers.len() == 0
                        ==> after.dns.servers is None
                    &&& !args.reset_dns && known && args.dns@.dns_servers.len() == 0
                        && args.unset_dns@.len() == 0 ==> after.dns.servers == before.dns.servers
                    &&& args.unset_dns@.contains(ProfileDnsListArg::Servers)
                        ==> after.dns.servers is None
                    &&& args.unset_dns@.contains(ProfileDnsListArg::SplitDomains)
                        ==> after.dns.split_domains is None
                    &&& args.unset_dns@.contains(ProfileDnsListArg::DohHosts)
                        ==> after.dns.doh_hosts is None
                    &&& other != args.name@ ==> new_profiles.dom().contains(other)
                        == old_profiles.dom().contains(other)
                    &&& other != args.name@ && old_profiles.dom().contains(other)
                        ==> new_profiles[other] == old_profiles[other]
                    &&& (*state)@.default_profile is Some ==> (*final(state))@.default_profile
                        == (*state)@.default_profile
                    &&& (*state)@.default_profile is None && old_profiles == Map::<
                        Seq<char>,
                        ProfileView,
                    >::empty() ==> (*final(state))@.default_profile == Some(args.name@)
                    &&& (*state)@.default_profile is None && old_profiles.dom().contains(other)
                        ==> (*final(state))@.default_profile is None
                    &&& (*final(state))@.device_id == (*state)@.device_id
                }
            },
{
}

/// A profile that is there can be made the default, and nothing else changes.
pub proof fn law_default_profile(name: &str, result: Result<(), Error>)
    ensures
        forall|state: &mut CliState|
            (*state).profiles.wf() && #[trigger] call_ensures(
                CliState::use_profile,
                (state, name),
                result,
            ) ==> {
                &&& result is Ok <==> valid_profile_name(name@) && (
                *state)@.profiles.dom().contains(name@)
                &&& result is Ok ==> (*final(state))@.default_profile == Some(name@)
                &&& result is Err ==> (*final(state))@.default_profile == (*state)@.default_profile
                &&& (*final(state))@.profiles == (*state)@.profiles
                &&& (*final(state))@.device_id == (*state)@.device_id
            },
{
}

/// A profile that is removed is not there any more, nor the default; the others
/// stay, and the default too where it is another one.
pub proof fn law_removed_profile(name: &str, result: Result<(), Error>, other: Seq<char>)
    ensures
        forall|state: &mut CliState|
            (*state).profiles.wf() && #[trigger] call_ensures(
                CliState::remove_profile,
                (state, name),
                result,
            ) ==> {
                let before = (*state)@;
                let after = (*final(state))@;
                &&& result is Ok <==> before.profiles.dom().contains(name@)
                &&& !after.profiles.dom().contains(name@)
                &&& after.default_profile != Some(name@) || result is Err
                &&& before.default_profile != Some(name@) ==> after.default_profile
                    == before.default_profile
                &&& other != name@ ==> after.profiles.dom().contains(other)
                    == before.profiles.dom().contains(other)
                &&& other != name@ && before.profiles.dom().contains(other)
                    ==> after.profiles[other] == before.profiles[other]
            },
{
}

/// The profile that is meant: the named one, else the default.
pub proof fn law_named_or_default(
    state: CliState,
    name: Option<&str>,
    result: Result<String, Error>,
)
    requires
        call_ensures(CliState::named_or_default, (&state, name), result),
    ensures
        name matches Some(text) ==> (result matches Ok(chosen) && chosen@ == text@),
        name is None && state@.default_profile is Some ==> (result matches Ok(chosen) && chosen@
            == state@.default_profile->Some_0),
        name is None && state@.default_profile is None ==> result is Err,
{
}

/// Logging out forgets what a profile saved, and a login notes its user; either
/// leaves everything else as it is.
pub proof fn law_profile_updates(
    name: &str,
    username: &str,
    result: Result<(), Error>,
    other: Seq<char>,
)
    ensures
        forall|state: &mut CliState|
            (*state).profiles.wf() && #[trigger] call_ensures(
                CliState::clear_credentials,
                (state, name),
                result,
            ) ==> {
                let before = (*state)@.profiles;
                let after = (*final(state))@.profiles;
                &&& result is Ok <==> before.dom().contains(name@)
                &&& result is Ok ==> after[name@].credential_id.len() == 0
                    && after[name@].username == before[name@].username && after[name@].domain
                    == before[name@].domain && after[name@].dns == before[name@].dns
                    && after[name@].routing == before[name@].routing
                &&& other != name@ && before.dom().contains(other) ==> after[other]
                    == before[other]
            },
        forall|state: &mut CliState|
            (*state).profiles.wf() && #[trigger] call_ensures(
                CliState::set_username,
                (state, name, username),
                result,
            ) ==> {
                let before = (*state)@.profiles;
                let after = (*final(state))@.profiles;
                &&& result is Ok <==> before.dom().contains(name@)
                &&& result is Ok ==> after[name@].username == Some(username@)
                    && after[name@].credential_id == before[name@].credential_id
                    && after[name@].domain == before[name@].domain
                &&& other != name@ && before.dom().contains(other) ==> after[other]
                    == before[other]
            },
{
}

/// What a managed command works on. A named profile, or the default where no domain
/// is named, gives the device, the user, the line, what it saved and its settings;
/// and a named domain counts more than the profile's.
pub proof fn law_managed_context(
    state: CliState,
    profile: Option<&str>,
    domain: Option<&str>,
    profile_required: bool,
    installation: &str,
    result: Result<ManagedContext, Error>,
)
    requires
        state.profiles.wf(),
        call_ensures(
            CliState::resolve_managed_context,
            (&state, profile, domain, profile_required, installation),
            result,
        ),
    ensures
        profile is None && domain is None && state@.default_profile is None ==> result is Err,
        profile is None && domain is Some && profile_required ==> result is Err,
        (profile matches Some(name) && !state@.profiles.dom().contains(name@)) ==> result is Err,
        result matches Ok(context) ==> {
            let found = state@.profiles[context@.profile_name->Some_0];
            &&& profile matches Some(name) ==> context@.profile_name == Some(name@)
            &&& profile is None && domain is Some ==> context@.profile_name is None
            &&& profile is None && domain is None ==> context@.profile_name
                == state@.default_profile
            &&& domain matches Some(text) ==> context@.domain == text@
            &&& domain is None ==> context@.domain == found.domain
            &&& context@.profile_name is Some ==> context@.device_id == found.device_id
                && context@.username == found.username && context@.line == found.line
                && context@.dns == found.dns && context@.routing == found.routing
            &&& context@.profile_name is Some && found.credential_id.len() > 0
                ==> context@.credential_id == Some(found.credential_id)
            &&& context@.profile_name is Some && found.credential_id.len() == 0
                ==> context@.credential_id is None
            &&& context@.profile_name is None ==> context@.device_id == installation@
                && context@.username is None && context@.credential_id is None && context@.line
                == "auto"@
        },
{
}

/// A profile in the list: an asterisk marks the default, and a dash stands for no
/// user.
pub proof fn law_listed_profile(
    name: &str,
    profile: &ManagedProfile,
    default_profile: &Option<String>,
    line: String,
)
    requires
        call_ensures(profile_line, (name, profile, default_profile), line),
    ensures
        ({
            let mark = if default_profile matches Some(chosen) && chosen@ == name@ {
                "* "@
            } else {
                "  "@
            };
            let user = if profile@.username is Some {
                profile@.username->Some_0
            } else {
                "-"@
            };
            line@ == mark + name@ + ": domain="@ + profile@.domain + " user="@ + user + " line="@
                + profile@.line
        }),
{
}

} // verus!
