//! Saved state, profiles, logins and credentials.

use openiwan::cli::credentials::{
    check_envelope_version, check_manifest_size, check_removed, chunk_accounts, remaining_sets,
    validate_manifest, ChunkSet, CredentialManifest, CredentialStore, CurrentChunkSet,
    StoredCredential, SECRET_CHUNK_SIZE,
};
use openiwan::cli::describe::{
    describe_discovery, describe_prepared, describe_profile, describe_profiles, describe_routing,
    describe_session, Ingress,
};
use openiwan::cli::dns::DnsOverrideArgs;
use openiwan::cli::login::{
    callback_url, check_auth_options, oidc_credential, plan_oidc_login, plan_password_login,
    saved_credentials_rejected, settle_login, uses_saved_credentials, AuthMethod,
    ManagedAuthenticationIntent, OidcLogin, PasswordSource,
};
use openiwan::cli::profile::{ProfileDnsListArg, ProfileRoutingArgs, ProfileSetArgs};
use openiwan::cli::routing::{RoutingOverrideArgs, UserRoutingMode};
use openiwan::cli::state::{
    credential_id_of, device_id_of, validate_device_id, validate_profile_name, CliState,
    ManagedProfile,
};
use openiwan::cli::store::{
    check_directory, check_file, default_state_directory, DeviceIdentifier, StateEnvironment,
    StateHost, StateStore,
};
use openiwan::net::{parse_ip, Ipv4Addr, SocketAddr};
use openiwan::{EncryptionMethod, Error, SessionInfo};
use std::collections::HashMap;

const TEST_ACCOUNT: &str = "0123456789abcdef0123456789abcdef";

fn config_message(error: Error) -> String {
    match error {
        Error::InvalidConfig(message) => message,
        other => panic!("unexpected error: {other:?}"),
    }
}

fn store_message(error: Error) -> String {
    match error {
        Error::CredentialStore(message) => message,
        other => panic!("unexpected error: {other:?}"),
    }
}

fn set_args(name: &str) -> ProfileSetArgs {
    ProfileSetArgs {
        name: name.into(),
        domain: None,
        device_id: None,
        username: None,
        unset_username: false,
        line: None,
        routing: ProfileRoutingArgs {
            overrides: RoutingOverrideArgs {
                routing_mode: None,
                block_ipv6: false,
                allow_ipv6: false,
            },
            unset_routing_mode: false,
            routes: Vec::new(),
            unset_routes: false,
        },
        dns: DnsOverrideArgs::default(),
        reset_dns: false,
        unset_dns: Vec::new(),
    }
}

fn apply(state: &mut CliState, args: &ProfileSetArgs, routes: Vec<String>) -> Result<(), Error> {
    let preparation = state.prepare_set(args).ok().unwrap();
    let installation = if preparation.needs_device_id {
        Some(state.ensure_device_id().ok().unwrap())
    } else {
        None
    };
    state.set_profile(
        args,
        installation.as_deref(),
        Ok(routes),
        preparation.obsolete_credentials.is_some(),
    )
}

fn work_state() -> CliState {
    let mut state = CliState::default();
    let mut args = set_args("work");
    args.domain = Some("iwan.example".into());
    args.username = Some("alice".into());
    apply(&mut state, &args, Vec::new()).unwrap();
    state
}

#[test]
fn profile_names_are_portable() {
    assert!(validate_profile_name("work-1.example").is_ok());
    assert!(validate_profile_name("").is_err());
    assert!(validate_profile_name("../escape").is_err());
    assert!(validate_profile_name("中文").is_err());
}

#[test]
fn credential_identifier_is_created_lazily_and_remains_stable() {
    let mut profile = ManagedProfile::new("iwan.example".into(), "device-1".into())
        .ok()
        .unwrap();
    assert!(profile.credential_id.is_empty());
    let identifier = profile.ensure_credential_id().unwrap().to_owned();
    assert_eq!(identifier.len(), 32);
    assert!(identifier
        .bytes()
        .all(|byte| byte.is_ascii_hexdigit() && !byte.is_ascii_uppercase()));
    assert_eq!(profile.ensure_credential_id().unwrap(), identifier);
}

#[test]
fn device_identifier_is_created_lazily_and_remains_stable() {
    let mut state = CliState::default();
    let first = state.ensure_device_id().unwrap();
    let second = state.ensure_device_id().unwrap();

    assert_eq!(first, second);
    assert_eq!(first.len(), 36);
    assert_eq!(first.as_bytes()[8], b'-');
    assert_eq!(first.as_bytes()[13], b'-');
    assert_eq!(first.as_bytes()[14], b'4');
    assert_eq!(first.as_bytes()[18], b'-');
    assert!(matches!(first.as_bytes()[19], b'8' | b'9' | b'A' | b'B'));
    assert_eq!(first.as_bytes()[23], b'-');
    assert_eq!(state.device_id, first);

    let store = StateStore::new(Some("state".into()), Ok(String::new()))
        .ok()
        .unwrap();
    match store.device_id(Some(state)) {
        Ok(DeviceIdentifier::Known(saved)) => assert_eq!(saved, first),
        _ => panic!("the identifier was saved"),
    }
}

#[test]
fn identifiers_are_written_from_random_bytes() {
    let bytes = [
        0x00, 0x01, 0x02, 0x03, 0x04, 0x05, 0xff, 0x07, 0xff, 0x09, 0x0a, 0x0b, 0x0c, 0x0d, 0x0e,
        0x0f,
    ];
    assert_eq!(
        device_id_of(&bytes),
        "00010203-0405-4F07-BF09-0A0B0C0D0E0F"
    );
    assert_eq!(credential_id_of(&bytes), "000102030405ff07ff090a0b0c0d0e0f");
}

#[test]
fn update_preserves_existing_profiles() {
    let mut state = CliState::default();
    state.profiles.insert(
        "one",
        ManagedProfile::new("one.example".into(), "device-1".into())
            .ok()
            .unwrap(),
    );
    state.profiles.insert(
        "two",
        ManagedProfile::new("two.example".into(), "device-2".into())
            .ok()
            .unwrap(),
    );
    assert_eq!(state.profiles.len(), 2);
    assert_eq!(state.profiles.get("one").unwrap().domain, "one.example");
    assert!(state.profiles.remove("one"));
    assert!(!state.profiles.remove("one"));
    assert_eq!(state.profiles.at(0).0, "two");
}

#[test]
fn rejects_unknown_state_versions() {
    let mut state = work_state();
    let store = StateStore::new(Some("state".into()), Ok(String::new()))
        .ok()
        .unwrap();
    store.update(&state).unwrap();
    state.version = 99;
    let error = store.load(Some(state)).err().unwrap().to_string();
    assert!(error.contains("unsupported CLI state version 99"));
    assert!(error.contains("expected 1"));
    assert_eq!(store.load(None).ok().unwrap().profiles.len(), 0);
}

#[test]
fn broken_state_is_refused() {
    let mut state = work_state();
    state.default_profile = Some("other".into());
    assert_eq!(
        config_message(state.validate().unwrap_err()),
        "default profile \"other\" does not exist"
    );
    state.default_profile = None;
    let mut profile = state.profiles.get("work").unwrap().copy();
    profile.credential_id = "short".into();
    state.profiles.insert("work", profile);
    assert_eq!(
        config_message(state.validate().unwrap_err()),
        "profile credential ID must be 32 lowercase hexadecimal characters"
    );
    assert!(validate_device_id(" ", "device").is_err());
    assert!(validate_device_id(&"d".repeat(257), "device").is_err());
}

#[test]
fn managed_context_generates_and_reuses_device_id() {
    let mut state = CliState::default();
    let installation = state.ensure_device_id().unwrap();
    let first = state
        .resolve_managed_context(None, Some("iwan.example"), false, &installation)
        .ok()
        .unwrap();
    let again = state.ensure_device_id().unwrap();
    let second = state
        .resolve_managed_context(None, Some("iwan.example"), false, &again)
        .ok()
        .unwrap();
    assert_eq!(first.device_id, second.device_id);
    assert_eq!(first.device_id, state.device_id);
}

#[test]
fn new_profile_uses_generated_device_id() {
    let mut state = CliState::default();
    let mut args = set_args("work");
    args.domain = Some("iwan.example".into());
    args.username = Some("alice".into());
    apply(&mut state, &args, Vec::new()).unwrap();
    assert!(!state.device_id.is_empty());
    assert_eq!(
        state.profiles.get("work").unwrap().device_id,
        state.device_id
    );
    assert_eq!(state.default_profile.as_deref(), Some("work"));
}

#[test]
fn successful_managed_login_can_synchronize_the_profile_username() {
    let mut state = CliState::default();
    let mut args = set_args("work");
    args.domain = Some("iwan.example".into());
    args.username = Some("old-user".into());
    apply(&mut state, &args, Vec::new()).unwrap();
    let mut context = state
        .resolve_managed_context(Some("work"), None, true, "unused")
        .ok()
        .unwrap();
    assert_eq!(context.username.as_deref(), Some("old-user"));

    state.set_username("work", "alice").unwrap();
    context.username = Some("alice".into());

    assert_eq!(context.username.as_deref(), Some("alice"));
    assert_eq!(
        state.profiles.get("work").unwrap().username.as_deref(),
        Some("alice")
    );
}

#[test]
fn profile_routing_updates_replace_and_clear_saved_routes() {
    let mut state = CliState::default();
    let mut args = set_args("work");
    args.domain = Some("iwan.example".into());
    args.routing.overrides.routing_mode = Some(UserRoutingMode::Custom);
    args.routing.overrides.block_ipv6 = true;
    args.routing.routes = vec!["10.1.2.3/8".into()];
    apply(&mut state, &args, vec!["10.0.0.0/8".into()]).unwrap();
    let profile = state.profiles.get("work").unwrap();
    assert_eq!(profile.routing.mode, Some(UserRoutingMode::Custom));
    assert_eq!(profile.routing.routes, ["10.0.0.0/8"]);
    assert!(profile.routing.block_ipv6);

    let mut args = set_args("work");
    args.routing.unset_routing_mode = true;
    args.routing.overrides.allow_ipv6 = true;
    args.routing.routes = vec!["192.0.2.0/24".into()];
    apply(&mut state, &args, vec!["192.0.2.0/24".into()]).unwrap();
    let profile = state.profiles.get("work").unwrap();
    assert_eq!(profile.routing.mode, None);
    assert_eq!(profile.routing.routes, ["192.0.2.0/24"]);
    assert!(!profile.routing.block_ipv6);

    let mut args = set_args("work");
    args.routing.unset_routes = true;
    apply(&mut state, &args, Vec::new()).unwrap();
    assert!(state.profiles.get("work").unwrap().routing.routes.is_empty());
}

#[test]
fn profiles_need_a_domain_and_usable_routes() {
    let mut state = CliState::default();
    let args = set_args("work");
    assert_eq!(
        config_message(state.set_profile(&args, None, Ok(Vec::new()), false).unwrap_err()),
        "--domain is required to create a profile"
    );
    let mut state = work_state();
    let mut args = set_args("work");
    args.routing.routes = vec!["broken".into()];
    assert!(matches!(
        state.set_profile(&args, None, Err(Error::Tun("broken".into())), false),
        Err(Error::Tun(_))
    ));
    assert!(state.profiles.get("work").unwrap().routing.routes.is_empty());
}

#[test]
fn changed_logins_forget_credentials() {
    let mut state = work_state();
    let mut context = state
        .resolve_managed_context(None, None, true, "unused")
        .ok()
        .unwrap();
    let identifier = state.ensure_credential_id(&mut context).unwrap();
    assert_eq!(
        state.profiles.get("work").unwrap().credential_id,
        identifier
    );
    let mut args = set_args("work");
    args.line = Some("iwan:7".into());
    let preparation = state.prepare_set(&args).ok().unwrap();
    assert!(!preparation.authentication_changed);
    args.username = Some("bob".into());
    args.unset_dns = vec![ProfileDnsListArg::Servers];
    let preparation = state.prepare_set(&args).ok().unwrap();
    assert!(preparation.authentication_changed);
    assert_eq!(preparation.obsolete_credentials, Some(identifier));
    state.set_profile(&args, None, Ok(Vec::new()), true).unwrap();
    let profile = state.profiles.get("work").unwrap();
    assert!(profile.credential_id.is_empty());
    assert_eq!(profile.line, "iwan:7");
    assert_eq!(profile.username.as_deref(), Some("bob"));
}

#[test]
fn profiles_are_used_and_removed_by_name() {
    let mut state = work_state();
    assert!(state.use_profile("other").is_err());
    state.use_profile("work").unwrap();
    assert_eq!(state.named_or_default(None).unwrap(), "work");
    assert_eq!(state.prepare_removal("work").unwrap(), None);
    state.clear_credentials("work").unwrap();
    state.remove_profile("work").unwrap();
    assert_eq!(state.default_profile, None);
    assert_eq!(
        config_message(state.named_or_default(None).unwrap_err()),
        "no profile specified and no default profile is set"
    );
    match state.resolve_managed_context(None, None, false, "device") {
        Err(error) => assert_eq!(
            config_message(error),
            "no domain specified and no default profile is set"
        ),
        Ok(_) => panic!("a domain is needed"),
    }
}

#[test]
fn profiles_and_sessions_are_described() {
    let mut state = work_state();
    state.device_id = "device".into();
    let mut profile = state.profiles.get("work").unwrap().copy();
    profile.device_id = "device".into();
    state.profiles.insert("work", profile);
    assert_eq!(
        describe_profiles(&state),
        ["* work: domain=iwan.example user=alice line=auto"]
    );
    assert_eq!(describe_profiles(&CliState::default()), ["no profiles"]);
    assert_eq!(
        describe_profile(
            "work",
            state.profiles.get("work").unwrap(),
            &state.default_profile,
            "{}",
            "{}"
        ),
        [
            "profile: work",
            "  default: yes",
            "  domain: iwan.example",
            "  device-id: device",
            "  username: alice",
            "  line: auto",
            "  dns: inherit",
            "  routing: inherit"
        ]
    );
    assert_eq!(
        describe_routing("all", true),
        "routing: mode=all, ipv6=blocked"
    );
    let ip = |text| parse_ip(text).unwrap();
    let info = SessionInfo {
        peer: SocketAddr {
            ip: ip("2001:db8::1"),
            port: 6001,
        },
        session_id: 1,
        token: 2,
        encryption: EncryptionMethod::Xor,
        mtu: 1400,
        address: Some(ip("10.0.0.2")),
        gateway: None,
        dns_servers: vec![ip("192.0.2.1"), ip("192.0.2.2")],
        segment_routing: false,
    };
    assert_eq!(
        describe_session(&info),
        [
            "authenticated: [2001:db8::1]:6001",
            "address: 10.0.0.2",
            "dns: 192.0.2.1, 192.0.2.2"
        ]
    );
    assert_eq!(Ipv4Addr::new(0, 0, 0, 1).bits, 1);
}

#[test]
fn state_is_kept_where_the_host_keeps_it() {
    let environment = |home: Option<&str>| StateEnvironment {
        state_dir: None,
        local_app_data: None,
        app_data: Some("C:/Users/alice/AppData".into()),
        xdg_state_home: Some(String::new()),
        home: home.map(Into::into),
    };
    let set = environment(Some("/home/alice/"));
    assert_eq!(
        default_state_directory(StateHost::Unix, &set).unwrap(),
        "/home/alice/.local/state/openiwan"
    );
    assert_eq!(
        default_state_directory(StateHost::MacOs, &set).unwrap(),
        "/home/alice/Library/Application Support/openiwan"
    );
    assert_eq!(
        default_state_directory(StateHost::Windows, &set).unwrap(),
        "C:/Users/alice/AppData/OpeniWAN"
    );
    assert_eq!(
        config_message(default_state_directory(StateHost::Unix, &environment(None)).unwrap_err()),
        "XDG_STATE_HOME or HOME is required for CLI state; use --state-dir"
    );
    let store = StateStore::new(None, Ok("/state".into())).ok().unwrap();
    assert_eq!(store.directory(), "/state");
    assert_eq!(store.cache_directory(), "/state/cache");
    assert_eq!(store.state_file(), "/state/profiles.toml");
    assert_eq!(store.lock_file(), "/state/profiles.lock");
    assert_eq!(store.temporary_file(7, 2), "/state/.profiles.toml.7.2.tmp");
    match StateStore::new(Some(String::new()), Ok("/state".into())) {
        Err(error) => assert_eq!(
            config_message(error),
            "CLI state directory must not be empty"
        ),
        Ok(_) => panic!("an empty directory should be refused"),
    }
    assert!(check_directory("/state", false, true).is_ok());
    assert!(check_directory("/state", true, true).is_err());
    assert!(check_file("/state/f", false, true, Some(0o100_600)).is_ok());
    assert!(check_file("/state/f", false, true, None).is_ok());
    assert_eq!(
        config_message(check_file("/state/f", false, true, Some(0o100_604)).unwrap_err()),
        "/state/f must not be accessible by group or other users"
    );
    assert_eq!(
        config_message(check_file("/state/f", false, false, None).unwrap_err()),
        "/state/f must be a regular file"
    );
}

#[test]
fn saved_credential_errors_direct_users_to_managed_login() {
    let error = saved_credentials_rejected(Error::AuthenticationRejected {
        code: 1,
        message: "invalid password".into(),
    });
    let message = error.to_string();
    assert!(message.contains("invalid password"));
    assert!(message.contains("openiwan managed login"));
}

#[test]
fn only_fresh_logins_are_saved() {
    let fresh = ManagedAuthenticationIntent::FreshAndPersist;
    let reuse = ManagedAuthenticationIntent::ReuseOrEphemeral;
    assert!(settle_login(Ok(()), false, fresh).unwrap());
    assert!(!settle_login(Ok(()), true, reuse).unwrap());
    assert!(matches!(
        settle_login(Err(Error::SessionClosed), false, fresh),
        Err(Error::SessionClosed)
    ));
    assert!(
        store_message(settle_login(Err(Error::SessionClosed), true, reuse).unwrap_err())
            .starts_with("saved credentials rejected: ")
    );
}

#[test]
fn logins_name_the_user_of_their_profile() {
    let mut state = work_state();
    let mut context = state
        .resolve_managed_context(None, None, true, "unused")
        .ok()
        .unwrap();
    state.sync_profile_username(&mut context, "carol").unwrap();
    assert_eq!(context.username.as_deref(), Some("carol"));
    assert_eq!(
        state.profiles.get("work").unwrap().username.as_deref(),
        Some("carol")
    );
    context.profile_name = Some("gone".into());
    assert_eq!(
        config_message(state.sync_profile_username(&mut context, "dave").unwrap_err()),
        "profile not found: gone"
    );
    assert_eq!(context.username.as_deref(), Some("carol"));
    context.profile_name = None;
    assert_eq!(
        config_message(state.sync_profile_username(&mut context, "dave").unwrap_err()),
        "no profile specified and no default profile is set"
    );
}

#[test]
fn managed_connections_are_described() {
    assert_eq!(
        describe_discovery("iwan.example", "D1", "controller", true, AuthMethod::Oidc),
        [
            "domain: iwan.example",
            "device-id: D1",
            "service: controller",
            "source: cache",
            "auth: oidc"
        ]
    );
    let server = Ingress::Server {
        name: "east".into(),
        endpoint: "192.0.2.1:6001".into(),
        latency: "1.500".into(),
    };
    assert_eq!(
        describe_prepared("iwan.example", "auto", &server),
        [
            "domain: iwan.example",
            "line: auto",
            "server: east endpoint=192.0.2.1:6001 latency=1.500 ms"
        ]
    );
    let path = Ingress::SegmentRouting {
        group: "7".into(),
        endpoint: "edge:6001".into(),
        latency: "2.000".into(),
    };
    assert_eq!(
        describe_prepared("iwan.example", "sr:7", &path)[2],
        "sr-group: 7, ingress=edge:6001 latency=2.000 ms"
    );
}

#[test]
fn passwords_come_from_the_nearest_source() {
    let saved = || {
        Some(StoredCredential::Password {
            username: "alice".into(),
            password: "saved".into(),
        })
    };
    let given = plan_password_login(Some("given".into()), None, Some("bob".into()), None, false)
        .ok()
        .unwrap();
    assert_eq!(given.username, "bob");
    assert!(matches!(given.source, PasswordSource::Given(ref text) if text == "given"));
    let login = plan_password_login(None, saved(), None, None, true)
        .ok()
        .unwrap();
    assert_eq!(login.username, "alice");
    assert!(matches!(login.source, PasswordSource::Saved(ref text) if text == "saved"));
    let login = plan_password_login(None, saved(), Some("bob".into()), None, false)
        .ok()
        .unwrap();
    assert!(matches!(login.source, PasswordSource::Prompt));
    assert_eq!(
        store_message(
            plan_password_login(None, saved(), Some("bob".into()), None, true)
                .err()
                .unwrap()
        ),
        "no password available; run `openiwan managed login` or set OPENIWAN_PASSWORD"
    );
    assert_eq!(
        config_message(
            plan_password_login(None, None, None, None, false)
                .err()
                .unwrap()
        ),
        "--username is required for password authentication"
    );
    let oidc = Some(StoredCredential::Oidc {
        refresh_token: "token".into(),
        user_id: "42".into(),
        username: "alice".into(),
    });
    assert_eq!(
        store_message(
            plan_password_login(None, oidc, None, None, false)
                .err()
                .unwrap()
        ),
        "saved credentials use a different authentication method; run `openiwan managed login`"
    );
}

#[test]
fn oidc_logins_refresh_or_ask() {
    let saved = Some(StoredCredential::Oidc {
        refresh_token: "token".into(),
        user_id: "42".into(),
        username: "alice".into(),
    });
    assert!(matches!(
        plan_oidc_login(saved, true),
        Ok(OidcLogin::Refresh { .. })
    ));
    assert!(matches!(
        plan_oidc_login(None, false),
        Ok(OidcLogin::Interactive)
    ));
    assert_eq!(
        store_message(plan_oidc_login(None, true).err().unwrap()),
        "no saved OIDC session; run `openiwan managed login`"
    );
    assert!(oidc_credential(String::new(), "42".into(), "alice".into()).is_err());
    assert!(oidc_credential("token".into(), "42".into(), "alice".into()).is_ok());
    assert_eq!(callback_url(" app://done \n").unwrap(), "app://done");
    assert!(callback_url(" \n").is_err());
    assert!(check_auth_options(AuthMethod::Credential, false, false, true).is_err());
    assert!(check_auth_options(AuthMethod::Oidc, true, false, false).is_err());
    assert!(check_auth_options(AuthMethod::Oidc, false, false, true).is_ok());
    assert!(uses_saved_credentials(
        false,
        ManagedAuthenticationIntent::ReuseOrEphemeral
    ));
    assert!(!uses_saved_credentials(
        false,
        ManagedAuthenticationIntent::FreshAndPersist
    ));
}

fn copy_manifest(manifest: &CredentialManifest) -> CredentialManifest {
    CredentialManifest {
        version: manifest.version,
        current: CurrentChunkSet {
            generation: manifest.current.generation.clone(),
            chunks: manifest.current.chunks,
            length: manifest.current.length,
            sha256: manifest.current.sha256,
        },
        obsolete: manifest.obsolete.iter().map(ChunkSet::copy).collect(),
    }
}

struct MemoryStore {
    manifest: Option<CredentialManifest>,
    chunks: HashMap<String, Vec<u8>>,
}

impl MemoryStore {
    fn new() -> Self {
        MemoryStore {
            manifest: None,
            chunks: HashMap::new(),
        }
    }

    fn remove(&mut self, sets: &[ChunkSet]) -> Vec<bool> {
        sets.iter()
            .map(|set| {
                for account in chunk_accounts(TEST_ACCOUNT, set) {
                    self.chunks.remove(&account);
                }
                false
            })
            .collect()
    }

    fn save(&mut self, secret: &[u8]) {
        let obsolete: Vec<ChunkSet> = match &self.manifest {
            Some(manifest) => manifest.obsolete.iter().map(ChunkSet::copy).collect(),
            None => Vec::new(),
        };
        let failed = self.remove(&obsolete);
        let remaining = remaining_sets(&obsolete, &failed);
        let plan = CredentialStore::save(TEST_ACCOUNT, secret, self.manifest.as_ref(), &remaining)
            .ok()
            .unwrap();
        for chunk in &plan.chunks {
            self.chunks
                .insert(chunk.account.clone(), chunk.secret.clone());
        }
        self.manifest = Some(copy_manifest(&plan.manifest));
        let obsolete: Vec<ChunkSet> = plan.manifest.obsolete.iter().map(ChunkSet::copy).collect();
        let failed = self.remove(&obsolete);
        if let Some(manifest) = plan.settle(&failed) {
            self.manifest = Some(manifest);
        }
    }

    fn load(&self) -> Result<Option<Vec<u8>>, Error> {
        let chunks = match &self.manifest {
            Some(manifest) => chunk_accounts(TEST_ACCOUNT, &manifest.current.as_chunk_set())
                .iter()
                .map(|account| self.chunks.get(account).cloned())
                .collect(),
            None => Vec::new(),
        };
        CredentialStore::load(TEST_ACCOUNT, self.manifest.as_ref(), &chunks)
    }

    fn delete(&mut self) -> bool {
        match CredentialStore::delete(TEST_ACCOUNT, self.manifest.as_ref()).unwrap() {
            Some(sets) => {
                let failed = self.remove(&sets);
                check_removed(&failed).unwrap();
                self.manifest = None;
                true
            }
            None => false,
        }
    }
}

#[test]
fn credential_envelope_round_trips_without_plaintext_debug_output() {
    let credential = StoredCredential::Password {
        username: "alice".into(),
        password: "secret".into(),
    };
    assert!(matches!(
        credential,
        StoredCredential::Password {
            ref username,
            ref password
        } if username == "alice" && password == "secret"
    ));
    assert!(!credential.debug_string().contains("secret"));
    assert!(check_envelope_version(1).is_ok());
    assert!(check_envelope_version(2).is_err());
}

#[test]
fn long_oidc_credential_is_chunked_and_round_trips() {
    let mut store = MemoryStore::new();
    let secret = "token".repeat(2_000).into_bytes();
    store.save(&secret);
    assert!(store.chunks.len() > 2);
    assert!(store
        .chunks
        .values()
        .all(|chunk| chunk.len() <= SECRET_CHUNK_SIZE));
    assert_eq!(store.load().unwrap().unwrap(), secret);
    validate_manifest(store.manifest.as_ref().unwrap()).unwrap();
}

#[test]
fn saving_again_removes_the_previous_generation() {
    let mut store = MemoryStore::new();
    store.save("old".repeat(2_000).as_bytes());
    let old_accounts: Vec<String> = store.chunks.keys().cloned().collect();
    store.save(b"new-secret");
    assert!(old_accounts
        .iter()
        .all(|account| !store.chunks.contains_key(account)));
    assert_eq!(store.load().unwrap().unwrap(), b"new-secret");
}

#[test]
fn delete_removes_manifest_and_all_chunks() {
    let mut store = MemoryStore::new();
    store.save("token".repeat(2_000).as_bytes());
    assert!(store.delete());
    assert!(store.chunks.is_empty());
    assert!(store.manifest.is_none());
    assert!(!store.delete());
}

#[test]
fn missing_chunk_is_reported_as_invalid_saved_authentication() {
    let mut store = MemoryStore::new();
    store.save("token".repeat(2_000).as_bytes());
    let account = store.chunks.keys().next().unwrap().clone();
    store.chunks.remove(&account);
    let error = store.load().unwrap_err();
    assert!(error.to_string().contains("chunk"));
    assert!(error.to_string().contains("missing"));
}

#[test]
fn changed_secrets_are_noticed() {
    let mut store = MemoryStore::new();
    store.save(b"secret");
    let account = store.chunks.keys().next().unwrap().clone();
    store.chunks.insert(account, b"forged".to_vec());
    assert!(store.load().is_err());
    assert!(CredentialStore::load("", None, &Vec::new()).is_err());
    assert!(CredentialStore::save(TEST_ACCOUNT, &[], None, &Vec::new()).is_err());
    assert!(check_manifest_size(SECRET_CHUNK_SIZE).is_ok());
    assert!(check_manifest_size(SECRET_CHUNK_SIZE + 1).is_err());
    assert!(check_removed(&vec![false, true]).is_err());
}

#[test]
fn a_failed_save_leaves_what_is_loaded() {
    let mut store = MemoryStore::new();
    store.save(b"old-secret");
    let plan = CredentialStore::save(
        TEST_ACCOUNT,
        &[7; 5_000],
        store.manifest.as_ref(),
        &Vec::new(),
    )
    .ok()
    .unwrap();
    for chunk in plan.chunks.iter().take(2) {
        store
            .chunks
            .insert(chunk.account.clone(), chunk.secret.clone());
    }
    assert_eq!(store.load().unwrap().unwrap(), b"old-secret");
    store.chunks.remove(&plan.rollback(2)[0]);
    assert_eq!(store.load().unwrap().unwrap(), b"old-secret");
    assert!(MemoryStore::new().load().unwrap().is_none());
}

#[test]
fn failed_saves_name_what_they_wrote() {
    let plan = CredentialStore::save(TEST_ACCOUNT, &[7; 5_000], None, &Vec::new())
        .ok()
        .unwrap();
    assert_eq!(plan.chunks.len(), 3);
    let accounts = plan.rollback(2);
    assert_eq!(accounts[0], plan.chunks[0].account);
    assert_eq!(accounts[1], plan.chunks[1].account);
    assert_eq!(accounts.len(), 2);
    assert!(plan.settle(&Vec::new()).is_none());
}

#[test]
fn device_identifiers_are_hyphens_and_upper_case_digits() {
    for byte in [0_u8, 0x5a, 0xaf, 0xff] {
        let identifier: Vec<char> = device_id_of(&[byte; 16]).chars().collect();
        assert_eq!(identifier.len(), 36);
        for (index, character) in identifier.iter().enumerate() {
            if [8, 13, 18, 23].contains(&index) {
                assert_eq!(*character, '-');
            } else {
                assert!(character.is_ascii_digit() || ('A'..='F').contains(character));
            }
        }
    }
}
