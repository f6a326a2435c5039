//! Where state is saved, and what is read and written there.
//!
//! Files belong to whoever drives this. Paths are texts in which `/` separates.

use super::state::CliState;
use super::state::{state_error, StateView};
use crate::error::{invalid_config, Error};
use crate::error::is_invalid_config;
use crate::text::{chars_of, join2, join3, push_decimal, push_text};
use crate::text::decimal;
use vstd::prelude::*;

verus! {

pub const STATE_FILE_NAME: &'static str = "profiles.toml";

pub const LOCK_FILE_NAME: &'static str = "profiles.lock";

/// How many names for a temporary file are tried.
pub const TEMPORARY_ATTEMPTS: u32 = 16;

/// A path below another.
pub open spec fn below(base: Seq<char>, name: Seq<char>) -> Seq<char> {
    if base.len() == 0 || base.last() == '/' {
        base + name
    } else {
        base + "/"@ + name
    }
}

pub fn path_below(base: &str, name: &str) -> (path: String)
    ensures
        path@ == below(base@, name@),
{
    let chars = chars_of(base);
    if chars.len() == 0 || chars[chars.len() - 1] == '/' {
        join2(base, name)
    } else {
        join3(base, "/", name)
    }
}

/// The kind of host whose conventions say where state is kept.
#[derive(Debug, Clone, Copy, PartialEq, Eq, Structural)]
pub enum StateHost {
    Windows,
    MacOs,
    Unix,
}

/// Variables of the environment that say where state is kept.
#[derive(Debug)]
pub struct StateEnvironment {
    pub state_dir: Option<String>,
    pub local_app_data: Option<String>,
    pub app_data: Option<String>,
    pub xdg_state_home: Option<String>,
    pub home: Option<String>,
}

/// A variable that is set to something.
pub open spec fn present(variable: Option<String>) -> Option<Seq<char>> {
    match variable {
        Some(text) => if text@.len() > 0 {
            Some(text@)
        } else {
            None
        },
        None => None,
    }
}

fn environment_path(variable: &Option<String>) -> (path: Option<&String>)
    ensures
        match path {
            Some(text) => present(*variable) == Some(text@),
            None => present(*variable) is None,
        },
{
    match variable {
        Some(text) => {
            let chars = chars_of(text);
            if chars.len() > 0 {
                Some(text)
            } else {
                None
            }
        },
        None => None,
    }
}

/// Where state is kept unless something else is asked for, or what is missing.
pub open spec fn default_directory(host: StateHost, environment: StateEnvironment) -> Result<
    Seq<char>,
    Seq<char>,
> {
    match environment.state_dir {
        Some(directory) => Ok(directory@),
        None => match host {
            StateHost::Windows => match present(environment.local_app_data) {
                Some(base) => Ok(below(base, "OpeniWAN"@)),
                None => match present(environment.app_data) {
                    Some(base) => Ok(below(base, "OpeniWAN"@)),
                    None => Err(
                        "LOCALAPPDATA or APPDATA is required for CLI state; use --state-dir"@,
                    ),
                },
            },
            StateHost::MacOs => match present(environment.home) {
                Some(base) => Ok(below(base, "Library/Application Support/openiwan"@)),
                None => Err("HOME is required for CLI state; use --state-dir"@),
            },
            StateHost::Unix => match present(environment.xdg_state_home) {
                Some(base) => Ok(below(base, "openiwan"@)),
                None => match present(environment.home) {
                    Some(base) => Ok(below(base, ".local/state/openiwan"@)),
                    None => Err(
                        "XDG_STATE_HOME or HOME is required for CLI state; use --state-dir"@,
                    ),
                },
            },
        },
    }
}

pub fn default_state_directory(host: StateHost, environment: &StateEnvironment) -> (result: Result<
    String,
    Error,
>)
    ensures
        match result {
            Ok(directory) => default_directory(host, *environment) == Ok::<Seq<char>, Seq<char>>(
                directory@,
            ),
            Err(error) => default_directory(host, *environment) matches Err(message)
                && is_invalid_config(error, message),
        },
{
    if let Some(directory) = &environment.state_dir {
        return Ok(directory.clone());
    }
    match host {
        StateHost::Windows => {
            if let Some(base) = environment_path(&environment.local_app_data) {
                return Ok(path_below(base, "OpeniWAN"));
            }
            if let Some(base) = environment_path(&environment.app_data) {
                return Ok(path_below(base, "OpeniWAN"));
            }
            Err(
                invalid_config(
                    "LOCALAPPDATA or APPDATA is required for CLI state; use --state-dir",
                ),
            )
        },
        StateHost::MacOs => {
            if let Some(base) = environment_path(&environment.home) {
                return Ok(path_below(base, "Library/Application Support/openiwan"));
            }
            Err(invalid_config("HOME is required for CLI state; use --state-dir"))
        },
        StateHost::Unix => {
            if let Some(base) = environment_path(&environment.xdg_state_home) {
                return Ok(path_below(base, "openiwan"));
            }
            if let Some(base) = environment_path(&environment.home) {
                return Ok(path_below(base, ".local/state/openiwan"));
            }
            Err(
                invalid_config("XDG_STATE_HOME or HOME is required for CLI state; use --state-dir"),
            )
        },
    }
}

/// The directory that state is saved in.
#[derive(Debug, Clone)]
pub struct StateStore {
    directory: String,
}

/// What is known of the identifier of an installation.
pub enum DeviceIdentifier {
    Known(String),
    /// It is made, and saved, on first use.
    Missing,
}

impl StateStore {
    pub closed spec fn path(&self) -> Seq<char> {
        self.directory@
    }

    /// Uses a directory that is asked for, else the default one.
    pub fn new(override_directory: Option<String>, default: Result<String, Error>) -> (result: Result<
        Self,
        Error,
    >)
        ensures
            match override_directory {
                Some(directory) => if directory@.len() == 0 {
                    result matches Err(error) && is_invalid_config(
                        error,
                        "CLI state directory must not be empty"@,
                    )
                } else {
                    result matches Ok(store) && store.path() == directory@
                },
                None => match default {
                    Ok(directory) => if directory@.len() == 0 {
                        result matches Err(error) && is_invalid_config(
                            error,
                            "CLI state directory must not be empty"@,
                        )
                    } else {
                        result matches Ok(store) && store.path() == directory@
                    },
                    Err(error) => result == Err::<Self, Error>(error),
                },
            },
    {
        let directory = match override_directory {
            Some(directory) => directory,
            None => match default {
                Ok(directory) => directory,
                Err(error) => {
                    return Err(error);
                },
            },
        };
        let chars = chars_of(&directory);
        if chars.len() == 0 {
            return Err(invalid_config("CLI state directory must not be empty"));
        }
        Ok(StateStore { directory })
    }

    pub fn directory(&self) -> (directory: &str)
        ensures
            directory@ == self.path(),
    {
        &self.directory
    }

    pub fn cache_directory(&self) -> (directory: String)
        ensures
            directory@ == below(self.path(), "cache"@),
    {
        path_below(&self.directory, "cache")
    }

    pub fn state_file(&self) -> (path: String)
        ensures
            path@ == below(self.path(), STATE_FILE_NAME@),
    {
        path_below(&self.directory, STATE_FILE_NAME)
    }

    pub fn lock_file(&self) -> (path: String)
        ensures
            path@ == below(self.path(), LOCK_FILE_NAME@),
    {
        path_below(&self.directory, LOCK_FILE_NAME)
    }

    /// A file beside the saved state, for a process and a count of its own.
    pub fn temporary_file(&self, process: u32, counter: u64) -> (path: String)
        ensures
            path@ == below(
                self.path(),
                "."@ + STATE_FILE_NAME@ + "."@ + decimal(process as nat) + "."@ + decimal(
                    counter as nat,
                ) + ".tmp"@,
            ),
    {
        let mut name = join3(".", STATE_FILE_NAME, ".");
        push_decimal(&mut name, process as u64);
        push_text(&mut name, ".");
        push_decimal(&mut name, counter);
        push_text(&mut name, ".tmp");
        path_below(&self.directory, &name)
    }

    /// The state that was saved: none at first, and only one that is valid.
    pub fn load(&self, document: Option<CliState>) -> (result: Result<CliState, Error>)
        requires
            document matches Some(state) ==> state.profiles.wf(),
        ensures
            loaded(document, result),
    {
        match document {
            None => Ok(CliState::default()),
            Some(state) => match state.validate() {
                Ok(_) => Ok(state),
                Err(error) => Err(error),
            },
        }
    }

    /// Whether changed state may be saved.
    pub fn update(&self, state: &CliState) -> (result: Result<(), Error>)
        requires
            state.profiles.wf(),
        ensures
            match result {
                Ok(_) => state_error(state@, state.profiles.order()) is None,
                Err(error) => state_error(state@, state.profiles.order()) matches Some(message)
                    && is_invalid_config(error, message),
            },
    {
        state.validate()
    }

    /// The identifier of this installation, as far as it was saved.
    pub fn device_id(&self, document: Option<CliState>) -> (result: Result<DeviceIdentifier, Error>)
        requires
            document matches Some(state) ==> state.profiles.wf(),
        ensures
            match document {
                None => result matches Ok(DeviceIdentifier::Missing),
                Some(state) => match state_error(state@, state.profiles.order()) {
                    Some(message) => result matches Err(error) && is_invalid_config(
                        error,
                        message,
                    ),
                    None => if state@.device_id.len() > 0 {
                        result matches Ok(DeviceIdentifier::Known(identifier)) && identifier@
                            == state@.device_id
                    } else {
                        result matches Ok(DeviceIdentifier::Missing)
                    },
                },
            },
    {
        let state = match self.load(document) {
            Ok(state) => state,
            Err(error) => {
                return Err(error);
            },
        };
        let chars = chars_of(&state.device_id);
        if chars.len() > 0 {
            Ok(DeviceIdentifier::Known(state.device_id))
        } else {
            Ok(DeviceIdentifier::Missing)
        }
    }
}

/// What reading saved state gives.
pub open spec fn loaded(document: Option<CliState>, result: Result<CliState, Error>) -> bool {
    match document {
        None => result matches Ok(state) && state.profiles.wf() && state@ == (StateView {
            version: super::state::STATE_VERSION,
            device_id: Seq::empty(),
            default_profile: None,
            profiles: Map::empty(),
        }),
        Some(saved) => match state_error(saved@, saved.profiles.order()) {
            Some(message) => result matches Err(error) && is_invalid_config(error, message),
            None => result == Ok::<CliState, Error>(saved),
        },
    }
}

/// State that was found fit to be saved is read back as it was saved.
pub proof fn law_saved_state_reads_back(state: CliState, result: Result<CliState, Error>)
    requires
        state_error(state@, state.profiles.order()) is None,
        loaded(Some(state), result),
    ensures
        result == Ok::<CliState, Error>(state),
{
}

/// Refuses a directory for state that is none of its own.
pub fn check_directory(path: &str, is_symlink: bool, is_directory: bool) -> (result: Result<
    (),
    Error,
>)
    ensures
        match result {
            Ok(_) => !is_symlink && is_directory,
            Err(error) => (is_symlink || !is_directory) && is_invalid_config(
                error,
                path@ + " must be a real directory, not a symlink"@,
            ),
        },
{
    if is_symlink || !is_directory {
        return Err(Error::InvalidConfig(join2(path, " must be a real directory, not a symlink")));
    }
    Ok(())
}

/// Refuses a file for state that is none of its own, or that other users can
/// get at, where the host tells who can.
pub fn check_file(path: &str, is_symlink: bool, is_file: bool, mode: Option<u32>) -> (result: Result<
    (),
    Error,
>)
    ensures
        if is_symlink || !is_file {
            result matches Err(error) && is_invalid_config(error, path@ + " must be a regular file"@)
        } else if mode matches Some(bits) && bits % 64 != 0 {
            result matches Err(error) && is_invalid_config(
                error,
                path@ + " must not be accessible by group or other users"@,
            )
        } else {
            result is Ok
        },
{
    if is_symlink || !is_file {
        return Err(Error::InvalidConfig(join2(path, " must be a regular file")));
    }
    if let Some(bits) = mode {
        if bits % 64 != 0 {
            return Err(
                Error::InvalidConfig(
                    join2(path, " must not be accessible by group or other users"),
                ),
            );
        }
    }
    Ok(())
}

/// A path below a directory: one slash stands between the two.
pub proof fn law_path_below(base: &str, name: &str, path: String)
    requires
        call_ensures(path_below, (base, name), path),
    ensures
        base@.len() == 0 || base@.last() == '/' ==> path@ == base@ + name@,
        base@.len() > 0 && base@.last() != '/' ==> path@ == base@ + seq!['/'] + name@,
{
    reveal_strlit("/");
    assert("/"@ =~= seq!['/']);
}

/// Where state is kept: where the environment says so; else on Windows below the
/// local or else the roaming data, on macOS below the home's library, and elsewhere
/// below the state home or else the home. An empty variable counts as none.
pub proof fn law_state_directory(
    host: StateHost,
    environment: &StateEnvironment,
    result: Result<String, Error>,
    base: Seq<char>,
)
    requires
        call_ensures(default_state_directory, (host, environment), result),
        base.len() > 0,
        base.last() != '/',
    ensures
        environment.state_dir matches Some(directory) ==> (result matches Ok(path) && path@
            == directory@),
        ({
            let open = environment.state_dir is None;
            let is_base = |variable: Option<String>| variable matches Some(text) && text@ == base;
            let is_empty = |variable: Option<String>| variable is None || variable->Some_0@.len() == 0;
            &&& open && host is Windows && is_base(environment.local_app_data) ==> (
            result matches Ok(path) && path@ == base + "/"@ + "OpeniWAN"@)
            &&& open && host is Windows && is_empty(environment.local_app_data) && is_base(
                environment.app_data,
            ) ==> (result matches Ok(path) && path@ == base + "/"@ + "OpeniWAN"@)
            &&& open && host is MacOs && is_base(environment.home) ==> (result matches Ok(path)
                && path@ == base + "/"@ + "Library/Application Support/openiwan"@)
            &&& open && host is Unix && is_base(environment.xdg_state_home) ==> (result matches Ok(
                path,
            ) && path@ == base + "/"@ + "openiwan"@)
            &&& open && host is Unix && is_empty(environment.xdg_state_home) && is_base(
                environment.home,
            ) ==> (result matches Ok(path) && path@ == base + "/"@ + ".local/state/openiwan"@)
            &&& open && !(host is Windows) && is_empty(environment.home) && is_empty(
                environment.xdg_state_home,
            ) ==> result is Err
            &&& open && host is Windows && is_empty(environment.local_app_data) && is_empty(
                environment.app_data,
            ) ==> result is Err
        }),
{
}

/// A named directory counts more than the default one, and neither may be empty.
pub proof fn law_store_directory(
    named: Option<String>,
    default: Result<String, Error>,
    result: Result<StateStore, Error>,
)
    requires
        call_ensures(StateStore::new, (named, default), result),
    ensures
        named matches Some(directory) ==> {
            &&& result is Ok <==> directory@.len() > 0
            &&& result matches Ok(store) ==> store.path() == directory@
        },
        named is None && default is Err ==> result is Err,
        named is None && default is Ok ==> {
            &&& result is Ok <==> default->Ok_0@.len() > 0
            &&& result matches Ok(store) ==> store.path() == default->Ok_0@
        },
{
}

/// The names of the files: the profiles and their lock are apart, and a temporary
/// file belongs to one process and one write.
pub proof fn law_store_files(
    store: StateStore,
    process: u32,
    counter: u64,
    state: String,
    lock: String,
    temporary: String,
    cache: String,
)
    requires
        call_ensures(StateStore::state_file, (&store,), state),
        call_ensures(StateStore::lock_file, (&store,), lock),
        call_ensures(StateStore::temporary_file, (&store, process, counter), temporary),
        call_ensures(StateStore::cache_directory, (&store,), cache),
        store.path().len() > 0,
        store.path().last() != '/',
    ensures
        state@ == store.path() + "/"@ + "profiles.toml"@,
        lock@ == store.path() + "/"@ + "profiles.lock"@,
        cache@ == store.path() + "/"@ + "cache"@,
        temporary@ == store.path() + "/"@ + ("."@ + "profiles.toml"@ + "."@ + decimal(
            process as nat,
        ) + "."@ + decimal(counter as nat) + ".tmp"@),
{
}

/// A device identifier is known where the saved state has one.
pub proof fn law_known_device(
    store: StateStore,
    document: Option<CliState>,
    result: Result<DeviceIdentifier, Error>,
)
    requires
        document matches Some(state) ==> state.profiles.wf(),
        call_ensures(StateStore::device_id, (&store, document), result),
    ensures
        document is None ==> result matches Ok(DeviceIdentifier::Missing),
        (document is Some && result is Ok) ==> (match result->Ok_0 {
            DeviceIdentifier::Known(identifier) => identifier@.len() > 0 && identifier@
                == document->Some_0@.device_id,
            DeviceIdentifier::Missing => document->Some_0@.device_id.len() == 0,
        }),
{
}

/// State is kept in real directories and regular files, to which no one but the
/// owner has access.
pub proof fn law_safe_files(
    path: &str,
    is_symlink: bool,
    is_kind: bool,
    mode: Option<u32>,
    directory: Result<(), Error>,
    file: Result<(), Error>,
)
    requires
        call_ensures(check_directory, (path, is_symlink, is_kind), directory),
        call_ensures(check_file, (path, is_symlink, is_kind, mode), file),
    ensures
        directory is Ok <==> is_kind && !is_symlink,
        mode is None ==> (file is Ok <==> is_kind && !is_symlink),
        mode is Some ==> (file is Ok <==> is_kind && !is_symlink && mode->Some_0 % 64 == 0),
{
}

/// State is saved where it is valid, and a first state is empty.
pub proof fn law_saved_state(
    store: StateStore,
    state: CliState,
    saved: Result<(), Error>,
    valid: Result<(), Error>,
    fresh: Result<CliState, Error>,
)
    requires
        state.profiles.wf(),
        call_ensures(StateStore::update, (&store, &state), saved),
        call_ensures(CliState::validate, (&state,), valid),
        call_ensures(StateStore::load, (&store, None), fresh),
    ensures
        saved is Ok <==> valid is Ok,
        fresh matches Ok(empty) && empty@.version == 1 && empty@.device_id.len() == 0
            && empty@.default_profile is None && empty@.profiles == Map::<
            Seq<char>,
            super::state::ProfileView,
        >::empty(),
{
}

} // verus!
