//! How a managed command logs in.

use crate::cli::credentials::StoredCredential;
use crate::cli::credentials::{is_store_error, store_error};
use crate::cli::profile::{profile_not_found, ManagedContext};
use crate::cli::profile::{not_found_message, ContextView};
use crate::cli::state::{copy_maybe, CliState, ProfileView, StateView};
use crate::cli::state::{bytes_drawn, is_random_hex, valid_credential_id};
use crate::error::{invalid_config, Error};
use crate::error::is_invalid_config;
use crate::text::{chars_of, join3, same_text, trim_text};
use crate::text::trimmed;
use vstd::prelude::*;

verus! {

/// How a domain lets users in.
#[derive(Debug, Clone, Copy, PartialEq, Eq, Structural)]
pub enum AuthMethod {
    Credential,
    Oidc,
}

/// Whether a login is to be saved, or a saved one may be used.
#[derive(Debug, Clone, Copy, PartialEq, Eq, Structural)]
pub enum ManagedAuthenticationIntent {
    FreshAndPersist,
    ReuseOrEphemeral,
}

/// The message on options that do not go with a way to log in.
pub open spec fn options_error(
    method: AuthMethod,
    has_username: bool,
    has_password_file: bool,
    has_posture_results: bool,
) -> Option<Seq<char>> {
    match method {
        AuthMethod::Credential => if has_posture_results {
            Some("--posture-results is only valid for OIDC domains"@)
        } else {
            None
        },
        AuthMethod::Oidc => if has_username || has_password_file {
            Some("--username and --password-file require password authentication"@)
        } else {
            None
        },
    }
}

pub fn check_auth_options(
    method: AuthMethod,
    has_username: bool,
    has_password_file: bool,
    has_posture_results: bool,
) -> (result: Result<(), Error>)
    ensures
        match result {
            Ok(_) => options_error(
                method,
                has_username,
                has_password_file,
                has_posture_results,
            ) is None,
            Err(error) => options_error(
                method,
                has_username,
                has_password_file,
                has_posture_results,
            ) matches Some(message) && is_invalid_config(error, message),
        },
{
    match method {
        AuthMethod::Credential => {
            if has_posture_results {
                return Err(invalid_config("--posture-results is only valid for OIDC domains"));
            }
        },
        AuthMethod::Oidc => {
            if has_username || has_password_file {
                return Err(
                    invalid_config("--username and --password-file require password authentication"),
                );
            }
        },
    }
    Ok(())
}

/// Whether saved credentials are looked up: not for a fresh login, and not
/// where a password was given.
pub fn uses_saved_credentials(password_given: bool, intent: ManagedAuthenticationIntent) -> (answer:
    bool)
    ensures
        answer == (!password_given && intent == ManagedAuthenticationIntent::ReuseOrEphemeral),
{
    !password_given && intent == ManagedAuthenticationIntent::ReuseOrEphemeral
}

/// Where a password comes from.
pub enum PasswordSource {
    Given(String),
    Saved(String),
    Prompt,
}

/// A user and where their password comes from.
pub struct PasswordLogin {
    pub username: String,
    pub source: PasswordSource,
}

/// Where a password comes from, as a sequence.
pub enum SourceView {
    Given(Seq<char>),
    Saved(Seq<char>),
    Prompt,
}

pub open spec fn source_view(source: PasswordSource) -> SourceView {
    match source {
        PasswordSource::Given(password) => SourceView::Given(password@),
        PasswordSource::Saved(password) => SourceView::Saved(password@),
        PasswordSource::Prompt => SourceView::Prompt,
    }
}

/// The user of a saved password.
pub open spec fn saved_user(stored: Option<StoredCredential>) -> Option<Seq<char>> {
    match stored {
        Some(StoredCredential::Password { username, .. }) => Some(username@),
        _ => None,
    }
}

/// The password that is saved for a user.
pub open spec fn saved_password(stored: Option<StoredCredential>, user: Seq<char>) -> Option<
    Seq<char>,
> {
    match stored {
        Some(StoredCredential::Password { username, password }) => if username@ == user {
            Some(password@)
        } else {
            None
        },
        _ => None,
    }
}

/// The user that logs in: the option's, else the profile's, else the saved one.
pub open spec fn login_user(
    option: Option<String>,
    profile: Option<String>,
    stored: Option<StoredCredential>,
) -> Option<Seq<char>> {
    match option {
        Some(name) => Some(name@),
        None => match profile {
            Some(name) => Some(name@),
            None => saved_user(stored),
        },
    }
}

pub open spec fn other_method_message() -> Seq<char> {
    "saved credentials use a different authentication method; run `openiwan managed login`"@
}

pub open spec fn no_password_message() -> Seq<char> {
    "no password available; run `openiwan managed login` or set OPENIWAN_PASSWORD"@
}

/// Decides who logs in with a password and where the password comes from.
/// `given` is a password from a file or the environment, `stored` what was
/// saved.
pub fn plan_password_login(
    given: Option<String>,
    stored: Option<StoredCredential>,
    option: Option<String>,
    profile: Option<String>,
    non_interactive: bool,
) -> (result: Result<PasswordLogin, Error>)
    ensures
        ({
            let user = login_user(option, profile, stored);
            match result {
                Ok(login) => {
                    &&& !(stored matches Some(StoredCredential::Oidc { .. }))
                    &&& user == Some(login.username@)
                    &&& source_view(login.source) == match given {
                        Some(password) => SourceView::Given(password@),
                        None => match saved_password(stored, login.username@) {
                            Some(password) => SourceView::Saved(password),
                            None => SourceView::Prompt,
                        },
                    }
                    &&& login.source is Prompt ==> !non_interactive
                },
                Err(error) => if stored matches Some(StoredCredential::Oidc { .. }) {
                    is_store_error(error, other_method_message())
                } else if user is None {
                    is_invalid_config(
                        error,
                        "--username is required for password authentication"@,
                    )
                } else {
                    &&& given is None
                    &&& saved_password(stored, user->Some_0) is None
                    &&& non_interactive
                    &&& is_store_error(error, no_password_message())
                },
            }
        }),
{
    let mut stored_user: Option<String> = None;
    let mut stored_password: Option<String> = None;
    match stored {
        Some(StoredCredential::Oidc { .. }) => {
            return Err(
                store_error(
                    "saved credentials use a different authentication method; run `openiwan managed login`",
                ),
            );
        },
        Some(StoredCredential::Password { username, password }) => {
            stored_user = Some(username);
            stored_password = Some(password);
        },
        None => {},
    }
    let username: String = match option {
        Some(name) => name,
        None => match profile {
            Some(name) => name,
            None => match &stored_user {
                Some(name) => name.clone(),
                None => {
                    return Err(
                        invalid_config("--username is required for password authentication"),
                    );
                },
            },
        },
    };
    if let Some(password) = given {
        return Ok(PasswordLogin { username, source: PasswordSource::Given(password) });
    }
    let fits = match &stored_user {
        Some(name) => same_text(name, &username),
        None => false,
    };
    if fits {
        if let Some(password) = stored_password {
            return Ok(PasswordLogin { username, source: PasswordSource::Saved(password) });
        }
    }
    if non_interactive {
        return Err(
            store_error(
                "no password available; run `openiwan managed login` or set OPENIWAN_PASSWORD",
            ),
        );
    }
    Ok(PasswordLogin { username, source: PasswordSource::Prompt })
}

/// How an OIDC login goes on.
pub enum OidcLogin {
    Refresh { refresh_token: String, user_id: String, username: String },
    Interactive,
}

/// Decides whether an OIDC login uses a saved session.
pub fn plan_oidc_login(stored: Option<StoredCredential>, non_interactive: bool) -> (result: Result<
    OidcLogin,
    Error,
>)
    ensures
        match stored {
            Some(StoredCredential::Password { .. }) => result matches Err(error) && is_store_error(
                error,
                other_method_message(),
            ),
            Some(StoredCredential::Oidc {
                refresh_token: token,
                user_id: id,
                username: name,
            }) => result matches Ok(OidcLogin::Refresh { refresh_token, user_id, username })
                && refresh_token == token && user_id == id && username == name,
            None => if non_interactive {
                result matches Err(error) && is_store_error(
                    error,
                    "no saved OIDC session; run `openiwan managed login`"@,
                )
            } else {
                result matches Ok(OidcLogin::Interactive)
            },
        },
{
    match stored {
        Some(StoredCredential::Password { .. }) => Err(
            store_error(
                "saved credentials use a different authentication method; run `openiwan managed login`",
            ),
        ),
        Some(StoredCredential::Oidc { refresh_token, user_id, username }) => Ok(
            OidcLogin::Refresh { refresh_token, user_id, username },
        ),
        None => if non_interactive {
            Err(store_error("no saved OIDC session; run `openiwan managed login`"))
        } else {
            Ok(OidcLogin::Interactive)
        },
    }
}

/// What is saved of an OIDC login: it needs a refresh token.
pub fn oidc_credential(refresh_token: String, user_id: String, username: String) -> (result: Result<
    StoredCredential,
    Error,
>)
    ensures
        match result {
            Ok(credential) => refresh_token@.len() > 0 && credential == (StoredCredential::Oidc {
                refresh_token,
                user_id,
                username,
            }),
            Err(error) => refresh_token@.len() == 0 && is_store_error(
                error,
                "the identity provider did not issue a refresh token; this login cannot be saved"@,
            ),
        },
{
    let token = chars_of(&refresh_token);
    if token.len() == 0 {
        return Err(
            store_error(
                "the identity provider did not issue a refresh token; this login cannot be saved",
            ),
        );
    }
    Ok(StoredCredential::Oidc { refresh_token, user_id, username })
}

/// The message on saved credentials that a server refused.
pub open spec fn rejected_message(reason: Error) -> Seq<char> {
    "saved credentials rejected: "@ + reason.shown() + "; run `openiwan managed login`"@
}

/// The error on saved credentials that a server refused.
pub fn saved_credentials_rejected(reason: Error) -> (error: Error)
    ensures
        is_store_error(error, rejected_message(reason)),
{
    let shown = reason.to_string();
    let message = join3(
        "saved credentials rejected: ",
        &shown,
        "; run `openiwan managed login`",
    );
    store_error(&message)
}

/// What a login came to: whether it is to be saved now, or the error. Where saved
/// credentials were used, the error says that they were refused.
pub fn settle_login(
    outcome: Result<(), Error>,
    used_saved: bool,
    intent: ManagedAuthenticationIntent,
) -> (result: Result<bool, Error>)
    ensures
        match outcome {
            Ok(_) => result == Ok::<bool, Error>(
                intent == ManagedAuthenticationIntent::FreshAndPersist,
            ),
            Err(reason) => result matches Err(error) && if used_saved {
                is_store_error(error, rejected_message(reason))
            } else {
                error == reason
            },
        },
{
    match outcome {
        Ok(_) => Ok(intent == ManagedAuthenticationIntent::FreshAndPersist),
        Err(reason) => if used_saved {
            Err(saved_credentials_rejected(reason))
        } else {
            Err(reason)
        },
    }
}

/// A callback URL that was pasted in.
pub fn callback_url(line: &str) -> (result: Result<String, Error>)
    ensures
        match result {
            Ok(url) => trimmed(line@).len() > 0 && url@ == trimmed(line@),
            Err(error) => trimmed(line@).len() == 0 && is_invalid_config(
                error,
                "callback URL is empty"@,
            ),
        },
{
    let kept = trim_text(line);
    let chars = chars_of(&kept);
    if chars.len() == 0 {
        return Err(invalid_config("callback URL is empty"));
    }
    Ok(kept)
}

impl CliState {
    /// The identifier under which a context's credentials are saved, made on
    /// first use. Nothing is stated of a new identifier but its form: it is
    /// random.
    pub fn ensure_credential_id(&mut self, context: &mut ManagedContext) -> (result: Result<
        String,
        Error,
    >)
        requires
            old(self).profiles.wf(),
        ensures
            final(self).profiles.wf(),
            old(context)@.credential_id matches Some(identifier) ==> (result matches Ok(found)
                && found@ == identifier) && final(context)@ == old(context)@ && final(self)@
                == old(self)@,
            old(context)@.credential_id is None ==> {
                let name = old(context)@.profile_name->Some_0;
                let before = old(self)@.profiles[name];
                match result {
                    Ok(found) => {
                        &&& old(context)@.profile_name is Some
                        &&& old(self)@.profiles.dom().contains(name)
                        &&& if before.credential_id.len() > 0 {
                            found@ == before.credential_id
                        } else {
                            valid_credential_id(found@) && is_random_hex(found@)
                        }
                        &&& final(context)@ == (ContextView {
                            credential_id: Some(found@),
                            ..old(context)@
                        })
                        &&& final(self)@ == (StateView {
                            profiles: old(self)@.profiles.insert(
                                name,
                                ProfileView { credential_id: found@, ..before },
                            ),
                            ..old(self)@
                        })
                    },
                    Err(error) => {
                        &&& final(context)@ == old(context)@
                        &&& final(self)@ == old(self)@
                        &&& if old(context)@.profile_name is None {
                            is_invalid_config(
                                error,
                                "no profile specified and no default profile is set"@,
                            )
                        } else if !old(self)@.profiles.dom().contains(name) {
                            is_invalid_config(error, not_found_message(name))
                        } else {
                            before.credential_id.len() == 0 && bytes_drawn(None) && error
                                == Error::Crypto("system randomness is unavailable")
                        }
                    },
                }
            },
    {
        if let Some(identifier) = &context.credential_id {
            return Ok(identifier.clone());
        }
        let name = match copy_maybe(&context.profile_name) {
            Some(name) => name,
            None => {
                return Err(invalid_config("no profile specified and no default profile is set"));
            },
        };
        let mut profile = match self.profiles.get(&name) {
            Some(profile) => profile.copy(),
            None => {
                return Err(profile_not_found(&name));
            },
        };
        let identifier = match profile.ensure_credential_id() {
            Ok(identifier) => identifier,
            Err(error) => {
                return Err(error);
            },
        };
        self.profiles.insert(&name, profile);
        context.credential_id = Some(identifier.clone());
        assert(self@ =~= (StateView {
            profiles: old(self)@.profiles.insert(
                name@,
                ProfileView { credential_id: identifier@, ..old(self)@.profiles[name@] },
            ),
            ..old(self)@
        }));
        Ok(identifier)
    }
}

impl CliState {
    /// Takes the user that logged in into the context's profile and into the
    /// context.
    pub fn sync_profile_username(&mut self, context: &mut ManagedContext, username: &str) -> (result:
        Result<(), Error>)
        requires
            old(self).profiles.wf(),
        ensures
            final(self).profiles.wf(),
            ({
                let name = old(context)@.profile_name->Some_0;
                let before = old(self)@.profiles[name];
                match result {
                    Ok(_) => {
                        &&& old(context)@.profile_name is Some
                        &&& old(self)@.profiles.dom().contains(name)
                        &&& final(context)@ == (ContextView {
                            username: Some(username@),
                            ..old(context)@
                        })
                        &&& final(self)@ == (StateView {
                            profiles: old(self)@.profiles.insert(
                                name,
                                ProfileView { username: Some(username@), ..before },
                            ),
                            ..old(self)@
                        })
                    },
                    Err(error) => {
                        &&& final(context)@ == old(context)@
                        &&& final(self)@ == old(self)@
                        &&& if old(context)@.profile_name is None {
                            is_invalid_config(
                                error,
                                "no profile specified and no default profile is set"@,
                            )
                        } else {
                            !old(self)@.profiles.dom().contains(name) && is_invalid_config(
                                error,
                                not_found_message(name),
                            )
                        }
                    },
                }
            }),
    {
        let name = match copy_maybe(&context.profile_name) {
            Some(name) => name,
            None => {
                return Err(invalid_config("no profile specified and no default profile is set"));
            },
        };
        match self.set_username(&name, username) {
            Ok(_) => {},
            Err(error) => {
                return Err(error);
            },
        }
        context.username = Some(username.to_owned());
        Ok(())
    }
}

/// Posture results go with OIDC, and a name or a password file with a password.
pub proof fn law_auth_options(
    method: AuthMethod,
    has_username: bool,
    has_password_file: bool,
    has_posture_results: bool,
    result: Result<(), Error>,
)
    requires
        call_ensures(
            check_auth_options,
            (method, has_username, has_password_file, has_posture_results),
            result,
        ),
    ensures
        method is Credential ==> (result is Ok <==> !has_posture_results),
        method is Oidc ==> (result is Ok <==> !has_username && !has_password_file),
{
}

/// Saved credentials are used where no password is given and the login is not made
/// to be saved.
pub proof fn law_saved_credentials(
    password_given: bool,
    intent: ManagedAuthenticationIntent,
    answer: bool,
)
    requires
        call_ensures(uses_saved_credentials, (password_given, intent), answer),
    ensures
        password_given || intent is FreshAndPersist ==> !answer,
        !password_given && intent is ReuseOrEphemeral ==> answer,
{
}

/// Whose password is asked for: the option names them, else the profile, else what
/// was saved. The password is the given one, else the saved one of the same name,
/// else it is asked for, where that is possible.
pub proof fn law_password_login(
    given: Option<String>,
    stored: Option<StoredCredential>,
    option: Option<String>,
    profile: Option<String>,
    non_interactive: bool,
    result: Result<PasswordLogin, Error>,
)
    requires
        call_ensures(
            plan_password_login,
            (given, stored, option, profile, non_interactive),
            result,
        ),
    ensures
        stored matches Some(StoredCredential::Oidc { .. }) ==> result is Err,
        option is None && profile is None && stored is None ==> result is Err,
        result matches Ok(login) ==> {
            &&& option matches Some(name) ==> login.username@ == name@
            &&& option is None && profile is Some ==> login.username@ == profile->Some_0@
            &&& given matches Some(password) ==> (login.source matches PasswordSource::Given(used)
                && used@ == password@)
            &&& (given is None && (stored matches Some(
                StoredCredential::Password { username, password },
            ) && username@ == login.username@)) ==> (login.source matches PasswordSource::Saved(
                used,
            ) && used@ == stored->Some_0->password@)
            &&& given is None && stored is None ==> login.source is Prompt
            &&& login.source is Prompt ==> !non_interactive
            &&& (login.source matches PasswordSource::Saved(used)) ==> (stored matches Some(
                StoredCredential::Password { username, password },
            ) && username@ == login.username@)
        },
        given is Some && option is Some && !(stored matches Some(StoredCredential::Oidc { .. }))
            ==> result is Ok,
        option is Some && stored is None && given is None ==> (result is Ok <==> !non_interactive),
{
}

/// A saved session is refreshed with what was saved; without one the user logs in,
/// where that is possible.
pub proof fn law_oidc_login(
    stored: Option<StoredCredential>,
    non_interactive: bool,
    result: Result<OidcLogin, Error>,
    token: String,
    id: String,
    name: String,
    kept: Result<StoredCredential, Error>,
)
    requires
        call_ensures(plan_oidc_login, (stored, non_interactive), result),
        call_ensures(oidc_credential, (token, id, name), kept),
    ensures
        stored matches Some(StoredCredential::Password { .. }) ==> result is Err,
        stored is None ==> (result is Ok <==> !non_interactive),
        stored is None && !non_interactive ==> result->Ok_0 is Interactive,
        stored == Some(
            StoredCredential::Oidc { refresh_token: token, user_id: id, username: name },
        ) ==> result == Ok::<OidcLogin, Error>(
            OidcLogin::Refresh { refresh_token: token, user_id: id, username: name },
        ),
        kept is Ok <==> token@.len() > 0,
        kept matches Ok(credential) ==> credential == (StoredCredential::Oidc {
            refresh_token: token,
            user_id: id,
            username: name,
        }),
{
}

/// A login that succeeds is saved where it was made for that. One that fails with
/// saved credentials says that they were rejected, and else why it failed.
pub proof fn law_login_settles(
    outcome: Result<(), Error>,
    used_saved: bool,
    intent: ManagedAuthenticationIntent,
    result: Result<bool, Error>,
)
    requires
        call_ensures(settle_login, (outcome, used_saved, intent), result),
    ensures
        result is Ok <==> outcome is Ok,
        result matches Ok(save) ==> (save <==> intent is FreshAndPersist),
        outcome is Err && !used_saved ==> result == Err::<bool, Error>(outcome->Err_0),
        outcome is Err && used_saved ==> result->Err_0 is CredentialStore,
{
}

/// A callback URL is taken without the space around it, and may not be empty.
pub proof fn law_callback_url(line: &str, result: Result<String, Error>)
    requires
        call_ensures(callback_url, (line,), result),
    ensures
        result is Ok <==> trimmed(line@).len() > 0,
        result matches Ok(url) ==> url@ == trimmed(line@),
{
}

/// A profile's credentials keep their identifier once they have one, and other
/// profiles are left alone.
pub proof fn law_credential_identifier(result: Result<String, Error>, other: Seq<char>)
    ensures
        forall|state: &mut CliState, context: &mut ManagedContext|
            (*state).profiles.wf() && #[trigger] call_ensures(
                CliState::ensure_credential_id,
                (state, context),
                result,
            ) ==> {
                let name = (*context)@.profile_name->Some_0;
                let profiles = (*state)@.profiles;
                &&& (*context)@.credential_id matches Some(identifier) ==> (result matches Ok(found)
                    && found@ == identifier)
                &&& ((*context)@.credential_id is None && result is Ok) ==> {
                    &&& (*final(context))@.credential_id == Some(result->Ok_0@)
                    &&& (*final(state))@.profiles[name].credential_id == result->Ok_0@
                    &&& profiles[name].credential_id.len() > 0 ==> result->Ok_0@
                        == profiles[name].credential_id
                }
                &&& ((*context)@.profile_name is None && (*context)@.credential_id is None)
                    ==> result is Err
                &&& ((*context)@.profile_name is Some && other != name) ==> (
                *final(state))@.profiles.dom().contains(other) == profiles.dom().contains(other)
                    && (profiles.dom().contains(other) ==> (*final(state))@.profiles[other]
                    == profiles[other])
                &&& (*final(state))@.default_profile == (*state)@.default_profile
            },
{
}

/// A login notes the name it was made under in the profile, and leaves other
/// profiles alone.
pub proof fn law_noted_username(username: &str, result: Result<(), Error>, other: Seq<char>)
    ensures
        forall|state: &mut CliState, context: &mut ManagedContext|
            (*state).profiles.wf() && #[trigger] call_ensures(
                CliState::sync_profile_username,
                (state, context, username),
                result,
            ) ==> {
                let name = (*context)@.profile_name->Some_0;
                let profiles = (*state)@.profiles;
                &&& result is Ok <==> (*context)@.profile_name is Some && profiles.dom().contains(
                    name,
                )
                &&& result is Ok ==> {
                    &&& (*final(context))@.username == Some(username@)
                    &&& (*final(state))@.profiles[name].username == Some(username@)
                    &&& (*final(state))@.profiles[name].domain == profiles[name].domain
                    &&& (*final(state))@.profiles[name].line == profiles[name].line
                    &&& other != name && profiles.dom().contains(other) ==> (
                    *final(state))@.profiles[other] == profiles[other]
                }
                &&& result is Err ==> (*final(state))@ == (*state)@
            },
{
}

} // verus!
