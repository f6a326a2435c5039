//! Saved profiles.

use crate::hex::encode_hex;
use crate::hex::hex_text;
use crate::cli::routing::{RoutingOverrides, RoutingView};
use crate::cli::routing::no_routing;
use crate::dns::policy::{DnsOverrides, DnsOverridesView};
use crate::dns::policy::{no_overrides, overrides_error};
use crate::error::{invalid_config, Error};
use crate::error::is_invalid_config;
use crate::text::{
    alphanumeric, byte_length, chars_of, decimal_text, join2, join3, quoted, same_text,
    text_precedes, trim_text,
};
use crate::text::{
    ascending, decimal, is_alphanumeric, lemma_precedes_total, lemma_precedes_transitive, precedes,
    quoted_text, trimmed,
};
use vstd::prelude::*;
use vstd::utf8::encode_utf8;

verus! {

pub const STATE_VERSION: u32 = 1;

pub const MAX_PROFILE_NAME_LEN: usize = 64;

pub const MAX_DEVICE_ID_LEN: usize = 256;

pub const MAX_USERNAME_LEN: usize = 256;

pub const CREDENTIAL_ID_LEN: usize = 32;

pub open spec fn is_name_char(character: char) -> bool {
    is_alphanumeric(character) || character == '.' || character == '_' || character == '-'
}

/// A name that is safe in file names and on command lines.
pub open spec fn valid_profile_name(name: Seq<char>) -> bool {
    0 < name.len() <= MAX_PROFILE_NAME_LEN && forall|i: int|
        0 <= i < name.len() ==> is_name_char(#[trigger] name[i])
}

pub open spec fn profile_name_message() -> Seq<char> {
    "profile name must contain 1..=64 ASCII letters, digits, '.', '_', or '-'"@
}

pub fn validate_profile_name(name: &str) -> (result: Result<(), Error>)
    ensures
        match result {
            Ok(_) => valid_profile_name(name@),
            Err(error) => !valid_profile_name(name@) && is_invalid_config(
                error,
                profile_name_message(),
            ),
        },
{
    let chars = chars_of(name);
    let mut valid = 0 < chars.len() && chars.len() <= MAX_PROFILE_NAME_LEN;
    let mut i: usize = 0;
    while i < chars.len()
        invariant
            chars@ == name@,
            i <= chars@.len(),
            valid == (0 < chars@.len() <= MAX_PROFILE_NAME_LEN && forall|k: int|
                0 <= k < i ==> is_name_char(#[trigger] chars@[k])),
        decreases chars@.len() - i,
    {
        let character: char = chars[i];
        if !(alphanumeric(character) || character == '.' || character == '_' || character == '-') {
            assert(!is_name_char(chars@[i as int]));
            valid = false;
        }
        i += 1;
    }
    if valid {
        Ok(())
    } else {
        Err(
            invalid_config(
                "profile name must contain 1..=64 ASCII letters, digits, '.', '_', or '-'",
            ),
        )
    }
}

/// A text that is not blank and at most so many bytes long.
pub open spec fn fits(text: Seq<char>, limit: usize) -> bool {
    trimmed(text).len() > 0 && encode_utf8(text).len() <= limit
}

fn text_fits(text: &str, limit: usize) -> (answer: bool)
    ensures
        answer == fits(text@, limit),
{
    let kept = trim_text(text);
    let chars = chars_of(&kept);
    chars.len() > 0 && byte_length(text) <= limit
}

pub fn validate_device_id(device_id: &str, label: &str) -> (result: Result<(), Error>)
    ensures
        match result {
            Ok(_) => fits(device_id@, MAX_DEVICE_ID_LEN),
            Err(error) => !fits(device_id@, MAX_DEVICE_ID_LEN) && is_invalid_config(
                error,
                label@ + " must contain 1..=256 characters"@,
            ),
        },
{
    if text_fits(device_id, MAX_DEVICE_ID_LEN) {
        Ok(())
    } else {
        Err(Error::InvalidConfig(join2(label, " must contain 1..=256 characters")))
    }
}

/// A hexadecimal digit in lower case.
pub open spec fn is_lower_hex(character: char) -> bool {
    let code = character as u32;
    0x30 <= code <= 0x39 || 0x61 <= code <= 0x66
}

/// An identifier of saved credentials: 32 hexadecimal digits.
pub open spec fn valid_credential_id(text: Seq<char>) -> bool {
    text.len() == CREDENTIAL_ID_LEN && forall|i: int|
        0 <= i < text.len() ==> is_lower_hex(#[trigger] text[i])
}

fn is_credential_id(text: &str) -> (answer: bool)
    ensures
        answer == valid_credential_id(text@),
{
    let chars = chars_of(text);
    if chars.len() != CREDENTIAL_ID_LEN {
        return false;
    }
    let mut i: usize = 0;
    while i < chars.len()
        invariant
            chars@ == text@,
            i <= chars@.len(),
            chars@.len() == CREDENTIAL_ID_LEN,
            forall|k: int| 0 <= k < i ==> is_lower_hex(#[trigger] chars@[k]),
        decreases chars@.len() - i,
    {
        let code: u32 = chars[i] as u32;
        if !((0x30 <= code && code <= 0x39) || (0x61 <= code && code <= 0x66)) {
            assert(!is_lower_hex(chars@[i as int]));
            return false;
        }
        i += 1;
    }
    true
}

/// A managed domain and how to log in to it.
pub struct ManagedProfile {
    pub domain: String,
    pub device_id: String,
    pub username: Option<String>,
    pub line: String,
    pub credential_id: String,
    pub dns: DnsOverrides,
    pub routing: RoutingOverrides,
}

/// A profile with texts as sequences.
#[verifier::ext_equal]
pub struct ProfileView {
    pub domain: Seq<char>,
    pub device_id: Seq<char>,
    pub username: Option<Seq<char>>,
    pub line: Seq<char>,
    pub credential_id: Seq<char>,
    pub dns: DnsOverridesView,
    pub routing: RoutingView,
}

/// The view of an optional text.
pub open spec fn maybe(text: Option<String>) -> Option<Seq<char>> {
    match text {
        Some(value) => Some(value@),
        None => None,
    }
}

impl View for ManagedProfile {
    type V = ProfileView;

    open spec fn view(&self) -> ProfileView {
        ProfileView {
            domain: self.domain@,
            device_id: self.device_id@,
            username: maybe(self.username),
            line: self.line@,
            credential_id: self.credential_id@,
            dns: self.dns@,
            routing: self.routing@,
        }
    }
}

/// The profile that a domain and a device start with.
pub open spec fn fresh_profile(domain: Seq<char>, device_id: Seq<char>) -> ProfileView {
    ProfileView {
        domain,
        device_id,
        username: None,
        line: "auto"@,
        credential_id: Seq::empty(),
        dns: no_overrides(),
        routing: no_routing(),
    }
}

/// The message on why a profile cannot be used.
pub open spec fn profile_error(profile: ProfileView) -> Option<Seq<char>> {
    if !fits(profile.device_id, MAX_DEVICE_ID_LEN) {
        Some("profile device ID"@ + " must contain 1..=256 characters"@)
    } else if profile.username matches Some(name) && !fits(name, MAX_USERNAME_LEN) {
        Some("profile username must contain 1..=256 characters"@)
    } else if profile.credential_id.len() > 0 && !valid_credential_id(profile.credential_id) {
        Some("profile credential ID must be 32 lowercase hexadecimal characters"@)
    } else {
        overrides_error(profile.dns)
    }
}

/// Copies an optional text.
pub fn copy_maybe(text: &Option<String>) -> (copy: Option<String>)
    ensures
        maybe(copy) == maybe(*text),
{
    match text {
        Some(value) => Some(value.clone()),
        None => None,
    }
}

/// `getrandom::fill` fills a buffer with random bytes, or fails where the
/// system has none to give. Nothing is known of the bytes.
#[verifier::external_body]
fn random_bytes() -> (bytes: Option<[u8; 16]>) {
    let mut bytes = [0u8; 16];
    getrandom::fill(&mut bytes).ok().map(|_| bytes)
}

/// Whether the system's randomness, when it was asked, gave this: bytes, or none.
pub closed spec fn bytes_drawn(bytes: Option<[u8; 16]>) -> bool {
    call_ensures(random_bytes, (), bytes)
}

/// Whether a text is the hexadecimal form of random bytes.
pub open spec fn is_random_hex(text: Seq<char>) -> bool {
    exists|bytes: [u8; 16]| #[trigger] bytes_drawn(Some(bytes)) && text == hex_text(bytes@)
}

/// Draws bytes from the system's randomness.
pub(crate) fn draw_bytes() -> (bytes: Option<[u8; 16]>)
    ensures
        bytes_drawn(bytes),
{
    random_bytes()
}

impl ManagedProfile {
    pub fn new(domain: String, device_id: String) -> (result: Result<Self, Error>)
        ensures
            match result {
                Ok(profile) => profile@ == fresh_profile(domain@, device_id@) && profile_error(
                    profile@,
                ) is None,
                Err(error) => profile_error(fresh_profile(domain@, device_id@)) matches Some(
                    message,
                ) && is_invalid_config(error, message),
            },
    {
        let profile = ManagedProfile {
            domain,
            device_id,
            username: None,
            line: "auto".to_owned(),
            credential_id: String::new(),
            dns: DnsOverrides::default(),
            routing: RoutingOverrides::default(),
        };
        assert(profile@ =~= fresh_profile(domain@, device_id@));
        match profile.validate() {
            Ok(_) => Ok(profile),
            Err(error) => Err(error),
        }
    }

    /// Checks everything but the domain, which is checked where it is looked up.
    pub fn validate(&self) -> (result: Result<(), Error>)
        ensures
            match result {
                Ok(_) => profile_error(self@) is None,
                Err(error) => profile_error(self@) matches Some(message) && is_invalid_config(
                    error,
                    message,
                ),
            },
    {
        match validate_device_id(&self.device_id, "profile device ID") {
            Ok(_) => {},
            Err(error) => {
                return Err(error);
            },
        }
        if let Some(name) = &self.username {
            if !text_fits(name, MAX_USERNAME_LEN) {
                return Err(invalid_config("profile username must contain 1..=256 characters"));
            }
        }
        let identifier = chars_of(&self.credential_id);
        if identifier.len() > 0 && !is_credential_id(&self.credential_id) {
            return Err(
                invalid_config("profile credential ID must be 32 lowercase hexadecimal characters"),
            );
        }
        self.dns.validate()
    }

    pub fn copy(&self) -> (profile: Self)
        ensures
            profile@ == self@,
    {
        let none = DnsOverrides::default();
        let profile = ManagedProfile {
            domain: self.domain.clone(),
            device_id: self.device_id.clone(),
            username: copy_maybe(&self.username),
            line: self.line.clone(),
            credential_id: self.credential_id.clone(),
            dns: DnsOverrides::layered(&none, &self.dns),
            routing: self.routing.copy(),
        };
        assert(profile@ =~= self@);
        profile
    }

    /// Gives the profile an identifier for its credentials where it has none: one
    /// that random bytes make.
    pub fn ensure_credential_id(&mut self) -> (result: Result<String, Error>)
        ensures
            old(self)@.credential_id.len() > 0 ==> final(self)@ == old(self)@ && result is Ok,
            match result {
                Ok(identifier) => {
                    &&& identifier@ == final(self)@.credential_id
                    &&& old(self)@.credential_id.len() == 0 ==> valid_credential_id(identifier@)
                        && is_random_hex(identifier@)
                    &&& final(self)@ == (ProfileView {
                        credential_id: identifier@,
                        ..old(self)@
                    })
                },
                Err(error) => final(self)@ == old(self)@ && error == Error::Crypto(
                    "system randomness is unavailable",
                ) && bytes_drawn(None),
            },
    {
        let chars = chars_of(&self.credential_id);
        if chars.len() == 0 {
            match draw_bytes() {
                Some(bytes) => {
                    self.credential_id = credential_id_of(&bytes);
                },
                None => {
                    return Err(Error::Crypto("system randomness is unavailable"));
                },
            }
        }
        Ok(self.credential_id.clone())
    }
}

proof fn lemma_hex_is_lower(bytes: Seq<u8>)
    ensures
        hex_text(bytes).len() == 2 * bytes.len(),
        forall|i: int|
            0 <= i < hex_text(bytes).len() ==> is_lower_hex(#[trigger] hex_text(bytes)[i]),
    decreases bytes.len(),
{
    if bytes.len() > 0 {
        lemma_hex_is_lower(bytes.drop_last());
        let before = hex_text(bytes.drop_last());
        assert forall|i: int| 0 <= i < hex_text(bytes).len() implies is_lower_hex(
            #[trigger] hex_text(bytes)[i],
        ) by {
            if i < before.len() {
                assert(hex_text(bytes)[i] == before[i]);
            }
        }
    }
}

/// The identifier of credentials that random bytes give.
pub fn credential_id_of(bytes: &[u8; 16]) -> (identifier: String)
    ensures
        identifier@ == hex_text(bytes@),
        valid_credential_id(identifier@),
{
    proof {
        lemma_hex_is_lower(bytes@);
    }
    encode_hex(bytes.as_slice())
}

/// An octet as two hexadecimal digits in upper case.
pub open spec fn upper_pair(byte: u8) -> Seq<char> {
    seq![upper_hex_char((byte / 16) as int), upper_hex_char((byte % 16) as int)]
}

pub open spec fn upper_hex_char(digit: int) -> char {
    if digit < 10 {
        (0x30 + digit) as char
    } else {
        (0x37 + digit) as char
    }
}

/// Octets as hexadecimal digits in upper case.
pub open spec fn upper_hex(bytes: Seq<u8>) -> Seq<char>
    decreases bytes.len(),
{
    if bytes.len() == 0 {
        Seq::empty()
    } else {
        upper_hex(bytes.drop_last()) + upper_pair(bytes.last())
    }
}

/// Random octets with the version and variant of a random UUID.
pub open spec fn uuid_octets(bytes: Seq<u8>) -> Seq<u8> {
    bytes.update(6, (0x40 + bytes[6] % 0x10) as u8).update(8, (0x80 + bytes[8] % 0x40) as u8)
}

/// A hexadecimal digit, letters in upper case.
pub open spec fn is_upper_hex(character: char) -> bool {
    0x30 <= character as u32 <= 0x39 || 0x41 <= character as u32 <= 0x46
}

/// Octets in the notation of a UUID.
pub open spec fn uuid_text(octets: Seq<u8>) -> Seq<char> {
    upper_hex(octets.subrange(0, 4)) + seq!['-'] + upper_hex(octets.subrange(4, 6)) + seq!['-']
        + upper_hex(octets.subrange(6, 8)) + seq!['-'] + upper_hex(octets.subrange(8, 10))
        + seq!['-'] + upper_hex(octets.subrange(10, 16))
}

fn push_upper_hex(out: &mut String, octets: &[u8; 16], start: usize, end: usize)
    requires
        start <= end <= 16,
    ensures
        final(out)@ == old(out)@ + upper_hex(octets@.subrange(start as int, end as int)),
{
    let ghost before = out@;
    let mut i: usize = start;
    assert(octets@.subrange(start as int, start as int) =~= Seq::<u8>::empty());
    assert(before + upper_hex(octets@.subrange(start as int, start as int)) =~= before);
    while i < end
        invariant
            start <= i <= end <= 16,
            out@ == before + upper_hex(octets@.subrange(start as int, i as int)),
        decreases end - i,
    {
        let high: u8 = octets[i] / 16;
        let low: u8 = octets[i] % 16;
        let high_code: u8 = if high < 10 {
            0x30 + high
        } else {
            0x37 + high
        };
        let low_code: u8 = if low < 10 {
            0x30 + low
        } else {
            0x37 + low
        };
        out.push(high_code as char);
        out.push(low_code as char);
        proof {
            let head = octets@.subrange(start as int, i + 1);
            assert(head.drop_last() =~= octets@.subrange(start as int, i as int));
            assert(out@ =~= before + upper_hex(head));
        }
        i += 1;
    }
}

/// The device identifier that random bytes give: a random UUID in upper case.
pub fn device_id_of(bytes: &[u8; 16]) -> (identifier: String)
    ensures
        identifier@ == uuid_text(uuid_octets(bytes@)),
{
    let mut octets: [u8; 16] = *bytes;
    octets[6] = 0x40 + octets[6] % 0x10;
    octets[8] = 0x80 + octets[8] % 0x40;
    assert(octets@ =~= uuid_octets(bytes@));
    let mut identifier = String::new();
    push_upper_hex(&mut identifier, &octets, 0, 4);
    identifier.push('-');
    push_upper_hex(&mut identifier, &octets, 4, 6);
    identifier.push('-');
    push_upper_hex(&mut identifier, &octets, 6, 8);
    identifier.push('-');
    push_upper_hex(&mut identifier, &octets, 8, 10);
    identifier.push('-');
    push_upper_hex(&mut identifier, &octets, 10, 16);
    assert(identifier@ =~= uuid_text(uuid_octets(bytes@)));
    identifier
}

proof fn lemma_upper_hex(bytes: Seq<u8>)
    ensures
        upper_hex(bytes).len() == 2 * bytes.len(),
        bytes.len() > 0 ==> upper_hex(bytes)[0] == upper_hex_char((bytes[0] / 16) as int),
        forall|i: int|
            0 <= i < upper_hex(bytes).len() ==> is_upper_hex(#[trigger] upper_hex(bytes)[i]),
    decreases bytes.len(),
{
    if bytes.len() > 0 {
        lemma_upper_hex(bytes.drop_last());
        let before = upper_hex(bytes.drop_last());
        assert forall|i: int| 0 <= i < upper_hex(bytes).len() implies is_upper_hex(
            #[trigger] upper_hex(bytes)[i],
        ) by {
            if i < before.len() {
                assert(upper_hex(bytes)[i] == before[i]);
            }
        }
        if bytes.len() > 1 {
            assert(bytes.drop_last()[0] == bytes[0]);
        }
    }
}

/// A device identifier has 36 characters, hyphens where a UUID has them and
/// upper-case hexadecimal digits elsewhere, version four, and the variant of
/// random UUIDs.
pub proof fn law_device_id_form(bytes: Seq<u8>)
    requires
        bytes.len() == 16,
    ensures
        ({
            let text = uuid_text(uuid_octets(bytes));
            &&& text.len() == 36
            &&& text[8] == '-'
            &&& text[13] == '-'
            &&& text[14] == '4'
            &&& text[18] == '-'
            &&& text[19] == '8' || text[19] == '9' || text[19] == 'A' || text[19] == 'B'
            &&& text[23] == '-'
            &&& forall|i: int|
                0 <= i < 36 && i != 8 && i != 13 && i != 18 && i != 23 ==> is_upper_hex(
                    #[trigger] text[i],
                )
        }),
{
    let octets = uuid_octets(bytes);
    let text = uuid_text(octets);
    lemma_upper_hex(octets.subrange(0, 4));
    lemma_upper_hex(octets.subrange(4, 6));
    lemma_upper_hex(octets.subrange(6, 8));
    lemma_upper_hex(octets.subrange(8, 10));
    lemma_upper_hex(octets.subrange(10, 16));
    assert(octets.subrange(6, 8)[0] == octets[6]);
    assert(octets.subrange(8, 10)[0] == octets[8]);
    assert(octets[6] / 16 == 4);
    assert(8 <= octets[8] / 16 <= 11);
    let parts = (
        upper_hex(octets.subrange(0, 4)),
        upper_hex(octets.subrange(4, 6)),
        upper_hex(octets.subrange(6, 8)),
        upper_hex(octets.subrange(8, 10)),
        upper_hex(octets.subrange(10, 16)),
    );
    assert forall|i: int|
        0 <= i < 36 && i != 8 && i != 13 && i != 18 && i != 23 implies is_upper_hex(
        #[trigger] text[i],
    ) by {
        if i < 8 {
            assert(text[i] == parts.0[i]);
        } else if i < 13 {
            assert(text[i] == parts.1[i - 9]);
        } else if i < 18 {
            assert(text[i] == parts.2[i - 14]);
        } else if i < 23 {
            assert(text[i] == parts.3[i - 19]);
        } else {
            assert(text[i] == parts.4[i - 24]);
        }
    }
}

/// Whether an identifier is a UUID that random bytes make.
pub open spec fn is_random_uuid(identifier: Seq<char>) -> bool {
    exists|bytes: [u8; 16]| #[trigger]
        bytes_drawn(Some(bytes)) && identifier == uuid_text(uuid_octets(bytes@))
}

/// A device identifier from the system's randomness.
pub fn new_device_id() -> (result: Result<String, Error>)
    ensures
        match result {
            Ok(identifier) => is_random_uuid(identifier@),
            Err(error) => error == Error::Crypto("system randomness is unavailable")
                && bytes_drawn(None),
        },
{
    match draw_bytes() {
        Some(bytes) => {
            let identifier = device_id_of(&bytes);
            assert(bytes_drawn(Some(bytes)) && identifier@ == uuid_text(uuid_octets(bytes@)));
            Ok(identifier)
        },
        None => Err(Error::Crypto("system randomness is unavailable")),
    }
}

/// A profile under its name.
pub struct NamedProfile {
    pub name: String,
    pub profile: ManagedProfile,
}

/// Profiles by name, in ascending order of their names.
pub struct Profiles {
    entries: Vec<NamedProfile>,
}

/// The names of profiles.
pub open spec fn names_of(entries: Seq<NamedProfile>) -> Seq<Seq<char>> {
    entries.map_values(|entry: NamedProfile| entry.name@)
}

/// Where a name stands in a list.
pub open spec fn named_at(entries: Seq<NamedProfile>, name: Seq<char>, i: int) -> bool {
    0 <= i < entries.len() && entries[i].name@ == name
}

/// Profiles as a map from names.
pub open spec fn profile_map(entries: Seq<NamedProfile>) -> Map<Seq<char>, ProfileView> {
    Map::new(
        |name: Seq<char>| exists|i: int| named_at(entries, name, i),
        |name: Seq<char>| entries[choose|i: int| named_at(entries, name, i)].profile@,
    )
}

proof fn lemma_names_differ(entries: Seq<NamedProfile>, i: int, j: int)
    requires
        ascending(names_of(entries)),
        0 <= i < entries.len(),
        0 <= j < entries.len(),
        entries[i].name@ == entries[j].name@,
    ensures
        i == j,
{
    let list = names_of(entries);
    assert(list[i] == list[j]);
    lemma_precedes_total(list[i], list[j]);
    if i < j {
        assert(precedes(list[i], list[j]));
    } else if j < i {
        assert(precedes(list[j], list[i]));
    }
}

proof fn lemma_map_at(entries: Seq<NamedProfile>, name: Seq<char>, i: int)
    requires
        ascending(names_of(entries)),
        named_at(entries, name, i),
    ensures
        profile_map(entries).dom().contains(name),
        profile_map(entries)[name] == entries[i].profile@,
{
    let chosen = choose|k: int| named_at(entries, name, k);
    assert(named_at(entries, name, chosen));
    lemma_names_differ(entries, chosen, i);
}

impl View for Profiles {
    type V = Map<Seq<char>, ProfileView>;

    closed spec fn view(&self) -> Map<Seq<char>, ProfileView> {
        profile_map(self.entries@)
    }
}

impl Profiles {
    /// No name occurs twice, and names ascend.
    pub closed spec fn wf(&self) -> bool {
        ascending(names_of(self.entries@))
    }

    /// The names in the order in which profiles are listed.
    pub closed spec fn order(&self) -> Seq<Seq<char>> {
        names_of(self.entries@)
    }

    pub proof fn lemma_order(&self)
        requires
            self.wf(),
        ensures
            ascending(self.order()),
            forall|name: Seq<char>| #[trigger]
                self@.dom().contains(name) <==> self.order().contains(name),
    {
        assert forall|name: Seq<char>| #[trigger]
            self@.dom().contains(name) <==> self.order().contains(name) by {
            let list = self.order();
            if self@.dom().contains(name) {
                let i = choose|i: int| named_at(self.entries@, name, i);
                assert(named_at(self.entries@, name, i));
                assert(list[i] == name);
            }
            if list.contains(name) {
                let i = choose|i: int| 0 <= i < list.len() && list[i] == name;
                assert(named_at(self.entries@, name, i));
            }
        }
    }

    pub fn new() -> (profiles: Self)
        ensures
            profiles.wf(),
            profiles@ == Map::<Seq<char>, ProfileView>::empty(),
            profiles.order() == Seq::<Seq<char>>::empty(),
    {
        let profiles = Profiles { entries: Vec::new() };
        assert(profiles@ =~= Map::<Seq<char>, ProfileView>::empty());
        assert(profiles.order() =~= Seq::<Seq<char>>::empty());
        profiles
    }

    pub fn len(&self) -> (count: usize)
        ensures
            count == self.order().len(),
    {
        self.entries.len()
    }

    /// The name and the profile at a place in the order.
    pub fn at(&self, index: usize) -> (entry: (&str, &ManagedProfile))
        requires
            self.wf(),
            index < self.order().len(),
        ensures
            entry.0@ == self.order()[index as int],
            self@.dom().contains(entry.0@),
            self@[entry.0@] == entry.1@,
    {
        let entry = &self.entries[index];
        proof {
            assert(named_at(self.entries@, entry.name@, index as int));
            lemma_map_at(self.entries@, entry.name@, index as int);
        }
        (entry.name.as_str(), &entry.profile)
    }

    fn find(&self, name: &str) -> (found: Option<usize>)
        ensures
            match found {
                Some(i) => named_at(self.entries@, name@, i as int),
                None => forall|i: int| !named_at(self.entries@, name@, i),
            },
    {
        let mut i: usize = 0;
        while i < self.entries.len()
            invariant
                i <= self.entries@.len(),
                forall|k: int| 0 <= k < i ==> !named_at(self.entries@, name@, k),
            decreases self.entries@.len() - i,
        {
            if same_text(&self.entries[i].name, name) {
                return Some(i);
            }
            i += 1;
        }
        None
    }

    pub fn get(&self, name: &str) -> (profile: Option<&ManagedProfile>)
        requires
            self.wf(),
        ensures
            match profile {
                Some(found) => self@.dom().contains(name@) && self@[name@] == found@,
                None => !self@.dom().contains(name@),
            },
    {
        match self.find(name) {
            Some(i) => {
                proof {
                    lemma_map_at(self.entries@, name@, i as int);
                }
                Some(&self.entries[i].profile)
            },
            None => None,
        }
    }

    /// Puts a profile under a name, in place of one that was there.
    pub fn insert(&mut self, name: &str, profile: ManagedProfile)
        requires
            old(self).wf(),
        ensures
            final(self).wf(),
            final(self)@ == old(self)@.insert(name@, profile@),
    {
        let ghost before = self.entries@;
        let ghost value = profile@;
        let mut at: usize = 0;
        while at < self.entries.len() && text_precedes(&self.entries[at].name, name)
            invariant
                self.entries@ == before,
                ascending(names_of(before)),
                at <= before.len(),
                forall|k: int| 0 <= k < at ==> precedes(#[trigger] before[k].name@, name@),
            decreases before.len() - at,
        {
            at += 1;
        }
        if at < self.entries.len() && same_text(&self.entries[at].name, name) {
            let _ = self.entries.remove(at);
            self.entries.insert(at, NamedProfile { name: name.to_owned(), profile });
            proof {
                let after = self.entries@;
                assert(names_of(after) =~= names_of(before));
                assert(after =~= before.update(at as int, after[at as int]));
                assert(profile_map(after) =~= profile_map(before).insert(name@, value)) by {
                    lemma_replaced(before, after, name@, at as int);
                }
            }
        } else {
            self.entries.insert(at, NamedProfile { name: name.to_owned(), profile });
            proof {
                lemma_inserted(before, self.entries@, name@, at as int);
            }
        }
    }

    /// Takes the profile under a name out.
    pub fn remove(&mut self, name: &str) -> (removed: bool)
        requires
            old(self).wf(),
        ensures
            final(self).wf(),
            removed == old(self)@.dom().contains(name@),
            final(self)@ == old(self)@.remove(name@),
    {
        match self.find(name) {
            Some(i) => {
                let ghost before = self.entries@;
                let _ = self.entries.remove(i);
                proof {
                    lemma_removed(before, self.entries@, name@, i as int);
                }
                true
            },
            None => {
                assert(!self@.dom().contains(name@));
                assert(self@.remove(name@) =~= self@);
                false
            },
        }
    }
}

proof fn lemma_replaced(
    before: Seq<NamedProfile>,
    after: Seq<NamedProfile>,
    name: Seq<char>,
    at: int,
)
    requires
        ascending(names_of(before)),
        names_of(after) == names_of(before),
        named_at(before, name, at),
        after == before.update(at, after[at]),
    ensures
        profile_map(after) == profile_map(before).insert(name, after[at].profile@),
{
    assert(after.len() == before.len());
    assert forall|k: int| 0 <= k < before.len() implies after[k].name@ == before[k].name@ by {
        assert(names_of(after)[k] == names_of(before)[k]);
    }
    let expected = profile_map(before).insert(name, after[at].profile@);
    assert forall|other: Seq<char>|
        #![trigger profile_map(after).dom().contains(other)]
        profile_map(after).dom().contains(other) <==> expected.dom().contains(other) by {
        if exists|i: int| named_at(after, other, i) {
            let i = choose|i: int| named_at(after, other, i);
            assert(named_at(before, other, i));
        }
        if exists|i: int| named_at(before, other, i) {
            let i = choose|i: int| named_at(before, other, i);
            assert(named_at(after, other, i));
        }
        assert(named_at(after, name, at));
    }
    assert forall|other: Seq<char>| profile_map(after).dom().contains(other) implies profile_map(
        after,
    )[other] == expected[other] by {
        let i = choose|i: int| named_at(after, other, i);
        assert(named_at(after, other, i));
        assert(named_at(before, other, i));
        lemma_map_at(after, other, i);
        lemma_map_at(before, other, i);
        if other == name {
            assert(named_at(after, name, at));
            lemma_map_at(after, name, at);
        } else {
            assert(i != at);
        }
    }
    assert(profile_map(after) =~= expected);
}

proof fn lemma_inserted(
    before: Seq<NamedProfile>,
    after: Seq<NamedProfile>,
    name: Seq<char>,
    at: int,
)
    requires
        ascending(names_of(before)),
        0 <= at <= before.len(),
        after == before.insert(at, after[at]),
        after[at].name@ == name,
        forall|k: int| 0 <= k < at ==> precedes(#[trigger] before[k].name@, name),
        at < before.len() ==> !precedes(before[at].name@, name) && before[at].name@ != name,
    ensures
        ascending(names_of(after)),
        profile_map(after) == profile_map(before).insert(name, after[at].profile@),
{
    let old_names = names_of(before);
    let new_names = names_of(after);
    assert(new_names =~= old_names.insert(at, name));
    if at < before.len() {
        lemma_precedes_total(before[at].name@, name);
    }
    assert forall|i: int, j: int| 0 <= i < j < new_names.len() implies #[trigger] precedes(
        new_names[i],
        new_names[j],
    ) by {
        if i == at {
            if j > at + 1 {
                assert(precedes(old_names[at], old_names[j - 1]));
                lemma_precedes_transitive(name, old_names[at], old_names[j - 1]);
            }
        } else if j == at {
            assert(precedes(before[i].name@, name));
        } else {
            let ii = if i < at {
                i
            } else {
                i - 1
            };
            let jj = if j < at {
                j
            } else {
                j - 1
            };
            assert(precedes(old_names[ii], old_names[jj]));
        }
    }
    let expected = profile_map(before).insert(name, after[at].profile@);
    assert(named_at(after, name, at));
    assert forall|other: Seq<char>|
        #![trigger profile_map(after).dom().contains(other)]
        profile_map(after).dom().contains(other) <==> expected.dom().contains(other) by {
        if exists|i: int| named_at(after, other, i) {
            let i = choose|i: int| named_at(after, other, i);
            if i < at {
                assert(named_at(before, other, i));
            } else if i > at {
                assert(named_at(before, other, i - 1));
            }
        }
        if exists|i: int| named_at(before, other, i) {
            let i = choose|i: int| named_at(before, other, i);
            if i < at {
                assert(named_at(after, other, i));
            } else {
                assert(named_at(after, other, i + 1));
            }
        }
    }
    assert forall|other: Seq<char>| profile_map(after).dom().contains(other) implies profile_map(
        after,
    )[other] == expected[other] by {
        let i = choose|i: int| named_at(after, other, i);
        assert(named_at(after, other, i));
        lemma_map_at(after, other, i);
        if i < at {
            assert(named_at(before, other, i));
            lemma_map_at(before, other, i);
        } else if i > at {
            assert(named_at(before, other, i - 1));
            lemma_map_at(before, other, i - 1);
        }
        if other == name {
            lemma_map_at(after, name, at);
        }
    }
    assert(profile_map(after) =~= expected);
}

proof fn lemma_removed(
    before: Seq<NamedProfile>,
    after: Seq<NamedProfile>,
    name: Seq<char>,
    at: int,
)
    requires
        ascending(names_of(before)),
        named_at(before, name, at),
        after == before.remove(at),
    ensures
        ascending(names_of(after)),
        profile_map(before).dom().contains(name),
        profile_map(after) == profile_map(before).remove(name),
{
    let old_names = names_of(before);
    let new_names = names_of(after);
    assert(new_names =~= old_names.remove(at));
    assert forall|i: int, j: int| 0 <= i < j < new_names.len() implies #[trigger] precedes(
        new_names[i],
        new_names[j],
    ) by {
        let ii = if i < at {
            i
        } else {
            i + 1
        };
        let jj = if j < at {
            j
        } else {
            j + 1
        };
        assert(precedes(old_names[ii], old_names[jj]));
    }
    lemma_map_at(before, name, at);
    let expected = profile_map(before).remove(name);
    assert forall|other: Seq<char>|
        #![trigger profile_map(after).dom().contains(other)]
        profile_map(after).dom().contains(other) <==> expected.dom().contains(other) by {
        if exists|i: int| named_at(after, other, i) {
            let i = choose|i: int| named_at(after, other, i);
            let k = if i < at {
                i
            } else {
                i + 1
            };
            assert(named_at(before, other, k));
            if other == name {
                lemma_names_differ(before, k, at);
            }
        }
        if other != name && exists|i: int| named_at(before, other, i) {
            let i = choose|i: int| named_at(before, other, i);
            if i < at {
                assert(named_at(after, other, i));
            } else {
                assert(named_at(after, other, i - 1));
            }
        }
    }
    assert forall|other: Seq<char>| profile_map(after).dom().contains(other) implies profile_map(
        after,
    )[other] == expected[other] by {
        let i = choose|i: int| named_at(after, other, i);
        assert(named_at(after, other, i));
        lemma_map_at(after, other, i);
        let k = if i < at {
            i
        } else {
            i + 1
        };
        assert(named_at(before, other, k));
        lemma_map_at(before, other, k);
    }
    assert(profile_map(after) =~= expected);
}

/// Everything that is saved between commands.
pub struct CliState {
    pub version: u32,
    pub device_id: String,
    pub default_profile: Option<String>,
    pub profiles: Profiles,
}

/// The state with texts as sequences and profiles as a map.
#[verifier::ext_equal]
pub struct StateView {
    pub version: u32,
    pub device_id: Seq<char>,
    pub default_profile: Option<Seq<char>>,
    pub profiles: Map<Seq<char>, ProfileView>,
}

impl View for CliState {
    type V = StateView;

    open spec fn view(&self) -> StateView {
        StateView {
            version: self.version,
            device_id: self.device_id@,
            default_profile: maybe(self.default_profile),
            profiles: self.profiles@,
        }
    }
}

/// The message on why a profile cannot stand under its name.
pub open spec fn entry_error(name: Seq<char>, profile: ProfileView) -> Option<Seq<char>> {
    if !valid_profile_name(name) {
        Some(profile_name_message())
    } else {
        profile_error(profile)
    }
}

/// The message on the first of the profiles that cannot be used.
pub open spec fn first_entry_error(
    order: Seq<Seq<char>>,
    profiles: Map<Seq<char>, ProfileView>,
) -> Option<Seq<char>>
    decreases order.len(),
{
    if order.len() == 0 {
        None
    } else {
        match first_entry_error(order.drop_last(), profiles) {
            Some(message) => Some(message),
            None => entry_error(order.last(), profiles[order.last()]),
        }
    }
}

/// The message on why saved state cannot be used.
pub open spec fn state_error(state: StateView, order: Seq<Seq<char>>) -> Option<Seq<char>> {
    if state.version != STATE_VERSION {
        Some(
            "unsupported CLI state version "@ + decimal(state.version as nat) + "; expected 1"@,
        )
    } else if state.device_id.len() > 0 && !fits(state.device_id, MAX_DEVICE_ID_LEN) {
        Some("generated device ID"@ + " must contain 1..=256 characters"@)
    } else if state.default_profile matches Some(name) && !state.profiles.dom().contains(name) {
        Some("default profile "@ + quoted_text(state.default_profile->Some_0) + " does not exist"@)
    } else {
        first_entry_error(order, state.profiles)
    }
}

proof fn lemma_entry_error_stays(
    order: Seq<Seq<char>>,
    profiles: Map<Seq<char>, ProfileView>,
    count: int,
)
    requires
        0 <= count <= order.len(),
        first_entry_error(order.take(count), profiles) is Some,
    ensures
        first_entry_error(order, profiles) == first_entry_error(order.take(count), profiles),
    decreases order.len() - count,
{
    if count == order.len() {
        assert(order.take(count) =~= order);
    } else {
        assert(order.take(count + 1).drop_last() =~= order.take(count));
        lemma_entry_error_stays(order, profiles, count + 1);
    }
}

impl Default for CliState {
    fn default() -> (state: Self)
        ensures
            state.profiles.wf(),
            state@ == (StateView {
                version: STATE_VERSION,
                device_id: Seq::empty(),
                default_profile: None,
                profiles: Map::empty(),
            }),
            state_error(state@, state.profiles.order()) is None,
    {
        let state = CliState {
            version: STATE_VERSION,
            device_id: String::new(),
            default_profile: None,
            profiles: Profiles::new(),
        };
        assert(state.device_id@ =~= Seq::empty());
        state
    }
}

impl CliState {
    pub fn validate(&self) -> (result: Result<(), Error>)
        requires
            self.profiles.wf(),
        ensures
            match result {
                Ok(_) => state_error(self@, self.profiles.order()) is None,
                Err(error) => state_error(self@, self.profiles.order()) matches Some(message)
                    && is_invalid_config(error, message),
            },
    {
        if self.version != STATE_VERSION {
            let shown = decimal_text(self.version as u64);
            return Err(
                Error::InvalidConfig(
                    join3("unsupported CLI state version ", &shown, "; expected 1"),
                ),
            );
        }
        let device = chars_of(&self.device_id);
        if device.len() > 0 {
            match validate_device_id(&self.device_id, "generated device ID") {
                Ok(_) => {},
                Err(error) => {
                    return Err(error);
                },
            }
        }
        if let Some(name) = &self.default_profile {
            if self.profiles.get(name).is_none() {
                let shown = quoted(name);
                return Err(
                    Error::InvalidConfig(join3("default profile ", &shown, " does not exist")),
                );
            }
        }
        self.validate_profiles()
    }

    fn validate_profiles(&self) -> (result: Result<(), Error>)
        requires
            self.profiles.wf(),
        ensures
            match result {
                Ok(_) => first_entry_error(self.profiles.order(), self.profiles@) is None,
                Err(error) => first_entry_error(self.profiles.order(), self.profiles@) matches Some(
                    message,
                ) && is_invalid_config(error, message),
            },
    {
        let ghost order = self.profiles.order();
        let count: usize = self.profiles.len();
        let mut i: usize = 0;
        while i < count
            invariant
                self.profiles.wf(),
                order == self.profiles.order(),
                count == order.len(),
                i <= count,
                first_entry_error(order.take(i as int), self.profiles@) is None,
            decreases count - i,
        {
            let (name, profile) = self.profiles.at(i);
            proof {
                assert(order.take(i + 1).drop_last() =~= order.take(i as int));
                assert(order.take(i + 1).last() == name@);
                if entry_error(name@, profile@) is Some {
                    lemma_entry_error_stays(order, self.profiles@, i + 1);
                }
            }
            match validate_profile_name(name) {
                Ok(_) => {},
                Err(error) => {
                    return Err(error);
                },
            }
            match profile.validate() {
                Ok(_) => {},
                Err(error) => {
                    return Err(error);
                },
            }
            i += 1;
        }
        assert(order.take(i as int) =~= order);
        Ok(())
    }

    /// The identifier of this installation, made on first use and kept.
    pub fn ensure_device_id(&mut self) -> (result: Result<String, Error>)
        ensures
            old(self)@.device_id.len() > 0 ==> final(self)@ == old(self)@ && result is Ok,
            final(self).profiles == old(self).profiles,
            match result {
                Ok(identifier) => {
                    &&& identifier@ == final(self)@.device_id
                    &&& old(self)@.device_id.len() == 0 ==> is_random_uuid(identifier@)
                    &&& final(self)@ == (StateView { device_id: identifier@, ..old(self)@ })
                },
                Err(error) => final(self)@ == old(self)@ && error == Error::Crypto(
                    "system randomness is unavailable",
                ) && bytes_drawn(None),
            },
    {
        let chars = chars_of(&self.device_id);
        if chars.len() == 0 {
            match new_device_id() {
                Ok(identifier) => {
                    self.device_id = identifier;
                },
                Err(error) => {
                    return Err(error);
                },
            }
        }
        Ok(self.device_id.clone())
    }
}

/// A profile's name has one to 64 characters: letters and digits of ASCII, dots,
/// underscores and hyphens.
pub proof fn law_profile_names(name: &str, result: Result<(), Error>)
    requires
        call_ensures(validate_profile_name, (name,), result),
    ensures
        result is Ok <==> 1 <= name@.len() <= 64 && (forall|i: int|
            0 <= i < name@.len() ==> {
                let c = #[trigger] name@[i];
                'a' <= c <= 'z' || 'A' <= c <= 'Z' || '0' <= c <= '9' || c == '.' || c == '_' || c
                    == '-'
            }),
{
    assert forall|c: char| is_name_char(c) <==> ('a' <= c <= 'z' || 'A' <= c <= 'Z' || '0' <= c
        <= '9' || c == '.' || c == '_' || c == '-') by {
        crate::text::lemma_char_code(c);
    }
    if valid_profile_name(name@) {
        assert forall|i: int| 0 <= i < name@.len() implies {
            let c = #[trigger] name@[i];
            'a' <= c <= 'z' || 'A' <= c <= 'Z' || '0' <= c <= '9' || c == '.' || c == '_' || c
                == '-'
        } by {
            assert(is_name_char(name@[i]));
        }
    }
}

/// A device identifier has something in it but space, and at most 256 bytes.
pub proof fn law_device_identifiers(device_id: &str, label: &str, result: Result<(), Error>)
    requires
        call_ensures(validate_device_id, (device_id, label), result),
    ensures
        result is Ok <==> trimmed(device_id@).len() > 0 && encode_utf8(device_id@).len() <= 256,
{
}

/// A profile is valid where its device has an identifier, its user a name if there
/// is one, what it saved an identifier of 32 lower hexadecimal digits if there is
/// one, and its DNS settings are valid.
pub proof fn law_valid_profile(profile: ManagedProfile, result: Result<(), Error>)
    requires
        call_ensures(ManagedProfile::validate, (&profile,), result),
    ensures
        result is Ok <==> {
            &&& trimmed(profile.device_id@).len() > 0 && encode_utf8(profile.device_id@).len()
                <= 256
            &&& profile.username matches Some(name) ==> trimmed(name@).len() > 0 && encode_utf8(
                name@,
            ).len() <= 256
            &&& profile.credential_id@.len() == 0 || (profile.credential_id@.len() == 32 && forall|
                i: int,
            |
                0 <= i < 32 ==> {
                    let code = #[trigger] profile.credential_id@[i] as u32;
                    48 <= code <= 57 || 97 <= code <= 102
                })
            &&& overrides_error(profile.dns@) is None
        },
{
    let text = profile.credential_id@;
    if valid_credential_id(text) {
        assert forall|i: int| 0 <= i < 32 implies {
            let code = #[trigger] text[i] as u32;
            48 <= code <= 57 || 97 <= code <= 102
        } by {
            assert(is_lower_hex(text[i]));
        }
    }
}

/// A new profile takes any line and has neither a user, nor anything saved, nor
/// settings of its own.
pub proof fn law_new_profile(
    domain: String,
    device_id: String,
    result: Result<ManagedProfile, Error>,
)
    requires
        call_ensures(ManagedProfile::new, (domain, device_id), result),
    ensures
        result matches Ok(profile) ==> {
            &&& profile@.domain == domain@ && profile@.device_id == device_id@
            &&& profile@.line == "auto"@
            &&& profile@.username is None && profile@.credential_id.len() == 0
            &&& profile@.dns == no_overrides() && profile@.routing == no_routing()
        },
        trimmed(device_id@).len() == 0 || encode_utf8(device_id@).len() > 256 ==> result is Err,
{
}

/// An identifier that is there is kept, and a new one is made only where there is
/// none.
pub proof fn law_identifiers_are_kept(result: Result<String, Error>)
    ensures
        forall|profile: &mut ManagedProfile| #[trigger]
            call_ensures(ManagedProfile::ensure_credential_id, (profile,), result) ==> {
                &&& (*profile)@.credential_id.len() > 0 ==> (result matches Ok(found) && found@
                    == (*profile)@.credential_id)
                &&& result is Ok ==> (*final(profile))@.credential_id == result->Ok_0@
                    && result->Ok_0@.len() > 0
                &&& (*final(profile))@.domain == (*profile)@.domain
                &&& (*final(profile))@.username == (*profile)@.username
            },
        forall|state: &mut CliState| #[trigger]
            call_ensures(CliState::ensure_device_id, (state,), result) ==> {
                &&& (*state)@.device_id.len() > 0 ==> (result matches Ok(found) && found@
                    == (*state)@.device_id)
                &&& result is Ok ==> (*final(state))@.device_id == result->Ok_0@
                &&& (*final(state))@.profiles == (*state)@.profiles
                &&& (*final(state))@.default_profile == (*state)@.default_profile
            },
{
}

proof fn lemma_upper_digits(bytes: Seq<u8>, i: int)
    requires
        0 <= i < bytes.len(),
    ensures
        upper_hex(bytes).len() == 2 * bytes.len(),
        upper_hex(bytes)[2 * i] == upper_hex_char((bytes[i] / 16) as int),
        upper_hex(bytes)[2 * i + 1] == upper_hex_char((bytes[i] % 16) as int),
    decreases bytes.len(),
{
    let rest = bytes.drop_last();
    lemma_upper_hex(bytes);
    lemma_upper_hex(rest);
    if i < rest.len() {
        lemma_upper_digits(rest, i);
    }
}

/// A device identifier shows its sixteen bytes in order, each in two digits, the
/// last six behind the last hyphen; of the others only the version and the variant
/// are set.
pub proof fn law_device_id_digits(bytes: &[u8; 16], identifier: String, i: int)
    requires
        call_ensures(device_id_of, (bytes,), identifier),
        0 <= i < 16,
        i != 6 && i != 8,
    ensures
        ({
            let at = if i < 4 {
                2 * i
            } else if i < 6 {
                2 * i + 1
            } else if i < 8 {
                2 * i + 2
            } else if i < 10 {
                2 * i + 3
            } else {
                2 * i + 4
            };
            let high = bytes@[i] / 16;
            let low = bytes@[i] % 16;
            &&& identifier@.len() == 36
            &&& high < 10 ==> identifier@[at] as int == 48 + high
            &&& high >= 10 ==> identifier@[at] as int == 55 + high
            &&& low < 10 ==> identifier@[at + 1] as int == 48 + low
            &&& low >= 10 ==> identifier@[at + 1] as int == 55 + low
        }),
{
    let octets = uuid_octets(bytes@);
    law_device_id_form(bytes@);
    assert(octets[i] == bytes@[i]);
    let a = upper_hex(octets.subrange(0, 4));
    let b = upper_hex(octets.subrange(4, 6));
    let c = upper_hex(octets.subrange(6, 8));
    let d = upper_hex(octets.subrange(8, 10));
    let e = upper_hex(octets.subrange(10, 16));
    lemma_upper_hex(octets.subrange(0, 4));
    lemma_upper_hex(octets.subrange(4, 6));
    lemma_upper_hex(octets.subrange(6, 8));
    lemma_upper_hex(octets.subrange(8, 10));
    lemma_upper_hex(octets.subrange(10, 16));
    if i < 4 {
        lemma_upper_digits(octets.subrange(0, 4), i);
    } else if i < 6 {
        lemma_upper_digits(octets.subrange(4, 6), i - 4);
    } else if i < 8 {
        lemma_upper_digits(octets.subrange(6, 8), i - 6);
    } else if i < 10 {
        lemma_upper_digits(octets.subrange(8, 10), i - 8);
    } else {
        lemma_upper_digits(octets.subrange(10, 16), i - 10);
    }
}

proof fn lemma_no_entry_error(
    order: Seq<Seq<char>>,
    profiles: Map<Seq<char>, ProfileView>,
)
    ensures
        first_entry_error(order, profiles) is None <==> (forall|i: int|
            0 <= i < order.len() ==> entry_error(#[trigger] order[i], profiles[order[i]]) is None),
    decreases order.len(),
{
    if order.len() > 0 {
        let rest = order.drop_last();
        lemma_no_entry_error(rest, profiles);
        if first_entry_error(order, profiles) is None {
            assert forall|i: int| 0 <= i < order.len() implies entry_error(
                #[trigger] order[i],
                profiles[order[i]],
            ) is None by {
                if i < rest.len() {
                    assert(rest[i] == order[i]);
                }
            }
        }
        if forall|i: int|
            0 <= i < order.len() ==> entry_error(#[trigger] order[i], profiles[order[i]]) is None {
            assert forall|i: int| 0 <= i < rest.len() implies entry_error(
                #[trigger] rest[i],
                profiles[rest[i]],
            ) is None by {
                assert(rest[i] == order[i]);
            }
            assert(order.last() == order[order.len() - 1]);
        }
    }
}

/// A state is valid where its version is the first, its device identifier is proper
/// or none, its default is one of its profiles or none, and each profile has a
/// proper name and is valid.
pub proof fn law_valid_state(state: CliState, result: Result<(), Error>)
    requires
        state.profiles.wf(),
        call_ensures(CliState::validate, (&state,), result),
    ensures
        result is Ok <==> {
            &&& state.version == 1
            &&& state.device_id@.len() == 0 || (trimmed(state.device_id@).len() > 0 && encode_utf8(
                state.device_id@,
            ).len() <= 256)
            &&& state.default_profile matches Some(name) ==> state.profiles@.dom().contains(name@)
            &&& forall|name: Seq<char>| #[trigger]
                state.profiles@.dom().contains(name) ==> valid_profile_name(name) && profile_error(
                    state.profiles@[name],
                ) is None
        },
{
    let order = state.profiles.order();
    let profiles = state.profiles@;
    lemma_no_entry_error(order, profiles);
    state.profiles.lemma_order();
    if first_entry_error(order, profiles) is None {
        assert forall|name: Seq<char>| #[trigger] profiles.dom().contains(name) implies
            valid_profile_name(name) && profile_error(profiles[name]) is None by {
            assert(order.contains(name));
            let i = choose|i: int| 0 <= i < order.len() && order[i] == name;
            assert(entry_error(order[i], profiles[order[i]]) is None);
        }
    }
    if forall|name: Seq<char>| #[trigger]
        profiles.dom().contains(name) ==> valid_profile_name(name) && profile_error(
            profiles[name],
        ) is None {
        assert forall|i: int| 0 <= i < order.len() implies entry_error(
            #[trigger] order[i],
            profiles[order[i]],
        ) is None by {
            assert(order.contains(order[i]));
            assert(profiles.dom().contains(order[i]));
        }
    }
}

} // verus!
