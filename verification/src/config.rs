//! Settings of a connection.

use crate::error::{invalid_config, Error};
use crate::error::is_invalid_config;
use crate::net::SocketAddr;
use crate::protocol::EncryptionMethod;
use crate::text::{decimal_text, join3, push_decimal, push_text, quoted};
use crate::text::{decimal, quoted_text};
use vstd::prelude::*;

verus! {

pub const DEFAULT_MTU: u16 = 1400;

pub const MIN_MTU: u16 = 576;

pub const MAX_MTU: u16 = 9000;

pub const DEFAULT_RECEIVE_POLL_MS: u64 = 250;

/// How often and how soon a lost connection is tried again.
#[derive(Debug, Clone, Copy, PartialEq, Eq, Structural)]
pub struct ReconnectPolicy {
    pub attempts: u32,
    pub initial_delay_ms: u64,
    pub max_delay_ms: u64,
}

impl ReconnectPolicy {
    pub fn default_attempts() -> (attempts: u32)
        ensures
            attempts == 10,
    {
        10
    }

    pub fn default_initial_delay_ms() -> (delay: u64)
        ensures
            delay == 1_000,
    {
        1_000
    }

    pub fn default_max_delay_ms() -> (delay: u64)
        ensures
            delay == 30_000,
    {
        30_000
    }
}

impl Default for ReconnectPolicy {
    fn default() -> (policy: Self)
        ensures
            policy == (ReconnectPolicy {
                attempts: 10,
                initial_delay_ms: 1_000,
                max_delay_ms: 30_000,
            }),
    {
        ReconnectPolicy {
            attempts: Self::default_attempts(),
            initial_delay_ms: Self::default_initial_delay_ms(),
            max_delay_ms: Self::default_max_delay_ms(),
        }
    }
}

impl ReconnectPolicy {
    /// What a description shows.
    pub open spec fn shown(&self) -> Seq<char> {
        "ReconnectPolicy { attempts: "@ + decimal(self.attempts as nat) + ", initial_delay_ms: "@
            + decimal(self.initial_delay_ms as nat) + ", max_delay_ms: "@ + decimal(
            self.max_delay_ms as nat,
        ) + " }"@
    }

    pub fn debug_string(&self) -> (text: String)
        ensures
            text@ == self.shown(),
    {
        let mut text = "ReconnectPolicy { attempts: ".to_owned();
        push_decimal(&mut text, self.attempts as u64);
        push_text(&mut text, ", initial_delay_ms: ");
        push_decimal(&mut text, self.initial_delay_ms);
        push_text(&mut text, ", max_delay_ms: ");
        push_decimal(&mut text, self.max_delay_ms);
        push_text(&mut text, " }");
        text
    }
}

/// The cipher around segment-routing datagrams.
#[derive(Debug, Clone, Copy, PartialEq, Eq, Structural)]
pub enum SrEncryptionAlgorithm {
    Clear,
    Aes128,
}

impl Default for SrEncryptionAlgorithm {
    fn default() -> (algorithm: Self)
        ensures
            algorithm == SrEncryptionAlgorithm::Clear,
    {
        SrEncryptionAlgorithm::Clear
    }
}

/// A segment-routing path. Its outer cipher checks the key when it is made.
pub struct SegmentRoutingConfig {
    pub id: u32,
    pub keepalive: bool,
    pub encrypt_algo: SrEncryptionAlgorithm,
    pub encrypt_key: String,
    pub links: Vec<u32>,
    /// Known only while a session runs.
    pub local_sr_id: Option<u32>,
}

/// Between one and six links, each a nonzero 24-bit number.
pub open spec fn valid_links(links: Seq<u32>) -> bool {
    1 <= links.len() <= 6 && forall|i: int|
        0 <= i < links.len() ==> 1 <= #[trigger] links[i] <= 0x00ff_ffff
}

impl SegmentRoutingConfig {
    /// Checks the links, and then takes what became of making the outer cipher
    /// from its algorithm and key.
    pub fn validate(&self, cipher: Result<(), Error>) -> (result: Result<(), Error>)
        ensures
            if valid_links(self.links@) {
                result == cipher
            } else {
                result matches Err(error) && is_invalid_config(
                    error,
                    "segment-routing links must contain 1..=6 IDs in 1..=0x00ffffff"@,
                )
            },
    {
        let count: usize = self.links.len();
        let mut valid = 1 <= count && count <= 6;
        let mut i: usize = 0;
        while i < count
            invariant
                count == self.links@.len(),
                i <= count,
                valid == (1 <= count <= 6 && forall|k: int|
                    0 <= k < i ==> 1 <= #[trigger] self.links@[k] <= 0x00ff_ffff),
            decreases count - i,
        {
            let link: u32 = self.links[i];
            if link < 1 || link > 0x00ff_ffff {
                assert(!(1 <= self.links@[i as int] <= 0x00ff_ffff));
                valid = false;
            }
            i += 1;
        }
        if valid {
            cipher
        } else {
            Err(invalid_config("segment-routing links must contain 1..=6 IDs in 1..=0x00ffffff"))
        }
    }

    /// The identifier that monitoring uses: the local one where it is known.
    pub fn monitor_sr_id(&self) -> (id: u32)
        ensures
            id == match self.local_sr_id {
                Some(value) => if value != 0 {
                    value
                } else {
                    self.id
                },
                None => self.id,
            },
    {
        match self.local_sr_id {
            Some(value) => {
                if value != 0 {
                    value
                } else {
                    self.id
                }
            },
            None => self.id,
        }
    }
}

/// A truth value in words.
pub open spec fn flag_chars(value: bool) -> Seq<char> {
    if value {
        "true"@
    } else {
        "false"@
    }
}

/// Numbers behind one another, with a comma between them.
pub open spec fn listed(numbers: Seq<u32>) -> Seq<char>
    decreases numbers.len(),
{
    if numbers.len() == 0 {
        Seq::empty()
    } else if numbers.len() == 1 {
        decimal(numbers[0] as nat)
    } else {
        listed(numbers.drop_last()) + ", "@ + decimal(numbers.last() as nat)
    }
}

fn push_listed(out: &mut String, numbers: &Vec<u32>)
    ensures
        final(out)@ == old(out)@ + listed(numbers@),
{
    let ghost before = out@;
    let mut i: usize = 0;
    assert(numbers@.take(0) =~= Seq::<u32>::empty());
    assert(before + Seq::<char>::empty() =~= before);
    while i < numbers.len()
        invariant
            i <= numbers@.len(),
            out@ == before + listed(numbers@.take(i as int)),
        decreases numbers@.len() - i,
    {
        proof {
            assert(numbers@.take(i + 1).drop_last() =~= numbers@.take(i as int));
            assert(numbers@.take(i + 1).last() == numbers@[i as int]);
        }
        if i > 0 {
            push_text(out, ", ");
        }
        push_decimal(out, numbers[i] as u64);
        assert(out@ =~= before + listed(numbers@.take(i + 1)));
        i += 1;
    }
    assert(numbers@.take(i as int) =~= numbers@);
}

impl SegmentRoutingConfig {
    /// What a description shows: everything but the key.
    pub open spec fn shown(&self) -> Seq<char> {
        "SegmentRoutingConfig { id: "@ + decimal(self.id as nat) + ", keepalive: "@ + flag_chars(
            self.keepalive,
        ) + ", encrypt_algo: "@ + (match self.encrypt_algo {
            SrEncryptionAlgorithm::Clear => "None"@,
            SrEncryptionAlgorithm::Aes128 => "Aes128"@,
        }) + ", encrypt_key: \"[REDACTED]\", links: ["@ + listed(self.links@) + "], local_sr_id: "@
            + (match self.local_sr_id {
            Some(id) => "Some("@ + decimal(id as nat) + ")"@,
            None => "None"@,
        }) + " }"@
    }

    /// A description that leaves the key out.
    pub fn debug_string(&self) -> (text: String)
        ensures
            text@ == self.shown(),
    {
        let mut text = "SegmentRoutingConfig { id: ".to_owned();
        push_decimal(&mut text, self.id as u64);
        push_text(&mut text, ", keepalive: ");
        push_text(
            &mut text,
            if self.keepalive {
                "true"
            } else {
                "false"
            },
        );
        push_text(&mut text, ", encrypt_algo: ");
        push_text(
            &mut text,
            match self.encrypt_algo {
                SrEncryptionAlgorithm::Clear => "None",
                SrEncryptionAlgorithm::Aes128 => "Aes128",
            },
        );
        push_text(&mut text, ", encrypt_key: \"[REDACTED]\", links: [");
        push_listed(&mut text, &self.links);
        push_text(&mut text, "], local_sr_id: ");
        let ghost start = text@;
        match self.local_sr_id {
            Some(id) => {
                push_text(&mut text, "Some(");
                push_decimal(&mut text, id as u64);
                push_text(&mut text, ")");
                assert(text@ =~= start + ("Some("@ + decimal(id as nat) + ")"@));
            },
            None => push_text(&mut text, "None"),
        }
        push_text(&mut text, " }");
        text
    }
}

/// Data-plane settings. Passwords are handed over separately.
pub struct ClientConfig {
    pub server: String,
    pub mtu: u16,
    pub encryption: EncryptionMethod,
    pub receive_poll_ms: u64,
    pub reconnect: ReconnectPolicy,
    pub segment_routing: Option<SegmentRoutingConfig>,
}

/// The message on why settings cannot be used, whatever cipher they ask for.
pub open spec fn config_error(config: ClientConfig) -> Option<Seq<char>> {
    if !(MIN_MTU <= config.mtu <= MAX_MTU) {
        Some("MTU "@ + decimal(config.mtu as nat) + " is outside 576..=9000"@)
    } else if config.receive_poll_ms == 0 {
        Some("receive_poll_ms must be greater than zero"@)
    } else if config.reconnect.max_delay_ms == 0 {
        Some("reconnect.max_delay_ms must be greater than zero"@)
    } else if config.reconnect.initial_delay_ms > config.reconnect.max_delay_ms {
        Some("reconnect.initial_delay_ms must not exceed reconnect.max_delay_ms"@)
    } else if config.segment_routing matches Some(sr) && !valid_links(sr.links@) {
        Some("segment-routing links must contain 1..=6 IDs in 1..=0x00ffffff"@)
    } else {
        None
    }
}

/// What checking settings comes to. `cipher` is what became of making the outer
/// cipher of the segment-routing path, where there is one, and `found` what became
/// of looking the server up.
pub open spec fn is_validation(
    config: ClientConfig,
    cipher: Result<(), Error>,
    found: Result<Vec<SocketAddr>, Error>,
    result: Result<(), Error>,
) -> bool {
    match config_error(config) {
        Some(message) => result matches Err(error) && is_invalid_config(error, message),
        None => if config.segment_routing is Some && cipher is Err {
            result == cipher
        } else {
            match found {
                Err(error) => result == Err::<(), Error>(error),
                Ok(addresses) => if addresses@.len() == 0 {
                    result matches Err(error) && is_invalid_config(
                        error,
                        "server resolved to no address"@,
                    )
                } else {
                    result is Ok
                },
            }
        },
    }
}

impl ClientConfig {
    /// What a description shows: everything but the key of a segment-routing path.
    pub open spec fn shown(&self) -> Seq<char> {
        "ClientConfig { server: "@ + quoted_text(self.server@) + ", mtu: "@ + decimal(
            self.mtu as nat,
        ) + ", encryption: "@ + (match self.encryption {
            EncryptionMethod::Clear => "None"@,
            EncryptionMethod::Xor => "Xor"@,
            EncryptionMethod::Aes => "Aes"@,
        }) + ", receive_poll_ms: "@ + decimal(self.receive_poll_ms as nat) + ", reconnect: "@
            + self.reconnect.shown() + ", segment_routing: "@ + (match self.segment_routing {
            Some(path) => "Some("@ + path.shown() + ")"@,
            None => "None"@,
        }) + " }"@
    }

    /// A description that leaves the key of a segment-routing path out.
    pub fn debug_string(&self) -> (text: String)
        ensures
            text@ == self.shown(),
    {
        let mut text = "ClientConfig { server: ".to_owned();
        push_text(&mut text, &quoted(&self.server));
        push_text(&mut text, ", mtu: ");
        push_decimal(&mut text, self.mtu as u64);
        push_text(&mut text, ", encryption: ");
        push_text(
            &mut text,
            match self.encryption {
                EncryptionMethod::Clear => "None",
                EncryptionMethod::Xor => "Xor",
                EncryptionMethod::Aes => "Aes",
            },
        );
        push_text(&mut text, ", receive_poll_ms: ");
        push_decimal(&mut text, self.receive_poll_ms);
        push_text(&mut text, ", reconnect: ");
        push_text(&mut text, &self.reconnect.debug_string());
        push_text(&mut text, ", segment_routing: ");
        let ghost start = text@;
        match &self.segment_routing {
            Some(path) => {
                push_text(&mut text, "Some(");
                push_text(&mut text, &path.debug_string());
                push_text(&mut text, ")");
                assert(text@ =~= start + ("Some("@ + path.shown() + ")"@));
            },
            None => push_text(&mut text, "None"),
        }
        push_text(&mut text, " }");
        text
    }

    pub fn new(server: &str) -> (config: Self)
        ensures
            config.server@ == server@,
            config.mtu == DEFAULT_MTU,
            config.encryption == EncryptionMethod::Xor,
            config.receive_poll_ms == DEFAULT_RECEIVE_POLL_MS,
            config.reconnect == (ReconnectPolicy {
                attempts: 10,
                initial_delay_ms: 1_000,
                max_delay_ms: 30_000,
            }),
            config.segment_routing is None,
            config_error(config) is None,
    {
        ClientConfig {
            server: server.to_owned(),
            mtu: DEFAULT_MTU,
            encryption: EncryptionMethod::default(),
            receive_poll_ms: DEFAULT_RECEIVE_POLL_MS,
            reconnect: ReconnectPolicy::default(),
            segment_routing: None,
        }
    }

    /// Checks settings, given what became of making the outer cipher of the
    /// segment-routing path, where there is one, and of looking the server up.
    pub fn validate(
        &self,
        cipher: Result<(), Error>,
        found: Result<Vec<SocketAddr>, Error>,
    ) -> (result: Result<(), Error>)
        ensures
            is_validation(*self, cipher, found, result),
    {
        if self.mtu < MIN_MTU || self.mtu > MAX_MTU {
            let shown = decimal_text(self.mtu as u64);
            return Err(Error::InvalidConfig(join3("MTU ", &shown, " is outside 576..=9000")));
        }
        if self.receive_poll_ms == 0 {
            return Err(invalid_config("receive_poll_ms must be greater than zero"));
        }
        if self.reconnect.max_delay_ms == 0 {
            return Err(invalid_config("reconnect.max_delay_ms must be greater than zero"));
        }
        if self.reconnect.initial_delay_ms > self.reconnect.max_delay_ms {
            return Err(
                invalid_config("reconnect.initial_delay_ms must not exceed reconnect.max_delay_ms"),
            );
        }
        if let Some(sr) = &self.segment_routing {
            match sr.validate(cipher) {
                Ok(_) => {},
                Err(error) => {
                    return Err(error);
                },
            }
        }
        match found {
            Ok(addresses) => match self.resolve_server(addresses.as_slice()) {
                Ok(_) => Ok(()),
                Err(error) => Err(error),
            },
            Err(error) => Err(error),
        }
    }

    /// The first of the addresses that the server's name resolved to.
    pub fn resolve_server(&self, addresses: &[SocketAddr]) -> (result: Result<SocketAddr, Error>)
        ensures
            match result {
                Ok(address) => addresses@.len() > 0 && address == addresses@[0],
                Err(error) => addresses@.len() == 0 && is_invalid_config(
                    error,
                    "server resolved to no address"@,
                ),
            },
    {
        if addresses.len() == 0 {
            Err(invalid_config("server resolved to no address"))
        } else {
            Ok(addresses[0])
        }
    }

    /// How long a receive waits, in milliseconds.
    pub fn receive_poll(&self) -> (millis: u64)
        ensures
            millis == self.receive_poll_ms,
    {
        self.receive_poll_ms
    }
}

/// Settings are valid where the MTU is between 576 and 9000, packets are waited for
/// at all, the longest delay is neither zero nor less than the first one, a path has
/// one to six links of one to three bytes that are not zero, its cipher can be made,
/// and the server has an address.
pub proof fn law_valid_settings(
    config: ClientConfig,
    cipher: Result<(), Error>,
    found: Result<Vec<SocketAddr>, Error>,
    result: Result<(), Error>,
)
    requires
        call_ensures(ClientConfig::validate, (&config, cipher, found), result),
    ensures
        result is Ok <==> {
            &&& 576 <= config.mtu <= 9000
            &&& config.receive_poll_ms > 0
            &&& 0 < config.reconnect.max_delay_ms
            &&& config.reconnect.initial_delay_ms <= config.reconnect.max_delay_ms
            &&& config.segment_routing matches Some(path) ==> {
                &&& 1 <= path.links@.len() <= 6
                &&& forall|i: int|
                    0 <= i < path.links@.len() ==> 0 < #[trigger] path.links@[i] < 0x100_0000
                &&& cipher is Ok
            }
            &&& found matches Ok(addresses) && addresses@.len() > 0
        },
{
}

/// A path is valid under the same conditions by itself; what it sends to be watched
/// bears its own number, or the local one where that is set and not zero.
pub proof fn law_valid_path(
    path: SegmentRoutingConfig,
    cipher: Result<(), Error>,
    result: Result<(), Error>,
    id: u32,
)
    requires
        call_ensures(SegmentRoutingConfig::validate, (&path, cipher), result),
        call_ensures(SegmentRoutingConfig::monitor_sr_id, (&path,), id),
    ensures
        result is Ok <==> 1 <= path.links@.len() <= 6 && (forall|i: int|
            0 <= i < path.links@.len() ==> 0 < #[trigger] path.links@[i] < 0x100_0000)
            && cipher is Ok,
        path.local_sr_id is None || path.local_sr_id == Some(0u32) ==> id == path.id,
        path.local_sr_id is Some && path.local_sr_id != Some(0u32) ==> path.local_sr_id == Some(
            id,
        ),
{
}

/// A new configuration has an MTU of 1400 and XOR, waits a quarter of a second for a
/// packet, and comes back ten times, after a second and then up to half a minute.
pub proof fn law_new_settings(server: &str, config: ClientConfig)
    requires
        call_ensures(ClientConfig::new, (server,), config),
    ensures
        config.server@ == server@,
        config.mtu == 1400 && config.encryption is Xor && config.receive_poll_ms == 250,
        config.reconnect.attempts == 10,
        config.reconnect.initial_delay_ms == 1_000,
        config.reconnect.max_delay_ms == 30_000,
        config.segment_routing is None,
{
}

/// The server's first address is taken.
pub proof fn law_first_address(
    config: ClientConfig,
    addresses: &[SocketAddr],
    result: Result<SocketAddr, Error>,
)
    requires
        call_ensures(ClientConfig::resolve_server, (&config, addresses), result),
    ensures
        result is Ok <==> addresses@.len() > 0,
        result matches Ok(address) ==> address == addresses@[0],
{
}

/// Why settings are refused, in the order in which they are looked at.
pub proof fn law_refused_settings(
    config: ClientConfig,
    cipher: Result<(), Error>,
    found: Result<Vec<SocketAddr>, Error>,
    error: Error,
)
    requires
        call_ensures(
            ClientConfig::validate,
            (&config, cipher, found),
            Err::<(), Error>(error),
        ),
    ensures
        ({
            let sized = 576 <= config.mtu <= 9000;
            let waits = sized && config.receive_poll_ms > 0;
            let bounded = waits && config.reconnect.max_delay_ms > 0;
            let ordered = bounded && config.reconnect.initial_delay_ms
                <= config.reconnect.max_delay_ms;
            let direct = ordered && config.segment_routing is None;
            &&& !sized ==> is_invalid_config(
                error,
                "MTU "@ + decimal(config.mtu as nat) + " is outside 576..=9000"@,
            )
            &&& sized && !waits ==> is_invalid_config(
                error,
                "receive_poll_ms must be greater than zero"@,
            )
            &&& waits && !bounded ==> is_invalid_config(
                error,
                "reconnect.max_delay_ms must be greater than zero"@,
            )
            &&& bounded && !ordered ==> is_invalid_config(
                error,
                "reconnect.initial_delay_ms must not exceed reconnect.max_delay_ms"@,
            )
            &&& direct && found is Err ==> found == Err::<Vec<SocketAddr>, Error>(error)
            &&& direct && found is Ok ==> is_invalid_config(error, "server resolved to no address"@)
            &&& (ordered && (config.segment_routing matches Some(path) && (path.links@.len() == 0
                || path.links@.len() > 6))) ==> is_invalid_config(
                error,
                "segment-routing links must contain 1..=6 IDs in 1..=0x00ffffff"@,
            )
        }),
{
}

/// Numbers in a row have a comma and a blank between each two.
pub proof fn law_numbers_in_a_row(numbers: Seq<u32>, number: u32)
    ensures
        numbers.len() == 0 ==> listed(numbers.push(number)) == decimal(number as nat),
        numbers.len() > 0 ==> listed(numbers.push(number)) == listed(numbers) + ", "@ + decimal(
            number as nat,
        ),
{
    assert(numbers.push(number).drop_last() =~= numbers);
}

/// The key of a path is not shown.
pub proof fn law_key_is_not_shown(path: SegmentRoutingConfig, text: String)
    requires
        call_ensures(SegmentRoutingConfig::debug_string, (&path,), text),
        path.encrypt_algo is Aes128,
        path.keepalive,
        path.local_sr_id is None,
    ensures
        text@ == "SegmentRoutingConfig { id: "@ + decimal(path.id as nat) + ", keepalive: "@
            + "true"@ + ", encrypt_algo: "@ + "Aes128"@
            + ", encrypt_key: \"[REDACTED]\", links: ["@ + listed(path.links@)
            + "], local_sr_id: "@ + "None"@ + " }"@,
{
}

} // verus!
