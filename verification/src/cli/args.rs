//! Values of command-line options.

use crate::config::ClientConfig;
use crate::error::{invalid_config, Error};
use crate::error::is_invalid_config;
use crate::net::{parse_ip, SocketAddr};
use crate::net::{ip_of_text, ipv4_chars, law_ipv4_read_back, IpAddr, Ipv4Addr};
use crate::protocol::EncryptionMethod;
use crate::text::{
    chars_of, ends_with, join2, join3, parse_number, quoted, split_once, string_of,
};
use crate::text::{
    decimal, has_suffix, is_digit, law_number_is_read, lemma_decimal_digits, lemma_split_first,
    number_of, occurs_at, quoted_text, split_first,
};
use vstd::prelude::*;
use vstd::slice::{slice_subrange, slice_to_vec};

verus! {

/// The number in a duration and how many milliseconds its unit has.
pub open spec fn duration_parts(text: Seq<char>) -> Option<(Seq<char>, u64)> {
    if has_suffix(text, "ms"@) {
        Some((text.take(text.len() - 2), 1))
    } else if has_suffix(text, "s"@) {
        Some((text.take(text.len() - 1), 1_000))
    } else if has_suffix(text, "m"@) {
        Some((text.take(text.len() - 1), 60_000))
    } else {
        None
    }
}

/// How many milliseconds a duration has, or the message on why it has none.
pub open spec fn duration_ms(text: Seq<char>) -> Result<u64, Seq<char>> {
    match duration_parts(text) {
        Some(parts) => match number_of(parts.0, u64::MAX) {
            Some(number) => if number * parts.1 > u64::MAX {
                Err("duration "@ + quoted_text(text) + " is too large"@)
            } else if number * parts.1 == 0 {
                Err("duration must be greater than zero"@)
            } else {
                Ok((number * parts.1) as u64)
            },
            None => Err("invalid duration "@ + quoted_text(text)),
        },
        None => Err("duration must end in ms, s, or m"@),
    }
}

/// Reads a duration such as `750ms`, `2s` or `3m`, in milliseconds.
pub fn parse_duration(value: &str) -> (result: Result<u64, String>)
    ensures
        match result {
            Ok(millis) => duration_ms(value@) == Ok::<u64, Seq<char>>(millis),
            Err(message) => duration_ms(value@) == Err::<u64, Seq<char>>(message@),
        },
{
    let chars = chars_of(value);
    proof {
        reveal_strlit("ms");
        reveal_strlit("s");
        reveal_strlit("m");
    }
    let tail_ms = chars_of("ms");
    let tail_s = chars_of("s");
    let tail_m = chars_of("m");
    let cut: usize;
    let unit: u64;
    if ends_with(chars.as_slice(), tail_ms.as_slice()) {
        cut = 2;
        unit = 1;
    } else if ends_with(chars.as_slice(), tail_s.as_slice()) {
        cut = 1;
        unit = 1_000;
    } else if ends_with(chars.as_slice(), tail_m.as_slice()) {
        cut = 1;
        unit = 60_000;
    } else {
        return Err("duration must end in ms, s, or m".to_owned());
    }
    let digits = slice_subrange(chars.as_slice(), 0, chars.len() - cut);
    assert(digits@ =~= value@.take(value@.len() - cut));
    match parse_number(digits, u64::MAX) {
        Some(number) => match number.checked_mul(unit) {
            Some(millis) => if millis == 0 {
                Err("duration must be greater than zero".to_owned())
            } else {
                Ok(millis)
            },
            None => {
                let shown = quoted(value);
                Err(join3("duration ", &shown, " is too large"))
            },
        },
        None => {
            let shown = quoted(value);
            Err(join2("invalid duration ", &shown))
        },
    }
}

/// The resolver that an option names: an address alone with the DNS port, else
/// the address and port that it writes.
pub open spec fn resolver_of(text: Seq<char>, parsed: Option<SocketAddr>) -> Result<
    SocketAddr,
    Seq<char>,
> {
    match ip_of_text(text) {
        Some(ip) => Ok(SocketAddr { ip, port: 53 }),
        None => match parsed {
            Some(address) => Ok(address),
            None => Err(
                "invalid DNS server "@ + text + ": invalid socket address syntax"@,
            ),
        },
    }
}

/// Reads a resolver. `parsed` is what the value writes as an address with a port.
pub fn parse_resolver(value: &str, parsed: Option<SocketAddr>) -> (result: Result<
    SocketAddr,
    String,
>)
    ensures
        match result {
            Ok(address) => resolver_of(value@, parsed) == Ok::<SocketAddr, Seq<char>>(address),
            Err(message) => resolver_of(value@, parsed) == Err::<SocketAddr, Seq<char>>(message@),
        },
{
    match parse_ip(value) {
        Some(ip) => Ok(SocketAddr { ip, port: 53 }),
        None => match parsed {
            Some(address) => Ok(address),
            None => Err(join3("invalid DNS server ", value, ": invalid socket address syntax")),
        },
    }
}

/// The first line of a text, without what ends it.
pub open spec fn first_line(text: Seq<char>) -> Seq<char> {
    match split_first(text, "\n"@) {
        Some(parts) => if parts.0.len() > 0 && parts.0.last() == '\r' {
            parts.0.drop_last()
        } else {
            parts.0
        },
        None => text,
    }
}

/// The password that a file holds: its first line, which must not be empty.
pub fn password_from_file(contents: &str) -> (result: Result<String, Error>)
    ensures
        match result {
            Ok(password) => first_line(contents@).len() > 0 && password@ == first_line(contents@),
            Err(error) => first_line(contents@).len() == 0 && is_invalid_config(
                error,
                "password file is empty"@,
            ),
        },
{
    let chars = chars_of(contents);
    let line: Vec<char> = match split_once(chars.as_slice(), "\n") {
        Some(parts) => {
            let mut head = parts.0;
            if head.len() > 0 && head[head.len() - 1] == '\r' {
                let cut = slice_subrange(head.as_slice(), 0, head.len() - 1);
                let shorter = slice_to_vec(cut);
                assert(shorter@ =~= head@.drop_last());
                head = shorter;
            }
            head
        },
        None => chars,
    };
    assert(line@ == first_line(contents@));
    if line.len() == 0 {
        return Err(invalid_config("password file is empty"));
    }
    Ok(string_of(line.as_slice()))
}

/// The password that need not be typed: the first line of a password file where
/// one is named, else what the environment holds, unless that is empty.
pub fn given_password(file: Option<&str>, environment: Option<String>) -> (result: Result<
    Option<String>,
    Error,
>)
    ensures
        match file {
            Some(contents) => match result {
                Ok(password) => first_line(contents@).len() > 0 && (password matches Some(kept)
                    && kept@ == first_line(contents@)),
                Err(error) => first_line(contents@).len() == 0 && is_invalid_config(
                    error,
                    "password file is empty"@,
                ),
            },
            None => result matches Ok(password) && match environment {
                Some(value) => if value@.len() > 0 {
                    password == Some(value)
                } else {
                    password is None
                },
                None => password is None,
            },
        },
{
    if let Some(contents) = file {
        return match password_from_file(contents) {
            Ok(password) => Ok(Some(password)),
            Err(error) => Err(error),
        };
    }
    match environment {
        Some(value) => {
            let chars = chars_of(&value);
            if chars.len() > 0 {
                Ok(Some(value))
            } else {
                Ok(None)
            }
        },
        None => Ok(None),
    }
}

/// A password that was typed, which must not be empty.
pub fn typed_password(password: String) -> (result: Result<String, Error>)
    ensures
        match result {
            Ok(kept) => password@.len() > 0 && kept == password,
            Err(error) => password@.len() == 0 && is_invalid_config(
                error,
                "password must not be empty"@,
            ),
        },
{
    let chars = chars_of(&password);
    if chars.len() == 0 {
        return Err(invalid_config("password must not be empty"));
    }
    Ok(password)
}

/// Settings from a file or, without one, for a server, with the options of the
/// command line over them.
pub fn merge_config(
    file: Option<ClientConfig>,
    server: Option<String>,
    mtu: Option<u16>,
    encryption: Option<EncryptionMethod>,
) -> (result: Result<ClientConfig, Error>)
    ensures
        match result {
            Ok(config) => {
                &&& file is Some || server is Some
                &&& match server {
                    Some(name) => config.server@ == name@,
                    None => config.server@ == file->Some_0.server@,
                }
                &&& match mtu {
                    Some(size) => config.mtu == size,
                    None => config.mtu == if file is Some {
                        file->Some_0.mtu
                    } else {
                        crate::config::DEFAULT_MTU
                    },
                }
                &&& match encryption {
                    Some(method) => config.encryption == method,
                    None => config.encryption == if file is Some {
                        file->Some_0.encryption
                    } else {
                        EncryptionMethod::Xor
                    },
                }
                &&& match file {
                    Some(read) => config.receive_poll_ms == read.receive_poll_ms
                        && config.reconnect == read.reconnect && config.segment_routing
                        == read.segment_routing,
                    None => config.receive_poll_ms == crate::config::DEFAULT_RECEIVE_POLL_MS
                        && config.reconnect == (crate::config::ReconnectPolicy {
                        attempts: 10,
                        initial_delay_ms: 1_000,
                        max_delay_ms: 30_000,
                    }) && config.segment_routing is None,
                }
            },
            Err(error) => file is None && server is None && is_invalid_config(
                error,
                "specify --server or --config"@,
            ),
        },
{
    let mut config = match file {
        Some(read) => read,
        None => match &server {
            Some(name) => ClientConfig::new(name),
            None => {
                return Err(invalid_config("specify --server or --config"));
            },
        },
    };
    if let Some(name) = server {
        config.server = name;
    }
    if let Some(size) = mtu {
        config.mtu = size;
    }
    if let Some(method) = encryption {
        config.encryption = method;
    }
    Ok(config)
}

/// Refuses a file of secrets that its group or others may use: `mode` holds
/// the permission bits.
pub fn check_secret_permissions(mode: u32, path: &str) -> (result: Result<(), Error>)
    ensures
        match result {
            Ok(_) => mode % 0o100 == 0,
            Err(error) => mode % 0o100 != 0 && is_invalid_config(
                error,
                path@ + ": permissions allow access by group or other users"@,
            ),
        },
{
    if mode % 0o100 != 0 {
        return Err(
            Error::InvalidConfig(
                join2(path, ": permissions allow access by group or other users"),
            ),
        );
    }
    Ok(())
}

/// A duration is a number and its unit: milliseconds, seconds or minutes.
pub proof fn law_duration_units(
    value: &str,
    number: u64,
    result: Result<u64, String>,
)
    requires
        call_ensures(parse_duration, (value,), result),
    ensures
        value@ == decimal(number as nat) + seq!['m', 's'] ==> {
            &&& number > 0 ==> result == Ok::<u64, String>(number)
            &&& number == 0 ==> result is Err
        },
        value@ == decimal(number as nat) + seq!['s'] ==> {
            &&& 0 < number * 1_000 <= u64::MAX ==> result == Ok::<u64, String>(
                (number * 1_000) as u64,
            )
            &&& number == 0 || number * 1_000 > u64::MAX ==> result is Err
        },
        value@ == decimal(number as nat) + seq!['m'] ==> {
            &&& 0 < number * 60_000 <= u64::MAX ==> result == Ok::<u64, String>(
                (number * 60_000) as u64,
            )
            &&& number == 0 || number * 60_000 > u64::MAX ==> result is Err
        },
        value@ == decimal(number as nat) ==> result is Err,
{
    reveal_strlit("ms");
    reveal_strlit("s");
    reveal_strlit("m");
    let shown = decimal(number as nat);
    lemma_decimal_digits(number as nat);
    law_number_is_read(number, u64::MAX);
    assert(is_digit(shown[shown.len() - 1]));
    if value@ == shown + seq!['m', 's'] {
        assert(value@.skip(value@.len() - 2) =~= "ms"@);
        assert(value@.take(value@.len() - 2) =~= shown);
        assert(has_suffix(value@, "ms"@));
        assert(duration_parts(value@) == Some((shown, 1u64)));
        assert(number * 1u64 == number);
    }
    if value@ == shown + seq!['s'] {
        assert(value@.skip(value@.len() - 2)[0] == shown[shown.len() - 1]);
        assert("ms"@[0] == 'm');
        assert(value@.skip(value@.len() - 1) =~= "s"@);
        assert(value@.take(value@.len() - 1) =~= shown);
    }
    if value@ == shown + seq!['m'] {
        assert(value@.skip(value@.len() - 2)[1] == 'm');
        assert("ms"@[1] == 's');
        assert(value@.skip(value@.len() - 1)[0] == 'm');
        assert("s"@[0] == 's');
        assert(value@.skip(value@.len() - 1) =~= "m"@);
        assert(value@.take(value@.len() - 1) =~= shown);
    }
    if value@ == shown {
        assert(value@.skip(value@.len() - 1)[0] == shown[shown.len() - 1]);
        assert("s"@[0] == 's' && "m"@[0] == 'm' && "ms"@[1] == 's');
        if value@.len() >= 2 {
            assert(value@.skip(value@.len() - 2)[1] == shown[shown.len() - 1]);
        }
    }
}

/// A resolver that is given by an IPv4 address alone is asked on port 53; one with a
/// port is asked there.
pub proof fn law_resolver_port(
    value: &str,
    parsed: Option<SocketAddr>,
    address: Ipv4Addr,
    result: Result<SocketAddr, String>,
)
    requires
        call_ensures(parse_resolver, (value, parsed), result),
    ensures
        value@ == ipv4_chars(address) ==> result == Ok::<SocketAddr, String>(
            SocketAddr { ip: IpAddr::V4(address), port: 53 },
        ),
        ip_of_text(value@) is None ==> {
            &&& parsed matches Some(given) ==> result == Ok::<SocketAddr, String>(given)
            &&& parsed is None ==> result is Err
        },
{
    law_ipv4_read_back(address);
}

/// A password is the first line of its file, without the line's end.
pub proof fn law_first_line(
    contents: &str,
    line: Seq<char>,
    rest: Seq<char>,
    result: Result<String, Error>,
)
    requires
        call_ensures(password_from_file, (contents,), result),
        !line.contains('\n'),
        line.len() == 0 || line.last() != '\r',
    ensures
        contents@ == line || contents@ == line + seq!['\n'] + rest || contents@ == line + seq![
            '\r',
            '\n',
        ] + rest ==> {
            &&& result is Ok <==> line.len() > 0
            &&& result matches Ok(password) ==> password@ == line
        },
{
    reveal_strlit("\n");
    let text = contents@;
    let needle = "\n"@;
    if text == line && contents@ != line + seq!['\n'] + rest && contents@ != line + seq![
        '\r',
        '\n',
    ] + rest {
        assert forall|at: int| !occurs_at(text, needle, at) by {
            if occurs_at(text, needle, at) {
                assert(text.subrange(at, at + 1)[0] == text[at]);
                assert(text[at] == '\n');
            }
        }
    } else if text == line + seq!['\n'] + rest {
        lemma_line_end(text, line, rest);
        assert(text.take(line.len() as int) =~= line);
    } else if text == line + seq!['\r', '\n'] + rest {
        let whole = line + seq!['\r'];
        assert(text =~= whole + seq!['\n'] + rest);
        assert forall|i: int| 0 <= i < whole.len() implies whole[i] != '\n' by {
            if i < line.len() {
                assert(line[i] == whole[i]);
            }
        }
        lemma_line_end(text, whole, rest);
        assert(text.take(whole.len() as int) =~= whole);
        assert(whole.drop_last() =~= line);
    }
}

proof fn lemma_line_end(text: Seq<char>, line: Seq<char>, rest: Seq<char>)
    requires
        text == line + seq!['\n'] + rest,
        !line.contains('\n'),
    ensures
        split_first(text, "\n"@) == Some((text.take(line.len() as int), text.skip(line.len() as int + 1))),
{
    reveal_strlit("\n");
    let at = line.len() as int;
    assert(text.subrange(at, at + 1) =~= "\n"@);
    assert forall|k: int| 0 <= k < at implies !occurs_at(text, "\n"@, k) by {
        if occurs_at(text, "\n"@, k) {
            assert(text.subrange(k, k + 1)[0] == line[k]);
            assert("\n"@[0] == '\n');
        }
    }
    lemma_split_first(text, "\n"@, at);
}

/// A password file counts more than the environment, and an empty password of the
/// environment counts as none; a typed one may not be empty.
pub proof fn law_password_sources(
    environment: Option<String>,
    result: Result<Option<String>, Error>,
    typed: String,
    kept: Result<String, Error>,
)
    requires
        call_ensures(given_password, (None, environment), result),
        call_ensures(typed_password, (typed,), kept),
    ensures
        environment is None ==> result == Ok::<Option<String>, Error>(None),
        environment matches Some(value) ==> {
            &&& value@.len() == 0 ==> result == Ok::<Option<String>, Error>(None)
            &&& value@.len() > 0 ==> result == Ok::<Option<String>, Error>(Some(value))
        },
        kept is Ok <==> typed@.len() > 0,
        kept matches Ok(password) ==> password == typed,
{
}

/// Options of the command line count more than the file, and the file more than the
/// defaults; without a server in either there is no configuration.
pub proof fn law_options_win(
    file: Option<ClientConfig>,
    server: Option<String>,
    mtu: Option<u16>,
    encryption: Option<EncryptionMethod>,
    result: Result<ClientConfig, Error>,
)
    requires
        call_ensures(merge_config, (file, server, mtu, encryption), result),
    ensures
        result is Err <==> file is None && server is None,
        result matches Ok(config) ==> {
            &&& server matches Some(name) ==> config.server@ == name@
            &&& server is None ==> config.server@ == file->Some_0.server@
            &&& mtu matches Some(size) ==> config.mtu == size
            &&& mtu is None && file is Some ==> config.mtu == file->Some_0.mtu
            &&& mtu is None && file is None ==> config.mtu == 1400
            &&& encryption matches Some(method) ==> config.encryption == method
            &&& encryption is None && file is Some ==> config.encryption == file->Some_0.encryption
            &&& encryption is None && file is None ==> config.encryption is Xor
            &&& file matches Some(read) ==> config.reconnect == read.reconnect
                && config.segment_routing == read.segment_routing && config.receive_poll_ms
                == read.receive_poll_ms
        },
{
}

/// A secret is used from a file that its owner alone has access to: neither the
/// group nor others may read, write or run it.
pub proof fn law_secret_files(owner: u32, others: u32, path: &str, result: Result<(), Error>)
    requires
        others < 64,
        owner < 0x400_0000,
        call_ensures(check_secret_permissions, ((owner * 64 + others) as u32, path), result),
    ensures
        result is Ok <==> others == 0,
{
}

} // verus!
