//! Interfaces and resolvers of the host.

use super::policy::{first_occurrences, law_first_occurrences};
use crate::error::{invalid_config, Error};
use crate::error::is_invalid_config;
use crate::net::{parse_ip, IpAddr, Ipv4Addr, SocketAddr};
use crate::net::{
    ip_of_text, ipv4_chars, law_ipv4_read_back, lemma_dotted_chars, loopback, multicast, unspecified,
};
use crate::text::{alphanumeric, chars_of, same_text, space, split, string_of};
use crate::text::{
    is_alphanumeric, is_digit, is_space, lemma_filter_contains, lemma_last_piece, lemma_only_piece,
    pieces, views,
};
use vstd::prelude::*;

verus! {

pub const MAX_PHYSICAL_RESOLVERS: usize = 8;

/// The interface whose DNS settings change.
#[derive(Debug, Clone)]
pub struct DnsPlatformTarget {
    pub interface_name: String,
    /// Windows `NET_LUID`; ignored on other platforms.
    pub platform_id: Option<u64>,
}

pub open spec fn is_interface_char(character: char) -> bool {
    is_alphanumeric(character) || character == '.' || character == '_' || character == '-'
}

/// A name of at most 128 characters that needs no quoting in commands.
pub open spec fn valid_interface(name: Seq<char>) -> bool {
    0 < name.len() <= 128 && forall|i: int|
        0 <= i < name.len() ==> is_interface_char(#[trigger] name[i])
}

impl DnsPlatformTarget {
    pub fn new(interface_name: &str) -> (target: Self)
        ensures
            target.interface_name@ == interface_name@,
            target.platform_id is None,
    {
        DnsPlatformTarget { interface_name: interface_name.to_owned(), platform_id: None }
    }

    pub fn with_platform_id(interface_name: &str, platform_id: u64) -> (target: Self)
        ensures
            target.interface_name@ == interface_name@,
            target.platform_id == Some(platform_id),
    {
        DnsPlatformTarget {
            interface_name: interface_name.to_owned(),
            platform_id: Some(platform_id),
        }
    }

    pub fn validate(&self) -> (result: Result<(), Error>)
        ensures
            match result {
                Ok(_) => valid_interface(self.interface_name@),
                Err(error) => !valid_interface(self.interface_name@) && is_invalid_config(
                    error,
                    "DNS interface name contains unsupported characters"@,
                ),
            },
    {
        let chars = chars_of(&self.interface_name);
        if chars.len() == 0 || chars.len() > 128 {
            return Err(invalid_config("DNS interface name contains unsupported characters"));
        }
        let mut i: usize = 0;
        while i < chars.len()
            invariant
                chars@ == self.interface_name@,
                i <= chars@.len() <= 128,
                forall|k: int| 0 <= k < i ==> is_interface_char(#[trigger] chars@[k]),
            decreases chars@.len() - i,
        {
            let character: char = chars[i];
            if !(alphanumeric(character) || character == '.' || character == '_' || character
                == '-') {
                assert(!is_interface_char(chars@[i as int]));
                return Err(invalid_config("DNS interface name contains unsupported characters"));
            }
            i += 1;
        }
        Ok(())
    }
}

/// A resolver of the host and the interface that reaches it.
#[derive(Debug, Clone)]
pub struct PhysicalResolver {
    pub address: SocketAddr,
    pub interface_name: Option<String>,
    pub interface_index: Option<u32>,
}

impl PhysicalResolver {
    pub fn new(address: IpAddr) -> (resolver: Self)
        ensures
            resolver.address == (SocketAddr { ip: address, port: 53 }),
            resolver.interface_name is None,
            resolver.interface_index is None,
    {
        PhysicalResolver {
            address: SocketAddr { ip: address, port: 53 },
            interface_name: None,
            interface_index: None,
        }
    }

    pub fn copy(&self) -> (resolver: Self)
        ensures
            resolver == *self,
    {
        PhysicalResolver {
            address: self.address,
            interface_name: match &self.interface_name {
                Some(name) => Some(name.clone()),
                None => None,
            },
            interface_index: self.interface_index,
        }
    }
}

/// Whether an address can be that of a resolver outside the host.
pub open spec fn is_physical(address: IpAddr) -> bool {
    !unspecified(address) && !loopback(address) && !multicast(address)
}

/// The usable ones of discovered addresses, each once, as many as are kept.
pub open spec fn physical_addresses(found: Seq<IpAddr>) -> Seq<IpAddr> {
    let distinct = first_occurrences(found.filter(|address: IpAddr| is_physical(address)));
    if distinct.len() > MAX_PHYSICAL_RESOLVERS {
        distinct.take(MAX_PHYSICAL_RESOLVERS as int)
    } else {
        distinct
    }
}

/// Keeps the usable ones of discovered resolver addresses.
pub fn select_physical_addresses(found: &[IpAddr]) -> (kept: Vec<IpAddr>)
    ensures
        kept@ == physical_addresses(found@),
        kept@.len() <= MAX_PHYSICAL_RESOLVERS,
{
    let mut kept: Vec<IpAddr> = Vec::new();
    let mut i: usize = 0;
    let ghost keep = |address: IpAddr| is_physical(address);
    proof {
        reveal(Seq::filter);
        assert(found@.take(0) =~= Seq::<IpAddr>::empty());
        assert(found@.take(0).filter(keep) =~= Seq::<IpAddr>::empty());
    }
    while i < found.len()
        invariant
            i <= found@.len(),
            keep == (|address: IpAddr| is_physical(address)),
            kept@ == first_occurrences(found@.take(i as int).filter(keep)),
        decreases found@.len() - i,
    {
        let address = found[i];
        let ghost before = found@.take(i as int).filter(keep);
        proof {
            reveal(Seq::filter);
            assert(found@.take(i + 1).drop_last() =~= found@.take(i as int));
            assert(found@.take(i + 1).last() == address);
        }
        if !address.is_unspecified() && !address.is_loopback() && !address.is_multicast() {
            let mut seen = false;
            let mut k: usize = 0;
            while k < kept.len() && !seen
                invariant
                    k <= kept@.len(),
                    seen == (exists|j: int| 0 <= j < k && kept@[j] == address),
                decreases kept@.len() - k,
            {
                if kept[k] == address {
                    seen = true;
                }
                k += 1;
            }
            assert(seen == kept@.contains(address));
            assert(before.push(address).drop_last() =~= before);
            if !seen {
                kept.push(address);
            }
        }
        i += 1;
    }
    assert(found@.take(i as int) =~= found@);
    kept.truncate(MAX_PHYSICAL_RESOLVERS);
    assert(kept@ =~= physical_addresses(found@));
    kept
}

/// A text up to the first occurrence of a character.
pub open spec fn before_char(text: Seq<char>, character: char) -> Seq<char> {
    pieces(text, character)[0]
}

/// The fields of a line: the pieces between white space that are not empty.
pub open spec fn fields(line: Seq<char>) -> Seq<Seq<char>>
    decreases line.len(),
{
    if line.len() == 0 {
        Seq::empty()
    } else {
        let rest = line.drop_last();
        let before = fields(rest);
        if is_space(line.last()) {
            before
        } else if rest.len() > 0 && !is_space(rest.last()) {
            before.drop_last().push(before.last().push(line.last()))
        } else {
            before.push(seq![line.last()])
        }
    }
}

pub fn split_fields(line: &[char]) -> (parts: Vec<Vec<char>>)
    ensures
        views(parts@) == fields(line@),
{
    let mut parts: Vec<Vec<char>> = Vec::new();
    let mut i: usize = 0;
    let mut inside = false;
    let mut current: Vec<char> = Vec::new();
    assert(line@.take(0) =~= Seq::<char>::empty());
    assert(views(parts@) =~= fields(line@.take(0)));
    while i < line.len()
        invariant
            i <= line@.len(),
            inside == (i > 0 && !is_space(line@[i - 1])),
            inside ==> views(parts@).push(current@) == fields(line@.take(i as int)),
            !inside ==> views(parts@) == fields(line@.take(i as int)) && current@.len() == 0,
        decreases line@.len() - i,
    {
        let character: char = line[i];
        let ghost before = fields(line@.take(i as int));
        let ghost head = views(parts@);
        let ghost field = current@;
        proof {
            let more = line@.take(i + 1);
            assert(more.drop_last() =~= line@.take(i as int));
            assert(more.last() == character);
            if i > 0 {
                assert(line@.take(i as int).last() == line@[i - 1]);
            }
            if inside {
                assert(before.drop_last() =~= head);
            }
        }
        if space(character) {
            if inside {
                parts.push(current);
                current = Vec::new();
                assert(views(parts@) =~= head.push(field));
            }
            inside = false;
        } else {
            current.push(character);
            assert(!inside ==> current@ =~= seq![character]);
            inside = true;
        }
        i += 1;
    }
    assert(line@.take(i as int) =~= line@);
    if inside {
        let ghost head = views(parts@);
        let ghost field = current@;
        parts.push(current);
        assert(views(parts@) =~= head.push(field));
    }
    parts
}

/// The address that a line of a resolver configuration names, if it names one.
pub open spec fn line_address(line: Seq<char>) -> Option<IpAddr> {
    let parts = fields(before_char(line, '#'));
    if parts.len() >= 2 && parts[0] == "nameserver"@ {
        ip_of_text(parts[1])
    } else {
        None
    }
}

/// The addresses that lines name.
pub open spec fn line_addresses(lines: Seq<Seq<char>>) -> Seq<IpAddr>
    decreases lines.len(),
{
    if lines.len() == 0 {
        Seq::empty()
    } else {
        let before = line_addresses(lines.drop_last());
        match line_address(lines.last()) {
            Some(address) => before.push(address),
            None => before,
        }
    }
}

/// The resolver addresses that a resolver configuration names, in order.
/// Comments begin at `#`.
pub fn parse_resolv_conf(contents: &str) -> (addresses: Vec<IpAddr>)
    ensures
        addresses@ == line_addresses(pieces(contents@, '\n')),
{
    let chars = chars_of(contents);
    let lines = split(chars.as_slice(), '\n');
    let ghost all = pieces(contents@, '\n');
    let mut addresses: Vec<IpAddr> = Vec::new();
    let mut i: usize = 0;
    assert(all.take(0) =~= Seq::<Seq<char>>::empty());
    while i < lines.len()
        invariant
            all == pieces(contents@, '\n'),
            views(lines@) == all,
            i <= lines@.len(),
            addresses@ == line_addresses(all.take(i as int)),
        decreases lines@.len() - i,
    {
        proof {
            assert(all.take(i + 1).drop_last() =~= all.take(i as int));
            assert(all.take(i + 1).last() == lines@[i as int]@);
        }
        let cut = split(lines[i].as_slice(), '#');
        assert(views(cut@)[0] == cut@[0]@);
        let parts = split_fields(cut[0].as_slice());
        let ghost words = fields(before_char(all[i as int], '#'));
        assert(views(parts@) == words);
        if parts.len() >= 2 {
            assert(views(parts@)[0] == parts@[0]@ && views(parts@)[1] == parts@[1]@);
            let keyword = string_of(parts[0].as_slice());
            if same_text(&keyword, "nameserver") {
                let value = string_of(parts[1].as_slice());
                match parse_ip(&value) {
                    Some(address) => {
                        addresses.push(address);
                    },
                    None => {},
                }
            }
        }
        i += 1;
    }
    assert(all.take(i as int) =~= all);
    addresses
}

/// The lines that name servers to a resolver configuration tool.
pub open spec fn nameserver_lines(servers: Seq<Ipv4Addr>) -> Seq<char>
    decreases servers.len(),
{
    if servers.len() == 0 {
        Seq::empty()
    } else {
        nameserver_lines(servers.drop_last()) + "nameserver "@ + ipv4_chars(servers.last()) + seq![
            '\n',
        ]
    }
}

pub fn resolvconf_input(servers: &[Ipv4Addr]) -> (input: String)
    ensures
        input@ == nameserver_lines(servers@),
{
    let mut input = String::new();
    let mut i: usize = 0;
    assert(servers@.take(0) =~= Seq::<Ipv4Addr>::empty());
    while i < servers.len()
        invariant
            i <= servers@.len(),
            input@ == nameserver_lines(servers@.take(i as int)),
        decreases servers@.len() - i,
    {
        assert(servers@.take(i + 1).drop_last() =~= servers@.take(i as int));
        let ghost before = input@;
        crate::text::push_text(&mut input, "nameserver ");
        let shown = crate::net::ipv4_text(servers[i]);
        crate::text::push_text(&mut input, &shown);
        input.push('\n');
        assert(input@ =~= before + "nameserver "@ + ipv4_chars(servers@[i as int]) + seq!['\n']);
        i += 1;
    }
    assert(servers@.take(i as int) =~= servers@);
    input
}

/// An interface's name has one to 128 characters: letters and digits of ASCII, dots,
/// underscores and hyphens.
pub proof fn law_interface_names(target: DnsPlatformTarget, result: Result<(), Error>)
    requires
        call_ensures(DnsPlatformTarget::validate, (&target,), result),
    ensures
        result is Ok <==> 1 <= target.interface_name@.len() <= 128 && (forall|i: int|
            0 <= i < target.interface_name@.len() ==> {
                let c = #[trigger] target.interface_name@[i];
                'a' <= c <= 'z' || 'A' <= c <= 'Z' || '0' <= c <= '9' || c == '.' || c == '_' || c
                    == '-'
            }),
{
    let name = target.interface_name@;
    assert forall|c: char| is_interface_char(c) <==> ('a' <= c <= 'z' || 'A' <= c <= 'Z' || '0' <= c
        <= '9' || c == '.' || c == '_' || c == '-') by {
        crate::text::lemma_char_code(c);
    }
    if valid_interface(name) {
        assert forall|i: int| 0 <= i < name.len() implies {
            let c = #[trigger] name[i];
            'a' <= c <= 'z' || 'A' <= c <= 'Z' || '0' <= c <= '9' || c == '.' || c == '_' || c
                == '-'
        } by {
            assert(is_interface_char(name[i]));
        }
    }
}

/// Resolvers of the host's own links: addresses of other hosts, each once, and eight
/// at most; those that are found first are kept.
pub proof fn law_physical_resolvers(found: &[IpAddr], kept: Vec<IpAddr>, address: IpAddr)
    requires
        call_ensures(select_physical_addresses, (found,), kept),
    ensures
        kept@.len() <= 8,
        kept@.contains(address) ==> found@.contains(address) && (match address {
            IpAddr::V4(v4) => v4.bits != 0 && !(0x7f00_0000 <= v4.bits <= 0x7fff_ffff) && !(
            0xe000_0000 <= v4.bits <= 0xefff_ffff),
            IpAddr::V6(v6) => v6.bits > 1 && v6.bits < 0xff00_0000_0000_0000_0000_0000_0000_0000,
        }),
        kept@.len() < 8 && found@.contains(address) && (match address {
            IpAddr::V4(v4) => v4.bits != 0 && !(0x7f00_0000 <= v4.bits <= 0x7fff_ffff) && !(
            0xe000_0000 <= v4.bits <= 0xefff_ffff),
            IpAddr::V6(v6) => v6.bits > 1 && v6.bits < 0xff00_0000_0000_0000_0000_0000_0000_0000,
        }) ==> kept@.contains(address),
{
    let wanted = |address: IpAddr| is_physical(address);
    let list = found@.filter(wanted);
    lemma_filter_contains(found@, wanted, address);
    law_first_occurrences(list);
    let distinct = first_occurrences(list);
    assert(distinct.contains(address) == list.contains(address));
    if kept@.contains(address) {
        let i = choose|i: int| 0 <= i < kept@.len() && kept@[i] == address;
        assert(distinct[i] == address);
    }
}

/// The words of a line are what stands between its spaces.
pub proof fn law_words(line: Seq<char>, gap: char, word: Seq<char>)
    requires
        is_space(gap),
        word.len() > 0,
        forall|i: int| 0 <= i < word.len() ==> !is_space(#[trigger] word[i]),
    ensures
        fields(line.push(gap)) == fields(line),
        fields(line.push(gap) + word) == fields(line).push(word),
        fields(word) == seq![word],
    decreases word.len(),
{
    assert(line.push(gap).drop_last() =~= line);
    let rest = word.drop_last();
    let whole = line.push(gap) + word;
    assert(whole.drop_last() =~= line.push(gap) + rest);
    assert(whole.last() == word.last());
    assert(!is_space(word[word.len() - 1]));
    let front = line.push(gap) + rest;
    let before = fields(front);
    assert(fields(line.push(gap)) == fields(line));
    if rest.len() == 0 {
        assert(front =~= line.push(gap));
        assert(front.last() == gap);
        assert(word =~= seq![word.last()]);
        assert(fields(whole) == before.push(seq![word.last()]));
        assert(fields(whole) =~= fields(line).push(word));
        assert(rest =~= Seq::<char>::empty());
        assert(fields(rest) =~= Seq::<Seq<char>>::empty());
        assert(fields(word) =~= seq![word]);
    } else {
        assert forall|i: int| 0 <= i < rest.len() implies !is_space(#[trigger] rest[i]) by {
            assert(rest[i] == word[i]);
        }
        law_words(line, gap, rest);
        assert(front.last() == rest.last());
        assert(!is_space(rest[rest.len() - 1]));
        assert(rest.push(word.last()) =~= word);
        assert(before == fields(line).push(rest));
        assert(fields(whole) == before.drop_last().push(before.last().push(word.last())));
        assert(fields(line).push(rest).drop_last() =~= fields(line));
        assert(seq![rest].drop_last() =~= Seq::<Seq<char>>::empty());
        assert(fields(word) =~= seq![word]);
    }
}

proof fn lemma_no_space_in_address(address: Ipv4Addr)
    ensures
        ipv4_chars(address).len() > 0,
        forall|i: int|
            0 <= i < ipv4_chars(address).len() ==> !is_space(#[trigger] ipv4_chars(address)[i])
                && ipv4_chars(address)[i] != '#' && ipv4_chars(address)[i] != '\n',
{
    lemma_dotted_chars(address);
    assert forall|i: int| 0 <= i < ipv4_chars(address).len() implies !is_space(
        #[trigger] ipv4_chars(address)[i],
    ) && ipv4_chars(address)[i] != '#' && ipv4_chars(address)[i] != '\n' by {
        let c = ipv4_chars(address)[i];
        crate::text::lemma_char_code(c);
        assert(is_digit(c) || c == '.');
    }
}

/// A line of resolver settings that names a server adds it to those before; a line
/// that is a comment adds none.
pub proof fn law_resolver_lines(
    before: &str,
    contents: &str,
    first: Vec<IpAddr>,
    all: Vec<IpAddr>,
    address: Ipv4Addr,
    comment: Seq<char>,
)
    requires
        call_ensures(parse_resolv_conf, (before,), first),
        call_ensures(parse_resolv_conf, (contents,), all),
        !comment.contains('\n'),
    ensures
        contents@ == before@ + seq!['\n'] + ("nameserver"@.push(' ') + ipv4_chars(address))
            ==> all@ == first@.push(IpAddr::V4(address)),
        contents@ == before@ + seq!['\n'] + (seq!['#'] + comment) ==> all@ == first@,
{
    let server = "nameserver"@.push(' ') + ipv4_chars(address);
    if contents@ == before@ + seq!['\n'] + server {
        reveal_strlit("nameserver");
        lemma_no_space_in_address(address);
        let word = "nameserver"@;
        assert forall|i: int| 0 <= i < word.len() implies !is_space(#[trigger] word[i]) && word[i]
            != '\n' && word[i] != '#' by {}
        assert forall|i: int| 0 <= i < server.len() implies server[i] != '\n' && server[i]
            != '#' by {
            if i < word.len() {
                assert(server[i] == word[i]);
            } else if i > word.len() {
                assert(server[i] == ipv4_chars(address)[i - word.len() - 1]);
            }
        }
        lemma_last_piece(before@, '\n', server);
        lemma_only_piece(server, '#');
        law_words(word, ' ', ipv4_chars(address));
        law_words(Seq::empty(), ' ', word);
        law_ipv4_read_back(address);
        assert(fields(server) == seq![word].push(ipv4_chars(address)));
        let lines = pieces(before@, '\n');
        assert(lines.push(server).drop_last() =~= lines);
    }
    let remark = seq!['#'] + comment;
    if contents@ == before@ + seq!['\n'] + remark {
        assert forall|i: int| 0 <= i < remark.len() implies remark[i] != '\n' by {
            if i > 0 {
                assert(remark[i] == comment[i - 1]);
            }
        }
        lemma_last_piece(before@, '\n', remark);
        lemma_comment_is_empty(comment);
        let lines = pieces(before@, '\n');
        assert(lines.push(remark).drop_last() =~= lines);
        assert(fields(Seq::<char>::empty()) =~= Seq::<Seq<char>>::empty());
    }
}

proof fn lemma_comment_is_empty(comment: Seq<char>)
    ensures
        before_char(seq!['#'] + comment, '#') == Seq::<char>::empty(),
        pieces(seq!['#'] + comment, '#').len() >= 2,
    decreases comment.len(),
{
    let text = seq!['#'] + comment;
    if comment.len() == 0 {
        assert(text =~= seq!['#']);
        assert(text.drop_last() =~= Seq::<char>::empty());
        assert(pieces(Seq::<char>::empty(), '#') =~= seq![Seq::<char>::empty()]);
    } else {
        lemma_comment_is_empty(comment.drop_last());
        assert(text.drop_last() =~= seq!['#'] + comment.drop_last());
    }
}

/// What the host's resolvers are told: one line for each server, in their order.
pub proof fn law_resolvconf_input(
    servers: &[Ipv4Addr],
    more: &[Ipv4Addr],
    input: String,
    longer: String,
    server: Ipv4Addr,
)
    requires
        call_ensures(resolvconf_input, (servers,), input),
        call_ensures(resolvconf_input, (more,), longer),
        more@ == servers@.push(server),
    ensures
        longer@ == input@ + "nameserver "@ + ipv4_chars(server) + seq!['\n'],
        servers@.len() == 0 ==> input@.len() == 0,
{
    assert(more@.drop_last() =~= servers@);
}

/// A resolver is asked on port 53.
pub proof fn law_resolver_port(address: IpAddr, resolver: PhysicalResolver)
    requires
        call_ensures(PhysicalResolver::new, (address,), resolver),
    ensures
        resolver.address.ip == address && resolver.address.port == 53,
        resolver.interface_name is None && resolver.interface_index is None,
{
}

} // verus!
