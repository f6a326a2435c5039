//! Which DNS servers a session uses and which names go through the tunnel.

use crate::error::{invalid_config, Error};
use crate::error::is_invalid_config;
use crate::net::{ipv4_text, IpAddr, Ipv4Addr};
use crate::net::ipv4_chars;
use crate::text::{
    alphanumeric, chars_of, copy_texts, ends_with, join3, quoted, replace, same_chars, same_text, split,
    string_of, strip_trailing, to_lower, trim, trim_lower,
};
use crate::text::{
    has_suffix, is_alphanumeric, is_space, lower, lower_char, pieces, quoted_text, replaced, texts,
    trimmed, upper, views, without_trailing,
};
use std::str::FromStr;
use vstd::prelude::*;
use vstd::slice::{slice_subrange, slice_to_vec};

verus! {

pub const MAX_DOMAIN_RULES: usize = 100_000;

/// Where the DNS servers of a session come from.
#[derive(Debug, Clone, Copy, PartialEq, Eq, Structural)]
pub enum DnsServerMode {
    Server,
    Custom,
    Disabled,
}

impl Default for DnsServerMode {
    fn default() -> (mode: Self)
        ensures
            mode == DnsServerMode::Server,
    {
        DnsServerMode::Server
    }
}

/// The server mode that a text names.
pub open spec fn server_mode_of(text: Seq<char>) -> Option<DnsServerMode> {
    let name = lower(trimmed(text));
    if name == "server"@ {
        Some(DnsServerMode::Server)
    } else if name == "custom"@ {
        Some(DnsServerMode::Custom)
    } else if name == "disabled"@ || name == "disable"@ {
        Some(DnsServerMode::Disabled)
    } else {
        None
    }
}

impl DnsServerMode {
    pub fn parse(value: &str) -> (result: Result<Self, Error>)
        ensures
            match result {
                Ok(mode) => server_mode_of(value@) == Some(mode),
                Err(error) => server_mode_of(value@) is None && is_invalid_config(
                    error,
                    "invalid DNS mode "@ + quoted_text(value@)
                        + "; expected server, custom, or disabled"@,
                ),
            },
    {
        let name = trim_lower(value);
        if same_text(&name, "server") {
            Ok(DnsServerMode::Server)
        } else if same_text(&name, "custom") {
            Ok(DnsServerMode::Custom)
        } else if same_text(&name, "disabled") || same_text(&name, "disable") {
            Ok(DnsServerMode::Disabled)
        } else {
            let shown = quoted(value);
            Err(
                Error::InvalidConfig(
                    join3("invalid DNS mode ", &shown, "; expected server, custom, or disabled"),
                ),
            )
        }
    }
}

impl FromStr for DnsServerMode {
    type Err = Error;

    fn from_str(value: &str) -> Result<Self, Error> {
        DnsServerMode::parse(value)
    }
}

/// How the server list of a managed network sets DNS.
#[derive(Debug, Clone, Copy, PartialEq, Eq, Structural)]
pub enum ServerListDnsMode {
    Auto,
    Custom,
    Disabled,
}

impl Default for ServerListDnsMode {
    fn default() -> (mode: Self)
        ensures
            mode == ServerListDnsMode::Auto,
    {
        ServerListDnsMode::Auto
    }
}

impl ServerListDnsMode {
    /// Reads a server-list value; unknown values count as `auto`.
    pub fn from_server_value(value: &str) -> (mode: Self)
        ensures
            mode == ({
                let name = lower(trimmed(value@));
                if name == "custom"@ {
                    ServerListDnsMode::Custom
                } else if name == "disable"@ || name == "disabled"@ {
                    ServerListDnsMode::Disabled
                } else {
                    ServerListDnsMode::Auto
                }
            }),
    {
        let name = trim_lower(value);
        if same_text(&name, "custom") {
            ServerListDnsMode::Custom
        } else if same_text(&name, "disable") || same_text(&name, "disabled") {
            ServerListDnsMode::Disabled
        } else {
            ServerListDnsMode::Auto
        }
    }
}

/// Which names a session resolves through the tunnel.
#[derive(Debug, Clone, Copy, PartialEq, Eq, Structural)]
pub enum SplitDnsMode {
    Off,
    TunnelAll,
    Managed,
    Custom,
}

impl Default for SplitDnsMode {
    fn default() -> (mode: Self)
        ensures
            mode == SplitDnsMode::Off,
    {
        SplitDnsMode::Off
    }
}

/// The split mode that a text names.
pub open spec fn split_mode_of(text: Seq<char>) -> Option<SplitDnsMode> {
    let name = replaced(lower(trimmed(text)), '-', '_');
    if name == "off"@ || name == "disabled"@ {
        Some(SplitDnsMode::Off)
    } else if name == "tunnel_all"@ {
        Some(SplitDnsMode::TunnelAll)
    } else if name == "managed"@ {
        Some(SplitDnsMode::Managed)
    } else if name == "custom"@ {
        Some(SplitDnsMode::Custom)
    } else {
        None
    }
}

impl SplitDnsMode {
    pub fn parse(value: &str) -> (result: Result<Self, Error>)
        ensures
            match result {
                Ok(mode) => split_mode_of(value@) == Some(mode),
                Err(error) => split_mode_of(value@) is None && is_invalid_config(
                    error,
                    "invalid split-DNS mode "@ + quoted_text(value@)
                        + "; expected off, tunnel-all, managed, or custom"@,
                ),
            },
    {
        let plain = trim_lower(value);
        let name = replace(&plain, '-', '_');
        if same_text(&name, "off") || same_text(&name, "disabled") {
            Ok(SplitDnsMode::Off)
        } else if same_text(&name, "tunnel_all") {
            Ok(SplitDnsMode::TunnelAll)
        } else if same_text(&name, "managed") {
            Ok(SplitDnsMode::Managed)
        } else if same_text(&name, "custom") {
            Ok(SplitDnsMode::Custom)
        } else {
            let shown = quoted(value);
            Err(
                Error::InvalidConfig(
                    join3(
                        "invalid split-DNS mode ",
                        &shown,
                        "; expected off, tunnel-all, managed, or custom",
                    ),
                ),
            )
        }
    }
}

impl FromStr for SplitDnsMode {
    type Err = Error;

    fn from_str(value: &str) -> Result<Self, Error> {
        SplitDnsMode::parse(value)
    }
}

/// What happens to encrypted DNS.
#[derive(Debug, Clone, Copy, PartialEq, Eq, Structural)]
pub enum EncryptedDnsMode {
    Inherit,
    Block,
    Allow,
}

impl Default for EncryptedDnsMode {
    fn default() -> (mode: Self)
        ensures
            mode == EncryptedDnsMode::Inherit,
    {
        EncryptedDnsMode::Inherit
    }
}

/// The encrypted-DNS mode that a text names.
pub open spec fn encrypted_mode_of(text: Seq<char>) -> Option<EncryptedDnsMode> {
    let name = lower(trimmed(text));
    if name == "inherit"@ {
        Some(EncryptedDnsMode::Inherit)
    } else if name == "block"@ {
        Some(EncryptedDnsMode::Block)
    } else if name == "allow"@ {
        Some(EncryptedDnsMode::Allow)
    } else {
        None
    }
}

impl EncryptedDnsMode {
    pub fn parse(value: &str) -> (result: Result<Self, Error>)
        ensures
            match result {
                Ok(mode) => encrypted_mode_of(value@) == Some(mode),
                Err(error) => encrypted_mode_of(value@) is None && is_invalid_config(
                    error,
                    "invalid encrypted-DNS mode "@ + quoted_text(value@)
                        + "; expected inherit, block, or allow"@,
                ),
            },
    {
        let name = trim_lower(value);
        if same_text(&name, "inherit") {
            Ok(EncryptedDnsMode::Inherit)
        } else if same_text(&name, "block") {
            Ok(EncryptedDnsMode::Block)
        } else if same_text(&name, "allow") {
            Ok(EncryptedDnsMode::Allow)
        } else {
            let shown = quoted(value);
            Err(
                Error::InvalidConfig(
                    join3(
                        "invalid encrypted-DNS mode ",
                        &shown,
                        "; expected inherit, block, or allow",
                    ),
                ),
            )
        }
    }
}

impl FromStr for EncryptedDnsMode {
    type Err = Error;

    fn from_str(value: &str) -> Result<Self, Error> {
        EncryptedDnsMode::parse(value)
    }
}

/// How a domain rule compares names.
#[derive(Debug, Clone, Copy, PartialEq, Eq, Hash, Structural)]
pub enum DomainRuleKind {
    /// `*` and no prefix: the name ends with the domain as a string.
    Suffix,
    /// `@`: the domain itself or a name below it.
    Domain,
    /// `^`: the domain itself only.
    Exact,
}

/// A rule on domain names.
#[derive(Debug)]
pub struct DomainRule {
    kind: DomainRuleKind,
    domain: String,
    explicit_prefix: bool,
}

/// What a domain rule says.
#[verifier::ext_equal]
pub struct DomainRuleView {
    pub kind: DomainRuleKind,
    pub domain: Seq<char>,
    pub explicit_prefix: bool,
}

impl View for DomainRule {
    type V = DomainRuleView;

    closed spec fn view(&self) -> DomainRuleView {
        DomainRuleView {
            kind: self.kind,
            domain: self.domain@,
            explicit_prefix: self.explicit_prefix,
        }
    }
}

/// A name without white space around it and dots behind it, in lower case.
pub open spec fn normalized(text: Seq<char>) -> Seq<char> {
    lower(without_trailing(trimmed(text), '.'))
}

fn normalize_chars(value: &str) -> (name: Vec<char>)
    ensures
        name@ == normalized(value@),
{
    let chars = chars_of(value);
    let kept = trim(chars.as_slice());
    let bare = strip_trailing(kept.as_slice(), '.');
    to_lower(bare.as_slice())
}

pub fn normalize_name(value: &str) -> (name: String)
    ensures
        name@ == normalized(value@),
{
    let chars = normalize_chars(value);
    string_of(chars.as_slice())
}

pub open spec fn is_label_char(character: char) -> bool {
    is_alphanumeric(character) || character == '-' || character == '_'
}

pub open spec fn valid_label(label: Seq<char>) -> bool {
    0 < label.len() <= 63 && forall|i: int| 0 <= i < label.len() ==> is_label_char(#[trigger] label[i])
}

/// A domain name of at most 253 characters whose labels are all valid.
pub open spec fn valid_name(name: Seq<char>) -> bool {
    name.len() <= 253 && forall|i: int|
        0 <= i < pieces(name, '.').len() ==> valid_label(#[trigger] pieces(name, '.')[i])
}

fn label_is_valid(label: &Vec<char>) -> (answer: bool)
    ensures
        answer == valid_label(label@),
{
    if label.len() == 0 || label.len() > 63 {
        return false;
    }
    let mut i: usize = 0;
    while i < label.len()
        invariant
            i <= label@.len(),
            forall|k: int| 0 <= k < i ==> is_label_char(#[trigger] label@[k]),
        decreases label@.len() - i,
    {
        let character: char = label[i];
        if !(alphanumeric(character) || character == '-' || character == '_') {
            return false;
        }
        i += 1;
    }
    true
}

fn name_is_valid(name: &[char]) -> (answer: bool)
    ensures
        answer == valid_name(name@),
{
    if name.len() > 253 {
        return false;
    }
    let labels = split(name, '.');
    let mut i: usize = 0;
    while i < labels.len()
        invariant
            views(labels@) == pieces(name@, '.'),
            i <= labels@.len(),
            forall|k: int| 0 <= k < i ==> valid_label(#[trigger] pieces(name@, '.')[k]),
        decreases labels@.len() - i,
    {
        assert(labels@[i as int]@ == pieces(name@, '.')[i as int]);
        if !label_is_valid(&labels[i]) {
            return false;
        }
        i += 1;
    }
    true
}

/// The message on an invalid name.
pub open spec fn invalid_name_message(label: Seq<char>, name: Seq<char>) -> Seq<char> {
    "invalid "@ + label + " "@ + quoted_text(name)
}

pub fn validate_name(value: &str, label: &str) -> (result: Result<(), Error>)
    ensures
        match result {
            Ok(_) => valid_name(value@),
            Err(error) => !valid_name(value@) && is_invalid_config(
                error,
                invalid_name_message(label@, value@),
            ),
        },
{
    let chars = chars_of(value);
    if name_is_valid(chars.as_slice()) {
        Ok(())
    } else {
        let shown = quoted(value);
        let head = join3("invalid ", label, " ");
        let message = join3(&head, &shown, "");
        assert("".view() =~= Seq::<char>::empty()) by {
            reveal_strlit("");
        }
        assert(message@ =~= invalid_name_message(label@, value@));
        Err(Error::InvalidConfig(message))
    }
}

/// The kind, the domain and whether there was a prefix, of a normalized rule text.
pub open spec fn rule_parts(name: Seq<char>) -> DomainRuleView {
    if name[0] == '*' {
        DomainRuleView {
            kind: DomainRuleKind::Suffix,
            domain: name.skip(1),
            explicit_prefix: true,
        }
    } else if name[0] == '@' {
        DomainRuleView {
            kind: DomainRuleKind::Domain,
            domain: name.skip(1),
            explicit_prefix: true,
        }
    } else if name[0] == '^' {
        DomainRuleView { kind: DomainRuleKind::Exact, domain: name.skip(1), explicit_prefix: true }
    } else {
        DomainRuleView { kind: DomainRuleKind::Suffix, domain: name, explicit_prefix: false }
    }
}

/// The rule that a text writes down, or the message on why it writes down none.
pub open spec fn parsed_rule(text: Seq<char>) -> Result<DomainRuleView, Seq<char>> {
    let name = normalized(text);
    if name.len() == 0 {
        Err("DNS domain rule must not be empty"@)
    } else if valid_name(rule_parts(name).domain) {
        Ok(rule_parts(name))
    } else {
        Err(invalid_name_message("DNS domain rule"@, rule_parts(name).domain))
    }
}

/// Whether a rule covers a name.
pub open spec fn rule_matches(rule: DomainRuleView, candidate: Seq<char>) -> bool {
    let name = normalized(candidate);
    match rule.kind {
        DomainRuleKind::Suffix => has_suffix(name, rule.domain),
        DomainRuleKind::Domain => name == rule.domain || has_suffix(name, seq!['.'] + rule.domain),
        DomainRuleKind::Exact => name == rule.domain,
    }
}

/// How a rule is written down.
pub open spec fn rule_text(rule: DomainRuleView) -> Seq<char> {
    match rule.kind {
        DomainRuleKind::Suffix => if rule.explicit_prefix {
            seq!['*'] + rule.domain
        } else {
            rule.domain
        },
        DomainRuleKind::Domain => seq!['@'] + rule.domain,
        DomainRuleKind::Exact => seq!['^'] + rule.domain,
    }
}

impl Clone for DomainRule {
    fn clone(&self) -> (copy: Self)
        ensures
            copy@ == self@,
    {
        DomainRule {
            kind: self.kind,
            domain: self.domain.clone(),
            explicit_prefix: self.explicit_prefix,
        }
    }
}

impl DomainRule {
    pub fn parse(value: &str) -> (result: Result<Self, Error>)
        ensures
            match result {
                Ok(rule) => parsed_rule(value@) == Ok::<DomainRuleView, Seq<char>>(rule@),
                Err(error) => parsed_rule(value@) matches Err(message) && is_invalid_config(
                    error,
                    message,
                ),
            },
    {
        let name = normalize_chars(value);
        if name.len() == 0 {
            return Err(invalid_config("DNS domain rule must not be empty"));
        }
        let first: char = name[0];
        let (kind, explicit_prefix) = if first == '*' {
            (DomainRuleKind::Suffix, true)
        } else if first == '@' {
            (DomainRuleKind::Domain, true)
        } else if first == '^' {
            (DomainRuleKind::Exact, true)
        } else {
            (DomainRuleKind::Suffix, false)
        };
        let start: usize = if explicit_prefix {
            1
        } else {
            0
        };
        let part = slice_subrange(name.as_slice(), start, name.len());
        let domain = string_of(part);
        assert(domain@ =~= rule_parts(name@).domain);
        match validate_name(&domain, "DNS domain rule") {
            Ok(_) => {
                let rule = DomainRule { kind, domain, explicit_prefix };
                assert(rule@ =~= rule_parts(name@));
                Ok(rule)
            },
            Err(error) => Err(error),
        }
    }

    pub fn kind(&self) -> (kind: DomainRuleKind)
        ensures
            kind == self@.kind,
    {
        self.kind
    }

    pub fn domain(&self) -> (domain: &str)
        ensures
            domain@ == self@.domain,
    {
        self.domain.as_str()
    }

    pub fn matches(&self, candidate: &str) -> (answer: bool)
        ensures
            answer == rule_matches(self@, candidate@),
    {
        let name = normalize_chars(candidate);
        let domain = chars_of(&self.domain);
        match self.kind {
            DomainRuleKind::Suffix => ends_with(name.as_slice(), domain.as_slice()),
            DomainRuleKind::Domain => {
                if same_chars(name.as_slice(), domain.as_slice()) {
                    return true;
                }
                let mut below: Vec<char> = Vec::new();
                below.push('.');
                let mut rest = chars_of(&self.domain);
                below.append(&mut rest);
                assert(below@ =~= seq!['.'] + self@.domain);
                ends_with(name.as_slice(), below.as_slice())
            },
            DomainRuleKind::Exact => same_chars(name.as_slice(), domain.as_slice()),
        }
    }

    /// The rule as it is written down.
    pub fn to_string(&self) -> (text: String)
        ensures
            text@ == rule_text(self@),
    {
        let mut text = String::new();
        match self.kind {
            DomainRuleKind::Suffix => {
                if self.explicit_prefix {
                    text.push('*');
                }
            },
            DomainRuleKind::Domain => text.push('@'),
            DomainRuleKind::Exact => text.push('^'),
        }
        crate::text::push_text(&mut text, &self.domain);
        assert(text@ =~= rule_text(self@));
        text
    }

    fn same(&self, other: &Self) -> (answer: bool)
        ensures
            answer == (self@ == other@),
    {
        let answer = self.kind == other.kind && self.explicit_prefix == other.explicit_prefix
            && same_text(&self.domain, &other.domain);
        assert(answer ==> self@ =~= other@);
        answer
    }
}

impl FromStr for DomainRule {
    type Err = Error;

    fn from_str(value: &str) -> Result<Self, Error> {
        DomainRule::parse(value)
    }
}

proof fn lemma_piece_chars(name: Seq<char>)
    requires
        forall|i: int, j: int|
            0 <= i < pieces(name, '.').len() && 0 <= j < pieces(name, '.')[i].len()
                ==> is_label_char(#[trigger] pieces(name, '.')[i][j]),
    ensures
        forall|k: int| 0 <= k < name.len() ==> name[k] == '.' || is_label_char(#[trigger] name[k]),
    decreases name.len(),
{
    if name.len() > 0 {
        let before = pieces(name.drop_last(), '.');
        let all = pieces(name, '.');
        crate::text::lemma_pieces_nonempty(name.drop_last(), '.');
        if name.last() == '.' {
            assert forall|i: int, j: int|
                0 <= i < before.len() && 0 <= j < before[i].len() implies is_label_char(
                #[trigger] before[i][j],
            ) by {
                assert(all[i] == before[i]);
                assert(is_label_char(all[i][j]));
            }
        } else {
            let n = before.len() - 1;
            assert(all[n] == before[n].push(name.last()));
            assert(is_label_char(all[n][before[n].len() as int]));
            assert forall|i: int, j: int|
                0 <= i < before.len() && 0 <= j < before[i].len() implies is_label_char(
                #[trigger] before[i][j],
            ) by {
                if i < n {
                    assert(all[i] == before[i]);
                }
                assert(all[i][j] == before[i][j]);
                assert(is_label_char(all[i][j]));
            }
        }
        lemma_piece_chars(name.drop_last());
        assert forall|k: int| 0 <= k < name.len() implies name[k] == '.' || is_label_char(
            #[trigger] name[k],
        ) by {
            if k < name.len() - 1 {
                assert(name.drop_last()[k] == name[k]);
            }
        }
    }
}

proof fn lemma_valid_name_chars(name: Seq<char>)
    requires
        valid_name(name),
    ensures
        name.len() > 0,
        name.last() != '.',
        forall|k: int| 0 <= k < name.len() ==> name[k] == '.' || is_label_char(#[trigger] name[k]),
{
    let all = pieces(name, '.');
    crate::text::lemma_pieces_nonempty(name, '.');
    assert(valid_label(all[all.len() - 1]));
    assert forall|i: int, j: int| 0 <= i < all.len() && 0 <= j < all[i].len() implies is_label_char(
        #[trigger] all[i][j],
    ) by {
        assert(valid_label(all[i]));
    }
    lemma_piece_chars(name);
}

/// Reading a rule as it is written down gives the rule back.
pub proof fn law_rule_text_round_trip(text: Seq<char>)
    requires
        parsed_rule(text) is Ok,
    ensures
        parsed_rule(rule_text(parsed_rule(text)->Ok_0)) == parsed_rule(text),
{
    let name = normalized(text);
    let rule = rule_parts(name);
    lemma_valid_name_chars(rule.domain);
    let written = rule_text(rule);
    assert(written =~= name) by {
        if rule.explicit_prefix {
            assert(name =~= seq![name[0]] + name.skip(1));
        }
    }
    assert(!is_space(written.first()) && !is_space(written.last()) && written.last() != '.') by {
        assert(written.last() == rule.domain.last());
        assert(rule.domain[rule.domain.len() - 1] == rule.domain.last());
    }
    assert(trimmed(written) == written);
    assert(without_trailing(written, '.') == written);
    assert(lower(written) =~= written);
}

proof fn lemma_trimmed_upper(text: Seq<char>)
    ensures
        trimmed(upper(text)) == upper(trimmed(text)),
    decreases text.len(),
{
    if text.len() > 0 && is_space(text.first()) {
        assert(upper(text).drop_first() =~= upper(text.drop_first()));
        lemma_trimmed_upper(text.drop_first());
    } else if text.len() > 0 && is_space(text.last()) {
        assert(upper(text).drop_last() =~= upper(text.drop_last()));
        lemma_trimmed_upper(text.drop_last());
    }
}

proof fn lemma_without_dots_upper(text: Seq<char>)
    ensures
        without_trailing(upper(text), '.') == upper(without_trailing(text, '.')),
    decreases text.len(),
{
    if text.len() > 0 && text.last() == '.' {
        assert(upper(text).drop_last() =~= upper(text.drop_last()));
        lemma_without_dots_upper(text.drop_last());
    }
}

proof fn lemma_trimmed_dot(text: Seq<char>)
    requires
        text.len() > 0 ==> !is_space(text.last()),
    ensures
        trimmed(text.push('.')) == trimmed(text).push('.'),
    decreases text.len(),
{
    if text.len() > 0 && is_space(text.first()) {
        assert(text.push('.').drop_first() =~= text.drop_first().push('.'));
        if text.len() > 1 {
            assert(text.drop_first().last() == text.last());
        }
        lemma_trimmed_dot(text.drop_first());
    }
}

/// Upper case makes no difference to a name, nor does a final dot, unless white
/// space stands before it.
pub proof fn law_name_forms_are_one(name: Seq<char>)
    ensures
        normalized(upper(name)) == normalized(name),
        (name.len() > 0 ==> !is_space(name.last())) ==> normalized(name.push('.')) == normalized(
            name,
        ) && normalized(upper(name).push('.')) == normalized(name),
{
    lemma_trimmed_upper(name);
    lemma_without_dots_upper(trimmed(name));
    let bare = without_trailing(trimmed(name), '.');
    assert(lower(upper(bare)) =~= lower(bare));
    if name.len() > 0 ==> !is_space(name.last()) {
        lemma_trimmed_dot(name);
        lemma_trimmed_dot(upper(name));
        assert(trimmed(name).push('.').drop_last() =~= trimmed(name));
        assert(trimmed(upper(name)).push('.').drop_last() =~= trimmed(upper(name)));
    }
}

/// A rule gives one answer on a name, on its upper-case form, and on either with
/// a final dot, unless white space stands before the dot.
pub proof fn law_rule_ignores_case_and_final_dot(rule: DomainRuleView, candidate: Seq<char>)
    ensures
        rule_matches(rule, upper(candidate)) == rule_matches(rule, candidate),
        (candidate.len() > 0 ==> !is_space(candidate.last())) ==> rule_matches(
            rule,
            candidate.push('.'),
        ) == rule_matches(rule, candidate) && rule_matches(rule, upper(candidate).push('.'))
            == rule_matches(rule, candidate),
{
    law_name_forms_are_one(candidate);
}

/// Of three rules on one domain, the exact one covers the fewest names and the
/// suffix the most.
pub proof fn law_rule_kinds_widen(rule: DomainRuleView, candidate: Seq<char>)
    ensures
        rule_matches(
            DomainRuleView { kind: DomainRuleKind::Exact, ..rule },
            candidate,
        ) ==> rule_matches(DomainRuleView { kind: DomainRuleKind::Domain, ..rule }, candidate),
        rule_matches(
            DomainRuleView { kind: DomainRuleKind::Domain, ..rule },
            candidate,
        ) ==> rule_matches(DomainRuleView { kind: DomainRuleKind::Suffix, ..rule }, candidate),
{
    let name = normalized(candidate);
    let below = seq!['.'] + rule.domain;
    if name == rule.domain {
        assert(name.skip(0) =~= name);
        assert(has_suffix(name, rule.domain));
    }
    if has_suffix(name, below) {
        let at = name.len() - rule.domain.len();
        assert(below.skip(1) =~= rule.domain);
        assert(name.skip(at) =~= name.skip(at - 1).skip(1));
    }
}

/// A rule covers the very domain that it names.
pub proof fn law_rule_covers_its_domain(text: Seq<char>)
    requires
        parsed_rule(text) is Ok,
    ensures
        rule_matches(parsed_rule(text)->Ok_0, parsed_rule(text)->Ok_0.domain),
{
    let rule = parsed_rule(text)->Ok_0;
    let domain = rule.domain;
    let name = normalized(text);
    lemma_valid_name_chars(domain);
    assert(domain[0] == domain.first() && domain[domain.len() - 1] == domain.last());
    assert(trimmed(domain) == domain) by {
        if is_space(domain.first()) {
            assert(domain.first() != '.');
        }
    }
    assert(without_trailing(domain, '.') == domain);
    assert(lower(domain) =~= domain) by {
        assert forall|k: int| 0 <= k < domain.len() implies lower_char(#[trigger] domain[k])
            == domain[k] by {
            let at = if rule.explicit_prefix { k + 1 } else { k };
            assert(domain[k] == name[at]);
        }
    }
    assert(domain.skip(0) =~= domain);
}

/// What a list of rules says.
pub open spec fn rules(list: Seq<DomainRule>) -> Seq<DomainRuleView> {
    list.map_values(|rule: DomainRule| rule@)
}

/// The first occurrence of each item, in order.
pub open spec fn first_occurrences<A>(list: Seq<A>) -> Seq<A>
    decreases list.len(),
{
    if list.len() == 0 {
        list
    } else {
        let kept = first_occurrences(list.drop_last());
        if kept.contains(list.last()) {
            kept
        } else {
            kept.push(list.last())
        }
    }
}

/// Keeping first occurrences keeps every item and repeats none.
pub proof fn law_first_occurrences<A>(list: Seq<A>)
    ensures
        first_occurrences(list).no_duplicates(),
        forall|item: A| first_occurrences(list).contains(item) == list.contains(item),
        first_occurrences(list).len() <= list.len(),
    decreases list.len(),
{
    if list.len() > 0 {
        let rest = list.drop_last();
        law_first_occurrences(rest);
        let kept = first_occurrences(rest);
        assert(list =~= rest.push(list.last()));
        assert forall|item: A| first_occurrences(list).contains(item) == list.contains(item) by {
            if list.contains(item) {
                let at = choose|at: int| 0 <= at < list.len() && list[at] == item;
                if at < rest.len() {
                    assert(rest[at] == item);
                    assert(rest.contains(item));
                    assert(kept.contains(item));
                    let k = choose|k: int| 0 <= k < kept.len() && kept[k] == item;
                    assert(first_occurrences(list)[k] == item);
                } else if !kept.contains(item) {
                    assert(first_occurrences(list)[kept.len() as int] == item);
                }
            }
            if first_occurrences(list).contains(item) {
                let k = choose|k: int|
                    0 <= k < first_occurrences(list).len() && first_occurrences(list)[k] == item;
                if k < kept.len() {
                    assert(kept[k] == item);
                    assert(rest.contains(item));
                    let at = choose|at: int| 0 <= at < rest.len() && rest[at] == item;
                    assert(list[at] == item);
                } else {
                    assert(list[list.len() - 1] == item);
                }
            }
        }
    }
}

fn dedup_addresses(values: &Vec<Ipv4Addr>) -> (kept: Vec<Ipv4Addr>)
    ensures
        kept@ == first_occurrences(values@),
{
    let mut kept: Vec<Ipv4Addr> = Vec::new();
    let mut i: usize = 0;
    assert(values@.take(0) =~= Seq::<Ipv4Addr>::empty());
    while i < values.len()
        invariant
            i <= values@.len(),
            kept@ == first_occurrences(values@.take(i as int)),
        decreases values@.len() - i,
    {
        let mut seen = false;
        let mut k: usize = 0;
        while k < kept.len() && !seen
            invariant
                k <= kept@.len(),
                i < values@.len(),
                seen == (exists|j: int| 0 <= j < k && kept@[j] == values@[i as int]),
            decreases kept@.len() - k,
        {
            if kept[k] == values[i] {
                seen = true;
            }
            k += 1;
        }
        assert(values@.take(i + 1).drop_last() =~= values@.take(i as int));
        assert(seen == kept@.contains(values@[i as int]));
        if !seen {
            kept.push(values[i]);
        }
        i += 1;
    }
    assert(values@.take(i as int) =~= values@);
    kept
}

/// Copies a list of rules.
pub fn copy_rules(list: &Vec<DomainRule>) -> (copy: Vec<DomainRule>)
    ensures
        rules(copy@) == rules(list@),
{
    let mut copy: Vec<DomainRule> = Vec::new();
    let mut i: usize = 0;
    while i < list.len()
        invariant
            i <= list@.len(),
            rules(copy@) =~= rules(list@).take(i as int),
        decreases list@.len() - i,
    {
        let ghost before = rules(copy@);
        let rule = list[i].clone();
        copy.push(rule);
        assert(rules(copy@) =~= before.push(rules(list@)[i as int]));
        i += 1;
    }
    assert(rules(list@).take(i as int) =~= rules(list@));
    copy
}

fn dedup_rules(values: &Vec<DomainRule>) -> (kept: Vec<DomainRule>)
    ensures
        rules(kept@) == first_occurrences(rules(values@)),
{
    let mut kept: Vec<DomainRule> = Vec::new();
    let mut i: usize = 0;
    assert(rules(values@).take(0) =~= Seq::<DomainRuleView>::empty());
    assert(rules(kept@) =~= first_occurrences(rules(values@).take(0)));
    while i < values.len()
        invariant
            i <= values@.len(),
            rules(kept@) == first_occurrences(rules(values@).take(i as int)),
        decreases values@.len() - i,
    {
        let mut seen = false;
        let mut k: usize = 0;
        while k < kept.len() && !seen
            invariant
                k <= kept@.len(),
                i < values@.len(),
                seen == (exists|j: int| 0 <= j < k && rules(kept@)[j] == values@[i as int]@),
            decreases kept@.len() - k,
        {
            if kept[k].same(&values[i]) {
                assert(rules(kept@)[k as int] == values@[i as int]@);
                seen = true;
            }
            k += 1;
        }
        assert(rules(values@).take(i + 1).drop_last() =~= rules(values@).take(i as int));
        assert(rules(values@).take(i + 1).last() == values@[i as int]@);
        assert(seen == rules(kept@).contains(values@[i as int]@));
        if !seen {
            let ghost before = rules(kept@);
            let rule = values[i].clone();
            kept.push(rule);
            assert(rules(kept@) =~= before.push(values@[i as int]@));
        }
        i += 1;
    }
    assert(rules(values@).take(i as int) =~= rules(values@));
    kept
}

/// At most the first few items of a list.
pub open spec fn at_most<A>(list: Seq<A>, count: int) -> Seq<A> {
    if list.len() > count {
        list.take(count)
    } else {
        list
    }
}

/// The distinct rules of a list, as many as the limit allows.
pub open spec fn capped_rules(list: Seq<DomainRuleView>) -> Seq<DomainRuleView> {
    at_most(first_occurrences(list), MAX_DOMAIN_RULES as int)
}

fn dedup_capped(values: &Vec<DomainRule>) -> (kept: Vec<DomainRule>)
    ensures
        rules(kept@) == capped_rules(rules(values@)),
        kept@.len() <= MAX_DOMAIN_RULES,
{
    let mut kept = dedup_rules(values);
    let ghost all = rules(kept@);
    if kept.len() > MAX_DOMAIN_RULES {
        kept.truncate(MAX_DOMAIN_RULES);
        assert(rules(kept@) =~= all.take(MAX_DOMAIN_RULES as int));
    }
    kept
}

/// The message on the first name of a list that is invalid once normalized.
pub open spec fn first_name_error(names: Seq<Seq<char>>) -> Option<Seq<char>>
    decreases names.len(),
{
    if names.len() == 0 {
        None
    } else if !valid_name(normalized(names[0])) {
        Some(invalid_name_message("DoH hostname"@, normalized(names[0])))
    } else {
        first_name_error(names.drop_first())
    }
}

fn check_names(names: &Vec<String>) -> (result: Result<(), Error>)
    ensures
        match result {
            Ok(_) => first_name_error(texts(names@)) is None,
            Err(error) => first_name_error(texts(names@)) matches Some(message)
                && is_invalid_config(error, message),
        },
{
    let mut i: usize = 0;
    assert(texts(names@).skip(0) =~= texts(names@));
    while i < names.len()
        invariant
            i <= names@.len(),
            first_name_error(texts(names@)) == first_name_error(texts(names@).skip(i as int)),
        decreases names@.len() - i,
    {
        let name = normalize_name(&names[i]);
        assert(texts(names@).skip(i as int)[0] == names@[i as int]@);
        match validate_name(&name, "DoH hostname") {
            Ok(_) => {},
            Err(error) => {
                return Err(error);
            },
        }
        assert(texts(names@).skip(i as int).drop_first() =~= texts(names@).skip(i + 1));
        i += 1;
    }
    Ok(())
}

/// Every name of a list, normalized.
pub open spec fn all_normalized(names: Seq<Seq<char>>) -> Seq<Seq<char>> {
    names.map_values(|name: Seq<char>| normalized(name))
}

pub fn normalize_names(values: &Vec<String>) -> (result: Result<Vec<String>, Error>)
    ensures
        match result {
            Ok(names) => first_name_error(texts(values@)) is None && texts(names@)
                == first_occurrences(all_normalized(texts(values@))),
            Err(error) => first_name_error(texts(values@)) matches Some(message)
                && is_invalid_config(error, message),
        },
{
    let ghost names = all_normalized(texts(values@));
    let mut kept: Vec<String> = Vec::new();
    let mut i: usize = 0;
    assert(names.take(0) =~= Seq::<Seq<char>>::empty());
    assert(texts(kept@) =~= first_occurrences(names.take(0)));
    assert(texts(values@).skip(0) =~= texts(values@));
    while i < values.len()
        invariant
            i <= values@.len(),
            names == all_normalized(texts(values@)),
            texts(kept@) == first_occurrences(names.take(i as int)),
            first_name_error(texts(values@)) == first_name_error(texts(values@).skip(i as int)),
        decreases values@.len() - i,
    {
        let name = normalize_name(&values[i]);
        assert(texts(values@).skip(i as int)[0] == values@[i as int]@);
        match validate_name(&name, "DoH hostname") {
            Ok(_) => {},
            Err(error) => {
                return Err(error);
            },
        }
        assert(texts(values@).skip(i as int).drop_first() =~= texts(values@).skip(i + 1));
        let mut seen = false;
        let mut k: usize = 0;
        while k < kept.len() && !seen
            invariant
                k <= kept@.len(),
                seen == (exists|j: int| 0 <= j < k && texts(kept@)[j] == name@),
            decreases kept@.len() - k,
        {
            if same_text(&kept[k], &name) {
                assert(texts(kept@)[k as int] == name@);
                seen = true;
            }
            k += 1;
        }
        assert(names.take(i + 1).drop_last() =~= names.take(i as int));
        assert(names.take(i + 1).last() == name@);
        assert(seen == texts(kept@).contains(name@));
        if !seen {
            let ghost before = texts(kept@);
            let ghost added = name@;
            kept.push(name);
            assert(texts(kept@) =~= before.push(added));
        }
        i += 1;
    }
    assert(names.take(i as int) =~= names);
    Ok(kept)
}

/// What a managed network and the local settings ask of DNS.
#[derive(Debug, Clone)]
pub struct DnsDefaults {
    pub server_mode: ServerListDnsMode,
    pub server_dns: Vec<Ipv4Addr>,
    pub local_mode: DnsServerMode,
    pub local_dns: Vec<Ipv4Addr>,
    pub split_mode: SplitDnsMode,
    pub custom_domains: Vec<DomainRule>,
    pub managed_domain_filter: bool,
    pub managed_inclusive: Vec<DomainRule>,
    pub managed_exclusive: Vec<DomainRule>,
    pub block_encrypted_dns: bool,
    pub secure_dns_hosts: Vec<String>,
    pub controller_service: bool,
}

/// The defaults with lists as sequences.
#[verifier::ext_equal]
pub struct DnsDefaultsView {
    pub server_mode: ServerListDnsMode,
    pub server_dns: Seq<Ipv4Addr>,
    pub local_mode: DnsServerMode,
    pub local_dns: Seq<Ipv4Addr>,
    pub split_mode: SplitDnsMode,
    pub custom_domains: Seq<DomainRuleView>,
    pub managed_domain_filter: bool,
    pub managed_inclusive: Seq<DomainRuleView>,
    pub managed_exclusive: Seq<DomainRuleView>,
    pub block_encrypted_dns: bool,
    pub secure_dns_hosts: Seq<Seq<char>>,
    pub controller_service: bool,
}

impl View for DnsDefaults {
    type V = DnsDefaultsView;

    open spec fn view(&self) -> DnsDefaultsView {
        DnsDefaultsView {
            server_mode: self.server_mode,
            server_dns: self.server_dns@,
            local_mode: self.local_mode,
            local_dns: self.local_dns@,
            split_mode: self.split_mode,
            custom_domains: rules(self.custom_domains@),
            managed_domain_filter: self.managed_domain_filter,
            managed_inclusive: rules(self.managed_inclusive@),
            managed_exclusive: rules(self.managed_exclusive@),
            block_encrypted_dns: self.block_encrypted_dns,
            secure_dns_hosts: texts(self.secure_dns_hosts@),
            controller_service: self.controller_service,
        }
    }
}

/// Defaults that ask for nothing.
pub open spec fn plain_defaults() -> DnsDefaultsView {
    DnsDefaultsView {
        server_mode: ServerListDnsMode::Auto,
        server_dns: Seq::empty(),
        local_mode: DnsServerMode::Server,
        local_dns: Seq::empty(),
        split_mode: SplitDnsMode::Off,
        custom_domains: Seq::empty(),
        managed_domain_filter: false,
        managed_inclusive: Seq::empty(),
        managed_exclusive: Seq::empty(),
        block_encrypted_dns: false,
        secure_dns_hosts: Seq::empty(),
        controller_service: false,
    }
}

impl Default for DnsDefaults {
    fn default() -> (defaults: Self)
        ensures
            defaults@ == plain_defaults(),
    {
        let defaults = DnsDefaults {
            server_mode: ServerListDnsMode::Auto,
            server_dns: Vec::new(),
            local_mode: DnsServerMode::Server,
            local_dns: Vec::new(),
            split_mode: SplitDnsMode::Off,
            custom_domains: Vec::new(),
            managed_domain_filter: false,
            managed_inclusive: Vec::new(),
            managed_exclusive: Vec::new(),
            block_encrypted_dns: false,
            secure_dns_hosts: Vec::new(),
            controller_service: false,
        };
        assert(defaults@ =~= plain_defaults());
        defaults
    }
}

/// DNS settings that take the place of the defaults where they are present.
#[derive(Debug, Clone)]
pub struct DnsOverrides {
    pub server_mode: Option<DnsServerMode>,
    pub servers: Option<Vec<Ipv4Addr>>,
    pub split_mode: Option<SplitDnsMode>,
    pub split_domains: Option<Vec<DomainRule>>,
    pub encrypted_dns: Option<EncryptedDnsMode>,
    pub doh_hosts: Option<Vec<String>>,
}

/// The overrides with lists as sequences.
#[verifier::ext_equal]
pub struct DnsOverridesView {
    pub server_mode: Option<DnsServerMode>,
    pub servers: Option<Seq<Ipv4Addr>>,
    pub split_mode: Option<SplitDnsMode>,
    pub split_domains: Option<Seq<DomainRuleView>>,
    pub encrypted_dns: Option<EncryptedDnsMode>,
    pub doh_hosts: Option<Seq<Seq<char>>>,
}

impl View for DnsOverrides {
    type V = DnsOverridesView;

    open spec fn view(&self) -> DnsOverridesView {
        DnsOverridesView {
            server_mode: self.server_mode,
            servers: match self.servers {
                Some(list) => Some(list@),
                None => None,
            },
            split_mode: self.split_mode,
            split_domains: match self.split_domains {
                Some(list) => Some(rules(list@)),
                None => None,
            },
            encrypted_dns: self.encrypted_dns,
            doh_hosts: match self.doh_hosts {
                Some(list) => Some(texts(list@)),
                None => None,
            },
        }
    }
}

/// Overrides that are all absent.
pub open spec fn no_overrides() -> DnsOverridesView {
    DnsOverridesView {
        server_mode: None,
        servers: None,
        split_mode: None,
        split_domains: None,
        encrypted_dns: None,
        doh_hosts: None,
    }
}

impl Default for DnsOverrides {
    fn default() -> (overrides: Self)
        ensures
            overrides@ == no_overrides(),
    {
        DnsOverrides {
            server_mode: None,
            servers: None,
            split_mode: None,
            split_domains: None,
            encrypted_dns: None,
            doh_hosts: None,
        }
    }
}

/// The first value where it is present, else the second.
pub open spec fn first_present<A>(first: Option<A>, second: Option<A>) -> Option<A> {
    match first {
        Some(_) => first,
        None => second,
    }
}

/// Two layers of overrides as one: the higher one's values where present.
pub open spec fn layers(lower: DnsOverridesView, higher: DnsOverridesView) -> DnsOverridesView {
    DnsOverridesView {
        server_mode: first_present(higher.server_mode, lower.server_mode),
        servers: first_present(higher.servers, lower.servers),
        split_mode: first_present(higher.split_mode, lower.split_mode),
        split_domains: first_present(higher.split_domains, lower.split_domains),
        encrypted_dns: first_present(higher.encrypted_dns, lower.encrypted_dns),
        doh_hosts: first_present(higher.doh_hosts, lower.doh_hosts),
    }
}

/// Layering keeps its grouping and changes nothing where a layer is absent.
pub proof fn law_layers(a: DnsOverridesView, b: DnsOverridesView, c: DnsOverridesView)
    ensures
        layers(layers(a, b), c) == layers(a, layers(b, c)),
        layers(a, no_overrides()) == a,
        layers(no_overrides(), a) == a,
        layers(a, a) == a,
{
}

/// The message on why overrides cannot be used.
pub open spec fn overrides_error(overrides: DnsOverridesView) -> Option<Seq<char>> {
    if overrides.servers matches Some(list) && list.len() > 2 {
        Some("custom DNS accepts at most two IPv4 servers"@)
    } else if overrides.server_mode == Some(DnsServerMode::Custom) && !(
    overrides.servers matches Some(list) && list.len() > 0) {
        Some("custom DNS mode requires at least one --dns-server"@)
    } else if overrides.split_mode == Some(SplitDnsMode::Custom) && !(
    overrides.split_domains matches Some(list) && list.len() > 0) {
        Some("custom split DNS requires at least one domain rule"@)
    } else if overrides.split_domains matches Some(list) && list.len() > MAX_DOMAIN_RULES {
        Some("split-DNS rule count exceeds 100000"@)
    } else if overrides.doh_hosts matches Some(list) && list.len() > MAX_DOMAIN_RULES {
        Some("DoH host count exceeds 100000"@)
    } else {
        match overrides.doh_hosts {
            Some(list) => first_name_error(list),
            None => None,
        }
    }
}

impl DnsOverrides {
    /// Merges two layers, taking every value that is present from `higher`.
    pub fn layered(lower: &Self, higher: &Self) -> (merged: Self)
        ensures
            merged@ == layers(lower@, higher@),
    {
        let server_mode = if higher.server_mode.is_some() {
            higher.server_mode
        } else {
            lower.server_mode
        };
        let servers = match &higher.servers {
            Some(list) => Some(slice_to_vec(list.as_slice())),
            None => match &lower.servers {
                Some(list) => Some(slice_to_vec(list.as_slice())),
                None => None,
            },
        };
        let split_mode = if higher.split_mode.is_some() {
            higher.split_mode
        } else {
            lower.split_mode
        };
        let split_domains = match &higher.split_domains {
            Some(list) => Some(copy_rules(list)),
            None => match &lower.split_domains {
                Some(list) => Some(copy_rules(list)),
                None => None,
            },
        };
        let encrypted_dns = if higher.encrypted_dns.is_some() {
            higher.encrypted_dns
        } else {
            lower.encrypted_dns
        };
        let doh_hosts = match &higher.doh_hosts {
            Some(list) => Some(copy_texts(list)),
            None => match &lower.doh_hosts {
                Some(list) => Some(copy_texts(list)),
                None => None,
            },
        };
        DnsOverrides { server_mode, servers, split_mode, split_domains, encrypted_dns, doh_hosts }
    }

    pub fn validate(&self) -> (result: Result<(), Error>)
        ensures
            match result {
                Ok(_) => overrides_error(self@) is None,
                Err(error) => overrides_error(self@) matches Some(message) && is_invalid_config(
                    error,
                    message,
                ),
            },
    {
        let server_count: usize = match &self.servers {
            Some(list) => list.len(),
            None => 0,
        };
        if server_count > 2 {
            return Err(invalid_config("custom DNS accepts at most two IPv4 servers"));
        }
        let custom_servers = match self.server_mode {
            Some(mode) => mode == DnsServerMode::Custom,
            None => false,
        };
        if custom_servers && server_count == 0 {
            return Err(invalid_config("custom DNS mode requires at least one --dns-server"));
        }
        let domain_count: usize = match &self.split_domains {
            Some(list) => list.len(),
            None => 0,
        };
        let custom_split = match self.split_mode {
            Some(mode) => mode == SplitDnsMode::Custom,
            None => false,
        };
        if custom_split && domain_count == 0 {
            return Err(invalid_config("custom split DNS requires at least one domain rule"));
        }
        if domain_count > MAX_DOMAIN_RULES {
            return Err(invalid_config("split-DNS rule count exceeds 100000"));
        }
        match &self.doh_hosts {
            Some(hosts) => {
                if hosts.len() > MAX_DOMAIN_RULES {
                    return Err(invalid_config("DoH host count exceeds 100000"));
                }
                check_names(hosts)
            },
            None => Ok(()),
        }
    }
}

/// The DNS policy that a session follows.
#[derive(Debug, Clone)]
pub struct EffectiveDnsPolicy {
    pub server_mode: DnsServerMode,
    pub servers: Vec<Ipv4Addr>,
    pub split_mode: SplitDnsMode,
    pub inclusive: Vec<DomainRule>,
    pub exclusive: Vec<DomainRule>,
    pub block_encrypted_dns: bool,
    pub doh_hosts: Vec<String>,
}

/// The policy with lists as sequences.
#[verifier::ext_equal]
pub struct DnsPolicyView {
    pub server_mode: DnsServerMode,
    pub servers: Seq<Ipv4Addr>,
    pub split_mode: SplitDnsMode,
    pub inclusive: Seq<DomainRuleView>,
    pub exclusive: Seq<DomainRuleView>,
    pub block_encrypted_dns: bool,
    pub doh_hosts: Seq<Seq<char>>,
}

impl View for EffectiveDnsPolicy {
    type V = DnsPolicyView;

    open spec fn view(&self) -> DnsPolicyView {
        DnsPolicyView {
            server_mode: self.server_mode,
            servers: self.servers@,
            split_mode: self.split_mode,
            inclusive: rules(self.inclusive@),
            exclusive: rules(self.exclusive@),
            block_encrypted_dns: self.block_encrypted_dns,
            doh_hosts: texts(self.doh_hosts@),
        }
    }
}

/// Whether some rule of a list covers a name.
pub open spec fn any_matches(list: Seq<DomainRuleView>, name: Seq<char>) -> bool {
    exists|i: int| 0 <= i < list.len() && rule_matches(#[trigger] list[i], name)
}

fn any_rule_matches(list: &Vec<DomainRule>, name: &str) -> (answer: bool)
    ensures
        answer == any_matches(rules(list@), name@),
{
    let mut i: usize = 0;
    while i < list.len()
        invariant
            i <= list@.len(),
            forall|k: int| 0 <= k < i ==> !rule_matches(#[trigger] rules(list@)[k], name@),
        decreases list@.len() - i,
    {
        if list[i].matches(name) {
            assert(rule_matches(rules(list@)[i as int], name@));
            return true;
        }
        i += 1;
    }
    false
}

impl DnsPolicyView {
    /// Whether the policy sends DNS questions to servers of its own.
    pub open spec fn routes_dns(self) -> bool {
        self.server_mode != DnsServerMode::Disabled && self.servers.len() > 0 && self.split_mode
            != SplitDnsMode::Off
    }

    /// Whether the policy asks for any work on packets.
    pub open spec fn enabled(self) -> bool {
        self.block_encrypted_dns || self.routes_dns()
    }

    /// Whether a name is resolved through the tunnel. An exclusion wins, and
    /// without any inclusion every other name goes through.
    pub open spec fn tunnels(self, name: Seq<char>) -> bool {
        match self.split_mode {
            SplitDnsMode::Off | SplitDnsMode::TunnelAll => true,
            SplitDnsMode::Managed | SplitDnsMode::Custom => !any_matches(self.exclusive, name) && (
            self.inclusive.len() == 0 || any_matches(self.inclusive, name)),
        }
    }

    /// Whether a name is that of a blocked resolver.
    pub open spec fn blocks(self, name: Seq<char>) -> bool {
        self.block_encrypted_dns && self.doh_hosts.contains(normalized(name))
    }
}

impl EffectiveDnsPolicy {
    /// The policy of a direct connection.
    pub fn direct(open_ack_dns: &[IpAddr]) -> (policy: Self)
        ensures
            resolved_policy(plain_defaults(), no_overrides(), open_ack_dns@) == Ok::<
                DnsPolicyView,
                Seq<char>,
            >(policy@),
    {
        let defaults = DnsDefaults::default();
        let overrides = DnsOverrides::default();
        proof {
            lemma_canary_is_valid();
            let hosts = Seq::<Seq<char>>::empty().push(canary());
            assert(hosts.drop_first() =~= Seq::<Seq<char>>::empty());
            reveal_with_fuel(first_name_error, 2);
            assert(Seq::<Seq<char>>::empty() + Seq::<Seq<char>>::empty() =~= Seq::<
                Seq<char>,
            >::empty());
        }
        match DnsPolicyResolver::resolve(&defaults, &overrides, open_ack_dns) {
            Ok(policy) => policy,
            Err(_) => vstd::pervasive::unreached(),
        }
    }

    pub fn engine_enabled(&self) -> (answer: bool)
        ensures
            answer == self@.enabled(),
    {
        self.block_encrypted_dns || self.dns_routing_enabled()
    }

    pub fn dns_routing_enabled(&self) -> (answer: bool)
        ensures
            answer == self@.routes_dns(),
    {
        self.server_mode != DnsServerMode::Disabled && self.servers.len() > 0 && self.split_mode
            != SplitDnsMode::Off
    }

    pub fn routes_through_tunnel(&self, name: &str) -> (answer: bool)
        ensures
            answer == self@.tunnels(name@),
    {
        match self.split_mode {
            SplitDnsMode::Off | SplitDnsMode::TunnelAll => true,
            SplitDnsMode::Managed | SplitDnsMode::Custom => {
                if any_rule_matches(&self.exclusive, name) {
                    false
                } else {
                    self.inclusive.len() == 0 || any_rule_matches(&self.inclusive, name)
                }
            },
        }
    }

    pub fn blocks_doh_host(&self, name: &str) -> (answer: bool)
        ensures
            answer == self@.blocks(name@),
    {
        if !self.block_encrypted_dns {
            return false;
        }
        let wanted = normalize_name(name);
        let mut i: usize = 0;
        while i < self.doh_hosts.len()
            invariant
                i <= self.doh_hosts@.len(),
                self.block_encrypted_dns,
                wanted@ == normalized(name@),
                forall|k: int| 0 <= k < i ==> #[trigger] texts(self.doh_hosts@)[k] != wanted@,
            decreases self.doh_hosts@.len() - i,
        {
            if same_text(&self.doh_hosts[i], &wanted) {
                assert(texts(self.doh_hosts@)[i as int] == wanted@);
                return true;
            }
            i += 1;
        }
        assert(!texts(self.doh_hosts@).contains(wanted@));
        false
    }
}

/// The name that browsers ask for to learn whether encrypted DNS is wanted.
pub open spec fn canary() -> Seq<char> {
    "use-application-dns.net"@
}

proof fn lemma_pieces_without_separator(text: Seq<char>, separator: char)
    requires
        forall|k: int| 0 <= k < text.len() ==> text[k] != separator,
    ensures
        pieces(text, separator) == seq![text],
    decreases text.len(),
{
    if text.len() > 0 {
        let before = text.drop_last();
        lemma_pieces_without_separator(before, separator);
        assert(text.last() == text[text.len() - 1]);
        assert(before.push(text.last()) =~= text);
        assert(pieces(text, separator) =~= seq![text]);
    } else {
        assert(text =~= Seq::<char>::empty());
    }
}

proof fn lemma_pieces_behind_separator(head: Seq<char>, tail: Seq<char>, separator: char)
    requires
        forall|k: int| 0 <= k < tail.len() ==> tail[k] != separator,
    ensures
        pieces(head.push(separator) + tail, separator) == pieces(head, separator).push(tail),
    decreases tail.len(),
{
    let text = head.push(separator) + tail;
    if tail.len() == 0 {
        assert(text =~= head.push(separator));
        assert(text.drop_last() =~= head);
        assert(tail =~= Seq::<char>::empty());
    } else {
        let shorter = tail.drop_last();
        lemma_pieces_behind_separator(head, shorter, separator);
        assert(text.drop_last() =~= head.push(separator) + shorter);
        assert(text.last() == tail[tail.len() - 1]);
        assert(shorter.push(tail.last()) =~= tail);
        let before = pieces(head, separator).push(shorter);
        assert(before.drop_last() =~= pieces(head, separator));
    }
}

proof fn lemma_canary_is_valid()
    ensures
        normalized(canary()) == canary(),
        valid_name(canary()),
{
    reveal_strlit("use-application-dns.net");
    let name = canary();
    assert(name.len() == 23);
    assert forall|k: int| 0 <= k < 23 implies lower_char(#[trigger] name[k]) == name[k] && (k != 19
        ==> is_label_char(name[k]) && name[k] != '.') by {
        assert(name[0] == 'u' && name[1] == 's' && name[2] == 'e' && name[3] == '-' && name[4] == 'a'
            && name[5] == 'p' && name[6] == 'p' && name[7] == 'l' && name[8] == 'i' && name[9] == 'c'
            && name[10] == 'a' && name[11] == 't' && name[12] == 'i' && name[13] == 'o' && name[14]
            == 'n' && name[15] == '-' && name[16] == 'd' && name[17] == 'n' && name[18] == 's'
            && name[19] == '.' && name[20] == 'n' && name[21] == 'e' && name[22] == 't');
        assert(k == 0 || k == 1 || k == 2 || k == 3 || k == 4 || k == 5 || k == 6 || k == 7 || k == 8
            || k == 9 || k == 10 || k == 11 || k == 12 || k == 13 || k == 14 || k == 15 || k == 16
            || k == 17 || k == 18 || k == 19 || k == 20 || k == 21 || k == 22);
    }
    assert(name.first() == 'u' && name.last() == 't');
    assert(trimmed(name) == name);
    assert(without_trailing(name, '.') == name);
    assert(lower(name) =~= name);
    let head = name.take(19);
    let tail = name.skip(20);
    assert(name[19] == '.');
    assert(name =~= head.push('.') + tail);
    lemma_pieces_without_separator(head, '.');
    lemma_pieces_behind_separator(head, tail, '.');
    assert(pieces(name, '.') =~= seq![head, tail]);
    assert(valid_label(head)) by {
        assert forall|k: int| 0 <= k < head.len() implies is_label_char(#[trigger] head[k]) by {
            assert(head[k] == name[k]);
        }
    }
    assert(valid_label(tail)) by {
        assert forall|k: int| 0 <= k < tail.len() implies is_label_char(#[trigger] tail[k]) by {
            assert(tail[k] == name[k + 20]);
        }
    }
}

/// A unicast address that a DNS server can have.
pub open spec fn is_usable(address: Ipv4Addr) -> bool {
    address.bits != 0 && address.bits / 0x1000_0000 != 14 && address.bits != 0xffff_ffff
}

pub fn is_usable_server(address: Ipv4Addr) -> (answer: bool)
    ensures
        answer == is_usable(address),
{
    address.bits != 0 && address.bits / 0x1000_0000 != 14 && address.bits != 0xffff_ffff
}

/// The usable ones of some addresses.
pub open spec fn usable(list: Seq<Ipv4Addr>) -> Seq<Ipv4Addr> {
    list.filter(|address: Ipv4Addr| is_usable(address))
}

/// The usable IPv4 addresses of some addresses.
pub open spec fn usable_v4(list: Seq<IpAddr>) -> Seq<Ipv4Addr>
    decreases list.len(),
{
    if list.len() == 0 {
        Seq::empty()
    } else {
        let before = usable_v4(list.drop_last());
        match list.last() {
            IpAddr::V4(address) => if is_usable(address) {
                before.push(address)
            } else {
                before
            },
            IpAddr::V6(_) => before,
        }
    }
}

/// The servers of a session whose servers come from the server: the two first
/// usable ones of the server list where that decides, else those of the
/// session, else the well-known ones of a controller service.
pub open spec fn server_dns(defaults: DnsDefaultsView, open_ack: Seq<IpAddr>) -> Seq<Ipv4Addr> {
    let configured = at_most(first_occurrences(usable(defaults.server_dns)), 2);
    let session = at_most(first_occurrences(usable_v4(open_ack)), 2);
    if defaults.server_mode == ServerListDnsMode::Disabled {
        Seq::empty()
    } else if defaults.server_mode == ServerListDnsMode::Custom && configured.len() > 0 {
        configured
    } else if session.len() > 0 {
        session
    } else if defaults.controller_service {
        seq![Ipv4Addr { bits: 0x0101_0101 }, Ipv4Addr { bits: 0x7272_7272 }]
    } else {
        Seq::empty()
    }
}

fn resolve_server_dns(defaults: &DnsDefaults, open_ack_dns: &[IpAddr]) -> (servers: Vec<Ipv4Addr>)
    ensures
        servers@ == server_dns(defaults@, open_ack_dns@),
{
    if defaults.server_mode == ServerListDnsMode::Disabled {
        return Vec::new();
    }
    let mut listed: Vec<Ipv4Addr> = Vec::new();
    let mut i: usize = 0;
    let ghost list = defaults.server_dns@;
    assert(usable(list.take(0)) =~= Seq::<Ipv4Addr>::empty()) by {
        reveal(Seq::filter);
    }
    while i < defaults.server_dns.len()
        invariant
            list == defaults.server_dns@,
            i <= list.len(),
            listed@ == usable(list.take(i as int)),
        decreases list.len() - i,
    {
        proof {
            reveal(Seq::filter);
            assert(list.take(i + 1).drop_last() =~= list.take(i as int));
        }
        if is_usable_server(defaults.server_dns[i]) {
            listed.push(defaults.server_dns[i]);
        }
        i += 1;
    }
    assert(list.take(i as int) =~= list);
    let mut configured = dedup_addresses(&listed);
    configured.truncate(2);
    assert(configured@ =~= at_most(first_occurrences(usable(list)), 2));
    if defaults.server_mode == ServerListDnsMode::Custom && configured.len() > 0 {
        return configured;
    }
    let mut session: Vec<Ipv4Addr> = Vec::new();
    let mut k: usize = 0;
    while k < open_ack_dns.len()
        invariant
            k <= open_ack_dns@.len(),
            session@ == usable_v4(open_ack_dns@.take(k as int)),
        decreases open_ack_dns@.len() - k,
    {
        assert(open_ack_dns@.take(k + 1).drop_last() =~= open_ack_dns@.take(k as int));
        match open_ack_dns[k] {
            IpAddr::V4(address) => {
                if is_usable_server(address) {
                    session.push(address);
                }
            },
            IpAddr::V6(_) => {},
        }
        k += 1;
    }
    assert(open_ack_dns@.take(k as int) =~= open_ack_dns@);
    let mut open_ack = dedup_addresses(&session);
    open_ack.truncate(2);
    assert(open_ack@ =~= at_most(first_occurrences(usable_v4(open_ack_dns@)), 2));
    if open_ack.len() > 0 {
        return open_ack;
    }
    if defaults.controller_service {
        let mut known: Vec<Ipv4Addr> = Vec::new();
        known.push(Ipv4Addr::new(1, 1, 1, 1));
        known.push(Ipv4Addr::new(114, 114, 114, 114));
        assert(known@ =~= seq![Ipv4Addr { bits: 0x0101_0101 }, Ipv4Addr { bits: 0x7272_7272 }]);
        known
    } else {
        Vec::new()
    }
}

/// The first address of a list that no server can have.
pub open spec fn first_unusable(list: Seq<Ipv4Addr>) -> Option<Ipv4Addr>
    decreases list.len(),
{
    if list.len() == 0 {
        None
    } else if !is_usable(list[0]) {
        Some(list[0])
    } else {
        first_unusable(list.drop_first())
    }
}

/// The message on why a list of custom servers cannot be used.
pub open spec fn custom_servers_error(list: Seq<Ipv4Addr>) -> Option<Seq<char>> {
    if list.len() == 0 || list.len() > 2 {
        Some("custom DNS requires one or two IPv4 servers"@)
    } else {
        match first_unusable(list) {
            Some(address) => Some(
                "custom DNS server "@ + ipv4_chars(address)
                    + " is not a usable unicast IPv4 address"@,
            ),
            None => None,
        }
    }
}

fn validate_custom_servers(servers: &Vec<Ipv4Addr>) -> (result: Result<(), Error>)
    ensures
        match result {
            Ok(_) => custom_servers_error(servers@) is None,
            Err(error) => custom_servers_error(servers@) matches Some(message) && is_invalid_config(
                error,
                message,
            ),
        },
{
    if servers.len() == 0 || servers.len() > 2 {
        return Err(invalid_config("custom DNS requires one or two IPv4 servers"));
    }
    let mut i: usize = 0;
    assert(servers@.skip(0) =~= servers@);
    while i < servers.len()
        invariant
            i <= servers@.len() <= 2,
            servers@.len() > 0,
            first_unusable(servers@) == first_unusable(servers@.skip(i as int)),
        decreases servers@.len() - i,
    {
        if !is_usable_server(servers[i]) {
            let shown = ipv4_text(servers[i]);
            return Err(
                Error::InvalidConfig(
                    join3("custom DNS server ", &shown, " is not a usable unicast IPv4 address"),
                ),
            );
        }
        assert(servers@.skip(i as int).drop_first() =~= servers@.skip(i + 1));
        i += 1;
    }
    Ok(())
}

/// The names of resolvers to block: those of the network, the extra ones and the canary.
pub open spec fn doh_names(defaults: DnsDefaultsView, overrides: DnsOverridesView) -> Seq<
    Seq<char>,
> {
    let extra = match overrides.doh_hosts {
        Some(list) => list,
        None => Seq::empty(),
    };
    (defaults.secure_dns_hosts + extra).push(canary())
}

/// The server mode in force.
pub open spec fn mode_in_force(
    defaults: DnsDefaultsView,
    overrides: DnsOverridesView,
) -> DnsServerMode {
    let requested = match overrides.server_mode {
        Some(mode) => mode,
        None => defaults.local_mode,
    };
    if requested == DnsServerMode::Server && defaults.server_mode == ServerListDnsMode::Disabled {
        DnsServerMode::Disabled
    } else {
        requested
    }
}

/// The custom servers that defaults and overrides name.
pub open spec fn custom_servers(defaults: DnsDefaultsView, overrides: DnsOverridesView) -> Seq<
    Ipv4Addr,
> {
    match overrides.servers {
        Some(list) => list,
        None => defaults.local_dns,
    }
}

pub open spec fn split_in_force(
    defaults: DnsDefaultsView,
    overrides: DnsOverridesView,
) -> SplitDnsMode {
    match overrides.split_mode {
        Some(mode) => mode,
        None => defaults.split_mode,
    }
}

/// The rules on names that go through the tunnel.
pub open spec fn inclusive_in_force(
    defaults: DnsDefaultsView,
    overrides: DnsOverridesView,
) -> Seq<DomainRuleView> {
    let local = match overrides.split_domains {
        Some(list) => list,
        None => defaults.custom_domains,
    };
    match split_in_force(defaults, overrides) {
        SplitDnsMode::Off | SplitDnsMode::TunnelAll => Seq::empty(),
        SplitDnsMode::Managed => capped_rules(defaults.managed_inclusive),
        SplitDnsMode::Custom => if defaults.managed_domain_filter {
            capped_rules(local + defaults.managed_inclusive)
        } else {
            capped_rules(local)
        },
    }
}

/// The rules on names that stay out of the tunnel.
pub open spec fn exclusive_in_force(
    defaults: DnsDefaultsView,
    overrides: DnsOverridesView,
) -> Seq<DomainRuleView> {
    match split_in_force(defaults, overrides) {
        SplitDnsMode::Off | SplitDnsMode::TunnelAll => Seq::empty(),
        SplitDnsMode::Managed | SplitDnsMode::Custom => capped_rules(defaults.managed_exclusive),
    }
}

pub open spec fn blocking_in_force(
    defaults: DnsDefaultsView,
    overrides: DnsOverridesView,
) -> bool {
    match overrides.encrypted_dns {
        Some(EncryptedDnsMode::Block) => true,
        Some(EncryptedDnsMode::Allow) => false,
        _ => defaults.block_encrypted_dns,
    }
}

/// The policy that defaults and overrides make for a session, or the message on why they make none.
pub open spec fn resolved_policy(
    defaults: DnsDefaultsView,
    overrides: DnsOverridesView,
    open_ack: Seq<IpAddr>,
) -> Result<DnsPolicyView, Seq<char>> {
    let server_mode = mode_in_force(defaults, overrides);
    let custom = custom_servers(defaults, overrides);
    if overrides_error(overrides) is Some {
        Err(overrides_error(overrides)->Some_0)
    } else if server_mode == DnsServerMode::Custom && custom_servers_error(custom) is Some {
        Err(custom_servers_error(custom)->Some_0)
    } else if first_name_error(doh_names(defaults, overrides)) is Some {
        Err(first_name_error(doh_names(defaults, overrides))->Some_0)
    } else {
        Ok(
            DnsPolicyView {
                server_mode,
                servers: match server_mode {
                    DnsServerMode::Disabled => Seq::empty(),
                    DnsServerMode::Custom => first_occurrences(custom),
                    DnsServerMode::Server => server_dns(defaults, open_ack),
                },
                split_mode: split_in_force(defaults, overrides),
                inclusive: inclusive_in_force(defaults, overrides),
                exclusive: exclusive_in_force(defaults, overrides),
                block_encrypted_dns: blocking_in_force(defaults, overrides),
                doh_hosts: first_occurrences(all_normalized(doh_names(defaults, overrides))),
            },
        )
    }
}

/// Turns defaults, overrides and the servers of a session into a policy.
pub struct DnsPolicyResolver;

impl DnsPolicyResolver {
    pub fn resolve(
        defaults: &DnsDefaults,
        overrides: &DnsOverrides,
        open_ack_dns: &[IpAddr],
    ) -> (result: Result<EffectiveDnsPolicy, Error>)
        ensures
            match result {
                Ok(policy) => resolved_policy(defaults@, overrides@, open_ack_dns@) == Ok::<
                    DnsPolicyView,
                    Seq<char>,
                >(policy@),
                Err(error) => resolved_policy(defaults@, overrides@, open_ack_dns@) matches Err(
                    message,
                ) && is_invalid_config(error, message),
            },
    {
        match overrides.validate() {
            Ok(_) => {},
            Err(error) => {
                return Err(error);
            },
        }
        let requested = match overrides.server_mode {
            Some(mode) => mode,
            None => defaults.local_mode,
        };
        let server_mode = if requested == DnsServerMode::Server && defaults.server_mode
            == ServerListDnsMode::Disabled {
            DnsServerMode::Disabled
        } else {
            requested
        };
        let servers = match server_mode {
            DnsServerMode::Disabled => Vec::new(),
            DnsServerMode::Custom => {
                let custom = match &overrides.servers {
                    Some(list) => slice_to_vec(list.as_slice()),
                    None => slice_to_vec(defaults.local_dns.as_slice()),
                };
                match validate_custom_servers(&custom) {
                    Ok(_) => {},
                    Err(error) => {
                        return Err(error);
                    },
                }
                dedup_addresses(&custom)
            },
            DnsServerMode::Server => resolve_server_dns(defaults, open_ack_dns),
        };
        let split_mode = match overrides.split_mode {
            Some(mode) => mode,
            None => defaults.split_mode,
        };
        let (inclusive, exclusive) = match split_mode {
            SplitDnsMode::Off | SplitDnsMode::TunnelAll => (Vec::new(), Vec::new()),
            SplitDnsMode::Managed => (
                dedup_capped(&defaults.managed_inclusive),
                dedup_capped(&defaults.managed_exclusive),
            ),
            SplitDnsMode::Custom => {
                let mut local = match &overrides.split_domains {
                    Some(list) => copy_rules(list),
                    None => copy_rules(&defaults.custom_domains),
                };
                if defaults.managed_domain_filter {
                    let ghost own = local@;
                    let mut managed = copy_rules(&defaults.managed_inclusive);
                    let ghost more = managed@;
                    local.append(&mut managed);
                    assert(rules(local@) =~= rules(own) + rules(more));
                }
                (dedup_capped(&local), dedup_capped(&defaults.managed_exclusive))
            },
        };
        let block_encrypted_dns = match overrides.encrypted_dns {
            Some(EncryptedDnsMode::Block) => true,
            Some(EncryptedDnsMode::Allow) => false,
            _ => defaults.block_encrypted_dns,
        };
        let mut names = copy_texts(&defaults.secure_dns_hosts);
        match &overrides.doh_hosts {
            Some(extra) => {
                let ghost own = names@;
                let mut more = copy_texts(extra);
                let ghost added = more@;
                names.append(&mut more);
                assert(texts(names@) =~= texts(own) + texts(added));
            },
            None => {
                assert(texts(names@) =~= texts(names@) + Seq::<Seq<char>>::empty());
            },
        }
        let ghost before = names@;
        let canary_name = "use-application-dns.net".to_owned();
        names.push(canary_name);
        assert(texts(names@) =~= doh_names(defaults@, overrides@));
        let doh_hosts = match normalize_names(&names) {
            Ok(list) => list,
            Err(error) => {
                return Err(error);
            },
        };
        let policy = EffectiveDnsPolicy {
            server_mode,
            servers,
            split_mode,
            inclusive,
            exclusive,
            block_encrypted_dns,
            doh_hosts,
        };
        assert(rules(Seq::<DomainRule>::empty()) =~= Seq::<DomainRuleView>::empty());
        assert(policy@.inclusive =~= inclusive_in_force(defaults@, overrides@));
        assert(policy@.exclusive =~= exclusive_in_force(defaults@, overrides@));
        Ok(policy)
    }
}

/// The canary name is blocked by every policy that blocks encrypted DNS.
pub proof fn law_canary_is_blocked(
    defaults: DnsDefaultsView,
    overrides: DnsOverridesView,
    open_ack: Seq<IpAddr>,
)
    requires
        resolved_policy(defaults, overrides, open_ack) is Ok,
        blocking_in_force(defaults, overrides),
    ensures
        resolved_policy(defaults, overrides, open_ack)->Ok_0.blocks(canary()),
{
    lemma_canary_is_valid();
    let names = all_normalized(doh_names(defaults, overrides));
    law_first_occurrences(names);
    assert(names[names.len() - 1] == canary());
    assert(names.contains(canary()));
}

/// A policy has at most two servers, and none twice.
pub proof fn law_policy_servers(
    defaults: DnsDefaultsView,
    overrides: DnsOverridesView,
    open_ack: Seq<IpAddr>,
)
    requires
        resolved_policy(defaults, overrides, open_ack) is Ok,
    ensures
        resolved_policy(defaults, overrides, open_ack)->Ok_0.servers.len() <= 2,
        resolved_policy(defaults, overrides, open_ack)->Ok_0.servers.no_duplicates(),
{
    law_first_occurrences(custom_servers(defaults, overrides));
    law_first_occurrences(usable(defaults.server_dns));
    law_first_occurrences(usable_v4(open_ack));
    let configured = first_occurrences(usable(defaults.server_dns));
    let session = first_occurrences(usable_v4(open_ack));
    assert(at_most(configured, 2).no_duplicates());
    assert(at_most(session, 2).no_duplicates());
}

proof fn lemma_first_occurrences_prefix<A>(list: Seq<A>, count: int)
    requires
        0 <= count <= list.len(),
    ensures
        first_occurrences(list.take(count)).is_prefix_of(first_occurrences(list)),
    decreases list.len() - count,
{
    if count == list.len() {
        assert(list.take(count) =~= list);
    } else {
        lemma_first_occurrences_prefix(list, count + 1);
        assert(list.take(count + 1).drop_last() =~= list.take(count));
    }
}

/// Of a list of rules, the first hundred thousand count, and no others do.
proof fn lemma_capped_rules(list: Seq<DomainRuleView>)
    ensures
        forall|i: int|
            0 <= i < list.len() && i < 100_000 ==> capped_rules(list).contains(#[trigger] list[i]),
        forall|rule: DomainRuleView| capped_rules(list).contains(rule) ==> list.contains(rule),
        list.len() == 0 <==> capped_rules(list).len() == 0,
{
    let all = first_occurrences(list);
    law_first_occurrences(list);
    assert forall|i: int| 0 <= i < list.len() && i < 100_000 implies capped_rules(list).contains(
        #[trigger] list[i],
    ) by {
        let head = list.take(i + 1);
        lemma_first_occurrences_prefix(list, i + 1);
        law_first_occurrences(head);
        assert(head[i] == list[i]);
        assert(head.contains(list[i]));
        let kept = first_occurrences(head);
        let k = choose|k: int| 0 <= k < kept.len() && kept[k] == list[i];
        assert(all[k] == list[i]);
        assert(capped_rules(list)[k] == list[i]);
    }
    assert forall|rule: DomainRuleView| capped_rules(list).contains(rule) implies list.contains(
        rule,
    ) by {
        let k = choose|k: int| 0 <= k < capped_rules(list).len() && capped_rules(list)[k] == rule;
        assert(all[k] == rule);
        assert(all.contains(rule));
    }
    if list.len() > 0 {
        assert(capped_rules(list).contains(list[0]));
    }
    if capped_rules(list).len() > 0 {
        assert(list.contains(capped_rules(list)[0]));
    }
}

/// Whether some rule of a list covers a name.
pub open spec fn some_rule_covers(list: Seq<DomainRule>, name: Seq<char>) -> bool {
    exists|i: int| 0 <= i < list.len() && rule_matches((#[trigger] list[i])@, name)
}

/// Whether a rule covers a name that is among those that count.
pub open spec fn counted_rule_covers(list: Seq<DomainRule>, name: Seq<char>) -> bool {
    exists|i: int|
        0 <= i < list.len() && i < 100_000 && rule_matches((#[trigger] list[i])@, name)
}

proof fn lemma_capped_matches(list: Seq<DomainRule>, name: Seq<char>)
    ensures
        counted_rule_covers(list, name) ==> any_matches(capped_rules(rules(list)), name),
        any_matches(capped_rules(rules(list)), name) ==> some_rule_covers(list, name),
        list.len() == 0 <==> capped_rules(rules(list)).len() == 0,
{
    let views = rules(list);
    lemma_capped_rules(views);
    let kept = capped_rules(views);
    if counted_rule_covers(list, name) {
        let i = choose|i: int|
            0 <= i < list.len() && i < 100_000 && rule_matches((#[trigger] list[i])@, name);
        assert(kept.contains(views[i]));
        let k = choose|k: int| 0 <= k < kept.len() && kept[k] == views[i];
        assert(rule_matches(kept[k], name));
    }
    if any_matches(kept, name) {
        let k = choose|k: int| 0 <= k < kept.len() && rule_matches(#[trigger] kept[k], name);
        assert(kept.contains(kept[k]));
        assert(views.contains(kept[k]));
        let i = choose|i: int| 0 <= i < views.len() && views[i] == kept[k];
        assert(rule_matches(list[i]@, name));
    }
}

/// Whether a split is in force: the one that was asked for, else the usual one.
pub open spec fn split_holds(
    defaults: DnsDefaults,
    overrides: DnsOverrides,
    mode: SplitDnsMode,
) -> bool {
    overrides.split_mode == Some(mode) || (overrides.split_mode is None && defaults.split_mode
        == mode)
}

/// Under a managed split, a name that the controller excludes stays out of the
/// tunnel; a name that it lists and does not exclude goes through; and where it
/// lists some, a name that it does not list stays out.
pub proof fn law_managed_split(
    defaults: &DnsDefaults,
    overrides: &DnsOverrides,
    open_ack: &[IpAddr],
    policy: EffectiveDnsPolicy,
    name: &str,
    answer: bool,
)
    requires
        call_ensures(
            DnsPolicyResolver::resolve,
            (defaults, overrides, open_ack),
            Ok::<EffectiveDnsPolicy, Error>(policy),
        ),
        call_ensures(EffectiveDnsPolicy::routes_through_tunnel, (&policy, name), answer),
        split_holds(*defaults, *overrides, SplitDnsMode::Managed),
    ensures
        policy.split_mode is Managed,
        counted_rule_covers(defaults.managed_exclusive@, name@) ==> !answer,
        counted_rule_covers(defaults.managed_inclusive@, name@) && !some_rule_covers(
            defaults.managed_exclusive@,
            name@,
        ) ==> answer,
        defaults.managed_inclusive@.len() == 0 && !some_rule_covers(
            defaults.managed_exclusive@,
            name@,
        ) ==> answer,
        defaults.managed_inclusive@.len() > 0 && !some_rule_covers(
            defaults.managed_inclusive@,
            name@,
        ) ==> !answer,
{
    lemma_capped_matches(defaults.managed_exclusive@, name@);
    lemma_capped_matches(defaults.managed_inclusive@, name@);
}

/// Under a split of the user's own, a name goes through the tunnel where one of
/// the user's rules covers it, or one of the controller's where these count too,
/// and no rule of the controller excludes it.
pub proof fn law_custom_split(
    defaults: &DnsDefaults,
    overrides: &DnsOverrides,
    open_ack: &[IpAddr],
    policy: EffectiveDnsPolicy,
    name: &str,
    answer: bool,
)
    requires
        call_ensures(
            DnsPolicyResolver::resolve,
            (defaults, overrides, open_ack),
            Ok::<EffectiveDnsPolicy, Error>(policy),
        ),
        call_ensures(EffectiveDnsPolicy::routes_through_tunnel, (&policy, name), answer),
        split_holds(*defaults, *overrides, SplitDnsMode::Custom),
    ensures
        ({
            let own = match overrides.split_domains {
                Some(list) => list@,
                None => defaults.custom_domains@,
            };
            let all = if defaults.managed_domain_filter {
                own + defaults.managed_inclusive@
            } else {
                own
            };
            &&& policy.split_mode is Custom
            &&& counted_rule_covers(defaults.managed_exclusive@, name@) ==> !answer
            &&& counted_rule_covers(all, name@) && !some_rule_covers(
                defaults.managed_exclusive@,
                name@,
            ) ==> answer
            &&& all.len() > 0 && !some_rule_covers(all, name@) ==> !answer
            &&& all.len() == 0 && !some_rule_covers(defaults.managed_exclusive@, name@) ==> answer
        }),
{
    let own = match overrides.split_domains {
        Some(list) => list@,
        None => defaults.custom_domains@,
    };
    let all = if defaults.managed_domain_filter {
        own + defaults.managed_inclusive@
    } else {
        own
    };
    assert(rules(own + defaults.managed_inclusive@) =~= rules(own) + rules(
        defaults.managed_inclusive@,
    ));
    lemma_capped_matches(defaults.managed_exclusive@, name@);
    lemma_capped_matches(all, name@);
}

/// Without a split every name goes through the tunnel.
pub proof fn law_no_split(
    defaults: &DnsDefaults,
    overrides: &DnsOverrides,
    open_ack: &[IpAddr],
    policy: EffectiveDnsPolicy,
    name: &str,
    answer: bool,
)
    requires
        call_ensures(
            DnsPolicyResolver::resolve,
            (defaults, overrides, open_ack),
            Ok::<EffectiveDnsPolicy, Error>(policy),
        ),
        call_ensures(EffectiveDnsPolicy::routes_through_tunnel, (&policy, name), answer),
        split_holds(*defaults, *overrides, SplitDnsMode::Off) || split_holds(
            *defaults,
            *overrides,
            SplitDnsMode::TunnelAll,
        ),
    ensures
        answer,
        policy.split_mode is Off <==> split_holds(*defaults, *overrides, SplitDnsMode::Off),
{
}

/// Whether names are looked up through servers of a kind.
pub open spec fn servers_asked(
    defaults: DnsDefaults,
    overrides: DnsOverrides,
    mode: DnsServerMode,
) -> bool {
    overrides.server_mode == Some(mode) || (overrides.server_mode is None && defaults.local_mode
        == mode)
}

/// An address that a DNS server can have: neither 0.0.0.0, nor multicast, nor
/// 255.255.255.255.
pub open spec fn can_serve(address: Ipv4Addr) -> bool {
    0 < address.bits < 0xffff_ffff && !(0xe000_0000 <= address.bits <= 0xefff_ffff)
}

proof fn lemma_usable_v4(list: Seq<IpAddr>, address: Ipv4Addr)
    ensures
        usable_v4(list).contains(address) <==> (list.contains(IpAddr::V4(address)) && can_serve(
            address,
        )),
    decreases list.len(),
{
    if list.len() > 0 {
        let head = list.drop_last();
        let tail = seq![list.last()];
        lemma_usable_v4(head, address);
        assert(list =~= head + tail);
        crate::text::lemma_sum_contains(head, tail, IpAddr::V4(address));
        assert(tail.contains(IpAddr::V4(address)) <==> list.last() == IpAddr::V4(address)) by {
            assert(tail[0] == list.last());
        }
        if let IpAddr::V4(last) = list.last() {
            assert(is_usable(last) == can_serve(last));
            if can_serve(last) {
                assert(usable_v4(list) =~= usable_v4(head) + seq![last]);
                crate::text::lemma_sum_contains(usable_v4(head), seq![last], address);
                assert(seq![last].contains(address) <==> last == address) by {
                    assert(seq![last][0] == last);
                }
            }
        }
    }
}

proof fn lemma_some_remain(list: Seq<Ipv4Addr>)
    ensures
        at_most(first_occurrences(list), 2).len() == 0 <==> list.len() == 0,
        forall|address: Ipv4Addr|
            at_most(first_occurrences(list), 2).contains(address) ==> list.contains(address),
{
    law_first_occurrences(list);
    let all = first_occurrences(list);
    let kept = at_most(all, 2);
    if list.len() > 0 {
        assert(list.contains(list[0]));
        assert(all.contains(list[0]));
    }
    assert forall|address: Ipv4Addr| kept.contains(address) implies list.contains(address) by {
        let k = choose|k: int| 0 <= k < kept.len() && kept[k] == address;
        assert(all[k] == address);
        assert(all.contains(address));
    }
    if kept.len() > 0 {
        assert(list.contains(kept[0])) by {
            assert(kept.contains(kept[0]));
        }
    }
}

/// Which servers a policy has: none where DNS is off; the given ones where they are
/// given; and else, of those that can serve, the controller's where it sets some,
/// those that the session brings, or 1.1.1.1 and 114.114.114.114 beside a
/// controller without any. There is at least one wherever there is one to have.
pub proof fn law_which_servers(
    defaults: &DnsDefaults,
    overrides: &DnsOverrides,
    open_ack: &[IpAddr],
    policy: EffectiveDnsPolicy,
    server: Ipv4Addr,
)
    requires
        call_ensures(
            DnsPolicyResolver::resolve,
            (defaults, overrides, open_ack),
            Ok::<EffectiveDnsPolicy, Error>(policy),
        ),
    ensures
        ({
            let asked = servers_asked(*defaults, *overrides, DnsServerMode::Server);
            let off = servers_asked(*defaults, *overrides, DnsServerMode::Disabled) || (asked
                && defaults.server_mode is Disabled);
            let given = match overrides.servers {
                Some(list) => list@,
                None => defaults.local_dns@,
            };
            let configured = defaults.server_mode is Custom && exists|i: int|
                0 <= i < defaults.server_dns@.len() && can_serve(
                    #[trigger] defaults.server_dns@[i],
                );
            let brought = exists|address: Ipv4Addr| #[trigger]
                open_ack@.contains(IpAddr::V4(address)) && can_serve(address);
            &&& policy.server_mode is Disabled <==> off
            &&& off ==> policy.servers@.len() == 0
            &&& servers_asked(*defaults, *overrides, DnsServerMode::Custom) ==> (
            policy.servers@.contains(server) <==> given.contains(server))
            &&& asked && !off && configured ==> policy.servers@.len() > 0 && (
            policy.servers@.contains(server) ==> defaults.server_dns@.contains(server)
                && can_serve(server))
            &&& asked && !off && !configured && brought ==> policy.servers@.len() > 0 && (
            policy.servers@.contains(server) ==> open_ack@.contains(IpAddr::V4(server))
                && can_serve(server))
            &&& asked && !off && !configured && !brought ==> if defaults.controller_service {
                policy.servers@.len() == 2 && policy.servers@[0].bits == 0x01010101
                    && policy.servers@[1].bits == 0x72727272
            } else {
                policy.servers@.len() == 0
            }
        }),
{
    let given = match overrides.servers {
        Some(list) => list@,
        None => defaults.local_dns@,
    };
    law_first_occurrences(given);
    lemma_usable_v4(open_ack@, server);
    lemma_some_remain(usable_v4(open_ack@));
    let wanted = |address: Ipv4Addr| is_usable(address);
    let usable_list = usable(defaults.server_dns@);
    lemma_some_remain(usable_list);
    assert forall|address: Ipv4Addr| is_usable(address) == can_serve(address) by {}
    crate::text::lemma_filter_contains(defaults.server_dns@, wanted, server);
    let configured = exists|i: int|
        0 <= i < defaults.server_dns@.len() && can_serve(#[trigger] defaults.server_dns@[i]);
    if configured {
        let i = choose|i: int|
            0 <= i < defaults.server_dns@.len() && can_serve(#[trigger] defaults.server_dns@[i]);
        crate::text::lemma_filter_contains(defaults.server_dns@, wanted, defaults.server_dns@[i]);
        assert(defaults.server_dns@.contains(defaults.server_dns@[i]));
        assert(usable_list.contains(defaults.server_dns@[i]));
    } else if usable_list.len() > 0 {
        crate::text::lemma_filter_contains(defaults.server_dns@, wanted, usable_list[0]);
        assert(usable_list.contains(usable_list[0]));
        let i = choose|i: int|
            0 <= i < defaults.server_dns@.len() && defaults.server_dns@[i] == usable_list[0];
        assert(can_serve(defaults.server_dns@[i]));
    }
    let session = usable_v4(open_ack@);
    if session.len() > 0 {
        assert(session.contains(session[0]));
        lemma_usable_v4(open_ack@, session[0]);
        assert(open_ack@.contains(IpAddr::V4(session[0])));
    }
    if exists|address: Ipv4Addr| #[trigger] open_ack@.contains(IpAddr::V4(address)) && can_serve(address) {
        let address = choose|address: Ipv4Addr| #[trigger]
            open_ack@.contains(IpAddr::V4(address)) && can_serve(address);
        lemma_usable_v4(open_ack@, address);
        assert(session.contains(address));
    }
}

/// What stands behind encrypted DNS: it is blocked where that was asked for, let
/// through where that was, and else as the controller says. Blocked are the hosts
/// that either of them lists, and the name that browsers ask before they use it.
pub proof fn law_encrypted_dns(
    defaults: &DnsDefaults,
    overrides: &DnsOverrides,
    open_ack: &[IpAddr],
    policy: EffectiveDnsPolicy,
    name: &str,
    answer: bool,
)
    requires
        call_ensures(
            DnsPolicyResolver::resolve,
            (defaults, overrides, open_ack),
            Ok::<EffectiveDnsPolicy, Error>(policy),
        ),
        call_ensures(EffectiveDnsPolicy::blocks_doh_host, (&policy, name), answer),
    ensures
        ({
            let blocking = overrides.encrypted_dns == Some(EncryptedDnsMode::Block) || (
            overrides.encrypted_dns != Some(EncryptedDnsMode::Allow)
                && defaults.block_encrypted_dns);
            let listed = |list: Seq<String>|
                exists|i: int|
                    0 <= i < list.len() && normalized((#[trigger] list[i])@) == normalized(name@);
            &&& policy.block_encrypted_dns == blocking
            &&& answer <==> blocking && (listed(defaults.secure_dns_hosts@) || (
            overrides.doh_hosts matches Some(hosts) && listed(hosts@)) || normalized(name@)
                == normalized("use-application-dns.net"@))
        }),
{
    let names = doh_names(defaults@, overrides@);
    let shown = |host: Seq<char>| normalized(host);
    law_first_occurrences(all_normalized(names));
    crate::text::lemma_map_contains(names, shown, normalized(name@));
    let own = texts(defaults.secure_dns_hosts@);
    let extra = match overrides@.doh_hosts {
        Some(list) => list,
        None => Seq::empty(),
    };
    assert(names =~= own + extra + seq!["use-application-dns.net"@]);
    let listed = |list: Seq<String>|
        exists|i: int|
            0 <= i < list.len() && normalized((#[trigger] list[i])@) == normalized(name@);
    if exists|i: int| 0 <= i < names.len() && shown(#[trigger] names[i]) == normalized(name@) {
        let i = choose|i: int| 0 <= i < names.len() && shown(#[trigger] names[i]) == normalized(name@);
        if i < own.len() {
            assert(normalized(defaults.secure_dns_hosts@[i]@) == normalized(name@));
        } else if i < own.len() + extra.len() {
            assert(normalized(overrides.doh_hosts->Some_0@[i - own.len()]@) == normalized(name@));
        }
    }
    if listed(defaults.secure_dns_hosts@) {
        let list = defaults.secure_dns_hosts@;
        let i = choose|i: int|
            0 <= i < list.len() && normalized((#[trigger] list[i])@) == normalized(name@);
        assert(shown(names[i]) == normalized(name@));
    }
    if overrides.doh_hosts is Some && listed(overrides.doh_hosts->Some_0@) {
        let list = overrides.doh_hosts->Some_0@;
        let i = choose|i: int|
            0 <= i < list.len() && normalized((#[trigger] list[i])@) == normalized(name@);
        assert(shown(names[own.len() + i]) == normalized(name@));
    }
    if normalized(name@) == normalized("use-application-dns.net"@) {
        assert(shown(names[names.len() - 1]) == normalized(name@));
    }
}

/// A policy handles packets where it blocks encrypted DNS or routes DNS; it routes
/// DNS where there are servers, DNS is on and so is the split.
pub proof fn law_engine_switches(policy: EffectiveDnsPolicy, engine: bool, routing: bool)
    requires
        call_ensures(EffectiveDnsPolicy::engine_enabled, (&policy,), engine),
        call_ensures(EffectiveDnsPolicy::dns_routing_enabled, (&policy,), routing),
    ensures
        routing <==> policy.servers@.len() > 0 && !(policy.server_mode is Disabled) && !(
        policy.split_mode is Off),
        engine <==> policy.block_encrypted_dns || routing,
{
}

/// Settings that contradict themselves give no policy: more than two servers,
/// own servers or an own split without any, or an own server that cannot serve.
pub proof fn law_unusable_settings(
    defaults: &DnsDefaults,
    overrides: &DnsOverrides,
    open_ack: &[IpAddr],
    result: Result<EffectiveDnsPolicy, Error>,
)
    requires
        call_ensures(DnsPolicyResolver::resolve, (defaults, overrides, open_ack), result),
    ensures
        (overrides.servers matches Some(list) && list@.len() > 2) ==> result is Err,
        overrides.server_mode == Some(DnsServerMode::Custom) && !(overrides.servers matches Some(
            list,
        ) && list@.len() > 0) ==> result is Err,
        overrides.split_mode == Some(SplitDnsMode::Custom) && !(
        overrides.split_domains matches Some(list) && list@.len() > 0) ==> result is Err,
        servers_asked(*defaults, *overrides, DnsServerMode::Custom) && overrides.servers is None && (
        defaults.local_dns@.len() == 0 || defaults.local_dns@.len() > 2) ==> result is Err,
        servers_asked(*defaults, *overrides, DnsServerMode::Custom) && (
        overrides.servers matches Some(list) && exists|i: int|
            0 <= i < list@.len() && !can_serve(#[trigger] list@[i])) ==> result is Err,
        (overrides.split_domains matches Some(list) && list@.len() > 100_000) ==> result is Err,
        (overrides.doh_hosts matches Some(list) && list@.len() > 100_000) ==> result is Err,
{
    if let Some(list) = overrides.servers {
        if exists|i: int| 0 <= i < list@.len() && !can_serve(#[trigger] list@[i]) {
            let i = choose|i: int| 0 <= i < list@.len() && !can_serve(#[trigger] list@[i]);
            lemma_first_unusable(list@, i);
        }
    }
}

proof fn lemma_first_unusable(list: Seq<Ipv4Addr>, i: int)
    requires
        0 <= i < list.len(),
        !can_serve(list[i]),
    ensures
        first_unusable(list) is Some,
    decreases list.len(),
{
    if can_serve(list[0]) {
        assert(list.drop_first()[i - 1] == list[i]);
        lemma_first_unusable(list.drop_first(), i - 1);
    }
}

/// What a command says goes before what stands under it, setting by setting.
pub proof fn law_higher_layer_wins(lower: DnsOverrides, higher: DnsOverrides, merged: DnsOverrides)
    requires
        call_ensures(DnsOverrides::layered, (&lower, &higher), merged),
    ensures
        merged@.server_mode == if higher.server_mode is Some {
            higher@.server_mode
        } else {
            lower@.server_mode
        },
        merged@.servers == if higher.servers is Some {
            higher@.servers
        } else {
            lower@.servers
        },
        merged@.split_mode == if higher.split_mode is Some {
            higher@.split_mode
        } else {
            lower@.split_mode
        },
        merged@.split_domains == if higher.split_domains is Some {
            higher@.split_domains
        } else {
            lower@.split_domains
        },
        merged@.encrypted_dns == if higher.encrypted_dns is Some {
            higher@.encrypted_dns
        } else {
            lower@.encrypted_dns
        },
        merged@.doh_hosts == if higher.doh_hosts is Some {
            higher@.doh_hosts
        } else {
            lower@.doh_hosts
        },
{
}

/// How the modes are called.
pub proof fn law_mode_names(
    text: &str,
    server: Result<DnsServerMode, Error>,
    listed: ServerListDnsMode,
    split: Result<SplitDnsMode, Error>,
    encrypted: Result<EncryptedDnsMode, Error>,
)
    requires
        call_ensures(DnsServerMode::parse, (text,), server),
        call_ensures(ServerListDnsMode::from_server_value, (text,), listed),
        call_ensures(SplitDnsMode::parse, (text,), split),
        call_ensures(EncryptedDnsMode::parse, (text,), encrypted),
    ensures
        ({
            let name = lower(trimmed(text@));
            &&& name == "server"@ ==> server == Ok::<DnsServerMode, Error>(DnsServerMode::Server)
            &&& name == "custom"@ ==> server == Ok::<DnsServerMode, Error>(DnsServerMode::Custom)
                && listed is Custom && split == Ok::<SplitDnsMode, Error>(SplitDnsMode::Custom)
            &&& name == "disabled"@ ==> server == Ok::<DnsServerMode, Error>(
                DnsServerMode::Disabled,
            ) && listed is Disabled && split == Ok::<SplitDnsMode, Error>(SplitDnsMode::Off)
            &&& name == "off"@ ==> split == Ok::<SplitDnsMode, Error>(SplitDnsMode::Off)
            &&& name == "tunnel-all"@ || name == "tunnel_all"@ ==> split == Ok::<
                SplitDnsMode,
                Error,
            >(SplitDnsMode::TunnelAll)
            &&& name == "managed"@ ==> split == Ok::<SplitDnsMode, Error>(SplitDnsMode::Managed)
            &&& name == "inherit"@ ==> encrypted == Ok::<EncryptedDnsMode, Error>(
                EncryptedDnsMode::Inherit,
            )
            &&& name == "block"@ ==> encrypted == Ok::<EncryptedDnsMode, Error>(
                EncryptedDnsMode::Block,
            )
            &&& name == "allow"@ ==> encrypted == Ok::<EncryptedDnsMode, Error>(
                EncryptedDnsMode::Allow,
            )
            &&& name == "block"@ ==> server is Err && split is Err && listed is Auto
        }),
{
    reveal_strlit("server");
    reveal_strlit("custom");
    reveal_strlit("disabled");
    reveal_strlit("disable");
    reveal_strlit("off");
    reveal_strlit("tunnel-all");
    reveal_strlit("tunnel_all");
    reveal_strlit("managed");
    reveal_strlit("inherit");
    reveal_strlit("block");
    reveal_strlit("allow");
    let name = lower(trimmed(text@));
    let plain = replaced(name, '-', '_');
    assert(name == "custom"@ ==> plain =~= "custom"@);
    assert(name == "disabled"@ ==> plain =~= "disabled"@);
    assert(name == "off"@ ==> plain =~= "off"@);
    assert(name == "tunnel-all"@ ==> plain =~= "tunnel_all"@);
    assert(name == "tunnel_all"@ ==> plain =~= "tunnel_all"@);
    assert(name == "managed"@ ==> plain =~= "managed"@);
    assert(name == "block"@ ==> plain =~= "block"@);
    assert("custom"@.len() == 6 && "custom"@[0] == 'c');
    assert("server"@.len() == 6 && "server"@[0] == 's');
    assert("block"@.len() == 5 && "block"@[0] == 'b');
    assert("off"@.len() == 3);
    assert("disabled"@.len() == 8 && "disable"@.len() == 7);
    assert("managed"@.len() == 7 && "managed"@[0] == 'm' && "disable"@[0] == 'd');
    assert("tunnel_all"@.len() == 10);
    assert("inherit"@.len() == 7 && "allow"@.len() == 5 && "allow"@[0] == 'a');
}

/// What a rule covers: with `^` its domain alone, with `@` also what stands below
/// the domain, and else whatever ends as the domain does.
pub proof fn law_rule_coverage(rule: DomainRule, candidate: &str, answer: bool, below: Seq<char>)
    requires
        call_ensures(DomainRule::matches, (&rule, candidate), answer),
    ensures
        ({
            let name = normalized(candidate@);
            let domain = rule@.domain;
            &&& name == domain ==> answer
            &&& rule@.kind is Exact && answer ==> name == domain
            &&& name == below + "."@ + domain && !(rule@.kind is Exact) ==> answer
            &&& name == below + domain && rule@.kind is Suffix ==> answer
            &&& rule@.kind is Suffix && answer ==> exists|head: Seq<char>| name == head + domain
            &&& rule@.kind is Domain && answer ==> name == domain || exists|head: Seq<char>|
                name == head + "."@ + domain
        }),
{
    reveal_strlit(".");
    let name = normalized(candidate@);
    let domain = rule@.domain;
    let dotted = seq!['.'] + domain;
    assert("."@ =~= seq!['.']);
    if name == domain {
        assert(name.skip(0) =~= domain);
    }
    if name == below + "."@ + domain {
        assert(name.skip(name.len() - dotted.len()) =~= dotted);
        assert(name.skip(name.len() - domain.len()) =~= domain);
    }
    if name == below + domain {
        assert(name.skip(name.len() - domain.len()) =~= domain);
    }
    if has_suffix(name, domain) {
        let head = name.take(name.len() - domain.len());
        assert(name =~= head + domain) by {
            assert(name =~= head + name.skip(name.len() - domain.len()));
        }
    }
    if has_suffix(name, dotted) {
        let head = name.take(name.len() - dotted.len());
        assert(name =~= head + "."@ + domain) by {
            assert(name =~= head + name.skip(name.len() - dotted.len()));
        }
    }
}

/// How a rule is written: `*`, `@` or `^` and a domain, or the domain alone.
pub proof fn law_rule_notation(text: &str, result: Result<DomainRule, Error>)
    requires
        call_ensures(DomainRule::parse, (text,), result),
    ensures
        ({
            let name = normalized(text@);
            &&& name.len() == 0 ==> result is Err
            &&& name.len() > 0 && name[0] == '*' ==> (result is Ok <==> valid_name(name.skip(1)))
                && (result matches Ok(rule) ==> rule@.kind is Suffix && rule@.domain == name.skip(1))
            &&& name.len() > 0 && name[0] == '@' ==> (result is Ok <==> valid_name(name.skip(1)))
                && (result matches Ok(rule) ==> rule@.kind is Domain && rule@.domain == name.skip(1))
            &&& name.len() > 0 && name[0] == '^' ==> (result is Ok <==> valid_name(name.skip(1)))
                && (result matches Ok(rule) ==> rule@.kind is Exact && rule@.domain == name.skip(1))
            &&& name.len() > 0 && name[0] != '*' && name[0] != '@' && name[0] != '^' ==> (
            result is Ok <==> valid_name(name)) && (result matches Ok(rule) ==> rule@.kind is Suffix
                && rule@.domain == name)
        }),
{
}

/// A name has at most 253 characters, and its labels have one to 63 each: letters and
/// digits of ASCII, hyphens and underscores.
pub proof fn law_valid_names(value: &str, label: &str, result: Result<(), Error>)
    requires
        call_ensures(validate_name, (value, label), result),
    ensures
        value@.len() > 253 ==> result is Err,
        !value@.contains('.') && value@.len() <= 253 ==> (result is Ok <==> 1 <= value@.len() <= 63
            && (forall|i: int|
            0 <= i < value@.len() ==> {
                let c = #[trigger] value@[i];
                'a' <= c <= 'z' || 'A' <= c <= 'Z' || '0' <= c <= '9' || c == '-' || c == '_'
            })),
{
    if !value@.contains('.') {
        crate::text::lemma_only_piece(value@, '.');
        assert(pieces(value@, '.')[0] == value@);
        assert forall|c: char| is_label_char(c) <==> ('a' <= c <= 'z' || 'A' <= c <= 'Z' || '0' <= c
            <= '9' || c == '-' || c == '_') by {
            crate::text::lemma_char_code(c);
        }
        if valid_label(value@) {
            assert forall|i: int| 0 <= i < value@.len() implies {
                let c = #[trigger] value@[i];
                'a' <= c <= 'z' || 'A' <= c <= 'Z' || '0' <= c <= '9' || c == '-' || c == '_'
            } by {
                assert(is_label_char(value@[i]));
            }
        }
    }
}

/// A name of several labels is valid where each is, and it is not too long.
pub proof fn law_valid_labels(
    value: &str,
    last: &str,
    before: Seq<char>,
    label: &str,
    result: Result<(), Error>,
    tail: Result<(), Error>,
)
    requires
        call_ensures(validate_name, (value, label), result),
        call_ensures(validate_name, (last, label), tail),
        value@ == before + seq!['.'] + last@,
        !last@.contains('.'),
        value@.len() <= 253,
    ensures
        result is Ok <==> tail is Ok && valid_name(before),
{
    crate::text::lemma_last_piece(before, '.', last@);
    crate::text::lemma_only_piece(last@, '.');
    let parts = pieces(before, '.');
    let all = parts.push(last@);
    assert(pieces(value@, '.') == all);
    assert(pieces(last@, '.')[0] == last@);
    if valid_name(value@) {
        assert(valid_label(all[parts.len() as int]));
        assert forall|i: int| 0 <= i < parts.len() implies valid_label(#[trigger] parts[i]) by {
            assert(all[i] == parts[i]);
        }
    }
    if valid_name(last@) && valid_name(before) {
        assert(valid_label(pieces(last@, '.')[0]));
        assert forall|i: int| 0 <= i < all.len() implies valid_label(#[trigger] all[i]) by {
            if i < parts.len() {
                assert(all[i] == parts[i]);
            }
        }
    }
}

proof fn lemma_names_are_valid(names: Seq<Seq<char>>)
    ensures
        first_name_error(names) is None <==> (forall|i: int|
            0 <= i < names.len() ==> valid_name(normalized(#[trigger] names[i]))),
    decreases names.len(),
{
    if names.len() > 0 {
        let rest = names.drop_first();
        lemma_names_are_valid(rest);
        if first_name_error(names) is None {
            assert forall|i: int| 0 <= i < names.len() implies valid_name(
                normalized(#[trigger] names[i]),
            ) by {
                if i > 0 {
                    assert(rest[i - 1] == names[i]);
                }
            }
        }
        if forall|i: int|
            0 <= i < names.len() ==> valid_name(normalized(#[trigger] names[i])) {
            assert(valid_name(normalized(names[0])));
            assert forall|i: int| 0 <= i < rest.len() implies valid_name(
                normalized(#[trigger] rest[i]),
            ) by {
                assert(rest[i] == names[i + 1]);
            }
        }
    }
}

/// Host names are taken in small letters and without a final dot, each once, where
/// all of them are valid.
pub proof fn law_normalized_names(
    values: &Vec<String>,
    result: Result<Vec<String>, Error>,
    i: int,
)
    requires
        call_ensures(normalize_names, (values,), result),
    ensures
        result is Ok <==> (forall|k: int|
            0 <= k < values@.len() ==> valid_name(normalized((#[trigger] values@[k])@))),
        result is Ok && 0 <= i < values@.len() ==> texts(result->Ok_0@).contains(
            normalized(values@[i]@),
        ),
        result matches Ok(names) ==> texts(names@).no_duplicates(),
{
    let list = texts(values@);
    lemma_names_are_valid(list);
    assert(list.len() == values@.len());
    if forall|k: int|
        0 <= k < values@.len() ==> valid_name(normalized((#[trigger] values@[k])@)) {
        assert forall|k: int| 0 <= k < list.len() implies valid_name(
            normalized(#[trigger] list[k]),
        ) by {
            assert(list[k] == values@[k]@);
        }
    }
    if result is Ok {
        assert forall|k: int| 0 <= k < values@.len() implies valid_name(
            normalized((#[trigger] values@[k])@),
        ) by {
            assert(list[k] == values@[k]@);
        }
        law_first_occurrences(all_normalized(list));
        if 0 <= i < values@.len() {
            let all = all_normalized(list);
            assert(list[i] == values@[i]@);
            assert(all[i] == normalized(values@[i]@));
            assert(all.contains(normalized(values@[i]@)));
            assert(first_occurrences(all).contains(normalized(values@[i]@)));
        }
    }
}

/// Overrides are valid where they name at most two servers, and some for the custom
/// mode; some rules for the custom split, and no more than 100000; and host names
/// that are valid, and no more than that either.
pub proof fn law_valid_overrides(overrides: DnsOverrides, result: Result<(), Error>)
    requires
        call_ensures(DnsOverrides::validate, (&overrides,), result),
    ensures
        result is Ok <==> {
            let view = overrides@;
            &&& view.servers is Some ==> view.servers->Some_0.len() <= 2
            &&& view.server_mode == Some(DnsServerMode::Custom) ==> view.servers is Some
                && view.servers->Some_0.len() > 0
            &&& view.split_mode == Some(SplitDnsMode::Custom) ==> view.split_domains is Some
                && view.split_domains->Some_0.len() > 0
            &&& view.split_domains is Some ==> view.split_domains->Some_0.len() <= 100_000
            &&& view.doh_hosts is Some ==> view.doh_hosts->Some_0.len() <= 100_000 && forall|i: int|
                0 <= i < view.doh_hosts->Some_0.len() ==> valid_name(
                    normalized(#[trigger] view.doh_hosts->Some_0[i]),
                )
        },
{
    if overrides@.doh_hosts is Some {
        lemma_names_are_valid(overrides@.doh_hosts->Some_0);
    }
}

} // verus!
