//! Looking names up over the tunnel.
//!
//! A lookup decides what to ask and what an answer says; whoever drives it
//! exchanges the messages.

use super::message::{
    copy_labels, decode_answers, decode_message, encode_message, read_ascii_name, same_name, DnsData,
    DnsMessage, DnsQuestion, DnsRecord,
};
use super::message::{
    ascii_name, dns_answers, dns_decoded, dns_encoded, label_views, name_key, question_views,
    record_views, DnsDataView, DnsMessageView, DnsQuestionView, DnsRecordView,
};
use super::policy::{first_occurrences, law_first_occurrences};
use crate::net::{IpAddr, Ipv4Addr, Ipv6Addr};
use vstd::prelude::*;

verus! {

pub const DNS_PORT: u16 = 53;

pub const MAX_CNAME_DEPTH: usize = 8;

pub const RECORD_TYPE_A: u16 = 1;

pub const RECORD_TYPE_AAAA: u16 = 28;

pub const CLASS_INTERNET: u16 = 1;

/// The addresses of a name and for how many seconds they may be kept.
#[derive(Debug)]
pub struct DnsLookup {
    pub addresses: Vec<IpAddr>,
    pub ttl_secs: u64,
}

/// Why a lookup gave no addresses.
#[derive(Debug, Clone, Copy, PartialEq, Eq, Structural)]
pub enum LookupError {
    InvalidName,
    UnwritableQuery,
    MalformedResponse,
    EmptyStreamResponse,
    TransactionMismatch,
    HeaderMismatch,
    NoSuchName,
    ServerReturned(u16),
    QuestionMismatch,
    NoRecords,
    AliasLoop,
    ChainTooDeep,
}

/// What a datagram means to a lookup that waits for a response.
#[derive(Debug, Clone, Copy, PartialEq, Eq, Structural)]
pub enum DatagramVerdict {
    /// It answers something else: wait on.
    Ignore,
    /// It is the response.
    Answer,
    /// It is the response, but cut off: ask again over TCP.
    Truncated,
}

/// Judges a datagram: only one from the server that was asked, under the
/// identifier of the query, is the response.
pub fn judge_datagram(response: &[u8], id: u16, from_server: bool) -> (result: Result<
    DatagramVerdict,
    LookupError,
>)
    ensures
        result == if !from_server {
            Ok::<DatagramVerdict, LookupError>(DatagramVerdict::Ignore)
        } else {
            match dns_decoded(response@) {
                Err(_) => Err(LookupError::MalformedResponse),
                Ok(message) => Ok(
                    if message.id != id {
                        DatagramVerdict::Ignore
                    } else if message.truncated {
                        DatagramVerdict::Truncated
                    } else {
                        DatagramVerdict::Answer
                    },
                ),
            }
        },
{
    if !from_server {
        return Ok(DatagramVerdict::Ignore);
    }
    match decode_message(response) {
        Err(_) => Err(LookupError::MalformedResponse),
        Ok(message) => if message.id != id {
            Ok(DatagramVerdict::Ignore)
        } else if message.truncated {
            Ok(DatagramVerdict::Truncated)
        } else {
            Ok(DatagramVerdict::Answer)
        },
    }
}

/// Judges a response that came over TCP: it has to be under the identifier of
/// the query.
pub fn judge_stream(response: &[u8], id: u16) -> (result: Result<(), LookupError>)
    ensures
        result == if response@.len() == 0 {
            Err::<(), LookupError>(LookupError::EmptyStreamResponse)
        } else {
            match dns_decoded(response@) {
                Err(_) => Err(LookupError::MalformedResponse),
                Ok(message) => if message.id != id {
                    Err(LookupError::TransactionMismatch)
                } else {
                    Ok(())
                },
            }
        },
{
    if response.len() == 0 {
        return Err(LookupError::EmptyStreamResponse);
    }
    match decode_message(response) {
        Err(_) => Err(LookupError::MalformedResponse),
        Ok(message) => if message.id != id {
            Err(LookupError::TransactionMismatch)
        } else {
            Ok(())
        },
    }
}

/// The port that DNS servers listen on.
pub fn default_port() -> (port: u16)
    ensures
        port == 53,
{
    DNS_PORT
}

/// The query for records of a type.
pub open spec fn query_message(id: u16, labels: Seq<Seq<u8>>, record_type: u16) -> DnsMessageView {
    DnsMessageView {
        id,
        response: false,
        op_code: 0,
        truncated: false,
        recursion_desired: true,
        recursion_available: false,
        response_code: 0,
        questions: seq![
            DnsQuestionView {
                labels,
                name: Seq::empty(),
                record_type,
                class: CLASS_INTERNET,
            },
        ],
    }
}

pub fn build_query(id: u16, labels: &Vec<Vec<u8>>, record_type: u16) -> (result: Result<
    Vec<u8>,
    LookupError,
>)
    ensures
        match result {
            Ok(bytes) => dns_encoded(query_message(id, label_views(labels@), record_type)) == Some(
                bytes@,
            ),
            Err(error) => dns_encoded(query_message(id, label_views(labels@), record_type)) is None
                && error == LookupError::UnwritableQuery,
        },
{
    let mut questions: Vec<DnsQuestion> = Vec::new();
    let question = DnsQuestion {
        labels: copy_labels(labels),
        name: String::new(),
        record_type,
        class: CLASS_INTERNET,
    };
    questions.push(question);
    let message = DnsMessage {
        id,
        response: false,
        op_code: 0,
        truncated: false,
        recursion_desired: true,
        recursion_available: false,
        response_code: 0,
        questions,
    };
    assert(question@ =~= query_message(id, label_views(labels@), record_type).questions[0]);
    assert(message@.questions =~= query_message(
        id,
        label_views(labels@),
        record_type,
    ).questions);
    assert(message@ =~= query_message(id, label_views(labels@), record_type));
    match encode_message(&message) {
        Some(bytes) => Ok(bytes),
        None => Err(LookupError::UnwritableQuery),
    }
}

/// How far aliases were followed: the names that count as the one asked for,
/// the last alias, and the shortest time to live on the way.
#[verifier::ext_equal]
pub struct ChaseView {
    pub accepted: Seq<Seq<Seq<u8>>>,
    pub canonical: Option<Seq<Seq<u8>>>,
    pub ttl: u32,
}

pub open spec fn smaller(left: u32, right: u32) -> u32 {
    if left <= right {
        left
    } else {
        right
    }
}

/// Follows one record if it is an alias of an accepted name to a new one.
pub open spec fn chase_record(state: ChaseView, record: DnsRecordView) -> ChaseView {
    match record.data {
        DnsDataView::Alias(target) => if state.accepted.contains(name_key(record.labels))
            && !state.accepted.contains(name_key(target)) {
            ChaseView {
                accepted: state.accepted.push(name_key(target)),
                canonical: Some(target),
                ttl: smaller(state.ttl, record.ttl),
            }
        } else {
            state
        },
        _ => state,
    }
}

/// Follows the records of an answer, one behind the other.
pub open spec fn chase_pass(state: ChaseView, records: Seq<DnsRecordView>) -> ChaseView
    decreases records.len(),
{
    if records.len() == 0 {
        state
    } else {
        chase_record(chase_pass(state, records.drop_last()), records.last())
    }
}

/// Follows the records of an answer several times over.
pub open spec fn chase(state: ChaseView, records: Seq<DnsRecordView>, passes: nat) -> ChaseView
    decreases passes,
{
    if passes == 0 {
        state
    } else {
        chase(chase_pass(state, records), records, (passes - 1) as nat)
    }
}

/// The address that a record gives for a type, if it does.
pub open spec fn record_address(record: DnsRecordView, record_type: u16) -> Option<IpAddr> {
    match record.data {
        DnsDataView::Address4(bits) => if record_type == RECORD_TYPE_A {
            Some(IpAddr::V4(Ipv4Addr { bits }))
        } else {
            None
        },
        DnsDataView::Address6(bits) => if record_type == RECORD_TYPE_AAAA {
            Some(IpAddr::V6(Ipv6Addr { bits }))
        } else {
            None
        },
        _ => None,
    }
}

/// Whether a record gives an address of an accepted name.
pub open spec fn gives_address(
    record: DnsRecordView,
    accepted: Seq<Seq<Seq<u8>>>,
    record_type: u16,
) -> bool {
    accepted.contains(name_key(record.labels)) && record_address(record, record_type) is Some
}

/// The addresses of accepted names, in order.
pub open spec fn all_addresses(
    records: Seq<DnsRecordView>,
    accepted: Seq<Seq<Seq<u8>>>,
    record_type: u16,
) -> Seq<IpAddr>
    decreases records.len(),
{
    if records.len() == 0 {
        Seq::empty()
    } else {
        let before = all_addresses(records.drop_last(), accepted, record_type);
        if gives_address(records.last(), accepted, record_type) {
            before.push(record_address(records.last(), record_type)->Some_0)
        } else {
            before
        }
    }
}

/// The shortest time to live of the records that give addresses, and of a start value.
pub open spec fn shortest_ttl(
    start: u32,
    records: Seq<DnsRecordView>,
    accepted: Seq<Seq<Seq<u8>>>,
    record_type: u16,
) -> u32
    decreases records.len(),
{
    if records.len() == 0 {
        start
    } else {
        let before = shortest_ttl(start, records.drop_last(), accepted, record_type);
        if gives_address(records.last(), accepted, record_type) {
            smaller(before, records.last().ttl)
        } else {
            before
        }
    }
}

/// What a response says.
#[derive(Debug)]
pub struct ParsedResponse {
    pub addresses: Vec<IpAddr>,
    pub canonical_name: Option<Vec<Vec<u8>>>,
    pub ttl_secs: u64,
}

#[verifier::ext_equal]
pub struct ParsedResponseView {
    pub addresses: Seq<IpAddr>,
    pub canonical_name: Option<Seq<Seq<u8>>>,
    pub ttl_secs: u64,
}

impl View for ParsedResponse {
    type V = ParsedResponseView;

    open spec fn view(&self) -> ParsedResponseView {
        ParsedResponseView {
            addresses: self.addresses@,
            canonical_name: match self.canonical_name {
                Some(labels) => Some(label_views(labels@)),
                None => None,
            },
            ttl_secs: self.ttl_secs,
        }
    }
}

/// What a response to a query says, or why it says nothing.
pub open spec fn response_meaning(
    message: DnsMessageView,
    records: Seq<DnsRecordView>,
    id: u16,
    name: Seq<Seq<u8>>,
    record_type: u16,
) -> Result<ParsedResponseView, LookupError> {
    let start = ChaseView { accepted: seq![name_key(name)], canonical: None, ttl: u32::MAX };
    let chased = chase(start, records, MAX_CNAME_DEPTH as nat);
    let ttl = shortest_ttl(chased.ttl, records, chased.accepted, record_type);
    if message.id != id || !message.response || message.op_code != 0 {
        Err(LookupError::HeaderMismatch)
    } else if message.response_code == 3 {
        Err(LookupError::NoSuchName)
    } else if message.response_code != 0 {
        Err(LookupError::ServerReturned(message.response_code))
    } else if message.questions.len() != 1 || name_key(message.questions[0].labels) != name_key(name)
        || message.questions[0].record_type != record_type {
        Err(LookupError::QuestionMismatch)
    } else {
        Ok(
            ParsedResponseView {
                addresses: first_occurrences(all_addresses(records, chased.accepted, record_type)),
                canonical_name: chased.canonical,
                ttl_secs: if ttl == u32::MAX { 0 } else { ttl as u64 },
            },
        )
    }
}

/// The keys of a list of names.
pub open spec fn name_keys(names: Seq<Vec<Vec<u8>>>) -> Seq<Seq<Seq<u8>>> {
    names.map_values(|labels: Vec<Vec<u8>>| name_key(label_views(labels@)))
}

fn is_accepted(accepted: &Vec<Vec<Vec<u8>>>, name: &Vec<Vec<u8>>) -> (answer: bool)
    ensures
        answer == name_keys(accepted@).contains(name_key(label_views(name@))),
{
    let ghost keys = name_keys(accepted@);
    let mut i: usize = 0;
    while i < accepted.len()
        invariant
            keys == name_keys(accepted@),
            i <= accepted@.len(),
            forall|k: int| 0 <= k < i ==> keys[k] != name_key(label_views(name@)),
        decreases accepted@.len() - i,
    {
        assert(keys[i as int] == name_key(label_views(accepted@[i as int]@)));
        if same_name(&accepted[i], name) {
            return true;
        }
        i += 1;
    }
    false
}

struct Chase {
    accepted: Vec<Vec<Vec<u8>>>,
    canonical: Option<Vec<Vec<u8>>>,
    ttl: u32,
}

impl View for Chase {
    type V = ChaseView;

    closed spec fn view(&self) -> ChaseView {
        ChaseView {
            accepted: name_keys(self.accepted@),
            canonical: match self.canonical {
                Some(labels) => Some(label_views(labels@)),
                None => None,
            },
            ttl: self.ttl,
        }
    }
}

impl Chase {
    /// Follows one record; tells whether that led to a new name.
    fn step(&mut self, record: &DnsRecord) -> (changed: bool)
        ensures
            final(self)@ == chase_record(old(self)@, record@),
            changed == (final(self)@ != old(self)@),
    {
        match &record.data {
            DnsData::Alias(target) => {
                if is_accepted(&self.accepted, &record.labels) && !is_accepted(
                    &self.accepted,
                    target,
                ) {
                    let ghost before = name_keys(self.accepted@);
                    let copy = copy_labels(target);
                    let canonical = copy_labels(target);
                    self.accepted.push(copy);
                    self.canonical = Some(canonical);
                    if record.ttl < self.ttl {
                        self.ttl = record.ttl;
                    }
                    assert(name_keys(self.accepted@) =~= before.push(
                        name_key(label_views(target@)),
                    ));
                    assert(self@ =~= chase_record(old(self)@, record@));
                    assert(self@.accepted.len() != old(self)@.accepted.len());
                    true
                } else {
                    false
                }
            },
            _ => false,
        }
    }

    /// Follows all records once; tells whether that led to a new name.
    fn pass(&mut self, records: &Vec<DnsRecord>) -> (changed: bool)
        ensures
            final(self)@ == chase_pass(old(self)@, record_views(records@)),
            !changed ==> final(self)@ == old(self)@,
    {
        let ghost all = record_views(records@);
        let ghost start = self@;
        let mut changed = false;
        let mut i: usize = 0;
        assert(all.take(0) =~= Seq::<DnsRecordView>::empty());
        while i < records.len()
            invariant
                all == record_views(records@),
                i <= records@.len(),
                self@ == chase_pass(start, all.take(i as int)),
                !changed ==> self@ == start,
            decreases records@.len() - i,
        {
            assert(all.take(i + 1).drop_last() =~= all.take(i as int));
            assert(all.take(i + 1).last() == records@[i as int]@);
            if self.step(&records[i]) {
                changed = true;
            }
            i += 1;
        }
        assert(all.take(i as int) =~= all);
        changed
    }
}

proof fn lemma_chase_settled(state: ChaseView, records: Seq<DnsRecordView>, passes: nat)
    requires
        chase_pass(state, records) == state,
    ensures
        chase(state, records, passes) == state,
    decreases passes,
{
    if passes > 0 {
        lemma_chase_settled(state, records, (passes - 1) as nat);
    }
}

fn follow_aliases(name: &Vec<Vec<u8>>, records: &Vec<DnsRecord>) -> (chased: Chase)
    ensures
        chased@ == chase(
            (ChaseView {
                accepted: seq![name_key(label_views(name@))],
                canonical: None,
                ttl: u32::MAX,
            }),
            record_views(records@),
            MAX_CNAME_DEPTH as nat,
        ),
{
    let mut accepted: Vec<Vec<Vec<u8>>> = Vec::new();
    let own = copy_labels(name);
    accepted.push(own);
    let mut chased = Chase { accepted, canonical: None, ttl: u32::MAX };
    let ghost start = ChaseView {
        accepted: seq![name_key(label_views(name@))],
        canonical: None,
        ttl: u32::MAX,
    };
    let ghost all = record_views(records@);
    assert(chased@.accepted =~= start.accepted);
    assert(chased@ =~= start);
    let mut left: usize = MAX_CNAME_DEPTH;
    while left > 0
        invariant
            all == record_views(records@),
            start == (ChaseView {
                accepted: seq![name_key(label_views(name@))],
                canonical: None,
                ttl: u32::MAX,
            }),
            chase(start, all, MAX_CNAME_DEPTH as nat) == chase(chased@, all, left as nat),
        decreases left,
    {
        let ghost before = chased@;
        if !chased.pass(records) {
            proof {
                lemma_chase_settled(before, all, left as nat);
            }
            return chased;
        }
        left -= 1;
    }
    chased
}

fn address_of(record: &DnsRecord, record_type: u16) -> (address: Option<IpAddr>)
    ensures
        address == record_address(record@, record_type),
{
    match &record.data {
        DnsData::Address4(bits) => {
            if record_type == RECORD_TYPE_A {
                Some(IpAddr::V4(Ipv4Addr { bits: *bits }))
            } else {
                None
            }
        },
        DnsData::Address6(bits) => {
            if record_type == RECORD_TYPE_AAAA {
                Some(IpAddr::V6(Ipv6Addr { bits: *bits }))
            } else {
                None
            }
        },
        _ => None,
    }
}

/// The distinct addresses of a list, in order.
pub fn distinct_addresses(list: &Vec<IpAddr>) -> (kept: Vec<IpAddr>)
    ensures
        kept@ == first_occurrences(list@),
{
    let mut kept: Vec<IpAddr> = Vec::new();
    let mut i: usize = 0;
    assert(list@.take(0) =~= Seq::<IpAddr>::empty());
    while i < list.len()
        invariant
            i <= list@.len(),
            kept@ == first_occurrences(list@.take(i as int)),
        decreases list@.len() - i,
    {
        let mut seen = false;
        let mut k: usize = 0;
        while k < kept.len() && !seen
            invariant
                k <= kept@.len(),
                i < list@.len(),
                seen == (exists|j: int| 0 <= j < k && kept@[j] == list@[i as int]),
            decreases kept@.len() - k,
        {
            if kept[k] == list[i] {
                seen = true;
            }
            k += 1;
        }
        assert(list@.take(i + 1).drop_last() =~= list@.take(i as int));
        assert(seen == kept@.contains(list@[i as int]));
        if !seen {
            kept.push(list[i]);
        }
        i += 1;
    }
    assert(list@.take(i as int) =~= list@);
    kept
}

/// Reads the response to a query for records of a type of a name.
pub fn parse_response(
    message: &DnsMessage,
    records: &Vec<DnsRecord>,
    id: u16,
    name: &Vec<Vec<u8>>,
    record_type: u16,
) -> (result: Result<ParsedResponse, LookupError>)
    ensures
        match result {
            Ok(parsed) => response_meaning(
                message@,
                record_views(records@),
                id,
                label_views(name@),
                record_type,
            ) == Ok::<ParsedResponseView, LookupError>(parsed@),
            Err(error) => response_meaning(
                message@,
                record_views(records@),
                id,
                label_views(name@),
                record_type,
            ) == Err::<ParsedResponseView, LookupError>(error),
        },
{
    if message.id != id || !message.response || message.op_code != 0 {
        return Err(LookupError::HeaderMismatch);
    }
    if message.response_code == 3 {
        return Err(LookupError::NoSuchName);
    }
    if message.response_code != 0 {
        return Err(LookupError::ServerReturned(message.response_code));
    }
    if message.questions.len() != 1 {
        return Err(LookupError::QuestionMismatch);
    }
    assert(question_views(message.questions@)[0] == message.questions@[0]@);
    if !same_name(&message.questions[0].labels, name) || message.questions[0].record_type
        != record_type {
        return Err(LookupError::QuestionMismatch);
    }
    let chased = follow_aliases(name, records);
    let ghost accepted = chased@.accepted;
    let ghost all = record_views(records@);
    let mut ttl: u32 = chased.ttl;
    let ghost first_ttl = ttl;
    let mut found: Vec<IpAddr> = Vec::new();
    let mut i: usize = 0;
    assert(all.take(0) =~= Seq::<DnsRecordView>::empty());
    while i < records.len()
        invariant
            all == record_views(records@),
            accepted == name_keys(chased.accepted@),
            i <= records@.len(),
            found@ == all_addresses(all.take(i as int), accepted, record_type),
            ttl == shortest_ttl(first_ttl, all.take(i as int), accepted, record_type),
        decreases records@.len() - i,
    {
        assert(all.take(i + 1).drop_last() =~= all.take(i as int));
        assert(all.take(i + 1).last() == records@[i as int]@);
        if is_accepted(&chased.accepted, &records[i].labels) {
            match address_of(&records[i], record_type) {
                Some(address) => {
                    found.push(address);
                    if records[i].ttl < ttl {
                        ttl = records[i].ttl;
                    }
                },
                None => {},
            }
        }
        i += 1;
    }
    assert(all.take(i as int) =~= all);
    let addresses = distinct_addresses(&found);
    let ttl_secs: u64 = if ttl == u32::MAX {
        0
    } else {
        ttl as u64
    };
    Ok(ParsedResponse { addresses, canonical_name: chased.canonical, ttl_secs })
}

/// A lookup under way.
#[derive(Debug)]
pub struct Lookup {
    name: Vec<Vec<u8>>,
    visited: Vec<Vec<Vec<u8>>>,
    record_type: u16,
}

#[verifier::ext_equal]
pub struct LookupView {
    pub name: Seq<Seq<u8>>,
    pub visited: Seq<Seq<Seq<u8>>>,
    pub record_type: u16,
}

impl View for Lookup {
    type V = LookupView;

    closed spec fn view(&self) -> LookupView {
        LookupView {
            name: label_views(self.name@),
            visited: name_keys(self.visited@),
            record_type: self.record_type,
        }
    }
}

/// What to do after a response.
#[derive(Debug)]
pub enum LookupStep {
    Done(DnsLookup),
    AskAgain,
}

impl Lookup {
    pub fn start(host: &str, ipv4: bool) -> (result: Result<Self, LookupError>)
        ensures
            match result {
                Ok(lookup) => (ascii_name(host@) matches Ok(name) && name.labels == lookup@.name)
                    && lookup@.visited =~= Seq::<Seq<Seq<u8>>>::empty() && lookup@.record_type
                    == if ipv4 {
                    RECORD_TYPE_A
                } else {
                    RECORD_TYPE_AAAA
                },
                Err(error) => ascii_name(host@) is Err && error == LookupError::InvalidName,
            },
    {
        match read_ascii_name(host) {
            Err(_) => Err(LookupError::InvalidName),
            Ok(name) => {
                let record_type: u16 = if ipv4 {
                    RECORD_TYPE_A
                } else {
                    RECORD_TYPE_AAAA
                };
                Ok(Lookup { name: name.labels, visited: Vec::new(), record_type })
            },
        }
    }

    /// The next query to send. No name is asked for twice, and at most eight are.
    pub fn next_query(&mut self, id: u16) -> (result: Result<Vec<u8>, LookupError>)
        ensures
            final(self)@.name == old(self)@.name,
            final(self)@.record_type == old(self)@.record_type,
            ({
                let key = name_key(old(self)@.name);
                let query = query_message(id, old(self)@.name, old(self)@.record_type);
                if old(self)@.visited.len() >= MAX_CNAME_DEPTH {
                    result == Err::<Vec<u8>, LookupError>(LookupError::ChainTooDeep)
                        && final(self)@.visited == old(self)@.visited
                } else if old(self)@.visited.contains(key) {
                    result == Err::<Vec<u8>, LookupError>(LookupError::AliasLoop)
                        && final(self)@.visited == old(self)@.visited
                } else {
                    &&& final(self)@.visited == old(self)@.visited.push(key)
                    &&& match result {
                        Ok(bytes) => dns_encoded(query) == Some(bytes@),
                        Err(error) => dns_encoded(query) is None && error
                            == LookupError::UnwritableQuery,
                    }
                }
            }),
    {
        if self.visited.len() >= MAX_CNAME_DEPTH {
            return Err(LookupError::ChainTooDeep);
        }
        if is_accepted(&self.visited, &self.name) {
            return Err(LookupError::AliasLoop);
        }
        let ghost before = name_keys(self.visited@);
        let copy = copy_labels(&self.name);
        self.visited.push(copy);
        assert(name_keys(self.visited@) =~= before.push(name_key(label_views(self.name@))));
        build_query(id, &self.name, self.record_type)
    }

    /// Reads the bytes of a response and decides what to do next.
    pub fn absorb(&mut self, response: &[u8], id: u16) -> (result: Result<LookupStep, LookupError>)
        ensures
            final(self)@.visited == old(self)@.visited,
            final(self)@.record_type == old(self)@.record_type,
            match (dns_decoded(response@), dns_answers(response@)) {
                (Ok(message), Some(records)) => lookup_step(
                    response_meaning(message, records, id, old(self)@.name, old(self)@.record_type),
                    old(self)@.name,
                    final(self)@.name,
                    result,
                ),
                _ => result == Err::<LookupStep, LookupError>(LookupError::MalformedResponse)
                    && final(self)@.name == old(self)@.name,
            },
    {
        match (decode_message(response), decode_answers(response)) {
            (Ok(message), Some(records)) => {
                let parsed = parse_response(&message, &records, id, &self.name, self.record_type);
                self.follow(parsed)
            },
            _ => Err(LookupError::MalformedResponse),
        }
    }

    /// Decides what to do after a response was read.
    pub fn follow(&mut self, parsed: Result<ParsedResponse, LookupError>) -> (result: Result<
        LookupStep,
        LookupError,
    >)
        ensures
            final(self)@.visited == old(self)@.visited,
            final(self)@.record_type == old(self)@.record_type,
            lookup_step(
                match parsed {
                    Ok(parsed) => Ok(parsed@),
                    Err(error) => Err(error),
                },
                old(self)@.name,
                final(self)@.name,
                result,
            ),
    {
        match parsed {
            Err(error) => Err(error),
            Ok(parsed) => {
                if parsed.addresses.len() > 0 {
                    return Ok(
                        LookupStep::Done(
                            DnsLookup { addresses: parsed.addresses, ttl_secs: parsed.ttl_secs },
                        ),
                    );
                }
                match parsed.canonical_name {
                    Some(labels) => {
                        self.name = labels;
                        Ok(LookupStep::AskAgain)
                    },
                    None => Err(LookupError::NoRecords),
                }
            },
        }
    }
}

/// What a response comes to: addresses end the lookup, an alias alone is asked
/// for next, and neither is an error.
pub open spec fn lookup_step(
    meaning: Result<ParsedResponseView, LookupError>,
    name: Seq<Seq<u8>>,
    next_name: Seq<Seq<u8>>,
    result: Result<LookupStep, LookupError>,
) -> bool {
    match meaning {
        Err(error) => result == Err::<LookupStep, LookupError>(error) && next_name == name,
        Ok(parsed) => if parsed.addresses.len() > 0 {
            result matches Ok(LookupStep::Done(lookup)) && lookup.addresses@ == parsed.addresses
                && lookup.ttl_secs == parsed.ttl_secs && next_name == name
        } else {
            match parsed.canonical_name {
                Some(labels) => result == Ok::<LookupStep, LookupError>(LookupStep::AskAgain)
                    && next_name == labels,
                None => result == Err::<LookupStep, LookupError>(LookupError::NoRecords)
                    && next_name == name,
            }
        },
    }
}

/// Following aliases keeps every name that was accepted.
pub proof fn law_chase_keeps_names(
    state: ChaseView,
    records: Seq<DnsRecordView>,
    passes: nat,
    name: Seq<Seq<u8>>,
)
    requires
        state.accepted.contains(name),
    ensures
        chase(state, records, passes).accepted.contains(name),
    decreases passes,
{
    if passes > 0 {
        lemma_pass_keeps_names(state, records, name);
        law_chase_keeps_names(chase_pass(state, records), records, (passes - 1) as nat, name);
    }
}

proof fn lemma_pass_keeps_names(
    state: ChaseView,
    records: Seq<DnsRecordView>,
    name: Seq<Seq<u8>>,
)
    requires
        state.accepted.contains(name),
    ensures
        chase_pass(state, records).accepted.contains(name),
    decreases records.len(),
{
    if records.len() > 0 {
        lemma_pass_keeps_names(state, records.drop_last(), name);
        let before = chase_pass(state, records.drop_last()).accepted;
        let k = choose|k: int| 0 <= k < before.len() && before[k] == name;
        assert(chase_pass(state, records).accepted[k] == name);
    }
}

proof fn lemma_addresses_in(
    records: Seq<DnsRecordView>,
    accepted: Seq<Seq<Seq<u8>>>,
    record_type: u16,
    i: int,
)
    requires
        0 <= i < records.len(),
        gives_address(records[i], accepted, record_type),
    ensures
        all_addresses(records, accepted, record_type).contains(
            record_address(records[i], record_type)->Some_0,
        ),
        shortest_ttl(u32::MAX, records, accepted, record_type) <= records[i].ttl,
        forall|start: u32|
            #[trigger] shortest_ttl(start, records, accepted, record_type) <= records[i].ttl,
    decreases records.len(),
{
    let head = records.drop_last();
    let before = all_addresses(head, accepted, record_type);
    let wanted = record_address(records[i], record_type)->Some_0;
    if i < records.len() - 1 {
        lemma_addresses_in(head, accepted, record_type, i);
        assert(head[i] == records[i]);
        let k = choose|k: int| 0 <= k < before.len() && before[k] == wanted;
        assert(all_addresses(records, accepted, record_type)[k] == wanted);
        assert forall|start: u32|
            #[trigger] shortest_ttl(start, records, accepted, record_type) <= records[i].ttl by {
            assert(shortest_ttl(start, head, accepted, record_type) <= head[i].ttl);
        }
    } else {
        assert(all_addresses(records, accepted, record_type)[before.len() as int] == wanted);
    }
}

proof fn lemma_addresses_from(
    records: Seq<DnsRecordView>,
    accepted: Seq<Seq<Seq<u8>>>,
    record_type: u16,
    address: IpAddr,
) -> (i: int)
    requires
        all_addresses(records, accepted, record_type).contains(address),
    ensures
        0 <= i < records.len(),
        gives_address(records[i], accepted, record_type),
        record_address(records[i], record_type) == Some(address),
    decreases records.len(),
{
    let head = records.drop_last();
    let before = all_addresses(head, accepted, record_type);
    let all = all_addresses(records, accepted, record_type);
    let k = choose|k: int| 0 <= k < all.len() && all[k] == address;
    if k < before.len() {
        assert(before[k] == address);
        let i = lemma_addresses_from(head, accepted, record_type, address);
        assert(head[i] == records[i]);
        i
    } else {
        records.len() - 1
    }
}

/// Whether a response answers a question: it is one, under the right identifier,
/// without an error, and repeats the question, whatever the case of its letters.
pub open spec fn answers(
    message: DnsMessage,
    id: u16,
    name: Seq<Vec<u8>>,
    record_type: u16,
) -> bool {
    &&& message.id == id && message.response && message.op_code == 0 && message.response_code == 0
    &&& message.questions@.len() == 1
    &&& name_key(label_views(message.questions@[0].labels@)) == name_key(label_views(name))
    &&& message.questions@[0].record_type == record_type
}

/// From a response that answers a question for IPv4 addresses (type 1) or IPv6
/// addresses (type 28), each record of the asked name and of that family gives its
/// address; and every address that comes out has that family and stands in a
/// record.
pub proof fn law_answer_addresses(
    message: &DnsMessage,
    records: &Vec<DnsRecord>,
    id: u16,
    name: &Vec<Vec<u8>>,
    record_type: u16,
    result: Result<ParsedResponse, LookupError>,
    i: int,
    address: IpAddr,
)
    requires
        call_ensures(parse_response, (message, records, id, name, record_type), result),
        answers(*message, id, name@, record_type),
    ensures
        result is Ok,
        0 <= i < records@.len() && name_key(label_views(records@[i].labels@)) == name_key(
            label_views(name@),
        ) && record_type == 1 && (records@[i].data matches DnsData::Address4(bits))
            ==> result->Ok_0.addresses@.contains(
            IpAddr::V4(Ipv4Addr { bits: records@[i].data->Address4_0 }),
        ) && result->Ok_0.ttl_secs <= records@[i].ttl,
        0 <= i < records@.len() && name_key(label_views(records@[i].labels@)) == name_key(
            label_views(name@),
        ) && record_type == 28 && (records@[i].data matches DnsData::Address6(bits))
            ==> result->Ok_0.addresses@.contains(
            IpAddr::V6(Ipv6Addr { bits: records@[i].data->Address6_0 }),
        ) && result->Ok_0.ttl_secs <= records@[i].ttl,
        result->Ok_0.addresses@.contains(address) && record_type == 1 ==> (
        address matches IpAddr::V4(found) && exists|k: int|
            0 <= k < records@.len() && (#[trigger] records@[k]).data == DnsData::Address4(
                found.bits,
            )),
        result->Ok_0.addresses@.contains(address) && record_type == 28 ==> (
        address matches IpAddr::V6(found) && exists|k: int|
            0 <= k < records@.len() && (#[trigger] records@[k]).data == DnsData::Address6(
                found.bits,
            )),
        record_type != 1 && record_type != 28 ==> result->Ok_0.addresses@.len() == 0,
{
    let views = record_views(records@);
    let key = name_key(label_views(name@));
    let start = ChaseView { accepted: seq![key], canonical: None, ttl: u32::MAX };
    let chased = chase(start, views, MAX_CNAME_DEPTH as nat);
    assert(start.accepted[0] == key);
    law_chase_keeps_names(start, views, MAX_CNAME_DEPTH as nat, key);
    let all = all_addresses(views, chased.accepted, record_type);
    law_first_occurrences(all);
    if 0 <= i < records@.len() && gives_address(views[i], chased.accepted, record_type) {
        lemma_addresses_in(views, chased.accepted, record_type, i);
        let ttl = shortest_ttl(chased.ttl, views, chased.accepted, record_type);
        assert(ttl <= views[i].ttl);
    }
    if all.contains(address) {
        let k = lemma_addresses_from(views, chased.accepted, record_type, address);
        assert(views[k] == records@[k]@);
    }
    if record_type != 1 && record_type != 28 && first_occurrences(all).len() > 0 {
        assert(first_occurrences(all).contains(first_occurrences(all)[0]));
        let k = lemma_addresses_from(
            views,
            chased.accepted,
            record_type,
            first_occurrences(all)[0],
        );
    }
}

/// A response that does not answer the question gives nothing: not one under
/// another identifier, a question, another operation, an error, or an answer to
/// something else.
pub proof fn law_other_answers_are_refused(
    message: &DnsMessage,
    records: &Vec<DnsRecord>,
    id: u16,
    name: &Vec<Vec<u8>>,
    record_type: u16,
    result: Result<ParsedResponse, LookupError>,
)
    requires
        call_ensures(parse_response, (message, records, id, name, record_type), result),
    ensures
        result is Ok <==> answers(*message, id, name@, record_type),
        message.id != id || !message.response || message.op_code != 0 ==> result == Err::<
            ParsedResponse,
            LookupError,
        >(LookupError::HeaderMismatch),
        message.id == id && message.response && message.op_code == 0 && message.response_code == 3
            ==> result == Err::<ParsedResponse, LookupError>(LookupError::NoSuchName),
        message.id == id && message.response && message.op_code == 0 && message.response_code != 3
            && message.response_code != 0 ==> result == Err::<ParsedResponse, LookupError>(
            LookupError::ServerReturned(message.response_code),
        ),
{
    assert(message@.questions.len() == message.questions@.len());
    if message.questions@.len() == 1 {
        assert(message@.questions[0] == message.questions@[0]@);
    }
}

/// An alias of the asked name leads on to its target: addresses of the target in
/// the same response are found too.
pub proof fn law_alias_is_followed(
    message: &DnsMessage,
    records: &Vec<DnsRecord>,
    id: u16,
    name: &Vec<Vec<u8>>,
    record_type: u16,
    result: Result<ParsedResponse, LookupError>,
    i: int,
    k: int,
)
    requires
        call_ensures(parse_response, (message, records, id, name, record_type), result),
        answers(*message, id, name@, record_type),
        0 <= i < records@.len(),
        0 <= k < records@.len(),
        name_key(label_views(records@[i].labels@)) == name_key(label_views(name@)),
        records@[i].data is Alias,
        name_key(label_views(records@[k].labels@)) == name_key(
            label_views(records@[i].data->Alias_0@),
        ),
    ensures
        record_type == 1 && records@[k].data is Address4 ==> result->Ok_0.addresses@.contains(
            IpAddr::V4(Ipv4Addr { bits: records@[k].data->Address4_0 }),
        ),
        record_type == 28 && records@[k].data is Address6 ==> result->Ok_0.addresses@.contains(
            IpAddr::V6(Ipv6Addr { bits: records@[k].data->Address6_0 }),
        ),
{
    let views = record_views(records@);
    let key = name_key(label_views(name@));
    let target = name_key(label_views(records@[i].data->Alias_0@));
    let start = ChaseView { accepted: seq![key], canonical: None, ttl: u32::MAX };
    let chased = chase(start, views, MAX_CNAME_DEPTH as nat);
    assert(start.accepted[0] == key);
    assert(views[i] == records@[i]@ && views[k] == records@[k]@);
    lemma_pass_follows(start, views, i);
    law_chase_keeps_names(
        chase_pass(start, views),
        views,
        (MAX_CNAME_DEPTH - 1) as nat,
        target,
    );
    let all = all_addresses(views, chased.accepted, record_type);
    law_first_occurrences(all);
    if gives_address(views[k], chased.accepted, record_type) {
        lemma_addresses_in(views, chased.accepted, record_type, k);
    }
}

proof fn lemma_pass_follows(state: ChaseView, records: Seq<DnsRecordView>, i: int)
    requires
        0 <= i < records.len(),
        records[i].data is Alias,
        state.accepted.contains(name_key(records[i].labels)),
    ensures
        chase_pass(state, records).accepted.contains(name_key(records[i].data->Alias_0)),
    decreases records.len(),
{
    let head = records.drop_last();
    let before = chase_pass(state, head);
    let target = name_key(records[i].data->Alias_0);
    if i < records.len() - 1 {
        assert(head[i] == records[i]);
        lemma_pass_follows(state, head, i);
        let after = chase_record(before, records.last());
        if after.accepted != before.accepted {
            let j = choose|j: int| 0 <= j < before.accepted.len() && before.accepted[j] == target;
            assert(after.accepted[j] == target);
        }
    } else {
        lemma_pass_keeps_names(state, head, name_key(records[i].labels));
        if !before.accepted.contains(target) {
            let after = chase_record(before, records.last());
            assert(after.accepted[before.accepted.len() as int] == target);
        }
    }
}

/// A lookup asks for addresses of the family that it was started for: records of
/// type 1 for IPv4, of type 28 for IPv6.
pub proof fn law_lookup_family(host: &str, ipv4: bool, result: Result<Lookup, LookupError>)
    requires
        call_ensures(Lookup::start, (host, ipv4), result),
    ensures
        result matches Ok(lookup) ==> lookup@.record_type == if ipv4 {
            1u16
        } else {
            28u16
        },
        result matches Ok(lookup) ==> lookup@.visited.len() == 0 && (ascii_name(host@) matches Ok(
            name,
        ) && lookup@.name == name.labels),
        result is Err <==> ascii_name(host@) is Err,
{
}

/// What becomes of a response: addresses end the lookup, an alias without
/// addresses is asked for next, and neither is a failure.
pub proof fn law_lookup_ends(
    parsed: ParsedResponseView,
    name: Seq<Seq<u8>>,
    next_name: Seq<Seq<u8>>,
    result: Result<LookupStep, LookupError>,
)
    requires
        lookup_step(Ok::<ParsedResponseView, LookupError>(parsed), name, next_name, result),
    ensures
        parsed.addresses.len() > 0 ==> (result matches Ok(LookupStep::Done(found))
            && found.addresses@ == parsed.addresses && found.ttl_secs == parsed.ttl_secs),
        parsed.addresses.len() == 0 && parsed.canonical_name is Some ==> result is Ok && result
            == Ok::<LookupStep, LookupError>(LookupStep::AskAgain) && Some(next_name)
            == parsed.canonical_name,
        parsed.addresses.len() == 0 && parsed.canonical_name is None ==> result == Err::<
            LookupStep,
            LookupError,
        >(LookupError::NoRecords),
{
}

/// A question asks for one name and one type, in the class of the internet, and
/// wants recursion; nothing in it says that it is a response.
pub proof fn law_question(
    id: u16,
    labels: &Vec<Vec<u8>>,
    record_type: u16,
    result: Result<Vec<u8>, LookupError>,
    message: DnsMessageView,
)
    requires
        call_ensures(build_query, (id, labels, record_type), result),
        message.id == id,
        !message.response && message.op_code == 0 && message.response_code == 0,
        !message.truncated && message.recursion_desired && !message.recursion_available,
        message.questions.len() == 1,
        message.questions[0].labels == label_views(labels@),
        message.questions[0].name.len() == 0,
        message.questions[0].record_type == record_type,
        message.questions[0].class == 1,
    ensures
        match result {
            Ok(bytes) => dns_encoded(message) == Some(bytes@),
            Err(error) => dns_encoded(message) is None && error == LookupError::UnwritableQuery,
        },
{
    let other = query_message(id, label_views(labels@), record_type);
    assert(other.questions =~= message.questions) by {
        assert(other.questions[0] =~= message.questions[0]);
    }
    assert(other =~= message);
}

/// What a datagram is taken for: only one that comes from the server and bears the
/// identifier is an answer, and a cut one asks for a stream.
pub proof fn law_datagrams(
    response: &[u8],
    id: u16,
    from_server: bool,
    result: Result<DatagramVerdict, LookupError>,
    message: DnsMessageView,
)
    requires
        call_ensures(judge_datagram, (response, id, from_server), result),
        dns_decoded(response@) == Ok::<DnsMessageView, Seq<char>>(message),
    ensures
        result == Ok::<DatagramVerdict, LookupError>(DatagramVerdict::Answer) <==> from_server
            && message.id == id && !message.truncated,
        result == Ok::<DatagramVerdict, LookupError>(DatagramVerdict::Truncated) <==> from_server
            && message.id == id && message.truncated,
        result == Ok::<DatagramVerdict, LookupError>(DatagramVerdict::Ignore) <==> !from_server
            || message.id != id,
{
}

/// What comes over a stream is an answer where it bears the identifier.
pub proof fn law_streams(response: &[u8], id: u16, result: Result<(), LookupError>)
    requires
        call_ensures(judge_stream, (response, id), result),
    ensures
        result is Ok <==> response@.len() > 0 && (dns_decoded(response@) matches Ok(message)
            && message.id == id),
        response@.len() == 0 ==> result == Err::<(), LookupError>(LookupError::EmptyStreamResponse),
{
}

/// A lookup asks for at most eight names, and for none twice.
pub proof fn law_lookup_is_bounded(id: u16, result: Result<Vec<u8>, LookupError>)
    ensures
        forall|lookup: &mut Lookup| #[trigger]
            call_ensures(Lookup::next_query, (lookup, id), result) ==> {
                let before = (*lookup)@.visited;
                let after = (*final(lookup))@.visited;
                &&& result == Err::<Vec<u8>, LookupError>(LookupError::ChainTooDeep)
                    <==> before.len() >= 8
                &&& result == Err::<Vec<u8>, LookupError>(LookupError::AliasLoop) <==> before.len()
                    < 8 && before.contains(name_key((*lookup)@.name))
                &&& result is Ok ==> after == before.push(name_key((*lookup)@.name))
                &&& after.len() <= 8 || after == before
            },
{
}

} // verus!
