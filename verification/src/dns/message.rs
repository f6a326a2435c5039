//! DNS messages as plain values, and their wire form.

use crate::bytes::be16_value;
use hickory_proto::op::{Message, MessageType, OpCode, Query};
use hickory_proto::rr::{Name, RData};
use vstd::prelude::*;

verus! {

/// A question of a DNS message.
#[derive(Debug, Clone)]
pub struct DnsQuestion {
    /// The labels of the name, from the first to the one below the root.
    pub labels: Vec<Vec<u8>>,
    /// The name as text, in Unicode and with a final dot.
    pub name: String,
    pub record_type: u16,
    pub class: u16,
}

/// The parts of a DNS message that decisions depend on.
#[derive(Debug, Clone)]
pub struct DnsMessage {
    pub id: u16,
    pub response: bool,
    pub op_code: u8,
    pub truncated: bool,
    pub recursion_desired: bool,
    pub recursion_available: bool,
    pub response_code: u16,
    pub questions: Vec<DnsQuestion>,
}

/// A question with its labels and name as sequences.
#[verifier::ext_equal]
pub struct DnsQuestionView {
    pub labels: Seq<Seq<u8>>,
    pub name: Seq<char>,
    pub record_type: u16,
    pub class: u16,
}

/// A message with its questions as a sequence.
#[verifier::ext_equal]
pub struct DnsMessageView {
    pub id: u16,
    pub response: bool,
    pub op_code: u8,
    pub truncated: bool,
    pub recursion_desired: bool,
    pub recursion_available: bool,
    pub response_code: u16,
    pub questions: Seq<DnsQuestionView>,
}

/// Labels as sequences of bytes.
pub open spec fn label_views(labels: Seq<Vec<u8>>) -> Seq<Seq<u8>> {
    labels.map_values(|label: Vec<u8>| label@)
}

impl View for DnsQuestion {
    type V = DnsQuestionView;

    open spec fn view(&self) -> DnsQuestionView {
        DnsQuestionView {
            labels: label_views(self.labels@),
            name: self.name@,
            record_type: self.record_type,
            class: self.class,
        }
    }
}

pub open spec fn question_views(questions: Seq<DnsQuestion>) -> Seq<DnsQuestionView> {
    questions.map_values(|question: DnsQuestion| question@)
}

impl View for DnsMessage {
    type V = DnsMessageView;

    open spec fn view(&self) -> DnsMessageView {
        DnsMessageView {
            id: self.id,
            response: self.response,
            op_code: self.op_code,
            truncated: self.truncated,
            recursion_desired: self.recursion_desired,
            recursion_available: self.recursion_available,
            response_code: self.response_code,
            questions: question_views(self.questions@),
        }
    }
}

/// The message that bytes hold, or in words why they hold none.
pub uninterp spec fn dns_decoded(bytes: Seq<u8>) -> Result<DnsMessageView, Seq<char>>;

/// The identifier of a message in its wire form, which begins with it.
pub open spec fn wire_id(bytes: Seq<u8>) -> int {
    be16_value(bytes[0], bytes[1])
}

/// `hickory_proto::op::Message::from_vec` reads a message from its wire form;
/// the header fields and the questions of what it read are handed out as they are.
/// The identifier is what the bytes begin with. Where nothing can be read, the
/// words are those of its error.
#[verifier::external_body]
pub(crate) fn decode_message(bytes: &[u8]) -> (result: Result<DnsMessage, String>)
    ensures
        match result {
            Ok(message) => dns_decoded(bytes@) == Ok::<DnsMessageView, Seq<char>>(message@)
                && bytes@.len() >= 2 && message.id == wire_id(bytes@),
            Err(reason) => dns_decoded(bytes@) == Err::<DnsMessageView, Seq<char>>(reason@),
        },
{
    let m = Message::from_vec(bytes).map_err(|error| error.to_string())?;
    let questions = m.queries.iter().map(|q| DnsQuestion {
        labels: q.name.iter().map(|label| label.to_vec()).collect(),
        name: q.name.to_utf8(),
        record_type: q.query_type.into(),
        class: q.query_class.into(),
    }).collect();
    Ok(DnsMessage { id: m.id, response: m.message_type == MessageType::Response,
        op_code: m.op_code.into(), truncated: m.truncation, recursion_desired: m.recursion_desired,
        recursion_available: m.recursion_available, response_code: m.response_code.into(), questions })
}

/// How many bytes the sender of a message takes in a response, where bytes hold
/// a message.
pub uninterp spec fn dns_payload_limit(bytes: Seq<u8>) -> Option<u16>;

/// The limit by `hickory_proto::op::Message::max_payload`, of the message that
/// `Message::from_vec` reads. The limit is never below 512, which also holds
/// where the message states none.
#[verifier::external_body]
pub(crate) fn payload_limit(bytes: &[u8]) -> (limit: Option<u16>)
    ensures
        match limit {
            Some(limit) => dns_payload_limit(bytes@) == Some(limit) && limit >= 512,
            None => dns_payload_limit(bytes@) is None,
        },
{
    Some(Message::from_vec(bytes).ok()?.max_payload())
}

/// The wire form of a message without records, if it has one.
pub uninterp spec fn dns_encoded(message: DnsMessageView) -> Option<Seq<u8>>;

/// `hickory_proto::op::Message::to_vec` writes a message in its wire form, which
/// begins with its identifier.
#[verifier::external_body]
pub(crate) fn encode_message(message: &DnsMessage) -> (bytes: Option<Vec<u8>>)
    ensures
        match bytes {
            Some(bytes) => dns_encoded(message@) == Some(bytes@) && bytes@.len() >= 2
                && wire_id(bytes@) == message.id,
            None => dns_encoded(message@) is None,
        },
{
    let kind = if message.response { MessageType::Response } else { MessageType::Query };
    let mut m = Message::new(message.id, kind, OpCode::from_u8(message.op_code));
    m.metadata.truncation = message.truncated;
    m.metadata.recursion_desired = message.recursion_desired;
    m.metadata.recursion_available = message.recursion_available;
    m.metadata.response_code = message.response_code.into();
    for q in &message.questions {
        let name = Name::from_labels(q.labels.iter().map(|label| label.as_slice())).ok()?;
        let mut query = Query::query(name, q.record_type.into());
        query.set_query_class(q.class.into());
        m.add_query(query);
    }
    m.to_vec().ok()
}

pub fn copy_labels(labels: &Vec<Vec<u8>>) -> (copy: Vec<Vec<u8>>)
    ensures
        label_views(copy@) == label_views(labels@),
{
    let mut copy: Vec<Vec<u8>> = Vec::new();
    let mut i: usize = 0;
    while i < labels.len()
        invariant
            i <= labels@.len(),
            label_views(copy@) =~= label_views(labels@).take(i as int),
        decreases labels@.len() - i,
    {
        let ghost before = label_views(copy@);
        let label = vstd::slice::slice_to_vec(labels[i].as_slice());
        copy.push(label);
        assert(label_views(copy@) =~= before.push(labels@[i as int]@));
        i += 1;
    }
    assert(label_views(labels@).take(i as int) =~= label_views(labels@));
    copy
}

pub fn copy_questions(questions: &Vec<DnsQuestion>) -> (copy: Vec<DnsQuestion>)
    ensures
        question_views(copy@) == question_views(questions@),
{
    let mut copy: Vec<DnsQuestion> = Vec::new();
    let mut i: usize = 0;
    while i < questions.len()
        invariant
            i <= questions@.len(),
            question_views(copy@) =~= question_views(questions@).take(i as int),
        decreases questions@.len() - i,
    {
        let ghost before = question_views(copy@);
        let question = DnsQuestion {
            labels: copy_labels(&questions[i].labels),
            name: questions[i].name.clone(),
            record_type: questions[i].record_type,
            class: questions[i].class,
        };
        assert(question@ =~= questions@[i as int]@);
        copy.push(question);
        assert(question_views(copy@) =~= before.push(questions@[i as int]@));
        i += 1;
    }
    assert(question_views(questions@).take(i as int) =~= question_views(questions@));
    copy
}

/// A message with another identifier, in its wire form, or in words why it has none.
pub uninterp spec fn dns_with_id(bytes: Seq<u8>, id: u16) -> Result<Seq<u8>, Seq<char>>;

/// `hickory_proto::op::Message::from_vec` and `to_vec` read a message and write
/// it back whole, here with another identifier, which the wire form begins with.
/// Where one of them fails, the words are those of its error.
#[verifier::external_body]
pub(crate) fn message_with_id(bytes: &[u8], id: u16) -> (result: Result<Vec<u8>, String>)
    ensures
        match result {
            Ok(copy) => dns_with_id(bytes@, id) == Ok::<Seq<u8>, Seq<char>>(copy@) && copy@.len()
                >= 2 && wire_id(copy@) == id,
            Err(reason) => dns_with_id(bytes@, id) == Err::<Seq<u8>, Seq<char>>(reason@),
        },
{
    let mut m = Message::from_vec(bytes).map_err(|error| error.to_string())?;
    m.metadata.id = id;
    m.to_vec().map_err(|error| error.to_string())
}

/// What a record says of its name.
#[derive(Debug, Clone)]
pub enum DnsData {
    Address4(u32),
    Address6(u128),
    Alias(Vec<Vec<u8>>),
    Other,
}

/// A record of a DNS message.
#[derive(Debug, Clone)]
pub struct DnsRecord {
    pub labels: Vec<Vec<u8>>,
    pub ttl: u32,
    pub data: DnsData,
}

#[verifier::ext_equal]
pub enum DnsDataView {
    Address4(u32),
    Address6(u128),
    Alias(Seq<Seq<u8>>),
    Other,
}

#[verifier::ext_equal]
pub struct DnsRecordView {
    pub labels: Seq<Seq<u8>>,
    pub ttl: u32,
    pub data: DnsDataView,
}

impl View for DnsData {
    type V = DnsDataView;

    open spec fn view(&self) -> DnsDataView {
        match self {
            DnsData::Address4(bits) => DnsDataView::Address4(*bits),
            DnsData::Address6(bits) => DnsDataView::Address6(*bits),
            DnsData::Alias(labels) => DnsDataView::Alias(label_views(labels@)),
            DnsData::Other => DnsDataView::Other,
        }
    }
}

impl View for DnsRecord {
    type V = DnsRecordView;

    open spec fn view(&self) -> DnsRecordView {
        DnsRecordView { labels: label_views(self.labels@), ttl: self.ttl, data: self.data@ }
    }
}

pub open spec fn record_views(records: Seq<DnsRecord>) -> Seq<DnsRecordView> {
    records.map_values(|record: DnsRecord| record@)
}

/// The answer records of the message that bytes hold, if they hold one.
pub uninterp spec fn dns_answers(bytes: Seq<u8>) -> Option<Seq<DnsRecordView>>;

/// `hickory_proto::op::Message::from_vec` reads a message from its wire form;
/// the answer records of what it read are handed out as they are.
#[verifier::external_body]
pub(crate) fn decode_answers(bytes: &[u8]) -> (records: Option<Vec<DnsRecord>>)
    ensures
        match records {
            Some(records) => dns_answers(bytes@) == Some(record_views(records@)),
            None => dns_answers(bytes@) is None,
        },
{
    let m = Message::from_vec(bytes).ok()?;
    Some(m.answers.iter().map(|r| DnsRecord {
        labels: r.name.iter().map(|label| label.to_vec()).collect(),
        ttl: r.ttl,
        data: match &r.data {
            RData::A(a) => DnsData::Address4(u32::from(a.0)),
            RData::AAAA(a) => DnsData::Address6(u128::from(a.0)),
            RData::CNAME(c) => DnsData::Alias(c.0.iter().map(|label| label.to_vec()).collect()),
            _ => DnsData::Other,
        },
    }).collect())
}

/// A name as its labels, and whether it is fully qualified.
pub struct AsciiName {
    pub labels: Vec<Vec<u8>>,
    pub fully_qualified: bool,
}

#[verifier::ext_equal]
pub struct AsciiNameView {
    pub labels: Seq<Seq<u8>>,
    pub fully_qualified: bool,
}

impl View for AsciiName {
    type V = AsciiNameView;

    open spec fn view(&self) -> AsciiNameView {
        AsciiNameView {
            labels: label_views(self.labels@),
            fully_qualified: self.fully_qualified,
        }
    }
}

/// The name that an ASCII text writes, or in words why it writes none.
pub uninterp spec fn ascii_name(text: Seq<char>) -> Result<AsciiNameView, Seq<char>>;

/// `hickory_proto::rr::Name::from_ascii` reads a name from ASCII text.
#[verifier::external_body]
pub(crate) fn read_ascii_name(text: &str) -> (result: Result<AsciiName, String>)
    ensures
        match result {
            Ok(name) => ascii_name(text@) == Ok::<AsciiNameView, Seq<char>>(name@),
            Err(reason) => ascii_name(text@) == Err::<AsciiNameView, Seq<char>>(reason@),
        },
{
    let name = Name::from_ascii(text).map_err(|error| error.to_string())?;
    let labels = name.iter().map(|label| label.to_vec()).collect();
    Ok(AsciiName { labels, fully_qualified: name.is_fqdn() })
}

/// A byte with an upper-case ASCII letter made lower-case.
pub open spec fn lower_byte(byte: u8) -> u8 {
    if 0x41 <= byte <= 0x5a {
        (byte + 0x20) as u8
    } else {
        byte
    }
}

/// The form of labels in which equal names are equal: names do not differ by case.
pub open spec fn name_key(labels: Seq<Seq<u8>>) -> Seq<Seq<u8>> {
    labels.map_values(|label: Seq<u8>| label.map_values(|byte: u8| lower_byte(byte)))
}

fn same_label(left: &Vec<u8>, right: &Vec<u8>) -> (same: bool)
    ensures
        same == (left@.map_values(|byte: u8| lower_byte(byte)) == right@.map_values(
            |byte: u8| lower_byte(byte),
        )),
{
    let ghost a = left@.map_values(|byte: u8| lower_byte(byte));
    let ghost b = right@.map_values(|byte: u8| lower_byte(byte));
    if left.len() != right.len() {
        assert(a.len() != b.len());
        return false;
    }
    let mut i: usize = 0;
    while i < left.len()
        invariant
            a == left@.map_values(|byte: u8| lower_byte(byte)),
            b == right@.map_values(|byte: u8| lower_byte(byte)),
            left@.len() == right@.len(),
            i <= left@.len(),
            forall|k: int| 0 <= k < i ==> a[k] == b[k],
        decreases left@.len() - i,
    {
        if to_lower_byte(left[i]) != to_lower_byte(right[i]) {
            assert(a[i as int] != b[i as int]);
            return false;
        }
        i += 1;
    }
    assert(a =~= b);
    true
}

fn to_lower_byte(byte: u8) -> (result: u8)
    ensures
        result == lower_byte(byte),
{
    if 0x41 <= byte && byte <= 0x5a {
        byte + 0x20
    } else {
        byte
    }
}

/// Whether two names are the same.
pub fn same_name(left: &Vec<Vec<u8>>, right: &Vec<Vec<u8>>) -> (same: bool)
    ensures
        same == (name_key(label_views(left@)) == name_key(label_views(right@))),
{
    let ghost a = name_key(label_views(left@));
    let ghost b = name_key(label_views(right@));
    if left.len() != right.len() {
        assert(a.len() != b.len());
        return false;
    }
    let mut i: usize = 0;
    while i < left.len()
        invariant
            a == name_key(label_views(left@)),
            b == name_key(label_views(right@)),
            left@.len() == right@.len(),
            i <= left@.len(),
            forall|k: int| 0 <= k < i ==> a[k] == b[k],
        decreases left@.len() - i,
    {
        assert(a[i as int] == left@[i as int]@.map_values(|byte: u8| lower_byte(byte)));
        assert(b[i as int] == right@[i as int]@.map_values(|byte: u8| lower_byte(byte)));
        if !same_label(&left[i], &right[i]) {
            return false;
        }
        i += 1;
    }
    assert(a =~= b);
    true
}

/// Whether two questions ask the same.
pub open spec fn questions_match(left: DnsQuestionView, right: DnsQuestionView) -> bool {
    name_key(left.labels) == name_key(right.labels) && left.record_type == right.record_type
        && left.class == right.class
}

/// Whether two lists of questions ask the same, in order.
pub open spec fn all_match(left: Seq<DnsQuestionView>, right: Seq<DnsQuestionView>) -> bool {
    left.len() == right.len() && forall|i: int|
        0 <= i < left.len() ==> questions_match(#[trigger] left[i], right[i])
}

pub fn same_questions(left: &Vec<DnsQuestion>, right: &Vec<DnsQuestion>) -> (same: bool)
    ensures
        same == all_match(question_views(left@), question_views(right@)),
{
    if left.len() != right.len() {
        return false;
    }
    let ghost a = question_views(left@);
    let ghost b = question_views(right@);
    let mut i: usize = 0;
    while i < left.len()
        invariant
            a == question_views(left@),
            b == question_views(right@),
            left@.len() == right@.len(),
            i <= left@.len(),
            forall|k: int| 0 <= k < i ==> questions_match(#[trigger] a[k], b[k]),
        decreases left@.len() - i,
    {
        assert(a[i as int] == left@[i as int]@ && b[i as int] == right@[i as int]@);
        if !same_name(&left[i].labels, &right[i].labels) || left[i].record_type
            != right[i].record_type || left[i].class != right[i].class {
            assert(!questions_match(a[i as int], b[i as int]));
            return false;
        }
        i += 1;
    }
    true
}

/// Whether two bytes are the same letter, or the same byte.
pub open spec fn same_letter(left: u8, right: u8) -> bool {
    left == right || (65 <= left <= 90 && right == left + 32) || (65 <= right <= 90 && left == right
        + 32)
}

/// Names are the same where their labels are, byte by byte and whatever the case of
/// the letters.
pub proof fn law_same_names(
    left: &Vec<Vec<u8>>,
    right: &Vec<Vec<u8>>,
    same: bool,
    i: int,
    j: int,
)
    requires
        call_ensures(same_name, (left, right), same),
    ensures
        same ==> left@.len() == right@.len(),
        same && 0 <= i < left@.len() ==> left@[i]@.len() == right@[i]@.len(),
        same && 0 <= i < left@.len() && 0 <= j < left@[i]@.len() ==> same_letter(
            left@[i]@[j],
            right@[i]@[j],
        ),
        left@.len() == right@.len() && (forall|a: int|
            0 <= a < left@.len() ==> (#[trigger] left@[a])@.len() == right@[a]@.len()) && (forall|
            a: int,
            b: int,
        |
            0 <= a < left@.len() && 0 <= b < left@[a]@.len() ==> same_letter(
                #[trigger] left@[a]@[b],
                right@[a]@[b],
            )) ==> same,
{
    let l = name_key(label_views(left@));
    let r = name_key(label_views(right@));
    assert(l.len() == left@.len() && r.len() == right@.len());
    if same && 0 <= i < left@.len() {
        assert(l[i] == left@[i]@.map_values(|byte: u8| lower_byte(byte)));
        assert(r[i] == right@[i]@.map_values(|byte: u8| lower_byte(byte)));
        assert(l[i].len() == left@[i]@.len());
        assert(r[i].len() == right@[i]@.len());
        if 0 <= j < left@[i]@.len() {
            assert(l[i][j] == lower_byte(left@[i]@[j]));
            assert(r[i][j] == lower_byte(right@[i]@[j]));
        }
    }
    if left@.len() == right@.len() && (forall|a: int|
        0 <= a < left@.len() ==> (#[trigger] left@[a])@.len() == right@[a]@.len()) && (forall|
        a: int,
        b: int,
    |
        0 <= a < left@.len() && 0 <= b < left@[a]@.len() ==> same_letter(
            #[trigger] left@[a]@[b],
            right@[a]@[b],
        )) {
        assert forall|a: int| 0 <= a < l.len() implies l[a] == r[a] by {
            assert(l[a] == left@[a]@.map_values(|byte: u8| lower_byte(byte)));
            assert(r[a] == right@[a]@.map_values(|byte: u8| lower_byte(byte)));
            assert forall|b: int| 0 <= b < l[a].len() implies l[a][b] == r[a][b] by {
                assert(same_letter(left@[a]@[b], right@[a]@[b]));
            }
            assert(l[a] =~= r[a]);
        }
        assert(l =~= r);
    }
}

/// Questions are the same where there are as many, and each asks for the same kind
/// and class of record.
pub proof fn law_same_questions(
    left: &Vec<DnsQuestion>,
    right: &Vec<DnsQuestion>,
    same: bool,
    i: int,
    named: bool,
)
    requires
        call_ensures(same_questions, (left, right), same),
        0 <= i < left@.len(),
        i < right@.len(),
        call_ensures(same_name, (&left@[i].labels, &right@[i].labels), named),
    ensures
        same ==> left@.len() == right@.len() && left@[i].record_type == right@[i].record_type
            && left@[i].class == right@[i].class && named,
        left@.len() == 1 && right@.len() == 1 && left@[0].record_type == right@[0].record_type
            && left@[0].class == right@[0].class && named ==> same,
{
    let l = question_views(left@);
    let r = question_views(right@);
    assert(l.len() == left@.len() && r.len() == right@.len());
    assert(l[i] == left@[i]@ && r[i] == right@[i]@);
    if same {
        assert(questions_match(l[i], r[i]));
    }
}

} // verus!
