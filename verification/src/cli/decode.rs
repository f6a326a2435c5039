//! What is shown of a packet that was captured.

use crate::bytes::be32_bytes;
use crate::bytes::push_be32;
use crate::error::Error;
use crate::hex::encode_hex;
use crate::hex::hex_text;
use crate::protocol::{PacketHeader, PacketType};
use crate::text::{decimal, texts};
use crate::text::{join2, push_decimal, push_one, push_text};
use vstd::prelude::*;
use vstd::slice::{slice_subrange, slice_to_vec};

verus! {

/// What the packet format calls the type and the encryption of a packet.
pub struct HeaderWords {
    pub packet_type: String,
    pub encryption: String,
}

/// A header on one line.
pub open spec fn header_line(words: HeaderWords, header: PacketHeader) -> Seq<char> {
    "type="@ + words.packet_type@ + " encryption="@ + words.encryption@ + " session_id="@
        + decimal(header.session_id as nat) + " token=0x"@ + hex_text(be32_bytes(header.token))
}

pub fn describe_header(words: &HeaderWords, header: &PacketHeader) -> (line: String)
    ensures
        line@ == header_line(*words, *header),
{
    let mut token: Vec<u8> = Vec::new();
    push_be32(&mut token, header.token);
    assert(token@ =~= be32_bytes(header.token));
    let mut line = "type=".to_owned();
    push_text(&mut line, &words.packet_type);
    push_text(&mut line, " encryption=");
    push_text(&mut line, &words.encryption);
    push_text(&mut line, " session_id=");
    push_decimal(&mut line, header.session_id as u64);
    push_text(&mut line, " token=0x");
    push_text(&mut line, &encode_hex(token.as_slice()));
    line
}

/// What is shown of a packet before its body.
pub open spec fn packet_report(words: HeaderWords, header: PacketHeader, signed: bool) -> Seq<
    Seq<char>,
> {
    seq![
        header_line(words, header),
        if signed {
            "signature=true"@
        } else {
            "signature=false"@
        },
    ]
}

pub fn describe_packet(words: &HeaderWords, header: &PacketHeader, signed: bool) -> (lines: Vec<
    String,
>)
    ensures
        texts(lines@) == packet_report(*words, *header, signed),
{
    let mut lines: Vec<String> = Vec::new();
    push_one(&mut lines, describe_header(words, header));
    let signature = if signed {
        "signature=true"
    } else {
        "signature=false"
    };
    push_one(&mut lines, signature.to_owned());
    assert(texts(lines@) =~= packet_report(*words, *header, signed));
    lines
}

/// An attribute with what the packet format calls its kind.
pub struct NamedAttribute {
    pub name: String,
    pub value: Vec<u8>,
}

/// An attribute on one line.
pub open spec fn attribute_line(attribute: NamedAttribute) -> Seq<char> {
    "tlv="@ + attribute.name@ + " length="@ + decimal(attribute.value@.len()) + " value="@
        + hex_text(attribute.value@)
}

fn describe_attribute(attribute: &NamedAttribute) -> (line: String)
    ensures
        line@ == attribute_line(*attribute),
{
    let mut line = "tlv=".to_owned();
    push_text(&mut line, &attribute.name);
    push_text(&mut line, " length=");
    push_decimal(&mut line, attribute.value.len() as u64);
    push_text(&mut line, " value=");
    push_text(&mut line, &encode_hex(attribute.value.as_slice()));
    line
}

/// Whether the body of a packet is made of attributes.
pub open spec fn has_attributes(packet_type: PacketType) -> bool {
    packet_type is Open || packet_type is OpenAck || packet_type is OpenReject
}

/// What is shown of a body: its attributes where it is made of such, and else its
/// bytes.
pub open spec fn body_report(
    packet_type: PacketType,
    body: Seq<u8>,
    attributes: Seq<NamedAttribute>,
) -> Seq<Seq<char>> {
    if has_attributes(packet_type) {
        attributes.map_values(|attribute: NamedAttribute| attribute_line(attribute))
    } else {
        seq!["body="@ + hex_text(body)]
    }
}

/// Describes the body of a packet, given what became of reading its attributes.
pub fn describe_body(
    packet_type: PacketType,
    body: &[u8],
    attributes: Result<Vec<NamedAttribute>, Error>,
) -> (result: Result<Vec<String>, Error>)
    ensures
        match result {
            Ok(lines) => {
                &&& has_attributes(packet_type) ==> attributes is Ok
                &&& texts(lines@) == body_report(
                    packet_type,
                    body@,
                    match attributes {
                        Ok(list) => list@,
                        Err(_) => Seq::empty(),
                    },
                )
            },
            Err(error) => has_attributes(packet_type) && attributes == Err::<
                Vec<NamedAttribute>,
                Error,
            >(error),
        },
{
    let mut lines: Vec<String> = Vec::new();
    let list = match packet_type {
        PacketType::Open | PacketType::OpenAck | PacketType::OpenReject => match attributes {
            Ok(list) => list,
            Err(error) => {
                return Err(error);
            },
        },
        _ => {
            let shown = encode_hex(body);
            push_one(&mut lines, join2("body=", &shown));
            assert(texts(lines@) =~= seq!["body="@ + hex_text(body@)]);
            return Ok(lines);
        },
    };
    let ghost all = list@.map_values(|attribute: NamedAttribute| attribute_line(attribute));
    let mut i: usize = 0;
    while i < list.len()
        invariant
            i <= list@.len(),
            all == list@.map_values(|attribute: NamedAttribute| attribute_line(attribute)),
            texts(lines@) =~= all.take(i as int),
        decreases list@.len() - i,
    {
        push_one(&mut lines, describe_attribute(&list[i]));
        i += 1;
    }
    assert(all.take(i as int) =~= all);
    Ok(lines)
}

/// The outer header of a segment-routing packet, with what the packet format
/// calls its cipher.
pub struct SegmentHeader {
    pub next_id: u32,
    pub links: Vec<u32>,
    pub algorithm: String,
    pub padding: u64,
}

/// Links, with commas between them.
pub open spec fn joined_links(links: Seq<u32>) -> Seq<char>
    decreases links.len(),
{
    if links.len() == 0 {
        Seq::empty()
    } else if links.len() == 1 {
        decimal(links[0] as nat)
    } else {
        joined_links(links.drop_last()) + ","@ + decimal(links.last() as nat)
    }
}

fn push_links(out: &mut String, links: &Vec<u32>)
    ensures
        final(out)@ == old(out)@ + joined_links(links@),
{
    let ghost before = out@;
    let mut i: usize = 0;
    assert(before + joined_links(links@.take(0)) =~= before);
    while i < links.len()
        invariant
            i <= links@.len(),
            out@ == before + joined_links(links@.take(i as int)),
        decreases links@.len() - i,
    {
        if i > 0 {
            push_text(out, ",");
        }
        push_decimal(out, links[i] as u64);
        proof {
            let head = links@.take(i + 1);
            assert(head.drop_last() =~= links@.take(i as int));
            assert(out@ =~= before + joined_links(head));
        }
        i += 1;
    }
    assert(links@.take(i as int) =~= links@);
}

/// What is shown of a segment-routing packet before its body.
pub open spec fn segment_report(
    header: SegmentHeader,
    words: HeaderWords,
    inner: PacketHeader,
) -> Seq<Seq<char>> {
    seq![
        "sr next_id="@ + decimal(header.next_id as nat) + " links="@ + joined_links(header.links@)
            + " algorithm="@ + header.algorithm@ + " padding="@ + decimal(header.padding as nat),
        "inner "@ + header_line(words, inner),
    ]
}

pub fn describe_segment(
    header: &SegmentHeader,
    words: &HeaderWords,
    inner: &PacketHeader,
) -> (lines: Vec<String>)
    ensures
        texts(lines@) == segment_report(*header, *words, *inner),
{
    let mut outer = "sr next_id=".to_owned();
    push_decimal(&mut outer, header.next_id as u64);
    push_text(&mut outer, " links=");
    push_links(&mut outer, &header.links);
    push_text(&mut outer, " algorithm=");
    push_text(&mut outer, &header.algorithm);
    push_text(&mut outer, " padding=");
    push_decimal(&mut outer, header.padding);
    let mut lines: Vec<String> = Vec::new();
    push_one(&mut lines, outer);
    let shown = describe_header(words, inner);
    push_one(&mut lines, join2("inner ", &shown));
    assert(texts(lines@) =~= segment_report(*header, *words, *inner));
    lines
}

/// The bytes behind the outer header of a segment-routing packet.
pub fn inner_part(packet: &[u8], header_length: usize) -> (result: Result<Vec<u8>, Error>)
    ensures
        match result {
            Ok(inner) => header_length <= packet@.len() && inner@ == packet@.skip(
                header_length as int,
            ),
            Err(error) => header_length > packet@.len() && error == Error::InvalidSegmentRouting(
                "missing SR inner header",
            ),
        },
{
    if header_length > packet.len() {
        return Err(Error::InvalidSegmentRouting("missing SR inner header"));
    }
    let inner = slice_to_vec(slice_subrange(packet, header_length, packet.len()));
    assert(inner@ =~= packet@.skip(header_length as int));
    Ok(inner)
}

/// Describes the body of a segment-routing packet: what stands behind its outer
/// and its inner header.
pub fn describe_inner_body(packet: &[u8], header_length: usize, inner_length: usize) -> (result:
    Result<String, Error>)
    ensures
        match result {
            Ok(line) => header_length + inner_length <= packet@.len() && line@ == "body="@
                + hex_text(packet@.skip(header_length + inner_length)),
            Err(error) => header_length + inner_length > packet@.len() && error
                == Error::InvalidSegmentRouting("missing SR inner body"),
        },
{
    if header_length > packet.len() || inner_length > packet.len() - header_length {
        return Err(Error::InvalidSegmentRouting("missing SR inner body"));
    }
    let body = slice_subrange(packet, header_length + inner_length, packet.len());
    assert(body@ =~= packet@.skip(header_length + inner_length));
    let shown = encode_hex(body);
    Ok(join2("body=", &shown))
}

/// The parts of a segment-routed packet: the inner packet begins behind the header,
/// and its body behind its own header.
pub proof fn law_inner_parts(
    packet: &[u8],
    header: Seq<u8>,
    inner_header: Seq<u8>,
    body: Seq<u8>,
    header_length: usize,
    inner_length: usize,
    inner: Result<Vec<u8>, Error>,
    line: Result<String, Error>,
)
    requires
        call_ensures(inner_part, (packet, header_length), inner),
        call_ensures(describe_inner_body, (packet, header_length, inner_length), line),
    ensures
        packet@ == header + inner_header + body && header_length == header.len() && inner_length
            == inner_header.len() ==> {
            &&& inner matches Ok(rest) && rest@ == inner_header + body
            &&& line matches Ok(shown) && shown@ == "body="@ + hex_text(body)
        },
        packet@.len() < header_length ==> inner is Err && line is Err,
        packet@.len() < header_length + inner_length ==> line is Err,
{
    if packet@ == header + inner_header + body && header_length == header.len() && inner_length
        == inner_header.len() {
        assert(packet@.skip(header_length as int) =~= inner_header + body);
        assert(packet@.skip(header_length + inner_length) =~= body);
    }
}

/// Packets of an opening are shown by their attributes, one line each, and others by
/// their bytes.
pub proof fn law_shown_body(
    packet_type: PacketType,
    body: &[u8],
    attributes: Vec<NamedAttribute>,
    lines: Vec<String>,
    i: int,
)
    requires
        call_ensures(
            describe_body,
            (packet_type, body, Ok::<Vec<NamedAttribute>, Error>(attributes)),
            Ok::<Vec<String>, Error>(lines),
        ),
    ensures
        packet_type is Open || packet_type is OpenAck || packet_type is OpenReject ==> {
            &&& lines@.len() == attributes@.len()
            &&& 0 <= i < lines@.len() ==> lines@[i]@ == "tlv="@ + attributes@[i].name@ + " length="@
                + decimal(attributes@[i].value@.len()) + " value="@ + hex_text(
                attributes@[i].value@,
            )
        },
        !(packet_type is Open || packet_type is OpenAck || packet_type is OpenReject) ==> {
            &&& lines@.len() == 1
            &&& lines@[0]@ == "body="@ + hex_text(body@)
        },
{
    assert(texts(lines@).len() == lines@.len());
    if 0 <= i < lines@.len() {
        assert(texts(lines@)[i] == lines@[i]@);
    }
    if lines@.len() > 0 {
        assert(texts(lines@)[0] == lines@[0]@);
    }
}

/// A packet is shown by its header, with the token in eight hexadecimal digits, and
/// by whether it is signed.
pub proof fn law_shown_packet(
    words: &HeaderWords,
    header: &PacketHeader,
    signed: bool,
    lines: Vec<String>,
    shown: Seq<char>,
)
    requires
        call_ensures(describe_packet, (words, header, signed), lines),
    ensures
        lines@.len() == 2,
        lines@[0]@ == "type="@ + words.packet_type@ + " encryption="@ + words.encryption@
            + " session_id="@ + decimal(header.session_id as nat) + " token=0x"@ + hex_text(
            seq![
                (header.token / 0x100_0000) as u8,
                (header.token / 0x1_0000 % 0x100) as u8,
                (header.token / 0x100 % 0x100) as u8,
                (header.token % 0x100) as u8,
            ],
        ),
        signed ==> lines@[1]@ == "signature=true"@,
        !signed ==> lines@[1]@ == "signature=false"@,
{
    assert(texts(lines@).len() == lines@.len());
    assert(texts(lines@)[0] == lines@[0]@);
    assert(texts(lines@)[1] == lines@[1]@);
}

/// A segment-routed packet is shown by its next link, all of its links with commas
/// between them, its algorithm and its padding, and by its inner header.
pub proof fn law_shown_segment(
    header: &SegmentHeader,
    words: &HeaderWords,
    inner: &PacketHeader,
    lines: Vec<String>,
    line: String,
)
    requires
        call_ensures(describe_segment, (header, words, inner), lines),
        call_ensures(describe_header, (words, inner), line),
    ensures
        lines@.len() == 2,
        lines@[1]@ == "inner "@ + line@,
        header.links@.len() == 1 ==> lines@[0]@ == "sr next_id="@ + decimal(header.next_id as nat)
            + " links="@ + decimal(header.links@[0] as nat) + " algorithm="@ + header.algorithm@
            + " padding="@ + decimal(header.padding as nat),
        header.links@.len() == 2 ==> lines@[0]@ == "sr next_id="@ + decimal(header.next_id as nat)
            + " links="@ + (decimal(header.links@[0] as nat) + ","@ + decimal(
            header.links@[1] as nat,
        )) + " algorithm="@ + header.algorithm@ + " padding="@ + decimal(header.padding as nat),
{
    reveal_with_fuel(joined_links, 3);
    let shown = texts(lines@);
    assert(shown.len() == lines@.len());
    assert(shown[0] == lines@[0]@ && shown[1] == lines@[1]@);
    if header.links@.len() == 2 {
        assert(header.links@.drop_last() =~= seq![header.links@[0]]);
    }
}

/// A row of links grows by a comma and the next link.
pub proof fn law_links_in_a_row(links: Seq<u32>, link: u32)
    ensures
        links.len() == 0 ==> joined_links(links.push(link)) == decimal(link as nat),
        links.len() > 0 ==> joined_links(links.push(link)) == joined_links(links) + ","@ + decimal(
            link as nat,
        ),
{
    assert(links.push(link).drop_last() =~= links);
}

} // verus!
