//! Traditional and segment-routing fragment codecs and reassembly.
//!
//! Points in time are nanoseconds on a monotonic clock.

use crate::bytes::{be16, le32, push_all, push_be32, push_le32};
use crate::bytes::{
    be16_value, be32_bytes, be32_value, law_word_round_trip, le32_bytes, le32_value,
    lemma_bytes_of_value,
};
use crate::error::Error;
use std::collections::HashMap;
use vstd::prelude::*;
use vstd::slice::slice_subrange;
use vstd::slice::slice_to_vec;

verus! {

pub const FRAGMENT_PREFIX_LEN: usize = 8;

pub const MAX_FRAGMENT_OFFSET: u16 = 0x1fff;

pub const MAX_FRAGMENT_LENGTH: u16 = 0x07ff;

pub const MAX_REASSEMBLED_PACKET: usize = 8192;

pub const TRADITIONAL_TIMEOUT_NS: u64 = 100_000_000;

pub const TRADITIONAL_MAX_GROUPS: usize = 256;

pub const SR_TIMEOUT_NS: u64 = 2_000_000_000;

pub const SR_MAX_GROUPS: usize = 16;

pub const SR_MAX_BUFFERED_BYTES: usize = 262_144;

/// One part of a packet that was split for transport.
#[derive(Debug, Clone)]
pub struct Fragment {
    pub id: u32,
    pub end_of_packet: bool,
    pub from_in: bool,
    pub offset: u16,
    pub data: Vec<u8>,
}

/// The byte order of the identifier in a fragment prefix.
#[derive(Debug, Clone, Copy, PartialEq, Eq, Structural)]
pub enum FragmentIdEndian {
    Big,
    Little,
}

/// What a fragment says, with its payload as a sequence.
#[verifier::ext_equal]
pub struct FragmentView {
    pub id: u32,
    pub end_of_packet: bool,
    pub from_in: bool,
    pub offset: u16,
    pub data: Seq<u8>,
}

impl View for Fragment {
    type V = FragmentView;

    open spec fn view(&self) -> FragmentView {
        FragmentView {
            id: self.id,
            end_of_packet: self.end_of_packet,
            from_in: self.from_in,
            offset: self.offset,
            data: self.data@,
        }
    }
}

impl FragmentView {
    /// The first offset behind the payload.
    pub open spec fn end(self) -> int {
        self.offset + self.data.len()
    }

    /// The flags, offset and length of the prefix as one number.
    pub open spec fn word(self) -> int {
        (if self.end_of_packet { 1int } else { 0 }) + (if self.from_in { 2int } else { 0 })
            + self.offset * 4 + self.data.len() * 0x8000
    }

    /// Why a fragment cannot be encoded, if it cannot.
    pub open spec fn encode_error(self) -> Option<Error> {
        if self.offset > MAX_FRAGMENT_OFFSET {
            Some(Error::InvalidFragment("offset exceeds 13-bit field"))
        } else if self.data.len() > u16::MAX {
            Some(Error::InvalidFragment("payload exceeds 11-bit length field"))
        } else if self.data.len() == 0 || self.data.len() > MAX_FRAGMENT_LENGTH {
            Some(Error::InvalidFragment("payload length is outside 1..=2047"))
        } else if self.end() > MAX_REASSEMBLED_PACKET {
            Some(Error::FragmentTooLarge)
        } else {
            None
        }
    }

    /// The bytes of an encodable fragment.
    pub open spec fn encoded(self, endian: FragmentIdEndian) -> Seq<u8> {
        id_bytes(self.id, endian) + le32_bytes(self.word() as u32) + self.data
    }
}

pub open spec fn id_bytes(id: u32, endian: FragmentIdEndian) -> Seq<u8> {
    match endian {
        FragmentIdEndian::Big => be32_bytes(id),
        FragmentIdEndian::Little => le32_bytes(id),
    }
}

pub open spec fn id_value(input: Seq<u8>, endian: FragmentIdEndian) -> int {
    match endian {
        FragmentIdEndian::Big => be32_value(input[0], input[1], input[2], input[3]),
        FragmentIdEndian::Little => le32_value(input[0], input[1], input[2], input[3]),
    }
}

/// The packed word of a fragment prefix.
pub open spec fn prefix_word(input: Seq<u8>) -> int {
    le32_value(input[4], input[5], input[6], input[7])
}

/// The payload length that a packed word declares.
pub open spec fn word_length(word: int) -> int {
    word / 0x8000 % 0x800
}

/// The offset that a packed word declares.
pub open spec fn word_offset(word: int) -> int {
    word / 4 % 0x2000
}

/// Why a datagram is no fragment, if it is none.
pub open spec fn parse_error(input: Seq<u8>) -> Option<Error> {
    let word = prefix_word(input);
    if input.len() < FRAGMENT_PREFIX_LEN {
        Some(Error::InvalidFragment("fewer than eight prefix bytes"))
    } else if word >= 0x400_0000 {
        Some(Error::InvalidFragment("reserved bits are non-zero"))
    } else if word_length(word) == 0 {
        Some(Error::InvalidFragment("zero payload length"))
    } else if input.len() - FRAGMENT_PREFIX_LEN < word_length(word) {
        Some(Error::InvalidFragment("declared payload length exceeds datagram"))
    } else if word_offset(word) + word_length(word) > MAX_REASSEMBLED_PACKET {
        Some(Error::FragmentTooLarge)
    } else {
        None
    }
}

/// The fragment that a well-formed datagram holds.
pub open spec fn parsed(input: Seq<u8>, endian: FragmentIdEndian) -> FragmentView {
    let word = prefix_word(input);
    FragmentView {
        id: id_value(input, endian) as u32,
        end_of_packet: word % 2 == 1,
        from_in: word / 2 % 2 == 1,
        offset: word_offset(word) as u16,
        data: input.subrange(8, 8 + word_length(word)),
    }
}

proof fn lemma_word_fields(end: int, from_in: int, offset: int, length: int)
    requires
        0 <= end < 2,
        0 <= from_in < 2,
        0 <= offset < 0x2000,
        0 <= length < 0x800,
    ensures
        ({
            let word = end + from_in * 2 + offset * 4 + length * 0x8000;
            &&& 0 <= word < 0x400_0000
            &&& word % 2 == end
            &&& word / 2 % 2 == from_in
            &&& word_offset(word) == offset
            &&& word_length(word) == length
        }),
{
    let word = end + from_in * 2 + offset * 4 + length * 0x8000;
    assert(word / 2 == from_in + offset * 2 + length * 0x4000);
    assert(word / 4 == offset + length * 0x2000);
    assert(word / 0x8000 == length);
}

proof fn lemma_fields_of_word(word: int)
    requires
        0 <= word < 0x400_0000,
    ensures
        word == word % 2 + (word / 2 % 2) * 2 + word_offset(word) * 4 + word_length(word) * 0x8000,
{
    assert(word == (word / 2) * 2 + word % 2);
    assert(word / 2 == (word / 4) * 2 + word / 2 % 2);
    assert(word / 4 == (word / 0x8000) * 0x2000 + word / 4 % 0x2000);
}

/// Parsing what was encoded gives the fragment back, in either byte order.
pub proof fn law_parse_inverts_encode(fragment: FragmentView, endian: FragmentIdEndian)
    requires
        fragment.encode_error() is None,
    ensures
        parse_error(fragment.encoded(endian)) is None,
        parsed(fragment.encoded(endian), endian) == fragment,
{
    let input = fragment.encoded(endian);
    let word = fragment.word();
    let length = fragment.data.len() as int;
    lemma_word_fields(
        if fragment.end_of_packet { 1 } else { 0 },
        if fragment.from_in { 1 } else { 0 },
        fragment.offset as int,
        length,
    );
    law_word_round_trip(fragment.id);
    law_word_round_trip(word as u32);
    let id = id_bytes(fragment.id, endian);
    let packed = le32_bytes(word as u32);
    assert(input[0] == id[0] && input[1] == id[1] && input[2] == id[2] && input[3] == id[3]);
    assert(input[4] == packed[0] && input[5] == packed[1] && input[6] == packed[2] && input[7]
        == packed[3]);
    assert(prefix_word(input) == word);
    assert(id_value(input, endian) == fragment.id);
    assert(input.subrange(8, 8 + length) =~= fragment.data);
    assert(parsed(input, endian) =~= fragment);
}

/// Encoding what was parsed gives the bytes that the prefix declares back.
pub proof fn law_encode_inverts_parse(input: Seq<u8>, endian: FragmentIdEndian)
    requires
        parse_error(input) is None,
    ensures
        parsed(input, endian).encode_error() is None,
        parsed(input, endian).encoded(endian) == input.take(
            8 + word_length(prefix_word(input)),
        ),
{
    let word = prefix_word(input);
    let fragment = parsed(input, endian);
    lemma_bytes_of_value(input[0], input[1], input[2], input[3]);
    lemma_bytes_of_value(input[3], input[2], input[1], input[0]);
    lemma_bytes_of_value(input[4], input[5], input[6], input[7]);
    lemma_fields_of_word(word);
    assert(fragment.data.len() == word_length(word));
    assert(fragment.word() == word);
    assert(id_bytes(fragment.id, endian) =~= seq![input[0], input[1], input[2], input[3]]);
    assert(le32_bytes(word as u32) =~= seq![input[4], input[5], input[6], input[7]]);
    assert(fragment.encoded(endian) =~= input.take(8 + word_length(word)));
}

impl Fragment {
    pub fn parse_traditional(input: &[u8]) -> (result: Result<Self, Error>)
        ensures
            match result {
                Ok(fragment) => parse_error(input@) is None && fragment@ == parsed(
                    input@,
                    FragmentIdEndian::Big,
                ),
                Err(error) => parse_error(input@) == Some(error),
            },
    {
        Self::parse(input, FragmentIdEndian::Big)
    }

    pub fn parse_sr(input: &[u8]) -> (result: Result<Self, Error>)
        ensures
            match result {
                Ok(fragment) => parse_error(input@) is None && fragment@ == parsed(
                    input@,
                    FragmentIdEndian::Little,
                ),
                Err(error) => parse_error(input@) == Some(error),
            },
    {
        Self::parse(input, FragmentIdEndian::Little)
    }

    fn parse(input: &[u8], endian: FragmentIdEndian) -> (result: Result<Self, Error>)
        ensures
            match result {
                Ok(fragment) => parse_error(input@) is None && fragment@ == parsed(input@, endian),
                Err(error) => parse_error(input@) == Some(error),
            },
    {
        if input.len() < FRAGMENT_PREFIX_LEN {
            return Err(Error::InvalidFragment("fewer than eight prefix bytes"));
        }
        let id: u32 = match endian {
            FragmentIdEndian::Big => le32(input[3], input[2], input[1], input[0]),
            FragmentIdEndian::Little => le32(input[0], input[1], input[2], input[3]),
        };
        let word: u32 = le32(input[4], input[5], input[6], input[7]);
        if word >= 0x400_0000 {
            return Err(Error::InvalidFragment("reserved bits are non-zero"));
        }
        let offset: u16 = (word / 4 % 0x2000) as u16;
        let length: usize = (word / 0x8000 % 0x800) as usize;
        if length == 0 {
            return Err(Error::InvalidFragment("zero payload length"));
        }
        if input.len() - FRAGMENT_PREFIX_LEN < length {
            return Err(Error::InvalidFragment("declared payload length exceeds datagram"));
        }
        if offset as usize + length > MAX_REASSEMBLED_PACKET {
            return Err(Error::FragmentTooLarge);
        }
        let data = slice_to_vec(
            slice_subrange(input, FRAGMENT_PREFIX_LEN, FRAGMENT_PREFIX_LEN + length),
        );
        let fragment = Fragment {
            id,
            end_of_packet: word % 2 == 1,
            from_in: word / 2 % 2 == 1,
            offset,
            data,
        };
        assert(fragment@ =~= parsed(input@, endian));
        Ok(fragment)
    }

    pub fn encode_traditional(&self) -> (result: Result<Vec<u8>, Error>)
        ensures
            match result {
                Ok(bytes) => self@.encode_error() is None && bytes@ == self@.encoded(
                    FragmentIdEndian::Big,
                ),
                Err(error) => self@.encode_error() == Some(error),
            },
    {
        self.encode(FragmentIdEndian::Big)
    }

    pub fn encode_sr(&self) -> (result: Result<Vec<u8>, Error>)
        ensures
            match result {
                Ok(bytes) => self@.encode_error() is None && bytes@ == self@.encoded(
                    FragmentIdEndian::Little,
                ),
                Err(error) => self@.encode_error() == Some(error),
            },
    {
        self.encode(FragmentIdEndian::Little)
    }

    fn encode(&self, endian: FragmentIdEndian) -> (result: Result<Vec<u8>, Error>)
        ensures
            match result {
                Ok(bytes) => self@.encode_error() is None && bytes@ == self@.encoded(endian),
                Err(error) => self@.encode_error() == Some(error),
            },
    {
        if self.offset > MAX_FRAGMENT_OFFSET {
            return Err(Error::InvalidFragment("offset exceeds 13-bit field"));
        }
        let length: usize = self.data.len();
        if length > 0xffff {
            return Err(Error::InvalidFragment("payload exceeds 11-bit length field"));
        }
        if length == 0 || length > MAX_FRAGMENT_LENGTH as usize {
            return Err(Error::InvalidFragment("payload length is outside 1..=2047"));
        }
        if self.offset as usize + length > MAX_REASSEMBLED_PACKET {
            return Err(Error::FragmentTooLarge);
        }
        let end_bit: u32 = if self.end_of_packet {
            1
        } else {
            0
        };
        let in_bit: u32 = if self.from_in {
            2
        } else {
            0
        };
        let word: u32 = end_bit + in_bit + (self.offset as u32) * 4 + (length as u32) * 0x8000;
        let mut output: Vec<u8> = Vec::with_capacity(FRAGMENT_PREFIX_LEN + length);
        match endian {
            FragmentIdEndian::Big => push_be32(&mut output, self.id),
            FragmentIdEndian::Little => push_le32(&mut output, self.id),
        }
        push_le32(&mut output, word);
        push_all(&mut output, self.data.as_slice());
        assert(output@ =~= self@.encoded(endian));
        Ok(output)
    }

    /// The first offset behind the payload.
    pub fn end_offset(&self) -> (result: Result<usize, Error>)
        ensures
            match result {
                Ok(end) => end == self@.end(),
                Err(error) => self@.end() > usize::MAX && error == Error::FragmentTooLarge,
            },
    {
        match (self.offset as usize).checked_add(self.data.len()) {
            Some(end) => Ok(end),
            None => Err(Error::FragmentTooLarge),
        }
    }
}

/// Whether something created at one time has outlived its timeout at another.
pub open spec fn expired(created: u64, now: u64, timeout: u64) -> bool {
    now - created > timeout
}

fn has_expired(created: u64, now: u64, timeout: u64) -> (answer: bool)
    ensures
        answer == expired(created, now, timeout),
{
    created <= now && now - created > timeout
}

/// The identifiers under which a table holds something.
fn ids_of<T>(table: &HashMap<u32, T>) -> (ids: Vec<u32>)
    ensures
        forall|id: u32| ids@.contains(id) == table@.contains_key(id),
{
    let mut ids: Vec<u32> = Vec::new();
    for id in walk: table.keys()
        invariant
            ids@ == walk.seq().unref().take(walk.index()),
            walk.seq().unref().to_set() == table@.dom(),
            walk.index() == walk.seq().len() ==> ids@.to_set() == table@.dom(),
    {
        ids.push(*id);
        proof {
            let all = walk.seq().unref();
            assert(ids@ =~= all.take(walk.index() + 1));
            assert(all.take(all.len() as int) =~= all);
        }
    }
    assert forall|id: u32| ids@.contains(id) == table@.contains_key(id) by {
        assert(ids@.to_set().contains(id) == ids@.contains(id));
    }
    ids
}

/// The payload that an insertion gave back, with bytes as a sequence.
pub open spec fn packet_view(result: Result<Option<Vec<u8>>, Error>) -> Result<
    Option<Seq<u8>>,
    Error,
> {
    match result {
        Ok(Some(packet)) => Ok(Some(packet@)),
        Ok(None) => Ok(None),
        Err(error) => Err(error),
    }
}

/// The half of a packet that waits for the other half.
#[derive(Debug)]
pub struct TraditionalPending {
    pub created: u64,
    pub fragment: Fragment,
}

/// Two-fragment reassembly, ordered by the end-of-packet mark, with a
/// matching window of 100 ms.
#[derive(Debug)]
pub struct TraditionalFragmentReassembler {
    groups: HashMap<u32, TraditionalPending>,
}

/// The halves that still wait at a given time.
pub open spec fn live_halves(pending: Map<u32, TraditionalPending>, now: u64) -> Map<
    u32,
    TraditionalPending,
> {
    pending.restrict(
        Set::new(|id: u32| !expired(pending[id].created, now, TRADITIONAL_TIMEOUT_NS)),
    )
}

/// Whether no waiting half is older than this one.
pub open spec fn is_oldest(pending: Map<u32, TraditionalPending>, id: u32) -> bool {
    &&& pending.contains_key(id)
    &&& forall|other: u32| #[trigger]
        pending.contains_key(other) ==> pending[id].created <= pending[other].created
}

/// What inserting a fragment does to the waiting halves and what it gives back.
/// Where the table is full, one of the oldest halves leaves; which of several
/// equally old ones is open.
pub open spec fn traditional_step(
    before: Map<u32, TraditionalPending>,
    fragment: Fragment,
    now: u64,
    after: Map<u32, TraditionalPending>,
    result: Result<Option<Seq<u8>>, Error>,
) -> bool {
    let live = live_halves(before, now);
    let entry = TraditionalPending { created: now, fragment };
    if fragment.data@.len() > MAX_REASSEMBLED_PACKET {
        after == live && result == Err::<Option<Seq<u8>>, Error>(Error::FragmentTooLarge)
    } else if live.contains_key(fragment.id) {
        let first = live[fragment.id].fragment;
        let packet = if first.end_of_packet {
            fragment.data@ + first.data@
        } else {
            first.data@ + fragment.data@
        };
        if first.end_of_packet == fragment.end_of_packet {
            after == live.insert(fragment.id, entry) && result == Ok::<Option<Seq<u8>>, Error>(None)
        } else if packet.len() > MAX_REASSEMBLED_PACKET {
            after == live.remove(fragment.id) && result == Err::<Option<Seq<u8>>, Error>(
                Error::FragmentTooLarge,
            )
        } else {
            after == live.remove(fragment.id) && result == Ok::<Option<Seq<u8>>, Error>(
                Some(packet),
            )
        }
    } else {
        &&& result == Ok::<Option<Seq<u8>>, Error>(None)
        &&& if live.len() >= TRADITIONAL_MAX_GROUPS {
            exists|oldest: u32| #[trigger]
                is_oldest(live, oldest) && after == live.remove(oldest).insert(fragment.id, entry)
        } else {
            after == live.insert(fragment.id, entry)
        }
    }
}

impl View for TraditionalFragmentReassembler {
    type V = Map<u32, TraditionalPending>;

    closed spec fn view(&self) -> Map<u32, TraditionalPending> {
        self.groups@
    }
}

impl Default for TraditionalFragmentReassembler {
    fn default() -> (queue: Self)
        ensures
            queue.wf(),
            queue@ == Map::<u32, TraditionalPending>::empty(),
    {
        TraditionalFragmentReassembler { groups: HashMap::new() }
    }
}

impl TraditionalFragmentReassembler {
    /// Finitely many halves wait, no more than the limit allows. They are stored
    /// under their own identifiers and are no longer than a packet may be.
    pub open spec fn wf(&self) -> bool {
        &&& self@.dom().finite()
        &&& self@.len() <= TRADITIONAL_MAX_GROUPS
        &&& forall|id: u32| #[trigger]
            self@.contains_key(id) ==> self@[id].fragment.id == id && self@[id].fragment.data@.len()
                <= MAX_REASSEMBLED_PACKET
    }

    pub fn clear(&mut self)
        ensures
            final(self).wf(),
            final(self)@ == Map::<u32, TraditionalPending>::empty(),
    {
        self.groups.clear();
    }

    pub fn pending_groups(&self) -> (count: usize)
        requires
            self.wf(),
        ensures
            count == self@.len(),
            count <= TRADITIONAL_MAX_GROUPS,
    {
        self.groups.len()
    }

    pub fn purge_expired(&mut self, now: u64)
        requires
            old(self).wf(),
        ensures
            final(self).wf(),
            final(self)@ == live_halves(old(self)@, now),
    {
        let ghost before = self@;
        let ids = ids_of(&self.groups);
        let mut i: usize = 0;
        while i < ids.len()
            invariant
                self.wf(),
                i <= ids@.len(),
                live_halves(self@, now) == live_halves(before, now),
                forall|id: u32| #[trigger] self@.contains_key(id) ==> ids@.contains(id),
                forall|k: int|
                    0 <= k < i && self@.contains_key(#[trigger] ids@[k]) ==> !expired(
                        self@[ids@[k]].created,
                        now,
                        TRADITIONAL_TIMEOUT_NS,
                    ),
            decreases ids@.len() - i,
        {
            let id: u32 = ids[i];
            let over = match self.groups.get(&id) {
                Some(half) => has_expired(half.created, now, TRADITIONAL_TIMEOUT_NS),
                None => false,
            };
            if over {
                let ghost mid = self@;
                let _ = self.groups.remove(&id);
                assert(self@.dom() =~= mid.dom().remove(id));
                assert(live_halves(self@, now) =~= live_halves(mid, now));
            }
            i += 1;
        }
        assert forall|id: u32| #[trigger] self@.contains_key(id) implies !expired(
            self@[id].created,
            now,
            TRADITIONAL_TIMEOUT_NS,
        ) by {
            let k = choose|k: int| 0 <= k < ids@.len() && ids@[k] == id;
            assert(self@.contains_key(ids@[k]));
        }
        assert(live_halves(self@, now) =~= self@);
    }

    /// The identifier of a half that no other half is older than.
    fn oldest(&self) -> (oldest: Option<u32>)
        ensures
            match oldest {
                Some(id) => is_oldest(self@, id),
                None => self@.len() == 0,
            },
    {
        let ids = ids_of(&self.groups);
        let mut oldest: Option<(u32, u64)> = None;
        let mut i: usize = 0;
        while i < ids.len()
            invariant
                i <= ids@.len(),
                forall|id: u32| ids@.contains(id) == self@.contains_key(id),
                match oldest {
                    Some((id, created)) => self@.contains_key(id) && self@[id].created == created
                        && forall|k: int|
                        0 <= k < i ==> created <= self@[#[trigger] ids@[k]].created,
                    None => i == 0,
                },
            decreases ids@.len() - i,
        {
            let id: u32 = ids[i];
            assert(ids@.contains(ids@[i as int]));
            if let Some(half) = self.groups.get(&id) {
                let earlier = match oldest {
                    Some((_, created)) => half.created < created,
                    None => true,
                };
                if earlier {
                    oldest = Some((id, half.created));
                }
            }
            i += 1;
        }
        proof {
            assert forall|id: u32| #[trigger] self@.contains_key(id) implies exists|k: int|
                0 <= k < ids@.len() && #[trigger] ids@[k] == id by {
                assert(ids@.contains(id));
            }
            if oldest is None {
                assert(self@.dom() =~= Set::empty());
            }
        }
        match oldest {
            Some((id, _)) => Some(id),
            None => None,
        }
    }

    /// Adds a fragment and gives the packet back when both halves are there.
    pub fn insert(&mut self, fragment: Fragment, now: u64) -> (result: Result<
        Option<Vec<u8>>,
        Error,
    >)
        requires
            old(self).wf(),
        ensures
            final(self).wf(),
            final(self)@.dom().finite(),
            final(self)@.len() <= TRADITIONAL_MAX_GROUPS,
            traditional_step(old(self)@, fragment, now, final(self)@, packet_view(result)),
    {
        self.purge_expired(now);
        let ghost live = self@;
        if fragment.data.len() > MAX_REASSEMBLED_PACKET {
            return Err(Error::FragmentTooLarge);
        }
        let id: u32 = fragment.id;
        match self.groups.remove(&id) {
            Some(first) => {
                assert(live.contains_key(id));
                assert(self@.dom() =~= live.dom().remove(id));
                if first.fragment.end_of_packet == fragment.end_of_packet {
                    let entry = TraditionalPending { created: now, fragment };
                    let _ = self.groups.insert(id, entry);
                    assert(self@ =~= live.insert(id, entry));
                    assert(live.insert(id, entry).dom() =~= live.dom());
                    return Ok(None);
                }
                let (prefix, suffix) = if first.fragment.end_of_packet {
                    (&fragment, &first.fragment)
                } else {
                    (&first.fragment, &fragment)
                };
                let total: usize = prefix.data.len() + suffix.data.len();
                if total > MAX_REASSEMBLED_PACKET {
                    return Err(Error::FragmentTooLarge);
                }
                let mut packet: Vec<u8> = Vec::with_capacity(total);
                push_all(&mut packet, prefix.data.as_slice());
                push_all(&mut packet, suffix.data.as_slice());
                assert(packet@ =~= prefix.data@ + suffix.data@);
                Ok(Some(packet))
            },
            None => {
                assert(self@ =~= live);
                let entry = TraditionalPending { created: now, fragment };
                if self.groups.len() >= TRADITIONAL_MAX_GROUPS {
                    if let Some(oldest) = self.oldest() {
                        let _ = self.groups.remove(&oldest);
                        assert(self@.dom() =~= live.dom().remove(oldest));
                        assert(is_oldest(live, oldest));
                        let _ = self.groups.insert(id, entry);
                        assert(self@ == live.remove(oldest).insert(id, entry));
                        assert(self@.dom() =~= live.dom().remove(oldest).insert(id));
                    }
                } else {
                    let _ = self.groups.insert(id, entry);
                    assert(self@.dom() =~= live.dom().insert(id));
                }
                Ok(None)
            },
        }
    }
}

/// The two halves of a packet come back joined, head first, whichever of them
/// arrives first, as long as they arrive within the matching window.
pub proof fn law_traditional_pair_joins(
    before: Map<u32, TraditionalPending>,
    first: Fragment,
    at: u64,
    between: Map<u32, TraditionalPending>,
    second: Fragment,
    later: u64,
    after: Map<u32, TraditionalPending>,
    first_result: Result<Option<Seq<u8>>, Error>,
    second_result: Result<Option<Seq<u8>>, Error>,
)
    requires
        traditional_step(before, first, at, between, first_result),
        traditional_step(between, second, later, after, second_result),
        !live_halves(before, at).contains_key(first.id),
        first.id == second.id,
        first.end_of_packet != second.end_of_packet,
        at <= later <= at + TRADITIONAL_TIMEOUT_NS,
        first.data@.len() + second.data@.len() <= MAX_REASSEMBLED_PACKET,
    ensures
        first_result == Ok::<Option<Seq<u8>>, Error>(None),
        second_result == Ok::<Option<Seq<u8>>, Error>(
            Some(
                if first.end_of_packet {
                    second.data@ + first.data@
                } else {
                    first.data@ + second.data@
                },
            ),
        ),
        !after.contains_key(first.id),
{
    assert(between.contains_key(first.id) && between[first.id].fragment == first
        && between[first.id].created == at);
}

/// Several parts of one packet that wait for the rest.
#[derive(Debug)]
pub struct SrFragmentGroup {
    pub created: u64,
    pub parts: Vec<Fragment>,
    pub buffered_bytes: usize,
}

/// A waiting group: when it began and its parts in the order of their offsets.
#[verifier::ext_equal]
pub struct SrGroupView {
    pub created: u64,
    pub parts: Seq<Fragment>,
}

impl View for SrFragmentGroup {
    type V = SrGroupView;

    open spec fn view(&self) -> SrGroupView {
        SrGroupView { created: self.created, parts: self.parts@ }
    }
}

/// Offset-aware, bounded reassembly of segment-routing fragments.
#[derive(Debug)]
pub struct SrFragmentReassembler {
    groups: HashMap<u32, SrFragmentGroup>,
    buffered_bytes: usize,
}

/// The payloads of parts, one behind the other.
pub open spec fn joined(parts: Seq<Fragment>) -> Seq<u8>
    decreases parts.len(),
{
    if parts.len() == 0 {
        Seq::empty()
    } else {
        joined(parts.drop_last()) + parts.last().data@
    }
}

/// The number of payload bytes in all groups.
pub open spec fn total_bytes(groups: Map<u32, SrGroupView>) -> nat
    decreases groups.len(),
{
    if groups.dom().finite() && groups.len() > 0 {
        let id = groups.dom().choose();
        joined(groups[id].parts).len() + total_bytes(groups.remove(id))
    } else {
        0
    }
}

/// The groups that still wait at a given time.
pub open spec fn live_groups(groups: Map<u32, SrGroupView>, now: u64) -> Map<u32, SrGroupView> {
    groups.restrict(Set::new(|id: u32| !expired(groups[id].created, now, SR_TIMEOUT_NS)))
}

pub open spec fn has_offset(parts: Seq<Fragment>, offset: u16) -> bool {
    exists|i: int| 0 <= i < parts.len() && parts[i].offset == offset
}

/// Whether a fragment shares bytes with one of the parts.
pub open spec fn overlaps_any(parts: Seq<Fragment>, fragment: Fragment) -> bool {
    exists|i: int|
        0 <= i < parts.len() && fragment.offset < (#[trigger] parts[i])@.end() && parts[i].offset
            < fragment@.end()
}

/// The position of an offset among parts ordered by offset.
pub open spec fn slot_of(parts: Seq<Fragment>, offset: u16) -> int
    decreases parts.len(),
{
    if parts.len() > 0 && parts.last().offset > offset {
        slot_of(parts.drop_last(), offset)
    } else {
        parts.len() as int
    }
}

/// The parts with one more, in the order of their offsets.
pub open spec fn with_part(parts: Seq<Fragment>, fragment: Fragment) -> Seq<Fragment> {
    parts.insert(slot_of(parts, fragment.offset), fragment)
}

/// The offset at which the part at a position must begin to leave no gap.
pub open spec fn expected_offset(parts: Seq<Fragment>, i: int) -> int {
    if i == 0 {
        0
    } else {
        parts[i - 1]@.end()
    }
}

/// Whether the part at a position begins where the one before it ends.
pub open spec fn chained(parts: Seq<Fragment>, i: int) -> bool {
    parts[i].offset == expected_offset(parts, i)
}

/// Whether the parts up to a position follow each other from offset zero
/// without a gap and the one at the position is the first that ends the packet.
pub open spec fn complete_at(parts: Seq<Fragment>, last: int) -> bool {
    &&& 0 <= last < parts.len()
    &&& parts[last].end_of_packet
    &&& forall|i: int| 0 <= i < last ==> !(#[trigger] parts[i]).end_of_packet
    &&& forall|i: int| 0 <= i <= last ==> #[trigger] chained(parts, i)
}

pub open spec fn complete(parts: Seq<Fragment>) -> bool {
    exists|last: int| complete_at(parts, last)
}

/// Whether some part begins at or behind the end of the complete packet.
pub open spec fn data_follows_end(parts: Seq<Fragment>) -> bool {
    exists|last: int, i: int|
        #![trigger complete_at(parts, last), parts[i]]
        complete_at(parts, last) && 0 <= i < parts.len() && parts[i].offset >= parts[last]@.end()
}

/// The groups after inserting a fragment, and what the insertion gives back.
pub open spec fn sr_step(before: Map<u32, SrGroupView>, fragment: Fragment, now: u64) -> (
    Map<u32, SrGroupView>,
    Result<Option<Seq<u8>>, Error>,
) {
    let live = live_groups(before, now);
    let id = fragment.id;
    let group = if live.contains_key(id) {
        live[id]
    } else {
        SrGroupView { created: now, parts: Seq::empty() }
    };
    let parts = with_part(group.parts, fragment);
    if fragment@.end() > MAX_REASSEMBLED_PACKET {
        (live, Err(Error::FragmentTooLarge))
    } else if has_offset(group.parts, fragment.offset) {
        (live, Ok(None))
    } else if !live.contains_key(id) && live.len() >= SR_MAX_GROUPS {
        (live, Err(Error::FragmentTooLarge))
    } else if total_bytes(live) + fragment.data@.len() > SR_MAX_BUFFERED_BYTES {
        (live, Err(Error::FragmentTooLarge))
    } else if overlaps_any(group.parts, fragment) {
        (live.remove(id), Err(Error::InvalidFragment("overlapping fragment offsets")))
    } else if !complete(parts) {
        (live.insert(id, SrGroupView { created: group.created, parts }), Ok(None))
    } else if data_follows_end(parts) {
        (live.remove(id), Err(Error::InvalidFragment("data follows the EOP fragment")))
    } else {
        (live.remove(id), Ok(Some(joined(parts))))
    }
}

/// Parts in strictly rising order, none sharing bytes with another, each
/// within the size limit and of the same packet.
pub open spec fn ordered(parts: Seq<Fragment>, id: u32) -> bool {
    &&& forall|i: int|
        0 <= i < parts.len() ==> (#[trigger] parts[i])@.end() <= MAX_REASSEMBLED_PACKET
            && parts[i].id == id
    &&& forall|i: int, j: int|
        0 <= i < j < parts.len() ==> (#[trigger] parts[i]).offset < (#[trigger] parts[j]).offset
            && parts[i]@.end() <= parts[j].offset
}

proof fn lemma_total_remove(groups: Map<u32, SrGroupView>, id: u32)
    requires
        groups.dom().finite(),
        groups.contains_key(id),
    ensures
        total_bytes(groups) == joined(groups[id].parts).len() + total_bytes(groups.remove(id)),
    decreases groups.len(),
{
    let other = groups.dom().choose();
    assert(groups.dom().contains(other));
    if other != id {
        lemma_total_remove(groups.remove(other), id);
        lemma_total_remove(groups.remove(id), other);
        assert(groups.remove(other).remove(id) =~= groups.remove(id).remove(other));
    }
}

proof fn lemma_total_insert(groups: Map<u32, SrGroupView>, id: u32, group: SrGroupView)
    requires
        groups.dom().finite(),
        !groups.contains_key(id),
    ensures
        total_bytes(groups.insert(id, group)) == total_bytes(groups) + joined(group.parts).len(),
{
    lemma_total_remove(groups.insert(id, group), id);
    assert(groups.insert(id, group).remove(id) =~= groups);
}

proof fn lemma_joined_insert(parts: Seq<Fragment>, i: int, fragment: Fragment)
    requires
        0 <= i <= parts.len(),
    ensures
        joined(parts.insert(i, fragment)).len() == joined(parts).len() + fragment.data@.len(),
    decreases parts.len(),
{
    let more = parts.insert(i, fragment);
    if i == parts.len() {
        assert(more.drop_last() =~= parts);
    } else {
        lemma_joined_insert(parts.drop_last(), i, fragment);
        assert(more.drop_last() =~= parts.drop_last().insert(i, fragment));
        assert(more.last() == parts.last());
    }
}

/// Parts without gaps join to as many bytes as the offset behind them.
proof fn lemma_joined_len(parts: Seq<Fragment>, n: int)
    requires
        0 <= n <= parts.len(),
        forall|i: int| 0 <= i < n ==> #[trigger] chained(parts, i),
    ensures
        joined(parts.take(n)).len() == expected_offset(parts, n),
    decreases n,
{
    if n > 0 {
        lemma_joined_len(parts, n - 1);
        assert(parts.take(n).drop_last() =~= parts.take(n - 1));
        assert(chained(parts, n - 1));
    }
}

proof fn lemma_slot(parts: Seq<Fragment>, offset: u16)
    ensures
        0 <= slot_of(parts, offset) <= parts.len(),
        forall|i: int|
            slot_of(parts, offset) <= i < parts.len() ==> (#[trigger] parts[i]).offset > offset,
        slot_of(parts, offset) > 0 ==> parts[slot_of(parts, offset) - 1].offset <= offset,
    decreases parts.len(),
{
    if parts.len() > 0 && parts.last().offset > offset {
        lemma_slot(parts.drop_last(), offset);
        assert forall|i: int| slot_of(parts, offset) <= i < parts.len() implies (
        #[trigger] parts[i]).offset > offset by {
            if i < parts.len() - 1 {
                assert(parts.drop_last()[i] == parts[i]);
            }
        }
    }
}

/// Adding a part that shares neither offset nor bytes keeps the order.
proof fn lemma_with_part_ordered(parts: Seq<Fragment>, fragment: Fragment)
    requires
        ordered(parts, fragment.id),
        fragment@.end() <= MAX_REASSEMBLED_PACKET,
        !has_offset(parts, fragment.offset),
        !overlaps_any(parts, fragment),
    ensures
        ordered(with_part(parts, fragment), fragment.id),
{
    lemma_slot(parts, fragment.offset);
    let slot = slot_of(parts, fragment.offset);
    let more = with_part(parts, fragment);
    assert forall|i: int| 0 <= i < more.len() implies (#[trigger] more[i])@.end()
        <= MAX_REASSEMBLED_PACKET && more[i].id == fragment.id by {
        if i < slot {
            assert(more[i] == parts[i]);
        } else if i > slot {
            assert(more[i] == parts[i - 1]);
        }
    }
    assert forall|i: int, j: int| 0 <= i < j < more.len() implies (#[trigger] more[i]).offset < (
    #[trigger] more[j]).offset && more[i]@.end() <= more[j].offset by {
        if j == slot {
            assert(more[i] == parts[i]);
            assert(parts[slot - 1].offset < fragment.offset);
            assert(parts[i].offset <= parts[slot - 1].offset);
            assert(!(fragment.offset < parts[i]@.end() && parts[i].offset < fragment@.end()));
        } else if i == slot {
            assert(more[j] == parts[j - 1]);
            assert(!(fragment.offset < parts[j - 1]@.end() && parts[j - 1].offset
                < fragment@.end()));
        } else {
            let i0 = if i < slot { i } else { i - 1 };
            let j0 = if j < slot { j } else { j - 1 };
            assert(more[i] == parts[i0] && more[j] == parts[j0]);
        }
    }
}

/// A group map with each group taken by its view.
pub open spec fn group_views(groups: Map<u32, SrFragmentGroup>) -> Map<u32, SrGroupView> {
    Map::new(|id: u32| groups.contains_key(id), |id: u32| groups[id]@)
}

impl View for SrFragmentReassembler {
    type V = Map<u32, SrGroupView>;

    closed spec fn view(&self) -> Map<u32, SrGroupView> {
        group_views(self.groups@)
    }
}

impl Default for SrFragmentReassembler {
    fn default() -> (queue: Self)
        ensures
            queue.wf(),
            queue@ == Map::<u32, SrGroupView>::empty(),
    {
        let queue = SrFragmentReassembler { groups: HashMap::new(), buffered_bytes: 0 };
        assert(queue@ =~= Map::<u32, SrGroupView>::empty());
        queue
    }
}

/// Whether a stored group keeps its parts in order and counts their bytes.
pub open spec fn group_wf(group: SrFragmentGroup, id: u32) -> bool {
    ordered(group.parts@, id) && group.buffered_bytes == joined(group.parts@).len()
}

fn any_at_offset(parts: &Vec<Fragment>, offset: u16) -> (found: bool)
    ensures
        found == has_offset(parts@, offset),
{
    let mut i: usize = 0;
    while i < parts.len()
        invariant
            i <= parts@.len(),
            forall|k: int| 0 <= k < i ==> (#[trigger] parts@[k]).offset != offset,
        decreases parts@.len() - i,
    {
        if parts[i].offset == offset {
            return true;
        }
        i += 1;
    }
    false
}

fn any_overlap(parts: &Vec<Fragment>, fragment: &Fragment, end: usize) -> (found: bool)
    requires
        ordered(parts@, fragment.id),
        end == fragment@.end(),
    ensures
        found == overlaps_any(parts@, *fragment),
{
    let mut i: usize = 0;
    while i < parts.len()
        invariant
            ordered(parts@, fragment.id),
            end == fragment@.end(),
            i <= parts@.len(),
            forall|k: int|
                0 <= k < i ==> !(fragment.offset < (#[trigger] parts@[k])@.end() && parts@[k].offset
                    < fragment@.end()),
        decreases parts@.len() - i,
    {
        assert(parts@[i as int]@.end() <= MAX_REASSEMBLED_PACKET);
        let start: usize = parts[i].offset as usize;
        let stop: usize = start + parts[i].data.len();
        if (fragment.offset as usize) < stop && start < end {
            return true;
        }
        i += 1;
    }
    false
}

fn slot_for(parts: &Vec<Fragment>, offset: u16) -> (slot: usize)
    ensures
        slot == slot_of(parts@, offset),
        slot <= parts@.len(),
{
    let mut slot: usize = parts.len();
    assert(parts@.take(slot as int) =~= parts@);
    while slot > 0 && parts[slot - 1].offset > offset
        invariant
            slot <= parts@.len(),
            slot_of(parts@.take(slot as int), offset) == slot_of(parts@, offset),
        decreases slot,
    {
        assert(parts@.take(slot as int).drop_last() =~= parts@.take(slot - 1));
        slot -= 1;
    }
    slot
}

/// The position of the part that completes the packet.
fn completion(parts: &Vec<Fragment>, Ghost(id): Ghost<u32>) -> (last: Option<usize>)
    requires
        ordered(parts@, id),
    ensures
        match last {
            Some(k) => complete_at(parts@, k as int),
            None => !complete(parts@),
        },
{
    let mut expected: usize = 0;
    let mut i: usize = 0;
    while i < parts.len()
        invariant
            ordered(parts@, id),
            i <= parts@.len(),
            expected == expected_offset(parts@, i as int),
            forall|k: int| 0 <= k < i ==> !(#[trigger] parts@[k]).end_of_packet,
            forall|k: int| 0 <= k < i ==> #[trigger] chained(parts@, k),
        decreases parts@.len() - i,
    {
        if parts[i].offset as usize != expected {
            assert(!chained(parts@, i as int));
            return None;
        }
        assert(chained(parts@, i as int));
        assert(parts@[i as int]@.end() <= MAX_REASSEMBLED_PACKET);
        if parts[i].end_of_packet {
            assert(complete_at(parts@, i as int));
            return Some(i);
        }
        expected = parts[i].offset as usize + parts[i].data.len();
        i += 1;
    }
    None
}

fn any_from(parts: &Vec<Fragment>, end: usize) -> (found: bool)
    ensures
        found == (exists|i: int| 0 <= i < parts@.len() && (#[trigger] parts@[i]).offset >= end),
{
    let mut i: usize = 0;
    while i < parts.len()
        invariant
            i <= parts@.len(),
            forall|k: int| 0 <= k < i ==> (#[trigger] parts@[k]).offset < end,
        decreases parts@.len() - i,
    {
        if parts[i].offset as usize >= end {
            return true;
        }
        i += 1;
    }
    false
}

fn join(parts: &Vec<Fragment>) -> (packet: Vec<u8>)
    ensures
        packet@ == joined(parts@),
{
    let mut packet: Vec<u8> = Vec::new();
    let mut i: usize = 0;
    while i < parts.len()
        invariant
            i <= parts@.len(),
            packet@ == joined(parts@.take(i as int)),
        decreases parts@.len() - i,
    {
        push_all(&mut packet, parts[i].data.as_slice());
        assert(parts@.take(i + 1).drop_last() =~= parts@.take(i as int));
        i += 1;
    }
    assert(parts@.take(i as int) =~= parts@);
    packet
}

impl SrFragmentReassembler {
    /// Every group is in order and counted, and the limits on groups and bytes hold.
    pub closed spec fn wf(&self) -> bool {
        &&& self@.dom().finite()
        &&& self@.len() <= SR_MAX_GROUPS
        &&& self.buffered_bytes == total_bytes(self@)
        &&& self.buffered_bytes <= SR_MAX_BUFFERED_BYTES
        &&& forall|id: u32| #[trigger]
            self.groups@.contains_key(id) ==> group_wf(self.groups@[id], id)
    }

    pub fn clear(&mut self)
        ensures
            final(self).wf(),
            final(self)@ == Map::<u32, SrGroupView>::empty(),
    {
        self.groups.clear();
        self.buffered_bytes = 0;
        assert(self@ =~= Map::<u32, SrGroupView>::empty());
    }

    pub fn pending_groups(&self) -> (count: usize)
        requires
            self.wf(),
        ensures
            count == self@.len(),
            count <= SR_MAX_GROUPS,
    {
        assert(self@.dom() =~= self.groups@.dom());
        self.groups.len()
    }

    pub fn buffered_bytes(&self) -> (count: usize)
        requires
            self.wf(),
        ensures
            count == total_bytes(self@),
            count <= self@.len() * MAX_REASSEMBLED_PACKET,
            count <= SR_MAX_GROUPS * MAX_REASSEMBLED_PACKET,
            self@.len() == 0 ==> count == 0,
    {
        proof {
            let groups = self@;
            assert forall|id: u32| #[trigger] groups.contains_key(id) implies joined(
                groups[id].parts,
            ).len() <= MAX_REASSEMBLED_PACKET by {
                assert(self.groups@.contains_key(id));
                assert(group_wf(self.groups@[id], id));
                lemma_joined_fits(groups[id].parts, id);
            }
            lemma_total_bound(groups);
        }
        self.buffered_bytes
    }

    pub fn purge_expired(&mut self, now: u64)
        requires
            old(self).wf(),
        ensures
            final(self).wf(),
            final(self)@ == live_groups(old(self)@, now),
    {
        let ghost before = self@;
        let ids = ids_of(&self.groups);
        let mut i: usize = 0;
        while i < ids.len()
            invariant
                self.wf(),
                i <= ids@.len(),
                live_groups(self@, now) == live_groups(before, now),
                forall|id: u32| #[trigger] self@.contains_key(id) ==> ids@.contains(id),
                forall|k: int|
                    0 <= k < i && self@.contains_key(#[trigger] ids@[k]) ==> !expired(
                        self@[ids@[k]].created,
                        now,
                        SR_TIMEOUT_NS,
                    ),
            decreases ids@.len() - i,
        {
            let id: u32 = ids[i];
            let over = match self.groups.get(&id) {
                Some(group) => has_expired(group.created, now, SR_TIMEOUT_NS),
                None => false,
            };
            if over {
                let ghost mid = self@;
                self.remove_group(id);
                assert(live_groups(self@, now) =~= live_groups(mid, now));
            }
            i += 1;
        }
        assert forall|id: u32| #[trigger] self@.contains_key(id) implies !expired(
            self@[id].created,
            now,
            SR_TIMEOUT_NS,
        ) by {
            let k = choose|k: int| 0 <= k < ids@.len() && ids@[k] == id;
            assert(self@.contains_key(ids@[k]));
        }
        assert(live_groups(self@, now) =~= self@);
    }

    /// Drops a group with its bytes.
    fn remove_group(&mut self, id: u32)
        requires
            old(self).wf(),
        ensures
            final(self).wf(),
            final(self)@ == old(self)@.remove(id),
    {
        let ghost before = self@;
        match self.groups.remove(&id) {
            Some(group) => {
                proof {
                    assert(self@ =~= before.remove(id));
                    assert(before.contains_key(id));
                    lemma_total_remove(before, id);
                    assert(group_wf(group, id));
                    assert(self@.dom() =~= before.dom().remove(id));
                }
                self.buffered_bytes = self.buffered_bytes - group.buffered_bytes;
            },
            None => {
                assert(self@ =~= before);
                assert(self@ =~= before.remove(id));
            },
        }
    }

    /// Adds a fragment and gives the packet back when all its parts are there.
    pub fn insert(&mut self, fragment: Fragment, now: u64) -> (result: Result<
        Option<Vec<u8>>,
        Error,
    >)
        requires
            old(self).wf(),
        ensures
            final(self).wf(),
            (final(self)@, packet_view(result)) == sr_step(old(self)@, fragment, now),
    {
        self.purge_expired(now);
        let ghost live = self@;
        let end: usize = match fragment.end_offset() {
            Ok(end) => end,
            Err(error) => {
                return Err(error);
            },
        };
        if end > MAX_REASSEMBLED_PACKET {
            return Err(Error::FragmentTooLarge);
        }
        let id: u32 = fragment.id;
        let length: usize = fragment.data.len();
        assert(self@.dom() =~= self.groups@.dom());
        match self.groups.get(&id) {
            Some(group) => {
                if any_at_offset(&group.parts, fragment.offset) {
                    return Ok(None);
                }
            },
            None => {
                if self.groups.len() >= SR_MAX_GROUPS {
                    return Err(Error::FragmentTooLarge);
                }
            },
        }
        if self.buffered_bytes + length > SR_MAX_BUFFERED_BYTES {
            return Err(Error::FragmentTooLarge);
        }
        let mut group = match self.groups.remove(&id) {
            Some(group) => group,
            None => SrFragmentGroup { created: now, parts: Vec::new(), buffered_bytes: 0 },
        };
        let ghost rest = self@;
        let ghost earlier = group@;
        proof {
            if live.contains_key(id) {
                lemma_total_remove(live, id);
                assert(rest =~= live.remove(id));
                assert(rest.dom() =~= live.dom().remove(id));
            } else {
                assert(rest =~= live.remove(id));
                assert(rest =~= live);
            }
            assert(group_wf(group, id));
        }
        if any_overlap(&group.parts, &fragment, end) {
            self.buffered_bytes = self.buffered_bytes - group.buffered_bytes;
            return Err(Error::InvalidFragment("overlapping fragment offsets"));
        }
        let at: usize = slot_for(&group.parts, fragment.offset);
        proof {
            lemma_with_part_ordered(group.parts@, fragment);
            lemma_joined_insert(group.parts@, at as int, fragment);
        }
        group.parts.insert(at, fragment);
        self.buffered_bytes = self.buffered_bytes - group.buffered_bytes;
        group.buffered_bytes = group.buffered_bytes + length;
        let ghost parts = group.parts@;
        match completion(&group.parts, Ghost(id)) {
            None => {
                proof {
                    lemma_total_insert(rest, id, group@);
                }
                let ghost stored = group;
                self.buffered_bytes = self.buffered_bytes + group.buffered_bytes;
                let _ = self.groups.insert(id, group);
                proof {
                    assert(self@ =~= rest.insert(id, stored@));
                    assert(self@ =~= live.insert(id, stored@));
                    assert(self@.dom() =~= rest.dom().insert(id));
                }
                Ok(None)
            },
            Some(last) => {
                assert(parts[last as int]@.end() <= MAX_REASSEMBLED_PACKET);
                let total: usize = group.parts[last].offset as usize + group.parts[last].data.len();
                proof {
                    assert forall|k: int| complete_at(parts, k) implies k == last by {
                        if k < last {
                            assert(!parts[k].end_of_packet);
                        } else if k > last {
                            assert(!parts[last as int].end_of_packet);
                        }
                    }
                }
                if any_from(&group.parts, total) {
                    assert(data_follows_end(parts));
                    return Err(Error::InvalidFragment("data follows the EOP fragment"));
                }
                assert(!data_follows_end(parts));
                Ok(Some(join(&group.parts)))
            },
        }
    }
}

/// Parts in order join to no more bytes than the end of the last of them.
proof fn lemma_joined_fits(parts: Seq<Fragment>, id: u32)
    requires
        ordered(parts, id),
    ensures
        joined(parts).len() <= MAX_REASSEMBLED_PACKET,
        parts.len() > 0 ==> joined(parts).len() <= parts.last()@.end(),
    decreases parts.len(),
{
    if parts.len() > 0 {
        let head = parts.drop_last();
        assert(ordered(head, id)) by {
            assert forall|i: int, j: int| 0 <= i < j < head.len() implies (
            #[trigger] head[i]).offset < (#[trigger] head[j]).offset && head[i]@.end()
                <= head[j].offset by {
                assert(head[i] == parts[i] && head[j] == parts[j]);
            }
        }
        lemma_joined_fits(head, id);
        if head.len() > 0 {
            assert(head.last() == parts[parts.len() - 2]);
            assert(parts[parts.len() - 2]@.end() <= parts[parts.len() - 1].offset);
        }
    }
}

/// Groups of which none holds more than a packet hold no more than as many packets.
proof fn lemma_total_bound(groups: Map<u32, SrGroupView>)
    requires
        groups.dom().finite(),
        forall|id: u32| #[trigger]
            groups.contains_key(id) ==> joined(groups[id].parts).len() <= MAX_REASSEMBLED_PACKET,
    ensures
        total_bytes(groups) <= groups.len() * MAX_REASSEMBLED_PACKET,
    decreases groups.len(),
{
    if groups.len() > 0 {
        let id = groups.dom().choose();
        assert(groups.contains_key(id));
        let rest = groups.remove(id);
        assert forall|other: u32| #[trigger] rest.contains_key(other) implies joined(
            rest[other].parts,
        ).len() <= MAX_REASSEMBLED_PACKET by {
            assert(groups.contains_key(other));
        }
        lemma_total_bound(rest);
    }
}

/// What a complete group gives back is as long as its last part's end, and
/// holds every part's payload at that part's offset.
pub proof fn law_packet_places_parts(parts: Seq<Fragment>, id: u32, i: int)
    requires
        ordered(parts, id),
        complete(parts),
        !data_follows_end(parts),
        0 <= i < parts.len(),
    ensures
        joined(parts).len() == parts.last()@.end(),
        joined(parts).subrange(parts[i].offset as int, parts[i]@.end()) == parts[i].data@,
{
    let last = choose|last: int| complete_at(parts, last);
    assert(last == parts.len() - 1) by {
        if last < parts.len() - 1 {
            assert(parts[last]@.end() <= parts[last + 1].offset);
        }
    }
    assert(parts.take(parts.len() as int) =~= parts);
    lemma_joined_len(parts, parts.len() as int);
    lemma_joined_place(parts, parts.len() as int, i);
}

proof fn lemma_joined_place(parts: Seq<Fragment>, n: int, i: int)
    requires
        0 <= i < n <= parts.len(),
        forall|k: int| 0 <= k < n ==> #[trigger] chained(parts, k),
    ensures
        joined(parts.take(n)).len() >= parts[i]@.end(),
        joined(parts.take(n)).subrange(parts[i].offset as int, parts[i]@.end()) == parts[i].data@,
    decreases n,
{
    lemma_joined_len(parts, n - 1);
    lemma_joined_len(parts, n);
    assert(parts.take(n).drop_last() =~= parts.take(n - 1));
    let head = joined(parts.take(n - 1));
    assert(chained(parts, n - 1));
    if i == n - 1 {
        assert((head + parts[i].data@).subrange(head.len() as int, (head.len() + parts[i].data@.len()) as int)
            =~= parts[i].data@);
    } else {
        lemma_joined_place(parts, n - 1, i);
        assert((head + parts[n - 1].data@).subrange(parts[i].offset as int, parts[i]@.end())
            =~= head.subrange(parts[i].offset as int, parts[i]@.end()));
    }
}

proof fn lemma_total_restrict(groups: Map<u32, SrGroupView>, keys: Set<u32>)
    requires
        groups.dom().finite(),
    ensures
        groups.restrict(keys).dom().finite(),
        total_bytes(groups.restrict(keys)) <= total_bytes(groups),
    decreases groups.len(),
{
    let kept = groups.restrict(keys);
    assert(kept.dom() =~= groups.dom().intersect(keys));
    if groups.len() > 0 {
        let id = groups.dom().choose();
        assert(groups.dom().contains(id));
        lemma_total_restrict(groups.remove(id), keys);
        if keys.contains(id) {
            assert(groups.remove(id).restrict(keys) =~= kept.remove(id));
            lemma_total_remove(kept, id);
        } else {
            assert(groups.remove(id).restrict(keys) =~= kept);
        }
    } else {
        assert(kept =~= groups);
    }
}

/// Whether a packet makes two parts of at most a payload size, and not fewer.
pub open spec fn splits_in_two(packet: Seq<u8>, payload_mtu: int) -> bool {
    0 < payload_mtu <= MAX_FRAGMENT_LENGTH && payload_mtu < packet.len() <= 2 * payload_mtu
}

/// The part of a packet before the split.
pub open spec fn head_part(packet: Seq<u8>, payload_mtu: int, id: u32) -> FragmentView {
    FragmentView {
        id,
        end_of_packet: false,
        from_in: false,
        offset: 0,
        data: packet.take(payload_mtu),
    }
}

/// The part of a packet behind the split.
pub open spec fn tail_part(packet: Seq<u8>, payload_mtu: int, id: u32) -> FragmentView {
    FragmentView {
        id,
        end_of_packet: true,
        from_in: false,
        offset: payload_mtu as u16,
        data: packet.skip(payload_mtu),
    }
}

/// Splits a segment-routing payload into its pair of fragments.
pub fn fragment_sr_packet(packet: &[u8], payload_mtu: usize, id: u32) -> (result: Result<
    [Fragment; 2],
    Error,
>)
    ensures
        match result {
            Ok(parts) => splits_in_two(packet@, payload_mtu as int) && parts@[0]@ == head_part(
                packet@,
                payload_mtu as int,
                id,
            ) && parts@[1]@ == tail_part(packet@, payload_mtu as int, id),
            Err(error) => !splits_in_two(packet@, payload_mtu as int) && error
                == Error::FragmentTooLarge,
        },
{
    if payload_mtu == 0 || payload_mtu > MAX_FRAGMENT_LENGTH as usize || packet.len() <= payload_mtu
        || packet.len() > payload_mtu * 2 || packet.len() > MAX_REASSEMBLED_PACKET {
        return Err(Error::FragmentTooLarge);
    }
    let head = Fragment {
        id,
        end_of_packet: false,
        from_in: false,
        offset: 0,
        data: slice_to_vec(slice_subrange(packet, 0, payload_mtu)),
    };
    let tail = Fragment {
        id,
        end_of_packet: true,
        from_in: false,
        offset: payload_mtu as u16,
        data: slice_to_vec(slice_subrange(packet, payload_mtu, packet.len())),
    };
    assert(head@ =~= head_part(packet@, payload_mtu as int, id));
    assert(tail@ =~= tail_part(packet@, payload_mtu as int, id));
    Ok([head, tail])
}

/// Both parts of a split packet can be encoded.
pub proof fn law_split_parts_encode(packet: Seq<u8>, payload_mtu: int, id: u32)
    requires
        splits_in_two(packet, payload_mtu),
    ensures
        head_part(packet, payload_mtu, id).encode_error() is None,
        tail_part(packet, payload_mtu, id).encode_error() is None,
{
}

/// A split packet comes back whole, whichever of its parts arrives first, where
/// its identifier is free and there is room, and the table is as before.
pub proof fn law_split_packet_reassembles(
    before: Map<u32, SrGroupView>,
    packet: Seq<u8>,
    payload_mtu: int,
    first: Fragment,
    second: Fragment,
    at: u64,
    later: u64,
)
    requires
        splits_in_two(packet, payload_mtu),
        ({
            let id = first.id;
            ||| first@ == head_part(packet, payload_mtu, id) && second@ == tail_part(
                packet,
                payload_mtu,
                id,
            )
            ||| first@ == tail_part(packet, payload_mtu, id) && second@ == head_part(
                packet,
                payload_mtu,
                id,
            )
        }),
        before.dom().finite(),
        !live_groups(before, at).contains_key(first.id),
        live_groups(before, at).len() < SR_MAX_GROUPS,
        total_bytes(before) + packet.len() <= SR_MAX_BUFFERED_BYTES,
        at <= later <= at + SR_TIMEOUT_NS,
    ensures
        sr_step(before, first, at).1 == Ok::<Option<Seq<u8>>, Error>(None),
        sr_step(sr_step(before, first, at).0, second, later) == (
            live_groups(before, later).remove(first.id),
            Ok::<Option<Seq<u8>>, Error>(Some(packet)),
        ),
{
    let id = first.id;
    let live = live_groups(before, at);
    lemma_total_restrict(
        before,
        Set::new(|id: u32| !expired(before[id].created, at, SR_TIMEOUT_NS)),
    );
    let none = Seq::<Fragment>::empty();
    let alone = with_part(none, first);
    assert(alone =~= seq![first]);
    assert(!complete(alone)) by {
        if complete(alone) {
            let last = choose|last: int| complete_at(alone, last);
            assert(last == 0);
            assert(chained(alone, 0));
        }
    }
    let between = live.insert(id, SrGroupView { created: at, parts: alone });
    assert(sr_step(before, first, at) == (between, Ok::<Option<Seq<u8>>, Error>(None)));
    lemma_total_insert(live, id, SrGroupView { created: at, parts: alone });
    assert(joined(alone) =~= first.data@) by {
        assert(alone.drop_last() =~= none);
        assert(joined(none) =~= Seq::<u8>::empty());
    }
    lemma_total_restrict(
        between,
        Set::new(|id: u32| !expired(between[id].created, later, SR_TIMEOUT_NS)),
    );
    let still = live_groups(between, later);
    assert(still.contains_key(id) && still[id].parts == alone);
    assert(!has_offset(alone, second.offset));
    assert(!overlaps_any(alone, second));
    let parts = with_part(alone, second);
    let head = if first.end_of_packet {
        second
    } else {
        first
    };
    let tail = if first.end_of_packet {
        first
    } else {
        second
    };
    assert(alone.drop_last() =~= none);
    reveal_with_fuel(slot_of, 2);
    assert(parts =~= seq![head, tail]);
    assert(chained(parts, 0) && chained(parts, 1));
    assert(complete_at(parts, 1));
    assert(!data_follows_end(parts)) by {
        if data_follows_end(parts) {
            let (last, i) = choose|last: int, i: int|
                #![trigger complete_at(parts, last), parts[i]]
                complete_at(parts, last) && 0 <= i < parts.len() && parts[i].offset
                    >= parts[last]@.end();
            assert(parts[0] == head && parts[1] == tail);
            assert(last == 1);
        }
    }
    assert(parts.drop_last() =~= seq![head]);
    assert(seq![head].drop_last() =~= none);
    reveal_with_fuel(joined, 3);
    assert(joined(parts) =~= packet);
    assert(still.remove(id) =~= live_groups(before, later).remove(id));
}

/// Whether fragments are the consecutive, non-empty pieces of a packet, in order,
/// of which the last one alone ends it.
pub open spec fn cut_into(packet: Seq<u8>, id: u32, pieces: Seq<Fragment>) -> bool {
    &&& pieces.len() > 0
    &&& pieces.last()@.end() == packet.len()
    &&& forall|i: int| 0 <= i < pieces.len() ==> #[trigger] chained(pieces, i)
    &&& forall|i: int|
        0 <= i < pieces.len() ==> {
            &&& (#[trigger] pieces[i]).id == id
            &&& pieces[i].data@.len() > 0
            &&& pieces[i]@.end() <= packet.len()
            &&& pieces[i].data@ == packet.subrange(pieces[i].offset as int, pieces[i]@.end())
            &&& pieces[i].end_of_packet == (i == pieces.len() - 1)
        }
}

/// Whether numbers put the positions below a count in some order, each once.
pub open spec fn is_order(order: Seq<int>, count: nat) -> bool {
    &&& order.len() == count
    &&& order.no_duplicates()
    &&& forall|k: int| 0 <= k < order.len() ==> 0 <= #[trigger] order[k] < count
}

/// The groups after the first so many pieces were inserted, in an order and at times.
pub open spec fn groups_after(
    before: Map<u32, SrGroupView>,
    pieces: Seq<Fragment>,
    order: Seq<int>,
    times: Seq<u64>,
    count: nat,
) -> Map<u32, SrGroupView>
    decreases count,
{
    if count == 0 {
        before
    } else {
        let last = (count - 1) as nat;
        sr_step(
            groups_after(before, pieces, order, times, last),
            pieces[order[last as int]],
            times[last as int],
        ).0
    }
}

/// Whether a part is the piece that arrived at a turn.
spec fn is_arrival(part: Fragment, pieces: Seq<Fragment>, order: Seq<int>, turn: int) -> bool {
    part == pieces[order[turn]]
}

/// Whether a part is one of the pieces that arrived first.
spec fn has_arrived(part: Fragment, pieces: Seq<Fragment>, order: Seq<int>, count: int) -> bool {
    exists|m: int| 0 <= m < count && #[trigger] is_arrival(part, pieces, order, m)
}

/// Whether every part is one of the pieces that arrived first.
spec fn arrived(parts: Seq<Fragment>, pieces: Seq<Fragment>, order: Seq<int>, count: int) -> bool {
    forall|i: int|
        0 <= i < parts.len() ==> has_arrived(#[trigger] parts[i], pieces, order, count)
}

/// Pieces of a packet lie behind one another.
proof fn lemma_pieces_apart(packet: Seq<u8>, id: u32, pieces: Seq<Fragment>, i: int, j: int)
    requires
        cut_into(packet, id, pieces),
        0 <= i < j < pieces.len(),
    ensures
        pieces[i].offset < pieces[i]@.end() <= pieces[j].offset,
    decreases j - i,
{
    assert(chained(pieces, j));
    assert(pieces[i].data@.len() > 0);
    if i + 1 < j {
        lemma_pieces_apart(packet, id, pieces, i, j - 1);
        assert(pieces[j - 1].data@.len() > 0);
    }
}

/// Pieces join to the packet.
proof fn lemma_pieces_join(packet: Seq<u8>, id: u32, pieces: Seq<Fragment>, count: int)
    requires
        cut_into(packet, id, pieces),
        0 <= count <= pieces.len(),
    ensures
        0 <= expected_offset(pieces, count) <= packet.len(),
        joined(pieces.take(count)) == packet.take(expected_offset(pieces, count)),
    decreases count,
{
    if count == 0 {
        assert(pieces.take(0) =~= Seq::<Fragment>::empty());
        assert(packet.take(0) =~= Seq::<u8>::empty());
    } else {
        lemma_pieces_join(packet, id, pieces, count - 1);
        let head = pieces.take(count);
        assert(head.drop_last() =~= pieces.take(count - 1));
        assert(head.last() == pieces[count - 1]);
        assert(chained(pieces, count - 1));
        assert(packet.take(expected_offset(pieces, count - 1)) + pieces[count - 1].data@
            =~= packet.take(expected_offset(pieces, count)));
    }
}

/// A part that begins where a piece does is that piece.
proof fn lemma_same_offset(packet: Seq<u8>, id: u32, pieces: Seq<Fragment>, i: int, j: int)
    requires
        cut_into(packet, id, pieces),
        0 <= i < pieces.len(),
        0 <= j < pieces.len(),
        pieces[i].offset == pieces[j].offset,
    ensures
        i == j,
{
    if i < j {
        lemma_pieces_apart(packet, id, pieces, i, j);
    } else if j < i {
        lemma_pieces_apart(packet, id, pieces, j, i);
    }
}

/// Parts without a gap from offset zero on are the first pieces.
proof fn lemma_chain_is_prefix(
    packet: Seq<u8>,
    id: u32,
    pieces: Seq<Fragment>,
    order: Seq<int>,
    parts: Seq<Fragment>,
    last: int,
    i: int,
)
    requires
        cut_into(packet, id, pieces),
        is_order(order, pieces.len()),
        arrived(parts, pieces, order, order.len() as int),
        complete_at(parts, last),
        0 <= i <= last,
    ensures
        i < pieces.len(),
        parts[i] == pieces[i],
    decreases i,
{
    assert(chained(parts, i));
    let m = choose|m: int|
            0 <= m < order.len() && #[trigger] is_arrival(parts[i], pieces, order, m);
    let j = order[m];
    if i == 0 {
        assert(chained(pieces, 0));
        lemma_same_offset(packet, id, pieces, 0, j);
    } else {
        lemma_chain_is_prefix(packet, id, pieces, order, parts, last, i - 1);
        assert(!parts[i - 1].end_of_packet);
        assert(i < pieces.len());
        assert(chained(pieces, i));
        lemma_same_offset(packet, id, pieces, i, j);
    }
}

/// As many parts as there are pieces, in order, are the pieces.
proof fn lemma_all_arrived(
    packet: Seq<u8>,
    id: u32,
    pieces: Seq<Fragment>,
    order: Seq<int>,
    parts: Seq<Fragment>,
)
    requires
        cut_into(packet, id, pieces),
        is_order(order, pieces.len()),
        ordered(parts, id),
        arrived(parts, pieces, order, order.len() as int),
        parts.len() == pieces.len(),
    ensures
        parts == pieces,
{
    assert forall|i: int| 0 <= i < parts.len() implies parts[i] == pieces[i] by {
        lemma_not_before(packet, id, pieces, order, parts, i);
        lemma_not_behind(packet, id, pieces, order, parts, i);
        let m = choose|m: int|
            0 <= m < order.len() && #[trigger] is_arrival(parts[i], pieces, order, m);
        lemma_same_offset(packet, id, pieces, i, order[m]);
    }
    assert(parts =~= pieces);
}

proof fn lemma_not_before(
    packet: Seq<u8>,
    id: u32,
    pieces: Seq<Fragment>,
    order: Seq<int>,
    parts: Seq<Fragment>,
    i: int,
)
    requires
        cut_into(packet, id, pieces),
        is_order(order, pieces.len()),
        ordered(parts, id),
        arrived(parts, pieces, order, order.len() as int),
        parts.len() == pieces.len(),
        0 <= i < parts.len(),
    ensures
        parts[i].offset >= pieces[i].offset,
    decreases i,
{
    if i > 0 {
        lemma_not_before(packet, id, pieces, order, parts, i - 1);
        assert(parts[i - 1].offset < parts[i].offset);
        let m = choose|m: int|
            0 <= m < order.len() && #[trigger] is_arrival(parts[i], pieces, order, m);
        let j = order[m];
        if j < i {
            if j < i - 1 {
                lemma_pieces_apart(packet, id, pieces, j, i - 1);
            }
        } else if i < j {
            lemma_pieces_apart(packet, id, pieces, i, j);
        }
    } else {
        assert(chained(pieces, 0));
    }
}

proof fn lemma_not_behind(
    packet: Seq<u8>,
    id: u32,
    pieces: Seq<Fragment>,
    order: Seq<int>,
    parts: Seq<Fragment>,
    i: int,
)
    requires
        cut_into(packet, id, pieces),
        is_order(order, pieces.len()),
        ordered(parts, id),
        arrived(parts, pieces, order, order.len() as int),
        parts.len() == pieces.len(),
        0 <= i < parts.len(),
    ensures
        parts[i].offset <= pieces[i].offset,
    decreases parts.len() - i,
{
    let m = choose|m: int|
            0 <= m < order.len() && #[trigger] is_arrival(parts[i], pieces, order, m);
    let j = order[m];
    if i + 1 < parts.len() {
        lemma_not_behind(packet, id, pieces, order, parts, i + 1);
        assert(parts[i].offset < parts[i + 1].offset);
        if j > i + 1 {
            lemma_pieces_apart(packet, id, pieces, i + 1, j);
        } else if j < i {
            lemma_pieces_apart(packet, id, pieces, j, i);
        }
    } else if j < i {
        lemma_pieces_apart(packet, id, pieces, j, i);
    }
}

/// What one more piece does to the parts that arrived: it shares nothing with
/// them and takes its place among them.
proof fn lemma_piece_arrives(
    packet: Seq<u8>,
    id: u32,
    pieces: Seq<Fragment>,
    order: Seq<int>,
    parts: Seq<Fragment>,
    count: int,
)
    requires
        cut_into(packet, id, pieces),
        packet.len() <= MAX_REASSEMBLED_PACKET,
        is_order(order, pieces.len()),
        0 <= count < order.len(),
        parts.len() == count,
        ordered(parts, id),
        arrived(parts, pieces, order, count),
    ensures
        ({
            let piece = pieces[order[count]];
            let more = with_part(parts, piece);
            &&& !has_offset(parts, piece.offset)
            &&& !overlaps_any(parts, piece)
            &&& more.len() == count + 1
            &&& ordered(more, id)
            &&& arrived(more, pieces, order, count + 1)
        }),
{
    let piece = pieces[order[count]];
    let more = with_part(parts, piece);
    let slot = slot_of(parts, piece.offset);
    lemma_slot(parts, piece.offset);
    assert forall|i: int| 0 <= i < parts.len() implies (#[trigger] parts[i]).offset != piece.offset
        && !(piece.offset < parts[i]@.end() && parts[i].offset < piece@.end()) by {
        let m = choose|m: int|
            0 <= m < count && #[trigger] is_arrival(parts[i], pieces, order, m);
        let j = order[m];
        assert(j != order[count]);
        if j < order[count] {
            lemma_pieces_apart(packet, id, pieces, j, order[count]);
        } else {
            lemma_pieces_apart(packet, id, pieces, order[count], j);
        }
    }
    assert(piece.id == id);
    lemma_with_part_ordered(parts, piece);
    assert forall|i: int| 0 <= i < more.len() implies has_arrived(
        #[trigger] more[i],
        pieces,
        order,
        count + 1,
    ) by {
        if i == slot {
            assert(is_arrival(more[i], pieces, order, count));
        } else {
            let k = if i < slot {
                i
            } else {
                i - 1
            };
            assert(more[i] == parts[k]);
            let m = choose|m: int|
            0 <= m < count && #[trigger] is_arrival(parts[k], pieces, order, m);
            assert(is_arrival(more[i], pieces, order, m));
        }
    }
}

/// While pieces are outstanding, the group waits with the parts that arrived.
proof fn lemma_pieces_wait(
    packet: Seq<u8>,
    id: u32,
    pieces: Seq<Fragment>,
    order: Seq<int>,
    times: Seq<u64>,
    count: nat,
) -> (parts: Seq<Fragment>)
    requires
        cut_into(packet, id, pieces),
        packet.len() <= MAX_REASSEMBLED_PACKET,
        is_order(order, pieces.len()),
        times.len() == order.len(),
        forall|k: int| 0 <= k < times.len() ==> #[trigger] times[k] <= times[0] + SR_TIMEOUT_NS,
        count < order.len(),
    ensures
        parts.len() == count,
        ordered(parts, id),
        arrived(parts, pieces, order, count as int),
        ({
            let groups = groups_after(Map::empty(), pieces, order, times, count);
            if count == 0 {
                groups == Map::<u32, SrGroupView>::empty()
            } else {
                groups == Map::<u32, SrGroupView>::empty().insert(
                    id,
                    SrGroupView { created: times[0], parts },
                )
            }
        }),
        forall|k: int|
            0 <= k < count ==> sr_step(
                #[trigger] groups_after(Map::empty(), pieces, order, times, k as nat),
                pieces[order[k]],
                times[k],
            ).1 == Ok::<Option<Seq<u8>>, Error>(None),
    decreases count,
{
    if count == 0 {
        Seq::empty()
    } else {
        let last = (count - 1) as nat;
        let earlier = lemma_pieces_wait(packet, id, pieces, order, times, last);
        lemma_piece_arrives(packet, id, pieces, order, earlier, last as int);
        let piece = pieces[order[last as int]];
        let more = with_part(earlier, piece);
        let before = groups_after(Map::empty(), pieces, order, times, last);
        assert(!complete(more)) by {
            if complete(more) {
                let end = choose|end: int| complete_at(more, end);
                lemma_arrived_grows(more, pieces, order, count as int);
                lemma_chain_is_prefix(packet, id, pieces, order, more, end, end);
                assert(pieces[end].end_of_packet);
            }
        }
        lemma_one_step(before, earlier, id, piece, times, last);
        assert(sr_step(before, piece, times[last as int]) == (
            Map::<u32, SrGroupView>::empty().insert(
                id,
                SrGroupView { created: times[0], parts: more },
            ),
            Ok::<Option<Seq<u8>>, Error>(None),
        ));
        more
    }
}

proof fn lemma_arrived_grows(
    parts: Seq<Fragment>,
    pieces: Seq<Fragment>,
    order: Seq<int>,
    count: int,
)
    requires
        count <= order.len(),
        arrived(parts, pieces, order, count),
    ensures
        arrived(parts, pieces, order, order.len() as int),
{
    assert forall|i: int| 0 <= i < parts.len() implies has_arrived(
        #[trigger] parts[i],
        pieces,
        order,
        order.len() as int,
    ) by {
        let m = choose|m: int|
            0 <= m < count && #[trigger] is_arrival(parts[i], pieces, order, m);
        assert(is_arrival(parts[i], pieces, order, m));
    }
}

/// Inserting a piece where at most its own group waits: nothing stands in its way.
proof fn lemma_one_step(
    before: Map<u32, SrGroupView>,
    parts: Seq<Fragment>,
    id: u32,
    piece: Fragment,
    times: Seq<u64>,
    count: nat,
)
    requires
        count < times.len(),
        times[count as int] <= times[0] + SR_TIMEOUT_NS,
        parts.len() == count,
        ordered(parts, id),
        if count == 0 {
            before == Map::<u32, SrGroupView>::empty()
        } else {
            before == Map::<u32, SrGroupView>::empty().insert(
                id,
                SrGroupView { created: times[0], parts },
            )
        },
        piece.id == id,
        piece@.end() <= MAX_REASSEMBLED_PACKET,
        !has_offset(parts, piece.offset),
        !overlaps_any(parts, piece),
    ensures
        ({
            let more = with_part(parts, piece);
            let none = Map::<u32, SrGroupView>::empty();
            sr_step(before, piece, times[count as int]) == if !complete(more) {
                (
                    none.insert(id, SrGroupView { created: times[0], parts: more }),
                    Ok::<Option<Seq<u8>>, Error>(None),
                )
            } else if data_follows_end(more) {
                (none, Err(Error::InvalidFragment("data follows the EOP fragment")))
            } else {
                (none, Ok(Some(joined(more))))
            }
        }),
{
    let now = times[count as int];
    let none = Map::<u32, SrGroupView>::empty();
    let live = live_groups(before, now);
    assert(live =~= before);
    lemma_joined_fits(parts, id);
    if count == 0 {
        assert(parts =~= Seq::<Fragment>::empty());
        assert(total_bytes(live) == 0);
        assert(live.remove(id) =~= none);
    } else {
        lemma_total_insert(none, id, SrGroupView { created: times[0], parts });
        assert(total_bytes(none) == 0);
        assert(live.remove(id) =~= none);
        assert(live.insert(id, SrGroupView { created: times[0], parts: with_part(parts, piece) })
            =~= none.insert(id, SrGroupView { created: times[0], parts: with_part(parts, piece) }));
    }
}

/// A packet that is cut into any number of consecutive, non-empty pieces comes
/// back whole, in whatever order they are inserted into an empty reassembler, all
/// of them in time: each piece but the last to arrive is kept, that one gives the
/// packet, and nothing is left waiting.
pub proof fn law_pieces_reassemble_in_any_order(
    packet: Seq<u8>,
    id: u32,
    pieces: Seq<Fragment>,
    order: Seq<int>,
    times: Seq<u64>,
    k: int,
)
    requires
        cut_into(packet, id, pieces),
        packet.len() <= MAX_REASSEMBLED_PACKET,
        is_order(order, pieces.len()),
        times.len() == order.len(),
        forall|j: int| 0 <= j < times.len() ==> #[trigger] times[j] <= times[0] + SR_TIMEOUT_NS,
        0 <= k < order.len(),
    ensures
        ({
            let before = groups_after(Map::empty(), pieces, order, times, k as nat);
            let (after, given) = sr_step(before, pieces[order[k]], times[k]);
            if k < order.len() - 1 {
                given == Ok::<Option<Seq<u8>>, Error>(None)
            } else {
                given == Ok::<Option<Seq<u8>>, Error>(Some(packet)) && after == Map::<
                    u32,
                    SrGroupView,
                >::empty()
            }
        }),
{
    let last = (order.len() - 1) as nat;
    let parts = lemma_pieces_wait(packet, id, pieces, order, times, last);
    let before = groups_after(Map::empty(), pieces, order, times, k as nat);
    if k == last {
        let piece = pieces[order[k]];
        lemma_piece_arrives(packet, id, pieces, order, parts, k);
        let more = with_part(parts, piece);
        lemma_all_arrived(packet, id, pieces, order, more);
        assert(complete_at(pieces, last as int));
        assert(!data_follows_end(pieces)) by {
            if data_follows_end(pieces) {
                let (end, i) = choose|end: int, i: int|
                    #![trigger complete_at(pieces, end), pieces[i]]
                    complete_at(pieces, end) && 0 <= i < pieces.len() && pieces[i].offset
                        >= pieces[end]@.end();
                assert(end == last) by {
                    assert(pieces[end].end_of_packet);
                }
                assert(pieces[i].data@.len() > 0 && pieces[i]@.end() <= packet.len());
            }
        }
        lemma_pieces_join(packet, id, pieces, pieces.len() as int);
        assert(pieces.take(pieces.len() as int) =~= pieces);
        assert(packet.take(packet.len() as int) =~= packet);
        lemma_one_step(before, parts, id, piece, times, last);
    }
}

/// The length that an inner IP packet declares, or why it declares none.
pub open spec fn declared_length(packet: Seq<u8>) -> Result<int, Error> {
    if packet.len() == 0 {
        Err(Error::InvalidFragment("empty inner IP packet"))
    } else if packet[0] / 16 == 4 {
        if packet.len() < 20 {
            Err(Error::InvalidFragment("truncated IPv4 header"))
        } else {
            Ok(be16_value(packet[2], packet[3]))
        }
    } else if packet[0] / 16 == 6 {
        if packet.len() < 40 {
            Err(Error::InvalidFragment("truncated IPv6 header"))
        } else {
            Ok(40 + be16_value(packet[4], packet[5]))
        }
    } else {
        Err(Error::InvalidFragment("unknown inner IP version"))
    }
}

/// A packet cut to the length that it declares, or why it cannot be.
pub open spec fn trimmed(packet: Seq<u8>) -> Result<Seq<u8>, Error> {
    match declared_length(packet) {
        Ok(length) => if length == 0 || length > packet.len() {
            Err(Error::InvalidFragment("inner IP length exceeds decrypted payload"))
        } else {
            Ok(packet.take(length))
        },
        Err(error) => Err(error),
    }
}

/// Removes padding by trusting the length field of the inner IP packet.
pub fn trim_ip_packet(packet: &[u8]) -> (result: Result<&[u8], Error>)
    ensures
        match result {
            Ok(inner) => trimmed(packet@) == Ok::<Seq<u8>, Error>(inner@),
            Err(error) => trimmed(packet@) == Err::<Seq<u8>, Error>(error),
        },
{
    if packet.len() == 0 {
        return Err(Error::InvalidFragment("empty inner IP packet"));
    }
    let version: u8 = packet[0] / 16;
    let expected: usize = if version == 4 {
        if packet.len() < 20 {
            return Err(Error::InvalidFragment("truncated IPv4 header"));
        }
        be16(packet[2], packet[3]) as usize
    } else if version == 6 {
        if packet.len() < 40 {
            return Err(Error::InvalidFragment("truncated IPv6 header"));
        }
        40 + be16(packet[4], packet[5]) as usize
    } else {
        return Err(Error::InvalidFragment("unknown inner IP version"));
    };
    if expected == 0 || expected > packet.len() {
        return Err(Error::InvalidFragment("inner IP length exceeds decrypted payload"));
    }
    let inner = slice_subrange(packet, 0, expected);
    assert(inner@ =~= packet@.take(expected as int));
    Ok(inner)
}

/// A packet as long as it declares to be comes back from under any padding.
pub proof fn law_trim_removes_padding(packet: Seq<u8>, padding: Seq<u8>)
    requires
        declared_length(packet) == Ok::<int, Error>(packet.len() as int),
    ensures
        trimmed(packet + padding) == Ok::<Seq<u8>, Error>(packet),
{
    let padded = packet + padding;
    assert(padded[0] == packet[0]);
    if packet[0] / 16 == 4 {
        assert(padded[2] == packet[2] && padded[3] == packet[3]);
    } else {
        assert(padded[4] == packet[4] && padded[5] == packet[5]);
    }
    assert(padded.take(packet.len() as int) =~= packet);
}

/// How a fragment lies on the wire: its identifier in four bytes, the most
/// significant first on the traditional path and last in segment routing; a word of
/// four bytes, the least significant first, with the end mark in bit 0, the
/// direction in bit 1, the offset in thirteen bits from bit 2 and the length in
/// eleven bits from bit 15; and the data.
pub proof fn law_fragment_layout(
    fragment: Fragment,
    result: Result<Vec<u8>, Error>,
    routed: Result<Vec<u8>, Error>,
)
    requires
        call_ensures(Fragment::encode_traditional, (&fragment,), result),
        call_ensures(Fragment::encode_sr, (&fragment,), routed),
    ensures
        result is Ok <==> fragment.offset <= 8191 && 0 < fragment.data@.len() <= 2047
            && fragment.offset + fragment.data@.len() <= 8192,
        routed is Ok <==> result is Ok,
        result matches Ok(bytes) ==> {
            let b = bytes@;
            &&& b.len() == 8 + fragment.data@.len()
            &&& b[0] * 0x100_0000 + b[1] * 0x1_0000 + b[2] * 0x100 + b[3] == fragment.id
            &&& b[4] + b[5] * 0x100 + b[6] * 0x1_0000 + b[7] * 0x100_0000 == fragment.data@.len()
                * 0x8000 + fragment.offset * 4 + (if fragment.from_in {
                2int
            } else {
                0
            }) + (if fragment.end_of_packet {
                1int
            } else {
                0
            })
            &&& b.skip(8) == fragment.data@
            &&& routed matches Ok(other) && {
                &&& other@[0] == b[3] && other@[1] == b[2] && other@[2] == b[1] && other@[3] == b[0]
                &&& other@.skip(4) == b.skip(4)
                &&& other@.len() == b.len()
            }
        },
{
    if result is Ok {
        law_word_round_trip(fragment.id);
        let f = fragment@;
        lemma_word_fields(
            if f.end_of_packet {
                1
            } else {
                0
            },
            if f.from_in {
                1
            } else {
                0
            },
            f.offset as int,
            f.data.len() as int,
        );
        law_word_round_trip(f.word() as u32);
        let b = result->Ok_0@;
        let w = le32_bytes(f.word() as u32);
        assert(b[4] == w[0] && b[5] == w[1] && b[6] == w[2] && b[7] == w[3]);
        assert(b.skip(8) =~= f.data);
        let other = routed->Ok_0@;
        assert(other.skip(4) =~= b.skip(4));
    }
}

/// What a fragment on the wire says: a datagram with the given marks, offset and
/// length in its word gives the fragment with them, where the length is neither
/// zero nor more than what is there, and the fragment ends within 8192 bytes.
pub proof fn law_fragment_reading(
    input: &[u8],
    result: Result<Fragment, Error>,
    routed: Result<Fragment, Error>,
    end_of_packet: bool,
    from_in: bool,
    offset: int,
    length: int,
)
    requires
        call_ensures(Fragment::parse_traditional, (input,), result),
        call_ensures(Fragment::parse_sr, (input,), routed),
        input@.len() >= 8,
        0 <= offset < 0x2000,
        0 <= length < 0x800,
        ({
            let b = input@;
            b[4] + b[5] * 0x100 + b[6] * 0x1_0000 + b[7] * 0x100_0000 == length * 0x8000 + offset
                * 4 + (if from_in {
                2int
            } else {
                0
            }) + (if end_of_packet {
                1int
            } else {
                0
            })
        }),
    ensures
        result is Ok <==> 0 < length <= input@.len() - 8 && offset + length <= 8192,
        routed is Ok <==> result is Ok,
        result matches Ok(fragment) ==> {
            let b = input@;
            &&& fragment.id == b[0] * 0x100_0000 + b[1] * 0x1_0000 + b[2] * 0x100 + b[3]
            &&& fragment.end_of_packet == end_of_packet && fragment.from_in == from_in
            &&& fragment.offset == offset && fragment.data@ == b.subrange(8, 8 + length)
            &&& routed matches Ok(other) && {
                &&& other.id == b[3] * 0x100_0000 + b[2] * 0x1_0000 + b[1] * 0x100 + b[0]
                &&& other.end_of_packet == end_of_packet && other.from_in == from_in
                &&& other.offset == offset && other.data@ == b.subrange(8, 8 + length)
            }
        },
{
    lemma_word_fields(
        if end_of_packet {
            1
        } else {
            0
        },
        if from_in {
            1
        } else {
            0
        },
        offset,
        length,
    );
    let b = input@;
    lemma_bytes_of_value(b[0], b[1], b[2], b[3]);
    lemma_bytes_of_value(b[3], b[2], b[1], b[0]);
    if result is Ok && routed is Ok {
        assert(result->Ok_0@ == parsed(b, FragmentIdEndian::Big));
        assert(routed->Ok_0@ == parsed(b, FragmentIdEndian::Little));
    }
}

/// A datagram that is shorter than the prefix, or whose word has bits above the
/// length, is no fragment.
pub proof fn law_no_fragment(
    input: &[u8],
    result: Result<Fragment, Error>,
    routed: Result<Fragment, Error>,
)
    requires
        call_ensures(Fragment::parse_traditional, (input,), result),
        call_ensures(Fragment::parse_sr, (input,), routed),
        input@.len() < 8 || input@[7] >= 4,
    ensures
        result matches Err(Error::InvalidFragment(_)),
        routed matches Err(Error::InvalidFragment(_)),
{
}

/// A half waits for its other half for a tenth of a second: until then a half with
/// the other mark completes it, with the data of the one without the end mark
/// first, and one with the same mark takes its place.
pub proof fn law_half_waits(
    before: Map<u32, TraditionalPending>,
    fragment: Fragment,
    now: u64,
    after: Map<u32, TraditionalPending>,
    result: Result<Option<Seq<u8>>, Error>,
)
    requires
        traditional_step(before, fragment, now, after, result),
        fragment.data@.len() <= 8192,
    ensures
        ({
            let waits = before.contains_key(fragment.id) && now - before[fragment.id].created
                <= 100_000_000;
            let first = before[fragment.id].fragment;
            let size = first.data@.len() + fragment.data@.len();
            &&& !waits || first.end_of_packet == fragment.end_of_packet ==> {
                &&& result == Ok::<Option<Seq<u8>>, Error>(None)
                &&& after.contains_key(fragment.id)
                &&& after[fragment.id].created == now
                &&& after[fragment.id].fragment == fragment
            }
            &&& waits && first.end_of_packet != fragment.end_of_packet ==> {
                &&& !after.contains_key(fragment.id)
                &&& size > 8192 ==> result == Err::<Option<Seq<u8>>, Error>(Error::FragmentTooLarge)
                &&& size <= 8192 && fragment.end_of_packet ==> result == Ok::<
                    Option<Seq<u8>>,
                    Error,
                >(Some(first.data@ + fragment.data@))
                &&& size <= 8192 && first.end_of_packet ==> result == Ok::<Option<Seq<u8>>, Error>(
                    Some(fragment.data@ + first.data@),
                )
            }
        }),
{
}

/// Halves that have waited for more than a tenth of a second are dropped. The
/// others stay, but for one where 256 are waiting and another comes; and that one
/// came no later than those that stay.
pub proof fn law_waiting_halves(
    before: Map<u32, TraditionalPending>,
    fragment: Fragment,
    now: u64,
    after: Map<u32, TraditionalPending>,
    result: Result<Option<Seq<u8>>, Error>,
    id: u32,
    other: u32,
)
    requires
        traditional_step(before, fragment, now, after, result),
        id != fragment.id,
        other != fragment.id,
    ensures
        after.contains_key(id) ==> before.contains_key(id) && now - before[id].created
            <= 100_000_000 && after[id] == before[id],
        before.contains_key(id) && now - before[id].created <= 100_000_000 && !after.contains_key(
            id,
        ) ==> {
            &&& live_halves(before, now).len() >= 256
            &&& after.contains_key(other) ==> before[id].created <= before[other].created
        },
{
    let live = live_halves(before, now);
    if before.contains_key(id) && now - before[id].created <= 100_000_000 {
        assert(live.contains_key(id));
    }
    if after.contains_key(other) {
        assert(live.contains_key(other));
    }
}

/// A part of a packet that would end behind 8192 bytes is refused, and one at an
/// offset that is there already is passed over, whatever it holds.
pub proof fn law_part_is_refused_or_known(
    before: Map<u32, SrGroupView>,
    fragment: Fragment,
    now: u64,
    i: int,
)
    ensures
        ({
            let (after, result) = sr_step(before, fragment, now);
            let known = before.contains_key(fragment.id) && now - before[fragment.id].created
                <= 2_000_000_000;
            let parts = before[fragment.id].parts;
            &&& fragment.offset + fragment.data@.len() > 8192 ==> result == Err::<
                Option<Seq<u8>>,
                Error,
            >(Error::FragmentTooLarge)
            &&& fragment.offset + fragment.data@.len() <= 8192 && known && 0 <= i < parts.len()
                && parts[i].offset == fragment.offset ==> result == Ok::<Option<Seq<u8>>, Error>(
                None,
            ) && after.contains_key(fragment.id) && after[fragment.id] == before[fragment.id]
        }),
{
    let live = live_groups(before, now);
    if before.contains_key(fragment.id) && now - before[fragment.id].created <= 2_000_000_000 {
        assert(live.contains_key(fragment.id));
        assert(live[fragment.id] == before[fragment.id]);
    }
}

/// A part that shares a byte with one of its packet that is there makes the packet
/// invalid, and what is there of it is dropped.
pub proof fn law_overlap_is_invalid(
    before: Map<u32, SrGroupView>,
    fragment: Fragment,
    now: u64,
    i: int,
)
    requires
        before.contains_key(fragment.id),
        now - before[fragment.id].created <= 2_000_000_000,
        0 <= i < before[fragment.id].parts.len(),
        ({
            let part = before[fragment.id].parts[i];
            &&& fragment.offset < part.offset + part.data@.len()
            &&& part.offset < fragment.offset + fragment.data@.len()
        }),
        forall|k: int|
            0 <= k < before[fragment.id].parts.len() ==> (
            #[trigger] before[fragment.id].parts[k]).offset != fragment.offset,
    ensures
        ({
            let (after, result) = sr_step(before, fragment, now);
            &&& result is Err
            &&& result matches Err(Error::InvalidFragment(_)) ==> !after.contains_key(fragment.id)
            &&& fragment.offset + fragment.data@.len() <= 8192 && total_bytes(
                live_groups(before, now),
            ) + fragment.data@.len() <= 262_144 ==> result matches Err(Error::InvalidFragment(_))
        }),
{
    let live = live_groups(before, now);
    assert(live.contains_key(fragment.id));
    assert(live[fragment.id] == before[fragment.id]);
    let part = live[fragment.id].parts[i];
    assert(fragment.offset < part@.end());
}

/// Packets of which parts are there are kept apart by their identifiers; one whose
/// first part came more than two seconds ago is dropped.
pub proof fn law_other_packets_stay(
    before: Map<u32, SrGroupView>,
    fragment: Fragment,
    now: u64,
    id: u32,
)
    requires
        id != fragment.id,
    ensures
        ({
            let (after, result) = sr_step(before, fragment, now);
            &&& after.contains_key(id) <==> before.contains_key(id) && now - before[id].created
                <= 2_000_000_000
            &&& after.contains_key(id) ==> after[id] == before[id]
        }),
{
    let live = live_groups(before, now);
    assert(live.contains_key(id) <==> before.contains_key(id) && now - before[id].created
        <= 2_000_000_000);
}

/// No packet is begun where parts of sixteen are there, and no part is kept where
/// the parts would hold more than 262144 bytes.
pub proof fn law_buffer_limits(before: Map<u32, SrGroupView>, fragment: Fragment, now: u64)
    ensures
        ({
            let (after, result) = sr_step(before, fragment, now);
            let live = live_groups(before, now);
            let new = !before.contains_key(fragment.id) || now - before[fragment.id].created
                > 2_000_000_000;
            &&& new && live.len() >= 16 ==> result == Err::<Option<Seq<u8>>, Error>(
                Error::FragmentTooLarge,
            ) && after == live
            &&& new && total_bytes(live) + fragment.data@.len() > 262_144 ==> result == Err::<
                Option<Seq<u8>>,
                Error,
            >(Error::FragmentTooLarge) && after == live
            &&& new && live.len() < 16 && total_bytes(live) + fragment.data@.len() <= 262_144
                && fragment.offset > 0 && fragment.offset + fragment.data@.len() <= 8192
                ==> result == Ok::<Option<Seq<u8>>, Error>(None) && after.contains_key(fragment.id)
                && after[fragment.id].created == now && after[fragment.id].parts == seq![fragment]
        }),
{
    let live = live_groups(before, now);
    if !before.contains_key(fragment.id) || now - before[fragment.id].created > 2_000_000_000 {
        assert(!live.contains_key(fragment.id));
        let parts = with_part(Seq::empty(), fragment);
        assert(parts =~= seq![fragment]);
        if fragment.offset > 0 {
            assert forall|last: int| !complete_at(parts, last) by {
                if complete_at(parts, last) {
                    assert(chained(parts, 0));
                }
            }
        }
    }
}

/// A packet is cut in two where it is longer than a part may be and no longer than
/// two: the first part is full, and the second one holds the rest and the end mark.
pub proof fn law_cut_in_two(
    packet: &[u8],
    payload_mtu: usize,
    id: u32,
    result: Result<[Fragment; 2], Error>,
)
    requires
        call_ensures(fragment_sr_packet, (packet, payload_mtu, id), result),
    ensures
        result is Ok <==> 0 < payload_mtu <= 2047 && payload_mtu < packet@.len() <= 2 * payload_mtu,
        result matches Ok(parts) ==> {
            &&& parts@[0].id == id && parts@[1].id == id
            &&& parts@[0].data@ + parts@[1].data@ == packet@
            &&& parts@[0].data@.len() == payload_mtu
            &&& parts@[0].offset == 0 && parts@[1].offset == payload_mtu
            &&& !parts@[0].end_of_packet && parts@[1].end_of_packet
            &&& !parts@[0].from_in && !parts@[1].from_in
        },
        result matches Err(error) ==> error == Error::FragmentTooLarge,
{
    if result is Ok {
        let parts = result->Ok_0;
        assert(parts@[0]@.data == packet@.take(payload_mtu as int));
        assert(parts@[1]@.data == packet@.skip(payload_mtu as int));
        assert(parts@[0].data@ + parts@[1].data@ =~= packet@);
    }
}

/// A packet ends where its header says: an IPv4 header gives the length of the whole
/// packet in its third and fourth byte, an IPv6 header that of what follows its
/// forty bytes in the fifth and sixth. A packet that ends before its header does,
/// or before it says, is refused, and so is one of another version.
pub proof fn law_packet_end(packet: &[u8], result: Result<&[u8], Error>)
    requires
        call_ensures(trim_ip_packet, (packet,), result),
    ensures
        ({
            let b = packet@;
            let four = b.len() >= 20 && 0x40 <= b[0] <= 0x4f;
            let six = b.len() >= 40 && 0x60 <= b[0] <= 0x6f;
            let length = if four {
                b[2] * 256 + b[3]
            } else {
                40 + b[4] * 256 + b[5]
            };
            &&& result is Ok <==> (four || six) && 0 < length <= b.len()
            &&& result matches Ok(inner) ==> inner@ == b.take(length)
            &&& result matches Err(error) ==> error is InvalidFragment
        }),
{
}

} // verus!
