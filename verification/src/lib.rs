//! Codec for ASTERIX surveillance messages (categories 034 and 048).
//!
//! A packet on the wire is a one-byte category, a two-byte big-endian total
//! length, and one or more records. Each record starts with an FSPEC presence
//! map followed by its present Data Items in FRN order.
//!
//! Every decoded value carries a specification-level encoding `enc`, and the
//! decoder guarantees that `enc` is exactly the byte sequence it consumed.
//! The encoder emits exactly `enc`, and `finalize` leaves a packet whose
//! presence maps are already minimal unchanged; together these contracts give
//! the round trip: re-encoding a decoded packet reproduces the input bytes.
use vstd::prelude::*;

pub mod fspec;
pub mod types;
pub mod wire;
pub mod ia5;
pub mod data_item;
pub mod fourty_eight;
pub mod thirty_four;

pub use fourty_eight::Cat48;
pub use thirty_four::Cat34;
use wire::{
    items_enc, items_wf, lemma_items_enc_push, lemma_seq_add_assoc, lemma_subrange_join, WireItem,
};

verus! {

/// Size of category plus length, in bytes.
pub const ASTERIX_HEADER_SIZE: u16 = 3;

/// Decoding and finalization failures.
#[derive(Debug, Clone, Copy, PartialEq, Eq, Structural)]
pub enum AsterixError {
    /// The buffer ended before a required field was read.
    Underflow,
    /// An exhaustively specified enum field held a value outside its set.
    InvalidDiscriminant,
    /// The envelope length field is smaller than its own header.
    LengthMismatch,
    /// No codec is registered for the category byte.
    UnknownCategory(u8),
    /// The FSPEC asserts an FRN beyond the catalog's defined range.
    FrnOutOfRange,
    /// The encoded packet would not fit a two-byte length field.
    LengthOverflow,
}

/// One record of a known category.
#[derive(Debug, Clone, PartialEq)]
pub enum AsterixMessage {
    Cat34(Cat34),
    Cat48(Cat48),
}

impl WireItem for AsterixMessage {
    open spec fn wf(self) -> bool {
        match self {
            AsterixMessage::Cat34(c) => c.wf(),
            AsterixMessage::Cat48(c) => c.wf(),
        }
    }

    open spec fn enc(self) -> Seq<u8> {
        match self {
            AsterixMessage::Cat34(c) => c.enc(),
            AsterixMessage::Cat48(c) => c.enc(),
        }
    }
}

impl AsterixMessage {
    /// The category byte this record encodes under.
    pub open spec fn category(self) -> u8 {
        match self {
            AsterixMessage::Cat34(_) => 34,
            AsterixMessage::Cat48(_) => 48,
        }
    }

    /// The record's stored presence map is the minimal one derived from its
    /// item presence.
    pub open spec fn finalized(self) -> bool {
        match self {
            AsterixMessage::Cat34(c) => c.finalized(),
            AsterixMessage::Cat48(c) => c.finalized(),
        }
    }

    /// The two records hold the same Data Items; only the stored presence
    /// map may differ.
    pub open spec fn same_items(self, other: Self) -> bool {
        match (self, other) {
            (AsterixMessage::Cat34(a), AsterixMessage::Cat34(b)) => a.same_items(b),
            (AsterixMessage::Cat48(a), AsterixMessage::Cat48(b)) => a.same_items(b),
            _ => false,
        }
    }

    /// What `update_fspec` leaves behind: the same Data Items under a
    /// freshly derived minimal presence map. A record that was already in
    /// that form keeps its encoding bit for bit.
    pub open spec fn fspec_updated_from(self, other: Self) -> bool {
        &&& self.category() == other.category()
        &&& self.same_items(other)
        &&& self.finalized()
        &&& self.wf() == other.wf()
        &&& (other.finalized() ==> self.enc() == other.enc())
    }

    /// Bytes one record of the given category occupies when decoded at
    /// `pos`, or a negative length when it cannot be decoded there.
    pub open spec fn spec_len(b: Seq<u8>, pos: int, end: int, category: u8) -> int {
        if category == 34 {
            Cat34::spec_len(b, pos, end)
        } else if category == 48 {
            Cat48::spec_len(b, pos, end)
        } else {
            -1
        }
    }

    /// Each Data Item of the record is present exactly when its stored
    /// presence map asserts its FRN.
    pub open spec fn presence_matches(self) -> bool {
        match self {
            AsterixMessage::Cat34(c) => c.presence_matches(),
            AsterixMessage::Cat48(c) => c.presence_matches(),
        }
    }

    /// The record's stored presence map has the shape every decoded map
    /// has: a terminated FX chain asserting no FRN beyond the catalog.
    pub open spec fn fspec_wire_shape(self) -> bool {
        match self {
            AsterixMessage::Cat34(c) => c.fspec_wire_shape(),
            AsterixMessage::Cat48(c) => c.fspec_wire_shape(),
        }
    }

    /// The record's stored presence map is in minimal wire form.
    pub open spec fn fspec_is_minimal(self) -> bool {
        match self {
            AsterixMessage::Cat34(c) => crate::fspec::fspec_minimal(c.fspec@),
            AsterixMessage::Cat48(c) => crate::fspec::fspec_minimal(c.fspec@),
        }
    }

    /// Dispatches decoding by category byte: the registry of known record
    /// codecs.
    pub fn decode(b: &[u8], pos: usize, end: usize, category: u8) -> (r: Result<
        (Self, usize),
        AsterixError,
    >)
        requires
            pos <= end <= b@.len(),
            category == 34 || category == 48,
        ensures
            r matches Ok((m, next)) ==> m.wf() && pos < next <= end && m.enc() == b@.subrange(
                pos as int,
                next as int,
            ) && m.category() == category,
            r matches Ok((m, next)) ==> m.presence_matches() && m.fspec_wire_shape(),
            r is Ok <==> Self::spec_len(b@, pos as int, end as int, category) >= 0,
            r matches Ok((m, next)) ==> next == pos + Self::spec_len(
                b@,
                pos as int,
                end as int,
                category,
            ),
            r matches Err(e) ==> e == AsterixError::Underflow || e
                == AsterixError::InvalidDiscriminant || e == AsterixError::FrnOutOfRange,
    {
        if category == 34 {
            match Cat34::decode(b, pos, end) {
                Ok((c, n)) => Ok((AsterixMessage::Cat34(c), n)),
                Err(e) => Err(e),
            }
        } else {
            match Cat48::decode(b, pos, end) {
                Ok((c, n)) => Ok((AsterixMessage::Cat48(c), n)),
                Err(e) => Err(e),
            }
        }
    }

    /// Rebuilds the record's presence map from its item presence.
    pub fn update_fspec(&mut self)
        ensures
            final(self).fspec_updated_from(*old(self)),
    {
        match self {
            AsterixMessage::Cat34(c) => c.update_fspec(),
            AsterixMessage::Cat48(c) => c.update_fspec(),
        }
    }

    /// A record whose presence map is already in minimal wire form is
    /// finalized: re-deriving the map cannot change it, so its encoding
    /// survives `update_fspec` bit for bit.
    pub proof fn lemma_minimal_message_finalized(m: AsterixMessage)
        requires
            m.presence_matches(),
            m.fspec_wire_shape(),
            m.fspec_is_minimal(),
        ensures
            m.finalized(),
    {
        match m {
            AsterixMessage::Cat34(c) => crate::thirty_four::lemma_minimal_fspec_finalized(c),
            AsterixMessage::Cat48(c) => crate::fourty_eight::lemma_minimal_fspec_finalized(c),
        }
    }

    /// Appends the record's encoding.
    pub fn encode(&self, out: &mut Vec<u8>)
        requires
            self.wf(),
        ensures
            final(out)@ == old(out)@ + self.enc(),
    {
        match self {
            AsterixMessage::Cat34(c) => c.encode(out),
            AsterixMessage::Cat48(c) => c.encode(out),
        }
    }
}

/// One transmission unit: category byte, two-byte big-endian total length
/// (header included), and the records of that category.
#[derive(Debug, Clone, PartialEq)]
pub struct AsterixPacket {
    /// Category of all `messages`.
    pub category: u8,
    /// Total length of the packet in bytes, the three header bytes included.
    pub length: u16,
    /// The records carried by this packet.
    pub messages: Vec<AsterixMessage>,
}

impl WireItem for AsterixPacket {
    open spec fn wf(self) -> bool {
        items_wf(self.messages@)
    }

    open spec fn enc(self) -> Seq<u8> {
        seq![self.category, (self.length >> 8) as u8, self.length as u8] + items_enc(
            self.messages@,
        )
    }
}

impl AsterixPacket {
    /// Every record's presence map is minimal and the length field counts
    /// the header plus all encoded records.
    pub open spec fn finalized(self) -> bool {
        &&& forall|i: int|
            0 <= i < self.messages@.len() ==> (#[trigger] self.messages@[i]).finalized()
        &&& self.length as int == 3 + items_enc(self.messages@).len()
    }

    /// Recomputes every record's presence map from its item presence, then
    /// the envelope length. A packet already in that form keeps its
    /// encoding bit for bit — finalizing twice is the same as finalizing
    /// once, and a decoded packet whose presence maps were already minimal
    /// still re-encodes to the exact bytes it came from.
    #[verifier::rlimit(100)]
    #[verifier::spinoff_prover]
    pub fn finalize(&mut self) -> (r: Result<(), AsterixError>)
        requires
            old(self).wf(),
        ensures
            final(self).category == old(self).category,
            final(self).messages@.len() == old(self).messages@.len(),
            final(self).wf(),
            forall|i: int|
                0 <= i < old(self).messages@.len() ==> (#[trigger] final(self).messages@[i]).fspec_updated_from(old(self).messages@[i]),
            r matches Ok(u) ==> {
                &&& final(self).length as int == 3 + items_enc(final(self).messages@).len()
                &&& final(self).finalized()
                &&& (old(self).finalized() ==> final(self).enc() == old(self).enc())
            },
            r is Ok <==> 3 + items_enc(final(self).messages@).len() <= 0xffff,
            r matches Err(e) ==> e == AsterixError::LengthOverflow && final(self).length == old(self).length,
    {
        let ghost orig = *self;
        let n = self.messages.len();
        let mut updated: Vec<AsterixMessage> = Vec::new();
        let mut body: Vec<u8> = Vec::new();
        let mut i: usize = 0;
        while i < n
            invariant
                n == orig.messages@.len(),
                items_wf(orig.messages@),
                i <= n,
                updated@.len() == i,
                self.messages@ == orig.messages@.subrange(i as int, n as int),
                self.category == orig.category,
                self.length == orig.length,
                forall|j: int|
                    0 <= j < i ==> (#[trigger] updated@[j]).fspec_updated_from(orig.messages@[j]),
                items_wf(updated@),
                body@ == items_enc(updated@),
            decreases n - i,
        {
            let mut m = self.messages.remove(0);
            proof {
                assert(m == orig.messages@[i as int]);
                assert(orig.messages@[i as int].wf());
                assert(self.messages@ =~= orig.messages@.subrange(i + 1, n as int));
            }
            m.update_fspec();
            proof {
                lemma_items_enc_push(updated@, m);
            }
            m.encode(&mut body);
            updated.push(m);
            i += 1;
        }
        self.messages = updated;
        if body.len() > 0xffff - 3 {
            return Err(AsterixError::LengthOverflow);
        }
        self.length = (body.len() + 3) as u16;
        proof {
            if orig.finalized() {
                wire::lemma_items_enc_congruence(self.messages@, orig.messages@);
                assert(self.length == orig.length);
                assert(self.enc() == orig.enc());
            }
        }
        Ok(())
    }

    /// Recomputes the envelope length alone: the header plus the encoded
    /// size of every record under its current presence map.
    pub fn update_len(&mut self) -> (r: Result<(), AsterixError>)
        requires
            old(self).wf(),
        ensures
            final(self).category == old(self).category,
            final(self).messages == old(self).messages,
            final(self).wf(),
            r matches Ok(u) ==> final(self).length as int == 3 + items_enc(
                final(self).messages@,
            ).len(),
            r is Ok <==> 3 + items_enc(final(self).messages@).len() <= 0xffff,
            r matches Err(e) ==> e == AsterixError::LengthOverflow && final(self).length == old(self).length,
    {
        let n = self.messages.len();
        let mut body: Vec<u8> = Vec::new();
        let mut i: usize = 0;
        while i < n
            invariant
                n == self.messages@.len(),
                items_wf(self.messages@),
                i <= n,
                body@ == items_enc(self.messages@.subrange(0, i as int)),
            decreases n - i,
        {
            proof {
                lemma_items_enc_push(
                    self.messages@.subrange(0, i as int),
                    self.messages@[i as int],
                );
                assert(self.messages@.subrange(0, i + 1) =~= self.messages@.subrange(
                    0,
                    i as int,
                ).push(self.messages@[i as int]));
            }
            self.messages[i].encode(&mut body);
            i += 1;
        }
        proof {
            assert(self.messages@.subrange(0, n as int) =~= self.messages@);
        }
        if body.len() > 0xffff - 3 {
            return Err(AsterixError::LengthOverflow);
        }
        self.length = (body.len() + 3) as u16;
        Ok(())
    }
}

impl Default for AsterixPacket {
    /// An empty packet: category zero, length zero, no records.
    fn default() -> (r: Self)
        ensures
            r.category == 0,
            r.length == 0,
            r.messages@.len() == 0,
            r.wf(),
    {
        AsterixPacket { category: 0, length: 0, messages: Vec::new() }
    }
}

/// The length field announced by the packet header at `pos`.
pub open spec fn spec_header_len(b: Seq<u8>, pos: int) -> int
    recommends
        pos + 3 <= b.len(),
{
    (((b[pos + 1] as u16) << 8) | (b[pos + 2] as u16)) as int
}

/// Whether the window `pos..end` splits exactly into records of the given
/// category, back to back.
pub open spec fn spec_msgs_parse(b: Seq<u8>, pos: int, end: int, category: u8) -> bool
    decreases end - pos,
{
    if pos >= end {
        true
    } else {
        let l = AsterixMessage::spec_len(b, pos, end, category);
        if l < 1 || pos + l > end {
            false
        } else {
            spec_msgs_parse(b, pos + l, end, category)
        }
    }
}

/// Bytes one packet occupies when decoded at `pos`, or a negative length
/// when it cannot be decoded there: the header must fit, announce a length
/// covering itself that lies within the buffer, name a known category, and
/// the payload must split exactly into records of that category.
pub open spec fn spec_packet_len(b: Seq<u8>, pos: int) -> int {
    if pos + 3 > b.len() {
        -1
    } else {
        let l = spec_header_len(b, pos);
        if l < 3 || pos + l > b.len() {
            -1
        } else if b[pos] != 34 && b[pos] != 48 {
            -1
        } else if !spec_msgs_parse(b, pos + 3, pos + l, b[pos]) {
            -1
        } else {
            l
        }
    }
}

/// Whether the buffer from `pos` on splits exactly into decodable packets,
/// back to back.
pub open spec fn spec_stream_parses(b: Seq<u8>, pos: int) -> bool
    decreases b.len() - pos,
{
    if pos >= b.len() {
        true
    } else {
        let l = spec_packet_len(b, pos);
        if l < 3 || pos + l > b.len() {
            false
        } else {
            spec_stream_parses(b, pos + l)
        }
    }
}

/// Decodes one packet starting at `pos`: header, then records until the
/// announced length is consumed.
#[verifier::rlimit(100)]
#[verifier::spinoff_prover]
fn decode_packet_at(b: &[u8], pos: usize) -> (r: Result<(AsterixPacket, usize), AsterixError>)
    requires
        pos <= b@.len(),
    ensures
        r is Ok <==> spec_packet_len(b@, pos as int) >= 0,
        r matches Ok((p, next)) ==> {
            &&& p.wf()
            &&& pos + 3 <= next <= b@.len()
            &&& next - pos == p.length
            &&& next - pos == spec_header_len(b@, pos as int)
            &&& next == pos + spec_packet_len(b@, pos as int)
            &&& p.enc() == b@.subrange(pos as int, next as int)
            &&& p.category == b@[pos as int]
            &&& forall|i: int|
                0 <= i < p.messages@.len() ==> (#[trigger] p.messages@[i]).category()
                    == p.category
            &&& forall|i: int|
                0 <= i < p.messages@.len() ==> (#[trigger] p.messages@[i]).presence_matches()
                    && p.messages@[i].fspec_wire_shape()
        },
        pos + 3 > b@.len() ==> r == Err::<(AsterixPacket, usize), AsterixError>(
            AsterixError::Underflow,
        ),
        pos + 3 <= b@.len() && spec_header_len(b@, pos as int) < 3 ==> r == Err::<
            (AsterixPacket, usize),
            AsterixError,
        >(AsterixError::LengthMismatch),
        pos + 3 <= b@.len() && spec_header_len(b@, pos as int) >= 3 && pos + spec_header_len(
            b@,
            pos as int,
        ) > b@.len() ==> r == Err::<(AsterixPacket, usize), AsterixError>(AsterixError::Underflow),
        (pos + 3 <= b@.len() && spec_header_len(b@, pos as int) >= 3 && pos + spec_header_len(
            b@,
            pos as int,
        ) <= b@.len() && b@[pos as int] != 34 && b@[pos as int] != 48) ==> r == Err::<
            (AsterixPacket, usize),
            AsterixError,
        >(AsterixError::UnknownCategory(b@[pos as int])),
{
    if b.len() - pos < 3 {
        return Err(AsterixError::Underflow);
    }
    let category = b[pos];
    let (l1, l2) = (b[pos + 1], b[pos + 2]);
    let length: u16 = ((l1 as u16) << 8) | (l2 as u16);
    if length < 3 {
        return Err(AsterixError::LengthMismatch);
    }
    if (length as usize) > b.len() - pos {
        return Err(AsterixError::Underflow);
    }
    let end = pos + length as usize;
    if category != 34 && category != 48 {
        return Err(AsterixError::UnknownCategory(category));
    }
    let mut messages: Vec<AsterixMessage> = Vec::new();
    let mut cur = pos + 3;
    while cur < end
        invariant
            pos + 3 <= cur <= end <= b@.len(),
            category == 34 || category == 48,
            category == b@[pos as int],
            length as int == spec_header_len(b@, pos as int),
            3 <= length,
            end == pos + length,
            items_wf(messages@),
            items_enc(messages@) == b@.subrange(pos + 3, cur as int),
            forall|i: int|
                0 <= i < messages@.len() ==> (#[trigger] messages@[i]).category() == category,
            forall|i: int|
                0 <= i < messages@.len() ==> (#[trigger] messages@[i]).presence_matches()
                    && messages@[i].fspec_wire_shape(),
            spec_msgs_parse(b@, pos + 3, end as int, category) == spec_msgs_parse(
                b@,
                cur as int,
                end as int,
                category,
            ),
        decreases end - cur,
    {
        match AsterixMessage::decode(b, cur, end, category) {
            Ok((m, next)) => {
                proof {
                    lemma_items_enc_push(messages@, m);
                    lemma_subrange_join(b@, pos + 3, cur as int, next as int);
                    assert(spec_msgs_parse(b@, cur as int, end as int, category)
                        == spec_msgs_parse(b@, next as int, end as int, category));
                }
                messages.push(m);
                cur = next;
            },
            Err(e) => {
                proof {
                    assert(!spec_msgs_parse(b@, cur as int, end as int, category));
                    assert(spec_packet_len(b@, pos as int) == -1);
                }
                return Err(e);
            },
        }
    }
    let p = AsterixPacket { category, length, messages };
    proof {
        assert(spec_msgs_parse(b@, end as int, end as int, category));
        assert(spec_packet_len(b@, pos as int) == length as int);
    }
    proof {
        wire::lemma_u16_be(l1, l2);
        assert(seq![p.category, (p.length >> 8) as u8, p.length as u8] =~= b@.subrange(
            pos as int,
            pos + 3,
        ));
        lemma_subrange_join(b@, pos as int, pos + 3, end as int);
        assert(p.enc() == b@.subrange(pos as int, end as int));
    }
    Ok((p, end))
}

/// Decodes the packet at the start of `bytes` and reports how many bytes it
/// occupied. The decoded packet's encoding is exactly those bytes, so
/// re-encoding it reproduces them.
pub fn decode_packet(bytes: &[u8]) -> (r: Result<(AsterixPacket, usize), AsterixError>)
    ensures
        r is Ok <==> spec_packet_len(bytes@, 0) >= 0,
        r matches Ok((p, consumed)) ==> {
            &&& p.wf()
            &&& 3 <= consumed <= bytes@.len()
            &&& consumed == p.length
            &&& consumed == spec_header_len(bytes@, 0)
            &&& consumed == spec_packet_len(bytes@, 0)
            &&& p.enc() == bytes@.subrange(0, consumed as int)
            &&& p.category == bytes@[0]
            &&& forall|i: int|
                0 <= i < p.messages@.len() ==> (#[trigger] p.messages@[i]).category()
                    == p.category
            &&& forall|i: int|
                0 <= i < p.messages@.len() ==> (#[trigger] p.messages@[i]).presence_matches()
                    && p.messages@[i].fspec_wire_shape()
        },
        bytes@.len() < 3 ==> r == Err::<(AsterixPacket, usize), AsterixError>(
            AsterixError::Underflow,
        ),
        bytes@.len() >= 3 && spec_header_len(bytes@, 0) < 3 ==> r == Err::<
            (AsterixPacket, usize),
            AsterixError,
        >(AsterixError::LengthMismatch),
        bytes@.len() >= 3 && spec_header_len(bytes@, 0) >= 3 && spec_header_len(bytes@, 0)
            > bytes@.len() ==> r == Err::<(AsterixPacket, usize), AsterixError>(
            AsterixError::Underflow,
        ),
        (bytes@.len() >= 3 && 3 <= spec_header_len(bytes@, 0) <= bytes@.len() && bytes@[0] != 34
            && bytes@[0] != 48) ==> r == Err::<(AsterixPacket, usize), AsterixError>(
            AsterixError::UnknownCategory(bytes@[0]),
        ),
{
    decode_packet_at(bytes, 0)
}

/// Decodes a whole transmission: packets back to back until the buffer is
/// exhausted. The packets' concatenated encodings are exactly the input, so
/// re-encoding each in order reproduces it. A malformed packet fails the
/// whole call.
pub fn decode_all(bytes: &[u8]) -> (r: Result<Vec<AsterixPacket>, AsterixError>)
    ensures
        r is Ok <==> spec_stream_parses(bytes@, 0),
        r matches Ok(ps) ==> {
            &&& items_wf(ps@)
            &&& items_enc(ps@) == bytes@
            &&& (bytes@.len() == 0 ==> ps@.len() == 0)
        },
{
    let mut packets: Vec<AsterixPacket> = Vec::new();
    let mut cur: usize = 0;
    while cur < bytes.len()
        invariant
            cur <= bytes@.len(),
            items_wf(packets@),
            items_enc(packets@) == bytes@.subrange(0, cur as int),
            cur == 0 ==> packets@.len() == 0,
            spec_stream_parses(bytes@, 0) == spec_stream_parses(bytes@, cur as int),
        decreases bytes@.len() - cur,
    {
        match decode_packet_at(bytes, cur) {
            Ok((p, next)) => {
                proof {
                    lemma_items_enc_push(packets@, p);
                    lemma_subrange_join(bytes@, 0, cur as int, next as int);
                    assert(spec_stream_parses(bytes@, cur as int) == spec_stream_parses(
                        bytes@,
                        next as int,
                    ));
                }
                packets.push(p);
                cur = next;
            },
            Err(e) => {
                proof {
                    assert(!spec_stream_parses(bytes@, cur as int));
                }
                return Err(e);
            },
        }
    }
    proof {
        assert(spec_stream_parses(bytes@, bytes@.len() as int));
    }
    proof {
        assert(bytes@.subrange(0, bytes@.len() as int) =~= bytes@);
    }
    Ok(packets)
}

/// The round trip through `finalize`: a decoded packet whose records all
/// carry their presence maps in minimal wire form is already finalized, so
/// `finalize` keeps its encoding and `encode_packet` reproduces exactly
/// the bytes the packet was decoded from. (Its hypotheses are what
/// `decode_packet` ensures, plus minimality of each map as it stood on the
/// wire; a padded map, such as one with a trailing all-zero octet, is
/// rewritten by `finalize` and re-encodes shorter.)
pub proof fn lemma_decoded_packet_round_trip(p: AsterixPacket, b: Seq<u8>, consumed: int)
    requires
        0 <= consumed <= b.len(),
        p.enc() == b.subrange(0, consumed),
        consumed == p.length,
        forall|i: int|
            0 <= i < p.messages@.len() ==> (#[trigger] p.messages@[i]).presence_matches()
                && p.messages@[i].fspec_wire_shape(),
        forall|i: int| 0 <= i < p.messages@.len() ==> (#[trigger] p.messages@[i]).fspec_is_minimal(),
    ensures
        p.finalized(),
{
    assert forall|i: int| 0 <= i < p.messages@.len() implies (
    #[trigger] p.messages@[i]).finalized() by {
        AsterixMessage::lemma_minimal_message_finalized(p.messages@[i]);
    }
    assert(p.enc().len() == consumed);
    assert(p.enc().len() == 3 + items_enc(p.messages@).len());
}

/// Encodes a packet exactly as its specification `enc` describes: the
/// header fields as stored, then every record.
pub fn encode_packet(packet: &AsterixPacket) -> (r: Vec<u8>)
    requires
        packet.wf(),
    ensures
        r@ == packet.enc(),
{
    let mut out: Vec<u8> = Vec::new();
    out.push(packet.category);
    out.push((packet.length >> 8) as u8);
    out.push(packet.length as u8);
    let n = packet.messages.len();
    let mut i: usize = 0;
    proof {
        assert(out@ =~= seq![
            packet.category,
            (packet.length >> 8) as u8,
            packet.length as u8,
        ] + items_enc(packet.messages@.subrange(0, 0)));
    }
    while i < n
        invariant
            n == packet.messages@.len(),
            items_wf(packet.messages@),
            i <= n,
            out@ == seq![packet.category, (packet.length >> 8) as u8, packet.length as u8]
                + items_enc(packet.messages@.subrange(0, i as int)),
        decreases n - i,
    {
        proof {
            lemma_items_enc_push(
                packet.messages@.subrange(0, i as int),
                packet.messages@[i as int],
            );
            assert(packet.messages@.subrange(0, i + 1) =~= packet.messages@.subrange(
                0,
                i as int,
            ).push(packet.messages@[i as int]));
            lemma_seq_add_assoc(
                seq![packet.category, (packet.length >> 8) as u8, packet.length as u8],
                items_enc(packet.messages@.subrange(0, i as int)),
                packet.messages@[i as int].enc(),
            );
        }
        packet.messages[i].encode(&mut out);
        i += 1;
    }
    proof {
        assert(packet.messages@.subrange(0, n as int) =~= packet.messages@);
    }
    out
}

} // verus!
