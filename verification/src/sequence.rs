//! Animation clips ("sequences") and global sequences.
//!
//! A sequence names an interval of the model's timeline; the intervals of
//! all sequences are what the keyframe optimizer keeps keyframes for.

use vstd::prelude::*;
use crate::codec::{
    lemma_fixed_list_len, lemma_fixed_list_parsed, lemma_fixed_list_round_trip,
    lemma_parse_count_bounds, list_chunk_encoding, list_chunk_size, list_encoding, list_payload,
    parse_fixed_list, read_fixed_list, views, write_list_chunk, Chunk, Codec, ListView, Lossless,
};
use crate::error::MdlxError;
use crate::primitives::{
    emit_name, emit_u32, emit_words, get_u32, get_words, le32, lemma_le32_len,
    lemma_parse_name_field, lemma_parsed_name_fits, lemma_splice_nothing, lemma_u32_at_le32,
    lemma_words_at_le, lemma_words_le_len, name_field, name_fits, parse_name, read_name, u32_at,
    words_at, words_le,
};

verus! {

/// The width of a sequence's name field.
pub const SEQUENCE_NAME_LEN: usize = 80;

/// The number of bytes of an encoded sequence.
pub const SEQUENCE_LEN: usize = 132;

/// The number of bytes of an encoded global sequence.
pub const GLOBAL_SEQUENCE_LEN: usize = 4;

/// One animation clip: its name, its interval on the timeline, and how it
/// is played.
#[derive(Clone, Debug, PartialEq, Eq)]
pub struct Sequence {
    /// At most 80 bytes of UTF-8 without a zero byte.
    pub name: String,
    pub interval_start: u32,
    pub interval_end: u32,
    /// A single-precision bit pattern, as are `rarity`, `bounds_radius` and
    /// the extents.
    pub move_speed: u32,
    pub non_looping: u32,
    pub rarity: u32,
    pub unknown: u32,
    pub bounds_radius: u32,
    pub minimum_extent: [u32; 3],
    pub maximum_extent: [u32; 3],
}

/// A sequence as a mathematical value.
pub struct SequenceView {
    pub name: Seq<char>,
    pub interval_start: u32,
    pub interval_end: u32,
    pub move_speed: u32,
    pub non_looping: u32,
    pub rarity: u32,
    pub unknown: u32,
    pub bounds_radius: u32,
    pub minimum_extent: Seq<u32>,
    pub maximum_extent: Seq<u32>,
}

impl View for Sequence {
    type V = SequenceView;

    open spec fn view(&self) -> SequenceView {
        SequenceView {
            name: self.name@,
            interval_start: self.interval_start,
            interval_end: self.interval_end,
            move_speed: self.move_speed,
            non_looping: self.non_looping,
            rarity: self.rarity,
            unknown: self.unknown,
            bounds_radius: self.bounds_radius,
            minimum_extent: self.minimum_extent@,
            maximum_extent: self.maximum_extent@,
        }
    }
}

/// The length of a sequence's encoding, whose extents have three components
/// each.
pub proof fn lemma_sequence_len(v: SequenceView)
    requires
        v.minimum_extent.len() == 3,
        v.maximum_extent.len() == 3,
    ensures
        Sequence::encoding(v).len() == 132,
{
    lemma_le32_len(v.interval_start);
    lemma_le32_len(v.interval_end);
    lemma_le32_len(v.move_speed);
    lemma_le32_len(v.non_looping);
    lemma_le32_len(v.rarity);
    lemma_le32_len(v.unknown);
    lemma_le32_len(v.bounds_radius);
    lemma_words_le_len(v.minimum_extent);
    lemma_words_le_len(v.maximum_extent);
}

impl Codec for Sequence {
    open spec fn parse(s: Seq<u8>) -> Result<(SequenceView, nat), MdlxError> {
        if s.len() < 132 {
            Err(MdlxError::UnexpectedEof)
        } else {
            match parse_name(s.subrange(0, 80)) {
                Err(e) => Err(e),
                Ok(name) => Ok(
                    (
                        SequenceView {
                            name,
                            interval_start: u32_at(s, 80),
                            interval_end: u32_at(s, 84),
                            move_speed: u32_at(s, 88),
                            non_looping: u32_at(s, 92),
                            rarity: u32_at(s, 96),
                            unknown: u32_at(s, 100),
                            bounds_radius: u32_at(s, 104),
                            minimum_extent: words_at(s, 108, 3),
                            maximum_extent: words_at(s, 120, 3),
                        },
                        132,
                    ),
                ),
            }
        }
    }

    open spec fn encoding(v: SequenceView) -> Seq<u8> {
        name_field(v.name, 80) + le32(v.interval_start) + le32(v.interval_end) + le32(v.move_speed)
            + le32(v.non_looping) + le32(v.rarity) + le32(v.unknown) + le32(v.bounds_radius)
            + words_le(v.minimum_extent) + words_le(v.maximum_extent)
    }

    fn try_from_ctx(src: &[u8]) -> (r: Result<(Self, usize), MdlxError>) {
        if src.len() < SEQUENCE_LEN {
            return Err(MdlxError::UnexpectedEof);
        }
        let name = match read_name(src, 0, SEQUENCE_NAME_LEN) {
            Ok(name) => name,
            Err(e) => {
                return Err(e);
            },
        };
        let interval_start = get_u32(src, 80);
        let interval_end = get_u32(src, 84);
        let move_speed = get_u32(src, 88);
        let non_looping = get_u32(src, 92);
        let rarity = get_u32(src, 96);
        let unknown = get_u32(src, 100);
        let bounds_radius = get_u32(src, 104);
        let minimum_extent = get_words::<3>(src, 108);
        let maximum_extent = get_words::<3>(src, 120);
        Ok(
            (
                Sequence {
                    name,
                    interval_start,
                    interval_end,
                    move_speed,
                    non_looping,
                    rarity,
                    unknown,
                    bounds_radius,
                    minimum_extent,
                    maximum_extent,
                },
                SEQUENCE_LEN,
            ),
        )
    }

    fn total_bytes_size(&self) -> (r: Option<usize>) {
        proof {
            assert(self.minimum_extent@.len() == 3);
            assert(self.maximum_extent@.len() == 3);
            lemma_sequence_len(self@);
        }
        Some(SEQUENCE_LEN)
    }

    fn try_into_ctx(&self, dst: &mut Vec<u8>, offset: usize) -> (r: Result<usize, MdlxError>) {
        proof {
            assert(self.minimum_extent@.len() == 3);
            assert(self.maximum_extent@.len() == 3);
            lemma_sequence_len(self@);
        }
        let room: usize = dst.len();
        if offset > room || room - offset < SEQUENCE_LEN {
            return Err(MdlxError::BufferTooSmall);
        }
        let ghost base = dst@;
        let ghost mut acc = Seq::<u8>::empty();
        proof {
            lemma_splice_nothing(base, offset as int);
        }
        let pos = emit_name(dst, Ghost(base), Ghost(acc), offset, offset, self.name.as_str(), SEQUENCE_NAME_LEN);
        proof {
            acc = acc + name_field(self.name@, 80);
        }
        let pos = emit_u32(dst, Ghost(base), Ghost(acc), offset, pos, self.interval_start);
        proof {
            acc = acc + le32(self.interval_start);
        }
        let pos = emit_u32(dst, Ghost(base), Ghost(acc), offset, pos, self.interval_end);
        proof {
            acc = acc + le32(self.interval_end);
        }
        let pos = emit_u32(dst, Ghost(base), Ghost(acc), offset, pos, self.move_speed);
        proof {
            acc = acc + le32(self.move_speed);
        }
        let pos = emit_u32(dst, Ghost(base), Ghost(acc), offset, pos, self.non_looping);
        proof {
            acc = acc + le32(self.non_looping);
        }
        let pos = emit_u32(dst, Ghost(base), Ghost(acc), offset, pos, self.rarity);
        proof {
            acc = acc + le32(self.rarity);
        }
        let pos = emit_u32(dst, Ghost(base), Ghost(acc), offset, pos, self.unknown);
        proof {
            acc = acc + le32(self.unknown);
        }
        let pos = emit_u32(dst, Ghost(base), Ghost(acc), offset, pos, self.bounds_radius);
        proof {
            acc = acc + le32(self.bounds_radius);
        }
        let pos = emit_words(dst, Ghost(base), Ghost(acc), offset, pos, &self.minimum_extent);
        proof {
            acc = acc + words_le(self.minimum_extent@);
        }
        emit_words(dst, Ghost(base), Ghost(acc), offset, pos, &self.maximum_extent);
        proof {
            acc = acc + words_le(self.maximum_extent@);
            assert(acc =~= Self::encoding(self@));
        }
        Ok(SEQUENCE_LEN)
    }

    proof fn lemma_parse_bounds(s: Seq<u8>) {
    }
}

/// The list of the model's sequences.
#[derive(Clone, Debug, PartialEq, Eq)]
pub struct SequenceChunk {
    pub chunk_size: u32,
    pub data: Vec<Sequence>,
}

impl View for SequenceChunk {
    type V = ListView<SequenceView>;

    open spec fn view(&self) -> ListView<SequenceView> {
        ListView { chunk_size: self.chunk_size, data: views(self.data@) }
    }
}

impl Chunk for SequenceChunk {
    open spec fn payload_len(v: ListView<SequenceView>) -> nat {
        list_encoding::<Sequence>(v.data).len()
    }

    open spec fn resized(v: ListView<SequenceView>) -> ListView<SequenceView> {
        ListView { chunk_size: list_encoding::<Sequence>(v.data).len() as u32, data: v.data }
    }

    fn payload_fits(&self) -> (r: bool) {
        list_payload::<Sequence>(&self.data).is_ok()
    }

    fn calculate_chunk_size(&mut self) -> (r: Result<(), MdlxError>) {
        match list_payload::<Sequence>(&self.data) {
            Ok(n) => {
                self.chunk_size = n;
                Ok(())
            },
            Err(e) => Err(e),
        }
    }

    proof fn lemma_payload_len(v: ListView<SequenceView>) {
        lemma_le32_len(v.chunk_size);
    }
}

impl Codec for SequenceChunk {
    open spec fn parse(s: Seq<u8>) -> Result<(ListView<SequenceView>, nat), MdlxError> {
        parse_fixed_list::<Sequence>(s, 132)
    }

    open spec fn encoding(v: ListView<SequenceView>) -> Seq<u8> {
        list_chunk_encoding::<Sequence>(v)
    }

    fn try_from_ctx(src: &[u8]) -> (r: Result<(Self, usize), MdlxError>) {
        match read_fixed_list::<Sequence>(src, 132) {
            Ok((chunk_size, data, n)) => Ok((SequenceChunk { chunk_size, data }, n)),
            Err(e) => Err(e),
        }
    }

    fn total_bytes_size(&self) -> (r: Option<usize>) {
        list_chunk_size::<Sequence>(self.chunk_size, &self.data)
    }

    fn try_into_ctx(&self, dst: &mut Vec<u8>, offset: usize) -> (r: Result<usize, MdlxError>) {
        write_list_chunk::<Sequence>(self.chunk_size, &self.data, dst, offset)
    }

    proof fn lemma_parse_bounds(s: Seq<u8>) {
        if s.len() >= 4 {
            lemma_parse_count_bounds::<Sequence>(s.skip(4), u32_at(s, 0) as nat / 132);
        }
    }
}

/// The length of a timeline that loops on its own, apart from the sequences.
#[derive(Clone, Copy, Debug, PartialEq, Eq)]
pub struct GlobalSequence {
    pub duration: u32,
}

impl View for GlobalSequence {
    type V = GlobalSequence;

    open spec fn view(&self) -> GlobalSequence {
        *self
    }
}

impl Codec for GlobalSequence {
    open spec fn parse(s: Seq<u8>) -> Result<(GlobalSequence, nat), MdlxError> {
        if s.len() < 4 {
            Err(MdlxError::UnexpectedEof)
        } else {
            Ok((GlobalSequence { duration: u32_at(s, 0) }, 4))
        }
    }

    open spec fn encoding(v: GlobalSequence) -> Seq<u8> {
        le32(v.duration)
    }

    fn try_from_ctx(src: &[u8]) -> (r: Result<(Self, usize), MdlxError>) {
        if src.len() < GLOBAL_SEQUENCE_LEN {
            return Err(MdlxError::UnexpectedEof);
        }
        let duration = get_u32(src, 0);
        Ok((GlobalSequence { duration }, GLOBAL_SEQUENCE_LEN))
    }

    fn total_bytes_size(&self) -> (r: Option<usize>) {
        proof {
            lemma_le32_len(self.duration);
        }
        Some(GLOBAL_SEQUENCE_LEN)
    }

    fn try_into_ctx(&self, dst: &mut Vec<u8>, offset: usize) -> (r: Result<usize, MdlxError>) {
        proof {
            lemma_le32_len(self.duration);
        }
        let room: usize = dst.len();
        if offset > room || room - offset < GLOBAL_SEQUENCE_LEN {
            return Err(MdlxError::BufferTooSmall);
        }
        let ghost base = dst@;
        proof {
            lemma_splice_nothing(base, offset as int);
        }
        emit_u32(dst, Ghost(base), Ghost(Seq::empty()), offset, offset, self.duration);
        proof {
            assert(Seq::<u8>::empty() + le32(self.duration) =~= le32(self.duration));
        }
        Ok(GLOBAL_SEQUENCE_LEN)
    }

    proof fn lemma_parse_bounds(s: Seq<u8>) {
    }
}

/// The list of the model's global sequences.
#[derive(Clone, Debug, PartialEq, Eq)]
pub struct GlobalSequenceChunk {
    pub chunk_size: u32,
    pub data: Vec<GlobalSequence>,
}

impl View for GlobalSequenceChunk {
    type V = ListView<GlobalSequence>;

    open spec fn view(&self) -> ListView<GlobalSequence> {
        ListView { chunk_size: self.chunk_size, data: views(self.data@) }
    }
}

impl Chunk for GlobalSequenceChunk {
    open spec fn payload_len(v: ListView<GlobalSequence>) -> nat {
        list_encoding::<GlobalSequence>(v.data).len()
    }

    open spec fn resized(v: ListView<GlobalSequence>) -> ListView<GlobalSequence> {
        ListView { chunk_size: list_encoding::<GlobalSequence>(v.data).len() as u32, data: v.data }
    }

    fn payload_fits(&self) -> (r: bool) {
        list_payload::<GlobalSequence>(&self.data).is_ok()
    }

    fn calculate_chunk_size(&mut self) -> (r: Result<(), MdlxError>) {
        match list_payload::<GlobalSequence>(&self.data) {
            Ok(n) => {
                self.chunk_size = n;
                Ok(())
            },
            Err(e) => Err(e),
        }
    }

    proof fn lemma_payload_len(v: ListView<GlobalSequence>) {
        lemma_le32_len(v.chunk_size);
    }
}

impl Codec for GlobalSequenceChunk {
    open spec fn parse(s: Seq<u8>) -> Result<(ListView<GlobalSequence>, nat), MdlxError> {
        parse_fixed_list::<GlobalSequence>(s, 4)
    }

    open spec fn encoding(v: ListView<GlobalSequence>) -> Seq<u8> {
        list_chunk_encoding::<GlobalSequence>(v)
    }

    fn try_from_ctx(src: &[u8]) -> (r: Result<(Self, usize), MdlxError>) {
        match read_fixed_list::<GlobalSequence>(src, 4) {
            Ok((chunk_size, data, n)) => Ok((GlobalSequenceChunk { chunk_size, data }, n)),
            Err(e) => Err(e),
        }
    }

    fn total_bytes_size(&self) -> (r: Option<usize>) {
        list_chunk_size::<GlobalSequence>(self.chunk_size, &self.data)
    }

    fn try_into_ctx(&self, dst: &mut Vec<u8>, offset: usize) -> (r: Result<usize, MdlxError>) {
        write_list_chunk::<GlobalSequence>(self.chunk_size, &self.data, dst, offset)
    }

    proof fn lemma_parse_bounds(s: Seq<u8>) {
        if s.len() >= 4 {
            lemma_parse_count_bounds::<GlobalSequence>(s.skip(4), u32_at(s, 0) as nat / 4);
        }
    }
}

impl Lossless for Sequence {
    open spec fn well_formed(v: SequenceView) -> bool {
        &&& name_fits(v.name, 80)
        &&& v.minimum_extent.len() == 3
        &&& v.maximum_extent.len() == 3
    }

    open spec fn sizes_right(v: SequenceView) -> bool {
        true
    }

    proof fn lemma_parsed(s: Seq<u8>) {
        if s.len() >= 132 {
            lemma_parsed_name_fits(s.subrange(0, 80));
        }
    }

    proof fn lemma_round_trip(v: SequenceView, rest: Seq<u8>) {
        let s = Self::encoding(v) + rest;
        lemma_parse_name_field(v.name, 80);
        lemma_le32_len(v.interval_start);
        lemma_le32_len(v.interval_end);
        lemma_le32_len(v.move_speed);
        lemma_le32_len(v.non_looping);
        lemma_le32_len(v.rarity);
        lemma_le32_len(v.unknown);
        lemma_le32_len(v.bounds_radius);
        lemma_words_le_len(v.minimum_extent);
        lemma_words_le_len(v.maximum_extent);
        assert(s.subrange(0, 80) =~= name_field(v.name, 80));
        assert(s.subrange(80, 84) =~= le32(v.interval_start));
        lemma_u32_at_le32(s, 80, v.interval_start);
        assert(s.subrange(84, 88) =~= le32(v.interval_end));
        lemma_u32_at_le32(s, 84, v.interval_end);
        assert(s.subrange(88, 92) =~= le32(v.move_speed));
        lemma_u32_at_le32(s, 88, v.move_speed);
        assert(s.subrange(92, 96) =~= le32(v.non_looping));
        lemma_u32_at_le32(s, 92, v.non_looping);
        assert(s.subrange(96, 100) =~= le32(v.rarity));
        lemma_u32_at_le32(s, 96, v.rarity);
        assert(s.subrange(100, 104) =~= le32(v.unknown));
        lemma_u32_at_le32(s, 100, v.unknown);
        assert(s.subrange(104, 108) =~= le32(v.bounds_radius));
        lemma_u32_at_le32(s, 104, v.bounds_radius);
        assert(s.subrange(108, 120) =~= words_le(v.minimum_extent));
        lemma_words_at_le(s, 108, v.minimum_extent);
        assert(s.subrange(120, 132) =~= words_le(v.maximum_extent));
        lemma_words_at_le(s, 120, v.maximum_extent);
    }
}

impl Lossless for GlobalSequence {
    open spec fn well_formed(v: GlobalSequence) -> bool {
        true
    }

    open spec fn sizes_right(v: GlobalSequence) -> bool {
        true
    }

    proof fn lemma_parsed(s: Seq<u8>) {

    }

    proof fn lemma_round_trip(v: GlobalSequence, rest: Seq<u8>) {
        let s = Self::encoding(v) + rest;
        lemma_le32_len(v.duration);
        assert(s.subrange(0, 4) =~= le32(v.duration));
        lemma_u32_at_le32(s, 0, v.duration);
    }
}

impl Lossless for SequenceChunk {
    open spec fn well_formed(v: ListView<SequenceView>) -> bool {
        &&& forall|i: int| 0 <= i < v.data.len() ==> Sequence::well_formed(#[trigger] v.data[i])
        &&& v.chunk_size == list_encoding::<Sequence>(v.data).len()
    }

    open spec fn sizes_right(v: ListView<SequenceView>) -> bool {
        true
    }

    proof fn lemma_parsed(s: Seq<u8>) {
        assert forall|v: SequenceView| #[trigger] Sequence::well_formed(v) implies Sequence::encoding(
            v,
        ).len() == 132 by {
            lemma_sequence_len(v);
        }
        lemma_fixed_list_parsed::<Sequence>(s, 132);
    }

    proof fn lemma_round_trip(v: ListView<SequenceView>, rest: Seq<u8>) {
        assert forall|i: int| 0 <= i < v.data.len() implies Sequence::encoding(
            #[trigger] v.data[i],
        ).len() == 132 by {
            lemma_sequence_len(v.data[i]);
        }
        lemma_fixed_list_round_trip::<Sequence>(v, 132, rest);
    }
}

impl Lossless for GlobalSequenceChunk {
    open spec fn well_formed(v: ListView<GlobalSequence>) -> bool {
        v.chunk_size == list_encoding::<GlobalSequence>(v.data).len()
    }

    open spec fn sizes_right(v: ListView<GlobalSequence>) -> bool {
        true
    }

    proof fn lemma_parsed(s: Seq<u8>) {
        assert forall|v: GlobalSequence| #[trigger] GlobalSequence::well_formed(v)
            implies GlobalSequence::encoding(v).len() == 4 by {
            lemma_le32_len(v.duration);
        }
        lemma_fixed_list_parsed::<GlobalSequence>(s, 4);
    }

    proof fn lemma_round_trip(v: ListView<GlobalSequence>, rest: Seq<u8>) {
        assert forall|i: int| 0 <= i < v.data.len() implies GlobalSequence::encoding(
            #[trigger] v.data[i],
        ).len() == 4 by {
            lemma_le32_len(v.data[i].duration);
        }
        lemma_fixed_list_round_trip::<GlobalSequence>(v, 4, rest);
    }
}

/// The size that a sequence chunk states once it is set anew is 132 bytes
/// for each of its sequences.
pub proof fn sequence_chunk_size(chunk: SequenceChunk)
    ensures
        SequenceChunk::payload_len(chunk@) == 132 * chunk.data@.len(),
        chunk.data@.len() * 132 <= u32::MAX ==> SequenceChunk::resized(chunk@).chunk_size == 132
            * chunk.data@.len(),
{
    let items = views(chunk.data@);
    assert forall|i: int| 0 <= i < items.len() implies Sequence::encoding(#[trigger] items[i]).len()
        == 132 by {
        assert(chunk.data@[i].minimum_extent@.len() == 3);
        assert(chunk.data@[i].maximum_extent@.len() == 3);
        lemma_sequence_len(items[i]);
    }
    lemma_fixed_list_len::<Sequence>(items, 132);
}

} // verus!
