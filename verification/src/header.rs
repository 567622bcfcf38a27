//! The two chunks that describe the file as a whole: the format version and
//! the model header.

use vstd::prelude::*;
use crate::codec::{Chunk, Codec, Lossless};
use crate::error::MdlxError;
use crate::primitives::{
    emit_name, emit_u32, emit_words, get_u32, get_words, le32, lemma_le32_len,
    lemma_parse_name_field, lemma_parsed_name_fits, lemma_splice_nothing, lemma_u32_at_le32,
    lemma_words_at_le, lemma_words_le_len, name_field, name_fits, parse_name, read_name, u32_at,
    words_at, words_le,
};

verus! {

/// The width of the model's name field.
pub const MODEL_NAME_LEN: usize = 336;

/// The number of bytes of an encoded model header, size field included.
pub const MODEL_CHUNK_LEN: usize = 376;

/// The format version of the file.
#[derive(Clone, Copy, Debug, PartialEq, Eq)]
pub struct VersionChunk {
    pub chunk_size: u32,
    pub version: u32,
}

impl View for VersionChunk {
    type V = VersionChunk;

    open spec fn view(&self) -> VersionChunk {
        *self
    }
}

impl Chunk for VersionChunk {
    open spec fn payload_len(v: VersionChunk) -> nat {
        4
    }

    open spec fn resized(v: VersionChunk) -> VersionChunk {
        VersionChunk { chunk_size: 4, ..v }
    }

    fn payload_fits(&self) -> (r: bool) {
        true
    }

    fn calculate_chunk_size(&mut self) -> (r: Result<(), MdlxError>) {
        self.chunk_size = 4;
        Ok(())
    }

    proof fn lemma_payload_len(v: VersionChunk) {
        lemma_le32_len(v.chunk_size);
        lemma_le32_len(v.version);
    }
}

impl Codec for VersionChunk {
    open spec fn parse(s: Seq<u8>) -> Result<(VersionChunk, nat), MdlxError> {
        if s.len() < 8 {
            Err(MdlxError::UnexpectedEof)
        } else {
            Ok((VersionChunk { chunk_size: u32_at(s, 0), version: u32_at(s, 4) }, 8))
        }
    }

    open spec fn encoding(v: VersionChunk) -> Seq<u8> {
        le32(v.chunk_size) + le32(v.version)
    }

    fn try_from_ctx(src: &[u8]) -> (r: Result<(Self, usize), MdlxError>) {
        if src.len() < 8 {
            return Err(MdlxError::UnexpectedEof);
        }
        let chunk_size = get_u32(src, 0);
        let version = get_u32(src, 4);
        Ok((VersionChunk { chunk_size, version }, 8))
    }

    fn total_bytes_size(&self) -> (r: Option<usize>) {
        proof {
            lemma_le32_len(self.chunk_size);
            lemma_le32_len(self.version);
        }
        Some(8)
    }

    fn try_into_ctx(&self, dst: &mut Vec<u8>, offset: usize) -> (r: Result<usize, MdlxError>) {
        proof {
            lemma_le32_len(self.chunk_size);
            lemma_le32_len(self.version);
        }
        let room: usize = dst.len();
        if offset > room || room - offset < 8 {
            return Err(MdlxError::BufferTooSmall);
        }
        let ghost base = dst@;
        let ghost mut acc = Seq::<u8>::empty();
        proof {
            lemma_splice_nothing(base, offset as int);
        }
        let pos = emit_u32(dst, Ghost(base), Ghost(acc), offset, offset, self.chunk_size);
        proof {
            acc = acc + le32(self.chunk_size);
        }
        emit_u32(dst, Ghost(base), Ghost(acc), offset, pos, self.version);
        proof {
            acc = acc + le32(self.version);
            assert(acc =~= Self::encoding(self@));
        }
        Ok(8)
    }

    proof fn lemma_parse_bounds(s: Seq<u8>) {
    }
}

/// The model header: the model's name and its overall bounds.
#[derive(Clone, Debug, PartialEq, Eq)]
pub struct ModelChunk {
    pub chunk_size: u32,
    /// At most 336 bytes of UTF-8 without a zero byte.
    pub name: String,
    pub unknown: u32,
    /// A single-precision bit pattern, as are the extents.
    pub bounds_radius: u32,
    pub minimum_extent: [u32; 3],
    pub maximum_extent: [u32; 3],
    pub blend_time: u32,
}

/// A model header as a mathematical value.
pub struct ModelChunkView {
    pub chunk_size: u32,
    pub name: Seq<char>,
    pub unknown: u32,
    pub bounds_radius: u32,
    pub minimum_extent: Seq<u32>,
    pub maximum_extent: Seq<u32>,
    pub blend_time: u32,
}

impl View for ModelChunk {
    type V = ModelChunkView;

    open spec fn view(&self) -> ModelChunkView {
        ModelChunkView {
            chunk_size: self.chunk_size,
            name: self.name@,
            unknown: self.unknown,
            bounds_radius: self.bounds_radius,
            minimum_extent: self.minimum_extent@,
            maximum_extent: self.maximum_extent@,
            blend_time: self.blend_time,
        }
    }
}

/// The length of a model header's encoding, whose extents have three
/// components each.
pub proof fn lemma_model_chunk_len(v: ModelChunkView)
    requires
        v.minimum_extent.len() == 3,
        v.maximum_extent.len() == 3,
    ensures
        ModelChunk::encoding(v).len() == 376,
{
    lemma_le32_len(v.chunk_size);
    lemma_le32_len(v.unknown);
    lemma_le32_len(v.bounds_radius);
    lemma_le32_len(v.blend_time);
    lemma_words_le_len(v.minimum_extent);
    lemma_words_le_len(v.maximum_extent);
}

impl Chunk for ModelChunk {
    open spec fn payload_len(v: ModelChunkView) -> nat {
        (348 + 4 * v.minimum_extent.len() + 4 * v.maximum_extent.len()) as nat
    }

    open spec fn resized(v: ModelChunkView) -> ModelChunkView {
        ModelChunkView { chunk_size: Self::payload_len(v) as u32, ..v }
    }

    fn payload_fits(&self) -> (r: bool) {
        proof {
            assert(self.minimum_extent@.len() == 3);
            assert(self.maximum_extent@.len() == 3);
        }
        true
    }

    fn calculate_chunk_size(&mut self) -> (r: Result<(), MdlxError>) {
        proof {
            assert(self.minimum_extent@.len() == 3);
            assert(self.maximum_extent@.len() == 3);
        }
        self.chunk_size = 372;
        Ok(())
    }

    proof fn lemma_payload_len(v: ModelChunkView) {
        lemma_le32_len(v.chunk_size);
        lemma_le32_len(v.unknown);
        lemma_le32_len(v.bounds_radius);
        lemma_le32_len(v.blend_time);
        lemma_words_le_len(v.minimum_extent);
        lemma_words_le_len(v.maximum_extent);
    }
}

impl Codec for ModelChunk {
    open spec fn parse(s: Seq<u8>) -> Result<(ModelChunkView, nat), MdlxError> {
        if s.len() < 376 {
            Err(MdlxError::UnexpectedEof)
        } else {
            match parse_name(s.subrange(4, 340)) {
                Err(e) => Err(e),
                Ok(name) => Ok(
                    (
                        ModelChunkView {
                            chunk_size: u32_at(s, 0),
                            name,
                            unknown: u32_at(s, 340),
                            bounds_radius: u32_at(s, 344),
                            minimum_extent: words_at(s, 348, 3),
                            maximum_extent: words_at(s, 360, 3),
                            blend_time: u32_at(s, 372),
                        },
                        376,
                    ),
                ),
            }
        }
    }

    open spec fn encoding(v: ModelChunkView) -> Seq<u8> {
        le32(v.chunk_size) + name_field(v.name, 336) + le32(v.unknown) + le32(v.bounds_radius)
            + words_le(v.minimum_extent) + words_le(v.maximum_extent) + le32(v.blend_time)
    }

    fn try_from_ctx(src: &[u8]) -> (r: Result<(Self, usize), MdlxError>) {
        if src.len() < MODEL_CHUNK_LEN {
            return Err(MdlxError::UnexpectedEof);
        }
        let chunk_size = get_u32(src, 0);
        let name = match read_name(src, 4, MODEL_NAME_LEN) {
            Ok(name) => name,
            Err(e) => {
                return Err(e);
            },
        };
        let unknown = get_u32(src, 340);
        let bounds_radius = get_u32(src, 344);
        let minimum_extent = get_words::<3>(src, 348);
        let maximum_extent = get_words::<3>(src, 360);
        let blend_time = get_u32(src, 372);
        Ok(
            (
                ModelChunk {
                    chunk_size,
                    name,
                    unknown,
                    bounds_radius,
                    minimum_extent,
                    maximum_extent,
                    blend_time,
                },
                MODEL_CHUNK_LEN,
            ),
        )
    }

    fn total_bytes_size(&self) -> (r: Option<usize>) {
        proof {
            assert(self.minimum_extent@.len() == 3);
            assert(self.maximum_extent@.len() == 3);
            lemma_model_chunk_len(self@);
        }
        Some(MODEL_CHUNK_LEN)
    }

    fn try_into_ctx(&self, dst: &mut Vec<u8>, offset: usize) -> (r: Result<usize, MdlxError>) {
        proof {
            assert(self.minimum_extent@.len() == 3);
            assert(self.maximum_extent@.len() == 3);
            lemma_model_chunk_len(self@);
        }
        let room: usize = dst.len();
        if offset > room || room - offset < MODEL_CHUNK_LEN {
            return Err(MdlxError::BufferTooSmall);
        }
        let ghost base = dst@;
        let ghost mut acc = Seq::<u8>::empty();
        proof {
            lemma_splice_nothing(base, offset as int);
        }
        let pos = emit_u32(dst, Ghost(base), Ghost(acc), offset, offset, self.chunk_size);
        proof {
            acc = acc + le32(self.chunk_size);
        }
        let pos = emit_name(dst, Ghost(base), Ghost(acc), offset, pos, self.name.as_str(), MODEL_NAME_LEN);
        proof {
            acc = acc + name_field(self.name@, 336);
        }
        let pos = emit_u32(dst, Ghost(base), Ghost(acc), offset, pos, self.unknown);
        proof {
            acc = acc + le32(self.unknown);
        }
        let pos = emit_u32(dst, Ghost(base), Ghost(acc), offset, pos, self.bounds_radius);
        proof {
            acc = acc + le32(self.bounds_radius);
        }
        let pos = emit_words(dst, Ghost(base), Ghost(acc), offset, pos, &self.minimum_extent);
        proof {
            acc = acc + words_le(self.minimum_extent@);
        }
        let pos = emit_words(dst, Ghost(base), Ghost(acc), offset, pos, &self.maximum_extent);
        proof {
            acc = acc + words_le(self.maximum_extent@);
        }
        emit_u32(dst, Ghost(base), Ghost(acc), offset, pos, self.blend_time);
        proof {
            acc = acc + le32(self.blend_time);
            assert(acc =~= Self::encoding(self@));
        }
        Ok(MODEL_CHUNK_LEN)
    }

    proof fn lemma_parse_bounds(s: Seq<u8>) {
    }
}

impl Lossless for VersionChunk {
    open spec fn well_formed(v: VersionChunk) -> bool {
        true
    }

    open spec fn sizes_right(v: VersionChunk) -> bool {
        true
    }

    proof fn lemma_parsed(s: Seq<u8>) {

    }

    proof fn lemma_round_trip(v: VersionChunk, rest: Seq<u8>) {
        let s = Self::encoding(v) + rest;
        lemma_le32_len(v.chunk_size);
        lemma_le32_len(v.version);
        assert(s.subrange(0, 4) =~= le32(v.chunk_size));
        lemma_u32_at_le32(s, 0, v.chunk_size);
        assert(s.subrange(4, 8) =~= le32(v.version));
        lemma_u32_at_le32(s, 4, v.version);
    }
}

impl Lossless for ModelChunk {
    open spec fn well_formed(v: ModelChunkView) -> bool {
        &&& name_fits(v.name, 336)
        &&& v.minimum_extent.len() == 3
        &&& v.maximum_extent.len() == 3
    }

    open spec fn sizes_right(v: ModelChunkView) -> bool {
        true
    }

    proof fn lemma_parsed(s: Seq<u8>) {
        if s.len() >= 376 {
            lemma_parsed_name_fits(s.subrange(4, 340));
        }
    }

    proof fn lemma_round_trip(v: ModelChunkView, rest: Seq<u8>) {
        let s = Self::encoding(v) + rest;
        lemma_le32_len(v.chunk_size);
        lemma_parse_name_field(v.name, 336);
        lemma_le32_len(v.unknown);
        lemma_le32_len(v.bounds_radius);
        lemma_words_le_len(v.minimum_extent);
        lemma_words_le_len(v.maximum_extent);
        lemma_le32_len(v.blend_time);
        assert(s.subrange(0, 4) =~= le32(v.chunk_size));
        lemma_u32_at_le32(s, 0, v.chunk_size);
        assert(s.subrange(4, 340) =~= name_field(v.name, 336));
        assert(s.subrange(340, 344) =~= le32(v.unknown));
        lemma_u32_at_le32(s, 340, v.unknown);
        assert(s.subrange(344, 348) =~= le32(v.bounds_radius));
        lemma_u32_at_le32(s, 344, v.bounds_radius);
        assert(s.subrange(348, 360) =~= words_le(v.minimum_extent));
        lemma_words_at_le(s, 348, v.minimum_extent);
        assert(s.subrange(360, 372) =~= words_le(v.maximum_extent));
        lemma_words_at_le(s, 360, v.maximum_extent);
        assert(s.subrange(372, 376) =~= le32(v.blend_time));
        lemma_u32_at_le32(s, 372, v.blend_time);
    }
}

} // verus!
