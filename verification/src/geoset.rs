//! Geoset animations: how the visibility and the color of a geoset change
//! over time.

use vstd::prelude::*;
use vstd::slice::slice_subrange;
use crate::animation::{
    block_encoding, block_size, block_well_formed, emit_block, lemma_block_step, lemma_skip_past,
    lemma_transform_parsed, parse_transform, Transform, TransformView,
};
use crate::codec::{
    lemma_parse_until_bounds, lemma_sized_list_round_trip, lemma_until_parsed, list_chunk_encoding,
    list_chunk_size, list_encoding, list_payload, opt_view, parse_sized_list, read_sized_list,
    views, write_list_chunk, Chunk, Codec, ListView, Lossless, SelfDelimited,
};
use crate::error::MdlxError;
use crate::primitives::{
    decoded, emit_u32, emit_words, get_u32, get_words, le32, lemma_le32_len, lemma_splice_nothing,
    lemma_u32_at_le32, lemma_words_at_le, lemma_words_le_len, read_u32, u32_at, words_at, words_le,
};
use crate::tags::{KGAC_TAG, KGAO_TAG};

verus! {

/// The number of bytes of a geoset animation's fixed fields.
pub const GEOSET_ANIMATION_HEADER_LEN: usize = 28;

/// The animation of a geoset's alpha and color, each of which may be absent,
/// and the values that hold where they are.
#[derive(Clone, Debug, PartialEq)]
pub struct GeosetAnimation {
    /// The number of bytes of the record, this field included.
    pub inclusive_size: u32,
    /// A single-precision bit pattern, as are the components of `color`.
    pub alpha: u32,
    pub flags: u32,
    /// Blue, green, red.
    pub color: [u32; 3],
    pub geoset_id: u32,
    pub geoset_alpha: Option<Transform<1>>,
    pub geoset_color: Option<Transform<3>>,
}

/// A geoset animation as a mathematical value.
pub struct GeosetAnimationView {
    pub inclusive_size: u32,
    pub alpha: u32,
    pub flags: u32,
    pub color: Seq<u32>,
    pub geoset_id: u32,
    pub geoset_alpha: Option<TransformView>,
    pub geoset_color: Option<TransformView>,
}

impl View for GeosetAnimation {
    type V = GeosetAnimationView;

    open spec fn view(&self) -> GeosetAnimationView {
        GeosetAnimationView {
            inclusive_size: self.inclusive_size,
            alpha: self.alpha,
            flags: self.flags,
            color: self.color@,
            geoset_id: self.geoset_id,
            geoset_alpha: opt_view(self.geoset_alpha),
            geoset_color: opt_view(self.geoset_color),
        }
    }
}

/// The bytes of a geoset animation's fixed fields.
pub open spec fn geoset_animation_header(v: GeosetAnimationView) -> Seq<u8> {
    le32(v.inclusive_size) + le32(v.alpha) + le32(v.flags) + words_le(v.color) + le32(v.geoset_id)
}

/// The fixed fields of a geoset animation with a color of three components
/// take 28 bytes.
pub proof fn lemma_geoset_animation_header_len(v: GeosetAnimationView)
    requires
        v.color.len() == 3,
    ensures
        geoset_animation_header(v).len() == 28,
{
    lemma_le32_len(v.inclusive_size);
    lemma_le32_len(v.alpha);
    lemma_le32_len(v.flags);
    lemma_words_le_len(v.color);
    lemma_le32_len(v.geoset_id);
}

/// The animated properties of a geoset animation that go from `pos` of `s`
/// up to `limit`, the size that the record states. Each is a tag and the
/// property it names: an alpha has one component, a color three. A property
/// that comes a second time replaces the first. `alpha` and `color` hold the
/// properties found before `pos`. The result is the properties and the
/// position behind the last.
pub open spec fn parse_geoset_blocks(
    s: Seq<u8>,
    pos: nat,
    limit: nat,
    alpha: Option<TransformView>,
    color: Option<TransformView>,
) -> Result<(Option<TransformView>, Option<TransformView>, nat), MdlxError>
    decreases s.len() - pos,
{
    if pos >= limit {
        Ok((alpha, color, pos))
    } else if pos + 4 > s.len() {
        Err(MdlxError::UnexpectedEof)
    } else {
        let tag = u32_at(s, pos as int);
        let body = s.skip(pos + 4 as int);
        if tag == KGAO_TAG {
            match parse_transform(body, 1) {
                Err(e) => Err(e),
                Ok((t, n)) => parse_geoset_blocks(s, pos + 4 + n, limit, Some(t), color),
            }
        } else if tag == KGAC_TAG {
            match parse_transform(body, 3) {
                Err(e) => Err(e),
                Ok((t, n)) => parse_geoset_blocks(s, pos + 4 + n, limit, alpha, Some(t)),
            }
        } else {
            Err(MdlxError::UnknownTag(tag))
        }
    }
}

/// The animated properties of a geoset animation end at or behind where
/// they start, and within the input.
pub proof fn lemma_parse_geoset_blocks_bounds(
    s: Seq<u8>,
    pos: nat,
    limit: nat,
    alpha: Option<TransformView>,
    color: Option<TransformView>,
)
    requires
        pos <= s.len(),
    ensures
        parse_geoset_blocks(s, pos, limit, alpha, color) matches Ok((_, _, n)) ==> pos <= n
            <= s.len(),
    decreases s.len() - pos,
{
    if pos < limit && pos + 4 <= s.len() {
        let tag = u32_at(s, pos as int);
        let body = s.skip(pos + 4 as int);
        if tag == KGAO_TAG {
            if let Ok((t, n)) = parse_transform(body, 1) {
                Transform::<1>::lemma_parse_bounds(body);
                lemma_parse_geoset_blocks_bounds(s, pos + 4 + n, limit, Some(t), color);
            }
        } else if tag == KGAC_TAG {
            if let Ok((t, n)) = parse_transform(body, 3) {
                Transform::<3>::lemma_parse_bounds(body);
                lemma_parse_geoset_blocks_bounds(s, pos + 4 + n, limit, alpha, Some(t));
            }
        }
    }
}

/// Decodes the animated properties of a geoset animation that go from
/// `start` of `src` up to `limit`; returns them with the position behind the
/// last.
fn read_geoset_blocks(src: &[u8], start: usize, limit: u32) -> (r: Result<
    (Option<Transform<1>>, Option<Transform<3>>, usize),
    MdlxError,
>)
    requires
        start <= src@.len(),
    ensures
        (match r {
            Ok((alpha, color, n)) => Ok((opt_view(alpha), opt_view(color), n as nat)),
            Err(e) => Err(e),
        }) == parse_geoset_blocks(src@, start as nat, limit as nat, None, None),
{
    let end: usize = src.len();
    let mut alpha: Option<Transform<1>> = None;
    let mut color: Option<Transform<3>> = None;
    let mut pos: usize = start;
    while pos < limit as usize
        invariant
            start <= pos <= src@.len() == end,
            parse_geoset_blocks(src@, start as nat, limit as nat, None, None)
                == parse_geoset_blocks(
                src@,
                pos as nat,
                limit as nat,
                opt_view(alpha),
                opt_view(color),
            ),
        decreases src@.len() - pos,
    {
        let tag = match read_u32(src, pos) {
            Ok(tag) => tag,
            Err(e) => {
                return Err(e);
            },
        };
        let body = slice_subrange(src, pos + 4, end);
        if tag == KGAO_TAG {
            proof {
                Transform::<1>::lemma_parse_bounds(body@);
            }
            match Transform::<1>::try_from_ctx(body) {
                Ok((t, n)) => {
                    alpha = Some(t);
                    pos = pos + 4 + n;
                },
                Err(e) => {
                    return Err(e);
                },
            }
        } else if tag == KGAC_TAG {
            proof {
                Transform::<3>::lemma_parse_bounds(body@);
            }
            match Transform::<3>::try_from_ctx(body) {
                Ok((t, n)) => {
                    color = Some(t);
                    pos = pos + 4 + n;
                },
                Err(e) => {
                    return Err(e);
                },
            }
        } else {
            return Err(MdlxError::UnknownTag(tag));
        }
    }
    Ok((alpha, color, pos))
}

impl Codec for GeosetAnimation {
    open spec fn parse(s: Seq<u8>) -> Result<(GeosetAnimationView, nat), MdlxError> {
        if s.len() < 28 {
            Err(MdlxError::UnexpectedEof)
        } else {
            let inclusive_size = u32_at(s, 0);
            match parse_geoset_blocks(s, 28, inclusive_size as nat, None, None) {
                Err(e) => Err(e),
                Ok((geoset_alpha, geoset_color, n)) => Ok(
                    (
                        GeosetAnimationView {
                            inclusive_size,
                            alpha: u32_at(s, 4),
                            flags: u32_at(s, 8),
                            color: words_at(s, 12, 3),
                            geoset_id: u32_at(s, 24),
                            geoset_alpha,
                            geoset_color,
                        },
                        n,
                    ),
                ),
            }
        }
    }

    open spec fn encoding(v: GeosetAnimationView) -> Seq<u8> {
        geoset_animation_header(v) + block_encoding(KGAO_TAG, v.geoset_alpha) + block_encoding(
            KGAC_TAG,
            v.geoset_color,
        )
    }

    fn try_from_ctx(src: &[u8]) -> (r: Result<(Self, usize), MdlxError>) {
        if src.len() < GEOSET_ANIMATION_HEADER_LEN {
            return Err(MdlxError::UnexpectedEof);
        }
        let inclusive_size = get_u32(src, 0);
        let alpha = get_u32(src, 4);
        let flags = get_u32(src, 8);
        let color = get_words::<3>(src, 12);
        let geoset_id = get_u32(src, 24);
        match read_geoset_blocks(src, GEOSET_ANIMATION_HEADER_LEN, inclusive_size) {
            Ok((geoset_alpha, geoset_color, n)) => Ok(
                (
                    GeosetAnimation {
                        inclusive_size,
                        alpha,
                        flags,
                        color,
                        geoset_id,
                        geoset_alpha,
                        geoset_color,
                    },
                    n,
                ),
            ),
            Err(e) => Err(e),
        }
    }

    fn total_bytes_size(&self) -> (r: Option<usize>) {
        proof {
            assert(self.color@.len() == 3);
            lemma_geoset_animation_header_len(self@);
        }
        let a = match block_size(KGAO_TAG, &self.geoset_alpha) {
            Some(n) => n,
            None => {
                return None;
            },
        };
        let c = match block_size(KGAC_TAG, &self.geoset_color) {
            Some(n) => n,
            None => {
                return None;
            },
        };
        match a.checked_add(c) {
            Some(blocks) => blocks.checked_add(GEOSET_ANIMATION_HEADER_LEN),
            None => None,
        }
    }

    fn try_into_ctx(&self, dst: &mut Vec<u8>, offset: usize) -> (r: Result<usize, MdlxError>) {
        let room: usize = dst.len();
        let size = match self.total_bytes_size() {
            Some(size) => size,
            None => {
                return Err(MdlxError::BufferTooSmall);
            },
        };
        if offset > room || room - offset < size {
            return Err(MdlxError::BufferTooSmall);
        }
        let ghost base = dst@;
        let ghost mut acc = Seq::<u8>::empty();
        proof {
            assert(self.color@.len() == 3);
            lemma_geoset_animation_header_len(self@);
            lemma_splice_nothing(base, offset as int);
        }
        let pos = emit_u32(dst, Ghost(base), Ghost(acc), offset, offset, self.inclusive_size);
        proof {
            acc = acc + le32(self.inclusive_size);
        }
        let pos = emit_u32(dst, Ghost(base), Ghost(acc), offset, pos, self.alpha);
        proof {
            acc = acc + le32(self.alpha);
        }
        let pos = emit_u32(dst, Ghost(base), Ghost(acc), offset, pos, self.flags);
        proof {
            acc = acc + le32(self.flags);
        }
        let pos = emit_words(dst, Ghost(base), Ghost(acc), offset, pos, &self.color);
        proof {
            acc = acc + words_le(self.color@);
        }
        let pos = emit_u32(dst, Ghost(base), Ghost(acc), offset, pos, self.geoset_id);
        proof {
            acc = acc + le32(self.geoset_id);
            assert(acc =~= geoset_animation_header(self@));
        }
        let pos = emit_block(dst, Ghost(base), Ghost(acc), offset, pos, KGAO_TAG, &self.geoset_alpha);
        proof {
            acc = acc + block_encoding(KGAO_TAG, opt_view(self.geoset_alpha));
        }
        emit_block(dst, Ghost(base), Ghost(acc), offset, pos, KGAC_TAG, &self.geoset_color);
        Ok(size)
    }

    proof fn lemma_parse_bounds(s: Seq<u8>) {
        if s.len() >= 28 {
            lemma_parse_geoset_blocks_bounds(s, 28, u32_at(s, 0) as nat, None, None);
        }
    }
}

impl SelfDelimited for GeosetAnimation {
    open spec fn declared_size(v: GeosetAnimationView) -> nat {
        v.inclusive_size as nat
    }

    fn declared(&self) -> (r: u64) {
        self.inclusive_size as u64
    }
}

/// The list of the model's geoset animations.
#[derive(Clone, Debug, PartialEq)]
pub struct GeosetAnimationChunk {
    pub chunk_size: u32,
    pub data: Vec<GeosetAnimation>,
}

impl View for GeosetAnimationChunk {
    type V = ListView<GeosetAnimationView>;

    open spec fn view(&self) -> ListView<GeosetAnimationView> {
        ListView { chunk_size: self.chunk_size, data: views(self.data@) }
    }
}

impl Chunk for GeosetAnimationChunk {
    open spec fn payload_len(v: ListView<GeosetAnimationView>) -> nat {
        list_encoding::<GeosetAnimation>(v.data).len()
    }

    open spec fn resized(v: ListView<GeosetAnimationView>) -> ListView<GeosetAnimationView> {
        ListView { chunk_size: list_encoding::<GeosetAnimation>(v.data).len() as u32, data: v.data }
    }

    fn payload_fits(&self) -> (r: bool) {
        list_payload::<GeosetAnimation>(&self.data).is_ok()
    }

    fn calculate_chunk_size(&mut self) -> (r: Result<(), MdlxError>) {
        match list_payload::<GeosetAnimation>(&self.data) {
            Ok(n) => {
                self.chunk_size = n;
                Ok(())
            },
            Err(e) => Err(e),
        }
    }

    proof fn lemma_payload_len(v: ListView<GeosetAnimationView>) {
        lemma_le32_len(v.chunk_size);
    }
}

impl Codec for GeosetAnimationChunk {
    open spec fn parse(s: Seq<u8>) -> Result<(ListView<GeosetAnimationView>, nat), MdlxError> {
        parse_sized_list::<GeosetAnimation>(s)
    }

    open spec fn encoding(v: ListView<GeosetAnimationView>) -> Seq<u8> {
        list_chunk_encoding::<GeosetAnimation>(v)
    }

    fn try_from_ctx(src: &[u8]) -> (r: Result<(Self, usize), MdlxError>) {
        match read_sized_list::<GeosetAnimation>(src) {
            Ok((chunk_size, data, n)) => Ok((GeosetAnimationChunk { chunk_size, data }, n)),
            Err(e) => Err(e),
        }
    }

    fn total_bytes_size(&self) -> (r: Option<usize>) {
        list_chunk_size::<GeosetAnimation>(self.chunk_size, &self.data)
    }

    fn try_into_ctx(&self, dst: &mut Vec<u8>, offset: usize) -> (r: Result<usize, MdlxError>) {
        write_list_chunk::<GeosetAnimation>(self.chunk_size, &self.data, dst, offset)
    }

    proof fn lemma_parse_bounds(s: Seq<u8>) {
        if s.len() >= 4 {
            lemma_parse_until_bounds::<GeosetAnimation>(s.skip(4), 0, u32_at(s, 0) as nat);
        }
    }
}

/// An alpha that stands at `pos`, or none, is decoded and put in place.
pub proof fn lemma_alpha_step(
    s: Seq<u8>,
    pos: nat,
    limit: nat,
    alpha: Option<TransformView>,
    color: Option<TransformView>,
    block: Option<TransformView>,
    tail: Seq<u8>,
)
    requires
        pos <= s.len(),
        s.skip(pos as int) == block_encoding(KGAO_TAG, block) + tail,
        block_well_formed(block, 1),
        pos + block_encoding(KGAO_TAG, block).len() <= limit,
    ensures
        parse_geoset_blocks(s, pos, limit, alpha, color) == parse_geoset_blocks(
            s,
            pos + block_encoding(KGAO_TAG, block).len(),
            limit,
            match block {
                Some(t) => Some(t),
                None => alpha,
            },
            color,
        ),
{
    if let Some(t) = block {
        lemma_block_step(s, pos, KGAO_TAG, t, 1, tail);
    }
}

/// A color that stands at `pos`, or none, is decoded and put in place.
pub proof fn lemma_color_step(
    s: Seq<u8>,
    pos: nat,
    limit: nat,
    alpha: Option<TransformView>,
    color: Option<TransformView>,
    block: Option<TransformView>,
    tail: Seq<u8>,
)
    requires
        pos <= s.len(),
        s.skip(pos as int) == block_encoding(KGAC_TAG, block) + tail,
        block_well_formed(block, 3),
        pos + block_encoding(KGAC_TAG, block).len() <= limit,
    ensures
        parse_geoset_blocks(s, pos, limit, alpha, color) == parse_geoset_blocks(
            s,
            pos + block_encoding(KGAC_TAG, block).len(),
            limit,
            alpha,
            match block {
                Some(t) => Some(t),
                None => color,
            },
        ),
{
    if let Some(t) = block {
        lemma_block_step(s, pos, KGAC_TAG, t, 3, tail);
    }
}

/// The animated properties that are decoded from a geoset animation are
/// well formed, if those found before are.
pub proof fn lemma_geoset_blocks_parsed(
    s: Seq<u8>,
    pos: nat,
    limit: nat,
    alpha: Option<TransformView>,
    color: Option<TransformView>,
)
    requires
        block_well_formed(alpha, 1),
        block_well_formed(color, 3),
        pos <= s.len(),
    ensures
        parse_geoset_blocks(s, pos, limit, alpha, color) matches Ok((a, c, _)) ==> block_well_formed(a, 1)
            && block_well_formed(c, 3),
    decreases s.len() - pos,
{
    if pos < limit && pos + 4 <= s.len() {
        let tag = u32_at(s, pos as int);
        let body = s.skip(pos + 4 as int);
        if tag == KGAO_TAG {
            if let Ok((t, n)) = parse_transform(body, 1) {
                Transform::<1>::lemma_parse_bounds(body);
                lemma_transform_parsed(body, 1);
                lemma_geoset_blocks_parsed(s, pos + 4 + n, limit, Some(t), color);
            }
        } else if tag == KGAC_TAG {
            if let Ok((t, n)) = parse_transform(body, 3) {
                Transform::<3>::lemma_parse_bounds(body);
                lemma_transform_parsed(body, 3);
                lemma_geoset_blocks_parsed(s, pos + 4 + n, limit, alpha, Some(t));
            }
        }
    }
}

impl Lossless for GeosetAnimation {
    open spec fn well_formed(v: GeosetAnimationView) -> bool {
        &&& v.color.len() == 3
        &&& block_well_formed(v.geoset_alpha, 1)
        &&& block_well_formed(v.geoset_color, 3)
        &&& v.inclusive_size == GeosetAnimation::encoding(v).len()
    }

    open spec fn sizes_right(v: GeosetAnimationView) -> bool {
        v.inclusive_size == GeosetAnimation::encoding(v).len()
    }

    proof fn lemma_parsed(s: Seq<u8>) {
        if s.len() >= 28 {
            lemma_geoset_blocks_parsed(s, 28, u32_at(s, 0) as nat, None, None);
        }
    }

    proof fn lemma_round_trip(v: GeosetAnimationView, rest: Seq<u8>) {
        let s = Self::encoding(v) + rest;
        let a = block_encoding(KGAO_TAG, v.geoset_alpha);
        let b = block_encoding(KGAC_TAG, v.geoset_color);
        lemma_geoset_animation_header_len(v);
        lemma_le32_len(v.inclusive_size);
        lemma_le32_len(v.alpha);
        lemma_le32_len(v.flags);
        lemma_words_le_len(v.color);
        lemma_le32_len(v.geoset_id);
        assert(s.subrange(0, 4) =~= le32(v.inclusive_size));
        lemma_u32_at_le32(s, 0, v.inclusive_size);
        assert(s.subrange(4, 8) =~= le32(v.alpha));
        lemma_u32_at_le32(s, 4, v.alpha);
        assert(s.subrange(8, 12) =~= le32(v.flags));
        lemma_u32_at_le32(s, 8, v.flags);
        assert(s.subrange(12, 24) =~= words_le(v.color));
        lemma_words_at_le(s, 12, v.color);
        assert(s.subrange(24, 28) =~= le32(v.geoset_id));
        lemma_u32_at_le32(s, 24, v.geoset_id);
        let limit = v.inclusive_size as nat;
        assert(s.skip(28) =~= a + (b + rest));
        lemma_alpha_step(s, 28, limit, None, None, v.geoset_alpha, b + rest);
        let pos1 = (28 + a.len()) as nat;
        lemma_skip_past(s, 28, a, b + rest);
        lemma_color_step(s, pos1, limit, v.geoset_alpha, None, v.geoset_color, rest);
    }
}

impl Lossless for GeosetAnimationChunk {
    open spec fn well_formed(v: ListView<GeosetAnimationView>) -> bool {
        &&& forall|i: int| 0 <= i < v.data.len() ==> GeosetAnimation::well_formed(#[trigger] v.data[i])
        &&& v.chunk_size == list_encoding::<GeosetAnimation>(v.data).len()
    }

    open spec fn sizes_right(v: ListView<GeosetAnimationView>) -> bool {
        &&& forall|i: int|
            0 <= i < v.data.len() ==> GeosetAnimation::sizes_right(#[trigger] v.data[i])
        &&& v.chunk_size == list_encoding::<GeosetAnimation>(v.data).len()
    }

    proof fn lemma_parsed(s: Seq<u8>) {
        if s.len() >= 4 {
            lemma_until_parsed::<GeosetAnimation>(s.skip(4), 0, u32_at(s, 0) as nat);
        }
    }

    proof fn lemma_round_trip(v: ListView<GeosetAnimationView>, rest: Seq<u8>) {
        lemma_sized_list_round_trip::<GeosetAnimation>(v, rest);
    }
}

} // verus!
