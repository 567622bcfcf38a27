//! Textures and texture animations.

use vstd::prelude::*;
use crate::animation::{
    channels_encoding, channels_size, channels_well_formed, emit_channels, lemma_channels_parsed,
    lemma_channels_round_trip, lemma_parse_channels_bounds, parse_channels, read_channels,
    ChannelsView, ChannelTags, Transform, TransformView,
};
use crate::codec::{
    lemma_fixed_list_parsed, lemma_fixed_list_round_trip, lemma_parse_count_bounds,
    lemma_parse_until_bounds, lemma_sized_list_round_trip, lemma_until_parsed, list_chunk_encoding,
    list_chunk_size, list_encoding, list_payload, opt_view, parse_fixed_list, parse_sized_list,
    read_fixed_list, read_sized_list, views, write_list_chunk, Chunk, Codec, ListView, Lossless,
    SelfDelimited,
};
use crate::error::MdlxError;
use crate::primitives::{
    emit_name, emit_u32, get_u32, le32, lemma_le32_len, lemma_parse_name_field,
    lemma_parsed_name_fits, lemma_splice_nothing, lemma_u32_at_le32, name_field, name_fits,
    parse_name, read_name, u32_at,
};
use crate::tags::{KTAR_TAG, KTAS_TAG, KTAT_TAG};

verus! {

/// The width of a texture's file name field.
pub const TEXTURE_NAME_LEN: usize = 256;

/// The number of bytes of an encoded texture.
pub const TEXTURE_LEN: usize = 268;

/// A texture: the file it comes from, or the replaceable slot it fills.
#[derive(Clone, Debug, PartialEq, Eq)]
pub struct Texture {
    pub replaceable_id: u32,
    /// At most 256 bytes of UTF-8 without a zero byte.
    pub file_name: String,
    pub unknown: u32,
    pub flags: u32,
}

/// A texture as a mathematical value.
pub struct TextureView {
    pub replaceable_id: u32,
    pub file_name: Seq<char>,
    pub unknown: u32,
    pub flags: u32,
}

impl View for Texture {
    type V = TextureView;

    open spec fn view(&self) -> TextureView {
        TextureView {
            replaceable_id: self.replaceable_id,
            file_name: self.file_name@,
            unknown: self.unknown,
            flags: self.flags,
        }
    }
}

/// The length of a texture's encoding.
pub proof fn lemma_texture_len(v: TextureView)
    ensures
        Texture::encoding(v).len() == 268,
{
    lemma_le32_len(v.replaceable_id);
    lemma_le32_len(v.unknown);
    lemma_le32_len(v.flags);
}

impl Codec for Texture {
    open spec fn parse(s: Seq<u8>) -> Result<(TextureView, nat), MdlxError> {
        if s.len() < 268 {
            Err(MdlxError::UnexpectedEof)
        } else {
            match parse_name(s.subrange(4, 260)) {
                Err(e) => Err(e),
                Ok(file_name) => Ok(
                    (
                        TextureView {
                            replaceable_id: u32_at(s, 0),
                            file_name,
                            unknown: u32_at(s, 260),
                            flags: u32_at(s, 264),
                        },
                        268,
                    ),
                ),
            }
        }
    }

    open spec fn encoding(v: TextureView) -> Seq<u8> {
        le32(v.replaceable_id) + name_field(v.file_name, 256) + le32(v.unknown) + le32(v.flags)
    }

    fn try_from_ctx(src: &[u8]) -> (r: Result<(Self, usize), MdlxError>) {
        if src.len() < TEXTURE_LEN {
            return Err(MdlxError::UnexpectedEof);
        }
        let replaceable_id = get_u32(src, 0);
        let file_name = match read_name(src, 4, TEXTURE_NAME_LEN) {
            Ok(name) => name,
            Err(e) => {
                return Err(e);
            },
        };
        let unknown = get_u32(src, 260);
        let flags = get_u32(src, 264);
        Ok((Texture { replaceable_id, file_name, unknown, flags }, TEXTURE_LEN))
    }

    fn total_bytes_size(&self) -> (r: Option<usize>) {
        proof {
            lemma_texture_len(self@);
        }
        Some(TEXTURE_LEN)
    }

    fn try_into_ctx(&self, dst: &mut Vec<u8>, offset: usize) -> (r: Result<usize, MdlxError>) {
        proof {
            lemma_texture_len(self@);
        }
        let room: usize = dst.len();
        if offset > room || room - offset < TEXTURE_LEN {
            return Err(MdlxError::BufferTooSmall);
        }
        let ghost base = dst@;
        let ghost mut acc = Seq::<u8>::empty();
        proof {
            lemma_splice_nothing(base, offset as int);
        }
        let pos = emit_u32(dst, Ghost(base), Ghost(acc), offset, offset, self.replaceable_id);
        proof {
            acc = acc + le32(self.replaceable_id);
        }
        let pos = emit_name(dst, Ghost(base), Ghost(acc), offset, pos, self.file_name.as_str(), TEXTURE_NAME_LEN);
        proof {
            acc = acc + name_field(self.file_name@, 256);
        }
        let pos = emit_u32(dst, Ghost(base), Ghost(acc), offset, pos, self.unknown);
        proof {
            acc = acc + le32(self.unknown);
        }
        emit_u32(dst, Ghost(base), Ghost(acc), offset, pos, self.flags);
        proof {
            acc = acc + le32(self.flags);
            assert(acc =~= Self::encoding(self@));
        }
        Ok(TEXTURE_LEN)
    }

    proof fn lemma_parse_bounds(s: Seq<u8>) {
    }
}

/// The list of the model's textures.
#[derive(Clone, Debug, PartialEq, Eq)]
pub struct TextureChunk {
    pub chunk_size: u32,
    pub data: Vec<Texture>,
}

impl View for TextureChunk {
    type V = ListView<TextureView>;

    open spec fn view(&self) -> ListView<TextureView> {
        ListView { chunk_size: self.chunk_size, data: views(self.data@) }
    }
}

impl Chunk for TextureChunk {
    open spec fn payload_len(v: ListView<TextureView>) -> nat {
        list_encoding::<Texture>(v.data).len()
    }

    open spec fn resized(v: ListView<TextureView>) -> ListView<TextureView> {
        ListView { chunk_size: list_encoding::<Texture>(v.data).len() as u32, data: v.data }
    }

    fn payload_fits(&self) -> (r: bool) {
        list_payload::<Texture>(&self.data).is_ok()
    }

    fn calculate_chunk_size(&mut self) -> (r: Result<(), MdlxError>) {
        match list_payload::<Texture>(&self.data) {
            Ok(n) => {
                self.chunk_size = n;
                Ok(())
            },
            Err(e) => Err(e),
        }
    }

    proof fn lemma_payload_len(v: ListView<TextureView>) {
        lemma_le32_len(v.chunk_size);
    }
}

impl Codec for TextureChunk {
    open spec fn parse(s: Seq<u8>) -> Result<(ListView<TextureView>, nat), MdlxError> {
        parse_fixed_list::<Texture>(s, 268)
    }

    open spec fn encoding(v: ListView<TextureView>) -> Seq<u8> {
        list_chunk_encoding::<Texture>(v)
    }

    fn try_from_ctx(src: &[u8]) -> (r: Result<(Self, usize), MdlxError>) {
        match read_fixed_list::<Texture>(src, 268) {
            Ok((chunk_size, data, n)) => Ok((TextureChunk { chunk_size, data }, n)),
            Err(e) => Err(e),
        }
    }

    fn total_bytes_size(&self) -> (r: Option<usize>) {
        list_chunk_size::<Texture>(self.chunk_size, &self.data)
    }

    fn try_into_ctx(&self, dst: &mut Vec<u8>, offset: usize) -> (r: Result<usize, MdlxError>) {
        write_list_chunk::<Texture>(self.chunk_size, &self.data, dst, offset)
    }

    proof fn lemma_parse_bounds(s: Seq<u8>) {
        if s.len() >= 4 {
            lemma_parse_count_bounds::<Texture>(s.skip(4), u32_at(s, 0) as nat / 268);
        }
    }
}

/// The tags of the animated properties of a texture animation.
pub open spec fn texture_tags() -> ChannelTags {
    ChannelTags { translation: KTAT_TAG, rotation: KTAR_TAG, scaling: KTAS_TAG }
}

/// The tags of the animated properties of a texture animation.
#[verifier::when_used_as_spec(texture_tags)]
pub fn texture_channel_tags() -> (r: ChannelTags)
    ensures
        r == texture_tags(),
{
    ChannelTags { translation: KTAT_TAG, rotation: KTAR_TAG, scaling: KTAS_TAG }
}

/// The animation of a texture's placement: a translation, a rotation and a
/// scaling, each of which may be absent.
#[derive(Clone, Debug, PartialEq)]
pub struct TextureAnimation {
    /// The number of bytes of the record, this field included.
    pub inclusive_size: u32,
    pub translation: Option<Transform<3>>,
    pub rotation: Option<Transform<4>>,
    pub scaling: Option<Transform<3>>,
}

/// A texture animation as a mathematical value.
pub struct TextureAnimationView {
    pub inclusive_size: u32,
    pub translation: Option<TransformView>,
    pub rotation: Option<TransformView>,
    pub scaling: Option<TransformView>,
}

impl TextureAnimationView {
    /// The animated properties of the record.
    pub open spec fn channels(self) -> ChannelsView {
        ChannelsView { translation: self.translation, rotation: self.rotation, scaling: self.scaling }
    }
}

impl View for TextureAnimation {
    type V = TextureAnimationView;

    open spec fn view(&self) -> TextureAnimationView {
        TextureAnimationView {
            inclusive_size: self.inclusive_size,
            translation: opt_view(self.translation),
            rotation: opt_view(self.rotation),
            scaling: opt_view(self.scaling),
        }
    }
}

impl Codec for TextureAnimation {
    open spec fn parse(s: Seq<u8>) -> Result<(TextureAnimationView, nat), MdlxError> {
        if s.len() < 4 {
            Err(MdlxError::UnexpectedEof)
        } else {
            let inclusive_size = u32_at(s, 0);
            match parse_channels(
                s,
                4,
                inclusive_size as nat,
                texture_tags(),
                ChannelsView { translation: None, rotation: None, scaling: None },
            ) {
                Err(e) => Err(e),
                Ok((c, n)) => Ok(
                    (
                        TextureAnimationView {
                            inclusive_size,
                            translation: c.translation,
                            rotation: c.rotation,
                            scaling: c.scaling,
                        },
                        n,
                    ),
                ),
            }
        }
    }

    open spec fn encoding(v: TextureAnimationView) -> Seq<u8> {
        le32(v.inclusive_size) + channels_encoding(texture_tags(), v.channels())
    }

    fn try_from_ctx(src: &[u8]) -> (r: Result<(Self, usize), MdlxError>) {
        if src.len() < 4 {
            return Err(MdlxError::UnexpectedEof);
        }
        let inclusive_size = get_u32(src, 0);
        match read_channels(src, 4, inclusive_size, texture_channel_tags()) {
            Ok((translation, rotation, scaling, n)) => Ok(
                (TextureAnimation { inclusive_size, translation, rotation, scaling }, n),
            ),
            Err(e) => Err(e),
        }
    }

    fn total_bytes_size(&self) -> (r: Option<usize>) {
        proof {
            lemma_le32_len(self.inclusive_size);
        }
        match channels_size(texture_channel_tags(), &self.translation, &self.rotation, &self.scaling) {
            Some(n) => n.checked_add(4),
            None => None,
        }
    }

    fn try_into_ctx(&self, dst: &mut Vec<u8>, offset: usize) -> (r: Result<usize, MdlxError>) {
        let room: usize = dst.len();
        let size = match self.total_bytes_size() {
            Some(size) => size,
            None => {
                return Err(MdlxError::BufferTooSmall);
            },
        };
        if offset > room || room - offset < size {
            return Err(MdlxError::BufferTooSmall);
        }
        let ghost base = dst@;
        proof {
            lemma_le32_len(self.inclusive_size);
            lemma_splice_nothing(base, offset as int);
        }
        let pos = emit_u32(dst, Ghost(base), Ghost(Seq::empty()), offset, offset, self.inclusive_size);
        proof {
            assert(Seq::<u8>::empty() + le32(self.inclusive_size) =~= le32(self.inclusive_size));
        }
        emit_channels(
            dst,
            Ghost(base),
            Ghost(le32(self.inclusive_size)),
            offset,
            pos,
            texture_channel_tags(),
            &self.translation,
            &self.rotation,
            &self.scaling,
        );
        Ok(size)
    }

    proof fn lemma_parse_bounds(s: Seq<u8>) {
        if s.len() >= 4 {
            lemma_parse_channels_bounds(
                s,
                4,
                u32_at(s, 0) as nat,
                texture_tags(),
                ChannelsView { translation: None, rotation: None, scaling: None },
            );
        }
    }
}

impl SelfDelimited for TextureAnimation {
    open spec fn declared_size(v: TextureAnimationView) -> nat {
        v.inclusive_size as nat
    }

    fn declared(&self) -> (r: u64) {
        self.inclusive_size as u64
    }
}

/// The list of the model's texture animations.
#[derive(Clone, Debug, PartialEq)]
pub struct TextureAnimationChunk {
    pub chunk_size: u32,
    pub data: Vec<TextureAnimation>,
}

impl View for TextureAnimationChunk {
    type V = ListView<TextureAnimationView>;

    open spec fn view(&self) -> ListView<TextureAnimationView> {
        ListView { chunk_size: self.chunk_size, data: views(self.data@) }
    }
}

impl Chunk for TextureAnimationChunk {
    open spec fn payload_len(v: ListView<TextureAnimationView>) -> nat {
        list_encoding::<TextureAnimation>(v.data).len()
    }

    open spec fn resized(v: ListView<TextureAnimationView>) -> ListView<TextureAnimationView> {
        ListView { chunk_size: list_encoding::<TextureAnimation>(v.data).len() as u32, data: v.data }
    }

    fn payload_fits(&self) -> (r: bool) {
        list_payload::<TextureAnimation>(&self.data).is_ok()
    }

    fn calculate_chunk_size(&mut self) -> (r: Result<(), MdlxError>) {
        match list_payload::<TextureAnimation>(&self.data) {
            Ok(n) => {
                self.chunk_size = n;
                Ok(())
            },
            Err(e) => Err(e),
        }
    }

    proof fn lemma_payload_len(v: ListView<TextureAnimationView>) {
        lemma_le32_len(v.chunk_size);
    }
}

impl Codec for TextureAnimationChunk {
    open spec fn parse(s: Seq<u8>) -> Result<(ListView<TextureAnimationView>, nat), MdlxError> {
        parse_sized_list::<TextureAnimation>(s)
    }

    open spec fn encoding(v: ListView<TextureAnimationView>) -> Seq<u8> {
        list_chunk_encoding::<TextureAnimation>(v)
    }

    fn try_from_ctx(src: &[u8]) -> (r: Result<(Self, usize), MdlxError>) {
        match read_sized_list::<TextureAnimation>(src) {
            Ok((chunk_size, data, n)) => Ok((TextureAnimationChunk { chunk_size, data }, n)),
            Err(e) => Err(e),
        }
    }

    fn total_bytes_size(&self) -> (r: Option<usize>) {
        list_chunk_size::<TextureAnimation>(self.chunk_size, &self.data)
    }

    fn try_into_ctx(&self, dst: &mut Vec<u8>, offset: usize) -> (r: Result<usize, MdlxError>) {
        write_list_chunk::<TextureAnimation>(self.chunk_size, &self.data, dst, offset)
    }

    proof fn lemma_parse_bounds(s: Seq<u8>) {
        if s.len() >= 4 {
            lemma_parse_until_bounds::<TextureAnimation>(s.skip(4), 0, u32_at(s, 0) as nat);
        }
    }
}

impl Lossless for Texture {
    open spec fn well_formed(v: TextureView) -> bool {
        name_fits(v.file_name, 256)
    }

    open spec fn sizes_right(v: TextureView) -> bool {
        true
    }

    proof fn lemma_parsed(s: Seq<u8>) {
        if s.len() >= 268 {
            lemma_parsed_name_fits(s.subrange(4, 260));
        }
    }

    proof fn lemma_round_trip(v: TextureView, rest: Seq<u8>) {
        let s = Self::encoding(v) + rest;
        lemma_le32_len(v.replaceable_id);
        lemma_parse_name_field(v.file_name, 256);
        lemma_le32_len(v.unknown);
        lemma_le32_len(v.flags);
        assert(s.subrange(0, 4) =~= le32(v.replaceable_id));
        lemma_u32_at_le32(s, 0, v.replaceable_id);
        assert(s.subrange(4, 260) =~= name_field(v.file_name, 256));
        assert(s.subrange(260, 264) =~= le32(v.unknown));
        lemma_u32_at_le32(s, 260, v.unknown);
        assert(s.subrange(264, 268) =~= le32(v.flags));
        lemma_u32_at_le32(s, 264, v.flags);
    }
}

impl Lossless for TextureChunk {
    open spec fn well_formed(v: ListView<TextureView>) -> bool {
        &&& forall|i: int| 0 <= i < v.data.len() ==> Texture::well_formed(#[trigger] v.data[i])
        &&& v.chunk_size == list_encoding::<Texture>(v.data).len()
    }

    open spec fn sizes_right(v: ListView<TextureView>) -> bool {
        true
    }

    proof fn lemma_parsed(s: Seq<u8>) {
        assert forall|v: TextureView| #[trigger] Texture::well_formed(v) implies Texture::encoding(
            v,
        ).len() == 268 by {
            lemma_texture_len(v);
        }
        lemma_fixed_list_parsed::<Texture>(s, 268);
    }

    proof fn lemma_round_trip(v: ListView<TextureView>, rest: Seq<u8>) {
        assert forall|i: int| 0 <= i < v.data.len() implies Texture::encoding(#[trigger] v.data[i]).len()
            == 268 by {
            lemma_texture_len(v.data[i]);
        }
        lemma_fixed_list_round_trip::<Texture>(v, 268, rest);
    }
}

impl Lossless for TextureAnimation {
    open spec fn well_formed(v: TextureAnimationView) -> bool {
        &&& channels_well_formed(v.channels())
        &&& v.inclusive_size == TextureAnimation::encoding(v).len()
    }

    open spec fn sizes_right(v: TextureAnimationView) -> bool {
        v.inclusive_size == TextureAnimation::encoding(v).len()
    }

    proof fn lemma_parsed(s: Seq<u8>) {
        if s.len() >= 4 {
            lemma_channels_parsed(
                s,
                4,
                u32_at(s, 0) as nat,
                texture_tags(),
                ChannelsView { translation: None, rotation: None, scaling: None },
            );
        }
    }

    proof fn lemma_round_trip(v: TextureAnimationView, rest: Seq<u8>) {
        let s = Self::encoding(v) + rest;
        lemma_le32_len(v.inclusive_size);
        assert(s.subrange(0, 4) =~= le32(v.inclusive_size));
        lemma_u32_at_le32(s, 0, v.inclusive_size);
        assert(s.skip(4) =~= channels_encoding(texture_tags(), v.channels()) + rest);
        lemma_channels_round_trip(s, 4, texture_tags(), v.channels(), rest);
    }
}

impl Lossless for TextureAnimationChunk {
    open spec fn well_formed(v: ListView<TextureAnimationView>) -> bool {
        &&& forall|i: int| 0 <= i < v.data.len() ==> TextureAnimation::well_formed(#[trigger] v.data[i])
        &&& v.chunk_size == list_encoding::<TextureAnimation>(v.data).len()
    }

    open spec fn sizes_right(v: ListView<TextureAnimationView>) -> bool {
        &&& forall|i: int|
            0 <= i < v.data.len() ==> TextureAnimation::sizes_right(#[trigger] v.data[i])
        &&& v.chunk_size == list_encoding::<TextureAnimation>(v.data).len()
    }

    proof fn lemma_parsed(s: Seq<u8>) {
        if s.len() >= 4 {
            lemma_until_parsed::<TextureAnimation>(s.skip(4), 0, u32_at(s, 0) as nat);
        }
    }

    proof fn lemma_round_trip(v: ListView<TextureAnimationView>, rest: Seq<u8>) {
        lemma_sized_list_round_trip::<TextureAnimation>(v, rest);
    }
}

} // verus!
