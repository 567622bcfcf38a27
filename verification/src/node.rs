//! The skeleton: nodes, the bones and helpers that are made of them, and
//! the pivot points they turn about.

use vstd::prelude::*;
use crate::animation::{
    channels_encoding, channels_size, channels_well_formed, emit_channels, lemma_channels_parsed,
    lemma_channels_round_trip, lemma_parse_channels_bounds, parse_channels, read_channels,
    ChannelsView, ChannelTags, Transform, TransformView,
};
use crate::codec::{
    lemma_fixed_list_parsed, lemma_fixed_list_round_trip, lemma_parse_count_bounds,
    lemma_parse_until_bounds, lemma_sized_list_round_trip, lemma_until_parsed, list_chunk_encoding,
    list_chunk_size, list_encoding, list_payload, opt_view, parse_fixed_list, parse_sized_list,
    read_fixed_list, read_sized_list, views, write_list_chunk, Chunk, Codec, ListView, Lossless,
    SelfDelimited,
};
use crate::error::MdlxError;
use crate::primitives::{
    emit_name, emit_u32, emit_words, get_u32, get_words, le32, lemma_le32_len,
    lemma_parse_name_field, lemma_parsed_name_fits, lemma_splice_nothing, lemma_u32_at_le32,
    lemma_words_at_le, lemma_words_le_len, name_field, name_fits, parse_name, read_name, u32_at,
    words_at, words_le,
};
use crate::tags::{KGRT_TAG, KGSC_TAG, KGTR_TAG};

verus! {

/// The width of a node's name field.
pub const NODE_NAME_LEN: usize = 80;

/// The number of bytes of a node's fixed fields: size, name, ids and flags.
pub const NODE_HEADER_LEN: usize = 96;

/// The number of bytes of an encoded pivot point.
pub const PIVOT_POINT_LEN: usize = 12;

/// The tags of the animated properties of a node.
pub open spec fn node_tags() -> ChannelTags {
    ChannelTags { translation: KGTR_TAG, rotation: KGRT_TAG, scaling: KGSC_TAG }
}

/// The tags of the animated properties of a node.
#[verifier::when_used_as_spec(node_tags)]
pub fn node_channel_tags() -> (r: ChannelTags)
    ensures
        r == node_tags(),
{
    ChannelTags { translation: KGTR_TAG, rotation: KGRT_TAG, scaling: KGSC_TAG }
}

/// A joint of the skeleton: its place in the hierarchy and the animation of
/// its translation, rotation and scaling, each of which may be absent.
#[derive(Clone, Debug, PartialEq)]
pub struct Node {
    /// The number of bytes of the node, this field included.
    pub inclusive_size: u32,
    /// At most 80 bytes of UTF-8 without a zero byte.
    pub name: String,
    pub object_id: u32,
    pub parent_id: u32,
    pub flags: u32,
    pub translation: Option<Transform<3>>,
    pub rotation: Option<Transform<4>>,
    pub scaling: Option<Transform<3>>,
}

/// A node as a mathematical value.
pub struct NodeView {
    pub inclusive_size: u32,
    pub name: Seq<char>,
    pub object_id: u32,
    pub parent_id: u32,
    pub flags: u32,
    pub translation: Option<TransformView>,
    pub rotation: Option<TransformView>,
    pub scaling: Option<TransformView>,
}

impl NodeView {
    /// The animated properties of the node.
    pub open spec fn channels(self) -> ChannelsView {
        ChannelsView { translation: self.translation, rotation: self.rotation, scaling: self.scaling }
    }
}

impl View for Node {
    type V = NodeView;

    open spec fn view(&self) -> NodeView {
        NodeView {
            inclusive_size: self.inclusive_size,
            name: self.name@,
            object_id: self.object_id,
            parent_id: self.parent_id,
            flags: self.flags,
            translation: opt_view(self.translation),
            rotation: opt_view(self.rotation),
            scaling: opt_view(self.scaling),
        }
    }
}

/// The bytes of a node's fixed fields.
pub open spec fn node_header(v: NodeView) -> Seq<u8> {
    le32(v.inclusive_size) + name_field(v.name, 80) + le32(v.object_id) + le32(v.parent_id) + le32(
        v.flags,
    )
}

/// The fixed fields of a node take 96 bytes.
pub proof fn lemma_node_header_len(v: NodeView)
    ensures
        node_header(v).len() == 96,
{
    lemma_le32_len(v.inclusive_size);
    lemma_le32_len(v.object_id);
    lemma_le32_len(v.parent_id);
    lemma_le32_len(v.flags);
}

impl Codec for Node {
    open spec fn parse(s: Seq<u8>) -> Result<(NodeView, nat), MdlxError> {
        if s.len() < 96 {
            Err(MdlxError::UnexpectedEof)
        } else {
            match parse_name(s.subrange(4, 84)) {
                Err(e) => Err(e),
                Ok(name) => {
                    let inclusive_size = u32_at(s, 0);
                    match parse_channels(
                        s,
                        96,
                        inclusive_size as nat,
                        node_tags(),
                        ChannelsView { translation: None, rotation: None, scaling: None },
                    ) {
                        Err(e) => Err(e),
                        Ok((c, n)) => Ok(
                            (
                                NodeView {
                                    inclusive_size,
                                    name,
                                    object_id: u32_at(s, 84),
                                    parent_id: u32_at(s, 88),
                                    flags: u32_at(s, 92),
                                    translation: c.translation,
                                    rotation: c.rotation,
                                    scaling: c.scaling,
                                },
                                n,
                            ),
                        ),
                    }
                },
            }
        }
    }

    open spec fn encoding(v: NodeView) -> Seq<u8> {
        node_header(v) + channels_encoding(node_tags(), v.channels())
    }

    fn try_from_ctx(src: &[u8]) -> (r: Result<(Self, usize), MdlxError>) {
        if src.len() < NODE_HEADER_LEN {
            return Err(MdlxError::UnexpectedEof);
        }
        let inclusive_size = get_u32(src, 0);
        let name = match read_name(src, 4, NODE_NAME_LEN) {
            Ok(name) => name,
            Err(e) => {
                return Err(e);
            },
        };
        let object_id = get_u32(src, 84);
        let parent_id = get_u32(src, 88);
        let flags = get_u32(src, 92);
        match read_channels(src, NODE_HEADER_LEN, inclusive_size, node_channel_tags()) {
            Ok((translation, rotation, scaling, n)) => Ok(
                (
                    Node {
                        inclusive_size,
                        name,
                        object_id,
                        parent_id,
                        flags,
                        translation,
                        rotation,
                        scaling,
                    },
                    n,
                ),
            ),
            Err(e) => Err(e),
        }
    }

    fn total_bytes_size(&self) -> (r: Option<usize>) {
        proof {
            lemma_node_header_len(self@);
        }
        match channels_size(node_channel_tags(), &self.translation, &self.rotation, &self.scaling) {
            Some(n) => n.checked_add(NODE_HEADER_LEN),
            None => None,
        }
    }

    fn try_into_ctx(&self, dst: &mut Vec<u8>, offset: usize) -> (r: Result<usize, MdlxError>) {
        let room: usize = dst.len();
        let size = match self.total_bytes_size() {
            Some(size) => size,
            None => {
                return Err(MdlxError::BufferTooSmall);
            },
        };
        if offset > room || room - offset < size {
            return Err(MdlxError::BufferTooSmall);
        }
        let ghost base = dst@;
        let ghost mut acc = Seq::<u8>::empty();
        proof {
            lemma_node_header_len(self@);
            lemma_splice_nothing(base, offset as int);
        }
        let pos = emit_u32(dst, Ghost(base), Ghost(acc), offset, offset, self.inclusive_size);
        proof {
            acc = acc + le32(self.inclusive_size);
        }
        let pos = emit_name(dst, Ghost(base), Ghost(acc), offset, pos, self.name.as_str(), NODE_NAME_LEN);
        proof {
            acc = acc + name_field(self.name@, 80);
        }
        let pos = emit_u32(dst, Ghost(base), Ghost(acc), offset, pos, self.object_id);
        proof {
            acc = acc + le32(self.object_id);
        }
        let pos = emit_u32(dst, Ghost(base), Ghost(acc), offset, pos, self.parent_id);
        proof {
            acc = acc + le32(self.parent_id);
        }
        let pos = emit_u32(dst, Ghost(base), Ghost(acc), offset, pos, self.flags);
        proof {
            acc = acc + le32(self.flags);
            assert(acc =~= node_header(self@));
        }
        emit_channels(
            dst,
            Ghost(base),
            Ghost(acc),
            offset,
            pos,
            node_channel_tags(),
            &self.translation,
            &self.rotation,
            &self.scaling,
        );
        Ok(size)
    }

    proof fn lemma_parse_bounds(s: Seq<u8>) {
        if s.len() >= 96 {
            lemma_parse_channels_bounds(
                s,
                96,
                u32_at(s, 0) as nat,
                node_tags(),
                ChannelsView { translation: None, rotation: None, scaling: None },
            );
        }
    }
}

/// A bone: a node that moves the vertices of a geoset.
#[derive(Clone, Debug, PartialEq)]
pub struct Bone {
    pub node: Node,
    pub geoset_id: u32,
    pub geoset_animation_id: u32,
}

/// A bone as a mathematical value.
pub struct BoneView {
    pub node: NodeView,
    pub geoset_id: u32,
    pub geoset_animation_id: u32,
}

impl View for Bone {
    type V = BoneView;

    open spec fn view(&self) -> BoneView {
        BoneView {
            node: self.node@,
            geoset_id: self.geoset_id,
            geoset_animation_id: self.geoset_animation_id,
        }
    }
}

impl Codec for Bone {
    open spec fn parse(s: Seq<u8>) -> Result<(BoneView, nat), MdlxError> {
        match Node::parse(s) {
            Err(e) => Err(e),
            Ok((node, n)) => if s.len() < n + 8 {
                Err(MdlxError::UnexpectedEof)
            } else {
                Ok(
                    (
                        BoneView {
                            node,
                            geoset_id: u32_at(s, n as int),
                            geoset_animation_id: u32_at(s, n as int + 4),
                        },
                        n + 8,
                    ),
                )
            },
        }
    }

    open spec fn encoding(v: BoneView) -> Seq<u8> {
        Node::encoding(v.node) + le32(v.geoset_id) + le32(v.geoset_animation_id)
    }

    fn try_from_ctx(src: &[u8]) -> (r: Result<(Self, usize), MdlxError>) {
        let (node, n) = match Node::try_from_ctx(src) {
            Ok(found) => found,
            Err(e) => {
                return Err(e);
            },
        };
        proof {
            Node::lemma_parse_bounds(src@);
        }
        if src.len() - n < 8 {
            return Err(MdlxError::UnexpectedEof);
        }
        let geoset_id = get_u32(src, n);
        let geoset_animation_id = get_u32(src, n + 4);
        Ok((Bone { node, geoset_id, geoset_animation_id }, n + 8))
    }

    fn total_bytes_size(&self) -> (r: Option<usize>) {
        proof {
            lemma_le32_len(self.geoset_id);
            lemma_le32_len(self.geoset_animation_id);
        }
        match self.node.total_bytes_size() {
            Some(n) => n.checked_add(8),
            None => None,
        }
    }

    fn try_into_ctx(&self, dst: &mut Vec<u8>, offset: usize) -> (r: Result<usize, MdlxError>) {
        let room: usize = dst.len();
        let size = match self.total_bytes_size() {
            Some(size) => size,
            None => {
                return Err(MdlxError::BufferTooSmall);
            },
        };
        if offset > room || room - offset < size {
            return Err(MdlxError::BufferTooSmall);
        }
        let ghost base = dst@;
        proof {
            lemma_le32_len(self.geoset_id);
            lemma_le32_len(self.geoset_animation_id);
        }
        let n = match self.node.try_into_ctx(dst, offset) {
            Ok(n) => n,
            Err(_) => {
                assert(false);
                0
            },
        };
        let pos = emit_u32(dst, Ghost(base), Ghost(Node::encoding(self.node@)), offset, offset + n, self.geoset_id);
        emit_u32(
            dst,
            Ghost(base),
            Ghost(Node::encoding(self.node@) + le32(self.geoset_id)),
            offset,
            pos,
            self.geoset_animation_id,
        );
        Ok(size)
    }

    proof fn lemma_parse_bounds(s: Seq<u8>) {
        Node::lemma_parse_bounds(s);
    }
}

impl SelfDelimited for Bone {
    open spec fn declared_size(v: BoneView) -> nat {
        (v.node.inclusive_size + 8) as nat
    }

    fn declared(&self) -> (r: u64) {
        self.node.inclusive_size as u64 + 8
    }
}

/// The list of the model's bones.
#[derive(Clone, Debug, PartialEq)]
pub struct BoneChunk {
    pub chunk_size: u32,
    pub data: Vec<Bone>,
}

impl View for BoneChunk {
    type V = ListView<BoneView>;

    open spec fn view(&self) -> ListView<BoneView> {
        ListView { chunk_size: self.chunk_size, data: views(self.data@) }
    }
}

impl Chunk for BoneChunk {
    open spec fn payload_len(v: ListView<BoneView>) -> nat {
        list_encoding::<Bone>(v.data).len()
    }

    open spec fn resized(v: ListView<BoneView>) -> ListView<BoneView> {
        ListView { chunk_size: list_encoding::<Bone>(v.data).len() as u32, data: v.data }
    }

    fn payload_fits(&self) -> (r: bool) {
        list_payload::<Bone>(&self.data).is_ok()
    }

    fn calculate_chunk_size(&mut self) -> (r: Result<(), MdlxError>) {
        match list_payload::<Bone>(&self.data) {
            Ok(n) => {
                self.chunk_size = n;
                Ok(())
            },
            Err(e) => Err(e),
        }
    }

    proof fn lemma_payload_len(v: ListView<BoneView>) {
        lemma_le32_len(v.chunk_size);
    }
}

impl Codec for BoneChunk {
    open spec fn parse(s: Seq<u8>) -> Result<(ListView<BoneView>, nat), MdlxError> {
        parse_sized_list::<Bone>(s)
    }

    open spec fn encoding(v: ListView<BoneView>) -> Seq<u8> {
        list_chunk_encoding::<Bone>(v)
    }

    fn try_from_ctx(src: &[u8]) -> (r: Result<(Self, usize), MdlxError>) {
        match read_sized_list::<Bone>(src) {
            Ok((chunk_size, data, n)) => Ok((BoneChunk { chunk_size, data }, n)),
            Err(e) => Err(e),
        }
    }

    fn total_bytes_size(&self) -> (r: Option<usize>) {
        list_chunk_size::<Bone>(self.chunk_size, &self.data)
    }

    fn try_into_ctx(&self, dst: &mut Vec<u8>, offset: usize) -> (r: Result<usize, MdlxError>) {
        write_list_chunk::<Bone>(self.chunk_size, &self.data, dst, offset)
    }

    proof fn lemma_parse_bounds(s: Seq<u8>) {
        if s.len() >= 4 {
            lemma_parse_until_bounds::<Bone>(s.skip(4), 0, u32_at(s, 0) as nat);
        }
    }
}

/// A helper: a node that moves nothing itself and only groups other nodes.
#[derive(Clone, Debug, PartialEq)]
pub struct Helper {
    pub node: Node,
}

/// A helper as a mathematical value.
pub struct HelperView {
    pub node: NodeView,
}

impl View for Helper {
    type V = HelperView;

    open spec fn view(&self) -> HelperView {
        HelperView { node: self.node@ }
    }
}

impl Codec for Helper {
    open spec fn parse(s: Seq<u8>) -> Result<(HelperView, nat), MdlxError> {
        match Node::parse(s) {
            Err(e) => Err(e),
            Ok((node, n)) => Ok((HelperView { node }, n)),
        }
    }

    open spec fn encoding(v: HelperView) -> Seq<u8> {
        Node::encoding(v.node)
    }

    fn try_from_ctx(src: &[u8]) -> (r: Result<(Self, usize), MdlxError>) {
        match Node::try_from_ctx(src) {
            Ok((node, n)) => Ok((Helper { node }, n)),
            Err(e) => Err(e),
        }
    }

    fn total_bytes_size(&self) -> (r: Option<usize>) {
        self.node.total_bytes_size()
    }

    fn try_into_ctx(&self, dst: &mut Vec<u8>, offset: usize) -> (r: Result<usize, MdlxError>) {
        self.node.try_into_ctx(dst, offset)
    }

    proof fn lemma_parse_bounds(s: Seq<u8>) {
        Node::lemma_parse_bounds(s);
    }
}

impl SelfDelimited for Helper {
    open spec fn declared_size(v: HelperView) -> nat {
        v.node.inclusive_size as nat
    }

    fn declared(&self) -> (r: u64) {
        self.node.inclusive_size as u64
    }
}

/// The list of the model's helpers.
#[derive(Clone, Debug, PartialEq)]
pub struct HelperChunk {
    pub chunk_size: u32,
    pub data: Vec<Helper>,
}

impl View for HelperChunk {
    type V = ListView<HelperView>;

    open spec fn view(&self) -> ListView<HelperView> {
        ListView { chunk_size: self.chunk_size, data: views(self.data@) }
    }
}

impl Chunk for HelperChunk {
    open spec fn payload_len(v: ListView<HelperView>) -> nat {
        list_encoding::<Helper>(v.data).len()
    }

    open spec fn resized(v: ListView<HelperView>) -> ListView<HelperView> {
        ListView { chunk_size: list_encoding::<Helper>(v.data).len() as u32, data: v.data }
    }

    fn payload_fits(&self) -> (r: bool) {
        list_payload::<Helper>(&self.data).is_ok()
    }

    fn calculate_chunk_size(&mut self) -> (r: Result<(), MdlxError>) {
        match list_payload::<Helper>(&self.data) {
            Ok(n) => {
                self.chunk_size = n;
                Ok(())
            },
            Err(e) => Err(e),
        }
    }

    proof fn lemma_payload_len(v: ListView<HelperView>) {
        lemma_le32_len(v.chunk_size);
    }
}

impl Codec for HelperChunk {
    open spec fn parse(s: Seq<u8>) -> Result<(ListView<HelperView>, nat), MdlxError> {
        parse_sized_list::<Helper>(s)
    }

    open spec fn encoding(v: ListView<HelperView>) -> Seq<u8> {
        list_chunk_encoding::<Helper>(v)
    }

    fn try_from_ctx(src: &[u8]) -> (r: Result<(Self, usize), MdlxError>) {
        match read_sized_list::<Helper>(src) {
            Ok((chunk_size, data, n)) => Ok((HelperChunk { chunk_size, data }, n)),
            Err(e) => Err(e),
        }
    }

    fn total_bytes_size(&self) -> (r: Option<usize>) {
        list_chunk_size::<Helper>(self.chunk_size, &self.data)
    }

    fn try_into_ctx(&self, dst: &mut Vec<u8>, offset: usize) -> (r: Result<usize, MdlxError>) {
        write_list_chunk::<Helper>(self.chunk_size, &self.data, dst, offset)
    }

    proof fn lemma_parse_bounds(s: Seq<u8>) {
        if s.len() >= 4 {
            lemma_parse_until_bounds::<Helper>(s.skip(4), 0, u32_at(s, 0) as nat);
        }
    }
}

/// The point about which a node turns; its components are single-precision
/// bit patterns.
#[derive(Clone, Copy, Debug, PartialEq, Eq)]
pub struct PivotPoint {
    pub position: [u32; 3],
}

/// A pivot point as a mathematical value.
pub struct PivotPointView {
    pub position: Seq<u32>,
}

impl View for PivotPoint {
    type V = PivotPointView;

    open spec fn view(&self) -> PivotPointView {
        PivotPointView { position: self.position@ }
    }
}

impl Codec for PivotPoint {
    open spec fn parse(s: Seq<u8>) -> Result<(PivotPointView, nat), MdlxError> {
        if s.len() < 12 {
            Err(MdlxError::UnexpectedEof)
        } else {
            Ok((PivotPointView { position: words_at(s, 0, 3) }, 12))
        }
    }

    open spec fn encoding(v: PivotPointView) -> Seq<u8> {
        words_le(v.position)
    }

    fn try_from_ctx(src: &[u8]) -> (r: Result<(Self, usize), MdlxError>) {
        if src.len() < PIVOT_POINT_LEN {
            return Err(MdlxError::UnexpectedEof);
        }
        let position = get_words::<3>(src, 0);
        Ok((PivotPoint { position }, PIVOT_POINT_LEN))
    }

    fn total_bytes_size(&self) -> (r: Option<usize>) {
        proof {
            assert(self.position@.len() == 3);
            lemma_words_le_len(self.position@);
        }
        Some(PIVOT_POINT_LEN)
    }

    fn try_into_ctx(&self, dst: &mut Vec<u8>, offset: usize) -> (r: Result<usize, MdlxError>) {
        proof {
            assert(self.position@.len() == 3);
            lemma_words_le_len(self.position@);
        }
        let room: usize = dst.len();
        if offset > room || room - offset < PIVOT_POINT_LEN {
            return Err(MdlxError::BufferTooSmall);
        }
        let ghost base = dst@;
        proof {
            lemma_splice_nothing(base, offset as int);
        }
        emit_words(dst, Ghost(base), Ghost(Seq::empty()), offset, offset, &self.position);
        proof {
            assert(Seq::<u8>::empty() + words_le(self.position@) =~= words_le(self.position@));
        }
        Ok(PIVOT_POINT_LEN)
    }

    proof fn lemma_parse_bounds(s: Seq<u8>) {
    }
}

/// The list of the model's pivot points, one for each node.
#[derive(Clone, Debug, PartialEq, Eq)]
pub struct PivotPointChunk {
    pub chunk_size: u32,
    pub data: Vec<PivotPoint>,
}

impl View for PivotPointChunk {
    type V = ListView<PivotPointView>;

    open spec fn view(&self) -> ListView<PivotPointView> {
        ListView { chunk_size: self.chunk_size, data: views(self.data@) }
    }
}

impl Chunk for PivotPointChunk {
    open spec fn payload_len(v: ListView<PivotPointView>) -> nat {
        list_encoding::<PivotPoint>(v.data).len()
    }

    open spec fn resized(v: ListView<PivotPointView>) -> ListView<PivotPointView> {
        ListView { chunk_size: list_encoding::<PivotPoint>(v.data).len() as u32, data: v.data }
    }

    fn payload_fits(&self) -> (r: bool) {
        list_payload::<PivotPoint>(&self.data).is_ok()
    }

    fn calculate_chunk_size(&mut self) -> (r: Result<(), MdlxError>) {
        match list_payload::<PivotPoint>(&self.data) {
            Ok(n) => {
                self.chunk_size = n;
                Ok(())
            },
            Err(e) => Err(e),
        }
    }

    proof fn lemma_payload_len(v: ListView<PivotPointView>) {
        lemma_le32_len(v.chunk_size);
    }
}

impl Codec for PivotPointChunk {
    open spec fn parse(s: Seq<u8>) -> Result<(ListView<PivotPointView>, nat), MdlxError> {
        parse_fixed_list::<PivotPoint>(s, 12)
    }

    open spec fn encoding(v: ListView<PivotPointView>) -> Seq<u8> {
        list_chunk_encoding::<PivotPoint>(v)
    }

    fn try_from_ctx(src: &[u8]) -> (r: Result<(Self, usize), MdlxError>) {
        match read_fixed_list::<PivotPoint>(src, 12) {
            Ok((chunk_size, data, n)) => Ok((PivotPointChunk { chunk_size, data }, n)),
            Err(e) => Err(e),
        }
    }

    fn total_bytes_size(&self) -> (r: Option<usize>) {
        list_chunk_size::<PivotPoint>(self.chunk_size, &self.data)
    }

    fn try_into_ctx(&self, dst: &mut Vec<u8>, offset: usize) -> (r: Result<usize, MdlxError>) {
        write_list_chunk::<PivotPoint>(self.chunk_size, &self.data, dst, offset)
    }

    proof fn lemma_parse_bounds(s: Seq<u8>) {
        if s.len() >= 4 {
            lemma_parse_count_bounds::<PivotPoint>(s.skip(4), u32_at(s, 0) as nat / 12);
        }
    }
}

impl Lossless for PivotPoint {
    open spec fn well_formed(v: PivotPointView) -> bool {
        v.position.len() == 3
    }

    open spec fn sizes_right(v: PivotPointView) -> bool {
        true
    }

    proof fn lemma_parsed(s: Seq<u8>) {

    }

    proof fn lemma_round_trip(v: PivotPointView, rest: Seq<u8>) {
        let s = Self::encoding(v) + rest;
        lemma_words_le_len(v.position);
        assert(s.subrange(0, 12) =~= words_le(v.position));
        lemma_words_at_le(s, 0, v.position);
    }
}

impl Lossless for Node {
    open spec fn well_formed(v: NodeView) -> bool {
        &&& name_fits(v.name, 80)
        &&& channels_well_formed(v.channels())
        &&& v.inclusive_size == Node::encoding(v).len()
    }

    open spec fn sizes_right(v: NodeView) -> bool {
        v.inclusive_size == Node::encoding(v).len()
    }

    proof fn lemma_parsed(s: Seq<u8>) {
        if s.len() >= 96 {
            lemma_parsed_name_fits(s.subrange(4, 84));
            lemma_channels_parsed(
                s,
                96,
                u32_at(s, 0) as nat,
                node_tags(),
                ChannelsView { translation: None, rotation: None, scaling: None },
            );
        }
    }

    proof fn lemma_round_trip(v: NodeView, rest: Seq<u8>) {
        let s = Self::encoding(v) + rest;
        lemma_node_header_len(v);
        lemma_le32_len(v.inclusive_size);
        lemma_parse_name_field(v.name, 80);
        lemma_le32_len(v.object_id);
        lemma_le32_len(v.parent_id);
        lemma_le32_len(v.flags);
        assert(s.subrange(0, 4) =~= le32(v.inclusive_size));
        lemma_u32_at_le32(s, 0, v.inclusive_size);
        assert(s.subrange(4, 84) =~= name_field(v.name, 80));
        assert(s.subrange(84, 88) =~= le32(v.object_id));
        lemma_u32_at_le32(s, 84, v.object_id);
        assert(s.subrange(88, 92) =~= le32(v.parent_id));
        lemma_u32_at_le32(s, 88, v.parent_id);
        assert(s.subrange(92, 96) =~= le32(v.flags));
        lemma_u32_at_le32(s, 92, v.flags);
        assert(s.skip(96) =~= channels_encoding(node_tags(), v.channels()) + rest);
        lemma_channels_round_trip(s, 96, node_tags(), v.channels(), rest);
    }
}

impl Lossless for Bone {
    open spec fn well_formed(v: BoneView) -> bool {
        Node::well_formed(v.node)
    }

    open spec fn sizes_right(v: BoneView) -> bool {
        Node::sizes_right(v.node)
    }

    proof fn lemma_parsed(s: Seq<u8>) {
        Node::lemma_parsed(s);
    }

    proof fn lemma_round_trip(v: BoneView, rest: Seq<u8>) {
        let s = Self::encoding(v) + rest;
        let n = Node::encoding(v.node).len() as int;
        lemma_le32_len(v.geoset_id);
        lemma_le32_len(v.geoset_animation_id);
        assert(s =~= Node::encoding(v.node) + (le32(v.geoset_id) + le32(v.geoset_animation_id) + rest));
        Node::lemma_round_trip(v.node, le32(v.geoset_id) + le32(v.geoset_animation_id) + rest);
        assert(s.subrange(n, n + 4) =~= le32(v.geoset_id));
        lemma_u32_at_le32(s, n, v.geoset_id);
        assert(s.subrange(n + 4, n + 8) =~= le32(v.geoset_animation_id));
        lemma_u32_at_le32(s, n + 4, v.geoset_animation_id);
    }
}

impl Lossless for Helper {
    open spec fn well_formed(v: HelperView) -> bool {
        Node::well_formed(v.node)
    }

    open spec fn sizes_right(v: HelperView) -> bool {
        Node::sizes_right(v.node)
    }

    proof fn lemma_parsed(s: Seq<u8>) {
        Node::lemma_parsed(s);
    }

    proof fn lemma_round_trip(v: HelperView, rest: Seq<u8>) {
        Node::lemma_round_trip(v.node, rest);
    }
}

impl Lossless for BoneChunk {
    open spec fn well_formed(v: ListView<BoneView>) -> bool {
        &&& forall|i: int| 0 <= i < v.data.len() ==> Bone::well_formed(#[trigger] v.data[i])
        &&& v.chunk_size == list_encoding::<Bone>(v.data).len()
    }

    open spec fn sizes_right(v: ListView<BoneView>) -> bool {
        &&& forall|i: int| 0 <= i < v.data.len() ==> Bone::sizes_right(#[trigger] v.data[i])
        &&& v.chunk_size == list_encoding::<Bone>(v.data).len()
    }

    proof fn lemma_parsed(s: Seq<u8>) {
        if s.len() >= 4 {
            lemma_until_parsed::<Bone>(s.skip(4), 0, u32_at(s, 0) as nat);
        }
    }

    proof fn lemma_round_trip(v: ListView<BoneView>, rest: Seq<u8>) {
        assert forall|i: int| 0 <= i < v.data.len() implies Bone::declared_size(#[trigger] v.data[i])
            == Bone::encoding(v.data[i]).len() by {
            lemma_le32_len(v.data[i].geoset_id);
            lemma_le32_len(v.data[i].geoset_animation_id);
        }
        lemma_sized_list_round_trip::<Bone>(v, rest);
    }
}

impl Lossless for HelperChunk {
    open spec fn well_formed(v: ListView<HelperView>) -> bool {
        &&& forall|i: int| 0 <= i < v.data.len() ==> Helper::well_formed(#[trigger] v.data[i])
        &&& v.chunk_size == list_encoding::<Helper>(v.data).len()
    }

    open spec fn sizes_right(v: ListView<HelperView>) -> bool {
        &&& forall|i: int| 0 <= i < v.data.len() ==> Helper::sizes_right(#[trigger] v.data[i])
        &&& v.chunk_size == list_encoding::<Helper>(v.data).len()
    }

    proof fn lemma_parsed(s: Seq<u8>) {
        if s.len() >= 4 {
            lemma_until_parsed::<Helper>(s.skip(4), 0, u32_at(s, 0) as nat);
        }
    }

    proof fn lemma_round_trip(v: ListView<HelperView>, rest: Seq<u8>) {
        lemma_sized_list_round_trip::<Helper>(v, rest);
    }
}

impl Lossless for PivotPointChunk {
    open spec fn well_formed(v: ListView<PivotPointView>) -> bool {
        &&& forall|i: int| 0 <= i < v.data.len() ==> PivotPoint::well_formed(#[trigger] v.data[i])
        &&& v.chunk_size == list_encoding::<PivotPoint>(v.data).len()
    }

    open spec fn sizes_right(v: ListView<PivotPointView>) -> bool {
        true
    }

    proof fn lemma_parsed(s: Seq<u8>) {
        assert forall|v: PivotPointView| #[trigger] PivotPoint::well_formed(v)
            implies PivotPoint::encoding(v).len() == 12 by {
            lemma_words_le_len(v.position);
        }
        lemma_fixed_list_parsed::<PivotPoint>(s, 12);
    }

    proof fn lemma_round_trip(v: ListView<PivotPointView>, rest: Seq<u8>) {
        assert forall|i: int| 0 <= i < v.data.len() implies PivotPoint::encoding(
            #[trigger] v.data[i],
        ).len() == 12 by {
            lemma_words_le_len(v.data[i].position);
        }
        lemma_fixed_list_round_trip::<PivotPoint>(v, 12, rest);
    }
}

} // verus!
