//! The model as a whole: every chunk a file can hold, and the file's
//! decoder and encoder.
//!
//! A file is the magic tag `MDLX` followed by chunks, each a tag and the
//! chunk it names, in any order. A model holds at most one chunk of each
//! kind. Encoding writes the chunks in one fixed order, whatever order they
//! were read in, and states in each chunk's size field what the chunk holds
//! at that time.

use vstd::prelude::*;
use crate::codec::{
    chunk_bytes, chunk_fits, chunk_payload_fits, chunk_resized, chunk_size, emit_chunk, opt_view,
    read_chunk, resize_chunk, Codec, ListView,
};
use crate::error::MdlxError;
use crate::geoset::{GeosetAnimationChunk, GeosetAnimationView};
use crate::header::{ModelChunk, ModelChunkView, VersionChunk};
use crate::node::{BoneChunk, BoneView, HelperChunk, HelperView, PivotPointChunk, PivotPointView};
use crate::opaque::{
    AttachmentChunk, CameraChunk, CollisionShapeChunk, EventObjectChunk, GeosetChunk, LightChunk,
    MaterialChunk, OpaqueView, ParticleEmitter2Chunk, ParticleEmitterChunk, RibbonEmitterChunk,
};
use crate::primitives::{
    emit_u32, le32, lemma_le32_len, lemma_splice_nothing, read_u32, u32_at, viewed,
};
use crate::sequence::{GlobalSequence, GlobalSequenceChunk, SequenceChunk, SequenceView};
use crate::tags::{
    ATCH_TAG, BONE_TAG, CAMS_TAG, CLID_TAG, EVTS_TAG, GEOA_TAG, GEOS_TAG, GLBS_TAG, HELP_TAG,
    LITE_TAG, MDLX_TAG, MODL_TAG, MTLS_TAG, PIVT_TAG, PRE2_TAG, PREM_TAG, RIBB_TAG, SEQS_TAG,
    TEXS_TAG, TXAN_TAG, VERS_TAG,
};
use crate::texture::{TextureAnimationChunk, TextureAnimationView, TextureChunk, TextureView};

verus! {

/// A model: the chunks of a file, each of which may be absent.
#[derive(Clone, Debug, PartialEq)]
pub struct MDLXModel {
    pub version_chunk: Option<VersionChunk>,
    pub model_chunk: Option<ModelChunk>,
    pub sequence_chunk: Option<SequenceChunk>,
    pub global_sequence_chunk: Option<GlobalSequenceChunk>,
    pub texture_chunk: Option<TextureChunk>,
    pub texture_animation_chunk: Option<TextureAnimationChunk>,
    pub geoset_chunk: Option<GeosetChunk>,
    pub geoset_animation_chunk: Option<GeosetAnimationChunk>,
    pub bone_chunk: Option<BoneChunk>,
    pub light_chunk: Option<LightChunk>,
    pub helper_chunk: Option<HelperChunk>,
    pub attachment_chunk: Option<AttachmentChunk>,
    pub pivot_point_chunk: Option<PivotPointChunk>,
    pub particle_emitter_chunk: Option<ParticleEmitterChunk>,
    pub particle_emitter2_chunk: Option<ParticleEmitter2Chunk>,
    pub ribbon_emitter_chunk: Option<RibbonEmitterChunk>,
    pub event_object_chunk: Option<EventObjectChunk>,
    pub camera_chunk: Option<CameraChunk>,
    pub collision_shape_chunk: Option<CollisionShapeChunk>,
    pub material_chunk: Option<MaterialChunk>,
}

/// A model as a mathematical value.
pub struct MDLXModelView {
    pub version_chunk: Option<VersionChunk>,
    pub model_chunk: Option<ModelChunkView>,
    pub sequence_chunk: Option<ListView<SequenceView>>,
    pub global_sequence_chunk: Option<ListView<GlobalSequence>>,
    pub texture_chunk: Option<ListView<TextureView>>,
    pub texture_animation_chunk: Option<ListView<TextureAnimationView>>,
    pub geoset_chunk: Option<OpaqueView>,
    pub geoset_animation_chunk: Option<ListView<GeosetAnimationView>>,
    pub bone_chunk: Option<ListView<BoneView>>,
    pub light_chunk: Option<OpaqueView>,
    pub helper_chunk: Option<ListView<HelperView>>,
    pub attachment_chunk: Option<OpaqueView>,
    pub pivot_point_chunk: Option<ListView<PivotPointView>>,
    pub particle_emitter_chunk: Option<OpaqueView>,
    pub particle_emitter2_chunk: Option<OpaqueView>,
    pub ribbon_emitter_chunk: Option<OpaqueView>,
    pub event_object_chunk: Option<OpaqueView>,
    pub camera_chunk: Option<OpaqueView>,
    pub collision_shape_chunk: Option<OpaqueView>,
    pub material_chunk: Option<OpaqueView>,
}

impl View for MDLXModel {
    type V = MDLXModelView;

    open spec fn view(&self) -> MDLXModelView {
        MDLXModelView {
            version_chunk: opt_view(self.version_chunk),
            model_chunk: opt_view(self.model_chunk),
            sequence_chunk: opt_view(self.sequence_chunk),
            global_sequence_chunk: opt_view(self.global_sequence_chunk),
            texture_chunk: opt_view(self.texture_chunk),
            texture_animation_chunk: opt_view(self.texture_animation_chunk),
            geoset_chunk: opt_view(self.geoset_chunk),
            geoset_animation_chunk: opt_view(self.geoset_animation_chunk),
            bone_chunk: opt_view(self.bone_chunk),
            light_chunk: opt_view(self.light_chunk),
            helper_chunk: opt_view(self.helper_chunk),
            attachment_chunk: opt_view(self.attachment_chunk),
            pivot_point_chunk: opt_view(self.pivot_point_chunk),
            particle_emitter_chunk: opt_view(self.particle_emitter_chunk),
            particle_emitter2_chunk: opt_view(self.particle_emitter2_chunk),
            ribbon_emitter_chunk: opt_view(self.ribbon_emitter_chunk),
            event_object_chunk: opt_view(self.event_object_chunk),
            camera_chunk: opt_view(self.camera_chunk),
            collision_shape_chunk: opt_view(self.collision_shape_chunk),
            material_chunk: opt_view(self.material_chunk),
        }
    }
}

/// The model without any chunk.
pub open spec fn empty_model() -> MDLXModelView {
    MDLXModelView {
        version_chunk: None,
        model_chunk: None,
        sequence_chunk: None,
        global_sequence_chunk: None,
        texture_chunk: None,
        texture_animation_chunk: None,
        geoset_chunk: None,
        geoset_animation_chunk: None,
        bone_chunk: None,
        light_chunk: None,
        helper_chunk: None,
        attachment_chunk: None,
        pivot_point_chunk: None,
        particle_emitter_chunk: None,
        particle_emitter2_chunk: None,
        ribbon_emitter_chunk: None,
        event_object_chunk: None,
        camera_chunk: None,
        collision_shape_chunk: None,
        material_chunk: None,
    }
}

/// The chunk that `tag` names, decoded from the start of `body` and put
/// into `acc` in place of what `acc` held of that kind; with the number of
/// bytes the chunk takes.
pub open spec fn parse_chunk(tag: u32, body: Seq<u8>, acc: MDLXModelView) -> Result<
    (MDLXModelView, nat),
    MdlxError,
> {
    if tag == VERS_TAG {
        match VersionChunk::parse(body) {
            Err(e) => Err(e),
            Ok((c, n)) => Ok((MDLXModelView { version_chunk: Some(c), ..acc }, n)),
        }
    }     else if tag == MODL_TAG {
        match ModelChunk::parse(body) {
            Err(e) => Err(e),
            Ok((c, n)) => Ok((MDLXModelView { model_chunk: Some(c), ..acc }, n)),
        }
    }     else if tag == SEQS_TAG {
        match SequenceChunk::parse(body) {
            Err(e) => Err(e),
            Ok((c, n)) => Ok((MDLXModelView { sequence_chunk: Some(c), ..acc }, n)),
        }
    }     else if tag == GLBS_TAG {
        match GlobalSequenceChunk::parse(body) {
            Err(e) => Err(e),
            Ok((c, n)) => Ok((MDLXModelView { global_sequence_chunk: Some(c), ..acc }, n)),
        }
    }     else if tag == TEXS_TAG {
        match TextureChunk::parse(body) {
            Err(e) => Err(e),
            Ok((c, n)) => Ok((MDLXModelView { texture_chunk: Some(c), ..acc }, n)),
        }
    }     else if tag == TXAN_TAG {
        match TextureAnimationChunk::parse(body) {
            Err(e) => Err(e),
            Ok((c, n)) => Ok((MDLXModelView { texture_animation_chunk: Some(c), ..acc }, n)),
        }
    }     else if tag == GEOS_TAG {
        match GeosetChunk::parse(body) {
            Err(e) => Err(e),
            Ok((c, n)) => Ok((MDLXModelView { geoset_chunk: Some(c), ..acc }, n)),
        }
    }     else if tag == GEOA_TAG {
        match GeosetAnimationChunk::parse(body) {
            Err(e) => Err(e),
            Ok((c, n)) => Ok((MDLXModelView { geoset_animation_chunk: Some(c), ..acc }, n)),
        }
    }     else if tag == BONE_TAG {
        match BoneChunk::parse(body) {
            Err(e) => Err(e),
            Ok((c, n)) => Ok((MDLXModelView { bone_chunk: Some(c), ..acc }, n)),
        }
    }     else if tag == LITE_TAG {
        match LightChunk::parse(body) {
            Err(e) => Err(e),
            Ok((c, n)) => Ok((MDLXModelView { light_chunk: Some(c), ..acc }, n)),
        }
    }     else if tag == HELP_TAG {
        match HelperChunk::parse(body) {
            Err(e) => Err(e),
            Ok((c, n)) => Ok((MDLXModelView { helper_chunk: Some(c), ..acc }, n)),
        }
    }     else if tag == ATCH_TAG {
        match AttachmentChunk::parse(body) {
            Err(e) => Err(e),
            Ok((c, n)) => Ok((MDLXModelView { attachment_chunk: Some(c), ..acc }, n)),
        }
    }     else if tag == PIVT_TAG {
        match PivotPointChunk::parse(body) {
            Err(e) => Err(e),
            Ok((c, n)) => Ok((MDLXModelView { pivot_point_chunk: Some(c), ..acc }, n)),
        }
    }     else if tag == PREM_TAG {
        match ParticleEmitterChunk::parse(body) {
            Err(e) => Err(e),
            Ok((c, n)) => Ok((MDLXModelView { particle_emitter_chunk: Some(c), ..acc }, n)),
        }
    }     else if tag == PRE2_TAG {
        match ParticleEmitter2Chunk::parse(body) {
            Err(e) => Err(e),
            Ok((c, n)) => Ok((MDLXModelView { particle_emitter2_chunk: Some(c), ..acc }, n)),
        }
    }     else if tag == RIBB_TAG {
        match RibbonEmitterChunk::parse(body) {
            Err(e) => Err(e),
            Ok((c, n)) => Ok((MDLXModelView { ribbon_emitter_chunk: Some(c), ..acc }, n)),
        }
    }     else if tag == EVTS_TAG {
        match EventObjectChunk::parse(body) {
            Err(e) => Err(e),
            Ok((c, n)) => Ok((MDLXModelView { event_object_chunk: Some(c), ..acc }, n)),
        }
    }     else if tag == CAMS_TAG {
        match CameraChunk::parse(body) {
            Err(e) => Err(e),
            Ok((c, n)) => Ok((MDLXModelView { camera_chunk: Some(c), ..acc }, n)),
        }
    }     else if tag == CLID_TAG {
        match CollisionShapeChunk::parse(body) {
            Err(e) => Err(e),
            Ok((c, n)) => Ok((MDLXModelView { collision_shape_chunk: Some(c), ..acc }, n)),
        }
    }     else if tag == MTLS_TAG {
        match MaterialChunk::parse(body) {
            Err(e) => Err(e),
            Ok((c, n)) => Ok((MDLXModelView { material_chunk: Some(c), ..acc }, n)),
        }
    } else {
        Err(MdlxError::UnknownTag(tag))
    }
}

/// The model that the chunks from `pos` of `s` to its end make of `acc`:
/// each chunk is a tag and the chunk it names, and a chunk that comes a
/// second time replaces the first.
pub open spec fn parse_chunks(s: Seq<u8>, pos: nat, acc: MDLXModelView) -> Result<
    MDLXModelView,
    MdlxError,
>
    decreases s.len() - pos,
{
    if pos >= s.len() {
        Ok(acc)
    } else if pos + 4 > s.len() {
        Err(MdlxError::UnexpectedEof)
    } else {
        match parse_chunk(u32_at(s, pos as int), s.skip(pos + 4 as int), acc) {
            Err(e) => Err(e),
            Ok((next, n)) => {
                proof {
                    lemma_parse_chunk_bounds(u32_at(s, pos as int), s.skip(pos + 4 as int), acc);
                }
                parse_chunks(s, pos + 4 + n, next)
            },
        }
    }
}

/// The model that a file holds: the magic tag, then chunks to the end.
pub open spec fn parse_model(s: Seq<u8>) -> Result<MDLXModelView, MdlxError> {
    if s.len() < 4 {
        Err(MdlxError::UnexpectedEof)
    } else if u32_at(s, 0) != MDLX_TAG {
        Err(MdlxError::BadMagic)
    } else {
        parse_chunks(s, 4, empty_model())
    }
}

/// A decoded chunk takes no more bytes than there are.
pub proof fn lemma_parse_chunk_bounds(tag: u32, body: Seq<u8>, acc: MDLXModelView)
    ensures
        parse_chunk(tag, body, acc) matches Ok((_, n)) ==> 0 < n <= body.len(),
{
    if tag == VERS_TAG {
        VersionChunk::lemma_parse_bounds(body);
    }     else if tag == MODL_TAG {
        ModelChunk::lemma_parse_bounds(body);
    }     else if tag == SEQS_TAG {
        SequenceChunk::lemma_parse_bounds(body);
    }     else if tag == GLBS_TAG {
        GlobalSequenceChunk::lemma_parse_bounds(body);
    }     else if tag == TEXS_TAG {
        TextureChunk::lemma_parse_bounds(body);
    }     else if tag == TXAN_TAG {
        TextureAnimationChunk::lemma_parse_bounds(body);
    }     else if tag == GEOS_TAG {
        GeosetChunk::lemma_parse_bounds(body);
    }     else if tag == GEOA_TAG {
        GeosetAnimationChunk::lemma_parse_bounds(body);
    }     else if tag == BONE_TAG {
        BoneChunk::lemma_parse_bounds(body);
    }     else if tag == LITE_TAG {
        LightChunk::lemma_parse_bounds(body);
    }     else if tag == HELP_TAG {
        HelperChunk::lemma_parse_bounds(body);
    }     else if tag == ATCH_TAG {
        AttachmentChunk::lemma_parse_bounds(body);
    }     else if tag == PIVT_TAG {
        PivotPointChunk::lemma_parse_bounds(body);
    }     else if tag == PREM_TAG {
        ParticleEmitterChunk::lemma_parse_bounds(body);
    }     else if tag == PRE2_TAG {
        ParticleEmitter2Chunk::lemma_parse_bounds(body);
    }     else if tag == RIBB_TAG {
        RibbonEmitterChunk::lemma_parse_bounds(body);
    }     else if tag == EVTS_TAG {
        EventObjectChunk::lemma_parse_bounds(body);
    }     else if tag == CAMS_TAG {
        CameraChunk::lemma_parse_bounds(body);
    }     else if tag == CLID_TAG {
        CollisionShapeChunk::lemma_parse_bounds(body);
    }     else if tag == MTLS_TAG {
        MaterialChunk::lemma_parse_bounds(body);
    } 
}

/// The bytes of a file that holds the model: the magic tag, then the chunks
/// that are present, each behind its tag, in the order of the fields.
pub open spec fn model_encoding(m: MDLXModelView) -> Seq<u8> {
    le32(MDLX_TAG)
        + chunk_bytes::<VersionChunk>(VERS_TAG, m.version_chunk)
        + chunk_bytes::<ModelChunk>(MODL_TAG, m.model_chunk)
        + chunk_bytes::<SequenceChunk>(SEQS_TAG, m.sequence_chunk)
        + chunk_bytes::<GlobalSequenceChunk>(GLBS_TAG, m.global_sequence_chunk)
        + chunk_bytes::<TextureChunk>(TEXS_TAG, m.texture_chunk)
        + chunk_bytes::<TextureAnimationChunk>(TXAN_TAG, m.texture_animation_chunk)
        + chunk_bytes::<GeosetChunk>(GEOS_TAG, m.geoset_chunk)
        + chunk_bytes::<GeosetAnimationChunk>(GEOA_TAG, m.geoset_animation_chunk)
        + chunk_bytes::<BoneChunk>(BONE_TAG, m.bone_chunk)
        + chunk_bytes::<LightChunk>(LITE_TAG, m.light_chunk)
        + chunk_bytes::<HelperChunk>(HELP_TAG, m.helper_chunk)
        + chunk_bytes::<AttachmentChunk>(ATCH_TAG, m.attachment_chunk)
        + chunk_bytes::<PivotPointChunk>(PIVT_TAG, m.pivot_point_chunk)
        + chunk_bytes::<ParticleEmitterChunk>(PREM_TAG, m.particle_emitter_chunk)
        + chunk_bytes::<ParticleEmitter2Chunk>(PRE2_TAG, m.particle_emitter2_chunk)
        + chunk_bytes::<RibbonEmitterChunk>(RIBB_TAG, m.ribbon_emitter_chunk)
        + chunk_bytes::<EventObjectChunk>(EVTS_TAG, m.event_object_chunk)
        + chunk_bytes::<CameraChunk>(CAMS_TAG, m.camera_chunk)
        + chunk_bytes::<CollisionShapeChunk>(CLID_TAG, m.collision_shape_chunk)
        + chunk_bytes::<MaterialChunk>(MTLS_TAG, m.material_chunk)
}

/// The length of a file, by its chunks.
pub proof fn lemma_model_encoding_len(m: MDLXModelView)
    ensures
        model_encoding(m).len() == 4
            + chunk_bytes::<VersionChunk>(VERS_TAG, m.version_chunk).len()
            + chunk_bytes::<ModelChunk>(MODL_TAG, m.model_chunk).len()
            + chunk_bytes::<SequenceChunk>(SEQS_TAG, m.sequence_chunk).len()
            + chunk_bytes::<GlobalSequenceChunk>(GLBS_TAG, m.global_sequence_chunk).len()
            + chunk_bytes::<TextureChunk>(TEXS_TAG, m.texture_chunk).len()
            + chunk_bytes::<TextureAnimationChunk>(TXAN_TAG, m.texture_animation_chunk).len()
            + chunk_bytes::<GeosetChunk>(GEOS_TAG, m.geoset_chunk).len()
            + chunk_bytes::<GeosetAnimationChunk>(GEOA_TAG, m.geoset_animation_chunk).len()
            + chunk_bytes::<BoneChunk>(BONE_TAG, m.bone_chunk).len()
            + chunk_bytes::<LightChunk>(LITE_TAG, m.light_chunk).len()
            + chunk_bytes::<HelperChunk>(HELP_TAG, m.helper_chunk).len()
            + chunk_bytes::<AttachmentChunk>(ATCH_TAG, m.attachment_chunk).len()
            + chunk_bytes::<PivotPointChunk>(PIVT_TAG, m.pivot_point_chunk).len()
            + chunk_bytes::<ParticleEmitterChunk>(PREM_TAG, m.particle_emitter_chunk).len()
            + chunk_bytes::<ParticleEmitter2Chunk>(PRE2_TAG, m.particle_emitter2_chunk).len()
            + chunk_bytes::<RibbonEmitterChunk>(RIBB_TAG, m.ribbon_emitter_chunk).len()
            + chunk_bytes::<EventObjectChunk>(EVTS_TAG, m.event_object_chunk).len()
            + chunk_bytes::<CameraChunk>(CAMS_TAG, m.camera_chunk).len()
            + chunk_bytes::<CollisionShapeChunk>(CLID_TAG, m.collision_shape_chunk).len()
            + chunk_bytes::<MaterialChunk>(MTLS_TAG, m.material_chunk).len()
        ,
{
    lemma_le32_len(MDLX_TAG);
    let mut acc = le32(MDLX_TAG);
    let mut len: int = 4;
    acc = acc + chunk_bytes::<VersionChunk>(VERS_TAG, m.version_chunk);
    len = len + chunk_bytes::<VersionChunk>(VERS_TAG, m.version_chunk).len();
    assert(acc.len() == len);
    acc = acc + chunk_bytes::<ModelChunk>(MODL_TAG, m.model_chunk);
    len = len + chunk_bytes::<ModelChunk>(MODL_TAG, m.model_chunk).len();
    assert(acc.len() == len);
    acc = acc + chunk_bytes::<SequenceChunk>(SEQS_TAG, m.sequence_chunk);
    len = len + chunk_bytes::<SequenceChunk>(SEQS_TAG, m.sequence_chunk).len();
    assert(acc.len() == len);
    acc = acc + chunk_bytes::<GlobalSequenceChunk>(GLBS_TAG, m.global_sequence_chunk);
    len = len + chunk_bytes::<GlobalSequenceChunk>(GLBS_TAG, m.global_sequence_chunk).len();
    assert(acc.len() == len);
    acc = acc + chunk_bytes::<TextureChunk>(TEXS_TAG, m.texture_chunk);
    len = len + chunk_bytes::<TextureChunk>(TEXS_TAG, m.texture_chunk).len();
    assert(acc.len() == len);
    acc = acc + chunk_bytes::<TextureAnimationChunk>(TXAN_TAG, m.texture_animation_chunk);
    len = len + chunk_bytes::<TextureAnimationChunk>(TXAN_TAG, m.texture_animation_chunk).len();
    assert(acc.len() == len);
    acc = acc + chunk_bytes::<GeosetChunk>(GEOS_TAG, m.geoset_chunk);
    len = len + chunk_bytes::<GeosetChunk>(GEOS_TAG, m.geoset_chunk).len();
    assert(acc.len() == len);
    acc = acc + chunk_bytes::<GeosetAnimationChunk>(GEOA_TAG, m.geoset_animation_chunk);
    len = len + chunk_bytes::<GeosetAnimationChunk>(GEOA_TAG, m.geoset_animation_chunk).len();
    assert(acc.len() == len);
    acc = acc + chunk_bytes::<BoneChunk>(BONE_TAG, m.bone_chunk);
    len = len + chunk_bytes::<BoneChunk>(BONE_TAG, m.bone_chunk).len();
    assert(acc.len() == len);
    acc = acc + chunk_bytes::<LightChunk>(LITE_TAG, m.light_chunk);
    len = len + chunk_bytes::<LightChunk>(LITE_TAG, m.light_chunk).len();
    assert(acc.len() == len);
    acc = acc + chunk_bytes::<HelperChunk>(HELP_TAG, m.helper_chunk);
    len = len + chunk_bytes::<HelperChunk>(HELP_TAG, m.helper_chunk).len();
    assert(acc.len() == len);
    acc = acc + chunk_bytes::<AttachmentChunk>(ATCH_TAG, m.attachment_chunk);
    len = len + chunk_bytes::<AttachmentChunk>(ATCH_TAG, m.attachment_chunk).len();
    assert(acc.len() == len);
    acc = acc + chunk_bytes::<PivotPointChunk>(PIVT_TAG, m.pivot_point_chunk);
    len = len + chunk_bytes::<PivotPointChunk>(PIVT_TAG, m.pivot_point_chunk).len();
    assert(acc.len() == len);
    acc = acc + chunk_bytes::<ParticleEmitterChunk>(PREM_TAG, m.particle_emitter_chunk);
    len = len + chunk_bytes::<ParticleEmitterChunk>(PREM_TAG, m.particle_emitter_chunk).len();
    assert(acc.len() == len);
    acc = acc + chunk_bytes::<ParticleEmitter2Chunk>(PRE2_TAG, m.particle_emitter2_chunk);
    len = len + chunk_bytes::<ParticleEmitter2Chunk>(PRE2_TAG, m.particle_emitter2_chunk).len();
    assert(acc.len() == len);
    acc = acc + chunk_bytes::<RibbonEmitterChunk>(RIBB_TAG, m.ribbon_emitter_chunk);
    len = len + chunk_bytes::<RibbonEmitterChunk>(RIBB_TAG, m.ribbon_emitter_chunk).len();
    assert(acc.len() == len);
    acc = acc + chunk_bytes::<EventObjectChunk>(EVTS_TAG, m.event_object_chunk);
    len = len + chunk_bytes::<EventObjectChunk>(EVTS_TAG, m.event_object_chunk).len();
    assert(acc.len() == len);
    acc = acc + chunk_bytes::<CameraChunk>(CAMS_TAG, m.camera_chunk);
    len = len + chunk_bytes::<CameraChunk>(CAMS_TAG, m.camera_chunk).len();
    assert(acc.len() == len);
    acc = acc + chunk_bytes::<CollisionShapeChunk>(CLID_TAG, m.collision_shape_chunk);
    len = len + chunk_bytes::<CollisionShapeChunk>(CLID_TAG, m.collision_shape_chunk).len();
    assert(acc.len() == len);
    acc = acc + chunk_bytes::<MaterialChunk>(MTLS_TAG, m.material_chunk);
    len = len + chunk_bytes::<MaterialChunk>(MTLS_TAG, m.material_chunk).len();
    assert(acc.len() == len);
    assert(acc == model_encoding(m));
}

/// The size field of every chunk of the model can state the number of bytes
/// that follow it.
pub open spec fn payloads_fit(m: MDLXModelView) -> bool {
    &&& chunk_fits::<VersionChunk>(m.version_chunk)
    &&& chunk_fits::<ModelChunk>(m.model_chunk)
    &&& chunk_fits::<SequenceChunk>(m.sequence_chunk)
    &&& chunk_fits::<GlobalSequenceChunk>(m.global_sequence_chunk)
    &&& chunk_fits::<TextureChunk>(m.texture_chunk)
    &&& chunk_fits::<TextureAnimationChunk>(m.texture_animation_chunk)
    &&& chunk_fits::<GeosetChunk>(m.geoset_chunk)
    &&& chunk_fits::<GeosetAnimationChunk>(m.geoset_animation_chunk)
    &&& chunk_fits::<BoneChunk>(m.bone_chunk)
    &&& chunk_fits::<LightChunk>(m.light_chunk)
    &&& chunk_fits::<HelperChunk>(m.helper_chunk)
    &&& chunk_fits::<AttachmentChunk>(m.attachment_chunk)
    &&& chunk_fits::<PivotPointChunk>(m.pivot_point_chunk)
    &&& chunk_fits::<ParticleEmitterChunk>(m.particle_emitter_chunk)
    &&& chunk_fits::<ParticleEmitter2Chunk>(m.particle_emitter2_chunk)
    &&& chunk_fits::<RibbonEmitterChunk>(m.ribbon_emitter_chunk)
    &&& chunk_fits::<EventObjectChunk>(m.event_object_chunk)
    &&& chunk_fits::<CameraChunk>(m.camera_chunk)
    &&& chunk_fits::<CollisionShapeChunk>(m.collision_shape_chunk)
    &&& chunk_fits::<MaterialChunk>(m.material_chunk)
}

/// The model with the size field of every chunk set to the number of bytes
/// that follow it.
pub open spec fn corrected(m: MDLXModelView) -> MDLXModelView {
    MDLXModelView {
        version_chunk: chunk_resized::<VersionChunk>(m.version_chunk),
        model_chunk: chunk_resized::<ModelChunk>(m.model_chunk),
        sequence_chunk: chunk_resized::<SequenceChunk>(m.sequence_chunk),
        global_sequence_chunk: chunk_resized::<GlobalSequenceChunk>(m.global_sequence_chunk),
        texture_chunk: chunk_resized::<TextureChunk>(m.texture_chunk),
        texture_animation_chunk: chunk_resized::<TextureAnimationChunk>(m.texture_animation_chunk),
        geoset_chunk: chunk_resized::<GeosetChunk>(m.geoset_chunk),
        geoset_animation_chunk: chunk_resized::<GeosetAnimationChunk>(m.geoset_animation_chunk),
        bone_chunk: chunk_resized::<BoneChunk>(m.bone_chunk),
        light_chunk: chunk_resized::<LightChunk>(m.light_chunk),
        helper_chunk: chunk_resized::<HelperChunk>(m.helper_chunk),
        attachment_chunk: chunk_resized::<AttachmentChunk>(m.attachment_chunk),
        pivot_point_chunk: chunk_resized::<PivotPointChunk>(m.pivot_point_chunk),
        particle_emitter_chunk: chunk_resized::<ParticleEmitterChunk>(m.particle_emitter_chunk),
        particle_emitter2_chunk: chunk_resized::<ParticleEmitter2Chunk>(m.particle_emitter2_chunk),
        ribbon_emitter_chunk: chunk_resized::<RibbonEmitterChunk>(m.ribbon_emitter_chunk),
        event_object_chunk: chunk_resized::<EventObjectChunk>(m.event_object_chunk),
        camera_chunk: chunk_resized::<CameraChunk>(m.camera_chunk),
        collision_shape_chunk: chunk_resized::<CollisionShapeChunk>(m.collision_shape_chunk),
        material_chunk: chunk_resized::<MaterialChunk>(m.material_chunk),
    }
}

/// The model can be written to a file: every size field can hold its size,
/// and the file fits the machine's address range.
pub open spec fn encodable(m: MDLXModelView) -> bool {
    payloads_fit(m) && model_encoding(corrected(m)).len() <= usize::MAX
}

/// `total` and the number of bytes that an optional chunk takes in a file,
/// unless their sum exceeds the machine's address range.
fn add_chunk_size<T: Codec>(total: usize, tag: u32, chunk: &Option<T>) -> (r: Option<usize>)
    ensures
        r matches Some(n) ==> n == total + chunk_bytes::<T>(tag, opt_view(*chunk)).len(),
        r is None ==> total + chunk_bytes::<T>(tag, opt_view(*chunk)).len() > usize::MAX,
{
    match chunk_size::<T>(tag, chunk) {
        Some(n) => total.checked_add(n),
        None => None,
    }
}

impl Default for MDLXModel {
    /// A model without any chunk.
    fn default() -> (model: MDLXModel)
        ensures
            model@ == empty_model(),
    {
        MDLXModel::new()
    }
}

impl MDLXModel {
    /// A model without any chunk.
    pub fn new() -> (model: MDLXModel)
        ensures
            model@ == empty_model(),
    {
        MDLXModel {
            version_chunk: None,
            model_chunk: None,
            sequence_chunk: None,
            global_sequence_chunk: None,
            texture_chunk: None,
            texture_animation_chunk: None,
            geoset_chunk: None,
            geoset_animation_chunk: None,
            bone_chunk: None,
            light_chunk: None,
            helper_chunk: None,
            attachment_chunk: None,
            pivot_point_chunk: None,
            particle_emitter_chunk: None,
            particle_emitter2_chunk: None,
            ribbon_emitter_chunk: None,
            event_object_chunk: None,
            camera_chunk: None,
            collision_shape_chunk: None,
            material_chunk: None,
        }
    }

    /// Decodes a file. Fails if the file does not start with the magic tag,
    /// names a chunk that the format does not know, or ends within a chunk;
    /// then no model is returned.
    pub fn read_mdx_file(data: Vec<u8>) -> (r: Result<MDLXModel, MdlxError>)
        ensures
            viewed(r) == parse_model(data@),
    {
        let bytes = data.as_slice();
        let end: usize = bytes.len();
        let magic = match read_u32(bytes, 0) {
            Ok(tag) => tag,
            Err(e) => {
                return Err(e);
            },
        };
        if magic != MDLX_TAG {
            return Err(MdlxError::BadMagic);
        }
        let mut model = MDLXModel::new();
        let mut offset: usize = 4;
        while offset < end
            invariant
                4 <= offset <= bytes@.len() == end,
                bytes@ == data@,
                parse_model(data@) == parse_chunks(bytes@, 4, empty_model()),
                parse_chunks(bytes@, 4, empty_model()) == parse_chunks(bytes@, offset as nat, model@),
            decreases bytes@.len() - offset,
        {
            let tag = match read_u32(bytes, offset) {
                Ok(tag) => tag,
                Err(e) => {
                    return Err(e);
                },
            };
            offset += 4;
            match model.handle_tag(tag, bytes, &mut offset) {
                Ok(()) => {},
                Err(e) => {
                    return Err(e);
                },
            }
        }
        Ok(model)
    }

    /// Encodes the model as a file, after setting the size field of every
    /// chunk to what the chunk holds. Fails if and only if a size does not
    /// fit its field or the file does not fit the machine's address range.
    pub fn write_mdx_file(model: MDLXModel) -> (r: Result<Vec<u8>, MdlxError>)
        ensures
            r is Ok <==> encodable(model@),
            r matches Ok(bytes) ==> bytes@ == model_encoding(corrected(model@)),
            r matches Err(e) ==> e == MdlxError::TooLarge,
    {
        let mut model = model;
        match model.correct_chunk_size() {
            Ok(()) => {},
            Err(e) => {
                return Err(e);
            },
        }
        let total = match model.model_total_size() {
            Some(total) => total,
            None => {
                return Err(MdlxError::TooLarge);
            },
        };
        let mut data: Vec<u8> = vec![0u8; total];
        let ghost base = data@;
        let ghost m = model@;
        proof {
            lemma_le32_len(MDLX_TAG);
            lemma_model_encoding_len(m);
            lemma_splice_nothing(base, 0);
        }
        let pos = emit_u32(&mut data, Ghost(base), Ghost(Seq::empty()), 0, 0, MDLX_TAG);
        let ghost mut acc = le32(MDLX_TAG);
        proof {
            assert(Seq::<u8>::empty() + le32(MDLX_TAG) =~= acc);
        }
        let pos = emit_chunk::<VersionChunk>(
            &mut data,
            Ghost(base),
            Ghost(acc),
            0,
            pos,
            VERS_TAG,
            &model.version_chunk,
        );
        proof {
            acc = acc + chunk_bytes::<VersionChunk>(VERS_TAG, m.version_chunk);
        }
        let pos = emit_chunk::<ModelChunk>(
            &mut data,
            Ghost(base),
            Ghost(acc),
            0,
            pos,
            MODL_TAG,
            &model.model_chunk,
        );
        proof {
            acc = acc + chunk_bytes::<ModelChunk>(MODL_TAG, m.model_chunk);
        }
        let pos = emit_chunk::<SequenceChunk>(
            &mut data,
            Ghost(base),
            Ghost(acc),
            0,
            pos,
            SEQS_TAG,
            &model.sequence_chunk,
        );
        proof {
            acc = acc + chunk_bytes::<SequenceChunk>(SEQS_TAG, m.sequence_chunk);
        }
        let pos = emit_chunk::<GlobalSequenceChunk>(
            &mut data,
            Ghost(base),
            Ghost(acc),
            0,
            pos,
            GLBS_TAG,
            &model.global_sequence_chunk,
        );
        proof {
            acc = acc + chunk_bytes::<GlobalSequenceChunk>(GLBS_TAG, m.global_sequence_chunk);
        }
        let pos = emit_chunk::<TextureChunk>(
            &mut data,
            Ghost(base),
            Ghost(acc),
            0,
            pos,
            TEXS_TAG,
            &model.texture_chunk,
        );
        proof {
            acc = acc + chunk_bytes::<TextureChunk>(TEXS_TAG, m.texture_chunk);
        }
        let pos = emit_chunk::<TextureAnimationChunk>(
            &mut data,
            Ghost(base),
            Ghost(acc),
            0,
            pos,
            TXAN_TAG,
            &model.texture_animation_chunk,
        );
        proof {
            acc = acc + chunk_bytes::<TextureAnimationChunk>(TXAN_TAG, m.texture_animation_chunk);
        }
        let pos = emit_chunk::<GeosetChunk>(
            &mut data,
            Ghost(base),
            Ghost(acc),
            0,
            pos,
            GEOS_TAG,
            &model.geoset_chunk,
        );
        proof {
            acc = acc + chunk_bytes::<GeosetChunk>(GEOS_TAG, m.geoset_chunk);
        }
        let pos = emit_chunk::<GeosetAnimationChunk>(
            &mut data,
            Ghost(base),
            Ghost(acc),
            0,
            pos,
            GEOA_TAG,
            &model.geoset_animation_chunk,
        );
        proof {
            acc = acc + chunk_bytes::<GeosetAnimationChunk>(GEOA_TAG, m.geoset_animation_chunk);
        }
        let pos = emit_chunk::<BoneChunk>(
            &mut data,
            Ghost(base),
            Ghost(acc),
            0,
            pos,
            BONE_TAG,
            &model.bone_chunk,
        );
        proof {
            acc = acc + chunk_bytes::<BoneChunk>(BONE_TAG, m.bone_chunk);
        }
        let pos = emit_chunk::<LightChunk>(
            &mut data,
            Ghost(base),
            Ghost(acc),
            0,
            pos,
            LITE_TAG,
            &model.light_chunk,
        );
        proof {
            acc = acc + chunk_bytes::<LightChunk>(LITE_TAG, m.light_chunk);
        }
        let pos = emit_chunk::<HelperChunk>(
            &mut data,
            Ghost(base),
            Ghost(acc),
            0,
            pos,
            HELP_TAG,
            &model.helper_chunk,
        );
        proof {
            acc = acc + chunk_bytes::<HelperChunk>(HELP_TAG, m.helper_chunk);
        }
        let pos = emit_chunk::<AttachmentChunk>(
            &mut data,
            Ghost(base),
            Ghost(acc),
            0,
            pos,
            ATCH_TAG,
            &model.attachment_chunk,
        );
        proof {
            acc = acc + chunk_bytes::<AttachmentChunk>(ATCH_TAG, m.attachment_chunk);
        }
        let pos = emit_chunk::<PivotPointChunk>(
            &mut data,
            Ghost(base),
            Ghost(acc),
            0,
            pos,
            PIVT_TAG,
            &model.pivot_point_chunk,
        );
        proof {
            acc = acc + chunk_bytes::<PivotPointChunk>(PIVT_TAG, m.pivot_point_chunk);
        }
        let pos = emit_chunk::<ParticleEmitterChunk>(
            &mut data,
            Ghost(base),
            Ghost(acc),
            0,
            pos,
            PREM_TAG,
            &model.particle_emitter_chunk,
        );
        proof {
            acc = acc + chunk_bytes::<ParticleEmitterChunk>(PREM_TAG, m.particle_emitter_chunk);
        }
        let pos = emit_chunk::<ParticleEmitter2Chunk>(
            &mut data,
            Ghost(base),
            Ghost(acc),
            0,
            pos,
            PRE2_TAG,
            &model.particle_emitter2_chunk,
        );
        proof {
            acc = acc + chunk_bytes::<ParticleEmitter2Chunk>(PRE2_TAG, m.particle_emitter2_chunk);
        }
        let pos = emit_chunk::<RibbonEmitterChunk>(
            &mut data,
            Ghost(base),
            Ghost(acc),
            0,
            pos,
            RIBB_TAG,
            &model.ribbon_emitter_chunk,
        );
        proof {
            acc = acc + chunk_bytes::<RibbonEmitterChunk>(RIBB_TAG, m.ribbon_emitter_chunk);
        }
        let pos = emit_chunk::<EventObjectChunk>(
            &mut data,
            Ghost(base),
            Ghost(acc),
            0,
            pos,
            EVTS_TAG,
            &model.event_object_chunk,
        );
        proof {
            acc = acc + chunk_bytes::<EventObjectChunk>(EVTS_TAG, m.event_object_chunk);
        }
        let pos = emit_chunk::<CameraChunk>(
            &mut data,
            Ghost(base),
            Ghost(acc),
            0,
            pos,
            CAMS_TAG,
            &model.camera_chunk,
        );
        proof {
            acc = acc + chunk_bytes::<CameraChunk>(CAMS_TAG, m.camera_chunk);
        }
        let pos = emit_chunk::<CollisionShapeChunk>(
            &mut data,
            Ghost(base),
            Ghost(acc),
            0,
            pos,
            CLID_TAG,
            &model.collision_shape_chunk,
        );
        proof {
            acc = acc + chunk_bytes::<CollisionShapeChunk>(CLID_TAG, m.collision_shape_chunk);
        }
        emit_chunk::<MaterialChunk>(
            &mut data,
            Ghost(base),
            Ghost(acc),
            0,
            pos,
            MTLS_TAG,
            &model.material_chunk,
        );
        proof {
            acc = acc + chunk_bytes::<MaterialChunk>(MTLS_TAG, m.material_chunk);
        }
        proof {
            assert(acc == model_encoding(m));
            assert(data@ =~= acc);
        }
        Ok(data)
    }

    /// Whether the size field of every chunk can state the number of bytes
    /// that follow it.
    pub fn check_payloads_fit(&self) -> (r: bool)
        ensures
            r == payloads_fit(self@),
    {
        chunk_payload_fits::<VersionChunk>(&self.version_chunk)
            && chunk_payload_fits::<ModelChunk>(&self.model_chunk)
            && chunk_payload_fits::<SequenceChunk>(&self.sequence_chunk)
            && chunk_payload_fits::<GlobalSequenceChunk>(&self.global_sequence_chunk)
            && chunk_payload_fits::<TextureChunk>(&self.texture_chunk)
            && chunk_payload_fits::<TextureAnimationChunk>(&self.texture_animation_chunk)
            && chunk_payload_fits::<GeosetChunk>(&self.geoset_chunk)
            && chunk_payload_fits::<GeosetAnimationChunk>(&self.geoset_animation_chunk)
            && chunk_payload_fits::<BoneChunk>(&self.bone_chunk)
            && chunk_payload_fits::<LightChunk>(&self.light_chunk)
            && chunk_payload_fits::<HelperChunk>(&self.helper_chunk)
            && chunk_payload_fits::<AttachmentChunk>(&self.attachment_chunk)
            && chunk_payload_fits::<PivotPointChunk>(&self.pivot_point_chunk)
            && chunk_payload_fits::<ParticleEmitterChunk>(&self.particle_emitter_chunk)
            && chunk_payload_fits::<ParticleEmitter2Chunk>(&self.particle_emitter2_chunk)
            && chunk_payload_fits::<RibbonEmitterChunk>(&self.ribbon_emitter_chunk)
            && chunk_payload_fits::<EventObjectChunk>(&self.event_object_chunk)
            && chunk_payload_fits::<CameraChunk>(&self.camera_chunk)
            && chunk_payload_fits::<CollisionShapeChunk>(&self.collision_shape_chunk)
            && chunk_payload_fits::<MaterialChunk>(&self.material_chunk)
    }

    /// Sets the size field of every chunk to the number of bytes that follow
    /// it. Fails, leaving the model as it was, if and only if one of these
    /// numbers does not fit its field.
    pub fn correct_chunk_size(&mut self) -> (r: Result<(), MdlxError>)
        ensures
            r is Ok <==> payloads_fit(old(self)@),
            r is Ok ==> final(self)@ == corrected(old(self)@),
            r matches Err(e) ==> e == MdlxError::TooLarge && final(self)@ == old(self)@,
    {
        if !self.check_payloads_fit() {
            return Err(MdlxError::TooLarge);
        }
        match resize_chunk::<VersionChunk>(&mut self.version_chunk) {
            Ok(()) => {},
            Err(_) => {
                assert(false);
            },
        }
        match resize_chunk::<ModelChunk>(&mut self.model_chunk) {
            Ok(()) => {},
            Err(_) => {
                assert(false);
            },
        }
        match resize_chunk::<SequenceChunk>(&mut self.sequence_chunk) {
            Ok(()) => {},
            Err(_) => {
                assert(false);
            },
        }
        match resize_chunk::<GlobalSequenceChunk>(&mut self.global_sequence_chunk) {
            Ok(()) => {},
            Err(_) => {
                assert(false);
            },
        }
        match resize_chunk::<TextureChunk>(&mut self.texture_chunk) {
            Ok(()) => {},
            Err(_) => {
                assert(false);
            },
        }
        match resize_chunk::<TextureAnimationChunk>(&mut self.texture_animation_chunk) {
            Ok(()) => {},
            Err(_) => {
                assert(false);
            },
        }
        match resize_chunk::<GeosetChunk>(&mut self.geoset_chunk) {
            Ok(()) => {},
            Err(_) => {
                assert(false);
            },
        }
        match resize_chunk::<GeosetAnimationChunk>(&mut self.geoset_animation_chunk) {
            Ok(()) => {},
            Err(_) => {
                assert(false);
            },
        }
        match resize_chunk::<BoneChunk>(&mut self.bone_chunk) {
            Ok(()) => {},
            Err(_) => {
                assert(false);
            },
        }
        match resize_chunk::<LightChunk>(&mut self.light_chunk) {
            Ok(()) => {},
            Err(_) => {
                assert(false);
            },
        }
        match resize_chunk::<HelperChunk>(&mut self.helper_chunk) {
            Ok(()) => {},
            Err(_) => {
                assert(false);
            },
        }
        match resize_chunk::<AttachmentChunk>(&mut self.attachment_chunk) {
            Ok(()) => {},
            Err(_) => {
                assert(false);
            },
        }
        match resize_chunk::<PivotPointChunk>(&mut self.pivot_point_chunk) {
            Ok(()) => {},
            Err(_) => {
                assert(false);
            },
        }
        match resize_chunk::<ParticleEmitterChunk>(&mut self.particle_emitter_chunk) {
            Ok(()) => {},
            Err(_) => {
                assert(false);
            },
        }
        match resize_chunk::<ParticleEmitter2Chunk>(&mut self.particle_emitter2_chunk) {
            Ok(()) => {},
            Err(_) => {
                assert(false);
            },
        }
        match resize_chunk::<RibbonEmitterChunk>(&mut self.ribbon_emitter_chunk) {
            Ok(()) => {},
            Err(_) => {
                assert(false);
            },
        }
        match resize_chunk::<EventObjectChunk>(&mut self.event_object_chunk) {
            Ok(()) => {},
            Err(_) => {
                assert(false);
            },
        }
        match resize_chunk::<CameraChunk>(&mut self.camera_chunk) {
            Ok(()) => {},
            Err(_) => {
                assert(false);
            },
        }
        match resize_chunk::<CollisionShapeChunk>(&mut self.collision_shape_chunk) {
            Ok(()) => {},
            Err(_) => {
                assert(false);
            },
        }
        match resize_chunk::<MaterialChunk>(&mut self.material_chunk) {
            Ok(()) => {},
            Err(_) => {
                assert(false);
            },
        }
        Ok(())
    }

    /// The number of bytes of the file that holds the model, unless that
    /// number exceeds the machine's address range.
    pub fn model_total_size(&self) -> (r: Option<usize>)
        ensures
            r matches Some(n) ==> n == model_encoding(self@).len(),
            r is None ==> model_encoding(self@).len() > usize::MAX,
    {
        proof {
            lemma_model_encoding_len(self@);
        }
        let mut total: usize = 4;
        total = match add_chunk_size::<VersionChunk>(total, VERS_TAG, &self.version_chunk) {
            Some(sum) => sum,
            None => {
                return None;
            },
        };
        total = match add_chunk_size::<ModelChunk>(total, MODL_TAG, &self.model_chunk) {
            Some(sum) => sum,
            None => {
                return None;
            },
        };
        total = match add_chunk_size::<SequenceChunk>(total, SEQS_TAG, &self.sequence_chunk) {
            Some(sum) => sum,
            None => {
                return None;
            },
        };
        total = match add_chunk_size::<GlobalSequenceChunk>(
            total,
            GLBS_TAG,
            &self.global_sequence_chunk,
        ) {
            Some(sum) => sum,
            None => {
                return None;
            },
        };
        total = match add_chunk_size::<TextureChunk>(total, TEXS_TAG, &self.texture_chunk) {
            Some(sum) => sum,
            None => {
                return None;
            },
        };
        total = match add_chunk_size::<TextureAnimationChunk>(
            total,
            TXAN_TAG,
            &self.texture_animation_chunk,
        ) {
            Some(sum) => sum,
            None => {
                return None;
            },
        };
        total = match add_chunk_size::<GeosetChunk>(total, GEOS_TAG, &self.geoset_chunk) {
            Some(sum) => sum,
            None => {
                return None;
            },
        };
        total = match add_chunk_size::<GeosetAnimationChunk>(
            total,
            GEOA_TAG,
            &self.geoset_animation_chunk,
        ) {
            Some(sum) => sum,
            None => {
                return None;
            },
        };
        total = match add_chunk_size::<BoneChunk>(total, BONE_TAG, &self.bone_chunk) {
            Some(sum) => sum,
            None => {
                return None;
            },
        };
        total = match add_chunk_size::<LightChunk>(total, LITE_TAG, &self.light_chunk) {
            Some(sum) => sum,
            None => {
                return None;
            },
        };
        total = match add_chunk_size::<HelperChunk>(total, HELP_TAG, &self.helper_chunk) {
            Some(sum) => sum,
            None => {
                return None;
            },
        };
        total = match add_chunk_size::<AttachmentChunk>(total, ATCH_TAG, &self.attachment_chunk) {
            Some(sum) => sum,
            None => {
                return None;
            },
        };
        total = match add_chunk_size::<PivotPointChunk>(total, PIVT_TAG, &self.pivot_point_chunk) {
            Some(sum) => sum,
            None => {
                return None;
            },
        };
        total = match add_chunk_size::<ParticleEmitterChunk>(
            total,
            PREM_TAG,
            &self.particle_emitter_chunk,
        ) {
            Some(sum) => sum,
            None => {
                return None;
            },
        };
        total = match add_chunk_size::<ParticleEmitter2Chunk>(
            total,
            PRE2_TAG,
            &self.particle_emitter2_chunk,
        ) {
            Some(sum) => sum,
            None => {
                return None;
            },
        };
        total = match add_chunk_size::<RibbonEmitterChunk>(
            total,
            RIBB_TAG,
            &self.ribbon_emitter_chunk,
        ) {
            Some(sum) => sum,
            None => {
                return None;
            },
        };
        total = match add_chunk_size::<EventObjectChunk>(
            total,
            EVTS_TAG,
            &self.event_object_chunk,
        ) {
            Some(sum) => sum,
            None => {
                return None;
            },
        };
        total = match add_chunk_size::<CameraChunk>(total, CAMS_TAG, &self.camera_chunk) {
            Some(sum) => sum,
            None => {
                return None;
            },
        };
        total = match add_chunk_size::<CollisionShapeChunk>(
            total,
            CLID_TAG,
            &self.collision_shape_chunk,
        ) {
            Some(sum) => sum,
            None => {
                return None;
            },
        };
        total = match add_chunk_size::<MaterialChunk>(total, MTLS_TAG, &self.material_chunk) {
            Some(sum) => sum,
            None => {
                return None;
            },
        };
        Some(total)
    }

    /// Decodes the chunk that `tag` names at `offset` of `data`, puts it
    /// into the model in place of what the model held of that kind, and moves
    /// `offset` behind it. On failure the model and `offset` stay as they
    /// were.
    fn handle_tag(&mut self, tag: u32, data: &[u8], offset: &mut usize) -> (r: Result<(), MdlxError>)
        requires
            *old(offset) <= data@.len(),
        ensures
            match parse_chunk(tag, data@.skip(*old(offset) as int), old(self)@) {
                Ok((next, n)) => r is Ok && final(self)@ == next && *final(offset) == *old(offset) + n
                    && *old(offset) < *final(offset) <= data@.len(),
                Err(e) => r == Err::<(), MdlxError>(e) && final(self)@ == old(self)@ && *final(offset)
                    == *old(offset),
            },
    {
        if tag == VERS_TAG {
            match read_chunk::<VersionChunk>(data, *offset) {
                Ok((chunk, next)) => {
                    self.version_chunk = Some(chunk);
                    *offset = next;
                    Ok(())
                },
                Err(e) => Err(e),
            }
        }         else if tag == MODL_TAG {
            match read_chunk::<ModelChunk>(data, *offset) {
                Ok((chunk, next)) => {
                    self.model_chunk = Some(chunk);
                    *offset = next;
                    Ok(())
                },
                Err(e) => Err(e),
            }
        }         else if tag == SEQS_TAG {
            match read_chunk::<SequenceChunk>(data, *offset) {
                Ok((chunk, next)) => {
                    self.sequence_chunk = Some(chunk);
                    *offset = next;
                    Ok(())
                },
                Err(e) => Err(e),
            }
        }         else if tag == GLBS_TAG {
            match read_chunk::<GlobalSequenceChunk>(data, *offset) {
                Ok((chunk, next)) => {
                    self.global_sequence_chunk = Some(chunk);
                    *offset = next;
                    Ok(())
                },
                Err(e) => Err(e),
            }
        }         else if tag == TEXS_TAG {
            match read_chunk::<TextureChunk>(data, *offset) {
                Ok((chunk, next)) => {
                    self.texture_chunk = Some(chunk);
                    *offset = next;
                    Ok(())
                },
                Err(e) => Err(e),
            }
        }         else if tag == TXAN_TAG {
            match read_chunk::<TextureAnimationChunk>(data, *offset) {
                Ok((chunk, next)) => {
                    self.texture_animation_chunk = Some(chunk);
                    *offset = next;
                    Ok(())
                },
                Err(e) => Err(e),
            }
        }         else if tag == GEOS_TAG {
            match read_chunk::<GeosetChunk>(data, *offset) {
                Ok((chunk, next)) => {
                    self.geoset_chunk = Some(chunk);
                    *offset = next;
                    Ok(())
                },
                Err(e) => Err(e),
            }
        }         else if tag == GEOA_TAG {
            match read_chunk::<GeosetAnimationChunk>(data, *offset) {
                Ok((chunk, next)) => {
                    self.geoset_animation_chunk = Some(chunk);
                    *offset = next;
                    Ok(())
                },
                Err(e) => Err(e),
            }
        }         else if tag == BONE_TAG {
            match read_chunk::<BoneChunk>(data, *offset) {
                Ok((chunk, next)) => {
                    self.bone_chunk = Some(chunk);
                    *offset = next;
                    Ok(())
                },
                Err(e) => Err(e),
            }
        }         else if tag == LITE_TAG {
            match read_chunk::<LightChunk>(data, *offset) {
                Ok((chunk, next)) => {
                    self.light_chunk = Some(chunk);
                    *offset = next;
                    Ok(())
                },
                Err(e) => Err(e),
            }
        }         else if tag == HELP_TAG {
            match read_chunk::<HelperChunk>(data, *offset) {
                Ok((chunk, next)) => {
                    self.helper_chunk = Some(chunk);
                    *offset = next;
                    Ok(())
                },
                Err(e) => Err(e),
            }
        }         else if tag == ATCH_TAG {
            match read_chunk::<AttachmentChunk>(data, *offset) {
                Ok((chunk, next)) => {
                    self.attachment_chunk = Some(chunk);
                    *offset = next;
                    Ok(())
                },
                Err(e) => Err(e),
            }
        }         else if tag == PIVT_TAG {
            match read_chunk::<PivotPointChunk>(data, *offset) {
                Ok((chunk, next)) => {
                    self.pivot_point_chunk = Some(chunk);
                    *offset = next;
                    Ok(())
                },
                Err(e) => Err(e),
            }
        }         else if tag == PREM_TAG {
            match read_chunk::<ParticleEmitterChunk>(data, *offset) {
                Ok((chunk, next)) => {
                    self.particle_emitter_chunk = Some(chunk);
                    *offset = next;
                    Ok(())
                },
                Err(e) => Err(e),
            }
        }         else if tag == PRE2_TAG {
            match read_chunk::<ParticleEmitter2Chunk>(data, *offset) {
                Ok((chunk, next)) => {
                    self.particle_emitter2_chunk = Some(chunk);
                    *offset = next;
                    Ok(())
                },
                Err(e) => Err(e),
            }
        }         else if tag == RIBB_TAG {
            match read_chunk::<RibbonEmitterChunk>(data, *offset) {
                Ok((chunk, next)) => {
                    self.ribbon_emitter_chunk = Some(chunk);
                    *offset = next;
                    Ok(())
                },
                Err(e) => Err(e),
            }
        }         else if tag == EVTS_TAG {
            match read_chunk::<EventObjectChunk>(data, *offset) {
                Ok((chunk, next)) => {
                    self.event_object_chunk = Some(chunk);
                    *offset = next;
                    Ok(())
                },
                Err(e) => Err(e),
            }
        }         else if tag == CAMS_TAG {
            match read_chunk::<CameraChunk>(data, *offset) {
                Ok((chunk, next)) => {
                    self.camera_chunk = Some(chunk);
                    *offset = next;
                    Ok(())
                },
                Err(e) => Err(e),
            }
        }         else if tag == CLID_TAG {
            match read_chunk::<CollisionShapeChunk>(data, *offset) {
                Ok((chunk, next)) => {
                    self.collision_shape_chunk = Some(chunk);
                    *offset = next;
                    Ok(())
                },
                Err(e) => Err(e),
            }
        }         else if tag == MTLS_TAG {
            match read_chunk::<MaterialChunk>(data, *offset) {
                Ok((chunk, next)) => {
                    self.material_chunk = Some(chunk);
                    *offset = next;
                    Ok(())
                },
                Err(e) => Err(e),
            }
        } else {
            Err(MdlxError::UnknownTag(tag))
        }
    }
}

} // verus!
