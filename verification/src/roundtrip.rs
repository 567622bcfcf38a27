//! That files survive decoding and encoding.
//!
//! A model is well formed when its names fit their fields, its keyframes
//! have the width and the tangents that their properties call for, and its
//! counts and sizes say what is there. The file that is written for a
//! well-formed model is read as that model. And a model that is read from a
//! file is well formed as soon as the sizes in it are right: a decoder sees
//! to everything else.

use vstd::prelude::*;
use crate::codec::{chunk_bytes, Codec, Lossless};
use crate::error::MdlxError;
use crate::geoset::GeosetAnimationChunk;
use crate::header::{ModelChunk, VersionChunk};
use crate::model::{
    corrected, empty_model, lemma_parse_chunk_bounds, model_encoding, parse_chunk, parse_chunks,
    parse_model, payloads_fit, MDLXModelView,
};
use crate::node::{BoneChunk, HelperChunk, PivotPointChunk};
use crate::opaque::{
    AttachmentChunk, CameraChunk, CollisionShapeChunk, EventObjectChunk, GeosetChunk, LightChunk,
    MaterialChunk, ParticleEmitter2Chunk, ParticleEmitterChunk, RibbonEmitterChunk,
};
use crate::primitives::{le32, lemma_le32_len, lemma_u32_at_le32, u32_at};
use crate::sequence::{GlobalSequenceChunk, SequenceChunk};
use crate::tags::{
    ATCH_TAG, BONE_TAG, CAMS_TAG, CLID_TAG, EVTS_TAG, GEOA_TAG, GEOS_TAG, GLBS_TAG, HELP_TAG,
    LITE_TAG, MDLX_TAG, MODL_TAG, MTLS_TAG, PIVT_TAG, PRE2_TAG, PREM_TAG, RIBB_TAG, SEQS_TAG,
    TEXS_TAG, TXAN_TAG, VERS_TAG,
};
use crate::texture::{TextureAnimationChunk, TextureChunk};

verus! {

/// An optional chunk is well formed if it is absent or well formed.
pub open spec fn chunk_well_formed<T: Lossless>(chunk: Option<T::V>) -> bool {
    chunk matches Some(v) ==> T::well_formed(v)
}

/// Every chunk of the model is well formed: names fit their fields, counts
/// and sizes say what is there, and every keyframe has the width and the
/// tangents that its property calls for.
pub open spec fn model_well_formed(m: MDLXModelView) -> bool {
    &&& chunk_well_formed::<VersionChunk>(m.version_chunk)
    &&& chunk_well_formed::<ModelChunk>(m.model_chunk)
    &&& chunk_well_formed::<SequenceChunk>(m.sequence_chunk)
    &&& chunk_well_formed::<GlobalSequenceChunk>(m.global_sequence_chunk)
    &&& chunk_well_formed::<TextureChunk>(m.texture_chunk)
    &&& chunk_well_formed::<TextureAnimationChunk>(m.texture_animation_chunk)
    &&& chunk_well_formed::<GeosetChunk>(m.geoset_chunk)
    &&& chunk_well_formed::<GeosetAnimationChunk>(m.geoset_animation_chunk)
    &&& chunk_well_formed::<BoneChunk>(m.bone_chunk)
    &&& chunk_well_formed::<LightChunk>(m.light_chunk)
    &&& chunk_well_formed::<HelperChunk>(m.helper_chunk)
    &&& chunk_well_formed::<AttachmentChunk>(m.attachment_chunk)
    &&& chunk_well_formed::<PivotPointChunk>(m.pivot_point_chunk)
    &&& chunk_well_formed::<ParticleEmitterChunk>(m.particle_emitter_chunk)
    &&& chunk_well_formed::<ParticleEmitter2Chunk>(m.particle_emitter2_chunk)
    &&& chunk_well_formed::<RibbonEmitterChunk>(m.ribbon_emitter_chunk)
    &&& chunk_well_formed::<EventObjectChunk>(m.event_object_chunk)
    &&& chunk_well_formed::<CameraChunk>(m.camera_chunk)
    &&& chunk_well_formed::<CollisionShapeChunk>(m.collision_shape_chunk)
    &&& chunk_well_formed::<MaterialChunk>(m.material_chunk)
}

/// The bytes of the chunks of the model from the `from`-th kind on, in the
/// order of the fields.
pub open spec fn chunks_from(m: MDLXModelView, from: nat) -> Seq<u8>
    decreases 20 - from,
{
    if from == 0 {
        chunk_bytes::<VersionChunk>(VERS_TAG, m.version_chunk) + chunks_from(m, 1)
    }     else if from == 1 {
        chunk_bytes::<ModelChunk>(MODL_TAG, m.model_chunk) + chunks_from(m, 2)
    }     else if from == 2 {
        chunk_bytes::<SequenceChunk>(SEQS_TAG, m.sequence_chunk) + chunks_from(m, 3)
    }     else if from == 3 {
        chunk_bytes::<GlobalSequenceChunk>(GLBS_TAG, m.global_sequence_chunk) + chunks_from(m, 4)
    }     else if from == 4 {
        chunk_bytes::<TextureChunk>(TEXS_TAG, m.texture_chunk) + chunks_from(m, 5)
    }     else if from == 5 {
        chunk_bytes::<TextureAnimationChunk>(TXAN_TAG, m.texture_animation_chunk) + chunks_from(m, 6)
    }     else if from == 6 {
        chunk_bytes::<GeosetChunk>(GEOS_TAG, m.geoset_chunk) + chunks_from(m, 7)
    }     else if from == 7 {
        chunk_bytes::<GeosetAnimationChunk>(GEOA_TAG, m.geoset_animation_chunk) + chunks_from(m, 8)
    }     else if from == 8 {
        chunk_bytes::<BoneChunk>(BONE_TAG, m.bone_chunk) + chunks_from(m, 9)
    }     else if from == 9 {
        chunk_bytes::<LightChunk>(LITE_TAG, m.light_chunk) + chunks_from(m, 10)
    }     else if from == 10 {
        chunk_bytes::<HelperChunk>(HELP_TAG, m.helper_chunk) + chunks_from(m, 11)
    }     else if from == 11 {
        chunk_bytes::<AttachmentChunk>(ATCH_TAG, m.attachment_chunk) + chunks_from(m, 12)
    }     else if from == 12 {
        chunk_bytes::<PivotPointChunk>(PIVT_TAG, m.pivot_point_chunk) + chunks_from(m, 13)
    }     else if from == 13 {
        chunk_bytes::<ParticleEmitterChunk>(PREM_TAG, m.particle_emitter_chunk) + chunks_from(m, 14)
    }     else if from == 14 {
        chunk_bytes::<ParticleEmitter2Chunk>(PRE2_TAG, m.particle_emitter2_chunk) + chunks_from(m, 15)
    }     else if from == 15 {
        chunk_bytes::<RibbonEmitterChunk>(RIBB_TAG, m.ribbon_emitter_chunk) + chunks_from(m, 16)
    }     else if from == 16 {
        chunk_bytes::<EventObjectChunk>(EVTS_TAG, m.event_object_chunk) + chunks_from(m, 17)
    }     else if from == 17 {
        chunk_bytes::<CameraChunk>(CAMS_TAG, m.camera_chunk) + chunks_from(m, 18)
    }     else if from == 18 {
        chunk_bytes::<CollisionShapeChunk>(CLID_TAG, m.collision_shape_chunk) + chunks_from(m, 19)
    }     else if from == 19 {
        chunk_bytes::<MaterialChunk>(MTLS_TAG, m.material_chunk) + chunks_from(m, 20)
    } else {
        Seq::empty()
    }
}

/// Where a tag and the encoding of a well-formed chunk stand at `pos` of
/// `s`, the tag is read there and the chunk behind it.
pub proof fn lemma_chunk_step<T: Lossless>(s: Seq<u8>, pos: nat, tag: u32, c: T::V, tail: Seq<u8>)
    requires
        pos <= s.len(),
        s.skip(pos as int) == le32(tag) + T::encoding(c) + tail,
        T::well_formed(c),
    ensures
        pos + 4 <= s.len(),
        pos < s.len(),
        u32_at(s, pos as int) == tag,
        T::parse(s.skip(pos + 4 as int)) == Ok::<(T::V, nat), MdlxError>((c, T::encoding(c).len())),
        chunk_bytes::<T>(tag, Some(c)).len() == 4 + T::encoding(c).len(),
        s.skip(pos + 4 + T::encoding(c).len() as int) == tail,
{
    lemma_le32_len(tag);
    assert(s.skip(pos as int).len() >= 4);
    assert(s.subrange(pos as int, pos as int + 4) =~= s.skip(pos as int).subrange(0, 4));
    assert(s.skip(pos as int).subrange(0, 4) =~= le32(tag));
    lemma_u32_at_le32(s, pos as int, tag);
    assert(s.skip(pos + 4 as int) =~= s.skip(pos as int).skip(4));
    assert(s.skip(pos as int).skip(4) =~= T::encoding(c) + tail);
    T::lemma_round_trip(c, tail);
    assert(s.skip(pos + 4 + T::encoding(c).len() as int) =~= s.skip(pos as int).skip(
        4 + T::encoding(c).len() as int,
    ));
    assert(s.skip(pos as int).skip(4 + T::encoding(c).len() as int) =~= tail);
}

/// The model that holds the chunks of `m` of the kinds before the `upto`-th
/// and no others.
pub open spec fn model_upto(m: MDLXModelView, upto: nat) -> MDLXModelView {
    MDLXModelView {
        version_chunk: if upto > 0 {
            m.version_chunk
        } else {
            None
        },
        model_chunk: if upto > 1 {
            m.model_chunk
        } else {
            None
        },
        sequence_chunk: if upto > 2 {
            m.sequence_chunk
        } else {
            None
        },
        global_sequence_chunk: if upto > 3 {
            m.global_sequence_chunk
        } else {
            None
        },
        texture_chunk: if upto > 4 {
            m.texture_chunk
        } else {
            None
        },
        texture_animation_chunk: if upto > 5 {
            m.texture_animation_chunk
        } else {
            None
        },
        geoset_chunk: if upto > 6 {
            m.geoset_chunk
        } else {
            None
        },
        geoset_animation_chunk: if upto > 7 {
            m.geoset_animation_chunk
        } else {
            None
        },
        bone_chunk: if upto > 8 {
            m.bone_chunk
        } else {
            None
        },
        light_chunk: if upto > 9 {
            m.light_chunk
        } else {
            None
        },
        helper_chunk: if upto > 10 {
            m.helper_chunk
        } else {
            None
        },
        attachment_chunk: if upto > 11 {
            m.attachment_chunk
        } else {
            None
        },
        pivot_point_chunk: if upto > 12 {
            m.pivot_point_chunk
        } else {
            None
        },
        particle_emitter_chunk: if upto > 13 {
            m.particle_emitter_chunk
        } else {
            None
        },
        particle_emitter2_chunk: if upto > 14 {
            m.particle_emitter2_chunk
        } else {
            None
        },
        ribbon_emitter_chunk: if upto > 15 {
            m.ribbon_emitter_chunk
        } else {
            None
        },
        event_object_chunk: if upto > 16 {
            m.event_object_chunk
        } else {
            None
        },
        camera_chunk: if upto > 17 {
            m.camera_chunk
        } else {
            None
        },
        collision_shape_chunk: if upto > 18 {
            m.collision_shape_chunk
        } else {
            None
        },
        material_chunk: if upto > 19 {
            m.material_chunk
        } else {
            None
        },
    }
}

/// The bytes of the magic tag and of the chunks of the model of the kinds
/// before the `upto`-th.
pub open spec fn chunks_upto(m: MDLXModelView, upto: nat) -> Seq<u8>
    decreases upto,
{
    if upto == 20 {
        chunks_upto(m, 19) + chunk_bytes::<MaterialChunk>(MTLS_TAG, m.material_chunk)
    }     else if upto == 19 {
        chunks_upto(m, 18) + chunk_bytes::<CollisionShapeChunk>(CLID_TAG, m.collision_shape_chunk)
    }     else if upto == 18 {
        chunks_upto(m, 17) + chunk_bytes::<CameraChunk>(CAMS_TAG, m.camera_chunk)
    }     else if upto == 17 {
        chunks_upto(m, 16) + chunk_bytes::<EventObjectChunk>(EVTS_TAG, m.event_object_chunk)
    }     else if upto == 16 {
        chunks_upto(m, 15) + chunk_bytes::<RibbonEmitterChunk>(RIBB_TAG, m.ribbon_emitter_chunk)
    }     else if upto == 15 {
        chunks_upto(m, 14) + chunk_bytes::<ParticleEmitter2Chunk>(PRE2_TAG, m.particle_emitter2_chunk)
    }     else if upto == 14 {
        chunks_upto(m, 13) + chunk_bytes::<ParticleEmitterChunk>(PREM_TAG, m.particle_emitter_chunk)
    }     else if upto == 13 {
        chunks_upto(m, 12) + chunk_bytes::<PivotPointChunk>(PIVT_TAG, m.pivot_point_chunk)
    }     else if upto == 12 {
        chunks_upto(m, 11) + chunk_bytes::<AttachmentChunk>(ATCH_TAG, m.attachment_chunk)
    }     else if upto == 11 {
        chunks_upto(m, 10) + chunk_bytes::<HelperChunk>(HELP_TAG, m.helper_chunk)
    }     else if upto == 10 {
        chunks_upto(m, 9) + chunk_bytes::<LightChunk>(LITE_TAG, m.light_chunk)
    }     else if upto == 9 {
        chunks_upto(m, 8) + chunk_bytes::<BoneChunk>(BONE_TAG, m.bone_chunk)
    }     else if upto == 8 {
        chunks_upto(m, 7) + chunk_bytes::<GeosetAnimationChunk>(GEOA_TAG, m.geoset_animation_chunk)
    }     else if upto == 7 {
        chunks_upto(m, 6) + chunk_bytes::<GeosetChunk>(GEOS_TAG, m.geoset_chunk)
    }     else if upto == 6 {
        chunks_upto(m, 5) + chunk_bytes::<TextureAnimationChunk>(TXAN_TAG, m.texture_animation_chunk)
    }     else if upto == 5 {
        chunks_upto(m, 4) + chunk_bytes::<TextureChunk>(TEXS_TAG, m.texture_chunk)
    }     else if upto == 4 {
        chunks_upto(m, 3) + chunk_bytes::<GlobalSequenceChunk>(GLBS_TAG, m.global_sequence_chunk)
    }     else if upto == 3 {
        chunks_upto(m, 2) + chunk_bytes::<SequenceChunk>(SEQS_TAG, m.sequence_chunk)
    }     else if upto == 2 {
        chunks_upto(m, 1) + chunk_bytes::<ModelChunk>(MODL_TAG, m.model_chunk)
    }     else if upto == 1 {
        chunks_upto(m, 0) + chunk_bytes::<VersionChunk>(VERS_TAG, m.version_chunk)
    } else {
        le32(MDLX_TAG)
    }
}

/// Bytes can be put together in any grouping.
proof fn lemma_grouping(a: Seq<u8>, b: Seq<u8>, c: Seq<u8>)
    ensures
        a + (b + c) == a + b + c,
{
    assert(a + (b + c) =~= a + b + c);
}

/// The bytes of a file are those of the chunks of the first kinds followed
/// by those of the chunks of the other kinds.
pub proof fn lemma_chunks_split(m: MDLXModelView, k: nat)
    requires
        k <= 20,
    ensures
        chunks_upto(m, k) + chunks_from(m, k) == chunks_upto(m, 20),
    decreases 20 - k,
{
    if k >= 20 {
        assert(chunks_from(m, k) =~= Seq::<u8>::empty());
        assert(chunks_upto(m, k) + Seq::<u8>::empty() =~= chunks_upto(m, k));
    } else {
        lemma_chunks_split(m, k + 1);
        let front = chunks_upto(m, k);
        let tail = chunks_from(m, k + 1);
        if k == 0 {
            lemma_grouping(front, chunk_bytes::<VersionChunk>(VERS_TAG, m.version_chunk), tail);
        }         else if k == 1 {
            lemma_grouping(front, chunk_bytes::<ModelChunk>(MODL_TAG, m.model_chunk), tail);
        }         else if k == 2 {
            lemma_grouping(front, chunk_bytes::<SequenceChunk>(SEQS_TAG, m.sequence_chunk), tail);
        }         else if k == 3 {
            lemma_grouping(front, chunk_bytes::<GlobalSequenceChunk>(GLBS_TAG, m.global_sequence_chunk), tail);
        }         else if k == 4 {
            lemma_grouping(front, chunk_bytes::<TextureChunk>(TEXS_TAG, m.texture_chunk), tail);
        }         else if k == 5 {
            lemma_grouping(front, chunk_bytes::<TextureAnimationChunk>(TXAN_TAG, m.texture_animation_chunk), tail);
        }         else if k == 6 {
            lemma_grouping(front, chunk_bytes::<GeosetChunk>(GEOS_TAG, m.geoset_chunk), tail);
        }         else if k == 7 {
            lemma_grouping(front, chunk_bytes::<GeosetAnimationChunk>(GEOA_TAG, m.geoset_animation_chunk), tail);
        }         else if k == 8 {
            lemma_grouping(front, chunk_bytes::<BoneChunk>(BONE_TAG, m.bone_chunk), tail);
        }         else if k == 9 {
            lemma_grouping(front, chunk_bytes::<LightChunk>(LITE_TAG, m.light_chunk), tail);
        }         else if k == 10 {
            lemma_grouping(front, chunk_bytes::<HelperChunk>(HELP_TAG, m.helper_chunk), tail);
        }         else if k == 11 {
            lemma_grouping(front, chunk_bytes::<AttachmentChunk>(ATCH_TAG, m.attachment_chunk), tail);
        }         else if k == 12 {
            lemma_grouping(front, chunk_bytes::<PivotPointChunk>(PIVT_TAG, m.pivot_point_chunk), tail);
        }         else if k == 13 {
            lemma_grouping(front, chunk_bytes::<ParticleEmitterChunk>(PREM_TAG, m.particle_emitter_chunk), tail);
        }         else if k == 14 {
            lemma_grouping(front, chunk_bytes::<ParticleEmitter2Chunk>(PRE2_TAG, m.particle_emitter2_chunk), tail);
        }         else if k == 15 {
            lemma_grouping(front, chunk_bytes::<RibbonEmitterChunk>(RIBB_TAG, m.ribbon_emitter_chunk), tail);
        }         else if k == 16 {
            lemma_grouping(front, chunk_bytes::<EventObjectChunk>(EVTS_TAG, m.event_object_chunk), tail);
        }         else if k == 17 {
            lemma_grouping(front, chunk_bytes::<CameraChunk>(CAMS_TAG, m.camera_chunk), tail);
        }         else if k == 18 {
            lemma_grouping(front, chunk_bytes::<CollisionShapeChunk>(CLID_TAG, m.collision_shape_chunk), tail);
        }         else if k == 19 {
            lemma_grouping(front, chunk_bytes::<MaterialChunk>(MTLS_TAG, m.material_chunk), tail);
        } 
    }
}

/// The bytes of a file are the magic tag followed by the bytes of the chunks.
pub proof fn lemma_model_encoding_chunks(m: MDLXModelView)
    ensures
        model_encoding(m) == le32(MDLX_TAG) + chunks_from(m, 0),
{
    let u0 = chunks_upto(m, 0);
    assert(u0 == le32(MDLX_TAG));
    let u1 = chunks_upto(m, 1);
    assert(u1 == u0 + chunk_bytes::<VersionChunk>(VERS_TAG, m.version_chunk));
    let u2 = chunks_upto(m, 2);
    assert(u2 == u1 + chunk_bytes::<ModelChunk>(MODL_TAG, m.model_chunk));
    let u3 = chunks_upto(m, 3);
    assert(u3 == u2 + chunk_bytes::<SequenceChunk>(SEQS_TAG, m.sequence_chunk));
    let u4 = chunks_upto(m, 4);
    assert(u4 == u3 + chunk_bytes::<GlobalSequenceChunk>(GLBS_TAG, m.global_sequence_chunk));
    let u5 = chunks_upto(m, 5);
    assert(u5 == u4 + chunk_bytes::<TextureChunk>(TEXS_TAG, m.texture_chunk));
    let u6 = chunks_upto(m, 6);
    assert(u6 == u5 + chunk_bytes::<TextureAnimationChunk>(TXAN_TAG, m.texture_animation_chunk));
    let u7 = chunks_upto(m, 7);
    assert(u7 == u6 + chunk_bytes::<GeosetChunk>(GEOS_TAG, m.geoset_chunk));
    let u8 = chunks_upto(m, 8);
    assert(u8 == u7 + chunk_bytes::<GeosetAnimationChunk>(GEOA_TAG, m.geoset_animation_chunk));
    let u9 = chunks_upto(m, 9);
    assert(u9 == u8 + chunk_bytes::<BoneChunk>(BONE_TAG, m.bone_chunk));
    let u10 = chunks_upto(m, 10);
    assert(u10 == u9 + chunk_bytes::<LightChunk>(LITE_TAG, m.light_chunk));
    let u11 = chunks_upto(m, 11);
    assert(u11 == u10 + chunk_bytes::<HelperChunk>(HELP_TAG, m.helper_chunk));
    let u12 = chunks_upto(m, 12);
    assert(u12 == u11 + chunk_bytes::<AttachmentChunk>(ATCH_TAG, m.attachment_chunk));
    let u13 = chunks_upto(m, 13);
    assert(u13 == u12 + chunk_bytes::<PivotPointChunk>(PIVT_TAG, m.pivot_point_chunk));
    let u14 = chunks_upto(m, 14);
    assert(u14 == u13 + chunk_bytes::<ParticleEmitterChunk>(PREM_TAG, m.particle_emitter_chunk));
    let u15 = chunks_upto(m, 15);
    assert(u15 == u14 + chunk_bytes::<ParticleEmitter2Chunk>(PRE2_TAG, m.particle_emitter2_chunk));
    let u16 = chunks_upto(m, 16);
    assert(u16 == u15 + chunk_bytes::<RibbonEmitterChunk>(RIBB_TAG, m.ribbon_emitter_chunk));
    let u17 = chunks_upto(m, 17);
    assert(u17 == u16 + chunk_bytes::<EventObjectChunk>(EVTS_TAG, m.event_object_chunk));
    let u18 = chunks_upto(m, 18);
    assert(u18 == u17 + chunk_bytes::<CameraChunk>(CAMS_TAG, m.camera_chunk));
    let u19 = chunks_upto(m, 19);
    assert(u19 == u18 + chunk_bytes::<CollisionShapeChunk>(CLID_TAG, m.collision_shape_chunk));
    let u20 = chunks_upto(m, 20);
    assert(u20 == u19 + chunk_bytes::<MaterialChunk>(MTLS_TAG, m.material_chunk));
    assert(u20 == model_encoding(m));
    lemma_chunks_split(m, 0);
}

/// Where nothing is left of the file, the model is complete.
proof fn lemma_rest_done(s: Seq<u8>, pos: nat, m: MDLXModelView)
    requires
        pos <= s.len(),
        s.skip(pos as int) == chunks_from(m, 20),
    ensures
        parse_chunks(s, pos, model_upto(m, 20)) == Ok::<MDLXModelView, MdlxError>(m),
{
    assert(s.skip(pos as int).len() == 0);
    assert(model_upto(m, 20) == m);
}

/// Where the chunks from the twentieth kind on stand at `pos`, and those of the
/// kinds before are decoded, the rest is decoded to the whole model.
proof fn lemma_rest_material_chunk(s: Seq<u8>, pos: nat, m: MDLXModelView)
    requires
        pos <= s.len(),
        s.skip(pos as int) == chunks_from(m, 19),
        model_well_formed(m),
    ensures
        parse_chunks(s, pos, model_upto(m, 19)) == Ok::<MDLXModelView, MdlxError>(m),
{
    let tail = chunks_from(m, 20);
    let acc = model_upto(m, 19);
    match m.material_chunk {
        Some(c) => {
            assert(s.skip(pos as int) =~= le32(MTLS_TAG) + MaterialChunk::encoding(c) + tail);
            lemma_chunk_step::<MaterialChunk>(s, pos, MTLS_TAG, c, tail);
            let next = (pos + 4 + MaterialChunk::encoding(c).len()) as nat;
            assert(parse_chunk(MTLS_TAG, s.skip(pos + 4 as int), acc) == Ok::<(MDLXModelView, nat), MdlxError>(
                (MDLXModelView { material_chunk: Some(c), ..acc }, MaterialChunk::encoding(c).len()),
            ));
            assert(MDLXModelView { material_chunk: Some(c), ..acc } == model_upto(m, 20));
            lemma_rest_done(s, next, m);
        },
        None => {
            assert(s.skip(pos as int) =~= tail);
            assert(acc == model_upto(m, 20));
            lemma_rest_done(s, pos, m);
        },
    }
}

/// Where the chunks from the nineteenth kind on stand at `pos`, and those of the
/// kinds before are decoded, the rest is decoded to the whole model.
proof fn lemma_rest_collision_shape_chunk(s: Seq<u8>, pos: nat, m: MDLXModelView)
    requires
        pos <= s.len(),
        s.skip(pos as int) == chunks_from(m, 18),
        model_well_formed(m),
    ensures
        parse_chunks(s, pos, model_upto(m, 18)) == Ok::<MDLXModelView, MdlxError>(m),
{
    let tail = chunks_from(m, 19);
    let acc = model_upto(m, 18);
    match m.collision_shape_chunk {
        Some(c) => {
            assert(s.skip(pos as int) =~= le32(CLID_TAG) + CollisionShapeChunk::encoding(c) + tail);
            lemma_chunk_step::<CollisionShapeChunk>(s, pos, CLID_TAG, c, tail);
            let next = (pos + 4 + CollisionShapeChunk::encoding(c).len()) as nat;
            assert(parse_chunk(CLID_TAG, s.skip(pos + 4 as int), acc) == Ok::<(MDLXModelView, nat), MdlxError>(
                (MDLXModelView { collision_shape_chunk: Some(c), ..acc }, CollisionShapeChunk::encoding(c).len()),
            ));
            assert(MDLXModelView { collision_shape_chunk: Some(c), ..acc } == model_upto(m, 19));
            lemma_rest_material_chunk(s, next, m);
        },
        None => {
            assert(s.skip(pos as int) =~= tail);
            assert(acc == model_upto(m, 19));
            lemma_rest_material_chunk(s, pos, m);
        },
    }
}

/// Where the chunks from the eighteenth kind on stand at `pos`, and those of the
/// kinds before are decoded, the rest is decoded to the whole model.
proof fn lemma_rest_camera_chunk(s: Seq<u8>, pos: nat, m: MDLXModelView)
    requires
        pos <= s.len(),
        s.skip(pos as int) == chunks_from(m, 17),
        model_well_formed(m),
    ensures
        parse_chunks(s, pos, model_upto(m, 17)) == Ok::<MDLXModelView, MdlxError>(m),
{
    let tail = chunks_from(m, 18);
    let acc = model_upto(m, 17);
    match m.camera_chunk {
        Some(c) => {
            assert(s.skip(pos as int) =~= le32(CAMS_TAG) + CameraChunk::encoding(c) + tail);
            lemma_chunk_step::<CameraChunk>(s, pos, CAMS_TAG, c, tail);
            let next = (pos + 4 + CameraChunk::encoding(c).len()) as nat;
            assert(parse_chunk(CAMS_TAG, s.skip(pos + 4 as int), acc) == Ok::<(MDLXModelView, nat), MdlxError>(
                (MDLXModelView { camera_chunk: Some(c), ..acc }, CameraChunk::encoding(c).len()),
            ));
            assert(MDLXModelView { camera_chunk: Some(c), ..acc } == model_upto(m, 18));
            lemma_rest_collision_shape_chunk(s, next, m);
        },
        None => {
            assert(s.skip(pos as int) =~= tail);
            assert(acc == model_upto(m, 18));
            lemma_rest_collision_shape_chunk(s, pos, m);
        },
    }
}

/// Where the chunks from the seventeenth kind on stand at `pos`, and those of the
/// kinds before are decoded, the rest is decoded to the whole model.
proof fn lemma_rest_event_object_chunk(s: Seq<u8>, pos: nat, m: MDLXModelView)
    requires
        pos <= s.len(),
        s.skip(pos as int) == chunks_from(m, 16),
        model_well_formed(m),
    ensures
        parse_chunks(s, pos, model_upto(m, 16)) == Ok::<MDLXModelView, MdlxError>(m),
{
    let tail = chunks_from(m, 17);
    let acc = model_upto(m, 16);
    match m.event_object_chunk {
        Some(c) => {
            assert(s.skip(pos as int) =~= le32(EVTS_TAG) + EventObjectChunk::encoding(c) + tail);
            lemma_chunk_step::<EventObjectChunk>(s, pos, EVTS_TAG, c, tail);
            let next = (pos + 4 + EventObjectChunk::encoding(c).len()) as nat;
            assert(parse_chunk(EVTS_TAG, s.skip(pos + 4 as int), acc) == Ok::<(MDLXModelView, nat), MdlxError>(
                (MDLXModelView { event_object_chunk: Some(c), ..acc }, EventObjectChunk::encoding(c).len()),
            ));
            assert(MDLXModelView { event_object_chunk: Some(c), ..acc } == model_upto(m, 17));
            lemma_rest_camera_chunk(s, next, m);
        },
        None => {
            assert(s.skip(pos as int) =~= tail);
            assert(acc == model_upto(m, 17));
            lemma_rest_camera_chunk(s, pos, m);
        },
    }
}

/// Where the chunks from the sixteenth kind on stand at `pos`, and those of the
/// kinds before are decoded, the rest is decoded to the whole model.
proof fn lemma_rest_ribbon_emitter_chunk(s: Seq<u8>, pos: nat, m: MDLXModelView)
    requires
        pos <= s.len(),
        s.skip(pos as int) == chunks_from(m, 15),
        model_well_formed(m),
    ensures
        parse_chunks(s, pos, model_upto(m, 15)) == Ok::<MDLXModelView, MdlxError>(m),
{
    let tail = chunks_from(m, 16);
    let acc = model_upto(m, 15);
    match m.ribbon_emitter_chunk {
        Some(c) => {
            assert(s.skip(pos as int) =~= le32(RIBB_TAG) + RibbonEmitterChunk::encoding(c) + tail);
            lemma_chunk_step::<RibbonEmitterChunk>(s, pos, RIBB_TAG, c, tail);
            let next = (pos + 4 + RibbonEmitterChunk::encoding(c).len()) as nat;
            assert(parse_chunk(RIBB_TAG, s.skip(pos + 4 as int), acc) == Ok::<(MDLXModelView, nat), MdlxError>(
                (MDLXModelView { ribbon_emitter_chunk: Some(c), ..acc }, RibbonEmitterChunk::encoding(c).len()),
            ));
            assert(MDLXModelView { ribbon_emitter_chunk: Some(c), ..acc } == model_upto(m, 16));
            lemma_rest_event_object_chunk(s, next, m);
        },
        None => {
            assert(s.skip(pos as int) =~= tail);
            assert(acc == model_upto(m, 16));
            lemma_rest_event_object_chunk(s, pos, m);
        },
    }
}

/// Where the chunks from the fifteenth kind on stand at `pos`, and those of the
/// kinds before are decoded, the rest is decoded to the whole model.
proof fn lemma_rest_particle_emitter2_chunk(s: Seq<u8>, pos: nat, m: MDLXModelView)
    requires
        pos <= s.len(),
        s.skip(pos as int) == chunks_from(m, 14),
        model_well_formed(m),
    ensures
        parse_chunks(s, pos, model_upto(m, 14)) == Ok::<MDLXModelView, MdlxError>(m),
{
    let tail = chunks_from(m, 15);
    let acc = model_upto(m, 14);
    match m.particle_emitter2_chunk {
        Some(c) => {
            assert(s.skip(pos as int) =~= le32(PRE2_TAG) + ParticleEmitter2Chunk::encoding(c) + tail);
            lemma_chunk_step::<ParticleEmitter2Chunk>(s, pos, PRE2_TAG, c, tail);
            let next = (pos + 4 + ParticleEmitter2Chunk::encoding(c).len()) as nat;
            assert(parse_chunk(PRE2_TAG, s.skip(pos + 4 as int), acc) == Ok::<(MDLXModelView, nat), MdlxError>(
                (MDLXModelView { particle_emitter2_chunk: Some(c), ..acc }, ParticleEmitter2Chunk::encoding(c).len()),
            ));
            assert(MDLXModelView { particle_emitter2_chunk: Some(c), ..acc } == model_upto(m, 15));
            lemma_rest_ribbon_emitter_chunk(s, next, m);
        },
        None => {
            assert(s.skip(pos as int) =~= tail);
            assert(acc == model_upto(m, 15));
            lemma_rest_ribbon_emitter_chunk(s, pos, m);
        },
    }
}

/// Where the chunks from the fourteenth kind on stand at `pos`, and those of the
/// kinds before are decoded, the rest is decoded to the whole model.
proof fn lemma_rest_particle_emitter_chunk(s: Seq<u8>, pos: nat, m: MDLXModelView)
    requires
        pos <= s.len(),
        s.skip(pos as int) == chunks_from(m, 13),
        model_well_formed(m),
    ensures
        parse_chunks(s, pos, model_upto(m, 13)) == Ok::<MDLXModelView, MdlxError>(m),
{
    let tail = chunks_from(m, 14);
    let acc = model_upto(m, 13);
    match m.particle_emitter_chunk {
        Some(c) => {
            assert(s.skip(pos as int) =~= le32(PREM_TAG) + ParticleEmitterChunk::encoding(c) + tail);
            lemma_chunk_step::<ParticleEmitterChunk>(s, pos, PREM_TAG, c, tail);
            let next = (pos + 4 + ParticleEmitterChunk::encoding(c).len()) as nat;
            assert(parse_chunk(PREM_TAG, s.skip(pos + 4 as int), acc) == Ok::<(MDLXModelView, nat), MdlxError>(
                (MDLXModelView { particle_emitter_chunk: Some(c), ..acc }, ParticleEmitterChunk::encoding(c).len()),
            ));
            assert(MDLXModelView { particle_emitter_chunk: Some(c), ..acc } == model_upto(m, 14));
            lemma_rest_particle_emitter2_chunk(s, next, m);
        },
        None => {
            assert(s.skip(pos as int) =~= tail);
            assert(acc == model_upto(m, 14));
            lemma_rest_particle_emitter2_chunk(s, pos, m);
        },
    }
}

/// Where the chunks from the thirteenth kind on stand at `pos`, and those of the
/// kinds before are decoded, the rest is decoded to the whole model.
proof fn lemma_rest_pivot_point_chunk(s: Seq<u8>, pos: nat, m: MDLXModelView)
    requires
        pos <= s.len(),
        s.skip(pos as int) == chunks_from(m, 12),
        model_well_formed(m),
    ensures
        parse_chunks(s, pos, model_upto(m, 12)) == Ok::<MDLXModelView, MdlxError>(m),
{
    let tail = chunks_from(m, 13);
    let acc = model_upto(m, 12);
    match m.pivot_point_chunk {
        Some(c) => {
            assert(s.skip(pos as int) =~= le32(PIVT_TAG) + PivotPointChunk::encoding(c) + tail);
            lemma_chunk_step::<PivotPointChunk>(s, pos, PIVT_TAG, c, tail);
            let next = (pos + 4 + PivotPointChunk::encoding(c).len()) as nat;
            assert(parse_chunk(PIVT_TAG, s.skip(pos + 4 as int), acc) == Ok::<(MDLXModelView, nat), MdlxError>(
                (MDLXModelView { pivot_point_chunk: Some(c), ..acc }, PivotPointChunk::encoding(c).len()),
            ));
            assert(MDLXModelView { pivot_point_chunk: Some(c), ..acc } == model_upto(m, 13));
            lemma_rest_particle_emitter_chunk(s, next, m);
        },
        None => {
            assert(s.skip(pos as int) =~= tail);
            assert(acc == model_upto(m, 13));
            lemma_rest_particle_emitter_chunk(s, pos, m);
        },
    }
}

/// Where the chunks from the twelfth kind on stand at `pos`, and those of the
/// kinds before are decoded, the rest is decoded to the whole model.
proof fn lemma_rest_attachment_chunk(s: Seq<u8>, pos: nat, m: MDLXModelView)
    requires
        pos <= s.len(),
        s.skip(pos as int) == chunks_from(m, 11),
        model_well_formed(m),
    ensures
        parse_chunks(s, pos, model_upto(m, 11)) == Ok::<MDLXModelView, MdlxError>(m),
{
    let tail = chunks_from(m, 12);
    let acc = model_upto(m, 11);
    match m.attachment_chunk {
        Some(c) => {
            assert(s.skip(pos as int) =~= le32(ATCH_TAG) + AttachmentChunk::encoding(c) + tail);
            lemma_chunk_step::<AttachmentChunk>(s, pos, ATCH_TAG, c, tail);
            let next = (pos + 4 + AttachmentChunk::encoding(c).len()) as nat;
            assert(parse_chunk(ATCH_TAG, s.skip(pos + 4 as int), acc) == Ok::<(MDLXModelView, nat), MdlxError>(
                (MDLXModelView { attachment_chunk: Some(c), ..acc }, AttachmentChunk::encoding(c).len()),
            ));
            assert(MDLXModelView { attachment_chunk: Some(c), ..acc } == model_upto(m, 12));
            lemma_rest_pivot_point_chunk(s, next, m);
        },
        None => {
            assert(s.skip(pos as int) =~= tail);
            assert(acc == model_upto(m, 12));
            lemma_rest_pivot_point_chunk(s, pos, m);
        },
    }
}

/// Where the chunks from the eleventh kind on stand at `pos`, and those of the
/// kinds before are decoded, the rest is decoded to the whole model.
proof fn lemma_rest_helper_chunk(s: Seq<u8>, pos: nat, m: MDLXModelView)
    requires
        pos <= s.len(),
        s.skip(pos as int) == chunks_from(m, 10),
        model_well_formed(m),
    ensures
        parse_chunks(s, pos, model_upto(m, 10)) == Ok::<MDLXModelView, MdlxError>(m),
{
    let tail = chunks_from(m, 11);
    let acc = model_upto(m, 10);
    match m.helper_chunk {
        Some(c) => {
            assert(s.skip(pos as int) =~= le32(HELP_TAG) + HelperChunk::encoding(c) + tail);
            lemma_chunk_step::<HelperChunk>(s, pos, HELP_TAG, c, tail);
            let next = (pos + 4 + HelperChunk::encoding(c).len()) as nat;
            assert(parse_chunk(HELP_TAG, s.skip(pos + 4 as int), acc) == Ok::<(MDLXModelView, nat), MdlxError>(
                (MDLXModelView { helper_chunk: Some(c), ..acc }, HelperChunk::encoding(c).len()),
            ));
            assert(MDLXModelView { helper_chunk: Some(c), ..acc } == model_upto(m, 11));
            lemma_rest_attachment_chunk(s, next, m);
        },
        None => {
            assert(s.skip(pos as int) =~= tail);
            assert(acc == model_upto(m, 11));
            lemma_rest_attachment_chunk(s, pos, m);
        },
    }
}

/// Where the chunks from the tenth kind on stand at `pos`, and those of the
/// kinds before are decoded, the rest is decoded to the whole model.
proof fn lemma_rest_light_chunk(s: Seq<u8>, pos: nat, m: MDLXModelView)
    requires
        pos <= s.len(),
        s.skip(pos as int) == chunks_from(m, 9),
        model_well_formed(m),
    ensures
        parse_chunks(s, pos, model_upto(m, 9)) == Ok::<MDLXModelView, MdlxError>(m),
{
    let tail = chunks_from(m, 10);
    let acc = model_upto(m, 9);
    match m.light_chunk {
        Some(c) => {
            assert(s.skip(pos as int) =~= le32(LITE_TAG) + LightChunk::encoding(c) + tail);
            lemma_chunk_step::<LightChunk>(s, pos, LITE_TAG, c, tail);
            let next = (pos + 4 + LightChunk::encoding(c).len()) as nat;
            assert(parse_chunk(LITE_TAG, s.skip(pos + 4 as int), acc) == Ok::<(MDLXModelView, nat), MdlxError>(
                (MDLXModelView { light_chunk: Some(c), ..acc }, LightChunk::encoding(c).len()),
            ));
            assert(MDLXModelView { light_chunk: Some(c), ..acc } == model_upto(m, 10));
            lemma_rest_helper_chunk(s, next, m);
        },
        None => {
            assert(s.skip(pos as int) =~= tail);
            assert(acc == model_upto(m, 10));
            lemma_rest_helper_chunk(s, pos, m);
        },
    }
}

/// Where the chunks from the ninth kind on stand at `pos`, and those of the
/// kinds before are decoded, the rest is decoded to the whole model.
proof fn lemma_rest_bone_chunk(s: Seq<u8>, pos: nat, m: MDLXModelView)
    requires
        pos <= s.len(),
        s.skip(pos as int) == chunks_from(m, 8),
        model_well_formed(m),
    ensures
        parse_chunks(s, pos, model_upto(m, 8)) == Ok::<MDLXModelView, MdlxError>(m),
{
    let tail = chunks_from(m, 9);
    let acc = model_upto(m, 8);
    match m.bone_chunk {
        Some(c) => {
            assert(s.skip(pos as int) =~= le32(BONE_TAG) + BoneChunk::encoding(c) + tail);
            lemma_chunk_step::<BoneChunk>(s, pos, BONE_TAG, c, tail);
            let next = (pos + 4 + BoneChunk::encoding(c).len()) as nat;
            assert(parse_chunk(BONE_TAG, s.skip(pos + 4 as int), acc) == Ok::<(MDLXModelView, nat), MdlxError>(
                (MDLXModelView { bone_chunk: Some(c), ..acc }, BoneChunk::encoding(c).len()),
            ));
            assert(MDLXModelView { bone_chunk: Some(c), ..acc } == model_upto(m, 9));
            lemma_rest_light_chunk(s, next, m);
        },
        None => {
            assert(s.skip(pos as int) =~= tail);
            assert(acc == model_upto(m, 9));
            lemma_rest_light_chunk(s, pos, m);
        },
    }
}

/// Where the chunks from the eighth kind on stand at `pos`, and those of the
/// kinds before are decoded, the rest is decoded to the whole model.
proof fn lemma_rest_geoset_animation_chunk(s: Seq<u8>, pos: nat, m: MDLXModelView)
    requires
        pos <= s.len(),
        s.skip(pos as int) == chunks_from(m, 7),
        model_well_formed(m),
    ensures
        parse_chunks(s, pos, model_upto(m, 7)) == Ok::<MDLXModelView, MdlxError>(m),
{
    let tail = chunks_from(m, 8);
    let acc = model_upto(m, 7);
    match m.geoset_animation_chunk {
        Some(c) => {
            assert(s.skip(pos as int) =~= le32(GEOA_TAG) + GeosetAnimationChunk::encoding(c) + tail);
            lemma_chunk_step::<GeosetAnimationChunk>(s, pos, GEOA_TAG, c, tail);
            let next = (pos + 4 + GeosetAnimationChunk::encoding(c).len()) as nat;
            assert(parse_chunk(GEOA_TAG, s.skip(pos + 4 as int), acc) == Ok::<(MDLXModelView, nat), MdlxError>(
                (MDLXModelView { geoset_animation_chunk: Some(c), ..acc }, GeosetAnimationChunk::encoding(c).len()),
            ));
            assert(MDLXModelView { geoset_animation_chunk: Some(c), ..acc } == model_upto(m, 8));
            lemma_rest_bone_chunk(s, next, m);
        },
        None => {
            assert(s.skip(pos as int) =~= tail);
            assert(acc == model_upto(m, 8));
            lemma_rest_bone_chunk(s, pos, m);
        },
    }
}

/// Where the chunks from the seventh kind on stand at `pos`, and those of the
/// kinds before are decoded, the rest is decoded to the whole model.
proof fn lemma_rest_geoset_chunk(s: Seq<u8>, pos: nat, m: MDLXModelView)
    requires
        pos <= s.len(),
        s.skip(pos as int) == chunks_from(m, 6),
        model_well_formed(m),
    ensures
        parse_chunks(s, pos, model_upto(m, 6)) == Ok::<MDLXModelView, MdlxError>(m),
{
    let tail = chunks_from(m, 7);
    let acc = model_upto(m, 6);
    match m.geoset_chunk {
        Some(c) => {
            assert(s.skip(pos as int) =~= le32(GEOS_TAG) + GeosetChunk::encoding(c) + tail);
            lemma_chunk_step::<GeosetChunk>(s, pos, GEOS_TAG, c, tail);
            let next = (pos + 4 + GeosetChunk::encoding(c).len()) as nat;
            assert(parse_chunk(GEOS_TAG, s.skip(pos + 4 as int), acc) == Ok::<(MDLXModelView, nat), MdlxError>(
                (MDLXModelView { geoset_chunk: Some(c), ..acc }, GeosetChunk::encoding(c).len()),
            ));
            assert(MDLXModelView { geoset_chunk: Some(c), ..acc } == model_upto(m, 7));
            lemma_rest_geoset_animation_chunk(s, next, m);
        },
        None => {
            assert(s.skip(pos as int) =~= tail);
            assert(acc == model_upto(m, 7));
            lemma_rest_geoset_animation_chunk(s, pos, m);
        },
    }
}

/// Where the chunks from the sixth kind on stand at `pos`, and those of the
/// kinds before are decoded, the rest is decoded to the whole model.
proof fn lemma_rest_texture_animation_chunk(s: Seq<u8>, pos: nat, m: MDLXModelView)
    requires
        pos <= s.len(),
        s.skip(pos as int) == chunks_from(m, 5),
        model_well_formed(m),
    ensures
        parse_chunks(s, pos, model_upto(m, 5)) == Ok::<MDLXModelView, MdlxError>(m),
{
    let tail = chunks_from(m, 6);
    let acc = model_upto(m, 5);
    match m.texture_animation_chunk {
        Some(c) => {
            assert(s.skip(pos as int) =~= le32(TXAN_TAG) + TextureAnimationChunk::encoding(c) + tail);
            lemma_chunk_step::<TextureAnimationChunk>(s, pos, TXAN_TAG, c, tail);
            let next = (pos + 4 + TextureAnimationChunk::encoding(c).len()) as nat;
            assert(parse_chunk(TXAN_TAG, s.skip(pos + 4 as int), acc) == Ok::<(MDLXModelView, nat), MdlxError>(
                (MDLXModelView { texture_animation_chunk: Some(c), ..acc }, TextureAnimationChunk::encoding(c).len()),
            ));
            assert(MDLXModelView { texture_animation_chunk: Some(c), ..acc } == model_upto(m, 6));
            lemma_rest_geoset_chunk(s, next, m);
        },
        None => {
            assert(s.skip(pos as int) =~= tail);
            assert(acc == model_upto(m, 6));
            lemma_rest_geoset_chunk(s, pos, m);
        },
    }
}

/// Where the chunks from the fifth kind on stand at `pos`, and those of the
/// kinds before are decoded, the rest is decoded to the whole model.
proof fn lemma_rest_texture_chunk(s: Seq<u8>, pos: nat, m: MDLXModelView)
    requires
        pos <= s.len(),
        s.skip(pos as int) == chunks_from(m, 4),
        model_well_formed(m),
    ensures
        parse_chunks(s, pos, model_upto(m, 4)) == Ok::<MDLXModelView, MdlxError>(m),
{
    let tail = chunks_from(m, 5);
    let acc = model_upto(m, 4);
    match m.texture_chunk {
        Some(c) => {
            assert(s.skip(pos as int) =~= le32(TEXS_TAG) + TextureChunk::encoding(c) + tail);
            lemma_chunk_step::<TextureChunk>(s, pos, TEXS_TAG, c, tail);
            let next = (pos + 4 + TextureChunk::encoding(c).len()) as nat;
            assert(parse_chunk(TEXS_TAG, s.skip(pos + 4 as int), acc) == Ok::<(MDLXModelView, nat), MdlxError>(
                (MDLXModelView { texture_chunk: Some(c), ..acc }, TextureChunk::encoding(c).len()),
            ));
            assert(MDLXModelView { texture_chunk: Some(c), ..acc } == model_upto(m, 5));
            lemma_rest_texture_animation_chunk(s, next, m);
        },
        None => {
            assert(s.skip(pos as int) =~= tail);
            assert(acc == model_upto(m, 5));
            lemma_rest_texture_animation_chunk(s, pos, m);
        },
    }
}

/// Where the chunks from the fourth kind on stand at `pos`, and those of the
/// kinds before are decoded, the rest is decoded to the whole model.
proof fn lemma_rest_global_sequence_chunk(s: Seq<u8>, pos: nat, m: MDLXModelView)
    requires
        pos <= s.len(),
        s.skip(pos as int) == chunks_from(m, 3),
        model_well_formed(m),
    ensures
        parse_chunks(s, pos, model_upto(m, 3)) == Ok::<MDLXModelView, MdlxError>(m),
{
    let tail = chunks_from(m, 4);
    let acc = model_upto(m, 3);
    match m.global_sequence_chunk {
        Some(c) => {
            assert(s.skip(pos as int) =~= le32(GLBS_TAG) + GlobalSequenceChunk::encoding(c) + tail);
            lemma_chunk_step::<GlobalSequenceChunk>(s, pos, GLBS_TAG, c, tail);
            let next = (pos + 4 + GlobalSequenceChunk::encoding(c).len()) as nat;
            assert(parse_chunk(GLBS_TAG, s.skip(pos + 4 as int), acc) == Ok::<(MDLXModelView, nat), MdlxError>(
                (MDLXModelView { global_sequence_chunk: Some(c), ..acc }, GlobalSequenceChunk::encoding(c).len()),
            ));
            assert(MDLXModelView { global_sequence_chunk: Some(c), ..acc } == model_upto(m, 4));
            lemma_rest_texture_chunk(s, next, m);
        },
        None => {
            assert(s.skip(pos as int) =~= tail);
            assert(acc == model_upto(m, 4));
            lemma_rest_texture_chunk(s, pos, m);
        },
    }
}

/// Where the chunks from the third kind on stand at `pos`, and those of the
/// kinds before are decoded, the rest is decoded to the whole model.
proof fn lemma_rest_sequence_chunk(s: Seq<u8>, pos: nat, m: MDLXModelView)
    requires
        pos <= s.len(),
        s.skip(pos as int) == chunks_from(m, 2),
        model_well_formed(m),
    ensures
        parse_chunks(s, pos, model_upto(m, 2)) == Ok::<MDLXModelView, MdlxError>(m),
{
    let tail = chunks_from(m, 3);
    let acc = model_upto(m, 2);
    match m.sequence_chunk {
        Some(c) => {
            assert(s.skip(pos as int) =~= le32(SEQS_TAG) + SequenceChunk::encoding(c) + tail);
            lemma_chunk_step::<SequenceChunk>(s, pos, SEQS_TAG, c, tail);
            let next = (pos + 4 + SequenceChunk::encoding(c).len()) as nat;
            assert(parse_chunk(SEQS_TAG, s.skip(pos + 4 as int), acc) == Ok::<(MDLXModelView, nat), MdlxError>(
                (MDLXModelView { sequence_chunk: Some(c), ..acc }, SequenceChunk::encoding(c).len()),
            ));
            assert(MDLXModelView { sequence_chunk: Some(c), ..acc } == model_upto(m, 3));
            lemma_rest_global_sequence_chunk(s, next, m);
        },
        None => {
            assert(s.skip(pos as int) =~= tail);
            assert(acc == model_upto(m, 3));
            lemma_rest_global_sequence_chunk(s, pos, m);
        },
    }
}

/// Where the chunks from the second kind on stand at `pos`, and those of the
/// kinds before are decoded, the rest is decoded to the whole model.
proof fn lemma_rest_model_chunk(s: Seq<u8>, pos: nat, m: MDLXModelView)
    requires
        pos <= s.len(),
        s.skip(pos as int) == chunks_from(m, 1),
        model_well_formed(m),
    ensures
        parse_chunks(s, pos, model_upto(m, 1)) == Ok::<MDLXModelView, MdlxError>(m),
{
    let tail = chunks_from(m, 2);
    let acc = model_upto(m, 1);
    match m.model_chunk {
        Some(c) => {
            assert(s.skip(pos as int) =~= le32(MODL_TAG) + ModelChunk::encoding(c) + tail);
            lemma_chunk_step::<ModelChunk>(s, pos, MODL_TAG, c, tail);
            let next = (pos + 4 + ModelChunk::encoding(c).len()) as nat;
            assert(parse_chunk(MODL_TAG, s.skip(pos + 4 as int), acc) == Ok::<(MDLXModelView, nat), MdlxError>(
                (MDLXModelView { model_chunk: Some(c), ..acc }, ModelChunk::encoding(c).len()),
            ));
            assert(MDLXModelView { model_chunk: Some(c), ..acc } == model_upto(m, 2));
            lemma_rest_sequence_chunk(s, next, m);
        },
        None => {
            assert(s.skip(pos as int) =~= tail);
            assert(acc == model_upto(m, 2));
            lemma_rest_sequence_chunk(s, pos, m);
        },
    }
}

/// Where the chunks from the first kind on stand at `pos`, and those of the
/// kinds before are decoded, the rest is decoded to the whole model.
proof fn lemma_rest_version_chunk(s: Seq<u8>, pos: nat, m: MDLXModelView)
    requires
        pos <= s.len(),
        s.skip(pos as int) == chunks_from(m, 0),
        model_well_formed(m),
    ensures
        parse_chunks(s, pos, model_upto(m, 0)) == Ok::<MDLXModelView, MdlxError>(m),
{
    let tail = chunks_from(m, 1);
    let acc = model_upto(m, 0);
    match m.version_chunk {
        Some(c) => {
            assert(s.skip(pos as int) =~= le32(VERS_TAG) + VersionChunk::encoding(c) + tail);
            lemma_chunk_step::<VersionChunk>(s, pos, VERS_TAG, c, tail);
            let next = (pos + 4 + VersionChunk::encoding(c).len()) as nat;
            assert(parse_chunk(VERS_TAG, s.skip(pos + 4 as int), acc) == Ok::<(MDLXModelView, nat), MdlxError>(
                (MDLXModelView { version_chunk: Some(c), ..acc }, VersionChunk::encoding(c).len()),
            ));
            assert(MDLXModelView { version_chunk: Some(c), ..acc } == model_upto(m, 1));
            lemma_rest_model_chunk(s, next, m);
        },
        None => {
            assert(s.skip(pos as int) =~= tail);
            assert(acc == model_upto(m, 1));
            lemma_rest_model_chunk(s, pos, m);
        },
    }
}

/// Decoding undoes encoding: the file that holds a well-formed model is
/// decoded as that model.
pub proof fn lemma_model_round_trip(m: MDLXModelView)
    requires
        model_well_formed(m),
    ensures
        parse_model(model_encoding(m)) == Ok::<MDLXModelView, MdlxError>(m),
{
    let s = model_encoding(m);
    lemma_model_encoding_chunks(m);
    lemma_le32_len(MDLX_TAG);
    assert(s.subrange(0, 4) =~= le32(MDLX_TAG));
    lemma_u32_at_le32(s, 0, MDLX_TAG);
    assert(s.skip(4) =~= chunks_from(m, 0));
    assert(model_upto(m, 0) == empty_model());
    lemma_rest_version_chunk(s, 4, m);
}

/// The size fields of an optional chunk are right, if the chunk is there.
pub open spec fn chunk_sizes_right<T: Lossless>(chunk: Option<T::V>) -> bool {
    chunk matches Some(v) ==> T::sizes_right(v)
}

/// An optional chunk is well formed if its sizes are right.
pub open spec fn chunk_sound<T: Lossless>(chunk: Option<T::V>) -> bool {
    chunk matches Some(v) ==> (T::sizes_right(v) ==> T::well_formed(v))
}

/// Every size field of the model states what is there: the size fields of
/// the chunks, of the records in them, and those of the version chunk and of
/// the model header, which hold no records.
pub open spec fn model_sizes_right(m: MDLXModelView) -> bool {
    &&& header_sized(m)
    &&& chunk_sizes_right::<VersionChunk>(m.version_chunk)
    &&& chunk_sizes_right::<ModelChunk>(m.model_chunk)
    &&& chunk_sizes_right::<SequenceChunk>(m.sequence_chunk)
    &&& chunk_sizes_right::<GlobalSequenceChunk>(m.global_sequence_chunk)
    &&& chunk_sizes_right::<TextureChunk>(m.texture_chunk)
    &&& chunk_sizes_right::<TextureAnimationChunk>(m.texture_animation_chunk)
    &&& chunk_sizes_right::<GeosetChunk>(m.geoset_chunk)
    &&& chunk_sizes_right::<GeosetAnimationChunk>(m.geoset_animation_chunk)
    &&& chunk_sizes_right::<BoneChunk>(m.bone_chunk)
    &&& chunk_sizes_right::<LightChunk>(m.light_chunk)
    &&& chunk_sizes_right::<HelperChunk>(m.helper_chunk)
    &&& chunk_sizes_right::<AttachmentChunk>(m.attachment_chunk)
    &&& chunk_sizes_right::<PivotPointChunk>(m.pivot_point_chunk)
    &&& chunk_sizes_right::<ParticleEmitterChunk>(m.particle_emitter_chunk)
    &&& chunk_sizes_right::<ParticleEmitter2Chunk>(m.particle_emitter2_chunk)
    &&& chunk_sizes_right::<RibbonEmitterChunk>(m.ribbon_emitter_chunk)
    &&& chunk_sizes_right::<EventObjectChunk>(m.event_object_chunk)
    &&& chunk_sizes_right::<CameraChunk>(m.camera_chunk)
    &&& chunk_sizes_right::<CollisionShapeChunk>(m.collision_shape_chunk)
    &&& chunk_sizes_right::<MaterialChunk>(m.material_chunk)
}

/// Every chunk of the model is well formed if its sizes are right.
pub open spec fn model_sound(m: MDLXModelView) -> bool {
    &&& chunk_sound::<VersionChunk>(m.version_chunk)
    &&& chunk_sound::<ModelChunk>(m.model_chunk)
    &&& chunk_sound::<SequenceChunk>(m.sequence_chunk)
    &&& chunk_sound::<GlobalSequenceChunk>(m.global_sequence_chunk)
    &&& chunk_sound::<TextureChunk>(m.texture_chunk)
    &&& chunk_sound::<TextureAnimationChunk>(m.texture_animation_chunk)
    &&& chunk_sound::<GeosetChunk>(m.geoset_chunk)
    &&& chunk_sound::<GeosetAnimationChunk>(m.geoset_animation_chunk)
    &&& chunk_sound::<BoneChunk>(m.bone_chunk)
    &&& chunk_sound::<LightChunk>(m.light_chunk)
    &&& chunk_sound::<HelperChunk>(m.helper_chunk)
    &&& chunk_sound::<AttachmentChunk>(m.attachment_chunk)
    &&& chunk_sound::<PivotPointChunk>(m.pivot_point_chunk)
    &&& chunk_sound::<ParticleEmitterChunk>(m.particle_emitter_chunk)
    &&& chunk_sound::<ParticleEmitter2Chunk>(m.particle_emitter2_chunk)
    &&& chunk_sound::<RibbonEmitterChunk>(m.ribbon_emitter_chunk)
    &&& chunk_sound::<EventObjectChunk>(m.event_object_chunk)
    &&& chunk_sound::<CameraChunk>(m.camera_chunk)
    &&& chunk_sound::<CollisionShapeChunk>(m.collision_shape_chunk)
    &&& chunk_sound::<MaterialChunk>(m.material_chunk)
}

/// The version chunk and the model header, which hold no records, state
/// their sizes right.
pub open spec fn header_sized(m: MDLXModelView) -> bool {
    &&& m.version_chunk matches Some(c) ==> c.chunk_size == 4
    &&& m.model_chunk matches Some(c) ==> c.chunk_size == 372
}

/// A chunk that is decoded and put into a model leaves the model such that
/// each of its chunks is well formed if its sizes are right.
pub proof fn lemma_parse_chunk_sound(tag: u32, body: Seq<u8>, acc: MDLXModelView)
    requires
        model_sound(acc),
    ensures
        parse_chunk(tag, body, acc) matches Ok((next, _)) ==> model_sound(next),
{
    if tag == VERS_TAG {
        VersionChunk::lemma_parsed(body);
    }     else if tag == MODL_TAG {
        ModelChunk::lemma_parsed(body);
    }     else if tag == SEQS_TAG {
        SequenceChunk::lemma_parsed(body);
    }     else if tag == GLBS_TAG {
        GlobalSequenceChunk::lemma_parsed(body);
    }     else if tag == TEXS_TAG {
        TextureChunk::lemma_parsed(body);
    }     else if tag == TXAN_TAG {
        TextureAnimationChunk::lemma_parsed(body);
    }     else if tag == GEOS_TAG {
        GeosetChunk::lemma_parsed(body);
    }     else if tag == GEOA_TAG {
        GeosetAnimationChunk::lemma_parsed(body);
    }     else if tag == BONE_TAG {
        BoneChunk::lemma_parsed(body);
    }     else if tag == LITE_TAG {
        LightChunk::lemma_parsed(body);
    }     else if tag == HELP_TAG {
        HelperChunk::lemma_parsed(body);
    }     else if tag == ATCH_TAG {
        AttachmentChunk::lemma_parsed(body);
    }     else if tag == PIVT_TAG {
        PivotPointChunk::lemma_parsed(body);
    }     else if tag == PREM_TAG {
        ParticleEmitterChunk::lemma_parsed(body);
    }     else if tag == PRE2_TAG {
        ParticleEmitter2Chunk::lemma_parsed(body);
    }     else if tag == RIBB_TAG {
        RibbonEmitterChunk::lemma_parsed(body);
    }     else if tag == EVTS_TAG {
        EventObjectChunk::lemma_parsed(body);
    }     else if tag == CAMS_TAG {
        CameraChunk::lemma_parsed(body);
    }     else if tag == CLID_TAG {
        CollisionShapeChunk::lemma_parsed(body);
    }     else if tag == MTLS_TAG {
        MaterialChunk::lemma_parsed(body);
    } 
}

/// The chunks that are decoded from a file leave the model such that each
/// of its chunks is well formed if its sizes are right.
pub proof fn lemma_parse_chunks_sound(s: Seq<u8>, pos: nat, acc: MDLXModelView)
    requires
        model_sound(acc),
    ensures
        parse_chunks(s, pos, acc) matches Ok(m) ==> model_sound(m),
    decreases s.len() - pos,
{
    if pos < s.len() && pos + 4 <= s.len() {
        let tag = u32_at(s, pos as int);
        let body = s.skip(pos + 4 as int);
        if let Ok((next, n)) = parse_chunk(tag, body, acc) {
            lemma_parse_chunk_bounds(tag, body, acc);
            lemma_parse_chunk_sound(tag, body, acc);
            lemma_parse_chunks_sound(s, pos + 4 + n, next);
        }
    }
}

/// A model that is decoded from a file is well formed if its sizes are
/// right: names fit their fields, every keyframe has the width and the
/// tangents that its property calls for, and every track count is the number
/// of tracks, whatever the file holds.
pub proof fn lemma_decoded_model(s: Seq<u8>)
    ensures
        parse_model(s) matches Ok(m) ==> (model_sizes_right(m) ==> model_well_formed(m)),
{
    if s.len() >= 4 && u32_at(s, 0) == MDLX_TAG {
        lemma_parse_chunks_sound(s, 4, empty_model());
    }
}

/// Setting the size fields of a well-formed model whose size fields are all
/// right changes nothing.
pub proof fn lemma_corrected_same(m: MDLXModelView)
    requires
        model_well_formed(m),
        header_sized(m),
    ensures
        payloads_fit(m),
        corrected(m) == m,
{
}

/// A round trip changes nothing: writing a model whose chunks are well
/// formed once their size fields are set, and reading the file again, gives
/// the model with its size fields set. A well-formed model whose size fields
/// are right is read again as it was.
pub proof fn round_trip(m: MDLXModelView)
    requires
        model_well_formed(corrected(m)),
    ensures
        parse_model(model_encoding(corrected(m))) == Ok::<MDLXModelView, MdlxError>(corrected(m)),
        model_well_formed(m) && header_sized(m) ==> parse_model(model_encoding(corrected(m))) == Ok::<
            MDLXModelView,
            MdlxError,
        >(m),
{
    lemma_model_round_trip(corrected(m));
    if model_well_formed(m) && header_sized(m) {
        lemma_corrected_same(m);
    }
}

/// A file in the order of writing is written back byte for byte: the file
/// that holds a well-formed model whose size fields are right is read as
/// that model, and writing that model gives the same file. A file that holds
/// its chunks in another order is written back in the order of writing, and
/// so is not the same byte for byte.
pub proof fn written_file_is_written_back(m: MDLXModelView)
    requires
        model_well_formed(m),
        header_sized(m),
    ensures
        parse_model(model_encoding(m)) == Ok::<MDLXModelView, MdlxError>(m),
        payloads_fit(m),
        model_encoding(corrected(m)) == model_encoding(m),
{
    lemma_model_round_trip(m);
    lemma_corrected_same(m);
}

/// A file survives a round trip: the model that is read from a file whose
/// size fields state what is there can be written, and the file that is
/// written is read as the same model, whatever the order of the chunks in
/// the first file.
pub proof fn file_round_trip(file: Seq<u8>, m: MDLXModelView)
    requires
        parse_model(file) == Ok::<MDLXModelView, MdlxError>(m),
        model_sizes_right(m),
    ensures
        payloads_fit(m),
        parse_model(model_encoding(corrected(m))) == Ok::<MDLXModelView, MdlxError>(m),
{
    lemma_decoded_model(file);
    lemma_corrected_same(m);
    round_trip(m);
}

} // verus!
