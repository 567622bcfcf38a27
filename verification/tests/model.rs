use mdxlroptimizer::animation::{Track, Transform};
use mdxlroptimizer::codec::{Chunk, Codec};
use mdxlroptimizer::error::MdlxError;
use mdxlroptimizer::geoset::{GeosetAnimation, GeosetAnimationChunk};
use mdxlroptimizer::header::{ModelChunk, VersionChunk};
use mdxlroptimizer::model::MDLXModel;
use mdxlroptimizer::node::{
    Bone, BoneChunk, Helper, HelperChunk, Node, PivotPoint, PivotPointChunk,
};
use mdxlroptimizer::opaque::{
    AttachmentChunk, CameraChunk, CollisionShapeChunk, EventObjectChunk, GeosetChunk, LightChunk,
    MaterialChunk, ParticleEmitter2Chunk, ParticleEmitterChunk, RibbonEmitterChunk,
};
use mdxlroptimizer::sequence::{GlobalSequence, GlobalSequenceChunk, Sequence, SequenceChunk};
use mdxlroptimizer::texture::{Texture, TextureAnimation, TextureAnimationChunk, TextureChunk};

fn le(value: u32) -> Vec<u8> {
    value.to_le_bytes().to_vec()
}

fn bits(value: f32) -> u32 {
    value.to_bits()
}

fn sequence(name: &str, start: u32, end: u32) -> Sequence {
    Sequence {
        name: name.to_string(),
        interval_start: start,
        interval_end: end,
        move_speed: bits(0.0),
        non_looping: 0,
        rarity: bits(0.0),
        unknown: 0,
        bounds_radius: bits(10.0),
        minimum_extent: [bits(-1.0); 3],
        maximum_extent: [bits(1.0); 3],
    }
}

fn linear3(times: &[u32]) -> Transform<3> {
    Transform {
        number_of_tracks: times.len() as u32,
        interpolation_type: 1,
        global_sequence_id: 0xFFFF_FFFF,
        data: times
            .iter()
            .map(|t| Track { time: *t, value: [bits(*t as f32), 0, 0], in_tan: None, out_tan: None })
            .collect(),
    }
}

fn bezier4(times: &[u32]) -> Transform<4> {
    Transform {
        number_of_tracks: times.len() as u32,
        interpolation_type: 3,
        global_sequence_id: 1,
        data: times
            .iter()
            .map(|t| Track {
                time: *t,
                value: [0, 0, 0, bits(1.0)],
                in_tan: Some([*t, 1, 2, 3]),
                out_tan: Some([4, 5, 6, *t]),
            })
            .collect(),
    }
}

fn node(name: &str, id: u32) -> Node {
    let mut node = Node {
        inclusive_size: 0,
        name: name.to_string(),
        object_id: id,
        parent_id: 0xFFFF_FFFF,
        flags: 0,
        translation: Some(linear3(&[0, 100, 200])),
        rotation: Some(bezier4(&[0, 200])),
        scaling: Some(linear3(&[])),
    };
    node.inclusive_size = node.total_bytes_size().unwrap() as u32;
    node
}

fn full_model() -> MDLXModel {
    let mut texture_animation = TextureAnimation {
        inclusive_size: 0,
        translation: None,
        rotation: Some(bezier4(&[3])),
        scaling: None,
    };
    texture_animation.inclusive_size = texture_animation.total_bytes_size().unwrap() as u32;
    let mut geoset_animation = GeosetAnimation {
        inclusive_size: 0,
        alpha: bits(1.0),
        flags: 2,
        color: [bits(1.0); 3],
        geoset_id: 0,
        geoset_alpha: None,
        geoset_color: Some(linear3(&[0, 1])),
    };
    geoset_animation.inclusive_size = geoset_animation.total_bytes_size().unwrap() as u32;
    let mut model = MDLXModel {
        version_chunk: Some(VersionChunk { chunk_size: 0, version: 800 }),
        model_chunk: Some(ModelChunk {
            chunk_size: 0,
            name: "Peasant".to_string(),
            unknown: 0,
            bounds_radius: bits(50.0),
            minimum_extent: [bits(-5.0); 3],
            maximum_extent: [bits(5.0); 3],
            blend_time: 150,
        }),
        sequence_chunk: Some(SequenceChunk {
            chunk_size: 0,
            data: vec![sequence("Stand", 0, 100), sequence("Walk", 150, 200)],
        }),
        global_sequence_chunk: Some(GlobalSequenceChunk {
            chunk_size: 0,
            data: vec![GlobalSequence { duration: 1000 }],
        }),
        texture_chunk: Some(TextureChunk {
            chunk_size: 0,
            data: vec![Texture {
                replaceable_id: 0,
                file_name: "peasant.blp".to_string(),
                unknown: 0,
                flags: 0,
            }],
        }),
        texture_animation_chunk: Some(TextureAnimationChunk {
            chunk_size: 0,
            data: vec![texture_animation],
        }),
        geoset_chunk: Some(GeosetChunk { chunk_size: 0, bytes: vec![1, 2, 3, 4, 5, 6, 7] }),
        geoset_animation_chunk: Some(GeosetAnimationChunk {
            chunk_size: 0,
            data: vec![geoset_animation],
        }),
        bone_chunk: Some(BoneChunk {
            chunk_size: 0,
            data: vec![
                Bone { node: node("Bone_Root", 0), geoset_id: 0, geoset_animation_id: 0 },
                Bone { node: node("Bone_Arm", 1), geoset_id: 1, geoset_animation_id: 0xFFFF_FFFF },
            ],
        }),
        light_chunk: Some(LightChunk { chunk_size: 0, bytes: vec![10] }),
        helper_chunk: Some(HelperChunk { chunk_size: 0, data: vec![Helper { node: node("Help", 2) }] }),
        attachment_chunk: Some(AttachmentChunk { chunk_size: 0, bytes: vec![11, 11] }),
        pivot_point_chunk: Some(PivotPointChunk {
            chunk_size: 0,
            data: vec![PivotPoint { position: [1, 2, 3] }; 3],
        }),
        particle_emitter_chunk: Some(ParticleEmitterChunk { chunk_size: 0, bytes: vec![12; 3] }),
        particle_emitter2_chunk: Some(ParticleEmitter2Chunk { chunk_size: 0, bytes: vec![13; 4] }),
        ribbon_emitter_chunk: Some(RibbonEmitterChunk { chunk_size: 0, bytes: vec![14; 5] }),
        event_object_chunk: Some(EventObjectChunk { chunk_size: 0, bytes: vec![15; 6] }),
        camera_chunk: Some(CameraChunk { chunk_size: 0, bytes: vec![] }),
        collision_shape_chunk: Some(CollisionShapeChunk { chunk_size: 0, bytes: vec![17; 8] }),
        material_chunk: Some(MaterialChunk { chunk_size: 0, bytes: vec![] }),
    };
    model.correct_chunk_size().unwrap();
    model
}

fn tags_of(file: &[u8]) -> Vec<String> {
    let mut tags = Vec::new();
    let mut pos = 4;
    while pos < file.len() {
        tags.push(String::from_utf8(file[pos..pos + 4].to_vec()).unwrap());
        let size = u32::from_le_bytes([file[pos + 4], file[pos + 5], file[pos + 6], file[pos + 7]]);
        pos += 8 + size as usize;
    }
    tags
}

#[test]
fn read_mdx_file_api() {
    let model = full_model();
    let size = model.model_total_size().unwrap();
    let bytes = MDLXModel::write_mdx_file(model.clone()).unwrap();
    assert_eq!(bytes.len(), size);
    let again = MDLXModel::read_mdx_file(bytes.clone()).unwrap();
    assert_eq!(again, model);
    assert_eq!(MDLXModel::write_mdx_file(again), Ok(bytes));
}

#[test]
fn empty_file_is_magic_only() {
    let bytes = MDLXModel::write_mdx_file(MDLXModel::new()).unwrap();
    assert_eq!(bytes, b"MDLX".to_vec());
    assert_eq!(MDLXModel::read_mdx_file(bytes), Ok(MDLXModel::new()));
    assert_eq!(MDLXModel::new().model_total_size(), Some(4));
    assert_eq!(MDLXModel::default(), MDLXModel::new());
}

#[test]
fn bad_magic_is_rejected() {
    assert_eq!(MDLXModel::read_mdx_file(b"XLDM".to_vec()), Err(MdlxError::BadMagic));
    assert_eq!(MDLXModel::read_mdx_file(b"MDLY....".to_vec()), Err(MdlxError::BadMagic));
}

#[test]
fn file_must_hold_the_magic_tag() {
    assert_eq!(MDLXModel::read_mdx_file(vec![]), Err(MdlxError::UnexpectedEof));
    assert_eq!(MDLXModel::read_mdx_file(b"MDL".to_vec()), Err(MdlxError::UnexpectedEof));
}

#[test]
fn unknown_chunk_is_rejected() {
    let file = [b"MDLX".to_vec(), b"BPOS".to_vec(), le(0)].concat();
    assert_eq!(
        MDLXModel::read_mdx_file(file),
        Err(MdlxError::UnknownTag(u32::from_le_bytes(*b"BPOS")))
    );
}

#[test]
fn truncated_file_is_rejected() {
    let bytes = MDLXModel::write_mdx_file(full_model()).unwrap();
    for cut in [5, 7, 8, 11, 15, 100, 1000, bytes.len() - 1] {
        assert_eq!(
            MDLXModel::read_mdx_file(bytes[..cut].to_vec()),
            Err(MdlxError::UnexpectedEof),
            "cut at {}",
            cut
        );
    }
}

#[test]
fn chunks_are_written_in_one_order() {
    let bytes = MDLXModel::write_mdx_file(full_model()).unwrap();
    assert_eq!(bytes[..4].to_vec(), b"MDLX".to_vec());
    assert_eq!(
        tags_of(&bytes),
        vec![
            "VERS", "MODL", "SEQS", "GLBS", "TEXS", "TXAN", "GEOS", "GEOA", "BONE", "LITE", "HELP",
            "ATCH", "PIVT", "PREM", "PRE2", "RIBB", "EVTS", "CAMS", "CLID", "MTLS"
        ]
    );
}

#[test]
fn chunks_are_read_in_any_order() {
    let version = [b"VERS".to_vec(), le(4), le(800)].concat();
    let pivots = [b"PIVT".to_vec(), le(12), le(1), le(2), le(3)].concat();
    let materials = [b"MTLS".to_vec(), le(2), vec![0xCA, 0xFE]].concat();
    let shuffled = [b"MDLX".to_vec(), materials.clone(), pivots.clone(), version.clone()].concat();
    let model = MDLXModel::read_mdx_file(shuffled).unwrap();
    assert_eq!(model.version_chunk, Some(VersionChunk { chunk_size: 4, version: 800 }));
    assert_eq!(
        model.pivot_point_chunk,
        Some(PivotPointChunk { chunk_size: 12, data: vec![PivotPoint { position: [1, 2, 3] }] })
    );
    assert_eq!(model.material_chunk, Some(MaterialChunk { chunk_size: 2, bytes: vec![0xCA, 0xFE] }));
    assert_eq!(model.sequence_chunk, None);
    let ordered = [b"MDLX".to_vec(), version, pivots, materials].concat();
    let written = MDLXModel::write_mdx_file(model.clone()).unwrap();
    assert_eq!(written, ordered);
    assert_eq!(MDLXModel::read_mdx_file(written), Ok(model));
}

#[test]
fn later_chunk_of_a_kind_replaces_the_earlier() {
    let file = [
        b"MDLX".to_vec(),
        b"VERS".to_vec(),
        le(4),
        le(800),
        b"VERS".to_vec(),
        le(4),
        le(1000),
    ]
    .concat();
    let model = MDLXModel::read_mdx_file(file).unwrap();
    assert_eq!(model.version_chunk, Some(VersionChunk { chunk_size: 4, version: 1000 }));
}

#[test]
fn chunk_sizes_are_set_on_writing() {
    let mut model = MDLXModel::new();
    model.version_chunk = Some(VersionChunk { chunk_size: 1234, version: 800 });
    model.sequence_chunk = Some(SequenceChunk { chunk_size: 1, data: vec![sequence("Stand", 0, 1); 3] });
    model.camera_chunk = Some(CameraChunk { chunk_size: 500, bytes: vec![1, 2, 3] });
    let bytes = MDLXModel::write_mdx_file(model).unwrap();
    assert_eq!(bytes.len(), 4 + (4 + 8) + (4 + 4 + 396) + (4 + 4 + 3));
    assert_eq!(bytes[8..12].to_vec(), le(4));
    assert_eq!(bytes[20..24].to_vec(), le(132 * 3));
    assert_eq!(bytes[424..428].to_vec(), le(3));
    let again = MDLXModel::read_mdx_file(bytes).unwrap();
    assert_eq!(again.version_chunk.unwrap().chunk_size, 4);
    assert_eq!(again.sequence_chunk.unwrap().chunk_size, 396);
    assert_eq!(again.camera_chunk.unwrap().chunk_size, 3);
}

#[test]
fn total_size_counts_tags_and_chunks() {
    let mut model = MDLXModel::new();
    assert_eq!(model.model_total_size(), Some(4));
    model.version_chunk = Some(VersionChunk { chunk_size: 4, version: 800 });
    assert_eq!(model.model_total_size(), Some(4 + 4 + 8));
    model.material_chunk = Some(MaterialChunk { chunk_size: 0, bytes: vec![0; 100] });
    assert_eq!(model.model_total_size(), Some(16 + 4 + 4 + 100));
    model.helper_chunk = Some(HelperChunk { chunk_size: 0, data: vec![Helper { node: node("H", 0) }] });
    let node_size = 96 + (4 + 12 + 3 * 16) + (4 + 12 + 2 * 52) + (4 + 12);
    assert_eq!(model.model_total_size(), Some(124 + 4 + 4 + node_size));
}

#[test]
fn sizes_of_real_models_fit_their_fields() {
    let model = full_model();
    assert!(model.check_payloads_fit());
    assert!(MDLXModel::new().check_payloads_fit());
    assert!(model.bone_chunk.as_ref().unwrap().payload_fits());
    assert!(model.version_chunk.as_ref().unwrap().payload_fits());
    assert!(model.camera_chunk.as_ref().unwrap().payload_fits());
}

#[test]
fn stale_sizes_of_records_are_written_as_they_are() {
    let mut model = MDLXModel::new();
    let mut stale = node("Stale", 0);
    let right = stale.inclusive_size;
    stale.inclusive_size = right + 4;
    model.helper_chunk = Some(HelperChunk { chunk_size: 0, data: vec![Helper { node: stale }] });
    let bytes = MDLXModel::write_mdx_file(model).unwrap();
    assert_eq!(bytes[8..12].to_vec(), le(right));
    assert_eq!(bytes[12..16].to_vec(), le(right + 4));
    assert_eq!(MDLXModel::read_mdx_file(bytes), Err(MdlxError::UnexpectedEof));
}
