use mdxlroptimizer::animation::{
    block_size, channels_size, read_channels, ChannelTags, Track, Transform,
};
use mdxlroptimizer::codec::{
    list_payload, list_size, read_fixed_list, read_records, read_sized_list, read_until, Chunk, Codec,
    SelfDelimited,
};
use mdxlroptimizer::error::MdlxError;
use mdxlroptimizer::geoset::{GeosetAnimation, GeosetAnimationChunk};
use mdxlroptimizer::header::{ModelChunk, VersionChunk};
use mdxlroptimizer::node::{
    node_channel_tags, Bone, BoneChunk, Helper, HelperChunk, Node, PivotPoint, PivotPointChunk,
};
use mdxlroptimizer::opaque::{
    opaque_payload, opaque_size, read_opaque, write_opaque, AttachmentChunk, CameraChunk,
    CollisionShapeChunk, EventObjectChunk, GeosetChunk, LightChunk, MaterialChunk,
    ParticleEmitter2Chunk, ParticleEmitterChunk, RibbonEmitterChunk,
};
use mdxlroptimizer::sequence::{GlobalSequence, GlobalSequenceChunk, Sequence, SequenceChunk};
use mdxlroptimizer::texture::{
    texture_channel_tags, Texture, TextureAnimation, TextureAnimationChunk, TextureChunk,
};

fn le(value: u32) -> Vec<u8> {
    value.to_le_bytes().to_vec()
}

fn bits(value: f32) -> u32 {
    value.to_bits()
}

fn name_bytes(name: &str, width: usize) -> Vec<u8> {
    let mut field = name.as_bytes().to_vec();
    field.resize(width, 0);
    field
}

fn encode<T: Codec>(value: &T) -> Vec<u8> {
    let size = value.total_bytes_size().unwrap();
    let mut buf = vec![0xAAu8; size];
    assert_eq!(value.try_into_ctx(&mut buf, 0), Ok(size));
    buf
}

fn sequence(name: &str, start: u32, end: u32) -> Sequence {
    Sequence {
        name: name.to_string(),
        interval_start: start,
        interval_end: end,
        move_speed: bits(270.0),
        non_looping: 1,
        rarity: bits(0.5),
        unknown: 0,
        bounds_radius: bits(60.0),
        minimum_extent: [bits(-1.0), bits(-2.0), bits(-3.0)],
        maximum_extent: [bits(1.0), bits(2.0), bits(3.0)],
    }
}

fn linear3(times: &[u32]) -> Transform<3> {
    Transform {
        number_of_tracks: times.len() as u32,
        interpolation_type: 1,
        global_sequence_id: 0xFFFF_FFFF,
        data: times
            .iter()
            .map(|t| Track {
                time: *t,
                value: [bits(*t as f32), bits(2.0), bits(3.0)],
                in_tan: None,
                out_tan: None,
            })
            .collect(),
    }
}

fn hermite4(times: &[u32]) -> Transform<4> {
    Transform {
        number_of_tracks: times.len() as u32,
        interpolation_type: 2,
        global_sequence_id: 7,
        data: times
            .iter()
            .map(|t| Track {
                time: *t,
                value: [bits(0.0), bits(0.0), bits(0.0), bits(1.0)],
                in_tan: Some([1, 2, 3, 4]),
                out_tan: Some([5, 6, 7, 8]),
            })
            .collect(),
    }
}

fn node(name: &str) -> Node {
    let mut node = Node {
        inclusive_size: 0,
        name: name.to_string(),
        object_id: 3,
        parent_id: 0xFFFF_FFFF,
        flags: 256,
        translation: Some(linear3(&[0, 10])),
        rotation: Some(hermite4(&[5])),
        scaling: None,
    };
    node.inclusive_size = node.total_bytes_size().unwrap() as u32;
    node
}

#[test]
fn version_chunk_round_trip() {
    let chunk = VersionChunk { chunk_size: 4, version: 800 };
    let mut buf = vec![0u8; 8];
    assert_eq!(chunk.try_into_ctx(&mut buf, 0), Ok(8));
    assert_eq!(buf, vec![4, 0, 0, 0, 0x20, 0x03, 0, 0]);
    assert_eq!(VersionChunk::try_from_ctx(&buf), Ok((chunk, 8)));
    assert_eq!(chunk.total_bytes_size(), Some(8));
    assert_eq!(VersionChunk::try_from_ctx(&buf[..7]), Err(MdlxError::UnexpectedEof));
}

#[test]
fn version_chunk_size_is_recomputed() {
    let mut chunk = VersionChunk { chunk_size: 99, version: 800 };
    assert_eq!(chunk.calculate_chunk_size(), Ok(()));
    assert_eq!(chunk, VersionChunk { chunk_size: 4, version: 800 });
}

#[test]
fn record_is_written_at_the_offset_and_nowhere_else() {
    let chunk = VersionChunk { chunk_size: 4, version: 1 };
    let mut buf = vec![0xAAu8; 11];
    assert_eq!(chunk.try_into_ctx(&mut buf, 2), Ok(8));
    assert_eq!(buf, vec![0xAA, 0xAA, 4, 0, 0, 0, 1, 0, 0, 0, 0xAA]);
}

#[test]
fn record_is_not_written_without_room() {
    let chunk = VersionChunk { chunk_size: 4, version: 1 };
    let mut buf = vec![0xAAu8; 11];
    assert_eq!(chunk.try_into_ctx(&mut buf, 4), Err(MdlxError::BufferTooSmall));
    assert_eq!(chunk.try_into_ctx(&mut buf, 12), Err(MdlxError::BufferTooSmall));
    assert_eq!(buf, vec![0xAA; 11]);
    let bone = Bone { node: node("Bone_Root"), geoset_id: 0, geoset_animation_id: 0 };
    let size = bone.total_bytes_size().unwrap();
    let mut small = vec![0xAAu8; size - 1];
    assert_eq!(bone.try_into_ctx(&mut small, 0), Err(MdlxError::BufferTooSmall));
    assert_eq!(small, vec![0xAA; size - 1]);
}

#[test]
fn model_header_takes_376_bytes() {
    let chunk = ModelChunk {
        chunk_size: 372,
        name: "Footman".to_string(),
        unknown: 0,
        bounds_radius: bits(90.5),
        minimum_extent: [bits(-10.0), bits(-20.0), bits(0.0)],
        maximum_extent: [bits(10.0), bits(20.0), bits(75.0)],
        blend_time: 150,
    };
    assert_eq!(chunk.total_bytes_size(), Some(376));
    let bytes = encode(&chunk);
    let mut expected = le(372);
    expected.extend(name_bytes("Footman", 336));
    expected.extend(le(0));
    expected.extend(le(bits(90.5)));
    for v in [-10.0f32, -20.0, 0.0, 10.0, 20.0, 75.0] {
        expected.extend(le(bits(v)));
    }
    expected.extend(le(150));
    assert_eq!(bytes, expected);
    assert_eq!(ModelChunk::try_from_ctx(&bytes), Ok((chunk, 376)));
    assert_eq!(ModelChunk::try_from_ctx(&bytes[..375]), Err(MdlxError::UnexpectedEof));
}

#[test]
fn model_header_size_is_recomputed() {
    let mut chunk = ModelChunk {
        chunk_size: 0,
        name: String::new(),
        unknown: 0,
        bounds_radius: 0,
        minimum_extent: [0; 3],
        maximum_extent: [0; 3],
        blend_time: 0,
    };
    assert_eq!(chunk.calculate_chunk_size(), Ok(()));
    assert_eq!(chunk.chunk_size, 372);
}

#[test]
fn sequence_takes_132_bytes() {
    let walk = sequence("Walk", 100, 900);
    assert_eq!(walk.total_bytes_size(), Some(132));
    let bytes = encode(&walk);
    let mut expected = name_bytes("Walk", 80);
    for field in [100, 900, bits(270.0), 1, bits(0.5), 0, bits(60.0)] {
        expected.extend(le(field));
    }
    for v in [-1.0f32, -2.0, -3.0, 1.0, 2.0, 3.0] {
        expected.extend(le(bits(v)));
    }
    assert_eq!(bytes, expected);
    assert_eq!(Sequence::try_from_ctx(&bytes), Ok((walk, 132)));
    assert_eq!(Sequence::try_from_ctx(&bytes[..131]), Err(MdlxError::UnexpectedEof));
}

#[test]
fn sequence_name_must_be_text() {
    let mut bytes = encode(&sequence("Walk", 0, 1));
    bytes[1] = 0xFF;
    assert_eq!(Sequence::try_from_ctx(&bytes), Err(MdlxError::InvalidName));
}

#[test]
fn sequence_chunk_size_is_132_for_each_sequence() {
    for n in 0..4usize {
        let mut chunk = SequenceChunk {
            chunk_size: 12345,
            data: (0..n).map(|i| sequence("Stand", i as u32 * 10, i as u32 * 10 + 5)).collect(),
        };
        assert_eq!(chunk.calculate_chunk_size(), Ok(()));
        assert_eq!(chunk.chunk_size as usize, 132 * n);
        assert_eq!(chunk.total_bytes_size(), Some(4 + 132 * n));
        let bytes = encode(&chunk);
        assert_eq!(bytes[..4].to_vec(), le(132 * n as u32));
        assert_eq!(SequenceChunk::try_from_ctx(&bytes), Ok((chunk, 4 + 132 * n)));
    }
}

#[test]
fn fixed_list_size_must_be_a_multiple_of_the_record_size() {
    let mut bytes = le(133);
    bytes.extend(vec![0u8; 400]);
    assert_eq!(SequenceChunk::try_from_ctx(&bytes), Err(MdlxError::MalformedChunkSize));
    let mut bytes = le(6);
    bytes.extend(vec![0u8; 8]);
    assert_eq!(GlobalSequenceChunk::try_from_ctx(&bytes), Err(MdlxError::MalformedChunkSize));
    let mut bytes = le(267);
    bytes.extend(vec![0u8; 300]);
    assert_eq!(TextureChunk::try_from_ctx(&bytes), Err(MdlxError::MalformedChunkSize));
    let mut bytes = le(13);
    bytes.extend(vec![0u8; 24]);
    assert_eq!(PivotPointChunk::try_from_ctx(&bytes), Err(MdlxError::MalformedChunkSize));
    assert_eq!(
        read_fixed_list::<GlobalSequence>(&le(0), 0).map(|found| found.2),
        Err(MdlxError::MalformedChunkSize)
    );
}

#[test]
fn fixed_list_may_be_empty() {
    let bytes = le(0);
    assert_eq!(
        SequenceChunk::try_from_ctx(&bytes),
        Ok((SequenceChunk { chunk_size: 0, data: vec![] }, 4))
    );
    assert_eq!(SequenceChunk::try_from_ctx(&bytes[..3]), Err(MdlxError::UnexpectedEof));
}

#[test]
fn fixed_list_must_hold_all_its_records() {
    let mut bytes = le(8);
    bytes.extend(le(1000));
    bytes.extend(vec![0u8; 3]);
    assert_eq!(GlobalSequenceChunk::try_from_ctx(&bytes), Err(MdlxError::UnexpectedEof));
}

#[test]
fn global_sequences_take_four_bytes_each() {
    let chunk = GlobalSequenceChunk {
        chunk_size: 8,
        data: vec![GlobalSequence { duration: 1000 }, GlobalSequence { duration: 3333 }],
    };
    let bytes = encode(&chunk);
    assert_eq!(bytes, [le(8), le(1000), le(3333)].concat());
    assert_eq!(GlobalSequenceChunk::try_from_ctx(&bytes), Ok((chunk, 12)));
    let mut stale = GlobalSequenceChunk { chunk_size: 0, data: vec![GlobalSequence { duration: 1 }] };
    assert_eq!(stale.calculate_chunk_size(), Ok(()));
    assert_eq!(stale.chunk_size, 4);
}

#[test]
fn texture_takes_268_bytes() {
    let texture = Texture {
        replaceable_id: 1,
        file_name: "Textures\\Footman.blp".to_string(),
        unknown: 0,
        flags: 3,
    };
    assert_eq!(texture.total_bytes_size(), Some(268));
    let bytes = encode(&texture);
    let expected = [le(1), name_bytes("Textures\\Footman.blp", 256), le(0), le(3)].concat();
    assert_eq!(bytes, expected);
    assert_eq!(Texture::try_from_ctx(&bytes), Ok((texture.clone(), 268)));
    let mut chunk = TextureChunk { chunk_size: 0, data: vec![texture.clone(), texture] };
    assert_eq!(chunk.calculate_chunk_size(), Ok(()));
    assert_eq!(chunk.chunk_size, 536);
    let bytes = encode(&chunk);
    assert_eq!(bytes.len(), 540);
    assert_eq!(TextureChunk::try_from_ctx(&bytes), Ok((chunk, 540)));
}

#[test]
fn pivot_points_take_twelve_bytes_each() {
    let chunk = PivotPointChunk {
        chunk_size: 24,
        data: vec![
            PivotPoint { position: [bits(1.0), bits(2.0), bits(3.0)] },
            PivotPoint { position: [bits(-1.0), bits(0.0), bits(9.5)] },
        ],
    };
    let bytes = encode(&chunk);
    assert_eq!(bytes.len(), 28);
    assert_eq!(bytes[..8].to_vec(), [le(24), le(bits(1.0))].concat());
    assert_eq!(PivotPointChunk::try_from_ctx(&bytes), Ok((chunk, 28)));
}

#[test]
fn linear_property_takes_twelve_bytes_and_four_per_word() {
    let property = linear3(&[0, 10, 20]);
    assert_eq!(property.total_bytes_size(), Some(12 + 3 * (4 + 4 * 3)));
    assert_eq!(property.data[0].total_bytes_size(), Some(16));
    let bytes = encode(&property);
    let mut expected = [le(3), le(1), le(0xFFFF_FFFF)].concat();
    for t in [0u32, 10, 20] {
        expected.extend([le(t), le(bits(t as f32)), le(bits(2.0)), le(bits(3.0))].concat());
    }
    assert_eq!(bytes, expected);
    assert_eq!(Transform::<3>::try_from_ctx(&bytes), Ok((property, 60)));
}

#[test]
fn curved_property_holds_two_tangents_per_track() {
    let property = hermite4(&[5, 6]);
    assert_eq!(property.total_bytes_size(), Some(12 + 2 * (4 + 12 * 4)));
    assert_eq!(property.data[0].total_bytes_size(), Some(52));
    let bytes = encode(&property);
    let mut expected = [le(2), le(2), le(7)].concat();
    for t in [5u32, 6] {
        expected.extend(le(t));
        for w in [bits(0.0), bits(0.0), bits(0.0), bits(1.0), 1, 2, 3, 4, 5, 6, 7, 8] {
            expected.extend(le(w));
        }
    }
    assert_eq!(bytes, expected);
    assert_eq!(Transform::<4>::try_from_ctx(&bytes), Ok((property, 116)));
    let three = Transform::<3> {
        number_of_tracks: 1,
        interpolation_type: 3,
        global_sequence_id: 0,
        data: vec![Track { time: 1, value: [1, 2, 3], in_tan: Some([4, 5, 6]), out_tan: Some([7, 8, 9]) }],
    };
    assert_eq!(three.total_bytes_size(), Some(12 + 4 + 12 * 3));
    let one = Transform::<1> {
        number_of_tracks: 1,
        interpolation_type: 0,
        global_sequence_id: 0,
        data: vec![Track { time: 1, value: [1], in_tan: None, out_tan: None }],
    };
    assert_eq!(one.total_bytes_size(), Some(12 + 4 + 4));
}

#[test]
fn tangents_are_read_by_interpolation_type() {
    let words: Vec<u8> = (1u32..=20).flat_map(|w| le(w)).collect();
    let step = [le(1), le(0), le(9), words.clone()].concat();
    let (property, taken) = Transform::<3>::try_from_ctx(&step).unwrap();
    assert_eq!(taken, 12 + 16);
    assert_eq!(property.data, vec![Track { time: 1, value: [2, 3, 4], in_tan: None, out_tan: None }]);
    let linear = [le(1), le(1), le(9), words.clone()].concat();
    let (property, taken) = Transform::<3>::try_from_ctx(&linear).unwrap();
    assert_eq!(taken, 28);
    assert_eq!(property.data[0].in_tan, None);
    let hermite = [le(1), le(2), le(9), words.clone()].concat();
    let (property, taken) = Transform::<3>::try_from_ctx(&hermite).unwrap();
    assert_eq!(taken, 12 + 40);
    assert_eq!(
        property.data,
        vec![Track { time: 1, value: [2, 3, 4], in_tan: Some([5, 6, 7]), out_tan: Some([8, 9, 10]) }]
    );
    let bezier = [le(1), le(3), le(9), words].concat();
    let (property, taken) = Transform::<4>::try_from_ctx(&bezier).unwrap();
    assert_eq!(taken, 12 + 52);
    assert_eq!(
        property.data,
        vec![Track {
            time: 1,
            value: [2, 3, 4, 5],
            in_tan: Some([6, 7, 8, 9]),
            out_tan: Some([10, 11, 12, 13])
        }]
    );
    assert_eq!(property.number_of_tracks, 1);
    assert_eq!(property.interpolation_type, 3);
    assert_eq!(property.global_sequence_id, 9);
}

#[test]
fn property_must_hold_all_its_tracks() {
    let bytes = encode(&linear3(&[0, 10, 20]));
    assert_eq!(Transform::<3>::try_from_ctx(&bytes[..59]), Err(MdlxError::UnexpectedEof));
    assert_eq!(Transform::<3>::try_from_ctx(&bytes[..11]), Err(MdlxError::UnexpectedEof));
    assert_eq!(Transform::<4>::try_from_ctx(&bytes), Err(MdlxError::UnexpectedEof));
    let huge = [le(0xFFFF_FFFF), le(2), le(0)].concat();
    assert_eq!(Transform::<4>::try_from_ctx(&huge), Err(MdlxError::UnexpectedEof));
}

#[test]
fn property_may_be_empty() {
    let bytes = [le(0), le(2), le(5)].concat();
    let empty = Transform::<4> {
        number_of_tracks: 0,
        interpolation_type: 2,
        global_sequence_id: 5,
        data: vec![],
    };
    assert_eq!(Transform::<4>::try_from_ctx(&bytes), Ok((empty.clone(), 12)));
    assert_eq!(encode(&empty), bytes);
}

#[test]
fn track_is_written_with_the_tangents_it_has() {
    let lopsided = Transform::<3> {
        number_of_tracks: 1,
        interpolation_type: 1,
        global_sequence_id: 0,
        data: vec![Track { time: 4, value: [1, 2, 3], in_tan: Some([7, 8, 9]), out_tan: None }],
    };
    assert_eq!(lopsided.total_bytes_size(), Some(12 + 4 + 8 * 3));
    let expected: Vec<u8> = [1u32, 1, 0, 4, 1, 2, 3, 7, 8, 9].iter().flat_map(|w| le(*w)).collect();
    assert_eq!(encode(&lopsided), expected);
}

#[test]
fn optional_property_takes_its_tag_too() {
    assert_eq!(block_size::<3>(0, &None), Some(0));
    assert_eq!(block_size(0, &Some(linear3(&[1]))), Some(4 + 12 + 16));
    let tags = node_channel_tags();
    assert_eq!(channels_size(tags, &None, &None, &None), Some(0));
    assert_eq!(
        channels_size(tags, &Some(linear3(&[1])), &Some(hermite4(&[1, 2])), &Some(linear3(&[]))),
        Some(32 + (4 + 12 + 104) + 16)
    );
}

#[test]
fn node_holds_its_properties_behind_their_tags() {
    let bone = node("Bone_Head");
    assert_eq!(bone.inclusive_size, 96 + (4 + 12 + 2 * 16) + (4 + 12 + 52));
    let bytes = encode(&bone);
    let mut expected = [le(212), name_bytes("Bone_Head", 80), le(3), le(0xFFFF_FFFF), le(256)].concat();
    expected.extend(b"KGTR");
    expected.extend(encode(&linear3(&[0, 10])));
    expected.extend(b"KGRT");
    expected.extend(encode(&hermite4(&[5])));
    assert_eq!(bytes, expected);
    assert_eq!(Node::try_from_ctx(&bytes), Ok((bone, 212)));
}

#[test]
fn node_properties_may_come_in_any_order() {
    let scaling = linear3(&[7]);
    let rotation = hermite4(&[1]);
    let size = 96 + (4 + 12 + 16) + (4 + 12 + 52);
    let mut bytes = [le(size), name_bytes("N", 80), le(0), le(0), le(0)].concat();
    bytes.extend(b"KGSC");
    bytes.extend(encode(&scaling));
    bytes.extend(b"KGRT");
    bytes.extend(encode(&rotation));
    bytes.extend(b"junk");
    let (found, taken) = Node::try_from_ctx(&bytes).unwrap();
    assert_eq!(taken as u32, size);
    assert_eq!(found.translation, None);
    assert_eq!(found.rotation, Some(rotation));
    assert_eq!(found.scaling, Some(scaling));
    let again = encode(&found);
    assert_eq!(again.len() as u32, size);
    assert_eq!(again[96..100].to_vec(), b"KGRT".to_vec());
    assert_eq!(Node::try_from_ctx(&again), Ok((found, size as usize)));
}

#[test]
fn node_without_properties_takes_96_bytes() {
    let plain = Node {
        inclusive_size: 96,
        name: "Plain".to_string(),
        object_id: 1,
        parent_id: 2,
        flags: 3,
        translation: None,
        rotation: None,
        scaling: None,
    };
    assert_eq!(plain.total_bytes_size(), Some(96));
    let bytes = encode(&plain);
    assert_eq!(bytes.len(), 96);
    assert_eq!(Node::try_from_ctx(&bytes), Ok((plain, 96)));
    assert_eq!(Node::try_from_ctx(&bytes[..95]), Err(MdlxError::UnexpectedEof));
}

#[test]
fn unknown_tag_in_a_record_is_an_error() {
    let mut bytes = [le(200), name_bytes("N", 80), le(0), le(0), le(0)].concat();
    bytes.extend(b"KGXX");
    bytes.extend(vec![0u8; 100]);
    assert_eq!(
        Node::try_from_ctx(&bytes),
        Err(MdlxError::UnknownTag(u32::from_le_bytes(*b"KGXX")))
    );
    let mut bytes = le(100);
    bytes.extend(b"KGTR");
    bytes.extend(vec![0u8; 100]);
    assert_eq!(
        TextureAnimation::try_from_ctx(&bytes),
        Err(MdlxError::UnknownTag(u32::from_le_bytes(*b"KGTR")))
    );
}

#[test]
fn record_must_hold_what_its_size_states() {
    let bytes = [le(100), name_bytes("N", 80), le(0), le(0), le(0), vec![b'K', b'G']].concat();
    assert_eq!(Node::try_from_ctx(&bytes), Err(MdlxError::UnexpectedEof));
    let mut bytes = [le(200), name_bytes("N", 80), le(0), le(0), le(0)].concat();
    bytes.extend(b"KGTR");
    bytes.extend([le(5), le(1), le(0)].concat());
    assert_eq!(Node::try_from_ctx(&bytes), Err(MdlxError::UnexpectedEof));
}

#[test]
fn later_property_of_a_kind_replaces_the_earlier() {
    let first = linear3(&[1]);
    let second = linear3(&[2, 3]);
    let size = 4 + (4 + 28) + (4 + 44);
    let mut bytes = le(size);
    bytes.extend(b"KTAT");
    bytes.extend(encode(&first));
    bytes.extend(b"KTAT");
    bytes.extend(encode(&second));
    let (found, taken) = TextureAnimation::try_from_ctx(&bytes).unwrap();
    assert_eq!(taken as u32, size);
    assert_eq!(found.translation, Some(second));
    assert_eq!(found.inclusive_size, size);
}

#[test]
fn texture_animation_round_trip() {
    let mut animation = TextureAnimation {
        inclusive_size: 0,
        translation: Some(linear3(&[0, 100])),
        rotation: None,
        scaling: Some(linear3(&[50])),
    };
    animation.inclusive_size = animation.total_bytes_size().unwrap() as u32;
    assert_eq!(animation.inclusive_size, 4 + (4 + 12 + 32) + (4 + 12 + 16));
    let bytes = encode(&animation);
    assert_eq!(bytes[4..8].to_vec(), b"KTAT".to_vec());
    assert_eq!(bytes[52..56].to_vec(), b"KTAS".to_vec());
    assert_eq!(TextureAnimation::try_from_ctx(&bytes), Ok((animation.clone(), 84)));
    let mut chunk = TextureAnimationChunk { chunk_size: 0, data: vec![animation.clone(), animation] };
    assert_eq!(chunk.calculate_chunk_size(), Ok(()));
    assert_eq!(chunk.chunk_size, 168);
    let bytes = encode(&chunk);
    assert_eq!(TextureAnimationChunk::try_from_ctx(&bytes), Ok((chunk, 172)));
    let tags = texture_channel_tags();
    assert_eq!(tags.rotation, u32::from_le_bytes(*b"KTAR"));
}

#[test]
fn geoset_animation_round_trip() {
    let alpha = Transform::<1> {
        number_of_tracks: 2,
        interpolation_type: 1,
        global_sequence_id: 0xFFFF_FFFF,
        data: vec![
            Track { time: 0, value: [bits(1.0)], in_tan: None, out_tan: None },
            Track { time: 500, value: [bits(0.0)], in_tan: None, out_tan: None },
        ],
    };
    let mut animation = GeosetAnimation {
        inclusive_size: 0,
        alpha: bits(1.0),
        flags: 0,
        color: [bits(1.0), bits(0.5), bits(0.25)],
        geoset_id: 2,
        geoset_alpha: Some(alpha),
        geoset_color: Some(linear3(&[0])),
    };
    animation.inclusive_size = animation.total_bytes_size().unwrap() as u32;
    assert_eq!(animation.inclusive_size, 28 + (4 + 12 + 2 * 8) + (4 + 12 + 16));
    let bytes = encode(&animation);
    assert_eq!(bytes[..28].to_vec(), [le(92), le(bits(1.0)), le(0), le(bits(1.0)), le(bits(0.5)), le(bits(0.25)), le(2)].concat());
    assert_eq!(bytes[28..32].to_vec(), b"KGAO".to_vec());
    assert_eq!(bytes[60..64].to_vec(), b"KGAC".to_vec());
    assert_eq!(GeosetAnimation::try_from_ctx(&bytes), Ok((animation.clone(), 92)));
    let mut chunk = GeosetAnimationChunk { chunk_size: 0, data: vec![animation] };
    assert_eq!(chunk.calculate_chunk_size(), Ok(()));
    assert_eq!(chunk.chunk_size, 92);
    assert_eq!(GeosetAnimationChunk::try_from_ctx(&encode(&chunk)), Ok((chunk, 96)));
    let mut wrong = [le(40), vec![0u8; 24]].concat();
    wrong.extend(b"KGTR");
    wrong.extend(vec![0u8; 12]);
    assert_eq!(
        GeosetAnimation::try_from_ctx(&wrong),
        Err(MdlxError::UnknownTag(u32::from_le_bytes(*b"KGTR")))
    );
}

#[test]
fn bone_is_a_node_and_two_ids() {
    let bone = Bone { node: node("Bone_Root"), geoset_id: 4, geoset_animation_id: 0xFFFF_FFFF };
    assert_eq!(bone.total_bytes_size(), Some(212 + 8));
    let bytes = encode(&bone);
    assert_eq!(bytes[..212].to_vec(), encode(&bone.node));
    assert_eq!(bytes[212..].to_vec(), [le(4), le(0xFFFF_FFFF)].concat());
    assert_eq!(Bone::try_from_ctx(&bytes), Ok((bone.clone(), 220)));
    assert_eq!(Bone::try_from_ctx(&bytes[..219]), Err(MdlxError::UnexpectedEof));
    assert_eq!(bone.declared(), 220);
}

#[test]
fn bone_list_ends_where_the_sizes_add_up() {
    let bones = vec![
        Bone { node: node("A"), geoset_id: 0, geoset_animation_id: 1 },
        Bone { node: node("B"), geoset_id: 2, geoset_animation_id: 3 },
    ];
    let mut chunk = BoneChunk { chunk_size: 0, data: bones };
    assert_eq!(chunk.calculate_chunk_size(), Ok(()));
    assert_eq!(chunk.chunk_size, 440);
    let mut bytes = encode(&chunk);
    bytes.extend(b"PIVT....");
    assert_eq!(BoneChunk::try_from_ctx(&bytes), Ok((chunk.clone(), 444)));
    let short = [le(441), bytes[4..].to_vec()].concat();
    assert_eq!(BoneChunk::try_from_ctx(&short), Err(MdlxError::UnexpectedEof));
    let one = [le(220), bytes[4..].to_vec()].concat();
    let (found, taken) = BoneChunk::try_from_ctx(&one).unwrap();
    assert_eq!(taken, 224);
    assert_eq!(found.data, chunk.data[..1].to_vec());
    let none = [le(0), bytes[4..].to_vec()].concat();
    assert_eq!(BoneChunk::try_from_ctx(&none), Ok((BoneChunk { chunk_size: 0, data: vec![] }, 4)));
}

#[test]
fn helper_is_a_node() {
    let helper = Helper { node: node("Helper") };
    assert_eq!(helper.total_bytes_size(), Some(212));
    assert_eq!(helper.declared(), 212);
    assert_eq!(encode(&helper), encode(&helper.node));
    let mut chunk = HelperChunk { chunk_size: 0, data: vec![helper.clone(), helper] };
    assert_eq!(chunk.calculate_chunk_size(), Ok(()));
    assert_eq!(chunk.chunk_size, 424);
    assert_eq!(HelperChunk::try_from_ctx(&encode(&chunk)), Ok((chunk, 428)));
}

#[test]
fn records_are_read_by_count_or_by_size() {
    let bytes = [le(1), le(2), le(3)].concat();
    let (two, taken) = read_records::<GlobalSequence>(&bytes, 2).unwrap();
    assert_eq!((two.len(), taken), (2, 8));
    assert_eq!(read_records::<GlobalSequence>(&bytes, 4), Err(MdlxError::UnexpectedEof));
    let (size, three, taken) =
        read_fixed_list::<GlobalSequence>(&[le(12), bytes.clone()].concat(), 4).unwrap();
    assert_eq!((size, three.len(), taken), (12, 3, 16));
    let helper = encode(&Helper { node: node("H") });
    let twice = [helper.clone(), helper.clone()].concat();
    let (found, taken) = read_until::<Helper>(&twice, 213).unwrap();
    assert_eq!((found.len(), taken), (2, 424));
    let (found, taken) = read_until::<Helper>(&twice, 212).unwrap();
    assert_eq!((found.len(), taken), (1, 212));
    assert_eq!(read_until::<Helper>(&twice, 425), Err(MdlxError::UnexpectedEof));
    let (_, items, taken) = read_sized_list::<Helper>(&[le(424), twice].concat()).unwrap();
    assert_eq!((items.len(), taken), (2, 428));
    assert_eq!(list_size(&items), Some(424));
    assert_eq!(list_payload(&items), Ok(424));
}

#[test]
fn channels_are_read_up_to_the_stated_size() {
    let mut bytes = vec![0u8; 8];
    bytes.extend(b"KGTR");
    bytes.extend(encode(&linear3(&[1])));
    bytes.extend(b"KGSC");
    bytes.extend(encode(&linear3(&[2])));
    let tags = node_channel_tags();
    let (t, r, s, end) = read_channels(&bytes, 8, 72, tags).unwrap();
    assert_eq!((t, r, s, end), (Some(linear3(&[1])), None, Some(linear3(&[2])), 72));
    let (t, _, s, end) = read_channels(&bytes, 8, 9, tags).unwrap();
    assert_eq!((t, s, end), (Some(linear3(&[1])), None, 40));
    let (t, _, _, end) = read_channels(&bytes, 8, 8, tags).unwrap();
    assert_eq!((t, end), (None, 8));
    assert_eq!(read_channels(&bytes, 100, 50, tags), Ok((None, None, None, 100)));
    assert_eq!(read_channels(&bytes, 100, 200, tags), Err(MdlxError::UnexpectedEof));
    let other = ChannelTags { translation: 1, rotation: 2, scaling: 3 };
    assert_eq!(
        read_channels(&bytes, 8, 72, other),
        Err(MdlxError::UnknownTag(u32::from_le_bytes(*b"KGTR")))
    );
}

#[test]
fn opaque_chunk_is_kept_byte_for_byte() {
    let payload: Vec<u8> = (0u8..=200).collect();
    let bytes = [le(201), payload.clone(), vec![1, 2, 3]].concat();
    assert_eq!(read_opaque(&bytes), Ok((201, payload.clone(), 205)));
    assert_eq!(read_opaque(&bytes[..204]), Err(MdlxError::UnexpectedEof));
    assert_eq!(read_opaque(&bytes[..3]), Err(MdlxError::UnexpectedEof));
    assert_eq!(opaque_size(0, &payload), Some(205));
    assert_eq!(opaque_payload(&payload), Ok(201));
    let mut buf = vec![0xAAu8; 206];
    assert_eq!(write_opaque(201, &payload, &mut buf, 1), Ok(205));
    assert_eq!(buf, [vec![0xAA], bytes[..205].to_vec()].concat());
    assert_eq!(write_opaque(201, &payload, &mut buf, 2), Err(MdlxError::BufferTooSmall));
}

#[test]
fn every_opaque_chunk_round_trips() {
    let payload = vec![9u8, 8, 7, 6, 5];
    let bytes = [le(5), payload.clone()].concat();
    assert_eq!(encode(&GeosetChunk::try_from_ctx(&bytes).unwrap().0), bytes);
    assert_eq!(encode(&LightChunk::try_from_ctx(&bytes).unwrap().0), bytes);
    assert_eq!(encode(&AttachmentChunk::try_from_ctx(&bytes).unwrap().0), bytes);
    assert_eq!(encode(&ParticleEmitterChunk::try_from_ctx(&bytes).unwrap().0), bytes);
    assert_eq!(encode(&ParticleEmitter2Chunk::try_from_ctx(&bytes).unwrap().0), bytes);
    assert_eq!(encode(&RibbonEmitterChunk::try_from_ctx(&bytes).unwrap().0), bytes);
    assert_eq!(encode(&EventObjectChunk::try_from_ctx(&bytes).unwrap().0), bytes);
    assert_eq!(encode(&CameraChunk::try_from_ctx(&bytes).unwrap().0), bytes);
    assert_eq!(encode(&CollisionShapeChunk::try_from_ctx(&bytes).unwrap().0), bytes);
    assert_eq!(encode(&MaterialChunk::try_from_ctx(&bytes).unwrap().0), bytes);
    let (chunk, taken) = MaterialChunk::try_from_ctx(&bytes).unwrap();
    assert_eq!((chunk.chunk_size, chunk.bytes, taken), (5, payload, 9));
}

#[test]
fn opaque_chunk_size_is_the_number_of_its_bytes() {
    let mut chunk = LightChunk { chunk_size: 77, bytes: vec![1, 2, 3] };
    assert_eq!(chunk.calculate_chunk_size(), Ok(()));
    assert_eq!(chunk.chunk_size, 3);
    let mut empty = CameraChunk { chunk_size: 77, bytes: vec![] };
    assert_eq!(empty.calculate_chunk_size(), Ok(()));
    assert_eq!(empty.chunk_size, 0);
    assert_eq!(encode(&empty), le(0));
}
