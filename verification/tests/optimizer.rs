use mdxlroptimizer::animation::{Track, Transform};
use mdxlroptimizer::codec::Codec;
use mdxlroptimizer::header::VersionChunk;
use mdxlroptimizer::model::MDLXModel;
use mdxlroptimizer::node::{Bone, BoneChunk, Helper, HelperChunk, Node};
use mdxlroptimizer::optimizer::{check_nodes_fit, collect_frames, optimize_model};
use mdxlroptimizer::sequence::{Sequence, SequenceChunk};
use mdxlroptimizer::traits::{
    frame_in_ranges, frame_is_special, CompareValues, InRangeFrames, OptimizeFrames,
};
use std::cell::Cell;

fn within(threshold: f32) -> impl Fn(u32, u32) -> bool {
    move |a: u32, b: u32| {
        let diff = f32::from_bits(a) - f32::from_bits(b);
        !(diff < -threshold || diff > threshold)
    }
}

fn track3(time: u32, value: [f32; 3]) -> Track<3> {
    Track {
        time,
        value: [value[0].to_bits(), value[1].to_bits(), value[2].to_bits()],
        in_tan: None,
        out_tan: None,
    }
}

fn curved4(time: u32, w: f32) -> Track<4> {
    Track {
        time,
        value: [0f32.to_bits(), 0f32.to_bits(), 0f32.to_bits(), w.to_bits()],
        in_tan: Some([1, 2, 3, 4]),
        out_tan: Some([5, 6, 7, 8]),
    }
}

fn translation(times: &[u32]) -> Transform<3> {
    Transform {
        number_of_tracks: times.len() as u32,
        interpolation_type: 1,
        global_sequence_id: 0xFFFF_FFFF,
        data: times.iter().map(|t| track3(*t, [0.0, 0.0, 0.0])).collect(),
    }
}

fn ramp(points: &[(u32, f32)]) -> Transform<3> {
    Transform {
        number_of_tracks: points.len() as u32,
        interpolation_type: 1,
        global_sequence_id: 0xFFFF_FFFF,
        data: points.iter().map(|(t, x)| track3(*t, [*x, 0.0, 0.0])).collect(),
    }
}

fn rotation(points: &[(u32, f32)]) -> Transform<4> {
    Transform {
        number_of_tracks: points.len() as u32,
        interpolation_type: 2,
        global_sequence_id: 0,
        data: points.iter().map(|(t, w)| curved4(*t, *w)).collect(),
    }
}

fn times<const N: usize>(transform: &Transform<N>) -> Vec<u32> {
    transform.data.iter().map(|t| t.time).collect()
}

fn sequence(start: u32, end: u32) -> Sequence {
    Sequence {
        name: "Stand".to_string(),
        interval_start: start,
        interval_end: end,
        move_speed: 0,
        non_looping: 0,
        rarity: 0,
        unknown: 0,
        bounds_radius: 0,
        minimum_extent: [0; 3],
        maximum_extent: [0; 3],
    }
}

fn node(translation: Option<Transform<3>>, rotation: Option<Transform<4>>) -> Node {
    Node {
        inclusive_size: 9999,
        name: "Bone".to_string(),
        object_id: 1,
        parent_id: 2,
        flags: 3,
        translation,
        rotation,
        scaling: None,
    }
}

fn model(sequences: Option<Vec<Sequence>>, bone: Node, helper: Node) -> MDLXModel {
    let mut model = MDLXModel::new();
    model.version_chunk = Some(VersionChunk { chunk_size: 4, version: 800 });
    model.sequence_chunk = sequences.map(|data| SequenceChunk { chunk_size: 0, data });
    model.bone_chunk = Some(BoneChunk {
        chunk_size: 77,
        data: vec![Bone { node: bone, geoset_id: 5, geoset_animation_id: 6 }],
    });
    model.helper_chunk = Some(HelperChunk { chunk_size: 78, data: vec![Helper { node: helper }] });
    model
}

#[test]
fn identical_interior_frames_merge_away() {
    let mut property = translation(&[0, 10, 20, 30, 40]);
    property.optimize(&vec![], &within(0.01), false);
    assert_eq!(times(&property), vec![0, 40]);
    assert_eq!(property.number_of_tracks, 2);
}

#[test]
fn single_frame_sequence_keeps_its_frame() {
    let mut property = translation(&[0, 10, 20, 30, 40]);
    property.optimize(&vec![10, 10], &within(0.01), false);
    assert_eq!(times(&property), vec![0, 10, 40]);
    assert_eq!(property.number_of_tracks, 3);
}

#[test]
fn frames_outside_all_ranges_are_dropped() {
    let mut property = translation(&[0, 10, 20, 30, 40]);
    property.in_range_frames(&vec![10..=20, 40..=50]);
    assert_eq!(times(&property), vec![10, 20, 40]);
    assert_eq!(property.number_of_tracks, 3);
    property.in_range_frames(&vec![]);
    assert_eq!(times(&property), Vec::<u32>::new());
    assert_eq!(property.number_of_tracks, 0);
}

#[test]
fn property_without_tracks_is_left_alone_by_the_range_filter() {
    let mut property = translation(&[]);
    property.number_of_tracks = 9;
    property.in_range_frames(&vec![0..=10]);
    assert_eq!(property.number_of_tracks, 9);
    assert!(property.data.is_empty());
}

#[test]
fn ranges_include_both_ends() {
    let ranges = vec![10..=20, 30..=30];
    for (time, inside) in [(9, false), (10, true), (15, true), (20, true), (21, false), (30, true), (31, false)] {
        assert_eq!(frame_in_ranges(time, &ranges), inside, "time {}", time);
    }
    assert!(!frame_in_ranges(0, &vec![]));
    assert!(!frame_in_ranges(5, &vec![6..=4]));
    assert!(frame_is_special(3, &vec![1, 3]));
    assert!(!frame_is_special(2, &vec![1, 3]));
}

#[test]
fn values_compare_by_component() {
    let a = track3(0, [1.0, 2.0, 3.0]);
    let b = track3(5, [1.0, 2.0, 3.5]);
    assert!(a.compare_values(&a, &within(0.0)));
    assert!(!a.compare_values(&b, &within(0.25)));
    assert!(a.compare_values(&b, &within(0.5)));
    assert!(!b.compare_values(&a, &within(0.25)));
    let c = track3(0, [1.5, 2.0, 3.0]);
    assert!(!a.compare_values(&c, &within(0.25)));
    let q = curved4(0, 1.0);
    let r = curved4(0, 0.5);
    assert!(!q.compare_values(&r, &within(0.1)));
    assert!(q.compare_values(&r, &within(0.5)));
}

#[test]
fn comparison_stops_at_the_first_component_that_differs() {
    let calls = Cell::new(0);
    let counting = |a: u32, b: u32| {
        calls.set(calls.get() + 1);
        a == b
    };
    let a = track3(0, [1.0, 2.0, 3.0]);
    assert!(a.compare_values(&a, &counting));
    assert_eq!(calls.get(), 3);
    calls.set(0);
    assert!(!a.compare_values(&track3(0, [1.0, 9.0, 9.0]), &counting));
    assert_eq!(calls.get(), 2);
    calls.set(0);
    assert!(!a.compare_values(&track3(0, [9.0, 2.0, 3.0]), &counting));
    assert_eq!(calls.get(), 1);
}

#[test]
fn tangents_do_not_count_in_the_comparison() {
    let mut a = curved4(0, 1.0);
    let b = curved4(9, 1.0);
    a.in_tan = Some([100, 200, 300, 400]);
    a.out_tan = None;
    assert!(a.compare_values(&b, &within(0.0)));
}

#[test]
fn frame_stays_if_it_differs_from_either_neighbour() {
    let mut property = ramp(&[(0, 0.0), (10, 0.0), (20, 0.0), (30, 5.0), (40, 5.0), (50, 5.0)]);
    property.optimize(&vec![], &within(1.0), false);
    assert_eq!(times(&property), vec![0, 20, 30, 50]);
    assert_eq!(property.number_of_tracks, 4);
}

#[test]
fn frames_are_judged_against_their_neighbours_before_the_pass() {
    let mut property = ramp(&[(0, 0.0), (10, 0.6), (20, 1.2), (30, 1.8), (40, 2.4)]);
    property.optimize(&vec![], &within(1.0), false);
    assert_eq!(times(&property), vec![0, 40]);
}

#[test]
fn threshold_is_inclusive() {
    let mut at = ramp(&[(0, 0.0), (10, 0.5), (20, 1.0)]);
    at.optimize(&vec![], &within(0.5), false);
    assert_eq!(times(&at), vec![0, 20]);
    let mut below = ramp(&[(0, 0.0), (10, 0.5), (20, 1.0)]);
    below.optimize(&vec![], &within(0.25), false);
    assert_eq!(times(&below), vec![0, 10, 20]);
}

#[test]
fn first_and_last_frame_always_stay() {
    for threshold in [0.0f32, 0.5, 1000.0, f32::INFINITY] {
        let mut property = ramp(&[(3, 1.0), (4, 1.0), (5, 1.0), (6, 1.0)]);
        property.optimize(&vec![], &within(threshold), false);
        assert_eq!(times(&property), vec![3, 6]);
        assert_eq!(property.data[0], track3(3, [1.0, 0.0, 0.0]));
        assert_eq!(property.data[1], track3(6, [1.0, 0.0, 0.0]));
    }
}

#[test]
fn one_or_two_frames_are_left_alone() {
    for stamps in [vec![], vec![7], vec![7, 8]] {
        let mut property = translation(&stamps);
        property.number_of_tracks = 42;
        property.optimize(&vec![], &within(100.0), false);
        assert_eq!(times(&property), stamps);
        assert_eq!(property.number_of_tracks, 42);
    }
}

#[test]
fn special_frames_survive_even_among_identical_neighbours() {
    let mut property = translation(&[0, 10, 20, 30, 40, 50]);
    property.optimize(&vec![20, 40, 100, 200], &within(10.0), false);
    assert_eq!(times(&property), vec![0, 20, 40, 50]);
}

#[test]
fn larger_threshold_never_keeps_more() {
    let points = [(0, 0.0), (1, 0.1), (2, 0.5), (3, 0.55), (4, 2.0), (5, 2.0), (6, 2.3), (7, 9.0)];
    let mut last = usize::MAX;
    let mut counts = Vec::new();
    for threshold in [0.0f32, 0.05, 0.1, 0.3, 0.4, 0.5, 1.0, 2.0, 7.0, 10.0] {
        let mut property = ramp(&points);
        property.optimize(&vec![], &within(threshold), false);
        assert!(property.data.len() <= last);
        last = property.data.len();
        counts.push(last);
    }
    assert_eq!(counts, vec![8, 8, 8, 7, 5, 5, 5, 3, 2, 2]);
}

#[test]
fn optimizing_twice_changes_nothing_more() {
    let points = [(0, 0.0), (1, 0.1), (2, 0.5), (3, 0.55), (4, 2.0), (5, 2.0), (6, 2.3), (7, 9.0)];
    for threshold in [0.0f32, 0.3, 0.5, 2.0] {
        for linearize in [false, true] {
            let mut once = ramp(&points);
            once.in_range_frames(&vec![0..=3, 5..=7]);
            once.optimize(&vec![0, 3, 5, 7], &within(threshold), linearize);
            let mut twice = once.clone();
            twice.in_range_frames(&vec![0..=3, 5..=7]);
            twice.optimize(&vec![0, 3, 5, 7], &within(threshold), linearize);
            assert_eq!(twice, once);
        }
    }
}

#[test]
fn linearizing_strips_every_tangent() {
    let mut property = rotation(&[(0, 1.0), (10, 0.5), (20, 0.0), (30, 0.0)]);
    property.optimize(&vec![], &within(0.0), true);
    assert_eq!(property.interpolation_type, 1);
    assert_eq!(times(&property), vec![0, 10, 20, 30]);
    for track in &property.data {
        assert_eq!(track.in_tan, None);
        assert_eq!(track.out_tan, None);
    }
    assert_eq!(property.total_bytes_size(), Some(12 + 4 * 20));
    let mut again = property.clone();
    again.optimize(&vec![], &within(0.0), true);
    assert_eq!(again, property);
}

#[test]
fn linearizing_strips_tangents_of_short_properties_too() {
    let mut property = rotation(&[(0, 1.0), (10, 0.5)]);
    property.optimize(&vec![], &within(0.0), true);
    assert_eq!(property.interpolation_type, 1);
    assert_eq!(property.data[0].in_tan, None);
    assert_eq!(property.data[1].out_tan, None);
    assert_eq!(property.number_of_tracks, 2);
}

#[test]
fn tangents_stay_unless_linearizing_is_asked_for() {
    let mut property = rotation(&[(0, 1.0), (10, 1.0), (20, 1.0)]);
    property.optimize(&vec![], &within(0.0), false);
    assert_eq!(property.interpolation_type, 2);
    assert_eq!(times(&property), vec![0, 20]);
    assert_eq!(property.data[0].in_tan, Some([1, 2, 3, 4]));
    assert_eq!(property.data[1].out_tan, Some([5, 6, 7, 8]));
}

#[test]
fn linear_properties_are_not_touched_by_linearizing() {
    let mut property = ramp(&[(0, 0.0), (1, 5.0)]);
    property.interpolation_type = 0;
    property.data[0].in_tan = Some([1, 1, 1]);
    property.optimize(&vec![], &within(0.0), true);
    assert_eq!(property.interpolation_type, 0);
    assert_eq!(property.data[0].in_tan, Some([1, 1, 1]));
}

#[test]
fn frames_are_collected_from_the_sequences() {
    let (special, ranges) = collect_frames(&vec![sequence(0, 100), sequence(150, 150)]);
    assert_eq!(special, vec![0, 100, 150, 150]);
    assert_eq!(ranges, vec![0..=100, 150..=150]);
    let (special, ranges) = collect_frames(&vec![]);
    assert!(special.is_empty() && ranges.is_empty());
}

#[test]
fn model_is_optimized_node_by_node() {
    let bone = node(
        Some(ramp(&[(0, 0.0), (50, 0.0), (100, 0.0), (120, 3.0), (150, 0.0), (175, 0.0), (200, 0.0)])),
        Some(rotation(&[(0, 1.0), (100, 1.0), (300, 1.0)])),
    );
    let helper = node(None, Some(rotation(&[(150, 1.0), (160, 0.0), (170, 0.0), (180, 0.0), (200, 0.0)])));
    let mut model = model(Some(vec![sequence(0, 100), sequence(150, 200)]), bone, helper);
    let before = model.clone();
    assert_eq!(optimize_model(&mut model, within(0.1), true, false), Ok(()));

    let bone = &model.bone_chunk.as_ref().unwrap().data[0];
    let translation = bone.node.translation.as_ref().unwrap();
    assert_eq!(times(translation), vec![0, 100, 150, 200]);
    assert_eq!(translation.number_of_tracks, 4);
    let rotation = bone.node.rotation.as_ref().unwrap();
    assert_eq!(times(rotation), vec![0, 100]);
    assert_eq!(rotation.interpolation_type, 1);
    assert_eq!(rotation.data[0].in_tan, None);
    assert_eq!(bone.node.scaling, None);
    assert_eq!(bone.node.inclusive_size, 96 + (4 + 12 + 4 * 16) + (4 + 12 + 2 * 20));
    assert_eq!(bone.node.total_bytes_size(), Some(bone.node.inclusive_size as usize));
    assert_eq!((bone.geoset_id, bone.geoset_animation_id), (5, 6));
    assert_eq!(bone.node.name, "Bone");
    assert_eq!((bone.node.object_id, bone.node.parent_id, bone.node.flags), (1, 2, 3));

    let helper = &model.helper_chunk.as_ref().unwrap().data[0];
    assert_eq!(helper.node.translation, None);
    assert_eq!(times(helper.node.rotation.as_ref().unwrap()), vec![150, 160, 200]);
    assert_eq!(helper.node.inclusive_size, 96 + (4 + 12 + 3 * 20));

    assert_eq!(model.version_chunk, before.version_chunk);
    assert_eq!(model.sequence_chunk, before.sequence_chunk);
    assert_eq!(model.bone_chunk.as_ref().unwrap().chunk_size, 77);
    assert_eq!(model.helper_chunk.as_ref().unwrap().chunk_size, 78);

    let once = model.clone();
    assert_eq!(optimize_model(&mut model, within(0.1), true, false), Ok(()));
    assert_eq!(model, once);
}

#[test]
fn outside_only_drops_frames_outside_the_sequences() {
    let bone = node(
        Some(ramp(&[(0, 0.0), (50, 0.0), (100, 0.0), (120, 3.0), (150, 0.0)])),
        Some(rotation(&[(0, 1.0), (50, 1.0), (100, 1.0), (300, 1.0)])),
    );
    let mut model = model(Some(vec![sequence(0, 100)]), bone, node(None, None));
    assert_eq!(optimize_model(&mut model, within(1000.0), true, true), Ok(()));
    let bone = &model.bone_chunk.as_ref().unwrap().data[0];
    assert_eq!(times(bone.node.translation.as_ref().unwrap()), vec![0, 50, 100]);
    let rotation = bone.node.rotation.as_ref().unwrap();
    assert_eq!(times(rotation), vec![0, 50, 100]);
    assert_eq!(rotation.interpolation_type, 1);
    for track in &rotation.data {
        assert_eq!(track.in_tan, None);
        assert_eq!(track.out_tan, None);
    }
    assert_eq!(bone.node.translation.as_ref().unwrap().interpolation_type, 1);
    assert_eq!(bone.node.inclusive_size, 96 + (4 + 12 + 3 * 16) + (4 + 12 + 3 * 20));
    let helper = &model.helper_chunk.as_ref().unwrap().data[0];
    assert_eq!(helper.node.inclusive_size, 96);
}

#[test]
fn outside_without_linearize_keeps_curves() {
    let bone = node(
        Some(ramp(&[(0, 0.0), (50, 0.0), (100, 0.0), (120, 3.0), (150, 0.0)])),
        Some(rotation(&[(0, 1.0), (50, 1.0), (100, 1.0), (300, 1.0)])),
    );
    let mut model = model(Some(vec![sequence(0, 100)]), bone, node(None, None));
    assert_eq!(optimize_model(&mut model, within(1000.0), false, true), Ok(()));
    let bone = &model.bone_chunk.as_ref().unwrap().data[0];
    assert_eq!(times(bone.node.translation.as_ref().unwrap()), vec![0, 50, 100]);
    let rotation = bone.node.rotation.as_ref().unwrap();
    assert_eq!(times(rotation), vec![0, 50, 100]);
    assert_eq!(rotation.interpolation_type, 2);
    assert_eq!(rotation.data[1].in_tan, Some([1, 2, 3, 4]));
    assert_eq!(rotation.data[1].out_tan, Some([5, 6, 7, 8]));
    assert_eq!(bone.node.inclusive_size, 96 + (4 + 12 + 3 * 16) + (4 + 12 + 3 * 52));
}

#[test]
fn linearizing_does_not_depend_on_outside() {
    for outside in [false, true] {
        let bone = node(
            Some(ramp(&[(0, 0.0), (50, 1.0), (100, 2.0)])),
            Some(rotation(&[(0, 1.0), (50, 0.5), (100, 0.0)])),
        );
        let mut step = rotation(&[(0, 1.0), (50, 0.5)]);
        step.interpolation_type = 0;
        let helper = node(None, Some(step));
        let mut model = model(Some(vec![sequence(0, 100)]), bone, helper);
        assert_eq!(optimize_model(&mut model, within(0.0), true, outside), Ok(()));
        let bone = &model.bone_chunk.as_ref().unwrap().data[0];
        let turned = bone.node.rotation.as_ref().unwrap();
        assert_eq!(turned.interpolation_type, 1);
        assert_eq!(times(turned), vec![0, 50, 100]);
        assert!(turned.data.iter().all(|t| t.in_tan.is_none() && t.out_tan.is_none()));
        assert_eq!(bone.node.translation.as_ref().unwrap().interpolation_type, 1);
        let helper = &model.helper_chunk.as_ref().unwrap().data[0];
        let kept = helper.node.rotation.as_ref().unwrap();
        assert_eq!(kept.interpolation_type, 0);
        assert_eq!(kept.data[0].in_tan, Some([1, 2, 3, 4]));
    }
}

#[test]
fn linearize_alone_strips_curved_properties_only() {
    let mut curved = rotation(&[(0, 1.0), (10, 0.5)]);
    curved.linearize();
    assert_eq!(curved.interpolation_type, 1);
    assert_eq!(curved.number_of_tracks, 2);
    assert_eq!(times(&curved), vec![0, 10]);
    assert_eq!(curved.data[0], Track { time: 0, value: curved.data[0].value, in_tan: None, out_tan: None });
    assert_eq!(curved.data[1].out_tan, None);
    let mut plain = ramp(&[(0, 0.0), (1, 5.0)]);
    plain.data[0].in_tan = Some([1, 1, 1]);
    let before = plain.clone();
    plain.linearize();
    assert_eq!(plain, before);
}

#[test]
fn frames_kept_under_a_larger_threshold_are_kept_under_a_smaller() {
    let points = [(0, 0.0), (1, 0.1), (2, 0.5), (3, 0.55), (4, 2.0), (5, 2.0), (6, 2.3), (7, 9.0)];
    let thresholds = [0.0f32, 0.05, 0.1, 0.3, 0.4, 0.5, 1.0, 2.0, 7.0, 10.0];
    let mut kept = Vec::new();
    for threshold in thresholds {
        let mut property = ramp(&points);
        property.optimize(&vec![3], &within(threshold), false);
        assert_eq!(property.number_of_tracks as usize, property.data.len());
        kept.push(times(&property));
    }
    assert_eq!(kept[3], vec![0, 1, 2, 3, 4, 6, 7]);
    assert_eq!(kept[7], vec![0, 3, 6, 7]);
    assert_eq!(kept[9], vec![0, 3, 7]);
    for pair in kept.windows(2) {
        assert!(pair[1].len() <= pair[0].len());
        assert!(pair[1].iter().all(|time| pair[0].contains(time)));
    }
}

#[test]
fn model_without_sequences_keeps_no_frame() {
    let mut model = model(None, node(Some(translation(&[0, 1, 2])), None), node(None, None));
    assert_eq!(optimize_model(&mut model, within(0.0), false, false), Ok(()));
    let bone = &model.bone_chunk.as_ref().unwrap().data[0];
    let translation = bone.node.translation.as_ref().unwrap();
    assert!(translation.data.is_empty());
    assert_eq!(translation.number_of_tracks, 0);
    assert_eq!(bone.node.inclusive_size, 96 + 4 + 12);
}

#[test]
fn model_without_nodes_stays_as_it_is() {
    let mut model = MDLXModel::new();
    model.sequence_chunk = Some(SequenceChunk { chunk_size: 0, data: vec![sequence(0, 10)] });
    let before = model.clone();
    assert!(check_nodes_fit(&model));
    assert_eq!(optimize_model(&mut model, within(0.0), true, false), Ok(()));
    assert_eq!(model, before);
}

#[test]
fn optimized_model_is_written_and_read_back() {
    let bone = node(
        Some(ramp(&[(0, 0.0), (50, 0.0), (100, 0.0)])),
        Some(rotation(&[(0, 1.0), (50, 1.0), (100, 1.0)])),
    );
    let mut model = model(Some(vec![sequence(0, 100)]), bone, node(None, None));
    assert_eq!(optimize_model(&mut model, within(0.0), true, false), Ok(()));
    let bytes = MDLXModel::write_mdx_file(model.clone()).unwrap();
    let again = MDLXModel::read_mdx_file(bytes).unwrap();
    model.correct_chunk_size().unwrap();
    assert_eq!(again, model);
    assert_eq!(again.bone_chunk.unwrap().chunk_size, 96 + (4 + 12 + 2 * 16) + (4 + 12 + 2 * 20) + 8);
}
