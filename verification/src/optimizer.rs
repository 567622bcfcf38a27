//! The keyframe optimizer: thins out the animation of every bone and helper
//! of a model.
//!
//! The sequences of the model name the intervals of the timeline that are
//! ever played. For each animated translation, rotation and scaling of each
//! bone and helper, the optimizer takes three steps. It drops the keyframes
//! outside all of these intervals. It turns the property linear, if asked
//! to. And, unless it is told to look at the intervals only, it drops the
//! keyframes that say nothing new: those whose value is the same as that of
//! both neighbours and whose time is neither the start nor the end of a
//! sequence. Whether a property is turned linear depends on nothing but the
//! request and the property's interpolation type. At last each node's size
//! field is set to the size of what the node holds then.

use vstd::prelude::*;
use std::ops::RangeInclusive;
use crate::animation::{
    block_encoding, lemma_track_encoding_len, lemma_tracks_encoding_push,
    lemma_transform_encoding_len, tracks_encoding, transform_encoding, TrackView, Transform,
    TransformView,
};
use crate::codec::{opt_view, views, Codec, ListView};
use crate::model::{MDLXModel, MDLXModelView};
use crate::error::MdlxError;
use crate::node::{
    lemma_node_header_len, node_tags, Bone, BoneView, Helper, HelperView, Node, NodeView,
};
use crate::sequence::{Sequence, SequenceView};
use crate::traits::{
    covers, decides, in_range, in_ranges, kept, lemma_kept_agree, lemma_optimized_decided,
    linearized, optimized, optimized_as, stripped, thinned, InRangeFrames, OptimizeFrames,
};

verus! {

/// `time` lies in the interval of at least one of `sequences`, ends included.
pub open spec fn in_sequences(time: u32, sequences: Seq<SequenceView>) -> bool {
    exists|k: int|
        0 <= k < sequences.len() && (#[trigger] sequences[k]).interval_start <= time
            <= sequences[k].interval_end
}

/// The start and the end of the interval of each of `sequences`, in order.
pub open spec fn special_frames(sequences: Seq<SequenceView>) -> Seq<u32>
    decreases sequences.len(),
{
    if sequences.len() == 0 {
        Seq::empty()
    } else {
        special_frames(sequences.drop_last()).push(sequences.last().interval_start).push(
            sequences.last().interval_end,
        )
    }
}

/// `after` is the animated property `before` after the optimizer's steps,
/// with verdicts that `close` can have led to: without the tracks of whose
/// time `inside` does not hold, turned linear if `linearize` asks for it
/// and, unless `outside` is set, without its redundant tracks.
pub open spec fn processed_as<F: Fn(u32, u32) -> bool>(
    close: F,
    before: TransformView,
    after: TransformView,
    inside: spec_fn(u32) -> bool,
    special: Seq<u32>,
    linearize: bool,
    outside: bool,
) -> bool {
    if outside {
        after == linearized(in_range(before, inside), linearize)
    } else {
        optimized_as(close, in_range(before, inside), after, special, linearize)
    }
}

/// An animated property after the optimizer's steps under the relation
/// `rel`: without the tracks of whose time `inside` does not hold, turned
/// linear if `linearize` asks for it and, unless `outside` is set, without
/// the tracks that are redundant under `rel`.
pub open spec fn processed(
    v: TransformView,
    inside: spec_fn(u32) -> bool,
    special: Seq<u32>,
    rel: spec_fn(u32, u32) -> bool,
    linearize: bool,
    outside: bool,
) -> TransformView {
    if outside {
        linearized(in_range(v, inside), linearize)
    } else {
        optimized(in_range(v, inside), special, rel, linearize)
    }
}

/// `after` is the optional animated property `before` after the optimizer's
/// steps: absent if `before` is.
pub open spec fn channel_processed_as<F: Fn(u32, u32) -> bool>(
    close: F,
    before: Option<TransformView>,
    after: Option<TransformView>,
    inside: spec_fn(u32) -> bool,
    special: Seq<u32>,
    linearize: bool,
    outside: bool,
) -> bool {
    match before {
        Some(b) => after matches Some(a) && processed_as(close, b, a, inside, special, linearize, outside),
        None => after is None,
    }
}

/// An optional animated property after the optimizer's steps under `rel`.
pub open spec fn channel_processed(
    v: Option<TransformView>,
    inside: spec_fn(u32) -> bool,
    special: Seq<u32>,
    rel: spec_fn(u32, u32) -> bool,
    linearize: bool,
    outside: bool,
) -> Option<TransformView> {
    match v {
        Some(t) => Some(processed(t, inside, special, rel, linearize, outside)),
        None => None,
    }
}

/// `after` is the node `before` after the optimizer's steps: each of its
/// animated properties is processed, its other fields are as they were, and
/// its size field states the size of its encoding.
pub open spec fn node_processed_as<F: Fn(u32, u32) -> bool>(
    close: F,
    before: NodeView,
    after: NodeView,
    inside: spec_fn(u32) -> bool,
    special: Seq<u32>,
    linearize: bool,
    outside: bool,
) -> bool {
    &&& after.name == before.name
    &&& after.object_id == before.object_id
    &&& after.parent_id == before.parent_id
    &&& after.flags == before.flags
    &&& channel_processed_as(
        close,
        before.translation,
        after.translation,
        inside,
        special,
        linearize,
        outside,
    )
    &&& channel_processed_as(close, before.rotation, after.rotation, inside, special, linearize, outside)
    &&& channel_processed_as(close, before.scaling, after.scaling, inside, special, linearize, outside)
    &&& after.inclusive_size == Node::encoding(after).len()
}

/// A node after the optimizer's steps under `rel`.
pub open spec fn node_processed(
    v: NodeView,
    inside: spec_fn(u32) -> bool,
    special: Seq<u32>,
    rel: spec_fn(u32, u32) -> bool,
    linearize: bool,
    outside: bool,
) -> NodeView {
    let shaped = NodeView {
        translation: channel_processed(v.translation, inside, special, rel, linearize, outside),
        rotation: channel_processed(v.rotation, inside, special, rel, linearize, outside),
        scaling: channel_processed(v.scaling, inside, special, rel, linearize, outside),
        ..v
    };
    NodeView { inclusive_size: Node::encoding(shaped).len() as u32, ..shaped }
}

/// The encoding of the tracks that are kept is no longer than that of all.
pub proof fn lemma_kept_no_longer(tracks: Seq<TrackView>, keep: spec_fn(int) -> bool, n: nat)
    requires
        n <= tracks.len(),
    ensures
        tracks_encoding(kept(tracks, keep, n)).len() <= tracks_encoding(tracks.take(n as int)).len(),
    decreases n,
{
    if n > 0 {
        lemma_kept_no_longer(tracks, keep, (n - 1) as nat);
        assert(tracks.take(n as int) =~= tracks.take(n - 1).push(tracks[n - 1]));
        lemma_tracks_encoding_push(tracks.take(n - 1), tracks[n - 1]);
        if keep(n - 1) {
            lemma_tracks_encoding_push(kept(tracks, keep, (n - 1) as nat), tracks[n - 1]);
        }
    } else {
        assert(tracks.take(0) =~= Seq::<TrackView>::empty());
    }
}

/// The encoding of tracks without tangents is no longer than that of the
/// tracks with them.
pub proof fn lemma_stripped_no_longer(tracks: Seq<TrackView>)
    ensures
        tracks_encoding(Seq::new(tracks.len(), |i: int| stripped(tracks[i]))).len()
            <= tracks_encoding(tracks).len(),
    decreases tracks.len(),
{
    let bare = Seq::new(tracks.len(), |i: int| stripped(tracks[i]));
    if tracks.len() > 0 {
        let front = tracks.drop_last();
        lemma_stripped_no_longer(front);
        assert(bare.drop_last() =~= Seq::new(front.len(), |i: int| stripped(front[i])));
        lemma_track_encoding_len(tracks.last());
        lemma_track_encoding_len(stripped(tracks.last()));
    }
}

/// Dropping tracks by their time, linearizing and dropping redundant tracks
/// make the encoding of an animated property no longer, whatever the
/// verdicts on the values are.
pub proof fn lemma_steps_no_longer(
    v: TransformView,
    inside: spec_fn(u32) -> bool,
    special: Seq<u32>,
    same: Seq<bool>,
    linearize: bool,
)
    ensures
        transform_encoding(in_range(v, inside)).len() <= transform_encoding(v).len(),
        transform_encoding(linearized(in_range(v, inside), linearize)).len() <= transform_encoding(
            v,
        ).len(),
        transform_encoding(thinned(linearized(in_range(v, inside), linearize), special, same)).len()
            <= transform_encoding(v).len(),
{
    let filtered = in_range(v, inside);
    let linear = linearized(filtered, linearize);
    lemma_transform_encoding_len(v);
    lemma_transform_encoding_len(filtered);
    lemma_transform_encoding_len(linear);
    lemma_transform_encoding_len(thinned(linear, special, same));
    lemma_kept_no_longer(v.data, |i: int| inside(v.data[i].time), v.data.len());
    assert(v.data.take(v.data.len() as int) =~= v.data);
    lemma_stripped_no_longer(filtered.data);
    lemma_kept_no_longer(
        linear.data,
        |i: int| crate::traits::keeps(linear.data, special, same, i),
        linear.data.len(),
    );
    assert(linear.data.take(linear.data.len() as int) =~= linear.data);
}

/// The optimizer's steps make the encoding of an animated property no longer.
pub proof fn lemma_processed_no_longer<F: Fn(u32, u32) -> bool>(
    close: F,
    before: TransformView,
    after: TransformView,
    inside: spec_fn(u32) -> bool,
    special: Seq<u32>,
    linearize: bool,
    outside: bool,
)
    requires
        processed_as(close, before, after, inside, special, linearize, outside),
    ensures
        transform_encoding(after).len() <= transform_encoding(before).len(),
{
    let filtered = in_range(before, inside);
    if outside {
        lemma_steps_no_longer(before, inside, special, Seq::empty(), linearize);
    } else {
        let same = choose|same: Seq<bool>|
            #![trigger crate::traits::observed(close, linearized(filtered, linearize).data, same)]
            crate::traits::observed(close, linearized(filtered, linearize).data, same) && after
                == thinned(linearized(filtered, linearize), special, same);
        lemma_steps_no_longer(before, inside, special, same, linearize);
    }
}

/// The optimizer's steps make the encoding of an optional animated property
/// no longer.
pub proof fn lemma_channel_no_longer<F: Fn(u32, u32) -> bool>(
    close: F,
    tag: u32,
    before: Option<TransformView>,
    after: Option<TransformView>,
    inside: spec_fn(u32) -> bool,
    special: Seq<u32>,
    linearize: bool,
    outside: bool,
)
    requires
        channel_processed_as(close, before, after, inside, special, linearize, outside),
    ensures
        block_encoding(tag, after).len() <= block_encoding(tag, before).len(),
{
    if let Some(b) = before {
        lemma_processed_no_longer(close, b, after->0, inside, special, linearize, outside);
        crate::primitives::lemma_le32_len(tag);
    }
}

/// Runs the optimizer's steps on one optional animated property.
fn process_channel<const N: usize, F: Fn(u32, u32) -> bool>(
    channel: &mut Option<Transform<N>>,
    special: &Vec<u32>,
    ranges: &Vec<RangeInclusive<u32>>,
    Ghost(inside): Ghost<spec_fn(u32) -> bool>,
    close: &F,
    linearize: bool,
    outside: bool,
)
    requires
        forall|a: u32, b: u32| call_requires(*close, (a, b)),
        forall|time: u32| #[trigger] inside(time) == in_ranges(time, ranges@),
    ensures
        channel_processed_as(
            *close,
            opt_view(*old(channel)),
            opt_view(*final(channel)),
            inside,
            special@,
            linearize,
            outside,
        ),
{
    match channel {
        Some(transform) => {
            let ghost before = transform@;
            transform.in_range_frames(ranges);
            proof {
                let by_ranges = |time: u32| in_ranges(time, ranges@);
                lemma_kept_agree(
                    before.data,
                    |i: int| by_ranges(before.data[i].time),
                    |i: int| inside(before.data[i].time),
                    before.data.len(),
                );
                assert(transform@ == in_range(before, inside));
            }
            if !outside {
                transform.optimize(special, close, linearize);
            } else if linearize {
                transform.linearize();
            }
        },
        None => {},
    }
}

/// Runs the optimizer's steps on the animated properties of a node whose
/// encoding fits a 32-bit size field, and sets the node's size field to the
/// size of its encoding.
fn optimize_node<F: Fn(u32, u32) -> bool>(
    node: &mut Node,
    special: &Vec<u32>,
    ranges: &Vec<RangeInclusive<u32>>,
    Ghost(inside): Ghost<spec_fn(u32) -> bool>,
    close: &F,
    linearize: bool,
    outside: bool,
)
    requires
        forall|a: u32, b: u32| call_requires(*close, (a, b)),
        forall|time: u32| #[trigger] inside(time) == in_ranges(time, ranges@),
        Node::encoding(old(node)@).len() <= u32::MAX,
    ensures
        node_processed_as(*close, old(node)@, final(node)@, inside, special@, linearize, outside),
{
    let ghost before = node@;
    process_channel(&mut node.translation, special, ranges, Ghost(inside), close, linearize, outside);
    process_channel(&mut node.rotation, special, ranges, Ghost(inside), close, linearize, outside);
    process_channel(&mut node.scaling, special, ranges, Ghost(inside), close, linearize, outside);
    proof {
        let tags = node_tags();
        lemma_channel_no_longer(
            *close,
            tags.translation,
            before.translation,
            node@.translation,
            inside,
            special@,
            linearize,
            outside,
        );
        lemma_channel_no_longer(
            *close,
            tags.rotation,
            before.rotation,
            node@.rotation,
            inside,
            special@,
            linearize,
            outside,
        );
        lemma_channel_no_longer(
            *close,
            tags.scaling,
            before.scaling,
            node@.scaling,
            inside,
            special@,
            linearize,
            outside,
        );
        lemma_node_header_len(before);
        lemma_node_header_len(node@);
    }
    match node.total_bytes_size() {
        Some(size) => {
            let ghost shaped = node@;
            node.inclusive_size = size as u32;
            proof {
                lemma_node_header_len(shaped);
                lemma_node_header_len(node@);
            }
        },
        None => {
            assert(false);
        },
    }
}

/// Where `close` computes `rel`, an animated property processed with the
/// verdicts of `close` is the property processed under `rel`.
pub proof fn lemma_channel_decided<F: Fn(u32, u32) -> bool>(
    close: F,
    rel: spec_fn(u32, u32) -> bool,
    before: Option<TransformView>,
    after: Option<TransformView>,
    inside: spec_fn(u32) -> bool,
    special: Seq<u32>,
    linearize: bool,
    outside: bool,
)
    requires
        decides(close, rel),
        forall|x: u32, y: u32| call_requires(close, (x, y)),
        channel_processed_as(close, before, after, inside, special, linearize, outside),
    ensures
        after == channel_processed(before, inside, special, rel, linearize, outside),
{
    if let Some(b) = before {
        if !outside {
            lemma_optimized_decided(close, rel, in_range(b, inside), after->0, special, linearize);
        }
    }
}

/// Where `close` computes `rel`, a node processed with the verdicts of
/// `close` is the node processed under `rel`.
pub proof fn lemma_node_decided<F: Fn(u32, u32) -> bool>(
    close: F,
    rel: spec_fn(u32, u32) -> bool,
    before: NodeView,
    after: NodeView,
    inside: spec_fn(u32) -> bool,
    special: Seq<u32>,
    linearize: bool,
    outside: bool,
)
    requires
        decides(close, rel),
        forall|x: u32, y: u32| call_requires(close, (x, y)),
        node_processed_as(close, before, after, inside, special, linearize, outside),
    ensures
        after == node_processed(before, inside, special, rel, linearize, outside),
{
    lemma_channel_decided(close, rel, before.translation, after.translation, inside, special, linearize, outside);
    lemma_channel_decided(close, rel, before.rotation, after.rotation, inside, special, linearize, outside);
    lemma_channel_decided(close, rel, before.scaling, after.scaling, inside, special, linearize, outside);
    let shaped = NodeView {
        translation: after.translation,
        rotation: after.rotation,
        scaling: after.scaling,
        ..before
    };
    lemma_node_header_len(shaped);
    lemma_node_header_len(after);
}

/// `after` is the list of bones `before` after the optimizer's steps: the
/// node of each bone is processed, and nothing else has changed.
pub open spec fn bones_processed_as<F: Fn(u32, u32) -> bool>(
    close: F,
    before: Seq<BoneView>,
    after: Seq<BoneView>,
    inside: spec_fn(u32) -> bool,
    special: Seq<u32>,
    linearize: bool,
    outside: bool,
) -> bool {
    &&& after.len() == before.len()
    &&& forall|i: int|
        0 <= i < before.len() ==> {
            &&& node_processed_as(
                close,
                before[i].node,
                (#[trigger] after[i]).node,
                inside,
                special,
                linearize,
                outside,
            )
            &&& after[i].geoset_id == before[i].geoset_id
            &&& after[i].geoset_animation_id == before[i].geoset_animation_id
        }
}

/// `after` is the list of helpers `before` after the optimizer's steps: the
/// node of each helper is processed.
pub open spec fn helpers_processed_as<F: Fn(u32, u32) -> bool>(
    close: F,
    before: Seq<HelperView>,
    after: Seq<HelperView>,
    inside: spec_fn(u32) -> bool,
    special: Seq<u32>,
    linearize: bool,
    outside: bool,
) -> bool {
    &&& after.len() == before.len()
    &&& forall|i: int|
        0 <= i < before.len() ==> node_processed_as(
            close,
            before[i].node,
            (#[trigger] after[i]).node,
            inside,
            special,
            linearize,
            outside,
        )
}

/// A list of bones after the optimizer's steps under `rel`.
pub open spec fn bones_processed(
    v: Seq<BoneView>,
    inside: spec_fn(u32) -> bool,
    special: Seq<u32>,
    rel: spec_fn(u32, u32) -> bool,
    linearize: bool,
    outside: bool,
) -> Seq<BoneView> {
    Seq::new(
        v.len(),
        |i: int|
            BoneView { node: node_processed(v[i].node, inside, special, rel, linearize, outside), ..v[i] },
    )
}

/// A list of helpers after the optimizer's steps under `rel`.
pub open spec fn helpers_processed(
    v: Seq<HelperView>,
    inside: spec_fn(u32) -> bool,
    special: Seq<u32>,
    rel: spec_fn(u32, u32) -> bool,
    linearize: bool,
    outside: bool,
) -> Seq<HelperView> {
    Seq::new(
        v.len(),
        |i: int| HelperView { node: node_processed(v[i].node, inside, special, rel, linearize, outside) },
    )
}

/// The sequences of a model; none if the model has no sequence chunk.
pub open spec fn sequences_of(m: MDLXModelView) -> Seq<SequenceView> {
    match m.sequence_chunk {
        Some(c) => c.data,
        None => Seq::empty(),
    }
}

/// The encoding of every node of the model, of bones and of helpers, fits a
/// 32-bit size field.
pub open spec fn nodes_fit(m: MDLXModelView) -> bool {
    &&& m.bone_chunk matches Some(c) ==> forall|i: int|
        0 <= i < c.data.len() ==> Node::encoding((#[trigger] c.data[i]).node).len() <= u32::MAX
    &&& m.helper_chunk matches Some(c) ==> forall|i: int|
        0 <= i < c.data.len() ==> Node::encoding((#[trigger] c.data[i]).node).len() <= u32::MAX
}

/// `after` is the model `before` optimized, with verdicts that `close` can
/// have led to: the bones and the helpers are processed with the intervals
/// of the model's sequences, and nothing else has changed.
pub open spec fn model_optimized_as<F: Fn(u32, u32) -> bool>(
    close: F,
    before: MDLXModelView,
    after: MDLXModelView,
    linearize: bool,
    outside: bool,
) -> bool {
    let sequences = sequences_of(before);
    let inside = |time: u32| in_sequences(time, sequences);
    let special = special_frames(sequences);
    &&& after == (MDLXModelView { bone_chunk: after.bone_chunk, helper_chunk: after.helper_chunk, ..before })
    &&& match before.bone_chunk {
        Some(b) => after.bone_chunk matches Some(a) && a.chunk_size == b.chunk_size
            && bones_processed_as(close, b.data, a.data, inside, special, linearize, outside),
        None => after.bone_chunk is None,
    }
    &&& match before.helper_chunk {
        Some(b) => after.helper_chunk matches Some(a) && a.chunk_size == b.chunk_size
            && helpers_processed_as(close, b.data, a.data, inside, special, linearize, outside),
        None => after.helper_chunk is None,
    }
}

/// A model optimized under the relation `rel`.
pub open spec fn optimized_model(
    m: MDLXModelView,
    rel: spec_fn(u32, u32) -> bool,
    linearize: bool,
    outside: bool,
) -> MDLXModelView {
    let sequences = sequences_of(m);
    let inside = |time: u32| in_sequences(time, sequences);
    let special = special_frames(sequences);
    MDLXModelView {
        bone_chunk: match m.bone_chunk {
            Some(c) => Some(
                ListView {
                    chunk_size: c.chunk_size,
                    data: bones_processed(c.data, inside, special, rel, linearize, outside),
                },
            ),
            None => None,
        },
        helper_chunk: match m.helper_chunk {
            Some(c) => Some(
                ListView {
                    chunk_size: c.chunk_size,
                    data: helpers_processed(c.data, inside, special, rel, linearize, outside),
                },
            ),
            None => None,
        },
        ..m
    }
}

/// Where `close` computes `rel`, a model optimized with the verdicts of
/// `close` is the model optimized under `rel`.
pub proof fn lemma_model_decided<F: Fn(u32, u32) -> bool>(
    close: F,
    rel: spec_fn(u32, u32) -> bool,
    before: MDLXModelView,
    after: MDLXModelView,
    linearize: bool,
    outside: bool,
)
    requires
        decides(close, rel),
        forall|x: u32, y: u32| call_requires(close, (x, y)),
        model_optimized_as(close, before, after, linearize, outside),
    ensures
        after == optimized_model(before, rel, linearize, outside),
{
    let sequences = sequences_of(before);
    let inside = |time: u32| in_sequences(time, sequences);
    let special = special_frames(sequences);
    if let Some(b) = before.bone_chunk {
        let a = after.bone_chunk->0;
        let expected = bones_processed(b.data, inside, special, rel, linearize, outside);
        assert forall|i: int| 0 <= i < b.data.len() implies a.data[i] == expected[i] by {
            lemma_node_decided(close, rel, b.data[i].node, a.data[i].node, inside, special, linearize, outside);
        }
        assert(a.data =~= expected);
    }
    if let Some(b) = before.helper_chunk {
        let a = after.helper_chunk->0;
        let expected = helpers_processed(b.data, inside, special, rel, linearize, outside);
        assert forall|i: int| 0 <= i < b.data.len() implies a.data[i] == expected[i] by {
            lemma_node_decided(close, rel, b.data[i].node, a.data[i].node, inside, special, linearize, outside);
        }
        assert(a.data =~= expected);
    }
}

/// The special frames of the sequences, and for each sequence the range of
/// its interval.
pub fn collect_frames(sequences: &Vec<Sequence>) -> (r: (Vec<u32>, Vec<RangeInclusive<u32>>))
    ensures
        r.0@ == special_frames(views(sequences@)),
        r.1@.len() == sequences@.len(),
        forall|k: int|
            0 <= k < sequences@.len() ==> {
                &&& (#[trigger] r.1@[k])@.start == sequences@[k].interval_start
                &&& r.1@[k]@.end == sequences@[k].interval_end
                &&& !r.1@[k]@.exhausted
            },
        forall|time: u32| in_ranges(time, r.1@) == in_sequences(time, views(sequences@)),
{
    let ghost all = views(sequences@);
    let mut special: Vec<u32> = Vec::new();
    let mut ranges: Vec<RangeInclusive<u32>> = Vec::new();
    let mut i: usize = 0;
    proof {
        assert(all.take(0) =~= Seq::<SequenceView>::empty());
    }
    while i < sequences.len()
        invariant
            i <= sequences@.len(),
            all == views(sequences@),
            special@ == special_frames(all.take(i as int)),
            ranges@.len() == i,
            forall|k: int|
                0 <= k < i ==> {
                    &&& (#[trigger] ranges@[k])@.start == all[k].interval_start
                    &&& ranges@[k]@.end == all[k].interval_end
                    &&& !ranges@[k]@.exhausted
                },
        decreases sequences@.len() - i,
    {
        let start = sequences[i].interval_start;
        let end = sequences[i].interval_end;
        special.push(start);
        special.push(end);
        ranges.push(RangeInclusive::new(start, end));
        proof {
            assert(all.take(i + 1).drop_last() =~= all.take(i as int));
        }
        i += 1;
    }
    proof {
        assert(all.take(i as int) =~= all);
        assert forall|time: u32| in_ranges(time, ranges@) == in_sequences(time, all) by {
            if in_ranges(time, ranges@) {
                let k = choose|k: int| 0 <= k < ranges@.len() && covers(#[trigger] ranges@[k], time);
                assert(all[k].interval_start <= time <= all[k].interval_end);
            }
            if in_sequences(time, all) {
                let k = choose|k: int|
                    0 <= k < all.len() && (#[trigger] all[k]).interval_start <= time
                        <= all[k].interval_end;
                assert(covers(ranges@[k], time));
            }
        }
    }
    (special, ranges)
}

/// Runs the optimizer's steps on the node of every bone of a list.
fn optimize_bones<F: Fn(u32, u32) -> bool>(
    bones: &mut Vec<Bone>,
    special: &Vec<u32>,
    ranges: &Vec<RangeInclusive<u32>>,
    Ghost(inside): Ghost<spec_fn(u32) -> bool>,
    close: &F,
    linearize: bool,
    outside: bool,
)
    requires
        forall|a: u32, b: u32| call_requires(*close, (a, b)),
        forall|time: u32| #[trigger] inside(time) == in_ranges(time, ranges@),
        forall|i: int|
            0 <= i < old(bones)@.len() ==> Node::encoding((#[trigger] old(bones)@[i]).node@).len()
                <= u32::MAX,
    ensures
        bones_processed_as(
            *close,
            views(old(bones)@),
            views(final(bones)@),
            inside,
            special@,
            linearize,
            outside,
        ),
{
    let mut i: usize = 0;
    while i < bones.len()
        invariant
            i <= bones@.len() == old(bones)@.len(),
            forall|a: u32, b: u32| call_requires(*close, (a, b)),
            forall|time: u32| #[trigger] inside(time) == in_ranges(time, ranges@),
            forall|j: int| i <= j < bones@.len() ==> #[trigger] bones@[j] == old(bones)@[j],
            forall|j: int|
                0 <= j < old(bones)@.len() ==> Node::encoding((#[trigger] old(bones)@[j]).node@).len()
                    <= u32::MAX,
            forall|j: int|
                0 <= j < i ==> {
                    &&& node_processed_as(
                        *close,
                        old(bones)@[j].node@,
                        (#[trigger] bones@[j]).node@,
                        inside,
                        special@,
                        linearize,
                        outside,
                    )
                    &&& bones@[j].geoset_id == old(bones)@[j].geoset_id
                    &&& bones@[j].geoset_animation_id == old(bones)@[j].geoset_animation_id
                },
        decreases bones@.len() - i,
    {
        optimize_node(&mut bones[i].node, special, ranges, Ghost(inside), close, linearize, outside);
        i += 1;
    }
}

/// Runs the optimizer's steps on the node of every helper of a list.
fn optimize_helpers<F: Fn(u32, u32) -> bool>(
    helpers: &mut Vec<Helper>,
    special: &Vec<u32>,
    ranges: &Vec<RangeInclusive<u32>>,
    Ghost(inside): Ghost<spec_fn(u32) -> bool>,
    close: &F,
    linearize: bool,
    outside: bool,
)
    requires
        forall|a: u32, b: u32| call_requires(*close, (a, b)),
        forall|time: u32| #[trigger] inside(time) == in_ranges(time, ranges@),
        forall|i: int|
            0 <= i < old(helpers)@.len() ==> Node::encoding((#[trigger] old(helpers)@[i]).node@).len()
                <= u32::MAX,
    ensures
        helpers_processed_as(
            *close,
            views(old(helpers)@),
            views(final(helpers)@),
            inside,
            special@,
            linearize,
            outside,
        ),
{
    let mut i: usize = 0;
    while i < helpers.len()
        invariant
            i <= helpers@.len() == old(helpers)@.len(),
            forall|a: u32, b: u32| call_requires(*close, (a, b)),
            forall|time: u32| #[trigger] inside(time) == in_ranges(time, ranges@),
            forall|j: int| i <= j < helpers@.len() ==> #[trigger] helpers@[j] == old(helpers)@[j],
            forall|j: int|
                0 <= j < old(helpers)@.len() ==> Node::encoding(
                    (#[trigger] old(helpers)@[j]).node@,
                ).len() <= u32::MAX,
            forall|j: int|
                0 <= j < i ==> node_processed_as(
                    *close,
                    old(helpers)@[j].node@,
                    (#[trigger] helpers@[j]).node@,
                    inside,
                    special@,
                    linearize,
                    outside,
                ),
        decreases helpers@.len() - i,
    {
        optimize_node(&mut helpers[i].node, special, ranges, Ghost(inside), close, linearize, outside);
        i += 1;
    }
}

/// Whether the encoding of the node of every bone of a list fits a 32-bit
/// size field.
fn bones_fit(bones: &Vec<Bone>) -> (r: bool)
    ensures
        r == forall|i: int|
            0 <= i < bones@.len() ==> Node::encoding((#[trigger] views(bones@)[i]).node).len()
                <= u32::MAX,
{
    let mut i: usize = 0;
    while i < bones.len()
        invariant
            i <= bones@.len(),
            forall|j: int|
                0 <= j < i ==> Node::encoding((#[trigger] views(bones@)[j]).node).len() <= u32::MAX,
        decreases bones@.len() - i,
    {
        let fits = match bones[i].node.total_bytes_size() {
            Some(size) => size <= u32::MAX as usize,
            None => false,
        };
        if !fits {
            assert(Node::encoding(views(bones@)[i as int].node).len() > u32::MAX);
            return false;
        }
        i += 1;
    }
    true
}

/// Whether the encoding of the node of every helper of a list fits a 32-bit
/// size field.
fn helpers_fit(helpers: &Vec<Helper>) -> (r: bool)
    ensures
        r == forall|i: int|
            0 <= i < helpers@.len() ==> Node::encoding((#[trigger] views(helpers@)[i]).node).len()
                <= u32::MAX,
{
    let mut i: usize = 0;
    while i < helpers.len()
        invariant
            i <= helpers@.len(),
            forall|j: int|
                0 <= j < i ==> Node::encoding((#[trigger] views(helpers@)[j]).node).len() <= u32::MAX,
        decreases helpers@.len() - i,
    {
        let fits = match helpers[i].node.total_bytes_size() {
            Some(size) => size <= u32::MAX as usize,
            None => false,
        };
        if !fits {
            assert(Node::encoding(views(helpers@)[i as int].node).len() > u32::MAX);
            return false;
        }
        i += 1;
    }
    true
}

/// Whether the encoding of every node of the model fits a 32-bit size field.
pub fn check_nodes_fit(model: &MDLXModel) -> (r: bool)
    ensures
        r == nodes_fit(model@),
{
    let bones = match &model.bone_chunk {
        Some(chunk) => bones_fit(&chunk.data),
        None => true,
    };
    let helpers = match &model.helper_chunk {
        Some(chunk) => helpers_fit(&chunk.data),
        None => true,
    };
    bones && helpers
}

/// Optimizes the animation of every bone and helper of the model.
///
/// Keyframes outside the intervals of the model's sequences are dropped; a
/// model without sequences has no such interval. Each animated property
/// that is interpolated by curves is turned linear if `linearize` is set,
/// whatever `outside` says. Unless `outside` is set, each animated property
/// then loses its redundant keyframes; `close` tells whether two components
/// of two values count as the same. At last the size field of each node is
/// set anew.
///
/// Fails, leaving the model as it was, if and only if the encoding of a node
/// does not fit a 32-bit size field to begin with.
pub fn optimize_model<F: Fn(u32, u32) -> bool>(
    model: &mut MDLXModel,
    close: F,
    linearize: bool,
    outside: bool,
) -> (r: Result<(), MdlxError>)
    requires
        forall|a: u32, b: u32| call_requires(close, (a, b)),
    ensures
        r is Ok <==> nodes_fit(old(model)@),
        r is Ok ==> model_optimized_as(close, old(model)@, final(model)@, linearize, outside),
        r is Ok ==> forall|rel: spec_fn(u32, u32) -> bool| #[trigger]
            decides(close, rel) ==> final(model)@ == optimized_model(
                old(model)@,
                rel,
                linearize,
                outside,
            ),
        r matches Err(e) ==> e == MdlxError::TooLarge && final(model)@ == old(model)@,
{
    if !check_nodes_fit(model) {
        return Err(MdlxError::TooLarge);
    }
    let ghost before = model@;
    let ghost sequences = sequences_of(before);
    let ghost inside = |time: u32| in_sequences(time, sequences);
    let (special, ranges) = match &model.sequence_chunk {
        Some(chunk) => collect_frames(&chunk.data),
        None => (Vec::new(), Vec::new()),
    };
    assert(special@ == special_frames(sequences));
    assert forall|time: u32| #[trigger] inside(time) == in_ranges(time, ranges@) by {
        if model.sequence_chunk is None {
            assert(!in_ranges(time, ranges@));
            assert(!in_sequences(time, sequences));
        }
    }
    proof {
        if let Some(c) = &model.bone_chunk {
            assert forall|i: int| 0 <= i < c.data@.len() implies Node::encoding(
                (#[trigger] c.data@[i]).node@,
            ).len() <= u32::MAX by {
                assert(views(c.data@)[i].node == c.data@[i].node@);
            }
        }
        if let Some(c) = &model.helper_chunk {
            assert forall|i: int| 0 <= i < c.data@.len() implies Node::encoding(
                (#[trigger] c.data@[i]).node@,
            ).len() <= u32::MAX by {
                assert(views(c.data@)[i].node == c.data@[i].node@);
            }
        }
    }
    match &mut model.bone_chunk {
        Some(chunk) => {
            optimize_bones(&mut chunk.data, &special, &ranges, Ghost(inside), &close, linearize, outside);
        },
        None => {},
    }
    match &mut model.helper_chunk {
        Some(chunk) => {
            optimize_helpers(&mut chunk.data, &special, &ranges, Ghost(inside), &close, linearize, outside);
        },
        None => {},
    }
    proof {
        assert(model_optimized_as(close, before, model@, linearize, outside));
        assert forall|rel: spec_fn(u32, u32) -> bool| #[trigger] decides(close, rel) implies model@
            == optimized_model(before, rel, linearize, outside) by {
            lemma_model_decided(close, rel, before, model@, linearize, outside);
        }
    }
    Ok(())
}

} // verus!
