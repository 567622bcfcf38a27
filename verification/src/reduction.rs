//! What holds of the optimizer's steps, whatever the keyframes and whatever
//! the comparison of values: which keyframes are sure to stay, that a looser
//! comparison never keeps more, that linearizing leaves no tangent behind,
//! and that a second run changes nothing.

use vstd::prelude::*;
use crate::animation::{has_tangents, TrackView, TransformView};
use crate::codec::Codec;
use crate::model::MDLXModelView;
use crate::node::{lemma_node_header_len, Node, NodeView};
use crate::optimizer::{
    channel_processed, in_sequences, lemma_steps_no_longer, model_optimized_as, node_processed,
    nodes_fit, optimized_model, processed, processed_as, sequences_of, special_frames,
};
use crate::primitives::lemma_le32_len;
use crate::sequence::SequenceView;
use crate::traits::{
    decides, in_range, keeps, kept, lemma_optimized_decided, linearized, observed, optimized,
    optimized_as, same_by, stripped, thinned,
};

verus! {

/// The indices below `n` of which `keep` holds, in order.
pub open spec fn kept_indices(keep: spec_fn(int) -> bool, n: nat) -> Seq<int>
    decreases n,
{
    if n == 0 {
        Seq::empty()
    } else {
        let front = kept_indices(keep, (n - 1) as nat);
        if keep(n - 1) {
            front.push(n - 1)
        } else {
            front
        }
    }
}

/// The items that are kept are the items at the kept indices; the kept
/// indices are below `n`, `keep` holds of each, and they grow strictly.
pub proof fn lemma_kept_by_index<T>(items: Seq<T>, keep: spec_fn(int) -> bool, n: nat)
    ensures
        kept(items, keep, n).len() == kept_indices(keep, n).len(),
        kept_indices(keep, n).len() <= n,
        forall|j: int|
            0 <= j < kept_indices(keep, n).len() ==> {
                &&& 0 <= (#[trigger] kept_indices(keep, n)[j]) < n
                &&& keep(kept_indices(keep, n)[j])
                &&& kept(items, keep, n)[j] == items[kept_indices(keep, n)[j]]
            },
        forall|j: int, k: int|
            0 <= j < k < kept_indices(keep, n).len() ==> (#[trigger] kept_indices(keep, n)[j]) < (
            #[trigger] kept_indices(keep, n)[k]),
    decreases n,
{
    if n > 0 {
        lemma_kept_by_index(items, keep, (n - 1) as nat);
    }
}

/// Every index below `n` of which `keep` holds is among the kept indices.
pub proof fn lemma_kept_index_found(keep: spec_fn(int) -> bool, n: nat, i: int) -> (j: int)
    requires
        0 <= i < n,
        keep(i),
    ensures
        0 <= j < kept_indices(keep, n).len(),
        kept_indices(keep, n)[j] == i,
    decreases n,
{
    if i == n - 1 {
        kept_indices(keep, (n - 1) as nat).len() as int
    } else {
        lemma_kept_index_found(keep, (n - 1) as nat, i)
    }
}

/// Two neighbouring indices that are both kept are neighbours among the
/// kept indices too.
pub proof fn lemma_kept_neighbours(keep: spec_fn(int) -> bool, n: nat, i: int) -> (j: int)
    requires
        0 <= i,
        i + 1 < n,
        keep(i),
        keep(i + 1),
    ensures
        0 <= j,
        j + 1 < kept_indices(keep, n).len(),
        kept_indices(keep, n)[j] == i,
        kept_indices(keep, n)[j + 1] == i + 1,
{
    let j = lemma_kept_index_found(keep, n, i);
    let k = lemma_kept_index_found(keep, n, i + 1);
    lemma_kept_by_index(Seq::<int>::empty(), keep, n);
    let idx = kept_indices(keep, n);
    if k <= j {
        if k < j {
            assert(idx[k] < idx[j]);
        }
    } else if k > j + 1 {
        assert(idx[j] < idx[j + 1]);
        assert(idx[j + 1] < idx[k]);
    }
    j
}

/// Where `keep` holds of every index below `n`, all of the first `n` items
/// are kept.
pub proof fn lemma_kept_all<T>(items: Seq<T>, keep: spec_fn(int) -> bool, n: nat)
    requires
        n <= items.len(),
        forall|i: int| 0 <= i < n ==> #[trigger] keep(i),
    ensures
        kept(items, keep, n) == items.take(n as int),
    decreases n,
{
    if n > 0 {
        lemma_kept_all(items, keep, (n - 1) as nat);
        assert(items.take(n as int) =~= items.take(n - 1).push(items[n - 1]));
    } else {
        assert(items.take(0) =~= Seq::<T>::empty());
    }
}

/// Where `fewer` holds of no index of which `more` does not hold, `fewer`
/// keeps no more items than `more`.
pub proof fn lemma_kept_fewer<T>(
    items: Seq<T>,
    fewer: spec_fn(int) -> bool,
    more: spec_fn(int) -> bool,
    n: nat,
)
    requires
        forall|i: int| 0 <= i < n && #[trigger] fewer(i) ==> more(i),
    ensures
        kept(items, fewer, n).len() <= kept(items, more, n).len(),
    decreases n,
{
    if n > 0 {
        lemma_kept_fewer(items, fewer, more, (n - 1) as nat);
    }
}

/// An item at an index of which `keep` holds is among the kept items.
pub proof fn lemma_kept_contains<T>(items: Seq<T>, keep: spec_fn(int) -> bool, n: nat, i: int)
    requires
        0 <= i < n,
        keep(i),
    ensures
        kept(items, keep, n).contains(items[i]),
{
    let j = lemma_kept_index_found(keep, n, i);
    lemma_kept_by_index(items, keep, n);
    assert(kept(items, keep, n)[j] == items[i]);
}

/// Where `keep` holds of the first and of the last index, the first and the
/// last item are the first and the last of the kept items.
pub proof fn lemma_kept_ends<T>(items: Seq<T>, keep: spec_fn(int) -> bool, n: nat)
    requires
        0 < n,
        keep(0),
        keep(n - 1),
    ensures
        kept(items, keep, n).len() >= 1,
        n >= 2 ==> kept(items, keep, n).len() >= 2,
        kept(items, keep, n).first() == items[0],
        kept(items, keep, n).last() == items[n - 1],
        kept_indices(keep, n).first() == 0,
        kept_indices(keep, n).last() == n - 1,
{
    lemma_kept_by_index(items, keep, n);
    let j = lemma_kept_index_found(keep, n, 0);
    let idx = kept_indices(keep, n);
    if j > 0 {
        assert(idx[0] < idx[j]);
    }
    if n >= 2 {
        assert(idx.len() - 1 != 0);
    }
}

/// The start and the end of the interval of every sequence are special frames.
pub proof fn lemma_special_frames_hold(sequences: Seq<SequenceView>, k: int)
    requires
        0 <= k < sequences.len(),
    ensures
        special_frames(sequences).contains(sequences[k].interval_start),
        special_frames(sequences).contains(sequences[k].interval_end),
    decreases sequences.len(),
{
    let all = special_frames(sequences);
    let front = special_frames(sequences.drop_last());
    if k == sequences.len() - 1 {
        assert(all[all.len() - 2] == sequences[k].interval_start);
        assert(all[all.len() - 1] == sequences[k].interval_end);
    } else {
        lemma_special_frames_hold(sequences.drop_last(), k);
        let a = choose|a: int| 0 <= a < front.len() && front[a] == sequences[k].interval_start;
        let b = choose|b: int| 0 <= b < front.len() && front[b] == sequences[k].interval_end;
        assert(all[a] == sequences[k].interval_start);
        assert(all[b] == sequences[k].interval_end);
    }
}

/// Boundary tracks stay: of an animated property with two tracks or more,
/// the first and the last track are the first and the last track after
/// redundant tracks are dropped, whatever the verdicts on the values are.
pub proof fn boundary_tracks_stay(v: TransformView, special: Seq<u32>, same: Seq<bool>)
    requires
        v.data.len() >= 2,
    ensures
        thinned(v, special, same).data.len() >= 2,
        thinned(v, special, same).data.first() == v.data.first(),
        thinned(v, special, same).data.last() == v.data.last(),
{
    if v.data.len() > 2 {
        lemma_kept_ends(v.data, |i: int| keeps(v.data, special, same, i), v.data.len());
    }
}

/// Tracks at special frames stay: a track whose time is the start or the end
/// of the interval of a sequence is still there after redundant tracks are
/// dropped, whatever the verdicts on the values are.
pub proof fn special_tracks_stay(
    v: TransformView,
    sequences: Seq<SequenceView>,
    same: Seq<bool>,
    i: int,
    k: int,
)
    requires
        0 <= i < v.data.len(),
        0 <= k < sequences.len(),
        v.data[i].time == sequences[k].interval_start || v.data[i].time == sequences[k].interval_end,
    ensures
        thinned(v, special_frames(sequences), same).data.contains(v.data[i]),
{
    lemma_special_frames_hold(sequences, k);
    let special = special_frames(sequences);
    if v.data.len() > 2 {
        lemma_kept_contains(v.data, |i: int| keeps(v.data, special, same, i), v.data.len(), i);
    } else {
        assert(v.data[i] == v.data[i]);
    }
}

/// `at` tells where in `whole` each item of `part` comes from: at places
/// that grow strictly.
pub open spec fn places<T>(part: Seq<T>, whole: Seq<T>, at: Seq<int>) -> bool {
    &&& at.len() == part.len()
    &&& forall|j: int|
        0 <= j < at.len() ==> 0 <= #[trigger] at[j] < whole.len() && part[j] == whole[at[j]]
    &&& forall|j: int, k: int| 0 <= j < k < at.len() ==> #[trigger] at[j] < #[trigger] at[k]
}

/// `part` is `whole` without some of its items: the items of `part` are
/// items of `whole`, in the order in which they stand there.
pub open spec fn is_part_of<T>(part: Seq<T>, whole: Seq<T>) -> bool {
    exists|at: Seq<int>| places(part, whole, at)
}

/// Every sequence is a part of itself.
pub proof fn lemma_part_of_itself<T>(items: Seq<T>)
    ensures
        is_part_of(items, items),
{
    let at = Seq::new(items.len(), |j: int| j);
    assert(places(items, items, at));
}

/// Where `fewer` holds of no index of which `more` does not hold, what
/// `fewer` keeps is a part of what `more` keeps.
pub proof fn lemma_kept_part<T>(
    items: Seq<T>,
    fewer: spec_fn(int) -> bool,
    more: spec_fn(int) -> bool,
    n: nat,
) -> (at: Seq<int>)
    requires
        forall|i: int| 0 <= i < n && #[trigger] fewer(i) ==> more(i),
    ensures
        places(kept(items, fewer, n), kept(items, more, n), at),
    decreases n,
{
    if n == 0 {
        Seq::empty()
    } else {
        let before = lemma_kept_part(items, fewer, more, (n - 1) as nat);
        let whole = kept(items, more, (n - 1) as nat);
        if fewer(n - 1) {
            assert(more(n - 1));
            let at = before.push(whole.len() as int);
            assert(places(kept(items, fewer, n), kept(items, more, n), at));
            at
        } else {
            assert(places(kept(items, fewer, n), kept(items, more, n), before));
            before
        }
    }
}

/// A looser comparison keeps no more: where every pair of components that
/// is the same under `tight` is the same under `loose`, as is the case when
/// a threshold grows, the tracks that are left by optimizing under `loose`
/// are a part of those that are left by optimizing under `tight`: a track
/// that stays under the looser comparison stays under the tighter. So there
/// are no more of them, and the track count is no larger, as long as the
/// number of tracks fits the count's 32 bits.
pub proof fn looser_comparison_keeps_no_more(
    v: TransformView,
    special: Seq<u32>,
    tight: spec_fn(u32, u32) -> bool,
    loose: spec_fn(u32, u32) -> bool,
    linearize: bool,
)
    requires
        forall|a: u32, b: u32| #[trigger] tight(a, b) ==> loose(a, b),
    ensures
        is_part_of(
            optimized(v, special, loose, linearize).data,
            optimized(v, special, tight, linearize).data,
        ),
        optimized(v, special, loose, linearize).data.len() <= optimized(
            v,
            special,
            tight,
            linearize,
        ).data.len(),
        v.data.len() <= u32::MAX ==> optimized(v, special, loose, linearize).number_of_tracks
            <= optimized(v, special, tight, linearize).number_of_tracks,
{
    let linear = linearized(v, linearize);
    let tracks = linear.data;
    if tracks.len() > 2 {
        let by_tight = same_by(tracks, tight);
        let by_loose = same_by(tracks, loose);
        assert forall|i: int| 0 <= i < by_tight.len() && by_tight[i] implies by_loose[i] by {
            let a = tracks[i].value;
            let b = tracks[i + 1].value;
            assert forall|c: int| 0 <= c < a.len() && c < b.len() implies loose(#[trigger] a[c], b[c]) by {
                assert(tight(a[c], b[c]));
            }
        }
        let fewer = |i: int| keeps(tracks, special, by_loose, i);
        let more = |i: int| keeps(tracks, special, by_tight, i);
        assert forall|i: int| 0 <= i < tracks.len() && #[trigger] fewer(i) implies more(i) by {
            if 0 < i < tracks.len() - 1 {
                if !by_loose[i - 1] {
                    assert(!by_tight[i - 1]);
                }
                if !by_loose[i] {
                    assert(!by_tight[i]);
                }
            }
        }
        lemma_kept_fewer(tracks, fewer, more, tracks.len());
        let at = lemma_kept_part(tracks, fewer, more, tracks.len());
        lemma_kept_by_index(tracks, more, tracks.len());
    } else {
        lemma_part_of_itself(tracks);
    }
}

/// A looser comparison keeps no more, said of two runs of
/// `OptimizeFrames::optimize` on the same property: where the function of
/// the one run computes `tight`, that of the other computes `loose`, and
/// every pair of components that is the same under `tight` is the same under
/// `loose`, what the second run leaves is a part of what the first leaves.
pub proof fn looser_function_keeps_no_more<F: Fn(u32, u32) -> bool, G: Fn(u32, u32) -> bool>(
    close_tight: F,
    close_loose: G,
    tight: spec_fn(u32, u32) -> bool,
    loose: spec_fn(u32, u32) -> bool,
    v: TransformView,
    under_tight: TransformView,
    under_loose: TransformView,
    special: Seq<u32>,
    linearize: bool,
)
    requires
        forall|a: u32, b: u32| call_requires(close_tight, (a, b)),
        forall|a: u32, b: u32| call_requires(close_loose, (a, b)),
        decides(close_tight, tight),
        decides(close_loose, loose),
        forall|a: u32, b: u32| #[trigger] tight(a, b) ==> loose(a, b),
        optimized_as(close_tight, v, under_tight, special, linearize),
        optimized_as(close_loose, v, under_loose, special, linearize),
    ensures
        is_part_of(under_loose.data, under_tight.data),
        under_loose.data.len() <= under_tight.data.len(),
        v.data.len() <= u32::MAX ==> under_loose.number_of_tracks <= under_tight.number_of_tracks,
{
    lemma_optimized_decided(close_tight, tight, v, under_tight, special, linearize);
    lemma_optimized_decided(close_loose, loose, v, under_loose, special, linearize);
    looser_comparison_keeps_no_more(v, special, tight, loose, linearize);
}

/// The same for all of the optimizer's steps on one animated property:
/// under a looser comparison they leave no more tracks.
pub proof fn looser_comparison_leaves_no_more(
    v: TransformView,
    inside: spec_fn(u32) -> bool,
    special: Seq<u32>,
    tight: spec_fn(u32, u32) -> bool,
    loose: spec_fn(u32, u32) -> bool,
    linearize: bool,
    outside: bool,
)
    requires
        forall|a: u32, b: u32| #[trigger] tight(a, b) ==> loose(a, b),
    ensures
        processed(v, inside, special, loose, linearize, outside).data.len() <= processed(
            v,
            inside,
            special,
            tight,
            linearize,
            outside,
        ).data.len(),
{
    if !outside {
        looser_comparison_keeps_no_more(in_range(v, inside), special, tight, loose, linearize);
    }
}

/// Every kept item is one of the items.
pub proof fn lemma_kept_from<T>(items: Seq<T>, keep: spec_fn(int) -> bool, n: nat, j: int) -> (i: int)
    requires
        0 <= j < kept(items, keep, n).len(),
    ensures
        0 <= i < n,
        keep(i),
        kept(items, keep, n)[j] == items[i],
{
    lemma_kept_by_index(items, keep, n);
    kept_indices(keep, n)[j]
}

/// Linearizing strips tangents: after an animated property that is
/// interpolated by curves has been optimized with `linearize` set, its
/// interpolation type is 1 and none of its tracks has a tangent, whatever
/// the verdicts on the values are.
pub proof fn linearizing_strips_tangents(v: TransformView, special: Seq<u32>, same: Seq<bool>)
    requires
        has_tangents(v.interpolation_type),
    ensures
        thinned(linearized(v, true), special, same).interpolation_type == 1,
        forall|j: int|
            0 <= j < thinned(linearized(v, true), special, same).data.len() ==> {
                &&& (#[trigger] thinned(linearized(v, true), special, same).data[j]).in_tan is None
                &&& thinned(linearized(v, true), special, same).data[j].out_tan is None
            },
{
    let linear = linearized(v, true);
    let after = thinned(linear, special, same);
    assert forall|j: int| 0 <= j < after.data.len() implies (#[trigger] after.data[j]).in_tan is None
        && after.data[j].out_tan is None by {
        if linear.data.len() > 2 {
            let i = lemma_kept_from(
                linear.data,
                |i: int| keeps(linear.data, special, same, i),
                linear.data.len(),
                j,
            );
            assert(after.data[j] == stripped(v.data[i]));
        } else {
            assert(after.data[j] == stripped(v.data[j]));
        }
    }
}

/// `after` is as linear as `linearize` asks for, given `before`: if `before`
/// is interpolated by curves and `linearize` is set, the interpolation type
/// of `after` is 1 and none of its tracks has a tangent; otherwise its
/// interpolation type is that of `before`.
pub open spec fn linear_after(before: TransformView, after: TransformView, linearize: bool) -> bool {
    if linearize && has_tangents(before.interpolation_type) {
        &&& after.interpolation_type == 1
        &&& forall|j: int|
            0 <= j < after.data.len() ==> (#[trigger] after.data[j]).in_tan is None
                && after.data[j].out_tan is None
    } else {
        after.interpolation_type == before.interpolation_type
    }
}

/// The same of an optional animated property, which is absent after if it
/// was absent before.
pub open spec fn channel_linear_after(
    before: Option<TransformView>,
    after: Option<TransformView>,
    linearize: bool,
) -> bool {
    match before {
        Some(b) => after matches Some(a) && linear_after(b, a, linearize),
        None => after is None,
    }
}

/// The same of the three animated properties of a node.
pub open spec fn node_linear_after(before: NodeView, after: NodeView, linearize: bool) -> bool {
    &&& channel_linear_after(before.translation, after.translation, linearize)
    &&& channel_linear_after(before.rotation, after.rotation, linearize)
    &&& channel_linear_after(before.scaling, after.scaling, linearize)
}

/// Linearizing depends on nothing but the request and the interpolation
/// type: after the optimizer's steps on an animated property, whatever
/// `outside` says and whatever the verdicts on the values are, a property
/// that was interpolated by curves is linear and without tangents if
/// `linearize` is set, and every other property has the interpolation type
/// it had.
pub proof fn processing_linearizes<F: Fn(u32, u32) -> bool>(
    close: F,
    before: TransformView,
    after: TransformView,
    inside: spec_fn(u32) -> bool,
    special: Seq<u32>,
    linearize: bool,
    outside: bool,
)
    requires
        processed_as(close, before, after, inside, special, linearize, outside),
    ensures
        linear_after(before, after, linearize),
{
    let filtered = in_range(before, inside);
    let linear = linearized(filtered, linearize);
    if outside {
        if linearize && has_tangents(before.interpolation_type) {
            assert forall|j: int| 0 <= j < after.data.len() implies (#[trigger] after.data[j]).in_tan
                is None && after.data[j].out_tan is None by {
                assert(after.data[j] == stripped(filtered.data[j]));
            }
        }
    } else {
        let same = choose|same: Seq<bool>|
            #![trigger observed(close, linearized(filtered, linearize).data, same)]
            observed(close, linearized(filtered, linearize).data, same) && after == thinned(
                linearized(filtered, linearize),
                special,
                same,
            );
        if linearize && has_tangents(before.interpolation_type) {
            linearizing_strips_tangents(filtered, special, same);
        }
    }
}

/// Linearizing depends on nothing but the request and the interpolation
/// type, said of a whole model: after `optimize_model`, whatever `outside`
/// says, every animated property of every bone and helper that was
/// interpolated by curves is linear and without tangents if `linearize` is
/// set, and every other has the interpolation type it had.
pub proof fn optimizing_linearizes<F: Fn(u32, u32) -> bool>(
    close: F,
    before: MDLXModelView,
    after: MDLXModelView,
    linearize: bool,
    outside: bool,
)
    requires
        model_optimized_as(close, before, after, linearize, outside),
    ensures
        before.bone_chunk matches Some(b) ==> after.bone_chunk matches Some(a) && a.data.len()
            == b.data.len() && forall|i: int|
            0 <= i < b.data.len() ==> node_linear_after(
                b.data[i].node,
                (#[trigger] a.data[i]).node,
                linearize,
            ),
        before.helper_chunk matches Some(b) ==> after.helper_chunk matches Some(a) && a.data.len()
            == b.data.len() && forall|i: int|
            0 <= i < b.data.len() ==> node_linear_after(
                b.data[i].node,
                (#[trigger] a.data[i]).node,
                linearize,
            ),
{
    let sequences = sequences_of(before);
    let inside = |time: u32| in_sequences(time, sequences);
    let special = special_frames(sequences);
    if let Some(b) = before.bone_chunk {
        let a = after.bone_chunk->0;
        assert forall|i: int| 0 <= i < b.data.len() implies node_linear_after(
            b.data[i].node,
            (#[trigger] a.data[i]).node,
            linearize,
        ) by {
            lemma_node_linearized(close, b.data[i].node, a.data[i].node, inside, special, linearize, outside);
        }
    }
    if let Some(b) = before.helper_chunk {
        let a = after.helper_chunk->0;
        assert forall|i: int| 0 <= i < b.data.len() implies node_linear_after(
            b.data[i].node,
            (#[trigger] a.data[i]).node,
            linearize,
        ) by {
            lemma_node_linearized(close, b.data[i].node, a.data[i].node, inside, special, linearize, outside);
        }
    }
}

/// The same of one node.
pub proof fn lemma_node_linearized<F: Fn(u32, u32) -> bool>(
    close: F,
    before: NodeView,
    after: NodeView,
    inside: spec_fn(u32) -> bool,
    special: Seq<u32>,
    linearize: bool,
    outside: bool,
)
    requires
        crate::optimizer::node_processed_as(close, before, after, inside, special, linearize, outside),
    ensures
        node_linear_after(before, after, linearize),
{
    if let Some(b) = before.translation {
        processing_linearizes(close, b, after.translation->0, inside, special, linearize, outside);
    }
    if let Some(b) = before.rotation {
        processing_linearizes(close, b, after.rotation->0, inside, special, linearize, outside);
    }
    if let Some(b) = before.scaling {
        processing_linearizes(close, b, after.scaling->0, inside, special, linearize, outside);
    }
}

/// The tracks of the property are those that the optimizer's steps leave
/// alone when they look at the time: every track's time is one of which
/// `inside` holds, and the track count is the number of tracks if there are
/// any.
pub open spec fn settled(v: TransformView, inside: spec_fn(u32) -> bool) -> bool {
    &&& forall|j: int| 0 <= j < v.data.len() ==> inside((#[trigger] v.data[j]).time)
    &&& v.data.len() > 0 ==> v.number_of_tracks == v.data.len() as u32
}

/// Dropping tracks by their time leaves a settled property.
pub proof fn lemma_in_range_settles(v: TransformView, inside: spec_fn(u32) -> bool)
    ensures
        settled(in_range(v, inside), inside),
{
    let after = in_range(v, inside);
    assert forall|j: int| 0 <= j < after.data.len() implies inside((#[trigger] after.data[j]).time) by {
        lemma_kept_from(v.data, |i: int| inside(v.data[i].time), v.data.len(), j);
    }
}

/// Dropping tracks by their time changes nothing of a settled property.
pub proof fn lemma_settled_in_range(v: TransformView, inside: spec_fn(u32) -> bool)
    requires
        settled(v, inside),
    ensures
        in_range(v, inside) == v,
{
    if v.data.len() > 0 {
        lemma_kept_all(v.data, |i: int| inside(v.data[i].time), v.data.len());
        assert(v.data.take(v.data.len() as int) =~= v.data);
    }
}

/// Linearizing and dropping redundant tracks leave a settled property settled.
pub proof fn lemma_settled_stays(
    v: TransformView,
    inside: spec_fn(u32) -> bool,
    special: Seq<u32>,
    same: Seq<bool>,
    linearize: bool,
)
    requires
        settled(v, inside),
    ensures
        settled(linearized(v, linearize), inside),
        settled(thinned(linearized(v, linearize), special, same), inside),
{
    let linear = linearized(v, linearize);
    let after = thinned(linear, special, same);
    assert forall|j: int| 0 <= j < linear.data.len() implies inside((#[trigger] linear.data[j]).time) by {
        assert(inside(v.data[j].time));
    }
    assert forall|j: int| 0 <= j < after.data.len() implies inside((#[trigger] after.data[j]).time) by {
        if linear.data.len() > 2 {
            let i = lemma_kept_from(
                linear.data,
                |i: int| keeps(linear.data, special, same, i),
                linear.data.len(),
                j,
            );
            assert(inside(linear.data[i].time));
        }
    }
}

/// Dropping redundant tracks a second time, under the same comparison,
/// drops nothing.
pub proof fn lemma_thinned_twice(v: TransformView, special: Seq<u32>, rel: spec_fn(u32, u32) -> bool)
    ensures
        ({
            let once = thinned(v, special, same_by(v.data, rel));
            thinned(once, special, same_by(once.data, rel)) == once
        }),
{
    let tracks = v.data;
    let n = tracks.len();
    if n > 2 {
        let same = same_by(tracks, rel);
        let keep = |i: int| keeps(tracks, special, same, i);
        let r = kept(tracks, keep, n);
        let idx = kept_indices(keep, n);
        lemma_kept_by_index(tracks, keep, n);
        lemma_kept_ends(tracks, keep, n);
        let m = r.len() as int;
        if m > 2 {
            let again = same_by(r, rel);
            let keep_again = |j: int| keeps(r, special, again, j);
            assert forall|j: int| 0 <= j < m implies #[trigger] keep_again(j) by {
                if 0 < j < m - 1 {
                    let i = idx[j];
                    assert(idx[0] < idx[j]);
                    assert(idx[j] < idx[m - 1]);
                    assert(keep(i));
                    assert(r[j] == tracks[i]);
                    if special.contains(tracks[i].time) {
                    } else if !same[i - 1] {
                        assert(keep(i - 1));
                        let p = lemma_kept_neighbours(keep, n, i - 1);
                        if p + 1 < j {
                            assert(idx[p + 1] < idx[j]);
                        } else if p + 1 > j {
                            assert(idx[j] < idx[p + 1]);
                        }
                        assert(r[j - 1] == tracks[i - 1]);
                        assert(again[j - 1] == same[i - 1]);
                    } else {
                        assert(!same[i]);
                        assert(keep(i + 1));
                        let p = lemma_kept_neighbours(keep, n, i);
                        if p < j {
                            assert(idx[p] < idx[j]);
                        } else if p > j {
                            assert(idx[j] < idx[p]);
                        }
                        assert(r[j + 1] == tracks[i + 1]);
                        assert(again[j] == same[i]);
                    }
                }
            }
            lemma_kept_all(r, keep_again, m as nat);
            assert(r.take(m) =~= r);
        }
    }
}

/// Optimizing twice is optimizing once, for one animated property: the
/// optimizer's steps, run again with the same intervals, special frames,
/// comparison and switches, change nothing of what they left.
pub proof fn processing_twice_is_processing_once(
    v: TransformView,
    inside: spec_fn(u32) -> bool,
    special: Seq<u32>,
    rel: spec_fn(u32, u32) -> bool,
    linearize: bool,
    outside: bool,
)
    ensures
        ({
            let once = processed(v, inside, special, rel, linearize, outside);
            processed(once, inside, special, rel, linearize, outside) == once
        }),
{
    let filtered = in_range(v, inside);
    lemma_in_range_settles(v, inside);
    if outside {
        let once = linearized(filtered, linearize);
        lemma_settled_stays(filtered, inside, special, Seq::empty(), linearize);
        lemma_settled_in_range(once, inside);
        assert(linearized(once, linearize) == once);
    } else {
        let linear = linearized(filtered, linearize);
        let once = thinned(linear, special, same_by(linear.data, rel));
        lemma_settled_stays(filtered, inside, special, same_by(linear.data, rel), linearize);
        lemma_settled_in_range(once, inside);
        assert(linearized(once, linearize) == once);
        lemma_thinned_twice(linear, special, rel);
    }
}

/// Optimizing twice is optimizing once, for one node.
pub proof fn lemma_node_processed_twice(
    v: NodeView,
    inside: spec_fn(u32) -> bool,
    special: Seq<u32>,
    rel: spec_fn(u32, u32) -> bool,
    linearize: bool,
    outside: bool,
)
    ensures
        ({
            let once = node_processed(v, inside, special, rel, linearize, outside);
            node_processed(once, inside, special, rel, linearize, outside) == once
        }),
{
    if let Some(t) = v.translation {
        processing_twice_is_processing_once(t, inside, special, rel, linearize, outside);
    }
    if let Some(t) = v.rotation {
        processing_twice_is_processing_once(t, inside, special, rel, linearize, outside);
    }
    if let Some(t) = v.scaling {
        processing_twice_is_processing_once(t, inside, special, rel, linearize, outside);
    }
    let shaped = NodeView {
        translation: channel_processed(v.translation, inside, special, rel, linearize, outside),
        rotation: channel_processed(v.rotation, inside, special, rel, linearize, outside),
        scaling: channel_processed(v.scaling, inside, special, rel, linearize, outside),
        ..v
    };
    let once = node_processed(v, inside, special, rel, linearize, outside);
    lemma_node_header_len(shaped);
    lemma_node_header_len(once);
}

/// The optimizer's steps make the encoding of a node no longer.
pub proof fn lemma_node_processed_no_longer(
    v: NodeView,
    inside: spec_fn(u32) -> bool,
    special: Seq<u32>,
    rel: spec_fn(u32, u32) -> bool,
    linearize: bool,
    outside: bool,
)
    ensures
        Node::encoding(node_processed(v, inside, special, rel, linearize, outside)).len()
            <= Node::encoding(v).len(),
{
    let once = node_processed(v, inside, special, rel, linearize, outside);
    lemma_node_header_len(v);
    lemma_node_header_len(once);
    let tags = crate::node::node_tags();
    lemma_le32_len(tags.translation);
    lemma_le32_len(tags.rotation);
    lemma_le32_len(tags.scaling);
    if let Some(t) = v.translation {
        let linear = linearized(in_range(t, inside), linearize);
        lemma_steps_no_longer(t, inside, special, same_by(linear.data, rel), linearize);
    }
    if let Some(t) = v.rotation {
        let linear = linearized(in_range(t, inside), linearize);
        lemma_steps_no_longer(t, inside, special, same_by(linear.data, rel), linearize);
    }
    if let Some(t) = v.scaling {
        let linear = linearized(in_range(t, inside), linearize);
        lemma_steps_no_longer(t, inside, special, same_by(linear.data, rel), linearize);
    }
}

/// Optimizing twice is optimizing once: a model that has been optimized can
/// be optimized again, and optimizing it again with the same comparison and
/// switches changes nothing.
pub proof fn optimizing_twice_is_optimizing_once(
    m: MDLXModelView,
    rel: spec_fn(u32, u32) -> bool,
    linearize: bool,
    outside: bool,
)
    requires
        nodes_fit(m),
    ensures
        nodes_fit(optimized_model(m, rel, linearize, outside)),
        optimized_model(optimized_model(m, rel, linearize, outside), rel, linearize, outside)
            == optimized_model(m, rel, linearize, outside),
{
    let once = optimized_model(m, rel, linearize, outside);
    let twice = optimized_model(once, rel, linearize, outside);
    let sequences = sequences_of(m);
    assert(sequences_of(once) == sequences);
    let inside = |time: u32| in_sequences(time, sequences);
    let special = special_frames(sequences);
    if let Some(c) = m.bone_chunk {
        let a = once.bone_chunk->0;
        let b = twice.bone_chunk->0;
        assert forall|i: int| 0 <= i < a.data.len() implies Node::encoding(
            (#[trigger] a.data[i]).node,
        ).len() <= u32::MAX && b.data[i] == a.data[i] by {
            lemma_node_processed_no_longer(c.data[i].node, inside, special, rel, linearize, outside);
            lemma_node_processed_twice(c.data[i].node, inside, special, rel, linearize, outside);
        }
        assert(b.data =~= a.data);
    }
    if let Some(c) = m.helper_chunk {
        let a = once.helper_chunk->0;
        let b = twice.helper_chunk->0;
        assert forall|i: int| 0 <= i < a.data.len() implies Node::encoding(
            (#[trigger] a.data[i]).node,
        ).len() <= u32::MAX && b.data[i] == a.data[i] by {
            lemma_node_processed_no_longer(c.data[i].node, inside, special, rel, linearize, outside);
            lemma_node_processed_twice(c.data[i].node, inside, special, rel, linearize, outside);
        }
        assert(b.data =~= a.data);
    }
}

} // verus!
