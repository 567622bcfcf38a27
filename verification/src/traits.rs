//! The three steps that thin out the keyframes of one animated property:
//! comparing the values of two keyframes, dropping the keyframes outside the
//! animation sequences, and dropping the keyframes that say nothing new.
//!
//! The values of keyframes are floating-point bit patterns, and this crate
//! does no floating-point arithmetic. Whether two components are close to
//! each other is therefore asked of the caller, through a function from two
//! bit patterns to `bool`. Everything that is decided from its answers is
//! decided here.

use vstd::prelude::*;
use std::ops::RangeInclusive;
use crate::animation::{has_tangents, Track, TrackView, Transform, TransformView};
use crate::codec::views;

verus! {

/// Among the first `n` items, those whose index `keep` holds of, in order.
pub open spec fn kept<T>(items: Seq<T>, keep: spec_fn(int) -> bool, n: nat) -> Seq<T>
    decreases n,
{
    if n == 0 {
        Seq::empty()
    } else {
        let front = kept(items, keep, (n - 1) as nat);
        if keep(n - 1) {
            front.push(items[n - 1])
        } else {
            front
        }
    }
}

/// `time` lies in `range`: between its start and its end, both included. A
/// range that has been run through as an iterator no longer holds its end.
pub open spec fn covers(range: RangeInclusive<u32>, time: u32) -> bool {
    range@.start <= time && if range@.exhausted {
        time < range@.end
    } else {
        time <= range@.end
    }
}

/// `time` lies in at least one of `ranges`.
pub open spec fn in_ranges(time: u32, ranges: Seq<RangeInclusive<u32>>) -> bool {
    exists|k: int| 0 <= k < ranges.len() && covers(#[trigger] ranges[k], time)
}

/// The tracks of whose time `inside` holds, in order.
pub open spec fn range_filtered(tracks: Seq<TrackView>, inside: spec_fn(u32) -> bool) -> Seq<TrackView> {
    kept(tracks, |i: int| inside(tracks[i].time), tracks.len())
}

/// An animated property without the tracks of whose time `inside` does not
/// hold, and with its track count set accordingly. A property without tracks
/// stays as it is.
pub open spec fn in_range(v: TransformView, inside: spec_fn(u32) -> bool) -> TransformView {
    if v.data.len() == 0 {
        v
    } else {
        let data = range_filtered(v.data, inside);
        TransformView { number_of_tracks: data.len() as u32, data, ..v }
    }
}

/// What is kept depends only on what `keep` says of the indices below `n`.
pub proof fn lemma_kept_agree<T>(items: Seq<T>, keep: spec_fn(int) -> bool, other: spec_fn(int) -> bool, n: nat)
    requires
        forall|i: int| 0 <= i < n ==> #[trigger] keep(i) == other(i),
    ensures
        kept(items, keep, n) == kept(items, other, n),
    decreases n,
{
    if n > 0 {
        lemma_kept_agree(items, keep, other, (n - 1) as nat);
    }
}

/// Whether `time` lies in at least one of `ranges`.
pub fn frame_in_ranges(time: u32, ranges: &Vec<RangeInclusive<u32>>) -> (r: bool)
    ensures
        r == in_ranges(time, ranges@),
{
    let mut k: usize = 0;
    while k < ranges.len()
        invariant
            k <= ranges@.len(),
            forall|j: int| 0 <= j < k ==> !covers(#[trigger] ranges@[j], time),
        decreases ranges@.len() - k,
    {
        if ranges[k].contains(&time) {
            return true;
        }
        k += 1;
    }
    false
}

/// Whether `frames` holds `time`.
pub fn frame_is_special(time: u32, frames: &Vec<u32>) -> (r: bool)
    ensures
        r == frames@.contains(time),
{
    let mut k: usize = 0;
    while k < frames.len()
        invariant
            k <= frames@.len(),
            forall|j: int| 0 <= j < k ==> frames@[j] != time,
        decreases frames@.len() - k,
    {
        if frames[k] == time {
            return true;
        }
        k += 1;
    }
    false
}

/// Dropping the keyframes whose time lies outside given ranges.
pub trait InRangeFrames: View<V = TransformView> + Sized {
    /// Drops the keyframes whose time lies in none of `anim_frame_ranges`,
    /// and sets the track count accordingly.
    fn in_range_frames(&mut self, anim_frame_ranges: &Vec<RangeInclusive<u32>>)
        ensures
            final(self)@ == in_range(old(self)@, |time: u32| in_ranges(time, anim_frame_ranges@)),
    ;
}

impl<const N: usize> InRangeFrames for Transform<N> {
    fn in_range_frames(&mut self, anim_frame_ranges: &Vec<RangeInclusive<u32>>) {
        if self.data.len() == 0 {
            return ;
        }
        let ghost before = views(self.data@);
        let ghost inside = |time: u32| in_ranges(time, anim_frame_ranges@);
        let ghost keep = |i: int| inside(before[i].time);
        let mut result: Vec<Track<N>> = Vec::new();
        let mut i: usize = 0;
        while i < self.data.len()
            invariant
                i <= self.data@.len(),
                before == views(self.data@),
                inside == |time: u32| in_ranges(time, anim_frame_ranges@),
                keep == |i: int| inside(before[i].time),
                views(result@) == kept(before, keep, i as nat),
            decreases self.data@.len() - i,
        {
            let track = self.data[i];
            if frame_in_ranges(track.time, anim_frame_ranges) {
                result.push(track);
                assert(views(result@) =~= kept(before, keep, i as nat).push(before[i as int]));
            }
            i += 1;
        }
        self.number_of_tracks = #[verifier::truncate] (result.len() as u32);
        self.data = result;
    }
}

/// `close` can have returned `true` for each of the first `n` pairs of
/// components of `a` and `b`.
pub open spec fn close_up_to<F: Fn(u32, u32) -> bool>(close: F, a: Seq<u32>, b: Seq<u32>, n: int) -> bool {
    forall|i: int| 0 <= i < n ==> call_ensures(close, (#[trigger] a[i], b[i]), true)
}

/// What the calls of `close`, one for each pair of components of `a` and
/// `b` until the verdict stood, can have returned when the verdict is
/// `same`: `true` for every pair if the values are the same; if they are
/// not, `true` for the pairs before some pair and `false` for that pair.
pub open spec fn values_outcome<F: Fn(u32, u32) -> bool>(
    close: F,
    a: Seq<u32>,
    b: Seq<u32>,
    same: bool,
) -> bool {
    if same {
        close_up_to(close, a, b, a.len() as int)
    } else {
        exists|i: int|
            0 <= i < a.len() && #[trigger] close_up_to(close, a, b, i) && call_ensures(
                close,
                (a[i], b[i]),
                false,
            )
    }
}

/// The executable function `close` computes the relation `rel`.
pub open spec fn decides<F: Fn(u32, u32) -> bool>(close: F, rel: spec_fn(u32, u32) -> bool) -> bool {
    forall|a: u32, b: u32, r: bool| #[trigger] call_ensures(close, (a, b), r) ==> r == rel(a, b)
}

/// Two values are the same under `rel` when `rel` holds of each pair of
/// their components.
pub open spec fn values_close(rel: spec_fn(u32, u32) -> bool, a: Seq<u32>, b: Seq<u32>) -> bool {
    forall|i: int| 0 <= i < a.len() ==> rel(#[trigger] a[i], b[i])
}

/// Where `close` computes `rel`, the verdict on two values is whether they
/// are the same under `rel`.
pub proof fn lemma_values_outcome_decided<F: Fn(u32, u32) -> bool>(
    close: F,
    rel: spec_fn(u32, u32) -> bool,
    a: Seq<u32>,
    b: Seq<u32>,
    same: bool,
)
    requires
        decides(close, rel),
        values_outcome(close, a, b, same),
        forall|x: u32, y: u32| call_requires(close, (x, y)),
    ensures
        same == values_close(rel, a, b),
{
    if same {
        assert forall|i: int| 0 <= i < a.len() implies rel(#[trigger] a[i], b[i]) by {
            assert(call_ensures(close, (a[i], b[i]), true));
        }
    } else {
        let i = choose|i: int|
            0 <= i < a.len() && #[trigger] close_up_to(close, a, b, i) && call_ensures(
                close,
                (a[i], b[i]),
                false,
            );
        assert(call_ensures(close, (a[i], b[i]), false));
        assert(!rel(a[i], b[i]));
    }
}

/// Comparing the values of two keyframes, component by component.
pub trait CompareValues {
    /// The components of the keyframe's value.
    spec fn components(&self) -> Seq<u32>;

    /// Whether the values of two keyframes are the same: whether `close`
    /// holds of each pair of their components. Stops at the first pair of
    /// which it does not.
    fn compare_values<F: Fn(u32, u32) -> bool>(&self, other: &Self, close: &F) -> (same: bool)
        requires
            forall|a: u32, b: u32| call_requires(*close, (a, b)),
            self.components().len() == other.components().len(),
        ensures
            values_outcome(*close, self.components(), other.components(), same),
    ;
}

impl<const N: usize> CompareValues for Track<N> {
    open spec fn components(&self) -> Seq<u32> {
        self.value@
    }

    fn compare_values<F: Fn(u32, u32) -> bool>(&self, other: &Self, close: &F) -> (same: bool) {
        let mut i: usize = 0;
        while i < N
            invariant
                i <= N,
                self.value@.len() == N,
                other.value@.len() == N,
                forall|a: u32, b: u32| call_requires(*close, (a, b)),
                forall|j: int|
                    0 <= j < i ==> call_ensures(*close, (#[trigger] self.value@[j], other.value@[j]), true),
            decreases N - i,
        {
            if !close(self.value[i], other.value[i]) {
                assert(call_ensures(*close, (self.value@[i as int], other.value@[i as int]), false));
                assert(close_up_to(*close, self.value@, other.value@, i as int));
                return false;
            }
            i += 1;
        }
        true
    }
}

/// Whether the track at `i` stays when redundant tracks are dropped: the
/// first and the last track stay, a track stays whose time is one of
/// `special`, and a track stays whose value is not the same as that of the
/// track before it or of the track behind it. `same[k]` tells whether the
/// tracks at `k` and `k + 1` have the same value.
pub open spec fn keeps(tracks: Seq<TrackView>, special: Seq<u32>, same: Seq<bool>, i: int) -> bool {
    i <= 0 || i >= tracks.len() - 1 || special.contains(tracks[i].time) || !same[i - 1] || !same[i]
}

/// The tracks that stay when redundant tracks are dropped, in order.
pub open spec fn reduced(tracks: Seq<TrackView>, special: Seq<u32>, same: Seq<bool>) -> Seq<TrackView> {
    kept(tracks, |i: int| keeps(tracks, special, same, i), tracks.len())
}

/// A track without its tangents.
pub open spec fn stripped(t: TrackView) -> TrackView {
    TrackView { in_tan: None, out_tan: None, ..t }
}

/// An animated property turned linear, if `linearize` asks for it and the
/// property is interpolated by curves: the interpolation type becomes 1 and
/// every track loses its tangents. Otherwise the property as it is.
pub open spec fn linearized(v: TransformView, linearize: bool) -> TransformView {
    if linearize && has_tangents(v.interpolation_type) {
        TransformView {
            interpolation_type: 1,
            data: Seq::new(v.data.len(), |i: int| stripped(v.data[i])),
            ..v
        }
    } else {
        v
    }
}

/// An animated property without its redundant tracks, and with its track
/// count set accordingly. A property of two tracks or fewer stays as it is.
pub open spec fn thinned(v: TransformView, special: Seq<u32>, same: Seq<bool>) -> TransformView {
    if v.data.len() > 2 {
        let data = reduced(v.data, special, same);
        TransformView { number_of_tracks: data.len() as u32, data, ..v }
    } else {
        v
    }
}

/// `same` holds verdicts that `close` can have led to, one for each pair of
/// neighbours among `tracks`. Nothing is asked of `same` where there are
/// fewer than three tracks, since then no value is compared.
pub open spec fn observed<F: Fn(u32, u32) -> bool>(close: F, tracks: Seq<TrackView>, same: Seq<bool>) -> bool {
    tracks.len() > 2 ==> {
        &&& same.len() == tracks.len() - 1
        &&& forall|i: int|
            0 <= i < same.len() ==> values_outcome(
                close,
                tracks[i].value,
                tracks[i + 1].value,
                #[trigger] same[i],
            )
    }
}

/// For each pair of neighbours among `tracks`, whether their values are the
/// same under `rel`.
pub open spec fn same_by(tracks: Seq<TrackView>, rel: spec_fn(u32, u32) -> bool) -> Seq<bool> {
    Seq::new(
        if tracks.len() > 0 {
            (tracks.len() - 1) as nat
        } else {
            0
        },
        |i: int| values_close(rel, tracks[i].value, tracks[i + 1].value),
    )
}

/// An animated property optimized under the relation `rel`: turned linear if
/// asked for, then freed of the tracks that are redundant under `rel`.
pub open spec fn optimized(
    v: TransformView,
    special: Seq<u32>,
    rel: spec_fn(u32, u32) -> bool,
    linearize: bool,
) -> TransformView {
    let linear = linearized(v, linearize);
    thinned(linear, special, same_by(linear.data, rel))
}

/// `after` is `before` optimized, with verdicts that `close` can have led to.
pub open spec fn optimized_as<F: Fn(u32, u32) -> bool>(
    close: F,
    before: TransformView,
    after: TransformView,
    special: Seq<u32>,
    linearize: bool,
) -> bool {
    exists|same: Seq<bool>|
        #![trigger observed(close, linearized(before, linearize).data, same)]
        observed(close, linearized(before, linearize).data, same) && after == thinned(
            linearized(before, linearize),
            special,
            same,
        )
}

/// Where `close` computes `rel`, the verdicts it leads to are those of `rel`.
pub proof fn lemma_observed_decided<F: Fn(u32, u32) -> bool>(
    close: F,
    rel: spec_fn(u32, u32) -> bool,
    tracks: Seq<TrackView>,
    same: Seq<bool>,
)
    requires
        decides(close, rel),
        observed(close, tracks, same),
        forall|x: u32, y: u32| call_requires(close, (x, y)),
        tracks.len() > 2,
    ensures
        same == same_by(tracks, rel),
{
    assert forall|i: int| 0 <= i < same.len() implies same[i] == same_by(tracks, rel)[i] by {
        lemma_values_outcome_decided(close, rel, tracks[i].value, tracks[i + 1].value, same[i]);
    }
    assert(same =~= same_by(tracks, rel));
}

/// Where `close` computes `rel`, a property optimized with the verdicts of
/// `close` is the property optimized under `rel`.
pub proof fn lemma_optimized_decided<F: Fn(u32, u32) -> bool>(
    close: F,
    rel: spec_fn(u32, u32) -> bool,
    before: TransformView,
    after: TransformView,
    special: Seq<u32>,
    linearize: bool,
)
    requires
        decides(close, rel),
        optimized_as(close, before, after, special, linearize),
        forall|x: u32, y: u32| call_requires(close, (x, y)),
    ensures
        after == optimized(before, special, rel, linearize),
{
    let linear = linearized(before, linearize);
    let same = choose|same: Seq<bool>|
        #![trigger observed(close, linearized(before, linearize).data, same)]
        observed(close, linearized(before, linearize).data, same) && after == thinned(
            linearized(before, linearize),
            special,
            same,
        );
    if linear.data.len() > 2 {
        lemma_observed_decided(close, rel, linear.data, same);
    }
}

/// Dropping the keyframes that say nothing new.
pub trait OptimizeFrames: View<V = TransformView> + Sized {
    /// Turns the property linear, if `linearize` asks for it and the
    /// property is interpolated by curves; then, if there are more than two
    /// keyframes, drops every keyframe but the first, the last, those whose
    /// time is one of `special_frames`, and those whose value differs from
    /// that of a neighbour. Two values differ when `close` does not hold of
    /// each pair of their components.
    fn optimize<F: Fn(u32, u32) -> bool>(&mut self, special_frames: &Vec<u32>, close: &F, linearize: bool)
        requires
            forall|a: u32, b: u32| call_requires(*close, (a, b)),
        ensures
            optimized_as(*close, old(self)@, final(self)@, special_frames@, linearize),
            forall|rel: spec_fn(u32, u32) -> bool| #[trigger]
                decides(*close, rel) ==> final(self)@ == optimized(
                    old(self)@,
                    special_frames@,
                    rel,
                    linearize,
                ),
    ;
}

impl<const N: usize> Transform<N> {
    /// Turns the property linear if it is interpolated by curves: the
    /// interpolation type becomes 1 and every keyframe loses its tangents.
    /// A property that is not interpolated by curves stays as it is.
    pub fn linearize(&mut self)
        ensures
            final(self)@ == linearized(old(self)@, true),
    {
        if self.interpolation_type > 1 {
            let ghost before = views(self.data@);
            let mut bare: Vec<Track<N>> = Vec::new();
            let mut i: usize = 0;
            while i < self.data.len()
                invariant
                    i <= self.data@.len(),
                    before == views(self.data@),
                    bare@.len() == i,
                    forall|j: int| 0 <= j < i ==> (#[trigger] bare@[j])@ == stripped(before[j]),
                decreases self.data@.len() - i,
            {
                let track = self.data[i];
                bare.push(Track { time: track.time, value: track.value, in_tan: None, out_tan: None });
                i += 1;
            }
            self.interpolation_type = 1;
            self.data = bare;
            assert(views(self.data@) =~= Seq::new(before.len(), |i: int| stripped(before[i])));
        }
    }
}

impl<const N: usize> OptimizeFrames for Transform<N> {
    fn optimize<F: Fn(u32, u32) -> bool>(&mut self, special_frames: &Vec<u32>, close: &F, linearize: bool) {
        if linearize {
            self.linearize();
        }
        assert(self@ == linearized(old(self)@, linearize));
        let ghost linear = self@;
        let ghost tracks = linear.data;
        let n = self.data.len();
        if n > 2 {
            let mut same: Vec<bool> = Vec::new();
            let mut i: usize = 0;
            while i < n - 1
                invariant
                    i <= n - 1,
                    n == self.data@.len(),
                    tracks == views(self.data@),
                    same@.len() == i,
                    forall|a: u32, b: u32| call_requires(*close, (a, b)),
                    forall|j: int|
                        0 <= j < i ==> values_outcome(
                            *close,
                            tracks[j].value,
                            tracks[j + 1].value,
                            #[trigger] same@[j],
                        ),
                decreases n - 1 - i,
            {
                let verdict = self.data[i].compare_values(&self.data[i + 1], close);
                same.push(verdict);
                i += 1;
            }
            assert(observed(*close, tracks, same@));
            let ghost keep = |i: int| keeps(tracks, special_frames@, same@, i);
            let mut result: Vec<Track<N>> = Vec::new();
            let mut i: usize = 0;
            while i < n
                invariant
                    i <= n,
                    2 < n == self.data@.len(),
                    same@.len() == n - 1,
                    tracks == views(self.data@),
                    keep == |i: int| keeps(tracks, special_frames@, same@, i),
                    views(result@) == kept(tracks, keep, i as nat),
                decreases n - i,
            {
                let track = self.data[i];
                let stays = i == 0 || i == n - 1 || frame_is_special(track.time, special_frames)
                    || !same[i - 1] || !same[i];
                if stays {
                    result.push(track);
                    assert(views(result@) =~= kept(tracks, keep, i as nat).push(tracks[i as int]));
                }
                i += 1;
            }
            self.number_of_tracks = #[verifier::truncate] (result.len() as u32);
            self.data = result;
            assert(self@ == thinned(linear, special_frames@, same@));
        } else {
            assert(observed(*close, tracks, Seq::<bool>::empty()));
            assert(self@ == thinned(linear, special_frames@, Seq::<bool>::empty()));
        }
        proof {
            assert(optimized_as(*close, old(self)@, self@, special_frames@, linearize));
            assert forall|rel: spec_fn(u32, u32) -> bool| #[trigger] decides(*close, rel) implies self@
                == optimized(old(self)@, special_frames@, rel, linearize) by {
                lemma_optimized_decided(*close, rel, old(self)@, self@, special_frames@, linearize);
            }
        }
    }
}

} // verus!
