//! Keyframes and animated properties.
//!
//! An animated property is a list of keyframes ("tracks") of one quantity: a
//! translation or a scaling (three components), a rotation (four) or an alpha
//! value (one). Each track holds a time and a value, and, when the property
//! is interpolated by Hermite or Bezier curves, an incoming and an outgoing
//! tangent of the same width. Components are IEEE-754 single-precision bit
//! patterns.

use vstd::prelude::*;
use crate::error::MdlxError;
use crate::primitives::{
    decoded, emit_u32, get_u32, get_words, le32, lemma_count_fits, lemma_le32_len,
    lemma_splice_append, lemma_u32_at_le32, lemma_words_at_le, lemma_words_le_len, put_u32,
    put_words, read_u32, splice, u32_at, words_at, words_le,
};
use vstd::slice::slice_subrange;
use crate::codec::{opt_view, views, Codec, Lossless};

verus! {

/// One keyframe of a quantity with `N` components.
#[derive(Clone, Copy, Debug, PartialEq)]
pub struct Track<const N: usize> {
    pub time: u32,
    pub value: [u32; N],
    pub in_tan: Option<[u32; N]>,
    pub out_tan: Option<[u32; N]>,
}

/// An animated property: its header and its keyframes in file order.
#[derive(Clone, Debug, PartialEq)]
pub struct Transform<const N: usize> {
    pub number_of_tracks: u32,
    pub interpolation_type: u32,
    pub global_sequence_id: u32,
    pub data: Vec<Track<N>>,
}

/// A keyframe as a mathematical value.
pub struct TrackView {
    pub time: u32,
    pub value: Seq<u32>,
    pub in_tan: Option<Seq<u32>>,
    pub out_tan: Option<Seq<u32>>,
}

/// An animated property as a mathematical value.
pub struct TransformView {
    pub number_of_tracks: u32,
    pub interpolation_type: u32,
    pub global_sequence_id: u32,
    pub data: Seq<TrackView>,
}

pub open spec fn opt_words<const N: usize>(a: Option<[u32; N]>) -> Option<Seq<u32>> {
    match a {
        Some(w) => Some(w@),
        None => None,
    }
}

impl<const N: usize> View for Track<N> {
    type V = TrackView;

    open spec fn view(&self) -> TrackView {
        TrackView {
            time: self.time,
            value: self.value@,
            in_tan: opt_words(self.in_tan),
            out_tan: opt_words(self.out_tan),
        }
    }
}

impl<const N: usize> View for Transform<N> {
    type V = TransformView;

    open spec fn view(&self) -> TransformView {
        TransformView {
            number_of_tracks: self.number_of_tracks,
            interpolation_type: self.interpolation_type,
            global_sequence_id: self.global_sequence_id,
            data: views(self.data@),
        }
    }
}

/// Tracks of a property carry tangents when its interpolation type is above 1
/// (0: none, 1: linear, 2: Hermite, 3: Bezier).
pub open spec fn has_tangents(interpolation_type: u32) -> bool {
    interpolation_type > 1
}

/// The bytes of an optional run of 32-bit values: none when it is absent.
pub open spec fn opt_words_le(words: Option<Seq<u32>>) -> Seq<u8> {
    match words {
        Some(w) => words_le(w),
        None => Seq::empty(),
    }
}

/// The bytes of a track: time, value, then the tangents that are present.
pub open spec fn track_encoding(t: TrackView) -> Seq<u8> {
    le32(t.time) + words_le(t.value) + opt_words_le(t.in_tan) + opt_words_le(t.out_tan)
}

/// The bytes of a list of tracks, one after the other.
pub open spec fn tracks_encoding(tracks: Seq<TrackView>) -> Seq<u8>
    decreases tracks.len(),
{
    if tracks.len() == 0 {
        Seq::empty()
    } else {
        tracks_encoding(tracks.drop_last()) + track_encoding(tracks.last())
    }
}

/// The bytes of an animated property: three header fields, then the tracks.
pub open spec fn transform_encoding(v: TransformView) -> Seq<u8> {
    le32(v.number_of_tracks) + le32(v.interpolation_type) + le32(v.global_sequence_id)
        + tracks_encoding(v.data)
}

/// The number of bytes of a track of `width` components in a file.
pub open spec fn track_size(width: nat, tangents: bool) -> nat {
    if tangents {
        4 + 12 * width
    } else {
        4 + 4 * width
    }
}

/// The track of `width` components that starts at `pos` of `s`.
pub open spec fn track_at(s: Seq<u8>, pos: int, width: nat, tangents: bool) -> TrackView {
    TrackView {
        time: u32_at(s, pos),
        value: words_at(s, pos + 4, width),
        in_tan: if tangents {
            Some(words_at(s, pos + 4 + 4 * width, width))
        } else {
            None
        },
        out_tan: if tangents {
            Some(words_at(s, pos + 4 + 8 * width, width))
        } else {
            None
        },
    }
}

/// The animated property of `width` components at the start of `s`: a header
/// of track count, interpolation type and global sequence id, then as many
/// tracks as the count says, with tangents if the interpolation type asks for
/// them.
pub open spec fn parse_transform(s: Seq<u8>, width: nat) -> Result<(TransformView, nat), MdlxError> {
    if s.len() < 12 {
        Err(MdlxError::UnexpectedEof)
    } else {
        let count = u32_at(s, 0);
        let interpolation_type = u32_at(s, 4);
        let tangents = has_tangents(interpolation_type);
        let size = track_size(width, tangents);
        if s.len() < 12 + count * size {
            Err(MdlxError::UnexpectedEof)
        } else {
            Ok(
                (
                    TransformView {
                        number_of_tracks: count,
                        interpolation_type,
                        global_sequence_id: u32_at(s, 8),
                        data: Seq::new(
                            count as nat,
                            |i: int| track_at(s, 12 + i * size, width, tangents),
                        ),
                    },
                    (12 + count * size) as nat,
                ),
            )
        }
    }
}

/// A track has `width` components in its value and in each tangent, and has
/// both tangents or none, as `tangents` says.
pub open spec fn track_well_formed(t: TrackView, width: nat, tangents: bool) -> bool {
    &&& t.value.len() == width
    &&& t.in_tan is Some <==> tangents
    &&& t.out_tan is Some <==> tangents
    &&& t.in_tan matches Some(w) ==> w.len() == width
    &&& t.out_tan matches Some(w) ==> w.len() == width
}

/// The track count is the number of tracks, and every track has the width and
/// the tangents that the header calls for.
pub open spec fn transform_well_formed(v: TransformView, width: nat) -> bool {
    &&& v.number_of_tracks == v.data.len()
    &&& forall|i: int|
        0 <= i < v.data.len() ==> track_well_formed(
            #[trigger] v.data[i],
            width,
            has_tangents(v.interpolation_type),
        )
}

/// The encoding of a list of tracks grows by the encoding of a track pushed
/// behind it.
pub proof fn lemma_tracks_encoding_push(tracks: Seq<TrackView>, t: TrackView)
    ensures
        tracks_encoding(tracks.push(t)) == tracks_encoding(tracks) + track_encoding(t),
{
    assert(tracks.push(t).drop_last() =~= tracks);
}

/// The encoding of the first `k` tracks is no longer than that of all.
pub proof fn lemma_tracks_encoding_prefix(tracks: Seq<TrackView>, k: int)
    requires
        0 <= k <= tracks.len(),
    ensures
        tracks_encoding(tracks.take(k)).len() <= tracks_encoding(tracks).len(),
    decreases tracks.len() - k,
{
    if k < tracks.len() {
        lemma_tracks_encoding_prefix(tracks, k + 1);
        assert(tracks.take(k + 1) =~= tracks.take(k).push(tracks[k]));
        lemma_tracks_encoding_push(tracks.take(k), tracks[k]);
    } else {
        assert(tracks.take(k) =~= tracks);
    }
}

/// The length of a track's encoding, by its parts.
pub proof fn lemma_track_encoding_len(t: TrackView)
    ensures
        track_encoding(t).len() == 4 + 4 * t.value.len() + (match t.in_tan {
            Some(w) => 4 * w.len(),
            None => 0,
        }) + (match t.out_tan {
            Some(w) => 4 * w.len(),
            None => 0,
        }),
{
    lemma_le32_len(t.time);
    lemma_words_le_len(t.value);
    if let Some(w) = t.in_tan {
        lemma_words_le_len(w);
    }
    if let Some(w) = t.out_tan {
        lemma_words_le_len(w);
    }
}

impl<const N: usize> Track<N> {
    /// The number of bytes of the track's encoding, unless that number
    /// exceeds the machine's address range.
    pub fn total_bytes_size(&self) -> (r: Option<usize>)
        ensures
            r matches Some(n) ==> n == track_encoding(self@).len(),
            r is None ==> track_encoding(self@).len() > usize::MAX,
    {
        proof {
            lemma_track_encoding_len(self@);
            assert(self.value@.len() == N);
            if let Some(w) = self.in_tan {
                assert(w@.len() == N);
            }
            if let Some(w) = self.out_tan {
                assert(w@.len() == N);
            }
        }
        let per_component: usize = if self.in_tan.is_some() && self.out_tan.is_some() {
            12
        } else if self.in_tan.is_some() || self.out_tan.is_some() {
            8
        } else {
            4
        };
        match N.checked_mul(per_component) {
            Some(bytes) => bytes.checked_add(4),
            None => None,
        }
    }

    /// Writes the track's encoding to `offset` of `dst`, which has room for it.
    fn write(&self, dst: &mut Vec<u8>, offset: usize) -> (n: usize)
        requires
            offset + track_encoding(self@).len() <= old(dst)@.len(),
        ensures
            n == track_encoding(self@).len(),
            final(dst)@ == splice(old(dst)@, offset as int, track_encoding(self@)),
    {
        proof {
            lemma_track_encoding_len(self@);
            lemma_le32_len(self.time);
            lemma_words_le_len(self.value@);
            assert(self.value@.len() == N);
        }
        assert(dst@.len() == dst.len());
        let mut pos: usize = offset;
        put_u32(dst, self.time, pos);
        pos += 4;
        put_words(dst, &self.value, pos);
        proof {
            lemma_splice_append(old(dst)@, offset as int, le32(self.time), words_le(self.value@));
        }
        pos += 4 * N;
        let ghost mut written = le32(self.time) + words_le(self.value@);
        if let Some(w) = &self.in_tan {
            proof {
                assert(w@.len() == N);
                lemma_words_le_len(w@);
                lemma_splice_append(old(dst)@, offset as int, written, words_le(w@));
            }
            put_words(dst, w, pos);
            pos += 4 * N;
            proof {
                written = written + words_le(w@);
            }
        } else {
            assert(written + opt_words_le(self@.in_tan) =~= written);
        }
        assert(written == le32(self.time) + words_le(self.value@) + opt_words_le(self@.in_tan));
        if let Some(w) = &self.out_tan {
            proof {
                assert(w@.len() == N);
                lemma_words_le_len(w@);
                lemma_splice_append(old(dst)@, offset as int, written, words_le(w@));
            }
            put_words(dst, w, pos);
            pos += 4 * N;
            proof {
                written = written + words_le(w@);
            }
        } else {
            assert(written + opt_words_le(self@.out_tan) =~= written);
        }
        assert(written == track_encoding(self@));
        pos - offset
    }
}

/// The length of a property's encoding: the header and the tracks.
pub proof fn lemma_transform_encoding_len(v: TransformView)
    ensures
        transform_encoding(v).len() == 12 + tracks_encoding(v.data).len(),
{
    lemma_le32_len(v.number_of_tracks);
    lemma_le32_len(v.interpolation_type);
    lemma_le32_len(v.global_sequence_id);
}

impl<const N: usize> Codec for Transform<N> {
    open spec fn parse(s: Seq<u8>) -> Result<(TransformView, nat), MdlxError> {
        parse_transform(s, N as nat)
    }

    open spec fn encoding(v: TransformView) -> Seq<u8> {
        transform_encoding(v)
    }

    fn try_from_ctx(src: &[u8]) -> (r: Result<(Self, usize), MdlxError>) {
        if src.len() < 12 {
            return Err(MdlxError::UnexpectedEof);
        }
        let count = get_u32(src, 0);
        let interpolation_type = get_u32(src, 4);
        let global_sequence_id = get_u32(src, 8);
        let tangents = interpolation_type > 1;
        let mut data: Vec<Track<N>> = Vec::new();
        let mut pos: usize = 12;
        if count > 0 {
            let per_component: usize = if tangents { 12 } else { 4 };
            let size: usize = match N.checked_mul(per_component) {
                Some(bytes) => match bytes.checked_add(4) {
                    Some(size) => size,
                    None => {
                        assert(count * track_size(N as nat, tangents) >= track_size(N as nat, tangents))
                            by (nonlinear_arith)
                            requires
                                count >= 1,
                        ;
                        return Err(MdlxError::UnexpectedEof);
                    },
                },
                None => {
                    assert(count * track_size(N as nat, tangents) >= track_size(N as nat, tangents))
                        by (nonlinear_arith)
                        requires
                            count >= 1,
                    ;
                    return Err(MdlxError::UnexpectedEof);
                },
            };
            assert(size == track_size(N as nat, tangents));
            proof {
                lemma_count_fits(src@.len() - 12, size as int, count as int);
            }
            if (src.len() - 12) / size < count as usize {
                return Err(MdlxError::UnexpectedEof);
            }
            let mut i: u32 = 0;
            while i < count
                invariant
                    i <= count,
                    0 < size == track_size(N as nat, tangents),
                    12 + count * size <= src@.len() <= usize::MAX,
                    pos == 12 + i * size,
                    data@.len() == i,
                    forall|j: int|
                        0 <= j < i ==> (#[trigger] data@[j])@ == track_at(
                            src@,
                            12 + j * size,
                            N as nat,
                            tangents,
                        ),
                decreases count - i,
            {
                proof {
                    assert((i + 1) * size <= count * size) by (nonlinear_arith)
                        requires
                            i + 1 <= count,
                            0 < size,
                    ;
                    assert((i + 1) * size == i * size + size) by (nonlinear_arith);
                }
                let time = get_u32(src, pos);
                let value = get_words::<N>(src, pos + 4);
                let mut in_tan: Option<[u32; N]> = None;
                let mut out_tan: Option<[u32; N]> = None;
                if tangents {
                    in_tan = Some(get_words::<N>(src, pos + 4 + 4 * N));
                    out_tan = Some(get_words::<N>(src, pos + 4 + 8 * N));
                }
                data.push(Track { time, value, in_tan, out_tan });
                pos += size;
                i += 1;
            }
        }
        let transform = Transform { number_of_tracks: count, interpolation_type, global_sequence_id, data };
        proof {
            let size = track_size(N as nat, tangents);
            if count == 0 {
                assert(count * size == 0) by (nonlinear_arith)
                    requires
                        count == 0,
                ;
            }
            assert(pos == 12 + count * size);
            assert(transform@.data =~= Seq::new(
                count as nat,
                |i: int| track_at(src@, 12 + i * size, N as nat, tangents),
            ));
        }
        Ok((transform, pos))
    }

    fn total_bytes_size(&self) -> (r: Option<usize>) {
        let ghost all = views(self.data@);
        proof {
            lemma_transform_encoding_len(self@);
            assert(all.take(0) =~= Seq::<TrackView>::empty());
        }
        let mut total: usize = 12;
        let mut i: usize = 0;
        while i < self.data.len()
            invariant
                i <= self.data@.len(),
                all == views(self.data@),
                transform_encoding(self@).len() == 12 + tracks_encoding(all).len(),
                total == 12 + tracks_encoding(all.take(i as int)).len(),
            decreases self.data@.len() - i,
        {
            proof {
                assert(all.take(i + 1) =~= all.take(i as int).push(self.data@[i as int]@));
                lemma_tracks_encoding_push(all.take(i as int), self.data@[i as int]@);
                lemma_tracks_encoding_prefix(all, i + 1);
            }
            let track = match self.data[i].total_bytes_size() {
                Some(n) => n,
                None => {
                    return None;
                },
            };
            total = match total.checked_add(track) {
                Some(sum) => sum,
                None => {
                    return None;
                },
            };
            i += 1;
        }
        proof {
            assert(all.take(i as int) =~= all);
        }
        Some(total)
    }

    fn try_into_ctx(&self, dst: &mut Vec<u8>, offset: usize) -> (r: Result<usize, MdlxError>) {
        let room: usize = dst.len();
        let size = match self.total_bytes_size() {
            Some(size) => size,
            None => {
                return Err(MdlxError::BufferTooSmall);
            },
        };
        if offset > room || room - offset < size {
            return Err(MdlxError::BufferTooSmall);
        }
        let ghost all = views(self.data@);
        let ghost header = le32(self.number_of_tracks) + le32(self.interpolation_type) + le32(
            self.global_sequence_id,
        );
        proof {
            lemma_transform_encoding_len(self@);
            lemma_le32_len(self.number_of_tracks);
            lemma_le32_len(self.interpolation_type);
            lemma_le32_len(self.global_sequence_id);
            lemma_splice_append(
                dst@,
                offset as int,
                le32(self.number_of_tracks),
                le32(self.interpolation_type),
            );
            lemma_splice_append(
                dst@,
                offset as int,
                le32(self.number_of_tracks) + le32(self.interpolation_type),
                le32(self.global_sequence_id),
            );
        }
        put_u32(dst, self.number_of_tracks, offset);
        put_u32(dst, self.interpolation_type, offset + 4);
        put_u32(dst, self.global_sequence_id, offset + 8);
        let mut pos: usize = offset + 12;
        let mut i: usize = 0;
        proof {
            assert(all.take(0) =~= Seq::<TrackView>::empty());
            assert(header + tracks_encoding(all.take(0)) =~= header);
        }
        while i < self.data.len()
            invariant
                i <= self.data@.len(),
                all == views(self.data@),
                header.len() == 12,
                offset + 12 + tracks_encoding(all).len() <= old(dst)@.len() <= usize::MAX,
                pos == offset + 12 + tracks_encoding(all.take(i as int)).len(),
                dst@ == splice(old(dst)@, offset as int, header + tracks_encoding(all.take(i as int))),
            decreases self.data@.len() - i,
        {
            proof {
                assert(all.take(i + 1) =~= all.take(i as int).push(self.data@[i as int]@));
                lemma_tracks_encoding_push(all.take(i as int), self.data@[i as int]@);
                lemma_tracks_encoding_prefix(all, i + 1);
                lemma_splice_append(
                    old(dst)@,
                    offset as int,
                    header + tracks_encoding(all.take(i as int)),
                    track_encoding(self.data@[i as int]@),
                );
                assert(header + tracks_encoding(all.take(i as int)) + track_encoding(
                    self.data@[i as int]@,
                ) =~= header + tracks_encoding(all.take(i + 1)));
            }
            let n = self.data[i].write(dst, pos);
            pos += n;
            i += 1;
        }
        proof {
            assert(all.take(i as int) =~= all);
        }
        Ok(size)
    }

    proof fn lemma_parse_bounds(s: Seq<u8>) {
        if s.len() >= 12 {
            let count = u32_at(s, 0);
            let size = track_size(N as nat, has_tangents(u32_at(s, 4)));
            assert(count * size >= 0) by (nonlinear_arith)
                requires
                    count >= 0,
                    size >= 0,
            ;
        }
    }
}

/// The bytes of an optional animated property inside a record: its tag and
/// its encoding when it is present, nothing when it is absent.
pub open spec fn block_encoding(tag: u32, block: Option<TransformView>) -> Seq<u8> {
    match block {
        Some(v) => le32(tag) + transform_encoding(v),
        None => Seq::empty(),
    }
}

/// The number of bytes that an optional animated property takes inside a
/// record, unless that number exceeds the machine's address range.
pub fn block_size<const N: usize>(tag: u32, block: &Option<Transform<N>>) -> (r: Option<usize>)
    ensures
        r matches Some(n) ==> n == block_encoding(tag, opt_view(*block)).len(),
        r is None ==> block_encoding(tag, opt_view(*block)).len() > usize::MAX,
{
    proof {
        lemma_le32_len(tag);
    }
    match block {
        Some(transform) => match transform.total_bytes_size() {
            Some(n) => n.checked_add(4),
            None => None,
        },
        None => Some(0),
    }
}

/// Appends an optional animated property, behind its tag, to what has been
/// written from `start` of `dst` on.
pub(crate) fn emit_block<const N: usize>(
    dst: &mut Vec<u8>,
    Ghost(base): Ghost<Seq<u8>>,
    Ghost(acc): Ghost<Seq<u8>>,
    start: usize,
    pos: usize,
    tag: u32,
    block: &Option<Transform<N>>,
) -> (next: usize)
    requires
        old(dst)@ == splice(base, start as int, acc),
        pos == start + acc.len(),
        pos + block_encoding(tag, opt_view(*block)).len() <= base.len(),
    ensures
        final(dst)@ == splice(base, start as int, acc + block_encoding(tag, opt_view(*block))),
        next == pos + block_encoding(tag, opt_view(*block)).len(),
{
    match block {
        Some(transform) => {
            proof {
                lemma_le32_len(tag);
                lemma_splice_append(base, start as int, acc + le32(tag), transform_encoding(transform@));
                assert(acc + le32(tag) + transform_encoding(transform@) =~= acc + block_encoding(
                    tag,
                    opt_view(*block),
                ));
            }
            assert(dst@.len() == dst.len());
            let body = emit_u32(dst, Ghost(base), Ghost(acc), start, pos, tag);
            match transform.try_into_ctx(dst, body) {
                Ok(n) => body + n,
                Err(_) => {
                    assert(false);
                    body
                },
            }
        },
        None => {
            assert(acc + block_encoding(tag, opt_view(*block)) =~= acc);
            pos
        },
    }
}

/// The tags under which a record holds its translation, rotation and scaling.
#[derive(Clone, Copy, Debug, PartialEq, Eq)]
pub struct ChannelTags {
    pub translation: u32,
    pub rotation: u32,
    pub scaling: u32,
}

/// The animated translation, rotation and scaling of a record, each of which
/// may be absent, as mathematical values.
pub struct ChannelsView {
    pub translation: Option<TransformView>,
    pub rotation: Option<TransformView>,
    pub scaling: Option<TransformView>,
}

/// The bytes of the animated properties of a record: those that are present,
/// each behind its tag, translation first, then rotation, then scaling.
pub open spec fn channels_encoding(tags: ChannelTags, c: ChannelsView) -> Seq<u8> {
    block_encoding(tags.translation, c.translation) + block_encoding(tags.rotation, c.rotation)
        + block_encoding(tags.scaling, c.scaling)
}

/// The animated properties of a record that go from `pos` of `s` up to
/// `limit`, the size that the record states. Each is a tag and the property
/// it names: a translation and a scaling have three components, a rotation
/// four. A property that comes a second time replaces the first. `acc` holds
/// the properties found before `pos`. The result is the properties and the
/// position behind the last.
pub open spec fn parse_channels(
    s: Seq<u8>,
    pos: nat,
    limit: nat,
    tags: ChannelTags,
    acc: ChannelsView,
) -> Result<(ChannelsView, nat), MdlxError>
    decreases s.len() - pos,
{
    if pos >= limit {
        Ok((acc, pos))
    } else if pos + 4 > s.len() {
        Err(MdlxError::UnexpectedEof)
    } else {
        let tag = u32_at(s, pos as int);
        let body = s.skip(pos + 4 as int);
        if tag == tags.translation {
            match parse_transform(body, 3) {
                Err(e) => Err(e),
                Ok((t, n)) => parse_channels(
                    s,
                    pos + 4 + n,
                    limit,
                    tags,
                    ChannelsView { translation: Some(t), ..acc },
                ),
            }
        } else if tag == tags.rotation {
            match parse_transform(body, 4) {
                Err(e) => Err(e),
                Ok((t, n)) => parse_channels(
                    s,
                    pos + 4 + n,
                    limit,
                    tags,
                    ChannelsView { rotation: Some(t), ..acc },
                ),
            }
        } else if tag == tags.scaling {
            match parse_transform(body, 3) {
                Err(e) => Err(e),
                Ok((t, n)) => parse_channels(
                    s,
                    pos + 4 + n,
                    limit,
                    tags,
                    ChannelsView { scaling: Some(t), ..acc },
                ),
            }
        } else {
            Err(MdlxError::UnknownTag(tag))
        }
    }
}

/// What `read_channels` returns, as a mathematical value.
pub open spec fn channels_read(
    r: Result<(Option<Transform<3>>, Option<Transform<4>>, Option<Transform<3>>, usize), MdlxError>,
) -> Result<(ChannelsView, nat), MdlxError> {
    match r {
        Ok((translation, rotation, scaling, n)) => Ok(
            (
                ChannelsView {
                    translation: opt_view(translation),
                    rotation: opt_view(rotation),
                    scaling: opt_view(scaling),
                },
                n as nat,
            ),
        ),
        Err(e) => Err(e),
    }
}

/// Decodes the animated properties of a record that go from `start` of `src`
/// up to `limit`; returns them with the position behind the last.
pub fn read_channels(src: &[u8], start: usize, limit: u32, tags: ChannelTags) -> (r: Result<
    (Option<Transform<3>>, Option<Transform<4>>, Option<Transform<3>>, usize),
    MdlxError,
>)
    ensures
        channels_read(r) == parse_channels(
            src@,
            start as nat,
            limit as nat,
            tags,
            ChannelsView { translation: None, rotation: None, scaling: None },
        ),
        r matches Ok((_, _, _, n)) ==> start <= n && (start <= src@.len() ==> n <= src@.len()),
{
    let end: usize = src.len();
    let mut translation: Option<Transform<3>> = None;
    let mut rotation: Option<Transform<4>> = None;
    let mut scaling: Option<Transform<3>> = None;
    let mut pos: usize = start;
    while pos < limit as usize
        invariant
            start <= pos,
            src@.len() == end,
            pos <= src@.len() || pos == start,
            parse_channels(
                src@,
                start as nat,
                limit as nat,
                tags,
                ChannelsView { translation: None, rotation: None, scaling: None },
            ) == parse_channels(
                src@,
                pos as nat,
                limit as nat,
                tags,
                ChannelsView {
                    translation: opt_view(translation),
                    rotation: opt_view(rotation),
                    scaling: opt_view(scaling),
                },
            ),
        decreases src@.len() - pos,
    {
        let tag = match read_u32(src, pos) {
            Ok(tag) => tag,
            Err(e) => {
                return Err(e);
            },
        };
        let body = slice_subrange(src, pos + 4, end);
        if tag == tags.translation {
            proof {
                Transform::<3>::lemma_parse_bounds(body@);
            }
            match Transform::<3>::try_from_ctx(body) {
                Ok((t, n)) => {
                    translation = Some(t);
                    pos = pos + 4 + n;
                },
                Err(e) => {
                    return Err(e);
                },
            }
        } else if tag == tags.rotation {
            proof {
                Transform::<4>::lemma_parse_bounds(body@);
            }
            match Transform::<4>::try_from_ctx(body) {
                Ok((t, n)) => {
                    rotation = Some(t);
                    pos = pos + 4 + n;
                },
                Err(e) => {
                    return Err(e);
                },
            }
        } else if tag == tags.scaling {
            proof {
                Transform::<3>::lemma_parse_bounds(body@);
            }
            match Transform::<3>::try_from_ctx(body) {
                Ok((t, n)) => {
                    scaling = Some(t);
                    pos = pos + 4 + n;
                },
                Err(e) => {
                    return Err(e);
                },
            }
        } else {
            return Err(MdlxError::UnknownTag(tag));
        }
    }
    Ok((translation, rotation, scaling, pos))
}

/// The number of bytes that the animated properties of a record take,
/// unless that number exceeds the machine's address range.
pub fn channels_size(
    tags: ChannelTags,
    translation: &Option<Transform<3>>,
    rotation: &Option<Transform<4>>,
    scaling: &Option<Transform<3>>,
) -> (r: Option<usize>)
    ensures
        r matches Some(n) ==> n == channels_encoding(
            tags,
            ChannelsView {
                translation: opt_view(*translation),
                rotation: opt_view(*rotation),
                scaling: opt_view(*scaling),
            },
        ).len(),
        r is None ==> channels_encoding(
            tags,
            ChannelsView {
                translation: opt_view(*translation),
                rotation: opt_view(*rotation),
                scaling: opt_view(*scaling),
            },
        ).len() > usize::MAX,
{
    let a = match block_size(tags.translation, translation) {
        Some(n) => n,
        None => {
            return None;
        },
    };
    let b = match block_size(tags.rotation, rotation) {
        Some(n) => n,
        None => {
            return None;
        },
    };
    let c = match block_size(tags.scaling, scaling) {
        Some(n) => n,
        None => {
            return None;
        },
    };
    match a.checked_add(b) {
        Some(ab) => ab.checked_add(c),
        None => None,
    }
}

/// Appends the animated properties of a record to what has been written
/// from `start` of `dst` on.
pub(crate) fn emit_channels(
    dst: &mut Vec<u8>,
    Ghost(base): Ghost<Seq<u8>>,
    Ghost(acc): Ghost<Seq<u8>>,
    start: usize,
    pos: usize,
    tags: ChannelTags,
    translation: &Option<Transform<3>>,
    rotation: &Option<Transform<4>>,
    scaling: &Option<Transform<3>>,
) -> (next: usize)
    requires
        old(dst)@ == splice(base, start as int, acc),
        pos == start + acc.len(),
        pos + channels_encoding(
            tags,
            ChannelsView {
                translation: opt_view(*translation),
                rotation: opt_view(*rotation),
                scaling: opt_view(*scaling),
            },
        ).len() <= base.len(),
    ensures
        final(dst)@ == splice(
            base,
            start as int,
            acc + channels_encoding(
                tags,
                ChannelsView {
                    translation: opt_view(*translation),
                    rotation: opt_view(*rotation),
                    scaling: opt_view(*scaling),
                },
            ),
        ),
        next == pos + channels_encoding(
            tags,
            ChannelsView {
                translation: opt_view(*translation),
                rotation: opt_view(*rotation),
                scaling: opt_view(*scaling),
            },
        ).len(),
{
    let ghost a = block_encoding(tags.translation, opt_view(*translation));
    let ghost b = block_encoding(tags.rotation, opt_view(*rotation));
    let ghost c = block_encoding(tags.scaling, opt_view(*scaling));
    let pos = emit_block(dst, Ghost(base), Ghost(acc), start, pos, tags.translation, translation);
    let pos = emit_block(dst, Ghost(base), Ghost(acc + a), start, pos, tags.rotation, rotation);
    let pos = emit_block(dst, Ghost(base), Ghost(acc + a + b), start, pos, tags.scaling, scaling);
    proof {
        assert(acc + a + b + c =~= acc + (a + b + c));
    }
    pos
}

/// The animated properties of a record end at or behind where they start,
/// and within the input.
pub proof fn lemma_parse_channels_bounds(
    s: Seq<u8>,
    pos: nat,
    limit: nat,
    tags: ChannelTags,
    acc: ChannelsView,
)
    requires
        pos <= s.len(),
    ensures
        parse_channels(s, pos, limit, tags, acc) matches Ok((_, n)) ==> pos <= n <= s.len(),
    decreases s.len() - pos,
{
    if pos < limit && pos + 4 <= s.len() {
        let tag = u32_at(s, pos as int);
        let body = s.skip(pos + 4 as int);
        if tag == tags.translation {
            if let Ok((t, n)) = parse_transform(body, 3) {
                Transform::<3>::lemma_parse_bounds(body);
                lemma_parse_channels_bounds(
                    s,
                    pos + 4 + n,
                    limit,
                    tags,
                    ChannelsView { translation: Some(t), ..acc },
                );
            }
        } else if tag == tags.rotation {
            if let Ok((t, n)) = parse_transform(body, 4) {
                Transform::<4>::lemma_parse_bounds(body);
                lemma_parse_channels_bounds(
                    s,
                    pos + 4 + n,
                    limit,
                    tags,
                    ChannelsView { rotation: Some(t), ..acc },
                );
            }
        } else if tag == tags.scaling {
            if let Ok((t, n)) = parse_transform(body, 3) {
                Transform::<3>::lemma_parse_bounds(body);
                lemma_parse_channels_bounds(
                    s,
                    pos + 4 + n,
                    limit,
                    tags,
                    ChannelsView { scaling: Some(t), ..acc },
                );
            }
        }
    }
}

/// A well-formed track takes as many bytes as its width and its tangents
/// call for.
pub proof fn lemma_track_uniform(t: TrackView, width: nat, tangents: bool)
    requires
        track_well_formed(t, width, tangents),
    ensures
        track_encoding(t).len() == track_size(width, tangents),
{
    lemma_track_encoding_len(t);
}

/// In the encoding of well-formed tracks of one kind, the track at `i`
/// stands at `i` times the size of a track.
pub proof fn lemma_tracks_uniform(tracks: Seq<TrackView>, width: nat, tangents: bool, i: int)
    requires
        forall|j: int| 0 <= j < tracks.len() ==> track_well_formed(#[trigger] tracks[j], width, tangents),
        0 <= i < tracks.len(),
    ensures
        tracks_encoding(tracks).len() == tracks.len() * track_size(width, tangents),
        0 <= i * track_size(width, tangents),
        (i + 1) * track_size(width, tangents) == i * track_size(width, tangents) + track_size(
            width,
            tangents,
        ),
        (i + 1) * track_size(width, tangents) <= tracks_encoding(tracks).len(),
        tracks_encoding(tracks).subrange(
            i * track_size(width, tangents),
            (i + 1) * track_size(width, tangents),
        ) == track_encoding(tracks[i]),
    decreases tracks.len(),
{
    let size = track_size(width, tangents) as int;
    let n = tracks.len() as int;
    let front = tracks.drop_last();
    lemma_track_uniform(tracks.last(), width, tangents);
    assert((n - 1) * size + size == n * size) by (nonlinear_arith);
    assert((i + 1) * size == i * size + size) by (nonlinear_arith);
    assert(0 <= i * size) by (nonlinear_arith)
        requires
            0 <= i,
            0 <= size,
    ;
    assert((i + 1) * size <= n * size) by (nonlinear_arith)
        requires
            i + 1 <= n,
            0 <= size,
    ;
    if n > 1 {
        lemma_tracks_uniform(front, width, tangents, 0);
    } else {
        assert(tracks_encoding(front) =~= Seq::<u8>::empty());
        assert((n - 1) * size == 0) by (nonlinear_arith)
            requires
                n == 1,
        ;
    }
    if i == n - 1 {
        assert(tracks_encoding(tracks).subrange(i * size, (i + 1) * size) =~= track_encoding(
            tracks[i],
        ));
    } else {
        lemma_tracks_uniform(front, width, tangents, i);
        assert((i + 1) * size <= (n - 1) * size) by (nonlinear_arith)
            requires
                i + 1 <= n - 1,
                0 <= size,
        ;
        assert(tracks_encoding(tracks).subrange(i * size, (i + 1) * size) =~= tracks_encoding(
            front,
        ).subrange(i * size, (i + 1) * size));
    }
}

/// The size of an animated property: twelve bytes of header, and for each
/// track four bytes of time and four bytes for each component of its value
/// and, if the property is interpolated by curves, of its two tangents.
pub proof fn lemma_transform_size(v: TransformView, width: nat)
    requires
        transform_well_formed(v, width),
    ensures
        transform_encoding(v).len() == 12 + v.data.len() * track_size(
            width,
            has_tangents(v.interpolation_type),
        ),
        track_size(width, false) == 4 + 4 * width,
        track_size(width, true) == 4 + 12 * width,
{
    lemma_transform_encoding_len(v);
    if v.data.len() > 0 {
        lemma_tracks_uniform(v.data, width, has_tangents(v.interpolation_type), 0);
    } else {
        assert(tracks_encoding(v.data) =~= Seq::<u8>::empty());
        assert(v.data.len() * track_size(width, has_tangents(v.interpolation_type)) == 0)
            by (nonlinear_arith)
            requires
                v.data.len() == 0,
        ;
    }
}

/// The bytes of a well-formed track are read back as that track.
pub proof fn lemma_track_at(s: Seq<u8>, pos: int, t: TrackView, width: nat, tangents: bool)
    requires
        track_well_formed(t, width, tangents),
        0 <= pos,
        pos + track_size(width, tangents) <= s.len(),
        s.subrange(pos, pos + track_size(width, tangents)) == track_encoding(t),
    ensures
        track_at(s, pos, width, tangents) == t,
{
    let w = width as int;
    let bytes = track_encoding(t);
    lemma_track_encoding_len(t);
    lemma_le32_len(t.time);
    lemma_words_le_len(t.value);
    assert(s.subrange(pos, pos + 4) =~= bytes.subrange(0, 4));
    assert(bytes.subrange(0, 4) =~= le32(t.time));
    lemma_u32_at_le32(s, pos, t.time);
    assert(s.subrange(pos + 4, pos + 4 + 4 * w) =~= bytes.subrange(4, 4 + 4 * w));
    assert(bytes.subrange(4, 4 + 4 * w) =~= words_le(t.value));
    lemma_words_at_le(s, pos + 4, t.value);
    if tangents {
        let a = t.in_tan->0;
        let b = t.out_tan->0;
        lemma_words_le_len(a);
        lemma_words_le_len(b);
        assert(s.subrange(pos + 4 + 4 * w, pos + 4 + 8 * w) =~= bytes.subrange(
            4 + 4 * w,
            4 + 8 * w,
        ));
        assert(bytes.subrange(4 + 4 * w, 4 + 8 * w) =~= words_le(a));
        lemma_words_at_le(s, pos + 4 + 4 * w, a);
        assert(s.subrange(pos + 4 + 8 * w, pos + 4 + 12 * w) =~= bytes.subrange(
            4 + 8 * w,
            4 + 12 * w,
        ));
        assert(bytes.subrange(4 + 8 * w, 4 + 12 * w) =~= words_le(b));
        lemma_words_at_le(s, pos + 4 + 8 * w, b);
    }
}

/// A decoded animated property of `width` components is well formed.
pub proof fn lemma_transform_parsed(s: Seq<u8>, width: nat)
    ensures
        parse_transform(s, width) matches Ok((v, _)) ==> transform_well_formed(v, width),
{
}

/// The animated properties that are decoded from a record are well formed,
/// if those found before are.
pub proof fn lemma_channels_parsed(s: Seq<u8>, pos: nat, limit: nat, tags: ChannelTags, acc: ChannelsView)
    requires
        channels_well_formed(acc),
        pos <= s.len(),
    ensures
        parse_channels(s, pos, limit, tags, acc) matches Ok((c, _)) ==> channels_well_formed(c),
    decreases s.len() - pos,
{
    if pos < limit && pos + 4 <= s.len() {
        let tag = u32_at(s, pos as int);
        let body = s.skip(pos + 4 as int);
        if tag == tags.translation {
            if let Ok((t, n)) = parse_transform(body, 3) {
                Transform::<3>::lemma_parse_bounds(body);
                lemma_transform_parsed(body, 3);
                lemma_channels_parsed(
                    s,
                    pos + 4 + n,
                    limit,
                    tags,
                    ChannelsView { translation: Some(t), ..acc },
                );
            }
        } else if tag == tags.rotation {
            if let Ok((t, n)) = parse_transform(body, 4) {
                Transform::<4>::lemma_parse_bounds(body);
                lemma_transform_parsed(body, 4);
                lemma_channels_parsed(
                    s,
                    pos + 4 + n,
                    limit,
                    tags,
                    ChannelsView { rotation: Some(t), ..acc },
                );
            }
        } else if tag == tags.scaling {
            if let Ok((t, n)) = parse_transform(body, 3) {
                Transform::<3>::lemma_parse_bounds(body);
                lemma_transform_parsed(body, 3);
                lemma_channels_parsed(
                    s,
                    pos + 4 + n,
                    limit,
                    tags,
                    ChannelsView { scaling: Some(t), ..acc },
                );
            }
        }
    }
}

impl<const N: usize> Lossless for Transform<N> {
    open spec fn well_formed(v: TransformView) -> bool {
        transform_well_formed(v, N as nat)
    }

    open spec fn sizes_right(v: TransformView) -> bool {
        true
    }

    proof fn lemma_parsed(s: Seq<u8>) {
        lemma_transform_parsed(s, N as nat);
    }

    proof fn lemma_round_trip(v: TransformView, rest: Seq<u8>) {
        lemma_transform_round_trip(v, N as nat, rest);
    }
}

/// Decoding the encoding of a well-formed animated property of `width`
/// components gives the property back, whatever follows it.
pub proof fn lemma_transform_round_trip(v: TransformView, width: nat, rest: Seq<u8>)
    requires
        transform_well_formed(v, width),
    ensures
        parse_transform(transform_encoding(v) + rest, width) == Ok::<(TransformView, nat), MdlxError>(
            (v, transform_encoding(v).len()),
        ),
{
    let s = transform_encoding(v) + rest;
    let tangents = has_tangents(v.interpolation_type);
    let size = track_size(width, tangents) as int;
    let count = v.data.len() as int;
    let body = tracks_encoding(v.data);
    lemma_transform_encoding_len(v);
    lemma_le32_len(v.number_of_tracks);
    lemma_le32_len(v.interpolation_type);
    lemma_le32_len(v.global_sequence_id);
    assert(s.subrange(0, 4) =~= le32(v.number_of_tracks));
    lemma_u32_at_le32(s, 0, v.number_of_tracks);
    assert(s.subrange(4, 8) =~= le32(v.interpolation_type));
    lemma_u32_at_le32(s, 4, v.interpolation_type);
    assert(s.subrange(8, 12) =~= le32(v.global_sequence_id));
    lemma_u32_at_le32(s, 8, v.global_sequence_id);
    if count > 0 {
        lemma_tracks_uniform(v.data, width, tangents, 0);
    } else {
        assert(body =~= Seq::<u8>::empty());
        assert(count * size == 0) by (nonlinear_arith)
            requires
                count == 0,
        ;
    }
    assert(body.len() == count * size);
    let decoded = Seq::new(count as nat, |i: int| track_at(s, 12 + i * size, width, tangents));
    assert forall|i: int| 0 <= i < count implies decoded[i] == v.data[i] by {
        lemma_tracks_uniform(v.data, width, tangents, i);
        assert(s.subrange(12 + i * size, 12 + i * size + size) =~= body.subrange(
            i * size,
            (i + 1) * size,
        ));
        lemma_track_at(s, 12 + i * size, v.data[i], width, tangents);
    }
    assert(decoded =~= v.data);
}

/// The three tags differ from each other.
pub open spec fn tags_distinct(tags: ChannelTags) -> bool {
    &&& tags.translation != tags.rotation
    &&& tags.translation != tags.scaling
    &&& tags.rotation != tags.scaling
}

/// An optional animated property of `width` components is well formed if it
/// is absent or well formed.
pub open spec fn block_well_formed(block: Option<TransformView>, width: nat) -> bool {
    block matches Some(v) ==> transform_well_formed(v, width)
}

/// The translation and the scaling of a record have three components, its
/// rotation has four, and each of them is well formed.
pub open spec fn channels_well_formed(c: ChannelsView) -> bool {
    &&& block_well_formed(c.translation, 3)
    &&& block_well_formed(c.rotation, 4)
    &&& block_well_formed(c.scaling, 3)
}

/// Where a tag and the encoding of a well-formed animated property stand at
/// `pos` of `s`, the tag is read there and the property behind it.
pub proof fn lemma_block_step(s: Seq<u8>, pos: nat, tag: u32, t: TransformView, width: nat, tail: Seq<u8>)
    requires
        pos <= s.len(),
        s.skip(pos as int) == le32(tag) + transform_encoding(t) + tail,
        transform_well_formed(t, width),
    ensures
        pos + 4 <= s.len(),
        u32_at(s, pos as int) == tag,
        parse_transform(s.skip(pos + 4 as int), width) == Ok::<(TransformView, nat), MdlxError>(
            (t, transform_encoding(t).len()),
        ),
        block_encoding(tag, Some(t)).len() == 4 + transform_encoding(t).len(),
{
    lemma_le32_len(tag);
    assert(s.skip(pos as int).len() >= 4);
    assert(s.subrange(pos as int, pos as int + 4) =~= s.skip(pos as int).subrange(0, 4));
    assert(s.skip(pos as int).subrange(0, 4) =~= le32(tag));
    lemma_u32_at_le32(s, pos as int, tag);
    assert(s.skip(pos + 4 as int) =~= s.skip(pos as int).skip(4));
    assert(s.skip(pos as int).skip(4) =~= transform_encoding(t) + tail);
    lemma_transform_round_trip(t, width, tail);
}

/// A translation that stands at `pos`, or none, is decoded and put in place.
pub proof fn lemma_translation_step(
    s: Seq<u8>,
    pos: nat,
    limit: nat,
    tags: ChannelTags,
    acc: ChannelsView,
    block: Option<TransformView>,
    tail: Seq<u8>,
)
    requires
        pos <= s.len(),
        s.skip(pos as int) == block_encoding(tags.translation, block) + tail,
        block_well_formed(block, 3),
        pos + block_encoding(tags.translation, block).len() <= limit,
    ensures
        parse_channels(s, pos, limit, tags, acc) == parse_channels(
            s,
            pos + block_encoding(tags.translation, block).len(),
            limit,
            tags,
            match block {
                Some(t) => ChannelsView { translation: Some(t), ..acc },
                None => acc,
            },
        ),
{
    if let Some(t) = block {
        lemma_block_step(s, pos, tags.translation, t, 3, tail);
    }
}

/// A rotation that stands at `pos`, or none, is decoded and put in place.
pub proof fn lemma_rotation_step(
    s: Seq<u8>,
    pos: nat,
    limit: nat,
    tags: ChannelTags,
    acc: ChannelsView,
    block: Option<TransformView>,
    tail: Seq<u8>,
)
    requires
        tags_distinct(tags),
        pos <= s.len(),
        s.skip(pos as int) == block_encoding(tags.rotation, block) + tail,
        block_well_formed(block, 4),
        pos + block_encoding(tags.rotation, block).len() <= limit,
    ensures
        parse_channels(s, pos, limit, tags, acc) == parse_channels(
            s,
            pos + block_encoding(tags.rotation, block).len(),
            limit,
            tags,
            match block {
                Some(t) => ChannelsView { rotation: Some(t), ..acc },
                None => acc,
            },
        ),
{
    if let Some(t) = block {
        lemma_block_step(s, pos, tags.rotation, t, 4, tail);
    }
}

/// A scaling that stands at `pos`, or none, is decoded and put in place.
pub proof fn lemma_scaling_step(
    s: Seq<u8>,
    pos: nat,
    limit: nat,
    tags: ChannelTags,
    acc: ChannelsView,
    block: Option<TransformView>,
    tail: Seq<u8>,
)
    requires
        tags_distinct(tags),
        pos <= s.len(),
        s.skip(pos as int) == block_encoding(tags.scaling, block) + tail,
        block_well_formed(block, 3),
        pos + block_encoding(tags.scaling, block).len() <= limit,
    ensures
        parse_channels(s, pos, limit, tags, acc) == parse_channels(
            s,
            pos + block_encoding(tags.scaling, block).len(),
            limit,
            tags,
            match block {
                Some(t) => ChannelsView { scaling: Some(t), ..acc },
                None => acc,
            },
        ),
{
    if let Some(t) = block {
        lemma_block_step(s, pos, tags.scaling, t, 3, tail);
    }
}

/// Behind bytes that stand at `pos` of `s` stands what follows them.
pub proof fn lemma_skip_past(s: Seq<u8>, pos: nat, front: Seq<u8>, tail: Seq<u8>)
    requires
        pos <= s.len(),
        s.skip(pos as int) == front + tail,
    ensures
        pos + front.len() <= s.len(),
        s.skip(pos + front.len() as int) == tail,
{
    assert(s.skip(pos as int).len() == front.len() + tail.len());
    assert(s.skip(pos + front.len() as int) =~= s.skip(pos as int).skip(front.len() as int));
    assert((front + tail).skip(front.len() as int) =~= tail);
}

/// The bytes of the animated properties of a record, and what follows
/// them, property by property.
pub proof fn lemma_channels_grouping(tags: ChannelTags, c: ChannelsView, rest: Seq<u8>)
    ensures
        channels_encoding(tags, c) + rest == block_encoding(tags.translation, c.translation) + (
        block_encoding(tags.rotation, c.rotation) + (block_encoding(tags.scaling, c.scaling) + rest)),
        channels_encoding(tags, c).len() == block_encoding(tags.translation, c.translation).len()
            + block_encoding(tags.rotation, c.rotation).len() + block_encoding(
            tags.scaling,
            c.scaling,
        ).len(),
{
    let a = block_encoding(tags.translation, c.translation);
    let b = block_encoding(tags.rotation, c.rotation);
    let d = block_encoding(tags.scaling, c.scaling);
    assert(a + b + d + rest =~= a + (b + (d + rest)));
}

/// The animated properties of a record are decoded from their encoding as
/// they were, where the record's stated size ends right behind them.
pub proof fn lemma_channels_round_trip(
    s: Seq<u8>,
    start: nat,
    tags: ChannelTags,
    c: ChannelsView,
    rest: Seq<u8>,
)
    requires
        tags_distinct(tags),
        channels_well_formed(c),
        start <= s.len(),
        s.skip(start as int) == channels_encoding(tags, c) + rest,
    ensures
        parse_channels(
            s,
            start,
            start + channels_encoding(tags, c).len(),
            tags,
            ChannelsView { translation: None, rotation: None, scaling: None },
        ) == Ok::<(ChannelsView, nat), MdlxError>((c, start + channels_encoding(tags, c).len())),
{
    let a = block_encoding(tags.translation, c.translation);
    let b = block_encoding(tags.rotation, c.rotation);
    let d = block_encoding(tags.scaling, c.scaling);
    let limit = start + channels_encoding(tags, c).len();
    let none = ChannelsView { translation: None, rotation: None, scaling: None };
    let acc1 = match c.translation {
        Some(t) => ChannelsView { translation: Some(t), ..none },
        None => none,
    };
    let acc2 = match c.rotation {
        Some(t) => ChannelsView { rotation: Some(t), ..acc1 },
        None => acc1,
    };
    let acc3 = match c.scaling {
        Some(t) => ChannelsView { scaling: Some(t), ..acc2 },
        None => acc2,
    };
    let pos1 = start + a.len();
    let pos2 = pos1 + b.len();
    lemma_channels_grouping(tags, c, rest);
    lemma_translation_step(s, start, limit, tags, none, c.translation, b + (d + rest));
    lemma_skip_past(s, start, a, b + (d + rest));
    lemma_rotation_step(s, pos1, limit, tags, acc1, c.rotation, d + rest);
    lemma_skip_past(s, pos1, b, d + rest);
    lemma_scaling_step(s, pos2, limit, tags, acc2, c.scaling, rest);
    assert(acc3 == c);
    assert(pos2 + d.len() == limit);
}

} // verus!
