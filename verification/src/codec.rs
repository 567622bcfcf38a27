//! What every record of the format has: a byte layout, a decoder, an encoder
//! and a size.

use vstd::prelude::*;
use vstd::slice::slice_subrange;
use crate::error::MdlxError;
use crate::primitives::{
    decoded, emit_u32, get_u32, le32, lemma_le32_len, lemma_splice_append, lemma_splice_nothing,
    splice, u32_at,
};

verus! {

/// A record with a fixed byte layout.
///
/// `parse` and `encoding` describe the layout mathematically, over the view of
/// the record; the three executable functions are held to that description.
pub trait Codec: View + Sized {
    /// The record at the start of `s` and the number of bytes it takes, or the
    /// reason why there is none.
    spec fn parse(s: Seq<u8>) -> Result<(Self::V, nat), MdlxError>;

    /// The bytes of a record.
    spec fn encoding(v: Self::V) -> Seq<u8>;

    /// Decodes the record at the start of `src`; returns it with the number of
    /// bytes it took.
    fn try_from_ctx(src: &[u8]) -> (r: Result<(Self, usize), MdlxError>)
        ensures
            decoded(r) == Self::parse(src@),
    ;

    /// The number of bytes of the record's encoding, unless that number
    /// exceeds the machine's address range.
    fn total_bytes_size(&self) -> (r: Option<usize>)
        ensures
            r matches Some(n) ==> n == Self::encoding(self@).len(),
            r is None ==> Self::encoding(self@).len() > usize::MAX,
    ;

    /// Writes the record's encoding to `offset` of `dst` and returns its
    /// length. Fails, leaving `dst` as it was, if and only if `dst` has too
    /// little room from `offset` on.
    fn try_into_ctx(&self, dst: &mut Vec<u8>, offset: usize) -> (r: Result<usize, MdlxError>)
        ensures
            r is Ok <==> offset + Self::encoding(self@).len() <= old(dst)@.len(),
            r matches Ok(n) ==> n == Self::encoding(self@).len() && final(dst)@ == splice(
                old(dst)@,
                offset as int,
                Self::encoding(self@),
            ),
            r matches Err(e) ==> e == MdlxError::BufferTooSmall && final(dst)@ == old(dst)@,
    ;

    /// A decoded record takes at least one byte and no more than there are.
    proof fn lemma_parse_bounds(s: Seq<u8>)
        ensures
            Self::parse(s) matches Ok((_, n)) ==> 0 < n <= s.len(),
    ;
}

/// The views of the items of a list, in order.
pub open spec fn views<T: View>(items: Seq<T>) -> Seq<T::V> {
    Seq::new(items.len(), |i: int| items[i]@)
}

/// The view of an optional item.
pub open spec fn opt_view<T: View>(item: Option<T>) -> Option<T::V> {
    match item {
        Some(t) => Some(t@),
        None => None,
    }
}

/// A record that states its own size, so that a list of such records needs
/// no count: the list ends where the stated sizes add up to the size of the
/// list.
pub trait SelfDelimited: Codec {
    /// The number of bytes that the record says it takes in its list.
    spec fn declared_size(v: Self::V) -> nat;

    /// The number of bytes that the record says it takes in its list.
    fn declared(&self) -> (r: u64)
        ensures
            r == Self::declared_size(self@),
            r <= u32::MAX + 8,
    ;
}

/// The bytes of a list of records, one after the other.
pub open spec fn list_encoding<T: Codec>(items: Seq<T::V>) -> Seq<u8>
    decreases items.len(),
{
    if items.len() == 0 {
        Seq::empty()
    } else {
        list_encoding::<T>(items.drop_last()) + T::encoding(items.last())
    }
}

/// The outcome of decoding a list, given the records in front that are
/// decoded already, the bytes they took, and the outcome for the rest.
pub open spec fn prepend<V>(
    front: Seq<V>,
    taken: nat,
    rest: Result<(Seq<V>, nat), MdlxError>,
) -> Result<(Seq<V>, nat), MdlxError> {
    match rest {
        Ok((items, n)) => Ok((front + items, taken + n)),
        Err(e) => Err(e),
    }
}

/// `count` records, one after the other from the start of `s`, and the
/// number of bytes they take.
pub open spec fn parse_count<T: Codec>(s: Seq<u8>, count: nat) -> Result<(Seq<T::V>, nat), MdlxError>
    decreases count,
{
    if count == 0 {
        Ok((Seq::empty(), 0))
    } else {
        match T::parse(s) {
            Err(e) => Err(e),
            Ok((v, n)) => prepend(seq![v], n, parse_count::<T>(s.skip(n as int), (count - 1) as nat)),
        }
    }
}

/// Records from the start of `s`, one after the other, until the sizes they
/// state, added to `total`, reach `limit`; and the number of bytes they take.
pub open spec fn parse_until<T: SelfDelimited>(s: Seq<u8>, total: nat, limit: nat) -> Result<
    (Seq<T::V>, nat),
    MdlxError,
>
    decreases s.len(),
{
    if total >= limit {
        Ok((Seq::empty(), 0))
    } else {
        match T::parse(s) {
            Err(e) => Err(e),
            Ok((v, n)) => {
                proof {
                    T::lemma_parse_bounds(s);
                }
                prepend(
                    seq![v],
                    n,
                    parse_until::<T>(s.skip(n as int), total + T::declared_size(v), limit),
                )
            },
        }
    }
}

/// The encoding of a list grows by the encoding of a record pushed behind it.
pub proof fn lemma_list_encoding_push<T: Codec>(items: Seq<T::V>, v: T::V)
    ensures
        list_encoding::<T>(items.push(v)) == list_encoding::<T>(items) + T::encoding(v),
{
    assert(items.push(v).drop_last() =~= items);
}

/// The encoding of the first `k` records is no longer than that of all.
pub proof fn lemma_list_encoding_prefix<T: Codec>(items: Seq<T::V>, k: int)
    requires
        0 <= k <= items.len(),
    ensures
        list_encoding::<T>(items.take(k)).len() <= list_encoding::<T>(items).len(),
    decreases items.len() - k,
{
    if k < items.len() {
        lemma_list_encoding_prefix::<T>(items, k + 1);
        assert(items.take(k + 1) =~= items.take(k).push(items[k]));
        lemma_list_encoding_push::<T>(items.take(k), items[k]);
    } else {
        assert(items.take(k) =~= items);
    }
}

/// Decodes `count` records from the start of `src`.
pub fn read_records<T: Codec>(src: &[u8], count: usize) -> (r: Result<(Vec<T>, usize), MdlxError>)
    ensures
        (match r {
            Ok((items, n)) => Ok((views(items@), n as nat)),
            Err(e) => Err(e),
        }) == parse_count::<T>(src@, count as nat),
{
    let end: usize = src.len();
    let mut items: Vec<T> = Vec::new();
    let mut pos: usize = 0;
    let mut i: usize = 0;
    proof {
        assert(src@.skip(0) =~= src@);
        assert(views(items@) =~= Seq::<T::V>::empty());
        match parse_count::<T>(src@, count as nat) {
            Ok((all, n)) => {
                assert(Seq::<T::V>::empty() + all =~= all);
            },
            Err(_) => {},
        }
    }
    while i < count
        invariant
            i <= count,
            pos <= src@.len() == end,
            parse_count::<T>(src@, count as nat) == prepend(
                views(items@),
                pos as nat,
                parse_count::<T>(src@.skip(pos as int), (count - i) as nat),
            ),
        decreases count - i,
    {
        let rest = slice_subrange(src, pos, end);
        match T::try_from_ctx(rest) {
            Err(e) => {
                return Err(e);
            },
            Ok((item, n)) => {
                proof {
                    T::lemma_parse_bounds(rest@);
                    assert(src@.skip(pos as int).skip(n as int) =~= src@.skip(pos + n));
                    let front = views(items@);
                    match parse_count::<T>(src@.skip(pos + n), (count - i - 1) as nat) {
                        Ok((tail, m)) => {
                            assert(front + (seq![item@] + tail) =~= front.push(item@) + tail);
                        },
                        Err(_) => {},
                    }
                    assert(views(items@.push(item)) =~= front.push(item@));
                }
                items.push(item);
                pos += n;
                i += 1;
            },
        }
    }
    proof {
        assert(views(items@) + Seq::<T::V>::empty() =~= views(items@));
    }
    Ok((items, pos))
}

/// Decodes records from the start of `src` until the sizes they state add up
/// to `limit` or more.
pub fn read_until<T: SelfDelimited>(src: &[u8], limit: u32) -> (r: Result<(Vec<T>, usize), MdlxError>)
    ensures
        (match r {
            Ok((items, n)) => Ok((views(items@), n as nat)),
            Err(e) => Err(e),
        }) == parse_until::<T>(src@, 0, limit as nat),
{
    let end: usize = src.len();
    let mut items: Vec<T> = Vec::new();
    let mut pos: usize = 0;
    let mut total: u64 = 0;
    proof {
        assert(src@.skip(0) =~= src@);
        assert(views(items@) =~= Seq::<T::V>::empty());
        match parse_until::<T>(src@, 0, limit as nat) {
            Ok((all, n)) => {
                assert(Seq::<T::V>::empty() + all =~= all);
            },
            Err(_) => {},
        }
    }
    while total < limit as u64
        invariant
            pos <= src@.len() == end,
            total <= 2 * u32::MAX + 8,
            parse_until::<T>(src@, 0, limit as nat) == prepend(
                views(items@),
                pos as nat,
                parse_until::<T>(src@.skip(pos as int), total as nat, limit as nat),
            ),
        decreases src@.len() - pos,
    {
        let rest = slice_subrange(src, pos, end);
        match T::try_from_ctx(rest) {
            Err(e) => {
                return Err(e);
            },
            Ok((item, n)) => {
                proof {
                    T::lemma_parse_bounds(rest@);
                    assert(src@.skip(pos as int).skip(n as int) =~= src@.skip(pos + n));
                    let front = views(items@);
                    match parse_until::<T>(
                        src@.skip(pos + n),
                        total as nat + T::declared_size(item@),
                        limit as nat,
                    ) {
                        Ok((tail, m)) => {
                            assert(front + (seq![item@] + tail) =~= front.push(item@) + tail);
                        },
                        Err(_) => {},
                    }
                    assert(views(items@.push(item)) =~= front.push(item@));
                }
                total = total + item.declared();
                items.push(item);
                pos += n;
            },
        }
    }
    proof {
        assert(views(items@) + Seq::<T::V>::empty() =~= views(items@));
    }
    Ok((items, pos))
}

/// The number of bytes of the encoding of a list of records, unless that
/// number exceeds the machine's address range.
pub fn list_size<T: Codec>(items: &Vec<T>) -> (r: Option<usize>)
    ensures
        r matches Some(n) ==> n == list_encoding::<T>(views(items@)).len(),
        r is None ==> list_encoding::<T>(views(items@)).len() > usize::MAX,
{
    let ghost all = views(items@);
    proof {
        assert(all.take(0) =~= Seq::<T::V>::empty());
    }
    let mut total: usize = 0;
    let mut i: usize = 0;
    while i < items.len()
        invariant
            i <= items@.len(),
            all == views(items@),
            total == list_encoding::<T>(all.take(i as int)).len(),
        decreases items@.len() - i,
    {
        proof {
            assert(all.take(i + 1) =~= all.take(i as int).push(items@[i as int]@));
            lemma_list_encoding_push::<T>(all.take(i as int), items@[i as int]@);
            lemma_list_encoding_prefix::<T>(all, i + 1);
        }
        let size = match items[i].total_bytes_size() {
            Some(n) => n,
            None => {
                return None;
            },
        };
        total = match total.checked_add(size) {
            Some(sum) => sum,
            None => {
                return None;
            },
        };
        i += 1;
    }
    proof {
        assert(all.take(i as int) =~= all);
    }
    Some(total)
}

/// Writes the encodings of `items`, one after the other, to `offset` of
/// `dst`, which has room for them; returns their total length.
pub(crate) fn write_list<T: Codec>(items: &Vec<T>, dst: &mut Vec<u8>, offset: usize) -> (n: usize)
    requires
        offset + list_encoding::<T>(views(items@)).len() <= old(dst)@.len(),
    ensures
        n == list_encoding::<T>(views(items@)).len(),
        final(dst)@ == splice(old(dst)@, offset as int, list_encoding::<T>(views(items@))),
{
    let ghost all = views(items@);
    assert(dst@.len() == dst.len());
    let mut pos: usize = offset;
    let mut i: usize = 0;
    proof {
        assert(all.take(0) =~= Seq::<T::V>::empty());
        assert(splice(dst@, offset as int, list_encoding::<T>(all.take(0))) =~= dst@);
    }
    while i < items.len()
        invariant
            i <= items@.len(),
            all == views(items@),
            offset + list_encoding::<T>(all).len() <= old(dst)@.len() <= usize::MAX,
            pos == offset + list_encoding::<T>(all.take(i as int)).len(),
            dst@ == splice(old(dst)@, offset as int, list_encoding::<T>(all.take(i as int))),
        decreases items@.len() - i,
    {
        proof {
            assert(all.take(i + 1) =~= all.take(i as int).push(items@[i as int]@));
            lemma_list_encoding_push::<T>(all.take(i as int), items@[i as int]@);
            lemma_list_encoding_prefix::<T>(all, i + 1);
            lemma_splice_append(
                old(dst)@,
                offset as int,
                list_encoding::<T>(all.take(i as int)),
                T::encoding(items@[i as int]@),
            );
        }
        match items[i].try_into_ctx(dst, pos) {
            Ok(n) => {
                pos += n;
            },
            Err(_) => {
                assert(false);
            },
        }
        i += 1;
    }
    proof {
        assert(all.take(i as int) =~= all);
    }
    pos - offset
}

/// A chunk that is a list of records, as a mathematical value: the size
/// field and the records.
pub struct ListView<V> {
    pub chunk_size: u32,
    pub data: Seq<V>,
}

/// The bytes of a list chunk: the size field, then the records.
pub open spec fn list_chunk_encoding<T: Codec>(v: ListView<T::V>) -> Seq<u8> {
    le32(v.chunk_size) + list_encoding::<T>(v.data)
}

/// The list chunk at the start of `s` whose records take `record` bytes
/// each: a size field, which has to be a multiple of `record`, then as many
/// records as the size field has room for.
pub open spec fn parse_fixed_list<T: Codec>(s: Seq<u8>, record: nat) -> Result<
    (ListView<T::V>, nat),
    MdlxError,
> {
    if s.len() < 4 {
        Err(MdlxError::UnexpectedEof)
    } else {
        let chunk_size = u32_at(s, 0);
        if record == 0 || chunk_size as nat % record != 0 {
            Err(MdlxError::MalformedChunkSize)
        } else {
            match parse_count::<T>(s.skip(4), chunk_size as nat / record) {
                Err(e) => Err(e),
                Ok((items, n)) => Ok((ListView { chunk_size, data: items }, 4 + n)),
            }
        }
    }
}

/// The list chunk at the start of `s` whose records state their own size: a
/// size field, then records until the sizes they state reach it.
pub open spec fn parse_sized_list<T: SelfDelimited>(s: Seq<u8>) -> Result<
    (ListView<T::V>, nat),
    MdlxError,
> {
    if s.len() < 4 {
        Err(MdlxError::UnexpectedEof)
    } else {
        let chunk_size = u32_at(s, 0);
        match parse_until::<T>(s.skip(4), 0, chunk_size as nat) {
            Err(e) => Err(e),
            Ok((items, n)) => Ok((ListView { chunk_size, data: items }, 4 + n)),
        }
    }
}

/// A decoded list of `count` records has `count` records and takes no more
/// bytes than there are.
pub proof fn lemma_parse_count_bounds<T: Codec>(s: Seq<u8>, count: nat)
    ensures
        parse_count::<T>(s, count) matches Ok((items, n)) ==> n <= s.len() && items.len() == count,
    decreases count,
{
    if count > 0 {
        if let Ok((v, n)) = T::parse(s) {
            T::lemma_parse_bounds(s);
            lemma_parse_count_bounds::<T>(s.skip(n as int), (count - 1) as nat);
        }
    }
}

/// A decoded list of self-delimited records takes no more bytes than there are.
pub proof fn lemma_parse_until_bounds<T: SelfDelimited>(s: Seq<u8>, total: nat, limit: nat)
    ensures
        parse_until::<T>(s, total, limit) matches Ok((_, n)) ==> n <= s.len(),
    decreases s.len(),
{
    if total < limit {
        if let Ok((v, n)) = T::parse(s) {
            T::lemma_parse_bounds(s);
            lemma_parse_until_bounds::<T>(s.skip(n as int), total + T::declared_size(v), limit);
        }
    }
}

/// Decodes a list chunk of records of `record` bytes each; returns the size
/// field, the records and the number of bytes taken.
pub fn read_fixed_list<T: Codec>(src: &[u8], record: u32) -> (r: Result<
    (u32, Vec<T>, usize),
    MdlxError,
>)
    ensures
        (match r {
            Ok((chunk_size, items, n)) => Ok((ListView { chunk_size, data: views(items@) }, n as nat)),
            Err(e) => Err(e),
        }) == parse_fixed_list::<T>(src@, record as nat),
{
    let end: usize = src.len();
    if end < 4 {
        return Err(MdlxError::UnexpectedEof);
    }
    let chunk_size = get_u32(src, 0);
    if record == 0 || chunk_size % record != 0 {
        return Err(MdlxError::MalformedChunkSize);
    }
    let count = (chunk_size / record) as usize;
    match read_records::<T>(slice_subrange(src, 4, end), count) {
        Err(e) => Err(e),
        Ok((items, n)) => {
            proof {
                lemma_parse_count_bounds::<T>(src@.skip(4), count as nat);
            }
            Ok((chunk_size, items, 4 + n))
        },
    }
}

/// Decodes a list chunk of self-delimited records; returns the size field,
/// the records and the number of bytes taken.
pub fn read_sized_list<T: SelfDelimited>(src: &[u8]) -> (r: Result<(u32, Vec<T>, usize), MdlxError>)
    ensures
        (match r {
            Ok((chunk_size, items, n)) => Ok((ListView { chunk_size, data: views(items@) }, n as nat)),
            Err(e) => Err(e),
        }) == parse_sized_list::<T>(src@),
{
    let end: usize = src.len();
    if end < 4 {
        return Err(MdlxError::UnexpectedEof);
    }
    let chunk_size = get_u32(src, 0);
    match read_until::<T>(slice_subrange(src, 4, end), chunk_size) {
        Err(e) => Err(e),
        Ok((items, n)) => {
            proof {
                lemma_parse_until_bounds::<T>(src@.skip(4), 0, chunk_size as nat);
            }
            Ok((chunk_size, items, 4 + n))
        },
    }
}

/// The number of bytes of the encoding of a list chunk, unless that number
/// exceeds the machine's address range.
pub fn list_chunk_size<T: Codec>(chunk_size: u32, items: &Vec<T>) -> (r: Option<usize>)
    ensures
        r matches Some(n) ==> n == list_chunk_encoding::<T>(
            ListView { chunk_size, data: views(items@) },
        ).len(),
        r is None ==> list_chunk_encoding::<T>(ListView { chunk_size, data: views(items@) }).len()
            > usize::MAX,
{
    proof {
        lemma_le32_len(chunk_size);
    }
    match list_size::<T>(items) {
        Some(n) => n.checked_add(4),
        None => None,
    }
}

/// The number of bytes of the records of a list, as the size field of their
/// chunk has to state it; fails if and only if that number does not fit the
/// field.
pub fn list_payload<T: Codec>(items: &Vec<T>) -> (r: Result<u32, MdlxError>)
    ensures
        r is Ok <==> list_encoding::<T>(views(items@)).len() <= u32::MAX,
        r matches Ok(n) ==> n == list_encoding::<T>(views(items@)).len(),
        r matches Err(e) ==> e == MdlxError::TooLarge,
{
    match list_size::<T>(items) {
        Some(n) => {
            if n <= u32::MAX as usize {
                Ok(n as u32)
            } else {
                Err(MdlxError::TooLarge)
            }
        },
        None => Err(MdlxError::TooLarge),
    }
}

/// Writes a list chunk to `offset` of `dst` and returns its length. Fails,
/// leaving `dst` as it was, if and only if `dst` has too little room.
pub fn write_list_chunk<T: Codec>(chunk_size: u32, items: &Vec<T>, dst: &mut Vec<u8>, offset: usize) -> (r:
    Result<usize, MdlxError>)
    ensures
        r is Ok <==> offset + list_chunk_encoding::<T>(
            ListView { chunk_size, data: views(items@) },
        ).len() <= old(dst)@.len(),
        r matches Ok(n) ==> n == list_chunk_encoding::<T>(
            ListView { chunk_size, data: views(items@) },
        ).len() && final(dst)@ == splice(
            old(dst)@,
            offset as int,
            list_chunk_encoding::<T>(ListView { chunk_size, data: views(items@) }),
        ),
        r matches Err(e) ==> e == MdlxError::BufferTooSmall && final(dst)@ == old(dst)@,
{
    let room: usize = dst.len();
    let size = match list_chunk_size::<T>(chunk_size, items) {
        Some(size) => size,
        None => {
            return Err(MdlxError::BufferTooSmall);
        },
    };
    if offset > room || room - offset < size {
        return Err(MdlxError::BufferTooSmall);
    }
    let ghost base = dst@;
    proof {
        lemma_le32_len(chunk_size);
        lemma_splice_nothing(base, offset as int);
    }
    let pos = emit_u32(dst, Ghost(base), Ghost(Seq::empty()), offset, offset, chunk_size);
    proof {
        assert(Seq::<u8>::empty() + le32(chunk_size) =~= le32(chunk_size));
        lemma_splice_append(base, offset as int, le32(chunk_size), list_encoding::<T>(views(items@)));
    }
    write_list::<T>(items, dst, pos);
    Ok(size)
}

/// A top-level chunk: a record that starts with a size field, which states
/// the number of bytes that follow it.
pub trait Chunk: Codec {
    /// The number of bytes that follow the size field in the chunk's encoding.
    spec fn payload_len(v: Self::V) -> nat;

    /// The chunk with its size field set to the number of bytes that follow it.
    spec fn resized(v: Self::V) -> Self::V;

    /// Whether the size field can state the number of bytes that follow it.
    fn payload_fits(&self) -> (r: bool)
        ensures
            r == (Self::payload_len(self@) <= u32::MAX),
    ;

    /// Sets the size field to the number of bytes that follow it. Fails,
    /// leaving the chunk as it was, if and only if that number does not fit
    /// the field.
    fn calculate_chunk_size(&mut self) -> (r: Result<(), MdlxError>)
        ensures
            r is Ok <==> Self::payload_len(old(self)@) <= u32::MAX,
            r is Ok ==> final(self)@ == Self::resized(old(self)@),
            r matches Err(e) ==> e == MdlxError::TooLarge && final(self)@ == old(self)@,
    ;

    /// The size field takes four bytes, and setting it changes no length.
    proof fn lemma_payload_len(v: Self::V)
        ensures
            Self::encoding(v).len() == 4 + Self::payload_len(v),
            Self::payload_len(Self::resized(v)) == Self::payload_len(v),
    ;
}

/// The bytes of an optional chunk of a file: its tag and its encoding when
/// it is present, nothing when it is absent.
pub open spec fn chunk_bytes<T: Codec>(tag: u32, chunk: Option<T::V>) -> Seq<u8> {
    match chunk {
        Some(v) => le32(tag) + T::encoding(v),
        None => Seq::empty(),
    }
}

/// The size field of an optional chunk can state the number of bytes that
/// follow it; true of an absent chunk.
pub open spec fn chunk_fits<T: Chunk>(chunk: Option<T::V>) -> bool {
    match chunk {
        Some(v) => T::payload_len(v) <= u32::MAX,
        None => true,
    }
}

/// An optional chunk with its size field set to the number of bytes that
/// follow it.
pub open spec fn chunk_resized<T: Chunk>(chunk: Option<T::V>) -> Option<T::V> {
    match chunk {
        Some(v) => Some(T::resized(v)),
        None => None,
    }
}

/// The number of bytes that an optional chunk takes in a file, tag
/// included, unless that number exceeds the machine's address range.
pub fn chunk_size<T: Codec>(tag: u32, chunk: &Option<T>) -> (r: Option<usize>)
    ensures
        r matches Some(n) ==> n == chunk_bytes::<T>(tag, opt_view(*chunk)).len(),
        r is None ==> chunk_bytes::<T>(tag, opt_view(*chunk)).len() > usize::MAX,
{
    proof {
        lemma_le32_len(tag);
    }
    match chunk {
        Some(c) => match c.total_bytes_size() {
            Some(n) => n.checked_add(4),
            None => None,
        },
        None => Some(0),
    }
}

/// Whether the size field of an optional chunk can state the number of bytes
/// that follow it.
pub fn chunk_payload_fits<T: Chunk>(chunk: &Option<T>) -> (r: bool)
    ensures
        r == chunk_fits::<T>(opt_view(*chunk)),
{
    match chunk {
        Some(c) => c.payload_fits(),
        None => true,
    }
}

/// Sets the size field of an optional chunk to the number of bytes that
/// follow it. Fails, leaving the chunk as it was, if and only if that number
/// does not fit the field.
pub fn resize_chunk<T: Chunk>(chunk: &mut Option<T>) -> (r: Result<(), MdlxError>)
    ensures
        r is Ok <==> chunk_fits::<T>(opt_view(*old(chunk))),
        r is Ok ==> opt_view(*final(chunk)) == chunk_resized::<T>(opt_view(*old(chunk))),
        r matches Err(e) ==> e == MdlxError::TooLarge && opt_view(*final(chunk)) == opt_view(
            *old(chunk),
        ),
{
    match chunk {
        Some(c) => c.calculate_chunk_size(),
        None => Ok(()),
    }
}

/// Appends an optional chunk, behind its tag, to what has been written from
/// `start` of `dst` on.
pub(crate) fn emit_chunk<T: Codec>(
    dst: &mut Vec<u8>,
    Ghost(base): Ghost<Seq<u8>>,
    Ghost(acc): Ghost<Seq<u8>>,
    start: usize,
    pos: usize,
    tag: u32,
    chunk: &Option<T>,
) -> (next: usize)
    requires
        old(dst)@ == splice(base, start as int, acc),
        pos == start + acc.len(),
        pos + chunk_bytes::<T>(tag, opt_view(*chunk)).len() <= base.len(),
    ensures
        final(dst)@ == splice(base, start as int, acc + chunk_bytes::<T>(tag, opt_view(*chunk))),
        next == pos + chunk_bytes::<T>(tag, opt_view(*chunk)).len(),
{
    match chunk {
        Some(c) => {
            proof {
                lemma_le32_len(tag);
                lemma_splice_append(base, start as int, acc + le32(tag), T::encoding(c@));
                assert(acc + le32(tag) + T::encoding(c@) =~= acc + chunk_bytes::<T>(
                    tag,
                    opt_view(*chunk),
                ));
            }
            assert(dst@.len() == dst.len());
            let body = emit_u32(dst, Ghost(base), Ghost(acc), start, pos, tag);
            match c.try_into_ctx(dst, body) {
                Ok(n) => body + n,
                Err(_) => {
                    assert(false);
                    body
                },
            }
        },
        None => {
            assert(acc + chunk_bytes::<T>(tag, opt_view(*chunk)) =~= acc);
            pos
        },
    }
}

/// Decodes the chunk that starts at `offset` of `data`; returns it with the
/// offset behind it. Fails if `offset` lies behind the end of `data`.
pub fn read_chunk<T: Codec>(data: &[u8], offset: usize) -> (r: Result<(T, usize), MdlxError>)
    ensures
        offset <= data@.len() ==> (match r {
            Ok((chunk, next)) => Ok((chunk@, (next - offset) as nat)),
            Err(e) => Err(e),
        }) == T::parse(data@.skip(offset as int)),
        data@.len() < offset ==> r == Err::<(T, usize), MdlxError>(MdlxError::UnexpectedEof),
        r matches Ok((_, next)) ==> offset < next <= data@.len(),
{
    let end: usize = data.len();
    if offset > end {
        return Err(MdlxError::UnexpectedEof);
    }
    let body = slice_subrange(data, offset, end);
    proof {
        T::lemma_parse_bounds(body@);
    }
    match T::try_from_ctx(body) {
        Ok((chunk, n)) => Ok((chunk, offset + n)),
        Err(e) => Err(e),
    }
}

/// A record whose decoder undoes its encoder.
pub trait Lossless: Codec {
    /// The record's fields agree with each other the way a decoder leaves
    /// them: names fit their fields, counts and sizes say what is there.
    spec fn well_formed(v: Self::V) -> bool;

    /// The size fields of the record, and of the records it holds, state
    /// what is there. This is the part of being well formed that a decoder
    /// does not see to: it takes the sizes as the file states them.
    spec fn sizes_right(v: Self::V) -> bool;

    /// A decoded record is well formed if its sizes are right.
    proof fn lemma_parsed(s: Seq<u8>)
        ensures
            Self::parse(s) matches Ok((v, _)) ==> (Self::sizes_right(v) ==> Self::well_formed(v)),
    ;

    /// Decoding the encoding of a well-formed record gives the record back,
    /// whatever follows it.
    proof fn lemma_round_trip(v: Self::V, rest: Seq<u8>)
        requires
            Self::well_formed(v),
        ensures
            Self::parse(Self::encoding(v) + rest) == Ok::<(Self::V, nat), MdlxError>(
                (v, Self::encoding(v).len()),
            ),
    ;
}

/// The encoding of a list is the encoding of its first record followed by
/// that of the others.
pub proof fn lemma_list_encoding_front<T: Codec>(v: T::V, tail: Seq<T::V>)
    ensures
        list_encoding::<T>(seq![v] + tail) == T::encoding(v) + list_encoding::<T>(tail),
    decreases tail.len(),
{
    let all = seq![v] + tail;
    if tail.len() == 0 {
        assert(all.drop_last() =~= Seq::<T::V>::empty());
        assert(list_encoding::<T>(Seq::<T::V>::empty()) =~= Seq::<u8>::empty());
        assert(all.last() == v);
        assert(tail =~= Seq::<T::V>::empty());
        assert(list_encoding::<T>(all) =~= T::encoding(v));
        assert(T::encoding(v) + list_encoding::<T>(tail) =~= T::encoding(v));
    } else {
        lemma_list_encoding_front::<T>(v, tail.drop_last());
        assert(all.drop_last() =~= seq![v] + tail.drop_last());
        assert(all.last() == tail.last());
        assert(list_encoding::<T>(all) =~= T::encoding(v) + list_encoding::<T>(tail));
    }
}

/// Decoding as many records as a list of well-formed records has from the
/// list's encoding gives the list back, whatever follows it.
pub proof fn lemma_count_round_trip<T: Lossless>(items: Seq<T::V>, rest: Seq<u8>)
    requires
        forall|i: int| 0 <= i < items.len() ==> T::well_formed(#[trigger] items[i]),
    ensures
        parse_count::<T>(list_encoding::<T>(items) + rest, items.len()) == Ok::<
            (Seq<T::V>, nat),
            MdlxError,
        >((items, list_encoding::<T>(items).len())),
    decreases items.len(),
{
    if items.len() > 0 {
        let first = items[0];
        let tail = items.drop_first();
        let s = list_encoding::<T>(items) + rest;
        assert(items =~= seq![first] + tail);
        lemma_list_encoding_front::<T>(first, tail);
        assert(s =~= T::encoding(first) + (list_encoding::<T>(tail) + rest));
        T::lemma_round_trip(first, list_encoding::<T>(tail) + rest);
        assert(s.skip(T::encoding(first).len() as int) =~= list_encoding::<T>(tail) + rest);
        lemma_count_round_trip::<T>(tail, rest);
    } else {
        assert(items =~= Seq::<T::V>::empty());
    }
}

/// Decoding records, until the sizes they state reach the size of the list,
/// from the encoding of a list of well-formed records that state their
/// sizes right gives the list back, whatever follows it.
pub proof fn lemma_until_round_trip<T: Lossless + SelfDelimited>(
    items: Seq<T::V>,
    rest: Seq<u8>,
    total: nat,
    limit: nat,
)
    requires
        forall|i: int| 0 <= i < items.len() ==> T::well_formed(#[trigger] items[i]),
        forall|i: int|
            0 <= i < items.len() ==> T::declared_size(#[trigger] items[i]) == T::encoding(
                items[i],
            ).len(),
        total + list_encoding::<T>(items).len() == limit,
    ensures
        parse_until::<T>(list_encoding::<T>(items) + rest, total, limit) == Ok::<
            (Seq<T::V>, nat),
            MdlxError,
        >((items, list_encoding::<T>(items).len())),
    decreases items.len(),
{
    if items.len() > 0 {
        let first = items[0];
        let tail = items.drop_first();
        let s = list_encoding::<T>(items) + rest;
        assert(items =~= seq![first] + tail);
        lemma_list_encoding_front::<T>(first, tail);
        assert(s =~= T::encoding(first) + (list_encoding::<T>(tail) + rest));
        T::lemma_round_trip(first, list_encoding::<T>(tail) + rest);
        T::lemma_parse_bounds(s);
        assert(s.skip(T::encoding(first).len() as int) =~= list_encoding::<T>(tail) + rest);
        lemma_until_round_trip::<T>(tail, rest, total + T::declared_size(first), limit);
    } else {
        assert(items =~= Seq::<T::V>::empty());
    }
}

/// The encoding of a list of records of `size` bytes each takes `size`
/// bytes for each record.
pub proof fn lemma_fixed_list_len<T: Codec>(items: Seq<T::V>, size: nat)
    requires
        forall|i: int| 0 <= i < items.len() ==> T::encoding(#[trigger] items[i]).len() == size,
    ensures
        list_encoding::<T>(items).len() == items.len() * size,
    decreases items.len(),
{
    if items.len() > 0 {
        lemma_fixed_list_len::<T>(items.drop_last(), size);
        assert((items.len() - 1) * size + size == items.len() * size) by (nonlinear_arith);
    } else {
        assert(items.len() * size == 0) by (nonlinear_arith)
            requires
                items.len() == 0,
        ;
    }
}

/// A list chunk of well-formed records of `record` bytes each, whose size
/// field states the size of the records, is decoded from its encoding as it
/// was, whatever follows it.
pub proof fn lemma_fixed_list_round_trip<T: Lossless>(v: ListView<T::V>, record: nat, rest: Seq<u8>)
    requires
        0 < record,
        forall|i: int| 0 <= i < v.data.len() ==> T::well_formed(#[trigger] v.data[i]),
        forall|i: int| 0 <= i < v.data.len() ==> T::encoding(#[trigger] v.data[i]).len() == record,
        v.chunk_size == list_encoding::<T>(v.data).len(),
    ensures
        parse_fixed_list::<T>(list_chunk_encoding::<T>(v) + rest, record) == Ok::<
            (ListView<T::V>, nat),
            MdlxError,
        >((v, list_chunk_encoding::<T>(v).len())),
{
    let s = list_chunk_encoding::<T>(v) + rest;
    lemma_le32_len(v.chunk_size);
    assert(s.subrange(0, 4) =~= le32(v.chunk_size));
    crate::primitives::lemma_u32_at_le32(s, 0, v.chunk_size);
    lemma_fixed_list_len::<T>(v.data, record);
    let count = v.data.len();
    assert((count * record) % record == 0 && (count * record) / record == count) by (nonlinear_arith)
        requires
            0 < record,
    ;
    assert(s.skip(4) =~= list_encoding::<T>(v.data) + rest);
    lemma_count_round_trip::<T>(v.data, rest);
}

/// A list chunk of well-formed records that state their sizes right, whose
/// size field states the size of the records, is decoded from its encoding
/// as it was, whatever follows it.
pub proof fn lemma_sized_list_round_trip<T: Lossless + SelfDelimited>(v: ListView<T::V>, rest: Seq<u8>)
    requires
        forall|i: int| 0 <= i < v.data.len() ==> T::well_formed(#[trigger] v.data[i]),
        forall|i: int|
            0 <= i < v.data.len() ==> T::declared_size(#[trigger] v.data[i]) == T::encoding(
                v.data[i],
            ).len(),
        v.chunk_size == list_encoding::<T>(v.data).len(),
    ensures
        parse_sized_list::<T>(list_chunk_encoding::<T>(v) + rest) == Ok::<
            (ListView<T::V>, nat),
            MdlxError,
        >((v, list_chunk_encoding::<T>(v).len())),
{
    let s = list_chunk_encoding::<T>(v) + rest;
    lemma_le32_len(v.chunk_size);
    assert(s.subrange(0, 4) =~= le32(v.chunk_size));
    crate::primitives::lemma_u32_at_le32(s, 0, v.chunk_size);
    assert(s.skip(4) =~= list_encoding::<T>(v.data) + rest);
    lemma_until_round_trip::<T>(v.data, rest, 0, v.chunk_size as nat);
}

/// Each record of a list that is decoded by count is well formed if its
/// sizes are right.
pub proof fn lemma_count_parsed<T: Lossless>(s: Seq<u8>, count: nat)
    ensures
        parse_count::<T>(s, count) matches Ok((items, _)) ==> forall|i: int|
            0 <= i < items.len() ==> (T::sizes_right(#[trigger] items[i]) ==> T::well_formed(items[i])),
    decreases count,
{
    if count > 0 {
        if let Ok((v, n)) = T::parse(s) {
            T::lemma_parsed(s);
            lemma_count_parsed::<T>(s.skip(n as int), (count - 1) as nat);
        }
    }
}

/// Each record of a list that is decoded by size is well formed if its
/// sizes are right.
pub proof fn lemma_until_parsed<T: Lossless + SelfDelimited>(s: Seq<u8>, total: nat, limit: nat)
    ensures
        parse_until::<T>(s, total, limit) matches Ok((items, _)) ==> forall|i: int|
            0 <= i < items.len() ==> (T::sizes_right(#[trigger] items[i]) ==> T::well_formed(items[i])),
    decreases s.len(),
{
    if total < limit {
        if let Ok((v, n)) = T::parse(s) {
            T::lemma_parsed(s);
            T::lemma_parse_bounds(s);
            lemma_until_parsed::<T>(s.skip(n as int), total + T::declared_size(v), limit);
        }
    }
}

/// A decoded list chunk of records of `record` bytes each, whose records
/// are well formed and take `record` bytes when they are, is well formed:
/// its size field states the size of its records.
pub proof fn lemma_fixed_list_parsed<T: Lossless>(s: Seq<u8>, record: nat)
    requires
        0 < record,
        forall|v: T::V| #[trigger] T::well_formed(v) ==> T::encoding(v).len() == record,
        forall|v: T::V| #[trigger] T::sizes_right(v),
    ensures
        parse_fixed_list::<T>(s, record) matches Ok((v, _)) ==> {
            &&& forall|i: int| 0 <= i < v.data.len() ==> T::well_formed(#[trigger] v.data[i])
            &&& v.chunk_size == list_encoding::<T>(v.data).len()
        },
{
    if let Ok((v, _)) = parse_fixed_list::<T>(s, record) {
        let count = v.chunk_size as nat / record;
        lemma_count_parsed::<T>(s.skip(4), count);
        lemma_parse_count_bounds::<T>(s.skip(4), count);
        assert forall|i: int| 0 <= i < v.data.len() implies T::well_formed(#[trigger] v.data[i]) by {
            assert(T::sizes_right(v.data[i]));
        }
        lemma_fixed_list_len::<T>(v.data, record);
        assert(count * record == v.chunk_size) by (nonlinear_arith)
            requires
                0 < record,
                v.chunk_size as nat % record == 0,
                count == v.chunk_size as nat / record,
        ;
    }
}

} // verus!
