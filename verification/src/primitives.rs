//! Little-endian scalars, fixed-width name fields and raw byte runs at
//! explicit offsets of a byte buffer.
//!
//! The reads and writes themselves are done by the `scroll` crate; the
//! functions of this module that call it state what `scroll` does and are
//! believed, not proved. Everything else is proved from them.

use vstd::prelude::*;
use vstd::bytes::*;
use vstd::utf8::*;
use vstd::string::*;
use vstd::slice::*;
use scroll::{LE, Pread, Pwrite};
use crate::error::MdlxError;

verus! {

#[verifier::external_type_specification]
#[verifier::external_body]
pub struct ExScrollError(scroll::Error);

/// The four bytes that hold `value`, least significant byte first.
pub open spec fn le32(value: u32) -> Seq<u8> {
    spec_u32_to_le_bytes(value)
}

/// The 32-bit value held by the four bytes of `s` that start at `pos`.
pub open spec fn u32_at(s: Seq<u8>, pos: int) -> u32 {
    spec_u32_from_le_bytes(s.subrange(pos, pos + 4))
}

/// `buf` with the bytes from `pos` on replaced by `bytes`.
pub open spec fn splice(buf: Seq<u8>, pos: int, bytes: Seq<u8>) -> Seq<u8> {
    buf.subrange(0, pos) + bytes + buf.subrange(pos + bytes.len(), buf.len() as int)
}

/// `n` zero bytes.
pub open spec fn zeros(n: nat) -> Seq<u8> {
    Seq::new(n, |i: int| 0u8)
}

/// The bytes of `field` before its first zero byte; all of them if there is none.
pub open spec fn name_content(field: Seq<u8>) -> Seq<u8>
    decreases field.len(),
{
    if field.len() == 0 || field[0] == 0 {
        Seq::empty()
    } else {
        seq![field[0]] + name_content(field.skip(1))
    }
}

/// What reading a 32-bit value at `pos` of `s` gives.
pub open spec fn parse_u32(s: Seq<u8>, pos: int) -> Result<u32, MdlxError> {
    if 0 <= pos && pos + 4 <= s.len() {
        Ok(u32_at(s, pos))
    } else {
        Err(MdlxError::UnexpectedEof)
    }
}

/// What decoding a name field gives: the text before the first zero byte.
pub open spec fn parse_name(field: Seq<u8>) -> Result<Seq<char>, MdlxError> {
    if valid_utf8(name_content(field)) {
        Ok(decode_utf8(name_content(field)))
    } else {
        Err(MdlxError::InvalidName)
    }
}

/// A name field of `width` bytes: the UTF-8 bytes of `name`, cut to `width`
/// bytes if there are more, and filled up with zero bytes if there are fewer.
pub open spec fn name_field(name: Seq<char>, width: nat) -> Seq<u8> {
    let bytes = encode_utf8(name);
    if bytes.len() >= width {
        bytes.take(width as int)
    } else {
        bytes + zeros((width - bytes.len()) as nat)
    }
}

/// A name survives a round trip through a field of `width` bytes when its
/// UTF-8 form fits the field and holds no zero byte.
pub open spec fn name_fits(name: Seq<char>, width: nat) -> bool {
    &&& encode_utf8(name).len() <= width
    &&& !encode_utf8(name).contains(0u8)
}

/// Calls `scroll`'s `pread_with::<u32>` with the little-endian context.
///
/// `scroll` refuses an offset at or behind the end of `src` and a source with
/// fewer than four bytes from `offset` on; otherwise it returns the value whose
/// little-endian bytes are the four bytes at `offset`.
#[verifier::external_body]
fn scroll_read_u32(src: &[u8], offset: usize) -> (r: Result<u32, scroll::Error>)
    ensures
        r is Ok <==> offset + 4 <= src@.len(),
        r matches Ok(v) ==> v == u32_at(src@, offset as int),
{
    src.pread_with::<u32>(offset, LE)
}

/// Calls `scroll`'s `pwrite_with::<u32>` with the little-endian context.
///
/// `scroll` refuses an offset at or behind the end of `dst` and a destination
/// with fewer than four bytes from `offset` on, and then leaves `dst` as it
/// was; otherwise it stores the four little-endian bytes of `value` at
/// `offset` and returns their number.
#[verifier::external_body]
fn scroll_write_u32(dst: &mut Vec<u8>, value: u32, offset: usize) -> (r: Result<usize, scroll::Error>)
    ensures
        r is Ok <==> offset + 4 <= old(dst)@.len(),
        r matches Ok(n) ==> n == 4 && final(dst)@ == splice(old(dst)@, offset as int, le32(value)),
        r is Err ==> final(dst)@ == old(dst)@,
{
    dst.pwrite_with::<u32>(value, offset, LE)
}

/// Calls `scroll`'s `pread::<&str>` at offset 0, with its default context:
/// a string that ends before the first zero byte.
///
/// `scroll` refuses an empty source. Otherwise it takes the bytes before the
/// first zero byte (all bytes, if none is zero) and hands them to
/// `std::str::from_utf8`: it returns them as text if they are valid UTF-8, in
/// the sense in which `vstd` describes UTF-8, and an error if they are not.
#[verifier::external_body]
fn scroll_read_str(field: &[u8]) -> (r: Result<String, scroll::Error>)
    ensures
        r is Ok <==> (0 < field@.len() && valid_utf8(name_content(field@))),
        r matches Ok(s) ==> s@ == decode_utf8(name_content(field@)),
{
    match field.pread::<&str>(0) {
        Ok(text) => Ok(text.to_string()),
        Err(e) => Err(e),
    }
}

/// Calls `scroll`'s `pwrite::<&[u8]>`.
///
/// `scroll` refuses an offset at or behind the end of `dst` and a destination
/// with fewer bytes from `offset` on than `bytes` has, and then leaves `dst`
/// as it was; otherwise it copies `bytes` to `offset` and returns their number.
#[verifier::external_body]
fn scroll_write_bytes(dst: &mut Vec<u8>, bytes: &[u8], offset: usize) -> (r: Result<usize, scroll::Error>)
    ensures
        r is Ok <==> (offset < old(dst)@.len() && offset + bytes@.len() <= old(dst)@.len()),
        r matches Ok(n) ==> n == bytes@.len() && final(dst)@ == splice(old(dst)@, offset as int, bytes@),
        r is Err ==> final(dst)@ == old(dst)@,
{
    dst.pwrite::<&[u8]>(bytes, offset)
}

/// Calls `scroll`'s `gread_inout_with::<u8>` on a fresh buffer of `count` bytes.
///
/// `scroll` fills the buffer byte by byte from `offset` on, which succeeds
/// when the source holds `count` bytes from there on.
#[verifier::external_body]
fn scroll_read_bytes(src: &[u8], offset: usize, count: usize) -> (r: Result<Vec<u8>, scroll::Error>)
    requires
        offset + count <= src@.len(),
    ensures
        r is Ok,
        r matches Ok(v) ==> v@ == src@.subrange(offset as int, offset + count),
{
    let mut out = vec![0u8; count];
    let mut cursor = offset;
    match src.gread_inout_with(&mut cursor, &mut out, LE) {
        Ok(()) => Ok(out),
        Err(e) => Err(e),
    }
}

/// The values held by `n` consecutive 32-bit fields of `s` that start at `pos`.
pub open spec fn words_at(s: Seq<u8>, pos: int, n: nat) -> Seq<u32> {
    Seq::new(n, |i: int| u32_at(s, pos + 4 * i))
}

/// The bytes of consecutive 32-bit fields that hold `words`.
pub open spec fn words_le(words: Seq<u32>) -> Seq<u8>
    decreases words.len(),
{
    if words.len() == 0 {
        Seq::empty()
    } else {
        words_le(words.drop_last()) + le32(words.last())
    }
}

/// What reading `n` consecutive 32-bit values at `pos` of `s` gives.
pub open spec fn parse_words(s: Seq<u8>, pos: int, n: nat) -> Result<Seq<u32>, MdlxError> {
    if 0 <= pos && pos + 4 * n <= s.len() {
        Ok(words_at(s, pos, n))
    } else {
        Err(MdlxError::UnexpectedEof)
    }
}

/// What decoding the name field of `width` bytes at `pos` of `s` gives.
pub open spec fn parse_name_at(s: Seq<u8>, pos: int, width: nat) -> Result<Seq<char>, MdlxError> {
    if 0 <= pos && pos + width <= s.len() {
        parse_name(s.subrange(pos, pos + width))
    } else {
        Err(MdlxError::UnexpectedEof)
    }
}

/// What reading `count` raw bytes at `pos` of `s` gives.
pub open spec fn parse_bytes(s: Seq<u8>, pos: int, count: nat) -> Result<Seq<u8>, MdlxError> {
    if 0 <= pos && pos + count <= s.len() {
        Ok(s.subrange(pos, pos + count))
    } else {
        Err(MdlxError::UnexpectedEof)
    }
}

pub proof fn lemma_le32_len(value: u32)
    ensures
        le32(value).len() == 4,
{
    lemma_auto_spec_u32_to_from_le_bytes();
}

pub proof fn lemma_words_le_len(words: Seq<u32>)
    ensures
        words_le(words).len() == 4 * words.len(),
    decreases words.len(),
{
    if words.len() > 0 {
        lemma_words_le_len(words.drop_last());
        lemma_le32_len(words.last());
    }
}

/// Writing `b` right behind `a` is writing `a + b`.
pub proof fn lemma_splice_append(buf: Seq<u8>, pos: int, a: Seq<u8>, b: Seq<u8>)
    requires
        0 <= pos,
        pos + a.len() + b.len() <= buf.len(),
    ensures
        splice(splice(buf, pos, a), pos + a.len(), b) == splice(buf, pos, a + b),
        splice(buf, pos, a).len() == buf.len(),
{
    assert(splice(splice(buf, pos, a), pos + a.len(), b) =~= splice(buf, pos, a + b));
}

/// Reads the little-endian 32-bit value at `offset` of `src`.
pub fn read_u32(src: &[u8], offset: usize) -> (r: Result<u32, MdlxError>)
    ensures
        r == parse_u32(src@, offset as int),
{
    match scroll_read_u32(src, offset) {
        Ok(v) => Ok(v),
        Err(_) => Err(MdlxError::UnexpectedEof),
    }
}

/// Stores `value` as four little-endian bytes at `offset` of `dst`.
pub fn write_u32(dst: &mut Vec<u8>, value: u32, offset: usize) -> (r: Result<(), MdlxError>)
    ensures
        r is Ok <==> offset + 4 <= old(dst)@.len(),
        r is Ok ==> final(dst)@ == splice(old(dst)@, offset as int, le32(value)),
        r matches Err(e) ==> e == MdlxError::BufferTooSmall && final(dst)@ == old(dst)@,
{
    match scroll_write_u32(dst, value, offset) {
        Ok(_) => Ok(()),
        Err(_) => Err(MdlxError::BufferTooSmall),
    }
}

/// Reads `N` consecutive little-endian 32-bit values at `offset` of `src`.
pub fn read_words<const N: usize>(src: &[u8], offset: usize) -> (r: Result<[u32; N], MdlxError>)
    ensures
        r matches Ok(a) ==> parse_words(src@, offset as int, N as nat) == Ok::<Seq<u32>, MdlxError>(a@),
        r matches Err(e) ==> parse_words(src@, offset as int, N as nat) == Err::<Seq<u32>, MdlxError>(e),
{
    if offset > src.len() || (src.len() - offset) / 4 < N {
        return Err(MdlxError::UnexpectedEof);
    }
    let mut words: [u32; N] = [0u32; N];
    let mut i: usize = 0;
    while i < N
        invariant
            i <= N,
            offset + 4 * N <= src@.len() <= usize::MAX,
            forall|j: int| 0 <= j < i ==> words@[j] == u32_at(src@, offset + 4 * j),
        decreases N - i,
    {
        match scroll_read_u32(src, offset + 4 * i) {
            Ok(v) => {
                words[i] = v;
            },
            Err(_) => {
                return Err(MdlxError::UnexpectedEof);
            },
        }
        i += 1;
    }
    assert(words@ =~= words_at(src@, offset as int, N as nat));
    Ok(words)
}

/// Stores `words` as consecutive little-endian 32-bit values at `offset` of `dst`.
pub fn write_words<const N: usize>(dst: &mut Vec<u8>, words: &[u32; N], offset: usize) -> (r: Result<(), MdlxError>)
    ensures
        r is Ok <==> offset + 4 * N <= old(dst)@.len(),
        r is Ok ==> final(dst)@ == splice(old(dst)@, offset as int, words_le(words@)),
        r matches Err(e) ==> e == MdlxError::BufferTooSmall && final(dst)@ == old(dst)@,
{
    if offset > dst.len() || (dst.len() - offset) / 4 < N {
        return Err(MdlxError::BufferTooSmall);
    }
    let mut i: usize = 0;
    proof {
        assert(words@.take(0) =~= Seq::<u32>::empty());
        assert(splice(dst@, offset as int, words_le(words@.take(0))) =~= dst@);
    }
    while i < N
        invariant
            i <= N,
            words@.len() == N,
            offset + 4 * N <= old(dst)@.len() <= usize::MAX,
            dst@ == splice(old(dst)@, offset as int, words_le(words@.take(i as int))),
        decreases N - i,
    {
        proof {
            lemma_words_le_len(words@.take(i as int));
            lemma_le32_len(words@[i as int]);
            lemma_splice_append(old(dst)@, offset as int, words_le(words@.take(i as int)), le32(words@[i as int]));
            assert(words@.take(i + 1).drop_last() =~= words@.take(i as int));
        }
        match scroll_write_u32(dst, words[i], offset + 4 * i) {
            Ok(_) => {},
            Err(_) => {
                proof { assert(false); }
                return Err(MdlxError::BufferTooSmall);
            },
        }
        i += 1;
    }
    proof {
        assert(words@.take(N as int) =~= words@);
    }
    Ok(())
}

/// The outcome of a fallible exec computation, seen through the view of its value.
pub open spec fn viewed<T: View>(r: Result<T, MdlxError>) -> Result<T::V, MdlxError> {
    match r {
        Ok(v) => Ok(v@),
        Err(e) => Err(e),
    }
}

/// The outcome of a decoder, seen through the view of the decoded value:
/// the value and the number of bytes it took.
pub open spec fn decoded<T: View>(r: Result<(T, usize), MdlxError>) -> Result<(T::V, nat), MdlxError> {
    match r {
        Ok((v, n)) => Ok((v@, n as nat)),
        Err(e) => Err(e),
    }
}

/// Decodes the name field of `width` bytes at `offset` of `src`.
pub fn read_name(src: &[u8], offset: usize, width: usize) -> (r: Result<String, MdlxError>)
    ensures
        viewed(r) == parse_name_at(src@, offset as int, width as nat),
{
    if offset > src.len() || src.len() - offset < width {
        return Err(MdlxError::UnexpectedEof);
    }
    if width == 0 {
        assert(src@.subrange(offset as int, offset as int) =~= Seq::<u8>::empty());
        return Ok(String::new());
    }
    let field = slice_subrange(src, offset, offset + width);
    match scroll_read_str(field) {
        Ok(name) => Ok(name),
        Err(_) => Err(MdlxError::InvalidName),
    }
}

/// Fills the name field of `width` bytes at `offset` of `dst` with `name`.
pub fn write_name(dst: &mut Vec<u8>, name: &str, offset: usize, width: usize) -> (r: Result<(), MdlxError>)
    ensures
        r is Ok <==> offset + width <= old(dst)@.len(),
        r is Ok ==> final(dst)@ == splice(old(dst)@, offset as int, name_field(name@, width as nat)),
        r matches Err(e) ==> e == MdlxError::BufferTooSmall && final(dst)@ == old(dst)@,
{
    if offset > dst.len() || dst.len() - offset < width {
        return Err(MdlxError::BufferTooSmall);
    }
    let bytes = name.as_bytes();
    let kept: usize = if bytes.len() < width { bytes.len() } else { width };
    if kept > 0 {
        match scroll_write_bytes(dst, slice_subrange(bytes, 0, kept), offset) {
            Ok(_) => {},
            Err(_) => {
                proof { assert(false); }
                return Err(MdlxError::BufferTooSmall);
            },
        }
    } else {
        assert(splice(dst@, offset as int, bytes@.take(0)) =~= dst@);
    }
    let mut i: usize = kept;
    assert(bytes@.take(kept as int) + zeros(0) =~= bytes@.take(kept as int));
    while i < width
        invariant
            kept <= i <= width,
            kept <= bytes@.len(),
            offset + width <= old(dst)@.len() <= usize::MAX,
            dst@ == splice(old(dst)@, offset as int, bytes@.take(kept as int) + zeros((i - kept) as nat)),
        decreases width - i,
    {
        dst[offset + i] = 0u8;
        proof {
            assert(dst@ =~= splice(old(dst)@, offset as int, bytes@.take(kept as int) + zeros((i + 1 - kept) as nat)));
        }
        i += 1;
    }
    proof {
        if bytes@.len() >= width {
            assert(bytes@.take(kept as int) + zeros(0) =~= bytes@.take(width as int));
        } else {
            assert(bytes@.take(kept as int) =~= bytes@);
        }
    }
    Ok(())
}

/// Copies the `count` bytes at `offset` of `src`.
pub fn read_bytes(src: &[u8], offset: usize, count: usize) -> (r: Result<Vec<u8>, MdlxError>)
    ensures
        viewed(r) == parse_bytes(src@, offset as int, count as nat),
{
    if offset > src.len() || src.len() - offset < count {
        return Err(MdlxError::UnexpectedEof);
    }
    match scroll_read_bytes(src, offset, count) {
        Ok(bytes) => Ok(bytes),
        Err(_) => Err(MdlxError::UnexpectedEof),
    }
}

/// Copies `bytes` to `offset` of `dst`.
pub fn write_bytes(dst: &mut Vec<u8>, bytes: &[u8], offset: usize) -> (r: Result<(), MdlxError>)
    ensures
        r is Ok <==> offset + bytes@.len() <= old(dst)@.len(),
        r is Ok ==> final(dst)@ == splice(old(dst)@, offset as int, bytes@),
        r matches Err(e) ==> e == MdlxError::BufferTooSmall && final(dst)@ == old(dst)@,
{
    if offset > dst.len() || dst.len() - offset < bytes.len() {
        return Err(MdlxError::BufferTooSmall);
    }
    if bytes.len() == 0 {
        assert(splice(dst@, offset as int, bytes@) =~= dst@);
        return Ok(());
    }
    match scroll_write_bytes(dst, bytes, offset) {
        Ok(_) => Ok(()),
        Err(_) => Err(MdlxError::BufferTooSmall),
    }
}

/// The 32-bit value at `offset` of `src`, which holds four bytes there.
pub(crate) fn get_u32(src: &[u8], offset: usize) -> (v: u32)
    requires
        offset + 4 <= src@.len(),
    ensures
        v == u32_at(src@, offset as int),
{
    match read_u32(src, offset) {
        Ok(v) => v,
        Err(_) => {
            assert(false);
            0
        },
    }
}

/// The `N` 32-bit values at `offset` of `src`, which holds them all.
pub(crate) fn get_words<const N: usize>(src: &[u8], offset: usize) -> (a: [u32; N])
    requires
        offset + 4 * N <= src@.len(),
    ensures
        a@ == words_at(src@, offset as int, N as nat),
{
    match read_words::<N>(src, offset) {
        Ok(a) => a,
        Err(_) => {
            assert(false);
            [0u32; N]
        },
    }
}

/// Stores `value` at `offset` of `dst`, which has room for it.
pub(crate) fn put_u32(dst: &mut Vec<u8>, value: u32, offset: usize)
    requires
        offset + 4 <= old(dst)@.len(),
    ensures
        final(dst)@ == splice(old(dst)@, offset as int, le32(value)),
{
    match write_u32(dst, value, offset) {
        Ok(()) => {},
        Err(_) => {
            assert(false);
        },
    }
}

/// Stores `words` at `offset` of `dst`, which has room for them.
pub(crate) fn put_words<const N: usize>(dst: &mut Vec<u8>, words: &[u32; N], offset: usize)
    requires
        offset + 4 * N <= old(dst)@.len(),
    ensures
        final(dst)@ == splice(old(dst)@, offset as int, words_le(words@)),
{
    match write_words(dst, words, offset) {
        Ok(()) => {},
        Err(_) => {
            assert(false);
        },
    }
}

/// Fills the name field at `offset` of `dst`, which has room for it.
pub(crate) fn put_name(dst: &mut Vec<u8>, name: &str, offset: usize, width: usize)
    requires
        offset + width <= old(dst)@.len(),
    ensures
        final(dst)@ == splice(old(dst)@, offset as int, name_field(name@, width as nat)),
{
    match write_name(dst, name, offset, width) {
        Ok(()) => {},
        Err(_) => {
            assert(false);
        },
    }
}

/// Copies `bytes` to `offset` of `dst`, which has room for them.
pub(crate) fn put_bytes(dst: &mut Vec<u8>, bytes: &[u8], offset: usize)
    requires
        offset + bytes@.len() <= old(dst)@.len(),
    ensures
        final(dst)@ == splice(old(dst)@, offset as int, bytes@),
{
    match write_bytes(dst, bytes, offset) {
        Ok(()) => {},
        Err(_) => {
            assert(false);
        },
    }
}

/// Appends a 32-bit value to what has been written from `start` of `dst` on.
///
/// `base` is the buffer before the first write and `acc` what has been
/// written since; both are known to the proof only.
pub(crate) fn emit_u32(
    dst: &mut Vec<u8>,
    Ghost(base): Ghost<Seq<u8>>,
    Ghost(acc): Ghost<Seq<u8>>,
    start: usize,
    pos: usize,
    value: u32,
) -> (next: usize)
    requires
        old(dst)@ == splice(base, start as int, acc),
        pos == start + acc.len(),
        pos + 4 <= base.len(),
    ensures
        final(dst)@ == splice(base, start as int, acc + le32(value)),
        next == pos + 4,
        (acc + le32(value)).len() == acc.len() + 4,
{
    proof {
        lemma_le32_len(value);
        lemma_splice_append(base, start as int, acc, le32(value));
    }
    assert(dst@.len() == dst.len());
    put_u32(dst, value, pos);
    pos + 4
}

/// Appends `N` 32-bit values to what has been written from `start` of `dst` on.
pub(crate) fn emit_words<const N: usize>(
    dst: &mut Vec<u8>,
    Ghost(base): Ghost<Seq<u8>>,
    Ghost(acc): Ghost<Seq<u8>>,
    start: usize,
    pos: usize,
    words: &[u32; N],
) -> (next: usize)
    requires
        old(dst)@ == splice(base, start as int, acc),
        pos == start + acc.len(),
        pos + 4 * N <= base.len(),
    ensures
        final(dst)@ == splice(base, start as int, acc + words_le(words@)),
        next == pos + 4 * N,
        (acc + words_le(words@)).len() == acc.len() + 4 * N,
{
    proof {
        assert(words@.len() == N);
        lemma_words_le_len(words@);
        lemma_splice_append(base, start as int, acc, words_le(words@));
    }
    assert(dst@.len() == dst.len());
    put_words(dst, words, pos);
    pos + 4 * N
}

/// Appends a name field to what has been written from `start` of `dst` on.
pub(crate) fn emit_name(
    dst: &mut Vec<u8>,
    Ghost(base): Ghost<Seq<u8>>,
    Ghost(acc): Ghost<Seq<u8>>,
    start: usize,
    pos: usize,
    name: &str,
    width: usize,
) -> (next: usize)
    requires
        old(dst)@ == splice(base, start as int, acc),
        pos == start + acc.len(),
        pos + width <= base.len(),
    ensures
        final(dst)@ == splice(base, start as int, acc + name_field(name@, width as nat)),
        next == pos + width,
        (acc + name_field(name@, width as nat)).len() == acc.len() + width,
{
    proof {
        lemma_splice_append(base, start as int, acc, name_field(name@, width as nat));
    }
    assert(dst@.len() == dst.len());
    put_name(dst, name, pos, width);
    pos + width
}

/// Appends raw bytes to what has been written from `start` of `dst` on.
pub(crate) fn emit_bytes(
    dst: &mut Vec<u8>,
    Ghost(base): Ghost<Seq<u8>>,
    Ghost(acc): Ghost<Seq<u8>>,
    start: usize,
    pos: usize,
    bytes: &[u8],
) -> (next: usize)
    requires
        old(dst)@ == splice(base, start as int, acc),
        pos == start + acc.len(),
        pos + bytes@.len() <= base.len(),
    ensures
        final(dst)@ == splice(base, start as int, acc + bytes@),
        next == pos + bytes@.len(),
{
    proof {
        lemma_splice_append(base, start as int, acc, bytes@);
    }
    assert(dst@.len() == dst.len());
    put_bytes(dst, bytes, pos);
    pos + bytes.len()
}

/// Nothing written yet: the buffer is as it was.
pub proof fn lemma_splice_nothing(base: Seq<u8>, start: int)
    requires
        0 <= start <= base.len(),
    ensures
        splice(base, start, Seq::<u8>::empty()) == base,
{
    assert(splice(base, start, Seq::<u8>::empty()) =~= base);
}

/// Four bytes that hold a value are read back as that value.
pub proof fn lemma_u32_at_le32(s: Seq<u8>, pos: int, value: u32)
    requires
        0 <= pos,
        pos + 4 <= s.len(),
        s.subrange(pos, pos + 4) == le32(value),
    ensures
        u32_at(s, pos) == value,
{
    lemma_auto_spec_u32_to_from_le_bytes();
    assert(spec_u32_to_le_bytes(value).len() == 4);
}

/// The bytes of the value at `i` within the bytes of a run of values.
pub proof fn lemma_words_le_at(words: Seq<u32>, i: int)
    requires
        0 <= i < words.len(),
    ensures
        words_le(words).len() == 4 * words.len(),
        words_le(words).subrange(4 * i, 4 * i + 4) == le32(words[i]),
    decreases words.len(),
{
    lemma_words_le_len(words);
    lemma_words_le_len(words.drop_last());
    lemma_le32_len(words.last());
    if i == words.len() - 1 {
        assert(words_le(words).subrange(4 * i, 4 * i + 4) =~= le32(words[i]));
    } else {
        lemma_words_le_at(words.drop_last(), i);
        assert(words_le(words).subrange(4 * i, 4 * i + 4) =~= words_le(words.drop_last()).subrange(
            4 * i,
            4 * i + 4,
        ));
    }
}

/// Bytes that hold a run of values are read back as these values.
pub proof fn lemma_words_at_le(s: Seq<u8>, pos: int, words: Seq<u32>)
    requires
        0 <= pos,
        pos + 4 * words.len() <= s.len(),
        s.subrange(pos, pos + 4 * words.len()) == words_le(words),
    ensures
        words_at(s, pos, words.len()) == words,
{
    assert forall|i: int| 0 <= i < words.len() implies u32_at(s, pos + 4 * i) == words[i] by {
        lemma_words_le_at(words, i);
        assert(s.subrange(pos + 4 * i, pos + 4 * i + 4) =~= s.subrange(
            pos,
            pos + 4 * words.len(),
        ).subrange(4 * i, 4 * i + 4));
        lemma_u32_at_le32(s, pos + 4 * i, words[i]);
    }
    assert(words_at(s, pos, words.len()) =~= words);
}

/// The content of bytes without a zero byte, followed by nothing or by
/// something that starts with a zero byte, is these bytes.
pub proof fn lemma_name_content_plain(bytes: Seq<u8>, tail: Seq<u8>)
    requires
        !bytes.contains(0u8),
        tail.len() == 0 || tail[0] == 0,
    ensures
        name_content(bytes + tail) == bytes,
    decreases bytes.len(),
{
    if bytes.len() == 0 {
        assert(bytes + tail =~= tail);
        assert(bytes =~= Seq::<u8>::empty());
    } else {
        let rest = bytes.skip(1);
        assert(bytes[0] != 0) by {
            if bytes[0] == 0 {
                assert(bytes.contains(0u8));
            }
        }
        assert(!rest.contains(0u8)) by {
            if rest.contains(0u8) {
                let j = choose|j: int| 0 <= j < rest.len() && rest[j] == 0u8;
                assert(bytes[j + 1] == 0u8);
                assert(bytes.contains(0u8));
            }
        }
        lemma_name_content_plain(rest, tail);
        assert((bytes + tail).skip(1) =~= rest + tail);
        assert(seq![bytes[0]] + rest =~= bytes);
    }
}

/// A name that fits its field is decoded from the field as it was.
pub proof fn lemma_parse_name_field(name: Seq<char>, width: nat)
    requires
        name_fits(name, width),
    ensures
        parse_name(name_field(name, width)) == Ok::<Seq<char>, MdlxError>(name),
        name_field(name, width).len() == width,
{
    broadcast use vstd::utf8::encode_utf8_valid_utf8;
    broadcast use vstd::utf8::encode_utf8_decode_utf8;

    let bytes = encode_utf8(name);
    if bytes.len() >= width {
        assert(bytes.take(width as int) =~= bytes);
        lemma_name_content_plain(bytes, Seq::empty());
        assert(bytes + Seq::<u8>::empty() =~= bytes);
    } else {
        lemma_name_content_plain(bytes, zeros((width - bytes.len()) as nat));
    }
}

/// The content of a name field is no longer than the field and holds no
/// zero byte.
pub proof fn lemma_name_content_plain_bytes(field: Seq<u8>)
    ensures
        name_content(field).len() <= field.len(),
        !name_content(field).contains(0u8),
    decreases field.len(),
{
    let content = name_content(field);
    if field.len() == 0 || field[0] == 0 {
        assert(content =~= Seq::<u8>::empty());
    } else {
        let rest = name_content(field.skip(1));
        lemma_name_content_plain_bytes(field.skip(1));
        if content.contains(0u8) {
            let j = choose|j: int| 0 <= j < content.len() && content[j] == 0u8;
            if j > 0 {
                assert(rest[j - 1] == 0u8);
                assert(rest.contains(0u8));
            }
        }
    }
}

/// A name that is decoded from a field fits the field.
pub proof fn lemma_parsed_name_fits(field: Seq<u8>)
    ensures
        parse_name(field) matches Ok(name) ==> name_fits(name, field.len()),
{
    broadcast use vstd::utf8::decode_utf8_encode_utf8;

    lemma_name_content_plain_bytes(field);
}

/// `count` items of `size` bytes fit into `room` bytes exactly when `count`
/// is at most the quotient of `room` by `size`.
pub proof fn lemma_count_fits(room: int, size: int, count: int)
    requires
        0 <= room,
        0 < size,
        0 <= count,
    ensures
        room / size < count <==> room < count * size,
{
    vstd::arithmetic::div_mod::lemma_fundamental_div_mod(room, size);
    vstd::arithmetic::div_mod::lemma_mod_bound(room, size);
    let q = room / size;
    if q < count {
        assert(size * (q + 1) <= size * count) by (nonlinear_arith)
            requires
                q + 1 <= count,
                0 < size,
        ;
        assert(size * (q + 1) == size * q + size) by (nonlinear_arith);
    } else {
        assert(size * count <= size * q) by (nonlinear_arith)
            requires
                count <= q,
                0 < size,
        ;
    }
    assert(size * count == count * size) by (nonlinear_arith);
}

} // verus!
