//! Chunks that are carried through unread.
//!
//! Geosets, lights, attachments, emitters, event objects, cameras, collision
//! shapes and materials are of no concern to the optimizer. Each of these
//! chunks is kept as the size it states and the bytes that follow, and is
//! written back byte for byte.

use vstd::prelude::*;
use crate::codec::{Chunk, Codec, Lossless};
use crate::error::MdlxError;
use crate::primitives::{
    decoded, emit_bytes, emit_u32, get_u32, le32, lemma_le32_len, lemma_splice_nothing,
    lemma_u32_at_le32, read_bytes, splice, u32_at,
};

verus! {

/// A chunk that is carried through unread, as a mathematical value: the size
/// field and the bytes behind it.
pub struct OpaqueView {
    pub chunk_size: u32,
    pub bytes: Seq<u8>,
}

/// The chunk at the start of `s`: a size field and as many bytes as it says.
pub open spec fn parse_opaque(s: Seq<u8>) -> Result<(OpaqueView, nat), MdlxError> {
    if s.len() < 4 {
        Err(MdlxError::UnexpectedEof)
    } else {
        let chunk_size = u32_at(s, 0);
        if s.len() < 4 + chunk_size {
            Err(MdlxError::UnexpectedEof)
        } else {
            Ok((OpaqueView { chunk_size, bytes: s.subrange(4, 4 + chunk_size) }, (4 + chunk_size) as nat))
        }
    }
}

/// The bytes of the chunk: the size field, then the bytes it holds.
pub open spec fn opaque_encoding(v: OpaqueView) -> Seq<u8> {
    le32(v.chunk_size) + v.bytes
}

/// A chunk whose size field states the number of bytes it holds is decoded
/// from its encoding as it was, whatever follows it.
pub proof fn lemma_opaque_round_trip(v: OpaqueView, rest: Seq<u8>)
    requires
        v.chunk_size == v.bytes.len(),
    ensures
        parse_opaque(opaque_encoding(v) + rest) == Ok::<(OpaqueView, nat), MdlxError>(
            (v, opaque_encoding(v).len()),
        ),
{
    let s = opaque_encoding(v) + rest;
    lemma_le32_len(v.chunk_size);
    assert(s.subrange(0, 4) =~= le32(v.chunk_size));
    lemma_u32_at_le32(s, 0, v.chunk_size);
    assert(s.subrange(4, 4 + v.chunk_size) =~= v.bytes);
}

/// Decodes the chunk at the start of `src`; returns the size field, the
/// bytes behind it and the number of bytes taken.
pub fn read_opaque(src: &[u8]) -> (r: Result<(u32, Vec<u8>, usize), MdlxError>)
    ensures
        (match r {
            Ok((chunk_size, bytes, n)) => Ok((OpaqueView { chunk_size, bytes: bytes@ }, n as nat)),
            Err(e) => Err(e),
        }) == parse_opaque(src@),
{
    let end: usize = src.len();
    if end < 4 {
        return Err(MdlxError::UnexpectedEof);
    }
    let chunk_size = get_u32(src, 0);
    if end - 4 < chunk_size as usize {
        return Err(MdlxError::UnexpectedEof);
    }
    match read_bytes(src, 4, chunk_size as usize) {
        Ok(bytes) => Ok((chunk_size, bytes, 4 + chunk_size as usize)),
        Err(e) => Err(e),
    }
}

/// The number of bytes of the chunk's encoding, unless that number exceeds
/// the machine's address range.
pub fn opaque_size(chunk_size: u32, bytes: &Vec<u8>) -> (r: Option<usize>)
    ensures
        r matches Some(n) ==> n == opaque_encoding(OpaqueView { chunk_size, bytes: bytes@ }).len(),
        r is None ==> opaque_encoding(OpaqueView { chunk_size, bytes: bytes@ }).len() > usize::MAX,
{
    proof {
        lemma_le32_len(chunk_size);
    }
    bytes.len().checked_add(4)
}

/// The number of bytes that the chunk holds, as its size field has to state
/// it; fails if and only if that number does not fit the field.
pub fn opaque_payload(bytes: &Vec<u8>) -> (r: Result<u32, MdlxError>)
    ensures
        r is Ok <==> bytes@.len() <= u32::MAX,
        r matches Ok(n) ==> n == bytes@.len(),
        r matches Err(e) ==> e == MdlxError::TooLarge,
{
    let n = bytes.len();
    if n <= u32::MAX as usize {
        Ok(n as u32)
    } else {
        Err(MdlxError::TooLarge)
    }
}

/// Writes the chunk to `offset` of `dst` and returns its length. Fails,
/// leaving `dst` as it was, if and only if `dst` has too little room.
pub fn write_opaque(chunk_size: u32, bytes: &Vec<u8>, dst: &mut Vec<u8>, offset: usize) -> (r: Result<
    usize,
    MdlxError,
>)
    ensures
        r is Ok <==> offset + opaque_encoding(OpaqueView { chunk_size, bytes: bytes@ }).len()
            <= old(dst)@.len(),
        r matches Ok(n) ==> n == opaque_encoding(OpaqueView { chunk_size, bytes: bytes@ }).len()
            && final(dst)@ == splice(
            old(dst)@,
            offset as int,
            opaque_encoding(OpaqueView { chunk_size, bytes: bytes@ }),
        ),
        r matches Err(e) ==> e == MdlxError::BufferTooSmall && final(dst)@ == old(dst)@,
{
    let room: usize = dst.len();
    let size = match opaque_size(chunk_size, bytes) {
        Some(size) => size,
        None => {
            return Err(MdlxError::BufferTooSmall);
        },
    };
    if offset > room || room - offset < size {
        return Err(MdlxError::BufferTooSmall);
    }
    let ghost base = dst@;
    proof {
        lemma_le32_len(chunk_size);
        lemma_splice_nothing(base, offset as int);
    }
    let pos = emit_u32(dst, Ghost(base), Ghost(Seq::empty()), offset, offset, chunk_size);
    proof {
        assert(Seq::<u8>::empty() + le32(chunk_size) =~= le32(chunk_size));
    }
    emit_bytes(dst, Ghost(base), Ghost(le32(chunk_size)), offset, pos, bytes.as_slice());
    Ok(size)
}

/// The model's geosets: its meshes.
#[derive(Clone, Debug, PartialEq, Eq)]
pub struct GeosetChunk {
    pub chunk_size: u32,
    pub bytes: Vec<u8>,
}

impl View for GeosetChunk {
    type V = OpaqueView;

    open spec fn view(&self) -> OpaqueView {
        OpaqueView { chunk_size: self.chunk_size, bytes: self.bytes@ }
    }
}

impl Chunk for GeosetChunk {
    open spec fn payload_len(v: OpaqueView) -> nat {
        v.bytes.len()
    }

    open spec fn resized(v: OpaqueView) -> OpaqueView {
        OpaqueView { chunk_size: v.bytes.len() as u32, bytes: v.bytes }
    }

    fn payload_fits(&self) -> (r: bool) {
        opaque_payload(&self.bytes).is_ok()
    }

    fn calculate_chunk_size(&mut self) -> (r: Result<(), MdlxError>) {
        match opaque_payload(&self.bytes) {
            Ok(n) => {
                self.chunk_size = n;
                Ok(())
            },
            Err(e) => Err(e),
        }
    }

    proof fn lemma_payload_len(v: OpaqueView) {
        lemma_le32_len(v.chunk_size);
    }
}

impl Lossless for GeosetChunk {
    open spec fn well_formed(v: OpaqueView) -> bool {
        v.chunk_size == v.bytes.len()
    }

    open spec fn sizes_right(v: OpaqueView) -> bool {
        true
    }

    proof fn lemma_parsed(s: Seq<u8>) {

    }

    proof fn lemma_round_trip(v: OpaqueView, rest: Seq<u8>) {
        lemma_opaque_round_trip(v, rest);
    }
}

impl Codec for GeosetChunk {
    open spec fn parse(s: Seq<u8>) -> Result<(OpaqueView, nat), MdlxError> {
        parse_opaque(s)
    }

    open spec fn encoding(v: OpaqueView) -> Seq<u8> {
        opaque_encoding(v)
    }

    fn try_from_ctx(src: &[u8]) -> (r: Result<(Self, usize), MdlxError>) {
        match read_opaque(src) {
            Ok((chunk_size, bytes, n)) => Ok((GeosetChunk { chunk_size, bytes }, n)),
            Err(e) => Err(e),
        }
    }

    fn total_bytes_size(&self) -> (r: Option<usize>) {
        opaque_size(self.chunk_size, &self.bytes)
    }

    fn try_into_ctx(&self, dst: &mut Vec<u8>, offset: usize) -> (r: Result<usize, MdlxError>) {
        write_opaque(self.chunk_size, &self.bytes, dst, offset)
    }

    proof fn lemma_parse_bounds(s: Seq<u8>) {
    }
}

/// The model's lights.
#[derive(Clone, Debug, PartialEq, Eq)]
pub struct LightChunk {
    pub chunk_size: u32,
    pub bytes: Vec<u8>,
}

impl View for LightChunk {
    type V = OpaqueView;

    open spec fn view(&self) -> OpaqueView {
        OpaqueView { chunk_size: self.chunk_size, bytes: self.bytes@ }
    }
}

impl Chunk for LightChunk {
    open spec fn payload_len(v: OpaqueView) -> nat {
        v.bytes.len()
    }

    open spec fn resized(v: OpaqueView) -> OpaqueView {
        OpaqueView { chunk_size: v.bytes.len() as u32, bytes: v.bytes }
    }

    fn payload_fits(&self) -> (r: bool) {
        opaque_payload(&self.bytes).is_ok()
    }

    fn calculate_chunk_size(&mut self) -> (r: Result<(), MdlxError>) {
        match opaque_payload(&self.bytes) {
            Ok(n) => {
                self.chunk_size = n;
                Ok(())
            },
            Err(e) => Err(e),
        }
    }

    proof fn lemma_payload_len(v: OpaqueView) {
        lemma_le32_len(v.chunk_size);
    }
}

impl Lossless for LightChunk {
    open spec fn well_formed(v: OpaqueView) -> bool {
        v.chunk_size == v.bytes.len()
    }

    open spec fn sizes_right(v: OpaqueView) -> bool {
        true
    }

    proof fn lemma_parsed(s: Seq<u8>) {

    }

    proof fn lemma_round_trip(v: OpaqueView, rest: Seq<u8>) {
        lemma_opaque_round_trip(v, rest);
    }
}

impl Codec for LightChunk {
    open spec fn parse(s: Seq<u8>) -> Result<(OpaqueView, nat), MdlxError> {
        parse_opaque(s)
    }

    open spec fn encoding(v: OpaqueView) -> Seq<u8> {
        opaque_encoding(v)
    }

    fn try_from_ctx(src: &[u8]) -> (r: Result<(Self, usize), MdlxError>) {
        match read_opaque(src) {
            Ok((chunk_size, bytes, n)) => Ok((LightChunk { chunk_size, bytes }, n)),
            Err(e) => Err(e),
        }
    }

    fn total_bytes_size(&self) -> (r: Option<usize>) {
        opaque_size(self.chunk_size, &self.bytes)
    }

    fn try_into_ctx(&self, dst: &mut Vec<u8>, offset: usize) -> (r: Result<usize, MdlxError>) {
        write_opaque(self.chunk_size, &self.bytes, dst, offset)
    }

    proof fn lemma_parse_bounds(s: Seq<u8>) {
    }
}

/// The model's attachment points.
#[derive(Clone, Debug, PartialEq, Eq)]
pub struct AttachmentChunk {
    pub chunk_size: u32,
    pub bytes: Vec<u8>,
}

impl View for AttachmentChunk {
    type V = OpaqueView;

    open spec fn view(&self) -> OpaqueView {
        OpaqueView { chunk_size: self.chunk_size, bytes: self.bytes@ }
    }
}

impl Chunk for AttachmentChunk {
    open spec fn payload_len(v: OpaqueView) -> nat {
        v.bytes.len()
    }

    open spec fn resized(v: OpaqueView) -> OpaqueView {
        OpaqueView { chunk_size: v.bytes.len() as u32, bytes: v.bytes }
    }

    fn payload_fits(&self) -> (r: bool) {
        opaque_payload(&self.bytes).is_ok()
    }

    fn calculate_chunk_size(&mut self) -> (r: Result<(), MdlxError>) {
        match opaque_payload(&self.bytes) {
            Ok(n) => {
                self.chunk_size = n;
                Ok(())
            },
            Err(e) => Err(e),
        }
    }

    proof fn lemma_payload_len(v: OpaqueView) {
        lemma_le32_len(v.chunk_size);
    }
}

impl Lossless for AttachmentChunk {
    open spec fn well_formed(v: OpaqueView) -> bool {
        v.chunk_size == v.bytes.len()
    }

    open spec fn sizes_right(v: OpaqueView) -> bool {
        true
    }

    proof fn lemma_parsed(s: Seq<u8>) {

    }

    proof fn lemma_round_trip(v: OpaqueView, rest: Seq<u8>) {
        lemma_opaque_round_trip(v, rest);
    }
}

impl Codec for AttachmentChunk {
    open spec fn parse(s: Seq<u8>) -> Result<(OpaqueView, nat), MdlxError> {
        parse_opaque(s)
    }

    open spec fn encoding(v: OpaqueView) -> Seq<u8> {
        opaque_encoding(v)
    }

    fn try_from_ctx(src: &[u8]) -> (r: Result<(Self, usize), MdlxError>) {
        match read_opaque(src) {
            Ok((chunk_size, bytes, n)) => Ok((AttachmentChunk { chunk_size, bytes }, n)),
            Err(e) => Err(e),
        }
    }

    fn total_bytes_size(&self) -> (r: Option<usize>) {
        opaque_size(self.chunk_size, &self.bytes)
    }

    fn try_into_ctx(&self, dst: &mut Vec<u8>, offset: usize) -> (r: Result<usize, MdlxError>) {
        write_opaque(self.chunk_size, &self.bytes, dst, offset)
    }

    proof fn lemma_parse_bounds(s: Seq<u8>) {
    }
}

/// The model's particle emitters.
#[derive(Clone, Debug, PartialEq, Eq)]
pub struct ParticleEmitterChunk {
    pub chunk_size: u32,
    pub bytes: Vec<u8>,
}

impl View for ParticleEmitterChunk {
    type V = OpaqueView;

    open spec fn view(&self) -> OpaqueView {
        OpaqueView { chunk_size: self.chunk_size, bytes: self.bytes@ }
    }
}

impl Chunk for ParticleEmitterChunk {
    open spec fn payload_len(v: OpaqueView) -> nat {
        v.bytes.len()
    }

    open spec fn resized(v: OpaqueView) -> OpaqueView {
        OpaqueView { chunk_size: v.bytes.len() as u32, bytes: v.bytes }
    }

    fn payload_fits(&self) -> (r: bool) {
        opaque_payload(&self.bytes).is_ok()
    }

    fn calculate_chunk_size(&mut self) -> (r: Result<(), MdlxError>) {
        match opaque_payload(&self.bytes) {
            Ok(n) => {
                self.chunk_size = n;
                Ok(())
            },
            Err(e) => Err(e),
        }
    }

    proof fn lemma_payload_len(v: OpaqueView) {
        lemma_le32_len(v.chunk_size);
    }
}

impl Lossless for ParticleEmitterChunk {
    open spec fn well_formed(v: OpaqueView) -> bool {
        v.chunk_size == v.bytes.len()
    }

    open spec fn sizes_right(v: OpaqueView) -> bool {
        true
    }

    proof fn lemma_parsed(s: Seq<u8>) {

    }

    proof fn lemma_round_trip(v: OpaqueView, rest: Seq<u8>) {
        lemma_opaque_round_trip(v, rest);
    }
}

impl Codec for ParticleEmitterChunk {
    open spec fn parse(s: Seq<u8>) -> Result<(OpaqueView, nat), MdlxError> {
        parse_opaque(s)
    }

    open spec fn encoding(v: OpaqueView) -> Seq<u8> {
        opaque_encoding(v)
    }

    fn try_from_ctx(src: &[u8]) -> (r: Result<(Self, usize), MdlxError>) {
        match read_opaque(src) {
            Ok((chunk_size, bytes, n)) => Ok((ParticleEmitterChunk { chunk_size, bytes }, n)),
            Err(e) => Err(e),
        }
    }

    fn total_bytes_size(&self) -> (r: Option<usize>) {
        opaque_size(self.chunk_size, &self.bytes)
    }

    fn try_into_ctx(&self, dst: &mut Vec<u8>, offset: usize) -> (r: Result<usize, MdlxError>) {
        write_opaque(self.chunk_size, &self.bytes, dst, offset)
    }

    proof fn lemma_parse_bounds(s: Seq<u8>) {
    }
}

/// The model's particle emitters of the second kind.
#[derive(Clone, Debug, PartialEq, Eq)]
pub struct ParticleEmitter2Chunk {
    pub chunk_size: u32,
    pub bytes: Vec<u8>,
}

impl View for ParticleEmitter2Chunk {
    type V = OpaqueView;

    open spec fn view(&self) -> OpaqueView {
        OpaqueView { chunk_size: self.chunk_size, bytes: self.bytes@ }
    }
}

impl Chunk for ParticleEmitter2Chunk {
    open spec fn payload_len(v: OpaqueView) -> nat {
        v.bytes.len()
    }

    open spec fn resized(v: OpaqueView) -> OpaqueView {
        OpaqueView { chunk_size: v.bytes.len() as u32, bytes: v.bytes }
    }

    fn payload_fits(&self) -> (r: bool) {
        opaque_payload(&self.bytes).is_ok()
    }

    fn calculate_chunk_size(&mut self) -> (r: Result<(), MdlxError>) {
        match opaque_payload(&self.bytes) {
            Ok(n) => {
                self.chunk_size = n;
                Ok(())
            },
            Err(e) => Err(e),
        }
    }

    proof fn lemma_payload_len(v: OpaqueView) {
        lemma_le32_len(v.chunk_size);
    }
}

impl Lossless for ParticleEmitter2Chunk {
    open spec fn well_formed(v: OpaqueView) -> bool {
        v.chunk_size == v.bytes.len()
    }

    open spec fn sizes_right(v: OpaqueView) -> bool {
        true
    }

    proof fn lemma_parsed(s: Seq<u8>) {

    }

    proof fn lemma_round_trip(v: OpaqueView, rest: Seq<u8>) {
        lemma_opaque_round_trip(v, rest);
    }
}

impl Codec for ParticleEmitter2Chunk {
    open spec fn parse(s: Seq<u8>) -> Result<(OpaqueView, nat), MdlxError> {
        parse_opaque(s)
    }

    open spec fn encoding(v: OpaqueView) -> Seq<u8> {
        opaque_encoding(v)
    }

    fn try_from_ctx(src: &[u8]) -> (r: Result<(Self, usize), MdlxError>) {
        match read_opaque(src) {
            Ok((chunk_size, bytes, n)) => Ok((ParticleEmitter2Chunk { chunk_size, bytes }, n)),
            Err(e) => Err(e),
        }
    }

    fn total_bytes_size(&self) -> (r: Option<usize>) {
        opaque_size(self.chunk_size, &self.bytes)
    }

    fn try_into_ctx(&self, dst: &mut Vec<u8>, offset: usize) -> (r: Result<usize, MdlxError>) {
        write_opaque(self.chunk_size, &self.bytes, dst, offset)
    }

    proof fn lemma_parse_bounds(s: Seq<u8>) {
    }
}

/// The model's ribbon emitters.
#[derive(Clone, Debug, PartialEq, Eq)]
pub struct RibbonEmitterChunk {
    pub chunk_size: u32,
    pub bytes: Vec<u8>,
}

impl View for RibbonEmitterChunk {
    type V = OpaqueView;

    open spec fn view(&self) -> OpaqueView {
        OpaqueView { chunk_size: self.chunk_size, bytes: self.bytes@ }
    }
}

impl Chunk for RibbonEmitterChunk {
    open spec fn payload_len(v: OpaqueView) -> nat {
        v.bytes.len()
    }

    open spec fn resized(v: OpaqueView) -> OpaqueView {
        OpaqueView { chunk_size: v.bytes.len() as u32, bytes: v.bytes }
    }

    fn payload_fits(&self) -> (r: bool) {
        opaque_payload(&self.bytes).is_ok()
    }

    fn calculate_chunk_size(&mut self) -> (r: Result<(), MdlxError>) {
        match opaque_payload(&self.bytes) {
            Ok(n) => {
                self.chunk_size = n;
                Ok(())
            },
            Err(e) => Err(e),
        }
    }

    proof fn lemma_payload_len(v: OpaqueView) {
        lemma_le32_len(v.chunk_size);
    }
}

impl Lossless for RibbonEmitterChunk {
    open spec fn well_formed(v: OpaqueView) -> bool {
        v.chunk_size == v.bytes.len()
    }

    open spec fn sizes_right(v: OpaqueView) -> bool {
        true
    }

    proof fn lemma_parsed(s: Seq<u8>) {

    }

    proof fn lemma_round_trip(v: OpaqueView, rest: Seq<u8>) {
        lemma_opaque_round_trip(v, rest);
    }
}

impl Codec for RibbonEmitterChunk {
    open spec fn parse(s: Seq<u8>) -> Result<(OpaqueView, nat), MdlxError> {
        parse_opaque(s)
    }

    open spec fn encoding(v: OpaqueView) -> Seq<u8> {
        opaque_encoding(v)
    }

    fn try_from_ctx(src: &[u8]) -> (r: Result<(Self, usize), MdlxError>) {
        match read_opaque(src) {
            Ok((chunk_size, bytes, n)) => Ok((RibbonEmitterChunk { chunk_size, bytes }, n)),
            Err(e) => Err(e),
        }
    }

    fn total_bytes_size(&self) -> (r: Option<usize>) {
        opaque_size(self.chunk_size, &self.bytes)
    }

    fn try_into_ctx(&self, dst: &mut Vec<u8>, offset: usize) -> (r: Result<usize, MdlxError>) {
        write_opaque(self.chunk_size, &self.bytes, dst, offset)
    }

    proof fn lemma_parse_bounds(s: Seq<u8>) {
    }
}

/// The model's event objects.
#[derive(Clone, Debug, PartialEq, Eq)]
pub struct EventObjectChunk {
    pub chunk_size: u32,
    pub bytes: Vec<u8>,
}

impl View for EventObjectChunk {
    type V = OpaqueView;

    open spec fn view(&self) -> OpaqueView {
        OpaqueView { chunk_size: self.chunk_size, bytes: self.bytes@ }
    }
}

impl Chunk for EventObjectChunk {
    open spec fn payload_len(v: OpaqueView) -> nat {
        v.bytes.len()
    }

    open spec fn resized(v: OpaqueView) -> OpaqueView {
        OpaqueView { chunk_size: v.bytes.len() as u32, bytes: v.bytes }
    }

    fn payload_fits(&self) -> (r: bool) {
        opaque_payload(&self.bytes).is_ok()
    }

    fn calculate_chunk_size(&mut self) -> (r: Result<(), MdlxError>) {
        match opaque_payload(&self.bytes) {
            Ok(n) => {
                self.chunk_size = n;
                Ok(())
            },
            Err(e) => Err(e),
        }
    }

    proof fn lemma_payload_len(v: OpaqueView) {
        lemma_le32_len(v.chunk_size);
    }
}

impl Lossless for EventObjectChunk {
    open spec fn well_formed(v: OpaqueView) -> bool {
        v.chunk_size == v.bytes.len()
    }

    open spec fn sizes_right(v: OpaqueView) -> bool {
        true
    }

    proof fn lemma_parsed(s: Seq<u8>) {

    }

    proof fn lemma_round_trip(v: OpaqueView, rest: Seq<u8>) {
        lemma_opaque_round_trip(v, rest);
    }
}

impl Codec for EventObjectChunk {
    open spec fn parse(s: Seq<u8>) -> Result<(OpaqueView, nat), MdlxError> {
        parse_opaque(s)
    }

    open spec fn encoding(v: OpaqueView) -> Seq<u8> {
        opaque_encoding(v)
    }

    fn try_from_ctx(src: &[u8]) -> (r: Result<(Self, usize), MdlxError>) {
        match read_opaque(src) {
            Ok((chunk_size, bytes, n)) => Ok((EventObjectChunk { chunk_size, bytes }, n)),
            Err(e) => Err(e),
        }
    }

    fn total_bytes_size(&self) -> (r: Option<usize>) {
        opaque_size(self.chunk_size, &self.bytes)
    }

    fn try_into_ctx(&self, dst: &mut Vec<u8>, offset: usize) -> (r: Result<usize, MdlxError>) {
        write_opaque(self.chunk_size, &self.bytes, dst, offset)
    }

    proof fn lemma_parse_bounds(s: Seq<u8>) {
    }
}

/// The model's cameras.
#[derive(Clone, Debug, PartialEq, Eq)]
pub struct CameraChunk {
    pub chunk_size: u32,
    pub bytes: Vec<u8>,
}

impl View for CameraChunk {
    type V = OpaqueView;

    open spec fn view(&self) -> OpaqueView {
        OpaqueView { chunk_size: self.chunk_size, bytes: self.bytes@ }
    }
}

impl Chunk for CameraChunk {
    open spec fn payload_len(v: OpaqueView) -> nat {
        v.bytes.len()
    }

    open spec fn resized(v: OpaqueView) -> OpaqueView {
        OpaqueView { chunk_size: v.bytes.len() as u32, bytes: v.bytes }
    }

    fn payload_fits(&self) -> (r: bool) {
        opaque_payload(&self.bytes).is_ok()
    }

    fn calculate_chunk_size(&mut self) -> (r: Result<(), MdlxError>) {
        match opaque_payload(&self.bytes) {
            Ok(n) => {
                self.chunk_size = n;
                Ok(())
            },
            Err(e) => Err(e),
        }
    }

    proof fn lemma_payload_len(v: OpaqueView) {
        lemma_le32_len(v.chunk_size);
    }
}

impl Lossless for CameraChunk {
    open spec fn well_formed(v: OpaqueView) -> bool {
        v.chunk_size == v.bytes.len()
    }

    open spec fn sizes_right(v: OpaqueView) -> bool {
        true
    }

    proof fn lemma_parsed(s: Seq<u8>) {

    }

    proof fn lemma_round_trip(v: OpaqueView, rest: Seq<u8>) {
        lemma_opaque_round_trip(v, rest);
    }
}

impl Codec for CameraChunk {
    open spec fn parse(s: Seq<u8>) -> Result<(OpaqueView, nat), MdlxError> {
        parse_opaque(s)
    }

    open spec fn encoding(v: OpaqueView) -> Seq<u8> {
        opaque_encoding(v)
    }

    fn try_from_ctx(src: &[u8]) -> (r: Result<(Self, usize), MdlxError>) {
        match read_opaque(src) {
            Ok((chunk_size, bytes, n)) => Ok((CameraChunk { chunk_size, bytes }, n)),
            Err(e) => Err(e),
        }
    }

    fn total_bytes_size(&self) -> (r: Option<usize>) {
        opaque_size(self.chunk_size, &self.bytes)
    }

    fn try_into_ctx(&self, dst: &mut Vec<u8>, offset: usize) -> (r: Result<usize, MdlxError>) {
        write_opaque(self.chunk_size, &self.bytes, dst, offset)
    }

    proof fn lemma_parse_bounds(s: Seq<u8>) {
    }
}

/// The model's collision shapes.
#[derive(Clone, Debug, PartialEq, Eq)]
pub struct CollisionShapeChunk {
    pub chunk_size: u32,
    pub bytes: Vec<u8>,
}

impl View for CollisionShapeChunk {
    type V = OpaqueView;

    open spec fn view(&self) -> OpaqueView {
        OpaqueView { chunk_size: self.chunk_size, bytes: self.bytes@ }
    }
}

impl Chunk for CollisionShapeChunk {
    open spec fn payload_len(v: OpaqueView) -> nat {
        v.bytes.len()
    }

    open spec fn resized(v: OpaqueView) -> OpaqueView {
        OpaqueView { chunk_size: v.bytes.len() as u32, bytes: v.bytes }
    }

    fn payload_fits(&self) -> (r: bool) {
        opaque_payload(&self.bytes).is_ok()
    }

    fn calculate_chunk_size(&mut self) -> (r: Result<(), MdlxError>) {
        match opaque_payload(&self.bytes) {
            Ok(n) => {
                self.chunk_size = n;
                Ok(())
            },
            Err(e) => Err(e),
        }
    }

    proof fn lemma_payload_len(v: OpaqueView) {
        lemma_le32_len(v.chunk_size);
    }
}

impl Lossless for CollisionShapeChunk {
    open spec fn well_formed(v: OpaqueView) -> bool {
        v.chunk_size == v.bytes.len()
    }

    open spec fn sizes_right(v: OpaqueView) -> bool {
        true
    }

    proof fn lemma_parsed(s: Seq<u8>) {

    }

    proof fn lemma_round_trip(v: OpaqueView, rest: Seq<u8>) {
        lemma_opaque_round_trip(v, rest);
    }
}

impl Codec for CollisionShapeChunk {
    open spec fn parse(s: Seq<u8>) -> Result<(OpaqueView, nat), MdlxError> {
        parse_opaque(s)
    }

    open spec fn encoding(v: OpaqueView) -> Seq<u8> {
        opaque_encoding(v)
    }

    fn try_from_ctx(src: &[u8]) -> (r: Result<(Self, usize), MdlxError>) {
        match read_opaque(src) {
            Ok((chunk_size, bytes, n)) => Ok((CollisionShapeChunk { chunk_size, bytes }, n)),
            Err(e) => Err(e),
        }
    }

    fn total_bytes_size(&self) -> (r: Option<usize>) {
        opaque_size(self.chunk_size, &self.bytes)
    }

    fn try_into_ctx(&self, dst: &mut Vec<u8>, offset: usize) -> (r: Result<usize, MdlxError>) {
        write_opaque(self.chunk_size, &self.bytes, dst, offset)
    }

    proof fn lemma_parse_bounds(s: Seq<u8>) {
    }
}

/// The model's materials.
#[derive(Clone, Debug, PartialEq, Eq)]
pub struct MaterialChunk {
    pub chunk_size: u32,
    pub bytes: Vec<u8>,
}

impl View for MaterialChunk {
    type V = OpaqueView;

    open spec fn view(&self) -> OpaqueView {
        OpaqueView { chunk_size: self.chunk_size, bytes: self.bytes@ }
    }
}

impl Chunk for MaterialChunk {
    open spec fn payload_len(v: OpaqueView) -> nat {
        v.bytes.len()
    }

    open spec fn resized(v: OpaqueView) -> OpaqueView {
        OpaqueView { chunk_size: v.bytes.len() as u32, bytes: v.bytes }
    }

    fn payload_fits(&self) -> (r: bool) {
        opaque_payload(&self.bytes).is_ok()
    }

    fn calculate_chunk_size(&mut self) -> (r: Result<(), MdlxError>) {
        match opaque_payload(&self.bytes) {
            Ok(n) => {
                self.chunk_size = n;
                Ok(())
            },
            Err(e) => Err(e),
        }
    }

    proof fn lemma_payload_len(v: OpaqueView) {
        lemma_le32_len(v.chunk_size);
    }
}

impl Lossless for MaterialChunk {
    open spec fn well_formed(v: OpaqueView) -> bool {
        v.chunk_size == v.bytes.len()
    }

    open spec fn sizes_right(v: OpaqueView) -> bool {
        true
    }

    proof fn lemma_parsed(s: Seq<u8>) {

    }

    proof fn lemma_round_trip(v: OpaqueView, rest: Seq<u8>) {
        lemma_opaque_round_trip(v, rest);
    }
}

impl Codec for MaterialChunk {
    open spec fn parse(s: Seq<u8>) -> Result<(OpaqueView, nat), MdlxError> {
        parse_opaque(s)
    }

    open spec fn encoding(v: OpaqueView) -> Seq<u8> {
        opaque_encoding(v)
    }

    fn try_from_ctx(src: &[u8]) -> (r: Result<(Self, usize), MdlxError>) {
        match read_opaque(src) {
            Ok((chunk_size, bytes, n)) => Ok((MaterialChunk { chunk_size, bytes }, n)),
            Err(e) => Err(e),
        }
    }

    fn total_bytes_size(&self) -> (r: Option<usize>) {
        opaque_size(self.chunk_size, &self.bytes)
    }

    fn try_into_ctx(&self, dst: &mut Vec<u8>, offset: usize) -> (r: Result<usize, MdlxError>) {
        write_opaque(self.chunk_size, &self.bytes, dst, offset)
    }

    proof fn lemma_parse_bounds(s: Seq<u8>) {
    }
}

} // verus!
