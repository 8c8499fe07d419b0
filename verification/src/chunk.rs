//! One chunk: a payload under a chunk type, with the checksum that guards
//! both, and the byte layout in which a file holds it.

use vstd::prelude::*;
use vstd::slice::{slice_subrange, slice_to_vec};
use vstd::std_specs::cmp::PartialEqSpecImpl;
use vstd::std_specs::convert::TryFromSpecImpl;

use crate::big_endian::{
    be_bytes, be_value, lemma_be_bytes_of_be_value, lemma_be_value_bounds,
    lemma_be_value_injective, lemma_be_value_of_be_bytes, u32_from_be_bytes, u32_to_be_bytes,
};
use crate::checksum::{checksum_ieee, crc32_ieee, lemma_crc32_sees_byte_change};
use crate::chunk_type::ChunkType;
use crate::error::ChunkError;
use crate::text::{decode_text, text_of};

verus! {

/// The bytes of a record that are not payload: length, type and checksum.
pub const FRAME_BYTES: usize = 12;

/// What a chunk is, as plain values.
pub struct ChunkView {
    /// The number of payload bytes.
    pub length: u32,
    /// The four bytes of the chunk type.
    pub chunk_type: Seq<u8>,
    /// The payload.
    pub data: Seq<u8>,
    /// The checksum over type and payload.
    pub crc: u32,
}

impl ChunkView {
    /// What every chunk satisfies: four type bytes, a length that counts the
    /// payload, and a checksum that is the CRC-32 of type and payload.
    pub open spec fn wf(self) -> bool {
        &&& self.chunk_type.len() == 4
        &&& self.length == self.data.len()
        &&& self.crc == crc32_ieee(self.chunk_type + self.data)
    }

    /// The record of the chunk: length, type, payload, checksum, the two
    /// numbers as four bytes each, most significant byte first.
    pub open spec fn to_bytes(self) -> Seq<u8> {
        be_bytes(self.length) + self.chunk_type + self.data + be_bytes(self.crc)
    }
}

/// The chunk that a type and a payload make.
pub open spec fn chunk_of(chunk_type: Seq<u8>, data: Seq<u8>) -> ChunkView {
    ChunkView {
        length: data.len() as u32,
        chunk_type,
        data,
        crc: crc32_ieee(chunk_type + data),
    }
}

/// What reading one record from the front of `input` gives: the chunk and
/// the number of bytes that its record takes, or why there is none.
///
/// The input is truncated where it ends before the record that its first
/// four bytes announce does. A record that is all there is rejected where
/// its last four bytes are not the checksum of its type and payload.
pub open spec fn parse_chunk(input: Seq<u8>) -> Result<(ChunkView, nat), ChunkError> {
    if input.len() < 4 {
        Err(ChunkError::TruncatedInput)
    } else {
        let length = be_value(input.subrange(0, 4));
        if input.len() < FRAME_BYTES + length {
            Err(ChunkError::TruncatedInput)
        } else {
            let chunk_type = input.subrange(4, 8);
            let data = input.subrange(8, 8 + length);
            let stored = be_value(input.subrange(8 + length, 12 + length));
            if stored != crc32_ieee(chunk_type + data) {
                Err(ChunkError::ChecksumMismatch)
            } else {
                Ok((chunk_of(chunk_type, data), (FRAME_BYTES + length) as nat))
            }
        }
    }
}

/// What reading `input` as exactly one record gives: as `parse_chunk`, and
/// `TrailingData` where a good record is followed by more bytes.
pub open spec fn parse_whole(input: Seq<u8>) -> Result<ChunkView, ChunkError> {
    match parse_chunk(input) {
        Ok((chunk, used)) => if used == input.len() {
            Ok(chunk)
        } else {
            Err(ChunkError::TrailingData)
        },
        Err(e) => Err(e),
    }
}

/// A chunk of a PNG file.
#[derive(Debug)]
pub struct Chunk {
    length: u32,
    chunk_type: ChunkType,
    data: Vec<u8>,
    crc: u32,
}

impl View for Chunk {
    type V = ChunkView;

    closed spec fn view(&self) -> ChunkView {
        ChunkView {
            length: self.length,
            chunk_type: self.chunk_type@,
            data: self.data@,
            crc: self.crc,
        }
    }
}

fn checksum_of(chunk_type: &ChunkType, data: &[u8]) -> (sum: u32)
    ensures
        sum == crc32_ieee(chunk_type@ + data@),
{
    let tag = chunk_type.bytes();
    let mut covered: Vec<u8> = Vec::new();
    covered.extend_from_slice(tag.as_slice());
    covered.extend_from_slice(data);
    assert(covered@ =~= chunk_type@ + data@);
    checksum_ieee(covered.as_slice())
}

impl Chunk {
    #[verifier::type_invariant]
    closed spec fn well_formed(self) -> bool {
        self@.wf()
    }

    /// Makes the chunk for a type and a payload, and computes its checksum.
    pub fn new(chunk_type: ChunkType, data: Vec<u8>) -> (made: Chunk)
        requires
            data@.len() <= u32::MAX,
        ensures
            made@ == chunk_of(chunk_type@, data@),
            made@.wf(),
    {
        let crc = checksum_of(&chunk_type, data.as_slice());
        proof {
            chunk_type.lemma_four_bytes();
        }
        Chunk { length: data.len() as u32, chunk_type, data, crc }
    }

    /// The number of payload bytes.
    pub fn length(&self) -> (length: u32)
        ensures
            length == self@.length,
            length == self@.data.len(),
    {
        proof {
            use_type_invariant(self);
        }
        self.length
    }

    /// The type of the chunk.
    pub fn chunk_type(&self) -> (chunk_type: &ChunkType)
        ensures
            chunk_type@ == self@.chunk_type,
    {
        &self.chunk_type
    }

    /// The payload.
    pub fn data(&self) -> (data: &[u8])
        ensures
            data@ == self@.data,
    {
        self.data.as_slice()
    }

    /// The checksum: the CRC-32 of the type bytes followed by the payload.
    pub fn crc(&self) -> (crc: u32)
        ensures
            crc == self@.crc,
            crc == crc32_ieee(self@.chunk_type + self@.data),
    {
        proof {
            use_type_invariant(self);
        }
        self.crc
    }

    /// The payload as text: its bytes read as UTF-8, nothing changed. Fails
    /// with `EncodingError` where the payload is not UTF-8.
    pub fn data_as_string(&self) -> (text: Result<String, ChunkError>)
        ensures
            text matches Ok(s) ==> text_of(self@.data) == Ok::<Seq<char>, ChunkError>(s@),
            text matches Err(e) ==> text_of(self@.data) == Err::<Seq<char>, ChunkError>(e),
    {
        decode_text(self.data.as_slice())
    }

    /// The record of the chunk, as a file holds it.
    pub fn as_bytes(&self) -> (out: Vec<u8>)
        ensures
            out@ == self@.to_bytes(),
            out@.len() == FRAME_BYTES + self@.data.len(),
    {
        proof {
            use_type_invariant(self);
            self.chunk_type.lemma_four_bytes();
        }
        let length_bytes = u32_to_be_bytes(self.length);
        let type_bytes = self.chunk_type.bytes();
        let crc_bytes = u32_to_be_bytes(self.crc);
        let mut out: Vec<u8> = Vec::new();
        out.extend_from_slice(length_bytes.as_slice());
        out.extend_from_slice(type_bytes.as_slice());
        out.extend_from_slice(self.data.as_slice());
        out.extend_from_slice(crc_bytes.as_slice());
        assert(out@ =~= self@.to_bytes());
        out
    }

    /// Reads one record from the front of `input`. Gives the chunk and the
    /// number of bytes that its record takes; what follows the record is
    /// not looked at.
    pub fn read_chunk(input: &[u8]) -> (outcome: Result<(Chunk, usize), ChunkError>)
        ensures
            outcome matches Ok((chunk, used)) ==> chunk@.wf() && parse_chunk(input@) == Ok::<
                (ChunkView, nat),
                ChunkError,
            >((chunk@, used as nat)),
            outcome matches Err(e) ==> parse_chunk(input@) == Err::<(ChunkView, nat), ChunkError>(e),
    {
        if input.len() < 4 {
            return Err(ChunkError::TruncatedInput);
        }
        let length = u32_from_be_bytes(input, 0);
        let count = length as usize;
        if input.len() < FRAME_BYTES || input.len() - FRAME_BYTES < count {
            return Err(ChunkError::TruncatedInput);
        }
        let chunk_type = match ChunkType::try_from([input[4], input[5], input[6], input[7]]) {
            Ok(chunk_type) => chunk_type,
            Err(e) => {
                return Err(e);
            },
        };
        assert(chunk_type@ =~= input@.subrange(4, 8));
        let data = slice_to_vec(slice_subrange(input, 8, 8 + count));
        let stored = u32_from_be_bytes(input, 8 + count);
        let crc = checksum_of(&chunk_type, data.as_slice());
        if stored != crc {
            return Err(ChunkError::ChecksumMismatch);
        }
        Ok((Chunk { length, chunk_type, data, crc }, FRAME_BYTES + count))
    }
}

impl<'a> TryFrom<&'a [u8]> for Chunk {
    type Error = ChunkError;

    /// Reads `input` as exactly one record: as `read_chunk`, but bytes after
    /// the record are an error.
    fn try_from(input: &'a [u8]) -> (outcome: Result<Chunk, ChunkError>)
        ensures
            outcome matches Ok(chunk) ==> chunk@.wf() && parse_whole(input@) == Ok::<
                ChunkView,
                ChunkError,
            >(chunk@),
            outcome matches Err(e) ==> parse_whole(input@) == Err::<ChunkView, ChunkError>(e),
    {
        match Chunk::read_chunk(input) {
            Ok((chunk, used)) => {
                if used != input.len() {
                    return Err(ChunkError::TrailingData);
                }
                Ok(chunk)
            },
            Err(e) => Err(e),
        }
    }
}

impl<'a> TryFromSpecImpl<&'a [u8]> for Chunk {
    /// The outcome is stated over views, in the contract of `try_from`.
    open spec fn obeys_try_from_spec() -> bool {
        false
    }

    open spec fn try_from_spec(input: &'a [u8]) -> Result<Chunk, ChunkError> {
        arbitrary()
    }
}

fn same_bytes(left: &[u8], right: &[u8]) -> (same: bool)
    ensures
        same == (left@ == right@),
{
    if left.len() != right.len() {
        return false;
    }
    let mut i: usize = 0;
    while i < left.len()
        invariant
            i <= left@.len(),
            left@.len() == right@.len(),
            forall|k: int| 0 <= k < i ==> left@[k] == right@[k],
        decreases left@.len() - i,
    {
        if left[i] != right[i] {
            return false;
        }
        i += 1;
    }
    assert(left@ =~= right@);
    true
}

impl PartialEq for Chunk {
    /// Two chunks are equal when their types and their payloads are.
    fn eq(&self, other: &Chunk) -> (same: bool) {
        proof {
            use_type_invariant(self);
            use_type_invariant(other);
        }
        self.chunk_type == other.chunk_type && same_bytes(
            self.data.as_slice(),
            other.data.as_slice(),
        )
    }
}

impl PartialEqSpecImpl for Chunk {
    open spec fn obeys_eq_spec() -> bool {
        true
    }

    open spec fn eq_spec(&self, other: &Chunk) -> bool {
        self@ == other@
    }
}

/// A chunk is determined by its type and its payload: two chunks that agree
/// on both agree on length and checksum too.
pub proof fn lemma_chunk_determined(left: ChunkView, right: ChunkView)
    requires
        left.wf(),
        right.wf(),
        left.chunk_type == right.chunk_type,
        left.data == right.data,
    ensures
        left == right,
        left == chunk_of(left.chunk_type, left.data),
{
}

/// Reading the record of a chunk gives the chunk back, whatever follows the
/// record, and takes the whole record; read as exactly one record, the
/// record alone gives the chunk back.
pub proof fn lemma_round_trip(chunk_type: Seq<u8>, data: Seq<u8>, rest: Seq<u8>)
    requires
        chunk_type.len() == 4,
        data.len() <= u32::MAX,
    ensures
        chunk_of(chunk_type, data).wf(),
        chunk_of(chunk_type, data).to_bytes().len() == FRAME_BYTES + data.len(),
        parse_chunk(chunk_of(chunk_type, data).to_bytes() + rest) == Ok::<
            (ChunkView, nat),
            ChunkError,
        >((chunk_of(chunk_type, data), (FRAME_BYTES + data.len()) as nat)),
        parse_whole(chunk_of(chunk_type, data).to_bytes()) == Ok::<ChunkView, ChunkError>(
            chunk_of(chunk_type, data),
        ),
{
    let chunk = chunk_of(chunk_type, data);
    let record = chunk.to_bytes();
    let count = data.len() as int;
    lemma_be_value_of_be_bytes(chunk.length);
    lemma_be_value_of_be_bytes(chunk.crc);
    let input = record + rest;
    assert(input.subrange(0, 4) =~= be_bytes(chunk.length));
    assert(input.subrange(4, 8) =~= chunk_type);
    assert(input.subrange(8, 8 + count) =~= data);
    assert(input.subrange(8 + count, 12 + count) =~= be_bytes(chunk.crc));
    assert(record + Seq::<u8>::empty() =~= record);
    if rest.len() != 0 {
        let alone = record + Seq::<u8>::empty();
        assert(alone.subrange(0, 4) =~= be_bytes(chunk.length));
        assert(alone.subrange(4, 8) =~= chunk_type);
        assert(alone.subrange(8, 8 + count) =~= data);
        assert(alone.subrange(8 + count, 12 + count) =~= be_bytes(chunk.crc));
    }
}

/// Whatever is read from an input is a well-formed chunk, and its record is
/// the very bytes that were taken from the input.
pub proof fn lemma_read_then_written(input: Seq<u8>)
    requires
        parse_chunk(input) is Ok,
    ensures
        parse_chunk(input)->Ok_0.0.wf(),
        parse_chunk(input)->Ok_0.1 <= input.len(),
        parse_chunk(input)->Ok_0.0.to_bytes() == input.subrange(
            0,
            parse_chunk(input)->Ok_0.1 as int,
        ),
{
    let head = input.subrange(0, 4);
    let count = be_value(head);
    lemma_be_value_bounds(head);
    lemma_be_bytes_of_be_value(head);
    let foot = input.subrange(8 + count, 12 + count);
    lemma_be_value_bounds(foot);
    lemma_be_bytes_of_be_value(foot);
    let chunk = parse_chunk(input)->Ok_0.0;
    assert(chunk.to_bytes() =~= input.subrange(0, 12 + count));
}

/// A record with one byte changed, anywhere after its length field, is
/// rejected for its checksum, whether or not more may follow it.
pub proof fn lemma_changed_byte_is_detected(
    chunk_type: Seq<u8>,
    data: Seq<u8>,
    index: int,
    byte: u8,
)
    requires
        chunk_type.len() == 4,
        data.len() <= u32::MAX,
        4 <= index < FRAME_BYTES + data.len(),
        byte != chunk_of(chunk_type, data).to_bytes()[index],
    ensures
        parse_chunk(chunk_of(chunk_type, data).to_bytes().update(index, byte)) == Err::<
            (ChunkView, nat),
            ChunkError,
        >(ChunkError::ChecksumMismatch),
        parse_whole(chunk_of(chunk_type, data).to_bytes().update(index, byte)) == Err::<
            ChunkView,
            ChunkError,
        >(ChunkError::ChecksumMismatch),
{
    let chunk = chunk_of(chunk_type, data);
    let record = chunk.to_bytes();
    let changed = record.update(index, byte);
    let count = data.len() as int;
    let covered = chunk_type + data;
    lemma_be_value_of_be_bytes(chunk.length);
    lemma_be_value_of_be_bytes(chunk.crc);
    assert(changed.subrange(0, 4) =~= be_bytes(chunk.length));
    if index < 8 + count {
        assert(changed.subrange(4, 8) + changed.subrange(8, 8 + count) =~= covered.update(
            index - 4,
            byte,
        ));
        assert(changed.subrange(8 + count, 12 + count) =~= be_bytes(chunk.crc));
        lemma_crc32_sees_byte_change(covered, index - 4, byte);
    } else {
        assert(changed.subrange(4, 8) =~= chunk_type);
        assert(changed.subrange(8, 8 + count) =~= data);
        let foot = changed.subrange(8 + count, 12 + count);
        assert(foot =~= be_bytes(chunk.crc).update(index - 8 - count, byte));
        assert(foot[index - 8 - count] != be_bytes(chunk.crc)[index - 8 - count]);
        if be_value(foot) == chunk.crc {
            lemma_be_value_injective(foot, be_bytes(chunk.crc));
        }
    }
}

/// The byte `byte` with bit number `bit` inverted.
pub open spec fn flip_bit(byte: u8, bit: u8) -> u8 {
    byte ^ (1u8 << bit)
}

/// Inverting one of its eight bits changes a byte.
pub proof fn lemma_flip_bit_changes(byte: u8, bit: u8)
    by (bit_vector)
    requires
        bit < 8,
    ensures
        flip_bit(byte, bit) != byte,
{
}

/// A record with one bit inverted, in its type, its payload or its
/// checksum, is rejected for its checksum.
pub proof fn lemma_flipped_bit_is_detected(
    chunk_type: Seq<u8>,
    data: Seq<u8>,
    index: int,
    bit: u8,
)
    requires
        chunk_type.len() == 4,
        data.len() <= u32::MAX,
        4 <= index < FRAME_BYTES + data.len(),
        bit < 8,
    ensures
        parse_chunk(
            chunk_of(chunk_type, data).to_bytes().update(
                index,
                flip_bit(chunk_of(chunk_type, data).to_bytes()[index], bit),
            ),
        ) == Err::<(ChunkView, nat), ChunkError>(ChunkError::ChecksumMismatch),
        parse_whole(
            chunk_of(chunk_type, data).to_bytes().update(
                index,
                flip_bit(chunk_of(chunk_type, data).to_bytes()[index], bit),
            ),
        ) == Err::<ChunkView, ChunkError>(ChunkError::ChecksumMismatch),
{
    let record = chunk_of(chunk_type, data).to_bytes();
    lemma_flip_bit_changes(record[index], bit);
    lemma_changed_byte_is_detected(chunk_type, data, index, flip_bit(record[index], bit));
}

/// A record that was cut short, at any place, is reported as truncated.
pub proof fn lemma_prefix_is_truncated(chunk_type: Seq<u8>, data: Seq<u8>, kept: int)
    requires
        chunk_type.len() == 4,
        data.len() <= u32::MAX,
        0 <= kept < FRAME_BYTES + data.len(),
    ensures
        parse_chunk(chunk_of(chunk_type, data).to_bytes().subrange(0, kept)) == Err::<
            (ChunkView, nat),
            ChunkError,
        >(ChunkError::TruncatedInput),
        parse_whole(chunk_of(chunk_type, data).to_bytes().subrange(0, kept)) == Err::<
            ChunkView,
            ChunkError,
        >(ChunkError::TruncatedInput),
{
    let chunk = chunk_of(chunk_type, data);
    let prefix = chunk.to_bytes().subrange(0, kept);
    if kept >= 4 {
        lemma_be_value_of_be_bytes(chunk.length);
        assert(prefix.subrange(0, 4) =~= be_bytes(chunk.length));
    }
}

} // verus!
