//! The record that holds one chunk as bytes.
//!
//! A record is, in this order: the magic tag `TILE`; the format version
//! (two bytes); the chunk's `x` and `y` (four bytes each); from version 2
//! on, the number of layers (two bytes); the tiles of every layer, row by
//! row, two bytes each; and the CRC-32 of the tile bytes (four bytes). All
//! numbers are little-endian. A version 1 record holds the ground layer
//! only.
use crate::tiles::chunk::{ChunkContent, ChunkData};
use crate::tiles::constants::{CHUNK_AREA, NUM_LAYERS, TILE_EMPTY};
use crate::tiles::types::{ChunkPos, TileId};
use crate::text::{decimal_digits, push_unsigned};
use vstd::prelude::*;
use vstd::string::StringExecFns;

verus! {

/// Magic number of chunk records: "TILE" in ASCII.
pub const MAGIC_NUMBER: [u8; 4] = [84, 73, 76, 69];

/// Current record format version. Version 2 holds every layer.
pub const VERSION: u16 = 2;

/// Number of bytes before the layer count: magic, version, `x`, `y`.
pub const HEADER_LEN: usize = 14;

/// Number of tile bytes of one layer: two for each cell.
pub const LAYER_BYTES: usize = 2048;

/// Number of tile bytes of a record of the current version.
pub const PAYLOAD_LEN: usize = 6144;

/// Length of a record of version 1.
pub const RECORD_V1_LEN: usize = 2066;

/// Length of a record of the current version.
pub const RECORD_LEN: usize = 6164;

/// Why a byte sequence is not a chunk record.
#[derive(Debug, Clone, PartialEq, Eq)]
pub enum SerializationError {
    /// The bytes end before the record does.
    UnexpectedEof,
    /// The bytes do not start with the magic tag.
    InvalidMagicNumber,
    /// The record is of a version that this format does not know.
    InvalidVersion(u16),
    /// The record holds another number of layers than a chunk has.
    InvalidChunkSize(usize),
    /// The checksum does not match the tile bytes.
    InvalidChecksum,
}

impl SerializationError {
    /// The error in words.
    pub open spec fn spec_message(self) -> Seq<char> {
        match self {
            SerializationError::UnexpectedEof => "IO error: failed to fill whole buffer"@,
            SerializationError::InvalidMagicNumber => "Invalid magic number"@,
            SerializationError::InvalidVersion(v) => "Invalid version: "@ + decimal_digits(
                v as nat,
            ),
            SerializationError::InvalidChunkSize(s) => "Invalid chunk size: "@ + decimal_digits(
                s as nat,
            ),
            SerializationError::InvalidChecksum => "Checksum mismatch"@,
        }
    }

    /// The error in words, for a log.
    pub fn message(&self) -> (text: String)
        ensures
            text@ == self.spec_message(),
    {
        match self {
            SerializationError::UnexpectedEof => String::from_str(
                "IO error: failed to fill whole buffer",
            ),
            SerializationError::InvalidMagicNumber => String::from_str("Invalid magic number"),
            SerializationError::InvalidVersion(v) => {
                let mut text = String::from_str("Invalid version: ");
                push_unsigned(&mut text, *v as u64);
                text
            },
            SerializationError::InvalidChunkSize(s) => {
                let mut text = String::from_str("Invalid chunk size: ");
                push_unsigned(&mut text, *s as u64);
                text
            },
            SerializationError::InvalidChecksum => String::from_str("Checksum mismatch"),
        }
    }
}

/// The CRC-32 checksum of a byte sequence, as `crc32fast` computes it.
pub uninterp spec fn crc32(bytes: Seq<u8>) -> u32;

/// `crc32fast::hash` computes the CRC-32 of a byte slice. It depends on the
/// bytes alone; nothing else is claimed of it.
pub assume_specification[ crc32fast::hash ](buf: &[u8]) -> (checksum: u32)
    ensures
        checksum == crc32(buf@),
;

/// The magic tag as a sequence.
pub open spec fn magic() -> Seq<u8> {
    seq![84u8, 73u8, 76u8, 69u8]
}

/// The two bytes of a `u16`, low byte first.
pub open spec fn le_bytes_u16(v: u16) -> Seq<u8> {
    seq![(v % 256) as u8, (v / 256) as u8]
}

/// The four bytes of a `u32`, lowest byte first.
pub open spec fn le_bytes_u32(v: u32) -> Seq<u8> {
    seq![
        (v % 256) as u8,
        (v / 256 % 256) as u8,
        (v / 65536 % 256) as u8,
        (v / 16777216) as u8,
    ]
}

/// The `u16` that two bytes hold, low byte first.
pub open spec fn le_u16(low: u8, high: u8) -> u16 {
    (low + high * 256) as u16
}

/// The `u32` that four bytes hold, lowest byte first.
pub open spec fn le_u32(b0: u8, b1: u8, b2: u8, b3: u8) -> u32 {
    (b0 + b1 * 256 + b2 * 65536 + b3 * 16777216) as u32
}

/// The `u16` at a place of a byte sequence.
pub open spec fn u16_at(bytes: Seq<u8>, at: int) -> u16 {
    le_u16(bytes[at], bytes[at + 1])
}

/// The `u32` at a place of a byte sequence.
pub open spec fn u32_at(bytes: Seq<u8>, at: int) -> u32 {
    le_u32(bytes[at], bytes[at + 1], bytes[at + 2], bytes[at + 3])
}

/// An `i32` as the `u32` with the same bits (two's complement).
pub open spec fn i32_bits(v: i32) -> u32 {
    if v >= 0 {
        v as u32
    } else {
        (v + 0x1_0000_0000) as u32
    }
}

/// The `i32` with the bits of a `u32` (two's complement).
pub open spec fn i32_of_bits(bits: u32) -> i32 {
    if bits < 0x8000_0000 {
        bits as i32
    } else {
        (bits - 0x1_0000_0000) as i32
    }
}

/// Tiles as bytes: two for each tile, low byte first.
pub open spec fn tile_bytes(tiles: Seq<TileId>) -> Seq<u8> {
    Seq::new(
        2 * tiles.len(),
        |j: int|
            if j % 2 == 0 {
                (tiles[j / 2] % 256) as u8
            } else {
                (tiles[j / 2] / 256) as u8
            },
    )
}

/// The tiles that bytes hold: one for each two bytes.
pub open spec fn tiles_of_bytes(bytes: Seq<u8>) -> Seq<TileId> {
    Seq::new((bytes.len() / 2) as nat, |k: int| le_u16(bytes[2 * k], bytes[2 * k + 1]))
}

/// The tiles of a chunk, layer after layer.
pub open spec fn all_tiles(content: ChunkContent) -> Seq<TileId> {
    Seq::new(
        (NUM_LAYERS * CHUNK_AREA) as nat,
        |k: int| content.layers[k / (CHUNK_AREA as int)][k % (CHUNK_AREA as int)],
    )
}

/// The layers that a sequence of tiles holds, layer after layer.
pub open spec fn layers_of_tiles(tiles: Seq<TileId>) -> Seq<Seq<TileId>> {
    Seq::new(
        NUM_LAYERS as nat,
        |l: int| Seq::new(CHUNK_AREA as nat, |i: int| tiles[l * CHUNK_AREA + i]),
    )
}

/// The layers of a chunk of which only the ground layer is known: the
/// others are empty.
pub open spec fn layers_of_ground(tiles: Seq<TileId>) -> Seq<Seq<TileId>> {
    Seq::new(
        NUM_LAYERS as nat,
        |l: int|
            Seq::new(
                CHUNK_AREA as nat,
                |i: int|
                    if l == 0 {
                        tiles[i]
                    } else {
                        TILE_EMPTY
                    },
            ),
    )
}

/// The tile bytes of a record of the current version.
pub open spec fn payload(content: ChunkContent) -> Seq<u8> {
    tile_bytes(all_tiles(content))
}

/// The start of every record: magic, version and position.
pub open spec fn header(version: u16, position: ChunkPos) -> Seq<u8> {
    magic() + le_bytes_u16(version) + le_bytes_u32(i32_bits(position.x)) + le_bytes_u32(
        i32_bits(position.y),
    )
}

/// A record of the current version, put together from its parts: the
/// header, the layer count, the tile bytes as given and the checksum as
/// given.
pub open spec fn spec_assemble_record(position: ChunkPos, tile_part: Seq<u8>, checksum: u32) -> Seq<
    u8,
> {
    header(VERSION, position) + le_bytes_u16(NUM_LAYERS as u16) + tile_part + le_bytes_u32(
        checksum,
    )
}

/// The record of a chunk in the current version: its tile bytes, with their
/// CRC-32 as the checksum.
pub open spec fn spec_save_chunk(content: ChunkContent) -> Seq<u8> {
    spec_assemble_record(content.position, payload(content), crc32(payload(content)))
}

/// The record of version 1 for a chunk at `position` with the given ground
/// layer.
pub open spec fn spec_record_v1(position: ChunkPos, ground: Seq<TileId>) -> Seq<u8> {
    header(1, position) + tile_bytes(ground) + le_bytes_u32(crc32(tile_bytes(ground)))
}

/// The position that a header holds.
pub open spec fn header_position(bytes: Seq<u8>) -> ChunkPos {
    ChunkPos { x: i32_of_bits(u32_at(bytes, 6)), y: i32_of_bits(u32_at(bytes, 10)) }
}

/// Where the tile bytes of a record lie, from the first to behind the
/// last: known once the magic tag, the version, the layer count and the
/// length have been found in order, and not otherwise.
pub open spec fn spec_payload_range(bytes: Seq<u8>) -> Option<(int, int)> {
    if bytes.len() < HEADER_LEN || bytes.subrange(0, 4) != magic() {
        None
    } else if u16_at(bytes, 4) == 1 {
        if bytes.len() < RECORD_V1_LEN {
            None
        } else {
            Some((14, 2062))
        }
    } else if u16_at(bytes, 4) == 2 {
        if bytes.len() < RECORD_LEN || u16_at(bytes, 14) != NUM_LAYERS {
            None
        } else {
            Some((16, 6160))
        }
    } else {
        None
    }
}

/// What a byte sequence decodes to, given the checksum that its tile bytes
/// really have. The tests come in the order of the record's parts, each on
/// what has been read so far: the magic tag, the version, then by version
/// the layer count, the length and the checksum. Bytes after the record's
/// end are not looked at.
pub open spec fn spec_load_chunk_checked(bytes: Seq<u8>, actual_checksum: u32) -> Result<
    ChunkContent,
    SerializationError,
> {
    if bytes.len() < 4 {
        Err(SerializationError::UnexpectedEof)
    } else if bytes.subrange(0, 4) != magic() {
        Err(SerializationError::InvalidMagicNumber)
    } else if bytes.len() < HEADER_LEN {
        Err(SerializationError::UnexpectedEof)
    } else if u16_at(bytes, 4) == 1 {
        if bytes.len() < RECORD_V1_LEN {
            Err(SerializationError::UnexpectedEof)
        } else if actual_checksum != u32_at(bytes, 2062) {
            Err(SerializationError::InvalidChecksum)
        } else {
            Ok(
                ChunkContent {
                    position: header_position(bytes),
                    layers: layers_of_ground(tiles_of_bytes(bytes.subrange(14, 2062))),
                },
            )
        }
    } else if u16_at(bytes, 4) == 2 {
        if bytes.len() < 16 {
            Err(SerializationError::UnexpectedEof)
        } else if u16_at(bytes, 14) != NUM_LAYERS {
            Err(SerializationError::InvalidChunkSize(u16_at(bytes, 14) as usize))
        } else if bytes.len() < RECORD_LEN {
            Err(SerializationError::UnexpectedEof)
        } else if actual_checksum != u32_at(bytes, 6160) {
            Err(SerializationError::InvalidChecksum)
        } else {
            Ok(
                ChunkContent {
                    position: header_position(bytes),
                    layers: layers_of_tiles(tiles_of_bytes(bytes.subrange(16, 6160))),
                },
            )
        }
    } else {
        Err(SerializationError::InvalidVersion(u16_at(bytes, 4)))
    }
}

/// The CRC-32 of the tile bytes of a record, where the record has any.
pub open spec fn payload_checksum(bytes: Seq<u8>) -> u32 {
    match spec_payload_range(bytes) {
        Some((start, end)) => crc32(bytes.subrange(start, end)),
        None => 0,
    }
}

/// What a byte sequence decodes to: a chunk, if the bytes hold a record of
/// a known version whose checksum is the CRC-32 of its tile bytes.
pub open spec fn spec_load_chunk(bytes: Seq<u8>) -> Result<ChunkContent, SerializationError> {
    spec_load_chunk_checked(bytes, payload_checksum(bytes))
}

/// Appends a `u16`, low byte first.
fn push_u16(out: &mut Vec<u8>, v: u16)
    ensures
        final(out)@ == old(out)@ + le_bytes_u16(v),
{
    out.push((v % 256) as u8);
    out.push((v / 256) as u8);
    assert(out@ =~= old(out)@ + le_bytes_u16(v));
}

/// Appends a `u32`, lowest byte first.
fn push_u32(out: &mut Vec<u8>, v: u32)
    ensures
        final(out)@ == old(out)@ + le_bytes_u32(v),
{
    out.push((v % 256) as u8);
    out.push((v / 256 % 256) as u8);
    out.push((v / 65536 % 256) as u8);
    out.push((v / 16777216) as u8);
    assert(out@ =~= old(out)@ + le_bytes_u32(v));
}

/// The bits of an `i32` as a `u32`.
fn bits_of_i32(v: i32) -> (bits: u32)
    ensures
        bits == i32_bits(v),
{
    if v >= 0 {
        v as u32
    } else {
        (v as i64 + 0x1_0000_0000) as u32
    }
}

/// The `i32` with the given bits.
fn i32_from_bits(bits: u32) -> (v: i32)
    ensures
        v == i32_of_bits(bits),
{
    if bits < 0x8000_0000 {
        bits as i32
    } else {
        (bits as i64 - 0x1_0000_0000) as i32
    }
}

/// Reads the `u16` at a place.
fn read_u16(bytes: &[u8], at: usize) -> (v: u16)
    requires
        at + 2 <= bytes@.len(),
    ensures
        v == u16_at(bytes@, at as int),
{
    bytes[at] as u16 + (bytes[at + 1] as u16) * 256
}

/// Reads the `u32` at a place.
fn read_u32(bytes: &[u8], at: usize) -> (v: u32)
    requires
        at + 4 <= bytes@.len(),
    ensures
        v == u32_at(bytes@, at as int),
{
    bytes[at] as u32 + (bytes[at + 1] as u32) * 256 + (bytes[at + 2] as u32) * 65536 + (bytes[at
        + 3] as u32) * 16777216
}

/// The tile bytes of a chunk: every layer, row by row, two bytes a tile.
pub fn tile_payload(chunk: &ChunkData) -> (tile_part: Vec<u8>)
    ensures
        tile_part@ == payload(chunk@),
        tile_part@.len() == PAYLOAD_LEN,
{
    let mut all_tile_bytes: Vec<u8> = Vec::new();
    let mut layer_idx: usize = 0;
    while layer_idx < NUM_LAYERS
        invariant
            0 <= layer_idx <= NUM_LAYERS,
            all_tile_bytes@.len() == layer_idx * LAYER_BYTES,
            forall|j: int|
                0 <= j < all_tile_bytes@.len() ==> #[trigger] all_tile_bytes@[j] == payload(
                    chunk@,
                )[j],
        decreases NUM_LAYERS - layer_idx,
    {
        let mut tile_idx: usize = 0;
        while tile_idx < CHUNK_AREA
            invariant
                0 <= tile_idx <= CHUNK_AREA,
                0 <= layer_idx < NUM_LAYERS,
                all_tile_bytes@.len() == layer_idx * LAYER_BYTES + 2 * tile_idx,
                forall|j: int|
                    0 <= j < all_tile_bytes@.len() ==> #[trigger] all_tile_bytes@[j] == payload(
                        chunk@,
                    )[j],
            decreases CHUNK_AREA - tile_idx,
        {
            let tile: TileId = chunk.layers[layer_idx][tile_idx];
            proof {
                let k = layer_idx * 1024 + tile_idx;
                let j = all_tile_bytes@.len() as int;
                assert(j == 2 * k);
                assert(j / 2 == k && (j + 1) / 2 == k);
                assert(k / 1024 == layer_idx as int && k % 1024 == tile_idx as int);
                assert(all_tiles(chunk@)[k] == tile);
            }
            all_tile_bytes.push((tile % 256) as u8);
            all_tile_bytes.push((tile / 256) as u8);
            tile_idx += 1;
        }
        layer_idx += 1;
    }
    assert(all_tile_bytes@ =~= payload(chunk@));
    all_tile_bytes
}

/// Put a record of the current version together: the header for the
/// position, the layer count, the tile bytes and the checksum.
pub fn assemble_record(position: ChunkPos, tile_part: Vec<u8>, checksum: u32) -> (record: Vec<u8>)
    ensures
        record@ == spec_assemble_record(position, tile_part@, checksum),
        record@.len() == 20 + tile_part@.len(),
{
    let mut tile_part = tile_part;
    let mut record: Vec<u8> = Vec::new();
    record.push(MAGIC_NUMBER[0]);
    record.push(MAGIC_NUMBER[1]);
    record.push(MAGIC_NUMBER[2]);
    record.push(MAGIC_NUMBER[3]);
    assert(record@ =~= magic());
    push_u16(&mut record, VERSION);
    push_u32(&mut record, bits_of_i32(position.x));
    push_u32(&mut record, bits_of_i32(position.y));
    assert(record@ == header(VERSION, position));
    push_u16(&mut record, NUM_LAYERS as u16);
    record.append(&mut tile_part);
    push_u32(&mut record, checksum);
    record
}

/// Save a chunk as a record of the current version: the bytes to write.
pub fn save_chunk(chunk: &ChunkData) -> (record: Vec<u8>)
    ensures
        record@ == spec_save_chunk(chunk@),
        record@.len() == RECORD_LEN,
{
    let all_tile_bytes = tile_payload(chunk);
    let checksum = crc32fast::hash(all_tile_bytes.as_slice());
    assemble_record(chunk.position, all_tile_bytes, checksum)
}

/// Find the tile bytes of a record: the places of the first and behind the
/// last. They are found if the bytes start with the magic tag, name a known
/// version and, in version 2, the right layer count, and are long enough to
/// hold the whole record.
pub fn payload_range(bytes: &[u8]) -> (range: Option<(usize, usize)>)
    ensures
        match range {
            Some((start, end)) => spec_payload_range(bytes@) == Some((start as int, end as int))
                && start <= end <= bytes@.len(),
            None => spec_payload_range(bytes@) is None,
        },
{
    if bytes.len() < HEADER_LEN {
        return None;
    }
    if !has_magic(bytes) {
        return None;
    }
    let version = read_u16(bytes, 4);
    if version == 1 {
        if bytes.len() < RECORD_V1_LEN {
            None
        } else {
            Some((14, 2062))
        }
    } else if version == 2 {
        if bytes.len() < RECORD_LEN || read_u16(bytes, 14) as usize != NUM_LAYERS {
            None
        } else {
            Some((16, 6160))
        }
    } else {
        None
    }
}

/// Whether the bytes start with the magic tag.
fn has_magic(bytes: &[u8]) -> (found: bool)
    requires
        bytes@.len() >= 4,
    ensures
        found == (bytes@.subrange(0, 4) == magic()),
{
    let found = bytes[0] == MAGIC_NUMBER[0] && bytes[1] == MAGIC_NUMBER[1] && bytes[2]
        == MAGIC_NUMBER[2] && bytes[3] == MAGIC_NUMBER[3];
    proof {
        let head = bytes@.subrange(0, 4);
        assert(head[0] == bytes@[0] && head[1] == bytes@[1] && head[2] == bytes@[2] && head[3]
            == bytes@[3]);
        if found {
            assert(head =~= magic());
        }
    }
    found
}

/// Load a chunk from the bytes of a record, given the checksum that the
/// record's tile bytes really have: the record is taken if the checksum it
/// holds equals the one given.
pub fn load_chunk_checked(bytes: &[u8], actual_checksum: u32) -> (loaded: Result<
    ChunkData,
    SerializationError,
>)
    ensures
        match loaded {
            Ok(chunk) => spec_load_chunk_checked(bytes@, actual_checksum) == Ok::<
                ChunkContent,
                SerializationError,
            >(chunk@),
            Err(e) => spec_load_chunk_checked(bytes@, actual_checksum) == Err::<
                ChunkContent,
                SerializationError,
            >(e),
        },
{
    if bytes.len() < 4 {
        return Err(SerializationError::UnexpectedEof);
    }
    if !has_magic(bytes) {
        return Err(SerializationError::InvalidMagicNumber);
    }
    if bytes.len() < HEADER_LEN {
        return Err(SerializationError::UnexpectedEof);
    }
    let version = read_u16(bytes, 4);
    let position = ChunkPos::new(
        i32_from_bits(read_u32(bytes, 6)),
        i32_from_bits(read_u32(bytes, 10)),
    );
    if version == 1 {
        if bytes.len() < RECORD_V1_LEN {
            return Err(SerializationError::UnexpectedEof);
        }
        let tile_bytes = &bytes[14..2062];
        let expected_checksum = read_u32(bytes, 2062);
        if actual_checksum != expected_checksum {
            return Err(SerializationError::InvalidChecksum);
        }
        let chunk = chunk_of_tile_bytes(position, tile_bytes, 1);
        assert(chunk@.layers =~~= layers_of_ground(tiles_of_bytes(tile_bytes@)));
        Ok(chunk)
    } else if version == 2 {
        if bytes.len() < 16 {
            return Err(SerializationError::UnexpectedEof);
        }
        let num_layers = read_u16(bytes, 14) as usize;
        if num_layers != NUM_LAYERS {
            return Err(SerializationError::InvalidChunkSize(num_layers));
        }
        if bytes.len() < RECORD_LEN {
            return Err(SerializationError::UnexpectedEof);
        }
        let all_tile_bytes = &bytes[16..6160];
        let expected_checksum = read_u32(bytes, 6160);
        if actual_checksum != expected_checksum {
            return Err(SerializationError::InvalidChecksum);
        }
        let chunk = chunk_of_tile_bytes(position, all_tile_bytes, NUM_LAYERS);
        assert(chunk@.layers =~~= layers_of_tiles(tiles_of_bytes(all_tile_bytes@)));
        Ok(chunk)
    } else {
        Err(SerializationError::InvalidVersion(version))
    }
}

/// Load a chunk from the bytes of a record, of version 1 or 2. A version 1
/// record gives its tiles to the ground layer and leaves the others empty.
pub fn load_chunk(bytes: &[u8]) -> (loaded: Result<ChunkData, SerializationError>)
    ensures
        match loaded {
            Ok(chunk) => spec_load_chunk(bytes@) == Ok::<ChunkContent, SerializationError>(chunk@),
            Err(e) => spec_load_chunk(bytes@) == Err::<ChunkContent, SerializationError>(e),
        },
{
    let actual_checksum = match payload_range(bytes) {
        Some((start, end)) => crc32fast::hash(&bytes[start..end]),
        None => 0,
    };
    load_chunk_checked(bytes, actual_checksum)
}

/// The chunk whose first `layer_count` layers hold the tiles that the bytes
/// give, layer after layer, and whose other layers are empty.
fn chunk_of_tile_bytes(position: ChunkPos, tile_bytes: &[u8], layer_count: usize) -> (chunk:
    ChunkData)
    requires
        layer_count <= NUM_LAYERS,
        tile_bytes@.len() == layer_count * LAYER_BYTES,
    ensures
        chunk@.position == position,
        chunk@.wf(),
        forall|l: int, i: int|
            0 <= l < NUM_LAYERS && 0 <= i < CHUNK_AREA ==> #[trigger] chunk@.layers[l][i] == (if l
                < layer_count {
                tiles_of_bytes(tile_bytes@)[l * CHUNK_AREA + i]
            } else {
                TILE_EMPTY
            }),
{
    let mut chunk = ChunkData::empty(position);
    proof {
        assert forall|l: int, i: int| 0 <= l < NUM_LAYERS && 0 <= i < CHUNK_AREA implies chunk.layers[l][i]
            == TILE_EMPTY by {
            assert(chunk@.layers[l][i] == TILE_EMPTY);
        }
    }
    let mut byte_idx: usize = 0;
    let mut layer_idx: usize = 0;
    while layer_idx < layer_count
        invariant
            0 <= layer_idx <= layer_count <= NUM_LAYERS,
            tile_bytes@.len() == layer_count * LAYER_BYTES,
            byte_idx == layer_idx * LAYER_BYTES,
            chunk.position == position,
            forall|l: int, i: int|
                0 <= l < NUM_LAYERS && 0 <= i < CHUNK_AREA ==> chunk.layers[l][i] == (if l
                    < layer_idx {
                    tiles_of_bytes(tile_bytes@)[l * CHUNK_AREA + i]
                } else {
                    TILE_EMPTY
                }),
        decreases layer_count - layer_idx,
    {
        let mut tile_idx: usize = 0;
        while tile_idx < CHUNK_AREA
            invariant
                0 <= tile_idx <= CHUNK_AREA,
                0 <= layer_idx < layer_count <= NUM_LAYERS,
                tile_bytes@.len() == layer_count * LAYER_BYTES,
                byte_idx == layer_idx * LAYER_BYTES + 2 * tile_idx,
                chunk.position == position,
                forall|l: int, i: int|
                    0 <= l < NUM_LAYERS && 0 <= i < CHUNK_AREA ==> chunk.layers[l][i] == (if l
                        < layer_idx || (l == layer_idx && i < tile_idx) {
                        tiles_of_bytes(tile_bytes@)[l * CHUNK_AREA + i]
                    } else {
                        TILE_EMPTY
                    }),
            decreases CHUNK_AREA - tile_idx,
        {
            let tile: TileId = tile_bytes[byte_idx] as u16 + (tile_bytes[byte_idx + 1] as u16)
                * 256;
            proof {
                let k = layer_idx * 1024 + tile_idx;
                assert(byte_idx == 2 * k);
                assert(tile_bytes@.len() / 2 == layer_count * 1024);
                assert(tiles_of_bytes(tile_bytes@)[k] == tile);
            }
            chunk.layers[layer_idx][tile_idx] = tile;
            byte_idx += 2;
            tile_idx += 1;
        }
        layer_idx += 1;
    }
    chunk
}

/// Two bytes written low byte first read back as the number written.
pub proof fn lemma_le_u16_round_trip(v: u16)
    ensures
        le_bytes_u16(v).len() == 2,
        u16_at(le_bytes_u16(v), 0) == v,
{
}

/// Four bytes written lowest byte first read back as the number written.
pub proof fn lemma_le_u32_round_trip(v: u32)
    ensures
        le_bytes_u32(v).len() == 4,
        u32_at(le_bytes_u32(v), 0) == v,
{
}

/// The bits of an `i32` give the `i32` back.
pub proof fn lemma_i32_bits_round_trip(v: i32)
    ensures
        i32_of_bits(i32_bits(v)) == v,
{
}

/// Tiles written as bytes read back as the tiles written.
pub proof fn lemma_tile_bytes_round_trip(tiles: Seq<TileId>)
    ensures
        tile_bytes(tiles).len() == 2 * tiles.len(),
        tiles_of_bytes(tile_bytes(tiles)) == tiles,
{
    let bytes = tile_bytes(tiles);
    assert(bytes.len() / 2 == tiles.len());
    assert forall|k: int| 0 <= k < tiles.len() implies #[trigger] tiles_of_bytes(bytes)[k]
        == tiles[k] by {
        assert((2 * k) % 2 == 0 && (2 * k) / 2 == k);
        assert((2 * k + 1) % 2 == 1 && (2 * k + 1) / 2 == k);
    }
    assert(tiles_of_bytes(bytes) =~= tiles);
}

/// The header reads back: its length, its magic tag, its version and its
/// position, whatever follows it.
pub proof fn lemma_header_reads_back(version: u16, position: ChunkPos, rest: Seq<u8>)
    ensures
        header(version, position).len() == HEADER_LEN,
        (header(version, position) + rest).subrange(0, 4) == magic(),
        u16_at(header(version, position) + rest, 4) == version,
        header_position(header(version, position) + rest) == position,
{
    let h = header(version, position);
    let bytes = h + rest;
    let vb = le_bytes_u16(version);
    let xb = le_bytes_u32(i32_bits(position.x));
    let yb = le_bytes_u32(i32_bits(position.y));
    assert(h.len() == 14);
    assert(bytes.subrange(0, 4) =~= magic());
    assert(bytes[4] == vb[0] && bytes[5] == vb[1]);
    assert(bytes[6] == xb[0] && bytes[7] == xb[1] && bytes[8] == xb[2] && bytes[9] == xb[3]);
    assert(bytes[10] == yb[0] && bytes[11] == yb[1] && bytes[12] == yb[2] && bytes[13] == yb[3]);
    lemma_le_u16_round_trip(version);
    lemma_le_u32_round_trip(i32_bits(position.x));
    lemma_le_u32_round_trip(i32_bits(position.y));
    lemma_i32_bits_round_trip(position.x);
    lemma_i32_bits_round_trip(position.y);
}

/// The parts of a record of the current version, by their places.
pub proof fn lemma_record_parts(position: ChunkPos, tile_part: Seq<u8>, checksum: u32)
    requires
        tile_part.len() == PAYLOAD_LEN,
    ensures
        ({
            let bytes = spec_assemble_record(position, tile_part, checksum);
            &&& bytes.len() == RECORD_LEN
            &&& spec_payload_range(bytes) == Some((16int, 6160int))
            &&& bytes.subrange(0, 4) == magic()
            &&& u16_at(bytes, 4) == VERSION
            &&& header_position(bytes) == position
            &&& u16_at(bytes, 14) == NUM_LAYERS
            &&& bytes.subrange(16, 6160) == tile_part
            &&& u32_at(bytes, 6160) == checksum
        }),
{
    let h = header(VERSION, position);
    let nb = le_bytes_u16(NUM_LAYERS as u16);
    let cb = le_bytes_u32(checksum);
    let bytes = h + nb + tile_part + cb;
    lemma_header_reads_back(VERSION, position, nb + tile_part + cb);
    assert(bytes =~= h + (nb + tile_part + cb));
    assert(bytes[14] == nb[0] && bytes[15] == nb[1]);
    assert(bytes.subrange(16, 6160) =~= tile_part);
    assert(bytes[6160] == cb[0] && bytes[6161] == cb[1] && bytes[6162] == cb[2] && bytes[6163]
        == cb[3]);
    lemma_le_u32_round_trip(checksum);
}

/// The parts of a record of version 1, by their places.
pub proof fn lemma_record_v1_parts(position: ChunkPos, tile_part: Seq<u8>, checksum: u32)
    requires
        tile_part.len() == LAYER_BYTES,
    ensures
        ({
            let bytes = header(1, position) + tile_part + le_bytes_u32(checksum);
            &&& bytes.len() == RECORD_V1_LEN
            &&& spec_payload_range(bytes) == Some((14int, 2062int))
            &&& bytes.subrange(0, 4) == magic()
            &&& u16_at(bytes, 4) == 1
            &&& header_position(bytes) == position
            &&& bytes.subrange(14, 2062) == tile_part
            &&& u32_at(bytes, 2062) == checksum
        }),
{
    let h = header(1, position);
    let cb = le_bytes_u32(checksum);
    let bytes = h + tile_part + cb;
    lemma_header_reads_back(1, position, tile_part + cb);
    assert(bytes =~= h + (tile_part + cb));
    assert(bytes.subrange(14, 2062) =~= tile_part);
    assert(bytes[2062] == cb[0] && bytes[2063] == cb[1] && bytes[2064] == cb[2] && bytes[2065]
        == cb[3]);
    lemma_le_u32_round_trip(checksum);
}

/// The tile bytes of a chunk give its layers back.
pub proof fn lemma_payload_round_trip(content: ChunkContent)
    requires
        content.wf(),
    ensures
        payload(content).len() == PAYLOAD_LEN,
        layers_of_tiles(tiles_of_bytes(payload(content))) == content.layers,
{
    let tiles = all_tiles(content);
    lemma_tile_bytes_round_trip(tiles);
    let layers = layers_of_tiles(tiles);
    assert forall|l: int| 0 <= l < NUM_LAYERS implies #[trigger] layers[l] == content.layers[l] by {
        assert forall|i: int| 0 <= i < CHUNK_AREA implies layers[l][i] == content.layers[l][i] by {
            let k = l * 1024 + i;
            assert(k / 1024 == l && k % 1024 == i);
        }
        assert(layers[l] =~= content.layers[l]);
    }
    assert(layers =~= content.layers);
}

/// Saving and loading gives the chunk back: the record of any chunk decodes,
/// and to content equal to the chunk's cell for cell.
pub proof fn lemma_save_then_load(content: ChunkContent)
    requires
        content.wf(),
    ensures
        spec_load_chunk(spec_save_chunk(content)) == Ok::<ChunkContent, SerializationError>(
            content,
        ),
{
    lemma_payload_round_trip(content);
    lemma_record_parts(content.position, payload(content), crc32(payload(content)));
    let loaded = spec_load_chunk(spec_save_chunk(content));
    assert(loaded is Ok);
    assert(loaded->Ok_0.layers == content.layers);
    assert(loaded->Ok_0.position == content.position);
}

/// A record of version 1 loads under the current format: its tiles are the
/// ground layer, and every other layer is empty.
pub proof fn lemma_load_record_v1(position: ChunkPos, ground: Seq<TileId>)
    requires
        ground.len() == CHUNK_AREA,
    ensures
        spec_load_chunk(spec_record_v1(position, ground)) == Ok::<
            ChunkContent,
            SerializationError,
        >(ChunkContent { position, layers: layers_of_ground(ground) }),
        layers_of_ground(ground)[0] == ground,
        forall|l: int, i: int|
            1 <= l < NUM_LAYERS && 0 <= i < CHUNK_AREA ==> #[trigger] layers_of_ground(
                ground,
            )[l][i] == TILE_EMPTY,
{
    lemma_tile_bytes_round_trip(ground);
    lemma_record_v1_parts(position, tile_bytes(ground), crc32(tile_bytes(ground)));
    assert(layers_of_ground(ground)[0] =~= ground);
}

/// A chunk is loaded only from tile bytes that match the record's checksum:
/// whenever loading succeeds, the record's tile bytes have been found, and
/// their CRC-32 is the checksum that follows them.
pub proof fn lemma_loaded_means_checked(bytes: Seq<u8>)
    requires
        spec_load_chunk(bytes) is Ok,
    ensures
        spec_payload_range(bytes) is Some,
        crc32(
            bytes.subrange(spec_payload_range(bytes)->Some_0.0, spec_payload_range(bytes)->Some_0.1),
        ) == u32_at(bytes, spec_payload_range(bytes)->Some_0.1),
{
}

/// Where the tile bytes of a record cannot be found, loading fails whatever
/// the checksum: the checksum is looked at last.
pub proof fn lemma_no_payload_no_chunk(bytes: Seq<u8>, actual_checksum: u32)
    requires
        spec_payload_range(bytes) is None,
    ensures
        spec_load_chunk_checked(bytes, actual_checksum) is Err,
        spec_load_chunk_checked(bytes, actual_checksum) == spec_load_chunk(bytes),
{
}

/// Replacing an element in the middle one of three joined sequences
/// replaces it in that part alone.
pub proof fn lemma_update_middle(a: Seq<u8>, b: Seq<u8>, c: Seq<u8>, i: int, v: u8)
    requires
        0 <= i < b.len(),
    ensures
        (a + b + c).update(a.len() + i, v) == a + b.update(i, v) + c,
{
    assert((a + b + c).update(a.len() + i, v) =~= a + b.update(i, v) + c);
}

/// A changed tile byte is found out by the checksum: if one byte of a
/// record's tile bytes is replaced, and the CRC-32 of the tile bytes is then
/// another than before, loading fails with `InvalidChecksum`.
pub proof fn lemma_corrupt_payload_rejected(content: ChunkContent, at: int, byte: u8)
    requires
        content.wf(),
        16 <= at < 6160,
        crc32(payload(content).update(at - 16, byte)) != crc32(payload(content)),
    ensures
        spec_load_chunk(spec_save_chunk(content).update(at, byte)) == Err::<
            ChunkContent,
            SerializationError,
        >(SerializationError::InvalidChecksum),
{
    lemma_payload_round_trip(content);
    let checksum = crc32(payload(content));
    let changed = payload(content).update(at - 16, byte);
    let start = header(VERSION, content.position) + le_bytes_u16(NUM_LAYERS as u16);
    let corrupt = spec_assemble_record(content.position, changed, checksum);
    assert(start.len() == 16) by {
        lemma_header_reads_back(VERSION, content.position, Seq::empty());
    }
    assert(spec_save_chunk(content).update(at, byte) == corrupt) by {
        lemma_update_middle(start, payload(content), le_bytes_u32(checksum), at - 16, byte);
    }
    lemma_record_parts(content.position, changed, checksum);
}

/// Four bytes are the bytes of the number that they hold.
pub proof fn lemma_le_u32_bytes_round_trip(b0: u8, b1: u8, b2: u8, b3: u8)
    ensures
        le_bytes_u32(le_u32(b0, b1, b2, b3)) == seq![b0, b1, b2, b3],
{
    let v: int = b0 + b1 * 256 + b2 * 65536 + b3 * 16777216;
    let high: int = b1 + b2 * 256 + b3 * 65536;
    let higher: int = b2 + b3 * 256;
    assert(v == high * 256 + b0);
    assert(v % 256 == b0 as int && v / 256 == high);
    assert(high == higher * 256 + b1);
    assert(high % 256 == b1 as int && high / 256 == higher);
    assert(v / 65536 == higher);
    assert(higher % 256 == b2 as int && higher / 256 == b3 as int);
    assert(v / 16777216 == b3 as int);
    assert(le_u32(b0, b1, b2, b3) == v);
    assert(le_bytes_u32(le_u32(b0, b1, b2, b3)) =~= seq![b0, b1, b2, b3]);
}

/// A changed checksum byte is always found out: if one byte of a record's
/// checksum is replaced by another, loading fails with `InvalidChecksum`.
pub proof fn lemma_corrupt_checksum_rejected(content: ChunkContent, at: int, byte: u8)
    requires
        content.wf(),
        6160 <= at < 6164,
        byte != spec_save_chunk(content)[at],
    ensures
        spec_load_chunk(spec_save_chunk(content).update(at, byte)) == Err::<
            ChunkContent,
            SerializationError,
        >(SerializationError::InvalidChecksum),
{
    lemma_payload_round_trip(content);
    let checksum = crc32(payload(content));
    let record = spec_save_chunk(content);
    let corrupt = record.update(at, byte);
    lemma_record_parts(content.position, payload(content), checksum);
    assert(corrupt.subrange(0, 4) =~= record.subrange(0, 4));
    assert(corrupt.subrange(16, 6160) =~= record.subrange(16, 6160));
    assert(u32_at(corrupt, 6160) != u32_at(record, 6160)) by {
        lemma_le_u32_bytes_round_trip(
            record[6160],
            record[6161],
            record[6162],
            record[6163],
        );
        lemma_le_u32_bytes_round_trip(
            corrupt[6160],
            corrupt[6161],
            corrupt[6162],
            corrupt[6163],
        );
        if u32_at(corrupt, 6160) == u32_at(record, 6160) {
            let old_bytes = seq![record[6160], record[6161], record[6162], record[6163]];
            let new_bytes = seq![corrupt[6160], corrupt[6161], corrupt[6162], corrupt[6163]];
            assert(old_bytes == new_bytes);
            assert(old_bytes[at - 6160] == record[at]);
            assert(new_bytes[at - 6160] == byte);
        }
    }
}

} // verus!
