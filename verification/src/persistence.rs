//! Framing and validation of saved worlds: slot names, the versioned byte
//! header in front of every save file, and the checks a chunk archive must
//! pass before any of it reaches the world.

use vstd::prelude::*;
use vstd::string::StringSliceAdditionalSpecFns;

use crate::block::id::BUILTIN_BLOCK_COUNT;
use crate::block::BlockId;
use crate::chunk::Chunk;
use crate::coordinates::{ChunkPos, CHUNK_VOLUME};
use crate::generation::streaming::ChunkSet;
use crate::text::{trim, trimmed};

verus! {

/// Format version of the world metadata file.
pub const WORLD_SAVE_VERSION: u32 = 2;

/// Format version of the chunk archive file.
pub const CHUNK_ARCHIVE_VERSION: u32 = 1;

/// Largest metadata file that is read (64 KiB).
pub const MAX_SAVE_BYTES: usize = 65536;

/// Largest chunk archive that is read or written (256 MiB).
pub const MAX_CHUNK_ARCHIVE_BYTES: usize = 268435456;

/// Eight magic bytes followed by a little-endian `u32` version.
pub const FRAME_HEADER_LEN: usize = 12;

/// Longest accepted save slot name.
pub const MAX_WORLD_NAME_LEN: usize = 128;

/// A character allowed in a save slot name: ASCII letter, digit, `-` or `_`.
pub open spec fn is_slot_char(c: char) -> bool {
    ||| ('a' <= c && c <= 'z')
    ||| ('A' <= c && c <= 'Z')
    ||| ('0' <= c && c <= '9')
    ||| c == '-'
    ||| c == '_'
}

/// A slot name is 1 to 128 allowed characters, so it can never name a path
/// outside its own directory.
pub open spec fn spec_valid_world_name(name: Seq<char>) -> bool {
    &&& 0 < name.len() <= MAX_WORLD_NAME_LEN
    &&& forall|i: int| 0 <= i < name.len() ==> is_slot_char(#[trigger] name[i])
}

fn slot_char(c: char) -> (r: bool)
    ensures
        r == is_slot_char(c),
{
    (c >= 'a' && c <= 'z') || (c >= 'A' && c <= 'Z') || (c >= '0' && c <= '9') || c == '-' || c
        == '_'
}

/// Whether `name` may be used as a save slot directory name.
pub fn valid_world_name(name: &str) -> (r: bool)
    ensures
        r == spec_valid_world_name(name@),
{
    broadcast use vstd::string::axiom_spec_iter;
    broadcast use vstd::string::is_ascii_spec_bytes;

    let mut allowed = true;
    for c in it: name.chars()
        invariant
            it.seq() == name@,
            allowed == (forall|j: int| 0 <= j < it.index() ==> is_slot_char(#[trigger] name@[j])),
            it.index() == it.seq().len() ==> (allowed == (forall|j: int|
                0 <= j < name@.len() ==> is_slot_char(#[trigger] name@[j]))),
    {
        allowed = allowed && slot_char(c);
    }
    if !allowed || name.is_empty() {
        return false;
    }
    proof {
        assert(vstd::string::is_ascii(name)) by {
            assert forall|i: int| 0 <= i < name@.len() implies '\0' <= #[trigger] name@[i]
                <= '\u{7f}' by {
                assert(is_slot_char(name@[i]));
            }
        }
        assert(name.spec_bytes().len() == name@.len());
    }
    name.as_bytes().len() <= MAX_WORLD_NAME_LEN
}

/// Magic bytes of the world metadata file: `JABASAVE`.
pub open spec fn spec_save_magic() -> Seq<u8> {
    seq![74u8, 65u8, 66u8, 65u8, 83u8, 65u8, 86u8, 69u8]
}

/// Magic bytes of the chunk archive file: `JABACHNK`.
pub open spec fn spec_chunk_magic() -> Seq<u8> {
    seq![74u8, 65u8, 66u8, 65u8, 67u8, 72u8, 78u8, 75u8]
}

pub fn save_magic() -> (r: [u8; 8])
    ensures
        r@ == spec_save_magic(),
{
    let r = [74u8, 65u8, 66u8, 65u8, 83u8, 65u8, 86u8, 69u8];
    assert(r@ =~= spec_save_magic());
    r
}

pub fn chunk_magic() -> (r: [u8; 8])
    ensures
        r@ == spec_chunk_magic(),
{
    let r = [74u8, 65u8, 66u8, 65u8, 67u8, 72u8, 78u8, 75u8];
    assert(r@ =~= spec_chunk_magic());
    r
}

/// The four little-endian bytes of `v`.
pub open spec fn le_bytes(v: u32) -> Seq<u8> {
    seq![
        (v % 256) as u8,
        ((v / 256) % 256) as u8,
        ((v / 65536) % 256) as u8,
        (v / 16777216) as u8,
    ]
}

/// The number whose little-endian bytes are `b[0..4]`.
pub open spec fn le_value(b: Seq<u8>) -> int {
    b[0] + 256 * b[1] + 65536 * b[2] + 16777216 * b[3]
}

/// A framed file: magic, version, then the payload.
pub open spec fn framed(magic: Seq<u8>, version: u32, payload: Seq<u8>) -> Seq<u8> {
    magic + le_bytes(version) + payload
}

/// Why a framed file was refused.
#[derive(Clone, Copy, Debug, PartialEq, Eq, Structural)]
pub enum FrameError {
    /// The file is larger than its format allows.
    TooLarge,
    /// The file does not start with the expected magic bytes.
    UnknownFormat,
    /// The magic is present but the version field is cut short.
    Truncated,
    /// The version field names another format version.
    UnsupportedVersion(u32),
}

/// How a framed file of `bytes` is read: the payload after the header, or
/// the first check it fails, in the order size, magic, header, version.
pub open spec fn spec_decode_frame(bytes: Seq<u8>, magic: Seq<u8>, version: u32, max_len: int) -> Result<
    Seq<u8>,
    FrameError,
> {
    if bytes.len() > max_len {
        Err(FrameError::TooLarge)
    } else if bytes.len() < 8 || bytes.subrange(0, 8) != magic {
        Err(FrameError::UnknownFormat)
    } else if bytes.len() < FRAME_HEADER_LEN {
        Err(FrameError::Truncated)
    } else if le_value(bytes.subrange(8, 12)) != version {
        Err(FrameError::UnsupportedVersion(le_value(bytes.subrange(8, 12)) as u32))
    } else {
        Ok(bytes.subrange(FRAME_HEADER_LEN as int, bytes.len() as int))
    }
}

proof fn lemma_le_round_trip(v: u32)
    ensures
        le_value(le_bytes(v)) == v,
{
    let b0 = v % 256;
    let b1 = (v / 256) % 256;
    let b2 = (v / 65536) % 256;
    let b3 = v / 16777216;
    assert(b0 + 256 * b1 + 65536 * b2 + 16777216 * b3 == v) by (nonlinear_arith)
        requires
            b0 == v % 256,
            b1 == (v / 256) % 256,
            b2 == (v / 65536) % 256,
            b3 == v / 16777216,
            0 <= v < 4294967296,
    {
        assert(v == 256 * (v / 256) + v % 256);
        assert(v / 256 == 256 * ((v / 256) / 256) + (v / 256) % 256);
        assert((v / 256) / 256 == v / 65536);
        assert(v / 65536 == 256 * ((v / 65536) / 256) + (v / 65536) % 256);
        assert((v / 65536) / 256 == v / 16777216);
    }
    assert(b3 < 256);
}

fn le_u32(b0: u8, b1: u8, b2: u8, b3: u8) -> (r: u32)
    ensures
        r == b0 + 256 * b1 + 65536 * b2 + 16777216 * b3,
{
    (b0 as u32) + 256 * (b1 as u32) + 65536 * (b2 as u32) + 16777216 * (b3 as u32)
}

fn starts_with_magic(bytes: &[u8], magic: &[u8; 8]) -> (r: bool)
    ensures
        r == (bytes@.len() >= 8 && bytes@.subrange(0, 8) == magic@),
{
    if bytes.len() < 8 {
        return false;
    }
    let mut i: usize = 0;
    while i < 8
        invariant
            i <= 8,
            bytes@.len() >= 8,
            magic@.len() == 8,
            forall|j: int| 0 <= j < i ==> bytes@[j] == magic@[j],
        decreases 8 - i,
    {
        if bytes[i] != magic[i] {
            assert(bytes@.subrange(0, 8)[i as int] != magic@[i as int]);
            return false;
        }
        i = i + 1;
    }
    assert(bytes@.subrange(0, 8) =~= magic@);
    true
}

/// Puts the header in front of `payload`.
pub fn encode_frame(magic: &[u8; 8], version: u32, payload: &[u8]) -> (r: Vec<u8>)
    ensures
        r@ == framed(magic@, version, payload@),
{
    let mut bytes: Vec<u8> = Vec::new();
    let mut i: usize = 0;
    while i < 8
        invariant
            i <= 8,
            magic@.len() == 8,
            bytes@ == magic@.subrange(0, i as int),
        decreases 8 - i,
    {
        bytes.push(magic[i]);
        i = i + 1;
        assert(bytes@ =~= magic@.subrange(0, i as int));
    }
    bytes.push((version % 256) as u8);
    bytes.push(((version / 256) % 256) as u8);
    bytes.push(((version / 65536) % 256) as u8);
    bytes.push((version / 16777216) as u8);
    assert(bytes@ =~= magic@ + le_bytes(version));
    let ghost head = bytes@;
    let mut k: usize = 0;
    while k < payload.len()
        invariant
            k <= payload@.len(),
            head.len() == 12,
            bytes@ == head + payload@.subrange(0, k as int),
        decreases payload@.len() - k,
    {
        bytes.push(payload[k]);
        k = k + 1;
        assert(bytes@ =~= head + payload@.subrange(0, k as int));
    }
    assert(payload@.subrange(0, payload@.len() as int) =~= payload@);
    bytes
}

/// Checks the header of a framed file and hands back its payload.
pub fn decode_frame(bytes: &[u8], magic: &[u8; 8], version: u32, max_len: usize) -> (r: Result<
    Vec<u8>,
    FrameError,
>)
    ensures
        match r {
            Ok(payload) => spec_decode_frame(bytes@, magic@, version, max_len as int) == Ok::<
                Seq<u8>,
                FrameError,
            >(payload@),
            Err(e) => spec_decode_frame(bytes@, magic@, version, max_len as int) == Err::<
                Seq<u8>,
                FrameError,
            >(e),
        },
{
    if bytes.len() > max_len {
        return Err(FrameError::TooLarge);
    }
    if !starts_with_magic(bytes, magic) {
        return Err(FrameError::UnknownFormat);
    }
    if bytes.len() < FRAME_HEADER_LEN {
        return Err(FrameError::Truncated);
    }
    let found = le_u32(bytes[8], bytes[9], bytes[10], bytes[11]);
    assert(found == le_value(bytes@.subrange(8, 12)));
    if found != version {
        return Err(FrameError::UnsupportedVersion(found));
    }
    let mut payload: Vec<u8> = Vec::new();
    let mut k: usize = FRAME_HEADER_LEN;
    while k < bytes.len()
        invariant
            FRAME_HEADER_LEN <= k <= bytes@.len(),
            payload@ == bytes@.subrange(FRAME_HEADER_LEN as int, k as int),
        decreases bytes@.len() - k,
    {
        payload.push(bytes[k]);
        k = k + 1;
        assert(payload@ =~= bytes@.subrange(FRAME_HEADER_LEN as int, k as int));
    }
    Ok(payload)
}

/// Reading a frame back gives exactly the payload that was framed, under the
/// same magic and version, whenever the file fits its size limit.
pub proof fn lemma_frame_round_trip(magic: Seq<u8>, version: u32, payload: Seq<u8>, max_len: int)
    requires
        magic.len() == 8,
        FRAME_HEADER_LEN + payload.len() <= max_len,
    ensures
        spec_decode_frame(framed(magic, version, payload), magic, version, max_len) == Ok::<
            Seq<u8>,
            FrameError,
        >(payload),
{
    let bytes = framed(magic, version, payload);
    assert(bytes.subrange(0, 8) =~= magic);
    assert(bytes.subrange(8, 12) =~= le_bytes(version));
    lemma_le_round_trip(version);
    assert(bytes.subrange(FRAME_HEADER_LEN as int, bytes.len() as int) =~= payload);
}

/// A frame under another version is refused with the version it carries.
pub proof fn lemma_frame_other_version(
    magic: Seq<u8>,
    written: u32,
    expected: u32,
    payload: Seq<u8>,
    max_len: int,
)
    requires
        magic.len() == 8,
        FRAME_HEADER_LEN + payload.len() <= max_len,
        written != expected,
    ensures
        spec_decode_frame(framed(magic, written, payload), magic, expected, max_len) == Err::<
            Seq<u8>,
            FrameError,
        >(FrameError::UnsupportedVersion(written)),
{
    let bytes = framed(magic, written, payload);
    assert(bytes.subrange(0, 8) =~= magic);
    assert(bytes.subrange(8, 12) =~= le_bytes(written));
    lemma_le_round_trip(written);
}


/// One stored chunk: its position and the raw id of every voxel.
#[derive(Clone, Debug)]
pub struct SavedChunk {
    pub position: [i32; 3],
    pub blocks: Vec<u16>,
}

/// The chunk archive: every edited chunk of one world, tied to its seed.
#[derive(Clone, Debug)]
pub struct ChunkArchive {
    pub version: u32,
    pub seed: u64,
    pub chunks: Vec<SavedChunk>,
}

/// Why a chunk archive was refused.
#[derive(Clone, Copy, Debug, PartialEq, Eq, Structural)]
pub enum ArchiveError {
    /// The archive was written for another world seed.
    SeedMismatch,
    /// Two stored chunks share a position.
    DuplicateChunk,
    /// A stored voxel names no known block.
    UnknownBlock,
    /// A stored chunk holds this many voxels instead of one chunk's worth.
    WrongLength(usize),
}

/// The chunk position a stored chunk names.
pub open spec fn saved_position(saved: SavedChunk) -> ChunkPos {
    ChunkPos { x: saved.position@[0], y: saved.position@[1], z: saved.position@[2] }
}

/// The first fault of the stored chunk at `i`, if any, checked in the order
/// duplicate position, unknown voxel, wrong voxel count.
pub open spec fn chunk_fault(chunks: Seq<SavedChunk>, i: int) -> Option<ArchiveError> {
    if exists|j: int| 0 <= j < i && saved_position(#[trigger] chunks[j]) == saved_position(chunks[i]) {
        Some(ArchiveError::DuplicateChunk)
    } else if exists|k: int|
        0 <= k < chunks[i].blocks@.len() && #[trigger] chunks[i].blocks@[k] >= BUILTIN_BLOCK_COUNT {
        Some(ArchiveError::UnknownBlock)
    } else if chunks[i].blocks@.len() != CHUNK_VOLUME {
        Some(ArchiveError::WrongLength(chunks[i].blocks@.len() as usize))
    } else {
        None
    }
}

/// `blocks` are the voxels whose raw ids are `raw`, one for one.
pub open spec fn restores(blocks: Seq<BlockId>, raw: Seq<u16>) -> bool {
    &&& blocks.len() == raw.len()
    &&& forall|k: int| 0 <= k < raw.len() ==> (#[trigger] blocks[k])@ == raw[k]
}

fn convert_blocks(raw: &Vec<u16>) -> (r: Option<Vec<BlockId>>)
    ensures
        match r {
            Some(blocks) => (forall|k: int| 0 <= k < raw@.len() ==> #[trigger] raw@[k] < BUILTIN_BLOCK_COUNT)
                && restores(blocks@, raw@),
            None => exists|k: int| 0 <= k < raw@.len() && #[trigger] raw@[k] >= BUILTIN_BLOCK_COUNT,
        },
{
    let mut blocks: Vec<BlockId> = Vec::new();
    let mut k: usize = 0;
    while k < raw.len()
        invariant
            k <= raw@.len(),
            forall|j: int| 0 <= j < k ==> #[trigger] raw@[j] < BUILTIN_BLOCK_COUNT,
            restores(blocks@, raw@.subrange(0, k as int)),
        decreases raw@.len() - k,
    {
        match BlockId::from_raw(raw[k]) {
            Some(block) => {
                blocks.push(block);
            },
            None => {
                return None;
            },
        }
        k = k + 1;
    }
    assert(raw@.subrange(0, raw@.len() as int) =~= raw@);
    Some(blocks)
}

/// Turns an archive into chunks ready to override generated terrain.
///
/// The archive is refused as a whole, leaving nothing to apply, when its seed
/// is not the world's or when any stored chunk has a fault; the error is the
/// fault of the first such chunk.
pub fn validate_archive(archive: ChunkArchive, expected_seed: u64) -> (r: Result<
    Vec<(ChunkPos, Chunk)>,
    ArchiveError,
>)
    ensures
        archive.seed != expected_seed ==> r == Err::<Vec<(ChunkPos, Chunk)>, ArchiveError>(
            ArchiveError::SeedMismatch,
        ),
        archive.seed == expected_seed ==> match r {
            Ok(restored) => {
                &&& forall|i: int| 0 <= i < archive.chunks@.len() ==> chunk_fault(archive.chunks@, i) is None
                &&& restored@.len() == archive.chunks@.len()
                &&& forall|i: int|
                    0 <= i < restored@.len() ==> {
                        &&& (#[trigger] restored@[i]).0 == saved_position(archive.chunks@[i])
                        &&& restores(restored@[i].1@.blocks, archive.chunks@[i].blocks@)
                        &&& restored@[i].1@.dirty
                    }
            },
            Err(e) => exists|i: int|
                0 <= i < archive.chunks@.len() && (forall|j: int| 0 <= j < i ==> chunk_fault(archive.chunks@, j) is None)
                    && #[trigger] chunk_fault(archive.chunks@, i) == Some(e),
        },
{
    if archive.seed != expected_seed {
        return Err(ArchiveError::SeedMismatch);
    }
    let chunks = &archive.chunks;
    let mut seen = ChunkSet::new();
    let mut restored: Vec<(ChunkPos, Chunk)> = Vec::new();
    let mut i: usize = 0;
    while i < chunks.len()
        invariant
            archive.seed == expected_seed,
            chunks@ == archive.chunks@,
            i <= chunks@.len(),
            seen.wf(),
            seen@ == Set::new(|p: ChunkPos| exists|j: int| 0 <= j < i && saved_position(#[trigger] chunks@[j]) == p),
            forall|j: int| 0 <= j < i ==> chunk_fault(chunks@, j) is None,
            restored@.len() == i,
            forall|j: int|
                0 <= j < i ==> {
                    &&& (#[trigger] restored@[j]).0 == saved_position(chunks@[j])
                    &&& restores(restored@[j].1@.blocks, chunks@[j].blocks@)
                    &&& restored@[j].1@.dirty
                },
        decreases chunks@.len() - i,
    {
        let saved = &chunks[i];
        let position = ChunkPos::new(saved.position[0], saved.position[1], saved.position[2]);
        assert(position == saved_position(chunks@[i as int]));
        let ghost before = seen@;
        if !seen.insert(position) {
            proof {
                let j = choose|j: int| 0 <= j < i && saved_position(#[trigger] chunks@[j]) == position;
                assert(before.contains(position));
                assert(chunk_fault(chunks@, i as int) == Some(ArchiveError::DuplicateChunk));
            }
            return Err(ArchiveError::DuplicateChunk);
        }
        proof {
            assert(!(exists|j: int| 0 <= j < i && saved_position(#[trigger] chunks@[j]) == saved_position(chunks@[i as int]))) by {
                if exists|j: int| 0 <= j < i && saved_position(#[trigger] chunks@[j]) == saved_position(chunks@[i as int]) {
                    assert(before.contains(position));
                }
            }
        }
        let blocks = match convert_blocks(&saved.blocks) {
            Some(blocks) => blocks,
            None => {
                assert(chunk_fault(chunks@, i as int) == Some(ArchiveError::UnknownBlock));
                return Err(ArchiveError::UnknownBlock);
            },
        };
        let chunk = match Chunk::from_saved_blocks(blocks) {
            Ok(chunk) => chunk,
            Err(length) => {
                assert(chunk_fault(chunks@, i as int) == Some(ArchiveError::WrongLength(length)));
                return Err(ArchiveError::WrongLength(length));
            },
        };
        assert(chunk_fault(chunks@, i as int) is None);
        restored.push((position, chunk));
        i = i + 1;
        proof {
            assert(seen@ =~= Set::new(|p: ChunkPos| exists|j: int| 0 <= j < i && saved_position(#[trigger] chunks@[j]) == p)) by {
                assert forall|p: ChunkPos| seen@.contains(p) implies exists|j: int| 0 <= j < i && saved_position(#[trigger] chunks@[j]) == p by {
                    if p == position {
                        assert(saved_position(chunks@[i - 1]) == p);
                    }
                }
            }
        }
    }
    Ok(restored)
}

/// `text` cut at every `'\n'`; the pieces keep everything else.
pub open spec fn split_lines(text: Seq<char>) -> Seq<Seq<char>>
    decreases text.len(),
{
    if text.len() == 0 {
        seq![Seq::<char>::empty()]
    } else if text.last() == '\n' {
        split_lines(text.drop_last()).push(Seq::<char>::empty())
    } else {
        let pieces = split_lines(text.drop_last());
        pieces.update(pieces.len() - 1, pieces.last().push(text.last()))
    }
}

/// Position of the first `c` in `s`, or -1.
pub open spec fn find_char(s: Seq<char>, c: char) -> int
    decreases s.len(),
{
    if s.len() == 0 {
        -1
    } else if s[0] == c {
        0
    } else {
        let rest = find_char(s.drop_first(), c);
        if rest < 0 {
            -1
        } else {
            rest + 1
        }
    }
}

/// The field names of the first, text-only save format.
pub open spec fn version_key() -> Seq<char> {
    seq!['v', 'e', 'r', 's', 'i', 'o', 'n']
}

pub open spec fn time_key() -> Seq<char> {
    seq![
        'g', 'a', 'm', 'e', '_', 't', 'i', 'm', 'e', '_', 'e', 'l', 'a', 'p', 's', 'e', 'd', '_',
        'd', 'a', 'y', 's',
    ]
}

/// Why a text-format save was refused.
#[derive(Clone, Copy, Debug, PartialEq, Eq, Structural)]
pub enum LegacyError {
    /// A non-blank line has no `=`.
    MissingSeparator,
    /// A line names an unknown field, or a field a second time.
    UnknownField,
    /// No `game_time_elapsed_days` line.
    MissingTime,
    /// The version is missing or is not `1`.
    UnsupportedVersion,
}

/// The version and time values read so far, or the first error.
pub type LegacyState = Result<(Option<Seq<char>>, Option<Seq<char>>), LegacyError>;

/// Reads one line of the text format: blank lines are skipped, and each
/// other line is `key = value`, naming each known field at most once.
pub open spec fn legacy_step(state: LegacyState, raw: Seq<char>) -> LegacyState {
    match state {
        Err(e) => Err(e),
        Ok((version, time)) => {
            let line = trim(raw);
            if line.len() == 0 {
                Ok((version, time))
            } else {
                let eq = find_char(line, '=');
                if eq < 0 {
                    Err(LegacyError::MissingSeparator)
                } else {
                    let key = trim(line.subrange(0, eq));
                    let value = trim(line.subrange(eq + 1, line.len() as int));
                    if key == version_key() && version is None {
                        Ok((Some(value), time))
                    } else if key == time_key() && time is None {
                        Ok((version, Some(value)))
                    } else {
                        Err(LegacyError::UnknownField)
                    }
                }
            }
        },
    }
}

/// The fields read from `lines`, in order.
pub open spec fn legacy_fields(lines: Seq<Seq<char>>) -> LegacyState
    decreases lines.len(),
{
    if lines.len() == 0 {
        Ok((None, None))
    } else {
        legacy_step(legacy_fields(lines.drop_last()), lines.last())
    }
}

/// The text of the elapsed time in a version-1 text save, or why the save
/// is refused.
pub open spec fn spec_parse_legacy(text: Seq<char>) -> Result<Seq<char>, LegacyError> {
    match legacy_fields(split_lines(text)) {
        Err(e) => Err(e),
        Ok((version, time)) => match time {
            None => Err(LegacyError::MissingTime),
            Some(t) => if version == Some(seq!['1']) {
                Ok(t)
            } else {
                Err(LegacyError::UnsupportedVersion)
            },
        },
    }
}

pub open spec fn opt_view(value: Option<Vec<char>>) -> Option<Seq<char>> {
    match value {
        Some(v) => Some(v@),
        None => None,
    }
}

fn copy_range(s: &Vec<char>, from: usize, to: usize) -> (r: Vec<char>)
    requires
        from <= to <= s@.len(),
    ensures
        r@ == s@.subrange(from as int, to as int),
{
    let mut r: Vec<char> = Vec::new();
    let mut k: usize = from;
    while k < to
        invariant
            from <= k <= to <= s@.len(),
            r@ == s@.subrange(from as int, k as int),
        decreases to - k,
    {
        r.push(s[k]);
        k = k + 1;
        assert(r@ =~= s@.subrange(from as int, k as int));
    }
    r
}

fn first_index(s: &Vec<char>, c: char) -> (r: Option<usize>)
    ensures
        match r {
            Some(i) => i < s@.len() && find_char(s@, c) == i,
            None => find_char(s@, c) == -1,
        },
{
    let mut i: usize = 0;
    assert(s@.subrange(0, s@.len() as int) =~= s@);
    while i < s.len()
        invariant
            i <= s@.len(),
            find_char(s@, c) == if find_char(s@.subrange(i as int, s@.len() as int), c) < 0 {
                -1
            } else {
                i + find_char(s@.subrange(i as int, s@.len() as int), c)
            },
        decreases s@.len() - i,
    {
        let ghost rest = s@.subrange(i as int, s@.len() as int);
        assert(rest.drop_first() =~= s@.subrange(i as int + 1, s@.len() as int));
        if s[i] == c {
            assert(rest[0] == c);
            return Some(i);
        }
        i = i + 1;
    }
    assert(s@.subrange(i as int, s@.len() as int).len() == 0);
    None
}

fn same_chars(s: &Vec<char>, word: &[char]) -> (r: bool)
    ensures
        r == (s@ == word@),
{
    if s.len() != word.len() {
        return false;
    }
    let mut i: usize = 0;
    while i < s.len()
        invariant
            s@.len() == word@.len(),
            i <= s@.len(),
            forall|j: int| 0 <= j < i ==> s@[j] == word@[j],
        decreases s@.len() - i,
    {
        if s[i] != word[i] {
            return false;
        }
        i = i + 1;
    }
    assert(s@ =~= word@);
    true
}

fn legacy_line(
    version: &mut Option<Vec<char>>,
    time: &mut Option<Vec<char>>,
    raw: &Vec<char>,
) -> (r: Option<LegacyError>)
    ensures
        match legacy_step(Ok((opt_view(*old(version)), opt_view(*old(time)))), raw@) {
            Ok((v, t)) => r is None && opt_view(*final(version)) == v && opt_view(*final(time)) == t,
            Err(e) => r == Some(e),
        },
{
    let line = trimmed(raw);
    if line.len() == 0 {
        return None;
    }
    let eq = match first_index(&line, '=') {
        Some(eq) => eq,
        None => {
            return Some(LegacyError::MissingSeparator);
        },
    };
    let key_raw = copy_range(&line, 0, eq);
    let value_raw = copy_range(&line, eq + 1, line.len());
    let key = trimmed(&key_raw);
    let value = trimmed(&value_raw);
    let version_word = ['v', 'e', 'r', 's', 'i', 'o', 'n'];
    assert(version_word@ =~= version_key());
    let time_word = [
        'g', 'a', 'm', 'e', '_', 't', 'i', 'm', 'e', '_', 'e', 'l', 'a', 'p', 's', 'e', 'd', '_',
        'd', 'a', 'y', 's',
    ];
    assert(time_word@ =~= time_key());
    if same_chars(&key, &version_word) && version.is_none() {
        *version = Some(value);
        None
    } else if same_chars(&key, &time_word) && time.is_none() {
        *time = Some(value);
        None
    } else {
        Some(LegacyError::UnknownField)
    }
}

proof fn lemma_split_step(text: Seq<char>, k: int, done: Seq<Seq<char>>, current: Seq<char>)
    requires
        0 <= k < text.len(),
        split_lines(text.subrange(0, k)) == done.push(current),
    ensures
        text[k] == '\n' ==> split_lines(text.subrange(0, k + 1)) == done.push(current).push(
            Seq::<char>::empty(),
        ),
        text[k] != '\n' ==> split_lines(text.subrange(0, k + 1)) == done.push(current.push(text[k])),
{
    let prefix = text.subrange(0, k + 1);
    assert(prefix.drop_last() =~= text.subrange(0, k));
    assert(prefix.last() == text[k]);
    if text[k] != '\n' {
        let pieces = done.push(current);
        assert(pieces.update(pieces.len() - 1, pieces.last().push(text[k])) =~= done.push(
            current.push(text[k]),
        ));
    }
}

/// Reads the text form of a version-1 save, giving back the text of its
/// elapsed time (which the application reads as a number).
pub fn parse_legacy_save(text: &Vec<char>) -> (r: Result<Vec<char>, LegacyError>)
    ensures
        match r {
            Ok(time) => spec_parse_legacy(text@) == Ok::<Seq<char>, LegacyError>(time@),
            Err(e) => spec_parse_legacy(text@) == Err::<Seq<char>, LegacyError>(e),
        },
{
    let mut version: Option<Vec<char>> = None;
    let mut time: Option<Vec<char>> = None;
    let mut failure: Option<LegacyError> = None;
    let mut current: Vec<char> = Vec::new();
    let ghost mut done: Seq<Seq<char>> = Seq::empty();
    let mut k: usize = 0;
    assert(text@.subrange(0, 0) =~= Seq::<char>::empty());
    while k < text.len()
        invariant
            k <= text@.len(),
            split_lines(text@.subrange(0, k as int)) == done.push(current@),
            legacy_fields(done) == match failure {
                Some(e) => Err::<(Option<Seq<char>>, Option<Seq<char>>), LegacyError>(e),
                None => Ok((opt_view(version), opt_view(time))),
            },
        decreases text@.len() - k,
    {
        proof {
            lemma_split_step(text@, k as int, done, current@);
        }
        if text[k] == '\n' {
            let ghost line = current@;
            proof {
                assert(done.push(line).drop_last() =~= done);
            }
            if failure.is_none() {
                failure = legacy_line(&mut version, &mut time, &current);
            }
            proof {
                done = done.push(line);
            }
            current = Vec::new();
        } else {
            current.push(text[k]);
        }
        k = k + 1;
    }
    assert(text@.subrange(0, text@.len() as int) =~= text@);
    let ghost line = current@;
    assert(done.push(line).drop_last() =~= done);
    if failure.is_none() {
        failure = legacy_line(&mut version, &mut time, &current);
    }
    match failure {
        Some(e) => Err(e),
        None => match time {
            None => Err(LegacyError::MissingTime),
            Some(t) => {
                let one = ['1'];
                assert(one@ =~= seq!['1']);
                let is_one = match &version {
                    Some(v) => same_chars(v, &one),
                    None => false,
                };
                if is_one {
                    Ok(t)
                } else {
                    Err(LegacyError::UnsupportedVersion)
                }
            },
        },
    }
}

/// Calls `std::str::from_utf8`. Its documentation says it succeeds exactly
/// when the bytes are valid UTF-8, and then reads the same bytes as text; the
/// contract states this with vstd's model of UTF-8.
#[verifier::external_body]
fn utf8_text(bytes: &[u8]) -> (r: Option<&str>)
    ensures
        match r {
            Some(text) => vstd::utf8::valid_utf8(bytes@) && text@ == vstd::utf8::decode_utf8(bytes@),
            None => !vstd::utf8::valid_utf8(bytes@),
        },
{
    match std::str::from_utf8(bytes) {
        Ok(text) => Some(text),
        Err(_) => None,
    }
}

fn text_chars(text: &str) -> (r: Vec<char>)
    ensures
        r@ == text@,
{
    broadcast use vstd::string::axiom_spec_iter;

    let mut out: Vec<char> = Vec::new();
    for c in it: text.chars()
        invariant
            it.seq() == text@,
            out@ == text@.take(it.index() as int),
            it.index() == it.seq().len() ==> out@ == text@,
    {
        out.push(c);
        proof {
            assert(out@ =~= text@.take(it.index() + 1));
            assert(text@.take(text@.len() as int) =~= text@);
        }
    }
    out
}

/// What a world metadata file holds.
#[derive(Clone, Debug, PartialEq, Eq)]
pub enum SaveContents {
    /// The binary payload after the header, to be decoded by the application.
    Current(Vec<u8>),
    /// A first-format text save: the text of its elapsed time.
    Legacy(Vec<char>),
}

/// Why a world metadata file was refused.
#[derive(Clone, Copy, Debug, PartialEq, Eq, Structural)]
pub enum SaveError {
    Frame(FrameError),
    /// Neither the binary header nor valid UTF-8 text.
    NotText,
    Legacy(LegacyError),
}

/// Reads a world metadata file: too large files are refused; files with the
/// binary magic must carry the current version; anything else must be a
/// version-1 text save, the only format that is migrated.
pub fn decode_save(bytes: &[u8]) -> (r: Result<SaveContents, SaveError>)
    ensures
        bytes@.len() > MAX_SAVE_BYTES ==> r == Err::<SaveContents, SaveError>(
            SaveError::Frame(FrameError::TooLarge),
        ),
        bytes@.len() <= MAX_SAVE_BYTES && bytes@.len() >= 8 && bytes@.subrange(0, 8)
            == spec_save_magic() ==> match spec_decode_frame(
            bytes@,
            spec_save_magic(),
            WORLD_SAVE_VERSION,
            MAX_SAVE_BYTES as int,
        ) {
            Ok(payload) => (r matches Ok(SaveContents::Current(p)) && p@ == payload),
            Err(e) => r == Err::<SaveContents, SaveError>(SaveError::Frame(e)),
        },
        bytes@.len() <= MAX_SAVE_BYTES && !(bytes@.len() >= 8 && bytes@.subrange(0, 8)
            == spec_save_magic()) ==> if !vstd::utf8::valid_utf8(bytes@) {
            r == Err::<SaveContents, SaveError>(SaveError::NotText)
        } else {
            match spec_parse_legacy(vstd::utf8::decode_utf8(bytes@)) {
                Ok(time) => (r matches Ok(SaveContents::Legacy(t)) && t@ == time),
                Err(e) => r == Err::<SaveContents, SaveError>(SaveError::Legacy(e)),
            }
        },
{
    if bytes.len() > MAX_SAVE_BYTES {
        return Err(SaveError::Frame(FrameError::TooLarge));
    }
    let magic = save_magic();
    if starts_with_magic(bytes, &magic) {
        return match decode_frame(bytes, &magic, WORLD_SAVE_VERSION, MAX_SAVE_BYTES) {
            Ok(payload) => Ok(SaveContents::Current(payload)),
            Err(e) => Err(SaveError::Frame(e)),
        };
    }
    let text = match utf8_text(bytes) {
        Some(text) => text,
        None => {
            return Err(SaveError::NotText);
        },
    };
    let chars = text_chars(text);
    match parse_legacy_save(&chars) {
        Ok(time) => Ok(SaveContents::Legacy(time)),
        Err(e) => Err(SaveError::Legacy(e)),
    }
}

/// Whether a decoded binary save used up its payload exactly.
pub fn save_payload_complete(trailing: usize) -> (r: bool)
    ensures
        r == (trailing == 0),
{
    trailing == 0
}

/// Why a chunk archive could not be framed.
#[derive(Clone, Copy, Debug, PartialEq, Eq, Structural)]
pub enum ArchiveFrameError {
    /// The archive names a format version other than the current one.
    UnsupportedVersion,
    /// The framed archive would exceed 256 MiB.
    TooLarge,
}

/// Frames an encoded chunk archive for writing.
pub fn encode_chunk_archive(version: u32, payload: &[u8]) -> (r: Result<Vec<u8>, ArchiveFrameError>)
    ensures
        version != CHUNK_ARCHIVE_VERSION ==> r == Err::<Vec<u8>, ArchiveFrameError>(
            ArchiveFrameError::UnsupportedVersion,
        ),
        version == CHUNK_ARCHIVE_VERSION && FRAME_HEADER_LEN + payload@.len()
            > MAX_CHUNK_ARCHIVE_BYTES ==> r == Err::<Vec<u8>, ArchiveFrameError>(
            ArchiveFrameError::TooLarge,
        ),
        version == CHUNK_ARCHIVE_VERSION && FRAME_HEADER_LEN + payload@.len()
            <= MAX_CHUNK_ARCHIVE_BYTES ==> (r matches Ok(bytes) && bytes@ == framed(
            spec_chunk_magic(),
            CHUNK_ARCHIVE_VERSION,
            payload@,
        )),
{
    if version != CHUNK_ARCHIVE_VERSION {
        return Err(ArchiveFrameError::UnsupportedVersion);
    }
    if payload.len() > MAX_CHUNK_ARCHIVE_BYTES - FRAME_HEADER_LEN {
        return Err(ArchiveFrameError::TooLarge);
    }
    Ok(encode_frame(&chunk_magic(), CHUNK_ARCHIVE_VERSION, payload))
}

/// Whether a decoded chunk archive used up its payload exactly and names
/// the version its header carried.
pub fn archive_payload_complete(trailing: usize, archive_version: u32) -> (r: bool)
    ensures
        r == (trailing == 0 && archive_version == CHUNK_ARCHIVE_VERSION),
{
    trailing == 0 && archive_version == CHUNK_ARCHIVE_VERSION
}

/// Serializes background saves: at most one save job runs, and requests
/// that arrive meanwhile collapse into one follow-up save.
#[derive(Clone, Copy, Debug, PartialEq, Eq, Structural)]
pub struct SaveScheduler {
    /// A save was requested while another was running.
    pub pending: bool,
    /// A save job is running.
    pub running: bool,
}

/// What the application does with this frame's save requests.
#[derive(Clone, Copy, Debug, PartialEq, Eq, Structural)]
pub enum SaveStep {
    /// Nothing was requested.
    Idle,
    /// A job is running: the request waits for it.
    Queued,
    /// Take a snapshot and start a job.
    Start,
    /// The game is exiting while a job runs: wait for it, then start a job.
    FinishThenStart,
}

/// The step taken for this frame's requests, and the scheduler after it.
pub open spec fn spec_save_step(state: SaveScheduler, autosave: bool, manual: bool, exiting: bool) -> (
    SaveStep,
    SaveScheduler,
) {
    if !(autosave || manual || state.pending || exiting) {
        (SaveStep::Idle, state)
    } else if state.running && !exiting {
        (SaveStep::Queued, SaveScheduler { pending: true, running: true })
    } else if state.running {
        (SaveStep::FinishThenStart, SaveScheduler { running: false, ..state })
    } else {
        (SaveStep::Start, state)
    }
}

impl SaveScheduler {
    pub fn new() -> (r: Self)
        ensures
            !r.pending && !r.running,
    {
        SaveScheduler { pending: false, running: false }
    }

    /// Decides what to do with this frame's requests: a due autosave, a
    /// manual save, or the exit save. A queued request counts as a request;
    /// nothing but the exit save waits for a running job.
    pub fn step(&mut self, autosave: bool, manual: bool, exiting: bool) -> (r: SaveStep)
        ensures
            (r, *final(self)) == spec_save_step(*old(self), autosave, manual, exiting),
    {
        if !(autosave || manual || self.pending || exiting) {
            return SaveStep::Idle;
        }
        if self.running {
            if exiting {
                self.running = false;
                SaveStep::FinishThenStart
            } else {
                self.pending = true;
                SaveStep::Queued
            }
        } else {
            SaveStep::Start
        }
    }

    /// A job was started from a fresh snapshot: the queued request is served.
    pub fn started(&mut self)
        ensures
            !final(self).pending && final(self).running,
    {
        self.pending = false;
        self.running = true;
    }

    /// The running job finished.
    pub fn finished(&mut self)
        ensures
            !final(self).running && final(self).pending == old(self).pending,
    {
        self.running = false;
    }
}

/// However many saves are requested while a job runs (short of exiting),
/// the job is never replaced: each request is queued, the scheduler keeps
/// one follow-up, and the following frame starts it only once the job is done.
pub proof fn lemma_requests_during_a_job_queue_one_follow_up(
    state: SaveScheduler,
    first: (bool, bool),
    second: (bool, bool),
)
    requires
        state.running,
        first.0 || first.1 || state.pending,
    ensures
        ({
            let (step1, after1) = spec_save_step(state, first.0, first.1, false);
            let (step2, after2) = spec_save_step(after1, second.0, second.1, false);
            &&& step1 == SaveStep::Queued && step2 == SaveStep::Queued
            &&& after2 == (SaveScheduler { pending: true, running: true })
            &&& spec_save_step(SaveScheduler { running: false, ..after2 }, false, false, false).0
                == SaveStep::Start
        }),
{
}

} // verus!
