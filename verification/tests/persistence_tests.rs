use rustcraft::block::BlockId;
use rustcraft::coordinates::{ChunkPos, CHUNK_VOLUME};
use rustcraft::persistence::{
    chunk_magic, decode_frame, encode_frame, save_magic, valid_world_name, validate_archive,
    ArchiveError, ChunkArchive, FrameError, SavedChunk, CHUNK_ARCHIVE_VERSION,
    MAX_CHUNK_ARCHIVE_BYTES, MAX_SAVE_BYTES, WORLD_SAVE_VERSION,
};

fn stored(position: [i32; 3], raw: u16) -> SavedChunk {
    SavedChunk {
        position,
        blocks: vec![raw; CHUNK_VOLUME],
    }
}

fn archive(seed: u64, chunks: Vec<SavedChunk>) -> ChunkArchive {
    ChunkArchive {
        version: CHUNK_ARCHIVE_VERSION,
        seed,
        chunks,
    }
}

#[test]
fn chunk_archive_rejects_wrong_seed_duplicate_positions_and_unknown_blocks() {
    let seed = u64::MAX;
    let air = BlockId::air().as_u16();
    assert_eq!(
        validate_archive(archive(seed.wrapping_sub(1), vec![stored([0, 0, 0], air)]), seed)
            .unwrap_err(),
        ArchiveError::SeedMismatch
    );
    assert_eq!(
        validate_archive(
            archive(seed, vec![stored([0, 0, 0], air), stored([0, 0, 0], air)]),
            seed
        )
        .unwrap_err(),
        ArchiveError::DuplicateChunk
    );
    assert_eq!(
        validate_archive(archive(seed, vec![stored([0, 0, 0], u16::MAX)]), seed).unwrap_err(),
        ArchiveError::UnknownBlock
    );
}

#[test]
fn short_chunks_report_their_length_and_the_first_fault_wins() {
    let short = SavedChunk {
        position: [1, 2, 3],
        blocks: vec![0; 7],
    };
    assert_eq!(
        validate_archive(archive(5, vec![short.clone()]), 5).unwrap_err(),
        ArchiveError::WrongLength(7)
    );
    let unknown_and_short = SavedChunk {
        position: [1, 2, 3],
        blocks: vec![u16::MAX; 7],
    };
    assert_eq!(
        validate_archive(archive(5, vec![unknown_and_short, short]), 5).unwrap_err(),
        ArchiveError::UnknownBlock
    );
}

#[test]
fn valid_archive_restores_every_chunk_in_order() {
    let wood = BlockId::wood().as_u16();
    let restored = validate_archive(
        archive(9, vec![stored([2, 0, -1], wood), stored([-2, 1, 0], 0)]),
        9,
    )
    .unwrap();
    assert_eq!(restored.len(), 2);
    assert_eq!(restored[0].0, ChunkPos::new(2, 0, -1));
    assert_eq!(restored[0].1.get_block(15, 15, 15), Some(BlockId::wood()));
    assert!(restored[0].1.is_dirty());
    assert_eq!(restored[1].0, ChunkPos::new(-2, 1, 0));
    assert!(restored[1].1.is_all_air());
    assert!(validate_archive(archive(9, Vec::new()), 9).unwrap().is_empty());
}

#[test]
fn frames_round_trip_and_reject_truncated_future_or_foreign_data() {
    let payload = [0x02, 0x01, b'a', 0x00];
    let bytes = encode_frame(&save_magic(), WORLD_SAVE_VERSION, &payload);
    assert_eq!(&bytes[..12], b"JABASAVE\x02\x00\x00\x00");
    assert_eq!(
        decode_frame(&bytes, &save_magic(), WORLD_SAVE_VERSION, MAX_SAVE_BYTES).unwrap(),
        payload.to_vec()
    );
    for end in 8..12 {
        assert_eq!(
            decode_frame(&bytes[..end], &save_magic(), WORLD_SAVE_VERSION, MAX_SAVE_BYTES),
            Err(FrameError::Truncated)
        );
    }
    assert_eq!(
        decode_frame(&bytes[..7], &save_magic(), WORLD_SAVE_VERSION, MAX_SAVE_BYTES),
        Err(FrameError::UnknownFormat)
    );
    let mut future = bytes.clone();
    future[8] = 99;
    assert_eq!(
        decode_frame(&future, &save_magic(), WORLD_SAVE_VERSION, MAX_SAVE_BYTES),
        Err(FrameError::UnsupportedVersion(99))
    );
    assert_eq!(
        decode_frame(&bytes, &chunk_magic(), CHUNK_ARCHIVE_VERSION, MAX_CHUNK_ARCHIVE_BYTES),
        Err(FrameError::UnknownFormat)
    );
    assert_eq!(
        decode_frame(&vec![0; MAX_SAVE_BYTES + 1], &save_magic(), WORLD_SAVE_VERSION, MAX_SAVE_BYTES),
        Err(FrameError::TooLarge)
    );
    let big = encode_frame(&chunk_magic(), 0x0102_0304, &[]);
    assert_eq!(&big[8..], &[4, 3, 2, 1]);
}

#[test]
fn slot_paths_are_isolated_and_cannot_escape_root() {
    for name in ["", "..", "../other", "a/b", "a\\b", "/tmp", "C:foo"] {
        assert!(!valid_world_name(name));
    }
    assert!(valid_world_name("default-world"));
    assert!(valid_world_name(&"x".repeat(128)));
    assert!(!valid_world_name(&"x".repeat(129)));
    assert!(!valid_world_name("wörld"));
}

use rustcraft::persistence::{
    archive_payload_complete, decode_save, encode_chunk_archive, parse_legacy_save,
    save_payload_complete, ArchiveFrameError, LegacyError, SaveContents, SaveError, SaveScheduler,
    SaveStep,
};

fn chars(text: &str) -> Vec<char> {
    text.chars().collect()
}

#[test]
fn legacy_text_saves_give_their_time_and_version_one_only() {
    assert_eq!(
        parse_legacy_save(&chars("version=1\ngame_time_elapsed_days=12.5\n")),
        Ok(chars("12.5"))
    );
    assert_eq!(
        parse_legacy_save(&chars("\r\n  game_time_elapsed_days = 3 \r\n\n version = 1")),
        Ok(chars("3"))
    );
    assert_eq!(
        parse_legacy_save(&chars("version=2\ngame_time_elapsed_days=1")),
        Err(LegacyError::UnsupportedVersion)
    );
    assert_eq!(
        parse_legacy_save(&chars("game_time_elapsed_days=1")),
        Err(LegacyError::UnsupportedVersion)
    );
    assert_eq!(parse_legacy_save(&chars("version=1")), Err(LegacyError::MissingTime));
    assert_eq!(parse_legacy_save(&chars("")), Err(LegacyError::MissingTime));
    assert_eq!(parse_legacy_save(&chars("corrupt")), Err(LegacyError::MissingSeparator));
    assert_eq!(
        parse_legacy_save(&chars("version=1\nversion=1\ngame_time_elapsed_days=1")),
        Err(LegacyError::UnknownField)
    );
    assert_eq!(
        parse_legacy_save(&chars("seed=4\nversion=1\ngame_time_elapsed_days=1")),
        Err(LegacyError::UnknownField)
    );
}

#[test]
fn truncated_future_trailing_and_invalid_numeric_saves_are_rejected() {
    let payload = [0x02, 0x01, b'a', 0x00, 7, 7];
    let bytes = encode_frame(&save_magic(), WORLD_SAVE_VERSION, &payload);
    assert_eq!(decode_save(&bytes), Ok(SaveContents::Current(payload.to_vec())));
    for end in 0..bytes.len() {
        match decode_save(&bytes[..end]) {
            Ok(SaveContents::Current(rest)) => assert!(rest.len() < payload.len()),
            Ok(other) => panic!("length {end}: {other:?}"),
            Err(_) => {}
        }
    }
    let mut future = bytes.clone();
    future[8] = 99;
    assert_eq!(
        decode_save(&future),
        Err(SaveError::Frame(FrameError::UnsupportedVersion(99)))
    );
    assert_eq!(
        decode_save(&vec![0; MAX_SAVE_BYTES + 1]),
        Err(SaveError::Frame(FrameError::TooLarge))
    );
    assert_eq!(decode_save(&[0xff, 0xfe]), Err(SaveError::NotText));
    assert_eq!(
        decode_save(b"corrupt"),
        Err(SaveError::Legacy(LegacyError::MissingSeparator))
    );
    assert_eq!(
        decode_save(b"version=1\ngame_time_elapsed_days=12.5\n"),
        Ok(SaveContents::Legacy(chars("12.5")))
    );
    assert!(save_payload_complete(0));
    assert!(!save_payload_complete(1));
}

#[test]
fn chunk_archives_are_framed_only_for_the_current_version_and_size() {
    let framed = encode_chunk_archive(CHUNK_ARCHIVE_VERSION, &[1, 2, 3]).unwrap();
    assert_eq!(&framed[..12], b"JABACHNK\x01\x00\x00\x00");
    assert_eq!(&framed[12..], &[1, 2, 3]);
    assert_eq!(
        encode_chunk_archive(2, &[]),
        Err(ArchiveFrameError::UnsupportedVersion)
    );
    assert!(archive_payload_complete(0, CHUNK_ARCHIVE_VERSION));
    assert!(!archive_payload_complete(1, CHUNK_ARCHIVE_VERSION));
    assert!(!archive_payload_complete(0, 7));
}

#[test]
fn overlapping_manual_requests_queue_one_follow_up_without_replacing_the_active_job() {
    let mut scheduler = SaveScheduler::new();
    assert_eq!(scheduler.step(false, false, false), SaveStep::Idle);
    assert_eq!(scheduler.step(false, true, false), SaveStep::Start);
    scheduler.started();
    assert_eq!(scheduler.step(false, true, false), SaveStep::Queued);
    assert_eq!(scheduler.step(false, true, false), SaveStep::Queued);
    assert!(scheduler.running);
    assert!(scheduler.pending);
    scheduler.finished();
    assert_eq!(scheduler.step(false, false, false), SaveStep::Start);
    scheduler.started();
    assert!(!scheduler.pending);
    assert_eq!(scheduler.step(false, false, true), SaveStep::FinishThenStart);
    assert!(!scheduler.running);
}

#[test]
fn trimming_removes_every_kind_of_unicode_whitespace() {
    let text: Vec<char> = "\u{3000}\t\u{a0} my-world\u{2029}\n".chars().collect();
    let expected: Vec<char> = "my-world".chars().collect();
    assert_eq!(rustcraft::text::trimmed(&text), expected);
    let inner: Vec<char> = " a\u{200b}b ".chars().collect();
    assert_eq!(rustcraft::text::trimmed(&inner), vec!['a', '\u{200b}', 'b']);
}
