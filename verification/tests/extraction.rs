use osu_pipeline::extract::{
    after_attempt, after_recovery, looks_like_beatmapset_id, nerinyan_url, parse_images_from_osu, plan_extraction,
    skipped_archives, ArchiveEntry, ExtractAttempt, ExtractError, ExtractionTally, NextStep, RateLimiter,
    RecoveryOutcome,
};
use osu_pipeline::paths::{is_audio, is_audio_extension, is_osb_file, is_osu_file, is_osz_file, normalize_path};

fn entry(path: &str, data: &[u8]) -> ArchiveEntry {
    ArchiveEntry { path: path.to_string(), data: data.to_vec() }
}

#[test]
fn osu_and_osb_extensions_ignore_case() {
    assert!(is_osu_file("song/Artist - Title (Mapper) [Hard].osu"));
    assert!(is_osu_file("MAP.OSU"));
    assert!(!is_osu_file("map.osb"));
    assert!(!is_osu_file("osu"));
    assert!(is_osb_file("Storyboard.OsB"));
    assert!(!is_osb_file("storyboard.osb.bak"));
}

#[test]
fn audio_extension_is_lowercased_before_matching() {
    assert!(is_audio_extension("audio.MP3"));
    assert!(is_audio_extension("dir/track.Flac"));
    assert!(is_audio_extension("x.wma"));
    assert!(!is_audio_extension("bg.jpg"));
    assert!(!is_audio_extension("noext"));
}

#[test]
fn audio_detected_by_magic_bytes_or_extension() {
    let id3 = b"ID3\x03\x00\x00\x00\x00\x00\x00rest of an mp3";
    assert!(is_audio("data.bin", id3));
    assert!(is_audio("song.ogg", b"not really audio"));
    assert!(!is_audio("notes.txt", b"plain text"));
}

#[test]
fn normalize_path_uses_forward_slashes_and_lowercase() {
    assert_eq!(normalize_path("SB\\Sprites\\Star.PNG"), "sb/sprites/star.png");
    assert_eq!(normalize_path("bg.jpg"), "bg.jpg");
}

#[test]
fn images_of_the_events_section() {
    let content = "osu file format v14\n\n[General]\nAudioFilename: audio.mp3\n\n[Events]\n//Background and Video events\n0,0,\"bg.jpg\",0,0\n0,0,\"second.jpg\",0,0\nVideo,0,\"video.avi\"\nSprite,Foreground,Centre,\"sb\\star.png\",320,240\nAnimation,Background,TopLeft,\"anim.png\",0,0,2,100,LoopForever\n\n[TimingPoints]\nSprite,Foreground,Centre,\"late.png\",0,0\n";
    let refs = parse_images_from_osu(content);
    assert_eq!(refs.background, Some("bg.jpg".to_string()));
    assert_eq!(refs.storyboard, vec!["sb\\star.png".to_string(), "anim.png".to_string()]);
}

#[test]
fn images_need_an_events_section() {
    let refs = parse_images_from_osu("0,0,\"bg.jpg\",0,0\n");
    assert_eq!(refs.background, None);
    assert!(refs.storyboard.is_empty());
    let refs = parse_images_from_osu("[Events]\r\n  0,0,\"bg.png\"  \r\n0,0,\"\",0,0\r\n");
    assert_eq!(refs.background, Some("bg.png".to_string()));
}

#[test]
fn archive_without_beatmap_is_refused() {
    let entries = vec![entry("audio.mp3", b"ID3\x03\x00")];
    assert_eq!(plan_extraction(&entries).unwrap_err(), ExtractError::NoOsuFiles);
}

#[test]
fn archive_without_audio_is_refused() {
    let entries = vec![entry("map.osu", b"[Events]\n0,0,\"bg.jpg\",0,0\n"), entry("bg.jpg", b"\xff\xd8\xff")];
    assert_eq!(plan_extraction(&entries).unwrap_err(), ExtractError::NoAudioFiles);
}

#[test]
fn archive_keeps_beatmaps_audio_and_referenced_images() {
    let osu = b"[Events]\n0,0,\"BG.jpg\",0,0\nSprite,Foreground,Centre,\"sb/Star.png\",0,0\nSprite,Foreground,Centre,\"sb/missing.png\",0,0\n";
    let entries = vec![
        entry("map.osu", osu),
        entry("audio.ogg", b"OggS\x00\x02"),
        entry("bg.JPG", b"\xff\xd8\xff"),
        entry("SB\\star.png", b"\x89PNG"),
        entry("unused.png", b"\x89PNG"),
        entry("thumbs.db", b"junk"),
        entry("extra.osb", b"[Events]\n"),
    ];
    let plan = plan_extraction(&entries).unwrap();
    assert_eq!(plan.keep, vec![true, true, true, true, false, false, true]);
    assert!(plan.missing_backgrounds.is_empty());
    assert_eq!(plan.missing_storyboard_images, vec!["sb/missing.png".to_string()]);
}

#[test]
fn archive_reports_missing_background() {
    let entries = vec![entry("a.osu", b"[Events]\n0,0,\"nothere.jpg\",0,0\n"), entry("song.mp3", b"x")];
    let plan = plan_extraction(&entries).unwrap();
    assert_eq!(plan.keep, vec![true, true]);
    assert_eq!(plan.missing_backgrounds, vec!["nothere.jpg".to_string()]);
}

#[test]
fn beatmapset_ids_are_digit_runs() {
    assert!(looks_like_beatmapset_id("123456"));
    assert!(!looks_like_beatmapset_id(""));
    assert!(!looks_like_beatmapset_id("123 Artist - Title"));
    assert!(!looks_like_beatmapset_id("12a"));
}

#[test]
fn mirror_url_names_the_set() {
    assert_eq!(nerinyan_url("1234"), "https://api.nerinyan.moe/d/1234");
}

#[test]
fn rate_limiter_spaces_requests() {
    let mut limiter = RateLimiter::new(25);
    assert_eq!(limiter.wait(0), 0);
    assert_eq!(limiter.wait(1_000_000_000), 1_400_000_000);
    assert_eq!(limiter.wait(2_400_000_000), 0);
    assert_eq!(limiter.wait(3_000_000_000), 0);
    let mut odd = RateLimiter::new(7);
    assert_eq!(odd.wait(5), 0);
    assert_eq!(odd.wait(0), 8_571_428_571);
}

#[test]
fn archives_are_recognised_by_extension() {
    assert!(is_osz_file("123 Artist - Title.OSZ"));
    assert!(!is_osz_file("123.zip"));
}

#[test]
fn beatmap_that_is_not_utf8_references_nothing() {
    let entries = vec![
        entry("map.osu", b"[Events]\n0,0,\"bg.jpg\",0,0\n\xff\xfe"),
        entry("audio.mp3", b"ID3\x03\x00"),
        entry("bg.jpg", b"\xff\xd8\xff"),
    ];
    let plan = plan_extraction(&entries).unwrap();
    assert_eq!(plan.keep, vec![true, true, false]);
    assert!(plan.missing_backgrounds.is_empty());
}

#[test]
fn only_sprites_and_animations_are_storyboard_images() {
    let refs = parse_images_from_osu("[Events]\nSample,0,0,\"hit.wav\",100\n1,0,\"intro.avi\"\n");
    assert_eq!(refs.background, None);
    assert!(refs.storyboard.is_empty());
    let refs = parse_images_from_osu(
        "[Events]\n4,3,1,\"numbered.png\",0,0\n6,0,0,\"frames.png\",0,0,2,50,LoopOnce\n5,0,0,\"sound.ogg\"\n2,100,200\n",
    );
    assert_eq!(refs.storyboard, vec!["numbered.png".to_string(), "frames.png".to_string()]);
}

#[test]
fn numbered_video_is_not_extracted() {
    let entries = vec![
        entry("map.osu", b"[Events]\n1,0,\"intro.avi\"\nSample,0,0,\"hit.wav\",100\n"),
        entry("audio.mp3", b"ID3\x03\x00"),
        entry("intro.avi", b"RIFF"),
    ];
    let plan = plan_extraction(&entries).unwrap();
    assert_eq!(plan.keep, vec![true, true, false]);
    assert!(plan.missing_storyboard_images.is_empty());
}

#[test]
fn only_unreadable_numbered_archives_are_downloaded_again() {
    let start = ExtractionTally { extracted: 2, failed: 1, downloaded: 0 };
    assert_eq!(
        after_attempt(start, ExtractAttempt::Extracted, "123"),
        (ExtractionTally { extracted: 3, failed: 1, downloaded: 0 }, NextStep::NextArchive)
    );
    assert_eq!(after_attempt(start, ExtractAttempt::UnreadableZip, "123"), (start, NextStep::Download));
    assert_eq!(
        after_attempt(start, ExtractAttempt::UnreadableZip, "123 Artist - Title"),
        (ExtractionTally { extracted: 2, failed: 2, downloaded: 0 }, NextStep::NextArchive)
    );
    assert_eq!(
        after_attempt(start, ExtractAttempt::Failed, "123"),
        (ExtractionTally { extracted: 2, failed: 2, downloaded: 0 }, NextStep::NextArchive)
    );
}

#[test]
fn recovery_outcomes_are_counted() {
    let t = ExtractionTally { extracted: 1, failed: 1, downloaded: 1 };
    assert_eq!(after_recovery(t, RecoveryOutcome::DownloadFailed), ExtractionTally { extracted: 1, failed: 2, downloaded: 1 });
    assert_eq!(after_recovery(t, RecoveryOutcome::ReplaceFailed), ExtractionTally { extracted: 1, failed: 2, downloaded: 2 });
    assert_eq!(after_recovery(t, RecoveryOutcome::Extracted), ExtractionTally { extracted: 2, failed: 1, downloaded: 2 });
    assert_eq!(after_recovery(t, RecoveryOutcome::StillFailed), ExtractionTally { extracted: 1, failed: 2, downloaded: 2 });
    assert_eq!(skipped_archives(10, ExtractionTally { extracted: 4, failed: 2, downloaded: 3 }), 4);
}
