use osu_pipeline::batch::BatchWriter;
use osu_pipeline::beatmap::{Color, HitObjectKind};
use osu_pipeline::builder::{asset_path, collect_assets, extract_combo_offset, parse_failed_folders, select_new_folders};
use osu_pipeline::enricher::{pinned_comments_to_add, read_beatmap_ids, read_credentials, CredentialsError, OsuClientPool};
use osu_pipeline::order::stable_order;
use osu_pipeline::playback::{
    assign_combos, combo_palette, combo_total, density_buckets, countdown_for_beat, toggle_play_state, ComboAssignment, ComboInput,
    CountdownState, PlaybackState,
};
use osu_pipeline::sorted::{compare_text, sort_dedup};
use osu_pipeline::text::{replace_str, str_chars};

fn s(v: &str) -> String {
    v.to_string()
}

#[test]
fn credentials_are_read_from_two_lines() {
    assert_eq!(read_credentials("12345\n  secret-value  \n"), Ok((12345, s("secret-value"))));
    assert_eq!(read_credentials(" +7 \r\nabc"), Ok((7, s("abc"))));
    assert_eq!(read_credentials("1\n\nignored"), Ok((1, s(""))));
}

#[test]
fn credential_errors() {
    assert_eq!(read_credentials(""), Err(CredentialsError::Empty));
    assert_eq!(read_credentials("abc\nsecret"), Err(CredentialsError::InvalidClientId));
    assert_eq!(read_credentials("\nsecret"), Err(CredentialsError::InvalidClientId));
    assert_eq!(read_credentials("-1\nsecret"), Err(CredentialsError::InvalidClientId));
    assert_eq!(read_credentials("18446744073709551616\nsecret"), Err(CredentialsError::InvalidClientId));
    assert_eq!(read_credentials("42"), Err(CredentialsError::MissingSecret));
    assert_eq!(read_credentials("42\n"), Err(CredentialsError::MissingSecret));
}

#[test]
fn beatmaps_with_positive_ids_are_looked_up() {
    let ids = vec![5, 0, -3, 77];
    let folders = vec![s("a"), s("b"), s("c"), s("d")];
    let files = vec![s("1.osu"), s("2.osu"), s("3.osu"), s("4.osu")];
    assert_eq!(
        read_beatmap_ids(&ids, &folders, &files),
        vec![(5, s("a"), s("1.osu")), (77, s("d"), s("4.osu"))]
    );
}

#[test]
fn pinned_comments_not_already_listed() {
    assert_eq!(pinned_comments_to_add(&[1, 2, 3], &[3, 4, 1, 5]), vec![1, 3]);
    assert!(pinned_comments_to_add(&[1], &[]).is_empty());
}

#[test]
fn client_pool_hands_out_in_turn() {
    let mut pool = OsuClientPool::new(vec!["a", "b", "c"]);
    assert_eq!(pool.client_count(), 3);
    let order: Vec<&str> = (0..7).map(|_| *pool.get_next()).collect();
    assert_eq!(order, vec!["a", "b", "c", "a", "b", "c", "a"]);
}

#[test]
fn failed_list_is_parsed() {
    let failed = parse_failed_folders("  123 Title: No .osu files found \n\n456: bad\r\n123 Title: again\n: no name\nplain\n");
    assert_eq!(failed.lines, vec![s("123 Title: No .osu files found"), s("456: bad"), s("123 Title: again"), s(": no name"), s("plain")]);
    assert_eq!(failed.names, vec![s("123 Title"), s("456"), s("plain")]);
    let empty = parse_failed_folders("");
    assert!(empty.lines.is_empty() && empty.names.is_empty());
}

#[test]
fn only_new_folders_are_processed() {
    let candidates = vec![s("1"), s("2"), s("3"), s("4")];
    assert_eq!(select_new_folders(&candidates, &[s("2")], &[s("4"), s("9")]), vec![0, 2]);
    assert_eq!(select_new_folders(&candidates, &[], &[]), vec![0, 1, 2, 3]);
}

#[test]
fn asset_paths_and_sets() {
    assert_eq!(asset_path("100", "audio.mp3"), "assets/100/audio.mp3");
    assert_eq!(asset_path("100", ""), "");
    let assets = collect_assets(&[s("bg.jpg"), s(""), s("audio.mp3"), s("bg.jpg"), s("sb/star.png")]);
    assert_eq!(assets, vec![s("audio.mp3"), s("bg.jpg"), s("sb/star.png")]);
}

#[test]
fn combo_offsets_of_kinds() {
    assert_eq!(extract_combo_offset(HitObjectKind::Circle, 3), 3);
    assert_eq!(extract_combo_offset(HitObjectKind::Slider, 1), 1);
    assert_eq!(extract_combo_offset(HitObjectKind::Spinner, 5), 0);
    assert_eq!(extract_combo_offset(HitObjectKind::Hold, 5), 0);
}

#[test]
fn batches_keep_every_row_once_in_order() {
    let mut writer = BatchWriter::with_batch_size(3);
    let mut out: Vec<Vec<i32>> = Vec::new();
    for row in 1..=8 {
        if writer.write(row) {
            out.push(writer.pending_batch().to_vec());
            writer.commit_batch();
        }
    }
    assert_eq!(out, vec![vec![1, 2, 3], vec![4, 5, 6]]);
    assert_eq!(writer.pending_batch(), &[7, 8]);
    writer.commit_batch();
    assert_eq!(writer.close(), 8);
    let mut empty: BatchWriter<u8> = BatchWriter::new();
    assert!(empty.pending_batch().is_empty());
    empty.commit_batch();
    assert_eq!(empty.close(), 0);
}

#[test]
fn failed_batch_stays_gathered_until_committed() {
    let mut writer = BatchWriter::with_batch_size(2);
    assert!(!writer.write("a"));
    assert!(writer.write("b"));
    // The caller could not store the batch: nothing is committed, and the
    // rows stay for the next attempt.
    assert!(writer.write("c"));
    assert_eq!(writer.pending_batch(), &["a", "b", "c"]);
    writer.commit_batch();
    assert!(writer.pending_batch().is_empty());
    assert_eq!(writer.close(), 3);
}

#[test]
fn stable_order_keeps_ties() {
    assert_eq!(stable_order(&[3, 1, 2, 1, 3]), vec![1, 3, 2, 0, 4]);
    assert!(stable_order(&[]).is_empty());
}

#[test]
fn texts_sort_by_character() {
    assert_eq!(sort_dedup(vec![s("b"), s("a"), s("ab"), s("b"), s("")]), vec![s(""), s("a"), s("ab"), s("b")]);
    assert_eq!(compare_text(&str_chars("abc"), &str_chars("abd")), -1);
    assert_eq!(compare_text(&str_chars("abc"), &str_chars("abc")), 0);
    assert_eq!(compare_text(&str_chars("b"), &str_chars("abc")), 1);
    assert_eq!(replace_str("map [Hard].osu", ".osu", ".osb"), "map [Hard].osb");
}

#[test]
fn play_pause_toggling() {
    assert_eq!(toggle_play_state(PlaybackState::Playing), (PlaybackState::Paused, false));
    assert_eq!(toggle_play_state(PlaybackState::Paused), (PlaybackState::Playing, false));
    assert_eq!(toggle_play_state(PlaybackState::Stopped), (PlaybackState::Playing, true));
}

fn obj(kind: HitObjectKind, new_combo: bool, combo_offset: i32, repeats: u32) -> ComboInput {
    ComboInput { kind, new_combo, combo_offset, repeats }
}

#[test]
fn combos_are_numbered_and_coloured() {
    let objs = vec![
        obj(HitObjectKind::Circle, true, 0, 0),
        obj(HitObjectKind::Slider, false, 0, 1),
        obj(HitObjectKind::Circle, true, 2, 0),
        obj(HitObjectKind::Spinner, true, 0, 0),
        obj(HitObjectKind::Hold, false, 0, 0),
        obj(HitObjectKind::Circle, false, 0, 0),
    ];
    let out = assign_combos(&objs, 4);
    assert_eq!(out, vec![
        Some(ComboAssignment { combo_number: 1, combo_color_index: 1 }),
        Some(ComboAssignment { combo_number: 2, combo_color_index: 1 }),
        Some(ComboAssignment { combo_number: 1, combo_color_index: 0 }),
        Some(ComboAssignment { combo_number: 0, combo_color_index: 0 }),
        None,
        Some(ComboAssignment { combo_number: 3, combo_color_index: 1 }),
    ]);
    assert_eq!(combo_total(&objs), Some(1 + 3 + 1 + 1 + 0 + 1));
    assert_eq!(combo_total(&objs[..2]), Some(4));
    let long = vec![obj(HitObjectKind::Slider, false, 0, u32::MAX - 2), obj(HitObjectKind::Circle, false, 0, 0)];
    assert_eq!(combo_total(&long[..1]), Some(u32::MAX));
    assert_eq!(combo_total(&long), None);
}

#[test]
fn countdown_sequence() {
    assert_eq!(countdown_for_beat(0), CountdownState::Number(3));
    assert_eq!(countdown_for_beat(2), CountdownState::Number(1));
    assert_eq!(countdown_for_beat(3), CountdownState::Go);
    assert_eq!(countdown_for_beat(4), CountdownState::Off);
    assert_eq!(countdown_for_beat(-1), CountdownState::Off);
}

#[test]
fn default_palette_when_map_has_no_colours() {
    assert_eq!(combo_palette(&[]), vec![(255, 192, 0), (0, 202, 0), (18, 124, 255), (242, 24, 57)]);
    let own = [Color { red: 1, green: 2, blue: 3, alpha: 255 }];
    assert_eq!(combo_palette(&own), vec![(1, 2, 3)]);
}

#[test]
fn batch_writer_reports_room() {
    let mut writer: BatchWriter<i32> = BatchWriter::with_batch_size(0);
    assert!(writer.has_room());
    assert!(writer.write(5));
    assert_eq!(writer.pending_batch(), &[5]);
    writer.commit_batch();
    assert!(writer.pending_batch().is_empty());
    assert!(writer.has_room());
    assert_eq!(writer.close(), 1);
}

#[test]
fn timeline_density_counts_covering_spans() {
    assert_eq!(density_buckets(&[(0, 2), (1, 1), (5, 9), (3, 1)], 4), vec![1, 2, 1, 1]);
    assert_eq!(density_buckets(&[], 3), vec![0, 0, 0]);
}
