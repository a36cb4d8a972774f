use osu_pipeline::beatmap::{
    combo_color_rows, countdown_code, game_mode_code, hit_object_kind_name, hit_sample_row,
    join_bookmarks, parse_bookmarks, sample_bank_code, sample_bank_name, timing_point_kind_name,
    BeatmapReconstructor, Color, CountdownType, CustomColor, GameMode, HitObjectKind,
    HitObjectPlacement, HitSampleDefaultName, HitSampleName, PathTypeKind, SampleBank,
    TimingPointKind,
};
use osu_pipeline::types::{ComboColorRow, HitSampleRow};

fn s(v: &str) -> String {
    v.to_string()
}

#[test]
fn integer_codes_decode_with_defaults() {
    assert_eq!(BeatmapReconstructor::sample_bank_from_code(0), SampleBank::Auto);
    assert_eq!(BeatmapReconstructor::sample_bank_from_code(2), SampleBank::Soft);
    assert_eq!(BeatmapReconstructor::sample_bank_from_code(7), SampleBank::Auto);
    assert_eq!(BeatmapReconstructor::game_mode_from_code(3), GameMode::Mania);
    assert_eq!(BeatmapReconstructor::game_mode_from_code(-1), GameMode::Osu);
    assert_eq!(BeatmapReconstructor::countdown_from_code(0), CountdownType::Disabled);
    assert_eq!(BeatmapReconstructor::countdown_from_code(3), CountdownType::DoubleSpeed);
    assert_eq!(BeatmapReconstructor::countdown_from_code(5), CountdownType::Normal);
}

#[test]
fn codes_round_trip() {
    for b in [SampleBank::Auto, SampleBank::Normal, SampleBank::Soft, SampleBank::Drum] {
        assert_eq!(BeatmapReconstructor::sample_bank_from_code(sample_bank_code(b)), b);
        assert_eq!(BeatmapReconstructor::sample_bank_from_name(sample_bank_name(b)), b);
    }
    for m in [GameMode::Osu, GameMode::Taiko, GameMode::Catch, GameMode::Mania] {
        assert_eq!(BeatmapReconstructor::game_mode_from_code(game_mode_code(m)), m);
    }
    for c in [CountdownType::Disabled, CountdownType::Normal, CountdownType::HalfSpeed, CountdownType::DoubleSpeed] {
        assert_eq!(BeatmapReconstructor::countdown_from_code(countdown_code(c)), c);
    }
    for k in [HitObjectKind::Circle, HitObjectKind::Slider, HitObjectKind::Spinner, HitObjectKind::Hold] {
        assert_eq!(BeatmapReconstructor::hit_object_kind_from_name(hit_object_kind_name(k)), Some(k));
    }
    for k in [TimingPointKind::Timing, TimingPointKind::Difficulty, TimingPointKind::Effect] {
        assert_eq!(BeatmapReconstructor::timing_point_kind_from_name(timing_point_kind_name(k)), Some(k));
    }
    assert_eq!(sample_bank_name(SampleBank::Auto), "None");
    assert_eq!(game_mode_code(GameMode::Catch), 2);
    assert_eq!(countdown_code(CountdownType::HalfSpeed), 2);
}

#[test]
fn names_decode() {
    assert_eq!(BeatmapReconstructor::sample_bank_from_name("Drum"), SampleBank::Drum);
    assert_eq!(BeatmapReconstructor::sample_bank_from_name("drum"), SampleBank::Auto);
    assert_eq!(BeatmapReconstructor::hit_object_kind_from_name("bullet"), None);
    assert_eq!(BeatmapReconstructor::timing_point_kind_from_name("kiai"), None);
    assert_eq!(BeatmapReconstructor::path_type_from_name("PerfectCurve"), Some(PathTypeKind::PerfectCurve));
    assert_eq!(BeatmapReconstructor::path_type_from_name("Bezier"), Some(PathTypeKind::Bezier));
    assert_eq!(BeatmapReconstructor::path_type_from_name("PathType { kind: BSpline, degree: None }"), None);
    assert_eq!(BeatmapReconstructor::hit_sample_name_from("Whistle"), HitSampleName::Default(HitSampleDefaultName::Whistle));
    assert_eq!(BeatmapReconstructor::hit_sample_name_from("Default(Normal)"), HitSampleName::File(s("Default(Normal)")));
}

#[test]
fn bookmarks_join_and_parse() {
    assert_eq!(join_bookmarks(&[1000, -5, 2500]), "1000,-5,2500");
    assert_eq!(join_bookmarks(&[]), "");
    assert_eq!(parse_bookmarks("1000, 2000,x,,3000"), vec![1000, 2000, 3000]);
    assert_eq!(parse_bookmarks(""), Vec::<i32>::new());
    assert_eq!(parse_bookmarks("99999999999,7"), vec![7]);
    let marks = vec![i32::MIN, 0, 42, i32::MAX];
    assert_eq!(parse_bookmarks(&join_bookmarks(&marks)), marks);
}

fn color_row(folder: &str, file: &str, index: i32, kind: &str, name: Option<&str>, rgb: (i32, i32, i32)) -> ComboColorRow {
    ComboColorRow {
        folder_id: s(folder),
        osu_file: s(file),
        color_index: index,
        color_type: s(kind),
        custom_name: name.map(s),
        red: rgb.0,
        green: rgb.1,
        blue: rgb.2,
    }
}

#[test]
fn colours_of_one_file() {
    let rows = vec![
        color_row("1", "a.osu", 0, "combo", None, (255, 0, 0)),
        color_row("1", "b.osu", 0, "combo", None, (1, 2, 3)),
        color_row("1", "a.osu", 0, "custom", Some("SliderBorder"), (10, 20, 300)),
        color_row("1", "a.osu", 1, "custom", None, (0, 0, 0)),
        color_row("1", "a.osu", 1, "combo", None, (0, 128, 256)),
    ];
    let combo = BeatmapReconstructor::combo_colors(&rows, "1", "a.osu");
    assert_eq!(combo, vec![
        Color { red: 255, green: 0, blue: 0, alpha: 255 },
        Color { red: 0, green: 128, blue: 0, alpha: 255 },
    ]);
    let custom = BeatmapReconstructor::custom_colors(&rows, "1", "a.osu");
    assert_eq!(custom, vec![CustomColor { name: s("SliderBorder"), color: Color { red: 10, green: 20, blue: 44, alpha: 255 } }]);
}

#[test]
fn colours_round_trip_through_rows() {
    let combo = vec![Color { red: 1, green: 2, blue: 3, alpha: 255 }, Color { red: 200, green: 100, blue: 50, alpha: 255 }];
    let custom = vec![CustomColor { name: s("SliderTrackOverride"), color: Color { red: 9, green: 8, blue: 7, alpha: 255 } }];
    let mut table = vec![color_row("2", "a.osu", 0, "combo", None, (5, 5, 5))];
    table.extend(combo_color_rows("1", "a.osu", &combo, &custom));
    table.push(color_row("1", "b.osu", 0, "combo", None, (6, 6, 6)));
    assert_eq!(table[3].color_type, "custom");
    assert_eq!(table[3].color_index, 0);
    assert_eq!(BeatmapReconstructor::combo_colors(&table, "1", "a.osu"), combo);
    assert_eq!(BeatmapReconstructor::custom_colors(&table, "1", "a.osu"), custom);
}

fn sample_row(index: i32, sample: i32, name: &str, bank: &str, suffix: Option<&str>, volume: i32) -> HitSampleRow {
    HitSampleRow {
        folder_id: s("1"),
        osu_file: s("a.osu"),
        hit_object_index: index,
        sample_index: sample,
        name: s(name),
        bank: s(bank),
        suffix: suffix.map(s),
        volume,
    }
}

#[test]
fn hit_samples_are_ordered_and_rebuilt() {
    let rows = vec![
        sample_row(3, 2, "Clap", "Soft", None, 70),
        sample_row(3, 0, "Normal", "Normal", Some("2"), 60),
        sample_row(4, 0, "Finish", "Drum", None, 50),
        sample_row(3, 1, "custom.wav", "Drum", Some("0"), 40),
        sample_row(3, 0, "Whistle", "None", Some("x"), 30),
    ];
    let out = BeatmapReconstructor::hit_samples_for(&rows, "1", "a.osu", 3);
    assert_eq!(out.len(), 4);
    assert_eq!(out[0].name, HitSampleName::Default(HitSampleDefaultName::Normal));
    assert_eq!(out[0].suffix, Some(2));
    assert_eq!(out[1].name, HitSampleName::Default(HitSampleDefaultName::Whistle));
    assert_eq!(out[1].bank, SampleBank::Auto);
    assert_eq!(out[1].suffix, None);
    assert_eq!(out[2].name, HitSampleName::File(s("custom.wav")));
    assert_eq!(out[2].suffix, None);
    assert_eq!(out[3].volume, 70);
    assert!(out.iter().all(|h| h.bank_specified && !h.is_layered && h.custom_sample_bank == 0));
    assert!(BeatmapReconstructor::hit_samples_for(&rows, "1", "a.osu", 9).is_empty());
}

#[test]
fn hit_sample_rows_round_trip() {
    let row = hit_sample_row("1", "a.osu", 5, 1, "Default(Clap)", SampleBank::Soft, Some(12), 80);
    assert_eq!(row.hit_object_index, 5);
    assert_eq!(row.sample_index, 1);
    assert_eq!(row.bank, "Soft");
    assert_eq!(row.suffix, Some(s("12")));
    let back = BeatmapReconstructor::reconstruct_hit_sample(&row);
    assert_eq!(back.bank, SampleBank::Soft);
    assert_eq!(back.suffix, Some(12));
    assert_eq!(back.volume, 80);
    let plain = hit_sample_row("1", "a.osu", 0, 0, "Default(Normal)", SampleBank::Auto, None, 100);
    assert_eq!(plain.bank, "None");
    assert_eq!(plain.suffix, None);
    assert_eq!(BeatmapReconstructor::reconstruct_hit_sample(&plain).bank, SampleBank::Auto);
}

#[test]
fn rows_of_a_file_and_slider_lookups() {
    let folders = vec![s("1"), s("1"), s("2"), s("1"), s("1")];
    let files = vec![s("a.osu"), s("b.osu"), s("a.osu"), s("a.osu"), s("a.osu")];
    let lines = BeatmapReconstructor::lines_of_file(&folders, &files, "1", "a.osu");
    assert_eq!(lines, vec![0, 3, 4]);
    let object_index = vec![7, 7, 7, 9, 7];
    assert_eq!(BeatmapReconstructor::slider_data_line(&object_index, &lines, 7), Some(4));
    assert_eq!(BeatmapReconstructor::slider_data_line(&object_index, &lines, 9), Some(3));
    assert_eq!(BeatmapReconstructor::slider_data_line(&object_index, &lines, 1), None);
    let point_index = vec![2, 0, 0, 0, 1];
    assert_eq!(BeatmapReconstructor::control_point_lines(&object_index, &point_index, &lines, 7), vec![4, 0]);
    let same_points = vec![0, 0, 0, 0, 0];
    assert_eq!(BeatmapReconstructor::control_point_lines(&object_index, &same_points, &lines, 7), vec![0, 4]);
}

#[test]
fn hit_object_placement() {
    assert_eq!(
        BeatmapReconstructor::reconstruct_hit_object("circle", Some(10), Some(20), false),
        Some(HitObjectPlacement { kind: HitObjectKind::Circle, x: 10, y: 20 })
    );
    assert_eq!(BeatmapReconstructor::reconstruct_hit_object("slider", Some(1), Some(2), false), None);
    assert_eq!(
        BeatmapReconstructor::reconstruct_hit_object("slider", None, Some(2), true),
        Some(HitObjectPlacement { kind: HitObjectKind::Slider, x: 0, y: 2 })
    );
    assert_eq!(
        BeatmapReconstructor::reconstruct_hit_object("spinner", None, None, false),
        Some(HitObjectPlacement { kind: HitObjectKind::Spinner, x: 256, y: 192 })
    );
    assert_eq!(
        BeatmapReconstructor::reconstruct_hit_object("hold", Some(448), None, false),
        Some(HitObjectPlacement { kind: HitObjectKind::Hold, x: 448, y: 0 })
    );
    assert_eq!(BeatmapReconstructor::reconstruct_hit_object("note", Some(1), Some(1), true), None);
}
