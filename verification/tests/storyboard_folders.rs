use osu_pipeline::folder::{folders_to_reconstruct, BeatmapFileRef, FolderReconstructor};
use osu_pipeline::reader::{
    ParquetReader, StoryboardCommandColumns, StoryboardElementColumns, StoryboardLoopColumns,
    StoryboardTriggerColumns,
};
use osu_pipeline::storyboard::{
    ReconstructedCommand, ReconstructedElement, ReconstructedLoop, ReconstructedTrigger,
    StoryboardCommandRow, StoryboardElementRow, StoryboardLoopRow, StoryboardReconstructor,
    StoryboardTriggerRow,
};

fn element(folder: &str, source: &str, index: i32, layer: &str, path: &str, kind: &str, embedded: bool) -> StoryboardElementRow {
    StoryboardElementRow {
        folder_id: folder.to_string(),
        source_file: source.to_string(),
        element_index: index,
        layer_name: layer.to_string(),
        element_path: path.to_string(),
        element_type: kind.to_string(),
        origin: "Centre".to_string(),
        initial_pos_x: 320,
        initial_pos_y: 240,
        frame_count: None,
        frame_delay: None,
        loop_type: None,
        is_embedded: embedded,
    }
}

fn command(folder: &str, source: &str, index: i32, kind: &str, start: i32, end: i32, sv: &str, ev: &str) -> StoryboardCommandRow {
    StoryboardCommandRow {
        folder_id: folder.to_string(),
        source_file: source.to_string(),
        element_index: index,
        command_type: kind.to_string(),
        start_time: start,
        end_time: end,
        start_value: sv.to_string(),
        end_value: ev.to_string(),
        easing: 0,
        is_embedded: false,
    }
}

fn sprite(layer: &str, path: &str) -> ReconstructedElement {
    ReconstructedElement {
        layer_name: layer.to_string(),
        element_path: path.to_string(),
        element_type: "sprite".to_string(),
        origin: "Centre".to_string(),
        initial_pos_x: 320,
        initial_pos_y: 240,
        frame_count: None,
        frame_delay: None,
        loop_type: None,
        is_embedded: false,
        commands: Vec::new(),
        loops: Vec::new(),
        triggers: Vec::new(),
    }
}

#[test]
fn origin_names_follow_the_first_match() {
    assert_eq!(StoryboardReconstructor::parse_origin("TopLeft"), "TopLeft");
    assert_eq!(StoryboardReconstructor::parse_origin("TopCenter"), "TopCentre");
    assert_eq!(StoryboardReconstructor::parse_origin("BottomRight"), "BottomRight");
    assert_eq!(StoryboardReconstructor::parse_origin("CentreLeft"), "CentreLeft");
    assert_eq!(StoryboardReconstructor::parse_origin("CentreRight"), "Centre");
    assert_eq!(StoryboardReconstructor::parse_origin("BottomCentre"), "Centre");
    assert_eq!(StoryboardReconstructor::parse_origin("BottomLeft"), "BottomLeft");
    assert_eq!(StoryboardReconstructor::parse_origin("Anchor(17)"), "Centre");
}

#[test]
fn values_are_written_once_when_equal() {
    assert_eq!(StoryboardReconstructor::format_values("1", "1"), "1");
    assert_eq!(StoryboardReconstructor::format_values("0.5", "1"), "0.5,1");
}

#[test]
fn osb_script_lists_layers_in_order() {
    let mut star = sprite("Foreground", "star.png");
    star.commands.push(ReconstructedCommand {
        command_type: "alpha".to_string(),
        easing: 0,
        start_time: 1000,
        end_time: 2000,
        start_value: "0".to_string(),
        end_value: "1".to_string(),
    });
    star.commands.push(ReconstructedCommand {
        command_type: "flip_h".to_string(),
        easing: 0,
        start_time: 500,
        end_time: 500,
        start_value: "true".to_string(),
        end_value: "true".to_string(),
    });
    star.loops.push(ReconstructedLoop { loop_start_time: 3000, loop_count: 4 });
    star.triggers.push(ReconstructedTrigger {
        trigger_name: "HitSoundClap".to_string(),
        trigger_start_time: 0,
        trigger_end_time: 9000,
        group_number: 0,
    });
    let mut bg = sprite("Background", "bg.jpg");
    bg.origin = "TopLeft".to_string();
    bg.initial_pos_x = 0;
    bg.initial_pos_y = -5;
    let mut anim = sprite("Pass", "frame.png");
    anim.element_type = "animation".to_string();
    anim.frame_count = Some(3);
    let sample = ReconstructedElement { element_type: "sample".to_string(), ..sprite("Background", "hit.wav") };
    let text = StoryboardReconstructor::to_osb_content(&[star, bg, anim, sample]);
    let expected = "[Events]\n//Background and Video events\n//Storyboard Layer 0 (Background)\nSprite,Background,TopLeft,\"bg.jpg\",0,-5\n//Storyboard Layer 1 (Fail)\n//Storyboard Layer 2 (Pass)\nAnimation,Pass,Centre,\"frame.png\",320,240,3,100,LoopForever\n//Storyboard Layer 3 (Foreground)\nSprite,Foreground,Centre,\"star.png\",320,240\n F,0,1000,2000,0,1\n P,0,500,,H\n L,3000,4\n T,HitSoundClap,0,9000,0\n";
    assert_eq!(text, expected);
}

#[test]
fn overlay_layer_written_only_when_used() {
    let text = StoryboardReconstructor::to_osb_content(&[sprite("Overlay", "o.png")]);
    assert!(text.ends_with("//Storyboard Layer 4 (Overlay)\nSprite,Overlay,Centre,\"o.png\",320,240\n"));
    let text = StoryboardReconstructor::to_embedded_events_content(&[]);
    assert_eq!(text, "[Events]\n//Background and Video events\n//Storyboard Layer 0 (Background)\n//Storyboard Layer 1 (Fail)\n//Storyboard Layer 2 (Pass)\n//Storyboard Layer 3 (Foreground)\n");
}

#[test]
fn reconstruct_groups_rows_by_element() {
    let elements = vec![
        element("1", "a.osb", 0, "Foreground", "x.png", "sprite", false),
        element("1", "b.osb", 0, "Foreground", "y.png", "sprite", false),
        element("2", "a.osb", 0, "Foreground", "z.png", "sprite", false),
        element("1", "a.osb", 1, "Background", "w.png", "sprite", false),
    ];
    let commands = vec![
        command("1", "a.osb", 1, "x", 0, 10, "1", "2"),
        command("1", "a.osb", 0, "y", 5, 6, "3", "3"),
        command("1", "b.osb", 0, "scale", 0, 0, "1", "1"),
        command("1", "a.osb", 0, "rotation", 7, 8, "0", "1"),
    ];
    let loops = vec![StoryboardLoopRow {
        folder_id: "1".to_string(),
        source_file: "a.osb".to_string(),
        element_index: 1,
        loop_index: 0,
        loop_start_time: 100,
        loop_count: 2,
        is_embedded: false,
    }];
    let triggers = vec![StoryboardTriggerRow {
        folder_id: "1".to_string(),
        source_file: "a.osb".to_string(),
        element_index: 0,
        trigger_index: 0,
        trigger_name: "Passing".to_string(),
        trigger_start_time: 1,
        trigger_end_time: 2,
        group_number: 3,
        is_embedded: false,
    }];
    let out = StoryboardReconstructor::reconstruct("1", "a.osb", &elements, &commands, &loops, &triggers);
    assert_eq!(out.len(), 2);
    assert_eq!(out[0].element_path, "x.png");
    assert_eq!(out[0].commands.len(), 2);
    assert_eq!(out[0].commands[0].command_type, "y");
    assert_eq!(out[0].commands[1].command_type, "rotation");
    assert!(out[0].loops.is_empty());
    assert_eq!(out[0].triggers[0].trigger_name, "Passing");
    assert_eq!(out[1].element_path, "w.png");
    assert_eq!(out[1].commands[0].end_time, 10);
    assert_eq!(out[1].loops[0], ReconstructedLoop { loop_start_time: 100, loop_count: 2 });
}

#[test]
fn storyboard_files_are_sorted_and_distinct() {
    let elements = vec![
        element("1", "z.osb", 0, "Foreground", "x.png", "sprite", false),
        element("1", "map [Hard].osu", 0, "Foreground", "x.png", "sprite", true),
        element("1", "a.osb", 0, "Foreground", "x.png", "sprite", false),
        element("1", "z.osb", 1, "Foreground", "x.png", "sprite", false),
        element("2", "b.osb", 0, "Foreground", "x.png", "sprite", false),
    ];
    assert_eq!(StoryboardReconstructor::get_storyboard_files("1", &elements), vec!["a.osb".to_string(), "z.osb".to_string()]);
    assert_eq!(StoryboardReconstructor::get_embedded_storyboard_files("1", &elements), vec!["map [Hard].osu".to_string()]);
    assert!(StoryboardReconstructor::get_storyboard_files("3", &elements).is_empty());
}

fn beatmap(folder: &str, file: &str, audio: &str) -> BeatmapFileRef {
    BeatmapFileRef { folder_id: folder.to_string(), osu_file: file.to_string(), audio_file: audio.to_string() }
}

#[test]
fn folder_ids_are_sorted_and_distinct() {
    let maps = vec![beatmap("20", "a.osu", "a.mp3"), beatmap("100", "b.osu", "b.mp3"), beatmap("20", "c.osu", "c.mp3")];
    assert_eq!(FolderReconstructor::get_folder_ids(&maps), vec!["100".to_string(), "20".to_string()]);
    assert!(FolderReconstructor::get_folder_ids(&[]).is_empty());
}

#[test]
fn folder_plan_writes_beatmaps_and_storyboards() {
    let reconstructor = FolderReconstructor::new("/data/assets");
    assert_eq!(reconstructor.assets_dir(), "/data/assets");
    let maps = vec![
        beatmap("7", "easy.osu", "song.mp3"),
        beatmap("8", "other.osu", "x.mp3"),
        beatmap("7", "hard.osu", "song2.mp3"),
    ];
    let elements = vec![
        element("7", "hard.osu", 0, "Background", "bg.png", "sprite", true),
        element("7", "hard.osu", 1, "Background", "hit.wav", "sample", true),
        element("7", "story.osb", 0, "Foreground", "star.png", "sprite", false),
        element("7", "sounds.osb", 0, "Background", "a.wav", "sample", false),
        element("8", "other.osb", 0, "Foreground", "o.png", "sprite", false),
    ];
    let plan = reconstructor.reconstruct_folder("7", "/out/7", &maps, &elements, &[], &[], &[]);
    assert_eq!(plan.folder.folder_id, "7");
    assert_eq!(plan.folder.output_path, "/out/7");
    assert_eq!(plan.folder.osu_files, vec!["easy.osu".to_string(), "hard.osu".to_string()]);
    assert_eq!(plan.beatmap_lines, vec![0, 2]);
    assert_eq!(plan.embedded_scripts.len(), 1);
    assert_eq!(plan.embedded_scripts[0].file_name, "hard.osb");
    assert!(plan.embedded_scripts[0].content.contains("Sprite,Background,Centre,\"bg.png\",320,240\n"));
    assert_eq!(plan.storyboard_files, vec!["sounds.osb".to_string(), "story.osb".to_string()]);
    assert_eq!(plan.standalone_scripts.len(), 1);
    assert_eq!(plan.standalone_scripts[0].file_name, "story.osb");
    assert_eq!(plan.folder.storyboard_elements, 4);
    assert_eq!(plan.folder.assets_copied, 0);
    assert_eq!(plan.audio_file, Some("song.mp3".to_string()));
}

#[test]
fn folder_plan_of_unknown_folder_is_empty() {
    let reconstructor = FolderReconstructor::new("assets");
    let plan = reconstructor.reconstruct_folder("9", "out/9", &[beatmap("7", "a.osu", "a.mp3")], &[], &[], &[], &[]);
    assert!(plan.folder.osu_files.is_empty());
    assert!(plan.embedded_scripts.is_empty() && plan.standalone_scripts.is_empty());
    assert_eq!(plan.folder.storyboard_elements, 0);
    assert_eq!(plan.audio_file, None);
}

#[test]
fn folders_to_reconstruct_honours_request_and_limit() {
    let all = vec!["1".to_string(), "2".to_string(), "3".to_string()];
    assert_eq!(folders_to_reconstruct(Some("42".to_string()), all.clone(), Some(1)), vec!["42".to_string()]);
    assert_eq!(folders_to_reconstruct(None, all.clone(), Some(2)), vec!["1".to_string(), "2".to_string()]);
    assert_eq!(folders_to_reconstruct(None, all.clone(), Some(10)), all);
    assert_eq!(folders_to_reconstruct(None, all.clone(), None), all);
}

#[test]
fn reader_keeps_rows_of_the_folder() {
    let reader = ParquetReader::new("/data/dataset");
    assert_eq!(reader.dataset_path(), "/data/dataset");
    let ids = reader.load_folder_ids(&[Some("b".to_string()), None, Some("a".to_string()), Some("b".to_string())]);
    assert_eq!(ids, vec!["a".to_string(), "b".to_string()]);

    let s = |v: &str| v.to_string();
    let columns = StoryboardElementColumns {
        folder_id: vec![s("1"), s("2"), s("1")],
        source_file: vec![s("a.osb"), s("b.osb"), s("c.osb")],
        element_index: vec![0, 0, 1],
        layer_name: vec![s("Background"), s("Pass"), s("Foreground")],
        element_path: vec![s("p"), s("q"), s("r")],
        element_type: vec![s("sprite"), s("sprite"), s("animation")],
        origin: vec![s("Centre"), s("Centre"), s("TopLeft")],
        initial_pos_x: vec![1, 2, 3],
        initial_pos_y: vec![4, 5, 6],
        frame_count: vec![None, None, Some(2)],
        frame_delay: vec![None, None, Some(40)],
        loop_type: vec![None, None, Some(s("LoopOnce"))],
        is_embedded: vec![false, false, true],
    };
    let rows = reader.load_storyboard_elements_filtered(&columns, "1");
    assert_eq!(rows.len(), 2);
    assert_eq!(rows[0], element("1", "a.osb", 0, "Background", "p", "sprite", false).with_pos(1, 4));
    assert_eq!(rows[1].loop_type, Some(s("LoopOnce")));
    assert_eq!(rows[1].frame_delay, Some(40));

    let commands = StoryboardCommandColumns {
        folder_id: vec![s("2"), s("1")],
        source_file: vec![s("a.osb"), s("a.osb")],
        element_index: vec![0, 3],
        command_type: vec![s("x"), s("color")],
        start_time: vec![0, 10],
        end_time: vec![1, 20],
        start_value: vec![s("0"), s("255,0,0")],
        end_value: vec![s("1"), s("0,0,255")],
        easing: vec![0, 2],
        is_embedded: vec![false, true],
    };
    let rows = reader.load_storyboard_commands_filtered(&commands, "1");
    assert_eq!(rows.len(), 1);
    assert_eq!(rows[0].command_type, "color");
    assert_eq!(rows[0].easing, 2);

    let loops = StoryboardLoopColumns {
        folder_id: vec![s("1")],
        source_file: vec![s("a.osb")],
        element_index: vec![0],
        loop_index: vec![0],
        loop_start_time: vec![50],
        loop_count: vec![3],
        is_embedded: vec![false],
    };
    assert_eq!(reader.load_storyboard_loops_filtered(&loops, "1")[0].loop_count, 3);
    assert!(reader.load_storyboard_loops_filtered(&loops, "2").is_empty());

    let triggers = StoryboardTriggerColumns {
        folder_id: vec![s("1"), s("1")],
        source_file: vec![s("a.osb"), s("a.osb")],
        element_index: vec![0, 1],
        trigger_index: vec![0, 0],
        trigger_name: vec![s("Failing"), s("Passing")],
        trigger_start_time: vec![0, 5],
        trigger_end_time: vec![9, 6],
        group_number: vec![0, 1],
        is_embedded: vec![false, false],
    };
    let rows = reader.load_storyboard_triggers_filtered(&triggers, "1");
    assert_eq!(rows.len(), 2);
    assert_eq!(rows[1].trigger_name, "Passing");
}

trait WithPos {
    fn with_pos(self, x: i32, y: i32) -> Self;
}

impl WithPos for StoryboardElementRow {
    fn with_pos(mut self, x: i32, y: i32) -> Self {
        self.initial_pos_x = x;
        self.initial_pos_y = y;
        self
    }
}

#[test]
fn folder_lines_of_a_batch() {
    let reader = ParquetReader::new("d");
    let column = vec!["1".to_string(), "2".to_string(), "1".to_string()];
    assert_eq!(reader.folder_lines(&column, "1"), vec![0, 2]);
    assert!(reader.folder_lines(&column, "3").is_empty());
}
