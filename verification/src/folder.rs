//! Folder reconstruction: which beatmap files a folder gets back, which
//! storyboard scripts are written beside them and how many storyboard
//! elements they hold.

use vstd::prelude::*;
use crate::sorted::{sort_dedup, strictly_sorted, texts};
use crate::storyboard::{
    embedded_elements, file_elements, has_source_file, osb_text, reconstructed_from,
    ReconstructedElement, StoryboardCommandRow, StoryboardElementRow, StoryboardLoopRow,
    StoryboardReconstructor, StoryboardTriggerRow,
};
use crate::text::{ends_with, ends_with_str, replace_all, replace_str, str_eq};

verus! {

/// What folder reconstruction reads of a beatmap row: the folder it belongs
/// to, its file name and the audio file it names.
pub struct BeatmapFileRef {
    pub folder_id: String,
    pub osu_file: String,
    pub audio_file: String,
}

/// Rebuilds beatmap folders, copying their assets from one directory.
pub struct FolderReconstructor {
    assets_dir: String,
}

/// Result of reconstructing one folder.
pub struct ReconstructedFolder {
    pub folder_id: String,
    pub output_path: String,
    pub osu_files: Vec<String>,
    pub storyboard_elements: usize,
    pub assets_copied: usize,
}

/// A storyboard script to be written into the folder.
pub struct StoryboardScript {
    pub file_name: String,
    pub content: String,
}

/// Everything a folder's reconstruction writes, decided before any file
/// is touched.
pub struct FolderPlan {
    /// The result, with no assets counted yet.
    pub folder: ReconstructedFolder,
    /// The positions, in the beatmap table, of the folder's beatmaps.
    pub beatmap_lines: Vec<usize>,
    /// One script for each beatmap file with embedded storyboard elements.
    pub embedded_scripts: Vec<StoryboardScript>,
    /// The folder's standalone storyboard files.
    pub storyboard_files: Vec<String>,
    /// The standalone `.osb` scripts that have sprites or animations.
    pub standalone_scripts: Vec<StoryboardScript>,
    /// The audio file named by the folder's first beatmap.
    pub audio_file: Option<String>,
}

/// The table position holds a beatmap of the folder.
pub open spec fn in_folder(beatmaps: Seq<BeatmapFileRef>, folder: Seq<char>) -> spec_fn(int) -> bool {
    |i: int| beatmaps[i].folder_id@ == folder
}

/// The positions, among the first `n` of the table, of the folder's beatmaps.
pub open spec fn lines_upto(beatmaps: Seq<BeatmapFileRef>, folder: Seq<char>, n: int) -> Seq<int> {
    Seq::new(n as nat, |i: int| i).filter(in_folder(beatmaps, folder))
}

/// The beatmap files of the folder among the first `n` rows of the table.
pub open spec fn files_upto(beatmaps: Seq<BeatmapFileRef>, folder: Seq<char>, n: int) -> Seq<Seq<char>> {
    lines_upto(beatmaps, folder, n).map_values(|i: int| beatmaps[i].osu_file@)
}

/// The positions of the folder's beatmaps in the table, in order.
pub open spec fn folder_lines(beatmaps: Seq<BeatmapFileRef>, folder: Seq<char>) -> Seq<int> {
    lines_upto(beatmaps, folder, beatmaps.len() as int)
}

/// The folder's beatmap files, in table order.
pub open spec fn folder_files(beatmaps: Seq<BeatmapFileRef>, folder: Seq<char>) -> Seq<Seq<char>> {
    files_upto(beatmaps, folder, beatmaps.len() as int)
}

/// The folder's standalone storyboard files (the source files of its
/// non-embedded element rows), sorted and without duplicates.
pub open spec fn standalone_files(rows: Seq<StoryboardElementRow>, folder: Seq<char>) -> Seq<Seq<char>> {
    choose|s: Seq<Seq<char>>| strictly_sorted(s) && forall|x: Seq<char>| s.contains(x) <==> has_source_file(rows, folder, false, x)
}

/// The number of storyboard elements that reconstructing the folder
/// counts: those embedded in its beatmap files and those of its
/// standalone storyboard files.
pub open spec fn counted_elements(beatmaps: Seq<BeatmapFileRef>, rows: Seq<StoryboardElementRow>, folder: Seq<char>) -> nat {
    embedded_count(folder_files(beatmaps, folder), rows, folder) + element_count(standalone_files(rows, folder), rows, folder)
}

/// `content` is the `.osb` script of the elements reconstructed from the
/// rows `m` of the file `source` of `folder`.
pub open spec fn is_script_of(
    content: Seq<char>,
    m: Seq<StoryboardElementRow>,
    commands: Seq<StoryboardCommandRow>,
    loops: Seq<StoryboardLoopRow>,
    triggers: Seq<StoryboardTriggerRow>,
    folder: Seq<char>,
    source: Seq<char>,
) -> bool {
    exists|es: Seq<ReconstructedElement>|
        es.len() == m.len() && (forall|k: int|
            0 <= k < m.len() ==> reconstructed_from(#[trigger] es[k], m[k], commands, loops, triggers, folder, source))
            && content == osb_text(es)
}

/// Some of the rows is a sprite or an animation.
pub open spec fn has_drawable(m: Seq<StoryboardElementRow>) -> bool {
    exists|k: int| 0 <= k < m.len() && ((#[trigger] m[k]).element_type@ == "sprite"@ || m[k].element_type@ == "animation"@)
}

/// The number of embedded storyboard elements of the given beatmap files.
pub open spec fn embedded_count(files: Seq<Seq<char>>, rows: Seq<StoryboardElementRow>, folder: Seq<char>) -> nat
    decreases files.len(),
{
    if files.len() == 0 {
        0
    } else {
        embedded_count(files.drop_last(), rows, folder) + embedded_elements(rows, folder, files.last()).len()
    }
}

/// The number of storyboard elements of the given files.
pub open spec fn element_count(files: Seq<Seq<char>>, rows: Seq<StoryboardElementRow>, folder: Seq<char>) -> nat
    decreases files.len(),
{
    if files.len() == 0 {
        0
    } else {
        element_count(files.drop_last(), rows, folder) + file_elements(rows, folder, files.last()).len()
    }
}

/// The beatmap files that embed storyboard elements.
pub open spec fn files_with_embedded(files: Seq<Seq<char>>, rows: Seq<StoryboardElementRow>, folder: Seq<char>) -> Seq<Seq<char>> {
    files.filter(|f: Seq<char>| embedded_elements(rows, folder, f).len() > 0)
}

/// The standalone storyboard files whose script is written: `.osb` files
/// with a sprite or an animation.
pub open spec fn scripts_written(files: Seq<Seq<char>>, rows: Seq<StoryboardElementRow>, folder: Seq<char>) -> Seq<Seq<char>> {
    files.filter(|f: Seq<char>| ends_with(f, ".osb"@) && has_drawable(file_elements(rows, folder, f)))
}

/// The folder ids of the beatmap rows.
pub open spec fn folder_ids_of(beatmaps: Seq<BeatmapFileRef>) -> Seq<Seq<char>> {
    beatmaps.map_values(|b: BeatmapFileRef| b.folder_id@)
}

proof fn lemma_files_upto_step(beatmaps: Seq<BeatmapFileRef>, folder: Seq<char>, i: int)
    requires
        0 <= i < beatmaps.len(),
    ensures
        files_upto(beatmaps, folder, i + 1) == (if beatmaps[i].folder_id@ == folder {
            files_upto(beatmaps, folder, i).push(beatmaps[i].osu_file@)
        } else {
            files_upto(beatmaps, folder, i)
        }),
{
    let all = Seq::new(beatmaps.len(), |k: int| k);
    let pred = in_folder(beatmaps, folder);
    crate::text::lemma_filter_take_step(all, pred, i);
    assert(all.take(i + 1) =~= Seq::new((i + 1) as nat, |k: int| k));
    assert(all.take(i) =~= Seq::new(i as nat, |k: int| k));
    assert(all[i] == i);
    if pred(i) {
        assert(files_upto(beatmaps, folder, i + 1) =~= files_upto(beatmaps, folder, i).push(beatmaps[i].osu_file@));
    }
}

proof fn lemma_embedded_upto_mono(beatmaps: Seq<BeatmapFileRef>, rows: Seq<StoryboardElementRow>, folder: Seq<char>, i: int, j: int)
    requires
        0 <= i <= j <= beatmaps.len(),
    ensures
        embedded_count(files_upto(beatmaps, folder, i), rows, folder) <= embedded_count(files_upto(beatmaps, folder, j), rows, folder),
    decreases j - i,
{
    if i < j {
        lemma_embedded_upto_mono(beatmaps, rows, folder, i, j - 1);
        lemma_files_upto_step(beatmaps, folder, j - 1);
        let prev = files_upto(beatmaps, folder, j - 1);
        if beatmaps[j - 1].folder_id@ == folder {
            assert(prev.push(beatmaps[j - 1].osu_file@).drop_last() == prev);
        }
    }
}

proof fn lemma_element_count_prefix(files: Seq<Seq<char>>, rows: Seq<StoryboardElementRow>, folder: Seq<char>, k: int)
    requires
        0 <= k <= files.len(),
    ensures
        element_count(files.take(k), rows, folder) <= element_count(files, rows, folder),
    decreases files.len(),
{
    if files.len() > 0 {
        if k == files.len() {
            assert(files.take(k) == files);
        } else {
            lemma_element_count_prefix(files.drop_last(), rows, folder, k);
            assert(files.drop_last().take(k) == files.take(k));
        }
    }
}

proof fn lemma_texts_push(v: Seq<String>, s: String)
    ensures
        texts(v.push(s)) == texts(v).push(s@),
        texts(v.push(s)).drop_last() == texts(v),
        texts(v.push(s)).last() == s@,
{
    assert(texts(v.push(s)) =~= texts(v).push(s@));
    assert(texts(v.push(s)).drop_last() =~= texts(v));
}

proof fn lemma_filter_len_le<A>(s: Seq<A>, p: spec_fn(A) -> bool)
    ensures
        s.filter(p).len() <= s.len(),
{
    s.lemma_filter_len(p);
}

fn has_drawable_exec(elements: &Vec<ReconstructedElement>, Ghost(m): Ghost<Seq<StoryboardElementRow>>, Ghost(commands): Ghost<Seq<StoryboardCommandRow>>, Ghost(loops): Ghost<Seq<StoryboardLoopRow>>, Ghost(triggers): Ghost<Seq<StoryboardTriggerRow>>, Ghost(folder): Ghost<Seq<char>>, Ghost(source): Ghost<Seq<char>>) -> (r: bool)
    requires
        elements@.len() == m.len(),
        forall|k: int| 0 <= k < m.len() ==> reconstructed_from(#[trigger] elements@[k], m[k], commands, loops, triggers, folder, source),
    ensures
        r == has_drawable(m),
{
    let mut i: usize = 0;
    while i < elements.len()
        invariant
            0 <= i <= elements@.len() == m.len(),
            forall|k: int| 0 <= k < m.len() ==> reconstructed_from(#[trigger] elements@[k], m[k], commands, loops, triggers, folder, source),
            forall|k: int| 0 <= k < i ==> !((#[trigger] m[k]).element_type@ == "sprite"@ || m[k].element_type@ == "animation"@),
        decreases elements@.len() - i,
    {
        assert(reconstructed_from(elements@[i as int], m[i as int], commands, loops, triggers, folder, source));
        if str_eq(elements[i].element_type.as_str(), "sprite") || str_eq(elements[i].element_type.as_str(), "animation") {
            return true;
        }
        i = i + 1;
    }
    false
}

impl FolderReconstructor {
    /// The assets directory, as characters.
    pub closed spec fn assets(self) -> Seq<char> {
        self.assets_dir@
    }

    /// A reconstructor that copies assets from `assets_dir`.
    pub fn new(assets_dir: &str) -> (r: Self)
        ensures
            r.assets() == assets_dir@,
    {
        FolderReconstructor { assets_dir: assets_dir.to_owned() }
    }

    /// The directory the assets are copied from.
    pub fn assets_dir(&self) -> (r: &str)
        ensures
            r@ == self.assets(),
    {
        self.assets_dir.as_str()
    }

    /// Decides what the reconstruction of folder `folder_id` writes into
    /// `output_path`: its beatmap files, in table order; for each of them
    /// that embeds storyboard elements, a script of those elements named
    /// after it (`.osu` replaced by `.osb`); the script of each standalone
    /// `.osb` storyboard file of the folder that has a sprite or an
    /// animation; the count of all those storyboard elements; and the audio
    /// file named by the first beatmap. No assets are counted yet.
    pub fn reconstruct_folder(
        &self,
        folder_id: &str,
        output_path: &str,
        beatmaps: &[BeatmapFileRef],
        element_rows: &[StoryboardElementRow],
        command_rows: &[StoryboardCommandRow],
        loop_rows: &[StoryboardLoopRow],
        trigger_rows: &[StoryboardTriggerRow],
    ) -> (r: FolderPlan)
        requires
            counted_elements(beatmaps@, element_rows@, folder_id@) <= usize::MAX,
        ensures
            ({
                let lines = folder_lines(beatmaps@, folder_id@);
                let files = texts(r.folder.osu_files@);
                let sb_files = texts(r.storyboard_files@);
                let with_embedded = files_with_embedded(files, element_rows@, folder_id@);
                let written = scripts_written(sb_files, element_rows@, folder_id@);
                &&& r.folder.folder_id@ == folder_id@
                &&& r.folder.output_path@ == output_path@
                &&& r.folder.assets_copied == 0
                &&& r.beatmap_lines@.len() == lines.len()
                &&& files == folder_files(beatmaps@, folder_id@)
                &&& sb_files == standalone_files(element_rows@, folder_id@)
                &&& forall|k: int| 0 <= k < lines.len() ==> #[trigger] r.beatmap_lines@[k] == lines[k]
                &&& forall|k: int| 0 <= k < lines.len() ==> #[trigger] files[k] == beatmaps@[r.beatmap_lines@[k] as int].osu_file@
                &&& r.embedded_scripts@.len() == with_embedded.len()
                &&& forall|k: int| 0 <= k < with_embedded.len() ==> {
                    &&& (#[trigger] r.embedded_scripts@[k]).file_name@ == replace_all(with_embedded[k], ".osu"@, ".osb"@)
                    &&& is_script_of(r.embedded_scripts@[k].content@, embedded_elements(element_rows@, folder_id@, with_embedded[k]),
                        command_rows@, loop_rows@, trigger_rows@, folder_id@, with_embedded[k])
                }
                &&& strictly_sorted(sb_files)
                &&& forall|x: Seq<char>| sb_files.contains(x) <==> has_source_file(element_rows@, folder_id@, false, x)
                &&& r.standalone_scripts@.len() == written.len()
                &&& forall|k: int| 0 <= k < written.len() ==> {
                    &&& (#[trigger] r.standalone_scripts@[k]).file_name@ == written[k]
                    &&& is_script_of(r.standalone_scripts@[k].content@, file_elements(element_rows@, folder_id@, written[k]),
                        command_rows@, loop_rows@, trigger_rows@, folder_id@, written[k])
                }
                &&& r.folder.storyboard_elements == embedded_count(files, element_rows@, folder_id@)
                    + element_count(sb_files, element_rows@, folder_id@)
                &&& (r.audio_file is None) == (lines.len() == 0)
                &&& r.audio_file matches Some(a) ==> a@ == beatmaps@[lines[0]].audio_file@
            }),
    {
        let n = beatmaps.len();
        let m = element_rows.len();
        let ghost all = Seq::new(n as nat, |i: int| i);
        let ghost pred = in_folder(beatmaps@, folder_id@);
        let ghost emb_pred = |f: Seq<char>| embedded_elements(element_rows@, folder_id@, f).len() > 0;
        let mut lines: Vec<usize> = Vec::new();
        let mut osu_files: Vec<String> = Vec::new();
        let mut embedded_scripts: Vec<StoryboardScript> = Vec::new();
        let mut audio_file: Option<String> = None;
        let mut total: usize = 0;
        let mut i: usize = 0;
        while i < n
            invariant
                0 <= i <= n == beatmaps@.len(),
                m == element_rows@.len(),
                counted_elements(beatmaps@, element_rows@, folder_id@) <= usize::MAX,
                all == Seq::new(n as nat, |i: int| i),
                pred == in_folder(beatmaps@, folder_id@),
                texts(osu_files@) == files_upto(beatmaps@, folder_id@, i as int),
                emb_pred == (|f: Seq<char>| embedded_elements(element_rows@, folder_id@, f).len() > 0),
                lines@.len() == all.take(i as int).filter(pred).len(),
                osu_files@.len() == lines@.len(),
                lines@.len() <= i,
                forall|k: int| 0 <= k < lines@.len() ==> #[trigger] lines@[k] == all.take(i as int).filter(pred)[k],
                forall|k: int| 0 <= k < lines@.len() ==> #[trigger] texts(osu_files@)[k] == beatmaps@[lines@[k] as int].osu_file@,
                embedded_scripts@.len() == texts(osu_files@).filter(emb_pred).len(),
                forall|k: int| 0 <= k < embedded_scripts@.len() ==> {
                    &&& (#[trigger] embedded_scripts@[k]).file_name@ == replace_all(texts(osu_files@).filter(emb_pred)[k], ".osu"@, ".osb"@)
                    &&& is_script_of(embedded_scripts@[k].content@, embedded_elements(element_rows@, folder_id@, texts(osu_files@).filter(emb_pred)[k]),
                        command_rows@, loop_rows@, trigger_rows@, folder_id@, texts(osu_files@).filter(emb_pred)[k])
                },
                total == embedded_count(texts(osu_files@), element_rows@, folder_id@),
                (audio_file is None) == (lines@.len() == 0),
                audio_file matches Some(a) ==> a@ == beatmaps@[lines@[0] as int].audio_file@,
            decreases n - i,
        {
            proof {
                crate::text::lemma_filter_take_step(all, pred, i as int);
            }
            let b = &beatmaps[i];
            if str_eq(b.folder_id.as_str(), folder_id) {
                assert(pred(all[i as int]));
                let ghost prev_files = osu_files@;
                let ghost prev_lines = lines@;
                let embedded = StoryboardReconstructor::reconstruct_selected(
                    folder_id,
                    b.osu_file.as_str(),
                    true,
                    element_rows,
                    command_rows,
                    loop_rows,
                    trigger_rows,
                );
                let ghost emb_rows = embedded_elements(element_rows@, folder_id@, b.osu_file@);
                assert(embedded@.len() == emb_rows.len());
                proof {
                    lemma_filter_len_le(element_rows@, crate::storyboard::element_selector(folder_id@, b.osu_file@, true));
                }
                if lines.len() == 0 {
                    audio_file = Some(b.audio_file.clone());
                }
                lines.push(i);
                osu_files.push(b.osu_file.clone());
                proof {
                    lemma_texts_push(prev_files, b.osu_file);
                    texts(prev_files).lemma_filter_push(b.osu_file@, emb_pred);
                    assert forall|k: int| 0 <= k < lines@.len() implies #[trigger] lines@[k] == all.take(i + 1).filter(pred)[k] by {
                        if k < prev_lines.len() {
                            assert(lines@[k] == prev_lines[k]);
                        }
                    }
                    assert forall|k: int| 0 <= k < lines@.len() implies #[trigger] texts(osu_files@)[k] == beatmaps@[lines@[k] as int].osu_file@ by {
                        if k < prev_lines.len() {
                            assert(texts(osu_files@)[k] == texts(prev_files)[k]);
                            assert(lines@[k] == prev_lines[k]);
                        } else {
                            assert(lines@[k] == i);
                        }
                    }
                }
                let count = embedded.len();
                proof {
                    lemma_files_upto_step(beatmaps@, folder_id@, i as int);
                    assert(texts(osu_files@).drop_last() == texts(prev_files));
                    assert(texts(osu_files@) == files_upto(beatmaps@, folder_id@, i + 1));
                    lemma_embedded_upto_mono(beatmaps@, element_rows@, folder_id@, i + 1, n as int);
                    assert(all.take(i + 1) =~= Seq::new((i + 1) as nat, |k: int| k));
                }
                total = total + count;
                if count > 0 {
                    let content = StoryboardReconstructor::to_osb_content(&embedded);
                    proof {
                        reveal_strlit(".osu");
                    }
                    let file_name = replace_str(b.osu_file.as_str(), ".osu", ".osb");
                    assert(is_script_of(content@, emb_rows, command_rows@, loop_rows@, trigger_rows@, folder_id@, b.osu_file@)) by {
                        assert(embedded@.len() == emb_rows.len()
                            && (forall|k: int| 0 <= k < emb_rows.len() ==> reconstructed_from(#[trigger] embedded@[k], emb_rows[k], command_rows@, loop_rows@, trigger_rows@, folder_id@, b.osu_file@))
                            && content@ == osb_text(embedded@));
                    }
                    embedded_scripts.push(StoryboardScript { file_name, content });
                }
            } else {
                assert(!pred(all[i as int]));
                assert(all.take(i + 1).filter(pred) == all.take(i as int).filter(pred));
                proof {
                    lemma_files_upto_step(beatmaps@, folder_id@, i as int);
                }
            }
            i = i + 1;
        }
        assert(all.take(n as int) == all);
        assert(folder_lines(beatmaps@, folder_id@) == all.filter(pred));
        assert(texts(osu_files@) == folder_files(beatmaps@, folder_id@));
        let sb_files = StoryboardReconstructor::get_storyboard_files(folder_id, element_rows);
        proof {
            let sa = standalone_files(element_rows@, folder_id@);
            assert(strictly_sorted(sa) && forall|x: Seq<char>| sa.contains(x) <==> has_source_file(element_rows@, folder_id@, false, x));
            crate::sorted::lemma_strictly_sorted_unique(texts(sb_files@), sa);
        }
        let ghost written_pred = |f: Seq<char>| ends_with(f, ".osb"@) && has_drawable(file_elements(element_rows@, folder_id@, f));
        let mut standalone_scripts: Vec<StoryboardScript> = Vec::new();
        let ghost embedded_total = total;
        let mut j: usize = 0;
        while j < sb_files.len()
            invariant
                0 <= j <= sb_files@.len() <= m,
                m == element_rows@.len(),
                n == beatmaps@.len(),
                counted_elements(beatmaps@, element_rows@, folder_id@) <= usize::MAX,
                embedded_total == embedded_count(folder_files(beatmaps@, folder_id@), element_rows@, folder_id@),
                texts(sb_files@) == standalone_files(element_rows@, folder_id@),
                written_pred == (|f: Seq<char>| ends_with(f, ".osb"@) && has_drawable(file_elements(element_rows@, folder_id@, f))),
                total == embedded_total + element_count(texts(sb_files@).take(j as int), element_rows@, folder_id@),
                standalone_scripts@.len() == texts(sb_files@).take(j as int).filter(written_pred).len(),
                forall|k: int| 0 <= k < standalone_scripts@.len() ==> {
                    &&& (#[trigger] standalone_scripts@[k]).file_name@ == texts(sb_files@).take(j as int).filter(written_pred)[k]
                    &&& is_script_of(standalone_scripts@[k].content@, file_elements(element_rows@, folder_id@, texts(sb_files@).take(j as int).filter(written_pred)[k]),
                        command_rows@, loop_rows@, trigger_rows@, folder_id@, texts(sb_files@).take(j as int).filter(written_pred)[k])
                },
            decreases sb_files@.len() - j,
        {
            let f = &sb_files[j];
            let ghost sbt = texts(sb_files@);
            assert(sbt[j as int] == f@);
            proof {
                crate::text::lemma_filter_take_step(sbt, written_pred, j as int);
                assert(sbt.take(j + 1).drop_last() == sbt.take(j as int));
            }
            let elements = StoryboardReconstructor::reconstruct(
                folder_id,
                f.as_str(),
                element_rows,
                command_rows,
                loop_rows,
                trigger_rows,
            );
            let ghost rows_f = file_elements(element_rows@, folder_id@, f@);
            proof {
                lemma_filter_len_le(element_rows@, crate::storyboard::file_selector(folder_id@, f@));
            }
            let count = elements.len();
            proof {
                lemma_element_count_prefix(sbt, element_rows@, folder_id@, j + 1);
                assert(sbt.take(j + 1).last() == f@);
            }
            let drawable = has_drawable_exec(&elements, Ghost(rows_f), Ghost(command_rows@), Ghost(loop_rows@), Ghost(trigger_rows@), Ghost(folder_id@), Ghost(f@));
            if drawable && ends_with_str(&crate::text::str_chars(f.as_str()), ".osb") {
                let content = StoryboardReconstructor::to_osb_content(&elements);
                assert(is_script_of(content@, rows_f, command_rows@, loop_rows@, trigger_rows@, folder_id@, f@)) by {
                    assert(elements@.len() == rows_f.len()
                        && (forall|k: int| 0 <= k < rows_f.len() ==> reconstructed_from(#[trigger] elements@[k], rows_f[k], command_rows@, loop_rows@, trigger_rows@, folder_id@, f@))
                        && content@ == osb_text(elements@));
                }
                standalone_scripts.push(StoryboardScript { file_name: f.clone(), content });
            }
            total = total + count;
            j = j + 1;
        }
        assert(texts(sb_files@).take(sb_files@.len() as int) == texts(sb_files@));
        FolderPlan {
            folder: ReconstructedFolder {
                folder_id: folder_id.to_owned(),
                output_path: output_path.to_owned(),
                osu_files,
                storyboard_elements: total,
                assets_copied: 0,
            },
            beatmap_lines: lines,
            embedded_scripts,
            storyboard_files: sb_files,
            standalone_scripts,
            audio_file,
        }
    }

    /// The distinct folder ids of the beatmap rows, sorted.
    pub fn get_folder_ids(beatmaps: &[BeatmapFileRef]) -> (r: Vec<String>)
        ensures
            strictly_sorted(texts(r@)),
            forall|x: Seq<char>| texts(r@).contains(x) <==> folder_ids_of(beatmaps@).contains(x),
    {
        let mut ids: Vec<String> = Vec::new();
        let mut i: usize = 0;
        while i < beatmaps.len()
            invariant
                0 <= i <= beatmaps@.len(),
                texts(ids@) == folder_ids_of(beatmaps@.take(i as int)),
            decreases beatmaps@.len() - i,
        {
            let ghost prev = ids@;
            ids.push(beatmaps[i].folder_id.clone());
            proof {
                lemma_texts_push(prev, beatmaps@[i as int].folder_id);
                assert(folder_ids_of(beatmaps@.take(i + 1)) =~= folder_ids_of(beatmaps@.take(i as int)).push(beatmaps@[i as int].folder_id@));
            }
            i = i + 1;
        }
        assert(beatmaps@.take(beatmaps@.len() as int) == beatmaps@);
        sort_dedup(ids)
    }
}

/// The folders a reconstruction run works on: the one asked for, or else
/// the dataset's folders (sorted) cut to the limit, when one is given.
pub fn folders_to_reconstruct(requested: Option<String>, all_ids: Vec<String>, limit: Option<usize>) -> (r: Vec<String>)
    ensures
        match requested {
            Some(id) => r@.len() == 1 && r@[0] == id,
            None => match limit {
                Some(n) => r@ == all_ids@.take(if n < all_ids@.len() { n as int } else { all_ids@.len() as int }),
                None => r@ == all_ids@,
            },
        },
{
    match requested {
        Some(id) => {
            let mut v: Vec<String> = Vec::new();
            v.push(id);
            v
        },
        None => {
            let mut ids = all_ids;
            match limit {
                Some(n) => {
                    ids.truncate(n);
                    ids
                },
                None => ids,
            }
        },
    }
}

} // verus!
