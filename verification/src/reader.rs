//! Reading the dataset tables: the rows that a table's columns hold,
//! restricted to one beatmap folder.

use vstd::prelude::*;
use crate::sorted::{sort_dedup, strictly_sorted, texts};
use crate::text::str_eq;
use crate::storyboard::{StoryboardCommandRow, StoryboardElementRow, StoryboardLoopRow, StoryboardTriggerRow};
use crate::types::{ComboColorRow, HitSampleRow};

verus! {

/// Loads rows of the dataset tables kept under one directory.
pub struct ParquetReader {
    dataset_path: String,
}

/// The columns of the combo colours table, as read from one record batch.
pub struct ComboColorColumns {
    pub folder_id: Vec<String>,
    pub osu_file: Vec<String>,
    pub color_index: Vec<i32>,
    pub color_type: Vec<String>,
    pub custom_name: Vec<Option<String>>,
    pub red: Vec<i32>,
    pub green: Vec<i32>,
    pub blue: Vec<i32>,
}

/// The columns of the hit samples table, as read from one record batch.
pub struct HitSampleColumns {
    pub folder_id: Vec<String>,
    pub osu_file: Vec<String>,
    pub hit_object_index: Vec<i32>,
    pub sample_index: Vec<i32>,
    pub name: Vec<String>,
    pub bank: Vec<String>,
    pub suffix: Vec<Option<String>>,
    pub volume: Vec<i32>,
}

/// The columns of the storyboard elements table, as read from one record batch;
/// times and positions as the whole numbers the script format writes.
pub struct StoryboardElementColumns {
    pub folder_id: Vec<String>,
    pub source_file: Vec<String>,
    pub element_index: Vec<i32>,
    pub layer_name: Vec<String>,
    pub element_path: Vec<String>,
    pub element_type: Vec<String>,
    pub origin: Vec<String>,
    pub initial_pos_x: Vec<i32>,
    pub initial_pos_y: Vec<i32>,
    pub frame_count: Vec<Option<i32>>,
    pub frame_delay: Vec<Option<i32>>,
    pub loop_type: Vec<Option<String>>,
    pub is_embedded: Vec<bool>,
}

/// The columns of the storyboard commands table, as read from one record batch;
/// times and positions as the whole numbers the script format writes.
pub struct StoryboardCommandColumns {
    pub folder_id: Vec<String>,
    pub source_file: Vec<String>,
    pub element_index: Vec<i32>,
    pub command_type: Vec<String>,
    pub start_time: Vec<i32>,
    pub end_time: Vec<i32>,
    pub start_value: Vec<String>,
    pub end_value: Vec<String>,
    pub easing: Vec<i32>,
    pub is_embedded: Vec<bool>,
}

/// The columns of the storyboard loops table, as read from one record batch;
/// times and positions as the whole numbers the script format writes.
pub struct StoryboardLoopColumns {
    pub folder_id: Vec<String>,
    pub source_file: Vec<String>,
    pub element_index: Vec<i32>,
    pub loop_index: Vec<i32>,
    pub loop_start_time: Vec<i32>,
    pub loop_count: Vec<i32>,
    pub is_embedded: Vec<bool>,
}

/// The columns of the storyboard triggers table, as read from one record batch;
/// times and positions as the whole numbers the script format writes.
pub struct StoryboardTriggerColumns {
    pub folder_id: Vec<String>,
    pub source_file: Vec<String>,
    pub element_index: Vec<i32>,
    pub trigger_index: Vec<i32>,
    pub trigger_name: Vec<String>,
    pub trigger_start_time: Vec<i32>,
    pub trigger_end_time: Vec<i32>,
    pub group_number: Vec<i32>,
    pub is_embedded: Vec<bool>,
}

/// Every column of the batch has `n` values.
pub open spec fn element_columns_len(c: StoryboardElementColumns, n: nat) -> bool {
    c.folder_id@.len() == n
        && c.source_file@.len() == n
        && c.element_index@.len() == n
        && c.layer_name@.len() == n
        && c.element_path@.len() == n
        && c.element_type@.len() == n
        && c.origin@.len() == n
        && c.initial_pos_x@.len() == n
        && c.initial_pos_y@.len() == n
        && c.frame_count@.len() == n
        && c.frame_delay@.len() == n
        && c.loop_type@.len() == n
        && c.is_embedded@.len() == n
}

/// `row` holds the values of line `i` of the storyboard element columns.
pub open spec fn element_row_at(row: StoryboardElementRow, c: StoryboardElementColumns, i: int) -> bool {
    &&& row.folder_id == c.folder_id@[i]
    &&& row.source_file == c.source_file@[i]
    &&& row.element_index == c.element_index@[i]
    &&& row.layer_name == c.layer_name@[i]
    &&& row.element_path == c.element_path@[i]
    &&& row.element_type == c.element_type@[i]
    &&& row.origin == c.origin@[i]
    &&& row.initial_pos_x == c.initial_pos_x@[i]
    &&& row.initial_pos_y == c.initial_pos_y@[i]
    &&& row.frame_count == c.frame_count@[i]
    &&& row.frame_delay == c.frame_delay@[i]
    &&& row.loop_type == c.loop_type@[i]
    &&& row.is_embedded == c.is_embedded@[i]
}

/// Every column of the batch has `n` values.
pub open spec fn command_columns_len(c: StoryboardCommandColumns, n: nat) -> bool {
    c.folder_id@.len() == n
        && c.source_file@.len() == n
        && c.element_index@.len() == n
        && c.command_type@.len() == n
        && c.start_time@.len() == n
        && c.end_time@.len() == n
        && c.start_value@.len() == n
        && c.end_value@.len() == n
        && c.easing@.len() == n
        && c.is_embedded@.len() == n
}

/// `row` holds the values of line `i` of the storyboard command columns.
pub open spec fn command_row_at(row: StoryboardCommandRow, c: StoryboardCommandColumns, i: int) -> bool {
    &&& row.folder_id == c.folder_id@[i]
    &&& row.source_file == c.source_file@[i]
    &&& row.element_index == c.element_index@[i]
    &&& row.command_type == c.command_type@[i]
    &&& row.start_time == c.start_time@[i]
    &&& row.end_time == c.end_time@[i]
    &&& row.start_value == c.start_value@[i]
    &&& row.end_value == c.end_value@[i]
    &&& row.easing == c.easing@[i]
    &&& row.is_embedded == c.is_embedded@[i]
}

/// Every column of the batch has `n` values.
pub open spec fn loop_columns_len(c: StoryboardLoopColumns, n: nat) -> bool {
    c.folder_id@.len() == n
        && c.source_file@.len() == n
        && c.element_index@.len() == n
        && c.loop_index@.len() == n
        && c.loop_start_time@.len() == n
        && c.loop_count@.len() == n
        && c.is_embedded@.len() == n
}

/// `row` holds the values of line `i` of the storyboard loop columns.
pub open spec fn loop_row_at(row: StoryboardLoopRow, c: StoryboardLoopColumns, i: int) -> bool {
    &&& row.folder_id == c.folder_id@[i]
    &&& row.source_file == c.source_file@[i]
    &&& row.element_index == c.element_index@[i]
    &&& row.loop_index == c.loop_index@[i]
    &&& row.loop_start_time == c.loop_start_time@[i]
    &&& row.loop_count == c.loop_count@[i]
    &&& row.is_embedded == c.is_embedded@[i]
}

/// Every column of the batch has `n` values.
pub open spec fn trigger_columns_len(c: StoryboardTriggerColumns, n: nat) -> bool {
    c.folder_id@.len() == n
        && c.source_file@.len() == n
        && c.element_index@.len() == n
        && c.trigger_index@.len() == n
        && c.trigger_name@.len() == n
        && c.trigger_start_time@.len() == n
        && c.trigger_end_time@.len() == n
        && c.group_number@.len() == n
        && c.is_embedded@.len() == n
}

/// `row` holds the values of line `i` of the storyboard trigger columns.
pub open spec fn trigger_row_at(row: StoryboardTriggerRow, c: StoryboardTriggerColumns, i: int) -> bool {
    &&& row.folder_id == c.folder_id@[i]
    &&& row.source_file == c.source_file@[i]
    &&& row.element_index == c.element_index@[i]
    &&& row.trigger_index == c.trigger_index@[i]
    &&& row.trigger_name == c.trigger_name@[i]
    &&& row.trigger_start_time == c.trigger_start_time@[i]
    &&& row.trigger_end_time == c.trigger_end_time@[i]
    &&& row.group_number == c.group_number@[i]
    &&& row.is_embedded == c.is_embedded@[i]
}

/// Every column of the batch has `n` values.
pub open spec fn combo_columns_len(c: ComboColorColumns, n: nat) -> bool {
    c.folder_id@.len() == n && c.osu_file@.len() == n && c.color_index@.len() == n
        && c.color_type@.len() == n && c.custom_name@.len() == n && c.red@.len() == n
        && c.green@.len() == n && c.blue@.len() == n
}

/// Every column of the batch has `n` values.
pub open spec fn sample_columns_len(c: HitSampleColumns, n: nat) -> bool {
    c.folder_id@.len() == n && c.osu_file@.len() == n && c.hit_object_index@.len() == n
        && c.sample_index@.len() == n && c.name@.len() == n && c.bank@.len() == n
        && c.suffix@.len() == n && c.volume@.len() == n
}

/// `row` holds the values of line `i` of the combo colour columns.
pub open spec fn combo_row_at(row: ComboColorRow, c: ComboColorColumns, i: int) -> bool {
    &&& row.folder_id == c.folder_id@[i]
    &&& row.osu_file == c.osu_file@[i]
    &&& row.color_index == c.color_index@[i]
    &&& row.color_type == c.color_type@[i]
    &&& row.custom_name == c.custom_name@[i]
    &&& row.red == c.red@[i]
    &&& row.green == c.green@[i]
    &&& row.blue == c.blue@[i]
}

/// `row` holds the values of line `i` of the hit sample columns.
pub open spec fn sample_row_at(row: HitSampleRow, c: HitSampleColumns, i: int) -> bool {
    &&& row.folder_id == c.folder_id@[i]
    &&& row.osu_file == c.osu_file@[i]
    &&& row.hit_object_index == c.hit_object_index@[i]
    &&& row.sample_index == c.sample_index@[i]
    &&& row.name == c.name@[i]
    &&& row.bank == c.bank@[i]
    &&& row.suffix == c.suffix@[i]
    &&& row.volume == c.volume@[i]
}

/// The non-null values of a column, in order.
pub open spec fn present_values(column: Seq<Option<String>>) -> Seq<Seq<char>> {
    column.filter(|v: Option<String>| v is Some).map_values(|v: Option<String>| v->0@)
}

/// The lines of a folder column whose value is `target`, in order.
pub open spec fn lines_of_folder(folder: Seq<String>, target: Seq<char>) -> Seq<int> {
    Seq::new(folder.len(), |i: int| i).filter(holds_folder(folder, target))
}

/// Line `i` of the folder column holds `target`.
pub open spec fn holds_folder(folder: Seq<String>, target: Seq<char>) -> spec_fn(int) -> bool {
    |i: int| folder[i]@ == target
}

fn clone_opt(s: &Option<String>) -> (r: Option<String>)
    ensures
        r == *s,
{
    match s {
        Some(v) => Some(v.clone()),
        None => None,
    }
}

impl ParquetReader {
    /// The dataset directory, as characters.
    pub closed spec fn path(self) -> Seq<char> {
        self.dataset_path@
    }

    /// A reader for the dataset kept under `dataset_path`.
    pub fn new(dataset_path: &str) -> (r: Self)
        ensures
            r.path() == dataset_path@,
    {
        ParquetReader { dataset_path: dataset_path.to_owned() }
    }

    /// The directory holding the dataset tables.
    pub fn dataset_path(&self) -> (r: &str)
        ensures
            r@ == self.path(),
    {
        self.dataset_path.as_str()
    }

    /// The lines of a batch whose folder is `target_folder`, in order,
    /// given the batch's folder id column.
    pub fn folder_lines(&self, folder_column: &[String], target_folder: &str) -> (r: Vec<usize>)
        ensures
            r@.len() == lines_of_folder(folder_column@, target_folder@).len(),
            forall|k: int| 0 <= k < r@.len() ==> #[trigger] r@[k] == lines_of_folder(folder_column@, target_folder@)[k],
    {
        let n = folder_column.len();
        let ghost all = Seq::new(n as nat, |i: int| i);
        let ghost pred = holds_folder(folder_column@, target_folder@);
        let mut out: Vec<usize> = Vec::new();
        let mut i: usize = 0;
        while i < n
            invariant
                0 <= i <= n == folder_column@.len(),
                all == Seq::new(n as nat, |i: int| i),
                pred == holds_folder(folder_column@, target_folder@),
                out@.len() == all.take(i as int).filter(pred).len(),
                forall|k: int| 0 <= k < out@.len() ==> #[trigger] out@[k] == all.take(i as int).filter(pred)[k],
            decreases n - i,
        {
            proof {
                crate::text::lemma_filter_take_step(all, pred, i as int);
            }
            if str_eq(folder_column[i].as_str(), target_folder) {
                assert(pred(all[i as int]));
                out.push(i);
            } else {
                assert(!pred(all[i as int]));
            }
            i = i + 1;
        }
        assert(all.take(n as int) == all);
        out
    }

    /// The distinct folder ids of the beatmaps table, sorted, from the
    /// values of its folder id column (null values skipped).
    pub fn load_folder_ids(&self, folder_column: &[Option<String>]) -> (r: Vec<String>)
        ensures
            strictly_sorted(texts(r@)),
            forall|x: Seq<char>| texts(r@).contains(x) <==> present_values(folder_column@).contains(x),
    {
        let mut ids: Vec<String> = Vec::new();
        let mut i: usize = 0;
        while i < folder_column.len()
            invariant
                0 <= i <= folder_column@.len(),
                texts(ids@) == present_values(folder_column@.take(i as int)),
            decreases folder_column@.len() - i,
        {
            proof {
                crate::text::lemma_filter_take_step(folder_column@, |v: Option<String>| v is Some, i as int);
            }
            assert(present_values(folder_column@.take(i + 1)) == (if folder_column@[i as int] is Some {
                present_values(folder_column@.take(i as int)).push(folder_column@[i as int]->0@)
            } else {
                present_values(folder_column@.take(i as int))
            }));
            match &folder_column[i] {
                Some(v) => {
                    let ghost prev = ids@;
                    ids.push(v.clone());
                    assert(texts(ids@) =~= texts(prev).push(v@));
                },
                None => {},
            }
            i = i + 1;
        }
        assert(folder_column@.take(folder_column@.len() as int) == folder_column@);
        sort_dedup(ids)
    }

    /// The combo colour rows of one folder held in a batch of columns: the
    /// lines whose folder is `target_folder`, in order.
    pub fn load_combo_colors_filtered(&self, columns: &ComboColorColumns, target_folder: &str) -> (r: Vec<ComboColorRow>)
        requires
            combo_columns_len(*columns, columns.folder_id@.len()),
        ensures
            r@.len() == lines_of_folder(columns.folder_id@, target_folder@).len(),
            forall|k: int| 0 <= k < r@.len() ==> combo_row_at(#[trigger] r@[k], *columns, lines_of_folder(columns.folder_id@, target_folder@)[k]),
    {
        let n = columns.folder_id.len();
        let ghost all = Seq::new(n as nat, |i: int| i);
        let ghost pred = holds_folder(columns.folder_id@, target_folder@);
        let mut out: Vec<ComboColorRow> = Vec::new();
        let mut i: usize = 0;
        while i < n
            invariant
                0 <= i <= n == columns.folder_id@.len(),
                combo_columns_len(*columns, n as nat),
                all == Seq::new(n as nat, |i: int| i),
                pred == holds_folder(columns.folder_id@, target_folder@),
                out@.len() == all.take(i as int).filter(pred).len(),
                forall|k: int| 0 <= k < out@.len() ==> combo_row_at(#[trigger] out@[k], *columns, all.take(i as int).filter(pred)[k]),
            decreases n - i,
        {
            proof {
                crate::text::lemma_filter_take_step(all, pred, i as int);
            }
            if str_eq(columns.folder_id[i].as_str(), target_folder) {
                out.push(ComboColorRow {
                    folder_id: columns.folder_id[i].clone(),
                    osu_file: columns.osu_file[i].clone(),
                    color_index: columns.color_index[i],
                    color_type: columns.color_type[i].clone(),
                    custom_name: clone_opt(&columns.custom_name[i]),
                    red: columns.red[i],
                    green: columns.green[i],
                    blue: columns.blue[i],
                });
                assert(pred(all[i as int]));
            } else {
                assert(!pred(all[i as int]));
            }
            i = i + 1;
        }
        assert(all.take(n as int) == all);
        out
    }

    /// The hit sample rows of one folder held in a batch of columns: the
    /// lines whose folder is `target_folder`, in order.
    pub fn load_hit_samples_filtered(&self, columns: &HitSampleColumns, target_folder: &str) -> (r: Vec<HitSampleRow>)
        requires
            sample_columns_len(*columns, columns.folder_id@.len()),
        ensures
            r@.len() == lines_of_folder(columns.folder_id@, target_folder@).len(),
            forall|k: int| 0 <= k < r@.len() ==> sample_row_at(#[trigger] r@[k], *columns, lines_of_folder(columns.folder_id@, target_folder@)[k]),
    {
        let n = columns.folder_id.len();
        let ghost all = Seq::new(n as nat, |i: int| i);
        let ghost pred = holds_folder(columns.folder_id@, target_folder@);
        let mut out: Vec<HitSampleRow> = Vec::new();
        let mut i: usize = 0;
        while i < n
            invariant
                0 <= i <= n == columns.folder_id@.len(),
                sample_columns_len(*columns, n as nat),
                all == Seq::new(n as nat, |i: int| i),
                pred == holds_folder(columns.folder_id@, target_folder@),
                out@.len() == all.take(i as int).filter(pred).len(),
                forall|k: int| 0 <= k < out@.len() ==> sample_row_at(#[trigger] out@[k], *columns, all.take(i as int).filter(pred)[k]),
            decreases n - i,
        {
            proof {
                crate::text::lemma_filter_take_step(all, pred, i as int);
            }
            if str_eq(columns.folder_id[i].as_str(), target_folder) {
                out.push(HitSampleRow {
                    folder_id: columns.folder_id[i].clone(),
                    osu_file: columns.osu_file[i].clone(),
                    hit_object_index: columns.hit_object_index[i],
                    sample_index: columns.sample_index[i],
                    name: columns.name[i].clone(),
                    bank: columns.bank[i].clone(),
                    suffix: clone_opt(&columns.suffix[i]),
                    volume: columns.volume[i],
                });
                assert(pred(all[i as int]));
            } else {
                assert(!pred(all[i as int]));
            }
            i = i + 1;
        }
        assert(all.take(n as int) == all);
        out
    }

    /// The storyboard element rows of one folder held in a batch of columns: the
    /// lines whose folder is `target_folder`, in order.
    pub fn load_storyboard_elements_filtered(&self, columns: &StoryboardElementColumns, target_folder: &str) -> (r: Vec<StoryboardElementRow>)
        requires
            element_columns_len(*columns, columns.folder_id@.len()),
        ensures
            r@.len() == lines_of_folder(columns.folder_id@, target_folder@).len(),
            forall|k: int| 0 <= k < r@.len() ==> element_row_at(#[trigger] r@[k], *columns, lines_of_folder(columns.folder_id@, target_folder@)[k]),
    {
        let n = columns.folder_id.len();
        let ghost all = Seq::new(n as nat, |i: int| i);
        let ghost pred = holds_folder(columns.folder_id@, target_folder@);
        let mut out: Vec<StoryboardElementRow> = Vec::new();
        let mut i: usize = 0;
        while i < n
            invariant
                0 <= i <= n == columns.folder_id@.len(),
                element_columns_len(*columns, n as nat),
                all == Seq::new(n as nat, |i: int| i),
                pred == holds_folder(columns.folder_id@, target_folder@),
                out@.len() == all.take(i as int).filter(pred).len(),
                forall|k: int| 0 <= k < out@.len() ==> element_row_at(#[trigger] out@[k], *columns, all.take(i as int).filter(pred)[k]),
            decreases n - i,
        {
            proof {
                crate::text::lemma_filter_take_step(all, pred, i as int);
            }
            if str_eq(columns.folder_id[i].as_str(), target_folder) {
                out.push(StoryboardElementRow {
                    folder_id: columns.folder_id[i].clone(),
                    source_file: columns.source_file[i].clone(),
                    element_index: columns.element_index[i],
                    layer_name: columns.layer_name[i].clone(),
                    element_path: columns.element_path[i].clone(),
                    element_type: columns.element_type[i].clone(),
                    origin: columns.origin[i].clone(),
                    initial_pos_x: columns.initial_pos_x[i],
                    initial_pos_y: columns.initial_pos_y[i],
                    frame_count: columns.frame_count[i],
                    frame_delay: columns.frame_delay[i],
                    loop_type: clone_opt(&columns.loop_type[i]),
                    is_embedded: columns.is_embedded[i],
                });
                assert(pred(all[i as int]));
            } else {
                assert(!pred(all[i as int]));
            }
            i = i + 1;
        }
        assert(all.take(n as int) == all);
        out
    }

    /// The storyboard command rows of one folder held in a batch of columns: the
    /// lines whose folder is `target_folder`, in order.
    pub fn load_storyboard_commands_filtered(&self, columns: &StoryboardCommandColumns, target_folder: &str) -> (r: Vec<StoryboardCommandRow>)
        requires
            command_columns_len(*columns, columns.folder_id@.len()),
        ensures
            r@.len() == lines_of_folder(columns.folder_id@, target_folder@).len(),
            forall|k: int| 0 <= k < r@.len() ==> command_row_at(#[trigger] r@[k], *columns, lines_of_folder(columns.folder_id@, target_folder@)[k]),
    {
        let n = columns.folder_id.len();
        let ghost all = Seq::new(n as nat, |i: int| i);
        let ghost pred = holds_folder(columns.folder_id@, target_folder@);
        let mut out: Vec<StoryboardCommandRow> = Vec::new();
        let mut i: usize = 0;
        while i < n
            invariant
                0 <= i <= n == columns.folder_id@.len(),
                command_columns_len(*columns, n as nat),
                all == Seq::new(n as nat, |i: int| i),
                pred == holds_folder(columns.folder_id@, target_folder@),
                out@.len() == all.take(i as int).filter(pred).len(),
                forall|k: int| 0 <= k < out@.len() ==> command_row_at(#[trigger] out@[k], *columns, all.take(i as int).filter(pred)[k]),
            decreases n - i,
        {
            proof {
                crate::text::lemma_filter_take_step(all, pred, i as int);
            }
            if str_eq(columns.folder_id[i].as_str(), target_folder) {
                out.push(StoryboardCommandRow {
                    folder_id: columns.folder_id[i].clone(),
                    source_file: columns.source_file[i].clone(),
                    element_index: columns.element_index[i],
                    command_type: columns.command_type[i].clone(),
                    start_time: columns.start_time[i],
                    end_time: columns.end_time[i],
                    start_value: columns.start_value[i].clone(),
                    end_value: columns.end_value[i].clone(),
                    easing: columns.easing[i],
                    is_embedded: columns.is_embedded[i],
                });
                assert(pred(all[i as int]));
            } else {
                assert(!pred(all[i as int]));
            }
            i = i + 1;
        }
        assert(all.take(n as int) == all);
        out
    }

    /// The storyboard loop rows of one folder held in a batch of columns: the
    /// lines whose folder is `target_folder`, in order.
    pub fn load_storyboard_loops_filtered(&self, columns: &StoryboardLoopColumns, target_folder: &str) -> (r: Vec<StoryboardLoopRow>)
        requires
            loop_columns_len(*columns, columns.folder_id@.len()),
        ensures
            r@.len() == lines_of_folder(columns.folder_id@, target_folder@).len(),
            forall|k: int| 0 <= k < r@.len() ==> loop_row_at(#[trigger] r@[k], *columns, lines_of_folder(columns.folder_id@, target_folder@)[k]),
    {
        let n = columns.folder_id.len();
        let ghost all = Seq::new(n as nat, |i: int| i);
        let ghost pred = holds_folder(columns.folder_id@, target_folder@);
        let mut out: Vec<StoryboardLoopRow> = Vec::new();
        let mut i: usize = 0;
        while i < n
            invariant
                0 <= i <= n == columns.folder_id@.len(),
                loop_columns_len(*columns, n as nat),
                all == Seq::new(n as nat, |i: int| i),
                pred == holds_folder(columns.folder_id@, target_folder@),
                out@.len() == all.take(i as int).filter(pred).len(),
                forall|k: int| 0 <= k < out@.len() ==> loop_row_at(#[trigger] out@[k], *columns, all.take(i as int).filter(pred)[k]),
            decreases n - i,
        {
            proof {
                crate::text::lemma_filter_take_step(all, pred, i as int);
            }
            if str_eq(columns.folder_id[i].as_str(), target_folder) {
                out.push(StoryboardLoopRow {
                    folder_id: columns.folder_id[i].clone(),
                    source_file: columns.source_file[i].clone(),
                    element_index: columns.element_index[i],
                    loop_index: columns.loop_index[i],
                    loop_start_time: columns.loop_start_time[i],
                    loop_count: columns.loop_count[i],
                    is_embedded: columns.is_embedded[i],
                });
                assert(pred(all[i as int]));
            } else {
                assert(!pred(all[i as int]));
            }
            i = i + 1;
        }
        assert(all.take(n as int) == all);
        out
    }

    /// The storyboard trigger rows of one folder held in a batch of columns: the
    /// lines whose folder is `target_folder`, in order.
    pub fn load_storyboard_triggers_filtered(&self, columns: &StoryboardTriggerColumns, target_folder: &str) -> (r: Vec<StoryboardTriggerRow>)
        requires
            trigger_columns_len(*columns, columns.folder_id@.len()),
        ensures
            r@.len() == lines_of_folder(columns.folder_id@, target_folder@).len(),
            forall|k: int| 0 <= k < r@.len() ==> trigger_row_at(#[trigger] r@[k], *columns, lines_of_folder(columns.folder_id@, target_folder@)[k]),
    {
        let n = columns.folder_id.len();
        let ghost all = Seq::new(n as nat, |i: int| i);
        let ghost pred = holds_folder(columns.folder_id@, target_folder@);
        let mut out: Vec<StoryboardTriggerRow> = Vec::new();
        let mut i: usize = 0;
        while i < n
            invariant
                0 <= i <= n == columns.folder_id@.len(),
                trigger_columns_len(*columns, n as nat),
                all == Seq::new(n as nat, |i: int| i),
                pred == holds_folder(columns.folder_id@, target_folder@),
                out@.len() == all.take(i as int).filter(pred).len(),
                forall|k: int| 0 <= k < out@.len() ==> trigger_row_at(#[trigger] out@[k], *columns, all.take(i as int).filter(pred)[k]),
            decreases n - i,
        {
            proof {
                crate::text::lemma_filter_take_step(all, pred, i as int);
            }
            if str_eq(columns.folder_id[i].as_str(), target_folder) {
                out.push(StoryboardTriggerRow {
                    folder_id: columns.folder_id[i].clone(),
                    source_file: columns.source_file[i].clone(),
                    element_index: columns.element_index[i],
                    trigger_index: columns.trigger_index[i],
                    trigger_name: columns.trigger_name[i].clone(),
                    trigger_start_time: columns.trigger_start_time[i],
                    trigger_end_time: columns.trigger_end_time[i],
                    group_number: columns.group_number[i],
                    is_embedded: columns.is_embedded[i],
                });
                assert(pred(all[i as int]));
            } else {
                assert(!pred(all[i as int]));
            }
            i = i + 1;
        }
        assert(all.take(n as int) == all);
        out
    }
}


/// The lines of a folder are lines of the batch whose folder column holds
/// the folder, and every such line is among them.
pub proof fn lemma_lines_of_folder(folder: Seq<String>, target: Seq<char>)
    ensures
        forall|k: int| 0 <= k < lines_of_folder(folder, target).len() ==> {
            &&& 0 <= #[trigger] lines_of_folder(folder, target)[k] < folder.len()
            &&& folder[lines_of_folder(folder, target)[k]]@ == target
        },
        forall|i: int| 0 <= i < folder.len() && folder[i]@ == target ==> #[trigger] lines_of_folder(folder, target).contains(i),
{
    let all = Seq::new(folder.len(), |i: int| i);
    let pred = holds_folder(folder, target);
    let ls = all.filter(pred);
    assert forall|k: int| 0 <= k < ls.len() implies 0 <= #[trigger] ls[k] < folder.len() && folder[ls[k]]@ == target by {
        all.lemma_filter_pred(pred, k);
        assert(ls.contains(ls[k]));
        all.lemma_filter_contains_rev(pred, ls[k]);
    }
    assert forall|i: int| 0 <= i < folder.len() && folder[i]@ == target implies #[trigger] ls.contains(i) by {
        assert(all[i] == i);
        all.lemma_filter_contains(pred, i);
    }
}

/// Each combo colour row loaded for a folder holds, column by column, the
/// values of its line, and that line belongs to the folder.
pub proof fn lemma_combo_rows_hold_their_lines(c: ComboColorColumns, target: Seq<char>, r: Seq<ComboColorRow>)
    requires
        r.len() == lines_of_folder(c.folder_id@, target).len(),
        forall|k: int| 0 <= k < r.len() ==> combo_row_at(#[trigger] r[k], c, lines_of_folder(c.folder_id@, target)[k]),
    ensures
        forall|k: int| 0 <= k < r.len() ==> {
            let i = lines_of_folder(c.folder_id@, target)[k];
            &&& (#[trigger] r[k]).folder_id@ == target
            &&& r[k].osu_file == c.osu_file@[i]
            &&& r[k].color_index == c.color_index@[i]
            &&& r[k].color_type == c.color_type@[i]
            &&& r[k].custom_name == c.custom_name@[i]
            &&& r[k].red == c.red@[i]
            &&& r[k].green == c.green@[i]
            &&& r[k].blue == c.blue@[i]
        },
{
    lemma_lines_of_folder(c.folder_id@, target);
    assert forall|k: int| 0 <= k < r.len() implies (#[trigger] r[k]).folder_id@ == target by {
        assert(combo_row_at(r[k], c, lines_of_folder(c.folder_id@, target)[k]));
    }
}

/// Each hit sample row loaded for a folder holds, column by column, the
/// values of its line, and that line belongs to the folder.
pub proof fn lemma_sample_rows_hold_their_lines(c: HitSampleColumns, target: Seq<char>, r: Seq<HitSampleRow>)
    requires
        r.len() == lines_of_folder(c.folder_id@, target).len(),
        forall|k: int| 0 <= k < r.len() ==> sample_row_at(#[trigger] r[k], c, lines_of_folder(c.folder_id@, target)[k]),
    ensures
        forall|k: int| 0 <= k < r.len() ==> {
            let i = lines_of_folder(c.folder_id@, target)[k];
            &&& (#[trigger] r[k]).folder_id@ == target
            &&& r[k].osu_file == c.osu_file@[i]
            &&& r[k].hit_object_index == c.hit_object_index@[i]
            &&& r[k].sample_index == c.sample_index@[i]
            &&& r[k].name == c.name@[i]
            &&& r[k].bank == c.bank@[i]
            &&& r[k].suffix == c.suffix@[i]
            &&& r[k].volume == c.volume@[i]
        },
{
    lemma_lines_of_folder(c.folder_id@, target);
    assert forall|k: int| 0 <= k < r.len() implies (#[trigger] r[k]).folder_id@ == target by {
        assert(sample_row_at(r[k], c, lines_of_folder(c.folder_id@, target)[k]));
    }
}

/// Each storyboard element row loaded for a folder holds, column by column,
/// the values of its line, and that line belongs to the folder.
pub proof fn lemma_element_rows_hold_their_lines(c: StoryboardElementColumns, target: Seq<char>, r: Seq<StoryboardElementRow>)
    requires
        r.len() == lines_of_folder(c.folder_id@, target).len(),
        forall|k: int| 0 <= k < r.len() ==> element_row_at(#[trigger] r[k], c, lines_of_folder(c.folder_id@, target)[k]),
    ensures
        forall|k: int| 0 <= k < r.len() ==> {
            let i = lines_of_folder(c.folder_id@, target)[k];
            &&& (#[trigger] r[k]).folder_id@ == target
            &&& r[k].source_file == c.source_file@[i]
            &&& r[k].element_index == c.element_index@[i]
            &&& r[k].layer_name == c.layer_name@[i]
            &&& r[k].element_path == c.element_path@[i]
            &&& r[k].element_type == c.element_type@[i]
            &&& r[k].origin == c.origin@[i]
            &&& r[k].initial_pos_x == c.initial_pos_x@[i]
            &&& r[k].initial_pos_y == c.initial_pos_y@[i]
            &&& r[k].frame_count == c.frame_count@[i]
            &&& r[k].frame_delay == c.frame_delay@[i]
            &&& r[k].loop_type == c.loop_type@[i]
            &&& r[k].is_embedded == c.is_embedded@[i]
        },
{
    lemma_lines_of_folder(c.folder_id@, target);
    assert forall|k: int| 0 <= k < r.len() implies (#[trigger] r[k]).folder_id@ == target by {
        assert(element_row_at(r[k], c, lines_of_folder(c.folder_id@, target)[k]));
    }
}

/// Each storyboard command row loaded for a folder holds, column by column,
/// the values of its line, and that line belongs to the folder.
pub proof fn lemma_command_rows_hold_their_lines(c: StoryboardCommandColumns, target: Seq<char>, r: Seq<StoryboardCommandRow>)
    requires
        r.len() == lines_of_folder(c.folder_id@, target).len(),
        forall|k: int| 0 <= k < r.len() ==> command_row_at(#[trigger] r[k], c, lines_of_folder(c.folder_id@, target)[k]),
    ensures
        forall|k: int| 0 <= k < r.len() ==> {
            let i = lines_of_folder(c.folder_id@, target)[k];
            &&& (#[trigger] r[k]).folder_id@ == target
            &&& r[k].source_file == c.source_file@[i]
            &&& r[k].element_index == c.element_index@[i]
            &&& r[k].command_type == c.command_type@[i]
            &&& r[k].start_time == c.start_time@[i]
            &&& r[k].end_time == c.end_time@[i]
            &&& r[k].start_value == c.start_value@[i]
            &&& r[k].end_value == c.end_value@[i]
            &&& r[k].easing == c.easing@[i]
            &&& r[k].is_embedded == c.is_embedded@[i]
        },
{
    lemma_lines_of_folder(c.folder_id@, target);
    assert forall|k: int| 0 <= k < r.len() implies (#[trigger] r[k]).folder_id@ == target by {
        assert(command_row_at(r[k], c, lines_of_folder(c.folder_id@, target)[k]));
    }
}

/// Each storyboard loop row loaded for a folder holds, column by column,
/// the values of its line, and that line belongs to the folder.
pub proof fn lemma_loop_rows_hold_their_lines(c: StoryboardLoopColumns, target: Seq<char>, r: Seq<StoryboardLoopRow>)
    requires
        r.len() == lines_of_folder(c.folder_id@, target).len(),
        forall|k: int| 0 <= k < r.len() ==> loop_row_at(#[trigger] r[k], c, lines_of_folder(c.folder_id@, target)[k]),
    ensures
        forall|k: int| 0 <= k < r.len() ==> {
            let i = lines_of_folder(c.folder_id@, target)[k];
            &&& (#[trigger] r[k]).folder_id@ == target
            &&& r[k].source_file == c.source_file@[i]
            &&& r[k].element_index == c.element_index@[i]
            &&& r[k].loop_index == c.loop_index@[i]
            &&& r[k].loop_start_time == c.loop_start_time@[i]
            &&& r[k].loop_count == c.loop_count@[i]
            &&& r[k].is_embedded == c.is_embedded@[i]
        },
{
    lemma_lines_of_folder(c.folder_id@, target);
    assert forall|k: int| 0 <= k < r.len() implies (#[trigger] r[k]).folder_id@ == target by {
        assert(loop_row_at(r[k], c, lines_of_folder(c.folder_id@, target)[k]));
    }
}

/// Each storyboard trigger row loaded for a folder holds, column by column,
/// the values of its line, and that line belongs to the folder.
pub proof fn lemma_trigger_rows_hold_their_lines(c: StoryboardTriggerColumns, target: Seq<char>, r: Seq<StoryboardTriggerRow>)
    requires
        r.len() == lines_of_folder(c.folder_id@, target).len(),
        forall|k: int| 0 <= k < r.len() ==> trigger_row_at(#[trigger] r[k], c, lines_of_folder(c.folder_id@, target)[k]),
    ensures
        forall|k: int| 0 <= k < r.len() ==> {
            let i = lines_of_folder(c.folder_id@, target)[k];
            &&& (#[trigger] r[k]).folder_id@ == target
            &&& r[k].source_file == c.source_file@[i]
            &&& r[k].element_index == c.element_index@[i]
            &&& r[k].trigger_index == c.trigger_index@[i]
            &&& r[k].trigger_name == c.trigger_name@[i]
            &&& r[k].trigger_start_time == c.trigger_start_time@[i]
            &&& r[k].trigger_end_time == c.trigger_end_time@[i]
            &&& r[k].group_number == c.group_number@[i]
            &&& r[k].is_embedded == c.is_embedded@[i]
        },
{
    lemma_lines_of_folder(c.folder_id@, target);
    assert forall|k: int| 0 <= k < r.len() implies (#[trigger] r[k]).folder_id@ == target by {
        assert(trigger_row_at(r[k], c, lines_of_folder(c.folder_id@, target)[k]));
    }
}

} // verus!
