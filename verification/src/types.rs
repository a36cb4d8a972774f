//! Rows of the dataset tables that the verified reconstruction reads.

use vstd::prelude::*;

verus! {

/// A row of the combo colours table: a combo colour (`color_type` `combo`)
/// or a named custom colour (`color_type` `custom`) of one beatmap file.
#[derive(Debug, PartialEq)]
pub struct ComboColorRow {
    pub folder_id: String,
    pub osu_file: String,
    pub color_index: i32,
    pub color_type: String,
    pub custom_name: Option<String>,
    pub red: i32,
    pub green: i32,
    pub blue: i32,
}

/// A row of the hit samples table: one sample of one hit object.
#[derive(Debug, PartialEq)]
pub struct HitSampleRow {
    pub folder_id: String,
    pub osu_file: String,
    pub hit_object_index: i32,
    pub sample_index: i32,
    pub name: String,
    pub bank: String,
    pub suffix: Option<String>,
    pub volume: i32,
}

} // verus!
