//! Storyboard reconstruction: grouping the storyboard tables of the dataset
//! back into elements and writing them out in the `.osb` script format.
//!
//! Times, positions and frame delays are held as the whole numbers,
//! truncated toward zero, that the script format writes for them.

use vstd::prelude::*;
use crate::sorted::{sort_dedup, strictly_sorted, texts};
use crate::text::{
    comma_joined, lemma_split_comma_joined, no_comma, split_commas,
    chars_eq_str, contains, contains_str, int_decimal, lemma_filter_take_step, push_chars,
    push_decimal_i32, push_str, str_chars, str_eq, string_from_chars,
};

verus! {

/// A row of the storyboard elements table.
#[derive(Debug, PartialEq)]
pub struct StoryboardElementRow {
    pub folder_id: String,
    pub source_file: String,
    pub element_index: i32,
    pub layer_name: String,
    pub element_path: String,
    pub element_type: String,
    pub origin: String,
    pub initial_pos_x: i32,
    pub initial_pos_y: i32,
    pub frame_count: Option<i32>,
    pub frame_delay: Option<i32>,
    pub loop_type: Option<String>,
    pub is_embedded: bool,
}

/// A row of the storyboard commands table.
#[derive(Debug, PartialEq)]
pub struct StoryboardCommandRow {
    pub folder_id: String,
    pub source_file: String,
    pub element_index: i32,
    pub command_type: String,
    pub start_time: i32,
    pub end_time: i32,
    pub start_value: String,
    pub end_value: String,
    pub easing: i32,
    pub is_embedded: bool,
}

/// A row of the storyboard loops table.
#[derive(Debug, PartialEq)]
pub struct StoryboardLoopRow {
    pub folder_id: String,
    pub source_file: String,
    pub element_index: i32,
    pub loop_index: i32,
    pub loop_start_time: i32,
    pub loop_count: i32,
    pub is_embedded: bool,
}

/// A row of the storyboard triggers table.
#[derive(Debug, PartialEq)]
pub struct StoryboardTriggerRow {
    pub folder_id: String,
    pub source_file: String,
    pub element_index: i32,
    pub trigger_index: i32,
    pub trigger_name: String,
    pub trigger_start_time: i32,
    pub trigger_end_time: i32,
    pub group_number: i32,
    pub is_embedded: bool,
}

/// A storyboard command of a reconstructed element.
#[derive(Debug, PartialEq)]
pub struct ReconstructedCommand {
    pub command_type: String,
    pub easing: i32,
    pub start_time: i32,
    pub end_time: i32,
    pub start_value: String,
    pub end_value: String,
}

/// A command loop of a reconstructed element.
#[derive(Debug, PartialEq)]
pub struct ReconstructedLoop {
    pub loop_start_time: i32,
    pub loop_count: i32,
}

/// A trigger of a reconstructed element.
#[derive(Debug, PartialEq)]
pub struct ReconstructedTrigger {
    pub trigger_name: String,
    pub trigger_start_time: i32,
    pub trigger_end_time: i32,
    pub group_number: i32,
}

/// A storyboard element together with its commands, loops and triggers.
#[derive(Debug, PartialEq)]
pub struct ReconstructedElement {
    pub layer_name: String,
    pub element_path: String,
    pub element_type: String,
    pub origin: String,
    pub initial_pos_x: i32,
    pub initial_pos_y: i32,
    pub frame_count: Option<i32>,
    pub frame_delay: Option<i32>,
    pub loop_type: Option<String>,
    pub is_embedded: bool,
    pub commands: Vec<ReconstructedCommand>,
    pub loops: Vec<ReconstructedLoop>,
    pub triggers: Vec<ReconstructedTrigger>,
}

/// Groups storyboard rows back into elements.
pub struct StoryboardReconstructor;

/// The element row belongs to the given folder and source file.
pub open spec fn element_in_file(e: StoryboardElementRow, folder: Seq<char>, source: Seq<char>) -> bool {
    e.folder_id@ == folder && e.source_file@ == source
}

/// The command row belongs to element `index` of the given folder and file.
pub open spec fn command_of_element(c: StoryboardCommandRow, folder: Seq<char>, source: Seq<char>, index: i32) -> bool {
    c.folder_id@ == folder && c.source_file@ == source && c.element_index == index
}

/// The loop row belongs to element `index` of the given folder and file.
pub open spec fn loop_of_element(l: StoryboardLoopRow, folder: Seq<char>, source: Seq<char>, index: i32) -> bool {
    l.folder_id@ == folder && l.source_file@ == source && l.element_index == index
}

/// The trigger row belongs to element `index` of the given folder and file.
pub open spec fn trigger_of_element(t: StoryboardTriggerRow, folder: Seq<char>, source: Seq<char>, index: i32) -> bool {
    t.folder_id@ == folder && t.source_file@ == source && t.element_index == index
}

/// The command that a command row stands for.
pub open spec fn command_from_row(c: StoryboardCommandRow) -> ReconstructedCommand {
    ReconstructedCommand {
        command_type: c.command_type,
        easing: c.easing,
        start_time: c.start_time,
        end_time: c.end_time,
        start_value: c.start_value,
        end_value: c.end_value,
    }
}

/// The loop that a loop row stands for.
pub open spec fn loop_from_row(l: StoryboardLoopRow) -> ReconstructedLoop {
    ReconstructedLoop { loop_start_time: l.loop_start_time, loop_count: l.loop_count }
}

/// The trigger that a trigger row stands for.
pub open spec fn trigger_from_row(t: StoryboardTriggerRow) -> ReconstructedTrigger {
    ReconstructedTrigger {
        trigger_name: t.trigger_name,
        trigger_start_time: t.trigger_start_time,
        trigger_end_time: t.trigger_end_time,
        group_number: t.group_number,
    }
}

/// Selects the command rows of element `index`.
pub open spec fn command_selector(folder: Seq<char>, source: Seq<char>, index: i32) -> spec_fn(StoryboardCommandRow) -> bool {
    |c: StoryboardCommandRow| command_of_element(c, folder, source, index)
}

/// Selects the loop rows of element `index`.
pub open spec fn loop_selector(folder: Seq<char>, source: Seq<char>, index: i32) -> spec_fn(StoryboardLoopRow) -> bool {
    |l: StoryboardLoopRow| loop_of_element(l, folder, source, index)
}

/// Selects the trigger rows of element `index`.
pub open spec fn trigger_selector(folder: Seq<char>, source: Seq<char>, index: i32) -> spec_fn(StoryboardTriggerRow) -> bool {
    |t: StoryboardTriggerRow| trigger_of_element(t, folder, source, index)
}

/// The commands of element `index`, in table order.
pub open spec fn element_commands(rows: Seq<StoryboardCommandRow>, folder: Seq<char>, source: Seq<char>, index: i32) -> Seq<ReconstructedCommand> {
    rows.filter(command_selector(folder, source, index)).map_values(
        |c: StoryboardCommandRow| command_from_row(c),
    )
}

/// The loops of element `index`, in table order.
pub open spec fn element_loops(rows: Seq<StoryboardLoopRow>, folder: Seq<char>, source: Seq<char>, index: i32) -> Seq<ReconstructedLoop> {
    rows.filter(loop_selector(folder, source, index)).map_values(
        |l: StoryboardLoopRow| loop_from_row(l),
    )
}

/// The triggers of element `index`, in table order.
pub open spec fn element_triggers(rows: Seq<StoryboardTriggerRow>, folder: Seq<char>, source: Seq<char>, index: i32) -> Seq<ReconstructedTrigger> {
    rows.filter(trigger_selector(folder, source, index)).map_values(
        |t: StoryboardTriggerRow| trigger_from_row(t),
    )
}

/// `out` is the reconstruction of element row `e` from the given tables.
pub open spec fn reconstructed_from(
    out: ReconstructedElement,
    e: StoryboardElementRow,
    commands: Seq<StoryboardCommandRow>,
    loops: Seq<StoryboardLoopRow>,
    triggers: Seq<StoryboardTriggerRow>,
    folder: Seq<char>,
    source: Seq<char>,
) -> bool {
    &&& out.layer_name == e.layer_name
    &&& out.element_path == e.element_path
    &&& out.element_type == e.element_type
    &&& out.origin == e.origin
    &&& out.initial_pos_x == e.initial_pos_x
    &&& out.initial_pos_y == e.initial_pos_y
    &&& out.frame_count == e.frame_count
    &&& out.frame_delay == e.frame_delay
    &&& out.loop_type == e.loop_type
    &&& out.is_embedded == e.is_embedded
    &&& out.commands@ == element_commands(commands, folder, source, e.element_index)
    &&& out.loops@ == element_loops(loops, folder, source, e.element_index)
    &&& out.triggers@ == element_triggers(triggers, folder, source, e.element_index)
}

fn clone_opt_string(s: &Option<String>) -> (r: Option<String>)
    ensures
        r == *s,
{
    match s {
        Some(v) => Some(v.clone()),
        None => None,
    }
}

fn collect_commands(folder: &str, source: &str, index: i32, rows: &[StoryboardCommandRow]) -> (r: Vec<ReconstructedCommand>)
    ensures
        r@ == element_commands(rows@, folder@, source@, index),
{
    let ghost pred = command_selector(folder@, source@, index);
    let ghost f = |c: StoryboardCommandRow| command_from_row(c);
    let mut out: Vec<ReconstructedCommand> = Vec::new();
    let mut i: usize = 0;
    while i < rows.len()
        invariant
            0 <= i <= rows@.len(),
            pred == command_selector(folder@, source@, index),
            f == (|c: StoryboardCommandRow| command_from_row(c)),
            out@ == rows@.take(i as int).filter(pred).map_values(f),
        decreases rows@.len() - i,
    {
        let c = &rows[i];
        proof {
            lemma_filter_take_step(rows@, pred, i as int);
        }
        if c.element_index == index && str_eq(c.folder_id.as_str(), folder) && str_eq(
            c.source_file.as_str(),
            source,
        ) {
            out.push(
                ReconstructedCommand {
                    command_type: c.command_type.clone(),
                    easing: c.easing,
                    start_time: c.start_time,
                    end_time: c.end_time,
                    start_value: c.start_value.clone(),
                    end_value: c.end_value.clone(),
                },
            );
            assert(pred(rows@[i as int]));
            assert(rows@.take(i + 1).filter(pred).map_values(f) =~= rows@.take(i as int).filter(
                pred,
            ).map_values(f).push(f(rows@[i as int])));
        } else {
            assert(!pred(rows@[i as int]));
        }
        i = i + 1;
    }
    assert(rows@.take(rows@.len() as int) == rows@);
    out
}

fn collect_loops(folder: &str, source: &str, index: i32, rows: &[StoryboardLoopRow]) -> (r: Vec<ReconstructedLoop>)
    ensures
        r@ == element_loops(rows@, folder@, source@, index),
{
    let ghost pred = loop_selector(folder@, source@, index);
    let ghost f = |l: StoryboardLoopRow| loop_from_row(l);
    let mut out: Vec<ReconstructedLoop> = Vec::new();
    let mut i: usize = 0;
    while i < rows.len()
        invariant
            0 <= i <= rows@.len(),
            pred == loop_selector(folder@, source@, index),
            f == (|l: StoryboardLoopRow| loop_from_row(l)),
            out@ == rows@.take(i as int).filter(pred).map_values(f),
        decreases rows@.len() - i,
    {
        let l = &rows[i];
        proof {
            lemma_filter_take_step(rows@, pred, i as int);
        }
        if l.element_index == index && str_eq(l.folder_id.as_str(), folder) && str_eq(
            l.source_file.as_str(),
            source,
        ) {
            out.push(ReconstructedLoop { loop_start_time: l.loop_start_time, loop_count: l.loop_count });
            assert(pred(rows@[i as int]));
            assert(rows@.take(i + 1).filter(pred).map_values(f) =~= rows@.take(i as int).filter(
                pred,
            ).map_values(f).push(f(rows@[i as int])));
        } else {
            assert(!pred(rows@[i as int]));
        }
        i = i + 1;
    }
    assert(rows@.take(rows@.len() as int) == rows@);
    out
}

fn collect_triggers(folder: &str, source: &str, index: i32, rows: &[StoryboardTriggerRow]) -> (r: Vec<ReconstructedTrigger>)
    ensures
        r@ == element_triggers(rows@, folder@, source@, index),
{
    let ghost pred = trigger_selector(folder@, source@, index);
    let ghost f = |t: StoryboardTriggerRow| trigger_from_row(t);
    let mut out: Vec<ReconstructedTrigger> = Vec::new();
    let mut i: usize = 0;
    while i < rows.len()
        invariant
            0 <= i <= rows@.len(),
            pred == trigger_selector(folder@, source@, index),
            f == (|t: StoryboardTriggerRow| trigger_from_row(t)),
            out@ == rows@.take(i as int).filter(pred).map_values(f),
        decreases rows@.len() - i,
    {
        let t = &rows[i];
        proof {
            lemma_filter_take_step(rows@, pred, i as int);
        }
        if t.element_index == index && str_eq(t.folder_id.as_str(), folder) && str_eq(
            t.source_file.as_str(),
            source,
        ) {
            out.push(
                ReconstructedTrigger {
                    trigger_name: t.trigger_name.clone(),
                    trigger_start_time: t.trigger_start_time,
                    trigger_end_time: t.trigger_end_time,
                    group_number: t.group_number,
                },
            );
            assert(pred(rows@[i as int]));
            assert(rows@.take(i + 1).filter(pred).map_values(f) =~= rows@.take(i as int).filter(
                pred,
            ).map_values(f).push(f(rows@[i as int])));
        } else {
            assert(!pred(rows@[i as int]));
        }
        i = i + 1;
    }
    assert(rows@.take(rows@.len() as int) == rows@);
    out
}

/// The element row is taken when reconstructing `source` of `folder`,
/// keeping only embedded rows when `embedded_only` is set.
pub open spec fn element_selected(e: StoryboardElementRow, folder: Seq<char>, source: Seq<char>, embedded_only: bool) -> bool {
    element_in_file(e, folder, source) && (embedded_only ==> e.is_embedded)
}

/// The embedded element rows of one file of one folder, in table order.
pub open spec fn embedded_elements(rows: Seq<StoryboardElementRow>, folder: Seq<char>, source: Seq<char>) -> Seq<StoryboardElementRow> {
    rows.filter(element_selector(folder, source, true))
}

/// The element rows of one file of one folder, in table order.
pub open spec fn file_elements(rows: Seq<StoryboardElementRow>, folder: Seq<char>, source: Seq<char>) -> Seq<StoryboardElementRow> {
    rows.filter(file_selector(folder, source))
}

/// Selects the element rows taken when reconstructing `source` of `folder`.
pub open spec fn element_selector(folder: Seq<char>, source: Seq<char>, embedded_only: bool) -> spec_fn(StoryboardElementRow) -> bool {
    |e: StoryboardElementRow| element_selected(e, folder, source, embedded_only)
}

/// Selects the element rows of one file of one folder.
pub open spec fn file_selector(folder: Seq<char>, source: Seq<char>) -> spec_fn(StoryboardElementRow) -> bool {
    |e: StoryboardElementRow| element_in_file(e, folder, source)
}

impl StoryboardReconstructor {
    /// The selected element rows, in table order, each with the commands,
    /// loops and triggers of the same file and element index.
    pub(crate) fn reconstruct_selected(
        folder_id: &str,
        source_file: &str,
        embedded_only: bool,
        element_rows: &[StoryboardElementRow],
        command_rows: &[StoryboardCommandRow],
        loop_rows: &[StoryboardLoopRow],
        trigger_rows: &[StoryboardTriggerRow],
    ) -> (r: Vec<ReconstructedElement>)
        ensures
            ({
                let selected = element_rows@.filter(
                    element_selector(folder_id@, source_file@, embedded_only),
                );
                &&& r@.len() == selected.len()
                &&& forall|k: int|
                    0 <= k < r@.len() ==> reconstructed_from(
                        #[trigger] r@[k],
                        selected[k],
                        command_rows@,
                        loop_rows@,
                        trigger_rows@,
                        folder_id@,
                        source_file@,
                    )
            }),
    {
        let ghost pred = element_selector(folder_id@, source_file@, embedded_only);
        let mut out: Vec<ReconstructedElement> = Vec::new();
        let mut i: usize = 0;
        while i < element_rows.len()
            invariant
                0 <= i <= element_rows@.len(),
                pred == element_selector(folder_id@, source_file@, embedded_only),
                out@.len() == element_rows@.take(i as int).filter(pred).len(),
                forall|k: int|
                    0 <= k < out@.len() ==> reconstructed_from(
                        #[trigger] out@[k],
                        element_rows@.take(i as int).filter(pred)[k],
                        command_rows@,
                        loop_rows@,
                        trigger_rows@,
                        folder_id@,
                        source_file@,
                    ),
            decreases element_rows@.len() - i,
        {
            let e = &element_rows[i];
            proof {
                lemma_filter_take_step(element_rows@, pred, i as int);
            }
            if (e.is_embedded || !embedded_only) && str_eq(e.folder_id.as_str(), folder_id) && str_eq(e.source_file.as_str(), source_file) {
                let commands = collect_commands(folder_id, source_file, e.element_index, command_rows);
                let loops = collect_loops(folder_id, source_file, e.element_index, loop_rows);
                let triggers = collect_triggers(folder_id, source_file, e.element_index, trigger_rows);
                let elem = ReconstructedElement {
                    layer_name: e.layer_name.clone(),
                    element_path: e.element_path.clone(),
                    element_type: e.element_type.clone(),
                    origin: e.origin.clone(),
                    initial_pos_x: e.initial_pos_x,
                    initial_pos_y: e.initial_pos_y,
                    frame_count: e.frame_count,
                    frame_delay: e.frame_delay,
                    loop_type: clone_opt_string(&e.loop_type),
                    is_embedded: e.is_embedded,
                    commands,
                    loops,
                    triggers,
                };
                assert(pred(element_rows@[i as int]));
                out.push(elem);
            } else {
                assert(!pred(element_rows@[i as int]));
            }
            i = i + 1;
        }
        assert(element_rows@.take(element_rows@.len() as int) == element_rows@);
        out
    }

    /// Reconstructs the storyboard elements of one file of one folder: the
    /// element rows of that file, in table order, each with the commands,
    /// loops and triggers of the same file and element index, in table order.
    pub fn reconstruct(
        folder_id: &str,
        source_file: &str,
        element_rows: &[StoryboardElementRow],
        command_rows: &[StoryboardCommandRow],
        loop_rows: &[StoryboardLoopRow],
        trigger_rows: &[StoryboardTriggerRow],
    ) -> (r: Vec<ReconstructedElement>)
        ensures
            ({
                let matching = file_elements(element_rows@, folder_id@, source_file@);
                &&& r@.len() == matching.len()
                &&& forall|k: int|
                    0 <= k < r@.len() ==> reconstructed_from(
                        #[trigger] r@[k],
                        matching[k],
                        command_rows@,
                        loop_rows@,
                        trigger_rows@,
                        folder_id@,
                        source_file@,
                    )
            }),
    {
        let r = Self::reconstruct_selected(folder_id, source_file, false, element_rows, command_rows, loop_rows, trigger_rows);
        assert(element_selector(folder_id@, source_file@, false) =~= file_selector(folder_id@, source_file@));
        r
    }
}


/// The origin name written for an element's origin (first match wins).
pub open spec fn origin_name(o: Seq<char>) -> Seq<char> {
    if contains(o, "TopLeft"@) {
        "TopLeft"@
    } else if contains(o, "TopCentre"@) || contains(o, "TopCenter"@) {
        "TopCentre"@
    } else if contains(o, "TopRight"@) {
        "TopRight"@
    } else if contains(o, "CentreLeft"@) || contains(o, "CenterLeft"@) {
        "CentreLeft"@
    } else if contains(o, "Centre"@) || contains(o, "Center"@) {
        "Centre"@
    } else if contains(o, "CentreRight"@) || contains(o, "CenterRight"@) {
        "CentreRight"@
    } else if contains(o, "BottomLeft"@) {
        "BottomLeft"@
    } else if contains(o, "BottomCentre"@) || contains(o, "BottomCenter"@) {
        "BottomCentre"@
    } else if contains(o, "BottomRight"@) {
        "BottomRight"@
    } else {
        "Centre"@
    }
}

/// The value part of a command: one value when start and end agree,
/// otherwise both, separated by a comma.
pub open spec fn values_text(start: Seq<char>, end: Seq<char>) -> Seq<char> {
    if start == end {
        start
    } else {
        start + ","@ + end
    }
}

/// Command types written as a `P` (parameter) command.
pub open spec fn is_parameter_command(t: Seq<char>) -> bool {
    t == "blending"@ || t == "flip_h"@ || t == "flip_v"@
}

/// The parameter letter of a `P` command.
pub open spec fn parameter_letter(t: Seq<char>) -> Seq<char> {
    if t == "flip_h"@ {
        "H"@
    } else if t == "flip_v"@ {
        "V"@
    } else {
        "A"@
    }
}

/// The script code of a non-parameter command type.
pub open spec fn command_code(t: Seq<char>) -> Seq<char> {
    if t == "x"@ {
        "MX"@
    } else if t == "y"@ {
        "MY"@
    } else if t == "scale"@ {
        "S"@
    } else if t == "rotation"@ {
        "R"@
    } else if t == "alpha"@ {
        "F"@
    } else if t == "color"@ {
        "C"@
    } else if t == "vector_scale"@ {
        "V"@
    } else {
        "_"@
    }
}

/// The script line of a command (without indentation and line feed).
pub open spec fn command_line(c: ReconstructedCommand) -> Seq<char> {
    if is_parameter_command(c.command_type@) {
        if c.start_time == c.end_time {
            "P,"@ + int_decimal(c.easing as int) + ","@ + int_decimal(c.start_time as int) + ","@
                + ""@ + ","@ + parameter_letter(c.command_type@)
        } else {
            "P,"@ + int_decimal(c.easing as int) + ","@ + int_decimal(c.start_time as int) + ","@
                + int_decimal(c.end_time as int) + ","@ + parameter_letter(c.command_type@)
        }
    } else {
        command_code(c.command_type@) + ","@ + int_decimal(c.easing as int) + ","@ + int_decimal(
            c.start_time as int,
        ) + ","@ + int_decimal(c.end_time as int) + ","@ + values_text(
            c.start_value@,
            c.end_value@,
        )
    }
}

/// The indented command lines of an element.
pub open spec fn commands_text(cs: Seq<ReconstructedCommand>) -> Seq<char>
    decreases cs.len(),
{
    if cs.len() == 0 {
        Seq::empty()
    } else {
        commands_text(cs.drop_last()) + " "@ + command_line(cs.last()) + "\n"@
    }
}

/// The indented loop lines of an element.
pub open spec fn loops_text(ls: Seq<ReconstructedLoop>) -> Seq<char>
    decreases ls.len(),
{
    if ls.len() == 0 {
        Seq::empty()
    } else {
        loops_text(ls.drop_last()) + " L,"@ + int_decimal(ls.last().loop_start_time as int) + ","@
            + int_decimal(ls.last().loop_count as int) + "\n"@
    }
}

/// The indented trigger lines of an element.
pub open spec fn triggers_text(ts: Seq<ReconstructedTrigger>) -> Seq<char>
    decreases ts.len(),
{
    if ts.len() == 0 {
        Seq::empty()
    } else {
        triggers_text(ts.drop_last()) + " T,"@ + ts.last().trigger_name@ + ","@ + int_decimal(
            ts.last().trigger_start_time as int,
        ) + ","@ + int_decimal(ts.last().trigger_end_time as int) + ","@ + int_decimal(
            ts.last().group_number as int,
        ) + "\n"@
    }
}

/// The loop type written for an animation.
pub open spec fn loop_type_text(l: Option<String>) -> Seq<char> {
    match l {
        Some(s) => s@,
        None => "LoopForever"@,
    }
}

/// The declaration line of a sprite or animation element on `layer`.
pub open spec fn element_header(e: ReconstructedElement, layer: Seq<char>) -> Seq<char> {
    if e.element_type@ == "sprite"@ {
        "Sprite,"@ + layer + ","@ + origin_name(e.origin@) + ",\""@ + e.element_path@ + "\","@
            + int_decimal(e.initial_pos_x as int) + ","@ + int_decimal(e.initial_pos_y as int)
            + "\n"@
    } else {
        "Animation,"@ + layer + ","@ + origin_name(e.origin@) + ",\""@ + e.element_path@ + "\","@
            + int_decimal(e.initial_pos_x as int) + ","@ + int_decimal(e.initial_pos_y as int)
            + ","@ + int_decimal(
            match e.frame_count {
                Some(n) => n as int,
                None => 1,
            },
        ) + ","@ + int_decimal(
            match e.frame_delay {
                Some(n) => n as int,
                None => 100,
            },
        ) + ","@ + loop_type_text(e.loop_type) + "\n"@
    }
}

/// The script text of one element on `layer`: sprites and animations are
/// written with their commands, loops and triggers; other kinds are skipped.
pub open spec fn element_text(e: ReconstructedElement, layer: Seq<char>) -> Seq<char> {
    if e.element_type@ == "sprite"@ || e.element_type@ == "animation"@ {
        element_header(e, layer) + commands_text(e.commands@) + loops_text(e.loops@)
            + triggers_text(e.triggers@)
    } else {
        Seq::empty()
    }
}

/// The script text of the elements on `layer`, in order.
pub open spec fn layer_text(es: Seq<ReconstructedElement>, layer: Seq<char>) -> Seq<char>
    decreases es.len(),
{
    if es.len() == 0 {
        Seq::empty()
    } else {
        layer_text(es.drop_last(), layer) + (if es.last().layer_name@ == layer {
            element_text(es.last(), layer)
        } else {
            Seq::empty()
        })
    }
}

/// Some element lies on the overlay layer.
pub open spec fn has_overlay(es: Seq<ReconstructedElement>) -> bool {
    exists|i: int| 0 <= i < es.len() && es[i].layer_name@ == "Overlay"@
}

/// The `.osb` script of a list of elements: the `[Events]` header, then the
/// background, fail, pass and foreground layers, then the overlay layer when
/// some element lies on it.
pub open spec fn osb_text(es: Seq<ReconstructedElement>) -> Seq<char> {
    "[Events]\n"@ + "//Background and Video events\n"@ + "//Storyboard Layer 0 (Background)\n"@
        + layer_text(es, "Background"@) + "//Storyboard Layer 1 (Fail)\n"@ + layer_text(es, "Fail"@)
        + "//Storyboard Layer 2 (Pass)\n"@ + layer_text(es, "Pass"@)
        + "//Storyboard Layer 3 (Foreground)\n"@ + layer_text(es, "Foreground"@) + (if has_overlay(
        es,
    ) {
        "//Storyboard Layer 4 (Overlay)\n"@ + layer_text(es, "Overlay"@)
    } else {
        Seq::empty()
    })
}

impl StoryboardReconstructor {
    /// The origin name written for an origin string: the first of the nine
    /// anchor names (British or American spelling) that it contains, in the
    /// order top-left, top-centre, top-right, centre-left, centre,
    /// centre-right, bottom-left, bottom-centre, bottom-right; `Centre` when
    /// none occurs.
    pub fn parse_origin(origin_str: &str) -> (r: &'static str)
        ensures
            r@ == origin_name(origin_str@),
    {
        let o = str_chars(origin_str);
        if contains_str(&o, "TopLeft") {
            "TopLeft"
        } else if contains_str(&o, "TopCentre") || contains_str(&o, "TopCenter") {
            "TopCentre"
        } else if contains_str(&o, "TopRight") {
            "TopRight"
        } else if contains_str(&o, "CentreLeft") || contains_str(&o, "CenterLeft") {
            "CentreLeft"
        } else if contains_str(&o, "Centre") || contains_str(&o, "Center") {
            "Centre"
        } else if contains_str(&o, "CentreRight") || contains_str(&o, "CenterRight") {
            "CentreRight"
        } else if contains_str(&o, "BottomLeft") {
            "BottomLeft"
        } else if contains_str(&o, "BottomCentre") || contains_str(&o, "BottomCenter") {
            "BottomCentre"
        } else if contains_str(&o, "BottomRight") {
            "BottomRight"
        } else {
            "Centre"
        }
    }

    /// The value part of a command line.
    pub fn format_values(start: &str, end: &str) -> (r: String)
        ensures
            r@ == values_text(start@, end@),
    {
        if str_eq(start, end) {
            string_from_chars(str_chars(start))
        } else {
            let mut v = str_chars(start);
            push_str(&mut v, ",");
            push_str(&mut v, end);
            string_from_chars(v)
        }
    }
}

fn push_values_text(out: &mut Vec<char>, start: &str, end: &str)
    ensures
        final(out)@ == old(out)@ + values_text(start@, end@),
{
    if str_eq(start, end) {
        push_str(out, start);
    } else {
        push_str(out, start);
        push_str(out, ",");
        push_str(out, end);
        assert(final(out)@ =~= old(out)@ + (start@ + ","@ + end@));
    }
}

fn command_code_chars(t: &Vec<char>) -> (r: Vec<char>)
    ensures
        r@ == command_code(t@),
{
    let code: &str = if chars_eq_str(t, "x") {
        "MX"
    } else if chars_eq_str(t, "y") {
        "MY"
    } else if chars_eq_str(t, "scale") {
        "S"
    } else if chars_eq_str(t, "rotation") {
        "R"
    } else if chars_eq_str(t, "alpha") {
        "F"
    } else if chars_eq_str(t, "color") {
        "C"
    } else if chars_eq_str(t, "vector_scale") {
        "V"
    } else {
        "_"
    };
    str_chars(code)
}

fn command_line_chars(cmd: &ReconstructedCommand) -> (r: Vec<char>)
    ensures
        r@ == command_line(*cmd),
{
    let t = str_chars(cmd.command_type.as_str());
    if chars_eq_str(&t, "blending") || chars_eq_str(&t, "flip_h") || chars_eq_str(&t, "flip_v") {
        let param: &str = if chars_eq_str(&t, "flip_h") {
            "H"
        } else if chars_eq_str(&t, "flip_v") {
            "V"
        } else {
            "A"
        };
        assert(param@ == parameter_letter(t@));
        let mut v: Vec<char> = Vec::new();
        push_str(&mut v, "P,");
        assert(v@ =~= "P,"@);
        push_decimal_i32(&mut v, cmd.easing);
        push_str(&mut v, ",");
        push_decimal_i32(&mut v, cmd.start_time);
        push_str(&mut v, ",");
        if cmd.start_time == cmd.end_time {
            push_str(&mut v, "");
        } else {
            push_decimal_i32(&mut v, cmd.end_time);
        }
        push_str(&mut v, ",");
        push_str(&mut v, param);
        v
    } else {
        let mut v = command_code_chars(&t);
        push_str(&mut v, ",");
        push_decimal_i32(&mut v, cmd.easing);
        push_str(&mut v, ",");
        push_decimal_i32(&mut v, cmd.start_time);
        push_str(&mut v, ",");
        push_decimal_i32(&mut v, cmd.end_time);
        push_str(&mut v, ",");
        push_values_text(&mut v, cmd.start_value.as_str(), cmd.end_value.as_str());
        v
    }
}

fn commands_text_chars(cmds: &Vec<ReconstructedCommand>) -> (r: Vec<char>)
    ensures
        r@ == commands_text(cmds@),
{
    let mut v: Vec<char> = Vec::new();
    let mut i: usize = 0;
    while i < cmds.len()
        invariant
            0 <= i <= cmds@.len(),
            v@ == commands_text(cmds@.take(i as int)),
        decreases cmds@.len() - i,
    {
        let line = command_line_chars(&cmds[i]);
        push_str(&mut v, " ");
        push_chars(&mut v, &line);
        push_str(&mut v, "\n");
        assert(cmds@.take(i + 1).drop_last() == cmds@.take(i as int));
        i = i + 1;
    }
    assert(cmds@.take(cmds@.len() as int) == cmds@);
    v
}

fn loops_text_chars(loops: &Vec<ReconstructedLoop>) -> (r: Vec<char>)
    ensures
        r@ == loops_text(loops@),
{
    let mut v: Vec<char> = Vec::new();
    let mut i: usize = 0;
    while i < loops.len()
        invariant
            0 <= i <= loops@.len(),
            v@ == loops_text(loops@.take(i as int)),
        decreases loops@.len() - i,
    {
        let lp = &loops[i];
        push_str(&mut v, " L,");
        push_decimal_i32(&mut v, lp.loop_start_time);
        push_str(&mut v, ",");
        push_decimal_i32(&mut v, lp.loop_count);
        push_str(&mut v, "\n");
        assert(loops@.take(i + 1).drop_last() == loops@.take(i as int));
        i = i + 1;
    }
    assert(loops@.take(loops@.len() as int) == loops@);
    v
}

fn triggers_text_chars(triggers: &Vec<ReconstructedTrigger>) -> (r: Vec<char>)
    ensures
        r@ == triggers_text(triggers@),
{
    let mut v: Vec<char> = Vec::new();
    let mut i: usize = 0;
    while i < triggers.len()
        invariant
            0 <= i <= triggers@.len(),
            v@ == triggers_text(triggers@.take(i as int)),
        decreases triggers@.len() - i,
    {
        let tr = &triggers[i];
        push_str(&mut v, " T,");
        push_str(&mut v, tr.trigger_name.as_str());
        push_str(&mut v, ",");
        push_decimal_i32(&mut v, tr.trigger_start_time);
        push_str(&mut v, ",");
        push_decimal_i32(&mut v, tr.trigger_end_time);
        push_str(&mut v, ",");
        push_decimal_i32(&mut v, tr.group_number);
        push_str(&mut v, "\n");
        assert(triggers@.take(i + 1).drop_last() == triggers@.take(i as int));
        i = i + 1;
    }
    assert(triggers@.take(triggers@.len() as int) == triggers@);
    v
}

fn element_header_chars(elem: &ReconstructedElement, layer_name: &str) -> (r: Vec<char>)
    requires
        elem.element_type@ == "sprite"@ || elem.element_type@ == "animation"@,
    ensures
        r@ == element_header(*elem, layer_name@),
{
    let origin = StoryboardReconstructor::parse_origin(elem.origin.as_str());
    let t = str_chars(elem.element_type.as_str());
    let mut v: Vec<char> = Vec::new();
    if chars_eq_str(&t, "sprite") {
        push_str(&mut v, "Sprite,");
        assert(v@ =~= "Sprite,"@);
        push_str(&mut v, layer_name);
        push_str(&mut v, ",");
        push_str(&mut v, origin);
        push_str(&mut v, ",\"");
        push_str(&mut v, elem.element_path.as_str());
        push_str(&mut v, "\",");
        push_decimal_i32(&mut v, elem.initial_pos_x);
        push_str(&mut v, ",");
        push_decimal_i32(&mut v, elem.initial_pos_y);
        push_str(&mut v, "\n");
    } else {
        let frame_count: i32 = match elem.frame_count {
            Some(n) => n,
            None => 1,
        };
        let frame_delay: i32 = match elem.frame_delay {
            Some(n) => n,
            None => 100,
        };
        let loop_type: &str = match &elem.loop_type {
            Some(l) => l.as_str(),
            None => "LoopForever",
        };
        assert(loop_type@ == loop_type_text(elem.loop_type));
        push_str(&mut v, "Animation,");
        assert(v@ =~= "Animation,"@);
        push_str(&mut v, layer_name);
        push_str(&mut v, ",");
        push_str(&mut v, origin);
        push_str(&mut v, ",\"");
        push_str(&mut v, elem.element_path.as_str());
        push_str(&mut v, "\",");
        push_decimal_i32(&mut v, elem.initial_pos_x);
        push_str(&mut v, ",");
        push_decimal_i32(&mut v, elem.initial_pos_y);
        push_str(&mut v, ",");
        push_decimal_i32(&mut v, frame_count);
        push_str(&mut v, ",");
        push_decimal_i32(&mut v, frame_delay);
        push_str(&mut v, ",");
        push_str(&mut v, loop_type);
        push_str(&mut v, "\n");
    }
    v
}

fn element_text_chars(elem: &ReconstructedElement, layer_name: &str) -> (r: Vec<char>)
    ensures
        r@ == element_text(*elem, layer_name@),
{
    let t = str_chars(elem.element_type.as_str());
    if chars_eq_str(&t, "sprite") || chars_eq_str(&t, "animation") {
        let mut v = element_header_chars(elem, layer_name);
        let c = commands_text_chars(&elem.commands);
        let l = loops_text_chars(&elem.loops);
        let tr = triggers_text_chars(&elem.triggers);
        push_chars(&mut v, &c);
        push_chars(&mut v, &l);
        push_chars(&mut v, &tr);
        v
    } else {
        Vec::new()
    }
}

fn layer_text_chars(elements: &[ReconstructedElement], layer: &str) -> (r: Vec<char>)
    ensures
        r@ == layer_text(elements@, layer@),
{
    let mut v: Vec<char> = Vec::new();
    let mut i: usize = 0;
    while i < elements.len()
        invariant
            0 <= i <= elements@.len(),
            v@ == layer_text(elements@.take(i as int), layer@),
        decreases elements@.len() - i,
    {
        let e = &elements[i];
        assert(elements@.take(i + 1).drop_last() == elements@.take(i as int));
        assert(elements@.take(i + 1).last() == elements@[i as int]);
        if str_eq(e.layer_name.as_str(), layer) {
            StoryboardReconstructor::write_element(&mut v, e, layer);
        } else {
            assert(v@ =~= v@ + Seq::<char>::empty());
        }
        i = i + 1;
    }
    assert(elements@.take(elements@.len() as int) == elements@);
    v
}

impl StoryboardReconstructor {
    /// Appends the script text of the elements on `layer`.
    fn write_layer_elements(output: &mut Vec<char>, elements: &[ReconstructedElement], layer: &str)
        ensures
            final(output)@ == old(output)@ + layer_text(elements@, layer@),
    {
        let t = layer_text_chars(elements, layer);
        push_chars(output, &t);
    }

    /// Appends the script text of one element on `layer_name`.
    fn write_element(output: &mut Vec<char>, elem: &ReconstructedElement, layer_name: &str)
        ensures
            final(output)@ == old(output)@ + element_text(*elem, layer_name@),
    {
        let t = element_text_chars(elem, layer_name);
        push_chars(output, &t);
    }

    /// Writes elements in the `.osb` storyboard script format.
    pub fn to_osb_content(elements: &[ReconstructedElement]) -> (r: String)
        ensures
            r@ == osb_text(elements@),
    {
        let mut v: Vec<char> = Vec::new();
        push_str(&mut v, "[Events]\n");
        assert(v@ =~= "[Events]\n"@);
        push_str(&mut v, "//Background and Video events\n");
        push_str(&mut v, "//Storyboard Layer 0 (Background)\n");
        Self::write_layer_elements(&mut v, elements, "Background");
        push_str(&mut v, "//Storyboard Layer 1 (Fail)\n");
        Self::write_layer_elements(&mut v, elements, "Fail");
        push_str(&mut v, "//Storyboard Layer 2 (Pass)\n");
        Self::write_layer_elements(&mut v, elements, "Pass");
        push_str(&mut v, "//Storyboard Layer 3 (Foreground)\n");
        Self::write_layer_elements(&mut v, elements, "Foreground");
        let ghost before = v@;
        let mut overlay = false;
        let mut i: usize = 0;
        while i < elements.len()
            invariant
                0 <= i <= elements@.len(),
                overlay == exists|k: int| 0 <= k < i && elements@[k].layer_name@ == "Overlay"@,
            decreases elements@.len() - i,
        {
            if str_eq(elements[i].layer_name.as_str(), "Overlay") {
                overlay = true;
            }
            i = i + 1;
        }
        if overlay {
            push_str(&mut v, "//Storyboard Layer 4 (Overlay)\n");
            Self::write_layer_elements(&mut v, elements, "Overlay");
            assert(v@ =~= before + ("//Storyboard Layer 4 (Overlay)\n"@ + layer_text(
                elements@,
                "Overlay"@,
            )));
        } else {
            assert(v@ =~= before + Seq::<char>::empty());
        }
        string_from_chars(v)
    }

    /// The script text written for elements embedded in a beatmap file; it
    /// is the same as the `.osb` script.
    pub fn to_embedded_events_content(elements: &[ReconstructedElement]) -> (r: String)
        ensures
            r@ == osb_text(elements@),
    {
        Self::to_osb_content(elements)
    }
}

/// Some element row of `folder` with the given embedding comes from the
/// file `source`.
pub open spec fn has_source_file(rows: Seq<StoryboardElementRow>, folder: Seq<char>, embedded: bool, source: Seq<char>) -> bool {
    exists|i: int|
        0 <= i < rows.len() && (#[trigger] rows[i]).folder_id@ == folder && rows[i].is_embedded
            == embedded && rows[i].source_file@ == source
}

fn source_files(folder_id: &str, element_rows: &[StoryboardElementRow], embedded: bool) -> (r: Vec<String>)
    ensures
        strictly_sorted(texts(r@)),
        r@.len() <= element_rows@.len(),
        forall|x: Seq<char>| texts(r@).contains(x) <==> has_source_file(element_rows@, folder_id@, embedded, x),
{
    let mut files: Vec<String> = Vec::new();
    let mut i: usize = 0;
    while i < element_rows.len()
        invariant
            0 <= i <= element_rows@.len(),
            forall|x: Seq<char>| texts(files@).contains(x) <==> has_source_file(element_rows@.take(i as int), folder_id@, embedded, x),
            files@.len() <= i,
        decreases element_rows@.len() - i,
    {
        let e = &element_rows[i];
        let ghost prev = texts(files@);
        if e.is_embedded == embedded && str_eq(e.folder_id.as_str(), folder_id) {
            files.push(e.source_file.clone());
            assert(texts(files@) =~= prev.push(e.source_file@));
        }
        assert forall|x: Seq<char>| texts(files@).contains(x) <==> has_source_file(element_rows@.take(i + 1), folder_id@, embedded, x) by {
            let t = element_rows@.take(i + 1);
            crate::sorted::lemma_contains_push(prev, e.source_file@, x);
            if has_source_file(t, folder_id@, embedded, x) {
                let j = choose|j: int| 0 <= j < t.len() && (#[trigger] t[j]).folder_id@ == folder_id@ && t[j].is_embedded == embedded && t[j].source_file@ == x;
                if j < i {
                    assert(element_rows@.take(i as int)[j] == t[j]);
                }
            }
            if has_source_file(element_rows@.take(i as int), folder_id@, embedded, x) {
                let j = choose|j: int| 0 <= j < i && (#[trigger] element_rows@.take(i as int)[j]).folder_id@ == folder_id@ && element_rows@.take(i as int)[j].is_embedded == embedded && element_rows@.take(i as int)[j].source_file@ == x;
                assert(t[j] == element_rows@.take(i as int)[j]);
            }
            if e.is_embedded == embedded && e.folder_id@ == folder_id@ && x == e.source_file@ {
                assert(t[i as int] == *e);
            }
        }
        i = i + 1;
    }
    assert(element_rows@.take(element_rows@.len() as int) == element_rows@);
    sort_dedup(files)
}

impl StoryboardReconstructor {
    /// The standalone storyboard files of a folder (the source files of its
    /// non-embedded element rows), sorted and without duplicates.
    pub fn get_storyboard_files(folder_id: &str, element_rows: &[StoryboardElementRow]) -> (r: Vec<String>)
        ensures
            strictly_sorted(texts(r@)),
            forall|x: Seq<char>| texts(r@).contains(x) <==> has_source_file(element_rows@, folder_id@, false, x),
            r@.len() <= element_rows@.len(),
    {
        source_files(folder_id, element_rows, false)
    }

    /// The beatmap files of a folder that embed storyboard elements, sorted
    /// and without duplicates.
    pub fn get_embedded_storyboard_files(folder_id: &str, element_rows: &[StoryboardElementRow]) -> (r: Vec<String>)
        ensures
            strictly_sorted(texts(r@)),
            forall|x: Seq<char>| texts(r@).contains(x) <==> has_source_file(element_rows@, folder_id@, true, x),
    {
        source_files(folder_id, element_rows, true)
    }
}


/// A reconstructed storyboard element copies its row field by field, and
/// carries, in table order, exactly the command, loop and trigger rows of
/// the same folder, file and element index, each copied field by field.
pub proof fn lemma_reconstructed_element_fields(
    out: ReconstructedElement,
    e: StoryboardElementRow,
    commands: Seq<StoryboardCommandRow>,
    loops: Seq<StoryboardLoopRow>,
    triggers: Seq<StoryboardTriggerRow>,
    folder: Seq<char>,
    source: Seq<char>,
)
    requires
        reconstructed_from(out, e, commands, loops, triggers, folder, source),
    ensures
        out.layer_name == e.layer_name,
        out.element_path == e.element_path,
        out.element_type == e.element_type,
        out.origin == e.origin,
        out.initial_pos_x == e.initial_pos_x,
        out.initial_pos_y == e.initial_pos_y,
        out.frame_count == e.frame_count,
        out.frame_delay == e.frame_delay,
        out.loop_type == e.loop_type,
        out.is_embedded == e.is_embedded,
        ({
            let sel = commands.filter(command_selector(folder, source, e.element_index));
            &&& forall|j: int| 0 <= j < sel.len() ==> (#[trigger] sel[j]).folder_id@ == folder && sel[j].source_file@ == source
                && sel[j].element_index == e.element_index
            &&& forall|i: int| 0 <= i < commands.len() && commands[i].folder_id@ == folder && commands[i].source_file@ == source
                && commands[i].element_index == e.element_index ==> #[trigger] sel.contains(commands[i])
            &&& out.commands@.len() == sel.len()
            &&& forall|j: int| 0 <= j < sel.len() ==> {
                &&& (#[trigger] out.commands@[j]).command_type == sel[j].command_type
                &&& out.commands@[j].easing == sel[j].easing
                &&& out.commands@[j].start_time == sel[j].start_time
                &&& out.commands@[j].end_time == sel[j].end_time
                &&& out.commands@[j].start_value == sel[j].start_value
                &&& out.commands@[j].end_value == sel[j].end_value
            }
        }),
        ({
            let sel = loops.filter(loop_selector(folder, source, e.element_index));
            &&& forall|j: int| 0 <= j < sel.len() ==> (#[trigger] sel[j]).folder_id@ == folder && sel[j].source_file@ == source
                && sel[j].element_index == e.element_index
            &&& forall|i: int| 0 <= i < loops.len() && loops[i].folder_id@ == folder && loops[i].source_file@ == source
                && loops[i].element_index == e.element_index ==> #[trigger] sel.contains(loops[i])
            &&& out.loops@.len() == sel.len()
            &&& forall|j: int| 0 <= j < sel.len() ==> {
                &&& (#[trigger] out.loops@[j]).loop_start_time == sel[j].loop_start_time
                &&& out.loops@[j].loop_count == sel[j].loop_count
            }
        }),
        ({
            let sel = triggers.filter(trigger_selector(folder, source, e.element_index));
            &&& forall|j: int| 0 <= j < sel.len() ==> (#[trigger] sel[j]).folder_id@ == folder && sel[j].source_file@ == source
                && sel[j].element_index == e.element_index
            &&& forall|i: int| 0 <= i < triggers.len() && triggers[i].folder_id@ == folder && triggers[i].source_file@ == source
                && triggers[i].element_index == e.element_index ==> #[trigger] sel.contains(triggers[i])
            &&& out.triggers@.len() == sel.len()
            &&& forall|j: int| 0 <= j < sel.len() ==> {
                &&& (#[trigger] out.triggers@[j]).trigger_name == sel[j].trigger_name
                &&& out.triggers@[j].trigger_start_time == sel[j].trigger_start_time
                &&& out.triggers@[j].trigger_end_time == sel[j].trigger_end_time
                &&& out.triggers@[j].group_number == sel[j].group_number
            }
        }),
{
    let i = e.element_index;
    let cp = command_selector(folder, source, i);
    let cs = commands.filter(cp);
    assert forall|j: int| 0 <= j < cs.len() implies (#[trigger] cs[j]).folder_id@ == folder && cs[j].source_file@ == source
        && cs[j].element_index == i by {
        commands.lemma_filter_pred(cp, j);
    }
    assert forall|k: int| 0 <= k < commands.len() && commands[k].folder_id@ == folder && commands[k].source_file@ == source
        && commands[k].element_index == i implies #[trigger] cs.contains(commands[k]) by {
        commands.lemma_filter_contains(cp, k);
    }
    let lp = loop_selector(folder, source, i);
    let ls = loops.filter(lp);
    assert forall|j: int| 0 <= j < ls.len() implies (#[trigger] ls[j]).folder_id@ == folder && ls[j].source_file@ == source
        && ls[j].element_index == i by {
        loops.lemma_filter_pred(lp, j);
    }
    assert forall|k: int| 0 <= k < loops.len() && loops[k].folder_id@ == folder && loops[k].source_file@ == source
        && loops[k].element_index == i implies #[trigger] ls.contains(loops[k]) by {
        loops.lemma_filter_contains(lp, k);
    }
    let tp = trigger_selector(folder, source, i);
    let ts = triggers.filter(tp);
    assert forall|j: int| 0 <= j < ts.len() implies (#[trigger] ts[j]).folder_id@ == folder && ts[j].source_file@ == source
        && ts[j].element_index == i by {
        triggers.lemma_filter_pred(tp, j);
    }
    assert forall|k: int| 0 <= k < triggers.len() && triggers[k].folder_id@ == folder && triggers[k].source_file@ == source
        && triggers[k].element_index == i implies #[trigger] ts.contains(triggers[k]) by {
        triggers.lemma_filter_contains(tp, k);
    }
}

/// The script codes of the command types: moves along x and y are `MX`
/// and `MY`; scale, rotation, fade, colour and vector scale are `S`, `R`,
/// `F`, `C` and `V`; horizontal and vertical flips and blending are
/// parameter commands written `P` with the letters `H`, `V` and `A`.
#[verifier::spinoff_prover]
#[verifier::rlimit(60)]
pub proof fn lemma_command_codes()
    ensures
        command_code("x"@) == "MX"@,
        command_code("y"@) == "MY"@,
        command_code("scale"@) == "S"@,
        command_code("rotation"@) == "R"@,
        command_code("alpha"@) == "F"@,
        command_code("color"@) == "C"@,
        command_code("vector_scale"@) == "V"@,
        !is_parameter_command("x"@),
        !is_parameter_command("y"@),
        !is_parameter_command("scale"@),
        !is_parameter_command("rotation"@),
        !is_parameter_command("alpha"@),
        !is_parameter_command("color"@),
        !is_parameter_command("vector_scale"@),
        is_parameter_command("flip_h"@) && parameter_letter("flip_h"@) == "H"@,
        is_parameter_command("flip_v"@) && parameter_letter("flip_v"@) == "V"@,
        is_parameter_command("blending"@) && parameter_letter("blending"@) == "A"@,
{
    reveal_strlit("x");
    reveal_strlit("y");
    reveal_strlit("scale");
    reveal_strlit("rotation");
    reveal_strlit("alpha");
    reveal_strlit("color");
    reveal_strlit("vector_scale");
    reveal_strlit("blending");
    reveal_strlit("flip_h");
    reveal_strlit("flip_v");
    assert("x"@.len() == 1 && "y"@.len() == 1 && "scale"@.len() == 5 && "rotation"@.len() == 8);
    assert("alpha"@.len() == 5 && "color"@.len() == 5 && "vector_scale"@.len() == 12 && "blending"@.len() == 8);
    assert("flip_h"@.len() == 6 && "flip_v"@.len() == 6);
    assert("x"@[0] != "y"@[0]);
    assert("scale"@[0] != "alpha"@[0] && "scale"@[0] != "color"@[0] && "alpha"@[0] != "color"@[0]);
    assert("rotation"@[0] != "blending"@[0]);
    assert("flip_h"@[5] != "flip_v"@[5]);
}


/// The element rows of a file are exactly the rows of that folder and
/// source file, in table order; its embedded element rows are those of
/// them that are embedded.
pub proof fn lemma_file_elements_selection(rows: Seq<StoryboardElementRow>, folder: Seq<char>, source: Seq<char>)
    ensures
        forall|j: int| 0 <= j < file_elements(rows, folder, source).len() ==> (#[trigger] file_elements(rows, folder, source)[j]).folder_id@
            == folder && file_elements(rows, folder, source)[j].source_file@ == source,
        forall|i: int| 0 <= i < rows.len() && rows[i].folder_id@ == folder && rows[i].source_file@ == source
            ==> #[trigger] file_elements(rows, folder, source).contains(rows[i]),
        forall|j: int| 0 <= j < embedded_elements(rows, folder, source).len() ==> {
            &&& (#[trigger] embedded_elements(rows, folder, source)[j]).folder_id@ == folder
            &&& embedded_elements(rows, folder, source)[j].source_file@ == source
            &&& embedded_elements(rows, folder, source)[j].is_embedded
        },
        forall|i: int| 0 <= i < rows.len() && rows[i].folder_id@ == folder && rows[i].source_file@ == source && rows[i].is_embedded
            ==> #[trigger] embedded_elements(rows, folder, source).contains(rows[i]),
{
    let p = file_selector(folder, source);
    let q = element_selector(folder, source, true);
    assert forall|j: int| 0 <= j < file_elements(rows, folder, source).len() implies (#[trigger] file_elements(rows, folder, source)[j]).folder_id@
        == folder && file_elements(rows, folder, source)[j].source_file@ == source by {
        rows.lemma_filter_pred(p, j);
    }
    assert forall|i: int| 0 <= i < rows.len() && rows[i].folder_id@ == folder && rows[i].source_file@ == source
        implies #[trigger] file_elements(rows, folder, source).contains(rows[i]) by {
        rows.lemma_filter_contains(p, i);
    }
    assert forall|j: int| 0 <= j < embedded_elements(rows, folder, source).len() implies {
        &&& (#[trigger] embedded_elements(rows, folder, source)[j]).folder_id@ == folder
        &&& embedded_elements(rows, folder, source)[j].source_file@ == source
        &&& embedded_elements(rows, folder, source)[j].is_embedded
    } by {
        rows.lemma_filter_pred(q, j);
    }
    assert forall|i: int| 0 <= i < rows.len() && rows[i].folder_id@ == folder && rows[i].source_file@ == source && rows[i].is_embedded
        implies #[trigger] embedded_elements(rows, folder, source).contains(rows[i]) by {
        rows.lemma_filter_contains(q, i);
    }
}

proof fn lemma_origin_name_plain(o: Seq<char>)
    ensures
        no_comma(origin_name(o)),
{
    reveal_strlit("TopLeft");
    reveal_strlit("TopCentre");
    reveal_strlit("TopRight");
    reveal_strlit("CentreLeft");
    reveal_strlit("Centre");
    reveal_strlit("CentreRight");
    reveal_strlit("BottomLeft");
    reveal_strlit("BottomCentre");
    reveal_strlit("BottomRight");
}

/// The declaration line of a sprite is its comma-separated fields, in
/// this order: `Sprite`, the layer, the origin name, the image path in
/// double quotes, the x position and the y position; splitting the line
/// at its commas gives those fields back.
#[verifier::spinoff_prover]
#[verifier::rlimit(60)]
pub proof fn lemma_sprite_header_fields(e: ReconstructedElement, layer: Seq<char>)
    requires
        e.element_type@ == "sprite"@,
        no_comma(layer),
        no_comma(e.element_path@),
    ensures
        ({
            let fields = seq![
                "Sprite"@,
                layer,
                origin_name(e.origin@),
                seq!['"'] + e.element_path@ + seq!['"'],
                int_decimal(e.initial_pos_x as int),
                int_decimal(e.initial_pos_y as int),
            ];
            &&& element_header(e, layer) == comma_joined(fields) + seq!['\n']
            &&& split_commas(comma_joined(fields)) == fields
        }),
{
    let fields = seq![
        "Sprite"@,
        layer,
        origin_name(e.origin@),
        seq!['"'] + e.element_path@ + seq!['"'],
        int_decimal(e.initial_pos_x as int),
        int_decimal(e.initial_pos_y as int),
    ];
    reveal_strlit("Sprite");
    reveal_strlit("Sprite,");
    reveal_strlit(",");
    reveal_strlit(",\"");
    reveal_strlit("\",");
    reveal_strlit("\n");
    reveal_with_fuel(comma_joined, 7);
    lemma_origin_name_plain(e.origin@);
    crate::beatmap::lemma_decimal_shape(e.initial_pos_x);
    crate::beatmap::lemma_decimal_shape(e.initial_pos_y);
    let q = seq!['"'] + e.element_path@ + seq!['"'];
    assert(no_comma(q)) by {
        assert forall|i: int| 0 <= i < q.len() implies q[i] != ',' by {
            if 0 < i < q.len() - 1 {
                assert(q[i] == e.element_path@[i - 1]);
            }
        }
    }
    assert(no_comma(int_decimal(e.initial_pos_x as int)));
    assert(no_comma(int_decimal(e.initial_pos_y as int)));
    assert(no_comma("Sprite"@));
    assert forall|k: int| 0 <= k < fields.len() implies no_comma(#[trigger] fields[k]) by {}
    lemma_split_comma_joined(fields);
    assert(element_header(e, layer) =~= comma_joined(fields) + seq!['\n']);
}

/// The line of a move, scale, rotation, fade, colour or vector-scale
/// command is its comma-separated fields, in this order: the command's
/// code, the easing, the start time, the end time, and the start value,
/// followed by the end value when it differs; splitting it at its commas
/// gives those fields back.
#[verifier::spinoff_prover]
#[verifier::rlimit(60)]
pub proof fn lemma_command_line_fields(c: ReconstructedCommand)
    requires
        !is_parameter_command(c.command_type@),
        no_comma(c.start_value@),
        no_comma(c.end_value@),
    ensures
        ({
            let head = seq![
                command_code(c.command_type@),
                int_decimal(c.easing as int),
                int_decimal(c.start_time as int),
                int_decimal(c.end_time as int),
                c.start_value@,
            ];
            let fields = if c.start_value@ == c.end_value@ { head } else { head.push(c.end_value@) };
            &&& command_line(c) == comma_joined(fields)
            &&& split_commas(command_line(c)) == fields
        }),
{
    let head = seq![
        command_code(c.command_type@),
        int_decimal(c.easing as int),
        int_decimal(c.start_time as int),
        int_decimal(c.end_time as int),
        c.start_value@,
    ];
    let fields = if c.start_value@ == c.end_value@ { head } else { head.push(c.end_value@) };
    reveal_strlit(",");
    reveal_strlit("MX");
    reveal_strlit("MY");
    reveal_strlit("S");
    reveal_strlit("R");
    reveal_strlit("F");
    reveal_strlit("C");
    reveal_strlit("V");
    reveal_strlit("_");
    reveal_with_fuel(comma_joined, 7);
    crate::beatmap::lemma_decimal_shape(c.easing);
    crate::beatmap::lemma_decimal_shape(c.start_time);
    crate::beatmap::lemma_decimal_shape(c.end_time);
    assert(no_comma(command_code(c.command_type@)));
    assert(no_comma(int_decimal(c.easing as int)));
    assert(no_comma(int_decimal(c.start_time as int)));
    assert(no_comma(int_decimal(c.end_time as int)));
    assert forall|k: int| 0 <= k < fields.len() implies no_comma(#[trigger] fields[k]) by {}
    lemma_split_comma_joined(fields);
    assert(command_line(c) =~= comma_joined(fields));
}

/// The lines of a layer come right under that layer's comment line, the
/// layers in the order background, fail, pass, foreground (and overlay
/// when used), after the `[Events]` header.
#[verifier::spinoff_prover]
#[verifier::rlimit(60)]
pub proof fn lemma_osb_layer_order(es: Seq<ReconstructedElement>)
    ensures
        exists|rest: Seq<char>| osb_text(es) == "[Events]\n//Background and Video events\n//Storyboard Layer 0 (Background)\n"@
            + layer_text(es, "Background"@) + "//Storyboard Layer 1 (Fail)\n"@ + layer_text(es, "Fail"@)
            + "//Storyboard Layer 2 (Pass)\n"@ + layer_text(es, "Pass"@) + "//Storyboard Layer 3 (Foreground)\n"@
            + layer_text(es, "Foreground"@) + rest,
        has_overlay(es) ==> osb_text(es).len() >= layer_text(es, "Overlay"@).len()
            && osb_text(es).subrange(osb_text(es).len() - layer_text(es, "Overlay"@).len(), osb_text(es).len() as int)
            == layer_text(es, "Overlay"@),
{
    reveal_strlit("[Events]\n");
    reveal_strlit("//Background and Video events\n");
    reveal_strlit("//Storyboard Layer 0 (Background)\n");
    reveal_strlit("[Events]\n//Background and Video events\n//Storyboard Layer 0 (Background)\n");
    let rest = if has_overlay(es) { "//Storyboard Layer 4 (Overlay)\n"@ + layer_text(es, "Overlay"@) } else { Seq::empty() };
    assert(osb_text(es) =~= "[Events]\n//Background and Video events\n//Storyboard Layer 0 (Background)\n"@
        + layer_text(es, "Background"@) + "//Storyboard Layer 1 (Fail)\n"@ + layer_text(es, "Fail"@)
        + "//Storyboard Layer 2 (Pass)\n"@ + layer_text(es, "Pass"@) + "//Storyboard Layer 3 (Foreground)\n"@
        + layer_text(es, "Foreground"@) + rest);
}


proof fn lemma_small_decimals()
    ensures
        int_decimal(1) == "1"@,
        int_decimal(100) == "100"@,
{
    reveal_strlit("1");
    reveal_strlit("100");
    reveal_with_fuel(crate::text::nat_decimal, 4);
    assert(int_decimal(1) =~= "1"@);
    assert(int_decimal(100) =~= "100"@);
}

#[verifier::spinoff_prover]
#[verifier::rlimit(40)]
proof fn lemma_nine_fields(
    f0: Seq<char>, f1: Seq<char>, f2: Seq<char>, f3: Seq<char>, f4: Seq<char>,
    f5: Seq<char>, f6: Seq<char>, f7: Seq<char>, f8: Seq<char>,
)
    requires
        no_comma(f0), no_comma(f1), no_comma(f2), no_comma(f3), no_comma(f4),
        no_comma(f5), no_comma(f6), no_comma(f7), no_comma(f8),
    ensures
        comma_joined(seq![f0, f1, f2, f3, f4, f5, f6, f7, f8]) == f0 + seq![','] + f1 + seq![','] + f2 + seq![','] + f3
            + seq![','] + f4 + seq![','] + f5 + seq![','] + f6 + seq![','] + f7 + seq![','] + f8,
        split_commas(comma_joined(seq![f0, f1, f2, f3, f4, f5, f6, f7, f8])) == seq![f0, f1, f2, f3, f4, f5, f6, f7, f8],
{
    let c = seq![','];
    let s8 = seq![f8];
    let s7 = seq![f7, f8];
    let s6 = seq![f6, f7, f8];
    let s5 = seq![f5, f6, f7, f8];
    let s4 = seq![f4, f5, f6, f7, f8];
    let s3 = seq![f3, f4, f5, f6, f7, f8];
    let s2 = seq![f2, f3, f4, f5, f6, f7, f8];
    let s1 = seq![f1, f2, f3, f4, f5, f6, f7, f8];
    let s0 = seq![f0, f1, f2, f3, f4, f5, f6, f7, f8];
    assert(s7.drop_first() =~= s8);
    assert(s6.drop_first() =~= s7);
    assert(s5.drop_first() =~= s6);
    assert(s4.drop_first() =~= s5);
    assert(s3.drop_first() =~= s4);
    assert(s2.drop_first() =~= s3);
    assert(s1.drop_first() =~= s2);
    assert(s0.drop_first() =~= s1);
    assert(comma_joined(s8) == f8);
    assert(comma_joined(s7) == f7 + c + comma_joined(s8));
    assert(comma_joined(s6) == f6 + c + comma_joined(s7));
    assert(comma_joined(s5) == f5 + c + comma_joined(s6));
    assert(comma_joined(s4) == f4 + c + comma_joined(s5));
    assert(comma_joined(s3) == f3 + c + comma_joined(s4));
    assert(comma_joined(s2) == f2 + c + comma_joined(s3));
    assert(comma_joined(s1) == f1 + c + comma_joined(s2));
    assert(comma_joined(s0) == f0 + c + comma_joined(s1));
    assert(comma_joined(s0) =~= f0 + c + f1 + c + f2 + c + f3 + c + f4 + c + f5 + c + f6 + c + f7 + c + f8);
    assert forall|k: int| 0 <= k < s0.len() implies no_comma(#[trigger] s0[k]) by {}
    lemma_split_comma_joined(s0);
}

/// The declaration line of an animation is its comma-separated fields, in
/// this order: `Animation`, the layer, the origin name, the quoted image
/// path, the x and y positions, the frame count (1 when unknown), the
/// frame delay (100 when unknown) and the loop type (`LoopForever` when
/// unknown); splitting the line at its commas gives those fields back.
#[verifier::spinoff_prover]
#[verifier::rlimit(60)]
pub proof fn lemma_animation_header_fields(e: ReconstructedElement, layer: Seq<char>)
    requires
        e.element_type@ != "sprite"@,
        no_comma(layer),
        no_comma(e.element_path@),
        e.loop_type matches Some(l) ==> no_comma(l@),
    ensures
        ({
            let frames = int_decimal(match e.frame_count { Some(n) => n as int, None => 1 });
            let delay = int_decimal(match e.frame_delay { Some(n) => n as int, None => 100 });
            let looping = loop_type_text(e.loop_type);
            let fields = seq![
                "Animation"@,
                layer,
                origin_name(e.origin@),
                seq!['"'] + e.element_path@ + seq!['"'],
                int_decimal(e.initial_pos_x as int),
                int_decimal(e.initial_pos_y as int),
                frames,
                delay,
                looping,
            ];
            &&& element_header(e, layer) == comma_joined(fields) + seq!['\n']
            &&& split_commas(comma_joined(fields)) == fields
            &&& e.frame_count is None ==> frames == "1"@
            &&& e.frame_delay is None ==> delay == "100"@
            &&& e.loop_type is None ==> looping == "LoopForever"@
        }),
{
    let fc = match e.frame_count { Some(n) => n as int, None => 1 };
    let fd = match e.frame_delay { Some(n) => n as int, None => 100 };
    let frames = int_decimal(fc);
    let delay = int_decimal(fd);
    let looping = loop_type_text(e.loop_type);
    lemma_small_decimals();
    reveal_strlit("Animation");
    reveal_strlit("Animation,");
    reveal_strlit(",");
    reveal_strlit(",\"");
    reveal_strlit("\",");
    reveal_strlit("LoopForever");
    lemma_origin_name_plain(e.origin@);
    crate::beatmap::lemma_decimal_shape(e.initial_pos_x);
    crate::beatmap::lemma_decimal_shape(e.initial_pos_y);
    crate::beatmap::lemma_decimal_shape(fc as i32);
    crate::beatmap::lemma_decimal_shape(fd as i32);
    let q = seq!['"'] + e.element_path@ + seq!['"'];
    assert(no_comma(q)) by {
        assert forall|i: int| 0 <= i < q.len() implies q[i] != ',' by {
            if 0 < i < q.len() - 1 {
                assert(q[i] == e.element_path@[i - 1]);
            }
        }
    }
    assert(no_comma(looping)) by {
        reveal_strlit("LoopForever");
    }
    assert(no_comma("Animation"@));
    lemma_nine_fields("Animation"@, layer, origin_name(e.origin@), q, int_decimal(e.initial_pos_x as int),
        int_decimal(e.initial_pos_y as int), frames, delay, looping);
    reveal_strlit("\n");
    let c = seq![','];
    assert("Animation,"@ =~= "Animation"@ + c);
    assert(",\""@ =~= c + seq!['"']);
    assert("\","@ =~= seq!['"'] + c);
    assert(","@ =~= c);
    assert("\n"@ =~= seq!['\n']);
    assert(element_header(e, layer) == "Animation,"@ + layer + ","@ + origin_name(e.origin@) + ",\""@ + e.element_path@ + "\","@
        + int_decimal(e.initial_pos_x as int) + ","@ + int_decimal(e.initial_pos_y as int) + ","@ + frames + ","@ + delay + ","@
        + looping + "\n"@);
    assert(element_header(e, layer) =~= "Animation"@ + c + layer + c + origin_name(e.origin@) + c + q + c
        + int_decimal(e.initial_pos_x as int) + c + int_decimal(e.initial_pos_y as int) + c + frames + c + delay + c + looping
        + seq!['\n']);
    assert(element_header(e, layer) =~= comma_joined(seq![
        "Animation"@,
        layer,
        origin_name(e.origin@),
        q,
        int_decimal(e.initial_pos_x as int),
        int_decimal(e.initial_pos_y as int),
        frames,
        delay,
        looping,
    ]) + seq!['\n']);
}


/// Each loop adds the line ` L,<start time>,<loop count>` and each trigger
/// the line ` T,<name>,<start time>,<end time>,<group number>`, after the
/// lines of the loops and triggers before it; their fields split back at
/// the commas.
#[verifier::spinoff_prover]
#[verifier::rlimit(60)]
pub proof fn lemma_loop_and_trigger_lines(ls: Seq<ReconstructedLoop>, l: ReconstructedLoop, ts: Seq<ReconstructedTrigger>, t: ReconstructedTrigger)
    requires
        no_comma(t.trigger_name@),
    ensures
        ({
            let fields = seq!["L"@, int_decimal(l.loop_start_time as int), int_decimal(l.loop_count as int)];
            &&& loops_text(ls.push(l)) == loops_text(ls) + seq![' '] + comma_joined(fields) + seq!['\n']
            &&& split_commas(comma_joined(fields)) == fields
        }),
        ({
            let fields = seq![
                "T"@,
                t.trigger_name@,
                int_decimal(t.trigger_start_time as int),
                int_decimal(t.trigger_end_time as int),
                int_decimal(t.group_number as int),
            ];
            &&& triggers_text(ts.push(t)) == triggers_text(ts) + seq![' '] + comma_joined(fields) + seq!['\n']
            &&& split_commas(comma_joined(fields)) == fields
        }),
{
    reveal_strlit("L");
    reveal_strlit("T");
    reveal_strlit(" L,");
    reveal_strlit(" T,");
    reveal_strlit(",");
    reveal_strlit("\n");
    let c = seq![','];
    crate::beatmap::lemma_decimal_shape(l.loop_start_time);
    crate::beatmap::lemma_decimal_shape(l.loop_count);
    crate::beatmap::lemma_decimal_shape(t.trigger_start_time);
    crate::beatmap::lemma_decimal_shape(t.trigger_end_time);
    crate::beatmap::lemma_decimal_shape(t.group_number);
    let lf = seq!["L"@, int_decimal(l.loop_start_time as int), int_decimal(l.loop_count as int)];
    assert(lf.drop_first() =~= seq![int_decimal(l.loop_start_time as int), int_decimal(l.loop_count as int)]);
    assert(lf.drop_first().drop_first() =~= seq![int_decimal(l.loop_count as int)]);
    assert(comma_joined(lf.drop_first().drop_first()) == int_decimal(l.loop_count as int));
    assert(comma_joined(lf.drop_first()) == int_decimal(l.loop_start_time as int) + c + comma_joined(lf.drop_first().drop_first()));
    assert(comma_joined(lf) == "L"@ + c + comma_joined(lf.drop_first()));
    assert(ls.push(l).drop_last() =~= ls);
    assert(loops_text(ls.push(l)) =~= loops_text(ls) + seq![' '] + comma_joined(lf) + seq!['\n']);
    assert(no_comma("L"@));
    assert forall|k: int| 0 <= k < lf.len() implies no_comma(#[trigger] lf[k]) by {}
    lemma_split_comma_joined(lf);
    let tf = seq![
        "T"@,
        t.trigger_name@,
        int_decimal(t.trigger_start_time as int),
        int_decimal(t.trigger_end_time as int),
        int_decimal(t.group_number as int),
    ];
    let t1 = tf.drop_first();
    let t2 = t1.drop_first();
    let t3 = t2.drop_first();
    let t4 = t3.drop_first();
    assert(t4 =~= seq![int_decimal(t.group_number as int)]);
    assert(comma_joined(t4) == int_decimal(t.group_number as int));
    assert(comma_joined(t3) == int_decimal(t.trigger_end_time as int) + c + comma_joined(t4));
    assert(comma_joined(t2) == int_decimal(t.trigger_start_time as int) + c + comma_joined(t3));
    assert(comma_joined(t1) == t.trigger_name@ + c + comma_joined(t2));
    assert(comma_joined(tf) == "T"@ + c + comma_joined(t1));
    assert(ts.push(t).drop_last() =~= ts);
    assert(triggers_text(ts.push(t)) =~= triggers_text(ts) + seq![' '] + comma_joined(tf) + seq!['\n']);
    assert(no_comma("T"@));
    assert forall|k: int| 0 <= k < tf.len() implies no_comma(#[trigger] tf[k]) by {}
    lemma_split_comma_joined(tf);
}

} // verus!
