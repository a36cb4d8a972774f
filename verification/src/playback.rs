//! Decisions of the beatmap viewers that do not depend on time or
//! geometry: the play/pause state machine, combo numbering and colouring,
//! combo totals and the countdown sequence.

use vstd::prelude::*;
use crate::beatmap::{Color, HitObjectKind};

verus! {

/// The playback state of a viewer.
#[derive(Debug, Clone, Copy, PartialEq, Eq, Structural)]
pub enum PlaybackState {
    Playing,
    Paused,
    Stopped,
}

/// The state after toggling play/pause, and whether playback restarts from
/// the beginning (it does when toggled from stopped).
pub open spec fn toggle_spec(s: PlaybackState) -> (PlaybackState, bool) {
    match s {
        PlaybackState::Playing => (PlaybackState::Paused, false),
        PlaybackState::Paused => (PlaybackState::Playing, false),
        PlaybackState::Stopped => (PlaybackState::Playing, true),
    }
}

/// Toggles play/pause: playing pauses, paused plays, and stopped plays
/// from the start (the second result says to reset the time to zero).
pub fn toggle_play_state(state: PlaybackState) -> (r: (PlaybackState, bool))
    ensures
        r == toggle_spec(state),
{
    match state {
        PlaybackState::Playing => (PlaybackState::Paused, false),
        PlaybackState::Paused => (PlaybackState::Playing, false),
        PlaybackState::Stopped => (PlaybackState::Playing, true),
    }
}

/// What combo numbering needs of a hit object.
#[derive(Debug, Clone, Copy, PartialEq, Eq, Structural)]
pub struct ComboInput {
    pub kind: HitObjectKind,
    pub new_combo: bool,
    /// How many combo colours to skip when a new combo starts.
    pub combo_offset: i32,
    /// Repeats of a slider (spans minus one); ignored for other kinds.
    pub repeats: u32,
}

/// The combo number and combo colour of a drawn hit object.
#[derive(Debug, Clone, Copy, PartialEq, Eq, Structural)]
pub struct ComboAssignment {
    pub combo_number: u32,
    pub combo_color_index: usize,
}

/// Whether an object starts a new combo, and how many colours it skips.
pub open spec fn combo_start(o: ComboInput) -> (bool, int) {
    match o.kind {
        HitObjectKind::Circle => (o.new_combo, o.combo_offset as int),
        HitObjectKind::Slider => (o.new_combo, o.combo_offset as int),
        HitObjectKind::Spinner => (o.new_combo, 0),
        HitObjectKind::Hold => (false, 0),
    }
}

/// Combo number and colour index after the first `n` objects: a new combo
/// restarts numbering at 1 and advances the colour by one plus the skip;
/// otherwise the number grows by one.
pub open spec fn combo_state(objs: Seq<ComboInput>, n: int, colors: int) -> (int, int)
    decreases n,
{
    if n <= 0 {
        (0, 0)
    } else {
        let (num, color) = combo_state(objs, n - 1, colors);
        let (is_new, skip) = combo_start(objs[n - 1]);
        if is_new {
            (1, (color + 1 + skip) % colors)
        } else {
            (num + 1, color)
        }
    }
}

/// What is drawn for object `i`: nothing for mania holds, combo number 0
/// and colour 0 for spinners, and the running combo state otherwise.
pub open spec fn combo_assignment_spec(objs: Seq<ComboInput>, i: int, colors: int) -> Option<(int, int)> {
    match objs[i].kind {
        HitObjectKind::Hold => None,
        HitObjectKind::Spinner => Some((0, 0)),
        _ => Some(combo_state(objs, i + 1, colors)),
    }
}

/// The inputs that combo numbering accepts: at least one colour, few
/// enough objects for a `u32` count, and no negative skip on a new combo.
pub open spec fn combo_inputs_ok(objs: Seq<ComboInput>, colors: int) -> bool {
    &&& 1 <= colors
    &&& colors + i32::MAX <= usize::MAX
    &&& objs.len() < u32::MAX
    &&& forall|i: int| 0 <= i < objs.len() && (#[trigger] objs[i]).new_combo ==> objs[i].combo_offset >= 0
}

proof fn lemma_combo_state_bounds(objs: Seq<ComboInput>, n: int, colors: int)
    requires
        combo_inputs_ok(objs, colors),
        0 <= n <= objs.len(),
    ensures
        0 <= combo_state(objs, n, colors).0 <= n,
        0 <= combo_state(objs, n, colors).1 < colors,
    decreases n,
{
    if n > 0 {
        lemma_combo_state_bounds(objs, n - 1, colors);
    }
}

/// Numbers and colours the combos of a beatmap's hit objects, as the
/// viewers draw them.
pub fn assign_combos(objs: &[ComboInput], color_count: usize) -> (r: Vec<Option<ComboAssignment>>)
    requires
        combo_inputs_ok(objs@, color_count as int),
    ensures
        r@.len() == objs@.len(),
        forall|i: int| 0 <= i < objs@.len() ==> match #[trigger] r@[i] {
            Some(a) => combo_assignment_spec(objs@, i, color_count as int) == Some(
                (a.combo_number as int, a.combo_color_index as int),
            ),
            None => combo_assignment_spec(objs@, i, color_count as int) is None,
        },
        forall|i: int| 0 <= i < objs@.len() ==> match #[trigger] r@[i] {
            Some(a) => a.combo_color_index < color_count,
            None => true,
        },
{
    let mut out: Vec<Option<ComboAssignment>> = Vec::new();
    let mut number: u32 = 0;
    let mut color: usize = 0;
    let mut i: usize = 0;
    while i < objs.len()
        invariant
            0 <= i <= objs@.len(),
            combo_inputs_ok(objs@, color_count as int),
            (number as int, color as int) == combo_state(objs@, i as int, color_count as int),
            out@.len() == i,
            forall|k: int| 0 <= k < i ==> match #[trigger] out@[k] {
                Some(a) => combo_assignment_spec(objs@, k, color_count as int) == Some(
                    (a.combo_number as int, a.combo_color_index as int),
                ),
                None => combo_assignment_spec(objs@, k, color_count as int) is None,
            },
            forall|k: int| 0 <= k < i ==> match #[trigger] out@[k] {
                Some(a) => a.combo_color_index < color_count,
                None => true,
            },
        decreases objs@.len() - i,
    {
        proof {
            lemma_combo_state_bounds(objs@, i as int, color_count as int);
        }
        let o = objs[i];
        let (is_new, skip): (bool, usize) = match o.kind {
            HitObjectKind::Circle => (o.new_combo, if o.new_combo { o.combo_offset as usize } else { 0 }),
            HitObjectKind::Slider => (o.new_combo, if o.new_combo { o.combo_offset as usize } else { 0 }),
            HitObjectKind::Spinner => (o.new_combo, 0),
            HitObjectKind::Hold => (false, 0),
        };
        if is_new {
            number = 1;
            color = (color + 1 + skip) % color_count;
        } else {
            number = number + 1;
        }
        proof {
            lemma_combo_state_bounds(objs@, i + 1, color_count as int);
        }
        let a: Option<ComboAssignment> = match o.kind {
            HitObjectKind::Hold => None,
            HitObjectKind::Spinner => Some(ComboAssignment { combo_number: 0, combo_color_index: 0 }),
            _ => Some(ComboAssignment { combo_number: number, combo_color_index: color }),
        };
        out.push(a);
        i = i + 1;
    }
    out
}

/// The combo points of an object: one for a circle or spinner, two plus the
/// repeats for a slider, none for a mania hold.
pub open spec fn combo_points(o: ComboInput) -> int {
    match o.kind {
        HitObjectKind::Circle => 1,
        HitObjectKind::Slider => o.repeats + 2,
        HitObjectKind::Spinner => 1,
        HitObjectKind::Hold => 0,
    }
}

/// The combo points of a list of objects.
pub open spec fn combo_sum(objs: Seq<ComboInput>) -> int
    decreases objs.len(),
{
    if objs.len() == 0 {
        0
    } else {
        combo_sum(objs.drop_last()) + combo_points(objs.last())
    }
}

/// The combo a list of objects is worth (the map's total combo, or the
/// combo reached once the first objects are completed), when it fits in a
/// `u32`; nothing when it does not.
pub fn combo_total(objs: &[ComboInput]) -> (r: Option<u32>)
    ensures
        match r {
            Some(t) => t == combo_sum(objs@),
            None => combo_sum(objs@) > u32::MAX,
        },
{
    let mut total: u64 = 0;
    let mut i: usize = 0;
    while i < objs.len()
        invariant
            0 <= i <= objs@.len(),
            total == combo_sum(objs@.take(i as int)),
            total <= u32::MAX,
        decreases objs@.len() - i,
    {
        proof {
            assert(objs@.take(i + 1).drop_last() == objs@.take(i as int));
        }
        let o = objs[i];
        let p: u64 = match o.kind {
            HitObjectKind::Circle => 1,
            HitObjectKind::Slider => o.repeats as u64 + 2,
            HitObjectKind::Spinner => 1,
            HitObjectKind::Hold => 0,
        };
        total = total + p;
        if total > 4294967295u64 {
            proof {
                lemma_combo_sum_prefix(objs@, i + 1);
            }
            return None;
        }
        i = i + 1;
    }
    assert(objs@.take(objs@.len() as int) == objs@);
    Some(total as u32)
}

/// A prefix is worth no more than the whole list.
pub proof fn lemma_combo_sum_prefix(objs: Seq<ComboInput>, k: int)
    requires
        0 <= k <= objs.len(),
    ensures
        combo_sum(objs.take(k)) <= combo_sum(objs),
        combo_sum(objs.take(k)) >= 0,
    decreases objs.len(),
{
    if objs.len() > 0 {
        if k == objs.len() {
            assert(objs.take(k) == objs);
            lemma_combo_sum_prefix(objs.drop_last(), k - 1);
        } else {
            lemma_combo_sum_prefix(objs.drop_last(), k);
            assert(objs.drop_last().take(k) == objs.take(k));
        }
    }
}

/// What the countdown shows.
#[derive(Debug, Clone, Copy, PartialEq, Eq, Structural)]
pub enum CountdownState {
    /// Nothing is shown.
    Off,
    /// A number (3, 2, 1).
    Number(i32),
    /// "Go!".
    Go,
}

/// What the countdown shows during beat `beat` of its four beats.
pub open spec fn countdown_for_beat_spec(beat: i32) -> CountdownState {
    if beat == 0 {
        CountdownState::Number(3)
    } else if beat == 1 {
        CountdownState::Number(2)
    } else if beat == 2 {
        CountdownState::Number(1)
    } else if beat == 3 {
        CountdownState::Go
    } else {
        CountdownState::Off
    }
}

/// The countdown shown during a beat of the countdown: 3, 2, 1, then Go.
pub fn countdown_for_beat(beat: i32) -> (r: CountdownState)
    ensures
        r == countdown_for_beat_spec(beat),
{
    match beat {
        0 => CountdownState::Number(3),
        1 => CountdownState::Number(2),
        2 => CountdownState::Number(1),
        3 => CountdownState::Go,
        _ => CountdownState::Off,
    }
}

/// The combo colours a viewer draws with: the beatmap's own combo colours
/// (red, green, blue), or the four default ones when it has none.
pub fn combo_palette(custom: &[Color]) -> (r: Vec<(u8, u8, u8)>)
    ensures
        custom@.len() == 0 ==> r@ == seq![(255u8, 192u8, 0u8), (0u8, 202u8, 0u8), (18u8, 124u8, 255u8), (242u8, 24u8, 57u8)],
        custom@.len() > 0 ==> r@.len() == custom@.len(),
        custom@.len() > 0 ==> forall|k: int| 0 <= k < custom@.len() ==> #[trigger] r@[k] == (custom@[k].red, custom@[k].green, custom@[k].blue),
{
    let mut out: Vec<(u8, u8, u8)> = Vec::new();
    if custom.len() == 0 {
        out.push((255, 192, 0));
        out.push((0, 202, 0));
        out.push((18, 124, 255));
        out.push((242, 24, 57));
        return out;
    }
    let mut i: usize = 0;
    while i < custom.len()
        invariant
            0 <= i <= custom@.len(),
            out@.len() == i,
            forall|k: int| 0 <= k < i ==> #[trigger] out@[k] == (custom@[k].red, custom@[k].green, custom@[k].blue),
        decreases custom@.len() - i,
    {
        let c = custom[i];
        out.push((c.red, c.green, c.blue));
        i = i + 1;
    }
    out
}

/// The bucket a timeline position falls in, held to the last bucket.
pub open spec fn clamp_bucket(b: int, num_buckets: int) -> int {
    if b < num_buckets - 1 { b } else { num_buckets - 1 }
}

/// How many of the objects' spans cover bucket `b`; each span runs from
/// the bucket of the object's start to that of its end, both held to the
/// last bucket.
pub open spec fn bucket_count(spans: Seq<(usize, usize)>, b: int, num_buckets: int) -> nat
    decreases spans.len(),
{
    if spans.len() == 0 {
        0
    } else {
        let (s, e) = spans.last();
        bucket_count(spans.drop_last(), b, num_buckets) + (if clamp_bucket(s as int, num_buckets) <= b
            && b <= clamp_bucket(e as int, num_buckets) {
            1nat
        } else {
            0nat
        })
    }
}

proof fn lemma_bucket_count_bound(spans: Seq<(usize, usize)>, b: int, num_buckets: int)
    ensures
        bucket_count(spans, b, num_buckets) <= spans.len(),
    decreases spans.len(),
{
    if spans.len() > 0 {
        lemma_bucket_count_bound(spans.drop_last(), b, num_buckets);
    }
}

/// The object density of a timeline: for each of `num_buckets` buckets, the
/// number of objects whose span (start bucket to end bucket, each held to
/// the last bucket) covers it.
pub fn density_buckets(spans: &[(usize, usize)], num_buckets: usize) -> (r: Vec<u32>)
    requires
        num_buckets > 0,
        spans@.len() <= u32::MAX,
    ensures
        r@.len() == num_buckets,
        forall|b: int| 0 <= b < num_buckets ==> #[trigger] r@[b] == bucket_count(spans@, b, num_buckets as int),
{
    let mut counts: Vec<u32> = Vec::new();
    let mut z: usize = 0;
    while z < num_buckets
        invariant
            0 <= z <= num_buckets,
            counts@.len() == z,
            forall|b: int| 0 <= b < z ==> #[trigger] counts@[b] == 0,
        decreases num_buckets - z,
    {
        counts.push(0);
        z = z + 1;
    }
    let last = num_buckets - 1;
    let mut k: usize = 0;
    while k < spans.len()
        invariant
            0 <= k <= spans@.len() <= u32::MAX,
            num_buckets > 0,
            last == num_buckets - 1,
            counts@.len() == num_buckets,
            forall|b: int| 0 <= b < num_buckets ==> #[trigger] counts@[b] == bucket_count(spans@.take(k as int), b, num_buckets as int),
        decreases spans@.len() - k,
    {
        let (s, e) = spans[k];
        let lo = if s < last { s } else { last };
        let hi = if e < last { e } else { last };
        proof {
            assert(spans@.take(k + 1).drop_last() == spans@.take(k as int));
            assert(spans@.take(k + 1).last() == spans@[k as int]);
        }
        let ghost before = counts@;
        let mut j: usize = lo;
        while j <= hi
            invariant
                lo <= j,
                j <= hi + 1 || j == lo,
                hi <= last,
                last == num_buckets - 1,
                counts@.len() == num_buckets,
                k < spans@.len() <= u32::MAX,
                before.len() == num_buckets,
                forall|b: int| 0 <= b < num_buckets ==> #[trigger] before[b] == bucket_count(spans@.take(k as int), b, num_buckets as int),
                forall|b: int| 0 <= b < num_buckets ==> #[trigger] counts@[b] == before[b] + (if lo <= b < j { 1int } else { 0int }),
            decreases hi + 1 - j,
        {
            proof {
                lemma_bucket_count_bound(spans@.take(k as int), j as int, num_buckets as int);
            }
            counts.set(j, counts[j] + 1);
            j = j + 1;
        }
        k = k + 1;
    }
    assert(spans@.take(spans@.len() as int) == spans@);
    counts
}


/// Toggling twice from playing or paused comes back to the same state
/// without a restart; stopped playback starts playing from the beginning.
pub proof fn lemma_toggle_twice(s: PlaybackState)
    ensures
        s != PlaybackState::Stopped ==> toggle_spec(toggle_spec(s).0).0 == s && !toggle_spec(s).1,
        toggle_spec(PlaybackState::Stopped) == (PlaybackState::Playing, true),
        toggle_spec(s).0 != PlaybackState::Stopped,
        toggle_spec(s).0 != s,
{
}

/// The countdown shows 3, 2 and 1 on its first three beats, then "Go!",
/// and nothing before or after.
pub proof fn lemma_countdown_sequence(beat: i32)
    ensures
        countdown_for_beat_spec(0) == CountdownState::Number(3),
        countdown_for_beat_spec(1) == CountdownState::Number(2),
        countdown_for_beat_spec(2) == CountdownState::Number(1),
        countdown_for_beat_spec(3) == CountdownState::Go,
        0 <= beat < 3 ==> countdown_for_beat_spec(beat) == CountdownState::Number((3 - beat) as i32),
        (beat < 0 || beat > 3) ==> countdown_for_beat_spec(beat) == CountdownState::Off,
{
}


/// Within a combo the numbers count up: a circle or slider that starts a
/// new combo is number 1, with its colour advanced by one plus its combo
/// offset (modulo the number of colours); each following object that
/// starts no new combo is numbered one more and keeps the colour.
pub proof fn lemma_combo_numbers_count_up(objs: Seq<ComboInput>, colors: int, i: int, j: int)
    requires
        0 <= i,
        0 <= j,
        i + j < objs.len(),
        objs[i].kind == HitObjectKind::Circle || objs[i].kind == HitObjectKind::Slider,
        objs[i].new_combo,
        forall|m: int| i < m <= i + j ==> !(#[trigger] objs[m]).new_combo,
    ensures
        combo_state(objs, i + 1 + j, colors).0 == 1 + j,
        combo_state(objs, i + 1 + j, colors).1 == (combo_state(objs, i, colors).1 + 1 + objs[i].combo_offset) % colors,
    decreases j,
{
    if j > 0 {
        lemma_combo_numbers_count_up(objs, colors, i, j - 1);
        assert(!objs[i + j].new_combo);
    }
}

} // verus!
