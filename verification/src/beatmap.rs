//! The categorical and integer columns of the beatmap tables: how the
//! dataset builder encodes them and how the beatmap reconstructor decodes
//! them, with the round trips that make the dataset reversible.

use vstd::prelude::*;
use crate::order::{is_stable_order, stable_order};
use crate::types::{ComboColorRow, HitSampleRow};
use crate::text::{lemma_split_after_piece, lemma_split_single, parse_u32, parse_u32_range, lemma_filter_take_step, lemma_filter_all, lemma_filter_none,
    first_at, i32_decimal, int_decimal, is_digit, lemma_nat_decimal, lemma_parse_i32_decimal,
    next_comma_piece, parse_i32, parse_i32_range, push_decimal_i32, split_commas, str_chars,
    str_eq, string_from_chars, trim, trim_range, is_whitespace, nat_decimal, all_digits,
};

verus! {

/// The default sample bank of a beatmap or the bank of a hit sample.
#[derive(Debug, Clone, Copy, PartialEq, Eq, Structural)]
pub enum SampleBank {
    /// No bank given: the sample follows the timing point's bank.
    Auto,
    Normal,
    Soft,
    Drum,
}

/// An osu! game mode.
#[derive(Debug, Clone, Copy, PartialEq, Eq, Structural)]
pub enum GameMode {
    Osu,
    Taiko,
    Catch,
    Mania,
}

/// The countdown before the first hit object.
#[derive(Debug, Clone, Copy, PartialEq, Eq, Structural)]
pub enum CountdownType {
    /// No countdown.
    Disabled,
    Normal,
    HalfSpeed,
    DoubleSpeed,
}

/// The kind of a hit object.
#[derive(Debug, Clone, Copy, PartialEq, Eq, Structural)]
pub enum HitObjectKind {
    Circle,
    Slider,
    Spinner,
    Hold,
}

/// The kind of a timing-table row.
#[derive(Debug, Clone, Copy, PartialEq, Eq, Structural)]
pub enum TimingPointKind {
    Timing,
    Difficulty,
    Effect,
}

/// The spline kind of a slider path segment.
#[derive(Debug, Clone, Copy, PartialEq, Eq, Structural)]
pub enum PathTypeKind {
    Bezier,
    Linear,
    Catmull,
    PerfectCurve,
}

/// The built-in hit sound names.
#[derive(Debug, Clone, Copy, PartialEq, Eq, Structural)]
pub enum HitSampleDefaultName {
    Normal,
    Whistle,
    Finish,
    Clap,
}

/// The name of a hit sample: a built-in sound or a custom file.
#[derive(Debug, PartialEq, Eq)]
pub enum HitSampleName {
    Default(HitSampleDefaultName),
    File(String),
}

/// The integer code stored for a sample bank.
pub open spec fn sample_bank_code_spec(b: SampleBank) -> i32 {
    match b {
        SampleBank::Auto => 0,
        SampleBank::Normal => 1,
        SampleBank::Soft => 2,
        SampleBank::Drum => 3,
    }
}

/// The sample bank a stored code stands for (unknown codes: auto).
pub open spec fn sample_bank_from_code_spec(c: i32) -> SampleBank {
    if c == 1 {
        SampleBank::Normal
    } else if c == 2 {
        SampleBank::Soft
    } else if c == 3 {
        SampleBank::Drum
    } else {
        SampleBank::Auto
    }
}

/// The integer code stored for a game mode.
pub open spec fn game_mode_code_spec(m: GameMode) -> i32 {
    match m {
        GameMode::Osu => 0,
        GameMode::Taiko => 1,
        GameMode::Catch => 2,
        GameMode::Mania => 3,
    }
}

/// The game mode a stored code stands for (unknown codes: osu!).
pub open spec fn game_mode_from_code_spec(c: i32) -> GameMode {
    if c == 1 {
        GameMode::Taiko
    } else if c == 2 {
        GameMode::Catch
    } else if c == 3 {
        GameMode::Mania
    } else {
        GameMode::Osu
    }
}

/// The integer code stored for a countdown type.
pub open spec fn countdown_code_spec(c: CountdownType) -> i32 {
    match c {
        CountdownType::Disabled => 0,
        CountdownType::Normal => 1,
        CountdownType::HalfSpeed => 2,
        CountdownType::DoubleSpeed => 3,
    }
}

/// The countdown type a stored code stands for (unknown codes: normal).
pub open spec fn countdown_from_code_spec(c: i32) -> CountdownType {
    if c == 0 {
        CountdownType::Disabled
    } else if c == 2 {
        CountdownType::HalfSpeed
    } else if c == 3 {
        CountdownType::DoubleSpeed
    } else {
        CountdownType::Normal
    }
}

/// The name stored for a sample bank.
pub open spec fn sample_bank_name_spec(b: SampleBank) -> Seq<char> {
    match b {
        SampleBank::Auto => "None"@,
        SampleBank::Normal => "Normal"@,
        SampleBank::Soft => "Soft"@,
        SampleBank::Drum => "Drum"@,
    }
}

/// The sample bank a stored name stands for (unknown names: auto).
pub open spec fn sample_bank_from_name_spec(n: Seq<char>) -> SampleBank {
    if n == "Normal"@ {
        SampleBank::Normal
    } else if n == "Soft"@ {
        SampleBank::Soft
    } else if n == "Drum"@ {
        SampleBank::Drum
    } else {
        SampleBank::Auto
    }
}

/// The name stored for a hit object kind.
pub open spec fn hit_object_kind_name_spec(k: HitObjectKind) -> Seq<char> {
    match k {
        HitObjectKind::Circle => "circle"@,
        HitObjectKind::Slider => "slider"@,
        HitObjectKind::Spinner => "spinner"@,
        HitObjectKind::Hold => "hold"@,
    }
}

/// The hit object kind a stored name stands for.
pub open spec fn hit_object_kind_from_name_spec(n: Seq<char>) -> Option<HitObjectKind> {
    if n == "circle"@ {
        Some(HitObjectKind::Circle)
    } else if n == "slider"@ {
        Some(HitObjectKind::Slider)
    } else if n == "spinner"@ {
        Some(HitObjectKind::Spinner)
    } else if n == "hold"@ {
        Some(HitObjectKind::Hold)
    } else {
        None
    }
}

/// The name stored for a timing-table row kind.
pub open spec fn timing_point_kind_name_spec(k: TimingPointKind) -> Seq<char> {
    match k {
        TimingPointKind::Timing => "timing"@,
        TimingPointKind::Difficulty => "difficulty"@,
        TimingPointKind::Effect => "effect"@,
    }
}

/// The timing-table row kind a stored name stands for.
pub open spec fn timing_point_kind_from_name_spec(n: Seq<char>) -> Option<TimingPointKind> {
    if n == "timing"@ {
        Some(TimingPointKind::Timing)
    } else if n == "difficulty"@ {
        Some(TimingPointKind::Difficulty)
    } else if n == "effect"@ {
        Some(TimingPointKind::Effect)
    } else {
        None
    }
}

/// The slider path kind a stored path type name stands for.
pub open spec fn path_type_from_name_spec(n: Seq<char>) -> Option<PathTypeKind> {
    if n == "Bezier"@ {
        Some(PathTypeKind::Bezier)
    } else if n == "Linear"@ {
        Some(PathTypeKind::Linear)
    } else if n == "Catmull"@ {
        Some(PathTypeKind::Catmull)
    } else if n == "PerfectCurve"@ {
        Some(PathTypeKind::PerfectCurve)
    } else {
        None
    }
}

/// The hit sample name a stored name stands for: one of the four built-in
/// names, or else a custom file of that name.
pub open spec fn hit_sample_name_from_spec(n: Seq<char>, file: HitSampleName) -> bool {
    if n == "Normal"@ {
        file == HitSampleName::Default(HitSampleDefaultName::Normal)
    } else if n == "Whistle"@ {
        file == HitSampleName::Default(HitSampleDefaultName::Whistle)
    } else if n == "Finish"@ {
        file == HitSampleName::Default(HitSampleDefaultName::Finish)
    } else if n == "Clap"@ {
        file == HitSampleName::Default(HitSampleDefaultName::Clap)
    } else {
        file matches HitSampleName::File(f) && f@ == n
    }
}

/// Reconstructs beatmap fields from the dataset's columns.
pub struct BeatmapReconstructor;

impl BeatmapReconstructor {
    /// The sample bank of a stored code.
    pub fn sample_bank_from_code(code: i32) -> (r: SampleBank)
        ensures
            r == sample_bank_from_code_spec(code),
    {
        match code {
            0 => SampleBank::Auto,
            1 => SampleBank::Normal,
            2 => SampleBank::Soft,
            3 => SampleBank::Drum,
            _ => SampleBank::Auto,
        }
    }

    /// The game mode of a stored code.
    pub fn game_mode_from_code(code: i32) -> (r: GameMode)
        ensures
            r == game_mode_from_code_spec(code),
    {
        match code {
            0 => GameMode::Osu,
            1 => GameMode::Taiko,
            2 => GameMode::Catch,
            3 => GameMode::Mania,
            _ => GameMode::Osu,
        }
    }

    /// The countdown type of a stored code.
    pub fn countdown_from_code(code: i32) -> (r: CountdownType)
        ensures
            r == countdown_from_code_spec(code),
    {
        match code {
            0 => CountdownType::Disabled,
            1 => CountdownType::Normal,
            2 => CountdownType::HalfSpeed,
            3 => CountdownType::DoubleSpeed,
            _ => CountdownType::Normal,
        }
    }

    /// The sample bank of a stored bank name.
    pub fn sample_bank_from_name(name: &str) -> (r: SampleBank)
        ensures
            r == sample_bank_from_name_spec(name@),
    {
        if str_eq(name, "Normal") {
            SampleBank::Normal
        } else if str_eq(name, "Soft") {
            SampleBank::Soft
        } else if str_eq(name, "Drum") {
            SampleBank::Drum
        } else {
            SampleBank::Auto
        }
    }

    /// The hit sample name of a stored sample name.
    pub fn hit_sample_name_from(name: &str) -> (r: HitSampleName)
        ensures
            hit_sample_name_from_spec(name@, r),
    {
        if str_eq(name, "Normal") {
            HitSampleName::Default(HitSampleDefaultName::Normal)
        } else if str_eq(name, "Whistle") {
            HitSampleName::Default(HitSampleDefaultName::Whistle)
        } else if str_eq(name, "Finish") {
            HitSampleName::Default(HitSampleDefaultName::Finish)
        } else if str_eq(name, "Clap") {
            HitSampleName::Default(HitSampleDefaultName::Clap)
        } else {
            HitSampleName::File(string_from_chars(str_chars(name)))
        }
    }

    /// The hit object kind of a stored object type, if it is one of the four.
    pub fn hit_object_kind_from_name(name: &str) -> (r: Option<HitObjectKind>)
        ensures
            r == hit_object_kind_from_name_spec(name@),
    {
        if str_eq(name, "circle") {
            Some(HitObjectKind::Circle)
        } else if str_eq(name, "slider") {
            Some(HitObjectKind::Slider)
        } else if str_eq(name, "spinner") {
            Some(HitObjectKind::Spinner)
        } else if str_eq(name, "hold") {
            Some(HitObjectKind::Hold)
        } else {
            None
        }
    }

    /// The kind of a stored timing-table row, if it is one of the three.
    pub fn timing_point_kind_from_name(name: &str) -> (r: Option<TimingPointKind>)
        ensures
            r == timing_point_kind_from_name_spec(name@),
    {
        if str_eq(name, "timing") {
            Some(TimingPointKind::Timing)
        } else if str_eq(name, "difficulty") {
            Some(TimingPointKind::Difficulty)
        } else if str_eq(name, "effect") {
            Some(TimingPointKind::Effect)
        } else {
            None
        }
    }

    /// The slider path kind of a stored path type name, if it is one of the four.
    pub fn path_type_from_name(name: &str) -> (r: Option<PathTypeKind>)
        ensures
            r == path_type_from_name_spec(name@),
    {
        if str_eq(name, "Bezier") {
            Some(PathTypeKind::Bezier)
        } else if str_eq(name, "Linear") {
            Some(PathTypeKind::Linear)
        } else if str_eq(name, "Catmull") {
            Some(PathTypeKind::Catmull)
        } else if str_eq(name, "PerfectCurve") {
            Some(PathTypeKind::PerfectCurve)
        } else {
            None
        }
    }
}

/// The code stored for a sample bank.
pub fn sample_bank_code(b: SampleBank) -> (r: i32)
    ensures
        r == sample_bank_code_spec(b),
{
    match b {
        SampleBank::Auto => 0,
        SampleBank::Normal => 1,
        SampleBank::Soft => 2,
        SampleBank::Drum => 3,
    }
}

/// The code stored for a game mode.
pub fn game_mode_code(m: GameMode) -> (r: i32)
    ensures
        r == game_mode_code_spec(m),
{
    match m {
        GameMode::Osu => 0,
        GameMode::Taiko => 1,
        GameMode::Catch => 2,
        GameMode::Mania => 3,
    }
}

/// The code stored for a countdown type.
pub fn countdown_code(c: CountdownType) -> (r: i32)
    ensures
        r == countdown_code_spec(c),
{
    match c {
        CountdownType::Disabled => 0,
        CountdownType::Normal => 1,
        CountdownType::HalfSpeed => 2,
        CountdownType::DoubleSpeed => 3,
    }
}

/// The name stored for a sample bank.
pub fn sample_bank_name(b: SampleBank) -> (r: &'static str)
    ensures
        r@ == sample_bank_name_spec(b),
{
    match b {
        SampleBank::Auto => "None",
        SampleBank::Normal => "Normal",
        SampleBank::Soft => "Soft",
        SampleBank::Drum => "Drum",
    }
}

/// The name stored for a hit object kind.
pub fn hit_object_kind_name(k: HitObjectKind) -> (r: &'static str)
    ensures
        r@ == hit_object_kind_name_spec(k),
{
    match k {
        HitObjectKind::Circle => "circle",
        HitObjectKind::Slider => "slider",
        HitObjectKind::Spinner => "spinner",
        HitObjectKind::Hold => "hold",
    }
}

/// The name stored for a timing-table row kind.
pub fn timing_point_kind_name(k: TimingPointKind) -> (r: &'static str)
    ensures
        r@ == timing_point_kind_name_spec(k),
{
    match k {
        TimingPointKind::Timing => "timing",
        TimingPointKind::Difficulty => "difficulty",
        TimingPointKind::Effect => "effect",
    }
}

/// Reading back a stored sample bank code gives the bank.
pub proof fn lemma_sample_bank_code_round_trip(b: SampleBank)
    ensures
        sample_bank_from_code_spec(sample_bank_code_spec(b)) == b,
{
}

/// Reading back a stored game mode code gives the mode.
pub proof fn lemma_game_mode_code_round_trip(m: GameMode)
    ensures
        game_mode_from_code_spec(game_mode_code_spec(m)) == m,
{
}

/// Reading back a stored countdown code gives the countdown type.
pub proof fn lemma_countdown_code_round_trip(c: CountdownType)
    ensures
        countdown_from_code_spec(countdown_code_spec(c)) == c,
{
}

/// Reading back a stored sample bank name gives the bank.
pub proof fn lemma_sample_bank_name_round_trip(b: SampleBank)
    ensures
        sample_bank_from_name_spec(sample_bank_name_spec(b)) == b,
{
    reveal_strlit("None");
    reveal_strlit("Normal");
    reveal_strlit("Soft");
    reveal_strlit("Drum");
    assert("None"@[0] != "Soft"@[0] && "None"@[0] != "Drum"@[0] && "None"@[2] != "Normal"@[2]);
    assert("Soft"@[0] != "Normal"@[0] && "Drum"@[0] != "Normal"@[0] && "Drum"@[0] != "Soft"@[0]);
}

/// Reading back a stored hit object kind name gives the kind.
pub proof fn lemma_hit_object_kind_round_trip(k: HitObjectKind)
    ensures
        hit_object_kind_from_name_spec(hit_object_kind_name_spec(k)) == Some(k),
{
    reveal_strlit("circle");
    reveal_strlit("slider");
    reveal_strlit("spinner");
    reveal_strlit("hold");
    assert("slider"@[0] != "circle"@[0] && "spinner"@[0] != "circle"@[0] && "hold"@[0] != "circle"@[0]);
    assert("spinner"@[1] != "slider"@[1] && "hold"@[0] != "slider"@[0] && "hold"@[0] != "spinner"@[0]);
}

/// Reading back a stored timing-table row kind name gives the kind.
pub proof fn lemma_timing_point_kind_round_trip(k: TimingPointKind)
    ensures
        timing_point_kind_from_name_spec(timing_point_kind_name_spec(k)) == Some(k),
{
    reveal_strlit("timing");
    reveal_strlit("difficulty");
    reveal_strlit("effect");
    assert("difficulty"@[0] != "timing"@[0] && "effect"@[0] != "timing"@[0] && "effect"@[0] != "difficulty"@[0]);
}

/// The bookmarks column: the decimal bookmark times joined by commas.
pub open spec fn join_decimals(v: Seq<i32>) -> Seq<char>
    decreases v.len(),
{
    if v.len() == 0 {
        Seq::empty()
    } else if v.len() == 1 {
        int_decimal(v[0] as int)
    } else {
        int_decimal(v[0] as int) + seq![','] + join_decimals(v.drop_first())
    }
}

/// The bookmark times read from comma-separated pieces: every piece that,
/// trimmed, parses as an `i32`, in order; other pieces are skipped.
pub open spec fn bookmarks_from_pieces(ps: Seq<Seq<char>>) -> Seq<i32>
    decreases ps.len(),
{
    if ps.len() == 0 {
        Seq::empty()
    } else {
        (match parse_i32(trim(ps[0])) {
            Some(b) => seq![b],
            None => Seq::empty(),
        }) + bookmarks_from_pieces(ps.drop_first())
    }
}

/// The bookmark times read back from the bookmarks column.
pub open spec fn bookmarks_of(s: Seq<char>) -> Seq<i32> {
    bookmarks_from_pieces(split_commas(s))
}

/// Writes bookmark times as the bookmarks column: decimal, comma-separated.
pub fn join_bookmarks(bookmarks: &[i32]) -> (r: String)
    ensures
        r@ == join_decimals(bookmarks@),
{
    let mut v: Vec<char> = Vec::new();
    let mut i: usize = 0;
    while i < bookmarks.len()
        invariant
            0 <= i <= bookmarks@.len(),
            v@ == join_decimals(bookmarks@.take(i as int)),
        decreases bookmarks@.len() - i,
    {
        proof {
            lemma_join_decimals_push(bookmarks@.take(i as int), bookmarks@[i as int]);
            assert(bookmarks@.take(i + 1) == bookmarks@.take(i as int).push(bookmarks@[i as int]));
        }
        if i > 0 {
            v.push(',');
        }
        push_decimal_i32(&mut v, bookmarks[i]);
        i = i + 1;
    }
    assert(bookmarks@.take(bookmarks@.len() as int) == bookmarks@);
    string_from_chars(v)
}

/// Appending a time to the joined list appends a comma and its spelling.
pub proof fn lemma_join_decimals_push(v: Seq<i32>, x: i32)
    ensures
        join_decimals(v.push(x)) == (if v.len() == 0 {
            int_decimal(x as int)
        } else {
            join_decimals(v) + seq![','] + int_decimal(x as int)
        }),
    decreases v.len(),
{
    if v.len() == 0 {
        assert(v.push(x)[0] == x);
    } else if v.len() == 1 {
        assert(v.push(x).drop_first() == seq![x]);
        assert(join_decimals(seq![x]) == int_decimal(x as int));
    } else {
        lemma_join_decimals_push(v.drop_first(), x);
        assert(v.push(x).drop_first() == v.drop_first().push(x));
        assert(v.push(x)[0] == v[0]);
    }
}

/// Reads the bookmark times back from the bookmarks column.
pub fn parse_bookmarks(s: &str) -> (r: Vec<i32>)
    ensures
        r@ == bookmarks_of(s@),
{
    let c = str_chars(s);
    let n = c.len();
    let mut out: Vec<i32> = Vec::new();
    let mut pos: usize = 0;
    let mut done = false;
    assert(c@.subrange(0, n as int) == c@);
    while !done
        invariant
            pos <= n == c@.len(),
            c@ == s@,
            !done ==> out@ + bookmarks_from_pieces(split_commas(c@.subrange(pos as int, n as int)))
                == bookmarks_of(s@),
            done ==> out@ == bookmarks_of(s@),
        decreases n - pos + (if done { 0int } else { 1int }),
    {
        let (end, next) = next_comma_piece(&c, pos);
        let ghost ps = split_commas(c@.subrange(pos as int, n as int));
        let ghost prev = out@;
        assert(ps[0] == c@.subrange(pos as int, end as int));
        let (a, b) = trim_range(&c, pos, end);
        let parsed = parse_i32_range(&c, a, b);
        match parsed {
            Some(v) => {
                out.push(v);
            },
            None => {},
        }
        assert(out@ == prev + (match parse_i32(trim(ps[0])) {
            Some(bm) => seq![bm],
            None => Seq::<i32>::empty(),
        }));
        match next {
            Some(nx) => {
                assert(ps.drop_first() == split_commas(c@.subrange(nx as int, n as int)));
                assert(out@ + bookmarks_from_pieces(ps.drop_first()) == prev + bookmarks_from_pieces(ps));
                pos = nx;
            },
            None => {
                assert(ps.drop_first() == Seq::<Seq<char>>::empty());
                assert(bookmarks_from_pieces(ps.drop_first()) == Seq::<i32>::empty());
                assert(out@ + bookmarks_from_pieces(ps.drop_first()) == prev + bookmarks_from_pieces(ps));
                assert(out@ + Seq::<i32>::empty() =~= out@);
                done = true;
            },
        }
    }
    out
}

/// A decimal spelling holds no comma and no whitespace, and starts and
/// ends with a non-whitespace character.
pub proof fn lemma_decimal_shape(n: i32)
    ensures
        int_decimal(n as int).len() >= 1,
        forall|i: int| 0 <= i < int_decimal(n as int).len() ==> #[trigger] int_decimal(n as int)[i] != ','
            && !is_whitespace(int_decimal(n as int)[i]),
{
    if n < 0 {
        lemma_nat_decimal((-n) as nat);
        let d = nat_decimal((-n) as nat);
        assert forall|i: int| 0 <= i < (seq!['-'] + d).len() implies #[trigger] (seq!['-'] + d)[i] != ','
            && !is_whitespace((seq!['-'] + d)[i]) by {
            if i > 0 {
                assert((seq!['-'] + d)[i] == d[i - 1]);
                assert(is_digit(d[i - 1]));
            }
        }
    } else {
        lemma_nat_decimal(n as nat);
        let d = nat_decimal(n as nat);
        assert forall|i: int| 0 <= i < d.len() implies #[trigger] d[i] != ',' && !is_whitespace(d[i]) by {
            assert(is_digit(d[i]));
        }
    }
}

/// A decimal spelling is its own trim.
proof fn lemma_trim_decimal(n: i32)
    ensures
        trim(int_decimal(n as int)) == int_decimal(n as int),
{
    lemma_decimal_shape(n);
    let d = int_decimal(n as int);
    assert(!is_whitespace(d[0]));
    assert(!is_whitespace(d[d.len() - 1]));
    assert(crate::text::trim_start(d) == d);
    assert(crate::text::trim_end(d) == d);
}

/// Reading back the bookmarks column gives the bookmark times that were
/// written, in order.
pub proof fn lemma_bookmarks_round_trip(v: Seq<i32>)
    ensures
        bookmarks_of(join_decimals(v)) == v,
    decreases v.len(),
{
    if v.len() == 0 {
        let e = Seq::<char>::empty();
        lemma_split_single(e);
        assert(trim(e) == e);
        assert(parse_i32(e) is None);
        assert(split_commas(e).drop_first() == Seq::<Seq<char>>::empty());
        assert(split_commas(e)[0] == e);
        assert(bookmarks_from_pieces(split_commas(e)) == Seq::<i32>::empty() + bookmarks_from_pieces(Seq::<Seq<char>>::empty()));
        assert(v =~= Seq::<i32>::empty());
    } else {
        let d = int_decimal(v[0] as int);
        lemma_decimal_shape(v[0]);
        lemma_trim_decimal(v[0]);
        lemma_parse_i32_decimal(v[0]);
        if v.len() == 1 {
            lemma_split_single(d);
            assert(join_decimals(v) == d);
            assert(seq![d].drop_first() == Seq::<Seq<char>>::empty());
            assert(seq![d][0] == d);
            assert(bookmarks_from_pieces(seq![d]) == seq![v[0]] + bookmarks_from_pieces(Seq::<Seq<char>>::empty()));
            assert(seq![v[0]] + Seq::<i32>::empty() =~= v);
        } else {
            lemma_bookmarks_round_trip(v.drop_first());
            lemma_split_after_piece(d, join_decimals(v.drop_first()));
            let ps = seq![d] + split_commas(join_decimals(v.drop_first()));
            assert(join_decimals(v) == d + seq![','] + join_decimals(v.drop_first()));
            assert(ps.drop_first() == split_commas(join_decimals(v.drop_first())));
            assert(ps[0] == d);
            assert(bookmarks_from_pieces(ps) == seq![v[0]] + bookmarks_from_pieces(ps.drop_first()));
            assert(seq![v[0]] + v.drop_first() =~= v);
        }
    }
}

/// An RGBA colour.
#[derive(Debug, Clone, Copy, PartialEq, Eq, Structural)]
pub struct Color {
    pub red: u8,
    pub green: u8,
    pub blue: u8,
    pub alpha: u8,
}

/// A named custom colour (slider track, slider border, ...).
#[derive(Debug, PartialEq)]
pub struct CustomColor {
    pub name: String,
    pub color: Color,
}

/// The opaque colour of a colours-table row (each channel truncated to a byte).
pub open spec fn color_of_row(c: ComboColorRow) -> Color {
    Color { red: c.red as u8, green: c.green as u8, blue: c.blue as u8, alpha: 255 }
}

/// The row is a combo colour of the given beatmap file.
pub open spec fn is_combo_color_row(c: ComboColorRow, folder: Seq<char>, file: Seq<char>) -> bool {
    c.folder_id@ == folder && c.osu_file@ == file && c.color_type@ == "combo"@
}

/// The row is a named custom colour of the given beatmap file.
pub open spec fn is_custom_color_row(c: ComboColorRow, folder: Seq<char>, file: Seq<char>) -> bool {
    c.folder_id@ == folder && c.osu_file@ == file && c.color_type@ == "custom"@ && c.custom_name is Some
}

/// The combo colours of a beatmap file, in table order.
pub open spec fn combo_colors_of(rows: Seq<ComboColorRow>, folder: Seq<char>, file: Seq<char>) -> Seq<Color> {
    rows.filter(combo_row_selector(folder, file)).map_values(
        |c: ComboColorRow| color_of_row(c),
    )
}

/// The named custom colour rows of a beatmap file, in table order.
pub open spec fn custom_color_rows_of(rows: Seq<ComboColorRow>, folder: Seq<char>, file: Seq<char>) -> Seq<ComboColorRow> {
    rows.filter(custom_row_selector(folder, file))
}

/// Selects the combo colour rows of a beatmap file.
pub open spec fn combo_row_selector(folder: Seq<char>, file: Seq<char>) -> spec_fn(ComboColorRow) -> bool {
    |c: ComboColorRow| is_combo_color_row(c, folder, file)
}

/// Selects the named custom colour rows of a beatmap file.
pub open spec fn custom_row_selector(folder: Seq<char>, file: Seq<char>) -> spec_fn(ComboColorRow) -> bool {
    |c: ComboColorRow| is_custom_color_row(c, folder, file)
}

/// A reconstructed hit sample (the fields a beatmap file stores).
#[derive(Debug, PartialEq)]
pub struct HitSampleInfo {
    pub name: HitSampleName,
    pub bank: SampleBank,
    /// The custom sample suffix; never zero.
    pub suffix: Option<u32>,
    pub volume: i32,
    pub custom_sample_bank: i32,
    pub bank_specified: bool,
    pub is_layered: bool,
}

/// The suffix read from the stored suffix text: its value when it parses
/// as a non-zero `u32`.
pub open spec fn suffix_of(s: Option<String>) -> Option<u32> {
    match s {
        Some(t) => match parse_u32(t@) {
            Some(v) => if v != 0 { Some(v) } else { None },
            None => None,
        },
        None => None,
    }
}

/// `out` is the hit sample that row `hs` stores.
pub open spec fn sample_from_row(out: HitSampleInfo, hs: HitSampleRow) -> bool {
    &&& hit_sample_name_from_spec(hs.name@, out.name)
    &&& out.bank == sample_bank_from_name_spec(hs.bank@)
    &&& out.suffix == suffix_of(hs.suffix)
    &&& out.volume == hs.volume
    &&& out.custom_sample_bank == 0
    &&& out.bank_specified
    &&& !out.is_layered
}

/// The row is a sample of hit object `index` of the given beatmap file.
pub open spec fn is_sample_of(hs: HitSampleRow, folder: Seq<char>, file: Seq<char>, index: i32) -> bool {
    hs.folder_id@ == folder && hs.osu_file@ == file && hs.hit_object_index == index
}

/// Selects the sample rows of hit object `index` of a beatmap file.
pub open spec fn sample_selector(folder: Seq<char>, file: Seq<char>, index: i32) -> spec_fn(HitSampleRow) -> bool {
    |hs: HitSampleRow| is_sample_of(hs, folder, file, index)
}

/// The sample indices of a list of sample rows.
pub open spec fn sample_keys(rows: Seq<HitSampleRow>) -> Seq<i32> {
    rows.map_values(|hs: HitSampleRow| hs.sample_index)
}

impl BeatmapReconstructor {
    /// The combo colours of one beatmap file: its `combo` rows in table
    /// order, each channel truncated to a byte, fully opaque.
    pub fn combo_colors(rows: &[ComboColorRow], folder_id: &str, osu_file: &str) -> (r: Vec<Color>)
        ensures
            r@ == combo_colors_of(rows@, folder_id@, osu_file@),
    {
        let ghost pred = combo_row_selector(folder_id@, osu_file@);
        let ghost f = |c: ComboColorRow| color_of_row(c);
        let mut out: Vec<Color> = Vec::new();
        let mut i: usize = 0;
        while i < rows.len()
            invariant
                0 <= i <= rows@.len(),
                pred == combo_row_selector(folder_id@, osu_file@),
                f == (|c: ComboColorRow| color_of_row(c)),
                out@ == rows@.take(i as int).filter(pred).map_values(f),
            decreases rows@.len() - i,
        {
            let c = &rows[i];
            proof {
                lemma_filter_take_step(rows@, pred, i as int);
            }
            if str_eq(c.folder_id.as_str(), folder_id) && str_eq(c.osu_file.as_str(), osu_file)
                && str_eq(c.color_type.as_str(), "combo") {
                out.push(Color { red: c.red as u8, green: c.green as u8, blue: c.blue as u8, alpha: 255 });
                assert(pred(rows@[i as int]));
                assert(rows@.take(i + 1).filter(pred).map_values(f) =~= rows@.take(i as int).filter(
                    pred,
                ).map_values(f).push(f(rows@[i as int])));
            } else {
                assert(!pred(rows@[i as int]));
            }
            i = i + 1;
        }
        assert(rows@.take(rows@.len() as int) == rows@);
        out
    }

    /// The named custom colours of one beatmap file: its `custom` rows that
    /// carry a name, in table order, each channel truncated to a byte, opaque.
    pub fn custom_colors(rows: &[ComboColorRow], folder_id: &str, osu_file: &str) -> (r: Vec<CustomColor>)
        ensures
            r@.len() == custom_color_rows_of(rows@, folder_id@, osu_file@).len(),
            forall|k: int| 0 <= k < r@.len() ==> {
                let row = #[trigger] custom_color_rows_of(rows@, folder_id@, osu_file@)[k];
                &&& r@[k].name == row.custom_name->0
                &&& r@[k].color == color_of_row(row)
            },
    {
        let ghost pred = custom_row_selector(folder_id@, osu_file@);
        let mut out: Vec<CustomColor> = Vec::new();
        let mut i: usize = 0;
        while i < rows.len()
            invariant
                0 <= i <= rows@.len(),
                pred == custom_row_selector(folder_id@, osu_file@),
                out@.len() == rows@.take(i as int).filter(pred).len(),
                forall|k: int| 0 <= k < out@.len() ==> {
                    let row = #[trigger] rows@.take(i as int).filter(pred)[k];
                    &&& out@[k].name == row.custom_name->0
                    &&& out@[k].color == color_of_row(row)
                },
            decreases rows@.len() - i,
        {
            let c = &rows[i];
            proof {
                lemma_filter_take_step(rows@, pred, i as int);
            }
            if str_eq(c.folder_id.as_str(), folder_id) && str_eq(c.osu_file.as_str(), osu_file)
                && str_eq(c.color_type.as_str(), "custom") {
                match &c.custom_name {
                    Some(name) => {
                        out.push(CustomColor {
                            name: name.clone(),
                            color: Color { red: c.red as u8, green: c.green as u8, blue: c.blue as u8, alpha: 255 },
                        });
                        assert(pred(rows@[i as int]));
                    },
                    None => {
                        assert(!pred(rows@[i as int]));
                    },
                }
            } else {
                assert(!pred(rows@[i as int]));
            }
            i = i + 1;
        }
        assert(rows@.take(rows@.len() as int) == rows@);
        out
    }

    /// Rebuilds the hit sample that a hit samples row stores.
    pub fn reconstruct_hit_sample(hs: &HitSampleRow) -> (r: HitSampleInfo)
        ensures
            sample_from_row(r, *hs),
    {
        let name = Self::hit_sample_name_from(hs.name.as_str());
        let bank = Self::sample_bank_from_name(hs.bank.as_str());
        let suffix: Option<u32> = match &hs.suffix {
            Some(t) => {
                let cs = str_chars(t.as_str());
                assert(cs@.subrange(0, cs@.len() as int) == cs@);
                match parse_u32_range(&cs, 0, cs.len()) {
                    Some(v) => if v != 0 { Some(v) } else { None },
                    None => None,
                }
            },
            None => None,
        };
        HitSampleInfo {
            name,
            bank,
            suffix,
            volume: hs.volume,
            custom_sample_bank: 0,
            bank_specified: true,
            is_layered: false,
        }
    }

    /// The hit samples of one hit object: the rows of that object of the
    /// given beatmap file, stably ordered by sample index, each rebuilt.
    pub fn hit_samples_for(rows: &[HitSampleRow], folder_id: &str, osu_file: &str, index: i32) -> (r: Vec<HitSampleInfo>)
        ensures
            ({
                let own = rows@.filter(sample_selector(folder_id@, osu_file@, index));
                exists|ord: Seq<usize>|
                    {
                        &&& is_stable_order(sample_keys(own), ord)
                        &&& r@.len() == ord.len()
                        &&& forall|k: int| 0 <= k < r@.len() ==> sample_from_row(#[trigger] r@[k], own[ord[k] as int])
                    }
            }),
    {
        let ghost pred = sample_selector(folder_id@, osu_file@, index);
        let mut own: Vec<usize> = Vec::new();
        let mut keys: Vec<i32> = Vec::new();
        let mut i: usize = 0;
        while i < rows.len()
            invariant
                0 <= i <= rows@.len(),
                pred == sample_selector(folder_id@, osu_file@, index),
                own@.len() == rows@.take(i as int).filter(pred).len(),
                keys@.len() == own@.len(),
                forall|k: int| 0 <= k < own@.len() ==> #[trigger] own@[k] < rows@.len()
                    && rows@[own@[k] as int] == rows@.take(i as int).filter(pred)[k]
                    && keys@[k] == rows@[own@[k] as int].sample_index,
            decreases rows@.len() - i,
        {
            let hs = &rows[i];
            proof {
                lemma_filter_take_step(rows@, pred, i as int);
            }
            if hs.hit_object_index == index && str_eq(hs.folder_id.as_str(), folder_id) && str_eq(
                hs.osu_file.as_str(),
                osu_file,
            ) {
                own.push(i);
                keys.push(hs.sample_index);
                assert(pred(rows@[i as int]));
            } else {
                assert(!pred(rows@[i as int]));
            }
            i = i + 1;
        }
        assert(rows@.take(rows@.len() as int) == rows@);
        let ghost filtered = rows@.filter(pred);
        assert(rows@.take(rows@.len() as int).filter(pred) == filtered);
        assert forall|m: int| 0 <= m < keys@.len() implies keys@[m] == sample_keys(filtered)[m] by {
            assert(own@[m] < rows@.len());
        }
        assert(keys@ =~= sample_keys(filtered));
        let ord = stable_order(keys.as_slice());
        let mut out: Vec<HitSampleInfo> = Vec::new();
        let mut k: usize = 0;
        while k < ord.len()
            invariant
                0 <= k <= ord@.len(),
                is_stable_order(keys@, ord@),
                own@.len() == filtered.len() == keys@.len(),
                forall|m: int| 0 <= m < own@.len() ==> #[trigger] own@[m] < rows@.len()
                    && rows@[own@[m] as int] == filtered[m],
                out@.len() == k,
                forall|m: int| 0 <= m < k ==> sample_from_row(#[trigger] out@[m], filtered[ord@[m] as int]),
            decreases ord@.len() - k,
        {
            let pos = ord[k];
            let row_index = own[pos];
            out.push(Self::reconstruct_hit_sample(&rows[row_index]));
            k = k + 1;
        }
        out
    }
}

/// The positions of the rows of one beatmap file, given a table's folder
/// and file columns.
pub open spec fn file_lines(folders: Seq<String>, files: Seq<String>, folder: Seq<char>, file: Seq<char>) -> Seq<int> {
    Seq::new(folders.len(), |i: int| i).filter(of_file(folders, files, folder, file))
}

/// Line `i` of the folder and file columns belongs to the given file.
pub open spec fn of_file(folders: Seq<String>, files: Seq<String>, folder: Seq<char>, file: Seq<char>) -> spec_fn(int) -> bool {
    |i: int| folders[i]@ == folder && files[i]@ == file
}

/// The point indices of the given rows.
pub open spec fn point_keys(point_index: Seq<i32>, rows: Seq<usize>) -> Seq<i32> {
    rows.map_values(|l: usize| point_index[l as int])
}

/// Where and as what a hit object row is rebuilt.
#[derive(Debug, Clone, Copy, PartialEq, Eq, Structural)]
pub struct HitObjectPlacement {
    pub kind: HitObjectKind,
    /// Horizontal position (the only one a mania hold note has).
    pub x: i32,
    /// Vertical position.
    pub y: i32,
}

/// The placement of a hit object row: its kind by name, at its stored
/// position, with the playfield centre (256, 192) standing in for a
/// spinner's missing coordinates and 0 for the others; a slider is rebuilt
/// only with its slider data, and a row of unknown kind is dropped.
pub open spec fn placement_of(object_type: Seq<char>, pos_x: Option<i32>, pos_y: Option<i32>, has_slider_data: bool) -> Option<HitObjectPlacement> {
    match hit_object_kind_from_name_spec(object_type) {
        None => None,
        Some(HitObjectKind::Slider) => if has_slider_data {
            Some(HitObjectPlacement { kind: HitObjectKind::Slider, x: pos_x.unwrap_or(0), y: pos_y.unwrap_or(0) })
        } else {
            None
        },
        Some(HitObjectKind::Spinner) => Some(HitObjectPlacement { kind: HitObjectKind::Spinner, x: pos_x.unwrap_or(256), y: pos_y.unwrap_or(192) }),
        Some(k) => Some(HitObjectPlacement { kind: k, x: pos_x.unwrap_or(0), y: pos_y.unwrap_or(0) }),
    }
}

impl BeatmapReconstructor {
    /// The positions of the rows of one beatmap file in a table, in order.
    pub fn lines_of_file(folder_ids: &[String], osu_files: &[String], folder_id: &str, osu_file: &str) -> (r: Vec<usize>)
        requires
            osu_files@.len() == folder_ids@.len(),
        ensures
            r@.len() == file_lines(folder_ids@, osu_files@, folder_id@, osu_file@).len(),
            forall|k: int| 0 <= k < r@.len() ==> #[trigger] r@[k] == file_lines(folder_ids@, osu_files@, folder_id@, osu_file@)[k],
    {
        let n = folder_ids.len();
        let ghost all = Seq::new(n as nat, |i: int| i);
        let ghost pred = of_file(folder_ids@, osu_files@, folder_id@, osu_file@);
        let mut out: Vec<usize> = Vec::new();
        let mut i: usize = 0;
        while i < n
            invariant
                0 <= i <= n == folder_ids@.len() == osu_files@.len(),
                all == Seq::new(n as nat, |i: int| i),
                pred == of_file(folder_ids@, osu_files@, folder_id@, osu_file@),
                out@.len() == all.take(i as int).filter(pred).len(),
                forall|k: int| 0 <= k < out@.len() ==> #[trigger] out@[k] == all.take(i as int).filter(pred)[k],
            decreases n - i,
        {
            proof {
                lemma_filter_take_step(all, pred, i as int);
            }
            if str_eq(folder_ids[i].as_str(), folder_id) && str_eq(osu_files[i].as_str(), osu_file) {
                assert(pred(all[i as int]));
                out.push(i);
            } else {
                assert(!pred(all[i as int]));
            }
            i = i + 1;
        }
        assert(all.take(n as int) == all);
        out
    }

    /// The slider data row of hit object `index` among the rows `lines` of
    /// a beatmap file: the last of them for that object, as a lookup table
    /// built from the rows in order keeps it.
    pub fn slider_data_line(hit_object_index: &[i32], lines: &[usize], index: i32) -> (r: Option<usize>)
        requires
            forall|k: int| 0 <= k < lines@.len() ==> #[trigger] lines@[k] < hit_object_index@.len(),
        ensures
            match r {
                Some(l) => exists|k: int| 0 <= k < lines@.len() && #[trigger] lines@[k] == l
                    && hit_object_index@[l as int] == index
                    && forall|j: int| k < j < lines@.len() ==> hit_object_index@[#[trigger] lines@[j] as int] != index,
                None => forall|k: int| 0 <= k < lines@.len() ==> hit_object_index@[#[trigger] lines@[k] as int] != index,
            },
    {
        let mut i: usize = lines.len();
        while i > 0
            invariant
                0 <= i <= lines@.len(),
                forall|k: int| 0 <= k < lines@.len() ==> #[trigger] lines@[k] < hit_object_index@.len(),
                forall|j: int| i <= j < lines@.len() ==> hit_object_index@[#[trigger] lines@[j] as int] != index,
            decreases i,
        {
            let l = lines[i - 1];
            if hit_object_index[l] == index {
                assert(lines@[i - 1] == l);
                return Some(l);
            }
            i = i - 1;
        }
        None
    }

    /// The control point rows of hit object `index` among the rows `lines`
    /// of a beatmap file, stably ordered by point index.
    pub fn control_point_lines(hit_object_index: &[i32], point_index: &[i32], lines: &[usize], index: i32) -> (r: Vec<usize>)
        requires
            point_index@.len() == hit_object_index@.len(),
            forall|k: int| 0 <= k < lines@.len() ==> #[trigger] lines@[k] < hit_object_index@.len(),
        ensures
            ({
                let own = lines@.filter(|l: usize| hit_object_index@[l as int] == index);
                exists|ord: Seq<usize>|
                    {
                        &&& is_stable_order(point_keys(point_index@, own), ord)
                        &&& r@.len() == ord.len()
                        &&& forall|k: int| 0 <= k < r@.len() ==> #[trigger] r@[k] == own[ord[k] as int]
                    }
            }),
    {
        let ghost pred = |l: usize| hit_object_index@[l as int] == index;
        let mut own: Vec<usize> = Vec::new();
        let mut keys: Vec<i32> = Vec::new();
        let mut i: usize = 0;
        while i < lines.len()
            invariant
                0 <= i <= lines@.len(),
                point_index@.len() == hit_object_index@.len(),
                forall|k: int| 0 <= k < lines@.len() ==> #[trigger] lines@[k] < hit_object_index@.len(),
                pred == (|l: usize| hit_object_index@[l as int] == index),
                own@ == lines@.take(i as int).filter(pred),
                keys@ == point_keys(point_index@, own@),
            decreases lines@.len() - i,
        {
            proof {
                lemma_filter_take_step(lines@, pred, i as int);
            }
            let l = lines[i];
            if hit_object_index[l] == index {
                let ghost prev = own@;
                own.push(l);
                keys.push(point_index[l]);
                assert(point_keys(point_index@, own@) =~= point_keys(point_index@, prev).push(point_index@[l as int]));
            }
            i = i + 1;
        }
        assert(lines@.take(lines@.len() as int) == lines@);
        assert(own@ == lines@.filter(pred));
        assert(pred =~= (|l: usize| hit_object_index@[l as int] == index));
        assert(lines@.filter(pred) == lines@.filter(|l: usize| hit_object_index@[l as int] == index));
        let ord = stable_order(keys.as_slice());
        let mut out: Vec<usize> = Vec::new();
        let mut k: usize = 0;
        while k < ord.len()
            invariant
                0 <= k <= ord@.len(),
                is_stable_order(keys@, ord@),
                keys@.len() == own@.len(),
                keys@ == point_keys(point_index@, own@),
                own@ == lines@.filter(|l: usize| hit_object_index@[l as int] == index),
                out@.len() == k,
                forall|m: int| 0 <= m < k ==> #[trigger] out@[m] == own@[ord@[m] as int],
            decreases ord@.len() - k,
        {
            out.push(own[ord[k]]);
            k = k + 1;
        }
        assert(is_stable_order(point_keys(point_index@, own@), ord@) && out@.len() == ord@.len()
            && forall|k: int| 0 <= k < out@.len() ==> #[trigger] out@[k] == own@[ord@[k] as int]);
        out
    }

    /// Decides how a hit object row is rebuilt (see `placement_of`).
    pub fn reconstruct_hit_object(object_type: &str, pos_x: Option<i32>, pos_y: Option<i32>, has_slider_data: bool) -> (r: Option<HitObjectPlacement>)
        ensures
            r == placement_of(object_type@, pos_x, pos_y, has_slider_data),
    {
        match Self::hit_object_kind_from_name(object_type) {
            None => None,
            Some(HitObjectKind::Slider) => if has_slider_data {
                Some(HitObjectPlacement { kind: HitObjectKind::Slider, x: pos_x.unwrap_or(0), y: pos_y.unwrap_or(0) })
            } else {
                None
            },
            Some(HitObjectKind::Spinner) => Some(HitObjectPlacement { kind: HitObjectKind::Spinner, x: pos_x.unwrap_or(256), y: pos_y.unwrap_or(192) }),
            Some(k) => Some(HitObjectPlacement { kind: k, x: pos_x.unwrap_or(0), y: pos_y.unwrap_or(0) }),
        }
    }
}

/// `row` is the colours-table row written for colour `c` of a beatmap
/// file: its position among colours of its kind, the kind, the name of a
/// custom colour, and the red, green and blue channels.
pub open spec fn is_color_row_for(
    row: ComboColorRow,
    folder: Seq<char>,
    file: Seq<char>,
    index: int,
    kind: Seq<char>,
    name: Option<Seq<char>>,
    c: Color,
) -> bool {
    &&& row.folder_id@ == folder
    &&& row.osu_file@ == file
    &&& row.color_index == index as i32
    &&& row.color_type@ == kind
    &&& match name {
        Some(n) => row.custom_name matches Some(s) && s@ == n,
        None => row.custom_name is None,
    }
    &&& row.red == c.red as i32
    &&& row.green == c.green as i32
    &&& row.blue == c.blue as i32
}

/// `rows` are the colour rows written for a beatmap file: its combo
/// colours in order, then its named custom colours in order.
pub open spec fn are_color_rows_of(
    rows: Seq<ComboColorRow>,
    folder: Seq<char>,
    file: Seq<char>,
    combo: Seq<Color>,
    custom: Seq<CustomColor>,
) -> bool {
    &&& rows.len() == combo.len() + custom.len()
    &&& forall|k: int| 0 <= k < combo.len() ==> is_color_row_for(rows[k], folder, file, k, "combo"@, None, #[trigger] combo[k])
    &&& forall|k: int| 0 <= k < custom.len() ==> is_color_row_for(rows[combo.len() + k], folder, file, k, "custom"@,
        Some(custom[k].name@), (#[trigger] custom[k]).color)
}

/// The colour rows the dataset builder writes for a beatmap file: one row
/// per combo colour, then one per named custom colour.
pub fn combo_color_rows(folder_id: &str, osu_file: &str, combo: &[Color], custom: &[CustomColor]) -> (r: Vec<ComboColorRow>)
    ensures
        are_color_rows_of(r@, folder_id@, osu_file@, combo@, custom@),
{
    let mut out: Vec<ComboColorRow> = Vec::new();
    let mut i: usize = 0;
    while i < combo.len()
        invariant
            0 <= i <= combo@.len(),
            out@.len() == i,
            forall|k: int| 0 <= k < i ==> is_color_row_for(out@[k], folder_id@, osu_file@, k, "combo"@, None, #[trigger] combo@[k]),
        decreases combo@.len() - i,
    {
        let c = combo[i];
        out.push(ComboColorRow {
            folder_id: folder_id.to_owned(),
            osu_file: osu_file.to_owned(),
            color_index: i as i32,
            color_type: "combo".to_owned(),
            custom_name: None,
            red: c.red as i32,
            green: c.green as i32,
            blue: c.blue as i32,
        });
        proof {
            reveal_strlit("combo");
        }
        i = i + 1;
    }
    let base = out.len();
    let mut j: usize = 0;
    while j < custom.len()
        invariant
            0 <= j <= custom@.len(),
            base == combo@.len(),
            out@.len() == base + j,
            forall|k: int| 0 <= k < combo@.len() ==> is_color_row_for(out@[k], folder_id@, osu_file@, k, "combo"@, None, #[trigger] combo@[k]),
            forall|k: int| 0 <= k < j ==> is_color_row_for(out@[base + k], folder_id@, osu_file@, k, "custom"@,
                Some(custom@[k].name@), (#[trigger] custom@[k]).color),
        decreases custom@.len() - j,
    {
        let cc = &custom[j];
        out.push(ComboColorRow {
            folder_id: folder_id.to_owned(),
            osu_file: osu_file.to_owned(),
            color_index: j as i32,
            color_type: "custom".to_owned(),
            custom_name: Some(cc.name.clone()),
            red: cc.color.red as i32,
            green: cc.color.green as i32,
            blue: cc.color.blue as i32,
        });
        proof {
            reveal_strlit("custom");
        }
        j = j + 1;
    }
    out
}

/// Colours written for a beatmap file are read back: in a colours table
/// that holds the file's rows as written, with the rows of other files
/// around them, the combo colours read are the opaque combo colours that
/// were written, and the custom colour rows read are those written for its
/// named custom colours, in order, each with its name and colour.
pub proof fn lemma_color_rows_round_trip(
    before: Seq<ComboColorRow>,
    rows: Seq<ComboColorRow>,
    after: Seq<ComboColorRow>,
    folder: Seq<char>,
    file: Seq<char>,
    combo: Seq<Color>,
    custom: Seq<CustomColor>,
)
    requires
        are_color_rows_of(rows, folder, file, combo, custom),
        forall|k: int| 0 <= k < combo.len() ==> (#[trigger] combo[k]).alpha == 255,
        forall|k: int| 0 <= k < custom.len() ==> (#[trigger] custom[k]).color.alpha == 255,
        forall|k: int| 0 <= k < before.len() ==> !((#[trigger] before[k]).folder_id@ == folder && before[k].osu_file@ == file),
        forall|k: int| 0 <= k < after.len() ==> !((#[trigger] after[k]).folder_id@ == folder && after[k].osu_file@ == file),
    ensures
        combo_colors_of(before + rows + after, folder, file) == combo,
        custom_color_rows_of(before + rows + after, folder, file).len() == custom.len(),
        forall|k: int| 0 <= k < custom.len() ==> {
            let row = #[trigger] custom_color_rows_of(before + rows + after, folder, file)[k];
            &&& row.custom_name->0@ == custom[k].name@
            &&& color_of_row(row) == custom[k].color
        },
{
    reveal_strlit("combo");
    reveal_strlit("custom");
    let p = |c: ComboColorRow| is_combo_color_row(c, folder, file);
    let q = |c: ComboColorRow| is_custom_color_row(c, folder, file);
    let n = combo.len() as int;
    let head = rows.take(n);
    let tail = rows.skip(n);
    assert(rows == head + tail);
    assert forall|i: int| 0 <= i < before.len() implies !p(#[trigger] before[i]) && !q(before[i]) by {}
    assert forall|i: int| 0 <= i < after.len() implies !p(#[trigger] after[i]) && !q(after[i]) by {}
    assert forall|i: int| 0 <= i < head.len() implies p(#[trigger] head[i]) && !q(head[i]) by {
        assert(head[i] == rows[i]);
        assert(is_color_row_for(rows[i], folder, file, i, "combo"@, None, combo[i]));
    }
    assert forall|i: int| 0 <= i < tail.len() implies !p(#[trigger] tail[i]) && q(tail[i]) by {
        assert(tail[i] == rows[n + i]);
        assert(is_color_row_for(rows[n + i], folder, file, i, "custom"@, Some(custom[i].name@), custom[i].color));
        assert(tail[i].color_type@ == "custom"@);
        assert("custom"@.len() == 6);
        assert(tail[i].custom_name is Some);
        assert(q(tail[i]));
    }
    lemma_filter_none(before, p);
    lemma_filter_none(after, p);
    lemma_filter_all(head, p);
    lemma_filter_none(tail, p);
    lemma_filter_none(before, q);
    lemma_filter_none(after, q);
    lemma_filter_none(head, q);
    lemma_filter_all(tail, q);
    Seq::filter_distributes_over_add(before + head, tail, p);
    Seq::filter_distributes_over_add(before, head, p);
    Seq::filter_distributes_over_add(before + head + tail, after, p);
    Seq::filter_distributes_over_add(before + head, tail, q);
    Seq::filter_distributes_over_add(before, head, q);
    Seq::filter_distributes_over_add(before + head + tail, after, q);
    assert(before + rows + after == before + head + tail + after);
    assert((before + rows + after).filter(p) == head);
    assert((before + rows + after).filter(q) == tail);
    let f = |c: ComboColorRow| color_of_row(c);
    assert forall|k: int| 0 <= k < n implies (#[trigger] head.map_values(f)[k]) == combo[k] by {
        assert(head[k] == rows[k]);
        assert(is_color_row_for(rows[k], folder, file, k, "combo"@, None, combo[k]));
    }
    assert(head.map_values(f) =~= combo);
    assert forall|k: int| 0 <= k < custom.len() implies {
        let row = #[trigger] custom_color_rows_of(before + rows + after, folder, file)[k];
        &&& row.custom_name->0@ == custom[k].name@
        &&& color_of_row(row) == custom[k].color
    } by {
        assert(tail[k] == rows[n + k]);
        assert(is_color_row_for(rows[n + k], folder, file, k, "custom"@, Some(custom[k].name@), custom[k].color));
    }
}

/// `row` is the hit samples row written for sample `sample_index` of hit
/// object `object_index` of a beatmap file: the sample's name as given,
/// its bank's name, its suffix in decimal, and its volume.
pub open spec fn is_sample_row_for(
    row: HitSampleRow,
    folder: Seq<char>,
    file: Seq<char>,
    object_index: int,
    sample_index: int,
    name: Seq<char>,
    bank: SampleBank,
    suffix: Option<u32>,
    volume: i32,
) -> bool {
    &&& row.folder_id@ == folder
    &&& row.osu_file@ == file
    &&& row.hit_object_index == object_index as i32
    &&& row.sample_index == sample_index as i32
    &&& row.name@ == name
    &&& row.bank@ == sample_bank_name_spec(bank)
    &&& match suffix {
        Some(n) => row.suffix matches Some(t) && t@ == nat_decimal(n as nat),
        None => row.suffix is None,
    }
    &&& row.volume == volume
}

/// The hit samples row the dataset builder writes for one sample of one
/// hit object; `name` is the sample name as the beatmap parser prints it.
pub fn hit_sample_row(
    folder_id: &str,
    osu_file: &str,
    object_index: usize,
    sample_index: usize,
    name: &str,
    bank: SampleBank,
    suffix: Option<u32>,
    volume: i32,
) -> (r: HitSampleRow)
    ensures
        is_sample_row_for(r, folder_id@, osu_file@, object_index as int, sample_index as int, name@, bank, suffix, volume),
{
    let suffix_text: Option<String> = match suffix {
        Some(n) => {
            let mut v: Vec<char> = Vec::new();
            crate::text::push_decimal_u64(&mut v, n as u64);
            assert(v@ == Seq::<char>::empty() + nat_decimal(n as nat));
            Some(string_from_chars(v))
        },
        None => None,
    };
    HitSampleRow {
        folder_id: folder_id.to_owned(),
        osu_file: osu_file.to_owned(),
        hit_object_index: object_index as i32,
        sample_index: sample_index as i32,
        name: name.to_owned(),
        bank: sample_bank_name(bank).to_owned(),
        suffix: suffix_text,
        volume,
    }
}

/// A hit sample written by the dataset builder is read back with the same
/// bank, suffix and volume (a suffix is never zero).
pub proof fn lemma_hit_sample_round_trip(
    row: HitSampleRow,
    out: HitSampleInfo,
    folder: Seq<char>,
    file: Seq<char>,
    object_index: int,
    sample_index: int,
    name: Seq<char>,
    bank: SampleBank,
    suffix: Option<u32>,
    volume: i32,
)
    requires
        is_sample_row_for(row, folder, file, object_index, sample_index, name, bank, suffix, volume),
        suffix matches Some(n) ==> n != 0,
        sample_from_row(out, row),
    ensures
        out.bank == bank,
        out.suffix == suffix,
        out.volume == volume,
{
    lemma_sample_bank_name_round_trip(bank);
    match suffix {
        Some(n) => {
            crate::text::lemma_parse_u32_decimal(n);
        },
        None => {},
    }
}


/// The codes of the integer columns: sample banks none, normal, soft and
/// drum are 0 to 3; game modes osu!, taiko, catch and mania are 0 to 3;
/// countdowns none, normal, half and double speed are 0 to 3. Reading a
/// code gives back that value; an unknown code reads as no bank, osu!
/// and the normal countdown.
pub proof fn lemma_integer_column_codes(c: i32)
    ensures
        sample_bank_code_spec(SampleBank::Auto) == 0,
        sample_bank_code_spec(SampleBank::Normal) == 1,
        sample_bank_code_spec(SampleBank::Soft) == 2,
        sample_bank_code_spec(SampleBank::Drum) == 3,
        c == 0 ==> sample_bank_from_code_spec(c) == SampleBank::Auto,
        c == 1 ==> sample_bank_from_code_spec(c) == SampleBank::Normal,
        c == 2 ==> sample_bank_from_code_spec(c) == SampleBank::Soft,
        c == 3 ==> sample_bank_from_code_spec(c) == SampleBank::Drum,
        !(0 <= c <= 3) ==> sample_bank_from_code_spec(c) == SampleBank::Auto,
        game_mode_code_spec(GameMode::Osu) == 0,
        game_mode_code_spec(GameMode::Taiko) == 1,
        game_mode_code_spec(GameMode::Catch) == 2,
        game_mode_code_spec(GameMode::Mania) == 3,
        c == 0 ==> game_mode_from_code_spec(c) == GameMode::Osu,
        c == 1 ==> game_mode_from_code_spec(c) == GameMode::Taiko,
        c == 2 ==> game_mode_from_code_spec(c) == GameMode::Catch,
        c == 3 ==> game_mode_from_code_spec(c) == GameMode::Mania,
        !(0 <= c <= 3) ==> game_mode_from_code_spec(c) == GameMode::Osu,
        countdown_code_spec(CountdownType::Disabled) == 0,
        countdown_code_spec(CountdownType::Normal) == 1,
        countdown_code_spec(CountdownType::HalfSpeed) == 2,
        countdown_code_spec(CountdownType::DoubleSpeed) == 3,
        c == 0 ==> countdown_from_code_spec(c) == CountdownType::Disabled,
        c == 1 ==> countdown_from_code_spec(c) == CountdownType::Normal,
        c == 2 ==> countdown_from_code_spec(c) == CountdownType::HalfSpeed,
        c == 3 ==> countdown_from_code_spec(c) == CountdownType::DoubleSpeed,
        !(0 <= c <= 3) ==> countdown_from_code_spec(c) == CountdownType::Normal,
{
}

/// The names of the text columns: banks `None`, `Normal`, `Soft`, `Drum`;
/// hit object kinds `circle`, `slider`, `spinner`, `hold`; timing rows
/// `timing`, `difficulty`, `effect`; slider paths `Bezier`, `Linear`,
/// `Catmull`, `PerfectCurve`. Each name reads back as what it names.
pub proof fn lemma_text_column_names()
    ensures
        sample_bank_name_spec(SampleBank::Auto) == "None"@,
        sample_bank_name_spec(SampleBank::Normal) == "Normal"@,
        sample_bank_name_spec(SampleBank::Soft) == "Soft"@,
        sample_bank_name_spec(SampleBank::Drum) == "Drum"@,
        sample_bank_from_name_spec("None"@) == SampleBank::Auto,
        sample_bank_from_name_spec("Normal"@) == SampleBank::Normal,
        sample_bank_from_name_spec("Soft"@) == SampleBank::Soft,
        sample_bank_from_name_spec("Drum"@) == SampleBank::Drum,
        hit_object_kind_name_spec(HitObjectKind::Circle) == "circle"@,
        hit_object_kind_name_spec(HitObjectKind::Slider) == "slider"@,
        hit_object_kind_name_spec(HitObjectKind::Spinner) == "spinner"@,
        hit_object_kind_name_spec(HitObjectKind::Hold) == "hold"@,
        hit_object_kind_from_name_spec("circle"@) == Some(HitObjectKind::Circle),
        hit_object_kind_from_name_spec("slider"@) == Some(HitObjectKind::Slider),
        hit_object_kind_from_name_spec("spinner"@) == Some(HitObjectKind::Spinner),
        hit_object_kind_from_name_spec("hold"@) == Some(HitObjectKind::Hold),
        timing_point_kind_name_spec(TimingPointKind::Timing) == "timing"@,
        timing_point_kind_name_spec(TimingPointKind::Difficulty) == "difficulty"@,
        timing_point_kind_name_spec(TimingPointKind::Effect) == "effect"@,
        timing_point_kind_from_name_spec("timing"@) == Some(TimingPointKind::Timing),
        timing_point_kind_from_name_spec("difficulty"@) == Some(TimingPointKind::Difficulty),
        timing_point_kind_from_name_spec("effect"@) == Some(TimingPointKind::Effect),
        path_type_from_name_spec("Bezier"@) == Some(PathTypeKind::Bezier),
        path_type_from_name_spec("Linear"@) == Some(PathTypeKind::Linear),
        path_type_from_name_spec("Catmull"@) == Some(PathTypeKind::Catmull),
        path_type_from_name_spec("PerfectCurve"@) == Some(PathTypeKind::PerfectCurve),
{
    lemma_sample_bank_name_round_trip(SampleBank::Auto);
    lemma_sample_bank_name_round_trip(SampleBank::Normal);
    lemma_sample_bank_name_round_trip(SampleBank::Soft);
    lemma_sample_bank_name_round_trip(SampleBank::Drum);
    lemma_hit_object_kind_round_trip(HitObjectKind::Circle);
    lemma_hit_object_kind_round_trip(HitObjectKind::Slider);
    lemma_hit_object_kind_round_trip(HitObjectKind::Spinner);
    lemma_hit_object_kind_round_trip(HitObjectKind::Hold);
    lemma_timing_point_kind_round_trip(TimingPointKind::Timing);
    lemma_timing_point_kind_round_trip(TimingPointKind::Difficulty);
    lemma_timing_point_kind_round_trip(TimingPointKind::Effect);
    reveal_strlit("Bezier");
    reveal_strlit("Linear");
    reveal_strlit("Catmull");
    reveal_strlit("PerfectCurve");
    assert("Linear"@[0] != "Bezier"@[0] && "Catmull"@[0] != "Bezier"@[0] && "Catmull"@[0] != "Linear"@[0]);
    assert("PerfectCurve"@[0] != "Bezier"@[0] && "PerfectCurve"@[0] != "Linear"@[0] && "PerfectCurve"@[0] != "Catmull"@[0]);
}

/// The stored name of a built-in hit sound.
pub open spec fn default_sample_name(d: HitSampleDefaultName) -> Seq<char> {
    match d {
        HitSampleDefaultName::Normal => "Normal"@,
        HitSampleDefaultName::Whistle => "Whistle"@,
        HitSampleDefaultName::Finish => "Finish"@,
        HitSampleDefaultName::Clap => "Clap"@,
    }
}

/// The stored name of each built-in hit sound reads back as that sound.
pub proof fn lemma_default_sample_name_round_trip(d: HitSampleDefaultName)
    ensures
        hit_sample_name_from_spec(default_sample_name(d), HitSampleName::Default(d)),
{
    reveal_strlit("Normal");
    reveal_strlit("Whistle");
    reveal_strlit("Finish");
    reveal_strlit("Clap");
    assert("Whistle"@[0] != "Normal"@[0] && "Finish"@[0] != "Normal"@[0] && "Clap"@[0] != "Normal"@[0]);
    assert("Finish"@[0] != "Whistle"@[0] && "Clap"@[0] != "Whistle"@[0] && "Clap"@[0] != "Finish"@[0]);
}


/// The combo colours of a beatmap file are, in table order, the rows of
/// that folder and file whose type is `combo`, each colour holding the
/// row's red, green and blue channels (truncated to a byte) and fully
/// opaque; the custom colours are the rows of type `custom` that carry a
/// name.
pub proof fn lemma_colors_of_rows(rows: Seq<ComboColorRow>, folder: Seq<char>, file: Seq<char>)
    ensures
        ({
            let sel = rows.filter(combo_row_selector(folder, file));
            let colors = combo_colors_of(rows, folder, file);
            &&& forall|j: int| 0 <= j < sel.len() ==> (#[trigger] sel[j]).folder_id@ == folder && sel[j].osu_file@ == file
                && sel[j].color_type@ == "combo"@
            &&& forall|i: int| 0 <= i < rows.len() && rows[i].folder_id@ == folder && rows[i].osu_file@ == file
                && rows[i].color_type@ == "combo"@ ==> #[trigger] sel.contains(rows[i])
            &&& colors.len() == sel.len()
            &&& forall|j: int| 0 <= j < sel.len() ==> {
                &&& (#[trigger] colors[j]).red == sel[j].red as u8
                &&& colors[j].green == sel[j].green as u8
                &&& colors[j].blue == sel[j].blue as u8
                &&& colors[j].alpha == 255
            }
        }),
        ({
            let sel = custom_color_rows_of(rows, folder, file);
            &&& forall|j: int| 0 <= j < sel.len() ==> (#[trigger] sel[j]).folder_id@ == folder && sel[j].osu_file@ == file
                && sel[j].color_type@ == "custom"@ && sel[j].custom_name is Some
            &&& forall|i: int| 0 <= i < rows.len() && rows[i].folder_id@ == folder && rows[i].osu_file@ == file
                && rows[i].color_type@ == "custom"@ && rows[i].custom_name is Some ==> #[trigger] sel.contains(rows[i])
        }),
{
    let p = combo_row_selector(folder, file);
    let sel = rows.filter(p);
    assert forall|j: int| 0 <= j < sel.len() implies (#[trigger] sel[j]).folder_id@ == folder && sel[j].osu_file@ == file
        && sel[j].color_type@ == "combo"@ by {
        rows.lemma_filter_pred(p, j);
    }
    assert forall|i: int| 0 <= i < rows.len() && rows[i].folder_id@ == folder && rows[i].osu_file@ == file
        && rows[i].color_type@ == "combo"@ implies #[trigger] sel.contains(rows[i]) by {
        rows.lemma_filter_contains(p, i);
    }
    let q = custom_row_selector(folder, file);
    let cus = rows.filter(q);
    assert forall|j: int| 0 <= j < cus.len() implies (#[trigger] cus[j]).folder_id@ == folder && cus[j].osu_file@ == file
        && cus[j].color_type@ == "custom"@ && cus[j].custom_name is Some by {
        rows.lemma_filter_pred(q, j);
    }
    assert forall|i: int| 0 <= i < rows.len() && rows[i].folder_id@ == folder && rows[i].osu_file@ == file
        && rows[i].color_type@ == "custom"@ && rows[i].custom_name is Some implies #[trigger] cus.contains(rows[i]) by {
        rows.lemma_filter_contains(q, i);
    }
}

/// A rebuilt hit sample keeps its row's volume, reads its bank from the
/// bank name, takes the row's non-zero numeric suffix (none otherwise),
/// has its bank given and is not layered.
pub proof fn lemma_sample_from_row_fields(out: HitSampleInfo, hs: HitSampleRow)
    requires
        sample_from_row(out, hs),
    ensures
        out.volume == hs.volume,
        out.bank == sample_bank_from_name_spec(hs.bank@),
        hs.suffix is None ==> out.suffix is None,
        hs.suffix is Some && parse_u32(hs.suffix->0@) is Some && parse_u32(hs.suffix->0@)->0 != 0
            ==> out.suffix == parse_u32(hs.suffix->0@),
        hs.suffix is Some && (parse_u32(hs.suffix->0@) is None || parse_u32(hs.suffix->0@)->0 == 0) ==> out.suffix is None,
        out.custom_sample_bank == 0,
        out.bank_specified,
        !out.is_layered,
{
}

/// Where hit objects are rebuilt: circles, sliders with slider data and
/// mania holds at their stored position (0 for a missing coordinate);
/// spinners at their stored position or else the playfield centre
/// (256, 192); sliders without slider data and rows of unknown kind are
/// not rebuilt.
pub proof fn lemma_hit_object_placements(x: i32, y: i32, kind: Seq<char>, with_data: bool)
    ensures
        placement_of("circle"@, Some(x), Some(y), with_data) == Some(HitObjectPlacement { kind: HitObjectKind::Circle, x, y }),
        placement_of("hold"@, Some(x), Some(y), with_data) == Some(HitObjectPlacement { kind: HitObjectKind::Hold, x, y }),
        placement_of("slider"@, Some(x), Some(y), true) == Some(HitObjectPlacement { kind: HitObjectKind::Slider, x, y }),
        placement_of("slider"@, Some(x), Some(y), false) is None,
        placement_of("spinner"@, Some(x), Some(y), with_data) == Some(HitObjectPlacement { kind: HitObjectKind::Spinner, x, y }),
        placement_of("spinner"@, None, None, with_data) == Some(HitObjectPlacement { kind: HitObjectKind::Spinner, x: 256, y: 192 }),
        placement_of("circle"@, None, None, with_data) == Some(HitObjectPlacement { kind: HitObjectKind::Circle, x: 0, y: 0 }),
        kind != "circle"@ && kind != "slider"@ && kind != "spinner"@ && kind != "hold"@ ==> placement_of(kind, Some(x), Some(y), with_data) is None,
{
    lemma_text_column_names();
}


/// The rows of a beatmap file are exactly the lines whose folder and file
/// columns name it.
pub proof fn lemma_file_lines(folders: Seq<String>, files: Seq<String>, folder: Seq<char>, file: Seq<char>)
    ensures
        forall|k: int| 0 <= k < file_lines(folders, files, folder, file).len() ==> {
            let i = #[trigger] file_lines(folders, files, folder, file)[k];
            0 <= i < folders.len() && folders[i]@ == folder && files[i]@ == file
        },
        forall|i: int| 0 <= i < folders.len() && folders[i]@ == folder && files[i]@ == file
            ==> #[trigger] file_lines(folders, files, folder, file).contains(i),
{
    let all = Seq::new(folders.len(), |i: int| i);
    let p = of_file(folders, files, folder, file);
    let ls = file_lines(folders, files, folder, file);
    assert forall|k: int| 0 <= k < ls.len() implies {
        let i = #[trigger] ls[k];
        0 <= i < folders.len() && folders[i]@ == folder && files[i]@ == file
    } by {
        all.lemma_filter_pred(p, k);
        assert(ls.contains(ls[k]));
        all.lemma_filter_contains_rev(p, ls[k]);
    }
    assert forall|i: int| 0 <= i < folders.len() && folders[i]@ == folder && files[i]@ == file
        implies #[trigger] ls.contains(i) by {
        assert(all[i] == i);
        all.lemma_filter_contains(p, i);
    }
}

/// The hit samples of a hit object are rebuilt from exactly the rows of
/// that folder, beatmap file and hit object index.
pub proof fn lemma_sample_rows_selection(rows: Seq<HitSampleRow>, folder: Seq<char>, file: Seq<char>, index: i32)
    ensures
        forall|j: int| 0 <= j < rows.filter(sample_selector(folder, file, index)).len() ==> {
            let hs = #[trigger] rows.filter(sample_selector(folder, file, index))[j];
            hs.folder_id@ == folder && hs.osu_file@ == file && hs.hit_object_index == index
        },
        forall|i: int| 0 <= i < rows.len() && rows[i].folder_id@ == folder && rows[i].osu_file@ == file
            && rows[i].hit_object_index == index ==> #[trigger] rows.filter(sample_selector(folder, file, index)).contains(rows[i]),
{
    let p = sample_selector(folder, file, index);
    assert forall|j: int| 0 <= j < rows.filter(p).len() implies {
        let hs = #[trigger] rows.filter(p)[j];
        hs.folder_id@ == folder && hs.osu_file@ == file && hs.hit_object_index == index
    } by {
        rows.lemma_filter_pred(p, j);
    }
    assert forall|i: int| 0 <= i < rows.len() && rows[i].folder_id@ == folder && rows[i].osu_file@ == file
        && rows[i].hit_object_index == index implies #[trigger] rows.filter(p).contains(rows[i]) by {
        rows.lemma_filter_contains(p, i);
    }
}

} // verus!
