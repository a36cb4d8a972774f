//! Archive extraction rules: which image files a beatmap refers to, and
//! which entries of a beatmap archive are kept.

use vstd::prelude::*;
use crate::paths::{
    has_extension_ignore_case, is_audio, is_audio_file, is_osb_file, is_osu_file, normalize_path,
    normalized,
};
use crate::sorted::{lemma_contains_push, sort_dedup, strictly_sorted, texts};
use crate::text::{
    all_digits, is_digit, push_str, copy_range, find_char, find_char_range, lines, next_line, range_eq_str,
    range_starts_with_str, starts_with, str_chars, str_eq, string_from_chars, trim, trim_range,
};
use vstd::string::StringSliceAdditionalSpecFns;
use vstd::utf8::{decode_utf8, valid_utf8};

verus! {

/// Image files that a beatmap or storyboard file refers to in its
/// `[Events]` section.
#[derive(Debug)]
pub struct OsuImageRefs {
    /// The background image (the first `0,0,"…"` event).
    pub background: Option<String>,
    /// Images of storyboard sprites and animations, in file order.
    pub storyboard: Vec<String>,
}

/// The characters of an optional string.
pub open spec fn opt_text(o: Option<String>) -> Option<Seq<char>> {
    match o {
        Some(s) => Some(s@),
        None => None,
    }
}

/// The text between the first double quote of `line` and the next one.
pub open spec fn quoted(line: Seq<char>) -> Option<Seq<char>> {
    match find_char(line, '"') {
        None => None,
        Some(start) => match find_char(line.subrange(start + 1, line.len() as int), '"') {
            None => None,
            Some(end) => Some(line.subrange(start + 1, start + 1 + end)),
        },
    }
}

/// A video event, written by name or by its number.
pub open spec fn is_video_event(line: Seq<char>) -> bool {
    starts_with(line, "Video,"@) || starts_with(line, "1,"@)
}

/// A sprite or animation event, written by name or by its number.
pub open spec fn is_image_event(line: Seq<char>) -> bool {
    starts_with(line, "Sprite,"@) || starts_with(line, "4,"@) || starts_with(line, "Animation,"@)
        || starts_with(line, "6,"@)
}

/// Scans the (untrimmed) lines of a file: events start after a line
/// `[Events]` and stop at the next section header; comments, blank lines
/// and video events are skipped; of the other events, the quoted file name
/// of a `0,0,` event becomes the background (the first one only) and the
/// quoted file name of a sprite or animation event is a storyboard image;
/// other events (samples, breaks, colours) name no image.
pub open spec fn image_refs_from(
    ls: Seq<Seq<char>>,
    in_events: bool,
    bg: Option<Seq<char>>,
    sb: Seq<Seq<char>>,
) -> (Option<Seq<char>>, Seq<Seq<char>>)
    decreases ls.len(),
{
    if ls.len() == 0 {
        (bg, sb)
    } else {
        let line = trim(ls[0]);
        let rest = ls.drop_first();
        if line == "[Events]"@ {
            image_refs_from(rest, true, bg, sb)
        } else if in_events && starts_with(line, "["@) {
            (bg, sb)
        } else if !in_events {
            image_refs_from(rest, false, bg, sb)
        } else if line.len() == 0 || starts_with(line, "//"@) || is_video_event(line) {
            image_refs_from(rest, true, bg, sb)
        } else {
            match quoted(line) {
                None => image_refs_from(rest, true, bg, sb),
                Some(name) => if name.len() == 0 {
                    image_refs_from(rest, true, bg, sb)
                } else if starts_with(line, "0,0,"@) {
                    image_refs_from(rest, true, if bg is None { Some(name) } else { bg }, sb)
                } else if is_image_event(line) {
                    image_refs_from(rest, true, bg, sb.push(name))
                } else {
                    image_refs_from(rest, true, bg, sb)
                },
            }
        }
    }
}

/// The image references of a whole file.
pub open spec fn image_refs(content: Seq<char>) -> (Option<Seq<char>>, Seq<Seq<char>>) {
    image_refs_from(lines(content), false, None, Seq::empty())
}

proof fn lemma_first_char(s: Seq<char>, p: Seq<char>)
    requires
        starts_with(s, p),
        p.len() > 0,
    ensures
        s.len() > 0,
        s[0] == p[0],
{
    assert(s.subrange(0, p.len() as int)[0] == s[0]);
}

proof fn lemma_char_at(s: Seq<char>, p: Seq<char>, i: int)
    requires
        starts_with(s, p),
        0 <= i < p.len(),
    ensures
        s[i] == p[i],
{
    assert(s.subrange(0, p.len() as int)[i] == s[i]);
}

proof fn lemma_not_starts(s: Seq<char>, p: Seq<char>)
    requires
        s.len() > 0,
        p.len() > 0,
        s[0] != p[0],
    ensures
        !starts_with(s, p),
{
    if starts_with(s, p) {
        lemma_first_char(s, p);
    }
}

/// Scanning more lines never drops a storyboard image already found, nor
/// a background already found.
pub proof fn lemma_image_refs_keep_found(ls: Seq<Seq<char>>, in_events: bool, bg: Option<Seq<char>>, sb: Seq<Seq<char>>)
    ensures
        sb.len() <= image_refs_from(ls, in_events, bg, sb).1.len(),
        forall|k: int| 0 <= k < sb.len() ==> #[trigger] image_refs_from(ls, in_events, bg, sb).1[k] == sb[k],
        bg is Some ==> image_refs_from(ls, in_events, bg, sb).0 == bg,
    decreases ls.len(),
{
    if ls.len() > 0 {
        let line = trim(ls[0]);
        let rest = ls.drop_first();
        lemma_image_refs_keep_found(rest, true, bg, sb);
        lemma_image_refs_keep_found(rest, false, bg, sb);
        match quoted(line) {
            Some(name) => {
                lemma_image_refs_keep_found(rest, true, bg, sb.push(name));
                lemma_image_refs_keep_found(rest, true, if bg is None { Some(name) } else { bg }, sb);
            },
            None => {},
        }
    }
}

/// In the `[Events]` section, the quoted file name of a sprite or
/// animation event (written by name or by number) becomes a storyboard
/// image.
pub proof fn lemma_sprite_image_found(ls: Seq<Seq<char>>, bg: Option<Seq<char>>, sb: Seq<Seq<char>>, x: Seq<char>)
    requires
        ls.len() > 0,
        starts_with(trim(ls[0]), "Sprite,"@) || starts_with(trim(ls[0]), "Animation,"@) || starts_with(trim(ls[0]), "4,"@)
            || starts_with(trim(ls[0]), "6,"@),
        quoted(trim(ls[0])) == Some(x),
        x.len() > 0,
    ensures
        image_refs_from(ls, true, bg, sb).1.contains(x),
{
    let line = trim(ls[0]);
    reveal_strlit("Sprite,");
    reveal_strlit("Animation,");
    reveal_strlit("4,");
    reveal_strlit("6,");
    reveal_strlit("[Events]");
    reveal_strlit("[");
    reveal_strlit("//");
    reveal_strlit("Video,");
    reveal_strlit("1,");
    reveal_strlit("0,0,");
    if starts_with(line, "Sprite,"@) {
        lemma_first_char(line, "Sprite,"@);
    } else if starts_with(line, "Animation,"@) {
        lemma_first_char(line, "Animation,"@);
    } else if starts_with(line, "4,"@) {
        lemma_first_char(line, "4,"@);
    } else {
        lemma_first_char(line, "6,"@);
    }
    assert(line != "[Events]"@);
    lemma_not_starts(line, "["@);
    lemma_not_starts(line, "//"@);
    lemma_not_starts(line, "Video,"@);
    lemma_not_starts(line, "1,"@);
    lemma_not_starts(line, "0,0,"@);
    lemma_image_refs_keep_found(ls.drop_first(), true, bg, sb.push(x));
    assert(image_refs_from(ls, true, bg, sb).1[sb.len() as int] == x);
}

/// In the `[Events]` section, the quoted file name of the first `0,0,`
/// event is the background.
pub proof fn lemma_background_found(ls: Seq<Seq<char>>, sb: Seq<Seq<char>>, x: Seq<char>)
    requires
        ls.len() > 0,
        starts_with(trim(ls[0]), "0,0,"@),
        quoted(trim(ls[0])) == Some(x),
        x.len() > 0,
    ensures
        image_refs_from(ls, true, None, sb).0 == Some(x),
{
    let line = trim(ls[0]);
    reveal_strlit("[Events]");
    reveal_strlit("[");
    reveal_strlit("//");
    reveal_strlit("Video,");
    reveal_strlit("1,");
    reveal_strlit("0,0,");
    lemma_first_char(line, "0,0,"@);
    assert(line != "[Events]"@);
    lemma_not_starts(line, "["@);
    lemma_not_starts(line, "//"@);
    lemma_not_starts(line, "Video,"@);
    lemma_not_starts(line, "1,"@);
    lemma_image_refs_keep_found(ls.drop_first(), true, Some(x), sb);
}

/// In the `[Events]` section, video events (`Video` or `1`) and sound
/// sample events (`Sample` or `5`) name no image: scanning goes on as if
/// the line were not there.
pub proof fn lemma_videos_and_samples_skipped(ls: Seq<Seq<char>>, bg: Option<Seq<char>>, sb: Seq<Seq<char>>)
    requires
        ls.len() > 0,
        starts_with(trim(ls[0]), "Video,"@) || starts_with(trim(ls[0]), "1,"@) || starts_with(trim(ls[0]), "Sample,"@)
            || starts_with(trim(ls[0]), "5,"@),
    ensures
        image_refs_from(ls, true, bg, sb) == image_refs_from(ls.drop_first(), true, bg, sb),
{
    let line = trim(ls[0]);
    reveal_strlit("Sprite,");
    reveal_strlit("Animation,");
    reveal_strlit("4,");
    reveal_strlit("6,");
    reveal_strlit("[Events]");
    reveal_strlit("[");
    reveal_strlit("//");
    reveal_strlit("Video,");
    reveal_strlit("1,");
    reveal_strlit("0,0,");
    reveal_strlit("Sample,");
    reveal_strlit("5,");
    if starts_with(line, "Video,"@) {
        lemma_first_char(line, "Video,"@);
    } else if starts_with(line, "1,"@) {
        lemma_first_char(line, "1,"@);
    } else if starts_with(line, "Sample,"@) {
        lemma_first_char(line, "Sample,"@);
        lemma_char_at(line, "Sample,"@, 1);
        if starts_with(line, "Sprite,"@) {
            lemma_char_at(line, "Sprite,"@, 1);
        }
    } else {
        lemma_first_char(line, "5,"@);
        lemma_not_starts(line, "Sprite,"@);
    }
    assert(line != "[Events]"@);
    lemma_not_starts(line, "["@);
    lemma_not_starts(line, "//"@);
    lemma_not_starts(line, "0,0,"@);
    lemma_not_starts(line, "Animation,"@);
    lemma_not_starts(line, "4,"@);
    lemma_not_starts(line, "6,"@);
}

/// The quoted name of a line is the text between its first two double
/// quotes.
pub proof fn lemma_quoted_name(before: Seq<char>, name: Seq<char>, after: Seq<char>)
    requires
        forall|i: int| 0 <= i < before.len() ==> before[i] != '"',
        forall|i: int| 0 <= i < name.len() ==> name[i] != '"',
    ensures
        quoted(before + seq!['"'] + name + seq!['"'] + after) == Some(name),
{
    let line = before + seq!['"'] + name + seq!['"'] + after;
    let k = before.len() as int;
    assert(crate::text::first_at(line, '"', k)) by {
        assert forall|j: int| 0 <= j < k implies line[j] != '"' by {
            assert(line[j] == before[j]);
        }
    }
    let s = choose|i: int| crate::text::first_at(line, '"', i);
    crate::text::lemma_first_at_unique(line, '"', s, k);
    let tail = line.subrange(k + 1, line.len() as int);
    let m = name.len() as int;
    assert(tail =~= name + seq!['"'] + after);
    assert(crate::text::first_at(tail, '"', m)) by {
        assert forall|j: int| 0 <= j < m implies tail[j] != '"' by {
            assert(tail[j] == name[j]);
        }
    }
    let t = choose|i: int| crate::text::first_at(tail, '"', i);
    crate::text::lemma_first_at_unique(tail, '"', t, m);
    assert(line.subrange(k + 1, k + 1 + m) =~= name);
}

/// Beatmaps, storyboards and audio files are always kept.
pub proof fn lemma_beatmaps_storyboards_audio_kept(es: Seq<ArchiveEntry>, i: int)
    requires
        0 <= i < es.len(),
        has_extension_ignore_case(es[i].path@, "osu"@) || has_extension_ignore_case(es[i].path@, "osb"@)
            || is_audio_file(es[i].path@, es[i].data@),
    ensures
        kept(es, i),
{
}

/// Bounds of the quoted name within `s[lo..hi]`.
fn quoted_range(s: &Vec<char>, lo: usize, hi: usize) -> (r: Option<(usize, usize)>)
    requires
        lo <= hi <= s@.len(),
    ensures
        match r {
            Some((a, b)) => lo <= a <= b <= hi && quoted(s@.subrange(lo as int, hi as int)) == Some(
                s@.subrange(a as int, b as int),
            ),
            None => quoted(s@.subrange(lo as int, hi as int)) is None,
        },
{
    let ghost line = s@.subrange(lo as int, hi as int);
    match find_char_range(s, lo, hi, '"') {
        None => None,
        Some(start) => {
            let from = lo + start + 1;
            assert(line.subrange(start + 1, line.len() as int) == s@.subrange(from as int, hi as int));
            match find_char_range(s, from, hi, '"') {
                None => None,
                Some(end) => {
                    assert(line.subrange(start + 1, start + 1 + end) == s@.subrange(
                        from as int,
                        from + end,
                    ));
                    Some((from, from + end))
                },
            }
        },
    }
}

/// Parses the contents of a beatmap or storyboard file for the image files
/// referenced in its `[Events]` section: the background, and the images of
/// its sprites and animations (videos and sounds are not images).
pub fn parse_images_from_osu(content: &str) -> (r: OsuImageRefs)
    ensures
        (opt_text(r.background), texts(r.storyboard@)) == image_refs(content@),
{
    let c = str_chars(content);
    let n = c.len();
    let mut background: Option<String> = None;
    let mut storyboard: Vec<String> = Vec::new();
    let mut in_events = false;
    let mut pos: usize = 0;
    assert(c@.subrange(0, n as int) == c@);
    assert(texts(storyboard@) == Seq::<Seq<char>>::empty());
    while pos < n
        invariant
            pos <= n == c@.len(),
            c@ == content@,
            image_refs_from(lines(c@.subrange(pos as int, n as int)), in_events, opt_text(background), texts(storyboard@))
                == image_refs(content@),
        decreases n - pos,
    {
        let (end, next) = next_line(&c, pos);
        let ghost ls = lines(c@.subrange(pos as int, n as int));
        assert(ls[0] == c@.subrange(pos as int, end as int));
        assert(ls.drop_first() == lines(c@.subrange(next as int, n as int)));
        let (a, b) = trim_range(&c, pos, end);
        if range_eq_str(&c, a, b, "[Events]") {
            in_events = true;
        } else if in_events && range_starts_with_str(&c, a, b, "[") {
            return OsuImageRefs { background, storyboard };
        } else if !in_events {
        } else if a == b || range_starts_with_str(&c, a, b, "//") || range_starts_with_str(&c, a, b, "Video,")
            || range_starts_with_str(&c, a, b, "1,") {
        } else {
            match quoted_range(&c, a, b) {
                None => {},
                Some((qa, qb)) => {
                    if qa == qb {
                    } else if range_starts_with_str(&c, a, b, "0,0,") {
                        if background.is_none() {
                            background = Some(string_from_chars(copy_range(&c, qa, qb)));
                        }
                    } else if range_starts_with_str(&c, a, b, "Sprite,") || range_starts_with_str(&c, a, b, "4,")
                        || range_starts_with_str(&c, a, b, "Animation,") || range_starts_with_str(&c, a, b, "6,") {
                        let ghost prev = texts(storyboard@);
                        storyboard.push(string_from_chars(copy_range(&c, qa, qb)));
                        assert(texts(storyboard@) =~= prev.push(c@.subrange(qa as int, qb as int)));
                    }
                },
            }
        }
        pos = next;
    }
    assert(c@.subrange(n as int, n as int) == Seq::<char>::empty());
    OsuImageRefs { background, storyboard }
}

/// Calls `std::str::from_utf8`: it gives a text exactly when `data` is
/// valid UTF-8, and that text is the one whose UTF-8 encoding is `data`.
#[verifier::external_body]
fn utf8_text(data: &[u8]) -> (r: Option<&str>)
    ensures
        r is Some <==> valid_utf8(data@),
        r matches Some(s) ==> s.spec_bytes() == data@,
{
    match std::str::from_utf8(data) {
        Ok(s) => Some(s),
        Err(_) => None,
    }
}

/// A file inside a beatmap archive.
pub struct ArchiveEntry {
    pub path: String,
    pub data: Vec<u8>,
}

/// Why an archive is not extracted.
#[derive(Debug, PartialEq, Eq)]
pub enum ExtractError {
    /// The archive holds no `.osu` file.
    NoOsuFiles,
    /// The archive holds no audio file.
    NoAudioFiles,
}

/// Which entries of an archive are written out, and which referenced
/// images the archive lacks.
#[derive(Debug)]
pub struct ExtractionPlan {
    /// For each entry, whether it is written out.
    pub keep: Vec<bool>,
    /// Referenced backgrounds (normalized) that no entry provides, sorted.
    pub missing_backgrounds: Vec<String>,
    /// Referenced storyboard images (normalized) that no entry provides, sorted.
    pub missing_storyboard_images: Vec<String>,
}

/// The image references of an entry: those of its text when it is a
/// beatmap or storyboard file whose content is valid UTF-8.
pub open spec fn entry_refs(e: ArchiveEntry) -> Option<(Option<Seq<char>>, Seq<Seq<char>>)> {
    if (has_extension_ignore_case(e.path@, "osu"@) || has_extension_ignore_case(e.path@, "osb"@))
        && valid_utf8(e.data@) {
        Some(image_refs(decode_utf8(e.data@)))
    } else {
        None
    }
}

/// The background an entry refers to.
pub open spec fn entry_background(e: ArchiveEntry) -> Option<Seq<char>> {
    match entry_refs(e) {
        Some((bg, _)) => bg,
        None => None,
    }
}

/// The storyboard images an entry refers to.
pub open spec fn entry_storyboard(e: ArchiveEntry) -> Seq<Seq<char>> {
    match entry_refs(e) {
        Some((_, sb)) => sb,
        None => Seq::empty(),
    }
}

/// `x` is the normalized background of one of the first `n` entries.
pub open spec fn required_background(es: Seq<ArchiveEntry>, n: int, x: Seq<char>) -> bool {
    exists|i: int|
        0 <= i < n && (#[trigger] entry_background(es[i])) is Some && normalized(
            entry_background(es[i])->0,
        ) == x
}

/// `x` is a normalized storyboard image of one of the first `n` entries.
pub open spec fn optional_image(es: Seq<ArchiveEntry>, n: int, x: Seq<char>) -> bool {
    exists|i: int, j: int|
        0 <= i < n && 0 <= j < entry_storyboard(es[i]).len() && normalized(
            #[trigger] entry_storyboard(es[i])[j],
        ) == x
}

/// `x` is the normalized path of some entry.
pub open spec fn archive_path(es: Seq<ArchiveEntry>, x: Seq<char>) -> bool {
    exists|i: int| 0 <= i < es.len() && normalized((#[trigger] es[i]).path@) == x
}

/// Whether entry `i` is written out: beatmaps, storyboards, audio, and
/// images that some beatmap or storyboard refers to.
pub open spec fn kept(es: Seq<ArchiveEntry>, i: int) -> bool {
    let p = es[i].path@;
    has_extension_ignore_case(p, "osu"@) || has_extension_ignore_case(p, "osb"@) || is_audio_file(
        p,
        es[i].data@,
    ) || required_background(es, es.len() as int, normalized(p)) || optional_image(
        es,
        es.len() as int,
        normalized(p),
    )
}

/// Entry `e` is a beatmap (`.osu`) or storyboard (`.osb`) file, readable
/// as text, that names image `x`: as its background or as the image of a
/// sprite or animation.
pub open spec fn names_image(e: ArchiveEntry, x: Seq<char>) -> bool {
    &&& has_extension_ignore_case(e.path@, "osu"@) || has_extension_ignore_case(e.path@, "osb"@)
    &&& valid_utf8(e.data@)
    &&& image_refs(decode_utf8(e.data@)).0 == Some(x) || image_refs(decode_utf8(e.data@)).1.contains(x)
}

/// Every image that a beatmap or storyboard file of the archive names
/// keeps the archive entries whose normalized path is that image's.
pub proof fn lemma_referenced_images_kept(es: Seq<ArchiveEntry>, i: int, j: int, x: Seq<char>)
    requires
        0 <= i < es.len(),
        0 <= j < es.len(),
        names_image(es[j], x),
        normalized(es[i].path@) == normalized(x),
    ensures
        kept(es, i),
{
    let refs = image_refs(decode_utf8(es[j].data@));
    assert(entry_refs(es[j]) == Some(refs));
    if refs.0 == Some(x) {
        assert(entry_background(es[j]) == Some(x));
        assert(required_background(es, es.len() as int, normalized(es[i].path@)));
    } else {
        let k = choose|k: int| 0 <= k < refs.1.len() && refs.1[k] == x;
        assert(entry_storyboard(es[j])[k] == x);
        assert(optional_image(es, es.len() as int, normalized(es[i].path@)));
    }
}

/// An entry is kept only if it is a beatmap, a storyboard, audio, or an
/// image that a beatmap or storyboard of the archive names.
pub proof fn lemma_kept_entries_are_needed(es: Seq<ArchiveEntry>, i: int)
    requires
        0 <= i < es.len(),
        kept(es, i),
    ensures
        has_extension_ignore_case(es[i].path@, "osu"@) || has_extension_ignore_case(es[i].path@, "osb"@)
            || is_audio_file(es[i].path@, es[i].data@) || exists|j: int, x: Seq<char>|
            0 <= j < es.len() && #[trigger] names_image(es[j], x) && normalized(x) == normalized(es[i].path@),
{
    let p = es[i].path@;
    if required_background(es, es.len() as int, normalized(p)) {
        let j = choose|j: int| 0 <= j < es.len() && (#[trigger] entry_background(es[j])) is Some && normalized(
            entry_background(es[j])->0) == normalized(p);
        let x = entry_background(es[j])->0;
        assert(image_refs(decode_utf8(es[j].data@)).0 == Some(x));
        assert(names_image(es[j], x));
    } else if optional_image(es, es.len() as int, normalized(p)) {
        let (j, k) = choose|j: int, k: int| 0 <= j < es.len() && 0 <= k < entry_storyboard(es[j]).len() && normalized(
            #[trigger] entry_storyboard(es[j])[k]) == normalized(p);
        let x = entry_storyboard(es[j])[k];
        assert(image_refs(decode_utf8(es[j].data@)).1[k] == x);
        assert(image_refs(decode_utf8(es[j].data@)).1.contains(x));
        assert(names_image(es[j], x));
    }
}

/// Whether `x` is among the texts of `v`.
fn contains_text(v: &Vec<String>, x: &str) -> (r: bool)
    ensures
        r == texts(v@).contains(x@),
{
    let mut i: usize = 0;
    while i < v.len()
        invariant
            0 <= i <= v@.len(),
            forall|k: int| 0 <= k < i ==> v@[k]@ != x@,
        decreases v@.len() - i,
    {
        if str_eq(v[i].as_str(), x) {
            assert(texts(v@)[i as int] == x@);
            return true;
        }
        i = i + 1;
    }
    assert(!texts(v@).contains(x@)) by {
        if texts(v@).contains(x@) {
            let k = choose|k: int| 0 <= k < texts(v@).len() && texts(v@)[k] == x@;
            assert(v@[k]@ == x@);
        }
    }
    false
}

/// The texts of `from` that do not occur in `present`, sorted, without
/// duplicates.
fn missing_from(from: &Vec<String>, present: &Vec<String>) -> (r: Vec<String>)
    ensures
        strictly_sorted(texts(r@)),
        forall|x: Seq<char>| texts(r@).contains(x) <==> (texts(from@).contains(x) && !texts(present@).contains(x)),
{
    let mut out: Vec<String> = Vec::new();
    let mut i: usize = 0;
    while i < from.len()
        invariant
            0 <= i <= from@.len(),
            forall|x: Seq<char>| texts(out@).contains(x) <==> (texts(from@.take(i as int)).contains(x) && !texts(present@).contains(x)),
        decreases from@.len() - i,
    {
        let ghost prev = texts(out@);
        assert(texts(from@.take(i + 1)) =~= texts(from@.take(i as int)).push(from@[i as int]@));
        if !contains_text(present, from[i].as_str()) {
            out.push(from[i].clone());
            assert(texts(out@) =~= prev.push(from@[i as int]@));
        }
        assert forall|x: Seq<char>| texts(out@).contains(x) <==> (texts(from@.take(i + 1)).contains(x) && !texts(present@).contains(x)) by {
            lemma_contains_push(texts(from@.take(i as int)), from@[i as int]@, x);
            lemma_contains_push(prev, from@[i as int]@, x);
        }
        i = i + 1;
    }
    assert(from@.take(from@.len() as int) == from@);
    sort_dedup(out)
}

/// Some entry is a beatmap file.
pub open spec fn has_osu_entry(es: Seq<ArchiveEntry>) -> bool {
    exists|i: int| 0 <= i < es.len() && has_extension_ignore_case((#[trigger] es[i]).path@, "osu"@)
}

/// Some entry is an audio file.
pub open spec fn has_audio_entry(es: Seq<ArchiveEntry>) -> bool {
    exists|i: int| 0 <= i < es.len() && is_audio_file((#[trigger] es[i]).path@, es[i].data@)
}

/// `x` is the normalized spelling of one of the first `k` names.
pub open spec fn normalized_among(names: Seq<Seq<char>>, k: int, x: Seq<char>) -> bool {
    exists|j: int| 0 <= j < k && normalized(#[trigger] names[j]) == x
}

proof fn lemma_required_step(es: Seq<ArchiveEntry>, i: int, x: Seq<char>)
    requires
        0 <= i < es.len(),
    ensures
        required_background(es, i + 1, x) <==> (required_background(es, i, x) || (entry_background(
            es[i],
        ) is Some && normalized(entry_background(es[i])->0) == x)),
{
    if required_background(es, i + 1, x) {
        let k = choose|k: int|
            0 <= k < i + 1 && (#[trigger] entry_background(es[k])) is Some && normalized(
                entry_background(es[k])->0,
            ) == x;
        if k < i {
            assert(required_background(es, i, x));
        }
    }
    if required_background(es, i, x) {
        let k = choose|k: int|
            0 <= k < i && (#[trigger] entry_background(es[k])) is Some && normalized(
                entry_background(es[k])->0,
            ) == x;
        assert(0 <= k < i + 1);
    }
}

proof fn lemma_optional_step(es: Seq<ArchiveEntry>, i: int, x: Seq<char>)
    requires
        0 <= i < es.len(),
    ensures
        optional_image(es, i + 1, x) <==> (optional_image(es, i, x) || normalized_among(
            entry_storyboard(es[i]),
            entry_storyboard(es[i]).len() as int,
            x,
        )),
{
    if optional_image(es, i + 1, x) {
        let (k, j) = choose|k: int, j: int|
            0 <= k < i + 1 && 0 <= j < entry_storyboard(es[k]).len() && normalized(
                #[trigger] entry_storyboard(es[k])[j],
            ) == x;
        if k < i {
            assert(optional_image(es, i, x));
        }
    }
    if optional_image(es, i, x) {
        let (k, j) = choose|k: int, j: int|
            0 <= k < i && 0 <= j < entry_storyboard(es[k]).len() && normalized(
                #[trigger] entry_storyboard(es[k])[j],
            ) == x;
        assert(0 <= k < i + 1);
    }
    if normalized_among(entry_storyboard(es[i]), entry_storyboard(es[i]).len() as int, x) {
        let j = choose|j: int| 0 <= j < entry_storyboard(es[i]).len() && normalized(#[trigger] entry_storyboard(es[i])[j]) == x;
        assert(0 <= i < i + 1);
    }
}

/// Decides which entries of a beatmap archive are extracted: the archive
/// must hold a beatmap file and an audio file; beatmaps, storyboards, audio
/// files and the images that beatmaps and storyboards refer to (matched
/// after normalizing both spellings) are kept, everything else is dropped.
pub fn plan_extraction(entries: &[ArchiveEntry]) -> (r: Result<ExtractionPlan, ExtractError>)
    ensures
        match r {
            Err(ExtractError::NoOsuFiles) => !has_osu_entry(entries@),
            Err(ExtractError::NoAudioFiles) => has_osu_entry(entries@) && !has_audio_entry(entries@),
            Ok(plan) => {
                &&& has_osu_entry(entries@)
                &&& has_audio_entry(entries@)
                &&& plan.keep@.len() == entries@.len()
                &&& forall|i: int| 0 <= i < entries@.len() ==> plan.keep@[i] == kept(entries@, i)
                &&& strictly_sorted(texts(plan.missing_backgrounds@))
                &&& strictly_sorted(texts(plan.missing_storyboard_images@))
                &&& forall|x: Seq<char>|
                    texts(plan.missing_backgrounds@).contains(x) <==> (required_background(
                        entries@,
                        entries@.len() as int,
                        x,
                    ) && !archive_path(entries@, x))
                &&& forall|x: Seq<char>|
                    texts(plan.missing_storyboard_images@).contains(x) <==> (optional_image(
                        entries@,
                        entries@.len() as int,
                        x,
                    ) && !archive_path(entries@, x))
            },
        },
{
    let ghost es = entries@;
    let n = entries.len();
    let mut required: Vec<String> = Vec::new();
    let mut optional: Vec<String> = Vec::new();
    let mut has_osu = false;
    let mut i: usize = 0;
    while i < n
        invariant
            0 <= i <= n == es.len(),
            es == entries@,
            has_osu == exists|k: int| 0 <= k < i && has_extension_ignore_case((#[trigger] es[k]).path@, "osu"@),
            forall|x: Seq<char>| texts(required@).contains(x) <==> required_background(es, i as int, x),
            forall|x: Seq<char>| texts(optional@).contains(x) <==> optional_image(es, i as int, x),
        decreases n - i,
    {
        let e = &entries[i];
        let osu = is_osu_file(e.path.as_str());
        let osb = is_osb_file(e.path.as_str());
        let ghost req0 = texts(required@);
        let ghost opt0 = texts(optional@);
        if osu {
            has_osu = true;
        }
        if osu || osb {
            match utf8_text(e.data.as_slice()) {
                Some(content) => {
                    proof {
                        vstd::utf8::encode_utf8_decode_utf8(content@);
                    }
                    assert(content@ == decode_utf8(e.data@));
                    let refs = parse_images_from_osu(content);
                    assert(entry_refs(es[i as int]) == Some(image_refs(content@)));
                    match &refs.background {
                        Some(bg) => {
                            required.push(normalize_path(bg.as_str()));
                            assert(texts(required@) =~= req0.push(normalized(bg@)));
                        },
                        None => {},
                    }
                    let ghost sbt = texts(refs.storyboard@);
                    let mut k: usize = 0;
                    while k < refs.storyboard.len()
                        invariant
                            0 <= k <= refs.storyboard@.len(),
                            sbt == texts(refs.storyboard@),
                            forall|x: Seq<char>| texts(optional@).contains(x) <==> (opt0.contains(x) || normalized_among(sbt, k as int, x)),
                        decreases refs.storyboard@.len() - k,
                    {
                        let ghost prev = texts(optional@);
                        assert(forall|x: Seq<char>| prev.contains(x) <==> (opt0.contains(x) || normalized_among(sbt, k as int, x)));
                        assert(sbt[k as int] == refs.storyboard@[k as int]@);
                        let img = normalize_path(refs.storyboard[k].as_str());
                        optional.push(img);
                        let ghost v = normalized(sbt[k as int]);
                        assert(texts(optional@) =~= prev.push(v));
                        assert forall|x: Seq<char>| texts(optional@).contains(x) <==> (opt0.contains(x) || normalized_among(sbt, k + 1, x)) by {
                            lemma_contains_push(prev, v, x);
                            if normalized_among(sbt, k + 1, x) {
                                let j = choose|j: int| 0 <= j < k + 1 && normalized(#[trigger] sbt[j]) == x;
                                if j < k {
                                    assert(normalized_among(sbt, k as int, x));
                                }
                            }
                            if normalized_among(sbt, k as int, x) {
                                let j = choose|j: int| 0 <= j < k && normalized(#[trigger] sbt[j]) == x;
                                assert(0 <= j < k + 1);
                            }
                            if x == v {
                                assert(normalized(sbt[k as int]) == x);
                            }
                        }
                        let ghost k1: int = k + 1;
                        k = k + 1;
                        assert(k1 == k as int);
                        assert forall|x: Seq<char>| texts(optional@).contains(x) <==> (opt0.contains(x) || normalized_among(sbt, k as int, x)) by {
                            assert(texts(optional@).contains(x) <==> (opt0.contains(x) || normalized_among(sbt, k1, x)));
                        }
                    }
                    assert(entry_storyboard(es[i as int]) == sbt);
                    assert(texts(required@) == (if entry_background(es[i as int]) is Some {
                        req0.push(normalized(entry_background(es[i as int])->0))
                    } else {
                        req0
                    }));
                },
                None => {
                    assert(entry_refs(es[i as int]) is None);
                },
            }
        } else {
            assert(entry_refs(es[i as int]) is None);
        }
        assert forall|x: Seq<char>| texts(required@).contains(x) <==> required_background(es, i + 1, x) by {
            lemma_required_step(es, i as int, x);
            if entry_background(es[i as int]) is Some {
                lemma_contains_push(req0, normalized(entry_background(es[i as int])->0), x);
            }
        }
        assert forall|x: Seq<char>| texts(optional@).contains(x) <==> optional_image(es, i + 1, x) by {
            lemma_optional_step(es, i as int, x);
            if entry_refs(es[i as int]) is None {
                assert(entry_storyboard(es[i as int]) == Seq::<Seq<char>>::empty());
            }
        }
        i = i + 1;
    }
    if !has_osu {
        return Err(ExtractError::NoOsuFiles);
    }
    let mut norms: Vec<String> = Vec::new();
    let mut i: usize = 0;
    while i < n
        invariant
            0 <= i <= n == es.len(),
            es == entries@,
            norms@.len() == i,
            forall|k: int| 0 <= k < i ==> (#[trigger] norms@[k])@ == normalized(es[k].path@),
        decreases n - i,
    {
        norms.push(normalize_path(entries[i].path.as_str()));
        i = i + 1;
    }
    assert forall|x: Seq<char>| texts(norms@).contains(x) <==> archive_path(es, x) by {
        if texts(norms@).contains(x) {
            let k = choose|k: int| 0 <= k < texts(norms@).len() && texts(norms@)[k] == x;
            assert(norms@[k]@ == normalized(es[k].path@));
        }
        if archive_path(es, x) {
            let k = choose|k: int| 0 <= k < es.len() && normalized((#[trigger] es[k]).path@) == x;
            assert(texts(norms@)[k] == x);
        }
    }
    let missing_backgrounds = missing_from(&required, &norms);
    let missing_storyboard_images = missing_from(&optional, &norms);
    let mut has_audio = false;
    let mut i: usize = 0;
    while i < n
        invariant
            0 <= i <= n == es.len(),
            es == entries@,
            has_audio == exists|k: int| 0 <= k < i && is_audio_file((#[trigger] es[k]).path@, es[k].data@),
        decreases n - i,
    {
        if is_audio(entries[i].path.as_str(), entries[i].data.as_slice()) {
            has_audio = true;
        }
        i = i + 1;
    }
    if !has_audio {
        return Err(ExtractError::NoAudioFiles);
    }
    let mut keep: Vec<bool> = Vec::new();
    let mut i: usize = 0;
    while i < n
        invariant
            0 <= i <= n == es.len(),
            es == entries@,
            norms@.len() == n,
            forall|k: int| 0 <= k < n ==> (#[trigger] norms@[k])@ == normalized(es[k].path@),
            forall|x: Seq<char>| texts(norms@).contains(x) <==> archive_path(es, x),
            forall|x: Seq<char>| texts(required@).contains(x) <==> required_background(es, n as int, x),
            forall|x: Seq<char>| texts(optional@).contains(x) <==> optional_image(es, n as int, x),
            keep@.len() == i,
            forall|k: int| 0 <= k < i ==> keep@[k] == kept(es, k),
        decreases n - i,
    {
        let e = &entries[i];
        let nm = norms[i].as_str();
        let referenced = (contains_text(&required, nm) || contains_text(&optional, nm))
            && contains_text(&norms, nm);
        assert(texts(norms@)[i as int] == nm@);
        let k = is_osu_file(e.path.as_str()) || is_osb_file(e.path.as_str()) || is_audio(
            e.path.as_str(),
            e.data.as_slice(),
        ) || referenced;
        keep.push(k);
        i = i + 1;
    }
    Ok(ExtractionPlan { keep, missing_backgrounds, missing_storyboard_images })
}

/// The beatmap mirror's download address for a beatmap set.
pub open spec fn mirror_url(beatmapset_id: Seq<char>) -> Seq<char> {
    "https://api.nerinyan.moe/d/"@ + beatmapset_id
}

/// The address from which a beatmap set is downloaded again when its
/// archive cannot be read.
pub fn nerinyan_url(beatmapset_id: &str) -> (r: String)
    ensures
        r@ == mirror_url(beatmapset_id@),
{
    let mut v: Vec<char> = Vec::new();
    push_str(&mut v, "https://api.nerinyan.moe/d/");
    push_str(&mut v, beatmapset_id);
    string_from_chars(v)
}

/// Whether an archive's file stem names a beatmap set: a non-empty run of
/// ASCII digits.
pub fn looks_like_beatmapset_id(stem: &str) -> (r: bool)
    ensures
        r == (stem@.len() > 0 && all_digits(stem@)),
{
    let c = str_chars(stem);
    let mut i: usize = 0;
    while i < c.len()
        invariant
            0 <= i <= c@.len(),
            c@ == stem@,
            forall|k: int| 0 <= k < i ==> is_digit(#[trigger] c@[k]),
        decreases c@.len() - i,
    {
        if !('0' <= c[i] && c[i] <= '9') {
            return false;
        }
        i = i + 1;
    }
    c.len() > 0
}

/// How a first attempt to extract an archive ended.
#[derive(Debug, Clone, Copy, PartialEq, Eq, Structural)]
pub enum ExtractAttempt {
    /// The archive was extracted.
    Extracted,
    /// The archive could not be read as a zip file.
    UnreadableZip,
    /// Any other failure.
    Failed,
}

/// How the recovery of an unreadable archive ended.
#[derive(Debug, Clone, Copy, PartialEq, Eq, Structural)]
pub enum RecoveryOutcome {
    /// The download from the mirror failed.
    DownloadFailed,
    /// The archive was downloaded but could not replace the unreadable one.
    ReplaceFailed,
    /// The downloaded archive was extracted.
    Extracted,
    /// The downloaded archive could not be extracted either.
    StillFailed,
}

/// What to do after the first attempt at an archive.
#[derive(Debug, Clone, Copy, PartialEq, Eq, Structural)]
pub enum NextStep {
    /// Go on with the next archive.
    NextArchive,
    /// Download the beatmap set from the mirror, put it in place of the
    /// archive and try again.
    Download,
}

/// The counts of an extraction run.
#[derive(Debug, Clone, Copy, PartialEq, Eq, Structural)]
pub struct ExtractionTally {
    pub extracted: usize,
    pub failed: usize,
    pub downloaded: usize,
}

/// The tally and next step after a first attempt at an archive whose file
/// stem is `stem`: an extracted archive counts as extracted; an unreadable
/// zip whose stem names a beatmap set is downloaded again, counting
/// nothing yet; anything else counts as failed.
pub open spec fn after_attempt_spec(t: ExtractionTally, attempt: ExtractAttempt, stem: Seq<char>) -> (ExtractionTally, NextStep) {
    match attempt {
        ExtractAttempt::Extracted => (ExtractionTally { extracted: (t.extracted + 1) as usize, ..t }, NextStep::NextArchive),
        ExtractAttempt::UnreadableZip => if stem.len() > 0 && all_digits(stem) {
            (t, NextStep::Download)
        } else {
            (ExtractionTally { failed: (t.failed + 1) as usize, ..t }, NextStep::NextArchive)
        },
        ExtractAttempt::Failed => (ExtractionTally { failed: (t.failed + 1) as usize, ..t }, NextStep::NextArchive),
    }
}

/// The tally after recovering an archive: a completed download counts as
/// downloaded, and the archive then counts as extracted or failed.
pub open spec fn after_recovery_spec(t: ExtractionTally, outcome: RecoveryOutcome) -> ExtractionTally {
    match outcome {
        RecoveryOutcome::DownloadFailed => ExtractionTally { failed: (t.failed + 1) as usize, ..t },
        RecoveryOutcome::ReplaceFailed => ExtractionTally {
            failed: (t.failed + 1) as usize,
            downloaded: (t.downloaded + 1) as usize,
            ..t
        },
        RecoveryOutcome::Extracted => ExtractionTally {
            extracted: (t.extracted + 1) as usize,
            downloaded: (t.downloaded + 1) as usize,
            ..t
        },
        RecoveryOutcome::StillFailed => ExtractionTally {
            failed: (t.failed + 1) as usize,
            downloaded: (t.downloaded + 1) as usize,
            ..t
        },
    }
}

/// Counts the first attempt at an archive and decides whether it is
/// downloaded again.
pub fn after_attempt(tally: ExtractionTally, attempt: ExtractAttempt, stem: &str) -> (r: (ExtractionTally, NextStep))
    requires
        tally.extracted < usize::MAX,
        tally.failed < usize::MAX,
    ensures
        r == after_attempt_spec(tally, attempt, stem@),
{
    match attempt {
        ExtractAttempt::Extracted => (ExtractionTally { extracted: tally.extracted + 1, ..tally }, NextStep::NextArchive),
        ExtractAttempt::UnreadableZip => {
            if looks_like_beatmapset_id(stem) {
                (tally, NextStep::Download)
            } else {
                (ExtractionTally { failed: tally.failed + 1, ..tally }, NextStep::NextArchive)
            }
        },
        ExtractAttempt::Failed => (ExtractionTally { failed: tally.failed + 1, ..tally }, NextStep::NextArchive),
    }
}

/// Counts the end of an archive's recovery.
pub fn after_recovery(tally: ExtractionTally, outcome: RecoveryOutcome) -> (r: ExtractionTally)
    requires
        tally.extracted < usize::MAX,
        tally.failed < usize::MAX,
        tally.downloaded < usize::MAX,
    ensures
        r == after_recovery_spec(tally, outcome),
{
    match outcome {
        RecoveryOutcome::DownloadFailed => ExtractionTally { failed: tally.failed + 1, ..tally },
        RecoveryOutcome::ReplaceFailed => ExtractionTally {
            failed: tally.failed + 1,
            downloaded: tally.downloaded + 1,
            ..tally
        },
        RecoveryOutcome::Extracted => ExtractionTally {
            extracted: tally.extracted + 1,
            downloaded: tally.downloaded + 1,
            ..tally
        },
        RecoveryOutcome::StillFailed => ExtractionTally {
            failed: tally.failed + 1,
            downloaded: tally.downloaded + 1,
            ..tally
        },
    }
}

/// The archives left untouched when a run stops early: those neither
/// extracted nor failed.
pub fn skipped_archives(archive_count: usize, tally: ExtractionTally) -> (r: usize)
    requires
        tally.extracted + tally.failed <= archive_count,
    ensures
        r == archive_count - tally.extracted - tally.failed,
{
    archive_count - tally.extracted - tally.failed
}

/// Spaces the requests made to the beatmap mirror: at most the given
/// number of requests a minute.
pub struct RateLimiter {
    min_interval_nanos: u64,
    has_requested: bool,
}

impl RateLimiter {
    /// The least time between two requests, in nanoseconds.
    pub closed spec fn interval(self) -> nat {
        self.min_interval_nanos as nat
    }

    /// Whether a request was made already.
    pub closed spec fn requested(self) -> bool {
        self.has_requested
    }

    /// A limiter for `requests_per_minute` requests a minute: one minute
    /// divided by that number, in whole nanoseconds, between requests.
    pub fn new(requests_per_minute: u32) -> (r: Self)
        requires
            requests_per_minute > 0,
        ensures
            r.interval() == 60_000_000_000int / (requests_per_minute as int),
            !r.requested(),
    {
        RateLimiter { min_interval_nanos: 60_000_000_000u64 / (requests_per_minute as u64), has_requested: false }
    }

    /// Before a request: how long to sleep, given the time elapsed since
    /// the previous request (nothing before the first request, nor once the
    /// interval has passed); the request then counts as made.
    pub fn wait(&mut self, elapsed_nanos: u64) -> (sleep_nanos: u64)
        ensures
            final(self).interval() == old(self).interval(),
            final(self).requested(),
            sleep_nanos == (if old(self).requested() && elapsed_nanos < old(self).interval() {
                old(self).interval() - elapsed_nanos
            } else {
                0
            }),
    {
        let sleep = if self.has_requested && elapsed_nanos < self.min_interval_nanos {
            self.min_interval_nanos - elapsed_nanos
        } else {
            0
        };
        self.has_requested = true;
        sleep
    }
}

} // verus!
