//! File-name rules: the extension of a path as `std::path::Path` computes it
//! on Unix (with `/` as the only separator), the beatmap, storyboard and
//! audio file tests built on it, and the normalised spelling used to match
//! paths that an archive and a beatmap file spell differently.

use vstd::prelude::*;
use crate::text::{chars_eq_str, copy_range, str_chars, string_from_chars};

verus! {

/// Position of the last `/` in `p`, or `-1`.
pub open spec fn last_slash(p: Seq<char>) -> int
    decreases p.len(),
{
    if p.len() == 0 {
        -1
    } else if p.last() == '/' {
        p.len() - 1
    } else {
        last_slash(p.drop_last())
    }
}

/// `last_slash` is `-1` or the position of a `/`, with no `/` after it.
pub proof fn lemma_last_slash(p: Seq<char>)
    ensures
        -1 <= last_slash(p) < p.len(),
        last_slash(p) >= 0 ==> p[last_slash(p)] == '/',
        forall|j: int| last_slash(p) < j < p.len() ==> p[j] != '/',
    decreases p.len(),
{
    if p.len() > 0 && p.last() != '/' {
        lemma_last_slash(p.drop_last());
        assert forall|j: int| last_slash(p) < j < p.len() implies p[j] != '/' by {
            if j < p.len() - 1 {
                assert(p[j] == p.drop_last()[j]);
            }
        }
    }
}

/// `Path::file_name`: the last normal component of `p`, ignoring trailing
/// separators and `.` components; `None` when there is none or it is `..`.
pub open spec fn file_name(p: Seq<char>) -> Option<Seq<char>>
    decreases p.len(),
{
    if p.len() == 0 {
        None
    } else if p.last() == '/' {
        file_name(p.drop_last())
    } else {
        let k = last_slash(p) + 1;
        proof {
            lemma_last_slash(p);
        }
        let seg = p.subrange(k, p.len() as int);
        if seg == seq!['.'] {
            file_name(p.subrange(0, k))
        } else if seg == seq!['.', '.'] {
            None
        } else {
            Some(seg)
        }
    }
}

/// Position of the last `.` in `f`, or `-1`.
pub open spec fn last_dot(f: Seq<char>) -> int
    decreases f.len(),
{
    if f.len() == 0 {
        -1
    } else if f.last() == '.' {
        f.len() - 1
    } else {
        last_dot(f.drop_last())
    }
}

/// `last_dot` is `-1` or the position of a `.`, with no `.` after it.
pub proof fn lemma_last_dot(f: Seq<char>)
    ensures
        -1 <= last_dot(f) < f.len(),
        last_dot(f) >= 0 ==> f[last_dot(f)] == '.',
        forall|j: int| last_dot(f) < j < f.len() ==> f[j] != '.',
    decreases f.len(),
{
    if f.len() > 0 && f.last() != '.' {
        lemma_last_dot(f.drop_last());
        assert forall|j: int| last_dot(f) < j < f.len() implies f[j] != '.' by {
            if j < f.len() - 1 {
                assert(f[j] == f.drop_last()[j]);
            }
        }
    }
}

/// `Path::extension`: the part of the file name after its last `.`, unless
/// the file name has no `.` or its only `.` is the first character.
pub open spec fn extension(p: Seq<char>) -> Option<Seq<char>> {
    match file_name(p) {
        None => None,
        Some(f) => if last_dot(f) <= 0 {
            None
        } else {
            Some(f.subrange(last_dot(f) + 1, f.len() as int))
        },
    }
}

/// Bounds of the file name of `p[0..end]` within `p`.
fn file_name_range(p: &Vec<char>) -> (r: Option<(usize, usize)>)
    ensures
        match r {
            Some((a, b)) => a <= b <= p@.len() && file_name(p@) == Some(p@.subrange(a as int, b as int)),
            None => file_name(p@) is None,
        },
{
    let mut end: usize = p.len();
    assert(p@.subrange(0, end as int) == p@);
    while end > 0
        invariant
            end <= p@.len(),
            file_name(p@) == file_name(p@.subrange(0, end as int)),
        decreases end,
    {
        let ghost q = p@.subrange(0, end as int);
        if p[end - 1] == '/' {
            assert(q.drop_last() == p@.subrange(0, end - 1));
            end = end - 1;
        } else {
            let mut k: usize = end - 1;
            assert(q.drop_last() == p@.subrange(0, k as int));
            while k > 0 && p[k - 1] != '/'
                invariant
                    0 <= k < end <= p@.len(),
                    q == p@.subrange(0, end as int),
                    last_slash(q) == last_slash(p@.subrange(0, k as int)),
                decreases k,
            {
                assert(p@.subrange(0, k as int).drop_last() == p@.subrange(0, k - 1));
                k = k - 1;
            }
            proof {
                if k == end - 1 {
                    assert(q.drop_last() == p@.subrange(0, k as int));
                }
                if k > 0 {
                    assert(p@.subrange(0, k as int).last() == '/');
                }
                lemma_last_slash(q);
            }
            assert(last_slash(q) + 1 == k) by {
                if k < end - 1 {
                    assert(q.drop_last() == p@.subrange(0, end - 1));
                }
            }
            let ghost seg = q.subrange(k as int, end as int);
            assert(seg == p@.subrange(k as int, end as int));
            let is_dot = end - k == 1 && p[k] == '.';
            let is_dotdot = end - k == 2 && p[k] == '.' && p[k + 1] == '.';
            assert(is_dot == (seg == seq!['.'])) by {
                if seg == seq!['.'] {
                    assert(seg[0] == p@[k as int]);
                }
                if is_dot {
                    assert(seg =~= seq!['.']);
                }
            }
            assert(is_dotdot == (seg == seq!['.', '.'])) by {
                if seg == seq!['.', '.'] {
                    assert(seg[0] == p@[k as int] && seg[1] == p@[k + 1]);
                }
                if is_dotdot {
                    assert(seg =~= seq!['.', '.']);
                }
            }
            if is_dot {
                assert(q.subrange(0, k as int) == p@.subrange(0, k as int));
                end = k;
            } else if is_dotdot {
                return None;
            } else {
                return Some((k, end));
            }
        }
    }
    None
}

/// Bounds of the extension of `p` within `p`.
fn extension_range(p: &Vec<char>) -> (r: Option<(usize, usize)>)
    ensures
        match r {
            Some((a, b)) => a <= b <= p@.len() && extension(p@) == Some(p@.subrange(a as int, b as int)),
            None => extension(p@) is None,
        },
{
    match file_name_range(p) {
        None => None,
        Some((a, b)) => {
            let ghost f = p@.subrange(a as int, b as int);
            let mut d: usize = b;
            while d > a && p[d - 1] != '.'
                invariant
                    a <= d <= b <= p@.len(),
                    f == p@.subrange(a as int, b as int),
                    last_dot(f) == last_dot(p@.subrange(a as int, d as int)) - 0,
                decreases d,
            {
                assert(p@.subrange(a as int, d as int).drop_last() == p@.subrange(a as int, d - 1));
                d = d - 1;
            }
            proof {
                if d > a {
                    assert(p@.subrange(a as int, d as int).last() == '.');
                }
            }
            assert(last_dot(f) == d as int - a as int - 1);
            if d - a <= 1 {
                None
            } else {
                assert(f.subrange(last_dot(f) + 1, f.len() as int) == p@.subrange(d as int, b as int));
                Some((d, b))
            }
        }
    }
}

/// `char::to_ascii_lowercase`.
pub open spec fn ascii_lower(c: char) -> char {
    if 'A' <= c && c <= 'Z' {
        ((c as int) + 32) as char
    } else {
        c
    }
}

/// `str::eq_ignore_ascii_case`.
pub open spec fn eq_ignore_ascii_case(a: Seq<char>, b: Seq<char>) -> bool {
    a.len() == b.len() && forall|i: int| 0 <= i < a.len() ==> ascii_lower(#[trigger] a[i]) == ascii_lower(b[i])
}

fn ascii_lower_char(c: char) -> (r: char)
    ensures
        r == ascii_lower(c),
{
    if 'A' <= c && c <= 'Z' {
        let b: u8 = c as u8;
        assert(b as int == c as int);
        let l: u8 = b + 32;
        l as char
    } else {
        c
    }
}

fn eq_ignore_ascii_case_range(p: &Vec<char>, lo: usize, hi: usize, lit: &str) -> (r: bool)
    requires
        lo <= hi <= p@.len(),
    ensures
        r == eq_ignore_ascii_case(p@.subrange(lo as int, hi as int), lit@),
{
    let l = str_chars(lit);
    if hi - lo != l.len() {
        return false;
    }
    let mut i: usize = 0;
    while i < l.len()
        invariant
            hi - lo == l@.len(),
            lo <= hi <= p@.len(),
            l@ == lit@,
            0 <= i <= l@.len(),
            forall|k: int| 0 <= k < i ==> ascii_lower(p@[lo + k]) == ascii_lower(l@[k]),
        decreases l@.len() - i,
    {
        if ascii_lower_char(p[lo + i]) != ascii_lower_char(l[i]) {
            assert(p@.subrange(lo as int, hi as int)[i as int] == p@[lo + i]);
            return false;
        }
        i = i + 1;
    }
    assert forall|k: int| 0 <= k < l@.len() implies ascii_lower(#[trigger] p@.subrange(lo as int, hi as int)[k]) == ascii_lower(lit@[k]) by {
        assert(p@.subrange(lo as int, hi as int)[k] == p@[lo + k]);
    }
    true
}

/// The path has an extension equal to `ext` up to ASCII case.
pub open spec fn has_extension_ignore_case(p: Seq<char>, ext: Seq<char>) -> bool {
    match extension(p) {
        Some(e) => eq_ignore_ascii_case(e, ext),
        None => false,
    }
}

fn has_extension_ignore_case_exec(path: &str, ext: &str) -> (r: bool)
    ensures
        r == has_extension_ignore_case(path@, ext@),
{
    let p = str_chars(path);
    match extension_range(&p) {
        Some((a, b)) => eq_ignore_ascii_case_range(&p, a, b, ext),
        None => false,
    }
}

/// Whether the path names a beatmap (`.osu`, any ASCII case).
pub fn is_osu_file(path: &str) -> (r: bool)
    ensures
        r == has_extension_ignore_case(path@, "osu"@),
{
    has_extension_ignore_case_exec(path, "osu")
}

/// Whether the path names a storyboard script (`.osb`, any ASCII case).
pub fn is_osb_file(path: &str) -> (r: bool)
    ensures
        r == has_extension_ignore_case(path@, "osb"@),
{
    has_extension_ignore_case_exec(path, "osb")
}

/// Whether the path names a beatmap archive (`.osz`, any case).
pub fn is_osz_file(path: &str) -> (r: bool)
    ensures
        r == has_extension_ignore_case(path@, "osz"@),
{
    has_extension_ignore_case_exec(path, "osz")
}

/// The result of `str::to_lowercase` (the Unicode lowercase mapping).
pub uninterp spec fn lowercase(s: Seq<char>) -> Seq<char>;

/// Calls `str::to_lowercase`; its result is taken to be `lowercase` of the
/// input, a function of the characters alone (the Unicode mapping itself
/// is not written out here).
#[verifier::external_body]
fn to_lowercase(s: &str) -> (r: String)
    ensures
        r@ == lowercase(s@),
{
    s.to_lowercase()
}

/// The lowercased extensions that count as audio.
pub open spec fn is_audio_extension_name(e: Seq<char>) -> bool {
    e == "mp3"@ || e == "ogg"@ || e == "wav"@ || e == "flac"@ || e == "m4a"@ || e == "wma"@
}

/// The path's extension, lowercased, is an audio extension.
pub open spec fn has_audio_extension(p: Seq<char>) -> bool {
    match extension(p) {
        Some(e) => is_audio_extension_name(lowercase(e)),
        None => false,
    }
}

/// Whether the path has an audio file extension (`mp3`, `ogg`, `wav`,
/// `flac`, `m4a` or `wma`, compared after lowercasing).
pub fn is_audio_extension(path: &str) -> (r: bool)
    ensures
        r == has_audio_extension(path@),
{
    let p = str_chars(path);
    match extension_range(&p) {
        Some((a, b)) => {
            let e = string_from_chars(copy_range(&p, a, b));
            let l = str_chars(to_lowercase(e.as_str()).as_str());
            chars_eq_str(&l, "mp3") || chars_eq_str(&l, "ogg") || chars_eq_str(&l, "wav")
                || chars_eq_str(&l, "flac") || chars_eq_str(&l, "m4a") || chars_eq_str(&l, "wma")
        },
        None => false,
    }
}

/// Whether `infer::get` recognises `data` as a file type whose matcher type
/// is audio (the first of its known signatures that matches is an audio one).
pub uninterp spec fn infer_detects_audio(data: Seq<u8>) -> bool;

/// Calls `infer::get` on the bytes and asks whether the kind it finds has
/// the audio matcher type; the answer is taken to be `infer_detects_audio`
/// of the bytes, a function of the bytes alone (the signatures themselves
/// are not written out here).
#[verifier::external_body]
fn is_audio_content(data: &[u8]) -> (r: bool)
    ensures
        r == infer_detects_audio(data@),
{
    match infer::get(data) {
        Some(kind) => match kind.matcher_type() {
            infer::MatcherType::Audio => true,
            _ => false,
        },
        None => false,
    }
}

/// A file counts as audio when its content or its extension says so.
pub open spec fn is_audio_file(p: Seq<char>, data: Seq<u8>) -> bool {
    infer_detects_audio(data) || has_audio_extension(p)
}

/// Whether a file is audio: by its magic bytes, or else by its extension.
pub fn is_audio(path: &str, data: &[u8]) -> (r: bool)
    ensures
        r == is_audio_file(path@, data@),
{
    is_audio_content(data) || is_audio_extension(path)
}

/// Backslashes turned into forward slashes.
pub open spec fn forward_slashes(p: Seq<char>) -> Seq<char> {
    p.map_values(|c: char| if c == '\\' { '/' } else { c })
}

/// The spelling used to match paths: forward slashes, lowercased.
pub open spec fn normalized(p: Seq<char>) -> Seq<char> {
    lowercase(forward_slashes(p))
}

/// Normalizes path separators and case for comparison: backslashes become
/// forward slashes, then the whole path is lowercased.
pub fn normalize_path(path: &str) -> (r: String)
    ensures
        r@ == normalized(path@),
{
    let p = str_chars(path);
    let mut v: Vec<char> = Vec::new();
    let mut i: usize = 0;
    while i < p.len()
        invariant
            0 <= i <= p@.len(),
            p@ == path@,
            v@ == forward_slashes(p@.take(i as int)),
        decreases p@.len() - i,
    {
        let c = p[i];
        if c == '\\' {
            v.push('/');
        } else {
            v.push(c);
        }
        assert(forward_slashes(p@.take(i + 1)) =~= forward_slashes(p@.take(i as int)).push(
            if c == '\\' { '/' } else { c },
        ));
        i = i + 1;
    }
    assert(p@.take(p@.len() as int) == p@);
    let s = string_from_chars(v);
    to_lowercase(s.as_str())
}


/// The audio extensions are `mp3`, `ogg`, `wav`, `flac`, `m4a` and `wma`.
pub proof fn lemma_audio_extension_names()
    ensures
        is_audio_extension_name("mp3"@),
        is_audio_extension_name("ogg"@),
        is_audio_extension_name("wav"@),
        is_audio_extension_name("flac"@),
        is_audio_extension_name("m4a"@),
        is_audio_extension_name("wma"@),
        !is_audio_extension_name("osu"@),
        !is_audio_extension_name("osb"@),
        !is_audio_extension_name("png"@),
        !is_audio_extension_name("jpg"@),
{
    reveal_strlit("mp3");
    reveal_strlit("ogg");
    reveal_strlit("wav");
    reveal_strlit("flac");
    reveal_strlit("m4a");
    reveal_strlit("wma");
    reveal_strlit("osu");
    reveal_strlit("osb");
    reveal_strlit("png");
    reveal_strlit("jpg");
    assert("osu"@[0] != "mp3"@[0] && "osu"@[0] != "wav"@[0] && "osu"@[0] != "flac"@[0] && "osu"@[0] != "m4a"@[0]
        && "osu"@[0] != "wma"@[0] && "osu"@[1] != "ogg"@[1]);
    assert("osb"@[0] != "mp3"@[0] && "osb"@[0] != "wav"@[0] && "osb"@[0] != "flac"@[0] && "osb"@[0] != "m4a"@[0]
        && "osb"@[0] != "wma"@[0] && "osb"@[1] != "ogg"@[1]);
    assert("png"@[0] != "mp3"@[0] && "png"@[0] != "wav"@[0] && "png"@[0] != "flac"@[0] && "png"@[0] != "m4a"@[0]
        && "png"@[0] != "wma"@[0] && "png"@[0] != "ogg"@[0]);
    assert("jpg"@[0] != "mp3"@[0] && "jpg"@[0] != "wav"@[0] && "jpg"@[0] != "flac"@[0] && "jpg"@[0] != "m4a"@[0]
        && "jpg"@[0] != "wma"@[0] && "jpg"@[0] != "ogg"@[0]);
}

/// Turning separators: every backslash becomes a forward slash and every
/// other character stays, so the length is kept.
pub proof fn lemma_forward_slashes(p: Seq<char>)
    ensures
        forward_slashes(p).len() == p.len(),
        forall|i: int| 0 <= i < p.len() && p[i] == '\\' ==> #[trigger] forward_slashes(p)[i] == '/',
        forall|i: int| 0 <= i < p.len() && p[i] != '\\' ==> #[trigger] forward_slashes(p)[i] == p[i],
{
}

} // verus!
