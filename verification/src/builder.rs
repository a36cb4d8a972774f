//! Dataset building rules: which folders are processed, where a folder's
//! assets are filed, and how a hit object's combo offset is recorded.

use vstd::prelude::*;
use crate::beatmap::HitObjectKind;
use crate::sorted::{lemma_contains_push, sort_dedup, strictly_sorted, texts};
use crate::text::{
    copy_range, find_char, find_char_range, lines, next_line, push_str, str_chars, str_eq,
    string_from_chars, trim, trim_range,
};

verus! {

/// The list of folders that failed in earlier runs.
pub struct FailedFolders {
    /// The non-empty lines of the list, trimmed, in order.
    pub lines: Vec<String>,
    /// The distinct folder names the lines begin with, sorted.
    pub names: Vec<String>,
}

/// The trimmed, non-empty lines of a text, in order.
pub open spec fn kept_lines(content: Seq<char>) -> Seq<Seq<char>> {
    lines(content).map_values(|l: Seq<char>| trim(l)).filter(|l: Seq<char>| l.len() > 0)
}

/// The folder name a line of the failure list begins with: the text before
/// its first colon (the whole line when there is none), trimmed.
pub open spec fn failed_name(line: Seq<char>) -> Seq<char> {
    match find_char(line, ':') {
        Some(i) => trim(line.subrange(0, i)),
        None => trim(line),
    }
}

/// Some kept line of the list names the folder `x`.
pub open spec fn names_failed(content: Seq<char>, x: Seq<char>) -> bool {
    x.len() > 0 && exists|k: int| 0 <= k < kept_lines(content).len() && failed_name(#[trigger] kept_lines(content)[k]) == x
}

proof fn lemma_kept_lines_push(ls: Seq<Seq<char>>, l: Seq<char>)
    ensures
        ls.push(l).map_values(|x: Seq<char>| trim(x)).filter(|x: Seq<char>| x.len() > 0) == (if trim(l).len() > 0 {
            ls.map_values(|x: Seq<char>| trim(x)).filter(|x: Seq<char>| x.len() > 0).push(trim(l))
        } else {
            ls.map_values(|x: Seq<char>| trim(x)).filter(|x: Seq<char>| x.len() > 0)
        }),
{
    let f = |x: Seq<char>| trim(x);
    let p = |x: Seq<char>| x.len() > 0;
    assert(ls.push(l).map_values(f) =~= ls.map_values(f).push(trim(l)));
    ls.map_values(f).lemma_filter_push(trim(l), p);
}

fn failed_name_of(line: &String) -> (r: String)
    ensures
        r@ == failed_name(line@),
{
    let c = str_chars(line.as_str());
    let n = c.len();
    assert(c@.subrange(0, n as int) == c@);
    let end = match find_char_range(&c, 0, n, ':') {
        Some(i) => i,
        None => n,
    };
    let (lo, hi) = trim_range(&c, 0, end);
    string_from_chars(copy_range(&c, lo, hi))
}

/// Reads the list of folders that failed before: its trimmed non-empty
/// lines, and the distinct non-empty folder names they begin with.
pub fn parse_failed_folders(content: &str) -> (r: FailedFolders)
    ensures
        texts(r.lines@) == kept_lines(content@),
        strictly_sorted(texts(r.names@)),
        forall|x: Seq<char>| texts(r.names@).contains(x) <==> names_failed(content@, x),
{
    let c = str_chars(content);
    let n = c.len();
    let mut kept: Vec<String> = Vec::new();
    let mut names: Vec<String> = Vec::new();
    let mut pos: usize = 0;
    let ghost mut seen: Seq<Seq<char>> = Seq::empty();
    assert(c@.subrange(0, n as int) == c@);
    while pos < n
        invariant
            pos <= n == c@.len(),
            c@ == content@,
            seen + lines(c@.subrange(pos as int, n as int)) == lines(content@),
            texts(kept@) == seen.map_values(|x: Seq<char>| trim(x)).filter(|x: Seq<char>| x.len() > 0),
            forall|x: Seq<char>| texts(names@).contains(x) <==> (x.len() > 0 && exists|k: int| 0 <= k < texts(kept@).len() && failed_name(#[trigger] texts(kept@)[k]) == x),
        decreases n - pos,
    {
        let (end, next) = next_line(&c, pos);
        let ghost line = c@.subrange(pos as int, end as int);
        let (lo, hi) = trim_range(&c, pos, end);
        let t = string_from_chars(copy_range(&c, lo, hi));
        proof {
            lemma_kept_lines_push(seen, line);
            assert(seen.push(line) + lines(c@.subrange(next as int, n as int)) == seen + lines(c@.subrange(pos as int, n as int)));
        }
        if hi > lo {
            let ghost prev_kept = texts(kept@);
            let ghost prev_names = texts(names@);
            let name = failed_name_of(&t);
            kept.push(t);
            assert(texts(kept@) =~= prev_kept.push(trim(line)));
            if !name.as_str().is_empty() {
                names.push(name);
                assert(texts(names@) =~= prev_names.push(failed_name(trim(line))));
            }
            assert forall|x: Seq<char>| texts(names@).contains(x) <==> (x.len() > 0 && exists|k: int| 0 <= k < texts(kept@).len() && failed_name(#[trigger] texts(kept@)[k]) == x) by {
                lemma_contains_push(prev_names, failed_name(trim(line)), x);
                let kk = texts(kept@);
                if x.len() > 0 && exists|k: int| 0 <= k < kk.len() && failed_name(#[trigger] kk[k]) == x {
                    let k = choose|k: int| 0 <= k < kk.len() && failed_name(#[trigger] kk[k]) == x;
                    if k < prev_kept.len() {
                        assert(kk[k] == prev_kept[k]);
                    }
                }
                if x.len() > 0 && exists|k: int| 0 <= k < prev_kept.len() && failed_name(#[trigger] prev_kept[k]) == x {
                    let k = choose|k: int| 0 <= k < prev_kept.len() && failed_name(#[trigger] prev_kept[k]) == x;
                    assert(kk[k] == prev_kept[k]);
                }
                if x.len() > 0 && x == failed_name(trim(line)) {
                    assert(kk[prev_kept.len() as int] == trim(line));
                }
            }
        }
        proof {
            seen = seen.push(line);
        }
        pos = next;
    }
    assert(lines(c@.subrange(n as int, n as int)) == Seq::<Seq<char>>::empty());
    assert(seen + Seq::<Seq<char>>::empty() == seen);
    let sorted = sort_dedup(names);
    FailedFolders { lines: kept, names: sorted }
}

/// The positions of the candidate folders whose name is neither among the
/// folders already in the dataset nor among the failed ones.
pub open spec fn new_folder_lines(candidates: Seq<Seq<char>>, existing: Seq<Seq<char>>, failed: Seq<Seq<char>>) -> Seq<int> {
    Seq::new(candidates.len(), |i: int| i).filter(is_new_folder(candidates, existing, failed))
}

/// Candidate `i` is neither already in the dataset nor on the failure list.
pub open spec fn is_new_folder(candidates: Seq<Seq<char>>, existing: Seq<Seq<char>>, failed: Seq<Seq<char>>) -> spec_fn(int) -> bool {
    |i: int| !existing.contains(candidates[i]) && !failed.contains(candidates[i])
}

fn contains_text(items: &[String], s: &String) -> (r: bool)
    ensures
        r == texts(items@).contains(s@),
{
    let mut i: usize = 0;
    while i < items.len()
        invariant
            0 <= i <= items@.len(),
            forall|k: int| 0 <= k < i ==> (#[trigger] items@[k])@ != s@,
        decreases items@.len() - i,
    {
        if str_eq(items[i].as_str(), s.as_str()) {
            assert(texts(items@)[i as int] == s@);
            return true;
        }
        i = i + 1;
    }
    assert(!texts(items@).contains(s@)) by {
        if texts(items@).contains(s@) {
            let k = choose|k: int| 0 <= k < texts(items@).len() && texts(items@)[k] == s@;
            assert(items@[k]@ == s@);
        }
    }
    false
}

/// Which of the candidate folders are processed: those not already in the
/// dataset and not on the failure list, in order.
pub fn select_new_folders(candidates: &[String], existing: &[String], failed: &[String]) -> (r: Vec<usize>)
    ensures
        r@.len() == new_folder_lines(texts(candidates@), texts(existing@), texts(failed@)).len(),
        forall|k: int| 0 <= k < r@.len() ==> #[trigger] r@[k] == new_folder_lines(texts(candidates@), texts(existing@), texts(failed@))[k],
{
    let n = candidates.len();
    let ghost all = Seq::new(n as nat, |i: int| i);
    let ghost cs = texts(candidates@);
    let ghost pred = is_new_folder(cs, texts(existing@), texts(failed@));
    let mut out: Vec<usize> = Vec::new();
    let mut i: usize = 0;
    while i < n
        invariant
            0 <= i <= n == candidates@.len(),
            cs == texts(candidates@),
            all == Seq::new(n as nat, |i: int| i),
            pred == is_new_folder(cs, texts(existing@), texts(failed@)),
            out@.len() == all.take(i as int).filter(pred).len(),
            forall|k: int| 0 <= k < out@.len() ==> #[trigger] out@[k] == all.take(i as int).filter(pred)[k],
        decreases n - i,
    {
        proof {
            crate::text::lemma_filter_take_step(all, pred, i as int);
        }
        assert(cs[i as int] == candidates@[i as int]@);
        if !contains_text(existing, &candidates[i]) && !contains_text(failed, &candidates[i]) {
            assert(pred(all[i as int]));
            out.push(i);
        } else {
            assert(!pred(all[i as int]));
        }
        i = i + 1;
    }
    assert(all.take(n as int) == all);
    out
}

/// Where a folder's asset is filed in the dataset: `assets/<folder>/<file>`,
/// or nothing when the beatmap names no file.
pub open spec fn asset_path_spec(folder_id: Seq<char>, file: Seq<char>) -> Seq<char> {
    if file.len() == 0 {
        Seq::empty()
    } else {
        "assets/"@ + folder_id + "/"@ + file
    }
}

/// The dataset path recorded for a beatmap's audio or background file.
pub fn asset_path(folder_id: &str, file: &str) -> (r: String)
    ensures
        r@ == asset_path_spec(folder_id@, file@),
{
    if file.is_empty() {
        return String::new();
    }
    let mut v: Vec<char> = Vec::new();
    push_str(&mut v, "assets/");
    push_str(&mut v, folder_id);
    push_str(&mut v, "/");
    push_str(&mut v, file);
    string_from_chars(v)
}

/// The distinct asset files a folder refers to (its beatmaps' audio and
/// background files and its storyboard images), empty names left out,
/// sorted.
pub fn collect_assets(refs: &[String]) -> (r: Vec<String>)
    ensures
        strictly_sorted(texts(r@)),
        forall|x: Seq<char>| texts(r@).contains(x) <==> (x.len() > 0 && texts(refs@).contains(x)),
{
    let mut named: Vec<String> = Vec::new();
    let mut i: usize = 0;
    while i < refs.len()
        invariant
            0 <= i <= refs@.len(),
            forall|x: Seq<char>| texts(named@).contains(x) <==> (x.len() > 0 && texts(refs@.take(i as int)).contains(x)),
        decreases refs@.len() - i,
    {
        let ghost prev = texts(named@);
        assert(texts(refs@.take(i + 1)) =~= texts(refs@.take(i as int)).push(refs@[i as int]@));
        if !refs[i].as_str().is_empty() {
            named.push(refs[i].clone());
            assert(texts(named@) =~= prev.push(refs@[i as int]@));
        }
        assert forall|x: Seq<char>| texts(named@).contains(x) <==> (x.len() > 0 && texts(refs@.take(i + 1)).contains(x)) by {
            lemma_contains_push(prev, refs@[i as int]@, x);
            lemma_contains_push(texts(refs@.take(i as int)), refs@[i as int]@, x);
        }
        i = i + 1;
    }
    assert(refs@.take(refs@.len() as int) == refs@);
    sort_dedup(named)
}

/// The combo offset recorded for a hit object: its own for circles and
/// sliders, none for spinners and hold notes.
pub fn extract_combo_offset(kind: HitObjectKind, combo_offset: i32) -> (r: i32)
    ensures
        r == (match kind {
            HitObjectKind::Circle | HitObjectKind::Slider => combo_offset,
            HitObjectKind::Spinner | HitObjectKind::Hold => 0i32,
        }),
{
    match kind {
        HitObjectKind::Circle | HitObjectKind::Slider => combo_offset,
        HitObjectKind::Spinner | HitObjectKind::Hold => 0,
    }
}


/// The folders processed are exactly the candidates that are neither
/// already in the dataset nor on the failure list.
pub proof fn lemma_new_folders(candidates: Seq<Seq<char>>, existing: Seq<Seq<char>>, failed: Seq<Seq<char>>)
    ensures
        forall|k: int| 0 <= k < new_folder_lines(candidates, existing, failed).len() ==> {
            let i = #[trigger] new_folder_lines(candidates, existing, failed)[k];
            &&& 0 <= i < candidates.len()
            &&& forall|j: int| 0 <= j < existing.len() ==> existing[j] != candidates[i]
            &&& forall|j: int| 0 <= j < failed.len() ==> failed[j] != candidates[i]
        },
        forall|i: int| 0 <= i < candidates.len() && (forall|j: int| 0 <= j < existing.len() ==> existing[j] != candidates[i])
            && (forall|j: int| 0 <= j < failed.len() ==> failed[j] != candidates[i])
            ==> #[trigger] new_folder_lines(candidates, existing, failed).contains(i),
{
    let all = Seq::new(candidates.len(), |i: int| i);
    let p = is_new_folder(candidates, existing, failed);
    let ls = new_folder_lines(candidates, existing, failed);
    assert forall|k: int| 0 <= k < ls.len() implies {
        let i = #[trigger] ls[k];
        &&& 0 <= i < candidates.len()
        &&& forall|j: int| 0 <= j < existing.len() ==> existing[j] != candidates[i]
        &&& forall|j: int| 0 <= j < failed.len() ==> failed[j] != candidates[i]
    } by {
        all.lemma_filter_pred(p, k);
        assert(ls.contains(ls[k]));
        all.lemma_filter_contains_rev(p, ls[k]);
        let i = ls[k];
        assert forall|j: int| 0 <= j < existing.len() implies existing[j] != candidates[i] by {
            if existing[j] == candidates[i] {
                assert(existing.contains(candidates[i]));
            }
        }
        assert forall|j: int| 0 <= j < failed.len() implies failed[j] != candidates[i] by {
            if failed[j] == candidates[i] {
                assert(failed.contains(candidates[i]));
            }
        }
    }
    assert forall|i: int| 0 <= i < candidates.len() && (forall|j: int| 0 <= j < existing.len() ==> existing[j] != candidates[i])
        && (forall|j: int| 0 <= j < failed.len() ==> failed[j] != candidates[i]) implies #[trigger] ls.contains(i) by {
        assert(all[i] == i);
        assert(!existing.contains(candidates[i]));
        assert(!failed.contains(candidates[i]));
        all.lemma_filter_contains(p, i);
    }
}

/// An asset of a folder is filed under `assets/`, then the folder, then the
/// file name; a beatmap naming no file records no path.
pub proof fn lemma_asset_path_layout(folder_id: Seq<char>, file: Seq<char>)
    ensures
        file.len() == 0 ==> asset_path_spec(folder_id, file).len() == 0,
        file.len() > 0 ==> {
            let p = asset_path_spec(folder_id, file);
            &&& p.len() == 7 + folder_id.len() as int + 1 + file.len()
            &&& p.subrange(0, 7) == "assets/"@
            &&& p.subrange(7, 7 + folder_id.len() as int) == folder_id
            &&& p[7 + folder_id.len() as int] == '/'
            &&& p.subrange(8 + folder_id.len() as int, p.len() as int) == file
        },
{
    reveal_strlit("assets/");
    reveal_strlit("/");
    if file.len() > 0 {
        let p = asset_path_spec(folder_id, file);
        assert(p.subrange(0, 7) =~= "assets/"@);
        assert(p.subrange(7, 7 + folder_id.len() as int) =~= folder_id);
        assert(p.subrange(8 + folder_id.len() as int, p.len() as int) =~= file);
    }
}


/// The folder named by a line of the failure list is the text before the
/// line's first colon, trimmed (the whole line, trimmed, when it has no
/// colon).
pub proof fn lemma_failed_name(name: Seq<char>, rest: Seq<char>)
    requires
        forall|i: int| 0 <= i < name.len() ==> name[i] != ':',
    ensures
        failed_name(name + seq![':'] + rest) == trim(name),
        failed_name(name) == trim(name),
{
    let line = name + seq![':'] + rest;
    let k = name.len() as int;
    assert(crate::text::first_at(line, ':', k)) by {
        assert forall|j: int| 0 <= j < k implies line[j] != ':' by {
            assert(line[j] == name[j]);
        }
    }
    let c = choose|i: int| crate::text::first_at(line, ':', i);
    crate::text::lemma_first_at_unique(line, ':', c, k);
    assert(line.subrange(0, k) =~= name);
    assert(!exists|i: int| crate::text::first_at(name, ':', i));
}

} // verus!
