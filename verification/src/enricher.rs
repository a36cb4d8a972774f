//! Enrichment inputs: the API credentials file, the beatmaps worth looking
//! up, the pinned comments kept from a reply, and the rotation over API
//! clients.

use vstd::prelude::*;
use crate::text::{lemma_lines_first, strip_cr, lines, next_line, parse_u64, parse_u64_range, str_chars, trim, trim_range, copy_range, string_from_chars};

verus! {

/// Why the credentials file is refused.
#[derive(Debug, PartialEq, Eq)]
pub enum CredentialsError {
    /// The file has no line at all.
    Empty,
    /// The first line, trimmed, is not a number.
    InvalidClientId,
    /// There is no second line.
    MissingSecret,
}

/// The credentials held by a file's text: the client id on the first line
/// and the client secret on the second, both trimmed.
pub open spec fn credentials_of(content: Seq<char>) -> Result<(u64, Seq<char>), CredentialsError> {
    let ls = lines(content);
    if ls.len() == 0 {
        Err(CredentialsError::Empty)
    } else {
        match parse_u64(trim(ls[0])) {
            None => Err(CredentialsError::InvalidClientId),
            Some(id) => if ls.len() < 2 {
                Err(CredentialsError::MissingSecret)
            } else {
                Ok((id, trim(ls[1])))
            },
        }
    }
}

/// Reads the API credentials from the text of the credentials file.
pub fn read_credentials(content: &str) -> (r: Result<(u64, String), CredentialsError>)
    ensures
        match r {
            Ok((id, secret)) => credentials_of(content@) == Ok::<(u64, Seq<char>), CredentialsError>((id, secret@)),
            Err(e) => credentials_of(content@) == Err::<(u64, Seq<char>), CredentialsError>(e),
        },
{
    let c = str_chars(content);
    let n = c.len();
    assert(c@.subrange(0, n as int) == c@);
    if n == 0 {
        return Err(CredentialsError::Empty);
    }
    let (end0, next0) = next_line(&c, 0);
    let (lo, hi) = trim_range(&c, 0, end0);
    let id = match parse_u64_range(&c, lo, hi) {
        Some(v) => v,
        None => {
            return Err(CredentialsError::InvalidClientId);
        },
    };
    if next0 >= n {
        assert(c@.subrange(next0 as int, n as int) == Seq::<char>::empty());
        return Err(CredentialsError::MissingSecret);
    }
    let (end1, next1) = next_line(&c, next0);
    let (lo1, hi1) = trim_range(&c, next0, end1);
    let secret = copy_range(&c, lo1, hi1);
    Ok((id, string_from_chars(secret)))
}

/// The positions of the beatmaps with an id worth looking up (above zero).
pub open spec fn id_lines(ids: Seq<i32>) -> Seq<int> {
    Seq::new(ids.len(), |i: int| i).filter(positive_id(ids))
}

/// Line `i` holds an id above zero.
pub open spec fn positive_id(ids: Seq<i32>) -> spec_fn(int) -> bool {
    |i: int| ids[i] > 0
}

/// The beatmaps worth looking up, from the id, folder and file columns of
/// the beatmaps table: those with an id above zero, in table order.
pub fn read_beatmap_ids(beatmap_id: &[i32], folder_id: &[String], osu_file: &[String]) -> (r: Vec<(u32, String, String)>)
    requires
        folder_id@.len() == beatmap_id@.len(),
        osu_file@.len() == beatmap_id@.len(),
    ensures
        r@.len() == id_lines(beatmap_id@).len(),
        forall|k: int| 0 <= k < r@.len() ==> {
            let line = id_lines(beatmap_id@)[k];
            &&& (#[trigger] r@[k]).0 == beatmap_id@[line]
            &&& r@[k].1@ == folder_id@[line]@
            &&& r@[k].2@ == osu_file@[line]@
        },
{
    let n = beatmap_id.len();
    let ghost all = Seq::new(n as nat, |i: int| i);
    let ghost pred = positive_id(beatmap_id@);
    let mut out: Vec<(u32, String, String)> = Vec::new();
    let mut i: usize = 0;
    while i < n
        invariant
            0 <= i <= n == beatmap_id@.len(),
            folder_id@.len() == n,
            osu_file@.len() == n,
            all == Seq::new(n as nat, |i: int| i),
            pred == positive_id(beatmap_id@),
            out@.len() == all.take(i as int).filter(pred).len(),
            forall|k: int| 0 <= k < out@.len() ==> {
                let line = all.take(i as int).filter(pred)[k];
                &&& (#[trigger] out@[k]).0 == beatmap_id@[line]
                &&& out@[k].1@ == folder_id@[line]@
                &&& out@[k].2@ == osu_file@[line]@
            },
        decreases n - i,
    {
        proof {
            crate::text::lemma_filter_take_step(all, pred, i as int);
        }
        let id = beatmap_id[i];
        if id > 0 {
            assert(pred(all[i as int]));
            out.push((id as u32, folder_id[i].clone(), osu_file[i].clone()));
        } else {
            assert(!pred(all[i as int]));
        }
        i = i + 1;
    }
    assert(all.take(n as int) == all);
    out
}

/// The positions of the pinned comments not already among the comments
/// of the reply.
pub open spec fn pinned_lines(comment_ids: Seq<u32>, pinned_ids: Seq<u32>) -> Seq<int> {
    Seq::new(pinned_ids.len(), |i: int| i).filter(not_listed(comment_ids, pinned_ids))
}

/// Pinned comment `i` is not among the reply's comments.
pub open spec fn not_listed(comment_ids: Seq<u32>, pinned_ids: Seq<u32>) -> spec_fn(int) -> bool {
    |i: int| !comment_ids.contains(pinned_ids[i])
}

/// Which pinned comments of a reply are added: those whose id is not the
/// id of one of the reply's comments, in order.
pub fn pinned_comments_to_add(comment_ids: &[u32], pinned_ids: &[u32]) -> (r: Vec<usize>)
    ensures
        r@.len() == pinned_lines(comment_ids@, pinned_ids@).len(),
        forall|k: int| 0 <= k < r@.len() ==> #[trigger] r@[k] == pinned_lines(comment_ids@, pinned_ids@)[k],
{
    let n = pinned_ids.len();
    let ghost all = Seq::new(n as nat, |i: int| i);
    let ghost pred = not_listed(comment_ids@, pinned_ids@);
    let mut out: Vec<usize> = Vec::new();
    let mut i: usize = 0;
    while i < n
        invariant
            0 <= i <= n == pinned_ids@.len(),
            all == Seq::new(n as nat, |i: int| i),
            pred == not_listed(comment_ids@, pinned_ids@),
            out@.len() == all.take(i as int).filter(pred).len(),
            forall|k: int| 0 <= k < out@.len() ==> #[trigger] out@[k] == all.take(i as int).filter(pred)[k],
        decreases n - i,
    {
        proof {
            crate::text::lemma_filter_take_step(all, pred, i as int);
        }
        let target = pinned_ids[i];
        let mut j: usize = 0;
        let mut found = false;
        while j < comment_ids.len()
            invariant
                0 <= j <= comment_ids@.len(),
                found == exists|k: int| 0 <= k < j && comment_ids@[k] == target,
            decreases comment_ids@.len() - j,
        {
            if comment_ids[j] == target {
                found = true;
            }
            j = j + 1;
        }
        assert(found == comment_ids@.contains(target));
        if !found {
            assert(pred(all[i as int]));
            out.push(i);
        } else {
            assert(!pred(all[i as int]));
        }
        i = i + 1;
    }
    assert(all.take(n as int) == all);
    out
}

/// A pool of API clients handed out in turn.
pub struct OsuClientPool<C> {
    clients: Vec<C>,
    current: usize,
}

impl<C> OsuClientPool<C> {
    /// The clients of the pool.
    pub closed spec fn clients(self) -> Seq<C> {
        self.clients@
    }

    /// How many clients were handed out so far, counted modulo the word size.
    pub closed spec fn handed_out(self) -> nat {
        self.current as nat
    }

    /// A pool of the given clients, none handed out yet.
    pub fn new(clients: Vec<C>) -> (r: Self)
        ensures
            r.clients() == clients@,
            r.handed_out() == 0,
    {
        OsuClientPool { clients, current: 0 }
    }

    /// The next client in turn: the counter of handed-out clients taken
    /// modulo the number of clients; the counter then goes up by one,
    /// wrapping around at the word size.
    pub fn get_next(&mut self) -> (r: &C)
        requires
            old(self).clients().len() > 0,
        ensures
            *r == old(self).clients()[(old(self).handed_out() % old(self).clients().len()) as int],
            final(self).clients() == old(self).clients(),
            final(self).handed_out() == (if old(self).handed_out() == usize::MAX { 0 } else { old(self).handed_out() + 1 }),
    {
        let idx = self.current % self.clients.len();
        self.current = if self.current == usize::MAX { 0 } else { self.current + 1 };
        &self.clients[idx]
    }

    /// The number of clients in the pool.
    pub fn client_count(&self) -> (r: usize)
        ensures
            r == self.clients().len(),
    {
        self.clients.len()
    }
}


/// The beatmaps looked up are exactly those whose id is above zero.
pub proof fn lemma_id_lines(ids: Seq<i32>)
    ensures
        forall|k: int| 0 <= k < id_lines(ids).len() ==> 0 <= #[trigger] id_lines(ids)[k] < ids.len() && ids[id_lines(ids)[k]] > 0,
        forall|i: int| 0 <= i < ids.len() && ids[i] > 0 ==> #[trigger] id_lines(ids).contains(i),
{
    let all = Seq::new(ids.len(), |i: int| i);
    let p = positive_id(ids);
    assert forall|k: int| 0 <= k < id_lines(ids).len() implies 0 <= #[trigger] id_lines(ids)[k] < ids.len() && ids[id_lines(ids)[k]] > 0 by {
        all.lemma_filter_pred(p, k);
        assert(id_lines(ids).contains(id_lines(ids)[k]));
        all.lemma_filter_contains_rev(p, id_lines(ids)[k]);
    }
    assert forall|i: int| 0 <= i < ids.len() && ids[i] > 0 implies #[trigger] id_lines(ids).contains(i) by {
        assert(all[i] == i);
        all.lemma_filter_contains(p, i);
    }
}

/// The pinned comments added are exactly those whose id is not the id of
/// one of the reply's comments.
pub proof fn lemma_pinned_lines(comment_ids: Seq<u32>, pinned_ids: Seq<u32>)
    ensures
        forall|k: int| 0 <= k < pinned_lines(comment_ids, pinned_ids).len() ==> {
            let i = #[trigger] pinned_lines(comment_ids, pinned_ids)[k];
            0 <= i < pinned_ids.len() && forall|j: int| 0 <= j < comment_ids.len() ==> comment_ids[j] != pinned_ids[i]
        },
        forall|i: int| 0 <= i < pinned_ids.len() && (forall|j: int| 0 <= j < comment_ids.len() ==> comment_ids[j] != pinned_ids[i])
            ==> #[trigger] pinned_lines(comment_ids, pinned_ids).contains(i),
{
    let all = Seq::new(pinned_ids.len(), |i: int| i);
    let p = not_listed(comment_ids, pinned_ids);
    let ls = pinned_lines(comment_ids, pinned_ids);
    assert forall|k: int| 0 <= k < ls.len() implies {
        let i = #[trigger] ls[k];
        0 <= i < pinned_ids.len() && forall|j: int| 0 <= j < comment_ids.len() ==> comment_ids[j] != pinned_ids[i]
    } by {
        all.lemma_filter_pred(p, k);
        assert(ls.contains(ls[k]));
        all.lemma_filter_contains_rev(p, ls[k]);
        assert forall|j: int| 0 <= j < comment_ids.len() implies comment_ids[j] != pinned_ids[ls[k]] by {
            if comment_ids[j] == pinned_ids[ls[k]] {
                assert(comment_ids.contains(pinned_ids[ls[k]]));
            }
        }
    }
    assert forall|i: int| 0 <= i < pinned_ids.len() && (forall|j: int| 0 <= j < comment_ids.len() ==> comment_ids[j] != pinned_ids[i])
        implies #[trigger] ls.contains(i) by {
        assert(all[i] == i);
        assert(!comment_ids.contains(pinned_ids[i]));
        all.lemma_filter_contains(p, i);
    }
}


/// A credentials file holds the client id on its first line and the
/// client secret on its second, each trimmed; a first line that is not a
/// number is refused, as is a file without a second line.
pub proof fn lemma_credentials_lines(first: Seq<char>, second: Seq<char>, rest: Seq<char>)
    requires
        forall|i: int| 0 <= i < first.len() ==> first[i] != '\n',
        forall|i: int| 0 <= i < second.len() ==> second[i] != '\n',
    ensures
        parse_u64(trim(strip_cr(first))) matches Some(id) ==> credentials_of(first + seq!['\n'] + second + seq!['\n'] + rest)
            == Ok::<(u64, Seq<char>), CredentialsError>((id, trim(strip_cr(second)))),
        parse_u64(trim(strip_cr(first))) is None ==> credentials_of(first + seq!['\n'] + second + seq!['\n'] + rest)
            == Err::<(u64, Seq<char>), CredentialsError>(CredentialsError::InvalidClientId),
        parse_u64(trim(strip_cr(first))) is Some ==> credentials_of(first + seq!['\n']) == Err::<(u64, Seq<char>), CredentialsError>(
            CredentialsError::MissingSecret),
        credentials_of(Seq::empty()) == Err::<(u64, Seq<char>), CredentialsError>(CredentialsError::Empty),
{
    let tail = second + seq!['\n'] + rest;
    assert(first + seq!['\n'] + second + seq!['\n'] + rest =~= first + seq!['\n'] + tail);
    lemma_lines_first(first, tail);
    lemma_lines_first(second, rest);
    lemma_lines_first(first, Seq::empty());
    assert(first + seq!['\n'] + Seq::<char>::empty() =~= first + seq!['\n']);
    assert(lines(Seq::<char>::empty()) == Seq::<Seq<char>>::empty());
}

} // verus!
