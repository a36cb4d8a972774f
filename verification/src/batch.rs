//! Row batching for the table writers: rows are gathered until a batch is
//! full; a batch counts as written only once its caller has stored it, and
//! the stored batches are the rows written, in order, in chunks of the
//! batch size.

use vstd::prelude::*;

verus! {

/// The number of rows gathered before a batch is handed out, unless
/// another size is asked for.
pub const DEFAULT_BATCH_SIZE: usize = 100;

/// Gathers the rows of one table into batches.
pub struct BatchWriter<T> {
    buffer: Vec<T>,
    batch_size: usize,
    total_rows: usize,
    /// Every row written, in order.
    written: Ghost<Seq<T>>,
    /// Every batch committed, in order.
    committed: Ghost<Seq<Seq<T>>>,
}

/// The number of rows in a full batch: the batch size, or one when the
/// size is zero (every row then fills a batch by itself).
pub open spec fn batch_unit(size: nat) -> nat {
    if size == 0 {
        1
    } else {
        size
    }
}

/// The rows in consecutive chunks of `k` rows, the last one possibly shorter.
pub open spec fn chunks<T>(rows: Seq<T>, k: nat) -> Seq<Seq<T>>
    decreases rows.len(),
{
    if rows.len() == 0 || k == 0 {
        Seq::empty()
    } else if rows.len() <= k {
        seq![rows]
    } else {
        seq![rows.take(k as int)] + chunks(rows.skip(k as int), k)
    }
}

/// The gathered rows as a last batch, if there are any.
pub open spec fn last_batch<T>(pending: Seq<T>) -> Seq<Seq<T>> {
    if pending.len() == 0 {
        Seq::empty()
    } else {
        seq![pending]
    }
}

impl<T> BatchWriter<T> {
    /// The writer is well formed: the committed batches followed by the
    /// gathered rows are the rows written, the count is that of the
    /// committed rows, and all rows can be counted in a word.
    pub closed spec fn wf(self) -> bool {
        &&& self.committed@.flatten() + self.buffer@ == self.written@
        &&& self.total_rows == self.committed@.flatten().len()
        &&& self.total_rows + self.buffer@.len() <= usize::MAX
    }

    /// The rows written since the last batch was committed.
    pub closed spec fn pending(self) -> Seq<T> {
        self.buffer@
    }

    /// The number of rows that makes a batch full.
    pub closed spec fn size(self) -> nat {
        self.batch_size as nat
    }

    /// The number of rows in committed batches.
    pub closed spec fn total(self) -> nat {
        self.total_rows as nat
    }

    /// Every row written, in order.
    pub closed spec fn written(self) -> Seq<T> {
        self.written@
    }

    /// Every batch committed, in order.
    pub closed spec fn committed(self) -> Seq<Seq<T>> {
        self.committed@
    }

    /// Every committed batch is full and the gathered rows do not fill one:
    /// what holds while each full batch is committed as soon as it fills.
    pub open spec fn in_chunks(self) -> bool {
        &&& forall|i: int| 0 <= i < self.committed().len() ==> (#[trigger] self.committed()[i]).len() == batch_unit(self.size())
        &&& self.pending().len() < batch_unit(self.size())
    }

    /// Every committed batch is full and so are the gathered rows: the
    /// moment a batch is due.
    pub open spec fn batch_due(self) -> bool {
        &&& forall|i: int| 0 <= i < self.committed().len() ==> (#[trigger] self.committed()[i]).len() == batch_unit(self.size())
        &&& self.pending().len() == batch_unit(self.size())
    }

    /// A writer with the default batch size.
    pub fn new() -> (r: Self)
        ensures
            r.wf(),
            r.in_chunks(),
            r.pending() == Seq::<T>::empty(),
            r.written() == Seq::<T>::empty(),
            r.committed() == Seq::<Seq<T>>::empty(),
            r.size() == DEFAULT_BATCH_SIZE,
            r.total() == 0,
    {
        Self::with_batch_size(DEFAULT_BATCH_SIZE)
    }

    /// A writer gathering batches of `batch_size` rows.
    pub fn with_batch_size(batch_size: usize) -> (r: Self)
        ensures
            r.wf(),
            r.in_chunks(),
            r.pending() == Seq::<T>::empty(),
            r.written() == Seq::<T>::empty(),
            r.committed() == Seq::<Seq<T>>::empty(),
            r.size() == batch_size,
            r.total() == 0,
    {
        let r = BatchWriter {
            buffer: Vec::new(),
            batch_size,
            total_rows: 0,
            written: Ghost(Seq::empty()),
            committed: Ghost(Seq::empty()),
        };
        assert(r.committed@.flatten() =~= Seq::<T>::empty());
        assert(r.committed@.flatten() + r.buffer@ =~= r.written@);
        r
    }

    /// Adds a row to the gathered ones and says whether they now reach the
    /// batch size, that is, whether a batch is due.
    pub fn write(&mut self, row: T) -> (full: bool)
        requires
            old(self).wf(),
            old(self).total() + old(self).pending().len() < usize::MAX,
        ensures
            final(self).wf(),
            final(self).size() == old(self).size(),
            final(self).total() == old(self).total(),
            final(self).committed() == old(self).committed(),
            final(self).written() == old(self).written().push(row),
            final(self).pending() == old(self).pending().push(row),
            full == (final(self).pending().len() >= final(self).size()),
            old(self).in_chunks() && full ==> final(self).batch_due(),
            old(self).in_chunks() && !full ==> final(self).in_chunks(),
    {
        let ghost before = self.buffer@;
        self.buffer.push(row);
        proof {
            self.written@ = self.written@.push(row);
            assert(self.committed@.flatten() + self.buffer@ =~= (self.committed@.flatten() + before).push(row));
        }
        self.buffer.len() >= self.batch_size
    }

    /// The gathered rows, which form the next batch.
    pub fn pending_batch(&self) -> (r: &[T])
        ensures
            r@ == self.pending(),
    {
        self.buffer.as_slice()
    }

    /// Records that the gathered rows were stored as a batch: they are
    /// counted and the next batch starts empty. With no rows gathered,
    /// nothing changes.
    pub fn commit_batch(&mut self)
        requires
            old(self).wf(),
        ensures
            final(self).wf(),
            final(self).size() == old(self).size(),
            final(self).written() == old(self).written(),
            final(self).pending() == Seq::<T>::empty(),
            final(self).total() == old(self).total() + old(self).pending().len(),
            final(self).committed() == old(self).committed() + last_batch(old(self).pending()),
            old(self).batch_due() ==> final(self).in_chunks(),
    {
        if self.buffer.len() == 0 {
            assert(self.committed@ + last_batch(self.buffer@) =~= self.committed@);
            return;
        }
        let ghost batch = self.buffer@;
        proof {
            self.committed@.lemma_flatten_push(batch);
        }
        self.total_rows = self.total_rows + self.buffer.len();
        self.buffer = Vec::new();
        proof {
            self.committed@ = self.committed@.push(batch);
            assert(old(self).committed@ + last_batch(batch) =~= self.committed@);
            assert(self.committed@.flatten() + self.buffer@ =~= self.committed@.flatten());
            if old(self).batch_due() {
                assert forall|i: int| 0 <= i < self.committed().len() implies (#[trigger] self.committed()[i]).len()
                    == batch_unit(self.size()) by {
                    if i < old(self).committed().len() {
                        assert(self.committed()[i] == old(self).committed()[i]);
                    }
                }
            }
        }
    }

    /// Whether one more row can be written (the count of rows stays within
    /// a word).
    pub fn has_room(&self) -> (r: bool)
        ensures
            r == (self.total() + self.pending().len() < usize::MAX),
    {
        self.total_rows < usize::MAX - self.buffer.len()
    }

    /// Closes a writer whose last batch was committed, giving the number of
    /// rows written in all.
    pub fn close(self) -> (r: usize)
        requires
            self.wf(),
            self.pending().len() == 0,
        ensures
            r == self.total(),
            r == self.written().len(),
    {
        assert(self.committed@.flatten() + self.buffer@ =~= self.committed@.flatten());
        self.total_rows
    }
}

proof fn lemma_chunks_of<T>(bs: Seq<Seq<T>>, p: Seq<T>, k: nat)
    requires
        k > 0,
        forall|i: int| 0 <= i < bs.len() ==> (#[trigger] bs[i]).len() == k,
        p.len() < k,
    ensures
        chunks(bs.flatten() + p, k) == bs + last_batch(p),
    decreases bs.len(),
{
    if bs.len() == 0 {
        assert(bs.flatten() + p =~= p);
        assert(bs + last_batch(p) =~= last_batch(p));
    } else {
        let rest = bs.drop_first();
        assert forall|i: int| 0 <= i < rest.len() implies (#[trigger] rest[i]).len() == k by {
            assert(rest[i] == bs[i + 1]);
        }
        lemma_chunks_of(rest, p, k);
        let tail = rest.flatten() + p;
        let rows = bs.flatten() + p;
        assert(bs.flatten() == bs[0] + rest.flatten());
        assert(rows =~= bs[0] + tail);
        assert(bs[0].len() == k);
        if tail.len() == 0 {
            assert(rows =~= bs[0]);
            assert(rest + last_batch(p) =~= Seq::<Seq<T>>::empty());
            assert(rest.len() == 0);
            assert(bs + last_batch(p) =~= seq![bs[0]]);
        } else {
            assert(rows.take(k as int) =~= bs[0]);
            assert(rows.skip(k as int) =~= tail);
            assert(bs + last_batch(p) =~= seq![bs[0]] + (rest + last_batch(p)));
        }
    }
}

/// For a writer whose full batches were committed as they filled, the
/// committed batches followed by the gathered rows are the rows written,
/// in order, in chunks of the batch size (one row when the size is zero),
/// the last one possibly shorter. So once the last gathered rows are
/// committed too, the committed batches are exactly those chunks.
pub proof fn lemma_batches_are_chunks<T>(w: BatchWriter<T>)
    requires
        w.wf(),
        w.in_chunks(),
    ensures
        w.committed() + last_batch(w.pending()) == chunks(w.written(), batch_unit(w.size())),
{
    lemma_chunks_of(w.committed@, w.buffer@, batch_unit(w.size()));
}

} // verus!
