//! Next-token training samples and their batching.
use vstd::prelude::*;
use rand::seq::SliceRandom;
use crate::tokenizer::WhitespaceTokenizer;

verus! {

/// An (input, target) pair of token id sequences.
pub type Sample = (Vec<usize>, Vec<usize>);

/// Relies on rand's `SliceRandom::shuffle` over `thread_rng`: a run of swaps,
/// so the items come back in some order, none lost or added.
#[verifier::external_body]
fn shuffle_samples(v: &mut Vec<Sample>)
    ensures
        final(v)@.to_multiset() == old(v)@.to_multiset(),
        final(v)@.len() == old(v)@.len(),
{
    v.shuffle(&mut rand::thread_rng());
}

/// Splits `tokens` for next-token prediction: the inputs are all ids but the
/// last and the targets all ids but the first. A sequence of fewer than two
/// ids gives no sample.
pub fn shift_pair(tokens: &Vec<usize>) -> (r: Option<Sample>)
    ensures
        r is Some <==> tokens.len() > 1,
        r matches Some(s) ==> s.0@ == tokens@.drop_last() && s.1@ == tokens@.drop_first(),
{
    if tokens.len() <= 1 {
        return None;
    }
    let n = tokens.len();
    let mut input: Vec<usize> = Vec::new();
    let mut target: Vec<usize> = Vec::new();
    for i in 0..n - 1
        invariant
            n == tokens.len(),
            n > 1,
            input@ == tokens@.take(i as int),
            target@ == tokens@.subrange(1, i + 1),
    {
        input.push(tokens[i]);
        target.push(tokens[i + 1]);
        assert(input@ =~= tokens@.take(i + 1));
        assert(target@ =~= tokens@.subrange(1, i + 2));
    }
    assert(input@ =~= tokens@.drop_last());
    assert(target@ =~= tokens@.drop_first());
    Some((input, target))
}

/// The sample of one line of a corpus: its words encoded, then shifted.
pub fn line_sample(tokenizer: &WhitespaceTokenizer, line: &str) -> (r: Option<Sample>)
    ensures
        r is Some <==> tokenizer.spec_encode(line@).len() > 1,
        r matches Some(s) ==> s.0@ == tokenizer.spec_encode(line@).drop_last() && s.1@
            == tokenizer.spec_encode(line@).drop_first(),
{
    let tokens = tokenizer.encode(line);
    shift_pair(&tokens)
}

/// In-memory loader that hands out samples in batches, one epoch at a time.
pub struct DataLoader {
    samples: Vec<Sample>,
    batch_size: usize,
    index: usize,
}

impl DataLoader {
    /// The samples in the order they are handed out.
    pub closed spec fn samples(&self) -> Seq<Sample> {
        self.samples@
    }

    /// The most samples in one batch.
    pub closed spec fn batch_size(&self) -> usize {
        self.batch_size
    }

    /// How many samples of this epoch were handed out.
    pub closed spec fn position(&self) -> usize {
        self.index
    }

    /// Where the batch starting at `position()` ends.
    pub open spec fn batch_end(&self) -> int {
        if self.position() + self.batch_size() < self.samples().len() {
            self.position() + self.batch_size()
        } else {
            self.samples().len() as int
        }
    }

    /// Takes `samples` in memory, shuffled when `shuffle` is set, and starts an epoch.
    pub fn new(samples: Vec<Sample>, batch_size: usize, shuffle: bool) -> (r: Self)
        ensures
            r.samples().to_multiset() == samples@.to_multiset(),
            r.samples().len() == samples@.len(),
            !shuffle ==> r.samples() == samples@,
            r.batch_size() == batch_size,
            r.position() == 0,
    {
        let mut samples = samples;
        if shuffle {
            shuffle_samples(&mut samples);
        }
        DataLoader { samples, batch_size, index: 0 }
    }

    /// The next batch as (inputs, targets), or `None` once the epoch is over.
    pub fn next_batch(&mut self) -> (r: Option<(Vec<Vec<usize>>, Vec<Vec<usize>>)>)
        ensures
            final(self).samples() == old(self).samples(),
            final(self).batch_size() == old(self).batch_size(),
            r is None <==> old(self).position() >= old(self).samples().len(),
            r is None ==> final(self).position() == old(self).position(),
            r matches Some(b) ==> {
                let batch = old(self).samples().subrange(
                    old(self).position() as int,
                    old(self).batch_end(),
                );
                &&& b.0@.map_values(|v: Vec<usize>| v@) == batch.map_values(|s: Sample| s.0@)
                &&& b.1@.map_values(|v: Vec<usize>| v@) == batch.map_values(|s: Sample| s.1@)
                &&& final(self).position() == old(self).batch_end()
            },
    {
        let len = self.samples.len();
        if self.index >= len {
            return None;
        }
        let end = if self.batch_size < len - self.index {
            self.index + self.batch_size
        } else {
            len
        };
        let ghost batch = self.samples@.subrange(self.index as int, end as int);
        let mut inputs: Vec<Vec<usize>> = Vec::new();
        let mut targets: Vec<Vec<usize>> = Vec::new();
        let mut i = self.index;
        while i < end
            invariant
                self.index <= i <= end <= len,
                len == self.samples.len(),
                batch == self.samples@.subrange(self.index as int, end as int),
                inputs.len() == i - self.index,
                targets.len() == i - self.index,
                forall|j: int| 0 <= j < inputs.len() ==> #[trigger] inputs@[j]@ == batch[j].0@,
                forall|j: int| 0 <= j < targets.len() ==> #[trigger] targets@[j]@ == batch[j].1@,
            decreases end - i,
        {
            let s = &self.samples[i];
            let a = s.0.clone();
            let b = s.1.clone();
            assert(a@ =~= s.0@);
            assert(b@ =~= s.1@);
            inputs.push(a);
            targets.push(b);
            proof {
                let k = i - self.index;
                assert(batch[k] == self.samples@[i as int]);
            }
            i = i + 1;
        }
        assert(inputs@.map_values(|v: Vec<usize>| v@) =~= batch.map_values(|s: Sample| s.0@));
        assert(targets@.map_values(|v: Vec<usize>| v@) =~= batch.map_values(|s: Sample| s.1@));
        self.index = end;
        Some((inputs, targets))
    }

    /// Starts a new epoch, shuffling the samples again when `shuffle` is set.
    pub fn reset(&mut self, shuffle: bool)
        ensures
            final(self).samples().to_multiset() == old(self).samples().to_multiset(),
            final(self).samples().len() == old(self).samples().len(),
            !shuffle ==> final(self).samples() == old(self).samples(),
            final(self).batch_size() == old(self).batch_size(),
            final(self).position() == 0,
    {
        self.index = 0;
        if shuffle {
            shuffle_samples(&mut self.samples);
        }
    }
}

} // verus!
