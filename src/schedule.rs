//! When a training step applies its accumulated gradient.
use vstd::prelude::*;

verus! {

/// Sizes of the buckets that `n` positions fall into when an update is applied
/// after every `accum_steps` positions and at the end of the sequence. With
/// `accum_steps` 0 no bucket fills up early, so all positions form one bucket.
pub open spec fn buckets(n: nat, accum_steps: nat) -> Seq<nat>
    decreases n,
{
    if n == 0 {
        Seq::empty()
    } else if accum_steps == 0 || n <= accum_steps {
        seq![n]
    } else {
        seq![accum_steps] + buckets((n - accum_steps) as nat, accum_steps)
    }
}

/// The bucket sizes, in order, of a training step over `n` positions that
/// updates after every `accum_steps` positions and at the end; each update
/// divides its gradient sum by its bucket's size.
pub fn bucket_sizes(n: usize, accum_steps: usize) -> (r: Vec<usize>)
    ensures
        r@.map_values(|b: usize| b as nat) == buckets(n as nat, accum_steps as nat),
{
    let mut out: Vec<usize> = Vec::new();
    let mut left = n;
    loop
        invariant_except_break
            out@.map_values(|b: usize| b as nat) + buckets(left as nat, accum_steps as nat)
                == buckets(n as nat, accum_steps as nat),
        invariant
            left <= n,
        ensures
            out@.map_values(|b: usize| b as nat) == buckets(n as nat, accum_steps as nat),
        decreases left,
    {
        let ghost before = out@.map_values(|b: usize| b as nat);
        if left == 0 {
            assert(before + buckets(0, accum_steps as nat) =~= before);
            break;
        }
        if accum_steps == 0 || left <= accum_steps {
            out.push(left);
            assert(out@.map_values(|b: usize| b as nat) =~= before + buckets(left as nat, accum_steps as nat));
            break;
        }
        out.push(accum_steps);
        let ghost rest = buckets((left - accum_steps) as nat, accum_steps as nat);
        assert(out@.map_values(|b: usize| b as nat) + rest =~= before + buckets(left as nat, accum_steps as nat));
        left = left - accum_steps;
    }
    out
}

/// Sum of `s`.
pub open spec fn total(s: Seq<nat>) -> nat
    decreases s.len(),
{
    if s.len() == 0 {
        0
    } else {
        s[0] + total(s.drop_first())
    }
}

/// Every position falls in exactly one bucket, and no bucket is empty or
/// larger than `accum_steps` (when that is not 0).
pub proof fn lemma_buckets_cover(n: nat, accum_steps: nat)
    ensures
        total(buckets(n, accum_steps)) == n,
        forall|i: int| 0 <= i < buckets(n, accum_steps).len() ==> #[trigger] buckets(n, accum_steps)[i] >= 1,
        accum_steps > 0 ==> forall|i: int| 0 <= i < buckets(n, accum_steps).len() ==> #[trigger] buckets(n, accum_steps)[i] <= accum_steps,
    decreases n,
{
    let bs = buckets(n, accum_steps);
    if n == 0 {
        assert(total(bs) == 0);
    } else if accum_steps == 0 || n <= accum_steps {
        assert(bs.drop_first() =~= Seq::<nat>::empty());
        assert(total(bs.drop_first()) == 0);
    } else {
        let rest = buckets((n - accum_steps) as nat, accum_steps);
        lemma_buckets_cover((n - accum_steps) as nat, accum_steps);
        assert(bs.drop_first() =~= rest);
        assert forall|i: int| 0 <= i < bs.len() implies #[trigger] bs[i] >= 1 && (accum_steps > 0 ==> bs[i] <= accum_steps) by {
            if i > 0 {
                assert(bs[i] == rest[i - 1]);
            }
        }
    }
}

} // verus!
