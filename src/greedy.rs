//! Greedy decoding: picking the next token from the scores of the last position.
//!
//! Scores reach this module as order keys: unsigned integers that order as the
//! scores do, so that the choice is made, and proved, on integers.
use vstd::prelude::*;

verus! {

/// Position of the first greatest key among the first `n`; 0 when `n` is 0.
pub open spec fn first_max(keys: Seq<u32>, n: int) -> int
    decreases n,
{
    if n <= 1 {
        0
    } else {
        let p = first_max(keys, n - 1);
        if keys[n - 1] > keys[p] {
            n - 1
        } else {
            p
        }
    }
}

/// The token chosen from a row of keys: the first greatest, or 0 for an empty row.
pub open spec fn choice(keys: Seq<u32>) -> usize {
    first_max(keys, keys.len() as int) as usize
}

/// The chosen position is in range, its key is greatest, and every key before it is smaller.
pub proof fn lemma_first_max(keys: Seq<u32>, n: int)
    requires
        1 <= n <= keys.len(),
    ensures
        0 <= first_max(keys, n) < n,
        forall|j: int| 0 <= j < n ==> #[trigger] keys[j] <= keys[first_max(keys, n)],
        forall|j: int| 0 <= j < first_max(keys, n) ==> #[trigger] keys[j] < keys[first_max(keys, n)],
    decreases n,
{
    if n > 1 {
        lemma_first_max(keys, n - 1);
    }
}

/// Index of the first greatest key; 0 for an empty row.
pub fn argmax_first(keys: &Vec<u32>) -> (r: usize)
    ensures
        r == choice(keys@),
        keys.len() > 0 ==> r < keys.len(),
        forall|j: int| 0 <= j < keys.len() ==> keys[j] <= keys[r as int],
        forall|j: int| 0 <= j < r ==> keys[j] < keys[r as int],
{
    if keys.len() == 0 {
        return 0;
    }
    let mut best: usize = 0;
    let mut i: usize = 1;
    while i < keys.len()
        invariant
            1 <= i <= keys.len(),
            best == first_max(keys@, i as int),
            best < i,
        decreases keys.len() - i,
    {
        proof {
            lemma_first_max(keys@, i as int);
        }
        if keys[i] > keys[best] {
            best = i;
        }
        i = i + 1;
    }
    proof {
        lemma_first_max(keys@, keys.len() as int);
    }
    best
}

/// The tokens after one step: the choice from the last row appended, or the
/// tokens unchanged when there is no row (an empty sequence has no last position).
pub open spec fn step_tokens(tokens: Seq<usize>, last_row: Option<Seq<u32>>) -> Seq<usize> {
    match last_row {
        Some(keys) => tokens.push(choice(keys)),
        None => tokens,
    }
}

/// The tokens after one step for each of `rows`, in order.
pub open spec fn greedy_run(tokens: Seq<usize>, rows: Seq<Option<Seq<u32>>>) -> Seq<usize>
    decreases rows.len(),
{
    if rows.len() == 0 {
        tokens
    } else {
        step_tokens(greedy_run(tokens, rows.drop_last()), rows.last())
    }
}

/// One step of greedy generation: appends the token whose key is greatest in
/// `last_row` (the first of equal ones), or nothing when there is no row.
pub fn greedy_step(tokens: &mut Vec<usize>, last_row: Option<&Vec<u32>>)
    ensures
        final(tokens)@ == step_tokens(
            old(tokens)@,
            match last_row {
                Some(k) => Some(k@),
                None => None,
            },
        ),
{
    if let Some(keys) = last_row {
        let next = argmax_first(keys);
        tokens.push(next);
    }
}

/// Rows that are all present.
pub open spec fn all_rows(rows: Seq<Seq<u32>>) -> Seq<Option<Seq<u32>>> {
    rows.map_values(|k: Seq<u32>| Some(k))
}

/// Generation lengthens the input by one token per step, each below the
/// vocabulary size, whenever every step scores a non-empty vocabulary.
pub proof fn lemma_generate_extends(input: Seq<usize>, rows: Seq<Seq<u32>>, vocab_size: nat)
    requires
        vocab_size > 0,
        forall|i: int| 0 <= i < rows.len() ==> #[trigger] rows[i].len() == vocab_size,
    ensures
        greedy_run(input, all_rows(rows)).len() == input.len() + rows.len(),
        greedy_run(input, all_rows(rows)).take(input.len() as int) == input,
        forall|k: int|
            input.len() <= k < input.len() + rows.len() ==> #[trigger] greedy_run(
                input,
                all_rows(rows),
            )[k] < vocab_size,
    decreases rows.len(),
{
    let opt = all_rows(rows);
    if rows.len() > 0 {
        let prev_rows = rows.drop_last();
        lemma_generate_extends(input, prev_rows, vocab_size);
        assert(opt.drop_last() =~= all_rows(prev_rows));
        let prev = greedy_run(input, opt.drop_last());
        let last = rows.last();
        assert(rows[rows.len() - 1].len() == vocab_size);
        lemma_first_max(last, last.len() as int);
        assert(greedy_run(input, opt) == prev.push(choice(last)));
        assert(prev.push(choice(last)).take(input.len() as int) =~= prev.take(input.len() as int));
    } else {
        assert(greedy_run(input, opt) == input);
        assert(input.take(input.len() as int) =~= input);
    }
}

} // verus!
