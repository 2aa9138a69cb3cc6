//! Whitespace and byte-pair-encoding tokenizers over a fixed id space.
//!
//! A vocabulary is a list of token strings whose position is the token's id.
//! Looking a string up gives its last position, as a map filled in list order
//! would; an absent string gives the tokenizer's unknown id.
use vstd::prelude::*;
use crate::text::{char_string, join, join_strings, lines, split_lines, split_words, words};

verus! {

/// Last position of `t` in `vocab`, or -1 when `t` is absent.
pub open spec fn token_pos(vocab: Seq<Seq<char>>, t: Seq<char>) -> int
    decreases vocab.len(),
{
    if vocab.len() == 0 {
        -1
    } else if vocab.last() == t {
        vocab.len() - 1
    } else {
        token_pos(vocab.drop_last(), t)
    }
}

/// The id of `t` in `vocab`, or `unk` when `t` is absent.
pub open spec fn token_id(vocab: Seq<Seq<char>>, t: Seq<char>, unk: usize) -> usize {
    let p = token_pos(vocab, t);
    if p >= 0 {
        p as usize
    } else {
        unk
    }
}

/// The text of `id`, or nothing when `id` is out of range.
pub open spec fn token_text(vocab: Seq<Seq<char>>, id: usize) -> Seq<char> {
    if id < vocab.len() {
        vocab[id as int]
    } else {
        Seq::empty()
    }
}

/// A found position lies in the vocabulary and holds the string looked up.
pub proof fn lemma_token_pos_range(vocab: Seq<Seq<char>>, t: Seq<char>)
    ensures
        -1 <= token_pos(vocab, t) < vocab.len(),
        token_pos(vocab, t) >= 0 ==> vocab[token_pos(vocab, t)] == t,
    decreases vocab.len(),
{
    if vocab.len() > 0 && vocab.last() != t {
        lemma_token_pos_range(vocab.drop_last(), t);
    }
}

/// Finds the last position of `t` in `vocab`.
fn find_token(vocab: &Vec<String>, t: &String) -> (r: Option<usize>)
    ensures
        match r {
            Some(p) => p == token_pos(vocab.deep_view(), t@),
            None => token_pos(vocab.deep_view(), t@) == -1,
        },
{
    let ghost dv = vocab.deep_view();
    let mut i: usize = vocab.len();
    assert(dv.take(i as int) =~= dv);
    while i > 0
        invariant
            i <= vocab.len(),
            dv == vocab.deep_view(),
            token_pos(dv, t@) == token_pos(dv.take(i as int), t@),
        decreases i,
    {
        assert(dv.take(i as int).drop_last() == dv.take(i - 1));
        if vocab[i - 1] == *t {
            return Some(i - 1);
        }
        i = i - 1;
    }
    None
}

/// Id of `t`: its last position in `vocab`, else `unk`.
fn lookup_id(vocab: &Vec<String>, t: &String, unk: usize) -> (r: usize)
    ensures
        r == token_id(vocab.deep_view(), t@, unk),
{
    match find_token(vocab, t) {
        Some(p) => p,
        None => unk,
    }
}

/// Texts of `tokens`, with nothing for an id out of range.
fn token_texts(vocab: &Vec<String>, tokens: &[usize]) -> (r: Vec<String>)
    ensures
        r.deep_view() == tokens@.map_values(|id: usize| token_text(vocab.deep_view(), id)),
{
    let mut out: Vec<String> = Vec::new();
    for k in 0..tokens.len()
        invariant
            out.deep_view() == tokens@.take(k as int).map_values(
                |id: usize| token_text(vocab.deep_view(), id),
            ),
    {
        let id = tokens[k];
        let ghost before = out.deep_view();
        if id < vocab.len() {
            assert(vocab.deep_view()[id as int] == vocab[id as int]@);
            out.push(vocab[id].clone());
        } else {
            out.push(String::new());
        }
        assert(out.deep_view() =~= before.push(token_text(vocab.deep_view(), id)));
        assert(out.deep_view() =~= tokens@.take(k + 1).map_values(
            |id: usize| token_text(vocab.deep_view(), id),
        ));
    }
    assert(tokens@.take(tokens.len() as int) == tokens@);
    out
}

/// Tokenizer that splits text at whitespace and looks each word up whole.
pub struct WhitespaceTokenizer {
    inv_vocab: Vec<String>,
    unk_id: usize,
}

impl WhitespaceTokenizer {
    /// Token strings, indexed by id.
    pub closed spec fn vocab(&self) -> Seq<Seq<char>> {
        self.inv_vocab.deep_view()
    }

    /// The id given to a word outside the vocabulary.
    pub closed spec fn unk(&self) -> usize {
        self.unk_id
    }

    /// Ids of the words of `text`, in order.
    pub open spec fn spec_encode(&self, text: Seq<char>) -> Seq<usize> {
        words(text).map_values(|w: Seq<char>| token_id(self.vocab(), w, self.unk()))
    }

    /// Texts of `tokens` joined by single spaces.
    pub open spec fn spec_decode(&self, tokens: Seq<usize>) -> Seq<char> {
        join(tokens.map_values(|id: usize| token_text(self.vocab(), id)), seq![' '])
    }

    /// Creates a tokenizer over `vocab`, where a token's id is its position.
    pub fn new(vocab: Vec<String>, unk_id: usize) -> (r: Self)
        ensures
            r.vocab() == vocab.deep_view(),
            r.unk() == unk_id,
    {
        WhitespaceTokenizer { inv_vocab: vocab, unk_id }
    }

    /// Splits `text` at whitespace and maps each word to its id.
    pub fn encode(&self, text: &str) -> (r: Vec<usize>)
        ensures
            r@ == self.spec_encode(text@),
    {
        let ws = split_words(text);
        let mut ids: Vec<usize> = Vec::new();
        for k in 0..ws.len()
            invariant
                ws.deep_view() == words(text@),
                ids@ == ws.deep_view().take(k as int).map_values(
                    |w: Seq<char>| token_id(self.vocab(), w, self.unk()),
                ),
        {
            let id = lookup_id(&self.inv_vocab, &ws[k], self.unk_id);
            ids.push(id);
            assert(ids@ =~= ws.deep_view().take(k + 1).map_values(
                |w: Seq<char>| token_id(self.vocab(), w, self.unk()),
            ));
        }
        assert(ws.deep_view().take(ws.len() as int) == ws.deep_view());
        ids
    }

    /// Joins the texts of `tokens` with single spaces; an unknown id gives an empty text.
    pub fn decode(&self, tokens: &[usize]) -> (r: String)
        ensures
            r@ == self.spec_decode(tokens@),
    {
        let texts = token_texts(&self.inv_vocab, tokens);
        let sep = char_string(' ');
        join_strings(&texts, sep.as_str())
    }
}

/// A merge table: (left piece, right piece, rank) entries, one per pair.
pub type RuleTable = Seq<(Seq<char>, Seq<char>, usize)>;

/// Position of the last entry for the pair `(a, b)`, or -1.
pub open spec fn find_rule(t: RuleTable, a: Seq<char>, b: Seq<char>) -> int
    decreases t.len(),
{
    if t.len() == 0 {
        -1
    } else if t.last().0 == a && t.last().1 == b {
        t.len() - 1
    } else {
        find_rule(t.drop_last(), a, b)
    }
}

/// Rank of the pair `(a, b)`, if the table holds it.
pub open spec fn rank_of(t: RuleTable, a: Seq<char>, b: Seq<char>) -> Option<usize> {
    let k = find_rule(t, a, b);
    if k >= 0 {
        Some(t[k].2)
    } else {
        None
    }
}

/// Gives the pair `(a, b)` rank `r`, over its old rank if it had one.
pub open spec fn set_rank(t: RuleTable, a: Seq<char>, b: Seq<char>, r: usize) -> RuleTable {
    let k = find_rule(t, a, b);
    if k >= 0 {
        t.update(k, (a, b, r))
    } else {
        t.push((a, b, r))
    }
}

/// The table of a merge list in priority order: each pair ranks at its last position.
pub open spec fn rule_table(merges: Seq<(Seq<char>, Seq<char>)>) -> RuleTable
    decreases merges.len(),
{
    if merges.len() == 0 {
        Seq::empty()
    } else {
        set_rank(
            rule_table(merges.drop_last()),
            merges.last().0,
            merges.last().1,
            (merges.len() - 1) as usize,
        )
    }
}

/// Among the first `n` neighbour pairs of `pieces`, the (rank, position) of the
/// pair to merge next: the lowest rank, and of equal ranks the leftmost.
pub open spec fn best_pair(t: RuleTable, pieces: Seq<Seq<char>>, n: int) -> Option<(usize, int)>
    decreases n,
{
    if n <= 0 {
        None
    } else {
        let prev = best_pair(t, pieces, n - 1);
        match rank_of(t, pieces[n - 1], pieces[n]) {
            Some(r) => match prev {
                Some((pr, _pk)) => if r < pr {
                    Some((r, n - 1))
                } else {
                    prev
                },
                None => Some((r, n - 1)),
            },
            None => prev,
        }
    }
}

/// `pieces` with the pieces at `k` and `k + 1` fused into one.
pub open spec fn merge_at(pieces: Seq<Seq<char>>, k: int) -> Seq<Seq<char>> {
    pieces.take(k).push(pieces[k] + pieces[k + 1]) + pieces.skip(k + 2)
}

/// Applies the best merge again and again until none is left.
pub open spec fn apply_merges(t: RuleTable, pieces: Seq<Seq<char>>) -> Seq<Seq<char>>
    decreases pieces.len(),
{
    if pieces.len() <= 1 {
        pieces
    } else {
        match best_pair(t, pieces, pieces.len() - 1) {
            Some((_r, k)) => if 0 <= k < pieces.len() - 1 {
                apply_merges(t, merge_at(pieces, k))
            } else {
                pieces
            },
            None => pieces,
        }
    }
}

/// One piece per character.
pub open spec fn char_pieces(w: Seq<char>) -> Seq<Seq<char>> {
    w.map_values(|c: char| seq![c])
}

/// What a byte-pair-encoding tokenizer holds: its vocabulary, its merge table
/// and its unknown id.
pub struct BpeModel {
    pub vocab: Seq<Seq<char>>,
    pub rules: RuleTable,
    pub unk: usize,
}

/// Ids of one word: its characters merged by rank, then looked up.
pub open spec fn word_ids(m: BpeModel, w: Seq<char>) -> Seq<usize> {
    apply_merges(m.rules, char_pieces(w)).map_values(|p: Seq<char>| token_id(m.vocab, p, m.unk))
}

/// Ids of a text: the ids of its words, one after another.
pub open spec fn bpe_encode(m: BpeModel, text: Seq<char>) -> Seq<usize> {
    words(text).map_values(|w: Seq<char>| word_ids(m, w)).flatten()
}

/// The texts of `tokens` run together.
pub open spec fn bpe_decode(m: BpeModel, tokens: Seq<usize>) -> Seq<char> {
    tokens.map_values(|id: usize| token_text(m.vocab, id)).flatten()
}

/// The id that merging `a` with `b` yields: that of the fused string, or a new one.
pub open spec fn merged_id(m: BpeModel, a: Seq<char>, b: Seq<char>) -> usize {
    let p = token_pos(m.vocab, a + b);
    if p >= 0 {
        p as usize
    } else {
        m.vocab.len() as usize
    }
}

/// `m` after learning the merge of `a` with `b`: the fused string joins the
/// vocabulary if absent, and the pair joins the table with the next rank if absent.
pub open spec fn with_merge(m: BpeModel, a: Seq<char>, b: Seq<char>) -> BpeModel {
    BpeModel {
        vocab: if token_pos(m.vocab, a + b) >= 0 {
            m.vocab
        } else {
            m.vocab.push(a + b)
        },
        rules: if rank_of(m.rules, a, b) is Some {
            m.rules
        } else {
            m.rules.push((a, b, m.rules.len() as usize))
        },
        unk: m.unk,
    }
}

/// Neighbouring pairs of `ids`, left to right.
pub open spec fn neighbours(ids: Seq<usize>) -> Seq<(usize, usize)> {
    Seq::new(
        (if ids.len() > 0 {
            ids.len() - 1
        } else {
            0
        }) as nat,
        |i: int| (ids[i], ids[i + 1]),
    )
}

/// The neighbouring id pairs inside each of `ws`, word after word.
pub open spec fn word_pairs(m: BpeModel, ws: Seq<Seq<char>>) -> Seq<(usize, usize)> {
    ws.map_values(|w: Seq<char>| neighbours(word_ids(m, w))).flatten()
}

/// How often `x` occurs in `s`.
pub open spec fn count_in(s: Seq<(usize, usize)>, x: (usize, usize)) -> nat
    decreases s.len(),
{
    if s.len() == 0 {
        0
    } else {
        count_in(s.drop_last(), x) + if s.last() == x {
            1nat
        } else {
            0nat
        }
    }
}

/// Position, among the first `n` of `s`, of the first pair that occurs most often in `s`.
pub open spec fn most_frequent(s: Seq<(usize, usize)>, n: int) -> int
    decreases n,
{
    if n <= 1 {
        0
    } else {
        let p = most_frequent(s, n - 1);
        if count_in(s, s[n - 1]) > count_in(s, s[p]) {
            n - 1
        } else {
            p
        }
    }
}

/// `m` after up to `n` rounds of learning from `text`: each round merges the
/// most frequent neighbouring pair (the first seen, of equally frequent ones);
/// learning stops early when no word has two pieces.
pub open spec fn learned(m: BpeModel, text: Seq<char>, n: nat) -> BpeModel
    decreases n,
{
    if n == 0 {
        m
    } else {
        let ps = word_pairs(m, words(text));
        if ps.len() == 0 {
            m
        } else {
            let (a, b) = ps[most_frequent(ps, ps.len() as int)];
            learned(with_merge(m, token_text(m.vocab, a), token_text(m.vocab, b)), text, (n - 1) as nat)
        }
    }
}

/// With the unknown id inside the vocabulary, every id of a word is too.
pub proof fn lemma_word_ids_in_range(m: BpeModel, w: Seq<char>)
    requires
        m.unk < m.vocab.len(),
    ensures
        forall|i: int| 0 <= i < word_ids(m, w).len() ==> #[trigger] word_ids(m, w)[i] < m.vocab.len(),
{
    let ps = apply_merges(m.rules, char_pieces(w));
    assert forall|i: int| 0 <= i < word_ids(m, w).len() implies #[trigger] word_ids(m, w)[i] < m.vocab.len() by {
        lemma_token_pos_range(m.vocab, ps[i]);
    }
}

/// How often `x` occurs in `s`.
fn count_pair(s: &Vec<(usize, usize)>, x: (usize, usize)) -> (r: usize)
    ensures
        r == count_in(s@, x),
{
    let mut c: usize = 0;
    for j in 0..s.len()
        invariant
            c == count_in(s@.take(j as int), x),
            c <= j,
    {
        assert(s@.take(j + 1).drop_last() == s@.take(j as int));
        if s[j].0 == x.0 && s[j].1 == x.1 {
            c = c + 1;
        }
    }
    assert(s@.take(s.len() as int) == s@);
    c
}

/// Position of the first pair of `s` that occurs most often.
fn most_frequent_pair(s: &Vec<(usize, usize)>) -> (r: usize)
    requires
        s.len() > 0,
    ensures
        r == most_frequent(s@, s.len() as int),
        r < s.len(),
{
    let mut best: usize = 0;
    let mut best_count = count_pair(s, s[0]);
    let mut i: usize = 1;
    while i < s.len()
        invariant
            1 <= i <= s.len(),
            best < i,
            best == most_frequent(s@, i as int),
            best_count == count_in(s@, s@[best as int]),
        decreases s.len() - i,
    {
        let c = count_pair(s, s[i]);
        if c > best_count {
            best = i;
            best_count = c;
        }
        i = i + 1;
    }
    best
}

/// The merge pairs listed by `ls`: the first two words of each line that has two.
pub open spec fn merge_pairs(ls: Seq<Seq<char>>) -> Seq<(Seq<char>, Seq<char>)>
    decreases ls.len(),
{
    if ls.len() == 0 {
        Seq::empty()
    } else {
        let prev = merge_pairs(ls.drop_last());
        let ws = words(ls.last());
        if ws.len() >= 2 {
            prev.push((ws[0], ws[1]))
        } else {
            prev
        }
    }
}

/// A vocabulary listing: one token per line, its id being its line number.
pub fn vocab_from_text(contents: &str) -> (r: Vec<String>)
    ensures
        r.deep_view() == lines(contents@),
{
    split_lines(contents)
}

/// A merge listing in priority order: the first two words of each line; a line
/// with fewer words is skipped.
pub fn merges_from_text(contents: &str) -> (r: Vec<(String, String)>)
    ensures
        r.deep_view() == merge_pairs(lines(contents@)),
{
    let ls = split_lines(contents);
    let ghost dv = ls.deep_view();
    let mut out: Vec<(String, String)> = Vec::new();
    for k in 0..ls.len()
        invariant
            dv == ls.deep_view(),
            out.deep_view() == merge_pairs(dv.take(k as int)),
    {
        assert(dv.take(k + 1).drop_last() == dv.take(k as int));
        let mut ws = split_words(ls[k].as_str());
        if ws.len() >= 2 {
            let ghost before = out.deep_view();
            let ghost wv = ws.deep_view();
            let b = ws.remove(1);
            let a = ws.remove(0);
            assert(a@ == wv[0] && b@ == wv[1]);
            out.push((a, b));
            assert(out.deep_view() =~= before.push((wv[0], wv[1])));
        }
    }
    assert(dv.take(ls.len() as int) == dv);
    out
}

struct MergeRule {
    left: String,
    right: String,
    rank: usize,
}

/// Byte-pair-encoding tokenizer: each word starts as single characters, and
/// neighbouring pieces are fused by the rank of their pair until no pair has one.
pub struct BpeTokenizer {
    inv_vocab: Vec<String>,
    merges: Vec<MergeRule>,
    unk_id: usize,
}

impl View for BpeTokenizer {
    type V = BpeModel;

    closed spec fn view(&self) -> BpeModel {
        BpeModel {
            vocab: self.inv_vocab.deep_view(),
            rules: self.merges@.map_values(|m: MergeRule| (m.left@, m.right@, m.rank)),
            unk: self.unk_id,
        }
    }
}

impl BpeTokenizer {
    /// Creates a tokenizer from its vocabulary, where a token's id is its position,
    /// and its merges in priority order; `unk_id` is the id of an unknown piece.
    pub fn new(vocab: Vec<String>, merges: Vec<(String, String)>, unk_id: usize) -> (r: Self)
        ensures
            r@ == (BpeModel { vocab: vocab.deep_view(), rules: rule_table(merges.deep_view()), unk: unk_id }),
    {
        let mut tok = BpeTokenizer { inv_vocab: vocab, merges: Vec::new(), unk_id };
        assert(tok@.rules =~= rule_table(merges.deep_view().take(0)));
        for k in 0..merges.len()
            invariant
                tok@.vocab == vocab.deep_view(),
                tok@.unk == unk_id,
                tok@.rules == rule_table(merges.deep_view().take(k as int)),
        {
            let ghost md = merges.deep_view();
            assert(md.take(k + 1).drop_last() == md.take(k as int));
            tok.set_rule(&merges[k].0, &merges[k].1, k);
        }
        assert(merges.deep_view().take(merges.len() as int) == merges.deep_view());
        tok
    }

    /// Finds the entry of the pair `(a, b)` in the merge table.
    fn find_rule(&self, a: &String, b: &String) -> (r: Option<usize>)
        ensures
            match r {
                Some(k) => k == find_rule(self@.rules, a@, b@) && k < self.merges.len(),
                None => find_rule(self@.rules, a@, b@) == -1,
            },
    {
        let ghost t = self@.rules;
        let mut i: usize = self.merges.len();
        assert(t.take(i as int) =~= t);
        while i > 0
            invariant
                i <= self.merges.len(),
                t == self@.rules,
                find_rule(t, a@, b@) == find_rule(t.take(i as int), a@, b@),
            decreases i,
        {
            assert(t.take(i as int).drop_last() == t.take(i - 1));
            let m = &self.merges[i - 1];
            if m.left == *a && m.right == *b {
                return Some(i - 1);
            }
            i = i - 1;
        }
        None
    }

    /// Rank of the pair `(a, b)`, if any.
    fn rule_rank(&self, a: &String, b: &String) -> (r: Option<usize>)
        ensures
            r == rank_of(self@.rules, a@, b@),
    {
        match self.find_rule(a, b) {
            Some(k) => Some(self.merges[k].rank),
            None => None,
        }
    }

    /// Gives the pair `(a, b)` rank `r`.
    fn set_rule(&mut self, a: &String, b: &String, r: usize)
        ensures
            final(self)@ == (BpeModel { rules: set_rank(old(self)@.rules, a@, b@, r), ..old(self)@ }),
    {
        let ghost t = self@.rules;
        match self.find_rule(a, b) {
            Some(k) => {
                self.merges.set(k, MergeRule { left: a.clone(), right: b.clone(), rank: r });
            },
            None => {
                self.merges.push(MergeRule { left: a.clone(), right: b.clone(), rank: r });
            },
        }
        assert(self@.rules =~= set_rank(t, a@, b@, r));
    }

    /// The pieces of `word` after all merges apply.
    fn merge_word(&self, word: &String) -> (r: Vec<String>)
        ensures
            r.deep_view() == apply_merges(self@.rules, char_pieces(word@)),
    {
        let mut pieces: Vec<String> = Vec::new();
        let ghost w = word@;
        for c in it: word.as_str().chars()
            invariant
                it.seq() == w,
                pieces.deep_view() == char_pieces(w.take(it.index() as int)),
        {
            let ghost i = it.index() as int;
            assert(w.take(i + 1) =~= w.take(i).push(c));
            let ghost before = pieces.deep_view();
            pieces.push(char_string(c));
            assert(pieces.deep_view() =~= before.push(seq![c]));
            assert(pieces.deep_view() =~= char_pieces(w.take(i + 1)));
        }
        assert(w.take(w.len() as int) == w);
        let ghost goal = apply_merges(self@.rules, char_pieces(w));
        loop
            invariant
                apply_merges(self@.rules, pieces.deep_view()) == goal,
            ensures
                pieces.deep_view() == goal,
            decreases pieces.len(),
        {
            if pieces.len() <= 1 {
                assert(apply_merges(self@.rules, pieces.deep_view()) == pieces.deep_view());
                break;
            }
            let n = pieces.len() - 1;
            let mut best: Option<(usize, usize)> = None;
            for i in 0..n
                invariant
                    n == pieces.len() - 1,
                    match best {
                        Some((r, k)) => best_pair(self@.rules, pieces.deep_view(), i as int) == Some(
                            (r, k as int),
                        ) && k < i,
                        None => best_pair(self@.rules, pieces.deep_view(), i as int) is None,
                    },
            {
                let rank = self.rule_rank(&pieces[i], &pieces[i + 1]);
                proof {
                    let dv = pieces.deep_view();
                    assert(dv[i as int] == pieces[i as int]@);
                    assert(dv[i + 1] == pieces[i + 1]@);
                }
                if let Some(r) = rank {
                    let better = match best {
                        Some((br, _bk)) => r < br,
                        None => true,
                    };
                    if better {
                        best = Some((r, i));
                    }
                }
            }
            match best {
                Some((_r, k)) => {
                    let ghost before = pieces.deep_view();
                    let mut fused = pieces[k].clone();
                    fused.append(pieces[k + 1].as_str());
                    pieces.set(k, fused);
                    pieces.remove(k + 1);
                    assert(pieces.deep_view() =~= merge_at(before, k as int));
                },
                None => {
                    assert(apply_merges(self@.rules, pieces.deep_view()) == pieces.deep_view());
                    break;
                },
            }
        }
        pieces
    }

    /// Ids of one word.
    fn encode_word(&self, word: &String) -> (r: Vec<usize>)
        ensures
            r@ == word_ids(self@, word@),
    {
        let pieces = self.merge_word(word);
        let mut ids: Vec<usize> = Vec::new();
        for k in 0..pieces.len()
            invariant
                pieces.deep_view() == apply_merges(self@.rules, char_pieces(word@)),
                ids@ == pieces.deep_view().take(k as int).map_values(
                    |p: Seq<char>| token_id(self@.vocab, p, self@.unk),
                ),
        {
            ids.push(lookup_id(&self.inv_vocab, &pieces[k], self.unk_id));
            assert(ids@ =~= pieces.deep_view().take(k + 1).map_values(
                |p: Seq<char>| token_id(self@.vocab, p, self@.unk),
            ));
        }
        assert(pieces.deep_view().take(pieces.len() as int) == pieces.deep_view());
        ids
    }

    /// Splits `text` at whitespace and encodes each word by its merges; the ids of
    /// all words follow one another.
    pub fn encode(&self, text: &str) -> (r: Vec<usize>)
        ensures
            r@ == bpe_encode(self@, text@),
    {
        let ws = split_words(text);
        let mut ids: Vec<usize> = Vec::new();
        let ghost f = |w: Seq<char>| word_ids(self@, w);
        for k in 0..ws.len()
            invariant
                ws.deep_view() == words(text@),
                f == (|w: Seq<char>| word_ids(self@, w)),
                ids@ == ws.deep_view().take(k as int).map_values(f).flatten(),
        {
            let mut part = self.encode_word(&ws[k]);
            let ghost before = ids@;
            ids.append(&mut part);
            proof {
                let dv = ws.deep_view();
                assert(dv.take(k + 1).map_values(f) =~= dv.take(k as int).map_values(f).push(
                    f(dv[k as int]),
                ));
                dv.take(k as int).map_values(f).lemma_flatten_push(f(dv[k as int]));
            }
        }
        assert(ws.deep_view().take(ws.len() as int) == ws.deep_view());
        ids
    }

    /// Runs the texts of `tokens` together; an unknown id gives an empty text.
    pub fn decode(&self, tokens: &[usize]) -> (r: String)
        ensures
            r@ == bpe_decode(self@, tokens@),
    {
        let texts = token_texts(&self.inv_vocab, tokens);
        let mut out = String::new();
        let ghost parts = texts.deep_view();
        for k in 0..texts.len()
            invariant
                parts == texts.deep_view(),
                out@ == parts.take(k as int).flatten(),
        {
            out.append(texts[k].as_str());
            proof {
                assert(parts.take(k + 1) =~= parts.take(k as int).push(parts[k as int]));
                parts.take(k as int).lemma_flatten_push(parts[k as int]);
            }
        }
        assert(parts.take(parts.len() as int) == parts);
        out
    }

    /// Learns the merge of `a` with `b` and returns the id of the fused token:
    /// an existing token keeps its id, else the fused string gets the next id.
    /// A pair already in the table keeps its rank; a new pair ranks last.
    pub fn add_merge(&mut self, a: &str, b: &str) -> (r: usize)
        ensures
            r == merged_id(old(self)@, a@, b@),
            final(self)@ == with_merge(old(self)@, a@, b@),
    {
        let ghost m = self@;
        let mut fused = String::from_str(a);
        fused.append(b);
        let id = match find_token(&self.inv_vocab, &fused) {
            Some(p) => p,
            None => {
                let n = self.inv_vocab.len();
                self.inv_vocab.push(fused);
                n
            },
        };
        let left = String::from_str(a);
        let right = String::from_str(b);
        if self.find_rule(&left, &right).is_none() {
            let rank = self.merges.len();
            self.merges.push(MergeRule { left, right, rank });
        }
        assert(self@.vocab =~= with_merge(m, a@, b@).vocab);
        assert(self@.rules =~= with_merge(m, a@, b@).rules);
        id
    }

    /// The neighbouring id pairs inside each of `ws`, word after word.
    fn pairs_of(&self, ws: &Vec<String>) -> (r: Vec<(usize, usize)>)
        requires
            self@.unk < self@.vocab.len(),
        ensures
            r@ == word_pairs(self@, ws.deep_view()),
            forall|i: int| 0 <= i < r.len() ==> #[trigger] r[i].0 < self@.vocab.len() && r[i].1 < self@.vocab.len(),
    {
        let ghost f = |w: Seq<char>| neighbours(word_ids(self@, w));
        let ghost dv = ws.deep_view();
        let mut out: Vec<(usize, usize)> = Vec::new();
        for k in 0..ws.len()
            invariant
                self@.unk < self@.vocab.len(),
                dv == ws.deep_view(),
                f == (|w: Seq<char>| neighbours(word_ids(self@, w))),
                out@ == dv.take(k as int).map_values(f).flatten(),
                forall|i: int| 0 <= i < out.len() ==> #[trigger] out[i].0 < self@.vocab.len() && out[i].1 < self@.vocab.len(),
        {
            let ids = self.encode_word(&ws[k]);
            proof {
                lemma_word_ids_in_range(self@, dv[k as int]);
            }
            let ghost base = out@;
            let ghost nb = neighbours(ids@);
            let mut j: usize = 0;
            let last: usize = if ids.len() > 0 {
                ids.len() - 1
            } else {
                0
            };
            while j < last
                invariant
                    k < dv.len(),
                    last == nb.len(),
                    last < ids.len() || last == 0,
                    j <= last,
                    ids@ == word_ids(self@, dv[k as int]),
                    nb == neighbours(ids@),
                    forall|i: int| 0 <= i < ids.len() ==> #[trigger] ids[i] < self@.vocab.len(),
                    out@ == base + nb.take(j as int),
                    forall|i: int| 0 <= i < out.len() ==> #[trigger] out[i].0 < self@.vocab.len() && out[i].1 < self@.vocab.len(),
                decreases ids.len() - j,
            {
                out.push((ids[j], ids[j + 1]));
                assert(nb.take(j + 1) =~= nb.take(j as int).push(nb[j as int]));
                j = j + 1;
            }
            proof {
                assert(nb.take(j as int) =~= nb);
                assert(dv.take(k + 1).map_values(f) =~= dv.take(k as int).map_values(f).push(f(dv[k as int])));
                dv.take(k as int).map_values(f).lemma_flatten_push(f(dv[k as int]));
            }
        }
        assert(dv.take(ws.len() as int) == dv);
        out
    }

    /// Learns up to `num_merges` merges from `text`, one at a time: each round
    /// encodes the words of `text` afresh and merges the neighbouring pair that
    /// occurs most often; of equally frequent pairs the one seen first wins.
    /// The unknown id names a token of the vocabulary, whose text a merge may need.
    pub fn learn_merges(&mut self, text: &str, num_merges: usize)
        requires
            old(self)@.unk < old(self)@.vocab.len(),
        ensures
            final(self)@ == learned(old(self)@, text@, num_merges as nat),
    {
        let ghost goal = learned(self@, text@, num_merges as nat);
        let ws = split_words(text);
        let mut done: usize = 0;
        loop
            invariant
                done <= num_merges,
                ws.deep_view() == words(text@),
                self@.unk < self@.vocab.len(),
                learned(self@, text@, (num_merges - done) as nat) == goal,
            ensures
                self@ == goal,
            decreases num_merges - done,
        {
            if done == num_merges {
                break;
            }
            let pairs = self.pairs_of(&ws);
            if pairs.len() == 0 {
                break;
            }
            let k = most_frequent_pair(&pairs);
            let (a, b) = pairs[k];
            let a_tok = self.inv_vocab[a].clone();
            let b_tok = self.inv_vocab[b].clone();
            proof {
                assert(a_tok@ == token_text(self@.vocab, a));
                assert(b_tok@ == token_text(self@.vocab, b));
            }
            self.add_merge(a_tok.as_str(), b_tok.as_str());
            done = done + 1;
        }
    }

    /// Number of tokens in the vocabulary.
    pub fn vocab_size(&self) -> (r: usize)
        ensures
            r == self@.vocab.len(),
    {
        self.inv_vocab.len()
    }
}

} // verus!
