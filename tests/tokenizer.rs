use dragon_core::tokenizer::{merges_from_text, vocab_from_text, BpeTokenizer, WhitespaceTokenizer};

fn strings(items: &[&str]) -> Vec<String> {
    items.iter().map(|s| s.to_string()).collect()
}

fn pairs(items: &[(&str, &str)]) -> Vec<(String, String)> {
    items.iter().map(|(a, b)| (a.to_string(), b.to_string())).collect()
}

#[test]
fn whitespace_roundtrip() {
    let vocab = strings(&["<unk>", "hello", "world"]);
    let tok = WhitespaceTokenizer::new(vocab.clone(), 0);
    let text = "hello world";
    let ids = tok.encode(text);
    assert_eq!(ids, vec![1, 2]);
    let decoded = tok.decode(&ids);
    assert_eq!(decoded, text);
}

#[test]
fn encode_decode_roundtrip() {
    let vocab = strings(&["<unk>", "h", "e", "l", "o", "he", "hel", "hell", "hello"]);
    let merges = pairs(&[("h", "e"), ("he", "l"), ("hel", "l"), ("hell", "o")]);
    let tok = BpeTokenizer::new(vocab.clone(), merges, 0);
    let text = "hello";
    let ids = tok.encode(text);
    assert_eq!(ids, vec![8]);
    let decoded = tok.decode(&ids);
    assert_eq!(decoded, text);
}

#[test]
fn unknown_token() {
    let vocab = strings(&["<unk>", "h"]);
    let tok = BpeTokenizer::new(vocab, Vec::new(), 0);
    let ids = tok.encode("xy");
    assert_eq!(ids, vec![0, 0]);
}

fn hello_world_tokenizer() -> (Vec<String>, BpeTokenizer) {
    let vocab = strings(&[
        "<unk>", "h", "e", "l", "o", "w", "r", "d", "he", "hel", "hell", "hello", "wo", "wor",
        "worl", "world",
    ]);
    let merges = pairs(&[
        ("h", "e"),
        ("he", "l"),
        ("hel", "l"),
        ("hell", "o"),
        ("w", "o"),
        ("wo", "r"),
        ("wor", "l"),
        ("worl", "d"),
    ]);
    let tok = BpeTokenizer::new(vocab.clone(), merges, 0);
    (vocab, tok)
}

#[test]
fn roundtrip_all_vocab_tokens() {
    let (vocab, tok) = hello_world_tokenizer();
    for token in vocab.iter().skip(1) {
        let ids = tok.encode(token);
        let decoded = tok.decode(&ids);
        assert_eq!(decoded, *token, "token {}", token);
    }
}

#[test]
fn roundtrip_empty_string() {
    let vocab = strings(&["<unk>"]);
    let tok = BpeTokenizer::new(vocab, Vec::new(), 0);
    let ids = tok.encode("");
    assert!(ids.is_empty());
    let decoded = tok.decode(&ids);
    assert_eq!(decoded, "");
}

#[test]
fn dynamic_merge() {
    let vocab = strings(&["<unk>", "a", "b"]);
    let mut tok = BpeTokenizer::new(vocab, Vec::new(), 0);
    let id = tok.add_merge("a", "b");
    assert_eq!(id, 3);
    let encoded = tok.encode("ab");
    assert_eq!(encoded, vec![id]);
    let decoded = tok.decode(&encoded);
    assert_eq!(decoded, "ab");
}

#[test]
fn learn_merges_from_text() {
    let vocab = strings(&["<unk>", "a", "b"]);
    let mut tok = BpeTokenizer::new(vocab, Vec::new(), 0);
    tok.learn_merges("ab ab", 1);
    assert_eq!(tok.vocab_size(), 3 + 1);
    let encoded = tok.encode("ab");
    assert_eq!(encoded.len(), 1);
    let decoded = tok.decode(&encoded);
    assert_eq!(decoded, "ab");
}

#[test]
fn whitespace_unknown_word_and_out_of_range_id() {
    let tok = WhitespaceTokenizer::new(strings(&["<unk>", "a", "b"]), 0);
    assert_eq!(tok.encode("  b\tzz\na  "), vec![2, 0, 1]);
    assert_eq!(tok.decode(&[1, 7, 2]), "a  b");
    assert_eq!(tok.decode(&[]), "");
}

#[test]
fn whitespace_duplicate_entry_takes_last_id() {
    let tok = WhitespaceTokenizer::new(strings(&["x", "y", "x"]), 9);
    assert_eq!(tok.encode("x y q"), vec![2, 1, 9]);
}

#[test]
fn bpe_lowest_rank_merges_first() {
    // "abc": the pair (b, c) ranks before (a, b), so "bc" forms and "ab" never does.
    let vocab = strings(&["<unk>", "a", "b", "c", "ab", "bc"]);
    let merges = pairs(&[("b", "c"), ("a", "b")]);
    let tok = BpeTokenizer::new(vocab, merges, 0);
    assert_eq!(tok.encode("abc"), vec![1, 5]);
    assert_eq!(tok.encode("ab abc"), vec![4, 1, 5]);
}

#[test]
fn bpe_equal_ranks_merge_leftmost() {
    let vocab = strings(&["<unk>", "a", "aa"]);
    let merges = pairs(&[("a", "a")]);
    let tok = BpeTokenizer::new(vocab, merges, 0);
    // "aaa": the leftmost pair merges, leaving "aa" then "a".
    assert_eq!(tok.encode("aaa"), vec![2, 1]);
    assert_eq!(tok.decode(&[2, 1, 5]), "aaa");
}

#[test]
fn bpe_repeated_merge_keeps_last_rank() {
    let vocab = strings(&["<unk>", "a", "b", "c", "ab", "bc"]);
    // (a, b) is listed first and again last, so it ranks after (b, c).
    let merges = pairs(&[("a", "b"), ("b", "c"), ("a", "b")]);
    let tok = BpeTokenizer::new(vocab, merges, 0);
    assert_eq!(tok.encode("abc"), vec![1, 5]);
}

#[test]
fn add_merge_of_existing_token_keeps_its_id() {
    let vocab = strings(&["<unk>", "a", "b", "ab"]);
    let mut tok = BpeTokenizer::new(vocab, Vec::new(), 0);
    assert_eq!(tok.encode("ab"), vec![1, 2]);
    assert_eq!(tok.add_merge("a", "b"), 3);
    assert_eq!(tok.vocab_size(), 4);
    assert_eq!(tok.encode("ab"), vec![3]);
    assert_eq!(tok.add_merge("a", "b"), 3);
    assert_eq!(tok.vocab_size(), 4);
}

#[test]
fn learn_merges_picks_most_frequent_pair() {
    let vocab = strings(&["<unk>", "a", "b", "c"]);
    let mut tok = BpeTokenizer::new(vocab, Vec::new(), 0);
    tok.learn_merges("bc ab bc", 1);
    assert_eq!(tok.vocab_size(), 5);
    assert_eq!(tok.encode("bc"), vec![4]);
    assert_eq!(tok.encode("ab"), vec![1, 2]);
}

#[test]
fn learn_merges_stops_without_pairs() {
    let vocab = strings(&["<unk>", "a", "b"]);
    let mut tok = BpeTokenizer::new(vocab, Vec::new(), 0);
    tok.learn_merges("a b", 5);
    assert_eq!(tok.vocab_size(), 3);
    tok.learn_merges("aab", 5);
    // "aab" -> (a, a) first (first of equally frequent pairs), then (aa, b).
    assert_eq!(tok.vocab_size(), 5);
    assert_eq!(tok.decode(&[3, 4]), "aaaab");
    assert_eq!(tok.encode("aab"), vec![4]);
}

#[test]
fn listings_parse() {
    let vocab = vocab_from_text("<unk>\r\nab\n\nc");
    assert_eq!(vocab, strings(&["<unk>", "ab", "", "c"]));
    let vocab = vocab_from_text("x\ny\n");
    assert_eq!(vocab, strings(&["x", "y"]));
    let merges = merges_from_text("a b\nlonely\n  c   d extra\n");
    assert_eq!(merges, pairs(&[("a", "b"), ("c", "d")]));
}
