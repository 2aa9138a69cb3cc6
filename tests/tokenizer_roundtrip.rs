use dragon_core::tokenizer::BpeTokenizer;

#[test]
fn encode_decode_encode_identity() {
    let vocab: Vec<String> = [
        "<unk>", "h", "e", "l", "o", "w", "r", "d", "he", "hel", "hell", "hello", "wo", "wor",
        "worl", "world",
    ]
    .iter()
    .map(|s| s.to_string())
    .collect();
    let merges: Vec<(String, String)> = [
        ("h", "e"),
        ("he", "l"),
        ("hel", "l"),
        ("hell", "o"),
        ("w", "o"),
        ("wo", "r"),
        ("wor", "l"),
        ("worl", "d"),
    ]
    .iter()
    .map(|(a, b)| (a.to_string(), b.to_string()))
    .collect();
    let tok = BpeTokenizer::new(vocab, merges, 0);
    let text = "hello";
    let ids1 = tok.encode(text);
    let decoded = tok.decode(&ids1);
    let ids2 = tok.encode(&decoded);
    assert_eq!(ids1, ids2);
}
