use dragon_core::greedy::greedy_step;
use dragon_core::matrix::{append_column, append_row, chunk_rows, flatten_rows, gather_rows};

#[test]
fn embedding_lookup() {
    let weights = vec![vec![0.1f32, 0.2], vec![0.3, 0.4], vec![0.5, 0.6]];
    let input = vec![2usize, 0, 1];
    let output = gather_rows(&weights, &input);
    assert_eq!(output.len(), 3);
    assert_eq!(output[0], vec![0.5, 0.6]);
    assert_eq!(output[1], vec![0.1, 0.2]);
    assert_eq!(output[2], vec![0.3, 0.4]);
}

#[test]
fn flatten_then_chunk_gives_matrix_back() {
    let m = vec![vec![1.5f32, -2.0, 0.25], vec![4.0, 5.0, 6.0]];
    let flat = flatten_rows(&m);
    assert_eq!(flat, vec![1.5, -2.0, 0.25, 4.0, 5.0, 6.0]);
    assert_eq!(chunk_rows(&flat, 3), m);
}

#[test]
fn chunk_keeps_short_last_row() {
    let data: Vec<u8> = (1..=7).collect();
    assert_eq!(chunk_rows(&data, 3), vec![vec![1, 2, 3], vec![4, 5, 6], vec![7]]);
    assert_eq!(chunk_rows(&Vec::<u8>::new(), 3), Vec::<Vec<u8>>::new());
}

#[test]
fn vocabulary_growth_appends_at_end() {
    let mut embedding = vec![vec![1.0f32, 0.0], vec![0.0, 1.0]];
    let id = append_row(&mut embedding, 2, 0.0);
    assert_eq!(id, 2);
    assert_eq!(embedding, vec![vec![1.0, 0.0], vec![0.0, 1.0], vec![0.0, 0.0]]);
    let mut output = vec![vec![1.0f32, 0.0], vec![0.0, 1.0]];
    append_column(&mut output, 0.0);
    assert_eq!(output, vec![vec![1.0, 0.0, 0.0], vec![0.0, 1.0, 0.0]]);
}

#[test]
fn generation_appends_one_token_per_step() {
    let rows: Vec<Vec<u32>> = vec![vec![1, 5, 2], vec![9, 9, 0], vec![0, 1, 7]];
    let mut tokens = vec![2usize];
    for row in &rows {
        greedy_step(&mut tokens, Some(row));
    }
    assert_eq!(tokens.len(), 1 + rows.len());
    assert_eq!(tokens, vec![2, 1, 0, 2]);
    assert!(tokens[1..].iter().all(|&t| t < 3));
}
