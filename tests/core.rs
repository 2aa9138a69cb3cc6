use dragon_core::add;
use dragon_core::dataset::{line_sample, shift_pair, DataLoader};
use dragon_core::ffi::TokenizerHandle;
use dragon_core::greedy::{argmax_first, greedy_step};
use dragon_core::names::{block_tensor_names, decimal_string, model_tensor_names};
use dragon_core::schedule::bucket_sizes;
use dragon_core::shapes::{head_dim, rotary_pairs};
use dragon_core::tensor_file::{frame, tensor_bytes, tensor_ranges, unframe};
use dragon_core::tokenizer::WhitespaceTokenizer;

#[test]
fn it_works() {
    let result = add(2, 2);
    assert_eq!(result, 4);
}

#[test]
fn shift_pair_splits_for_next_token() {
    assert_eq!(shift_pair(&vec![4, 5, 6]), Some((vec![4, 5], vec![5, 6])));
    assert_eq!(shift_pair(&vec![4]), None);
    assert_eq!(shift_pair(&vec![]), None);
}

#[test]
fn line_sample_encodes_then_shifts() {
    let vocab = vec!["hello".to_string(), "world".to_string(), "foo".to_string(), "bar".to_string()];
    let tok = WhitespaceTokenizer::new(vocab, 0);
    assert_eq!(line_sample(&tok, "hello world\n"), Some((vec![0], vec![1])));
    assert_eq!(line_sample(&tok, "foo bar"), Some((vec![2], vec![3])));
    assert_eq!(line_sample(&tok, "foo\n"), None);
}

fn samples() -> Vec<(Vec<usize>, Vec<usize>)> {
    vec![(vec![0, 1, 2], vec![1, 2, 3]), (vec![4, 5, 6], vec![5, 6, 7]), (vec![8], vec![9])]
}

#[test]
fn dataloader_batches_in_order() {
    let mut dl = DataLoader::new(samples(), 2, false);
    let (inputs, targets) = dl.next_batch().unwrap();
    assert_eq!(inputs, vec![vec![0, 1, 2], vec![4, 5, 6]]);
    assert_eq!(targets, vec![vec![1, 2, 3], vec![5, 6, 7]]);
    let (inputs, targets) = dl.next_batch().unwrap();
    assert_eq!(inputs, vec![vec![8]]);
    assert_eq!(targets, vec![vec![9]]);
    assert!(dl.next_batch().is_none());
    dl.reset(false);
    assert_eq!(dl.next_batch().unwrap().0.len(), 2);
}

#[test]
fn dataloader_shuffle_keeps_samples() {
    let mut dl = DataLoader::new(samples(), 10, true);
    let (mut inputs, _) = dl.next_batch().unwrap();
    assert!(dl.next_batch().is_none());
    inputs.sort();
    assert_eq!(inputs, vec![vec![0, 1, 2], vec![4, 5, 6], vec![8]]);
    dl.reset(true);
    let (inputs, targets) = dl.next_batch().unwrap();
    for (i, t) in inputs.iter().zip(targets.iter()) {
        assert_eq!(i.len(), t.len());
    }
}

#[test]
fn dataloader_empty_and_huge_batch() {
    let mut dl = DataLoader::new(Vec::new(), 3, true);
    assert!(dl.next_batch().is_none());
    let mut dl = DataLoader::new(samples(), usize::MAX, false);
    assert_eq!(dl.next_batch().unwrap().0.len(), 3);
    assert!(dl.next_batch().is_none());
}

#[test]
fn argmax_takes_first_of_equal_keys() {
    assert_eq!(argmax_first(&vec![3, 9, 2, 9]), 1);
    assert_eq!(argmax_first(&vec![7]), 0);
    assert_eq!(argmax_first(&vec![]), 0);
    assert_eq!(argmax_first(&vec![1, 2, 3]), 2);
}

#[test]
fn greedy_step_appends_choice() {
    let mut tokens = vec![0usize];
    greedy_step(&mut tokens, Some(&vec![5, 8, 8]));
    assert_eq!(tokens, vec![0, 1]);
    greedy_step(&mut tokens, None);
    assert_eq!(tokens, vec![0, 1]);
    greedy_step(&mut tokens, Some(&vec![]));
    assert_eq!(tokens, vec![0, 1, 0]);
}

#[test]
fn tensor_file_round_trip() {
    let header = b"{\"a\":1}".to_vec();
    let data = vec![1u8, 2, 3, 4, 5, 6, 7, 8];
    let bytes = frame(&header, &data);
    assert_eq!(&bytes[..8], &[7u8, 0, 0, 0, 0, 0, 0, 0]);
    assert_eq!(bytes.len(), 8 + 7 + 8);
    assert_eq!(unframe(&bytes), Some((header, data)));
}

#[test]
fn tensor_file_length_prefix_bytes() {
    let header = vec![0u8; 300];
    let bytes = frame(&header, &Vec::new());
    assert_eq!(&bytes[..8], &[44u8, 1, 0, 0, 0, 0, 0, 0]);
    assert_eq!(unframe(&bytes), Some((header, Vec::new())));
}

#[test]
fn tensor_file_rejects_short_input() {
    assert_eq!(unframe(&vec![1, 2, 3]), None);
    assert_eq!(unframe(&vec![9, 0, 0, 0, 0, 0, 0, 0, 1, 2]), None);
    assert_eq!(unframe(&vec![0, 0, 0, 0, 0, 0, 0, 0]), Some((Vec::new(), Vec::new())));
}

#[test]
fn tensor_ranges_are_consecutive() {
    assert_eq!(tensor_ranges(&vec![4, 2, 0, 1]), Some(vec![(0, 16), (16, 24), (24, 24), (24, 28)]));
    assert_eq!(tensor_ranges(&vec![]), Some(vec![]));
    assert_eq!(tensor_ranges(&vec![usize::MAX / 4, 1]), None);
}

#[test]
fn tensor_bytes_checks_range() {
    let data: Vec<u8> = (0u8..12).collect();
    assert_eq!(tensor_bytes(&data, 4, 12), Some((4u8..12).collect()));
    assert_eq!(tensor_bytes(&data, 8, 4), None);
    assert_eq!(tensor_bytes(&data, 8, 16), None);
    assert_eq!(tensor_bytes(&data, 0, 6), None);
}

#[test]
fn buckets_follow_accumulation() {
    assert_eq!(bucket_sizes(7, 3), vec![3, 3, 1]);
    assert_eq!(bucket_sizes(6, 3), vec![3, 3]);
    assert_eq!(bucket_sizes(5, 1), vec![1, 1, 1, 1, 1]);
    assert_eq!(bucket_sizes(5, 0), vec![5]);
    assert_eq!(bucket_sizes(0, 4), Vec::<usize>::new());
    assert_eq!(bucket_sizes(2, 9), vec![2]);
}

#[test]
fn head_and_rotary_shapes() {
    assert_eq!(head_dim(4, 2), Some(2));
    assert_eq!(head_dim(6, 4), None);
    assert_eq!(head_dim(4, 0), None);
    assert_eq!(rotary_pairs(4), Some(2));
    assert_eq!(rotary_pairs(5), None);
}

#[test]
fn tokenizer_handle_from_listings() {
    let handle = TokenizerHandle::new("<unk>\nh\ne\nl\no\nhe\nhel\nhell\nhello\n", "h e\nhe l\nhel l\nhell o\n", 0);
    assert_eq!(handle.encode_capped("hello he", 10), vec![8, 5]);
    assert_eq!(handle.encode_capped("hello he", 1), vec![8]);
    assert_eq!(handle.encode_capped("hello he", 0), Vec::<usize>::new());
}

#[test]
fn decimal_forms() {
    assert_eq!(decimal_string(0), "0");
    assert_eq!(decimal_string(7), "7");
    assert_eq!(decimal_string(10), "10");
    assert_eq!(decimal_string(4096), "4096");
    assert_eq!(decimal_string(usize::MAX), usize::MAX.to_string());
}

#[test]
fn model_tensor_name_listing() {
    let names = model_tensor_names(2);
    assert_eq!(names.len(), 3 + 2 * 16);
    assert_eq!(&names[..3], &["embedding.weight", "output.weight", "output.bias"]);
    assert_eq!(names[3], "layers.0.ln1.gamma");
    assert_eq!(names[7], "layers.0.attn.w_q.weight");
    assert_eq!(names[18], "layers.0.ff.w2.bias");
    assert_eq!(names[19], "layers.1.ln1.gamma");
    let block = block_tensor_names(12);
    assert_eq!(block[13], "layers.12.ff.w1.bias");
    assert_eq!(model_tensor_names(0).len(), 3);
}
