//! Names of a model's tensors in a tensor file.
use vstd::prelude::*;
use crate::text::chars_string;

verus! {

/// The decimal digit `d`.
pub open spec fn digit(d: nat) -> char {
    (('0' as u32) + d) as char
}

/// Decimal form of `n`, without leading zeros.
pub open spec fn decimal(n: nat) -> Seq<char>
    decreases n,
{
    if n < 10 {
        seq![digit(n)]
    } else {
        decimal(n / 10).push(digit(n % 10))
    }
}

/// The decimal form of `n`.
pub fn decimal_string(n: usize) -> (r: String)
    ensures
        r@ == decimal(n as nat),
{
    let mut low: Vec<char> = Vec::new();
    let mut cur = n;
    while cur >= 10
        invariant
            decimal(n as nat) == decimal(cur as nat) + low@.reverse(),
        decreases cur,
    {
        let c = (48u8 + (cur % 10) as u8) as char;
        assert(c == digit((cur % 10) as nat));
        assert(low@.push(c).reverse() =~= seq![c] + low@.reverse());
        assert(decimal(cur as nat) == decimal((cur / 10) as nat).push(c));
        assert(decimal((cur / 10) as nat).push(c) + low@.reverse() =~= decimal((cur / 10) as nat) + low@.push(c).reverse());
        low.push(c);
        cur = cur / 10;
    }
    let first = (48u8 + cur as u8) as char;
    assert(decimal(cur as nat) == seq![first]);
    let mut all: Vec<char> = Vec::new();
    all.push(first);
    let mut k: usize = low.len();
    while k > 0
        invariant
            k <= low.len(),
            all@ == seq![first] + low@.skip(k as int).reverse(),
        decreases k,
    {
        assert(low@.skip(k - 1).reverse() =~= low@.skip(k as int).reverse().push(low@[k - 1]));
        all.push(low[k - 1]);
        k = k - 1;
    }
    assert(low@.skip(0) =~= low@);
    let len = all.len();
    chars_string(&all, len)
}

/// Suffixes of the tensors of one decoder block, in listing order.
pub open spec fn block_suffixes() -> Seq<Seq<char>> {
    seq![
        ".ln1.gamma"@,
        ".ln1.beta"@,
        ".ln2.gamma"@,
        ".ln2.beta"@,
        ".attn.w_q.weight"@,
        ".attn.w_q.bias"@,
        ".attn.w_k.weight"@,
        ".attn.w_k.bias"@,
        ".attn.w_v.weight"@,
        ".attn.w_v.bias"@,
        ".attn.w_o.weight"@,
        ".attn.w_o.bias"@,
        ".ff.w1.weight"@,
        ".ff.w1.bias"@,
        ".ff.w2.weight"@,
        ".ff.w2.bias"@,
    ]
}

/// Names of the tensors of block `i`: `layers.<i>` and a block suffix.
pub open spec fn block_names(i: nat) -> Seq<Seq<char>> {
    block_suffixes().map_values(|sfx: Seq<char>| "layers."@ + decimal(i) + sfx)
}

/// Names of the tensors outside the blocks, in listing order.
pub open spec fn head_names() -> Seq<Seq<char>> {
    seq!["embedding.weight"@, "output.weight"@, "output.bias"@]
}

/// Names of every tensor of a model with `num_layers` blocks, in listing order.
pub open spec fn model_names(num_layers: nat) -> Seq<Seq<char>> {
    head_names() + Seq::new(num_layers, |i: int| block_names(i as nat)).flatten()
}

fn suffix_list() -> (r: Vec<&'static str>)
    ensures
        r@.map_values(|s: &str| s@) == block_suffixes(),
{
    let r = vec![
        ".ln1.gamma",
        ".ln1.beta",
        ".ln2.gamma",
        ".ln2.beta",
        ".attn.w_q.weight",
        ".attn.w_q.bias",
        ".attn.w_k.weight",
        ".attn.w_k.bias",
        ".attn.w_v.weight",
        ".attn.w_v.bias",
        ".attn.w_o.weight",
        ".attn.w_o.bias",
        ".ff.w1.weight",
        ".ff.w1.bias",
        ".ff.w2.weight",
        ".ff.w2.bias",
    ];
    assert(r@.map_values(|s: &str| s@) =~= block_suffixes());
    r
}

/// Names of the tensors of block `i`, in listing order: layer norms' gamma
/// and beta, then weight and bias of the attention projections q, k, v, o and
/// of the feed-forward layers w1, w2.
pub fn block_tensor_names(i: usize) -> (r: Vec<String>)
    ensures
        r.deep_view() == block_names(i as nat),
{
    let sfx = suffix_list();
    let num = decimal_string(i);
    let mut out: Vec<String> = Vec::new();
    for k in 0..sfx.len()
        invariant
            sfx@.map_values(|s: &str| s@) == block_suffixes(),
            num@ == decimal(i as nat),
            out.deep_view() == block_names(i as nat).take(k as int),
    {
        let mut name = String::from_str("layers.");
        name.append(num.as_str());
        name.append(sfx[k]);
        proof {
            assert(sfx@.map_values(|s: &str| s@)[k as int] == sfx[k as int]@);
            assert(name@ == "layers."@ + decimal(i as nat) + block_suffixes()[k as int]);
            assert(block_names(i as nat)[k as int] == name@);
        }
        let ghost before = out.deep_view();
        out.push(name);
        assert(out.deep_view() =~= before.push(block_names(i as nat)[k as int]));
        assert(out.deep_view() =~= block_names(i as nat).take(k + 1));
    }
    assert(block_names(i as nat).take(16) =~= block_names(i as nat));
    out
}

/// Names of every tensor of a model with `num_layers` blocks: `embedding.weight`,
/// `output.weight`, `output.bias`, then the names of each block in order.
pub fn model_tensor_names(num_layers: usize) -> (r: Vec<String>)
    ensures
        r.deep_view() == model_names(num_layers as nat),
{
    let mut out: Vec<String> = Vec::new();
    out.push(String::from_str("embedding.weight"));
    out.push(String::from_str("output.weight"));
    out.push(String::from_str("output.bias"));
    assert(out.deep_view() =~= head_names());
    let ghost blocks = Seq::new(num_layers as nat, |i: int| block_names(i as nat));
    for i in 0..num_layers
        invariant
            blocks == Seq::new(num_layers as nat, |i: int| block_names(i as nat)),
            out.deep_view() == head_names() + blocks.take(i as int).flatten(),
    {
        let mut names = block_tensor_names(i);
        let ghost before = out.deep_view();
        out.append(&mut names);
        proof {
            assert(blocks.take(i + 1) =~= blocks.take(i as int).push(blocks[i as int]));
            blocks.take(i as int).lemma_flatten_push(blocks[i as int]);
            assert(out.deep_view() =~= before + block_names(i as nat));
        }
    }
    assert(blocks.take(num_layers as int) =~= blocks);
    out
}

} // verus!
