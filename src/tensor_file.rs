//! Layout of a tensor file: an 8-byte little-endian header length, the header,
//! then the tensors' bytes one after another.
use vstd::prelude::*;
use vstd::seq_lib::lemma_flatten_concat;

verus! {

/// 256 to the power `k`.
pub open spec fn pow256(k: nat) -> nat
    decreases k,
{
    if k == 0 {
        1
    } else {
        256 * pow256((k - 1) as nat)
    }
}

/// The lowest `k` bytes of `n`, least significant first.
pub open spec fn le_bytes(n: nat, k: nat) -> Seq<u8>
    decreases k,
{
    if k == 0 {
        Seq::empty()
    } else {
        seq![(n % 256) as u8] + le_bytes(n / 256, (k - 1) as nat)
    }
}

/// The number whose bytes, least significant first, are `bs`.
pub open spec fn le_value(bs: Seq<u8>) -> nat
    decreases bs.len(),
{
    if bs.len() == 0 {
        0
    } else {
        bs[0] as nat + 256 * le_value(bs.drop_first())
    }
}

/// The bytes of a file with header `header` followed by `data`.
pub open spec fn framed(header: Seq<u8>, data: Seq<u8>) -> Seq<u8> {
    le_bytes(header.len(), 8) + header + data
}

/// Header and data of the file `bytes`, when its length prefix fits in it.
pub open spec fn unframed(bytes: Seq<u8>) -> Option<(Seq<u8>, Seq<u8>)> {
    if bytes.len() < 8 {
        None
    } else {
        let n = le_value(bytes.take(8));
        if 8 + n <= bytes.len() {
            Some((bytes.subrange(8, 8 + n as int), bytes.skip(8 + n as int)))
        } else {
            None
        }
    }
}

/// Reading back the lowest `k` bytes of a number below `256^k` gives the number.
pub proof fn lemma_le_round_trip(n: nat, k: nat)
    requires
        n < pow256(k),
    ensures
        le_value(le_bytes(n, k)) == n,
        le_bytes(n, k).len() == k,
    decreases k,
{
    if k > 0 {
        let q = n / 256;
        assert(q < pow256((k - 1) as nat)) by (nonlinear_arith)
            requires
                n < 256 * pow256((k - 1) as nat),
                q == n / 256,
        ;
        lemma_le_round_trip(q, (k - 1) as nat);
        let bs = le_bytes(n, k);
        assert(bs.drop_first() =~= le_bytes(q, (k - 1) as nat));
        assert(bs[0] as nat == n % 256);
        assert(n == n % 256 + 256 * q) by (nonlinear_arith)
            requires
                q == n / 256,
        ;
    }
}

/// Powers of 256 grow with the exponent.
pub proof fn lemma_pow256_grows(a: nat, b: nat)
    requires
        a <= b,
    ensures
        pow256(a) <= pow256(b),
    decreases b - a,
{
    if a < b {
        lemma_pow256_grows(a, (b - 1) as nat);
    }
}

/// The 8 little-endian bytes of `n`.
fn u64_le_bytes(n: u64) -> (r: Vec<u8>)
    ensures
        r@ == le_bytes(n as nat, 8),
{
    let mut out: Vec<u8> = Vec::new();
    let mut cur = n;
    let mut i: usize = 0;
    while i < 8
        invariant
            i <= 8,
            out@ + le_bytes(cur as nat, (8 - i) as nat) == le_bytes(n as nat, 8),
        decreases 8 - i,
    {
        let b = (cur % 256) as u8;
        let ghost rest = le_bytes((cur / 256) as nat, (8 - i - 1) as nat);
        assert(le_bytes(cur as nat, (8 - i) as nat) == seq![b] + rest);
        assert(out@.push(b) + rest =~= out@ + (seq![b] + rest));
        out.push(b);
        cur = cur / 256;
        i = i + 1;
    }
    assert(out@ + le_bytes(cur as nat, 0) =~= out@);
    out
}

/// The number held by the first 8 bytes of `bs`, least significant first.
fn read_u64_le(bs: &Vec<u8>) -> (r: u64)
    requires
        bs.len() >= 8,
    ensures
        r as nat == le_value(bs@.take(8)),
{
    assert(pow256(8) == 18446744073709551616nat) by {
        reveal_with_fuel(pow256, 9);
    }
    let mut v: u64 = 0;
    let mut i: usize = 8;
    assert(bs@.take(8).subrange(8, 8) =~= Seq::<u8>::empty());
    while i > 0
        invariant
            i <= 8,
            bs.len() >= 8,
            v as nat == le_value(bs@.take(8).subrange(i as int, 8)),
            (v as nat) < pow256((8 - i) as nat),
            pow256(8) == 18446744073709551616nat,
        decreases i,
    {
        let ghost k = (8 - i) as nat;
        let ghost p = pow256(k);
        assert(pow256(k + 1) == 256 * p);
        proof {
            lemma_pow256_grows(k + 1, 8);
        }
        let b = bs[i - 1];
        assert((v as nat) * 256 + (b as nat) < 256 * p) by (nonlinear_arith)
            requires
                (v as nat) < p,
                (b as nat) < 256,
        ;
        assert(bs@.take(8).subrange(i - 1, 8).drop_first() =~= bs@.take(8).subrange(i as int, 8));
        v = v * 256 + b as u64;
        i = i - 1;
    }
    assert(bs@.take(8).subrange(0, 8) =~= bs@.take(8));
    v
}

/// The bytes of a file with `header` and then `data`.
pub fn frame(header: &Vec<u8>, data: &Vec<u8>) -> (r: Vec<u8>)
    ensures
        r@ == framed(header@, data@),
{
    let mut out = u64_le_bytes(header.len() as u64);
    let mut i: usize = 0;
    while i < header.len()
        invariant
            out@ == le_bytes(header@.len(), 8) + header@.take(i as int),
            i <= header.len(),
        decreases header.len() - i,
    {
        out.push(header[i]);
        assert(out@ =~= le_bytes(header@.len(), 8) + header@.take(i + 1));
        i = i + 1;
    }
    let mut j: usize = 0;
    while j < data.len()
        invariant
            out@ == le_bytes(header@.len(), 8) + header@ + data@.take(j as int),
            j <= data.len(),
        decreases data.len() - j,
    {
        out.push(data[j]);
        assert(out@ =~= le_bytes(header@.len(), 8) + header@ + data@.take(j + 1));
        j = j + 1;
    }
    assert(data@.take(data.len() as int) =~= data@);
    out
}

/// The bytes of `bs` from `start` up to `end`.
fn copy_range(bs: &Vec<u8>, start: usize, end: usize) -> (r: Vec<u8>)
    requires
        start <= end <= bs.len(),
    ensures
        r@ == bs@.subrange(start as int, end as int),
{
    let mut out: Vec<u8> = Vec::new();
    let mut i = start;
    while i < end
        invariant
            start <= i <= end <= bs.len(),
            out@ == bs@.subrange(start as int, i as int),
        decreases end - i,
    {
        out.push(bs[i]);
        assert(out@ =~= bs@.subrange(start as int, i + 1));
        i = i + 1;
    }
    out
}

/// Header and data of a tensor file, or `None` when the file is shorter than
/// its length prefix says.
pub fn unframe(bytes: &Vec<u8>) -> (r: Option<(Vec<u8>, Vec<u8>)>)
    ensures
        match r {
            Some((h, d)) => unframed(bytes@) == Some((h@, d@)),
            None => unframed(bytes@) is None,
        },
{
    if bytes.len() < 8 {
        return None;
    }
    let n = read_u64_le(bytes);
    let avail = (bytes.len() - 8) as u64;
    if n > avail {
        return None;
    }
    let end = 8 + n as usize;
    let header = copy_range(bytes, 8, end);
    let data = copy_range(bytes, end, bytes.len());
    assert(data@ =~= bytes@.skip(end as int));
    Some((header, data))
}

/// Reading back a written tensor file gives its header and data.
pub proof fn lemma_frame_round_trip(header: Seq<u8>, data: Seq<u8>)
    requires
        header.len() < pow256(8),
    ensures
        unframed(framed(header, data)) == Some((header, data)),
{
    lemma_le_round_trip(header.len(), 8);
    let f = framed(header, data);
    assert(f.take(8) =~= le_bytes(header.len(), 8));
    assert(f.subrange(8, 8 + header.len() as int) =~= header);
    assert(f.skip(8 + header.len() as int) =~= data);
}

/// Byte ranges, one after another from 0, of tensors with `lens` elements of
/// four bytes each.
pub open spec fn ranges_fit(lens: Seq<usize>, r: Seq<(usize, usize)>) -> bool {
    &&& r.len() == lens.len()
    &&& forall|i: int| 0 <= i < r.len() ==> #[trigger] r[i].1 == r[i].0 + 4 * lens[i]
    &&& r.len() > 0 ==> r[0].0 == 0
    &&& forall|i: int| 0 < i < r.len() ==> #[trigger] r[i].0 == r[i - 1].1
}

/// Total bytes of tensors with `lens` elements of four bytes each.
pub open spec fn total_bytes(lens: Seq<usize>) -> nat
    decreases lens.len(),
{
    if lens.len() == 0 {
        0
    } else {
        total_bytes(lens.drop_last()) + 4 * (lens.last() as nat)
    }
}

/// A prefix of the tensors needs no more bytes than all of them.
pub proof fn lemma_total_bytes_grows(lens: Seq<usize>, j: int)
    requires
        0 <= j <= lens.len(),
    ensures
        total_bytes(lens.take(j)) <= total_bytes(lens),
    decreases lens.len() - j,
{
    if j < lens.len() {
        assert(lens.take(j + 1).drop_last() =~= lens.take(j));
        lemma_total_bytes_grows(lens, j + 1);
    } else {
        assert(lens.take(j) =~= lens);
    }
}

/// Where each tensor's bytes lie in the data, tensors stored one after another
/// in order; `None` when the total does not fit in a `usize`.
pub fn tensor_ranges(lens: &Vec<usize>) -> (r: Option<Vec<(usize, usize)>>)
    ensures
        match r {
            Some(v) => ranges_fit(lens@, v@),
            None => total_bytes(lens@) > usize::MAX,
        },
{
    let mut out: Vec<(usize, usize)> = Vec::new();
    let mut offset: usize = 0;
    let mut i: usize = 0;
    while i < lens.len()
        invariant
            i <= lens.len(),
            offset as nat == total_bytes(lens@.take(i as int)),
            ranges_fit(lens@.take(i as int), out@),
            i > 0 ==> out@[i - 1].1 == offset,
        decreases lens.len() - i,
    {
        assert(lens@.take(i + 1).drop_last() =~= lens@.take(i as int));
        let len = lens[i];
        if len > (usize::MAX - offset) / 4 {
            proof {
                assert(total_bytes(lens@.take(i + 1)) > usize::MAX);
                lemma_total_bytes_grows(lens@, i + 1);
            }
            return None;
        }
        let end = offset + 4 * len;
        out.push((offset, end));
        offset = end;
        i = i + 1;
    }
    assert(lens@.take(lens.len() as int) =~= lens@);
    Some(out)
}

/// Tensor `i` starts after the bytes of all tensors before it.
proof fn lemma_range_start(parts: Seq<Seq<u8>>, lens: Seq<usize>, r: Seq<(usize, usize)>, i: int)
    requires
        parts.len() == lens.len(),
        forall|k: int| 0 <= k < parts.len() ==> #[trigger] parts[k].len() == 4 * lens[k],
        ranges_fit(lens, r),
        0 <= i < r.len(),
    ensures
        r[i].0 == parts.take(i).flatten().len(),
    decreases i,
{
    if i == 0 {
        assert(parts.take(0) =~= Seq::<Seq<u8>>::empty());
    } else {
        lemma_range_start(parts, lens, r, i - 1);
        assert(parts.take(i) =~= parts.take(i - 1).push(parts[i - 1]));
        parts.take(i - 1).lemma_flatten_push(parts[i - 1]);
    }
}

/// Tensors stored one after another are found again at their ranges: with
/// `parts[i]` the `4 * lens[i]` bytes of tensor `i`, the data `parts.flatten()`
/// holds `parts[i]` at the `i`-th range that `tensor_ranges` gives.
pub proof fn lemma_ranges_recover(parts: Seq<Seq<u8>>, lens: Seq<usize>, r: Seq<(usize, usize)>)
    requires
        parts.len() == lens.len(),
        forall|k: int| 0 <= k < parts.len() ==> #[trigger] parts[k].len() == 4 * lens[k],
        ranges_fit(lens, r),
    ensures
        forall|i: int| 0 <= i < r.len() ==> #[trigger] parts.flatten().subrange(r[i].0 as int, r[i].1 as int) == parts[i],
{
    assert forall|i: int| 0 <= i < r.len() implies #[trigger] parts.flatten().subrange(r[i].0 as int, r[i].1 as int) == parts[i] by {
        lemma_range_start(parts, lens, r, i);
        let head = parts.take(i);
        let mid = seq![parts[i]];
        let tail = parts.skip(i + 1);
        assert(parts =~= head + mid + tail);
        lemma_flatten_concat(head + mid, tail);
        lemma_flatten_concat(head, mid);
        mid.lemma_flatten_one_element();
        let f = parts.flatten();
        assert(f =~= head.flatten() + parts[i] + tail.flatten());
        assert(f.subrange(r[i].0 as int, r[i].1 as int) =~= parts[i]);
    }
}

/// The bytes of one tensor, stored in `data` from `start` up to `end`: `None`
/// when the range is reversed, runs past the data, or is not whole four-byte elements.
pub fn tensor_bytes(data: &Vec<u8>, start: usize, end: usize) -> (r: Option<Vec<u8>>)
    ensures
        r is Some <==> start <= end <= data.len() && (end - start) % 4 == 0,
        r matches Some(v) ==> v@ == data@.subrange(start as int, end as int),
{
    if start <= end && end <= data.len() && (end - start) % 4 == 0 {
        Some(copy_range(data, start, end))
    } else {
        None
    }
}

} // verus!
