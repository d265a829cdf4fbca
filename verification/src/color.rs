//! The dominant colour of a set of pixels.

use vstd::prelude::*;
use std::collections::HashMap;
use crate::config::Rgb;

verus! {

broadcast use vstd::std_specs::hash::group_hash_axioms;

/// Pixels whose channel sums stay within `u64`.
pub const MAX_PIXELS: u64 = 72_340_172_838_076_673;

/// How far each channel is shifted right to keep `bits` bits (at most 8).
pub open spec fn quant_shift(bits: u8) -> u32 {
    (8 - (if bits < 8 {
        bits
    } else {
        8u8
    })) as u32
}

/// The histogram bucket of a pixel: each channel keeps its top bits, and the
/// three are packed as `r << 16 | g << 8 | b`.
pub open spec fn bucket_key(p: (u8, u8, u8), shift: u32) -> u32 {
    ((((p.0 as u32) >> shift) << 16u32) | (((p.1 as u32) >> shift) << 8u32)) | ((p.2 as u32)
        >> shift)
}

/// The number of pixels of `s` in bucket `k`.
pub open spec fn bucket_count(s: Seq<(u8, u8, u8)>, shift: u32, k: u32) -> nat
    decreases s.len(),
{
    if s.len() == 0 {
        0
    } else {
        bucket_count(s.drop_last(), shift, k) + if bucket_key(s.last(), shift) == k {
            1nat
        } else {
            0nat
        }
    }
}

/// The value of channel `ch` (0 = red, 1 = green, 2 = blue) of `p`.
pub open spec fn channel(p: (u8, u8, u8), ch: int) -> nat {
    if ch == 0 {
        p.0 as nat
    } else if ch == 1 {
        p.1 as nat
    } else {
        p.2 as nat
    }
}

/// The sum of channel `ch` over the pixels of `s` in bucket `k`.
pub open spec fn bucket_sum(s: Seq<(u8, u8, u8)>, shift: u32, k: u32, ch: int) -> nat
    decreases s.len(),
{
    if s.len() == 0 {
        0
    } else {
        bucket_sum(s.drop_last(), shift, k, ch) + if bucket_key(s.last(), shift) == k {
            channel(s.last(), ch)
        } else {
            0nat
        }
    }
}

/// Bucket `k` holds the most pixels of `s`, and among the buckets that hold as
/// many it has the lowest key.
pub open spec fn is_dominant(s: Seq<(u8, u8, u8)>, shift: u32, k: u32) -> bool {
    &&& bucket_count(s, shift, k) > 0
    &&& forall|k2: u32|
        #[trigger] bucket_count(s, shift, k2) < bucket_count(s, shift, k) || (bucket_count(
            s,
            shift,
            k2,
        ) == bucket_count(s, shift, k) && k <= k2)
}

/// The exact mean colour of the pixels of `s` in bucket `k` (each channel
/// rounded down).
pub open spec fn bucket_mean(s: Seq<(u8, u8, u8)>, shift: u32, k: u32) -> Rgb {
    let n = bucket_count(s, shift, k);
    Rgb {
        r: (bucket_sum(s, shift, k, 0) / n) as u8,
        g: (bucket_sum(s, shift, k, 1) / n) as u8,
        b: (bucket_sum(s, shift, k, 2) / n) as u8,
    }
}

proof fn lemma_bucket_bounds(s: Seq<(u8, u8, u8)>, shift: u32, k: u32, ch: int)
    ensures
        bucket_count(s, shift, k) <= s.len(),
        bucket_sum(s, shift, k, ch) <= 255 * bucket_count(s, shift, k),
    decreases s.len(),
{
    if s.len() > 0 {
        lemma_bucket_bounds(s.drop_last(), shift, k, ch);
    }
}

/// Two pixels fall in the same bucket exactly when each of their three
/// channels keeps the same top bits: the red, green and blue parts of a key
/// never mix.
pub proof fn lemma_bucket_key_channels(p: (u8, u8, u8), q: (u8, u8, u8), shift: u32)
    requires
        shift <= 8,
    ensures
        bucket_key(p, shift) == bucket_key(q, shift) <==> ((p.0 as u32) >> shift == (q.0 as u32)
            >> shift && (p.1 as u32) >> shift == (q.1 as u32) >> shift && (p.2 as u32) >> shift
            == (q.2 as u32) >> shift),
{
    let a0 = p.0 as u32;
    let a1 = p.1 as u32;
    let a2 = p.2 as u32;
    let b0 = q.0 as u32;
    let b1 = q.1 as u32;
    let b2 = q.2 as u32;
    assert((((a0 >> shift) << 16u32) | ((a1 >> shift) << 8u32)) | (a2 >> shift) == (((b0 >> shift)
        << 16u32) | ((b1 >> shift) << 8u32)) | (b2 >> shift) <==> (a0 >> shift == b0 >> shift && a1
        >> shift == b1 >> shift && a2 >> shift == b2 >> shift)) by (bit_vector)
        requires
            a0 < 256,
            a1 < 256,
            a2 < 256,
            b0 < 256,
            b1 < 256,
            b2 < 256,
            shift <= 8,
    ;
}

/// At most one bucket is dominant.
pub proof fn lemma_dominant_unique(s: Seq<(u8, u8, u8)>, shift: u32, k1: u32, k2: u32)
    requires
        is_dominant(s, shift, k1),
        is_dominant(s, shift, k2),
    ensures
        k1 == k2,
{
    assert(bucket_count(s, shift, k2) < bucket_count(s, shift, k1) || (bucket_count(s, shift, k2)
        == bucket_count(s, shift, k1) && k1 <= k2));
    assert(bucket_count(s, shift, k1) < bucket_count(s, shift, k2) || (bucket_count(s, shift, k1)
        == bucket_count(s, shift, k2) && k2 <= k1));
}

/// The contribution of pixel `p` to the count of bucket `k`.
pub open spec fn count_of(p: (u8, u8, u8), shift: u32, k: u32) -> nat {
    if bucket_key(p, shift) == k {
        1
    } else {
        0
    }
}

/// The contribution of pixel `p` to the channel-`ch` sum of bucket `k`.
pub open spec fn sum_of(p: (u8, u8, u8), shift: u32, k: u32, ch: int) -> nat {
    if bucket_key(p, shift) == k {
        channel(p, ch)
    } else {
        0
    }
}

proof fn lemma_bucket_remove(s: Seq<(u8, u8, u8)>, shift: u32, k: u32, ch: int, i: int)
    requires
        0 <= i < s.len(),
    ensures
        bucket_count(s, shift, k) == bucket_count(s.remove(i), shift, k) + count_of(s[i], shift, k),
        bucket_sum(s, shift, k, ch) == bucket_sum(s.remove(i), shift, k, ch) + sum_of(
            s[i],
            shift,
            k,
            ch,
        ),
    decreases s.len(),
{
    if i == s.len() - 1 {
        assert(s.remove(i) =~= s.drop_last());
    } else {
        lemma_bucket_remove(s.drop_last(), shift, k, ch, i);
        assert(s.remove(i).drop_last() =~= s.drop_last().remove(i));
        assert(s.remove(i).last() == s.last());
    }
}

proof fn lemma_buckets_permuted(
    p: Seq<(u8, u8, u8)>,
    q: Seq<(u8, u8, u8)>,
    shift: u32,
    k: u32,
    ch: int,
)
    requires
        p.to_multiset() == q.to_multiset(),
    ensures
        bucket_count(p, shift, k) == bucket_count(q, shift, k),
        bucket_sum(p, shift, k, ch) == bucket_sum(q, shift, k, ch),
    decreases p.len(),
{
    broadcast use vstd::seq_lib::group_to_multiset_ensures;

    if p.len() == 0 {
        assert(q.len() == 0) by {
            assert(q.len() == q.to_multiset().len());
            assert(p.len() == p.to_multiset().len());
        }
        assert(q =~= p);
    } else {
        let x = p.last();
        assert(p.contains(x)) by {
            assert(p[p.len() - 1] == x);
        }
        assert(p.to_multiset().count(x) > 0);
        assert(q.contains(x));
        let i = choose|i: int| 0 <= i < q.len() && q[i] == x;
        lemma_bucket_remove(q, shift, k, ch, i);
        assert(p.drop_last() =~= p.remove(p.len() - 1));
        assert(p.remove(p.len() - 1).to_multiset() == p.to_multiset().remove(x));
        assert(q.remove(i).to_multiset() == q.to_multiset().remove(x));
        lemma_buckets_permuted(p.drop_last(), q.remove(i), shift, k, ch);
    }
}

/// The dominant bucket and the mean colour of every bucket depend only on
/// which pixels there are, not on their order: for two orderings of the same
/// pixels, the same buckets are dominant, every bucket has the same mean, and
/// so a colour is the dominant colour of one exactly when it is that of the
/// other.
pub proof fn lemma_dominant_order_free(
    p: Seq<(u8, u8, u8)>,
    q: Seq<(u8, u8, u8)>,
    shift: u32,
    c: Rgb,
)
    requires
        p.to_multiset() == q.to_multiset(),
    ensures
        forall|k: u32| is_dominant(p, shift, k) <==> #[trigger] is_dominant(q, shift, k),
        forall|k: u32| bucket_mean(p, shift, k) == #[trigger] bucket_mean(q, shift, k),
        (exists|k: u32| is_dominant(p, shift, k) && c == bucket_mean(p, shift, k)) <==> (exists|
            k: u32,
        | is_dominant(q, shift, k) && c == bucket_mean(q, shift, k)),
{
    assert forall|k: u32|
        bucket_count(p, shift, k) == #[trigger] bucket_count(q, shift, k) by {
        lemma_buckets_permuted(p, q, shift, k, 0);
    }
    assert forall|k: u32| bucket_mean(p, shift, k) == #[trigger] bucket_mean(q, shift, k) by {
        lemma_buckets_permuted(p, q, shift, k, 0);
        lemma_buckets_permuted(p, q, shift, k, 1);
        lemma_buckets_permuted(p, q, shift, k, 2);
    }
    assert forall|k: u32| is_dominant(p, shift, k) <==> #[trigger] is_dominant(q, shift, k) by {
        if is_dominant(p, shift, k) {
            assert forall|k2: u32|
                #[trigger] bucket_count(q, shift, k2) < bucket_count(q, shift, k) || (bucket_count(
                    q,
                    shift,
                    k2,
                ) == bucket_count(q, shift, k) && k <= k2) by {
                assert(bucket_count(p, shift, k2) == bucket_count(q, shift, k2));
            }
        }
        if is_dominant(q, shift, k) {
            assert forall|k2: u32|
                #[trigger] bucket_count(p, shift, k2) < bucket_count(p, shift, k) || (bucket_count(
                    p,
                    shift,
                    k2,
                ) == bucket_count(p, shift, k) && k <= k2) by {
                assert(bucket_count(p, shift, k2) == bucket_count(q, shift, k2));
            }
        }
    }
    if exists|k: u32| is_dominant(p, shift, k) && c == bucket_mean(p, shift, k) {
        let k = choose|k: u32| is_dominant(p, shift, k) && c == bucket_mean(p, shift, k);
        assert(is_dominant(q, shift, k) && c == bucket_mean(q, shift, k));
    }
    if exists|k: u32| is_dominant(q, shift, k) && c == bucket_mean(q, shift, k) {
        let k = choose|k: u32| is_dominant(q, shift, k) && c == bucket_mean(q, shift, k);
        assert(is_dominant(p, shift, k) && c == bucket_mean(p, shift, k));
    }
}

/// Dominant colour of a set of `(r, g, b)` pixels.
///
/// Each channel is quantised to `bits` levels (`bits` above 8 counts as 8),
/// the most frequent bucket is taken (the mode of the histogram, ties going to
/// the lowest bucket key), and the exact mean of the pixels that fell in that
/// bucket is returned. `None` when there are no pixels.
pub fn dominant_color(pixels: Vec<(u8, u8, u8)>, bits: u8) -> (res: Option<Rgb>)
    requires
        pixels@.len() <= MAX_PIXELS,
    ensures
        res is None <==> pixels@.len() == 0,
        res matches Some(c) ==> exists|k: u32|
            is_dominant(pixels@, quant_shift(bits), k) && c == bucket_mean(
                pixels@,
                quant_shift(bits),
                k,
            ),
{
    let shift: u32 = (8 - (if bits < 8 {
        bits
    } else {
        8u8
    })) as u32;
    assert(shift == quant_shift(bits));
    let mut index: HashMap<u32, usize> = HashMap::new();
    let mut keys: Vec<u32> = Vec::new();
    // Per bucket: (count, red sum, green sum, blue sum).
    let mut stats: Vec<(u64, u64, u64, u64)> = Vec::new();
    let n = pixels.len();
    let mut i: usize = 0;
    while i < n
        invariant
            n == pixels@.len() <= MAX_PIXELS,
            i <= n,
            shift == quant_shift(bits),
            shift <= 8,
            keys@.len() == stats@.len(),
            i > 0 ==> keys@.len() > 0,
            keys@.len() <= i,
            forall|j: int|
                0 <= j < keys@.len() ==> #[trigger] index@.contains_key(keys@[j]) && index@[keys@[j]]
                    == j,
            forall|k: u32|
                #[trigger] index@.contains_key(k) ==> index@[k] < keys@.len() && keys@[index@[k] as int]
                    == k,
            forall|k: u32|
                !#[trigger] index@.contains_key(k) ==> bucket_count(pixels@.take(i as int), shift, k)
                    == 0,
            forall|j: int|
                0 <= j < keys@.len() ==> {
                    let st = #[trigger] stats@[j];
                    let s = pixels@.take(i as int);
                    &&& st.0 == bucket_count(s, shift, keys@[j])
                    &&& st.1 == bucket_sum(s, shift, keys@[j], 0)
                    &&& st.2 == bucket_sum(s, shift, keys@[j], 1)
                    &&& st.3 == bucket_sum(s, shift, keys@[j], 2)
                    &&& st.0 > 0
                },
        decreases n - i,
    {
        let p = pixels[i];
        let (r, g, b) = p;
        let key: u32 = (((r as u32) >> shift) << 16u32) | (((g as u32) >> shift) << 8u32) | ((
        b as u32) >> shift);
        assert(key == bucket_key(pixels@[i as int], shift));
        let ghost prev = pixels@.take(i as int);
        let ghost next = pixels@.take(i + 1);
        assert(next.drop_last() =~= prev);
        assert(next.last() == pixels@[i as int]);
        assert forall|k: u32| #[trigger]
            bucket_count(next, shift, k) == bucket_count(prev, shift, k) + (if key == k {
                1nat
            } else {
                0nat
            }) by {}
        match index.get(&key) {
            Some(jr) => {
                let j = *jr;
                let st = stats[j];
                proof {
                    lemma_bucket_bounds(prev, shift, key, 0);
                    lemma_bucket_bounds(prev, shift, key, 1);
                    lemma_bucket_bounds(prev, shift, key, 2);
                    assert(st.0 <= i);
                }
                stats.set(j, (st.0 + 1, st.1 + r as u64, st.2 + g as u64, st.3 + b as u64));
            },
            None => {
                index.insert(key, keys.len());
                keys.push(key);
                stats.push((1, r as u64, g as u64, b as u64));
                assert(bucket_count(prev, shift, key) == 0);
                proof {
                    lemma_bucket_bounds(prev, shift, key, 0);
                    lemma_bucket_bounds(prev, shift, key, 1);
                    lemma_bucket_bounds(prev, shift, key, 2);
                }
            },
        }
        i = i + 1;
    }
    assert(pixels@.take(n as int) =~= pixels@);
    let m = keys.len();
    if m == 0 {
        return None;
    }
    let mut best: usize = 0;
    let mut j: usize = 1;
    while j < m
        invariant
            m == keys@.len() == stats@.len(),
            best < j <= m,
            forall|jj: int|
                0 <= jj < j ==> (#[trigger] stats@[jj]).0 < stats@[best as int].0 || (
                stats@[jj].0 == stats@[best as int].0 && keys@[best as int] <= keys@[jj]),
        decreases m - j,
    {
        if stats[j].0 > stats[best].0 || (stats[j].0 == stats[best].0 && keys[j] < keys[best]) {
            best = j;
        }
        j = j + 1;
    }
    let k = keys[best];
    let st = stats[best];
    proof {
        let s = pixels@;
        assert forall|k2: u32|
            #[trigger] bucket_count(s, shift, k2) < bucket_count(s, shift, k) || (bucket_count(
                s,
                shift,
                k2,
            ) == bucket_count(s, shift, k) && k <= k2) by {
            if index@.contains_key(k2) {
                let jj = index@[k2] as int;
                assert(stats@[jj].0 == bucket_count(s, shift, keys@[jj]));
            }
        }
        lemma_bucket_bounds(s, shift, k, 0);
        lemma_bucket_bounds(s, shift, k, 1);
        lemma_bucket_bounds(s, shift, k, 2);
        assert(st.1 / st.0 <= 255) by (nonlinear_arith)
            requires
                st.1 <= 255 * st.0,
                st.0 > 0,
        ;
        assert(st.2 / st.0 <= 255) by (nonlinear_arith)
            requires
                st.2 <= 255 * st.0,
                st.0 > 0,
        ;
        assert(st.3 / st.0 <= 255) by (nonlinear_arith)
            requires
                st.3 <= 255 * st.0,
                st.0 > 0,
        ;
    }
    let c = Rgb { r: (st.1 / st.0) as u8, g: (st.2 / st.0) as u8, b: (st.3 / st.0) as u8 };
    assert(is_dominant(pixels@, shift, k) && c == bucket_mean(pixels@, shift, k));
    Some(c)
}

} // verus!
