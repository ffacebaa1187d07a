//! Edge-coverage accounting: AFL-style bucketing of raw hit counts,
//! snapshot rotation with per-edge deltas, the 64-bit SimHash transition
//! fingerprint over the rotated map, and the max-bucket accumulator the
//! runner keeps across a whole run.

use vstd::prelude::*;

verus! {

/// The number of edge counters in the shared coverage map.
pub const EDGE_MAP_SIZE: usize = 65536;

/// The AFL-style bucket of a raw hit count: nearly equal counts fall
/// into the same bucket, a jump across a boundary counts as new
/// coverage.
pub open spec fn spec_bucket(hits: u8) -> u8 {
    if hits <= 3 {
        hits
    } else if hits <= 7 {
        4
    } else if hits <= 15 {
        8
    } else if hits <= 31 {
        16
    } else if hits <= 127 {
        32
    } else {
        128
    }
}

/// The values a bucketed counter can take.
pub open spec fn is_bucket_value(b: u8) -> bool {
    b == 0 || b == 1 || b == 2 || b == 3 || b == 4 || b == 8 || b == 16 || b == 32 || b == 128
}

/// Buckets one raw hit count.
pub fn bucket(hits: u8) -> (r: u8)
    ensures
        r == spec_bucket(hits),
        is_bucket_value(r),
        r == 0 <==> hits == 0,
{
    if hits <= 3 {
        hits
    } else if hits <= 7 {
        4
    } else if hits <= 15 {
        8
    } else if hits <= 31 {
        16
    } else if hits <= 127 {
        32
    } else {
        128
    }
}

/// The coverage delta between a bucketed current map and the previous
/// map: one `(edge, bucket)` pair for every edge whose bucket changed,
/// in edge order, considering the first `n` edges.
pub open spec fn spec_delta(cur: Seq<u8>, prev: Seq<u8>, n: int) -> Seq<(u32, u8)>
    decreases n,
{
    if n <= 0 {
        Seq::empty()
    } else {
        spec_delta(cur, prev, n - 1) + if spec_bucket(cur[n - 1]) != prev[n - 1] {
            seq![(((n - 1) as u32), spec_bucket(cur[n - 1]))]
        } else {
            Seq::empty()
        }
    }
}

/// Takes one coverage snapshot: buckets the current counters, collects
/// the edges whose bucket changed since the previous snapshot, and
/// rotates — the bucketed counters become the previous map and a fresh
/// zeroed map replaces the current one.
pub fn rotate_and_diff(current: &mut Vec<u8>, previous: &mut Vec<u8>) -> (delta: Vec<(u32, u8)>)
    requires
        old(current)@.len() == EDGE_MAP_SIZE,
        old(previous)@.len() == EDGE_MAP_SIZE,
    ensures
        final(previous)@.len() == EDGE_MAP_SIZE,
        final(current)@.len() == EDGE_MAP_SIZE,
        forall|i: int|
            0 <= i < EDGE_MAP_SIZE ==> final(previous)@[i] == spec_bucket(old(current)@[i]),
        forall|i: int| 0 <= i < EDGE_MAP_SIZE ==> is_bucket_value(#[trigger] final(previous)@[i]),
        forall|i: int| 0 <= i < EDGE_MAP_SIZE ==> final(current)@[i] == 0u8,
        delta@ == spec_delta(old(current)@, old(previous)@, EDGE_MAP_SIZE as int),
{
    let mut bucketed: Vec<u8> = Vec::new();
    let mut delta: Vec<(u32, u8)> = Vec::new();
    let mut zeroed: Vec<u8> = Vec::new();
    let mut i: usize = 0;
    while i < EDGE_MAP_SIZE
        invariant
            current@.len() == EDGE_MAP_SIZE,
            previous@.len() == EDGE_MAP_SIZE,
            current@ == old(current)@,
            previous@ == old(previous)@,
            0 <= i <= EDGE_MAP_SIZE,
            bucketed@.len() == i,
            zeroed@.len() == i,
            forall|j: int| 0 <= j < i ==> bucketed@[j] == spec_bucket(old(current)@[j]),
            forall|j: int| 0 <= j < i ==> is_bucket_value(#[trigger] bucketed@[j]),
            forall|j: int| 0 <= j < i ==> zeroed@[j] == 0u8,
            delta@ == spec_delta(old(current)@, old(previous)@, i as int),
        decreases EDGE_MAP_SIZE - i,
    {
        let b = bucket(current[i]);
        bucketed.push(b);
        zeroed.push(0);
        if b != previous[i] {
            delta.push((i as u32, b));
        }
        i = i + 1;
    }
    *previous = bucketed;
    *current = zeroed;
    delta
}

/// The SimHash weight of a non-zero bucket: its binary logarithm,
/// clamped to the range from one to three.
pub open spec fn weight_of(b: u8) -> int {
    if b < 4 {
        1
    } else if b < 8 {
        2
    } else {
        3
    }
}

/// The splitmix64 finaliser, used as the per-edge hash.
pub open spec fn spec_mix64(x: u64) -> u64 {
    let h1 = vstd::wrapping::u64_specs::wrapping_add(x, 0x9e3779b97f4a7c15u64);
    let h2 = vstd::wrapping::u64_specs::wrapping_mul(h1 ^ (h1 >> 30), 0xbf58476d1ce4e5b9u64);
    let h3 = vstd::wrapping::u64_specs::wrapping_mul(h2 ^ (h2 >> 27), 0x94d049bb133111ebu64);
    h3 ^ (h3 >> 31)
}

/// The splitmix64 finaliser.
pub fn mix64(x: u64) -> (r: u64)
    ensures
        r == spec_mix64(x),
{
    let h1 = x.wrapping_add(0x9e3779b97f4a7c15);
    let h2 = (h1 ^ (h1 >> 30)).wrapping_mul(0xbf58476d1ce4e5b9);
    let h3 = (h2 ^ (h2 >> 27)).wrapping_mul(0x94d049bb133111eb);
    h3 ^ (h3 >> 31)
}

/// The signed accumulator of one hash bit over the first `n` edges:
/// every non-zero edge contributes its weight with the sign of bit `b`
/// of the edge index's hash.
pub open spec fn bit_weight(prev: Seq<u8>, b: int, n: int) -> int
    decreases n,
{
    if n <= 0 {
        0
    } else {
        bit_weight(prev, b, n - 1) + if prev[n - 1] == 0u8 {
            0int
        } else if (spec_mix64((n - 1) as u64) >> (b as u64)) & 1u64 == 1u64 {
            weight_of(prev[n - 1])
        } else {
            -weight_of(prev[n - 1])
        }
    }
}

/// Is the whole map zero?
pub open spec fn all_zero(prev: Seq<u8>) -> bool {
    forall|i: int| 0 <= i < prev.len() ==> prev[i] == 0u8
}

/// The SimHash transition fingerprint of the previous edge map: null on
/// an all-zero map; otherwise bit `b` of the hash is set exactly when
/// the weighted sum of bit `b` over the non-zero edges is positive.
pub fn transition_hash(previous: &Vec<u8>) -> (r: Option<u64>)
    requires
        previous@.len() == EDGE_MAP_SIZE,
    ensures
        r is None <==> all_zero(previous@),
        r matches Some(h) ==> forall|b: int|
            0 <= b < 64 ==> (((h >> (b as u64)) & 1u64 == 1u64) <==> bit_weight(
                previous@,
                b,
                EDGE_MAP_SIZE as int,
            ) > 0),
{
    let mut acc: Vec<i64> = Vec::new();
    let mut b: usize = 0;
    while b < 64
        invariant
            0 <= b <= 64,
            acc@.len() == b,
            forall|j: int| 0 <= j < b ==> acc@[j] == 0i64,
        decreases 64 - b,
    {
        acc.push(0);
        b = b + 1;
    }
    let mut any = false;
    let mut i: usize = 0;
    while i < EDGE_MAP_SIZE
        invariant
            previous@.len() == EDGE_MAP_SIZE,
            0 <= i <= EDGE_MAP_SIZE,
            acc@.len() == 64,
            any <==> !all_zero(previous@.take(i as int)),
            forall|j: int| 0 <= j < 64 ==> #[trigger] acc@[j] == bit_weight(previous@, j, i as int),
            forall|j: int| 0 <= j < 64 ==> -3 * (i as int) <= #[trigger] acc@[j] <= 3 * (i as int),
        decreases EDGE_MAP_SIZE - i,
    {
        let ghost prev_take = previous@.take(i as int);
        let v = previous[i];
        if v != 0 {
            any = true;
            let h = mix64(i as u64);
            let w: i64 = if v < 4 {
                1
            } else if v < 8 {
                2
            } else {
                3
            };
            let mut bb: usize = 0;
            while bb < 64
                invariant
                    previous@.len() == EDGE_MAP_SIZE,
                    0 <= i < EDGE_MAP_SIZE,
                    0 <= bb <= 64,
                    acc@.len() == 64,
                    previous@[i as int] != 0u8,
                    h == spec_mix64(i as u64),
                    w as int == weight_of(previous@[i as int]),
                    1 <= w <= 3,
                    forall|j: int|
                        bb <= j < 64 ==> #[trigger] acc@[j] == bit_weight(previous@, j, i as int),
                    forall|j: int| 0 <= j < bb ==> #[trigger] acc@[j] == bit_weight(previous@, j, i + 1),
                    forall|j: int|
                        bb <= j < 64 ==> -3 * (i as int) <= #[trigger] acc@[j] <= 3 * (i as int),
                    forall|j: int| 0 <= j < bb ==> -3 * (i + 1) <= #[trigger] acc@[j] <= 3 * (i + 1),
                decreases 64 - bb,
            {
                let bit = (h >> (bb as u64)) & 1;
                if bit == 1 {
                    acc[bb] = acc[bb] + w;
                } else {
                    acc[bb] = acc[bb] - w;
                }
                bb = bb + 1;
            }
        }
        proof {
            assert(previous@.take(i + 1) =~= prev_take.push(previous@[i as int]));
            assert forall|k: int| 0 <= k < i + 1 implies previous@.take(i + 1)[k] == previous@[k]
            by {}
            if v == 0 {
                assert(all_zero(previous@.take(i + 1)) <==> all_zero(prev_take));
            } else {
                assert(!all_zero(previous@.take(i + 1)));
            }
        }
        i = i + 1;
    }
    proof {
        assert(previous@.take(EDGE_MAP_SIZE as int) =~= previous@);
    }
    if !any {
        return None;
    }
    let mut h: u64 = 0;
    proof {
        assert forall|j: u64| j < 64 implies (0u64 >> j) & 1u64 == 0u64 by {
            assert((0u64 >> j) & 1u64 == 0u64) by (bit_vector);
        }
    }
    let mut b2: usize = 0;
    while b2 < 64
        invariant
            0 <= b2 <= 64,
            acc@.len() == 64,
            previous@.len() == EDGE_MAP_SIZE,
            forall|j: int| 0 <= j < 64 ==> acc@[j] == bit_weight(previous@, j, EDGE_MAP_SIZE as int),
            forall|j: int|
                0 <= j < b2 ==> ((#[trigger] ((h >> (j as u64)) & 1u64) == 1u64) <==> bit_weight(
                    previous@,
                    j,
                    EDGE_MAP_SIZE as int,
                ) > 0),
            forall|j: int| b2 <= j < 64 ==> #[trigger] ((h >> (j as u64)) & 1u64) == 0u64,
        decreases 64 - b2,
    {
        let ghost h0 = h;
        if acc[b2] > 0 {
            h = h | (1u64 << (b2 as u64));
            proof {
                lemma_or_bit(h0, b2 as u64);
                assert forall|j: int| 0 <= j < b2 + 1 implies ((#[trigger] ((h >> (j as u64))
                    & 1u64) == 1u64) <==> bit_weight(previous@, j, EDGE_MAP_SIZE as int) > 0) by {
                    if j < b2 {
                        assert((h >> (j as u64)) & 1u64 == (h0 >> (j as u64)) & 1u64);
                    } else {
                        assert((h >> (j as u64)) & 1u64 == 1u64);
                        assert(acc@[j] == bit_weight(previous@, j, EDGE_MAP_SIZE as int));
                    }
                }
                assert forall|j: int| b2 + 1 <= j < 64 implies #[trigger] ((h >> (j as u64))
                    & 1u64) == 0u64 by {
                    assert((h >> (j as u64)) & 1u64 == (h0 >> (j as u64)) & 1u64);
                }
            }
        } else {
            proof {
                assert forall|j: int| 0 <= j < b2 + 1 implies ((#[trigger] ((h >> (j as u64))
                    & 1u64) == 1u64) <==> bit_weight(previous@, j, EDGE_MAP_SIZE as int) > 0) by {
                    if j == b2 {
                        assert((h >> (j as u64)) & 1u64 == 0u64);
                        assert(acc@[j] == bit_weight(previous@, j, EDGE_MAP_SIZE as int));
                    }
                }
            }
        }
        b2 = b2 + 1;
    }
    Some(h)
}

/// Setting one clear bit of a word by `or` changes that bit alone.
proof fn lemma_or_bit(x: u64, k: u64)
    requires
        k < 64,
    ensures
        forall|b: u64|
            b < 64 && b != k ==> ((x | (1u64 << k)) >> b) & 1u64 == (x >> b) & 1u64,
        ((x | (1u64 << k)) >> k) & 1u64 == 1u64,
{
    assert forall|b: u64| b < 64 && b != k implies ((x | (1u64 << k)) >> b) & 1u64 == (x >> b)
        & 1u64 by {
        assert(((x | (1u64 << k)) >> b) & 1u64 == (x >> b) & 1u64) by (bit_vector)
            requires
                b < 64,
                k < 64,
                b != k,
        ;
    }
    assert(((x | (1u64 << k)) >> k) & 1u64 == 1u64) by (bit_vector)
        requires
            k < 64,
    ;
}

/// Folds a coverage delta into the run-wide max-bucket edge map: each
/// touched edge keeps the larger of its stored and its new bucket.
pub fn accumulate_coverage(edges: &mut Vec<u8>, delta: &Vec<(u32, u8)>)
    requires
        old(edges)@.len() == EDGE_MAP_SIZE,
        forall|k: int|
            0 <= k < delta@.len() ==> (#[trigger] delta@[k]).0 < EDGE_MAP_SIZE as u32,
    ensures
        final(edges)@.len() == EDGE_MAP_SIZE,
        forall|i: int|
            0 <= i < EDGE_MAP_SIZE ==> final(edges)@[i] == spec_max_bucket(
                old(edges)@[i],
                delta@,
                i,
            ),
{
    let n = delta.len();
    let mut k: usize = 0;
    while k < n
        invariant
            n == delta@.len(),
            0 <= k <= n,
            edges@.len() == EDGE_MAP_SIZE,
            forall|j: int|
                0 <= j < delta@.len() ==> (#[trigger] delta@[j]).0 < EDGE_MAP_SIZE as u32,
            forall|i: int|
                0 <= i < EDGE_MAP_SIZE ==> edges@[i] == spec_max_bucket_upto(
                    old(edges)@[i],
                    delta@,
                    i,
                    k as int,
                ),
        decreases n - k,
    {
        let (index, b) = delta[k];
        let idx = index as usize;
        if b > edges[idx] {
            let ghost before = edges@;
            edges[idx] = b;
            proof {
                assert forall|i: int| 0 <= i < EDGE_MAP_SIZE implies edges@[i]
                    == spec_max_bucket_upto(old(edges)@[i], delta@, i, k + 1) by {
                    if i != idx {
                        assert(edges@[i] == before[i]);
                    }
                }
            }
        } else {
            proof {
                assert forall|i: int| 0 <= i < EDGE_MAP_SIZE implies edges@[i]
                    == spec_max_bucket_upto(old(edges)@[i], delta@, i, k + 1) by {}
            }
        }
        k = k + 1;
    }
}

/// The stored bucket of edge `i` after folding the first `k` delta
/// entries into base value `base`.
pub open spec fn spec_max_bucket_upto(base: u8, delta: Seq<(u32, u8)>, i: int, k: int) -> u8
    decreases k,
{
    if k <= 0 {
        base
    } else {
        let prior = spec_max_bucket_upto(base, delta, i, k - 1);
        if delta[k - 1].0 == i as u32 && delta[k - 1].1 > prior {
            delta[k - 1].1
        } else {
            prior
        }
    }
}

/// The stored bucket of edge `i` after folding a whole delta.
pub open spec fn spec_max_bucket(base: u8, delta: Seq<(u32, u8)>, i: int) -> u8 {
    spec_max_bucket_upto(base, delta, i, delta.len() as int)
}

} // verus!
