//! The k-means clustering engine.
//!
//! One run assigns every sample to its nearest centroid, recomputes each
//! centroid as the truncating integer average of its assigned samples,
//! and repeats until the total centroid movement falls below a threshold
//! or an iteration cap is reached. Centroids start as uniformly random
//! colors drawn from a seeded generator, so a run is reproducible from
//! its seed.
//!
//! Centroid movement is measured per centroid as the floor of the
//! Euclidean distance (the integer square root of the squared distance),
//! summed over all centroids.

use vstd::prelude::*;
use vstd::arithmetic::div_mod::lemma_div_is_ordered;
use vstd::arithmetic::div_mod::lemma_div_multiples_vanish;
use vstd::arithmetic::div_mod::lemma_div_pos_is_pos;
use crate::color::Color;
use crate::color::color_distance_rgb;
use crate::color::dist_sq;
use crate::random::seed_rng;
use crate::random::gen_channel;

verus! {

/// The outcome of one clustering run: the final centroids, and for each
/// sample the index of the centroid nearest to it.
pub struct ClusteringResult {
    pub centroids: Vec<Color>,
    pub indices: Vec<usize>,
}

/// `idx` is the index of the centroid nearest to `sample`, with ties
/// broken toward the lower index: no centroid is strictly nearer, and
/// every centroid before `idx` is strictly farther.
pub open spec fn is_closest_index(sample: Color, centroids: Seq<Color>, idx: int) -> bool {
    &&& 0 <= idx < centroids.len()
    &&& forall|j: int|
        0 <= j < centroids.len() ==> dist_sq(sample, centroids[idx]) <= dist_sq(
            sample,
            #[trigger] centroids[j],
        )
    &&& forall|j: int|
        0 <= j < idx ==> dist_sq(sample, #[trigger] centroids[j]) > dist_sq(
            sample,
            centroids[idx],
        )
}

/// How many assignments in `indices` point at centroid `c`.
pub open spec fn count_in(indices: Seq<usize>, c: int) -> int
    decreases indices.len(),
{
    if indices.len() == 0 {
        0
    } else {
        count_in(indices.drop_last(), c) + if indices.last() as int == c {
            1int
        } else {
            0int
        }
    }
}

/// One of the three channels of a color.
pub enum Channel {
    Red,
    Green,
    Blue,
}

/// Reads the chosen channel of a color.
pub open spec fn channel_of(color: Color, ch: Channel) -> int {
    match ch {
        Channel::Red => color.r as int,
        Channel::Green => color.g as int,
        Channel::Blue => color.b as int,
    }
}

/// Sum of the chosen channel over the samples assigned to centroid `c`.
pub open spec fn sum_channel(samples: Seq<Color>, indices: Seq<usize>, c: int, ch: Channel) -> int
    recommends
        samples.len() == indices.len(),
    decreases samples.len(),
{
    if samples.len() == 0 {
        0
    } else {
        sum_channel(samples.drop_last(), indices.drop_last(), c, ch) + if indices.len()
            == samples.len() && indices.last() as int == c {
            channel_of(samples.last(), ch)
        } else {
            0int
        }
    }
}

/// A channel sum lies between 0 and 255 times the matching count.
proof fn lemma_sum_channel_bounds(samples: Seq<Color>, indices: Seq<usize>, c: int, ch: Channel)
    requires
        samples.len() == indices.len(),
    ensures
        0 <= sum_channel(samples, indices, c, ch),
        sum_channel(samples, indices, c, ch) <= 255 * count_in(indices, c),
        0 <= count_in(indices, c) <= indices.len(),
    decreases samples.len(),
{
    if samples.len() > 0 {
        lemma_sum_channel_bounds(samples.drop_last(), indices.drop_last(), c, ch);
    }
}

/// Sum of the chosen channel over all samples.
pub open spec fn channel_total(samples: Seq<Color>, ch: Channel) -> int
    decreases samples.len(),
{
    if samples.len() == 0 {
        0
    } else {
        channel_total(samples.drop_last(), ch) + channel_of(samples.last(), ch)
    }
}

/// The truncating channel-wise average of a non-empty sample sequence.
pub open spec fn average_color(samples: Seq<Color>) -> Color {
    Color {
        r: (channel_total(samples, Channel::Red) / samples.len() as int) as u8,
        g: (channel_total(samples, Channel::Green) / samples.len() as int) as u8,
        b: (channel_total(samples, Channel::Blue) / samples.len() as int) as u8,
    }
}

/// When every assignment points at cluster 0, that cluster holds every
/// sample, and its channel sums are the totals over all samples.
proof fn lemma_single_cluster_sums(samples: Seq<Color>, indices: Seq<usize>, ch: Channel)
    requires
        samples.len() == indices.len(),
        forall|i: int| 0 <= i < indices.len() ==> #[trigger] indices[i] == 0,
    ensures
        count_in(indices, 0) == indices.len(),
        sum_channel(samples, indices, 0, ch) == channel_total(samples, ch),
    decreases samples.len(),
{
    if samples.len() > 0 {
        assert(forall|i: int|
            0 <= i < indices.drop_last().len() ==> #[trigger] indices.drop_last()[i] == 0);
        lemma_single_cluster_sums(samples.drop_last(), indices.drop_last(), ch);
        assert(indices.last() == indices[indices.len() - 1]);
    }
}

/// What one recompute pass does to centroid `c`: a centroid with no
/// assigned samples keeps its previous value; any other becomes the
/// truncating integer average of the samples assigned to it.
pub open spec fn updated_centroid(
    samples: Seq<Color>,
    indices: Seq<usize>,
    before: Seq<Color>,
    after: Seq<Color>,
    c: int,
) -> bool {
    if count_in(indices, c) == 0 {
        after[c] == before[c]
    } else {
        after[c] == (Color {
            r: (sum_channel(samples, indices, c, Channel::Red) / count_in(indices, c)) as u8,
            g: (sum_channel(samples, indices, c, Channel::Green) / count_in(indices, c)) as u8,
            b: (sum_channel(samples, indices, c, Channel::Blue) / count_in(indices, c)) as u8,
        })
    }
}

/// Maps every sample to the index of its nearest centroid, ties broken
/// toward the lower index.
pub fn assign_clusters(samples: &Vec<Color>, centroids: &Vec<Color>) -> (indices: Vec<usize>)
    requires
        centroids@.len() >= 1,
    ensures
        indices@.len() == samples@.len(),
        forall|i: int|
            0 <= i < samples@.len() ==> is_closest_index(
                samples@[i],
                centroids@,
                #[trigger] indices@[i] as int,
            ),
{
    let mut indices: Vec<usize> = Vec::new();
    let n: usize = samples.len();
    let k: usize = centroids.len();
    let mut i: usize = 0;
    while i < n
        invariant
            n == samples@.len(),
            k == centroids@.len(),
            k >= 1,
            i <= n,
            indices@.len() == i,
            forall|p: int|
                0 <= p < i ==> is_closest_index(
                    samples@[p],
                    centroids@,
                    #[trigger] indices@[p] as int,
                ),
        decreases n - i,
    {
        let s: Color = samples[i];
        let mut best: usize = 0;
        let mut best_d: u32 = color_distance_rgb(&s, &centroids[0]);
        let mut j: usize = 1;
        while j < k
            invariant
                k == centroids@.len(),
                1 <= j <= k,
                best < j,
                best_d == dist_sq(s, centroids@[best as int]),
                forall|q: int| 0 <= q < j ==> best_d <= dist_sq(s, #[trigger] centroids@[q]),
                forall|q: int| 0 <= q < best ==> dist_sq(s, #[trigger] centroids@[q]) > best_d,
            decreases k - j,
        {
            let d: u32 = color_distance_rgb(&s, &centroids[j]);
            if d < best_d {
                best = j;
                best_d = d;
            }
            j += 1;
        }
        indices.push(best);
        i += 1;
    }
    indices
}

/// Recomputes every centroid as the truncating average of its assigned
/// samples, leaving centroids with no assigned samples unchanged.
pub fn recalculate_centroids(samples: &Vec<Color>, indices: &Vec<usize>, centroids: &mut Vec<Color>)
    requires
        indices@.len() == samples@.len(),
    ensures
        final(centroids)@.len() == old(centroids)@.len(),
        forall|c: int|
            0 <= c < old(centroids)@.len() ==> updated_centroid(
                samples@,
                indices@,
                old(centroids)@,
                final(centroids)@,
                c,
            ),
{
    let k: usize = centroids.len();
    let n: usize = samples.len();
    let mut c: usize = 0;
    while c < k
        invariant
            k == old(centroids)@.len(),
            n == samples@.len(),
            indices@.len() == samples@.len(),
            c <= k,
            centroids@.len() == k,
            forall|cc: int|
                0 <= cc < c ==> updated_centroid(
                    samples@,
                    indices@,
                    old(centroids)@,
                    centroids@,
                    cc,
                ),
            forall|cc: int| c <= cc < k ==> centroids@[cc] == old(centroids)@[cc],
        decreases k - c,
    {
        let mut sum_r: u128 = 0;
        let mut sum_g: u128 = 0;
        let mut sum_b: u128 = 0;
        let mut count: u128 = 0;
        let mut i: usize = 0;
        while i < n
            invariant
                n == samples@.len(),
                indices@.len() == samples@.len(),
                i <= n,
                count == count_in(indices@.take(i as int), c as int),
                sum_r == sum_channel(
                    samples@.take(i as int),
                    indices@.take(i as int),
                    c as int,
                    Channel::Red,
                ),
                sum_g == sum_channel(
                    samples@.take(i as int),
                    indices@.take(i as int),
                    c as int,
                    Channel::Green,
                ),
                sum_b == sum_channel(
                    samples@.take(i as int),
                    indices@.take(i as int),
                    c as int,
                    Channel::Blue,
                ),
                count <= i,
                sum_r <= 255 * count,
                sum_g <= 255 * count,
                sum_b <= 255 * count,
            decreases n - i,
        {
            proof {
                assert(indices@.take(i + 1).drop_last() =~= indices@.take(i as int));
                assert(samples@.take(i + 1).drop_last() =~= samples@.take(i as int));
                assert(indices@.take(i + 1).last() == indices@[i as int]);
                assert(samples@.take(i + 1).last() == samples@[i as int]);
            }
            if indices[i] == c {
                sum_r = sum_r + samples[i].r as u128;
                sum_g = sum_g + samples[i].g as u128;
                sum_b = sum_b + samples[i].b as u128;
                count = count + 1;
            }
            i += 1;
        }
        proof {
            assert(indices@.take(n as int) =~= indices@);
            assert(samples@.take(n as int) =~= samples@);
        }
        if count > 0 {
            proof {
                lemma_channel_average_fits(samples@, indices@, c as int);
            }
            let avg = Color {
                r: (sum_r / count) as u8,
                g: (sum_g / count) as u8,
                b: (sum_b / count) as u8,
            };
            let ghost prev = centroids@;
            centroids.set(c, avg);
            proof {
                assert forall|cc: int|
                    0 <= cc < c + 1 implies updated_centroid(
                    samples@,
                    indices@,
                    old(centroids)@,
                    centroids@,
                    cc,
                ) by {
                    if cc < c {
                        assert(updated_centroid(samples@, indices@, old(centroids)@, prev, cc));
                        assert(centroids@[cc] == prev[cc]);
                    }
                }
            }
        }
        c += 1;
    }
}

/// The truncating average of each channel over a non-empty cluster fits
/// in one byte.
proof fn lemma_channel_average_fits(samples: Seq<Color>, indices: Seq<usize>, c: int)
    requires
        samples.len() == indices.len(),
        count_in(indices, c) > 0,
    ensures
        0 <= sum_channel(samples, indices, c, Channel::Red) / count_in(indices, c) <= 255,
        0 <= sum_channel(samples, indices, c, Channel::Green) / count_in(indices, c) <= 255,
        0 <= sum_channel(samples, indices, c, Channel::Blue) / count_in(indices, c) <= 255,
{
    lemma_channel_average_fits_one(samples, indices, c, Channel::Red);
    lemma_channel_average_fits_one(samples, indices, c, Channel::Green);
    lemma_channel_average_fits_one(samples, indices, c, Channel::Blue);
}

/// The integer square root: the largest `r` with `r * r <= n` (and 0
/// for negative arguments).
pub open spec fn floor_sqrt(n: int) -> int
    decreases n,
{
    if n <= 0 {
        0
    } else if (floor_sqrt(n - 1) + 1) * (floor_sqrt(n - 1) + 1) <= n {
        floor_sqrt(n - 1) + 1
    } else {
        floor_sqrt(n - 1)
    }
}

/// `floor_sqrt(n)` is the unique non-negative root bracket of `n`.
pub proof fn lemma_floor_sqrt_props(n: int)
    requires
        n >= 0,
    ensures
        floor_sqrt(n) >= 0,
        floor_sqrt(n) * floor_sqrt(n) <= n,
        n < (floor_sqrt(n) + 1) * (floor_sqrt(n) + 1),
    decreases n,
{
    if n > 0 {
        lemma_floor_sqrt_props(n - 1);
        let p = floor_sqrt(n - 1);
        if (p + 1) * (p + 1) <= n {
            assert(n - 1 < (p + 1) * (p + 1));
            assert(n == (p + 1) * (p + 1));
            assert(n < (p + 2) * (p + 2)) by (nonlinear_arith)
                requires
                    p >= 0,
                    n == (p + 1) * (p + 1),
            ;
        }
    }
}

/// Any non-negative `r` with `r * r <= n < (r + 1) * (r + 1)` is the
/// integer square root of `n`.
pub proof fn lemma_floor_sqrt_unique(n: int, r: int)
    requires
        n >= 0,
        r >= 0,
        r * r <= n,
        n < (r + 1) * (r + 1),
    ensures
        r == floor_sqrt(n),
{
    let f = floor_sqrt(n);
    lemma_floor_sqrt_props(n);
    if r < f {
        assert((r + 1) * (r + 1) <= f * f) by (nonlinear_arith)
            requires
                0 <= r,
                r + 1 <= f,
        ;
    }
    if f < r {
        assert((f + 1) * (f + 1) <= r * r) by (nonlinear_arith)
            requires
                0 <= f,
                f + 1 <= r,
        ;
    }
}

/// Integer square root of a squared color distance.
fn isqrt(d: u32) -> (r: u32)
    requires
        d <= 3 * 255 * 255,
    ensures
        r as int == floor_sqrt(d as int),
        r <= 441,
{
    let mut r: u32 = 0;
    loop
        invariant
            d <= 3 * 255 * 255,
            r * r <= d,
            r <= 441,
            r <= d,
        ensures
            r * r <= d,
            d < (r + 1) * (r + 1),
            r <= 441,
        decreases d - r,
    {
        proof {
            assert((r + 1) * (r + 1) <= 442 * 442) by (nonlinear_arith)
                requires
                    r <= 441,
            ;
        }
        let next: u32 = (r + 1) * (r + 1);
        if next > d {
            break ;
        }
        r = r + 1;
        proof {
            assert(r <= 441) by (nonlinear_arith)
                requires
                    r * r <= 3 * 255 * 255,
            ;
            assert(r <= d) by (nonlinear_arith)
                requires
                    r * r <= d,
                    r >= 1,
            ;
        }
    }
    proof {
        lemma_floor_sqrt_unique(d as int, r as int);
    }
    r
}

/// Total centroid movement between two centroid sequences of equal
/// length: the sum, over all positions, of the floor of the Euclidean
/// distance between the old and the new centroid.
pub open spec fn total_delta(current: Seq<Color>, previous: Seq<Color>) -> int
    recommends
        current.len() == previous.len(),
    decreases current.len(),
{
    if current.len() == 0 {
        0
    } else {
        total_delta(current.drop_last(), previous.drop_last()) + floor_sqrt(
            dist_sq(current.last(), previous.last()),
        )
    }
}

/// Measures how far the centroids moved in one recompute pass.
pub fn check_loop(centroids: &Vec<Color>, old_centroids: &Vec<Color>) -> (delta: u128)
    requires
        centroids@.len() == old_centroids@.len(),
    ensures
        delta as int == total_delta(centroids@, old_centroids@),
{
    let k: usize = centroids.len();
    let mut delta: u128 = 0;
    let mut i: usize = 0;
    while i < k
        invariant
            k == centroids@.len(),
            centroids@.len() == old_centroids@.len(),
            i <= k,
            delta as int == total_delta(centroids@.take(i as int), old_centroids@.take(i as int)),
            delta <= 441 * (i as int),
        decreases k - i,
    {
        proof {
            assert(centroids@.take(i + 1).drop_last() =~= centroids@.take(i as int));
            assert(old_centroids@.take(i + 1).drop_last() =~= old_centroids@.take(i as int));
        }
        let d: u32 = color_distance_rgb(&centroids[i], &old_centroids[i]);
        let step: u32 = isqrt(d);
        delta = delta + step as u128;
        i += 1;
    }
    proof {
        assert(centroids@.take(k as int) =~= centroids@);
        assert(old_centroids@.take(k as int) =~= old_centroids@);
    }
    delta
}

/// Draws a uniformly random color: each channel drawn independently
/// from the full byte range.
pub(crate) fn create_random(rng: &mut rand::rngs::StdRng) -> Color {
    let r = gen_channel(rng);
    let g = gen_channel(rng);
    let b = gen_channel(rng);
    Color { r, g, b }
}

/// Copies a centroid sequence, so one iteration can be compared with
/// the previous one.
fn snapshot(colors: &Vec<Color>) -> (copy: Vec<Color>)
    ensures
        copy@ == colors@,
{
    let mut copy: Vec<Color> = Vec::new();
    let n: usize = colors.len();
    let mut i: usize = 0;
    while i < n
        invariant
            n == colors@.len(),
            i <= n,
            copy@ == colors@.take(i as int),
        decreases n - i,
    {
        copy.push(colors[i]);
        proof {
            assert(colors@.take(i as int).push(colors@[i as int]) =~= colors@.take(i + 1));
        }
        i += 1;
    }
    proof {
        assert(colors@.take(n as int) =~= colors@);
    }
    copy
}

/// Runs one full k-means clustering pass.
///
/// Centroids start as `k` uniformly random colors drawn from a
/// generator seeded with `seed`. Each iteration assigns every sample to
/// its nearest centroid, recomputes the centroids as truncating channel
/// averages, and stops once the total centroid movement falls below
/// `convergence_threshold` or `max_iterations` passes have run. The
/// returned assignment is recomputed against the final centroids, so it
/// is always consistent with them.
pub fn cluster(
    samples: &Vec<Color>,
    k: usize,
    max_iterations: usize,
    convergence_threshold: u64,
    seed: u64,
) -> (res: ClusteringResult)
    requires
        samples@.len() >= 1,
        k >= 1,
    ensures
        res.centroids@.len() == k,
        res.indices@.len() == samples@.len(),
        forall|i: int|
            0 <= i < samples@.len() ==> is_closest_index(
                samples@[i],
                res.centroids@,
                #[trigger] res.indices@[i] as int,
            ),
        forall|i: int| 0 <= i < samples@.len() ==> #[trigger] res.indices@[i] < k,
        k == 1 && max_iterations >= 1 ==> res.centroids@[0] == average_color(samples@),
{
    let mut rng = seed_rng(seed);
    let mut centroids: Vec<Color> = Vec::new();
    let mut i: usize = 0;
    while i < k
        invariant
            i <= k,
            centroids@.len() == i,
        decreases k - i,
    {
        let c = create_random(&mut rng);
        centroids.push(c);
        i += 1;
    }
    let mut iterations: usize = 0;
    while iterations < max_iterations
        invariant
            k >= 1,
            samples@.len() >= 1,
            centroids@.len() == k,
            iterations <= max_iterations,
            k == 1 && iterations >= 1 ==> centroids@[0] == average_color(samples@),
        ensures
            k >= 1,
            samples@.len() >= 1,
            centroids@.len() == k,
            max_iterations >= 1 ==> iterations >= 1,
            k == 1 && iterations >= 1 ==> centroids@[0] == average_color(samples@),
        decreases max_iterations - iterations,
    {
        let indices = assign_clusters(samples, &centroids);
        let previous = snapshot(&centroids);
        recalculate_centroids(samples, &indices, &mut centroids);
        proof {
            if k == 1 {
                assert forall|i: int| 0 <= i < indices@.len() implies #[trigger] indices@[i]
                    == 0 by {
                    assert(is_closest_index(samples@[i], previous@, indices@[i] as int));
                }
                lemma_single_cluster_sums(samples@, indices@, Channel::Red);
                lemma_single_cluster_sums(samples@, indices@, Channel::Green);
                lemma_single_cluster_sums(samples@, indices@, Channel::Blue);
                assert(updated_centroid(samples@, indices@, previous@, centroids@, 0));
            }
        }
        let delta = check_loop(&centroids, &previous);
        iterations += 1;
        if delta < convergence_threshold as u128 {
            break ;
        }
    }
    let indices = assign_clusters(samples, &centroids);
    ClusteringResult { centroids, indices }
}

/// One channel of `lemma_channel_average_fits`.
proof fn lemma_channel_average_fits_one(
    samples: Seq<Color>,
    indices: Seq<usize>,
    c: int,
    ch: Channel,
)
    requires
        samples.len() == indices.len(),
        count_in(indices, c) > 0,
    ensures
        0 <= sum_channel(samples, indices, c, ch) / count_in(indices, c) <= 255,
{
    let cnt = count_in(indices, c);
    let sum = sum_channel(samples, indices, c, ch);
    lemma_sum_channel_bounds(samples, indices, c, ch);
    lemma_div_pos_is_pos(sum, cnt);
    lemma_div_is_ordered(sum, 255 * cnt, cnt);
    lemma_div_multiples_vanish(255, cnt);
}

} // verus!
