//! Deriving palette statistics from a clustering outcome.
//!
//! Each centroid becomes one palette entry; its share of the pixel
//! population is reported in hundredths of a percent, so a share is an
//! exact integer in `[0, 10000]`. An entry whose centroid received no
//! samples keeps a share of exactly 0 and is not omitted.

use vstd::prelude::*;
use vstd::arithmetic::div_mod::lemma_div_is_ordered;
use vstd::arithmetic::div_mod::lemma_div_multiples_vanish;
use vstd::arithmetic::div_mod::lemma_div_pos_is_pos;
use vstd::arithmetic::div_mod::lemma_fundamental_div_mod;
use vstd::arithmetic::div_mod::lemma_mod_bound;
use crate::color::Color;
use crate::cluster::ClusteringResult;
use crate::cluster::count_in;

verus! {

/// The extracted palette: one color per centroid, each with its share
/// of the sample population in hundredths of a percent.
#[derive(Debug)]
pub struct PaletteResult {
    pub colors: Vec<Color>,
    pub percentages: Vec<u32>,
}

/// The population share of a cluster, in hundredths of a percent,
/// truncating: `count * 10000 / total`.
pub open spec fn pct_of(count: int, total: int) -> int {
    count * 10000 / total
}

/// Sum of the shares of clusters `0 .. k`.
pub open spec fn sum_pct(indices: Seq<usize>, k: int, total: int) -> int
    decreases k,
{
    if k <= 0 {
        0
    } else {
        sum_pct(indices, k - 1, total) + pct_of(count_in(indices, k - 1), total)
    }
}

/// Sum of the assignment counts of clusters `0 .. k`.
pub open spec fn sum_counts(indices: Seq<usize>, k: int) -> int
    decreases k,
{
    if k <= 0 {
        0
    } else {
        sum_counts(indices, k - 1) + count_in(indices, k - 1)
    }
}

/// Sum of a sequence of percentage entries.
pub open spec fn sum_u32(s: Seq<u32>) -> int
    decreases s.len(),
{
    if s.len() == 0 {
        0
    } else {
        sum_u32(s.drop_last()) + s.last()
    }
}

/// An assignment count is between 0 and the number of assignments.
pub proof fn lemma_count_in_bounds(indices: Seq<usize>, c: int)
    ensures
        0 <= count_in(indices, c) <= indices.len(),
    decreases indices.len(),
{
    if indices.len() > 0 {
        lemma_count_in_bounds(indices.drop_last(), c);
    }
}

/// Dropping the last assignment lowers by one the summed counts of the
/// clusters below `k` exactly when that assignment pointed below `k`.
proof fn lemma_sum_counts_drop_last(indices: Seq<usize>, k: int)
    requires
        indices.len() > 0,
    ensures
        sum_counts(indices, k) == sum_counts(indices.drop_last(), k) + if indices.last() < k {
            1int
        } else {
            0int
        },
    decreases k,
{
    if k > 0 {
        lemma_sum_counts_drop_last(indices, k - 1);
    }
}

/// With no assignments at all, every cluster count is zero.
proof fn lemma_sum_counts_empty(indices: Seq<usize>, k: int)
    requires
        indices.len() == 0,
    ensures
        sum_counts(indices, k) == 0,
    decreases k,
{
    if k > 0 {
        lemma_sum_counts_empty(indices, k - 1);
    }
}

/// Law: when every assignment points below `k`, the cluster counts
/// partition the assignments, so the counts of clusters `0 .. k` sum to
/// the number of assignments.
pub proof fn lemma_counts_partition(indices: Seq<usize>, k: int)
    requires
        forall|i: int| 0 <= i < indices.len() ==> #[trigger] indices[i] < k,
    ensures
        sum_counts(indices, k) == indices.len(),
    decreases indices.len(),
{
    if indices.len() == 0 {
        lemma_sum_counts_empty(indices, k);
    } else {
        assert(forall|i: int|
            0 <= i < indices.drop_last().len() ==> #[trigger] indices.drop_last()[i] < k);
        lemma_counts_partition(indices.drop_last(), k);
        lemma_sum_counts_drop_last(indices, k);
        assert(indices.last() == indices[indices.len() - 1]);
    }
}

/// The summed shares of clusters `0 .. k` are bracketed by their summed
/// counts: truncation loses less than one hundredth of a percent per
/// cluster.
proof fn lemma_sum_pct_brackets(indices: Seq<usize>, k: int, total: int)
    requires
        total > 0,
        k >= 0,
    ensures
        total * sum_pct(indices, k, total) <= 10000 * sum_counts(indices, k),
        k >= 1 ==> 10000 * sum_counts(indices, k) < total * (sum_pct(indices, k, total) + k),
    decreases k,
{
    if k == 0 {
    } else {
        lemma_sum_pct_brackets(indices, k - 1, total);
        let cnt = count_in(indices, k - 1);
        let x = cnt * 10000;
        lemma_count_in_bounds(indices, k - 1);
        assert(x >= 0) by (nonlinear_arith)
            requires
                cnt >= 0,
                x == cnt * 10000,
        ;
        let q = x / total;
        lemma_fundamental_div_mod(x, total);
        lemma_mod_bound(x, total);
        assert(total * q <= x < total * (q + 1)) by (nonlinear_arith)
            requires
                x == total * q + x % total,
                0 <= x % total < total,
        ;
        let sp = sum_pct(indices, k - 1, total);
        let sc = sum_counts(indices, k - 1);
        assert(sum_pct(indices, k, total) == sp + q);
        assert(sum_counts(indices, k) == sc + cnt);
        assert(10000 * (sc + cnt) == 10000 * sc + x) by (nonlinear_arith)
            requires
                x == cnt * 10000,
        ;
        assert(total * (sp + q) <= 10000 * sc + x) by (nonlinear_arith)
            requires
                total * sp <= 10000 * sc,
                total * q <= x,
        ;
        if k == 1 {
            assert(10000 * sc + x < total * ((sp + q) + k)) by (nonlinear_arith)
                requires
                    k == 1,
                    sc == 0,
                    sp == 0,
                    x < total * (q + 1),
            ;
        } else {
            assert(10000 * sc + x < total * ((sp + q) + k)) by (nonlinear_arith)
                requires
                    10000 * sc < total * (sp + (k - 1)),
                    x < total * (q + 1),
            ;
        }
    }
}

/// Law: a palette derived from `k` clusters over `total` assignments,
/// all of which point below `k`, has shares that sum to within `k`
/// hundredths of a percent below exactly 100%.
pub proof fn lemma_percentages_sum(indices: Seq<usize>, k: int, total: int)
    requires
        total == indices.len(),
        total > 0,
        k >= 1,
        forall|i: int| 0 <= i < indices.len() ==> #[trigger] indices[i] < k,
    ensures
        10000 - k < sum_pct(indices, k, total) <= 10000,
{
    lemma_counts_partition(indices, k);
    lemma_sum_pct_brackets(indices, k, total);
    let sp = sum_pct(indices, k, total);
    assert(sp <= 10000) by (nonlinear_arith)
        requires
            total * sp <= 10000 * total,
            total > 0,
    ;
    assert(10000 - k < sp) by (nonlinear_arith)
        requires
            10000 * total < total * (sp + k),
            total > 0,
    ;
}

/// One cluster's share never exceeds 100%.
proof fn lemma_pct_le_10000(count: int, total: int)
    requires
        0 <= count <= total,
        total > 0,
    ensures
        0 <= pct_of(count, total) <= 10000,
{
    assert(count * 10000 >= 0) by (nonlinear_arith)
        requires
            count >= 0,
    ;
    assert(count * 10000 <= 10000 * total) by (nonlinear_arith)
        requires
            count <= total,
    ;
    lemma_div_pos_is_pos(count * 10000, total);
    lemma_div_is_ordered(count * 10000, 10000 * total, total);
    lemma_div_multiples_vanish(10000, total);
}

/// Counts how many assignments point at cluster `c`.
fn count_assignments(indices: &Vec<usize>, c: usize) -> (count: usize)
    ensures
        count as int == count_in(indices@, c as int),
        count <= indices@.len(),
{
    let n: usize = indices.len();
    let mut count: usize = 0;
    let mut i: usize = 0;
    while i < n
        invariant
            n == indices@.len(),
            i <= n,
            count as int == count_in(indices@.take(i as int), c as int),
            count <= i,
        decreases n - i,
    {
        proof {
            assert(indices@.take(i + 1).drop_last() =~= indices@.take(i as int));
        }
        if indices[i] == c {
            count += 1;
        }
        i += 1;
    }
    proof {
        assert(indices@.take(n as int) =~= indices@);
    }
    count
}

/// Turns a clustering outcome into a palette: one entry per centroid,
/// in centroid order, each with its cluster's share of the samples in
/// hundredths of a percent. Clusters that received no samples keep a
/// share of exactly 0.
pub fn derive(result: &ClusteringResult, k: usize, total_samples: usize) -> (palette:
    PaletteResult)
    requires
        result.centroids@.len() == k,
        total_samples == result.indices@.len(),
        total_samples >= 1,
    ensures
        palette.colors@ == result.centroids@,
        palette.percentages@.len() == k,
        forall|c: int|
            0 <= c < k ==> #[trigger] palette.percentages@[c] as int == pct_of(
                count_in(result.indices@, c),
                total_samples as int,
            ),
        forall|c: int| 0 <= c < k ==> #[trigger] palette.percentages@[c] <= 10000,
        sum_u32(palette.percentages@) == sum_pct(result.indices@, k as int, total_samples as int),
{
    let mut colors: Vec<Color> = Vec::new();
    let mut percentages: Vec<u32> = Vec::new();
    let mut c: usize = 0;
    while c < k
        invariant
            k == result.centroids@.len(),
            total_samples == result.indices@.len(),
            total_samples >= 1,
            c <= k,
            colors@ == result.centroids@.take(c as int),
            percentages@.len() == c,
            forall|cc: int|
                0 <= cc < c ==> #[trigger] percentages@[cc] as int == pct_of(
                    count_in(result.indices@, cc),
                    total_samples as int,
                ),
            forall|cc: int| 0 <= cc < c ==> #[trigger] percentages@[cc] <= 10000,
            sum_u32(percentages@) == sum_pct(result.indices@, c as int, total_samples as int),
        decreases k - c,
    {
        let count = count_assignments(&result.indices, c);
        proof {
            lemma_count_in_bounds(result.indices@, c as int);
            lemma_pct_le_10000(count as int, total_samples as int);
            assert((count as u128) * 10000 == (count as int) * 10000) by (nonlinear_arith)
                requires
                    count >= 0,
            ;
        }
        let share: u128 = (count as u128) * 10000 / (total_samples as u128);
        let ghost old_percentages = percentages@;
        colors.push(result.centroids[c]);
        percentages.push(share as u32);
        proof {
            assert(result.centroids@.take(c as int).push(result.centroids@[c as int])
                =~= result.centroids@.take(c + 1));
            assert(percentages@.drop_last() =~= old_percentages);
        }
        c += 1;
    }
    proof {
        assert(result.centroids@.take(k as int) =~= result.centroids@);
    }
    PaletteResult { colors, percentages }
}

impl PaletteResult {
    /// The palette's colors, in centroid order.
    pub fn colors(&self) -> (colors: Vec<Color>)
        ensures
            colors@ == self.colors@,
    {
        let n: usize = self.colors.len();
        let mut colors: Vec<Color> = Vec::new();
        let mut i: usize = 0;
        while i < n
            invariant
                n == self.colors@.len(),
                i <= n,
                colors@ == self.colors@.take(i as int),
            decreases n - i,
        {
            colors.push(self.colors[i]);
            proof {
                assert(self.colors@.take(i as int).push(self.colors@[i as int])
                    =~= self.colors@.take(i + 1));
            }
            i += 1;
        }
        proof {
            assert(self.colors@.take(n as int) =~= self.colors@);
        }
        colors
    }

    /// The palette's shares, in centroid order, in hundredths of a
    /// percent.
    pub fn percentages(&self) -> (percentages: Vec<u32>)
        ensures
            percentages@ == self.percentages@,
    {
        let n: usize = self.percentages.len();
        let mut percentages: Vec<u32> = Vec::new();
        let mut i: usize = 0;
        while i < n
            invariant
                n == self.percentages@.len(),
                i <= n,
                percentages@ == self.percentages@.take(i as int),
            decreases n - i,
        {
            percentages.push(self.percentages[i]);
            proof {
                assert(self.percentages@.take(i as int).push(self.percentages@[i as int])
                    =~= self.percentages@.take(i + 1));
            }
            i += 1;
        }
        proof {
            assert(self.percentages@.take(n as int) =~= self.percentages@);
        }
        percentages
    }

    /// The color at one palette index, if it exists.
    pub fn get_color(&self, index: usize) -> (color: Option<Color>)
        ensures
            index < self.colors@.len() ==> color == Some(self.colors@[index as int]),
            index >= self.colors@.len() ==> color is None,
    {
        if index < self.colors.len() {
            Some(self.colors[index])
        } else {
            None
        }
    }

    /// The share at one palette index, if it exists, in hundredths of a
    /// percent.
    pub fn get_percentage(&self, index: usize) -> (share: Option<u32>)
        ensures
            index < self.percentages@.len() ==> share == Some(self.percentages@[index as int]),
            index >= self.percentages@.len() ==> share is None,
    {
        if index < self.percentages.len() {
            Some(self.percentages[index])
        } else {
            None
        }
    }

    /// How many entries the palette has.
    pub fn length(&self) -> (n: usize)
        ensures
            n == self.colors@.len(),
    {
        self.colors.len()
    }
}

} // verus!
