//! Utilities on already-extracted palettes: luminance ordering and
//! greedy near-duplicate removal.
//!
//! The perceptual luminance of a color weights its channels in the
//! proportion 0.2126 : 0.7152 : 0.0722. The weight is kept as the exact
//! integer `2126 * r + 7152 * g + 722 * b`, which orders colors exactly
//! as the real-valued weighting of normalized channels does. Duplicate
//! removal compares squared distances against the squared threshold,
//! which orders pairs exactly as the Euclidean distance against the
//! threshold does.

use vstd::prelude::*;
use vstd::seq_lib::group_to_multiset_ensures;
use vstd::seq_lib::to_multiset_insert;
use crate::color::Color;
use crate::color::color_distance_rgb;
use crate::color::dist_sq;

verus! {

/// The perceptual luminance weight of a color, scaled to the exact
/// integer `2126 * r + 7152 * g + 722 * b`. Always in
/// `[0, 10000 * 255]`; darker colors weigh less.
pub open spec fn luminance(c: Color) -> int {
    2126 * c.r + 7152 * c.g + 722 * c.b
}

/// Colors appear in non-decreasing order of luminance.
pub open spec fn sorted_by_luminance(s: Seq<Color>) -> bool {
    forall|i: int, j: int| 0 <= i < j < s.len() ==> luminance(s[i]) <= luminance(s[j])
}

/// Computes the scaled luminance weight of a color.
pub fn luminance_weight(c: &Color) -> (w: u32)
    ensures
        w as int == luminance(*c),
        w <= 10000 * 255,
{
    2126 * (c.r as u32) + 7152 * (c.g as u32) + 722 * (c.b as u32)
}

/// Orders colors by ascending luminance, darkest first. The result
/// holds exactly the input colors; colors of equal luminance may appear
/// in any order among themselves.
pub fn sort_colors_by_luminance(colors: Vec<Color>) -> (sorted: Vec<Color>)
    ensures
        sorted@.len() == colors@.len(),
        sorted@.to_multiset() == colors@.to_multiset(),
        sorted_by_luminance(sorted@),
{
    broadcast use group_to_multiset_ensures;
    broadcast use to_multiset_insert;

    let n: usize = colors.len();
    let mut sorted: Vec<Color> = Vec::new();
    let mut i: usize = 0;
    while i < n
        invariant
            n == colors@.len(),
            i <= n,
            sorted@.len() == i,
            sorted@.to_multiset() == colors@.take(i as int).to_multiset(),
            sorted_by_luminance(sorted@),
        decreases n - i,
    {
        broadcast use group_to_multiset_ensures;
        broadcast use to_multiset_insert;

        let c: Color = colors[i];
        let w: u32 = luminance_weight(&c);
        let mut j: usize = 0;
        while j < sorted.len() && luminance_weight(&sorted[j]) <= w
            invariant
                j <= sorted@.len(),
                w as int == luminance(c),
                sorted_by_luminance(sorted@),
                forall|q: int| 0 <= q < j ==> luminance(#[trigger] sorted@[q]) <= luminance(c),
            decreases sorted@.len() - j,
        {
            j += 1;
        }
        let ghost before = sorted@;
        sorted.insert(j, c);
        proof {
            assert(sorted@ == before.insert(j as int, c));
            before.insert_ensures(j as int, c);
            assert forall|p: int, q: int|
                0 <= p < q < sorted@.len() implies luminance(sorted@[p]) <= luminance(
                sorted@[q],
            ) by {
                if q < j {
                } else if p > j {
                } else if p == j && q > j {
                    assert(sorted@[q] == before[q - 1]);
                    if j < before.len() {
                        assert(luminance(before[j as int]) > luminance(c));
                        assert(luminance(before[q - 1]) >= luminance(before[j as int]));
                    }
                } else if q == j {
                    assert(sorted@[p] == before[p]);
                } else {
                    assert(p < j && q > j);
                    assert(sorted@[p] == before[p]);
                    assert(sorted@[q] == before[q - 1]);
                    if j < before.len() {
                        assert(luminance(before[j as int]) > luminance(c));
                    }
                    assert(luminance(before[p]) <= luminance(c));
                    assert(luminance(before[q - 1]) >= luminance(c) || luminance(before[q - 1])
                        >= luminance(before[p]));
                }
            }
            assert(colors@.take(i + 1).drop_last() =~= colors@.take(i as int));
            assert(colors@.take(i + 1) =~= colors@.take(i as int).push(c));
        }
        i += 1;
    }
    proof {
        assert(colors@.take(n as int) =~= colors@);
    }
    sorted
}

/// `c` is far enough (at or beyond the threshold) from every color
/// already kept.
pub open spec fn keeps(kept: Seq<Color>, c: Color, threshold: int) -> bool {
    forall|i: int| 0 <= i < kept.len() ==> dist_sq(c, #[trigger] kept[i]) >= threshold * threshold
}

/// Greedy near-duplicate removal: scan in order, keep a color only if
/// it is far enough from every color kept so far.
pub open spec fn dedup_rec(s: Seq<Color>, threshold: int, kept: Seq<Color>) -> Seq<Color>
    decreases s.len(),
{
    if s.len() == 0 {
        kept
    } else if keeps(kept, s[0], threshold) {
        dedup_rec(s.drop_first(), threshold, kept.push(s[0]))
    } else {
        dedup_rec(s.drop_first(), threshold, kept)
    }
}

/// What near-duplicate removal returns, starting from nothing kept.
pub open spec fn spec_remove_similar(s: Seq<Color>, threshold: int) -> Seq<Color> {
    dedup_rec(s, threshold, Seq::empty())
}

/// Whether `c` lies strictly within the threshold distance of any color
/// in `kept`.
fn is_similar_to_any(kept: &Vec<Color>, c: &Color, threshold: u32) -> (similar: bool)
    ensures
        similar == !keeps(kept@, *c, threshold as int),
{
    proof {
        assert((threshold as int) * (threshold as int) <= 0xffff_ffff * 0xffff_ffff)
            by (nonlinear_arith)
            requires
                threshold <= 0xffff_ffffu32,
        ;
    }
    let t2: u64 = (threshold as u64) * (threshold as u64);
    let n: usize = kept.len();
    let mut m: usize = 0;
    while m < n
        invariant
            n == kept@.len(),
            m <= n,
            t2 == (threshold as int) * (threshold as int),
            forall|q: int|
                0 <= q < m ==> dist_sq(*c, #[trigger] kept@[q]) >= (threshold as int) * (
                threshold as int),
        decreases n - m,
    {
        let d: u32 = color_distance_rgb(c, &kept[m]);
        if (d as u64) < t2 {
            return true;
        }
        m += 1;
    }
    false
}

/// Scans colors in their given order and keeps each one only if its
/// distance to every already-kept color is at least `threshold`;
/// the first of a group of near-duplicates wins.
pub fn remove_similar_colors(colors: Vec<Color>, threshold: u32) -> (result: Vec<Color>)
    ensures
        result@ == spec_remove_similar(colors@, threshold as int),
{
    let n: usize = colors.len();
    let mut result: Vec<Color> = Vec::new();
    proof {
        assert(colors@.skip(0) =~= colors@);
    }
    let mut i: usize = 0;
    while i < n
        invariant
            n == colors@.len(),
            i <= n,
            dedup_rec(colors@.skip(i as int), threshold as int, result@) == spec_remove_similar(
                colors@,
                threshold as int,
            ),
        decreases n - i,
    {
        let c: Color = colors[i];
        proof {
            assert(colors@.skip(i as int).drop_first() =~= colors@.skip(i + 1));
            assert(colors@.skip(i as int)[0] == colors@[i as int]);
        }
        let similar = is_similar_to_any(&result, &c, threshold);
        if !similar {
            result.push(c);
        }
        i += 1;
    }
    proof {
        assert(colors@.skip(n as int) =~= Seq::<Color>::empty());
    }
    result
}

/// Every color of a deduplicated palette is far enough from every color
/// kept before it.
pub open spec fn self_kept(s: Seq<Color>, threshold: int) -> bool {
    forall|j: int| 0 <= j < s.len() ==> #[trigger] keeps(s.take(j), s[j], threshold)
}

/// Near-duplicate removal only produces palettes whose every color is
/// far enough from those kept before it.
proof fn lemma_dedup_self_kept(s: Seq<Color>, threshold: int, kept: Seq<Color>)
    requires
        self_kept(kept, threshold),
    ensures
        self_kept(dedup_rec(s, threshold, kept), threshold),
    decreases s.len(),
{
    if s.len() == 0 {
    } else if keeps(kept, s[0], threshold) {
        let pushed = kept.push(s[0]);
        assert forall|j: int| 0 <= j < pushed.len() implies #[trigger] keeps(
            pushed.take(j),
            pushed[j],
            threshold,
        ) by {
            if j < kept.len() {
                assert(pushed.take(j) =~= kept.take(j));
                assert(pushed[j] == kept[j]);
            } else {
                assert(pushed.take(j) =~= kept);
            }
        }
        lemma_dedup_self_kept(s.drop_first(), threshold, pushed);
    } else {
        lemma_dedup_self_kept(s.drop_first(), threshold, kept);
    }
}

/// Scanning a palette whose every color is far enough from those kept
/// before it keeps all of it.
proof fn lemma_dedup_of_self_kept(s: Seq<Color>, threshold: int, kept: Seq<Color>)
    requires
        forall|j: int|
            0 <= j < s.len() ==> #[trigger] keeps(kept + s.take(j), s[j], threshold),
    ensures
        dedup_rec(s, threshold, kept) == kept + s,
    decreases s.len(),
{
    if s.len() == 0 {
        assert(kept + s =~= kept);
    } else {
        assert(keeps(kept + s.take(0), s[0], threshold));
        assert(kept + s.take(0) =~= kept);
        let pushed = kept.push(s[0]);
        assert forall|j: int| 0 <= j < s.drop_first().len() implies #[trigger] keeps(
            pushed + s.drop_first().take(j),
            s.drop_first()[j],
            threshold,
        ) by {
            assert(pushed + s.drop_first().take(j) =~= kept + s.take(j + 1));
            assert(s.drop_first()[j] == s[j + 1]);
            assert(keeps(kept + s.take(j + 1), s[j + 1], threshold));
        }
        lemma_dedup_of_self_kept(s.drop_first(), threshold, pushed);
        assert(pushed + s.drop_first() =~= kept + s);
    }
}

/// Law: near-duplicate removal is idempotent. Removing near-duplicates
/// from an already deduplicated palette, with the same threshold,
/// changes nothing.
pub proof fn lemma_remove_similar_idempotent(s: Seq<Color>, threshold: int)
    ensures
        spec_remove_similar(spec_remove_similar(s, threshold), threshold) == spec_remove_similar(
            s,
            threshold,
        ),
{
    let r = spec_remove_similar(s, threshold);
    lemma_dedup_self_kept(s, threshold, Seq::empty());
    assert forall|j: int| 0 <= j < r.len() implies #[trigger] keeps(
        Seq::empty() + r.take(j),
        r[j],
        threshold,
    ) by {
        assert(Seq::empty() + r.take(j) =~= r.take(j));
        assert(keeps(r.take(j), r[j], threshold));
    }
    lemma_dedup_of_self_kept(r, threshold, Seq::empty());
    assert(Seq::empty() + r =~= r);
}

} // verus!
