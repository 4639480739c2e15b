//! Weighted shares, in exact arithmetic. Each key (an artist or an album) of
//! a grouped view carries the weight `plays / freq`, where `freq` is the
//! number of distinct songs cataloged under the key; its weighted share is
//! that weight divided by the sum of all weights. Everything here is stated
//! over exact fractions, so the normalization — the shares sum to exactly
//! one — is an identity, not an approximation.

use vstd::prelude::*;

verus! {

/// The weight of one key of a grouped view: the exact fraction
/// `plays / freq`.
#[verifier::ext_equal]
pub struct Weight {
    pub plays: int,
    pub freq: int,
}

/// The sum of the weights `plays/freq`, as a fraction built by ordinary
/// fraction addition: the numerator and denominator of
/// `Σ_k plays_k / freq_k`.
pub open spec fn weight_frac(s: Seq<Weight>) -> (int, int)
    decreases s.len(),
{
    if s.len() == 0 {
        (0, 1)
    } else {
        let prev = weight_frac(s.drop_last());
        (prev.0 * s.last().freq + s.last().plays * prev.1, prev.1 * s.last().freq)
    }
}

/// The product of all frequencies.
pub open spec fn prod_freq(s: Seq<Weight>) -> int
    decreases s.len(),
{
    if s.len() == 0 {
        1
    } else {
        prod_freq(s.drop_last()) * s.last().freq
    }
}

/// The product of all frequencies but the one at `k`.
pub open spec fn prod_freq_except(s: Seq<Weight>, k: int) -> int
    decreases s.len(),
{
    if s.len() == 0 {
        1
    } else if k == s.len() - 1 {
        prod_freq(s.drop_last())
    } else {
        prod_freq_except(s.drop_last(), k) * s.last().freq
    }
}

/// The numerator of the share of key `k`, over the common denominator
/// `weight_frac(s).0`: the weight `plays_k / freq_k` brought to the common
/// denominator of the total weight.
pub open spec fn share_num(s: Seq<Weight>, k: int) -> int {
    s[k].plays * prod_freq_except(s, k)
}

/// The sum of the first `n` share numerators.
pub open spec fn share_sum_upto(s: Seq<Weight>, n: int) -> int
    decreases n,
{
    if n <= 0 {
        0
    } else {
        share_sum_upto(s, n - 1) + share_num(s, n - 1)
    }
}

/// The sum of all share numerators.
pub open spec fn share_sum(s: Seq<Weight>) -> int {
    share_sum_upto(s, s.len() as int)
}

/// The denominator of the weight sum is the product of the frequencies.
proof fn lemma_weight_frac_den(s: Seq<Weight>)
    ensures
        weight_frac(s).1 == prod_freq(s),
    decreases s.len(),
{
    if s.len() > 0 {
        lemma_weight_frac_den(s.drop_last());
    }
}

/// Multiplying the product-with-one-hole by the missing frequency restores
/// the full product.
proof fn lemma_prod_freq_except(s: Seq<Weight>, k: int)
    requires
        0 <= k < s.len(),
    ensures
        prod_freq_except(s, k) * s[k].freq == prod_freq(s),
    decreases s.len(),
{
    if k == s.len() - 1 {
    } else {
        let dl = s.drop_last();
        lemma_prod_freq_except(dl, k);
        assert(prod_freq_except(s, k) * s[k].freq == (prod_freq_except(dl, k) * s.last().freq)
            * dl[k].freq);
        assert((prod_freq_except(dl, k) * s.last().freq) * dl[k].freq == (prod_freq_except(dl, k)
            * dl[k].freq) * s.last().freq) by (nonlinear_arith);
    }
}

/// Appending a key multiplies every earlier share numerator by the new
/// frequency.
proof fn lemma_share_sum_push(s: Seq<Weight>, x: Weight, n: int)
    requires
        0 <= n <= s.len(),
    ensures
        share_sum_upto(s.push(x), n) == share_sum_upto(s, n) * x.freq,
    decreases n,
{
    let sx = s.push(x);
    if n == 0 {
    } else {
        lemma_share_sum_push(s, x, n - 1);
        assert(sx.drop_last() =~= s);
        assert(n - 1 < sx.len() - 1);
        assert(prod_freq_except(sx, n - 1) == prod_freq_except(s, n - 1) * x.freq);
        assert(sx[n - 1] == s[n - 1]);
        assert(share_num(sx, n - 1) == s[n - 1].plays * (prod_freq_except(s, n - 1) * x.freq));
        assert(s[n - 1].plays * (prod_freq_except(s, n - 1) * x.freq) == (s[n - 1].plays
            * prod_freq_except(s, n - 1)) * x.freq) by (nonlinear_arith);
        assert((share_sum_upto(s, n - 1) + share_num(s, n - 1)) * x.freq == share_sum_upto(s, n - 1)
            * x.freq + share_num(s, n - 1) * x.freq) by (nonlinear_arith);
    }
}

/// The share numerators sum to the numerator of the weight sum: over the
/// common denominator `weight_frac(s).0`, the shares sum to exactly one.
proof fn lemma_share_sum_is_total(s: Seq<Weight>)
    ensures
        share_sum(s) == weight_frac(s).0,
    decreases s.len(),
{
    if s.len() > 0 {
        let t = s.drop_last();
        let x = s.last();
        assert(s =~= t.push(x));
        lemma_share_sum_is_total(t);
        lemma_share_sum_push(t, x, t.len() as int);
        lemma_weight_frac_den(t);
        assert(share_sum_upto(s, s.len() as int) == share_sum_upto(s, s.len() - 1) + share_num(
            s,
            s.len() - 1,
        ));
        assert(share_sum_upto(t.push(x), t.len() as int) == share_sum(t) * x.freq);
        assert(prod_freq_except(s, s.len() - 1) == prod_freq(t));
        assert(share_num(s, s.len() - 1) == x.plays * prod_freq(t));
    }
}

/// The products and sums stay positive when every key has at least one play
/// and one cataloged song.
proof fn lemma_weight_frac_positive(s: Seq<Weight>)
    requires
        forall|k: int| 0 <= k < s.len() ==> (#[trigger] s[k]).freq >= 1,
        forall|k: int| 0 <= k < s.len() ==> (#[trigger] s[k]).plays >= 1,
    ensures
        weight_frac(s).1 >= 1,
        s.len() > 0 ==> weight_frac(s).0 >= 1,
        s.len() == 0 ==> weight_frac(s).0 == 0,
    decreases s.len(),
{
    if s.len() > 0 {
        let t = s.drop_last();
        let x = s.last();
        assert(forall|k: int| 0 <= k < t.len() ==> t[k] == s[k]);
        lemma_weight_frac_positive(t);
        let prev = weight_frac(t);
        assert(x.freq >= 1 && x.plays >= 1);
        assert(prev.0 * x.freq >= prev.0) by (nonlinear_arith)
            requires
                prev.0 >= 0,
                x.freq >= 1,
        ;
        assert(prev.0 >= 0);
        assert(x.plays * prev.1 >= 1) by (nonlinear_arith)
            requires
                x.plays >= 1,
                prev.1 >= 1,
        ;
        assert(prev.1 * x.freq >= 1) by (nonlinear_arith)
            requires
                prev.1 >= 1,
                x.freq >= 1,
        ;
    }
}

/// Weighted-share normalization. For a non-empty view in which every key has
/// at least one play and at least one cataloged song:
/// - the total weight `weight_frac(s)` is a well-defined positive fraction;
/// - each key's share, the fraction `share_num(s, k) / weight_frac(s).0`,
///   equals its weight divided by the total weight, as the cross-product
///   identity states; and
/// - the share numerators sum to exactly the common denominator: the shares
///   sum to exactly one.
pub proof fn lemma_weighted_shares_sum_to_one(s: Seq<Weight>)
    requires
        s.len() > 0,
        forall|k: int| 0 <= k < s.len() ==> (#[trigger] s[k]).freq >= 1,
        forall|k: int| 0 <= k < s.len() ==> (#[trigger] s[k]).plays >= 1,
    ensures
        share_sum(s) == weight_frac(s).0,
        weight_frac(s).0 >= 1,
        weight_frac(s).1 >= 1,
        forall|k: int|
            0 <= k < s.len() ==> #[trigger] share_num(s, k) * s[k].freq == s[k].plays
                * weight_frac(s).1,
{
    lemma_share_sum_is_total(s);
    lemma_weight_frac_positive(s);
    lemma_weight_frac_den(s);
    assert forall|k: int|
        0 <= k < s.len() implies #[trigger] share_num(s, k) * s[k].freq == s[k].plays
        * weight_frac(s).1 by {
        lemma_prod_freq_except(s, k);
        assert((s[k].plays * prod_freq_except(s, k)) * s[k].freq == s[k].plays * (prod_freq_except(
            s,
            k,
        ) * s[k].freq)) by (nonlinear_arith);
    }
}

} // verus!
