//! Per-buffer min/max normalization of sample buffers to 8-bit grayscale.
//!
//! Both paths rescale a buffer linearly so that the smallest sample maps to 0
//! and the largest to 255, based on that buffer's own observed minimum and
//! maximum. A constant buffer is a degenerate case: the span is substituted
//! with 1 and the whole buffer maps to 0 rather than dividing by zero.
//!
//! The integer path truncates the rescaled value toward zero; the
//! fixed-point path, which serves floating-point sample data, rounds half-up
//! to the nearest integer. Floating samples are supplied in a signed
//! fixed-point representation: the caller maps its floating buffer by an
//! order-preserving affine map onto `i64` values (the normalization result
//! depends only on the ratio `(v - min) / (max - min)`, which such a map
//! preserves up to the chosen quantization step).

use vstd::prelude::*;

verus! {

use vstd::arithmetic::div_mod::lemma_basic_div;
use vstd::arithmetic::div_mod::lemma_div_is_ordered;
use vstd::arithmetic::div_mod::lemma_div_multiples_vanish;
use vstd::arithmetic::div_mod::lemma_div_of0;
use vstd::arithmetic::div_mod::lemma_div_pos_is_pos;
use vstd::arithmetic::div_mod::lemma_fundamental_div_mod_converse_div;

/// The smallest element of a non-empty integer sequence.
pub open spec fn seq_min(s: Seq<int>) -> int
    decreases s.len(),
{
    if s.len() <= 1 {
        s[0]
    } else {
        let m = seq_min(s.drop_last());
        if s.last() < m {
            s.last()
        } else {
            m
        }
    }
}

/// The largest element of a non-empty integer sequence.
pub open spec fn seq_max(s: Seq<int>) -> int
    decreases s.len(),
{
    if s.len() <= 1 {
        s[0]
    } else {
        let m = seq_max(s.drop_last());
        if s.last() > m {
            s.last()
        } else {
            m
        }
    }
}

/// The mathematical values of a buffer of `i128` samples.
pub open spec fn as_ints(s: Seq<i128>) -> Seq<int> {
    s.map(|k: int, v: i128| v as int)
}

/// The mathematical values of a buffer of `i64` samples.
pub open spec fn as_ints_64(s: Seq<i64>) -> Seq<int> {
    s.map(|k: int, v: i64| v as int)
}

/// The rescaling denominator: the buffer's value span, or 1 for a constant
/// buffer.
pub open spec fn spec_span(mn: int, mx: int) -> int {
    if mx != mn {
        mx - mn
    } else {
        1
    }
}

/// The integer normalization of one sample: rescale `v` from `[mn, mx]` to
/// `[0, 255]` and truncate toward zero.
pub open spec fn norm_trunc(v: int, mn: int, mx: int) -> int {
    ((v - mn) * 255) / spec_span(mn, mx)
}

/// The fixed-point (floating path) normalization of one sample: rescale `v`
/// from `[mn, mx]` to `[0, 255]` and round half-up to the nearest integer.
pub open spec fn norm_round(v: int, mn: int, mx: int) -> int {
    (2 * ((v - mn) * 255) + spec_span(mn, mx)) / (2 * spec_span(mn, mx))
}

/// The minimum of a non-empty sequence is attained and bounds every element
/// from below.
pub proof fn lemma_seq_min_props(s: Seq<int>)
    requires
        s.len() > 0,
    ensures
        exists|t: int| 0 <= t < s.len() && s[t] == seq_min(s),
        forall|t: int| 0 <= t < s.len() ==> seq_min(s) <= #[trigger] s[t],
    decreases s.len(),
{
    if s.len() == 1 {
        assert(s[0] == seq_min(s));
    } else {
        let d = s.drop_last();
        lemma_seq_min_props(d);
        assert(forall|t: int| 0 <= t < d.len() ==> d[t] == #[trigger] s[t]);
        if s.last() < seq_min(d) {
            assert(s[s.len() - 1] == seq_min(s));
        } else {
            let t0 = choose|t: int| 0 <= t < d.len() && d[t] == seq_min(d);
            assert(s[t0] == seq_min(s));
        }
    }
}

/// The maximum of a non-empty sequence is attained and bounds every element
/// from above.
pub proof fn lemma_seq_max_props(s: Seq<int>)
    requires
        s.len() > 0,
    ensures
        exists|t: int| 0 <= t < s.len() && s[t] == seq_max(s),
        forall|t: int| 0 <= t < s.len() ==> #[trigger] s[t] <= seq_max(s),
    decreases s.len(),
{
    if s.len() == 1 {
        assert(s[0] == seq_max(s));
    } else {
        let d = s.drop_last();
        lemma_seq_max_props(d);
        assert(forall|t: int| 0 <= t < d.len() ==> d[t] == #[trigger] s[t]);
        if s.last() > seq_max(d) {
            assert(s[s.len() - 1] == seq_max(s));
        } else {
            let t0 = choose|t: int| 0 <= t < d.len() && d[t] == seq_max(d);
            assert(s[t0] == seq_max(s));
        }
    }
}

/// A value that is attained and bounds the sequence from below is its
/// minimum; likewise for the maximum.
proof fn lemma_min_max_unique(s: Seq<int>, mn: int, mx: int)
    requires
        s.len() > 0,
        forall|t: int| 0 <= t < s.len() ==> mn <= #[trigger] s[t],
        forall|t: int| 0 <= t < s.len() ==> #[trigger] s[t] <= mx,
        exists|t: int| 0 <= t < s.len() && s[t] == mn,
        exists|t: int| 0 <= t < s.len() && s[t] == mx,
    ensures
        seq_min(s) == mn,
        seq_max(s) == mx,
{
    lemma_seq_min_props(s);
    lemma_seq_max_props(s);
}

/// Every normalized integer-path sample lies in `[0, 255]`.
pub proof fn lemma_norm_trunc_range(v: int, mn: int, mx: int)
    requires
        mn <= v <= mx,
    ensures
        0 <= norm_trunc(v, mn, mx) <= 255,
{
    let sp = spec_span(mn, mx);
    lemma_div_pos_is_pos((v - mn) * 255, sp);
    if mx != mn {
        lemma_div_is_ordered((v - mn) * 255, sp * 255, sp);
        lemma_div_multiples_vanish(255, sp);
    } else {
        lemma_div_of0(sp);
    }
}

/// Every normalized fixed-point-path sample lies in `[0, 255]`.
pub proof fn lemma_norm_round_range(v: int, mn: int, mx: int)
    requires
        mn <= v <= mx,
    ensures
        0 <= norm_round(v, mn, mx) <= 255,
{
    let sp = spec_span(mn, mx);
    lemma_div_pos_is_pos(2 * ((v - mn) * 255) + sp, 2 * sp);
    lemma_div_is_ordered(2 * ((v - mn) * 255) + sp, 511 * sp, 2 * sp);
    assert(511 * sp == 255 * (2 * sp) + sp);
    lemma_fundamental_div_mod_converse_div(511 * sp, 2 * sp, 255, sp);
}

/// The buffer minimum normalizes to 0 on both paths; when the buffer is not
/// constant, the buffer maximum normalizes to 255 on both paths.
pub proof fn lemma_norm_extremes(mn: int, mx: int)
    requires
        mn <= mx,
    ensures
        norm_trunc(mn, mn, mx) == 0,
        norm_round(mn, mn, mx) == 0,
        mn != mx ==> norm_trunc(mx, mn, mx) == 255,
        mn != mx ==> norm_round(mx, mn, mx) == 255,
{
    let sp = spec_span(mn, mx);
    lemma_div_of0(sp);
    lemma_basic_div(sp, 2 * sp);
    if mn != mx {
        lemma_div_multiples_vanish(255, sp);
        assert(2 * ((mx - mn) * 255) + sp == 255 * (2 * sp) + sp);
        lemma_fundamental_div_mod_converse_div(2 * ((mx - mn) * 255) + sp, 2 * sp, 255, sp);
    }
}

/// Converts integer samples of an at-most-64-bit encoding to 8-bit grayscale
/// by per-buffer min/max rescaling with truncation.
///
/// The bounds on the samples reflect their origin: every supported integer
/// encoding is at most 64 bits wide, so every sample fits between the
/// smallest signed and the largest unsigned 64-bit value.
pub fn to_u8_int(buf: &Vec<i128>) -> (r: Vec<u8>)
    requires
        forall|k: int|
            0 <= k < buf@.len() ==> i64::MIN as int <= #[trigger] buf@[k] as int <= u64::MAX as int,
    ensures
        r@.len() == buf@.len(),
        forall|k: int|
            0 <= k < buf@.len() ==> #[trigger] r@[k] as int == norm_trunc(
                buf@[k] as int,
                seq_min(as_ints(buf@)),
                seq_max(as_ints(buf@)),
            ),
{
    let n = buf.len();
    if n == 0 {
        return Vec::new();
    }
    let mut mn: i128 = buf[0];
    let mut mx: i128 = buf[0];
    let mut k: usize = 1;
    while k < n
        invariant
            1 <= k <= n,
            n == buf@.len(),
            forall|t: int| 0 <= t < k ==> mn <= #[trigger] buf@[t],
            forall|t: int| 0 <= t < k ==> #[trigger] buf@[t] <= mx,
            exists|t: int| 0 <= t < k && buf@[t] == mn,
            exists|t: int| 0 <= t < k && buf@[t] == mx,
        decreases n - k,
    {
        let v = buf[k];
        if v < mn {
            mn = v;
        }
        if v > mx {
            mx = v;
        }
        proof {
            assert(buf@[k as int] <= mx && mn <= buf@[k as int]);
        }
        k = k + 1;
    }
    proof {
        assert forall|t: int| 0 <= t < as_ints(buf@).len() implies mn as int <= #[trigger] as_ints(
            buf@,
        )[t] <= mx as int by {
            assert(as_ints(buf@)[t] == buf@[t] as int);
        }
        let t0 = choose|t: int| 0 <= t < buf@.len() && buf@[t] == mn;
        let t1 = choose|t: int| 0 <= t < buf@.len() && buf@[t] == mx;
        assert(as_ints(buf@)[t0] == mn as int);
        assert(as_ints(buf@)[t1] == mx as int);
        lemma_min_max_unique(as_ints(buf@), mn as int, mx as int);
    }
    let span: i128 = if mx != mn {
        mx - mn
    } else {
        1
    };
    let spanw: u128 = span as u128;
    let mut r: Vec<u8> = Vec::new();
    let mut k: usize = 0;
    while k < n
        invariant
            k <= n,
            n == buf@.len(),
            r@.len() == k,
            forall|t: int| 0 <= t < n ==> mn <= #[trigger] buf@[t] <= mx,
            forall|t: int|
                0 <= t < n ==> i64::MIN as int <= #[trigger] buf@[t] as int <= u64::MAX as int,
            i64::MIN as int <= mn as int <= u64::MAX as int,
            i64::MIN as int <= mx as int <= u64::MAX as int,
            mn as int == seq_min(as_ints(buf@)),
            mx as int == seq_max(as_ints(buf@)),
            span as int == spec_span(mn as int, mx as int),
            spanw == span as int,
            forall|t: int|
                0 <= t < k ==> #[trigger] r@[t] as int == norm_trunc(
                    buf@[t] as int,
                    seq_min(as_ints(buf@)),
                    seq_max(as_ints(buf@)),
                ),
        decreases n - k,
    {
        let v = buf[k];
        let d: u128 = (v - mn) as u128;
        let q: u128 = (d * 255) / spanw;
        proof {
            lemma_norm_trunc_range(v as int, mn as int, mx as int);
            assert(q == norm_trunc(v as int, mn as int, mx as int));
        }
        r.push(q as u8);
        k = k + 1;
    }
    r
}

/// Converts fixed-point samples (the floating path) to 8-bit grayscale by
/// per-buffer min/max rescaling with round-half-up.
pub fn to_u8_fixed(buf: &Vec<i64>) -> (r: Vec<u8>)
    ensures
        r@.len() == buf@.len(),
        forall|k: int|
            0 <= k < buf@.len() ==> #[trigger] r@[k] as int == norm_round(
                buf@[k] as int,
                seq_min(as_ints_64(buf@)),
                seq_max(as_ints_64(buf@)),
            ),
{
    let n = buf.len();
    if n == 0 {
        return Vec::new();
    }
    let mut mn: i64 = buf[0];
    let mut mx: i64 = buf[0];
    let mut k: usize = 1;
    while k < n
        invariant
            1 <= k <= n,
            n == buf@.len(),
            forall|t: int| 0 <= t < k ==> mn <= #[trigger] buf@[t],
            forall|t: int| 0 <= t < k ==> #[trigger] buf@[t] <= mx,
            exists|t: int| 0 <= t < k && buf@[t] == mn,
            exists|t: int| 0 <= t < k && buf@[t] == mx,
        decreases n - k,
    {
        let v = buf[k];
        if v < mn {
            mn = v;
        }
        if v > mx {
            mx = v;
        }
        proof {
            assert(buf@[k as int] <= mx && mn <= buf@[k as int]);
        }
        k = k + 1;
    }
    proof {
        assert forall|t: int| 0 <= t < as_ints_64(buf@).len() implies mn as int
            <= #[trigger] as_ints_64(buf@)[t] <= mx as int by {
            assert(as_ints_64(buf@)[t] == buf@[t] as int);
        }
        let t0 = choose|t: int| 0 <= t < buf@.len() && buf@[t] == mn;
        let t1 = choose|t: int| 0 <= t < buf@.len() && buf@[t] == mx;
        assert(as_ints_64(buf@)[t0] == mn as int);
        assert(as_ints_64(buf@)[t1] == mx as int);
        lemma_min_max_unique(as_ints_64(buf@), mn as int, mx as int);
    }
    let span: i128 = if mx != mn {
        (mx as i128) - (mn as i128)
    } else {
        1
    };
    let spanw: u128 = span as u128;
    let mut r: Vec<u8> = Vec::new();
    let mut k: usize = 0;
    while k < n
        invariant
            k <= n,
            n == buf@.len(),
            r@.len() == k,
            forall|t: int| 0 <= t < n ==> mn <= #[trigger] buf@[t] <= mx,
            mn as int == seq_min(as_ints_64(buf@)),
            mx as int == seq_max(as_ints_64(buf@)),
            span as int == spec_span(mn as int, mx as int),
            spanw == span as int,
            forall|t: int|
                0 <= t < k ==> #[trigger] r@[t] as int == norm_round(
                    buf@[t] as int,
                    seq_min(as_ints_64(buf@)),
                    seq_max(as_ints_64(buf@)),
                ),
        decreases n - k,
    {
        let v = buf[k];
        let d: u128 = ((v as i128) - (mn as i128)) as u128;
        let q: u128 = (2 * (d * 255) + spanw) / (2 * spanw);
        proof {
            lemma_norm_round_range(v as int, mn as int, mx as int);
            assert(q == norm_round(v as int, mn as int, mx as int));
        }
        r.push(q as u8);
        k = k + 1;
    }
    r
}

/// In a non-empty buffer, every sample equal to the buffer minimum
/// normalizes to 0 on both paths; unless the buffer is constant (where the
/// whole output is 0), every sample equal to the buffer maximum normalizes
/// to 255 on both paths.
pub proof fn lemma_norm_extreme_samples(s: Seq<int>, k: int)
    requires
        s.len() > 0,
        0 <= k < s.len(),
    ensures
        s[k] == seq_min(s) ==> norm_trunc(s[k], seq_min(s), seq_max(s)) == 0 && norm_round(
            s[k],
            seq_min(s),
            seq_max(s),
        ) == 0,
        s[k] == seq_max(s) && seq_min(s) != seq_max(s) ==> norm_trunc(
            s[k],
            seq_min(s),
            seq_max(s),
        ) == 255 && norm_round(s[k], seq_min(s), seq_max(s)) == 255,
{
    lemma_seq_min_props(s);
    lemma_seq_max_props(s);
    lemma_norm_extremes(seq_min(s), seq_max(s));
}

/// A constant buffer normalizes to 0 at every position, on both paths.
pub proof fn lemma_norm_constant(s: Seq<int>, c: int, k: int)
    requires
        s.len() > 0,
        forall|t: int| 0 <= t < s.len() ==> #[trigger] s[t] == c,
        0 <= k < s.len(),
    ensures
        norm_trunc(s[k], seq_min(s), seq_max(s)) == 0,
        norm_round(s[k], seq_min(s), seq_max(s)) == 0,
{
    lemma_min_max_unique(s, c, c);
    lemma_norm_extremes(c, c);
}

} // verus!
