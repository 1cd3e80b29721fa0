//! Signature normalization: two interchangeable strategies that rescale a
//! collection of raw signatures onto `0 ..= SCALE`, each of the three
//! components independently.
//!
//! Min-max normalization (used for image cells) linearly rescales each
//! component by the extrema observed over the collection, except that
//! signatures whose brightness is exactly 0 (blank cells) neither enter the
//! extrema nor are rescaled: they keep their raw values. When a component is
//! constant over the non-blank signatures, the rescaled value is defined to
//! be 0.
//!
//! Quantile (rank) normalization (used for the glyph alphabet) replaces each
//! component by its rank among the collection, scaled by `SCALE / count`;
//! ties are broken by the original index, so the ranking is stable. Each
//! component is ranked against the pre-pass values, independently of the
//! other two.

use vstd::prelude::*;

verus! {

use crate::sig::{Comp, Sig, SCALE};

/// A blank signature: one whose raw brightness is exactly 0. Blank
/// signatures are excluded from min-max normalization.
pub open spec fn excluded(s: Sig) -> bool {
    s.b == 0
}

/// The least value of component `c` over the non-blank signatures among the
/// first `n`, if any.
pub open spec fn min_raw(s: Seq<Sig>, c: Comp, n: nat) -> Option<int>
    decreases n,
{
    if n == 0 {
        None
    } else {
        let rest = min_raw(s, c, (n - 1) as nat);
        if excluded(s[n - 1]) {
            rest
        } else {
            match rest {
                None => Some(s[n - 1].comp(c) as int),
                Some(m) => Some(vstd::math::min(m, s[n - 1].comp(c) as int)),
            }
        }
    }
}

/// The greatest value of component `c` over the non-blank signatures among
/// the first `n`, if any.
pub open spec fn max_raw(s: Seq<Sig>, c: Comp, n: nat) -> Option<int>
    decreases n,
{
    if n == 0 {
        None
    } else {
        let rest = max_raw(s, c, (n - 1) as nat);
        if excluded(s[n - 1]) {
            rest
        } else {
            match rest {
                None => Some(s[n - 1].comp(c) as int),
                Some(m) => Some(vstd::math::max(m, s[n - 1].comp(c) as int)),
            }
        }
    }
}

/// The observed minimum of component `c` (0 when every signature is blank;
/// unused in that case, since nothing is rescaled).
pub open spec fn mm_lo(s: Seq<Sig>, c: Comp) -> int {
    match min_raw(s, c, s.len()) {
        Some(m) => m,
        None => 0,
    }
}

/// The observed maximum of component `c`.
pub open spec fn mm_hi(s: Seq<Sig>, c: Comp) -> int {
    match max_raw(s, c, s.len()) {
        Some(m) => m,
        None => 0,
    }
}

/// Linear rescale of `v` from `lo ..= hi` onto `0 ..= SCALE`. A degenerate
/// range (hi <= lo) maps everything to 0.
pub open spec fn mm_scale(v: int, lo: int, hi: int) -> int {
    if hi <= lo {
        0
    } else {
        (v - lo) * SCALE / (hi - lo)
    }
}

/// The whole collection after min-max normalization: blank signatures are
/// kept as they are, every other one has each component rescaled by that
/// component's own extrema.
pub open spec fn mm_normalized(s: Seq<Sig>) -> Seq<Sig> {
    Seq::new(
        s.len(),
        |i: int|
            if excluded(s[i]) {
                s[i]
            } else {
                Sig {
                    b: mm_scale(s[i].b as int, mm_lo(s, Comp::B), mm_hi(s, Comp::B)) as u32,
                    ex: mm_scale(s[i].ex as int, mm_lo(s, Comp::Ex), mm_hi(s, Comp::Ex)) as u32,
                    ey: mm_scale(s[i].ey as int, mm_lo(s, Comp::Ey), mm_hi(s, Comp::Ey)) as u32,
                }
            },
    )
}

/// Every non-blank signature among the first `n` lies between the extrema.
pub proof fn lemma_extrema_contain(s: Seq<Sig>, c: Comp, i: int, n: nat)
    requires
        0 <= i < n,
        n <= s.len(),
        !excluded(s[i]),
    ensures
        min_raw(s, c, n) is Some,
        max_raw(s, c, n) is Some,
        min_raw(s, c, n)->Some_0 <= s[i].comp(c) as int,
        max_raw(s, c, n)->Some_0 >= s[i].comp(c) as int,
    decreases n,
{
    if i < n - 1 {
        lemma_extrema_contain(s, c, i, (n - 1) as nat);
    }
}

/// The rescaled value lies in 0 ..= SCALE; the observed minimum lands
/// exactly on 0, and on a non-degenerate range the observed maximum lands
/// exactly on SCALE.
pub proof fn lemma_mm_scale_range(v: int, lo: int, hi: int)
    requires
        lo <= v <= hi,
    ensures
        0 <= mm_scale(v, lo, hi) <= SCALE,
        v == lo ==> mm_scale(v, lo, hi) == 0,
        v == hi && lo < hi ==> mm_scale(v, lo, hi) == SCALE,
{
    if hi <= lo {
    } else {
        let d = hi - lo;
        vstd::arithmetic::mul::lemma_mul_nonnegative(v - lo, SCALE as int);
        vstd::arithmetic::div_mod::lemma_div_pos_is_pos((v - lo) * SCALE, d);
        vstd::arithmetic::mul::lemma_mul_inequality(v - lo, d, SCALE as int);
        vstd::arithmetic::div_mod::lemma_div_is_ordered((v - lo) * SCALE, d * SCALE, d);
        vstd::arithmetic::div_mod::lemma_div_multiples_vanish(SCALE as int, d);
        assert(d * SCALE == SCALE * d) by (nonlinear_arith);
        if v == lo {
            assert((v - lo) * SCALE == 0) by (nonlinear_arith)
                requires
                    v == lo,
            ;
            vstd::arithmetic::div_mod::lemma_div_of0(d);
        }
    }
}

/// Normalization range law: after min-max normalization every component of
/// every non-blank signature lies in 0 ..= SCALE; a component that achieved
/// the observed minimum maps to exactly 0, and one that achieved the
/// observed maximum maps to exactly SCALE whenever the range is not
/// degenerate. Blank signatures are left untouched.
pub proof fn lemma_min_max_range(s: Seq<Sig>, i: int, c: Comp)
    requires
        0 <= i < s.len(),
        !excluded(s[i]),
    ensures
        0 <= mm_normalized(s)[i].comp(c) <= SCALE,
        s[i].comp(c) as int == mm_lo(s, c) ==> mm_normalized(s)[i].comp(c) == 0,
        s[i].comp(c) as int == mm_hi(s, c) && mm_lo(s, c) < mm_hi(s, c) ==> mm_normalized(s)[i].comp(
            c,
        ) == SCALE,
{
    lemma_extrema_contain(s, c, i, s.len());
    lemma_mm_scale_range(s[i].comp(c) as int, mm_lo(s, c), mm_hi(s, c));
    assert(mm_normalized(s)[i].comp(c) as int == mm_scale(s[i].comp(c) as int, mm_lo(s, c), mm_hi(s, c)));
}

/// Rescales `v` by the extrema, in executable form.
fn scale_value(v: u32, lo: u32, hi: u32) -> (r: u32)
    requires
        lo <= v <= hi,
    ensures
        r as int == mm_scale(v as int, lo as int, hi as int),
{
    proof {
        lemma_mm_scale_range(v as int, lo as int, hi as int);
    }
    if hi <= lo {
        0
    } else {
        (((v - lo) as u64) * (SCALE as u64) / ((hi - lo) as u64)) as u32
    }
}

/// Min-max normalization of a signature collection. Blank signatures (raw
/// brightness 0) neither enter the extrema nor are rescaled: they come back
/// unchanged, still in raw units. Every other signature has each component
/// rescaled onto 0 ..= SCALE by that component's own observed extrema; a
/// component that is constant over the non-blank signatures rescales to 0.
pub fn normalize_min_max(sigs: &Vec<Sig>) -> (r: Vec<Sig>)
    ensures
        r@ == mm_normalized(sigs@),
{
    let ghost sv = sigs@;
    let n = sigs.len();
    let mut found = false;
    let mut lo_b: u32 = 0;
    let mut hi_b: u32 = 0;
    let mut lo_ex: u32 = 0;
    let mut hi_ex: u32 = 0;
    let mut lo_ey: u32 = 0;
    let mut hi_ey: u32 = 0;
    let mut i: usize = 0;
    while i < n
        invariant
            sigs@ == sv,
            n == sv.len(),
            i <= n,
            found == (min_raw(sv, Comp::B, i as nat) is Some),
            found == (max_raw(sv, Comp::B, i as nat) is Some),
            found == (min_raw(sv, Comp::Ex, i as nat) is Some),
            found == (max_raw(sv, Comp::Ex, i as nat) is Some),
            found == (min_raw(sv, Comp::Ey, i as nat) is Some),
            found == (max_raw(sv, Comp::Ey, i as nat) is Some),
            found ==> lo_b as int == min_raw(sv, Comp::B, i as nat)->Some_0,
            found ==> hi_b as int == max_raw(sv, Comp::B, i as nat)->Some_0,
            found ==> lo_ex as int == min_raw(sv, Comp::Ex, i as nat)->Some_0,
            found ==> hi_ex as int == max_raw(sv, Comp::Ex, i as nat)->Some_0,
            found ==> lo_ey as int == min_raw(sv, Comp::Ey, i as nat)->Some_0,
            found ==> hi_ey as int == max_raw(sv, Comp::Ey, i as nat)->Some_0,
        decreases n - i,
    {
        let s = sigs[i];
        if s.b != 0 {
            if !found {
                found = true;
                lo_b = s.b;
                hi_b = s.b;
                lo_ex = s.ex;
                hi_ex = s.ex;
                lo_ey = s.ey;
                hi_ey = s.ey;
            } else {
                if s.b < lo_b {
                    lo_b = s.b;
                }
                if s.b > hi_b {
                    hi_b = s.b;
                }
                if s.ex < lo_ex {
                    lo_ex = s.ex;
                }
                if s.ex > hi_ex {
                    hi_ex = s.ex;
                }
                if s.ey < lo_ey {
                    lo_ey = s.ey;
                }
                if s.ey > hi_ey {
                    hi_ey = s.ey;
                }
            }
        }
        i = i + 1;
    }
    let ghost target = mm_normalized(sv);
    let mut r: Vec<Sig> = Vec::new();
    let mut j: usize = 0;
    while j < n
        invariant
            sigs@ == sv,
            n == sv.len(),
            j <= n,
            target == mm_normalized(sv),
            target.len() == n,
            found == (min_raw(sv, Comp::B, n as nat) is Some),
            found ==> lo_b as int == mm_lo(sv, Comp::B),
            found ==> hi_b as int == mm_hi(sv, Comp::B),
            found ==> lo_ex as int == mm_lo(sv, Comp::Ex),
            found ==> hi_ex as int == mm_hi(sv, Comp::Ex),
            found ==> lo_ey as int == mm_lo(sv, Comp::Ey),
            found ==> hi_ey as int == mm_hi(sv, Comp::Ey),
            r@.len() == j,
            forall|k: int| 0 <= k < j ==> r@[k] == target[k],
        decreases n - j,
    {
        let s = sigs[j];
        if s.b == 0 {
            r.push(s);
        } else {
            proof {
                lemma_extrema_contain(sv, Comp::B, j as int, n as nat);
                lemma_extrema_contain(sv, Comp::Ex, j as int, n as nat);
                lemma_extrema_contain(sv, Comp::Ey, j as int, n as nat);
                lemma_mm_scale_range(s.b as int, lo_b as int, hi_b as int);
                lemma_mm_scale_range(s.ex as int, lo_ex as int, hi_ex as int);
                lemma_mm_scale_range(s.ey as int, lo_ey as int, hi_ey as int);
            }
            let nb = scale_value(s.b, lo_b, hi_b);
            let nex = scale_value(s.ex, lo_ex, hi_ex);
            let ney = scale_value(s.ey, lo_ey, hi_ey);
            r.push(Sig { b: nb, ex: nex, ey: ney });
        }
        j = j + 1;
    }
    proof {
        assert(r@ =~= target);
    }
    r
}

/// Strict "comes before" order used by the stable ranking of component `c`:
/// by value, ties broken by the original index.
pub open spec fn sorts_before(s: Seq<Sig>, c: Comp, j: int, i: int) -> bool {
    s[j].comp(c) < s[i].comp(c) || (s[j].comp(c) == s[i].comp(c) && j < i)
}

/// How many of the first `n` signatures come before signature `i` in the
/// stable order of component `c`.
pub open spec fn rank_below(s: Seq<Sig>, c: Comp, i: int, n: nat) -> nat
    decreases n,
{
    if n == 0 {
        0nat
    } else {
        rank_below(s, c, i, (n - 1) as nat) + if sorts_before(s, c, n - 1, i) {
            1nat
        } else {
            0nat
        }
    }
}

/// The rank of signature `i` under the stable order of component `c`: its
/// position in a stable sort of the whole collection by that component.
pub open spec fn rank(s: Seq<Sig>, c: Comp, i: int) -> nat {
    rank_below(s, c, i, s.len())
}

/// A rank scaled onto 0 ..= SCALE: rank k of n maps to k * SCALE / n.
pub open spec fn rank_value(k: int, n: int) -> int {
    k * SCALE / n
}

/// The whole collection after quantile normalization: every component of
/// every signature is replaced by its scaled rank among the pre-pass values
/// of that component.
pub open spec fn q_normalized(s: Seq<Sig>) -> Seq<Sig> {
    Seq::new(
        s.len(),
        |i: int|
            Sig {
                b: rank_value(rank(s, Comp::B, i) as int, s.len() as int) as u32,
                ex: rank_value(rank(s, Comp::Ex, i) as int, s.len() as int) as u32,
                ey: rank_value(rank(s, Comp::Ey, i) as int, s.len() as int) as u32,
            },
    )
}

/// A rank never exceeds the number of signatures ranked; a signature never
/// counts itself.
pub proof fn lemma_rank_below_le(s: Seq<Sig>, c: Comp, i: int, n: nat)
    ensures
        rank_below(s, c, i, n) <= n,
        0 <= i < n ==> rank_below(s, c, i, n) < n,
    decreases n,
{
    if n > 0 {
        lemma_rank_below_le(s, c, i, (n - 1) as nat);
    }
}

/// A scaled rank of k among n stays strictly under SCALE when k < n.
pub proof fn lemma_rank_value_range(k: int, n: int)
    requires
        0 <= k < n,
    ensures
        0 <= rank_value(k, n) < SCALE,
{
    vstd::arithmetic::mul::lemma_mul_nonnegative(k, SCALE as int);
    vstd::arithmetic::div_mod::lemma_div_pos_is_pos(k * SCALE, n);
    let q = rank_value(k, n);
    vstd::arithmetic::div_mod::lemma_fundamental_div_mod(k * SCALE, n);
    vstd::arithmetic::div_mod::lemma_mod_bound(k * SCALE, n);
    vstd::arithmetic::mul::lemma_mul_strict_inequality(k, n, SCALE as int);
    if q >= SCALE {
        vstd::arithmetic::mul::lemma_mul_inequality(SCALE as int, q, n);
        assert(SCALE * n <= q * n) by (nonlinear_arith)
            requires
                SCALE <= q,
                n > 0,
        ;
        assert(n * q <= k * SCALE);
        assert(n * q == q * n) by (nonlinear_arith);
        assert(k * SCALE == SCALE * k) by (nonlinear_arith);
        assert(SCALE * k < SCALE * n) by (nonlinear_arith)
            requires
                k < n,
                SCALE > 0,
        ;
    }
}

/// Quantile normalization of a signature collection: each of the three
/// components independently, every signature's component is replaced by its
/// scaled stable rank among the pre-pass values of that component. With n
/// signatures the new values are drawn from 0, SCALE/n, 2*SCALE/n, ...,
/// (n-1)*SCALE/n.
pub fn normalize_quantile(sigs: &Vec<Sig>) -> (r: Vec<Sig>)
    ensures
        r@ == q_normalized(sigs@),
{
    let ghost sv = sigs@;
    let ghost target = q_normalized(sv);
    let n = sigs.len();
    let mut r: Vec<Sig> = Vec::new();
    let mut i: usize = 0;
    while i < n
        invariant
            sigs@ == sv,
            n == sv.len(),
            i <= n,
            target == q_normalized(sv),
            target.len() == n,
            r@.len() == i,
            forall|k: int| 0 <= k < i ==> r@[k] == target[k],
        decreases n - i,
    {
        let si = sigs[i];
        let mut rb: usize = 0;
        let mut rex: usize = 0;
        let mut rey: usize = 0;
        let mut j: usize = 0;
        while j < n
            invariant
                sigs@ == sv,
                n == sv.len(),
                i < n,
                si == sv[i as int],
                j <= n,
                rb == rank_below(sv, Comp::B, i as int, j as nat),
                rex == rank_below(sv, Comp::Ex, i as int, j as nat),
                rey == rank_below(sv, Comp::Ey, i as int, j as nat),
            decreases n - j,
        {
            proof {
                lemma_rank_below_le(sv, Comp::B, i as int, j as nat);
                lemma_rank_below_le(sv, Comp::Ex, i as int, j as nat);
                lemma_rank_below_le(sv, Comp::Ey, i as int, j as nat);
            }
            let sj = sigs[j];
            if sj.b < si.b || (sj.b == si.b && j < i) {
                rb = rb + 1;
            }
            if sj.ex < si.ex || (sj.ex == si.ex && j < i) {
                rex = rex + 1;
            }
            if sj.ey < si.ey || (sj.ey == si.ey && j < i) {
                rey = rey + 1;
            }
            j = j + 1;
        }
        proof {
            lemma_rank_below_le(sv, Comp::B, i as int, n as nat);
            lemma_rank_below_le(sv, Comp::Ex, i as int, n as nat);
            lemma_rank_below_le(sv, Comp::Ey, i as int, n as nat);
            lemma_rank_value_range(rb as int, n as int);
            lemma_rank_value_range(rex as int, n as int);
            lemma_rank_value_range(rey as int, n as int);
        }
        let vb = ((rb as u128) * (SCALE as u128) / (n as u128)) as u32;
        let vex = ((rex as u128) * (SCALE as u128) / (n as u128)) as u32;
        let vey = ((rey as u128) * (SCALE as u128) / (n as u128)) as u32;
        r.push(Sig { b: vb, ex: vex, ey: vey });
        i = i + 1;
    }
    proof {
        assert(r@ =~= target);
    }
    r
}

/// An earlier signature in the stable order never overtakes a later one:
/// its rank stays strictly below.
proof fn lemma_rank_mono(s: Seq<Sig>, c: Comp, j: int, i: int, n: nat)
    requires
        sorts_before(s, c, j, i),
    ensures
        rank_below(s, c, j, n) <= rank_below(s, c, i, n),
        0 <= j < n ==> rank_below(s, c, j, n) < rank_below(s, c, i, n),
    decreases n,
{
    if n > 0 {
        lemma_rank_mono(s, c, j, i, (n - 1) as nat);
        let x = n - 1;
        if sorts_before(s, c, x, j) {
            assert(sorts_before(s, c, x, i));
        }
        if x == j {
            assert(!sorts_before(s, c, j, j));
        }
    }
}

/// A signature that nothing sorts before has rank 0 among the first `n`.
proof fn lemma_rank_zero(s: Seq<Sig>, c: Comp, i: int, n: nat)
    requires
        forall|j: int| 0 <= j < n ==> !sorts_before(s, c, j, i),
    ensures
        rank_below(s, c, i, n) == 0,
    decreases n,
{
    if n > 0 {
        lemma_rank_zero(s, c, i, (n - 1) as nat);
    }
}

/// A signature that everything else sorts before has the top rank among the
/// first `n`.
proof fn lemma_rank_full(s: Seq<Sig>, c: Comp, i: int, n: nat)
    requires
        forall|j: int| 0 <= j < n && j != i ==> sorts_before(s, c, j, i),
    ensures
        rank_below(s, c, i, n) == n - (if 0 <= i < n { 1int } else { 0int }),
    decreases n,
{
    if n > 0 {
        lemma_rank_full(s, c, i, (n - 1) as nat);
        if n - 1 == i {
            assert(!sorts_before(s, c, i, i));
        }
    }
}

/// The lex-least index of the first `n` signatures under the stable order.
spec fn min_idx(s: Seq<Sig>, c: Comp, n: nat) -> int
    decreases n,
{
    if n <= 1 {
        0
    } else {
        let m = min_idx(s, c, (n - 1) as nat);
        if sorts_before(s, c, n - 1, m) {
            n - 1
        } else {
            m
        }
    }
}

/// The lex-least index sorts before every other index.
proof fn lemma_min_idx(s: Seq<Sig>, c: Comp, n: nat)
    requires
        n >= 1,
    ensures
        0 <= min_idx(s, c, n) < n,
        forall|j: int| 0 <= j < n && j != min_idx(s, c, n) ==> sorts_before(s, c, min_idx(s, c, n), j),
    decreases n,
{
    if n > 1 {
        lemma_min_idx(s, c, (n - 1) as nat);
        let m0 = min_idx(s, c, (n - 1) as nat);
        let m = min_idx(s, c, n);
        let x = n - 1;
        if sorts_before(s, c, x, m0) {
            assert forall|j: int| 0 <= j < n && j != m implies sorts_before(s, c, m, j) by {
                if j != m0 && j < n - 1 {
                    assert(sorts_before(s, c, m0, j));
                }
            }
        } else {
            assert(sorts_before(s, c, m0, x));
        }
    }
}

/// The lex-least index among the first `n` that signature `i` sorts before,
/// if any.
spec fn min_above(s: Seq<Sig>, c: Comp, i: int, n: nat) -> Option<int>
    decreases n,
{
    if n == 0 {
        None
    } else {
        let rest = min_above(s, c, i, (n - 1) as nat);
        if sorts_before(s, c, i, n - 1) {
            match rest {
                None => Some(n - 1),
                Some(m) => if sorts_before(s, c, n - 1, m) {
                    Some(n - 1)
                } else {
                    Some(m)
                },
            }
        } else {
            rest
        }
    }
}

/// What the lex-least successor satisfies: `i` sorts before it, and it
/// sorts before everything else `i` sorts before. When there is none,
/// `i` sorts before nothing.
proof fn lemma_min_above(s: Seq<Sig>, c: Comp, i: int, n: nat)
    ensures
        min_above(s, c, i, n) matches Some(m) ==> 0 <= m < n && sorts_before(s, c, i, m) && forall|
            j: int,
        | 0 <= j < n && sorts_before(s, c, i, j) && j != m ==> sorts_before(s, c, m, j),
        min_above(s, c, i, n) is None ==> forall|j: int| 0 <= j < n ==> !sorts_before(s, c, i, j),
    decreases n,
{
    if n > 0 {
        lemma_min_above(s, c, i, (n - 1) as nat);
        let rest = min_above(s, c, i, (n - 1) as nat);
        let x = n - 1;
        if sorts_before(s, c, i, x) {
            match rest {
                None => {
                    assert forall|j: int|
                        0 <= j < n && sorts_before(s, c, i, j) && j != x implies sorts_before(
                        s,
                        c,
                        x,
                        j,
                    ) by {
                        assert(!sorts_before(s, c, i, j) || j == x);
                    }
                },
                Some(m0) => {
                    if sorts_before(s, c, x, m0) {
                        assert forall|j: int|
                            0 <= j < n && sorts_before(s, c, i, j) && j != x implies sorts_before(
                            s,
                            c,
                            x,
                            j,
                        ) by {
                            if j != m0 && j < n - 1 {
                                assert(sorts_before(s, c, m0, j));
                            }
                        }
                    } else {
                        assert(x != m0);
                        assert(sorts_before(s, c, m0, x));
                    }
                },
            }
        }
    }
}

/// When the indices sorting before `m` are exactly those sorting before `i`
/// plus `i` itself, the rank of `m` is one more than the rank of `i`.
proof fn lemma_rank_shift(s: Seq<Sig>, c: Comp, i: int, m: int, n: nat)
    requires
        forall|x: int|
            0 <= x < n ==> (sorts_before(s, c, x, m) <==> (sorts_before(s, c, x, i) || x == i)),
    ensures
        rank_below(s, c, m, n) == rank_below(s, c, i, n) + (if 0 <= i < n {
            1int
        } else {
            0int
        }),
    decreases n,
{
    if n > 0 {
        lemma_rank_shift(s, c, i, m, (n - 1) as nat);
        let x = n - 1;
        assert(sorts_before(s, c, x, m) <==> (sorts_before(s, c, x, i) || x == i));
        if x == i {
            assert(!sorts_before(s, c, i, i));
        }
    }
}

/// Two distinct signatures never share a rank.
proof fn lemma_rank_injective(s: Seq<Sig>, c: Comp, i: int, j: int)
    requires
        0 <= i < s.len(),
        0 <= j < s.len(),
        i != j,
    ensures
        rank(s, c, i) != rank(s, c, j),
{
    if sorts_before(s, c, i, j) {
        lemma_rank_mono(s, c, i, j, s.len());
    } else {
        assert(sorts_before(s, c, j, i));
        lemma_rank_mono(s, c, j, i, s.len());
    }
}

/// Quantile surjectivity law: every rank from 0 to count - 1 is taken by
/// some signature, so with `lemma_quantile_permutation` the rank is a
/// bijection onto 0 .. count - 1.
pub proof fn lemma_rank_reaches(s: Seq<Sig>, c: Comp, k: int)
    requires
        0 <= k < s.len(),
    ensures
        exists|i: int| 0 <= i < s.len() && rank(s, c, i) == k,
    decreases k,
{
    let n = s.len();
    if k == 0 {
        lemma_min_idx(s, c, n);
        let m = min_idx(s, c, n);
        assert forall|j: int| 0 <= j < n implies !sorts_before(s, c, j, m) by {
            if j != m {
                assert(sorts_before(s, c, m, j));
            }
        }
        lemma_rank_zero(s, c, m, n);
        assert(0 <= m < n && rank(s, c, m) == 0);
    } else {
        lemma_rank_reaches(s, c, k - 1);
        let i = choose|i: int| 0 <= i < n && rank(s, c, i) == k - 1;
        lemma_min_above(s, c, i, n);
        match min_above(s, c, i, n) {
            None => {
                assert forall|j: int| 0 <= j < n && j != i implies sorts_before(s, c, j, i) by {
                    assert(!sorts_before(s, c, i, j));
                }
                lemma_rank_full(s, c, i, n);
                assert(false);
            },
            Some(m) => {
                assert forall|x: int|
                    0 <= x < n implies (sorts_before(s, c, x, m) <==> (sorts_before(s, c, x, i)
                    || x == i)) by {
                    if sorts_before(s, c, x, m) {
                        if x != i && !sorts_before(s, c, x, i) {
                            assert(sorts_before(s, c, i, x));
                            assert(x != m);
                            assert(sorts_before(s, c, m, x));
                            assert(false);
                        }
                    } else {
                        if x == i {
                            assert(sorts_before(s, c, i, m));
                            assert(false);
                        }
                        if sorts_before(s, c, x, i) {
                            assert(sorts_before(s, c, x, m));
                            assert(false);
                        }
                    }
                }
                lemma_rank_shift(s, c, i, m, n);
                assert(0 <= m < n && rank(s, c, m) == k);
            },
        }
    }
}

/// Quantile permutation law: for each component, the `n` signatures take
/// pairwise distinct ranks, all within 0 .. n - 1; with
/// `lemma_rank_reaches` every such rank is taken, so the rank is a
/// bijection onto 0 .. n - 1 and the multiset of post-normalization values
/// of the component is exactly the scaled ranks 0, SCALE/n, ...,
/// (n-1) * SCALE / n.
pub proof fn lemma_quantile_permutation(s: Seq<Sig>, c: Comp)
    ensures
        forall|i: int| 0 <= i < s.len() ==> 0 <= #[trigger] rank(s, c, i) < s.len(),
        forall|i: int, j: int|
            0 <= i < s.len() && 0 <= j < s.len() && i != j ==> rank(s, c, i) != rank(s, c, j),
{
    assert forall|i: int| 0 <= i < s.len() implies 0 <= #[trigger] rank(s, c, i) < s.len() by {
        lemma_rank_below_le(s, c, i, s.len());
    }
    assert forall|i: int, j: int|
        0 <= i < s.len() && 0 <= j < s.len() && i != j implies rank(s, c, i) != rank(s, c, j) by {
        lemma_rank_injective(s, c, i, j);
    }
}

/// How many of the first `n` signatures take rank `k` for component `c`.
pub open spec fn rank_count(s: Seq<Sig>, c: Comp, k: int, n: nat) -> nat
    decreases n,
{
    if n == 0 {
        0nat
    } else {
        rank_count(s, c, k, (n - 1) as nat) + if rank(s, c, n - 1) == k {
            1nat
        } else {
            0nat
        }
    }
}

/// A positive count names a signature with that rank.
proof fn lemma_rank_count_witness(s: Seq<Sig>, c: Comp, k: int, n: nat)
    requires
        rank_count(s, c, k, n) >= 1,
    ensures
        exists|i: int| 0 <= i < n && #[trigger] rank(s, c, i) == k,
    decreases n,
{
    if n > 0 {
        if rank(s, c, n - 1) == k {
            assert(0 <= n - 1 < n && rank(s, c, n - 1) == k);
        } else {
            lemma_rank_count_witness(s, c, k, (n - 1) as nat);
        }
    }
}

/// A signature with rank `k` makes the count of `k` positive.
proof fn lemma_witness_rank_count(s: Seq<Sig>, c: Comp, k: int, i: int, n: nat)
    requires
        0 <= i < n,
        rank(s, c, i) == k,
    ensures
        rank_count(s, c, k, n) >= 1,
    decreases n,
{
    if i < n - 1 {
        lemma_witness_rank_count(s, c, k, i, (n - 1) as nat);
    }
}

/// No rank is taken twice: the count of any rank is at most one.
proof fn lemma_rank_count_at_most_one(s: Seq<Sig>, c: Comp, k: int, n: nat)
    requires
        n <= s.len(),
    ensures
        rank_count(s, c, k, n) <= 1,
    decreases n,
{
    if n > 0 {
        lemma_rank_count_at_most_one(s, c, k, (n - 1) as nat);
        if rank(s, c, n - 1) == k && rank_count(s, c, k, (n - 1) as nat) >= 1 {
            lemma_rank_count_witness(s, c, k, (n - 1) as nat);
            let i = choose|i: int| 0 <= i < n - 1 && #[trigger] rank(s, c, i) == k;
            lemma_rank_injective(s, c, i, n - 1);
        }
    }
}

/// Quantile multiset law: every rank from 0 to count - 1 is taken by
/// exactly one signature, so for each component the multiset of
/// post-normalization values is exactly the scaled ranks 0, SCALE/n, ...,
/// (n-1) * SCALE / n, each contributed once.
pub proof fn lemma_quantile_rank_count(s: Seq<Sig>, c: Comp, k: int)
    requires
        0 <= k < s.len(),
    ensures
        rank_count(s, c, k, s.len()) == 1,
{
    lemma_rank_reaches(s, c, k);
    let i = choose|i: int| 0 <= i < s.len() && #[trigger] rank(s, c, i) == k;
    lemma_witness_rank_count(s, c, k, i, s.len());
    lemma_rank_count_at_most_one(s, c, k, s.len());
}

} // verus!
