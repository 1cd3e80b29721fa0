//! Nearest-neighbor glyph matching: a brute-force linear scan over the
//! alphabet under a weighted squared distance. Brightness differences are
//! down-weighted to one twentieth of the edge-energy differences, so the
//! whole metric is kept in integers by scaling every term by 20. The scan
//! keeps a strict minimum, so the first glyph achieving the least distance
//! wins every tie; the choice depends on the alphabet order and on nothing
//! else.

use vstd::prelude::*;

verus! {

use crate::sig::Sig;

/// The weighted squared distance between two signatures, scaled by 20 to
/// stay integral: (b difference)^2 + 20 * (edge differences)^2. Scaling every
/// term by the same positive factor changes no comparison.
pub open spec fn dist(a: Sig, b: Sig) -> int {
    (a.b - b.b) * (a.b - b.b) + 20 * ((a.ex - b.ex) * (a.ex - b.ex)) + 20 * ((a.ey - b.ey) * (a.ey
        - b.ey))
}

/// The index of the first signature among the first `n` of the alphabet at
/// the least distance from `t`.
pub open spec fn best_in(t: Sig, alphabet: Seq<Sig>, n: nat) -> int
    decreases n,
{
    if n <= 1 {
        0
    } else {
        let p = best_in(t, alphabet, (n - 1) as nat);
        if dist(t, alphabet[n - 1]) < dist(t, alphabet[p]) {
            n - 1
        } else {
            p
        }
    }
}

/// The index of the first alphabet signature at the least distance from `t`.
pub open spec fn best_index(t: Sig, alphabet: Seq<Sig>) -> int {
    best_in(t, alphabet, alphabet.len())
}

/// The chosen index is in range, achieves the least distance, and every
/// earlier index is strictly farther away.
pub proof fn lemma_best_in_props(t: Sig, alphabet: Seq<Sig>, n: nat)
    requires
        1 <= n <= alphabet.len(),
    ensures
        0 <= best_in(t, alphabet, n) < n,
        forall|j: int|
            0 <= j < n ==> dist(t, alphabet[best_in(t, alphabet, n)]) <= dist(t, #[trigger] alphabet[j]),
        forall|j: int|
            0 <= j < best_in(t, alphabet, n) ==> dist(t, #[trigger] alphabet[j]) > dist(
                t,
                alphabet[best_in(t, alphabet, n)],
            ),
    decreases n,
{
    if n > 1 {
        lemma_best_in_props(t, alphabet, (n - 1) as nat);
    }
}

/// The absolute difference of two component values.
fn abs_diff(a: u32, b: u32) -> (r: u32)
    ensures
        r as int == if a >= b {
            a - b
        } else {
            b - a
        },
{
    if a >= b {
        a - b
    } else {
        b - a
    }
}

/// The scaled weighted squared distance between two signatures, in
/// executable form.
pub fn distance(a: &Sig, b: &Sig) -> (r: u128)
    ensures
        r as int == dist(*a, *b),
{
    let db = abs_diff(a.b, b.b) as u64;
    let dex = abs_diff(a.ex, b.ex) as u64;
    let dey = abs_diff(a.ey, b.ey) as u64;
    proof {
        assert(db * db == (a.b - b.b) * (a.b - b.b)) by (nonlinear_arith)
            requires
                db == a.b - b.b || db == b.b - a.b,
        ;
        assert(dex * dex == (a.ex - b.ex) * (a.ex - b.ex)) by (nonlinear_arith)
            requires
                dex == a.ex - b.ex || dex == b.ex - a.ex,
        ;
        assert(dey * dey == (a.ey - b.ey) * (a.ey - b.ey)) by (nonlinear_arith)
            requires
                dey == a.ey - b.ey || dey == b.ey - a.ey,
        ;
        assert(db * db <= 0xffff_ffff_ffff_ffff) by (nonlinear_arith)
            requires
                db < 0x1_0000_0000,
        ;
        assert(dex * dex <= 0xffff_ffff_ffff_ffff) by (nonlinear_arith)
            requires
                dex < 0x1_0000_0000,
        ;
        assert(dey * dey <= 0xffff_ffff_ffff_ffff) by (nonlinear_arith)
            requires
                dey < 0x1_0000_0000,
        ;
    }
    let sb = (db * db) as u128;
    let sex = (dex * dex) as u128;
    let sey = (dey * dey) as u128;
    sb + 20 * sex + 20 * sey
}

/// Finds the alphabet signature nearest to `target` under the weighted
/// squared distance: a linear scan keeping the strict minimum, so of equally
/// near signatures the one earliest in the alphabet wins.
pub fn best_match(target: &Sig, alphabet: &Vec<Sig>) -> (r: usize)
    requires
        alphabet@.len() >= 1,
    ensures
        r < alphabet@.len(),
        r == best_index(*target, alphabet@),
        forall|j: int|
            0 <= j < alphabet@.len() ==> dist(*target, alphabet@[r as int]) <= dist(
                *target,
                #[trigger] alphabet@[j],
            ),
        forall|j: int|
            0 <= j < r ==> dist(*target, #[trigger] alphabet@[j]) > dist(*target, alphabet@[r as int]),
{
    let ghost av = alphabet@;
    let n = alphabet.len();
    let mut best: usize = 0;
    let mut best_d: u128 = distance(target, &alphabet[0]);
    let mut i: usize = 1;
    while i < n
        invariant
            alphabet@ == av,
            n == av.len(),
            1 <= i <= n,
            best < i,
            best == best_in(*target, av, i as nat),
            best_d as int == dist(*target, av[best as int]),
        decreases n - i,
    {
        let d = distance(target, &alphabet[i]);
        if d < best_d {
            best = i;
            best_d = d;
        }
        i = i + 1;
    }
    proof {
        lemma_best_in_props(*target, av, n as nat);
    }
    best
}

/// Tie-break stability law: of two alphabet entries with identical
/// signatures, the matcher never chooses the later one — the
/// lower-indexed entry wins for every target.
pub proof fn lemma_tie_break(t: Sig, alphabet: Seq<Sig>, i: int, j: int)
    requires
        0 <= i < j < alphabet.len(),
        alphabet[i] == alphabet[j],
    ensures
        best_index(t, alphabet) != j,
{
    lemma_best_in_props(t, alphabet, alphabet.len());
    let m = best_index(t, alphabet);
    if m == j {
        assert(dist(t, alphabet[i]) == dist(t, alphabet[j]));
    }
}

} // verus!
