//! Per-field similarity: plain Jaro plus a length-normalized Levenshtein
//! term make up eighty percent of the score, and an exact phonetic-code
//! match adds a flat twenty percent. A variation-aware wrapper takes the
//! best score over a base string and the normalized forms of its raw
//! surface variants.
use vstd::prelude::*;
use vstd::arithmetic::div_mod::{lemma_div_is_ordered, lemma_fundamental_div_mod_converse_div};
use crate::jaro::{jaro, spec_jaro_frac, Frac};
use crate::levenshtein::{levenshtein, spec_lev, min2};
use crate::normalize::{normalize, spec_normalize};
use crate::phonetic::{aramix_soundex, spec_soundex};
use vstd::string::StrSliceExecFns;

verus! {

/// Longest name, in characters, that the exact-fraction scorer accepts.
/// The bound keeps every intermediate product of the composite score
/// inside fixed-width machine arithmetic.
pub const MAX_NAME_LEN: usize = 50;

/// The length-normalized Levenshtein term `1 - min(lev, |a|) / max(|a|, 1)`
/// as an exact fraction. The first argument is the query side and sets the
/// length scale.
pub open spec fn spec_lev_norm_frac(a: Seq<char>, b: Seq<char>) -> (int, int) {
    let la = a.len() as int;
    let d = if la >= 1 {
        la
    } else {
        1
    };
    (d - min2(spec_lev(a, b), la), d)
}

/// The pair score `((jaro + lev_norm)/2) * 0.8 + 0.2 * [codes equal]`,
/// over the common denominator `5 * jd * ld`.
pub open spec fn spec_score_pair_frac(a: Seq<char>, b: Seq<char>) -> (int, int) {
    let jf = spec_jaro_frac(a, b);
    let lf = spec_lev_norm_frac(a, b);
    let sn = jf.0 * lf.1 + lf.0 * jf.1;
    let sd = jf.1 * lf.1;
    let bonus = if spec_soundex(a) == spec_soundex(b) {
        1int
    } else {
        0int
    };
    (2 * sn + bonus * sd, 5 * sd)
}

/// The `(phonetic + jaro) / 2` helper used for the two top-weighted
/// fields.
pub open spec fn spec_combo_frac(a: Seq<char>, b: Seq<char>) -> (int, int) {
    let jf = spec_jaro_frac(a, b);
    let p = if spec_soundex(a) == spec_soundex(b) {
        1int
    } else {
        0int
    };
    (p * jf.1 + jf.0, 2 * jf.1)
}

/// Strictly-less comparison of two nonnegative fractions.
pub open spec fn frac_lt(x: (int, int), y: (int, int)) -> bool {
    x.0 * y.1 < y.0 * x.1
}

/// Best pair score of the query against the base and each normalized raw
/// variation; an equal later score does not displace an earlier one.
pub open spec fn spec_best_frac(a: Seq<char>, base: Seq<char>, vars: Seq<Seq<char>>) -> (int, int)
    decreases vars.len(),
{
    if vars.len() == 0 {
        spec_score_pair_frac(a, base)
    } else {
        let prev = spec_best_frac(a, base, vars.drop_last());
        let cand = spec_score_pair_frac(a, spec_normalize(vars.last()));
        if frac_lt(prev, cand) {
            cand
        } else {
            prev
        }
    }
}

/// Round `p / q` to the nearest integer, half up.
pub open spec fn spec_round_half_up(p: int, q: int) -> int {
    (2 * p + q) / (2 * q)
}

pub proof fn lemma_round_half_up_bounds(p: int, q: int)
    requires
        0 < q,
        0 <= p <= 100 * q,
    ensures
        0 <= spec_round_half_up(p, q) <= 100,
{
    lemma_div_is_ordered(0, 2 * p + q, 2 * q);
    lemma_div_is_ordered(2 * p + q, 201 * q, 2 * q);
    lemma_fundamental_div_mod_converse_div(201 * q, 2 * q, 100, q);
    assert(100 * (2 * q) + q == 201 * q) by (nonlinear_arith);
}

/// Half-up rounding of a ratio no greater than one hundred.
pub fn round_pct(num: u64, den: u64) -> (r: u64)
    requires
        0 < den <= 45000000000000000,
        num <= 100 * den,
    ensures
        r as int == spec_round_half_up(num as int, den as int),
        r <= 100,
{
    proof {
        lemma_round_half_up_bounds(num as int, den as int);
    }
    (2 * num + den) / (2 * den)
}

/// Half-up rounding for the wide accumulators of the composite score.
pub fn round_pct_wide(num: u128, den: u128) -> (r: u64)
    requires
        0 < den <= 1000000000000000000000000000000000000,
        num <= 100 * den,
    ensures
        r as int == spec_round_half_up(num as int, den as int),
        r <= 100,
{
    proof {
        lemma_round_half_up_bounds(num as int, den as int);
    }
    let r = (2 * num + den) / (2 * den);
    r as u64
}

pub proof fn lemma_jaro_den_small(a: Seq<char>, b: Seq<char>)
    requires
        a.len() <= MAX_NAME_LEN,
        b.len() <= MAX_NAME_LEN,
    ensures
        0 < spec_jaro_frac(a, b).1 <= 375000,
        0 <= spec_jaro_frac(a, b).0 <= spec_jaro_frac(a, b).1,
{
    crate::jaro::lemma_jaro_range(a, b);
    let la = a.len() as int;
    let lb = b.len() as int;
    if la != 0 && lb != 0 {
        let m = crate::jaro::spec_jaro_m(a, b);
        crate::jaro::lemma_jaro_m_t_bounds(a, b);
        if m != 0 {
            assert(3 * m * la * lb <= 375000) by (nonlinear_arith)
                requires
                    0 < m <= la,
                    0 < la <= 50,
                    0 < lb <= 50,
            ;
        }
    }
}

/// Exact pair score of two already-normalized strings. The query is the
/// first argument; its length sets the Levenshtein scale.
pub fn score_pair_with_soundex(norm_s1: &str, norm_s2: &str) -> (r: Frac)
    requires
        norm_s1@.len() <= MAX_NAME_LEN,
        norm_s2@.len() <= MAX_NAME_LEN,
    ensures
        (r.num as int, r.den as int) == spec_score_pair_frac(norm_s1@, norm_s2@),
        0 < r.den <= 93750000,
        r.num <= r.den,
{
    proof {
        lemma_jaro_den_small(norm_s1@, norm_s2@);
    }
    let jf = jaro(norm_s1, norm_s2);
    let lv = levenshtein(norm_s1, norm_s2);
    let la = norm_s1.unicode_len();
    let d: u64 = if la >= 1 {
        la as u64
    } else {
        1
    };
    let capped: u64 = if lv < la {
        lv as u64
    } else {
        la as u64
    };
    let ln_: u64 = d - capped;
    let c1 = aramix_soundex(norm_s1);
    let c2 = aramix_soundex(norm_s2);
    let bonus: u64 = if c1 == c2 {
        1
    } else {
        0
    };
    proof {
        let jn = jf.num as int;
        let jd = jf.den as int;
        let lni = ln_ as int;
        let ldi = d as int;
        assert(jn * ldi <= 375000 * 50 && lni * jd <= 50 * 375000 && jd * ldi <= 375000 * 50)
            by (nonlinear_arith)
            requires
                0 <= jn <= jd <= 375000,
                0 <= lni <= ldi <= 50,
        ;
        assert(2 * (jn * ldi + lni * jd) + 1 * (jd * ldi) <= 5 * (jd * ldi)) by (nonlinear_arith)
            requires
                0 <= jn <= jd,
                0 <= lni <= ldi,
                0 < jd,
                0 < ldi,
        ;
        assert(0 < jd * ldi) by (nonlinear_arith)
            requires
                0 < jd,
                0 < ldi,
        ;
    }
    let sn: u64 = jf.num * d + ln_ * jf.den;
    let sd: u64 = jf.den * d;
    Frac { num: 2 * sn + bonus * sd, den: 5 * sd }
}

/// Average of the phonetic 0/1 match and the Jaro similarity, as an
/// exact fraction.
pub fn combo(norm_a: &str, norm_b: &str) -> (r: Frac)
    requires
        norm_a@.len() <= MAX_NAME_LEN,
        norm_b@.len() <= MAX_NAME_LEN,
    ensures
        (r.num as int, r.den as int) == spec_combo_frac(norm_a@, norm_b@),
        0 < r.den <= 750000,
        r.num <= r.den,
{
    proof {
        lemma_jaro_den_small(norm_a@, norm_b@);
    }
    let jf = jaro(norm_a, norm_b);
    let c1 = aramix_soundex(norm_a);
    let c2 = aramix_soundex(norm_b);
    let p: u64 = if c1 == c2 {
        1
    } else {
        0
    };
    Frac { num: p * jf.den + jf.num, den: 2 * jf.den }
}

/// Best score of the query against the base string and every normalized
/// raw variation. The variations are raw surface forms; each is
/// normalized here, once, before scoring.
pub fn best_score_against_variations(norm_input: &str, norm_base: &str, variations: &Vec<String>)
    -> (r: Frac)
    requires
        norm_input@.len() <= MAX_NAME_LEN,
        norm_base@.len() <= MAX_NAME_LEN,
        forall|i: int|
            0 <= i < variations@.len() ==> spec_normalize(#[trigger] variations@[i]@).len()
                <= MAX_NAME_LEN,
    ensures
        (r.num as int, r.den as int) == spec_best_frac(
            norm_input@,
            norm_base@,
            variations.deep_view(),
        ),
        0 < r.den <= 93750000,
        r.num <= r.den,
        !frac_lt(
            (r.num as int, r.den as int),
            spec_score_pair_frac(norm_input@, norm_base@),
        ),
{
    let mut best = score_pair_with_soundex(norm_input, norm_base);
    let mut i: usize = 0;
    proof {
        assert(variations.deep_view().take(0) =~= Seq::<Seq<char>>::empty());
    }
    while i < variations.len()
        invariant
            i <= variations@.len(),
            norm_input@.len() <= MAX_NAME_LEN,
            norm_base@.len() <= MAX_NAME_LEN,
            forall|k: int|
                0 <= k < variations@.len() ==> spec_normalize(#[trigger] variations@[k]@).len()
                    <= MAX_NAME_LEN,
            (best.num as int, best.den as int) == spec_best_frac(
                norm_input@,
                norm_base@,
                variations.deep_view().take(i as int),
            ),
            0 < best.den <= 93750000,
            best.num <= best.den,
        decreases variations@.len() - i,
    {
        let nv = normalize(variations[i].as_str());
        let s = score_pair_with_soundex(norm_input, nv.as_str());
        proof {
            let pre = variations.deep_view().take(i as int);
            let cur = variations.deep_view().take(i + 1);
            assert(cur.drop_last() =~= pre);
            assert(cur.last() == variations.deep_view()[i as int]);
            assert(variations.deep_view()[i as int] == variations@[i as int]@);
            assert((best.num as int) * (s.den as int) <= 93750000 * 93750000 && (s.num as int) * (
            best.den as int) <= 93750000 * 93750000) by (nonlinear_arith)
                requires
                    0 <= best.num <= 93750000,
                    0 <= s.den <= 93750000,
                    0 <= s.num <= 93750000,
                    0 <= best.den <= 93750000,
            ;
        }
        if best.num * s.den < s.num * best.den {
            best = s;
        }
        i = i + 1;
    }
    proof {
        assert(variations.deep_view().take(variations@.len() as int) =~= variations.deep_view());
        lemma_best_frac_monotone(norm_input@, norm_base@, variations.deep_view());
    }
    best
}

proof fn lemma_frac_le_trans(x: (int, int), y: (int, int), z: (int, int))
    requires
        0 < x.1,
        0 < y.1,
        0 < z.1,
        !frac_lt(y, x),
        !frac_lt(z, y),
    ensures
        !frac_lt(z, x),
{
    assert(x.0 * z.1 <= z.0 * x.1) by (nonlinear_arith)
        requires
            0 < x.1 && 0 < y.1 && 0 < z.1,
            x.0 * y.1 <= y.0 * x.1,
            y.0 * z.1 <= z.0 * y.1,
    ;
}

proof fn lemma_best_frac_den(a: Seq<char>, base: Seq<char>, vars: Seq<Seq<char>>)
    ensures
        spec_best_frac(a, base, vars).1 == spec_score_pair_frac(a, base).1 || exists|i: int|
            0 <= i < vars.len() && spec_best_frac(a, base, vars).1 == spec_score_pair_frac(
                a,
                spec_normalize(#[trigger] vars[i]),
            ).1,
    decreases vars.len(),
{
    if vars.len() > 0 {
        lemma_best_frac_den(a, base, vars.drop_last());
    }
}

/// The best-of-variations score never falls below the plain pair score
/// of query and base.
pub proof fn lemma_best_frac_monotone(a: Seq<char>, base: Seq<char>, vars: Seq<Seq<char>>)
    ensures
        !frac_lt(spec_best_frac(a, base, vars), spec_score_pair_frac(a, base)),
    decreases vars.len(),
{
    lemma_score_pair_frac_range(a, base);
    if vars.len() > 0 {
        lemma_best_frac_monotone(a, base, vars.drop_last());
        let prev = spec_best_frac(a, base, vars.drop_last());
        let cand = spec_score_pair_frac(a, spec_normalize(vars.last()));
        if frac_lt(prev, cand) {
            lemma_score_pair_frac_range(a, spec_normalize(vars.last()));
            lemma_best_frac_pos_den(a, base, vars.drop_last());
            lemma_frac_le_trans(spec_score_pair_frac(a, base), prev, cand);
        }
    }
}

proof fn lemma_best_frac_pos_den(a: Seq<char>, base: Seq<char>, vars: Seq<Seq<char>>)
    ensures
        0 < spec_best_frac(a, base, vars).1,
    decreases vars.len(),
{
    lemma_score_pair_frac_range(a, base);
    if vars.len() > 0 {
        lemma_best_frac_pos_den(a, base, vars.drop_last());
        lemma_score_pair_frac_range(a, spec_normalize(vars.last()));
    }
}

/// Range law: a pair score is a well-formed fraction between zero and
/// one.
pub proof fn lemma_score_pair_frac_range(a: Seq<char>, b: Seq<char>)
    ensures
        0 < spec_score_pair_frac(a, b).1,
        0 <= spec_score_pair_frac(a, b).0 <= spec_score_pair_frac(a, b).1,
{
    crate::jaro::lemma_jaro_range(a, b);
    crate::levenshtein::lemma_lev_bounds(a, b);
    let jf = spec_jaro_frac(a, b);
    let lf = spec_lev_norm_frac(a, b);
    let bonus: int = if spec_soundex(a) == spec_soundex(b) {
        1
    } else {
        0
    };
    assert(0 < jf.1 * lf.1 && 0 <= jf.0 * lf.1 + lf.0 * jf.1 && 2 * (jf.0 * lf.1 + lf.0 * jf.1)
        + bonus * (jf.1 * lf.1) <= 5 * (jf.1 * lf.1)) by (nonlinear_arith)
        requires
            0 <= jf.0 <= jf.1,
            0 < jf.1,
            0 <= lf.0 <= lf.1,
            0 < lf.1,
            0 <= bonus <= 1,
    ;
}

/// Reflexivity law: a string scored against itself earns exactly one.
pub proof fn lemma_score_pair_frac_self(a: Seq<char>)
    ensures
        spec_score_pair_frac(a, a).0 == spec_score_pair_frac(a, a).1,
{
    crate::jaro::lemma_jaro_self(a);
    crate::jaro::lemma_jaro_range(a, a);
    crate::levenshtein::lemma_lev_self(a);
    let jf = spec_jaro_frac(a, a);
    let lf = spec_lev_norm_frac(a, a);
    assert(lf.0 == lf.1 && lf.1 >= 1);
    assert(2 * (jf.0 * lf.1 + lf.0 * jf.1) + 1 * (jf.1 * lf.1) == 5 * (jf.1 * lf.1))
        by (nonlinear_arith)
        requires
            jf.0 == jf.1,
            lf.0 == lf.1,
    ;
}

} // verus!
