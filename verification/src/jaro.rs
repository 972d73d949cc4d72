//! Jaro similarity over Unicode scalar values, with no prefix boost.
//! The value is kept as an exact fraction of integers, so the scorer
//! that builds on it can round once, exactly, at the end.
use vstd::prelude::*;
use crate::text::chars_vec;

verus! {

/// An exact nonnegative fraction; `den` is always positive.
pub struct Frac {
    pub num: u64,
    pub den: u64,
}

pub open spec fn max2(x: int, y: int) -> int {
    if x >= y {
        x
    } else {
        y
    }
}

/// The half-window within which a character of `a` may match one of `b`.
pub open spec fn spec_window(la: int, lb: int) -> int {
    let half = max2(la, lb) / 2;
    if half > 0 {
        half - 1
    } else {
        0
    }
}

pub open spec fn win_lo(i: int, w: int) -> int {
    if i > w {
        i - w
    } else {
        0
    }
}

pub open spec fn win_hi(i: int, w: int, lb: int) -> int {
    if lb <= i + w + 1 {
        lb
    } else {
        i + w + 1
    }
}

/// The first not-yet-used position of `b` in `[j, hi)` holding `c`.
pub open spec fn first_free(c: char, b: Seq<char>, used: Seq<bool>, j: int, hi: int) -> Option<
    int,
>
    decreases hi - j when j <= hi
{
    if j >= hi {
        None
    } else if 0 <= j < used.len() && 0 <= j < b.len() && !used[j] && b[j] == c {
        Some(j)
    } else {
        first_free(c, b, used, j + 1, hi)
    }
}

/// The used-flags of `b` after the greedy match scan has handled
/// positions `i..` of `a`, starting from flags `used`.
pub open spec fn scan_used(a: Seq<char>, b: Seq<char>, w: int, i: int, used: Seq<bool>) -> Seq<
    bool,
>
    decreases a.len() - i when 0 <= i <= a.len()
{
    if i >= a.len() {
        used
    } else {
        let hi = win_hi(i, w, b.len() as int);
        let lo = if win_lo(i, w) <= hi {
            win_lo(i, w)
        } else {
            hi
        };
        match first_free(a[i], b, used, lo, hi) {
            Some(j) => scan_used(a, b, w, i + 1, used.update(j, true)),
            None => scan_used(a, b, w, i + 1, used),
        }
    }
}

/// The characters of `a` that find a match, in order of position in `a`.
pub open spec fn scan_matched(a: Seq<char>, b: Seq<char>, w: int, i: int, used: Seq<bool>) -> Seq<
    char,
>
    decreases a.len() - i when 0 <= i <= a.len()
{
    if i >= a.len() {
        Seq::empty()
    } else {
        let hi = win_hi(i, w, b.len() as int);
        let lo = if win_lo(i, w) <= hi {
            win_lo(i, w)
        } else {
            hi
        };
        match first_free(a[i], b, used, lo, hi) {
            Some(j) => seq![a[i]] + scan_matched(a, b, w, i + 1, used.update(j, true)),
            None => scan_matched(a, b, w, i + 1, used),
        }
    }
}

/// The characters of `b` at used positions, in order of position in `b`.
pub open spec fn taken_chars(b: Seq<char>, used: Seq<bool>, j: int) -> Seq<char>
    decreases b.len() - j when 0 <= j <= b.len()
{
    if j >= b.len() {
        Seq::empty()
    } else if 0 <= j < used.len() && used[j] {
        seq![b[j]] + taken_chars(b, used, j + 1)
    } else {
        taken_chars(b, used, j + 1)
    }
}

/// Positions where the two matched sequences disagree.
pub open spec fn mismatch_count(x: Seq<char>, y: Seq<char>) -> int
    decreases x.len(),
{
    if x.len() == 0 || y.len() == 0 {
        0
    } else {
        (if x.first() != y.first() {
            1int
        } else {
            0int
        }) + mismatch_count(x.drop_first(), y.drop_first())
    }
}

pub open spec fn all_false(n: int) -> Seq<bool> {
    Seq::new(n as nat, |i: int| false)
}

/// Number of matches of the greedy scan.
pub open spec fn spec_jaro_m(a: Seq<char>, b: Seq<char>) -> int {
    scan_matched(a, b, spec_window(a.len() as int, b.len() as int), 0, all_false(
        b.len() as int,
    )).len() as int
}

/// Floored half-count of out-of-order matches.
pub open spec fn spec_jaro_t(a: Seq<char>, b: Seq<char>) -> int {
    let w = spec_window(a.len() as int, b.len() as int);
    let used = scan_used(a, b, w, 0, all_false(b.len() as int));
    mismatch_count(scan_matched(a, b, w, 0, all_false(b.len() as int)), taken_chars(b, used, 0))
        / 2
}

/// The Jaro similarity as an exact fraction:
/// `(m/la + m/lb + (m-t)/m) / 3` over the common denominator
/// `3*m*la*lb`, with the empty and matchless cases set apart.
pub open spec fn spec_jaro_frac(a: Seq<char>, b: Seq<char>) -> (int, int) {
    let la = a.len() as int;
    let lb = b.len() as int;
    if la == 0 && lb == 0 {
        (1, 1)
    } else if la == 0 || lb == 0 {
        (0, 1)
    } else {
        let m = spec_jaro_m(a, b);
        let t = spec_jaro_t(a, b);
        if m == 0 {
            (0, 1)
        } else {
            (m * m * (la + lb) + (m - t) * la * lb, 3 * m * la * lb)
        }
    }
}

proof fn lemma_first_free_props(c: char, b: Seq<char>, used: Seq<bool>, j: int, hi: int)
    requires
        0 <= j <= hi,
        hi <= b.len(),
        used.len() == b.len(),
    ensures
        match first_free(c, b, used, j, hi) {
            Some(k) => j <= k < hi && !used[k] && b[k] == c,
            None => true,
        },
    decreases hi - j,
{
    if j < hi {
        if !(!used[j] && b[j] == c) {
            lemma_first_free_props(c, b, used, j + 1, hi);
        }
    }
}

pub open spec fn count_from(u: Seq<bool>, j: int) -> int
    decreases u.len() - j when 0 <= j <= u.len()
{
    if j >= u.len() {
        0
    } else {
        (if u[j] {
            1int
        } else {
            0int
        }) + count_from(u, j + 1)
    }
}

proof fn lemma_count_from_update(u: Seq<bool>, jj: int, k: int)
    requires
        0 <= jj < u.len(),
        !u[jj],
        0 <= k <= u.len(),
    ensures
        count_from(u.update(jj, true), k) == count_from(u, k) + if k <= jj {
            1int
        } else {
            0int
        },
    decreases u.len() - k,
{
    if k < u.len() {
        lemma_count_from_update(u, jj, k + 1);
    }
}

proof fn lemma_count_from_le(u: Seq<bool>, j: int)
    requires
        0 <= j <= u.len(),
    ensures
        count_from(u, j) <= u.len() - j,
        0 <= count_from(u, j),
    decreases u.len() - j,
{
    if j < u.len() {
        lemma_count_from_le(u, j + 1);
    }
}

proof fn lemma_scan_counts(a: Seq<char>, b: Seq<char>, w: int, i: int, used: Seq<bool>)
    requires
        0 <= i <= a.len(),
        0 <= w,
        used.len() == b.len(),
    ensures
        scan_used(a, b, w, i, used).len() == b.len(),
        count_from(scan_used(a, b, w, i, used), 0) == count_from(used, 0) + scan_matched(
            a,
            b,
            w,
            i,
            used,
        ).len(),
        scan_matched(a, b, w, i, used).len() <= a.len() - i,
    decreases a.len() - i,
{
    if i < a.len() {
        let hi = win_hi(i, w, b.len() as int);
        let lo = if win_lo(i, w) <= hi {
            win_lo(i, w)
        } else {
            hi
        };
        lemma_first_free_props(a[i], b, used, lo, hi);
        match first_free(a[i], b, used, lo, hi) {
            Some(j) => {
                lemma_count_from_update(used, j, 0);
                lemma_scan_counts(a, b, w, i + 1, used.update(j, true));
            },
            None => {
                lemma_scan_counts(a, b, w, i + 1, used);
            },
        }
    }
}

proof fn lemma_taken_len(b: Seq<char>, used: Seq<bool>, j: int)
    requires
        0 <= j <= b.len(),
        used.len() == b.len(),
    ensures
        taken_chars(b, used, j).len() == count_from(used, j),
    decreases b.len() - j,
{
    if j < b.len() {
        lemma_taken_len(b, used, j + 1);
    }
}

proof fn lemma_mismatch_bounds(x: Seq<char>, y: Seq<char>)
    ensures
        0 <= mismatch_count(x, y) <= x.len(),
    decreases x.len(),
{
    if x.len() > 0 && y.len() > 0 {
        lemma_mismatch_bounds(x.drop_first(), y.drop_first());
    }
}

/// The match count never exceeds either length, and the mismatch count
/// never exceeds the match count.
pub proof fn lemma_jaro_m_t_bounds(a: Seq<char>, b: Seq<char>)
    ensures
        0 <= spec_jaro_m(a, b) <= a.len(),
        spec_jaro_m(a, b) <= b.len(),
        0 <= spec_jaro_t(a, b) <= spec_jaro_m(a, b),
{
    let w = spec_window(a.len() as int, b.len() as int);
    let init = all_false(b.len() as int);
    lemma_count_from_le(init, 0);
    assert(count_from(init, 0) == 0) by {
        lemma_all_false_zero(init, 0);
    }
    lemma_scan_counts(a, b, w, 0, init);
    lemma_count_from_le(scan_used(a, b, w, 0, init), 0);
    lemma_mismatch_bounds(
        scan_matched(a, b, w, 0, init),
        taken_chars(b, scan_used(a, b, w, 0, init), 0),
    );
}

proof fn lemma_all_false_zero(u: Seq<bool>, j: int)
    requires
        0 <= j <= u.len(),
        forall|k: int| 0 <= k < u.len() ==> !u[k],
    ensures
        count_from(u, j) == 0,
    decreases u.len() - j,
{
    if j < u.len() {
        lemma_all_false_zero(u, j + 1);
    }
}

/// The fraction is well-formed and never exceeds one.
pub proof fn lemma_jaro_range(a: Seq<char>, b: Seq<char>)
    ensures
        spec_jaro_frac(a, b).1 > 0,
        0 <= spec_jaro_frac(a, b).0 <= spec_jaro_frac(a, b).1,
{
    let la = a.len() as int;
    let lb = b.len() as int;
    if la != 0 && lb != 0 {
        let m = spec_jaro_m(a, b);
        let t = spec_jaro_t(a, b);
        lemma_jaro_m_t_bounds(a, b);
        if m != 0 {
            assert(m * m * (la + lb) + (m - t) * la * lb >= 0) by (nonlinear_arith)
                requires
                    0 <= t <= m,
                    0 < la,
                    0 < lb,
            ;
            assert(m * m * (la + lb) + (m - t) * la * lb <= 3 * m * la * lb) by (nonlinear_arith)
                requires
                    0 <= t,
                    0 < m <= la,
                    m <= lb,
            ;
            assert(3 * m * la * lb > 0) by (nonlinear_arith)
                requires
                    0 < m && 0 < la && 0 < lb,
            ;
        }
    }
}

pub open spec fn prefix_true(n: int, i: int) -> Seq<bool> {
    Seq::new(n as nat, |k: int| k < i)
}

proof fn lemma_ff_reaches(c: char, b: Seq<char>, used: Seq<bool>, j: int, tgt: int, hi: int)
    requires
        0 <= j <= tgt < hi <= b.len(),
        used.len() == b.len(),
        forall|k: int| j <= k < tgt ==> used[k],
        !used[tgt],
        b[tgt] == c,
    ensures
        first_free(c, b, used, j, hi) == Some(tgt),
    decreases tgt - j,
{
    if j < tgt {
        lemma_ff_reaches(c, b, used, j + 1, tgt, hi);
    }
}

proof fn lemma_scan_self(a: Seq<char>, w: int, i: int)
    requires
        0 <= i <= a.len(),
        0 <= w,
    ensures
        scan_used(a, a, w, i, prefix_true(a.len() as int, i)) == prefix_true(
            a.len() as int,
            a.len() as int,
        ),
        scan_matched(a, a, w, i, prefix_true(a.len() as int, i)) == a.skip(i),
    decreases a.len() - i,
{
    let n = a.len() as int;
    if i >= n {
        assert(prefix_true(n, i) =~= prefix_true(n, n));
        assert(a.skip(i) =~= Seq::<char>::empty());
    } else {
        let used = prefix_true(n, i);
        let hi = win_hi(i, w, n);
        let lo0 = win_lo(i, w);
        let lo = if lo0 <= hi {
            lo0
        } else {
            hi
        };
        assert(i < hi);
        assert(lo <= i);
        lemma_ff_reaches(a[i], a, used, lo, i, hi);
        assert(used.update(i, true) =~= prefix_true(n, i + 1));
        lemma_scan_self(a, w, i + 1);
        assert(seq![a[i]] + a.skip(i + 1) =~= a.skip(i));
    }
}

proof fn lemma_taken_all(b: Seq<char>, used: Seq<bool>, j: int)
    requires
        0 <= j <= b.len(),
        used.len() == b.len(),
        forall|k: int| 0 <= k < used.len() ==> used[k],
    ensures
        taken_chars(b, used, j) == b.skip(j),
    decreases b.len() - j,
{
    if j >= b.len() {
        assert(b.skip(j) =~= Seq::<char>::empty());
    } else {
        lemma_taken_all(b, used, j + 1);
        assert(seq![b[j]] + b.skip(j + 1) =~= b.skip(j));
    }
}

proof fn lemma_mismatch_self(x: Seq<char>)
    ensures
        mismatch_count(x, x) == 0,
    decreases x.len(),
{
    if x.len() > 0 {
        lemma_mismatch_self(x.drop_first());
    }
}

/// A string is phonetically identical to itself: the Jaro fraction of
/// `(a, a)` is exactly one.
pub proof fn lemma_jaro_self(a: Seq<char>)
    ensures
        spec_jaro_frac(a, a).0 == spec_jaro_frac(a, a).1,
{
    let n = a.len() as int;
    if n > 0 {
        let w = spec_window(n, n);
        assert(prefix_true(n, 0) =~= all_false(n));
        lemma_scan_self(a, w, 0);
        assert(a.skip(0) =~= a);
        assert(spec_jaro_m(a, a) == n);
        let used = scan_used(a, a, w, 0, all_false(n));
        assert(forall|k: int| 0 <= k < used.len() ==> used[k]);
        lemma_taken_all(a, used, 0);
        lemma_mismatch_self(a);
        assert(spec_jaro_t(a, a) == 0);
        assert(n * n * (n + n) + (n - 0) * n * n == 3 * n * n * n) by (nonlinear_arith);
    }
}

fn find_free(c: char, b: &Vec<char>, flags: &Vec<bool>, lo: usize, hi: usize) -> (r: Option<usize>)
    requires
        lo <= hi,
        hi <= b@.len(),
        flags@.len() == b@.len(),
    ensures
        match r {
            Some(j) => lo <= j < hi && Some(j as int) == first_free(
                c,
                b@,
                flags@,
                lo as int,
                hi as int,
            ),
            None => first_free(c, b@, flags@, lo as int, hi as int) is None,
        },
{
    let mut j = lo;
    while j < hi
        invariant
            lo <= j <= hi,
            hi <= b@.len(),
            flags@.len() == b@.len(),
            first_free(c, b@, flags@, lo as int, hi as int) == first_free(
                c,
                b@,
                flags@,
                j as int,
                hi as int,
            ),
        decreases hi - j,
    {
        if !flags[j] && b[j] == c {
            return Some(j);
        }
        j = j + 1;
    }
    None
}

/// The match count and floored transposition half-count of the greedy
/// Jaro scan.
fn jaro_m_t(a: &Vec<char>, b: &Vec<char>) -> (r: (usize, usize))
    requires
        a@.len() <= 1000000,
        b@.len() <= 1000000,
    ensures
        r.0 == spec_jaro_m(a@, b@),
        r.1 == spec_jaro_t(a@, b@),
{
    let la = a.len();
    let lb = b.len();
    let mx = if la >= lb {
        la
    } else {
        lb
    };
    let half = mx / 2;
    let w: usize = if half > 0 {
        half - 1
    } else {
        0
    };
    proof {
        assert(w as int == spec_window(la as int, lb as int));
    }
    let mut flags: Vec<bool> = Vec::new();
    let mut j0: usize = 0;
    while j0 < lb
        invariant
            j0 <= lb,
            lb == b@.len(),
            flags@.len() == j0,
            forall|k: int| 0 <= k < j0 ==> !flags@[k],
        decreases lb - j0,
    {
        flags.push(false);
        j0 = j0 + 1;
    }
    proof {
        assert(flags@ =~= all_false(lb as int));
    }
    let ghost init = flags@;
    let mut am: Vec<char> = Vec::new();
    let mut i: usize = 0;
    while i < la
        invariant
            i <= la,
            la == a@.len(),
            lb == b@.len(),
            la <= 1000000,
            lb <= 1000000,
            w <= 500000,
            flags@.len() == lb,
            w as int == spec_window(la as int, lb as int),
            init == all_false(lb as int),
            scan_used(a@, b@, w as int, 0, init) == scan_used(a@, b@, w as int, i as int, flags@),
            scan_matched(a@, b@, w as int, 0, init) == am@ + scan_matched(
                a@,
                b@,
                w as int,
                i as int,
                flags@,
            ),
        decreases la - i,
    {
        let lo0 = if i > w {
            i - w
        } else {
            0
        };
        let hi_raw = i + w + 1;
        let hi = if lb <= hi_raw {
            lb
        } else {
            hi_raw
        };
        let lo = if lo0 <= hi {
            lo0
        } else {
            hi
        };
        proof {
            assert(lo0 as int == win_lo(i as int, w as int));
            assert(hi as int == win_hi(i as int, w as int, lb as int));
            assert(lo <= hi);
        }
        match find_free(a[i], b, &flags, lo, hi) {
            Some(j) => {
                flags.set(j, true);
                am.push(a[i]);
            },
            None => {},
        }
        proof {
            assert(scan_matched(a@, b@, w as int, 0, init) == am@ + scan_matched(
                a@,
                b@,
                w as int,
                i + 1,
                flags@,
            ));
        }
        i = i + 1;
    }
    // collect the matched characters of b, in order
    let mut bm: Vec<char> = Vec::new();
    let mut j: usize = 0;
    while j < lb
        invariant
            j <= lb,
            lb == b@.len(),
            flags@.len() == lb,
            taken_chars(b@, flags@, 0) == bm@ + taken_chars(b@, flags@, j as int),
        decreases lb - j,
    {
        if flags[j] {
            bm.push(b[j]);
        }
        j = j + 1;
    }
    // count transpositions pairwise
    let m = am.len();
    let mb = bm.len();
    let mut trans: usize = 0;
    let mut k: usize = 0;
    proof {
        lemma_mismatch_bounds(am@, bm@);
        assert(am@.skip(0) =~= am@);
        assert(bm@.skip(0) =~= bm@);
    }
    while k < m && k < mb
        invariant
            k <= m,
            k <= mb,
            m == am@.len(),
            mb == bm@.len(),
            trans <= k,
            mismatch_count(am@, bm@) == trans + mismatch_count(
                am@.skip(k as int),
                bm@.skip(k as int),
            ),
        decreases m - k,
    {
        proof {
            let x = am@.skip(k as int);
            let y = bm@.skip(k as int);
            assert(x.first() == am@[k as int]);
            assert(y.first() == bm@[k as int]);
            assert(x.drop_first() =~= am@.skip(k + 1));
            assert(y.drop_first() =~= bm@.skip(k + 1));
            lemma_mismatch_bounds(am@.skip(k + 1), bm@.skip(k + 1));
        }
        if am[k] != bm[k] {
            trans = trans + 1;
        }
        k = k + 1;
    }
    proof {
        if k == m {
            assert(am@.skip(m as int).len() == 0);
        } else {
            assert(bm@.skip(mb as int).len() == 0);
        }
        assert(mismatch_count(am@, bm@) == trans);
    }
    (m, trans / 2)
}

/// Jaro similarity of two strings as an exact fraction.
pub fn jaro(a: &str, b: &str) -> (r: Frac)
    requires
        a@.len() <= 1000000,
        b@.len() <= 1000000,
    ensures
        (r.num as int, r.den as int) == spec_jaro_frac(a@, b@),
        r.den > 0,
        r.num <= r.den,
{
    let va = chars_vec(a);
    let vb = chars_vec(b);
    let la = va.len();
    let lb = vb.len();
    proof {
        lemma_jaro_range(a@, b@);
    }
    if la == 0 && lb == 0 {
        return Frac { num: 1, den: 1 };
    }
    if la == 0 || lb == 0 {
        return Frac { num: 0, den: 1 };
    }
    let (m, t) = jaro_m_t(&va, &vb);
    if m == 0 {
        return Frac { num: 0, den: 1 };
    }
    proof {
        lemma_jaro_m_t_bounds(a@, b@);
        let mi = m as int;
        let ti = t as int;
        let lai = la as int;
        let lbi = lb as int;
        assert(mi * mi <= 1000000000000) by (nonlinear_arith)
            requires
                0 < mi <= 1000000,
        ;
        assert(mi * mi * (lai + lbi) <= 2000000000000000000) by (nonlinear_arith)
            requires
                0 <= mi * mi <= 1000000000000,
                0 <= lai + lbi <= 2000000,
        ;
        assert(0 <= (mi - ti) * lai <= 1000000000000) by (nonlinear_arith)
            requires
                0 <= mi - ti <= 1000000,
                0 <= lai <= 1000000,
        ;
        assert((mi - ti) * lai * lbi <= 1000000000000000000) by (nonlinear_arith)
            requires
                0 <= (mi - ti) * lai <= 1000000000000,
                0 <= lbi <= 1000000,
        ;
        assert(0 <= 3 * mi * lai <= 3000000000000) by (nonlinear_arith)
            requires
                0 < mi <= 1000000,
                0 < lai <= 1000000,
        ;
        assert(3 * mi * lai * lbi <= 3000000000000000000) by (nonlinear_arith)
            requires
                0 <= 3 * mi * lai <= 3000000000000,
                0 < lbi <= 1000000,
        ;
    }
    let num: u64 = (m as u64) * (m as u64) * ((la as u64) + (lb as u64)) + ((m - t) as u64) * (
    la as u64) * (lb as u64);
    let den: u64 = 3 * (m as u64) * (la as u64) * (lb as u64);
    Frac { num, den }
}

} // verus!
