//! Levenshtein edit distance over Unicode scalar values, computed by the
//! classic row-by-row dynamic program and proved against the recursive
//! definition.
use vstd::prelude::*;
use crate::text::chars_vec;

verus! {

pub open spec fn min2(x: int, y: int) -> int {
    if x <= y {
        x
    } else {
        y
    }
}

/// Minimum number of character insertions, deletions and substitutions
/// turning `a` into `b`.
pub open spec fn spec_lev(a: Seq<char>, b: Seq<char>) -> int
    decreases a.len() + b.len(),
{
    if a.len() == 0 {
        b.len() as int
    } else if b.len() == 0 {
        a.len() as int
    } else {
        let del = spec_lev(a.drop_last(), b) + 1;
        let ins = spec_lev(a, b.drop_last()) + 1;
        let sub = spec_lev(a.drop_last(), b.drop_last()) + if a.last() == b.last() {
            0int
        } else {
            1int
        };
        min2(min2(del, ins), sub)
    }
}

pub proof fn lemma_lev_bounds(a: Seq<char>, b: Seq<char>)
    ensures
        0 <= spec_lev(a, b) <= a.len() + b.len(),
    decreases a.len() + b.len(),
{
    if a.len() != 0 && b.len() != 0 {
        lemma_lev_bounds(a.drop_last(), b);
        lemma_lev_bounds(a, b.drop_last());
        lemma_lev_bounds(a.drop_last(), b.drop_last());
    }
}

/// The distance of a string to itself is zero.
pub proof fn lemma_lev_self(a: Seq<char>)
    ensures
        spec_lev(a, a) == 0,
    decreases a.len(),
{
    if a.len() > 0 {
        lemma_lev_self(a.drop_last());
        lemma_lev_bounds(a.drop_last(), a);
        lemma_lev_bounds(a, a.drop_last());
        lemma_lev_bounds(a.drop_last(), a.drop_last());
    }
}

fn lev_chars(a: &Vec<char>, b: &Vec<char>) -> (r: usize)
    requires
        a@.len() + b@.len() < usize::MAX,
    ensures
        r == spec_lev(a@, b@),
{
    let la = a.len();
    let lb = b.len();
    let mut prev: Vec<usize> = Vec::new();
    let mut j: usize = 0;
    while j <= lb
        invariant
            j <= lb + 1,
            lb == b@.len(),
            la == a@.len(),
            la + lb < usize::MAX,
            prev@.len() == j,
            forall|jj: int| 0 <= jj < j ==> prev@[jj] == spec_lev(a@.take(0), b@.take(jj)),
        decreases lb + 1 - j,
    {
        proof {
            assert(a@.take(0) =~= Seq::<char>::empty());
            assert(b@.take(j as int).len() == j);
        }
        prev.push(j);
        j = j + 1;
    }
    let mut i: usize = 0;
    while i < la
        invariant
            i <= la,
            lb == b@.len(),
            la == a@.len(),
            la + lb < usize::MAX,
            prev@.len() == lb + 1,
            forall|jj: int|
                0 <= jj <= lb ==> prev@[jj] == spec_lev(a@.take(i as int), b@.take(jj)),
        decreases la - i,
    {
        let mut cur: Vec<usize> = Vec::new();
        proof {
            lemma_lev_bounds(a@.take(i + 1), b@.take(0));
            assert(b@.take(0) =~= Seq::<char>::empty());
            assert(a@.take(i + 1).len() == i + 1);
        }
        cur.push(i + 1);
        let mut j: usize = 1;
        while j <= lb
            invariant
                1 <= j <= lb + 1,
                i < la,
                lb == b@.len(),
                la == a@.len(),
                la + lb < usize::MAX,
                prev@.len() == lb + 1,
                forall|jj: int|
                    0 <= jj <= lb ==> prev@[jj] == spec_lev(a@.take(i as int), b@.take(jj)),
                cur@.len() == j,
                forall|jj: int|
                    0 <= jj < j ==> cur@[jj] == spec_lev(a@.take(i + 1), b@.take(jj)),
            decreases lb + 1 - j,
        {
            let cost: usize = if a[i] == b[j - 1] {
                0
            } else {
                1
            };
            proof {
                let ap = a@.take(i + 1);
                let bp = b@.take(j as int);
                assert(ap.drop_last() =~= a@.take(i as int));
                assert(bp.drop_last() =~= b@.take(j - 1));
                assert(ap.last() == a@[i as int]);
                assert(bp.last() == b@[j - 1]);
                lemma_lev_bounds(a@.take(i as int), bp);
                lemma_lev_bounds(ap, b@.take(j - 1));
                lemma_lev_bounds(a@.take(i as int), b@.take(j - 1));
            }
            let del = prev[j] + 1;
            let ins = cur[j - 1] + 1;
            let sub = prev[j - 1] + cost;
            let mut d = if del <= ins {
                del
            } else {
                ins
            };
            if sub < d {
                d = sub;
            }
            cur.push(d);
            j = j + 1;
        }
        prev = cur;
        i = i + 1;
    }
    proof {
        assert(a@.take(la as int) =~= a@);
        assert(b@.take(lb as int) =~= b@);
    }
    prev[lb]
}

/// Levenshtein distance between two strings, over their characters.
pub fn levenshtein(a: &str, b: &str) -> (r: usize)
    requires
        a@.len() + b@.len() < usize::MAX,
    ensures
        r == spec_lev(a@, b@),
{
    let va = chars_vec(a);
    let vb = chars_vec(b);
    lev_chars(&va, &vb)
}

} // verus!
