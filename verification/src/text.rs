//! Character-level helpers shared by the normalizer, the phonetic encoder
//! and the string metrics: conversion between `&str` and `Vec<char>`,
//! equality and lexicographic comparison over character sequences.
use vstd::prelude::*;
use vstd::string::StrSliceExecFns;

verus! {

/// Collect the characters of a string slice into a vector, in order.
pub fn chars_vec(s: &str) -> (r: Vec<char>)
    ensures
        r@ == s@,
{
    let n = s.unicode_len();
    let mut r: Vec<char> = Vec::new();
    let mut i: usize = 0;
    while i < n
        invariant
            n == s@.len(),
            i <= n,
            r@ == s@.take(i as int),
        decreases n - i,
    {
        r.push(s.get_char(i));
        proof {
            assert(s@.take(i + 1 as int) =~= s@.take(i as int).push(s@[i as int]));
        }
        i = i + 1;
    }
    proof {
        assert(s@.take(n as int) =~= s@);
    }
    r
}

/// Relies on `String::from_iter` over `Iterator::cloned`: collecting the
/// characters of a vector builds the string spelling exactly those
/// characters in order.
#[verifier::external_body]
pub fn string_from_chars(v: &Vec<char>) -> (r: String)
    ensures
        r@ == v@,
{
    v.iter().collect()
}

/// Character-for-character equality of two string slices.
pub fn str_eq(a: &str, b: &str) -> (r: bool)
    ensures
        r == (a@ == b@),
{
    let la = a.unicode_len();
    let lb = b.unicode_len();
    if la != lb {
        proof {
            assert(a@ != b@) by {
                if a@ == b@ {
                    assert(a@.len() == b@.len());
                }
            }
        }
        return false;
    }
    let mut i: usize = 0;
    while i < la
        invariant
            la == a@.len(),
            la == b@.len(),
            i <= la,
            forall|j: int| 0 <= j < i ==> a@[j] == b@[j],
        decreases la - i,
    {
        if a.get_char(i) != b.get_char(i) {
            return false;
        }
        i = i + 1;
    }
    proof {
        assert(a@ =~= b@);
    }
    true
}

/// Strict lexicographic order on character sequences, by code point.
pub open spec fn lex_lt(a: Seq<char>, b: Seq<char>) -> bool
    decreases a.len(),
{
    if b.len() == 0 {
        false
    } else if a.len() == 0 {
        true
    } else if a[0] != b[0] {
        a[0] < b[0]
    } else {
        lex_lt(a.drop_first(), b.drop_first())
    }
}

pub proof fn lemma_lex_irrefl(a: Seq<char>)
    ensures
        !lex_lt(a, a),
    decreases a.len(),
{
    if a.len() > 0 {
        lemma_lex_irrefl(a.drop_first());
    }
}

pub proof fn lemma_lex_asym(a: Seq<char>, b: Seq<char>)
    requires
        lex_lt(a, b),
    ensures
        !lex_lt(b, a),
    decreases a.len(),
{
    if b.len() > 0 && a.len() > 0 && a[0] == b[0] {
        lemma_lex_asym(a.drop_first(), b.drop_first());
    }
}

pub proof fn lemma_lex_trans(a: Seq<char>, b: Seq<char>, c: Seq<char>)
    requires
        lex_lt(a, b),
        lex_lt(b, c),
    ensures
        lex_lt(a, c),
    decreases a.len(),
{
    if b.len() > 0 && c.len() > 0 && a.len() > 0 {
        if a[0] == b[0] && b[0] == c[0] {
            lemma_lex_trans(a.drop_first(), b.drop_first(), c.drop_first());
        }
    }
}

pub proof fn lemma_lex_connex(a: Seq<char>, b: Seq<char>)
    requires
        a != b,
        !lex_lt(a, b),
    ensures
        lex_lt(b, a),
    decreases a.len(),
{
    if a.len() == 0 && b.len() == 0 {
        assert(a =~= b);
    }
    if a.len() > 0 && b.len() > 0 && a[0] == b[0] {
        assert(a.drop_first() != b.drop_first()) by {
            if a.drop_first() == b.drop_first() {
                assert(a.drop_first() =~= a.skip(1));
                assert(b.drop_first() =~= b.skip(1));
                assert(a.skip(1).len() == a.len() - 1);
                assert(b.skip(1).len() == b.len() - 1);
                assert(a.skip(1) == b.skip(1));
                assert(a.len() == b.len());
                assert forall|k: int| 0 <= k < a.len() implies a[k] == b[k] by {
                    if k > 0 {
                        assert(a.skip(1)[k - 1] == a[k]);
                        assert(b.skip(1)[k - 1] == b[k]);
                    }
                }
                assert(a =~= b);
            }
        }
        lemma_lex_connex(a.drop_first(), b.drop_first());
    }
}

/// Compare two vectors of characters lexicographically by code point;
/// returns a negative report through the pair of flags:
/// `(true, _)` means `a < b`, `(false, true)` means `a == b`,
/// `(false, false)` means `b < a`.
pub fn lex_cmp(a: &Vec<char>, b: &Vec<char>) -> (r: (bool, bool))
    ensures
        r.0 == lex_lt(a@, b@),
        r.1 == (!r.0 && a@ == b@),
        !r.0 && !r.1 ==> lex_lt(b@, a@),
{
    let la = a.len();
    let lb = b.len();
    let mut i: usize = 0;
    proof {
        assert(a@.skip(0) =~= a@);
        assert(b@.skip(0) =~= b@);
    }
    loop
        invariant
            la == a@.len(),
            lb == b@.len(),
            i <= la,
            i <= lb,
            forall|j: int| 0 <= j < i ==> a@[j] == b@[j],
            lex_lt(a@, b@) == lex_lt(a@.skip(i as int), b@.skip(i as int)),
            lex_lt(b@, a@) == lex_lt(b@.skip(i as int), a@.skip(i as int)),
            (a@ == b@) == (a@.skip(i as int) == b@.skip(i as int)),
        decreases la - i,
    {
        if i == la && i == lb {
            proof {
                assert(a@.skip(i as int) =~= b@.skip(i as int));
            }
            return (false, true);
        }
        if i == la {
            // a is a proper prefix of b
            proof {
                assert(a@.skip(i as int).len() == 0);
                assert(b@.skip(i as int).len() > 0);
                assert(a@.skip(i as int) != b@.skip(i as int)) by {
                    assert(a@.skip(i as int).len() != b@.skip(i as int).len());
                }
            }
            return (true, false);
        }
        if i == lb {
            proof {
                assert(b@.skip(i as int).len() == 0);
                assert(a@.skip(i as int) != b@.skip(i as int)) by {
                    assert(a@.skip(i as int).len() != b@.skip(i as int).len());
                }
            }
            return (false, false);
        }
        let ca = a[i];
        let cb = b[i];
        if ca != cb {
            proof {
                let sa = a@.skip(i as int);
                let sb = b@.skip(i as int);
                assert(sa[0] == a@[i as int]);
                assert(sb[0] == b@[i as int]);
                assert(sa != sb) by {
                    if sa == sb {
                        assert(sa[0] == sb[0]);
                    }
                }
            }
            if ca < cb {
                return (true, false);
            } else {
                proof {
                    let sa = a@.skip(i as int);
                    let sb = b@.skip(i as int);
                    assert(sb[0] < sa[0]);
                    assert(lex_lt(sb, sa));
                }
                return (false, false);
            }
        }
        proof {
            let sa = a@.skip(i as int);
            let sb = b@.skip(i as int);
            assert(sa[0] == sb[0]);
            assert(sa.drop_first() =~= a@.skip(i + 1));
            assert(sb.drop_first() =~= b@.skip(i + 1));
            assert((sa == sb) == (a@.skip(i + 1) == b@.skip(i + 1))) by {
                if a@.skip(i + 1) == b@.skip(i + 1) {
                    assert forall|k: int| 0 <= k < sa.len() implies sa[k] == sb[k] by {
                        if k > 0 {
                            assert(sa[k] == sa.drop_first()[k - 1]);
                            assert(sb[k] == sb.drop_first()[k - 1]);
                        }
                    }
                    assert(sa =~= sb);
                }
            }
        }
        i = i + 1;
    }
}

} // verus!
