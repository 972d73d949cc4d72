//! Canonicalization of Arabic name strings: diacritic stripping, letter
//! unification (including Lam-Alef ligature expansion), and removal of at
//! most one leading onomastic prefix.
use vstd::prelude::*;
use crate::text::{chars_vec, string_from_chars};

verus! {

/// The eight harakat marks that are stripped: fatha, tanwin fath, damma,
/// tanwin damm, kasra, tanwin kasr, shadda, sukun.
pub open spec fn is_diacritic(c: char) -> bool {
    c == '\u{064E}' || c == '\u{064B}' || c == '\u{064F}' || c == '\u{064C}'
        || c == '\u{0650}' || c == '\u{064D}' || c == '\u{0651}' || c == '\u{0652}'
}

pub open spec fn spec_strip_diacritics(s: Seq<char>) -> Seq<char>
    decreases s.len(),
{
    if s.len() == 0 {
        Seq::empty()
    } else if is_diacritic(s.last()) {
        spec_strip_diacritics(s.drop_last())
    } else {
        spec_strip_diacritics(s.drop_last()).push(s.last())
    }
}

/// A Lam-Alef presentation-form ligature (U+FEF5 through U+FEFC).
pub open spec fn is_lam_alef(c: char) -> bool {
    '\u{FEF5}' <= c <= '\u{FEFC}'
}

/// Letter unification: teh marbuta to heh, alef maqsura to yeh, hamza
/// carriers to their bare letters, and each Lam-Alef ligature to the
/// two-letter sequence lam + alef.
pub open spec fn unify_char(c: char) -> Seq<char> {
    if c == '\u{0629}' {  // teh marbuta -> heh
        seq!['\u{0647}']
    } else if c == '\u{0649}' {  // alef maqsura -> yeh
        seq!['\u{064A}']
    } else if c == '\u{0623}' || c == '\u{0625}' {  // alef with hamza above/below -> alef
        seq!['\u{0627}']
    } else if c == '\u{0624}' {  // waw with hamza -> waw
        seq!['\u{0648}']
    } else if c == '\u{0626}' {  // yeh with hamza -> yeh
        seq!['\u{064A}']
    } else if is_lam_alef(c) {
        seq!['\u{0644}', '\u{0627}']
    } else {
        seq![c]
    }
}

pub open spec fn spec_unify(s: Seq<char>) -> Seq<char>
    decreases s.len(),
{
    if s.len() == 0 {
        Seq::empty()
    } else {
        spec_unify(s.drop_last()) + unify_char(s.last())
    }
}

/// The leading prefixes that are standardized away, in the order they are
/// tried: al, bin, ibn, bint, abu, umm. Exactly the first match is removed.
pub open spec fn prefix_list() -> Seq<Seq<char>> {
    seq![
        seq!['\u{0627}', '\u{0644}'],  // al
        seq!['\u{0628}', '\u{0646}'],  // bin
        seq!['\u{0627}', '\u{0628}', '\u{0646}'],  // ibn
        seq!['\u{0628}', '\u{0646}', '\u{062A}'],  // bint
        seq!['\u{0623}', '\u{0628}', '\u{0648}'],  // abu
        seq!['\u{0623}', '\u{0645}'],  // umm
    ]
}

pub open spec fn has_prefix(s: Seq<char>, p: Seq<char>) -> bool {
    p.len() <= s.len() && s.take(p.len() as int) == p
}

pub open spec fn starts_with_listed_prefix(s: Seq<char>) -> bool {
    exists|k: int| 0 <= k < prefix_list().len() && has_prefix(s, #[trigger] prefix_list()[k])
}

pub open spec fn spec_strip_prefix(s: Seq<char>) -> Seq<char> {
    if has_prefix(s, prefix_list()[0]) {
        s.skip(2)
    } else if has_prefix(s, prefix_list()[1]) {
        s.skip(2)
    } else if has_prefix(s, prefix_list()[2]) {
        s.skip(3)
    } else if has_prefix(s, prefix_list()[3]) {
        s.skip(3)
    } else if has_prefix(s, prefix_list()[4]) {
        s.skip(3)
    } else if has_prefix(s, prefix_list()[5]) {
        s.skip(2)
    } else {
        s
    }
}

/// The full canonical form: diacritics stripped, letters unified, then at
/// most one leading prefix removed.
pub open spec fn spec_normalize(s: Seq<char>) -> Seq<char> {
    spec_strip_prefix(spec_unify(spec_strip_diacritics(s)))
}

fn strip_diacritics_chars(v: &Vec<char>) -> (r: Vec<char>)
    ensures
        r@ == spec_strip_diacritics(v@),
{
    let mut out: Vec<char> = Vec::new();
    let mut i: usize = 0;
    proof {
        assert(v@.take(0) =~= Seq::<char>::empty());
    }
    while i < v.len()
        invariant
            i <= v@.len(),
            out@ == spec_strip_diacritics(v@.take(i as int)),
        decreases v@.len() - i,
    {
        let c = v[i];
        proof {
            assert(v@.take(i + 1).drop_last() =~= v@.take(i as int));
            assert(v@.take(i + 1).last() == v@[i as int]);
        }
        if !(c == '\u{064E}' || c == '\u{064B}' || c == '\u{064F}' || c == '\u{064C}'
            || c == '\u{0650}' || c == '\u{064D}' || c == '\u{0651}' || c == '\u{0652}') {
            out.push(c);
        }
        i = i + 1;
    }
    proof {
        assert(v@.take(v@.len() as int) =~= v@);
    }
    out
}

fn unify_chars(v: &Vec<char>) -> (r: Vec<char>)
    ensures
        r@ == spec_unify(v@),
{
    let mut out: Vec<char> = Vec::new();
    let mut i: usize = 0;
    proof {
        assert(v@.take(0) =~= Seq::<char>::empty());
    }
    while i < v.len()
        invariant
            i <= v@.len(),
            out@ == spec_unify(v@.take(i as int)),
        decreases v@.len() - i,
    {
        let c = v[i];
        proof {
            assert(v@.take(i + 1).drop_last() =~= v@.take(i as int));
            assert(v@.take(i + 1).last() == v@[i as int]);
        }
        if c == '\u{0629}' {
            out.push('\u{0647}');
        } else if c == '\u{0649}' {
            out.push('\u{064A}');
        } else if c == '\u{0623}' || c == '\u{0625}' {
            out.push('\u{0627}');
        } else if c == '\u{0624}' {
            out.push('\u{0648}');
        } else if c == '\u{0626}' {
            out.push('\u{064A}');
        } else if '\u{FEF5}' <= c && c <= '\u{FEFC}' {
            out.push('\u{0644}');
            out.push('\u{0627}');
        } else {
            out.push(c);
        }
        proof {
            assert(out@ =~= spec_unify(v@.take(i as int)) + unify_char(v@[i as int]));
        }
        i = i + 1;
    }
    proof {
        assert(v@.take(v@.len() as int) =~= v@);
    }
    out
}

fn strip_prefix_chars(v: &Vec<char>) -> (r: Vec<char>)
    ensures
        r@ == spec_strip_prefix(v@),
{
    let n = v.len();
    let mut k: usize = 0;
    if n >= 2 && v[0] == '\u{0627}' && v[1] == '\u{0644}' {
        k = 2;
        proof {
            assert(v@.take(2) =~= prefix_list()[0]);
        }
    } else if n >= 2 && v[0] == '\u{0628}' && v[1] == '\u{0646}' {
        // "bin" is tried before "bint"; since "bint" begins with the same
        // two letters, a first-match scan strips those two either way.
        k = 2;
        proof {
            assert(v@.take(2) =~= prefix_list()[1]);
        }
    } else if n >= 3 && v[0] == '\u{0627}' && v[1] == '\u{0628}' && v[2] == '\u{0646}' {
        k = 3;
        proof {
            assert(v@.take(2) != prefix_list()[0]);
            assert(v@.take(2) != prefix_list()[1]);
            assert(v@.take(3) =~= prefix_list()[2]);
        }
    } else if n >= 3 && v[0] == '\u{0623}' && v[1] == '\u{0628}' && v[2] == '\u{0648}' {
        k = 3;
        proof {
            assert(v@.take(2) != prefix_list()[0]);
            assert(v@.take(2) != prefix_list()[1]);
            assert(v@.take(3) != prefix_list()[2]);
            assert(v@.take(3) != prefix_list()[3]);
            assert(v@.take(3) =~= prefix_list()[4]);
        }
    } else if n >= 2 && v[0] == '\u{0623}' && v[1] == '\u{0645}' {
        k = 2;
        proof {
            assert(v@.take(2) != prefix_list()[0]);
            assert(v@.take(2) != prefix_list()[1]);
            if n >= 3 {
                assert(v@.take(3) != prefix_list()[2]);
                assert(v@.take(3) != prefix_list()[3]);
                assert(v@.take(3) != prefix_list()[4]);
            }
            assert(v@.take(2) =~= prefix_list()[5]);
        }
    } else {
        proof {
            if n >= 2 {
                assert(v@.take(2) != prefix_list()[0]);
                assert(v@.take(2) != prefix_list()[1]);
                assert(v@.take(2) != prefix_list()[5]);
            }
            if n >= 3 {
                assert(v@.take(3) != prefix_list()[2]);
                assert(v@.take(3) != prefix_list()[3]);
                assert(v@.take(3) != prefix_list()[4]);
            }
        }
    }
    let mut out: Vec<char> = Vec::new();
    let mut i: usize = k;
    proof {
        assert(v@.subrange(k as int, k as int) =~= Seq::<char>::empty());
    }
    while i < n
        invariant
            k <= i <= n,
            n == v@.len(),
            out@ == v@.subrange(k as int, i as int),
        decreases n - i,
    {
        out.push(v[i]);
        proof {
            assert(v@.subrange(k as int, i + 1) =~= v@.subrange(k as int, i as int).push(
                v@[i as int],
            ));
        }
        i = i + 1;
    }
    proof {
        assert(v@.subrange(k as int, n as int) =~= v@.skip(k as int));
        if k == 0 {
            assert(v@.skip(0) =~= v@);
        }
    }
    out
}

/// Strip the eight harakat diacritics from a string.
pub fn remove_diacritics(text: &str) -> (r: String)
    ensures
        r@ == spec_strip_diacritics(text@),
{
    let v = chars_vec(text);
    let out = strip_diacritics_chars(&v);
    string_from_chars(&out)
}

/// Unify letter variants: teh marbuta, alef maqsura, hamza carriers, and
/// Lam-Alef ligatures.
pub fn normalize_arabic(text: &str) -> (r: String)
    ensures
        r@ == spec_unify(text@),
{
    let v = chars_vec(text);
    let out = unify_chars(&v);
    string_from_chars(&out)
}

/// Remove at most one leading prefix from the listed set, first match wins.
pub fn standardize_prefixes(text: &str) -> (r: String)
    ensures
        r@ == spec_strip_prefix(text@),
{
    let v = chars_vec(text);
    let out = strip_prefix_chars(&v);
    string_from_chars(&out)
}

/// The full normalizer: diacritics, then letter unification, then prefix
/// standardization, exactly once each.
pub fn normalize(text: &str) -> (r: String)
    ensures
        r@ == spec_normalize(text@),
{
    let v = chars_vec(text);
    let stripped = strip_diacritics_chars(&v);
    let unified = unify_chars(&stripped);
    let out = strip_prefix_chars(&unified);
    string_from_chars(&out)
}

/// A character that letter unification rewrites.
pub open spec fn is_unify_source(c: char) -> bool {
    c == '\u{0629}' || c == '\u{0649}' || c == '\u{0623}' || c == '\u{0625}'
        || c == '\u{0624}' || c == '\u{0626}' || is_lam_alef(c)
}

pub open spec fn diacritic_free(s: Seq<char>) -> bool {
    forall|i: int| 0 <= i < s.len() ==> !is_diacritic(#[trigger] s[i])
}

pub open spec fn unify_source_free(s: Seq<char>) -> bool {
    forall|i: int| 0 <= i < s.len() ==> !is_unify_source(#[trigger] s[i])
}

proof fn lemma_strip_diacritics_free(s: Seq<char>)
    ensures
        diacritic_free(spec_strip_diacritics(s)),
    decreases s.len(),
{
    if s.len() > 0 {
        lemma_strip_diacritics_free(s.drop_last());
        if !is_diacritic(s.last()) {
            let r = spec_strip_diacritics(s.drop_last()).push(s.last());
            assert forall|i: int| 0 <= i < r.len() implies !is_diacritic(r[i]) by {
                if i < r.len() - 1 {
                    assert(r[i] == spec_strip_diacritics(s.drop_last())[i]);
                }
            }
        }
    }
}

proof fn lemma_strip_diacritics_id(s: Seq<char>)
    requires
        diacritic_free(s),
    ensures
        spec_strip_diacritics(s) == s,
    decreases s.len(),
{
    if s.len() == 0 {
        assert(spec_strip_diacritics(s) =~= s);
    } else {
        assert(diacritic_free(s.drop_last()));
        lemma_strip_diacritics_id(s.drop_last());
        assert(spec_strip_diacritics(s) =~= s);
    }
}

proof fn lemma_unify_free(s: Seq<char>)
    ensures
        unify_source_free(spec_unify(s)),
        diacritic_free(s) ==> diacritic_free(spec_unify(s)),
    decreases s.len(),
{
    if s.len() > 0 {
        assert(diacritic_free(s) ==> diacritic_free(s.drop_last()));
        lemma_unify_free(s.drop_last());
        let r = spec_unify(s.drop_last()) + unify_char(s.last());
        assert forall|i: int| 0 <= i < r.len() implies !is_unify_source(r[i]) by {
            if i < spec_unify(s.drop_last()).len() {
                assert(r[i] == spec_unify(s.drop_last())[i]);
            } else {
                assert(r[i] == unify_char(s.last())[i - spec_unify(s.drop_last()).len()]);
            }
        }
        if diacritic_free(s) {
            assert forall|i: int| 0 <= i < r.len() implies !is_diacritic(r[i]) by {
                if i < spec_unify(s.drop_last()).len() {
                    assert(r[i] == spec_unify(s.drop_last())[i]);
                } else {
                    assert(r[i] == unify_char(s.last())[i - spec_unify(s.drop_last()).len()]);
                    assert(!is_diacritic(s.last()));
                }
            }
        }
    }
}

proof fn lemma_unify_id(s: Seq<char>)
    requires
        unify_source_free(s),
    ensures
        spec_unify(s) == s,
    decreases s.len(),
{
    if s.len() == 0 {
        assert(spec_unify(s) =~= s);
    } else {
        assert(unify_source_free(s.drop_last()));
        lemma_unify_id(s.drop_last());
        assert(!is_unify_source(s.last()));
        assert(unify_char(s.last()) =~= seq![s.last()]);
        assert(spec_unify(s) =~= s);
    }
}

proof fn lemma_skip_preserves(s: Seq<char>, k: int)
    requires
        0 <= k <= s.len(),
    ensures
        diacritic_free(s) ==> diacritic_free(s.skip(k)),
        unify_source_free(s) ==> unify_source_free(s.skip(k)),
{
    assert forall|i: int| 0 <= i < s.skip(k).len() implies s.skip(k)[i] == s[i + k] by {}
}

proof fn lemma_strip_prefix_preserves(s: Seq<char>)
    ensures
        diacritic_free(s) ==> diacritic_free(spec_strip_prefix(s)),
        unify_source_free(s) ==> unify_source_free(spec_strip_prefix(s)),
{
    if spec_strip_prefix(s) != s {
        if has_prefix(s, prefix_list()[0]) || has_prefix(s, prefix_list()[1]) || has_prefix(
            s,
            prefix_list()[5],
        ) {
            lemma_skip_preserves(s, 2);
        } else {
            lemma_skip_preserves(s, 3);
        }
    }
}

/// Idempotence of the normalizer. It holds for every string whose
/// normal form does not itself begin with one of the listed prefixes;
/// when it does (for instance a name that spells a prefix twice over),
/// a second pass would strip once more.
pub proof fn lemma_normalize_idempotent(s: Seq<char>)
    requires
        !starts_with_listed_prefix(spec_normalize(s)),
    ensures
        spec_normalize(spec_normalize(s)) == spec_normalize(s),
{
    let u = spec_unify(spec_strip_diacritics(s));
    let n = spec_strip_prefix(u);
    lemma_strip_diacritics_free(s);
    lemma_unify_free(spec_strip_diacritics(s));
    lemma_strip_prefix_preserves(u);
    lemma_strip_diacritics_id(n);
    lemma_unify_id(n);
    assert forall|k: int| 0 <= k < prefix_list().len() implies !has_prefix(
        n,
        #[trigger] prefix_list()[k],
    ) by {}
    assert(spec_strip_prefix(n) == n);
}

} // verus!
