//! The Aramix Soundex: an Arabic-tuned phonetic code of at most four
//! characters. The first character of the (pre-normalized) name passes
//! through verbatim; later characters map to digit classes, zeros are
//! dropped, and runs of one digit collapse.
use vstd::prelude::*;
use crate::text::{chars_vec, string_from_chars};

verus! {

/// The encoder's own pre-normalization: fold hamza forms away, unify
/// letter variants, and drop the harakat marks. Distinct from the general
/// normalizer: it also erases the bare hamza and folds alef madda.
pub open spec fn fold_char(c: char) -> Seq<char> {
    if c == '\u{0623}' || c == '\u{0625}' || c == '\u{0622}' {  // hamza/madda alefs -> alef
        seq!['\u{0627}']
    } else if c == '\u{0649}' || c == '\u{0626}' {  // alef maqsura, hamza yeh -> yeh
        seq!['\u{064A}']
    } else if c == '\u{0624}' {  // hamza waw -> waw
        seq!['\u{0648}']
    } else if c == '\u{0629}' {  // teh marbuta -> heh
        seq!['\u{0647}']
    } else if c == '\u{0621}' {  // bare hamza -> nothing
        Seq::empty()
    } else if crate::normalize::is_diacritic(c) {
        Seq::empty()
    } else {
        seq![c]
    }
}

pub open spec fn spec_fold(s: Seq<char>) -> Seq<char>
    decreases s.len(),
{
    if s.len() == 0 {
        Seq::empty()
    } else {
        spec_fold(s.drop_last()) + fold_char(s.last())
    }
}

/// The digit class of a consonant; '0' stands for "no class".
pub open spec fn digit_of(c: char) -> char {
    if c == '\u{0628}' || c == '\u{0641}' {  // beh, feh
        '1'
    } else if c == '\u{062C}' || c == '\u{0643}' || c == '\u{0642}' {  // jeem, kaf, qaf
        '2'
    } else if c == '\u{062F}' || c == '\u{062A}' || c == '\u{0636}' {  // dal, teh, dad
        '3'
    } else if c == '\u{0631}' || c == '\u{0644}' || c == '\u{0646}' {  // reh, lam, noon
        '4'
    } else if c == '\u{0633}' || c == '\u{0634}' || c == '\u{0632}' {  // seen, sheen, zain
        '5'
    } else if c == '\u{0637}' || c == '\u{0638}' || c == '\u{0635}' {  // tah, zah, sad
        '6'
    } else if c == '\u{0639}' || c == '\u{063A}' || c == '\u{062D}' {  // ain, ghain, hah
        '7'
    } else if c == '\u{062E}' || c == '\u{0647}' {  // khah, heh
        '8'
    } else if c == '\u{0645}' || c == '\u{0648}' {  // meem, waw
        '9'
    } else {
        '0'
    }
}

/// The digits contributed by positions `i..` of `s`, given the digit
/// last emitted: zeros are skipped and repeats of the last digit collapse.
pub open spec fn code_tail(s: Seq<char>, i: int, last: char) -> Seq<char>
    decreases s.len() - i when 0 <= i <= s.len()
{
    if i >= s.len() {
        Seq::empty()
    } else {
        let d = digit_of(s[i]);
        if d != '0' && d != last {
            seq![d] + code_tail(s, i + 1, d)
        } else {
            code_tail(s, i + 1, last)
        }
    }
}

/// The raw code of an already pre-normalized name, before truncation.
pub open spec fn spec_code_full(s: Seq<char>) -> Seq<char> {
    if s.len() == 0 {
        Seq::empty()
    } else {
        seq![s[0]] + code_tail(s, 1, '0')
    }
}

/// The code of an already pre-normalized name: first character verbatim,
/// then collapsed digits, truncated to four characters.
pub open spec fn spec_code(s: Seq<char>) -> Seq<char> {
    if spec_code_full(s).len() > 4 {
        spec_code_full(s).take(4)
    } else {
        spec_code_full(s)
    }
}

/// The complete encoder: pre-normalization then coding.
pub open spec fn spec_soundex(s: Seq<char>) -> Seq<char> {
    spec_code(spec_fold(s))
}

/// The encoder's internal pre-normalization, as an executable function.
pub fn normalize_arabic_letters(input: &str) -> (r: String)
    ensures
        r@ == spec_fold(input@),
{
    let v = chars_vec(input);
    let mut out: Vec<char> = Vec::new();
    let mut i: usize = 0;
    proof {
        assert(v@.take(0) =~= Seq::<char>::empty());
    }
    while i < v.len()
        invariant
            i <= v@.len(),
            out@ == spec_fold(v@.take(i as int)),
        decreases v@.len() - i,
    {
        let c = v[i];
        proof {
            assert(v@.take(i + 1).drop_last() =~= v@.take(i as int));
            assert(v@.take(i + 1).last() == v@[i as int]);
        }
        if c == '\u{0623}' || c == '\u{0625}' || c == '\u{0622}' {
            out.push('\u{0627}');
        } else if c == '\u{0649}' || c == '\u{0626}' {
            out.push('\u{064A}');
        } else if c == '\u{0624}' {
            out.push('\u{0648}');
        } else if c == '\u{0629}' {
            out.push('\u{0647}');
        } else if c == '\u{0621}' {
            // dropped
        } else if c == '\u{064E}' || c == '\u{064B}' || c == '\u{064F}' || c == '\u{064C}'
            || c == '\u{0650}' || c == '\u{064D}' || c == '\u{0651}' || c == '\u{0652}' {
            // dropped
        } else {
            out.push(c);
        }
        proof {
            assert(out@ =~= spec_fold(v@.take(i as int)) + fold_char(v@[i as int]));
        }
        i = i + 1;
    }
    proof {
        assert(v@.take(v@.len() as int) =~= v@);
    }
    string_from_chars(&out)
}

fn digit_class(c: char) -> (d: char)
    ensures
        d == digit_of(c),
{
    if c == '\u{0628}' || c == '\u{0641}' {
        '1'
    } else if c == '\u{062C}' || c == '\u{0643}' || c == '\u{0642}' {
        '2'
    } else if c == '\u{062F}' || c == '\u{062A}' || c == '\u{0636}' {
        '3'
    } else if c == '\u{0631}' || c == '\u{0644}' || c == '\u{0646}' {
        '4'
    } else if c == '\u{0633}' || c == '\u{0634}' || c == '\u{0632}' {
        '5'
    } else if c == '\u{0637}' || c == '\u{0638}' || c == '\u{0635}' {
        '6'
    } else if c == '\u{0639}' || c == '\u{063A}' || c == '\u{062D}' {
        '7'
    } else if c == '\u{062E}' || c == '\u{0647}' {
        '8'
    } else if c == '\u{0645}' || c == '\u{0648}' {
        '9'
    } else {
        '0'
    }
}

/// Encode an already pre-normalized name.
pub fn get_code(name: &str) -> (r: String)
    ensures
        r@ == spec_code(name@),
{
    let v = chars_vec(name);
    let mut out: Vec<char> = Vec::new();
    if v.len() == 0 {
        return string_from_chars(&out);
    }
    out.push(v[0]);
    let mut last: char = '0';
    let mut i: usize = 1;
    while i < v.len()
        invariant
            1 <= i <= v@.len(),
            seq![v@[0]] + code_tail(v@, 1, '0') == out@ + code_tail(v@, i as int, last),
        decreases v@.len() - i,
    {
        let d = digit_class(v[i]);
        if d != '0' && d != last {
            out.push(d);
            last = d;
        }
        i = i + 1;
    }
    if out.len() > 4 {
        out.truncate(4);
    }
    string_from_chars(&out)
}

/// The full encoder: pre-normalize, then code.
pub fn aramix_soundex(name: &str) -> (r: String)
    ensures
        r@ == spec_soundex(name@),
{
    let normalized = normalize_arabic_letters(name);
    get_code(normalized.as_str())
}

/// The code is never longer than four characters.
pub proof fn lemma_soundex_len(s: Seq<char>)
    ensures
        spec_soundex(s).len() <= 4,
{
}

proof fn lemma_code_tail_shape(s: Seq<char>, i: int, last: char)
    requires
        0 <= i <= s.len(),
    ensures
        forall|k: int|
            0 <= k < code_tail(s, i, last).len() ==> #[trigger] code_tail(s, i, last)[k] != '0',
        code_tail(s, i, last).len() > 0 ==> code_tail(s, i, last)[0] != last,
        forall|k: int|
            0 <= k < code_tail(s, i, last).len() - 1 ==> #[trigger] code_tail(s, i, last)[k]
                != code_tail(s, i, last)[k + 1],
    decreases s.len() - i,
{
    if i < s.len() {
        let d = digit_of(s[i]);
        if d != '0' && d != last {
            lemma_code_tail_shape(s, i + 1, d);
            let rest = code_tail(s, i + 1, d);
            let whole = seq![d] + rest;
            assert forall|k: int| 0 <= k < whole.len() - 1 implies #[trigger] whole[k] != whole[k
                + 1] by {
                if k == 0 {
                    if rest.len() > 0 {
                        assert(whole[1] == rest[0]);
                    }
                } else {
                    assert(whole[k] == rest[k - 1]);
                    assert(whole[k + 1] == rest[k]);
                }
            }
            assert forall|k: int| 0 <= k < whole.len() implies #[trigger] whole[k] != '0' by {
                if k > 0 {
                    assert(whole[k] == rest[k - 1]);
                }
            }
        } else {
            lemma_code_tail_shape(s, i + 1, last);
        }
    }
}

/// Run-length collapse: past the first character, the code never holds
/// the same digit twice in a row.
pub proof fn lemma_soundex_no_adjacent_repeat(s: Seq<char>)
    ensures
        forall|k: int|
            1 <= k < spec_soundex(s).len() - 1 ==> #[trigger] spec_soundex(s)[k] != spec_soundex(
                s,
            )[k + 1],
{
    let t = spec_fold(s);
    if t.len() > 0 {
        lemma_code_tail_shape(t, 1, '0');
        let tail = code_tail(t, 1, '0');
        let full = seq![t[0]] + tail;
        assert forall|k: int| 1 <= k < spec_soundex(s).len() - 1 implies #[trigger] spec_soundex(
            s,
        )[k] != spec_soundex(s)[k + 1] by {
            assert(spec_soundex(s)[k] == full[k]);
            assert(spec_soundex(s)[k + 1] == full[k + 1]);
            assert(full[k] == tail[k - 1]);
            assert(full[k + 1] == tail[k]);
        }
    }
}

/// Two characters that differ only as surface variants of one letter:
/// teh marbuta vs heh, alef maqsura vs yeh, hamza alef vs alef, madda
/// alef vs alef.
pub open spec fn variant_chars(c: char, d: char) -> bool {
    ||| c == d
    ||| (c == '\u{0629}' && d == '\u{0647}') || (c == '\u{0647}' && d == '\u{0629}')
    ||| (c == '\u{0649}' && d == '\u{064A}') || (c == '\u{064A}' && d == '\u{0649}')
    ||| (c == '\u{0623}' && d == '\u{0627}') || (c == '\u{0627}' && d == '\u{0623}')
    ||| (c == '\u{0622}' && d == '\u{0627}') || (c == '\u{0627}' && d == '\u{0622}')
}

/// Two strings that differ only by such surface variants, position by
/// position.
pub open spec fn surface_variants(s: Seq<char>, t: Seq<char>) -> bool {
    s.len() == t.len() && forall|i: int| 0 <= i < s.len() ==> variant_chars(#[trigger] s[i], t[i])
}

proof fn lemma_fold_variants(s: Seq<char>, t: Seq<char>)
    requires
        surface_variants(s, t),
    ensures
        spec_fold(s) == spec_fold(t),
    decreases s.len(),
{
    if s.len() > 0 {
        assert(surface_variants(s.drop_last(), t.drop_last()));
        lemma_fold_variants(s.drop_last(), t.drop_last());
        assert(variant_chars(s.last(), t.last()));
        assert(fold_char(s.last()) =~= fold_char(t.last()));
    }
}

/// Phonetic stability: names that differ only by surface variants of a
/// letter receive the same code.
pub proof fn lemma_soundex_surface_stable(s: Seq<char>, t: Seq<char>)
    requires
        surface_variants(s, t),
    ensures
        spec_soundex(s) == spec_soundex(t),
{
    lemma_fold_variants(s, t);
}

} // verus!
