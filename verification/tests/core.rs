use aramix::levenshtein::levenshtein;
use aramix::jaro::jaro;
use aramix::normalize::{normalize, normalize_arabic, remove_diacritics, standardize_prefixes};
use aramix::phonetic::{aramix_soundex, get_code, normalize_arabic_letters};
use aramix::score::{best_score_against_variations, combo, score_pair_with_soundex};

#[test]
fn diacritics_are_stripped() {
    assert_eq!(remove_diacritics("أحمَد"), "أحمد");
    assert_eq!(remove_diacritics("مُحَمَّد"), "محمد");
    assert_eq!(remove_diacritics("بدون"), "بدون");
}

#[test]
fn letters_are_unified() {
    assert_eq!(normalize_arabic("ة"), "ه");
    assert_eq!(normalize_arabic("ى"), "ي");
    assert_eq!(normalize_arabic("أإؤئ"), "ااوي");
    assert_eq!(normalize_arabic("ﻻ"), "لا");
}

#[test]
fn one_prefix_is_stripped() {
    assert_eq!(standardize_prefixes("الحمامي"), "حمامي");
    assert_eq!(standardize_prefixes("بن علي"), " علي");
    assert_eq!(standardize_prefixes("أبو بكر"), " بكر");
    assert_eq!(standardize_prefixes("كمال"), "كمال");
    // only the first match is removed
    assert_eq!(standardize_prefixes("الالنور"), "النور");
}

#[test]
fn normalize_diacritic_and_hamza_variant() {
    // surface variants converge on one canonical form
    assert_eq!(normalize("أحمَد"), "احمد");
    assert_eq!(normalize("احمد"), "احمد");
}

#[test]
fn normalize_lam_alef_ligature() {
    assert_eq!(normalize("ﻻمين"), "لامين");
    assert_eq!(normalize("لامين"), "لامين");
}

#[test]
fn normalize_is_idempotent_on_names() {
    for s in ["أحمد", "بن علي", "طرابلسي", "ﻻمين", "الحمامي", "فاطمة", ""] {
        let once = normalize(s);
        assert_eq!(normalize(&once), once);
    }
}

#[test]
fn soundex_internal_prenormalization() {
    assert_eq!(normalize_arabic_letters("آدم"), "ادم");
    assert_eq!(normalize_arabic_letters("ءا"), "ا");
    assert_eq!(normalize_arabic_letters("سلمة"), "سلمه");
}

#[test]
fn soundex_code_of_known_names() {
    assert_eq!(aramix_soundex("طرابلسي"), "ط414");
    assert_eq!(aramix_soundex("تربلسي"), "ت414");
    assert_eq!(aramix_soundex("محمد"), "م793");
    assert_eq!(aramix_soundex(""), "");
}

#[test]
fn soundex_length_at_most_four() {
    for s in ["طرابلسي", "عبدالرحمان بن صالح", "a", "", "الحمامي"] {
        assert!(aramix_soundex(s).chars().count() <= 4);
    }
}

#[test]
fn soundex_collapses_runs_and_zeros() {
    // double letters of one class collapse, vowels contribute nothing
    assert_eq!(get_code("مرري"), "م4");
    assert_eq!(get_code("ماوم"), "م9");
    assert_eq!(get_code("حمامي"), "ح9");
}

#[test]
fn soundex_stable_under_surface_variation() {
    assert_eq!(aramix_soundex("سلمة"), aramix_soundex("سلمه"));
    assert_eq!(aramix_soundex("مصطفى"), aramix_soundex("مصطفي"));
    assert_eq!(aramix_soundex("أحمد"), aramix_soundex("احمد"));
    assert_eq!(aramix_soundex("آمال"), aramix_soundex("امال"));
}

#[test]
fn levenshtein_known_distances() {
    assert_eq!(levenshtein("kitten", "sitting"), 3);
    assert_eq!(levenshtein("", "abc"), 3);
    assert_eq!(levenshtein("abc", ""), 3);
    assert_eq!(levenshtein("احمد", "احمد"), 0);
    assert_eq!(levenshtein("احمد", "حمد"), 1);
}

#[test]
fn jaro_matches_reference_implementation() {
    let cases = [
        ("Friedrich Nietzsche", "Jean-Paul Sartre"),
        ("dwayne", "duane"),
        ("martha", "marhta"),
        ("احمد", "حامد"),
        ("طرابلسي", "تربلسي"),
        ("", ""),
        ("a", ""),
    ];
    for (a, b) in cases {
        let f = jaro(a, b);
        let ours = f.num as f64 / f.den as f64;
        let reference = strsim::jaro(a, b);
        assert!((ours - reference).abs() < 1e-12, "jaro mismatch on {a} / {b}");
    }
}

#[test]
fn pair_score_is_one_on_equal_strings() {
    let f = score_pair_with_soundex("احمد", "احمد");
    assert_eq!(f.num, f.den);
}

#[test]
fn pair_score_stays_in_range() {
    for (a, b) in [("احمد", "محمود"), ("", "احمد"), ("احمد", ""), ("علي", "عالي")] {
        let f = score_pair_with_soundex(a, b);
        assert!(f.num <= f.den);
        assert!(f.den > 0);
    }
}

#[test]
fn pair_score_soundex_bonus_counts() {
    // identical up to a surface variant: full jaro/levenshtein plus bonus
    let f = score_pair_with_soundex("سلمه", "سلمه");
    assert_eq!(f.num, f.den);
    // unrelated names score below one
    let g = score_pair_with_soundex("سلمه", "كمال");
    assert!(g.num < g.den);
}

#[test]
fn combo_averages_phonetic_and_jaro() {
    let c = combo("احمد", "احمد");
    assert_eq!(c.num, c.den);
    let d = combo("احمد", "كمال");
    assert!(d.num < d.den);
}

#[test]
fn best_score_never_below_base_pair() {
    let vars: Vec<String> = vec!["أحمَد".to_string(), "احمد".to_string()];
    let base = score_pair_with_soundex("احمد", "حامد");
    let best = best_score_against_variations("احمد", "حامد", &vars);
    // best >= base as fractions
    assert!(best.num as u128 * base.den as u128 >= base.num as u128 * best.den as u128);
}

#[test]
fn best_score_picks_a_better_variation() {
    // the base is distant, but a raw variation normalizes to the query
    let vars: Vec<String> = vec!["أحمَد".to_string()];
    let best = best_score_against_variations("احمد", "كمال", &vars);
    assert_eq!(best.num, best.den);
}
