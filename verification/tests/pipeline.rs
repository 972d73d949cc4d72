use aramix::engine::{match_identity, normalize_query, should_consider_candidate, InputIdentity,
    MatchResponse};
use aramix::gold_set::{find_identity_by_id, load_gold_set, parse_gold_set_csv, split_string};
use aramix::identity::{insert_identity, insert_variation, rebuild_identity_dictionary,
    IdentityNode, RawRecord};
use aramix::loader::{generation_key, identity_from_row, sex_code};
use aramix::extract::extract_named_entities;

fn query(first: &str, last: &str, father: &str, grandfather: &str, mother_last: &str,
    mother: &str, dob: Option<(u32, u32, u32)>, sex: u8, place: &str) -> InputIdentity {
    InputIdentity {
        first_name: first.to_string(),
        last_name: last.to_string(),
        father_name: father.to_string(),
        grandfather_name: grandfather.to_string(),
        mother_last_name: mother_last.to_string(),
        mother_name: mother.to_string(),
        dob,
        sex,
        place_of_birth: place.to_string(),
    }
}

fn reference_row(dob: (u32, u32, u32), gender: &str) -> IdentityNode {
    identity_from_row(
        "أحمد", "بن علي", "محمد", "صالح", "طرابلسي", "فاطمة",
        dob.0, dob.1, dob.2, gender, "تونس",
    )
    .expect("row fits")
}

#[test]
fn generation_key_buckets_by_decade() {
    assert_eq!(generation_key(1985), 1980);
    assert_eq!(generation_key(1990), 1990);
    assert_eq!(generation_key(2200), 2200);
    assert_eq!(generation_key(0), 0);
}

#[test]
fn sex_codes_map_digits_and_words() {
    assert_eq!(sex_code("1"), 1);
    assert_eq!(sex_code("ذكر"), 1);
    assert_eq!(sex_code("2"), 2);
    assert_eq!(sex_code("أنثى"), 2);
    assert_eq!(sex_code("؟"), 0);
    assert_eq!(sex_code(""), 0);
}

#[test]
fn loader_normalizes_and_seeds_variations() {
    let n = reference_row((15, 6, 1985), "1");
    assert_eq!(n.first_name, "احمد");
    assert_eq!(n.last_name, " علي");
    assert_eq!(n.sex, 1);
    assert_eq!(n.dob, Some((15, 6, 1985)));
    assert_eq!(n.first_name_variations, vec!["أحمد".to_string()]);
    assert_eq!(n.place_of_birth, "تونس");
}

#[test]
fn exact_match_scores_one_hundred() {
    let q = query("أحمد", "بن علي", "محمد", "صالح", "طرابلسي", "فاطمة",
        Some((15, 6, 1985)), 1, "تونس");
    let records = vec![reference_row((15, 6, 1985), "1")];
    match match_identity(&q, &records, 3) {
        MatchResponse::Results(v) => {
            assert_eq!(v.len(), 1);
            assert_eq!(v[0].total_score, 100);
            assert_eq!(v[0].breakdown.len(), 9);
            for fs in &v[0].breakdown {
                assert_eq!(fs.score, 100, "field {} not 100", fs.field);
            }
            assert_eq!(v[0].matched_identity.first_name, "احمد");
            assert_eq!(v[0].matched_identity.dob, (15, 6, 1985));
        },
        _ => panic!("expected results"),
    }
}

#[test]
fn decade_window_rejects_eleven_years() {
    let q = query("أحمد", "بن علي", "محمد", "صالح", "طرابلسي", "فاطمة",
        Some((15, 6, 1985)), 1, "تونس");
    let far = vec![reference_row((1, 2, 1974), "1")];
    match match_identity(&q, &far, 3) {
        MatchResponse::Results(v) => assert_eq!(v.len(), 0),
        _ => panic!("expected results"),
    }
}

#[test]
fn decade_window_keeps_ten_years_with_zero_dob_score() {
    let q = query("أحمد", "بن علي", "محمد", "صالح", "طرابلسي", "فاطمة",
        Some((15, 6, 1985)), 1, "تونس");
    let near = vec![reference_row((1, 2, 1975), "1")];
    match match_identity(&q, &near, 3) {
        MatchResponse::Results(v) => {
            assert_eq!(v.len(), 1);
            // no dob component matches: the dob entry is zero and the
            // ten weight points of the dob term are gone from the total
            assert_eq!(v[0].breakdown[6].score, 0);
            assert_eq!(v[0].total_score, 90);
        },
        _ => panic!("expected results"),
    }
}

#[test]
fn empty_generation_bucket_reports_not_found() {
    let q = query("أحمد", "بن علي", "محمد", "صالح", "طرابلسي", "فاطمة",
        Some((1, 1, 2200)), 1, "تونس");
    let records: Vec<IdentityNode> = Vec::new();
    assert!(matches!(match_identity(&q, &records, 3), MatchResponse::EmptyBucket));
}

#[test]
fn oversized_query_field_is_refused() {
    let long = "ب".repeat(60);
    let q = query(&long, "بن علي", "محمد", "صالح", "طرابلسي", "فاطمة", None, 1, "تونس");
    let records = vec![reference_row((15, 6, 1985), "1")];
    assert!(matches!(match_identity(&q, &records, 3), MatchResponse::QueryTooLong));
}

#[test]
fn results_are_sorted_and_thresholded() {
    let q = query("أحمد", "بن علي", "محمد", "صالح", "طرابلسي", "فاطمة",
        Some((15, 6, 1985)), 1, "تونس");
    let exact = reference_row((15, 6, 1985), "1");
    let near = reference_row((1, 2, 1975), "1");
    let records = vec![near, exact];
    match match_identity(&q, &records, 3) {
        MatchResponse::Results(v) => {
            assert_eq!(v.len(), 2);
            assert!(v[0].total_score >= v[1].total_score);
            assert_eq!(v[0].total_score, 100);
            assert_eq!(v[1].total_score, 90);
            for m in &v {
                assert!(m.total_score >= 75);
            }
        },
        _ => panic!("expected results"),
    }
}

#[test]
fn top_k_limits_the_result_count() {
    let q = query("أحمد", "بن علي", "محمد", "صالح", "طرابلسي", "فاطمة",
        Some((15, 6, 1985)), 1, "تونس");
    let records = vec![
        reference_row((15, 6, 1985), "1"),
        reference_row((15, 6, 1984), "1"),
        reference_row((15, 6, 1983), "1"),
        reference_row((15, 6, 1982), "1"),
    ];
    match match_identity(&q, &records, 3) {
        MatchResponse::Results(v) => assert_eq!(v.len(), 3),
        _ => panic!("expected results"),
    }
}

#[test]
fn filter_examines_sex_year_and_last_name_only() {
    let q = query("أحمد", "بن علي", "محمد", "صالح", "طرابلسي", "فاطمة",
        Some((15, 6, 1985)), 1, "تونس");
    let nq = normalize_query(&q);
    // same sex and last name, years on both edges of the window
    let c1 = reference_row((1, 1, 1980), "1");
    let c2 = reference_row((1, 1, 1990), "1");
    assert!(should_consider_candidate(&nq, &c1));
    assert!(should_consider_candidate(&nq, &c2));
    // a different sex code fails even with everything else equal
    let c3 = reference_row((15, 6, 1985), "2");
    assert!(!should_consider_candidate(&nq, &c3));
}

#[test]
fn unknown_sex_passes_against_unknown() {
    let q = query("أحمد", "بن علي", "محمد", "صالح", "طرابلسي", "فاطمة",
        Some((15, 6, 1985)), 0, "تونس");
    let nq = normalize_query(&q);
    let c = reference_row((15, 6, 1985), "؟");
    assert!(should_consider_candidate(&nq, &c));
}

fn row_with_last(last: &str) -> IdentityNode {
    identity_from_row(
        "أحمد", last, "محمد", "صالح", "طرابلسي", "فاطمة",
        15, 6, 1985, "1", "تونس",
    )
    .expect("row fits")
}

#[test]
fn phonetic_gate_drops_unrelated_last_name() {
    let q = query("أحمد", "طرابلسي", "محمد", "صالح", "طرابلسي", "فاطمة",
        Some((15, 6, 1985)), 1, "تونس");
    let nq = normalize_query(&q);
    assert!(!should_consider_candidate(&nq, &row_with_last("الحمامي")));
    // an article prefix alone does not change the phonetic code
    assert!(should_consider_candidate(&nq, &row_with_last("الطرابلسي")));
}

#[test]
fn phonetic_gate_follows_first_character() {
    // the two surnames share their digit part, yet their first letters
    // differ, so the codes differ and the filter rejects
    let q = query("أحمد", "تربلسي", "محمد", "صالح", "طرابلسي", "فاطمة",
        Some((15, 6, 1985)), 1, "تونس");
    let nq = normalize_query(&q);
    assert_eq!(aramix::phonetic::aramix_soundex("تربلسي"), "ت414");
    assert_eq!(aramix::phonetic::aramix_soundex("طرابلسي"), "ط414");
    assert!(!should_consider_candidate(&nq, &row_with_last("طرابلسي")));
}

#[test]
fn variations_stay_sorted_and_distinct() {
    let mut vars: Vec<String> = Vec::new();
    insert_variation(&mut vars, "ب");
    insert_variation(&mut vars, "ا");
    insert_variation(&mut vars, "ب");
    insert_variation(&mut vars, "ج");
    assert_eq!(vars, vec!["ا".to_string(), "ب".to_string(), "ج".to_string()]);
}

fn raw(first_var: &str) -> RawRecord {
    RawRecord {
        first_name: "احمد".to_string(),
        last_name: "علي".to_string(),
        father_name: "محمد".to_string(),
        grandfather_name: "صالح".to_string(),
        mother_last_name: "طرابلسي".to_string(),
        mother_name: "فاطمه".to_string(),
        dob: Some((15, 6, 1985)),
        sex: 1,
        place_of_birth: "تونس".to_string(),
        first_name_var: first_var.to_string(),
        last_name_var: "علي".to_string(),
        father_name_var: "محمد".to_string(),
        grandfather_name_var: "صالح".to_string(),
        mother_last_name_var: "طرابلسي".to_string(),
        mother_name_var: "فاطمة".to_string(),
    }
}

#[test]
fn equal_keys_merge_into_one_node() {
    let dict = rebuild_identity_dictionary(vec![raw("أحمد"), raw("أحمَد")]);
    assert_eq!(dict.len(), 1);
    assert_eq!(
        dict[0].first_name_variations,
        vec!["أحمد".to_string(), "أحمَد".to_string()]
    );
}

#[test]
fn insert_identity_orders_by_key() {
    let mut dict: Vec<IdentityNode> = Vec::new();
    insert_identity(&mut dict, "ب", "", "", "", "", "", None, 1, "", "ب", "", "", "", "", "");
    insert_identity(&mut dict, "ا", "", "", "", "", "", None, 1, "", "ا", "", "", "", "", "");
    assert_eq!(dict.len(), 2);
    assert_eq!(dict[0].first_name, "ا");
    assert_eq!(dict[1].first_name, "ب");
    let t = dict[0].as_tuple();
    assert_eq!(t.0, "ا");
}

#[test]
fn split_preserves_empty_tokens() {
    assert_eq!(split_string("a,b,,c", ','), vec!["a", "b", "", "c"]);
    assert_eq!(split_string("", ','), vec![""]);
    assert_eq!(split_string("x", ','), vec!["x"]);
}

#[test]
fn gold_set_csv_parses_after_header() {
    let content = "input_id,candidate_id,label\nid1,id2,1\nid1,id3,0\nshort\nid4,id5,01";
    let recs = parse_gold_set_csv(content);
    assert_eq!(recs.len(), 3);
    assert_eq!(recs[0].input_id, "id1");
    assert_eq!(recs[0].candidate_id, "id2");
    assert!(recs[0].is_match);
    assert!(!recs[1].is_match);
    assert!(recs[2].is_match);
}

#[test]
fn gold_set_resolves_by_concatenated_key() {
    let dict = rebuild_identity_dictionary(vec![raw("أحمد")]);
    let id = "احمدعليمحمدصالحطرابلسيفاطمه";
    let g = find_identity_by_id(&dict, id).expect("found");
    assert_eq!(g.first_name, "احمد");
    assert!(find_identity_by_id(&dict, "غائب").is_none());

    let content = format!("input_id,candidate_id,label\n{id},{id},1\nmissing,{id},0");
    let recs = parse_gold_set_csv(&content);
    let loaded = load_gold_set(&recs, &dict);
    assert_eq!(loaded.len(), 1);
    assert!(loaded[0].2);
    assert_eq!(loaded[0].0.first_name, "احمد");
}

#[test]
fn entities_are_classified_by_keyword() {
    let (name, date, place) = extract_named_entities("أحمد من تونس 12/05/1985");
    assert_eq!(name.as_deref(), Some("من"));
    assert_eq!(place.as_deref(), Some("تونس"));
    assert_eq!(date.as_deref(), Some("12/05/1985"));
    let (n2, d2, p2) = extract_named_entities("سليم");
    assert_eq!(n2.as_deref(), Some("سليم"));
    assert!(d2.is_none());
    assert!(p2.is_none());
}

#[test]
fn mother_last_has_no_weight_and_ties_keep_input_order() {
    let q = query("أحمد", "بن علي", "محمد", "صالح", "طرابلسي", "فاطمة",
        Some((15, 6, 1985)), 1, "تونس");
    // two candidates equal in every weighted field; they differ only in
    // the mother-last field, which appears in the breakdown but carries
    // no weight in the aggregate
    let different = identity_from_row(
        "أحمد", "بن علي", "محمد", "صالح", "قرقوري", "فاطمة",
        1, 2, 1975, "1", "تونس",
    )
    .expect("row fits");
    let same = identity_from_row(
        "أحمد", "بن علي", "محمد", "صالح", "طرابلسي", "فاطمة",
        1, 2, 1975, "1", "تونس",
    )
    .expect("row fits");
    let records = vec![different, same];
    match match_identity(&q, &records, 3) {
        MatchResponse::Results(v) => {
            assert_eq!(v.len(), 2);
            assert_eq!(v[0].total_score, 90);
            assert_eq!(v[1].total_score, 90);
            // equal totals: input order is kept
            assert_eq!(v[0].matched_identity.mother_last_name, "قرقوري");
            assert_eq!(v[1].matched_identity.mother_last_name, "طرابلسي");
            // the breakdown still tells the two apart
            assert!(v[0].breakdown[4].score < 100);
            assert_eq!(v[1].breakdown[4].score, 100);
        },
        _ => panic!("expected results"),
    }
}
