//! The match engine: one-shot query normalization, the candidate
//! pre-filter, the weighted composite score, and the ranked result
//! pipeline (parallel scoring, sort, threshold, top-K projection).
use vstd::prelude::*;
use rayon::iter::{IntoParallelRefIterator, ParallelIterator};
use crate::identity::IdentityNode;
use crate::jaro::{jaro, spec_jaro_frac};
use crate::levenshtein::min2;
use crate::normalize::{normalize, spec_normalize};
use crate::phonetic::{aramix_soundex, spec_soundex};
use crate::score::{
    best_score_against_variations, combo, round_pct, round_pct_wide, score_pair_with_soundex,
    spec_best_frac, spec_combo_frac, spec_round_half_up, spec_score_pair_frac, MAX_NAME_LEN,
};

verus! {

/// The similarity threshold, in percent, below which a candidate is not
/// reported.
pub const MATCH_THRESHOLD: u64 = 75;

/// How many ranked results a response carries at most, by default.
pub const DEFAULT_TOP_K: usize = 3;

/// A query identity as the caller hands it over, fields still raw.
pub struct InputIdentity {
    pub first_name: String,
    pub last_name: String,
    pub father_name: String,
    pub grandfather_name: String,
    pub mother_last_name: String,
    pub mother_name: String,
    pub dob: Option<(u32, u32, u32)>,
    pub sex: u8,
    pub place_of_birth: String,
}

/// A query with every text field already passed through the normalizer,
/// exactly once.
pub struct NormalizedQuery {
    pub first_name: String,
    pub last_name: String,
    pub father_name: String,
    pub grandfather_name: String,
    pub mother_last_name: String,
    pub mother_name: String,
    pub dob: Option<(u32, u32, u32)>,
    pub sex: u8,
    pub place_of_birth: String,
}

/// The mathematical shadow of a query: its seven text fields as
/// character sequences, with dob and sex.
pub ghost struct QueryView {
    pub first: Seq<char>,
    pub last: Seq<char>,
    pub father: Seq<char>,
    pub grandfather: Seq<char>,
    pub mother_last: Seq<char>,
    pub mother: Seq<char>,
    pub dob: Option<(u32, u32, u32)>,
    pub sex: u8,
    pub place: Seq<char>,
}

pub open spec fn view_of_query(q: &NormalizedQuery) -> QueryView {
    QueryView {
        first: q.first_name@,
        last: q.last_name@,
        father: q.father_name@,
        grandfather: q.grandfather_name@,
        mother_last: q.mother_last_name@,
        mother: q.mother_name@,
        dob: q.dob,
        sex: q.sex,
        place: q.place_of_birth@,
    }
}

/// What normalizing a raw query yields.
pub open spec fn norm_view(input: &InputIdentity) -> QueryView {
    QueryView {
        first: spec_normalize(input.first_name@),
        last: spec_normalize(input.last_name@),
        father: spec_normalize(input.father_name@),
        grandfather: spec_normalize(input.grandfather_name@),
        mother_last: spec_normalize(input.mother_last_name@),
        mother: spec_normalize(input.mother_name@),
        dob: input.dob,
        sex: input.sex,
        place: spec_normalize(input.place_of_birth@),
    }
}

/// Every text field of the query fits the scorer's length bound.
pub open spec fn query_small(qv: QueryView) -> bool {
    &&& qv.first.len() <= MAX_NAME_LEN as int
    &&& qv.last.len() <= MAX_NAME_LEN as int
    &&& qv.father.len() <= MAX_NAME_LEN as int
    &&& qv.grandfather.len() <= MAX_NAME_LEN as int
    &&& qv.mother_last.len() <= MAX_NAME_LEN as int
    &&& qv.mother.len() <= MAX_NAME_LEN as int
    &&& qv.place.len() <= MAX_NAME_LEN as int
}

/// A reference record that the scorer can take: stored fields within the
/// length bound, and every raw variation within it after normalization.
pub open spec fn scorable(c: &IdentityNode) -> bool {
    &&& c.first_name@.len() <= MAX_NAME_LEN as int
    &&& c.last_name@.len() <= MAX_NAME_LEN as int
    &&& c.father_name@.len() <= MAX_NAME_LEN as int
    &&& c.grandfather_name@.len() <= MAX_NAME_LEN as int
    &&& c.mother_last_name@.len() <= MAX_NAME_LEN as int
    &&& c.mother_name@.len() <= MAX_NAME_LEN as int
    &&& c.place_of_birth@.len() <= MAX_NAME_LEN as int
    &&& small_vars(&c.first_name_variations)
    &&& small_vars(&c.last_name_variations)
    &&& small_vars(&c.father_name_variations)
    &&& small_vars(&c.grandfather_name_variations)
    &&& small_vars(&c.mother_last_name_variations)
    &&& small_vars(&c.mother_name_variations)
}

pub open spec fn small_vars(vars: &Vec<String>) -> bool {
    forall|i: int|
        0 <= i < vars@.len() ==> spec_normalize(#[trigger] vars@[i]@).len() <= MAX_NAME_LEN as int
}

/// The coarse pre-filter: same sex code, birth years within ten where
/// both are known, and phonetically agreeing last names.
pub open spec fn spec_pass(qv: QueryView, c: &IdentityNode) -> bool {
    &&& qv.sex == c.sex
    &&& match (qv.dob, c.dob) {
        (Some(d1), Some(d2)) => -10 <= d1.2 as int - d2.2 as int <= 10,
        _ => true,
    }
    &&& spec_soundex(qv.last) == spec_soundex(c.last_name@)
}

/// Decide whether a reference record survives the pre-filter. Only sex,
/// birth year and the phonetic code of the last name are examined.
pub fn should_consider_candidate(query: &NormalizedQuery, candidate: &IdentityNode) -> (r: bool)
    ensures
        r == spec_pass(view_of_query(query), candidate),
{
    if query.sex != candidate.sex {
        return false;
    }
    match (query.dob, candidate.dob) {
        (Some((_, _, y1)), Some((_, _, y2))) => {
            let diff = if y1 >= y2 {
                y1 - y2
            } else {
                y2 - y1
            };
            if diff > 10 {
                return false;
            }
        },
        _ => {},
    }
    let c1 = aramix_soundex(query.last_name.as_str());
    let c2 = aramix_soundex(candidate.last_name.as_str());
    c1 == c2
}

/// Filter conservativeness: a record that differs from a surviving one
/// only in fields the filter never reads, with its birth year still
/// inside the decade window, also survives.
pub proof fn lemma_filter_conservative(qv: QueryView, c1: &IdentityNode, c2: &IdentityNode)
    requires
        spec_pass(qv, c1),
        c2.sex == c1.sex,
        c2.last_name@ == c1.last_name@,
        match (qv.dob, c2.dob) {
            (Some(d1), Some(d2)) => -10 <= d1.2 as int - d2.2 as int <= 10,
            _ => true,
        },
    ensures
        spec_pass(qv, c2),
{
}

/// Normalize all text fields of a query, exactly once.
pub fn normalize_query(input: &InputIdentity) -> (q: NormalizedQuery)
    ensures
        view_of_query(&q) == norm_view(input),
{
    NormalizedQuery {
        first_name: normalize(input.first_name.as_str()),
        last_name: normalize(input.last_name.as_str()),
        father_name: normalize(input.father_name.as_str()),
        grandfather_name: normalize(input.grandfather_name.as_str()),
        mother_last_name: normalize(input.mother_last_name.as_str()),
        mother_name: normalize(input.mother_name.as_str()),
        dob: input.dob,
        sex: input.sex,
        place_of_birth: normalize(input.place_of_birth.as_str()),
    }
}

/// One weighted term folded into the running exact sum:
/// `acc + w * f` over the product denominator.
pub open spec fn acc_term(acc: (int, int), w: int, f: (int, int)) -> (int, int) {
    (acc.0 * f.1 + w * f.0 * acc.1, acc.1 * f.1)
}

/// One when the two dates of birth are present and identical, else zero.
pub open spec fn spec_dob_unit(d1: Option<(u32, u32, u32)>, d2: Option<(u32, u32, u32)>) -> int {
    match (d1, d2) {
        (Some(x), Some(y)) => if x == y {
            1int
        } else {
            0int
        },
        _ => 0,
    }
}

/// The composite total, in percent, rounded half-up: 35% first-name
/// combo, 30% last-name combo, 10% father Jaro, 5% grandfather Jaro,
/// 5% mother Jaro, 10% exact dob match, 5% place Jaro. The mother-last
/// field carries no weight by design, though it appears in the
/// breakdown.
pub open spec fn spec_total_pct(qv: QueryView, c: &IdentityNode) -> int {
    let a1 = acc_term((0, 1), 35, spec_combo_frac(qv.first, c.first_name@));
    let a2 = acc_term(a1, 30, spec_combo_frac(qv.last, c.last_name@));
    let a3 = acc_term(a2, 10, spec_jaro_frac(qv.father, c.father_name@));
    let a4 = acc_term(a3, 5, spec_jaro_frac(qv.grandfather, c.grandfather_name@));
    let a5 = acc_term(a4, 5, spec_jaro_frac(qv.mother, c.mother_name@));
    let a6 = acc_term(a5, 10, (spec_dob_unit(qv.dob, c.dob), 1));
    let a7 = acc_term(a6, 5, spec_jaro_frac(qv.place, c.place_of_birth@));
    spec_round_half_up(a7.0, a7.1)
}

fn total_step(nacc: u128, dacc: u128, w: u64, fnum: u64, fden: u64, Ghost(wsum): Ghost<int>) -> (r:
    (u128, u128))
    requires
        0 < dacc <= 237304687500000000000000000000,
        0 <= wsum,
        wsum + w <= 100,
        w <= 35,
        nacc as int <= wsum * dacc as int,
        0 < fden <= 750000,
        fnum <= fden,
    ensures
        r.0 as int == nacc as int * fden as int + w as int * fnum as int * dacc as int,
        r.1 as int == dacc as int * fden as int,
        r.0 as int <= (wsum + w) * r.1 as int,
        0 < r.1 <= 177978515625000000000000000000000000,
{
    proof {
        let ni = nacc as int;
        let di = dacc as int;
        let wi = w as int;
        let fni = fnum as int;
        let fdi = fden as int;
        assert(ni <= 100 * di) by (nonlinear_arith)
            requires
                ni <= wsum * di,
                0 <= wsum <= 100,
                0 < di,
        ;
        assert(ni * fdi <= 100 * 237304687500000000000000000000 * 750000) by (nonlinear_arith)
            requires
                0 <= ni <= 100 * di,
                di <= 237304687500000000000000000000,
                0 < fdi <= 750000,
        ;
        assert(wi * fni <= 35 * 750000) by (nonlinear_arith)
            requires
                0 <= wi <= 35,
                0 <= fni <= 750000,
        ;
        assert(wi * fni * di <= 35 * 750000 * 237304687500000000000000000000) by (nonlinear_arith)
            requires
                0 <= wi <= 35,
                0 <= fni <= 750000,
                0 < di <= 237304687500000000000000000000,
        ;
        assert(di * fdi <= 237304687500000000000000000000 * 750000 && 0 < di * fdi)
            by (nonlinear_arith)
            requires
                0 < di <= 237304687500000000000000000000,
                0 < fdi <= 750000,
        ;
        assert(ni * fdi + wi * fni * di <= (wsum + wi) * (di * fdi)) by (nonlinear_arith)
            requires
                ni <= wsum * di,
                fni <= fdi,
                0 <= wi,
                0 <= wsum,
                0 < di,
                0 < fdi,
        ;
    }
    let n2: u128 = nacc * (fden as u128) + (w as u128) * (fnum as u128) * (dacc as u128);
    let d2: u128 = dacc * (fden as u128);
    (n2, d2)
}

/// The weighted full-record total, in percent. Field scores enter with
/// the design's fixed weights; the divisor is the constant weight sum.
pub fn calculate_full_score(query: &NormalizedQuery, candidate: &IdentityNode) -> (r: u64)
    requires
        query_small(view_of_query(query)),
        scorable(candidate),
    ensures
        r as int == spec_total_pct(view_of_query(query), candidate),
        r <= 100,
{
    proof {
        crate::score::lemma_jaro_den_small(query.father_name@, candidate.father_name@);
        crate::score::lemma_jaro_den_small(query.grandfather_name@, candidate.grandfather_name@);
        crate::score::lemma_jaro_den_small(query.mother_name@, candidate.mother_name@);
        crate::score::lemma_jaro_den_small(query.place_of_birth@, candidate.place_of_birth@);
    }
    let c1 = combo(query.first_name.as_str(), candidate.first_name.as_str());
    let c2 = combo(query.last_name.as_str(), candidate.last_name.as_str());
    let j3 = jaro(query.father_name.as_str(), candidate.father_name.as_str());
    let j4 = jaro(query.grandfather_name.as_str(), candidate.grandfather_name.as_str());
    let j5 = jaro(query.mother_name.as_str(), candidate.mother_name.as_str());
    let dob_unit: u64 = match (query.dob, candidate.dob) {
        (Some((d1, m1, y1)), Some((d2, m2, y2))) => {
            if d1 == d2 && m1 == m2 && y1 == y2 {
                1
            } else {
                0
            }
        },
        _ => 0,
    };
    let j7 = jaro(query.place_of_birth.as_str(), candidate.place_of_birth.as_str());
    let a1 = total_step(0, 1, 35, c1.num, c1.den, Ghost(0));
    let a2 = total_step(a1.0, a1.1, 30, c2.num, c2.den, Ghost(35));
    proof {
        assert(a2.1 as int <= 562500000000) by (nonlinear_arith)
            requires
                a2.1 as int == (a1.1 as int) * (c2.den as int),
                0 < a1.1 <= 750000,
                0 < c2.den <= 750000,
        ;
    }
    let a3 = total_step(a2.0, a2.1, 10, j3.num, j3.den, Ghost(65));
    proof {
        assert(a3.1 as int <= 421875000000000000) by (nonlinear_arith)
            requires
                a3.1 as int == (a2.1 as int) * (j3.den as int),
                0 < a2.1 <= 562500000000,
                0 < j3.den <= 750000,
        ;
    }
    let a4 = total_step(a3.0, a3.1, 5, j4.num, j4.den, Ghost(75));
    proof {
        assert(a4.1 as int <= 316406250000000000000000) by (nonlinear_arith)
            requires
                a4.1 as int == (a3.1 as int) * (j4.den as int),
                0 < a3.1 <= 421875000000000000,
                0 < j4.den <= 750000,
        ;
    }
    let a5 = total_step(a4.0, a4.1, 5, j5.num, j5.den, Ghost(80));
    proof {
        assert(a5.1 as int <= 237304687500000000000000000000) by (nonlinear_arith)
            requires
                a5.1 as int == (a4.1 as int) * (j5.den as int),
                0 < a4.1 <= 316406250000000000000000,
                0 < j5.den <= 750000,
        ;
    }
    let a6 = total_step(a5.0, a5.1, 10, dob_unit, 1, Ghost(85));
    proof {
        assert(a6.1 == a5.1);
    }
    let a7 = total_step(a6.0, a6.1, 5, j7.num, j7.den, Ghost(95));
    round_pct_wide(a7.0, a7.1)
}

/// One labelled entry of a result's field breakdown.
pub struct FieldScore {
    pub field: String,
    pub score: u64,
}

/// The identity a result reports, dob defaulting to zeros when unknown.
pub struct IdentityRecord {
    pub first_name: String,
    pub last_name: String,
    pub father_name: String,
    pub grandfather_name: String,
    pub mother_last_name: String,
    pub mother_name: String,
    pub dob: (u32, u32, u32),
    pub sex: u8,
    pub place_of_birth: String,
}

/// A ranked match: the matched identity, its composite total, and the
/// nine-entry field breakdown.
pub struct MatchResult {
    pub matched_identity: IdentityRecord,
    pub total_score: u64,
    pub breakdown: Vec<FieldScore>,
}

/// The engine's answer: an empty generation bucket, a query whose
/// normalized fields exceed the scorer's length bound, or the ranked
/// results.
pub enum MatchResponse {
    EmptyBucket,
    QueryTooLong,
    Results(Vec<MatchResult>),
}

/// A name field's breakdown score: the best-of-variations pair score,
/// in percent, rounded half-up.
pub open spec fn spec_field_pct(a: Seq<char>, base: Seq<char>, vars: Seq<Seq<char>>) -> int {
    spec_round_half_up(100 * spec_best_frac(a, base, vars).0, spec_best_frac(a, base, vars).1)
}

/// The place field's breakdown score: the plain pair score in percent.
pub open spec fn spec_pair_pct(a: Seq<char>, b: Seq<char>) -> int {
    spec_round_half_up(100 * spec_score_pair_frac(a, b).0, spec_score_pair_frac(a, b).1)
}

/// The dob breakdown score: a third of the weight per matching
/// component when both dates are present, else zero.
pub open spec fn spec_dob_pct(d1: Option<(u32, u32, u32)>, d2: Option<(u32, u32, u32)>) -> int {
    match (d1, d2) {
        (Some(x), Some(y)) => {
            let c = (if x.0 == y.0 {
                1int
            } else {
                0int
            }) + (if x.1 == y.1 {
                1int
            } else {
                0int
            }) + (if x.2 == y.2 {
                1int
            } else {
                0int
            });
            spec_round_half_up(100 * c, 3)
        },
        _ => 0,
    }
}

pub open spec fn spec_sex_pct(s1: u8, s2: u8) -> int {
    if s1 == s2 {
        100int
    } else {
        0int
    }
}

/// What one scored result says about a candidate: the reported identity
/// mirrors the record, the nine breakdown entries carry their canonical
/// labels and exact scores, and the total is the weighted composite.
pub open spec fn record_scored(qv: QueryView, c: IdentityNode, m: MatchResult) -> bool {
    &&& m.matched_identity.first_name@ == c.first_name@
    &&& m.matched_identity.last_name@ == c.last_name@
    &&& m.matched_identity.father_name@ == c.father_name@
    &&& m.matched_identity.grandfather_name@ == c.grandfather_name@
    &&& m.matched_identity.mother_last_name@ == c.mother_last_name@
    &&& m.matched_identity.mother_name@ == c.mother_name@
    &&& m.matched_identity.dob == (match c.dob {
        Some(d) => d,
        None => (0u32, 0u32, 0u32),
    })
    &&& m.matched_identity.sex == c.sex
    &&& m.matched_identity.place_of_birth@ == c.place_of_birth@
    &&& m.breakdown@.len() == 9
    &&& m.breakdown@[0].field@ == "الاسم الأول"@
    &&& m.breakdown@[0].score as int == spec_field_pct(
        qv.first,
        c.first_name@,
        c.first_name_variations.deep_view(),
    )
    &&& m.breakdown@[1].field@ == "اسم العائلة"@
    &&& m.breakdown@[1].score as int == spec_field_pct(
        qv.last,
        c.last_name@,
        c.last_name_variations.deep_view(),
    )
    &&& m.breakdown@[2].field@ == "اسم الأب"@
    &&& m.breakdown@[2].score as int == spec_field_pct(
        qv.father,
        c.father_name@,
        c.father_name_variations.deep_view(),
    )
    &&& m.breakdown@[3].field@ == "اسم الجد"@
    &&& m.breakdown@[3].score as int == spec_field_pct(
        qv.grandfather,
        c.grandfather_name@,
        c.grandfather_name_variations.deep_view(),
    )
    &&& m.breakdown@[4].field@ == "اسم عائلة الأم"@
    &&& m.breakdown@[4].score as int == spec_field_pct(
        qv.mother_last,
        c.mother_last_name@,
        c.mother_last_name_variations.deep_view(),
    )
    &&& m.breakdown@[5].field@ == "اسم الأم"@
    &&& m.breakdown@[5].score as int == spec_field_pct(
        qv.mother,
        c.mother_name@,
        c.mother_name_variations.deep_view(),
    )
    &&& m.breakdown@[6].field@ == "تاريخ الميلاد"@
    &&& m.breakdown@[6].score as int == spec_dob_pct(qv.dob, c.dob)
    &&& m.breakdown@[7].field@ == "مكان الولادة"@
    &&& m.breakdown@[7].score as int == spec_pair_pct(qv.place, c.place_of_birth@)
    &&& m.breakdown@[8].field@ == "الجنس"@
    &&& m.breakdown@[8].score as int == spec_sex_pct(qv.sex, c.sex)
    &&& m.total_score as int == spec_total_pct(qv, &c)
}

fn field_entry(label: &str, query_field: &str, base: &str, vars: &Vec<String>) -> (r: FieldScore)
    requires
        query_field@.len() <= MAX_NAME_LEN,
        base@.len() <= MAX_NAME_LEN,
        small_vars(vars),
    ensures
        r.field@ == label@,
        r.score as int == spec_field_pct(query_field@, base@, vars.deep_view()),
        r.score <= 100,
{
    let best = best_score_against_variations(query_field, base, vars);
    let score = round_pct(100 * best.num, best.den);
    FieldScore { field: label.to_owned(), score }
}

/// Build the full scored result for one surviving candidate: the six
/// name fields against their variations, dob, place, sex, and the
/// weighted total.
pub fn score_record(query: &NormalizedQuery, candidate: &IdentityNode) -> (r: MatchResult)
    requires
        query_small(view_of_query(query)),
        scorable(candidate),
    ensures
        record_scored(view_of_query(query), *candidate, r),
        r.total_score <= 100,
{
    let mut breakdown: Vec<FieldScore> = Vec::new();
    breakdown.push(
        field_entry(
            "الاسم الأول",
            query.first_name.as_str(),
            candidate.first_name.as_str(),
            &candidate.first_name_variations,
        ),
    );
    breakdown.push(
        field_entry(
            "اسم العائلة",
            query.last_name.as_str(),
            candidate.last_name.as_str(),
            &candidate.last_name_variations,
        ),
    );
    breakdown.push(
        field_entry(
            "اسم الأب",
            query.father_name.as_str(),
            candidate.father_name.as_str(),
            &candidate.father_name_variations,
        ),
    );
    breakdown.push(
        field_entry(
            "اسم الجد",
            query.grandfather_name.as_str(),
            candidate.grandfather_name.as_str(),
            &candidate.grandfather_name_variations,
        ),
    );
    breakdown.push(
        field_entry(
            "اسم عائلة الأم",
            query.mother_last_name.as_str(),
            candidate.mother_last_name.as_str(),
            &candidate.mother_last_name_variations,
        ),
    );
    breakdown.push(
        field_entry(
            "اسم الأم",
            query.mother_name.as_str(),
            candidate.mother_name.as_str(),
            &candidate.mother_name_variations,
        ),
    );
    let dob_score: u64 = match (query.dob, candidate.dob) {
        (Some((d1, m1, y1)), Some((d2, m2, y2))) => {
            let mut c: u64 = 0;
            if d1 == d2 {
                c = c + 1;
            }
            if m1 == m2 {
                c = c + 1;
            }
            if y1 == y2 {
                c = c + 1;
            }
            round_pct(100 * c, 3)
        },
        _ => 0,
    };
    breakdown.push(FieldScore { field: "تاريخ الميلاد".to_owned(), score: dob_score });
    let place_pair = score_pair_with_soundex(
        query.place_of_birth.as_str(),
        candidate.place_of_birth.as_str(),
    );
    let place_score = round_pct(100 * place_pair.num, place_pair.den);
    breakdown.push(FieldScore { field: "مكان الولادة".to_owned(), score: place_score });
    let sex_score: u64 = if query.sex == candidate.sex {
        100
    } else {
        0
    };
    breakdown.push(FieldScore { field: "الجنس".to_owned(), score: sex_score });
    let total_score = calculate_full_score(query, candidate);
    let dob_tuple = match candidate.dob {
        Some(d) => d,
        None => (0, 0, 0),
    };
    let matched_identity = IdentityRecord {
        first_name: candidate.first_name.clone(),
        last_name: candidate.last_name.clone(),
        father_name: candidate.father_name.clone(),
        grandfather_name: candidate.grandfather_name.clone(),
        mother_last_name: candidate.mother_last_name.clone(),
        mother_name: candidate.mother_name.clone(),
        dob: dob_tuple,
        sex: candidate.sex,
        place_of_birth: candidate.place_of_birth.clone(),
    };
    MatchResult { matched_identity, total_score, breakdown }
}

/// Relies on rayon's `par_iter().map(..).collect()` over an indexed
/// source: the collected vector holds, in order, the closure's result
/// for each element, and the closure only calls the verified total
/// scorer on each surviving record.
#[verifier::external_body]
fn par_total_scores(query: &NormalizedQuery, records: &Vec<IdentityNode>, survivors: &Vec<usize>)
    -> (r: Vec<u64>)
    requires
        query_small(view_of_query(query)),
        forall|i: int| 0 <= i < records@.len() ==> scorable(&records@[i]),
        forall|p: int| 0 <= p < survivors@.len() ==> survivors@[p] < records@.len(),
    ensures
        r@.len() == survivors@.len(),
        forall|p: int|
            0 <= p < r@.len() ==> #[trigger] r@[p] as int == spec_total_pct(
                view_of_query(query),
                &records@[survivors@[p] as int],
            ) && r@[p] <= 100,
{
    survivors.par_iter().map(|&i| calculate_full_score(query, &records[i])).collect()
}

/// Descending priority: higher total first, earlier survivor first on a
/// tie.
pub open spec fn pair_ge(x: (u64, usize), y: (u64, usize)) -> bool {
    x.0 > y.0 || (x.0 == y.0 && x.1 <= y.1)
}

pub open spec fn pair_gt(x: (u64, usize), y: (u64, usize)) -> bool {
    x.0 > y.0 || (x.0 == y.0 && x.1 < y.1)
}

pub open spec fn pairs_sorted(s: Seq<(u64, usize)>) -> bool {
    forall|i: int, j: int| 0 <= i < j < s.len() ==> pair_ge(#[trigger] s[i], #[trigger] s[j])
}

/// How many of the pairs reach the reporting threshold.
pub open spec fn cnt75(s: Seq<(u64, usize)>) -> int
    decreases s.len(),
{
    if s.len() == 0 {
        0
    } else {
        cnt75(s.drop_last()) + if s.last().0 >= MATCH_THRESHOLD {
            1int
        } else {
            0int
        }
    }
}

proof fn lemma_cnt75_insert(s: Seq<(u64, usize)>, pos: int, x: (u64, usize))
    requires
        0 <= pos <= s.len(),
    ensures
        cnt75(s.insert(pos, x)) == cnt75(s) + if x.0 >= MATCH_THRESHOLD {
            1int
        } else {
            0int
        },
    decreases s.len(),
{
    let t = s.insert(pos, x);
    if pos == s.len() {
        assert(t.drop_last() =~= s);
        assert(t.last() == x);
    } else {
        assert(t.drop_last() =~= s.drop_last().insert(pos, x));
        assert(t.last() == s.last());
        lemma_cnt75_insert(s.drop_last(), pos, x);
    }
}

proof fn lemma_cnt75_prefix(s: Seq<(u64, usize)>, c: int)
    requires
        0 <= c <= s.len(),
        forall|p: int| 0 <= p < c ==> (#[trigger] s[p]).0 >= MATCH_THRESHOLD,
        forall|p: int| c <= p < s.len() ==> (#[trigger] s[p]).0 < MATCH_THRESHOLD,
    ensures
        cnt75(s) == c,
    decreases s.len(),
{
    if s.len() > 0 {
        if c == s.len() {
            lemma_cnt75_prefix(s.drop_last(), c - 1);
        } else {
            lemma_cnt75_prefix(s.drop_last(), c);
        }
    }
}

/// Sort pairs by descending priority with an insertion sort; the
/// threshold count and the elements' provenance are preserved.
#[verifier::loop_isolation(false)]
fn sort_pairs(input: &Vec<(u64, usize)>) -> (out: Vec<(u64, usize)>)
    ensures
        out@.len() == input@.len(),
        pairs_sorted(out@),
        cnt75(out@) == cnt75(input@),
        forall|j: int| 0 <= j < out@.len() ==> input@.contains(#[trigger] out@[j]),
        out@.to_multiset() == input@.to_multiset(),
{
    let mut out: Vec<(u64, usize)> = Vec::new();
    let mut i: usize = 0;
    proof {
        assert(input@.take(0) =~= Seq::<(u64, usize)>::empty());
    }
    while i < input.len()
        invariant
            i <= input@.len(),
            out@.len() == i,
            pairs_sorted(out@),
            cnt75(out@) == cnt75(input@.take(i as int)),
            forall|j: int| 0 <= j < out@.len() ==> input@.contains(#[trigger] out@[j]),
            out@.to_multiset() == input@.take(i as int).to_multiset(),
        decreases input@.len() - i,
    {
        let x = input[i];
        let mut pos: usize = 0;
        while pos < out.len() && (out[pos].0 > x.0 || (out[pos].0 == x.0 && out[pos].1 < x.1))
            invariant
                pos <= out@.len(),
                forall|j: int| 0 <= j < pos ==> pair_gt(#[trigger] out@[j], x),
            decreases out@.len() - pos,
        {
            pos = pos + 1;
        }
        let ghost before = out@;
        out.insert(pos, x);
        proof {
            assert(out@ == before.insert(pos as int, x));
            assert forall|a: int, b: int| 0 <= a < b < out@.len() implies pair_ge(
                #[trigger] out@[a],
                #[trigger] out@[b],
            ) by {
                assert(forall|k: int|
                    0 <= k < pos ==> out@[k] == before[k]);
                assert(out@[pos as int] == x);
                assert(forall|k: int|
                    pos < k < out@.len() ==> out@[k] == before[k - 1]);
                if a == pos as int {
                    assert(!pair_gt(before[b - 1], x));
                } else if b == pos as int {
                    assert(pair_gt(before[a], x));
                }
            }
            lemma_cnt75_insert(before, pos as int, x);
            vstd::seq_lib::to_multiset_insert(before, pos as int, x);
            vstd::seq_lib::to_multiset_build(input@.take(i as int), input@[i as int]);
            assert(input@.take(i + 1) =~= input@.take(i as int).push(input@[i as int]));
            assert(input@.take(i + 1).drop_last() =~= input@.take(i as int));
            assert(input@.take(i + 1).last() == input@[i as int]);
            assert(input@.contains(x)) by {
                assert(input@[i as int] == x);
            }
            assert forall|j: int| 0 <= j < out@.len() implies input@.contains(
                #[trigger] out@[j],
            ) by {
                if j < pos {
                    assert(out@[j] == before[j]);
                } else if j > pos {
                    assert(out@[j] == before[j - 1]);
                } else {
                    assert(out@[j] == x);
                }
            }
        }
        i = i + 1;
    }
    proof {
        assert(input@.take(input@.len() as int) =~= input@);
    }
    out
}

/// How many records both survive the filter and reach the threshold.
pub open spec fn count_qualifying(qv: QueryView, records: Seq<IdentityNode>, upto: int) -> int
    decreases upto,
{
    if upto <= 0 {
        0
    } else {
        count_qualifying(qv, records, upto - 1) + if spec_pass(qv, &records[upto - 1])
            && spec_total_pct(qv, &records[upto - 1]) >= MATCH_THRESHOLD {
            1int
        } else {
            0int
        }
    }
}

/// Threshold count over a sequence of surviving record indices.
/// Whether an index occurs in a survivor list.
pub open spec fn in_seq(s: Seq<usize>, x: int) -> bool {
    exists|p: int| 0 <= p < s.len() && #[trigger] s[p] == x
}

pub open spec fn cnt_idx75(qv: QueryView, records: Seq<IdentityNode>, idxs: Seq<int>) -> int
    decreases idxs.len(),
{
    if idxs.len() == 0 {
        0
    } else {
        cnt_idx75(qv, records, idxs.drop_last()) + if spec_total_pct(
            qv,
            &records[idxs.last()],
        ) >= MATCH_THRESHOLD {
            1int
        } else {
            0int
        }
    }
}

proof fn lemma_cnt75_match(
    qv: QueryView,
    records: Seq<IdentityNode>,
    idxs: Seq<int>,
    prs: Seq<(u64, usize)>,
)
    requires
        prs.len() == idxs.len(),
        forall|p: int|
            0 <= p < prs.len() ==> (#[trigger] prs[p]).0 as int == spec_total_pct(
                qv,
                &records[idxs[p]],
            ),
    ensures
        cnt75(prs) == cnt_idx75(qv, records, idxs),
    decreases prs.len(),
{
    if prs.len() > 0 {
        assert(forall|p: int|
            0 <= p < prs.len() - 1 ==> prs.drop_last()[p] == prs[p] && idxs.drop_last()[p]
                == idxs[p]);
        lemma_cnt75_match(qv, records, idxs.drop_last(), prs.drop_last());
    }
}

/// What the witness index sequence of a result list asserts: each entry
/// scores a surviving, qualifying record, and ties keep input order.
pub open spec fn sel_matches(
    qv: QueryView,
    records: Seq<IdentityNode>,
    v: Seq<MatchResult>,
    sel: Seq<int>,
) -> bool {
    &&& sel.len() == v.len()
    &&& forall|p: int|
        0 <= p < sel.len() ==> 0 <= #[trigger] sel[p] < records.len() && spec_pass(
            qv,
            &records[sel[p]],
        ) && spec_total_pct(qv, &records[sel[p]]) >= MATCH_THRESHOLD as int && record_scored(
            qv,
            records[sel[p]],
            v[p],
        )
    &&& forall|p: int, q: int|
        0 <= p < q < sel.len() && v[p].total_score == v[q].total_score ==> #[trigger] sel[p]
            <= #[trigger] sel[q]
}

/// Threshold count over the bare totals.
pub open spec fn cnt75_tot(totals: Seq<u64>) -> int
    decreases totals.len(),
{
    if totals.len() == 0 {
        0
    } else {
        cnt75_tot(totals.drop_last()) + if totals.last() >= MATCH_THRESHOLD {
            1int
        } else {
            0int
        }
    }
}

proof fn lemma_cnt75_of_pairs(prs: Seq<(u64, usize)>, totals: Seq<u64>)
    requires
        prs.len() == totals.len(),
        forall|p: int| 0 <= p < prs.len() ==> (#[trigger] prs[p]).0 == totals[p],
    ensures
        cnt75(prs) == cnt75_tot(totals),
    decreases prs.len(),
{
    if prs.len() > 0 {
        assert(forall|p: int|
            0 <= p < prs.len() - 1 ==> prs.drop_last()[p] == prs[p] && totals.drop_last()[p]
                == totals[p]);
        lemma_cnt75_of_pairs(prs.drop_last(), totals.drop_last());
    }
}

proof fn lemma_cnt75_tot_idx(
    qv: QueryView,
    records: Seq<IdentityNode>,
    idxs: Seq<int>,
    totals: Seq<u64>,
)
    requires
        totals.len() == idxs.len(),
        forall|p: int|
            0 <= p < totals.len() ==> #[trigger] totals[p] as int == spec_total_pct(
                qv,
                &records[idxs[p]],
            ),
    ensures
        cnt75_tot(totals) == cnt_idx75(qv, records, idxs),
    decreases totals.len(),
{
    if totals.len() > 0 {
        assert(forall|p: int|
            0 <= p < totals.len() - 1 ==> totals.drop_last()[p] == totals[p]
                && idxs.drop_last()[p] == idxs[p]);
        lemma_cnt75_tot_idx(qv, records, idxs.drop_last(), totals.drop_last());
    }
}

/// Collect the indices of the records that survive the pre-filter, in
/// input order, together with the bookkeeping that ties the qualifying
/// count over all records to a count over the survivors.
#[verifier::loop_isolation(false)]
fn filter_survivors(query: &NormalizedQuery, records: &Vec<IdentityNode>) -> (s: Vec<usize>)
    ensures
        forall|p: int|
            0 <= p < s@.len() ==> (#[trigger] s@[p]) < records@.len() && spec_pass(
                view_of_query(query),
                &records@[s@[p] as int],
            ),
        forall|p: int, q: int| 0 <= p < q < s@.len() ==> s@[p] < s@[q],
        forall|i2: int|
            0 <= i2 < records@.len() && spec_pass(view_of_query(query), &records@[i2]) ==> in_seq(
                s@,
                i2,
            ),
        count_qualifying(view_of_query(query), records@, records@.len() as int) == cnt_idx75(
            view_of_query(query),
            records@,
            s@.map_values(|u: usize| u as int),
        ),
{
    let ghost qv = view_of_query(query);
    let mut survivors: Vec<usize> = Vec::new();
    let mut i: usize = 0;
    while i < records.len()
        invariant
            i <= records@.len(),
            forall|p: int|
                0 <= p < survivors@.len() ==> (#[trigger] survivors@[p]) < i && spec_pass(
                    qv,
                    &records@[survivors@[p] as int],
                ),
            forall|p: int, q: int|
                0 <= p < q < survivors@.len() ==> survivors@[p] < survivors@[q],
            forall|i2: int| 0 <= i2 < i && spec_pass(qv, &records@[i2]) ==> in_seq(survivors@, i2),
            count_qualifying(qv, records@, i as int) == cnt_idx75(
                qv,
                records@,
                survivors@.map_values(|u: usize| u as int),
            ),
        decreases records@.len() - i,
    {
        let ghost pre = survivors@.map_values(|u: usize| u as int);
        let ghost prev = survivors@;
        if should_consider_candidate(query, &records[i]) {
            survivors.push(i);
            proof {
                let post = survivors@.map_values(|u: usize| u as int);
                assert(post.drop_last() =~= pre);
                assert(post.last() == i as int);
                assert(in_seq(survivors@, i as int)) by {
                    assert(survivors@[prev.len() as int] == i);
                }
                assert forall|i2: int| 0 <= i2 < i + 1 && spec_pass(qv, &records@[i2]) implies
                    in_seq(survivors@, i2) by {
                    if i2 < i {
                        assert(in_seq(prev, i2));
                        let p = choose|p: int| 0 <= p < prev.len() && #[trigger] prev[p] == i2;
                        assert(survivors@[p] == i2);
                    }
                }
            }
        }
        i = i + 1;
    }
    survivors
}

/// Pair each total with its survivor rank and sort by descending
/// priority; each sorted entry still points at its total.
#[verifier::loop_isolation(false)]
fn rank_pairs(totals: &Vec<u64>) -> (sorted: Vec<(u64, usize)>)
    ensures
        sorted@.len() == totals@.len(),
        pairs_sorted(sorted@),
        cnt75(sorted@) == cnt75_tot(totals@),
        forall|j: int|
            0 <= j < sorted@.len() ==> (#[trigger] sorted@[j]).1 < totals@.len() && sorted@[j].0
                == totals@[sorted@[j].1 as int],
        forall|k: int|
            0 <= k < totals@.len() ==> sorted@.contains((#[trigger] totals@[k], k as usize)),
{
    let mut pairs: Vec<(u64, usize)> = Vec::new();
    let mut k: usize = 0;
    while k < totals.len()
        invariant
            k <= totals@.len(),
            pairs@.len() == k,
            forall|p: int|
                0 <= p < pairs@.len() ==> #[trigger] pairs@[p] == (totals@[p], p as usize),
        decreases totals@.len() - k,
    {
        pairs.push((totals[k], k));
        k = k + 1;
    }
    proof {
        lemma_cnt75_of_pairs(pairs@, totals@);
    }
    let sorted = sort_pairs(&pairs);
    proof {
        assert forall|j: int|
            0 <= j < sorted@.len() implies (#[trigger] sorted@[j]).1 < totals@.len()
                && sorted@[j].0 == totals@[sorted@[j].1 as int] by {
            assert(pairs@.contains(sorted@[j]));
            let w = choose|w: int| 0 <= w < pairs@.len() && pairs@[w] == sorted@[j];
            assert(pairs@[w] == (totals@[w], w as usize));
        }
        assert forall|k: int|
            0 <= k < totals@.len() implies sorted@.contains(
            (#[trigger] totals@[k], k as usize)) by {
            let pr = (totals@[k], k as usize);
            assert(pairs@[k] == pr);
            assert(pairs@.contains(pr));
            vstd::seq_lib::to_multiset_contains(pairs@, pr);
            vstd::seq_lib::to_multiset_contains(sorted@, pr);
        }
    }
    sorted
}

/// Build the reported results for the first `limit` sorted entries,
/// together with the ghost sequence of the record indices they score.
#[verifier::loop_isolation(false)]
fn emit_results(
    query: &NormalizedQuery,
    records: &Vec<IdentityNode>,
    survivors: &Vec<usize>,
    sorted: &Vec<(u64, usize)>,
    limit: usize,
) -> (out: (Vec<MatchResult>, Ghost<Seq<int>>))
    requires
        limit <= sorted@.len(),
        query_small(view_of_query(query)),
        forall|i: int| 0 <= i < records@.len() ==> scorable(&records@[i]),
        forall|p: int|
            0 <= p < survivors@.len() ==> (#[trigger] survivors@[p]) < records@.len() && spec_pass(
                view_of_query(query),
                &records@[survivors@[p] as int],
            ),
        forall|p: int, q: int| 0 <= p < q < survivors@.len() ==> survivors@[p] < survivors@[q],
        forall|j: int|
            0 <= j < sorted@.len() ==> (#[trigger] sorted@[j]).1 < survivors@.len()
                && sorted@[j].0 as int == spec_total_pct(
                view_of_query(query),
                &records@[survivors@[sorted@[j].1 as int] as int],
            ),
        pairs_sorted(sorted@),
        forall|p: int| 0 <= p < limit ==> (#[trigger] sorted@[p]).0 >= MATCH_THRESHOLD,
    ensures
        out.0@.len() == limit,
        sel_matches(view_of_query(query), records@, out.0@, out.1@),
        forall|p: int| 0 <= p < limit ==> (#[trigger] out.0@[p]).total_score == sorted@[p].0,
        forall|p: int|
            0 <= p < limit ==> #[trigger] out.1@[p] == survivors@[sorted@[p].1 as int] as int,
{
    let ghost qv = view_of_query(query);
    let mut results: Vec<MatchResult> = Vec::new();
    let ghost mut gsel: Seq<int> = Seq::empty();
    let mut p: usize = 0;
    while p < limit
        invariant
            p <= limit,
            results@.len() == p,
            gsel.len() == p,
            forall|t: int|
                0 <= t < p ==> 0 <= #[trigger] gsel[t] < records@.len() && spec_pass(
                    qv,
                    &records@[gsel[t]],
                ) && spec_total_pct(qv, &records@[gsel[t]]) >= MATCH_THRESHOLD as int
                    && record_scored(qv, records@[gsel[t]], results@[t]),
            forall|t: int|
                0 <= t < p ==> (#[trigger] results@[t]).total_score == sorted@[t].0 && gsel[t]
                    == survivors@[sorted@[t].1 as int] as int,
        decreases limit - p,
    {
        let pr = sorted[p];
        let srank = pr.1;
        let ridx = survivors[srank];
        let m = score_record(query, &records[ridx]);
        proof {
            assert(m.total_score as int == spec_total_pct(qv, &records@[ridx as int]));
            gsel = gsel.push(ridx as int);
        }
        results.push(m);
        p = p + 1;
    }
    proof {
        assert forall|a: int, b: int|
            0 <= a < b < gsel.len() && results@[a].total_score == results@[b].total_score implies
            #[trigger] gsel[a] <= #[trigger] gsel[b] by {
            assert(pair_ge(sorted@[a], sorted@[b]));
            assert(sorted@[a].1 <= sorted@[b].1);
            if sorted@[a].1 < sorted@[b].1 {
                assert(survivors@[sorted@[a].1 as int] < survivors@[sorted@[b].1 as int]);
            }
        }
        assert(sel_matches(qv, records@, results@, gsel));
    }
    (results, Ghost(gsel))
}

/// Top-K optimality: a qualifying record that the list leaves out
/// scores no more than any entry the list carries.
pub open spec fn sel_optimal(
    qv: QueryView,
    records: Seq<IdentityNode>,
    v: Seq<MatchResult>,
    sel: Seq<int>,
) -> bool {
    forall|i: int, p: int|
        #![trigger records[i], v[p]]
        0 <= i < records.len() && spec_pass(qv, &records[i]) && spec_total_pct(qv, &records[i])
            >= MATCH_THRESHOLD as int && !sel.contains(i) && 0 <= p < v.len() ==> spec_total_pct(
            qv,
            &records[i],
        ) <= v[p].total_score as int
}

/// Everything a ranked result list promises: bounded by K, exactly
/// min(K, qualifying count) long, thresholded, ordered by descending
/// total, and witnessed entry by entry by surviving records.
pub open spec fn results_ok(
    qv: QueryView,
    records: Seq<IdentityNode>,
    top_k: int,
    v: Seq<MatchResult>,
) -> bool {
    &&& v.len() <= top_k
    &&& v.len() == min2(top_k, count_qualifying(qv, records, records.len() as int))
    &&& forall|p: int| 0 <= p < v.len() ==> (#[trigger] v[p]).total_score >= MATCH_THRESHOLD
    &&& forall|p: int, q: int|
        0 <= p < q < v.len() ==> (#[trigger] v[p]).total_score >= (#[trigger] v[q]).total_score
    &&& exists|sel: Seq<int>| sel_matches(qv, records, v, sel) && sel_optimal(qv, records, v, sel)
}

/// The match pipeline for one query: normalize the query once, filter
/// the bucket's records, score the survivors in parallel, sort by
/// descending total with ties in input order, and report the qualifying
/// top K.
#[verifier::loop_isolation(false)]
#[verifier::rlimit(100)]
pub fn match_identity(input: &InputIdentity, records: &Vec<IdentityNode>, top_k: usize) -> (r:
    MatchResponse)
    requires
        forall|i: int| 0 <= i < records@.len() ==> scorable(&records@[i]),
    ensures
        ({
            let qv = norm_view(input);
            match r {
                MatchResponse::EmptyBucket => records@.len() == 0,
                MatchResponse::QueryTooLong => records@.len() > 0 && !query_small(qv),
                MatchResponse::Results(v) => {
                    &&& records@.len() > 0
                    &&& query_small(qv)
                    &&& results_ok(qv, records@, top_k as int, v@)
                },
            }
        }),
{
    let ghost qv = norm_view(input);
    if records.len() == 0 {
        return MatchResponse::EmptyBucket;
    }
    let query = normalize_query(input);
    proof {
        assert(view_of_query(&query) == qv);
    }
    if query.first_name.unicode_len() > MAX_NAME_LEN || query.last_name.unicode_len()
        > MAX_NAME_LEN || query.father_name.unicode_len() > MAX_NAME_LEN
        || query.grandfather_name.unicode_len() > MAX_NAME_LEN
        || query.mother_last_name.unicode_len() > MAX_NAME_LEN || query.mother_name.unicode_len()
        > MAX_NAME_LEN || query.place_of_birth.unicode_len() > MAX_NAME_LEN {
        return MatchResponse::QueryTooLong;
    }
    let survivors = filter_survivors(&query, records);
    let totals = par_total_scores(&query, records, &survivors);
    proof {
        lemma_cnt75_tot_idx(qv, records@, survivors@.map_values(|u: usize| u as int), totals@);
    }
    let sorted = rank_pairs(&totals);
    let mut cut: usize = 0;
    while cut < sorted.len() && sorted[cut].0 >= MATCH_THRESHOLD
        invariant
            cut <= sorted@.len(),
            forall|p: int| 0 <= p < cut ==> (#[trigger] sorted@[p]).0 >= MATCH_THRESHOLD,
        decreases sorted@.len() - cut,
    {
        cut = cut + 1;
    }
    proof {
        assert forall|p: int| cut <= p < sorted@.len() implies (#[trigger] sorted@[p]).0
            < MATCH_THRESHOLD by {
            if p > cut {
                assert(pair_ge(sorted@[cut as int], sorted@[p]));
            }
        }
        lemma_cnt75_prefix(sorted@, cut as int);
        assert(cut as int == count_qualifying(qv, records@, records@.len() as int));
    }
    let limit: usize = if top_k < cut {
        top_k
    } else {
        cut
    };
    let (results, gsel) = emit_results(&query, records, &survivors, &sorted, limit);
    proof {
        assert(records@.len() > 0);
        assert(query_small(qv));
        assert(results@.len() <= top_k);
        assert(results@.len() == min2(
            top_k as int,
            count_qualifying(qv, records@, records@.len() as int),
        ));
        assert forall|p: int| 0 <= p < results@.len() implies (#[trigger] results@[p]).total_score
            >= MATCH_THRESHOLD by {
            assert(results@[p].total_score == sorted@[p].0);
            assert(sorted@[p].0 >= MATCH_THRESHOLD);
        }
        assert forall|a: int, b: int|
            0 <= a < b < results@.len() implies (#[trigger] results@[a]).total_score >= (
        #[trigger] results@[b]).total_score by {
            assert(pair_ge(sorted@[a], sorted@[b]));
        }
        assert(sel_optimal(qv, records@, results@, gsel@)) by {
            assert forall|i: int, p: int|
                #![trigger records@[i], results@[p]]
                0 <= i < records@.len() && spec_pass(qv, &records@[i]) && spec_total_pct(
                    qv,
                    &records@[i],
                ) >= MATCH_THRESHOLD as int && !gsel@.contains(i) && 0 <= p
                    < results@.len() implies spec_total_pct(qv, &records@[i]) <= results@[
                p].total_score as int by {
                assert(in_seq(survivors@, i));
                let k0 = choose|k0: int|
                    0 <= k0 < survivors@.len() && #[trigger] survivors@[k0] == i;
                assert(totals@[k0] as int == spec_total_pct(qv, &records@[i]));
                assert(sorted@.contains((totals@[k0], k0 as usize)));
                let w = choose|w: int|
                    0 <= w < sorted@.len() && #[trigger] sorted@[w] == (totals@[k0], k0 as usize);
                if w < limit {
                    assert(gsel@[w] == survivors@[sorted@[w].1 as int] as int);
                    assert(gsel@[w] == i);
                    assert(gsel@.contains(i));
                }
                assert(w >= limit);
                assert(pair_ge(sorted@[p as int], sorted@[w]));
                assert(results@[p].total_score == sorted@[p as int].0);
            }
        }
        assert(exists|sel: Seq<int>|
            sel_matches(qv, records@, results@, sel) && sel_optimal(
                qv,
                records@,
                results@,
                sel,
            )) by {
            assert(sel_matches(qv, records@, results@, gsel@));
            assert(sel_optimal(qv, records@, results@, gsel@));
        }
        assert(results_ok(qv, records@, top_k as int, results@));
    }
    MatchResponse::Results(results)
}

} // verus!
