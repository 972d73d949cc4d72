//! Turning raw store rows into reference records: decade keying, sex
//! code mapping, one-shot normalization of every text field, and the
//! seeding of each field's variation list with its raw surface form.
use vstd::prelude::*;
use vstd::string::StrSliceExecFns;
use crate::engine::scorable;
use crate::identity::IdentityNode;
use crate::normalize::{normalize, spec_normalize};
use crate::score::MAX_NAME_LEN;
use crate::text::str_eq;

verus! {

/// Decade bucket for a birth year: the year rounded down to a multiple
/// of ten.
pub fn generation_key(year: i32) -> (r: i32)
    requires
        0 <= year,
    ensures
        r == 10 * (year as int / 10),
        r <= year < r + 10,
{
    (year / 10) * 10
}

/// The sex code a raw store attribute stands for: male and female by
/// digit or by word, zero otherwise.
pub open spec fn spec_sex_code(s: Seq<char>) -> u8 {
    if s == "1"@ || s == "ذكر"@ {
        1u8
    } else if s == "2"@ || s == "أنثى"@ {
        2u8
    } else {
        0u8
    }
}

/// Map a raw sex attribute to its code.
pub fn sex_code(s: &str) -> (r: u8)
    ensures
        r == spec_sex_code(s@),
{
    if str_eq(s, "1") || str_eq(s, "ذكر") {
        1
    } else if str_eq(s, "2") || str_eq(s, "أنثى") {
        2
    } else {
        0
    }
}

/// Whether a row's fields all normalize into the scorer's length bound.
pub open spec fn row_fits(
    first: Seq<char>,
    last: Seq<char>,
    father: Seq<char>,
    grandfather: Seq<char>,
    mother_last: Seq<char>,
    mother: Seq<char>,
    place: Seq<char>,
) -> bool {
    &&& spec_normalize(first).len() <= MAX_NAME_LEN as int
    &&& spec_normalize(last).len() <= MAX_NAME_LEN as int
    &&& spec_normalize(father).len() <= MAX_NAME_LEN as int
    &&& spec_normalize(grandfather).len() <= MAX_NAME_LEN as int
    &&& spec_normalize(mother_last).len() <= MAX_NAME_LEN as int
    &&& spec_normalize(mother).len() <= MAX_NAME_LEN as int
    &&& spec_normalize(place).len() <= MAX_NAME_LEN as int
}

/// Build one reference record from the raw fields of a store row: each
/// name and the place normalized once, the raw surface form seeding the
/// field's variation list, sex mapped to its code. A row whose
/// normalized fields outgrow the scorer's bound is refused.
pub fn identity_from_row(
    first: &str,
    last: &str,
    father: &str,
    grandfather: &str,
    mother_last: &str,
    mother: &str,
    day: u32,
    month: u32,
    year: u32,
    gender: &str,
    place: &str,
) -> (r: Option<IdentityNode>)
    ensures
        match r {
            Some(n) => {
                &&& row_fits(first@, last@, father@, grandfather@, mother_last@, mother@, place@)
                &&& scorable(&n)
                &&& n.first_name@ == spec_normalize(first@)
                &&& n.last_name@ == spec_normalize(last@)
                &&& n.father_name@ == spec_normalize(father@)
                &&& n.grandfather_name@ == spec_normalize(grandfather@)
                &&& n.mother_last_name@ == spec_normalize(mother_last@)
                &&& n.mother_name@ == spec_normalize(mother@)
                &&& n.place_of_birth@ == spec_normalize(place@)
                &&& n.dob == Some((day, month, year))
                &&& n.sex == spec_sex_code(gender@)
                &&& n.first_name_variations.deep_view() == seq![first@]
                &&& n.last_name_variations.deep_view() == seq![last@]
                &&& n.father_name_variations.deep_view() == seq![father@]
                &&& n.grandfather_name_variations.deep_view() == seq![grandfather@]
                &&& n.mother_last_name_variations.deep_view() == seq![mother_last@]
                &&& n.mother_name_variations.deep_view() == seq![mother@]
            },
            None => !row_fits(
                first@,
                last@,
                father@,
                grandfather@,
                mother_last@,
                mother@,
                place@,
            ),
        },
{
    let base_first = normalize(first);
    let base_last = normalize(last);
    let base_father = normalize(father);
    let base_grandfather = normalize(grandfather);
    let base_mother_last = normalize(mother_last);
    let base_mother = normalize(mother);
    let base_place = normalize(place);
    if base_first.unicode_len() > MAX_NAME_LEN || base_last.unicode_len() > MAX_NAME_LEN
        || base_father.unicode_len() > MAX_NAME_LEN || base_grandfather.unicode_len()
        > MAX_NAME_LEN || base_mother_last.unicode_len() > MAX_NAME_LEN
        || base_mother.unicode_len() > MAX_NAME_LEN || base_place.unicode_len() > MAX_NAME_LEN {
        return None;
    }
    let mut fv: Vec<String> = Vec::new();
    fv.push(first.to_owned());
    let mut lv: Vec<String> = Vec::new();
    lv.push(last.to_owned());
    let mut fav: Vec<String> = Vec::new();
    fav.push(father.to_owned());
    let mut gv: Vec<String> = Vec::new();
    gv.push(grandfather.to_owned());
    let mut mlv: Vec<String> = Vec::new();
    mlv.push(mother_last.to_owned());
    let mut mv: Vec<String> = Vec::new();
    mv.push(mother.to_owned());
    proof {
        assert(fv.deep_view() =~= seq![first@]);
        assert(lv.deep_view() =~= seq![last@]);
        assert(fav.deep_view() =~= seq![father@]);
        assert(gv.deep_view() =~= seq![grandfather@]);
        assert(mlv.deep_view() =~= seq![mother_last@]);
        assert(mv.deep_view() =~= seq![mother@]);
    }
    Some(
        IdentityNode {
            first_name: base_first,
            last_name: base_last,
            father_name: base_father,
            grandfather_name: base_grandfather,
            mother_last_name: base_mother_last,
            mother_name: base_mother,
            dob: Some((day, month, year)),
            sex: sex_code(gender),
            place_of_birth: base_place,
            first_name_variations: fv,
            last_name_variations: lv,
            father_name_variations: fav,
            grandfather_name_variations: gv,
            mother_last_name_variations: mlv,
            mother_name_variations: mv,
        },
    )
}

} // verus!
