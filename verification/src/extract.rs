//! Named-entity extraction from free text: word tokens in Arabic or
//! Latin script are classified as a name or a known location, and the
//! first date in day/month/year form is picked up. The tokenizer and
//! the date pattern are regular expressions; what they return is named,
//! and the classification over the tokens is verified.
use vstd::prelude::*;
use regex::Regex;
use crate::text::str_eq;

verus! {

/// The word tokens the name pattern finds in a text, in order.
pub uninterp spec fn name_tokens(s: Seq<char>) -> Seq<Seq<char>>;

/// The first day/month/year token the date pattern finds in a text.
pub uninterp spec fn date_token(s: Seq<char>) -> Option<Seq<char>>;

/// Relies on regex find_iter with the fixed word pattern of Arabic and
/// Latin letter runs on word boundaries: the matches of a fixed pattern
/// depend on the text alone.
#[verifier::external_body]
fn find_name_tokens(text: &str) -> (r: Vec<String>)
    ensures
        r.deep_view() == name_tokens(text@),
{
    let pattern = Regex::new(r"(?i)\b([A-Za-z\u0600-\u06FF]+)\b").unwrap();
    pattern.find_iter(text).map(|m| m.as_str().to_string()).collect()
}

/// Relies on regex find with the fixed dd/mm/yyyy pattern: the first
/// match of a fixed pattern depends on the text alone.
#[verifier::external_body]
fn find_date_token(text: &str) -> (r: Option<String>)
    ensures
        match r {
            Some(s) => date_token(text@) == Some(s@),
            None => date_token(text@) is None,
        },
{
    let pattern = Regex::new(r"\b(\d{2}/\d{2}/\d{4})\b").unwrap();
    pattern.find(text).map(|m| m.as_str().to_string())
}

/// The location keywords a token is checked against.
pub open spec fn spec_is_location(t: Seq<char>) -> bool {
    ||| t == "تونس"@
    ||| t == "صفاقس"@
    ||| t == "بنزرت"@
    ||| t == "سوسة"@
    ||| t == "نابل"@
    ||| t == "أريانة"@
    ||| t == "منوبة"@
    ||| t == "بن عروس"@
    ||| t == "المنستير"@
    ||| t == "المهدية"@
    ||| t == "الحمامات"@
    ||| t == "القيروان"@
    ||| t == "زغوان"@
    ||| t == "مدنين"@
    ||| t == "تطاوين"@
    ||| t == "توزر"@
    ||| t == "قبلي"@
    ||| t == "قفصة"@
    ||| t == "قابس"@
    ||| t == "جندوبة"@
    ||| t == "الكاف"@
    ||| t == "باجة"@
    ||| t == "سليانة"@
    ||| t == "القصرين"@
}

fn is_location(t: &str) -> (r: bool)
    ensures
        r == spec_is_location(t@),
{
    str_eq(t, "تونس") || str_eq(t, "صفاقس") || str_eq(t, "بنزرت") || str_eq(t, "سوسة")
        || str_eq(t, "نابل") || str_eq(t, "أريانة") || str_eq(t, "منوبة") || str_eq(
        t,
        "بن عروس",
    ) || str_eq(t, "المنستير") || str_eq(t, "المهدية") || str_eq(t, "الحمامات") || str_eq(
        t,
        "القيروان",
    ) || str_eq(t, "زغوان") || str_eq(t, "مدنين") || str_eq(t, "تطاوين") || str_eq(t, "توزر")
        || str_eq(t, "قبلي") || str_eq(t, "قفصة") || str_eq(t, "قابس") || str_eq(t, "جندوبة")
        || str_eq(t, "الكاف") || str_eq(t, "باجة") || str_eq(t, "سليانة") || str_eq(
        t,
        "القصرين",
    )
}

/// The last name-class token and the last location-class token among
/// the first `upto` tokens.
pub open spec fn class_fold(tokens: Seq<Seq<char>>, upto: int) -> (
    Option<Seq<char>>,
    Option<Seq<char>>,
)
    decreases upto,
{
    if upto <= 0 {
        (None, None)
    } else {
        let prev = class_fold(tokens, upto - 1);
        let t = tokens[upto - 1];
        if spec_is_location(t) {
            (prev.0, Some(t))
        } else {
            (Some(t), prev.1)
        }
    }
}

/// Pick a probable name, date and place out of free text: the last
/// non-location word token, the first dd/mm/yyyy date, and the last
/// token naming a known location.
#[verifier::loop_isolation(false)]
pub fn extract_named_entities(text: &str) -> (r: (Option<String>, Option<String>, Option<String>))
    ensures
        ({
            let cf = class_fold(name_tokens(text@), name_tokens(text@).len() as int);
            &&& match r.0 {
                Some(s) => cf.0 == Some(s@),
                None => cf.0 is None,
            }
            &&& match r.1 {
                Some(s) => date_token(text@) == Some(s@),
                None => date_token(text@) is None,
            }
            &&& match r.2 {
                Some(s) => cf.1 == Some(s@),
                None => cf.1 is None,
            }
        }),
{
    let tokens = find_name_tokens(text);
    let mut name: Option<String> = None;
    let mut place: Option<String> = None;
    let mut i: usize = 0;
    while i < tokens.len()
        invariant
            i <= tokens@.len(),
            ({
                let cf = class_fold(name_tokens(text@), i as int);
                &&& match name {
                    Some(ref s) => cf.0 == Some(s@),
                    None => cf.0 is None,
                }
                &&& match place {
                    Some(ref s) => cf.1 == Some(s@),
                    None => cf.1 is None,
                }
            }),
        decreases tokens@.len() - i,
    {
        proof {
            assert(tokens.deep_view()[i as int] == tokens@[i as int]@);
        }
        if is_location(tokens[i].as_str()) {
            place = Some(tokens[i].clone());
        } else {
            name = Some(tokens[i].clone());
        }
        i = i + 1;
    }
    let date = find_date_token(text);
    (name, date, place)
}

} // verus!
