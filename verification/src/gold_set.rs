//! Gold-set handling for offline evaluation: parsing the record table
//! from its comma-separated text form, and resolving record identifiers
//! against the identity dictionary.
use vstd::prelude::*;
use crate::identity::{node_key, IdentityNode};
use crate::text::{chars_vec, string_from_chars};

verus! {

/// Identity snapshot used by gold-set evaluation.
pub struct GoldSetIdentity {
    pub first_name: String,
    pub last_name: String,
    pub father_name: String,
    pub grandfather_name: String,
    pub mother_last_name: String,
    pub mother_name: String,
    pub dob: Option<(u32, u32, u32)>,
    pub sex: u8,
    pub place_of_birth: String,
}

/// One labelled pair of record identifiers in a gold-set file.
pub struct GoldSetRecord {
    pub input_id: String,
    pub candidate_id: String,
    pub is_match: bool,
}

/// Index of the first occurrence of `sep`, or the length when absent.
pub open spec fn first_sep(s: Seq<char>, sep: char) -> int
    decreases s.len(),
{
    if s.len() == 0 {
        0
    } else if s[0] == sep {
        0
    } else {
        1 + first_sep(s.drop_first(), sep)
    }
}

proof fn lemma_first_sep_le(s: Seq<char>, sep: char)
    ensures
        0 <= first_sep(s, sep) <= s.len(),
        first_sep(s, sep) < s.len() ==> s[first_sep(s, sep)] == sep,
        forall|i: int| 0 <= i < first_sep(s, sep) ==> s[i] != sep,
    decreases s.len(),
{
    if s.len() > 0 && s[0] != sep {
        lemma_first_sep_le(s.drop_first(), sep);
        assert forall|i: int| 0 <= i < first_sep(s, sep) implies s[i] != sep by {
            if i > 0 {
                assert(s.drop_first()[i - 1] == s[i]);
            }
        }
        if first_sep(s, sep) < s.len() {
            assert(s.drop_first()[first_sep(s.drop_first(), sep)] == s[first_sep(s, sep)]);
        }
    }
}

/// The tokens `sep` splits `s` into; a trailing separator yields a
/// final empty token, and the empty string yields one empty token.
pub open spec fn spec_split(s: Seq<char>, sep: char) -> Seq<Seq<char>>
    decreases s.len(),
{
    let k0 = first_sep(s, sep);
    let k = if 0 <= k0 <= s.len() {
        k0
    } else {
        s.len() as int
    };
    if k == s.len() {
        seq![s]
    } else {
        seq![s.take(k)] + spec_split(s.skip(k + 1), sep)
    }
}

proof fn lemma_first_sep_concat(cur: Seq<char>, rest: Seq<char>, sep: char)
    requires
        forall|i: int| 0 <= i < cur.len() ==> cur[i] != sep,
    ensures
        first_sep(cur + seq![sep] + rest, sep) == cur.len(),
    decreases cur.len(),
{
    let s = cur + seq![sep] + rest;
    if cur.len() == 0 {
        assert(s[0] == sep);
    } else {
        assert(s[0] == cur[0]);
        assert(s.drop_first() =~= cur.drop_first() + seq![sep] + rest);
        assert(forall|i: int| 0 <= i < cur.drop_first().len() ==> cur.drop_first()[i] != sep);
        lemma_first_sep_concat(cur.drop_first(), rest, sep);
    }
}

proof fn lemma_split_head(cur: Seq<char>, rest: Seq<char>, sep: char)
    requires
        forall|i: int| 0 <= i < cur.len() ==> cur[i] != sep,
    ensures
        spec_split(cur + seq![sep] + rest, sep) == seq![cur] + spec_split(rest, sep),
{
    let s = cur + seq![sep] + rest;
    lemma_first_sep_concat(cur, rest, sep);
    assert(s.take(cur.len() as int) =~= cur);
    assert(s.skip(cur.len() as int + 1) =~= rest);
}

proof fn lemma_split_last(cur: Seq<char>, sep: char)
    requires
        forall|i: int| 0 <= i < cur.len() ==> cur[i] != sep,
    ensures
        spec_split(cur, sep) == seq![cur],
{
    lemma_first_sep_le(cur, sep);
    if first_sep(cur, sep) < cur.len() {
        assert(cur[first_sep(cur, sep)] == sep);
    }
}

/// Split a string on a separator character.
#[verifier::loop_isolation(false)]
pub fn split_string(s: &str, sep: char) -> (r: Vec<String>)
    ensures
        r.deep_view() == spec_split(s@, sep),
{
    let v = chars_vec(s);
    let mut out: Vec<String> = Vec::new();
    let mut cur: Vec<char> = Vec::new();
    let mut i: usize = 0;
    proof {
        assert(cur@ + v@.skip(0) =~= v@);
    }
    while i < v.len()
        invariant
            i <= v@.len(),
            forall|j: int| 0 <= j < cur@.len() ==> cur@[j] != sep,
            spec_split(v@, sep) == out.deep_view() + spec_split(cur@ + v@.skip(i as int), sep),
        decreases v@.len() - i,
    {
        let c = v[i];
        let ghost pre_cur = cur@;
        let ghost pre_out = out.deep_view();
        proof {
            assert(pre_cur + v@.skip(i as int) =~= pre_cur + seq![v@[i as int]] + v@.skip(i + 1));
        }
        if c == sep {
            proof {
                lemma_split_head(pre_cur, v@.skip(i + 1), sep);
            }
            out.push(string_from_chars(&cur));
            cur = Vec::new();
            proof {
                assert(out.deep_view() =~= pre_out.push(pre_cur));
                assert(out.deep_view() + spec_split(cur@ + v@.skip(i + 1), sep) =~= pre_out + (
                seq![pre_cur] + spec_split(v@.skip(i + 1), sep)));
                assert(cur@ + v@.skip(i + 1) =~= v@.skip(i + 1));
            }
        } else {
            cur.push(c);
            proof {
                assert(cur@ + v@.skip(i + 1) =~= pre_cur + seq![v@[i as int]] + v@.skip(i + 1));
            }
        }
        i = i + 1;
    }
    proof {
        assert(cur@ + v@.skip(v@.len() as int) =~= cur@);
        lemma_split_last(cur@, sep);
    }
    out.push(string_from_chars(&cur));
    proof {
        assert(out.deep_view() =~= spec_split(v@, sep));
    }
    out
}

pub open spec fn is_digit(c: char) -> bool {
    '0' <= c <= '9'
}

/// A match label: the numeric value one, written with any number of
/// leading zeros. Anything else, digits or not, labels a non-match.
pub open spec fn spec_label_is_match(s: Seq<char>) -> bool {
    &&& s.len() >= 1
    &&& forall|i: int| 0 <= i < s.len() ==> is_digit(#[trigger] s[i])
    &&& s.last() == '1'
    &&& forall|i: int| 0 <= i < s.len() - 1 ==> s[i] == '0'
}

fn label_is_match(s: &str) -> (r: bool)
    ensures
        r == spec_label_is_match(s@),
{
    let v = chars_vec(s);
    let n = v.len();
    if n == 0 {
        return false;
    }
    let mut i: usize = 0;
    while i < n - 1
        invariant
            v@ == s@,
            n == v@.len(),
            n >= 1,
            i <= n - 1,
            forall|j: int| 0 <= j < i ==> v@[j] == '0',
        decreases n - 1 - i,
    {
        if v[i] != '0' {
            proof {
                assert(!spec_label_is_match(s@)) by {
                    if spec_label_is_match(s@) {
                        assert(s@[i as int] == '0');
                    }
                }
            }
            return false;
        }
        i = i + 1;
    }
    v[n - 1] == '1'
}

/// The labelled identifier pairs of a gold-set table in text form: one
/// record per line after the header line, fields separated by commas,
/// lines with fewer than three fields skipped.
pub open spec fn spec_csv_records(lines: Seq<Seq<char>>, from: int) -> Seq<
    (Seq<char>, Seq<char>, bool),
>
    decreases lines.len() - from when 0 <= from <= lines.len()
{
    if from >= lines.len() {
        Seq::empty()
    } else {
        let fields = spec_split(lines[from], ',');
        if fields.len() >= 3 {
            seq![(fields[0], fields[1], spec_label_is_match(fields[2]))] + spec_csv_records(
                lines,
                from + 1,
            )
        } else {
            spec_csv_records(lines, from + 1)
        }
    }
}

/// Parse gold-set records out of comma-separated text: a header line,
/// then one `input_id,candidate_id,label` record per line.
#[verifier::loop_isolation(false)]
pub fn parse_gold_set_csv(content: &str) -> (r: Vec<GoldSetRecord>)
    ensures
        ({
            let lines = spec_split(content@, '\n');
            let recs = spec_csv_records(lines, 1);
            &&& r@.len() == recs.len()
            &&& forall|k: int|
                0 <= k < r@.len() ==> (#[trigger] r@[k]).input_id@ == recs[k].0
                    && r@[k].candidate_id@ == recs[k].1 && r@[k].is_match == recs[k].2
        }),
{
    let lines = split_string(content, '\n');
    let ghost lv = lines.deep_view();
    let mut out: Vec<GoldSetRecord> = Vec::new();
    let mut i: usize = 1;
    proof {
        assert(lv.len() >= 1);
    }
    while i < lines.len()
        invariant
            1 <= i <= lv.len(),
            spec_csv_records(lv, 1) == out@.map_values(
                |g: GoldSetRecord| (g.input_id@, g.candidate_id@, g.is_match),
            ) + spec_csv_records(lv, i as int),
        decreases lv.len() - i,
    {
        let fields = split_string(lines[i].as_str(), ',');
        proof {
            assert(lines.deep_view()[i as int] == lines@[i as int]@);
            assert(fields.deep_view() == spec_split(lv[i as int], ','));
        }
        let ghost pre = out@.map_values(|g: GoldSetRecord| (g.input_id@, g.candidate_id@, g.is_match));
        if fields.len() >= 3 {
            let is_match = label_is_match(fields[2].as_str());
            proof {
                assert(fields.deep_view()[0] == fields@[0]@);
                assert(fields.deep_view()[1] == fields@[1]@);
                assert(fields.deep_view()[2] == fields@[2]@);
            }
            out.push(
                GoldSetRecord {
                    input_id: fields[0].clone(),
                    candidate_id: fields[1].clone(),
                    is_match,
                },
            );
            proof {
                let post = out@.map_values(
                    |g: GoldSetRecord| (g.input_id@, g.candidate_id@, g.is_match),
                );
                assert(post =~= pre + seq![
                    (fields@[0]@, fields@[1]@, is_match),
                ]);
            }
        }
        i = i + 1;
    }
    proof {
        let post = out@.map_values(|g: GoldSetRecord| (g.input_id@, g.candidate_id@, g.is_match));
        assert forall|k: int| 0 <= k < out@.len() implies (#[trigger] out@[k]).input_id@
            == spec_csv_records(lv, 1)[k].0 && out@[k].candidate_id@ == spec_csv_records(lv, 1)[k].1
            && out@[k].is_match == spec_csv_records(lv, 1)[k].2 by {
            assert(spec_csv_records(lv, 1)[k] == post[k]);
        }
    }
    out
}

/// The position of the first dictionary entry whose key spells `id`, or
/// the dictionary's length when none does.
pub open spec fn find_pos(s: Seq<IdentityNode>, id: Seq<char>) -> int
    decreases s.len(),
{
    if s.len() == 0 {
        0
    } else if node_key(&s.first()) == id {
        0
    } else {
        1 + find_pos(s.drop_first(), id)
    }
}

proof fn lemma_find_pos_char(s: Seq<IdentityNode>, id: Seq<char>, idx: int)
    requires
        0 <= idx <= s.len(),
        forall|j: int| 0 <= j < idx ==> node_key(&s[j]) != id,
        idx < s.len() ==> node_key(&s[idx]) == id,
    ensures
        find_pos(s, id) == idx,
    decreases s.len(),
{
    if s.len() > 0 && idx > 0 {
        lemma_find_pos_char(s.drop_first(), id, idx - 1);
    }
}

/// The snapshot a dictionary node yields.
pub open spec fn gold_of(n: IdentityNode, g: GoldSetIdentity) -> bool {
    &&& g.first_name@ == n.first_name@
    &&& g.last_name@ == n.last_name@
    &&& g.father_name@ == n.father_name@
    &&& g.grandfather_name@ == n.grandfather_name@
    &&& g.mother_last_name@ == n.mother_last_name@
    &&& g.mother_name@ == n.mother_name@
    &&& g.dob == n.dob
    &&& g.sex == n.sex
    &&& g.place_of_birth@ == n.place_of_birth@
}

/// Look an identifier up in the dictionary; the identifier of a record
/// is the concatenation of its six name fields.
#[verifier::loop_isolation(false)]
pub fn find_identity_by_id(dictionary: &Vec<IdentityNode>, id: &str) -> (r: Option<
    GoldSetIdentity,
>)
    ensures
        ({
            let pos = find_pos(dictionary@, id@);
            match r {
                Some(g) => pos < dictionary@.len() && gold_of(dictionary@[pos], g),
                None => pos == dictionary@.len(),
            }
        }),
{
    let idv = chars_vec(id);
    let mut i: usize = 0;
    while i < dictionary.len()
        invariant
            i <= dictionary@.len(),
            idv@ == id@,
            forall|j: int| 0 <= j < i ==> node_key(&dictionary@[j]) != id@,
        decreases dictionary@.len() - i,
    {
        let node = &dictionary[i];
        let nk = crate::identity::key_chars(node);
        let (_, eq) = crate::text::lex_cmp(&nk, &idv);
        if eq {
            proof {
                lemma_find_pos_char(dictionary@, id@, i as int);
            }
            return Some(
                GoldSetIdentity {
                    first_name: node.first_name.clone(),
                    last_name: node.last_name.clone(),
                    father_name: node.father_name.clone(),
                    grandfather_name: node.grandfather_name.clone(),
                    mother_last_name: node.mother_last_name.clone(),
                    mother_name: node.mother_name.clone(),
                    dob: node.dob,
                    sex: node.sex,
                    place_of_birth: node.place_of_birth.clone(),
                },
            );
        }
        proof {
            if node_key(&dictionary@[i as int]) == id@ {
                crate::text::lemma_lex_irrefl(id@);
            }
        }
        i = i + 1;
    }
    proof {
        lemma_find_pos_char(dictionary@, id@, dictionary@.len() as int);
    }
    None
}

pub open spec fn found(dict: Seq<IdentityNode>, id: Seq<char>) -> bool {
    find_pos(dict, id) < dict.len()
}

/// How many records resolve both of their identifiers.
pub open spec fn count_found(
    dict: Seq<IdentityNode>,
    recs: Seq<GoldSetRecord>,
    upto: int,
) -> int
    decreases upto,
{
    if upto <= 0 {
        0
    } else {
        count_found(dict, recs, upto - 1) + if found(dict, recs[upto - 1].input_id@) && found(
            dict,
            recs[upto - 1].candidate_id@,
        ) {
            1int
        } else {
            0int
        }
    }
}

/// An output entry that some input record explains: both identifiers
/// resolve, the label is the record's, and the two identities snapshot
/// the nodes the identifiers point at.
pub open spec fn resolved_entry(
    dict: Seq<IdentityNode>,
    recs: Seq<GoldSetRecord>,
    e: (GoldSetIdentity, GoldSetIdentity, bool),
) -> bool {
    exists|w: int|
        0 <= w < recs.len() && found(dict, #[trigger] recs[w].input_id@) && found(
            dict,
            recs[w].candidate_id@,
        ) && e.2 == recs[w].is_match && gold_of(dict[find_pos(dict, recs[w].input_id@)], e.0)
            && gold_of(dict[find_pos(dict, recs[w].candidate_id@)], e.1)
}

/// Resolve every gold-set record against the dictionary; records whose
/// identifiers both resolve yield a labelled pair of identities, in
/// input order.
#[verifier::loop_isolation(false)]
pub fn load_gold_set(records: &Vec<GoldSetRecord>, dictionary: &Vec<IdentityNode>) -> (r: Vec<
    (GoldSetIdentity, GoldSetIdentity, bool),
>)
    ensures
        r@.len() == count_found(dictionary@, records@, records@.len() as int),
        forall|k: int|
            0 <= k < r@.len() ==> resolved_entry(dictionary@, records@, #[trigger] r@[k]),
{
    let mut out: Vec<(GoldSetIdentity, GoldSetIdentity, bool)> = Vec::new();
    let mut i: usize = 0;
    while i < records.len()
        invariant
            i <= records@.len(),
            out@.len() == count_found(dictionary@, records@, i as int),
            forall|k: int|
                0 <= k < out@.len() ==> resolved_entry(dictionary@, records@, #[trigger] out@[k]),
        decreases records@.len() - i,
    {
        let rec = &records[i];
        let a = find_identity_by_id(dictionary, rec.input_id.as_str());
        let b = find_identity_by_id(dictionary, rec.candidate_id.as_str());
        match (a, b) {
            (Some(ga), Some(gb)) => {
                let ghost pre_out = out@;
                out.push((ga, gb, rec.is_match));
                proof {
                    let k = pre_out.len() as int;
                    assert(0 <= i < records@.len() && found(
                        dictionary@,
                        records@[i as int].input_id@,
                    ) && found(dictionary@, records@[i as int].candidate_id@) && out@[k].2
                        == records@[i as int].is_match && gold_of(
                        dictionary@[find_pos(dictionary@, records@[i as int].input_id@)],
                        out@[k].0,
                    ) && gold_of(
                        dictionary@[find_pos(dictionary@, records@[i as int].candidate_id@)],
                        out@[k].1,
                    ));
                    assert(resolved_entry(dictionary@, records@, out@[k]));
                    assert(forall|k2: int| 0 <= k2 < k ==> out@[k2] == pre_out[k2]);
                }
            },
            _ => {},
        }
        i = i + 1;
    }
    out
}

} // verus!
