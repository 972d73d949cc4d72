//! Reference records and the in-memory identity dictionary. Variations
//! and the record collection are flat vectors: variations stay sorted and
//! duplicate-free, and the dictionary is keyed by the concatenation of
//! the six name fields.
use vstd::prelude::*;
use crate::text::{chars_vec, lex_cmp, lex_lt, lemma_lex_irrefl, lemma_lex_asym, lemma_lex_connex, lemma_lex_trans};

verus! {

/// A reference record: six normalized name fields, each with the raw
/// surface variations observed for it, plus date of birth, sex code and
/// place of birth.
pub struct IdentityNode {
    pub first_name: String,
    pub last_name: String,
    pub father_name: String,
    pub grandfather_name: String,
    pub mother_last_name: String,
    pub mother_name: String,
    pub dob: Option<(u32, u32, u32)>,
    pub sex: u8,
    pub place_of_birth: String,
    pub first_name_variations: Vec<String>,
    pub last_name_variations: Vec<String>,
    pub father_name_variations: Vec<String>,
    pub grandfather_name_variations: Vec<String>,
    pub mother_last_name_variations: Vec<String>,
    pub mother_name_variations: Vec<String>,
}

/// The dictionary key of a record: its six name fields, concatenated.
pub open spec fn node_key(n: &IdentityNode) -> Seq<char> {
    n.first_name@ + n.last_name@ + n.father_name@ + n.grandfather_name@ + n.mother_last_name@
        + n.mother_name@
}

/// Insertion of a variation into a sorted duplicate-free list: walk
/// forward past smaller entries, stop on an equal one, insert before a
/// greater one.
pub open spec fn spec_insert_var(s: Seq<Seq<char>>, v: Seq<char>) -> Seq<Seq<char>>
    decreases s.len(),
{
    if s.len() == 0 {
        seq![v]
    } else if s.first() == v {
        s
    } else if lex_lt(v, s.first()) {
        seq![v] + s
    } else {
        seq![s.first()] + spec_insert_var(s.drop_first(), v)
    }
}

/// Insert `variation` into the sorted list `head`, keeping it sorted and
/// duplicate-free.
pub fn insert_variation(head: &mut Vec<String>, variation: &str)
    ensures
        final(head).deep_view() == spec_insert_var(old(head).deep_view(), variation@),
{
    let vv = chars_vec(variation);
    let mut idx: usize = 0;
    let ghost whole = old(head).deep_view();
    proof {
        assert(whole.skip(0) =~= whole);
        assert(whole.take(0) + spec_insert_var(whole.skip(0), variation@) =~= spec_insert_var(
            whole,
            variation@,
        ));
    }
    loop
        invariant
            idx <= head@.len(),
            whole == old(head).deep_view(),
            head.deep_view() == whole,
            vv@ == variation@,
            spec_insert_var(whole, variation@) == whole.take(idx as int) + spec_insert_var(
                whole.skip(idx as int),
                variation@,
            ),
        decreases head@.len() - idx,
    {
        if idx == head.len() {
            proof {
                assert(whole.skip(idx as int) =~= Seq::<Seq<char>>::empty());
            }
            head.push(variation.to_owned());
            proof {
                assert(head.deep_view() =~= whole.take(whole.len() as int) + seq![variation@]);
                assert(whole.take(whole.len() as int) =~= whole);
                assert(head.deep_view() == spec_insert_var(old(head).deep_view(), variation@));
            }
            return ;
        }
        let hv = chars_vec(head[idx].as_str());
        proof {
            assert(head.deep_view()[idx as int] == head@[idx as int]@);
            assert(whole.skip(idx as int).first() == whole[idx as int]);
        }
        let (lt, eq) = lex_cmp(&vv, &hv);
        if eq {
            proof {
                assert(spec_insert_var(whole.skip(idx as int), variation@) == whole.skip(
                    idx as int,
                ));
                assert(whole.take(idx as int) + whole.skip(idx as int) =~= whole);
                assert(head.deep_view() == spec_insert_var(old(head).deep_view(), variation@));
            }
            return ;
        }
        if lt {
            head.insert(idx, variation.to_owned());
            proof {
                assert(whole[idx as int] != variation@) by {
                    if whole[idx as int] == variation@ {
                        crate::text::lemma_lex_irrefl(variation@);
                    }
                }
                assert(spec_insert_var(whole.skip(idx as int), variation@) == seq![variation@]
                    + whole.skip(idx as int));
                assert(head.deep_view() =~= whole.take(idx as int) + (seq![variation@]
                    + whole.skip(idx as int)));
            }
            return ;
        }
        proof {
            // the current entry is smaller: it stays, and insertion
            // continues in the remainder
            assert(lex_lt(whole[idx as int], variation@));
            lemma_lex_irrefl(whole[idx as int]);
            lemma_lex_asym(whole[idx as int], variation@);
            assert(spec_insert_var(whole.skip(idx as int), variation@) == seq![whole[idx as int]]
                + spec_insert_var(whole.skip(idx as int).drop_first(), variation@));
            assert(whole.skip(idx as int).drop_first() =~= whole.skip(idx + 1));
            assert(whole.take(idx as int) + (seq![whole[idx as int]] + spec_insert_var(
                whole.skip(idx + 1),
                variation@,
            )) =~= whole.take(idx + 1) + spec_insert_var(whole.skip(idx + 1), variation@));
        }
        idx = idx + 1;
    }
}

/// A dictionary in strictly ascending key order; in particular no two
/// entries share a key.
pub open spec fn sorted_by_key(s: Seq<IdentityNode>) -> bool {
    forall|i: int, j: int|
        0 <= i < j < s.len() ==> lex_lt(node_key(&s[i]), node_key(&s[j]))
}

/// The position where a key would sit in the dictionary: the first entry
/// whose key is not smaller.
pub open spec fn scan_pos(s: Seq<IdentityNode>, k: Seq<char>) -> int
    decreases s.len(),
{
    if s.len() == 0 {
        0
    } else if !lex_lt(node_key(&s.first()), k) {
        0
    } else {
        1 + scan_pos(s.drop_first(), k)
    }
}

proof fn lemma_scan_pos_char(s: Seq<IdentityNode>, k: Seq<char>, idx: int)
    requires
        0 <= idx <= s.len(),
        forall|j: int| 0 <= j < idx ==> lex_lt(node_key(&s[j]), k),
        idx < s.len() ==> !lex_lt(node_key(&s[idx]), k),
    ensures
        scan_pos(s, k) == idx,
    decreases s.len(),
{
    if s.len() > 0 {
        if idx > 0 {
            assert(lex_lt(node_key(&s.first()), k));
            lemma_scan_pos_char(s.drop_first(), k, idx - 1);
        }
    }
}

/// The new node that an insertion builds from its arguments: the six
/// names, dob, sex and place as given, and each variation list seeded
/// with the single raw form supplied.
pub open spec fn is_new_node(
    n: &IdentityNode,
    first_name: Seq<char>,
    last_name: Seq<char>,
    father_name: Seq<char>,
    grandfather_name: Seq<char>,
    mother_last_name: Seq<char>,
    mother_name: Seq<char>,
    dob: Option<(u32, u32, u32)>,
    sex: u8,
    place_of_birth: Seq<char>,
    first_name_var: Seq<char>,
    last_name_var: Seq<char>,
    father_name_var: Seq<char>,
    grandfather_name_var: Seq<char>,
    mother_last_name_var: Seq<char>,
    mother_name_var: Seq<char>,
) -> bool {
    &&& n.first_name@ == first_name
    &&& n.last_name@ == last_name
    &&& n.father_name@ == father_name
    &&& n.grandfather_name@ == grandfather_name
    &&& n.mother_last_name@ == mother_last_name
    &&& n.mother_name@ == mother_name
    &&& n.dob == dob
    &&& n.sex == sex
    &&& n.place_of_birth@ == place_of_birth
    &&& n.first_name_variations.deep_view() == seq![first_name_var]
    &&& n.last_name_variations.deep_view() == seq![last_name_var]
    &&& n.father_name_variations.deep_view() == seq![father_name_var]
    &&& n.grandfather_name_variations.deep_view() == seq![grandfather_name_var]
    &&& n.mother_last_name_variations.deep_view() == seq![mother_last_name_var]
    &&& n.mother_name_variations.deep_view() == seq![mother_name_var]
}

/// An existing node with the six raw variations merged into its lists
/// and everything else unchanged.
pub open spec fn vars_merged(
    n: &IdentityNode,
    prev: &IdentityNode,
    first_name_var: Seq<char>,
    last_name_var: Seq<char>,
    father_name_var: Seq<char>,
    grandfather_name_var: Seq<char>,
    mother_last_name_var: Seq<char>,
    mother_name_var: Seq<char>,
) -> bool {
    &&& n.first_name@ == prev.first_name@
    &&& n.last_name@ == prev.last_name@
    &&& n.father_name@ == prev.father_name@
    &&& n.grandfather_name@ == prev.grandfather_name@
    &&& n.mother_last_name@ == prev.mother_last_name@
    &&& n.mother_name@ == prev.mother_name@
    &&& n.dob == prev.dob
    &&& n.sex == prev.sex
    &&& n.place_of_birth@ == prev.place_of_birth@
    &&& n.first_name_variations.deep_view() == spec_insert_var(
        prev.first_name_variations.deep_view(),
        first_name_var,
    )
    &&& n.last_name_variations.deep_view() == spec_insert_var(
        prev.last_name_variations.deep_view(),
        last_name_var,
    )
    &&& n.father_name_variations.deep_view() == spec_insert_var(
        prev.father_name_variations.deep_view(),
        father_name_var,
    )
    &&& n.grandfather_name_variations.deep_view() == spec_insert_var(
        prev.grandfather_name_variations.deep_view(),
        grandfather_name_var,
    )
    &&& n.mother_last_name_variations.deep_view() == spec_insert_var(
        prev.mother_last_name_variations.deep_view(),
        mother_last_name_var,
    )
    &&& n.mother_name_variations.deep_view() == spec_insert_var(
        prev.mother_name_variations.deep_view(),
        mother_name_var,
    )
}

fn concat6(a: &str, b: &str, c: &str, d: &str, e: &str, f: &str) -> (r: Vec<char>)
    ensures
        r@ == a@ + b@ + c@ + d@ + e@ + f@,
{
    let mut r = chars_vec(a);
    let mut t = chars_vec(b);
    r.append(&mut t);
    let mut t = chars_vec(c);
    r.append(&mut t);
    let mut t = chars_vec(d);
    r.append(&mut t);
    let mut t = chars_vec(e);
    r.append(&mut t);
    let mut t = chars_vec(f);
    r.append(&mut t);
    r
}

/// Insert a record into the key-ordered dictionary. A record whose key
/// is already present contributes only its raw variations; a new key
/// makes a new node at its ordered position.
pub fn insert_identity(
    head: &mut Vec<IdentityNode>,
    first_name: &str,
    last_name: &str,
    father_name: &str,
    grandfather_name: &str,
    mother_last_name: &str,
    mother_name: &str,
    dob: Option<(u32, u32, u32)>,
    sex: u8,
    place_of_birth: &str,
    first_name_var: &str,
    last_name_var: &str,
    father_name_var: &str,
    grandfather_name_var: &str,
    mother_last_name_var: &str,
    mother_name_var: &str,
)
    ensures
        sorted_by_key(old(head)@) ==> sorted_by_key(final(head)@),
        ({
            let key = first_name@ + last_name@ + father_name@ + grandfather_name@
                + mother_last_name@ + mother_name@;
            let pos = scan_pos(old(head)@, key);
            if pos < old(head)@.len() && node_key(&old(head)@[pos]) == key {
                &&& final(head)@.len() == old(head)@.len()
                &&& forall|j: int| 0 <= j < final(head)@.len() && j != pos ==> final(head)@[j] == old(head)@[j]
                &&& vars_merged(
                    &final(head)@[pos],
                    &old(head)@[pos],
                    first_name_var@,
                    last_name_var@,
                    father_name_var@,
                    grandfather_name_var@,
                    mother_last_name_var@,
                    mother_name_var@,
                )
            } else {
                &&& final(head)@.len() == old(head)@.len() + 1
                &&& forall|j: int| 0 <= j < pos ==> final(head)@[j] == old(head)@[j]
                &&& forall|j: int| pos < j < final(head)@.len() ==> final(head)@[j] == old(head)@[j - 1]
                &&& is_new_node(
                    &final(head)@[pos],
                    first_name@,
                    last_name@,
                    father_name@,
                    grandfather_name@,
                    mother_last_name@,
                    mother_name@,
                    dob,
                    sex,
                    place_of_birth@,
                    first_name_var@,
                    last_name_var@,
                    father_name_var@,
                    grandfather_name_var@,
                    mother_last_name_var@,
                    mother_name_var@,
                )
            }
        }),
{
    let new_key = concat6(
        first_name,
        last_name,
        father_name,
        grandfather_name,
        mother_last_name,
        mother_name,
    );
    let ghost key = new_key@;
    let ghost orig = old(head)@;
    let mut idx: usize = 0;
    loop
        invariant_except_break
            idx <= head@.len(),
        invariant
            orig == old(head)@,
            head@ == orig,
            new_key@ == key,
            key == first_name@ + last_name@ + father_name@ + grandfather_name@ + mother_last_name@
                + mother_name@,
            forall|j: int| 0 <= j < idx ==> lex_lt(node_key(&orig[j]), key),
        ensures
            idx <= orig.len(),
            idx < orig.len() ==> !lex_lt(node_key(&orig[idx as int]), key) && node_key(
                &orig[idx as int],
            ) != key,
        decreases head@.len() - idx,
    {
        if idx == head.len() {
            break ;
        }
        let nk = concat6(
            head[idx].first_name.as_str(),
            head[idx].last_name.as_str(),
            head[idx].father_name.as_str(),
            head[idx].grandfather_name.as_str(),
            head[idx].mother_last_name.as_str(),
            head[idx].mother_name.as_str(),
        );
        proof {
            assert(nk@ == node_key(&orig[idx as int]));
        }
        let (lt, eq) = lex_cmp(&nk, &new_key);
        if eq {
            proof {
                lemma_lex_irrefl(key);
                lemma_scan_pos_char(orig, key, idx as int);
            }
            let mut node = head.remove(idx);
            insert_variation(&mut node.first_name_variations, first_name_var);
            insert_variation(&mut node.last_name_variations, last_name_var);
            insert_variation(&mut node.father_name_variations, father_name_var);
            insert_variation(&mut node.grandfather_name_variations, grandfather_name_var);
            insert_variation(&mut node.mother_last_name_variations, mother_last_name_var);
            insert_variation(&mut node.mother_name_variations, mother_name_var);
            head.insert(idx, node);
            proof {
                assert(forall|j: int|
                    0 <= j < head@.len() && j != idx ==> head@[j] == orig[j]);
                assert(node_key(&head@[idx as int]) == node_key(&orig[idx as int]));
                if sorted_by_key(orig) {
                    assert forall|a: int, b: int| 0 <= a < b < head@.len() implies lex_lt(
                        node_key(&head@[a]),
                        node_key(&head@[b]),
                    ) by {
                        assert(lex_lt(node_key(&orig[a]), node_key(&orig[b])));
                    }
                }
            }
            return ;
        }
        if !lt {
            break ;
        }
        idx = idx + 1;
    }
    proof {
        lemma_scan_pos_char(orig, key, idx as int);
    }
    let mut fv: Vec<String> = Vec::new();
    fv.push(first_name_var.to_owned());
    let mut lv: Vec<String> = Vec::new();
    lv.push(last_name_var.to_owned());
    let mut fav: Vec<String> = Vec::new();
    fav.push(father_name_var.to_owned());
    let mut gv: Vec<String> = Vec::new();
    gv.push(grandfather_name_var.to_owned());
    let mut mlv: Vec<String> = Vec::new();
    mlv.push(mother_last_name_var.to_owned());
    let mut mv: Vec<String> = Vec::new();
    mv.push(mother_name_var.to_owned());
    let node = IdentityNode {
        first_name: first_name.to_owned(),
        last_name: last_name.to_owned(),
        father_name: father_name.to_owned(),
        grandfather_name: grandfather_name.to_owned(),
        mother_last_name: mother_last_name.to_owned(),
        mother_name: mother_name.to_owned(),
        dob,
        sex,
        place_of_birth: place_of_birth.to_owned(),
        first_name_variations: fv,
        last_name_variations: lv,
        father_name_variations: fav,
        grandfather_name_variations: gv,
        mother_last_name_variations: mlv,
        mother_name_variations: mv,
    };
    proof {
        assert(fv.deep_view() =~= seq![first_name_var@]);
        assert(lv.deep_view() =~= seq![last_name_var@]);
        assert(fav.deep_view() =~= seq![father_name_var@]);
        assert(gv.deep_view() =~= seq![grandfather_name_var@]);
        assert(mlv.deep_view() =~= seq![mother_last_name_var@]);
        assert(mv.deep_view() =~= seq![mother_name_var@]);
    }
    head.insert(idx, node);
    proof {
        assert(node_key(&head@[idx as int]) == key);
        if sorted_by_key(orig) {
            if (idx as int) < orig.len() {
                assert(!lex_lt(node_key(&orig[idx as int]), key));
                assert(node_key(&orig[idx as int]) != key);
                lemma_lex_connex(node_key(&orig[idx as int]), key);
            }
            assert forall|a: int, b: int| 0 <= a < b < head@.len() implies lex_lt(
                node_key(&head@[a]),
                node_key(&head@[b]),
            ) by {
                let n = head@.len();
                if a == idx as int {
                    // the new key sits below every later entry
                    assert(head@[b] == orig[b - 1]);
                    if b - 1 > idx as int {
                        lemma_lex_trans(
                            key,
                            node_key(&orig[idx as int]),
                            node_key(&orig[b - 1]),
                        );
                    }
                } else if b == idx as int {
                    assert(head@[a] == orig[a]);
                    assert(lex_lt(node_key(&orig[a]), key));
                } else if a < idx as int && b > idx as int {
                    assert(head@[a] == orig[a]);
                    assert(head@[b] == orig[b - 1]);
                    if b - 1 == idx as int {
                        assert(lex_lt(node_key(&orig[a]), key));
                    } else {
                        assert(lex_lt(node_key(&orig[a]), node_key(&orig[b - 1])));
                    }
                } else if b < idx as int {
                    assert(head@[a] == orig[a] && head@[b] == orig[b]);
                } else {
                    assert(head@[a] == orig[a - 1] && head@[b] == orig[b - 1]);
                }
            }
        }
    }
}

/// A bulk record handed to the dictionary builder: normalized base
/// fields followed by the raw surface form of each name field.
pub struct RawRecord {
    pub first_name: String,
    pub last_name: String,
    pub father_name: String,
    pub grandfather_name: String,
    pub mother_last_name: String,
    pub mother_name: String,
    pub dob: Option<(u32, u32, u32)>,
    pub sex: u8,
    pub place_of_birth: String,
    pub first_name_var: String,
    pub last_name_var: String,
    pub father_name_var: String,
    pub grandfather_name_var: String,
    pub mother_last_name_var: String,
    pub mother_name_var: String,
}

/// Rebuild the dictionary from bulk records; records sharing one key
/// merge into one node, so the dictionary never outgrows its input.
pub fn rebuild_identity_dictionary(records: Vec<RawRecord>) -> (r: Vec<IdentityNode>)
    ensures
        r@.len() <= records@.len(),
        sorted_by_key(r@),
{
    let mut head: Vec<IdentityNode> = Vec::new();
    let mut i: usize = 0;
    while i < records.len()
        invariant
            i <= records@.len(),
            head@.len() <= i,
            sorted_by_key(head@),
        decreases records@.len() - i,
    {
        let rec = &records[i];
        insert_identity(
            &mut head,
            rec.first_name.as_str(),
            rec.last_name.as_str(),
            rec.father_name.as_str(),
            rec.grandfather_name.as_str(),
            rec.mother_last_name.as_str(),
            rec.mother_name.as_str(),
            rec.dob,
            rec.sex,
            rec.place_of_birth.as_str(),
            rec.first_name_var.as_str(),
            rec.last_name_var.as_str(),
            rec.father_name_var.as_str(),
            rec.grandfather_name_var.as_str(),
            rec.mother_last_name_var.as_str(),
            rec.mother_name_var.as_str(),
        );
        i = i + 1;
    }
    head
}

/// The dictionary key of a record as characters.
pub fn key_chars(n: &IdentityNode) -> (r: Vec<char>)
    ensures
        r@ == node_key(n),
{
    concat6(
        n.first_name.as_str(),
        n.last_name.as_str(),
        n.father_name.as_str(),
        n.grandfather_name.as_str(),
        n.mother_last_name.as_str(),
        n.mother_name.as_str(),
    )
}

impl IdentityNode {
    /// The six name fields, in canonical order.
    pub fn as_tuple(&self) -> (r: (&str, &str, &str, &str, &str, &str))
        ensures
            r.0@ == self.first_name@,
            r.1@ == self.last_name@,
            r.2@ == self.father_name@,
            r.3@ == self.grandfather_name@,
            r.4@ == self.mother_last_name@,
            r.5@ == self.mother_name@,
    {
        (
            self.first_name.as_str(),
            self.last_name.as_str(),
            self.father_name.as_str(),
            self.grandfather_name.as_str(),
            self.mother_last_name.as_str(),
            self.mother_name.as_str(),
        )
    }
}

} // verus!
