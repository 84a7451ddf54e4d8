//! The manager layer: ordering of definition results, line-range reads,
//! the merged workspace file list, the composite referenced-symbols
//! query, and parsing of the language configuration.
use vstd::prelude::*;
use vstd::multiset::Multiset;

use crate::api_types::{Location, LspManagerError, Range, SupportedLanguages};
use crate::text::{lemma_lex_asym, lemma_lex_total, lemma_lex_trans, lex_lt, lower_str, spec_lower,
    spec_trim, str_eq, str_lt, trim_str};

verus! {

/// A typed definition link: target file plus its full and selection
/// ranges.
#[derive(Clone, Debug)]
pub struct LocationLink {
    pub target_path: String,
    pub target_range: Range,
    pub target_selection_range: Range,
}

/// A definition response: a single location, an array of locations, or an
/// array of typed links.
#[derive(Debug)]
pub enum GotoDefinitionResponse {
    Scalar(Location),
    Array(Vec<Location>),
    Links(Vec<LocationLink>),
}

/// Order on locations: by relative path, then start line, then start
/// character.
pub open spec fn loc_le(a: Location, b: Location) -> bool {
    ||| lex_lt(a.path@, b.path@)
    ||| (a.path@ == b.path@ && (a.range.start.line < b.range.start.line || (a.range.start.line
        == b.range.start.line && a.range.start.character <= b.range.start.character)))
}

/// Order on links: by target path, then target start line, then start
/// character.
pub open spec fn link_le(a: LocationLink, b: LocationLink) -> bool {
    ||| lex_lt(a.target_path@, b.target_path@)
    ||| (a.target_path@ == b.target_path@ && (a.target_range.start.line
        < b.target_range.start.line || (a.target_range.start.line == b.target_range.start.line
        && a.target_range.start.character <= b.target_range.start.character)))
}

/// The location order is total.
pub proof fn lemma_loc_le_total(a: Location, b: Location)
    ensures
        loc_le(a, b) || loc_le(b, a),
{
    lemma_lex_total(a.path@, b.path@);
}

/// The location order is transitive.
pub proof fn lemma_loc_le_trans(a: Location, b: Location, c: Location)
    requires
        loc_le(a, b),
        loc_le(b, c),
    ensures
        loc_le(a, c),
{
    if lex_lt(a.path@, b.path@) && lex_lt(b.path@, c.path@) {
        lemma_lex_trans(a.path@, b.path@, c.path@);
    }
    lemma_lex_asym(a.path@, b.path@);
    lemma_lex_asym(b.path@, c.path@);
}

/// The link order is total.
pub proof fn lemma_link_le_total(a: LocationLink, b: LocationLink)
    ensures
        link_le(a, b) || link_le(b, a),
{
    lemma_lex_total(a.target_path@, b.target_path@);
}

/// The link order is transitive.
pub proof fn lemma_link_le_trans(a: LocationLink, b: LocationLink, c: LocationLink)
    requires
        link_le(a, b),
        link_le(b, c),
    ensures
        link_le(a, c),
{
    if lex_lt(a.target_path@, b.target_path@) && lex_lt(b.target_path@, c.target_path@) {
        lemma_lex_trans(a.target_path@, b.target_path@, c.target_path@);
    }
    lemma_lex_asym(a.target_path@, b.target_path@);
    lemma_lex_asym(b.target_path@, c.target_path@);
}

/// Pairwise sortedness of locations.
pub open spec fn sorted_locs(s: Seq<Location>) -> bool {
    forall|i: int, j: int| 0 <= i < j < s.len() ==> loc_le(#[trigger] s[i], #[trigger] s[j])
}

/// Pairwise sortedness of links.
pub open spec fn sorted_links(s: Seq<LocationLink>) -> bool {
    forall|i: int, j: int| 0 <= i < j < s.len() ==> link_le(#[trigger] s[i], #[trigger] s[j])
}

/// Whether two locations carry one sort key.
pub open spec fn loc_key_eq(a: Location, b: Location) -> bool {
    a.path@ == b.path@ && a.range.start.line == b.range.start.line && a.range.start.character
        == b.range.start.character
}

/// No two locations share a sort key. Together with `sorted_locs` this
/// is strict sortedness: every earlier element lies strictly below every
/// later one.
pub open spec fn distinct_loc_keys(s: Seq<Location>) -> bool {
    forall|i: int, j: int|
        0 <= i < j < s.len() ==> !loc_key_eq(#[trigger] s[i], #[trigger] s[j])
}

/// Whether two links carry one sort key.
pub open spec fn link_key_eq(a: LocationLink, b: LocationLink) -> bool {
    a.target_path@ == b.target_path@ && a.target_range.start.line == b.target_range.start.line
        && a.target_range.start.character == b.target_range.start.character
}

/// No two links share a sort key.
pub open spec fn distinct_link_keys(s: Seq<LocationLink>) -> bool {
    forall|i: int, j: int|
        0 <= i < j < s.len() ==> !link_key_eq(#[trigger] s[i], #[trigger] s[j])
}

/// Key distinctness survives permutation: a rearrangement of a sequence
/// with no two locations on one key has no two locations on one key
/// either. Applied to a sorted rearrangement, this is the strict order
/// of definition results: ordered with no equal keys, whenever the
/// analyzer reported no two results on one key.
pub proof fn lemma_loc_keys_permuted(v: Seq<Location>, r: Seq<Location>)
    requires
        r.to_multiset() == v.to_multiset(),
        distinct_loc_keys(v),
    ensures
        distinct_loc_keys(r),
{
    v.to_multiset_ensures();
    r.to_multiset_ensures();
    assert forall|i: int, j: int| 0 <= i < j < r.len() implies !loc_key_eq(
        #[trigger] r[i],
        #[trigger] r[j],
    ) by {
        if loc_key_eq(r[i], r[j]) {
            if r[i] == r[j] {
                let ri = r.remove(i);
                ri.to_multiset_ensures();
                assert(ri.to_multiset() =~= r.to_multiset().remove(r[i]));
                assert(ri[j - 1] == r[j]);
                assert(ri.contains(r[i]));
                assert(ri.to_multiset().count(r[i]) > 0);
                assert(r.to_multiset().count(r[i]) >= 2) by {
                    assert(r.to_multiset().contains(r[i]));
                    assert(r.to_multiset().remove(r[i]).count(r[i]) == r.to_multiset().count(
                        r[i],
                    ) - 1);
                };
                assert(v.to_multiset().count(r[i]) >= 2);
                assert(v.contains(r[i]));
                let a = choose|a: int| 0 <= a < v.len() && v[a] == r[i];
                let va = v.remove(a);
                va.to_multiset_ensures();
                assert(va.to_multiset() =~= v.to_multiset().remove(v[a]));
                assert(va.to_multiset().count(r[i]) == v.to_multiset().count(r[i]) - 1);
                assert(va.to_multiset().count(r[i]) > 0);
                assert(va.contains(r[i]));
                let b = choose|b: int| 0 <= b < va.len() && va[b] == r[i];
                let b2: int = if b < a {
                    b
                } else {
                    b + 1
                };
                assert(v[b2] == r[i]);
                assert(b2 != a);
                assert(loc_key_eq(v[a], v[b2]));
                if a < b2 {
                    assert(!loc_key_eq(v[a], v[b2]));
                } else {
                    assert(!loc_key_eq(v[b2], v[a]));
                    assert(loc_key_eq(v[b2], v[a]));
                }
            } else {
                assert(r.contains(r[i]));
                assert(r.contains(r[j]));
                assert(v.to_multiset().count(r[i]) > 0);
                assert(v.to_multiset().count(r[j]) > 0);
                assert(v.contains(r[i]));
                assert(v.contains(r[j]));
                let a = choose|a: int| 0 <= a < v.len() && v[a] == r[i];
                let b = choose|b: int| 0 <= b < v.len() && v[b] == r[j];
                assert(a != b);
                assert(loc_key_eq(v[a], v[b]));
                if a < b {
                    assert(!loc_key_eq(v[a], v[b]));
                } else {
                    assert(!loc_key_eq(v[b], v[a]));
                    assert(loc_key_eq(v[b], v[a]));
                }
            }
        }
    };
}

/// Key distinctness survives permutation, for links.
pub proof fn lemma_link_keys_permuted(v: Seq<LocationLink>, r: Seq<LocationLink>)
    requires
        r.to_multiset() == v.to_multiset(),
        distinct_link_keys(v),
    ensures
        distinct_link_keys(r),
{
    v.to_multiset_ensures();
    r.to_multiset_ensures();
    assert forall|i: int, j: int| 0 <= i < j < r.len() implies !link_key_eq(
        #[trigger] r[i],
        #[trigger] r[j],
    ) by {
        if link_key_eq(r[i], r[j]) {
            if r[i] == r[j] {
                let ri = r.remove(i);
                ri.to_multiset_ensures();
                assert(ri.to_multiset() =~= r.to_multiset().remove(r[i]));
                assert(ri[j - 1] == r[j]);
                assert(ri.contains(r[i]));
                assert(ri.to_multiset().count(r[i]) > 0);
                assert(r.to_multiset().count(r[i]) >= 2) by {
                    assert(r.to_multiset().contains(r[i]));
                    assert(r.to_multiset().remove(r[i]).count(r[i]) == r.to_multiset().count(
                        r[i],
                    ) - 1);
                };
                assert(v.to_multiset().count(r[i]) >= 2);
                assert(v.contains(r[i]));
                let a = choose|a: int| 0 <= a < v.len() && v[a] == r[i];
                let va = v.remove(a);
                va.to_multiset_ensures();
                assert(va.to_multiset() =~= v.to_multiset().remove(v[a]));
                assert(va.to_multiset().count(r[i]) == v.to_multiset().count(r[i]) - 1);
                assert(va.to_multiset().count(r[i]) > 0);
                assert(va.contains(r[i]));
                let b = choose|b: int| 0 <= b < va.len() && va[b] == r[i];
                let b2: int = if b < a {
                    b
                } else {
                    b + 1
                };
                assert(v[b2] == r[i]);
                assert(b2 != a);
                assert(link_key_eq(v[a], v[b2]));
                if a < b2 {
                    assert(!link_key_eq(v[a], v[b2]));
                } else {
                    assert(!link_key_eq(v[b2], v[a]));
                    assert(link_key_eq(v[b2], v[a]));
                }
            } else {
                assert(r.contains(r[i]));
                assert(r.contains(r[j]));
                assert(v.to_multiset().count(r[i]) > 0);
                assert(v.to_multiset().count(r[j]) > 0);
                assert(v.contains(r[i]));
                assert(v.contains(r[j]));
                let a = choose|a: int| 0 <= a < v.len() && v[a] == r[i];
                let b = choose|b: int| 0 <= b < v.len() && v[b] == r[j];
                assert(a != b);
                assert(link_key_eq(v[a], v[b]));
                if a < b {
                    assert(!link_key_eq(v[a], v[b]));
                } else {
                    assert(!link_key_eq(v[b], v[a]));
                    assert(link_key_eq(v[b], v[a]));
                }
            }
        }
    };
}

/// Pairwise sortedness of strings.
pub open spec fn sorted_strings(s: Seq<String>) -> bool {
    forall|i: int, j: int|
        0 <= i < j < s.len() ==> lex_lt((#[trigger] s[i])@, (#[trigger] s[j])@) || s[i]@ == s[j]@
}

fn loc_le_exec(a: &Location, b: &Location) -> (r: bool)
    ensures
        r == loc_le(*a, *b),
{
    if str_lt(a.path.as_str(), b.path.as_str()) {
        true
    } else if str_eq(a.path.as_str(), b.path.as_str()) {
        a.range.start.line < b.range.start.line || (a.range.start.line == b.range.start.line
            && a.range.start.character <= b.range.start.character)
    } else {
        false
    }
}

fn link_le_exec(a: &LocationLink, b: &LocationLink) -> (r: bool)
    ensures
        r == link_le(*a, *b),
{
    if str_lt(a.target_path.as_str(), b.target_path.as_str()) {
        true
    } else if str_eq(a.target_path.as_str(), b.target_path.as_str()) {
        a.target_range.start.line < b.target_range.start.line || (a.target_range.start.line
            == b.target_range.start.line && a.target_range.start.character
            <= b.target_range.start.character)
    } else {
        false
    }
}

/// Sort locations by `(relative_path, start.line, start.character)`:
/// the result is pairwise ordered and a permutation of the input, and
/// strictly sorted — no two elements on one key — whenever the input
/// held no two locations on one key.
pub fn sort_locations(v: Vec<Location>) -> (r: Vec<Location>)
    ensures
        sorted_locs(r@),
        r@.to_multiset() == v@.to_multiset(),
        distinct_loc_keys(v@) ==> distinct_loc_keys(r@),
{
    let mut rest = v;
    let mut out: Vec<Location> = Vec::new();
    let ghost orig = rest@;
    proof {
        orig.to_multiset_ensures();
        let e0: Seq<Location> = out@;
        e0.to_multiset_ensures();
        assert(out@.to_multiset() =~= Multiset::<Location>::empty());
        assert(out@.to_multiset().add(rest@.to_multiset()) =~= rest@.to_multiset());
    }
    while rest.len() > 0
        invariant
            sorted_locs(out@),
            forall|i: int, j: int|
                0 <= i < out@.len() && 0 <= j < rest@.len() ==> loc_le(
                    #[trigger] out@[i],
                    #[trigger] rest@[j],
                ),
            out@.to_multiset().add(rest@.to_multiset()) == orig.to_multiset(),
        decreases rest@.len(),
    {
        let mut m: usize = 0;
        let mut j: usize = 1;
        while j < rest.len()
            invariant
                0 <= m < j <= rest@.len(),
                forall|k: int| 0 <= k < j ==> loc_le(rest@[m as int], #[trigger] rest@[k]),
            decreases rest@.len() - j,
        {
            if loc_le_exec(&rest[j], &rest[m]) {
                proof {
                    assert forall|k: int| 0 <= k < j + 1 implies loc_le(
                        rest@[j as int],
                        #[trigger] rest@[k],
                    ) by {
                        if k < j {
                            lemma_loc_le_trans(rest@[j as int], rest@[m as int], rest@[k]);
                        }
                    };
                }
                m = j;
            } else {
                proof {
                    lemma_loc_le_total(rest@[j as int], rest@[m as int]);
                }
            }
            j = j + 1;
        }
        let ghost pre = rest@;
        let ghost preout = out@;
        let picked = rest.remove(m);
        out.push(picked);
        proof {
            pre.to_multiset_ensures();
            preout.to_multiset_ensures();
            assert(rest@.to_multiset() =~= pre.to_multiset().remove(pre[m as int]));
            assert(out@.to_multiset() =~= preout.to_multiset().insert(pre[m as int]));
            assert(out@.to_multiset().add(rest@.to_multiset()) =~= preout.to_multiset().add(
                pre.to_multiset(),
            ));
            assert(forall|i: int|
                0 <= i < rest@.len() ==> #[trigger] rest@[i] == if i < m {
                    pre[i]
                } else {
                    pre[i + 1]
                });
            assert(forall|i: int|
                0 <= i < preout.len() ==> out@[i] == #[trigger] preout[i]);
            assert(out@[out@.len() - 1] == pre[m as int]);
        }
    }
    proof {
        let empt: Seq<Location> = rest@;
        empt.to_multiset_ensures();
        assert(rest@.to_multiset() =~= Multiset::<Location>::empty());
        assert(out@.to_multiset() =~= orig.to_multiset());
        if distinct_loc_keys(orig) {
            lemma_loc_keys_permuted(orig, out@);
        }
    }
    out
}

/// Sort links by `(target path, start.line, start.character)`: the result
/// is pairwise ordered and a permutation of the input, and strictly
/// sorted whenever the input held no two links on one key.
pub fn sort_links(v: Vec<LocationLink>) -> (r: Vec<LocationLink>)
    ensures
        sorted_links(r@),
        r@.to_multiset() == v@.to_multiset(),
        distinct_link_keys(v@) ==> distinct_link_keys(r@),
{
    let mut rest = v;
    let mut out: Vec<LocationLink> = Vec::new();
    let ghost orig = rest@;
    proof {
        orig.to_multiset_ensures();
        let e0: Seq<LocationLink> = out@;
        e0.to_multiset_ensures();
        assert(out@.to_multiset() =~= Multiset::<LocationLink>::empty());
        assert(out@.to_multiset().add(rest@.to_multiset()) =~= rest@.to_multiset());
    }
    while rest.len() > 0
        invariant
            sorted_links(out@),
            forall|i: int, j: int|
                0 <= i < out@.len() && 0 <= j < rest@.len() ==> link_le(
                    #[trigger] out@[i],
                    #[trigger] rest@[j],
                ),
            out@.to_multiset().add(rest@.to_multiset()) == orig.to_multiset(),
        decreases rest@.len(),
    {
        let mut m: usize = 0;
        let mut j: usize = 1;
        while j < rest.len()
            invariant
                0 <= m < j <= rest@.len(),
                forall|k: int| 0 <= k < j ==> link_le(rest@[m as int], #[trigger] rest@[k]),
            decreases rest@.len() - j,
        {
            if link_le_exec(&rest[j], &rest[m]) {
                proof {
                    assert forall|k: int| 0 <= k < j + 1 implies link_le(
                        rest@[j as int],
                        #[trigger] rest@[k],
                    ) by {
                        if k < j {
                            lemma_link_le_trans(rest@[j as int], rest@[m as int], rest@[k]);
                        }
                    };
                }
                m = j;
            } else {
                proof {
                    lemma_link_le_total(rest@[j as int], rest@[m as int]);
                }
            }
            j = j + 1;
        }
        let ghost pre = rest@;
        let ghost preout = out@;
        let picked = rest.remove(m);
        out.push(picked);
        proof {
            pre.to_multiset_ensures();
            preout.to_multiset_ensures();
            assert(rest@.to_multiset() =~= pre.to_multiset().remove(pre[m as int]));
            assert(out@.to_multiset() =~= preout.to_multiset().insert(pre[m as int]));
            assert(out@.to_multiset().add(rest@.to_multiset()) =~= preout.to_multiset().add(
                pre.to_multiset(),
            ));
            assert(forall|i: int|
                0 <= i < rest@.len() ==> #[trigger] rest@[i] == if i < m {
                    pre[i]
                } else {
                    pre[i + 1]
                });
            assert(forall|i: int|
                0 <= i < preout.len() ==> out@[i] == #[trigger] preout[i]);
            assert(out@[out@.len() - 1] == pre[m as int]);
        }
    }
    proof {
        let empt: Seq<LocationLink> = rest@;
        empt.to_multiset_ensures();
        assert(rest@.to_multiset() =~= Multiset::<LocationLink>::empty());
        assert(out@.to_multiset() =~= orig.to_multiset());
        if distinct_link_keys(orig) {
            lemma_link_keys_permuted(orig, out@);
        }
    }
    out
}

/// Sort strings lexicographically: the result is pairwise ordered and a
/// permutation of the input.
pub fn sort_strings(v: Vec<String>) -> (r: Vec<String>)
    ensures
        sorted_strings(r@),
        r@.to_multiset() == v@.to_multiset(),
{
    let mut rest = v;
    let mut out: Vec<String> = Vec::new();
    let ghost orig = rest@;
    proof {
        orig.to_multiset_ensures();
        let e0: Seq<String> = out@;
        e0.to_multiset_ensures();
        assert(out@.to_multiset() =~= Multiset::<String>::empty());
        assert(out@.to_multiset().add(rest@.to_multiset()) =~= rest@.to_multiset());
    }
    while rest.len() > 0
        invariant
            sorted_strings(out@),
            forall|i: int, j: int|
                0 <= i < out@.len() && 0 <= j < rest@.len() ==> lex_lt(
                    (#[trigger] out@[i])@,
                    (#[trigger] rest@[j])@,
                ) || out@[i]@ == rest@[j]@,
            out@.to_multiset().add(rest@.to_multiset()) == orig.to_multiset(),
        decreases rest@.len(),
    {
        let mut m: usize = 0;
        let mut j: usize = 1;
        while j < rest.len()
            invariant
                0 <= m < j <= rest@.len(),
                forall|k: int|
                    0 <= k < j ==> lex_lt(rest@[m as int]@, (#[trigger] rest@[k])@)
                        || rest@[m as int]@ == rest@[k]@,
            decreases rest@.len() - j,
        {
            let jle = str_lt(rest[j].as_str(), rest[m].as_str()) || str_eq(
                rest[j].as_str(),
                rest[m].as_str(),
            );
            if jle {
                proof {
                    assert forall|k: int|
                        0 <= k < j + 1 implies lex_lt(rest@[j as int]@, (#[trigger] rest@[k])@)
                        || rest@[j as int]@ == rest@[k]@ by {
                        if k < j {
                            if lex_lt(rest@[j as int]@, rest@[m as int]@) && lex_lt(
                                rest@[m as int]@,
                                rest@[k]@,
                            ) {
                                lemma_lex_trans(rest@[j as int]@, rest@[m as int]@, rest@[k]@);
                            }
                        }
                    };
                }
                m = j;
            } else {
                proof {
                    lemma_lex_total(rest@[j as int]@, rest@[m as int]@);
                }
            }
            j = j + 1;
        }
        let ghost pre = rest@;
        let ghost preout = out@;
        let picked = rest.remove(m);
        out.push(picked);
        proof {
            pre.to_multiset_ensures();
            preout.to_multiset_ensures();
            assert(rest@.to_multiset() =~= pre.to_multiset().remove(pre[m as int]));
            assert(out@.to_multiset() =~= preout.to_multiset().insert(pre[m as int]));
            assert(out@.to_multiset().add(rest@.to_multiset()) =~= preout.to_multiset().add(
                pre.to_multiset(),
            ));
            assert(forall|i: int|
                0 <= i < rest@.len() ==> #[trigger] rest@[i] == if i < m {
                    pre[i]
                } else {
                    pre[i + 1]
                });
            assert(forall|i: int|
                0 <= i < preout.len() ==> out@[i] == #[trigger] preout[i]);
            assert(out@[out@.len() - 1] == pre[m as int]);
        }
    }
    proof {
        let empt: Seq<String> = rest@;
        empt.to_multiset_ensures();
        assert(rest@.to_multiset() =~= Multiset::<String>::empty());
        assert(out@.to_multiset() =~= orig.to_multiset());
    }
    out
}

/// Sort a definition response in place: an array of locations or links is
/// ordered by `(path, start.line, start.character)`, strictly so when no
/// two entries share a key; a scalar response is unchanged.
pub fn sort_definition_response(d: GotoDefinitionResponse) -> (r: GotoDefinitionResponse)
    ensures
        match d {
            GotoDefinitionResponse::Scalar(l) => r matches GotoDefinitionResponse::Scalar(l2)
                && l2 == l,
            GotoDefinitionResponse::Array(v) => r matches GotoDefinitionResponse::Array(v2)
                && sorted_locs(v2@) && v2@.to_multiset() == v@.to_multiset() && (distinct_loc_keys(
                v@,
            ) ==> distinct_loc_keys(v2@)),
            GotoDefinitionResponse::Links(v) => r matches GotoDefinitionResponse::Links(v2)
                && sorted_links(v2@) && v2@.to_multiset() == v@.to_multiset()
                && (distinct_link_keys(v@) ==> distinct_link_keys(v2@)),
        },
{
    match d {
        GotoDefinitionResponse::Scalar(l) => GotoDefinitionResponse::Scalar(l),
        GotoDefinitionResponse::Array(v) => GotoDefinitionResponse::Array(sort_locations(v)),
        GotoDefinitionResponse::Links(v) => GotoDefinitionResponse::Links(sort_links(v)),
    }
}

/// Whether some element of `s` views to `x`.
pub open spec fn contains_view(s: Seq<String>, x: Seq<char>) -> bool {
    exists|i: int| 0 <= i < s.len() && (#[trigger] s[i])@ == x
}

/// Strict pairwise sortedness: ordered and free of duplicates.
pub open spec fn strictly_sorted_strings(s: Seq<String>) -> bool {
    forall|i: int, j: int| 0 <= i < j < s.len() ==> lex_lt((#[trigger] s[i])@, (#[trigger] s[j])@)
}

/// Remove duplicates from a sorted string list. The result is strictly
/// sorted and holds exactly the input's elements.
pub fn dedup_sorted_strings(v: Vec<String>) -> (r: Vec<String>)
    requires
        sorted_strings(v@),
    ensures
        strictly_sorted_strings(r@),
        forall|x: Seq<char>| contains_view(r@, x) == contains_view(v@, x),
{
    let mut out: Vec<String> = Vec::new();
    let mut k: usize = 0;
    let n = v.len();
    while k < n
        invariant
            0 <= k <= n == v@.len(),
            sorted_strings(v@),
            strictly_sorted_strings(out@),
            forall|x: Seq<char>|
                contains_view(out@, x) == contains_view(v@.subrange(0, k as int), x),
            k > 0 ==> out@.len() > 0 && out@[out@.len() - 1]@ == v@[k - 1]@,
            k == 0 ==> out@.len() == 0,
        decreases n - k,
    {
        let ghost pre = out@;
        let ghost subk = v@.subrange(0, k as int);
        let ghost subk1 = v@.subrange(0, k + 1);
        proof {
            assert(forall|i: int| 0 <= i < k ==> subk1[i] == #[trigger] subk[i]);
            assert(subk1[k as int] == v@[k as int]);
        }
        if k == 0 || !str_eq(out[out.len() - 1].as_str(), v[k].as_str()) {
            if k > 0 {
                proof {
                    let last = pre[pre.len() - 1];
                    assert(lex_lt(v@[k - 1]@, v@[k as int]@) || v@[k - 1]@ == v@[k as int]@);
                    assert(lex_lt(last@, v@[k as int]@));
                    assert forall|i: int| 0 <= i < pre.len() implies lex_lt(
                        (#[trigger] pre[i])@,
                        v@[k as int]@,
                    ) by {
                        if i < pre.len() - 1 {
                            lemma_lex_trans(pre[i]@, last@, v@[k as int]@);
                        }
                    };
                }
            }
            let item = v[k].clone();
            out.push(item);
            proof {
                assert(forall|i: int| 0 <= i < pre.len() ==> out@[i] == #[trigger] pre[i]);
                assert(out@[out@.len() - 1]@ == v@[k as int]@);
                assert forall|x: Seq<char>| contains_view(out@, x) == contains_view(
                    subk1,
                    x,
                ) by {
                    if contains_view(out@, x) {
                        let w = choose|w: int| 0 <= w < out@.len() && (#[trigger] out@[w])@ == x;
                        if w < pre.len() {
                            assert(contains_view(pre, x));
                            let u = choose|u: int| 0 <= u < subk.len() && (#[trigger] subk[u])@ == x;
                            assert(subk1[u]@ == x);
                        } else {
                            assert(subk1[k as int]@ == x);
                        }
                    }
                    if contains_view(subk1, x) {
                        let w = choose|w: int|
                            0 <= w < subk1.len() && (#[trigger] subk1[w])@ == x;
                        if w < k {
                            assert(subk[w]@ == x);
                            assert(contains_view(pre, x));
                            let u = choose|u: int| 0 <= u < pre.len() && (#[trigger] pre[u])@ == x;
                            assert(out@[u]@ == x);
                        } else {
                            assert(out@[out@.len() - 1]@ == x);
                        }
                    }
                };
            }
        } else {
            proof {
                assert(pre[pre.len() - 1]@ == v@[k as int]@);
                assert forall|x: Seq<char>| contains_view(out@, x) == contains_view(
                    subk1,
                    x,
                ) by {
                    if contains_view(out@, x) {
                        let u = choose|u: int| 0 <= u < subk.len() && (#[trigger] subk[u])@ == x;
                        assert(subk1[u]@ == x);
                    }
                    if contains_view(subk1, x) {
                        let w = choose|w: int|
                            0 <= w < subk1.len() && (#[trigger] subk1[w])@ == x;
                        if w < k {
                            assert(subk[w]@ == x);
                        } else {
                            assert(x == v@[k as int]@);
                            assert(out@[out@.len() - 1]@ == x);
                        }
                    }
                };
            }
        }
        k = k + 1;
    }
    proof {
        assert(v@.subrange(0, n as int) =~= v@);
    }
    out
}

/// Two strictly sorted string lists with the same members are identical,
/// element for element. With the scanner's order-independence this makes
/// repeated searches yield identical sorted vectors: each run's set is
/// the same, and sorting a duplicate-free set fixes the whole vector.
pub proof fn lemma_sorted_dedup_unique(a: Seq<String>, b: Seq<String>)
    requires
        strictly_sorted_strings(a),
        strictly_sorted_strings(b),
        forall|x: Seq<char>| #[trigger] contains_view(a, x) == contains_view(b, x),
    ensures
        a.len() == b.len(),
        forall|i: int| 0 <= i < a.len() ==> (#[trigger] a[i])@ == b[i]@,
    decreases a.len(),
{
    if a.len() == 0 {
        if b.len() > 0 {
            assert(contains_view(b, b[0]@));
            assert(contains_view(a, b[0]@));
            let w = choose|w: int| 0 <= w < a.len() && (#[trigger] a[w])@ == b[0]@;
            assert(false);
        }
    } else {
        assert(contains_view(a, a[0]@));
        assert(contains_view(b, a[0]@));
        let jb = choose|j: int| 0 <= j < b.len() && (#[trigger] b[j])@ == a[0]@;
        assert(contains_view(b, b[0]@));
        assert(contains_view(a, b[0]@));
        let ja = choose|j: int| 0 <= j < a.len() && (#[trigger] a[j])@ == b[0]@;
        // The two heads carry the same view: anything else contradicts
        // the strict order through transitivity and asymmetry.
        assert(a[0]@ == b[0]@) by {
            if jb > 0 {
                assert(lex_lt(b[0]@, b[jb]@));
                if ja > 0 {
                    assert(lex_lt(a[0]@, a[ja]@));
                    lemma_lex_trans(a[0]@, a[ja]@, b[jb]@);
                    lemma_lex_asym(a[0]@, a[ja]@);
                }
            }
        };
        let ta = a.drop_first();
        let tb = b.drop_first();
        assert(forall|i: int| 0 <= i < ta.len() ==> #[trigger] ta[i] == a[i + 1]);
        assert(forall|i: int| 0 <= i < tb.len() ==> #[trigger] tb[i] == b[i + 1]);
        assert(strictly_sorted_strings(ta));
        assert(strictly_sorted_strings(tb));
        assert forall|x: Seq<char>| #[trigger] contains_view(ta, x) == contains_view(
            tb,
            x,
        ) by {
            if contains_view(ta, x) {
                let w = choose|w: int| 0 <= w < ta.len() && (#[trigger] ta[w])@ == x;
                assert(a[w + 1]@ == x);
                assert(lex_lt(a[0]@, x));
                assert(contains_view(a, x));
                assert(contains_view(b, x));
                let u = choose|u: int| 0 <= u < b.len() && (#[trigger] b[u])@ == x;
                assert(u != 0) by {
                    lemma_lex_asym(a[0]@, x);
                }
                assert(tb[u - 1]@ == x);
            }
            if contains_view(tb, x) {
                let w = choose|w: int| 0 <= w < tb.len() && (#[trigger] tb[w])@ == x;
                assert(b[w + 1]@ == x);
                assert(lex_lt(b[0]@, x));
                assert(contains_view(b, x));
                assert(contains_view(a, x));
                let u = choose|u: int| 0 <= u < a.len() && (#[trigger] a[u])@ == x;
                assert(u != 0) by {
                    lemma_lex_asym(b[0]@, x);
                }
                assert(ta[u - 1]@ == x);
            }
        };
        lemma_sorted_dedup_unique(ta, tb);
        assert forall|i: int| 0 <= i < a.len() implies (#[trigger] a[i])@ == b[i]@ by {
            if i > 0 {
                assert(ta[i - 1]@ == tb[i - 1]@);
            }
        };
    }
}

/// The merged workspace file list: the union of the analyzers' document
/// sets, deduplicated and in stable sorted order.
pub fn list_files(files: Vec<String>) -> (r: Vec<String>)
    ensures
        strictly_sorted_strings(r@),
        forall|x: Seq<char>| contains_view(r@, x) == contains_view(files@, x),
{
    let ghost orig = files@;
    let sorted = sort_strings(files);
    proof {
        orig.to_multiset_ensures();
        sorted@.to_multiset_ensures();
        assert forall|x: Seq<char>| contains_view(sorted@, x) == contains_view(orig, x) by {
            if contains_view(sorted@, x) {
                let w = choose|w: int| 0 <= w < sorted@.len() && (#[trigger] sorted@[w])@ == x;
                assert(sorted@.to_multiset().count(sorted@[w]) > 0);
                assert(orig.to_multiset().count(sorted@[w]) > 0);
                assert(orig.contains(sorted@[w]));
                let u = choose|u: int| 0 <= u < orig.len() && orig[u] == sorted@[w];
                assert((orig[u])@ == x);
            }
            if contains_view(orig, x) {
                let w = choose|w: int| 0 <= w < orig.len() && (#[trigger] orig[w])@ == x;
                assert(orig.to_multiset().count(orig[w]) > 0);
                assert(sorted@.to_multiset().count(orig[w]) > 0);
                assert(sorted@.contains(orig[w]));
                let u = choose|u: int| 0 <= u < sorted@.len() && sorted@[u] == orig[w];
                assert((sorted@[u])@ == x);
            }
        };
    }
    dedup_sorted_strings(sorted)
}

/// Whether `path` occurs in the workspace file list. Path-bearing
/// operations check this before consulting an analyzer.
pub fn file_in_list(files: &Vec<String>, path: &str) -> (r: bool)
    ensures
        r == contains_view(files@, path@),
{
    let mut i: usize = 0;
    let n = files.len();
    while i < n
        invariant
            0 <= i <= n == files@.len(),
            forall|j: int| 0 <= j < i ==> (#[trigger] files@[j])@ != path@,
        decreases n - i,
    {
        if str_eq(files[i].as_str(), path) {
            return true;
        }
        i = i + 1;
    }
    proof {
        if contains_view(files@, path@) {
            let w = choose|w: int| 0 <= w < files@.len() && (#[trigger] files@[w])@ == path@;
        }
    }
    false
}

/// Read a range of a document. With no range the whole content is
/// returned. With a range, the lines from `start.line` through `end.line`
/// inclusive are joined with a newline; an end past the last line is
/// clamped to it; a start at or past the line count is an error.
pub fn read_source_code(content: &str, range: Option<Range>) -> (r: Result<
    String,
    LspManagerError,
>)
    requires
        range matches Some(rg) ==> rg.start.line <= rg.end.line,
    ensures
        match range {
            None => r matches Ok(s) && s@ == content@,
            Some(rg) => {
                let lines = crate::text::spec_lines(content@);
                if rg.start.line >= lines.len() {
                    r matches Err(e) && (e matches LspManagerError::InternalError(m) && m@
                        == "Start line "@ + crate::text::dec_chars(rg.start.line as nat)
                        + " is out of bounds"@)
                } else {
                    let last = if rg.end.line < lines.len() - 1 {
                        rg.end.line as int
                    } else {
                        lines.len() - 1
                    };
                    r matches Ok(s) && s@ == crate::text::spec_join(
                        lines.subrange(rg.start.line as int, last + 1),
                        "\n"@,
                    )
                }
            },
        },
{
    match range {
        None => Ok(content.to_owned()),
        Some(rg) => {
            let lines = crate::text::split_lines(content);
            let ghost lns = crate::text::spec_lines(content@);
            proof {
                assert(lines@.len() == lns.len());
            }
            let start = rg.start.line as usize;
            if start >= lines.len() {
                let mut m = "Start line ".to_owned();
                let d = crate::text::dec_string(rg.start.line as u64);
                m.append(d.as_str());
                m.append(" is out of bounds");
                Err(LspManagerError::InternalError(m))
            } else {
                let last: usize = if (rg.end.line as usize) < lines.len() - 1 {
                    rg.end.line as usize
                } else {
                    lines.len() - 1
                };
                let mut picked: Vec<String> = Vec::new();
                let nlines = lines.len();
                let mut i: usize = start;
                while i <= last
                    invariant
                        start <= i <= last + 1,
                        last < nlines == lines@.len(),
                        picked@.len() == i - start,
                        forall|j: int|
                            0 <= j < picked@.len() ==> (#[trigger] picked@[j])@ == lines@[start
                                + j]@,
                    decreases last + 1 - i,
                {
                    let item = lines[i].clone();
                    picked.push(item);
                    i = i + 1;
                }
                let joined = crate::text::join_newline(&picked);
                proof {
                    assert(picked@.map_values(|t: String| t@) =~= lns.subrange(
                        start as int,
                        last + 1,
                    )) by {
                        assert(forall|j: int|
                            0 <= j < lns.len() ==> (#[trigger] lines@[j])@ == lns[j]);
                    };
                }
                Ok(joined)
            }
        },
    }
}

/// A reference site reported by the syntactic scanner: the identifier's
/// text and its range.
#[derive(Debug)]
pub struct ReferenceSite {
    pub name: String,
    pub range: Range,
}

/// The pairs collected by the composite query, in scanner emission order:
/// each reference site whose definition lookup succeeded, paired with its
/// definition.
pub open spec fn spec_pairs_from(
    sites: Seq<ReferenceSite>,
    outs: Seq<Option<GotoDefinitionResponse>>,
    k: int,
) -> Seq<(ReferenceSite, GotoDefinitionResponse)>
    decreases sites.len() - k,
{
    if k < 0 || k >= sites.len() || sites.len() != outs.len() {
        Seq::empty()
    } else {
        match outs[k] {
            Some(d) => seq![(sites[k], d)] + spec_pairs_from(sites, outs, k + 1),
            None => spec_pairs_from(sites, outs, k + 1),
        }
    }
}

/// The composite referenced-symbols query, after the per-site definition
/// lookups: pair each site with its definition, in the scanner's emission
/// order; sites whose lookup failed are skipped. The operation fails only
/// when no definition could be obtained and the reference set was
/// non-empty.
pub fn find_referenced_symbols(
    sites: Vec<ReferenceSite>,
    outcomes: Vec<Option<GotoDefinitionResponse>>,
) -> (r: Result<Vec<(ReferenceSite, GotoDefinitionResponse)>, LspManagerError>)
    requires
        sites@.len() == outcomes@.len(),
    ensures
        ({
            let ps = spec_pairs_from(sites@, outcomes@, 0);
            if ps.len() == 0 && sites@.len() > 0 {
                r matches Err(e) && (e matches LspManagerError::InternalError(m) && m@
                    == "Failed to retrieve any definitions for the referenced symbols"@)
            } else {
                r matches Ok(v) && v@ == ps
            }
        }),
{
    let ghost sites0 = sites@;
    let ghost outs0 = outcomes@;
    let mut sites = sites;
    let mut outcomes = outcomes;
    let was_empty = sites.len() == 0;
    let mut out: Vec<(ReferenceSite, GotoDefinitionResponse)> = Vec::new();
    proof {
        assert(sites0.subrange(0, sites0.len() as int) =~= sites0);
        assert(outs0.subrange(0, outs0.len() as int) =~= outs0);
        assert(out@ + spec_pairs_from(sites0, outs0, 0) =~= spec_pairs_from(sites0, outs0, 0));
    }
    while sites.len() > 0
        invariant
            sites@.len() == outcomes@.len(),
            sites@.len() <= sites0.len(),
            outcomes@.len() <= outs0.len(),
            sites@ == sites0.subrange(sites0.len() - sites@.len(), sites0.len() as int),
            outcomes@ == outs0.subrange(outs0.len() - outcomes@.len(), outs0.len() as int),
            sites0.len() == outs0.len(),
            out@ + spec_pairs_from(sites0, outs0, sites0.len() - sites@.len()) == spec_pairs_from(
                sites0,
                outs0,
                0,
            ),
        decreases sites@.len(),
    {
        let ghost k = sites0.len() - sites@.len();
        proof {
            assert(sites@[0] == sites0.subrange(k, sites0.len() as int)[0]);
            assert(outcomes@[0] == outs0.subrange(k, outs0.len() as int)[0]);
        }
        let site = sites.remove(0);
        let outcome = outcomes.remove(0);
        proof {
            assert(site == sites0[k]);
            assert(outcome == outs0[k]);
            assert(sites@ =~= sites0.subrange(k + 1, sites0.len() as int));
            assert(outcomes@ =~= outs0.subrange(k + 1, outs0.len() as int));
        }
        match outcome {
            Some(d) => {
                let ghost preout = out@;
                out.push((site, d));
                proof {
                    assert(spec_pairs_from(sites0, outs0, k) == seq![(sites0[k], d)]
                        + spec_pairs_from(sites0, outs0, k + 1));
                    assert(out@ =~= preout + seq![(sites0[k], d)]);
                    assert(out@ + spec_pairs_from(sites0, outs0, k + 1) =~= preout
                        + spec_pairs_from(sites0, outs0, k));
                }
            },
            None => {
                proof {
                    assert(spec_pairs_from(sites0, outs0, k) == spec_pairs_from(
                        sites0,
                        outs0,
                        k + 1,
                    ));
                }
            },
        }
    }
    proof {
        assert(spec_pairs_from(sites0, outs0, sites0.len() as int) =~= Seq::<
            (ReferenceSite, GotoDefinitionResponse),
        >::empty());
        assert(out@ =~= spec_pairs_from(sites0, outs0, 0));
    }
    if out.len() == 0 && !was_empty {
        Err(
            LspManagerError::InternalError(
                "Failed to retrieve any definitions for the referenced symbols".to_owned(),
            ),
        )
    } else {
        Ok(out)
    }
}

/// The definition operation's decision core: a path-bearing operation
/// first verifies the path exists in the workspace's file list, then the
/// analyzer's raw response is ordered by `(path, start.line,
/// start.character)` — strictly, when the analyzer reported no two
/// results on one key.
pub fn find_definition(files: &Vec<String>, file_path: &str, raw: GotoDefinitionResponse) -> (r:
    Result<GotoDefinitionResponse, LspManagerError>)
    ensures
        if contains_view(files@, file_path@) {
            match r {
                Ok(d) => match raw {
                    GotoDefinitionResponse::Scalar(l) => d matches GotoDefinitionResponse::Scalar(
                        l2,
                    ) && l2 == l,
                    GotoDefinitionResponse::Array(v) => d matches GotoDefinitionResponse::Array(v2)
                        && sorted_locs(v2@) && v2@.to_multiset() == v@.to_multiset() && (
                    distinct_loc_keys(v@) ==> distinct_loc_keys(v2@)),
                    GotoDefinitionResponse::Links(v) => d matches GotoDefinitionResponse::Links(v2)
                        && sorted_links(v2@) && v2@.to_multiset() == v@.to_multiset() && (
                    distinct_link_keys(v@) ==> distinct_link_keys(v2@)),
                },
                Err(_) => false,
            }
        } else {
            r matches Err(e) && (e matches LspManagerError::FileNotFound(p) && p@ == file_path@)
        },
{
    if !file_in_list(files, file_path) {
        return Err(LspManagerError::FileNotFound(file_path.to_owned()));
    }
    Ok(sort_definition_response(raw))
}

/// The references operation's decision core: the path must exist in the
/// workspace's file list, and the analyzer's locations come back ordered
/// by `(path, start.line, start.character)` — strictly, when no two
/// reported locations share a key.
pub fn find_references(files: &Vec<String>, file_path: &str, raw: Vec<Location>) -> (r: Result<
    Vec<Location>,
    LspManagerError,
>)
    ensures
        if contains_view(files@, file_path@) {
            r matches Ok(v) && sorted_locs(v@) && v@.to_multiset() == raw@.to_multiset() && (
            distinct_loc_keys(raw@) ==> distinct_loc_keys(v@))
        } else {
            r matches Err(e) && (e matches LspManagerError::FileNotFound(p) && p@ == file_path@)
        },
{
    if !file_in_list(files, file_path) {
        return Err(LspManagerError::FileNotFound(file_path.to_owned()));
    }
    Ok(sort_locations(raw))
}

/// A symbol reported by the syntactic scanner: its name, kind, the
/// position where its identifier starts, the range the identifier spans,
/// and the full range of the whole symbol.
#[derive(Debug)]
pub struct Symbol {
    pub name: String,
    pub kind: String,
    pub identifier_position: crate::api_types::FilePosition,
    pub identifier_range: Range,
    pub range: Range,
}

/// Order on positions: by line, then character.
pub open spec fn pos_le(a: crate::api_types::Position, b: crate::api_types::Position) -> bool {
    a.line < b.line || (a.line == b.line && a.character <= b.character)
}

/// Whether a half-open range `[start, end)` contains a position.
pub open spec fn range_contains(r: Range, p: crate::api_types::Position) -> bool {
    pos_le(r.start, p) && !pos_le(r.end, p)
}

/// Pick the symbol whose identifier range contains the position; when
/// several contain it, the innermost match wins: the one whose
/// identifier range opens latest. Returns the index of the chosen
/// symbol, or nothing when no symbol's identifier range contains the
/// position.
pub fn get_symbol_from_position(symbols: &Vec<Symbol>, position: crate::api_types::Position) -> (r:
    Option<usize>)
    ensures
        match r {
            Some(i) => {
                &&& i < symbols@.len()
                &&& range_contains(symbols@[i as int].identifier_range, position)
                &&& forall|j: int|
                    0 <= j < symbols@.len() && range_contains(
                        (#[trigger] symbols@[j]).identifier_range,
                        position,
                    ) ==> pos_le(
                        symbols@[j].identifier_range.start,
                        symbols@[i as int].identifier_range.start,
                    )
            },
            None => forall|j: int|
                0 <= j < symbols@.len() ==> !range_contains(
                    (#[trigger] symbols@[j]).identifier_range,
                    position,
                ),
        },
{
    let mut best: Option<usize> = None;
    let n = symbols.len();
    let mut k: usize = 0;
    while k < n
        invariant
            0 <= k <= n == symbols@.len(),
            match best {
                Some(i) => {
                    &&& i < k
                    &&& range_contains(symbols@[i as int].identifier_range, position)
                    &&& forall|j: int|
                        0 <= j < k && range_contains(
                            (#[trigger] symbols@[j]).identifier_range,
                            position,
                        ) ==> pos_le(
                            symbols@[j].identifier_range.start,
                            symbols@[i as int].identifier_range.start,
                        )
                },
                None => forall|j: int|
                    0 <= j < k ==> !range_contains(
                        (#[trigger] symbols@[j]).identifier_range,
                        position,
                    ),
            },
        decreases n - k,
    {
        let s = &symbols[k];
        let contains = (s.identifier_range.start.line < position.line
            || (s.identifier_range.start.line == position.line
            && s.identifier_range.start.character <= position.character))
            && !(s.identifier_range.end.line < position.line
            || (s.identifier_range.end.line == position.line
            && s.identifier_range.end.character <= position.character));
        if contains {
            let take = match best {
                Some(i) => {
                    let b = &symbols[i];
                    b.identifier_range.start.line < s.identifier_range.start.line
                        || (b.identifier_range.start.line == s.identifier_range.start.line
                        && b.identifier_range.start.character
                        <= s.identifier_range.start.character)
                },
                None => true,
            };
            if take {
                best = Some(k);
            }
        }
        k = k + 1;
    }
    best
}

/// The language tag named by a configuration string, after trimming and
/// ASCII case folding; several aliases are accepted per language.
pub open spec fn spec_parse_language(s: Seq<char>) -> Option<SupportedLanguages> {
    let key = spec_lower(spec_trim(s));
    if key == "python"@ {
        Some(SupportedLanguages::Python)
    } else if key == "typescript_javascript"@ || key == "typescript"@ || key == "javascript"@ {
        Some(SupportedLanguages::TypeScriptJavaScript)
    } else if key == "rust"@ {
        Some(SupportedLanguages::Rust)
    } else if key == "cpp"@ || key == "c++"@ {
        Some(SupportedLanguages::CPP)
    } else if key == "csharp"@ || key == "c#"@ {
        Some(SupportedLanguages::CSharp)
    } else if key == "java"@ {
        Some(SupportedLanguages::Java)
    } else if key == "golang"@ || key == "go"@ {
        Some(SupportedLanguages::Golang)
    } else if key == "php"@ {
        Some(SupportedLanguages::PHP)
    } else if key == "ruby"@ {
        Some(SupportedLanguages::Ruby)
    } else if key == "ruby_sorbet"@ || key == "sorbet"@ {
        Some(SupportedLanguages::RubySorbet)
    } else {
        None
    }
}

/// The manager of the analyzer fleet. The orchestration itself lives with
/// the runtime; the manager's decision logic is exposed as functions of
/// this module.
pub struct Manager {
    /// The workspace root all relative paths are resolved against.
    pub workspace_root: String,
}

impl Manager {
    /// A manager for one workspace.
    pub fn new(workspace_root: String) -> (r: Manager)
        ensures
            r.workspace_root@ == workspace_root@,
    {
        Manager { workspace_root }
    }

    /// Parse a language name from configuration: trimmed and
    /// case-insensitive, with the aliases of `spec_parse_language`.
    pub fn parse_language(lang: &str) -> (r: Option<SupportedLanguages>)
        ensures
            r == spec_parse_language(lang@),
    {
        let t = trim_str(lang);
        let key = lower_str(t.as_str());
        let k = key.as_str();
        if str_eq(k, "python") {
            Some(SupportedLanguages::Python)
        } else if str_eq(k, "typescript_javascript") || str_eq(k, "typescript") || str_eq(
            k,
            "javascript",
        ) {
            Some(SupportedLanguages::TypeScriptJavaScript)
        } else if str_eq(k, "rust") {
            Some(SupportedLanguages::Rust)
        } else if str_eq(k, "cpp") || str_eq(k, "c++") {
            Some(SupportedLanguages::CPP)
        } else if str_eq(k, "csharp") || str_eq(k, "c#") {
            Some(SupportedLanguages::CSharp)
        } else if str_eq(k, "java") {
            Some(SupportedLanguages::Java)
        } else if str_eq(k, "golang") || str_eq(k, "go") {
            Some(SupportedLanguages::Golang)
        } else if str_eq(k, "php") {
            Some(SupportedLanguages::PHP)
        } else if str_eq(k, "ruby") {
            Some(SupportedLanguages::Ruby)
        } else if str_eq(k, "ruby_sorbet") || str_eq(k, "sorbet") {
            Some(SupportedLanguages::RubySorbet)
        } else {
            None
        }
    }

    /// Parse the enabled-languages configuration value: a comma-separated
    /// list of language names. Unrecognized names are dropped; the result
    /// holds each enabled language once, in first-mention order.
    pub fn get_enabled_languages(value: &str) -> (r: Vec<SupportedLanguages>)
        ensures
            forall|i: int, j: int| 0 <= i < j < r@.len() ==> r@[i] != r@[j],
            forall|l: SupportedLanguages| #[trigger]
                r@.contains(l) == exists|i: int|
                    0 <= i < crate::text::spec_split(value@, ',').len() && spec_parse_language(
                        #[trigger] crate::text::spec_split(value@, ',')[i],
                    ) == Some(l),
    {
        let parts = crate::text::split_str(value, ',');
        let ghost segs = crate::text::spec_split(value@, ',');
        proof {
            assert(parts@.len() == segs.len());
            assert(forall|i: int| 0 <= i < segs.len() ==> (#[trigger] parts@[i])@ == segs[i]);
        }
        let mut out: Vec<SupportedLanguages> = Vec::new();
        let mut k: usize = 0;
        let n = parts.len();
        while k < n
            invariant
                0 <= k <= n == parts@.len(),
                parts@.len() == segs.len(),
                forall|i: int| 0 <= i < segs.len() ==> (#[trigger] parts@[i])@ == segs[i],
                forall|i: int, j: int| 0 <= i < j < out@.len() ==> out@[i] != out@[j],
                forall|l: SupportedLanguages| #[trigger]
                    out@.contains(l) == exists|i: int|
                        0 <= i < k && spec_parse_language(#[trigger] segs[i]) == Some(l),
            decreases n - k,
        {
            match Self::parse_language(parts[k].as_str()) {
                Some(l) => {
                    proof {
                        assert(spec_parse_language(segs[k as int]) == Some(l));
                    }
                    let mut present = false;
                    let mut w: usize = 0;
                    let olen = out.len();
                    while w < olen
                        invariant
                            0 <= w <= olen == out@.len(),
                            present == exists|i: int| 0 <= i < w && #[trigger] out@[i] == l,
                        decreases olen - w,
                    {
                        if out[w] == l {
                            present = true;
                        }
                        w = w + 1;
                    }
                    if !present {
                        let ghost pre = out@;
                        out.push(l);
                        proof {
                            assert(forall|i: int| 0 <= i < pre.len() ==> out@[i] == #[trigger] pre[i]);
                            assert(out@[out@.len() - 1] == l);
                            assert(forall|i: int| 0 <= i < pre.len() ==> #[trigger] pre[i] != l);
                            assert forall|x: SupportedLanguages| #[trigger] out@.contains(x)
                                == exists|i: int|
                                0 <= i < k + 1 && spec_parse_language(#[trigger] segs[i]) == Some(
                                x,
                            ) by {
                                if out@.contains(x) {
                                    let u = choose|u: int|
                                        0 <= u < out@.len() && #[trigger] out@[u] == x;
                                    if u < pre.len() {
                                        assert(pre[u] == x);
                                        assert(pre.contains(x));
                                        let i = choose|i: int|
                                            0 <= i < k && spec_parse_language(#[trigger] segs[i])
                                                == Some(x);
                                        assert(0 <= i < k + 1 && spec_parse_language(segs[i])
                                            == Some(x));
                                    } else {
                                        assert(x == l);
                                        assert(0 <= k < k + 1 && spec_parse_language(
                                            segs[k as int],
                                        ) == Some(x));
                                    }
                                }
                                if exists|i: int|
                                    0 <= i < k + 1 && spec_parse_language(#[trigger] segs[i])
                                        == Some(x) {
                                    let i = choose|i: int|
                                        0 <= i < k + 1 && spec_parse_language(#[trigger] segs[i])
                                            == Some(x);
                                    if i < k {
                                        assert(pre.contains(x));
                                        let u = choose|u: int|
                                            0 <= u < pre.len() && #[trigger] pre[u] == x;
                                        assert(out@[u] == x);
                                        assert(out@.contains(x));
                                    } else {
                                        assert(x == l);
                                        assert(out@[out@.len() - 1] == x);
                                        assert(out@.contains(x));
                                    }
                                }
                            };
                        }
                    } else {
                        proof {
                            let u0 = choose|u: int| 0 <= u < out@.len() && #[trigger] out@[u] == l;
                            assert(out@.contains(l));
                            assert forall|x: SupportedLanguages| #[trigger] out@.contains(x)
                                == exists|i: int|
                                0 <= i < k + 1 && spec_parse_language(#[trigger] segs[i]) == Some(
                                x,
                            ) by {
                                if out@.contains(x) {
                                    let i = choose|i: int|
                                        0 <= i < k && spec_parse_language(#[trigger] segs[i])
                                            == Some(x);
                                    assert(0 <= i < k + 1 && spec_parse_language(segs[i]) == Some(
                                        x,
                                    ));
                                }
                                if exists|i: int|
                                    0 <= i < k + 1 && spec_parse_language(#[trigger] segs[i])
                                        == Some(x) {
                                    let i = choose|i: int|
                                        0 <= i < k + 1 && spec_parse_language(#[trigger] segs[i])
                                            == Some(x);
                                    if i < k {
                                        assert(out@.contains(x));
                                    } else {
                                        assert(x == l);
                                    }
                                }
                            };
                        }
                    }
                },
                None => {
                    proof {
                        assert(spec_parse_language(segs[k as int]) is None);
                        assert forall|x: SupportedLanguages| #[trigger] out@.contains(x)
                            == exists|i: int|
                            0 <= i < k + 1 && spec_parse_language(#[trigger] segs[i]) == Some(
                            x,
                        ) by {
                            if exists|i: int|
                                0 <= i < k + 1 && spec_parse_language(#[trigger] segs[i]) == Some(
                                x,
                            ) {
                                let i = choose|i: int|
                                    0 <= i < k + 1 && spec_parse_language(#[trigger] segs[i])
                                        == Some(x);
                                assert(i < k);
                            }
                        };
                    }
                },
            }
            k = k + 1;
        }
        out
    }
}

} // verus!
