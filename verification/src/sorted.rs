//! Checking that the variants of a tagged union are declared in
//! lexicographic order of their names.
//!
//! The check only reports: the declaration that comes in goes out as it is.

use crate::diagnostic::{out_of_order, unsupported_shape, Diagnostic, DiagnosticView};
use crate::schema::{Declaration, MemberDescriptor, UnionSchema, UnionView};
use crate::search::{least_below, lemma_least_below};
use crate::text::{
    chars_of, lemma_lex_asymmetric, lemma_lex_connected, lemma_name_order_total, lex_lt,
    name_order, precedes,
};
use vstd::prelude::*;
use vstd::relations::*;
use vstd::seq_lib::*;
use vstd::string::*;

verus! {

/// Whether the names stand in lexicographic order.
pub open spec fn is_sorted(names: Seq<Seq<char>>) -> bool {
    sorted_by(names, name_order())
}

/// The same names in lexicographic order.
pub open spec fn sorted_names(names: Seq<Seq<char>>) -> Seq<Seq<char>> {
    names.sort_by(name_order())
}

/// Whether `i` is the first position at which `a` and `b` differ.
pub open spec fn first_difference(a: Seq<Seq<char>>, b: Seq<Seq<char>>, i: int) -> bool {
    &&& 0 <= i < a.len()
    &&& i < b.len()
    &&& a[i] != b[i]
    &&& forall|j: int| 0 <= j < i ==> a[j] == b[j]
}

/// Whether `m` is the first position from `from` on at which `name` stands.
pub open spec fn first_occurrence(
    names: Seq<Seq<char>>,
    from: int,
    name: Seq<char>,
    m: int,
) -> bool {
    &&& from <= m < names.len()
    &&& names[m] == name
    &&& forall|k: int| from <= k < m ==> names[k] != name
}

/// Whether the variant at position `m` is the one that belongs at position
/// `i`, the first position at which the declared order and the sorted order
/// differ.
pub open spec fn misplaced(names: Seq<Seq<char>>, i: int, m: int) -> bool {
    &&& first_difference(names, sorted_names(names), i)
    &&& first_occurrence(names, i, sorted_names(names)[i], m)
}

/// Whether `verdict` is what the order check says of `schema`: nothing where
/// the variants are in order, and otherwise one diagnostic for the first
/// position that holds another name than the sorted order has there. The
/// diagnostic names the variant that belongs there and the one found there,
/// and stands at the variant that belongs there.
pub open spec fn is_order_verdict(schema: UnionView, verdict: Option<DiagnosticView>) -> bool {
    let names = schema.names();
    match verdict {
        None => is_sorted(names),
        Some(d) => {
            &&& !is_sorted(names)
            &&& exists|i: int, m: int|
                #![trigger misplaced(names, i, m)]
                misplaced(names, i, m) && d == out_of_order(
                    names[m],
                    names[i],
                    schema.variants[m].location,
                )
        },
    }
}

/// The view of an optional diagnostic.
pub open spec fn verdict_view(verdict: Option<Diagnostic>) -> Option<DiagnosticView> {
    match verdict {
        Some(d) => Some(d@),
        None => None,
    }
}

/// The sorted names are a rearrangement of the names, in order; and they are
/// the only such rearrangement.
pub proof fn lemma_sorted_names(names: Seq<Seq<char>>, other: Seq<Seq<char>>)
    ensures
        is_sorted(sorted_names(names)),
        sorted_names(names).to_multiset() == names.to_multiset(),
        sorted_names(names).len() == names.len(),
        is_sorted(other) && other.to_multiset() == names.to_multiset() ==> other == sorted_names(
            names,
        ),
{
    broadcast use group_to_multiset_ensures;

    lemma_name_order_total();
    names.lemma_sort_by_ensures(name_order());
    to_multiset_len(names);
    to_multiset_len(sorted_names(names));
    if is_sorted(other) && other.to_multiset() == names.to_multiset() {
        lemma_sorted_unique(other, sorted_names(names), name_order());
    }
}

/// Where two rearrangements of the same names agree on the first `i`
/// positions, a name at or after position `i` of one stands at or after
/// position `i` in the other.
pub proof fn lemma_belongs_later(a: Seq<Seq<char>>, b: Seq<Seq<char>>, i: int, k: int)
    requires
        a.to_multiset() == b.to_multiset(),
        0 <= i <= k < a.len(),
        forall|j: int| 0 <= j < i ==> a[j] == b[j],
    ensures
        exists|m: int| i <= m < a.len() && a[m] == b[k],
{
    broadcast use group_to_multiset_ensures;
    broadcast use vstd::multiset::group_multiset_axioms;

    to_multiset_len(a);
    to_multiset_len(b);
    assert(a.take(i) =~= b.take(i));
    assert(a =~= a.take(i) + a.skip(i));
    assert(b =~= b.take(i) + b.skip(i));
    lemma_multiset_commutative(a.take(i), a.skip(i));
    lemma_multiset_commutative(b.take(i), b.skip(i));
    let x = b[k];
    assert(b.skip(i)[k - i] == x);
    assert(b.skip(i).contains(x));
    assert(b.skip(i).to_multiset().count(x) > 0);
    assert(a.to_multiset().count(x) == a.take(i).to_multiset().count(x) + a.skip(
        i,
    ).to_multiset().count(x));
    assert(b.to_multiset().count(x) == b.take(i).to_multiset().count(x) + b.skip(
        i,
    ).to_multiset().count(x));
    assert(a.skip(i).to_multiset().count(x) > 0);
    assert(a.skip(i).contains(x));
    let at = choose|at: int| 0 <= at < a.skip(i).len() && a.skip(i)[at] == x;
    assert(a[i + at] == x);
}

/// The diagnostic is true of the declaration: the variant that it stands at
/// is declared after the position in question, and its name comes strictly
/// before the name found there.
pub proof fn lemma_misplaced_is_out_of_order(names: Seq<Seq<char>>, i: int, m: int)
    requires
        misplaced(names, i, m),
    ensures
        i < m < names.len(),
        lex_lt(names[m], names[i]),
{
    let sorted = sorted_names(names);
    lemma_sorted_names(names, names);
    lemma_belongs_later(sorted, names, i, i);
    let p = choose|p: int| i <= p < sorted.len() && sorted[p] == names[i];
    assert(name_order()(sorted[i], sorted[p]));
}

/// Whether no name after position `i` comes before the name at `i`.
pub open spec fn is_settled(names: Seq<Seq<char>>, i: int) -> bool {
    forall|k: int| i < k < names.len() ==> !lex_lt(#[trigger] names[k], names[i])
}

/// Whether `m` is the first position from `from` on that holds the least of
/// the names from `from` on.
pub open spec fn is_least_from(names: Seq<Seq<char>>, from: int, m: int) -> bool {
    &&& from <= m < names.len()
    &&& forall|k: int| from <= k < names.len() ==> !lex_lt(#[trigger] names[k], names[m])
    &&& forall|k: int| from <= k < m ==> #[trigger] names[k] != names[m]
}

/// Whether `i` is the first position that is not settled and `m` holds the
/// name that belongs there.
pub open spec fn out_of_place(names: Seq<Seq<char>>, i: int, m: int) -> bool {
    &&& 0 <= i < names.len()
    &&& !is_settled(names, i)
    &&& forall|j: int| 0 <= j < i ==> is_settled(names, j)
    &&& is_least_from(names, i, m)
}

/// The variant that the diagnostic is about can be found without sorting.
///
/// The first position at which the declared names differ from the sorted
/// names is the first position whose name has a lesser name after it, and
/// the name that the sorted order has there is the least of the names from
/// that position on.
pub proof fn lemma_misplaced_without_sorting(names: Seq<Seq<char>>, i: int, m: int)
    ensures
        misplaced(names, i, m) <==> out_of_place(names, i, m),
{
    if misplaced(names, i, m) {
        lemma_misplaced_is_out_of_place(names, i, m);
    }
    if out_of_place(names, i, m) {
        let sorted = sorted_names(names);
        lemma_sorted_names(names, names);
        // The names are not in order, so the two orders differ somewhere.
        let later = choose|k: int| i < k < names.len() && lex_lt(#[trigger] names[k], names[i]);
        assert(!name_order()(names[i], names[later])) by {
            if names[i] == names[later] {
                lemma_lex_asymmetric(names[later], names[i]);
            } else if lex_lt(names[i], names[later]) {
                lemma_lex_asymmetric(names[i], names[later]);
            }
        }
        assert(names != sorted);
        let differs = |j: int| 0 <= j < names.len() && names[j] != sorted[j];
        lemma_least_below(names.len() as int, differs);
        if least_below(names.len() as int, differs) is None {
            assert forall|j: int| 0 <= j < names.len() implies names[j] == sorted[j] by {
                assert(!differs(j));
            }
            assert(names =~= sorted);
        }
        let first = least_below(names.len() as int, differs)->0;
        assert(differs(first));
        assert forall|j: int| 0 <= j < first implies names[j] == sorted[j] by {
            assert(!differs(j));
        }
        lemma_belongs_later(names, sorted, first, first);
        let stands = |k: int| first <= k < names.len() && names[k] == sorted[first];
        lemma_least_below(names.len() as int, stands);
        let some = choose|k: int| first <= k < names.len() && names[k] == sorted[first];
        assert(stands(some));
        let found = least_below(names.len() as int, stands)->0;
        assert(stands(found));
        assert forall|k: int| first <= k < found implies names[k] != sorted[first] by {
            assert(!stands(k));
        }
        assert(misplaced(names, first, found));
        lemma_misplaced_is_out_of_place(names, first, found);
        // Both pairs are out of place, and only one pair is.
        assert(first == i) by {
            if first < i {
                assert(is_settled(names, first));
            } else if i < first {
                assert(is_settled(names, i));
            }
        }
        assert(names[found] == names[m]) by {
            assert(!lex_lt(names[found], names[m]));
            assert(!lex_lt(names[m], names[found]));
            lemma_lex_connected(names[found], names[m]);
        }
        assert(found == m);
    }
}

proof fn lemma_misplaced_is_out_of_place(names: Seq<Seq<char>>, i: int, m: int)
    requires
        misplaced(names, i, m),
    ensures
        out_of_place(names, i, m),
{
    let sorted = sorted_names(names);
    lemma_sorted_names(names, names);
    lemma_misplaced_is_out_of_order(names, i, m);
    assert forall|j: int| 0 <= j < i implies is_settled(names, j) by {
        assert forall|k: int| j < k < names.len() implies !lex_lt(
            #[trigger] names[k],
            names[j],
        ) by {
            let p = if k < i {
                k
            } else {
                lemma_belongs_later(sorted, names, i, k);
                choose|p: int| i <= p < sorted.len() && sorted[p] == names[k]
            };
            assert(name_order()(sorted[j], sorted[p]));
            if lex_lt(names[k], names[j]) {
                lemma_lex_asymmetric(names[k], names[j]);
            }
        }
    }
    assert forall|k: int| i <= k < names.len() implies !lex_lt(#[trigger] names[k], names[m]) by {
        lemma_belongs_later(sorted, names, i, k);
        let p = choose|p: int| i <= p < sorted.len() && sorted[p] == names[k];
        if p > i {
            assert(name_order()(sorted[i], sorted[p]));
        }
        if lex_lt(names[k], names[m]) {
            lemma_lex_asymmetric(names[k], names[m]);
        }
    }
}

/// The order check has one answer for each union.
pub proof fn lemma_order_verdict_is_unique(
    schema: UnionView,
    one: Option<DiagnosticView>,
    other: Option<DiagnosticView>,
)
    requires
        is_order_verdict(schema, one),
        is_order_verdict(schema, other),
    ensures
        one == other,
{
    let names = schema.names();
    if one is Some && other is Some {
        let (i, m) = choose|i: int, m: int|
            #![trigger misplaced(names, i, m)]
            misplaced(names, i, m) && one->0 == out_of_order(
                names[m],
                names[i],
                schema.variants[m].location,
            );
        let (j, n) = choose|j: int, n: int|
            #![trigger misplaced(names, j, n)]
            misplaced(names, j, n) && other->0 == out_of_order(
                names[n],
                names[j],
                schema.variants[n].location,
            );
        assert(i == j);
        assert(m == n);
    }
}

/// A union whose variants are declared in lexicographic order gets no
/// diagnostic.
pub proof fn lemma_ordered_union_passes(schema: UnionView, verdict: Option<DiagnosticView>)
    requires
        is_sorted(schema.names()),
        is_order_verdict(schema, verdict),
    ensures
        verdict is None,
{
}

/// The names at the given positions, in the order of the positions.
pub open spec fn arranged(names: Seq<Seq<char>>, order: Seq<usize>) -> Seq<Seq<char>> {
    Seq::new(order.len(), |j: int| names[order[j] as int])
}

/// The character sequences that are held in `keys`.
pub open spec fn key_views(keys: Seq<Vec<char>>) -> Seq<Seq<char>> {
    Seq::new(keys.len(), |i: int| keys[i]@)
}

fn keys_of(variants: &Vec<MemberDescriptor>) -> (keys: Vec<Vec<char>>)
    ensures
        key_views(keys@) == variants@.map_values(|m: MemberDescriptor| m@.name),
{
    let mut keys: Vec<Vec<char>> = Vec::new();
    let mut i: usize = 0;
    while i < variants.len()
        invariant
            i <= variants.len(),
            keys.len() == i,
            forall|k: int| 0 <= k < i ==> (#[trigger] keys@[k])@ == variants@[k]@.name,
        decreases variants.len() - i,
    {
        keys.push(chars_of(variants[i].name.as_str()));
        i += 1;
    }
    assert(key_views(keys@) =~= variants@.map_values(|m: MemberDescriptor| m@.name));
    keys
}

/// Sorts the positions of `keys` by the names that stand there; positions
/// of equal names keep their order.
fn sort_positions(keys: &Vec<Vec<char>>) -> (order: Vec<usize>)
    ensures
        order.len() == keys.len(),
        forall|j: int| 0 <= j < order.len() ==> #[trigger] order@[j] < keys.len(),
        is_sorted(arranged(key_views(keys@), order@)),
        arranged(key_views(keys@), order@).to_multiset() == key_views(keys@).to_multiset(),
{
    broadcast use group_to_multiset_ensures;

    let ghost names = key_views(keys@);
    let mut order: Vec<usize> = Vec::new();
    let mut k: usize = 0;
    proof {
        lemma_name_order_total();
        assert(arranged(names, order@) =~= names.take(0));
    }
    while k < keys.len()
        invariant
            k <= keys.len(),
            names == key_views(keys@),
            order.len() == k,
            forall|j: int| 0 <= j < order.len() ==> #[trigger] order@[j] < k,
            is_sorted(arranged(names, order@)),
            arranged(names, order@).to_multiset() == names.take(k as int).to_multiset(),
            total_ordering(name_order()),
        decreases keys.len() - k,
    {
        let ghost before = arranged(names, order@);
        let mut at: usize = order.len();
        while at > 0 && precedes(&keys[k], &keys[order[at - 1]])
            invariant
                at <= order.len(),
                order.len() == k,
                k < keys.len(),
                names == key_views(keys@),
                before == arranged(names, order@),
                forall|j: int| 0 <= j < order.len() ==> #[trigger] order@[j] < k,
                forall|j: int|
                    at <= j < before.len() ==> lex_lt(names[k as int], #[trigger] before[j]),
            decreases at,
        {
            at -= 1;
        }
        proof {
            if at > 0 {
                let last = before[at - 1];
                assert(!lex_lt(names[k as int], last));
                if !lex_lt(last, names[k as int]) {
                    lemma_lex_connected(last, names[k as int]);
                }
                assert(name_order()(last, names[k as int]));
                assert forall|j: int| 0 <= j < at implies name_order()(
                    #[trigger] before[j],
                    names[k as int],
                ) by {
                    if j < at - 1 {
                        assert(name_order()(before[j], last));
                    }
                }
            }
        }
        order.insert(at, k);
        proof {
            let after = arranged(names, order@);
            assert(after =~= before.insert(at as int, names[k as int]));
            assert(names.take(k + 1) =~= names.take(k as int).push(names[k as int]));
            to_multiset_insert(before, at as int, names[k as int]);
            to_multiset_build(names.take(k as int), names[k as int]);
            assert(after.to_multiset() =~= names.take(k + 1).to_multiset());
            assert forall|a: int, b: int| 0 <= a < b < after.len() implies name_order()(
                #[trigger] after[a],
                #[trigger] after[b],
            ) by {
                if b < at {
                    assert(name_order()(before[a], before[b]));
                } else if b == at {
                    assert(name_order()(before[a], names[k as int]));
                } else if a < at {
                    assert(name_order()(before[a], before[b - 1]));
                } else if a == at {
                    assert(lex_lt(names[k as int], before[b - 1]));
                } else {
                    assert(name_order()(before[a - 1], before[b - 1]));
                }
            }
        }
        k += 1;
    }
    proof {
        assert(names.take(k as int) =~= names);
    }
    order
}

/// Checks the order of the variants of a tagged union.
///
/// Gives nothing exactly where the names of the variants are in
/// lexicographic order. Otherwise the one diagnostic is about the first
/// position at which the declared names differ from the sorted names: it says
/// that the name which the sorted order has there should sort before the name
/// found there, and it stands at the variant that carries that name, the
/// first such from that position on.
pub fn validate_order(schema: &UnionSchema) -> (verdict: Option<Diagnostic>)
    ensures
        is_order_verdict(schema@, verdict_view(verdict)),
        verdict is None <==> is_sorted(schema@.names()),
        verdict matches Some(d) ==> exists|i: int, m: int|
            #![trigger out_of_place(schema@.names(), i, m)]
            out_of_place(schema@.names(), i, m) && d@ == out_of_order(
                schema@.names()[m],
                schema@.names()[i],
                schema@.variants[m].location,
            ),
{
    let ghost names = schema@.names();
    let keys = keys_of(&schema.variants);
    let order = sort_positions(&keys);
    let ghost sorted = arranged(names, order@);
    proof {
        assert(names =~= key_views(keys@));
        lemma_sorted_names(names, sorted);
        assert(sorted == sorted_names(names));
    }
    let n = schema.variants.len();
    let mut i: usize = 0;
    while i < n
        invariant
            i <= n,
            n == schema.variants.len(),
            order.len() == n,
            names == schema@.names(),
            sorted == arranged(names, order@),
            sorted == sorted_names(names),
            sorted.to_multiset() == names.to_multiset(),
            forall|j: int| 0 <= j < order.len() ==> #[trigger] order@[j] < n,
            forall|j: int| 0 <= j < i ==> names[j] == sorted[j],
        decreases n - i,
    {
        let belongs = order[i];
        if schema.variants[belongs].name != schema.variants[i].name {
            let ghost wanted = sorted[i as int];
            proof {
                lemma_belongs_later(names, sorted, i as int, i as int);
            }
            let mut m: usize = i;
            while schema.variants[m].name != schema.variants[belongs].name
                invariant
                    i <= m < n,
                    belongs < n,
                    n == schema.variants.len(),
                    names == schema@.names(),
                    wanted == names[belongs as int],
                    exists|later: int| m <= later < n && names[later] == wanted,
                    forall|k: int| i <= k < m ==> names[k] != wanted,
                decreases n - m,
            {
                m += 1;
            }
            let d = Diagnostic::out_of_order(
                schema.variants[m].name.as_str(),
                schema.variants[i].name.as_str(),
                schema.variants[m].location,
            );
            proof {
                assert(misplaced(names, i as int, m as int));
                lemma_misplaced_without_sorting(names, i as int, m as int);
                assert(!is_sorted(names)) by {
                    if is_sorted(names) {
                        lemma_sorted_names(names, names);
                    }
                }
            }
            return Some(d);
        }
        i += 1;
    }
    proof {
        assert(names =~= sorted);
        lemma_sorted_names(names, names);
    }
    None
}

/// Checks a declaration that is meant to be a tagged union and hands it
/// back unchanged, with the diagnostic if there is one.
///
/// For a tagged union the diagnostic is that of [`validate_order`]. Any
/// other declaration is reported as an unsupported shape, at the
/// declaration.
pub fn sorted(declaration: Declaration) -> (out: (Declaration, Option<Diagnostic>))
    ensures
        out.0 == declaration,
        match declaration {
            Declaration::Union(schema) => is_order_verdict(schema@, verdict_view(out.1)),
            Declaration::Record(_) => verdict_view(out.1) == Some(
                unsupported_shape(declaration.location()),
            ),
        },
{
    let verdict = match &declaration {
        Declaration::Union(schema) => validate_order(schema),
        Declaration::Record(_) => Some(Diagnostic::unsupported_shape(declaration.location())),
    };
    (declaration, verdict)
}

} // verus!
