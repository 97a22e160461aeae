//! Sets of fields that are still missing.
//!
//! A field set is written as the places of its fields in the record, in
//! rising order: a subsequence of the record's field list. Its cache key is
//! the names of its fields, joined by `::`.

use crate::field::FieldSpec;
use vstd::prelude::*;

verus! {

/// Whether `fields` lists places below `n` in strictly rising order.
pub open spec fn is_field_set(n: nat, fields: Seq<usize>) -> bool {
    &&& forall|k: int| 0 <= k < fields.len() ==> (#[trigger] fields[k]) < n
    &&& forall|a: int, b: int| 0 <= a < b < fields.len() ==> fields[a] < fields[b]
}

/// The field set that holds every field of a record of `n` fields.
pub open spec fn full_set(n: nat) -> Seq<usize> {
    Seq::new(n, |i: int| i as usize)
}

/// Whether every place of `inner` is a place of `outer`.
pub open spec fn within(inner: Seq<usize>, outer: Seq<usize>) -> bool {
    forall|k: int| 0 <= k < inner.len() ==> outer.contains(#[trigger] inner[k])
}

/// Whether every field of the set is optional.
pub open spec fn all_optional(specs: Seq<FieldSpec>, fields: Seq<usize>) -> bool {
    forall|k: int| 0 <= k < fields.len() ==> specs[(#[trigger] fields[k]) as int].optional
}

/// The names of the fields of the set, in order.
pub open spec fn names_of(specs: Seq<FieldSpec>, fields: Seq<usize>) -> Seq<Seq<char>> {
    Seq::new(fields.len(), |k: int| specs[fields[k] as int].name@)
}

/// The names, joined by `::`.
pub open spec fn join_names(names: Seq<Seq<char>>) -> Seq<char>
    decreases names.len(),
{
    if names.len() == 0 {
        Seq::empty()
    } else if names.len() == 1 {
        names[0]
    } else {
        join_names(names.drop_last()) + "::"@ + names.last()
    }
}

/// The cache key of a field set.
pub open spec fn cache_key(specs: Seq<FieldSpec>, fields: Seq<usize>) -> Seq<char> {
    join_names(names_of(specs, fields))
}

/// Taking one name out of two or more makes the joined text shorter.
pub proof fn lemma_join_names_remove_shorter(names: Seq<Seq<char>>, j: int)
    requires
        names.len() >= 2,
        0 <= j < names.len(),
    ensures
        join_names(names.remove(j)).len() < join_names(names).len(),
    decreases names.len(),
{
    reveal_strlit("::");
    if j < names.len() - 1 && names.len() > 2 {
        let front = names.drop_last();
        assert(names.remove(j).drop_last() == front.remove(j));
        lemma_join_names_remove_shorter(front, j);
    }
}

/// A field set without one of its fields has a shorter cache key, as long as
/// a field is left.
pub proof fn lemma_cache_key_remove_shorter(specs: Seq<FieldSpec>, fields: Seq<usize>, j: int)
    requires
        fields.len() >= 2,
        0 <= j < fields.len(),
    ensures
        cache_key(specs, fields.remove(j)).len() < cache_key(specs, fields).len(),
{
    assert(names_of(specs, fields.remove(j)) == names_of(specs, fields).remove(j));
    lemma_join_names_remove_shorter(names_of(specs, fields), j);
}

/// A field set that lies within another has a cache key that is no longer.
pub proof fn lemma_cache_key_within_shorter(
    specs: Seq<FieldSpec>,
    n: nat,
    inner: Seq<usize>,
    outer: Seq<usize>,
)
    requires
        is_field_set(n, inner),
        is_field_set(n, outer),
        within(inner, outer),
    ensures
        cache_key(specs, inner).len() <= cache_key(specs, outer).len(),
    decreases outer.len(),
{
    reveal_strlit("::");
    if inner.len() > 0 {
        let s = inner.last();
        let t = outer.last();
        let inner_front = inner.drop_last();
        let outer_front = outer.drop_last();
        assert(names_of(specs, outer).drop_last() == names_of(specs, outer_front));
        assert(names_of(specs, inner).drop_last() == names_of(specs, inner_front));
        assert(is_field_set(n, outer_front));
        if s == t {
            assert(is_field_set(n, inner_front));
            assert forall|k: int| 0 <= k < inner_front.len() implies outer_front.contains(
                #[trigger] inner_front[k],
            ) by {
                let m = choose|m: int| 0 <= m < outer.len() && outer[m] == inner[k];
                assert(outer_front[m] == outer[m]);
            }
            lemma_cache_key_within_shorter(specs, n, inner_front, outer_front);
        } else {
            assert forall|k: int| 0 <= k < inner.len() implies outer_front.contains(
                #[trigger] inner[k],
            ) by {
                let m = choose|m: int| 0 <= m < outer.len() && outer[m] == inner[k];
                assert(outer_front[m] == outer[m]);
            }
            lemma_cache_key_within_shorter(specs, n, inner, outer_front);
        }
    }
}

/// A field set without one of its fields is a field set within the first.
pub proof fn lemma_remove_is_field_set(n: nat, fields: Seq<usize>, j: int)
    requires
        is_field_set(n, fields),
        0 <= j < fields.len(),
    ensures
        is_field_set(n, fields.remove(j)),
        within(fields.remove(j), fields),
        !fields.remove(j).contains(fields[j]),
{
}

/// Two field sets with the same places are one set.
pub proof fn lemma_field_set_ext(n: nat, a: Seq<usize>, b: Seq<usize>)
    requires
        is_field_set(n, a),
        is_field_set(n, b),
        forall|p: usize| #[trigger] a.contains(p) <==> b.contains(p),
    ensures
        a == b,
    decreases a.len(),
{
    if a.len() == 0 {
        if b.len() > 0 {
            assert(a.contains(b[0]));
        }
    } else {
        let top = a.last();
        assert(a.contains(top));
        assert(a.contains(b.last()));
        let a2 = a.drop_last();
        let b2 = b.drop_last();
        assert forall|p: usize| #[trigger] a2.contains(p) <==> b2.contains(p) by {
            if a2.contains(p) {
                assert(a.contains(p));
                let m = choose|m: int| 0 <= m < b.len() && b[m] == p;
                assert(b2[m] == p);
            }
            if b2.contains(p) {
                assert(a.contains(p));
                let m = choose|m: int| 0 <= m < a.len() && a[m] == p;
                assert(a2[m] == p);
            }
        }
        lemma_field_set_ext(n, a2, b2);
        assert(a =~= a2.push(top));
    }
}

/// The set of all fields is a field set, and every place is in it.
pub proof fn lemma_full_set(n: nat)
    requires
        n <= usize::MAX,
    ensures
        is_field_set(n, full_set(n)),
        forall|p: usize| p < n ==> #[trigger] full_set(n).contains(p),
{
    let full = full_set(n);
    assert forall|p: usize| p < n implies #[trigger] full.contains(p) by {
        assert(full[p as int] == p);
    }
}

/// What lies within a set of optional fields holds optional fields only.
pub proof fn lemma_all_optional_within(
    specs: Seq<FieldSpec>,
    inner: Seq<usize>,
    outer: Seq<usize>,
)
    requires
        within(inner, outer),
        all_optional(specs, outer),
    ensures
        all_optional(specs, inner),
{
}

/// `within` is transitive.
pub proof fn lemma_within_trans(a: Seq<usize>, b: Seq<usize>, c: Seq<usize>)
    requires
        within(a, b),
        within(b, c),
    ensures
        within(a, c),
{
}

/// The cache key of a field set: the names of its fields in order, with
/// `::` between neighbours.
pub fn forge_cache_key(specs: &Vec<FieldSpec>, fields: &Vec<usize>) -> (key: String)
    requires
        is_field_set(specs@.len() as nat, fields@),
    ensures
        key@ == cache_key(specs@, fields@),
{
    let mut key = String::new();
    let mut k: usize = 0;
    while k < fields.len()
        invariant
            k <= fields@.len(),
            is_field_set(specs@.len() as nat, fields@),
            key@ == join_names(names_of(specs@, fields@).take(k as int)),
        decreases fields@.len() - k,
    {
        let ghost names = names_of(specs@, fields@);
        proof {
            assert(names.take(k + 1).drop_last() == names.take(k as int));
        }
        if k > 0 {
            key.append("::");
        }
        key.append(specs[fields[k]].name.as_str());
        k += 1;
    }
    assert(names_of(specs@, fields@).take(fields@.len() as int) == names_of(specs@, fields@));
    key
}

/// Whether every field of the set is optional.
pub fn all_fields_optional(specs: &Vec<FieldSpec>, fields: &Vec<usize>) -> (all: bool)
    requires
        is_field_set(specs@.len() as nat, fields@),
    ensures
        all == all_optional(specs@, fields@),
{
    let mut k: usize = 0;
    while k < fields.len()
        invariant
            k <= fields@.len(),
            is_field_set(specs@.len() as nat, fields@),
            forall|j: int| 0 <= j < k ==> specs@[(#[trigger] fields@[j]) as int].optional,
        decreases fields@.len() - k,
    {
        if !specs[fields[k]].optional {
            return false;
        }
        k += 1;
    }
    true
}

/// The field set without the field at `index`, order kept.
pub fn without(fields: &Vec<usize>, index: usize) -> (rest: Vec<usize>)
    requires
        index < fields@.len(),
    ensures
        rest@ == fields@.remove(index as int),
{
    let mut rest: Vec<usize> = Vec::new();
    let mut k: usize = 0;
    while k < fields.len()
        invariant
            k <= fields@.len(),
            index < fields@.len(),
            k <= index ==> rest@ == fields@.take(k as int),
            k > index ==> rest@ == fields@.remove(index as int).take(k - 1),
        decreases fields@.len() - k,
    {
        if k != index {
            rest.push(fields[k]);
        }
        k += 1;
    }
    rest
}

/// The field set of all `n` fields.
pub fn all_fields(n: usize) -> (fields: Vec<usize>)
    ensures
        fields@ == full_set(n as nat),
        is_field_set(n as nat, fields@),
{
    let mut fields: Vec<usize> = Vec::new();
    let mut k: usize = 0;
    while k < n
        invariant
            k <= n,
            fields@ == full_set(k as nat),
        decreases n - k,
    {
        fields.push(k);
        k += 1;
    }
    fields
}

} // verus!
