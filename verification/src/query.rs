//! Query folding: repeated query keys collapse into a list, keys that occur
//! once stay scalar.

use crate::fields::{lemma_values_of_push, pairs, values_of, FieldText};
use crate::sorted_map::{texts, SortedMap};
use vstd::prelude::*;

verus! {

/// What a query key maps to.
#[derive(Debug, Clone, PartialEq, Eq)]
pub enum QueryValue {
    /// The key occurred exactly once.
    Single(String),
    /// The key occurred more than once; the values stand in arrival order.
    Multi(Vec<String>),
}

/// A query value as text.
pub enum QueryValueText {
    Single(Seq<char>),
    Multi(Seq<Seq<char>>),
}

impl View for QueryValue {
    type V = QueryValueText;

    open spec fn view(&self) -> QueryValueText {
        match self {
            QueryValue::Single(value) => QueryValueText::Single(value@),
            QueryValue::Multi(list) => QueryValueText::Multi(texts(list@)),
        }
    }
}

/// Query keys in ascending order, each with its folded value.
pub type QueryMap = SortedMap<QueryValue>;

/// The folded form of the values of one key: a scalar for one value, a list
/// otherwise.
pub open spec fn collapse(values: Seq<Seq<char>>) -> QueryValueText {
    if values.len() == 1 {
        QueryValueText::Single(values[0])
    } else {
        QueryValueText::Multi(values)
    }
}

/// The folded query map of a field list: every key that occurs, mapped to
/// the folded form of its values in arrival order.
pub open spec fn folded(fields: Seq<FieldText>) -> Map<Seq<char>, QueryValueText> {
    Map::new(
        |key: Seq<char>| values_of(fields, key).len() > 0,
        |key: Seq<char>| collapse(values_of(fields, key)),
    )
}

/// One step of the left-to-right fold: an unseen key gets a scalar, a scalar
/// becomes the list of the former and the new value, a list grows by one.
pub open spec fn fold_step(
    map: Map<Seq<char>, QueryValueText>,
    key: Seq<char>,
    value: Seq<char>,
) -> Map<Seq<char>, QueryValueText> {
    if !map.contains_key(key) {
        map.insert(key, QueryValueText::Single(value))
    } else {
        map.insert(key, absorbed(map[key], value))
    }
}

/// A value that has taken in one more occurrence of its key.
pub open spec fn absorbed(former: QueryValueText, value: Seq<char>) -> QueryValueText {
    match former {
        QueryValueText::Single(first) => QueryValueText::Multi(seq![first, value]),
        QueryValueText::Multi(list) => QueryValueText::Multi(list.push(value)),
    }
}

/// No key maps to a list of fewer than two values: a key that was seen once
/// has a scalar.
pub open spec fn lists_are_plural(map: Map<Seq<char>, QueryValueText>) -> bool {
    forall|key: Seq<char>| #[trigger]
        map.contains_key(key) ==> (map[key] matches QueryValueText::Multi(list) ==> list.len()
            >= 2)
}

/// Folding one more field into the folded map of a field list gives the
/// folded map of the longer list.
pub proof fn lemma_fold_step(fields: Seq<FieldText>, field: FieldText)
    ensures
        fold_step(folded(fields), field.0, field.1) == folded(fields.push(field)),
{
    let before = folded(fields);
    let after = folded(fields.push(field));
    let stepped = fold_step(before, field.0, field.1);
    assert forall|key: Seq<char>| #[trigger] stepped.contains_key(key) == after.contains_key(key)
        && (stepped.contains_key(key) ==> stepped[key] == after[key]) by {
        lemma_values_of_push(fields, field, key);
        if key == field.0 {
            let former = values_of(fields, key);
            if former.len() == 1 {
                assert(seq![former[0], field.1] =~= former.push(field.1));
            }
        }
    }
    assert(stepped =~= after);
}

impl QueryValue {
    /// Takes in one more occurrence of the key: a scalar becomes the list of
    /// the former and the new value, a list grows by one.
    pub fn absorb(self, value: String) -> (r: QueryValue)
        ensures
            r@ == absorbed(self@, value@),
    {
        match self {
            QueryValue::Single(first) => {
                let mut list: Vec<String> = Vec::new();
                list.push(first);
                list.push(value);
                assert(texts(list@) =~= seq![first@, value@]);
                QueryValue::Multi(list)
            },
            QueryValue::Multi(list) => {
                let mut list = list;
                list.push(value);
                assert(texts(list@) =~= texts(self->Multi_0@).push(value@));
                QueryValue::Multi(list)
            },
        }
    }
}

/// Folds one (key, value) pair into a query map.
pub fn record_query(map: &mut QueryMap, key: String, value: String)
    requires
        old(map).wf(),
    ensures
        final(map).wf(),
        final(map)@ == fold_step(old(map)@, key@, value@),
        lists_are_plural(old(map)@) ==> lists_are_plural(final(map)@),
{
    let (at, found) = map.position(key.as_str());
    if found {
        let former = map.replace_at(at, QueryValue::Multi(Vec::new()));
        let grown = former.absorb(value);
        let _ = map.replace_at(at, grown);
        assert(map@ =~= fold_step(old(map)@, key@, value@)) by {
            crate::sorted_map::lemma_assoc_at(old(map).keys(), old(map).values(), at as int);
        }
    } else {
        map.insert_at(at, key, QueryValue::Single(value));
    }
}

/// Folds the raw query fields of a request, in the order in which they
/// appear in the URI, into a map from key to value.
///
/// Every key of the fields is a key of the map. A key that occurs once maps
/// to its value as a scalar; a key that occurs more than once maps to the
/// list of all its values in arrival order, equal values included.
pub fn querys_as_map(fields: &Vec<(String, String)>) -> (map: QueryMap)
    ensures
        map.wf(),
        map@ == folded(pairs(fields@)),
        lists_are_plural(map@),
{
    let mut map: QueryMap = SortedMap::new();
    let mut i: usize = 0;
    assert(map@ =~= folded(pairs(fields@).take(0)));
    while i < fields.len()
        invariant
            i <= fields.len(),
            map.wf(),
            map@ == folded(pairs(fields@).take(i as int)),
        decreases fields.len() - i,
    {
        let key = fields[i].0.clone();
        let value = fields[i].1.clone();
        proof {
            let seen = pairs(fields@).take(i as int);
            lemma_fold_step(seen, (key@, value@));
            assert(seen.push((key@, value@)) =~= pairs(fields@).take(i + 1));
        }
        record_query(&mut map, key, value);
        i += 1;
    }
    assert(pairs(fields@).take(fields.len() as int) =~= pairs(fields@));
    map
}

} // verus!
