//! Header capture: each header name maps to one value as a plain scalar.
//!
//! Where a name reaches this crate more than once, the value that arrived
//! last stands. Names are kept as they arrive: no case is folded, so names
//! that differ in case are different keys.

use crate::fields::{lemma_values_of_push, pairs, values_of, FieldText};
use crate::sorted_map::SortedMap;
use vstd::prelude::*;

verus! {

/// Header names in ascending order, each with its value.
pub type HeaderMap = SortedMap<String>;

/// The header map of a field list: every name that occurs, mapped to the
/// value of its last occurrence.
pub open spec fn latest(fields: Seq<FieldText>) -> Map<Seq<char>, Seq<char>> {
    Map::new(
        |name: Seq<char>| values_of(fields, name).len() > 0,
        |name: Seq<char>| values_of(fields, name).last(),
    )
}

/// One more field sets the value of its name and leaves the others.
pub proof fn lemma_latest_push(fields: Seq<FieldText>, field: FieldText)
    ensures
        latest(fields).insert(field.0, field.1) == latest(fields.push(field)),
{
    let stepped = latest(fields).insert(field.0, field.1);
    let after = latest(fields.push(field));
    assert forall|name: Seq<char>| #[trigger] stepped.contains_key(name) == after.contains_key(name)
        && (stepped.contains_key(name) ==> stepped[name] == after[name]) by {
        lemma_values_of_push(fields, field, name);
    }
    assert(stepped =~= after);
}

/// Sets the value of one header, replacing a value recorded earlier.
pub fn record_header(map: &mut HeaderMap, name: String, value: String)
    requires
        old(map).wf(),
    ensures
        final(map).wf(),
        final(map)@ == old(map)@.insert(name@, value@),
{
    let (at, found) = map.position(name.as_str());
    if found {
        let _ = map.replace_at(at, value);
    } else {
        map.insert_at(at, name, value);
    }
}

/// Captures the headers of a request as a map from name to value.
///
/// Every name of the fields is a key of the map, and it maps to the value
/// of its last occurrence.
pub fn headers_as_map(fields: &Vec<(String, String)>) -> (map: HeaderMap)
    ensures
        map.wf(),
        map@ == latest(pairs(fields@)),
{
    let mut map: HeaderMap = SortedMap::new();
    let mut i: usize = 0;
    assert(map@ =~= latest(pairs(fields@).take(0)));
    while i < fields.len()
        invariant
            i <= fields.len(),
            map.wf(),
            map@ == latest(pairs(fields@).take(i as int)),
        decreases fields.len() - i,
    {
        let name = fields[i].0.clone();
        let value = fields[i].1.clone();
        proof {
            let seen = pairs(fields@).take(i as int);
            lemma_latest_push(seen, (name@, value@));
            assert(seen.push((name@, value@)) =~= pairs(fields@).take(i + 1));
        }
        record_header(&mut map, name, value);
        i += 1;
    }
    assert(pairs(fields@).take(fields.len() as int) =~= pairs(fields@));
    map
}

} // verus!
