//! Raw fields as a transport delivers them: an ordered list of (key, value)
//! pairs in which a key may occur any number of times.

use vstd::prelude::*;

verus! {

/// A raw field as text: its key and its value.
pub type FieldText = (Seq<char>, Seq<char>);

/// The text of each pair of a field list.
pub open spec fn pairs(fields: Seq<(String, String)>) -> Seq<FieldText> {
    Seq::new(fields.len(), |i: int| (fields[i].0@, fields[i].1@))
}

/// The values that `fields` give for `key`, in arrival order.
pub open spec fn values_of(fields: Seq<FieldText>, key: Seq<char>) -> Seq<Seq<char>>
    decreases fields.len(),
{
    if fields.len() == 0 {
        Seq::empty()
    } else {
        let earlier = values_of(fields.drop_last(), key);
        if fields.last().0 == key {
            earlier.push(fields.last().1)
        } else {
            earlier
        }
    }
}

/// One more field adds its value to the values of its own key and leaves
/// those of every other key as they were.
pub proof fn lemma_values_of_push(fields: Seq<FieldText>, field: FieldText, key: Seq<char>)
    ensures
        values_of(fields.push(field), key) == if field.0 == key {
            values_of(fields, key).push(field.1)
        } else {
            values_of(fields, key)
        },
{
    assert(fields.push(field).drop_last() =~= fields);
}

/// A key has a value exactly if some field carries it.
pub proof fn lemma_values_of_presence(fields: Seq<FieldText>, key: Seq<char>)
    ensures
        values_of(fields, key).len() > 0 <==> exists|i: int|
            0 <= i < fields.len() && (#[trigger] fields[i]).0 == key,
    decreases fields.len(),
{
    if fields.len() > 0 {
        let earlier = fields.drop_last();
        lemma_values_of_presence(earlier, key);
        if values_of(fields, key).len() > 0 {
            if fields.last().0 == key {
                assert(fields[fields.len() - 1].0 == key);
            } else {
                let i = choose|i: int| 0 <= i < earlier.len() && (#[trigger] earlier[i]).0 == key;
                assert(fields[i].0 == key);
            }
        }
        if exists|i: int| 0 <= i < fields.len() && (#[trigger] fields[i]).0 == key {
            let i = choose|i: int| 0 <= i < fields.len() && (#[trigger] fields[i]).0 == key;
            if i < fields.len() - 1 {
                assert(earlier[i].0 == key);
            }
        }
    }
}

} // verus!
