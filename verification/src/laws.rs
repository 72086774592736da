//! What holds of every request: how often a key occurs decides the shape
//! of its value, the order of keys does not depend on the order of
//! arrival, and the rendered object has a fixed layout.

use crate::fields::{lemma_values_of_presence, values_of, FieldText};
use crate::headers::{latest, lemma_latest_push};
use crate::json::{array_text, joined, member_text, object_text, quoted, record_members};
use crate::query::{fold_step, folded, lemma_fold_step, QueryValueText};
use crate::record::{projection, EchoRecordText, RequestText};
use crate::render::{
    echo_text, headers_members, headers_text, queries_members, queries_text, quoted_all,
    value_text,
};
use crate::sorted_map::{
    ascending, enumerates, lemma_enumerates_insert, lemma_ordered_keys, ordered_keys,
};
use vstd::prelude::*;

verus! {

/// The folded map of a field list has an ascending listing of its keys.
pub proof fn lemma_folded_enumerable(fields: Seq<FieldText>)
    ensures
        enumerates(ordered_keys(folded(fields)), folded(fields)),
    decreases fields.len(),
{
    if fields.len() == 0 {
        let none = Seq::<Seq<char>>::empty();
        assert(enumerates(none, folded(fields)));
    } else {
        let earlier = fields.drop_last();
        let field = fields.last();
        lemma_folded_enumerable(earlier);
        assert(earlier.push(field) =~= fields);
        lemma_fold_step(earlier, field);
        let map = folded(earlier);
        let value = fold_step(map, field.0, field.1)[field.0];
        assert(fold_step(map, field.0, field.1) =~= map.insert(field.0, value));
        let grown = lemma_enumerates_insert(ordered_keys(map), map, field.0, value);
        assert(enumerates(grown, folded(fields)));
    }
}

/// The header map of a field list has an ascending listing of its names.
pub proof fn lemma_latest_enumerable(fields: Seq<FieldText>)
    ensures
        enumerates(ordered_keys(latest(fields)), latest(fields)),
    decreases fields.len(),
{
    if fields.len() == 0 {
        let none = Seq::<Seq<char>>::empty();
        assert(enumerates(none, latest(fields)));
    } else {
        let earlier = fields.drop_last();
        let field = fields.last();
        lemma_latest_enumerable(earlier);
        assert(earlier.push(field) =~= fields);
        lemma_latest_push(earlier, field);
        let grown = lemma_enumerates_insert(
            ordered_keys(latest(earlier)),
            latest(earlier),
            field.0,
            field.1,
        );
        assert(enumerates(grown, latest(fields)));
    }
}

/// Each key of the folded map has its member in the rendered `queries`
/// object, at the place of the key in ascending order: the JSON string of
/// the key with the JSON of its value.
pub proof fn lemma_member_of_key(fields: Seq<FieldText>, key: Seq<char>) -> (place: int)
    requires
        folded(fields).contains_key(key),
    ensures
        0 <= place < queries_members(folded(fields)).len(),
        ordered_keys(folded(fields))[place] == key,
        queries_members(folded(fields))[place] == (
            quoted(key),
            value_text(folded(fields)[key]),
        ),
{
    lemma_folded_enumerable(fields);
    let keys = ordered_keys(folded(fields));
    assert(keys.contains(key));
    keys.index_of(key)
}

/// `places` lists, in ascending order, exactly the positions at which
/// `fields` carry `key`.
pub open spec fn occurs_at(fields: Seq<FieldText>, key: Seq<char>, places: Seq<int>) -> bool {
    &&& forall|s: int, t: int| 0 <= s < t < places.len() ==> places[s] < places[t]
    &&& forall|t: int| 0 <= t < places.len() ==> 0 <= #[trigger] places[t] < fields.len()
    &&& forall|i: int|
        0 <= i < fields.len() ==> ((#[trigger] fields[i]).0 == key <==> places.contains(i))
}

/// The values at the given places, in the order of the places.
pub open spec fn values_at(fields: Seq<FieldText>, places: Seq<int>) -> Seq<Seq<char>> {
    Seq::new(places.len(), |t: int| fields[places[t]].1)
}

/// The values of a key are the values at the places where it occurs, in
/// the order of arrival.
pub proof fn lemma_values_at_places(fields: Seq<FieldText>, key: Seq<char>, places: Seq<int>)
    requires
        occurs_at(fields, key, places),
    ensures
        values_of(fields, key) == values_at(fields, places),
    decreases fields.len(),
{
    if fields.len() == 0 {
        if places.len() > 0 {
            assert(0 <= places[0] < fields.len());
        }
        assert(values_of(fields, key) =~= values_at(fields, places));
    } else {
        let n = fields.len() - 1;
        let earlier = fields.drop_last();
        if fields.last().0 == key {
            assert(fields[n].0 == key);
            assert(places.contains(n));
            let at = places.index_of(n);
            if at < places.len() - 1 {
                assert(places[at] < places[places.len() - 1]);
            }
            assert(places.last() == n);
            let before = places.drop_last();
            assert forall|i: int| 0 <= i < earlier.len() implies ((#[trigger] earlier[i]).0 == key
                <==> before.contains(i)) by {
                assert(earlier[i] == fields[i]);
                if fields[i].0 == key {
                    let t = places.index_of(i);
                    assert(before[t] == i);
                }
                if before.contains(i) {
                    let t = before.index_of(i);
                    assert(places[t] == i);
                }
            }
            assert forall|t: int| 0 <= t < before.len() implies 0 <= #[trigger] before[t]
                < earlier.len() by {
                assert(places[t] < places[places.len() - 1]);
            }
            lemma_values_at_places(earlier, key, before);
            assert(values_at(fields, places) =~= values_at(earlier, before).push(fields[n].1));
        } else {
            assert forall|t: int| 0 <= t < places.len() implies 0 <= #[trigger] places[t]
                < earlier.len() by {
                if places[t] == n {
                    assert(places.contains(n));
                }
            }
            assert forall|i: int| 0 <= i < earlier.len() implies ((#[trigger] earlier[i]).0 == key
                <==> places.contains(i)) by {
                assert(earlier[i] == fields[i]);
            }
            lemma_values_at_places(earlier, key, places);
            assert(values_at(fields, places) =~= values_at(earlier, places));
        }
    }
}

/// A request without query fields has no query keys, and its `queries`
/// object is rendered as `{}`.
pub proof fn law_no_query_renders_empty_object(request: RequestText)
    requires
        request.query.len() == 0,
    ensures
        projection(request).queries == Map::<Seq<char>, QueryValueText>::empty(),
        queries_text(projection(request).queries) == "{}"@,
{
    let map = projection(request).queries;
    assert(map =~= Map::<Seq<char>, QueryValueText>::empty());
    let none = Seq::<Seq<char>>::empty();
    lemma_ordered_keys(none, map);
    let members = queries_members(map);
    assert(members.map_values(|member: FieldText| member_text(member)) =~= Seq::<
        Seq<char>,
    >::empty());
    reveal_strlit("{");
    reveal_strlit("}");
    reveal_strlit("{}");
    assert(queries_text(map) =~= "{}"@);
}

/// A key that occurs exactly once, at position `at`, maps to the value of
/// that field as a scalar, which is rendered as the JSON string of the
/// value.
pub proof fn law_single_occurrence_is_scalar(fields: Seq<FieldText>, at: int)
    requires
        0 <= at < fields.len(),
        forall|i: int| 0 <= i < fields.len() && i != at ==> (#[trigger] fields[i]).0 != fields[at].0,
    ensures
        folded(fields).contains_key(fields[at].0),
        folded(fields)[fields[at].0] == QueryValueText::Single(fields[at].1),
        value_text(folded(fields)[fields[at].0]) == quoted(fields[at].1),
        exists|place: int|
            0 <= place < queries_members(folded(fields)).len() && #[trigger] queries_members(
                folded(fields),
            )[place] == (quoted(fields[at].0), quoted(fields[at].1)),
{
    let key = fields[at].0;
    let places = seq![at];
    assert forall|i: int| 0 <= i < fields.len() implies ((#[trigger] fields[i]).0 == key
        <==> places.contains(i)) by {
        if i == at {
            assert(places[0] == i);
        }
    }
    lemma_values_at_places(fields, key, places);
    assert(values_at(fields, places)[0] == fields[at].1);
    let place = lemma_member_of_key(fields, key);
    assert(queries_members(folded(fields))[place] == (quoted(key), quoted(fields[at].1)));
}

/// A key that occurs two or more times maps to the list of its values in
/// the order of arrival, equal values included, which is rendered as the
/// JSON array of the JSON strings of these values in that order.
pub proof fn law_repeated_key_is_list(fields: Seq<FieldText>, key: Seq<char>, places: Seq<int>)
    requires
        occurs_at(fields, key, places),
        places.len() >= 2,
    ensures
        folded(fields).contains_key(key),
        folded(fields)[key] == QueryValueText::Multi(values_at(fields, places)),
        value_text(folded(fields)[key]) == array_text(quoted_all(values_at(fields, places))),
        values_at(fields, places).len() == places.len(),
        exists|place: int|
            0 <= place < queries_members(folded(fields)).len() && #[trigger] queries_members(
                folded(fields),
            )[place] == (quoted(key), array_text(quoted_all(values_at(fields, places)))),
{
    lemma_values_at_places(fields, key, places);
    let place = lemma_member_of_key(fields, key);
    assert(queries_members(folded(fields))[place] == (
        quoted(key),
        array_text(quoted_all(values_at(fields, places))),
    ));
}

/// The shape of a value follows from the number of occurrences of its key
/// alone: a key of the map occurs at least once; with one occurrence the
/// value is a scalar, with more it is a list of that many values, so that
/// no list has fewer than two.
pub proof fn law_shape_by_count(fields: Seq<FieldText>, key: Seq<char>)
    ensures
        folded(fields).contains_key(key) <==> values_of(fields, key).len() >= 1,
        folded(fields).contains_key(key) <==> exists|i: int|
            0 <= i < fields.len() && (#[trigger] fields[i]).0 == key,
        values_of(fields, key).len() == 1 ==> folded(fields)[key] is Single,
        values_of(fields, key).len() >= 2 ==> (folded(fields)[key] matches QueryValueText::Multi(
            list,
        ) && list.len() == values_of(fields, key).len()),
{
    lemma_values_of_presence(fields, key);
}

/// The members of the rendered `queries` and `headers` objects stand in
/// strictly ascending order of their keys, one member for each key.
pub proof fn law_members_in_key_order(request: RequestText)
    ensures
        ({
            let map = projection(request).queries;
            let keys = ordered_keys(map);
            &&& ascending(keys)
            &&& forall|key: Seq<char>| keys.contains(key) <==> map.contains_key(key)
            &&& queries_members(map).len() == keys.len()
            &&& forall|i: int|
                0 <= i < keys.len() ==> #[trigger] queries_members(map)[i] == (
                    quoted(keys[i]),
                    value_text(map[keys[i]]),
                )
        }),
        ({
            let map = projection(request).headers;
            let names = ordered_keys(map);
            &&& ascending(names)
            &&& forall|name: Seq<char>| names.contains(name) <==> map.contains_key(name)
            &&& headers_members(map).len() == names.len()
            &&& forall|i: int|
                0 <= i < names.len() ==> #[trigger] headers_members(map)[i] == (
                    quoted(names[i]),
                    quoted(map[names[i]]),
                )
        }),
{
    lemma_folded_enumerable(request.query);
    lemma_latest_enumerable(request.headers);
}

/// The order of the keys does not depend on the order of arrival: field
/// lists with the same keys give the same sequence of keys.
pub proof fn law_key_order_ignores_arrival(first: Seq<FieldText>, second: Seq<FieldText>)
    requires
        forall|key: Seq<char>|
            values_of(first, key).len() > 0 <==> values_of(second, key).len() > 0,
    ensures
        ordered_keys(folded(first)) == ordered_keys(folded(second)),
        ordered_keys(latest(first)) == ordered_keys(latest(second)),
        ordered_keys(folded(first)) == ordered_keys(latest(first)),
{
    lemma_folded_enumerable(first);
    lemma_folded_enumerable(second);
    lemma_latest_enumerable(first);
    lemma_latest_enumerable(second);
    lemma_ordered_keys(ordered_keys(folded(second)), folded(first));
    lemma_ordered_keys(ordered_keys(latest(second)), latest(first));
    lemma_ordered_keys(ordered_keys(latest(first)), folded(first));
}

/// The body of every record is the placeholder, and the rendered object
/// ends with the `body` member that holds the JSON string of the
/// placeholder.
pub proof fn law_body_is_placeholder(request: RequestText)
    ensures
        projection(request).body == "BODY"@,
        exists|front: Seq<char>|
            echo_text(projection(request)) == front + ","@ + member_text(
                ("\"body\""@, quoted("BODY"@)),
            ) + "}"@,
{
    let record = projection(request);
    let members = record_members(
        quoted(record.method),
        quoted(record.path),
        queries_text(record.queries),
        headers_text(record.headers),
        quoted(record.body),
    );
    let parts = members.map_values(|member: FieldText| member_text(member));
    let front = "{"@ + joined(parts.drop_last());
    assert(joined(parts) == joined(parts.drop_last()) + ","@ + parts[4]);
    assert(echo_text(record) =~= front + ","@ + member_text(("\"body\""@, quoted("BODY"@)))
        + "}"@);
}

/// The rendered object holds its five members in the order method, path,
/// queries, headers, body, whatever the record holds.
pub proof fn law_member_order(record: EchoRecordText)
    ensures
        echo_text(record) == object_text(
            seq![
                ("\"method\""@, quoted(record.method)),
                ("\"path\""@, quoted(record.path)),
                ("\"queries\""@, queries_text(record.queries)),
                ("\"headers\""@, headers_text(record.headers)),
                ("\"body\""@, quoted(record.body)),
            ],
        ),
{
}

} // verus!
