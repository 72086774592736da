//! JSON text: how encoded pieces are framed into arrays and objects.
//!
//! String literals are encoded by `serde_json`; the framing around them
//! (brackets, braces, colons and commas, with no white space) is written
//! here, piece by piece, over text that is already encoded.

use crate::fields::{pairs, FieldText};
use crate::sorted_map::texts;
use vstd::prelude::*;
use vstd::string::*;

verus! {

/// Why an echo could not be produced.
#[derive(Debug, Clone, Copy, PartialEq, Eq)]
pub enum EchoError {
    /// The JSON encoder refused a string of the record.
    EncodingFailure,
}

/// Declares `serde_json::Error`, the error of the encoder, as an opaque
/// type: a value of it is carried from the encoder to `encoding_outcome`
/// and nothing is read out of it.
#[verifier::external_type_specification]
#[verifier::external_body]
pub struct ExEncoderError(serde_json::Error);

/// What `serde_json::to_string` returns for a string with this text: the
/// JSON string literal, or nothing where the encoder reports an error.
pub uninterp spec fn json_string(text: Seq<char>) -> Option<Seq<char>>;

/// Calls `serde_json::to_string` on a string slice.
///
/// Nothing is proved of this call. The contract claims only that its
/// outcome depends on the text of the argument alone: the text of an `Ok`
/// result, or the fact of an error, is what `json_string` names for it.
#[verifier::external_body]
fn encode_text(text: &str) -> (r: Result<String, serde_json::Error>)
    ensures
        match r {
            Ok(literal) => json_string(text@) == Some(literal@),
            Err(_) => json_string(text@) is None,
        },
{
    serde_json::to_string(text)
}

/// The encoder accepts this text.
pub open spec fn encodable(text: Seq<char>) -> bool {
    json_string(text) is Some
}

/// The JSON string literal of an encodable text.
pub open spec fn quoted(text: Seq<char>) -> Seq<char> {
    match json_string(text) {
        Some(literal) => literal,
        None => Seq::empty(),
    }
}

/// `r` is what is owed where `expected` is the text to produce: that text,
/// or an encoding failure where there is none.
pub open spec fn delivers(expected: Option<Seq<char>>, r: Result<String, EchoError>) -> bool {
    match expected {
        Some(text) => r matches Ok(json) && json@ == text,
        None => r == Err::<String, EchoError>(EchoError::EncodingFailure),
    }
}

/// Turns what the encoder returned into this crate's own result: the text
/// as it is, any error of the encoder as an encoding failure.
pub fn encoding_outcome(outcome: Result<String, serde_json::Error>) -> (r: Result<
    String,
    EchoError,
>)
    ensures
        match outcome {
            Ok(literal) => r == Ok::<String, EchoError>(literal),
            Err(_) => r == Err::<String, EchoError>(EchoError::EncodingFailure),
        },
{
    match outcome {
        Ok(literal) => Ok(literal),
        Err(_) => Err(EchoError::EncodingFailure),
    }
}

/// Encodes a string as a JSON string literal.
pub fn encode(text: &str) -> (r: Result<String, EchoError>)
    ensures
        delivers(json_string(text@), r),
{
    encoding_outcome(encode_text(text))
}

/// The items with a comma between each two neighbours.
pub open spec fn joined(items: Seq<Seq<char>>) -> Seq<char>
    decreases items.len(),
{
    if items.len() == 0 {
        Seq::empty()
    } else if items.len() == 1 {
        items[0]
    } else {
        joined(items.drop_last()) + ","@ + items.last()
    }
}

/// A JSON array of items that are already encoded.
pub open spec fn array_text(items: Seq<Seq<char>>) -> Seq<char> {
    "["@ + joined(items) + "]"@
}

/// One member of a JSON object: the encoded key, a colon, the encoded value.
pub open spec fn member_text(member: FieldText) -> Seq<char> {
    member.0 + ":"@ + member.1
}

/// A JSON object of members whose keys and values are already encoded.
pub open spec fn object_text(members: Seq<FieldText>) -> Seq<char> {
    "{"@ + joined(members.map_values(|member: FieldText| member_text(member))) + "}"@
}

/// The members of the echo object in their fixed order: `method`, `path`,
/// `queries`, `headers`, `body`, each with its value, which is already
/// encoded.
pub open spec fn record_members(
    method: Seq<char>,
    path: Seq<char>,
    queries: Seq<char>,
    headers: Seq<char>,
    body: Seq<char>,
) -> Seq<FieldText> {
    seq![
        ("\"method\""@, method),
        ("\"path\""@, path),
        ("\"queries\""@, queries),
        ("\"headers\""@, headers),
        ("\"body\""@, body),
    ]
}

/// The echo object: a JSON object of the five members in their fixed
/// order.
pub open spec fn record_text(
    method: Seq<char>,
    path: Seq<char>,
    queries: Seq<char>,
    headers: Seq<char>,
    body: Seq<char>,
) -> Seq<char> {
    object_text(record_members(method, path, queries, headers, body))
}

/// Joining one more item: a comma goes before it unless it is the first.
pub proof fn lemma_joined_push(items: Seq<Seq<char>>, item: Seq<char>)
    ensures
        joined(items.push(item)) == if items.len() == 0 {
            item
        } else {
            joined(items) + ","@ + item
        },
{
    assert(items.push(item).drop_last() =~= items);
}

/// Frames encoded items as a JSON array.
pub fn frame_array(items: &Vec<String>) -> (r: String)
    ensures
        r@ == array_text(texts(items@)),
{
    let mut out = String::new();
    out.append("[");
    let mut i: usize = 0;
    assert(texts(items@).take(0) =~= Seq::<Seq<char>>::empty());
    while i < items.len()
        invariant
            i <= items.len(),
            out@ == "["@ + joined(texts(items@).take(i as int)),
        decreases items.len() - i,
    {
        proof {
            let seen = texts(items@).take(i as int);
            lemma_joined_push(seen, items@[i as int]@);
            assert(seen.push(items@[i as int]@) =~= texts(items@).take(i + 1));
        }
        if i > 0 {
            out.append(",");
        }
        out.append(items[i].as_str());
        i += 1;
    }
    assert(texts(items@).take(items.len() as int) =~= texts(items@));
    out.append("]");
    out
}

/// Frames members, given as pairs of an encoded key and an encoded value,
/// as a JSON object.
pub fn frame_object(members: &Vec<(String, String)>) -> (r: String)
    ensures
        r@ == object_text(pairs(members@)),
{
    let mut out = String::new();
    out.append("{");
    let mut i: usize = 0;
    let ghost all = pairs(members@).map_values(|member: FieldText| member_text(member));
    assert(all.take(0) =~= Seq::<Seq<char>>::empty());
    while i < members.len()
        invariant
            i <= members.len(),
            all == pairs(members@).map_values(|member: FieldText| member_text(member)),
            out@ == "{"@ + joined(all.take(i as int)),
        decreases members.len() - i,
    {
        proof {
            let seen = all.take(i as int);
            lemma_joined_push(seen, all[i as int]);
            assert(seen.push(all[i as int]) =~= all.take(i + 1));
        }
        if i > 0 {
            out.append(",");
        }
        out.append(members[i].0.as_str());
        out.append(":");
        out.append(members[i].1.as_str());
        i += 1;
    }
    assert(all.take(members.len() as int) =~= all);
    out.append("}");
    out
}

/// Frames the five encoded values of an echo as its JSON object, in the
/// order method, path, queries, headers, body.
pub fn frame_record(method: &str, path: &str, queries: &str, headers: &str, body: &str) -> (r:
    String)
    ensures
        r@ == record_text(method@, path@, queries@, headers@, body@),
{
    let mut out = String::new();
    out.append("{");
    out.append("\"method\"");
    out.append(":");
    out.append(method);
    out.append(",");
    out.append("\"path\"");
    out.append(":");
    out.append(path);
    out.append(",");
    out.append("\"queries\"");
    out.append(":");
    out.append(queries);
    out.append(",");
    out.append("\"headers\"");
    out.append(":");
    out.append(headers);
    out.append(",");
    out.append("\"body\"");
    out.append(":");
    out.append(body);
    proof {
        let members = record_members(method@, path@, queries@, headers@, body@);
        let parts = members.map_values(|member: FieldText| member_text(member));
        let upto4 = parts.drop_last();
        let upto3 = upto4.drop_last();
        let upto2 = upto3.drop_last();
        let upto1 = upto2.drop_last();
        assert(joined(upto1) == parts[0]);
        assert(joined(upto2) == joined(upto1) + ","@ + parts[1]);
        assert(joined(upto3) == joined(upto2) + ","@ + parts[2]);
        assert(joined(upto4) == joined(upto3) + ","@ + parts[3]);
        assert(joined(parts) == joined(upto4) + ","@ + parts[4]);
        assert(out@ =~= "{"@ + joined(parts));
    }
    out.append("}");
    out
}

} // verus!
