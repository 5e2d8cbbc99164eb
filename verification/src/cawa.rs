//! Texts of the carbon-contribution API: request bodies and addresses the
//! engine sends, and the fields it reads out of the responses.
//!
//! Responses are JSON. Parsing is delegated to the `serde_json` crate behind
//! one trusted call; the parsed document is mirrored into the engine's own
//! value type, and every step after the parse — looking up fields, picking
//! array elements, choosing the fallback — is verified code.

use vstd::prelude::*;
use vstd::string::StringExecFns;
use crate::render::dec_digits;

verus! {

/// A parsed JSON document, mirrored into the engine. A number is carried as
/// the text the parser renders it to, for the engine to read exactly.
#[derive(Debug)]
pub enum JsonValue {
    Null,
    Bool(bool),
    Number(String),
    Text(String),
    Array(Vec<JsonValue>),
    Object(Vec<(String, JsonValue)>),
}

/// Declares `serde_json::Value` so that it can stand in signatures here.
#[verifier::external_type_specification]
#[verifier::external_body]
pub struct ExValue(serde_json::Value);

/// Relies on the variants of `serde_json::Value` and on
/// `serde_json::Number::to_string`: mirrors one parsed value into the
/// engine's value type, arm by arm, moving the payloads.
#[verifier::external_body]
fn mirror_value(v: &serde_json::Value) -> JsonValue {
    match v {
        serde_json::Value::Null => JsonValue::Null,
        serde_json::Value::Bool(b) => JsonValue::Bool(*b),
        serde_json::Value::Number(n) => JsonValue::Number(n.to_string()),
        serde_json::Value::String(s) => JsonValue::Text(s.clone()),
        serde_json::Value::Array(a) => JsonValue::Array(a.iter().map(mirror_value).collect()),
        serde_json::Value::Object(o) => JsonValue::Object(
            o.iter().map(|(k, val)| (k.clone(), mirror_value(val))).collect(),
        ),
    }
}

/// What a text parses to, if it is well-formed JSON: a function of the text
/// alone.
pub uninterp spec fn json_parse_of(s: Seq<char>) -> Option<JsonValue>;

/// Relies on `serde_json::from_str` and `serde_json::Number::to_string`:
/// whether and how a text parses as JSON depends on the text alone. The
/// parsed document is mirrored into `JsonValue`, each number as its text.
#[verifier::external_body]
pub(crate) fn json_parse(s: &str) -> (r: Option<JsonValue>)
    ensures
        r == json_parse_of(s@),
{
    match serde_json::from_str::<serde_json::Value>(s) {
        Ok(v) => Some(mirror_value(&v)),
        Err(_) => None,
    }
}

/// The value of the first field of this name, if any.
pub open spec fn first_field(fields: Seq<(String, JsonValue)>, k: Seq<char>) -> Option<JsonValue>
    decreases fields.len(),
{
    if fields.len() == 0 {
        None
    } else if fields[0].0@ == k {
        Some(fields[0].1)
    } else {
        first_field(fields.drop_first(), k)
    }
}

proof fn lemma_first_field_at(fields: Seq<(String, JsonValue)>, k: Seq<char>, i: int)
    requires
        0 <= i < fields.len(),
        fields[i].0@ == k,
        forall|t: int| 0 <= t < i ==> #[trigger] fields[t].0@ != k,
    ensures
        first_field(fields, k) == Some(fields[i].1),
    decreases i,
{
    if i > 0 {
        assert(fields.drop_first()[i - 1] == fields[i]);
        assert forall|t: int| 0 <= t < i - 1 implies #[trigger] fields.drop_first()[t].0@ != k by {
            assert(fields.drop_first()[t] == fields[t + 1]);
        }
        lemma_first_field_at(fields.drop_first(), k, i - 1);
    }
}

proof fn lemma_first_field_none(fields: Seq<(String, JsonValue)>, k: Seq<char>)
    requires
        forall|t: int| 0 <= t < fields.len() ==> #[trigger] fields[t].0@ != k,
    ensures
        first_field(fields, k) is None,
    decreases fields.len(),
{
    if fields.len() > 0 {
        assert forall|t: int| 0 <= t < fields.len() - 1
            implies #[trigger] fields.drop_first()[t].0@ != k by {
            assert(fields.drop_first()[t] == fields[t + 1]);
        }
        lemma_first_field_none(fields.drop_first(), k);
    }
}

/// A borrow of the value of the first field of this name, if any.
pub fn get_field<'a>(fields: &'a Vec<(String, JsonValue)>, k: &String) -> (r: Option<&'a JsonValue>)
    ensures
        match r {
            Some(v) => first_field(fields@, k@) == Some(*v),
            None => first_field(fields@, k@) is None,
        },
{
    let mut i: usize = 0;
    while i < fields.len()
        invariant
            i <= fields@.len(),
            forall|t: int| 0 <= t < i ==> #[trigger] fields@[t].0@ != k@,
        decreases fields@.len() - i,
    {
        if fields[i].0 == *k {
            proof {
                lemma_first_field_at(fields@, k@, i as int);
            }
            return Some(&fields[i].1);
        }
        i = i + 1;
    }
    proof {
        lemma_first_field_none(fields@, k@);
    }
    None
}

/// The proof address of a contribution listing: the `proof` field of the
/// first element of the top-level array, when the listing has that shape.
pub open spec fn spec_proof_of(parsed: Option<JsonValue>) -> Option<Seq<char>> {
    match parsed {
        Some(JsonValue::Array(a)) => {
            if a@.len() > 0 {
                match a@[0] {
                    JsonValue::Object(fields) => match first_field(fields@, "proof"@) {
                        Some(JsonValue::Text(t)) => Some(t@),
                        _ => None,
                    },
                    _ => None,
                }
            } else {
                None
            }
        },
        _ => None,
    }
}

/// Read the proof address out of a contribution listing; a listing of any
/// other shape, or one that does not parse, yields the fixed fallback text.
pub fn get_proof(body: &str) -> (r: String)
    ensures
        match spec_proof_of(json_parse_of(body@)) {
            Some(p) => r@ == p,
            None => r@ == "Proof URL does not exist"@,
        },
{
    let parsed = json_parse(body);
    match &parsed {
        Some(JsonValue::Array(a)) => {
            if a.len() > 0 {
                match &a[0] {
                    JsonValue::Object(fields) => {
                        match get_field(fields, &String::from_str("proof")) {
                            Some(JsonValue::Text(t)) => String::from_str(t.as_str()),
                            _ => String::from_str("Proof URL does not exist"),
                        }
                    },
                    _ => String::from_str("Proof URL does not exist"),
                }
            } else {
                String::from_str("Proof URL does not exist")
            }
        },
        _ => String::from_str("Proof URL does not exist"),
    }
}

/// The identifier of a freshly posted contribution: the first element of the
/// `id` array of the top-level object, when the response has that shape.
pub open spec fn spec_contribution_id(parsed: Option<JsonValue>) -> Option<Seq<char>> {
    match parsed {
        Some(JsonValue::Object(fields)) => match first_field(fields@, "id"@) {
            Some(JsonValue::Array(a)) => {
                if a@.len() > 0 {
                    match a@[0] {
                        JsonValue::Text(t) => Some(t@),
                        _ => None,
                    }
                } else {
                    None
                }
            },
            _ => None,
        },
        _ => None,
    }
}

/// Read the contribution identifier out of a posting response. A response
/// of any other shape yields nothing; the caller reports the failure.
pub fn extract_contribution_id(body: &str) -> (r: Option<String>)
    ensures
        match spec_contribution_id(json_parse_of(body@)) {
            Some(t) => r is Some && r->0@ == t,
            None => r is None,
        },
{
    let parsed = json_parse(body);
    match &parsed {
        Some(JsonValue::Object(fields)) => {
            match get_field(fields, &String::from_str("id")) {
                Some(JsonValue::Array(a)) => {
                    if a.len() > 0 {
                        match &a[0] {
                            JsonValue::Text(t) => Some(String::from_str(t.as_str())),
                            _ => None,
                        }
                    } else {
                        None
                    }
                },
                _ => None,
            }
        },
        _ => None,
    }
}

/// The address a contribution is posted on behalf of: the client's name
/// between the fixed mailbox prefix and domain.
pub fn on_behalf_of(client: &String) -> (r: String)
    ensures
        r@ == "cawa+"@ + client@ + "@carboncrowd.io"@,
{
    let mut s = String::from_str("cawa+");
    s.append(client.as_str());
    s.append("@carboncrowd.io");
    s
}

/// The query address of one contribution.
pub fn contribution_url_by_id(base: &String, contribution_id: &String) -> (r: String)
    ensures
        r@ == base@ + "?id="@ + contribution_id@,
{
    let mut s = String::from_str(base.as_str());
    s.append("?id=");
    s.append(contribution_id.as_str());
    s
}

/// The query address of the contributions of one entity.
pub fn contribution_url_by_entity(base: &String, node_id: &String) -> (r: String)
    ensures
        r@ == base@ + "?entity=cawa%2B"@ + node_id@ + "@carboncrowd.io"@,
{
    let mut s = String::from_str(base.as_str());
    s.append("?entity=cawa%2B");
    s.append(node_id.as_str());
    s.append("@carboncrowd.io");
    s
}

/// The plain mailbox of an entity: its identifier before the fixed domain.
pub fn entity_email(node_id: &String) -> (r: String)
    ensures
        r@ == node_id@ + "@carboncrowd.io"@,
{
    let mut s = String::from_str(node_id.as_str());
    s.append("@carboncrowd.io");
    s
}

/// The request body of an entity registration: the name and mailbox fields,
/// laid out as the wire format fixes them. The texts are inserted as they
/// are; the caller keeps them free of characters that JSON would escape.
pub fn entity_request_body(name: &String, email: &String) -> (r: String)
    ensures
        r@ == "{\"name\":\""@ + name@ + "\",\"email\":\""@ + email@ + "\"}"@,
{
    let mut s = String::from_str("{\"name\":\"");
    s.append(name.as_str());
    s.append("\",\"email\":\"");
    s.append(email.as_str());
    s.append("\"}");
    s
}

/// The request body of a contribution posting: the amount and the four
/// textual fields, laid out as the wire format fixes them. The texts are
/// inserted as they are; the caller keeps them free of characters that JSON
/// would escape.
pub fn contribution_request_body(
    amount: u64,
    behalf: &String,
    unit: &String,
    currency: &String,
    project: &String,
) -> (r: String)
    ensures
        r@ == "{\"amount\":"@ + dec_digits(amount as int) + ",\"on_behalf_of\":\""@ + behalf@
            + "\",\"unit\":\""@ + unit@ + "\",\"currency\":\""@ + currency@ + "\",\"project\":\""@
            + project@ + "\"}"@,
{
    let mut s = String::from_str("{\"amount\":");
    let amount_text = crate::render::u64_to_string(amount);
    s.append(amount_text.as_str());
    s.append(",\"on_behalf_of\":\"");
    s.append(behalf.as_str());
    s.append("\",\"unit\":\"");
    s.append(unit.as_str());
    s.append("\",\"currency\":\"");
    s.append(currency.as_str());
    s.append("\",\"project\":\"");
    s.append(project.as_str());
    s.append("\"}");
    s
}

} // verus!
