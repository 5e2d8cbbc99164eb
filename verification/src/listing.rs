//! Normalizing the status provider's node-emissions listing into nodes.
//!
//! The listing is a JSON array of records with a `name` text and a
//! `totalEmissions` figure. The schema is strict: a missing field, a wrong
//! type, a malformed figure, or one too large for the machine word is a
//! structural failure of the whole listing, not a silent default.

use vstd::prelude::*;
use crate::cawa::{JsonValue, json_parse, json_parse_of, first_field, get_field};
use crate::decimal::{decimal_units, parse_decimal_units, lemma_decimal_units_nonneg};
use crate::node::{Node, all_wf};
use vstd::string::StringExecFns;

verus! {

/// The name and emission units one listing record stands for, if it has the
/// required shape.
pub open spec fn spec_entry(v: JsonValue) -> Option<(Seq<char>, int)> {
    match v {
        JsonValue::Object(fields) => match first_field(fields@, "name"@) {
            Some(JsonValue::Text(n)) => match first_field(fields@, "totalEmissions"@) {
                Some(JsonValue::Number(repr)) => match decimal_units(repr@) {
                    Some(units) => if units <= u64::MAX {
                        Some((n@, units))
                    } else {
                        None
                    },
                    None => None,
                },
                _ => None,
            },
            _ => None,
        },
        _ => None,
    }
}

/// The entries of a whole listing, in order; any malformed record spoils the
/// whole listing.
pub open spec fn spec_entries(a: Seq<JsonValue>) -> Option<Seq<(Seq<char>, int)>>
    decreases a.len(),
{
    if a.len() == 0 {
        Some(Seq::empty())
    } else {
        match spec_entry(a[0]) {
            None => None,
            Some(e) => match spec_entries(a.drop_first()) {
                None => None,
                Some(rest) => Some(seq![e] + rest),
            },
        }
    }
}

/// What a listing text normalizes to: the entries of its top-level array.
pub open spec fn spec_node_listing(parsed: Option<JsonValue>) -> Option<Seq<(Seq<char>, int)>> {
    match parsed {
        Some(JsonValue::Array(a)) => spec_entries(a@),
        _ => None,
    }
}

proof fn lemma_entries_skip(a: Seq<JsonValue>, i: int)
    requires
        0 <= i <= a.len(),
        forall|k: int| 0 <= k < i ==> (#[trigger] spec_entry(a[k])) is Some,
    ensures
        match spec_entries(a.subrange(i, a.len() as int)) {
            Some(rest) => spec_entries(a) == Some(
                Seq::new(i as nat, |k: int| spec_entry(a[k])->0) + rest,
            ),
            None => spec_entries(a) is None,
        },
    decreases i,
{
    if i == 0 {
        assert(a.subrange(0, a.len() as int) =~= a);
        match spec_entries(a) {
            Some(rest) => {
                assert(Seq::new(0, |k: int| spec_entry(a[k])->0) + rest =~= rest);
            }
            None => {}
        }
    } else {
        lemma_entries_skip(a, i - 1);
        let prev = a.subrange(i - 1, a.len() as int);
        let cur = a.subrange(i, a.len() as int);
        assert(prev[0] == a[i - 1]);
        assert(prev.drop_first() =~= cur);
        assert(spec_entry(a[i - 1]) is Some);
        match spec_entries(cur) {
            Some(rest) => {
                assert(spec_entries(prev) == Some(seq![spec_entry(a[i - 1])->0] + rest));
                assert(Seq::new((i - 1) as nat, |k: int| spec_entry(a[k])->0) + (seq![
                    spec_entry(a[i - 1])->0,
                ] + rest) =~= Seq::new(i as nat, |k: int| spec_entry(a[k])->0) + rest);
            }
            None => {
                assert(spec_entries(prev) is None);
            }
        }
    }
}

/// Normalize one listing record.
fn parse_entry(v: &JsonValue) -> (r: Option<Node>)
    ensures
        match spec_entry(*v) {
            Some(e) => r is Some && r->0.name@ == e.0 && r->0.total_emissions == e.1
                && r->0.offset_emissions == 0,
            None => r is None,
        },
{
    match v {
        JsonValue::Object(fields) => {
            let name = match get_field(fields, &String::from_str("name")) {
                Some(JsonValue::Text(n)) => n,
                _ => {
                    return None;
                },
            };
            let units = match get_field(fields, &String::from_str("totalEmissions")) {
                Some(JsonValue::Number(repr)) => match parse_decimal_units(repr) {
                    Some(u) => {
                        proof {
                            lemma_decimal_units_nonneg(repr@);
                        }
                        u
                    },
                    None => {
                        return None;
                    },
                },
                _ => {
                    return None;
                },
            };
            Some(Node { name: name.clone(), total_emissions: units, offset_emissions: 0 })
        },
        _ => None,
    }
}

/// Normalize the status provider's node-emissions listing: each record
/// becomes a node with its outstanding balance and a zero offset balance.
/// Fails exactly when the text is not a listing of the required shape.
pub fn parse_node_emissions(body: &str) -> (r: Result<Vec<Node>, ()>)
    ensures
        match spec_node_listing(json_parse_of(body@)) {
            Some(entries) => match r {
                Ok(nodes) => nodes@.len() == entries.len() && (forall|i: int|
                    0 <= i < entries.len()
                        ==> (#[trigger] nodes@[i]).name@ == entries[i].0
                            && nodes@[i].total_emissions == entries[i].1
                            && nodes@[i].offset_emissions == 0),
                Err(()) => false,
            },
            None => r is Err,
        },
        r is Ok ==> all_wf(r->Ok_0@),
{
    let parsed = json_parse(body);
    match &parsed {
        Some(JsonValue::Array(a)) => {
            proof {
                assert(json_parse_of(body@) == parsed);
            }
            let mut out: Vec<Node> = Vec::new();
            let mut i: usize = 0;
            while i < a.len()
                invariant
                    spec_node_listing(json_parse_of(body@)) == spec_entries(a@),
                    i <= a@.len(),
                    out@.len() == i,
                    forall|k: int| 0 <= k < i ==> (#[trigger] spec_entry(a@[k])) is Some,
                    forall|k: int| 0 <= k < i ==> (#[trigger] out@[k]).name@ == (spec_entry(
                        a@[k],
                    )->0).0 && out@[k].total_emissions == (spec_entry(a@[k])->0).1
                        && out@[k].offset_emissions == 0,
                decreases a@.len() - i,
            {
                match parse_entry(&a[i]) {
                    Some(node) => {
                        out.push(node);
                    }
                    None => {
                        proof {
                            lemma_entries_skip(a@, i as int);
                            let suffix = a@.subrange(i as int, a@.len() as int);
                            assert(suffix[0] == a@[i as int]);
                            assert(spec_entries(suffix) is None);
                            assert(spec_entries(a@) is None);
                        }
                        return Err(());
                    }
                }
                i = i + 1;
            }
            proof {
                lemma_entries_skip(a@, a@.len() as int);
                let suffix = a@.subrange(a@.len() as int, a@.len() as int);
                assert(suffix.len() == 0);
                assert(spec_entries(suffix) == Some(Seq::<(Seq<char>, int)>::empty()));
                let prefix = Seq::new(a@.len(), |k: int| spec_entry(a@[k])->0);
                assert(prefix + Seq::<(Seq<char>, int)>::empty() =~= prefix);
                assert forall|k: int| 0 <= k < a@.len() implies (#[trigger] out@[k]).wf() by {
                    assert(out@[k].total_emissions + out@[k].offset_emissions <= u64::MAX);
                }
            }
            Ok(out)
        },
        _ => Err(()),
    }
}

} // verus!
