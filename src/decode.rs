//! The decoder: JSON text to host values, reading byte-sequence markers back.
use vstd::prelude::*;
use crate::encode::marker_key;
use crate::host::{Error, HostFloat, HostValue, HostView, host_view, host_views, entry_views};
use crate::json::{
    JsonView, Node, key_index, map_entries, map_get, map_members, members_view, parsed_tree,
    value_tree, value_node, value_as_str, number_as_i64, parse_text,
};
use crate::text::{base64_decoded, base64_decode};

verus! {

/// The nesting depth that `deserialize` accepts. serde_json's parser itself
/// refuses documents nested deeper than 128 levels, as malformed JSON.
pub const DECODE_MAX_DEPTH: usize = 128;

/// The payload of the byte-sequence marker, if the members hold the marker
/// key with a string value.
pub open spec fn marker_payload(ms: Seq<(Seq<char>, JsonView)>) -> Option<Seq<char>> {
    match key_index(ms, marker_key()) {
        Some(i) => match ms[i].1 {
            JsonView::Str(s) => Some(s),
            _ => None,
        },
        None => None,
    }
}

/// The host value of a JSON tree, with `budget` levels of containers left.
pub open spec fn decode_spec(t: JsonView, budget: nat) -> Result<HostView, Error>
    decreases budget, 1nat,
{
    match t {
        JsonView::Null => Ok(HostView::Null),
        JsonView::Bool(b) => Ok(HostView::Bool(b)),
        JsonView::Int(i) => Ok(HostView::Int(i)),
        JsonView::Float(n) => Ok(HostView::Float(HostFloat::Finite(n))),
        JsonView::Str(s) => Ok(HostView::Text(s)),
        JsonView::Array(items) => if budget == 0 {
            Err(Error::RecursionLimit)
        } else {
            match decode_items(items, (budget - 1) as nat) {
                Ok(hs) => Ok(HostView::Sequence(hs)),
                Err(e) => Err(e),
            }
        },
        JsonView::Object(ms) => match marker_payload(ms) {
            Some(s) => match base64_decoded(s) {
                Some(b) => Ok(HostView::Bytes(b)),
                None => Err(Error::InvalidBase64),
            },
            None => if budget == 0 {
                Err(Error::RecursionLimit)
            } else {
                match decode_entries(ms, (budget - 1) as nat) {
                    Ok(es) => Ok(HostView::Mapping(es)),
                    Err(e) => Err(e),
                }
            },
        },
    }
}

/// The host values of elements, in order; the first failure is the result.
pub open spec fn decode_items(s: Seq<JsonView>, budget: nat) -> Result<Seq<HostView>, Error>
    decreases budget, s.len() + 2,
{
    if s.len() == 0 {
        Ok(Seq::<HostView>::empty())
    } else {
        match decode_items(s.drop_last(), budget) {
            Err(e) => Err(e),
            Ok(hs) => match decode_spec(s.last(), budget) {
                Err(e) => Err(e),
                Ok(h) => Ok(hs.push(h)),
            },
        }
    }
}

/// The host entries of members, in order; the first failure is the result.
pub open spec fn decode_entries(s: Seq<(Seq<char>, JsonView)>, budget: nat) -> Result<
    Seq<(Seq<char>, HostView)>,
    Error,
>
    decreases budget, s.len() + 2,
{
    if s.len() == 0 {
        Ok(Seq::<(Seq<char>, HostView)>::empty())
    } else {
        match decode_entries(s.drop_last(), budget) {
            Err(e) => Err(e),
            Ok(es) => match decode_spec(s.last().1, budget) {
                Err(e) => Err(e),
                Ok(h) => Ok(es.push((s.last().0, h))),
            },
        }
    }
}

/// Whether a decode call's outcome is the one that `s` gives.
pub open spec fn decoded_as(r: Result<HostValue, Error>, s: Result<HostView, Error>) -> bool {
    match r {
        Ok(h) => s == Ok::<HostView, Error>(h@),
        Err(e) => s == Err::<HostView, Error>(e),
    }
}

proof fn lemma_views_push(s: Seq<HostValue>, x: HostValue)
    ensures
        host_views(s.push(x)) == host_views(s).push(host_view(x)),
{
    assert(s.push(x).drop_last() =~= s);
}

proof fn lemma_entry_views_push(s: Seq<(String, HostValue)>, x: (String, HostValue))
    ensures
        entry_views(s.push(x)) == entry_views(s).push((x.0@, host_view(x.1))),
{
    assert(s.push(x).drop_last() =~= s);
}

proof fn lemma_items_failure(s: Seq<JsonView>, j: int, budget: nat)
    requires
        0 <= j <= s.len(),
        decode_items(s.take(j), budget) is Err,
    ensures
        decode_items(s, budget) == decode_items(s.take(j), budget),
    decreases s.len(),
{
    if j < s.len() {
        assert(s.drop_last().take(j) =~= s.take(j));
        lemma_items_failure(s.drop_last(), j, budget);
    } else {
        assert(s.take(j) =~= s);
    }
}

proof fn lemma_entries_failure(s: Seq<(Seq<char>, JsonView)>, j: int, budget: nat)
    requires
        0 <= j <= s.len(),
        decode_entries(s.take(j), budget) is Err,
    ensures
        decode_entries(s, budget) == decode_entries(s.take(j), budget),
    decreases s.len(),
{
    if j < s.len() {
        assert(s.drop_last().take(j) =~= s.take(j));
        lemma_entries_failure(s.drop_last(), j, budget);
    } else {
        assert(s.take(j) =~= s);
    }
}

/// The host values of an array's elements, in order.
fn decode_elements(items: Vec<serde_json::Value>, budget: usize) -> (r: Result<Vec<HostValue>, Error>)
    requires
        budget > 0,
    ensures
        match r {
            Ok(hs) => decode_items(items@.map_values(|x: serde_json::Value| value_tree(x)), (budget - 1) as nat)
                == Ok::<Seq<HostView>, Error>(host_views(hs@)),
            Err(e) => decode_items(items@.map_values(|x: serde_json::Value| value_tree(x)), (budget - 1) as nat)
                == Err::<Seq<HostView>, Error>(e),
        },
    decreases budget, 0nat,
{
    let ghost ts = items@.map_values(|x: serde_json::Value| value_tree(x));
    let mut out: Vec<HostValue> = Vec::new();
    proof {
        assert(ts.take(0) =~= Seq::<JsonView>::empty());
        assert(host_views(out@) =~= Seq::<HostView>::empty());
    }
    for x in it: items.into_iter()
        invariant
            budget > 0,
            ts == it.seq().map_values(|x: serde_json::Value| value_tree(x)),
            decode_items(ts.take(it.index() as int), (budget - 1) as nat) == Ok::<Seq<HostView>, Error>(
                host_views(out@),
            ),
    {
        let ghost k = it.index() as int;
        let d = decode_value(x, budget - 1);
        proof {
            assert(ts.take(k + 1).drop_last() =~= ts.take(k));
            assert(ts.take(k + 1).last() == value_tree(x));
        }
        match d {
            Ok(h) => {
                proof {
                    lemma_views_push(out@, h);
                }
                out.push(h);
            },
            Err(e) => {
                proof {
                    lemma_items_failure(ts, k + 1, (budget - 1) as nat);
                }
                return Err(e);
            },
        }
    }
    proof {
        assert(ts.take(ts.len() as int) =~= ts);
    }
    Ok(out)
}

/// The host entries of an object's members, in order.
fn decode_members(map: serde_json::Map<String, serde_json::Value>, budget: usize) -> (r: Result<
    Vec<(String, HostValue)>,
    Error,
>)
    requires
        budget > 0,
    ensures
        match r {
            Ok(es) => decode_entries(map_members(map), (budget - 1) as nat) == Ok::<
                Seq<(Seq<char>, HostView)>,
                Error,
            >(entry_views(es@)),
            Err(e) => decode_entries(map_members(map), (budget - 1) as nat) == Err::<
                Seq<(Seq<char>, HostView)>,
                Error,
            >(e),
        },
    decreases budget, 0nat,
{
    let members = map_entries(map);
    let ghost ms = members_view(members@);
    let mut out: Vec<(String, HostValue)> = Vec::new();
    proof {
        assert(ms.take(0) =~= Seq::<(Seq<char>, JsonView)>::empty());
        assert(entry_views(out@) =~= Seq::<(Seq<char>, HostView)>::empty());
    }
    for m in it: members.into_iter()
        invariant
            budget > 0,
            ms == map_members(map),
            ms == members_view(it.seq()),
            decode_entries(ms.take(it.index() as int), (budget - 1) as nat) == Ok::<
                Seq<(Seq<char>, HostView)>,
                Error,
            >(entry_views(out@)),
    {
        let ghost k = it.index() as int;
        let (key, value) = m;
        let ghost tree = value_tree(value);
        let d = decode_value(value, budget - 1);
        proof {
            assert(ms.take(k + 1).drop_last() =~= ms.take(k));
            assert(ms.take(k + 1).last() == (key@, tree));
        }
        match d {
            Ok(h) => {
                proof {
                    lemma_entry_views_push(out@, (key, h));
                }
                out.push((key, h));
            },
            Err(e) => {
                proof {
                    lemma_entries_failure(ms, k + 1, (budget - 1) as nat);
                }
                return Err(e);
            },
        }
    }
    proof {
        assert(ms.take(ms.len() as int) =~= ms);
    }
    Ok(out)
}

/// Decodes a JSON value, with `budget` levels of containers allowed.
pub fn decode_value(v: serde_json::Value, budget: usize) -> (r: Result<HostValue, Error>)
    ensures
        decoded_as(r, decode_spec(value_tree(v), budget as nat)),
    decreases budget, 1nat,
{
    match value_node(v) {
        Node::Null => Ok(HostValue::Null),
        Node::Bool(b) => Ok(HostValue::Bool(b)),
        Node::Number(n) => match number_as_i64(&n) {
            Some(i) => Ok(HostValue::Int(i)),
            None => Ok(HostValue::Float(HostFloat::Finite(n))),
        },
        Node::Str(s) => Ok(HostValue::Text(s)),
        Node::Array(items) => {
            if budget == 0 {
                return Err(Error::RecursionLimit);
            }
            match decode_elements(items, budget) {
                Ok(hs) => Ok(HostValue::Sequence(hs)),
                Err(e) => Err(e),
            }
        },
        Node::Object(map) => {
            let payload = match map_get(&map, "__bytes__") {
                Some(x) => value_as_str(x),
                None => None,
            };
            match payload {
                Some(text) => match base64_decode(text.as_str()) {
                    Some(b) => Ok(HostValue::Bytes(b)),
                    None => Err(Error::InvalidBase64),
                },
                None => {
                    if budget == 0 {
                        return Err(Error::RecursionLimit);
                    }
                    match decode_members(map, budget) {
                        Ok(es) => Ok(HostValue::Mapping(es)),
                        Err(e) => Err(e),
                    }
                },
            }
        },
    }
}

proof fn lemma_decode_not_malformed(t: JsonView, budget: nat)
    ensures
        !(decode_spec(t, budget) matches Err(Error::MalformedJson(_))),
    decreases budget, 1nat,
{
    match t {
        JsonView::Array(items) => if budget > 0 {
            lemma_items_not_malformed(items, (budget - 1) as nat);
        },
        JsonView::Object(ms) => if budget > 0 {
            lemma_entries_not_malformed(ms, (budget - 1) as nat);
        },
        _ => {},
    }
}

proof fn lemma_items_not_malformed(s: Seq<JsonView>, budget: nat)
    ensures
        !(decode_items(s, budget) matches Err(Error::MalformedJson(_))),
    decreases budget, s.len() + 2,
{
    if s.len() > 0 {
        lemma_items_not_malformed(s.drop_last(), budget);
        lemma_decode_not_malformed(s.last(), budget);
    }
}

proof fn lemma_entries_not_malformed(s: Seq<(Seq<char>, JsonView)>, budget: nat)
    ensures
        !(decode_entries(s, budget) matches Err(Error::MalformedJson(_))),
    decreases budget, s.len() + 2,
{
    if s.len() > 0 {
        lemma_entries_not_malformed(s.drop_last(), budget);
        lemma_decode_not_malformed(s.last().1, budget);
    }
}

/// Parses JSON text and decodes it into a host value; text that is not one
/// JSON document fails with `MalformedJson` and the parser's message.
pub fn deserialize(text: &str) -> (r: Result<HostValue, Error>)
    ensures
        parsed_tree(text@) is None <==> r matches Err(Error::MalformedJson(_)),
        parsed_tree(text@) matches Some(t) ==> decoded_as(r, decode_spec(t, DECODE_MAX_DEPTH as nat)),
{
    match parse_text(text) {
        Ok(v) => {
            proof {
                lemma_decode_not_malformed(value_tree(v), DECODE_MAX_DEPTH as nat);
            }
            decode_value(v, DECODE_MAX_DEPTH)
        },
        Err(message) => Err(Error::MalformedJson(message)),
    }
}

} // verus!
