//! What survives an encode followed by a decode.
use vstd::prelude::*;
use crate::decode::{decode_entries, decode_items, decode_spec, marker_payload};
use crate::encode::{
    encode_entries, encode_items, encode_spec, marker_key, merge_members,
};
use crate::host::{Error, HostFloat, HostView, Options};
use crate::json::{JsonView, key_index, keys_distinct, number_int, put_member};

verus! {

/// A value made only of null, booleans, 64-bit integers, finite floats that
/// are not integers, texts, sequences and text-keyed mappings, whose keys are
/// distinct and which do not hold a text under the byte-sequence marker key.
pub open spec fn json_native(v: HostView) -> bool
    decreases v,
{
    match v {
        HostView::Null => true,
        HostView::Bool(_) => true,
        HostView::Int(_) => true,
        HostView::Float(HostFloat::Finite(n)) => number_int(n) is None,
        HostView::Text(_) => true,
        HostView::Sequence(items) => forall|i: int| 0 <= i < items.len() ==> json_native(#[trigger] items[i]),
        HostView::Mapping(es) => keys_distinct(es) && forall|i: int|
            0 <= i < es.len() ==> json_native(#[trigger] es[i].1) && !(es[i].0 == marker_key()
                && es[i].1 is Text),
        _ => false,
    }
}

/// For every JSON-native value, encoding under any options either fails for
/// want of nesting depth or gives a tree that decodes, with the same depth,
/// back to the value itself.
pub proof fn lemma_json_native_round_trip(v: HostView, o: Options, budget: nat)
    requires
        json_native(v),
    ensures
        match encode_spec(v, o, budget) {
            Ok(t) => decode_spec(t, budget) == Ok::<HostView, Error>(v) && (!(v is Text) ==> !(t is Str)),
            Err(e) => e == Error::RecursionLimit,
        },
    decreases budget, 1nat,
{
    match v {
        HostView::Sequence(items) => if budget > 0 {
            lemma_items_round_trip(items, o, (budget - 1) as nat);
        },
        HostView::Mapping(es) => if budget > 0 {
            lemma_entries_round_trip(es, o, (budget - 1) as nat);
            if let Ok(ms) = encode_entries(es, o, (budget - 1) as nat) {
                lemma_merge_distinct(ms);
                if let Some(i) = key_index(ms, marker_key()) {
                    assert(ms[i].0 == marker_key());
                }
                assert(marker_payload(ms) is None);
            }
        },
        _ => {},
    }
}

proof fn lemma_items_round_trip(s: Seq<HostView>, o: Options, budget: nat)
    requires
        forall|i: int| 0 <= i < s.len() ==> json_native(#[trigger] s[i]),
    ensures
        match encode_items(s, o, budget) {
            Ok(ts) => decode_items(ts, budget) == Ok::<Seq<HostView>, Error>(s),
            Err(e) => e == Error::RecursionLimit,
        },
    decreases budget, s.len() + 2,
{
    if s.len() > 0 {
        let p = s.drop_last();
        assert forall|i: int| 0 <= i < p.len() implies json_native(#[trigger] p[i]) by {
            assert(p[i] == s[i]);
        }
        lemma_items_round_trip(p, o, budget);
        lemma_json_native_round_trip(s.last(), o, budget);
        if let Ok(ts) = encode_items(s, o, budget) {
            let ts0 = encode_items(p, o, budget)->Ok_0;
            let t = encode_spec(s.last(), o, budget)->Ok_0;
            assert(ts == ts0.push(t));
            assert(ts.drop_last() =~= ts0);
            assert(ts.last() == t);
            assert(decode_items(ts0, budget) == Ok::<Seq<HostView>, Error>(p));
            assert(decode_spec(t, budget) == Ok::<HostView, Error>(s.last()));
            assert(p.push(s.last()) =~= s);
        }
    } else {
        assert(s =~= Seq::<HostView>::empty());
    }
}

proof fn lemma_entries_round_trip(s: Seq<(Seq<char>, HostView)>, o: Options, budget: nat)
    requires
        keys_distinct(s),
        forall|i: int|
            0 <= i < s.len() ==> json_native(#[trigger] s[i].1) && !(s[i].0 == marker_key()
                && s[i].1 is Text),
    ensures
        match encode_entries(s, o, budget) {
            Ok(ms) => decode_entries(ms, budget) == Ok::<Seq<(Seq<char>, HostView)>, Error>(s)
                && ms.len() == s.len() && keys_distinct(ms) && (forall|i: int|
                0 <= i < ms.len() ==> #[trigger] ms[i].0 == s[i].0) && (forall|i: int|
                0 <= i < ms.len() ==> !(ms[i].0 == marker_key() && #[trigger] ms[i].1 is Str)),
            Err(e) => e == Error::RecursionLimit,
        },
    decreases budget, s.len() + 2,
{
    if s.len() > 0 {
        let p = s.drop_last();
        assert forall|i: int| 0 <= i < p.len() implies json_native(#[trigger] p[i].1) && !(p[i].0
            == marker_key() && p[i].1 is Text) by {
            assert(p[i] == s[i]);
        }
        lemma_entries_round_trip(p, o, budget);
        lemma_json_native_round_trip(s.last().1, o, budget);
        if let Ok(ms) = encode_entries(s, o, budget) {
            let ms0 = encode_entries(p, o, budget)->Ok_0;
            assert(ms.drop_last() =~= ms0);
            assert(p.push(s.last()) =~= s);
            assert(ms[ms.len() - 1].0 == s[s.len() - 1].0);
            assert forall|i: int| 0 <= i < ms.len() implies #[trigger] ms[i].0 == s[i].0 by {
                if i < ms.len() - 1 {
                    assert(ms[i] == ms0[i]);
                    assert(s[i] == p[i]);
                }
            }
            assert forall|i: int| 0 <= i < ms.len() implies !(ms[i].0 == marker_key()
                && #[trigger] ms[i].1 is Str) by {
                if i < ms.len() - 1 {
                    assert(ms[i] == ms0[i]);
                    assert(s[i] == p[i]);
                }
            }
            assert(keys_distinct(ms));
            assert(ms.last() == (s.last().0, encode_spec(s.last().1, o, budget)->Ok_0));
            assert(decode_entries(ms0, budget) == Ok::<Seq<(Seq<char>, HostView)>, Error>(p));
        }
    } else {
        assert(s =~= Seq::<(Seq<char>, HostView)>::empty());
    }
}

proof fn lemma_merge_distinct(ms: Seq<(Seq<char>, JsonView)>)
    requires
        keys_distinct(ms),
    ensures
        merge_members(ms) == ms,
    decreases ms.len(),
{
    if ms.len() > 0 {
        let p = ms.drop_last();
        lemma_merge_distinct(p);
        assert(!(exists|i: int| 0 <= i < p.len() && p[i].0 == ms.last().0));
        assert(put_member(p, ms.last()) =~= ms);
    }
}

/// Container kind is not kept: a tuple of JSON-native values encodes to an
/// array, and the array decodes to a sequence of the same elements.
pub proof fn lemma_tuple_decodes_as_sequence(items: Seq<HostView>, o: Options, budget: nat)
    requires
        forall|i: int| 0 <= i < items.len() ==> json_native(#[trigger] items[i]),
    ensures
        match encode_spec(HostView::Tuple(items), o, budget) {
            Ok(t) => decode_spec(t, budget) == Ok::<HostView, Error>(HostView::Sequence(items)),
            Err(e) => e == Error::RecursionLimit,
        },
{
    if budget > 0 {
        lemma_items_round_trip(items, o, (budget - 1) as nat);
    }
}

} // verus!
