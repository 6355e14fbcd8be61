//! The encoder: host value to JSON tree, and the printed text.
use vstd::prelude::*;
use crate::host::{
    BytesPolicy, CalendarTime, DtPolicy, Error, HostFloat, HostValue, HostView, Opaque,
    OpaquePolicy, Options, Refusal, host_view, host_views, entry_views,
};
use crate::json::{
    JsonView, key_index, map_members, number_view, put_member, value_tree, value_null, value_bool,
    value_int, value_number, value_string, value_array, value_object, map_new, map_insert,
    print_compact,
    print_pretty, compact_text, pretty_text,
};
use crate::decode::{decode_entries, decode_spec, marker_payload};
use crate::text::{
    all_ascii, ascii_chars, base64_of, base64_decoded, utf8_decoded, base64_encode, utf8_decode, is_all_ascii,
};

verus! {

/// The key of the reversible byte-sequence marker.
pub open spec fn marker_key() -> Seq<char> {
    "__bytes__"@
}

/// The key of an opaque value's type name in its descriptive record.
pub open spec fn class_key() -> Seq<char> {
    "__class__"@
}

/// The key of an opaque value's debug string in its descriptive record.
pub open spec fn repr_key() -> Seq<char> {
    "__repr__"@
}

/// The JSON form of a calendar-time value under a `dt` policy.
pub open spec fn calendar_time_json(c: CalendarTime, dt: DtPolicy) -> Result<JsonView, Error> {
    match dt {
        DtPolicy::Raise => Err(Error::UnsupportedType(Refusal::CalendarTime)),
        DtPolicy::Iso => match c.iso {
            Some(s) => Ok(JsonView::Str(s@)),
            None => Err(Error::UnsupportedType(Refusal::NoIsoForm(c.class_name))),
        },
        DtPolicy::Pattern(p) => match c.formatted {
            Some(s) => Ok(JsonView::Str(s@)),
            None => Err(Error::UnsupportedType(Refusal::PatternFailed(p))),
        },
    }
}

/// The JSON form of a byte-sequence under a `bytes` policy.
pub open spec fn bytes_json(b: Seq<u8>, policy: BytesPolicy) -> Result<JsonView, Error> {
    match policy {
        BytesPolicy::Raise => Err(Error::UnsupportedType(Refusal::Bytes)),
        BytesPolicy::Utf8 => match utf8_decoded(b) {
            Some(s) => Ok(JsonView::Str(s)),
            None => Err(Error::UnsupportedValue(Refusal::InvalidUtf8)),
        },
        BytesPolicy::Ascii => if all_ascii(b) {
            Ok(JsonView::Str(ascii_chars(b)))
        } else {
            Err(Error::UnsupportedValue(Refusal::NonAscii))
        },
        BytesPolicy::Base64 => Ok(JsonView::Str(base64_of(b))),
        BytesPolicy::Marker => Ok(JsonView::Object(seq![(marker_key(), JsonView::Str(base64_of(b)))])),
        BytesPolicy::Unknown(e) => Err(Error::UnsupportedValue(Refusal::UnknownEncoding(e))),
    }
}

/// The JSON form of an opaque value under an `on_opaque` policy.
pub open spec fn opaque_json(x: Opaque, policy: OpaquePolicy) -> Result<JsonView, Error> {
    match policy {
        OpaquePolicy::Degrade => Ok(JsonView::Object(seq![
            (class_key(), JsonView::Str(x.class_name@)),
            (repr_key(), JsonView::Str(x.repr@)),
        ])),
        OpaquePolicy::Strict => Err(Error::UnsupportedType(Refusal::Opaque(x.class_name))),
    }
}

/// The object that members written in order make: the last write of a key wins.
pub open spec fn merge_members(ms: Seq<(Seq<char>, JsonView)>) -> Seq<(Seq<char>, JsonView)>
    decreases ms.len(),
{
    if ms.len() == 0 {
        Seq::empty()
    } else {
        put_member(merge_members(ms.drop_last()), ms.last())
    }
}

/// The JSON tree of a host value under the options, with `budget` levels of
/// containers left; the first failure in document order is the result.
pub open spec fn encode_spec(v: HostView, o: Options, budget: nat) -> Result<JsonView, Error>
    decreases budget, 1nat,
{
    match v {
        HostView::Null => Ok(JsonView::Null),
        HostView::Bool(b) => Ok(JsonView::Bool(b)),
        HostView::Int(i) => Ok(JsonView::Int(i)),
        HostView::Float(HostFloat::Finite(n)) => Ok(number_view(n)),
        HostView::Float(HostFloat::NonFinite) => Err(Error::UnsupportedValue(Refusal::NonFiniteFloat)),
        HostView::Text(s) => Ok(JsonView::Str(s)),
        HostView::CalendarTime(c) => calendar_time_json(c, o.dt),
        HostView::Bytes(b) => bytes_json(b, o.bytes),
        HostView::Sequence(items) => encode_array(items, o, budget),
        HostView::Tuple(items) => encode_array(items, o, budget),
        HostView::Unordered(items) => encode_array(items, o, budget),
        HostView::Mapping(entries) => if budget == 0 {
            Err(Error::RecursionLimit)
        } else {
            match encode_entries(entries, o, (budget - 1) as nat) {
                Ok(ms) => Ok(JsonView::Object(merge_members(ms))),
                Err(e) => Err(e),
            }
        },
        HostView::Opaque(x) => opaque_json(x, o.opaque),
    }
}

/// The JSON array of a container's elements.
pub open spec fn encode_array(items: Seq<HostView>, o: Options, budget: nat) -> Result<JsonView, Error>
    decreases budget, 0nat,
{
    if budget == 0 {
        Err(Error::RecursionLimit)
    } else {
        match encode_items(items, o, (budget - 1) as nat) {
            Ok(ts) => Ok(JsonView::Array(ts)),
            Err(e) => Err(e),
        }
    }
}

/// The JSON trees of elements, in order.
pub open spec fn encode_items(s: Seq<HostView>, o: Options, budget: nat) -> Result<Seq<JsonView>, Error>
    decreases budget, s.len() + 2,
{
    if s.len() == 0 {
        Ok(Seq::empty())
    } else {
        match encode_items(s.drop_last(), o, budget) {
            Err(e) => Err(e),
            Ok(ts) => match encode_spec(s.last(), o, budget) {
                Err(e) => Err(e),
                Ok(t) => Ok(ts.push(t)),
            },
        }
    }
}

/// The JSON members of a mapping's entries, in order, before merging.
pub open spec fn encode_entries(s: Seq<(Seq<char>, HostView)>, o: Options, budget: nat) -> Result<
    Seq<(Seq<char>, JsonView)>,
    Error,
>
    decreases budget, s.len() + 2,
{
    if s.len() == 0 {
        Ok(Seq::<(Seq<char>, JsonView)>::empty())
    } else {
        match encode_entries(s.drop_last(), o, budget) {
            Err(e) => Err(e),
            Ok(ms) => match encode_spec(s.last().1, o, budget) {
                Err(e) => Err(e),
                Ok(t) => Ok(ms.push((s.last().0, t))),
            },
        }
    }
}

/// Whether an encode call's outcome is the one that `s` gives.
pub open spec fn encoded_as(r: Result<serde_json::Value, Error>, s: Result<JsonView, Error>) -> bool {
    match r {
        Ok(x) => s == Ok::<JsonView, Error>(value_tree(x)),
        Err(e) => s == Err::<JsonView, Error>(e),
    }
}

proof fn lemma_host_views(s: Seq<HostValue>)
    ensures
        host_views(s).len() == s.len(),
        forall|i: int| 0 <= i < s.len() ==> #[trigger] host_views(s)[i] == host_view(s[i]),
    decreases s.len(),
{
    if s.len() > 0 {
        lemma_host_views(s.drop_last());
    }
}

proof fn lemma_entry_views(s: Seq<(String, HostValue)>)
    ensures
        entry_views(s).len() == s.len(),
        forall|i: int| 0 <= i < s.len() ==> #[trigger] entry_views(s)[i] == (s[i].0@, host_view(s[i].1)),
    decreases s.len(),
{
    if s.len() > 0 {
        lemma_entry_views(s.drop_last());
    }
}

proof fn lemma_items_failure(s: Seq<HostView>, j: int, o: Options, budget: nat)
    requires
        0 <= j <= s.len(),
        encode_items(s.take(j), o, budget) is Err,
    ensures
        encode_items(s, o, budget) == encode_items(s.take(j), o, budget),
    decreases s.len(),
{
    if j < s.len() {
        assert(s.drop_last().take(j) =~= s.take(j));
        lemma_items_failure(s.drop_last(), j, o, budget);
    } else {
        assert(s.take(j) =~= s);
    }
}

proof fn lemma_entries_failure(s: Seq<(Seq<char>, HostView)>, j: int, o: Options, budget: nat)
    requires
        0 <= j <= s.len(),
        encode_entries(s.take(j), o, budget) is Err,
    ensures
        encode_entries(s, o, budget) == encode_entries(s.take(j), o, budget),
    decreases s.len(),
{
    if j < s.len() {
        assert(s.drop_last().take(j) =~= s.take(j));
        lemma_entries_failure(s.drop_last(), j, o, budget);
    } else {
        assert(s.take(j) =~= s);
    }
}

/// The elements of a container as JSON values, in order.
fn encode_elements(items: &Vec<HostValue>, o: &Options, budget: usize) -> (r: Result<
    Vec<serde_json::Value>,
    Error,
>)
    requires
        budget > 0,
    ensures
        match r {
            Ok(xs) => encode_items(host_views(items@), *o, (budget - 1) as nat) == Ok::<
                Seq<JsonView>,
                Error,
            >(xs@.map_values(|x: serde_json::Value| value_tree(x))),
            Err(e) => encode_items(host_views(items@), *o, (budget - 1) as nat) == Err::<
                Seq<JsonView>,
                Error,
            >(e),
        },
    decreases budget, 0nat,
{
    let ghost hv = host_views(items@);
    proof {
        lemma_host_views(items@);
    }
    let mut out: Vec<serde_json::Value> = Vec::new();
    let mut i: usize = 0;
    proof {
        assert(hv.take(0) =~= Seq::<HostView>::empty());
        assert(out@.map_values(|x: serde_json::Value| value_tree(x)) =~= Seq::<JsonView>::empty());
    }
    while i < items.len()
        invariant
            0 <= i <= items@.len(),
            budget > 0,
            hv == host_views(items@),
            hv.len() == items@.len(),
            forall|k: int| 0 <= k < items@.len() ==> #[trigger] hv[k] == host_view(items@[k]),
            encode_items(hv.take(i as int), *o, (budget - 1) as nat) == Ok::<Seq<JsonView>, Error>(
                out@.map_values(|x: serde_json::Value| value_tree(x)),
            ),
        decreases items@.len() - i,
    {
        let x = encode_value(&items[i], o, budget - 1);
        proof {
            assert(hv.take(i + 1).drop_last() =~= hv.take(i as int));
            assert(hv.take(i + 1).last() == items@[i as int]@);
        }
        match x {
            Ok(val) => {
                let ghost prev = out@.map_values(|x: serde_json::Value| value_tree(x));
                out.push(val);
                proof {
                    assert(out@.map_values(|x: serde_json::Value| value_tree(x)) =~= prev.push(
                        value_tree(val),
                    ));
                }
            },
            Err(e) => {
                proof {
                    lemma_items_failure(hv, i + 1, *o, (budget - 1) as nat);
                }
                return Err(e);
            },
        }
        i = i + 1;
    }
    proof {
        assert(hv.take(i as int) =~= hv);
    }
    Ok(out)
}

/// The members of a mapping written into a JSON object in order.
fn encode_members(entries: &Vec<(String, HostValue)>, o: &Options, budget: usize) -> (r: Result<
    serde_json::Map<String, serde_json::Value>,
    Error,
>)
    requires
        budget > 0,
    ensures
        match r {
            Ok(m) => exists|em: Seq<(Seq<char>, JsonView)>|
                encode_entries(entry_views(entries@), *o, (budget - 1) as nat) == Ok::<
                    Seq<(Seq<char>, JsonView)>,
                    Error,
                >(em) && merge_members(em) == map_members(m),
            Err(e) => encode_entries(entry_views(entries@), *o, (budget - 1) as nat) == Err::<
                Seq<(Seq<char>, JsonView)>,
                Error,
            >(e),
        },
    decreases budget, 0nat,
{
    let ghost ev = entry_views(entries@);
    proof {
        lemma_entry_views(entries@);
    }
    let ghost mut em: Seq<(Seq<char>, JsonView)> = Seq::empty();
    let mut out = map_new();
    let mut i: usize = 0;
    proof {
        assert(ev.take(0) =~= Seq::<(Seq<char>, HostView)>::empty());
    }
    while i < entries.len()
        invariant
            0 <= i <= entries@.len(),
            budget > 0,
            ev == entry_views(entries@),
            ev.len() == entries@.len(),
            forall|k: int| 0 <= k < entries@.len() ==> #[trigger] ev[k] == (entries@[k].0@, host_view(entries@[k].1)),
            encode_entries(ev.take(i as int), *o, (budget - 1) as nat) == Ok::<
                Seq<(Seq<char>, JsonView)>,
                Error,
            >(em),
            merge_members(em) == map_members(out),
        decreases entries@.len() - i,
    {
        let x = encode_value(&entries[i].1, o, budget - 1);
        proof {
            assert(ev.take(i + 1).drop_last() =~= ev.take(i as int));
            assert(ev.take(i + 1).last() == ev[i as int]);
        }
        match x {
            Ok(val) => {
                proof {
                    let em0 = em;
                    em = em.push((entries@[i as int].0@, value_tree(val)));
                    assert(em.drop_last() =~= em0);
                }
                map_insert(&mut out, entries[i].0.clone(), val);
            },
            Err(e) => {
                proof {
                    lemma_entries_failure(ev, i + 1, *o, (budget - 1) as nat);
                }
                return Err(e);
            },
        }
        i = i + 1;
    }
    proof {
        assert(ev.take(i as int) =~= ev);
    }
    Ok(out)
}

/// Encodes a host value as a JSON tree, with `budget` levels of containers
/// allowed.
pub fn encode_value(v: &HostValue, o: &Options, budget: usize) -> (r: Result<serde_json::Value, Error>)
    ensures
        encoded_as(r, encode_spec(v@, *o, budget as nat)),
        v@ is Bytes && o.bytes is Marker ==> (r matches Ok(x) && decode_spec(
            value_tree(x),
            budget as nat,
        ) == Ok::<HostView, Error>(v@)),
        v@ is Bytes && o.bytes is Base64 ==> (r matches Ok(x) && decode_spec(
            value_tree(x),
            budget as nat,
        ) == Ok::<HostView, Error>(HostView::Text(base64_of(v@->Bytes_0)))),
    decreases budget, 1nat,
{
    proof {
        if let HostView::Bytes(b) = v@ {
            let ms = seq![(marker_key(), JsonView::Str(base64_of(b)))];
            assert(ms[0].0 == marker_key());
            assert(key_index(ms, marker_key()) == Some(0int));
        }
    }
    match v {
        HostValue::Null => Ok(value_null()),
        HostValue::Bool(b) => Ok(value_bool(*b)),
        HostValue::Int(i) => Ok(value_int(*i)),
        HostValue::Float(HostFloat::Finite(n)) => Ok(value_number(n)),
        HostValue::Float(HostFloat::NonFinite) => Err(Error::UnsupportedValue(Refusal::NonFiniteFloat)),
        HostValue::Text(s) => Ok(value_string(s.clone())),
        HostValue::CalendarTime(c) => encode_calendar_time(c, &o.dt),
        HostValue::Bytes(b) => encode_bytes(b, &o.bytes),
        HostValue::Sequence(items) | HostValue::Tuple(items) | HostValue::Unordered(items) => {
            if budget == 0 {
                return Err(Error::RecursionLimit);
            }
            match encode_elements(items, o, budget) {
                Ok(xs) => Ok(value_array(xs)),
                Err(e) => Err(e),
            }
        },
        HostValue::Mapping(entries) => {
            if budget == 0 {
                return Err(Error::RecursionLimit);
            }
            match encode_members(entries, o, budget) {
                Ok(m) => Ok(value_object(m)),
                Err(e) => Err(e),
            }
        },
        HostValue::Opaque(x) => encode_opaque(x, &o.opaque),
    }
}

/// Encodes a calendar-time value under a `dt` policy.
fn encode_calendar_time(c: &CalendarTime, dt: &DtPolicy) -> (r: Result<serde_json::Value, Error>)
    ensures
        encoded_as(r, calendar_time_json(*c, *dt)),
{
    match dt {
        DtPolicy::Raise => Err(Error::UnsupportedType(Refusal::CalendarTime)),
        DtPolicy::Iso => match &c.iso {
            Some(s) => Ok(value_string(s.clone())),
            None => Err(Error::UnsupportedType(Refusal::NoIsoForm(c.class_name.clone()))),
        },
        DtPolicy::Pattern(p) => match &c.formatted {
            Some(s) => Ok(value_string(s.clone())),
            None => Err(Error::UnsupportedType(Refusal::PatternFailed(p.clone()))),
        },
    }
}

/// Encodes a byte-sequence under a `bytes` policy.
fn encode_bytes(b: &Vec<u8>, policy: &BytesPolicy) -> (r: Result<serde_json::Value, Error>)
    ensures
        encoded_as(r, bytes_json(b@, *policy)),
        *policy is Marker ==> base64_decoded(base64_of(b@)) == Some(b@),
{
    match policy {
        BytesPolicy::Raise => Err(Error::UnsupportedType(Refusal::Bytes)),
        BytesPolicy::Utf8 => match utf8_decode(b.as_slice()) {
            Some(s) => Ok(value_string(s)),
            None => Err(Error::UnsupportedValue(Refusal::InvalidUtf8)),
        },
        BytesPolicy::Ascii => {
            if is_all_ascii(b.as_slice()) {
                match utf8_decode(b.as_slice()) {
                    Some(s) => Ok(value_string(s)),
                    None => Err(Error::UnsupportedValue(Refusal::NonAscii)),
                }
            } else {
                Err(Error::UnsupportedValue(Refusal::NonAscii))
            }
        },
        BytesPolicy::Base64 => Ok(value_string(base64_encode(b.as_slice()))),
        BytesPolicy::Marker => {
            let payload = value_string(base64_encode(b.as_slice()));
            let mut members = map_new();
            map_insert(&mut members, "__bytes__".to_string(), payload);
            proof {
                assert(map_members(members) =~= seq![(marker_key(), JsonView::Str(base64_of(b@)))]);
            }
            Ok(value_object(members))
        },
        BytesPolicy::Unknown(e) => Err(Error::UnsupportedValue(Refusal::UnknownEncoding(e.clone()))),
    }
}

/// Encodes a value with no recognised capability under an `on_opaque` policy.
fn encode_opaque(x: &Opaque, policy: &OpaquePolicy) -> (r: Result<serde_json::Value, Error>)
    ensures
        encoded_as(r, opaque_json(*x, *policy)),
{
    match policy {
        OpaquePolicy::Degrade => {
            let class = value_string(x.class_name.clone());
            let repr = value_string(x.repr.clone());
            let mut members = map_new();
            map_insert(&mut members, "__class__".to_string(), class);
            let ghost first = map_members(members);
            proof {
                assert(first =~= seq![(class_key(), JsonView::Str(x.class_name@))]);
                reveal_strlit("__class__");
                reveal_strlit("__repr__");
                assert("__class__"@[2] != "__repr__"@[2]);
                assert(first[0].0 != repr_key());
                assert(key_index(first, repr_key()) is None);
            }
            map_insert(&mut members, "__repr__".to_string(), repr);
            proof {
                assert(map_members(members) =~= seq![
                    (class_key(), JsonView::Str(x.class_name@)),
                    (repr_key(), JsonView::Str(x.repr@)),
                ]);
            }
            Ok(value_object(members))
        },
        OpaquePolicy::Strict => Err(Error::UnsupportedType(Refusal::Opaque(x.class_name.clone()))),
    }
}

/// The text of a tree: pretty with `n` spaces per level for `Some(n)` with
/// `n > 0`, compact otherwise.
pub open spec fn rendered(t: JsonView, indent: Option<usize>) -> Seq<char> {
    if indent matches Some(n) && n > 0 {
        pretty_text(t, indent->0 as nat)
    } else {
        compact_text(t)
    }
}

/// Encodes a host value under the options and prints it as JSON text; it
/// fails exactly when encoding fails, with the encoder's error.
pub fn serialize(v: &HostValue, o: &Options) -> (r: Result<String, Error>)
    ensures
        encode_spec(v@, *o, o.max_depth as nat) matches Err(e) ==> r == Err::<String, Error>(e),
        encode_spec(v@, *o, o.max_depth as nat) matches Ok(t) ==> (r matches Ok(s) && s@ == rendered(
            t,
            o.indent,
        )),
{
    let tree = match encode_value(v, o, o.max_depth) {
        Ok(x) => x,
        Err(e) => return Err(e),
    };
    let printed = match o.indent {
        Some(n) => if n > 0 {
            print_pretty(&tree, n)
        } else {
            print_compact(&tree)
        },
        None => print_compact(&tree),
    };
    Ok(printed.unwrap())
}

/// Byte-sequence policies: `raise` refuses every byte-sequence as an
/// unsupported type; `ascii` refuses one with a non-ASCII byte and `utf-8`
/// one that is not valid UTF-8, as unsupported values; `base64` always
/// succeeds with the base64 text.
pub proof fn lemma_bytes_policies(b: Seq<u8>, o: Options, budget: nat)
    ensures
        o.bytes is Raise ==> encode_spec(HostView::Bytes(b), o, budget) == Err::<JsonView, Error>(
            Error::UnsupportedType(Refusal::Bytes),
        ),
        o.bytes is Ascii && !all_ascii(b) ==> encode_spec(HostView::Bytes(b), o, budget) == Err::<
            JsonView,
            Error,
        >(Error::UnsupportedValue(Refusal::NonAscii)),
        o.bytes is Utf8 && utf8_decoded(b) is None ==> encode_spec(HostView::Bytes(b), o, budget)
            == Err::<JsonView, Error>(Error::UnsupportedValue(Refusal::InvalidUtf8)),
        o.bytes is Base64 ==> encode_spec(HostView::Bytes(b), o, budget) == Ok::<JsonView, Error>(
            JsonView::Str(base64_of(b)),
        ),
{
}

/// Calendar-time policies: `iso` gives the value's ISO-8601 form as a string,
/// `raise` refuses it as an unsupported type, and a custom pattern gives the
/// value's form under that pattern.
pub proof fn lemma_calendar_time_policies(c: CalendarTime, o: Options, budget: nat)
    ensures
        o.dt is Iso && c.iso is Some ==> encode_spec(HostView::CalendarTime(c), o, budget) == Ok::<
            JsonView,
            Error,
        >(JsonView::Str(c.iso->0@)),
        o.dt is Raise ==> encode_spec(HostView::CalendarTime(c), o, budget) == Err::<JsonView, Error>(
            Error::UnsupportedType(Refusal::CalendarTime),
        ),
        o.dt is Pattern && c.formatted is Some ==> encode_spec(HostView::CalendarTime(c), o, budget)
            == Ok::<JsonView, Error>(JsonView::Str(c.formatted->0@)),
{
}

/// In degrade mode an opaque value becomes the record of its type name and
/// debug string, and decoding that record gives a plain mapping of the two
/// texts, not the original value.
pub proof fn lemma_opaque_degrades(x: Opaque, o: Options, budget: nat)
    requires
        o.opaque is Degrade,
        budget > 0,
    ensures
        encode_spec(HostView::Opaque(x), o, budget) == Ok::<JsonView, Error>(JsonView::Object(seq![
            (class_key(), JsonView::Str(x.class_name@)),
            (repr_key(), JsonView::Str(x.repr@)),
        ])),
        decode_spec(encode_spec(HostView::Opaque(x), o, budget)->Ok_0, budget) == Ok::<HostView, Error>(
            HostView::Mapping(seq![
                (class_key(), HostView::Text(x.class_name@)),
                (repr_key(), HostView::Text(x.repr@)),
            ]),
        ),
{
    let ms = seq![(class_key(), JsonView::Str(x.class_name@)), (repr_key(), JsonView::Str(x.repr@))];
    reveal_strlit("__class__");
    reveal_strlit("__repr__");
    reveal_strlit("__bytes__");
    assert(ms[0].0[2] != marker_key()[2]);
    assert(ms[1].0[2] != marker_key()[2]);
    assert(key_index(ms, marker_key()) is None);
    let m1 = ms.drop_last();
    assert(m1 =~= seq![(class_key(), JsonView::Str(x.class_name@))]);
    assert(m1.drop_last() =~= Seq::<(Seq<char>, JsonView)>::empty());
    let es = seq![(class_key(), HostView::Text(x.class_name@))];
    assert(Seq::<(Seq<char>, HostView)>::empty().push((class_key(), HostView::Text(x.class_name@)))
        =~= es);
    assert(decode_entries(m1.drop_last(), (budget - 1) as nat) == Ok::<
        Seq<(Seq<char>, HostView)>,
        Error,
    >(Seq::<(Seq<char>, HostView)>::empty()));
    assert(m1.last() == (class_key(), JsonView::Str(x.class_name@)));
    assert(decode_spec(m1.last().1, (budget - 1) as nat) == Ok::<HostView, Error>(
        HostView::Text(x.class_name@),
    ));
    assert(decode_entries(m1, (budget - 1) as nat) == Ok::<Seq<(Seq<char>, HostView)>, Error>(es));
    assert(ms.last() == (repr_key(), JsonView::Str(x.repr@)));
    assert(decode_spec(ms.last().1, (budget - 1) as nat) == Ok::<HostView, Error>(
        HostView::Text(x.repr@),
    ));
    assert(marker_payload(ms) is None);
    assert(encode_spec(HostView::Opaque(x), o, budget) == Ok::<JsonView, Error>(JsonView::Object(ms)));
    assert(es.push((repr_key(), HostView::Text(x.repr@))) =~= seq![
        (class_key(), HostView::Text(x.class_name@)),
        (repr_key(), HostView::Text(x.repr@)),
    ]);
}

} // verus!
