//! Host values as the host integration classifies them, the policies that
//! govern their encoding, and the errors of both directions.
use vstd::prelude::*;
use crate::text::same_text;

verus! {

/// A host floating-point number: a finite one is carried as the JSON number
/// that stands for it; NaN and the infinities have no JSON form.
#[derive(Debug, PartialEq)]
pub enum HostFloat {
    Finite(serde_json::Number),
    NonFinite,
}

/// A host value with calendar-time capability, as the host renders it: its
/// ISO-8601 form and its form under the custom pattern of the `dt` policy in
/// use, each absent where the host could not produce it.
#[derive(Debug, PartialEq)]
pub struct CalendarTime {
    pub class_name: String,
    pub iso: Option<String>,
    pub formatted: Option<String>,
}

/// A host value with none of the recognised capabilities: its runtime type
/// name and its debug string.
#[derive(Debug, PartialEq)]
pub struct Opaque {
    pub class_name: String,
    pub repr: String,
}

/// A host value, classified once by capability. The order of the variants is
/// the order in which the capabilities are tried.
#[derive(Debug, PartialEq)]
pub enum HostValue {
    Null,
    Bool(bool),
    Int(i64),
    Float(HostFloat),
    Text(String),
    CalendarTime(CalendarTime),
    Bytes(Vec<u8>),
    Sequence(Vec<HostValue>),
    Tuple(Vec<HostValue>),
    Unordered(Vec<HostValue>),
    Mapping(Vec<(String, HostValue)>),
    Opaque(Opaque),
}

/// The model of a host value: texts and byte-sequences as sequences.
pub ghost enum HostView {
    Null,
    Bool(bool),
    Int(i64),
    Float(HostFloat),
    Text(Seq<char>),
    CalendarTime(CalendarTime),
    Bytes(Seq<u8>),
    Sequence(Seq<HostView>),
    Tuple(Seq<HostView>),
    Unordered(Seq<HostView>),
    Mapping(Seq<(Seq<char>, HostView)>),
    Opaque(Opaque),
}

pub open spec fn host_view(v: HostValue) -> HostView
    decreases v,
{
    match v {
        HostValue::Null => HostView::Null,
        HostValue::Bool(b) => HostView::Bool(b),
        HostValue::Int(i) => HostView::Int(i),
        HostValue::Float(f) => HostView::Float(f),
        HostValue::Text(s) => HostView::Text(s@),
        HostValue::CalendarTime(c) => HostView::CalendarTime(c),
        HostValue::Bytes(b) => HostView::Bytes(b@),
        HostValue::Sequence(items) => HostView::Sequence(host_views(items@)),
        HostValue::Tuple(items) => HostView::Tuple(host_views(items@)),
        HostValue::Unordered(items) => HostView::Unordered(host_views(items@)),
        HostValue::Mapping(entries) => HostView::Mapping(entry_views(entries@)),
        HostValue::Opaque(o) => HostView::Opaque(o),
    }
}

pub open spec fn host_views(s: Seq<HostValue>) -> Seq<HostView>
    decreases s,
{
    if s.len() == 0 {
        Seq::empty()
    } else {
        host_views(s.drop_last()).push(host_view(s.last()))
    }
}

pub open spec fn entry_views(s: Seq<(String, HostValue)>) -> Seq<(Seq<char>, HostView)>
    decreases s,
{
    if s.len() == 0 {
        Seq::empty()
    } else {
        entry_views(s.drop_last()).push((s.last().0@, host_view(s.last().1)))
    }
}

impl View for HostValue {
    type V = HostView;

    open spec fn view(&self) -> HostView {
        host_view(*self)
    }
}

/// How calendar-time values are encoded.
#[derive(Debug, PartialEq)]
pub enum DtPolicy {
    /// Refuse them.
    Raise,
    /// Their ISO-8601 form.
    Iso,
    /// Their form under a custom strftime-like pattern.
    Pattern(String),
}

/// How byte-sequences are encoded.
#[derive(Debug, PartialEq)]
pub enum BytesPolicy {
    /// Refuse them.
    Raise,
    /// As the text that the bytes spell in UTF-8.
    Utf8,
    /// As text, when every byte is ASCII.
    Ascii,
    /// As their base64 text.
    Base64,
    /// As the reversible object `{"__bytes__": <base64 text>}`.
    Marker,
    /// An encoding name that is not known; every byte-sequence is refused.
    Unknown(String),
}

/// How values with no recognised capability are encoded.
#[derive(Debug, PartialEq)]
pub enum OpaquePolicy {
    /// As the record `{"__class__": <type name>, "__repr__": <debug string>}`.
    Degrade,
    /// Refuse them.
    Strict,
}

/// The nesting depth that encoding and decoding accept by default.
pub const DEFAULT_MAX_DEPTH: usize = 512;

/// The configuration of one encode call.
#[derive(Debug, PartialEq)]
pub struct Options {
    /// Spaces per level of pretty printing; `None` or `Some(0)` print compactly.
    pub indent: Option<usize>,
    pub dt: DtPolicy,
    pub bytes: BytesPolicy,
    pub opaque: OpaquePolicy,
    /// How many containers may nest inside one another.
    pub max_depth: usize,
}

/// Why a value was not encoded.
#[derive(Debug, PartialEq)]
pub enum Refusal {
    /// A calendar-time value under the `raise` policy.
    CalendarTime,
    /// A calendar-time value of the named type without an ISO-8601 form.
    NoIsoForm(String),
    /// A calendar-time value that the host could not format with the pattern.
    PatternFailed(String),
    /// A byte-sequence under the `raise` policy.
    Bytes,
    /// A byte-sequence that is not valid UTF-8.
    InvalidUtf8,
    /// A byte-sequence with a byte outside the ASCII range.
    NonAscii,
    /// A byte-sequence under an encoding name that is not known.
    UnknownEncoding(String),
    /// A NaN or infinite floating-point number.
    NonFiniteFloat,
    /// A value of the named type with no recognised capability.
    Opaque(String),
}

/// The errors of encoding and decoding.
#[derive(Debug, PartialEq)]
pub enum Error {
    /// The text is not one JSON document; the parser's message.
    MalformedJson(String),
    /// The value's type has no encoding under the policy in force.
    UnsupportedType(Refusal),
    /// The value's type is supported, but not this value under the policy.
    UnsupportedValue(Refusal),
    /// A byte-sequence marker whose payload is not standard base64.
    InvalidBase64,
    /// A JSON number that the host can hold neither as integer nor as float.
    InvalidNumber,
    /// The value nests deeper than the configured limit.
    RecursionLimit,
}

impl DtPolicy {
    /// The policy named by `name`: `raise`, `iso`, or else a custom pattern.
    pub fn from_name(name: &str) -> (r: DtPolicy)
        ensures
            name@ == "raise"@ ==> r == DtPolicy::Raise,
            name@ == "iso"@ ==> r == DtPolicy::Iso,
            name@ != "raise"@ && name@ != "iso"@ ==> (r matches DtPolicy::Pattern(p) && p@ == name@),
    {
        proof {
            reveal_strlit("raise");
            reveal_strlit("iso");
            assert("raise"@[0] != "iso"@[0]);
        }
        if same_text(name, "raise") {
            DtPolicy::Raise
        } else if same_text(name, "iso") {
            DtPolicy::Iso
        } else {
            DtPolicy::Pattern(name.to_string())
        }
    }
}

impl BytesPolicy {
    /// The policy named by `name`: `raise`, `utf-8` or `utf8`, `ascii`,
    /// `base64`; any other name is an unknown encoding.
    pub fn from_name(name: &str) -> (r: BytesPolicy)
        ensures
            name@ == "raise"@ ==> r == BytesPolicy::Raise,
            name@ == "utf-8"@ || name@ == "utf8"@ ==> r == BytesPolicy::Utf8,
            name@ == "ascii"@ ==> r == BytesPolicy::Ascii,
            name@ == "base64"@ ==> r == BytesPolicy::Base64,
            name@ != "raise"@ && name@ != "utf-8"@ && name@ != "utf8"@ && name@ != "ascii"@
                && name@ != "base64"@ ==> (r matches BytesPolicy::Unknown(e) && e@ == name@),
    {
        proof {
            reveal_strlit("raise");
            reveal_strlit("utf-8");
            reveal_strlit("utf8");
            reveal_strlit("ascii");
            reveal_strlit("base64");
            assert("raise"@[0] != "utf-8"@[0] && "raise"@[0] != "utf8"@[0] && "raise"@[0] != "ascii"@[0]);
            assert("raise"@[0] != "base64"@[0] && "utf-8"@[0] != "ascii"@[0] && "utf-8"@[0] != "base64"@[0]);
            assert("utf8"@[0] != "ascii"@[0] && "utf8"@[0] != "base64"@[0] && "ascii"@[0] != "base64"@[0]);
            assert("utf-8"@[3] != "utf8"@[3]);
        }
        if same_text(name, "raise") {
            BytesPolicy::Raise
        } else if same_text(name, "utf-8") || same_text(name, "utf8") {
            BytesPolicy::Utf8
        } else if same_text(name, "ascii") {
            BytesPolicy::Ascii
        } else if same_text(name, "base64") {
            BytesPolicy::Base64
        } else {
            BytesPolicy::Unknown(name.to_string())
        }
    }
}

impl Options {
    /// Compact output, ISO-8601 calendar times, byte-sequences and opaque
    /// values refused.
    pub fn new() -> (r: Options)
        ensures
            r.indent is None,
            r.dt == DtPolicy::Iso,
            r.bytes == BytesPolicy::Raise,
            r.opaque == OpaquePolicy::Strict,
            r.max_depth == DEFAULT_MAX_DEPTH,
    {
        Options {
            indent: None,
            dt: DtPolicy::Iso,
            bytes: BytesPolicy::Raise,
            opaque: OpaquePolicy::Strict,
            max_depth: DEFAULT_MAX_DEPTH,
        }
    }

    /// The invertible configuration: byte-sequences as markers that decoding
    /// reads back; otherwise as `new`.
    pub fn reversible() -> (r: Options)
        ensures
            r.indent is None,
            r.dt == DtPolicy::Iso,
            r.bytes == BytesPolicy::Marker,
            r.opaque == OpaquePolicy::Strict,
            r.max_depth == DEFAULT_MAX_DEPTH,
    {
        Options {
            indent: None,
            dt: DtPolicy::Iso,
            bytes: BytesPolicy::Marker,
            opaque: OpaquePolicy::Strict,
            max_depth: DEFAULT_MAX_DEPTH,
        }
    }
}

} // verus!
