//! Measurements that are reported for a lease.

use vstd::prelude::*;

use crate::net::{IpAddr, SocketAddr};
use crate::record::text_views;
use crate::workers::trace::TraceObservation;

verus! {

/// A value that was measured.
#[derive(Debug, Clone)]
pub enum FieldValue {
    Null,
    Bool(bool),
    Number(u64),
    /// An error number of the operating system.
    Errno(i32),
    Text(String),
    Texts(Vec<String>),
    /// An address without port.
    Ip(IpAddr),
    /// An address and port.
    Address(SocketAddr),
    /// A duration in nanoseconds, reported in milliseconds.
    Millis(u128),
    /// The share of `part` in `whole`, reported in percent; zero if `whole` is.
    Percent { part: u32, whole: u32 },
    /// The mean of durations in nanoseconds, reported in milliseconds.
    MeanMillis(Vec<u128>),
    /// The standard deviation of durations in nanoseconds, reported in milliseconds.
    DeviationMillis(Vec<u128>),
    /// How often each text occurred.
    Counts(Vec<(String, u32)>),
}

/// The contents of a [`FieldValue`].
#[allow(inconsistent_fields)]
pub enum FieldView {
    Null,
    Bool(bool),
    Number(u64),
    Errno(i32),
    Text(Seq<char>),
    Texts(Seq<Seq<char>>),
    Ip(IpAddr),
    Address(SocketAddr),
    Millis(u128),
    Percent { part: u32, whole: u32 },
    MeanMillis(Seq<u128>),
    DeviationMillis(Seq<u128>),
    Counts(Seq<(Seq<char>, u32)>),
}

/// The contents of counted texts.
pub open spec fn count_views(counts: Seq<(String, u32)>) -> Seq<(Seq<char>, u32)> {
    counts.map_values(|c: (String, u32)| (c.0@, c.1))
}

impl View for FieldValue {
    type V = FieldView;

    open spec fn view(&self) -> FieldView {
        match self {
            FieldValue::Null => FieldView::Null,
            FieldValue::Bool(b) => FieldView::Bool(*b),
            FieldValue::Number(n) => FieldView::Number(*n),
            FieldValue::Errno(n) => FieldView::Errno(*n),
            FieldValue::Text(t) => FieldView::Text(t@),
            FieldValue::Texts(t) => FieldView::Texts(text_views(t@)),
            FieldValue::Ip(a) => FieldView::Ip(*a),
            FieldValue::Address(a) => FieldView::Address(*a),
            FieldValue::Millis(n) => FieldView::Millis(*n),
            FieldValue::Percent { part, whole } => FieldView::Percent {
                part: *part,
                whole: *whole,
            },
            FieldValue::MeanMillis(v) => FieldView::MeanMillis(v@),
            FieldValue::DeviationMillis(v) => FieldView::DeviationMillis(v@),
            FieldValue::Counts(c) => FieldView::Counts(count_views(c@)),
        }
    }
}

/// A named value.
#[derive(Debug, Clone)]
pub struct Field {
    pub key: &'static str,
    pub value: FieldValue,
}

/// The contents of named values.
pub open spec fn field_views(fields: Seq<Field>) -> Seq<(Seq<char>, FieldView)> {
    fields.map_values(|f: Field| (f.key@, f.value@))
}

/// What was observed.
#[derive(Debug, Clone)]
pub enum ObservationValue {
    Bool(bool),
    Fields(Vec<Field>),
    Trace(TraceObservation),
}

/// One observation.
#[derive(Debug, Clone)]
pub struct Observation {
    pub name: String,
    pub value: ObservationValue,
    pub unit: Option<String>,
}

impl Observation {
    /// The observation has the name `name`, holds the values `fields` in this order, and has
    /// no unit.
    pub open spec fn is_record(&self, name: Seq<char>, fields: Seq<(Seq<char>, FieldView)>) -> bool {
        &&& self.name@ == name
        &&& self.unit is None
        &&& self.value is Fields
        &&& field_views(self.value->Fields_0@) == fields
    }
}

/// Makes an observation of named values.
pub(crate) fn record(name: &str, fields: Vec<Field>) -> (r: Observation)
    ensures
        r.is_record(name@, field_views(fields@)),
{
    Observation { name: name.to_string(), value: ObservationValue::Fields(fields), unit: None }
}

/// Makes a named value of a text.
pub(crate) fn text_field(key: &'static str, text: &str) -> (r: Field)
    ensures
        (r.key@, r.value@) == (key@, FieldView::Text(text@)),
{
    Field { key, value: FieldValue::Text(text.to_string()) }
}

/// Makes a named value of a text, or of nothing.
pub(crate) fn optional_text_field(key: &'static str, text: &Option<String>) -> (r: Field)
    ensures
        (r.key@, r.value@) == (
            key@,
            match text {
                Some(t) => FieldView::Text(t@),
                None => FieldView::Null,
            },
        ),
{
    match text {
        Some(t) => Field { key, value: FieldValue::Text(t.clone()) },
        None => Field { key, value: FieldValue::Null },
    }
}

/// Makes a named value of a number.
pub(crate) fn number_field(key: &'static str, n: u64) -> (r: Field)
    ensures
        (r.key@, r.value@) == (key@, FieldView::Number(n)),
{
    Field { key, value: FieldValue::Number(n) }
}

/// Makes a named value of a truth value.
pub(crate) fn bool_field(key: &'static str, b: bool) -> (r: Field)
    ensures
        (r.key@, r.value@) == (key@, FieldView::Bool(b)),
{
    Field { key, value: FieldValue::Bool(b) }
}

/// Makes a named value of a duration, or of nothing.
pub(crate) fn optional_millis_field(key: &'static str, nanos: Option<u128>) -> (r: Field)
    ensures
        (r.key@, r.value@) == (
            key@,
            match nanos {
                Some(n) => FieldView::Millis(n),
                None => FieldView::Null,
            },
        ),
{
    match nanos {
        Some(n) => Field { key, value: FieldValue::Millis(n) },
        None => Field { key, value: FieldValue::Null },
    }
}

/// Makes a named value of an address, or of nothing.
pub(crate) fn optional_address_field(key: &'static str, address: Option<SocketAddr>) -> (r: Field)
    ensures
        (r.key@, r.value@) == (
            key@,
            match address {
                Some(a) => FieldView::Address(a),
                None => FieldView::Null,
            },
        ),
{
    match address {
        Some(a) => Field { key, value: FieldValue::Address(a) },
        None => Field { key, value: FieldValue::Null },
    }
}

/// Appends a named value.
pub(crate) fn push_field(fields: &mut Vec<Field>, field: Field)
    ensures
        field_views(final(fields)@) == field_views(old(fields)@).push((field.key@, field.value@)),
{
    let ghost before = fields@;
    fields.push(field);
    assert(field_views(fields@) =~= field_views(before).push((field.key@, field.value@)));
}

/// Makes a named value of an error number, or of nothing.
pub(crate) fn optional_errno_field(key: &'static str, errno: Option<i32>) -> (r: Field)
    ensures
        (r.key@, r.value@) == (
            key@,
            match errno {
                Some(n) => FieldView::Errno(n),
                None => FieldView::Null,
            },
        ),
{
    match errno {
        Some(n) => Field { key, value: FieldValue::Errno(n) },
        None => Field { key, value: FieldValue::Null },
    }
}

} // verus!
