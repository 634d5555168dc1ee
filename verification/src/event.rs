//! Events: what an emitting call site hands over, and the normalized record
//! that the renderers work on.

use vstd::prelude::*;
use vstd::string::*;
use crate::loc_error::{summary_message, CoreError, StackItemView};
use crate::text::{bool_text, decimal, signed_decimal, write_bool, write_i64, write_u64};

verus! {

/// How severe an event is.
#[derive(Clone, Copy, Debug, PartialEq, Eq, Structural)]
pub enum Level {
    Error,
    Warn,
    Info,
    Debug,
    Trace,
}

/// The name of a level in capitals.
pub open spec fn level_text(level: Level) -> Seq<char> {
    match level {
        Level::Error => "ERROR"@,
        Level::Warn => "WARN"@,
        Level::Info => "INFO"@,
        Level::Debug => "DEBUG"@,
        Level::Trace => "TRACE"@,
    }
}

impl Level {
    /// The name of the level in capitals.
    pub fn as_str(&self) -> (name: &'static str)
        ensures
            name@ == level_text(*self),
    {
        match self {
            Level::Error => "ERROR",
            Level::Warn => "WARN",
            Level::Info => "INFO",
            Level::Debug => "DEBUG",
            Level::Trace => "TRACE",
        }
    }
}

/// A plain telemetry value. A float is held as its decimal text.
#[derive(Debug)]
pub enum Value {
    Float(String),
    Signed(i64),
    Unsigned(u64),
    Bool(bool),
    Str(String),
    Debug(String),
}

/// What a [`Value`] holds, as plain text and numbers.
pub enum ValueView {
    Float(Seq<char>),
    Signed(i64),
    Unsigned(u64),
    Bool(bool),
    Str(Seq<char>),
    Debug(Seq<char>),
}

impl View for Value {
    type V = ValueView;

    open spec fn view(&self) -> ValueView {
        match self {
            Value::Float(text) => ValueView::Float(text@),
            Value::Signed(n) => ValueView::Signed(*n),
            Value::Unsigned(n) => ValueView::Unsigned(*n),
            Value::Bool(b) => ValueView::Bool(*b),
            Value::Str(text) => ValueView::Str(text@),
            Value::Debug(text) => ValueView::Debug(text@),
        }
    }
}

impl Clone for Value {
    fn clone(&self) -> (r: Self)
        ensures
            r@ == self@,
    {
        match self {
            Value::Float(text) => Value::Float(text.clone()),
            Value::Signed(n) => Value::Signed(*n),
            Value::Unsigned(n) => Value::Unsigned(*n),
            Value::Bool(b) => Value::Bool(*b),
            Value::Str(text) => Value::Str(text.clone()),
            Value::Debug(text) => Value::Debug(text.clone()),
        }
    }
}

/// The value of one field of an event, as the emitting call site tagged it: a
/// plain value, an error chain, or the display text of an error that is no
/// chain.
#[derive(Debug)]
pub enum FieldValue {
    Plain(Value),
    Chain(CoreError),
    Foreign(String),
}

/// What a [`FieldValue`] holds.
pub enum FieldValueView {
    Plain(ValueView),
    Chain(Seq<StackItemView>),
    Foreign(Seq<char>),
}

impl View for FieldValue {
    type V = FieldValueView;

    open spec fn view(&self) -> FieldValueView {
        match self {
            FieldValue::Plain(value) => FieldValueView::Plain(value@),
            FieldValue::Chain(chain) => FieldValueView::Chain(chain@),
            FieldValue::Foreign(text) => FieldValueView::Foreign(text@),
        }
    }
}

/// One field of an event as it was emitted.
#[derive(Debug)]
pub struct Field {
    pub name: String,
    pub value: FieldValue,
}

/// What a [`Field`] holds.
pub struct FieldView {
    pub name: Seq<char>,
    pub value: FieldValueView,
}

impl View for Field {
    type V = FieldView;

    open spec fn view(&self) -> FieldView {
        FieldView { name: self.name@, value: self.value@ }
    }
}

/// One ordinary field of a normalized event.
#[derive(Debug)]
pub struct Entry {
    pub key: String,
    pub value: Value,
}

/// What an [`Entry`] holds.
pub struct EntryView {
    pub key: Seq<char>,
    pub value: ValueView,
}

impl View for Entry {
    type V = EntryView;

    open spec fn view(&self) -> EntryView {
        EntryView { key: self.key@, value: self.value@ }
    }
}

/// The text of an optional string.
pub open spec fn opt_text(text: Option<String>) -> Option<Seq<char>> {
    match text {
        Some(t) => Some(t@),
        None => None,
    }
}

/// The links of an optional chain.
pub open spec fn opt_links(chain: Option<CoreError>) -> Option<Seq<StackItemView>> {
    match chain {
        Some(c) => Some(c@),
        None => None,
    }
}

/// The fields of `fields`, each as plain values.
pub open spec fn fields_view(fields: Seq<Field>) -> Seq<FieldView> {
    fields.map_values(|field: Field| field@)
}

/// The entries of `entries`, each as plain values.
pub open spec fn entries_view(entries: Seq<Entry>) -> Seq<EntryView> {
    entries.map_values(|entry: Entry| entry@)
}

/// An event as the emitting call site hands it over: its level, the name and
/// the place that it was given where it was written down, and its fields in
/// the order of emission.
#[derive(Debug)]
pub struct Event {
    pub level: Level,
    pub name: String,
    pub file: Option<String>,
    pub line: Option<u32>,
    pub fields: Vec<Field>,
}

/// What an [`Event`] holds.
pub struct EventView {
    pub level: Level,
    pub name: Seq<char>,
    pub file: Option<Seq<char>>,
    pub line: Option<u32>,
    pub fields: Seq<FieldView>,
}

impl View for Event {
    type V = EventView;

    open spec fn view(&self) -> EventView {
        EventView {
            level: self.level,
            name: self.name@,
            file: opt_text(self.file),
            line: self.line,
            fields: fields_view(self.fields@),
        }
    }
}

/// An event as the renderers take it: the instant in seconds from the Unix
/// epoch, the level, the name or place to show, the message, the ordinary
/// fields in the order of emission, and the error chain where one came with
/// the event.
#[derive(Debug)]
pub struct NormalizedEvent {
    pub timestamp: i64,
    pub level: Level,
    pub name_or_location: String,
    pub message: Option<String>,
    pub fields: Vec<Entry>,
    pub backtrace: Option<CoreError>,
}

/// What a [`NormalizedEvent`] holds.
pub struct NormalizedEventView {
    pub timestamp: i64,
    pub level: Level,
    pub name_or_location: Seq<char>,
    pub message: Option<Seq<char>>,
    pub fields: Seq<EntryView>,
    pub backtrace: Option<Seq<StackItemView>>,
}

impl View for NormalizedEvent {
    type V = NormalizedEventView;

    open spec fn view(&self) -> NormalizedEventView {
        NormalizedEventView {
            timestamp: self.timestamp,
            level: self.level,
            name_or_location: self.name_or_location@,
            message: opt_text(self.message),
            fields: entries_view(self.fields@),
            backtrace: opt_links(self.backtrace),
        }
    }
}

/// A plain value as text for people: a number in decimal, a truth value
/// spelled out, any text as it is.
pub open spec fn value_text(value: ValueView) -> Seq<char> {
    match value {
        ValueView::Float(text) => text,
        ValueView::Signed(n) => signed_decimal(n as int),
        ValueView::Unsigned(n) => decimal(n as nat),
        ValueView::Bool(b) => bool_text(b),
        ValueView::Str(text) => text,
        ValueView::Debug(text) => text,
    }
}

/// Any field value as text for people: a plain value as `value_text` has it,
/// a chain as the message that sums it up, a foreign error as its display
/// text.
pub open spec fn field_text(value: FieldValueView) -> Seq<char> {
    match value {
        FieldValueView::Plain(v) => value_text(v),
        FieldValueView::Chain(links) => summary_message(links),
        FieldValueView::Foreign(text) => text,
    }
}

/// Appends a plain value to `buf` as text for people.
pub fn write_value_text(buf: &mut String, value: &Value)
    ensures
        final(buf)@ == old(buf)@ + value_text(value@),
{
    match value {
        Value::Float(text) => buf.append(text.as_str()),
        Value::Signed(n) => write_i64(buf, *n),
        Value::Unsigned(n) => write_u64(buf, *n),
        Value::Bool(b) => write_bool(buf, *b),
        Value::Str(text) => buf.append(text.as_str()),
        Value::Debug(text) => buf.append(text.as_str()),
    }
}

/// Any field value as text for people.
pub fn field_value_text(value: &FieldValue) -> (text: String)
    ensures
        text@ == field_text(value@),
{
    match value {
        FieldValue::Plain(v) => {
            let mut buf = String::new();
            write_value_text(&mut buf, v);
            assert(buf@ =~= value_text(v@));
            buf
        },
        FieldValue::Chain(chain) => chain.summary(),
        FieldValue::Foreign(text) => text.clone(),
    }
}

} // verus!
