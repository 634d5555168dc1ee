//! The field capture visitor: it takes the fields of one event in the order
//! of emission and sorts each into its place in the normalized record.

use vstd::prelude::*;
use vstd::string::*;
use crate::event::{
    entries_view, field_text, field_value_text, opt_links, opt_text, Entry, EntryView, Event,
    EventView, FieldValue, FieldValueView, FieldView, Level, NormalizedEvent,
    NormalizedEventView,
};
use crate::loc_error::{summary_message, CoreError, StackItemView};
use crate::text::{decimal, write_u64};

verus! {

/// What has been captured of an event so far.
pub struct Capture {
    pub message: Option<Seq<char>>,
    pub caller: Option<Seq<char>>,
    pub backtrace: Option<Seq<StackItemView>>,
    pub fields: Seq<EntryView>,
}

/// Nothing captured yet.
pub open spec fn empty_capture() -> Capture {
    Capture { message: None, caller: None, backtrace: None, fields: Seq::empty() }
}

/// What one more field does to a capture. In this order: a field named
/// `message` sets the message and a field named `caller` sets the place to
/// show, each to the field's text whatever its kind, and a later one of the
/// same name wins over an earlier one; a chain fills the backtrace slot, and
/// gives the message where there is none yet; an error that is no chain gives
/// its display text as the message; any other field is kept, behind those
/// kept before it.
pub open spec fn record_field(seen: Capture, name: Seq<char>, value: FieldValueView) -> Capture {
    if name == "message"@ {
        Capture { message: Some(field_text(value)), ..seen }
    } else if name == "caller"@ {
        Capture { caller: Some(field_text(value)), ..seen }
    } else {
        match value {
            FieldValueView::Chain(links) => Capture {
                message: if seen.message is None {
                    Some(summary_message(links))
                } else {
                    seen.message
                },
                backtrace: Some(links),
                ..seen
            },
            FieldValueView::Foreign(text) => Capture { message: Some(text), ..seen },
            FieldValueView::Plain(v) => Capture {
                fields: seen.fields.push(EntryView { key: name, value: v }),
                ..seen
            },
        }
    }
}

/// What a run of fields does to a capture, taken one after the other.
pub open spec fn record_fields(seen: Capture, fields: Seq<FieldView>) -> Capture
    decreases fields.len(),
{
    if fields.len() == 0 {
        seen
    } else {
        record_field(
            record_fields(seen, fields.drop_last()),
            fields.last().name,
            fields.last().value,
        )
    }
}

/// The normalized event that a capture makes. The place that a `caller`
/// field gave is shown in place of `default_name`.
pub open spec fn finished(
    seen: Capture,
    timestamp: i64,
    level: Level,
    default_name: Seq<char>,
) -> NormalizedEventView {
    NormalizedEventView {
        timestamp,
        level,
        name_or_location: match seen.caller {
            Some(place) => place,
            None => default_name,
        },
        message: seen.message,
        fields: seen.fields,
        backtrace: seen.backtrace,
    }
}

/// An event normalized: all its fields captured in the order of emission.
pub open spec fn normalized(
    event: EventView,
    timestamp: i64,
    default_name: Seq<char>,
) -> NormalizedEventView {
    finished(record_fields(empty_capture(), event.fields), timestamp, event.level, default_name)
}

/// The place where an event was written down, as `file:line`. A file that is
/// not known shows as `None`, a line that is not known as `0`.
pub open spec fn call_site_text(file: Option<Seq<char>>, line: Option<u32>) -> Seq<char> {
    (match file {
        Some(f) => f,
        None => "None"@,
    }) + ":"@ + decimal(
        match line {
            Some(n) => n as nat,
            None => 0nat,
        },
    )
}

/// The place where an event was written down, as `file:line`.
pub fn call_site(file: &Option<String>, line: Option<u32>) -> (text: String)
    ensures
        text@ == call_site_text(opt_text(*file), line),
{
    let mut buf = String::new();
    match file {
        Some(f) => buf.append(f.as_str()),
        None => buf.append("None"),
    }
    buf.append(":");
    match line {
        Some(n) => write_u64(&mut buf, n as u64),
        None => write_u64(&mut buf, 0),
    }
    assert(buf@ =~= call_site_text(opt_text(*file), line));
    buf
}

/// The visitor. It holds what it has captured of one event.
pub struct FieldVisitor {
    message: Option<String>,
    caller: Option<String>,
    backtrace: Option<CoreError>,
    fields: Vec<Entry>,
}

impl View for FieldVisitor {
    type V = Capture;

    closed spec fn view(&self) -> Capture {
        Capture {
            message: opt_text(self.message),
            caller: opt_text(self.caller),
            backtrace: opt_links(self.backtrace),
            fields: entries_view(self.fields@),
        }
    }
}

impl FieldVisitor {
    /// A visitor that has seen no field.
    pub fn new() -> (visitor: FieldVisitor)
        ensures
            visitor@ == empty_capture(),
    {
        let visitor = FieldVisitor {
            message: None,
            caller: None,
            backtrace: None,
            fields: Vec::new(),
        };
        assert(entries_view(visitor.fields@) =~= Seq::empty());
        visitor
    }

    /// Takes one field.
    pub fn record(&mut self, name: &str, value: &FieldValue)
        ensures
            final(self)@ == record_field(old(self)@, name@, value@),
    {
        if name.eq("message") {
            self.message = Some(field_value_text(value));
        } else if name.eq("caller") {
            self.caller = Some(field_value_text(value));
        } else {
            match value {
                FieldValue::Chain(chain) => {
                    if self.message.is_none() {
                        self.message = Some(chain.summary());
                    }
                    self.backtrace = Some(chain.clone());
                },
                FieldValue::Foreign(text) => {
                    self.message = Some(text.clone());
                },
                FieldValue::Plain(v) => {
                    let entry = Entry { key: name.to_owned(), value: v.clone() };
                    let ghost before = self.fields@;
                    self.fields.push(entry);
                    assert(entries_view(self.fields@) =~= entries_view(before).push(entry@));
                },
            }
        }
    }

    /// Ends the capture: the normalized event of all that was taken, at the
    /// instant `timestamp` and with the level `level`. `default_name` is
    /// shown where no `caller` field gave a place.
    pub fn finish(self, timestamp: i64, level: Level, default_name: &str) -> (event:
        NormalizedEvent)
        ensures
            event@ == finished(self@, timestamp, level, default_name@),
    {
        let name_or_location = match self.caller {
            Some(place) => place,
            None => default_name.to_owned(),
        };
        NormalizedEvent {
            timestamp,
            level,
            name_or_location,
            message: self.message,
            fields: self.fields,
            backtrace: self.backtrace,
        }
    }
}

/// Normalizes an event: captures its fields in the order of emission.
pub fn normalize(event: &Event, timestamp: i64, default_name: &str) -> (out: NormalizedEvent)
    ensures
        out@ == normalized(event@, timestamp, default_name@),
{
    let mut visitor = FieldVisitor::new();
    let mut i: usize = 0;
    while i < event.fields.len()
        invariant
            i <= event.fields.len(),
            visitor@ == record_fields(empty_capture(), event@.fields.take(i as int)),
        decreases event.fields.len() - i,
    {
        visitor.record(event.fields[i].name.as_str(), &event.fields[i].value);
        assert(event@.fields.take(i + 1).drop_last() =~= event@.fields.take(i as int));
        i = i + 1;
    }
    assert(event@.fields.take(i as int) =~= event@.fields);
    visitor.finish(timestamp, event.level, default_name)
}

/// What a capture holds as the place to show after a run of fields: the text
/// of the last field named `caller` in the run, and what it held before
/// where the run has no such field.
pub open spec fn caller_after(seen: Capture, fields: Seq<FieldView>) -> Option<Seq<char>>
    decreases fields.len(),
{
    if fields.len() == 0 {
        seen.caller
    } else if fields.last().name == "caller"@ {
        Some(field_text(fields.last().value))
    } else {
        caller_after(seen, fields.drop_last())
    }
}

/// Only a field named `caller` touches the place to show, and the last one
/// decides.
pub proof fn lemma_capture_caller(seen: Capture, fields: Seq<FieldView>)
    ensures
        record_fields(seen, fields).caller == caller_after(seen, fields),
    decreases fields.len(),
{
    reveal_strlit("caller");
    reveal_strlit("message");
    if fields.len() > 0 {
        lemma_capture_caller(seen, fields.drop_last());
        assert("caller"@.len() != "message"@.len());
    }
}

/// Where the field at `i` is the last one named `caller`, its text is the
/// place after the run.
pub proof fn lemma_last_caller(seen: Capture, fields: Seq<FieldView>, i: int)
    requires
        0 <= i < fields.len(),
        fields[i].name == "caller"@,
        forall|j: int| i < j < fields.len() ==> fields[j].name != "caller"@,
    ensures
        caller_after(seen, fields) == Some(field_text(fields[i].value)),
    decreases fields.len(),
{
    if i < fields.len() - 1 {
        lemma_last_caller(seen, fields.drop_last(), i);
    }
}

/// Location override. Where an event has a field named `caller`, the
/// normalized event shows the text of the last such field as its name or
/// place, whatever the default name is.
pub proof fn lemma_caller_overrides_default(
    event: EventView,
    timestamp: i64,
    default_name: Seq<char>,
    i: int,
)
    requires
        0 <= i < event.fields.len(),
        event.fields[i].name == "caller"@,
        forall|j: int| i < j < event.fields.len() ==> event.fields[j].name != "caller"@,
    ensures
        normalized(event, timestamp, default_name).name_or_location == field_text(
            event.fields[i].value,
        ),
{
    lemma_capture_caller(empty_capture(), event.fields);
    lemma_last_caller(empty_capture(), event.fields, i);
}

/// Without a field named `caller`, the normalized event shows the default
/// name.
pub proof fn lemma_default_name_without_caller(
    event: EventView,
    timestamp: i64,
    default_name: Seq<char>,
)
    requires
        forall|j: int| 0 <= j < event.fields.len() ==> event.fields[j].name != "caller"@,
    ensures
        normalized(event, timestamp, default_name).name_or_location == default_name,
{
    lemma_capture_caller(empty_capture(), event.fields);
    lemma_no_caller(empty_capture(), event.fields);
}

/// A run without a field named `caller` leaves the place to show as it was.
pub proof fn lemma_no_caller(seen: Capture, fields: Seq<FieldView>)
    requires
        forall|j: int| 0 <= j < fields.len() ==> fields[j].name != "caller"@,
    ensures
        caller_after(seen, fields) == seen.caller,
    decreases fields.len(),
{
    if fields.len() > 0 {
        lemma_no_caller(seen, fields.drop_last());
    }
}

/// The default name matters only where no field is named `caller`: with
/// such a field, two default names give the same normalized event.
pub proof fn lemma_caller_hides_default(
    event: EventView,
    timestamp: i64,
    one: Seq<char>,
    other: Seq<char>,
    i: int,
)
    requires
        0 <= i < event.fields.len(),
        event.fields[i].name == "caller"@,
    ensures
        normalized(event, timestamp, one) == normalized(event, timestamp, other),
{
    lemma_capture_caller(empty_capture(), event.fields);
    lemma_some_caller(empty_capture(), event.fields, i);
}

/// A run with a field named `caller` leaves a place to show.
pub proof fn lemma_some_caller(seen: Capture, fields: Seq<FieldView>, i: int)
    requires
        0 <= i < fields.len(),
        fields[i].name == "caller"@,
    ensures
        caller_after(seen, fields) is Some,
    decreases fields.len(),
{
    if i < fields.len() - 1 && fields.last().name != "caller"@ {
        lemma_some_caller(seen, fields.drop_last(), i);
    }
}

/// The entry that a field is kept as, where it is kept: a field with a plain
/// value and a name other than `message` and `caller`.
pub open spec fn kept_entry(field: FieldView) -> Option<EntryView> {
    if field.name == "message"@ || field.name == "caller"@ {
        None
    } else {
        match field.value {
            FieldValueView::Plain(v) => Some(EntryView { key: field.name, value: v }),
            _ => None,
        }
    }
}

/// The fields that a capture keeps are the ordinary ones of the run, in the
/// order of emission, behind those it held before.
pub proof fn lemma_capture_keeps_order(seen: Capture, fields: Seq<FieldView>)
    ensures
        record_fields(seen, fields).fields == seen.fields + fields.filter_map(
            |field: FieldView| kept_entry(field),
        ),
    decreases fields.len(),
{
    let keep = |field: FieldView| kept_entry(field);
    if fields.len() == 0 {
        assert(seen.fields + fields.filter_map(keep) =~= seen.fields);
    } else {
        lemma_capture_keeps_order(seen, fields.drop_last());
        let before = record_fields(seen, fields.drop_last());
        let last = fields.last();
        match kept_entry(last) {
            Some(entry) => {
                assert(fields.filter_map(keep) == fields.drop_last().filter_map(keep) + seq![
                    entry,
                ]);
                assert(before.fields.push(entry) =~= seen.fields + fields.filter_map(keep));
            },
            None => {},
        }
    }
}

/// The ordinary fields of a normalized event are those of the event, in the
/// order of emission.
pub proof fn lemma_normalized_keeps_order(
    event: EventView,
    timestamp: i64,
    default_name: Seq<char>,
)
    ensures
        normalized(event, timestamp, default_name).fields == event.fields.filter_map(
            |field: FieldView| kept_entry(field),
        ),
{
    lemma_capture_keeps_order(empty_capture(), event.fields);
    assert(empty_capture().fields + event.fields.filter_map(
        |field: FieldView| kept_entry(field),
    ) =~= event.fields.filter_map(|field: FieldView| kept_entry(field)));
}

} // verus!
