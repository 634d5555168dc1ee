//! Error chains that record every layer boundary an error crosses, and
//! renderers that turn a chain and its telemetry into JSON or coloured text.
//!
//! An error enters a layer as a [`LayerError`] and takes its chain along
//! from layer to layer. An [`Event`] carries fields, one of which may be a
//! chain; a [`FieldVisitor`] sorts them into a [`NormalizedEvent`], and a
//! formatter or a layer renders that, as one line of JSON or as text for
//! people. Every JSON text that leaves the library is proved to be JSON.

pub mod clock;
pub mod error_string;
pub mod event;
pub mod grammar;
pub mod json;
pub mod layer;
pub mod loc_error;
pub mod loc_formater;
pub mod loc_layer;
pub mod render;
pub mod scan;
pub mod text;
pub mod visitor;

use vstd::prelude::*;

pub use clock::RenderError;
pub use error_string::Error;
pub use event::{Entry, Event, Field, FieldValue, Level, NormalizedEvent, Value};
pub use layer::LayerError;
pub use loc_error::{CoreError, StackItem};
pub use loc_formater::{JsonFormatter, PrettyFormatter};
pub use loc_layer::{JsonLayer, PrettyLayer};
pub use visitor::FieldVisitor;

verus! {

/// Wraps a plain message into an [`Error`].
pub fn into_err(msg: &str) -> (e: Error)
    ensures
        e.0@ == msg@,
{
    Error::new(msg)
}

} // verus!
