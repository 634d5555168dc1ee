//! The error of a layer: a chain that has reached that layer, and can go on
//! to the next.

use vstd::prelude::*;
use vstd::string::*;
use crate::error_string::{error_debug_text, Error};
use crate::loc_error::{
    backtrace_json, conversion_link, read_backtrace, seed_link, summary_message, CoreError,
    StackItemView,
};

verus! {

/// Whether every link but the first starts from the layer that the link
/// before it led into.
pub open spec fn is_linked(links: Seq<StackItemView>) -> bool {
    forall|i: int| 0 < i < links.len() ==> (#[trigger] links[i]).source == links[i - 1].target
}

/// Whether `links` are the chain of an error that has reached a layer: one
/// link at least, and each link starting where the one before it ended.
pub open spec fn is_layer_chain(links: Seq<StackItemView>) -> bool {
    links.len() > 0 && is_linked(links)
}

/// The error of one layer. It owns the chain that led into the layer; the
/// chain is never empty, and the layer is where its last link leads.
#[derive(Debug)]
pub struct LayerError {
    chain: CoreError,
}

impl View for LayerError {
    type V = Seq<StackItemView>;

    closed spec fn view(&self) -> Seq<StackItemView> {
        self.chain@
    }
}

impl LayerError {
    #[verifier::type_invariant]
    spec fn chain_reaches_a_layer(&self) -> bool {
        is_layer_chain(self.chain@)
    }

    /// The error of the layer `layer` for a foreign error that enters it at
    /// `location`: a chain of one link. `message` is the foreign error's
    /// display text and `source` its debug text.
    pub fn seed(layer: &str, message: &str, source: &str, location: &str) -> (error: LayerError)
        ensures
            error@ == seq![seed_link(message@, source@, layer@, location@)],
            error@.len() == 1,
            error@[0].msg == message@,
            is_layer_chain(error@),
    {
        LayerError { chain: CoreError::seed(message, source, layer, location) }
    }

    /// The error of the layer `layer` for an [`Error`] that enters it at
    /// `location`.
    pub fn from_error(layer: &str, error: &Error, location: &str) -> (out: LayerError)
        ensures
            out@ == seq![seed_link(error.0@, error_debug_text(error.0@), layer@, location@)],
            is_layer_chain(out@),
    {
        LayerError { chain: CoreError::from_error(error, layer, location) }
    }

    /// Takes the error on into the layer `layer`, which it enters at
    /// `location`. The chain gets one link more, from the layer that the
    /// error was in to the new one, and keeps the links it had. The old error
    /// is used up.
    pub fn convert(self, layer: &str, location: &str) -> (error: LayerError)
        ensures
            is_layer_chain(self@),
            error@ == self@.push(conversion_link(self@.last().target, layer@, location@)),
            error@.len() == self@.len() + 1,
            forall|i: int| 0 <= i < self@.len() ==> error@[i] == self@[i],
            error@.last().location == location@,
            error@.last().source == self@.last().target,
            error@.last().target == layer@,
            is_layer_chain(error@),
    {
        proof {
            use_type_invariant(&self);
        }
        let from = self.layer();
        let chain = self.chain.extend(from.as_str(), layer, location);
        LayerError { chain }
    }

    /// The name of the layer that the error is in.
    pub fn layer(&self) -> (name: String)
        ensures
            is_layer_chain(self@),
            name@ == self@.last().target,
    {
        proof {
            use_type_invariant(self);
        }
        let last = self.chain.backtrace.len() - 1;
        self.chain.backtrace[last].target.clone()
    }

    /// The message that sums the error up: that of the oldest link that has
    /// one.
    pub fn summary(&self) -> (text: String)
        ensures
            text@ == summary_message(self@),
    {
        self.chain.summary()
    }

    /// The error as JSON text, every link of its chain in chain order.
    pub fn render_json(&self) -> (text: String)
        ensures
            text@ == backtrace_json(self@),
            read_backtrace(text@) == Some(self@),
    {
        self.chain.render_json()
    }

    /// Gives the chain up, whole, to be reported. The error is used up.
    pub fn to_error(self) -> (chain: CoreError)
        ensures
            chain@ == self@,
            is_layer_chain(chain@),
    {
        proof {
            use_type_invariant(&self);
        }
        self.chain
    }
}

} // verus!
