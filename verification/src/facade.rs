//! The behavioral contract a materialized error variant offers at
//! runtime: severity, numeric and display codes, primary span, message
//! and label.  This library only produces the descriptors such a type
//! is built from; the trait is implemented by the host type downstream,
//! and renderers consume values through it.

use vstd::prelude::*;
use crate::kind::Kind;
use crate::span::Span;

verus! {

/// A diagnostic value: one variant of a compiled taxonomy, as
/// renderers consume it.
pub trait ErrorType {
    /// The span type the diagnostic's locations use.
    type Span: Span;

    /// The severity of the variant.
    fn kind(&self) -> Kind;

    /// The numeric code, e.g. `01`.
    fn number(&self) -> &str;

    /// The display code, e.g. `E01`.
    fn code(&self) -> &str;

    /// The primary source location.
    fn primary_span(&self) -> Self::Span;

    /// The rendered message.
    fn primary_message(&self) -> String;

    /// The rendered label.
    fn primary_label(&self) -> String;
}

} // verus!
