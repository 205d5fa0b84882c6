//! Analysis and code planning behind the `Recallable` / `Recall` derives and the
//! `#[recallable_model]` attribute.
//!
//! The derive input is described by the plain model in [`model`]; the library
//! validates it, decides how every field and generic parameter is carried into
//! the companion memento type, and produces plans that say exactly which items,
//! bounds and statements the generated code holds.
use vstd::prelude::*;

pub mod model;
pub mod text;
pub mod diag;
pub mod attrs;
pub mod serde_attrs;
pub mod generics;
pub mod fields;
pub mod ir;
pub mod bounds;
pub mod memento;
pub mod impls;
pub mod model_macro;
pub mod derive;
pub mod fuzz;
pub mod prefix;
pub mod laws;

verus! {

} // verus!
