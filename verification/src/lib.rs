//! A single-endpoint cat-picture service, taken apart for verification.
//!
//! The library holds the decision logic of the request pipeline: parsing the
//! upstream search reply, selecting an image URL, classifying failures, and
//! assembling the HTTP response. Network transport and server wiring live
//! outside the library and hand it plain values.

use vstd::prelude::*;

pub mod collab;
pub mod error;
pub mod json;
pub mod pipeline;

verus! {

} // verus!
