//! The verbs that handlers serve.

use vstd::prelude::*;

verus! {

/// An HTTP-like verb.
#[derive(Clone, Copy, Debug, PartialEq, Eq, Structural, Hash)]
pub enum Method {
    Get,
    Put,
    Post,
    Delete,
}

} // verus!
