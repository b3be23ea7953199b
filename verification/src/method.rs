//! HTTP methods, as plain values the routing logic can reason about.

use vstd::prelude::*;

verus! {

/// An HTTP request method. Route tables are partitioned by method first,
/// so two routes under different methods never interact.
#[derive(Clone, Copy, Debug, PartialEq, Eq, Structural, Hash)]
pub enum Method {
    Get,
    Post,
    Put,
    Delete,
    Head,
    Options,
    Connect,
    Patch,
    Trace,
}

} // verus!
