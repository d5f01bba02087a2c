//! A library for driving a FIX 4.2 session over an abstract byte transport:
//! a streaming tag-value wire codec (parser and writer) and a session engine
//! holding the incoming and outgoing state machines.

pub mod connection;
pub mod fix;
pub mod test_util;
pub mod util;

use vstd::prelude::*;

verus! {

} // verus!
