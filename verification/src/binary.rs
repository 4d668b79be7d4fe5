//! Values of the binary protocol of the store.

use vstd::prelude::*;

verus! {

/// A value of a parameter in the binary protocol.
#[derive(Debug, PartialEq, Eq)]
pub enum Value {
    Bool(bool),
    Number(u64),
    Text(String),
}

} // verus!
