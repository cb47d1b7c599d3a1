use vstd::prelude::*;

verus! {

/// The kind of number that a tensor holds.
#[derive(Debug, Clone, Copy, PartialEq, Eq, Structural)]
pub enum DataType {
    Float32,
    Float16,
    Int32,
    Int64,
}

} // verus!
