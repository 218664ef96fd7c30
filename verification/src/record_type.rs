use vstd::prelude::*;

verus! {

/// Record ids of the OASIS records that this library writes.
pub struct RecordType {}

impl RecordType {
    pub const PAD: u8 = 0;
    pub const START: u8 = 1;
    pub const END: u8 = 2;
    pub const CELLNAME_IMPL_REF_NUM: u8 = 3;
    pub const CELLNAME: u8 = 4;
    pub const CELL_BY_REFNUM: u8 = 13;
    pub const CELL_BY_NAME: u8 = 14;
    pub const RECTANGLE: u8 = 20;
}

} // verus!
