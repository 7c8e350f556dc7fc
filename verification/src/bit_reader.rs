use vstd::prelude::*;

verus! {

/// Reads back values packed by a `Writer`.
#[derive(Debug)]
pub struct Reader {
    pub packed: Vec<u8>,
}

/// Why a read was refused.
#[derive(Debug)]
pub enum ReaderError {
    InvalidBitcount(u8),
}

impl Reader {
    /// A reader over `packed`.
    pub fn new(packed: Vec<u8>) -> (r: Self)
        ensures
            r.packed@ == packed@,
    {
        Reader { packed }
    }
}

} // verus!
