//! Fix DATs: the name rule used when matching DAT entries to nodes.

use vstd::prelude::*;
use vstd::utf8::*;
use crate::arr_byte::slices_equal;
use crate::text::str_bytes;

verus! {

/// Writer of fix DATs.
pub struct FixDatReport;

impl FixDatReport {
    /// Two logical names are the same.
    pub fn logical_name_eq(left: &str, right: &str) -> (r: bool)
        ensures
            r == (left@ == right@),
    {
        let e = slices_equal(str_bytes(left), str_bytes(right));
        proof {
            encode_utf8_decode_utf8(left@);
            encode_utf8_decode_utf8(right@);
        }
        e
    }
}

} // verus!
