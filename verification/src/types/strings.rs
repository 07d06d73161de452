//! Telling text from other bytes.

use crate::record::utf8_text;
use vstd::prelude::*;
use vstd::slice::{slice_subrange, slice_to_vec};
use vstd::utf8::valid_utf8;

verus! {

/// Whether the bytes are text in UTF-8. Text is read to its end, so that
/// `data` is empty afterwards; other bytes are left where they are.
pub fn is_string(data: &mut &[u8]) -> (r: bool)
    ensures
        r == valid_utf8(old(data)@),
        final(data)@ == if r {
            Seq::<u8>::empty()
        } else {
            old(data)@
        },
{
    let all: &[u8] = *data;
    if utf8_text(slice_to_vec(all)).is_some() {
        *data = slice_subrange(all, all.len(), all.len());
        true
    } else {
        false
    }
}

} // verus!
