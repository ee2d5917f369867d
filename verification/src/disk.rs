//! The positioned-read primitive every on-disk structure is decoded
//! through, over the in-memory copy of the image.

use vstd::prelude::*;
use vstd::slice::{slice_subrange, slice_to_vec};

verus! {

/// Reads `len` bytes of the image starting at absolute byte offset
/// `offset`.  Fails exactly when the requested range runs past the end
/// of the image, the in-memory analogue of a short read.
pub fn read_at(img: &[u8], offset: usize, len: usize) -> (r: Option<Vec<u8>>)
    ensures
        match r {
            Some(b) => offset + len <= img@.len() && b@ == img@.subrange(
                offset as int,
                offset + len,
            ),
            None => offset + len > img@.len(),
        },
{
    if len <= img.len() && offset <= img.len() - len {
        let s = slice_subrange(img, offset, offset + len);
        Some(slice_to_vec(s))
    } else {
        None
    }
}

} // verus!
