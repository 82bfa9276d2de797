//! The byte format of the language-binding layer: field elements travel as
//! fixed-width encodings.

use vstd::prelude::*;

use crate::partition::copy_range;

verus! {

/// The width in bytes of an encoded field element.
pub const FIELD_ELEMENT_BYTES: usize = 32;

/// Why a byte buffer is not a sequence of encoded field elements.
#[derive(Debug, Clone, Copy, PartialEq, Eq, Structural)]
pub enum FormatError {
    NotMultiple { len: usize, width: usize },
}

/// Cuts `bytes` into encodings of `width` bytes each, in order; a length that is
/// not a multiple of `width` is a format error.
pub fn split_field_elements(bytes: &Vec<u8>, width: usize) -> (r: Result<Vec<Vec<u8>>, FormatError>)
    requires
        width > 0,
    ensures
        r is Ok <==> bytes@.len() % width as nat == 0,
        r matches Err(e) ==> e == (FormatError::NotMultiple { len: bytes@.len() as usize, width }),
        r matches Ok(chunks) ==> chunks@.len() * width == bytes@.len() && forall|i: int|
            0 <= i < chunks@.len() ==> (#[trigger] chunks@[i])@ == bytes@.subrange(i * width, (i + 1) * width),
{
    if bytes.len() % width != 0 {
        return Err(FormatError::NotMultiple { len: bytes.len(), width });
    }
    let n = bytes.len() / width;
    let mut chunks: Vec<Vec<u8>> = Vec::new();
    let mut i: usize = 0;
    while i < n
        invariant
            width > 0,
            n == bytes.len() / width,
            bytes.len() % width == 0,
            i <= n,
            chunks@.len() == i,
            forall|k: int|
                0 <= k < i ==> (#[trigger] chunks@[k])@ == bytes@.subrange(k * width, (k + 1) * width),
        decreases n - i,
    {
        proof {
            assert(i * width + width <= n * width) by (nonlinear_arith)
                requires
                    i < n,
            ;
            assert(n * width == bytes.len()) by (nonlinear_arith)
                requires
                    n == bytes.len() / width,
                    bytes.len() % width == 0,
                    width > 0,
            ;
            assert((i + 1) * width == i * width + width) by (nonlinear_arith);
        }
        chunks.push(copy_range(bytes, i * width, i * width + width));
        i = i + 1;
    }
    proof {
        assert(n * width == bytes.len()) by (nonlinear_arith)
            requires
                n == bytes.len() / width,
                bytes.len() % width == 0,
                width > 0,
        ;
    }
    Ok(chunks)
}

} // verus!
