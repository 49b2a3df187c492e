//! Packing a computed row of colours into raster bytes.

use vstd::prelude::*;

verus! {

/// Alpha of every computed pixel: opaque.
pub const OPAQUE: u8 = 0xFF;

/// A colour as red, green and blue.
pub type Rgb = (u8, u8, u8);

/// Byte `k` of the packed row of `colors`: red, green, blue and an opaque
/// alpha for each colour in turn.
pub open spec fn packed_byte(colors: Seq<Rgb>, k: int) -> u8 {
    let c = colors[k / 4];
    if k % 4 == 0 {
        c.0
    } else if k % 4 == 1 {
        c.1
    } else if k % 4 == 2 {
        c.2
    } else {
        OPAQUE
    }
}

/// The raster bytes of a row of `colors`.
pub open spec fn packed(colors: Seq<Rgb>) -> Seq<u8> {
    Seq::new(4 * colors.len(), |k: int| packed_byte(colors, k))
}

/// Packs a row of colours into raster bytes, four per pixel, with every
/// pixel opaque.
pub fn pack_row(colors: &[Rgb]) -> (bytes: Vec<u8>)
    requires
        4 * colors@.len() <= usize::MAX,
    ensures
        bytes@ == packed(colors@),
{
    let n: usize = colors.len();
    let mut bytes: Vec<u8> = Vec::with_capacity(4 * n);
    let mut i: usize = 0;
    while i < n
        invariant
            i <= n,
            n == colors@.len(),
            4 * n <= usize::MAX,
            bytes@.len() == 4 * i,
            forall|k: int| 0 <= k < 4 * i ==> #[trigger] bytes@[k] == packed_byte(colors@, k),
        decreases n - i,
    {
        let c: Rgb = colors[i];
        bytes.push(c.0);
        bytes.push(c.1);
        bytes.push(c.2);
        bytes.push(OPAQUE);
        i += 1;
    }
    assert(bytes@ =~= packed(colors@));
    bytes
}

} // verus!
