//! Reading a rendered frame back to the CPU: a texture copied into a buffer
//! has each row padded to the copy alignment, and the padding has to come
//! off before the pixels can be used.
use vstd::prelude::*;

verus! {

/// The alignment the GPU requires of each row of a texture-to-buffer copy.
pub const COPY_BYTES_PER_ROW_ALIGNMENT: u32 = 256;

/// Bytes per pixel of an RGBA8 frame.
pub const BYTES_PER_PIXEL: u32 = 4;

/// The smallest multiple of `align` that holds a row of `width` RGBA pixels.
pub open spec fn padded_row(width: nat, align: nat) -> nat
    recommends
        align > 0,
{
    (((width * 4 + align - 1) / (align as int)) * align) as nat
}

/// Bytes per row of the readback buffer: the row of `width` RGBA pixels
/// rounded up to a multiple of `align`.
pub fn padded_bytes_per_row(width: u32, align: u32) -> (r: u32)
    requires
        align > 0,
        padded_row(width as nat, align as nat) <= u32::MAX,
    ensures
        r == padded_row(width as nat, align as nat),
        r % align == 0,
        width * 4 <= r < width * 4 + align,
{
    let unpadded = width as u64 * 4;
    let a = align as u64;
    let rows = (unpadded + a - 1) / a;
    let r = rows * a;
    proof {
        let u = unpadded as int;
        let al = a as int;
        let q = rows as int;
        assert(q * al <= u + al - 1 && u + al - 1 < q * al + al) by (nonlinear_arith)
            requires
                q == (u + al - 1) / al,
                al > 0,
                u >= 0,
        ;
        assert((q * al) % al == 0) by (nonlinear_arith)
            requires
                al > 0,
                q >= 0,
        ;
    }
    r as u32
}

/// The size in bytes of a readback buffer of `height` padded rows.
pub fn readback_size(pad_bytes_per_row: u32, height: u32) -> (r: u64)
    ensures
        r == pad_bytes_per_row * height,
{
    proof {
        assert(pad_bytes_per_row * height <= u32::MAX * u32::MAX) by (nonlinear_arith);
    }
    pad_bytes_per_row as u64 * height as u64
}

proof fn lemma_earlier_row(rr: int, row: int, w4: int, c: int)
    by (nonlinear_arith)
    requires
        0 <= rr < row,
        0 <= c < w4,
    ensures
        rr * w4 + c < row * w4,
{
}

proof fn lemma_row_start(row: int, h: int, pad: int)
    by (nonlinear_arith)
    requires
        0 <= row < h,
        pad >= 0,
    ensures
        row * pad <= (h - 1) * pad,
{
}

proof fn lemma_next_row(row: int, w: int)
    by (nonlinear_arith)
    ensures
        (row + 1) * w == row * w + w,
{
}

proof fn lemma_rows_fit(row: int, h: int, w4: int)
    by (nonlinear_arith)
    requires
        0 <= row < h,
        w4 >= 0,
    ensures
        row * w4 + w4 <= h * w4,
{
}

/// Strip the row padding off a readback buffer, keeping each row's
/// `width * 4` bytes of pixels in order.
pub fn unpad_rows(data: &[u8], width: u32, height: u32, pad_bytes_per_row: u32) -> (r: Vec<u8>)
    requires
        width * 4 <= pad_bytes_per_row,
        height > 0 ==> (height - 1) * pad_bytes_per_row + width * 4 <= data@.len(),
        height * (width * 4) <= usize::MAX,
    ensures
        r@.len() == height * (width * 4),
        forall|row: int, col: int|
            0 <= row < height && 0 <= col < width * 4 ==> #[trigger] r@[row * (width * 4) + col]
                == data@[row * pad_bytes_per_row + col],
{
    let w4 = width as usize * 4;
    let pad = pad_bytes_per_row as usize;
    let h = height as usize;
    let mut pixels: Vec<u8> = Vec::new();
    let mut row: usize = 0;
    while row < h
        invariant
            w4 == width * 4,
            pad == pad_bytes_per_row,
            h == height,
            w4 <= pad,
            row <= h,
            h > 0 ==> (h - 1) * pad + w4 <= data@.len(),
            h * w4 <= usize::MAX,
            pixels@.len() == row * w4,
            forall|rr: int, col: int|
                0 <= rr < row && 0 <= col < w4 ==> #[trigger] pixels@[rr * w4 + col] == data@[rr
                    * pad + col],
        decreases h - row,
    {
        proof {
            lemma_row_start(row as int, h as int, pad as int);
            lemma_rows_fit(row as int, h as int, w4 as int);
        }
        assert(data@.len() == data.len());
        let start = row * pad;
        let mut col: usize = 0;
        let ghost before = pixels@;
        while col < w4
            invariant
                w4 <= pad,
                row < h,
                start == row * pad,
                start + w4 <= data@.len(),
                col <= w4,
                before.len() == row * w4,
                pixels@.len() == row * w4 + col,
                row * w4 + w4 <= usize::MAX,
                forall|k: int| 0 <= k < before.len() ==> pixels@[k] == before[k],
                forall|c: int| 0 <= c < col ==> #[trigger] pixels@[row * w4 + c] == data@[start + c],
            decreases w4 - col,
        {
            assert(data@.len() == data.len());
            pixels.push(data[start + col]);
            col = col + 1;
        }
        proof {
            assert forall|rr: int, c: int|
                0 <= rr < row + 1 && 0 <= c < w4 implies #[trigger] pixels@[rr * w4 + c] == data@[rr
                * pad + c] by {
                if rr < row {
                    lemma_earlier_row(rr, row as int, w4 as int, c);
                    assert(pixels@[rr * w4 + c] == before[rr * w4 + c]);
                }
            }
            lemma_next_row(row as int, w4 as int);
        }
        row = row + 1;
    }
    pixels
}

} // verus!
