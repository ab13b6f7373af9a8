//! Row layout of device readback buffers.
//!
//! A texture-to-buffer copy writes every image row at a stride that is a
//! multiple of the device's copy alignment. Image encoders want tightly
//! packed rows, so the padding at the end of each row is dropped again.

use vstd::prelude::*;

verus! {

/// Minimum alignment, in bytes, of the row stride of a texture-to-buffer copy.
pub const COPY_BYTES_PER_ROW_ALIGNMENT: usize = 256;

/// `row_bytes` rounded up to the next multiple of the copy alignment.
pub open spec fn aligned_row_bytes(row_bytes: nat) -> nat {
    ((row_bytes + 255) / 256 * 256) as nat
}

/// Rounds a row's byte width up to the device's copy alignment.
pub fn align_copy_bytes_per_row(row_bytes: usize) -> (r: usize)
    requires
        row_bytes + 255 <= usize::MAX,
    ensures
        r == aligned_row_bytes(row_bytes as nat),
        r % 256 == 0,
        row_bytes <= r < row_bytes + 256,
{
    let over_aligned = row_bytes + (COPY_BYTES_PER_ROW_ALIGNMENT - 1);
    over_aligned / COPY_BYTES_PER_ROW_ALIGNMENT * COPY_BYTES_PER_ROW_ALIGNMENT
}

/// Smaller of two numbers.
pub open spec fn min_nat(a: nat, b: nat) -> nat {
    if a <= b {
        a
    } else {
        b
    }
}

/// Number of `aligned`-sized chunks that `len` bytes split into, the last
/// one possibly shorter.
pub open spec fn chunk_count(len: nat, aligned: nat) -> nat
    recommends
        aligned > 0,
{
    len / aligned + if len % aligned != 0 {
        1nat
    } else {
        0nat
    }
}

/// Bytes kept of row `row`: the start of the row's chunk, at most `natural` bytes of it.
pub open spec fn kept_row(data: Seq<u8>, natural: nat, aligned: nat, row: nat) -> Seq<u8> {
    let start = row * aligned;
    let chunk_len = min_nat(aligned, (data.len() - start) as nat);
    data.subrange(start as int, (start + min_nat(natural, chunk_len)) as int)
}

/// The kept bytes of rows `0` to `rows - 1`, in row order.
pub open spec fn kept_rows(data: Seq<u8>, natural: nat, aligned: nat, rows: nat) -> Seq<u8>
    decreases rows,
{
    if rows == 0 {
        Seq::empty()
    } else {
        kept_rows(data, natural, aligned, (rows - 1) as nat) + kept_row(
            data,
            natural,
            aligned,
            (rows - 1) as nat,
        )
    }
}

/// Tightly packed image from a readback buffer whose rows are `aligned`
/// bytes apart and `natural` bytes wide: the buffer itself where the two
/// widths agree, else the first `natural` bytes of each of at most `height`
/// rows.
pub open spec fn depadded(data: Seq<u8>, natural: nat, aligned: nat, height: nat) -> Seq<u8> {
    if natural == aligned {
        data
    } else {
        kept_rows(data, natural, aligned, min_nat(height, chunk_count(data.len(), aligned)))
    }
}

proof fn lemma_chunk_start(len: nat, aligned: nat, row: nat)
    requires
        aligned > 0,
        row < chunk_count(len, aligned),
    ensures
        row * aligned < len,
{
    let q = len / aligned;
    let m = len % aligned;
    assert(len == q * aligned + m) by (nonlinear_arith)
        requires
            aligned > 0,
            q == len / aligned,
            m == len % aligned,
    ;
    if m != 0 {
        assert(row * aligned <= q * aligned) by (nonlinear_arith)
            requires
                row <= q,
        ;
    } else {
        assert(row * aligned + aligned <= q * aligned) by (nonlinear_arith)
            requires
                row + 1 <= q,
        ;
    }
}

/// Drops the row padding of a readback buffer: `natural_row_bytes` of each
/// row are pixels and the rest, up to `aligned_row_bytes`, is padding. Rows
/// that the buffer is too short for are left out.
pub fn depad_rows(
    data: &[u8],
    natural_row_bytes: usize,
    aligned_row_bytes: usize,
    height: usize,
) -> (r: Vec<u8>)
    requires
        natural_row_bytes != aligned_row_bytes ==> aligned_row_bytes > 0,
    ensures
        r@ == depadded(data@, natural_row_bytes as nat, aligned_row_bytes as nat, height as nat),
        natural_row_bytes == aligned_row_bytes ==> r@ == data@,
{
    if natural_row_bytes == aligned_row_bytes {
        return vstd::slice::slice_to_vec(data);
    }
    let len = data.len();
    assert(len % aligned_row_bytes != 0 ==> len / aligned_row_bytes < len) by (nonlinear_arith)
        requires
            aligned_row_bytes > 0,
    ;
    let chunks = len / aligned_row_bytes + if len % aligned_row_bytes != 0 {
        1
    } else {
        0
    };
    let rows = if height < chunks {
        height
    } else {
        chunks
    };
    let ghost natural = natural_row_bytes as nat;
    let ghost aligned = aligned_row_bytes as nat;
    let mut out: Vec<u8> = Vec::new();
    for row in 0..rows
        invariant
            len == data@.len(),
            aligned > 0,
            natural == natural_row_bytes,
            aligned == aligned_row_bytes,
            chunks == chunk_count(len as nat, aligned),
            rows <= chunks,
            out@ == kept_rows(data@, natural, aligned, row as nat),
    {
        proof {
            lemma_chunk_start(len as nat, aligned, row as nat);
        }
        let start = row * aligned_row_bytes;
        let rest = len - start;
        let chunk_len = if aligned_row_bytes <= rest {
            aligned_row_bytes
        } else {
            rest
        };
        let keep = if natural_row_bytes <= chunk_len {
            natural_row_bytes
        } else {
            chunk_len
        };
        let ghost before = out@;
        for k in 0..keep
            invariant
                len == data@.len(),
                start + keep <= len,
                out@ == before + data@.subrange(start as int, start + k),
        {
            out.push(data[start + k]);
            assert(data@.subrange(start as int, start + k + 1) =~= data@.subrange(
                start as int,
                start + k,
            ).push(data@[start + k]));
        }
    }
    out
}

/// Tightly packed pixels of a frame of `height` rows of `width` pixels of
/// `bytes_per_pixel` bytes, read back with rows at the device's copy stride.
pub fn depad_frame(frame: &[u8], width: u32, height: u32, bytes_per_pixel: u32) -> (r: Vec<u8>)
    requires
        width as nat * bytes_per_pixel as nat + 255 <= usize::MAX,
    ensures
        r@ == depadded(
            frame@,
            width as nat * bytes_per_pixel as nat,
            aligned_row_bytes(width as nat * bytes_per_pixel as nat),
            height as nat,
        ),
{
    let natural = width as usize * bytes_per_pixel as usize;
    let aligned = align_copy_bytes_per_row(natural);
    depad_rows(frame, natural, aligned, height as usize)
}

/// Row stride, in bytes, of a copy of a texture `width` texels wide into a
/// readback buffer, for a format of blocks `block_width` texels wide and
/// `block_size` bytes large: the bytes of a row of whole blocks, rounded up
/// to the copy alignment. `None` where that stride is zero or does not fit
/// in `u32`, and no copy can be described.
pub fn copy_bytes_per_row(width: u32, block_width: u32, block_size: u32) -> (r: Option<u32>)
    requires
        block_width > 0,
    ensures
        ({
            let stride = aligned_row_bytes((width / block_width) as nat * block_size as nat);
            r == if 0 < stride <= u32::MAX {
                Some(stride as u32)
            } else {
                None
            }
        }),
{
    let blocks = (width / block_width) as u64;
    assert(blocks * (block_size as u64) <= 0xffff_fffe_0000_0001u64) by (nonlinear_arith)
        requires
            blocks <= 0xffff_ffffu64,
            block_size <= 0xffff_ffffu32,
    ;
    let row_bytes = blocks * block_size as u64;
    let stride = (row_bytes + 255) / 256 * 256;
    if stride == 0 || stride > u32::MAX as u64 {
        None
    } else {
        Some(stride as u32)
    }
}

/// Size, in bytes, of a readback buffer for a frame of `height` rows of
/// `width` pixels of `bytes_per_pixel` bytes, each row at the copy stride.
/// `None` where that size does not fit in `u64`.
pub fn readback_buffer_size(width: u32, height: u32, bytes_per_pixel: u32) -> (r: Option<u64>)
    ensures
        ({
            let size = aligned_row_bytes(width as nat * bytes_per_pixel as nat) * height as nat;
            r == if size <= u64::MAX {
                Some(size as u64)
            } else {
                None
            }
        }),
{
    assert((width as u64) * (bytes_per_pixel as u64) <= 0xffff_fffe_0000_0001u64) by (nonlinear_arith)
        requires
            width <= 0xffff_ffffu32,
            bytes_per_pixel <= 0xffff_ffffu32,
    ;
    let row_bytes = width as u64 * bytes_per_pixel as u64;
    let stride = (row_bytes + 255) / 256 * 256;
    assert((stride as u128) * (height as u128) <= 0xffff_ffff_ffff_ffffu128 * 0xffff_ffffu128)
        by (nonlinear_arith)
        requires
            stride <= 0xffff_ffff_ffff_ffffu64,
            height <= 0xffff_ffffu32,
    ;
    let size = stride as u128 * height as u128;
    if size <= u64::MAX as u128 {
        Some(size as u64)
    } else {
        None
    }
}

/// The `width` bytes of row `row` of `s`, whose rows are `stride` bytes apart.
pub open spec fn row_prefix(s: Seq<u8>, stride: nat, row: nat, width: nat) -> Seq<u8> {
    s.subrange((row * stride) as int, (row * stride + width) as int)
}

proof fn lemma_kept_rows_packed(data: Seq<u8>, natural: nat, aligned: nat, height: nat, k: nat)
    requires
        aligned > natural,
        data.len() >= aligned * height,
        k <= height,
    ensures
        kept_rows(data, natural, aligned, k).len() == natural * k,
        forall|r: nat|
            r < k ==> #[trigger] row_prefix(kept_rows(data, natural, aligned, k), natural, r, natural)
                == row_prefix(data, aligned, r, natural),
    decreases k,
{
    if k > 0 {
        let j = (k - 1) as nat;
        lemma_kept_rows_packed(data, natural, aligned, height, j);
        let prev = kept_rows(data, natural, aligned, j);
        let cur = kept_rows(data, natural, aligned, k);
        assert(j * aligned + aligned <= aligned * height) by (nonlinear_arith)
            requires
                j < height,
        ;
        assert(kept_row(data, natural, aligned, j) == row_prefix(data, aligned, j, natural));
        assert(natural * j + natural == natural * k) by (nonlinear_arith)
            requires
                k == j + 1,
        ;
        assert forall|r: nat| r < k implies #[trigger] row_prefix(cur, natural, r, natural)
            == row_prefix(data, aligned, r, natural) by {
            if r < j {
                assert(r * natural + natural <= natural * j) by (nonlinear_arith)
                    requires
                        r < j,
                ;
                assert(row_prefix(cur, natural, r, natural) =~= row_prefix(prev, natural, r, natural));
            } else {
                assert(r * natural == natural * j) by (nonlinear_arith)
                    requires
                        r == j,
                ;
                assert(row_prefix(cur, natural, r, natural) =~= kept_row(data, natural, aligned, j));
            }
        }
    }
}

/// Where every row is padded and the buffer holds at least `height` full
/// rows, depadding yields exactly `natural * height` bytes, and row `r` of
/// the result is the first `natural` bytes of row `r` of the buffer.
pub proof fn depadding_keeps_row_prefixes(data: Seq<u8>, natural: nat, aligned: nat, height: nat)
    requires
        aligned > natural,
        data.len() >= aligned * height,
    ensures
        depadded(data, natural, aligned, height).len() == natural * height,
        forall|r: nat|
            r < height ==> #[trigger] row_prefix(
                depadded(data, natural, aligned, height),
                natural,
                r,
                natural,
            ) == row_prefix(data, aligned, r, natural),
{
    let len = data.len();
    assert(len / aligned >= height) by (nonlinear_arith)
        requires
            aligned > 0,
            len >= aligned * height,
    ;
    assert(min_nat(height, chunk_count(len, aligned)) == height);
    lemma_kept_rows_packed(data, natural, aligned, height, height);
}

} // verus!
