//! The app mark as an `.ico` file: a directory of 32bpp bottom-up DIBs, one
//! per size, each with an empty AND mask.
//!
//! The raster itself is drawn in floating point by the program; this module
//! takes those pixels and lays out the bytes around them.

use vstd::prelude::*;

verus! {

/// The sizes baked into the `.ico`. 256 is by far the largest entry -- it is
/// what Explorer's extra-large view asks for.
pub const ICO_SIZES: [i32; 9] = [16, 20, 24, 32, 40, 48, 64, 128, 256];

/// `ICO_SIZES`, as the contracts read it.
pub open spec fn ico_sizes() -> Seq<int> {
    seq![16, 20, 24, 32, 40, 48, 64, 128, 256]
}

/// `u16::to_le_bytes`.
pub open spec fn le16(v: int) -> Seq<u8> {
    seq![(v % 256) as u8, (v / 256 % 256) as u8]
}

/// `u32::to_le_bytes`.
pub open spec fn le32(v: int) -> Seq<u8> {
    seq![
        (v % 256) as u8,
        (v / 256 % 256) as u8,
        (v / 65536 % 256) as u8,
        (v / 16777216 % 256) as u8,
    ]
}

/// Bytes per row of a `size`-pixel BGRA image.
pub open spec fn row_len(size: int) -> int {
    size * 4
}

/// Bytes per row of the 1bpp AND mask, padded to a 4-byte boundary.
pub open spec fn mask_row_len(size: int) -> int {
    ((size + 31) / 32) * 4
}

/// `BITMAPINFOHEADER` for a `size`-pixel icon image: the height is doubled
/// because the XOR image is followed by the AND mask.
pub open spec fn dib_header(size: int) -> Seq<u8> {
    le32(40) + le32(size) + le32(size * 2) + le16(1) + le16(32) + le32(0) + le32(size * size * 4)
        + le32(0) + le32(0) + le32(0) + le32(0)
}

/// The last `r` rows of `px`, bottom row first.
pub open spec fn rows_up(px: Seq<u8>, size: int, r: int) -> Seq<u8>
    decreases r,
{
    if r <= 0 {
        Seq::empty()
    } else {
        let y = size - r;
        rows_up(px, size, r - 1) + px.subrange(y * row_len(size), (y + 1) * row_len(size))
    }
}

/// One `.ico` image: the header, the pixel rows bottom-up, and an AND mask of
/// zeros.
pub open spec fn dib_bytes(size: int, px: Seq<u8>) -> Seq<u8> {
    dib_header(size) + rows_up(px, size, size) + Seq::new(
        (mask_row_len(size) * size) as nat,
        |k: int| 0u8,
    )
}

/// The sum of the lengths of `imgs`.
pub open spec fn total(imgs: Seq<Seq<u8>>) -> int
    decreases imgs.len(),
{
    if imgs.len() == 0 {
        0
    } else {
        total(imgs.drop_last()) + imgs.last().len()
    }
}

/// `imgs`, one after the other.
pub open spec fn concat(imgs: Seq<Seq<u8>>) -> Seq<u8>
    decreases imgs.len(),
{
    if imgs.len() == 0 {
        Seq::empty()
    } else {
        concat(imgs.drop_last()) + imgs.last()
    }
}

/// The one-byte width and height field: 256 is written as 0.
pub open spec fn size_byte(size: int) -> u8 {
    if size >= 256 {
        0
    } else {
        size as u8
    }
}

/// One `ICONDIRENTRY`: width, height, no palette, reserved, one plane, 32 bits
/// per pixel, the image's length and where it starts.
pub open spec fn entry(size: int, len: int, offset: int) -> Seq<u8> {
    seq![size_byte(size), size_byte(size), 0u8, 0u8] + le16(1) + le16(32) + le32(len) + le32(
        offset,
    )
}

/// The directory entries for `imgs`, whose data starts at `base`.
pub open spec fn directory(sizes: Seq<int>, imgs: Seq<Seq<u8>>, base: int) -> Seq<u8>
    decreases imgs.len(),
{
    if imgs.len() == 0 {
        Seq::empty()
    } else {
        directory(sizes.drop_last(), imgs.drop_last(), base) + entry(
            sizes.last(),
            imgs.last().len() as int,
            base + total(imgs.drop_last()),
        )
    }
}

/// A whole `.ico`: `ICONDIR` (reserved, type 1 for icon, the count), the
/// directory, then every image.
pub open spec fn ico_bytes(sizes: Seq<int>, imgs: Seq<Seq<u8>>) -> Seq<u8> {
    le16(0) + le16(1) + le16(imgs.len() as int) + directory(sizes, imgs, 6 + 16 * imgs.len() as int)
        + concat(imgs)
}

/// The images of an `.ico` holding `pixels[i]` at `ICO_SIZES[i]`.
pub open spec fn ico_images(pixels: Seq<Vec<u8>>) -> Seq<Seq<u8>> {
    Seq::new(pixels.len(), |i: int| dib_bytes(ico_sizes()[i], pixels[i]@))
}

/// Appends `v`, little-endian.
pub fn push_u16(out: &mut Vec<u8>, v: u16)
    ensures
        final(out)@ == old(out)@ + le16(v as int),
{
    out.push((v % 256) as u8);
    out.push((v / 256) as u8);
    assert(final(out)@ =~= old(out)@ + le16(v as int));
}

/// Appends `v`, little-endian.
pub fn push_u32(out: &mut Vec<u8>, v: u32)
    ensures
        final(out)@ == old(out)@ + le32(v as int),
{
    out.push((v % 256) as u8);
    out.push((v / 256 % 256) as u8);
    out.push((v / 65536 % 256) as u8);
    out.push((v / 16777216) as u8);
    assert(final(out)@ =~= old(out)@ + le32(v as int));
}

proof fn lemma_row_bounds(size: int, y: int)
    requires
        1 <= size <= 256,
        0 <= y < size,
    ensures
        0 <= y * (size * 4),
        (y + 1) * (size * 4) <= size * size * 4,
        size * size * 4 <= 262144,
        y * (size * 4) + size * 4 <= size * size * 4,
        (y + 1) * (size * 4) == y * (size * 4) + size * 4,
        ((size + 31) / 32) * 4 * size <= 8192,
{
    assert(0 <= y * (size * 4)) by (nonlinear_arith)
        requires
            0 <= y,
            1 <= size,
    ;
    assert((y + 1) * (size * 4) <= size * (size * 4)) by (nonlinear_arith)
        requires
            y + 1 <= size,
            1 <= size,
    ;
    assert(size * (size * 4) == size * size * 4) by (nonlinear_arith);
    assert(size * size * 4 <= 262144) by (nonlinear_arith)
        requires
            1 <= size <= 256,
    ;
    assert(y * (size * 4) + size * 4 == (y + 1) * (size * 4)) by (nonlinear_arith);
    let q = (size + 31) / 32;
    assert(0 <= q <= 8);
    assert(q * 4 * size <= 8192) by (nonlinear_arith)
        requires
            1 <= size <= 256,
            0 <= q <= 8,
    ;
}

/// One icon image: a 32bpp bottom-up DIB with an empty AND mask, which is what
/// an `.ico` entry holds. `px` is the `size` x `size` BGRA raster, top row
/// first.
pub fn dib(size: i32, px: &Vec<u8>) -> (out: Vec<u8>)
    requires
        1 <= size <= 256,
        px@.len() == size * size * 4,
    ensures
        out@ == dib_bytes(size as int, px@),
        out@.len() == 40 + size * size * 4 + mask_row_len(size as int) * size,
{
    proof {
        lemma_row_bounds(size as int, 0);
    }
    let s = size as u32;
    let row = (size * 4) as usize;
    let mut out: Vec<u8> = Vec::new();
    push_u32(&mut out, 40);
    push_u32(&mut out, s);
    push_u32(&mut out, s * 2);
    push_u16(&mut out, 1);
    push_u16(&mut out, 32);
    push_u32(&mut out, 0);
    push_u32(&mut out, s * s * 4);
    assert(out@ =~= out@ + Seq::new(0, |k: int| 0u8));
    let mut z: u32 = 0;
    while z < 4
        invariant
            0 <= z <= 4,
            out@ == le32(40) + le32(s as int) + le32(s * 2) + le16(1) + le16(32) + le32(0)
                + le32(s * s * 4) + Seq::new(4 * z as nat, |k: int| 0u8),
        decreases 4 - z,
    {
        push_u32(&mut out, 0);
        assert(le32(0) =~= Seq::new(4, |k: int| 0u8));
        z += 1;
    }
    let ghost header = out@;
    assert(header =~= dib_header(size as int));
    let mut r: usize = 0;
    while r < size as usize
        invariant
            1 <= size <= 256,
            row == size * 4,
            px@.len() == size * size * 4,
            0 <= r <= size,
            header == dib_header(size as int),
            out@ == header + rows_up(px@, size as int, r as int),
        decreases size - r,
    {
        let y = size as usize - 1 - r;
        proof {
            lemma_row_bounds(size as int, y as int);
        }
        let start = y * row;
        let mut k: usize = 0;
        while k < row
            invariant
                1 <= size <= 256,
                row == size * 4,
                px@.len() == size * size * 4,
                0 <= r < size,
                y == size - 1 - r,
                start == y * row,
                start + row <= px@.len(),
                px@.len() <= 262144,
                0 <= k <= row,
                out@ == header + rows_up(px@, size as int, r as int) + px@.subrange(
                    start as int,
                    start + k,
                ),
            decreases row - k,
        {
            out.push(px[start + k]);
            assert(px@.subrange(start as int, start + k + 1) =~= px@.subrange(
                start as int,
                start + k,
            ).push(px@[start + k]));
            k += 1;
        }
        assert(rows_up(px@, size as int, r + 1) =~= rows_up(px@, size as int, r as int)
            + px@.subrange(start as int, start + row));
        r += 1;
    }
    let mask = ((size as usize + 31) / 32) * 4 * size as usize;
    let ghost body = out@;
    let mut m: usize = 0;
    while m < mask
        invariant
            0 <= m <= mask,
            out@ == body + Seq::new(m as nat, |k: int| 0u8),
        decreases mask - m,
    {
        out.push(0);
        assert(Seq::new((m + 1) as nat, |k: int| 0u8) =~= Seq::new(m as nat, |k: int| 0u8).push(
            0u8,
        ));
        m += 1;
    }
    proof {
        lemma_rows_up_len(px@, size as int, size as int);
    }
    assert(out@ =~= dib_bytes(size as int, px@));
    out
}

proof fn lemma_rows_up_len(px: Seq<u8>, size: int, r: int)
    requires
        1 <= size <= 256,
        0 <= r <= size,
        px.len() == size * size * 4,
    ensures
        rows_up(px, size, r).len() == r * size * 4,
    decreases r,
{
    if r > 0 {
        lemma_rows_up_len(px, size, r - 1);
        let y = size - r;
        lemma_row_bounds(size, y);
        assert((r - 1) * size * 4 + size * 4 == r * size * 4) by (nonlinear_arith);
        let piece = px.subrange(y * row_len(size), (y + 1) * row_len(size));
        assert(piece.len() == size * 4);
        assert(rows_up(px, size, r) == rows_up(px, size, r - 1) + piece);
    } else {
        assert(r * size * 4 == 0) by (nonlinear_arith)
            requires
                r == 0,
        ;
    }
}

proof fn lemma_rows_up_index(px: Seq<u8>, size: int, r: int, y: int, k: int)
    requires
        1 <= size <= 256,
        px.len() == size * size * 4,
        0 <= y < r <= size,
        0 <= k < size * 4,
    ensures
        0 <= y * (size * 4) + k < rows_up(px, size, r).len(),
        0 <= (size - 1 - y) * (size * 4) + k < px.len(),
        rows_up(px, size, r)[y * (size * 4) + k] == px[(size - 1 - y) * (size * 4) + k],
    decreases r,
{
    lemma_rows_up_len(px, size, r);
    lemma_rows_up_len(px, size, r - 1);
    lemma_row_bounds(size, y);
    lemma_row_bounds(size, size - 1 - y);
    let front = rows_up(px, size, r - 1);
    let piece = px.subrange((size - r) * row_len(size), (size - r + 1) * row_len(size));
    lemma_row_bounds(size, size - r);
    assert(rows_up(px, size, r) == front + piece);
    assert(r * size * 4 == r * (size * 4)) by (nonlinear_arith);
    assert((r - 1) * size * 4 == (r - 1) * (size * 4)) by (nonlinear_arith);
    assert(y * (size * 4) + k < r * (size * 4)) by (nonlinear_arith)
        requires
            y + 1 <= r,
            0 <= k < size * 4,
    ;
    if y < r - 1 {
        lemma_rows_up_index(px, size, r - 1, y, k);
        assert(y * (size * 4) + k < (r - 1) * (size * 4)) by (nonlinear_arith)
            requires
                y + 1 <= r - 1,
                0 <= k < size * 4,
        ;
    } else {
        assert(y * (size * 4) == (r - 1) * (size * 4));
    }
}

/// An `.ico` image holds its raster bottom-up: after the 40-byte header, row
/// `y` of the image is row `size - 1 - y` of the raster, and every byte of the
/// AND mask that follows is zero.
pub proof fn law_dib_rows_run_bottom_up(size: int, px: Seq<u8>, y: int, k: int, m: int)
    requires
        1 <= size <= 256,
        px.len() == size * size * 4,
        0 <= y < size,
        0 <= k < size * 4,
        0 <= m < mask_row_len(size) * size,
    ensures
        dib_bytes(size, px).len() == 40 + size * size * 4 + mask_row_len(size) * size,
        dib_bytes(size, px)[40 + y * (size * 4) + k] == px[(size - 1 - y) * (size * 4) + k],
        dib_bytes(size, px)[40 + size * size * 4 + m] == 0,
{
    lemma_rows_up_len(px, size, size);
    lemma_rows_up_index(px, size, size, y, k);
    let head = dib_header(size);
    assert(head.len() == 40);
    let rows = rows_up(px, size, size);
    let mask = Seq::new((mask_row_len(size) * size) as nat, |q: int| 0u8);
    lemma_row_bounds(size, 0);
    assert(dib_bytes(size, px) == head + rows + mask);
    assert((head + rows)[40 + y * (size * 4) + k] == rows[y * (size * 4) + k]);
    assert((head + rows + mask)[40 + size * size * 4 + m] == mask[m]);
}

/// The little-endian `u32` stored at `b[i..i + 4]`.
pub open spec fn u32_at(b: Seq<u8>, i: int) -> int {
    b[i] as int + 256 * b[i + 1] as int + 65536 * b[i + 2] as int + 16777216 * b[i + 3] as int
}

/// The little-endian `u16` stored at `b[i..i + 2]`.
pub open spec fn u16_at(b: Seq<u8>, i: int) -> int {
    b[i] as int + 256 * b[i + 1] as int
}

proof fn lemma_le32_reads_back(v: int)
    requires
        0 <= v < 0x1_0000_0000,
    ensures
        u32_at(le32(v), 0) == v,
{
    let b0 = v % 256;
    let q1 = v / 256;
    let b1 = q1 % 256;
    let q2 = q1 / 256;
    let b2 = q2 % 256;
    let q3 = q2 / 256;
    assert(v == 256 * q1 + b0 && 0 <= b0 < 256) by (nonlinear_arith)
        requires b0 == v % 256, q1 == v / 256, v >= 0;
    assert(q1 == 256 * q2 + b1 && 0 <= b1 < 256) by (nonlinear_arith)
        requires b1 == q1 % 256, q2 == q1 / 256, q1 >= 0;
    assert(q2 == 256 * q3 + b2 && 0 <= b2 < 256) by (nonlinear_arith)
        requires b2 == q2 % 256, q3 == q2 / 256, q2 >= 0;
    assert(v / 65536 == q2) by (nonlinear_arith)
        requires q1 == v / 256, q2 == q1 / 256, v >= 0;
    assert(v / 16777216 == q3) by (nonlinear_arith)
        requires q1 == v / 256, q2 == q1 / 256, q3 == q2 / 256, v >= 0;
    assert(0 <= q3 < 256) by (nonlinear_arith)
        requires v == 256 * q1 + b0, q1 == 256 * q2 + b1, q2 == 256 * q3 + b2, 0 <= b0 < 256,
            0 <= b1 < 256, 0 <= b2 < 256, 0 <= v < 0x1_0000_0000;
    assert(q3 % 256 == q3);
}

proof fn lemma_le16_reads_back(v: int)
    requires
        0 <= v < 0x1_0000,
    ensures
        u16_at(le16(v), 0) == v,
{
    let b0 = v % 256;
    let q1 = v / 256;
    assert(v == 256 * q1 + b0 && 0 <= b0 < 256) by (nonlinear_arith)
        requires b0 == v % 256, q1 == v / 256, v >= 0;
    assert(0 <= q1 < 256) by (nonlinear_arith)
        requires v == 256 * q1 + b0, 0 <= b0 < 256, 0 <= v < 0x1_0000;
    assert(q1 % 256 == q1);
}

/// What the header of an `.ico` image reads: its own length 40, the width
/// `size`, the height `2 * size` -- the XOR image with the AND mask under it --
/// one plane, 32 bits per pixel, no compression, `size * size * 4` bytes of
/// pixels, and zeros for the rest.
pub proof fn law_the_dib_header_reads_back(size: int, px: Seq<u8>, k: int)
    requires
        1 <= size <= 256,
        px.len() == size * size * 4,
        24 <= k < 40,
    ensures
        u32_at(dib_bytes(size, px), 0) == 40,
        u32_at(dib_bytes(size, px), 4) == size,
        u32_at(dib_bytes(size, px), 8) == 2 * size,
        u16_at(dib_bytes(size, px), 12) == 1,
        u16_at(dib_bytes(size, px), 14) == 32,
        u32_at(dib_bytes(size, px), 16) == 0,
        u32_at(dib_bytes(size, px), 20) == size * size * 4,
        dib_bytes(size, px)[k] == 0,
{
    lemma_row_bounds(size, 0);
    let d = dib_bytes(size, px);
    let h = dib_header(size);
    assert(h.len() == 40);
    assert forall|i: int| 0 <= i < 40 implies d[i] == h[i] by {}
    lemma_le32_reads_back(40);
    lemma_le32_reads_back(size);
    lemma_le32_reads_back(size * 2);
    lemma_le16_reads_back(1);
    lemma_le16_reads_back(32);
    lemma_le32_reads_back(0);
    lemma_le32_reads_back(size * size * 4);
    assert(h.subrange(0, 4) =~= le32(40));
    assert(h.subrange(4, 8) =~= le32(size));
    assert(h.subrange(8, 12) =~= le32(size * 2));
    assert(h.subrange(12, 14) =~= le16(1));
    assert(h.subrange(14, 16) =~= le16(32));
    assert(h.subrange(16, 20) =~= le32(0));
    assert(h.subrange(20, 24) =~= le32(size * size * 4));
    assert(h.subrange(24, 40) =~= Seq::new(16, |i: int| 0u8));
    assert(d[k] == h.subrange(24, 40)[k - 24]);
}

proof fn lemma_concat_len(imgs: Seq<Seq<u8>>)
    ensures
        concat(imgs).len() == total(imgs),
    decreases imgs.len(),
{
    if imgs.len() > 0 {
        lemma_concat_len(imgs.drop_last());
    }
}

/// Every size, as a single `.ico` file. `pixels[i]` is the raster drawn at
/// `ICO_SIZES[i]`.
pub fn ico(pixels: &Vec<Vec<u8>>) -> (out: Vec<u8>)
    requires
        pixels@.len() == 9,
        forall|i: int|
            0 <= i < 9 ==> (#[trigger] pixels@[i])@.len() == ico_sizes()[i] * ico_sizes()[i] * 4,
    ensures
        out@ == ico_bytes(ico_sizes(), ico_images(pixels@)),
{
    let sizes: [i32; 9] = [16, 20, 24, 32, 40, 48, 64, 128, 256];
    assert(sizes@ =~= ico_sizes().map_values(|v: int| v as i32));
    let ghost imgs_all = ico_images(pixels@);
    let mut images: Vec<Vec<u8>> = Vec::new();
    let mut i: usize = 0;
    while i < 9
        invariant
            0 <= i <= 9,
            pixels@.len() == 9,
            sizes@ == ico_sizes().map_values(|v: int| v as i32),
            forall|j: int|
                0 <= j < 9 ==> (#[trigger] pixels@[j])@.len() == ico_sizes()[j] * ico_sizes()[j]
                    * 4,
            images@.len() == i,
            imgs_all == ico_images(pixels@),
            forall|j: int| 0 <= j < i ==> (#[trigger] images@[j])@ == imgs_all[j],
            forall|j: int| 0 <= j < i ==> (#[trigger] images@[j])@.len() <= 270376,
        decreases 9 - i,
    {
        let s = sizes[i];
        assert(s == ico_sizes()[i as int]);
        proof {
            lemma_row_bounds(s as int, 0);
        }
        let d = dib(s, &pixels[i]);
        images.push(d);
        i += 1;
    }
    let ghost imgs = Seq::new(9, |j: int| images@[j]@);
    assert(imgs =~= imgs_all);
    let mut out: Vec<u8> = Vec::new();
    push_u16(&mut out, 0);
    push_u16(&mut out, 1);
    push_u16(&mut out, 9);
    let mut offset: u32 = 6 + 16 * 9;
    let mut k: usize = 0;
    while k < 9
        invariant
            0 <= k <= 9,
            sizes@ == ico_sizes().map_values(|v: int| v as i32),
            images@.len() == 9,
            imgs == Seq::new(9, |j: int| images@[j]@),
            forall|j: int| 0 <= j < 9 ==> (#[trigger] images@[j])@.len() <= 270376,
            offset == 6 + 16 * 9 + total(imgs.take(k as int)),
            total(imgs.take(k as int)) <= 270376 * k,
            out@ == le16(0) + le16(1) + le16(9) + directory(
                ico_sizes().take(k as int),
                imgs.take(k as int),
                150int,
            ),
        decreases 9 - k,
    {
        let s = sizes[k];
        let len = images[k].len();
        let b: u8 = if s >= 256 {
            0
        } else {
            s as u8
        };
        out.push(b);
        out.push(b);
        out.push(0);
        out.push(0);
        push_u16(&mut out, 1);
        push_u16(&mut out, 32);
        push_u32(&mut out, len as u32);
        push_u32(&mut out, offset);
        proof {
            assert(imgs.take(k + 1).drop_last() =~= imgs.take(k as int));
            assert(ico_sizes().take(k + 1).drop_last() =~= ico_sizes().take(k as int));
            assert(imgs.take(k + 1).last() == images@[k as int]@);
        }
        assert(out@ =~= le16(0) + le16(1) + le16(9) + directory(
            ico_sizes().take(k + 1),
            imgs.take(k + 1),
            150int,
        ));
        offset = offset + len as u32;
        k += 1;
    }
    assert(imgs.take(9) =~= imgs);
    assert(ico_sizes().take(9) =~= ico_sizes());
    let ghost head = out@;
    let mut j: usize = 0;
    while j < 9
        invariant
            0 <= j <= 9,
            images@.len() == 9,
            imgs == Seq::new(9, |q: int| images@[q]@),
            out@ == head + concat(imgs.take(j as int)),
        decreases 9 - j,
    {
        let img = &images[j];
        let ghost before = out@;
        let mut q: usize = 0;
        while q < img.len()
            invariant
                0 <= q <= img@.len(),
                out@ == before + img@.subrange(0, q as int),
            decreases img@.len() - q,
        {
            out.push(img[q]);
            assert(img@.subrange(0, q + 1) =~= img@.subrange(0, q as int).push(img@[q as int]));
            q += 1;
        }
        assert(img@.subrange(0, img@.len() as int) =~= img@);
        assert(imgs.take(j + 1).drop_last() =~= imgs.take(j as int));
        assert(out@ =~= head + concat(imgs.take(j + 1)));
        j += 1;
    }
    assert(out@ =~= ico_bytes(ico_sizes(), ico_images(pixels@)));
    out
}

} // verus!
