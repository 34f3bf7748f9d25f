use vstd::prelude::*;

verus! {

/// The pixel that chunk `index` of a `width` by `height` frame holds: its
/// column, and its row counted from the bottom of the image. Chunks run
/// along the top row first, left to right, then down the rows.
pub open spec fn pixel_of(index: int, width: int, height: int) -> (int, int) {
    (index % width, height - 1 - index / width)
}

/// The chunk of a `width` by `height` frame that holds column `x` and row
/// `r` counted from the bottom.
pub open spec fn chunk_of(x: int, r: int, width: int, height: int) -> int {
    (height - 1 - r) * width + x
}

/// The column and the row from the bottom of the pixel that chunk `index`
/// of a `width` by `height` frame holds.
pub fn pixel_position(index: usize, width: u32, height: u32) -> (p: (u32, u32))
    requires
        width > 0,
        index < width * height,
    ensures
        (p.0 as int, p.1 as int) == pixel_of(index as int, width as int, height as int),
        p.0 < width,
        p.1 < height,
{
    let w = width as usize;
    let x = index % w;
    let y = index / w;
    proof {
        let (i, wi, hi) = (index as int, w as int, height as int);
        vstd::arithmetic::div_mod::lemma_fundamental_div_mod(i, wi);
        assert(y < hi) by (nonlinear_arith)
            requires
                i == wi * (y as int) + (x as int),
                0 <= x,
                i < wi * hi,
                wi > 0,
        ;
    }
    (x as u32, height - 1 - (y as u32))
}

/// The bytes of one frame pixel: red, green and blue as given, fully opaque.
pub fn rgba(r: u8, g: u8, b: u8) -> (px: [u8; 4])
    ensures
        px@ == seq![r, g, b, 255u8],
{
    let px = [r, g, b, 255u8];
    assert(px@ =~= seq![r, g, b, 255u8]);
    px
}

/// Every pixel of a `width` by `height` frame is held by exactly one chunk:
/// distinct chunks hold distinct pixels, and each column `x < width` and
/// row `r < height` is held by chunk [`chunk_of`]`(x, r, ..)`.
pub proof fn lemma_pixels_cover_frame(width: int, height: int)
    requires
        width > 0,
        height >= 0,
    ensures
        forall|i: int, j: int|
            0 <= i < width * height && 0 <= j < width * height && #[trigger] pixel_of(
                i,
                width,
                height,
            ) == #[trigger] pixel_of(j, width, height) ==> i == j,
        forall|x: int, r: int|
            0 <= x < width && 0 <= r < height ==> {
                &&& 0 <= #[trigger] chunk_of(x, r, width, height) < width * height
                &&& pixel_of(chunk_of(x, r, width, height), width, height) == (x, r)
            },
{
    assert forall|i: int, j: int|
        0 <= i < width * height && 0 <= j < width * height && #[trigger] pixel_of(
            i,
            width,
            height,
        ) == #[trigger] pixel_of(j, width, height) implies i == j by {
        vstd::arithmetic::div_mod::lemma_fundamental_div_mod(i, width);
        vstd::arithmetic::div_mod::lemma_fundamental_div_mod(j, width);
    }
    assert forall|x: int, r: int| 0 <= x < width && 0 <= r < height implies {
        &&& 0 <= #[trigger] chunk_of(x, r, width, height) < width * height
        &&& pixel_of(chunk_of(x, r, width, height), width, height) == (x, r)
    } by {
        let q = height - 1 - r;
        let i = q * width + x;
        vstd::arithmetic::div_mod::lemma_fundamental_div_mod_converse(i, width, q, x);
        assert(0 <= i < width * height) by (nonlinear_arith)
            requires
                i == q * width + x,
                0 <= q,
                q + 1 <= height,
                0 <= x < width,
        ;
    }
}

/// Chunk `i` holds the pixel whose column is `x` and whose row from the
/// bottom is `r`, both in range, with `i == (height - 1 - r) * width + x`:
/// chunks run left to right along the top row first.
pub proof fn lemma_pixel_of_inverts(i: int, width: int, height: int)
    requires
        width > 0,
        0 <= i < width * height,
    ensures
        0 <= pixel_of(i, width, height).0 < width,
        0 <= pixel_of(i, width, height).1 < height,
        (height - 1 - pixel_of(i, width, height).1) * width + pixel_of(i, width, height).0 == i,
{
    let q = i / width;
    vstd::arithmetic::div_mod::lemma_fundamental_div_mod(i, width);
    assert(0 <= q < height) by (nonlinear_arith)
        requires
            i == width * q + i % width,
            0 <= i % width < width,
            0 <= i < width * height,
            width > 0,
    ;
    assert((height - 1 - (height - 1 - q)) * width + i % width == i) by (nonlinear_arith)
        requires
            i == width * q + i % width,
    ;
}

} // verus!
