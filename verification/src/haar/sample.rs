//! Gathering a strip's blocks from a pixel source, and the strip encoder on top of it.

use vstd::prelude::*;

use crate::error::Error;
use crate::haar::geometry::{Geometry, STRIP_BLOCKS};
use crate::haar::strip;
use crate::haar::strip::{Block, ColourBlock, colour_block, colour_strip};
use crate::haar::transform;
use crate::haar::transform::{SAMPLE_LIMIT, colour};

verus! {

/// The three planes of a list of pixels, as `(Y, Cb, Cr)` per pixel.
pub open spec fn planes_of(pixels: Seq<(u16, u16, u16)>, i: int) -> (int, int, int) {
    transform::colour_spec(pixels[i].0 as int, pixels[i].1 as int, pixels[i].2 as int)
}

/// The quantised block of 64 pixels in row-major order.
#[verifier::opaque]
pub open spec fn block_of_pixels(pixels: Seq<(u16, u16, u16)>) -> Block {
    strip::block_of(
        Seq::new(64, |i: int| planes_of(pixels, i).2),
        Seq::new(64, |i: int| planes_of(pixels, i).1),
        Seq::new(64, |i: int| planes_of(pixels, i).0),
    )
}

/// Where sample `i` of block `k` lies in a strip whose top-left pixel is `(ox, oy)`: blocks run
/// across the strip and then down, samples across the block and then down.
pub open spec fn sample_x(g: Geometry, ox: int, k: int, i: int) -> int {
    ox + 8 * (k % g.across()) + i % 8
}

/// The row of sample `i` of block `k`; see [`sample_x`].
pub open spec fn sample_y(g: Geometry, oy: int, k: int, i: int) -> int {
    oy + 8 * (k / g.across()) + i / 8
}

/// Block `k` of the strip at `(ox, oy)` of an image.
pub open spec fn block_at(
    g: Geometry,
    image: spec_fn(int, int) -> (u16, u16, u16),
    ox: int,
    oy: int,
    k: int,
) -> Block {
    block_of_pixels(
        Seq::new(64, |i: int| image(sample_x(g, ox, k, i), sample_y(g, oy, k, i))),
    )
}

/// The sixteen blocks of the strip at `(ox, oy)` of an image.
pub open spec fn blocks_at(
    g: Geometry,
    image: spec_fn(int, int) -> (u16, u16, u16),
    ox: int,
    oy: int,
) -> Seq<Block> {
    Seq::new(16, |k: int| block_at(g, image, ox, oy, k))
}

/// The encoding of the strip at `(ox, oy)` of an image.
pub open spec fn strip_at(
    g: Geometry,
    image: spec_fn(int, int) -> (u16, u16, u16),
    ox: int,
    oy: int,
) -> Seq<u8> {
    strip::strip_spec(g, blocks_at(g, image, ox, oy), ox % 0x1_0000, oy % 0x1_0000)
}

/// Whether the pixel source accepts every coordinate of the `w` by `h` region at `(ox, oy)`.
pub open spec fn readable<F: Fn(usize, usize) -> (u16, u16, u16)>(
    px: F,
    ox: int,
    oy: int,
    w: int,
    h: int,
) -> bool {
    forall|x: usize, y: usize|
        ox <= x < ox + w && oy <= y < oy + h ==> #[trigger] call_requires(px, (x, y))
}

/// Whether an image holds, over the `w` by `h` region at `(ox, oy)`, pixels that the source may
/// yield there.
pub open spec fn samples<F: Fn(usize, usize) -> (u16, u16, u16)>(
    px: F,
    image: spec_fn(int, int) -> (u16, u16, u16),
    ox: int,
    oy: int,
    w: int,
    h: int,
) -> bool {
    forall|x: usize, y: usize|
        ox <= x < ox + w && oy <= y < oy + h ==> #[trigger] call_ensures(
            px,
            (x, y),
            image(x as int, y as int),
        )
}

/// A pixel's planes stay well inside the transform's range.
proof fn lemma_pixel_planes(r: u16, g: u16, b: u16)
    ensures
        transform::colour_fits(r as int, g as int, b as int),
        ({
            let p = transform::colour_spec(r as int, g as int, b as int);
            &&& 0 <= p.0 <= 64 * 0xffff
            &&& -64 * 0xffff <= p.1 <= 64 * 0xffff
            &&& -64 * 0xffff <= p.2 <= 64 * 0xffff
        }),
{
}

/// Gather and quantise the block whose top-left pixel is `(x0, y0)`, one source call per pixel
/// in row-major order.
fn sample_block<F: Fn(usize, usize) -> (u16, u16, u16)>(px: &F, x0: usize, y0: usize) -> (r: (
    ColourBlock,
    Ghost<Seq<(u16, u16, u16)>>,
))
    requires
        x0 + 8 <= usize::MAX,
        y0 + 8 <= usize::MAX,
        readable(*px, x0 as int, y0 as int, 8, 8),
    ensures
        r.1@.len() == 64,
        forall|i: int|
            0 <= i < 64 ==> call_ensures(
                *px,
                ((x0 + i % 8) as usize, (y0 + i / 8) as usize),
                #[trigger] r.1@[i],
            ),
        r.0@ == block_of_pixels(r.1@),
        r.0@.wf(),
{
    let mut cr: [i32; 64] = [0;64];
    let mut cb: [i32; 64] = [0;64];
    let mut y: [i32; 64] = [0;64];
    let ghost mut pixels: Seq<(u16, u16, u16)> = Seq::empty();
    let mut i: usize = 0;
    while i < 64
        invariant
            i <= 64,
            x0 + 8 <= usize::MAX,
            y0 + 8 <= usize::MAX,
            readable(*px, x0 as int, y0 as int, 8, 8),
            pixels.len() == i,
            forall|k: int|
                0 <= k < i ==> call_ensures(
                    *px,
                    ((x0 + k % 8) as usize, (y0 + k / 8) as usize),
                    #[trigger] pixels[k],
                ),
            forall|k: int| 0 <= k < i ==> #[trigger] cr@[k] == planes_of(pixels, k).2,
            forall|k: int| 0 <= k < i ==> #[trigger] cb@[k] == planes_of(pixels, k).1,
            forall|k: int| 0 <= k < i ==> #[trigger] y@[k] == planes_of(pixels, k).0,
            transform::within(cr@, SAMPLE_LIMIT as int),
            transform::within(cb@, SAMPLE_LIMIT as int),
            transform::within(y@, SAMPLE_LIMIT as int),
        decreases 64 - i,
    {
        let (rr, gg, bb) = px(x0 + i % 8, y0 + i / 8);
        proof {
            lemma_pixel_planes(rr, gg, bb);
            pixels = pixels.push((rr, gg, bb));
        }
        let (yv, cbv, crv) = colour(rr as i32, gg as i32, bb as i32);
        cr[i] = crv;
        cb[i] = cbv;
        y[i] = yv;
        i += 1;
    }
    let b = colour_block(&cr, &cb, &y);
    proof {
        reveal(block_of_pixels);
        assert(transform::ints(cr@) =~= Seq::new(64, |i: int| planes_of(pixels, i).2));
        assert(transform::ints(cb@) =~= Seq::new(64, |i: int| planes_of(pixels, i).1));
        assert(transform::ints(y@) =~= Seq::new(64, |i: int| planes_of(pixels, i).0));
    }
    (b, Ghost(pixels))
}

/// The DCs of blocks made of pixels are small.
proof fn lemma_pixel_block_dcs(pixels: Seq<(u16, u16, u16)>)
    requires
        pixels.len() == 64,
    ensures
        -0x1_0000 <= block_of_pixels(pixels).qcr[0] <= 0x1_0000,
        -0x1_0000 <= block_of_pixels(pixels).qcb[0] <= 0x1_0000,
        -0x4_0000 <= block_of_pixels(pixels).qy[0] <= 0x4_0000,
{
    reveal(block_of_pixels);
    let cr = Seq::new(64, |i: int| planes_of(pixels, i).2);
    let cb = Seq::new(64, |i: int| planes_of(pixels, i).1);
    let y = Seq::new(64, |i: int| planes_of(pixels, i).0);
    assert forall|i: int| 0 <= i < 64 implies {
        &&& -64 * 0xffff <= #[trigger] cr[i] <= 64 * 0xffff
        &&& -64 * 0xffff <= cb[i] <= 64 * 0xffff
        &&& -64 * 0xffff <= y[i] <= 64 * 0xffff
    } by {
        lemma_pixel_planes(pixels[i].0, pixels[i].1, pixels[i].2);
    }
    assert(forall|i: int| 0 <= i < 64 ==> -64 * 0xffff <= #[trigger] cb[i] <= 64 * 0xffff) by {
        assert forall|i: int| 0 <= i < 64 implies -64 * 0xffff <= #[trigger] cb[i] <= 64
            * 0xffff by {
            assert(cr[i] == cr[i]);
        }
    }
    assert(forall|i: int| 0 <= i < 64 ==> -64 * 0xffff <= #[trigger] y[i] <= 64 * 0xffff) by {
        assert forall|i: int| 0 <= i < 64 implies -64 * 0xffff <= #[trigger] y[i] <= 64
            * 0xffff by {
            assert(cr[i] == cr[i]);
        }
    }
    transform::law_transform_keeps_the_sample_range(cr, 0x3f_ffc0);
    transform::law_transform_keeps_the_sample_range(cb, 0x3f_ffc0);
    transform::law_transform_keeps_the_sample_range(y, 0x3f_ffc0);
    assert(-64 * 0xffff <= transform::transform_spec(cr)[0] <= 64 * 0xffff);
    assert(-64 * 0xffff <= transform::transform_spec(cb)[0] <= 64 * 0xffff);
    assert(-64 * 0xffff <= transform::transform_spec(y)[0] <= 64 * 0xffff);
}

/// Blocks made of pixels are well formed and their DC differences fit.
proof fn lemma_pixel_blocks(g: Geometry, image: spec_fn(int, int) -> (u16, u16, u16), ox: int, oy: int)
    ensures
        forall|k: int| 0 <= k < 16 ==> #[trigger] blocks_at(g, image, ox, oy)[k].wf(),
        strip::dc_steps_fit(blocks_at(g, image, ox, oy)),
{
    let blocks = blocks_at(g, image, ox, oy);
    assert forall|k: int| 0 <= k < 16 implies {
        &&& #[trigger] blocks[k].wf()
        &&& -0x1_0000 <= blocks[k].qcr[0] <= 0x1_0000
        &&& -0x1_0000 <= blocks[k].qcb[0] <= 0x1_0000
        &&& -0x4_0000 <= blocks[k].qy[0] <= 0x4_0000
    } by {
        let pixels = Seq::new(
            64,
            |i: int| image(sample_x(g, ox, k, i), sample_y(g, oy, k, i)),
        );
        assert(blocks[k] == block_of_pixels(pixels));
        lemma_pixel_block_dcs(pixels);
        reveal(block_of_pixels);
        strip::law_last_nonzero_is_exact(blocks[k].qcr, 64);
        strip::law_last_nonzero_is_exact(blocks[k].qcb, 64);
        strip::law_last_nonzero_is_exact(blocks[k].qy, 64);
    }
    assert forall|i: int|
        #![trigger blocks[i]]
        0 <= i < blocks.len() implies {
        let d = strip::dc_of(blocks, i);
        let p = strip::dc_of(blocks, i - 1);
        &&& i32::MIN <= d.0 - p.0 <= i32::MAX
        &&& i32::MIN <= d.1 - p.1 <= i32::MAX
        &&& i32::MIN <= d.2 - p.2 <= i32::MAX
    } by {
        assert(blocks[i].wf());
        if i > 0 {
            assert(blocks[i - 1].wf());
        }
    }
}

/// Gather one strip's sixteen blocks from a pixel source: every pixel of the strip is read once,
/// and the blocks are those of the pixels read.
pub fn colour_strip_blocks<F: Fn(usize, usize) -> (u16, u16, u16)>(
    geometry: Geometry,
    ox: usize,
    oy: usize,
    px: &F,
) -> (r: Result<Vec<ColourBlock>, Error>)
    requires
        geometry.shaped(),
        ox + geometry.width() <= usize::MAX,
        oy + geometry.height() <= usize::MAX,
        readable(*px, ox as int, oy as int, geometry.width(), geometry.height()),
    ensures
        r matches Ok(blocks) && exists|image: spec_fn(int, int) -> (u16, u16, u16)|
            {
                &&& #[trigger] samples(
                    *px,
                    image,
                    ox as int,
                    oy as int,
                    geometry.width(),
                    geometry.height(),
                )
                &&& strip::views(blocks@) == blocks_at(geometry, image, ox as int, oy as int)
            },
{
    let mut blocks: Vec<ColourBlock> = Vec::new();
    let ghost mut gathered: Seq<Seq<(u16, u16, u16)>> = Seq::empty();
    let across: usize = geometry.strip_w() / 8;
    let mut k: usize = 0;
    while k < STRIP_BLOCKS
        invariant
            k <= 16,
            geometry.shaped(),
            across == geometry.across(),
            ox + geometry.width() <= usize::MAX,
            oy + geometry.height() <= usize::MAX,
            readable(*px, ox as int, oy as int, geometry.width(), geometry.height()),
            blocks@.len() == k,
            gathered.len() == k,
            forall|j: int|
                0 <= j < k ==> {
                    &&& (#[trigger] gathered[j]).len() == 64
                    &&& blocks@[j]@ == block_of_pixels(gathered[j])
                },
            forall|j: int, i: int|
                0 <= j < k && 0 <= i < 64 ==> call_ensures(
                    *px,
                    (
                        sample_x(geometry, ox as int, j, i) as usize,
                        sample_y(geometry, oy as int, j, i) as usize,
                    ),
                    #[trigger] gathered[j][i],
                ),
        decreases 16 - k,
    {
        let x0: usize = ox + 8 * (k % across);
        let y0: usize = oy + 8 * (k / across);
        proof {
            lemma_block_in_strip(geometry, k as int);
        }
        let (b, pixels) = sample_block(px, x0, y0);
        blocks.push(b);
        proof {
            assert forall|i: int| 0 <= i < 64 implies call_ensures(
                *px,
                (
                    sample_x(geometry, ox as int, k as int, i) as usize,
                    sample_y(geometry, oy as int, k as int, i) as usize,
                ),
                #[trigger] pixels@[i],
            ) by {
                assert(sample_x(geometry, ox as int, k as int, i) == x0 + i % 8);
                assert(sample_y(geometry, oy as int, k as int, i) == y0 + i / 8);
            }
            gathered = gathered.push(pixels@);
        }
        k += 1;
    }
    proof {
        let image = gathered_image(geometry, ox as int, oy as int, gathered);
        lemma_gathered_image(geometry, *px, ox as int, oy as int, gathered);
        assert forall|j: int| 0 <= j < 16 implies #[trigger] blocks@[j]@ == block_at(
            geometry,
            image,
            ox as int,
            oy as int,
            j,
        ) by {
            assert(gathered[j] =~= Seq::new(
                64,
                |i: int|
                    image(
                        sample_x(geometry, ox as int, j, i),
                        sample_y(geometry, oy as int, j, i),
                    ),
            ));
        }
        assert(strip::views(blocks@) =~= blocks_at(geometry, image, ox as int, oy as int));
    }
    Ok(blocks)
}

/// Every block lies inside its strip.
pub proof fn lemma_block_in_strip(g: Geometry, k: int)
    requires
        g.shaped(),
        0 <= k < 16,
    ensures
        0 <= k % g.across(),
        0 <= k / g.across(),
        8 * (k % g.across()) + 8 <= g.width(),
        8 * (k / g.across()) + 8 <= g.height(),
{
    if g.across() == 8 {
    } else {
        assert(g.across() == 16);
    }
}

/// The image that a strip's gathered blocks are a picture of.
spec fn gathered_image(
    g: Geometry,
    ox: int,
    oy: int,
    gathered: Seq<Seq<(u16, u16, u16)>>,
) -> spec_fn(int, int) -> (u16, u16, u16) {
    |x: int, y: int|
        gathered[((y - oy) / 8) * g.across() + (x - ox) / 8][8 * ((y - oy) % 8) + (x - ox) % 8]
}

/// The gathered image has each gathered pixel at its place.
proof fn lemma_gathered_image<F: Fn(usize, usize) -> (u16, u16, u16)>(
    g: Geometry,
    px: F,
    ox: int,
    oy: int,
    gathered: Seq<Seq<(u16, u16, u16)>>,
)
    requires
        g.shaped(),
        0 <= ox,
        0 <= oy,
        ox + g.width() <= usize::MAX,
        oy + g.height() <= usize::MAX,
        gathered.len() == 16,
        forall|j: int| 0 <= j < 16 ==> (#[trigger] gathered[j]).len() == 64,
        forall|j: int, i: int|
            0 <= j < 16 && 0 <= i < 64 ==> call_ensures(
                px,
                (sample_x(g, ox, j, i) as usize, sample_y(g, oy, j, i) as usize),
                #[trigger] gathered[j][i],
            ),
    ensures
        samples(px, gathered_image(g, ox, oy, gathered), ox, oy, g.width(), g.height()),
        forall|j: int, i: int|
            0 <= j < 16 && 0 <= i < 64 ==> gathered_image(g, ox, oy, gathered)(
                sample_x(g, ox, j, i),
                sample_y(g, oy, j, i),
            ) == #[trigger] gathered[j][i],
{
    let image = gathered_image(g, ox, oy, gathered);
    let a = g.across();
    assert(a == 8 || a == 16);
    assert forall|j: int, i: int| 0 <= j < 16 && 0 <= i < 64 implies image(
        sample_x(g, ox, j, i),
        sample_y(g, oy, j, i),
    ) == #[trigger] gathered[j][i] by {
        let dx = 8 * (j % a) + i % 8;
        let dy = 8 * (j / a) + i / 8;
        assert(dx / 8 == j % a && dx % 8 == i % 8);
        assert(dy / 8 == j / a && dy % 8 == i / 8);
        if a == 8 {
            assert((j / 8) * 8 + j % 8 == j);
        } else {
            assert((j / 16) * 16 + j % 16 == j);
        }
        assert(8 * (i / 8) + i % 8 == i);
    }
    assert forall|x: usize, y: usize|
        ox <= x < ox + g.width() && oy <= y < oy + g.height() implies #[trigger] call_ensures(
        px,
        (x, y),
        image(x as int, y as int),
    ) by {
        let dx = x - ox;
        let dy = y - oy;
        let j = (dy / 8) * a + dx / 8;
        let i = 8 * (dy % 8) + dx % 8;
        assert(0 <= j < 16 && j % a == dx / 8 && j / a == dy / 8) by {
            if a == 8 {
                assert(j == (dy / 8) * 8 + dx / 8);
            } else {
                assert(dy / 8 == 0);
                assert(j == dx / 8);
            }
        }
        assert(i % 8 == dx % 8 && i / 8 == dy % 8);
        assert(sample_x(g, ox, j, i) == x);
        assert(sample_y(g, oy, j, i) == y);
        assert(image(x as int, y as int) == gathered[j][i]);
    }
}

/// Encode the one strip whose top-left pixel is `(sx, sy)`.
///
/// The strip reads only its own region of the source and shares no state with any other.
#[verifier::spinoff_prover]
pub fn colour_strip_at<F: Fn(usize, usize) -> (u16, u16, u16)>(
    geometry: Geometry,
    sx: usize,
    sy: usize,
    px: &F,
) -> (r: Result<Vec<u8>, Error>)
    requires
        geometry.shaped(),
        sx + geometry.width() <= usize::MAX,
        sy + geometry.height() <= usize::MAX,
        readable(*px, sx as int, sy as int, geometry.width(), geometry.height()),
    ensures
        r matches Ok(s) && exists|image: spec_fn(int, int) -> (u16, u16, u16)|
            {
                &&& #[trigger] samples(
                    *px,
                    image,
                    sx as int,
                    sy as int,
                    geometry.width(),
                    geometry.height(),
                )
                &&& s@ == strip_at(geometry, image, sx as int, sy as int)
            },
{
    let blocks: Vec<ColourBlock> = colour_strip_blocks(geometry, sx, sy, px)?;
    let ghost image = choose|image: spec_fn(int, int) -> (u16, u16, u16)|
        {
            &&& #[trigger] samples(
                *px,
                image,
                sx as int,
                sy as int,
                geometry.width(),
                geometry.height(),
            )
            &&& strip::views(blocks@) == blocks_at(geometry, image, sx as int, sy as int)
        };
    proof {
        let v = blocks_at(geometry, image, sx as int, sy as int);
        lemma_pixel_blocks(geometry, image, sx as int, sy as int);
        strip::law_strip_is_bounded(
            geometry,
            v,
            (sx % 0x1_0000) as int,
            (sy % 0x1_0000) as int,
        );
        assert(strip::views(blocks@).len() == blocks@.len());
        assert(blocks@.len() == 16);
        assert forall|i: int| 0 <= i < blocks@.len() implies #[trigger] blocks@[i]@.wf() by {
            assert(v[i] == strip::views(blocks@)[i]);
        }
    }
    colour_strip(
        geometry,
        &blocks,
        crate::bytes::low_u16(sx),
        crate::bytes::low_u16(sy),
    )
}

} // verus!
