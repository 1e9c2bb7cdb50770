//! Whole frames: full, damaged and black.

use vstd::prelude::*;

use crate::error::Error;
use crate::haar::coords;
use crate::haar::coords::{Clip, all_strip_coords, damage_strip_coords};
use crate::haar::geometry::Geometry;
use crate::haar::order;
use crate::haar::records;
use crate::haar::records::{frame_records, frame_records_with_boundary};
use crate::haar::sample;
use crate::haar::sample::colour_strip_at;
use crate::haar::strip;
use crate::haar::strip::{Block, ColourBlock, colour_strip};
use crate::haar::transform;

verus! {

/// The strips of an image at a list of coordinates.
pub open spec fn strips_of(
    g: Geometry,
    image: spec_fn(int, int) -> (u16, u16, u16),
    list: Seq<(int, int)>,
) -> Seq<Seq<u8>> {
    Seq::new(list.len(), |i: int| sample::strip_at(g, image, list[i].0, list[i].1))
}

/// Whether the pixel source accepts every coordinate of the strips at a list of coordinates.
pub open spec fn readable_strips<F: Fn(usize, usize) -> (u16, u16, u16)>(
    g: Geometry,
    px: F,
    list: Seq<(int, int)>,
) -> bool {
    forall|i: int|
        0 <= i < list.len() ==> sample::readable(
            px,
            (#[trigger] list[i]).0,
            list[i].1,
            g.width(),
            g.height(),
        )
}

/// Whether an image holds, over the strips at a list of coordinates, pixels that the source may
/// yield there.
pub open spec fn samples_strips<F: Fn(usize, usize) -> (u16, u16, u16)>(
    g: Geometry,
    px: F,
    image: spec_fn(int, int) -> (u16, u16, u16),
    list: Seq<(int, int)>,
) -> bool {
    forall|i: int|
        0 <= i < list.len() ==> sample::samples(
            px,
            image,
            (#[trigger] list[i]).0,
            list[i].1,
            g.width(),
            g.height(),
        )
}

/// Whether a frame is the framing of a list of strips, or the refusal where one is too long.
pub open spec fn is_frame(
    g: Geometry,
    strips: Seq<Seq<u8>>,
    connector: u8,
    ordinary: Option<bool>,
    r: Result<Vec<Vec<u8>>, Error>,
) -> bool {
    match records::frame_spec(g, strips, connector, ordinary) {
        Some(rs) => r matches Ok(f) && order::contents(f@) == records::chunked(rs),
        None => r == Err::<Vec<Vec<u8>>, Error>(Error::EOVERFLOW),
    }
}

/// Whether a surface is a whole number of strips.
pub open spec fn aligned(g: Geometry, width: int, height: int) -> bool {
    width % g.width() == 0 && height % g.height() == 0
}

/// Whether the strips of a list lie on the grid, each once.
pub open spec fn on_grid(g: Geometry, list: Seq<(int, int)>) -> bool {
    &&& forall|i: int|
        0 <= i < list.len() ==> {
            let c = #[trigger] list[i];
            0 <= c.0 && 0 <= c.1 && c.0 % g.width() == 0 && c.1 % g.height() == 0
        }
    &&& forall|i: int, j: int|
        0 <= i < j < list.len() ==> #[trigger] list[i] != #[trigger] list[j]
}

/// The index of the strip of a list that holds a pixel.
spec fn holder(g: Geometry, list: Seq<(int, int)>, x: int, y: int) -> int {
    choose|i: int|
        0 <= i < list.len() && #[trigger] list[i] == (x - x % g.width(), y - y % g.height())
}

/// The image that agrees with a different image on each strip of a list.
spec fn merged(
    g: Geometry,
    images: Seq<spec_fn(int, int) -> (u16, u16, u16)>,
    list: Seq<(int, int)>,
) -> spec_fn(int, int) -> (u16, u16, u16) {
    |x: int, y: int| images[holder(g, list, x, y)](x, y)
}

/// A pixel of a strip of the list is held by that strip.
proof fn lemma_holder(g: Geometry, list: Seq<(int, int)>, i: int, x: int, y: int)
    requires
        g.wf(),
        on_grid(g, list),
        0 <= i < list.len(),
        list[i].0 <= x < list[i].0 + g.width(),
        list[i].1 <= y < list[i].1 + g.height(),
    ensures
        holder(g, list, x, y) == i,
{
    let c = list[i];
    let w = g.width();
    let h = g.height();
    assert(x - x % w == c.0 && y - y % h == c.1) by {
        if w == 64 {
            assert(c.0 % 64 == 0);
            assert(c.1 % 16 == 0);
        } else {
            assert(c.0 % 128 == 0);
            assert(c.1 % 8 == 0);
        }
    }
    assert(list[i] == (x - x % w, y - y % h));
    let k = holder(g, list, x, y);
    assert(0 <= k < list.len() && list[k] == (x - x % w, y - y % h));
    if k < i {
        assert(list[k] != list[i]);
    } else if i < k {
        assert(list[i] != list[k]);
    }
}

/// Images that agree on a strip encode it alike.
proof fn lemma_strip_is_local(
    g: Geometry,
    a: spec_fn(int, int) -> (u16, u16, u16),
    b: spec_fn(int, int) -> (u16, u16, u16),
    ox: int,
    oy: int,
)
    requires
        g.wf(),
        forall|x: int, y: int|
            ox <= x < ox + g.width() && oy <= y < oy + g.height() ==> #[trigger] a(x, y) == b(x, y),
    ensures
        sample::strip_at(g, a, ox, oy) == sample::strip_at(g, b, ox, oy),
{
    assert forall|k: int| 0 <= k < 16 implies #[trigger] sample::block_at(g, a, ox, oy, k)
        == sample::block_at(g, b, ox, oy, k) by {
        let pa = Seq::new(
            64,
            |i: int| a(sample::sample_x(g, ox, k, i), sample::sample_y(g, oy, k, i)),
        );
        let pb = Seq::new(
            64,
            |i: int| b(sample::sample_x(g, ox, k, i), sample::sample_y(g, oy, k, i)),
        );
        assert forall|i: int| 0 <= i < 64 implies #[trigger] pa[i] == pb[i] by {
            sample::lemma_block_in_strip(g, k);
            let x = sample::sample_x(g, ox, k, i);
            let y = sample::sample_y(g, oy, k, i);
            assert(a(x, y) == b(x, y));
        }
        assert(pa =~= pb);
    }
    assert(sample::blocks_at(g, a, ox, oy) =~= sample::blocks_at(g, b, ox, oy));
}

/// Encode the strips of a pixel source at a list of coordinates.
fn encode_strips<F: Fn(usize, usize) -> (u16, u16, u16)>(
    g: Geometry,
    list: &[(usize, usize)],
    px: &F,
) -> (r: Result<Vec<Vec<u8>>, Error>)
    requires
        g.wf(),
        on_grid(g, coords::pairs(list@)),
        forall|i: int|
            0 <= i < list@.len() ==> {
                let c = #[trigger] list@[i];
                &&& c.0 + g.width() <= usize::MAX
                &&& c.1 + g.height() <= usize::MAX
                &&& sample::readable(*px, c.0 as int, c.1 as int, g.width(), g.height())
            },
    ensures
        r matches Ok(s) && exists|image: spec_fn(int, int) -> (u16, u16, u16)|
            {
                &&& #[trigger] samples_strips(g, *px, image, coords::pairs(list@))
                &&& order::contents(s@) == strips_of(g, image, coords::pairs(list@))
            },
{
    let ghost l = coords::pairs(list@);
    let mut strips: Vec<Vec<u8>> = Vec::new();
    let ghost mut images: Seq<spec_fn(int, int) -> (u16, u16, u16)> = Seq::empty();
    let mut i: usize = 0;
    while i < list.len()
        invariant
            g.wf(),
            i <= list@.len(),
            l == coords::pairs(list@),
            forall|k: int|
                0 <= k < list@.len() ==> {
                    let c = #[trigger] list@[k];
                    &&& c.0 + g.width() <= usize::MAX
                    &&& c.1 + g.height() <= usize::MAX
                    &&& sample::readable(*px, c.0 as int, c.1 as int, g.width(), g.height())
                },
            strips@.len() == i,
            images.len() == i,
            forall|k: int|
                0 <= k < i ==> {
                    &&& sample::samples(
                        *px,
                        #[trigger] images[k],
                        l[k].0,
                        l[k].1,
                        g.width(),
                        g.height(),
                    )
                    &&& strips@[k]@ == sample::strip_at(g, images[k], l[k].0, l[k].1)
                },
        decreases list@.len() - i,
    {
        let (x, y): (usize, usize) = list[i];
        assert(list@[i as int] == (x, y));
        let s: Vec<u8> = colour_strip_at(g, x, y, px)?;
        proof {
            let image = choose|image: spec_fn(int, int) -> (u16, u16, u16)|
                {
                    &&& #[trigger] sample::samples(
                        *px,
                        image,
                        x as int,
                        y as int,
                        g.width(),
                        g.height(),
                    )
                    &&& s@ == sample::strip_at(g, image, x as int, y as int)
                };
            images = images.push(image);
        }
        strips.push(s);
        i += 1;
    }
    proof {
        let image = merged(g, images, l);
        assert forall|k: int| 0 <= k < l.len() implies {
            &&& sample::samples(*px, image, (#[trigger] l[k]).0, l[k].1, g.width(), g.height())
            &&& strips@[k]@ == sample::strip_at(g, image, l[k].0, l[k].1)
        } by {
            let own = images[k];
            assert forall|x: int, y: int|
                l[k].0 <= x < l[k].0 + g.width() && l[k].1 <= y < l[k].1
                    + g.height() implies #[trigger] image(x, y) == own(x, y) by {
                lemma_holder(g, l, k, x, y);
            }
            assert(sample::samples(*px, own, l[k].0, l[k].1, g.width(), g.height()));
            assert forall|x: usize, y: usize|
                l[k].0 <= x < l[k].0 + g.width() && l[k].1 <= y < l[k].1
                    + g.height() implies #[trigger] call_ensures(
                *px,
                (x, y),
                image(x as int, y as int),
            ) by {
                assert(image(x as int, y as int) == own(x as int, y as int));
            }
            lemma_strip_is_local(g, image, own, l[k].0, l[k].1);
        }
        assert(samples_strips(g, *px, image, l));
        assert(order::contents(strips@) =~= strips_of(g, image, l));
    }
    Ok(strips)
}

/// Whether a surface is a whole number of strips; see [`aligned`].
fn is_aligned(g: Geometry, width: usize, height: usize) -> (a: bool)
    requires
        g.wf(),
    ensures
        a == aligned(g, width as int, height as int),
{
    width % g.strip_w() == 0 && height % g.strip_h() == 0
}

/// A raster list is on the grid.
proof fn lemma_raster_on_grid(g: Geometry, list: Seq<(int, int)>)
    requires
        coords::raster(g, list),
    ensures
        on_grid(g, list),
{
    assert forall|i: int, j: int| 0 <= i < j < list.len() implies #[trigger] list[i]
        != #[trigger] list[j] by {
        assert(coords::raster_before(list[i], list[j]));
    }
}

/// A strip that starts on an aligned surface lies on it.
proof fn lemma_strip_inside(g: Geometry, width: int, height: int, c: (int, int))
    requires
        g.wf(),
        aligned(g, width, height),
        0 <= c.0 < width,
        0 <= c.1 < height,
        c.0 % g.width() == 0,
        c.1 % g.height() == 0,
    ensures
        c.0 + g.width() <= width,
        c.1 + g.height() <= height,
{
    if g.width() == 64 {
    } else {
        assert(g.width() == 128);
    }
}

/// What a list of coordinates of an aligned surface allows the strip encoder.
proof fn lemma_encodable<F: Fn(usize, usize) -> (u16, u16, u16)>(
    g: Geometry,
    px: F,
    width: int,
    height: int,
    list: Seq<(usize, usize)>,
)
    requires
        g.wf(),
        aligned(g, width, height),
        width <= usize::MAX,
        height <= usize::MAX,
        coords::raster(g, coords::pairs(list)),
        forall|i: int|
            0 <= i < list.len() ==> (#[trigger] coords::pairs(list)[i]).0 < width && coords::pairs(
                list,
            )[i].1 < height,
        readable_strips(g, px, coords::pairs(list)),
    ensures
        on_grid(g, coords::pairs(list)),
        forall|i: int|
            0 <= i < list.len() ==> {
                let c = #[trigger] list[i];
                &&& c.0 + g.width() <= usize::MAX
                &&& c.1 + g.height() <= usize::MAX
                &&& sample::readable(px, c.0 as int, c.1 as int, g.width(), g.height())
            },
{
    let l = coords::pairs(list);
    lemma_raster_on_grid(g, l);
    assert forall|i: int| 0 <= i < list.len() implies {
        let c = #[trigger] list[i];
        &&& c.0 + g.width() <= usize::MAX
        &&& c.1 + g.height() <= usize::MAX
        &&& sample::readable(px, c.0 as int, c.1 as int, g.width(), g.height())
    } by {
        assert(l[i] == (list[i].0 as int, list[i].1 as int));
        lemma_strip_inside(g, width, height, l[i]);
    }
}

/// A source that accepts a whole aligned surface accepts each of its strips.
proof fn lemma_surface_readable<F: Fn(usize, usize) -> (u16, u16, u16)>(
    g: Geometry,
    px: F,
    width: int,
    height: int,
)
    requires
        g.wf(),
        aligned(g, width, height),
        width >= 0,
        height >= 0,
        sample::readable(px, 0, 0, width, height),
    ensures
        readable_strips(g, px, coords::all_coords(g, width, height)),
{
    let l = coords::all_coords(g, width, height);
    coords::law_coords_are_raster(g, width, height, 0);
    coords::lemma_coords_inside(g, width, height, 0);
    assert forall|i: int| 0 <= i < l.len() implies sample::readable(
        px,
        (#[trigger] l[i]).0,
        l[i].1,
        g.width(),
        g.height(),
    ) by {
        lemma_strip_inside(g, width, height, l[i]);
    }
}

/// Encoded strips state their position.
proof fn lemma_strips_placed(
    g: Geometry,
    image: spec_fn(int, int) -> (u16, u16, u16),
    list: Seq<(int, int)>,
)
    ensures
        order::placed(strips_of(g, image, list)),
{
    assert forall|i: int| 0 <= i < list.len() implies (#[trigger] strips_of(
        g,
        image,
        list,
    )[i]).len() >= 6 by {
        let x = list[i].0;
        let y = list[i].1;
        strip::law_strip_states_its_position(
            g,
            sample::blocks_at(g, image, x, y),
            x % 0x1_0000,
            y % 0x1_0000,
        );
    }
}

/// Encode a full frame in the producer order the caller asks for.
fn colour_frame_ep08_variant<F: Fn(usize, usize) -> (u16, u16, u16)>(
    geometry: Geometry,
    width: usize,
    height: usize,
    connector: u8,
    navarro_ordinary: Option<bool>,
    px: &F,
) -> (r: Result<Vec<Vec<u8>>, Error>)
    requires
        geometry.wf(),
        width + geometry.width() <= usize::MAX,
        height + geometry.height() <= usize::MAX,
        aligned(geometry, width as int, height as int) ==> sample::readable(
            *px,
            0,
            0,
            width as int,
            height as int,
        ),
    ensures
        !aligned(geometry, width as int, height as int) ==> r == Err::<Vec<Vec<u8>>, Error>(
            Error::EINVAL,
        ),
        aligned(geometry, width as int, height as int) ==> exists|
            image: spec_fn(int, int) -> (u16, u16, u16),
        |
            {
                let list = coords::all_coords(geometry, width as int, height as int);
                &&& #[trigger] sample::samples(*px, image, 0, 0, width as int, height as int)
                &&& is_frame(
                    geometry,
                    strips_of(geometry, image, list),
                    connector,
                    if list.len() == 3600 {
                        navarro_ordinary
                    } else {
                        None
                    },
                    r,
                )
            },
{
    if !is_aligned(geometry, width, height) {
        return Err(Error::EINVAL);
    }
    let list: Vec<(usize, usize)> = match all_strip_coords(geometry, width, height) {
        Ok(list) => list,
        Err(e) => {
            return Err(e);
        },
    };
    let ghost l = coords::all_coords(geometry, width as int, height as int);
    proof {
        coords::law_coords_are_raster(geometry, width as int, height as int, 0);
        coords::lemma_coords_inside(geometry, width as int, height as int, 0);
        lemma_surface_readable(geometry, *px, width as int, height as int);
        lemma_encodable(geometry, *px, width as int, height as int, list@);
    }
    let strips: Vec<Vec<u8>> = match encode_strips(geometry, list.as_slice(), px) {
        Ok(strips) => strips,
        Err(e) => {
            return Err(e);
        },
    };
    let ghost image = choose|image: spec_fn(int, int) -> (u16, u16, u16)|
        {
            &&& #[trigger] samples_strips(geometry, *px, image, l)
            &&& order::contents(strips@) == strips_of(geometry, image, l)
        };
    proof {
        lemma_strips_placed(geometry, image, l);
        lemma_samples_surface(geometry, *px, image, width as int, height as int);
        assert(order::contents(strips@).len() == l.len());
    }
    let ordinary: Option<bool> = if strips.len() == 3600 {
        navarro_ordinary
    } else {
        None
    };
    frame_records_with_boundary(geometry, strips.as_slice(), connector, ordinary)
}

/// Pixels sampled strip by strip are pixels of the surface.
proof fn lemma_samples_surface<F: Fn(usize, usize) -> (u16, u16, u16)>(
    g: Geometry,
    px: F,
    image: spec_fn(int, int) -> (u16, u16, u16),
    width: int,
    height: int,
)
    requires
        g.wf(),
        samples_strips(g, px, image, coords::all_coords(g, width, height)),
    ensures
        sample::samples(px, image, 0, 0, width, height),
{
    let l = coords::all_coords(g, width, height);
    assert forall|x: usize, y: usize|
        0 <= x < 0 + width && 0 <= y < 0 + height implies #[trigger] call_ensures(
        px,
        (x, y),
        image(x as int, y as int),
    ) by {
        assert(0int % g.height() == 0) by {
            if g.height() == 8 {
            } else {
                assert(g.height() == 16);
            }
        }
        coords::law_coords_cover_the_surface(g, width, height, 0, x as int, y as int);
        let c = (x - x as int % g.width(), y - y as int % g.height());
        let k = choose|k: int| 0 <= k < l.len() && l[k] == c;
        assert(sample::samples(px, image, l[k].0, l[k].1, g.width(), g.height()));
        assert(c.0 <= x < c.0 + g.width() && c.1 <= y < c.1 + g.height()) by {
            if g.width() == 64 {
            } else {
                assert(g.width() == 128);
            }
        }
    }
}

/// Encode a full frame.
///
/// The surface must be a whole number of strips, else the frame is refused with
/// [`Error::EINVAL`]. Every pixel is read once from the source.
pub fn colour_frame_ep08<F: Fn(usize, usize) -> (u16, u16, u16)>(
    geometry: Geometry,
    width: usize,
    height: usize,
    connector: u8,
    px: &F,
) -> (r: Result<Vec<Vec<u8>>, Error>)
    requires
        geometry.wf(),
        width + geometry.width() <= usize::MAX,
        height + geometry.height() <= usize::MAX,
        aligned(geometry, width as int, height as int) ==> sample::readable(
            *px,
            0,
            0,
            width as int,
            height as int,
        ),
    ensures
        !aligned(geometry, width as int, height as int) ==> r == Err::<Vec<Vec<u8>>, Error>(
            Error::EINVAL,
        ),
        aligned(geometry, width as int, height as int) ==> exists|
            image: spec_fn(int, int) -> (u16, u16, u16),
        |
            {
                let list = coords::all_coords(geometry, width as int, height as int);
                &&& #[trigger] sample::samples(*px, image, 0, 0, width as int, height as int)
                &&& is_frame(geometry, strips_of(geometry, image, list), connector, None, r)
            },
{
    colour_frame_ep08_variant(geometry, width, height, connector, None, px)
}

/// Encode a full frame in the ordinary producer order, where the surface is the one it is known
/// for.
pub fn colour_frame_ep08_navarro_ordinary<F: Fn(usize, usize) -> (u16, u16, u16)>(
    geometry: Geometry,
    width: usize,
    height: usize,
    connector: u8,
    px: &F,
) -> (r: Result<Vec<Vec<u8>>, Error>)
    requires
        geometry.wf(),
        width + geometry.width() <= usize::MAX,
        height + geometry.height() <= usize::MAX,
        aligned(geometry, width as int, height as int) ==> sample::readable(
            *px,
            0,
            0,
            width as int,
            height as int,
        ),
    ensures
        !aligned(geometry, width as int, height as int) ==> r == Err::<Vec<Vec<u8>>, Error>(
            Error::EINVAL,
        ),
        aligned(geometry, width as int, height as int) ==> exists|
            image: spec_fn(int, int) -> (u16, u16, u16),
        |
            {
                let list = coords::all_coords(geometry, width as int, height as int);
                &&& #[trigger] sample::samples(*px, image, 0, 0, width as int, height as int)
                &&& is_frame(
                    geometry,
                    strips_of(geometry, image, list),
                    connector,
                    if list.len() == 3600 {
                        Some(true)
                    } else {
                        None
                    },
                    r,
                )
            },
{
    colour_frame_ep08_variant(geometry, width, height, connector, Some(true), px)
}

/// Encode only the macro-tiles that the damage rectangles touch.
///
/// The source is asked for the pixels of the touched strips and no others. Without a touched
/// strip the frame is empty and nothing is to be sent.
pub fn colour_frame_ep08_damage<F: Fn(usize, usize) -> (u16, u16, u16)>(
    geometry: Geometry,
    width: usize,
    height: usize,
    connector: u8,
    clips: &[Clip],
    px: &F,
) -> (r: Result<Vec<Vec<u8>>, Error>)
    requires
        geometry.wf(),
        width + 4 * geometry.width() <= usize::MAX,
        height + 4 * geometry.height() <= usize::MAX,
        aligned(geometry, width as int, height as int) ==> readable_strips(
            geometry,
            *px,
            coords::damaged_coords(geometry, clips@, width as int, height as int),
        ),
    ensures
        !aligned(geometry, width as int, height as int) ==> r == Err::<Vec<Vec<u8>>, Error>(
            Error::EINVAL,
        ),
        aligned(geometry, width as int, height as int) ==> exists|
            image: spec_fn(int, int) -> (u16, u16, u16),
        |
            {
                &&& #[trigger] samples_strips(
                    geometry,
                    *px,
                    image,
                    coords::damaged_coords(geometry, clips@, width as int, height as int),
                )
                &&& is_frame(
                    geometry,
                    strips_of(
                        geometry,
                        image,
                        coords::damaged_coords(geometry, clips@, width as int, height as int),
                    ),
                    connector,
                    None,
                    r,
                )
            },
{
    if !is_aligned(geometry, width, height) {
        return Err(Error::EINVAL);
    }
    let list: Vec<(usize, usize)> = match damage_strip_coords(geometry, width, height, clips) {
        Ok(list) => list,
        Err(e) => {
            return Err(e);
        },
    };
    let ghost all = coords::all_coords(geometry, width as int, height as int);
    let ghost l = coords::damaged_coords(geometry, clips@, width as int, height as int);
    proof {
        coords::law_coords_are_raster(geometry, width as int, height as int, 0);
        coords::lemma_coords_inside(geometry, width as int, height as int, 0);
        coords::lemma_pick(geometry, clips@, all);
        assert forall|i: int| 0 <= i < list@.len() implies (#[trigger] coords::pairs(list@)[i]).0
            < width && coords::pairs(list@)[i].1 < height by {
            let k = choose|k: int| 0 <= k < all.len() && all[k] == l[i];
            assert(all[k].0 < width && all[k].1 < height);
        }
        lemma_encodable(geometry, *px, width as int, height as int, list@);
    }
    let strips: Vec<Vec<u8>> = match encode_strips(geometry, list.as_slice(), px) {
        Ok(strips) => strips,
        Err(e) => {
            return Err(e);
        },
    };
    let ghost image = choose|image: spec_fn(int, int) -> (u16, u16, u16)|
        {
            &&& #[trigger] samples_strips(geometry, *px, image, l)
            &&& order::contents(strips@) == strips_of(geometry, image, l)
        };
    proof {
        lemma_strips_placed(geometry, image, l);
    }
    frame_records(geometry, strips.as_slice(), connector)
}

/// A block without coefficients.
pub open spec fn zero_block() -> Block {
    let zeroes = Seq::new(64, |i: int| 0int);
    Block { qcr: zeroes, qcb: zeroes, qy: zeroes, lcr: 0, lcb: 0, ly: 0 }
}

/// The sixteen blocks of a black strip.
pub open spec fn zero_blocks() -> Seq<Block> {
    Seq::new(16, |i: int| zero_block())
}

/// Black strips at a list of coordinates.
pub open spec fn black_strips(g: Geometry, list: Seq<(int, int)>) -> Seq<Seq<u8>> {
    Seq::new(
        list.len(),
        |i: int|
            strip::strip_spec(g, zero_blocks(), list[i].0 % 0x1_0000, list[i].1 % 0x1_0000),
    )
}

/// Build the blocks of a black strip.
fn black_blocks() -> (blocks: Vec<ColourBlock>)
    ensures
        strip::views(blocks@) == zero_blocks(),
        blocks@.len() == 16,
{
    let mut blocks: Vec<ColourBlock> = Vec::new();
    let mut i: usize = 0;
    while i < 16
        invariant
            i <= 16,
            blocks@.len() == i,
            forall|k: int| 0 <= k < i ==> (#[trigger] blocks@[k])@ == zero_block(),
        decreases 16 - i,
    {
        let b = ColourBlock {
            qcr: [0;64],
            qcb: [0;64],
            qy: [0;64],
            lcr: 0,
            lcb: 0,
            ly: 0,
        };
        assert(transform::ints(b.qcr@) =~= zero_block().qcr);
        assert(transform::ints(b.qcb@) =~= zero_block().qcb);
        assert(transform::ints(b.qy@) =~= zero_block().qy);
        blocks.push(b);
        i += 1;
    }
    assert(strip::views(blocks@) =~= zero_blocks());
    blocks
}

/// Encode black strips at a list of coordinates from one set of blocks.
fn encode_black(g: Geometry, list: &[(usize, usize)]) -> (r: Result<Vec<Vec<u8>>, Error>)
    ensures
        r matches Ok(s) && order::contents(s@) == black_strips(g, coords::pairs(list@)),
{
    let blocks: Vec<ColourBlock> = black_blocks();
    let ghost l = coords::pairs(list@);
    let mut strips: Vec<Vec<u8>> = Vec::new();
    let mut i: usize = 0;
    while i < list.len()
        invariant
            i <= list@.len(),
            l == coords::pairs(list@),
            strip::views(blocks@) == zero_blocks(),
            blocks@.len() == 16,
            strips@.len() == i,
            forall|k: int| 0 <= k < i ==> (#[trigger] strips@[k])@ == black_strips(g, l)[k],
        decreases list@.len() - i,
    {
        let (x, y): (usize, usize) = list[i];
        proof {
            assert forall|k: int| 0 <= k < blocks@.len() implies #[trigger] blocks@[k]@.wf() by {
                assert(strip::views(blocks@)[k] == zero_block());
            }
            let v = zero_blocks();
            strip::law_strip_is_bounded(
                g,
                v,
                (x % 0x1_0000) as int,
                (y % 0x1_0000) as int,
            );
            assert(strip::dc_steps_fit(v));
        }
        let s: Vec<u8> = match colour_strip(
            g,
            blocks.as_slice(),
            crate::bytes::low_u16(x),
            crate::bytes::low_u16(y),
        ) {
            Ok(s) => s,
            Err(e) => {
                return Err(e);
            },
        };
        assert(l[i as int] == (x as int, y as int));
        strips.push(s);
        i += 1;
    }
    assert(order::contents(strips@) =~= black_strips(g, l));
    Ok(strips)
}

/// Build a black frame with the producer order and boundaries the caller asks for.
fn black_frame_ep08_variant(
    geometry: Geometry,
    width: usize,
    height: usize,
    connector: u8,
    navarro_ordinary: Option<bool>,
) -> (r: Result<Vec<Vec<u8>>, Error>)
    requires
        geometry.wf(),
        width + geometry.width() <= usize::MAX,
        height + geometry.height() <= usize::MAX,
    ensures
        if aligned(geometry, width as int, height as int) {
            is_frame(
                geometry,
                black_strips(
                    geometry,
                    coords::all_coords(geometry, width as int, height as int),
                ),
                connector,
                navarro_ordinary,
                r,
            )
        } else {
            r == Err::<Vec<Vec<u8>>, Error>(Error::EINVAL)
        },
{
    if !is_aligned(geometry, width, height) {
        return Err(Error::EINVAL);
    }
    let list: Vec<(usize, usize)> = match all_strip_coords(geometry, width, height) {
        Ok(list) => list,
        Err(e) => {
            return Err(e);
        },
    };
    let strips: Vec<Vec<u8>> = match encode_black(geometry, list.as_slice()) {
        Ok(strips) => strips,
        Err(e) => {
            return Err(e);
        },
    };
    proof {
        let l = coords::pairs(list@);
        assert forall|i: int| 0 <= i < l.len() implies (#[trigger] black_strips(
            geometry,
            l,
        )[i]).len() >= 6 by {
            strip::law_strip_states_its_position(
                geometry,
                zero_blocks(),
                l[i].0 % 0x1_0000,
                l[i].1 % 0x1_0000,
            );
        }
    }
    frame_records_with_boundary(geometry, strips.as_slice(), connector, navarro_ordinary)
}

/// Build a valid all-black frame without sampling a framebuffer: the carrier that follows a
/// mode set.
pub fn black_frame_ep08(geometry: Geometry, width: usize, height: usize, connector: u8) -> (r:
    Result<Vec<Vec<u8>>, Error>)
    requires
        geometry.wf(),
        width + geometry.width() <= usize::MAX,
        height + geometry.height() <= usize::MAX,
    ensures
        if aligned(geometry, width as int, height as int) {
            is_frame(
                geometry,
                black_strips(
                    geometry,
                    coords::all_coords(geometry, width as int, height as int),
                ),
                connector,
                Some(false),
                r,
            )
        } else {
            r == Err::<Vec<Vec<u8>>, Error>(Error::EINVAL)
        },
{
    black_frame_ep08_variant(geometry, width, height, connector, Some(false))
}

/// Build the black carrier that follows the first one, which has its own producer boundaries.
pub fn black_frame_ep08_ordinary(
    geometry: Geometry,
    width: usize,
    height: usize,
    connector: u8,
) -> (r: Result<Vec<Vec<u8>>, Error>)
    requires
        geometry.wf(),
        width + geometry.width() <= usize::MAX,
        height + geometry.height() <= usize::MAX,
    ensures
        if aligned(geometry, width as int, height as int) {
            is_frame(
                geometry,
                black_strips(
                    geometry,
                    coords::all_coords(geometry, width as int, height as int),
                ),
                connector,
                Some(true),
                r,
            )
        } else {
            r == Err::<Vec<Vec<u8>>, Error>(Error::EINVAL)
        },
{
    black_frame_ep08_variant(geometry, width, height, connector, Some(true))
}

/// A plane of zeroes quantises to zeroes.
proof fn lemma_zero_planes()
    ensures
        ({
            let zeroes = Seq::new(64, |i: int| 0int);
            &&& strip::chroma_plane(zeroes) == zeroes
            &&& strip::luma_plane(zeroes) == zeroes
            &&& strip::last_nonzero(zeroes, 64) == 0
        }),
{
    let zeroes = Seq::new(64, |i: int| 0int);
    transform::law_uniform_block_is_pure_dc(zeroes, 0);
    assert(strip::chroma_plane(zeroes) =~= zeroes);
    assert forall|i: int| 0 <= i < 64 implies #[trigger] strip::luma_plane(zeroes)[i] == 0 by {
        assert(transform::transform_spec(zeroes)[i] == 0);
        crate::haar::quant::lemma_zero_stays_zero(i);
    }
    assert(strip::luma_plane(zeroes) =~= zeroes);
    strip::law_last_nonzero_is_exact(zeroes, 64);
}

/// A black strip is the strip of a black image.
pub proof fn law_black_strips_are_those_of_a_black_image(
    g: Geometry,
    image: spec_fn(int, int) -> (u16, u16, u16),
    list: Seq<(int, int)>,
)
    requires
        forall|x: int, y: int| #[trigger] image(x, y) == (0u16, 0u16, 0u16),
    ensures
        strips_of(g, image, list) == black_strips(g, list),
{
    assert forall|i: int| 0 <= i < list.len() implies #[trigger] strips_of(g, image, list)[i]
        == black_strips(g, list)[i] by {
        let ox = list[i].0;
        let oy = list[i].1;
        assert forall|k: int| 0 <= k < 16 implies #[trigger] sample::block_at(g, image, ox, oy, k)
            == zero_block() by {
            let p = Seq::new(
                64,
                |j: int| image(sample::sample_x(g, ox, k, j), sample::sample_y(g, oy, k, j)),
            );
            lemma_black_block(p);
        }
        assert(sample::blocks_at(g, image, ox, oy) =~= zero_blocks());
    }
    assert(strips_of(g, image, list) =~= black_strips(g, list));
}

/// A block of black pixels has no coefficients.
proof fn lemma_black_block(p: Seq<(u16, u16, u16)>)
    requires
        forall|i: int| 0 <= i < 64 ==> #[trigger] p[i] == (0u16, 0u16, 0u16),
    ensures
        sample::block_of_pixels(p) == zero_block(),
{
    reveal(sample::block_of_pixels);
    let zeroes = Seq::new(64, |i: int| 0int);
    lemma_zero_planes();
    assert forall|j: int| 0 <= j < 64 implies #[trigger] sample::planes_of(p, j) == (
        0int,
        0int,
        0int,
    ) by {
        assert(p[j] == (0u16, 0u16, 0u16));
    }
    assert(Seq::new(64, |j: int| sample::planes_of(p, j).2) =~= zeroes);
    assert(Seq::new(64, |j: int| sample::planes_of(p, j).1) =~= zeroes);
    assert(Seq::new(64, |j: int| sample::planes_of(p, j).0) =~= zeroes);
}

/// Damage over the whole surface frames exactly what a full frame does; no damage frames
/// nothing.
pub proof fn law_damage_extremes(
    g: Geometry,
    image: spec_fn(int, int) -> (u16, u16, u16),
    clips: Seq<Clip>,
    width: usize,
    height: usize,
    connector: u8,
)
    requires
        g.wf(),
        clips.contains((0usize, 0usize, width, height)),
    ensures
        strips_of(
            g,
            image,
            coords::damaged_coords(g, clips, width as int, height as int),
        ) == strips_of(g, image, coords::all_coords(g, width as int, height as int)),
        records::frame_spec(
            g,
            strips_of(
                g,
                image,
                coords::damaged_coords(g, Seq::<Clip>::empty(), width as int, height as int),
            ),
            connector,
            None,
        ) == Some(Seq::<Seq<u8>>::empty()),
        records::chunked(Seq::<Seq<u8>>::empty()) == Seq::<Seq<u8>>::empty(),
{
    let all = coords::all_coords(g, width as int, height as int);
    coords::lemma_coords_inside(g, width as int, height as int, 0);
    coords::law_whole_damage_selects_everything(g, clips, all, width, height);
    coords::law_no_damage_selects_nothing(g, all);
    let none = strips_of(g, image, Seq::<(int, int)>::empty());
    crate::haar::order_laws::law_strip_order_is_a_permutation(g, none, None);
}

} // verus!
