//! Which strips a frame carries: all of them, or those a damage set selects.

use vstd::prelude::*;

use crate::error::Error;
use crate::haar::geometry::Geometry;

verus! {

/// The strips of the row at `y`, left to right.
pub open spec fn row_coords(g: Geometry, width: int, y: int) -> Seq<(int, int)> {
    Seq::new(
        ((width + g.width() - 1) / g.width()) as nat,
        |i: int| (i * g.width(), y),
    )
}

/// The strips of the rows from `y` on, top to bottom.
pub open spec fn coords_from(g: Geometry, width: int, height: int, y: int) -> Seq<(int, int)>
    decreases (if y < height {
        height - y
    } else {
        0
    }),
{
    if y >= height || g.height() <= 0 {
        Seq::empty()
    } else {
        row_coords(g, width, y) + coords_from(g, width, height, y + g.height())
    }
}

/// The top-left pixel of every strip of a surface, in raster order.
pub open spec fn all_coords(g: Geometry, width: int, height: int) -> Seq<(int, int)> {
    coords_from(g, width, height, 0)
}

/// A damage rectangle, half open.
pub type Clip = (usize, usize, usize, usize);

/// Whether a damage rectangle overlaps the macro-tile that holds the strip at `c`. A macro-tile
/// is four by four strips, the granularity at which a dock rotates its buffers.
pub open spec fn clip_hits(g: Geometry, clip: Clip, c: (int, int)) -> bool {
    let mw = 4 * g.width();
    let mh = 4 * g.height();
    let mx = c.0 - c.0 % mw;
    let my = c.1 - c.1 % mh;
    mx < clip.2 && clip.0 < mx + mw && my < clip.3 && clip.1 < my + mh
}

/// Whether a damage set selects the strip at `c`.
pub open spec fn selected(g: Geometry, clips: Seq<Clip>, c: (int, int)) -> bool {
    exists|i: int| 0 <= i < clips.len() && clip_hits(g, #[trigger] clips[i], c)
}

/// Those of a list of strips that a damage set selects, in order.
pub open spec fn pick(g: Geometry, clips: Seq<Clip>, coords: Seq<(int, int)>) -> Seq<(int, int)>
    decreases coords.len(),
{
    if coords.len() == 0 {
        Seq::empty()
    } else {
        let before = pick(g, clips, coords.drop_last());
        if selected(g, clips, coords.last()) {
            before.push(coords.last())
        } else {
            before
        }
    }
}

/// The strips of a surface that a damage set selects, in raster order.
pub open spec fn damaged_coords(g: Geometry, clips: Seq<Clip>, width: int, height: int) -> Seq<
    (int, int),
> {
    pick(g, clips, all_coords(g, width, height))
}

/// The mathematical values of a list of coordinates.
pub open spec fn pairs(v: Seq<(usize, usize)>) -> Seq<(int, int)> {
    Seq::new(v.len(), |i: int| (v[i].0 as int, v[i].1 as int))
}

/// Appending one coordinate.
proof fn lemma_pairs_push(v: Seq<(usize, usize)>, c: (usize, usize))
    ensures
        pairs(v.push(c)) == pairs(v).push((c.0 as int, c.1 as int)),
{
    assert(pairs(v.push(c)) =~= pairs(v).push((c.0 as int, c.1 as int)));
}

/// Where strip `n` of a row starts.
proof fn lemma_row_place(n: int, w: int)
    requires
        w == 64 || w == 128,
    ensures
        w == 64 ==> n * w == 64 * n,
        w == 128 ==> n * w == 128 * n,
{
}

/// Append the strips of the row at `y`.
fn append_row(g: Geometry, width: usize, y: usize, out: &mut Vec<(usize, usize)>)
    requires
        g.shaped(),
        width + g.width() <= usize::MAX,
    ensures
        pairs(final(out)@) == pairs(old(out)@) + row_coords(g, width as int, y as int),
{
    let ghost start = pairs(out@);
    let ghost row = row_coords(g, width as int, y as int);
    let w: usize = g.strip_w();
    let mut x: usize = 0;
    let ghost mut n: int = 0;
    assert(start =~= start + row.take(0));
    while x < width
        invariant
            g.shaped(),
            w == g.width(),
            width + w <= usize::MAX,
            row == row_coords(g, width as int, y as int),
            x == n * w,
            0 <= n,
            x < width + w,
            pairs(out@) == start + row.take(n),
            n <= row.len(),
        decreases width + w - x,
    {
        proof {
            lemma_pairs_push(out@, (x, y));
            assert(n < row.len()) by {
                lemma_row_place(n, w as int);
            }
            assert(row[n] == (x as int, y as int));
            assert((start + row.take(n)).push(row[n]) =~= start + row.take(n + 1));
            assert((n + 1) * w == n * w + w) by (nonlinear_arith);
            n = n + 1;
        }
        out.push((x, y));
        x = x + w;
    }
    proof {
        assert(n == row.len()) by {
            lemma_row_place(n, w as int);
        }
        assert(row.take(n) =~= row);
    }
}

/// Every strip of a full frame, in raster order.
pub fn all_strip_coords(geometry: Geometry, width: usize, height: usize) -> (r: Result<
    Vec<(usize, usize)>,
    Error,
>)
    requires
        geometry.shaped(),
        width + geometry.width() <= usize::MAX,
        height + geometry.height() <= usize::MAX,
    ensures
        r matches Ok(c) && pairs(c@) == all_coords(geometry, width as int, height as int),
{
    let mut coords: Vec<(usize, usize)> = Vec::new();
    let h: usize = geometry.strip_h();
    let mut y: usize = 0;
    let ghost all = all_coords(geometry, width as int, height as int);
    assert(all =~= pairs(coords@) + all);
    while y < height
        invariant
            geometry.shaped(),
            h == geometry.height(),
            width + geometry.width() <= usize::MAX,
            height + h <= usize::MAX,
            y < height + h,
            all == pairs(coords@) + coords_from(
                geometry,
                width as int,
                height as int,
                y as int,
            ),
        decreases height + h - y,
    {
        proof {
            let row = row_coords(geometry, width as int, y as int);
            let rest = coords_from(geometry, width as int, height as int, y + h);
            assert(pairs(coords@) + (row + rest) =~= pairs(coords@) + row + rest);
        }
        append_row(geometry, width, y, &mut coords);
        y = y + h;
    }
    assert(pairs(coords@) =~= all);
    Ok(coords)
}

/// Whether a damage set selects the strip at `(x, y)`.
fn is_selected(g: Geometry, clips: &[Clip], x: usize, y: usize) -> (hit: bool)
    requires
        g.shaped(),
        x + 4 * g.width() <= usize::MAX,
        y + 4 * g.height() <= usize::MAX,
    ensures
        hit == selected(g, clips@, (x as int, y as int)),
{
    let mw: usize = g.macro_w();
    let mh: usize = g.macro_h();
    assert(mw == 256 || mw == 512);
    assert(mh == 64 || mh == 32);
    assert(x % mw <= x && y % mh <= y) by {
        vstd::arithmetic::div_mod::lemma_mod_decreases(x as nat, mw as nat);
        vstd::arithmetic::div_mod::lemma_mod_decreases(y as nat, mh as nat);
    }
    let mx: usize = x - x % mw;
    let my: usize = y - y % mh;
    let mut i: usize = 0;
    while i < clips.len()
        invariant
            g.shaped(),
            i <= clips@.len(),
            mw == 4 * g.width(),
            mh == 4 * g.height(),
            mx == x - x % mw,
            my == y - y % mh,
            mx + mw <= usize::MAX,
            my + mh <= usize::MAX,
            forall|k: int| 0 <= k < i ==> !clip_hits(g, #[trigger] clips@[k], (x as int, y as int)),
        decreases clips@.len() - i,
    {
        let c: Clip = clips[i];
        if mx < c.2 && c.0 < mx + mw && my < c.3 && c.1 < my + mh {
            assert(clip_hits(g, clips@[i as int], (x as int, y as int)));
            return true;
        }
        i += 1;
    }
    false
}

/// The raster-ordered top-left coordinate of every strip a damage set selects. Every strip of a
/// touched macro-tile is selected.
pub fn damage_strip_coords(geometry: Geometry, width: usize, height: usize, clips: &[Clip]) -> (r:
    Result<Vec<(usize, usize)>, Error>)
    requires
        geometry.shaped(),
        width + 4 * geometry.width() <= usize::MAX,
        height + 4 * geometry.height() <= usize::MAX,
    ensures
        r matches Ok(c) && pairs(c@) == pick(
            geometry,
            clips@,
            all_coords(geometry, width as int, height as int),
        ),
{
    let all: Vec<(usize, usize)> = all_strip_coords(geometry, width, height)?;
    let ghost a = pairs(all@);
    proof {
        lemma_coords_inside(geometry, width as int, height as int, 0);
    }
    let mut coords: Vec<(usize, usize)> = Vec::new();
    let mut i: usize = 0;
    assert(a.take(0) =~= Seq::<(int, int)>::empty());
    assert(pairs(coords@) =~= Seq::<(int, int)>::empty());
    while i < all.len()
        invariant
            geometry.shaped(),
            width + 4 * geometry.width() <= usize::MAX,
            height + 4 * geometry.height() <= usize::MAX,
            i <= all@.len(),
            a == pairs(all@),
            forall|k: int| 0 <= k < a.len() ==> (#[trigger] a[k]).0 < width && a[k].1 < height,
            pairs(coords@) == pick(geometry, clips@, a.take(i as int)),
        decreases all@.len() - i,
    {
        let c: (usize, usize) = all[i];
        proof {
            assert(a[i as int] == (c.0 as int, c.1 as int));
            assert(a.take(i + 1).drop_last() =~= a.take(i as int));
            assert(a.take(i + 1).last() == a[i as int]);
            lemma_pairs_push(coords@, c);
        }
        if is_selected(geometry, clips, c.0, c.1) {
            coords.push(c);
        }
        i += 1;
    }
    assert(a.take(all@.len() as int) =~= a);
    Ok(coords)
}

/// Every strip of a surface starts on it.
pub proof fn lemma_coords_inside(g: Geometry, width: int, height: int, y: int)
    requires
        g.shaped(),
        0 <= width,
        0 <= y,
    ensures
        forall|k: int|
            0 <= k < coords_from(g, width, height, y).len() ==> {
                let c = #[trigger] coords_from(g, width, height, y)[k];
                0 <= c.0 < width && y <= c.1 < height
            },
    decreases (if y < height {
        height - y
    } else {
        0
    }),
{
    if y < height {
        lemma_coords_inside(g, width, height, y + g.height());
        let row = row_coords(g, width, y);
        let rest = coords_from(g, width, height, y + g.height());
        let all = coords_from(g, width, height, y);
        assert forall|k: int| 0 <= k < all.len() implies {
            let c = #[trigger] all[k];
            0 <= c.0 < width && y <= c.1 < height
        } by {
            if k < row.len() {
                assert(all[k] == row[k]);
                lemma_row_place(k, g.width());
            } else {
                assert(all[k] == rest[k - row.len()]);
            }
        }
    }
}

/// Whether one strip comes before another in raster order.
pub open spec fn raster_before(a: (int, int), b: (int, int)) -> bool {
    a.1 < b.1 || (a.1 == b.1 && a.0 < b.0)
}

/// Whether a list is in raster order and on the strip grid.
pub open spec fn raster(g: Geometry, list: Seq<(int, int)>) -> bool {
    &&& forall|i: int|
        0 <= i < list.len() ==> {
            let c = #[trigger] list[i];
            0 <= c.0 && 0 <= c.1 && c.0 % g.width() == 0 && c.1 % g.height() == 0
        }
    &&& forall|i: int, j: int|
        0 <= i < j < list.len() ==> raster_before(#[trigger] list[i], #[trigger] list[j])
}

/// The strips of a surface are in raster order and on the grid.
#[verifier::spinoff_prover]
pub proof fn law_coords_are_raster(g: Geometry, width: int, height: int, y: int)
    requires
        g.shaped(),
        0 <= width,
        0 <= y,
        y % g.height() == 0,
    ensures
        raster(g, coords_from(g, width, height, y)),
    decreases (if y < height {
        height - y
    } else {
        0
    }),
{
    if y < height {
        let next = y + g.height();
        assert(next % g.height() == 0) by {
            vstd::arithmetic::div_mod::lemma_mod_add_multiples_vanish(y, g.height());
        }
        law_coords_are_raster(g, width, height, next);
        lemma_coords_inside(g, width, height, next);
        let row = row_coords(g, width, y);
        let rest = coords_from(g, width, height, next);
        let all = coords_from(g, width, height, y);
        assert forall|i: int| 0 <= i < all.len() implies {
            let c = #[trigger] all[i];
            0 <= c.0 && 0 <= c.1 && c.0 % g.width() == 0 && c.1 % g.height() == 0
        } by {
            if i < row.len() {
                assert(all[i] == row[i]);
                lemma_row_place(i, g.width());
            } else {
                assert(all[i] == rest[i - row.len()]);
            }
        }
        assert forall|i: int, j: int| 0 <= i < j < all.len() implies raster_before(
            #[trigger] all[i],
            #[trigger] all[j],
        ) by {
            if j < row.len() {
                assert(all[i] == row[i] && all[j] == row[j]);
                lemma_row_place(i, g.width());
                lemma_row_place(j, g.width());
            } else if i < row.len() {
                assert(all[i] == row[i] && all[j] == rest[j - row.len()]);
            } else {
                assert(all[i] == rest[i - row.len()] && all[j] == rest[j - row.len()]);
            }
        }
    }
}

/// What a damage set picks comes from the list, in its order.
pub proof fn lemma_pick(g: Geometry, clips: Seq<Clip>, list: Seq<(int, int)>)
    requires
        raster(g, list),
    ensures
        raster(g, pick(g, clips, list)),
        forall|i: int|
            0 <= i < pick(g, clips, list).len() ==> list.contains(#[trigger] pick(g, clips, list)[i])
                && selected(g, clips, pick(g, clips, list)[i]),
    decreases list.len(),
{
    if list.len() > 0 {
        let front = list.drop_last();
        assert forall|i: int, j: int| 0 <= i < j < front.len() implies raster_before(
            #[trigger] front[i],
            #[trigger] front[j],
        ) by {
            assert(front[i] == list[i] && front[j] == list[j]);
        }
        assert forall|i: int| 0 <= i < front.len() implies {
            let c = #[trigger] front[i];
            0 <= c.0 && 0 <= c.1 && c.0 % g.width() == 0 && c.1 % g.height() == 0
        } by {
            assert(front[i] == list[i]);
        }
        lemma_pick(g, clips, front);
        let before = pick(g, clips, front);
        let result = pick(g, clips, list);
        let last = list.last();
        assert(list[list.len() - 1] == last);
        assert forall|i: int| 0 <= i < before.len() implies list.contains(#[trigger] before[i])
            && raster_before(before[i], last) by {
            let k = choose|k: int| 0 <= k < front.len() && front[k] == before[i];
            assert(list[k] == before[i]);
            assert(raster_before(list[k], list[list.len() - 1]));
        }
        assert forall|i: int| 0 <= i < result.len() implies list.contains(#[trigger] result[i])
            && selected(g, clips, result[i]) by {
            if i < before.len() {
                assert(result[i] == before[i]);
            } else {
                assert(list[list.len() - 1] == result[i]);
            }
        }
        assert forall|i: int, j: int| 0 <= i < j < result.len() implies raster_before(
            #[trigger] result[i],
            #[trigger] result[j],
        ) by {
            assert(result[i] == before[i]);
            if j < before.len() {
                assert(result[j] == before[j]);
            }
        }
        assert forall|i: int| 0 <= i < result.len() implies {
            let c = #[trigger] result[i];
            0 <= c.0 && 0 <= c.1 && c.0 % g.width() == 0 && c.1 % g.height() == 0
        } by {
            if i < before.len() {
                assert(result[i] == before[i]);
            }
        }
    }
}

/// Damage that covers the whole surface selects every strip, in the same order.
pub proof fn law_whole_damage_selects_everything(
    g: Geometry,
    clips: Seq<Clip>,
    list: Seq<(int, int)>,
    width: usize,
    height: usize,
)
    requires
        g.shaped(),
        clips.contains((0usize, 0usize, width, height)),
        forall|i: int|
            0 <= i < list.len() ==> 0 <= (#[trigger] list[i]).0 < width && 0 <= list[i].1 < height,
    ensures
        pick(g, clips, list) == list,
    decreases list.len(),
{
    if list.len() > 0 {
        let front = list.drop_last();
        assert forall|i: int| 0 <= i < front.len() implies 0 <= (#[trigger] front[i]).0 < width && 0
            <= front[i].1 < height by {
            assert(front[i] == list[i]);
        }
        law_whole_damage_selects_everything(g, clips, front, width, height);
        let k = choose|k: int| 0 <= k < clips.len() && clips[k] == (0usize, 0usize, width, height);
        let c = list[list.len() - 1];
        assert(clip_hits(g, clips[k], c)) by {
            if g.width() == 64 {
                assert(c.0 % 256 <= c.0 && c.1 % 64 <= c.1);
            } else {
                assert(c.0 % 512 <= c.0 && c.1 % 32 <= c.1);
            }
        }
        assert(front.push(c) =~= list);
    } else {
        assert(pick(g, clips, list) =~= list);
    }
}

/// No damage selects nothing.
pub proof fn law_no_damage_selects_nothing(g: Geometry, list: Seq<(int, int)>)
    ensures
        pick(g, Seq::<Clip>::empty(), list) == Seq::<(int, int)>::empty(),
    decreases list.len(),
{
    if list.len() > 0 {
        law_no_damage_selects_nothing(g, list.drop_last());
    }
}

/// Damage is exact to the macro-tile: the strips of one tile are selected together.
pub proof fn law_macro_tiles_are_selected_whole(
    g: Geometry,
    clips: Seq<Clip>,
    a: (int, int),
    b: (int, int),
)
    requires
        a.0 / (4 * g.width()) == b.0 / (4 * g.width()),
        a.1 / (4 * g.height()) == b.1 / (4 * g.height()),
    ensures
        selected(g, clips, a) == selected(g, clips, b),
{
    let mw = 4 * g.width();
    let mh = 4 * g.height();
    vstd::arithmetic::div_mod::lemma_fundamental_div_mod(a.0, mw);
    vstd::arithmetic::div_mod::lemma_fundamental_div_mod(b.0, mw);
    vstd::arithmetic::div_mod::lemma_fundamental_div_mod(a.1, mh);
    vstd::arithmetic::div_mod::lemma_fundamental_div_mod(b.1, mh);
    assert forall|i: int| 0 <= i < clips.len() implies clip_hits(g, #[trigger] clips[i], a)
        == clip_hits(g, clips[i], b) by {}
    if selected(g, clips, a) {
        let i = choose|i: int| 0 <= i < clips.len() && clip_hits(g, #[trigger] clips[i], a);
        assert(clip_hits(g, clips[i], b));
    }
    if selected(g, clips, b) {
        let i = choose|i: int| 0 <= i < clips.len() && clip_hits(g, #[trigger] clips[i], b);
        assert(clip_hits(g, clips[i], a));
    }
}

/// Every pixel of a surface lies in one of its strips.
pub proof fn law_coords_cover_the_surface(
    g: Geometry,
    width: int,
    height: int,
    top: int,
    x: int,
    y: int,
)
    requires
        g.shaped(),
        0 <= top,
        top % g.height() == 0,
        0 <= x < width,
        top <= y < height,
    ensures
        coords_from(g, width, height, top).contains((x - x % g.width(), y - y % g.height())),
    decreases height - top,
{
    let next = top + g.height();
    let row = row_coords(g, width, top);
    let rest = coords_from(g, width, height, next);
    let all = coords_from(g, width, height, top);
    let c = (x - x % g.width(), y - y % g.height());
    if y < next {
        let i = x / g.width();
        assert(y - y % g.height() == top) by {
            if g.height() == 8 {
                assert(top % 8 == 0 && y - y % 8 == top);
            } else {
                assert(top % 16 == 0 && y - y % 16 == top);
            }
        }
        lemma_row_place(i, g.width());
        assert(i * g.width() == x - x % g.width() && 0 <= i < row.len()) by {
            if g.width() == 64 {
            } else {
                assert(g.width() == 128);
            }
        }
        assert(row[i] == c);
        assert(all[i] == c);
    } else {
        assert(next % g.height() == 0) by {
            if g.height() == 8 {
                assert(top % 8 == 0 && (top + 8) % 8 == 0);
            } else {
                assert(top % 16 == 0 && (top + 16) % 16 == 0);
            }
        }
        law_coords_cover_the_surface(g, width, height, next, x, y);
        let k = choose|k: int| 0 <= k < rest.len() && rest[k] == c;
        assert(all[row.len() + k] == c);
    }
}

/// A strip of the list that is selected is picked.
proof fn lemma_pick_keeps(g: Geometry, clips: Seq<Clip>, list: Seq<(int, int)>, c: (int, int))
    requires
        list.contains(c),
        selected(g, clips, c),
    ensures
        pick(g, clips, list).contains(c),
    decreases list.len(),
{
    let front = list.drop_last();
    let before = pick(g, clips, front);
    let result = pick(g, clips, list);
    if list.last() == c {
        assert(result[before.len() as int] == c);
    } else {
        let k = choose|k: int| 0 <= k < list.len() && list[k] == c;
        assert(front[k] == c);
        lemma_pick_keeps(g, clips, front, c);
        let j = choose|j: int| 0 <= j < before.len() && before[j] == c;
        assert(result[j] == c);
    }
}

/// What is picked comes from the list and is selected.
proof fn lemma_picked(g: Geometry, clips: Seq<Clip>, list: Seq<(int, int)>, c: (int, int))
    requires
        pick(g, clips, list).contains(c),
    ensures
        list.contains(c),
        selected(g, clips, c),
    decreases list.len(),
{
    if list.len() > 0 {
        let front = list.drop_last();
        let before = pick(g, clips, front);
        let result = pick(g, clips, list);
        let j = choose|j: int| 0 <= j < result.len() && result[j] == c;
        if j < before.len() {
            assert(before[j] == c);
            lemma_picked(g, clips, front, c);
            let k = choose|k: int| 0 <= k < front.len() && front[k] == c;
            assert(list[k] == c);
        } else {
            assert(list[list.len() - 1] == c);
        }
    }
}

/// Whether a pixel lies inside a damage rectangle.
pub open spec fn inside(clip: Clip, x: int, y: int) -> bool {
    clip.0 <= x < clip.2 && clip.1 <= y < clip.3
}

/// A place lies in the group of four strips that the strip holding it belongs to.
#[verifier::spinoff_prover]
proof fn lemma_group_holds(x: int, w: int)
    requires
        0 <= x,
        w == 8 || w == 16 || w == 64 || w == 128,
    ensures
        ({
            let c = x - x % w;
            c - c % (4 * w) <= x < c - c % (4 * w) + 4 * w
        }),
{
    let c = x - x % w;
    let k = x / w;
    let j = k / 4;
    let r = k % 4;
    if w == 8 {
        assert(c == 32 * j + 8 * r);
        assert(c % 32 == 8 * r);
    } else if w == 16 {
        assert(c == 64 * j + 16 * r);
        assert(c % 64 == 16 * r);
    } else if w == 64 {
        assert(c == 256 * j + 64 * r);
        assert(c % 256 == 64 * r);
    } else {
        assert(c == 512 * j + 128 * r);
        assert(c % 512 == 128 * r);
    }
}

/// The strip that holds a damaged pixel is selected, wherever in its rectangle the pixel lies.
#[verifier::spinoff_prover]
proof fn lemma_damage_hits(g: Geometry, clip: Clip, x: int, y: int)
    requires
        g.shaped(),
        0 <= x,
        0 <= y,
        inside(clip, x, y),
    ensures
        clip_hits(g, clip, (x - x % g.width(), y - y % g.height())),
{
    lemma_group_holds(x, g.width());
    lemma_group_holds(y, g.height());
}

/// No damage is missed: every pixel of the surface that lies inside any damage rectangle lies in a
/// strip that is sent.
pub proof fn law_damaged_pixels_are_sent(
    g: Geometry,
    clips: Seq<Clip>,
    width: int,
    height: int,
    k: int,
    x: int,
    y: int,
)
    requires
        g.shaped(),
        0 <= k < clips.len(),
        inside(clips[k], x, y),
        0 <= x < width,
        0 <= y < height,
    ensures
        damaged_coords(g, clips, width, height).contains((x - x % g.width(), y - y % g.height())),
{
    let c = (x - x % g.width(), y - y % g.height());
    law_coords_cover_the_surface(g, width, height, 0, x, y);
    lemma_damage_hits(g, clips[k], x, y);
    assert(clip_hits(g, clips[k], c));
    lemma_pick_keeps(g, clips, all_coords(g, width, height), c);
}

/// Nothing but damage is sent: a strip that is sent is one of the surface, and the square of four
/// by four strips around it holds a pixel of a damage rectangle.
pub proof fn law_sent_strips_are_damaged(
    g: Geometry,
    clips: Seq<Clip>,
    width: int,
    height: int,
    c: (int, int),
)
    requires
        g.shaped(),
        0 <= width,
        damaged_coords(g, clips, width, height).contains(c),
        forall|k: int|
            0 <= k < clips.len() ==> (#[trigger] clips[k]).0 < clips[k].2 && clips[k].1
                < clips[k].3,
    ensures
        all_coords(g, width, height).contains(c),
        exists|k: int, x: int, y: int|
            0 <= k < clips.len() && #[trigger] inside(clips[k], x, y) && x / (4 * g.width()) == c.0
                / (4 * g.width()) && y / (4 * g.height()) == c.1 / (4 * g.height()),
{
    let all = all_coords(g, width, height);
    lemma_picked(g, clips, all, c);
    lemma_coords_inside(g, width, height, 0);
    let j = choose|j: int| 0 <= j < all.len() && all[j] == c;
    assert(0 <= all[j].0 && 0 <= all[j].1);
    let k = choose|k: int| 0 <= k < clips.len() && clip_hits(g, #[trigger] clips[k], c);
    let clip = clips[k];
    let mx = c.0 - c.0 % (4 * g.width());
    let my = c.1 - c.1 % (4 * g.height());
    let x = if clip.0 > mx {
        clip.0 as int
    } else {
        mx
    };
    let y = if clip.1 > my {
        clip.1 as int
    } else {
        my
    };
    assert(x / (4 * g.width()) == c.0 / (4 * g.width()) && y / (4 * g.height()) == c.1 / (4
        * g.height())) by {
        if g.width() == 64 {
            assert(x / 256 == c.0 / 256 && y / 64 == c.1 / 64);
        } else {
            assert(x / 512 == c.0 / 512 && y / 32 == c.1 / 32);
        }
    }
    assert(inside(clips[k], x, y));
}

/// More damage never sends less.
pub proof fn law_more_damage_sends_more(
    g: Geometry,
    few: Seq<Clip>,
    many: Seq<Clip>,
    width: int,
    height: int,
    c: (int, int),
)
    requires
        damaged_coords(g, few, width, height).contains(c),
        forall|k: int| 0 <= k < few.len() ==> many.contains(#[trigger] few[k]),
    ensures
        damaged_coords(g, many, width, height).contains(c),
{
    let all = all_coords(g, width, height);
    lemma_picked(g, few, all, c);
    let k = choose|k: int| 0 <= k < few.len() && clip_hits(g, #[trigger] few[k], c);
    let j = choose|j: int| 0 <= j < many.len() && many[j] == few[k];
    assert(clip_hits(g, many[j], c));
    lemma_pick_keeps(g, many, all, c);
}

} // verus!
