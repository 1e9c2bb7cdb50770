//! The order in which a frame carries its strips.

use vstd::prelude::*;

use crate::bytes;
use crate::bytes::read_u16;
use crate::haar::geometry::Geometry;

verus! {

/// Producer row order of the frame that opens a 2560x1440 surface of 128x8 strips.
pub const NAVARRO_PROLOGUE_ROWS: [u8; 181] = [
    0, 2, 4, 6, 8, 10, 12, 14, 16, 18, 20, 22, 24, 26, 28, 29, 31, 33, 35, 37, 39, 41, 43, 45, 47,
    49, 51, 53, 54, 57, 59, 60, 62, 64, 66, 68, 70, 72, 74, 76, 78, 80, 82, 84, 86, 88, 90, 92,
    94, 96, 98, 100, 1, 3, 5, 7, 9, 11, 13, 15, 17, 19, 21, 23, 25, 27, 30, 32, 34, 36, 38, 40,
    42, 44, 46, 48, 50, 52, 55, 56, 58, 61, 63, 65, 67, 69, 71, 73, 75, 77, 79, 81, 83, 85, 87,
    89, 91, 93, 95, 97, 99, 101, 102, 103, 110, 112, 114, 116, 118, 120, 122, 124, 126, 128, 130,
    132, 134, 136, 138, 140, 142, 144, 146, 148, 150, 152, 154, 156, 158, 160, 162, 164, 166, 168,
    170, 172, 174, 176, 178, 100, 104, 105, 106, 107, 108, 109, 111, 113, 115, 117, 119, 121, 123,
    125, 127, 129, 131, 133, 135, 137, 139, 141, 143, 145, 147, 149, 151, 153, 155, 157, 159, 161,
    163, 165, 167, 169, 171, 173, 175, 177, 179,
];

/// Producer band order of a 1920x1080 surface of 64x16 strips with interlaced bands.
pub const ELLA_ROWS_1080P: [u8; 68] = [
    0, 3, 5, 7, 9, 11, 13, 16, 18, 21, 23, 25, 27, 29, 31, 33, 35, 37, 39, 41, 43, 44, 46, 48, 50,
    51, 53, 55, 56, 58, 60, 61, 63, 65, 66, 1, 2, 4, 6, 8, 10, 12, 14, 15, 17, 19, 20, 22, 24, 26,
    28, 30, 32, 34, 36, 38, 40, 42, 45, 47, 49, 52, 54, 57, 59, 62, 64, 67,
];

/// Producer row order of every later frame of a 2560x1440 surface of 128x8 strips.
pub const NAVARRO_ORDINARY_ROWS: [u8; 183] = [
    1, 2, 4, 6, 8, 10, 12, 14, 16, 18, 20, 22, 24, 26, 29, 31, 33, 35, 37, 39, 41, 43, 45, 47, 49,
    51, 53, 55, 57, 59, 61, 63, 64, 66, 68, 70, 72, 73, 75, 77, 79, 81, 83, 85, 87, 89, 91, 93,
    95, 97, 99, 0, 3, 5, 7, 9, 11, 13, 15, 17, 19, 21, 23, 25, 27, 28, 30, 32, 34, 36, 38, 40, 42,
    44, 46, 48, 50, 52, 54, 56, 58, 60, 62, 65, 67, 69, 71, 74, 76, 78, 80, 82, 84, 86, 88, 90,
    92, 94, 96, 98, 100, 102, 99, 101, 102, 103, 105, 107, 109, 111, 113, 115, 117, 118, 120, 122,
    125, 127, 129, 131, 133, 135, 137, 139, 141, 144, 146, 148, 150, 152, 154, 156, 158, 160, 162,
    164, 166, 168, 170, 172, 174, 176, 178, 101, 104, 106, 108, 110, 112, 114, 116, 119, 121, 123,
    124, 126, 128, 130, 132, 134, 136, 138, 140, 142, 143, 145, 147, 149, 151, 153, 155, 157, 159,
    161, 163, 165, 167, 169, 171, 173, 175, 177, 179,
];

/// The column a strip states.
pub open spec fn x_of(s: Seq<u8>) -> int {
    bytes::u16_at(s, 2)
}

/// The row a strip states.
pub open spec fn y_of(s: Seq<u8>) -> int {
    bytes::u16_at(s, 4)
}

/// The band of strips a strip belongs to.
pub open spec fn band_of(g: Geometry, s: Seq<u8>) -> int {
    y_of(s) / g.height()
}

/// Whether every strip is long enough to state its position.
pub open spec fn placed(strips: Seq<Seq<u8>>) -> bool {
    forall|i: int| 0 <= i < strips.len() ==> (#[trigger] strips[i]).len() >= 6
}

/// The contents of a list of byte buffers.
pub open spec fn contents(strips: Seq<Vec<u8>>) -> Seq<Seq<u8>> {
    Seq::new(strips.len(), |i: int| strips[i]@)
}

/// A strip's row, which its builder writes at byte 4.
pub fn strip_y(s: &[u8]) -> (y: u16)
    requires
        s@.len() >= 6,
    ensures
        y == y_of(s@),
{
    read_u16(s, 4)
}

/// A strip's column, which its builder writes at byte 2.
pub fn strip_x(s: &[u8]) -> (x: u16)
    requires
        s@.len() >= 4,
    ensures
        x == x_of(s@),
{
    read_u16(s, 2)
}

/// The band of a strip.
fn band(g: Geometry, s: &[u8]) -> (b: u16)
    requires
        g.shaped(),
        s@.len() >= 6,
    ensures
        b == band_of(g, s@),
{
    let h: u16 = if g.strip_h_shift == 3 {
        8
    } else {
        16
    };
    strip_y(s) / h
}

/// Whether the surface is the 2560x1440 one of 128x8 strips whose producer order is known.
pub open spec fn navarro_layout(g: Geometry, count: int) -> bool {
    g.interlaced_bands && g.width() == 128 && count == 3600
}

/// Whether the dock takes 64-wide strips in a producer band order.
pub open spec fn ella_layout(g: Geometry) -> bool {
    g.interlaced_bands && g.width() == 64
}

/// The columns that run `run` of a producer row order covers: whole rows but at the workers'
/// boundaries.
pub open spec fn run_span(ordinary: bool, run: int) -> (int, int) {
    if ordinary {
        if run == 50 || run == 101 {
            (0, 8)
        } else if run == 102 || run == 104 {
            (8, 20)
        } else if run == 103 {
            (0, 4)
        } else if run == 143 {
            (4, 20)
        } else {
            (0, 20)
        }
    } else {
        if run == 51 {
            (0, 4)
        } else if run == 139 {
            (4, 20)
        } else {
            (0, 20)
        }
    }
}

/// The strips of a run, left to right, on a surface twenty strips wide.
pub open spec fn run_strips(row: int, span: (int, int)) -> Seq<int> {
    Seq::new((span.1 - span.0) as nat, |j: int| row * 20 + span.0 + j)
}

/// The strips of the first `n` runs of a producer row order.
pub open spec fn rows_order(rows: Seq<u8>, ordinary: bool, n: nat) -> Seq<int>
    decreases n,
{
    if n == 0 {
        Seq::empty()
    } else {
        rows_order(rows, ordinary, (n - 1) as nat) + run_strips(
            rows[n - 1] as int,
            run_span(ordinary, n - 1),
        )
    }
}

/// The first position of `b` in a table from `from` on, or `usize::MAX`.
pub open spec fn position(table: Seq<u8>, b: int, from: int) -> int
    decreases table.len() - from,
{
    if from >= table.len() {
        usize::MAX as int
    } else if table[from] == b {
        from
    } else {
        position(table, b, from + 1)
    }
}

/// Where a strip's band stands in the producer band order; bands outside it come last.
pub open spec fn ella_rank(g: Geometry, s: Seq<u8>) -> int {
    position(ELLA_ROWS_1080P@, band_of(g, s) % 256, 0)
}

/// Whether strip `a` may stand before strip `b`: by band rank, then by column.
pub open spec fn ella_before(g: Geometry, strips: Seq<Seq<u8>>, a: int, b: int) -> bool {
    let ra = ella_rank(g, strips[a]);
    let rb = ella_rank(g, strips[b]);
    ra < rb || (ra == rb && x_of(strips[a]) <= x_of(strips[b]))
}

/// Strip `n` put into an ordered list, after everything that may stand before it.
pub open spec fn ella_insert(g: Geometry, strips: Seq<Seq<u8>>, list: Seq<int>, n: int) -> Seq<int>
    decreases list.len(),
{
    if list.len() == 0 || ella_before(g, strips, list.last(), n) {
        list.push(n)
    } else {
        ella_insert(g, strips, list.drop_last(), n).push(list.last())
    }
}

/// The first `n` strips in producer band order; equals keep their order.
pub open spec fn ella_order(g: Geometry, strips: Seq<Seq<u8>>, n: nat) -> Seq<int>
    decreases n,
{
    if n == 0 {
        Seq::empty()
    } else {
        ella_insert(g, strips, ella_order(g, strips, (n - 1) as nat), n - 1)
    }
}

/// Those of the first `n` strips whose band has the given parity, in order.
pub open spec fn parity_order(
    g: Geometry,
    strips: Seq<Seq<u8>>,
    parity: int,
    n: nat,
) -> Seq<int>
    decreases n,
{
    if n == 0 {
        Seq::empty()
    } else {
        let before = parity_order(g, strips, parity, (n - 1) as nat);
        if band_of(g, strips[n - 1]) % 2 == parity {
            before.push(n - 1)
        } else {
            before
        }
    }
}

/// The order in which a frame carries its strips.
///
/// The known 2560x1440 surface follows its producer rows where the caller asks for them; a dock
/// of 64-wide interlaced strips takes the producer band order; any other interlaced dock takes
/// the even bands before the odd ones; the rest take raster order.
pub open spec fn strip_order(
    g: Geometry,
    strips: Seq<Seq<u8>>,
    ordinary: Option<bool>,
) -> Seq<int> {
    let n = strips.len();
    if ordinary is Some && navarro_layout(g, n as int) {
        if ordinary->0 {
            rows_order(NAVARRO_ORDINARY_ROWS@, true, NAVARRO_ORDINARY_ROWS@.len())
        } else {
            rows_order(NAVARRO_PROLOGUE_ROWS@, false, NAVARRO_PROLOGUE_ROWS@.len())
        }
    } else if ella_layout(g) {
        ella_order(g, strips, n)
    } else if g.interlaced_bands {
        parity_order(g, strips, 0, n) + parity_order(g, strips, 1, n)
    } else {
        Seq::new(n, |i: int| i)
    }
}

/// The mathematical values of a list of indices.
pub open spec fn indices(v: Seq<usize>) -> Seq<int> {
    Seq::new(v.len(), |i: int| v[i] as int)
}

/// Build a producer row order.
fn rows_indices(rows: &[u8], ordinary: bool) -> (order: Vec<usize>)
    ensures
        indices(order@) == rows_order(rows@, ordinary, rows@.len()),
{
    let mut order: Vec<usize> = Vec::new();
    assert(indices(order@) =~= Seq::<int>::empty());
    let mut run: usize = 0;
    while run < rows.len()
        invariant
            run <= rows@.len(),
            indices(order@) == rows_order(rows@, ordinary, run as nat),
        decreases rows@.len() - run,
    {
        let row: usize = rows[run] as usize;
        let (x0, x1): (usize, usize) = if ordinary {
            if run == 50 || run == 101 {
                (0, 8)
            } else if run == 102 || run == 104 {
                (8, 20)
            } else if run == 103 {
                (0, 4)
            } else if run == 143 {
                (4, 20)
            } else {
                (0, 20)
            }
        } else {
            if run == 51 {
                (0, 4)
            } else if run == 139 {
                (4, 20)
            } else {
                (0, 20)
            }
        };
        let ghost before = indices(order@);
        let ghost strips = run_strips(row as int, (x0 as int, x1 as int));
        let mut x: usize = x0;
        while x < x1
            invariant
                x0 <= x <= x1 <= 20,
                row <= 255,
                strips == run_strips(row as int, (x0 as int, x1 as int)),
                indices(order@) == before + strips.take(x - x0),
            decreases x1 - x,
        {
            let ghost so_far = order@;
            order.push(row * 20 + x);
            assert(indices(order@) =~= indices(so_far).push((row * 20 + x) as int));
            x += 1;
            assert(indices(order@) =~= before + strips.take(x - x0));
        }
        assert(indices(order@) =~= before + strips);
        run += 1;
    }
    order
}

/// A strip's band rank.
fn rank(g: Geometry, s: &[u8]) -> (r: usize)
    requires
        g.shaped(),
        s@.len() >= 6,
    ensures
        r == ella_rank(g, s@),
{
    let b: u16 = band(g, s) % 256;
    let mut i: usize = 0;
    while i < 68
        invariant
            i <= 68,
            b == band_of(g, s@) % 256,
            position(ELLA_ROWS_1080P@, b as int, 0) == position(
                ELLA_ROWS_1080P@,
                b as int,
                i as int,
            ),
        decreases 68 - i,
    {
        if ELLA_ROWS_1080P[i] as u16 == b {
            return i;
        }
        i += 1;
    }
    usize::MAX
}

/// Build the producer band order by insertion.
fn ella_indices(g: Geometry, strips: &[Vec<u8>]) -> (order: Vec<usize>)
    requires
        g.shaped(),
        placed(contents(strips@)),
    ensures
        indices(order@) == ella_order(g, contents(strips@), strips@.len()),
{
    let ghost c = contents(strips@);
    let mut order: Vec<usize> = Vec::new();
    assert(indices(order@) =~= Seq::<int>::empty());
    let mut n: usize = 0;
    while n < strips.len()
        invariant
            n <= strips@.len(),
            g.shaped(),
            c == contents(strips@),
            placed(c),
            indices(order@) == ella_order(g, c, n as nat),
            forall|i: int| 0 <= i < order@.len() ==> (#[trigger] order@[i]) < n,
        decreases strips@.len() - n,
    {
        assert(c[n as int].len() >= 6);
        let rn: usize = rank(g, &strips[n]);
        let xn: u16 = strip_x(&strips[n]);
        let ghost list = indices(order@);
        let mut b: usize = order.len();
        let mut settled: bool = false;
        proof {
            assert(list.take(b as int) =~= list);
            let all = ella_insert(g, c, list, n as int);
            assert(all =~= all + list.skip(b as int));
        }
        while b > 0 && !settled
            invariant
                b <= order@.len(),
                n < strips@.len(),
                g.shaped(),
                c == contents(strips@),
                placed(c),
                rn == ella_rank(g, c[n as int]),
                xn == x_of(c[n as int]),
                list == indices(order@),
                forall|i: int| 0 <= i < order@.len() ==> (#[trigger] order@[i]) < n,
                ella_insert(g, c, list, n as int) == ella_insert(
                    g,
                    c,
                    list.take(b as int),
                    n as int,
                ) + list.skip(b as int),
                settled ==> b > 0 && ella_before(g, c, list[b - 1], n as int),
            decreases b, (if settled {
                0int
            } else {
                1int
            }),
        {
            let l: usize = order[b - 1];
            assert(c[l as int].len() >= 6);
            assert(list[b - 1] == l);
            let rl: usize = rank(g, &strips[l]);
            if rl < rn || (rl == rn && strip_x(&strips[l]) <= xn) {
                settled = true;
            } else {
                proof {
                    let t = list.take(b as int);
                    assert(t.last() == l);
                    assert(t.drop_last() =~= list.take(b - 1));
                    let inner = ella_insert(g, c, t.drop_last(), n as int);
                    assert(inner.push(t.last()) + list.skip(b as int) =~= inner + list.skip(
                        b - 1,
                    ));
                }
                b = b - 1;
            }
        }
        proof {
            let t = list.take(b as int);
            if b > 0 {
                assert(t.last() == list[b - 1]);
            }
            assert(ella_insert(g, c, t, n as int) == t.push(n as int));
        }
        order.insert(b, n);
        assert(indices(order@) =~= list.take(b as int).push(n as int) + list.skip(b as int));
        n += 1;
    }
    order
}

/// Append the strips of one band parity.
fn parity_indices(g: Geometry, strips: &[Vec<u8>], parity: u16, order: &mut Vec<usize>)
    requires
        g.shaped(),
        placed(contents(strips@)),
    ensures
        indices(final(order)@) == indices(old(order)@) + parity_order(
            g,
            contents(strips@),
            parity as int,
            strips@.len(),
        ),
{
    let ghost c = contents(strips@);
    let ghost before = indices(order@);
    assert(before =~= before + parity_order(g, c, parity as int, 0));
    let mut n: usize = 0;
    while n < strips.len()
        invariant
            n <= strips@.len(),
            g.shaped(),
            c == contents(strips@),
            placed(c),
            indices(order@) == before + parity_order(g, c, parity as int, n as nat),
        decreases strips@.len() - n,
    {
        assert(c[n as int].len() >= 6);
        let ghost so_far = order@;
        if band(g, &strips[n]) % 2 == parity {
            order.push(n);
            assert(indices(order@) =~= indices(so_far).push(n as int));
            assert(indices(order@) =~= before + parity_order(
                g,
                c,
                parity as int,
                (n + 1) as nat,
            ));
        }
        n += 1;
    }
}

/// The order in which a frame carries its strips; see [`strip_order`].
pub fn order_strips(g: Geometry, strips: &[Vec<u8>], ordinary: Option<bool>) -> (order: Vec<usize>)
    requires
        g.shaped(),
        placed(contents(strips@)),
    ensures
        indices(order@) == strip_order(g, contents(strips@), ordinary),
{
    let n: usize = strips.len();
    let navarro: bool = g.interlaced_bands && g.strip_w() == 128 && n == 3600;
    if navarro {
        match ordinary {
            Some(true) => {
                return rows_indices(&NAVARRO_ORDINARY_ROWS, true);
            },
            Some(false) => {
                return rows_indices(&NAVARRO_PROLOGUE_ROWS, false);
            },
            None => {},
        }
    }
    if g.interlaced_bands && g.strip_w() == 64 {
        return ella_indices(g, strips);
    }
    let mut order: Vec<usize> = Vec::new();
    if g.interlaced_bands {
        assert(indices(order@) =~= Seq::<int>::empty());
        parity_indices(g, strips, 0, &mut order);
        parity_indices(g, strips, 1, &mut order);
        assert(indices(order@) =~= strip_order(g, contents(strips@), ordinary));
        return order;
    }
    let mut i: usize = 0;
    while i < n
        invariant
            i <= n,
            indices(order@) == Seq::new(i as nat, |k: int| k),
        decreases n - i,
    {
        let ghost so_far = order@;
        order.push(i);
        assert(indices(order@) =~= indices(so_far).push(i as int));
        i += 1;
        assert(indices(order@) =~= Seq::new(i as nat, |k: int| k));
    }
    assert(indices(order@) =~= strip_order(g, contents(strips@), ordinary));
    order
}

} // verus!
