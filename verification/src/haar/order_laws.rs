//! Every strip order is a permutation: a frame carries each of its strips exactly once.

use vstd::prelude::*;

use crate::haar::geometry::Geometry;
use crate::haar::order;

verus! {

/// Whether a list holds each of `0..n` exactly once.
pub open spec fn is_permutation(list: Seq<int>, n: nat) -> bool {
    &&& list.len() == n
    &&& forall|i: int| 0 <= i < n ==> 0 <= #[trigger] list[i] < n
    &&& forall|i: int, j: int| 0 <= i < j < n ==> #[trigger] list[i] != #[trigger] list[j]
}

/// Whether a list of strips is in producer band order, equals in their given order.
pub open spec fn ella_sorted(g: Geometry, strips: Seq<Seq<u8>>, list: Seq<int>) -> bool {
    forall|i: int, j: int|
        0 <= i < j < list.len() ==> {
            &&& order::ella_before(g, strips, #[trigger] list[i], #[trigger] list[j])
            &&& order::ella_before(g, strips, list[j], list[i]) ==> list[i] < list[j]
        }
}

/// Inserting a later strip keeps the order and adds that strip only.
proof fn lemma_ella_insert(g: Geometry, strips: Seq<Seq<u8>>, list: Seq<int>, n: int)
    requires
        ella_sorted(g, strips, list),
        forall|i: int| 0 <= i < list.len() ==> #[trigger] list[i] < n,
    ensures
        ella_sorted(g, strips, order::ella_insert(g, strips, list, n)),
        order::ella_insert(g, strips, list, n).len() == list.len() + 1,
        forall|i: int|
            0 <= i <= list.len() ==> {
                let v = #[trigger] order::ella_insert(g, strips, list, n)[i];
                v == n || list.contains(v)
            },
    decreases list.len(),
{
    let result = order::ella_insert(g, strips, list, n);
    if list.len() == 0 {
    } else if order::ella_before(g, strips, list.last(), n) {
        assert forall|i: int, j: int| 0 <= i < j < result.len() implies {
            &&& order::ella_before(g, strips, #[trigger] result[i], #[trigger] result[j])
            &&& order::ella_before(g, strips, result[j], result[i]) ==> result[i] < result[j]
        } by {
            if j == list.len() {
                let m = list.len() - 1;
                assert(i == m || order::ella_before(g, strips, list[i], list[m]));
            } else {
                assert(result[i] == list[i] && result[j] == list[j]);
            }
        }
        assert forall|i: int| 0 <= i <= list.len() implies {
            let v = #[trigger] result[i];
            v == n || list.contains(v)
        } by {
            if i < list.len() {
                assert(list[i] == result[i]);
            }
        }
    } else {
        let front = list.drop_last();
        let inner = order::ella_insert(g, strips, front, n);
        assert forall|i: int, j: int| 0 <= i < j < front.len() implies {
            &&& order::ella_before(g, strips, #[trigger] front[i], #[trigger] front[j])
            &&& order::ella_before(g, strips, front[j], front[i]) ==> front[i] < front[j]
        } by {
            assert(front[i] == list[i] && front[j] == list[j]);
        }
        lemma_ella_insert(g, strips, front, n);
        assert forall|i: int, j: int| 0 <= i < j < result.len() implies {
            &&& order::ella_before(g, strips, #[trigger] result[i], #[trigger] result[j])
            &&& order::ella_before(g, strips, result[j], result[i]) ==> result[i] < result[j]
        } by {
            if j == list.len() {
                let v = inner[i];
                assert(v == n || front.contains(v));
                if v != n {
                    let k = choose|k: int| 0 <= k < front.len() && front[k] == v;
                    assert(list[k] == v && list[list.len() - 1] == list.last());
                }
            } else {
                assert(result[i] == inner[i] && result[j] == inner[j]);
            }
        }
        assert forall|i: int| 0 <= i <= list.len() implies {
            let v = #[trigger] result[i];
            v == n || list.contains(v)
        } by {
            if i < list.len() {
                let v = inner[i];
                if v != n {
                    let k = choose|k: int| 0 <= k < front.len() && front[k] == v;
                    assert(list[k] == v);
                }
            } else {
                assert(list[list.len() - 1] == result[i]);
            }
        }
    }
}

/// The producer band order is sorted by band rank and column, keeps equals in their given
/// order, and holds each strip exactly once.
pub proof fn law_ella_order_is_a_stable_sort(g: Geometry, strips: Seq<Seq<u8>>, n: nat)
    ensures
        ella_sorted(g, strips, order::ella_order(g, strips, n)),
        is_permutation(order::ella_order(g, strips, n), n),
    decreases n,
{
    if n > 0 {
        let m = (n - 1) as nat;
        law_ella_order_is_a_stable_sort(g, strips, m);
        let list = order::ella_order(g, strips, m);
        lemma_ella_insert(g, strips, list, m as int);
        let result = order::ella_order(g, strips, n);
        assert forall|i: int| 0 <= i < n implies 0 <= #[trigger] result[i] < n by {
            let v = result[i];
            if v != m {
                let k = choose|k: int| 0 <= k < list.len() && list[k] == v;
                assert(0 <= list[k] < m);
            }
        }
        assert forall|i: int, j: int| 0 <= i < j < n implies #[trigger] result[i]
            != #[trigger] result[j] by {
            // Two equal entries would each have to stand strictly before the other.
            let a = result[i];
            assert(order::ella_before(g, strips, a, a));
        }
    }
}

/// The strips of one parity come out in increasing order, and only those.
proof fn lemma_parity_order(g: Geometry, strips: Seq<Seq<u8>>, parity: int, n: nat)
    ensures
        ({
            let list = order::parity_order(g, strips, parity, n);
            &&& forall|i: int|
                0 <= i < list.len() ==> 0 <= #[trigger] list[i] < n && order::band_of(
                    g,
                    strips[list[i]],
                ) % 2 == parity
            &&& forall|i: int, j: int|
                0 <= i < j < list.len() ==> #[trigger] list[i] < #[trigger] list[j]
        }),
    decreases n,
{
    if n > 0 {
        lemma_parity_order(g, strips, parity, (n - 1) as nat);
        let before = order::parity_order(g, strips, parity, (n - 1) as nat);
        let list = order::parity_order(g, strips, parity, n);
        assert forall|i: int| 0 <= i < list.len() implies 0 <= #[trigger] list[i] < n
            && order::band_of(g, strips[list[i]]) % 2 == parity by {
            if i < before.len() {
                assert(list[i] == before[i]);
            }
        }
        assert forall|i: int, j: int| 0 <= i < j < list.len() implies #[trigger] list[i]
            < #[trigger] list[j] by {
            assert(list[i] == before[i]);
            if j < before.len() {
                assert(list[j] == before[j]);
            }
        }
    }
}

/// Each strip is on one of the two parities.
proof fn lemma_parity_lengths(g: Geometry, strips: Seq<Seq<u8>>, n: nat)
    ensures
        order::parity_order(g, strips, 0, n).len() + order::parity_order(g, strips, 1, n).len()
            == n,
    decreases n,
{
    if n > 0 {
        lemma_parity_lengths(g, strips, (n - 1) as nat);
    }
}

/// The interlaced order holds each strip exactly once, every even band before every odd one.
pub proof fn law_interlaced_order_is_even_then_odd(g: Geometry, strips: Seq<Seq<u8>>, n: nat)
    ensures
        ({
            let even = order::parity_order(g, strips, 0, n);
            let list = even + order::parity_order(g, strips, 1, n);
            &&& is_permutation(list, n)
            &&& forall|i: int|
                0 <= i < n ==> (order::band_of(g, strips[#[trigger] list[i]]) % 2 == 0 <==> i
                    < even.len())
        }),
{
    let even = order::parity_order(g, strips, 0, n);
    let odd = order::parity_order(g, strips, 1, n);
    let list = even + odd;
    lemma_parity_order(g, strips, 0, n);
    lemma_parity_order(g, strips, 1, n);
    lemma_parity_lengths(g, strips, n);
    assert forall|i: int| 0 <= i < n implies 0 <= #[trigger] list[i] < n && (order::band_of(
        g,
        strips[list[i]],
    ) % 2 == 0 <==> i < even.len()) by {
        if i < even.len() {
            assert(list[i] == even[i]);
        } else {
            assert(list[i] == odd[i - even.len()]);
        }
    }
    assert forall|i: int, j: int| 0 <= i < j < n implies #[trigger] list[i]
        != #[trigger] list[j] by {
        if j < even.len() {
            assert(list[i] == even[i] && list[j] == even[j]);
        } else if i >= even.len() {
            assert(list[i] == odd[i - even.len()] && list[j] == odd[j - even.len()]);
        } else {
            assert(list[i] == even[i] && list[j] == odd[j - even.len()]);
        }
    }
}

/// The run of the ordinary order that carries, or begins, each row.
const ORDINARY_RUN_OF_ROW: [u8; 180] = [
    51, 0, 1, 52, 2, 53, 3, 54, 4, 55, 5, 56, 6, 57, 7, 58, 8, 59, 9, 60, 10, 61, 11, 62, 12, 63,
    13, 64, 65, 14, 66, 15, 67, 16, 68, 17, 69, 18, 70, 19, 71, 20, 72, 21, 73, 22, 74, 23, 75,
    24, 76, 25, 77, 26, 78, 27, 79, 28, 80, 29, 81, 30, 82, 31, 32, 83, 33, 84, 34, 85, 35, 86,
    36, 37, 87, 38, 88, 39, 89, 40, 90, 41, 91, 42, 92, 43, 93, 44, 94, 45, 95, 46, 96, 47, 97,
    48, 98, 49, 99, 50, 100, 103, 101, 105, 144, 106, 145, 107, 146, 108, 147, 109, 148, 110, 149,
    111, 150, 112, 113, 151, 114, 152, 115, 153, 154, 116, 155, 117, 156, 118, 157, 119, 158, 120,
    159, 121, 160, 122, 161, 123, 162, 124, 163, 164, 125, 165, 126, 166, 127, 167, 128, 168, 129,
    169, 130, 170, 131, 171, 132, 172, 133, 173, 134, 174, 135, 175, 136, 176, 137, 177, 138, 178,
    139, 179, 140, 180, 141, 181, 142, 182,
];

/// The run of the prologue order that carries, or begins, each row.
const PROLOGUE_RUN_OF_ROW: [u8; 180] = [
    0, 52, 1, 53, 2, 54, 3, 55, 4, 56, 5, 57, 6, 58, 7, 59, 8, 60, 9, 61, 10, 62, 11, 63, 12, 64,
    13, 65, 14, 15, 66, 16, 67, 17, 68, 18, 69, 19, 70, 20, 71, 21, 72, 22, 73, 23, 74, 24, 75,
    25, 76, 26, 77, 27, 28, 78, 79, 29, 80, 30, 31, 81, 32, 82, 33, 83, 34, 84, 35, 85, 36, 86,
    37, 87, 38, 88, 39, 89, 40, 90, 41, 91, 42, 92, 43, 93, 44, 94, 45, 95, 46, 96, 47, 97, 48,
    98, 49, 99, 50, 100, 51, 101, 102, 103, 140, 141, 142, 143, 144, 145, 104, 146, 105, 147, 106,
    148, 107, 149, 108, 150, 109, 151, 110, 152, 111, 153, 112, 154, 113, 155, 114, 156, 115, 157,
    116, 158, 117, 159, 118, 160, 119, 161, 120, 162, 121, 163, 122, 164, 123, 165, 124, 166, 125,
    167, 126, 168, 127, 169, 128, 170, 129, 171, 130, 172, 131, 173, 132, 174, 133, 175, 134, 176,
    135, 177, 136, 178, 137, 179, 138, 180,
];

/// The place of each band in the producer band order.
const ELLA_PLACE_OF_BAND: [u8; 68] = [
    0, 35, 36, 1, 37, 2, 38, 3, 39, 4, 40, 5, 41, 6, 42, 43, 7, 44, 8, 45, 46, 9, 47, 10, 48, 11,
    49, 12, 50, 13, 51, 14, 52, 15, 53, 16, 54, 17, 55, 18, 56, 19, 57, 20, 21, 58, 22, 59, 23,
    60, 24, 25, 61, 26, 62, 27, 28, 63, 29, 64, 30, 31, 65, 32, 66, 33, 34, 67,
];

/// Whether no strip belongs to two runs: runs of the same row cover different columns.
spec fn runs_disjoint(rows: Seq<u8>, ordinary: bool) -> bool {
    forall|a: int, b: int|
        0 <= a < b < rows.len() && #[trigger] rows[a] == #[trigger] rows[b] ==> {
            let sa = order::run_span(ordinary, a);
            let sb = order::run_span(ordinary, b);
            sa.1 <= sb.0 || sb.1 <= sa.0
        }
}

/// The ordinary runs carry every row once, three of them in two parts.
proof fn lemma_ordinary_rows(r: int)
    requires
        0 <= r < order::NAVARRO_ORDINARY_ROWS@.len(),
    ensures
        order::NAVARRO_ORDINARY_ROWS@[r] < 180,
        r != 102 && r != 104 && r != 143 ==> ORDINARY_RUN_OF_ROW@[
            order::NAVARRO_ORDINARY_ROWS@[r] as int
        ] == r,
        r == 102 ==> order::NAVARRO_ORDINARY_ROWS@[r] == order::NAVARRO_ORDINARY_ROWS@[50],
        r == 104 ==> order::NAVARRO_ORDINARY_ROWS@[r] == order::NAVARRO_ORDINARY_ROWS@[101],
        r == 143 ==> order::NAVARRO_ORDINARY_ROWS@[r] == order::NAVARRO_ORDINARY_ROWS@[103],
{
}

/// The prologue runs carry every row once, one of them in two parts.
proof fn lemma_prologue_rows(r: int)
    requires
        0 <= r < order::NAVARRO_PROLOGUE_ROWS@.len(),
    ensures
        order::NAVARRO_PROLOGUE_ROWS@[r] < 180,
        r != 139 ==> PROLOGUE_RUN_OF_ROW@[order::NAVARRO_PROLOGUE_ROWS@[r] as int] == r,
        r == 139 ==> order::NAVARRO_PROLOGUE_ROWS@[r] == order::NAVARRO_PROLOGUE_ROWS@[51],
{
}

/// The producer band order names each of the 68 bands exactly once.
pub proof fn law_ella_bands_appear_once(a: int, b: int)
    requires
        0 <= a < 68,
        0 <= b < 68,
        order::ELLA_ROWS_1080P@[a] == order::ELLA_ROWS_1080P@[b],
    ensures
        a == b,
        order::ELLA_ROWS_1080P@[a] < 68,
{
    lemma_ella_place(a);
    lemma_ella_place(b);
}

/// The place table inverts the producer band order.
proof fn lemma_ella_place(a: int)
    requires
        0 <= a < 68,
    ensures
        order::ELLA_ROWS_1080P@[a] < 68,
        ELLA_PLACE_OF_BAND@[order::ELLA_ROWS_1080P@[a] as int] == a,
{
}

/// No strip of the ordinary order belongs to two runs.
proof fn lemma_ordinary_disjoint()
    ensures
        runs_disjoint(order::NAVARRO_ORDINARY_ROWS@, true),
{
    let rows = order::NAVARRO_ORDINARY_ROWS@;
    assert forall|a: int, b: int|
        0 <= a < b < rows.len() && #[trigger] rows[a] == #[trigger] rows[b] implies {
        let sa = order::run_span(true, a);
        let sb = order::run_span(true, b);
        sa.1 <= sb.0 || sb.1 <= sa.0
    } by {
        lemma_ordinary_rows(a);
        lemma_ordinary_rows(b);
        lemma_ordinary_rows(50);
        lemma_ordinary_rows(101);
        lemma_ordinary_rows(103);
    }
}

/// No strip of the prologue order belongs to two runs.
proof fn lemma_prologue_disjoint()
    ensures
        runs_disjoint(order::NAVARRO_PROLOGUE_ROWS@, false),
{
    let rows = order::NAVARRO_PROLOGUE_ROWS@;
    assert forall|a: int, b: int|
        0 <= a < b < rows.len() && #[trigger] rows[a] == #[trigger] rows[b] implies {
        let sa = order::run_span(false, a);
        let sb = order::run_span(false, b);
        sa.1 <= sb.0 || sb.1 <= sa.0
    } by {
        lemma_prologue_rows(a);
        lemma_prologue_rows(b);
        lemma_prologue_rows(51);
    }
}

/// Whether strip `v` is in run `r`.
spec fn in_run(rows: Seq<u8>, ordinary: bool, r: int, v: int) -> bool {
    let s = order::run_span(ordinary, r);
    v / 20 == rows[r] && s.0 <= v % 20 < s.1
}

/// Whether strip `v` is in one of the first `n` runs.
spec fn in_some_run(rows: Seq<u8>, ordinary: bool, n: nat, v: int) -> bool {
    exists|r: int| 0 <= r < n && #[trigger] in_run(rows, ordinary, r, v)
}

/// The strips of disjoint runs are all different, and each belongs to one of the runs.
proof fn lemma_rows_order(rows: Seq<u8>, ordinary: bool, n: nat)
    requires
        n <= rows.len(),
        runs_disjoint(rows, ordinary),
    ensures
        ({
            let list = order::rows_order(rows, ordinary, n);
            &&& forall|i: int|
                0 <= i < list.len() ==> in_some_run(rows, ordinary, n, #[trigger] list[i])
            &&& forall|i: int, j: int|
                0 <= i < j < list.len() ==> #[trigger] list[i] != #[trigger] list[j]
        }),
    decreases n,
{
    if n > 0 {
        let m = (n - 1) as nat;
        lemma_rows_order(rows, ordinary, m);
        let before = order::rows_order(rows, ordinary, m);
        let span = order::run_span(ordinary, m as int);
        let run = order::run_strips(rows[m as int] as int, span);
        let list = order::rows_order(rows, ordinary, n);
        assert forall|k: int| 0 <= k < run.len() implies in_run(
            rows,
            ordinary,
            m as int,
            #[trigger] run[k],
        ) by {
            assert(run[k] == rows[m as int] * 20 + (span.0 + k));
        }
        assert forall|i: int| 0 <= i < list.len() implies in_some_run(
            rows,
            ordinary,
            n,
            #[trigger] list[i],
        ) by {
            if i < before.len() {
                assert(list[i] == before[i]);
                assert(in_some_run(rows, ordinary, m, before[i]));
                let r = choose|r: int| 0 <= r < m && #[trigger] in_run(rows, ordinary, r, before[i]);
                assert(in_run(rows, ordinary, r, list[i]));
            } else {
                assert(list[i] == run[i - before.len()]);
                assert(in_run(rows, ordinary, m as int, list[i]));
            }
        }
        assert forall|i: int, j: int| 0 <= i < j < list.len() implies #[trigger] list[i]
            != #[trigger] list[j] by {
            if j < before.len() {
                assert(list[i] == before[i] && list[j] == before[j]);
            } else if i >= before.len() {
                assert(list[i] == run[i - before.len()] && list[j] == run[j - before.len()]);
            } else {
                assert(list[i] == before[i] && list[j] == run[j - before.len()]);
                assert(in_some_run(rows, ordinary, m, before[i]));
                let r = choose|r: int| 0 <= r < m && #[trigger] in_run(rows, ordinary, r, before[i]);
                if list[i] == list[j] {
                    assert(rows[r] == rows[m as int]);
                }
            }
        }
    }
}

/// How many strips the first `n` ordinary runs hold.
proof fn lemma_ordinary_len(n: nat)
    ensures
        order::rows_order(order::NAVARRO_ORDINARY_ROWS@, true, n).len() == (if n <= 50 {
            20 * n as int
        } else if n <= 101 {
            20 * n - 12
        } else if n <= 102 {
            20 * n - 24
        } else if n <= 103 {
            20 * n - 32
        } else if n <= 104 {
            20 * n - 48
        } else if n <= 143 {
            20 * n - 56
        } else {
            20 * n - 60
        }),
    decreases n,
{
    if n > 0 {
        lemma_ordinary_len((n - 1) as nat);
    }
}

/// How many strips the first `n` prologue runs hold.
proof fn lemma_prologue_len(n: nat)
    ensures
        order::rows_order(order::NAVARRO_PROLOGUE_ROWS@, false, n).len() == (if n <= 51 {
            20 * n as int
        } else if n <= 139 {
            20 * n - 16
        } else {
            20 * n - 20
        }),
    decreases n,
{
    if n > 0 {
        lemma_prologue_len((n - 1) as nat);
    }
}

/// Both producer row orders carry each of the surface's 3600 strips exactly once.
pub proof fn law_navarro_orders_are_permutations()
    ensures
        is_permutation(
            order::rows_order(
                order::NAVARRO_ORDINARY_ROWS@,
                true,
                order::NAVARRO_ORDINARY_ROWS@.len(),
            ),
            3600,
        ),
        is_permutation(
            order::rows_order(
                order::NAVARRO_PROLOGUE_ROWS@,
                false,
                order::NAVARRO_PROLOGUE_ROWS@.len(),
            ),
            3600,
        ),
{
    lemma_ordinary_disjoint();
    lemma_prologue_disjoint();
    assert(forall|r: int|
        0 <= r < order::NAVARRO_ORDINARY_ROWS@.len() ==> #[trigger] order::NAVARRO_ORDINARY_ROWS@[r]
            < 180) by {
        assert forall|r: int|
            0 <= r
                < order::NAVARRO_ORDINARY_ROWS@.len() implies #[trigger] order::NAVARRO_ORDINARY_ROWS@[r]
            < 180 by {
            lemma_ordinary_rows(r);
        }
    }
    assert(forall|r: int|
        0 <= r < order::NAVARRO_PROLOGUE_ROWS@.len() ==> #[trigger] order::NAVARRO_PROLOGUE_ROWS@[r]
            < 180) by {
        assert forall|r: int|
            0 <= r
                < order::NAVARRO_PROLOGUE_ROWS@.len() implies #[trigger] order::NAVARRO_PROLOGUE_ROWS@[r]
            < 180 by {
            lemma_prologue_rows(r);
        }
    }
    lemma_ordinary_len(order::NAVARRO_ORDINARY_ROWS@.len());
    lemma_prologue_len(order::NAVARRO_PROLOGUE_ROWS@.len());
    lemma_rows_permute(order::NAVARRO_ORDINARY_ROWS@, true);
    lemma_rows_permute(order::NAVARRO_PROLOGUE_ROWS@, false);
}

/// Disjoint runs of 180 rows that hold 3600 strips hold each strip exactly once.
proof fn lemma_rows_permute(rows: Seq<u8>, ordinary: bool)
    requires
        runs_disjoint(rows, ordinary),
        forall|r: int| 0 <= r < rows.len() ==> #[trigger] rows[r] < 180,
        order::rows_order(rows, ordinary, rows.len()).len() == 3600,
    ensures
        is_permutation(order::rows_order(rows, ordinary, rows.len()), 3600),
{
    lemma_rows_order(rows, ordinary, rows.len());
    let list = order::rows_order(rows, ordinary, rows.len());
    assert forall|i: int| 0 <= i < 3600 implies 0 <= #[trigger] list[i] < 3600 by {
        assert(in_some_run(rows, ordinary, rows.len(), list[i]));
        let r = choose|r: int| 0 <= r < rows.len() && #[trigger] in_run(rows, ordinary, r, list[i]);
        assert(rows[r] < 180);
    }
}

/// Whatever the dock and the request, a frame carries each of its strips exactly once.
pub proof fn law_strip_order_is_a_permutation(
    g: Geometry,
    strips: Seq<Seq<u8>>,
    ordinary: Option<bool>,
)
    ensures
        is_permutation(order::strip_order(g, strips, ordinary), strips.len()),
{
    let n = strips.len();
    if ordinary is Some && order::navarro_layout(g, n as int) {
        law_navarro_orders_are_permutations();
    } else if order::ella_layout(g) {
        law_ella_order_is_a_stable_sort(g, strips, n);
    } else if g.interlaced_bands {
        law_interlaced_order_is_even_then_odd(g, strips, n);
    }
}

} // verus!
