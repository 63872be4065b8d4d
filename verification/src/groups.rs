//! Connected groups of same-colour puyos: what a group is, and what a
//! complete listing of a board's groups is.

use vstd::prelude::*;
use crate::board::{Group, PuyoColor};
use crate::config::GameConfig;
use crate::grid::{Cell, cell_index, color_at, in_grid, in_visible};

verus! {

/// Position of a cell in the column-major order (also the board's scan order).
pub open spec fn cidx(cfg: GameConfig, x: Cell) -> int {
    cell_index(cfg, x.0 as int, x.1 as int)
}

pub open spec fn cgrid(cfg: GameConfig, x: Cell) -> bool {
    in_grid(cfg, x.0 as int, x.1 as int)
}

pub open spec fn cvis(cfg: GameConfig, x: Cell) -> bool {
    in_visible(cfg, x.0 as int, x.1 as int)
}

pub open spec fn ccolor(cfg: GameConfig, s: Seq<PuyoColor>, x: Cell) -> PuyoColor {
    color_at(cfg, s, x.0 as int, x.1 as int)
}

/// Orthogonal neighbours.
pub open spec fn adjacent(a: Cell, b: Cell) -> bool {
    ||| a.0 == b.0 && (a.1 + 1 == b.1 || b.1 + 1 == a.1)
    ||| a.1 == b.1 && (a.0 + 1 == b.0 || b.0 + 1 == a.0)
}

/// Every visible neighbour of `x` that has colour `color` is among `cells`.
pub open spec fn closed_at(
    cfg: GameConfig,
    s: Seq<PuyoColor>,
    color: PuyoColor,
    cells: Seq<Cell>,
    x: Cell,
) -> bool {
    forall|n: Cell|
        cvis(cfg, n) && #[trigger] adjacent(x, n) && ccolor(cfg, s, n) == color ==> cells.contains(n)
}

/// Each cell after the first is a neighbour of an earlier one, so the cells
/// are connected.
pub open spec fn tree_ordered(cells: Seq<Cell>) -> bool {
    forall|i: int| 1 <= i < cells.len() ==> #[trigger] has_earlier_neighbor(cells, i)
}

/// Cell `i` is a neighbour of some cell before it.
pub open spec fn has_earlier_neighbor(cells: Seq<Cell>, i: int) -> bool {
    exists|j: int| 0 <= j < i && #[trigger] adjacent(cells[i], cells[j])
}

/// `cells` is a connected component of colour `color` in the visible rows:
/// distinct visible cells of that colour, connected, and holding every visible
/// same-colour neighbour of each of its cells.
pub open spec fn is_group(cfg: GameConfig, s: Seq<PuyoColor>, color: PuyoColor, cells: Seq<Cell>) -> bool {
    &&& color != PuyoColor::Empty
    &&& cells.len() > 0
    &&& cells.no_duplicates()
    &&& forall|i: int|
        0 <= i < cells.len() ==> cvis(cfg, #[trigger] cells[i]) && ccolor(cfg, s, cells[i]) == color
    &&& tree_ordered(cells)
    &&& forall|i: int| 0 <= i < cells.len() ==> closed_at(cfg, s, color, cells, #[trigger] cells[i])
}

/// A group as the mathematics sees it: its colour and its cells in order.
pub type GroupView = (PuyoColor, Seq<Cell>);

pub open spec fn group_view(g: Group) -> GroupView {
    (g.color, g.cells@)
}

pub open spec fn groups_view(gs: Seq<Group>) -> Seq<GroupView> {
    gs.map_values(|g: Group| group_view(g))
}

/// One step of the breadth-first search: `(c, r)` is appended to `cells`
/// when it is a visible cell of colour `color`, not marked in `marks` (cells
/// visited before the search) and not listed yet.
pub open spec fn bfs_add(
    cfg: GameConfig,
    s: Seq<PuyoColor>,
    color: PuyoColor,
    marks: Seq<bool>,
    cells: Seq<Cell>,
    c: int,
    r: int,
) -> Seq<Cell> {
    if in_visible(cfg, c, r) && color_at(cfg, s, c, r) == color && !marks[cell_index(cfg, c, r)]
        && !cells.contains((c as usize, r as usize)) {
        cells.push((c as usize, r as usize))
    } else {
        cells
    }
}

/// The search visits the neighbours of `x` left, right, below, then above.
pub open spec fn bfs_expand(
    cfg: GameConfig,
    s: Seq<PuyoColor>,
    color: PuyoColor,
    marks: Seq<bool>,
    cells: Seq<Cell>,
    x: Cell,
) -> Seq<Cell> {
    let c = x.0 as int;
    let r = x.1 as int;
    let c1 = bfs_add(cfg, s, color, marks, cells, c - 1, r);
    let c2 = bfs_add(cfg, s, color, marks, c1, c + 1, r);
    let c3 = bfs_add(cfg, s, color, marks, c2, c, r - 1);
    bfs_add(cfg, s, color, marks, c3, c, r + 1)
}

/// The search from the queue `cells`, whose entries before `head` are
/// expanded already, for at most `fuel` more expansions.
pub open spec fn bfs_from(
    cfg: GameConfig,
    s: Seq<PuyoColor>,
    color: PuyoColor,
    marks: Seq<bool>,
    cells: Seq<Cell>,
    head: int,
    fuel: nat,
) -> Seq<Cell>
    decreases fuel,
{
    if fuel == 0 || head < 0 || head >= cells.len() {
        cells
    } else {
        bfs_from(
            cfg,
            s,
            color,
            marks,
            bfs_expand(cfg, s, color, marks, cells, cells[head]),
            head + 1,
            (fuel - 1) as nat,
        )
    }
}

/// The cells a breadth-first search from `x` finds through visible cells of
/// `x`'s colour not marked in `marks`, in the order it finds them
/// (neighbours left, right, below, above).  The board has `cols * rows`
/// cells, enough expansions for any search.
pub open spec fn bfs_visit(cfg: GameConfig, s: Seq<PuyoColor>, marks: Seq<bool>, x: Cell) -> Seq<Cell> {
    bfs_from(cfg, s, ccolor(cfg, s, x), marks, seq![x], 0, (cfg.cols * cfg.rows) as nat)
}

/// No cell marked.
pub open spec fn no_marks(cfg: GameConfig) -> Seq<bool> {
    Seq::new((cfg.cols * cfg.rows) as nat, |i: int| false)
}

/// The cells of the group of `x` in the order a breadth-first search from
/// `x` finds them.
#[verifier::opaque]
pub open spec fn bfs_group(cfg: GameConfig, s: Seq<PuyoColor>, x: Cell) -> Seq<Cell> {
    bfs_visit(cfg, s, no_marks(cfg), x)
}

/// `gs` lists the connected components of the board's visible rows, each
/// once, each starting at its first cell in column-major order and going on
/// in breadth-first order from it, in the order of those first cells.
#[verifier::opaque]
pub open spec fn is_decomposition(cfg: GameConfig, s: Seq<PuyoColor>, gs: Seq<GroupView>) -> bool {
    &&& forall|k: int| 0 <= k < gs.len() ==> is_group(cfg, s, (#[trigger] gs[k]).0, gs[k].1)
    &&& forall|k1: int, k2: int, x: Cell|
        0 <= k1 < gs.len() && 0 <= k2 < gs.len() && k1 != k2 && (#[trigger] gs[k1].1.contains(x))
            ==> !(#[trigger] gs[k2].1.contains(x))
    &&& forall|x: Cell|
        cvis(cfg, x) && ccolor(cfg, s, x) != PuyoColor::Empty ==> exists|k: int|
            0 <= k < gs.len() && (#[trigger] gs[k].1.contains(x))
    &&& forall|k: int, i: int|
        0 <= k < gs.len() && 0 <= i < gs[k].1.len() ==> cidx(cfg, gs[k].1[0]) <= cidx(
            cfg,
            #[trigger] gs[k].1[i],
        )
    &&& forall|k1: int, k2: int|
        0 <= k1 < k2 < gs.len() ==> cidx(cfg, (#[trigger] gs[k1]).1[0]) < cidx(
            cfg,
            (#[trigger] gs[k2]).1[0],
        )
    &&& forall|k: int| 0 <= k < gs.len() ==> (#[trigger] gs[k]).1 == bfs_group(cfg, s, gs[k].1[0])
}

/// Facts about one listing, one at a time.
pub proof fn lemma_decomposition_facts(cfg: GameConfig, s: Seq<PuyoColor>, d: Seq<GroupView>)
    requires
        is_decomposition(cfg, s, d),
    ensures
        forall|k: int| 0 <= k < d.len() ==> is_group(cfg, s, (#[trigger] d[k]).0, d[k].1),
        forall|k1: int, k2: int|
            0 <= k1 < k2 < d.len() ==> cidx(cfg, (#[trigger] d[k1]).1[0]) < cidx(
                cfg,
                (#[trigger] d[k2]).1[0],
            ),
        forall|k: int| 0 <= k < d.len() ==> (#[trigger] d[k]).1 == bfs_group(cfg, s, d[k].1[0]),
{
    reveal(is_decomposition);
}

/// The groups of `gs` with at least four cells, in order.
pub open spec fn clearable(gs: Seq<GroupView>) -> Seq<GroupView>
    decreases gs.len(),
{
    if gs.len() == 0 {
        Seq::empty()
    } else if gs.last().1.len() >= 4 {
        clearable(gs.drop_last()).push(gs.last())
    } else {
        clearable(gs.drop_last())
    }
}

// ---- Bookkeeping for the scan ----

/// Cell `x` comes before `(col, row)` in the column-major scan.
pub open spec fn scanned(x: Cell, col: int, row: int) -> bool {
    x.0 < col || (x.0 == col && x.1 < row)
}

/// While scanning the board up to `(col, row)`: `gs` lists the groups found so
/// far, whose cells are exactly the cells marked in `v`, each group starting
/// at its first cell in scan order, and every visible filled cell scanned so
/// far is marked.
pub open spec fn scan_inv(
    cfg: GameConfig,
    s: Seq<PuyoColor>,
    v: Seq<bool>,
    gs: Seq<GroupView>,
    col: int,
    row: int,
) -> bool {
    &&& visited_ok(cfg, s, v)
    &&& forall|x: Cell|
        #![trigger v[cidx(cfg, x)]]
        cgrid(cfg, x) ==> (v[cidx(cfg, x)] <==> exists|k: int|
            0 <= k < gs.len() && (#[trigger] gs[k].1.contains(x)))
    &&& forall|k: int| 0 <= k < gs.len() ==> is_group(cfg, s, (#[trigger] gs[k]).0, gs[k].1)
    &&& forall|k1: int, k2: int, x: Cell|
        0 <= k1 < gs.len() && 0 <= k2 < gs.len() && k1 != k2 && (#[trigger] gs[k1].1.contains(x))
            ==> !(#[trigger] gs[k2].1.contains(x))
    &&& forall|x: Cell|
        cvis(cfg, x) && ccolor(cfg, s, x) != PuyoColor::Empty && scanned(x, col, row)
            ==> #[trigger] v[cidx(cfg, x)]
    &&& forall|k: int| 0 <= k < gs.len() ==> scanned((#[trigger] gs[k]).1[0], col, row)
    &&& forall|k: int, i: int|
        0 <= k < gs.len() && 0 <= i < gs[k].1.len() ==> cidx(cfg, gs[k].1[0]) <= cidx(
            cfg,
            #[trigger] gs[k].1[i],
        )
    &&& forall|k1: int, k2: int|
        0 <= k1 < k2 < gs.len() ==> cidx(cfg, (#[trigger] gs[k1]).1[0]) < cidx(
            cfg,
            (#[trigger] gs[k2]).1[0],
        )
    &&& forall|k: int| 0 <= k < gs.len() ==> (#[trigger] gs[k]).1 == bfs_group(cfg, s, gs[k].1[0])
}

// ---- Bookkeeping for the flood fill ----

/// A visited map: only visible filled cells are marked, and the marked set is
/// closed under same-colour neighbours (it is a union of whole groups).
pub open spec fn visited_ok(cfg: GameConfig, s: Seq<PuyoColor>, v: Seq<bool>) -> bool {
    &&& v.len() == cfg.cols * cfg.rows
    &&& forall|x: Cell|
        cgrid(cfg, x) && #[trigger] v[cidx(cfg, x)] ==> cvis(cfg, x) && ccolor(cfg, s, x)
            != PuyoColor::Empty
    &&& forall|x: Cell, n: Cell|
        cgrid(cfg, x) && #[trigger] v[cidx(cfg, x)] && cvis(cfg, n) && #[trigger] adjacent(x, n)
            && ccolor(cfg, s, n) == ccolor(cfg, s, x) ==> v[cidx(cfg, n)]
}

/// During a flood fill from a map `v0`: the map `v` marks exactly the cells of
/// `v0` and the cells found so far, which are distinct, visible, of colour
/// `color`, and not in `v0`.
pub open spec fn flood_inv(
    cfg: GameConfig,
    s: Seq<PuyoColor>,
    color: PuyoColor,
    v0: Seq<bool>,
    v: Seq<bool>,
    cells: Seq<Cell>,
) -> bool {
    &&& v.len() == cfg.cols * cfg.rows
    &&& v0.len() == cfg.cols * cfg.rows
    &&& forall|x: Cell|
        #![trigger v[cidx(cfg, x)]]
        #![trigger cells.contains(x)]
        cgrid(cfg, x) ==> (v[cidx(cfg, x)] == (v0[cidx(cfg, x)] || cells.contains(x)))
    &&& forall|i: int|
        0 <= i < cells.len() ==> cvis(cfg, #[trigger] cells[i]) && ccolor(cfg, s, cells[i]) == color
            && !v0[cidx(cfg, cells[i])]
    &&& cells.no_duplicates()
}

/// Number of `false` entries.
pub open spec fn count_false(s: Seq<bool>) -> nat
    decreases s.len(),
{
    if s.len() == 0 {
        0
    } else {
        count_false(s.drop_last()) + if s.last() {
            0nat
        } else {
            1nat
        }
    }
}

pub proof fn lemma_count_false_update(s: Seq<bool>, i: int)
    requires
        0 <= i < s.len(),
        !s[i],
    ensures
        count_false(s.update(i, true)) + 1 == count_false(s),
    decreases s.len(),
{
    if i == s.len() - 1 {
        assert(s.update(i, true).drop_last() =~= s.drop_last());
    } else {
        assert(s.update(i, true).drop_last() =~= s.drop_last().update(i, true));
        lemma_count_false_update(s.drop_last(), i);
    }
}

pub proof fn lemma_count_false_le(s: Seq<bool>)
    ensures
        count_false(s) <= s.len(),
    decreases s.len(),
{
    if s.len() > 0 {
        lemma_count_false_le(s.drop_last());
    }
}

/// A cell next to a cell `x` outside a visited map `v` either has another
/// colour or is outside the map too: the map is a union of whole groups.
pub proof fn lemma_neighbor_unmarked(cfg: GameConfig, s: Seq<PuyoColor>, v: Seq<bool>, x: Cell, n: Cell)
    requires
        visited_ok(cfg, s, v),
        cvis(cfg, x),
        !v[cidx(cfg, x)],
        cvis(cfg, n),
        adjacent(x, n),
    ensures
        ccolor(cfg, s, n) != ccolor(cfg, s, x) || !v[cidx(cfg, n)],
{
    if ccolor(cfg, s, n) == ccolor(cfg, s, x) && v[cidx(cfg, n)] {
        assert(adjacent(n, x));
        assert(cgrid(cfg, n));
    }
}

/// Column-major order of cells agrees with the order of their positions.
pub proof fn lemma_index_order(cfg: GameConfig, x: Cell, y: Cell)
    requires
        cgrid(cfg, x),
        cgrid(cfg, y),
    ensures
        cidx(cfg, x) < cidx(cfg, y) <==> (x.0 < y.0 || (x.0 == y.0 && x.1 < y.1)),
        cidx(cfg, x) == cidx(cfg, y) <==> x == y,
{
    let rows = cfg.rows as int;
    let (c1, r1) = (x.0 as int, x.1 as int);
    let (c2, r2) = (y.0 as int, y.1 as int);
    assert(c1 < c2 ==> c1 * rows + r1 < c2 * rows + r2) by (nonlinear_arith)
        requires
            0 <= r1 < rows,
            0 <= r2,
    {
        if c1 < c2 {
            assert(c1 * rows + rows <= c2 * rows);
        }
    }
    assert(c2 < c1 ==> c2 * rows + r2 < c1 * rows + r1) by (nonlinear_arith)
        requires
            0 <= r2 < rows,
            0 <= r1,
    {
        if c2 < c1 {
            assert(c2 * rows + rows <= c1 * rows);
        }
    }
}

} // verus!

verus! {

// ---- Uniqueness of the listing of groups ----

/// The two sequences hold the same cells.
pub open spec fn same_cells(a: Seq<Cell>, b: Seq<Cell>) -> bool {
    forall|x: Cell| a.contains(x) <==> b.contains(x)
}

/// Two listings agree group by group: same colour, same cells, same size.
pub open spec fn equiv_groups(a: Seq<GroupView>, b: Seq<GroupView>) -> bool {
    &&& a.len() == b.len()
    &&& forall|k: int|
        0 <= k < a.len() ==> (#[trigger] a[k]).0 == b[k].0 && a[k].1.len() == b[k].1.len()
            && same_cells(a[k].1, b[k].1)
}

/// Walking down the tree order from a cell of `a` inside `b` reaches `a`'s
/// first cell inside `b`.
proof fn lemma_group_down(
    cfg: GameConfig,
    s: Seq<PuyoColor>,
    ca: PuyoColor,
    a: Seq<Cell>,
    cb: PuyoColor,
    b: Seq<Cell>,
    i: int,
)
    requires
        is_group(cfg, s, ca, a),
        is_group(cfg, s, cb, b),
        0 <= i < a.len(),
        b.contains(a[i]),
    ensures
        b.contains(a[0]),
        ca == cb,
    decreases i,
{
    let m = choose|m: int| 0 <= m < b.len() && b[m] == a[i];
    assert(ccolor(cfg, s, b[m]) == cb);
    assert(ccolor(cfg, s, a[i]) == ca);
    if i > 0 {
        assert(has_earlier_neighbor(a, i));
        let j = choose|j: int| 0 <= j < i && #[trigger] adjacent(a[i], a[j]);
        assert(closed_at(cfg, s, cb, b, b[m]));
        assert(adjacent(b[m], a[j]));
        assert(cvis(cfg, a[j]) && ccolor(cfg, s, a[j]) == ca);
        lemma_group_down(cfg, s, ca, a, cb, b, j);
    }
}

/// Walking up the tree order from `a`'s first cell inside `b` puts all of `a`
/// inside `b`.
proof fn lemma_group_up(
    cfg: GameConfig,
    s: Seq<PuyoColor>,
    color: PuyoColor,
    a: Seq<Cell>,
    b: Seq<Cell>,
    i: int,
)
    requires
        is_group(cfg, s, color, a),
        is_group(cfg, s, color, b),
        b.contains(a[0]),
        0 <= i < a.len(),
    ensures
        forall|k: int| 0 <= k <= i ==> b.contains(#[trigger] a[k]),
    decreases i,
{
    if i > 0 {
        lemma_group_up(cfg, s, color, a, b, i - 1);
        assert(has_earlier_neighbor(a, i));
        let j = choose|j: int| 0 <= j < i && #[trigger] adjacent(a[i], a[j]);
        assert(b.contains(a[j]));
        let m = choose|m: int| 0 <= m < b.len() && b[m] == a[j];
        assert(closed_at(cfg, s, color, b, b[m]));
        assert(adjacent(b[m], a[i]));
        assert(cvis(cfg, a[i]) && ccolor(cfg, s, a[i]) == color);
    }
}

/// Two groups that share a cell are the same group.
pub proof fn lemma_groups_meet(
    cfg: GameConfig,
    s: Seq<PuyoColor>,
    ca: PuyoColor,
    a: Seq<Cell>,
    cb: PuyoColor,
    b: Seq<Cell>,
    x: Cell,
)
    requires
        is_group(cfg, s, ca, a),
        is_group(cfg, s, cb, b),
        a.contains(x),
        b.contains(x),
    ensures
        ca == cb,
        same_cells(a, b),
        a.len() == b.len(),
{
    let i = choose|i: int| 0 <= i < a.len() && a[i] == x;
    let j = choose|j: int| 0 <= j < b.len() && b[j] == x;
    lemma_group_down(cfg, s, ca, a, cb, b, i);
    lemma_group_down(cfg, s, cb, b, ca, a, j);
    lemma_group_up(cfg, s, ca, a, b, a.len() - 1);
    lemma_group_up(cfg, s, ca, b, a, b.len() - 1);
    assert forall|y: Cell| a.contains(y) <==> b.contains(y) by {
        if a.contains(y) {
            let k = choose|k: int| 0 <= k < a.len() && a[k] == y;
            assert(b.contains(a[k]));
        }
        if b.contains(y) {
            let k = choose|k: int| 0 <= k < b.len() && b[k] == y;
            assert(a.contains(b[k]));
        }
    }
    a.unique_seq_to_set();
    b.unique_seq_to_set();
    assert(a.to_set() =~= b.to_set());
}

/// For every group of one listing there is a group of another listing of the
/// same board with the same colour, cells and first cell.
proof fn lemma_match_group(
    cfg: GameConfig,
    s: Seq<PuyoColor>,
    d1: Seq<GroupView>,
    d2: Seq<GroupView>,
    k: int,
) -> (j: int)
    requires
        is_decomposition(cfg, s, d1),
        is_decomposition(cfg, s, d2),
        0 <= k < d1.len(),
    ensures
        0 <= j < d2.len(),
        d1[k].0 == d2[j].0,
        d1[k].1.len() == d2[j].1.len(),
        same_cells(d1[k].1, d2[j].1),
        d1[k].1[0] == d2[j].1[0],
{
    reveal(is_decomposition);
    assert(is_group(cfg, s, d1[k].0, d1[k].1));
    let x = d1[k].1[0];
    assert(cvis(cfg, x) && ccolor(cfg, s, x) != PuyoColor::Empty);
    let j = choose|j: int| 0 <= j < d2.len() && (#[trigger] d2[j].1.contains(x));
    assert(d1[k].1.contains(x));
    assert(is_group(cfg, s, d2[j].0, d2[j].1));
    lemma_groups_meet(cfg, s, d1[k].0, d1[k].1, d2[j].0, d2[j].1, x);
    let y = d2[j].1[0];
    assert(d2[j].1.contains(y));
    assert(d1[k].1.contains(y));
    let iy = choose|i: int| 0 <= i < d1[k].1.len() && d1[k].1[i] == y;
    let ix = choose|i: int| 0 <= i < d2[j].1.len() && d2[j].1[i] == x;
    assert(cidx(cfg, x) <= cidx(cfg, d1[k].1[iy]));
    assert(cidx(cfg, y) <= cidx(cfg, d2[j].1[ix]));
    lemma_index_order(cfg, x, y);
    j
}

/// A board's listing of its groups is unique: any two listings are equal,
/// group by group and cell by cell.
pub proof fn lemma_decomposition_unique(
    cfg: GameConfig,
    s: Seq<PuyoColor>,
    d1: Seq<GroupView>,
    d2: Seq<GroupView>,
)
    requires
        is_decomposition(cfg, s, d1),
        is_decomposition(cfg, s, d2),
    ensures
        equiv_groups(d1, d2),
        d1 == d2,
{
    lemma_decomposition_facts(cfg, s, d1);
    lemma_decomposition_facts(cfg, s, d2);
    lemma_decomposition_prefix(cfg, s, d1, d2, if d1.len() < d2.len() {
        d1.len() as int
    } else {
        d2.len() as int
    });
    if d1.len() > d2.len() {
        let k = d2.len() as int;
        let j = lemma_match_group(cfg, s, d1, d2, k);
        let j1 = lemma_match_group(cfg, s, d1, d2, j);
        assert(d1[j].1[0] == d2[j].1[0]);
        assert(cidx(cfg, d1[j].1[0]) < cidx(cfg, d1[k].1[0]));
    } else if d2.len() > d1.len() {
        let k = d1.len() as int;
        let j = lemma_match_group(cfg, s, d2, d1, k);
        assert(d2[j].1[0] == d1[j].1[0]);
        assert(cidx(cfg, d2[j].1[0]) < cidx(cfg, d2[k].1[0]));
    }
    assert forall|k: int| 0 <= k < d1.len() implies (#[trigger] d1[k]).0 == d2[k].0 && d1[k].1.len()
        == d2[k].1.len() && same_cells(d1[k].1, d2[k].1) by {
        let j = lemma_match_group(cfg, s, d1, d2, k);
        if j != k {
            assert(d1[k].1[0] == d2[k].1[0]);
            assert(cidx(cfg, d2[j].1[0]) != cidx(cfg, d2[k].1[0]));
        }
    }
    assert(d1.len() == d2.len());
    lemma_decomposition_prefix(cfg, s, d1, d2, d1.len() as int);
    assert forall|k: int| 0 <= k < d1.len() implies #[trigger] d1[k] == d2[k] by {
        assert(d1[k].1[0] == d2[k].1[0]);
        assert(d1[k].1 == bfs_group(cfg, s, d1[k].1[0]));
        assert(d2[k].1 == bfs_group(cfg, s, d2[k].1[0]));
    }
    assert(d1 =~= d2);
}

/// The groups of both listings agree on their first cells, up to `n`.
proof fn lemma_decomposition_prefix(
    cfg: GameConfig,
    s: Seq<PuyoColor>,
    d1: Seq<GroupView>,
    d2: Seq<GroupView>,
    n: int,
)
    requires
        is_decomposition(cfg, s, d1),
        is_decomposition(cfg, s, d2),
        0 <= n <= d1.len(),
        n <= d2.len(),
    ensures
        forall|m: int| 0 <= m < n ==> (#[trigger] d1[m]).1[0] == d2[m].1[0],
    decreases n,
{
    if n > 0 {
        let k = n - 1;
        lemma_decomposition_facts(cfg, s, d1);
        lemma_decomposition_facts(cfg, s, d2);
        lemma_decomposition_prefix(cfg, s, d1, d2, k);
        let j = lemma_match_group(cfg, s, d1, d2, k);
        if j < k {
            assert(d1[j].1[0] == d2[j].1[0]);
            assert(cidx(cfg, d1[j].1[0]) < cidx(cfg, d1[k].1[0]));
        } else if j > k {
            let m = lemma_match_group(cfg, s, d2, d1, k);
            let y = d2[k].1[0];
            assert(d1[m].1[0] == y);
            if m < k {
                assert(d1[m].1[0] == d2[m].1[0]);
                assert(cidx(cfg, d2[m].1[0]) < cidx(cfg, d2[k].1[0]));
            } else if m == k {
                assert(d2[j].1[0] == d1[k].1[0]);
                assert(cidx(cfg, d2[k].1[0]) < cidx(cfg, d2[j].1[0]));
            } else {
                assert(cidx(cfg, d1[k].1[0]) < cidx(cfg, d1[m].1[0]));
                assert(cidx(cfg, d2[k].1[0]) < cidx(cfg, d2[j].1[0]));
            }
        }
    }
}

} // verus!
