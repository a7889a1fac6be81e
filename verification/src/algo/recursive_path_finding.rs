//! A recursive maze solver: depth-first search over a grid of string cells,
//! marking visited cells so the walk terminates, and keeping the current
//! trail in a vector that is unwound on dead ends.

use vstd::prelude::*;

verus! {

/// A position in the maze grid.
#[derive(Debug, Clone, Copy, PartialEq, Eq, Structural)]
pub struct Point {
    pub x: isize,
    pub y: isize,
}

impl Point {
    pub fn new(x: isize, y: isize) -> (p: Point)
        ensures
            p == (Point { x, y }),
    {
        Point { x, y }
    }
}

impl From<(isize, isize)> for Point {
    fn from(coords: (isize, isize)) -> (p: Self) {
        Point { x: coords.0, y: coords.1 }
    }
}

impl vstd::std_specs::convert::FromSpecImpl<(isize, isize)> for Point {
    open spec fn obeys_from_spec() -> bool {
        true
    }

    open spec fn from_spec(coords: (isize, isize)) -> Point {
        Point { x: coords.0, y: coords.1 }
    }
}

/// Relies on str's `==`: true exactly when the two strings hold the same
/// characters.
#[verifier::external_body]
fn str_eq(a: &str, b: &str) -> (r: bool)
    ensures
        r == (a@ == b@),
{
    a == b
}

/// Every row of the maze is as long as the first one.
pub open spec fn rectangular(maze: &Vec<Vec<&str>>) -> bool {
    forall|r: int| 0 <= r < maze@.len() ==> (#[trigger] maze@[r])@.len() == maze@[0]@.len()
}

/// The maze dimensions small enough for every coordinate to fit an `isize`.
pub open spec fn dims_fit(maze: &Vec<Vec<&str>>) -> bool {
    maze@.len() <= isize::MAX && maze@[0]@.len() <= isize::MAX
}

/// The point lies on the grid.
pub open spec fn in_bounds(maze: &Vec<Vec<&str>>, p: Point) -> bool {
    0 <= p.y < maze@.len() && 0 <= p.x < maze@[0]@.len()
}

/// The point lies on the grid and not on a wall.
pub open spec fn open_cell(maze: &Vec<Vec<&str>>, wall: &str, p: Point) -> bool {
    in_bounds(maze, p) && maze@[p.y as int]@[p.x as int]@ != wall@
}

/// The two points are one step apart, horizontally or vertically.
pub open spec fn step_adjacent(a: Point, b: Point) -> bool {
    ||| (b.x - a.x == 1 && a.y == b.y)
    ||| (a.x - b.x == 1 && a.y == b.y)
    ||| (a.x == b.x && b.y - a.y == 1)
    ||| (a.x == b.x && a.y - b.y == 1)
}

/// A walkable trail: it starts at `from`, ends at `to`, stays on open
/// cells, and moves one step at a time.
pub open spec fn is_path(
    maze: &Vec<Vec<&str>>,
    wall: &str,
    pts: Seq<Point>,
    from: Point,
    to: Point,
) -> bool {
    &&& pts.len() > 0
    &&& pts[0] == from
    &&& pts.last() == to
    &&& forall|k: int| 0 <= k < pts.len() ==> open_cell(maze, wall, #[trigger] pts[k])
    &&& forall|k: int| 0 <= k < pts.len() - 1 ==> step_adjacent(#[trigger] pts[k], pts[k + 1])
}

/// The rows of the visited grid as one sequence of sequences.
pub open spec fn grid_view(g: &Vec<Vec<bool>>) -> Seq<Seq<bool>> {
    Seq::new(g@.len(), |i: int| g@[i]@)
}

/// The visited grid has one cell per maze cell.
pub open spec fn grid_wf(grid: Seq<Seq<bool>>, maze: &Vec<Vec<&str>>) -> bool {
    grid.len() == maze@.len() && forall|r: int|
        0 <= r < grid.len() ==> (#[trigger] grid[r]).len() == maze@[0]@.len()
}

/// Cells already marked stay marked: the walk only adds marks.
pub open spec fn marks_grew(g1: Seq<Seq<bool>>, g2: Seq<Seq<bool>>) -> bool {
    &&& g1.len() == g2.len()
    &&& forall|r: int| 0 <= r < g1.len() ==> (#[trigger] g2[r]).len() == g1[r].len()
    &&& forall|r: int, c: int|
        (0 <= r < g1.len() && 0 <= c < g1[r].len() && (#[trigger] g1[r][c])) ==> g2[r][c]
}

/// How many cells of the row are not yet visited.
pub open spec fn row_unvisited(row: Seq<bool>) -> nat
    decreases row.len(),
{
    if row.len() == 0 {
        0
    } else {
        row_unvisited(row.drop_last()) + if row.last() {
            0nat
        } else {
            1nat
        }
    }
}

/// How many cells of the whole grid are not yet visited.
pub open spec fn grid_unvisited(grid: Seq<Seq<bool>>) -> nat
    decreases grid.len(),
{
    if grid.len() == 0 {
        0
    } else {
        grid_unvisited(grid.drop_last()) + row_unvisited(grid.last())
    }
}

proof fn lemma_row_mark(row: Seq<bool>, c: int)
    requires
        0 <= c < row.len(),
        !row[c],
    ensures
        row_unvisited(row.update(c, true)) + 1 == row_unvisited(row),
    decreases row.len(),
{
    let updated = row.update(c, true);
    if c == row.len() - 1 {
        assert(updated.drop_last() =~= row.drop_last());
    } else {
        lemma_row_mark(row.drop_last(), c);
        assert(updated.drop_last() =~= row.drop_last().update(c, true));
    }
}

proof fn lemma_grid_mark(grid: Seq<Seq<bool>>, r: int, c: int)
    requires
        0 <= r < grid.len(),
        0 <= c < grid[r].len(),
        !grid[r][c],
    ensures
        grid_unvisited(grid.update(r, grid[r].update(c, true))) + 1 == grid_unvisited(grid),
    decreases grid.len(),
{
    let updated = grid.update(r, grid[r].update(c, true));
    if r == grid.len() - 1 {
        assert(updated.drop_last() =~= grid.drop_last());
        lemma_row_mark(grid[r], c);
    } else {
        lemma_grid_mark(grid.drop_last(), r, c);
        assert(updated.drop_last() =~= grid.drop_last().update(r, grid[r].update(c, true)));
        assert(updated.last() =~= grid.last());
    }
}

proof fn lemma_row_monotone(r1: Seq<bool>, r2: Seq<bool>)
    requires
        r1.len() == r2.len(),
        forall|c: int| 0 <= c < r1.len() ==> ((#[trigger] r1[c]) ==> r2[c]),
    ensures
        row_unvisited(r2) <= row_unvisited(r1),
    decreases r1.len(),
{
    if r1.len() > 0 {
        lemma_row_monotone(r1.drop_last(), r2.drop_last());
    }
}

proof fn lemma_grid_monotone(g1: Seq<Seq<bool>>, g2: Seq<Seq<bool>>)
    requires
        marks_grew(g1, g2),
    ensures
        grid_unvisited(g2) <= grid_unvisited(g1),
    decreases g1.len(),
{
    if g1.len() > 0 {
        assert(marks_grew(g1.drop_last(), g2.drop_last())) by {
            assert(forall|r: int|
                0 <= r < g1.len() - 1 ==> g1.drop_last()[r] == g1[r] && g2.drop_last()[r]
                    == g2[r]);
        }
        lemma_grid_monotone(g1.drop_last(), g2.drop_last());
        assert(g1.last() == g1[g1.len() - 1] && g2.last() == g2[g2.len() - 1]);
        lemma_row_monotone(g1.last(), g2.last());
    }
}

/// The grid records the point's cell as visited; a point off the grid is
/// never recorded.
pub open spec fn cell_marked(g: Seq<Seq<bool>>, p: Point) -> bool {
    &&& 0 <= p.y < g.len()
    &&& 0 <= p.x < g[p.y as int].len()
    &&& g[p.y as int][p.x as int]
}

/// No cell of the trail is recorded as visited in the grid.
pub open spec fn path_unvisited(g: Seq<Seq<bool>>, pts: Seq<Point>) -> bool {
    forall|k: int| 0 <= k < pts.len() ==> !cell_marked(g, #[trigger] pts[k])
}

/// Every cell marked in `g_new` but not in `g_old` is cut off from `end`:
/// no walkable trail starting there reaches `end` over cells unvisited in
/// `g_old`.
pub open spec fn marks_blocked(
    maze: &Vec<Vec<&str>>,
    wall: &str,
    g_old: Seq<Seq<bool>>,
    g_new: Seq<Seq<bool>>,
    end: Point,
) -> bool {
    forall|m: Point, pts: Seq<Point>|
        (cell_marked(g_new, m) && !cell_marked(g_old, m) && path_unvisited(g_old, pts)) ==> !(
        #[trigger] is_path(maze, wall, pts, m, end))
}

/// A search cannot start at all when its first cell is closed or already
/// visited: no unvisited walkable trail leaves `curr`.
proof fn lemma_no_start(maze: &Vec<Vec<&str>>, wall: &str, curr: Point, end: Point, g: Seq<Seq<bool>>)
    requires
        !open_cell(maze, wall, curr) || cell_marked(g, curr),
    ensures
        !exists|pts: Seq<Point>|
            is_path(maze, wall, pts, curr, end) && path_unvisited(g, pts),
{
    if exists|pts: Seq<Point>| is_path(maze, wall, pts, curr, end) && path_unvisited(g, pts) {
        let pts = choose|pts: Seq<Point>|
            is_path(maze, wall, pts, curr, end) && path_unvisited(g, pts);
        assert(pts[0] == curr);
        assert(open_cell(maze, wall, pts[0]));
        assert(!cell_marked(g, pts[0]));
    }
}

/// A grid that gained no marks cuts nothing off.
proof fn lemma_blocked_refl(maze: &Vec<Vec<&str>>, wall: &str, g: Seq<Seq<bool>>, end: Point)
    ensures
        marks_blocked(maze, wall, g, g, end),
{
    assert forall|m: Point, pts: Seq<Point>|
        (cell_marked(g, m) && !cell_marked(g, m) && path_unvisited(g, pts)) implies !(
        #[trigger] is_path(maze, wall, pts, m, end)) by {}
}

proof fn lemma_marked_grew(g1: Seq<Seq<bool>>, g2: Seq<Seq<bool>>, p: Point)
    requires
        marks_grew(g1, g2),
        cell_marked(g1, p),
    ensures
        cell_marked(g2, p),
{
    assert(g2[p.y as int].len() == g1[p.y as int].len());
    assert(g1[p.y as int][p.x as int]);
}

proof fn lemma_grew_trans(g1: Seq<Seq<bool>>, g2: Seq<Seq<bool>>, g3: Seq<Seq<bool>>)
    requires
        marks_grew(g1, g2),
        marks_grew(g2, g3),
    ensures
        marks_grew(g1, g3),
{
    assert forall|r: int| 0 <= r < g1.len() implies (#[trigger] g3[r]).len() == g1[r].len() by {
        assert(g2[r].len() == g1[r].len());
    }
    assert forall|r: int, c: int|
        (0 <= r < g1.len() && 0 <= c < g1[r].len() && (#[trigger] g1[r][c])) implies g3[r][c] by {
        assert(g2[r].len() == g1[r].len());
        assert(g2[r][c]);
    }
}

/// Any tail of a walkable trail is itself a walkable trail.
proof fn lemma_path_suffix(maze: &Vec<Vec<&str>>, wall: &str, pts: Seq<Point>, from: Point, end: Point, k: int)
    requires
        is_path(maze, wall, pts, from, end),
        0 < k < pts.len(),
    ensures
        is_path(maze, wall, pts.subrange(k, pts.len() as int), pts[k], end),
{
    let tail = pts.subrange(k, pts.len() as int);
    assert(tail[0] == pts[k]);
    assert(tail.last() == pts.last());
    assert forall|i: int| 0 <= i < tail.len() implies open_cell(maze, wall, #[trigger] tail[i]) by {
        assert(tail[i] == pts[k + i]);
    }
    assert forall|i: int| 0 <= i < tail.len() - 1 implies step_adjacent(
        #[trigger] tail[i],
        tail[i + 1],
    ) by {
        assert(tail[i] == pts[k + i] && tail[i + 1] == pts[k + i + 1]);
    }
}

/// Within one marking stage, a trail from a freshly marked cell either is
/// ruled out by that stage's cut, or passes a cell some earlier stage
/// already marked.
proof fn lemma_stage_pick(
    maze: &Vec<Vec<&str>>,
    wall: &str,
    end: Point,
    g_base: Seq<Seq<bool>>,
    g_a: Seq<Seq<bool>>,
    g_b: Seq<Seq<bool>>,
    g_last: Seq<Seq<bool>>,
    m: Point,
    pts: Seq<Point>,
)
    requires
        marks_blocked(maze, wall, g_a, g_b, end),
        marks_grew(g_a, g_last),
        cell_marked(g_b, m),
        !cell_marked(g_a, m),
        is_path(maze, wall, pts, m, end),
        path_unvisited(g_base, pts),
    ensures
        exists|k: int|
            1 <= k < pts.len() && cell_marked(g_last, #[trigger] pts[k]) && !cell_marked(
                g_base,
                pts[k],
            ),
{
    if path_unvisited(g_a, pts) {
        assert(!is_path(maze, wall, pts, m, end));
    } else {
        let k = choose|k: int| 0 <= k < pts.len() && cell_marked(g_a, #[trigger] pts[k]);
        assert(pts[0] == m);
        assert(k >= 1);
        lemma_marked_grew(g_a, g_last, pts[k]);
        assert(1 <= k < pts.len() && cell_marked(g_last, pts[k]) && !cell_marked(g_base, pts[k]));
    }
}

/// The heart of the completeness argument: after the search below `curr`
/// has failed, no freshly marked cell can reach `end` over cells that were
/// unvisited at entry. The trail is ruled out by induction on its length:
/// its first step lands either on a cell some stage's cut already rules
/// out, or on a marked cell closer to `end`, whose shorter tail recurses.
proof fn lemma_no_escape(
    maze: &Vec<Vec<&str>>,
    wall: &str,
    curr: Point,
    end: Point,
    g0: Seq<Seq<bool>>,
    g1: Seq<Seq<bool>>,
    g2: Seq<Seq<bool>>,
    g3: Seq<Seq<bool>>,
    g4: Seq<Seq<bool>>,
    g5: Seq<Seq<bool>>,
    m: Point,
    pts: Seq<Point>,
)
    requires
        marks_grew(g1, g2),
        marks_grew(g2, g3),
        marks_grew(g3, g4),
        marks_grew(g4, g5),
        forall|p: Point| (#[trigger] cell_marked(g1, p)) == (cell_marked(g0, p) || p == curr),
        curr != end,
        marks_blocked(maze, wall, g1, g2, end),
        marks_blocked(maze, wall, g2, g3, end),
        marks_blocked(maze, wall, g3, g4, end),
        marks_blocked(maze, wall, g4, g5, end),
        forall|n: Point|
            #![trigger step_adjacent(curr, n)]
            step_adjacent(curr, n) && open_cell(maze, wall, n) ==> (cell_marked(g5, n) && n
                != end),
        cell_marked(g5, end) == cell_marked(g0, end),
        cell_marked(g5, m),
        !cell_marked(g0, m),
        path_unvisited(g0, pts),
    ensures
        !is_path(maze, wall, pts, m, end),
    decreases pts.len(),
{
    if is_path(maze, wall, pts, m, end) {
        assert(pts[0] == m);
        assert(pts[pts.len() - 1] == end);
        assert(!cell_marked(g0, end));
        assert(m != end) by {
            if m == end {
                assert(cell_marked(g5, end));
            }
        }
        assert(pts.len() >= 2);

        if m == curr {
            let n = pts[1];
            assert(step_adjacent(curr, n));
            assert(open_cell(maze, wall, n));
            assert(cell_marked(g5, n) && n != end);
            assert(!cell_marked(g0, n));
            lemma_path_suffix(maze, wall, pts, m, end, 1);
            let tail = pts.subrange(1, pts.len() as int);
            assert(path_unvisited(g0, tail)) by {
                assert forall|j: int| 0 <= j < tail.len() implies !cell_marked(
                    g0,
                    #[trigger] tail[j],
                ) by {
                    assert(tail[j] == pts[j + 1]);
                }
            }
            lemma_no_escape(maze, wall, curr, end, g0, g1, g2, g3, g4, g5, n, tail);
            assert(false);
        } else {
            assert(!cell_marked(g1, m));
            lemma_grew_trans(g2, g3, g4);
            lemma_grew_trans(g2, g4, g5);
            lemma_grew_trans(g3, g4, g5);
            if cell_marked(g2, m) {
                lemma_stage_pick(maze, wall, end, g0, g1, g2, g5, m, pts);
            } else if cell_marked(g3, m) {
                lemma_stage_pick(maze, wall, end, g0, g2, g3, g5, m, pts);
            } else if cell_marked(g4, m) {
                lemma_stage_pick(maze, wall, end, g0, g3, g4, g5, m, pts);
            } else {
                lemma_stage_pick(maze, wall, end, g0, g4, g5, g5, m, pts);
            }
            let k = choose|k: int|
                1 <= k < pts.len() && cell_marked(g5, #[trigger] pts[k]) && !cell_marked(g0, pts[k]);
            lemma_path_suffix(maze, wall, pts, m, end, k);
            let tail = pts.subrange(k, pts.len() as int);
            assert(path_unvisited(g0, tail)) by {
                assert forall|j: int| 0 <= j < tail.len() implies !cell_marked(
                    g0,
                    #[trigger] tail[j],
                ) by {
                    assert(tail[j] == pts[j + k]);
                }
            }
            lemma_no_escape(maze, wall, curr, end, g0, g1, g2, g3, g4, g5, pts[k], tail);
            assert(false);
        }
    }
}

/// One step of the depth-first search: tries to extend the trail from
/// `curr` to `end`. On success the trail has grown by a walkable path from
/// `curr` to `end`; on failure it is exactly as it was, and no trail of
/// cells unvisited at entry leads from `curr` to `end`. Visited marks only
/// ever accumulate.
#[verifier::rlimit(100)]
pub fn walk(
    maze: &Vec<Vec<&str>>,
    wall: &str,
    curr: Point,
    end: Point,
    already_walked: &mut Vec<Vec<bool>>,
    path: &mut Vec<Point>,
) -> (found: bool)
    requires
        maze@.len() > 0,
        rectangular(maze),
        dims_fit(maze),
        grid_wf(grid_view(old(already_walked)), maze),
    ensures
        grid_wf(grid_view(final(already_walked)), maze),
        marks_grew(
            grid_view(old(already_walked)),
            grid_view(final(already_walked)),
        ),
        open_cell(maze, wall, curr) && curr == end ==> found,
        !found && open_cell(maze, wall, curr) && curr != end ==> cell_marked(
            grid_view(final(already_walked)),
            curr,
        ),
        cell_marked(grid_view(final(already_walked)), end) == cell_marked(
            grid_view(old(already_walked)),
            end,
        ),
        !found ==> marks_blocked(
            maze,
            wall,
            grid_view(old(already_walked)),
            grid_view(final(already_walked)),
            end,
        ),
        (exists|pts: Seq<Point>|
            is_path(maze, wall, pts, curr, end) && path_unvisited(
                grid_view(old(already_walked)),
                pts,
            )) ==> found,
        !found ==> final(path)@ == old(path)@,
        found ==> final(path)@.len() > old(path)@.len() && final(path)@.subrange(
            0,
            old(path)@.len() as int,
        ) == old(path)@ && is_path(
            maze,
            wall,
            final(path)@.subrange(old(path)@.len() as int, final(path)@.len() as int),
            curr,
            end,
        ),
    decreases grid_unvisited(grid_view(old(already_walked))),
{
    // Base case: off the map.
    if curr.x < 0 || curr.y < 0 {
        proof {
            lemma_blocked_refl(maze, wall, grid_view(already_walked), end);
            lemma_no_start(maze, wall, curr, end, grid_view(already_walked));
        }
        return false;
    }
    let x = curr.x as usize;
    let y = curr.y as usize;
    if y >= maze.len() || x >= maze[0].len() {
        proof {
            assert(!open_cell(maze, wall, curr));
            lemma_blocked_refl(maze, wall, grid_view(already_walked), end);
            lemma_no_start(maze, wall, curr, end, grid_view(already_walked));
        }
        return false;
    }

    // Base case: on a wall.
    if str_eq(maze[y][x], wall) {
        proof {
            assert(maze@[curr.y as int]@[curr.x as int]@ == wall@);
            assert(!open_cell(maze, wall, curr));
            lemma_blocked_refl(maze, wall, grid_view(already_walked), end);
            lemma_no_start(maze, wall, curr, end, grid_view(already_walked));
        }
        return false;
    }

    // Base case: on the end cell.
    if curr.x == end.x && curr.y == end.y {
        path.push(end);
        proof {
            let appended = path@.subrange(old(path)@.len() as int, path@.len() as int);
            assert(path@.subrange(0, old(path)@.len() as int) =~= old(path)@);
            assert(appended =~= seq![end]);
            assert(curr == end);
            assert(open_cell(maze, wall, end));
        }
        return true;
    }

    proof {
        assert(grid_view(already_walked).len() == already_walked@.len());
        assert(grid_view(already_walked)[y as int] == already_walked@[y as int]@);
        assert(already_walked@[y as int]@.len() == maze@[0]@.len());
    }

    // Base case: on an already visited cell.
    if already_walked[y][x] {
        proof {
            assert(cell_marked(grid_view(already_walked), curr));
            lemma_blocked_refl(maze, wall, grid_view(already_walked), end);
            lemma_no_start(maze, wall, curr, end, grid_view(already_walked));
        }
        return false;
    }

    let ghost g_entry = grid_view(already_walked);

    // Mark the cell and put it on the trail before recursing.
    let row = &mut already_walked[y];
    proof {
        assert(row@.len() == maze@[0]@.len());
    }
    row[x] = true;
    path.push(curr);

    let ghost g_marked = grid_view(already_walked);
    let ghost base_path = path@;
    proof {
        assert(g_marked =~= g_entry.update(y as int, g_entry[y as int].update(x as int, true)));
        lemma_grid_mark(g_entry, y as int, x as int);
        assert(marks_grew(g_entry, g_marked));
        assert(curr != end);
        assert forall|p: Point| (#[trigger] cell_marked(g_marked, p)) == (cell_marked(g_entry, p)
            || p == curr) by {
            if p == curr {
                assert(g_marked[curr.y as int][curr.x as int]);
            } else if 0 <= p.y < g_entry.len() {
                assert(g_marked[p.y as int].len() == g_entry[p.y as int].len());
                if p.y == curr.y {
                    assert(p.x != curr.x);
                    if 0 <= p.x < g_entry[p.y as int].len() {
                        assert(g_marked[p.y as int][p.x as int] == g_entry[p.y as int][p.x as int]);
                    }
                } else {
                    assert(g_marked[p.y as int] == g_entry[p.y as int]);
                }
            }
        }
    }

    let left = Point { x: curr.x - 1, y: curr.y };
    let found_left = walk(maze, wall, left, end, already_walked, path);
    let ghost g_after1 = grid_view(already_walked);
    if found_left {
        proof {
            assert(cell_marked(g_after1, end) == cell_marked(g_entry, end));
            extend_found(maze, wall, old(path)@, base_path, path@, curr, end);
        }
        return true;
    }
    proof {
        lemma_grid_monotone(g_marked, g_after1);
    }

    let right = Point { x: curr.x + 1, y: curr.y };
    let found_right = walk(maze, wall, right, end, already_walked, path);
    let ghost g_after2 = grid_view(already_walked);
    if found_right {
        proof {
            assert(cell_marked(g_after2, end) == cell_marked(g_entry, end));
            extend_found(maze, wall, old(path)@, base_path, path@, curr, end);
        }
        return true;
    }
    proof {
        lemma_grid_monotone(g_marked, g_after2);
    }

    let up = Point { x: curr.x, y: curr.y - 1 };
    let found_up = walk(maze, wall, up, end, already_walked, path);
    let ghost g_after3 = grid_view(already_walked);
    if found_up {
        proof {
            assert(cell_marked(g_after3, end) == cell_marked(g_entry, end));
            extend_found(maze, wall, old(path)@, base_path, path@, curr, end);
        }
        return true;
    }
    proof {
        lemma_grid_monotone(g_marked, g_after3);
    }

    let down = Point { x: curr.x, y: curr.y + 1 };
    let found_down = walk(maze, wall, down, end, already_walked, path);
    let ghost g_after4 = grid_view(already_walked);
    if found_down {
        proof {
            assert(cell_marked(g_after4, end) == cell_marked(g_entry, end));
            extend_found(maze, wall, old(path)@, base_path, path@, curr, end);
        }
        return true;
    }

    // Dead end: take the cell back off the trail.
    path.pop();
    proof {
        assert(path@ =~= old(path)@);
        assert(cell_marked(g_after4, end) == cell_marked(g_entry, end));

        // The cell itself stays marked.
        lemma_marked_grew(g_marked, g_after1, curr);
        lemma_marked_grew(g_after1, g_after2, curr);
        lemma_marked_grew(g_after2, g_after3, curr);
        lemma_marked_grew(g_after3, g_after4, curr);

        // Every open neighbour has been marked by its own failed search.
        assert forall|n: Point|
            #![trigger step_adjacent(curr, n)]
            step_adjacent(curr, n) && open_cell(maze, wall, n) implies (cell_marked(g_after4, n)
            && n != end) by {
            if n.x - curr.x == 1 && n.y == curr.y {
                assert(n == right);
                assert(cell_marked(g_after2, n));
                lemma_marked_grew(g_after2, g_after3, n);
                lemma_marked_grew(g_after3, g_after4, n);
            } else if curr.x - n.x == 1 && n.y == curr.y {
                assert(n == left);
                assert(cell_marked(g_after1, n));
                lemma_marked_grew(g_after1, g_after2, n);
                lemma_marked_grew(g_after2, g_after3, n);
                lemma_marked_grew(g_after3, g_after4, n);
            } else if n.x == curr.x && n.y - curr.y == 1 {
                assert(n == down);
                assert(cell_marked(g_after4, n));
            } else {
                assert(n == up);
                assert(cell_marked(g_after3, n));
                lemma_marked_grew(g_after3, g_after4, n);
            }
        }

        // The failed searches together cut every fresh mark off from the
        // end, and with it the start cell.
        assert(marks_blocked(maze, wall, g_entry, g_after4, end)) by {
            assert forall|m: Point, pts: Seq<Point>|
                (cell_marked(g_after4, m) && !cell_marked(g_entry, m) && path_unvisited(
                    g_entry,
                    pts,
                )) implies !(#[trigger] is_path(maze, wall, pts, m, end)) by {
                lemma_no_escape(
                    maze,
                    wall,
                    curr,
                    end,
                    g_entry,
                    g_marked,
                    g_after1,
                    g_after2,
                    g_after3,
                    g_after4,
                    m,
                    pts,
                );
            }
        }

        if exists|pts: Seq<Point>|
            is_path(maze, wall, pts, curr, end) && path_unvisited(g_entry, pts) {
            let pts = choose|pts: Seq<Point>|
                is_path(maze, wall, pts, curr, end) && path_unvisited(g_entry, pts);
            assert(pts[0] == curr);
            assert(!cell_marked(g_entry, curr));
            lemma_no_escape(
                maze,
                wall,
                curr,
                end,
                g_entry,
                g_marked,
                g_after1,
                g_after2,
                g_after3,
                g_after4,
                curr,
                pts,
            );
        }
    }
    false
}

/// Puts the pieces of a successful recursive step together: the trail was
/// `prefix + [curr]`, the recursion appended a walkable path from a
/// neighbour of `curr` to `end`, so past `prefix` the trail now holds a
/// walkable path from `curr` to `end`.
proof fn extend_found(
    maze: &Vec<Vec<&str>>,
    wall: &str,
    prefix: Seq<Point>,
    base: Seq<Point>,
    full: Seq<Point>,
    curr: Point,
    end: Point,
)
    requires
        base == prefix.push(curr),
        full.len() > base.len(),
        full.subrange(0, base.len() as int) == base,
        open_cell(maze, wall, curr),
        is_path(
            maze,
            wall,
            full.subrange(base.len() as int, full.len() as int),
            full[base.len() as int],
            end,
        ),
        step_adjacent(curr, full[base.len() as int]),
    ensures
        full.len() > prefix.len(),
        full.subrange(0, prefix.len() as int) == prefix,
        is_path(maze, wall, full.subrange(prefix.len() as int, full.len() as int), curr, end),
{
    let sub = full.subrange(base.len() as int, full.len() as int);
    let whole = full.subrange(prefix.len() as int, full.len() as int);
    assert forall|k: int| 0 <= k < base.len() implies full[k] == base[k] by {
        assert(full.subrange(0, base.len() as int)[k] == full[k]);
    }
    assert(full.subrange(0, prefix.len() as int) =~= prefix);
    assert(whole =~= seq![curr] + sub);
    assert(whole[0] == curr);
    assert(whole.last() == end);
    assert(forall|k: int| 0 <= k < whole.len() ==> open_cell(maze, wall, #[trigger] whole[k]));
    assert forall|k: int| 0 <= k < whole.len() - 1 implies step_adjacent(
        #[trigger] whole[k],
        whole[k + 1],
    ) by {
        if k == 0 {
            assert(whole[0] == curr && whole[1] == sub[0]);
        } else {
            assert(whole[k] == sub[k - 1] && whole[k + 1] == sub[k]);
        }
    }
}

/// Solves the maze from `start` to `end`: the returned trail is a
/// walkable path from `start` to `end` whenever one exists, and empty
/// exactly when none does.
#[verifier::rlimit(100)]
pub fn solve(maze: &Vec<Vec<&str>>, wall: &str, start: Point, end: Point) -> (path: Vec<Point>)
    requires
        maze@.len() > 0,
        rectangular(maze),
        dims_fit(maze),
    ensures
        path@.len() == 0 || is_path(maze, wall, path@, start, end),
        (exists|pts: Seq<Point>| is_path(maze, wall, pts, start, end)) ==> path@.len() > 0,
{
    let mut already_walked: Vec<Vec<bool>> = Vec::new();
    let height = maze.len();
    let width = maze[0].len();
    for r in 0..height
        invariant
            already_walked@.len() == r,
            forall|k: int| 0 <= k < r ==> (#[trigger] already_walked@[k])@.len() == width,
            forall|k: int, c: int|
                0 <= k < r && 0 <= c < width ==> !(#[trigger] already_walked@[k]@[c]),
            width == maze@[0]@.len(),
    {
        let mut grid_row: Vec<bool> = Vec::new();
        for c in 0..width
            invariant
                grid_row@.len() == c,
                forall|j: int| 0 <= j < c ==> !(#[trigger] grid_row@[j]),
        {
            grid_row.push(false);
        }
        already_walked.push(grid_row);
    }
    let mut path: Vec<Point> = Vec::new();
    let ghost fresh_grid: Seq<Seq<bool>> = grid_view(&already_walked);

    proof {
        assert(fresh_grid.len() == already_walked@.len());
        assert forall|r: int| 0 <= r < fresh_grid.len() implies (#[trigger] fresh_grid[r]).len()
            == maze@[0]@.len() by {
            assert(fresh_grid[r] == already_walked@[r]@);
        }
        assert forall|p: Point| !(#[trigger] cell_marked(fresh_grid, p)) by {
            if 0 <= p.y < fresh_grid.len() && 0 <= p.x < fresh_grid[p.y as int].len() {
                assert(fresh_grid[p.y as int] == already_walked@[p.y as int]@);
                assert(!already_walked@[p.y as int]@[p.x as int]);
            }
        }
    }

    let found = walk(maze, wall, start, end, &mut already_walked, &mut path);

    proof {
        // On a fresh grid every walkable trail counts as unvisited, so a
        // failed search means no trail exists at all.
        if exists|pts: Seq<Point>| is_path(maze, wall, pts, start, end) {
            let pts = choose|pts: Seq<Point>| is_path(maze, wall, pts, start, end);
            assert(path_unvisited(fresh_grid, pts));
            assert(exists|pts2: Seq<Point>|
                is_path(maze, wall, pts2, start, end) && path_unvisited(fresh_grid, pts2));
            assert(found);
        }
        if found {
            assert(path@.subrange(0, path@.len() as int) =~= path@);
        }
    }
    path
}

} // verus!
