use vstd::prelude::*;
use vstd::map::*;

use crate::cell_data::{CellType, GENERATOR, MOVER, ROTATOR_CCW, ROTATOR_CW, WALL};
use crate::cells::{Cell, Grid};
use crate::direction::Direction;
use crate::manipulation::{
    can_generate, can_generate_spec, can_rotate_spec, lemma_push_frame, lemma_ray_step,
    lemma_shift_frame, lemma_wall_immovable, on_ray, push, push_spec, ray_pos, rotate_by,
    scan_spec, shift_len, shift_spec, walls_kept,
};

verus! {

/// Whether any cell of kind `id` occurs in the contents.
pub open spec fn has_cell_of(m: Map<(int, int), Cell>, id: CellType) -> bool {
    exists|p: (int, int)| #[trigger] m.contains_key(p) && m[p].id == id
}

/// The option with the cell's per-tick flag cleared.
pub open spec fn opt_cleared(c: Option<Cell>) -> Option<Cell> {
    match c {
        Some(cc) => Some(cc.cleared()),
        None => None,
    }
}

/// The same contents with every per-tick flag cleared.
pub open spec fn clear_updated(m: Map<(int, int), Cell>) -> Map<(int, int), Cell> {
    Map::new(|p: (int, int)| m.contains_key(p), |p: (int, int)| m[p].cleared())
}

/// Wall cells of `m0` stand in place in `m` with type and facing kept;
/// only their per-tick flag may differ.
pub open spec fn walls_like_kept(m0: Map<(int, int), Cell>, m: Map<(int, int), Cell>) -> bool {
    forall|p: (int, int)|
        #[trigger] m0.contains_key(p) && m0[p].id == WALL ==> m.contains_key(p) && m[p].like(
            m0[p],
        )
}

proof fn lemma_walls_kept_trans(
    m0: Map<(int, int), Cell>,
    m1: Map<(int, int), Cell>,
    m2: Map<(int, int), Cell>,
)
    requires
        walls_kept(m0, m1),
        walls_kept(m1, m2),
    ensures
        walls_kept(m0, m2),
{
    assert forall|p: (int, int)| #[trigger] m0.contains_key(p) && m0[p].id == WALL implies
        m2.contains_key(p) && m2[p] == m0[p] by {
        assert(m1.contains_key(p) && m1[p] == m0[p]);
    }
}

proof fn lemma_walls_like_trans(
    m0: Map<(int, int), Cell>,
    m1: Map<(int, int), Cell>,
    m2: Map<(int, int), Cell>,
)
    requires
        walls_like_kept(m0, m1),
        walls_like_kept(m1, m2),
    ensures
        walls_like_kept(m0, m2),
{
    assert forall|p: (int, int)| #[trigger] m0.contains_key(p) && m0[p].id == WALL implies
        m2.contains_key(p) && m2[p].like(m0[p]) by {
        assert(m1.contains_key(p) && m1[p].like(m0[p]));
        assert(m1[p].id == WALL);
    }
}

proof fn lemma_walls_kept_to_like(m0: Map<(int, int), Cell>, m1: Map<(int, int), Cell>)
    requires
        walls_kept(m0, m1),
    ensures
        walls_like_kept(m0, m1),
{
    assert forall|p: (int, int)| #[trigger] m0.contains_key(p) && m0[p].id == WALL implies
        m1.contains_key(p) && m1[p].like(m0[p]) by {
        assert(m1.contains_key(p) && m1[p] == m0[p]);
    }
}

proof fn lemma_insert_keeps_walls(m: Map<(int, int), Cell>, p: (int, int), c: Cell)
    requires
        m.contains_key(p) ==> m[p].id != WALL,
    ensures
        walls_kept(m, m.insert(p, c)),
{
    assert forall|q: (int, int)| #[trigger] m.contains_key(q) && m[q].id == WALL implies
        m.insert(p, c).contains_key(q) && m.insert(p, c)[q] == m[q] by {
        assert(q != p);
    }
}

/// One neighbour rotation as a function of the contents: the cell at
/// `(x, y)`, when present and rotatable, turned by the quarter turn `turn`.
pub open spec fn rotate_at_spec(m: Map<(int, int), Cell>, x: int, y: int, turn: Direction) -> Map<
    (int, int),
    Cell,
> {
    if m.contains_key((x, y)) && can_rotate_spec(m[(x, y)]) {
        m.insert(
            (x, y),
            Cell { direction: m[(x, y)].direction.rotated_spec(turn), ..m[(x, y)] },
        )
    } else {
        m
    }
}

/// One generation step as a function of the contents: an unprocessed
/// generator at `(x, y)` facing `dir` is marked as acted and a copy of the
/// cell behind it is pushed out its front with force one.
pub open spec fn gen_step_spec(
    m: Map<(int, int), Cell>,
    w: int,
    h: int,
    x: int,
    y: int,
    dir: Direction,
) -> Map<(int, int), Cell> {
    if m.contains_key((x, y)) && m[(x, y)].id == GENERATOR && m[(x, y)].direction == dir
        && !m[(x, y)].updated {
        let marked = m.insert((x, y), Cell { updated: true, ..m[(x, y)] });
        let bx = x + dir.flip_spec().vector_spec().0;
        let by = y + dir.flip_spec().vector_spec().1;
        if marked.contains_key((bx, by)) && can_generate_spec(marked[(bx, by)]) {
            push_spec(
                marked,
                w,
                h,
                x + dir.vector_spec().0,
                y + dir.vector_spec().1,
                dir,
                1,
                Some(marked[(bx, by)]),
                false,
            ).1
        } else {
            marked
        }
    } else {
        m
    }
}

/// One movement step as a function of the contents: an unprocessed mover
/// at `(x, y)` facing `dir` is marked as acted and pushes the chain ahead
/// of it with force zero.
pub open spec fn mover_step_spec(
    m: Map<(int, int), Cell>,
    w: int,
    h: int,
    x: int,
    y: int,
    dir: Direction,
) -> Map<(int, int), Cell> {
    if m.contains_key((x, y)) && m[(x, y)].id == MOVER && m[(x, y)].direction == dir
        && !m[(x, y)].updated {
        let marked = m.insert((x, y), Cell { updated: true, ..m[(x, y)] });
        push_spec(marked, w, h, x, y, dir, 0, None, true).1
    } else {
        m
    }
}

/// One rotation step as a function of the contents: an unprocessed rotator
/// at `(x, y)` is marked as acted and its four orthogonal neighbours are
/// turned in the fixed order right, below, left, above.
pub open spec fn rot_step_spec(m: Map<(int, int), Cell>, x: int, y: int) -> Map<
    (int, int),
    Cell,
> {
    if m.contains_key((x, y)) && !m[(x, y)].updated
        && (m[(x, y)].id == ROTATOR_CW || m[(x, y)].id == ROTATOR_CCW) {
        let turn = if m[(x, y)].id == ROTATOR_CW {
            Direction::Down
        } else {
            Direction::Up
        };
        let marked = m.insert((x, y), Cell { updated: true, ..m[(x, y)] });
        let m1 = rotate_at_spec(marked, x + 1, y, turn);
        let m2 = rotate_at_spec(m1, x, y - 1, turn);
        let m3 = rotate_at_spec(m2, x - 1, y, turn);
        rotate_at_spec(m3, x, y + 1, turn)
    } else {
        m
    }
}

/// The rotation pass over the first `n` columns of row `y`, ascending.
pub open spec fn rot_row_spec(m: Map<(int, int), Cell>, y: int, n: nat) -> Map<(int, int), Cell>
    decreases n,
{
    if n == 0 {
        m
    } else {
        rot_step_spec(rot_row_spec(m, y, (n - 1) as nat), n - 1, y)
    }
}

/// The rotation pass over the first `n` rows of a `w`-wide field,
/// ascending row-major.
pub open spec fn rot_grid_spec(m: Map<(int, int), Cell>, w: int, n: nat) -> Map<
    (int, int),
    Cell,
>
    decreases n,
{
    if n == 0 {
        m
    } else {
        rot_row_spec(rot_grid_spec(m, w, (n - 1) as nat), n - 1, w as nat)
    }
}

/// The generation pass over the first `n` columns of row `y`, ascending
/// from the left edge.
pub open spec fn gens_row_asc(
    m: Map<(int, int), Cell>,
    w: int,
    h: int,
    dir: Direction,
    y: int,
    n: nat,
) -> Map<(int, int), Cell>
    decreases n,
{
    if n == 0 {
        m
    } else {
        gen_step_spec(gens_row_asc(m, w, h, dir, y, (n - 1) as nat), w, h, n - 1, y, dir)
    }
}

/// The generation pass over the first `n` columns of row `y`, descending
/// from the right edge.
pub open spec fn gens_row_desc(
    m: Map<(int, int), Cell>,
    w: int,
    h: int,
    dir: Direction,
    y: int,
    n: nat,
) -> Map<(int, int), Cell>
    decreases n,
{
    if n == 0 {
        m
    } else {
        gen_step_spec(gens_row_desc(m, w, h, dir, y, (n - 1) as nat), w, h, w - n, y, dir)
    }
}

/// The generation pass over the first `n` rows, ascending from the bottom.
pub open spec fn gens_grid_asc(
    m: Map<(int, int), Cell>,
    w: int,
    h: int,
    dir: Direction,
    n: nat,
) -> Map<(int, int), Cell>
    decreases n,
{
    if n == 0 {
        m
    } else {
        gens_row_asc(gens_grid_asc(m, w, h, dir, (n - 1) as nat), w, h, dir, n - 1, w as nat)
    }
}

/// The generation pass over the first `n` rows, descending from the top.
pub open spec fn gens_grid_desc(
    m: Map<(int, int), Cell>,
    w: int,
    h: int,
    dir: Direction,
    n: nat,
) -> Map<(int, int), Cell>
    decreases n,
{
    if n == 0 {
        m
    } else {
        gens_row_desc(gens_grid_desc(m, w, h, dir, (n - 1) as nat), w, h, dir, h - n, w as nat)
    }
}

/// One whole generation pass for `dir`: descending row-major for Right
/// and Up, ascending for Left and Down.
pub open spec fn gens_pass_spec(m: Map<(int, int), Cell>, w: int, h: int, dir: Direction) -> Map<
    (int, int),
    Cell,
> {
    if dir == Direction::Right || dir == Direction::Up {
        gens_grid_desc(m, w, h, dir, h as nat)
    } else {
        gens_grid_asc(m, w, h, dir, h as nat)
    }
}

/// The whole generation sub-phase: one pass per facing, in the order
/// Right, Left, Up, Down.
pub open spec fn gens_phase_spec(m: Map<(int, int), Cell>, w: int, h: int) -> Map<
    (int, int),
    Cell,
> {
    gens_pass_spec(
        gens_pass_spec(
            gens_pass_spec(gens_pass_spec(m, w, h, Direction::Right), w, h, Direction::Left),
            w,
            h,
            Direction::Up,
        ),
        w,
        h,
        Direction::Down,
    )
}

/// The movement pass over the first `n` columns of row `y`, ascending.
pub open spec fn movers_row_asc(
    m: Map<(int, int), Cell>,
    w: int,
    h: int,
    dir: Direction,
    y: int,
    n: nat,
) -> Map<(int, int), Cell>
    decreases n,
{
    if n == 0 {
        m
    } else {
        mover_step_spec(movers_row_asc(m, w, h, dir, y, (n - 1) as nat), w, h, n - 1, y, dir)
    }
}

/// The movement pass over the first `n` columns of row `y`, descending.
pub open spec fn movers_row_desc(
    m: Map<(int, int), Cell>,
    w: int,
    h: int,
    dir: Direction,
    y: int,
    n: nat,
) -> Map<(int, int), Cell>
    decreases n,
{
    if n == 0 {
        m
    } else {
        mover_step_spec(movers_row_desc(m, w, h, dir, y, (n - 1) as nat), w, h, w - n, y, dir)
    }
}

/// The movement pass over the first `n` rows, ascending.
pub open spec fn movers_grid_asc(
    m: Map<(int, int), Cell>,
    w: int,
    h: int,
    dir: Direction,
    n: nat,
) -> Map<(int, int), Cell>
    decreases n,
{
    if n == 0 {
        m
    } else {
        movers_row_asc(movers_grid_asc(m, w, h, dir, (n - 1) as nat), w, h, dir, n - 1, w as nat)
    }
}

/// The movement pass over the first `n` rows, descending.
pub open spec fn movers_grid_desc(
    m: Map<(int, int), Cell>,
    w: int,
    h: int,
    dir: Direction,
    n: nat,
) -> Map<(int, int), Cell>
    decreases n,
{
    if n == 0 {
        m
    } else {
        movers_row_desc(
            movers_grid_desc(m, w, h, dir, (n - 1) as nat),
            w,
            h,
            dir,
            h - n,
            w as nat,
        )
    }
}

/// One whole movement pass for `dir`, in the same direction-dependent
/// order as generation.
pub open spec fn movers_pass_spec(
    m: Map<(int, int), Cell>,
    w: int,
    h: int,
    dir: Direction,
) -> Map<(int, int), Cell> {
    if dir == Direction::Right || dir == Direction::Up {
        movers_grid_desc(m, w, h, dir, h as nat)
    } else {
        movers_grid_asc(m, w, h, dir, h as nat)
    }
}

/// The whole movement sub-phase: one pass per facing, in the order
/// Right, Left, Up, Down.
pub open spec fn movers_phase_spec(m: Map<(int, int), Cell>, w: int, h: int) -> Map<
    (int, int),
    Cell,
> {
    movers_pass_spec(
        movers_pass_spec(
            movers_pass_spec(
                movers_pass_spec(m, w, h, Direction::Right),
                w,
                h,
                Direction::Left,
            ),
            w,
            h,
            Direction::Up,
        ),
        w,
        h,
        Direction::Down,
    )
}

/// Within one tick no cell's core mechanic fires more than once: every
/// step marks its subject as acted before acting, a marked cell never
/// acts, and no step re-arms the slot it processed — so repeating any
/// step at the same slot changes nothing further.
pub proof fn lemma_step_fires_at_most_once(
    m: Map<(int, int), Cell>,
    w: int,
    h: int,
    x: int,
    y: int,
    dir: Direction,
)
    ensures
        gen_step_spec(gen_step_spec(m, w, h, x, y, dir), w, h, x, y, dir) == gen_step_spec(
            m,
            w,
            h,
            x,
            y,
            dir,
        ),
        mover_step_spec(mover_step_spec(m, w, h, x, y, dir), w, h, x, y, dir)
            == mover_step_spec(m, w, h, x, y, dir),
        rot_step_spec(rot_step_spec(m, x, y), x, y) == rot_step_spec(m, x, y),
{
    let dx = dir.vector_spec().0;
    let dy = dir.vector_spec().1;

    // generation
    if m.contains_key((x, y)) && m[(x, y)].id == GENERATOR && m[(x, y)].direction == dir
        && !m[(x, y)].updated {
        let marked = m.insert((x, y), Cell { updated: true, ..m[(x, y)] });
        let bx = x + dir.flip_spec().vector_spec().0;
        let by = y + dir.flip_spec().vector_spec().1;
        if marked.contains_key((bx, by)) && can_generate_spec(marked[(bx, by)]) {
            let fin = push_spec(
                marked,
                w,
                h,
                x + dx,
                y + dy,
                dir,
                1,
                Some(marked[(bx, by)]),
                false,
            ).1;
            assert(!on_ray(x + dx, y + dy, x, y, dir));
            lemma_push_frame(
                marked,
                w,
                h,
                x + dx,
                y + dy,
                dir,
                1,
                Some(marked[(bx, by)]),
                false,
                (x, y),
            );
            assert(fin.contains_key((x, y)) && fin[(x, y)].updated);
        }
    }

    // movement
    if m.contains_key((x, y)) && m[(x, y)].id == MOVER && m[(x, y)].direction == dir && !m[
        (x, y)].updated {
        let marked = m.insert((x, y), Cell { updated: true, ..m[(x, y)] });
        match scan_spec(marked, w, h, x, y, dir, x, y, 0) {
            None => {},
            Some(e) => {
                let n = shift_len(x, y, e.0, e.1) as nat;
                let fin = shift_spec(marked, x, y, dir, None, n, true);
                let m2 = marked.remove((x, y));
                if n == 0 {
                    assert(fin == m2);
                } else {
                    let prev = Some(marked[(x, y)]);
                    assert(fin == shift_spec(m2, x + dx, y + dy, dir, prev, (n - 1) as nat,
                        true));
                    assert forall|k: int| 0 <= k <= (n - 1) as nat implies #[trigger] ray_pos(
                        x + dx,
                        y + dy,
                        dir,
                        k,
                    ) != (x, y) by {
                        lemma_ray_step(x, y, dir, k);
                    }
                    lemma_shift_frame(m2, x + dx, y + dy, dir, prev, (n - 1) as nat, true,
                        (x, y));
                }
                assert(!fin.contains_key((x, y)));
            },
        }
    }

    // rotation
    if m.contains_key((x, y)) && !m[(x, y)].updated && (m[(x, y)].id == ROTATOR_CW || m[
        (x, y)].id == ROTATOR_CCW) {
        let turn = if m[(x, y)].id == ROTATOR_CW {
            Direction::Down
        } else {
            Direction::Up
        };
        let marked = m.insert((x, y), Cell { updated: true, ..m[(x, y)] });
        let m1 = rotate_at_spec(marked, x + 1, y, turn);
        let m2 = rotate_at_spec(m1, x, y - 1, turn);
        let m3 = rotate_at_spec(m2, x - 1, y, turn);
        let m4 = rotate_at_spec(m3, x, y + 1, turn);
        assert(m4.contains_key((x, y)) && m4[(x, y)].updated);
    }
}

/// Reset phase of a tick: clears every cell's per-tick flag and reports
/// which of the acting kinds (generators, rotators, movers) occur at all,
/// so that a sub-phase without subjects can be skipped.
fn reset_cells(grid: &mut Grid) -> (r: (bool, bool, bool))
    requires
        old(grid).wf(),
    ensures
        final(grid).wf(),
        final(grid).width == old(grid).width,
        final(grid).height == old(grid).height,
        final(grid).tick_count == old(grid).tick_count,
        final(grid).contents() == clear_updated(old(grid).contents()),
        r.0 == has_cell_of(old(grid).contents(), GENERATOR),
        r.1 == (has_cell_of(old(grid).contents(), ROTATOR_CW) || has_cell_of(
            old(grid).contents(),
            ROTATOR_CCW,
        )),
        r.2 == has_cell_of(old(grid).contents(), MOVER),
{
    let ghost m0 = grid.contents();
    let mut gens = false;
    let mut rots = false;
    let mut movers = false;
    let h = grid.height;
    let w = grid.width;
    let mut yy: usize = 0;
    while yy < h
        invariant
            grid.wf(),
            grid.width == old(grid).width,
            grid.height == old(grid).height,
            grid.tick_count == old(grid).tick_count,
            w == grid.width,
            h == grid.height,
            m0 == old(grid).contents(),
            yy <= h,
            forall|a: int, b: int|
                grid.in_bounds_spec(a, b) ==> #[trigger] grid.at(a, b) == (if b < yy as int {
                    opt_cleared(old(grid).at(a, b))
                } else {
                    old(grid).at(a, b)
                }),
            gens ==> has_cell_of(m0, GENERATOR),
            rots ==> has_cell_of(m0, ROTATOR_CW) || has_cell_of(m0, ROTATOR_CCW),
            movers ==> has_cell_of(m0, MOVER),
            !gens ==> forall|a: int, b: int|
                b < yy as int && #[trigger] old(grid).at(a, b) is Some ==> old(grid).at(
                    a,
                    b,
                )->Some_0.id != GENERATOR,
            !rots ==> forall|a: int, b: int|
                b < yy as int && #[trigger] old(grid).at(a, b) is Some ==> old(grid).at(
                    a,
                    b,
                )->Some_0.id != ROTATOR_CW && old(grid).at(a, b)->Some_0.id != ROTATOR_CCW,
            !movers ==> forall|a: int, b: int|
                b < yy as int && #[trigger] old(grid).at(a, b) is Some ==> old(grid).at(
                    a,
                    b,
                )->Some_0.id != MOVER,
        decreases h - yy,
    {
        let mut xx: usize = 0;
        while xx < w
            invariant
                grid.wf(),
                grid.width == old(grid).width,
                grid.height == old(grid).height,
                grid.tick_count == old(grid).tick_count,
                w == grid.width,
                h == grid.height,
                m0 == old(grid).contents(),
                yy < h,
                xx <= w,
                forall|a: int, b: int|
                    grid.in_bounds_spec(a, b) ==> #[trigger] grid.at(a, b) == (if b
                        < yy as int || (b == yy as int && a < xx as int) {
                        opt_cleared(old(grid).at(a, b))
                    } else {
                        old(grid).at(a, b)
                    }),
                gens ==> has_cell_of(m0, GENERATOR),
                rots ==> has_cell_of(m0, ROTATOR_CW) || has_cell_of(m0, ROTATOR_CCW),
                movers ==> has_cell_of(m0, MOVER),
                !gens ==> forall|a: int, b: int|
                    (b < yy as int || (b == yy as int && a < xx as int)) && #[trigger] old(
                        grid,
                    ).at(a, b) is Some ==> old(grid).at(a, b)->Some_0.id != GENERATOR,
                !rots ==> forall|a: int, b: int|
                    (b < yy as int || (b == yy as int && a < xx as int)) && #[trigger] old(
                        grid,
                    ).at(a, b) is Some ==> old(grid).at(a, b)->Some_0.id != ROTATOR_CW && old(
                        grid,
                    ).at(a, b)->Some_0.id != ROTATOR_CCW,
                !movers ==> forall|a: int, b: int|
                    (b < yy as int || (b == yy as int && a < xx as int)) && #[trigger] old(
                        grid,
                    ).at(a, b) is Some ==> old(grid).at(a, b)->Some_0.id != MOVER,
            decreases w - xx,
        {
            let xi = xx as isize;
            let yi = yy as isize;
            match grid.get(xi, yi) {
                Some(cell) => {
                    proof {
                        assert(old(grid).at(xx as int, yy as int) == Some(cell));
                        old(grid).lemma_contents_in_bounds(xx as int, yy as int);
                    }
                    grid.set(xi, yi, Cell { updated: false, ..cell });
                    if cell.id == GENERATOR {
                        gens = true;
                    }
                    if cell.id == ROTATOR_CW || cell.id == ROTATOR_CCW {
                        rots = true;
                    }
                    if cell.id == MOVER {
                        movers = true;
                    }
                },
                None => {},
            }
            xx = xx + 1;
        }
        yy = yy + 1;
    }
    proof {
        assert(grid.contents() =~= clear_updated(m0));
        if !gens {
            assert(!has_cell_of(m0, GENERATOR)) by {
                if has_cell_of(m0, GENERATOR) {
                    let p = choose|p: (int, int)|
                        #[trigger] m0.contains_key(p) && m0[p].id == GENERATOR;
                    old(grid).lemma_contents_in_bounds(p.0, p.1);
                    assert(old(grid).at(p.0, p.1) is Some);
                }
            }
        }
        if !rots {
            assert(!has_cell_of(m0, ROTATOR_CW) && !has_cell_of(m0, ROTATOR_CCW)) by {
                if has_cell_of(m0, ROTATOR_CW) {
                    let p = choose|p: (int, int)|
                        #[trigger] m0.contains_key(p) && m0[p].id == ROTATOR_CW;
                    old(grid).lemma_contents_in_bounds(p.0, p.1);
                    assert(old(grid).at(p.0, p.1) is Some);
                }
                if has_cell_of(m0, ROTATOR_CCW) {
                    let p = choose|p: (int, int)|
                        #[trigger] m0.contains_key(p) && m0[p].id == ROTATOR_CCW;
                    old(grid).lemma_contents_in_bounds(p.0, p.1);
                    assert(old(grid).at(p.0, p.1) is Some);
                }
            }
        }
        if !movers {
            assert(!has_cell_of(m0, MOVER)) by {
                if has_cell_of(m0, MOVER) {
                    let p = choose|p: (int, int)|
                        #[trigger] m0.contains_key(p) && m0[p].id == MOVER;
                    old(grid).lemma_contents_in_bounds(p.0, p.1);
                    assert(old(grid).at(p.0, p.1) is Some);
                }
            }
        }
    }
    (gens, rots, movers)
}

/// One generation step: an unprocessed generator at `(x, y)` facing `dir`
/// is marked as acted, and a copy of the cell behind it is pushed out its
/// front with force one.
fn gen_step(grid: &mut Grid, x: isize, y: isize, dir: Direction)
    requires
        old(grid).wf(),
    ensures
        final(grid).wf(),
        final(grid).width == old(grid).width,
        final(grid).height == old(grid).height,
        final(grid).tick_count == old(grid).tick_count,
        walls_kept(old(grid).contents(), final(grid).contents()),
        final(grid).contents() == gen_step_spec(
            old(grid).contents(),
            old(grid).width as int,
            old(grid).height as int,
            x as int,
            y as int,
            dir,
        ),
{
    let ghost m0 = grid.contents();
    proof {
        grid.lemma_contents_in_bounds(x as int, y as int);
    }
    if let Some(cell) = grid.get(x, y) {
        if cell.id == GENERATOR && cell.direction == dir && !cell.updated {
            grid.set(x, y, Cell { updated: true, ..cell });
            proof {
                lemma_insert_keeps_walls(
                    m0,
                    (x as int, y as int),
                    Cell { updated: true, ..cell },
                );
            }
            let ghost m1 = grid.contents();
            let (cox, coy) = dir.flip().to_vector();
            proof {
                grid.lemma_contents_in_bounds(x as int + cox as int, y as int + coy as int);
            }
            let source_opt = grid.get(x + cox, y + coy);
            if let Some(source) = source_opt {
                if can_generate(&source) {
                    let (pox, poy) = dir.to_vector();
                    push(grid, x + pox, y + poy, dir, 1, Some(source), false);
                    proof {
                        lemma_wall_immovable(
                            m1,
                            old(grid).width as int,
                            old(grid).height as int,
                            x as int + pox as int,
                            y as int + poy as int,
                            dir,
                            1,
                            Some(source),
                            false,
                            cell,
                        );
                        lemma_walls_kept_trans(m0, m1, grid.contents());
                    }
                }
            }
        }
    }
}

/// One movement step: an unprocessed mover at `(x, y)` facing `dir` is
/// marked as acted and pushes the chain ahead of it.
fn mover_step(grid: &mut Grid, x: isize, y: isize, dir: Direction)
    requires
        old(grid).wf(),
    ensures
        final(grid).wf(),
        final(grid).width == old(grid).width,
        final(grid).height == old(grid).height,
        final(grid).tick_count == old(grid).tick_count,
        walls_kept(old(grid).contents(), final(grid).contents()),
        final(grid).contents() == mover_step_spec(
            old(grid).contents(),
            old(grid).width as int,
            old(grid).height as int,
            x as int,
            y as int,
            dir,
        ),
{
    let ghost m0 = grid.contents();
    proof {
        grid.lemma_contents_in_bounds(x as int, y as int);
    }
    if let Some(cell) = grid.get(x, y) {
        if cell.id == MOVER && cell.direction == dir && !cell.updated {
            grid.set(x, y, Cell { updated: true, ..cell });
            proof {
                lemma_insert_keeps_walls(
                    m0,
                    (x as int, y as int),
                    Cell { updated: true, ..cell },
                );
            }
            let ghost m1 = grid.contents();
            push(grid, x, y, dir, 0, None, true);
            proof {
                lemma_wall_immovable(
                    m1,
                    old(grid).width as int,
                    old(grid).height as int,
                    x as int,
                    y as int,
                    dir,
                    0,
                    None,
                    true,
                    cell,
                );
                lemma_walls_kept_trans(m0, m1, grid.contents());
            }
        }
    }
}

/// Rotates the neighbour at `(x, y)` by the quarter turn `dir`, keeping
/// every wall in place.
fn rot_neighbor(grid: &mut Grid, x: isize, y: isize, dir: Direction, side: Direction)
    requires
        old(grid).wf(),
    ensures
        final(grid).wf(),
        final(grid).width == old(grid).width,
        final(grid).height == old(grid).height,
        final(grid).tick_count == old(grid).tick_count,
        walls_kept(old(grid).contents(), final(grid).contents()),
        final(grid).contents() == rotate_at_spec(old(grid).contents(), x as int, y as int, dir),
{
    let ghost m0 = grid.contents();
    proof {
        grid.lemma_contents_in_bounds(x as int, y as int);
    }
    let rotated = rotate_by(grid, x, y, dir, side);
    proof {
        if rotated {
            let c = old(grid).at(x as int, y as int)->Some_0;
            grid.lemma_contents_in_bounds(x as int, y as int);
            old(grid).lemma_contents_in_bounds(x as int, y as int);
            lemma_insert_keeps_walls(
                m0,
                (x as int, y as int),
                Cell { direction: c.direction.rotated_spec(dir), ..c },
            );
        }
    }
}

/// One rotation step: an unprocessed rotator at `(x, y)` is marked as
/// acted and turns its four orthogonal neighbours a quarter turn, clockwise
/// or counter-clockwise by its kind.
fn rot_step(grid: &mut Grid, x: isize, y: isize)
    requires
        old(grid).wf(),
    ensures
        final(grid).wf(),
        final(grid).width == old(grid).width,
        final(grid).height == old(grid).height,
        final(grid).tick_count == old(grid).tick_count,
        walls_kept(old(grid).contents(), final(grid).contents()),
        final(grid).contents() == rot_step_spec(old(grid).contents(), x as int, y as int),
{
    let ghost m0 = grid.contents();
    proof {
        grid.lemma_contents_in_bounds(x as int, y as int);
    }
    if let Some(cell) = grid.get(x, y) {
        if !cell.updated && (cell.id == ROTATOR_CW || cell.id == ROTATOR_CCW) {
            let turn = if cell.id == ROTATOR_CW {
                Direction::Down
            } else {
                Direction::Up
            };
            grid.set(x, y, Cell { updated: true, ..cell });
            proof {
                lemma_insert_keeps_walls(
                    m0,
                    (x as int, y as int),
                    Cell { updated: true, ..cell },
                );
            }
            let ghost m1 = grid.contents();
            rot_neighbor(grid, x + 1, y, turn, Direction::Left);
            let ghost m2 = grid.contents();
            rot_neighbor(grid, x, y - 1, turn, Direction::Up);
            let ghost m3 = grid.contents();
            rot_neighbor(grid, x - 1, y, turn, Direction::Right);
            let ghost m4 = grid.contents();
            rot_neighbor(grid, x, y + 1, turn, Direction::Down);
            proof {
                lemma_walls_kept_trans(m0, m1, m2);
                lemma_walls_kept_trans(m0, m2, m3);
                lemma_walls_kept_trans(m0, m3, m4);
                lemma_walls_kept_trans(m0, m4, grid.contents());
            }
        }
    }
}

/// One generation pass for `dir`, over the whole grid in the scan order
/// that the facing demands: descending row-major for Right and Up,
/// ascending for Left and Down.
fn gens_pass(grid: &mut Grid, dir: Direction)
    requires
        old(grid).wf(),
    ensures
        final(grid).wf(),
        final(grid).width == old(grid).width,
        final(grid).height == old(grid).height,
        final(grid).tick_count == old(grid).tick_count,
        walls_kept(old(grid).contents(), final(grid).contents()),
        final(grid).contents() == gens_pass_spec(
            old(grid).contents(),
            old(grid).width as int,
            old(grid).height as int,
            dir,
        ),
{
    let ghost m0p = grid.contents();
    let descending = matches!(dir, Direction::Right | Direction::Up);
    let w = grid.width;
    let h = grid.height;
    if descending {
        let mut yy: usize = h;
        while yy > 0
            invariant
                grid.wf(),
                grid.width == old(grid).width,
                grid.height == old(grid).height,
                grid.tick_count == old(grid).tick_count,
                w == grid.width,
                h == grid.height,
                yy <= h,
                m0p == old(grid).contents(),
                dir == Direction::Right || dir == Direction::Up,
                walls_kept(old(grid).contents(), grid.contents()),
                grid.contents() == gens_grid_desc(m0p, w as int, h as int, dir, (h - yy) as nat),
            decreases yy,
        {
            yy = yy - 1;
            let mut xx: usize = w;
            while xx > 0
                invariant
                    grid.wf(),
                    grid.width == old(grid).width,
                    grid.height == old(grid).height,
                    grid.tick_count == old(grid).tick_count,
                    w == grid.width,
                    h == grid.height,
                    yy < h,
                    xx <= w,
                    m0p == old(grid).contents(),
                    dir == Direction::Right || dir == Direction::Up,
                    walls_kept(old(grid).contents(), grid.contents()),
                    grid.contents() == gens_row_desc(
                        gens_grid_desc(m0p, w as int, h as int, dir, (h - 1 - yy) as nat),
                        w as int,
                        h as int,
                        dir,
                        yy as int,
                        (w - xx) as nat,
                    ),
                decreases xx,
            {
                xx = xx - 1;
                let ghost mpre = grid.contents();
                gen_step(grid, xx as isize, yy as isize, dir);
                proof {
                    lemma_walls_kept_trans(old(grid).contents(), mpre, grid.contents());
                    assert(gens_row_desc(
                        gens_grid_desc(m0p, w as int, h as int, dir, (h - 1 - yy) as nat),
                        w as int,
                        h as int,
                        dir,
                        yy as int,
                        (w - xx) as nat,
                    ) == gen_step_spec(mpre, w as int, h as int, xx as int, yy as int, dir));
                }
            }
            proof {
                assert(gens_grid_desc(m0p, w as int, h as int, dir, (h - yy) as nat)
                    == gens_row_desc(
                    gens_grid_desc(m0p, w as int, h as int, dir, (h - 1 - yy) as nat),
                    w as int,
                    h as int,
                    dir,
                    yy as int,
                    w as nat,
                ));
            }
        }
    } else {
        let mut yy: usize = 0;
        while yy < h
            invariant
                grid.wf(),
                grid.width == old(grid).width,
                grid.height == old(grid).height,
                grid.tick_count == old(grid).tick_count,
                w == grid.width,
                h == grid.height,
                yy <= h,
                m0p == old(grid).contents(),
                !(dir == Direction::Right || dir == Direction::Up),
                walls_kept(old(grid).contents(), grid.contents()),
                grid.contents() == gens_grid_asc(m0p, w as int, h as int, dir, yy as nat),
            decreases h - yy,
        {
            let mut xx: usize = 0;
            while xx < w
                invariant
                    grid.wf(),
                    grid.width == old(grid).width,
                    grid.height == old(grid).height,
                    grid.tick_count == old(grid).tick_count,
                    w == grid.width,
                    h == grid.height,
                    yy < h,
                    xx <= w,
                    m0p == old(grid).contents(),
                    !(dir == Direction::Right || dir == Direction::Up),
                    walls_kept(old(grid).contents(), grid.contents()),
                    grid.contents() == gens_row_asc(
                        gens_grid_asc(m0p, w as int, h as int, dir, yy as nat),
                        w as int,
                        h as int,
                        dir,
                        yy as int,
                        xx as nat,
                    ),
                decreases w - xx,
            {
                let ghost mpre = grid.contents();
                gen_step(grid, xx as isize, yy as isize, dir);
                proof {
                    lemma_walls_kept_trans(old(grid).contents(), mpre, grid.contents());
                    assert(gens_row_asc(
                        gens_grid_asc(m0p, w as int, h as int, dir, yy as nat),
                        w as int,
                        h as int,
                        dir,
                        yy as int,
                        (xx + 1) as nat,
                    ) == gen_step_spec(mpre, w as int, h as int, xx as int, yy as int, dir));
                }
                xx = xx + 1;
            }
            proof {
                assert(gens_grid_asc(m0p, w as int, h as int, dir, (yy + 1) as nat) == gens_row_asc(
                    gens_grid_asc(m0p, w as int, h as int, dir, yy as nat),
                    w as int,
                    h as int,
                    dir,
                    yy as int,
                    w as nat,
                ));
            }
            yy = yy + 1;
        }
    }
}

/// One movement pass for `dir`, in the same direction-dependent scan
/// order as generation.
fn movers_pass(grid: &mut Grid, dir: Direction)
    requires
        old(grid).wf(),
    ensures
        final(grid).wf(),
        final(grid).width == old(grid).width,
        final(grid).height == old(grid).height,
        final(grid).tick_count == old(grid).tick_count,
        walls_kept(old(grid).contents(), final(grid).contents()),
        final(grid).contents() == movers_pass_spec(
            old(grid).contents(),
            old(grid).width as int,
            old(grid).height as int,
            dir,
        ),
{
    let ghost m0p = grid.contents();
    let descending = matches!(dir, Direction::Right | Direction::Up);
    let w = grid.width;
    let h = grid.height;
    if descending {
        let mut yy: usize = h;
        while yy > 0
            invariant
                grid.wf(),
                grid.width == old(grid).width,
                grid.height == old(grid).height,
                grid.tick_count == old(grid).tick_count,
                w == grid.width,
                h == grid.height,
                yy <= h,
                m0p == old(grid).contents(),
                dir == Direction::Right || dir == Direction::Up,
                walls_kept(old(grid).contents(), grid.contents()),
                grid.contents() == movers_grid_desc(m0p, w as int, h as int, dir, (h - yy) as nat),
            decreases yy,
        {
            yy = yy - 1;
            let mut xx: usize = w;
            while xx > 0
                invariant
                    grid.wf(),
                    grid.width == old(grid).width,
                    grid.height == old(grid).height,
                    grid.tick_count == old(grid).tick_count,
                    w == grid.width,
                    h == grid.height,
                    yy < h,
                    xx <= w,
                    m0p == old(grid).contents(),
                    dir == Direction::Right || dir == Direction::Up,
                    walls_kept(old(grid).contents(), grid.contents()),
                    grid.contents() == movers_row_desc(
                        movers_grid_desc(m0p, w as int, h as int, dir, (h - 1 - yy) as nat),
                        w as int,
                        h as int,
                        dir,
                        yy as int,
                        (w - xx) as nat,
                    ),
                decreases xx,
            {
                xx = xx - 1;
                let ghost mpre = grid.contents();
                mover_step(grid, xx as isize, yy as isize, dir);
                proof {
                    lemma_walls_kept_trans(old(grid).contents(), mpre, grid.contents());
                    assert(movers_row_desc(
                        movers_grid_desc(m0p, w as int, h as int, dir, (h - 1 - yy) as nat),
                        w as int,
                        h as int,
                        dir,
                        yy as int,
                        (w - xx) as nat,
                    ) == mover_step_spec(mpre, w as int, h as int, xx as int, yy as int, dir));
                }
            }
            proof {
                assert(movers_grid_desc(m0p, w as int, h as int, dir, (h - yy) as nat)
                    == movers_row_desc(
                    movers_grid_desc(m0p, w as int, h as int, dir, (h - 1 - yy) as nat),
                    w as int,
                    h as int,
                    dir,
                    yy as int,
                    w as nat,
                ));
            }
        }
    } else {
        let mut yy: usize = 0;
        while yy < h
            invariant
                grid.wf(),
                grid.width == old(grid).width,
                grid.height == old(grid).height,
                grid.tick_count == old(grid).tick_count,
                w == grid.width,
                h == grid.height,
                yy <= h,
                m0p == old(grid).contents(),
                !(dir == Direction::Right || dir == Direction::Up),
                walls_kept(old(grid).contents(), grid.contents()),
                grid.contents() == movers_grid_asc(m0p, w as int, h as int, dir, yy as nat),
            decreases h - yy,
        {
            let mut xx: usize = 0;
            while xx < w
                invariant
                    grid.wf(),
                    grid.width == old(grid).width,
                    grid.height == old(grid).height,
                    grid.tick_count == old(grid).tick_count,
                    w == grid.width,
                    h == grid.height,
                    yy < h,
                    xx <= w,
                    m0p == old(grid).contents(),
                    !(dir == Direction::Right || dir == Direction::Up),
                    walls_kept(old(grid).contents(), grid.contents()),
                    grid.contents() == movers_row_asc(
                        movers_grid_asc(m0p, w as int, h as int, dir, yy as nat),
                        w as int,
                        h as int,
                        dir,
                        yy as int,
                        xx as nat,
                    ),
                decreases w - xx,
            {
                let ghost mpre = grid.contents();
                mover_step(grid, xx as isize, yy as isize, dir);
                proof {
                    lemma_walls_kept_trans(old(grid).contents(), mpre, grid.contents());
                    assert(movers_row_asc(
                        movers_grid_asc(m0p, w as int, h as int, dir, yy as nat),
                        w as int,
                        h as int,
                        dir,
                        yy as int,
                        (xx + 1) as nat,
                    ) == mover_step_spec(mpre, w as int, h as int, xx as int, yy as int, dir));
                }
                xx = xx + 1;
            }
            proof {
                assert(movers_grid_asc(m0p, w as int, h as int, dir, (yy + 1) as nat) == movers_row_asc(
                    movers_grid_asc(m0p, w as int, h as int, dir, yy as nat),
                    w as int,
                    h as int,
                    dir,
                    yy as int,
                    w as nat,
                ));
            }
            yy = yy + 1;
        }
    }
}

/// Generation sub-phase: one pass per facing, Right, Left, Up, Down.
fn do_gens(grid: &mut Grid)
    requires
        old(grid).wf(),
    ensures
        final(grid).wf(),
        final(grid).width == old(grid).width,
        final(grid).height == old(grid).height,
        final(grid).tick_count == old(grid).tick_count,
        walls_kept(old(grid).contents(), final(grid).contents()),
        final(grid).contents() == gens_phase_spec(
            old(grid).contents(),
            old(grid).width as int,
            old(grid).height as int,
        ),
{
    let ghost m0 = grid.contents();
    gens_pass(grid, Direction::Right);
    let ghost m1 = grid.contents();
    gens_pass(grid, Direction::Left);
    let ghost m2 = grid.contents();
    gens_pass(grid, Direction::Up);
    let ghost m3 = grid.contents();
    gens_pass(grid, Direction::Down);
    proof {
        lemma_walls_kept_trans(m0, m1, m2);
        lemma_walls_kept_trans(m0, m2, m3);
        lemma_walls_kept_trans(m0, m3, grid.contents());
    }
}

/// Rotation sub-phase: one ascending row-major pass over every rotator.
fn do_rotators(grid: &mut Grid)
    requires
        old(grid).wf(),
    ensures
        final(grid).wf(),
        final(grid).width == old(grid).width,
        final(grid).height == old(grid).height,
        final(grid).tick_count == old(grid).tick_count,
        walls_kept(old(grid).contents(), final(grid).contents()),
        final(grid).contents() == rot_grid_spec(
            old(grid).contents(),
            old(grid).width as int,
            old(grid).height as nat,
        ),
{
    let ghost m0p = grid.contents();
    let w = grid.width;
    let h = grid.height;
    let mut yy: usize = 0;
    while yy < h
        invariant
            grid.wf(),
            grid.width == old(grid).width,
            grid.height == old(grid).height,
            grid.tick_count == old(grid).tick_count,
            w == grid.width,
            h == grid.height,
            yy <= h,
            m0p == old(grid).contents(),
            walls_kept(old(grid).contents(), grid.contents()),
            grid.contents() == rot_grid_spec(m0p, w as int, yy as nat),
        decreases h - yy,
    {
        let mut xx: usize = 0;
        while xx < w
            invariant
                grid.wf(),
                grid.width == old(grid).width,
                grid.height == old(grid).height,
                grid.tick_count == old(grid).tick_count,
                w == grid.width,
                h == grid.height,
                yy < h,
                xx <= w,
                m0p == old(grid).contents(),
                walls_kept(old(grid).contents(), grid.contents()),
                grid.contents() == rot_row_spec(
                    rot_grid_spec(m0p, w as int, yy as nat),
                    yy as int,
                    xx as nat,
                ),
            decreases w - xx,
        {
            let ghost mpre = grid.contents();
            rot_step(grid, xx as isize, yy as isize);
            proof {
                lemma_walls_kept_trans(old(grid).contents(), mpre, grid.contents());
                assert(rot_row_spec(
                    rot_grid_spec(m0p, w as int, yy as nat),
                    yy as int,
                    (xx + 1) as nat,
                ) == rot_step_spec(mpre, xx as int, yy as int));
            }
            xx = xx + 1;
        }
        proof {
            assert(rot_grid_spec(m0p, w as int, (yy + 1) as nat) == rot_row_spec(
                rot_grid_spec(m0p, w as int, yy as nat),
                yy as int,
                w as nat,
            ));
        }
        yy = yy + 1;
    }
}

/// Movement sub-phase: one pass per facing, Right, Left, Up, Down.
fn do_movers(grid: &mut Grid)
    requires
        old(grid).wf(),
    ensures
        final(grid).wf(),
        final(grid).width == old(grid).width,
        final(grid).height == old(grid).height,
        final(grid).tick_count == old(grid).tick_count,
        walls_kept(old(grid).contents(), final(grid).contents()),
        final(grid).contents() == movers_phase_spec(
            old(grid).contents(),
            old(grid).width as int,
            old(grid).height as int,
        ),
{
    let ghost m0 = grid.contents();
    movers_pass(grid, Direction::Right);
    let ghost m1 = grid.contents();
    movers_pass(grid, Direction::Left);
    let ghost m2 = grid.contents();
    movers_pass(grid, Direction::Up);
    let ghost m3 = grid.contents();
    movers_pass(grid, Direction::Down);
    proof {
        lemma_walls_kept_trans(m0, m1, m2);
        lemma_walls_kept_trans(m0, m2, m3);
        lemma_walls_kept_trans(m0, m3, grid.contents());
    }
}

/// One whole tick as a function of the grid contents: flags cleared, then
/// the generation, rotation and movement sub-phases in order, each run
/// exactly when a cell of its kind was present at the start of the tick.
pub open spec fn update_contents_spec(m: Map<(int, int), Cell>, w: int, h: int) -> Map<
    (int, int),
    Cell,
> {
    let m1 = clear_updated(m);
    let m2 = if has_cell_of(m, GENERATOR) {
        gens_phase_spec(m1, w, h)
    } else {
        m1
    };
    let m3 = if has_cell_of(m, ROTATOR_CW) || has_cell_of(m, ROTATOR_CCW) {
        rot_grid_spec(m2, w, h as nat)
    } else {
        m2
    };
    if has_cell_of(m, MOVER) {
        movers_phase_spec(m3, w, h)
    } else {
        m3
    }
}

/// Performs a single update step: clears every per-tick flag, runs the
/// generation, rotation and movement sub-phases (each skipped when no cell
/// of its kind is present), and raises the tick counter by exactly one.
/// Walls survive every tick in place, and a grid with no generator,
/// rotator or mover changes only by its flags being cleared.
pub fn update(grid: &mut Grid)
    requires
        old(grid).wf(),
        old(grid).tick_count < u64::MAX,
    ensures
        final(grid).wf(),
        final(grid).width == old(grid).width,
        final(grid).height == old(grid).height,
        final(grid).tick_count == old(grid).tick_count + 1,
        final(grid).contents() == update_contents_spec(
            old(grid).contents(),
            old(grid).width as int,
            old(grid).height as int,
        ),
        walls_like_kept(old(grid).contents(), final(grid).contents()),
        !has_cell_of(old(grid).contents(), GENERATOR) && !has_cell_of(
            old(grid).contents(),
            ROTATOR_CW,
        ) && !has_cell_of(old(grid).contents(), ROTATOR_CCW) && !has_cell_of(
            old(grid).contents(),
            MOVER,
        ) ==> final(grid).contents() == clear_updated(old(grid).contents()),
{
    let ghost m0 = grid.contents();
    let flags = reset_cells(grid);
    let ghost m1 = grid.contents();
    proof {
        assert(walls_like_kept(m0, m1)) by {
            assert forall|p: (int, int)| #[trigger] m0.contains_key(p) && m0[p].id == WALL
                implies m1.contains_key(p) && m1[p].like(m0[p]) by {
                assert(m1 == clear_updated(m0));
                assert(m1.contains_key(p) && m1[p] == m0[p].cleared());
            }
        }
    }
    if flags.0 {
        do_gens(grid);
    }
    let ghost m2 = grid.contents();
    if flags.1 {
        do_rotators(grid);
    }
    let ghost m3 = grid.contents();
    if flags.2 {
        do_movers(grid);
    }
    let ghost m4 = grid.contents();
    proof {
        if flags.0 {
            lemma_walls_kept_to_like(m1, m2);
        }
        if flags.1 {
            lemma_walls_kept_to_like(m2, m3);
        }
        if flags.2 {
            lemma_walls_kept_to_like(m3, m4);
        }
        lemma_walls_like_trans(m0, m1, m2);
        lemma_walls_like_trans(m0, m2, m3);
        lemma_walls_like_trans(m0, m3, m4);
    }
    grid.tick_count = grid.tick_count + 1;
    proof {
        assert(grid.contents() =~= m4);
    }
}

} // verus!
