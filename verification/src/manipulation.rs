use vstd::prelude::*;
use vstd::map::*;

use crate::cell_data::{CellType, ENEMY, MOVER, SLIDE, TRASH, WALL};
use crate::cells::{Cell, Grid};
use crate::direction::Direction;

verus! {

/// A force a cell is moved with.
#[derive(Debug, Copy, Clone, PartialEq, Eq, Structural)]
pub enum MoveForce {
    Push,
}

/// The result when pushing a cell.
#[derive(Debug, Copy, Clone, PartialEq, Eq, Structural)]
pub enum PushResult {
    Moved,
    NotMoved,
    Trashed,
}

/// Whether a cell may move one step in `direction`: never for a wall,
/// and for a slide only along the slide's own facing axis.
pub open spec fn can_move_spec(cell: Cell, direction: Direction) -> bool {
    if cell.id == WALL {
        false
    } else if cell.id == SLIDE && !cell.direction.same_axis_spec(direction) {
        false
    } else {
        true
    }
}

/// Whether a cell consumes whatever is pushed into it.
pub open spec fn is_trash_spec(cell: Cell) -> bool {
    cell.id == TRASH || cell.id == ENEMY
}

/// Whether a generator may clone this cell. Always true in the current
/// rule set; kept as an extension point.
pub open spec fn can_generate_spec(cell: Cell) -> bool {
    true
}

/// Whether a cell admits rotation: every kind but a wall.
pub open spec fn can_rotate_spec(cell: Cell) -> bool {
    cell.id != WALL
}

/// Checks if a cell can move in a certain direction with the given force.
pub fn can_move(cell: &Cell, direction: Direction, _force: MoveForce) -> (r: bool)
    ensures
        r == can_move_spec(*cell, direction),
{
    if cell.id == WALL {
        false
    } else if cell.id == SLIDE && !cell.direction.same_axis(direction) {
        false
    } else {
        true
    }
}

/// Checks if a cell is a trash in the direction it is being pushed.
pub fn is_trash(cell: &Cell, _direction: Direction) -> (r: bool)
    ensures
        r == is_trash_spec(*cell),
{
    cell.id == TRASH || cell.id == ENEMY
}

/// Checks if a cell can be generated.
pub fn can_generate(_cell: &Cell) -> (r: bool)
    ensures
        r == can_generate_spec(*_cell),
{
    true
}

/// Checks if a cell can be rotated from a specific direction.
pub fn can_rotate(cell: &Cell, _side: Direction) -> (r: bool)
    ensures
        r == can_rotate_spec(*cell),
{
    cell.id != WALL
}

/// The coordinate `k` steps along `dir` from `(x, y)`.
pub open spec fn ray_pos(x: int, y: int, dir: Direction, k: int) -> (int, int) {
    (x + k * dir.vector_spec().0, y + k * dir.vector_spec().1)
}

pub(crate) proof fn lemma_ray_step(x: int, y: int, dir: Direction, k: int)
    requires
        k >= 0,
    ensures
        ray_pos(x + dir.vector_spec().0, y + dir.vector_spec().1, dir, k) == ray_pos(
            x,
            y,
            dir,
            k + 1,
        ),
        ray_pos(x, y, dir, k + 1) != (x, y),
        ray_pos(x, y, dir, 0) == (x, y),
{
    let dx = dir.vector_spec().0;
    let dy = dir.vector_spec().1;
    assert((k + 1) * dx == k * dx + dx) by (nonlinear_arith);
    assert((k + 1) * dy == k * dy + dy) by (nonlinear_arith);
    assert(0 * dx == 0) by (nonlinear_arith);
    assert(0 * dy == 0) by (nonlinear_arith);
    match dir {
        Direction::Right => {
            assert((k + 1) * dx >= 1) by (nonlinear_arith)
                requires
                    k >= 0,
                    dx == 1,
            ;
        },
        Direction::Down => {
            assert((k + 1) * dy <= -1) by (nonlinear_arith)
                requires
                    k >= 0,
                    dy == -1,
            ;
        },
        Direction::Left => {
            assert((k + 1) * dx <= -1) by (nonlinear_arith)
                requires
                    k >= 0,
                    dx == -1,
            ;
        },
        Direction::Up => {
            assert((k + 1) * dy >= 1) by (nonlinear_arith)
                requires
                    k >= 0,
                    dy == 1,
            ;
        },
    }
}

/// Whether `(x, y)` lies on the ray that starts at `(x0, y0)` and runs
/// along `dir` (the start itself counts).
pub open spec fn on_ray(x0: int, y0: int, x: int, y: int, dir: Direction) -> bool {
    match dir {
        Direction::Right => y == y0 && x >= x0,
        Direction::Left => y == y0 && x <= x0,
        Direction::Up => x == x0 && y >= y0,
        Direction::Down => x == x0 && y <= y0,
    }
}

/// Slots between `(x, y)` and the boundary ahead of it: an upper bound on
/// how far a scan starting there can still walk.
pub open spec fn scan_fuel(w: int, h: int, x: int, y: int, dir: Direction) -> int {
    match dir {
        Direction::Right => w - x,
        Direction::Left => x + 1,
        Direction::Up => h - y,
        Direction::Down => y + 1,
    }
}

/// Axis distance between two points of one ray.
pub open spec fn shift_len(x: int, y: int, ex: int, ey: int) -> int {
    (if ex >= x {
        ex - x
    } else {
        x - ex
    }) + (if ey >= y {
        ey - y
    } else {
        y - ey
    })
}

/// Feasibility scan of the push algorithm, walking from `(x, y)` along
/// `dir` over the grid contents `m` of a `w x h` field. Aligned movers
/// raise the force, opposed movers lower it; a trash-like cell or an empty
/// slot ends the chain. Returns the coordinate the chain ends at, or
/// `None` when the push is blocked (boundary, an immovable cell, or the
/// force running out). `(ox, oy)` is the scan's origin, at which a
/// degenerate self-referential walk would stop.
pub open spec fn scan_spec(
    m: Map<(int, int), Cell>,
    w: int,
    h: int,
    ox: int,
    oy: int,
    dir: Direction,
    x: int,
    y: int,
    force: int,
) -> Option<(int, int)>
    decreases scan_fuel(w, h, x, y, dir),
{
    if !(0 <= x < w && 0 <= y < h) {
        None
    } else if !m.contains_key((x, y)) {
        Some((x, y))
    } else {
        let c = m[(x, y)];
        if c.id == MOVER && c.direction == dir.flip_spec() && force == 0 {
            None
        } else {
            let f = if c.id == MOVER && c.direction == dir {
                force + 1
            } else if c.id == MOVER && c.direction == dir.flip_spec() {
                force - 1
            } else {
                force
            };
            if is_trash_spec(c) {
                Some((x, y))
            } else if !can_move_spec(c, dir) {
                None
            } else {
                let nx = x + dir.vector_spec().0;
                let ny = y + dir.vector_spec().1;
                if f == 0 {
                    None
                } else if nx == ox && ny == oy {
                    Some((ox, oy))
                } else {
                    scan_spec(m, w, h, ox, oy, dir, nx, ny, f)
                }
            }
        }
    }
}

/// The carried cell as it is written: a mover pushed in its own facing is
/// marked as having acted this tick when `setupdated` holds.
pub open spec fn mark_carried(c: Option<Cell>, dir: Direction, setupdated: bool) -> Option<
    Cell,
> {
    match c {
        Some(cc) => if cc.id == MOVER && cc.direction == dir && setupdated {
            Some(Cell { updated: true, ..cc })
        } else {
            Some(cc)
        },
        None => None,
    }
}

/// Chain shift of the push algorithm: deposit the carried cell at
/// `(x, y)`, carry away what was there, and continue for `n` more steps
/// along `dir`. An enemy slot is deleted together with the carried cell;
/// any other trash-like slot consumes the carried cell and stays.
pub open spec fn shift_spec(
    m: Map<(int, int), Cell>,
    x: int,
    y: int,
    dir: Direction,
    carried: Option<Cell>,
    n: nat,
    setupdated: bool,
) -> Map<(int, int), Cell>
    decreases n,
{
    let car = mark_carried(carried, dir, setupdated);
    if m.contains_key((x, y)) && m[(x, y)].id == ENEMY {
        m.remove((x, y))
    } else if m.contains_key((x, y)) && is_trash_spec(m[(x, y)]) {
        m
    } else {
        let m2 = match car {
            Some(c) => m.insert((x, y), c),
            None => m.remove((x, y)),
        };
        if n == 0 {
            m2
        } else {
            shift_spec(
                m2,
                x + dir.vector_spec().0,
                y + dir.vector_spec().1,
                dir,
                if m.contains_key((x, y)) {
                    Some(m[(x, y)])
                } else {
                    None
                },
                (n - 1) as nat,
                setupdated,
            )
        }
    }
}

/// The push algorithm as one mathematical function of the grid contents:
/// the result reported and the contents after the call. A blocked scan
/// leaves the contents untouched; a chain whose very first slot is
/// trash-like consumes the pushed cell and reports `Trashed`; any other
/// chain shifts and reports `Moved`.
pub open spec fn push_spec(
    m: Map<(int, int), Cell>,
    w: int,
    h: int,
    x: int,
    y: int,
    dir: Direction,
    force: int,
    pushing: Option<Cell>,
    setupdated: bool,
) -> (PushResult, Map<(int, int), Cell>) {
    match scan_spec(m, w, h, x, y, dir, x, y, force) {
        None => (PushResult::NotMoved, m),
        Some(e) => {
            let r = if m.contains_key((x, y)) && is_trash_spec(m[(x, y)]) {
                PushResult::Trashed
            } else {
                PushResult::Moved
            };
            (r, shift_spec(m, x, y, dir, pushing, shift_len(x, y, e.0, e.1) as nat, setupdated))
        },
    }
}

/// Pushes the specified cell in a direction. Returns whether the cell was
/// moved. You can also specify a replacement cell that should be put where
/// the old one was.
pub fn push(
    grid: &mut Grid,
    x: isize,
    y: isize,
    dir: Direction,
    force: usize,
    pushing: Option<Cell>,
    setupdated: bool,
) -> (r: PushResult)
    requires
        old(grid).wf(),
        force as int + old(grid).width as int + old(grid).height as int <= usize::MAX as int,
    ensures
        final(grid).wf(),
        final(grid).width == old(grid).width,
        final(grid).height == old(grid).height,
        final(grid).tick_count == old(grid).tick_count,
        r == push_spec(
            old(grid).contents(),
            old(grid).width as int,
            old(grid).height as int,
            x as int,
            y as int,
            dir,
            force as int,
            pushing,
            setupdated,
        ).0,
        final(grid).contents() == push_spec(
            old(grid).contents(),
            old(grid).width as int,
            old(grid).height as int,
            x as int,
            y as int,
            dir,
            force as int,
            pushing,
            setupdated,
        ).1,
{
    let ghost m0 = grid.contents();
    let ghost w = grid.width as int;
    let ghost h = grid.height as int;
    let ghost force0 = force as int;

    let (ox, oy) = dir.to_vector();
    let mut tx = x;
    let mut ty = y;
    let mut fleft = force;

    // Feasibility scan: find where the chain ends, or learn that the push
    // is blocked.
    loop
        invariant_except_break
            grid.wf(),
            *grid == *old(grid),
            grid.contents() == m0,
            grid.width as int == w,
            grid.height as int == h,
            force0 + w + h <= usize::MAX as int,
            force0 == force as int,
            ox as int == dir.vector_spec().0,
            oy as int == dir.vector_spec().1,
            on_ray(x as int, y as int, tx as int, ty as int, dir),
            grid.in_bounds_spec(x as int, y as int) || (tx == x && ty == y && fleft as int
                == force0),
            grid.in_bounds_spec(x as int, y as int) ==> fleft as int <= force0 + scan_fuel(
                w,
                h,
                x as int,
                y as int,
                dir,
            ) - scan_fuel(w, h, tx as int, ty as int, dir),
            scan_spec(m0, w, h, x as int, y as int, dir, tx as int, ty as int, fleft as int)
                == scan_spec(m0, w, h, x as int, y as int, dir, x as int, y as int, force0),
        ensures
            grid.wf(),
            *grid == *old(grid),
            grid.contents() == m0,
            ox as int == dir.vector_spec().0,
            oy as int == dir.vector_spec().1,
            grid.in_bounds_spec(x as int, y as int),
            grid.in_bounds_spec(tx as int, ty as int),
            on_ray(x as int, y as int, tx as int, ty as int, dir),
            scan_spec(m0, w, h, x as int, y as int, dir, x as int, y as int, force0) == Some(
                (tx as int, ty as int),
            ),
        decreases scan_fuel(w, h, tx as int, ty as int, dir),
    {
        let ghost etx = tx as int;
        let ghost ety = ty as int;
        let ghost ef = fleft as int;
        if !grid.is_in_bounds(tx, ty) {
            proof {
                assert(scan_spec(m0, w, h, x as int, y as int, dir, etx, ety, ef) is None);
            }
            return PushResult::NotMoved;
        }
        proof {
            grid.lemma_contents_in_bounds(etx, ety);
        }
        let cell_opt = grid.get(tx, ty);
        match cell_opt {
            Some(cell) => {
                if cell.id == MOVER {
                    if cell.direction == dir {
                        fleft = fleft + 1;
                    } else if cell.direction == dir.flip() {
                        if fleft == 0 {
                            proof {
                                assert(scan_spec(
                                    m0,
                                    w,
                                    h,
                                    x as int,
                                    y as int,
                                    dir,
                                    etx,
                                    ety,
                                    ef,
                                ) is None);
                            }
                            return PushResult::NotMoved;
                        }
                        fleft = fleft - 1;
                    }
                }
                if is_trash(&cell, dir) {
                    proof {
                        assert(scan_spec(m0, w, h, x as int, y as int, dir, etx, ety, ef)
                            == Some((etx, ety)));
                    }
                    break;
                }
                if !can_move(&cell, dir, MoveForce::Push) {
                    proof {
                        assert(scan_spec(
                            m0,
                            w,
                            h,
                            x as int,
                            y as int,
                            dir,
                            etx,
                            ety,
                            ef,
                        ) is None);
                    }
                    return PushResult::NotMoved;
                }
                tx = tx + ox;
                ty = ty + oy;
            },
            None => {
                proof {
                    assert(scan_spec(m0, w, h, x as int, y as int, dir, etx, ety, ef) == Some(
                        (etx, ety),
                    ));
                }
                break;
            },
        }
        if fleft == 0 {
            proof {
                assert(scan_spec(m0, w, h, x as int, y as int, dir, etx, ety, ef) is None);
            }
            return PushResult::NotMoved;
        }
        if tx == x && ty == y {
            proof {
                assert(scan_spec(m0, w, h, x as int, y as int, dir, etx, ety, ef) == Some(
                    (x as int, y as int),
                ));
            }
            break;
        }
    }

    // Chain shift: replay the path, depositing the carried cell and
    // picking up what was there.
    let result = match grid.get(x, y) {
        Some(c) => if is_trash(&c, dir) {
            PushResult::Trashed
        } else {
            PushResult::Moved
        },
        None => PushResult::Moved,
    };
    let ghost n_total = shift_len(x as int, y as int, tx as int, ty as int) as nat;

    let mut px = x;
    let mut py = y;
    let mut next_cell = pushing;
    loop
        invariant_except_break
            grid.wf(),
            grid.width as int == w,
            grid.height as int == h,
            grid.tick_count == old(grid).tick_count,
            ox as int == dir.vector_spec().0,
            oy as int == dir.vector_spec().1,
            grid.in_bounds_spec(px as int, py as int),
            grid.in_bounds_spec(tx as int, ty as int),
            on_ray(px as int, py as int, tx as int, ty as int, dir),
            shift_spec(
                grid.contents(),
                px as int,
                py as int,
                dir,
                next_cell,
                shift_len(px as int, py as int, tx as int, ty as int) as nat,
                setupdated,
            ) == shift_spec(m0, x as int, y as int, dir, pushing, n_total, setupdated),
        ensures
            grid.wf(),
            grid.width as int == w,
            grid.height as int == h,
            grid.tick_count == old(grid).tick_count,
            grid.contents() == shift_spec(m0, x as int, y as int, dir, pushing, n_total, setupdated),
        decreases shift_len(px as int, py as int, tx as int, ty as int),
    {
        let ghost m_entry = grid.contents();
        let ghost carried0 = next_cell;
        match &mut next_cell {
            Some(cell) => {
                if cell.id == MOVER && cell.direction == dir && setupdated {
                    cell.set_updated(true);
                }
            },
            None => {},
        }
        proof {
            assert(mark_carried(next_cell, dir, setupdated) == mark_carried(
                carried0,
                dir,
                setupdated,
            ));
        }

        let here = grid.get(px, py);
        if let Some(cell) = here {
            if cell.id == ENEMY {
                grid.delete(px, py);
                proof {
                    grid.lemma_contents_in_bounds(px as int, py as int);
                    assert(grid.contents() =~= shift_spec(
                        m_entry,
                        px as int,
                        py as int,
                        dir,
                        carried0,
                        shift_len(px as int, py as int, tx as int, ty as int) as nat,
                        setupdated,
                    ));
                }
                break;
            }
            if is_trash(&cell, dir) {
                proof {
                    assert(grid.contents() == shift_spec(
                        m_entry,
                        px as int,
                        py as int,
                        dir,
                        carried0,
                        shift_len(px as int, py as int, tx as int, ty as int) as nat,
                        setupdated,
                    ));
                }
                break;
            }
        }
        let prev = grid.take(px, py);
        grid.set_cell(px, py, next_cell);
        proof {
            let pxi = px as int;
            let pyi = py as int;
            let car = mark_carried(carried0, dir, setupdated);
            match car {
                Some(c) => {
                    assert(grid.contents() =~= m_entry.insert((pxi, pyi), c));
                },
                None => {
                    assert(grid.contents() =~= m_entry.remove((pxi, pyi)));
                },
            }
        }
        next_cell = prev;
        if px == tx && py == ty {
            proof {
                assert(grid.contents() == shift_spec(
                    m_entry,
                    px as int,
                    py as int,
                    dir,
                    carried0,
                    0nat,
                    setupdated,
                ));
            }
            break;
        }
        proof {
            let n_here = shift_len(px as int, py as int, tx as int, ty as int) as nat;
            assert(n_here >= 1);
            assert(shift_spec(m_entry, px as int, py as int, dir, carried0, n_here, setupdated)
                == shift_spec(
                grid.contents(),
                px as int + dir.vector_spec().0,
                py as int + dir.vector_spec().1,
                dir,
                next_cell,
                (n_here - 1) as nat,
                setupdated,
            ));
        }
        px = px + ox;
        py = py + oy;
    }
    result
}

/// Rotates `cell` to face `dir` when its kind admits rotation; `side`
/// records which neighbour slot asked and does not affect the outcome.
pub(crate) fn rotate(cell: &mut Cell, dir: Direction, side: Direction) -> (r: bool)
    ensures
        r == can_rotate_spec(*old(cell)),
        r ==> *final(cell) == (Cell { direction: dir, ..*old(cell) }),
        !r ==> *final(cell) == *old(cell),
{
    let c = *cell;
    if can_rotate(&c, side) {
        cell.set_direction(dir);
        true
    } else {
        false
    }
}

/// Rotates a cell by a specific amount: the cell at `(x, y)`, when it
/// exists and admits rotation, has its facing turned by `dir` as a
/// quarter-turn offset. Returns whether anything was rotated.
pub fn rotate_by(grid: &mut Grid, x: isize, y: isize, dir: Direction, side: Direction) -> (r:
    bool)
    requires
        old(grid).wf(),
    ensures
        final(grid).wf(),
        final(grid).width == old(grid).width,
        final(grid).height == old(grid).height,
        final(grid).tick_count == old(grid).tick_count,
        r == (old(grid).at(x as int, y as int) is Some && can_rotate_spec(
            old(grid).at(x as int, y as int)->Some_0,
        )),
        r ==> ({
            let c = old(grid).at(x as int, y as int)->Some_0;
            final(grid).contents() == old(grid).contents().insert(
                (x as int, y as int),
                Cell { direction: c.direction.rotated_spec(dir), ..c },
            )
        }),
        !r ==> *final(grid) == *old(grid),
{
    match grid.get(x, y) {
        Some(cell) => {
            let mut c = cell;
            let rotated = rotate(&mut c, cell.direction.rotated_by(dir), side);
            if rotated {
                grid.set(x, y, c);
            }
            rotated
        },
        None => false,
    }
}

/// Wall cells of `m0` stand unchanged, in place, in `m`.
pub open spec fn walls_kept(m0: Map<(int, int), Cell>, m: Map<(int, int), Cell>) -> bool {
    forall|p: (int, int)|
        #[trigger] m0.contains_key(p) && m0[p].id == WALL ==> m.contains_key(p) && m[p] == m0[p]
}

proof fn lemma_scan_props(
    m: Map<(int, int), Cell>,
    w: int,
    h: int,
    ox: int,
    oy: int,
    dir: Direction,
    x: int,
    y: int,
    force: int,
)
    requires
        on_ray(ox, oy, x, y, dir),
        scan_spec(m, w, h, ox, oy, dir, x, y, force) is Some,
    ensures
        ({
            let e = scan_spec(m, w, h, ox, oy, dir, x, y, force)->Some_0;
            on_ray(x, y, e.0, e.1, dir) && forall|k: int|
                0 <= k <= shift_len(x, y, e.0, e.1) && m.contains_key(
                    #[trigger] ray_pos(x, y, dir, k),
                ) ==> m[ray_pos(x, y, dir, k)].id != WALL
        }),
    decreases scan_fuel(w, h, x, y, dir),
{
    let e = scan_spec(m, w, h, ox, oy, dir, x, y, force)->Some_0;
    if !(0 <= x < w && 0 <= y < h) {
    } else if !m.contains_key((x, y)) {
        lemma_ray_step(x, y, dir, 0);
    } else {
        let c = m[(x, y)];
        if c.id == MOVER && c.direction == dir.flip_spec() && force == 0 {
        } else {
            let f = if c.id == MOVER && c.direction == dir {
                force + 1
            } else if c.id == MOVER && c.direction == dir.flip_spec() {
                force - 1
            } else {
                force
            };
            if is_trash_spec(c) {
                assert forall|k: int|
                    0 <= k <= shift_len(x, y, e.0, e.1) && m.contains_key(
                        #[trigger] ray_pos(x, y, dir, k),
                    ) implies m[ray_pos(x, y, dir, k)].id != WALL by {
                    lemma_ray_step(x, y, dir, 0);
                }
            } else if !can_move_spec(c, dir) {
            } else {
                let nx = x + dir.vector_spec().0;
                let ny = y + dir.vector_spec().1;
                if f == 0 {
                } else if nx == ox && ny == oy {
                    assert(false);
                } else {
                    lemma_scan_props(m, w, h, ox, oy, dir, nx, ny, f);
                    let e2 = scan_spec(m, w, h, ox, oy, dir, nx, ny, f)->Some_0;
                    assert(e2 == e);
                    assert forall|k: int|
                        0 <= k <= shift_len(x, y, e.0, e.1) && m.contains_key(
                            #[trigger] ray_pos(x, y, dir, k),
                        ) implies m[ray_pos(x, y, dir, k)].id != WALL by {
                        if k == 0 {
                            lemma_ray_step(x, y, dir, 0);
                        } else {
                            lemma_ray_step(x, y, dir, k - 1);
                            assert(ray_pos(x, y, dir, k) == ray_pos(nx, ny, dir, k - 1));
                            assert(0 <= k - 1 <= shift_len(nx, ny, e.0, e.1));
                        }
                    }
                }
            }
        }
    }
}

proof fn lemma_shift_walls(
    m: Map<(int, int), Cell>,
    x: int,
    y: int,
    dir: Direction,
    carried: Option<Cell>,
    n: nat,
    su: bool,
)
    requires
        forall|k: int|
            0 <= k <= n && m.contains_key(#[trigger] ray_pos(x, y, dir, k)) ==> m[ray_pos(
                x,
                y,
                dir,
                k,
            )].id != WALL,
    ensures
        walls_kept(m, shift_spec(m, x, y, dir, carried, n, su)),
    decreases n,
{
    let fin = shift_spec(m, x, y, dir, carried, n, su);
    let car = mark_carried(carried, dir, su);
    lemma_ray_step(x, y, dir, 0);
    assert(ray_pos(x, y, dir, 0) == (x, y));
    if m.contains_key((x, y)) && m[(x, y)].id == ENEMY {
    } else if m.contains_key((x, y)) && is_trash_spec(m[(x, y)]) {
    } else {
        let m2 = match car {
            Some(c) => m.insert((x, y), c),
            None => m.remove((x, y)),
        };
        if n == 0 {
        } else {
            let nx = x + dir.vector_spec().0;
            let ny = y + dir.vector_spec().1;
            let prev = if m.contains_key((x, y)) {
                Some(m[(x, y)])
            } else {
                None
            };
            assert forall|k: int|
                0 <= k <= (n - 1) as nat && m2.contains_key(
                    #[trigger] ray_pos(nx, ny, dir, k),
                ) implies m2[ray_pos(nx, ny, dir, k)].id != WALL by {
                lemma_ray_step(x, y, dir, k);
                assert(ray_pos(nx, ny, dir, k) == ray_pos(x, y, dir, k + 1));
                assert(ray_pos(x, y, dir, k + 1) != (x, y));
            }
            lemma_shift_walls(m2, nx, ny, dir, prev, (n - 1) as nat, su);
            assert forall|p: (int, int)|
                #[trigger] m.contains_key(p) && m[p].id == WALL implies fin.contains_key(p)
                && fin[p] == m[p] by {
                assert(p != (x, y));
                assert(m2.contains_key(p) && m2[p] == m[p]);
            }
        }
    }
}

/// A Wall never moves and never rotates: any push, wherever it is aimed
/// and whatever it carries, leaves every wall cell exactly where and as it
/// was, and a wall satisfies neither the movability nor the rotation
/// predicate.
pub proof fn lemma_wall_immovable(
    m: Map<(int, int), Cell>,
    w: int,
    h: int,
    x: int,
    y: int,
    dir: Direction,
    force: int,
    pushing: Option<Cell>,
    su: bool,
    c: Cell,
)
    ensures
        walls_kept(m, push_spec(m, w, h, x, y, dir, force, pushing, su).1),
        c.id == WALL ==> !can_rotate_spec(c) && !can_move_spec(c, dir),
{
    match scan_spec(m, w, h, x, y, dir, x, y, force) {
        None => {},
        Some(e) => {
            lemma_scan_props(m, w, h, x, y, dir, x, y, force);
            lemma_shift_walls(
                m,
                x,
                y,
                dir,
                pushing,
                shift_len(x, y, e.0, e.1) as nat,
                su,
            );
        },
    }
}

/// A Slide can be pushed only along its own facing axis: a push aimed at
/// a slide across that axis reports `NotMoved` and leaves the grid
/// contents untouched.
pub proof fn lemma_slide_blocks_cross_axis(
    m: Map<(int, int), Cell>,
    w: int,
    h: int,
    x: int,
    y: int,
    dir: Direction,
    force: int,
    pushing: Option<Cell>,
    su: bool,
)
    requires
        m.contains_key((x, y)),
        m[(x, y)].id == SLIDE,
        !m[(x, y)].direction.same_axis_spec(dir),
    ensures
        push_spec(m, w, h, x, y, dir, force, pushing, su) == (PushResult::NotMoved, m),
{
    assert(scan_spec(m, w, h, x, y, dir, x, y, force) is None);
}

proof fn lemma_ray_on_ray(x: int, y: int, dir: Direction, k: int)
    requires
        k >= 0,
    ensures
        on_ray(x, y, ray_pos(x, y, dir, k).0, ray_pos(x, y, dir, k).1, dir),
{
    let dx = dir.vector_spec().0;
    let dy = dir.vector_spec().1;
    match dir {
        Direction::Right => {
            assert(k * dx >= 0 && k * dy == 0) by (nonlinear_arith)
                requires
                    k >= 0,
                    dx == 1,
                    dy == 0,
            ;
        },
        Direction::Down => {
            assert(k * dx == 0 && k * dy <= 0) by (nonlinear_arith)
                requires
                    k >= 0,
                    dx == 0,
                    dy == -1,
            ;
        },
        Direction::Left => {
            assert(k * dx <= 0 && k * dy == 0) by (nonlinear_arith)
                requires
                    k >= 0,
                    dx == -1,
                    dy == 0,
            ;
        },
        Direction::Up => {
            assert(k * dx == 0 && k * dy >= 0) by (nonlinear_arith)
                requires
                    k >= 0,
                    dx == 0,
                    dy == 1,
            ;
        },
    }
}

pub(crate) proof fn lemma_shift_frame(
    m: Map<(int, int), Cell>,
    x: int,
    y: int,
    dir: Direction,
    carried: Option<Cell>,
    n: nat,
    su: bool,
    q: (int, int),
)
    requires
        forall|k: int| 0 <= k <= n ==> #[trigger] ray_pos(x, y, dir, k) != q,
    ensures
        shift_spec(m, x, y, dir, carried, n, su).contains_key(q) == m.contains_key(q),
        m.contains_key(q) ==> shift_spec(m, x, y, dir, carried, n, su)[q] == m[q],
    decreases n,
{
    let fin = shift_spec(m, x, y, dir, carried, n, su);
    let car = mark_carried(carried, dir, su);
    lemma_ray_step(x, y, dir, 0);
    assert(ray_pos(x, y, dir, 0) == (x, y));
    if m.contains_key((x, y)) && m[(x, y)].id == ENEMY {
    } else if m.contains_key((x, y)) && is_trash_spec(m[(x, y)]) {
    } else {
        let m2 = match car {
            Some(c) => m.insert((x, y), c),
            None => m.remove((x, y)),
        };
        if n == 0 {
        } else {
            let nx = x + dir.vector_spec().0;
            let ny = y + dir.vector_spec().1;
            let prev = if m.contains_key((x, y)) {
                Some(m[(x, y)])
            } else {
                None
            };
            assert forall|k: int| 0 <= k <= (n - 1) as nat implies #[trigger] ray_pos(
                nx,
                ny,
                dir,
                k,
            ) != q by {
                lemma_ray_step(x, y, dir, k);
                assert(ray_pos(nx, ny, dir, k) == ray_pos(x, y, dir, k + 1));
            }
            lemma_shift_frame(m2, nx, ny, dir, prev, (n - 1) as nat, su, q);
        }
    }
}

/// A push never touches a slot off the ray ahead of its origin: any
/// coordinate that is not on that ray keeps exactly the cell it had.
pub proof fn lemma_push_frame(
    m: Map<(int, int), Cell>,
    w: int,
    h: int,
    x: int,
    y: int,
    dir: Direction,
    force: int,
    pushing: Option<Cell>,
    su: bool,
    q: (int, int),
)
    requires
        !on_ray(x, y, q.0, q.1, dir),
    ensures
        push_spec(m, w, h, x, y, dir, force, pushing, su).1.contains_key(q) == m.contains_key(
            q,
        ),
        m.contains_key(q) ==> push_spec(m, w, h, x, y, dir, force, pushing, su).1[q] == m[q],
{
    match scan_spec(m, w, h, x, y, dir, x, y, force) {
        None => {},
        Some(e) => {
            let n = shift_len(x, y, e.0, e.1) as nat;
            assert forall|k: int| 0 <= k <= n implies #[trigger] ray_pos(x, y, dir, k)
                != q by {
                lemma_ray_on_ray(x, y, dir, k);
            }
            lemma_shift_frame(m, x, y, dir, pushing, n, su, q);
        },
    }
}

/// A Slide can be pushed along its own facing axis: with positive force
/// and a free slot ahead, the slide moves one step ahead and the push
/// reports `Moved`.
pub proof fn lemma_slide_moves_along_axis(
    m: Map<(int, int), Cell>,
    w: int,
    h: int,
    x: int,
    y: int,
    dir: Direction,
    force: int,
    su: bool,
)
    requires
        0 <= x < w,
        0 <= y < h,
        0 <= x + dir.vector_spec().0 < w,
        0 <= y + dir.vector_spec().1 < h,
        m.contains_key((x, y)),
        m[(x, y)].id == SLIDE,
        m[(x, y)].direction.same_axis_spec(dir),
        force >= 1,
        !m.contains_key((x + dir.vector_spec().0, y + dir.vector_spec().1)),
    ensures
        push_spec(m, w, h, x, y, dir, force, None, su).0 == PushResult::Moved,
        push_spec(m, w, h, x, y, dir, force, None, su).1 == m.remove((x, y)).insert(
            (x + dir.vector_spec().0, y + dir.vector_spec().1),
            m[(x, y)],
        ),
{
    let nx = x + dir.vector_spec().0;
    let ny = y + dir.vector_spec().1;
    lemma_ray_step(x, y, dir, 0);
    assert((nx, ny) == ray_pos(x, y, dir, 1));
    assert((nx, ny) != (x, y));
    assert(scan_spec(m, w, h, x, y, dir, nx, ny, force) == Some((nx, ny)));
    assert(scan_spec(m, w, h, x, y, dir, x, y, force) == Some((nx, ny)));
    assert(shift_len(x, y, nx, ny) == 1);
    let m2 = m.remove((x, y));
    assert(shift_spec(m2, nx, ny, dir, Some(m[(x, y)]), 0nat, su) == m2.insert(
        (nx, ny),
        m[(x, y)],
    ));
    assert(shift_spec(m, x, y, dir, None, 1nat, su) == m2.insert((nx, ny), m[(x, y)]));
}

/// A cell pushed directly into a trash-like slot is deleted: the push
/// reports `Trashed`; a Trash slot stays as it was, an Enemy slot is
/// deleted together with the incoming cell, leaving the slot empty.
pub proof fn lemma_push_into_trash(
    m: Map<(int, int), Cell>,
    w: int,
    h: int,
    x: int,
    y: int,
    dir: Direction,
    force: int,
    pushing: Option<Cell>,
    su: bool,
)
    requires
        0 <= x < w,
        0 <= y < h,
        m.contains_key((x, y)),
        is_trash_spec(m[(x, y)]),
    ensures
        push_spec(m, w, h, x, y, dir, force, pushing, su).0 == PushResult::Trashed,
        m[(x, y)].id == ENEMY ==> push_spec(m, w, h, x, y, dir, force, pushing, su).1
            == m.remove((x, y)),
        m[(x, y)].id != ENEMY ==> push_spec(m, w, h, x, y, dir, force, pushing, su).1 == m,
{
    assert(scan_spec(m, w, h, x, y, dir, x, y, force) == Some((x, y)));
    assert(shift_len(x, y, x, y) == 0);
}

} // verus!
