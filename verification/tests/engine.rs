use quell::cell_data::{ENEMY, GENERATOR, MOVER, PUSH, ROTATOR_CCW, ROTATOR_CW, SLIDE, TRASH,
    WALL};
use quell::cells::{Cell, Grid};
use quell::direction::Direction;
use quell::update::update;

#[test]
fn tick_count_increments_on_empty_grid() {
    let mut g = Grid::new(4, 4);
    assert_eq!(g.tick_count, 0);
    update(&mut g);
    assert_eq!(g.tick_count, 1);
    update(&mut g);
    assert_eq!(g.tick_count, 2);
}

#[test]
fn tick_count_increments_regardless_of_contents() {
    let mut g = Grid::new(3, 3);
    g.set(0, 0, Cell::new(MOVER, Direction::Right));
    g.set(1, 1, Cell::new(GENERATOR, Direction::Up));
    g.set(2, 2, Cell::new(ROTATOR_CW, Direction::Right));
    for expected in 1..=5u64 {
        update(&mut g);
        assert_eq!(g.tick_count, expected);
    }
}

#[test]
fn walls_only_grid_changes_nothing_but_tick() {
    let mut g = Grid::new(3, 2);
    g.set(0, 0, Cell::new(WALL, Direction::Right));
    g.set(2, 0, Cell::new(WALL, Direction::Up));
    g.set(1, 1, Cell::new(WALL, Direction::Left));
    let before = g.clone();
    update(&mut g);
    assert_eq!(g.tick_count, before.tick_count + 1);
    for y in 0..2 {
        for x in 0..3 {
            assert_eq!(g.get(x, y), before.get(x, y));
        }
    }
}

#[test]
fn mover_pushes_chain_one_step_right() {
    let mut g = Grid::new(3, 1);
    g.set(0, 0, Cell::new(MOVER, Direction::Right));
    g.set(1, 0, Cell::new(PUSH, Direction::Right));
    update(&mut g);
    assert!(g.get(0, 0).is_none());
    let mover = g.get(1, 0).unwrap();
    assert_eq!(mover.id, MOVER);
    assert_eq!(mover.direction, Direction::Right);
    assert!(mover.updated);
    let pushed = g.get(2, 0).unwrap();
    assert_eq!(pushed.id, PUSH);
}

#[test]
fn mover_blocked_by_wall_changes_only_its_flag() {
    let mut g = Grid::new(3, 1);
    g.set(0, 0, Cell::new(MOVER, Direction::Right));
    g.set(1, 0, Cell::new(PUSH, Direction::Right));
    g.set(2, 0, Cell::new(WALL, Direction::Right));
    update(&mut g);
    let mover = g.get(0, 0).unwrap();
    assert_eq!(mover.id, MOVER);
    assert!(mover.updated);
    assert_eq!(g.get(1, 0).unwrap().id, PUSH);
    assert_eq!(g.get(2, 0).unwrap().id, WALL);
}

#[test]
fn mover_moves_exactly_one_cell_per_tick() {
    let mut g = Grid::new(4, 1);
    g.set(0, 0, Cell::new(MOVER, Direction::Right));
    update(&mut g);
    assert!(g.get(0, 0).is_none());
    assert_eq!(g.get(1, 0).unwrap().id, MOVER);
    assert!(g.get(2, 0).is_none());
    assert!(g.get(3, 0).is_none());
    update(&mut g);
    assert!(g.get(1, 0).is_none());
    assert_eq!(g.get(2, 0).unwrap().id, MOVER);
}

#[test]
fn opposing_movers_cancel_out() {
    let mut g = Grid::new(2, 1);
    g.set(0, 0, Cell::new(MOVER, Direction::Right));
    g.set(1, 0, Cell::new(MOVER, Direction::Left));
    update(&mut g);
    let a = g.get(0, 0).unwrap();
    let b = g.get(1, 0).unwrap();
    assert_eq!(a.id, MOVER);
    assert_eq!(a.direction, Direction::Right);
    assert_eq!(b.id, MOVER);
    assert_eq!(b.direction, Direction::Left);
    assert!(a.updated);
    assert!(b.updated);
}

#[test]
fn mover_cannot_push_slide_across_its_axis() {
    let mut g = Grid::new(3, 3);
    g.set(1, 0, Cell::new(MOVER, Direction::Up));
    g.set(1, 1, Cell::new(SLIDE, Direction::Right));
    update(&mut g);
    let mover = g.get(1, 0).unwrap();
    assert_eq!(mover.id, MOVER);
    assert!(mover.updated);
    assert_eq!(g.get(1, 1).unwrap().id, SLIDE);
    assert!(g.get(1, 2).is_none());
}

#[test]
fn generator_copies_the_cell_behind_it() {
    let mut g = Grid::new(3, 1);
    g.set(0, 0, Cell::new(WALL, Direction::Right));
    g.set(1, 0, Cell::new(GENERATOR, Direction::Right));
    update(&mut g);
    let source = g.get(0, 0).unwrap();
    assert_eq!(source.id, WALL);
    assert_eq!(source.direction, Direction::Right);
    let gen = g.get(1, 0).unwrap();
    assert_eq!(gen.id, GENERATOR);
    assert!(gen.updated);
    let copy = g.get(2, 0).unwrap();
    assert_eq!(copy.id, WALL);
    assert_eq!(copy.direction, Direction::Right);
}

#[test]
fn generator_with_blocked_front_generates_nothing() {
    let mut g = Grid::new(3, 1);
    g.set(0, 0, Cell::new(PUSH, Direction::Right));
    g.set(1, 0, Cell::new(GENERATOR, Direction::Right));
    g.set(2, 0, Cell::new(WALL, Direction::Right));
    update(&mut g);
    assert_eq!(g.get(0, 0).unwrap().id, PUSH);
    assert_eq!(g.get(1, 0).unwrap().id, GENERATOR);
    assert_eq!(g.get(2, 0).unwrap().id, WALL);
}

#[test]
fn generator_with_empty_behind_generates_nothing() {
    let mut g = Grid::new(3, 1);
    g.set(1, 0, Cell::new(GENERATOR, Direction::Right));
    update(&mut g);
    assert!(g.get(0, 0).is_none());
    assert!(g.get(2, 0).is_none());
    assert_eq!(g.get(1, 0).unwrap().id, GENERATOR);
}

#[test]
fn rotator_cw_turns_neighbor_below_to_face_down() {
    let mut g = Grid::new(3, 3);
    g.set(1, 1, Cell::new(ROTATOR_CW, Direction::Right));
    g.set(1, 0, Cell::new(PUSH, Direction::Right));
    update(&mut g);
    let rotator = g.get(1, 1).unwrap();
    assert_eq!(rotator.id, ROTATOR_CW);
    assert_eq!(rotator.direction, Direction::Right);
    assert!(rotator.updated);
    let neighbor = g.get(1, 0).unwrap();
    assert_eq!(neighbor.id, PUSH);
    assert_eq!(neighbor.direction, Direction::Down);
}

#[test]
fn rotator_ccw_turns_neighbor_below_to_face_up() {
    let mut g = Grid::new(3, 3);
    g.set(1, 1, Cell::new(ROTATOR_CCW, Direction::Right));
    g.set(1, 0, Cell::new(PUSH, Direction::Right));
    update(&mut g);
    let neighbor = g.get(1, 0).unwrap();
    assert_eq!(neighbor.id, PUSH);
    assert_eq!(neighbor.direction, Direction::Up);
}

#[test]
fn rotator_turns_all_four_neighbors_but_not_walls() {
    let mut g = Grid::new(3, 3);
    g.set(1, 1, Cell::new(ROTATOR_CW, Direction::Right));
    g.set(2, 1, Cell::new(PUSH, Direction::Right));
    g.set(0, 1, Cell::new(PUSH, Direction::Up));
    g.set(1, 2, Cell::new(PUSH, Direction::Left));
    g.set(1, 0, Cell::new(WALL, Direction::Right));
    update(&mut g);
    assert_eq!(g.get(2, 1).unwrap().direction, Direction::Down);
    assert_eq!(g.get(0, 1).unwrap().direction, Direction::Right);
    assert_eq!(g.get(1, 2).unwrap().direction, Direction::Up);
    let wall = g.get(1, 0).unwrap();
    assert_eq!(wall.id, WALL);
    assert_eq!(wall.direction, Direction::Right);
}

#[test]
fn mover_into_trash_is_consumed() {
    let mut g = Grid::new(2, 1);
    g.set(0, 0, Cell::new(MOVER, Direction::Right));
    g.set(1, 0, Cell::new(TRASH, Direction::Right));
    update(&mut g);
    assert!(g.get(0, 0).is_none());
    assert_eq!(g.get(1, 0).unwrap().id, TRASH);
}

#[test]
fn mover_into_enemy_destroys_both() {
    let mut g = Grid::new(2, 1);
    g.set(0, 0, Cell::new(MOVER, Direction::Right));
    g.set(1, 0, Cell::new(ENEMY, Direction::Right));
    update(&mut g);
    assert!(g.get(0, 0).is_none());
    assert!(g.get(1, 0).is_none());
}

#[test]
fn updated_flags_are_cleared_each_tick() {
    let mut g = Grid::new(3, 1);
    g.set(0, 0, Cell::new(MOVER, Direction::Right));
    update(&mut g);
    assert!(g.get(1, 0).unwrap().updated);
    update(&mut g);
    let mover = g.get(2, 0).unwrap();
    assert_eq!(mover.id, MOVER);
    assert!(mover.updated);
}

#[test]
fn blocked_generator_and_mover_stay_put() {
    let mut g = Grid::new(3, 1);
    g.set(0, 0, Cell::new(MOVER, Direction::Right));
    g.set(1, 0, Cell::new(GENERATOR, Direction::Right));
    g.set(2, 0, Cell::new(WALL, Direction::Right));
    update(&mut g);
    assert_eq!(g.get(0, 0).unwrap().id, MOVER);
    assert_eq!(g.get(1, 0).unwrap().id, GENERATOR);
    assert_eq!(g.get(2, 0).unwrap().id, WALL);
}

#[test]
fn generation_then_movement_in_one_tick() {
    let mut g = Grid::new(4, 1);
    g.set(0, 0, Cell::new(MOVER, Direction::Right));
    g.set(1, 0, Cell::new(GENERATOR, Direction::Right));
    update(&mut g);
    assert!(g.get(0, 0).is_none());
    assert_eq!(g.get(1, 0).unwrap().id, MOVER);
    assert_eq!(g.get(2, 0).unwrap().id, GENERATOR);
    let clone = g.get(3, 0).unwrap();
    assert_eq!(clone.id, MOVER);
    assert_eq!(clone.direction, Direction::Right);
}

#[test]
fn zero_sized_grid_still_ticks() {
    let mut g = Grid::new(0, 0);
    update(&mut g);
    assert_eq!(g.tick_count, 1);
    assert!(g.get(0, 0).is_none());
}

#[test]
fn single_cell_grid_mover_stays_marked() {
    let mut g = Grid::new(1, 1);
    g.set(0, 0, Cell::new(MOVER, Direction::Right));
    update(&mut g);
    let mover = g.get(0, 0).unwrap();
    assert_eq!(mover.id, MOVER);
    assert!(mover.updated);
    assert_eq!(g.tick_count, 1);
}
